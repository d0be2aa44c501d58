# richat

Protobuf streams of Solana updates, written in Verus: every function of `src/` is verified against
its contract.

- `wire`, `codec`, `fields`, `decode`, `places`, `relocation`: the protobuf wire format, and the
  decoder that keeps the bytes of an update and remembers where in them its parts lie
- `geyser`, `richat`, `account`, `write_version`, `message`, `parser`, `block`: updates, and the
  messages that either parser makes of them
- `config`, `filter`, `collections`, `update`, `encode`: what a subscriber asks for, which updates
  pass, and how they are encoded
- `plugin`, `protobuf`, `slots`, `ring`, `channel`: what a validator tells of, encoded and fanned out
  to receivers
- `stream`, `request`, `text`, `pretty`, `stats`, `convert`, `track`: a client that subscribes, shows
  what comes, counts it, encodes it again to compare, and races several sources
- `readings`: what the validator's own types, the codec of block footers and the parser of socket
  addresses made of parts of updates, which the caller finds out and hands in
- `round_trip`, `again`, `limited`, `told`, `agree`: what was encoded is read back, both parsers say the
  same of it, and an update that is passed on is the update that came

What `prost`, `yellowstone-grpc-proto`, `arrayvec`, `smallvec`, `spl-token-2022-interface` and the
`solana-*` crates do stands behind small functions whose contracts are taken on trust. `app/` is the
program around the library: arguments, network and output.
