//! Why bytes could not be decoded.
use vstd::prelude::*;

verus! {

/// The cause of a decoding error.
#[derive(Debug, Clone, Copy, PartialEq, Eq, Structural)]
pub enum DecodeErrorKind {
    /// A varint is cut short or does not fit 64 bits.
    InvalidVarint,
    /// A key is no varint, has no valid wire type or no valid tag.
    InvalidKey,
    /// A field has another wire type than its tag asks for.
    UnexpectedWireType,
    /// An unknown field cannot be skipped.
    InvalidField,
    /// A length prefix reaches beyond the end of the buffer.
    BufferUnderflow,
    /// A nested message ends beyond its length prefix.
    DelimitedLengthExceeded,
    /// A public key has not 32 bytes.
    InvalidPubkeyLength,
    /// A signature has not 64 bytes.
    InvalidSignatureLength,
    /// The same update occurs twice.
    MergeNotSupported,
    /// A timestamp is malformed.
    InvalidTimestamp,
    /// A message is malformed.
    InvalidMessage,
}

impl DecodeErrorKind {
    /// The cause in words.
    pub fn description(&self) -> (r: &'static str)
        ensures
            r@ == self.text(),
    {
        match self {
            DecodeErrorKind::InvalidVarint => "invalid varint",
            DecodeErrorKind::InvalidKey => "invalid key",
            DecodeErrorKind::UnexpectedWireType => "invalid wire type",
            DecodeErrorKind::InvalidField => "invalid field",
            DecodeErrorKind::BufferUnderflow => "buffer underflow",
            DecodeErrorKind::DelimitedLengthExceeded => "delimited length exceeded",
            DecodeErrorKind::InvalidPubkeyLength => "invalid pubkey length",
            DecodeErrorKind::InvalidSignatureLength => "invalid signature length",
            DecodeErrorKind::MergeNotSupported => "merge is not supported",
            DecodeErrorKind::InvalidTimestamp => "invalid timestamp",
            DecodeErrorKind::InvalidMessage => "invalid message",
        }
    }

    /// The cause in words.
    pub open spec fn text(self) -> Seq<char> {
        match self {
            DecodeErrorKind::InvalidVarint => "invalid varint"@,
            DecodeErrorKind::InvalidKey => "invalid key"@,
            DecodeErrorKind::UnexpectedWireType => "invalid wire type"@,
            DecodeErrorKind::InvalidField => "invalid field"@,
            DecodeErrorKind::BufferUnderflow => "buffer underflow"@,
            DecodeErrorKind::DelimitedLengthExceeded => "delimited length exceeded"@,
            DecodeErrorKind::InvalidPubkeyLength => "invalid pubkey length"@,
            DecodeErrorKind::InvalidSignatureLength => "invalid signature length"@,
            DecodeErrorKind::MergeNotSupported => "merge is not supported"@,
            DecodeErrorKind::InvalidTimestamp => "invalid timestamp"@,
            DecodeErrorKind::InvalidMessage => "invalid message"@,
        }
    }
}

/// A message type and one of its fields.
pub type FieldName = (&'static str, &'static str);

/// A decoding error: its cause, and the fields that were being decoded, innermost first.
#[derive(Debug, Clone, PartialEq, Eq)]
pub struct WireError {
    pub kind: DecodeErrorKind,
    pub stack: Vec<FieldName>,
}

/// What a [`WireError`] says.
pub type Failure = (DecodeErrorKind, Seq<FieldName>);

impl View for WireError {
    type V = Failure;

    open spec fn view(&self) -> Failure {
        (self.kind, self.stack@)
    }
}

/// A failure outside any field.
pub open spec fn failure(kind: DecodeErrorKind) -> Failure {
    (kind, Seq::empty())
}

/// A failure in one field.
pub open spec fn failure_in(kind: DecodeErrorKind, message: &'static str, field: &'static str) -> Failure {
    (kind, seq![(message, field)])
}

/// The failure `f`, seen from the field that holds the value that failed.
pub open spec fn within(f: Failure, message: &'static str, field: &'static str) -> Failure {
    (f.0, f.1.push((message, field)))
}

/// A decoding error outside any field.
pub fn create_decode_error(kind: DecodeErrorKind) -> (r: WireError)
    ensures
        r@ == failure(kind),
{
    WireError { kind, stack: Vec::new() }
}

/// A decoding error in one field.
pub fn decode_error(kind: DecodeErrorKind, message: &'static str, field: &'static str) -> (r:
    WireError)
    ensures
        r@ == failure_in(kind, message, field),
{
    let mut error = create_decode_error(kind);
    error.push(message, field);
    assert(error.stack@ =~= seq![(message, field)]);
    error
}

impl WireError {
    /// Adds the field that holds the value that failed.
    pub fn push(&mut self, message: &'static str, field: &'static str)
        ensures
            final(self)@ == within(old(self)@, message, field),
    {
        self.stack.push((message, field));
    }
}

} // verus!
