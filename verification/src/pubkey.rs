//! Public keys and sets of them.
use vstd::prelude::*;

verus! {

/// The number of a slot.
pub type Slot = u64;

/// The number of an epoch.
pub type Epoch = u64;

/// The length of a public key.
pub const PUBKEY_BYTES: usize = 32;

/// The length of a signature.
pub const SIGNATURE_BYTES: usize = 64;

/// A public key.
#[derive(Debug, Clone, Copy, PartialEq, Eq, Hash)]
pub struct Pubkey {
    pub bytes: [u8; 32],
}

impl View for Pubkey {
    type V = Seq<u8>;

    open spec fn view(&self) -> Seq<u8> {
        self.bytes@
    }
}

/// The bytes of the key that is all zeros.
pub open spec fn pubkey_zero() -> Seq<u8> {
    Seq::new(32, |i: int| 0u8)
}

impl Pubkey {
    /// The key that is all zeros.
    pub fn zero() -> (r: Pubkey)
        ensures
            r@ == pubkey_zero(),
    {
        let mut bytes = [0u8; 32];
        let mut i: usize = 0;
        while i < 32
            invariant
                i <= 32,
                bytes@.len() == 32,
                forall|j: int| 0 <= j < i ==> bytes@[j] == 0,
            decreases 32 - i,
        {
            bytes[i] = 0;
            i = i + 1;
        }
        assert(bytes@ =~= pubkey_zero());
        Pubkey { bytes }
    }

    /// The bytes of the key.
    pub fn as_slice(&self) -> (r: &[u8])
        ensures
            r@ == self@,
    {
        self.bytes.as_slice()
    }

    /// The key with the bytes of `slice`, where there are 32 of them.
    pub fn from_slice(slice: &[u8]) -> (r: Option<Pubkey>)
        ensures
            r is Some <==> slice@.len() == 32,
            r is Some ==> r->Some_0@ == slice@,
    {
        if slice.len() != PUBKEY_BYTES {
            return None;
        }
        let mut bytes = [0u8; 32];
        let mut i: usize = 0;
        while i < 32
            invariant
                i <= 32,
                slice@.len() == 32,
                bytes@.len() == 32,
                forall|j: int| 0 <= j < i ==> bytes@[j] == slice@[j],
            decreases 32 - i,
        {
            bytes[i] = slice[i];
            i = i + 1;
        }
        assert(bytes@ =~= slice@);
        Some(Pubkey { bytes })
    }

    /// Whether two keys are the same.
    pub fn equals(&self, other: &Pubkey) -> (r: bool)
        ensures
            r == (self@ == other@),
    {
        let mut i: usize = 0;
        while i < 32
            invariant
                i <= 32,
                forall|j: int| 0 <= j < i ==> self@[j] == other@[j],
            decreases 32 - i,
        {
            if self.bytes[i] != other.bytes[i] {
                assert(self@[i as int] != other@[i as int]);
                return false;
            }
            i = i + 1;
        }
        assert(self@ =~= other@);
        true
    }
}

/// A signature.
#[derive(Debug, Clone, Copy, PartialEq, Eq, Hash)]
pub struct Signature {
    pub bytes: [u8; 64],
}

impl View for Signature {
    type V = Seq<u8>;

    open spec fn view(&self) -> Seq<u8> {
        self.bytes@
    }
}

impl Signature {
    /// The signature with the bytes of `slice`, where there are 64 of them.
    pub fn from_slice(slice: &[u8]) -> (r: Option<Signature>)
        ensures
            r is Some <==> slice@.len() == 64,
            r is Some ==> r->Some_0@ == slice@,
    {
        if slice.len() != SIGNATURE_BYTES {
            return None;
        }
        let mut bytes = [0u8; 64];
        let mut i: usize = 0;
        while i < 64
            invariant
                i <= 64,
                slice@.len() == 64,
                bytes@.len() == 64,
                forall|j: int| 0 <= j < i ==> bytes@[j] == slice@[j],
            decreases 64 - i,
        {
            bytes[i] = slice[i];
            i = i + 1;
        }
        assert(bytes@ =~= slice@);
        Some(Signature { bytes })
    }

    /// Whether these are the bytes of the signature.
    pub fn equals(&self, other: &[u8]) -> (r: bool)
        ensures
            r == (self@ == other@),
    {
        if other.len() != SIGNATURE_BYTES {
            return false;
        }
        let mut i: usize = 0;
        while i < 64
            invariant
                i <= 64,
                other@.len() == 64,
                forall|j: int| 0 <= j < i ==> self@[j] == other@[j],
            decreases 64 - i,
        {
            if self.bytes[i] != other[i] {
                assert(self@[i as int] != other@[i as int]);
                return false;
            }
            i = i + 1;
        }
        assert(self@ =~= other@);
        true
    }
}

/// A set of public keys, in the order in which they first came.
#[derive(Debug)]
pub struct PubkeySet {
    keys: Vec<Pubkey>,
}

/// The bytes of each of `keys`.
pub open spec fn key_seq(keys: Seq<Pubkey>) -> Seq<Seq<u8>> {
    keys.map_values(|k: Pubkey| k@)
}

/// The call of `Vec::capacity`. It is the number of elements that fit without allocating anew, so
/// no less than the number of elements held. How much an allocator gave beyond that is open.
#[verifier::external_body]
fn room(keys: &Vec<Pubkey>) -> (r: usize)
    ensures
        r >= keys@.len(),
{
    keys.capacity()
}

impl View for PubkeySet {
    type V = Set<Seq<u8>>;

    closed spec fn view(&self) -> Set<Seq<u8>> {
        key_seq(self.keys@).to_set()
    }
}

impl Clone for PubkeySet {
    fn clone(&self) -> (r: Self)
        ensures
            r@ == self@,
    {
        proof {
            use_type_invariant(self);
        }
        let keys: Vec<Pubkey> = self.keys.clone();
        assert(keys@ =~= self.keys@);
        PubkeySet { keys }
    }
}

impl PubkeySet {
    /// No key is held twice.
    #[verifier::type_invariant]
    spec fn wf(&self) -> bool {
        key_seq(self.keys@).no_duplicates()
    }

    /// The empty set.
    pub fn new() -> (r: PubkeySet)
        ensures
            r@ == Set::<Seq<u8>>::empty(),
    {
        let r = PubkeySet { keys: Vec::new() };
        assert(r@ =~= Set::<Seq<u8>>::empty());
        r
    }

    /// The number of keys that the set has room for.
    pub fn capacity(&self) -> (r: usize)
        ensures
            r >= self@.len(),
            self@.finite(),
    {
        proof {
            use_type_invariant(self);
            key_seq(self.keys@).unique_seq_to_set();
        }
        room(&self.keys)
    }

    /// The number of keys.
    pub fn len(&self) -> (r: usize)
        ensures
            r == self@.len(),
            self@.finite(),
    {
        proof {
            use_type_invariant(self);
            key_seq(self.keys@).unique_seq_to_set();
        }
        self.keys.len()
    }

    /// Whether there is no key.
    pub fn is_empty(&self) -> (r: bool)
        ensures
            r == (self@ == Set::<Seq<u8>>::empty()),
    {
        proof {
            if self.keys@.len() > 0 {
                assert(key_seq(self.keys@)[0] == self.keys@[0]@);
                assert(self@.contains(self.keys@[0]@));
            } else {
                assert(self@ =~= Set::<Seq<u8>>::empty());
            }
        }
        self.keys.len() == 0
    }

    /// Whether `key` is among the keys.
    pub fn contains(&self, key: &Pubkey) -> (r: bool)
        ensures
            r == self@.contains(key@),
    {
        let mut i: usize = 0;
        while i < self.keys.len()
            invariant
                i <= self.keys@.len(),
                forall|j: int| 0 <= j < i ==> key_seq(self.keys@)[j] != key@,
            decreases self.keys@.len() - i,
        {
            if self.keys[i].equals(key) {
                assert(key_seq(self.keys@)[i as int] == key@);
                return true;
            }
            i = i + 1;
        }
        false
    }

    /// Adds `key`, and tells whether it was not there before.
    pub fn insert(&mut self, key: Pubkey) -> (r: bool)
        ensures
            final(self)@ == old(self)@.insert(key@),
            r == !old(self)@.contains(key@),
    {
        proof {
            use_type_invariant(&*self);
        }
        let ghost before = key_seq(self.keys@);
        if self.contains(&key) {
            assert(self@ =~= old(self)@.insert(key@));
            false
        } else {
            let mut keys: Vec<Pubkey> = Vec::new();
            std::mem::swap(&mut keys, &mut self.keys);
            keys.push(key);
            proof {
                let now = key_seq(keys@);
                assert(now =~= before.push(key@));
                assert forall|k: Seq<u8>| now.contains(k) <==> before.contains(k) || k == key@ by {
                    if before.contains(k) {
                        let i = choose|i: int| 0 <= i < before.len() && before[i] == k;
                        assert(now[i] == k);
                    }
                    assert(now[now.len() - 1] == key@);
                }
            }
            self.keys = keys;
            assert(self@ =~= old(self)@.insert(key@));
            true
        }
    }

    /// The set of `keys`.
    pub fn from_keys(keys: &Vec<Pubkey>) -> (r: PubkeySet)
        ensures
            r@ == key_seq(keys@).to_set(),
    {
        let mut set = PubkeySet::new();
        let mut i: usize = 0;
        let ghost all = key_seq(keys@);
        assert(all.take(0).to_set() =~= Set::<Seq<u8>>::empty());
        while i < keys.len()
            invariant
                i <= keys@.len(),
                all == key_seq(keys@),
                set@ == all.take(i as int).to_set(),
            decreases keys@.len() - i,
        {
            let _ = set.insert(keys[i]);
            proof {
                let next = all.take(i + 1);
                assert(next =~= all.take(i as int).push(all[i as int]));
                assert forall|k: Seq<u8>| next.contains(k) <==> all.take(i as int).contains(k) || k
                    == all[i as int] by {
                    if all.take(i as int).contains(k) {
                        let j = choose|j: int|
                            0 <= j < all.take(i as int).len() && all.take(i as int)[j] == k;
                        assert(next[j] == k);
                    }
                    assert(next[i as int] == all[i as int]);
                }
                assert(next.to_set() =~= all.take(i as int).to_set().insert(all[i as int]));
            }
            i = i + 1;
        }
        assert(all.take(keys@.len() as int) =~= all);
        set
    }

    /// Whether some key is in both sets.
    pub fn intersects(&self, other: &PubkeySet) -> (r: bool)
        ensures
            r == !self@.disjoint(other@),
    {
        let mut i: usize = 0;
        while i < self.keys.len()
            invariant
                i <= self.keys@.len(),
                forall|j: int| 0 <= j < i ==> !other@.contains(key_seq(self.keys@)[j]),
            decreases self.keys@.len() - i,
        {
            if other.contains(&self.keys[i]) {
                assert(key_seq(self.keys@)[i as int] == self.keys@[i as int]@);
                assert(self@.contains(self.keys@[i as int]@));
                return true;
            }
            i = i + 1;
        }
        assert(self@.disjoint(other@)) by {
            assert forall|k: Seq<u8>| self@.contains(k) implies !other@.contains(k) by {
                let j = choose|j: int|
                    0 <= j < key_seq(self.keys@).len() && key_seq(self.keys@)[j] == k;
                assert(!other@.contains(key_seq(self.keys@)[j]));
            }
        }
        false
    }

    /// Whether all keys are in the other set.
    pub fn is_subset(&self, other: &PubkeySet) -> (r: bool)
        ensures
            r == self@.subset_of(other@),
    {
        let mut i: usize = 0;
        while i < self.keys.len()
            invariant
                i <= self.keys@.len(),
                forall|j: int| 0 <= j < i ==> other@.contains(key_seq(self.keys@)[j]),
            decreases self.keys@.len() - i,
        {
            if !other.contains(&self.keys[i]) {
                assert(key_seq(self.keys@)[i as int] == self.keys@[i as int]@);
                assert(self@.contains(self.keys@[i as int]@));
                return false;
            }
            i = i + 1;
        }
        assert forall|k: Seq<u8>| self@.contains(k) implies other@.contains(k) by {
            let j = choose|j: int|
                0 <= j < key_seq(self.keys@).len() && key_seq(self.keys@)[j] == k;
            assert(other@.contains(key_seq(self.keys@)[j]));
        }
        true
    }

    /// The keys, in the order in which they first came.
    pub fn keys(&self) -> (r: &Vec<Pubkey>)
        ensures
            key_seq(r@).to_set() == self@,
            key_seq(r@).no_duplicates(),
    {
        proof {
            use_type_invariant(self);
        }
        &self.keys
    }
}

} // verus!
