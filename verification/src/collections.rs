//! Collections of other crates: small vectors that start on the stack, and vectors with a fixed
//! capacity.
use std::ops::Range;
use std::sync::Arc;

use vstd::prelude::*;

use crate::filter::{FilterAccountsLamports, FilteredUpdate};

verus! {

/// `arrayvec::ArrayVec`.
#[verifier::external_type_specification]
#[verifier::external_body]
#[verifier::reject_recursive_types(T)]
pub struct ExArrayVec<T, const CAP: usize>(arrayvec::ArrayVec<T, CAP>);

// ---------------------------------------------------------------------------------------------
// Parts of account data
// ---------------------------------------------------------------------------------------------

/// A `smallvec::SmallVec` of ranges.
#[verifier::external_body]
#[derive(Debug)]
pub struct RangeList {
    items: smallvec::SmallVec<[Range<usize>; 4]>,
}

/// The ranges of the list, in order.
pub uninterp spec fn ranges(v: RangeList) -> Seq<Range<usize>>;

impl RangeList {
    /// `SmallVec::new`: a list without items.
    #[verifier::external_body]
    pub(crate) fn new() -> (r: RangeList)
        ensures
            ranges(r) == Seq::<Range<usize>>::empty(),
    {
        RangeList { items: smallvec::SmallVec::new() }
    }

    /// `SmallVec::push`: one more item, at the end.
    #[verifier::external_body]
    pub(crate) fn push(&mut self, item: Range<usize>)
        ensures
            ranges(*final(self)) == ranges(*old(self)).push(item),
    {
        self.items.push(item)
    }

    /// `SmallVec::as_slice`: the items, in order.
    #[verifier::external_body]
    pub(crate) fn as_slice(&self) -> (r: &[Range<usize>])
        ensures
            r@ == ranges(*self),
    {
        self.items.as_slice()
    }
}

// ---------------------------------------------------------------------------------------------
// Names of filters
// ---------------------------------------------------------------------------------------------

/// A `smallvec::SmallVec` of names.
#[verifier::external_body]
#[derive(Debug)]
pub struct NameList<'a> {
    items: smallvec::SmallVec<[&'a str; 8]>,
}

/// The names of the list, in order.
pub uninterp spec fn names(v: NameList) -> Seq<Seq<char>>;

impl<'a> NameList<'a> {
    /// `SmallVec::new`: a list without items.
    #[verifier::external_body]
    pub(crate) fn new() -> (r: NameList<'a>)
        ensures
            names(r) == Seq::<Seq<char>>::empty(),
    {
        NameList { items: smallvec::SmallVec::new() }
    }

    /// `SmallVec::push`: one more item, at the end.
    #[verifier::external_body]
    pub(crate) fn push(&mut self, item: &'a str)
        ensures
            names(*final(self)) == names(*old(self)).push(item@),
    {
        self.items.push(item)
    }

    /// `SmallVec::len`: how many items there are.
    #[verifier::external_body]
    pub(crate) fn count(&self) -> (r: usize)
        ensures
            r == names(*self).len(),
    {
        self.items.len()
    }

    /// Indexing a `SmallVec`: the item at `i`.
    #[verifier::external_body]
    pub(crate) fn at(&self, i: usize) -> (r: &'a str)
        requires
            i < names(*self).len(),
        ensures
            r@ == names(*self)[i as int],
    {
        self.items[i]
    }

    /// How many names there are.
    pub fn len(&self) -> (r: usize)
        ensures
            r == names(*self).len(),
    {
        self.count()
    }

    /// The name at `i`, where there is one.
    pub fn get(&self, i: usize) -> (r: Option<&'a str>)
        ensures
            r is Some <==> i < names(*self).len(),
            r is Some ==> r->Some_0@ == names(*self)[i as int],
    {
        if i < self.count() {
            Some(self.at(i))
        } else {
            None
        }
    }
}

// ---------------------------------------------------------------------------------------------
// Updates
// ---------------------------------------------------------------------------------------------

/// A `smallvec::SmallVec` of updates.
#[verifier::external_body]
#[derive(Debug)]
pub struct UpdateList<'a> {
    items: smallvec::SmallVec<[FilteredUpdate<'a>; 2]>,
}

/// The updates of the list, in order.
pub uninterp spec fn updates(v: UpdateList) -> Seq<FilteredUpdate>;

impl<'a> UpdateList<'a> {
    /// `SmallVec::new`: a list without items.
    #[verifier::external_body]
    pub(crate) fn new() -> (r: UpdateList<'a>)
        ensures
            updates(r) == Seq::<FilteredUpdate>::empty(),
    {
        UpdateList { items: smallvec::SmallVec::new() }
    }

    /// `SmallVec::push`: one more item, at the end.
    #[verifier::external_body]
    pub(crate) fn push(&mut self, item: FilteredUpdate<'a>)
        ensures
            updates(*final(self)) == updates(*old(self)).push(item),
    {
        self.items.push(item)
    }

    /// `SmallVec::as_slice`: the items, in order.
    #[verifier::external_body]
    pub(crate) fn items(&self) -> (r: &[FilteredUpdate<'a>])
        ensures
            r@ == updates(*self),
    {
        self.items.as_slice()
    }

    /// The updates, in order.
    pub fn as_slice(&self) -> (r: &[FilteredUpdate<'a>])
        ensures
            r@ == updates(*self),
    {
        self.items()
    }
}

// ---------------------------------------------------------------------------------------------
// Comparisons of lamports and of memory
// ---------------------------------------------------------------------------------------------

/// The items of a vector of comparisons of lamports, in order.
pub uninterp spec fn lamports(v: arrayvec::ArrayVec<FilterAccountsLamports, 4>) -> Seq<
    FilterAccountsLamports,
>;

/// `ArrayVec::new`: a vector without items.
#[verifier::external_body]
pub(crate) fn lamports_new() -> (r: arrayvec::ArrayVec<FilterAccountsLamports, 4>)
    ensures
        lamports(r) == Seq::<FilterAccountsLamports>::empty(),
{
    arrayvec::ArrayVec::new()
}

/// `ArrayVec::push`: one more item, at the end, where there is room for it.
#[verifier::external_body]
pub(crate) fn lamports_push(
    v: &mut arrayvec::ArrayVec<FilterAccountsLamports, 4>,
    item: FilterAccountsLamports,
)
    requires
        lamports(*old(v)).len() < 4,
    ensures
        lamports(*final(v)) == lamports(*old(v)).push(item),
{
    v.push(item)
}

/// `ArrayVec::as_slice`: the items, in order.
#[verifier::external_body]
pub(crate) fn lamports_slice(v: &arrayvec::ArrayVec<FilterAccountsLamports, 4>) -> (r:
    &[FilterAccountsLamports])
    ensures
        r@ == lamports(*v),
{
    v.as_slice()
}

/// The items of a vector of bytes, in order.
pub uninterp spec fn chunk(v: arrayvec::ArrayVec<u8, 128>) -> Seq<u8>;

/// `ArrayVec::try_from` of a slice: a vector of the items of the slice, where there is room for
/// them.
#[verifier::external_body]
pub(crate) fn chunk_from(bytes: &[u8]) -> (r: Option<arrayvec::ArrayVec<u8, 128>>)
    ensures
        r is Some <==> bytes@.len() <= 128,
        r is Some ==> chunk(r->Some_0) == bytes@,
{
    arrayvec::ArrayVec::try_from(bytes).ok()
}

/// `ArrayVec::as_slice`: the items, in order.
#[verifier::external_body]
pub(crate) fn chunk_slice(v: &arrayvec::ArrayVec<u8, 128>) -> (r: &[u8])
    ensures
        r@ == chunk(*v),
{
    v.as_slice()
}

/// The items of a vector of offsets and bytes, in order.
pub uninterp spec fn chunks(
    v: arrayvec::ArrayVec<(usize, arrayvec::ArrayVec<u8, 128>), 4>,
) -> Seq<(usize, arrayvec::ArrayVec<u8, 128>)>;

/// `ArrayVec::new`: a vector without items.
#[verifier::external_body]
pub(crate) fn chunks_new() -> (r: arrayvec::ArrayVec<(usize, arrayvec::ArrayVec<u8, 128>), 4>)
    ensures
        chunks(r) == Seq::<(usize, arrayvec::ArrayVec<u8, 128>)>::empty(),
{
    arrayvec::ArrayVec::new()
}

/// `ArrayVec::push`: one more item, at the end, where there is room for it.
#[verifier::external_body]
pub(crate) fn chunks_push(
    v: &mut arrayvec::ArrayVec<(usize, arrayvec::ArrayVec<u8, 128>), 4>,
    item: (usize, arrayvec::ArrayVec<u8, 128>),
)
    requires
        chunks(*old(v)).len() < 4,
    ensures
        chunks(*final(v)) == chunks(*old(v)).push(item),
{
    v.push(item)
}

/// `ArrayVec::as_slice`: the items, in order.
#[verifier::external_body]
pub(crate) fn chunks_slice(
    v: &arrayvec::ArrayVec<(usize, arrayvec::ArrayVec<u8, 128>), 4>,
) -> (r: &[(usize, arrayvec::ArrayVec<u8, 128>)])
    ensures
        r@ == chunks(*v),
{
    v.as_slice()
}

// ---------------------------------------------------------------------------------------------
// Shared values
// ---------------------------------------------------------------------------------------------

/// `std::sync::Arc::clone`: the same value, shared once more.
#[verifier::external_body]
pub(crate) fn share<T>(value: &Arc<T>) -> (r: Arc<T>)
    ensures
        r == *value,
{
    Arc::clone(value)
}

} // verus!
