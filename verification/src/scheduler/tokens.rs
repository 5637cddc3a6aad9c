//! The tokens under which I/O objects are registered.

use slab::Slab;
use vstd::prelude::*;

verus! {

/// The preallocated store of the `slab` crate.
#[verifier::external_type_specification]
#[verifier::external_body]
#[verifier::reject_recursive_types(T)]
#[verifier::reject_recursive_types(I)]
pub struct ExSlab<T, I>(Slab<T, I>);

/// The values in a slab by their indices.
pub uninterp spec fn entries_of(slab: Slab<usize, usize>) -> Map<usize, usize>;

/// The vacant indices of a slab, in the order in which they are used.
pub uninterp spec fn vacant_of(slab: Slab<usize, usize>) -> Seq<usize>;

/// The number of slots of a slab.
pub open spec fn capacity_of(slab: Slab<usize, usize>) -> nat {
    entries_of(slab).dom().len() + vacant_of(slab).len()
}

/// So many indices, from `start` on.
pub open spec fn indices(start: nat, count: nat) -> Seq<usize> {
    Seq::new(count, |i: int| (start + i) as usize)
}

/// The most tokens there may be, so that the memory that they take can be counted.
pub const MAX_TOKENS: usize = usize::MAX / 128;

/// `Slab::with_capacity`: a slab in which all indices are vacant, to be used in ascending order.
/// It panics if the slots take more bytes than a vector can have.
#[verifier::external_body]
fn slab_with_capacity(capacity: usize) -> (slab: Slab<usize, usize>)
    requires
        capacity <= MAX_TOKENS,
    ensures
        entries_of(slab).dom() == Set::<usize>::empty(),
        vacant_of(slab) == indices(0, capacity as nat),
{
    Slab::with_capacity(capacity)
}

/// `Slab::available`: the number of vacant indices.
#[verifier::external_body]
fn slab_available(slab: &Slab<usize, usize>) -> (available: usize)
    ensures
        available == vacant_of(*slab).len(),
{
    slab.available()
}

/// `Slab::len`: the number of values.
#[verifier::external_body]
fn slab_len(slab: &Slab<usize, usize>) -> (len: usize)
    ensures
        len == entries_of(*slab).dom().len(),
{
    slab.len()
}

/// `Slab::reserve_exact`: so many more indices are vacant, and are used when the others are not
/// vacant any more. It panics if the slots would take more bytes than a vector can have.
#[verifier::external_body]
fn slab_reserve_exact(slab: &mut Slab<usize, usize>, additional: usize)
    requires
        capacity_of(*old(slab)) + additional <= MAX_TOKENS,
    ensures
        entries_of(*final(slab)) == entries_of(*old(slab)),
        vacant_of(*final(slab)) == vacant_of(*old(slab)) + indices(
            capacity_of(*old(slab)),
            additional as nat,
        ),
{
    slab.reserve_exact(additional)
}

/// `Slab::vacant_entry` and the index of the entry: the vacant index that is used next.
#[verifier::external_body]
fn slab_vacant_index(slab: &mut Slab<usize, usize>) -> (index: Option<usize>)
    ensures
        entries_of(*final(slab)) == entries_of(*old(slab)),
        vacant_of(*final(slab)) == vacant_of(*old(slab)),
        index is Some <==> vacant_of(*old(slab)).len() > 0,
        index matches Some(index) ==> index == vacant_of(*old(slab))[0],
{
    slab.vacant_entry().map(|entry| entry.index())
}

/// `Slab::insert`: stores a value at the vacant index that is used next. If there is none, the
/// value comes back.
#[verifier::external_body]
fn slab_insert(slab: &mut Slab<usize, usize>, value: usize) -> (index: Result<usize, usize>)
    ensures
        match index {
            Ok(index) => {
                &&& vacant_of(*old(slab)).len() > 0
                &&& index == vacant_of(*old(slab))[0]
                &&& !entries_of(*old(slab)).dom().contains(index)
                &&& entries_of(*final(slab)) == entries_of(*old(slab)).insert(index, value)
                &&& vacant_of(*final(slab)) == vacant_of(*old(slab)).drop_first()
            },
            Err(rejected) => {
                &&& vacant_of(*old(slab)).len() == 0
                &&& rejected == value
                &&& entries_of(*final(slab)) == entries_of(*old(slab))
                &&& vacant_of(*final(slab)) == vacant_of(*old(slab))
            },
        },
{
    slab.insert(value)
}

/// `Slab::remove`: takes the value at an index out, if there is one. The index is then the first
/// one to be used again.
#[verifier::external_body]
fn slab_remove(slab: &mut Slab<usize, usize>, index: usize) -> (value: Option<usize>)
    ensures
        match value {
            Some(value) => {
                &&& entries_of(*old(slab)).dom().contains(index)
                &&& value == entries_of(*old(slab))[index]
                &&& entries_of(*final(slab)) == entries_of(*old(slab)).remove(index)
                &&& vacant_of(*final(slab)) == seq![index] + vacant_of(*old(slab))
            },
            None => {
                &&& !entries_of(*old(slab)).dom().contains(index)
                &&& entries_of(*final(slab)) == entries_of(*old(slab))
                &&& vacant_of(*final(slab)) == vacant_of(*old(slab))
            },
        },
{
    slab.remove(index)
}

/// `Slab::get`: the value at an index, if there is one.
#[verifier::external_body]
fn slab_get(slab: &Slab<usize, usize>, index: usize) -> (value: Option<&usize>)
    ensures
        value is Some <==> entries_of(*slab).dom().contains(index),
        value matches Some(value) ==> *value == entries_of(*slab)[index],
{
    slab.get(index)
}

/// What is registered under which token. There are as many tokens as needed: when they run out,
/// their number doubles.
pub struct Tokens {
    slab: Slab<usize, usize>,
}

impl View for Tokens {
    type V = Map<usize, usize>;

    /// What is registered, by the tokens.
    closed spec fn view(&self) -> Map<usize, usize> {
        entries_of(self.slab)
    }
}

impl Tokens {
    /// The tokens that are given away next.
    pub closed spec fn vacant(&self) -> Seq<usize> {
        vacant_of(self.slab)
    }

    /// The tokens that are given away next once there is at least one: if there was none, as
    /// many are added as are in use, unless that would be too many.
    pub open spec fn grown(&self) -> Seq<usize> {
        let len = self@.dom().len();
        if self.vacant().len() == 0 && len + len <= MAX_TOKENS {
            indices(len, len)
        } else {
            self.vacant()
        }
    }

    /// So many tokens, all of them vacant.
    pub fn with_capacity(capacity: usize) -> (tokens: Tokens)
        requires
            capacity <= MAX_TOKENS,
        ensures
            tokens@ == Map::<usize, usize>::empty(),
            tokens.vacant() == indices(0, capacity as nat),
    {
        let tokens = Tokens { slab: slab_with_capacity(capacity) };
        proof {
            assert(tokens@ =~= Map::<usize, usize>::empty());
        }
        tokens
    }

    /// The token that is given away next, after adding tokens if there is none.
    pub fn next_token(&mut self) -> (token: Option<usize>)
        ensures
            final(self)@ == old(self)@,
            final(self).vacant() == old(self).grown(),
            token is Some <==> old(self).grown().len() > 0,
            token matches Some(token) ==> token == old(self).grown()[0],
    {
        if slab_available(&self.slab) == 0 {
            // doubles the size of the slab each time
            let grow = slab_len(&self.slab);
            if grow <= MAX_TOKENS / 2 {
                slab_reserve_exact(&mut self.slab, grow);
                proof {
                    assert(vacant_of(self.slab) =~= indices(grow as nat, grow as nat));
                }
            }
        }
        slab_vacant_index(&mut self.slab)
    }

    /// Registers a value under the token that is given away next.
    pub fn insert(&mut self, value: usize) -> (token: Result<usize, usize>)
        ensures
            match token {
                Ok(token) => {
                    &&& old(self).vacant().len() > 0
                    &&& token == old(self).vacant()[0]
                    &&& !old(self)@.dom().contains(token)
                    &&& final(self)@ == old(self)@.insert(token, value)
                    &&& final(self).vacant() == old(self).vacant().drop_first()
                },
                Err(rejected) => {
                    &&& old(self).vacant().len() == 0
                    &&& rejected == value
                    &&& final(self)@ == old(self)@
                    &&& final(self).vacant() == old(self).vacant()
                },
            },
    {
        slab_insert(&mut self.slab, value)
    }

    /// Takes a token back.
    pub fn remove(&mut self, token: usize) -> (value: Option<usize>)
        ensures
            value is Some <==> old(self)@.dom().contains(token),
            value matches Some(value) ==> value == old(self)@[token],
            final(self)@ == old(self)@.remove(token),
            final(self).vacant() == (if old(self)@.dom().contains(token) {
                seq![token] + old(self).vacant()
            } else {
                old(self).vacant()
            }),
    {
        let value = slab_remove(&mut self.slab, token);
        proof {
            if value is None {
                assert(old(self)@.remove(token) =~= old(self)@);
            }
        }
        value
    }

    /// What is registered under a token.
    pub fn get(&self, token: usize) -> (value: Option<usize>)
        ensures
            value is Some <==> self@.dom().contains(token),
            value matches Some(value) ==> value == self@[token],
    {
        match slab_get(&self.slab, token) {
            Some(value) => Some(*value),
            None => None,
        }
    }
}

/// When the tokens have run out, as many new ones come as are in use, unless that would be too
/// many, and they come behind those; while there are tokens none are added.
pub proof fn tokens_double_when_they_run_out(tokens: Tokens, i: int)
    ensures
        tokens.vacant().len() > 0 ==> tokens.grown() == tokens.vacant(),
        tokens.vacant().len() == 0 && 2 * tokens@.dom().len() <= MAX_TOKENS ==> {
            &&& tokens.grown().len() == tokens@.dom().len()
            &&& 0 <= i < tokens.grown().len() ==> tokens.grown()[i] == tokens@.dom().len() + i
        },
        tokens.vacant().len() == 0 && 2 * tokens@.dom().len() > MAX_TOKENS ==> tokens.grown().len()
            == 0,
{
}

} // verus!
