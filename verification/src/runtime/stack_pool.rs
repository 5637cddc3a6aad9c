//! A pool of coroutine stacks.
//!
//! Stacks of finished coroutines are kept in buckets by size and handed out again. The buckets
//! are ordered by their last use; when the pool holds more than its high water mark, stacks are
//! released from the least recently used bucket on until the low water mark is reached.

use context::stack::{ProtectedFixedSizeStack, StackError};
use linked_hash_map::LinkedHashMap;
use vstd::prelude::*;

verus! {

/// The guarded stack memory of the `context` crate.
#[verifier::external_type_specification]
#[verifier::external_body]
pub struct ExProtectedFixedSizeStack(ProtectedFixedSizeStack);

/// What the `context` crate reports when it cannot give a stack.
#[verifier::external_type_specification]
#[verifier::external_body]
pub struct ExStackError(StackError);

/// The map of the `linked_hash_map` crate, which remembers the order of its entries.
#[verifier::external_type_specification]
#[verifier::external_body]
#[verifier::reject_recursive_types(K)]
#[verifier::reject_recursive_types(V)]
#[verifier::reject_recursive_types(S)]
pub struct ExLinkedHashMap<K, V, S>(LinkedHashMap<K, V, S>);

/// A stack for one coroutine: its memory, the size that was asked for, and the bytes that it has.
pub struct Stack {
    inner: ProtectedFixedSizeStack,
    size: usize,
    len: usize,
}

impl Stack {
    /// There are at least as many bytes as were asked for.
    #[verifier::type_invariant]
    spec fn large_enough(&self) -> bool {
        self.len >= self.size
    }

    /// The bytes of the stack, without its guard page.
    pub closed spec fn spec_len(&self) -> usize {
        self.len
    }

    /// The bytes of the stack, without its guard page. They are enough for what was asked for.
    pub fn len(&self) -> (len: usize)
        ensures
            len == self.spec_len(),
            len >= self.spec_size(),
    {
        proof {
            use_type_invariant(self);
        }
        self.len
    }

    /// The size that was asked for.
    pub closed spec fn spec_size(&self) -> usize {
        self.size
    }

    /// The size that was asked for.
    pub fn size(&self) -> (size: usize)
        ensures
            size == self.spec_size(),
    {
        self.size
    }

    /// The memory of the stack.
    pub closed spec fn spec_inner(&self) -> ProtectedFixedSizeStack {
        self.inner
    }

    /// The memory of the stack.
    pub fn inner(&self) -> (inner: &ProtectedFixedSizeStack)
        ensures
            *inner == self.spec_inner(),
    {
        &self.inner
    }
}

/// No stack of this size could be had from the system.
#[derive(Debug, Clone, Copy, PartialEq, Eq, Structural)]
pub struct StackUnavailable {
    pub size: usize,
}

/// The buckets in the order of their last use, the least recently used one first, each with its
/// size and its stacks.
pub type Buckets = Seq<(usize, Seq<Stack>)>;

/// The buckets that the map holds.
pub uninterp spec fn buckets_of(map: LinkedHashMap<usize, Vec<Stack>>) -> Seq<(usize, Seq<Stack>)>;

/// There is a bucket for stacks of this size.
pub open spec fn has_bucket(buckets: Buckets, size: usize) -> bool {
    exists|i: int| 0 <= i < buckets.len() && #[trigger] buckets[i].0 == size
}

/// The place of the bucket for stacks of this size.
pub open spec fn bucket_index(buckets: Buckets, size: usize) -> int {
    choose|i: int| 0 <= i < buckets.len() && #[trigger] buckets[i].0 == size
}

/// The stacks of this size in the pool, none if there is no such bucket.
pub open spec fn stacks_of_size(buckets: Buckets, size: usize) -> Seq<Stack> {
    if has_bucket(buckets, size) {
        buckets[bucket_index(buckets, size)].1
    } else {
        Seq::empty()
    }
}

/// The buckets after one of them has been used: it holds `stacks` now and is the last one.
pub open spec fn refreshed(buckets: Buckets, size: usize, stacks: Seq<Stack>) -> Buckets {
    if has_bucket(buckets, size) {
        buckets.remove(bucket_index(buckets, size)).push((size, stacks))
    } else {
        buckets.push((size, stacks))
    }
}

/// `LinkedHashMap::new`: the map is empty.
#[verifier::external_body]
fn map_new() -> (map: LinkedHashMap<usize, Vec<Stack>>)
    ensures
        buckets_of(map) == Seq::<(usize, Seq<Stack>)>::empty(),
{
    LinkedHashMap::new()
}

/// `LinkedHashMap::get_refresh`: gives access to the value of the key if there is one, and moves
/// its entry to the end; changes nothing if there is none.
#[verifier::external_body]
fn map_get_refresh(map: &mut LinkedHashMap<usize, Vec<Stack>>, size: usize) -> (found: Option<
    &mut Vec<Stack>,
>)
    ensures
        match found {
            Some(cached) => {
                let list = buckets_of(*old(map));
                &&& has_bucket(list, size)
                &&& cached@ == stacks_of_size(list, size)
                &&& buckets_of(*final(map)) == refreshed(list, size, final(cached)@)
            },
            None => {
                &&& !has_bucket(buckets_of(*old(map)), size)
                &&& buckets_of(*final(map)) == buckets_of(*old(map))
            },
        },
{
    map.get_refresh(&size)
}

/// `LinkedHashMap::get_mut`: gives access to the value of the key if there is one; the order of
/// the entries stays as it is.
#[verifier::external_body]
fn map_get_mut(map: &mut LinkedHashMap<usize, Vec<Stack>>, size: usize) -> (found: Option<
    &mut Vec<Stack>,
>)
    ensures
        match found {
            Some(cached) => {
                let list = buckets_of(*old(map));
                &&& has_bucket(list, size)
                &&& cached@ == stacks_of_size(list, size)
                &&& buckets_of(*final(map)) == list.update(
                    bucket_index(list, size),
                    (size, final(cached)@),
                )
            },
            None => {
                &&& !has_bucket(buckets_of(*old(map)), size)
                &&& buckets_of(*final(map)) == buckets_of(*old(map))
            },
        },
{
    map.get_mut(&size)
}

/// `LinkedHashMap::insert`: the entry of the key has the new value and is the last one; the old
/// value comes back if there was one.
#[verifier::external_body]
fn map_insert(map: &mut LinkedHashMap<usize, Vec<Stack>>, size: usize, stacks: Vec<Stack>) -> (
previous: Option<Vec<Stack>>)
    ensures
        buckets_of(*final(map)) == refreshed(buckets_of(*old(map)), size, stacks@),
        previous is Some <==> has_bucket(buckets_of(*old(map)), size),
        previous matches Some(v) ==> v@ == stacks_of_size(buckets_of(*old(map)), size),
{
    map.insert(size, stacks)
}

/// `LinkedHashMap::front`: the first entry; here its key.
#[verifier::external_body]
fn map_front(map: &LinkedHashMap<usize, Vec<Stack>>) -> (first: Option<usize>)
    ensures
        first == (if buckets_of(*map).len() == 0 {
            None
        } else {
            Some(buckets_of(*map)[0].0)
        }),
{
    map.front().map(|entry| *entry.0)
}

/// `LinkedHashMap::pop_front`: takes the first entry out.
#[verifier::external_body]
fn map_pop_front(map: &mut LinkedHashMap<usize, Vec<Stack>>) -> (first: Option<
    (usize, Vec<Stack>),
>)
    ensures
        match first {
            Some((size, stacks)) => {
                let list = buckets_of(*old(map));
                &&& list.len() > 0
                &&& size == list[0].0
                &&& stacks@ == list[0].1
                &&& buckets_of(*final(map)) == list.skip(1)
            },
            None => {
                &&& buckets_of(*old(map)).len() == 0
                &&& buckets_of(*final(map)) == buckets_of(*old(map))
            },
        },
{
    map.pop_front()
}

/// `ProtectedFixedSizeStack::new`, with the `len` of the stack: asks the system for the memory of
/// one stack, which then has at least `size` bytes between its ends, without its guard page.
/// Whether the system has it to give depends on the machine, and so does where it lies, of which
/// nothing is said.
#[verifier::external_body]
fn protected_stack(size: usize) -> (stack: Result<(ProtectedFixedSizeStack, usize), StackError>)
    ensures
        stack matches Ok(pair) ==> pair.1 >= size,
{
    ProtectedFixedSizeStack::new(size).map(|stack| {
        let len = stack.len();
        (stack, len)
    })
}

/// The bytes in all stacks of the buckets.
pub open spec fn total_of(buckets: Buckets) -> nat
    decreases buckets.len(),
{
    if buckets.len() == 0 {
        0
    } else {
        buckets.last().0 as nat * buckets.last().1.len() + total_of(buckets.drop_last())
    }
}

/// The sizes of some stacks, added up.
pub open spec fn sizes_of(stacks: Seq<Stack>) -> nat
    decreases stacks.len(),
{
    if stacks.len() == 0 {
        0
    } else {
        sizes_of(stacks.drop_last()) + stacks.last().spec_size() as nat
    }
}

/// The sizes of all stacks of the buckets, added up.
pub open spec fn sum_of_sizes(buckets: Buckets) -> nat
    decreases buckets.len(),
{
    if buckets.len() == 0 {
        0
    } else {
        sum_of_sizes(buckets.drop_last()) + sizes_of(buckets.last().1)
    }
}

proof fn lemma_sizes_of(stacks: Seq<Stack>, size: usize)
    requires
        forall|k: int| 0 <= k < stacks.len() ==> (#[trigger] stacks[k]).spec_size() == size,
    ensures
        sizes_of(stacks) == size as nat * stacks.len(),
    decreases stacks.len(),
{
    if stacks.len() == 0 {
        assert(size as nat * stacks.len() == 0) by (nonlinear_arith)
            requires
                stacks.len() == 0,
        ;
    } else {
        let rest = stacks.drop_last();
        assert forall|k: int| 0 <= k < rest.len() implies (#[trigger] rest[k]).spec_size()
            == size by {
            assert(rest[k] == stacks[k]);
        }
        lemma_sizes_of(rest, size);
        assert(stacks.last().spec_size() == size);
        assert(size as nat * stacks.len() == size as nat * rest.len() + size) by (nonlinear_arith)
            requires
                stacks.len() == rest.len() + 1,
        ;
    }
}

/// One bucket per size, which holds stacks of that size only.
pub open spec fn sorted_by_size(buckets: Buckets) -> bool {
    &&& forall|i: int, j: int|
        0 <= i < j < buckets.len() ==> (#[trigger] buckets[i]).0 != (#[trigger] buckets[j]).0
    &&& forall|i: int, k: int|
        0 <= i < buckets.len() && 0 <= k < buckets[i].1.len() ==> (
        #[trigger] buckets[i].1[k]).spec_size() == buckets[i].0
}

/// The buckets without the one stack that goes first: the one that was put last into the least
/// recently used bucket that has any. The empty buckets before it go too, and its own bucket if
/// that was its only stack.
pub open spec fn without_oldest(buckets: Buckets) -> Buckets
    decreases buckets.len(),
{
    if buckets.len() == 0 {
        buckets
    } else if buckets[0].1.len() == 0 {
        without_oldest(buckets.skip(1))
    } else if buckets[0].1.len() == 1 {
        buckets.skip(1)
    } else {
        buckets.update(0, (buckets[0].0, buckets[0].1.drop_last()))
    }
}

/// The buckets after `n` stacks have gone, one by one.
pub open spec fn without_oldest_n(buckets: Buckets, n: nat) -> Buckets
    decreases n,
{
    if n == 0 {
        buckets
    } else {
        without_oldest(without_oldest_n(buckets, (n - 1) as nat))
    }
}

/// `after` is what is left of `before` when the oldest stacks go one by one for as long as there
/// are more than `bound` bytes.
pub open spec fn shrunk(before: Buckets, after: Buckets, bound: nat) -> bool {
    exists|n: nat| #[trigger] shrunk_by(before, after, bound, n)
}

/// `after` is what is left of `before` when the `n` oldest stacks have gone, and `n` is the least
/// number for which no more than `bound` bytes are left.
pub open spec fn shrunk_by(before: Buckets, after: Buckets, bound: nat, n: nat) -> bool {
    &&& after == without_oldest_n(before, n)
    &&& total_of(after) <= bound
    &&& forall|m: nat| m < n ==> total_of(#[trigger] without_oldest_n(before, m)) > bound
}

proof fn lemma_total_push(buckets: Buckets, bucket: (usize, Seq<Stack>))
    ensures
        total_of(buckets.push(bucket)) == total_of(buckets) + bucket.0 as nat * bucket.1.len(),
{
    assert(buckets.push(bucket).drop_last() =~= buckets);
}

proof fn lemma_total_remove(buckets: Buckets, i: int)
    requires
        0 <= i < buckets.len(),
    ensures
        total_of(buckets) == total_of(buckets.remove(i)) + buckets[i].0 as nat
            * buckets[i].1.len(),
    decreases buckets.len(),
{
    if i == buckets.len() - 1 {
        assert(buckets.remove(i) =~= buckets.drop_last());
    } else {
        lemma_total_remove(buckets.drop_last(), i);
        assert(buckets.remove(i).drop_last() =~= buckets.drop_last().remove(i));
        assert(buckets.remove(i).last() == buckets.last());
        assert(buckets.drop_last()[i] == buckets[i]);
    }
}

proof fn lemma_total_update(buckets: Buckets, i: int, bucket: (usize, Seq<Stack>))
    requires
        0 <= i < buckets.len(),
    ensures
        total_of(buckets.update(i, bucket)) + buckets[i].0 as nat * buckets[i].1.len()
            == total_of(buckets) + bucket.0 as nat * bucket.1.len(),
{
    let updated = buckets.update(i, bucket);
    lemma_total_remove(buckets, i);
    lemma_total_remove(updated, i);
    assert(updated.remove(i) =~= buckets.remove(i));
}

proof fn lemma_total_skip(buckets: Buckets)
    requires
        buckets.len() > 0,
    ensures
        total_of(buckets) == total_of(buckets.skip(1)) + buckets[0].0 as nat
            * buckets[0].1.len(),
{
    lemma_total_remove(buckets, 0);
    assert(buckets.remove(0) =~= buckets.skip(1));
}

/// Using a bucket leaves the bytes in the other ones as they are.
proof fn lemma_total_refreshed(buckets: Buckets, size: usize, stacks: Seq<Stack>)
    ensures
        total_of(refreshed(buckets, size, stacks)) + size as nat * stacks_of_size(
            buckets,
            size,
        ).len() == total_of(buckets) + size as nat * stacks.len(),
{
    if has_bucket(buckets, size) {
        let i = bucket_index(buckets, size);
        lemma_total_remove(buckets, i);
        lemma_total_push(buckets.remove(i), (size, stacks));
    } else {
        lemma_total_push(buckets, (size, stacks));
        assert(size as nat * stacks_of_size(buckets, size).len() == 0) by (nonlinear_arith)
            requires
                stacks_of_size(buckets, size).len() == 0,
        ;
    }
}

proof fn lemma_refreshed_sorted(buckets: Buckets, size: usize, stacks: Seq<Stack>)
    requires
        sorted_by_size(buckets),
        forall|k: int| 0 <= k < stacks.len() ==> (#[trigger] stacks[k]).spec_size() == size,
    ensures
        sorted_by_size(refreshed(buckets, size, stacks)),
        has_bucket(refreshed(buckets, size, stacks), size),
        stacks_of_size(refreshed(buckets, size, stacks), size) == stacks,
{
    let after = refreshed(buckets, size, stacks);
    let last = after.len() - 1;
    assert(after[last] == (size, stacks));
    if has_bucket(buckets, size) {
        let i = bucket_index(buckets, size);
        assert forall|k: int| 0 <= k < last implies (#[trigger] after[k]) == buckets[if k < i {
            k
        } else {
            k + 1
        }] by {}
    }
    let j = bucket_index(after, size);
    assert(after[last].0 == size);
    assert(after[j].0 == size);
}

proof fn lemma_same_size(buckets: Buckets, size: usize)
    requires
        sorted_by_size(buckets),
    ensures
        forall|k: int|
            0 <= k < stacks_of_size(buckets, size).len() ==> (#[trigger] stacks_of_size(
                buckets,
                size,
            )[k]).spec_size() == size,
{
    if has_bucket(buckets, size) {
        let i = bucket_index(buckets, size);
        assert(buckets[i].0 == size);
    }
}

/// The first `j` buckets are empty.
spec fn starts_empty(buckets: Buckets, j: nat) -> bool {
    j <= buckets.len() && forall|i: int| 0 <= i < j ==> (#[trigger] buckets[i]).1.len() == 0
}

proof fn lemma_skip_empty(buckets: Buckets, j: nat)
    requires
        starts_empty(buckets, j),
    ensures
        without_oldest(buckets.skip(j as int)) == without_oldest(buckets),
        total_of(buckets.skip(j as int)) == total_of(buckets),
    decreases j,
{
    if j == 0 {
        assert(buckets.skip(0) =~= buckets);
    } else {
        let rest = buckets.skip(1);
        assert forall|i: int| 0 <= i < j - 1 implies (#[trigger] rest[i]).1.len() == 0 by {
            assert(rest[i] == buckets[i + 1]);
        }
        lemma_skip_empty(rest, (j - 1) as nat);
        assert(rest.skip(j - 1) =~= buckets.skip(j as int));
        lemma_total_skip(buckets);
        assert(buckets[0].1.len() == 0);
        assert(buckets[0].0 as nat * buckets[0].1.len() == 0) by (nonlinear_arith)
            requires
                buckets[0].1.len() == 0,
        ;
    }
}

/// A pool of stacks.
pub struct StackPool {
    inner: LinkedHashMap<usize, Vec<Stack>>,
    total_size: usize,
    higher_water_mark: Option<usize>,
    lower_water_mark: Option<usize>,
}

impl View for StackPool {
    type V = Seq<(usize, Seq<Stack>)>;

    closed spec fn view(&self) -> Seq<(usize, Seq<Stack>)> {
        buckets_of(self.inner)
    }
}

impl StackPool {
    /// The mark above which the pool gets shrunk.
    pub closed spec fn high_mark(&self) -> Option<usize> {
        self.higher_water_mark
    }

    /// The mark down to which the pool gets shrunk.
    pub closed spec fn low_mark(&self) -> Option<usize> {
        self.lower_water_mark
    }

    /// The number of bytes in the pool.
    pub closed spec fn spec_total_size(&self) -> usize {
        self.total_size
    }

    /// The bytes that may be left after a shrink: the low water mark, or the high one if there
    /// is no low one.
    pub open spec fn shrink_bound(&self) -> nat {
        match (self.low_mark(), self.high_mark()) {
            (Some(low), _) => low as nat,
            (None, Some(high)) => high as nat,
            (None, None) => usize::MAX as nat,
        }
    }

    /// There are more bytes in the pool than the high water mark allows.
    pub open spec fn over_full(&self, buckets: Buckets) -> bool {
        self.high_mark() matches Some(high) && total_of(buckets) > high
    }

    /// `after` is what the pool makes of `before`: nothing changes unless the pool is over full,
    /// and then the oldest stacks go.
    pub open spec fn settled(&self, before: Buckets, after: Buckets) -> bool {
        if self.over_full(before) {
            shrunk(before, after, self.shrink_bound())
        } else {
            after == before
        }
    }

    /// Each stack is in the bucket of its size, and the bytes are counted right.
    pub open spec fn wf(&self) -> bool {
        &&& sorted_by_size(self@)
        &&& self.spec_total_size() == total_of(self@)
    }

    /// The marks are those of `other`.
    pub open spec fn same_marks(&self, other: StackPool) -> bool {
        &&& self.low_mark() == other.low_mark()
        &&& self.high_mark() == other.high_mark()
    }

    /// What the pool becomes when a stack of this size is asked for: if it has one, the one that
    /// came back last goes out. If not, a new one is made, which can fail.
    pub open spec fn allocated(&self, after: StackPool, size: usize, stack: Option<Stack>) -> bool {
        let cached = stacks_of_size(self@, size);
        let touched = if has_bucket(self@, size) {
            refreshed(self@, size, cached)
        } else {
            self@
        };
        &&& after.wf()
        &&& after.same_marks(*self)
        &&& stack matches Some(stack) ==> stack.spec_size() == size && stack.spec_len() >= size
        &&& cached.len() > 0 ==> {
            &&& stack == Some(cached.last())
            &&& self.settled(refreshed(self@, size, cached.drop_last()), after@)
        }
        &&& cached.len() == 0 && stack is Some ==> self.settled(touched, after@)
        &&& stack is None ==> after@ == touched
    }

    /// What the pool becomes when a stack comes back.
    pub open spec fn taken_back(&self, after: StackPool, stack: Stack) -> bool {
        let size = stack.spec_size();
        &&& after.wf()
        &&& after.same_marks(*self)
        &&& self.settled(
            refreshed(self@, size, stacks_of_size(self@, size).push(stack)),
            after@,
        )
    }

    /// A pool without stacks, with a low and a high water mark.
    ///
    /// When the bytes in the pool exceed the high water mark, stacks are released, those of the
    /// least recently used size first, until the low water mark is reached.
    pub fn new(lwm: Option<usize>, hwm: Option<usize>) -> (pool: StackPool)
        ensures
            pool.wf(),
            pool@.len() == 0,
            pool.low_mark() == lwm,
            pool.high_mark() == hwm,
    {
        StackPool {
            inner: map_new(),
            total_size: 0,
            higher_water_mark: hwm,
            lower_water_mark: lwm,
        }
    }

    /// A new stack, straight from the system, with at least `size` bytes.
    pub fn raw_allocate(size: usize) -> (stack: Result<Stack, StackUnavailable>)
        ensures
            stack matches Ok(stack) ==> stack.spec_size() == size && stack.spec_len() >= size,
            stack matches Err(unavailable) ==> unavailable.size == size,
    {
        StackPool::from_system(size, protected_stack(size))
    }

    /// What becomes of the answer of the system to a request for a stack of this size: the stack
    /// if it has given the memory, with so many bytes, else an error.
    pub fn from_system(
        size: usize,
        memory: Result<(ProtectedFixedSizeStack, usize), StackError>,
    ) -> (stack: Result<Stack, StackUnavailable>)
        requires
            memory matches Ok(pair) ==> pair.1 >= size,
        ensures
            match memory {
                Ok(pair) => stack matches Ok(stack) && {
                    &&& stack.spec_inner() == pair.0
                    &&& stack.spec_len() == pair.1
                    &&& stack.spec_size() == size
                },
                Err(_) => stack == Err::<Stack, StackUnavailable>(StackUnavailable { size }),
            },
    {
        match memory {
            Ok((inner, len)) => Ok(Stack { inner, size, len }),
            Err(_) => Err(StackUnavailable { size }),
        }
    }

    /// A stack of this size: the one that was given back last if the pool has any, else a new
    /// one. The size counts as used.
    ///
    /// A new stack is the only thing that can be unavailable.
    pub fn allocate(&mut self, size: usize) -> (stack: Result<Stack, StackUnavailable>)
        requires
            old(self).wf(),
        ensures
            old(self).allocated(*final(self), size, stack.ok()),
            stack matches Err(unavailable) ==> unavailable.size == size,
    {
        let ghost before = self@;
        let ghost cached_before = stacks_of_size(before, size);
        proof {
            lemma_same_size(before, size);
            lemma_refreshed_sorted(before, size, cached_before);
            lemma_total_refreshed(before, size, cached_before);
            if cached_before.len() > 0 {
                let popped = cached_before.drop_last();
                lemma_refreshed_sorted(before, size, popped);
                lemma_total_refreshed(before, size, popped);
                assert(size as nat * cached_before.len() == size as nat * popped.len() + size)
                    by (nonlinear_arith)
                    requires
                        cached_before.len() == popped.len() + 1,
                ;
            }
        }
        let found = match map_get_refresh(&mut self.inner, size) {
            Some(cached) => cached.pop(),
            None => None,
        };
        let stack = match found {
            Some(stack) => {
                proof {
                    assert(cached_before.subrange(0, cached_before.len() - 1)
                        =~= cached_before.drop_last());
                    assert(total_of(self@) + size == total_of(before));
                }
                self.total_size = self.total_size - size;
                stack
            },
            None => match StackPool::raw_allocate(size) {
                Ok(stack) => stack,
                Err(unavailable) => {
                    return Err(unavailable);
                },
            },
        };
        self.try_shrink();
        proof {
            use_type_invariant(&stack);
        }
        Ok(stack)
    }

    /// Puts a stack into the pool. Its size counts as used.
    pub fn deallocate(&mut self, stack: Stack)
        requires
            old(self).wf(),
            old(self).spec_total_size() + stack.spec_size() <= usize::MAX,
        ensures
            old(self).taken_back(*final(self), stack),
    {
        let size = stack.size;
        let ghost before = self@;
        proof {
            let cached = stacks_of_size(before, size);
            let pushed = cached.push(stack);
            lemma_same_size(before, size);
            lemma_refreshed_sorted(before, size, pushed);
            lemma_total_refreshed(before, size, pushed);
            assert(size as nat * pushed.len() == size as nat * cached.len() + size)
                by (nonlinear_arith)
                requires
                    pushed.len() == cached.len() + 1,
            ;
        }
        let mut left: Option<Stack> = Some(stack);
        match map_get_refresh(&mut self.inner, size) {
            Some(cached) => {
                if let Some(stack) = left.take() {
                    cached.push(stack);
                }
            },
            None => {},
        }
        if let Some(stack) = left {
            let mut cached: Vec<Stack> = Vec::new();
            cached.push(stack);
            let _ = map_insert(&mut self.inner, size, cached);
            proof {
                assert(cached@ =~= stacks_of_size(before, size).push(stack));
            }
        }
        self.total_size = self.total_size + size;
        self.try_shrink();
    }

    /// Shrinks the pool to the low water mark if it is above the high water mark.
    pub fn try_shrink(&mut self)
        requires
            old(self).wf(),
        ensures
            final(self).wf(),
            final(self).low_mark() == old(self).low_mark(),
            final(self).high_mark() == old(self).high_mark(),
            old(self).settled(old(self)@, final(self)@),
    {
        let hwm = match self.higher_water_mark {
            Some(hwm) => {
                if self.total_size <= hwm {
                    return;
                }
                hwm
            },
            None => {
                return;
            },
        };
        let lower_bound = match self.lower_water_mark {
            Some(lwm) => lwm,
            None => hwm,
        };
        let ghost before = self@;
        let ghost mut n: nat = 0;
        let ghost mut j: nat = 0;
        proof {
            assert(before.skip(0) =~= before);
        }
        while self.total_size > lower_bound
            invariant
                self.wf(),
                self.low_mark() == old(self).low_mark(),
                self.high_mark() == old(self).high_mark(),
                starts_empty(without_oldest_n(before, n), j),
                self@ == without_oldest_n(before, n).skip(j as int),
                j > 0 ==> self.total_size > lower_bound,
                forall|m: nat|
                    m < n ==> total_of(#[trigger] without_oldest_n(before, m)) > lower_bound,
            decreases self@.len(), self@[0].1.len(),
        {
            let ghost base = without_oldest_n(before, n);
            let ghost current = self@;
            proof {
                lemma_skip_empty(base, j);
                assert(current.len() == 0 ==> total_of(current) == 0);
            }
            if let Some(size) = map_front(&self.inner) {
                proof {
                    let i = bucket_index(current, size);
                    assert(current[0].0 == size);
                    assert(i == 0);
                    lemma_total_skip(current);
                    let stacks = current[0].1;
                    if stacks.len() > 0 {
                        lemma_total_update(current, 0, (size, stacks.drop_last()));
                        assert(size as nat * stacks.len() == size as nat * stacks.drop_last().len()
                            + size) by (nonlinear_arith)
                            requires
                                stacks.len() == stacks.drop_last().len() + 1,
                        ;
                    }
                }
                let mut emptied = true;
                if let Some(cached) = map_get_mut(&mut self.inner, size) {
                    if let Some(_) = cached.pop() {
                        self.total_size = self.total_size - size;
                    }
                    emptied = cached.len() == 0;
                }
                if emptied {
                    let _ = map_pop_front(&mut self.inner);
                }
                proof {
                    let stacks = current[0].1;
                    if stacks.len() == 0 {
                        assert(self@ =~= current.skip(1));
                        assert(self@ =~= base.skip(j as int + 1));
                        assert(base[j as int] == current[0]);
                        assert(size as nat * stacks.len() == 0) by (nonlinear_arith)
                            requires
                                stacks.len() == 0,
                        ;
                        j = j + 1;
                    } else {
                        if stacks.len() == 1 {
                            assert(self@ =~= current.skip(1));
                            assert(size as nat * stacks.len() == size) by (nonlinear_arith)
                                requires
                                    stacks.len() == 1,
                            ;
                        } else {
                            assert(self@ =~= current.update(0, (size, stacks.drop_last())));
                        }
                        assert(self@ == without_oldest(base));
                        n = n + 1;
                        j = 0;
                        assert(self@.skip(0) =~= self@);
                    }
                }
            }
        }
        proof {
            assert(self@ =~= without_oldest_n(before, n));
            assert(shrunk_by(before, self@, lower_bound as nat, n));
        }
    }

    /// The number of bytes in the pool.
    pub fn total_size(&self) -> (size: usize)
        ensures
            size == self.spec_total_size(),
    {
        self.total_size
    }
}

/// `after` is `before` without its first `k` buckets, and the first of the others may have lost
/// some of its stacks.
pub open spec fn rest_from(before: Buckets, after: Buckets, k: nat) -> bool {
    &&& k <= before.len()
    &&& after.len() == before.len() - k
    &&& after.len() > 0 ==> {
        &&& after[0].0 == before[k as int].0
        &&& after[0].1.is_prefix_of(before[k as int].1)
    }
    &&& forall|i: int| 0 < i < after.len() ==> (#[trigger] after[i]) == before[k + i]
}

proof fn lemma_without_oldest_rest(before: Buckets, after: Buckets, k: nat) -> (l: nat)
    requires
        rest_from(before, after, k),
    ensures
        rest_from(before, without_oldest(after), l),
    decreases after.len(),
{
    if after.len() == 0 {
        k
    } else if after[0].1.len() <= 1 {
        let rest = after.skip(1);
        assert forall|i: int| 0 < i < rest.len() implies (#[trigger] rest[i]) == before[k + 1
            + i] by {
            assert(rest[i] == after[i + 1]);
        }
        if rest.len() > 0 {
            assert(rest[0] == after[1]);
        }
        assert(rest_from(before, rest, k + 1));
        if after[0].1.len() == 0 {
            lemma_without_oldest_rest(before, rest, k + 1)
        } else {
            k + 1
        }
    } else {
        k
    }
}

/// Stacks are released by least recent use: a bucket only loses stacks when all buckets that
/// were used before it are gone, and the order of the buckets stays as it was.
pub proof fn least_recently_used_stacks_go_first(before: Buckets, after: Buckets, bound: nat)
    requires
        shrunk(before, after, bound),
    ensures
        exists|k: nat| #[trigger] rest_from(before, after, k),
{
    let n = choose|n: nat| #[trigger] shrunk_by(before, after, bound, n);
    let _ = lemma_without_oldest_n_rest(before, n);
}

proof fn lemma_without_oldest_n_rest(before: Buckets, n: nat) -> (k: nat)
    ensures
        rest_from(before, without_oldest_n(before, n), k),
    decreases n,
{
    if n == 0 {
        0
    } else {
        let k = lemma_without_oldest_n_rest(before, (n - 1) as nat);
        lemma_without_oldest_rest(before, without_oldest_n(before, (n - 1) as nat), k)
    }
}

impl StackPool {
    /// After any use of the pool it holds no more bytes than its marks allow.
    pub proof fn settled_pool_is_within_its_marks(&self, before: Buckets, after: Buckets)
        requires
            self.settled(before, after),
        ensures
            self.high_mark() matches Some(high) ==> total_of(after) <= high || total_of(after)
                <= self.shrink_bound(),
    {
    }

    /// A shrink does nothing to a pool without a high water mark or within it. Else no more bytes
    /// are left than its bound allows, and nothing was released needlessly: while the last stack
    /// that went was still there, the bytes were over the bound.
    pub proof fn no_stack_goes_needlessly(&self, before: Buckets, after: Buckets)
        requires
            self.settled(before, after),
        ensures
            self.high_mark() is None ==> after == before,
            self.high_mark() matches Some(high) && total_of(before) <= high ==> after == before,
            self.high_mark() matches Some(high) && total_of(before) > high ==> {
                &&& total_of(after) <= self.shrink_bound()
                &&& exists|n: nat|
                    {
                        &&& after == #[trigger] without_oldest_n(before, n)
                        &&& n > 0 ==> total_of(without_oldest_n(before, (n - 1) as nat))
                            > self.shrink_bound()
                    }
            },
    {
        if self.over_full(before) {
            let bound = self.shrink_bound();
            let n = choose|n: nat| #[trigger] shrunk_by(before, after, bound, n);
            assert(after == without_oldest_n(before, n));
            if n > 0 {
                assert(total_of(without_oldest_n(before, (n - 1) as nat)) > bound);
            }
        }
    }

    /// The bytes that a pool counts are those of all its stacks, one by one.
    pub proof fn total_is_the_sum_of_the_sizes(buckets: Buckets)
        requires
            sorted_by_size(buckets),
        ensures
            total_of(buckets) == sum_of_sizes(buckets),
        decreases buckets.len(),
    {
        if buckets.len() > 0 {
            let rest = buckets.drop_last();
            let last = buckets.last();
            assert forall|i: int, k: int|
                0 <= i < rest.len() && 0 <= k < rest[i].1.len() implies (
            #[trigger] rest[i].1[k]).spec_size() == rest[i].0 by {
                assert(rest[i] == buckets[i]);
                assert(buckets[i].1[k].spec_size() == buckets[i].0);
            }
            assert forall|i: int, j: int| 0 <= i < j < rest.len() implies (#[trigger] rest[i]).0 != (
            #[trigger] rest[j]).0 by {
                assert(buckets[i].0 != buckets[j].0);
            }
            Self::total_is_the_sum_of_the_sizes(rest);
            assert forall|k: int| 0 <= k < last.1.len() implies (
            #[trigger] last.1[k]).spec_size() == last.0 by {
                assert(buckets[buckets.len() - 1].1[k].spec_size() == last.0);
            }
            lemma_sizes_of(last.1, last.0);
        }
    }

    /// A stack that was put into the pool is the one that the next allocation of its size gets,
    /// unless the pool was over full with it; and the buckets hold what they held before.
    pub proof fn returned_stack_is_reused(&self, before: Buckets, stack: Stack)
        requires
            sorted_by_size(before),
        ensures
            ({
                let size = stack.spec_size();
                let cached = stacks_of_size(before, size);
                let after = refreshed(before, size, cached.push(stack));
                &&& stacks_of_size(after, size).last() == stack
                &&& refreshed(after, size, stacks_of_size(after, size).drop_last()) == refreshed(
                    before,
                    size,
                    cached,
                )
            }),
    {
        let size = stack.spec_size();
        let cached = stacks_of_size(before, size);
        let after = refreshed(before, size, cached.push(stack));
        lemma_same_size(before, size);
        lemma_refreshed_sorted(before, size, cached.push(stack));
        assert(cached.push(stack).drop_last() =~= cached);
        let last = after.len() - 1;
        assert(after[last].0 == size);
        assert(bucket_index(after, size) == last);
        assert(refreshed(after, size, cached) =~= refreshed(before, size, cached));
    }
}

/// A use of one bucket leaves all others as they are.
proof fn lemma_others_stay(buckets: Buckets, size: usize, stacks: Seq<Stack>, other: usize)
    requires
        sorted_by_size(buckets),
        forall|k: int| 0 <= k < stacks.len() ==> (#[trigger] stacks[k]).spec_size() == size,
        other != size,
    ensures
        stacks_of_size(refreshed(buckets, size, stacks), other) == stacks_of_size(buckets, other),
{
    let after = refreshed(buckets, size, stacks);
    lemma_refreshed_sorted(buckets, size, stacks);
    let last = after.len() - 1;
    let i = bucket_index(buckets, size);
    if has_bucket(buckets, size) {
        assert(buckets[i].0 == size);
        assert forall|k: int| 0 <= k < last implies (#[trigger] after[k]) == buckets[if k < i {
            k
        } else {
            k + 1
        }] by {}
    }
    if has_bucket(buckets, other) {
        let j = bucket_index(buckets, other);
        assert(buckets[j].0 == other);
        let at = if has_bucket(buckets, size) && j > i {
            j - 1
        } else {
            j
        };
        assert(after[at] == buckets[j]);
        assert(after[at].0 == other);
        assert(after[bucket_index(after, other)].0 == other);
        assert(bucket_index(after, other) == at);
    } else {
        if has_bucket(after, other) {
            let j = bucket_index(after, other);
            assert(after[j].0 == other);
            let at = if has_bucket(buckets, size) && j >= i {
                j + 1
            } else {
                j
            };
            assert(j < last);
            assert(after[j] == buckets[at]);
            assert(buckets[at].0 == other);
        }
    }
}

/// A stack that comes back to a pool with room for it is kept: the pool grows by its size, and the
/// next one who asks for a stack of that size gets this very one. The pool then holds what it held
/// before.
pub proof fn stack_that_came_back_goes_out_next(
    before: StackPool,
    kept: StackPool,
    after: StackPool,
    stack: Stack,
    got: Option<Stack>,
    other: usize,
)
    requires
        before.wf(),
        before.taken_back(kept, stack),
        kept.allocated(after, stack.spec_size(), got),
        before.high_mark() matches Some(high) ==> before.spec_total_size() + stack.spec_size() <= high,
    ensures
        kept.spec_total_size() == before.spec_total_size() + stack.spec_size(),
        kept@.len() > 0 && kept@.last().0 == stack.spec_size() && kept@.last().1.last() == stack,
        got == Some(stack),
        after.spec_total_size() == before.spec_total_size(),
        stacks_of_size(after@, other) == stacks_of_size(before@, other),
{
    let size = stack.spec_size();
    let cached = stacks_of_size(before@, size);
    let more = cached.push(stack);
    lemma_same_size(before@, size);
    lemma_refreshed_sorted(before@, size, more);
    lemma_total_refreshed(before@, size, more);
    let all = refreshed(before@, size, more);
    assert(size as nat * more.len() == size as nat * cached.len() + size) by (nonlinear_arith)
        requires
            more.len() == cached.len() + 1,
    ;
    assert(kept@ == all);
    assert(kept@.last() == (size, more));
    assert(more.drop_last() =~= cached);
    lemma_refreshed_sorted(kept@, size, cached);
    lemma_total_refreshed(kept@, size, cached);
    assert(after@ == refreshed(kept@, size, cached));
    if other != size {
        lemma_others_stay(before@, size, more, other);
        lemma_others_stay(kept@, size, cached, other);
    }
}

/// While the pool has a stack of the size that is asked for, it hands out the one that came back
/// last, and asks nobody else for one. Whatever it hands out has the size that was asked for, with
/// no fewer bytes. The size counts as used then: its other stacks are the last ones to go.
pub proof fn pool_hands_out_what_it_has(
    before: StackPool,
    after: StackPool,
    size: usize,
    got: Option<Stack>,
    i: int,
)
    requires
        before.wf(),
        before.allocated(after, size, got),
        0 <= i < before@.len(),
        before@[i].0 == size,
    ensures
        before@[i].1.len() > 0 ==> got == Some(before@[i].1[before@[i].1.len() - 1]),
        got matches Some(stack) ==> stack.spec_size() == size && stack.spec_len() >= size,
        (before.high_mark() matches Some(high) ==> before.spec_total_size() <= high) ==> {
            &&& after@.len() == before@.len()
            &&& after@.drop_last() == before@.take(i) + before@.skip(i + 1)
            &&& after@.last().0 == size
            &&& before@[i].1.len() > 0 ==> after@.last().1 == before@[i].1.drop_last()
            &&& before@[i].1.len() == 0 ==> after@.last().1 == before@[i].1
        },
{
    assert(has_bucket(before@, size));
    let j = bucket_index(before@, size);
    assert(before@[j].0 == size);
    assert(i == j);
    let cached = before@[i].1;
    lemma_same_size(before@, size);
    let left = if cached.len() > 0 {
        cached.drop_last()
    } else {
        cached
    };
    lemma_total_refreshed(before@, size, left);
    lemma_total_refreshed(before@, size, cached);
    assert(size as nat * left.len() <= size as nat * cached.len()) by (nonlinear_arith)
        requires
            left.len() <= cached.len(),
    ;
    let used = refreshed(before@, size, left);
    assert(used.drop_last() =~= before@.take(i) + before@.skip(i + 1));
}

/// A pool that holds more bytes than its high water mark gives stacks back until it holds no more
/// than its low water mark, or no more than the high one if it has no low one; else it keeps all.
pub proof fn over_full_pool_is_shrunk(pool: StackPool, before: Buckets, after: Buckets)
    requires
        pool.settled(before, after),
    ensures
        pool.high_mark() is None ==> after == before,
        pool.high_mark() matches Some(high) ==> {
            &&& total_of(before) <= high ==> after == before
            &&& total_of(before) > high && pool.low_mark() is None ==> total_of(after) <= high
            &&& total_of(before) > high ==> (pool.low_mark() matches Some(low) ==> total_of(after)
                <= low)
        },
{
}

} // verus!
