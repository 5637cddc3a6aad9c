//! Pseudo-random orders for visiting the processors during work stealing.
//!
//! If `inc` and `count` are coprime, then stepping `pos -> (pos + inc) % count` visits each of
//! the `count` processors exactly once before it comes back to where it started. An order picks
//! the starting point and the step from one random number.

use vstd::arithmetic::div_mod::*;
use vstd::arithmetic::mul::*;
use vstd::prelude::*;
use vstd::set_lib::*;

verus! {

/// The greatest common divisor.
pub open spec fn gcd_spec(a: nat, b: nat) -> nat
    decreases b,
{
    if b == 0 {
        a
    } else {
        gcd_spec(b, a % b)
    }
}

/// The two numbers have no common divisor but one.
pub open spec fn coprime(a: nat, b: nat) -> bool {
    gcd_spec(a, b) == 1
}

/// The `k`th position of the walk over `count` places that starts at `pos` and steps by `inc`.
pub open spec fn walk_at(pos: nat, inc: nat, count: nat, k: nat) -> nat
    recommends
        count > 0,
{
    (pos + k * inc) % count
}

/// The whole walk: its first `count` positions.
pub open spec fn walk(pos: nat, inc: nat, count: nat) -> Seq<usize> {
    Seq::new(count, |k: int| walk_at(pos, inc, count, k as nat) as usize)
}

/// Bezout's identity: some combination of `a` and `b` gives their greatest common divisor.
proof fn lemma_bezout(a: nat, b: nat) -> (xy: (int, int))
    ensures
        a * xy.0 + b * xy.1 == gcd_spec(a, b),
    decreases b,
{
    if b == 0 {
        assert(a * 1 + b * 0 == a) by (nonlinear_arith);
        (1, 0)
    } else {
        let (x, y) = lemma_bezout(b, a % b);
        let q = (a / b) as int;
        let r = (a % b) as int;
        lemma_fundamental_div_mod(a as int, b as int);
        assert(a * y + b * (x - q * y) == b * x + r * y) by (nonlinear_arith)
            requires
                a == b * q + r,
        ;
        (y, x - q * y)
    }
}

/// The greatest common divisor divides both numbers.
pub proof fn lemma_gcd_divides(a: nat, b: nat)
    requires
        a > 0 || b > 0,
    ensures
        gcd_spec(a, b) > 0,
        a % gcd_spec(a, b) == 0,
        b % gcd_spec(a, b) == 0,
    decreases b,
{
    let g = gcd_spec(a, b);
    if b == 0 {
        lemma_mod_self_0(a as int);
        lemma_small_mod(0, a);
    } else {
        let r = a % b;
        lemma_gcd_divides(b, r);
        let q = (a / b) as int;
        lemma_fundamental_div_mod(a as int, b as int);
        lemma_fundamental_div_mod(b as int, g as int);
        lemma_fundamental_div_mod(r as int, g as int);
        let bq = (b / g) as int;
        let rq = (r / g) as int;
        assert(a == (bq * q + rq) * g) by (nonlinear_arith)
            requires
                a == b * q + r,
                b == g * bq,
                r == g * rq,
        ;
        lemma_mod_multiples_basic(bq * q + rq, g as int);
    }
}

/// Every common divisor of two numbers divides their greatest common divisor.
pub proof fn common_divisors_divide_the_gcd(a: nat, b: nat, d: nat)
    requires
        d > 0,
        a % d == 0,
        b % d == 0,
    ensures
        gcd_spec(a, b) % d == 0,
{
    let (x, y) = lemma_bezout(a, b);
    lemma_fundamental_div_mod(a as int, d as int);
    lemma_fundamental_div_mod(b as int, d as int);
    let aq = (a / d) as int;
    let bq = (b / d) as int;
    assert(a * x + b * y == (aq * x + bq * y) * d) by (nonlinear_arith)
        requires
            a == d * aq,
            b == d * bq,
    ;
    lemma_mod_multiples_basic(aq * x + bq * y, d as int);
}

/// If `count` divides `d * inc` and is coprime to `inc`, then it divides `d`.
proof fn lemma_cancel_coprime(d: nat, inc: nat, count: nat)
    requires
        count > 0,
        coprime(inc, count),
        (d * inc) % count == 0,
    ensures
        d % count == 0,
{
    let (x, y) = lemma_bezout(inc, count);
    let m = ((d * inc) / count) as int;
    lemma_fundamental_div_mod((d * inc) as int, count as int);
    assert(d == (m * x + d * y) * count) by (nonlinear_arith)
        requires
            inc * x + count * y == 1,
            d * inc == count * m,
    ;
    lemma_mod_multiples_basic(m * x + d * y, count as int);
}

/// Two different steps of a walk with a coprime increment are at different places.
proof fn lemma_walk_injective(pos: nat, inc: nat, count: nat, j: nat, k: nat)
    requires
        count > 0,
        coprime(inc, count),
        j < k < count,
    ensures
        walk_at(pos, inc, count, j) != walk_at(pos, inc, count, k),
{
    if walk_at(pos, inc, count, j) == walk_at(pos, inc, count, k) {
        let d = (k - j) as nat;
        let a = (pos + j * inc) as int;
        let b = (pos + k * inc) as int;
        lemma_fundamental_div_mod(a, count as int);
        lemma_fundamental_div_mod(b, count as int);
        let qa = a / count as int;
        let qb = b / count as int;
        assert(d * inc == (qb - qa) * count) by (nonlinear_arith)
            requires
                d == k - j,
                a == pos + j * inc,
                b == pos + k * inc,
                b - a == count * qb - count * qa,
        ;
        lemma_mod_multiples_basic(qb - qa, count as int);
        lemma_cancel_coprime(d, inc, count);
        lemma_small_mod(d, count);
    }
}

/// A walk whose increment is coprime to the number of places visits every place exactly once.
pub proof fn walk_visits_every_place_once(pos: nat, inc: nat, count: nat)
    requires
        0 < count <= usize::MAX,
        coprime(inc, count),
    ensures
        walk(pos, inc, count).len() == count,
        walk(pos, inc, count).no_duplicates(),
        forall|x: usize| #[trigger] walk(pos, inc, count).contains(x) <==> x < count,
{
    let w = walk(pos, inc, count);
    assert forall|k: int| 0 <= k < count implies #[trigger] w[k] < count && w[k]
        == walk_at(pos, inc, count, k as nat) by {
        lemma_mod_bound((pos + (k as nat) * inc) as int, count as int);
    }
    assert forall|j: int, k: int| 0 <= j < k < count implies w[j] != w[k] by {
        lemma_walk_injective(pos, inc, count, j as nat, k as nat);
    }
    assert(w.no_duplicates());
    let ints = w.map_values(|x: usize| x as int);
    assert(ints.no_duplicates());
    ints.unique_seq_to_set();
    lemma_int_range(0, count as int);
    let all = set_int_range(0, count as int);
    assert forall|y: int| ints.to_set().contains(y) implies all.contains(y) by {
        let k = choose|k: int| 0 <= k < ints.len() && ints[k] == y;
        assert(ints[k] == w[k]);
    }
    lemma_subset_equality(ints.to_set(), all);
    assert forall|x: usize| x < count implies #[trigger] w.contains(x) by {
        assert(all.contains(x as int));
        let k = choose|k: int| 0 <= k < ints.len() && ints[k] == x as int;
        assert(w[k] == x);
    }
}

/// Euclid's algorithm.
pub fn gcd(a: usize, b: usize) -> (g: usize)
    ensures
        g == gcd_spec(a as nat, b as nat),
{
    let mut a: usize = a;
    let mut b: usize = b;
    let ghost g = gcd_spec(a as nat, b as nat);
    while b != 0
        invariant
            gcd_spec(a as nat, b as nat) == g,
        decreases b,
    {
        let t = a % b;
        a = b;
        b = t;
    }
    a
}

/// Enumerates all processors in different pseudo-random orders without repetitions.
pub struct RandomProcessorOrder {
    count: usize,
    coprimes: Vec<usize>,
}

impl RandomProcessorOrder {
    /// The number of processors.
    pub closed spec fn count(&self) -> nat {
        self.count as nat
    }

    /// The increments to choose from.
    pub closed spec fn coprimes(&self) -> Seq<usize> {
        self.coprimes@
    }

    /// The increments are the numbers from one to the number of processors that are coprime to
    /// it, in ascending order.
    pub open spec fn wf(&self) -> bool {
        &&& forall|i: int, j: int|
            0 <= i < j < self.coprimes().len() ==> self.coprimes()[i] < self.coprimes()[j]
        &&& forall|x: usize| #[trigger]
            self.coprimes().contains(x) <==> 1 <= x <= self.count() && coprime(
                x as nat,
                self.count(),
            )
    }

    /// The increment that a random number picks.
    pub open spec fn increment(&self, start: nat) -> nat {
        self.coprimes()[(start % self.coprimes().len()) as int] as nat
    }

    /// The order in which a random number makes the processors be visited.
    pub open spec fn order(&self, start: nat) -> Seq<usize> {
        walk(start % self.count(), self.increment(start), self.count())
    }

    /// Unless there are no processors, there is an increment to choose.
    proof fn lemma_some_increment(&self)
        requires
            self.wf(),
            self.count() > 0,
        ensures
            self.coprimes().len() > 0,
    {
        lemma_gcd_one(self.count());
        assert(self.coprimes().contains(1));
    }

    /// Whatever the random number, the order visits every processor exactly once.
    pub proof fn order_visits_every_processor_once(&self, start: nat)
        requires
            self.wf(),
            0 < self.count() <= usize::MAX,
        ensures
            self.order(start).len() == self.count(),
            self.order(start).no_duplicates(),
            forall|x: usize| #[trigger] self.order(start).contains(x) <==> x < self.count(),
    {
        self.lemma_some_increment();
        lemma_mod_bound(start as int, self.coprimes().len() as int);
        let i = (start % self.coprimes().len()) as int;
        assert(self.coprimes().contains(self.coprimes()[i]));
        walk_visits_every_place_once(start % self.count(), self.increment(start), self.count());
    }

    /// An order over no processors.
    pub fn new() -> (order: RandomProcessorOrder)
        ensures
            order.wf(),
            order.count() == 0,
    {
        RandomProcessorOrder { count: 0, coprimes: Vec::new() }
    }

    /// Prepares the orders over `count` processors.
    pub fn reset(&mut self, count: usize)
        requires
            count < usize::MAX,
        ensures
            final(self).wf(),
            final(self).count() == count,
    {
        self.count = count;
        self.coprimes.clear();
        for i in 1..(count + 1)
            invariant
                self.count == count,
                count < usize::MAX,
                forall|a: int, b: int|
                    0 <= a < b < self.coprimes@.len() ==> self.coprimes@[a] < self.coprimes@[b],
                forall|x: usize| #[trigger]
                    self.coprimes@.contains(x) <==> 1 <= x < i && coprime(x as nat, count as nat),
        {
            let ghost before = self.coprimes@;
            assert forall|a: int| 0 <= a < before.len() implies before[a] < i by {
                assert(before.contains(before[a]));
            }
            if gcd(i, count) == 1 {
                self.coprimes.push(i);
                assert forall|x: usize| #[trigger]
                    self.coprimes@.contains(x) <==> 1 <= x < i + 1 && coprime(
                        x as nat,
                        count as nat,
                    ) by {
                    assert(self.coprimes@[before.len() as int] == i);
                    if before.contains(x) {
                        let k = choose|k: int| 0 <= k < before.len() && before[k] == x;
                        assert(self.coprimes@[k] == x);
                    }
                    if self.coprimes@.contains(x) && x != i {
                        let k = choose|k: int|
                            0 <= k < self.coprimes@.len() && self.coprimes@[k] == x;
                        assert(before[k] == x);
                    }
                }
            }
        }
    }

    /// The order that the random number `start` picks.
    pub fn iter(&self, start: usize) -> (iter: RandomProcessorIter)
        requires
            self.wf(),
            0 < self.count() <= usize::MAX / 2,
        ensures
            iter.wf(),
            iter@ == self.order(start as nat),
    {
        proof {
            self.lemma_some_increment();
            let k = (start % self.coprimes.len()) as int;
            assert(self.coprimes@.contains(self.coprimes@[k]));
        }
        let iter = RandomProcessorIter {
            i: 0,
            pos: start % self.count,
            inc: self.coprimes[start % self.coprimes.len()],
            count: self.count,
            first: Ghost(start as nat % self.count as nat),
        };
        proof {
            assert(0 * iter.inc == 0);
            lemma_small_mod(iter.pos as nat, iter.count as nat);
            assert(iter@ =~= self.order(start as nat));
        }
        iter
    }
}

/// One is coprime to every positive number.
proof fn lemma_gcd_one(n: nat)
    requires
        n > 0,
    ensures
        coprime(1, n),
{
    if n == 1 {
        reveal_with_fuel(gcd_spec, 2);
    } else {
        lemma_small_mod(1, n);
        lemma_mod_self_0(1);
        lemma_fundamental_div_mod(n as int, 1);
        assert(n % 1 == 0);
        reveal_with_fuel(gcd_spec, 3);
    }
}

/// Visits the processors in one order.
pub struct RandomProcessorIter {
    i: usize,
    pos: usize,
    inc: usize,
    count: usize,
    first: Ghost<nat>,
}

impl View for RandomProcessorIter {
    type V = Seq<usize>;

    /// The processors that are still to be visited.
    closed spec fn view(&self) -> Seq<usize> {
        walk(self.first@, self.inc as nat, self.count as nat).skip(self.i as int)
    }
}

impl RandomProcessorIter {
    /// The position is the one that the walk has at this step.
    pub closed spec fn wf(&self) -> bool {
        &&& self.i <= self.count
        &&& 0 < self.count <= usize::MAX / 2
        &&& self.inc <= self.count
        &&& self.pos < self.count
        &&& self.pos == walk_at(self.first@, self.inc as nat, self.count as nat, self.i as nat)
    }

    /// The number of processors in the whole order.
    pub closed spec fn spec_len(&self) -> nat {
        self.count as nat
    }

    /// The next processor to visit, if any is left.
    pub fn next(&mut self) -> (x: Option<usize>)
        requires
            old(self).wf(),
        ensures
            final(self).wf(),
            final(self).spec_len() == old(self).spec_len(),
            x is None <==> old(self)@.len() == 0,
            x is None ==> final(self)@ == old(self)@,
            x matches Some(x) ==> x == old(self)@[0] && final(self)@ == old(self)@.skip(1),
    {
        if self.i < self.count {
            let r = self.pos;
            proof {
                let p = self.first@ as int;
                let (i, inc, n) = (self.i as int, self.inc as int, self.count as int);
                assert((i + 1) * inc == i * inc + inc) by (nonlinear_arith);
                lemma_add_mod_noop(p + i * inc, inc, n);
                lemma_add_mod_noop((p + i * inc) % n, inc, n);
                lemma_mod_twice(p + i * inc, n);
                lemma_mod_bound(p + (i + 1) * inc, n);
            }
            self.i = self.i + 1;
            self.pos = (self.pos + self.inc) % self.count;
            proof {
                assert(self@ =~= old(self)@.skip(1));
            }
            Some(r)
        } else {
            None
        }
    }

    /// The number of processors in the whole order, however many of them were visited already.
    pub fn len(&self) -> (len: usize)
        ensures
            len == self.spec_len(),
    {
        self.count
    }

    /// The processors that are still to be visited, in order.
    pub fn collect(self) -> (all: Vec<usize>)
        requires
            self.wf(),
        ensures
            all@ == self@,
    {
        let mut iter = self;
        let mut all: Vec<usize> = Vec::new();
        loop
            invariant
                iter.wf(),
                all@ + iter@ == self@,
            ensures
                all@ == self@,
            decreases iter@.len(),
        {
            match iter.next() {
                Some(x) => {
                    all.push(x);
                    proof {
                        assert(all@ + iter@ =~= self@);
                    }
                },
                None => {
                    break;
                },
            }
        }
        all
    }
}

} // verus!
