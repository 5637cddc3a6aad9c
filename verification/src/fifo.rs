//! First in, first out: what it means for a queue, and what follows from it.

use vstd::prelude::*;

verus! {

/// What goes through a queue.
pub enum Passing<T> {
    /// This was put in.
    In(T),
    /// This was taken out.
    Out(T),
}

/// What is in a queue before and after something has gone through: what is put in goes to the
/// back, and what is taken out was at the front.
pub open spec fn passes<T>(before: Seq<T>, after: Seq<T>, passing: Passing<T>) -> bool {
    match passing {
        Passing::In(t) => after == before.push(t),
        Passing::Out(t) => {
            &&& before.len() > 0
            &&& t == before[0]
            &&& after == before.drop_first()
        },
    }
}

/// What was in a queue at first and after each passing.
pub open spec fn history<T>(contents: Seq<Seq<T>>, passings: Seq<Passing<T>>) -> bool {
    &&& contents.len() == passings.len() + 1
    &&& forall|i: int|
        0 <= i < passings.len() ==> passes(contents[i], contents[i + 1], #[trigger] passings[i])
}

/// What was put in, in this order.
pub open spec fn put_in<T>(passings: Seq<Passing<T>>) -> Seq<T>
    decreases passings.len(),
{
    if passings.len() == 0 {
        Seq::empty()
    } else {
        match passings.last() {
            Passing::In(t) => put_in(passings.drop_last()).push(t),
            Passing::Out(_) => put_in(passings.drop_last()),
        }
    }
}

/// What was taken out, in this order.
pub open spec fn taken_out<T>(passings: Seq<Passing<T>>) -> Seq<T>
    decreases passings.len(),
{
    if passings.len() == 0 {
        Seq::empty()
    } else {
        match passings.last() {
            Passing::In(_) => taken_out(passings.drop_last()),
            Passing::Out(t) => taken_out(passings.drop_last()).push(t),
        }
    }
}

/// However puts and takes are mixed, what was taken out, followed by what is left, is what was
/// there at first, followed by what was put in: nothing is lost, doubled or overtaken.
pub proof fn taken_out_in_the_order_put_in<T>(contents: Seq<Seq<T>>, passings: Seq<Passing<T>>)
    requires
        history(contents, passings),
    ensures
        taken_out(passings) + contents.last() == contents[0] + put_in(passings),
    decreases passings.len(),
{
    if passings.len() > 0 {
        let n = passings.len() - 1;
        let earlier = passings.drop_last();
        let so_far = contents.drop_last();
        assert forall|i: int| 0 <= i < earlier.len() implies passes(
            so_far[i],
            so_far[i + 1],
            #[trigger] earlier[i],
        ) by {
            assert(passes(contents[i], contents[i + 1], passings[i]));
        }
        taken_out_in_the_order_put_in(so_far, earlier);
        let before = contents[n];
        let after = contents.last();
        assert(passes(before, after, passings[n]));
        match passings.last() {
            Passing::In(t) => {
                assert(taken_out(earlier) + after =~= (taken_out(earlier) + before).push(t));
                assert((contents[0] + put_in(earlier)).push(t) =~= contents[0] + put_in(
                    earlier,
                ).push(t));
            },
            Passing::Out(t) => {
                assert(taken_out(earlier).push(t) + after =~= taken_out(earlier) + before);
            },
        }
    }
}

} // verus!
