//! Lists of results.
use vstd::prelude::*;

verus! {

/// What each element of a list says.
pub open spec fn views<T: View>(list: Seq<T>) -> Seq<T::V> {
    list.map_values(|x: T| x@)
}

/// The results of a list in order, where every element has one; otherwise the
/// error of the first element that has none.
pub open spec fn each<A, B, E>(list: Seq<A>, f: spec_fn(A) -> Result<B, E>) -> Result<Seq<B>, E>
    decreases list.len(),
{
    if list.len() == 0 {
        Ok(Seq::empty())
    } else {
        match each(list.drop_last(), f) {
            Err(e) => Err(e),
            Ok(done) => match f(list.last()) {
                Err(e) => Err(e),
                Ok(x) => Ok(done.push(x)),
            },
        }
    }
}

/// One element more.
pub proof fn lemma_each_step<A, B, E>(list: Seq<A>, f: spec_fn(A) -> Result<B, E>, i: int)
    requires
        0 <= i < list.len(),
        each(list.take(i), f) is Ok,
    ensures
        each(list.take(i + 1), f) == match f(list[i]) {
            Err(e) => Err::<Seq<B>, E>(e),
            Ok(x) => Ok(each(list.take(i), f)->Ok_0.push(x)),
        },
{
    assert(list.take(i + 1).drop_last() =~= list.take(i));
    assert(list.take(i + 1).last() == list[i]);
}

/// An error among the first elements is the error of the whole list.
pub proof fn lemma_each_stops<A, B, E>(list: Seq<A>, f: spec_fn(A) -> Result<B, E>, i: int)
    requires
        0 <= i <= list.len(),
        each(list.take(i), f) is Err,
    ensures
        each(list, f) == each(list.take(i), f),
    decreases list.len() - i,
{
    if i == list.len() {
        assert(list.take(i) =~= list);
    } else {
        assert(list.take(i + 1).drop_last() =~= list.take(i));
        lemma_each_stops(list, f, i + 1);
    }
}

/// A list has all its results exactly when every element has one, and then one
/// for each element, in order.
pub proof fn law_each_is_elementwise<A, B, E>(list: Seq<A>, f: spec_fn(A) -> Result<B, E>)
    ensures
        each(list, f) is Ok <==> (forall|i: int| 0 <= i < list.len() ==> f(#[trigger] list[i]) is Ok),
        each(list, f) matches Ok(out) ==> out.len() == list.len() && forall|i: int|
            0 <= i < list.len() ==> f(list[i]) == Ok::<B, E>(#[trigger] out[i]),
    decreases list.len(),
{
    if list.len() > 0 {
        let head = list.drop_last();
        law_each_is_elementwise(head, f);
        assert forall|i: int| 0 <= i < head.len() implies #[trigger] head[i] == list[i] by {}
        if each(list, f) is Ok {
            assert forall|i: int| 0 <= i < list.len() implies f(list[i]) == Ok::<B, E>(
                #[trigger] each(list, f)->Ok_0[i],
            ) by {
                if i < list.len() - 1 {
                    assert(head[i] == list[i]);
                    assert(each(list, f)->Ok_0[i] == each(head, f)->Ok_0[i]);
                }
            }
            assert forall|i: int| 0 <= i < list.len() implies f(#[trigger] list[i]) is Ok by {
                assert(f(list[i]) == Ok::<B, E>(each(list, f)->Ok_0[i]));
            }
        } else if forall|i: int| 0 <= i < list.len() ==> f(#[trigger] list[i]) is Ok {
            assert forall|i: int| 0 <= i < head.len() implies f(#[trigger] head[i]) is Ok by {
                assert(f(list[i]) is Ok);
            }
            assert(f(list[list.len() - 1]) is Ok);
        }
    }
}

} // verus!
