//! Small facts about sequences that the parsers share.

use vstd::prelude::*;

verus! {

/// `front` followed by what `back` holds, if it holds anything.
pub open spec fn followed_by<T>(front: Seq<T>, back: Option<Seq<T>>) -> Option<Seq<T>> {
    match back {
        None => None,
        Some(rest) => Some(front + rest),
    }
}

/// `e` with `rest` after it, if there is a rest.
pub open spec fn headed_by<T>(e: T, back: Option<Seq<T>>) -> Option<Seq<T>> {
    match back {
        None => None,
        Some(rest) => Some(seq![e] + rest),
    }
}

/// Moving the head of the back to the end of the front changes nothing.
pub proof fn lemma_followed_by_step<T>(front: Seq<T>, e: T, back: Option<Seq<T>>)
    ensures
        followed_by(front.push(e), back) == followed_by(front, headed_by(e, back)),
{
    if back is Some {
        assert(front.push(e) + back->Some_0 =~= front + (seq![e] + back->Some_0));
    }
}

/// Nothing followed by a back is that back, and a front followed by nothing
/// more is that front.
pub proof fn lemma_followed_by_ends<T>(front: Seq<T>, back: Option<Seq<T>>)
    ensures
        followed_by(Seq::<T>::empty(), back) == back,
        followed_by(front, Some(Seq::<T>::empty())) == Some(front),
{
    if back is Some {
        assert(Seq::<T>::empty() + back->Some_0 =~= back->Some_0);
    }
    assert(front + Seq::<T>::empty() =~= front);
}

} // verus!
