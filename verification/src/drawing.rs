//! What it means to draw elements from a candidate set, whatever the
//! elements are.

use vstd::prelude::*;
use crate::error::PasswordError;
use crate::sampler::{drawn, gave_up, indices_of};

verus! {

/// Whether some value occurs at two places of `elements`.
pub open spec fn has_duplicates<T>(elements: Seq<T>) -> bool {
    exists|i: int, j: int| 0 <= i < j < elements.len() && elements[i] == elements[j]
}

/// Whether `picks` holds `count` elements, each of them taken from `set`.
pub open spec fn drawn_from<T>(picks: Seq<T>, set: Seq<T>, count: nat) -> bool {
    &&& picks.len() == count
    &&& forall|k: int| 0 <= k < picks.len() ==> set.contains(#[trigger] picks[k])
}

/// The elements of `set` that `indices` name, in the order of the indices.
pub open spec fn picked<T>(set: Seq<T>, indices: Seq<usize>) -> Seq<T> {
    Seq::new(indices.len(), |k: int| set[indices[k] as int])
}

/// The error that a candidate set is rejected with, if any.
pub open spec fn charset_fault<T>(elements: Seq<T>) -> Option<PasswordError> {
    if elements.len() < 2 {
        Some(PasswordError::InvalidCharset)
    } else if has_duplicates(elements) {
        Some(PasswordError::DuplicateElements)
    } else {
        None
    }
}

/// A result with the vector in it replaced by the elements it holds.
pub open spec fn seq_outcome<T>(outcome: Result<Vec<T>, PasswordError>) -> Result<Seq<T>, PasswordError> {
    match outcome {
        Ok(picks) => Ok(picks@),
        Err(fault) => Err(fault),
    }
}

/// Whether `words` are what completing `count` samples below `n` draws.
pub open spec fn completed(words: Seq<u32>, n: nat, count: nat) -> bool {
    drawn(words, n, indices_of(words, n)) && indices_of(words, n).len() == count
}

/// What drawing `count` elements of `charset` comes to, given the fault of
/// the set and the words that the source served for it. A faulty set gives
/// its error and costs no word. Otherwise the words are exactly what the
/// samples take, and the elements are those that the accepted words name;
/// or the source is reported, and the words end in `DRAW_LIMIT` discarded
/// ones before `count` elements were had.
pub open spec fn drawing<T>(
    outcome: Result<Seq<T>, PasswordError>,
    fault: Option<PasswordError>,
    charset: Seq<T>,
    count: nat,
    words: Seq<u32>,
) -> bool {
    match fault {
        Some(fault) => outcome == Err::<Seq<T>, PasswordError>(fault) && words.len() == 0,
        None => match outcome {
            Ok(picks) => completed(words, charset.len(), count) && picks == picked(
                charset,
                indices_of(words, charset.len()),
            ),
            Err(fault) => fault == PasswordError::RandomSourceUnavailable && gave_up(
                words,
                charset.len(),
                count,
            ),
        },
    }
}

/// What drawing `count` elements of `charset` comes to where the words of
/// the source are not on record: a faulty set gives its error; otherwise
/// `count` members of the set come back, or the source is reported, which
/// it is only if an element was to be drawn.
pub open spec fn drawing_unseen<T>(
    outcome: Result<Seq<T>, PasswordError>,
    fault: Option<PasswordError>,
    charset: Seq<T>,
    count: nat,
) -> bool {
    match fault {
        Some(fault) => outcome == Err::<Seq<T>, PasswordError>(fault),
        None => match outcome {
            Ok(picks) => drawn_from(picks, charset, count),
            Err(fault) => fault == PasswordError::RandomSourceUnavailable && count > 0,
        },
    }
}

/// What is picked by indices below the size of a set is drawn from the set.
pub proof fn lemma_picked_is_drawn<T>(set: Seq<T>, indices: Seq<usize>)
    requires
        forall|k: int| 0 <= k < indices.len() ==> #[trigger] indices[k] < set.len(),
    ensures
        drawn_from(picked(set, indices), set, indices.len()),
{
    assert forall|k: int| 0 <= k < indices.len() implies set.contains(#[trigger] picked(set, indices)[k]) by {
        assert(picked(set, indices)[k] == set[indices[k] as int]);
    }
}

/// Whether the index `j` was sampled at least once.
pub open spec fn occurs(indices: Seq<usize>, j: int) -> bool {
    exists|k: int| 0 <= k < indices.len() && #[trigger] indices[k] == j
}

/// An element whose index was sampled is among what is picked.
pub proof fn lemma_sampled_is_picked<T>(set: Seq<T>, indices: Seq<usize>, j: int)
    requires
        occurs(indices, j),
    ensures
        picked(set, indices).contains(set[j]),
{
    let k = choose|k: int| 0 <= k < indices.len() && #[trigger] indices[k] == j;
    assert(picked(set, indices)[k] == set[j]);
}

/// Where every index below the size of the set was sampled at least once,
/// every element of the set is among what is picked.
pub proof fn lemma_all_sampled_all_picked<T>(set: Seq<T>, indices: Seq<usize>)
    requires
        forall|j: int| 0 <= j < set.len() ==> #[trigger] occurs(indices, j),
    ensures
        forall|j: int| 0 <= j < set.len() ==> picked(set, indices).contains(#[trigger] set[j]),
{
    assert forall|j: int| 0 <= j < set.len() implies picked(set, indices).contains(#[trigger] set[j]) by {
        assert(occurs(indices, j));
        lemma_sampled_is_picked(set, indices, j);
    }
}

} // verus!
