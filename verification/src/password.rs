//! Passwords assembled from the elements of a candidate set.

use vstd::prelude::*;
use vstd::string::*;
use vstd::utf8::*;
use crate::drawing::{
    charset_fault, completed, drawing, drawing_unseen, drawn_from, has_duplicates,
    lemma_picked_is_drawn, picked, seq_outcome,
};
use crate::error::PasswordError;
use crate::sampler::{
    added, draw_indices, gave_up, indices_of, lemma_drawn_indices, lemma_gave_up_after_draws,
    never_rejects,
};
use crate::source::{carried_on, OsSource, RandomSource};

verus! {

/// The texts of a sequence of string slices.
pub open spec fn views(elements: Seq<&str>) -> Seq<Seq<char>> {
    Seq::new(elements.len(), |i: int| elements[i]@)
}

/// The elements of `parts` written one after the other, with `separator`
/// between each two neighbours.
pub open spec fn joined(parts: Seq<Seq<char>>, separator: Seq<char>) -> Seq<char>
    decreases parts.len(),
{
    if parts.len() == 0 {
        Seq::empty()
    } else if parts.len() == 1 {
        parts[0]
    } else {
        joined(parts.drop_last(), separator) + separator + parts.last()
    }
}

/// A password of no elements is the empty text, whatever the separator.
pub proof fn lemma_joined_none(separator: Seq<char>)
    ensures
        joined(Seq::empty(), separator) == Seq::<char>::empty(),
{
}

/// A password of one element is that element, with no separator applied.
pub proof fn lemma_joined_single(picks: Seq<Seq<char>>, separator: Seq<char>)
    requires
        picks.len() == 1,
    ensures
        joined(picks, separator) == picks[0],
{
}

/// Where every element has `width` characters, a password of `count`
/// elements has them all, and one separator less than it has elements.
pub proof fn lemma_joined_length(picks: Seq<Seq<char>>, separator: Seq<char>, width: nat)
    requires
        forall|k: int| 0 <= k < picks.len() ==> (#[trigger] picks[k]).len() == width,
    ensures
        picks.len() == 0 ==> joined(picks, separator).len() == 0,
        picks.len() >= 1 ==> joined(picks, separator).len() == picks.len() * width + (picks.len() - 1)
            * separator.len(),
    decreases picks.len(),
{
    if picks.len() >= 2 {
        let front = picks.drop_last();
        lemma_joined_length(front, separator, width);
        assert(picks.len() * width == front.len() * width + width) by (nonlinear_arith)
            requires
                picks.len() == front.len() + 1,
        ;
        assert((picks.len() - 1) * separator.len() == (front.len() - 1) * separator.len()
            + separator.len()) by (nonlinear_arith)
            requires
                picks.len() == front.len() + 1,
        ;
    } else if picks.len() == 1 {
        assert(picks.len() * width == width) by (nonlinear_arith)
            requires
                picks.len() == 1,
        ;
    }
}

/// Whether two string slices hold the same text.
pub fn same_text(a: &str, b: &str) -> (same: bool)
    ensures
        same == (a@ == b@),
{
    let left = a.as_bytes();
    let right = b.as_bytes();
    proof {
        encode_utf8_decode_utf8(a@);
        encode_utf8_decode_utf8(b@);
    }
    if left.len() != right.len() {
        return false;
    }
    let mut k: usize = 0;
    while k < left.len()
        invariant
            k <= left.len(),
            left.len() == right.len(),
            left@ == encode_utf8(a@),
            right@ == encode_utf8(b@),
            forall|i: int| 0 <= i < k ==> left@[i] == right@[i],
        decreases left.len() - k,
    {
        if left[k] != right[k] {
            return false;
        }
        k = k + 1;
    }
    assert(left@ =~= right@);
    true
}

/// Whether some element of `slice` occurs in it more than once.
pub fn slice_contains_duplicates(slice: &[&str]) -> (found: bool)
    ensures
        found == has_duplicates(views(slice@)),
{
    let mut j: usize = 0;
    while j < slice.len()
        invariant
            j <= slice.len(),
            forall|a: int, b: int| 0 <= a < b < j ==> slice@[a]@ != slice@[b]@,
        decreases slice.len() - j,
    {
        let mut i: usize = 0;
        while i < j
            invariant
                i <= j < slice.len(),
                forall|a: int| 0 <= a < i ==> slice@[a]@ != slice@[j as int]@,
            decreases j - i,
        {
            if same_text(slice[i], slice[j]) {
                assert(views(slice@)[i as int] == views(slice@)[j as int]);
                return true;
            }
            i = i + 1;
        }
        j = j + 1;
    }
    assert forall|a: int, b: int| 0 <= a < b < views(slice@).len() implies views(slice@)[a] != views(
        slice@,
    )[b] by {
        assert(slice@[a]@ != slice@[b]@);
    }
    false
}

/// Checks that `charset` can be sampled from: it has at least two elements
/// and none of them twice.
pub fn check_charset(charset: &[&str]) -> (checked: Result<(), PasswordError>)
    ensures
        checked == match charset_fault(views(charset@)) {
            Some(fault) => Err::<(), PasswordError>(fault),
            None => Ok(()),
        },
{
    if charset.len() < 2 {
        Err(PasswordError::InvalidCharset)
    } else if slice_contains_duplicates(charset) {
        Err(PasswordError::DuplicateElements)
    } else {
        Ok(())
    }
}

/// Writes `parts` one after the other, with `separator` between each two
/// neighbours.
pub fn join(parts: &[&str], separator: &str) -> (text: String)
    ensures
        text@ == joined(views(parts@), separator@),
{
    let mut text = String::new();
    let mut k: usize = 0;
    while k < parts.len()
        invariant
            k <= parts.len(),
            text@ == joined(views(parts@).take(k as int), separator@),
        decreases parts.len() - k,
    {
        let ghost before = views(parts@).take(k as int);
        let ghost after = views(parts@).take(k + 1);
        proof {
            assert(after.drop_last() =~= before);
            assert(after.last() == parts@[k as int]@);
        }
        if k > 0 {
            text.append(separator);
        }
        text.append(parts[k]);
        k = k + 1;
    }
    proof {
        assert(views(parts@).take(k as int) =~= views(parts@));
    }
    text
}

/// Looks up the elements of `charset` that `indices` name, in their order.
pub fn select<'a>(charset: &[&'a str], indices: &[usize]) -> (picks: Vec<&'a str>)
    requires
        forall|k: int| 0 <= k < indices@.len() ==> #[trigger] indices@[k] < charset@.len(),
    ensures
        picks@ == picked(charset@, indices@),
{
    let mut picks: Vec<&'a str> = Vec::new();
    let mut k: usize = 0;
    while k < indices.len()
        invariant
            k <= indices.len(),
            picks@.len() == k,
            forall|i: int| 0 <= i < indices@.len() ==> #[trigger] indices@[i] < charset@.len(),
            forall|i: int| 0 <= i < k ==> #[trigger] picks@[i] == charset@[indices@[i] as int],
        decreases indices.len() - k,
    {
        picks.push(charset[indices[k]]);
        k = k + 1;
    }
    assert(picks@ =~= picked(charset@, indices@));
    picks
}

/// What generating a password of `count` elements of `charset` comes to,
/// given the words that the source served for it: as for drawing the
/// elements, with the elements joined by `separator`.
pub open spec fn password_drawing(
    outcome: Result<String, PasswordError>,
    charset: Seq<Seq<char>>,
    count: nat,
    separator: Seq<char>,
    words: Seq<u32>,
) -> bool {
    match charset_fault(charset) {
        Some(fault) => outcome == Err::<String, PasswordError>(fault) && words.len() == 0,
        None => match outcome {
            Ok(text) => completed(words, charset.len(), count) && text@ == joined(
                picked(charset, indices_of(words, charset.len())),
                separator,
            ),
            Err(fault) => fault == PasswordError::RandomSourceUnavailable && gave_up(
                words,
                charset.len(),
                count,
            ),
        },
    }
}

/// What generating a password of `count` elements of `charset` comes to
/// where the words of the source are not on record: as for drawing the
/// elements, with the elements joined by `separator`.
pub open spec fn password_outcome(
    outcome: Result<String, PasswordError>,
    charset: Seq<Seq<char>>,
    count: nat,
    separator: Seq<char>,
) -> bool {
    match charset_fault(charset) {
        Some(fault) => outcome == Err::<String, PasswordError>(fault),
        None => match outcome {
            Ok(text) => exists|picks: Seq<Seq<char>>|
                drawn_from(picks, charset, count) && text@ == #[trigger] joined(picks, separator),
            Err(fault) => fault == PasswordError::RandomSourceUnavailable && count > 0,
        },
    }
}

/// Picking texts is picking string slices and taking their texts.
pub proof fn lemma_picked_views(set: Seq<&str>, indices: Seq<usize>)
    requires
        forall|k: int| 0 <= k < indices.len() ==> #[trigger] indices[k] < set.len(),
    ensures
        views(picked(set, indices)) == picked(views(set), indices),
{
    assert(views(picked(set, indices)) =~= picked(views(set), indices));
}

/// Whatever is drawn from a set, none of it gives the empty text and one
/// element of it gives a member of the set.
proof fn lemma_small_passwords(charset: Seq<Seq<char>>, separator: Seq<char>)
    ensures
        forall|picks: Seq<Seq<char>>| #[trigger]
            drawn_from(picks, charset, 0) ==> joined(picks, separator).len() == 0,
        forall|picks: Seq<Seq<char>>| #[trigger]
            drawn_from(picks, charset, 1) ==> charset.contains(joined(picks, separator)),
{
    assert forall|picks: Seq<Seq<char>>| #[trigger] drawn_from(picks, charset, 1) implies charset.contains(
        joined(picks, separator),
    ) by {
        assert(charset.contains(picks[0]));
    }
}

fn draw_elements<'a, R: RandomSource>(source: &mut R, charset: &[&'a str], count: usize) -> (outcome: Result<
    Vec<&'a str>,
    PasswordError,
>)
    requires
        charset_fault(views(charset@)) is None,
    ensures
        carried_on(*old(source), *final(source)),
        drawing(
            seq_outcome(outcome),
            None,
            charset@,
            count as nat,
            added(old(source).served(), final(source).served()),
        ),
        drawing_unseen(seq_outcome(outcome), None, charset@, count as nat),
        count == 0 || never_rejects(charset@.len()) ==> outcome is Ok,
{
    let ghost before = source.served();
    match draw_indices(source, charset.len(), count) {
        Some(indices) => {
            proof {
                lemma_drawn_indices(added(before, source.served()), charset@.len(), indices@);
                lemma_picked_is_drawn(charset@, indices@);
            }
            Ok(select(charset, indices.as_slice()))
        },
        None => {
            proof {
                lemma_gave_up_after_draws(added(before, source.served()), charset@.len(), count as nat);
            }
            Err(PasswordError::RandomSourceUnavailable)
        },
    }
}

/// Draws `count` elements of `charset` with words from `source`.
pub fn random_password_elements_with<'a, R: RandomSource>(
    source: &mut R,
    charset: &[&'a str],
    count: usize,
) -> (outcome: Result<Vec<&'a str>, PasswordError>)
    ensures
        carried_on(*old(source), *final(source)),
        drawing(
            seq_outcome(outcome),
            charset_fault(views(charset@)),
            charset@,
            count as nat,
            added(old(source).served(), final(source).served()),
        ),
        drawing_unseen(seq_outcome(outcome), charset_fault(views(charset@)), charset@, count as nat),
        charset_fault(views(charset@)) is None && (count == 0 || never_rejects(charset@.len()))
            ==> outcome is Ok,
{
    match check_charset(charset) {
        Err(fault) => {
            assert(added(source.served(), source.served()) =~= Seq::<u32>::empty());
            Err(fault)
        },
        Ok(()) => draw_elements(source, charset, count),
    }
}

/// Draws `count` elements of `charset` with the operating system's
/// generator, which is acquired only if an element is to be drawn.
pub fn random_password_elements<'a>(charset: &[&'a str], count: usize) -> (outcome: Result<
    Vec<&'a str>,
    PasswordError,
>)
    ensures
        drawing_unseen(seq_outcome(outcome), charset_fault(views(charset@)), charset@, count as nat),
        charset_fault(views(charset@)) is None && count == 0 ==> outcome is Ok,
{
    match check_charset(charset) {
        Err(fault) => Err(fault),
        Ok(()) => {
            if count == 0 {
                return Ok(Vec::new());
            }
            match OsSource::new() {
                None => Err(PasswordError::RandomSourceUnavailable),
                Some(mut source) => draw_elements(&mut source, charset, count),
            }
        },
    }
}

/// Generates a password of `count` elements of `charset`, joined by
/// `separator`, with words from `source`.
pub fn random_password_with<R: RandomSource>(
    source: &mut R,
    charset: &[&str],
    count: usize,
    separator: &str,
) -> (outcome: Result<String, PasswordError>)
    ensures
        carried_on(*old(source), *final(source)),
        password_drawing(
            outcome,
            views(charset@),
            count as nat,
            separator@,
            added(old(source).served(), final(source).served()),
        ),
        password_outcome(outcome, views(charset@), count as nat, separator@),
        charset_fault(views(charset@)) is None && (count == 0 || never_rejects(charset@.len()))
            ==> outcome is Ok,
        charset@.len() < 2 ==> outcome == Err::<String, PasswordError>(PasswordError::InvalidCharset),
        count == 0 && outcome is Ok ==> outcome->Ok_0@.len() == 0,
        count == 1 && outcome is Ok ==> views(charset@).contains(outcome->Ok_0@),
{
    let ghost before = source.served();
    proof {
        lemma_small_passwords(views(charset@), separator@);
    }
    match random_password_elements_with(source, charset, count) {
        Ok(picks) => {
            proof {
                let words = added(before, source.served());
                let indices = indices_of(words, charset@.len());
                lemma_drawn_indices(words, charset@.len(), indices);
                lemma_picked_views(charset@, indices);
                lemma_picked_is_drawn(views(charset@), indices);
            }
            Ok(join(picks.as_slice(), separator))
        },
        Err(fault) => Err(fault),
    }
}

/// The texts of drawn elements are drawn from the texts of the set.
proof fn lemma_views_drawn(picks: Seq<&str>, charset: Seq<&str>)
    requires
        forall|k: int| 0 <= k < picks.len() ==> charset.contains(#[trigger] picks[k]),
    ensures
        drawn_from(views(picks), views(charset), picks.len()),
{
    assert forall|k: int| 0 <= k < views(picks).len() implies views(charset).contains(
        #[trigger] views(picks)[k],
    ) by {
        assert(charset.contains(picks[k]));
        let i = choose|i: int| 0 <= i < charset.len() && charset[i] == picks[k];
        assert(views(charset)[i] == views(picks)[k]);
    }
}

/// Generates a password of `count` elements of `charset`, joined by
/// `separator`, with the operating system's generator.
pub fn random_password(charset: &[&str], count: usize, separator: &str) -> (outcome: Result<
    String,
    PasswordError,
>)
    ensures
        password_outcome(outcome, views(charset@), count as nat, separator@),
        charset@.len() < 2 ==> outcome == Err::<String, PasswordError>(PasswordError::InvalidCharset),
        count == 0 && charset_fault(views(charset@)) is None ==> outcome is Ok,
        count == 0 && outcome is Ok ==> outcome->Ok_0@.len() == 0,
        count == 1 && outcome is Ok ==> views(charset@).contains(outcome->Ok_0@),
{
    proof {
        lemma_small_passwords(views(charset@), separator@);
    }
    match random_password_elements(charset, count) {
        Ok(picks) => {
            proof {
                lemma_views_drawn(picks@, charset@);
            }
            Ok(join(picks.as_slice(), separator))
        },
        Err(fault) => Err(fault),
    }
}

} // verus!
