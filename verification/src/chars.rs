//! Passwords of single characters, drawn from a slice of characters.

use vstd::prelude::*;
use crate::error::PasswordError;
use crate::drawing::{
    charset_fault, drawing, drawing_unseen, has_duplicates, lemma_picked_is_drawn, picked, seq_outcome,
};
use crate::sampler::{
    added, draw_indices, lemma_drawn_indices, lemma_gave_up_after_draws, never_rejects,
};
use crate::source::{carried_on, OsSource, RandomSource};

verus! {

/// The sixteen hexadecimal digits, with capital letters.
pub const CHARSET_UPPERCASE_HEX: [char; 16] = [
    '0', '1', '2', '3', '4', '5', '6', '7', '8', '9', 'A', 'B', 'C', 'D', 'E', 'F',
];

/// The sixteen hexadecimal digits, with small letters.
pub const CHARSET_LOWERCASE_HEX: [char; 16] = [
    '0', '1', '2', '3', '4', '5', '6', '7', '8', '9', 'a', 'b', 'c', 'd', 'e', 'f',
];

/// The small letters, the capital letters and the decimal digits.
pub const CHARSET_ALPHANUMERIC: [char; 62] = [
    'a', 'b', 'c', 'd', 'e', 'f', 'g', 'h', 'i', 'j', 'k', 'l', 'm', 'n', 'o', 'p', 'q', 'r',
    's', 't', 'u', 'v', 'w', 'x', 'y', 'z', 'A', 'B', 'C', 'D', 'E', 'F', 'G', 'H', 'I', 'J',
    'K', 'L', 'M', 'N', 'O', 'P', 'Q', 'R', 'S', 'T', 'U', 'V', 'W', 'X', 'Y', 'Z', '0', '1',
    '2', '3', '4', '5', '6', '7', '8', '9',
];

/// The printable ASCII characters that are not whitespace.
pub const CHARSET_ASCII: [char; 94] = [
    '!', '"', '#', '$', '%', '&', '\'', '(', ')', '*', '+', ',', '-', '.', '/', '0', '1', '2',
    '3', '4', '5', '6', '7', '8', '9', ':', ';', '<', '=', '>', '?', '@', 'A', 'B', 'C', 'D',
    'E', 'F', 'G', 'H', 'I', 'J', 'K', 'L', 'M', 'N', 'O', 'P', 'Q', 'R', 'S', 'T', 'U', 'V',
    'W', 'X', 'Y', 'Z', '[', '\\', ']', '^', '_', '`', 'a', 'b', 'c', 'd', 'e', 'f', 'g', 'h',
    'i', 'j', 'k', 'l', 'm', 'n', 'o', 'p', 'q', 'r', 's', 't', 'u', 'v', 'w', 'x', 'y', 'z',
    '{', '|', '}', '~',
];

/// The ten decimal digits.
pub const CHARSET_DECIMAL_DIGIT: [char; 10] = [
    '0', '1', '2', '3', '4', '5', '6', '7', '8', '9',
];

/// The twenty-six small letters.
pub const CHARSET_LOWERCASE_ALPHABETIC: [char; 26] = [
    'a', 'b', 'c', 'd', 'e', 'f', 'g', 'h', 'i', 'j', 'k', 'l', 'm', 'n', 'o', 'p', 'q', 'r',
    's', 't', 'u', 'v', 'w', 'x', 'y', 'z',
];

/// The sixteen hexadecimal digits with capital letters are a set to sample from: at least two, and no
/// two of them equal.
pub proof fn lemma_uppercase_hex_valid()
    ensures
        charset_fault(CHARSET_UPPERCASE_HEX@) is None,
{
}

/// The sixteen hexadecimal digits with small letters are a set to sample from: at least two, and no
/// two of them equal.
pub proof fn lemma_lowercase_hex_valid()
    ensures
        charset_fault(CHARSET_LOWERCASE_HEX@) is None,
{
}

/// The letters and decimal digits are a set to sample from: at least two, and no
/// two of them equal.
pub proof fn lemma_alphanumeric_valid()
    ensures
        charset_fault(CHARSET_ALPHANUMERIC@) is None,
{
}

/// The printable ASCII characters are a set to sample from: at least two, and no
/// two of them equal.
pub proof fn lemma_ascii_valid()
    ensures
        charset_fault(CHARSET_ASCII@) is None,
{
}

/// The ten decimal digits are a set to sample from: at least two, and no
/// two of them equal.
pub proof fn lemma_decimal_digit_valid()
    ensures
        charset_fault(CHARSET_DECIMAL_DIGIT@) is None,
{
}

/// The twenty-six small letters are a set to sample from: at least two, and no
/// two of them equal.
pub proof fn lemma_lowercase_alphabetic_valid()
    ensures
        charset_fault(CHARSET_LOWERCASE_ALPHABETIC@) is None,
{
}

/// Whether some character of `charset` occurs in it more than once.
pub fn contains_duplicates(charset: &[char]) -> (found: bool)
    ensures
        found == has_duplicates(charset@),
{
    let mut j: usize = 0;
    while j < charset.len()
        invariant
            j <= charset.len(),
            forall|a: int, b: int| 0 <= a < b < j ==> charset@[a] != charset@[b],
        decreases charset.len() - j,
    {
        let mut i: usize = 0;
        while i < j
            invariant
                i <= j < charset.len(),
                forall|a: int| 0 <= a < i ==> charset@[a] != charset@[j as int],
            decreases j - i,
        {
            if charset[i] == charset[j] {
                return true;
            }
            i = i + 1;
        }
        j = j + 1;
    }
    false
}

/// Checks that `charset` can be sampled from: it has at least two
/// characters and none of them twice.
pub fn check_characters(charset: &[char]) -> (checked: Result<(), PasswordError>)
    ensures
        checked == match charset_fault(charset@) {
            Some(fault) => Err::<(), PasswordError>(fault),
            None => Ok(()),
        },
{
    if charset.len() < 2 {
        Err(PasswordError::InvalidCharset)
    } else if contains_duplicates(charset) {
        Err(PasswordError::DuplicateElements)
    } else {
        Ok(())
    }
}

/// Looks up the characters of `charset` that `indices` name, in their order.
pub fn select_characters(charset: &[char], indices: &[usize]) -> (picks: Vec<char>)
    requires
        forall|k: int| 0 <= k < indices@.len() ==> #[trigger] indices@[k] < charset@.len(),
    ensures
        picks@ == picked(charset@, indices@),
{
    let mut picks: Vec<char> = Vec::new();
    let mut k: usize = 0;
    while k < indices.len()
        invariant
            k <= indices.len(),
            picks@.len() == k,
            forall|i: int| 0 <= i < indices@.len() ==> #[trigger] indices@[i] < charset@.len(),
            forall|i: int| 0 <= i < k ==> #[trigger] picks@[i] == charset@[indices@[i] as int],
        decreases indices.len() - k,
    {
        picks.push(charset[indices[k]]);
        k = k + 1;
    }
    assert(picks@ =~= picked(charset@, indices@));
    picks
}

fn draw_characters<R: RandomSource>(source: &mut R, charset: &[char], length: usize) -> (outcome: Result<
    Vec<char>,
    PasswordError,
>)
    requires
        charset_fault(charset@) is None,
    ensures
        carried_on(*old(source), *final(source)),
        drawing(
            seq_outcome(outcome),
            None,
            charset@,
            length as nat,
            added(old(source).served(), final(source).served()),
        ),
        drawing_unseen(seq_outcome(outcome), None, charset@, length as nat),
        length == 0 || never_rejects(charset@.len()) ==> outcome is Ok,
{
    let ghost before = source.served();
    match draw_indices(source, charset.len(), length) {
        Some(indices) => {
            proof {
                lemma_drawn_indices(added(before, source.served()), charset@.len(), indices@);
                lemma_picked_is_drawn(charset@, indices@);
            }
            Ok(select_characters(charset, indices.as_slice()))
        },
        None => {
            proof {
                lemma_gave_up_after_draws(added(before, source.served()), charset@.len(), length as nat);
            }
            Err(PasswordError::RandomSourceUnavailable)
        },
    }
}

/// Generates a password of `length` characters of `charset` with words
/// from `source`.
pub fn random_password_characters_with<R: RandomSource>(
    source: &mut R,
    charset: &[char],
    length: usize,
) -> (outcome: Result<Vec<char>, PasswordError>)
    ensures
        carried_on(*old(source), *final(source)),
        drawing(
            seq_outcome(outcome),
            charset_fault(charset@),
            charset@,
            length as nat,
            added(old(source).served(), final(source).served()),
        ),
        drawing_unseen(seq_outcome(outcome), charset_fault(charset@), charset@, length as nat),
        charset_fault(charset@) is None && (length == 0 || never_rejects(charset@.len()))
            ==> outcome is Ok,
{
    match check_characters(charset) {
        Err(fault) => {
            assert(added(source.served(), source.served()) =~= Seq::<u32>::empty());
            Err(fault)
        },
        Ok(()) => draw_characters(source, charset, length),
    }
}

/// Generates a password of `length` characters of `charset` with the
/// operating system's generator, which is acquired only if a character is
/// to be drawn.
pub fn random_password_characters(charset: &[char], length: usize) -> (outcome: Result<
    Vec<char>,
    PasswordError,
>)
    ensures
        drawing_unseen(seq_outcome(outcome), charset_fault(charset@), charset@, length as nat),
        charset_fault(charset@) is None && length == 0 ==> outcome is Ok,
{
    match check_characters(charset) {
        Err(fault) => Err(fault),
        Ok(()) => {
            if length == 0 {
                return Ok(Vec::new());
            }
            match OsSource::new() {
                None => Err(PasswordError::RandomSourceUnavailable),
                Some(mut source) => draw_characters(&mut source, charset, length),
            }
        },
    }
}

} // verus!
