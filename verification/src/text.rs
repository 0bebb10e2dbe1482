//! Passwords of single characters, drawn from the characters of a string.

use vstd::prelude::*;
use vstd::string::*;
use crate::chars::check_characters;
use crate::drawing::{charset_fault, drawing, drawing_unseen, lemma_picked_is_drawn, picked};
use crate::error::PasswordError;
use crate::sampler::{
    added, draw_indices, lemma_drawn_indices, lemma_gave_up_after_draws, never_rejects,
};
use crate::source::{carried_on, OsSource, RandomSource};

verus! {

/// The sixteen hexadecimal digits, with capital letters.
pub const CHARSET_UPPERCASE_HEX: &'static str = "0123456789ABCDEF";

/// The sixteen hexadecimal digits, with small letters.
pub const CHARSET_LOWERCASE_HEX: &'static str = "0123456789abcdef";

/// The small letters, the capital letters and the decimal digits.
pub const CHARSET_ALPHANUMERIC: &'static str = "abcdefghijklmnopqrstuvwxyzABCDEFGHIJKLMNOPQRSTUVWXYZ0123456789";

/// The printable ASCII characters that are not whitespace.
pub const CHARSET_ASCII: &'static str = "!\"#$%&'()*+,-./0123456789:;<=>?@ABCDEFGHIJKLMNOPQRSTUVWXYZ[\\]^_`abcdefghijklmnopqrstuvwxyz{|}~";

/// The ten decimal digits.
pub const CHARSET_DECIMAL_DIGIT: &'static str = "0123456789";

/// The twenty-six small letters.
pub const CHARSET_LOWERCASE_ALPHABETIC: &'static str = "abcdefghijklmnopqrstuvwxyz";

/// The sixteen hexadecimal digits with capital letters are a set to sample from: at least two, and no
/// two of them equal.
pub proof fn lemma_uppercase_hex_valid()
    ensures
        charset_fault(CHARSET_UPPERCASE_HEX@) is None,
{
    reveal_strlit("0123456789ABCDEF");
}

/// The sixteen hexadecimal digits with small letters are a set to sample from: at least two, and no
/// two of them equal.
pub proof fn lemma_lowercase_hex_valid()
    ensures
        charset_fault(CHARSET_LOWERCASE_HEX@) is None,
{
    reveal_strlit("0123456789abcdef");
}

/// The letters and decimal digits are a set to sample from: at least two, and no
/// two of them equal.
pub proof fn lemma_alphanumeric_valid()
    ensures
        charset_fault(CHARSET_ALPHANUMERIC@) is None,
{
    reveal_strlit("abcdefghijklmnopqrstuvwxyzABCDEFGHIJKLMNOPQRSTUVWXYZ0123456789");
}

/// The printable ASCII characters are a set to sample from: at least two, and no
/// two of them equal.
pub proof fn lemma_ascii_valid()
    ensures
        charset_fault(CHARSET_ASCII@) is None,
{
    reveal_strlit("!\"#$%&'()*+,-./0123456789:;<=>?@ABCDEFGHIJKLMNOPQRSTUVWXYZ[\\]^_`abcdefghijklmnopqrstuvwxyz{|}~");
}

/// The ten decimal digits are a set to sample from: at least two, and no
/// two of them equal.
pub proof fn lemma_decimal_digit_valid()
    ensures
        charset_fault(CHARSET_DECIMAL_DIGIT@) is None,
{
    reveal_strlit("0123456789");
}

/// The twenty-six small letters are a set to sample from: at least two, and no
/// two of them equal.
pub proof fn lemma_lowercase_alphabetic_valid()
    ensures
        charset_fault(CHARSET_LOWERCASE_ALPHABETIC@) is None,
{
    reveal_strlit("abcdefghijklmnopqrstuvwxyz");
}

/// A result with the password replaced by the characters it holds.
pub open spec fn string_outcome(outcome: Result<String, PasswordError>) -> Result<Seq<char>, PasswordError> {
    match outcome {
        Ok(password) => Ok(password@),
        Err(fault) => Err(fault),
    }
}

/// The characters of `text`, in their order.
pub fn characters_of(text: &str) -> (characters: Vec<char>)
    ensures
        characters@ == text@,
{
    let length = text.unicode_len();
    let mut characters: Vec<char> = Vec::new();
    let mut k: usize = 0;
    while k < length
        invariant
            length == text@.len(),
            k <= length,
            characters@ == text@.take(k as int),
        decreases length - k,
    {
        characters.push(text.get_char(k));
        assert(text@.take(k + 1) =~= text@.take(k as int).push(text@[k as int]));
        k = k + 1;
    }
    assert(text@.take(k as int) =~= text@);
    characters
}

/// Writes the characters of `charset` that `indices` name, in their order.
pub fn select_text(charset: &str, indices: &[usize]) -> (picks: String)
    requires
        charset@.len() <= usize::MAX,
        forall|k: int| 0 <= k < indices@.len() ==> #[trigger] indices@[k] < charset@.len(),
    ensures
        picks@ == picked(charset@, indices@),
{
    let mut picks = String::new();
    let mut k: usize = 0;
    while k < indices.len()
        invariant
            k <= indices.len(),
            picks@.len() == k,
            charset@.len() <= usize::MAX,
            forall|i: int| 0 <= i < indices@.len() ==> #[trigger] indices@[i] < charset@.len(),
            forall|i: int| 0 <= i < k ==> #[trigger] picks@[i] == charset@[indices@[i] as int],
        decreases indices.len() - k,
    {
        let index = indices[k];
        picks.append(charset.substring_char(index, index + 1));
        k = k + 1;
    }
    assert(picks@ =~= picked(charset@, indices@));
    picks
}

fn draw_text<R: RandomSource>(source: &mut R, charset: &str, size: usize, length: usize) -> (outcome: Result<
    String,
    PasswordError,
>)
    requires
        size == charset@.len(),
        charset_fault(charset@) is None,
    ensures
        carried_on(*old(source), *final(source)),
        drawing(
            string_outcome(outcome),
            None,
            charset@,
            length as nat,
            added(old(source).served(), final(source).served()),
        ),
        drawing_unseen(string_outcome(outcome), None, charset@, length as nat),
        length == 0 || never_rejects(charset@.len()) ==> outcome is Ok,
{
    let ghost before = source.served();
    match draw_indices(source, size, length) {
        Some(indices) => {
            proof {
                lemma_drawn_indices(added(before, source.served()), charset@.len(), indices@);
                lemma_picked_is_drawn(charset@, indices@);
            }
            Ok(select_text(charset, indices.as_slice()))
        },
        None => {
            proof {
                lemma_gave_up_after_draws(added(before, source.served()), charset@.len(), length as nat);
            }
            Err(PasswordError::RandomSourceUnavailable)
        },
    }
}

/// Generates a password of `length` characters of `charset` with words
/// from `source`.
pub fn random_password_characters_with<R: RandomSource>(
    source: &mut R,
    charset: &str,
    length: usize,
) -> (outcome: Result<String, PasswordError>)
    ensures
        carried_on(*old(source), *final(source)),
        drawing(
            string_outcome(outcome),
            charset_fault(charset@),
            charset@,
            length as nat,
            added(old(source).served(), final(source).served()),
        ),
        drawing_unseen(string_outcome(outcome), charset_fault(charset@), charset@, length as nat),
        charset_fault(charset@) is None && (length == 0 || never_rejects(charset@.len()))
            ==> outcome is Ok,
{
    let characters = characters_of(charset);
    match check_characters(characters.as_slice()) {
        Err(fault) => {
            assert(added(source.served(), source.served()) =~= Seq::<u32>::empty());
            Err(fault)
        },
        Ok(()) => draw_text(source, charset, characters.len(), length),
    }
}

/// Generates a password of `length` characters of `charset` with the
/// operating system's generator, which is acquired only if a character is
/// to be drawn.
pub fn random_password_characters(charset: &str, length: usize) -> (outcome: Result<String, PasswordError>)
    ensures
        drawing_unseen(string_outcome(outcome), charset_fault(charset@), charset@, length as nat),
        charset_fault(charset@) is None && length == 0 ==> outcome is Ok,
{
    let characters = characters_of(charset);
    match check_characters(characters.as_slice()) {
        Err(fault) => Err(fault),
        Ok(()) => {
            if length == 0 {
                return Ok(String::new());
            }
            match OsSource::new() {
                None => Err(PasswordError::RandomSourceUnavailable),
                Some(mut source) => draw_text(&mut source, charset, characters.len(), length),
            }
        },
    }
}

} // verus!
