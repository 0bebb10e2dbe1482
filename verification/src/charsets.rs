//! Candidate sets of strings, ready for `random_password`.

use vstd::prelude::*;
use vstd::string::*;
use crate::chars;
use crate::drawing::{charset_fault, has_duplicates};
use crate::password::views;

verus! {

/// The sixteen hexadecimal digits, with capital letters.
pub const UPPERCASE_HEX: [&'static str; 16] = [
    "0", "1", "2", "3", "4", "5", "6", "7", "8", "9", "A", "B", "C", "D", "E", "F",
];

/// The sixteen hexadecimal digits, with small letters.
pub const LOWERCASE_HEX: [&'static str; 16] = [
    "0", "1", "2", "3", "4", "5", "6", "7", "8", "9", "a", "b", "c", "d", "e", "f",
];

/// The small letters, the capital letters and the decimal digits.
pub const ALPHANUMERIC: [&'static str; 62] = [
    "a", "b", "c", "d", "e", "f", "g", "h", "i", "j", "k", "l", "m", "n", "o", "p", "q", "r",
    "s", "t", "u", "v", "w", "x", "y", "z", "A", "B", "C", "D", "E", "F", "G", "H", "I", "J",
    "K", "L", "M", "N", "O", "P", "Q", "R", "S", "T", "U", "V", "W", "X", "Y", "Z", "0", "1",
    "2", "3", "4", "5", "6", "7", "8", "9",
];

/// The printable ASCII characters that are not whitespace.
pub const ASCII: [&'static str; 94] = [
    "!", "\"", "#", "$", "%", "&", "'", "(", ")", "*", "+", ",", "-", ".", "/", "0", "1", "2",
    "3", "4", "5", "6", "7", "8", "9", ":", ";", "<", "=", ">", "?", "@", "A", "B", "C", "D",
    "E", "F", "G", "H", "I", "J", "K", "L", "M", "N", "O", "P", "Q", "R", "S", "T", "U", "V",
    "W", "X", "Y", "Z", "[", "\\", "]", "^", "_", "`", "a", "b", "c", "d", "e", "f", "g", "h",
    "i", "j", "k", "l", "m", "n", "o", "p", "q", "r", "s", "t", "u", "v", "w", "x", "y", "z",
    "{", "|", "}", "~",
];

/// The ten decimal digits.
pub const DECIMAL_DIGIT: [&'static str; 10] = [
    "0", "1", "2", "3", "4", "5", "6", "7", "8", "9",
];

/// The twenty-six small letters.
pub const LOWERCASE_ALPHABETIC: [&'static str; 26] = [
    "a", "b", "c", "d", "e", "f", "g", "h", "i", "j", "k", "l", "m", "n", "o", "p", "q", "r",
    "s", "t", "u", "v", "w", "x", "y", "z",
];

/// English words, with one space between each two of them.
pub const WORD_TEXT: &'static str = "\
    apple apricot banana cherry coconut grape lemon lime mango melon olive orange papaya \
    peach pear plum raisin tomato walnut almond badger beaver bison camel cheetah cobra \
    coyote crane cricket dolphin donkey eagle falcon ferret finch gecko giraffe gopher heron \
    hornet jaguar koala lemur lizard llama lobster magpie marmot moose mouse ocelot octopus \
    ostrich otter panda parrot pelican penguin pigeon pony rabbit raccoon raven salmon seal \
    shark sheep shrimp sparrow spider squid stork swan tiger toad trout turkey turtle walrus \
    weasel whale wolf zebra amber azure beige bronze coral crimson indigo ivory lilac maroon \
    navy ochre purple scarlet silver teal violet yellow anchor anvil arrow axle bag banner \
    barrel basket beacon bench blanket bottle bracket bridge broom bucket button cabin cable \
    candle canvas carpet castle chain chalk chimney chisel clock compass copper cotton \
    cradle cushion dagger dial drawer engine fabric feather fence flask funnel garden hammer \
    handle harbor helmet hinge kettle ladder lantern lever locket magnet mallet marble \
    mirror needle paddle pebble pencil pillow piston planet pocket puzzle quilt ribbon \
    rocket saddle shovel sketch socket spindle spoon stable staple statue street tablet \
    ticket timber tunnel valley velvet wagon wallet whistle window bake blend bounce carve \
    climb collect dance deliver drift explore fold gather glide grind hover juggle kneel \
    launch listen measure mingle observe paint polish ponder quiver rattle repair rescue \
    scatter scribble shuffle sprinkle stitch stroll tumble unfold wander weave whisper yawn \
    autumn breeze canyon cloud comet desert dune ember forest frost geyser glacier harvest \
    island jungle lagoon meadow meteor mist monsoon mountain nebula oasis ocean orbit \
    prairie rainbow river season shadow spring summer sunset thunder tundra twilight volcano \
    winter brave calm clever cosy eager fancy gentle hasty humble jolly keen lively mellow \
    nimble proud quiet rapid sturdy tidy vivid witty zesty";

/// Texts that begin with characters of which no two are equal are
/// themselves such that no two are equal.
proof fn lemma_distinct_by_first(set: Seq<Seq<char>>, firsts: Seq<char>)
    requires
        set.len() == firsts.len(),
        forall|i: int| 0 <= i < set.len() ==> (#[trigger] set[i]).len() >= 1 && set[i][0] == firsts[i],
        !has_duplicates(firsts),
    ensures
        !has_duplicates(set),
{
    assert forall|i: int, j: int| 0 <= i < j < set.len() implies set[i] != set[j] by {
        assert(set[i][0] == firsts[i]);
        assert(set[j][0] == firsts[j]);
    }
}

/// The sixteen hexadecimal digits with capital letters are a set to sample from: at least two, and no
/// two of them equal.
pub proof fn lemma_uppercase_hex_valid()
    ensures
        charset_fault(views(UPPERCASE_HEX@)) is None,
{
    reveal_strlit("0");
    reveal_strlit("1");
    reveal_strlit("2");
    reveal_strlit("3");
    reveal_strlit("4");
    reveal_strlit("5");
    reveal_strlit("6");
    reveal_strlit("7");
    reveal_strlit("8");
    reveal_strlit("9");
    reveal_strlit("A");
    reveal_strlit("B");
    reveal_strlit("C");
    reveal_strlit("D");
    reveal_strlit("E");
    reveal_strlit("F");
    chars::lemma_uppercase_hex_valid();
    lemma_distinct_by_first(views(UPPERCASE_HEX@), chars::CHARSET_UPPERCASE_HEX@);
}

/// The sixteen hexadecimal digits with small letters are a set to sample from: at least two, and no
/// two of them equal.
pub proof fn lemma_lowercase_hex_valid()
    ensures
        charset_fault(views(LOWERCASE_HEX@)) is None,
{
    reveal_strlit("0");
    reveal_strlit("1");
    reveal_strlit("2");
    reveal_strlit("3");
    reveal_strlit("4");
    reveal_strlit("5");
    reveal_strlit("6");
    reveal_strlit("7");
    reveal_strlit("8");
    reveal_strlit("9");
    reveal_strlit("a");
    reveal_strlit("b");
    reveal_strlit("c");
    reveal_strlit("d");
    reveal_strlit("e");
    reveal_strlit("f");
    chars::lemma_lowercase_hex_valid();
    lemma_distinct_by_first(views(LOWERCASE_HEX@), chars::CHARSET_LOWERCASE_HEX@);
}

/// The letters and decimal digits are a set to sample from: at least two, and no
/// two of them equal.
pub proof fn lemma_alphanumeric_valid()
    ensures
        charset_fault(views(ALPHANUMERIC@)) is None,
{
    reveal_strlit("a");
    reveal_strlit("b");
    reveal_strlit("c");
    reveal_strlit("d");
    reveal_strlit("e");
    reveal_strlit("f");
    reveal_strlit("g");
    reveal_strlit("h");
    reveal_strlit("i");
    reveal_strlit("j");
    reveal_strlit("k");
    reveal_strlit("l");
    reveal_strlit("m");
    reveal_strlit("n");
    reveal_strlit("o");
    reveal_strlit("p");
    reveal_strlit("q");
    reveal_strlit("r");
    reveal_strlit("s");
    reveal_strlit("t");
    reveal_strlit("u");
    reveal_strlit("v");
    reveal_strlit("w");
    reveal_strlit("x");
    reveal_strlit("y");
    reveal_strlit("z");
    reveal_strlit("A");
    reveal_strlit("B");
    reveal_strlit("C");
    reveal_strlit("D");
    reveal_strlit("E");
    reveal_strlit("F");
    reveal_strlit("G");
    reveal_strlit("H");
    reveal_strlit("I");
    reveal_strlit("J");
    reveal_strlit("K");
    reveal_strlit("L");
    reveal_strlit("M");
    reveal_strlit("N");
    reveal_strlit("O");
    reveal_strlit("P");
    reveal_strlit("Q");
    reveal_strlit("R");
    reveal_strlit("S");
    reveal_strlit("T");
    reveal_strlit("U");
    reveal_strlit("V");
    reveal_strlit("W");
    reveal_strlit("X");
    reveal_strlit("Y");
    reveal_strlit("Z");
    reveal_strlit("0");
    reveal_strlit("1");
    reveal_strlit("2");
    reveal_strlit("3");
    reveal_strlit("4");
    reveal_strlit("5");
    reveal_strlit("6");
    reveal_strlit("7");
    reveal_strlit("8");
    reveal_strlit("9");
    chars::lemma_alphanumeric_valid();
    lemma_distinct_by_first(views(ALPHANUMERIC@), chars::CHARSET_ALPHANUMERIC@);
}

/// The printable ASCII characters are a set to sample from: at least two, and no
/// two of them equal.
pub proof fn lemma_ascii_valid()
    ensures
        charset_fault(views(ASCII@)) is None,
{
    reveal_strlit("!");
    reveal_strlit("\"");
    reveal_strlit("#");
    reveal_strlit("$");
    reveal_strlit("%");
    reveal_strlit("&");
    reveal_strlit("'");
    reveal_strlit("(");
    reveal_strlit(")");
    reveal_strlit("*");
    reveal_strlit("+");
    reveal_strlit(",");
    reveal_strlit("-");
    reveal_strlit(".");
    reveal_strlit("/");
    reveal_strlit("0");
    reveal_strlit("1");
    reveal_strlit("2");
    reveal_strlit("3");
    reveal_strlit("4");
    reveal_strlit("5");
    reveal_strlit("6");
    reveal_strlit("7");
    reveal_strlit("8");
    reveal_strlit("9");
    reveal_strlit(":");
    reveal_strlit(";");
    reveal_strlit("<");
    reveal_strlit("=");
    reveal_strlit(">");
    reveal_strlit("?");
    reveal_strlit("@");
    reveal_strlit("A");
    reveal_strlit("B");
    reveal_strlit("C");
    reveal_strlit("D");
    reveal_strlit("E");
    reveal_strlit("F");
    reveal_strlit("G");
    reveal_strlit("H");
    reveal_strlit("I");
    reveal_strlit("J");
    reveal_strlit("K");
    reveal_strlit("L");
    reveal_strlit("M");
    reveal_strlit("N");
    reveal_strlit("O");
    reveal_strlit("P");
    reveal_strlit("Q");
    reveal_strlit("R");
    reveal_strlit("S");
    reveal_strlit("T");
    reveal_strlit("U");
    reveal_strlit("V");
    reveal_strlit("W");
    reveal_strlit("X");
    reveal_strlit("Y");
    reveal_strlit("Z");
    reveal_strlit("[");
    reveal_strlit("\\");
    reveal_strlit("]");
    reveal_strlit("^");
    reveal_strlit("_");
    reveal_strlit("`");
    reveal_strlit("a");
    reveal_strlit("b");
    reveal_strlit("c");
    reveal_strlit("d");
    reveal_strlit("e");
    reveal_strlit("f");
    reveal_strlit("g");
    reveal_strlit("h");
    reveal_strlit("i");
    reveal_strlit("j");
    reveal_strlit("k");
    reveal_strlit("l");
    reveal_strlit("m");
    reveal_strlit("n");
    reveal_strlit("o");
    reveal_strlit("p");
    reveal_strlit("q");
    reveal_strlit("r");
    reveal_strlit("s");
    reveal_strlit("t");
    reveal_strlit("u");
    reveal_strlit("v");
    reveal_strlit("w");
    reveal_strlit("x");
    reveal_strlit("y");
    reveal_strlit("z");
    reveal_strlit("{");
    reveal_strlit("|");
    reveal_strlit("}");
    reveal_strlit("~");
    chars::lemma_ascii_valid();
    lemma_distinct_by_first(views(ASCII@), chars::CHARSET_ASCII@);
}

/// The ten decimal digits are a set to sample from: at least two, and no
/// two of them equal.
pub proof fn lemma_decimal_digit_valid()
    ensures
        charset_fault(views(DECIMAL_DIGIT@)) is None,
{
    reveal_strlit("0");
    reveal_strlit("1");
    reveal_strlit("2");
    reveal_strlit("3");
    reveal_strlit("4");
    reveal_strlit("5");
    reveal_strlit("6");
    reveal_strlit("7");
    reveal_strlit("8");
    reveal_strlit("9");
    chars::lemma_decimal_digit_valid();
    lemma_distinct_by_first(views(DECIMAL_DIGIT@), chars::CHARSET_DECIMAL_DIGIT@);
}

/// The twenty-six small letters are a set to sample from: at least two, and no
/// two of them equal.
pub proof fn lemma_lowercase_alphabetic_valid()
    ensures
        charset_fault(views(LOWERCASE_ALPHABETIC@)) is None,
{
    reveal_strlit("a");
    reveal_strlit("b");
    reveal_strlit("c");
    reveal_strlit("d");
    reveal_strlit("e");
    reveal_strlit("f");
    reveal_strlit("g");
    reveal_strlit("h");
    reveal_strlit("i");
    reveal_strlit("j");
    reveal_strlit("k");
    reveal_strlit("l");
    reveal_strlit("m");
    reveal_strlit("n");
    reveal_strlit("o");
    reveal_strlit("p");
    reveal_strlit("q");
    reveal_strlit("r");
    reveal_strlit("s");
    reveal_strlit("t");
    reveal_strlit("u");
    reveal_strlit("v");
    reveal_strlit("w");
    reveal_strlit("x");
    reveal_strlit("y");
    reveal_strlit("z");
    chars::lemma_lowercase_alphabetic_valid();
    lemma_distinct_by_first(views(LOWERCASE_ALPHABETIC@), chars::CHARSET_LOWERCASE_ALPHABETIC@);
}

/// How many characters stand at the head of `text` before its first space.
pub open spec fn word_length(text: Seq<char>) -> nat
    decreases text.len(),
{
    if text.len() == 0 || text[0] == ' ' {
        0
    } else {
        1 + word_length(text.drop_first())
    }
}

/// The words of `text`: its longest runs of characters other than the
/// space, from left to right.
pub open spec fn words_of(text: Seq<char>) -> Seq<Seq<char>>
    decreases text.len(),
    via words_of_terminates
{
    if text.len() == 0 {
        Seq::empty()
    } else if text[0] == ' ' {
        words_of(text.drop_first())
    } else {
        seq![text.take(word_length(text) as int)] + words_of(text.skip(word_length(text) as int))
    }
}

/// The first word is no longer than the text.
pub proof fn lemma_word_length_bound(text: Seq<char>)
    ensures
        word_length(text) <= text.len(),
    decreases text.len(),
{
    if text.len() > 0 && text[0] != ' ' {
        lemma_word_length_bound(text.drop_first());
    }
}

#[via_fn]
proof fn words_of_terminates(text: Seq<char>) {
    lemma_word_length_bound(text);
}

/// A run of `n` characters without a space, which ends the text or is
/// followed by a space, is the first word.
proof fn lemma_word_length(text: Seq<char>, n: nat)
    requires
        n <= text.len(),
        forall|k: int| 0 <= k < n ==> text[k] != ' ',
        n == text.len() || text[n as int] == ' ',
    ensures
        word_length(text) == n,
    decreases n,
{
    if n > 0 {
        lemma_word_length(text.drop_first(), (n - 1) as nat);
    }
}

/// Splits `text` into its words.
pub fn split_words<'a>(text: &'a str) -> (words: Vec<&'a str>)
    ensures
        views(words@) == words_of(text@),
{
    let length = text.unicode_len();
    let mut words: Vec<&'a str> = Vec::new();
    let mut i: usize = 0;
    assert(text@.skip(0) =~= text@);
    assert(views(words@) + words_of(text@.skip(0)) =~= words_of(text@));
    while i < length
        invariant
            i <= length,
            length == text@.len(),
            views(words@) + words_of(text@.skip(i as int)) == words_of(text@),
        decreases length - i,
    {
        let ghost rest = text@.skip(i as int);
        if text.get_char(i) == ' ' {
            assert(rest.drop_first() =~= text@.skip(i + 1));
            i = i + 1;
        } else {
            let start = i;
            let mut end: usize = i + 1;
            while end < length && text.get_char(end) != ' '
                invariant
                    start < end <= length,
                    length == text@.len(),
                    forall|k: int| start <= k < end ==> text@[k] != ' ',
                decreases length - end,
            {
                end = end + 1;
            }
            let word = text.substring_char(start, end);
            proof {
                lemma_word_length(rest, (end - start) as nat);
                assert(rest.take(end - start) =~= word@);
                assert(rest.skip(end - start) =~= text@.skip(end as int));
                assert(views(words@.push(word)) =~= views(words@) + seq![word@]);
            }
            words.push(word);
            i = end;
        }
    }
    assert(views(words@) + words_of(text@.skip(i as int)) =~= views(words@));
    words
}

/// The words of `WORD_TEXT`.
pub fn words() -> (words: Vec<&'static str>)
    ensures
        views(words@) == words_of(WORD_TEXT@),
{
    split_words(WORD_TEXT)
}

} // verus!
