//! The command line: which options there are, and what a list of arguments
//! asks for.

use vstd::prelude::*;
use vstd::string::*;
use crate::charsets;
use crate::decimal::{decimal, decimal_digits, decimal_value, parse_u32};
use crate::drawing::charset_fault;
use crate::error::PasswordError;
use crate::getopts_model::{
    add_flag, add_value, all_named, describe_failure, failure_parts, failure_text, first_value,
    free_arguments,
    free_count, is_present, names_of, new_options, occurrences, option_groups, parse, parsed,
    texts, usage_of, usage_text, Group, Occurrence,
};
use crate::password::{password_outcome, random_password, views};

verus! {

/// The number of characters in a password of characters.
pub const PASSWORD_LENGTH: usize = 64;

/// The number of words in a password of words.
pub const PASSWORD_WORD_COUNT: usize = 10;

/// The candidate sets that the command line offers.
#[derive(Clone, Copy, PartialEq, Eq, Debug, Structural)]
pub enum CommandLineCharset {
    /// Hexadecimal digits, with capital letters.
    Hex,
    /// Printable ASCII characters that are not whitespace.
    Ascii,
    /// Letters and decimal digits.
    Alpha,
    /// Decimal digits.
    Digit,
    /// Small letters.
    Lower,
    /// Words of the word list.
    Words,
}

/// What a list of arguments asks for.
#[derive(PartialEq, Debug)]
pub enum OptParseResult {
    /// The usage text.
    Help,
    /// So many passwords from this candidate set.
    Generate(CommandLineCharset, u32),
    /// Nothing that can be done; the text says why.
    Error(String),
}

/// An `OptParseResult` with its text as a sequence of characters.
pub ghost enum Request {
    Help,
    Generate(CommandLineCharset, u32),
    Error(Seq<char>),
}

impl View for OptParseResult {
    type V = Request;

    open spec fn view(&self) -> Request {
        match *self {
            OptParseResult::Help => Request::Help,
            OptParseResult::Generate(charset, count) => Request::Generate(charset, count),
            OptParseResult::Error(text) => Request::Error(text@),
        }
    }
}

/// What was found on a command line, option by option.
pub struct Selection {
    /// How many arguments belong to no option.
    pub free: usize,
    /// Whether help was asked for.
    pub help: bool,
    /// The argument of the password count, if it was given.
    pub count: Option<String>,
    /// Whether hexadecimal digits were asked for.
    pub hex: bool,
    /// Whether printable ASCII characters were asked for.
    pub ascii: bool,
    /// Whether letters and digits were asked for.
    pub alpha: bool,
    /// Whether decimal digits were asked for.
    pub digit: bool,
    /// Whether small letters were asked for.
    pub lower: bool,
    /// Whether words were asked for.
    pub words: bool,
}

/// A `Selection` with its text as a sequence of characters.
pub ghost struct Found {
    pub free: nat,
    pub help: bool,
    pub count: Option<Seq<char>>,
    pub hex: bool,
    pub ascii: bool,
    pub alpha: bool,
    pub digit: bool,
    pub lower: bool,
    pub words: bool,
}

impl View for Selection {
    type V = Found;

    open spec fn view(&self) -> Found {
        Found {
            free: self.free as nat,
            help: self.help,
            count: match self.count {
                Some(text) => Some(text@),
                None => None,
            },
            hex: self.hex,
            ascii: self.ascii,
            alpha: self.alpha,
            digit: self.digit,
            lower: self.lower,
            words: self.words,
        }
    }
}

/// `charset` if its flag was given, and nothing otherwise.
pub open spec fn if_given(flag: bool, charset: CommandLineCharset) -> Seq<CommandLineCharset> {
    if flag {
        seq![charset]
    } else {
        Seq::empty()
    }
}

/// The candidate sets whose flags were given, in the order of the usage
/// text.
pub open spec fn requested(found: Found) -> Seq<CommandLineCharset> {
    if_given(found.hex, CommandLineCharset::Hex) + if_given(found.ascii, CommandLineCharset::Ascii)
        + if_given(found.alpha, CommandLineCharset::Alpha) + if_given(
        found.digit,
        CommandLineCharset::Digit,
    ) + if_given(found.lower, CommandLineCharset::Lower) + if_given(
        found.words,
        CommandLineCharset::Words,
    )
}

/// The number of passwords asked for: one where no count was given, and no
/// number where the count's argument denotes none.
pub open spec fn requested_count(count: Option<Seq<char>>) -> Option<u32> {
    match count {
        Some(text) => decimal_value(text),
        None => Some(1u32),
    }
}

/// What is to be done for what was found on the command line. Stray
/// arguments are an error; else help wins; else the count must be a number
/// and exactly one candidate set must be chosen.
pub open spec fn decision(found: Found) -> Request {
    if found.free > 0 {
        Request::Error("There are unnecessary command-line arguments."@)
    } else if found.help {
        Request::Help
    } else {
        match requested_count(found.count) {
            None => Request::Error("The password count is not a valid number."@),
            Some(count) => if requested(found).len() > 1 {
                Request::Error("Only one kind of password can be generated at a time."@)
            } else if requested(found).len() == 0 {
                Request::Error("Please specify which character set to generate the password from."@)
            } else {
                Request::Generate(requested(found)[0], count)
            },
        }
    }
}

/// Decides what is to be done for what was found on the command line.
pub fn decide(selection: &Selection) -> (request: OptParseResult)
    ensures
        request@ == decision(selection@),
{
    if selection.free > 0 {
        return OptParseResult::Error("There are unnecessary command-line arguments.".to_owned());
    }
    if selection.help {
        return OptParseResult::Help;
    }
    let parsed_count = match &selection.count {
        Some(text) => parse_u32(text.as_str()),
        None => Some(1u32),
    };
    let count = match parsed_count {
        Some(count) => count,
        None => {
            return OptParseResult::Error("The password count is not a valid number.".to_owned());
        },
    };
    let mut chosen: Vec<CommandLineCharset> = Vec::new();
    if selection.hex {
        chosen.push(CommandLineCharset::Hex);
    }
    if selection.ascii {
        chosen.push(CommandLineCharset::Ascii);
    }
    if selection.alpha {
        chosen.push(CommandLineCharset::Alpha);
    }
    if selection.digit {
        chosen.push(CommandLineCharset::Digit);
    }
    if selection.lower {
        chosen.push(CommandLineCharset::Lower);
    }
    if selection.words {
        chosen.push(CommandLineCharset::Words);
    }
    assert(chosen@ =~= requested(selection@));
    if chosen.len() > 1 {
        OptParseResult::Error("Only one kind of password can be generated at a time.".to_owned())
    } else if chosen.len() == 0 {
        OptParseResult::Error(
            "Please specify which character set to generate the password from.".to_owned(),
        )
    } else {
        OptParseResult::Generate(chosen[0], count)
    }
}

/// A flag: an option that takes no argument, may be given at most once and
/// may be absent.
pub open spec fn flag(short: Seq<char>, long: Seq<char>, description: Seq<char>) -> Group {
    Group {
        short,
        long,
        description,
        hint: Seq::empty(),
        takes_argument: false,
        occurrence: Occurrence::Optional,
    }
}

/// The options of the command line, in the order of the usage text: one
/// flag for each candidate set, the flag for help, and the password count,
/// which takes one argument. Each may be given at most once and may be
/// absent.
pub open spec fn command_line_groups() -> Seq<Group> {
    seq![
        flag("x"@, "hex"@, decimal_digits(PASSWORD_LENGTH as nat) + " hexadecimal characters"@),
        flag(
            "a"@,
            "ascii"@,
            decimal_digits(PASSWORD_LENGTH as nat) + " non-whitespace printable ASCII characters"@,
        ),
        flag("n"@, "alpha"@, decimal_digits(PASSWORD_LENGTH as nat) + " alphanumeric characters"@),
        flag("d"@, "digit"@, decimal_digits(PASSWORD_LENGTH as nat) + " decimal digits"@),
        flag(
            "l"@,
            "lower"@,
            decimal_digits(PASSWORD_LENGTH as nat) + " lowercase alphabetic characters"@,
        ),
        flag(
            "w"@,
            "words"@,
            decimal_digits(PASSWORD_WORD_COUNT as nat) + " random words from a list of "@
                + decimal_digits(charsets::words_of(charsets::WORD_TEXT@).len()),
        ),
        flag("h"@, "help"@, "show this help menu"@),
        Group {
            short: "p"@,
            long: "password-count"@,
            description: "number of passwords to generate"@,
            hint: "N"@,
            takes_argument: true,
            occurrence: Occurrence::Optional,
        },
    ]
}

/// The options that this program's command line is parsed with.
pub struct CommandLine {
    options: getopts::Options,
}

impl View for CommandLine {
    type V = getopts::Options;

    closed spec fn view(&self) -> getopts::Options {
        self.options
    }
}

impl CommandLine {
    #[verifier::type_invariant]
    spec fn well_formed(self) -> bool {
        option_groups(self.options) == command_line_groups()
    }
}

fn described(count: usize, what: &str) -> (text: String)
    ensures
        text@ == decimal_digits(count as nat) + what@,
{
    let mut text = decimal(count);
    text.append(what);
    text
}

/// Builds the options of the command line.
pub fn prepare_opts() -> (opts: CommandLine)
    ensures
        option_groups(opts@) == command_line_groups(),
{
    let mut options = new_options();
    proof {
        reveal_strlit("x");
        reveal_strlit("a");
        reveal_strlit("n");
        reveal_strlit("d");
        reveal_strlit("l");
        reveal_strlit("w");
        reveal_strlit("h");
        reveal_strlit("p");
        reveal_strlit("hex");
        reveal_strlit("ascii");
        reveal_strlit("alpha");
        reveal_strlit("digit");
        reveal_strlit("lower");
        reveal_strlit("words");
        reveal_strlit("help");
        reveal_strlit("password-count");
    }
    add_flag(&mut options, "x", "hex", described(PASSWORD_LENGTH, " hexadecimal characters").as_str());
    add_flag(
        &mut options,
        "a",
        "ascii",
        described(PASSWORD_LENGTH, " non-whitespace printable ASCII characters").as_str(),
    );
    add_flag(&mut options, "n", "alpha", described(PASSWORD_LENGTH, " alphanumeric characters").as_str());
    add_flag(&mut options, "d", "digit", described(PASSWORD_LENGTH, " decimal digits").as_str());
    add_flag(
        &mut options,
        "l",
        "lower",
        described(PASSWORD_LENGTH, " lowercase alphabetic characters").as_str(),
    );
    let mut words = described(PASSWORD_WORD_COUNT, " random words from a list of ");
    words.append(decimal(charsets::words().len()).as_str());
    add_flag(&mut options, "w", "words", words.as_str());
    add_flag(&mut options, "h", "help", "show this help menu");
    add_value(&mut options, "p", "password-count", "number of passwords to generate", "N");
    assert(option_groups(options) =~= command_line_groups());
    CommandLine { options }
}

/// Whether the option `name` occurred.
pub open spec fn occurred(matches: getopts::Matches, name: Seq<char>) -> bool {
    occurrences(matches)[name].len() > 0
}

/// The argument that the option `name` had where it first occurred.
pub open spec fn first_argument(matches: getopts::Matches, name: Seq<char>) -> Option<Seq<char>> {
    if occurrences(matches)[name].len() > 0 {
        occurrences(matches)[name][0]
    } else {
        None
    }
}

/// What parsed arguments hold for the options of the command line.
pub open spec fn selection_of(matches: getopts::Matches) -> Found {
    Found {
        free: free_arguments(matches).len(),
        help: occurred(matches, "h"@),
        count: first_argument(matches, "p"@),
        hex: occurred(matches, "x"@),
        ascii: occurred(matches, "a"@),
        alpha: occurred(matches, "n"@),
        digit: occurred(matches, "d"@),
        lower: occurred(matches, "l"@),
        words: occurred(matches, "w"@),
    }
}

/// The short names of the command line's options are names of its groups.
proof fn lemma_short_names_known()
    ensures
        all_named(command_line_groups()),
        names_of(command_line_groups()).contains("x"@),
        names_of(command_line_groups()).contains("a"@),
        names_of(command_line_groups()).contains("n"@),
        names_of(command_line_groups()).contains("d"@),
        names_of(command_line_groups()).contains("l"@),
        names_of(command_line_groups()).contains("w"@),
        names_of(command_line_groups()).contains("h"@),
        names_of(command_line_groups()).contains("p"@),
{
    reveal_strlit("x");
    reveal_strlit("a");
    reveal_strlit("n");
    reveal_strlit("d");
    reveal_strlit("l");
    reveal_strlit("w");
    reveal_strlit("h");
    reveal_strlit("p");
    let groups = command_line_groups();
    assert(groups[0].short == "x"@);
    assert(groups[1].short == "a"@);
    assert(groups[2].short == "n"@);
    assert(groups[3].short == "d"@);
    assert(groups[4].short == "l"@);
    assert(groups[5].short == "w"@);
    assert(groups[6].short == "h"@);
    assert(groups[7].short == "p"@);
}

fn read_selection(matches: &getopts::Matches) -> (selection: Selection)
    requires
        occurrences(*matches).dom() == names_of(command_line_groups()),
    ensures
        selection@ == selection_of(*matches),
{
    proof {
        lemma_short_names_known();
    }
    Selection {
        free: free_count(matches),
        help: is_present(matches, "h"),
        count: first_value(matches, "p"),
        hex: is_present(matches, "x"),
        ascii: is_present(matches, "a"),
        alpha: is_present(matches, "n"),
        digit: is_present(matches, "d"),
        lower: is_present(matches, "l"),
        words: is_present(matches, "w"),
    }
}

/// What `arguments` ask for once the parser has gone through them: its
/// failure as an error, and otherwise the decision on what it found.
pub open spec fn interpretation(outcome: Result<getopts::Matches, getopts::Fail>) -> Request {
    match outcome {
        Ok(matches) => decision(selection_of(matches)),
        Err(failure) => Request::Error(failure_text(failure_parts(failure))),
    }
}

/// Works out what the arguments of the command line ask for.
pub fn parse_args(opts: &CommandLine, args: &[String]) -> (request: OptParseResult)
    ensures
        request@ == interpretation(parsed(opts@, texts(args@))),
{
    proof {
        use_type_invariant(opts);
        lemma_short_names_known();
    }
    match parse(&opts.options, args) {
        Ok(matches) => {
            let selection = read_selection(&matches);
            decide(&selection)
        },
        Err(failure) => OptParseResult::Error(describe_failure(&failure)),
    }
}

/// The line that opens the usage text.
pub open spec fn usage_brief(program: Seq<char>) -> Seq<char> {
    "Usage: "@ + program + " [options]"@
}

/// The line that reports an error above the usage text, if there is one.
pub open spec fn error_line(error: Option<&str>) -> Seq<char> {
    match error {
        Some(text) => "Error: "@ + text@ + "\n"@,
        None => Seq::empty(),
    }
}

/// The text that tells a user how to call `program`, below the error that
/// made it necessary, if there is one.
pub fn usage(program: &str, opts: &CommandLine, error: Option<&str>) -> (text: String)
    ensures
        text@ == error_line(error) + usage_text(opts@, usage_brief(program@)),
{
    let mut text = String::new();
    match error {
        Some(message) => {
            text.append("Error: ");
            text.append(message);
            text.append("\n");
        },
        None => {},
    }
    let mut brief = "Usage: ".to_owned();
    brief.append(program);
    brief.append(" [options]");
    text.append(usage_of(&opts.options, brief.as_str()).as_str());
    assert(text@ =~= error_line(error) + usage_text(opts@, usage_brief(program@)));
    text
}

/// The elements that a candidate set of the command line stands for.
pub open spec fn elements_of(charset: CommandLineCharset) -> Seq<Seq<char>> {
    match charset {
        CommandLineCharset::Hex => views(charsets::UPPERCASE_HEX@),
        CommandLineCharset::Ascii => views(charsets::ASCII@),
        CommandLineCharset::Alpha => views(charsets::ALPHANUMERIC@),
        CommandLineCharset::Digit => views(charsets::DECIMAL_DIGIT@),
        CommandLineCharset::Lower => views(charsets::LOWERCASE_ALPHABETIC@),
        CommandLineCharset::Words => charsets::words_of(charsets::WORD_TEXT@),
    }
}

/// How many elements a password from `charset` has.
pub open spec fn element_count(charset: CommandLineCharset) -> nat {
    match charset {
        CommandLineCharset::Words => PASSWORD_WORD_COUNT as nat,
        _ => PASSWORD_LENGTH as nat,
    }
}

/// What stands between the elements of a password from `charset`.
pub open spec fn separator_of(charset: CommandLineCharset) -> Seq<char> {
    match charset {
        CommandLineCharset::Words => "."@,
        _ => ""@,
    }
}

/// Each candidate set of characters that the command line offers is a set
/// to sample from: it is rejected with no error.
pub proof fn lemma_character_sets_valid(charset: CommandLineCharset)
    requires
        charset != CommandLineCharset::Words,
    ensures
        charset_fault(elements_of(charset)) is None,
{
    match charset {
        CommandLineCharset::Hex => charsets::lemma_uppercase_hex_valid(),
        CommandLineCharset::Ascii => charsets::lemma_ascii_valid(),
        CommandLineCharset::Alpha => charsets::lemma_alphanumeric_valid(),
        CommandLineCharset::Digit => charsets::lemma_decimal_digit_valid(),
        CommandLineCharset::Lower => charsets::lemma_lowercase_alphabetic_valid(),
        CommandLineCharset::Words => {},
    }
}

/// Generates one password of the kind that `charset` stands for:
/// `PASSWORD_WORD_COUNT` words with dots between them, or
/// `PASSWORD_LENGTH` characters. For a kind of characters the only error
/// is that of the random source; for words it is so where the word list is
/// a set to sample from, which is tested when the password is made.
pub fn password_for(charset: CommandLineCharset) -> (outcome: Result<String, PasswordError>)
    ensures
        password_outcome(outcome, elements_of(charset), element_count(charset), separator_of(charset)),
        charset != CommandLineCharset::Words && outcome is Err ==> outcome == Err::<
            String,
            PasswordError,
        >(PasswordError::RandomSourceUnavailable),
        charset_fault(elements_of(charset)) is None && outcome is Err ==> outcome == Err::<
            String,
            PasswordError,
        >(PasswordError::RandomSourceUnavailable),
{
    proof {
        if charset != CommandLineCharset::Words {
            lemma_character_sets_valid(charset);
        }
    }
    match charset {
        CommandLineCharset::Hex => random_password(&charsets::UPPERCASE_HEX, PASSWORD_LENGTH, ""),
        CommandLineCharset::Ascii => random_password(&charsets::ASCII, PASSWORD_LENGTH, ""),
        CommandLineCharset::Alpha => random_password(&charsets::ALPHANUMERIC, PASSWORD_LENGTH, ""),
        CommandLineCharset::Digit => random_password(&charsets::DECIMAL_DIGIT, PASSWORD_LENGTH, ""),
        CommandLineCharset::Lower => random_password(
            &charsets::LOWERCASE_ALPHABETIC,
            PASSWORD_LENGTH,
            "",
        ),
        CommandLineCharset::Words => random_password(
            charsets::words().as_slice(),
            PASSWORD_WORD_COUNT,
            ".",
        ),
    }
}

} // verus!
