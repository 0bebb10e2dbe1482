//! The command-line parser of the `getopts` crate, as far as this crate
//! relies on it. Nothing in this file is proved: each item states what the
//! parser's source shows.

use vstd::prelude::*;
use vstd::string::*;

verus! {

#[verifier::external_type_specification]
#[verifier::external_body]
pub struct ExOptions(getopts::Options);

#[verifier::external_type_specification]
#[verifier::external_body]
pub struct ExMatches(getopts::Matches);

#[verifier::external_type_specification]
#[verifier::external_body]
pub struct ExFail(getopts::Fail);

/// How often an option may be given, as `getopts::Occur` has it.
pub ghost enum Occurrence {
    /// Exactly once: the option must be given.
    Required,
    /// At most once: the option may be absent.
    Optional,
    /// Any number of times.
    Repeatable,
}

/// One option as `getopts::Options` holds it: its two names, either of
/// which may be empty, its description, the hint that stands for its
/// argument in the usage text, whether it takes an argument, and how often
/// it may be given.
pub ghost struct Group {
    pub short: Seq<char>,
    pub long: Seq<char>,
    pub description: Seq<char>,
    pub hint: Seq<char>,
    pub takes_argument: bool,
    pub occurrence: Occurrence,
}

/// The option groups that `options` holds, in the order in which they were
/// added.
pub uninterp spec fn option_groups(options: getopts::Options) -> Seq<Group>;

/// What `getopts::Options::parse` returns for `arguments`.
pub uninterp spec fn parsed(options: getopts::Options, arguments: Seq<Seq<char>>) -> Result<
    getopts::Matches,
    getopts::Fail,
>;

/// For each option name that `matches` knows, the arguments that the
/// option was given with, one entry for each time it occurred: `None`
/// where it occurred without an argument.
pub uninterp spec fn occurrences(matches: getopts::Matches) -> Map<Seq<char>, Seq<Option<Seq<char>>>>;

/// The arguments that belong to no option.
pub uninterp spec fn free_arguments(matches: getopts::Matches) -> Seq<Seq<char>>;

/// The kinds of failure that the parser reports, as `getopts::Fail` has
/// them.
pub ghost enum FailureKind {
    /// An option that takes an argument was given without one.
    ArgumentMissing,
    /// An option was given that the options do not hold.
    UnrecognizedOption,
    /// An option that must be given was not.
    OptionMissing,
    /// An option that may be given once was given more often.
    OptionDuplicated,
    /// An option that takes no argument was given one.
    UnexpectedArgument,
}

/// A failure of the parser: its kind, and the name of the option that it
/// is about.
pub ghost struct Failure {
    pub kind: FailureKind,
    pub option: Seq<char>,
}

/// What `failure` holds: which of the variants of `getopts::Fail` it is,
/// and the name in it.
pub uninterp spec fn failure_parts(failure: getopts::Fail) -> Failure;

/// The text that a failure is displayed as: one fixed form for each kind,
/// around the name of the option.
pub open spec fn failure_text(failure: Failure) -> Seq<char> {
    match failure.kind {
        FailureKind::ArgumentMissing => "Argument to option '"@ + failure.option + "' missing"@,
        FailureKind::UnrecognizedOption => "Unrecognized option: '"@ + failure.option + "'"@,
        FailureKind::OptionMissing => "Required option '"@ + failure.option + "' missing"@,
        FailureKind::OptionDuplicated => "Option '"@ + failure.option + "' given more than once"@,
        FailureKind::UnexpectedArgument => "Option '"@ + failure.option
            + "' does not take an argument"@,
    }
}

/// What `getopts::Options::usage` returns for `brief`.
pub uninterp spec fn usage_text(options: getopts::Options, brief: Seq<char>) -> Seq<char>;

/// The texts of a sequence of strings.
pub open spec fn texts(arguments: Seq<String>) -> Seq<Seq<char>> {
    Seq::new(arguments.len(), |i: int| arguments[i]@)
}

/// The names under which the options of `groups` can be asked for.
pub open spec fn names_of(groups: Seq<Group>) -> Set<Seq<char>> {
    Set::new(
        |name: Seq<char>|
            name.len() > 0 && exists|i: int|
                0 <= i < groups.len() && ((#[trigger] groups[i]).short == name || groups[i].long == name),
    )
}

/// Whether each group has a short or a long name.
pub open spec fn all_named(groups: Seq<Group>) -> bool {
    forall|i: int| 0 <= i < groups.len() ==> (#[trigger] groups[i]).short.len() + groups[i].long.len() > 0
}

/// Calls `getopts::Options::new`, which holds no option group.
#[verifier::external_body]
pub(crate) fn new_options() -> (options: getopts::Options)
    ensures
        option_groups(options) == Seq::<Group>::empty(),
{
    getopts::Options::new()
}

/// Calls `getopts::Options::optflag`, which appends a group for an option
/// without an argument that may be given at most once and may be absent.
/// The names are limited to what the parser accepts
/// without a panic: one ASCII character, and at least two characters.
#[verifier::external_body]
pub(crate) fn add_flag(options: &mut getopts::Options, short: &str, long: &str, description: &str)
    requires
        short@.len() == 1,
        is_ascii(short),
        long@.len() >= 2,
    ensures
        option_groups(*final(options)) == option_groups(*old(options)).push(
            (Group {
                short: short@,
                long: long@,
                description: description@,
                hint: Seq::empty(),
                takes_argument: false,
                occurrence: Occurrence::Optional,
            }),
        ),
{
    options.optflag(short, long, description);
}

/// Calls `getopts::Options::optopt`, which appends a group for an option
/// with an argument that may be given at most once and may be absent. The
/// names are limited as for a flag.
#[verifier::external_body]
pub(crate) fn add_value(
    options: &mut getopts::Options,
    short: &str,
    long: &str,
    description: &str,
    hint: &str,
)
    requires
        short@.len() == 1,
        is_ascii(short),
        long@.len() >= 2,
    ensures
        option_groups(*final(options)) == option_groups(*old(options)).push(
            (Group {
                short: short@,
                long: long@,
                description: description@,
                hint: hint@,
                takes_argument: true,
                occurrence: Occurrence::Optional,
            }),
        ),
{
    options.optopt(short, long, description, hint);
}

/// Calls `getopts::Options::parse`. A group without any name makes the
/// parser panic, so such options are left out. On success the matches know
/// exactly the names of the options.
#[verifier::external_body]
pub(crate) fn parse(options: &getopts::Options, arguments: &[String]) -> (outcome: Result<
    getopts::Matches,
    getopts::Fail,
>)
    requires
        all_named(option_groups(*options)),
    ensures
        outcome == parsed(*options, texts(arguments@)),
        outcome matches Ok(matches) ==> occurrences(matches).dom() == names_of(option_groups(*options)),
{
    options.parse(arguments)
}

/// Calls `getopts::Matches::opt_present`, which panics on a name that the
/// matches do not know, and otherwise says whether the option occurred.
#[verifier::external_body]
pub(crate) fn is_present(matches: &getopts::Matches, name: &str) -> (present: bool)
    requires
        occurrences(*matches).contains_key(name@),
    ensures
        present == (occurrences(*matches)[name@].len() > 0),
{
    matches.opt_present(name)
}

/// Calls `getopts::Matches::opt_str`, which panics on a name that the
/// matches do not know, and otherwise returns the argument of the option's
/// first occurrence, if it occurred and had one.
#[verifier::external_body]
pub(crate) fn first_value(matches: &getopts::Matches, name: &str) -> (value: Option<String>)
    requires
        occurrences(*matches).contains_key(name@),
    ensures
        value matches Some(text) ==> occurrences(*matches)[name@].len() > 0 && occurrences(
            *matches,
        )[name@][0] == Some(text@),
        value is None ==> occurrences(*matches)[name@].len() == 0 || occurrences(
            *matches,
        )[name@][0] is None,
{
    matches.opt_str(name)
}

/// Reads the length of the field `free` of `getopts::Matches`.
#[verifier::external_body]
pub(crate) fn free_count(matches: &getopts::Matches) -> (count: usize)
    ensures
        count == free_arguments(*matches).len(),
{
    matches.free.len()
}

/// Calls `to_string` on a `getopts::Fail`, which gives the text that it
/// displays: for each variant its own words around the name that the
/// variant holds.
#[verifier::external_body]
pub(crate) fn describe_failure(failure: &getopts::Fail) -> (text: String)
    ensures
        text@ == failure_text(failure_parts(*failure)),
{
    failure.to_string()
}

/// Calls `getopts::Options::usage`.
#[verifier::external_body]
pub(crate) fn usage_of(options: &getopts::Options, brief: &str) -> (text: String)
    ensures
        text@ == usage_text(*options, brief@),
{
    options.usage(brief)
}

} // verus!
