use vstd::prelude::*;
use crate::paths::{file_name, file_name_of};
use crate::season::{parse_within, parsed_within};
use crate::target::{default_settings, Arguments, ArgumentsView};
use crate::text::{
    chars_of, found_at, occurs_at, quote, quoted, remove_all, replace_all, replaced, same_text,
    string_of, tool_prefix, without,
};
use crate::tokenizer::{tokenize_template, tokenized};

verus! {

/// Why the arguments of the command line could not be taken.
#[derive(Clone, Debug, PartialEq, Eq)]
pub enum ParseError {
    /// The option for the first episode number has no value.
    NoEpisodeIndex,
    /// The option for the season number has no value.
    NoSeriesIndex,
    /// The option for the name of the series has no value.
    NoSeriesName,
    /// The option for the template has no value.
    NoTemplate,
    /// The option for the pad length has no value.
    NoPadLength,
    /// The value for the first episode number is no number that can be one.
    EpisodeIndexIsNaN(String),
    /// The value for the season number is no number that can be one.
    SeriesIndexIsNaN(String),
    /// The value for the pad length is no number that can be one.
    PadLengthIsNaN(String),
    /// The option is not known.
    InvalidArgument(String),
    /// A directory was given already.
    TooManyArguments(String),
    /// No directory was given, and the current directory is not known.
    NoCWD,
    /// No directory was given, and the current directory is not text.
    CWDNotValid,
}

/// A failure to take the arguments, as a mathematical value.
pub ghost enum ParseErrorView {
    NoEpisodeIndex,
    NoSeriesIndex,
    NoSeriesName,
    NoTemplate,
    NoPadLength,
    EpisodeIndexIsNaN(Seq<char>),
    SeriesIndexIsNaN(Seq<char>),
    PadLengthIsNaN(Seq<char>),
    InvalidArgument(Seq<char>),
    TooManyArguments(Seq<char>),
    NoCWD,
    CWDNotValid,
}

impl DeepView for ParseError {
    type V = ParseErrorView;

    open spec fn deep_view(&self) -> ParseErrorView {
        match self {
            ParseError::NoEpisodeIndex => ParseErrorView::NoEpisodeIndex,
            ParseError::NoSeriesIndex => ParseErrorView::NoSeriesIndex,
            ParseError::NoSeriesName => ParseErrorView::NoSeriesName,
            ParseError::NoTemplate => ParseErrorView::NoTemplate,
            ParseError::NoPadLength => ParseErrorView::NoPadLength,
            ParseError::EpisodeIndexIsNaN(value) => ParseErrorView::EpisodeIndexIsNaN(value@),
            ParseError::SeriesIndexIsNaN(value) => ParseErrorView::SeriesIndexIsNaN(value@),
            ParseError::PadLengthIsNaN(value) => ParseErrorView::PadLengthIsNaN(value@),
            ParseError::InvalidArgument(value) => ParseErrorView::InvalidArgument(value@),
            ParseError::TooManyArguments(value) => ParseErrorView::TooManyArguments(value@),
            ParseError::NoCWD => ParseErrorView::NoCWD,
            ParseError::CWDNotValid => ParseErrorView::CWDNotValid,
        }
    }
}

/// What is said of a failure to take the arguments, behind the name of the
/// program.
pub open spec fn parse_error_text(why: ParseErrorView) -> Seq<char> {
    match why {
        ParseErrorView::NoEpisodeIndex => "no value was set for the episode count."@,
        ParseErrorView::NoSeriesIndex => "no value was set for the season number."@,
        ParseErrorView::NoSeriesName => "no value was set for the series name."@,
        ParseErrorView::NoTemplate => "no value was set for the template."@,
        ParseErrorView::NoPadLength => "no value was set for the pad length."@,
        ParseErrorView::EpisodeIndexIsNaN(value) => "episode index, `"@ + value
            + "`, is not a number"@,
        ParseErrorView::SeriesIndexIsNaN(value) => "series index, `"@ + value
            + "`, is not a number"@,
        ParseErrorView::PadLengthIsNaN(value) => "pad length, `"@ + value + "`, is not a number"@,
        ParseErrorView::InvalidArgument(value) => "invalid argument: `"@ + value + "`"@,
        ParseErrorView::TooManyArguments(value) => "too many arguments: `"@ + value + "`"@,
        ParseErrorView::NoCWD => "unable to get current working directory"@,
        ParseErrorView::CWDNotValid => "current working directory is not valid UTF-8"@,
    }
}

impl ParseError {
    /// The message that tells the operator of the failure. It begins with the
    /// name of the program.
    pub fn message(&self) -> (text: String)
        ensures
            text@ == tool_prefix() + parse_error_text(self.deep_view()),
    {
        let mut text = String::new();
        text.append("tv-renamer: ");
        let ghost front = text@;
        match self {
            ParseError::NoEpisodeIndex => text.append("no value was set for the episode count."),
            ParseError::NoSeriesIndex => text.append("no value was set for the season number."),
            ParseError::NoSeriesName => text.append("no value was set for the series name."),
            ParseError::NoTemplate => text.append("no value was set for the template."),
            ParseError::NoPadLength => text.append("no value was set for the pad length."),
            ParseError::EpisodeIndexIsNaN(value) => {
                text.append("episode index, `");
                text.append(value.as_str());
                text.append("`, is not a number");
            },
            ParseError::SeriesIndexIsNaN(value) => {
                text.append("series index, `");
                text.append(value.as_str());
                text.append("`, is not a number");
            },
            ParseError::PadLengthIsNaN(value) => {
                text.append("pad length, `");
                text.append(value.as_str());
                text.append("`, is not a number");
            },
            ParseError::InvalidArgument(value) => {
                text.append("invalid argument: `");
                text.append(value.as_str());
                text.append("`");
            },
            ParseError::TooManyArguments(value) => {
                text.append("too many arguments: `");
                text.append(value.as_str());
                text.append("`");
            },
            ParseError::NoCWD => text.append("unable to get current working directory"),
            ParseError::CWDNotValid => text.append("current working directory is not valid UTF-8"),
        }
        assert(text@ == front + parse_error_text(self.deep_view()));
        text
    }
}

/// What the command line asks for.
#[derive(Clone, Debug, PartialEq, Eq)]
pub enum Parsed {
    /// The manual.
    Help,
    /// A run with these settings.
    Run(Arguments),
}

/// What the command line asks for, as a mathematical value.
pub ghost enum ParsedView {
    Help,
    Run(ArgumentsView),
}

impl DeepView for Parsed {
    type V = ParsedView;

    open spec fn deep_view(&self) -> ParsedView {
        match self {
            Parsed::Help => ParsedView::Help,
            Parsed::Run(arguments) => ParsedView::Run(arguments.deep_view()),
        }
    }
}

/// What is known of the current directory.
#[derive(Clone, Debug, PartialEq, Eq)]
pub enum WorkingDirectory {
    /// Its path.
    Known(String),
    /// Nothing: it could not be had.
    Unknown,
    /// That its path is not text.
    NotText,
}

/// What is known of the current directory, as a mathematical value.
pub ghost enum WorkingDirectoryView {
    Known(Seq<char>),
    Unknown,
    NotText,
}

impl DeepView for WorkingDirectory {
    type V = WorkingDirectoryView;

    open spec fn deep_view(&self) -> WorkingDirectoryView {
        match self {
            WorkingDirectory::Known(path) => WorkingDirectoryView::Known(path@),
            WorkingDirectory::Unknown => WorkingDirectoryView::Unknown,
            WorkingDirectory::NotText => WorkingDirectoryView::NotText,
        }
    }
}

/// Whether an argument is written as an option: with a dash at its front.
pub open spec fn is_option(argument: Seq<char>) -> bool {
    argument.len() > 0 && argument[0] == '-'
}

/// Whether an argument is the option with this short and this long name.
pub open spec fn names(argument: Seq<char>, short: Seq<char>, long: Seq<char>) -> bool {
    argument == short || argument == long
}

/// The name of the series: the name that was given, and where none was
/// given the name of the directory, if it has one.
pub open spec fn series_of(given: Seq<char>, directory: Seq<char>) -> Seq<char> {
    if given.len() == 0 {
        match file_name_of(directory) {
            Some(name) => name,
            None => given,
        }
    } else {
        given
    }
}

/// Whether a reply to the question whether a target may be overwritten says
/// yes: it does if it begins with the letter `y`, and says no else.
pub open spec fn says_yes(reply: Seq<char>) -> bool {
    reply.len() > 0 && reply[0] == 'y'
}

/// The settings once all arguments are read. Where no directory was given,
/// the current directory is taken; where no name was given for the series, the
/// name of the directory is taken, if it has one.
pub open spec fn completed(settings: ArgumentsView, current: WorkingDirectoryView) -> Result<
    ParsedView,
    ParseErrorView,
> {
    if settings.base_directory.len() == 0 && current is Unknown {
        Err(ParseErrorView::NoCWD)
    } else if settings.base_directory.len() == 0 && current is NotText {
        Err(ParseErrorView::CWDNotValid)
    } else {
        let directory = if settings.base_directory.len() == 0 {
            current->Known_0
        } else {
            settings.base_directory
        };
        Ok(
            ParsedView::Run(
                ArgumentsView {
                    base_directory: directory,
                    series_name: series_of(settings.series_name, directory),
                    ..settings
                },
            ),
        )
    }
}

/// What the arguments from position `at` on ask for, given the settings that
/// the arguments before them have made.
///
/// An argument with a dash at its front is an option. `-h` asks for the
/// manual and ends the reading. `-a`, `-d`, `-k`, `-l` and `-v` switch
/// something on. `-e`, `-n`, `-s`, `-t` and `-p` take the argument behind
/// them as their value; a name for the series is added to what was given
/// before. Any other argument is the directory, and there can be one only.
pub open spec fn parsed_from(
    arguments: Seq<Seq<char>>,
    at: int,
    settings: ArgumentsView,
    current: WorkingDirectoryView,
) -> Result<ParsedView, ParseErrorView>
    decreases arguments.len() - at,
{
    if at < 0 || at >= arguments.len() {
        completed(settings, current)
    } else {
        let argument = arguments[at];
        let valued = at + 1 < arguments.len();
        let value = arguments[at + 1];
        if !is_option(argument) {
            if settings.base_directory.len() == 0 {
                parsed_from(
                    arguments,
                    at + 1,
                    ArgumentsView { base_directory: argument, ..settings },
                    current,
                )
            } else {
                Err(ParseErrorView::TooManyArguments(argument))
            }
        } else if names(argument, "-h"@, "--help"@) {
            Ok(ParsedView::Help)
        } else if names(argument, "-a"@, "--automatic"@) {
            parsed_from(arguments, at + 1, ArgumentsView { automatic: true, ..settings }, current)
        } else if names(argument, "-d"@, "--dry-run"@) {
            parsed_from(arguments, at + 1, ArgumentsView { dry_run: true, ..settings }, current)
        } else if names(argument, "-l"@, "--log-changes"@) {
            parsed_from(arguments, at + 1, ArgumentsView { log_changes: true, ..settings }, current)
        } else if names(argument, "-v"@, "--verbose"@) {
            parsed_from(arguments, at + 1, ArgumentsView { verbose: true, ..settings }, current)
        } else if names(argument, "-k"@, "--skip-existing"@) {
            parsed_from(
                arguments,
                at + 1,
                ArgumentsView { skip_existing: true, ..settings },
                current,
            )
        } else if names(argument, "-e"@, "--episode-start"@) {
            if !valued {
                Err(ParseErrorView::NoEpisodeIndex)
            } else {
                match parsed_within(value, 0xffff) {
                    Some(number) => parsed_from(
                        arguments,
                        at + 2,
                        ArgumentsView { episode_index: number as u16, ..settings },
                        current,
                    ),
                    None => Err(ParseErrorView::EpisodeIndexIsNaN(value)),
                }
            }
        } else if names(argument, "-n"@, "--series-name"@) {
            if !valued {
                Err(ParseErrorView::NoSeriesName)
            } else {
                parsed_from(
                    arguments,
                    at + 2,
                    ArgumentsView { series_name: settings.series_name + value, ..settings },
                    current,
                )
            }
        } else if names(argument, "-s"@, "--season-number"@) {
            if !valued {
                Err(ParseErrorView::NoSeriesIndex)
            } else {
                match parsed_within(value, 0xff) {
                    Some(number) => parsed_from(
                        arguments,
                        at + 2,
                        ArgumentsView { season_index: number as u8, ..settings },
                        current,
                    ),
                    None => Err(ParseErrorView::SeriesIndexIsNaN(value)),
                }
            }
        } else if names(argument, "-t"@, "--template"@) {
            if !valued {
                Err(ParseErrorView::NoTemplate)
            } else {
                parsed_from(
                    arguments,
                    at + 2,
                    ArgumentsView { template: tokenized(value), ..settings },
                    current,
                )
            }
        } else if names(argument, "-p"@, "--pad-length"@) {
            if !valued {
                Err(ParseErrorView::NoPadLength)
            } else {
                match parsed_within(value, 0xff) {
                    Some(number) => parsed_from(
                        arguments,
                        at + 2,
                        ArgumentsView { pad_length: number as u8, ..settings },
                        current,
                    ),
                    None => Err(ParseErrorView::PadLengthIsNaN(value)),
                }
            }
        } else {
            Err(ParseErrorView::InvalidArgument(argument))
        }
    }
}

/// What the command line asks for.
pub open spec fn parsed(arguments: Seq<Seq<char>>, current: WorkingDirectoryView) -> Result<
    ParsedView,
    ParseErrorView,
> {
    parsed_from(arguments, 0, default_settings(), current)
}

/// Whether `found` is what `expected` names.
pub open spec fn is_parsed(
    found: Result<Parsed, ParseError>,
    expected: Result<ParsedView, ParseErrorView>,
) -> bool {
    match found {
        Ok(asked) => expected == Ok::<ParsedView, ParseErrorView>(asked.deep_view()),
        Err(why) => expected == Err::<ParsedView, ParseErrorView>(why.deep_view()),
    }
}

/// Tells whether an argument is the option with this short and this long
/// name.
fn is_named(argument: &Vec<char>, short: &str, long: &str) -> (named: bool)
    ensures
        named == names(argument@, short@, long@),
{
    same_text(argument, short) || same_text(argument, long)
}

/// Names the series: by the name that was given, and where none was given
/// by the name of the directory, if it has one.
pub fn series_name(given: &str, directory: &str) -> (name: String)
    ensures
        name@ == series_of(given@, directory@),
{
    if given.is_empty() {
        match file_name(directory) {
            Some(name) => name,
            None => given.to_owned(),
        }
    } else {
        given.to_owned()
    }
}

/// Tells whether a reply to the question whether a target may be overwritten
/// says yes.
pub fn is_yes(reply: &str) -> (yes: bool)
    ensures
        yes == says_yes(reply@),
{
    reply.unicode_len() > 0 && reply.get_char(0) == 'y'
}

/// Completes the settings once all arguments are read.
fn complete(settings: Arguments, current: &WorkingDirectory) -> (found: Result<Parsed, ParseError>)
    ensures
        is_parsed(found, completed(settings.deep_view(), current.deep_view())),
{
    let mut settings = settings;
    if settings.base_directory.as_str().is_empty() {
        match current {
            WorkingDirectory::Known(path) => {
                settings.base_directory = path.clone();
            },
            WorkingDirectory::Unknown => {
                return Err(ParseError::NoCWD);
            },
            WorkingDirectory::NotText => {
                return Err(ParseError::CWDNotValid);
            },
        }
    }
    settings.series_name = series_name(
        settings.series_name.as_str(),
        settings.base_directory.as_str(),
    );
    Ok(Parsed::Run(settings))
}

/// Reads the arguments of the command line, the name of the program
/// excluded. `current` is what is known of the current directory, which is
/// taken where the arguments name no directory.
pub fn parse_arguments(args: &Vec<String>, current: &WorkingDirectory) -> (found: Result<
    Parsed,
    ParseError,
>)
    ensures
        is_parsed(found, parsed(args.deep_view(), current.deep_view())),
{
    let ghost all = args.deep_view();
    let ghost known = current.deep_view();
    let mut settings = Arguments::default();
    let mut at: usize = 0;
    while at < args.len()
        invariant
            all == args.deep_view(),
            known == current.deep_view(),
            parsed_from(all, at as int, settings.deep_view(), known) == parsed(all, known),
        decreases args.len() - at,
    {
        let ghost before = settings.deep_view();
        let text = &args[at];
        let argument = chars_of(text.as_str());
        assert(all[at as int] == argument@);
        let valued = at + 1 < args.len();
        proof {
            if valued {
                assert(all[at + 1] == args[at + 1]@);
            }
        }
        if !(argument.len() > 0 && argument[0] == '-') {
            if settings.base_directory.as_str().is_empty() {
                settings.base_directory = text.clone();
                at += 1;
            } else {
                return Err(ParseError::TooManyArguments(text.clone()));
            }
        } else if is_named(&argument, "-h", "--help") {
            return Ok(Parsed::Help);
        } else if is_named(&argument, "-a", "--automatic") {
            settings.automatic = true;
            at += 1;
        } else if is_named(&argument, "-d", "--dry-run") {
            settings.dry_run = true;
            at += 1;
        } else if is_named(&argument, "-l", "--log-changes") {
            settings.log_changes = true;
            at += 1;
        } else if is_named(&argument, "-v", "--verbose") {
            settings.verbose = true;
            at += 1;
        } else if is_named(&argument, "-k", "--skip-existing") {
            settings.skip_existing = true;
            at += 1;
        } else if is_named(&argument, "-e", "--episode-start") {
            if !valued {
                return Err(ParseError::NoEpisodeIndex);
            }
            let value = &args[at + 1];
            match parse_within(&chars_of(value.as_str()), 0xffff) {
                Some(number) => {
                    settings.episode_index = number as u16;
                },
                None => {
                    return Err(ParseError::EpisodeIndexIsNaN(value.clone()));
                },
            }
            at += 2;
        } else if is_named(&argument, "-n", "--series-name") {
            if !valued {
                return Err(ParseError::NoSeriesName);
            }
            settings.series_name.append(args[at + 1].as_str());
            at += 2;
        } else if is_named(&argument, "-s", "--season-number") {
            if !valued {
                return Err(ParseError::NoSeriesIndex);
            }
            let value = &args[at + 1];
            match parse_within(&chars_of(value.as_str()), 0xff) {
                Some(number) => {
                    settings.season_index = number as u8;
                },
                None => {
                    return Err(ParseError::SeriesIndexIsNaN(value.clone()));
                },
            }
            at += 2;
        } else if is_named(&argument, "-t", "--template") {
            if !valued {
                return Err(ParseError::NoTemplate);
            }
            settings.template = tokenize_template(args[at + 1].as_str());
            at += 2;
        } else if is_named(&argument, "-p", "--pad-length") {
            if !valued {
                return Err(ParseError::NoPadLength);
            }
            let value = &args[at + 1];
            match parse_within(&chars_of(value.as_str()), 0xff) {
                Some(number) => {
                    settings.pad_length = number as u8;
                },
                None => {
                    return Err(ParseError::PadLengthIsNaN(value.clone()));
                },
            }
            at += 2;
        } else {
            return Err(ParseError::InvalidArgument(text.clone()));
        }
    }
    complete(settings, current)
}

/// The path that a dropped file gives: a text that begins with `file://` is
/// taken as the address of a file, and loses every `file://`, has a space for
/// every `%20`, and loses every line feed and carriage return. Any other text
/// is the path as it stands.
pub open spec fn directory_of(text: Seq<char>) -> Seq<char> {
    if occurs_at(text, "file://"@, 0) {
        without(without(replaced(without(text, "file://"@), "%20"@, " "@), "\n"@), "\r"@)
    } else {
        text
    }
}

/// Takes the text of the directory field, into which a file may have been
/// dropped, and gives the path that it names.
pub fn parse_directory(directory: &str) -> (path: String)
    ensures
        path@ == directory_of(directory@),
{
    let text = chars_of(directory);
    let scheme = chars_of("file://");
    if found_at(&text, &scheme, 0) {
        let bare = remove_all(&text, &scheme);
        let spaced = replace_all(&bare, &chars_of("%20"), &chars_of(" "));
        let one_line = remove_all(&spaced, &chars_of("\n"));
        string_of(&remove_all(&one_line, &chars_of("\r")))
    } else {
        string_of(&text)
    }
}

} // verus!
