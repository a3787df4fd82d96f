use vstd::prelude::*;
use crate::paths::{join, joined, strip_prefix, stripped};
use crate::text::{quote, quoted, tool_prefix};

verus! {

/// The time that lies `seconds` seconds after the beginning of 1970 in a time
/// zone `offset` seconds east of Greenwich, written as RFC 2822 has it, such
/// as `Tue, 1 Jul 2003 10:52:37 +0200`; as `chrono` writes it.
pub uninterp spec fn rfc2822_of(seconds: i64, offset: i32) -> Seq<char>;

/// The least number of seconds after the beginning of 1970 for which the
/// time is written: a day after the beginning of the year 0.
pub const FIRST_SECOND: i64 = -62_167_132_800;

/// The greatest number of seconds after the beginning of 1970 for which the
/// time is written: a day before the end of the year 9999.
pub const LAST_SECOND: i64 = 253_402_214_399;

/// Whether a time can be written: it lies a day or more after the beginning
/// of the year 0 and a day or more before the end of the year 9999, and its
/// zone is less than a day from Greenwich. The year of such a time is one of
/// the years 0 to 9999 in its zone too.
pub open spec fn can_be_written(seconds: i64, offset: i32) -> bool {
    FIRST_SECOND <= seconds <= LAST_SECOND && -86_400 < offset < 86_400
}

/// Calls `chrono::DateTime::to_rfc2822` on the time that
/// `chrono::DateTime::from_timestamp` makes of `seconds`, moved by
/// `chrono::DateTime::with_timezone` to the zone that
/// `chrono::FixedOffset::east_opt` makes of `offset`. For the times that
/// `can_be_written` admits the two constructors give a value and the year is
/// one that RFC 2822 can hold, so nothing fails. The text depends on the two
/// numbers alone.
#[verifier::external_body]
fn rfc2822(seconds: i64, offset: i32) -> (stamp: String)
    requires
        can_be_written(seconds, offset),
    ensures
        stamp@ == rfc2822_of(seconds, offset),
{
    let zone = chrono::FixedOffset::east_opt(offset).unwrap();
    chrono::DateTime::from_timestamp(seconds, 0).unwrap().with_timezone(&zone).to_rfc2822()
}

/// A path as it is shown: with `.` for the current directory where the path
/// lies in it, else with `~` for the home directory where it lies in that, and
/// else as it is.
pub open spec fn shortened(path: Seq<char>, current: Seq<char>, home: Seq<char>) -> Seq<char> {
    match stripped(path, current) {
        Some(rest) => joined("."@, rest),
        None => match stripped(path, home) {
            Some(rest) => joined("~"@, rest),
            None => path,
        },
    }
}

/// The line that records a change: the two paths as they are given, with an
/// arrow between them.
pub open spec fn change_line(source: Seq<char>, target: Seq<char>) -> Seq<char> {
    source + " -> "@ + target + "\n"@
}

/// The lines that head the changes of one run: an empty line, and the time.
pub open spec fn time_lines(stamp: Seq<char>) -> Seq<char> {
    "\n"@ + stamp + "\n"@
}

/// Takes a path and shortens it for reading. `current` is the current
/// directory and `home` the home directory of the user.
pub fn shorten_path(path: &str, current: &str, home: &str) -> (short: String)
    ensures
        short@ == shortened(path@, current@, home@),
{
    match strip_prefix(path, current) {
        Some(rest) => join(".", rest.as_str()),
        None => match strip_prefix(path, home) {
            Some(rest) => join("~", rest.as_str()),
            None => path.to_owned(),
        },
    }
}

/// Writes the time as RFC 2822 has it, where it can be written.
pub fn time_stamp(seconds: i64, offset: i32) -> (stamp: Option<String>)
    ensures
        match stamp {
            Some(text) => can_be_written(seconds, offset) && text@ == rfc2822_of(seconds, offset),
            None => !can_be_written(seconds, offset),
        },
{
    if FIRST_SECOND <= seconds && seconds <= LAST_SECOND && -86_400 < offset && offset < 86_400 {
        Some(rfc2822(seconds, offset))
    } else {
        None
    }
}

/// Appends to the log the lines that head the changes of one run, with the
/// time as it was written.
pub fn log_append_time(log: &mut String, stamp: &str)
    ensures
        final(log)@ == old(log)@ + time_lines(stamp@),
{
    let ghost before = log@;
    log.append("\n");
    log.append(stamp);
    log.append("\n");
    assert(log@ == before + time_lines(stamp@));
}

/// Appends the time to the log: an empty line, and the time as RFC 2822 has
/// it. Tells whether it did; a time that cannot be written leaves the log as
/// it is.
pub fn append_time(log: &mut String, seconds: i64, offset: i32) -> (written: bool)
    ensures
        written == can_be_written(seconds, offset),
        written ==> final(log)@ == old(log)@ + time_lines(rfc2822_of(seconds, offset)),
        !written ==> final(log)@ == old(log)@,
{
    match time_stamp(seconds, offset) {
        Some(stamp) => {
            log_append_time(log, stamp.as_str());
            true
        },
        None => false,
    }
}

/// Appends to the log the line that records the renaming of `source` to
/// `target`, with the two paths as they are given.
pub fn log_append_change(log: &mut String, source: &str, target: &str)
    ensures
        final(log)@ == old(log)@ + change_line(source@, target@),
{
    let ghost before = log@;
    log.append(source);
    log.append(" -> ");
    log.append(target);
    log.append("\n");
    assert(log@ == before + change_line(source@, target@));
}

/// Appends to the log the line that records the renaming of `source` to
/// `target`, with the two paths shortened for reading.
pub fn append_change(log: &mut String, source: &str, target: &str, current: &str, home: &str)
    ensures
        final(log)@ == old(log)@ + change_line(
            shortened(source@, current@, home@),
            shortened(target@, current@, home@),
        ),
{
    let from = shorten_path(source, current, home);
    let to = shorten_path(target, current, home);
    log_append_change(log, from.as_str(), to.as_str());
}

/// The line that shows a change on a terminal: the two paths as they are
/// shown, each between quotation marks and in bold green, with an arrow
/// between them.
pub open spec fn shown_change(
    source: Seq<char>,
    target: Seq<char>,
    current: Seq<char>,
    home: Seq<char>,
) -> Seq<char> {
    "\x1b[1m\x1b[32m"@ + quoted(shortened(source, current, home)) + "\x1b[0m -> \x1b[1m\x1b[32m"@
        + quoted(shortened(target, current, home)) + "\x1b[0m\n"@
}

/// The line that reports a file that was left as it is because its target
/// exists: the name of the program, the target as it is, and the words.
pub open spec fn skipped_notice(target: Seq<char>) -> Seq<char> {
    tool_prefix() + target + " already exists, not renaming.\n"@
}

/// The question whether a target that exists may be overwritten.
pub open spec fn overwrite_question(target: Seq<char>) -> Seq<char> {
    tool_prefix() + "episode to be renamed already exists:\n"@ + quoted(target)
        + "\nIs it okay to overwrite? (y/n)"@
}

/// Writes the line that shows the renaming of `source` to `target` on a
/// terminal.
pub fn show_change(source: &str, target: &str, current: &str, home: &str) -> (line: String)
    ensures
        line@ == shown_change(source@, target@, current@, home@),
{
    let from = quote(shorten_path(source, current, home).as_str());
    let to = quote(shorten_path(target, current, home).as_str());
    let mut line = String::new();
    line.append("\x1b[1m\x1b[32m");
    line.append(from.as_str());
    line.append("\x1b[0m -> \x1b[1m\x1b[32m");
    line.append(to.as_str());
    line.append("\x1b[0m\n");
    assert(line@ == shown_change(source@, target@, current@, home@));
    line
}

/// Writes the line that reports a file that is left as it is because its
/// target exists.
pub fn notice_skipped(target: &str) -> (line: String)
    ensures
        line@ == skipped_notice(target@),
{
    let mut line = String::new();
    line.append("tv-renamer: ");
    line.append(target);
    line.append(" already exists, not renaming.\n");
    assert(line@ == skipped_notice(target@));
    line
}

/// Writes the question whether a target that exists may be overwritten.
pub fn ask_to_overwrite(target: &str) -> (question: String)
    ensures
        question@ == overwrite_question(target@),
{
    let mut question = String::new();
    question.append("tv-renamer: ");
    question.append("episode to be renamed already exists:\n");
    question.append(quote(target).as_str());
    question.append("\nIs it okay to overwrite? (y/n)");
    assert(question@ == overwrite_question(target@));
    question
}

} // verus!
