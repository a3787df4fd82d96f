use vstd::prelude::*;
use crate::text::{chars_of, part, string_of};

verus! {

/// The final component of a path, as `std::path::Path::file_name` reads it on
/// the platform the library is built for.
pub uninterp spec fn file_name_of(path: Seq<char>) -> Option<Seq<char>>;

/// The last position at which `text` holds `mark`, or -1 if it holds none.
pub open spec fn last_index_of(text: Seq<char>, mark: char) -> int
    decreases text.len(),
{
    if text.len() == 0 {
        -1
    } else if text.last() == mark {
        text.len() - 1
    } else {
        last_index_of(text.drop_last(), mark)
    }
}

/// The extension of a file name: what stands behind its last dot. A name
/// without a dot has none, and neither has a name whose only dot is its first
/// character.
pub open spec fn ending_of(name: Seq<char>) -> Option<Seq<char>> {
    let dot = last_index_of(name, '.');
    if dot <= 0 {
        None
    } else {
        Some(name.skip(dot + 1))
    }
}

/// The extension of a path: that of its final component, if it has one.
pub open spec fn extension_of(path: Seq<char>) -> Option<Seq<char>> {
    match file_name_of(path) {
        Some(name) => ending_of(name),
        None => None,
    }
}

/// The path without its final component, as `std::path::Path::parent` reads it
/// on the platform the library is built for.
pub uninterp spec fn parent_of(path: Seq<char>) -> Option<Seq<char>>;

/// The path `name` adjoined to the path `directory`, as `std::path::Path::join`
/// builds it on the platform the library is built for.
pub uninterp spec fn joined(directory: Seq<char>, name: Seq<char>) -> Seq<char>;

/// What is left of `path` behind the leading `base`, as
/// `std::path::Path::strip_prefix` reads it on the platform the library is
/// built for; nothing where `path` does not begin with `base`.
pub uninterp spec fn stripped(path: Seq<char>, base: Seq<char>) -> Option<Seq<char>>;

/// Whether `text` holds the characters `expected`, or neither holds anything.
pub open spec fn holds(text: Option<String>, expected: Option<Seq<char>>) -> bool {
    match text {
        Some(found) => expected == Some(found@),
        None => expected is None,
    }
}

/// Calls `Path::file_name`, which returns the final component of the path if
/// there is one. The path is handed over as text, and so is the result; the
/// result is determined by the text of the path.
#[verifier::external_body]
pub(crate) fn file_name(path: &str) -> (name: Option<String>)
    ensures
        holds(name, file_name_of(path@)),
{
    match std::path::Path::new(path).file_name() {
        Some(name) => Some(name.to_string_lossy().into_owned()),
        None => None,
    }
}

/// The last mark is found by walking back to it.
proof fn lemma_last_index_of(text: Seq<char>, mark: char, behind: int)
    requires
        0 <= behind <= text.len(),
        forall|i: int| behind <= i < text.len() ==> text[i] != mark,
        behind > 0 ==> text[behind - 1] == mark,
    ensures
        last_index_of(text, mark) == behind - 1,
    decreases text.len() - behind,
{
    if behind < text.len() {
        lemma_last_index_of(text.drop_last(), mark, behind);
    }
}

/// The extension of a path: what stands in its final component behind the
/// last dot. A path without final component has none, and neither has one
/// whose final component holds no dot, or no dot but the one it begins with.
pub fn extension(path: &str) -> (ending: Option<String>)
    ensures
        holds(ending, extension_of(path@)),
{
    let name = match file_name(path) {
        Some(name) => chars_of(name.as_str()),
        None => {
            return None;
        },
    };
    let mut behind: usize = name.len();
    while behind > 0 && name[behind - 1] != '.'
        invariant
            behind <= name.len(),
            forall|i: int| behind <= i < name.len() ==> name@[i] != '.',
        decreases behind,
    {
        behind -= 1;
    }
    proof {
        lemma_last_index_of(name@, '.', behind as int);
    }
    if behind <= 1 {
        None
    } else {
        assert(name@.skip(behind as int) == name@.subrange(behind as int, name.len() as int));
        Some(string_of(&part(&name, behind, name.len())))
    }
}

/// Calls `Path::parent`, which returns the path without its final component,
/// if there is one. The result is determined by the text of the path.
#[verifier::external_body]
pub(crate) fn parent(path: &str) -> (directory: Option<String>)
    ensures
        holds(directory, parent_of(path@)),
{
    match std::path::Path::new(path).parent() {
        Some(directory) => Some(directory.to_string_lossy().into_owned()),
        None => None,
    }
}

/// Calls `Path::join`, which builds the path that has `name` adjoined to
/// `directory`. The result is determined by the two texts.
#[verifier::external_body]
pub(crate) fn join(directory: &str, name: &str) -> (path: String)
    ensures
        path@ == joined(directory@, name@),
{
    std::path::Path::new(directory).join(name).to_string_lossy().into_owned()
}

/// Calls `Path::strip_prefix`, which returns the path without the leading
/// `base`, or fails where the path does not begin with `base`. The result is
/// determined by the two texts.
#[verifier::external_body]
pub(crate) fn strip_prefix(path: &str, base: &str) -> (rest: Option<String>)
    ensures
        holds(rest, stripped(path@, base@)),
{
    match std::path::Path::new(path).strip_prefix(base) {
        Ok(rest) => Some(rest.to_string_lossy().into_owned()),
        Err(_) => None,
    }
}

} // verus!
