use vstd::prelude::*;
use crate::text::{
    chars_of, find, found_at, index_of, occurs_at, part, string_of, trim, trimmed,
};

verus! {

/// Why the list of video extensions could not be had.
#[derive(Clone, Copy, Debug, PartialEq, Eq)]
pub enum MimeError {
    /// The directory of the video types could not be listed.
    OpenDir,
    /// A file in it could not be opened.
    OpenFile,
    /// An entry of it could not be read.
    OpenEntry,
    /// A file in it could not be read as text.
    ReadFileToString,
}

/// What is said of a failure to get the video extensions.
pub open spec fn mime_error_text(why: MimeError) -> Seq<char> {
    match why {
        MimeError::OpenDir => "unable to read the directory"@,
        MimeError::OpenFile => "unable to open a file"@,
        MimeError::OpenEntry => "unable to read an entry"@,
        MimeError::ReadFileToString => "unable to read a file as text"@,
    }
}

impl MimeError {
    /// The words that tell of the failure.
    pub fn message(&self) -> (text: String)
        ensures
            text@ == mime_error_text(*self),
    {
        let words = match self {
            MimeError::OpenDir => "unable to read the directory",
            MimeError::OpenFile => "unable to open a file",
            MimeError::OpenEntry => "unable to read an entry",
            MimeError::ReadFileToString => "unable to read a file as text",
        };
        words.to_owned()
    }
}

/// What became of one file in the directory of the video types.
#[derive(Clone, Debug, PartialEq, Eq)]
pub enum MimeFile {
    /// The file was read, and this is its text.
    Text(String),
    /// The entry of the file could not be read.
    BadEntry,
    /// The file could not be opened.
    Unopened,
    /// The file could not be read as text.
    Unread,
}

/// What became of the directory of the video types.
#[derive(Clone, Debug, PartialEq, Eq)]
pub enum MimeSource {
    /// The directory was listed, and this became of its files, in the order
    /// of the listing.
    Files(Vec<MimeFile>),
    /// The directory could not be listed.
    Unlisted,
}

/// A file of the video types as a mathematical value.
pub ghost enum MimeFileView {
    Text(Seq<char>),
    BadEntry,
    Unopened,
    Unread,
}

impl DeepView for MimeFile {
    type V = MimeFileView;

    open spec fn deep_view(&self) -> MimeFileView {
        match self {
            MimeFile::Text(text) => MimeFileView::Text(text@),
            MimeFile::BadEntry => MimeFileView::BadEntry,
            MimeFile::Unopened => MimeFileView::Unopened,
            MimeFile::Unread => MimeFileView::Unread,
        }
    }
}

/// The directory of the video types as a mathematical value.
pub ghost enum MimeSourceView {
    Files(Seq<MimeFileView>),
    Unlisted,
}

impl DeepView for MimeSource {
    type V = MimeSourceView;

    open spec fn deep_view(&self) -> MimeSourceView {
        match self {
            MimeSource::Files(files) => MimeSourceView::Files(files.deep_view()),
            MimeSource::Unlisted => MimeSourceView::Unlisted,
        }
    }
}

/// What stands in `text` behind the last `mark`; all of it if there is none.
pub open spec fn after_last(text: Seq<char>, mark: char) -> Seq<char>
    decreases text.len(),
{
    if text.len() == 0 || text.last() == mark {
        Seq::empty()
    } else {
        after_last(text.drop_last(), mark).push(text.last())
    }
}

/// The extension that one line of a type description declares. A line that
/// begins, white space aside, with `<glob pattern="` declares the pattern
/// that runs from there to the next quotation mark, and of that pattern the
/// part behind its last dot is the extension. Any other line declares none.
pub open spec fn line_extension(line: Seq<char>) -> Option<Seq<char>> {
    let bare = trimmed(line);
    let opening = "<glob pattern=\""@;
    if occurs_at(bare, opening, 0) {
        let start = opening.len() as int;
        Some(after_last(bare.subrange(start, index_of(bare, '"', start)), '.'))
    } else {
        None
    }
}

/// The extensions that the lines of `text` declare from position `from` on,
/// where `from` is the beginning of a line.
pub open spec fn extensions_from(text: Seq<char>, from: int) -> Seq<Seq<char>>
    decreases text.len() - from,
{
    if from < 0 || from >= text.len() {
        Seq::empty()
    } else {
        let end = index_of(text, '\n', from);
        let found = match line_extension(text.subrange(from, end)) {
            Some(ending) => seq![ending],
            None => Seq::empty(),
        };
        if from <= end < text.len() {
            found + extensions_from(text, end + 1)
        } else {
            found
        }
    }
}

/// The extensions that a type description declares, line by line.
pub open spec fn extensions_in(text: Seq<char>) -> Seq<Seq<char>> {
    extensions_from(text, 0)
}

/// The extensions that the files declare, file by file, or the failure of the
/// first file that was not read.
pub open spec fn extensions_of_files(files: Seq<MimeFileView>) -> Result<Seq<Seq<char>>, MimeError>
    decreases files.len(),
{
    if files.len() == 0 {
        Ok(Seq::empty())
    } else {
        match extensions_of_files(files.drop_last()) {
            Err(why) => Err(why),
            Ok(found) => match files.last() {
                MimeFileView::Text(text) => Ok(found + extensions_in(text)),
                MimeFileView::BadEntry => Err(MimeError::OpenEntry),
                MimeFileView::Unopened => Err(MimeError::OpenFile),
                MimeFileView::Unread => Err(MimeError::ReadFileToString),
            },
        }
    }
}

/// The video extensions that the source gives, or the reason why it gives
/// none.
pub open spec fn video_extensions(source: MimeSourceView) -> Result<Seq<Seq<char>>, MimeError> {
    match source {
        MimeSourceView::Unlisted => Err(MimeError::OpenDir),
        MimeSourceView::Files(files) => extensions_of_files(files),
    }
}

/// Whether `found` holds the extensions or the error that `expected` names.
pub open spec fn is_extensions(
    found: Result<Vec<String>, MimeError>,
    expected: Result<Seq<Seq<char>>, MimeError>,
) -> bool {
    match found {
        Ok(list) => expected == Ok::<Seq<Seq<char>>, MimeError>(list.deep_view()),
        Err(why) => expected == Err::<Seq<Seq<char>>, MimeError>(why),
    }
}

/// What stands behind the last mark is found by walking back to it.
proof fn lemma_after_last(text: Seq<char>, mark: char, start: int)
    requires
        0 <= start <= text.len(),
        forall|i: int| start <= i < text.len() ==> text[i] != mark,
        start > 0 ==> text[start - 1] == mark,
    ensures
        after_last(text, mark) == text.skip(start),
    decreases text.len() - start,
{
    if start < text.len() {
        lemma_after_last(text.drop_last(), mark, start);
        assert(text.drop_last().skip(start).push(text.last()) == text.skip(start));
    } else {
        assert(text.skip(start) == Seq::<char>::empty());
    }
}

/// Copies what stands in `text` behind the last `mark`.
fn tail_after(text: &Vec<char>, mark: char) -> (tail: Vec<char>)
    ensures
        tail@ == after_last(text@, mark),
{
    let mut start: usize = text.len();
    while start > 0 && text[start - 1] != mark
        invariant
            start <= text.len(),
            forall|i: int| start <= i < text.len() ==> text@[i] != mark,
        decreases start,
    {
        start -= 1;
    }
    proof {
        lemma_after_last(text@, mark, start as int);
        assert(text@.skip(start as int) == text@.subrange(start as int, text.len() as int));
    }
    part(text, start, text.len())
}

/// Reads the extension that one line declares, if it declares one.
fn extension_of_line(line: &Vec<char>) -> (ending: Option<Vec<char>>)
    ensures
        match ending {
            Some(found) => line_extension(line@) == Some(found@),
            None => line_extension(line@) is None,
        },
{
    let bare = trim(line);
    let opening = chars_of("<glob pattern=\"");
    if found_at(&bare, &opening, 0) {
        let start: usize = opening.len();
        let end: usize = find(&bare, '"', start);
        let pattern = part(&bare, start, end);
        Some(tail_after(&pattern, '.'))
    } else {
        None
    }
}

/// Collects the extensions that a type description declares.
pub fn extensions_of_text(text: &str) -> (found: Vec<String>)
    ensures
        found.deep_view() == extensions_in(text@),
{
    let all = chars_of(text);
    let mut found: Vec<String> = Vec::new();
    let mut from: usize = 0;
    while from < all.len()
        invariant
            all@ == text@,
            found.deep_view() + extensions_from(all@, from as int) == extensions_in(all@),
        decreases all.len() - from,
    {
        let end: usize = find(&all, '\n', from);
        let line = part(&all, from, end);
        let ghost before = found.deep_view();
        match extension_of_line(&line) {
            Some(ending) => {
                found.push(string_of(&ending));
                assert(found.deep_view() == before + seq![ending@]);
            },
            None => {
                assert(found.deep_view() == before + Seq::<Seq<char>>::empty());
            },
        }
        if end == all.len() {
            return found;
        }
        assert(found.deep_view() + extensions_from(all@, end + 1) == before + extensions_from(
            all@,
            from as int,
        ));
        from = end + 1;
    }
    assert(found.deep_view() + Seq::<Seq<char>>::empty() == found.deep_view());
    found
}

/// Obtains the list of video extensions from what was read of the directory
/// of the video types. The first file that was not read ends the work with
/// its failure.
pub fn get_video_extensions(source: &MimeSource) -> (list: Result<Vec<String>, MimeError>)
    ensures
        is_extensions(list, video_extensions(source.deep_view())),
{
    let files = match source {
        MimeSource::Files(files) => files,
        MimeSource::Unlisted => {
            return Err(MimeError::OpenDir);
        },
    };
    let ghost seen = files.deep_view();
    let mut extension_list: Vec<String> = Vec::new();
    let mut at: usize = 0;
    assert(extension_list.deep_view() == Seq::<Seq<char>>::empty());
    while at < files.len()
        invariant
            at <= files.len(),
            seen == files.deep_view(),
            source.deep_view() == MimeSourceView::Files(seen),
            extensions_of_files(seen.take(at as int)) == Ok::<Seq<Seq<char>>, MimeError>(
                extension_list.deep_view(),
            ),
        decreases files.len() - at,
    {
        proof {
            assert(seen.take(at + 1).drop_last() == seen.take(at as int));
            assert(seen.take(at + 1).last() == files[at as int].deep_view());
        }
        let ghost before = extension_list.deep_view();
        match &files[at] {
            MimeFile::Text(text) => {
                let mut found = extensions_of_text(text.as_str());
                let ghost added = found.deep_view();
                extension_list.append(&mut found);
                assert(extension_list.deep_view() == before + added);
            },
            MimeFile::BadEntry => {
                proof {
                    assert(extensions_of_files(seen.take(at + 1)) == Err::<
                        Seq<Seq<char>>,
                        MimeError,
                    >(MimeError::OpenEntry));
                    lemma_failure_stays(seen, at + 1);
                }
                return Err(MimeError::OpenEntry);
            },
            MimeFile::Unopened => {
                proof {
                    assert(extensions_of_files(seen.take(at + 1)) == Err::<
                        Seq<Seq<char>>,
                        MimeError,
                    >(MimeError::OpenFile));
                    lemma_failure_stays(seen, at + 1);
                }
                return Err(MimeError::OpenFile);
            },
            MimeFile::Unread => {
                proof {
                    assert(extensions_of_files(seen.take(at + 1)) == Err::<
                        Seq<Seq<char>>,
                        MimeError,
                    >(MimeError::ReadFileToString));
                    lemma_failure_stays(seen, at + 1);
                }
                return Err(MimeError::ReadFileToString);
            },
        }
        at += 1;
    }
    assert(seen.take(files.len() as int) == seen);
    Ok(extension_list)
}

/// Once a file has failed, the files behind it change nothing.
proof fn lemma_failure_stays(files: Seq<MimeFileView>, upto: int)
    requires
        0 <= upto <= files.len(),
        extensions_of_files(files.take(upto)) is Err,
    ensures
        extensions_of_files(files) == extensions_of_files(files.take(upto)),
    decreases files.len() - upto,
{
    if upto < files.len() {
        assert(files.drop_last().take(upto) == files.take(upto));
        lemma_failure_stays(files.drop_last(), upto);
    } else {
        assert(files.take(upto) == files);
    }
}

} // verus!
