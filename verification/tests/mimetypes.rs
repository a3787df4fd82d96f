use tv_renamer::mimetypes::{extensions_of_text, get_video_extensions, MimeError, MimeFile, MimeSource};

const MATROSKA: &str = "<?xml version=\"1.0\" encoding=\"utf-8\"?>\n<mime-type xmlns=\"http://www.freedesktop.org/standards/shared-mime-info\" type=\"video/x-matroska\">\n  <!--Created automatically by update-mime-database. DO NOT EDIT!-->\n  <comment>Matroska video</comment>\n  <glob pattern=\"*.mkv\"/>\n  <glob pattern=\"*.mk3d\"/>\n</mime-type>\n";

const MPEG: &str = "<mime-type type=\"video/mp4\">\r\n\t<glob pattern=\"*.mp4\"/>\r\n <glob pattern=\"*.m4v\" weight=\"60\"/>\r\n<glob pattern=\"*.f4v\"/></mime-type>";

fn texts(list: &[&str]) -> Vec<String> {
    list.iter().map(|text| String::from(*text)).collect()
}

#[test]
fn extensions_are_read_from_the_glob_lines() {
    assert_eq!(extensions_of_text(MATROSKA), texts(&["mkv", "mk3d"]));
    assert_eq!(extensions_of_text(MPEG), texts(&["mp4", "m4v", "f4v"]));
    assert_eq!(extensions_of_text(""), Vec::<String>::new());
    assert_eq!(extensions_of_text("\n\n"), Vec::<String>::new());
}

#[test]
fn lines_that_do_not_begin_with_a_glob_declare_nothing() {
    assert_eq!(extensions_of_text("x <glob pattern=\"*.mkv\"/>"), Vec::<String>::new());
    assert_eq!(extensions_of_text("<glob  pattern=\"*.mkv\"/>"), Vec::<String>::new());
    assert_eq!(extensions_of_text("<GLOB pattern=\"*.mkv\"/>"), Vec::<String>::new());
    assert_eq!(extensions_of_text("<glob pattern='*.mkv'/>"), Vec::<String>::new());
}

#[test]
fn the_extension_is_what_stands_behind_the_last_dot() {
    assert_eq!(extensions_of_text("<glob pattern=\"*.tar.gz\"/>"), texts(&["gz"]));
    assert_eq!(extensions_of_text("<glob pattern=\"README\"/>"), texts(&["README"]));
    assert_eq!(extensions_of_text("<glob pattern=\"*.\"/>"), texts(&[""]));
    assert_eq!(extensions_of_text("<glob pattern=\"\"/>"), texts(&[""]));
    assert_eq!(extensions_of_text("<glob pattern=\"*.mkv"), texts(&["mkv"]));
    assert_eq!(extensions_of_text("   <glob pattern=\"*.ogv\"/>   \n<glob pattern=\"*.ogg\""), texts(&["ogv", "ogg"]));
}

#[test]
fn extensions_of_all_files_are_collected() {
    let source = MimeSource::Files(vec![
        MimeFile::Text(String::from(MATROSKA)),
        MimeFile::Text(String::from("nothing here")),
        MimeFile::Text(String::from(MPEG)),
    ]);
    assert_eq!(get_video_extensions(&source), Ok(texts(&["mkv", "mk3d", "mp4", "m4v", "f4v"])));
    assert_eq!(get_video_extensions(&MimeSource::Files(Vec::new())), Ok(Vec::new()));
}

#[test]
fn the_first_failure_ends_the_reading() {
    assert_eq!(get_video_extensions(&MimeSource::Unlisted), Err(MimeError::OpenDir));
    let text = || MimeFile::Text(String::from(MATROSKA));
    assert_eq!(
        get_video_extensions(&MimeSource::Files(vec![text(), MimeFile::BadEntry, MimeFile::Unread])),
        Err(MimeError::OpenEntry)
    );
    assert_eq!(
        get_video_extensions(&MimeSource::Files(vec![MimeFile::Unopened, text()])),
        Err(MimeError::OpenFile)
    );
    assert_eq!(
        get_video_extensions(&MimeSource::Files(vec![text(), text(), MimeFile::Unread])),
        Err(MimeError::ReadFileToString)
    );
}

#[test]
fn failures_have_their_words() {
    assert_eq!(MimeError::OpenDir.message(), "unable to read the directory");
    assert_eq!(MimeError::OpenFile.message(), "unable to open a file");
    assert_eq!(MimeError::OpenEntry.message(), "unable to read an entry");
    assert_eq!(MimeError::ReadFileToString.message(), "unable to read a file as text");
}
