use tv_renamer::mimetypes::MimeError;
use tv_renamer::scan::{
    contains_seasons, get_episodes, get_seasons, order_paths, scan_directory, season_directories, Entry,
    Listing, Ranked, ReadDirError, ScanDir, ScanStep, Season, SeasonDir,
};

fn file(path: &str) -> Entry {
    Entry { path: String::from(path), is_dir: false, is_file: true }
}

fn directory(path: &str) -> Entry {
    Entry { path: String::from(path), is_dir: true, is_file: false }
}

fn texts(list: &[&str]) -> Vec<String> {
    list.iter().map(|text| String::from(*text)).collect()
}

fn videos() -> Vec<String> {
    texts(&["mkv", "mp4", "avi"])
}

#[test]
fn episodes_are_the_videos_in_order() {
    let entries = vec![
        file("/v/two.mkv"),
        file("/v/one.mkv"),
        file("/v/notes.txt"),
        directory("/v/extras.mkv"),
        file("/v/three.mkv"),
        file("/v/README"),
    ];
    let season = get_episodes(&entries, &videos(), 1);
    assert_eq!(season.season_no, 1);
    assert_eq!(season.episodes, texts(&["/v/one.mkv", "/v/three.mkv", "/v/two.mkv"]));
}

#[test]
fn episodes_are_ordered_without_regard_to_case() {
    let entries = vec![file("/v/b.mkv"), file("/v/C.mkv"), file("/v/a.mkv"), file("/v/B2.mkv")];
    let season = get_episodes(&entries, &videos(), 3);
    assert_eq!(season.season_no, 3);
    assert_eq!(season.episodes, texts(&["/v/a.mkv", "/v/b.mkv", "/v/B2.mkv", "/v/C.mkv"]));
}

#[test]
fn paths_that_differ_in_case_only_keep_the_order_of_the_listing() {
    let one = vec![file("/v/A.mkv"), file("/v/a.mkv"), file("/v/0.mkv")];
    assert_eq!(get_episodes(&one, &videos(), 1).episodes, texts(&["/v/0.mkv", "/v/A.mkv", "/v/a.mkv"]));
    let other = vec![file("/v/a.mkv"), file("/v/0.mkv"), file("/v/A.mkv")];
    assert_eq!(get_episodes(&other, &videos(), 1).episodes, texts(&["/v/0.mkv", "/v/a.mkv", "/v/A.mkv"]));
}

#[test]
fn extensions_are_matched_letter_for_letter() {
    let entries = vec![file("/v/a.MKV"), file("/v/b.mkv"), file("/v/c.mk"), file("/v/d.mkvx"), file("/v/mkv")];
    assert_eq!(get_episodes(&entries, &videos(), 1).episodes, texts(&["/v/b.mkv"]));
    assert_eq!(get_episodes(&entries, &texts(&["MKV"]), 1).episodes, texts(&["/v/a.MKV"]));
    assert_eq!(get_episodes(&entries, &Vec::new(), 1).episodes, Vec::<String>::new());
}

#[test]
fn rescan_in_another_order_gives_the_same_episodes() {
    let first = vec![file("/v/two.mkv"), file("/v/One.mkv"), file("/v/three.mp4"), file("/v/x.txt")];
    let second = vec![file("/v/x.txt"), file("/v/three.mp4"), file("/v/two.mkv"), file("/v/One.mkv")];
    assert_eq!(get_episodes(&first, &videos(), 1), get_episodes(&second, &videos(), 1));
    assert_eq!(get_episodes(&first, &videos(), 1), get_episodes(&first, &videos(), 1));
}

#[test]
fn season_directories_are_told_by_their_names() {
    assert!(contains_seasons(&vec![file("/s/a.mkv"), directory("/s/Season 1")]));
    assert!(contains_seasons(&vec![directory("/s/my SEASONS")]));
    assert!(!contains_seasons(&vec![file("/s/season 1"), directory("/s/extras")]));
    assert!(!contains_seasons(&vec![directory("/season/extras")]));
    assert!(!contains_seasons(&Vec::new()));
    assert!(!contains_seasons(&vec![directory("/s/Specials")]));
}

#[test]
fn season_directories_come_in_the_order_of_their_paths() {
    let entries = vec![
        directory("/s/season 2"),
        file("/s/Season 9"),
        directory("/s/Season 10"),
        directory("/s/extras"),
        directory("/s/Specials"),
        directory("/s/Season 1"),
    ];
    assert_eq!(
        season_directories(&entries),
        vec![
            SeasonDir { season_no: 1, path: String::from("/s/Season 1") },
            SeasonDir { season_no: 10, path: String::from("/s/Season 10") },
            SeasonDir { season_no: 0, path: String::from("/s/Specials") },
            SeasonDir { season_no: 2, path: String::from("/s/season 2") },
        ]
    );
}

#[test]
fn seasons_are_put_in_the_order_of_their_numbers() {
    let season = |number: u8, name: &str| Season { season_no: number, episodes: texts(&[name]) };
    let seasons = vec![season(2, "a"), season(0, "b"), season(10, "c"), season(2, "d"), season(1, "e")];
    assert_eq!(
        get_seasons(seasons),
        vec![season(0, "b"), season(1, "e"), season(2, "a"), season(2, "d"), season(10, "c")]
    );
    assert_eq!(get_seasons(Vec::new()), Vec::new());
}

#[test]
fn flat_directory_gives_its_episodes() {
    let scanner = scan_directory("/v", 4, Ok(videos()));
    assert_eq!(scanner.awaited().as_str(), "/v");
    let listing = Listing::Entries(vec![file("/v/b.mkv"), file("/v/a.mkv"), directory("/v/extras")]);
    match scanner.listed(listing) {
        ScanStep::Done(found) => assert_eq!(
            found,
            ScanDir::Episodes(Season { season_no: 4, episodes: texts(&["/v/a.mkv", "/v/b.mkv"]) })
        ),
        _ => panic!("the scan of a flat directory ends with its listing"),
    }
}

fn drive(directory: &str, season_no: u8, extensions: Result<Vec<String>, MimeError>, tree: &[(&str, Listing)]) -> (Result<ScanDir, ReadDirError>, Vec<String>) {
    let mut listed = Vec::new();
    let mut scanner = scan_directory(directory, season_no, extensions);
    loop {
        let wanted = scanner.awaited().clone();
        listed.push(wanted.clone());
        let listing = match tree.iter().find(|(path, _)| *path == wanted.as_str()) {
            Some((_, listing)) => listing.clone(),
            None => Listing::Unreadable,
        };
        match scanner.listed(listing) {
            ScanStep::Next(next) => scanner = next,
            ScanStep::Done(found) => return (Ok(found), listed),
            ScanStep::Failed(why) => return (Err(why), listed),
        }
    }
}

#[test]
fn season_directories_give_one_season_each() {
    let tree = [
        ("/s", Listing::Entries(vec![directory("/s/Season2"), file("/s/info.txt"), directory("/s/Season1")])),
        ("/s/Season1", Listing::Entries(vec![file("/s/Season1/x.mkv")])),
        ("/s/Season2", Listing::Entries(vec![file("/s/Season2/y.mkv")])),
    ];
    let (found, listed) = drive("/s", 7, Ok(videos()), &tree);
    assert_eq!(
        found,
        Ok(ScanDir::Seasons(vec![
            Season { season_no: 1, episodes: texts(&["/s/Season1/x.mkv"]) },
            Season { season_no: 2, episodes: texts(&["/s/Season2/y.mkv"]) },
        ]))
    );
    assert_eq!(listed, texts(&["/s", "/s/Season1", "/s/Season2"]));
}

#[test]
fn seasons_come_out_by_number_not_by_path() {
    let tree = [
        (
            "/s",
            Listing::Entries(vec![
                directory("/s/Season 10"),
                directory("/s/Season 2"),
                directory("/s/Specials"),
                directory("/s/extras"),
            ]),
        ),
        ("/s/Season 10", Listing::Entries(vec![file("/s/Season 10/a.mkv")])),
        ("/s/Season 2", Listing::Entries(vec![file("/s/Season 2/b.mkv"), file("/s/Season 2/A.mkv")])),
        ("/s/Specials", Listing::Entries(vec![])),
    ];
    let (found, listed) = drive("/s", 1, Ok(videos()), &tree);
    assert_eq!(
        found,
        Ok(ScanDir::Seasons(vec![
            Season { season_no: 0, episodes: Vec::new() },
            Season { season_no: 2, episodes: texts(&["/s/Season 2/A.mkv", "/s/Season 2/b.mkv"]) },
            Season { season_no: 10, episodes: texts(&["/s/Season 10/a.mkv"]) },
        ]))
    );
    assert_eq!(listed, texts(&["/s", "/s/Season 10", "/s/Season 2", "/s/Specials"]));
}

#[test]
fn season_directory_below_a_season_directory_is_no_season() {
    let tree = [
        ("/s", Listing::Entries(vec![directory("/s/Season 1")])),
        ("/s/Season 1", Listing::Entries(vec![directory("/s/Season 1/Season 2"), file("/s/Season 1/a.mkv")])),
    ];
    let (found, listed) = drive("/s", 1, Ok(videos()), &tree);
    assert_eq!(found, Ok(ScanDir::Seasons(vec![Season { season_no: 1, episodes: texts(&["/s/Season 1/a.mkv"]) }])));
    assert_eq!(listed, texts(&["/s", "/s/Season 1"]));
}

#[test]
fn directory_of_seasons_without_numbers_gives_no_season() {
    let tree = [("/s", Listing::Entries(vec![directory("/s/Seasonal"), file("/s/a.mkv")]))];
    let (found, _) = drive("/s", 1, Err(MimeError::OpenDir), &tree);
    assert_eq!(found, Ok(ScanDir::Seasons(Vec::new())));
}

#[test]
fn unreadable_directories_fail_the_scan() {
    let (found, _) = drive("/gone", 1, Ok(videos()), &[]);
    assert_eq!(found, Err(ReadDirError::UnableToReadDir(String::from("/gone"))));
    let (found, _) = drive("/bad", 1, Ok(videos()), &[("/bad", Listing::InvalidEntry)]);
    assert_eq!(found, Err(ReadDirError::InvalidDirEntry(String::from("/bad"))));
    let tree = [
        ("/s", Listing::Entries(vec![directory("/s/Season 1"), directory("/s/Season 2"), directory("/s/Season 3")])),
        ("/s/Season 1", Listing::Entries(vec![file("/s/Season 1/a.mkv")])),
        ("/s/Season 2", Listing::InvalidEntry),
    ];
    let (found, listed) = drive("/s", 1, Ok(videos()), &tree);
    assert_eq!(found, Err(ReadDirError::InvalidDirEntry(String::from("/s/Season 2"))));
    assert_eq!(listed, texts(&["/s", "/s/Season 1", "/s/Season 2"]));
    let tree = [("/s", Listing::Entries(vec![directory("/s/Season 1")]))];
    let (found, _) = drive("/s", 1, Ok(videos()), &tree);
    assert_eq!(found, Err(ReadDirError::UnableToReadDir(String::from("/s/Season 1"))));
}

#[test]
fn missing_extensions_fail_the_scan_when_episodes_are_to_be_told() {
    let flat = [("/v", Listing::Entries(vec![file("/v/a.mkv")]))];
    let (found, _) = drive("/v", 1, Err(MimeError::OpenFile), &flat);
    assert_eq!(found, Err(ReadDirError::MimeError(MimeError::OpenFile)));
    let (found, _) = drive("/gone", 1, Err(MimeError::OpenFile), &[]);
    assert_eq!(found, Err(ReadDirError::UnableToReadDir(String::from("/gone"))));
    let seasons = [("/s", Listing::Entries(vec![directory("/s/Season 1")]))];
    let (found, listed) = drive("/s", 1, Err(MimeError::ReadFileToString), &seasons);
    assert_eq!(found, Err(ReadDirError::MimeError(MimeError::ReadFileToString)));
    assert_eq!(listed, texts(&["/s"]));
}

#[test]
fn scan_failures_are_told_with_the_name_of_the_program() {
    assert_eq!(
        ReadDirError::UnableToReadDir(String::from("/a \"b\"")).message(),
        "tv-renamer: unable to read \"/a \\\"b\\\"\" directory."
    );
    assert_eq!(
        ReadDirError::InvalidDirEntry(String::from("/a")).message(),
        "tv-renamer: unable to read entry in \"/a\"."
    );
    assert_eq!(
        ReadDirError::MimeError(MimeError::OpenDir).message(),
        "tv-renamer: error obtaining video extensions from /usr/share/mime/video: unable to read the directory"
    );
}

#[test]
fn mixed_extensions_are_all_recognized() {
    let entries = vec![
        file("/v/a.mkv"),
        file("/v/b.mkv"),
        file("/v/c.avi"),
        file("/v/d.txt"),
        file("/v/e.mkv"),
        file("/v/f.avi"),
        file("/v/g.mp4"),
        file("/v/h"),
        file("/v/i.mp4"),
    ];
    assert_eq!(
        get_episodes(&entries, &videos(), 1).episodes,
        texts(&["/v/a.mkv", "/v/b.mkv", "/v/c.avi", "/v/e.mkv", "/v/f.avi", "/v/g.mp4", "/v/i.mp4"])
    );
    assert_eq!(
        get_episodes(&entries, &texts(&["avi", "avi", "txt"]), 1).episodes,
        texts(&["/v/c.avi", "/v/d.txt", "/v/f.avi"])
    );
}

fn ranked(rank: &str, path: &str) -> Ranked {
    Ranked { rank: rank.chars().collect(), path: String::from(path) }
}

#[test]
fn paths_are_ordered_by_their_ranks() {
    let three = vec![
        ranked("/d/one.mkv", "/d/one.mkv"),
        ranked("/d/two.mkv", "/d/two.mkv"),
        ranked("/d/three.mkv", "/d/three.mkv"),
    ];
    assert_eq!(order_paths(three), texts(&["/d/one.mkv", "/d/three.mkv", "/d/two.mkv"]));
    let mixed = vec![ranked("b", "B"), ranked("a", "x"), ranked("b", "b"), ranked("", "last"), ranked("ab", "AB")];
    assert_eq!(order_paths(mixed), texts(&["last", "x", "AB", "B", "b"]));
    assert_eq!(order_paths(Vec::new()), Vec::<String>::new());
}
