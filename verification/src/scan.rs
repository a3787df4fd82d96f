use vstd::prelude::*;
use crate::order::{
    codes, key_of, keys_differ, lemma_ordered_is_unique,
    lemma_sorted, lemma_sorted_in_any_order, lemma_sorted_is_stable,
    lemma_sorted_map, has_key, lex_le, lex_le_from, ordered_by_key, slot_for, sort_by_key,
    sorted_by_key, text_le, Keyed,
};
use crate::paths::{extension, extension_of, file_name, file_name_of};
use crate::mimetypes::{mime_error_text, MimeError};
use crate::season::{derive_season_number, derived_season};
use crate::text::{chars_of, contains, contains_text, lowercase_of, quote, quoted, tool_prefix};

verus! {

/// One child of a directory, as a listing of the directory shows it.
#[derive(Clone, Debug, PartialEq, Eq)]
pub struct Entry {
    /// The path of the child.
    pub path: String,
    /// Whether the child is a directory.
    pub is_dir: bool,
    /// Whether the child is a regular file.
    pub is_file: bool,
}

/// An entry as a mathematical value.
pub ghost struct EntryView {
    pub path: Seq<char>,
    pub is_dir: bool,
    pub is_file: bool,
}

impl DeepView for Entry {
    type V = EntryView;

    open spec fn deep_view(&self) -> EntryView {
        EntryView { path: self.path@, is_dir: self.is_dir, is_file: self.is_file }
    }
}

/// The episodes of one season, in the order in which they are numbered.
#[derive(Clone, Debug, PartialEq, Eq)]
pub struct Season {
    /// The number of the season.
    pub season_no: u8,
    /// The paths of the episodes.
    pub episodes: Vec<String>,
}

/// A season as a mathematical value.
pub ghost struct SeasonView {
    pub season_no: u8,
    pub episodes: Seq<Seq<char>>,
}

impl DeepView for Season {
    type V = SeasonView;

    open spec fn deep_view(&self) -> SeasonView {
        SeasonView { season_no: self.season_no, episodes: self.episodes.deep_view() }
    }
}

/// A directory that holds one season.
#[derive(Clone, Debug, PartialEq, Eq)]
pub struct SeasonDir {
    /// The number of the season.
    pub season_no: u8,
    /// The path of the directory.
    pub path: String,
}

/// A season directory as a mathematical value.
pub ghost struct SeasonDirView {
    pub season_no: u8,
    pub path: Seq<char>,
}

impl DeepView for SeasonDir {
    type V = SeasonDirView;

    open spec fn deep_view(&self) -> SeasonDirView {
        SeasonDirView { season_no: self.season_no, path: self.path@ }
    }
}

/// What a directory was found to hold.
#[derive(Clone, Debug, PartialEq, Eq)]
pub enum ScanDir {
    /// The directory holds the episodes of one season.
    Episodes(Season),
    /// The directory holds one directory for each season.
    Seasons(Vec<Season>),
}

/// A scan result as a mathematical value.
pub ghost enum ScanDirView {
    Episodes(SeasonView),
    Seasons(Seq<SeasonView>),
}

impl DeepView for ScanDir {
    type V = ScanDirView;

    open spec fn deep_view(&self) -> ScanDirView {
        match self {
            ScanDir::Episodes(season) => ScanDirView::Episodes(season.deep_view()),
            ScanDir::Seasons(seasons) => ScanDirView::Seasons(seasons.deep_view()),
        }
    }
}

/// Whether an entry is a video: a regular file whose extension is, letter for
/// letter, one of `extensions`.
pub open spec fn is_video(entry: EntryView, extensions: Seq<Seq<char>>) -> bool {
    entry.is_file && match extension_of(entry.path) {
        Some(ending) => extensions.contains(ending),
        None => false,
    }
}

/// The paths of the videos among `entries`, in the order of the listing.
pub open spec fn video_paths(entries: Seq<EntryView>, extensions: Seq<Seq<char>>) -> Seq<
    Seq<char>,
>
    decreases entries.len(),
{
    if entries.len() == 0 {
        Seq::empty()
    } else if is_video(entries.last(), extensions) {
        video_paths(entries.drop_last(), extensions).push(entries.last().path)
    } else {
        video_paths(entries.drop_last(), extensions)
    }
}

/// The key that orders paths without regard to case.
pub open spec fn by_lowercase() -> spec_fn(Seq<char>) -> Seq<int> {
    |path: Seq<char>| codes(lowercase_of(path))
}

/// The key that orders paths as they are written.
pub open spec fn by_path() -> spec_fn(Seq<char>) -> Seq<int> {
    |path: Seq<char>| codes(path)
}

/// The key that orders seasons by their number.
pub open spec fn by_number() -> spec_fn(SeasonView) -> Seq<int> {
    |season: SeasonView| seq![season.season_no as int]
}

/// The episodes that a listing holds: its videos, ordered by their paths
/// without regard to case.
pub open spec fn episodes_of(entries: Seq<EntryView>, extensions: Seq<Seq<char>>) -> Seq<
    Seq<char>,
> {
    sorted_by_key(video_paths(entries, extensions), by_lowercase())
}

/// Whether an entry is a directory with `season` in its name, in whatever
/// case.
pub open spec fn names_season(entry: EntryView) -> bool {
    entry.is_dir && match file_name_of(entry.path) {
        Some(name) => contains(lowercase_of(name), "season"@),
        None => false,
    }
}

/// Whether a listing holds a directory that names a season, which makes the
/// listed directory one that holds seasons.
pub open spec fn holds_seasons(entries: Seq<EntryView>) -> bool {
    exists|i: int| 0 <= i < entries.len() && names_season(#[trigger] entries[i])
}

/// The paths of the directories among `entries`, in the order of the listing.
pub open spec fn directory_paths(entries: Seq<EntryView>) -> Seq<Seq<char>>
    decreases entries.len(),
{
    if entries.len() == 0 {
        Seq::empty()
    } else if entries.last().is_dir {
        directory_paths(entries.drop_last()).push(entries.last().path)
    } else {
        directory_paths(entries.drop_last())
    }
}

/// Those of `paths` whose names give a season number, each with its number.
pub open spec fn numbered(paths: Seq<Seq<char>>) -> Seq<SeasonDirView>
    decreases paths.len(),
{
    if paths.len() == 0 {
        Seq::empty()
    } else {
        match derived_season(paths.last()) {
            Some(number) => numbered(paths.drop_last()).push(
                SeasonDirView { season_no: number, path: paths.last() },
            ),
            None => numbered(paths.drop_last()),
        }
    }
}

/// The season directories that a listing holds: its directories in the order
/// of their paths, without those whose names give no season number.
pub open spec fn season_directories_of(entries: Seq<EntryView>) -> Seq<SeasonDirView> {
    numbered(sorted_by_key(directory_paths(entries), by_path()))
}

/// The seasons in the order of their numbers; seasons with the same number
/// keep the order in which they stood.
pub open spec fn seasons_in_order(seasons: Seq<SeasonView>) -> Seq<SeasonView> {
    sorted_by_key(seasons, by_number())
}

/// The videos of a listing that is made of two parts are the videos of the
/// one part and then those of the other.
pub proof fn lemma_video_paths_add(
    one: Seq<EntryView>,
    other: Seq<EntryView>,
    extensions: Seq<Seq<char>>,
)
    ensures
        video_paths(one + other, extensions) == video_paths(one, extensions) + video_paths(
            other,
            extensions,
        ),
    decreases other.len(),
{
    if other.len() == 0 {
        assert(one + other == one);
        assert(video_paths(one, extensions) + Seq::<Seq<char>>::empty() == video_paths(
            one,
            extensions,
        ));
    } else {
        lemma_video_paths_add(one, other.drop_last(), extensions);
        assert((one + other).drop_last() == one + other.drop_last());
        assert((one + other).last() == other.last());
        if is_video(other.last(), extensions) {
            assert((video_paths(one, extensions) + video_paths(other.drop_last(), extensions)).push(
                other.last().path,
            ) == video_paths(one, extensions) + video_paths(other.drop_last(), extensions).push(
                other.last().path,
            ));
        }
    }
}

/// Listings that hold the same entries hold the same videos, in whatever
/// order either lists them.
pub proof fn lemma_same_entries_same_videos(
    one: Seq<EntryView>,
    other: Seq<EntryView>,
    extensions: Seq<Seq<char>>,
)
    requires
        one.to_multiset() == other.to_multiset(),
    ensures
        video_paths(one, extensions).to_multiset() == video_paths(other, extensions).to_multiset(),
    decreases one.len(),
{
    broadcast use vstd::seq_lib::group_to_multiset_ensures;
    broadcast use vstd::seq_lib::lemma_multiset_commutative;

    assert(one.len() == other.len()) by {
        assert(one.to_multiset().len() == one.len());
        assert(other.to_multiset().len() == other.len());
    }
    if one.len() > 0 {
        let entry = one.last();
        assert(one.contains(entry));
        assert(other.to_multiset().count(entry) > 0);
        assert(other.contains(entry));
        let at = choose|at: int| 0 <= at < other.len() && other[at] == entry;
        let one_rest = one.drop_last();
        let other_rest = other.remove(at);
        assert(one_rest == one.remove(one.len() - 1));
        assert(one_rest.to_multiset() == other_rest.to_multiset());
        lemma_same_entries_same_videos(one_rest, other_rest, extensions);
        let head = other.take(at);
        let tail = other.skip(at + 1);
        let single = seq![entry];
        assert(other == head + single + tail);
        assert(other_rest == head + tail);
        assert(one == one_rest + single);
        lemma_video_paths_add(head + single, tail, extensions);
        lemma_video_paths_add(head, single, extensions);
        lemma_video_paths_add(head, tail, extensions);
        lemma_video_paths_add(one_rest, single, extensions);
        let found = video_paths(single, extensions);
        assert(video_paths(other, extensions).to_multiset() == video_paths(
            head,
            extensions,
        ).to_multiset().add(found.to_multiset()).add(video_paths(tail, extensions).to_multiset()));
        assert(video_paths(other_rest, extensions).to_multiset() == video_paths(
            head,
            extensions,
        ).to_multiset().add(video_paths(tail, extensions).to_multiset()));
        assert(video_paths(one, extensions).to_multiset() == video_paths(
            one_rest,
            extensions,
        ).to_multiset().add(found.to_multiset()));
    } else {
        assert(other == Seq::<EntryView>::empty());
    }
}

/// The episodes of a listing are its videos, each as often as the listing
/// holds it, in an order in which no path stands before one that precedes it
/// when case is left aside. Videos whose paths differ in case only keep the
/// order of the listing.
pub proof fn lemma_episodes_of(entries: Seq<EntryView>, extensions: Seq<Seq<char>>, rank: Seq<int>)
    ensures
        episodes_of(entries, extensions).to_multiset() == video_paths(
            entries,
            extensions,
        ).to_multiset(),
        ordered_by_key(episodes_of(entries, extensions), by_lowercase()),
        episodes_of(entries, extensions).filter(has_key(by_lowercase(), rank)) == video_paths(
            entries,
            extensions,
        ).filter(has_key(by_lowercase(), rank)),
{
    lemma_sorted(video_paths(entries, extensions), by_lowercase());
    lemma_sorted_is_stable(video_paths(entries, extensions), by_lowercase(), rank);
}

/// The episodes of a listing are its videos in the one order in which no
/// path stands before one that precedes it when case is left aside: whoever
/// has the videos in such an order, none of them like another but for case,
/// has the episodes.
pub proof fn lemma_episodes_are_the_ordered_videos(
    entries: Seq<EntryView>,
    extensions: Seq<Seq<char>>,
    expected: Seq<Seq<char>>,
)
    requires
        expected.to_multiset() == video_paths(entries, extensions).to_multiset(),
        ordered_by_key(expected, by_lowercase()),
        keys_differ(expected, by_lowercase()),
    ensures
        episodes_of(entries, extensions) == expected,
{
    lemma_sorted(video_paths(entries, extensions), by_lowercase());
    lemma_ordered_is_unique(expected, episodes_of(entries, extensions), by_lowercase());
}

/// Two scans of a directory that has not changed give the same episodes in
/// the same order, in whatever order the directory is listed each time, as
/// long as no two of its videos have paths that differ in case only.
pub proof fn lemma_rescan_gives_same_episodes(
    first: Seq<EntryView>,
    second: Seq<EntryView>,
    extensions: Seq<Seq<char>>,
)
    requires
        first.to_multiset() == second.to_multiset(),
        keys_differ(video_paths(first, extensions), by_lowercase()),
    ensures
        episodes_of(first, extensions) == episodes_of(second, extensions),
{
    lemma_same_entries_same_videos(first, second, extensions);
    lemma_sorted_in_any_order(
        video_paths(first, extensions),
        video_paths(second, extensions),
        by_lowercase(),
    );
}

/// The seasons in order are the seasons that were given, each as often as
/// it was given, with numbers that never go down; seasons with the same
/// number stand as they stood.
pub proof fn lemma_seasons_in_order(seasons: Seq<SeasonView>, number: u8)
    ensures
        seasons_in_order(seasons).to_multiset() == seasons.to_multiset(),
        forall|i: int, j: int|
            0 <= i < j < seasons_in_order(seasons).len() ==> (#[trigger] seasons_in_order(
                seasons,
            )[i]).season_no <= (#[trigger] seasons_in_order(seasons)[j]).season_no,
        seasons_in_order(seasons).filter(has_key(by_number(), seq![number as int]))
            == seasons.filter(has_key(by_number(), seq![number as int])),
{
    lemma_sorted(seasons, by_number());
    lemma_sorted_is_stable(seasons, by_number(), seq![number as int]);
    let ordered = seasons_in_order(seasons);
    assert forall|i: int, j: int| 0 <= i < j < ordered.len() implies (#[trigger] ordered[
        i
    ]).season_no <= (#[trigger] ordered[j]).season_no by {
        assert(lex_le(by_number()(ordered[i]), by_number()(ordered[j])));
        reveal_with_fuel(lex_le_from, 3);
    }
}

/// A path with the text by which it is put in order.
#[derive(Debug, PartialEq, Eq)]
pub struct Ranked {
    /// The text that decides the place of the path: for an episode the
    /// lowercase form of its path.
    pub rank: Vec<char>,
    /// The path.
    pub path: String,
}

impl Keyed for Ranked {
    open spec fn key(&self) -> Seq<int> {
        codes(self.rank@)
    }

    fn no_later_than(&self, other: &Self) -> (le: bool) {
        text_le(&self.rank, &other.rank)
    }
}

impl Keyed for Season {
    open spec fn key(&self) -> Seq<int> {
        seq![self.season_no as int]
    }

    fn no_later_than(&self, other: &Self) -> (le: bool) {
        proof {
            reveal_with_fuel(lex_le_from, 3);
        }
        self.season_no <= other.season_no
    }
}

/// The path of a ranked path, as text.
pub open spec fn path_of() -> spec_fn(Ranked) -> Seq<char> {
    |ranked: Ranked| ranked.path@
}

/// The paths in the order of the texts by which they are ranked, the texts
/// compared by their code points. Paths with the same rank keep the order in
/// which they stood.
pub open spec fn ordered_paths(ranked: Seq<Ranked>) -> Seq<Seq<char>> {
    sorted_by_key(ranked, key_of::<Ranked>()).map_values(path_of())
}

/// Finds the place at which `ending` stands, letter for letter, among
/// `extensions`.
fn place_of(ending: &String, extensions: &Vec<String>) -> (place: Option<usize>)
    ensures
        place is Some == extensions.deep_view().contains(ending@),
        place matches Some(at) ==> at < extensions.len() && extensions[at as int]@ == ending@,
{
    let mut at: usize = 0;
    while at < extensions.len()
        invariant
            at <= extensions.len(),
            forall|i: int| 0 <= i < at ==> extensions.deep_view()[i] != ending@,
        decreases extensions.len() - at,
    {
        if *ending == extensions[at] {
            assert(extensions.deep_view()[at as int] == ending@);
            return Some(at);
        }
        at += 1;
    }
    None
}

/// Takes the paths out of ranked paths, in their order.
fn paths_in_order(ranked: Vec<Ranked>) -> (paths: Vec<String>)
    ensures
        paths.deep_view() == ranked@.map_values(path_of()),
{
    let ghost all = ranked@;
    let mut paths: Vec<String> = Vec::new();
    for item in it: ranked
        invariant
            it.seq() == all,
            paths.deep_view() == all.take(it.index() as int).map_values(path_of()),
    {
        let ghost before = paths.deep_view();
        paths.push(item.path);
        assert(paths.deep_view() == before.push(item.path@));
        assert(all.take(it.index() + 1) == all.take(it.index() as int).push(item));
    }
    assert(all.take(all.len() as int) == all);
    paths
}

/// Puts paths in the order of the texts by which they are ranked. This is
/// how episodes are ordered, each ranked by the lowercase form of its path.
pub fn order_paths(ranked: Vec<Ranked>) -> (paths: Vec<String>)
    ensures
        paths.deep_view() == ordered_paths(ranked@),
{
    paths_in_order(sort_by_key(ranked))
}

/// Collects the episodes that a listing holds: the regular files whose
/// extension is one of `extensions`, ordered by their paths without regard to
/// case. Everything else in the listing is passed over.
pub fn get_episodes(entries: &Vec<Entry>, extensions: &Vec<String>, season_no: u8) -> (season:
    Season)
    ensures
        season.season_no == season_no,
        season.episodes.deep_view() == episodes_of(entries.deep_view(), extensions.deep_view()),
{
    let ghost listing = entries.deep_view();
    let ghost endings = extensions.deep_view();
    // The files of a season mostly share one extension, so the extension that
    // matched last is tried first.
    let mut last_matched: Option<usize> = None;
    let mut ranked: Vec<Ranked> = Vec::new();
    let mut at: usize = 0;
    while at < entries.len()
        invariant
            at <= entries.len(),
            listing == entries.deep_view(),
            endings == extensions.deep_view(),
            last_matched matches Some(place) ==> place < extensions.len(),
            ranked@.map_values(path_of()) == video_paths(listing.take(at as int), endings),
            forall|i: int|
                0 <= i < ranked.len() ==> (#[trigger] ranked@[i]).rank@ == lowercase_of(
                    ranked@[i].path@,
                ),
        decreases entries.len() - at,
    {
        let entry = &entries[at];
        let ghost before = ranked@;
        proof {
            assert(listing.take(at + 1).drop_last() == listing.take(at as int));
            assert(listing.take(at + 1).last() == entry.deep_view());
        }
        let mut keep = false;
        if entry.is_file {
            match extension(entry.path.as_str()) {
                Some(ending) => {
                    let again = match last_matched {
                        Some(place) => ending == extensions[place],
                        None => false,
                    };
                    if again {
                        assert(endings[last_matched->0 as int] == ending@);
                        keep = true;
                    } else {
                        match place_of(&ending, extensions) {
                            Some(place) => {
                                last_matched = Some(place);
                                keep = true;
                            },
                            None => {},
                        }
                    }
                },
                None => {},
            }
        }
        assert(keep == is_video(entry.deep_view(), endings));
        if keep {
            let lower = entry.path.as_str().to_lowercase();
            let item = Ranked { rank: chars_of(lower.as_str()), path: entry.path.clone() };
            ranked.push(item);
            assert(ranked@.map_values(path_of()) == before.map_values(path_of()).push(
                entry.path@,
            ));
        }
        at += 1;
    }
    assert(listing.take(entries.len() as int) == listing);
    proof {
        assert forall|i: int| 0 <= i < ranked.len() implies key_of::<Ranked>()(
            #[trigger] ranked@[i],
        ) == by_lowercase()(path_of()(ranked@[i])) by {}
        lemma_sorted_map(ranked@, key_of::<Ranked>(), path_of(), by_lowercase());
    }
    Season { season_no: season_no, episodes: order_paths(ranked) }
}

/// Tells whether a listing holds a directory that names a season.
pub fn contains_seasons(entries: &Vec<Entry>) -> (found: bool)
    ensures
        found == holds_seasons(entries.deep_view()),
{
    let ghost listing = entries.deep_view();
    let word = chars_of("season");
    let mut at: usize = 0;
    while at < entries.len()
        invariant
            at <= entries.len(),
            listing == entries.deep_view(),
            word@ == "season"@,
            forall|i: int| 0 <= i < at ==> !names_season(#[trigger] listing[i]),
        decreases entries.len() - at,
    {
        let entry = &entries[at];
        assert(listing[at as int] == entry.deep_view());
        if entry.is_dir {
            match file_name(entry.path.as_str()) {
                Some(name) => {
                    let lower = chars_of(name.as_str().to_lowercase().as_str());
                    if contains_text(&lower, &word) {
                        assert(names_season(listing[at as int]));
                        return true;
                    }
                },
                None => {},
            }
        }
        at += 1;
    }
    false
}

/// The season directories that a listing holds: its directories in the order
/// of their paths, without those whose names give no season number.
pub fn season_directories(entries: &Vec<Entry>) -> (directories: Vec<SeasonDir>)
    ensures
        directories.deep_view() == season_directories_of(entries.deep_view()),
{
    let ghost listing = entries.deep_view();
    let mut ranked: Vec<Ranked> = Vec::new();
    let mut at: usize = 0;
    while at < entries.len()
        invariant
            at <= entries.len(),
            listing == entries.deep_view(),
            ranked@.map_values(path_of()) == directory_paths(listing.take(at as int)),
            forall|i: int|
                0 <= i < ranked.len() ==> (#[trigger] ranked@[i]).rank@ == ranked@[i].path@,
        decreases entries.len() - at,
    {
        let entry = &entries[at];
        let ghost before = ranked@;
        proof {
            assert(listing.take(at + 1).drop_last() == listing.take(at as int));
            assert(listing.take(at + 1).last() == entry.deep_view());
        }
        if entry.is_dir {
            let item = Ranked { rank: chars_of(entry.path.as_str()), path: entry.path.clone() };
            ranked.push(item);
            assert(ranked@.map_values(path_of()) == before.map_values(path_of()).push(
                entry.path@,
            ));
        }
        at += 1;
    }
    assert(listing.take(entries.len() as int) == listing);
    proof {
        assert forall|i: int| 0 <= i < ranked.len() implies key_of::<Ranked>()(
            #[trigger] ranked@[i],
        ) == by_path()(path_of()(ranked@[i])) by {}
        lemma_sorted_map(ranked@, key_of::<Ranked>(), path_of(), by_path());
    }
    let paths = order_paths(ranked);
    let ghost texts = paths.deep_view();
    let mut directories: Vec<SeasonDir> = Vec::new();
    let mut next: usize = 0;
    assert(directories.deep_view() == Seq::<SeasonDirView>::empty());
    while next < paths.len()
        invariant
            next <= paths.len(),
            texts == paths.deep_view(),
            directories.deep_view() == numbered(texts.take(next as int)),
        decreases paths.len() - next,
    {
        let ghost before = directories.deep_view();
        proof {
            assert(texts.take(next + 1).drop_last() == texts.take(next as int));
            assert(texts.take(next + 1).last() == paths[next as int]@);
        }
        match derive_season_number(paths[next].as_str()) {
            Some(number) => {
                directories.push(SeasonDir { season_no: number, path: paths[next].clone() });
                assert(directories.deep_view() == before.push(
                    SeasonDirView { season_no: number, path: paths[next as int]@ },
                ));
            },
            None => {},
        }
        next += 1;
    }
    assert(texts.take(paths.len() as int) == texts);
    directories
}

/// A season as a mathematical value, for every season.
pub open spec fn season_view() -> spec_fn(Season) -> SeasonView {
    |season: Season| season.deep_view()
}

/// Puts the seasons in the order of their numbers. Seasons with the same
/// number keep the order in which they came.
pub fn get_seasons(seasons: Vec<Season>) -> (ordered: Vec<Season>)
    ensures
        ordered.deep_view() == seasons_in_order(seasons.deep_view()),
{
    let ghost unsorted = seasons@;
    let ordered = sort_by_key(seasons);
    proof {
        assert forall|i: int| 0 <= i < unsorted.len() implies key_of::<Season>()(
            #[trigger] unsorted[i],
        ) == by_number()(season_view()(unsorted[i])) by {}
        lemma_sorted_map(unsorted, key_of::<Season>(), season_view(), by_number());
        assert(ordered.deep_view() == ordered@.map_values(season_view()));
        assert(seasons.deep_view() == unsorted.map_values(season_view()));
    }
    ordered
}

/// What the listing of a directory gave.
#[derive(Clone, Debug, PartialEq, Eq)]
pub enum Listing {
    /// The children of the directory.
    Entries(Vec<Entry>),
    /// The directory could not be listed.
    Unreadable,
    /// One of its entries could not be read.
    InvalidEntry,
}

/// A listing as a mathematical value.
pub ghost enum ListingView {
    Entries(Seq<EntryView>),
    Unreadable,
    InvalidEntry,
}

impl DeepView for Listing {
    type V = ListingView;

    open spec fn deep_view(&self) -> ListingView {
        match self {
            Listing::Entries(entries) => ListingView::Entries(entries.deep_view()),
            Listing::Unreadable => ListingView::Unreadable,
            Listing::InvalidEntry => ListingView::InvalidEntry,
        }
    }
}

/// Why a scan failed.
#[derive(Clone, Debug, PartialEq, Eq)]
pub enum ReadDirError {
    /// The directory of this path could not be listed.
    UnableToReadDir(String),
    /// An entry of the directory of this path could not be read.
    InvalidDirEntry(String),
    /// The list of video extensions could not be had.
    MimeError(MimeError),
}

/// A scan failure as a mathematical value.
pub ghost enum ReadDirErrorView {
    UnableToReadDir(Seq<char>),
    InvalidDirEntry(Seq<char>),
    MimeError(MimeError),
}

impl DeepView for ReadDirError {
    type V = ReadDirErrorView;

    open spec fn deep_view(&self) -> ReadDirErrorView {
        match self {
            ReadDirError::UnableToReadDir(path) => ReadDirErrorView::UnableToReadDir(path@),
            ReadDirError::InvalidDirEntry(path) => ReadDirErrorView::InvalidDirEntry(path@),
            ReadDirError::MimeError(why) => ReadDirErrorView::MimeError(*why),
        }
    }
}

/// What is said of a failed scan, behind the name of the program.
pub open spec fn read_dir_error_text(why: ReadDirErrorView) -> Seq<char> {
    match why {
        ReadDirErrorView::UnableToReadDir(path) => "unable to read "@ + quoted(path)
            + " directory."@,
        ReadDirErrorView::InvalidDirEntry(path) => "unable to read entry in "@ + quoted(path)
            + "."@,
        ReadDirErrorView::MimeError(why) =>
            "error obtaining video extensions from /usr/share/mime/video: "@ + mime_error_text(
                why,
            ),
    }
}

impl ReadDirError {
    /// The message that tells the operator of the failure. It begins with the
    /// name of the program.
    pub fn message(&self) -> (text: String)
        ensures
            text@ == tool_prefix() + read_dir_error_text(self.deep_view()),
    {
        let mut text = String::new();
        text.append("tv-renamer: ");
        let ghost front = text@;
        match self {
            ReadDirError::UnableToReadDir(path) => {
                text.append("unable to read ");
                text.append(quote(path.as_str()).as_str());
                text.append(" directory.");
            },
            ReadDirError::InvalidDirEntry(path) => {
                text.append("unable to read entry in ");
                text.append(quote(path.as_str()).as_str());
                text.append(".");
            },
            ReadDirError::MimeError(why) => {
                text.append("error obtaining video extensions from /usr/share/mime/video: ");
                text.append(why.message().as_str());
            },
        }
        assert(text@ == front + read_dir_error_text(self.deep_view()));
        text
    }
}

/// A scan that waits for the listing of one directory.
pub struct Scanner {
    directory: String,
    season_no: u8,
    in_season: bool,
    extensions: Result<Vec<String>, MimeError>,
    pending: Vec<SeasonDir>,
    next: usize,
    collected: Vec<Season>,
}

/// A waiting scan as a mathematical value.
pub ghost struct ScannerView {
    /// The directory whose listing the scan waits for.
    pub directory: Seq<char>,
    /// The number of the season whose episodes that directory holds, if it
    /// holds episodes.
    pub season_no: u8,
    /// Whether that directory is the directory of one season among others.
    pub in_season: bool,
    /// The video extensions, or the reason why they could not be had.
    pub extensions: Result<Seq<Seq<char>>, MimeError>,
    /// The season directories that are to be listed after that directory.
    pub pending: Seq<SeasonDirView>,
    /// The seasons that were collected so far.
    pub collected: Seq<SeasonView>,
}

/// What a scan does after a listing.
pub enum ScanStep {
    /// It waits for the listing of a further directory.
    Next(Scanner),
    /// It has ended with this result.
    Done(ScanDir),
    /// It has failed.
    Failed(ReadDirError),
}

/// A step of a scan as a mathematical value.
pub ghost enum ScanStepView {
    Next(ScannerView),
    Done(ScanDirView),
    Failed(ReadDirErrorView),
}

/// The extensions as texts.
pub open spec fn extensions_view(extensions: Result<Vec<String>, MimeError>) -> Result<
    Seq<Seq<char>>,
    MimeError,
> {
    match extensions {
        Ok(list) => Ok(list.deep_view()),
        Err(why) => Err(why),
    }
}

impl DeepView for Scanner {
    type V = ScannerView;

    closed spec fn deep_view(&self) -> ScannerView {
        ScannerView {
            directory: self.directory@,
            season_no: self.season_no,
            in_season: self.in_season,
            extensions: extensions_view(self.extensions),
            pending: self.pending.deep_view().skip(self.next as int),
            collected: self.collected.deep_view(),
        }
    }
}

impl DeepView for ScanStep {
    type V = ScanStepView;

    open spec fn deep_view(&self) -> ScanStepView {
        match self {
            ScanStep::Next(scanner) => ScanStepView::Next(scanner.deep_view()),
            ScanStep::Done(found) => ScanStepView::Done(found.deep_view()),
            ScanStep::Failed(why) => ScanStepView::Failed(why.deep_view()),
        }
    }
}

/// The scan of `directory` before anything was listed: it waits for the
/// listing of `directory` itself.
pub open spec fn scan_start(
    directory: Seq<char>,
    season_no: u8,
    extensions: Result<Seq<Seq<char>>, MimeError>,
) -> ScannerView {
    ScannerView {
        directory: directory,
        season_no: season_no,
        in_season: false,
        extensions: extensions,
        pending: Seq::empty(),
        collected: Seq::empty(),
    }
}

/// What a scan does when nothing is left to do for the directory it waited
/// for: it ends with the collected seasons in the order of their numbers if
/// no season directory is left, fails if one is left and the video extensions
/// could not be had, and else waits for the listing of the next one.
pub open spec fn scan_on(scan: ScannerView) -> ScanStepView {
    if scan.pending.len() == 0 {
        ScanStepView::Done(ScanDirView::Seasons(seasons_in_order(scan.collected)))
    } else {
        match scan.extensions {
            Err(why) => ScanStepView::Failed(ReadDirErrorView::MimeError(why)),
            Ok(_) => ScanStepView::Next(
                ScannerView {
                    directory: scan.pending.first().path,
                    season_no: scan.pending.first().season_no,
                    in_season: true,
                    pending: scan.pending.drop_first(),
                    ..scan
                },
            ),
        }
    }
}

/// What a scan does with the listing it waited for.
///
/// A directory that could not be listed, or an entry that could not be read,
/// makes the scan fail. The listing of a season directory adds the season with
/// its episodes. The listing of the scanned directory itself decides: where it
/// holds a directory that names a season, the season directories are listed
/// one by one; where it holds none, its own episodes are the result. Episodes
/// cannot be told without the video extensions: the scan fails where they
/// could not be had.
pub open spec fn scan_step(scan: ScannerView, listing: ListingView) -> ScanStepView {
    match listing {
        ListingView::Unreadable => ScanStepView::Failed(
            ReadDirErrorView::UnableToReadDir(scan.directory),
        ),
        ListingView::InvalidEntry => ScanStepView::Failed(
            ReadDirErrorView::InvalidDirEntry(scan.directory),
        ),
        ListingView::Entries(entries) => if !scan.in_season && holds_seasons(entries) {
            scan_on(ScannerView { pending: season_directories_of(entries), ..scan })
        } else {
            match scan.extensions {
                Err(why) => ScanStepView::Failed(ReadDirErrorView::MimeError(why)),
                Ok(extensions) => {
                    let season = SeasonView {
                        season_no: scan.season_no,
                        episodes: episodes_of(entries, extensions),
                    };
                    if scan.in_season {
                        scan_on(ScannerView { collected: scan.collected.push(season), ..scan })
                    } else {
                        ScanStepView::Done(ScanDirView::Episodes(season))
                    }
                },
            }
        },
    }
}

/// The seasons that are found when the directories are listed one by one:
/// those in `found`, and then one for each directory with the episodes in its
/// listing. The first directory that cannot be listed, or holds an entry that
/// cannot be read, ends the work with its failure. `tree` says what the
/// listing of each directory gives.
pub open spec fn gathered(
    tree: spec_fn(Seq<char>) -> ListingView,
    directories: Seq<SeasonDirView>,
    extensions: Seq<Seq<char>>,
    found: Seq<SeasonView>,
) -> Result<Seq<SeasonView>, ReadDirErrorView>
    decreases directories.len(),
{
    if directories.len() == 0 {
        Ok(found)
    } else {
        let next = directories.first();
        match tree(next.path) {
            ListingView::Unreadable => Err(ReadDirErrorView::UnableToReadDir(next.path)),
            ListingView::InvalidEntry => Err(ReadDirErrorView::InvalidDirEntry(next.path)),
            ListingView::Entries(entries) => gathered(
                tree,
                directories.drop_first(),
                extensions,
                found.push(
                    SeasonView {
                        season_no: next.season_no,
                        episodes: episodes_of(entries, extensions),
                    },
                ),
            ),
        }
    }
}

/// The seasons in the order of their numbers, if there are any.
pub open spec fn in_order(found: Result<Seq<SeasonView>, ReadDirErrorView>) -> Result<
    ScanDirView,
    ReadDirErrorView,
> {
    match found {
        Ok(seasons) => Ok(ScanDirView::Seasons(seasons_in_order(seasons))),
        Err(why) => Err(why),
    }
}

/// What the scan of `directory` finds in a tree of directories.
///
/// The listing of `directory` decides. Where it holds a directory that names
/// a season, the result is one season for each of its season directories,
/// with the episodes in the listing of that directory, in the order of the
/// season numbers. Where it holds none, the result is the episodes in the
/// listing itself, as season `season_no`. The scan fails where a directory
/// that it lists cannot be listed or holds an entry that cannot be read, and
/// where it has to tell episodes and the video extensions could not be had.
pub open spec fn scanned(
    tree: spec_fn(Seq<char>) -> ListingView,
    directory: Seq<char>,
    season_no: u8,
    extensions: Result<Seq<Seq<char>>, MimeError>,
) -> Result<ScanDirView, ReadDirErrorView> {
    match tree(directory) {
        ListingView::Unreadable => Err(ReadDirErrorView::UnableToReadDir(directory)),
        ListingView::InvalidEntry => Err(ReadDirErrorView::InvalidDirEntry(directory)),
        ListingView::Entries(entries) => if holds_seasons(entries) {
            let directories = season_directories_of(entries);
            if directories.len() == 0 {
                in_order(Ok(Seq::empty()))
            } else {
                match extensions {
                    Err(why) => Err(ReadDirErrorView::MimeError(why)),
                    Ok(endings) => in_order(gathered(tree, directories, endings, Seq::empty())),
                }
            }
        } else {
            match extensions {
                Err(why) => Err(ReadDirErrorView::MimeError(why)),
                Ok(endings) => Ok(
                    ScanDirView::Episodes(
                        SeasonView {
                            season_no: season_no,
                            episodes: episodes_of(entries, endings),
                        },
                    ),
                ),
            }
        },
    }
}

/// How a scan ends when every directory that it waits for is listed as
/// `tree` says, if it ends within `steps` further listings after the first.
pub open spec fn finished(
    scan: ScannerView,
    tree: spec_fn(Seq<char>) -> ListingView,
    steps: nat,
) -> Option<Result<ScanDirView, ReadDirErrorView>>
    decreases steps,
{
    match scan_step(scan, tree(scan.directory)) {
        ScanStepView::Done(found) => Some(Ok(found)),
        ScanStepView::Failed(why) => Some(Err(why)),
        ScanStepView::Next(next) => if steps == 0 {
            None
        } else {
            finished(next, tree, (steps - 1) as nat)
        },
    }
}

/// A scan that waits for the listing of a season directory ends after as
/// many further listings as season directories are left, with the seasons
/// that are gathered from that directory and those that are left.
proof fn lemma_finished_in_season(
    scan: ScannerView,
    tree: spec_fn(Seq<char>) -> ListingView,
    endings: Seq<Seq<char>>,
    steps: nat,
)
    requires
        scan.in_season,
        scan.extensions == Ok::<Seq<Seq<char>>, MimeError>(endings),
        steps >= scan.pending.len(),
    ensures
        finished(scan, tree, steps) == Some(
            in_order(
                gathered(
                    tree,
                    seq![SeasonDirView { season_no: scan.season_no, path: scan.directory }]
                        + scan.pending,
                    endings,
                    scan.collected,
                ),
            ),
        ),
    decreases scan.pending.len(),
{
    let here = SeasonDirView { season_no: scan.season_no, path: scan.directory };
    let all = seq![here] + scan.pending;
    assert(all.first() == here);
    assert(all.drop_first() == scan.pending);
    match tree(scan.directory) {
        ListingView::Entries(entries) => {
            let season = SeasonView {
                season_no: scan.season_no,
                episodes: episodes_of(entries, endings),
            };
            let found = scan.collected.push(season);
            assert(gathered(tree, all, endings, scan.collected) == gathered(
                tree,
                scan.pending,
                endings,
                found,
            ));
            if scan.pending.len() == 0 {
                assert(gathered(tree, scan.pending, endings, found) == Ok::<
                    Seq<SeasonView>,
                    ReadDirErrorView,
                >(found));
            }
            if scan.pending.len() > 0 {
                let next = ScannerView {
                    directory: scan.pending.first().path,
                    season_no: scan.pending.first().season_no,
                    in_season: true,
                    pending: scan.pending.drop_first(),
                    collected: found,
                    ..scan
                };
                assert(seq![
                    SeasonDirView { season_no: next.season_no, path: next.directory },
                ] + next.pending == scan.pending);
                lemma_finished_in_season(next, tree, endings, (steps - 1) as nat);
                assert(scan_step(scan, tree(scan.directory)) == ScanStepView::Next(next));
                assert(finished(scan, tree, steps) == finished(next, tree, (steps - 1) as nat));
            }
        },
        _ => {},
    }
}

/// Listing by listing, a scan finds what the tree holds: it ends after one
/// listing for the directory and one for each of its season directories at
/// most, and with the result that `scanned` describes.
pub proof fn lemma_scan_finds_what_is_there(
    tree: spec_fn(Seq<char>) -> ListingView,
    directory: Seq<char>,
    season_no: u8,
    extensions: Result<Seq<Seq<char>>, MimeError>,
    steps: nat,
)
    requires
        tree(directory) matches ListingView::Entries(entries) ==> steps >= season_directories_of(
            entries,
        ).len(),
    ensures
        finished(scan_start(directory, season_no, extensions), tree, steps) == Some(
            scanned(tree, directory, season_no, extensions),
        ),
{
    let start = scan_start(directory, season_no, extensions);
    match tree(directory) {
        ListingView::Entries(entries) => {
            if holds_seasons(entries) {
                let directories = season_directories_of(entries);
                if directories.len() > 0 {
                    match extensions {
                        Ok(endings) => {
                            let next = ScannerView {
                                directory: directories.first().path,
                                season_no: directories.first().season_no,
                                in_season: true,
                                pending: directories.drop_first(),
                                ..start
                            };
                            assert(steps >= 1);
                            lemma_finished_in_season(next, tree, endings, (steps - 1) as nat);
                            assert(seq![
                                SeasonDirView { season_no: next.season_no, path: next.directory },
                            ] + next.pending == directories);
                        },
                        Err(_) => {},
                    }
                }
            }
        },
        _ => {},
    }
}

/// The directories of a listing that is made of two parts are those of the
/// one part and then those of the other.
proof fn lemma_directory_paths_add(one: Seq<EntryView>, other: Seq<EntryView>)
    ensures
        directory_paths(one + other) == directory_paths(one) + directory_paths(other),
    decreases other.len(),
{
    if other.len() == 0 {
        assert(one + other == one);
        assert(directory_paths(one) + Seq::<Seq<char>>::empty() == directory_paths(one));
    } else {
        lemma_directory_paths_add(one, other.drop_last());
        assert((one + other).drop_last() == one + other.drop_last());
        assert((one + other).last() == other.last());
        if other.last().is_dir {
            assert((directory_paths(one) + directory_paths(other.drop_last())).push(
                other.last().path,
            ) == directory_paths(one) + directory_paths(other.drop_last()).push(
                other.last().path,
            ));
        }
    }
}

/// Listings that hold the same entries hold the same directories, in
/// whatever order either lists them.
pub proof fn lemma_same_entries_same_directories(one: Seq<EntryView>, other: Seq<EntryView>)
    requires
        one.to_multiset() == other.to_multiset(),
    ensures
        directory_paths(one).to_multiset() == directory_paths(other).to_multiset(),
    decreases one.len(),
{
    broadcast use vstd::seq_lib::group_to_multiset_ensures;
    broadcast use vstd::seq_lib::lemma_multiset_commutative;

    assert(one.len() == other.len()) by {
        assert(one.to_multiset().len() == one.len());
        assert(other.to_multiset().len() == other.len());
    }
    if one.len() > 0 {
        let entry = one.last();
        assert(one.contains(entry));
        assert(other.to_multiset().count(entry) > 0);
        assert(other.contains(entry));
        let at = choose|at: int| 0 <= at < other.len() && other[at] == entry;
        let one_rest = one.drop_last();
        let other_rest = other.remove(at);
        assert(one_rest == one.remove(one.len() - 1));
        assert(one_rest.to_multiset() == other_rest.to_multiset());
        lemma_same_entries_same_directories(one_rest, other_rest);
        let head = other.take(at);
        let tail = other.skip(at + 1);
        let single = seq![entry];
        assert(other == head + single + tail);
        assert(other_rest == head + tail);
        assert(one == one_rest + single);
        lemma_directory_paths_add(head + single, tail);
        lemma_directory_paths_add(head, single);
        lemma_directory_paths_add(head, tail);
        lemma_directory_paths_add(one_rest, single);
        let found = directory_paths(single);
        assert(directory_paths(other).to_multiset() == directory_paths(
            head,
        ).to_multiset().add(found.to_multiset()).add(directory_paths(tail).to_multiset()));
        assert(directory_paths(other_rest).to_multiset() == directory_paths(
            head,
        ).to_multiset().add(directory_paths(tail).to_multiset()));
        assert(directory_paths(one).to_multiset() == directory_paths(
            one_rest,
        ).to_multiset().add(found.to_multiset()));
    } else {
        assert(other == Seq::<EntryView>::empty());
    }
}

/// Listings that hold the same entries hold seasons alike.
pub proof fn lemma_same_entries_hold_seasons(one: Seq<EntryView>, other: Seq<EntryView>)
    requires
        one.to_multiset() == other.to_multiset(),
    ensures
        holds_seasons(one) == holds_seasons(other),
{
    broadcast use vstd::seq_lib::group_to_multiset_ensures;

    if holds_seasons(one) {
        let i = choose|i: int| 0 <= i < one.len() && names_season(#[trigger] one[i]);
        assert(one.contains(one[i]));
        assert(other.to_multiset().count(one[i]) > 0);
        assert(other.contains(one[i]));
        let j = choose|j: int| 0 <= j < other.len() && other[j] == one[i];
        assert(names_season(other[j]));
    }
    if holds_seasons(other) {
        let i = choose|i: int| 0 <= i < other.len() && names_season(#[trigger] other[i]);
        assert(other.contains(other[i]));
        assert(one.to_multiset().count(other[i]) > 0);
        assert(one.contains(other[i]));
        let j = choose|j: int| 0 <= j < one.len() && one[j] == other[i];
        assert(names_season(one[j]));
    }
}

/// Whether two listings of a directory show the same: both failed alike, or
/// both hold the same entries, in whatever order.
pub open spec fn same_listing(one: ListingView, other: ListingView) -> bool {
    match (one, other) {
        (ListingView::Entries(first), ListingView::Entries(second)) => first.to_multiset()
            == second.to_multiset(),
        (ListingView::Unreadable, ListingView::Unreadable) => true,
        (ListingView::InvalidEntry, ListingView::InvalidEntry) => true,
        _ => false,
    }
}

/// Whether no two directories of a listing have the same path.
pub open spec fn directories_differ(listing: ListingView) -> bool {
    listing matches ListingView::Entries(entries) ==> keys_differ(
        directory_paths(entries),
        by_path(),
    )
}

/// Whether no two videos of a listing have paths that differ in case only.
pub open spec fn videos_differ(listing: ListingView, extensions: Seq<Seq<char>>) -> bool {
    listing matches ListingView::Entries(entries) ==> keys_differ(
        video_paths(entries, extensions),
        by_lowercase(),
    )
}

/// Season directories give the same seasons when they are listed a second
/// time, in whatever order each is listed.
proof fn lemma_gathered_again(
    first: spec_fn(Seq<char>) -> ListingView,
    second: spec_fn(Seq<char>) -> ListingView,
    directories: Seq<SeasonDirView>,
    extensions: Seq<Seq<char>>,
    found: Seq<SeasonView>,
)
    requires
        forall|path: Seq<char>| same_listing(#[trigger] first(path), second(path)),
        forall|path: Seq<char>| videos_differ(#[trigger] first(path), extensions),
    ensures
        gathered(first, directories, extensions, found) == gathered(
            second,
            directories,
            extensions,
            found,
        ),
    decreases directories.len(),
{
    if directories.len() > 0 {
        let next = directories.first();
        assert(same_listing(first(next.path), second(next.path)));
        assert(videos_differ(first(next.path), extensions));
        match (first(next.path), second(next.path)) {
            (ListingView::Entries(one), ListingView::Entries(other)) => {
                lemma_rescan_gives_same_episodes(one, other, extensions);
                lemma_gathered_again(
                    first,
                    second,
                    directories.drop_first(),
                    extensions,
                    found.push(
                        SeasonView {
                            season_no: next.season_no,
                            episodes: episodes_of(one, extensions),
                        },
                    ),
                );
            },
            _ => {},
        }
    }
}

/// Two scans of a directory that has not changed find the same: the same
/// seasons with the same numbers in the same order, each with the same
/// episodes in the same order, or the same failure, in whatever order each
/// directory is listed each time. This holds as long as no listing holds two
/// directories of the same path or two videos whose paths differ in case only.
pub proof fn lemma_rescan_finds_the_same(
    first: spec_fn(Seq<char>) -> ListingView,
    second: spec_fn(Seq<char>) -> ListingView,
    directory: Seq<char>,
    season_no: u8,
    extensions: Result<Seq<Seq<char>>, MimeError>,
)
    requires
        forall|path: Seq<char>| same_listing(#[trigger] first(path), second(path)),
        forall|path: Seq<char>| directories_differ(#[trigger] first(path)),
        extensions matches Ok(endings) ==> forall|path: Seq<char>|
            videos_differ(#[trigger] first(path), endings),
    ensures
        scanned(first, directory, season_no, extensions) == scanned(
            second,
            directory,
            season_no,
            extensions,
        ),
{
    assert(same_listing(first(directory), second(directory)));
    assert(directories_differ(first(directory)));
    match (first(directory), second(directory)) {
        (ListingView::Entries(one), ListingView::Entries(other)) => {
            lemma_same_entries_hold_seasons(one, other);
            lemma_same_entries_same_directories(one, other);
            lemma_sorted_in_any_order(directory_paths(one), directory_paths(other), by_path());
            assert(season_directories_of(one) == season_directories_of(other));
            match extensions {
                Ok(endings) => {
                    assert(videos_differ(first(directory), endings));
                    lemma_rescan_gives_same_episodes(one, other, endings);
                    lemma_gathered_again(
                        first,
                        second,
                        season_directories_of(one),
                        endings,
                        Seq::empty(),
                    );
                },
                Err(_) => {},
            }
        },
        _ => {},
    }
}

/// A directory with two season directories gives two seasons: each has the
/// number of its directory and the episodes of the listing of its directory,
/// and the season with the lesser number comes first.
pub proof fn lemma_two_seasons(
    tree: spec_fn(Seq<char>) -> ListingView,
    directory: Seq<char>,
    season_no: u8,
    extensions: Seq<Seq<char>>,
    one: SeasonDirView,
    other: SeasonDirView,
)
    requires
        tree(directory) matches ListingView::Entries(entries) && holds_seasons(entries)
            && season_directories_of(entries) == seq![one, other],
        tree(one.path) is Entries,
        tree(other.path) is Entries,
        one.season_no <= other.season_no,
    ensures
        scanned(tree, directory, season_no, Ok(extensions)) == Ok::<ScanDirView, ReadDirErrorView>(
            ScanDirView::Seasons(
                seq![
                    SeasonView {
                        season_no: one.season_no,
                        episodes: episodes_of(tree(one.path)->Entries_0, extensions),
                    },
                    SeasonView {
                        season_no: other.season_no,
                        episodes: episodes_of(tree(other.path)->Entries_0, extensions),
                    },
                ],
            ),
        ),
{
    let first = SeasonView {
        season_no: one.season_no,
        episodes: episodes_of(tree(one.path)->Entries_0, extensions),
    };
    let second = SeasonView {
        season_no: other.season_no,
        episodes: episodes_of(tree(other.path)->Entries_0, extensions),
    };
    let directories = seq![one, other];
    let none = Seq::<SeasonView>::empty();
    assert(directories.first() == one);
    assert(directories.drop_first() == seq![other]);
    assert(seq![other].first() == other);
    assert(seq![other].drop_first() == Seq::<SeasonDirView>::empty());
    assert(gathered(tree, Seq::empty(), extensions, none.push(first).push(second)) == Ok::<
        Seq<SeasonView>,
        ReadDirErrorView,
    >(none.push(first).push(second)));
    assert(gathered(tree, seq![other], extensions, none.push(first)) == Ok::<
        Seq<SeasonView>,
        ReadDirErrorView,
    >(none.push(first).push(second)));
    assert(gathered(tree, directories, extensions, none) == Ok::<
        Seq<SeasonView>,
        ReadDirErrorView,
    >(none.push(first).push(second)));
    let both = none.push(first).push(second);
    assert(both == seq![first, second]);
    assert(seasons_in_order(both) == both) by {
        reveal_with_fuel(sorted_by_key, 3);
        reveal_with_fuel(slot_for, 3);
        reveal_with_fuel(lex_le_from, 3);
        assert(both.drop_last() == seq![first]);
        assert(seq![first].drop_last() == none);
        let alone = sorted_by_key(seq![first], by_number());
        assert(sorted_by_key(none, by_number()) == none);
        assert(alone == none.insert(0, first));
        assert(alone == seq![first]);
        assert(lex_le(by_number()(first), by_number()(second)));
        assert(slot_for(alone, second, by_number()) == 1);
        assert(alone.insert(1, second) == both);
    }
}

/// Begins the scan of a directory, which finds out whether the directory
/// holds seasons or episodes and collects them. The scan first waits for the
/// listing of the directory itself. `season_no` numbers the season if the
/// directory turns out to hold episodes; `extensions` are the video extensions,
/// or the reason why they could not be had.
pub fn scan_directory(
    directory: &str,
    season_no: u8,
    extensions: Result<Vec<String>, MimeError>,
) -> (scanner: Scanner)
    ensures
        scanner.deep_view() == scan_start(directory@, season_no, extensions_view(extensions)),
{
    let scanner = Scanner {
        directory: directory.to_owned(),
        season_no: season_no,
        in_season: false,
        extensions: extensions,
        pending: Vec::new(),
        next: 0,
        collected: Vec::new(),
    };
    assert(scanner.pending.deep_view().skip(0) == Seq::<SeasonDirView>::empty());
    assert(scanner.collected.deep_view() == Seq::<SeasonView>::empty());
    scanner
}

impl Scanner {
    /// The season directory that is listed next is one of those that are
    /// kept, or they have all been listed.
    #[verifier::type_invariant]
    spec fn well_formed(self) -> bool {
        self.next <= self.pending.len()
    }

    /// The directory whose listing the scan waits for.
    pub fn awaited(&self) -> (directory: &String)
        ensures
            directory@ == self.deep_view().directory,
    {
        &self.directory
    }

    /// Goes on to the next season directory, or ends the scan.
    fn proceed(self) -> (step: ScanStep)
        ensures
            step.deep_view() == scan_on(self.deep_view()),
    {
        proof {
            use_type_invariant(&self);
        }
        let ghost scan = self.deep_view();
        if self.next >= self.pending.len() {
            return ScanStep::Done(ScanDir::Seasons(get_seasons(self.collected)));
        }
        if let Err(why) = self.extensions {
            return ScanStep::Failed(ReadDirError::MimeError(why));
        }
        let upcoming = &self.pending[self.next];
        let directory = upcoming.path.clone();
        let season_no = upcoming.season_no;
        proof {
            let all = self.pending.deep_view();
            assert(scan.pending.first() == all[self.next as int]);
            assert(scan.pending.drop_first() == all.skip(self.next + 1));
        }
        ScanStep::Next(
            Scanner {
                directory: directory,
                season_no: season_no,
                in_season: true,
                extensions: self.extensions,
                pending: self.pending,
                next: self.next + 1,
                collected: self.collected,
            },
        )
    }

    /// Takes the listing of the directory that the scan waited for, and says
    /// what the scan does next.
    pub fn listed(self, listing: Listing) -> (step: ScanStep)
        ensures
            step.deep_view() == scan_step(self.deep_view(), listing.deep_view()),
    {
        let entries = match listing {
            Listing::Entries(entries) => entries,
            Listing::Unreadable => {
                return ScanStep::Failed(ReadDirError::UnableToReadDir(self.directory));
            },
            Listing::InvalidEntry => {
                return ScanStep::Failed(ReadDirError::InvalidDirEntry(self.directory));
            },
        };
        if !self.in_season && contains_seasons(&entries) {
            let pending = season_directories(&entries);
            let scanner = Scanner { pending: pending, next: 0, ..self };
            assert(scanner.pending.deep_view().skip(0) == scanner.pending.deep_view());
            return scanner.proceed();
        }
        let season = match &self.extensions {
            Ok(extensions) => get_episodes(&entries, extensions, self.season_no),
            Err(why) => {
                return ScanStep::Failed(ReadDirError::MimeError(*why));
            },
        };
        if self.in_season {
            proof {
                use_type_invariant(&self);
            }
            let ghost before = self.collected.deep_view();
            let mut collected = self.collected;
            collected.push(season);
            assert(collected.deep_view() == before.push(season.deep_view()));
            let scanner = Scanner { collected: collected, ..self };
            scanner.proceed()
        } else {
            ScanStep::Done(ScanDir::Episodes(season))
        }
    }
}

} // verus!
