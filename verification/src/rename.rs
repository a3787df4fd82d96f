use vstd::prelude::*;
use crate::scan::{ScanDir, ScanDirView, Season, SeasonView};
use crate::target::{
    collect_target, is_target, needs_lookup, target_in, target_of, template_needs_lookup, Arguments,
    ArgumentsView, Lookup, LookupView, TargetErr,
};
use crate::digits::{decimal, push_decimal};
use crate::logging::skipped_notice;
use crate::text::{quote, quoted, string_of, tool_prefix};
use crate::tokenizer::TemplateToken;

verus! {

/// What is done with a file whose target exists already.
#[derive(Clone, Copy, Debug, PartialEq, Eq)]
pub enum Collision {
    /// The file is left as it is and reported, and the run goes on.
    Skip,
    /// The operator is asked, and the file is renamed only on a yes; a no
    /// ends the run.
    Ask,
}

/// Why a run ended before its time.
#[derive(Clone, Debug, PartialEq, Eq)]
pub enum RenameErr {
    /// The target of this path exists, and the operator did not want it
    /// overwritten.
    TargetExists(String),
    /// The file of the first path could not be renamed to the second, and
    /// the system gave the third text as the reason.
    RenameFailed(String, String, String),
    /// The metadata service has no episode of this number.
    EpisodeDoesNotExist(u16),
    /// The metadata service does not know the series.
    SeriesLookupFailed,
    /// The file of this path has no extension.
    NoExtension(String),
    /// The file of this path has no parent directory.
    NoParent(String),
    /// A season holds more episodes than there are episode numbers.
    EpisodeNumberTooLarge,
}

/// The end of a run before its time, as a mathematical value.
pub ghost enum RenameErrView {
    TargetExists(Seq<char>),
    RenameFailed(Seq<char>, Seq<char>, Seq<char>),
    EpisodeDoesNotExist(u16),
    SeriesLookupFailed,
    NoExtension(Seq<char>),
    NoParent(Seq<char>),
    EpisodeNumberTooLarge,
}

impl DeepView for RenameErr {
    type V = RenameErrView;

    open spec fn deep_view(&self) -> RenameErrView {
        match self {
            RenameErr::TargetExists(target) => RenameErrView::TargetExists(target@),
            RenameErr::RenameFailed(source, target, cause) => RenameErrView::RenameFailed(
                source@,
                target@,
                cause@,
            ),
            RenameErr::EpisodeDoesNotExist(number) => RenameErrView::EpisodeDoesNotExist(*number),
            RenameErr::SeriesLookupFailed => RenameErrView::SeriesLookupFailed,
            RenameErr::NoExtension(source) => RenameErrView::NoExtension(source@),
            RenameErr::NoParent(source) => RenameErrView::NoParent(source@),
            RenameErr::EpisodeNumberTooLarge => RenameErrView::EpisodeNumberTooLarge,
        }
    }
}

impl RenameErr {
    /// A copy of the error.
    pub fn duplicate(&self) -> (copy: RenameErr)
        ensures
            copy.deep_view() == self.deep_view(),
    {
        match self {
            RenameErr::TargetExists(target) => RenameErr::TargetExists(target.clone()),
            RenameErr::RenameFailed(source, target, cause) => RenameErr::RenameFailed(
                source.clone(),
                target.clone(),
                cause.clone(),
            ),
            RenameErr::EpisodeDoesNotExist(number) => RenameErr::EpisodeDoesNotExist(*number),
            RenameErr::SeriesLookupFailed => RenameErr::SeriesLookupFailed,
            RenameErr::NoExtension(source) => RenameErr::NoExtension(source.clone()),
            RenameErr::NoParent(source) => RenameErr::NoParent(source.clone()),
            RenameErr::EpisodeNumberTooLarge => RenameErr::EpisodeNumberTooLarge,
        }
    }
}

/// What is said of a run that ended before its time, behind the name of the
/// program. `series` is the name of the series.
pub open spec fn rename_error_text(why: RenameErrView, series: Seq<char>) -> Seq<char> {
    match why {
        RenameErrView::TargetExists(target) => quoted(target) + " already exists"@,
        RenameErrView::RenameFailed(source, target, cause) => "could not rename "@ + quoted(
            source,
        ) + " to "@ + quoted(target) + ": "@ + cause,
        RenameErrView::EpisodeDoesNotExist(number) => "unable to find episode "@ + decimal(
            number as nat,
        ),
        RenameErrView::SeriesLookupFailed => "invalid TV series: "@ + series,
        RenameErrView::NoExtension(source) => quoted(source) + " has no extension"@,
        RenameErrView::NoParent(source) => quoted(source) + " has no parent directory"@,
        RenameErrView::EpisodeNumberTooLarge => "too many episodes to number"@,
    }
}

impl RenameErr {
    /// The message that tells the operator why the run ended. It begins with
    /// the name of the program. `series` is the name of the series.
    pub fn message(&self, series: &str) -> (text: String)
        ensures
            text@ == tool_prefix() + rename_error_text(self.deep_view(), series@),
    {
        let mut text = String::new();
        text.append("tv-renamer: ");
        let ghost front = text@;
        match self {
            RenameErr::TargetExists(target) => {
                text.append(quote(target.as_str()).as_str());
                text.append(" already exists");
            },
            RenameErr::RenameFailed(source, target, cause) => {
                text.append("could not rename ");
                text.append(quote(source.as_str()).as_str());
                text.append(" to ");
                text.append(quote(target.as_str()).as_str());
                text.append(": ");
                text.append(cause.as_str());
            },
            RenameErr::EpisodeDoesNotExist(number) => {
                let mut digits: Vec<char> = Vec::new();
                push_decimal(&mut digits, *number as usize);
                text.append("unable to find episode ");
                text.append(string_of(&digits).as_str());
            },
            RenameErr::SeriesLookupFailed => {
                text.append("invalid TV series: ");
                text.append(series);
            },
            RenameErr::NoExtension(source) => {
                text.append(quote(source.as_str()).as_str());
                text.append(" has no extension");
            },
            RenameErr::NoParent(source) => {
                text.append(quote(source.as_str()).as_str());
                text.append(" has no parent directory");
            },
            RenameErr::EpisodeNumberTooLarge => text.append("too many episodes to number"),
        }
        assert(text@ == front + rename_error_text(self.deep_view(), series@));
        text
    }
}

/// What the world answers to the action that a run waits for.
#[derive(Clone, Debug, PartialEq, Eq)]
pub enum Event {
    /// The metadata service was asked, and this is how the lookup ended.
    Looked(Lookup),
    /// The metadata service was asked, and does not know the series.
    SeriesUnknown,
    /// The target was looked for, and exists or does not.
    Probed(bool),
    /// The operator was asked, and agreed or did not.
    Answered(bool),
    /// The file was renamed.
    Moved,
    /// The file could not be renamed, for the reason that the system gave.
    Unmoved(String),
    /// The operator was told.
    Told,
}

/// An answer as a mathematical value.
pub ghost enum EventView {
    Looked(LookupView),
    SeriesUnknown,
    Probed(bool),
    Answered(bool),
    Moved,
    Unmoved(Seq<char>),
    Told,
}

impl DeepView for Event {
    type V = EventView;

    open spec fn deep_view(&self) -> EventView {
        match self {
            Event::Looked(lookup) => EventView::Looked(lookup.deep_view()),
            Event::SeriesUnknown => EventView::SeriesUnknown,
            Event::Probed(exists) => EventView::Probed(*exists),
            Event::Answered(yes) => EventView::Answered(*yes),
            Event::Moved => EventView::Moved,
            Event::Unmoved(cause) => EventView::Unmoved(cause@),
            Event::Told => EventView::Told,
        }
    }
}

/// What a run wants done next.
#[derive(Clone, Debug, PartialEq, Eq)]
pub enum Action {
    /// Write the lines that head the changes of a run to the log: an empty
    /// line, and the time.
    LogTime,
    /// Ask the metadata service for this episode of this season of the series.
    Lookup { series: String, season: u8, episode: u16 },
    /// Find out whether the target exists.
    Probe { target: String },
    /// Ask the operator whether the target may be overwritten.
    Ask { target: String },
    /// Rename the source to the target; then show the change if `print` is
    /// set, and write it to the log if `log` is set.
    Rename { source: String, target: String, print: bool, log: bool },
    /// Show what the source would be renamed to, and change nothing.
    Preview { source: String, target: String },
    /// Leave the source as it is, and report with the notice for a skipped
    /// file that the target exists.
    Skip { source: String, target: String },
    /// Nothing: the run has come to its end.
    Finish,
    /// Report why the run ended before its time.
    Abort(RenameErr),
}

/// An action as a mathematical value.
pub ghost enum ActionView {
    LogTime,
    Lookup { series: Seq<char>, season: u8, episode: u16 },
    Probe { target: Seq<char> },
    Ask { target: Seq<char> },
    Rename { source: Seq<char>, target: Seq<char>, print: bool, log: bool },
    Preview { source: Seq<char>, target: Seq<char> },
    Skip { source: Seq<char>, target: Seq<char> },
    Finish,
    Abort(RenameErrView),
}

impl DeepView for Action {
    type V = ActionView;

    open spec fn deep_view(&self) -> ActionView {
        match self {
            Action::LogTime => ActionView::LogTime,
            Action::Lookup { series, season, episode } => ActionView::Lookup {
                series: series@,
                season: *season,
                episode: *episode,
            },
            Action::Probe { target } => ActionView::Probe { target: target@ },
            Action::Ask { target } => ActionView::Ask { target: target@ },
            Action::Rename { source, target, print, log } => ActionView::Rename {
                source: source@,
                target: target@,
                print: *print,
                log: *log,
            },
            Action::Preview { source, target } => ActionView::Preview {
                source: source@,
                target: target@,
            },
            Action::Skip { source, target } => ActionView::Skip {
                source: source@,
                target: target@,
            },
            Action::Finish => ActionView::Finish,
            Action::Abort(why) => ActionView::Abort(why.deep_view()),
        }
    }
}

/// What a run waits for.
pub ghost enum PhaseView {
    /// The writing of the time to the log, before the first episode.
    Head,
    /// The lookup of the episode.
    Lookup,
    /// The answer whether this target exists.
    Probe(Seq<char>),
    /// The answer whether this target may be overwritten.
    Ask(Seq<char>),
    /// The renaming to this target.
    Rename(Seq<char>),
    /// The showing of this target.
    Preview(Seq<char>),
    /// The report that this target exists.
    Skip(Seq<char>),
    /// Nothing: every episode was dealt with.
    Done,
    /// Nothing: the run ended before its time.
    Failed(RenameErrView),
}

/// A run as a mathematical value: its settings, the seasons it goes through,
/// the episode it has come to, and what it waits for.
pub ghost struct RenamerView {
    pub arguments: ArgumentsView,
    /// Whether the seasons come from season directories.
    pub structured: bool,
    pub seasons: Seq<SeasonView>,
    /// The place of the season in `seasons`.
    pub season_at: int,
    /// The place of the episode in the season.
    pub episode_at: int,
    /// The number of the episode.
    pub episode_no: u16,
    pub phase: PhaseView,
}

/// Whether a run has ended.
pub open spec fn is_ended(run: RenamerView) -> bool {
    run.phase is Done || run.phase is Failed
}

/// Whether a run stands at an episode and waits for something that is done
/// for that episode.
pub open spec fn is_active(run: RenamerView) -> bool {
    !is_ended(run) && !(run.phase is Head)
}

/// What is done with a file whose target exists: as the settings say.
pub open spec fn collision_of(arguments: ArgumentsView) -> Collision {
    if arguments.skip_existing {
        Collision::Skip
    } else {
        Collision::Ask
    }
}

/// The number of the first episode of each season: 1 where the seasons come
/// from season directories, and else the number that the settings give.
pub open spec fn first_number(run: RenamerView) -> u16 {
    if run.structured {
        1
    } else {
        run.arguments.episode_index
    }
}

/// Whether a run that stands at an episode stands at one that is there,
/// numbers it by its place in the season, and waits for a renaming only where
/// something is to be changed; and whether a run that has not come to an
/// episode yet stands before the first.
pub open spec fn is_sound(run: RenamerView) -> bool {
    &&& is_active(run) ==> {
        &&& 0 <= run.season_at < run.seasons.len()
        &&& 0 <= run.episode_at < run.seasons[run.season_at].episodes.len()
        &&& run.episode_no == first_number(run) + run.episode_at
        &&& run.phase is Rename ==> !run.arguments.dry_run
    }
    &&& run.phase is Head ==> run.season_at == 0 && run.episode_at == 0
}

/// The path of the episode that the run has come to.
pub open spec fn source_of(run: RenamerView) -> Seq<char> {
    run.seasons[run.season_at].episodes[run.episode_at]
}

/// The number of the season that the run has come to.
pub open spec fn season_of(run: RenamerView) -> u8 {
    run.seasons[run.season_at].season_no
}

/// The run, ended before its time.
pub open spec fn failed(run: RenamerView, why: RenameErrView) -> RenamerView {
    RenamerView { phase: PhaseView::Failed(why), ..run }
}

/// The run once the lookup of its episode has ended: it waits for the answer
/// whether the target exists, or has ended because the episode has no target.
pub open spec fn with_lookup(run: RenamerView, lookup: LookupView) -> RenamerView {
    match target_of(source_of(run), run.arguments, season_of(run), run.episode_no, lookup) {
        Ok(target) => RenamerView { phase: PhaseView::Probe(target), ..run },
        Err(TargetErr::EpisodeDoesNotExist) => failed(
            run,
            RenameErrView::EpisodeDoesNotExist(run.episode_no),
        ),
        Err(TargetErr::Extension) => failed(run, RenameErrView::NoExtension(source_of(run))),
        Err(TargetErr::Parent) => failed(run, RenameErrView::NoParent(source_of(run))),
    }
}

/// The run as it comes to an episode: the episode is looked up if the
/// template asks for it, and at most once.
pub open spec fn entered(run: RenamerView) -> RenamerView {
    if needs_lookup(run.arguments.template) {
        RenamerView { phase: PhaseView::Lookup, ..run }
    } else {
        with_lookup(run, LookupView::Skipped)
    }
}

/// The run as it comes to the first episode of the first season from
/// `season` on that has any; done if there is none.
pub open spec fn sought(run: RenamerView, season: int) -> RenamerView
    decreases run.seasons.len() - season,
{
    if season < 0 || season >= run.seasons.len() {
        RenamerView { phase: PhaseView::Done, ..run }
    } else if run.seasons[season].episodes.len() == 0 {
        sought(run, season + 1)
    } else {
        entered(
            RenamerView {
                season_at: season,
                episode_at: 0,
                episode_no: first_number(run),
                ..run
            },
        )
    }
}

/// The run as it leaves an episode: it comes to the next episode of the
/// season with the next number, or to the next season.
pub open spec fn left(run: RenamerView) -> RenamerView {
    if run.episode_at + 1 < run.seasons[run.season_at].episodes.len() {
        if run.episode_no == u16::MAX {
            failed(run, RenameErrView::EpisodeNumberTooLarge)
        } else {
            entered(
                RenamerView {
                    episode_at: run.episode_at + 1,
                    episode_no: (run.episode_no + 1) as u16,
                    ..run
                },
            )
        }
    } else {
        sought(run, run.season_at + 1)
    }
}

/// The run once nothing stands in the way of the target: it renames, or only
/// shows the target where nothing is to be changed.
pub open spec fn cleared(run: RenamerView, target: Seq<char>) -> RenamerView {
    if run.arguments.dry_run {
        RenamerView { phase: PhaseView::Preview(target), ..run }
    } else {
        RenamerView { phase: PhaseView::Rename(target), ..run }
    }
}

/// The run after an answer. An answer to anything but what the run waits for
/// changes nothing.
pub open spec fn advanced(run: RenamerView, event: EventView) -> RenamerView {
    match (run.phase, event) {
        (PhaseView::Head, EventView::Told) => sought(run, 0),
        (PhaseView::Lookup, EventView::Looked(lookup)) => with_lookup(run, lookup),
        (PhaseView::Lookup, EventView::SeriesUnknown) => failed(
            run,
            RenameErrView::SeriesLookupFailed,
        ),
        (PhaseView::Probe(target), EventView::Probed(exists)) => if !exists {
            cleared(run, target)
        } else if collision_of(run.arguments) is Skip {
            RenamerView { phase: PhaseView::Skip(target), ..run }
        } else {
            RenamerView { phase: PhaseView::Ask(target), ..run }
        },
        (PhaseView::Ask(target), EventView::Answered(yes)) => if yes {
            cleared(run, target)
        } else {
            failed(run, RenameErrView::TargetExists(target))
        },
        (PhaseView::Rename(_), EventView::Moved) => left(run),
        (PhaseView::Rename(target), EventView::Unmoved(cause)) => failed(
            run,
            RenameErrView::RenameFailed(source_of(run), target, cause),
        ),
        (PhaseView::Preview(_), EventView::Told) => left(run),
        (PhaseView::Skip(_), EventView::Told) => left(run),
        _ => run,
    }
}

/// The seasons that a scan result holds.
pub open spec fn seasons_of(scan: ScanDirView) -> Seq<SeasonView> {
    match scan {
        ScanDirView::Episodes(season) => seq![season],
        ScanDirView::Seasons(seasons) => seasons,
    }
}

/// The run before it has come to an episode, and before anything was
/// written to the log.
pub open spec fn unbegun(arguments: ArgumentsView, scan: ScanDirView) -> RenamerView {
    let structured = scan is Seasons;
    RenamerView {
        arguments: arguments,
        structured: structured,
        seasons: seasons_of(scan),
        season_at: 0,
        episode_at: 0,
        episode_no: if structured {
            1
        } else {
            arguments.episode_index
        },
        phase: PhaseView::Head,
    }
}

/// The run as it begins. Where changes are logged, the time is written to
/// the log first, whether anything is to be changed or not; else the run
/// begins at the first episode that there is.
pub open spec fn begun(arguments: ArgumentsView, scan: ScanDirView) -> RenamerView {
    if arguments.log_changes {
        unbegun(arguments, scan)
    } else {
        sought(unbegun(arguments, scan), 0)
    }
}

/// What a run wants done: that for which it waits.
pub open spec fn wanted(run: RenamerView) -> ActionView {
    match run.phase {
        PhaseView::Head => ActionView::LogTime,
        PhaseView::Lookup => ActionView::Lookup {
            series: run.arguments.series_name,
            season: season_of(run),
            episode: run.episode_no,
        },
        PhaseView::Probe(target) => ActionView::Probe { target: target },
        PhaseView::Ask(target) => ActionView::Ask { target: target },
        PhaseView::Rename(target) => ActionView::Rename {
            source: source_of(run),
            target: target,
            print: run.arguments.verbose,
            log: run.arguments.log_changes,
        },
        PhaseView::Preview(target) => ActionView::Preview {
            source: source_of(run),
            target: target,
        },
        PhaseView::Skip(target) => ActionView::Skip { source: source_of(run), target: target },
        PhaseView::Done => ActionView::Finish,
        PhaseView::Failed(why) => ActionView::Abort(why),
    }
}

/// Whether two runs have the same settings and go through the same seasons.
pub open spec fn same_task(one: RenamerView, other: RenamerView) -> bool {
    &&& one.arguments == other.arguments
    &&& one.structured == other.structured
    &&& one.seasons == other.seasons
}

/// Whether the run `later` stands at the episode of the run `earlier` or
/// behind it.
pub open spec fn not_before(later: RenamerView, earlier: RenamerView) -> bool {
    later.season_at > earlier.season_at || (later.season_at == earlier.season_at
        && later.episode_at >= earlier.episode_at)
}

/// Whether a run waits for the first thing that is done for an episode, or
/// for nothing.
pub open spec fn is_fresh(run: RenamerView) -> bool {
    run.phase is Lookup || run.phase is Probe || run.phase is Failed || run.phase is Done
}

/// Coming to an episode changes neither the task nor the episode, and the
/// run then waits for the lookup or for the answer whether the target exists.
pub proof fn lemma_entered(run: RenamerView)
    ensures
        same_task(entered(run), run),
        entered(run).season_at == run.season_at,
        entered(run).episode_at == run.episode_at,
        entered(run).episode_no == run.episode_no,
        is_fresh(entered(run)),
{
}

/// A run that looks for the next season with episodes comes to the first
/// episode of such a season and gives it the first number, or is done.
pub proof fn lemma_sought(run: RenamerView, season: int)
    requires
        0 <= season,
    ensures
        same_task(sought(run, season), run),
        is_sound(sought(run, season)),
        is_active(sought(run, season)) ==> sought(run, season).season_at >= season && sought(
            run,
            season,
        ).episode_at == 0,
        is_fresh(sought(run, season)),
    decreases run.seasons.len() - season,
{
    if season < run.seasons.len() {
        if run.seasons[season].episodes.len() == 0 {
            lemma_sought(run, season + 1);
        } else {
            lemma_entered(
                RenamerView {
                    season_at: season,
                    episode_at: 0,
                    episode_no: first_number(run),
                    ..run
                },
            );
        }
    }
}

/// Every run begins sound: it waits for the time to be written to the log,
/// or stands at an episode that is there and that has the first number, or
/// has nothing to do. The time is asked for exactly where changes are logged,
/// and before anything else.
pub proof fn lemma_begun_is_sound(arguments: ArgumentsView, scan: ScanDirView)
    ensures
        is_sound(begun(arguments, scan)),
        begun(arguments, scan).arguments == arguments,
        begun(arguments, scan).seasons == seasons_of(scan),
        wanted(begun(arguments, scan)) is LogTime <==> arguments.log_changes,
{
    lemma_sought(unbegun(arguments, scan), 0);
}

/// Whatever the answer, a sound run stays sound and keeps its task, and it
/// never goes back to an episode that it has left. So in every season the
/// episodes are numbered one by one from the first number, in their order.
pub proof fn lemma_advanced_is_sound(run: RenamerView, event: EventView)
    requires
        is_sound(run),
    ensures
        is_sound(advanced(run, event)),
        same_task(advanced(run, event), run),
        is_active(advanced(run, event)) ==> not_before(advanced(run, event), run),
{
    if is_active(run) {
        lemma_left(run);
    } else {
        lemma_sought(run, 0);
    }
}

/// Leaving an episode brings the run to a later one, where it waits for the
/// first thing that is done for an episode, or to its end.
proof fn lemma_left(run: RenamerView)
    requires
        is_sound(run),
        is_active(run),
    ensures
        is_sound(left(run)),
        same_task(left(run), run),
        is_fresh(left(run)),
        is_active(left(run)) ==> not_before(left(run), run),
{
    lemma_sought(run, run.season_at + 1);
    if run.episode_at + 1 < run.seasons[run.season_at].episodes.len() && run.episode_no
        != u16::MAX {
        lemma_entered(
            RenamerView {
                episode_at: run.episode_at + 1,
                episode_no: (run.episode_no + 1) as u16,
                ..run
            },
        );
    }
}

/// A run that has ended stays as it is, whatever it is told.
pub proof fn lemma_ended_stays(run: RenamerView, event: EventView)
    requires
        is_ended(run),
    ensures
        advanced(run, event) == run,
{
}

/// The time is written to the log once at most, and before the first
/// episode: no answer brings a run to wait for it that did not do so before.
pub proof fn lemma_time_is_logged_first(run: RenamerView, event: EventView)
    requires
        is_sound(run),
        advanced(run, event).phase is Head,
    ensures
        run.phase is Head,
        advanced(run, event) == run,
{
    if is_active(run) {
        lemma_left(run);
    } else {
        lemma_sought(run, 0);
    }
}

/// A renaming that failed ends the run, and what the run then wants
/// reported holds the reason that the system gave.
pub proof fn lemma_failed_renaming_is_reported(
    run: RenamerView,
    target: Seq<char>,
    cause: Seq<char>,
)
    requires
        run.phase == PhaseView::Rename(target),
    ensures
        wanted(advanced(run, EventView::Unmoved(cause))) == ActionView::Abort(
            RenameErrView::RenameFailed(source_of(run), target, cause),
        ),
        rename_error_text(
            RenameErrView::RenameFailed(source_of(run), target, cause),
            run.arguments.series_name,
        ) == "could not rename "@ + quoted(source_of(run)) + " to "@ + quoted(target) + ": "@
            + cause,
{
}

/// No file is renamed unless its target was found not to exist, or the
/// operator agreed to overwrite it; and none is renamed where nothing is to
/// be changed.
pub proof fn lemma_renames_only_when_cleared(run: RenamerView, event: EventView, target: Seq<char>)
    requires
        is_sound(run),
        advanced(run, event).phase == PhaseView::Rename(target),
    ensures
        !run.arguments.dry_run,
        (run.phase == PhaseView::Rename(target) && advanced(run, event) == run) || (run.phase
            == PhaseView::Probe(target) && event == EventView::Probed(false)) || (run.phase
            == PhaseView::Ask(target) && event == EventView::Answered(true)),
{
    if is_active(run) {
        lemma_left(run);
    } else {
        lemma_sought(run, 0);
    }
}

/// A file whose target exists is never renamed where collisions are skipped:
/// it is reported, with a notice that names the target as it is, and the run
/// goes on with the file behind it.
pub proof fn lemma_collision_is_skipped(run: RenamerView, target: Seq<char>)
    requires
        is_sound(run),
        run.phase == PhaseView::Probe(target),
        run.arguments.skip_existing,
    ensures
        wanted(advanced(run, EventView::Probed(true))) == (ActionView::Skip {
            source: source_of(run),
            target: target,
        }),
        skipped_notice(target) == "tv-renamer: "@ + target + " already exists, not renaming.\n"@,
        advanced(advanced(run, EventView::Probed(true)), EventView::Told) == left(
            advanced(run, EventView::Probed(true)),
        ),
        is_fresh(advanced(advanced(run, EventView::Probed(true)), EventView::Told)),
{
    lemma_left(advanced(run, EventView::Probed(true)));
}

/// The number of episodes in the seasons from `season` on.
pub open spec fn episodes_from(seasons: Seq<SeasonView>, season: int) -> nat
    decreases seasons.len() - season,
{
    if season < 0 || season >= seasons.len() {
        0
    } else {
        seasons[season].episodes.len() + episodes_from(seasons, season + 1)
    }
}

/// The number of episodes that a run has still to deal with, the one at
/// which it stands included.
pub open spec fn episodes_left(run: RenamerView) -> int {
    if is_active(run) {
        episodes_from(run.seasons, run.season_at) - run.episode_at
    } else if run.phase is Head {
        episodes_from(run.seasons, 0) as int
    } else {
        0
    }
}

/// A bound on the number of answers that a run can still take before it
/// ends: four for each episode that is left, less those that the episode at
/// which the run stands has had already, and one more while the time is to
/// be written to the log.
pub open spec fn answers_left(run: RenamerView) -> int {
    match run.phase {
        PhaseView::Head => 4 * episodes_left(run) + 1,
        PhaseView::Lookup => 4 * episodes_left(run),
        PhaseView::Probe(_) => 4 * episodes_left(run) - 1,
        PhaseView::Ask(_) => 4 * episodes_left(run) - 2,
        PhaseView::Rename(_) => 4 * episodes_left(run) - 3,
        PhaseView::Preview(_) => 4 * episodes_left(run) - 3,
        PhaseView::Skip(_) => 4 * episodes_left(run) - 3,
        PhaseView::Done => 0,
        PhaseView::Failed(_) => 0,
    }
}

/// Whether an answer is one to what the run waits for.
pub open spec fn is_answer(phase: PhaseView, event: EventView) -> bool {
    match (phase, event) {
        (PhaseView::Head, EventView::Told) => true,
        (PhaseView::Lookup, EventView::Looked(_)) => true,
        (PhaseView::Lookup, EventView::SeriesUnknown) => true,
        (PhaseView::Probe(_), EventView::Probed(_)) => true,
        (PhaseView::Ask(_), EventView::Answered(_)) => true,
        (PhaseView::Rename(_), EventView::Moved) => true,
        (PhaseView::Rename(_), EventView::Unmoved(_)) => true,
        (PhaseView::Preview(_), EventView::Told) => true,
        (PhaseView::Skip(_), EventView::Told) => true,
        _ => false,
    }
}

/// A run that looks for the next season with episodes loses none of the
/// episodes that are left.
proof fn lemma_sought_keeps_episodes(run: RenamerView, season: int)
    requires
        0 <= season,
    ensures
        episodes_left(sought(run, season)) <= episodes_from(run.seasons, season),
    decreases run.seasons.len() - season,
{
    lemma_sought(run, season);
    if season < run.seasons.len() {
        if run.seasons[season].episodes.len() == 0 {
            lemma_sought_keeps_episodes(run, season + 1);
        } else {
            lemma_entered(
                RenamerView {
                    season_at: season,
                    episode_at: 0,
                    episode_no: first_number(run),
                    ..run
                },
            );
        }
    }
}

/// Every run comes to its end: each answer to what the run waits for brings
/// it nearer to it, and a run that waits for something has an answer left.
pub proof fn lemma_answers_run_out(run: RenamerView, event: EventView)
    requires
        is_sound(run),
        !is_ended(run),
        is_answer(run.phase, event),
    ensures
        0 <= answers_left(advanced(run, event)) < answers_left(run),
{
    if run.phase is Head {
        lemma_sought_keeps_episodes(run, 0);
        lemma_sought(run, 0);
        lemma_some_left(sought(run, 0));
    } else {
        lemma_answers_run_out_at_episode(run, event);
    }
}

/// Each answer to what a run waits for at an episode brings it nearer to
/// its end.
proof fn lemma_answers_run_out_at_episode(run: RenamerView, event: EventView)
    requires
        is_sound(run),
        is_active(run),
        is_answer(run.phase, event),
    ensures
        0 <= answers_left(advanced(run, event)) < answers_left(run),
{
    let here = run.seasons[run.season_at].episodes.len();
    let behind = episodes_from(run.seasons, run.season_at + 1);
    assert(episodes_from(run.seasons, run.season_at) == here + behind);
    lemma_left(run);
    let next = left(run);
    if run.episode_at + 1 < here {
        if run.episode_no != u16::MAX {
            lemma_entered(
                RenamerView {
                    episode_at: run.episode_at + 1,
                    episode_no: (run.episode_no + 1) as u16,
                    ..run
                },
            );
        }
    } else {
        lemma_sought_keeps_episodes(run, run.season_at + 1);
    }
    assert(episodes_left(next) <= episodes_left(run) - 1);
    lemma_some_left(next);
}

/// A sound run that waits for something has an episode left.
proof fn lemma_some_left(run: RenamerView)
    requires
        is_sound(run),
    ensures
        is_active(run) ==> episodes_left(run) >= 1,
        episodes_left(run) >= 0,
{
}

/// How the lookup of the episode at place `at` ended: as `lookups` says, and
/// without a question asked where `lookups` says nothing of it.
pub open spec fn lookup_at(lookups: Seq<LookupView>, at: int) -> LookupView {
    if 0 <= at < lookups.len() {
        lookups[at]
    } else {
        LookupView::Skipped
    }
}

/// The targets of `episodes` in `directory`, the first of them numbered
/// `first` and each further one with the next number, or the reason why the
/// first episode without target has none.
pub open spec fn targets_in(
    arguments: ArgumentsView,
    directory: Seq<char>,
    episodes: Seq<Seq<char>>,
    first: u16,
    lookups: Seq<LookupView>,
) -> Result<Seq<Seq<char>>, RenameErrView>
    decreases episodes.len(),
{
    if episodes.len() == 0 {
        Ok(Seq::empty())
    } else {
        let at = episodes.len() - 1;
        match targets_in(arguments, directory, episodes.drop_last(), first, lookups) {
            Err(why) => Err(why),
            Ok(targets) => if first + at > u16::MAX {
                Err(RenameErrView::EpisodeNumberTooLarge)
            } else {
                match target_in(
                    directory,
                    episodes.last(),
                    arguments,
                    arguments.season_index,
                    (first + at) as u16,
                    lookup_at(lookups, at),
                ) {
                    Ok(target) => Ok(targets.push(target)),
                    Err(TargetErr::EpisodeDoesNotExist) => Err(
                        RenameErrView::EpisodeDoesNotExist((first + at) as u16),
                    ),
                    Err(TargetErr::Extension) => Err(RenameErrView::NoExtension(episodes.last())),
                    Err(TargetErr::Parent) => Err(RenameErrView::NoParent(episodes.last())),
                }
            },
        }
    }
}

/// Whether `found` holds the targets or the error that `expected` names.
pub open spec fn is_targets(
    found: Result<Vec<String>, RenameErr>,
    expected: Result<Seq<Seq<char>>, RenameErrView>,
) -> bool {
    match found {
        Ok(targets) => expected == Ok::<Seq<Seq<char>>, RenameErrView>(targets.deep_view()),
        Err(why) => expected == Err::<Seq<Seq<char>>, RenameErrView>(why.deep_view()),
    }
}

/// Once an episode has no target, the episodes behind it change nothing.
proof fn lemma_targets_fail(
    arguments: ArgumentsView,
    directory: Seq<char>,
    episodes: Seq<Seq<char>>,
    first: u16,
    lookups: Seq<LookupView>,
    upto: int,
)
    requires
        0 <= upto <= episodes.len(),
        targets_in(arguments, directory, episodes.take(upto), first, lookups) is Err,
    ensures
        targets_in(arguments, directory, episodes, first, lookups) == targets_in(
            arguments,
            directory,
            episodes.take(upto),
            first,
            lookups,
        ),
    decreases episodes.len() - upto,
{
    if upto < episodes.len() {
        assert(episodes.drop_last().take(upto) == episodes.take(upto));
        lemma_targets_fail(arguments, directory, episodes.drop_last(), first, lookups, upto);
    } else {
        assert(episodes.take(upto) == episodes);
    }
}

impl Arguments {
    /// What is done with a file whose target exists: it is skipped where the
    /// settings say so, and else the operator is asked.
    pub fn collision(&self) -> (policy: Collision)
        ensures
            policy == collision_of(self.deep_view()),
    {
        if self.skip_existing {
            Collision::Skip
        } else {
            Collision::Ask
        }
    }

    /// Given the episodes of a directory, builds the list of their targets in
    /// `directory`. The first episode gets the number `episode_index`. The
    /// lookup of each episode is found at its place in `lookups`; for an
    /// episode of which `lookups` says nothing, nothing was asked.
    pub fn get_targets(
        &self,
        directory: &str,
        episodes: &Vec<String>,
        episode_index: u16,
        lookups: &Vec<Lookup>,
    ) -> (targets: Result<Vec<String>, RenameErr>)
        ensures
            is_targets(
                targets,
                targets_in(
                    self.deep_view(),
                    directory@,
                    episodes.deep_view(),
                    episode_index,
                    lookups.deep_view(),
                ),
            ),
    {
        let ghost sources = episodes.deep_view();
        let ghost answers = lookups.deep_view();
        let room: usize = (u16::MAX - episode_index) as usize;
        let skipped = Lookup::Skipped;
        let mut output: Vec<String> = Vec::new();
        let mut at: usize = 0;
        assert(output.deep_view() == Seq::<Seq<char>>::empty());
        while at < episodes.len()
            invariant
                at <= episodes.len(),
                room == u16::MAX - episode_index,
                skipped.deep_view() == LookupView::Skipped,
                sources == episodes.deep_view(),
                answers == lookups.deep_view(),
                targets_in(
                    self.deep_view(),
                    directory@,
                    sources.take(at as int),
                    episode_index,
                    answers,
                ) == Ok::<Seq<Seq<char>>, RenameErrView>(output.deep_view()),
            decreases episodes.len() - at,
        {
            let ghost before = output.deep_view();
            proof {
                assert(sources.take(at + 1).drop_last() == sources.take(at as int));
                assert(sources.take(at + 1).last() == episodes[at as int]@);
            }
            if at > room {
                proof {
                    lemma_targets_fail(
                        self.deep_view(),
                        directory@,
                        sources,
                        episode_index,
                        answers,
                        at + 1,
                    );
                }
                return Err(RenameErr::EpisodeNumberTooLarge);
            }
            let current_index: u16 = episode_index + at as u16;
            let lookup = if at < lookups.len() {
                &lookups[at]
            } else {
                &skipped
            };
            assert(lookup.deep_view() == lookup_at(answers, at as int));
            let file = &episodes[at];
            match self.get_destination(directory, file.as_str(), current_index, lookup) {
                Ok(target) => {
                    output.push(target);
                    assert(output.deep_view() == before.push(target@));
                },
                Err(why) => {
                    proof {
                        lemma_targets_fail(
                            self.deep_view(),
                            directory@,
                            sources,
                            episode_index,
                            answers,
                            at + 1,
                        );
                    }
                    return Err(
                        match why {
                            TargetErr::EpisodeDoesNotExist => RenameErr::EpisodeDoesNotExist(
                                current_index,
                            ),
                            TargetErr::Extension => RenameErr::NoExtension(file.clone()),
                            TargetErr::Parent => RenameErr::NoParent(file.clone()),
                        },
                    );
                },
            }
            at += 1;
        }
        assert(sources.take(episodes.len() as int) == sources);
        Ok(output)
    }
}

/// What a run waits for, with the target it has built.
enum Phase {
    Head,
    Lookup,
    Probe(String),
    Ask(String),
    Rename(String),
    Preview(String),
    Skip(String),
    Done,
    Failed(RenameErr),
}

impl DeepView for Phase {
    type V = PhaseView;

    closed spec fn deep_view(&self) -> PhaseView {
        match self {
            Phase::Head => PhaseView::Head,
            Phase::Lookup => PhaseView::Lookup,
            Phase::Probe(target) => PhaseView::Probe(target@),
            Phase::Ask(target) => PhaseView::Ask(target@),
            Phase::Rename(target) => PhaseView::Rename(target@),
            Phase::Preview(target) => PhaseView::Preview(target@),
            Phase::Skip(target) => PhaseView::Skip(target@),
            Phase::Done => PhaseView::Done,
            Phase::Failed(why) => PhaseView::Failed(why.deep_view()),
        }
    }
}

/// A run over the episodes of a scan: it says what is to be done next, takes
/// the answer, and goes on, until every episode was dealt with or the run
/// has ended before its time.
pub struct Renamer {
    arguments: Arguments,
    structured: bool,
    seasons: Vec<Season>,
    season_at: usize,
    episode_at: usize,
    episode_no: u16,
    phase: Phase,
}

impl DeepView for Renamer {
    type V = RenamerView;

    closed spec fn deep_view(&self) -> RenamerView {
        RenamerView {
            arguments: self.arguments.deep_view(),
            structured: self.structured,
            seasons: self.seasons.deep_view(),
            season_at: self.season_at as int,
            episode_at: self.episode_at as int,
            episode_no: self.episode_no,
            phase: self.phase.deep_view(),
        }
    }
}

impl Renamer {
    /// A run that waits for something has come to an episode that is there,
    /// and numbers it by its place in the season.
    #[verifier::type_invariant]
    spec fn well_formed(self) -> bool {
        is_sound(self.deep_view())
    }

    /// Ends the run before its time.
    fn fail(self, why: RenameErr) -> (run: Renamer)
        ensures
            run.deep_view() == failed(self.deep_view(), why.deep_view()),
    {
        Renamer { phase: Phase::Failed(why), ..self }
    }

    /// Takes the end of the lookup of the episode, and builds the target.
    fn take_lookup(self, lookup: &Lookup) -> (run: Renamer)
        requires
            is_active(self.deep_view()),
        ensures
            run.deep_view() == with_lookup(self.deep_view(), lookup.deep_view()),
    {
        proof {
            use_type_invariant(&self);
        }
        let season = &self.seasons[self.season_at];
        let source = season.episodes[self.episode_at].clone();
        proof {
            assert(self.seasons.deep_view()[self.season_at as int] == season.deep_view());
            assert(season.episodes.deep_view()[self.episode_at as int] == source@);
        }
        match collect_target(
            source.as_str(),
            season.season_no,
            self.episode_no,
            &self.arguments,
            lookup,
        ) {
            Ok(target) => Renamer { phase: Phase::Probe(target), ..self },
            Err(TargetErr::EpisodeDoesNotExist) => {
                let number: u16 = self.episode_no;
                self.fail(RenameErr::EpisodeDoesNotExist(number))
            },
            Err(TargetErr::Extension) => self.fail(RenameErr::NoExtension(source)),
            Err(TargetErr::Parent) => self.fail(RenameErr::NoParent(source)),
        }
    }

    /// Comes to the episode at which the run stands.
    fn enter(self) -> (run: Renamer)
        requires
            is_active(self.deep_view()),
        ensures
            run.deep_view() == entered(self.deep_view()),
    {
        proof {
            use_type_invariant(&self);
        }
        if template_needs_lookup(&self.arguments.template) {
            Renamer { phase: Phase::Lookup, ..self }
        } else {
            self.take_lookup(&Lookup::Skipped)
        }
    }

    /// Comes to the first episode of the first season from `season` on that
    /// has any.
    fn seek(self, season: usize) -> (run: Renamer)
        ensures
            run.deep_view() == sought(self.deep_view(), season as int),
    {
        let ghost before = self.deep_view();
        let mut at: usize = season;
        while at < self.seasons.len() && self.seasons[at].episodes.len() == 0
            invariant
                season <= at,
                before == self.deep_view(),
                sought(before, season as int) == sought(before, at as int),
            decreases self.seasons.len() - at,
        {
            proof {
                assert(self.seasons.deep_view()[at as int] == self.seasons[at as int].deep_view());
            }
            at += 1;
        }
        if at >= self.seasons.len() {
            Renamer { phase: Phase::Done, ..self }
        } else {
            proof {
                assert(self.seasons.deep_view()[at as int] == self.seasons[at as int].deep_view());
            }
            let first: u16 = if self.structured {
                1
            } else {
                self.arguments.episode_index
            };
            let run = Renamer {
                season_at: at,
                episode_at: 0,
                episode_no: first,
                phase: Phase::Lookup,
                ..self
            };
            proof {
                assert(entered(run.deep_view()) == sought(before, at as int));
            }
            run.enter()
        }
    }

    /// Leaves the episode at which the run stands.
    fn leave(self) -> (run: Renamer)
        requires
            is_active(self.deep_view()),
        ensures
            run.deep_view() == left(self.deep_view()),
    {
        proof {
            use_type_invariant(&self);
            assert(self.seasons.deep_view()[self.season_at as int]
                == self.seasons[self.season_at as int].deep_view());
        }
        let ghost before = self.deep_view();
        if self.episode_at + 1 < self.seasons[self.season_at].episodes.len() {
            if self.episode_no == u16::MAX {
                self.fail(RenameErr::EpisodeNumberTooLarge)
            } else {
                let run = Renamer {
                    episode_at: self.episode_at + 1,
                    episode_no: self.episode_no + 1,
                    phase: Phase::Lookup,
                    ..self
                };
                proof {
                    assert(entered(run.deep_view()) == left(before));
                }
                run.enter()
            }
        } else {
            assert(self.season_at < self.seasons.len());
            let next: usize = self.season_at + 1;
            self.seek(next)
        }
    }

    /// Goes on once nothing stands in the way of the target.
    fn clear(self, target: String) -> (run: Renamer)
        requires
            is_active(self.deep_view()),
        ensures
            run.deep_view() == cleared(self.deep_view(), target@),
    {
        proof {
            use_type_invariant(&self);
        }
        let phase = if self.arguments.dry_run {
            Phase::Preview(target)
        } else {
            Phase::Rename(target)
        };
        Renamer { phase: phase, ..self }
    }

    /// Begins a run over what a scan has found. In a directory of seasons
    /// every season is numbered from 1; the episodes of a single directory
    /// are numbered from the number that the settings give. Where changes are
    /// logged, the run first wants the time written to the log.
    pub fn new(arguments: Arguments, scan: ScanDir) -> (run: Renamer)
        ensures
            run.deep_view() == begun(arguments.deep_view(), scan.deep_view()),
    {
        let first: u16 = arguments.episode_index;
        let (structured, seasons) = match scan {
            ScanDir::Episodes(season) => {
                let mut seasons: Vec<Season> = Vec::new();
                seasons.push(season);
                assert(seasons.deep_view() == seq![season.deep_view()]);
                (false, seasons)
            },
            ScanDir::Seasons(seasons) => (true, seasons),
        };
        let logged = arguments.log_changes;
        let run = Renamer {
            arguments: arguments,
            structured: structured,
            seasons: seasons,
            season_at: 0,
            episode_at: 0,
            episode_no: if structured {
                1
            } else {
                first
            },
            phase: Phase::Head,
        };
        if logged {
            run
        } else {
            run.seek(0)
        }
    }

    /// What the run wants done next. The run is sound, whatever was done with
    /// it before.
    pub fn pending(&self) -> (action: Action)
        ensures
            action.deep_view() == wanted(self.deep_view()),
            is_sound(self.deep_view()),
    {
        proof {
            use_type_invariant(self);
        }
        match &self.phase {
            Phase::Head => Action::LogTime,
            Phase::Done => Action::Finish,
            Phase::Failed(why) => Action::Abort(why.duplicate()),
            phase => {
                let season = &self.seasons[self.season_at];
                let source = season.episodes[self.episode_at].clone();
                proof {
                    assert(self.seasons.deep_view()[self.season_at as int] == season.deep_view());
                    assert(season.episodes.deep_view()[self.episode_at as int] == source@);
                }
                match phase {
                    Phase::Lookup => Action::Lookup {
                        series: self.arguments.series_name.clone(),
                        season: season.season_no,
                        episode: self.episode_no,
                    },
                    Phase::Probe(target) => Action::Probe { target: target.clone() },
                    Phase::Ask(target) => Action::Ask { target: target.clone() },
                    Phase::Rename(target) => Action::Rename {
                        source: source,
                        target: target.clone(),
                        print: self.arguments.verbose,
                        log: self.arguments.log_changes,
                    },
                    Phase::Preview(target) => Action::Preview {
                        source: source,
                        target: target.clone(),
                    },
                    Phase::Skip(target) => Action::Skip { source: source, target: target.clone() },
                    _ => Action::Finish,
                }
            },
        }
    }

    /// Takes the answer to what the run wanted done, and goes on. An answer
    /// to anything else changes nothing.
    pub fn answered(self, event: Event) -> (run: Renamer)
        ensures
            run.deep_view() == advanced(self.deep_view(), event.deep_view()),
    {
        proof {
            use_type_invariant(&self);
        }
        match (&self.phase, event) {
            (Phase::Head, Event::Told) => self.seek(0),
            (Phase::Lookup, Event::Looked(lookup)) => self.take_lookup(&lookup),
            (Phase::Lookup, Event::SeriesUnknown) => self.fail(RenameErr::SeriesLookupFailed),
            (Phase::Probe(target), Event::Probed(exists)) => {
                let target = target.clone();
                if !exists {
                    self.clear(target)
                } else {
                    let phase = match self.arguments.collision() {
                        Collision::Skip => Phase::Skip(target),
                        Collision::Ask => Phase::Ask(target),
                    };
                    Renamer { phase: phase, ..self }
                }
            },
            (Phase::Ask(target), Event::Answered(yes)) => {
                let target = target.clone();
                if yes {
                    self.clear(target)
                } else {
                    self.fail(RenameErr::TargetExists(target))
                }
            },
            (Phase::Rename(_), Event::Moved) => self.leave(),
            (Phase::Rename(target), Event::Unmoved(cause)) => {
                let target = target.clone();
                let source = self.seasons[self.season_at].episodes[self.episode_at].clone();
                proof {
                    let season = self.seasons[self.season_at as int];
                    assert(self.seasons.deep_view()[self.season_at as int] == season.deep_view());
                    assert(season.episodes.deep_view()[self.episode_at as int] == source@);
                }
                self.fail(RenameErr::RenameFailed(source, target, cause))
            },
            (Phase::Preview(_), Event::Told) => self.leave(),
            (Phase::Skip(_), Event::Told) => self.leave(),
            _ => self,
        }
    }
}

} // verus!
