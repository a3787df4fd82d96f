use vstd::prelude::*;
use crate::digits::{decimal, padded, push_decimal, push_padded};
use crate::paths::{extension, extension_of, join, joined, parent, parent_of};
use crate::text::{push_chars, string_of, trim, trimmed};
use crate::tokenizer::{default_template, default_tokens, TemplateToken};

verus! {

/// The day on which an episode was first aired.
#[derive(Clone, Copy, Debug, PartialEq, Eq)]
pub struct AirDate {
    pub year: u32,
    pub month: u32,
    pub day: u32,
}

/// What the metadata service knows of one episode.
#[derive(Clone, Debug, PartialEq, Eq)]
pub struct EpisodeInfo {
    /// The title of the episode.
    pub title: String,
    /// The day on which it was first aired, where the service knows it.
    pub first_aired: Option<AirDate>,
}

/// The knowledge of one episode as a mathematical value.
pub ghost struct EpisodeInfoView {
    pub title: Seq<char>,
    pub first_aired: Option<AirDate>,
}

impl DeepView for EpisodeInfo {
    type V = EpisodeInfoView;

    open spec fn deep_view(&self) -> EpisodeInfoView {
        EpisodeInfoView { title: self.title@, first_aired: self.first_aired }
    }
}

/// How the lookup of one episode at the metadata service ended.
#[derive(Clone, Debug, PartialEq, Eq)]
pub enum Lookup {
    /// Nothing was asked, because the template needs nothing from the service.
    Skipped,
    /// The service knows the episode.
    Found(EpisodeInfo),
    /// The service has no such episode.
    Missing,
}

/// The end of a lookup as a mathematical value.
pub ghost enum LookupView {
    Skipped,
    Found(EpisodeInfoView),
    Missing,
}

impl DeepView for Lookup {
    type V = LookupView;

    open spec fn deep_view(&self) -> LookupView {
        match self {
            Lookup::Skipped => LookupView::Skipped,
            Lookup::Found(info) => LookupView::Found(info.deep_view()),
            Lookup::Missing => LookupView::Missing,
        }
    }
}

/// Why no target could be built for a file.
#[derive(Clone, Copy, Debug, PartialEq, Eq)]
pub enum TargetErr {
    /// The template needs what the metadata service knows of the episode,
    /// and the service has no episode with that number.
    EpisodeDoesNotExist,
    /// The source file has no extension.
    Extension,
    /// The source path has no parent directory.
    Parent,
}

/// The settings of one run.
#[derive(Clone, Debug, PartialEq, Eq)]
pub struct Arguments {
    /// Take the seasons from the directories below the base directory. The
    /// scan of a directory tells from its listing whether it holds seasons,
    /// whatever this says; it is kept for those who read the settings.
    pub automatic: bool,
    /// Show what would be done, and change nothing.
    pub dry_run: bool,
    /// Write the time of the run and every change to the log.
    pub log_changes: bool,
    /// Show every change as it is made.
    pub verbose: bool,
    /// Leave a file whose target exists as it is and go on, where else the
    /// operator is asked.
    pub skip_existing: bool,
    /// The number of the season, where the base directory holds the episodes.
    pub season_index: u8,
    /// The least number of digits in an episode number.
    pub pad_length: u8,
    /// The number of the first episode.
    pub episode_index: u16,
    /// The directory that holds the episodes or the seasons.
    pub base_directory: String,
    /// The name of the series.
    pub series_name: String,
    /// The naming scheme.
    pub template: Vec<TemplateToken>,
}

/// The settings of one run as a mathematical value.
pub ghost struct ArgumentsView {
    pub automatic: bool,
    pub dry_run: bool,
    pub log_changes: bool,
    pub verbose: bool,
    pub skip_existing: bool,
    pub season_index: u8,
    pub pad_length: u8,
    pub episode_index: u16,
    pub base_directory: Seq<char>,
    pub series_name: Seq<char>,
    pub template: Seq<TemplateToken>,
}

impl DeepView for Arguments {
    type V = ArgumentsView;

    open spec fn deep_view(&self) -> ArgumentsView {
        ArgumentsView {
            automatic: self.automatic,
            dry_run: self.dry_run,
            log_changes: self.log_changes,
            verbose: self.verbose,
            skip_existing: self.skip_existing,
            season_index: self.season_index,
            pad_length: self.pad_length,
            episode_index: self.episode_index,
            base_directory: self.base_directory@,
            series_name: self.series_name@,
            template: self.template@,
        }
    }
}

/// The settings before any argument is read: season 1, episodes from 1 with
/// two digits at least, the default template, and nothing switched on.
pub open spec fn default_settings() -> ArgumentsView {
    ArgumentsView {
        automatic: false,
        dry_run: false,
        log_changes: false,
        verbose: false,
        skip_existing: false,
        season_index: 1,
        pad_length: 2,
        episode_index: 1,
        base_directory: Seq::empty(),
        series_name: Seq::empty(),
        template: default_tokens(),
    }
}

impl Default for Arguments {
    /// The settings before anything is asked for.
    fn default() -> (settings: Arguments)
        ensures
            settings.deep_view() == default_settings(),
    {
        Arguments {
            automatic: false,
            dry_run: false,
            log_changes: false,
            verbose: false,
            skip_existing: false,
            season_index: 1,
            pad_length: 2,
            episode_index: 1,
            base_directory: String::new(),
            series_name: String::new(),
            template: default_template(),
        }
    }
}

/// What the placeholders of a template are filled with for one episode.
pub ghost struct Fill {
    pub series: Seq<char>,
    pub season: nat,
    pub episode: nat,
    pub pad: nat,
    pub title: Seq<char>,
    pub aired: Option<AirDate>,
}

/// A date written as year, month and day with dashes between them, month and
/// day with two digits at least.
pub open spec fn date_text(date: AirDate) -> Seq<char> {
    decimal(date.year as nat) + seq!['-'] + padded(date.month as nat, '0', 2) + seq!['-'] + padded(
        date.day as nat,
        '0',
        2,
    )
}

/// The text that one token stands for.
pub open spec fn token_text(token: TemplateToken, fill: Fill) -> Seq<char> {
    match token {
        TemplateToken::Character(c) => seq![c],
        TemplateToken::Series => fill.series,
        TemplateToken::Season => decimal(fill.season),
        TemplateToken::Episode => padded(fill.episode, '0', fill.pad),
        TemplateToken::TVDB => fill.title,
        TemplateToken::TvdbFirstAired => match fill.aired {
            Some(date) => date_text(date),
            None => Seq::empty(),
        },
    }
}

/// The texts of all tokens, one after the other.
pub open spec fn rendered(tokens: Seq<TemplateToken>, fill: Fill) -> Seq<char>
    decreases tokens.len(),
{
    if tokens.len() == 0 {
        Seq::empty()
    } else {
        rendered(tokens.drop_last(), fill) + token_text(tokens.last(), fill)
    }
}

/// `text` with a dash in the place of every slash.
pub open spec fn dashed(text: Seq<char>) -> Seq<char> {
    text.map_values(
        |c: char|
            if c == '/' {
                '-'
            } else {
                c
            },
    )
}

/// The name of the target file: what the template renders to, without white
/// space at its ends and with dashes for slashes, then a dot and the
/// extension of the source file.
pub open spec fn target_name(tokens: Seq<TemplateToken>, fill: Fill, ending: Seq<char>) -> Seq<
    char,
> {
    dashed(trimmed(rendered(tokens, fill))) + seq!['.'] + ending
}

/// The title that a lookup gives: empty unless the episode was found.
pub open spec fn title_of(lookup: LookupView) -> Seq<char> {
    match lookup {
        LookupView::Found(info) => info.title,
        _ => Seq::empty(),
    }
}

/// The date that a lookup gives, if it gives one.
pub open spec fn aired_of(lookup: LookupView) -> Option<AirDate> {
    match lookup {
        LookupView::Found(info) => info.first_aired,
        _ => None,
    }
}

/// What the placeholders are filled with for one episode of a run.
pub open spec fn fill_for(
    arguments: ArgumentsView,
    season_no: u8,
    episode_no: u16,
    lookup: LookupView,
) -> Fill {
    Fill {
        series: arguments.series_name,
        season: season_no as nat,
        episode: episode_no as nat,
        pad: arguments.pad_length as nat,
        title: title_of(lookup),
        aired: aired_of(lookup),
    }
}

/// Whether a token is filled in from the metadata service.
pub open spec fn is_looked_up(token: TemplateToken) -> bool {
    token is TVDB || token is TvdbFirstAired
}

/// Whether a template holds a token that is filled in from the metadata
/// service.
pub open spec fn needs_lookup(template: Seq<TemplateToken>) -> bool {
    exists|i: int| 0 <= i < template.len() && is_looked_up(#[trigger] template[i])
}

/// Whether the lookup of an episode has failed where the template needs
/// what the metadata service knows. A lookup that found nothing for a
/// template that asks for nothing is no failure.
pub open spec fn lacks_episode(arguments: ArgumentsView, lookup: LookupView) -> bool {
    lookup is Missing && needs_lookup(arguments.template)
}

/// The target of `source` in the directory `directory`, or the reason why it
/// has none: an episode that the template needs and the metadata service
/// does not have first, a source without extension next.
pub open spec fn target_in(
    directory: Seq<char>,
    source: Seq<char>,
    arguments: ArgumentsView,
    season_no: u8,
    episode_no: u16,
    lookup: LookupView,
) -> Result<Seq<char>, TargetErr> {
    if lacks_episode(arguments, lookup) {
        Err(TargetErr::EpisodeDoesNotExist)
    } else {
        match extension_of(source) {
            None => Err(TargetErr::Extension),
            Some(ending) => Ok(
                joined(
                    directory,
                    target_name(
                        arguments.template,
                        fill_for(arguments, season_no, episode_no, lookup),
                        ending,
                    ),
                ),
            ),
        }
    }
}

/// The target of `source` beside it, in its own directory, or the reason why
/// it has none: an episode that the template needs and the metadata service
/// does not have first, a source without extension next, a source without
/// parent directory last.
pub open spec fn target_of(
    source: Seq<char>,
    arguments: ArgumentsView,
    season_no: u8,
    episode_no: u16,
    lookup: LookupView,
) -> Result<Seq<char>, TargetErr> {
    if lacks_episode(arguments, lookup) {
        Err(TargetErr::EpisodeDoesNotExist)
    } else if extension_of(source) is None {
        Err(TargetErr::Extension)
    } else {
        match parent_of(source) {
            None => Err(TargetErr::Parent),
            Some(directory) => target_in(
                directory,
                source,
                arguments,
                season_no,
                episode_no,
                lookup,
            ),
        }
    }
}

/// Whether `found` is the path or the error that `expected` names.
pub open spec fn is_target(
    found: Result<String, TargetErr>,
    expected: Result<Seq<char>, TargetErr>,
) -> bool {
    match found {
        Ok(path) => expected == Ok::<Seq<char>, TargetErr>(path@),
        Err(why) => expected == Err::<Seq<char>, TargetErr>(why),
    }
}

/// A dash stands wherever a slash stood, every other character stays where
/// and what it was: no slash is left, and none is dropped.
pub proof fn lemma_dashed(text: Seq<char>)
    ensures
        dashed(text).len() == text.len(),
        forall|i: int| 0 <= i < text.len() ==> #[trigger] dashed(text)[i] != '/',
        forall|i: int| 0 <= i < text.len() && text[i] == '/' ==> #[trigger] dashed(text)[i] == '-',
        forall|i: int|
            0 <= i < text.len() && text[i] != '/' ==> #[trigger] dashed(text)[i] == text[i],
{
}

/// The name of a target begins with what the template renders to, without
/// white space at its ends and with a dash wherever that holds a slash: no
/// slash is kept and none is dropped. Then come a dot and the extension.
pub proof fn lemma_target_name(tokens: Seq<TemplateToken>, fill: Fill, ending: Seq<char>)
    ensures
        ({
            let name = target_name(tokens, fill, ending);
            let text = trimmed(rendered(tokens, fill));
            &&& name.len() == text.len() + 1 + ending.len()
            &&& forall|i: int| 0 <= i < text.len() ==> #[trigger] name[i] != '/'
            &&& forall|i: int| 0 <= i < text.len() && text[i] == '/' ==> #[trigger] name[i] == '-'
            &&& forall|i: int|
                0 <= i < text.len() && text[i] != '/' ==> #[trigger] name[i] == text[i]
            &&& name[text.len() as int] == '.'
            &&& name.skip(text.len() as int + 1) == ending
        }),
{
    let text = trimmed(rendered(tokens, fill));
    lemma_dashed(text);
    let name = target_name(tokens, fill, ending);
    assert forall|i: int| 0 <= i < text.len() implies #[trigger] name[i] == dashed(text)[i] by {}
}

/// Rendering goes token by token: the text of a longer template begins with
/// the text of the shorter one.
pub proof fn lemma_rendered_push(tokens: Seq<TemplateToken>, token: TemplateToken, fill: Fill)
    ensures
        rendered(tokens.push(token), fill) == rendered(tokens, fill) + token_text(token, fill),
{
    assert(tokens.push(token).drop_last() == tokens);
}

/// Tells whether a template holds a token that is filled in from the
/// metadata service.
pub fn template_needs_lookup(template: &Vec<TemplateToken>) -> (needed: bool)
    ensures
        needed == needs_lookup(template@),
{
    let mut at: usize = 0;
    while at < template.len()
        invariant
            at <= template.len(),
            forall|i: int| 0 <= i < at ==> !is_looked_up(#[trigger] template@[i]),
        decreases template.len() - at,
    {
        match template[at] {
            TemplateToken::TVDB => {
                assert(is_looked_up(template@[at as int]));
                return true;
            },
            TemplateToken::TvdbFirstAired => {
                assert(is_looked_up(template@[at as int]));
                return true;
            },
            _ => {},
        }
        at += 1;
    }
    false
}

/// Tells whether the lookup of an episode has failed where the template
/// needs what the metadata service knows.
fn is_lacking(arguments: &Arguments, lookup: &Lookup) -> (lacking: bool)
    ensures
        lacking == lacks_episode(arguments.deep_view(), lookup.deep_view()),
{
    match lookup {
        Lookup::Missing => template_needs_lookup(&arguments.template),
        _ => false,
    }
}

/// Appends a date as `date_text` writes it.
fn push_date(out: &mut Vec<char>, date: AirDate)
    ensures
        final(out)@ == old(out)@ + date_text(date),
{
    let ghost before = out@;
    push_decimal(out, date.year as usize);
    out.push('-');
    push_padded(out, date.month as usize, '0', 2);
    out.push('-');
    push_padded(out, date.day as usize, '0', 2);
    assert(out@ == before + date_text(date));
}

/// Renders the template for one episode: the texts of its tokens, one
/// after the other.
pub fn render(arguments: &Arguments, season_no: u8, episode_no: u16, lookup: &Lookup) -> (text: Vec<
    char,
>)
    ensures
        text@ == rendered(
            arguments.template@,
            fill_for(arguments.deep_view(), season_no, episode_no, lookup.deep_view()),
        ),
{
    let ghost fill = fill_for(arguments.deep_view(), season_no, episode_no, lookup.deep_view());
    let mut text: Vec<char> = Vec::new();
    let mut at: usize = 0;
    while at < arguments.template.len()
        invariant
            at <= arguments.template.len(),
            fill == fill_for(arguments.deep_view(), season_no, episode_no, lookup.deep_view()),
            text@ == rendered(arguments.template@.take(at as int), fill),
        decreases arguments.template.len() - at,
    {
        let ghost before = text@;
        match &arguments.template[at] {
            TemplateToken::Character(value) => text.push(*value),
            TemplateToken::Series => push_chars(&mut text, arguments.series_name.as_str()),
            TemplateToken::Season => push_decimal(&mut text, season_no as usize),
            TemplateToken::Episode => push_padded(
                &mut text,
                episode_no as usize,
                '0',
                arguments.pad_length as usize,
            ),
            TemplateToken::TVDB => match lookup {
                Lookup::Found(info) => push_chars(&mut text, info.title.as_str()),
                _ => {},
            },
            TemplateToken::TvdbFirstAired => match lookup {
                Lookup::Found(info) => match info.first_aired {
                    Some(date) => push_date(&mut text, date),
                    None => {},
                },
                _ => {},
            },
        }
        proof {
            let tokens = arguments.template@;
            assert(text@ == before + token_text(tokens[at as int], fill));
            assert(tokens.take(at + 1) == tokens.take(at as int).push(tokens[at as int]));
            lemma_rendered_push(tokens.take(at as int), tokens[at as int], fill);
        }
        at += 1;
    }
    assert(arguments.template@.take(arguments.template.len() as int) == arguments.template@);
    text
}

/// Puts a dash in the place of every slash.
fn replace_slashes(text: &Vec<char>) -> (clean: Vec<char>)
    ensures
        clean@ == dashed(text@),
{
    let mut clean: Vec<char> = Vec::new();
    let mut at: usize = 0;
    while at < text.len()
        invariant
            at <= text.len(),
            clean@ == dashed(text@.take(at as int)),
        decreases text.len() - at,
    {
        let c = text[at];
        clean.push(
            if c == '/' {
                '-'
            } else {
                c
            },
        );
        assert(dashed(text@.take(at + 1)) == dashed(text@.take(at as int)).push(
            if text@[at as int] == '/' {
                '-'
            } else {
                text@[at as int]
            },
        ));
        at += 1;
    }
    assert(text@.take(text.len() as int) == text@);
    clean
}

/// Builds the name of the target file for one episode: what the template
/// renders to, without white space at its ends and with dashes for slashes,
/// then a dot and `ending`, the extension of the source file.
pub fn name_with_ending(
    arguments: &Arguments,
    season_no: u8,
    episode_no: u16,
    lookup: &Lookup,
    ending: &str,
) -> (name: String)
    ensures
        name@ == target_name(
            arguments.template@,
            fill_for(arguments.deep_view(), season_no, episode_no, lookup.deep_view()),
            ending@,
        ),
{
    let text = render(arguments, season_no, episode_no, lookup);
    let mut name = replace_slashes(&trim(&text));
    name.push('.');
    push_chars(&mut name, ending);
    string_of(&name)
}

/// Builds the path to which `source` is renamed as episode `episode_no` of
/// season `season_no`: the rendered template with the extension of `source`,
/// in the directory in which `source` lies.
pub fn collect_target(
    source: &str,
    season_no: u8,
    episode_no: u16,
    arguments: &Arguments,
    lookup: &Lookup,
) -> (target: Result<String, TargetErr>)
    ensures
        is_target(
            target,
            target_of(source@, arguments.deep_view(), season_no, episode_no, lookup.deep_view()),
        ),
{
    if is_lacking(arguments, lookup) {
        return Err(TargetErr::EpisodeDoesNotExist);
    }
    let ending = match extension(source) {
        Some(ending) => ending,
        None => {
            return Err(TargetErr::Extension);
        },
    };
    let name = name_with_ending(arguments, season_no, episode_no, lookup, ending.as_str());
    match parent(source) {
        Some(directory) => Ok(join(directory.as_str(), name.as_str())),
        None => Err(TargetErr::Parent),
    }
}

impl Arguments {
    /// Builds the path to which `file` is renamed as episode `episode` of the
    /// season that these settings name: the rendered template with the
    /// extension of `file`, in the directory `directory`.
    pub fn get_destination(
        &self,
        directory: &str,
        file: &str,
        episode: u16,
        lookup: &Lookup,
    ) -> (target: Result<String, TargetErr>)
        ensures
            is_target(
                target,
                target_in(
                    directory@,
                    file@,
                    self.deep_view(),
                    self.season_index,
                    episode,
                    lookup.deep_view(),
                ),
            ),
    {
        if is_lacking(self, lookup) {
            return Err(TargetErr::EpisodeDoesNotExist);
        }
        match extension(file) {
            Some(ending) => {
                let name = name_with_ending(
                    self,
                    self.season_index,
                    episode,
                    lookup,
                    ending.as_str(),
                );
                Ok(join(directory, name.as_str()))
            },
            None => Err(TargetErr::Extension),
        }
    }
}

} // verus!
