use vstd::prelude::*;
use crate::season::{all_digits, digits_value, parse_within, parsed_number, parsed_within};
use crate::target::{AirDate, EpisodeInfo, EpisodeInfoView};
use crate::text::{chars_of, find, index_of, part};

verus! {

/// What the metadata service lists of one episode of a series.
#[derive(Clone, Debug, PartialEq, Eq)]
pub struct EpisodeRecord {
    /// The number of the season in which the episode was aired.
    pub season: Option<u32>,
    /// The number of the episode in that season.
    pub number: Option<u32>,
    /// The title of the episode.
    pub title: Option<String>,
    /// The day on which it was first aired, written as year, month and day
    /// with dashes between them.
    pub first_aired: Option<String>,
}

/// A record of the metadata service as a mathematical value.
pub ghost struct EpisodeRecordView {
    pub season: Option<u32>,
    pub number: Option<u32>,
    pub title: Option<Seq<char>>,
    pub first_aired: Option<Seq<char>>,
}

/// The characters of a text that may be missing.
pub open spec fn text_view(text: Option<String>) -> Option<Seq<char>> {
    match text {
        Some(found) => Some(found@),
        None => None,
    }
}

impl DeepView for EpisodeRecord {
    type V = EpisodeRecordView;

    open spec fn deep_view(&self) -> EpisodeRecordView {
        EpisodeRecordView {
            season: self.season,
            number: self.number,
            title: text_view(self.title),
            first_aired: text_view(self.first_aired),
        }
    }
}

/// The number that a part of a date writes: digits only, and no more than a
/// number of 32 bits can hold.
pub open spec fn date_part(text: Seq<char>) -> Option<u32> {
    if text.len() > 0 && all_digits(text) && digits_value(text) <= u32::MAX {
        Some(digits_value(text) as u32)
    } else {
        None
    }
}

/// The date that a text writes as year, month and day with a dash between
/// the year and the month and a dash between the month and the day.
pub open spec fn air_date_of(text: Seq<char>) -> Option<AirDate> {
    let first = index_of(text, '-', 0);
    let second = index_of(text, '-', first + 1);
    if first < text.len() && second < text.len() {
        match (
            date_part(text.subrange(0, first)),
            date_part(text.subrange(first + 1, second)),
            date_part(text.subrange(second + 1, text.len() as int)),
        ) {
            (Some(year), Some(month), Some(day)) => Some(
                AirDate { year: year, month: month, day: day },
            ),
            _ => None,
        }
    } else {
        None
    }
}

/// Whether a record is that of episode `episode` of season `season`.
pub open spec fn is_episode(record: EpisodeRecordView, season: u8, episode: u16) -> bool {
    record.season == Some(season as u32) && record.number == Some(episode as u32)
}

/// What a record tells of its episode: the title, empty where there is
/// none, and the day on which it was first aired, where the record writes one.
pub open spec fn info_of(record: EpisodeRecordView) -> EpisodeInfoView {
    EpisodeInfoView {
        title: match record.title {
            Some(title) => title,
            None => Seq::empty(),
        },
        first_aired: match record.first_aired {
            Some(text) => air_date_of(text),
            None => None,
        },
    }
}

/// What the first record of episode `episode` of season `season` tells, if
/// there is such a record.
pub open spec fn found_episode(records: Seq<EpisodeRecordView>, season: u8, episode: u16) -> Option<
    EpisodeInfoView,
>
    decreases records.len(),
{
    if records.len() == 0 {
        None
    } else if is_episode(records.first(), season, episode) {
        Some(info_of(records.first()))
    } else {
        found_episode(records.drop_first(), season, episode)
    }
}

/// Reads one part of a date.
fn parse_date_part(text: &Vec<char>) -> (number: Option<u32>)
    ensures
        number == date_part(text@),
{
    if text.len() == 0 || text[0] == '+' {
        assert(date_part(text@) is None) by {
            if text.len() > 0 {
                assert(!crate::season::is_digit(text@[0]));
            }
        }
        return None;
    }
    assert(parsed_number(text@) == if all_digits(text@) {
        Some(digits_value(text@))
    } else {
        None
    });
    parse_within(text, u32::MAX)
}

/// Reads a date that is written as year, month and day with dashes between
/// them.
pub fn parse_air_date(text: &str) -> (date: Option<AirDate>)
    ensures
        date == air_date_of(text@),
{
    let all = chars_of(text);
    let first: usize = find(&all, '-', 0);
    if first >= all.len() {
        return None;
    }
    let second: usize = find(&all, '-', first + 1);
    if second >= all.len() {
        return None;
    }
    let year = parse_date_part(&part(&all, 0, first));
    let month = parse_date_part(&part(&all, first + 1, second));
    let day = parse_date_part(&part(&all, second + 1, all.len()));
    match (year, month, day) {
        (Some(year), Some(month), Some(day)) => Some(
            AirDate { year: year, month: month, day: day },
        ),
        _ => None,
    }
}

/// Whether `found` tells what `expected` tells.
pub open spec fn is_info(found: Option<EpisodeInfo>, expected: Option<EpisodeInfoView>) -> bool {
    match found {
        Some(info) => expected == Some(info.deep_view()),
        None => expected is None,
    }
}

/// Looks among the records of a series for episode `episode` of season
/// `season`, and tells what the first such record holds.
pub fn find_episode(records: &Vec<EpisodeRecord>, season: u8, episode: u16) -> (info: Option<
    EpisodeInfo,
>)
    ensures
        is_info(info, found_episode(records.deep_view(), season, episode)),
{
    let ghost all = records.deep_view();
    let mut at: usize = 0;
    assert(all.skip(0) == all);
    while at < records.len()
        invariant
            at <= records.len(),
            all == records.deep_view(),
            found_episode(all, season, episode) == found_episode(
                all.skip(at as int),
                season,
                episode,
            ),
        decreases records.len() - at,
    {
        let record = &records[at];
        proof {
            assert(all.skip(at as int).first() == record.deep_view());
            assert(all.skip(at as int).drop_first() == all.skip(at + 1));
        }
        let in_season = match record.season {
            Some(number) => number == season as u32,
            None => false,
        };
        let in_place = match record.number {
            Some(number) => number == episode as u32,
            None => false,
        };
        if in_season && in_place {
            let title = match &record.title {
                Some(title) => title.clone(),
                None => String::new(),
            };
            let first_aired = match &record.first_aired {
                Some(text) => parse_air_date(text.as_str()),
                None => None,
            };
            return Some(EpisodeInfo { title: title, first_aired: first_aired });
        }
        at += 1;
    }
    None
}

} // verus!
