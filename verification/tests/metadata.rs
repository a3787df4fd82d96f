use tv_renamer::metadata::{find_episode, parse_air_date, EpisodeRecord};
use tv_renamer::target::{AirDate, EpisodeInfo};

fn record(season: u32, number: u32, title: &str, first_aired: Option<&str>) -> EpisodeRecord {
    EpisodeRecord {
        season: Some(season),
        number: Some(number),
        title: Some(String::from(title)),
        first_aired: first_aired.map(String::from),
    }
}

#[test]
fn dates_are_read_as_year_month_and_day() {
    assert_eq!(parse_air_date("2003-07-01"), Some(AirDate { year: 2003, month: 7, day: 1 }));
    assert_eq!(parse_air_date("1999-12-31"), Some(AirDate { year: 1999, month: 12, day: 31 }));
    assert_eq!(parse_air_date("5-6-7"), Some(AirDate { year: 5, month: 6, day: 7 }));
    assert_eq!(parse_air_date("0002003-007-001"), Some(AirDate { year: 2003, month: 7, day: 1 }));
    assert_eq!(
        parse_air_date("4294967295-0-0"),
        Some(AirDate { year: 4294967295, month: 0, day: 0 })
    );
}

#[test]
fn what_is_no_date_is_read_as_none() {
    for text in [
        "", "2003", "2003-07", "2003-07-", "-07-01", "2003--01", "2003-07-01-", "2003-07-01-02", "2003/07/01",
        "+2003-07-01", "2003-+7-01", "2003-07-1a", " 2003-07-01", "2003-07-01 ", "4294967296-1-1", "--", "-",
    ] {
        assert_eq!(parse_air_date(text), None, "{:?}", text);
    }
}

#[test]
fn episode_is_found_by_season_and_number() {
    let records = vec![
        record(1, 1, "Pilot", Some("2001-10-02")),
        record(1, 2, "Second", None),
        record(2, 1, "Return", Some("not a date")),
        EpisodeRecord { season: Some(2), number: Some(2), title: None, first_aired: Some(String::from("2002-09-27")) },
        EpisodeRecord { season: None, number: Some(3), title: Some(String::from("Lost")), first_aired: None },
        EpisodeRecord { season: Some(2), number: None, title: Some(String::from("Lost")), first_aired: None },
    ];
    assert_eq!(
        find_episode(&records, 1, 1),
        Some(EpisodeInfo { title: String::from("Pilot"), first_aired: Some(AirDate { year: 2001, month: 10, day: 2 }) })
    );
    assert_eq!(find_episode(&records, 1, 2), Some(EpisodeInfo { title: String::from("Second"), first_aired: None }));
    assert_eq!(find_episode(&records, 2, 1), Some(EpisodeInfo { title: String::from("Return"), first_aired: None }));
    assert_eq!(
        find_episode(&records, 2, 2),
        Some(EpisodeInfo { title: String::new(), first_aired: Some(AirDate { year: 2002, month: 9, day: 27 }) })
    );
    assert_eq!(find_episode(&records, 2, 3), None);
    assert_eq!(find_episode(&records, 3, 1), None);
    assert_eq!(find_episode(&records, 0, 0), None);
    assert_eq!(find_episode(&Vec::new(), 1, 1), None);
}

#[test]
fn the_first_record_of_an_episode_counts() {
    let records = vec![record(1, 1, "First", None), record(1, 1, "Second", None)];
    assert_eq!(find_episode(&records, 1, 1), Some(EpisodeInfo { title: String::from("First"), first_aired: None }));
}
