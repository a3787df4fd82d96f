use tv_renamer::season::{derive_season_number, parse_number, season_number_of};

#[test]
fn test_derive_season_number() {
    assert_eq!(derive_season_number("Specials"), Some(0));
    assert_eq!(derive_season_number("Season 0"), Some(0));
    assert_eq!(derive_season_number("Season 1"), Some(1));
    assert_eq!(derive_season_number("season9"), Some(9));
    assert_eq!(derive_season_number("Extras"), None);
}

#[test]
fn season_number_comes_from_the_last_component() {
    assert_eq!(derive_season_number("/media/Season 3/Season 12"), Some(12));
    assert_eq!(derive_season_number("/media/Season 3/extras"), None);
    assert_eq!(derive_season_number("/media/show/Season 04/"), Some(4));
    assert_eq!(derive_season_number("/"), None);
    assert_eq!(derive_season_number(".."), None);
}

#[test]
fn season_names_are_read_without_regard_to_case() {
    assert_eq!(derive_season_number("SEASON 7"), Some(7));
    assert_eq!(derive_season_number("SeAsOn0"), Some(0));
    assert_eq!(derive_season_number("SPECIALS"), Some(0));
    assert_eq!(derive_season_number("sEaSoN 2 5"), Some(25));
}

#[test]
fn season_number_of_a_lowercase_name() {
    assert_eq!(season_number_of("season0"), Some(0));
    assert_eq!(season_number_of("season 0"), Some(0));
    assert_eq!(season_number_of("specials"), Some(0));
    assert_eq!(season_number_of("season 10"), Some(10));
    assert_eq!(season_number_of("12"), Some(12));
    assert_eq!(season_number_of("season"), None);
    assert_eq!(season_number_of(""), None);
    assert_eq!(season_number_of("season one"), None);
    assert_eq!(season_number_of("season 1a"), None);
    assert_eq!(season_number_of("specials 2"), None);
    assert_eq!(season_number_of("season 255"), Some(255));
    assert_eq!(season_number_of("season 256"), None);
    assert_eq!(season_number_of("season 0003"), Some(3));
    assert_eq!(season_number_of("season +4"), Some(4));
    assert_eq!(season_number_of("season -4"), None);
    assert_eq!(season_number_of("season season 5"), Some(5));
    assert_eq!(season_number_of("seaseasonson 5"), None);
}

#[test]
fn uppercase_is_not_lowered_by_the_inner_function() {
    assert_eq!(season_number_of("Season 1"), None);
    assert_eq!(derive_season_number("Season 1"), Some(1));
}

#[test]
fn numbers_are_parsed_as_the_standard_library_does() {
    let texts = [
        "", "+", "-", "0", "00", "+0", "-0", "7", "+7", "++7", "7+", " 7", "7 ", "007", "255", "256",
        "0255", "999999999999999999999999", "1_0", "12a", "a12", "٣",
    ];
    for text in texts {
        let chars: Vec<char> = text.chars().collect();
        assert_eq!(parse_number(&chars), text.parse::<u8>().ok(), "{:?}", text);
    }
}
