use tv_renamer::cli::{
    is_yes, parse_arguments, parse_directory, series_name, ParseError, Parsed, WorkingDirectory,
};
use tv_renamer::rename::Collision;
use tv_renamer::target::Arguments;
use tv_renamer::tokenizer::{default_template, tokenize_template};

fn args(list: &[&str]) -> Vec<String> {
    list.iter().map(|text| String::from(*text)).collect()
}

fn here() -> WorkingDirectory {
    WorkingDirectory::Known(String::from("/home/me/Some Show"))
}

fn defaults(directory: &str, series: &str) -> Arguments {
    Arguments {
        automatic: false,
        dry_run: false,
        log_changes: false,
        verbose: false,
        skip_existing: false,
        season_index: 1,
        pad_length: 2,
        episode_index: 1,
        base_directory: String::from(directory),
        series_name: String::from(series),
        template: default_template(),
    }
}

#[test]
fn no_arguments_give_the_defaults_in_the_current_directory() {
    assert_eq!(
        parse_arguments(&Vec::new(), &here()),
        Ok(Parsed::Run(defaults("/home/me/Some Show", "Some Show")))
    );
    assert_eq!(parse_arguments(&Vec::new(), &WorkingDirectory::Unknown), Err(ParseError::NoCWD));
    assert_eq!(parse_arguments(&Vec::new(), &WorkingDirectory::NotText), Err(ParseError::CWDNotValid));
}

#[test]
fn the_directory_names_the_series_unless_a_name_is_given() {
    assert_eq!(
        parse_arguments(&args(&["/tv/The Show"]), &WorkingDirectory::Unknown),
        Ok(Parsed::Run(defaults("/tv/The Show", "The Show")))
    );
    assert_eq!(
        parse_arguments(&args(&["-n", "Other", "/tv/The Show"]), &here()),
        Ok(Parsed::Run(defaults("/tv/The Show", "Other")))
    );
    assert_eq!(
        parse_arguments(&args(&["--series-name", "A", "-n", "B"]), &here()),
        Ok(Parsed::Run(defaults("/home/me/Some Show", "AB")))
    );
    assert_eq!(parse_arguments(&args(&["/"]), &here()), Ok(Parsed::Run(defaults("/", ""))));
}

#[test]
fn options_set_the_settings() {
    let found = parse_arguments(
        &args(&["-a", "-d", "/tv/S", "-l", "-v", "-s", "3", "-e", "12", "-p", "4", "-t", "${Episode} x"]),
        &here(),
    );
    let mut expected = defaults("/tv/S", "S");
    expected.automatic = true;
    expected.dry_run = true;
    expected.log_changes = true;
    expected.verbose = true;
    expected.season_index = 3;
    expected.episode_index = 12;
    expected.pad_length = 4;
    expected.template = tokenize_template("${Episode} x");
    assert_eq!(found, Ok(Parsed::Run(expected)));
    let long = parse_arguments(
        &args(&[
            "--automatic",
            "--dry-run",
            "--log-changes",
            "--verbose",
            "--season-number",
            "0",
            "--episode-start",
            "65535",
            "--pad-length",
            "255",
            "--template",
            "x",
        ]),
        &here(),
    );
    let mut expected = defaults("/home/me/Some Show", "Some Show");
    expected.automatic = true;
    expected.dry_run = true;
    expected.log_changes = true;
    expected.verbose = true;
    expected.season_index = 0;
    expected.episode_index = 65535;
    expected.pad_length = 255;
    expected.template = tokenize_template("x");
    assert_eq!(long, Ok(Parsed::Run(expected)));
}

#[test]
fn help_ends_the_reading() {
    assert_eq!(parse_arguments(&args(&["-h"]), &WorkingDirectory::Unknown), Ok(Parsed::Help));
    assert_eq!(parse_arguments(&args(&["-d", "--help", "--bogus"]), &here()), Ok(Parsed::Help));
    assert_eq!(
        parse_arguments(&args(&["--bogus", "--help"]), &here()),
        Err(ParseError::InvalidArgument(String::from("--bogus")))
    );
}

#[test]
fn options_without_value_are_errors() {
    assert_eq!(parse_arguments(&args(&["-e"]), &here()), Err(ParseError::NoEpisodeIndex));
    assert_eq!(parse_arguments(&args(&["-n"]), &here()), Err(ParseError::NoSeriesName));
    assert_eq!(parse_arguments(&args(&["-s"]), &here()), Err(ParseError::NoSeriesIndex));
    assert_eq!(parse_arguments(&args(&["-t"]), &here()), Err(ParseError::NoTemplate));
    assert_eq!(parse_arguments(&args(&["/tv", "-p"]), &here()), Err(ParseError::NoPadLength));
}

#[test]
fn values_that_are_no_numbers_are_errors() {
    assert_eq!(
        parse_arguments(&args(&["-e", "x1"]), &here()),
        Err(ParseError::EpisodeIndexIsNaN(String::from("x1")))
    );
    assert_eq!(
        parse_arguments(&args(&["-e", "65536"]), &here()),
        Err(ParseError::EpisodeIndexIsNaN(String::from("65536")))
    );
    assert_eq!(
        parse_arguments(&args(&["-s", "256"]), &here()),
        Err(ParseError::SeriesIndexIsNaN(String::from("256")))
    );
    assert_eq!(
        parse_arguments(&args(&["-s", "-1"]), &here()),
        Err(ParseError::SeriesIndexIsNaN(String::from("-1")))
    );
    assert_eq!(
        parse_arguments(&args(&["-p", ""]), &here()),
        Err(ParseError::PadLengthIsNaN(String::from("")))
    );
}

#[test]
fn a_value_may_look_like_an_option() {
    assert_eq!(
        parse_arguments(&args(&["-n", "-d"]), &here()),
        Ok(Parsed::Run(defaults("/home/me/Some Show", "-d")))
    );
}

#[test]
fn a_second_directory_is_an_error() {
    assert_eq!(
        parse_arguments(&args(&["/a", "/b"]), &here()),
        Err(ParseError::TooManyArguments(String::from("/b")))
    );
    assert_eq!(
        parse_arguments(&args(&["", "/b"]), &here()),
        Ok(Parsed::Run(defaults("/b", "b")))
    );
    assert_eq!(
        parse_arguments(&args(&["-x"]), &here()),
        Err(ParseError::InvalidArgument(String::from("-x")))
    );
    assert_eq!(
        parse_arguments(&args(&["-"]), &here()),
        Err(ParseError::InvalidArgument(String::from("-")))
    );
}

#[test]
fn failures_are_told_with_the_name_of_the_program() {
    let cases = [
        (ParseError::NoEpisodeIndex, "tv-renamer: no value was set for the episode count."),
        (ParseError::NoSeriesIndex, "tv-renamer: no value was set for the season number."),
        (ParseError::NoSeriesName, "tv-renamer: no value was set for the series name."),
        (ParseError::NoTemplate, "tv-renamer: no value was set for the template."),
        (ParseError::NoPadLength, "tv-renamer: no value was set for the pad length."),
        (ParseError::EpisodeIndexIsNaN(String::from("x")), "tv-renamer: episode index, `x`, is not a number"),
        (ParseError::SeriesIndexIsNaN(String::from("y")), "tv-renamer: series index, `y`, is not a number"),
        (ParseError::PadLengthIsNaN(String::from("")), "tv-renamer: pad length, ``, is not a number"),
        (ParseError::InvalidArgument(String::from("-x")), "tv-renamer: invalid argument: `-x`"),
        (ParseError::TooManyArguments(String::from("b")), "tv-renamer: too many arguments: `b`"),
        (ParseError::NoCWD, "tv-renamer: unable to get current working directory"),
        (ParseError::CWDNotValid, "tv-renamer: current working directory is not valid UTF-8"),
    ];
    for (why, text) in cases {
        assert_eq!(why.message(), text);
    }
}

#[test]
fn dropped_files_give_their_paths() {
    assert_eq!(parse_directory("file:///home/me/My%20Show\r\n"), "/home/me/My Show");
    assert_eq!(parse_directory("/home/me/My%20Show\n"), "/home/me/My%20Show\n");
    assert_eq!(parse_directory("file://"), "");
    assert_eq!(parse_directory(""), "");
    assert_eq!(parse_directory("file:///a/file:///b"), "/a//b");
    assert_eq!(parse_directory(" file:///a"), " file:///a");
}

#[test]
fn default_settings_are_those_of_no_arguments() {
    assert_eq!(Arguments::default(), defaults("", ""));
    assert_eq!(
        parse_arguments(&args(&["/a"]), &WorkingDirectory::Unknown),
        Ok(Parsed::Run(Arguments { base_directory: String::from("/a"), series_name: String::from("a"), ..Arguments::default() }))
    );
}

#[test]
fn existing_targets_are_skipped_on_demand() {
    let mut expected = defaults("/a", "a");
    expected.skip_existing = true;
    assert_eq!(parse_arguments(&args(&["-k", "/a"]), &here()), Ok(Parsed::Run(expected.clone())));
    assert_eq!(parse_arguments(&args(&["/a", "--skip-existing"]), &here()), Ok(Parsed::Run(expected.clone())));
    assert_eq!(expected.collision(), Collision::Skip);
    assert_eq!(defaults("/a", "a").collision(), Collision::Ask);
}

#[test]
fn series_is_named_by_the_directory_where_no_name_is_given() {
    assert_eq!(series_name("", "/tv/The Show"), "The Show");
    assert_eq!(series_name("", "/tv/The Show/"), "The Show");
    assert_eq!(series_name("Other", "/tv/The Show"), "Other");
    assert_eq!(series_name("", "/"), "");
    assert_eq!(series_name("", ""), "");
    assert_eq!(series_name(" ", "/tv/The Show"), " ");
}

#[test]
fn only_a_reply_that_begins_with_y_says_yes() {
    assert!(is_yes("y"));
    assert!(is_yes("y\n"));
    assert!(is_yes("yes"));
    assert!(!is_yes(""));
    assert!(!is_yes("\n"));
    assert!(!is_yes("n"));
    assert!(!is_yes("Y"));
    assert!(!is_yes(" y"));
    assert!(!is_yes("ny"));
}
