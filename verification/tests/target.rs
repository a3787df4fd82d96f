use tv_renamer::target::{
    collect_target, name_with_ending, render, AirDate, Arguments, EpisodeInfo, Lookup, TargetErr,
};
use tv_renamer::tokenizer::{default_template, tokenize_template};

fn settings(series: &str, template: &str) -> Arguments {
    Arguments {
        automatic: false,
        dry_run: false,
        log_changes: false,
        verbose: false,
        skip_existing: false,
        season_index: 1,
        pad_length: 2,
        episode_index: 1,
        base_directory: String::from("/videos"),
        series_name: String::from(series),
        template: tokenize_template(template),
    }
}

fn found(title: &str, first_aired: Option<AirDate>) -> Lookup {
    Lookup::Found(EpisodeInfo { title: String::from(title), first_aired: first_aired })
}

#[test]
fn target_is_built_beside_the_source() {
    let arguments = settings("TV Series", "${Series} ${Season}x${Episode}");
    assert_eq!(
        collect_target("/videos/one.mkv", 1, 1, &arguments, &Lookup::Skipped),
        Ok(String::from("/videos/TV Series 1x01.mkv"))
    );
    assert_eq!(
        collect_target("/videos/three.mkv", 1, 2, &arguments, &Lookup::Skipped),
        Ok(String::from("/videos/TV Series 1x02.mkv"))
    );
    assert_eq!(
        collect_target("/videos/two.mkv", 1, 3, &arguments, &Lookup::Skipped),
        Ok(String::from("/videos/TV Series 1x03.mkv"))
    );
}

#[test]
fn empty_title_leaves_no_space_before_the_extension() {
    let mut arguments = settings("TV Series", "");
    arguments.template = default_template();
    assert_eq!(
        collect_target("/videos/one.mkv", 1, 1, &arguments, &Lookup::Skipped),
        Ok(String::from("/videos/TV Series 1x01.mkv"))
    );
    assert_eq!(
        collect_target("/videos/one.mkv", 1, 1, &arguments, &found("", None)),
        Ok(String::from("/videos/TV Series 1x01.mkv"))
    );
    assert_eq!(
        collect_target("/videos/one.mkv", 1, 1, &arguments, &found("Pilot", None)),
        Ok(String::from("/videos/TV Series 1x01 Pilot.mkv"))
    );
}

#[test]
fn slash_becomes_dash() {
    let arguments = settings("A/B", "${Series} ${Season}x${Episode} ${TVDB_Title}");
    let target = collect_target("/videos/one.mkv", 2, 5, &arguments, &found("Either/Or", None));
    assert_eq!(target, Ok(String::from("/videos/A-B 2x05 Either-Or.mkv")));
}

#[test]
fn slash_in_the_template_becomes_dash_too() {
    let arguments = settings("Show", "${Series}/${Season}/${Episode}");
    assert_eq!(
        collect_target("/videos/one.mkv", 2, 5, &arguments, &Lookup::Skipped),
        Ok(String::from("/videos/Show-2-05.mkv"))
    );
}

#[test]
fn white_space_is_trimmed_at_the_ends_only() {
    let arguments = settings("  My   Show ", " ${Series} - ${Episode}\t");
    assert_eq!(
        collect_target("/videos/a.avi", 1, 7, &arguments, &Lookup::Skipped),
        Ok(String::from("/videos/My   Show  - 07.avi"))
    );
}

#[test]
fn episode_number_is_padded_to_the_least_width() {
    let mut arguments = settings("S", "${Episode}");
    arguments.pad_length = 3;
    assert_eq!(collect_target("/v/a.mp4", 1, 7, &arguments, &Lookup::Skipped), Ok(String::from("/v/007.mp4")));
    assert_eq!(collect_target("/v/a.mp4", 1, 1234, &arguments, &Lookup::Skipped), Ok(String::from("/v/1234.mp4")));
    arguments.pad_length = 0;
    assert_eq!(collect_target("/v/a.mp4", 1, 7, &arguments, &Lookup::Skipped), Ok(String::from("/v/7.mp4")));
    assert_eq!(collect_target("/v/a.mp4", 1, 0, &arguments, &Lookup::Skipped), Ok(String::from("/v/0.mp4")));
}

#[test]
fn season_number_is_not_padded() {
    let arguments = settings("S", "${Season}x${Episode}");
    assert_eq!(collect_target("/v/a.mp4", 0, 1, &arguments, &Lookup::Skipped), Ok(String::from("/v/0x01.mp4")));
    assert_eq!(collect_target("/v/a.mp4", 255, 65535, &arguments, &Lookup::Skipped), Ok(String::from("/v/255x65535.mp4")));
}

#[test]
fn first_aired_is_written_with_dashes() {
    let arguments = settings("S", "${TVDB_FirstAired} ${TVDB_Title}");
    let date = AirDate { year: 2003, month: 7, day: 1 };
    assert_eq!(
        collect_target("/v/a.mkv", 1, 1, &arguments, &found("Pilot", Some(date))),
        Ok(String::from("/v/2003-07-01 Pilot.mkv"))
    );
    let late = AirDate { year: 1999, month: 12, day: 31 };
    assert_eq!(
        collect_target("/v/a.mkv", 1, 1, &arguments, &found("Pilot", Some(late))),
        Ok(String::from("/v/1999-12-31 Pilot.mkv"))
    );
    assert_eq!(
        collect_target("/v/a.mkv", 1, 1, &arguments, &found("Pilot", None)),
        Ok(String::from("/v/Pilot.mkv"))
    );
    assert_eq!(
        collect_target("/v/a.mkv", 1, 1, &arguments, &Lookup::Skipped),
        Ok(String::from("/v/.mkv"))
    );
}

#[test]
fn missing_episode_is_an_error_where_the_template_needs_it() {
    for template in ["${Series} ${TVDB_Title}", "${TVDB_FirstAired}", "${TVDB_Title}${TVDB_FirstAired}"] {
        let arguments = settings("S", template);
        assert_eq!(
            collect_target("/v/a.mkv", 1, 1, &arguments, &Lookup::Missing),
            Err(TargetErr::EpisodeDoesNotExist)
        );
        assert_eq!(
            collect_target("/v/a", 1, 1, &arguments, &Lookup::Missing),
            Err(TargetErr::EpisodeDoesNotExist)
        );
        assert_eq!(
            arguments.get_destination("/out", "/v/a.mkv", 1, &Lookup::Missing),
            Err(TargetErr::EpisodeDoesNotExist)
        );
    }
}

#[test]
fn missing_episode_is_no_error_where_the_template_needs_nothing() {
    let arguments = settings("TV Series", "${Series} ${Season}x${Episode}");
    assert_eq!(
        collect_target("/v/a.mkv", 1, 1, &arguments, &Lookup::Missing),
        Ok(String::from("/v/TV Series 1x01.mkv"))
    );
    assert_eq!(
        arguments.get_destination("/out", "/v/a.mkv", 2, &Lookup::Missing),
        Ok(String::from("/out/TV Series 1x02.mkv"))
    );
    assert_eq!(collect_target("/v/a", 1, 1, &arguments, &Lookup::Missing), Err(TargetErr::Extension));
    let literal = settings("S", "${title} $ {TVDB_Title}");
    assert_eq!(
        collect_target("/v/a.mkv", 1, 1, &literal, &Lookup::Missing),
        Ok(String::from("/v/${title} $ {TVDB_Title}.mkv"))
    );
}

#[test]
fn names_are_built_from_the_template_and_the_extension() {
    let arguments = settings("TV Series", "${Series} ${Season}x${Episode} ${TVDB_Title}");
    assert_eq!(name_with_ending(&arguments, 1, 1, &Lookup::Skipped, "mkv"), "TV Series 1x01.mkv");
    assert_eq!(name_with_ending(&arguments, 1, 1, &Lookup::Missing, "mkv"), "TV Series 1x01.mkv");
    assert_eq!(name_with_ending(&arguments, 3, 12, &found(" A/B\t", None), ""), "TV Series 3x12  A-B.");
    let text: String = render(&arguments, 1, 1, &Lookup::Skipped).into_iter().collect();
    assert_eq!(text, "TV Series 1x01 ");
    let slashes = settings("A/B", " ${Series}/ ");
    let text: String = render(&slashes, 1, 1, &Lookup::Skipped).into_iter().collect();
    assert_eq!(text, " A/B/ ");
    assert_eq!(name_with_ending(&slashes, 1, 1, &Lookup::Skipped, "avi"), "A-B-.avi");
}

#[test]
fn source_without_extension_is_an_error() {
    let arguments = settings("S", "${Series}");
    assert_eq!(collect_target("/v/a", 1, 1, &arguments, &Lookup::Skipped), Err(TargetErr::Extension));
    assert_eq!(collect_target("/v/.hidden", 1, 1, &arguments, &Lookup::Skipped), Err(TargetErr::Extension));
    assert_eq!(collect_target("/v.d/a", 1, 1, &arguments, &Lookup::Skipped), Err(TargetErr::Extension));
    assert_eq!(collect_target("/", 1, 1, &arguments, &Lookup::Skipped), Err(TargetErr::Extension));
}

#[test]
fn source_in_no_directory_gets_a_bare_name() {
    let arguments = settings("S", "${Series} ${Episode}");
    assert_eq!(collect_target("a.mkv", 1, 1, &arguments, &Lookup::Skipped), Ok(String::from("S 01.mkv")));
    assert_eq!(collect_target("sub/a.mkv", 1, 1, &arguments, &Lookup::Skipped), Ok(String::from("sub/S 01.mkv")));
}

#[test]
fn extension_of_the_source_is_kept_as_it_is() {
    let arguments = settings("S", "${Series}");
    assert_eq!(collect_target("/v/a.b.MKV", 1, 1, &arguments, &Lookup::Skipped), Ok(String::from("/v/S.MKV")));
}

#[test]
fn destination_is_built_in_the_given_directory() {
    let mut arguments = settings("TV Series", "${Series} ${Season}x${Episode} ${TVDB_Title}");
    arguments.season_index = 2;
    assert_eq!(
        arguments.get_destination("/sorted/Season 2", "/in/x.mkv", 4, &found("Four", None)),
        Ok(String::from("/sorted/Season 2/TV Series 2x04 Four.mkv"))
    );
    assert_eq!(
        arguments.get_destination("/sorted", "/in/x", 4, &Lookup::Skipped),
        Err(TargetErr::Extension)
    );
    assert_eq!(
        arguments.get_destination("/sorted", "/in/x.mkv", 4, &Lookup::Missing),
        Err(TargetErr::EpisodeDoesNotExist)
    );
    assert_eq!(
        arguments.get_destination("", "x.mkv", 4, &Lookup::Skipped),
        Ok(String::from("TV Series 2x04.mkv"))
    );
}

#[test]
fn extension_is_what_stands_behind_the_last_dot() {
    let arguments = settings("S", "${Series}");
    assert_eq!(collect_target("/v/a.", 1, 1, &arguments, &Lookup::Skipped), Ok(String::from("/v/S.")));
    assert_eq!(collect_target("/v/a..b", 1, 1, &arguments, &Lookup::Skipped), Ok(String::from("/v/S.b")));
    assert_eq!(collect_target("/v/...", 1, 1, &arguments, &Lookup::Skipped), Ok(String::from("/v/S.")));
    assert_eq!(collect_target("/v/.a.b", 1, 1, &arguments, &Lookup::Skipped), Ok(String::from("/v/S.b")));
    assert_eq!(collect_target("/v/.a", 1, 1, &arguments, &Lookup::Skipped), Err(TargetErr::Extension));
    assert_eq!(collect_target("/v/a.b/", 1, 1, &arguments, &Lookup::Skipped), Ok(String::from("/v/S.b")));
    assert_eq!(collect_target("/v/a.b/.", 1, 1, &arguments, &Lookup::Skipped), Ok(String::from("/v/S.b")));
    assert_eq!(collect_target("/v/a.b/..", 1, 1, &arguments, &Lookup::Skipped), Err(TargetErr::Extension));
    assert_eq!(collect_target("", 1, 1, &arguments, &Lookup::Skipped), Err(TargetErr::Extension));
}
