use tv_renamer::logging::{
    append_change, append_time, ask_to_overwrite, log_append_change, log_append_time, notice_skipped,
    shorten_path, show_change, time_stamp, FIRST_SECOND, LAST_SECOND,
};

#[test]
fn paths_are_shortened_for_reading() {
    assert_eq!(shorten_path("/home/me/tv/show/a.mkv", "/home/me/tv", "/home/me"), "./show/a.mkv");
    assert_eq!(shorten_path("/home/me/other/a.mkv", "/home/me/tv", "/home/me"), "~/other/a.mkv");
    assert_eq!(shorten_path("/srv/tv/a.mkv", "/home/me/tv", "/home/me"), "/srv/tv/a.mkv");
    assert_eq!(shorten_path("/home/me/tv", "/home/me/tv", "/home/me"), "./");
    assert_eq!(shorten_path("/home/meme/a", "/home/me/tv", "/home/me"), "/home/meme/a");
    assert_eq!(shorten_path("a.mkv", "/home/me/tv", "/home/me"), "a.mkv");
}

#[test]
fn time_is_written_as_rfc_2822_has_it() {
    assert_eq!(time_stamp(0, 0), Some(String::from("Thu, 1 Jan 1970 00:00:00 +0000")));
    assert_eq!(time_stamp(1057049557, 7200), Some(String::from("Tue, 1 Jul 2003 10:52:37 +0200")));
    assert_eq!(time_stamp(1057049557, -12600), Some(String::from("Tue, 1 Jul 2003 05:22:37 -0330")));
    assert_eq!(time_stamp(LAST_SECOND, 0), Some(String::from("Thu, 30 Dec 9999 23:59:59 +0000")));
    assert_eq!(time_stamp(LAST_SECOND, 86_399), Some(String::from("Fri, 31 Dec 9999 23:59:58 +2400")));
    assert_eq!(time_stamp(0, -3_600), Some(String::from("Wed, 31 Dec 1969 23:00:00 -0100")));
}

#[test]
fn times_before_1970_are_written_too() {
    assert_eq!(time_stamp(-1, 0), Some(String::from("Wed, 31 Dec 1969 23:59:59 +0000")));
    assert_eq!(time_stamp(-2208988800, 0), Some(String::from("Mon, 1 Jan 1900 00:00:00 +0000")));
    assert_eq!(time_stamp(-2208988800, 3600), Some(String::from("Mon, 1 Jan 1900 01:00:00 +0100")));
    let first = time_stamp(FIRST_SECOND, -86_399).unwrap();
    assert!(first.contains(" 1 Jan 0000 00:00:01 "), "{}", first);
    let early = time_stamp(FIRST_SECOND, 0).unwrap();
    assert!(early.contains(" 2 Jan 0000 00:00:00 +0000"), "{}", early);
}

#[test]
fn times_that_cannot_be_written_give_nothing() {
    assert_eq!(time_stamp(FIRST_SECOND - 1, 0), None);
    assert_eq!(time_stamp(LAST_SECOND + 1, 0), None);
    assert_eq!(time_stamp(0, 86_400), None);
    assert_eq!(time_stamp(0, -86_400), None);
    assert_eq!(time_stamp(i64::MAX, i32::MAX), None);
    assert_eq!(time_stamp(i64::MIN, i32::MIN), None);
}

#[test]
fn time_heads_the_changes_of_a_run() {
    let mut log = String::from("old\n");
    assert!(append_time(&mut log, 0, 0));
    assert_eq!(log, "old\n\nThu, 1 Jan 1970 00:00:00 +0000\n");
    assert!(!append_time(&mut log, FIRST_SECOND - 5, 0));
    assert_eq!(log, "old\n\nThu, 1 Jan 1970 00:00:00 +0000\n");
    let mut other = String::new();
    log_append_time(&mut other, "now");
    assert_eq!(other, "\nnow\n");
}

#[test]
fn changes_are_logged_with_shortened_paths() {
    let mut log = String::from("\nnow\n");
    append_change(&mut log, "/home/me/tv/one.mkv", "/home/me/tv/Show 1x01.mkv", "/home/me/tv", "/home/me");
    append_change(&mut log, "/home/me/b.mkv", "/srv/b.mkv", "/home/me/tv", "/home/me");
    assert_eq!(log, "\nnow\n./one.mkv -> ./Show 1x01.mkv\n~/b.mkv -> /srv/b.mkv\n");
    log_append_change(&mut log, "/home/me/tv/x", "y");
    assert_eq!(log, "\nnow\n./one.mkv -> ./Show 1x01.mkv\n~/b.mkv -> /srv/b.mkv\n/home/me/tv/x -> y\n");
}

#[test]
fn changes_are_shown_in_bold_green() {
    assert_eq!(
        show_change("/home/me/tv/one.mkv", "/srv/Show \"1\".mkv", "/home/me/tv", "/home/me"),
        "\x1b[1m\x1b[32m\"./one.mkv\"\x1b[0m -> \x1b[1m\x1b[32m\"/srv/Show \\\"1\\\".mkv\"\x1b[0m\n"
    );
}

#[test]
fn collisions_are_told_with_the_name_of_the_program() {
    assert_eq!(notice_skipped("/v/a.mkv"), "tv-renamer: /v/a.mkv already exists, not renaming.\n");
    assert_eq!(notice_skipped("/v/a \"b\".mkv"), "tv-renamer: /v/a \"b\".mkv already exists, not renaming.\n");
    assert_eq!(
        ask_to_overwrite("/v/a.mkv"),
        "tv-renamer: episode to be renamed already exists:\n\"/v/a.mkv\"\nIs it okay to overwrite? (y/n)"
    );
}
