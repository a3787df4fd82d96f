use tv_renamer::tokenizer::{default_template, match_token, tokenize_template, TemplateToken};

fn literal_run(text: &str) -> Vec<TemplateToken> {
    text.chars().map(TemplateToken::Character).collect()
}

#[test]
fn test_tokenize() {
    assert_eq!(default_template(), tokenize_template("${Series} ${Season}x${Episode} ${TVDB_Title}"));
}

#[test]
fn test_match_token() {
    assert_eq!(Some(TemplateToken::Series), match_token("${Series}"));
    assert_eq!(Some(TemplateToken::Season), match_token("${Season}"));
    assert_eq!(Some(TemplateToken::Episode), match_token("${Episode}"));
    assert_eq!(Some(TemplateToken::TVDB), match_token("${TVDB_Title}"));
    assert_eq!(None, match_token("${invalid}"));
}

#[test]
fn first_aired_is_a_placeholder() {
    assert_eq!(Some(TemplateToken::TvdbFirstAired), match_token("${TVDB_FirstAired}"));
    assert_eq!(
        tokenize_template("${TVDB_FirstAired} ${Episode}"),
        vec![TemplateToken::TvdbFirstAired, TemplateToken::Character(' '), TemplateToken::Episode]
    );
}

#[test]
fn default_template_is_seven_tokens() {
    assert_eq!(
        default_template(),
        vec![
            TemplateToken::Series,
            TemplateToken::Character(' '),
            TemplateToken::Season,
            TemplateToken::Character('x'),
            TemplateToken::Episode,
            TemplateToken::Character(' '),
            TemplateToken::TVDB,
        ]
    );
}

#[test]
fn unknown_placeholder_is_literal_text() {
    assert_eq!(tokenize_template("${invalid}"), literal_run("${invalid}"));
    assert_eq!(
        tokenize_template("${invalid}"),
        vec![
            TemplateToken::Character('$'),
            TemplateToken::Character('{'),
            TemplateToken::Character('i'),
            TemplateToken::Character('n'),
            TemplateToken::Character('v'),
            TemplateToken::Character('a'),
            TemplateToken::Character('l'),
            TemplateToken::Character('i'),
            TemplateToken::Character('d'),
            TemplateToken::Character('}'),
        ]
    );
}

#[test]
fn names_are_matched_with_their_case() {
    assert_eq!(tokenize_template("${series}"), literal_run("${series}"));
    assert_eq!(None, match_token("${SERIES}"));
    assert_eq!(None, match_token("Series"));
    assert_eq!(None, match_token(""));
}

#[test]
fn plain_text_is_all_literal() {
    assert_eq!(tokenize_template("Episode {1} x"), literal_run("Episode {1} x"));
    assert_eq!(tokenize_template(""), Vec::new());
    assert_eq!(tokenize_template("}"), literal_run("}"));
}

#[test]
fn second_dollar_ends_the_capture() {
    assert_eq!(tokenize_template("$$"), literal_run("$$"));
    assert_eq!(tokenize_template("a$b$c"), literal_run("a$b$c"));
    assert_eq!(
        tokenize_template("${Ser$${Season}"),
        [literal_run("${Ser$"), vec![TemplateToken::Season]].concat()
    );
}

#[test]
fn misplaced_brace_ends_the_capture() {
    assert_eq!(tokenize_template("$a{b"), literal_run("$a{b"));
    assert_eq!(tokenize_template("${{Series}"), literal_run("${{Series}"));
    assert_eq!(tokenize_template("$Series}"), literal_run("$Series}"));
    assert_eq!(tokenize_template("$}"), literal_run("$}"));
}

#[test]
fn open_capture_at_the_end_yields_nothing() {
    assert_eq!(tokenize_template("ab${Series"), literal_run("ab"));
    assert_eq!(tokenize_template("$"), Vec::new());
    assert_eq!(tokenize_template("${Season}$"), vec![TemplateToken::Season]);
}

#[test]
fn placeholders_stand_between_literals() {
    assert_eq!(
        tokenize_template("S${Season}E${Episode} - ${TVDB_Title}!"),
        vec![
            TemplateToken::Character('S'),
            TemplateToken::Season,
            TemplateToken::Character('E'),
            TemplateToken::Episode,
            TemplateToken::Character(' '),
            TemplateToken::Character('-'),
            TemplateToken::Character(' '),
            TemplateToken::TVDB,
            TemplateToken::Character('!'),
        ]
    );
    assert_eq!(
        tokenize_template("${Series}${Series}"),
        vec![TemplateToken::Series, TemplateToken::Series]
    );
}

#[test]
fn tokens_are_never_more_than_characters() {
    for template in ["", "abc", "${Series}", "${x}", "$$$$", "a${Season}b${nope}c$"] {
        assert!(tokenize_template(template).len() <= template.chars().count());
    }
}

#[test]
fn characters_beyond_ascii_are_literals() {
    assert_eq!(tokenize_template("é${Season}ß"), vec![
        TemplateToken::Character('é'),
        TemplateToken::Season,
        TemplateToken::Character('ß'),
    ]);
}
