use vstd::prelude::*;
use crate::text::{chars_of, same_text};

verus! {

/// One unit of a naming template: a character that is copied as it stands, or
/// a placeholder that is filled in for each episode.
#[derive(Clone, Debug, PartialEq, Eq)]
pub enum TemplateToken {
    /// A literal character.
    Character(char),
    /// The name of the series.
    Series,
    /// The number of the season.
    Season,
    /// The number of the episode, padded with zeros.
    Episode,
    /// The title of the episode, as the metadata service gives it.
    TVDB,
    /// The date on which the episode was first aired.
    TvdbFirstAired,
}

/// The template that is used when none is given:
/// `${Series} ${Season}x${Episode} ${TVDB_Title}`.
pub open spec fn default_tokens() -> Seq<TemplateToken> {
    seq![
        TemplateToken::Series,
        TemplateToken::Character(' '),
        TemplateToken::Season,
        TemplateToken::Character('x'),
        TemplateToken::Episode,
        TemplateToken::Character(' '),
        TemplateToken::TVDB,
    ]
}

/// The placeholder that `text` names, if it is one of the known names written
/// as `${Name}`.
pub open spec fn placeholder(text: Seq<char>) -> Option<TemplateToken> {
    if text == "${Series}"@ {
        Some(TemplateToken::Series)
    } else if text == "${Season}"@ {
        Some(TemplateToken::Season)
    } else if text == "${Episode}"@ {
        Some(TemplateToken::Episode)
    } else if text == "${TVDB_Title}"@ {
        Some(TemplateToken::TVDB)
    } else if text == "${TVDB_FirstAired}"@ {
        Some(TemplateToken::TvdbFirstAired)
    } else {
        None
    }
}

/// The literal token that stands for the character `c`.
pub open spec fn literal(c: char) -> TemplateToken {
    TemplateToken::Character(c)
}

/// One literal token for each character of `text`, in order.
pub open spec fn literals(text: Seq<char>) -> Seq<TemplateToken> {
    text.map_values(|c: char| literal(c))
}

/// Whether the character at `at` closes the capture that the `$` at `start`
/// opened: a further `$`, a `}`, or a `{` anywhere but directly after the `$`.
pub open spec fn ends_capture(template: Seq<char>, start: int, at: int) -> bool {
    template[at] == '$' || template[at] == '}' || (template[at] == '{' && at != start + 1)
}

/// The first position from `from` on that closes the capture opened at
/// `start`, or the length of the template if the capture is never closed.
pub open spec fn capture_end(template: Seq<char>, start: int, from: int) -> int
    decreases template.len() - from,
{
    if from >= template.len() {
        template.len() as int
    } else if ends_capture(template, start, from) {
        from
    } else {
        capture_end(template, start, from + 1)
    }
}

/// The tokens of the part of `template` that begins at `from`, where `from`
/// lies outside any capture.
///
/// A character other than `$` is a literal. A `$` opens a capture that runs up
/// to and including the character that closes it. A capture that is closed by
/// `}` and spells a known placeholder becomes that placeholder; any other
/// closed capture is given back character by character. A capture that is
/// still open where the template ends yields nothing.
pub open spec fn tokens_from(template: Seq<char>, from: int) -> Seq<TemplateToken>
    decreases template.len() - from,
{
    if from < 0 || from >= template.len() {
        Seq::empty()
    } else if template[from] != '$' {
        seq![literal(template[from])] + tokens_from(template, from + 1)
    } else {
        let end = capture_end(template, from, from + 1);
        if from < end < template.len() {
            capture_tokens(template.subrange(from, end + 1)) + tokens_from(template, end + 1)
        } else {
            Seq::empty()
        }
    }
}

/// The tokens of one closed capture, given with the `$` that opens it and the
/// character that closes it.
pub open spec fn capture_tokens(capture: Seq<char>) -> Seq<TemplateToken> {
    match placeholder(capture) {
        Some(token) => seq![token],
        None => literals(capture),
    }
}

/// The tokens of a whole template.
pub open spec fn tokenized(template: Seq<char>) -> Seq<TemplateToken> {
    tokens_from(template, 0)
}

/// A template without a `$` is all literal: every character becomes a token
/// of its own.
pub proof fn lemma_plain_template(template: Seq<char>)
    requires
        forall|i: int| 0 <= i < template.len() ==> template[i] != '$',
    ensures
        tokenized(template) == literals(template),
{
    lemma_plain_from(template, 0);
    assert(template.skip(0) == template);
}

/// From any position on, a template without a `$` is all literal.
proof fn lemma_plain_from(template: Seq<char>, from: int)
    requires
        0 <= from <= template.len(),
        forall|i: int| 0 <= i < template.len() ==> template[i] != '$',
    ensures
        tokens_from(template, from) == literals(template.skip(from)),
    decreases template.len() - from,
{
    if from < template.len() {
        lemma_plain_from(template, from + 1);
        assert(literals(template.skip(from)) == seq![literal(template[from])] + literals(
            template.skip(from + 1),
        ));
    } else {
        assert(literals(template.skip(from)) == Seq::<TemplateToken>::empty());
    }
}

/// The tokens of a template are never more than its characters.
pub proof fn lemma_tokens_are_few(template: Seq<char>)
    ensures
        tokenized(template).len() <= template.len(),
{
    lemma_few_from(template, 0);
}

/// From any position on, the tokens are never more than the characters.
proof fn lemma_few_from(template: Seq<char>, from: int)
    requires
        0 <= from <= template.len(),
    ensures
        tokens_from(template, from).len() <= template.len() - from,
    decreases template.len() - from,
{
    if from < template.len() {
        if template[from] != '$' {
            lemma_few_from(template, from + 1);
        } else {
            let end = capture_end(template, from, from + 1);
            if from < end < template.len() {
                lemma_few_from(template, end + 1);
                let capture = template.subrange(from, end + 1);
                assert(capture_tokens(capture).len() <= capture.len());
            }
        }
    }
}

/// Whether `text` is written as a placeholder is: a `$`, a `{`, a name
/// without `$`, `{` or `}` in it, and a `}`.
pub open spec fn is_braced(text: Seq<char>) -> bool {
    &&& text.len() >= 3
    &&& text[0] == '$'
    &&& text[1] == '{'
    &&& text.last() == '}'
    &&& forall|i: int|
        2 <= i < text.len() - 1 ==> text[i] != '$' && text[i] != '{' && text[i] != '}'
}

/// A template that is written as a placeholder and names one that is known
/// is that placeholder; one that names none that is known is given back
/// character by character. Nothing is reported as an error.
pub proof fn lemma_braced_template(template: Seq<char>)
    requires
        is_braced(template),
    ensures
        tokenized(template) == match placeholder(template) {
            Some(token) => seq![token],
            None => literals(template),
        },
{
    let end = template.len() - 1;
    assert forall|j: int| 1 <= j < end implies !ends_capture(template, 0, j) by {}
    lemma_capture_end_skips(template, 0, 1, end);
    assert(capture_end(template, 0, end) == end);
    assert(template.subrange(0, end + 1) == template);
    assert(tokens_from(template, end + 1) == Seq::<TemplateToken>::empty());
    assert(capture_tokens(template) + Seq::<TemplateToken>::empty() == capture_tokens(template));
}

/// Every known placeholder is written as a placeholder is.
pub proof fn lemma_placeholders_are_braced(text: Seq<char>)
    requires
        placeholder(text) is Some,
    ensures
        is_braced(text),
{
    reveal_strlit("${Series}");
    reveal_strlit("${Season}");
    reveal_strlit("${Episode}");
    reveal_strlit("${TVDB_Title}");
    reveal_strlit("${TVDB_FirstAired}");
}

/// The default template, ready made.
pub fn default_template() -> (tokens: Vec<TemplateToken>)
    ensures
        tokens@ == default_tokens(),
{
    let mut tokens: Vec<TemplateToken> = Vec::new();
    tokens.push(TemplateToken::Series);
    tokens.push(TemplateToken::Character(' '));
    tokens.push(TemplateToken::Season);
    tokens.push(TemplateToken::Character('x'));
    tokens.push(TemplateToken::Episode);
    tokens.push(TemplateToken::Character(' '));
    tokens.push(TemplateToken::TVDB);
    tokens
}

/// Matches a whole capture against the known placeholders.
pub fn match_capture(capture: &Vec<char>) -> (token: Option<TemplateToken>)
    ensures
        token == placeholder(capture@),
{
    if same_text(capture, "${Series}") {
        Some(TemplateToken::Series)
    } else if same_text(capture, "${Season}") {
        Some(TemplateToken::Season)
    } else if same_text(capture, "${Episode}") {
        Some(TemplateToken::Episode)
    } else if same_text(capture, "${TVDB_Title}") {
        Some(TemplateToken::TVDB)
    } else if same_text(capture, "${TVDB_FirstAired}") {
        Some(TemplateToken::TvdbFirstAired)
    } else {
        None
    }
}

/// Given a pattern, matches it against the known placeholders.
pub fn match_token(pattern: &str) -> (token: Option<TemplateToken>)
    ensures
        token == placeholder(pattern@),
{
    let capture = chars_of(pattern);
    match_capture(&capture)
}

/// Appends one literal token for each character of `text`.
fn push_literals(tokens: &mut Vec<TemplateToken>, text: &Vec<char>)
    ensures
        final(tokens)@ == old(tokens)@ + literals(text@),
{
    let ghost before = tokens@;
    let mut i: usize = 0;
    while i < text.len()
        invariant
            i <= text.len(),
            tokens@ == before + literals(text@.take(i as int)),
        decreases text.len() - i,
    {
        tokens.push(TemplateToken::Character(text[i]));
        assert(literals(text@.take(i + 1)) == literals(text@.take(i as int)).push(
            literal(text@[i as int]),
        ));
        i += 1;
    }
    assert(text@.take(text.len() as int) == text@);
}

/// While no character from `from` up to `upto` closes the capture opened at
/// `start`, the search for its end may begin at `upto` as well.
proof fn lemma_capture_end_skips(template: Seq<char>, start: int, from: int, upto: int)
    requires
        0 <= from <= upto <= template.len(),
        forall|j: int| from <= j < upto ==> !ends_capture(template, start, j),
    ensures
        capture_end(template, start, from) == capture_end(template, start, upto),
    decreases upto - from,
{
    if from < upto {
        lemma_capture_end_skips(template, start, from + 1, upto);
    }
}

/// Converts a template into its ordered tokens. The walk never fails: what does
/// not spell a placeholder comes out as literal characters.
pub fn tokenize_template(template: &str) -> (tokens: Vec<TemplateToken>)
    ensures
        tokens@ == tokenized(template@),
{
    let input = chars_of(template);
    let ghost s = input@;
    let mut tokens: Vec<TemplateToken> = Vec::new();
    let mut pattern: Vec<char> = Vec::new();
    let mut matching = false;
    let ghost start: int = 0;
    let mut at: usize = 0;
    while at < input.len()
        invariant
            at <= input.len(),
            input@ == s,
            !matching ==> pattern@.len() == 0 && tokens@ + tokens_from(s, at as int) == tokens_from(
                s,
                0,
            ),
            matching ==> {
                &&& 0 <= start < at
                &&& s[start] == '$'
                &&& pattern@ == s.subrange(start, at as int)
                &&& forall|j: int| start < j < at ==> !ends_capture(s, start, j)
                &&& tokens@ + tokens_from(s, start) == tokens_from(s, 0)
            },
        decreases input.len() - at,
    {
        let character = input[at];
        if matching {
            proof {
                lemma_capture_end_skips(s, start, start + 1, at as int);
            }
            pattern.push(character);
            assert(pattern@ == s.subrange(start, at + 1));
            if character == '$' || character == '}' || (character == '{' && pattern.len() != 2) {
                assert(ends_capture(s, start, at as int));
                assert(capture_end(s, start, start + 1) == at);
                let ghost emitted = tokens@;
                let found = if character == '}' {
                    match_capture(&pattern)
                } else {
                    proof {
                        lemma_placeholder_ends_with_brace(pattern@);
                    }
                    None
                };
                match found {
                    Some(token) => tokens.push(token),
                    None => push_literals(&mut tokens, &pattern),
                }
                assert(tokens@ == emitted + capture_tokens(pattern@));
                assert(tokens@ + tokens_from(s, at + 1) == emitted + tokens_from(s, start));
                matching = false;
                pattern = Vec::new();
            } else {
                assert(!ends_capture(s, start, at as int));
            }
        } else if character == '$' {
            matching = true;
            pattern.push(character);
            proof {
                start = at as int;
            }
            assert(pattern@ == s.subrange(start, at + 1));
        } else {
            let ghost emitted = tokens@;
            tokens.push(TemplateToken::Character(character));
            assert(tokens@ + tokens_from(s, at + 1) == emitted + tokens_from(s, at as int));
        }
        at += 1;
    }
    proof {
        if matching {
            lemma_capture_end_skips(s, start, start + 1, s.len() as int);
        }
    }
    tokens
}

/// Every placeholder is written with a closing brace at its end.
proof fn lemma_placeholder_ends_with_brace(text: Seq<char>)
    ensures
        placeholder(text) is Some ==> text.len() > 0 && text.last() == '}',
{
    reveal_strlit("${Series}");
    reveal_strlit("${Season}");
    reveal_strlit("${Episode}");
    reveal_strlit("${TVDB_Title}");
    reveal_strlit("${TVDB_FirstAired}");
}

} // verus!
