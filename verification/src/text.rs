use vstd::prelude::*;

verus! {

/// `String::push` appends one character to the end of the string and leaves
/// the characters before it as they were.
pub assume_specification[ String::push ](s: &mut String, c: char)
    ensures
        final(s)@ == old(s)@.push(c),
;

/// The characters of `s`, in order.
pub fn chars_of(s: &str) -> (v: Vec<char>)
    ensures
        v@ == s@,
{
    let mut v: Vec<char> = Vec::new();
    for c in it: s.chars()
        invariant
            v@ == it.seq().take(it.index() as int),
            it.seq() == s@,
    {
        v.push(c);
    }
    v
}

/// Appends the characters of `s` to `out`.
pub fn push_chars(out: &mut Vec<char>, s: &str)
    ensures
        final(out)@ == old(out)@ + s@,
{
    let ghost before = out@;
    for c in it: s.chars()
        invariant
            out@ == before + it.seq().take(it.index() as int),
            it.seq() == s@,
    {
        out.push(c);
    }
}

/// Whether `chars` spells exactly the text `s`.
pub fn same_text(chars: &Vec<char>, s: &str) -> (same: bool)
    ensures
        same == (chars@ == s@),
{
    let mut i: usize = 0;
    for c in it: s.chars()
        invariant
            it.seq() == s@,
            i == it.index(),
            i <= chars.len(),
            chars@.take(i as int) == s@.take(i as int),
    {
        if i >= chars.len() || chars[i] != c {
            assert(chars@ != s@) by {
                if chars@ == s@ {
                    assert(chars@[i as int] == s@[i as int]);
                }
            }
            return false;
        }
        assert(chars@.take(i + 1) == chars@.take(i as int).push(chars@[i as int]));
        assert(s@.take(i + 1) == s@.take(i as int).push(s@[i as int]));
        i += 1;
    }
    assert(s@.take(s@.len() as int) == s@);
    if i == chars.len() {
        assert(chars@.take(i as int) == chars@);
        true
    } else {
        false
    }
}

/// The string that holds exactly the characters of `chars`.
pub fn string_of(chars: &Vec<char>) -> (s: String)
    ensures
        s@ == chars@,
{
    let mut s = String::new();
    let mut i: usize = 0;
    while i < chars.len()
        invariant
            i <= chars.len(),
            s@ == chars@.take(i as int),
        decreases chars.len() - i,
    {
        s.push(chars[i]);
        i += 1;
    }
    s
}

/// The lowercase form of a text, as `str::to_lowercase` gives it.
pub uninterp spec fn lowercase_of(text: Seq<char>) -> Seq<char>;

/// `str::to_lowercase` returns the lowercase equivalent of the string as a new
/// `String`; what it returns depends on the characters of the string alone.
pub assume_specification[ str::to_lowercase ](s: &str) -> (lower: String)
    ensures
        lower@ == lowercase_of(s@),
;

/// Whether a character is one of the white space characters of ASCII: the
/// tab, the line feed, the vertical tab, the form feed, the carriage return
/// and the space.
pub open spec fn is_ascii_space(c: char) -> bool {
    9 <= code(c) <= 13 || code(c) == 32
}

/// Whether a character beyond ASCII is white space, as `char::is_whitespace`
/// has it.
pub uninterp spec fn is_wide_space(c: char) -> bool;

/// Whether a character is white space, as `char::is_whitespace` has it.
pub open spec fn is_space(c: char) -> bool {
    if code(c) < 128 {
        is_ascii_space(c)
    } else {
        is_wide_space(c)
    }
}

/// `char::is_whitespace` tells whether the character has the Unicode property
/// `White_Space`; the answer depends on the character alone. Within ASCII the
/// characters with that property are the tab, the line feed, the vertical
/// tab, the form feed, the carriage return and the space, and Unicode does
/// not change the properties of these. Beyond ASCII the set has changed
/// between versions of Unicode, so there the answer is only named.
pub assume_specification[ char::is_whitespace ](c: char) -> (white: bool)
    ensures
        white == if code(c) < 128 {
            is_ascii_space(c)
        } else {
            is_wide_space(c)
        },
;

/// A text as `{:?}` shows it: between quotation marks, with the characters
/// that cannot stand there as they are written as escapes; as the standard
/// library's `Debug` for `str` has it.
pub uninterp spec fn quoted(text: Seq<char>) -> Seq<char>;

/// Calls `format!` with `{:?}`, which writes the text as the standard
/// library's `Debug` for `str` shows it. What is written depends on the
/// characters of the text alone.
#[verifier::external_body]
pub(crate) fn quote(text: &str) -> (shown: String)
    ensures
        shown@ == quoted(text@),
{
    format!("{:?}", text)
}

/// The text with which every message of this program begins.
pub open spec fn tool_prefix() -> Seq<char> {
    "tv-renamer: "@
}

/// `text` without the white space it begins with.
pub open spec fn trimmed_start(text: Seq<char>) -> Seq<char>
    decreases text.len(),
{
    if text.len() > 0 && is_space(text.first()) {
        trimmed_start(text.drop_first())
    } else {
        text
    }
}

/// `text` without the white space it ends with.
pub open spec fn trimmed_end(text: Seq<char>) -> Seq<char>
    decreases text.len(),
{
    if text.len() > 0 && is_space(text.last()) {
        trimmed_end(text.drop_last())
    } else {
        text
    }
}

/// `text` without the white space at either end. White space inside is kept.
pub open spec fn trimmed(text: Seq<char>) -> Seq<char> {
    trimmed_end(trimmed_start(text))
}

/// Cutting the white space off the front leaves the rest from the first
/// character that is none.
pub proof fn lemma_trimmed_start(text: Seq<char>, first: int)
    requires
        0 <= first <= text.len(),
        forall|i: int| 0 <= i < first ==> is_space(text[i]),
        first < text.len() ==> !is_space(text[first]),
    ensures
        trimmed_start(text) == text.skip(first),
    decreases first,
{
    if first > 0 {
        let rest = text.drop_first();
        assert forall|i: int| 0 <= i < first - 1 implies is_space(rest[i]) by {
            assert(rest[i] == text[i + 1]);
        }
        lemma_trimmed_start(rest, first - 1);
        assert(rest.skip(first - 1) == text.skip(first));
    } else {
        assert(text.skip(0) == text);
    }
}

/// Cutting the white space off the back leaves the part up to the last
/// character that is none.
pub proof fn lemma_trimmed_end(text: Seq<char>, end: int)
    requires
        0 <= end <= text.len(),
        forall|i: int| end <= i < text.len() ==> is_space(text[i]),
        end > 0 ==> !is_space(text[end - 1]),
    ensures
        trimmed_end(text) == text.take(end),
    decreases text.len() - end,
{
    if end < text.len() {
        let rest = text.drop_last();
        lemma_trimmed_end(rest, end);
        assert(rest.take(end) == text.take(end));
    } else {
        assert(text.take(end) == text);
    }
}

/// A trimmed text neither begins nor ends with white space, and trimming it
/// once more changes nothing.
pub proof fn lemma_trimmed_is_bare(text: Seq<char>)
    ensures
        trimmed(text).len() > 0 ==> !is_space(trimmed(text).first()) && !is_space(
            trimmed(text).last(),
        ),
        trimmed(trimmed(text)) == trimmed(text),
        trimmed(text).len() <= text.len(),
{
    lemma_trimmed_start_shape(text);
    let front = trimmed_start(text);
    lemma_trimmed_end_shape(front);
    let bare = trimmed_end(front);
    if bare.len() > 0 {
        assert(bare.first() == front.first());
    }
}

/// What is left after the front is cut is a tail of the text that does not
/// begin with white space.
proof fn lemma_trimmed_start_shape(text: Seq<char>)
    ensures
        trimmed_start(text).len() <= text.len(),
        trimmed_start(text) == text.skip(text.len() - trimmed_start(text).len()),
        trimmed_start(text).len() > 0 ==> !is_space(trimmed_start(text).first()),
    decreases text.len(),
{
    if text.len() > 0 && is_space(text.first()) {
        let rest = text.drop_first();
        lemma_trimmed_start_shape(rest);
        let keep = trimmed_start(rest).len();
        assert(rest.skip(rest.len() - keep) == text.skip(text.len() - keep));
    } else {
        assert(text.skip(0) == text);
    }
}

/// What is left after the back is cut is a head of the text that does not end
/// with white space.
proof fn lemma_trimmed_end_shape(text: Seq<char>)
    ensures
        trimmed_end(text).len() <= text.len(),
        trimmed_end(text) == text.take(trimmed_end(text).len() as int),
        trimmed_end(text).len() > 0 ==> !is_space(trimmed_end(text).last()),
    decreases text.len(),
{
    if text.len() > 0 && is_space(text.last()) {
        let rest = text.drop_last();
        lemma_trimmed_end_shape(rest);
        let keep = trimmed_end(rest).len() as int;
        assert(rest.take(keep) == text.take(keep));
    } else {
        assert(text.take(text.len() as int) == text);
    }
}

/// Removes the white space at both ends of `text`.
pub fn trim(text: &Vec<char>) -> (bare: Vec<char>)
    ensures
        bare@ == trimmed(text@),
{
    let mut first: usize = 0;
    while first < text.len() && text[first].is_whitespace()
        invariant
            first <= text.len(),
            forall|i: int| 0 <= i < first ==> is_space(text@[i]),
        decreases text.len() - first,
    {
        first += 1;
    }
    let mut end: usize = text.len();
    while end > first && text[end - 1].is_whitespace()
        invariant
            first <= end <= text.len(),
            forall|i: int| end <= i < text.len() ==> is_space(text@[i]),
        decreases end,
    {
        end -= 1;
    }
    proof {
        lemma_trimmed_start(text@, first as int);
        let front = text@.skip(first as int);
        assert forall|i: int| end - first <= i < front.len() implies is_space(front[i]) by {
            assert(front[i] == text@[i + first]);
        }
        lemma_trimmed_end(front, end - first);
        assert(front.take(end - first) == text@.subrange(first as int, end as int));
    }
    let mut bare: Vec<char> = Vec::new();
    let mut at: usize = first;
    while at < end
        invariant
            first <= at <= end <= text.len(),
            bare@ == text@.subrange(first as int, at as int),
        decreases end - at,
    {
        bare.push(text[at]);
        at += 1;
    }
    bare
}

/// The code point of a character.
pub open spec fn code(c: char) -> int {
    c as int
}

/// The code point of a character, as a number.
pub fn code_of(c: char) -> (n: u32)
    ensures
        n == code(c),
{
    c as u32
}

/// Whether `pattern` stands in `text` at position `at`.
pub open spec fn occurs_at(text: Seq<char>, pattern: Seq<char>, at: int) -> bool {
    0 <= at && at + pattern.len() <= text.len() && text.subrange(at, at + pattern.len())
        == pattern
}

/// Whether `pattern` stands somewhere in `text`.
pub open spec fn contains(text: Seq<char>, pattern: Seq<char>) -> bool {
    exists|at: int| occurs_at(text, pattern, at)
}

/// `text`, read from position `from` on, with `with` in the place of every
/// occurrence of `pattern`. Occurrences are looked for from left to right, and
/// the search goes on behind each one that was found, so what was put in is
/// not searched again. An empty pattern is found nowhere.
pub open spec fn replaced_from(
    text: Seq<char>,
    pattern: Seq<char>,
    with: Seq<char>,
    from: int,
) -> Seq<char>
    decreases text.len() - from,
{
    if from < 0 || from >= text.len() {
        Seq::empty()
    } else if pattern.len() > 0 && occurs_at(text, pattern, from) {
        with + replaced_from(text, pattern, with, from + pattern.len())
    } else {
        seq![text[from]] + replaced_from(text, pattern, with, from + 1)
    }
}

/// `text` with `with` in the place of every occurrence of `pattern`.
pub open spec fn replaced(text: Seq<char>, pattern: Seq<char>, with: Seq<char>) -> Seq<char> {
    replaced_from(text, pattern, with, 0)
}

/// `text` with every occurrence of `pattern` taken out.
pub open spec fn without(text: Seq<char>, pattern: Seq<char>) -> Seq<char> {
    replaced(text, pattern, Seq::empty())
}

/// Tells whether `pattern` stands in `text` at position `at`.
pub fn found_at(text: &Vec<char>, pattern: &Vec<char>, at: usize) -> (found: bool)
    ensures
        found == occurs_at(text@, pattern@, at as int),
{
    if pattern.len() > text.len() || at > text.len() - pattern.len() {
        return false;
    }
    let mut i: usize = 0;
    while i < pattern.len()
        invariant
            i <= pattern.len(),
            at + pattern.len() <= text.len(),
            text@.subrange(at as int, at + i) == pattern@.take(i as int),
        decreases pattern.len() - i,
    {
        if text[at + i] != pattern[i] {
            assert(!occurs_at(text@, pattern@, at as int)) by {
                if occurs_at(text@, pattern@, at as int) {
                    assert(text@.subrange(at as int, at + pattern.len())[i as int]
                        == pattern@[i as int]);
                }
            }
            return false;
        }
        assert(text@.subrange(at as int, at + i + 1) == text@.subrange(at as int, at + i).push(
            text@[at + i],
        ));
        assert(pattern@.take(i + 1) == pattern@.take(i as int).push(pattern@[i as int]));
        i += 1;
    }
    assert(pattern@.take(pattern.len() as int) == pattern@);
    true
}

/// Tells whether `pattern` stands somewhere in `text`.
pub fn contains_text(text: &Vec<char>, pattern: &Vec<char>) -> (found: bool)
    ensures
        found == contains(text@, pattern@),
{
    if pattern.len() > text.len() {
        assert(!contains(text@, pattern@)) by {
            assert forall|at: int| !occurs_at(text@, pattern@, at) by {}
        }
        return false;
    }
    let last: usize = text.len() - pattern.len();
    let mut at: usize = 0;
    loop
        invariant
            at <= last,
            last == text.len() - pattern.len(),
            forall|k: int| 0 <= k < at ==> !occurs_at(text@, pattern@, k),
        decreases last - at,
    {
        if found_at(text, pattern, at) {
            return true;
        }
        if at == last {
            assert(!contains(text@, pattern@)) by {
                assert forall|k: int| !occurs_at(text@, pattern@, k) by {}
            }
            return false;
        }
        at += 1;
    }
}

/// Puts `with` in the place of every occurrence of `pattern` in `text`.
pub fn replace_all(text: &Vec<char>, pattern: &Vec<char>, with: &Vec<char>) -> (changed: Vec<char>)
    ensures
        changed@ == replaced(text@, pattern@, with@),
{
    let mut changed: Vec<char> = Vec::new();
    let mut at: usize = 0;
    while at < text.len()
        invariant
            at <= text.len(),
            changed@ + replaced_from(text@, pattern@, with@, at as int) == replaced(
                text@,
                pattern@,
                with@,
            ),
        decreases text.len() - at,
    {
        let ghost before = changed@;
        if pattern.len() > 0 && found_at(text, pattern, at) {
            let mut i: usize = 0;
            while i < with.len()
                invariant
                    i <= with.len(),
                    changed@ == before + with@.take(i as int),
                decreases with.len() - i,
            {
                changed.push(with[i]);
                i += 1;
            }
            assert(with@.take(with.len() as int) == with@);
            assert(changed@ + replaced_from(text@, pattern@, with@, at + pattern.len()) == before
                + replaced_from(text@, pattern@, with@, at as int));
            at += pattern.len();
        } else {
            changed.push(text[at]);
            assert(changed@ + replaced_from(text@, pattern@, with@, at + 1) == before
                + replaced_from(text@, pattern@, with@, at as int));
            at += 1;
        }
    }
    assert(changed@ + Seq::<char>::empty() == changed@);
    changed
}

/// Takes every occurrence of `pattern` out of `text`.
pub fn remove_all(text: &Vec<char>, pattern: &Vec<char>) -> (rest: Vec<char>)
    ensures
        rest@ == without(text@, pattern@),
{
    let nothing: Vec<char> = Vec::new();
    replace_all(text, pattern, &nothing)
}

/// The first position from `from` on at which `text` holds `mark`, or the
/// length of `text` if there is none.
pub open spec fn index_of(text: Seq<char>, mark: char, from: int) -> int
    decreases text.len() - from,
{
    if from >= text.len() {
        text.len() as int
    } else if text[from] == mark {
        from
    } else {
        index_of(text, mark, from + 1)
    }
}

/// The search for a mark may skip what is known not to hold it.
proof fn lemma_index_of_skips(text: Seq<char>, mark: char, from: int, upto: int)
    requires
        0 <= from <= upto <= text.len(),
        forall|i: int| from <= i < upto ==> text[i] != mark,
    ensures
        index_of(text, mark, from) == index_of(text, mark, upto),
    decreases upto - from,
{
    if from < upto {
        lemma_index_of_skips(text, mark, from + 1, upto);
    }
}

/// Finds the first position from `from` on at which `text` holds `mark`.
pub(crate) fn find(text: &Vec<char>, mark: char, from: usize) -> (at: usize)
    requires
        from <= text.len(),
    ensures
        at == index_of(text@, mark, from as int),
        from <= at <= text.len(),
{
    let mut at: usize = from;
    while at < text.len() && text[at] != mark
        invariant
            from <= at <= text.len(),
            forall|i: int| from <= i < at ==> text@[i] != mark,
        decreases text.len() - at,
    {
        at += 1;
    }
    proof {
        lemma_index_of_skips(text@, mark, from as int, at as int);
    }
    at
}

/// Copies the part of `text` from `from` up to `end`.
pub(crate) fn part(text: &Vec<char>, from: usize, end: usize) -> (copy: Vec<char>)
    requires
        from <= end <= text.len(),
    ensures
        copy@ == text@.subrange(from as int, end as int),
{
    let mut copy: Vec<char> = Vec::new();
    let mut at: usize = from;
    while at < end
        invariant
            from <= at <= end <= text.len(),
            copy@ == text@.subrange(from as int, at as int),
        decreases end - at,
    {
        copy.push(text[at]);
        at += 1;
    }
    copy
}

} // verus!
