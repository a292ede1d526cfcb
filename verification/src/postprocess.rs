//! Text post-processing for dictation output. The passes are applied to the whole
//! assembled text on every emission, so the result does not depend on how the
//! audio was chunked.
use vstd::prelude::*;
use crate::text;

verus! {

/// Inline white space: the characters that `collapse_whitespace` squashes.
pub open spec fn inline_space(c: char) -> bool {
    c == ' ' || c == '\t'
}

/// A line with every run of spaces and tabs replaced by one space; `prev_space`
/// tells whether the text before `l` ended in such a run.
pub open spec fn squash_from(l: Seq<char>, prev_space: bool) -> Seq<char>
    decreases l.len(),
{
    if l.len() == 0 {
        Seq::empty()
    } else if inline_space(l[0]) {
        (if prev_space { Seq::empty() } else { seq![' '] }) + squash_from(l.drop_first(), true)
    } else {
        seq![l[0]] + squash_from(l.drop_first(), false)
    }
}

/// One line of `collapse_whitespace`: trailing white space trimmed, inline runs squashed.
pub open spec fn collapse_line(l: Seq<char>) -> Seq<char> {
    squash_from(text::trim_end(l), false)
}

/// What `collapse_whitespace` returns: each piece of `s` between line feeds
/// collapsed, joined again by the same line feeds.
pub open spec fn spec_collapse_whitespace(s: Seq<char>) -> Seq<char> {
    text::join(text::split_newlines(s).map_values(|l: Seq<char>| collapse_line(l)), seq!['\n'])
}

/// The punctuation after which `fix_punctuation_spacing` wants a space.
pub open spec fn clause_punct(c: char) -> bool {
    c == ',' || c == ';' || c == ':' || c == '.' || c == '!' || c == '?'
}

/// What `fix_punctuation_spacing` returns: `s` with a space inserted after every
/// punctuation mark that is directly followed by an alphanumeric character.
pub open spec fn spec_fix_punctuation_spacing(s: Seq<char>) -> Seq<char>
    decreases s.len(),
{
    if s.len() == 0 {
        Seq::empty()
    } else {
        seq![s[0]] + (if clause_punct(s[0]) && s.len() > 1 && text::alphanumeric(s[1]) {
            seq![' ']
        } else {
            Seq::empty()
        }) + spec_fix_punctuation_spacing(s.drop_first())
    }
}

/// The punctuation that ends a sentence.
pub open spec fn sentence_end(c: char) -> bool {
    c == '.' || c == '!' || c == '?'
}

/// Whether the next alphabetic character is to be capitalized, after `c` was copied
/// unchanged while the flag was `cap`; `after_end` tells whether the character before
/// `c` ended a sentence, `after_newline` whether it was a line feed. White space keeps
/// a pending capital, and starts one right after `.`, `!` or `?`, or when it is the
/// second line feed of a pair; any other character clears it.
pub open spec fn next_capitalize(c: char, cap: bool, after_end: bool, after_newline: bool) -> bool {
    if text::white_space(c) {
        cap || after_end || (c == '\n' && after_newline)
    } else {
        false
    }
}

/// `s` with the first alphabetic character of each sentence uppercased; `cap` tells
/// whether a capital is pending at the beginning of `s`, `after_end` and
/// `after_newline` whether the character before `s` was `.`, `!` or `?`, or a line
/// feed.
pub open spec fn capitalize_from(s: Seq<char>, cap: bool, after_end: bool, after_newline: bool) -> Seq<
    char,
>
    decreases s.len(),
{
    if s.len() == 0 {
        Seq::empty()
    } else if cap && text::alphabetic(s[0]) {
        text::upper_case(s[0]) + capitalize_from(s.drop_first(), false, false, false)
    } else {
        seq![s[0]] + capitalize_from(
            s.drop_first(),
            next_capitalize(s[0], cap, after_end, after_newline),
            sentence_end(s[0]),
            s[0] == '\n',
        )
    }
}

/// What `capitalize_sentences` returns: a sentence starts at the beginning.
pub open spec fn spec_capitalize_sentences(s: Seq<char>) -> Seq<char> {
    capitalize_from(s, true, false, false)
}

/// Whether every character that `capitalize_from(s, cap, after_end, after_newline)`
/// uppercases is an ASCII character.
pub open spec fn capitals_ascii(s: Seq<char>, cap: bool, after_end: bool, after_newline: bool) -> bool
    decreases s.len(),
{
    if s.len() == 0 {
        true
    } else if cap && text::alphabetic(s[0]) {
        text::ascii(s[0]) && capitals_ascii(s.drop_first(), false, false, false)
    } else {
        capitals_ascii(
            s.drop_first(),
            next_capitalize(s[0], cap, after_end, after_newline),
            sentence_end(s[0]),
            s[0] == '\n',
        )
    }
}

/// Whether every letter that `capitalize_sentences` uppercases in `s` (the first letter
/// of each sentence) is an ASCII letter.
pub open spec fn sentence_initials_ascii(s: Seq<char>) -> bool {
    capitals_ascii(s, true, false, false)
}

/// What `normalize` returns: punctuation spacing, then whitespace collapsing, then
/// capitalization.
pub open spec fn spec_normalize(s: Seq<char>) -> Seq<char> {
    spec_capitalize_sentences(spec_collapse_whitespace(spec_fix_punctuation_spacing(s)))
}

/// One collapsed line.
fn collapse_one_line(v: &Vec<char>) -> (r: Vec<char>)
    ensures
        r@ == collapse_line(v@),
{
    let k = text::trim_end_len(v);
    let ghost t = v@.take(k as int);
    let mut r: Vec<char> = Vec::new();
    let mut prev_space = false;
    let mut i: usize = 0;
    assert(t.skip(0) =~= t);
    while i < k
        invariant
            k <= v@.len(),
            t == v@.take(k as int),
            i <= k,
            r@ + squash_from(t.skip(i as int), prev_space) == squash_from(t, false),
        decreases k - i,
    {
        let ch = v[i];
        assert(t.skip(i as int).drop_first() =~= t.skip(i + 1));
        assert(t.skip(i as int)[0] == ch);
        let ghost before = r@;
        if ch == ' ' || ch == '\t' {
            if !prev_space {
                r.push(' ');
            }
            prev_space = true;
        } else {
            r.push(ch);
            prev_space = false;
        }
        i = i + 1;
        assert(r@ + squash_from(t.skip(i as int), prev_space) =~= squash_from(t, false));
    }
    assert(squash_from(t.skip(k as int), prev_space) =~= Seq::<char>::empty());
    assert(r@ =~= squash_from(t, false));
    r
}

/// Collapse runs of inline whitespace (spaces/tabs) into a single space, but
/// preserve newlines exactly. Trims trailing whitespace from each line.
pub fn collapse_whitespace(text: &str) -> (r: String)
    ensures
        r@ == spec_collapse_whitespace(text@),
{
    let v = text::chars_of(text);
    let ls = text::split_newline_pieces(&v);
    let ghost spec_lines = ls@.map_values(|l: Vec<char>| l@);
    let mut parts: Vec<String> = Vec::new();
    let n = ls.len();
    let mut i: usize = 0;
    while i < n
        invariant
            n == ls@.len(),
            spec_lines == ls@.map_values(|l: Vec<char>| l@),
            i <= n,
            parts@.len() == i,
            forall|j: int| 0 <= j < i ==> #[trigger] parts@[j]@ == collapse_line(spec_lines[j]),
        decreases n - i,
    {
        let c = collapse_one_line(&ls[i]);
        parts.push(text::string_of(&c));
        i = i + 1;
    }
    assert(text::views(parts@) =~= spec_lines.map_values(|l: Seq<char>| collapse_line(l)));
    let r = text::join_strings(&parts, "\n");
    proof {
        reveal_strlit("\n");
        assert("\n"@ =~= seq!['\n']);
    }
    r
}

/// Ensure a single space after `,;:` and `.!?` when followed by a letter/digit.
/// Fixes whisper outputs like `texto,palavra` → `texto, palavra`.
pub fn fix_punctuation_spacing(text: &str) -> (r: String)
    ensures
        r@ == spec_fix_punctuation_spacing(text@),
{
    let v = text::chars_of(text);
    let ghost s = v@;
    let n = v.len();
    let mut out: Vec<char> = Vec::new();
    let mut i: usize = 0;
    assert(s.skip(0) =~= s);
    while i < n
        invariant
            n == v@.len(),
            s == v@,
            i <= n,
            out@ + spec_fix_punctuation_spacing(s.skip(i as int)) == spec_fix_punctuation_spacing(s),
        decreases n - i,
    {
        let ch = v[i];
        let ghost rest = s.skip(i as int);
        assert(rest.drop_first() =~= s.skip(i + 1));
        assert(rest[0] == ch);
        assert(rest.len() > 1 ==> rest[1] == v@[i + 1]);
        out.push(ch);
        if ch == ',' || ch == ';' || ch == ':' || ch == '.' || ch == '!' || ch == '?' {
            if i + 1 < n && text::is_alphanumeric(v[i + 1]) {
                out.push(' ');
            }
        }
        i = i + 1;
        assert(out@ + spec_fix_punctuation_spacing(s.skip(i as int)) =~= spec_fix_punctuation_spacing(s));
    }
    assert(s.skip(n as int) =~= Seq::<char>::empty());
    assert(out@ =~= spec_fix_punctuation_spacing(s));
    text::string_of(&out)
}

/// Capitalize the first alphabetic character of each sentence. A sentence
/// boundary is start-of-string, double newline, or `.!?` followed by whitespace.
pub fn capitalize_sentences(text: &str) -> (r: String)
    ensures
        r@ == spec_capitalize_sentences(text@),
{
    let v = text::chars_of(text);
    let ghost s = v@;
    let n = v.len();
    let mut out: Vec<char> = Vec::new();
    let mut cap = true;
    let mut after_end = false;
    let mut after_newline = false;
    let mut i: usize = 0;
    assert(s.skip(0) =~= s);
    while i < n
        invariant
            n == v@.len(),
            s == v@,
            i <= n,
            out@ + capitalize_from(s.skip(i as int), cap, after_end, after_newline)
                == spec_capitalize_sentences(s),
        decreases n - i,
    {
        let ch = v[i];
        let ghost rest = s.skip(i as int);
        let ghost old_cap = cap;
        let ghost old_end = after_end;
        let ghost old_newline = after_newline;
        assert(rest.drop_first() =~= s.skip(i + 1));
        assert(rest[0] == ch);
        if cap && text::is_alphabetic(ch) {
            let upper = text::to_upper_case(ch);
            let m = upper.len();
            let mut j: usize = 0;
            let ghost base = out@;
            while j < m
                invariant
                    m == upper@.len(),
                    j <= m,
                    out@ == base + upper@.take(j as int),
                decreases m - j,
            {
                out.push(upper[j]);
                j = j + 1;
                assert(out@ =~= base + upper@.take(j as int));
            }
            assert(upper@.take(m as int) =~= upper@);
            cap = false;
            after_end = false;
            after_newline = false;
        } else {
            out.push(ch);
            if text::is_white_space(ch) {
                cap = cap || after_end || (ch == '\n' && after_newline);
            } else {
                cap = false;
            }
            after_end = ch == '.' || ch == '!' || ch == '?';
            after_newline = ch == '\n';
            assert(cap == next_capitalize(ch, old_cap, old_end, old_newline));
        }
        i = i + 1;
        assert(out@ + capitalize_from(s.skip(i as int), cap, after_end, after_newline)
            =~= spec_capitalize_sentences(s));
    }
    assert(s.skip(n as int) =~= Seq::<char>::empty());
    assert(out@ =~= spec_capitalize_sentences(s));
    text::string_of(&out)
}

/// Apply all normalization passes. Order matters:
///   1. Punctuation spacing fixes attached punctuation
///   2. Whitespace collapsing removes extra spaces introduced by step 1
///   3. Capitalization comes last so it sees clean sentence boundaries
pub fn normalize(text: &str) -> (r: String)
    ensures
        r@ == spec_normalize(text@),
{
    let s = fix_punctuation_spacing(text);
    let s = collapse_whitespace(s.as_str());
    capitalize_sentences(s.as_str())
}

/// No tab, and no space directly followed by another space.
pub open spec fn no_inline_runs(t: Seq<char>) -> bool {
    forall|i: int|
        0 <= i < t.len() ==> #[trigger] t[i] != '\t' && (i + 1 < t.len() && t[i] == ' ' ==> t[i
            + 1] != ' ')
}

proof fn lemma_squash_no_inline_runs(l: Seq<char>, prev_space: bool)
    ensures
        no_inline_runs(squash_from(l, prev_space)),
        prev_space && squash_from(l, prev_space).len() > 0 ==> squash_from(l, prev_space)[0]
            != ' ',
    decreases l.len(),
{
    if l.len() > 0 {
        let rest = l.drop_first();
        let r = squash_from(l, prev_space);
        if inline_space(l[0]) {
            lemma_squash_no_inline_runs(rest, true);
            let tail = squash_from(rest, true);
            if !prev_space {
                assert forall|i: int| 0 <= i < r.len() implies #[trigger] r[i] != '\t' && (i + 1
                    < r.len() && r[i] == ' ' ==> r[i + 1] != ' ') by {
                    if i > 0 {
                        assert(r[i] == tail[i - 1]);
                    }
                    if i + 1 < r.len() {
                        assert(r[i + 1] == tail[i]);
                    }
                }
            } else {
                assert(r =~= tail);
            }
        } else {
            lemma_squash_no_inline_runs(rest, false);
            let tail = squash_from(rest, false);
            assert forall|i: int| 0 <= i < r.len() implies #[trigger] r[i] != '\t' && (i + 1
                < r.len() && r[i] == ' ' ==> r[i + 1] != ' ') by {
                if i > 0 {
                    assert(r[i] == tail[i - 1]);
                }
                if i + 1 < r.len() {
                    assert(r[i + 1] == tail[i]);
                }
            }
        }
    }
}

proof fn lemma_join_lines_no_inline_runs(parts: Seq<Seq<char>>)
    requires
        forall|j: int| 0 <= j < parts.len() ==> no_inline_runs(#[trigger] parts[j]),
    ensures
        no_inline_runs(text::join(parts, seq!['\n'])),
    decreases parts.len(),
{
    if parts.len() > 1 {
        let a = text::join(parts.drop_last(), seq!['\n']);
        let b = parts.last();
        lemma_join_lines_no_inline_runs(parts.drop_last());
        assert(no_inline_runs(b));
        let t = text::join(parts, seq!['\n']);
        assert(t =~= a + seq!['\n'] + b);
        assert forall|i: int| 0 <= i < t.len() implies #[trigger] t[i] != '\t' && (i + 1 < t.len()
            && t[i] == ' ' ==> t[i + 1] != ' ') by {
            if i < a.len() {
                assert(t[i] == a[i]);
                if i + 1 < a.len() {
                    assert(t[i + 1] == a[i + 1]);
                } else {
                    assert(t[i + 1] == '\n');
                }
            } else if i == a.len() {
                assert(t[i] == '\n');
            } else {
                assert(t[i] == b[i - a.len() - 1]);
                if i + 1 < t.len() {
                    assert(t[i + 1] == b[i - a.len()]);
                }
            }
        }
    } else if parts.len() == 1 {
        assert(no_inline_runs(parts[0]));
    }
}

/// Law: the output of `collapse_whitespace` holds no tab and never two spaces in a row.
pub proof fn lemma_collapse_whitespace_no_inline_runs(s: Seq<char>)
    ensures
        no_inline_runs(spec_collapse_whitespace(s)),
{
    let parts = text::split_newlines(s).map_values(|l: Seq<char>| collapse_line(l));
    assert forall|j: int| 0 <= j < parts.len() implies no_inline_runs(#[trigger] parts[j]) by {
        lemma_squash_no_inline_runs(text::trim_end(text::split_newlines(s)[j]), false);
    }
    lemma_join_lines_no_inline_runs(parts);
}

proof fn lemma_trim_end_last(s: Seq<char>)
    ensures
        text::trim_end(s).len() > 0 ==> !text::white_space(text::trim_end(s).last()),
    decreases s.len(),
{
    if s.len() > 0 && text::white_space(s.last()) {
        lemma_trim_end_last(s.drop_last());
    }
}

proof fn lemma_squash_keeps_last(t: Seq<char>, prev_space: bool)
    requires
        t.len() > 0,
        !inline_space(t.last()),
    ensures
        squash_from(t, prev_space).len() > 0,
        squash_from(t, prev_space).last() == t.last(),
    decreases t.len(),
{
    let rest = t.drop_first();
    if rest.len() == 0 {
        assert(squash_from(rest, false) =~= Seq::<char>::empty());
        assert(squash_from(rest, true) =~= Seq::<char>::empty());
    } else {
        assert(rest.last() == t.last());
        lemma_squash_keeps_last(rest, inline_space(t[0]));
    }
}

proof fn lemma_trim_end_prefix(s: Seq<char>)
    ensures
        text::trim_end(s).len() <= s.len(),
        forall|i: int| 0 <= i < text::trim_end(s).len() ==> text::trim_end(s)[i] == s[i],
    decreases s.len(),
{
    if s.len() > 0 && text::white_space(s.last()) {
        let d = s.drop_last();
        lemma_trim_end_prefix(d);
        assert forall|i: int| 0 <= i < text::trim_end(s).len() implies text::trim_end(s)[i] == s[i] by {
            assert(text::trim_end(s)[i] == d[i]);
        }
    }
}

proof fn lemma_squash_avoids(t: Seq<char>, prev_space: bool, c: char)
    requires
        c != ' ',
        forall|i: int| 0 <= i < t.len() ==> t[i] != c,
    ensures
        forall|k: int| 0 <= k < squash_from(t, prev_space).len() ==> squash_from(t, prev_space)[k] != c,
    decreases t.len(),
{
    if t.len() > 0 {
        let rest = t.drop_first();
        let p = inline_space(t[0]);
        lemma_squash_avoids(rest, p, c);
        let r = squash_from(t, prev_space);
        let tail = squash_from(rest, p);
        assert forall|k: int| 0 <= k < r.len() implies r[k] != c by {
            if p && prev_space {
                assert(r =~= tail);
            } else if k > 0 {
                assert(r[k] == tail[k - 1]);
            }
        }
    }
}

proof fn lemma_squash_identity(c: Seq<char>, prev_space: bool)
    requires
        no_inline_runs(c),
        prev_space && c.len() > 0 ==> c[0] != ' ',
    ensures
        squash_from(c, prev_space) == c,
    decreases c.len(),
{
    if c.len() > 0 {
        let rest = c.drop_first();
        assert(c[0] != '\t');
        assert(no_inline_runs(rest)) by {
            assert forall|i: int| 0 <= i < rest.len() implies #[trigger] rest[i] != '\t' && (i + 1
                < rest.len() && rest[i] == ' ' ==> rest[i + 1] != ' ') by {
                assert(rest[i] == c[i + 1]);
                assert(c[i + 1] != '\t');
                if i + 1 < rest.len() {
                    assert(rest[i + 1] == c[i + 2]);
                }
            }
        }
        if c[0] == ' ' {
            if rest.len() > 0 {
                assert(c[1] != ' ');
            }
            lemma_squash_identity(rest, true);
        } else {
            lemma_squash_identity(rest, false);
        }
        assert(squash_from(c, prev_space) =~= c);
    }
}

proof fn lemma_collapse_line_idempotent(l: Seq<char>)
    ensures
        collapse_line(collapse_line(l)) == collapse_line(l),
{
    let c = collapse_line(l);
    let t = text::trim_end(l);
    lemma_trim_end_last(l);
    if t.len() > 0 {
        lemma_squash_keeps_last(t, false);
    } else {
        assert(squash_from(t, false) =~= Seq::<char>::empty());
    }
    assert(text::trim_end(c) == c);
    lemma_squash_no_inline_runs(t, false);
    lemma_squash_identity(c, false);
}

/// The pieces of the output of `collapse_whitespace` between line feeds are the
/// pieces of its input, each collapsed.
proof fn lemma_collapse_pieces(s: Seq<char>)
    ensures
        text::split_newlines(spec_collapse_whitespace(s)) == text::split_newlines(s).map_values(
            |l: Seq<char>| collapse_line(l),
        ),
{
    let ls = text::split_newlines(s);
    let parts = ls.map_values(|l: Seq<char>| collapse_line(l));
    text::lemma_split_newlines_shape(s);
    assert forall|j: int, k: int|
        0 <= j < parts.len() && 0 <= k < parts[j].len() implies parts[j][k] != '\n' by {
        let l = ls[j];
        let t = text::trim_end(l);
        lemma_trim_end_prefix(l);
        assert forall|i: int| 0 <= i < t.len() implies t[i] != '\n' by {
            assert(t[i] == l[i]);
        }
        lemma_squash_avoids(t, false, '\n');
        assert(parts[j] == squash_from(t, false));
    }
    text::lemma_split_newlines_of_join(parts);
}

/// Law: `collapse_whitespace` keeps every line feed: its output has as many line feeds
/// as its input, and the pieces between them are the input's pieces, each collapsed.
pub proof fn lemma_collapse_whitespace_keeps_newlines(s: Seq<char>)
    ensures
        text::newline_count(spec_collapse_whitespace(s)) == text::newline_count(s),
        text::split_newlines(spec_collapse_whitespace(s)) == text::split_newlines(s).map_values(
            |l: Seq<char>| collapse_line(l),
        ),
{
    lemma_collapse_pieces(s);
    text::lemma_split_newlines_shape(s);
    text::lemma_split_newlines_shape(spec_collapse_whitespace(s));
}

/// Law: no line of the output of `collapse_whitespace` ends in white space.
pub proof fn lemma_collapse_whitespace_trims_lines(s: Seq<char>)
    ensures
        forall|j: int|
            0 <= j < text::split_newlines(spec_collapse_whitespace(s)).len() ==> text::trim_end(
                #[trigger] text::split_newlines(spec_collapse_whitespace(s))[j],
            ) == text::split_newlines(spec_collapse_whitespace(s))[j],
{
    lemma_collapse_pieces(s);
    let ls = text::split_newlines(s);
    let outs = text::split_newlines(spec_collapse_whitespace(s));
    assert forall|j: int| 0 <= j < outs.len() implies text::trim_end(#[trigger] outs[j])
        == outs[j] by {
        let l = ls[j];
        let t = text::trim_end(l);
        assert(outs[j] == squash_from(t, false));
        lemma_trim_end_last(l);
        if t.len() > 0 {
            lemma_squash_keeps_last(t, false);
        } else {
            assert(squash_from(t, false) =~= Seq::<char>::empty());
        }
    }
}

/// Law: `collapse_whitespace` applied to its own output changes nothing.
pub proof fn lemma_collapse_whitespace_idempotent(s: Seq<char>)
    ensures
        spec_collapse_whitespace(spec_collapse_whitespace(s)) == spec_collapse_whitespace(s),
{
    let ls = text::split_newlines(s);
    let parts = ls.map_values(|l: Seq<char>| collapse_line(l));
    lemma_collapse_pieces(s);
    assert forall|j: int| 0 <= j < parts.len() implies #[trigger] collapse_line(parts[j])
        == parts[j] by {
        lemma_collapse_line_idempotent(ls[j]);
    }
    assert(parts.map_values(|l: Seq<char>| collapse_line(l)) =~= parts);
}

/// No punctuation mark of `clause_punct` is directly followed by an alphanumeric character.
pub open spec fn punct_separated(t: Seq<char>) -> bool {
    forall|i: int|
        0 <= i < t.len() - 1 && clause_punct(#[trigger] t[i]) ==> !text::alphanumeric(t[i + 1])
}

proof fn lemma_fix_keeps_first(s: Seq<char>)
    ensures
        spec_fix_punctuation_spacing(s).len() >= s.len(),
        s.len() > 0 ==> spec_fix_punctuation_spacing(s)[0] == s[0],
    decreases s.len(),
{
    if s.len() > 0 {
        lemma_fix_keeps_first(s.drop_first());
    }
}

/// Law: after `fix_punctuation_spacing`, no punctuation mark is glued to a letter or digit.
pub proof fn lemma_fix_punctuation_spacing_separates(s: Seq<char>)
    ensures
        punct_separated(spec_fix_punctuation_spacing(s)),
    decreases s.len(),
{
    if s.len() > 0 {
        let rest = s.drop_first();
        let t = spec_fix_punctuation_spacing(rest);
        let r = spec_fix_punctuation_spacing(s);
        lemma_fix_punctuation_spacing_separates(rest);
        lemma_fix_keeps_first(rest);
        let inserted = clause_punct(s[0]) && s.len() > 1 && text::alphanumeric(s[1]);
        let k: int = if inserted { 2 } else { 1 };
        assert forall|i: int| 0 <= i < r.len() - 1 && clause_punct(#[trigger] r[i]) implies !text::alphanumeric(r[i + 1]) by {
            if i >= k {
                assert(r[i] == t[i - k]);
                assert(r[i + 1] == t[i + 1 - k]);
            } else if i == 1 {
                assert(r[1] == ' ');
            } else {
                if inserted {
                    assert(r[1] == ' ');
                } else {
                    assert(r[1] == t[0]);
                    assert(t[0] == s[1]);
                }
            }
        }
    }
}

proof fn lemma_fix_punctuation_spacing_identity(t: Seq<char>)
    requires
        punct_separated(t),
    ensures
        spec_fix_punctuation_spacing(t) == t,
    decreases t.len(),
{
    if t.len() > 0 {
        let rest = t.drop_first();
        assert(punct_separated(rest)) by {
            assert forall|i: int| 0 <= i < rest.len() - 1 && clause_punct(#[trigger] rest[i]) implies !text::alphanumeric(rest[i + 1]) by {
                assert(rest[i] == t[i + 1]);
                assert(rest[i + 1] == t[i + 2]);
            }
        }
        lemma_fix_punctuation_spacing_identity(rest);
        if clause_punct(t[0]) && t.len() > 1 {
            assert(!text::alphanumeric(t[1]));
        }
        assert(spec_fix_punctuation_spacing(t) =~= t);
    }
}

/// Law: `fix_punctuation_spacing` applied to its own output changes nothing.
pub proof fn lemma_fix_punctuation_spacing_idempotent(s: Seq<char>)
    ensures
        spec_fix_punctuation_spacing(spec_fix_punctuation_spacing(s))
            == spec_fix_punctuation_spacing(s),
{
    lemma_fix_punctuation_spacing_separates(s);
    lemma_fix_punctuation_spacing_identity(spec_fix_punctuation_spacing(s));
}

/// `b` is `a` with some ASCII letters replaced by ASCII letters.
spec fn letters_recased(a: Seq<char>, b: Seq<char>) -> bool {
    &&& a.len() == b.len()
    &&& forall|i: int|
        0 <= i < a.len() ==> #[trigger] b[i] == a[i] || (text::ascii_letter(a[i])
            && text::ascii_letter(b[i]))
}

/// The uppercase mapping of an ASCII letter is one ASCII letter, which maps to itself.
proof fn lemma_upper_ascii_letter(c: char)
    requires
        text::ascii_letter(c),
    ensures
        text::upper_case(c).len() == 1,
        text::ascii_letter(text::upper_case(c)[0]),
        text::upper_case(text::upper_case(c)[0]) == text::upper_case(c),
{
    assert(text::ascii(c));
    if 'a' <= c && c <= 'z' {
        let u = ((c as u32) - 32) as char;
        assert('A' <= u && u <= 'Z');
        assert(text::ascii(u));
        assert(text::upper_case(c) == seq![u]);
        assert(text::upper_case(u) == seq![u]);
    }
}

proof fn lemma_capitalize_recases(s: Seq<char>, cap: bool, after_end: bool, after_newline: bool)
    requires
        capitals_ascii(s, cap, after_end, after_newline),
    ensures
        letters_recased(s, capitalize_from(s, cap, after_end, after_newline)),
    decreases s.len(),
{
    if s.len() > 0 {
        let rest = s.drop_first();
        let r = capitalize_from(s, cap, after_end, after_newline);
        if cap && text::alphabetic(s[0]) {
            assert(text::ascii(s[0]));
            lemma_upper_ascii_letter(s[0]);
            lemma_capitalize_recases(rest, false, false, false);
            let tail = capitalize_from(rest, false, false, false);
            assert forall|i: int| 0 <= i < s.len() implies #[trigger] r[i] == s[i] || (
            text::ascii_letter(s[i]) && text::ascii_letter(r[i])) by {
                if i > 0 {
                    assert(r[i] == tail[i - 1]);
                    assert(s[i] == rest[i - 1]);
                }
            }
        } else {
            let c2 = next_capitalize(s[0], cap, after_end, after_newline);
            lemma_capitalize_recases(rest, c2, sentence_end(s[0]), s[0] == '\n');
            let tail = capitalize_from(rest, c2, sentence_end(s[0]), s[0] == '\n');
            assert forall|i: int| 0 <= i < s.len() implies #[trigger] r[i] == s[i] || (
            text::ascii_letter(s[i]) && text::ascii_letter(r[i])) by {
                if i > 0 {
                    assert(r[i] == tail[i - 1]);
                    assert(s[i] == rest[i - 1]);
                }
            }
        }
    }
}

proof fn lemma_capitalize_idempotent(s: Seq<char>, cap: bool, after_end: bool, after_newline: bool)
    requires
        capitals_ascii(s, cap, after_end, after_newline),
    ensures
        capitalize_from(capitalize_from(s, cap, after_end, after_newline), cap, after_end, after_newline)
            == capitalize_from(s, cap, after_end, after_newline),
    decreases s.len(),
{
    if s.len() > 0 {
        let rest = s.drop_first();
        let r = capitalize_from(s, cap, after_end, after_newline);
        if cap && text::alphabetic(s[0]) {
            assert(text::ascii(s[0]));
            lemma_upper_ascii_letter(s[0]);
            lemma_capitalize_idempotent(rest, false, false, false);
            let u = text::upper_case(s[0])[0];
            let tail = capitalize_from(rest, false, false, false);
            assert(text::upper_case(s[0]) =~= seq![u]);
            assert(r =~= seq![u] + tail);
            assert(r[0] == u);
            assert(r.drop_first() =~= tail);
            assert(text::ascii(u));
            assert(text::alphabetic(u));
        } else {
            let c2 = next_capitalize(s[0], cap, after_end, after_newline);
            lemma_capitalize_idempotent(rest, c2, sentence_end(s[0]), s[0] == '\n');
            let tail = capitalize_from(rest, c2, sentence_end(s[0]), s[0] == '\n');
            assert(r[0] == s[0]);
            assert(r.drop_first() =~= tail);
        }
    }
}

proof fn lemma_squash_first(t: Seq<char>)
    ensures
        t.len() > 0 ==> squash_from(t, false).len() > 0 && squash_from(t, false)[0] == (if inline_space(t[0]) {
            ' '
        } else {
            t[0]
        }),
{
}

proof fn lemma_squash_punct_separated(t: Seq<char>, prev_space: bool)
    requires
        punct_separated(t),
    ensures
        punct_separated(squash_from(t, prev_space)),
    decreases t.len(),
{
    if t.len() > 0 {
        let rest = t.drop_first();
        let p = inline_space(t[0]);
        assert(punct_separated(rest)) by {
            assert forall|i: int| 0 <= i < rest.len() - 1 && clause_punct(#[trigger] rest[i]) implies !text::alphanumeric(rest[i + 1]) by {
                assert(rest[i] == t[i + 1]);
                assert(rest[i + 1] == t[i + 2]);
            }
        }
        lemma_squash_punct_separated(rest, p);
        let r = squash_from(t, prev_space);
        let tail = squash_from(rest, p);
        if p && prev_space {
            assert(r =~= tail);
        } else {
            assert forall|i: int| 0 <= i < r.len() - 1 && clause_punct(#[trigger] r[i]) implies !text::alphanumeric(r[i + 1]) by {
                assert(r[i + 1] == tail[i]);
                if i > 0 {
                    assert(r[i] == tail[i - 1]);
                } else if !p {
                    assert(r[0] == t[0]);
                    lemma_squash_first(rest);
                    assert(rest[0] == t[1]);
                }
            }
        }
    }
}

proof fn lemma_join_punct_separated(parts: Seq<Seq<char>>)
    requires
        forall|j: int| 0 <= j < parts.len() ==> punct_separated(#[trigger] parts[j]),
    ensures
        punct_separated(text::join(parts, seq!['\n'])),
    decreases parts.len(),
{
    if parts.len() > 1 {
        let a = text::join(parts.drop_last(), seq!['\n']);
        let b = parts.last();
        lemma_join_punct_separated(parts.drop_last());
        assert(punct_separated(b));
        let t = text::join(parts, seq!['\n']);
        assert(t =~= a + seq!['\n'] + b);
        assert forall|i: int| 0 <= i < t.len() - 1 && clause_punct(#[trigger] t[i]) implies !text::alphanumeric(t[i + 1]) by {
            if i < a.len() {
                assert(t[i] == a[i]);
                if i + 1 < a.len() {
                    assert(t[i + 1] == a[i + 1]);
                } else {
                    assert(t[i + 1] == '\n');
                }
            } else if i == a.len() {
                assert(t[i] == '\n');
            } else {
                assert(t[i] == b[i - a.len() - 1]);
                assert(t[i + 1] == b[i - a.len()]);
            }
        }
    } else if parts.len() == 1 {
        assert(punct_separated(parts[0]));
    }
}

proof fn lemma_split_newlines_punct_separated(s: Seq<char>)
    requires
        punct_separated(s),
    ensures
        forall|j: int|
            0 <= j < text::split_newlines(s).len() ==> punct_separated(
                #[trigger] text::split_newlines(s)[j],
            ),
    decreases s.len(),
{
    let e = text::line_end(s);
    text::lemma_line_end_bound(s);
    if e < s.len() {
        let first = s.take(e as int);
        let rest = s.skip(e as int + 1);
        assert(punct_separated(rest)) by {
            assert forall|i: int| 0 <= i < rest.len() - 1 && clause_punct(#[trigger] rest[i]) implies !text::alphanumeric(rest[i + 1]) by {
                assert(rest[i] == s[i + e + 1]);
                assert(rest[i + 1] == s[i + e + 2]);
            }
        }
        lemma_split_newlines_punct_separated(rest);
        assert forall|j: int| 0 <= j < text::split_newlines(s).len() implies punct_separated(
            #[trigger] text::split_newlines(s)[j],
        ) by {
            if j > 0 {
                assert(text::split_newlines(s)[j] == text::split_newlines(rest)[j - 1]);
            } else {
                assert forall|i: int| 0 <= i < first.len() - 1 && clause_punct(#[trigger] first[i]) implies !text::alphanumeric(first[i + 1]) by {
                    assert(first[i] == s[i]);
                    assert(first[i + 1] == s[i + 1]);
                }
            }
        }
    }
}

proof fn lemma_collapse_punct_separated(s: Seq<char>)
    requires
        punct_separated(s),
    ensures
        punct_separated(spec_collapse_whitespace(s)),
{
    let ls = text::split_newlines(s);
    let parts = ls.map_values(|l: Seq<char>| collapse_line(l));
    lemma_split_newlines_punct_separated(s);
    assert forall|j: int| 0 <= j < parts.len() implies punct_separated(#[trigger] parts[j]) by {
        let l = ls[j];
        let t = text::trim_end(l);
        lemma_trim_end_prefix(l);
        assert(punct_separated(l));
        assert forall|i: int| 0 <= i < t.len() - 1 && clause_punct(#[trigger] t[i]) implies !text::alphanumeric(t[i + 1]) by {
            assert(t[i] == l[i]);
            assert(t[i + 1] == l[i + 1]);
        }
        lemma_squash_punct_separated(t, false);
        assert(parts[j] == squash_from(t, false));
    }
    lemma_join_punct_separated(parts);
}

proof fn lemma_recased_punct_separated(a: Seq<char>, b: Seq<char>)
    requires
        punct_separated(a),
        letters_recased(a, b),
    ensures
        punct_separated(b),
{
    assert forall|i: int| 0 <= i < b.len() - 1 && clause_punct(#[trigger] b[i]) implies !text::alphanumeric(b[i + 1]) by {
        assert(b[i] == a[i] || (text::ascii_letter(a[i]) && text::ascii_letter(b[i])));
        assert(b[i] == a[i]);
        assert(clause_punct(a[i]));
        assert(!text::alphanumeric(a[i + 1]));
        assert(b[i + 1] == a[i + 1] || (text::ascii_letter(a[i + 1]) && text::ascii_letter(b[i + 1])));
        if text::ascii_letter(a[i + 1]) {
            assert(text::ascii(a[i + 1]));
        }
    }
}

proof fn lemma_split_newlines_recased(a: Seq<char>, b: Seq<char>)
    requires
        letters_recased(a, b),
    ensures
        text::split_newlines(b).len() == text::split_newlines(a).len(),
        forall|j: int|
            0 <= j < text::split_newlines(a).len() ==> letters_recased(
                #[trigger] text::split_newlines(a)[j],
                text::split_newlines(b)[j],
            ),
    decreases a.len(),
{
    let e = text::line_end(a);
    text::lemma_line_end_bound(a);
    assert forall|k: int| 0 <= k < e implies b[k] != '\n' by {
        assert(b[k] == a[k] || (text::ascii_letter(a[k]) && text::ascii_letter(b[k])));
    }
    if e < a.len() {
        assert(b[e as int] == a[e as int] || (text::ascii_letter(a[e as int]) && text::ascii_letter(
            b[e as int],
        )));
    }
    text::lemma_char_end_at(b, '\n', e as int);
    if e < a.len() {
        let ra = a.skip(e as int + 1);
        let rb = b.skip(e as int + 1);
        assert forall|i: int| 0 <= i < ra.len() implies #[trigger] rb[i] == ra[i] || (
        text::ascii_letter(ra[i]) && text::ascii_letter(rb[i])) by {
            assert(ra[i] == a[i + e + 1]);
            assert(rb[i] == b[i + e + 1]);
        }
        lemma_split_newlines_recased(ra, rb);
        assert forall|j: int| 0 <= j < text::split_newlines(a).len() implies letters_recased(
            #[trigger] text::split_newlines(a)[j],
            text::split_newlines(b)[j],
        ) by {
            if j > 0 {
                assert(text::split_newlines(a)[j] == text::split_newlines(ra)[j - 1]);
                assert(text::split_newlines(b)[j] == text::split_newlines(rb)[j - 1]);
            } else {
                let fa = a.take(e as int);
                let fb = b.take(e as int);
                assert forall|i: int| 0 <= i < fa.len() implies #[trigger] fb[i] == fa[i] || (
                text::ascii_letter(fa[i]) && text::ascii_letter(fb[i])) by {
                    assert(fa[i] == a[i]);
                    assert(fb[i] == b[i]);
                }
            }
        }
    } else {
        assert(text::split_newlines(a) == seq![a]);
        assert(text::split_newlines(b) == seq![b]);
    }
}

proof fn lemma_collapse_line_recased(p: Seq<char>, q: Seq<char>)
    requires
        collapse_line(p) == p,
        letters_recased(p, q),
    ensures
        collapse_line(q) == q,
{
    let t = text::trim_end(p);
    lemma_squash_no_inline_runs(t, false);
    lemma_trim_end_last(p);
    if t.len() > 0 {
        lemma_squash_keeps_last(t, false);
    } else {
        assert(squash_from(t, false) =~= Seq::<char>::empty());
    }
    assert(no_inline_runs(p));
    if q.len() > 0 {
        let n = q.len() - 1;
        assert(q[n] == p[n] || (text::ascii_letter(p[n]) && text::ascii_letter(q[n])));
        assert(q.last() == q[n]);
        assert(p.last() == p[n]);
        assert(!text::white_space(q.last()));
    }
    assert(text::trim_end(q) == q);
    assert(no_inline_runs(q)) by {
        assert forall|i: int| 0 <= i < q.len() implies #[trigger] q[i] != '\t' && (i + 1 < q.len()
            && q[i] == ' ' ==> q[i + 1] != ' ') by {
            assert(q[i] == p[i] || (text::ascii_letter(p[i]) && text::ascii_letter(q[i])));
            assert(p[i] != '\t');
            if i + 1 < q.len() && q[i] == ' ' {
                assert(p[i] == ' ');
                assert(p[i + 1] != ' ');
                assert(q[i + 1] == p[i + 1] || (text::ascii_letter(p[i + 1]) && text::ascii_letter(
                    q[i + 1],
                )));
            }
        }
    }
    lemma_squash_identity(q, false);
}

proof fn lemma_collapse_recased(x: Seq<char>, b: Seq<char>)
    requires
        letters_recased(spec_collapse_whitespace(x), b),
    ensures
        spec_collapse_whitespace(b) == b,
{
    let a = spec_collapse_whitespace(x);
    let ls = text::split_newlines(x);
    lemma_collapse_pieces(x);
    lemma_split_newlines_recased(a, b);
    let pa = text::split_newlines(a);
    let pb = text::split_newlines(b);
    assert forall|j: int| 0 <= j < pb.len() implies #[trigger] collapse_line(pb[j]) == pb[j] by {
        assert(pa[j] == collapse_line(ls[j]));
        lemma_collapse_line_idempotent(ls[j]);
        lemma_collapse_line_recased(pa[j], pb[j]);
    }
    assert(pb.map_values(|l: Seq<char>| collapse_line(l)) =~= pb);
    text::lemma_join_split_newlines(b);
}

/// Law: `normalize` applied to its own output changes nothing, on every text whose
/// sentence-initial letters, as the capitalization pass sees them, are ASCII (other
/// characters anywhere may be beyond ASCII).
pub proof fn lemma_normalize_idempotent(s: Seq<char>)
    requires
        sentence_initials_ascii(spec_collapse_whitespace(spec_fix_punctuation_spacing(s))),
    ensures
        spec_normalize(spec_normalize(s)) == spec_normalize(s),
{
    let f = spec_fix_punctuation_spacing(s);
    let t = spec_collapse_whitespace(f);
    let u = spec_capitalize_sentences(t);
    lemma_fix_punctuation_spacing_separates(s);
    lemma_collapse_punct_separated(f);
    lemma_capitalize_recases(t, true, false, false);
    lemma_recased_punct_separated(t, u);
    lemma_fix_punctuation_spacing_identity(u);
    lemma_collapse_recased(f, u);
    lemma_capitalize_idempotent(t, true, false, false);
}

/// The capitalization state (`cap`, `after_end`, `after_newline`) after the
/// capitalization pass has read `s` from the given state.
pub open spec fn capitalize_state(s: Seq<char>, cap: bool, after_end: bool, after_newline: bool) -> (
    bool,
    bool,
    bool,
)
    decreases s.len(),
{
    if s.len() == 0 {
        (cap, after_end, after_newline)
    } else if cap && text::alphabetic(s[0]) {
        capitalize_state(s.drop_first(), false, false, false)
    } else {
        capitalize_state(
            s.drop_first(),
            next_capitalize(s[0], cap, after_end, after_newline),
            sentence_end(s[0]),
            s[0] == '\n',
        )
    }
}

/// Capitalizing a concatenation capitalizes the first part, then the second part from
/// the state the first part left.
pub proof fn lemma_capitalize_concat(
    a: Seq<char>,
    x: Seq<char>,
    cap: bool,
    after_end: bool,
    after_newline: bool,
)
    ensures
        ({
            let st = capitalize_state(a, cap, after_end, after_newline);
            capitalize_from(a + x, cap, after_end, after_newline) == capitalize_from(
                a,
                cap,
                after_end,
                after_newline,
            ) + capitalize_from(x, st.0, st.1, st.2)
        }),
    decreases a.len(),
{
    if a.len() > 0 {
        let ax = a + x;
        assert(ax[0] == a[0]);
        assert(ax.drop_first() =~= a.drop_first() + x);
        if cap && text::alphabetic(a[0]) {
            lemma_capitalize_concat(a.drop_first(), x, false, false, false);
        } else {
            lemma_capitalize_concat(
                a.drop_first(),
                x,
                next_capitalize(a[0], cap, after_end, after_newline),
                sentence_end(a[0]),
                a[0] == '\n',
            );
        }
    } else {
        assert(a + x =~= x);
    }
}

/// An ASCII character that is not a letter is not alphabetic.
proof fn lemma_ascii_non_letter(c: char)
    requires
        text::ascii(c),
        !text::ascii_letter(c),
    ensures
        !text::alphabetic(c),
{
}

/// Law: a sentence ends at `.`, `!` or `?` followed by white space: in any text, a
/// lowercase ASCII letter that follows one of them and an ASCII white space character
/// is uppercased, right after the capitalized text before it.
pub proof fn lemma_capitalize_after_sentence_end(
    a: Seq<char>,
    e: char,
    w: char,
    l: char,
    b: Seq<char>,
)
    requires
        e == '.' || e == '!' || e == '?',
        text::white_space(w),
        text::ascii(w),
        'a' <= l <= 'z',
    ensures
        exists|tail: Seq<char>|
            spec_capitalize_sentences(a + seq![e, w, l] + b) == spec_capitalize_sentences(
                a + seq![e, w],
            ) + text::upper_case(l) + tail,
{
    let st = capitalize_state(a, true, false, false);
    lemma_capitalize_concat(a, seq![e, w, l] + b, true, false, false);
    lemma_capitalize_concat(a, seq![e, w], true, false, false);
    assert(a + seq![e, w, l] + b =~= a + (seq![e, w, l] + b));
    lemma_ascii_non_letter(e);
    lemma_ascii_non_letter(w);
    assert(text::ascii(l));
    let x = seq![e, w, l] + b;
    let st1 = (next_capitalize(e, st.0, st.1, st.2), true, false);
    let st2 = (next_capitalize(w, st1.0, st1.1, st1.2), sentence_end(w), w == '\n');
    assert(st2.0);
    assert(x[0] == e && x.drop_first() =~= seq![w, l] + b);
    assert((seq![w, l] + b)[0] == w && (seq![w, l] + b).drop_first() =~= seq![l] + b);
    assert((seq![l] + b)[0] == l && (seq![l] + b).drop_first() =~= b);
    let tail = capitalize_from(b, false, false, false);
    assert(capitalize_from(seq![l] + b, st2.0, st2.1, st2.2) == text::upper_case(l) + tail);
    assert(capitalize_from(seq![w, l] + b, st1.0, st1.1, st1.2) == seq![w] + text::upper_case(l)
        + tail);
    assert(capitalize_from(x, st.0, st.1, st.2) == seq![e] + (seq![w] + text::upper_case(l) + tail));
    let y = seq![e, w];
    assert(y[0] == e && y.drop_first() =~= seq![w]);
    assert(seq![w][0] == w && seq![w].drop_first() =~= Seq::<char>::empty());
    assert(capitalize_from(Seq::<char>::empty(), st2.0, st2.1, st2.2) =~= Seq::<char>::empty());
    assert(capitalize_from(seq![w], st1.0, st1.1, st1.2) == seq![w] + capitalize_from(
        Seq::<char>::empty(),
        st2.0,
        st2.1,
        st2.2,
    ));
    assert(capitalize_from(seq![w], st1.0, st1.1, st1.2) =~= seq![w]);
    assert(capitalize_from(y, st.0, st.1, st.2) =~= seq![e, w]);
    assert(spec_capitalize_sentences(a + seq![e, w, l] + b) =~= spec_capitalize_sentences(
        a + seq![e, w],
    ) + text::upper_case(l) + tail);
}

/// Law: no other mark ends a sentence, and a single line feed does not either, but a
/// pair does: after a first letter `x` (capitalized), a lowercase ASCII letter `l`
/// that follows an ASCII character `c` other than a letter, white space, `.`, `!` or
/// `?` and then a space stays lowercase; so does one that follows a single line feed;
/// one that follows two line feeds is uppercased.
pub proof fn lemma_capitalize_other_boundaries(x: char, c: char, l: char, b: Seq<char>)
    requires
        text::ascii_letter(x),
        text::ascii(c),
        !text::ascii_letter(c),
        !text::white_space(c),
        c != '.' && c != '!' && c != '?',
        'a' <= l <= 'z',
    ensures
        exists|tail: Seq<char>|
            spec_capitalize_sentences(seq![x, c, ' ', l] + b) == text::upper_case(x) + seq![c, ' ', l]
                + tail,
        exists|tail: Seq<char>|
            spec_capitalize_sentences(seq![x, '\n', l] + b) == text::upper_case(x) + seq!['\n', l]
                + tail,
        exists|tail: Seq<char>|
            spec_capitalize_sentences(seq![x, '\n', '\n', l] + b) == text::upper_case(x) + seq![
                '\n',
                '\n',
            ] + text::upper_case(l) + tail,
{
    assert(text::ascii(x));
    assert(text::ascii(l));
    lemma_ascii_non_letter(c);
    lemma_ascii_non_letter(' ');
    lemma_ascii_non_letter('\n');
    // the first text
    let s1 = seq![x, c, ' ', l] + b;
    assert(s1[0] == x && s1.drop_first() =~= seq![c, ' ', l] + b);
    assert((seq![c, ' ', l] + b)[0] == c && (seq![c, ' ', l] + b).drop_first() =~= seq![' ', l] + b);
    assert((seq![' ', l] + b)[0] == ' ' && (seq![' ', l] + b).drop_first() =~= seq![l] + b);
    assert((seq![l] + b)[0] == l && (seq![l] + b).drop_first() =~= b);
    let t1 = capitalize_from(b, false, false, false);
    assert(capitalize_from(seq![l] + b, false, false, false) == seq![l] + t1);
    assert(capitalize_from(seq![' ', l] + b, false, false, false) == seq![' '] + (seq![l] + t1));
    assert(capitalize_from(seq![c, ' ', l] + b, false, false, false) == seq![c] + (seq![' '] + (seq![
        l,
    ] + t1)));
    assert(spec_capitalize_sentences(s1) =~= text::upper_case(x) + seq![c, ' ', l] + t1);
    // a single line feed
    let s2 = seq![x, '\n', l] + b;
    assert(s2[0] == x && s2.drop_first() =~= seq!['\n', l] + b);
    assert((seq!['\n', l] + b)[0] == '\n' && (seq!['\n', l] + b).drop_first() =~= seq![l] + b);
    let t2 = capitalize_from(b, false, false, false);
    assert(capitalize_from(seq![l] + b, false, false, true) == seq![l] + t2);
    assert(capitalize_from(seq!['\n', l] + b, false, false, false) == seq!['\n'] + (seq![l] + t2));
    assert(spec_capitalize_sentences(s2) =~= text::upper_case(x) + seq!['\n', l] + t2);
    // two line feeds
    let s3 = seq![x, '\n', '\n', l] + b;
    assert(s3[0] == x && s3.drop_first() =~= seq!['\n', '\n', l] + b);
    assert((seq!['\n', '\n', l] + b)[0] == '\n' && (seq!['\n', '\n', l] + b).drop_first() =~= seq![
        '\n',
        l,
    ] + b);
    let t3 = capitalize_from(b, false, false, false);
    assert(capitalize_from(seq![l] + b, true, false, true) == text::upper_case(l) + t3);
    assert(capitalize_from(seq!['\n', l] + b, false, false, true) == seq!['\n'] + (text::upper_case(
        l,
    ) + t3));
    assert(capitalize_from(seq!['\n', '\n', l] + b, false, false, false) == seq!['\n'] + (seq![
        '\n',
    ] + (text::upper_case(l) + t3)));
    assert(spec_capitalize_sentences(s3) =~= text::upper_case(x) + seq!['\n', '\n']
        + text::upper_case(l) + t3);
}

} // verus!
