//! Character-level text utilities shared by the text passes of the library:
//! string/character conversions, the Unicode character classes of std, trimming,
//! splitting into lines and joining.
use vstd::prelude::*;

verus! {

/// Is `c` an ASCII character?
pub open spec fn ascii(c: char) -> bool {
    (c as u32) < 128
}

/// Is `c` an ASCII letter?
pub open spec fn ascii_letter(c: char) -> bool {
    ('a' <= c && c <= 'z') || ('A' <= c && c <= 'Z')
}

/// Is `c` an ASCII decimal digit?
pub open spec fn ascii_digit(c: char) -> bool {
    '0' <= c && c <= '9'
}

/// `char::is_alphabetic` beyond ASCII: whether a non-ASCII character has the Unicode
/// Alphabetic property.
pub uninterp spec fn alphabetic_beyond_ascii(c: char) -> bool;

/// `char::is_alphanumeric` beyond ASCII.
pub uninterp spec fn alphanumeric_beyond_ascii(c: char) -> bool;

/// `char::to_uppercase` beyond ASCII: the characters of the uppercase mapping.
pub uninterp spec fn upper_case_beyond_ascii(c: char) -> Seq<char>;

/// White space: the characters with the Unicode White_Space property. Among ASCII
/// characters: the space and `\t`..=`\r`; beyond ASCII: U+0085, U+00A0, U+1680,
/// U+2000..=U+200A, U+2028, U+2029, U+202F, U+205F and U+3000.
pub open spec fn white_space(c: char) -> bool {
    let u = c as u32;
    ||| c == ' '
    ||| ('\t' <= c && c <= '\r')
    ||| u == 0x85
    ||| u == 0xA0
    ||| u == 0x1680
    ||| (0x2000 <= u && u <= 0x200A)
    ||| u == 0x2028
    ||| u == 0x2029
    ||| u == 0x202F
    ||| u == 0x205F
    ||| u == 0x3000
}

/// Alphabetic (Unicode Alphabetic). Among ASCII characters: the letters.
pub open spec fn alphabetic(c: char) -> bool {
    if ascii(c) {
        ascii_letter(c)
    } else {
        alphabetic_beyond_ascii(c)
    }
}

/// Alphanumeric (alphabetic or numeric). Among ASCII characters: letters and digits.
pub open spec fn alphanumeric(c: char) -> bool {
    if ascii(c) {
        ascii_letter(c) || ascii_digit(c)
    } else {
        alphanumeric_beyond_ascii(c)
    }
}

/// The uppercase mapping of `c`. An ASCII character maps to its ASCII uppercase form.
pub open spec fn upper_case(c: char) -> Seq<char> {
    if ascii(c) {
        if 'a' <= c && c <= 'z' {
            seq![((c as u32) - 32) as char]
        } else {
            seq![c]
        }
    } else {
        upper_case_beyond_ascii(c)
    }
}

/// Whether `c` is white space (what `char::is_whitespace` decides).
pub fn is_white_space(c: char) -> (r: bool)
    ensures
        r == white_space(c),
{
    let u = c as u32;
    u == 0x20 || (0x09 <= u && u <= 0x0D) || u == 0x85 || u == 0xA0 || u == 0x1680 || (0x2000
        <= u && u <= 0x200A) || u == 0x2028 || u == 0x2029 || u == 0x202F || u == 0x205F || u
        == 0x3000
}

/// Trusted: `char::is_alphabetic`, documented as the Unicode Alphabetic property.
/// Among ASCII characters that property holds of the letters; beyond ASCII the result
/// is the name `alphabetic_beyond_ascii`.
#[verifier::external_body]
pub(crate) fn is_alphabetic(c: char) -> (r: bool)
    ensures
        r == alphabetic(c),
        !ascii(c) ==> r == alphabetic_beyond_ascii(c),
{
    c.is_alphabetic()
}

/// Trusted: `char::is_alphanumeric`, documented as "alphabetic or numeric" (Unicode
/// Alphabetic, or a general category for numbers). Among ASCII characters that holds
/// of letters and digits; beyond ASCII the result is the name
/// `alphanumeric_beyond_ascii`, and every alphabetic character is alphanumeric.
#[verifier::external_body]
pub(crate) fn is_alphanumeric(c: char) -> (r: bool)
    ensures
        r == alphanumeric(c),
        !ascii(c) ==> r == alphanumeric_beyond_ascii(c),
        alphabetic(c) ==> r,
{
    c.is_alphanumeric()
}

/// Trusted: `char::to_uppercase`, collected into a vector. Documented as one or more
/// characters: the Unicode uppercase mapping, or the character itself when it has
/// none. For ASCII that is the ASCII uppercase form; beyond ASCII the result is the
/// name `upper_case_beyond_ascii`.
#[verifier::external_body]
pub(crate) fn to_upper_case(c: char) -> (r: Vec<char>)
    ensures
        r@ == upper_case(c),
        !ascii(c) ==> r@ == upper_case_beyond_ascii(c),
        r@.len() >= 1,
{
    c.to_uppercase().collect()
}

/// Trusted: `String::push`, which appends one character.
#[verifier::external_body]
pub(crate) fn push_char(s: &mut String, c: char)
    ensures
        final(s)@ == old(s)@.push(c),
{
    s.push(c);
}

/// The characters of a string slice, in order.
pub fn chars_of(s: &str) -> (v: Vec<char>)
    ensures
        v@ == s@,
{
    broadcast use vstd::string::group_string_axioms;

    let mut v: Vec<char> = Vec::new();
    for c in it: s.chars()
        invariant
            it.seq() == s@,
            v@ == it.seq().take(it.index()),
    {
        v.push(c);
    }
    v
}

/// A string holding the given characters.
pub fn string_of(v: &Vec<char>) -> (s: String)
    ensures
        s@ == v@,
{
    let mut s = String::new();
    let n = v.len();
    let mut i: usize = 0;
    while i < n
        invariant
            n == v@.len(),
            i <= n,
            s@ == v@.take(i as int),
        decreases n - i,
    {
        push_char(&mut s, v[i]);
        i = i + 1;
        assert(s@ =~= v@.take(i as int));
    }
    assert(v@.take(n as int) =~= v@);
    s
}

/// The characters of `v` from `from` (inclusive) to `to` (exclusive), copied.
pub fn copy_range(v: &Vec<char>, from: usize, to: usize) -> (r: Vec<char>)
    requires
        from <= to <= v@.len(),
    ensures
        r@ == v@.subrange(from as int, to as int),
{
    let mut r: Vec<char> = Vec::new();
    let mut i: usize = from;
    while i < to
        invariant
            from <= i <= to <= v@.len(),
            r@ == v@.subrange(from as int, i as int),
        decreases to - i,
    {
        r.push(v[i]);
        i = i + 1;
        assert(r@ =~= v@.subrange(from as int, i as int));
    }
    r
}

/// `s` without its trailing white space (as `str::trim_end`).
pub open spec fn trim_end(s: Seq<char>) -> Seq<char>
    decreases s.len(),
{
    if s.len() > 0 && white_space(s.last()) {
        trim_end(s.drop_last())
    } else {
        s
    }
}

/// `s` without its leading white space (as `str::trim_start`).
pub open spec fn trim_start(s: Seq<char>) -> Seq<char>
    decreases s.len(),
{
    if s.len() > 0 && white_space(s[0]) {
        trim_start(s.drop_first())
    } else {
        s
    }
}

/// `s` without leading and trailing white space (as `str::trim`).
pub open spec fn trim(s: Seq<char>) -> Seq<char> {
    trim_start(trim_end(s))
}

/// The length of the part of `v` that `trim_end` keeps.
pub fn trim_end_len(v: &Vec<char>) -> (k: usize)
    ensures
        k <= v@.len(),
        trim_end(v@) == v@.take(k as int),
{
    let mut k: usize = v.len();
    assert(v@.take(k as int) =~= v@);
    while k > 0 && is_white_space(v[k - 1])
        invariant
            k <= v@.len(),
            trim_end(v@) == trim_end(v@.take(k as int)),
        decreases k,
    {
        assert(v@.take(k as int).drop_last() =~= v@.take(k - 1));
        k = k - 1;
    }
    k
}

/// The index of the first character of `v[..end]` that `trim_start` keeps.
pub fn trim_start_index(v: &Vec<char>, end: usize) -> (i: usize)
    requires
        end <= v@.len(),
    ensures
        i <= end,
        trim_start(v@.take(end as int)) == v@.subrange(i as int, end as int),
{
    let mut i: usize = 0;
    assert(v@.subrange(0, end as int) =~= v@.take(end as int));
    while i < end && is_white_space(v[i])
        invariant
            i <= end <= v@.len(),
            trim_start(v@.take(end as int)) == trim_start(v@.subrange(i as int, end as int)),
        decreases end - i,
    {
        assert(v@.subrange(i as int, end as int).drop_first() =~= v@.subrange(i + 1, end as int));
        i = i + 1;
    }
    i
}

/// `trim` of the characters of `v`.
pub fn trim_chars(v: &Vec<char>) -> (r: Vec<char>)
    ensures
        r@ == trim(v@),
{
    let k = trim_end_len(v);
    let i = trim_start_index(v, k);
    copy_range(v, i, k)
}

/// `str::trim` of a string, as an owned string.
pub fn trim_str(s: &str) -> (r: String)
    ensures
        r@ == trim(s@),
{
    let v = chars_of(s);
    let t = trim_chars(&v);
    string_of(&t)
}

/// The parts joined with `sep` between consecutive parts (as `[T]::join`).
pub open spec fn join(parts: Seq<Seq<char>>, sep: Seq<char>) -> Seq<char>
    decreases parts.len(),
{
    if parts.len() == 0 {
        Seq::empty()
    } else if parts.len() == 1 {
        parts[0]
    } else {
        join(parts.drop_last(), sep) + sep + parts.last()
    }
}

/// The views of a list of strings.
pub open spec fn views(parts: Seq<String>) -> Seq<Seq<char>> {
    parts.map_values(|p: String| p@)
}

/// The strings of `parts` joined with `sep`.
pub fn join_strings(parts: &Vec<String>, sep: &str) -> (r: String)
    ensures
        r@ == join(views(parts@), sep@),
{
    let mut r = String::new();
    let n = parts.len();
    let mut i: usize = 0;
    while i < n
        invariant
            n == parts@.len(),
            i <= n,
            r@ == join(views(parts@).take(i as int), sep@),
        decreases n - i,
    {
        let ghost before = views(parts@).take(i as int);
        if i > 0 {
            r.append(sep);
        }
        r.append(parts[i].as_str());
        let ghost after = views(parts@).take(i + 1);
        assert(after.drop_last() =~= before);
        assert(after.len() == 1 ==> after[0] == parts@[0]@);
        i = i + 1;
    }
    assert(views(parts@).take(n as int) =~= views(parts@));
    r
}

/// The number of characters of `s` before the first occurrence of `c` (all of them
/// if there is none).
pub open spec fn char_end(s: Seq<char>, c: char) -> nat
    decreases s.len(),
{
    if s.len() == 0 || s[0] == c {
        0
    } else {
        1 + char_end(s.drop_first(), c)
    }
}

/// The number of characters of `s` before its first line feed (all of them if none).
pub open spec fn line_end(s: Seq<char>) -> nat {
    char_end(s, '\n')
}

/// A line feed ends the line before it, together with a carriage return just before it.
pub open spec fn strip_cr(l: Seq<char>) -> Seq<char> {
    if l.len() > 0 && l.last() == '\r' {
        l.drop_last()
    } else {
        l
    }
}

/// The lines of `s` (as `str::lines`): split at each `\n` (a `\r` just before it is
/// part of the line ending); a final line ending adds no empty line.
pub open spec fn lines(s: Seq<char>) -> Seq<Seq<char>>
    decreases s.len(),
{
    if s.len() == 0 {
        Seq::empty()
    } else {
        let e = line_end(s);
        proof {
            lemma_line_end_bound(s);
        }
        if e == s.len() {
            seq![s]
        } else {
            seq![strip_cr(s.take(e as int))] + lines(s.skip(e as int + 1))
        }
    }
}

pub proof fn lemma_line_end_bound(s: Seq<char>)
    ensures
        line_end(s) <= s.len(),
        line_end(s) < s.len() ==> s[line_end(s) as int] == '\n',
        forall|j: int| 0 <= j < line_end(s) ==> s[j] != '\n',
{
    lemma_char_end_bound(s, '\n');
}

/// `char_end` is at most the length, and the characters before it differ from `c`.
pub proof fn lemma_char_end_bound(s: Seq<char>, c: char)
    ensures
        char_end(s, c) <= s.len(),
        char_end(s, c) < s.len() ==> s[char_end(s, c) as int] == c,
        forall|j: int| 0 <= j < char_end(s, c) ==> s[j] != c,
    decreases s.len(),
{
    if s.len() > 0 && s[0] != c {
        let t = s.drop_first();
        lemma_char_end_bound(t, c);
        assert forall|j: int| 0 <= j < char_end(s, c) implies s[j] != c by {
            if j > 0 {
                assert(s[j] == t[j - 1]);
            }
        }
    }
}

/// `char_end` is the position of the first `c`, or the length.
pub proof fn lemma_char_end_at(s: Seq<char>, c: char, k: int)
    requires
        0 <= k <= s.len(),
        k < s.len() ==> s[k] == c,
        forall|j: int| 0 <= j < k ==> s[j] != c,
    ensures
        char_end(s, c) == k,
    decreases s.len(),
{
    if s.len() > 0 && s[0] != c {
        lemma_char_end_at(s.drop_first(), c, k - 1);
    }
}

/// The position of the first `c` in `v` at or after `from`, or the length.
pub fn find_char(v: &Vec<char>, from: usize, c: char) -> (j: usize)
    requires
        from <= v@.len(),
    ensures
        from <= j <= v@.len(),
        j == from + char_end(v@.skip(from as int), c),
{
    let n = v.len();
    let mut j: usize = from;
    while j < n && v[j] != c
        invariant
            from <= j <= n,
            n == v@.len(),
            forall|k: int| from <= k < j ==> v@[k] != c,
        decreases n - j,
    {
        j = j + 1;
    }
    proof {
        lemma_char_end_at(v@.skip(from as int), c, j - from);
    }
    j
}

/// A join of two or more parts is the first part, the separator, and the join of the
/// rest.
pub proof fn lemma_join_front(parts: Seq<Seq<char>>, sep: Seq<char>)
    requires
        parts.len() >= 2,
    ensures
        join(parts, sep) == parts[0] + sep + join(parts.drop_first(), sep),
    decreases parts.len(),
{
    let dl = parts.drop_last();
    let df = parts.drop_first();
    if parts.len() > 2 {
        lemma_join_front(dl, sep);
        let mid = df.drop_last();
        assert(dl.drop_first() =~= mid);
        assert(df.last() == parts.last());
        assert(dl[0] == parts[0]);
        let jm = join(mid, sep);
        assert(join(dl, sep) == parts[0] + sep + jm);
        assert(join(df, sep) == jm + sep + parts.last());
        assert(join(parts, sep) == join(dl, sep) + sep + parts.last());
        assert(join(parts, sep) =~= parts[0] + sep + join(df, sep));
    } else {
        assert(df.len() == 1);
        assert(dl.len() == 1);
        assert(join(df, sep) == df[0]);
        assert(join(dl, sep) == dl[0]);
        assert(join(parts, sep) =~= parts[0] + sep + join(df, sep));
    }
}

/// The pieces of `s` between line feeds (as `str::split('\n')`): one more piece than
/// there are line feeds, so every line feed, a final one too, is kept between two
/// pieces.
pub open spec fn split_newlines(s: Seq<char>) -> Seq<Seq<char>>
    decreases s.len(),
{
    let e = line_end(s);
    proof {
        lemma_line_end_bound(s);
    }
    if e >= s.len() {
        seq![s]
    } else {
        seq![s.take(e as int)] + split_newlines(s.skip(e as int + 1))
    }
}

/// The number of line feeds in `s`.
pub open spec fn newline_count(s: Seq<char>) -> nat
    decreases s.len(),
{
    if s.len() == 0 {
        0
    } else {
        (if s[0] == '\n' { 1nat } else { 0nat }) + newline_count(s.drop_first())
    }
}

/// Line feeds of a concatenation add up.
pub proof fn lemma_newline_count_concat(a: Seq<char>, b: Seq<char>)
    ensures
        newline_count(a + b) == newline_count(a) + newline_count(b),
    decreases a.len(),
{
    if a.len() == 0 {
        assert(a + b =~= b);
    } else {
        lemma_newline_count_concat(a.drop_first(), b);
        assert((a + b).drop_first() =~= a.drop_first() + b);
    }
}

/// A sequence without line feeds counts none.
pub proof fn lemma_newline_count_none(a: Seq<char>)
    requires
        forall|k: int| 0 <= k < a.len() ==> a[k] != '\n',
    ensures
        newline_count(a) == 0,
    decreases a.len(),
{
    if a.len() > 0 {
        lemma_newline_count_none(a.drop_first());
    }
}

/// `s` has one piece more than line feeds, and no piece holds a line feed.
pub proof fn lemma_split_newlines_shape(s: Seq<char>)
    ensures
        split_newlines(s).len() == newline_count(s) + 1,
        forall|j: int, k: int|
            0 <= j < split_newlines(s).len() && 0 <= k < split_newlines(s)[j].len()
                ==> split_newlines(s)[j][k] != '\n',
    decreases s.len(),
{
    let e = line_end(s);
    lemma_line_end_bound(s);
    if e >= s.len() {
        lemma_newline_count_none(s);
    } else {
        let first = s.take(e as int);
        let rest = s.skip(e as int + 1);
        lemma_split_newlines_shape(rest);
        lemma_newline_count_none(first);
        assert(s =~= first + seq!['\n'] + rest);
        lemma_newline_count_concat(first + seq!['\n'], rest);
        lemma_newline_count_concat(first, seq!['\n']);
        assert(newline_count(seq!['\n']) == 1) by {
            assert(seq!['\n'][0] == '\n');
            assert(seq!['\n'].drop_first() =~= Seq::<char>::empty());
            assert(newline_count(Seq::<char>::empty()) == 0);
        }
        assert forall|j: int, k: int|
            0 <= j < split_newlines(s).len() && 0 <= k < split_newlines(s)[j].len() implies split_newlines(s)[j][k] != '\n' by {
            if j > 0 {
                assert(split_newlines(s)[j] == split_newlines(rest)[j - 1]);
            } else {
                assert(split_newlines(s)[0][k] == s[k]);
            }
        }
    }
}

/// Splitting at line feeds undoes joining with line feeds, when no part holds one.
pub proof fn lemma_split_newlines_of_join(parts: Seq<Seq<char>>)
    requires
        parts.len() >= 1,
        forall|j: int, k: int|
            0 <= j < parts.len() && 0 <= k < parts[j].len() ==> parts[j][k] != '\n',
    ensures
        split_newlines(join(parts, seq!['\n'])) == parts,
    decreases parts.len(),
{
    let first = parts[0];
    if parts.len() == 1 {
        lemma_char_end_at(first, '\n', first.len() as int);
        assert(split_newlines(join(parts, seq!['\n'])) =~= parts);
    } else {
        let rest = parts.drop_first();
        lemma_join_front(parts, seq!['\n']);
        let j = join(rest, seq!['\n']);
        let s = first + seq!['\n'] + j;
        assert forall|jj: int, k: int|
            0 <= jj < rest.len() && 0 <= k < rest[jj].len() implies rest[jj][k] != '\n' by {
            assert(rest[jj] == parts[jj + 1]);
        }
        lemma_split_newlines_of_join(rest);
        lemma_char_end_at(s, '\n', first.len() as int);
        assert(s.take(first.len() as int) =~= first);
        assert(s.skip(first.len() as int + 1) =~= j);
        assert(split_newlines(s) =~= seq![first] + rest);
        assert(seq![first] + rest =~= parts);
    }
}

/// Joining the pieces at line feeds gives back the text.
pub proof fn lemma_join_split_newlines(s: Seq<char>)
    ensures
        join(split_newlines(s), seq!['\n']) == s,
    decreases s.len(),
{
    let e = line_end(s);
    lemma_line_end_bound(s);
    if e < s.len() {
        let first = s.take(e as int);
        let rest = s.skip(e as int + 1);
        lemma_join_split_newlines(rest);
        let ps = split_newlines(s);
        assert(ps.drop_first() =~= split_newlines(rest));
        lemma_split_newlines_shape(rest);
        lemma_join_front(ps, seq!['\n']);
        assert(s =~= first + seq!['\n'] + rest);
    }
}

/// The line-feed-separated pieces of the characters `v`.
pub fn split_newline_pieces(v: &Vec<char>) -> (r: Vec<Vec<char>>)
    ensures
        r@.map_values(|l: Vec<char>| l@) == split_newlines(v@),
{
    let n = v.len();
    let mut r: Vec<Vec<char>> = Vec::new();
    let mut pos: usize = 0;
    assert(v@.skip(0) =~= v@);
    loop
        invariant_except_break
            n == v@.len(),
            pos <= n,
            split_newlines(v@) == r@.map_values(|l: Vec<char>| l@) + split_newlines(v@.skip(pos as int)),
        ensures
            split_newlines(v@) == r@.map_values(|l: Vec<char>| l@),
        decreases n - pos,
    {
        let j = find_char(v, pos, '\n');
        let ghost rest = v@.skip(pos as int);
        let ghost old_r = r@.map_values(|l: Vec<char>| l@);
        let piece = copy_range(v, pos, j);
        r.push(piece);
        assert(r@.map_values(|l: Vec<char>| l@) =~= old_r.push(r@.last()@));
        if j == n {
            assert(r@.last()@ =~= rest);
            assert(split_newlines(v@) =~= r@.map_values(|l: Vec<char>| l@));
            break;
        }
        assert(r@.last()@ =~= rest.take(j - pos));
        assert(rest.skip(j - pos + 1) =~= v@.skip(j + 1));
        pos = j + 1;
        assert(split_newlines(v@) =~= r@.map_values(|l: Vec<char>| l@) + split_newlines(v@.skip(pos as int)));
    }
    r
}

/// The lines of the characters `v`.
pub fn split_lines(v: &Vec<char>) -> (r: Vec<Vec<char>>)
    ensures
        r@.map_values(|l: Vec<char>| l@) == lines(v@),
{
    let n = v.len();
    let mut r: Vec<Vec<char>> = Vec::new();
    let mut pos: usize = 0;
    assert(v@.skip(0) =~= v@);
    while pos < n
        invariant
            n == v@.len(),
            pos <= n,
            lines(v@) == r@.map_values(|l: Vec<char>| l@) + lines(v@.skip(pos as int)),
        decreases n - pos,
    {
        let j = find_char(v, pos, '\n');
        let ghost rest = v@.skip(pos as int);
        let line = copy_range(v, pos, j);
        let ghost old_r = r@.map_values(|l: Vec<char>| l@);
        if j == n {
            assert(line@ =~= rest);
            r.push(line);
            pos = n;
        } else {
            assert(line@ =~= rest.take(j - pos));
            let mut line = line;
            let len = line.len();
            if len > 0 && line[len - 1] == '\r' {
                line.pop();
                assert(line@ =~= strip_cr(rest.take(j - pos)));
            }
            r.push(line);
            assert(rest.skip(j - pos + 1) =~= v@.skip(j + 1));
            pos = j + 1;
        }
        assert(r@.map_values(|l: Vec<char>| l@) =~= old_r.push(r@.last()@));
        assert(lines(v@) =~= r@.map_values(|l: Vec<char>| l@) + lines(v@.skip(pos as int)));
    }
    assert(lines(v@.skip(n as int)) =~= Seq::<Seq<char>>::empty());
    assert(lines(v@) =~= r@.map_values(|l: Vec<char>| l@));
    r
}

/// The number of bytes of the UTF-8 encoding of `s` (what `str::len` returns).
pub open spec fn utf8_len(s: Seq<char>) -> nat {
    vstd::utf8::encode_utf8(s).len()
}

/// The number of bytes of the UTF-8 encoding of one character.
fn char_utf8_len(c: char) -> (n: usize)
    ensures
        n == vstd::utf8::encode_scalar(c as u32).len(),
        1 <= n <= 4,
{
    proof {
        vstd::utf8::char_is_scalar(c);
    }
    let u = c as u32;
    if u < 0x80 {
        1
    } else if u < 0x800 {
        2
    } else if u < 0x10000 {
        3
    } else {
        4
    }
}

/// The UTF-8 length of `v`, counted up to just past `cap`: the exact length when it
/// is at most `cap`, and some value above `cap` otherwise.
pub fn utf8_len_capped(v: &Vec<char>, cap: usize) -> (n: usize)
    requires
        cap <= usize::MAX - 4,
    ensures
        n <= cap ==> n == utf8_len(v@),
        n > cap <==> utf8_len(v@) > cap,
{
    let len = v.len();
    let mut n: usize = 0;
    let mut i: usize = 0;
    assert(v@.skip(0) =~= v@);
    while i < len && n <= cap
        invariant
            len == v@.len(),
            i <= len,
            n <= cap + 4,
            cap <= usize::MAX - 4,
            n + utf8_len(v@.skip(i as int)) == utf8_len(v@),
        decreases len - i,
    {
        let w = char_utf8_len(v[i]);
        assert(v@.skip(i as int).drop_first() =~= v@.skip(i + 1));
        n = n + w;
        i = i + 1;
    }
    if n <= cap {
        assert(v@.skip(len as int) =~= Seq::<char>::empty());
    }
    n
}

/// The UTF-8 encoding of a concatenation is the concatenation of the encodings.
pub proof fn lemma_utf8_len_concat(a: Seq<char>, b: Seq<char>)
    ensures
        utf8_len(a + b) == utf8_len(a) + utf8_len(b),
    decreases a.len(),
{
    if a.len() > 0 {
        lemma_utf8_len_concat(a.drop_first(), b);
        assert((a + b).drop_first() =~= a.drop_first() + b);
    } else {
        assert(a + b =~= b);
    }
}

/// The character of a decimal digit.
pub open spec fn digit_char(d: int) -> char {
    ((d + 48) as u32) as char
}

/// The decimal digits of `n`, most significant first (as `{}` formats an integer).
pub open spec fn decimal_digits(n: nat) -> Seq<char>
    decreases n,
{
    if n < 10 {
        seq![digit_char(n as int)]
    } else {
        decimal_digits(n / 10).push(digit_char((n % 10) as int))
    }
}

/// The decimal text of an integer: a minus sign for negative values, then the digits
/// of the magnitude.
pub open spec fn decimal(n: int) -> Seq<char> {
    if n < 0 {
        seq!['-'] + decimal_digits((-n) as nat)
    } else {
        decimal_digits(n as nat)
    }
}

/// Appends the decimal digits of `n` to `out`.
pub fn push_decimal_digits(out: &mut String, n: u128)
    ensures
        final(out)@ == old(out)@ + decimal_digits(n as nat),
    decreases n,
{
    if n >= 10 {
        push_decimal_digits(out, n / 10);
    }
    let d = (n % 10) as u8;
    let c = (48 + d) as char;
    assert(c == digit_char(d as int));
    push_char(out, c);
}

/// The decimal text of an `i64`.
pub fn decimal_i64(n: i64) -> (s: String)
    ensures
        s@ == decimal(n as int),
{
    let mut s = String::new();
    if n < 0 {
        push_char(&mut s, '-');
        let magnitude = (0i128 - n as i128) as u128;
        push_decimal_digits(&mut s, magnitude);
    } else {
        push_decimal_digits(&mut s, n as u128);
    }
    s
}

/// Whether `pat` occurs in `l` starting at position `i`.
pub open spec fn occurs_at(l: Seq<char>, pat: Seq<char>, i: int) -> bool {
    0 <= i && i + pat.len() <= l.len() && l.subrange(i, i + pat.len()) == pat
}

/// Whether `pat` occurs in `l` (as `str::contains`).
pub open spec fn occurs(l: Seq<char>, pat: Seq<char>) -> bool {
    exists|i: int| occurs_at(l, pat, i)
}

/// Whether `pat` occurs in `l`.
pub fn contains_chars(l: &Vec<char>, pat: &Vec<char>) -> (r: bool)
    ensures
        r == occurs(l@, pat@),
{
    let n = l.len();
    let m = pat.len();
    if m > n {
        assert forall|i: int| !occurs_at(l@, pat@, i) by {}
        return false;
    }
    let mut i: usize = 0;
    while i <= n - m
        invariant
            n == l@.len(),
            m == pat@.len(),
            m <= n,
            i <= n - m + 1,
            forall|k: int| 0 <= k < i ==> !occurs_at(l@, pat@, k),
        decreases n - i,
    {
        let mut j: usize = 0;
        while j < m && l[i + j] == pat[j]
            invariant
                n == l@.len(),
                m == pat@.len(),
                i + m <= n,
                j <= m,
                forall|k: int| 0 <= k < j ==> l@[i + k] == pat@[k],
            decreases m - j,
        {
            j = j + 1;
        }
        if j == m {
            assert(l@.subrange(i as int, i + m) =~= pat@);
            assert(occurs_at(l@, pat@, i as int));
            return true;
        }
        assert(l@.subrange(i as int, i + m)[j as int] != pat@[j as int]);
        i = i + 1;
    }
    assert forall|k: int| !occurs_at(l@, pat@, k) by {
        if 0 <= k && k + m <= n {
            assert(k < i);
        }
    }
    false
}

} // verus!
