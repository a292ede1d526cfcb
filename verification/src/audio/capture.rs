//! Decisions of recording: finding the PipeWire sink to record system audio from.
use vstd::prelude::*;
use crate::text;

verus! {

/// The text between the first and the second `"` of a line (to the end of the line
/// when there is only one), as `line.split('"').nth(1)`; `None` without any `"`.
pub open spec fn quoted_field(l: Seq<char>) -> Option<Seq<char>> {
    let q = text::char_end(l, '"');
    if q == l.len() {
        None
    } else {
        let rest = l.skip(q as int + 1);
        Some(rest.take(text::char_end(rest, '"') as int))
    }
}

/// The key that marks the sink's serial in `wpctl inspect` output.
pub open spec fn serial_key() -> Seq<char> {
    "object.serial"@
}

/// The serial in the first of `ls` that mentions the key (`None` when no line does,
/// or when that line has no quoted value).
pub open spec fn serial_in_lines(ls: Seq<Seq<char>>) -> Option<Seq<char>>
    decreases ls.len(),
{
    if ls.len() == 0 {
        None
    } else if text::occurs(ls[0], serial_key()) {
        quoted_field(ls[0])
    } else {
        serial_in_lines(ls.drop_first())
    }
}

/// The serial number of the default sink in `wpctl inspect @DEFAULT_AUDIO_SINK@`
/// output: the quoted value on the first line that mentions `object.serial`.
pub fn parse_sink_serial(stdout: &str) -> (r: Option<String>)
    ensures
        r matches Some(s) ==> serial_in_lines(text::lines(stdout@)) == Some(s@),
        r is None ==> serial_in_lines(text::lines(stdout@)) is None,
{
    let v = text::chars_of(stdout);
    let ls = text::split_lines(&v);
    let ghost all = ls@.map_values(|l: Vec<char>| l@);
    let key = text::chars_of("object.serial");
    let n = ls.len();
    let mut i: usize = 0;
    assert(all.skip(0) =~= all);
    while i < n
        invariant
            n == ls@.len(),
            all == ls@.map_values(|l: Vec<char>| l@),
            all == text::lines(stdout@),
            key@ == serial_key(),
            i <= n,
            serial_in_lines(all.skip(i as int)) == serial_in_lines(all),
        decreases n - i,
    {
        assert(all.skip(i as int).drop_first() =~= all.skip(i + 1));
        assert(all.skip(i as int)[0] == ls@[i as int]@);
        let line = &ls[i];
        if text::contains_chars(line, &key) {
            let len = line.len();
            assert(line@.skip(0) =~= line@);
            let q = text::find_char(line, 0, '"');
            assert(q == text::char_end(line@, '"'));
            assert(serial_in_lines(all) == quoted_field(line@));
            if q == len {
                return None;
            }
            let e = text::find_char(line, q + 1, '"');
            let field = text::copy_range(line, q + 1, e);
            assert(field@ =~= line@.skip(q + 1).take(e - (q + 1)));
            return Some(text::string_of(&field));
        }
        i = i + 1;
    }
    assert(all.skip(n as int) =~= Seq::<Seq<char>>::empty());
    None
}

/// Law: the serial comes from the first line that mentions `object.serial`, whatever
/// lines before it mention: it is that line's quoted field.
pub proof fn lemma_serial_from_first_serial_line(ls: Seq<Seq<char>>, j: int)
    requires
        0 <= j < ls.len(),
        text::occurs(ls[j], "object.serial"@),
        forall|i: int| 0 <= i < j ==> !text::occurs(#[trigger] ls[i], "object.serial"@),
    ensures
        serial_in_lines(ls) == quoted_field(ls[j]),
    decreases j,
{
    if j > 0 {
        let rest = ls.drop_first();
        assert forall|i: int| 0 <= i < j - 1 implies !text::occurs(#[trigger] rest[i], "object.serial"@) by {
            assert(rest[i] == ls[i + 1]);
        }
        assert(!text::occurs(ls[0], "object.serial"@));
        lemma_serial_from_first_serial_line(rest, j - 1);
    }
}

/// Law: without a line that mentions `object.serial` there is no serial.
pub proof fn lemma_no_serial_line(ls: Seq<Seq<char>>)
    requires
        forall|i: int| 0 <= i < ls.len() ==> !text::occurs(#[trigger] ls[i], "object.serial"@),
    ensures
        serial_in_lines(ls) is None,
    decreases ls.len(),
{
    if ls.len() > 0 {
        let rest = ls.drop_first();
        assert forall|i: int| 0 <= i < rest.len() implies !text::occurs(#[trigger] rest[i], "object.serial"@) by {
            assert(rest[i] == ls[i + 1]);
        }
        assert(!text::occurs(ls[0], "object.serial"@));
        lemma_no_serial_line(rest);
    }
}

/// Law: the quoted field of a line is what stands between its first two double quotes,
/// or after the first one when there is no second; a line without a double quote has
/// none.
pub proof fn lemma_quoted_field(a: Seq<char>, v: Seq<char>, b: Seq<char>)
    requires
        forall|i: int| 0 <= i < a.len() ==> a[i] != '"',
        forall|i: int| 0 <= i < v.len() ==> v[i] != '"',
    ensures
        quoted_field(a + seq!['"'] + v + seq!['"'] + b) == Some(v),
        quoted_field(a + seq!['"'] + v) == Some(v),
        quoted_field(a) is None,
{
    text::lemma_char_end_at(a, '"', a.len() as int);
    let l1 = a + seq!['"'] + v + seq!['"'] + b;
    text::lemma_char_end_at(l1, '"', a.len() as int);
    let r1 = l1.skip(a.len() as int + 1);
    assert(r1 =~= v + seq!['"'] + b);
    text::lemma_char_end_at(r1, '"', v.len() as int);
    assert(r1.take(v.len() as int) =~= v);
    let l2 = a + seq!['"'] + v;
    text::lemma_char_end_at(l2, '"', a.len() as int);
    let r2 = l2.skip(a.len() as int + 1);
    assert(r2 =~= v);
    text::lemma_char_end_at(r2, '"', v.len() as int);
    assert(r2.take(v.len() as int) =~= v);
}

/// The file names of a recording started at `timestamp_ms` (milliseconds since the
/// Unix epoch): the final recording, and the microphone and system tracks beside it
/// (the final name with its extension replaced by `mic.wav` and `sys.wav`).
pub struct RecordingNames {
    pub output: String,
    pub mic: String,
    pub system: String,
}

/// What `recording_names` returns: `recording_<timestamp>` followed by `suffix`.
pub open spec fn recording_name(timestamp_ms: u128, suffix: Seq<char>) -> Seq<char> {
    "recording_"@ + text::decimal_digits(timestamp_ms as nat) + suffix
}

/// The file names of a recording started at `timestamp_ms`.
pub fn recording_names(timestamp_ms: u128) -> (names: RecordingNames)
    ensures
        names.output@ == recording_name(timestamp_ms, ".wav"@),
        names.mic@ == recording_name(timestamp_ms, ".mic.wav"@),
        names.system@ == recording_name(timestamp_ms, ".sys.wav"@),
{
    let mut stem = String::from_str("recording_");
    text::push_decimal_digits(&mut stem, timestamp_ms);
    let output = stem.clone().concat(".wav");
    let mic = stem.clone().concat(".mic.wav");
    let system = stem.concat(".sys.wav");
    RecordingNames { output, mic, system }
}

} // verus!
