//! SRT subtitle formatting: tick-based timestamps rendered as
//! `HH:MM:SS,mmm` and recognizer segments rendered as numbered cues.

use vstd::prelude::*;
use vstd::string::StrSliceExecFns;

verus! {

/// Largest tick count whose millisecond value (tick * 10) still fits in `i64`.
pub const MAX_TICKS: i64 = 922_337_203_685_477_580;

/// The decimal digit character for `d` (meaningful for `0 <= d < 10`).
pub open spec fn digit_char(d: int) -> char {
    if d == 0 {
        '0'
    } else if d == 1 {
        '1'
    } else if d == 2 {
        '2'
    } else if d == 3 {
        '3'
    } else if d == 4 {
        '4'
    } else if d == 5 {
        '5'
    } else if d == 6 {
        '6'
    } else if d == 7 {
        '7'
    } else if d == 8 {
        '8'
    } else {
        '9'
    }
}

/// Decimal rendering of `n` without leading zeros (one `'0'` for `n == 0`).
pub open spec fn dec_digits(n: int) -> Seq<char>
    decreases n,
{
    if n < 10 {
        seq![digit_char(n)]
    } else {
        dec_digits(n / 10).push(digit_char(n % 10))
    }
}

/// Exactly two digits, zero padded (meaningful for `0 <= n < 100`).
pub open spec fn two_digits(n: int) -> Seq<char> {
    seq![digit_char(n / 10), digit_char(n % 10)]
}

/// Exactly three digits, zero padded (meaningful for `0 <= n < 1000`).
pub open spec fn three_digits(n: int) -> Seq<char> {
    seq![digit_char(n / 100), digit_char((n / 10) % 10), digit_char(n % 10)]
}

/// Hours field: unbounded width but at least two digits, zero padded.
pub open spec fn hours_digits(h: int) -> Seq<char> {
    if h < 10 {
        seq!['0'] + dec_digits(h)
    } else {
        dec_digits(h)
    }
}

/// The `HH:MM:SS,mmm` rendering of a tick count `t`, where one tick is
/// 10 milliseconds and all divisions truncate.
pub open spec fn srt_time_chars(t: int) -> Seq<char> {
    let ms_total = t * 10;
    let total_seconds = ms_total / 1000;
    let ms = ms_total % 1000;
    let total_minutes = total_seconds / 60;
    let sec = total_seconds % 60;
    let hours = total_minutes / 60;
    let min = total_minutes % 60;
    hours_digits(hours) + seq![':'] + two_digits(min) + seq![':'] + two_digits(sec) + seq![',']
        + three_digits(ms)
}

/// Turns the collected characters into an owned string.
///
/// Relies on `String`'s `FromIterator<char>`: collecting characters
/// builds the string holding exactly those characters in order.
#[verifier::external_body]
fn chars_to_string(v: &Vec<char>) -> (r: String)
    ensures
        r@ == v@,
{
    v.iter().collect()
}

fn push_digit(n: u64, out: &mut Vec<char>)
    requires
        n < 10,
    ensures
        final(out)@ == old(out)@.push(digit_char(n as int)),
{
    let c: char = if n == 0 {
        '0'
    } else if n == 1 {
        '1'
    } else if n == 2 {
        '2'
    } else if n == 3 {
        '3'
    } else if n == 4 {
        '4'
    } else if n == 5 {
        '5'
    } else if n == 6 {
        '6'
    } else if n == 7 {
        '7'
    } else if n == 8 {
        '8'
    } else {
        '9'
    };
    out.push(c);
}

fn push_decimal(n: u64, out: &mut Vec<char>)
    ensures
        final(out)@ == old(out)@ + dec_digits(n as int),
    decreases n,
{
    if n < 10 {
        push_digit(n, out);
        proof {
            assert(out@ =~= old(out)@ + dec_digits(n as int));
        }
    } else {
        push_decimal(n / 10, out);
        push_digit(n % 10, out);
        proof {
            assert(out@ =~= old(out)@ + dec_digits(n as int));
        }
    }
}

/// Appends the `HH:MM:SS,mmm` rendering of `t` to `out`.
fn push_time(t: i64, out: &mut Vec<char>)
    requires
        0 <= t <= MAX_TICKS,
    ensures
        final(out)@ == old(out)@ + srt_time_chars(t as int),
{
    let tu: u64 = t as u64;
    let ms_total: u64 = tu * 10;
    let total_seconds: u64 = ms_total / 1000;
    let ms: u64 = ms_total % 1000;
    let total_minutes: u64 = total_seconds / 60;
    let sec: u64 = total_seconds % 60;
    let hours: u64 = total_minutes / 60;
    let min: u64 = total_minutes % 60;
    if hours < 10 {
        out.push('0');
    }
    push_decimal(hours, out);
    out.push(':');
    push_digit(min / 10, out);
    push_digit(min % 10, out);
    out.push(':');
    push_digit(sec / 10, out);
    push_digit(sec % 10, out);
    out.push(',');
    push_digit(ms / 100, out);
    push_digit((ms / 10) % 10, out);
    push_digit(ms % 10, out);
    proof {
        assert(out@ =~= old(out)@ + srt_time_chars(t as int));
    }
}

/// Renders an engine tick count (10-millisecond units) as an SRT
/// timestamp `HH:MM:SS,mmm`.
pub fn format_srt_time(whisper_time: i64) -> (r: String)
    requires
        0 <= whisper_time <= MAX_TICKS,
    ensures
        r@ == srt_time_chars(whisper_time as int),
{
    let mut out: Vec<char> = Vec::new();
    push_time(whisper_time, &mut out);
    chars_to_string(&out)
}

/// Whether `c` has Unicode property `White_Space`, the set that surrounding
/// trimming removes.
pub open spec fn is_space(c: char) -> bool {
    ||| c == '\u{0009}'
    ||| c == '\u{000A}'
    ||| c == '\u{000B}'
    ||| c == '\u{000C}'
    ||| c == '\u{000D}'
    ||| c == '\u{0020}'
    ||| c == '\u{0085}'
    ||| c == '\u{00A0}'
    ||| c == '\u{1680}'
    ||| c == '\u{2000}'
    ||| c == '\u{2001}'
    ||| c == '\u{2002}'
    ||| c == '\u{2003}'
    ||| c == '\u{2004}'
    ||| c == '\u{2005}'
    ||| c == '\u{2006}'
    ||| c == '\u{2007}'
    ||| c == '\u{2008}'
    ||| c == '\u{2009}'
    ||| c == '\u{200A}'
    ||| c == '\u{2028}'
    ||| c == '\u{2029}'
    ||| c == '\u{202F}'
    ||| c == '\u{205F}'
    ||| c == '\u{3000}'
}

/// `s` without its leading whitespace.
pub open spec fn ltrim(s: Seq<char>) -> Seq<char>
    decreases s.len(),
{
    if s.len() > 0 && is_space(s[0]) {
        ltrim(s.subrange(1, s.len() as int))
    } else {
        s
    }
}

/// `s` without its trailing whitespace.
pub open spec fn rtrim(s: Seq<char>) -> Seq<char>
    decreases s.len(),
{
    if s.len() > 0 && is_space(s.last()) {
        rtrim(s.drop_last())
    } else {
        s
    }
}

/// `s` without leading and trailing whitespace; interior whitespace stays.
pub open spec fn trim_chars(s: Seq<char>) -> Seq<char> {
    rtrim(ltrim(s))
}

proof fn lemma_ltrim_exact(s: Seq<char>, i: int)
    requires
        0 <= i <= s.len(),
        forall|k: int| 0 <= k < i ==> is_space(s[k]),
        i < s.len() ==> !is_space(s[i]),
    ensures
        ltrim(s) == s.subrange(i, s.len() as int),
    decreases i,
{
    if i == 0 {
        assert(s.subrange(0, s.len() as int) =~= s);
    } else {
        assert(is_space(s[0]));
        let tail = s.subrange(1, s.len() as int);
        lemma_ltrim_exact(tail, i - 1);
        assert(tail.subrange(i - 1, tail.len() as int) =~= s.subrange(i, s.len() as int));
    }
}

proof fn lemma_rtrim_exact(s: Seq<char>, j: int)
    requires
        0 <= j <= s.len(),
        forall|k: int| j <= k < s.len() ==> is_space(s[k]),
        j > 0 ==> !is_space(s[j - 1]),
    ensures
        rtrim(s) == s.subrange(0, j),
    decreases s.len() - j,
{
    if j == s.len() {
        assert(s.subrange(0, j) =~= s);
    } else {
        assert(is_space(s.last()));
        let head = s.drop_last();
        assert(head =~= s.subrange(0, s.len() - 1));
        lemma_rtrim_exact(head, j);
        assert(head.subrange(0, j) =~= s.subrange(0, j));
    }
}

fn is_space_char(c: char) -> (r: bool)
    ensures
        r == is_space(c),
{
    c == '\u{0009}' || c == '\u{000A}' || c == '\u{000B}' || c == '\u{000C}' || c == '\u{000D}'
        || c == '\u{0020}' || c == '\u{0085}' || c == '\u{00A0}' || c == '\u{1680}'
        || c == '\u{2000}' || c == '\u{2001}' || c == '\u{2002}' || c == '\u{2003}'
        || c == '\u{2004}' || c == '\u{2005}' || c == '\u{2006}' || c == '\u{2007}'
        || c == '\u{2008}' || c == '\u{2009}' || c == '\u{200A}' || c == '\u{2028}'
        || c == '\u{2029}' || c == '\u{202F}' || c == '\u{205F}' || c == '\u{3000}'
}

/// Appends `text` with surrounding whitespace removed to `out`.
fn push_trimmed(text: &str, out: &mut Vec<char>)
    ensures
        final(out)@ == old(out)@ + trim_chars(text@),
{
    let n: usize = text.unicode_len();
    let mut start: usize = 0;
    while start < n && is_space_char(text.get_char(start))
        invariant
            n == text@.len(),
            0 <= start <= n,
            forall|k: int| 0 <= k < start ==> is_space(text@[k]),
        decreases n - start,
    {
        start = start + 1;
    }
    let mut end: usize = n;
    while end > start && is_space_char(text.get_char(end - 1))
        invariant
            n == text@.len(),
            start <= end <= n,
            forall|k: int| end <= k < n ==> is_space(text@[k]),
        decreases end,
    {
        end = end - 1;
    }
    proof {
        lemma_ltrim_exact(text@, start as int);
        let mid = text@.subrange(start as int, n as int);
        lemma_rtrim_exact(mid, end - start);
        assert(mid.subrange(0, end - start) =~= text@.subrange(start as int, end as int));
    }
    let mut i: usize = start;
    while i < end
        invariant
            n == text@.len(),
            start <= i <= end <= n,
            out@ == old(out)@ + text@.subrange(start as int, i as int),
        decreases end - i,
    {
        out.push(text.get_char(i));
        proof {
            assert(text@.subrange(start as int, i + 1) =~= text@.subrange(
                start as int,
                i as int,
            ).push(text@[i as int]));
        }
        i = i + 1;
    }
}

/// One time-stamped unit of recognized text, as the recognition engine
/// emits it: start and end in 10-millisecond ticks.
pub struct Segment {
    pub start_ticks: i64,
    pub end_ticks: i64,
    pub text: String,
}

/// A segment the formatter accepts: tick values representable in
/// milliseconds without overflow.
pub open spec fn seg_ok(seg: Segment) -> bool {
    &&& 0 <= seg.start_ticks <= MAX_TICKS
    &&& 0 <= seg.end_ticks <= MAX_TICKS
}

/// The ` --> ` separator between the two timestamps of a cue.
pub open spec fn arrow_chars() -> Seq<char> {
    seq![' ', '-', '-', '>', ' ']
}

/// The full text of the cue numbered `index` for segment `seg`:
/// index line, timestamp line, trimmed body, blank line.
pub open spec fn cue_chars(index: int, seg: Segment) -> Seq<char> {
    dec_digits(index) + seq!['\n'] + srt_time_chars(seg.start_ticks as int) + arrow_chars()
        + srt_time_chars(seg.end_ticks as int) + seq!['\n'] + trim_chars(seg.text@)
        + seq!['\n', '\n']
}

/// The full SRT document for `segs`: one cue per segment, numbered from 1,
/// in emission order; segments are never re-sorted, merged or dropped.
pub open spec fn srt_doc_chars(segs: Seq<Segment>) -> Seq<char>
    decreases segs.len(),
{
    if segs.len() == 0 {
        Seq::empty()
    } else {
        srt_doc_chars(segs.drop_last()) + cue_chars(segs.len() as int, segs.last())
    }
}

/// Renders the whole subtitle document for `segments`.
///
/// The result is exactly `srt_doc_chars(segments@)`, so it is determined
/// by the segment list alone: formatting the same list twice yields
/// identical text.
#[verifier::rlimit(100)]
pub fn format_srt_document(segments: &Vec<Segment>) -> (r: String)
    requires
        forall|i: int| 0 <= i < segments@.len() ==> seg_ok(#[trigger] segments@[i]),
    ensures
        r@ == srt_doc_chars(segments@),
{
    let mut out: Vec<char> = Vec::new();
    let mut idx: usize = 0;
    while idx < segments.len()
        invariant
            idx <= segments@.len(),
            forall|i: int| 0 <= i < segments@.len() ==> seg_ok(#[trigger] segments@[i]),
            out@ == srt_doc_chars(segments@.subrange(0, idx as int)),
        decreases segments@.len() - idx,
    {
        let ghost before = out@;
        let seg = &segments[idx];
        let index: u64 = (idx as u64) + 1;
        push_decimal(index, &mut out);
        out.push('\n');
        push_time(seg.start_ticks, &mut out);
        out.push(' ');
        out.push('-');
        out.push('-');
        out.push('>');
        out.push(' ');
        push_time(seg.end_ticks, &mut out);
        out.push('\n');
        push_trimmed(seg.text.as_str(), &mut out);
        out.push('\n');
        out.push('\n');
        proof {
            assert(out@ =~= before + cue_chars(idx + 1, segments@[idx as int]));
            let sub = segments@.subrange(0, idx + 1);
            assert(sub.drop_last() =~= segments@.subrange(0, idx as int));
            assert(sub.last() == segments@[idx as int]);
            assert(out@ == srt_doc_chars(sub));
        }
        idx = idx + 1;
    }
    proof {
        assert(segments@.subrange(0, segments@.len() as int) =~= segments@);
    }
    chars_to_string(&out)
}

/// For N segments the document is exactly the concatenation of N cues,
/// numbered 1..=N in input order — empty-text segments included, none
/// skipped, merged or re-ordered.
pub proof fn lemma_doc_cue_structure(segs: Seq<Segment>)
    ensures
        srt_doc_chars(segs) == Seq::new(segs.len(), |i: int| cue_chars(i + 1, segs[i])).flatten(),
    decreases segs.len(),
{
    let cues = Seq::new(segs.len(), |i: int| cue_chars(i + 1, segs[i]));
    if segs.len() == 0 {
        assert(cues.flatten() == Seq::<char>::empty());
    } else {
        let rest = segs.drop_last();
        lemma_doc_cue_structure(rest);
        let prev = Seq::new(rest.len(), |i: int| cue_chars(i + 1, rest[i]));
        assert(prev =~~= cues.drop_last());
        cues.lemma_flatten_and_flatten_alt_are_equivalent();
        cues.drop_last().lemma_flatten_and_flatten_alt_are_equivalent();
        assert(cues.flatten_alt() == cues.drop_last().flatten_alt() + cues.last());
        assert(cues.last() == cue_chars(segs.len() as int, segs.last()));
        assert(srt_doc_chars(segs) == cues.flatten());
    }
}

/// Formatting is deterministic: any two results that the formatter's
/// contract allows for the same segment list are identical.
pub proof fn lemma_formatting_deterministic(segs: Seq<Segment>, r1: Seq<char>, r2: Seq<char>)
    requires
        r1 == srt_doc_chars(segs),
        r2 == srt_doc_chars(segs),
    ensures
        r1 == r2,
{
}

} // verus!
