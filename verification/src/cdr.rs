//! Decoding of fixed-width call-detail-record (CDR) lines.
//!
//! A CDR line carries five fields at fixed, non-overlapping byte offsets:
//!
//! | field               | byte range | width |
//! |---------------------|------------|-------|
//! | switch_type         | [0, 2)     | 2     |
//! | service_type        | [2, 5)     | 3     |
//! | caller_number       | [5, 16)    | 11    |
//! | call_start_datetime | [16, 30)   | 14    |
//! | usage               | [30, 37)   | 7     |
//!
//! Trailing carriage-return and line-feed bytes are stripped first. A line
//! shorter than 37 bytes after that produces no record. The four text
//! fields are taken verbatim from their byte ranges; the usage range is
//! read as an unsigned decimal integer (an optional leading plus sign is
//! accepted), defaulting to 0 when it is not numeric.
//!
//! Offsets are byte offsets: the decoder works on the raw bytes of a line,
//! so multi-byte text before offset 37 shifts the field boundaries rather
//! than aligning with character positions.

use vstd::prelude::*;
use vstd::slice::slice_index_get;
use vstd::slice::slice_subrange;
use vstd::slice::slice_to_vec;

verus! {

/// Minimum byte length of a line that can hold all five fields.
pub const MIN_LINE_LEN: usize = 37;

/// True of the bytes that terminate a line: carriage return and line feed.
pub open spec fn is_line_break(b: u8) -> bool {
    b == 13 || b == 10
}

/// The line with every trailing carriage-return or line-feed byte removed.
pub open spec fn spec_trim_line(s: Seq<u8>) -> Seq<u8>
    decreases s.len(),
{
    if s.len() > 0 && is_line_break(s.last()) {
        spec_trim_line(s.drop_last())
    } else {
        s
    }
}

/// True of the bytes for the decimal digits 0 through 9.
pub open spec fn is_digit(b: u8) -> bool {
    48 <= b && b <= 57
}

/// True when every byte of the sequence is a decimal digit.
pub open spec fn all_digits(s: Seq<u8>) -> bool {
    forall|i: int| 0 <= i < s.len() ==> is_digit(#[trigger] s[i])
}

/// The numeric value of a sequence of decimal digit bytes, most
/// significant digit first. Meaningful only when `all_digits` holds.
pub open spec fn digits_value(s: Seq<u8>) -> int
    decreases s.len(),
{
    if s.len() == 0 {
        0
    } else {
        digits_value(s.drop_last()) * 10 + (s.last() - 48)
    }
}

/// The usage value read from the usage byte range: the value of its
/// digits when the range is a non-empty run of decimal digits, possibly
/// after a single leading plus sign; 0 otherwise.
pub open spec fn spec_usage_value(s: Seq<u8>) -> u32 {
    if s.len() > 0 && all_digits(s) {
        digits_value(s) as u32
    } else if s.len() >= 2 && s[0] == 43 && all_digits(s.skip(1)) {
        digits_value(s.skip(1)) as u32
    } else {
        0
    }
}

/// The mathematical content of a decoded record: each text field as the
/// byte sequence sliced from the line, and the usage value.
#[verifier::ext_equal]
pub struct CdrRecordView {
    pub switch_type: Seq<u8>,
    pub service_type: Seq<u8>,
    pub caller_number: Seq<u8>,
    pub call_start_datetime: Seq<u8>,
    pub usage: u32,
}

/// What decoding a line yields: no record when the trimmed line is
/// shorter than 37 bytes, and otherwise the five fields sliced from
/// their fixed byte ranges of the trimmed line.
pub open spec fn spec_parse(line: Seq<u8>) -> Option<CdrRecordView> {
    let t = spec_trim_line(line);
    if t.len() < 37 {
        None
    } else {
        Some(CdrRecordView {
            switch_type: t.subrange(0, 2),
            service_type: t.subrange(2, 5),
            caller_number: t.subrange(5, 16),
            call_start_datetime: t.subrange(16, 30),
            usage: spec_usage_value(t.subrange(30, 37)),
        })
    }
}

/// One decoded call-detail record. The four text fields hold the raw
/// bytes of their ranges; `usage` holds the decoded usage units.
pub struct CdrRecord {
    pub switch_type: Vec<u8>,
    pub service_type: Vec<u8>,
    pub caller_number: Vec<u8>,
    pub call_start_datetime: Vec<u8>,
    pub usage: u32,
}

impl View for CdrRecord {
    type V = CdrRecordView;

    open spec fn view(&self) -> CdrRecordView {
        CdrRecordView {
            switch_type: self.switch_type@,
            service_type: self.service_type@,
            caller_number: self.caller_number@,
            call_start_datetime: self.call_start_datetime@,
            usage: self.usage,
        }
    }
}

/// Ten to the power `n`.
pub open spec fn pow10(n: nat) -> int
    decreases n,
{
    if n == 0 {
        1
    } else {
        10 * pow10((n - 1) as nat)
    }
}

proof fn lemma_pow10_monotonic(a: nat, b: nat)
    requires
        a <= b,
    ensures
        pow10(a) <= pow10(b),
    decreases b,
{
    if a < b {
        lemma_pow10_monotonic(a, (b - 1) as nat);
        lemma_pow10_positive((b - 1) as nat);
    }
}

proof fn lemma_pow10_seven()
    ensures
        pow10(7) == 10000000,
{
    assert(pow10(0) == 1);
    assert(pow10(1) == 10);
    assert(pow10(2) == 100);
    assert(pow10(3) == 1000);
    assert(pow10(4) == 10000);
    assert(pow10(5) == 100000);
    assert(pow10(6) == 1000000);
    assert(pow10(7) == 10000000);
}

proof fn lemma_pow10_positive(n: nat)
    ensures
        pow10(n) >= 1,
    decreases n,
{
    if n > 0 {
        lemma_pow10_positive((n - 1) as nat);
    }
}

/// The value of a digit run is bounded by ten to the power of its length.
proof fn lemma_digits_value_bound(s: Seq<u8>)
    requires
        all_digits(s),
    ensures
        0 <= digits_value(s) < pow10(s.len()),
    decreases s.len(),
{
    if s.len() > 0 {
        assert(all_digits(s.drop_last()));
        lemma_digits_value_bound(s.drop_last());
    }
}

/// A line whose trimmed form is long enough and carries only decimal
/// digits in the usage range decodes into a record whose text fields are
/// the exact byte slices of their ranges and whose usage is the numeric
/// value of the usage range.
pub proof fn lemma_parse_digit_usage(line: Seq<u8>)
    requires
        spec_trim_line(line).len() >= 37,
        all_digits(spec_trim_line(line).subrange(30, 37)),
    ensures
        spec_parse(line) matches Some(rec) && {
            let t = spec_trim_line(line);
            &&& rec.switch_type == t.subrange(0, 2)
            &&& rec.service_type == t.subrange(2, 5)
            &&& rec.caller_number == t.subrange(5, 16)
            &&& rec.call_start_datetime == t.subrange(16, 30)
            &&& rec.usage == digits_value(t.subrange(30, 37))
        },
{
    let t = spec_trim_line(line);
    lemma_digits_value_bound(t.subrange(30, 37));
    lemma_pow10_seven();
}

/// A line whose trimmed form is shorter than 37 bytes decodes into no
/// record at all.
pub proof fn lemma_parse_short_line(line: Seq<u8>)
    requires
        spec_trim_line(line).len() < 37,
    ensures
        spec_parse(line) is None,
{
}

/// A line of valid length whose usage range is not numeric still decodes,
/// with the text fields sliced normally and the usage defaulted to 0.
pub proof fn lemma_parse_non_numeric_usage(line: Seq<u8>)
    requires
        spec_trim_line(line).len() >= 37,
        !all_digits(spec_trim_line(line).subrange(30, 37)),
        !(spec_trim_line(line).subrange(30, 37)[0] == 43 && all_digits(
            spec_trim_line(line).subrange(30, 37).skip(1),
        )),
    ensures
        spec_parse(line) matches Some(rec) && {
            let t = spec_trim_line(line);
            &&& rec.switch_type == t.subrange(0, 2)
            &&& rec.service_type == t.subrange(2, 5)
            &&& rec.caller_number == t.subrange(5, 16)
            &&& rec.call_start_datetime == t.subrange(16, 30)
            &&& rec.usage == 0
        },
{
}

/// True when the byte just before `end` is a line break.
fn is_break_at(line: &[u8], end: usize) -> (r: bool)
    requires
        1 <= end <= line@.len(),
    ensures
        r == is_line_break(line@[end - 1]),
{
    let b = *slice_index_get(line, end - 1);
    b == 13 || b == 10
}

/// Strips trailing carriage-return and line-feed bytes from a line.
fn trim_line(line: &[u8]) -> (r: &[u8])
    ensures
        r@ == spec_trim_line(line@),
{
    let mut end: usize = line.len();
    proof {
        assert(line@.subrange(0, end as int) =~= line@);
    }
    while end > 0 && is_break_at(line, end)
        invariant
            end <= line@.len(),
            spec_trim_line(line@) == spec_trim_line(line@.subrange(0, end as int)),
        decreases end,
    {
        proof {
            assert(line@.subrange(0, end as int).drop_last() =~= line@.subrange(
                0,
                end - 1,
            ));
        }
        end = end - 1;
    }
    proof {
        assert(spec_trim_line(line@) == line@.subrange(0, end as int));
    }
    slice_subrange(line, 0, end)
}

/// Reads a run of decimal digits as a number: `Some` exactly when the
/// slice is non-empty and all digits, carrying their numeric value.
fn parse_digits(s: &[u8]) -> (r: Option<u32>)
    requires
        s@.len() <= 7,
    ensures
        r is Some <==> (s@.len() > 0 && all_digits(s@)),
        r matches Some(v) ==> v == digits_value(s@),
{
    if s.len() == 0 {
        return None;
    }
    let mut val: u32 = 0;
    let mut i: usize = 0;
    while i < s.len()
        invariant
            i <= s@.len() <= 7,
            all_digits(s@.subrange(0, i as int)),
            val == digits_value(s@.subrange(0, i as int)),
            val < pow10(i as nat),
        decreases s@.len() - i,
    {
        let b = *slice_index_get(s, i);
        if b < 48 || b > 57 {
            return None;
        }
        proof {
            assert(s@.subrange(0, i + 1).drop_last() =~= s@.subrange(0, i as int));
            lemma_pow10_monotonic((i + 1) as nat, 7);
            lemma_pow10_seven();
        }
        val = val * 10 + (b - 48) as u32;
        i = i + 1;
    }
    proof {
        assert(s@.subrange(0, i as int) =~= s@);
    }
    Some(val)
}

/// Reads the usage byte range as an unsigned decimal integer, accepting
/// an optional leading plus sign and yielding 0 when it is not numeric.
fn parse_usage(s: &[u8]) -> (r: u32)
    requires
        s@.len() == 7,
    ensures
        r == spec_usage_value(s@),
{
    match parse_digits(s) {
        Some(v) => {
            proof {
                lemma_digits_value_bound(s@);
                lemma_pow10_seven();
            }
            v
        },
        None => {
            let b0 = *slice_index_get(s, 0);
            if b0 == 43 {
                let rest = slice_subrange(s, 1, 7);
                proof {
                    assert(rest@ =~= s@.skip(1));
                }
                match parse_digits(rest) {
                    Some(v) => {
                        proof {
                            lemma_digits_value_bound(rest@);
                            lemma_pow10_monotonic(6, 7);
                            lemma_pow10_seven();
                        }
                        v
                    },
                    None => 0,
                }
            } else {
                0
            }
        },
    }
}

impl CdrRecord {
    /// Decodes one line of a CDR file.
    ///
    /// Trailing carriage-return and line-feed bytes are stripped; a line
    /// then shorter than 37 bytes yields no record. Otherwise the five
    /// fields are sliced from their fixed byte ranges, and the usage range
    /// is read as an unsigned decimal integer, 0 when it is not numeric.
    pub fn parse(line: &[u8]) -> (r: Option<CdrRecord>)
        ensures
            r is Some <==> spec_parse(line@) is Some,
            r matches Some(rec) ==> spec_parse(line@) == Some(rec@),
    {
        let trimmed = trim_line(line);
        if trimmed.len() < MIN_LINE_LEN {
            return None;
        }
        let usage = parse_usage(slice_subrange(trimmed, 30, 37));
        let rec = CdrRecord {
            switch_type: slice_to_vec(slice_subrange(trimmed, 0, 2)),
            service_type: slice_to_vec(slice_subrange(trimmed, 2, 5)),
            caller_number: slice_to_vec(slice_subrange(trimmed, 5, 16)),
            call_start_datetime: slice_to_vec(slice_subrange(trimmed, 16, 30)),
            usage,
        };
        proof {
            assert(spec_parse(line@) == Some(rec@)) by {
                assert(spec_parse(line@).unwrap() =~= rec@);
            }
        }
        Some(rec)
    }
}

} // verus!
