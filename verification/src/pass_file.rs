//! Lines of a recorded pass file: `#` header lines with the satellite name
//! and centre frequency, and CSV rows of time and measured frequency.
use crate::spectrum::UtcInstant;
use vstd::prelude::*;
use crate::text::{
    chars_eq_ignore_ascii_case, chars_equal, chars_of, eq_ignore_ascii_case, find_first,
    first_occurrence, string_from_chars, sub_chars, trim, trim_chars,
};

verus! {

/// What one line of a pass file contributes.
#[derive(Clone, Debug, PartialEq, Eq)]
pub enum PassLine {
    /// A blank line, an unknown header, the column header, or a line without
    /// two columns.
    Skip,
    /// A `satellite_name` header with its value.
    SatelliteName(String),
    /// A `center_frequency` header with its (not yet parsed) value.
    CenterFrequency(String),
    /// A data row: the time and frequency columns, not yet parsed.
    Sample { time: String, freq: String },
}

/// A pass-file line as character sequences.
pub enum PassLineView {
    Skip,
    SatelliteName(Seq<char>),
    CenterFrequency(Seq<char>),
    Sample(Seq<char>, Seq<char>),
}

pub open spec fn pass_line_view(p: PassLine) -> PassLineView {
    match p {
        PassLine::Skip => PassLineView::Skip,
        PassLine::SatelliteName(s) => PassLineView::SatelliteName(s@),
        PassLine::CenterFrequency(s) => PassLineView::CenterFrequency(s@),
        PassLine::Sample { time, freq } => PassLineView::Sample(time@, freq@),
    }
}

/// The text up to the first occurrence of `sep`, or all of it.
pub open spec fn up_to(s: Seq<char>, sep: Seq<char>) -> Seq<char> {
    match first_occurrence(s, sep) {
        Some(p) => s.take(p),
        None => s,
    }
}

/// The meaning of a pass-file line. The line is trimmed; a line starting
/// with `#` is a header `key: value` whose key, trimmed and compared without
/// regard to ASCII case, is `satellite_name` or `center_frequency`; any
/// other line is a row whose first two comma-separated columns are the time
/// and the frequency, unless the first column is `utc_timestamp`.
pub open spec fn classify_pass_line_spec(line: Seq<char>) -> PassLineView {
    let t = trim(line);
    if t.len() == 0 {
        PassLineView::Skip
    } else if t[0] == '#' {
        let body = t.drop_first();
        match first_occurrence(body, ":"@) {
            Some(p) => {
                let key = trim(body.take(p));
                let val = trim(body.skip(p + 1));
                if eq_ignore_ascii_case(key, "satellite_name"@) {
                    PassLineView::SatelliteName(val)
                } else if eq_ignore_ascii_case(key, "center_frequency"@) {
                    PassLineView::CenterFrequency(val)
                } else {
                    PassLineView::Skip
                }
            },
            None => PassLineView::Skip,
        }
    } else {
        match first_occurrence(t, ","@) {
            Some(p) => {
                let c0 = t.take(p);
                let c1 = up_to(t.skip(p + 1), ","@);
                if c0 == "utc_timestamp"@ {
                    PassLineView::Skip
                } else {
                    PassLineView::Sample(c0, c1)
                }
            },
            None => PassLineView::Skip,
        }
    }
}

/// What one line of a pass file contributes.
pub fn classify_pass_line(line: &str) -> (r: PassLine)
    ensures
        pass_line_view(r) == classify_pass_line_spec(line@),
{
    let c = chars_of(line);
    let t = trim_chars(&c, 0, c.len());
    assert(c@.subrange(0, c@.len() as int) =~= c@);
    if t.len() == 0 {
        return PassLine::Skip;
    }
    let colon = chars_of(":");
    let comma = chars_of(",");
    proof {
        reveal_strlit(":");
        reveal_strlit(",");
    }
    if t[0] == '#' {
        let body = sub_chars(&t, 1, t.len());
        assert(body@ =~= t@.drop_first());
        match find_first(&body, &colon) {
            Some(p) => {
                let key = trim_chars(&body, 0, p);
                let val = trim_chars(&body, p + 1, body.len());
                assert(body@.subrange(0, p as int) =~= body@.take(p as int));
                assert(body@.subrange(p + 1, body@.len() as int) =~= body@.skip(p + 1));
                let sat_key = chars_of("satellite_name");
                let freq_key = chars_of("center_frequency");
                if chars_eq_ignore_ascii_case(&key, &sat_key) {
                    PassLine::SatelliteName(string_from_chars(&val))
                } else if chars_eq_ignore_ascii_case(&key, &freq_key) {
                    PassLine::CenterFrequency(string_from_chars(&val))
                } else {
                    PassLine::Skip
                }
            },
            None => PassLine::Skip,
        }
    } else {
        match find_first(&t, &comma) {
            Some(p) => {
                let c0 = sub_chars(&t, 0, p);
                let rest = sub_chars(&t, p + 1, t.len());
                assert(c0@ =~= t@.take(p as int));
                assert(rest@ =~= t@.skip(p + 1));
                let c1 = match find_first(&rest, &comma) {
                    Some(q) => sub_chars(&rest, 0, q),
                    None => rest,
                };
                assert(c1@ =~= up_to(t@.skip(p + 1), ","@));
                let header = chars_of("utc_timestamp");
                if chars_equal(&c0, &header) {
                    PassLine::Skip
                } else {
                    PassLine::Sample { time: string_from_chars(&c0), freq: string_from_chars(&c1) }
                }
            },
            None => PassLine::Skip,
        }
    }
}

/// What `chrono::DateTime::parse_from_rfc3339` gives for a text, as the
/// UTC instant it denotes, or none when the text is not an RFC 3339 time.
pub uninterp spec fn rfc3339_utc(text: Seq<char>) -> Option<UtcInstant>;

/// `chrono::DateTime::parse_from_rfc3339`, with the parsed time taken as
/// Unix seconds (`timestamp`) and the nanoseconds past them
/// (`timestamp_subsec_nanos`). The result is the parser's value for the
/// text; nothing is stated of which texts parse.
#[verifier::external_body]
fn parse_rfc3339_utc(text: &str) -> (r: Option<UtcInstant>)
    ensures
        r == rfc3339_utc(text@),
{
    match chrono::DateTime::parse_from_rfc3339(text) {
        Ok(t) => Some(UtcInstant { secs: t.timestamp(), nanos: t.timestamp_subsec_nanos() }),
        Err(_) => None,
    }
}

/// The time and frequency text of a pass-file data row whose time column
/// is an RFC 3339 time; none for any other line.
pub fn pass_sample_time(line: &str) -> (r: Option<(UtcInstant, String)>)
    ensures
        match classify_pass_line_spec(line@) {
            PassLineView::Sample(a, b) => match rfc3339_utc(a) {
                Some(t) => r matches Some((t2, f)) && t2 == t && f@ == b,
                None => r is None,
            },
            _ => r is None,
        },
{
    match classify_pass_line(line) {
        PassLine::Sample { time, freq } => match parse_rfc3339_utc(time.as_str()) {
            Some(t) => Some((t, freq)),
            None => None,
        },
        _ => None,
    }
}

} // verus!
