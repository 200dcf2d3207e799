//! Two-line element (TLE) text: checksums, writing element lines, and
//! reading a catalog of named or unnamed element sets.
use vstd::prelude::*;
use vstd::utf8::{
    decode_utf8, decode_utf8_encode_utf8, encode_utf8, encode_utf8_decode_utf8, encode_utf8_valid_utf8,
    is_ascii_chars, is_ascii_chars_encode_utf8, is_char_boundary, is_char_boundary_start_end_of_seq,
    valid_utf8_split,
};
use vstd::string::StringSliceAdditionalSpecFns;
use crate::text::{
    chars_of, is_whitespace, lemma_trim_end_cut, lemma_trim_start_skip, push_char, string_from_chars,
    trim, trim_chars,
};

verus! {

/// The value that a character adds to a TLE checksum: its digit value, one
/// for a minus sign, nothing otherwise.
pub open spec fn checksum_value(c: char) -> nat {
    if '0' <= c && c <= '9' {
        (c as nat - '0' as nat) as nat
    } else if c == '-' {
        1
    } else {
        0
    }
}

/// The sum of the checksum values of a character sequence.
pub open spec fn checksum_sum(s: Seq<char>) -> nat
    decreases s.len(),
{
    if s.len() == 0 {
        0
    } else {
        checksum_sum(s.drop_last()) + checksum_value(s.last())
    }
}

/// The modulo-10 checksum of the first 68 characters of a TLE line.
pub open spec fn tle_checksum_spec(line: Seq<char>) -> nat {
    checksum_sum(if line.len() <= 68 { line } else { line.take(68) }) % 10
}

proof fn lemma_checksum_sum_bound(s: Seq<char>)
    ensures
        checksum_sum(s) <= 9 * s.len(),
    decreases s.len(),
{
    if s.len() > 0 {
        lemma_checksum_sum_bound(s.drop_last());
    }
}

/// The TLE checksum digit of `line`: the sum, modulo 10, of its digits over
/// the first 68 characters, each minus sign counting one.
pub fn tle_checksum(line: &str) -> (r: u32)
    ensures
        r == tle_checksum_spec(line@),
        r < 10,
{
    let chars = chars_of(line);
    let n: usize = if chars.len() < 68 {
        chars.len()
    } else {
        68
    };
    let ghost body = if line@.len() <= 68 {
        line@
    } else {
        line@.take(68)
    };
    assert(body =~= chars@.take(n as int));
    let mut sum: u32 = 0;
    let mut i: usize = 0;
    while i < n
        invariant
            i <= n <= 68,
            n <= chars@.len(),
            sum == checksum_sum(chars@.take(i as int)),
        decreases n - i,
    {
        proof {
            assert(chars@.take(i + 1).drop_last() =~= chars@.take(i as int));
            lemma_checksum_sum_bound(chars@.take(i as int));
        }
        let c = chars[i];
        if '0' <= c && c <= '9' {
            sum = sum + (c as u32 - '0' as u32);
        } else if c == '-' {
            sum = sum + 1;
        }
        i = i + 1;
    }
    sum % 10
}

/// A line body fitted to 68 bytes: padded with spaces when its UTF-8 text
/// is shorter, else cut after its 68th byte.
pub open spec fn fit_68(body: Seq<char>) -> Seq<char> {
    let b = encode_utf8(body);
    if b.len() < 68 {
        body + Seq::new((68 - b.len()) as nat, |j: int| ' ')
    } else {
        decode_utf8(b.take(68))
    }
}

/// A body can be fitted: it is at most 68 bytes long, or its 68th byte
/// ends a character.
pub open spec fn fits_68(body: Seq<char>) -> bool {
    encode_utf8(body).len() <= 68 || is_char_boundary(encode_utf8(body), 68)
}

/// The character of a decimal digit.
pub open spec fn digit_char(d: nat) -> char {
    ('0' as nat + d) as char
}

/// A finished TLE line: the body fitted to 68 bytes and its checksum
/// digit after it.
pub open spec fn tle_line_spec(body: Seq<char>) -> Seq<char> {
    fit_68(body).push(digit_char(tle_checksum_spec(fit_68(body))))
}

/// A TLE line carries a correct checksum: 68 bytes, then the checksum
/// digit of the characters among them.
pub open spec fn tle_line_valid(line: Seq<char>) -> bool {
    &&& line.len() > 0
    &&& encode_utf8(line.drop_last()).len() == 68
    &&& line.last() == digit_char(tle_checksum_spec(line.drop_last()))
}

proof fn lemma_encode_utf8_concat(a: Seq<char>, b: Seq<char>)
    ensures
        encode_utf8(a + b) == encode_utf8(a) + encode_utf8(b),
    decreases a.len(),
{
    if a.len() == 0 {
        assert(a + b =~= b);
        assert(encode_utf8(a) + encode_utf8(b) =~= encode_utf8(b));
    } else {
        assert((a + b).drop_first() =~= a.drop_first() + b);
        assert((a + b)[0] == a[0]);
        lemma_encode_utf8_concat(a.drop_first(), b);
        assert(encode_utf8(a + b) =~= encode_utf8(a) + encode_utf8(b));
    }
}

/// The fitted body of a fittable line takes exactly 68 bytes.
proof fn lemma_fit_68_bytes(body: Seq<char>)
    requires
        fits_68(body),
    ensures
        encode_utf8(fit_68(body)).len() == 68,
{
    let b = encode_utf8(body);
    encode_utf8_valid_utf8(body);
    if b.len() < 68 {
        let pad = Seq::new((68 - b.len()) as nat, |j: int| ' ');
        lemma_encode_utf8_concat(body, pad);
        assert(is_ascii_chars(pad));
        is_ascii_chars_encode_utf8(pad);
    } else {
        if b.len() == 68 {
            is_char_boundary_start_end_of_seq(b);
        }
        valid_utf8_split(b, 68);
        assert(b.take(68) =~= b.subrange(0, 68));
        decode_utf8_encode_utf8(b.take(68));
    }
}

/// Every line that `finish_tle_line` writes carries a correct checksum.
pub proof fn lemma_finished_line_valid(body: Seq<char>)
    requires
        fits_68(body),
    ensures
        tle_line_valid(tle_line_spec(body)),
{
    lemma_fit_68_bytes(body);
    assert(tle_line_spec(body).drop_last() =~= fit_68(body));
}

/// The TLE line for a formatted body: spaces appended or bytes cut to 68,
/// then the checksum digit.
pub fn finish_tle_line(body: &str) -> (line: String)
    requires
        fits_68(body@),
    ensures
        line@ == tle_line_spec(body@),
        tle_line_valid(line@),
{
    let n = body.as_bytes().len();
    let ghost b = encode_utf8(body@);
    let mut line: String;
    if n < 68 {
        line = body.to_owned();
        let mut k: usize = n;
        while k < 68
            invariant
                n <= k <= 68,
                n == b.len(),
                line@ == body@ + Seq::new((k - n) as nat, |j: int| ' '),
            decreases 68 - k,
        {
            push_char(&mut line, ' ');
            k = k + 1;
            assert(line@ =~= body@ + Seq::new((k - n) as nat, |j: int| ' '));
        }
        assert(line@ =~= fit_68(body@));
    } else {
        proof {
            encode_utf8_valid_utf8(body@);
            if b.len() == 68 {
                is_char_boundary_start_end_of_seq(b);
            }
        }
        let (head, _rest) = body.split_at(68);
        line = head.to_owned();
        proof {
            encode_utf8_decode_utf8(head@);
            assert(b.subrange(0, 68) =~= b.take(68));
            assert(line@ == decode_utf8(b.take(68)));
        }
    }
    assert(line@ == fit_68(body@));
    let c = tle_checksum(line.as_str());
    let d = ('0' as u32 + c) as u8 as char;
    assert(d == digit_char(tle_checksum_spec(fit_68(body@))));
    push_char(&mut line, d);
    proof {
        lemma_finished_line_valid(body@);
    }
    line
}

/// A catalog entry as written to a TLE file: the name line and the two
/// element lines, each ended by a newline.
pub open spec fn tle_entry_spec(name: Seq<char>, body1: Seq<char>, body2: Seq<char>) -> Seq<char> {
    name + seq!['\n'] + tle_line_spec(body1) + seq!['\n'] + tle_line_spec(body2) + seq!['\n']
}

/// The three-line catalog entry for a satellite whose element lines have
/// the given formatted bodies.
pub fn assemble_tle_entry(name: &str, body1: &str, body2: &str) -> (r: String)
    requires
        fits_68(body1@),
        fits_68(body2@),
    ensures
        r@ == tle_entry_spec(name@, body1@, body2@),
{
    let l1 = finish_tle_line(body1);
    let l2 = finish_tle_line(body2);
    let mut out = String::new();
    crate::text::push_str(&mut out, name);
    push_char(&mut out, '\n');
    crate::text::push_str(&mut out, l1.as_str());
    push_char(&mut out, '\n');
    crate::text::push_str(&mut out, l2.as_str());
    push_char(&mut out, '\n');
    out
}

#[verifier::external_type_specification]
#[verifier::external_body]
pub struct ExElements(sgp4::Elements);

#[verifier::external_type_specification]
#[verifier::external_body]
pub struct ExTleError(sgp4::TleError);

/// What `sgp4::Elements::from_tle` returns for an object name and two
/// element lines.
pub uninterp spec fn tle_decode(
    object_name: Option<Seq<char>>,
    line1: Seq<u8>,
    line2: Seq<u8>,
) -> Result<sgp4::Elements, sgp4::TleError>;

/// The characters of an optional string.
pub open spec fn opt_string_view(o: Option<String>) -> Option<Seq<char>> {
    match o {
        Some(s) => Some(s@),
        None => None,
    }
}

/// `sgp4::Elements::from_tle`: decodes two element lines. The result is the
/// decoder's value for the given name and lines; on success the decoded
/// `object_name` field, returned beside the elements, is the name passed in
/// (the source assigns it after decoding); success requires lines of 69
/// bytes that start with `1` and `2`. The decoder subtracts `b'0'` from
/// byte 68 of each 69-byte line, so such lines with a smaller byte there are
/// not passed to it. Nothing else about the decoded fields is stated.
#[verifier::external_body]
fn decode_element_lines(object_name: Option<String>, line1: &[u8], line2: &[u8]) -> (r: Result<
    (Option<String>, sgp4::Elements),
    sgp4::TleError,
>)
    requires
        line1@.len() == 69 ==> line1@[68] >= 0x30,
        line2@.len() == 69 ==> line2@[68] >= 0x30,
    ensures
        match r {
            Ok((n, e)) => {
                &&& tle_decode(opt_string_view(object_name), line1@, line2@) == Ok::<
                    sgp4::Elements,
                    sgp4::TleError,
                >(e)
                &&& opt_string_view(n) == opt_string_view(object_name)
                &&& line1@.len() == 69 && line2@.len() == 69
                &&& line1@[0] == 0x31 && line2@[0] == 0x32
            },
            Err(err) => tle_decode(opt_string_view(object_name), line1@, line2@) == Err::<
                sgp4::Elements,
                sgp4::TleError,
            >(err),
        },
{
    match sgp4::Elements::from_tle(object_name, line1, line2) {
        Ok(e) => Ok((e.object_name.clone(), e)),
        Err(err) => Err(err),
    }
}

/// Line 1 with blanks in the two exponent-sign columns (51 and 60) turned
/// into `+`, as some catalogs omit the sign.
pub open spec fn sanitize_line1(bytes: Seq<u8>) -> Seq<u8> {
    if bytes.len() >= 68 {
        let b = if bytes[50] == 0x20 {
            bytes.update(50, 0x2B)
        } else {
            bytes
        };
        if b[59] == 0x20 {
            b.update(59, 0x2B)
        } else {
            b
        }
    } else {
        bytes
    }
}

/// The byte in the checksum column of a 69-byte line can be decoded.
pub open spec fn checksum_column_ok(line: Seq<u8>) -> bool {
    line.len() == 69 ==> line[68] >= 0x30
}

/// The elements decoded from two lines, or none when they do not decode.
pub open spec fn decoded_elements(
    object_name: Option<Seq<char>>,
    line1: Seq<u8>,
    line2: Seq<u8>,
) -> Option<sgp4::Elements> {
    if checksum_column_ok(line1) && checksum_column_ok(line2) {
        match tle_decode(object_name, line1, line2) {
            Ok(e) => Some(e),
            Err(_) => None,
        }
    } else {
        None
    }
}

/// The sequence starts with the given character.
pub open spec fn starts_with_char(s: Seq<char>, c: char) -> bool {
    s.len() > 0 && s[0] == c
}

/// The catalog read from `lines[i..]`. Blank lines are skipped. A line
/// starting with `1` followed by one starting with `2` is an unnamed
/// element set, named `UNKNOWN`. Otherwise, with two more lines, a name line
/// followed by lines starting with `1` and `2` is a named set; if they do
/// not start so, only the name line is skipped. Sets that do not decode are
/// left out.
pub open spec fn tle_catalog(lines: Seq<Seq<char>>, i: int) -> Seq<(Seq<char>, sgp4::Elements)>
    decreases lines.len() - i,
{
    if i < 0 || i >= lines.len() {
        seq![]
    } else {
        let line = trim(lines[i]);
        if line.len() == 0 {
            tle_catalog(lines, i + 1)
        } else if starts_with_char(line, '1') && i + 1 < lines.len() && starts_with_char(
            trim(lines[i + 1]),
            '2',
        ) {
            let l1 = sanitize_line1(encode_utf8(line));
            let l2 = encode_utf8(trim(lines[i + 1]));
            let found = match decoded_elements(None, l1, l2) {
                Some(e) => seq![("UNKNOWN"@, e)],
                None => seq![],
            };
            found + tle_catalog(lines, i + 2)
        } else if lines.len() - i > 2 {
            let t1 = trim(lines[i + 1]);
            let l1 = sanitize_line1(encode_utf8(t1));
            let l2 = encode_utf8(trim(lines[i + 2]));
            if starts_with_char(t1, '1') && starts_with_char(trim(lines[i + 2]), '2') {
                let found = match decoded_elements(Some(line), l1, l2) {
                    Some(e) => seq![(line, e)],
                    None => seq![],
                };
                found + tle_catalog(lines, i + 3)
            } else {
                tle_catalog(lines, i + 1)
            }
        } else {
            tle_catalog(lines, i + 1)
        }
    }
}

/// The lines of a text, each as its characters.
pub open spec fn lines_view(lines: Seq<String>) -> Seq<Seq<char>> {
    lines.map_values(|l: String| l@)
}

/// A catalog as names and elements.
pub open spec fn catalog_view(v: Seq<(String, sgp4::Elements)>) -> Seq<(Seq<char>, sgp4::Elements)> {
    v.map_values(|p: (String, sgp4::Elements)| (p.0@, p.1))
}

/// The UTF-8 bytes of a character vector.
fn utf8_bytes(chars: &Vec<char>) -> (b: Vec<u8>)
    ensures
        b@ == encode_utf8(chars@),
{
    let s = string_from_chars(chars);
    s.as_str().as_bytes_vec()
}

/// The trimmed characters of a line.
fn trimmed(line: &String) -> (r: Vec<char>)
    ensures
        r@ == trim(line@),
{
    let c = chars_of(line.as_str());
    assert(c@.subrange(0, c@.len() as int) =~= c@);
    trim_chars(&c, 0, c.len())
}

fn sanitize_line1_bytes(bytes: &mut Vec<u8>)
    ensures
        final(bytes)@ == sanitize_line1(old(bytes)@),
{
    if bytes.len() >= 68 {
        if bytes[50] == 0x20 {
            bytes.set(50, 0x2B);
        }
        if bytes[59] == 0x20 {
            bytes.set(59, 0x2B);
        }
    }
}

fn decode_if_possible(object_name: Option<String>, line1: &Vec<u8>, line2: &Vec<u8>) -> (r: Option<
    (Option<String>, sgp4::Elements),
>)
    ensures
        match decoded_elements(opt_string_view(object_name), line1@, line2@) {
            Some(e) => r matches Some((n, e2)) && e2 == e && opt_string_view(n) == opt_string_view(
                object_name,
            ),
            None => r is None,
        },
{
    let ok1 = line1.len() != 69 || line1[68] >= 0x30;
    let ok2 = line2.len() != 69 || line2[68] >= 0x30;
    if !(ok1 && ok2) {
        return None;
    }
    let ghost name_view = opt_string_view(object_name);
    match decode_element_lines(object_name, line1.as_slice(), line2.as_slice()) {
        Ok(p) => Some(p),
        Err(_) => None,
    }
}

/// Reads a TLE catalog from the lines of a file. Blank lines are skipped; a
/// line starting with `1` followed by a line starting with `2` is an element
/// set named `UNKNOWN`; otherwise a name line followed by such a pair is a
/// named element set. Blanks in the exponent-sign columns of line 1 become
/// `+`. Element sets that do not decode are left out.
pub fn parse_tle_lines(lines: &Vec<String>) -> (r: Vec<(String, sgp4::Elements)>)
    ensures
        catalog_view(r@) == tle_catalog(lines_view(lines@), 0),
{
    let ghost lv = lines_view(lines@);
    let mut out: Vec<(String, sgp4::Elements)> = Vec::new();
    let mut i: usize = 0;
    while i < lines.len()
        invariant
            i <= lines@.len(),
            lv == lines_view(lines@),
            catalog_view(out@) + tle_catalog(lv, i as int) == tle_catalog(lv, 0),
        decreases lines.len() - i,
    {
        let ghost before = out@;
        assert(lv[i as int] == lines@[i as int]@);
        let line = trimmed(&lines[i]);
        if line.len() == 0 {
            i = i + 1;
        } else if line[0] == '1' && lines.len() - i > 1 && {
            let next = trimmed(&lines[i + 1]);
            next.len() > 0 && next[0] == '2'
        } {
            assert(lv[i + 1] == lines@[i + 1]@);
            let mut l1 = utf8_bytes(&line);
            sanitize_line1_bytes(&mut l1);
            let next = trimmed(&lines[i + 1]);
            let l2 = utf8_bytes(&next);
            match decode_if_possible(None, &l1, &l2) {
                Some((name, elements)) => {
                    let sat_name = match name {
                        Some(n) => n,
                        None => {
                            let mut u = String::new();
                            crate::text::push_str(&mut u, "UNKNOWN");
                            u
                        },
                    };
                    out.push((sat_name, elements));
                    assert(catalog_view(out@) =~= catalog_view(before) + seq![("UNKNOWN"@, elements)]);
                },
                None => {},
            }
            i = i + 2;
        } else if lines.len() - i > 2 {
            assert(lv[i + 1] == lines@[i + 1]@);
            assert(lv[i + 2] == lines@[i + 2]@);
            let t1 = trimmed(&lines[i + 1]);
            let t2 = trimmed(&lines[i + 2]);
            if t1.len() > 0 && t1[0] == '1' && t2.len() > 0 && t2[0] == '2' {
                let mut l1 = utf8_bytes(&t1);
                sanitize_line1_bytes(&mut l1);
                let l2 = utf8_bytes(&t2);
                let name = string_from_chars(&line);
                let ghost name_view = name@;
                match decode_if_possible(Some(name), &l1, &l2) {
                    Some((_, elements)) => {
                        let name_again = string_from_chars(&line);
                        out.push((name_again, elements));
                        assert(catalog_view(out@) =~= catalog_view(before) + seq![(name_view, elements)]);
                    },
                    None => {},
                }
                i = i + 3;
            } else {
                i = i + 1;
            }
        } else {
            i = i + 1;
        }
    }
    out
}

/// Age in seconds past which a cached TLE catalog is fetched again.
pub open spec fn tle_cache_max_age() -> u64 {
    43200
}

/// Whether the cached catalog must be fetched again: on request, when the
/// cache file is missing, or when its age is known and exceeds twelve
/// hours.
pub fn tle_cache_needs_refresh(force_download: bool, cache_exists: bool, age_secs: Option<u64>) -> (r:
    bool)
    ensures
        r == (force_download || !cache_exists || (age_secs matches Some(a) && a > tle_cache_max_age())),
{
    if force_download || !cache_exists {
        return true;
    }
    match age_secs {
        Some(a) => a > 43200,
        None => false,
    }
}

/// The checksum counts digits by their value and each minus sign as one,
/// ignores every other character, and ignores everything past column 68.
pub proof fn law_checksum_counts_digits_and_minus(s: Seq<char>, c: char)
    ensures
        s.len() < 68 && '0' <= c <= '9' ==> tle_checksum_spec(s.push(c)) == (tle_checksum_spec(s)
            + (c as int - '0' as int)) % 10,
        s.len() < 68 && c == '-' ==> tle_checksum_spec(s.push(c)) == (tle_checksum_spec(s) + 1)
            % 10,
        s.len() < 68 && !('0' <= c <= '9') && c != '-' ==> tle_checksum_spec(s.push(c))
            == tle_checksum_spec(s),
        s.len() >= 68 ==> tle_checksum_spec(s.push(c)) == tle_checksum_spec(s),
{
    assert(s.push(c).drop_last() =~= s);
    if s.len() >= 68 {
        assert(s.push(c).take(68) =~= s.take(68));
    }
}

/// A catalog line 1 with a blank in an exponent-sign column (51 or 60)
/// reads exactly as the same line with `+` there, whether the element set
/// is unnamed or follows a name line.
pub proof fn law_exponent_sign_blank_reads_as_plus(
    name: Seq<char>,
    l1: Seq<char>,
    l2: Seq<char>,
    col: int,
)
    requires
        col == 50 || col == 59,
        l1.len() >= 68,
        is_ascii_chars(l1),
        l1[0] == '1',
        l1[col] == ' ',
        !is_whitespace(l1.last()),
        starts_with_char(trim(l2), '2'),
        trim(name).len() > 0,
    ensures
        tle_catalog(seq![l1, l2], 0) == tle_catalog(seq![l1.update(col, '+'), l2], 0),
        tle_catalog(seq![name, l1, l2], 0) == tle_catalog(seq![name, l1.update(col, '+'), l2], 0),
{
    let l1p = l1.update(col, '+');
    lemma_trim_start_skip(l1, 0);
    lemma_trim_end_cut(l1, l1.len() as int);
    lemma_trim_start_skip(l1p, 0);
    lemma_trim_end_cut(l1p, l1p.len() as int);
    assert(l1.subrange(0, l1.len() as int) =~= l1);
    assert(l1p.subrange(0, l1p.len() as int) =~= l1p);
    assert(trim(l1) == l1);
    assert(trim(l1p) == l1p);
    assert(is_ascii_chars(l1p));
    is_ascii_chars_encode_utf8(l1);
    is_ascii_chars_encode_utf8(l1p);
    let b = encode_utf8(l1);
    let bp = encode_utf8(l1p);
    assert(bp =~= b.update(col, 0x2B));
    assert(sanitize_line1(b) =~= sanitize_line1(bp));
    reveal_with_fuel(tle_catalog, 2);
    let lines_a = seq![l1, l2];
    let lines_b = seq![l1p, l2];
    assert(tle_catalog(lines_a, 2) == Seq::<(Seq<char>, sgp4::Elements)>::empty());
    assert(tle_catalog(lines_b, 2) == Seq::<(Seq<char>, sgp4::Elements)>::empty());
    let lines_c = seq![name, l1, l2];
    let lines_d = seq![name, l1p, l2];
    assert(tle_catalog(lines_c, 3) == Seq::<(Seq<char>, sgp4::Elements)>::empty());
    assert(tle_catalog(lines_d, 3) == Seq::<(Seq<char>, sgp4::Elements)>::empty());
    assert(lines_c[1] == l1 && lines_d[1] == l1p);
}

proof fn lemma_catalog_shift(p: Seq<char>, lines: Seq<Seq<char>>, i: int)
    requires
        0 <= i,
    ensures
        tle_catalog(seq![p] + lines, i + 1) == tle_catalog(lines, i),
    decreases lines.len() - i,
{
    let ext = seq![p] + lines;
    assert forall|k: int| 0 <= k < lines.len() implies ext[k + 1] == lines[k] by {}
    if i < lines.len() {
        lemma_catalog_shift(p, lines, i + 1);
        if i + 2 <= lines.len() {
            lemma_catalog_shift(p, lines, i + 2);
        }
        if i + 3 <= lines.len() {
            lemma_catalog_shift(p, lines, i + 3);
        }
    }
}

/// Blank lines (only whitespace) before a catalog change nothing.
pub proof fn law_blank_lines_ignored(blank: Seq<char>, lines: Seq<Seq<char>>)
    requires
        trim(blank).len() == 0,
    ensures
        tle_catalog(seq![blank] + lines, 0) == tle_catalog(lines, 0),
{
    lemma_catalog_shift(blank, lines, 0);
}

} // verus!
