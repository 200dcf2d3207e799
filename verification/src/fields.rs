//! Splitting text into whitespace-separated fields and reading unsigned
//! decimal numbers, as `str::split_whitespace` and `usize::from_str` do,
//! and the process statistics that are read that way.
use vstd::prelude::*;
use crate::text::{chars_of, char_is_whitespace, is_whitespace, string_from_chars};

verus! {

/// The length of the leading run of non-whitespace characters.
pub open spec fn run_len(s: Seq<char>) -> nat
    decreases s.len(),
{
    if s.len() > 0 && !is_whitespace(s[0]) {
        1 + run_len(s.drop_first())
    } else {
        0
    }
}

/// The maximal runs of non-whitespace characters, in order.
pub open spec fn whitespace_fields(s: Seq<char>) -> Seq<Seq<char>>
    decreases s.len(),
{
    if s.len() == 0 {
        seq![]
    } else if is_whitespace(s[0]) {
        whitespace_fields(s.drop_first())
    } else {
        let k = run_len(s);
        proof {
            lemma_run_len_bounds(s);
        }
        seq![s.take(k as int)] + whitespace_fields(s.skip(k as int))
    }
}

pub proof fn lemma_run_len_bounds(s: Seq<char>)
    ensures
        run_len(s) <= s.len(),
        s.len() > 0 && !is_whitespace(s[0]) ==> run_len(s) > 0,
    decreases s.len(),
{
    if s.len() > 0 && !is_whitespace(s[0]) {
        lemma_run_len_bounds(s.drop_first());
    }
}

proof fn lemma_run_len_exact(s: Seq<char>, k: int)
    requires
        0 <= k <= s.len(),
        forall|j: int| 0 <= j < k ==> !is_whitespace(#[trigger] s[j]),
        k == s.len() || is_whitespace(s[k]),
    ensures
        run_len(s) == k,
    decreases k,
{
    if k > 0 {
        let t = s.drop_first();
        assert forall|j: int| 0 <= j < k - 1 implies !is_whitespace(#[trigger] t[j]) by {
            assert(t[j] == s[j + 1]);
        }
        lemma_run_len_exact(t, k - 1);
    }
}

/// The whitespace-separated fields of a string.
pub fn split_whitespace_fields(s: &str) -> (r: Vec<String>)
    ensures
        r@.map_values(|f: String| f@) == whitespace_fields(s@),
{
    let c = chars_of(s);
    let n = c.len();
    let mut out: Vec<String> = Vec::new();
    let mut i: usize = 0;
    assert(c@.subrange(0, n as int) =~= c@);
    while i < n
        invariant
            i <= n,
            n == c@.len(),
            c@ == s@,
            out@.map_values(|f: String| f@) + whitespace_fields(c@.subrange(i as int, n as int))
                == whitespace_fields(s@),
        decreases n - i,
    {
        let ghost rest = c@.subrange(i as int, n as int);
        if char_is_whitespace(c[i]) {
            assert(rest.drop_first() =~= c@.subrange(i + 1, n as int));
            i = i + 1;
        } else {
            let mut j: usize = i;
            while j < n && !char_is_whitespace(c[j])
                invariant
                    i <= j <= n,
                    n == c@.len(),
                    forall|q: int| i <= q < j ==> !is_whitespace(#[trigger] c@[q]),
                decreases n - j,
            {
                j = j + 1;
            }
            proof {
                assert forall|q: int| 0 <= q < j - i implies !is_whitespace(#[trigger] rest[q]) by {
                    assert(rest[q] == c@[i + q]);
                }
                lemma_run_len_exact(rest, j - i);
            }
            let mut field: Vec<char> = Vec::new();
            let mut q: usize = i;
            while q < j
                invariant
                    i <= q <= j <= n,
                    n == c@.len(),
                    field@ == c@.subrange(i as int, q as int),
                decreases j - q,
            {
                field.push(c[q]);
                q = q + 1;
                assert(field@ =~= c@.subrange(i as int, q as int));
            }
            let f = string_from_chars(&field);
            assert(rest.take(j - i) =~= c@.subrange(i as int, j as int));
            assert(rest.skip(j - i) =~= c@.subrange(j as int, n as int));
            assert(f@ == rest.take(j - i));
            let ghost before = out@;
            out.push(f);
            assert(out@.map_values(|f: String| f@) =~= before.map_values(|f: String| f@).push(
                rest.take(j - i),
            ));
            i = j;
        }
    }
    assert(c@.subrange(n as int, n as int) =~= Seq::<char>::empty());
    assert(out@.map_values(|f: String| f@) + Seq::<Seq<char>>::empty() =~= out@.map_values(
        |f: String| f@,
    ));
    out
}

/// All characters are decimal digits.
pub open spec fn all_decimal(d: Seq<char>) -> bool {
    forall|i: int| 0 <= i < d.len() ==> '0' <= #[trigger] d[i] && d[i] <= '9'
}

/// The value of a string of decimal digits.
pub open spec fn decimal_value(d: Seq<char>) -> nat
    decreases d.len(),
{
    if d.len() == 0 {
        0
    } else {
        decimal_value(d.drop_last()) * 10 + (d.last() as nat - '0' as nat) as nat
    }
}

/// What `usize::from_str` accepts: an optional `+`, then one or more
/// decimal digits whose value fits in a `usize`.
pub open spec fn parse_usize_spec(s: Seq<char>) -> Option<nat> {
    let d = if s.len() > 0 && s[0] == '+' {
        s.drop_first()
    } else {
        s
    };
    if d.len() > 0 && all_decimal(d) && decimal_value(d) <= usize::MAX {
        Some(decimal_value(d))
    } else {
        None
    }
}

proof fn lemma_decimal_value_monotone(d: Seq<char>, k: int)
    requires
        0 <= k <= d.len(),
        all_decimal(d),
    ensures
        decimal_value(d.take(k)) <= decimal_value(d),
    decreases d.len() - k,
{
    if k < d.len() {
        lemma_decimal_value_monotone(d, k + 1);
        assert(d.take(k + 1).drop_last() =~= d.take(k));
    } else {
        assert(d.take(k) =~= d);
    }
}

/// The unsigned number that a string holds, as `usize::from_str` reads it.
pub fn parse_usize(s: &str) -> (r: Option<usize>)
    ensures
        match parse_usize_spec(s@) {
            Some(v) => r == Some(v as usize),
            None => r is None,
        },
{
    let c = chars_of(s);
    let start: usize = if c.len() > 0 && c[0] == '+' {
        1
    } else {
        0
    };
    let ghost d = c@.subrange(start as int, c@.len() as int);
    assert(d =~= (if s@.len() > 0 && s@[0] == '+' {
        s@.drop_first()
    } else {
        s@
    }));
    if start == c.len() {
        return None;
    }
    let mut value: usize = 0;
    let mut i: usize = start;
    while i < c.len()
        invariant
            start <= i <= c@.len(),
            d == c@.subrange(start as int, c@.len() as int),
            d == (if s@.len() > 0 && s@[0] == '+' {
                s@.drop_first()
            } else {
                s@
            }),
            d.len() > 0,
            all_decimal(d.take(i - start)),
            value == decimal_value(d.take(i - start)),
        decreases c.len() - i,
    {
        let ch = c[i];
        assert(d.take(i - start + 1).drop_last() =~= d.take(i - start));
        if !('0' <= ch && ch <= '9') {
            assert(!all_decimal(d)) by {
                assert(d[i - start] == ch);
            }
            assert(parse_usize_spec(s@) is None);
            return None;
        }
        let digit = (ch as u32 - '0' as u32) as usize;
        if value > (usize::MAX - digit) / 10 {
            proof {
                assert(decimal_value(d.take(i - start + 1)) > usize::MAX) by (nonlinear_arith)
                    requires
                        value > (usize::MAX - digit) / 10,
                        decimal_value(d.take(i - start + 1)) == value * 10 + digit,
                        digit <= 9,
                ;
                if all_decimal(d) {
                    lemma_decimal_value_monotone(d, i - start + 1);
                }
            }
            assert(parse_usize_spec(s@) is None);
            return None;
        }
        assert(value * 10 + digit <= usize::MAX) by (nonlinear_arith)
            requires
                value <= (usize::MAX - digit) / 10,
                digit <= 9,
        ;
        value = value * 10 + digit;
        i = i + 1;
    }
    assert(d.take(d.len() as int) =~= d);
    Some(value)
}

/// The resident-set size in pages: field 24 of `/proc/self/stat`, when it
/// is there and reads as an unsigned number.
pub open spec fn stat_rss_pages(stat: Seq<char>) -> Option<nat> {
    let f = whitespace_fields(stat);
    if f.len() > 23 {
        parse_usize_spec(f[23])
    } else {
        None
    }
}

/// The resident-set size in pages named by the text of `/proc/self/stat`.
pub fn rss_pages_from_stat(stat: &str) -> (r: Option<usize>)
    ensures
        match stat_rss_pages(stat@) {
            Some(p) => r == Some(p as usize),
            None => r is None,
        },
{
    let parts = split_whitespace_fields(stat);
    if parts.len() > 23 {
        assert(parts@.map_values(|f: String| f@)[23] == parts@[23]@);
        parse_usize(parts[23].as_str())
    } else {
        None
    }
}

/// The resident-set size in bytes (4096-byte pages) named by the text of
/// `/proc/self/stat`, or zero when the field is missing or unreadable.
pub fn rss_bytes_from_stat(stat: &str) -> (r: usize)
    requires
        stat_rss_pages(stat@) matches Some(p) ==> p * 4096 <= usize::MAX,
    ensures
        r == match stat_rss_pages(stat@) {
            Some(p) => p * 4096,
            None => 0,
        },
{
    match rss_pages_from_stat(stat) {
        Some(p) => p * 4096,
        None => 0,
    }
}

} // verus!
