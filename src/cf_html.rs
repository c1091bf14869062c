//! The CF_HTML layout: an ASCII header of byte offsets in front of the wrapped fragment.

use vstd::prelude::*;
use vstd::utf8::encode_utf8;
use crate::bytes_le::push_bytes;

verus! {

/// Length of the header: five lines whose numbers are eight digits wide.
pub const HEADER_LEN: usize = 97;

/// Length of the markup in front of the fragment.
pub const PREFIX_LEN: usize = 32;

/// Length of the markup after the fragment.
pub const SUFFIX_LEN: usize = 32;

/// The ASCII digit of `d`.
pub open spec fn digit(d: nat) -> u8 {
    (48 + d) as u8
}

/// The decimal digits of `n`, left-padded with zeros to at least `w` digits.
pub open spec fn decimal(n: nat, w: nat) -> Seq<u8>
    decreases n + w,
{
    if n < 10 && w <= 1 {
        seq![digit(n)]
    } else {
        decimal(
            n / 10,
            if w > 0 {
                (w - 1) as nat
            } else {
                0
            },
        ) + seq![digit(n % 10)]
    }
}

/// Appends the decimal digits of `n`, left-padded with zeros to at least `w` digits.
pub fn push_decimal(out: &mut Vec<u8>, n: usize, w: usize)
    ensures
        final(out)@ == old(out)@ + decimal(n as nat, w as nat),
    decreases n + w,
{
    if n < 10 && w <= 1 {
        out.push((48 + n) as u8);
    } else {
        let w2: usize = if w > 0 {
            w - 1
        } else {
            0
        };
        push_decimal(out, n / 10, w2);
        out.push((48 + n % 10) as u8);
        assert(final(out)@ =~= old(out)@ + decimal(n as nat, w as nat));
    }
}

/// The bytes of a string.
pub open spec fn bytes_of(s: &str) -> Seq<u8> {
    encode_utf8(s@)
}

/// The CF_HTML bytes for a fragment, given the bytes of the fragment.
pub open spec fn cf_html_bytes(html: Seq<u8>) -> Seq<u8> {
    let start_fragment = (HEADER_LEN + PREFIX_LEN) as nat;
    let end_fragment = (start_fragment + html.len()) as nat;
    let end_html = (end_fragment + SUFFIX_LEN) as nat;
    bytes_of("Version:0.9\r\nStartHTML:") + decimal(HEADER_LEN as nat, 8) + bytes_of(
        "\r\nEndHTML:",
    ) + decimal(end_html, 8) + bytes_of("\r\nStartFragment:") + decimal(start_fragment, 8)
        + bytes_of("\r\nEndFragment:") + decimal(end_fragment, 8) + bytes_of("\r\n") + bytes_of(
        "<html><body><!--StartFragment-->",
    ) + html + bytes_of("<!--EndFragment--></body></html>")
}

/// Builds the CF_HTML bytes for a fragment.
pub fn build_cf_html(html: &str) -> (r: Vec<u8>)
    requires
        encode_utf8(html@).len() + HEADER_LEN + PREFIX_LEN + SUFFIX_LEN <= usize::MAX,
    ensures
        r@ == cf_html_bytes(encode_utf8(html@)),
{
    let start_fragment = HEADER_LEN + PREFIX_LEN;
    let end_fragment = start_fragment + html.as_bytes().len();
    let end_html = end_fragment + SUFFIX_LEN;
    let mut out: Vec<u8> = Vec::new();
    push_bytes(&mut out, "Version:0.9\r\nStartHTML:".as_bytes());
    push_decimal(&mut out, HEADER_LEN, 8);
    push_bytes(&mut out, "\r\nEndHTML:".as_bytes());
    push_decimal(&mut out, end_html, 8);
    push_bytes(&mut out, "\r\nStartFragment:".as_bytes());
    push_decimal(&mut out, start_fragment, 8);
    push_bytes(&mut out, "\r\nEndFragment:".as_bytes());
    push_decimal(&mut out, end_fragment, 8);
    push_bytes(&mut out, "\r\n".as_bytes());
    push_bytes(&mut out, "<html><body><!--StartFragment-->".as_bytes());
    push_bytes(&mut out, html.as_bytes());
    push_bytes(&mut out, "<!--EndFragment--></body></html>".as_bytes());
    out
}

/// A line begins at `p`.
pub open spec fn line_start(b: Seq<u8>, p: int) -> bool {
    p == 0 || (0 < p <= b.len() && b[p - 1] == 10)
}

/// The line beginning at `p` starts with `key`.
pub open spec fn key_line(b: Seq<u8>, key: Seq<u8>, p: int) -> bool {
    line_start(b, p) && p + key.len() <= b.len() && b.subrange(p, p + key.len()) == key
}

/// The first position at or after `p` where a line starting with `key` begins.
pub open spec fn find_key_line(b: Seq<u8>, key: Seq<u8>, p: int) -> Option<int>
    decreases b.len() - p,
{
    if p < 0 || p >= b.len() {
        None
    } else if key_line(b, key, p) {
        Some(p)
    } else {
        find_key_line(b, key, p + 1)
    }
}

/// The end of the line holding `p`: the next newline, or the end of the buffer.
pub open spec fn line_end(b: Seq<u8>, p: int) -> int
    decreases b.len() - p,
{
    if p < 0 || p >= b.len() {
        b.len() as int
    } else if b[p] == 10 {
        p
    } else {
        line_end(b, p + 1)
    }
}

/// An ASCII whitespace byte.
pub open spec fn is_space(c: u8) -> bool {
    c == 32 || (9 <= c && c <= 13)
}

/// `s` without leading whitespace.
pub open spec fn trim_front(s: Seq<u8>) -> Seq<u8>
    decreases s.len(),
{
    if s.len() > 0 && is_space(s[0]) {
        trim_front(s.drop_first())
    } else {
        s
    }
}

/// `s` without trailing whitespace.
pub open spec fn trim_back(s: Seq<u8>) -> Seq<u8>
    decreases s.len(),
{
    if s.len() > 0 && is_space(s.last()) {
        trim_back(s.drop_last())
    } else {
        s
    }
}

/// An ASCII decimal digit.
pub open spec fn is_digit(c: u8) -> bool {
    48 <= c && c <= 57
}

/// The value of a string of decimal digits.
pub open spec fn digits_value(d: Seq<u8>) -> nat
    decreases d.len(),
{
    if d.len() == 0 {
        0
    } else {
        digits_value(d.drop_last()) * 10 + (d.last() - 48) as nat
    }
}

/// Every byte of `d` is a decimal digit.
pub open spec fn all_digits(d: Seq<u8>) -> bool {
    forall|i: int| 0 <= i < d.len() ==> is_digit(#[trigger] d[i])
}

/// `s` without a leading `+`.
pub open spec fn unsigned_digits(s: Seq<u8>) -> Seq<u8> {
    if s.len() > 0 && s[0] == 43 {
        s.drop_first()
    } else {
        s
    }
}

/// The unsigned number that `s` spells: an optional `+`, then one or more digits, not above `usize::MAX`.
pub open spec fn parse_unsigned(s: Seq<u8>) -> Option<nat> {
    let d = unsigned_digits(s);
    if d.len() > 0 && all_digits(d) && digits_value(d) <= usize::MAX {
        Some(digits_value(d))
    } else {
        None
    }
}

/// The number after `key` on the first line that starts with `key`, whitespace trimmed.
pub open spec fn header_value(b: Seq<u8>, key: Seq<u8>) -> Option<nat> {
    match find_key_line(b, key, 0) {
        Some(p) => parse_unsigned(
            trim_back(trim_front(b.subrange(p + key.len(), line_end(b, p + key.len())))),
        ),
        None => None,
    }
}

fn find_line(b: &[u8], key: &[u8]) -> (r: Option<usize>)
    ensures
        match find_key_line(b@, key@, 0) {
            Some(p) => r == Some(p as usize),
            None => r is None,
        },
        r matches Some(p) ==> p + key@.len() <= b.len() && find_key_line(b@, key@, 0) == Some(
            p as int,
        ),
{
    let mut p: usize = 0;
    while p < b.len()
        invariant
            p <= b@.len(),
            find_key_line(b@, key@, 0) == find_key_line(b@, key@, p as int),
        decreases b@.len() - p,
    {
        let at_start = p == 0 || b[p - 1] == 10;
        if at_start && key.len() <= b.len() - p {
            let mut j: usize = 0;
            while j < key.len() && b[p + j] == key[j]
                invariant
                    j <= key@.len(),
                    p + key@.len() <= b.len(),
                    forall|i: int| 0 <= i < j ==> b@[p + i] == key@[i],
                decreases key@.len() - j,
            {
                j = j + 1;
            }
            if j == key.len() {
                assert(b@.subrange(p as int, p + key@.len()) =~= key@);
                return Some(p);
            }
            assert(b@.subrange(p as int, p + key@.len())[j as int] != key@[j as int]);
        }
        p = p + 1;
    }
    None
}

fn find_line_end(b: &[u8], start: usize) -> (r: usize)
    requires
        start <= b@.len(),
    ensures
        r as int == line_end(b@, start as int),
        start <= r <= b@.len(),
{
    let mut e: usize = start;
    while e < b.len() && b[e] != 10
        invariant
            start <= e <= b@.len(),
            line_end(b@, start as int) == line_end(b@, e as int),
        decreases b@.len() - e,
    {
        e = e + 1;
    }
    e
}

proof fn lemma_trim_front(s: Seq<u8>, k: int)
    requires
        0 <= k <= s.len(),
        forall|i: int| 0 <= i < k ==> is_space(s[i]),
    ensures
        trim_front(s) == trim_front(s.skip(k)),
    decreases k,
{
    if k > 0 {
        assert(s.drop_first().skip(k - 1) =~= s.skip(k));
        lemma_trim_front(s.drop_first(), k - 1);
    } else {
        assert(s.skip(0) =~= s);
    }
}

proof fn lemma_trim_back(s: Seq<u8>, k: int)
    requires
        0 <= k <= s.len(),
        forall|i: int| k <= i < s.len() ==> is_space(s[i]),
    ensures
        trim_back(s) == trim_back(s.take(k)),
    decreases s.len() - k,
{
    if k < s.len() {
        assert(s.drop_last().take(k) =~= s.take(k));
        lemma_trim_back(s.drop_last(), k);
    } else {
        assert(s.take(k) =~= s);
    }
}

proof fn lemma_digits_grow(d: Seq<u8>, k: int)
    requires
        0 <= k <= d.len(),
        forall|i: int| 0 <= i < d.len() ==> is_digit(#[trigger] d[i]),
    ensures
        digits_value(d.take(k)) <= digits_value(d),
    decreases d.len() - k,
{
    if k < d.len() {
        assert(d.drop_last().take(k) =~= d.take(k));
        assert forall|i: int| 0 <= i < d.drop_last().len() implies is_digit(
            #[trigger] d.drop_last()[i],
        ) by {
            assert(d.drop_last()[i] == d[i]);
        }
        lemma_digits_grow(d.drop_last(), k);
    } else {
        assert(d.take(k) =~= d);
    }
}

/// Parses the unsigned number in `b[lo..hi]`, as [`parse_unsigned`] says.
fn parse_number(b: &[u8], lo: usize, hi: usize) -> (r: Option<usize>)
    requires
        lo <= hi <= b@.len(),
    ensures
        match parse_unsigned(b@.subrange(lo as int, hi as int)) {
            Some(v) => r == Some(v as usize),
            None => r is None,
        },
{
    let ghost s = b@.subrange(lo as int, hi as int);
    let mut i: usize = lo;
    if i < hi && b[i] == 43 {
        i = i + 1;
    }
    let ghost d = b@.subrange(i as int, hi as int);
    assert(d =~= unsigned_digits(s));
    if i == hi {
        return None;
    }
    let start = i;
    let mut acc: usize = 0;
    while i < hi
        invariant
            start <= i <= hi <= b@.len(),
            d == b@.subrange(start as int, hi as int),
            s == b@.subrange(lo as int, hi as int),
            d == unsigned_digits(s),
            forall|k: int| start <= k < i ==> is_digit(b@[k]),
            acc as nat == digits_value(d.take(i - start)),
        decreases hi - i,
    {
        let c = b[i];
        if c < 48 || c > 57 {
            assert(!is_digit(d[i - start]));
            assert(!all_digits(d));
            assert(parse_unsigned(s) is None);
            return None;
        }
        let v = (c - 48) as usize;
        assert(d.take(i + 1 - start).drop_last() =~= d.take(i - start));
        assert(d.take(i + 1 - start).last() == c);
        assert(digits_value(d.take(i + 1 - start)) == acc * 10 + v);
        if acc > (usize::MAX - v) / 10 {
            assert(acc * 10 + v > usize::MAX) by (nonlinear_arith)
                requires
                    acc > (usize::MAX - v) / 10,
                    v <= 9,
            ;
            proof {
                assert forall|k: int| 0 <= k < i + 1 - start implies is_digit(
                    #[trigger] d.take(i + 1 - start)[k],
                ) by {
                    assert(d.take(i + 1 - start)[k] == b@[start + k]);
                }
                if all_digits(d) {
                    lemma_digits_grow(d, i + 1 - start);
                }
                assert(parse_unsigned(s) is None);
            }
            return None;
        }
        assert(acc * 10 + v <= usize::MAX) by (nonlinear_arith)
            requires
                acc <= (usize::MAX - v) / 10,
                v <= 9,
        ;
        acc = acc * 10 + v;
        i = i + 1;
    }
    assert(d.take(hi - start) =~= d);
    assert(all_digits(d)) by {
        assert forall|k: int| 0 <= k < d.len() implies is_digit(#[trigger] d[k]) by {
            assert(d[k] == b@[start + k]);
        }
    }
    Some(acc)
}

/// The number after `key` on the first line that starts with `key`.
pub fn parse_header_value(b: &[u8], key: &[u8]) -> (r: Option<usize>)
    ensures
        match header_value(b@, key@) {
            Some(v) => r == Some(v as usize),
            None => r is None,
        },
{
    match find_line(b, key) {
        None => None,
        Some(p) => {
            let start = p + key.len();
            let end = find_line_end(b, start);
            let mut lo = start;
            while lo < end && (b[lo] == 32 || (9 <= b[lo] && b[lo] <= 13))
                invariant
                    start <= lo <= end <= b@.len(),
                    forall|i: int| start <= i < lo ==> is_space(b@[i]),
                decreases end - lo,
            {
                lo = lo + 1;
            }
            let mut hi = end;
            while hi > lo && (b[hi - 1] == 32 || (9 <= b[hi - 1] && b[hi - 1] <= 13))
                invariant
                    lo <= hi <= end <= b@.len(),
                    forall|i: int| hi <= i < end ==> is_space(b@[i]),
                decreases hi - lo,
            {
                hi = hi - 1;
            }
            proof {
                let seg = b@.subrange(start as int, end as int);
                lemma_trim_front(seg, lo - start);
                assert(seg.skip(lo - start) =~= b@.subrange(lo as int, end as int));
                let front = b@.subrange(lo as int, end as int);
                if lo < end && !is_space(b@[lo as int]) || lo == end {
                    assert(trim_front(front) == front);
                }
                lemma_trim_back(front, hi - lo);
                assert(front.take(hi - lo) =~= b@.subrange(lo as int, hi as int));
                let t = b@.subrange(lo as int, hi as int);
                assert(hi == lo || !is_space(t.last()));
                assert(trim_back(t) == t);
                assert(trim_front(seg) == front);
                assert(trim_back(trim_front(seg)) == t);
                assert(header_value(b@, key@) == parse_unsigned(t));
            }
            parse_number(b, lo, hi)
        },
    }
}

} // verus!
