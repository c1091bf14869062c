//! UTF-16 and its little-endian byte form.

use vstd::prelude::*;
use vstd::std_specs::iter::IteratorSpec;

verus! {

/// The UTF-16 code units of one Unicode scalar value.
pub open spec fn char_units(v: u32) -> Seq<u16> {
    if v < 0x10000 {
        seq![v as u16]
    } else {
        seq![
            (0xD800 + (v - 0x10000) / 0x400) as u16,
            (0xDC00 + (v - 0x10000) % 0x400) as u16,
        ]
    }
}

/// The UTF-16 encoding of a character sequence.
pub open spec fn utf16_encode(s: Seq<char>) -> Seq<u16>
    decreases s.len(),
{
    if s.len() == 0 {
        seq![]
    } else {
        char_units(s[0] as u32) + utf16_encode(s.drop_first())
    }
}

/// Two character sequences with the same UTF-16 encoding are equal.
pub proof fn lemma_utf16_injective(a: Seq<char>, b: Seq<char>)
    requires
        utf16_encode(a) == utf16_encode(b),
    ensures
        a == b,
    decreases a.len(),
{
    if a.len() == 0 {
        if b.len() > 0 {
            assert(utf16_encode(b).len() > 0);
        }
        assert(a =~= b);
    } else {
        if b.len() == 0 {
            assert(utf16_encode(a).len() > 0);
        }
        let ca = a[0] as u32;
        let cb = b[0] as u32;
        vstd::utf8::char_is_scalar(a[0]);
        vstd::utf8::char_is_scalar(b[0]);
        let ua = char_units(ca);
        let ub = char_units(cb);
        assert(utf16_encode(a) == ua + utf16_encode(a.drop_first()));
        assert(utf16_encode(b) == ub + utf16_encode(b.drop_first()));
        assert(utf16_encode(a)[0] == ua[0]);
        assert(utf16_encode(b)[0] == ub[0]);
        if ca < 0x10000 && cb < 0x10000 {
            assert(ca == cb);
        } else if ca < 0x10000 {
            assert(ub[0] >= 0xD800 && ub[0] <= 0xDBFF);
            assert(false);
        } else if cb < 0x10000 {
            assert(ua[0] >= 0xD800 && ua[0] <= 0xDBFF);
            assert(false);
        } else {
            assert(utf16_encode(a)[1] == ua[1]);
            assert(utf16_encode(b)[1] == ub[1]);
            let xa = ca - 0x10000;
            let xb = cb - 0x10000;
            assert(xa / 0x400 == xb / 0x400);
            assert(xa % 0x400 == xb % 0x400);
            assert(xa == 0x400 * (xa / 0x400) + xa % 0x400) by (nonlinear_arith);
            assert(xb == 0x400 * (xb / 0x400) + xb % 0x400) by (nonlinear_arith);
            assert(ca == cb);
        }
        vstd::utf8::char_u32_cast(a[0], ca);
        vstd::utf8::char_u32_cast(b[0], cb);
        assert(a[0] == b[0]);
        assert(ua == ub);
        assert(utf16_encode(a.drop_first()) =~= utf16_encode(a).skip(ua.len() as int));
        assert(utf16_encode(b.drop_first()) =~= utf16_encode(b).skip(ub.len() as int));
        lemma_utf16_injective(a.drop_first(), b.drop_first());
        assert(a =~= seq![a[0]] + a.drop_first());
        assert(b =~= seq![b[0]] + b.drop_first());
    }
}

/// The code units form valid UTF-16, that is, they encode some character sequence.
pub open spec fn utf16_valid(u: Seq<u16>) -> bool {
    exists|t: Seq<char>| utf16_encode(t) == u
}

/// The code units read from consecutive little-endian byte pairs (a trailing odd byte is ignored).
pub open spec fn le_units(b: Seq<u8>) -> Seq<u16> {
    Seq::new(b.len() / 2, |i: int| (b[2 * i] as int + 256 * (b[2 * i + 1] as int)) as u16)
}

/// The little-endian bytes of a sequence of code units.
pub open spec fn units_le(u: Seq<u16>) -> Seq<u8> {
    Seq::new(
        2 * u.len(),
        |i: int|
            if i % 2 == 0 {
                (u[i / 2] as int % 256) as u8
            } else {
                (u[i / 2] as int / 256) as u8
            },
    )
}

/// The units up to, and not including, the first zero unit.
pub open spec fn until_null(u: Seq<u16>) -> Seq<u16> {
    u.take(null_index(u))
}

/// The index of the first zero unit, or the length if there is none.
pub open spec fn null_index(u: Seq<u16>) -> int
    decreases u.len(),
{
    if u.len() == 0 {
        0
    } else if u[0] == 0 {
        0
    } else {
        1 + null_index(u.drop_first())
    }
}

pub proof fn lemma_null_index(u: Seq<u16>)
    ensures
        0 <= null_index(u) <= u.len(),
        null_index(u) < u.len() ==> u[null_index(u)] == 0,
        forall|j: int| 0 <= j < null_index(u) ==> u[j] != 0,
    decreases u.len(),
{
    if u.len() > 0 && u[0] != 0 {
        lemma_null_index(u.drop_first());
        assert forall|j: int| 0 <= j < null_index(u) implies u[j] != 0 by {
            if j > 0 {
                assert(u[j] == u.drop_first()[j - 1]);
            }
        }
    }
}

/// Relies on `String::from_utf16`: the string whose encoding the units are, if the units are valid.
#[verifier::external_body]
pub(crate) fn decode_utf16_units(v: &[u16]) -> (r: Option<String>)
    ensures
        r is Some <==> utf16_valid(v@),
        r matches Some(s) ==> utf16_encode(s@) == v@,
{
    String::from_utf16(v).ok()
}

/// Relies on `std::str::from_utf8`: the text that the bytes encode, if they are valid UTF-8.
#[verifier::external_body]
pub(crate) fn utf8_str(b: &[u8]) -> (r: Option<&str>)
    ensures
        r is Some <==> vstd::utf8::valid_utf8(b@),
        r matches Some(s) ==> s@ == vstd::utf8::decode_utf8(b@),
{
    std::str::from_utf8(b).ok()
}

/// Reads `n` little-endian code units starting at byte `start`.
pub fn read_units(b: &[u8], start: usize, n: usize) -> (r: Vec<u16>)
    requires
        start + 2 * n <= b@.len(),
    ensures
        r@ == le_units(b@.subrange(start as int, start + 2 * n)),
{
    let ghost w = b@.subrange(start as int, start + 2 * n);
    let mut r: Vec<u16> = Vec::new();
    let mut i: usize = 0;
    while i < n
        invariant
            start + 2 * n <= b.len(),
            w == b@.subrange(start as int, start + 2 * n),
            i <= n,
            r@ == le_units(w).take(i as int),
        decreases n - i,
    {
        let lo = b[start + 2 * i];
        let hi = b[start + 2 * i + 1];
        let u: u16 = lo as u16 + 256 * (hi as u16);
        r.push(u);
        i = i + 1;
        assert(r@ =~= le_units(w).take(i as int));
    }
    assert(r@ =~= le_units(w));
    r
}

/// Appends the little-endian bytes of `u` to `out`.
pub fn push_units(out: &mut Vec<u8>, u: &[u16])
    ensures
        final(out)@ == old(out)@ + units_le(u@),
{
    let ghost o = old(out)@;
    let mut i: usize = 0;
    while i < u.len()
        invariant
            i <= u@.len(),
            out@ == o + units_le(u@.take(i as int)),
        decreases u@.len() - i,
    {
        let x = u[i];
        out.push((x % 256) as u8);
        out.push((x / 256) as u8);
        i = i + 1;
        assert(units_le(u@.take(i as int)) =~= units_le(u@.take(i - 1)) + seq![
            (x % 256) as u8,
            (x / 256) as u8,
        ]);
    }
    assert(u@.take(u@.len() as int) =~= u@);
}

/// The characters of a string, in order.
pub fn chars_of(s: &str) -> (r: Vec<char>)
    ensures
        r@ == s@,
{
    broadcast use vstd::string::axiom_spec_iter, vstd::string::next_postcondition;

    let mut it = s.chars();
    let mut r: Vec<char> = Vec::new();
    loop
        invariant
            it.obeys_prophetic_iter_laws(),
            it.decrease() is Some,
            r@ + it.remaining() == s@,
        decreases it.decrease()->0,
    {
        match it.next() {
            Some(c) => {
                r.push(c);
            },
            None => {
                assert(r@ =~= s@);
                return r;
            },
        }
    }
}

/// Appends the UTF-16 code units of `c` to `out`.
pub fn push_char_units(out: &mut Vec<u16>, c: char)
    ensures
        final(out)@ == old(out)@ + char_units(c as u32),
{
    let v = c as u32;
    if v < 0x10000 {
        out.push(v as u16);
    } else {
        proof {
            vstd::utf8::char_is_scalar(c);
        }
        out.push((0xD800 + (v - 0x10000) / 0x400) as u16);
        out.push((0xDC00 + (v - 0x10000) % 0x400) as u16);
    }
    assert(final(out)@ =~= old(out)@ + char_units(c as u32));
}

/// The UTF-16 encoding of a character sequence.
pub fn encode_chars(s: &[char]) -> (r: Vec<u16>)
    ensures
        r@ == utf16_encode(s@),
{
    let mut r: Vec<u16> = Vec::new();
    let mut i: usize = 0;
    assert(r@ + utf16_encode(s@.skip(0)) =~= utf16_encode(s@)) by {
        assert(s@.skip(0) =~= s@);
    }
    while i < s.len()
        invariant
            i <= s@.len(),
            r@ + utf16_encode(s@.skip(i as int)) == utf16_encode(s@),
        decreases s@.len() - i,
    {
        let ghost before = r@;
        push_char_units(&mut r, s[i]);
        proof {
            assert(s@.skip(i as int).drop_first() =~= s@.skip(i + 1));
            assert(s@.skip(i as int)[0] == s@[i as int]);
            assert(r@ + utf16_encode(s@.skip(i + 1)) =~= before + utf16_encode(s@.skip(i as int)));
        }
        i = i + 1;
    }
    assert(s@.skip(i as int) =~= Seq::<char>::empty());
    r
}

} // verus!
