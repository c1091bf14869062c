//! The CF_HTML round trip: the header that the encoder writes is read back by the decoder.

use vstd::prelude::*;
use crate::cf_html::{
    cf_html_bytes, decimal, bytes_of, header_value, find_key_line, key_line, line_end,
    trim_front, trim_back, unsigned_digits, all_digits, digits_value, is_digit,
    is_space, digit,
};
use crate::converter::{start_key, end_key, cf_html_offsets_ok};
use vstd::utf8::{encode_utf8, valid_utf8, is_ascii_chars};

verus! {

proof fn lemma_decimal_len(n: nat, w: nat)
    requires
        n < 100000000,
        1 <= w <= 8,
        n < pow10(w),
    ensures
        decimal(n, w).len() == w,
    decreases n + w,
{
    if !(n < 10 && w <= 1) {
        let w2: nat = (w - 1) as nat;
        assert(w >= 2) by {
            if w == 1 {
                assert(n < 10);
            }
        }
        assert(n / 10 < pow10(w2)) by {
            assert(pow10(w) == 10 * pow10(w2));
        }
        lemma_decimal_len(n / 10, w2);
    }
}

/// Ten to the power `k`.
spec fn pow10(k: nat) -> nat
    decreases k,
{
    if k == 0 {
        1
    } else {
        10 * pow10((k - 1) as nat)
    }
}

proof fn lemma_ascii_literal_len(s: &str, n: nat)
    requires
        vstd::utf8::is_ascii_chars(s@),
        s@.len() == n,
    ensures
        bytes_of(s).len() == n,
{
    vstd::utf8::is_ascii_chars_encode_utf8(s@);
}

/// In the CF_HTML bytes of a fragment of fewer than 99999839 bytes, the header is 97 bytes
/// long, its `StartFragment` field (bytes 65 to 73) holds 129 and its `EndFragment` field
/// (bytes 87 to 95) holds 129 plus the fragment's length, both as eight digits, and the bytes
/// between those two offsets are the fragment.
#[verifier::rlimit(60)]
pub proof fn lemma_cf_html_offsets_delimit_fragment(html: Seq<u8>)
    requires
        html.len() + 161 < 100000000,
    ensures
        cf_html_bytes(html).len() == html.len() + 161,
        cf_html_bytes(html).subrange(65, 73) == decimal(129, 8),
        cf_html_bytes(html).subrange(87, 95) == decimal(129 + html.len(), 8),
        cf_html_bytes(html).subrange(129, 129 + html.len() as int) == html,
{
    reveal_strlit("Version:0.9\r\nStartHTML:");
    reveal_strlit("\r\nEndHTML:");
    reveal_strlit("\r\nStartFragment:");
    reveal_strlit("\r\nEndFragment:");
    reveal_strlit("\r\n");
    reveal_strlit("<html><body><!--StartFragment-->");
    reveal_strlit("<!--EndFragment--></body></html>");
    let n = html.len();
    reveal_with_fuel(pow10, 9);
    assert(pow10(8) == 100000000);
    lemma_decimal_len(97, 8);
    lemma_decimal_len(129, 8);
    lemma_decimal_len(129 + n, 8);
    lemma_decimal_len(161 + n, 8);
    lemma_ascii_literal_len("Version:0.9\r\nStartHTML:", 23);
    lemma_ascii_literal_len("\r\nEndHTML:", 10);
    lemma_ascii_literal_len("\r\nStartFragment:", 16);
    lemma_ascii_literal_len("\r\nEndFragment:", 14);
    lemma_ascii_literal_len("\r\n", 2);
    lemma_ascii_literal_len("<html><body><!--StartFragment-->", 32);
    lemma_ascii_literal_len("<!--EndFragment--></body></html>", 32);
    let a = bytes_of("Version:0.9\r\nStartHTML:") + decimal(97, 8) + bytes_of("\r\nEndHTML:")
        + decimal((129 + n + 32) as nat, 8) + bytes_of("\r\nStartFragment:");
    let f1 = decimal(129, 8);
    let c = bytes_of("\r\nEndFragment:");
    let f2 = decimal((129 + n) as nat, 8);
    let d = bytes_of("\r\n") + bytes_of("<html><body><!--StartFragment-->");
    let t = bytes_of("<!--EndFragment--></body></html>");
    let b = cf_html_bytes(html);
    assert(b =~= a + f1 + c + f2 + d + html + t);
    assert(a.len() == 65);
    assert(b.subrange(65, 73) =~= f1);
    assert(b.subrange(87, 95) =~= f2);
    assert(b.subrange(129, 129 + n as int) =~= html);
}
proof fn lemma_find_skip(b: Seq<u8>, key: Seq<u8>, p: int, r: int)
    requires
        0 <= p <= r < b.len(),
        forall|q: int| p <= q < r ==> !#[trigger] key_line(b, key, q),
    ensures
        find_key_line(b, key, p) == find_key_line(b, key, r),
    decreases r - p,
{
    if p < r {
        assert(!key_line(b, key, p));
        lemma_find_skip(b, key, p + 1, r);
    }
}

proof fn lemma_line_end_skip(b: Seq<u8>, p: int, r: int)
    requires
        0 <= p <= r < b.len(),
        b[r] == 10,
        forall|q: int| p <= q < r ==> #[trigger] b[q] != 10,
    ensures
        line_end(b, p) == r,
    decreases r - p,
{
    if p < r {
        lemma_line_end_skip(b, p + 1, r);
    }
}

proof fn lemma_decimal_digits(n: nat, w: nat)
    ensures
        forall|i: int| 0 <= i < decimal(n, w).len() ==> is_digit(#[trigger] decimal(n, w)[i]),
        decimal(n, w).len() > 0,
    decreases n + w,
{
    if !(n < 10 && w <= 1) {
        let w2: nat = if w > 0 {
            (w - 1) as nat
        } else {
            0
        };
        lemma_decimal_digits(n / 10, w2);
        let a = decimal(n / 10, w2);
        assert forall|i: int| 0 <= i < decimal(n, w).len() implies is_digit(
            #[trigger] decimal(n, w)[i],
        ) by {
            if i < a.len() {
                assert(decimal(n, w)[i] == a[i]);
            }
        }
    }
}

proof fn lemma_decimal_value(n: nat, w: nat)
    ensures
        digits_value(decimal(n, w)) == n,
    decreases n + w,
{
    if !(n < 10 && w <= 1) {
        let w2: nat = if w > 0 {
            (w - 1) as nat
        } else {
            0
        };
        lemma_decimal_value(n / 10, w2);
        let d = decimal(n, w);
        assert(d.drop_last() =~= decimal(n / 10, w2));
        assert(d.last() == digit(n % 10));
        assert((d.last() - 48) as nat == n % 10);
        assert(n == (n / 10) * 10 + n % 10);
    } else {
        let d = decimal(n, w);
        assert(d.drop_last() =~= Seq::<u8>::empty());
        assert(digits_value(Seq::<u8>::empty()) == 0);
        assert((d.last() - 48) as nat == n);
    }
}

proof fn lemma_ascii_valid(b: Seq<u8>)
    requires
        forall|i: int| 0 <= i < b.len() ==> #[trigger] b[i] <= 0x7f,
    ensures
        vstd::utf8::valid_utf8(b),
    decreases b.len(),
{
    if b.len() > 0 {
        let r = b.drop_first();
        assert forall|i: int| 0 <= i < r.len() implies #[trigger] r[i] <= 0x7f by {
            assert(r[i] == b[i + 1]);
        }
        lemma_ascii_valid(r);
        assert(vstd::utf8::pop_first_scalar(b) =~= r);
    }
}

/// The value on the first line that starts with `key`, when that line begins at `p` and holds
/// an eight-digit number followed by CRLF.
#[verifier::rlimit(60)]
proof fn lemma_header_line(b: Seq<u8>, key: Seq<u8>, p: int, v: nat)
    requires
        0 <= p,
        p + key.len() + 10 <= b.len(),
        key_line(b, key, p),
        forall|q: int| 0 <= q < p ==> !#[trigger] key_line(b, key, q),
        b.subrange(p + key.len(), p + key.len() + 8) == decimal(v, 8),
        decimal(v, 8).len() == 8,
        b[p + key.len() + 8] == 13,
        b[p + key.len() + 9] == 10,
        v <= usize::MAX,
    ensures
        header_value(b, key) == Some(v),
{
    lemma_find_skip(b, key, 0, p);
    assert(find_key_line(b, key, p) == Some(p));
    let st = p + key.len();
    lemma_decimal_digits(v, 8);
    let f = decimal(v, 8);
    assert forall|q: int| st <= q < st + 9 implies #[trigger] b[q] != 10 by {
        if q < st + 8 {
            assert(b[q] == f[q - st]);
        }
    }
    lemma_line_end_skip(b, st, st + 9);
    let seg = b.subrange(st, st + 9);
    assert(seg =~= f.push(13u8));
    assert(!is_space(seg[0])) by {
        assert(seg[0] == f[0]);
    }
    assert(trim_front(seg) == seg);
    assert(seg.drop_last() =~= f);
    assert(!is_space(f.last()));
    assert(trim_back(f) == f);
    assert(trim_back(seg) == f);
    assert(unsigned_digits(f) == f) by {
        assert(is_digit(f[0]));
    }
    assert(all_digits(f));
    lemma_decimal_value(v, 8);
}

#[verifier::rlimit(60)]
proof fn lemma_cf_layout(html: Seq<u8>)
    requires
        html.len() + 161 < 100000000,
    ensures
        cf_html_bytes(html).len() == html.len() + 161,
        cf_html_bytes(html).subrange(0, 23) == bytes_of("Version:0.9\r\nStartHTML:"),
        cf_html_bytes(html).subrange(23, 31) == decimal(97, 8),
        cf_html_bytes(html).subrange(31, 41) == bytes_of("\r\nEndHTML:"),
        cf_html_bytes(html).subrange(41, 49) == decimal((161 + html.len()) as nat, 8),
        cf_html_bytes(html).subrange(49, 65) == bytes_of("\r\nStartFragment:"),
        cf_html_bytes(html).subrange(65, 73) == decimal(129, 8),
        cf_html_bytes(html).subrange(73, 87) == bytes_of("\r\nEndFragment:"),
        cf_html_bytes(html).subrange(87, 95) == decimal((129 + html.len()) as nat, 8),
        cf_html_bytes(html).subrange(95, 97) == bytes_of("\r\n"),
        decimal(129, 8).len() == 8,
        decimal((129 + html.len()) as nat, 8).len() == 8,
{
    reveal_strlit("Version:0.9\r\nStartHTML:");
    reveal_strlit("\r\nEndHTML:");
    reveal_strlit("\r\nStartFragment:");
    reveal_strlit("\r\nEndFragment:");
    reveal_strlit("\r\n");
    reveal_strlit("<html><body><!--StartFragment-->");
    reveal_strlit("<!--EndFragment--></body></html>");
    let n = html.len();
    reveal_with_fuel(pow10, 9);
    lemma_decimal_len(97, 8);
    lemma_decimal_len(129, 8);
    lemma_decimal_len(129 + n, 8);
    lemma_decimal_len(161 + n, 8);
    lemma_ascii_literal_len("Version:0.9\r\nStartHTML:", 23);
    lemma_ascii_literal_len("\r\nEndHTML:", 10);
    lemma_ascii_literal_len("\r\nStartFragment:", 16);
    lemma_ascii_literal_len("\r\nEndFragment:", 14);
    lemma_ascii_literal_len("\r\n", 2);
    lemma_ascii_literal_len("<html><body><!--StartFragment-->", 32);
    lemma_ascii_literal_len("<!--EndFragment--></body></html>", 32);
    let b = cf_html_bytes(html);
    let p0 = bytes_of("Version:0.9\r\nStartHTML:");
    let p1 = decimal(97, 8);
    let p2 = bytes_of("\r\nEndHTML:");
    let p3 = decimal((161 + n) as nat, 8);
    let p4 = bytes_of("\r\nStartFragment:");
    let p5 = decimal(129, 8);
    let p6 = bytes_of("\r\nEndFragment:");
    let p7 = decimal((129 + n) as nat, 8);
    let p8 = bytes_of("\r\n");
    let rest = bytes_of("<html><body><!--StartFragment-->") + html + bytes_of(
        "<!--EndFragment--></body></html>",
    );
    assert(b =~= p0 + p1 + p2 + p3 + p4 + p5 + p6 + p7 + p8 + rest);
    assert(b.subrange(0, 23) =~= p0);
    assert(b.subrange(23, 31) =~= p1);
    assert(b.subrange(31, 41) =~= p2);
    assert(b.subrange(41, 49) =~= p3);
    assert(b.subrange(49, 65) =~= p4);
    assert(b.subrange(65, 73) =~= p5);
    assert(b.subrange(73, 87) =~= p6);
    assert(b.subrange(87, 95) =~= p7);
    assert(b.subrange(95, 97) =~= p8);
}

#[verifier::rlimit(60)]
proof fn lemma_literal_bytes()
    ensures
        bytes_of("Version:0.9\r\nStartHTML:").len() == 23,
        bytes_of("Version:0.9\r\nStartHTML:")[0] == 86u8,
        bytes_of("Version:0.9\r\nStartHTML:")[1] == 101u8,
        bytes_of("Version:0.9\r\nStartHTML:")[2] == 114u8,
        bytes_of("Version:0.9\r\nStartHTML:")[3] == 115u8,
        bytes_of("Version:0.9\r\nStartHTML:")[4] == 105u8,
        bytes_of("Version:0.9\r\nStartHTML:")[5] == 111u8,
        bytes_of("Version:0.9\r\nStartHTML:")[6] == 110u8,
        bytes_of("Version:0.9\r\nStartHTML:")[7] == 58u8,
        bytes_of("Version:0.9\r\nStartHTML:")[8] == 48u8,
        bytes_of("Version:0.9\r\nStartHTML:")[9] == 46u8,
        bytes_of("Version:0.9\r\nStartHTML:")[10] == 57u8,
        bytes_of("Version:0.9\r\nStartHTML:")[11] == 13u8,
        bytes_of("Version:0.9\r\nStartHTML:")[12] == 10u8,
        bytes_of("Version:0.9\r\nStartHTML:")[13] == 83u8,
        bytes_of("Version:0.9\r\nStartHTML:")[14] == 116u8,
        bytes_of("Version:0.9\r\nStartHTML:")[15] == 97u8,
        bytes_of("Version:0.9\r\nStartHTML:")[16] == 114u8,
        bytes_of("Version:0.9\r\nStartHTML:")[17] == 116u8,
        bytes_of("Version:0.9\r\nStartHTML:")[18] == 72u8,
        bytes_of("Version:0.9\r\nStartHTML:")[19] == 84u8,
        bytes_of("Version:0.9\r\nStartHTML:")[20] == 77u8,
        bytes_of("Version:0.9\r\nStartHTML:")[21] == 76u8,
        bytes_of("Version:0.9\r\nStartHTML:")[22] == 58u8,
        bytes_of("\r\nEndHTML:").len() == 10,
        bytes_of("\r\nEndHTML:")[0] == 13u8,
        bytes_of("\r\nEndHTML:")[1] == 10u8,
        bytes_of("\r\nEndHTML:")[2] == 69u8,
        bytes_of("\r\nEndHTML:")[3] == 110u8,
        bytes_of("\r\nEndHTML:")[4] == 100u8,
        bytes_of("\r\nEndHTML:")[5] == 72u8,
        bytes_of("\r\nEndHTML:")[6] == 84u8,
        bytes_of("\r\nEndHTML:")[7] == 77u8,
        bytes_of("\r\nEndHTML:")[8] == 76u8,
        bytes_of("\r\nEndHTML:")[9] == 58u8,
        bytes_of("\r\nStartFragment:").len() == 16,
        bytes_of("\r\nStartFragment:")[0] == 13u8,
        bytes_of("\r\nStartFragment:")[1] == 10u8,
        bytes_of("\r\nStartFragment:")[2] == 83u8,
        bytes_of("\r\nStartFragment:")[3] == 116u8,
        bytes_of("\r\nStartFragment:")[4] == 97u8,
        bytes_of("\r\nStartFragment:")[5] == 114u8,
        bytes_of("\r\nStartFragment:")[6] == 116u8,
        bytes_of("\r\nStartFragment:")[7] == 70u8,
        bytes_of("\r\nStartFragment:")[8] == 114u8,
        bytes_of("\r\nStartFragment:")[9] == 97u8,
        bytes_of("\r\nStartFragment:")[10] == 103u8,
        bytes_of("\r\nStartFragment:")[11] == 109u8,
        bytes_of("\r\nStartFragment:")[12] == 101u8,
        bytes_of("\r\nStartFragment:")[13] == 110u8,
        bytes_of("\r\nStartFragment:")[14] == 116u8,
        bytes_of("\r\nStartFragment:")[15] == 58u8,
        bytes_of("\r\nEndFragment:").len() == 14,
        bytes_of("\r\nEndFragment:")[0] == 13u8,
        bytes_of("\r\nEndFragment:")[1] == 10u8,
        bytes_of("\r\nEndFragment:")[2] == 69u8,
        bytes_of("\r\nEndFragment:")[3] == 110u8,
        bytes_of("\r\nEndFragment:")[4] == 100u8,
        bytes_of("\r\nEndFragment:")[5] == 70u8,
        bytes_of("\r\nEndFragment:")[6] == 114u8,
        bytes_of("\r\nEndFragment:")[7] == 97u8,
        bytes_of("\r\nEndFragment:")[8] == 103u8,
        bytes_of("\r\nEndFragment:")[9] == 109u8,
        bytes_of("\r\nEndFragment:")[10] == 101u8,
        bytes_of("\r\nEndFragment:")[11] == 110u8,
        bytes_of("\r\nEndFragment:")[12] == 116u8,
        bytes_of("\r\nEndFragment:")[13] == 58u8,
        bytes_of("\r\n").len() == 2,
        bytes_of("\r\n")[0] == 13u8,
        bytes_of("\r\n")[1] == 10u8,
        bytes_of("StartFragment:").len() == 14,
        bytes_of("StartFragment:")[0] == 83u8,
        bytes_of("StartFragment:")[1] == 116u8,
        bytes_of("StartFragment:")[2] == 97u8,
        bytes_of("StartFragment:")[3] == 114u8,
        bytes_of("StartFragment:")[4] == 116u8,
        bytes_of("StartFragment:")[5] == 70u8,
        bytes_of("StartFragment:")[6] == 114u8,
        bytes_of("StartFragment:")[7] == 97u8,
        bytes_of("StartFragment:")[8] == 103u8,
        bytes_of("StartFragment:")[9] == 109u8,
        bytes_of("StartFragment:")[10] == 101u8,
        bytes_of("StartFragment:")[11] == 110u8,
        bytes_of("StartFragment:")[12] == 116u8,
        bytes_of("StartFragment:")[13] == 58u8,
        bytes_of("EndFragment:").len() == 12,
        bytes_of("EndFragment:")[0] == 69u8,
        bytes_of("EndFragment:")[1] == 110u8,
        bytes_of("EndFragment:")[2] == 100u8,
        bytes_of("EndFragment:")[3] == 70u8,
        bytes_of("EndFragment:")[4] == 114u8,
        bytes_of("EndFragment:")[5] == 97u8,
        bytes_of("EndFragment:")[6] == 103u8,
        bytes_of("EndFragment:")[7] == 109u8,
        bytes_of("EndFragment:")[8] == 101u8,
        bytes_of("EndFragment:")[9] == 110u8,
        bytes_of("EndFragment:")[10] == 116u8,
        bytes_of("EndFragment:")[11] == 58u8,
{
    reveal_strlit("Version:0.9\r\nStartHTML:");
    reveal_strlit("\r\nEndHTML:");
    reveal_strlit("\r\nStartFragment:");
    reveal_strlit("\r\nEndFragment:");
    reveal_strlit("\r\n");
    reveal_strlit("StartFragment:");
    reveal_strlit("EndFragment:");
    vstd::utf8::is_ascii_chars_encode_utf8("Version:0.9\r\nStartHTML:"@);
    vstd::utf8::is_ascii_chars_encode_utf8("\r\nEndHTML:"@);
    vstd::utf8::is_ascii_chars_encode_utf8("\r\nStartFragment:"@);
    vstd::utf8::is_ascii_chars_encode_utf8("\r\nEndFragment:"@);
    vstd::utf8::is_ascii_chars_encode_utf8("\r\n"@);
    vstd::utf8::is_ascii_chars_encode_utf8("StartFragment:"@);
    vstd::utf8::is_ascii_chars_encode_utf8("EndFragment:"@);
}

#[verifier::rlimit(60)]
proof fn lemma_header_bytes_front(html: Seq<u8>)
    requires
        html.len() + 161 < 100000000,
    ensures
        cf_html_bytes(html)[0] == 86u8,
        cf_html_bytes(html)[1] == 101u8,
        cf_html_bytes(html)[2] == 114u8,
        cf_html_bytes(html)[3] == 115u8,
        cf_html_bytes(html)[4] == 105u8,
        cf_html_bytes(html)[5] == 111u8,
        cf_html_bytes(html)[6] == 110u8,
        cf_html_bytes(html)[7] == 58u8,
        cf_html_bytes(html)[8] == 48u8,
        cf_html_bytes(html)[9] == 46u8,
        cf_html_bytes(html)[10] == 57u8,
        cf_html_bytes(html)[11] == 13u8,
        cf_html_bytes(html)[12] == 10u8,
        cf_html_bytes(html)[13] == 83u8,
        cf_html_bytes(html)[14] == 116u8,
        cf_html_bytes(html)[15] == 97u8,
        cf_html_bytes(html)[16] == 114u8,
        cf_html_bytes(html)[17] == 116u8,
        cf_html_bytes(html)[18] == 72u8,
        cf_html_bytes(html)[19] == 84u8,
        cf_html_bytes(html)[20] == 77u8,
        cf_html_bytes(html)[21] == 76u8,
        cf_html_bytes(html)[22] == 58u8,
        is_digit(cf_html_bytes(html)[23]),
        is_digit(cf_html_bytes(html)[24]),
        is_digit(cf_html_bytes(html)[25]),
        is_digit(cf_html_bytes(html)[26]),
        is_digit(cf_html_bytes(html)[27]),
        is_digit(cf_html_bytes(html)[28]),
        is_digit(cf_html_bytes(html)[29]),
        is_digit(cf_html_bytes(html)[30]),
        cf_html_bytes(html)[31] == 13u8,
        cf_html_bytes(html)[32] == 10u8,
        cf_html_bytes(html)[33] == 69u8,
        cf_html_bytes(html)[34] == 110u8,
        cf_html_bytes(html)[35] == 100u8,
        cf_html_bytes(html)[36] == 72u8,
        cf_html_bytes(html)[37] == 84u8,
        cf_html_bytes(html)[38] == 77u8,
        cf_html_bytes(html)[39] == 76u8,
        cf_html_bytes(html)[40] == 58u8,
        is_digit(cf_html_bytes(html)[41]),
        is_digit(cf_html_bytes(html)[42]),
        is_digit(cf_html_bytes(html)[43]),
        is_digit(cf_html_bytes(html)[44]),
        is_digit(cf_html_bytes(html)[45]),
        is_digit(cf_html_bytes(html)[46]),
        is_digit(cf_html_bytes(html)[47]),
        is_digit(cf_html_bytes(html)[48]),
{
    lemma_cf_layout(html);
    lemma_literal_bytes();
    lemma_decimal_digits(97, 8);
    lemma_decimal_digits((161 + html.len()) as nat, 8);
    let b = cf_html_bytes(html);
    assert(b[0] == b.subrange(0, 23)[0]);
    assert(b[1] == b.subrange(0, 23)[1]);
    assert(b[2] == b.subrange(0, 23)[2]);
    assert(b[3] == b.subrange(0, 23)[3]);
    assert(b[4] == b.subrange(0, 23)[4]);
    assert(b[5] == b.subrange(0, 23)[5]);
    assert(b[6] == b.subrange(0, 23)[6]);
    assert(b[7] == b.subrange(0, 23)[7]);
    assert(b[8] == b.subrange(0, 23)[8]);
    assert(b[9] == b.subrange(0, 23)[9]);
    assert(b[10] == b.subrange(0, 23)[10]);
    assert(b[11] == b.subrange(0, 23)[11]);
    assert(b[12] == b.subrange(0, 23)[12]);
    assert(b[13] == b.subrange(0, 23)[13]);
    assert(b[14] == b.subrange(0, 23)[14]);
    assert(b[15] == b.subrange(0, 23)[15]);
    assert(b[16] == b.subrange(0, 23)[16]);
    assert(b[17] == b.subrange(0, 23)[17]);
    assert(b[18] == b.subrange(0, 23)[18]);
    assert(b[19] == b.subrange(0, 23)[19]);
    assert(b[20] == b.subrange(0, 23)[20]);
    assert(b[21] == b.subrange(0, 23)[21]);
    assert(b[22] == b.subrange(0, 23)[22]);
    assert(b[23] == b.subrange(23, 31)[0]);
    assert(b[24] == b.subrange(23, 31)[1]);
    assert(b[25] == b.subrange(23, 31)[2]);
    assert(b[26] == b.subrange(23, 31)[3]);
    assert(b[27] == b.subrange(23, 31)[4]);
    assert(b[28] == b.subrange(23, 31)[5]);
    assert(b[29] == b.subrange(23, 31)[6]);
    assert(b[30] == b.subrange(23, 31)[7]);
    assert(b[31] == b.subrange(31, 41)[0]);
    assert(b[32] == b.subrange(31, 41)[1]);
    assert(b[33] == b.subrange(31, 41)[2]);
    assert(b[34] == b.subrange(31, 41)[3]);
    assert(b[35] == b.subrange(31, 41)[4]);
    assert(b[36] == b.subrange(31, 41)[5]);
    assert(b[37] == b.subrange(31, 41)[6]);
    assert(b[38] == b.subrange(31, 41)[7]);
    assert(b[39] == b.subrange(31, 41)[8]);
    assert(b[40] == b.subrange(31, 41)[9]);
    assert(b[41] == b.subrange(41, 49)[0]);
    assert(b[42] == b.subrange(41, 49)[1]);
    assert(b[43] == b.subrange(41, 49)[2]);
    assert(b[44] == b.subrange(41, 49)[3]);
    assert(b[45] == b.subrange(41, 49)[4]);
    assert(b[46] == b.subrange(41, 49)[5]);
    assert(b[47] == b.subrange(41, 49)[6]);
    assert(b[48] == b.subrange(41, 49)[7]);
}

#[verifier::rlimit(60)]
proof fn lemma_header_bytes_back(html: Seq<u8>)
    requires
        html.len() + 161 < 100000000,
    ensures
        cf_html_bytes(html)[49] == 13u8,
        cf_html_bytes(html)[50] == 10u8,
        cf_html_bytes(html)[51] == 83u8,
        cf_html_bytes(html)[52] == 116u8,
        cf_html_bytes(html)[53] == 97u8,
        cf_html_bytes(html)[54] == 114u8,
        cf_html_bytes(html)[55] == 116u8,
        cf_html_bytes(html)[56] == 70u8,
        cf_html_bytes(html)[57] == 114u8,
        cf_html_bytes(html)[58] == 97u8,
        cf_html_bytes(html)[59] == 103u8,
        cf_html_bytes(html)[60] == 109u8,
        cf_html_bytes(html)[61] == 101u8,
        cf_html_bytes(html)[62] == 110u8,
        cf_html_bytes(html)[63] == 116u8,
        cf_html_bytes(html)[64] == 58u8,
        is_digit(cf_html_bytes(html)[65]),
        is_digit(cf_html_bytes(html)[66]),
        is_digit(cf_html_bytes(html)[67]),
        is_digit(cf_html_bytes(html)[68]),
        is_digit(cf_html_bytes(html)[69]),
        is_digit(cf_html_bytes(html)[70]),
        is_digit(cf_html_bytes(html)[71]),
        is_digit(cf_html_bytes(html)[72]),
        cf_html_bytes(html)[73] == 13u8,
        cf_html_bytes(html)[74] == 10u8,
        cf_html_bytes(html)[75] == 69u8,
        cf_html_bytes(html)[76] == 110u8,
        cf_html_bytes(html)[77] == 100u8,
        cf_html_bytes(html)[78] == 70u8,
        cf_html_bytes(html)[79] == 114u8,
        cf_html_bytes(html)[80] == 97u8,
        cf_html_bytes(html)[81] == 103u8,
        cf_html_bytes(html)[82] == 109u8,
        cf_html_bytes(html)[83] == 101u8,
        cf_html_bytes(html)[84] == 110u8,
        cf_html_bytes(html)[85] == 116u8,
        cf_html_bytes(html)[86] == 58u8,
        is_digit(cf_html_bytes(html)[87]),
        is_digit(cf_html_bytes(html)[88]),
        is_digit(cf_html_bytes(html)[89]),
        is_digit(cf_html_bytes(html)[90]),
        is_digit(cf_html_bytes(html)[91]),
        is_digit(cf_html_bytes(html)[92]),
        is_digit(cf_html_bytes(html)[93]),
        is_digit(cf_html_bytes(html)[94]),
        cf_html_bytes(html)[95] == 13u8,
        cf_html_bytes(html)[96] == 10u8,
{
    lemma_cf_layout(html);
    lemma_literal_bytes();
    lemma_decimal_digits(129, 8);
    lemma_decimal_digits((129 + html.len()) as nat, 8);
    let b = cf_html_bytes(html);
    assert(b[49] == b.subrange(49, 65)[0]);
    assert(b[50] == b.subrange(49, 65)[1]);
    assert(b[51] == b.subrange(49, 65)[2]);
    assert(b[52] == b.subrange(49, 65)[3]);
    assert(b[53] == b.subrange(49, 65)[4]);
    assert(b[54] == b.subrange(49, 65)[5]);
    assert(b[55] == b.subrange(49, 65)[6]);
    assert(b[56] == b.subrange(49, 65)[7]);
    assert(b[57] == b.subrange(49, 65)[8]);
    assert(b[58] == b.subrange(49, 65)[9]);
    assert(b[59] == b.subrange(49, 65)[10]);
    assert(b[60] == b.subrange(49, 65)[11]);
    assert(b[61] == b.subrange(49, 65)[12]);
    assert(b[62] == b.subrange(49, 65)[13]);
    assert(b[63] == b.subrange(49, 65)[14]);
    assert(b[64] == b.subrange(49, 65)[15]);
    assert(b[65] == b.subrange(65, 73)[0]);
    assert(b[66] == b.subrange(65, 73)[1]);
    assert(b[67] == b.subrange(65, 73)[2]);
    assert(b[68] == b.subrange(65, 73)[3]);
    assert(b[69] == b.subrange(65, 73)[4]);
    assert(b[70] == b.subrange(65, 73)[5]);
    assert(b[71] == b.subrange(65, 73)[6]);
    assert(b[72] == b.subrange(65, 73)[7]);
    assert(b[73] == b.subrange(73, 87)[0]);
    assert(b[74] == b.subrange(73, 87)[1]);
    assert(b[75] == b.subrange(73, 87)[2]);
    assert(b[76] == b.subrange(73, 87)[3]);
    assert(b[77] == b.subrange(73, 87)[4]);
    assert(b[78] == b.subrange(73, 87)[5]);
    assert(b[79] == b.subrange(73, 87)[6]);
    assert(b[80] == b.subrange(73, 87)[7]);
    assert(b[81] == b.subrange(73, 87)[8]);
    assert(b[82] == b.subrange(73, 87)[9]);
    assert(b[83] == b.subrange(73, 87)[10]);
    assert(b[84] == b.subrange(73, 87)[11]);
    assert(b[85] == b.subrange(73, 87)[12]);
    assert(b[86] == b.subrange(73, 87)[13]);
    assert(b[87] == b.subrange(87, 95)[0]);
    assert(b[88] == b.subrange(87, 95)[1]);
    assert(b[89] == b.subrange(87, 95)[2]);
    assert(b[90] == b.subrange(87, 95)[3]);
    assert(b[91] == b.subrange(87, 95)[4]);
    assert(b[92] == b.subrange(87, 95)[5]);
    assert(b[93] == b.subrange(87, 95)[6]);
    assert(b[94] == b.subrange(87, 95)[7]);
    assert(b[95] == b.subrange(95, 97)[0]);
    assert(b[96] == b.subrange(95, 97)[1]);
}

#[verifier::rlimit(60)]
proof fn lemma_sk_none_0(html: Seq<u8>)
    requires
        html.len() + 161 < 100000000,
    ensures
        forall|q: int| 0 <= q < 16 ==> !#[trigger] key_line(cf_html_bytes(html), start_key(), q),
{
    lemma_cf_layout(html);
    lemma_header_bytes_front(html);
    lemma_literal_bytes();
    let b = cf_html_bytes(html);
    let sk = start_key();
    assert forall|q: int| 0 <= q < 16 implies !key_line(b, sk, q) by {
        if q == 0 {
            assert(b.subrange(0, 0 + sk.len() as int)[0] != sk[0]);
        } else if q == 1 {
            assert(b[0] != 10);
        } else if q == 2 {
            assert(b[1] != 10);
        } else if q == 3 {
            assert(b[2] != 10);
        } else if q == 4 {
            assert(b[3] != 10);
        } else if q == 5 {
            assert(b[4] != 10);
        } else if q == 6 {
            assert(b[5] != 10);
        } else if q == 7 {
            assert(b[6] != 10);
        } else if q == 8 {
            assert(b[7] != 10);
        } else if q == 9 {
            assert(b[8] != 10);
        } else if q == 10 {
            assert(b[9] != 10);
        } else if q == 11 {
            assert(b[10] != 10);
        } else if q == 12 {
            assert(b[11] != 10);
        } else if q == 13 {
            assert(b.subrange(13, 13 + sk.len() as int)[5] != sk[5]);
        } else if q == 14 {
            assert(b[13] != 10);
        } else if q == 15 {
            assert(b[14] != 10);
        }
    }
}

#[verifier::rlimit(60)]
proof fn lemma_sk_none_16(html: Seq<u8>)
    requires
        html.len() + 161 < 100000000,
    ensures
        forall|q: int| 16 <= q < 32 ==> !#[trigger] key_line(cf_html_bytes(html), start_key(), q),
{
    lemma_cf_layout(html);
    lemma_header_bytes_front(html);
    lemma_literal_bytes();
    let b = cf_html_bytes(html);
    let sk = start_key();
    assert forall|q: int| 16 <= q < 32 implies !key_line(b, sk, q) by {
        if q == 16 {
            assert(b[15] != 10);
        } else if q == 17 {
            assert(b[16] != 10);
        } else if q == 18 {
            assert(b[17] != 10);
        } else if q == 19 {
            assert(b[18] != 10);
        } else if q == 20 {
            assert(b[19] != 10);
        } else if q == 21 {
            assert(b[20] != 10);
        } else if q == 22 {
            assert(b[21] != 10);
        } else if q == 23 {
            assert(b[22] != 10);
        } else if q == 24 {
            assert(b[23] != 10);
        } else if q == 25 {
            assert(b[24] != 10);
        } else if q == 26 {
            assert(b[25] != 10);
        } else if q == 27 {
            assert(b[26] != 10);
        } else if q == 28 {
            assert(b[27] != 10);
        } else if q == 29 {
            assert(b[28] != 10);
        } else if q == 30 {
            assert(b[29] != 10);
        } else if q == 31 {
            assert(b[30] != 10);
        }
    }
}

#[verifier::rlimit(60)]
proof fn lemma_sk_none_32(html: Seq<u8>)
    requires
        html.len() + 161 < 100000000,
    ensures
        forall|q: int| 32 <= q < 48 ==> !#[trigger] key_line(cf_html_bytes(html), start_key(), q),
{
    lemma_cf_layout(html);
    lemma_header_bytes_front(html);
    lemma_header_bytes_back(html);
    lemma_literal_bytes();
    let b = cf_html_bytes(html);
    let sk = start_key();
    assert forall|q: int| 32 <= q < 48 implies !key_line(b, sk, q) by {
        if q == 32 {
            assert(b[31] != 10);
        } else if q == 33 {
            assert(b.subrange(33, 33 + sk.len() as int)[0] != sk[0]);
        } else if q == 34 {
            assert(b[33] != 10);
        } else if q == 35 {
            assert(b[34] != 10);
        } else if q == 36 {
            assert(b[35] != 10);
        } else if q == 37 {
            assert(b[36] != 10);
        } else if q == 38 {
            assert(b[37] != 10);
        } else if q == 39 {
            assert(b[38] != 10);
        } else if q == 40 {
            assert(b[39] != 10);
        } else if q == 41 {
            assert(b[40] != 10);
        } else if q == 42 {
            assert(b[41] != 10);
        } else if q == 43 {
            assert(b[42] != 10);
        } else if q == 44 {
            assert(b[43] != 10);
        } else if q == 45 {
            assert(b[44] != 10);
        } else if q == 46 {
            assert(b[45] != 10);
        } else if q == 47 {
            assert(b[46] != 10);
        }
    }
}

#[verifier::rlimit(60)]
proof fn lemma_sk_none_48(html: Seq<u8>)
    requires
        html.len() + 161 < 100000000,
    ensures
        forall|q: int| 48 <= q < 51 ==> !#[trigger] key_line(cf_html_bytes(html), start_key(), q),
{
    lemma_cf_layout(html);
    lemma_header_bytes_front(html);
    lemma_header_bytes_back(html);
    lemma_literal_bytes();
    let b = cf_html_bytes(html);
    let sk = start_key();
    assert forall|q: int| 48 <= q < 51 implies !key_line(b, sk, q) by {
        if q == 48 {
            assert(b[47] != 10);
        } else if q == 49 {
            assert(b[48] != 10);
        } else if q == 50 {
            assert(b[49] != 10);
        }
    }
}

#[verifier::rlimit(60)]
proof fn lemma_ek_none_0(html: Seq<u8>)
    requires
        html.len() + 161 < 100000000,
    ensures
        forall|q: int| 0 <= q < 16 ==> !#[trigger] key_line(cf_html_bytes(html), end_key(), q),
{
    lemma_cf_layout(html);
    lemma_header_bytes_front(html);
    lemma_literal_bytes();
    let b = cf_html_bytes(html);
    let ek = end_key();
    assert forall|q: int| 0 <= q < 16 implies !key_line(b, ek, q) by {
        if q == 0 {
            assert(b.subrange(0, 0 + ek.len() as int)[0] != ek[0]);
        } else if q == 1 {
            assert(b[0] != 10);
        } else if q == 2 {
            assert(b[1] != 10);
        } else if q == 3 {
            assert(b[2] != 10);
        } else if q == 4 {
            assert(b[3] != 10);
        } else if q == 5 {
            assert(b[4] != 10);
        } else if q == 6 {
            assert(b[5] != 10);
        } else if q == 7 {
            assert(b[6] != 10);
        } else if q == 8 {
            assert(b[7] != 10);
        } else if q == 9 {
            assert(b[8] != 10);
        } else if q == 10 {
            assert(b[9] != 10);
        } else if q == 11 {
            assert(b[10] != 10);
        } else if q == 12 {
            assert(b[11] != 10);
        } else if q == 13 {
            assert(b.subrange(13, 13 + ek.len() as int)[0] != ek[0]);
        } else if q == 14 {
            assert(b[13] != 10);
        } else if q == 15 {
            assert(b[14] != 10);
        }
    }
}

#[verifier::rlimit(60)]
proof fn lemma_ek_none_16(html: Seq<u8>)
    requires
        html.len() + 161 < 100000000,
    ensures
        forall|q: int| 16 <= q < 32 ==> !#[trigger] key_line(cf_html_bytes(html), end_key(), q),
{
    lemma_cf_layout(html);
    lemma_header_bytes_front(html);
    lemma_literal_bytes();
    let b = cf_html_bytes(html);
    let ek = end_key();
    assert forall|q: int| 16 <= q < 32 implies !key_line(b, ek, q) by {
        if q == 16 {
            assert(b[15] != 10);
        } else if q == 17 {
            assert(b[16] != 10);
        } else if q == 18 {
            assert(b[17] != 10);
        } else if q == 19 {
            assert(b[18] != 10);
        } else if q == 20 {
            assert(b[19] != 10);
        } else if q == 21 {
            assert(b[20] != 10);
        } else if q == 22 {
            assert(b[21] != 10);
        } else if q == 23 {
            assert(b[22] != 10);
        } else if q == 24 {
            assert(b[23] != 10);
        } else if q == 25 {
            assert(b[24] != 10);
        } else if q == 26 {
            assert(b[25] != 10);
        } else if q == 27 {
            assert(b[26] != 10);
        } else if q == 28 {
            assert(b[27] != 10);
        } else if q == 29 {
            assert(b[28] != 10);
        } else if q == 30 {
            assert(b[29] != 10);
        } else if q == 31 {
            assert(b[30] != 10);
        }
    }
}

#[verifier::rlimit(60)]
proof fn lemma_ek_none_32(html: Seq<u8>)
    requires
        html.len() + 161 < 100000000,
    ensures
        forall|q: int| 32 <= q < 48 ==> !#[trigger] key_line(cf_html_bytes(html), end_key(), q),
{
    lemma_cf_layout(html);
    lemma_header_bytes_front(html);
    lemma_header_bytes_back(html);
    lemma_literal_bytes();
    let b = cf_html_bytes(html);
    let ek = end_key();
    assert forall|q: int| 32 <= q < 48 implies !key_line(b, ek, q) by {
        if q == 32 {
            assert(b[31] != 10);
        } else if q == 33 {
            assert(b.subrange(33, 33 + ek.len() as int)[3] != ek[3]);
        } else if q == 34 {
            assert(b[33] != 10);
        } else if q == 35 {
            assert(b[34] != 10);
        } else if q == 36 {
            assert(b[35] != 10);
        } else if q == 37 {
            assert(b[36] != 10);
        } else if q == 38 {
            assert(b[37] != 10);
        } else if q == 39 {
            assert(b[38] != 10);
        } else if q == 40 {
            assert(b[39] != 10);
        } else if q == 41 {
            assert(b[40] != 10);
        } else if q == 42 {
            assert(b[41] != 10);
        } else if q == 43 {
            assert(b[42] != 10);
        } else if q == 44 {
            assert(b[43] != 10);
        } else if q == 45 {
            assert(b[44] != 10);
        } else if q == 46 {
            assert(b[45] != 10);
        } else if q == 47 {
            assert(b[46] != 10);
        }
    }
}

#[verifier::rlimit(60)]
proof fn lemma_ek_none_48(html: Seq<u8>)
    requires
        html.len() + 161 < 100000000,
    ensures
        forall|q: int| 48 <= q < 64 ==> !#[trigger] key_line(cf_html_bytes(html), end_key(), q),
{
    lemma_cf_layout(html);
    lemma_header_bytes_front(html);
    lemma_header_bytes_back(html);
    lemma_literal_bytes();
    let b = cf_html_bytes(html);
    let ek = end_key();
    assert forall|q: int| 48 <= q < 64 implies !key_line(b, ek, q) by {
        if q == 48 {
            assert(b[47] != 10);
        } else if q == 49 {
            assert(b[48] != 10);
        } else if q == 50 {
            assert(b[49] != 10);
        } else if q == 51 {
            assert(b.subrange(51, 51 + ek.len() as int)[0] != ek[0]);
        } else if q == 52 {
            assert(b[51] != 10);
        } else if q == 53 {
            assert(b[52] != 10);
        } else if q == 54 {
            assert(b[53] != 10);
        } else if q == 55 {
            assert(b[54] != 10);
        } else if q == 56 {
            assert(b[55] != 10);
        } else if q == 57 {
            assert(b[56] != 10);
        } else if q == 58 {
            assert(b[57] != 10);
        } else if q == 59 {
            assert(b[58] != 10);
        } else if q == 60 {
            assert(b[59] != 10);
        } else if q == 61 {
            assert(b[60] != 10);
        } else if q == 62 {
            assert(b[61] != 10);
        } else if q == 63 {
            assert(b[62] != 10);
        }
    }
}

#[verifier::rlimit(60)]
proof fn lemma_ek_none_64(html: Seq<u8>)
    requires
        html.len() + 161 < 100000000,
    ensures
        forall|q: int| 64 <= q < 75 ==> !#[trigger] key_line(cf_html_bytes(html), end_key(), q),
{
    lemma_cf_layout(html);
    lemma_header_bytes_front(html);
    lemma_header_bytes_back(html);
    lemma_literal_bytes();
    let b = cf_html_bytes(html);
    let ek = end_key();
    assert forall|q: int| 64 <= q < 75 implies !key_line(b, ek, q) by {
        if q == 64 {
            assert(b[63] != 10);
        } else if q == 65 {
            assert(b[64] != 10);
        } else if q == 66 {
            assert(b[65] != 10);
        } else if q == 67 {
            assert(b[66] != 10);
        } else if q == 68 {
            assert(b[67] != 10);
        } else if q == 69 {
            assert(b[68] != 10);
        } else if q == 70 {
            assert(b[69] != 10);
        } else if q == 71 {
            assert(b[70] != 10);
        } else if q == 72 {
            assert(b[71] != 10);
        } else if q == 73 {
            assert(b[72] != 10);
        } else if q == 74 {
            assert(b[73] != 10);
        }
    }
}

#[verifier::rlimit(60)]
proof fn lemma_start_key_line(html: Seq<u8>)
    requires
        html.len() + 161 < 100000000,
    ensures
        key_line(cf_html_bytes(html), start_key(), 51),
        cf_html_bytes(html)[73] == 13,
        cf_html_bytes(html)[74] == 10,
        start_key().len() == 14,
{
    lemma_cf_layout(html);
    lemma_header_bytes_back(html);
    lemma_literal_bytes();
    let b = cf_html_bytes(html);
    let sk = start_key();
    assert(b.subrange(51, 65) =~= sk);
}

#[verifier::rlimit(60)]
proof fn lemma_end_key_line(html: Seq<u8>)
    requires
        html.len() + 161 < 100000000,
    ensures
        key_line(cf_html_bytes(html), end_key(), 75),
        cf_html_bytes(html)[95] == 13,
        cf_html_bytes(html)[96] == 10,
        end_key().len() == 12,
{
    lemma_cf_layout(html);
    lemma_header_bytes_back(html);
    lemma_literal_bytes();
    let b = cf_html_bytes(html);
    let ek = end_key();
    assert(b.subrange(75, 87) =~= ek);
}

/// The header of the CF_HTML bytes of a fragment of fewer than 99999839 bytes gives 129 as the
/// fragment's start.
#[verifier::rlimit(60)]
pub proof fn lemma_cf_html_start_value(html: Seq<u8>)
    requires
        html.len() + 161 < 100000000,
    ensures
        header_value(cf_html_bytes(html), start_key()) == Some(129nat),
{
    lemma_cf_layout(html);
    lemma_start_key_line(html);
    lemma_sk_none_0(html);
    lemma_sk_none_16(html);
    lemma_sk_none_32(html);
    lemma_sk_none_48(html);
    lemma_header_line(cf_html_bytes(html), start_key(), 51, 129);
}

/// The header of the CF_HTML bytes of a fragment of fewer than 99999839 bytes gives 129 plus
/// the fragment's length as the fragment's end.
#[verifier::rlimit(60)]
pub proof fn lemma_cf_html_end_value(html: Seq<u8>)
    requires
        html.len() + 161 < 100000000,
    ensures
        header_value(cf_html_bytes(html), end_key()) == Some((129 + html.len()) as nat),
{
    lemma_cf_layout(html);
    lemma_end_key_line(html);
    lemma_ek_none_0(html);
    lemma_ek_none_16(html);
    lemma_ek_none_32(html);
    lemma_ek_none_48(html);
    lemma_ek_none_64(html);
    lemma_header_line(cf_html_bytes(html), end_key(), 75, (129 + html.len()) as nat);
}

proof fn lemma_decimal_valid(n: nat, w: nat)
    ensures
        valid_utf8(decimal(n, w)),
{
    lemma_decimal_digits(n, w);
    let d = decimal(n, w);
    assert forall|i: int| 0 <= i < d.len() implies #[trigger] d[i] <= 0x7f by {
        assert(is_digit(d[i]));
    }
    lemma_ascii_valid(d);
}

/// The 129 bytes in front of a fragment of `n` bytes: the header and the opening markup.
spec fn cf_head(n: nat) -> Seq<u8> {
    bytes_of("Version:0.9\r\nStartHTML:") + decimal(97, 8) + bytes_of("\r\nEndHTML:") + decimal(
        (161 + n) as nat,
        8,
    ) + bytes_of("\r\nStartFragment:") + decimal(129, 8) + bytes_of("\r\nEndFragment:") + decimal(
        (129 + n) as nat,
        8,
    ) + bytes_of("\r\n") + bytes_of("<html><body><!--StartFragment-->")
}

#[verifier::rlimit(60)]
proof fn lemma_cf_head_valid(n: nat)
    ensures
        valid_utf8(cf_head(n)),
{
    let p0 = bytes_of("Version:0.9\r\nStartHTML:");
    let p1 = decimal(97, 8);
    let p2 = bytes_of("\r\nEndHTML:");
    let p3 = decimal((161 + n) as nat, 8);
    let p4 = bytes_of("\r\nStartFragment:");
    let p5 = decimal(129, 8);
    let p6 = bytes_of("\r\nEndFragment:");
    let p7 = decimal((129 + n) as nat, 8);
    let p8 = bytes_of("\r\n");
    let pp = bytes_of("<html><body><!--StartFragment-->");
    vstd::utf8::encode_utf8_valid_utf8("Version:0.9\r\nStartHTML:"@);
    vstd::utf8::encode_utf8_valid_utf8("\r\nEndHTML:"@);
    vstd::utf8::encode_utf8_valid_utf8("\r\nStartFragment:"@);
    vstd::utf8::encode_utf8_valid_utf8("\r\nEndFragment:"@);
    vstd::utf8::encode_utf8_valid_utf8("\r\n"@);
    vstd::utf8::encode_utf8_valid_utf8("<html><body><!--StartFragment-->"@);
    lemma_decimal_valid(97, 8);
    lemma_decimal_valid((161 + n) as nat, 8);
    lemma_decimal_valid(129, 8);
    lemma_decimal_valid((129 + n) as nat, 8);
    vstd::utf8::valid_utf8_concat(p0, p1);
    vstd::utf8::valid_utf8_concat(p0 + p1, p2);
    vstd::utf8::valid_utf8_concat(p0 + p1 + p2, p3);
    vstd::utf8::valid_utf8_concat(p0 + p1 + p2 + p3, p4);
    vstd::utf8::valid_utf8_concat(p0 + p1 + p2 + p3 + p4, p5);
    vstd::utf8::valid_utf8_concat(p0 + p1 + p2 + p3 + p4 + p5, p6);
    vstd::utf8::valid_utf8_concat(p0 + p1 + p2 + p3 + p4 + p5 + p6, p7);
    vstd::utf8::valid_utf8_concat(p0 + p1 + p2 + p3 + p4 + p5 + p6 + p7, p8);
    vstd::utf8::valid_utf8_concat(p0 + p1 + p2 + p3 + p4 + p5 + p6 + p7 + p8, pp);
}

#[verifier::rlimit(60)]
proof fn lemma_cf_split(h: Seq<u8>)
    requires
        h.len() + 161 < 100000000,
    ensures
        cf_html_bytes(h) == cf_head(h.len()) + h + bytes_of("<!--EndFragment--></body></html>"),
        cf_head(h.len()).len() == 129,
        bytes_of("<!--EndFragment--></body></html>")[0] == 60u8,
        bytes_of("<!--EndFragment--></body></html>").len() == 32,
{
    lemma_cf_layout(h);
    reveal_strlit("<html><body><!--StartFragment-->");
    reveal_strlit("<!--EndFragment--></body></html>");
    vstd::utf8::is_ascii_chars_encode_utf8("<!--EndFragment--></body></html>"@);
    lemma_ascii_literal_len("<html><body><!--StartFragment-->", 32);
    lemma_ascii_literal_len("<!--EndFragment--></body></html>", 32);
    assert(cf_html_bytes(h) =~= cf_head(h.len()) + h + bytes_of(
        "<!--EndFragment--></body></html>",
    ));
    assert(cf_head(h.len()) =~= cf_html_bytes(h).subrange(0, 97) + bytes_of(
        "<html><body><!--StartFragment-->",
    ));
}

#[verifier::rlimit(60)]
proof fn lemma_cf_html_valid(h: Seq<u8>)
    requires
        h.len() >= 1,
        h.len() + 161 < 100000000,
        valid_utf8(h),
        h[0] <= 0x7f,
    ensures
        valid_utf8(cf_html_bytes(h)),
        cf_html_offsets_ok(cf_html_bytes(h)),
{
    let n = h.len();
    lemma_cf_html_start_value(h);
    lemma_cf_html_end_value(h);
    lemma_cf_split(h);
    lemma_cf_head_valid(n);
    let x = cf_head(n);
    let t = bytes_of("<!--EndFragment--></body></html>");
    vstd::utf8::encode_utf8_valid_utf8("<!--EndFragment--></body></html>"@);
    vstd::utf8::valid_utf8_concat(x, h);
    vstd::utf8::valid_utf8_concat(x + h, t);
    let b = cf_html_bytes(h);
    assert(b[129 + n as int] == t[0]);
    vstd::utf8::is_char_boundary_iff_not_is_continuation_byte(b, 129 + n as int);
    let pre = b.subrange(0, 129 + n as int);
    assert(pre =~= x + h);
    assert(pre[129] == h[0]);
    vstd::utf8::is_char_boundary_iff_not_is_continuation_byte(pre, 129);
}

/// An ASCII fragment of at least one character, short enough that the header's numbers keep
/// eight digits, wrapped as CF_HTML and extracted again, is the same fragment: the bytes are
/// valid UTF-8, the header's offsets are sound, and the only text whose bytes lie between them
/// is the fragment.
#[verifier::rlimit(60)]
pub proof fn lemma_html_round_trip(s: Seq<char>)
    requires
        s.len() >= 1,
        is_ascii_chars(s),
        s.len() + 161 < 100000000,
    ensures
        valid_utf8(cf_html_bytes(encode_utf8(s))),
        cf_html_offsets_ok(cf_html_bytes(encode_utf8(s))),
        header_value(cf_html_bytes(encode_utf8(s)), start_key()) == Some(129nat),
        header_value(cf_html_bytes(encode_utf8(s)), end_key()) == Some((129 + s.len()) as nat),
        forall|r: Seq<char>|
            encode_utf8(r) == cf_html_bytes(encode_utf8(s)).subrange(129, 129 + s.len() as int)
                ==> r == s,
{
    let h = encode_utf8(s);
    vstd::utf8::is_ascii_chars_encode_utf8(s);
    vstd::utf8::encode_utf8_valid_utf8(s);
    assert(h[0] == s[0] as u8);
    lemma_cf_html_valid(h);
    lemma_cf_html_start_value(h);
    lemma_cf_html_end_value(h);
    lemma_cf_html_offsets_delimit_fragment(h);
    assert forall|r: Seq<char>|
        encode_utf8(r) == cf_html_bytes(h).subrange(129, 129 + s.len() as int) implies r == s by {
        vstd::utf8::encode_utf8_decode_utf8(r);
        vstd::utf8::encode_utf8_decode_utf8(s);
    }
}

} // verus!
