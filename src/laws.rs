//! Properties that relate several operations of the library.

use vstd::prelude::*;
use crate::formats::{
    FormatView, mime_formats, mime_step, has_id, is_text_mime, with_dib, CF_UNICODETEXT,
};
use crate::utf16::{
    utf16_encode, le_units, units_le, null_index, char_units, utf16_valid, lemma_utf16_injective,
};
use crate::hdrop::{
    uri_paths, uri_lines, file_uri, percent_encoded, percent_decoded, escape_char, hdrop_bytes,
    hdrop_body, hdrop_paths, wide_entries, wide_paths, utf16_decoded, nl_index, first_line,
    after_line, is_file_line,
};
use crate::converter::{text_wire, strip_null};
use crate::bytes_le::{le_u16, le_u32, u32_le, u16_le, lemma_u32_le_read};
use crate::image::{
    ImageView, PixelLayout, dib_decode, dib_encode, dib_header, bgra_of, rgba_of, rgba_from_bgra,
    swap_rb, src32, abs_i32, neg_i32, width_field, height_field, image_wf,
};
use crate::loop_detector::{
    OperationView, DetectorView, ClipboardSource, detector_wf, after_format_record, echo_in,
    evict_old, maintained, appended, stamp, age, opposite_of,
};

verus! {

/// No two entries of the list are the Unicode-text format.
pub open spec fn unicode_text_unique(fs: Seq<FormatView>) -> bool {
    forall|i: int, j: int|
        0 <= i < j < fs.len() && (#[trigger] fs[i]).0 == CF_UNICODETEXT ==> (#[trigger] fs[j]).0
            != CF_UNICODETEXT
}

proof fn lemma_push_other(fs: Seq<FormatView>, f: FormatView)
    requires
        unicode_text_unique(fs),
        f.0 != CF_UNICODETEXT,
    ensures
        unicode_text_unique(fs.push(f)),
        has_id(fs.push(f), CF_UNICODETEXT) == has_id(fs, CF_UNICODETEXT),
{
    let g = fs.push(f);
    assert forall|i: int, j: int|
        0 <= i < j < g.len() && (#[trigger] g[i]).0 == CF_UNICODETEXT implies (#[trigger] g[j]).0
        != CF_UNICODETEXT by {
        if j < fs.len() {
            assert(g[i] == fs[i] && g[j] == fs[j]);
        }
    }
    if has_id(g, CF_UNICODETEXT) {
        let k = choose|k: int| 0 <= k < g.len() && (#[trigger] g[k]).0 == CF_UNICODETEXT;
        assert(fs[k] == g[k]);
    }
    if has_id(fs, CF_UNICODETEXT) {
        let k = choose|k: int| 0 <= k < fs.len() && (#[trigger] fs[k]).0 == CF_UNICODETEXT;
        assert(g[k] == fs[k]);
    }
}

proof fn lemma_step_keeps_unique(fs: Seq<FormatView>, m: Seq<char>)
    requires
        unicode_text_unique(fs),
    ensures
        unicode_text_unique(mime_step(fs, m)),
        has_id(mime_step(fs, m), CF_UNICODETEXT) == (has_id(fs, CF_UNICODETEXT) || is_text_mime(m)),
{
    let r = mime_step(fs, m);
    if is_text_mime(m) {
        if !has_id(fs, CF_UNICODETEXT) {
            let g = fs.push((CF_UNICODETEXT, None));
            assert forall|i: int, j: int|
                0 <= i < j < g.len() && (#[trigger] g[i]).0 == CF_UNICODETEXT implies (
                #[trigger] g[j]).0 != CF_UNICODETEXT by {
                if j == fs.len() {
                    assert(fs[i] == g[i]);
                    assert(has_id(fs, CF_UNICODETEXT));
                } else {
                    assert(g[i] == fs[i] && g[j] == fs[j]);
                }
            }
            assert(g[fs.len() as int].0 == CF_UNICODETEXT);
        }
    } else {
        let a = fs.push((0xD011, Some("PNG"@)));
        let b = fs.push((0xD012, Some("JFIF"@)));
        lemma_push_other(fs, (0xD010, Some("HTML Format"@)));
        lemma_push_other(fs, (0xD014, Some("Rich Text Format"@)));
        lemma_push_other(fs, (0xD011, Some("PNG"@)));
        lemma_push_other(a, (8, None));
        lemma_push_other(fs, (0xD012, Some("JFIF"@)));
        lemma_push_other(b, (8, None));
        lemma_push_other(fs, (0xD013, Some("GIF"@)));
        lemma_push_other(fs, (8, None));
        let c = fs.push((0, Some("FileGroupDescriptorW"@)));
        lemma_push_other(fs, (0, Some("FileGroupDescriptorW"@)));
        lemma_push_other(c, (0, Some("FileContents"@)));
        lemma_push_other(fs, (12, None));
        assert(with_dib(a) == a || with_dib(a) == a.push((8, None)));
        assert(with_dib(b) == b || with_dib(b) == b.push((8, None)));
    }
}

/// Whatever MIME types are listed, and however many of them are plain text, the Unicode-text
/// format is offered at most once, and it is offered exactly when a plain-text type is listed.
pub proof fn lemma_unicode_text_offered_once(ms: Seq<Seq<char>>)
    ensures
        unicode_text_unique(mime_formats(ms)),
        has_id(mime_formats(ms), CF_UNICODETEXT) <==> exists|k: int|
            0 <= k < ms.len() && is_text_mime(#[trigger] ms[k]),
    decreases ms.len(),
{
    if ms.len() > 0 {
        lemma_unicode_text_offered_once(ms.drop_last());
        lemma_step_keeps_unique(mime_formats(ms.drop_last()), ms.last());
        if exists|k: int| 0 <= k < ms.len() && is_text_mime(#[trigger] ms[k]) {
            let k = choose|k: int| 0 <= k < ms.len() && is_text_mime(#[trigger] ms[k]);
            if k < ms.len() - 1 {
                assert(ms.drop_last()[k] == ms[k]);
            }
        }
        if exists|k: int| 0 <= k < ms.drop_last().len() && is_text_mime(#[trigger] ms.drop_last()[k]) {
            let k = choose|k: int|
                0 <= k < ms.drop_last().len() && is_text_mime(#[trigger] ms.drop_last()[k]);
            assert(ms[k] == ms.drop_last()[k]);
        }
    } else {
        assert(mime_formats(ms) =~= Seq::<FormatView>::empty());
    }
}

proof fn lemma_evict_keeps_last(q: Seq<OperationView>, now: u64, limit: int)
    requires
        q.len() > 0,
        age(now, q.last().2) <= limit,
    ensures
        evict_old(q, now, limit).len() > 0,
        evict_old(q, now, limit).last() == q.last(),
    decreases q.len(),
{
    if age(now, q[0].2) > limit {
        assert(q.len() > 1);
        assert(q.drop_first().last() == q.last());
        lemma_evict_keeps_last(q.drop_first(), now, limit);
    }
}

/// The newest operation of a history after recording one at a time no earlier than its stamps.
proof fn lemma_newest_after_record(q: Seq<OperationView>, h: Seq<char>, s: ClipboardSource, t: u64, w: u64, max: nat)
    requires
        max >= 1,
        forall|i: int| 0 <= i < q.len() ==> (#[trigger] q[i]).2 <= t,
    ensures
        maintained(appended(q, h, s, t), t, w, max).len() > 0,
        maintained(appended(q, h, s, t), t, w, max).last() == (h, s, t),
{
    if q.len() > 0 {
        assert(q[q.len() - 1].2 <= t);
    }
    assert(stamp(q, t) == t);
    let a = appended(q, h, s, t);
    assert(a.last() == (h, s, t));
    lemma_evict_keeps_last(a, t, 2 * w);
    let e = evict_old(a, t, 2 * w);
    if e.len() > max {
        assert(e.skip(e.len() - max).last() == e.last());
    }
}

/// A format list recorded from the remote side at time `t` (no earlier than what was recorded
/// before) is reported as an echo by a local check of the same list at any time `now` from `t`
/// up to `t` plus the window, as long as the history keeps at least one operation.
pub proof fn lemma_echo_within_window(d: DetectorView, hash: Seq<char>, t: u64, now: u64)
    requires
        detector_wf(d),
        d.1 >= 1,
        forall|i: int| 0 <= i < d.3.len() ==> (#[trigger] d.3[i]).2 <= t,
        t <= now,
        now - t <= d.0,
    ensures
        echo_in(after_format_record(d, hash, ClipboardSource::Rdp, t).3, hash, ClipboardSource::Local, now, d.0),
{
    lemma_newest_after_record(d.3, hash, ClipboardSource::Rdp, t, d.0, d.1);
    assert(opposite_of(ClipboardSource::Local) == ClipboardSource::Rdp);
}

/// Once the window has passed since the last recording, at time `t`, no check reports an echo.
pub proof fn lemma_no_echo_after_window(
    d: DetectorView,
    hash: Seq<char>,
    source: ClipboardSource,
    t: u64,
    other: Seq<char>,
    current: ClipboardSource,
    now: u64,
)
    requires
        detector_wf(d),
        forall|i: int| 0 <= i < d.3.len() ==> (#[trigger] d.3[i]).2 <= t,
        now > t,
        now - t > d.0,
    ensures
        !echo_in(after_format_record(d, hash, source, t).3, other, current, now, d.0),
{
    let q = after_format_record(d, hash, source, t).3;
    if d.1 >= 1 {
        lemma_newest_after_record(d.3, hash, source, t, d.0, d.1);
    } else {
        assert(q.len() == 0);
    }
}

/// After the histories are cleared, no check reports an echo.
pub proof fn lemma_no_echo_after_clear(hash: Seq<char>, current: ClipboardSource, now: u64, window: u64)
    ensures
        !echo_in(Seq::<OperationView>::empty(), hash, current, now, window),
{
}

/// Reading code units from the bytes of code units gives them back.
pub proof fn lemma_units_bytes(u: Seq<u16>)
    ensures
        le_units(units_le(u)) == u,
{
    let b = units_le(u);
    assert forall|k: int| 0 <= k < u.len() implies #[trigger] le_units(b)[k] == u[k] by {
        let x = u[k] as int;
        assert(b[2 * k] as int == x % 256);
        assert(b[2 * k + 1] as int == x / 256);
        assert(x % 256 + 256 * (x / 256) == x) by (nonlinear_arith);
    }
    assert(le_units(b) =~= u);
}

/// The bytes of the code units read from an even number of bytes are those bytes.
pub proof fn lemma_bytes_units(b: Seq<u8>)
    requires
        b.len() % 2 == 0,
    ensures
        units_le(le_units(b)) == b,
{
    let u = le_units(b);
    assert forall|i: int| 0 <= i < b.len() implies #[trigger] units_le(u)[i] == b[i] by {
        let k = i / 2;
        let lo = b[2 * k] as int;
        let hi = b[2 * k + 1] as int;
        assert(u[k] as int == lo + 256 * hi);
        assert((lo + 256 * hi) % 256 == lo && (lo + 256 * hi) / 256 == hi) by (nonlinear_arith)
            requires
                0 <= lo < 256,
                0 <= hi < 256,
        ;
        if i % 2 == 0 {
            assert(i == 2 * k);
        } else {
            assert(i == 2 * k + 1);
        }
    }
    assert(units_le(u) =~= b);
}

/// Wire text decoded and encoded again is the same wire text: when `b` followed by a null
/// terminator decodes to `s`, encoding `s` gives `b` followed by the terminator.
pub proof fn lemma_wire_text_round_trip(b: Seq<u8>, s: Seq<char>)
    requires
        b.len() % 2 == 0,
        utf16_encode(s) == strip_null(le_units(b + seq![0u8, 0u8])),
    ensures
        text_wire(s) == b + seq![0u8, 0u8],
{
    let d = b + seq![0u8, 0u8];
    assert(le_units(d) =~= le_units(b).push(0u16));
    assert(le_units(d).drop_last() =~= le_units(b));
    lemma_bytes_units(b);
}

proof fn lemma_read_u32_in(pre: Seq<u8>, x: int, post: Seq<u8>)
    requires
        0 <= x < 0x1_0000_0000,
    ensures
        le_u32(pre + u32_le(x) + post, pre.len() as int) == x,
{
    let s = pre + u32_le(x) + post;
    let n = pre.len() as int;
    lemma_u32_le_read(x);
    assert(s[n] == u32_le(x)[0] && s[n + 1] == u32_le(x)[1] && s[n + 2] == u32_le(x)[2] && s[n + 3]
        == u32_le(x)[3]);
}

proof fn lemma_read_u16_in(pre: Seq<u8>, x: int, post: Seq<u8>)
    requires
        0 <= x < 0x1_0000,
    ensures
        le_u16(pre + u16_le(x) + post, pre.len() as int) == x,
{
    let s = pre + u16_le(x) + post;
    let n = pre.len() as int;
    assert(s[n] == u16_le(x)[0] && s[n + 1] == u16_le(x)[1]);
    assert(x % 256 + 256 * (x / 256 % 256) == x) by (nonlinear_arith)
        requires
            0 <= x < 0x1_0000,
    ;
}

#[verifier::rlimit(60)]
proof fn lemma_dib_header_fields(w: nat, h: nat, body: Seq<u8>)
    requires
        1 <= w <= 4096,
        1 <= h <= 4096,
    ensures
        le_u32(dib_header(w, h) + body, 0) == 40,
        le_u32(dib_header(w, h) + body, 4) == w,
        le_u32(dib_header(w, h) + body, 8) == 0x1_0000_0000 - h,
        le_u16(dib_header(w, h) + body, 14) == 32,
{
    let dib = dib_header(w, h) + body;
    let e = Seq::<u8>::empty();
    let f0 = u32_le(40);
    let f1 = u32_le(width_field(w));
    let f2 = u32_le(height_field(h));
    let rest = dib.skip(12);
    assert(dib =~= e + f0 + (f1 + f2 + rest));
    lemma_read_u32_in(e, 40, f1 + f2 + rest);
    assert(dib =~= f0 + f1 + (f2 + rest));
    lemma_read_u32_in(f0, width_field(w), f2 + rest);
    assert(dib =~= (f0 + f1) + f2 + rest);
    lemma_read_u32_in(f0 + f1, height_field(h), rest);
    let pre14 = dib.take(14);
    let post16 = dib.skip(16);
    assert(dib =~= pre14 + u16_le(32) + post16);
    lemma_read_u16_in(pre14, 32, post16);
}

/// An RGBA image of at least one pixel and at most 4096 × 4096, encoded as a DIB and decoded
/// again, is the same image.
#[verifier::rlimit(60)]
pub proof fn lemma_dib_round_trip(v: ImageView)
    requires
        v.2 == PixelLayout::Rgba8,
        image_wf(v),
        1 <= v.0 <= 4096,
        1 <= v.1 <= 4096,
    ensures
        dib_decode(dib_encode(v)) == Some(v),
{
    let w = v.0 as nat;
    let h = v.1 as nat;
    let px = v.3;
    let hdr = dib_header(w, h);
    let body = bgra_of(rgba_of(v));
    let dib = dib_encode(v);
    assert(rgba_of(v) == px);
    assert(hdr.len() == 40);
    assert(w * h >= 1) by (nonlinear_arith)
        requires
            w >= 1,
            h >= 1,
    ;
    assert(dib.len() == 40 + w * h * 4);
    lemma_dib_header_fields(w, h, body);
    assert(le_u32(dib, 0) == 40);
    assert(le_u32(dib, 4) == w);
    assert(le_u32(dib, 8) == 0x1_0000_0000 - h);
    assert(abs_i32(le_u32(dib, 4)) == w);
    assert(abs_i32(le_u32(dib, 8)) == h);
    assert(neg_i32(le_u32(dib, 8)));
    assert(le_u16(dib, 14) == 32);
    let src = dib.skip(40);
    assert(src =~= body);
    let out = rgba_from_bgra(src, w, h, true);
    assert forall|i: int| 0 <= i < out.len() implies #[trigger] out[i] == px[i] by {
        let j = src32(i, w as int, h as int, true);
        assert(j == (i / 4) * 4 + swap_rb(i % 4));
        assert(j / 4 == i / 4 && j % 4 == swap_rb(i % 4));
        assert(body[j] == px[(j / 4) * 4 + swap_rb(j % 4)]);
        assert(swap_rb(swap_rb(i % 4)) == i % 4);
    }
    assert(out =~= px);
}
/// A path that survives the trip through a URI list and HDROP: absolute, without space, `#`,
/// `%` or `?`, and without a newline or a NUL character.
pub open spec fn plain_path(p: Seq<char>) -> bool {
    &&& p.len() > 0
    &&& p[0] == '/'
    &&& forall|i: int|
        0 <= i < p.len() ==> {
            let c = #[trigger] p[i];
            c != ' ' && c != '#' && c != '%' && c != '?' && c != '\n' && (c as u32) != 0
        }
}

proof fn lemma_encoded_plain(p: Seq<char>)
    requires
        forall|i: int| 0 <= i < p.len() ==> {
            let c = #[trigger] p[i];
            c != ' ' && c != '#' && c != '%' && c != '?'
        },
    ensures
        percent_encoded(p) == p,
    decreases p.len(),
{
    if p.len() > 0 {
        let q = p.drop_last();
        assert forall|i: int| 0 <= i < q.len() implies {
            let c = #[trigger] q[i];
            c != ' ' && c != '#' && c != '%' && c != '?'
        } by {
            assert(q[i] == p[i]);
        }
        lemma_encoded_plain(q);
        assert(p[p.len() - 1] == p.last());
        assert(escape_char(p.last()) == seq![p.last()]);
        assert(p =~= q + seq![p.last()]);
    }
}

proof fn lemma_decoded_plain(p: Seq<char>)
    requires
        forall|i: int| 0 <= i < p.len() ==> #[trigger] p[i] != '%',
    ensures
        percent_decoded(p) == p,
    decreases p.len(),
{
    if p.len() > 0 {
        let q = p.drop_first();
        assert forall|i: int| 0 <= i < q.len() implies #[trigger] q[i] != '%' by {
            assert(q[i] == p[i + 1]);
        }
        lemma_decoded_plain(q);
        assert(p =~= seq![p[0]] + q);
    }
}

proof fn lemma_uri_lines_front(ps: Seq<Seq<char>>)
    requires
        ps.len() >= 2,
    ensures
        uri_lines(ps) == file_uri(ps[0]) + "\r\n"@ + uri_lines(ps.drop_first()),
    decreases ps.len(),
{
    let a = ps.drop_last();
    let crlf = "\r\n"@;
    if ps.len() == 2 {
        assert(uri_lines(a) == file_uri(ps[0]));
        assert(uri_lines(ps.drop_first()) == file_uri(ps[1]));
        assert(ps.last() == ps[1]);
    } else {
        lemma_uri_lines_front(a);
        assert(ps.drop_first().drop_last() =~= a.drop_first());
        assert(ps.drop_first().last() == ps.last());
        assert(a[0] == ps[0]);
        let f0 = file_uri(ps[0]);
        let fl = file_uri(ps.last());
        let m = uri_lines(a.drop_first());
        assert(uri_lines(ps) == f0 + crlf + m + crlf + fl);
        assert(uri_lines(ps.drop_first()) == m + crlf + fl);
        assert(f0 + crlf + m + crlf + fl =~= f0 + crlf + (m + crlf + fl));
    }
}

proof fn lemma_nl_concat(x: Seq<char>, y: Seq<char>)
    requires
        forall|i: int| 0 <= i < x.len() ==> #[trigger] x[i] != '\n',
    ensures
        nl_index(x + y) == x.len() + nl_index(y),
    decreases x.len(),
{
    if x.len() > 0 {
        let x2 = x.drop_first();
        assert forall|i: int| 0 <= i < x2.len() implies #[trigger] x2[i] != '\n' by {
            assert(x2[i] == x[i + 1]);
        }
        lemma_nl_concat(x2, y);
        assert((x + y).drop_first() =~= x2 + y);
        assert((x + y)[0] == x[0]);
    } else {
        assert(x + y =~= y);
    }
}

proof fn lemma_uri_line_facts(p: Seq<char>)
    requires
        plain_path(p),
    ensures
        forall|i: int| 0 <= i < file_uri(p).len() ==> #[trigger] file_uri(p)[i] != '\n',
        is_file_line(file_uri(p)),
        file_uri(p).skip(7) == p,
{
    reveal_strlit("file://");
    lemma_encoded_plain(p);
    let u = file_uri(p);
    assert(u =~= "file://"@ + p);
    assert forall|i: int| 0 <= i < u.len() implies #[trigger] u[i] != '\n' by {
        if i >= 7 {
            assert(u[i] == p[i - 7]);
        }
    }
    assert(u.take(7) =~= "file://"@);
    assert(u.skip(7) =~= p);
}

/// Splitting the URI list of plain paths into lines gives back the paths.
#[verifier::rlimit(60)]
proof fn lemma_paths_of_uri_lines(ps: Seq<Seq<char>>)
    requires
        ps.len() > 0,
        forall|i: int| 0 <= i < ps.len() ==> plain_path(#[trigger] ps[i]),
    ensures
        uri_paths(uri_lines(ps)) == ps,
    decreases ps.len(),
{
    reveal_strlit("\r\n");
    let p0 = ps[0];
    lemma_uri_line_facts(p0);
    let u = file_uri(p0);
    if ps.len() == 1 {
        let s = uri_lines(ps);
        assert(s == u);
        lemma_nl_concat(u, Seq::<char>::empty());
        assert(u + Seq::<char>::empty() =~= u);
        assert(nl_index(s) == s.len());
        assert(s.take(nl_index(s)) =~= s);
        assert(first_line(s) == u);
        assert(after_line(s) =~= Seq::<char>::empty());
        assert(uri_paths(after_line(s)) =~= Seq::<Seq<char>>::empty());
        assert(uri_paths(s) == seq![u.skip(7)] + uri_paths(after_line(s)));
        assert(uri_paths(s) =~= ps);
    } else {
        let rest = ps.drop_first();
        lemma_uri_lines_front(ps);
        let r = uri_lines(rest);
        let s = uri_lines(ps);
        assert(s =~= u + ("\r\n"@ + r));
        lemma_nl_concat(u, "\r\n"@ + r);
        assert("\r\n"@ =~= seq!['\r', '\n']);
        assert(nl_index("\r\n"@ + r) == 1) by {
            let x = "\r\n"@ + r;
            assert(x[0] == '\r');
            assert(x.drop_first()[0] == '\n');
            assert(nl_index(x.drop_first()) == 0);
        }
        assert(nl_index(s) == u.len() + 1);
        assert(s.take(u.len() as int + 1) =~= u.push('\r'));
        assert(first_line(s) =~= u);
        assert(after_line(s) =~= r);
        assert forall|i: int| 0 <= i < rest.len() implies plain_path(#[trigger] rest[i]) by {
            assert(rest[i] == ps[i + 1]);
        }
        lemma_paths_of_uri_lines(rest);
        assert(uri_paths(s) == seq![u.skip(7)] + uri_paths(after_line(s)));
        assert(uri_paths(s) =~= seq![p0] + rest);
        assert(ps =~= seq![p0] + rest);
    }
}

/// The code units of the entries of a path list, each followed by a null unit.
spec fn path_units(ps: Seq<Seq<char>>) -> Seq<u16>
    decreases ps.len(),
{
    if ps.len() == 0 {
        seq![]
    } else {
        path_units(ps.drop_last()) + utf16_encode(percent_decoded(ps.last())) + seq![0u16]
    }
}

proof fn lemma_units_le_concat(a: Seq<u16>, b: Seq<u16>)
    ensures
        units_le(a + b) == units_le(a) + units_le(b),
{
    let l = units_le(a + b);
    let r = units_le(a) + units_le(b);
    assert forall|i: int| 0 <= i < l.len() implies l[i] == r[i] by {
        if i >= 2 * a.len() {
            assert((i - 2 * a.len()) / 2 == i / 2 - a.len());
            assert((i - 2 * a.len()) % 2 == i % 2);
        }
    }
    assert(l =~= r);
}

proof fn lemma_body_units(ps: Seq<Seq<char>>)
    ensures
        hdrop_body(ps) == units_le(path_units(ps)),
    decreases ps.len(),
{
    if ps.len() > 0 {
        lemma_body_units(ps.drop_last());
        let a = path_units(ps.drop_last());
        let u = utf16_encode(percent_decoded(ps.last()));
        lemma_units_le_concat(a, u);
        lemma_units_le_concat(a + u, seq![0u16]);
        assert(units_le(seq![0u16]) =~= seq![0u8, 0u8]);
    }
}

proof fn lemma_path_units_front(ps: Seq<Seq<char>>)
    requires
        ps.len() >= 1,
    ensures
        path_units(ps) == utf16_encode(percent_decoded(ps[0])) + seq![0u16] + path_units(
            ps.drop_first(),
        ),
    decreases ps.len(),
{
    if ps.len() == 1 {
        assert(ps.drop_last() =~= Seq::<Seq<char>>::empty());
        assert(ps.drop_first() =~= Seq::<Seq<char>>::empty());
        assert(path_units(ps.drop_last()) =~= Seq::<u16>::empty());
        assert(path_units(ps.drop_first()) =~= Seq::<u16>::empty());
        assert(ps.last() == ps[0]);
        assert(path_units(ps) =~= utf16_encode(percent_decoded(ps[0])) + seq![0u16]);
    } else {
        let a = ps.drop_last();
        lemma_path_units_front(a);
        assert(ps.drop_first().drop_last() =~= a.drop_first());
        assert(ps.drop_first().last() == ps.last());
        assert(a[0] == ps[0]);
        assert(path_units(ps) =~= utf16_encode(percent_decoded(ps[0])) + seq![0u16] + path_units(
            ps.drop_first(),
        ));
    }
}

proof fn lemma_units_nonzero(p: Seq<char>)
    requires
        forall|i: int| 0 <= i < p.len() ==> (#[trigger] p[i] as u32) != 0,
    ensures
        forall|i: int| 0 <= i < utf16_encode(p).len() ==> #[trigger] utf16_encode(p)[i] != 0,
        p.len() > 0 ==> utf16_encode(p).len() > 0,
    decreases p.len(),
{
    if p.len() > 0 {
        let q = p.drop_first();
        assert forall|i: int| 0 <= i < q.len() implies (#[trigger] q[i] as u32) != 0 by {
            assert(q[i] == p[i + 1]);
        }
        lemma_units_nonzero(q);
        let v = p[0] as u32;
        let cu = char_units(v);
        assert(v != 0);
        if v < 0x10000 {
            assert(cu[0] == v as u16);
        } else {
            vstd::utf8::char_is_scalar(p[0]);
            assert(cu[0] >= 0xD800);
            assert(cu[1] >= 0xDC00);
        }
        let e = utf16_encode(p);
        assert(e == cu + utf16_encode(q));
        assert forall|i: int| 0 <= i < e.len() implies #[trigger] e[i] != 0 by {
            if i >= cu.len() {
                assert(e[i] == utf16_encode(q)[i - cu.len()]);
            }
        }
    }
}

proof fn lemma_null_concat(x: Seq<u16>, y: Seq<u16>)
    requires
        forall|i: int| 0 <= i < x.len() ==> #[trigger] x[i] != 0,
    ensures
        null_index(x + y) == x.len() + null_index(y),
    decreases x.len(),
{
    if x.len() > 0 {
        let x2 = x.drop_first();
        assert forall|i: int| 0 <= i < x2.len() implies #[trigger] x2[i] != 0 by {
            assert(x2[i] == x[i + 1]);
        }
        lemma_null_concat(x2, y);
        assert((x + y).drop_first() =~= x2 + y);
        assert((x + y)[0] == x[0]);
    } else {
        assert(x + y =~= y);
    }
}

/// The entries of the HDROP units of plain paths are the encodings of the paths.
#[verifier::rlimit(60)]
proof fn lemma_entries_of_paths(ps: Seq<Seq<char>>)
    requires
        forall|i: int| 0 <= i < ps.len() ==> plain_path(#[trigger] ps[i]),
    ensures
        wide_entries(path_units(ps) + seq![0u16]) == ps.map_values(|p: Seq<char>| utf16_encode(p)),
    decreases ps.len(),
{
    let all = path_units(ps) + seq![0u16];
    if ps.len() == 0 {
        assert(all =~= seq![0u16]);
        assert(null_index(all) == 0);
        assert(wide_entries(all) =~= ps.map_values(|p: Seq<char>| utf16_encode(p)));
    } else {
        let p0 = ps[0];
        let rest = ps.drop_first();
        assert forall|i: int| 0 <= i < rest.len() implies plain_path(#[trigger] rest[i]) by {
            assert(rest[i] == ps[i + 1]);
        }
        assert forall|i: int| 0 <= i < p0.len() implies #[trigger] p0[i] != '%' by {
            let c = p0[i];
        }
        lemma_decoded_plain(p0);
        lemma_path_units_front(ps);
        let u0 = utf16_encode(p0);
        assert forall|i: int| 0 <= i < p0.len() implies (#[trigger] p0[i] as u32) != 0 by {
            let c = p0[i];
        }
        lemma_units_nonzero(p0);
        let tail = path_units(rest) + seq![0u16];
        assert(all =~= u0 + (seq![0u16] + tail));
        lemma_null_concat(u0, seq![0u16] + tail);
        assert(null_index(seq![0u16] + tail) == 0);
        assert(null_index(all) == u0.len());
        assert(all.take(u0.len() as int) =~= u0);
        assert(all.skip(u0.len() as int + 1) =~= tail);
        lemma_entries_of_paths(rest);
        assert(wide_entries(all) =~= seq![u0] + wide_entries(tail));
        assert(ps.map_values(|p: Seq<char>| utf16_encode(p)) =~= seq![u0] + rest.map_values(
            |p: Seq<char>| utf16_encode(p),
        ));
    }
}

/// Decoding the encodings of paths gives the paths.
proof fn lemma_paths_of_entries(ps: Seq<Seq<char>>)
    ensures
        wide_paths(ps.map_values(|p: Seq<char>| utf16_encode(p))) == ps,
    decreases ps.len(),
{
    if ps.len() > 0 {
        let es = ps.map_values(|p: Seq<char>| utf16_encode(p));
        assert(es.drop_last() =~= ps.drop_last().map_values(|p: Seq<char>| utf16_encode(p)));
        lemma_paths_of_entries(ps.drop_last());
        let e = es.last();
        assert(e == utf16_encode(ps.last()));
        assert(utf16_valid(e));
        let t = utf16_decoded(e);
        lemma_utf16_injective(t, ps.last());
        assert(ps =~= ps.drop_last().push(ps.last()));
    }
}

/// A URI list of plain absolute paths, joined by CRLF, converted to HDROP and back, is the same
/// list: the conversion to HDROP succeeds with the paths in order, and the HDROP header is sound.
#[verifier::rlimit(60)]
pub proof fn lemma_file_list_round_trip(ps: Seq<Seq<char>>)
    requires
        ps.len() > 0,
        forall|i: int| 0 <= i < ps.len() ==> plain_path(#[trigger] ps[i]),
    ensures
        uri_paths(uri_lines(ps)) == ps,
        hdrop_bytes(ps).len() >= 20,
        le_u32(hdrop_bytes(ps), 0) < hdrop_bytes(ps).len(),
        uri_lines(hdrop_paths(hdrop_bytes(ps))) == uri_lines(ps),
{
    lemma_paths_of_uri_lines(ps);
    let b = hdrop_bytes(ps);
    let e = Seq::<u8>::empty();
    lemma_body_units(ps);
    let body = hdrop_body(ps);
    let tail = body + seq![0u8, 0u8];
    let h4 = u32_le(0) + u32_le(0) + u32_le(0) + u32_le(1);
    assert(b =~= e + u32_le(20) + (h4 + tail));
    lemma_read_u32_in(e, 20, h4 + tail);
    let h16 = u32_le(20) + u32_le(0) + u32_le(0) + u32_le(0);
    assert(b =~= h16 + u32_le(1) + tail);
    lemma_read_u32_in(h16, 1, tail);
    assert(le_u32(b, 0) == 20);
    assert(le_u32(b, 16) == 1);
    assert(b.skip(20) =~= tail);
    lemma_units_le_concat(path_units(ps), seq![0u16]);
    assert(units_le(seq![0u16]) =~= seq![0u8, 0u8]);
    assert(tail == units_le(path_units(ps) + seq![0u16]));
    lemma_units_bytes(path_units(ps) + seq![0u16]);
    lemma_entries_of_paths(ps);
    lemma_paths_of_entries(ps);
    assert(hdrop_paths(b) == ps);
}

} // verus!
