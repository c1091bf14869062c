//! File-path lists: `file://` URI lists and the DROPFILES (HDROP) layout.

use vstd::prelude::*;
use vstd::utf8::{valid_utf8, decode_utf8};
use crate::bytes_le::{le_u32, u32_le, read_u32_le, push_u32_le};
use crate::converter::FormatConverter;
use crate::error::{ClipboardError, ClipboardResult, format_error};
use crate::utf16::{
    utf16_encode, utf16_valid, le_units, units_le, null_index, lemma_null_index, chars_of,
    encode_chars, push_units, read_units, decode_utf16_units, utf8_str,
};

verus! {

/// Size of the DROPFILES header.
pub const DROPFILES_SIZE: u32 = 20;

/// The index of the first newline of `s`, or its length.
pub open spec fn nl_index(s: Seq<char>) -> int
    decreases s.len(),
{
    if s.len() == 0 || s[0] == '\n' {
        0
    } else {
        1 + nl_index(s.drop_first())
    }
}

pub proof fn lemma_nl_index(s: Seq<char>)
    ensures
        0 <= nl_index(s) <= s.len(),
        nl_index(s) < s.len() ==> s[nl_index(s)] == '\n',
        forall|j: int| 0 <= j < nl_index(s) ==> s[j] != '\n',
    decreases s.len(),
{
    if s.len() > 0 && s[0] != '\n' {
        lemma_nl_index(s.drop_first());
        assert forall|j: int| 0 <= j < nl_index(s) implies s[j] != '\n' by {
            if j > 0 {
                assert(s[j] == s.drop_first()[j - 1]);
            }
        }
    }
}

pub proof fn lemma_zero_index(b: Seq<u8>)
    ensures
        0 <= zero_index(b) <= b.len(),
        zero_index(b) < b.len() ==> b[zero_index(b)] == 0,
        forall|j: int| 0 <= j < zero_index(b) ==> b[j] != 0,
    decreases b.len(),
{
    if b.len() > 0 && b[0] != 0 {
        lemma_zero_index(b.drop_first());
        assert forall|j: int| 0 <= j < zero_index(b) implies b[j] != 0 by {
            if j > 0 {
                assert(b[j] == b.drop_first()[j - 1]);
            }
        }
    }
}

/// The first line of `s`, without its line ending: a newline, or a carriage return and a newline.
pub open spec fn first_line(s: Seq<char>) -> Seq<char> {
    let l = s.take(nl_index(s));
    if nl_index(s) < s.len() && l.len() > 0 && l.last() == '\r' {
        l.drop_last()
    } else {
        l
    }
}

/// The text after the first line of `s`.
pub open spec fn after_line(s: Seq<char>) -> Seq<char> {
    if nl_index(s) < s.len() {
        s.skip(nl_index(s) + 1)
    } else {
        seq![]
    }
}

/// A line that names a file: not a comment, and starting with `file://`.
pub open spec fn is_file_line(l: Seq<char>) -> bool {
    !(l.len() > 0 && l[0] == '#') && l.len() >= 7 && l.take(7) == "file://"@
}

/// The paths of the file lines of a URI list, in order, without their `file://`.
pub open spec fn uri_paths(s: Seq<char>) -> Seq<Seq<char>>
    decreases s.len() via uri_paths_decreases
{
    if s.len() == 0 {
        seq![]
    } else {
        let l = first_line(s);
        (if is_file_line(l) {
            seq![l.skip(7)]
        } else {
            seq![]
        }) + uri_paths(after_line(s))
    }
}

#[via_fn]
proof fn uri_paths_decreases(s: Seq<char>) {
    lemma_nl_index(s);
}

/// The value of a hexadecimal digit.
pub open spec fn hex_digit(c: char) -> Option<nat> {
    if '0' <= c && c <= '9' {
        Some((c as u32 - 48) as nat)
    } else if 'a' <= c && c <= 'f' {
        Some((c as u32 - 87) as nat)
    } else if 'A' <= c && c <= 'F' {
        Some((c as u32 - 55) as nat)
    } else {
        None
    }
}

/// The byte that one or two hexadecimal digits spell, with an optional leading `+`.
pub open spec fn hex_byte(h: Seq<char>) -> Option<u8> {
    let d = if h.len() > 0 && h[0] == '+' {
        h.drop_first()
    } else {
        h
    };
    if d.len() == 1 && hex_digit(d[0]) is Some {
        Some(hex_digit(d[0])->0 as u8)
    } else if d.len() == 2 && hex_digit(d[0]) is Some && hex_digit(d[1]) is Some {
        Some((hex_digit(d[0])->0 * 16 + hex_digit(d[1])->0) as u8)
    } else {
        None
    }
}

/// The up to two characters after a `%` at the start of `p`.
pub open spec fn escape_digits(p: Seq<char>) -> Seq<char> {
    if p.len() >= 3 {
        p.subrange(1, 3)
    } else {
        p.skip(1)
    }
}

/// A path with each `%` escape replaced by the character of its byte value.
pub open spec fn percent_decoded(p: Seq<char>) -> Seq<char>
    decreases p.len(),
{
    if p.len() == 0 {
        seq![]
    } else if p[0] == '%' {
        let h = escape_digits(p);
        let rest = p.skip(1 + h.len() as int);
        match hex_byte(h) {
            Some(v) => seq![((v as u32) as char)] + percent_decoded(rest),
            None => seq!['%'] + h + percent_decoded(rest),
        }
    } else {
        seq![p[0]] + percent_decoded(p.drop_first())
    }
}

/// The escape of one path character: space, `#`, `%` and `?` are escaped.
pub open spec fn escape_char(c: char) -> Seq<char> {
    if c == ' ' {
        "%20"@
    } else if c == '#' {
        "%23"@
    } else if c == '%' {
        "%25"@
    } else if c == '?' {
        "%3F"@
    } else {
        seq![c]
    }
}

/// A path with space, `#`, `%` and `?` escaped.
pub open spec fn percent_encoded(p: Seq<char>) -> Seq<char>
    decreases p.len(),
{
    if p.len() == 0 {
        seq![]
    } else {
        percent_encoded(p.drop_last()) + escape_char(p.last())
    }
}

/// The null-terminated UTF-16LE entries of a path list.
pub open spec fn hdrop_body(paths: Seq<Seq<char>>) -> Seq<u8>
    decreases paths.len(),
{
    if paths.len() == 0 {
        seq![]
    } else {
        hdrop_body(paths.drop_last()) + units_le(utf16_encode(percent_decoded(paths.last())))
            + seq![0u8, 0u8]
    }
}

/// The DROPFILES header: file list at offset 20, wide characters.
pub open spec fn dropfiles_header() -> Seq<u8> {
    u32_le(20) + u32_le(0) + u32_le(0) + u32_le(0) + u32_le(1)
}

/// The HDROP bytes for a list of paths.
pub open spec fn hdrop_bytes(paths: Seq<Seq<char>>) -> Seq<u8> {
    dropfiles_header() + hdrop_body(paths) + seq![0u8, 0u8]
}

/// The entries of a list of null-terminated code-unit strings, up to the first empty one.
pub open spec fn wide_entries(u: Seq<u16>) -> Seq<Seq<u16>>
    decreases u.len() via wide_entries_decreases
{
    if u.len() == 0 || null_index(u) == 0 {
        seq![]
    } else {
        seq![u.take(null_index(u))] + wide_entries(
            u.skip(
                if null_index(u) < u.len() {
                    null_index(u) + 1
                } else {
                    u.len() as int
                },
            ),
        )
    }
}

#[via_fn]
proof fn wide_entries_decreases(u: Seq<u16>) {
    lemma_null_index(u);
}

/// The index of the first zero byte of `b`, or its length.
pub open spec fn zero_index(b: Seq<u8>) -> int
    decreases b.len(),
{
    if b.len() == 0 || b[0] == 0 {
        0
    } else {
        1 + zero_index(b.drop_first())
    }
}

/// The entries of a list of null-terminated byte strings, up to the first empty one.
pub open spec fn narrow_entries(b: Seq<u8>) -> Seq<Seq<u8>>
    decreases b.len() via narrow_entries_decreases
{
    if b.len() == 0 || zero_index(b) == 0 {
        seq![]
    } else {
        seq![b.take(zero_index(b))] + narrow_entries(
            b.skip(
                if zero_index(b) < b.len() {
                    zero_index(b) + 1
                } else {
                    b.len() as int
                },
            ),
        )
    }
}

#[via_fn]
proof fn narrow_entries_decreases(b: Seq<u8>) {
    lemma_zero_index(b);
}

/// The one character sequence whose UTF-16 encoding `u` is, when `u` is valid.
pub open spec fn utf16_decoded(u: Seq<u16>) -> Seq<char> {
    choose|t: Seq<char>| utf16_encode(t) == u
}

/// The paths of the valid wide entries, in order.
pub open spec fn wide_paths(es: Seq<Seq<u16>>) -> Seq<Seq<char>>
    decreases es.len(),
{
    if es.len() == 0 {
        seq![]
    } else {
        wide_paths(es.drop_last()) + if utf16_valid(es.last()) {
            seq![utf16_decoded(es.last())]
        } else {
            seq![]
        }
    }
}

/// The paths of the valid narrow entries, in order.
pub open spec fn narrow_paths(es: Seq<Seq<u8>>) -> Seq<Seq<char>>
    decreases es.len(),
{
    if es.len() == 0 {
        seq![]
    } else {
        narrow_paths(es.drop_last()) + if valid_utf8(es.last()) {
            seq![decode_utf8(es.last())]
        } else {
            seq![]
        }
    }
}

/// The URI of a path.
pub open spec fn file_uri(p: Seq<char>) -> Seq<char> {
    "file://"@ + percent_encoded(p)
}

/// The URIs of paths, joined by CRLF.
pub open spec fn uri_lines(paths: Seq<Seq<char>>) -> Seq<char>
    decreases paths.len(),
{
    if paths.len() == 0 {
        seq![]
    } else if paths.len() == 1 {
        file_uri(paths[0])
    } else {
        uri_lines(paths.drop_last()) + "\r\n"@ + file_uri(paths.last())
    }
}

/// The paths that an HDROP buffer lists, when its header is sound.
pub open spec fn hdrop_paths(b: Seq<u8>) -> Seq<Seq<char>> {
    let files = b.skip(le_u32(b, 0));
    if le_u32(b, 16) != 0 {
        wide_paths(wide_entries(le_units(files)))
    } else {
        narrow_paths(narrow_entries(files))
    }
}

/// Relies on `String`'s `FromIterator<char>`: the string of the given characters.
#[verifier::external_body]
fn string_from_chars(v: &[char]) -> (r: String)
    ensures
        r@ == v@,
{
    v.iter().collect()
}

/// The characters `v[a..e]`.
pub fn copy_range(v: &[char], a: usize, e: usize) -> (r: Vec<char>)
    requires
        a <= e <= v@.len(),
    ensures
        r@ == v@.subrange(a as int, e as int),
{
    let mut r: Vec<char> = Vec::new();
    let mut i: usize = a;
    while i < e
        invariant
            a <= i <= e <= v@.len(),
            r@ == v@.subrange(a as int, i as int),
        decreases e - i,
    {
        r.push(v[i]);
        i = i + 1;
        assert(r@ =~= v@.subrange(a as int, i as int));
    }
    r
}

fn hex_value(c: char) -> (r: Option<u8>)
    ensures
        match hex_digit(c) {
            Some(d) => r == Some(d as u8),
            None => r is None,
        },
        r matches Some(d) ==> d < 16,
{
    if '0' <= c && c <= '9' {
        Some((c as u32 - 48) as u8)
    } else if 'a' <= c && c <= 'f' {
        Some((c as u32 - 87) as u8)
    } else if 'A' <= c && c <= 'F' {
        Some((c as u32 - 55) as u8)
    } else {
        None
    }
}

fn parse_hex_byte(v: &[char], a: usize, e: usize) -> (r: Option<u8>)
    requires
        a <= e <= v@.len(),
        e - a <= 2,
    ensures
        r == hex_byte(v@.subrange(a as int, e as int)),
{
    let ghost h = v@.subrange(a as int, e as int);
    let d0: usize = if a < e && v[a] == '+' {
        a + 1
    } else {
        a
    };
    let ghost d = v@.subrange(d0 as int, e as int);
    assert(d =~= (if h.len() > 0 && h[0] == '+' {
        h.drop_first()
    } else {
        h
    }));
    if e - d0 == 1 {
        match hex_value(v[d0]) {
            Some(x) => Some(x),
            None => None,
        }
    } else if e - d0 == 2 {
        match (hex_value(v[d0]), hex_value(v[d0 + 1])) {
            (Some(x), Some(y)) => Some(x * 16 + y),
            _ => None,
        }
    } else {
        None
    }
}

/// Replaces each `%` escape of a path with the character of its byte value.
///
/// A `%` not followed by one or two hexadecimal digits is kept with what follows it.
pub fn percent_decode(input: &[char]) -> (r: Vec<char>)
    ensures
        r@ == percent_decoded(input@),
{
    let mut out: Vec<char> = Vec::new();
    let mut i: usize = 0;
    assert(input@.skip(0) =~= input@);
    while i < input.len()
        invariant
            i <= input@.len(),
            out@ + percent_decoded(input@.skip(i as int)) == percent_decoded(input@),
        decreases input@.len() - i,
    {
        let ghost p = input@.skip(i as int);
        let ghost before = out@;
        let c = input[i];
        if c == '%' {
            let hl: usize = if input.len() - i >= 3 {
                2
            } else {
                input.len() - i - 1
            };
            assert(escape_digits(p) =~= input@.subrange(i + 1, i + 1 + hl));
            assert(p.skip(1 + hl) =~= input@.skip(i + 1 + hl));
            match parse_hex_byte(input, i + 1, i + 1 + hl) {
                Some(b) => {
                    out.push(b as char);
                    assert((b as char) == ((b as u32) as char));
                },
                None => {
                    out.push('%');
                    let stop = i + 1 + hl;
                    let mut j: usize = i + 1;
                    while j < stop
                        invariant
                            stop == i + 1 + hl,
                            i + 1 <= j <= stop <= input@.len(),
                            out@ == before + seq!['%'] + input@.subrange(i + 1, j as int),
                        decreases stop - j,
                    {
                        out.push(input[j]);
                        j = j + 1;
                        assert(out@ =~= before + seq!['%'] + input@.subrange(i + 1, j as int));
                    }
                },
            }
            i = i + 1 + hl;
        } else {
            out.push(c);
            assert(p.drop_first() =~= input@.skip(i + 1));
            i = i + 1;
        }
        assert(out@ + percent_decoded(input@.skip(i as int)) =~= before + percent_decoded(p));
    }
    assert(input@.skip(i as int) =~= Seq::<char>::empty());
    assert(out@ =~= out@ + Seq::<char>::empty());
    out
}

/// Escapes space, `#`, `%` and `?` in a path.
pub fn percent_encode(input: &[char]) -> (r: Vec<char>)
    ensures
        r@ == percent_encoded(input@),
{
    let mut out: Vec<char> = Vec::new();
    let mut i: usize = 0;
    while i < input.len()
        invariant
            i <= input@.len(),
            out@ == percent_encoded(input@.take(i as int)),
        decreases input@.len() - i,
    {
        let c = input[i];
        proof {
            reveal_strlit("%20");
            reveal_strlit("%23");
            reveal_strlit("%25");
            reveal_strlit("%3F");
        }
        if c == ' ' {
            out.push('%');
            out.push('2');
            out.push('0');
        } else if c == '#' {
            out.push('%');
            out.push('2');
            out.push('3');
        } else if c == '%' {
            out.push('%');
            out.push('2');
            out.push('5');
        } else if c == '?' {
            out.push('%');
            out.push('3');
            out.push('F');
        } else {
            out.push(c);
        }
        assert(input@.take(i + 1).drop_last() =~= input@.take(i as int));
        i = i + 1;
        assert(out@ =~= percent_encoded(input@.take(i as int)));
    }
    assert(input@.take(i as int) =~= input@);
    out
}

/// Finds the end of the line that starts at `st`: the next newline, or the end.
fn line_bounds(cs: &[char], st: usize) -> (e: usize)
    requires
        st < cs@.len(),
    ensures
        st <= e <= cs@.len(),
        e - st == nl_index(cs@.skip(st as int)),
{
    let mut e: usize = st;
    while e < cs.len() && cs[e] != '\n'
        invariant
            st <= e <= cs@.len(),
            forall|j: int| st <= j < e ==> cs@[j] != '\n',
        decreases cs@.len() - e,
    {
        e = e + 1;
    }
    proof {
        let s = cs@.skip(st as int);
        lemma_nl_index(s);
        if nl_index(s) < e - st {
            assert(s[nl_index(s)] == cs@[st + nl_index(s)]);
        }
        if nl_index(s) > e - st {
            assert(s[e - st] == cs@[e as int]);
        }
    }
    e
}

fn is_file_line_exec(l: &[char]) -> (r: bool)
    ensures
        r == is_file_line(l@),
{
    proof {
        reveal_strlit("file://");
    }
    if l.len() > 0 && l[0] == '#' {
        return false;
    }
    if l.len() < 7 {
        return false;
    }
    let r = l[0] == 'f' && l[1] == 'i' && l[2] == 'l' && l[3] == 'e' && l[4] == ':' && l[5] == '/'
        && l[6] == '/';
    let ghost lit = seq!['f', 'i', 'l', 'e', ':', '/', '/'];
    assert("file://"@ =~= lit);
    let ghost t = l@.take(7);
    assert(t[0] == l@[0] && t[1] == l@[1] && t[2] == l@[2] && t[3] == l@[3] && t[4] == l@[4]
        && t[5] == l@[5] && t[6] == l@[6]);
    if r {
        assert(t =~= lit);
    } else {
        assert(t != lit) by {
            if t == lit {
                assert(t[0] == lit[0] && t[1] == lit[1] && t[2] == lit[2] && t[3] == lit[3] && t[4]
                    == lit[4] && t[5] == lit[5] && t[6] == lit[6]);
            }
        }
    }
    r
}

impl FormatConverter {
    /// Converts a `file://` URI list into an HDROP buffer of UTF-16LE paths.
    ///
    /// Comment lines (`#`) and lines of other schemes are skipped; paths are percent-decoded.
    pub fn uri_list_to_hdrop(&self, uri_list: &str) -> (r: ClipboardResult<Vec<u8>>)
        ensures
            uri_paths(uri_list@).len() == 0 ==> r matches Err(ClipboardError::FormatConversion(_)),
            uri_paths(uri_list@).len() > 0 ==> (r matches Ok(v) && v@ == hdrop_bytes(
                uri_paths(uri_list@),
            )),
    {
        let cs = chars_of(uri_list);
        let mut body: Vec<u8> = Vec::new();
        let mut count: usize = 0;
        let ghost mut done: Seq<Seq<char>> = seq![];
        let mut st: usize = 0;
        assert(cs@.skip(0) =~= cs@);
        assert(done + uri_paths(cs@) =~= uri_paths(cs@));
        while st < cs.len()
            invariant
                st <= cs@.len(),
                cs@ == uri_list@,
                uri_paths(cs@) == done + uri_paths(cs@.skip(st as int)),
                body@ == hdrop_body(done),
                count <= st,
                count == 0 <==> done.len() == 0,
            decreases cs@.len() - st,
        {
            let ghost s = cs@.skip(st as int);
            let e = line_bounds(cs.as_slice(), st);
            let mut le = e;
            if e < cs.len() && le > st && cs[le - 1] == '\r' {
                le = le - 1;
            }
            let line = copy_range(cs.as_slice(), st, le);
            assert(line@ =~= first_line(s));
            let ghost old_done = done;
            if is_file_line_exec(line.as_slice()) {
                let path = copy_range(line.as_slice(), 7, line.len());
                assert(path@ =~= line@.skip(7));
                let decoded = percent_decode(path.as_slice());
                let units = encode_chars(decoded.as_slice());
                push_units(&mut body, units.as_slice());
                body.push(0u8);
                body.push(0u8);
                proof {
                    done = done.push(path@);
                    assert(done.drop_last() =~= old_done);
                    assert(body@ =~= hdrop_body(done));
                }
                count = count + 1;
            }
            let next = if e < cs.len() {
                e + 1
            } else {
                cs.len()
            };
            proof {
                assert(after_line(s) =~= cs@.skip(next as int));
                assert(uri_paths(cs@) =~= done + uri_paths(cs@.skip(next as int)));
            }
            st = next;
        }
        assert(cs@.skip(st as int) =~= Seq::<char>::empty());
        assert(done =~= uri_paths(uri_list@));
        if count == 0 {
            return Err(format_error("no valid file URIs"));
        }
        let mut result: Vec<u8> = Vec::new();
        push_u32_le(&mut result, DROPFILES_SIZE);
        push_u32_le(&mut result, 0);
        push_u32_le(&mut result, 0);
        push_u32_le(&mut result, 0);
        push_u32_le(&mut result, 1);
        let mut j: usize = 0;
        let ghost head = result@;
        while j < body.len()
            invariant
                j <= body@.len(),
                result@ == head + body@.take(j as int),
            decreases body@.len() - j,
        {
            result.push(body[j]);
            j = j + 1;
            assert(result@ =~= head + body@.take(j as int));
        }
        assert(body@.take(j as int) =~= body@);
        result.push(0u8);
        result.push(0u8);
        assert(result@ =~= hdrop_bytes(done));
        Ok(result)
    }
}

/// Appends the URI of `p` to `out`, after a CRLF unless `out` is empty of paths so far.
fn append_uri(out: &mut Vec<char>, p: &[char], paths: Ghost<Seq<Seq<char>>>)
    requires
        old(out)@ == uri_lines(paths@),
    ensures
        final(out)@ == uri_lines(paths@.push(p@)),
{
    proof {
        reveal_strlit("file://");
        reveal_strlit("\r\n");
        assert(paths@.push(p@).drop_last() =~= paths@);
    }
    if out.len() > 0 {
        out.push('\r');
        out.push('\n');
    }
    let ghost mid = out@;
    out.push('f');
    out.push('i');
    out.push('l');
    out.push('e');
    out.push(':');
    out.push('/');
    out.push('/');
    let enc = percent_encode(p);
    let mut i: usize = 0;
    let ghost head = out@;
    while i < enc.len()
        invariant
            i <= enc@.len(),
            out@ == head + enc@.take(i as int),
        decreases enc@.len() - i,
    {
        out.push(enc[i]);
        i = i + 1;
        assert(out@ =~= head + enc@.take(i as int));
    }
    assert(enc@.take(i as int) =~= enc@);
    proof {
        if paths@.len() == 0 {
            assert(old(out)@.len() == 0);
            assert(final(out)@ =~= file_uri(p@));
        } else {
            assert(uri_lines(paths@).len() > 0) by {
                lemma_uri_lines_nonempty(paths@);
            }
            assert(final(out)@ =~= uri_lines(paths@) + "\r\n"@ + file_uri(p@));
        }
    }
}

proof fn lemma_uri_lines_nonempty(paths: Seq<Seq<char>>)
    requires
        paths.len() > 0,
    ensures
        uri_lines(paths).len() >= 7,
    decreases paths.len(),
{
    reveal_strlit("file://");
    if paths.len() > 1 {
        lemma_uri_lines_nonempty(paths.drop_last());
    }
}

proof fn lemma_uri_lines_empty(paths: Seq<Seq<char>>)
    ensures
        uri_lines(paths).len() == 0 <==> paths.len() == 0,
{
    if paths.len() > 0 {
        lemma_uri_lines_nonempty(paths);
    }
}

fn units_range(v: &[u16], a: usize, e: usize) -> (r: Vec<u16>)
    requires
        a <= e <= v@.len(),
    ensures
        r@ == v@.subrange(a as int, e as int),
{
    let mut r: Vec<u16> = Vec::new();
    let mut i: usize = a;
    while i < e
        invariant
            a <= i <= e <= v@.len(),
            r@ == v@.subrange(a as int, i as int),
        decreases e - i,
    {
        r.push(v[i]);
        i = i + 1;
        assert(r@ =~= v@.subrange(a as int, i as int));
    }
    r
}

fn bytes_range(v: &[u8], a: usize, e: usize) -> (r: Vec<u8>)
    requires
        a <= e <= v@.len(),
    ensures
        r@ == v@.subrange(a as int, e as int),
{
    let mut r: Vec<u8> = Vec::new();
    let mut i: usize = a;
    while i < e
        invariant
            a <= i <= e <= v@.len(),
            r@ == v@.subrange(a as int, i as int),
        decreases e - i,
    {
        r.push(v[i]);
        i = i + 1;
        assert(r@ =~= v@.subrange(a as int, i as int));
    }
    r
}

fn wide_uris(units: &[u16]) -> (r: Vec<char>)
    ensures
        r@ == uri_lines(wide_paths(wide_entries(units@))),
{
    let mut out: Vec<char> = Vec::new();
    let ghost mut done: Seq<Seq<u16>> = seq![];
    let mut pos: usize = 0;
    assert(units@.skip(0) =~= units@);
    assert(done + wide_entries(units@) =~= wide_entries(units@));
    while pos < units.len()
        invariant
            pos <= units@.len(),
            wide_entries(units@) == done + wide_entries(units@.skip(pos as int)),
            out@ == uri_lines(wide_paths(done)),
        decreases units@.len() - pos,
    {
        let ghost s = units@.skip(pos as int);
        let mut k: usize = pos;
        while k < units.len() && units[k] != 0
            invariant
                pos <= k <= units@.len(),
                forall|j: int| pos <= j < k ==> units@[j] != 0,
            decreases units@.len() - k,
        {
            k = k + 1;
        }
        proof {
            lemma_null_index(s);
            if null_index(s) < k - pos {
                assert(s[null_index(s)] == units@[pos + null_index(s)]);
            }
            if null_index(s) > k - pos {
                assert(s[k - pos] == units@[k as int]);
            }
        }
        if k == pos {
            assert(wide_entries(s) =~= Seq::<Seq<u16>>::empty());
            assert(done + wide_entries(s) =~= done);
            assert(done =~= wide_entries(units@));
            return out;
        }
        let entry = units_range(units, pos, k);
        assert(entry@ =~= s.take(null_index(s)));
        let ghost old_done = done;
        match decode_utf16_units(entry.as_slice()) {
            Some(text) => {
                let cs = chars_of(text.as_str());
                proof {
                    let t = utf16_decoded(entry@);
                    assert(utf16_encode(t) == entry@);
                    crate::utf16::lemma_utf16_injective(cs@, t);
                }
                append_uri(&mut out, cs.as_slice(), Ghost(wide_paths(old_done)));
                proof {
                    done = done.push(entry@);
                    assert(done.drop_last() =~= old_done);
                    assert(wide_paths(done) =~= wide_paths(old_done).push(cs@));
                }
            },
            None => {
                proof {
                    done = done.push(entry@);
                    assert(done.drop_last() =~= old_done);
                    assert(wide_paths(done) =~= wide_paths(old_done));
                }
            },
        }
        let next = if k < units.len() {
            k + 1
        } else {
            units.len()
        };
        proof {
            assert(s.skip(
                if null_index(s) < s.len() {
                    null_index(s) + 1
                } else {
                    s.len() as int
                },
            ) =~= units@.skip(next as int));
            assert(wide_entries(units@) =~= done + wide_entries(units@.skip(next as int)));
        }
        pos = next;
    }
    assert(units@.skip(pos as int) =~= Seq::<u16>::empty());
    assert(done =~= wide_entries(units@));
    out
}

fn narrow_uris(b: &[u8], from: usize) -> (r: Vec<char>)
    requires
        from <= b@.len(),
    ensures
        r@ == uri_lines(narrow_paths(narrow_entries(b@.skip(from as int)))),
{
    let ghost all = b@.skip(from as int);
    let mut out: Vec<char> = Vec::new();
    let ghost mut done: Seq<Seq<u8>> = seq![];
    let mut pos: usize = from;
    assert(done + narrow_entries(all) =~= narrow_entries(all));
    while pos < b.len()
        invariant
            from <= pos <= b@.len(),
            all == b@.skip(from as int),
            narrow_entries(all) == done + narrow_entries(b@.skip(pos as int)),
            out@ == uri_lines(narrow_paths(done)),
        decreases b@.len() - pos,
    {
        let ghost s = b@.skip(pos as int);
        let mut k: usize = pos;
        while k < b.len() && b[k] != 0
            invariant
                pos <= k <= b@.len(),
                forall|j: int| pos <= j < k ==> b@[j] != 0,
            decreases b@.len() - k,
        {
            k = k + 1;
        }
        proof {
            lemma_zero_index(s);
            if zero_index(s) < k - pos {
                assert(s[zero_index(s)] == b@[pos + zero_index(s)]);
            }
            if zero_index(s) > k - pos {
                assert(s[k - pos] == b@[k as int]);
            }
        }
        if k == pos {
            assert(narrow_entries(s) =~= Seq::<Seq<u8>>::empty());
            assert(done + narrow_entries(s) =~= done);
            assert(done =~= narrow_entries(all));
            return out;
        }
        let entry = bytes_range(b, pos, k);
        assert(entry@ =~= s.take(zero_index(s)));
        let ghost old_done = done;
        match utf8_str(entry.as_slice()) {
            Some(text) => {
                let cs = chars_of(text);
                append_uri(&mut out, cs.as_slice(), Ghost(narrow_paths(old_done)));
                proof {
                    done = done.push(entry@);
                    assert(done.drop_last() =~= old_done);
                    assert(narrow_paths(done) =~= narrow_paths(old_done).push(cs@));
                }
            },
            None => {
                proof {
                    done = done.push(entry@);
                    assert(done.drop_last() =~= old_done);
                    assert(narrow_paths(done) =~= narrow_paths(old_done));
                }
            },
        }
        let next = if k < b.len() {
            k + 1
        } else {
            b.len()
        };
        proof {
            assert(s.skip(
                if zero_index(s) < s.len() {
                    zero_index(s) + 1
                } else {
                    s.len() as int
                },
            ) =~= b@.skip(next as int));
            assert(narrow_entries(all) =~= done + narrow_entries(b@.skip(next as int)));
        }
        pos = next;
    }
    assert(b@.skip(pos as int) =~= Seq::<u8>::empty());
    assert(done =~= narrow_entries(all));
    out
}

impl FormatConverter {
    /// Converts an HDROP buffer into a CRLF-separated list of `file://` URIs.
    ///
    /// Entries that do not decode are skipped; the list ends at the first empty entry.
    pub fn hdrop_to_uri_list(&self, data: &[u8]) -> (r: ClipboardResult<String>)
        ensures
            data@.len() < 20 ==> r matches Err(ClipboardError::FormatConversion(_)),
            data@.len() >= 20 && le_u32(data@, 0) >= data@.len() ==> r matches Err(
                ClipboardError::FormatConversion(_),
            ),
            data@.len() >= 20 && le_u32(data@, 0) < data@.len() ==> (r matches Ok(s) && s@
                == uri_lines(hdrop_paths(data@))),
    {
        if data.len() < 20 {
            return Err(format_error("HDROP too small"));
        }
        let p_files = read_u32_le(data, 0) as usize;
        let f_wide = read_u32_le(data, 16) != 0;
        if p_files >= data.len() {
            return Err(format_error("invalid pFiles offset"));
        }
        let out = if f_wide {
            let n = (data.len() - p_files) / 2;
            let units = read_units(data, p_files, n);
            assert(le_units(data@.subrange(p_files as int, p_files + 2 * n)) =~= le_units(
                data@.skip(p_files as int),
            ));
            wide_uris(units.as_slice())
        } else {
            narrow_uris(data, p_files)
        };
        Ok(string_from_chars(out.as_slice()))
    }
}

} // verus!
