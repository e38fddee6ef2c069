//! The line codec: bidirectional, lossless mapping between one [`FileInfo`]
//! and one line of printable text.
//!
//! Two line formats coexist. The current format is
//! `> <size> | <modified-or-None> | <hash-or-None> | <encoded-path>`, where
//! the path is re-expressed as UTF-16 code units: the percent sign becomes
//! the five-character escape `%0025`, every other code unit in the printable
//! ASCII range `[0x20, 0x7f]` is emitted as that single character, and every
//! remaining code unit becomes `%` followed by four lowercase hex digits.
//! The legacy format, accepted on input only, is
//! `<size> bytes: [<hash> ]<path>`.

use vstd::prelude::*;

use crate::record::{FileInfo, FileInfoV};
use crate::text::{
    all_dec_digits, chars_to_string, dec_chars, find_sub, find_sub_exec, is_dec_digit,
    is_space_char, lemma_dec_chars_digits, lemma_find_sub_at, lemma_find_sub_some_props,
    lemma_parse_of_dec_chars, lemma_trim_id, match_at, parse_u64, parse_u64_exec, push_dec_chars,
    push_str_chars, str_to_chars, subvec, trim, trim_exec,
};

verus! {

// ---------------------------------------------------------------------------
// Fixed tokens
// ---------------------------------------------------------------------------

/// The field separator of the current format.
pub open spec fn sep() -> Seq<char> {
    seq![' ', '|', ' ']
}

/// The sentinel for an absent modification time or hash.
pub open spec fn none_lit() -> Seq<char> {
    seq!['N', 'o', 'n', 'e']
}

/// The size/remainder separator of the legacy format.
pub open spec fn bytes_sep() -> Seq<char> {
    seq![' ', 'b', 'y', 't', 'e', 's', ':', ' ']
}

// ---------------------------------------------------------------------------
// Hex digits of the path escape scheme
// ---------------------------------------------------------------------------

pub open spec fn is_lower_hex_digit(c: char) -> bool {
    ('0' <= c && c <= '9') || ('a' <= c && c <= 'f')
}

/// Character for one hex digit value, lowercase.
pub open spec fn hex_digit_char(d: u16) -> char {
    if d == 0 {
        '0'
    } else if d == 1 {
        '1'
    } else if d == 2 {
        '2'
    } else if d == 3 {
        '3'
    } else if d == 4 {
        '4'
    } else if d == 5 {
        '5'
    } else if d == 6 {
        '6'
    } else if d == 7 {
        '7'
    } else if d == 8 {
        '8'
    } else if d == 9 {
        '9'
    } else if d == 10 {
        'a'
    } else if d == 11 {
        'b'
    } else if d == 12 {
        'c'
    } else if d == 13 {
        'd'
    } else if d == 14 {
        'e'
    } else {
        'f'
    }
}

/// Value of one lowercase hex digit character.
pub open spec fn hex_val(c: char) -> u16 {
    if '0' <= c && c <= '9' {
        ((c as int) - ('0' as int)) as u16
    } else {
        ((c as int) - ('a' as int) + 10) as u16
    }
}

// ---------------------------------------------------------------------------
// Path escaping (current format)
// ---------------------------------------------------------------------------

/// Encoding of a single UTF-16 code unit of a path.
pub open spec fn escape_unit(u: u16) -> Seq<char> {
    if u == 0x25 {
        seq!['%', '0', '0', '2', '5']
    } else if 0x20 <= u && u <= 0x7f {
        seq![(u as u8) as char]
    } else {
        seq![
            '%',
            hex_digit_char((u >> 12) & 0xf),
            hex_digit_char((u >> 8) & 0xf),
            hex_digit_char((u >> 4) & 0xf),
            hex_digit_char(u & 0xf),
        ]
    }
}

pub open spec fn escape_path(p: Seq<u16>) -> Seq<char>
    decreases p.len(),
{
    if p.len() == 0 {
        Seq::empty()
    } else {
        escape_unit(p[0]) + escape_path(p.drop_first())
    }
}

/// Decoding of an escaped path field back to code units. Fails when a `%` is
/// not followed by exactly four lowercase hex digits. A character that is not
/// part of an escape contributes its code point, truncated to 16 bits.
pub open spec fn unescape_path(s: Seq<char>) -> Option<Seq<u16>>
    decreases s.len(),
{
    if s.len() == 0 {
        Some(Seq::empty())
    } else if s[0] == '%' {
        if s.len() >= 5 && is_lower_hex_digit(s[1]) && is_lower_hex_digit(s[2])
            && is_lower_hex_digit(s[3]) && is_lower_hex_digit(s[4]) {
            let u = (hex_val(s[1]) << 12) | (hex_val(s[2]) << 8) | (hex_val(s[3]) << 4) | hex_val(
                s[4],
            );
            match unescape_path(s.skip(5)) {
                Some(rest) => Some(seq![u] + rest),
                None => None,
            }
        } else {
            None
        }
    } else {
        match unescape_path(s.drop_first()) {
            Some(rest) => Some(seq![s[0] as u16] + rest),
            None => None,
        }
    }
}

// ---------------------------------------------------------------------------
// Legacy paths: the remainder of a legacy line is text, carried over into
// code units as UTF-16
// ---------------------------------------------------------------------------

/// UTF-16 encoding of one character.
pub open spec fn utf16_unit(c: char) -> Seq<u16> {
    if (c as int) < 0x10000 {
        seq![c as u16]
    } else if (c as int) <= 0x10FFFF {
        seq![
            (0xd800 + (((c as int) - 0x10000) / 0x400)) as u16,
            (0xdc00 + (((c as int) - 0x10000) % 0x400)) as u16,
        ]
    } else {
        Seq::empty()
    }
}

pub open spec fn utf16(s: Seq<char>) -> Seq<u16>
    decreases s.len(),
{
    if s.len() == 0 {
        Seq::empty()
    } else {
        utf16_unit(s[0]) + utf16(s.drop_first())
    }
}

// ---------------------------------------------------------------------------
// Whole-record encoding (current format)
// ---------------------------------------------------------------------------

/// The single line of text a record is persisted as.
pub open spec fn encode_record(r: FileInfoV) -> Seq<char> {
    seq!['>', ' '] + dec_chars(r.size as nat) + sep() + (match r.modified {
        Some(m) => dec_chars(m as nat),
        None => none_lit(),
    }) + sep() + (match r.hash {
        Some(h) => h,
        None => none_lit(),
    }) + sep() + escape_path(r.path)
}

// ---------------------------------------------------------------------------
// Whole-record decoding
// ---------------------------------------------------------------------------

/// Interpretation of the three scalar fields and the path field of a
/// current-format line.
pub open spec fn decode_fields(
    f1: Seq<char>,
    f2: Seq<char>,
    f3: Seq<char>,
    pathf: Seq<char>,
) -> Option<FileInfoV> {
    match parse_u64(trim(f1)) {
        None => None,
        Some(size) => {
            let f2t = trim(f2);
            let modified: Option<Option<u64>> = if f2t == none_lit() {
                Some(None)
            } else {
                match parse_u64(f2t) {
                    Some(m) => Some(Some(m)),
                    None => None,
                }
            };
            match modified {
                None => None,
                Some(modified) => {
                    let f3t = trim(f3);
                    let hash: Option<Seq<char>> = if f3t == none_lit() {
                        None
                    } else {
                        Some(f3t)
                    };
                    match unescape_path(pathf) {
                        None => None,
                        Some(path) => Some(FileInfoV { path, hash, modified, size }),
                    }
                },
            }
        },
    }
}

/// Decoding of everything after the leading `>` of a current-format line:
/// split on the first three ` | ` separators; the fourth piece is the path
/// field and may itself contain the separator.
pub open spec fn decode_current(body: Seq<char>) -> Option<FileInfoV> {
    match find_sub(body, sep(), 0) {
        None => None,
        Some(i1) => {
            let f1 = body.subrange(0, i1);
            let r1 = body.subrange(i1 + 3, body.len() as int);
            match find_sub(r1, sep(), 0) {
                None => None,
                Some(i2) => {
                    let f2 = r1.subrange(0, i2);
                    let r2 = r1.subrange(i2 + 3, r1.len() as int);
                    match find_sub(r2, sep(), 0) {
                        None => None,
                        Some(i3) => {
                            let f3 = r2.subrange(0, i3);
                            let pathf = r2.subrange(i3 + 3, r2.len() as int);
                            decode_fields(f1, f2, f3, pathf)
                        },
                    }
                },
            }
        },
    }
}

/// Decoding of a legacy line `<size> bytes: [<hash> ]<path>`: the remainder
/// after the first ` bytes: ` is split on its first space when one is
/// present; legacy records never carry a modification time.
pub open spec fn decode_legacy(line: Seq<char>) -> Option<FileInfoV> {
    match find_sub(line, bytes_sep(), 0) {
        None => None,
        Some(i) => {
            match parse_u64(trim(line.subrange(0, i))) {
                None => None,
                Some(size) => {
                    let rest = line.subrange(i + 8, line.len() as int);
                    match find_sub(rest, seq![' '], 0) {
                        Some(j) => Some(
                            FileInfoV {
                                path: utf16(rest.subrange(j + 1, rest.len() as int)),
                                hash: Some(rest.subrange(0, j)),
                                modified: None,
                                size,
                            },
                        ),
                        None => Some(
                            FileInfoV { path: utf16(rest), hash: None, modified: None, size },
                        ),
                    }
                },
            }
        },
    }
}

/// Decoding of one persisted line: a line starting with `>` is current
/// format (with no legacy fallback), anything else is legacy.
pub open spec fn decode_record(line: Seq<char>) -> Option<FileInfoV> {
    if line.len() > 0 && line[0] == '>' {
        decode_current(line.subrange(1, line.len() as int))
    } else {
        decode_legacy(line)
    }
}

// ---------------------------------------------------------------------------
// Executable encoding
// ---------------------------------------------------------------------------

pub(crate) fn hex_digit_char_exec(d: u16) -> (c: char)
    requires
        d < 16,
    ensures
        c == hex_digit_char(d),
{
    if d == 0 {
        '0'
    } else if d == 1 {
        '1'
    } else if d == 2 {
        '2'
    } else if d == 3 {
        '3'
    } else if d == 4 {
        '4'
    } else if d == 5 {
        '5'
    } else if d == 6 {
        '6'
    } else if d == 7 {
        '7'
    } else if d == 8 {
        '8'
    } else if d == 9 {
        '9'
    } else if d == 10 {
        'a'
    } else if d == 11 {
        'b'
    } else if d == 12 {
        'c'
    } else if d == 13 {
        'd'
    } else if d == 14 {
        'e'
    } else {
        'f'
    }
}

fn push_sep(out: &mut Vec<char>)
    ensures
        final(out)@ == old(out)@ + sep(),
{
    out.push(' ');
    out.push('|');
    out.push(' ');
    proof {
        assert(out@ =~= old(out)@ + sep());
    }
}

fn push_none(out: &mut Vec<char>)
    ensures
        final(out)@ == old(out)@ + none_lit(),
{
    out.push('N');
    out.push('o');
    out.push('n');
    out.push('e');
    proof {
        assert(out@ =~= old(out)@ + none_lit());
    }
}

fn push_escape_unit(u: u16, out: &mut Vec<char>)
    ensures
        final(out)@ == old(out)@ + escape_unit(u),
{
    if u == 0x25 {
        out.push('%');
        out.push('0');
        out.push('0');
        out.push('2');
        out.push('5');
        proof {
            assert(out@ =~= old(out)@ + escape_unit(u));
        }
    } else if 0x20 <= u && u <= 0x7f {
        out.push((u as u8) as char);
        proof {
            assert(out@ =~= old(out)@ + escape_unit(u));
        }
    } else {
        proof {
            assert((u >> 12) & 0xf < 16 && (u >> 8) & 0xf < 16 && (u >> 4) & 0xf < 16 && u & 0xf
                < 16) by (bit_vector);
        }
        out.push('%');
        out.push(hex_digit_char_exec((u >> 12) & 0xf));
        out.push(hex_digit_char_exec((u >> 8) & 0xf));
        out.push(hex_digit_char_exec((u >> 4) & 0xf));
        out.push(hex_digit_char_exec(u & 0xf));
        proof {
            assert(out@ =~= old(out)@ + escape_unit(u));
        }
    }
}

/// `escape_path` distributes over concatenation.
pub proof fn lemma_escape_path_append(a: Seq<u16>, b: Seq<u16>)
    ensures
        escape_path(a + b) == escape_path(a) + escape_path(b),
    decreases a.len(),
{
    if a.len() == 0 {
        assert(a + b =~= b);
        assert(escape_path(a) + escape_path(b) =~= escape_path(b));
    } else {
        assert((a + b).drop_first() =~= a.drop_first() + b);
        lemma_escape_path_append(a.drop_first(), b);
        assert(escape_path(a + b) =~= escape_path(a) + escape_path(b));
    }
}

fn push_escaped_path(p: &Vec<u16>, out: &mut Vec<char>)
    ensures
        final(out)@ == old(out)@ + escape_path(p@),
{
    let n = p.len();
    let mut i: usize = 0;
    while i < n
        invariant
            n == p@.len(),
            i <= n,
            out@ == old(out)@ + escape_path(p@.subrange(0, i as int)),
        decreases n - i,
    {
        push_escape_unit(p[i], out);
        proof {
            let pre = p@.subrange(0, i as int);
            let one = seq![p@[i as int]];
            assert(p@.subrange(0, i as int + 1) =~= pre + one);
            lemma_escape_path_append(pre, one);
            assert(one.drop_first() =~= Seq::<u16>::empty());
            assert(escape_path(Seq::<u16>::empty()) =~= Seq::<char>::empty());
            assert(escape_path(one) == escape_unit(one[0]) + escape_path(one.drop_first()));
            assert(escape_path(one) =~= escape_unit(p@[i as int]));
            assert(out@ =~= old(out)@ + escape_path(p@.subrange(0, i as int + 1)));
        }
        i = i + 1;
    }
    proof {
        assert(p@.subrange(0, n as int) =~= p@);
    }
}

impl FileInfo {
    /// Serialize this record as one current-format line (without the
    /// trailing newline).
    pub fn to_line(&self) -> (line: String)
        ensures
            line@ == encode_record(self@),
    {
        let mut out: Vec<char> = Vec::new();
        out.push('>');
        out.push(' ');
        proof {
            assert(out@ =~= seq!['>', ' ']);
        }
        push_dec_chars(self.size, &mut out);
        push_sep(&mut out);
        match &self.modified {
            Some(m) => push_dec_chars(*m, &mut out),
            None => push_none(&mut out),
        }
        push_sep(&mut out);
        match &self.hash {
            Some(h) => push_str_chars(h.as_str(), &mut out),
            None => push_none(&mut out),
        }
        push_sep(&mut out);
        push_escaped_path(&self.path, &mut out);
        proof {
            assert(out@ =~= encode_record(self@));
        }
        chars_to_string(out)
    }
}

// ---------------------------------------------------------------------------
// Executable decoding
// ---------------------------------------------------------------------------

fn is_lower_hex_exec(c: char) -> (b: bool)
    ensures
        b == is_lower_hex_digit(c),
{
    (c >= '0' && c <= '9') || (c >= 'a' && c <= 'f')
}

fn hex_val_exec(c: char) -> (v: u16)
    requires
        is_lower_hex_digit(c),
    ensures
        v == hex_val(c),
        v < 16,
{
    if c >= '0' && c <= '9' {
        ((c as u8) - 48) as u16
    } else {
        ((c as u8) - 97 + 10) as u16
    }
}

fn is_none_lit(v: &Vec<char>) -> (b: bool)
    ensures
        b == (v@ == none_lit()),
{
    if v.len() != 4 {
        proof {
            assert(v@ != none_lit()) by {
                if v@ == none_lit() {
                    assert(v@.len() == 4);
                }
            }
        }
        return false;
    }
    let b = v[0] == 'N' && v[1] == 'o' && v[2] == 'n' && v[3] == 'e';
    proof {
        if b {
            assert(v@ =~= none_lit());
        } else {
            assert(v@ != none_lit()) by {
                if v@ == none_lit() {
                    assert(v@[0] == 'N' && v@[1] == 'o' && v@[2] == 'n' && v@[3] == 'e');
                }
            }
        }
    }
    b
}

/// Decode an escaped path field, per `unescape_path`.
fn unescape_exec(f: &Vec<char>) -> (r: Result<Vec<u16>, ()>)
    ensures
        match r {
            Ok(p) => unescape_path(f@) == Some(p@),
            Err(_) => unescape_path(f@) is None,
        },
{
    let n = f.len();
    let mut out: Vec<u16> = Vec::new();
    let mut i: usize = 0;
    proof {
        assert(f@.subrange(0, n as int) =~= f@);
        match unescape_path(f@) {
            Some(rest) => {
                assert(out@ + rest =~= rest);
            },
            None => {},
        }
    }
    while i < n
        invariant
            n == f@.len(),
            i <= n,
            match unescape_path(f@.subrange(i as int, n as int)) {
                Some(rest) => unescape_path(f@) == Some(out@ + rest),
                None => unescape_path(f@) is None,
            },
        decreases n - i,
    {
        let ghost t = f@.subrange(i as int, n as int);
        proof {
            assert(t[0] == f@[i as int]);
        }
        let c = f[i];
        if c == '%' {
            if n - i < 5 {
                proof {
                    assert(t.len() < 5);
                    assert(unescape_path(t) is None);
                }
                return Err(());
            }
            let c1 = f[i + 1];
            let c2 = f[i + 2];
            let c3 = f[i + 3];
            let c4 = f[i + 4];
            proof {
                assert(t[1] == c1 && t[2] == c2 && t[3] == c3 && t[4] == c4);
            }
            if !(is_lower_hex_exec(c1) && is_lower_hex_exec(c2) && is_lower_hex_exec(c3)
                && is_lower_hex_exec(c4)) {
                proof {
                    assert(unescape_path(t) is None);
                }
                return Err(());
            }
            let u = (hex_val_exec(c1) << 12u16) | (hex_val_exec(c2) << 8u16) | (hex_val_exec(c3)
                << 4u16) | hex_val_exec(c4);
            let ghost old_out = out@;
            out.push(u);
            proof {
                assert(t.subrange(5, t.len() as int) =~= f@.subrange(i as int + 5, n as int));
                match unescape_path(f@.subrange(i as int + 5, n as int)) {
                    Some(rest) => {
                        assert(unescape_path(t) == Some(seq![u] + rest));
                        assert(old_out + (seq![u] + rest) =~= out@ + rest);
                    },
                    None => {
                        assert(unescape_path(t) is None);
                    },
                }
            }
            i = i + 5;
        } else {
            let u = #[verifier::truncate] (c as u16);
            let ghost old_out = out@;
            out.push(u);
            proof {
                assert(t.drop_first() =~= f@.subrange(i as int + 1, n as int));
                match unescape_path(f@.subrange(i as int + 1, n as int)) {
                    Some(rest) => {
                        assert(unescape_path(t) == Some(seq![u] + rest));
                        assert(old_out + (seq![u] + rest) =~= out@ + rest);
                    },
                    None => {
                        assert(unescape_path(t) is None);
                    },
                }
            }
            i = i + 1;
        }
    }
    proof {
        assert(f@.subrange(n as int, n as int) =~= Seq::<char>::empty());
        assert(unescape_path(Seq::<char>::empty()) == Some(Seq::<u16>::empty()));
        assert(out@ + Seq::<u16>::empty() =~= out@);
    }
    Ok(out)
}

/// `utf16` distributes over concatenation.
proof fn lemma_utf16_append(a: Seq<char>, b: Seq<char>)
    ensures
        utf16(a + b) == utf16(a) + utf16(b),
    decreases a.len(),
{
    if a.len() == 0 {
        assert(a + b =~= b);
        assert(utf16(a) + utf16(b) =~= utf16(b));
    } else {
        assert((a + b).drop_first() =~= a.drop_first() + b);
        lemma_utf16_append(a.drop_first(), b);
        assert(utf16(a + b) =~= utf16(a) + utf16(b));
    }
}

/// Re-express text as UTF-16 code units, per `utf16`.
fn utf16_exec(f: &Vec<char>) -> (p: Vec<u16>)
    ensures
        p@ == utf16(f@),
{
    let n = f.len();
    let mut out: Vec<u16> = Vec::new();
    let mut i: usize = 0;
    while i < n
        invariant
            n == f@.len(),
            i <= n,
            out@ == utf16(f@.subrange(0, i as int)),
        decreases n - i,
    {
        let c = f[i];
        let ghost old_out = out@;
        if c <= '\u{ffff}' {
            out.push(#[verifier::truncate] (c as u16));
        } else if c <= '\u{10ffff}' {
            let v = (c as u32) - 0x10000;
            out.push((0xd800 + (v / 0x400)) as u16);
            out.push((0xdc00 + (v % 0x400)) as u16);
        }
        proof {
            assert(out@ =~= old_out + utf16_unit(f@[i as int]));
            let pre = f@.subrange(0, i as int);
            let one = seq![f@[i as int]];
            assert(f@.subrange(0, i as int + 1) =~= pre + one);
            lemma_utf16_append(pre, one);
            assert(one.drop_first() =~= Seq::<char>::empty());
            assert(utf16(one) == utf16_unit(one[0]) + utf16(one.drop_first()));
            assert(utf16(one) =~= utf16_unit(f@[i as int]));
            assert(out@ =~= utf16(f@.subrange(0, i as int + 1)));
        }
        i = i + 1;
    }
    proof {
        assert(f@.subrange(0, n as int) =~= f@);
    }
    out
}

/// Decode everything after the leading `>`, per `decode_current`.
fn decode_current_exec(body: &Vec<char>) -> (r: Result<FileInfo, ()>)
    ensures
        match r {
            Ok(rec) => decode_current(body@) == Some(rec@),
            Err(_) => decode_current(body@) is None,
        },
{
    let sepv: Vec<char> = vec![' ', '|', ' '];
    proof {
        assert(sepv@ =~= sep());
    }
    let n = body.len();
    let i1 = match find_sub_exec(body, &sepv, 0) {
        Some(i1) => i1,
        None => {
            return Err(());
        },
    };
    proof {
        lemma_find_sub_some_props(body@, sep(), 0);
    }
    let f1 = subvec(body, 0, i1);
    let r1 = subvec(body, i1 + 3, n);
    let m1 = n - (i1 + 3);
    let i2 = match find_sub_exec(&r1, &sepv, 0) {
        Some(i2) => i2,
        None => {
            return Err(());
        },
    };
    proof {
        lemma_find_sub_some_props(r1@, sep(), 0);
    }
    let f2 = subvec(&r1, 0, i2);
    let r2 = subvec(&r1, i2 + 3, m1);
    let m2 = m1 - (i2 + 3);
    let i3 = match find_sub_exec(&r2, &sepv, 0) {
        Some(i3) => i3,
        None => {
            return Err(());
        },
    };
    proof {
        lemma_find_sub_some_props(r2@, sep(), 0);
    }
    let f3 = subvec(&r2, 0, i3);
    let pathf = subvec(&r2, i3 + 3, m2);
    proof {
        assert(r1@ =~= body@.subrange(i1 as int + 3, body@.len() as int));
        assert(r2@ =~= r1@.subrange(i2 as int + 3, r1@.len() as int));
        assert(decode_current(body@) == decode_fields(f1@, f2@, f3@, pathf@));
    }
    let f1t = trim_exec(&f1);
    let size = match parse_u64_exec(&f1t) {
        Some(size) => size,
        None => {
            return Err(());
        },
    };
    let f2t = trim_exec(&f2);
    let modified: Option<u64> = if is_none_lit(&f2t) {
        None
    } else {
        match parse_u64_exec(&f2t) {
            Some(m) => Some(m),
            None => {
                return Err(());
            },
        }
    };
    let f3t = trim_exec(&f3);
    let hash: Option<String> = if is_none_lit(&f3t) {
        None
    } else {
        Some(chars_to_string(f3t))
    };
    let path = match unescape_exec(&pathf) {
        Ok(path) => path,
        Err(_) => {
            return Err(());
        },
    };
    Ok(FileInfo { path, hash, modified, size })
}

/// Decode a line in the legacy format, per `decode_legacy`.
fn decode_legacy_exec(chars: &Vec<char>) -> (r: Result<FileInfo, ()>)
    ensures
        match r {
            Ok(rec) => decode_legacy(chars@) == Some(rec@),
            Err(_) => decode_legacy(chars@) is None,
        },
{
    let bsepv: Vec<char> = vec![' ', 'b', 'y', 't', 'e', 's', ':', ' '];
    proof {
        assert(bsepv@ =~= bytes_sep());
    }
    let n = chars.len();
    let i = match find_sub_exec(chars, &bsepv, 0) {
        Some(i) => i,
        None => {
            return Err(());
        },
    };
    proof {
        lemma_find_sub_some_props(chars@, bytes_sep(), 0);
    }
    let szf = trim_exec(&subvec(chars, 0, i));
    let size = match parse_u64_exec(&szf) {
        Some(size) => size,
        None => {
            return Err(());
        },
    };
    let rest = subvec(chars, i + 8, n);
    let m = n - (i + 8);
    let spacev: Vec<char> = vec![' '];
    proof {
        assert(spacev@ =~= seq![' ']);
        assert(rest@ =~= chars@.subrange(i as int + 8, chars@.len() as int));
    }
    match find_sub_exec(&rest, &spacev, 0) {
        Some(j) => {
            proof {
                lemma_find_sub_some_props(rest@, seq![' '], 0);
            }
            let hash = chars_to_string(subvec(&rest, 0, j));
            let path = utf16_exec(&subvec(&rest, j + 1, m));
            Ok(FileInfo { path, hash: Some(hash), modified: None, size })
        },
        None => {
            let path = utf16_exec(&rest);
            Ok(FileInfo { path, hash: None, modified: None, size })
        },
    }
}

impl FileInfo {
    /// Parse one persisted line, current format for lines starting with `>`,
    /// legacy format otherwise, per `decode_record`.
    pub fn try_from_line(line: &str) -> (r: Result<FileInfo, ()>)
        ensures
            match r {
                Ok(rec) => decode_record(line@) == Some(rec@),
                Err(_) => decode_record(line@) is None,
            },
    {
        let chars = str_to_chars(line);
        let n = chars.len();
        if n > 0 && chars[0] == '>' {
            let body = subvec(&chars, 1, n);
            proof {
                assert(body@ =~= line@.subrange(1, line@.len() as int));
            }
            decode_current_exec(&body)
        } else {
            decode_legacy_exec(&chars)
        }
    }
}

// ---------------------------------------------------------------------------
// Round-trip laws
// ---------------------------------------------------------------------------

proof fn lemma_hex_digit_char_props(d: u16)
    requires
        d < 16,
    ensures
        is_lower_hex_digit(hex_digit_char(d)),
        hex_val(hex_digit_char(d)) == d,
{
}

/// Unescaping inverts escaping on every code-unit sequence.
pub proof fn lemma_unescape_escape(p: Seq<u16>)
    ensures
        unescape_path(escape_path(p)) == Some(p),
    decreases p.len(),
{
    if p.len() == 0 {
        assert(unescape_path(escape_path(p)) == Some(p));
    } else {
        let u = p[0];
        let rest = p.drop_first();
        lemma_unescape_escape(rest);
        let e = escape_path(rest);
        let s = escape_path(p);
        assert(s == escape_unit(u) + e);
        let restu = unescape_path(e)->0;
        assert(restu == rest);
        if u == 0x25 {
            assert(s[0] == '%' && s[1] == '0' && s[2] == '0' && s[3] == '2' && s[4] == '5');
            assert(s.len() >= 5);
            assert(hex_val('0') == 0 && hex_val('2') == 2 && hex_val('5') == 5);
            assert(((0u16 << 12u16) | (0u16 << 8u16) | (2u16 << 4u16) | 5u16) == 0x25u16)
                by (bit_vector);
            assert(s.subrange(5, s.len() as int) =~= e);
            assert(unescape_path(s) == Some(seq![0x25u16] + rest));
            assert(seq![0x25u16] + rest =~= p);
        } else if 0x20 <= u && u <= 0x7f {
            let c = (u as u8) as char;
            assert(s[0] == c);
            assert(c != '%');
            assert(c as u16 == u);
            assert(s.drop_first() =~= e);
            assert(unescape_path(s) == Some(seq![u] + rest));
            assert(seq![u] + rest =~= p);
        } else {
            let d1 = (u >> 12u16) & 0xfu16;
            let d2 = (u >> 8u16) & 0xfu16;
            let d3 = (u >> 4u16) & 0xfu16;
            let d4 = u & 0xfu16;
            assert((u >> 12u16) & 0xfu16 < 16 && (u >> 8u16) & 0xfu16 < 16 && (u >> 4u16) & 0xfu16
                < 16 && u & 0xfu16 < 16) by (bit_vector);
            lemma_hex_digit_char_props(d1);
            lemma_hex_digit_char_props(d2);
            lemma_hex_digit_char_props(d3);
            lemma_hex_digit_char_props(d4);
            assert(s[0] == '%' && s[1] == hex_digit_char(d1) && s[2] == hex_digit_char(d2) && s[3]
                == hex_digit_char(d3) && s[4] == hex_digit_char(d4));
            assert(s.len() >= 5);
            assert((((u >> 12u16) & 0xfu16) << 12u16) | (((u >> 8u16) & 0xfu16) << 8u16) | (((u
                >> 4u16) & 0xfu16) << 4u16) | (u & 0xfu16) == u) by (bit_vector);
            assert(s.subrange(5, s.len() as int) =~= e);
            assert(unescape_path(s) == Some(seq![u] + rest));
            assert(seq![u] + rest =~= p);
        }
    }
}

/// The percent sign itself escapes to `%0025` and decodes back to the single
/// code unit `0x25`, rather than colliding with a four-digit escape.
pub proof fn lemma_percent_escape()
    ensures
        escape_unit(0x25) == seq!['%', '0', '0', '2', '5'],
        unescape_path(seq!['%', '0', '0', '2', '5']) == Some(seq![0x25u16]),
{
    lemma_unescape_escape(seq![0x25u16]);
    assert(seq![0x25u16].drop_first() =~= Seq::<u16>::empty());
    assert(escape_path(Seq::<u16>::empty()) =~= Seq::<char>::empty());
    assert(escape_path(seq![0x25u16]) =~= seq!['%', '0', '0', '2', '5']);
}

/// No ` | ` separator occurs in any window that starts inside `f`, even one
/// that runs over into the separator that follows `f` in an encoded line.
pub open spec fn field_sep_free(f: Seq<char>) -> bool {
    forall|p: int| 0 <= p < f.len() ==> #[trigger] (f + sep()).subrange(p, p + 3) != sep()
}

/// A field with no pipe character is separator-free.
proof fn lemma_no_pipe_field_sep_free(f: Seq<char>)
    requires
        forall|i: int| 0 <= i < f.len() ==> #[trigger] f[i] != '|',
    ensures
        field_sep_free(f),
{
    assert forall|p: int| 0 <= p < f.len() implies #[trigger] (f + sep()).subrange(p, p + 3)
        != sep() by {
        let w = (f + sep()).subrange(p, p + 3);
        if w == sep() {
            assert(w[1] == '|');
            assert(w[1] == (f + sep())[p + 1]);
            if p + 1 < f.len() {
                assert((f + sep())[p + 1] == f[p + 1]);
            } else {
                assert((f + sep())[p + 1] == sep()[0]);
            }
        }
    }
}

/// In `f + sep() + t` with `f` separator-free, the first separator
/// occurrence is exactly at the end of `f`.
proof fn lemma_first_sep(f: Seq<char>, t: Seq<char>)
    requires
        field_sep_free(f),
    ensures
        find_sub(f + sep() + t, sep(), 0) == Some(f.len() as int),
{
    let s = f + sep() + t;
    assert(s.subrange(f.len() as int, f.len() as int + 3) =~= sep());
    assert(match_at(s, sep(), f.len() as int));
    assert forall|j: int| 0 <= j < f.len() implies !match_at(s, sep(), j) by {
        if match_at(s, sep(), j) {
            assert(s.subrange(j, j + 3) =~= (f + sep()).subrange(j, j + 3));
        }
    }
    lemma_find_sub_at(s, sep(), 0, f.len() as int);
}

proof fn lemma_digits_field(s: Seq<char>)
    requires
        all_dec_digits(s),
    ensures
        forall|i: int| 0 <= i < s.len() ==> #[trigger] s[i] != '|',
        forall|i: int| 0 <= i < s.len() ==> !is_space_char(#[trigger] s[i]),
{
    assert forall|i: int| 0 <= i < s.len() implies #[trigger] s[i] != '|' && !is_space_char(
        s[i],
    ) by {
        assert(is_dec_digit(s[i]));
    }
}

/// A hash field survives the trip through an encoded line: it is not the
/// `None` sentinel, carries no whitespace at its ends, and cannot produce an
/// early ` | ` separator match.
pub open spec fn hash_field_ok(h: Seq<char>) -> bool {
    &&& h != none_lit()
    &&& trim(h) == h
    &&& field_sep_free(h)
}

/// A record whose encoding is guaranteed to decode back to itself: any size,
/// any modification time, any path, and a hash that is either absent or a
/// well-behaved field (every hex digest is one).
pub open spec fn encodable(r: FileInfoV) -> bool {
    match r.hash {
        Some(h) => hash_field_ok(h),
        None => true,
    }
}

/// Every string of lowercase hex digits is a well-behaved hash field.
pub proof fn lemma_hex_hash_field_ok(h: Seq<char>)
    requires
        h.len() > 0,
        forall|i: int| 0 <= i < h.len() ==> is_lower_hex_digit(#[trigger] h[i]),
    ensures
        hash_field_ok(h),
{
    assert(h[0] != 'N');
    assert(!is_space_char(h[0]) && !is_space_char(h.last()));
    lemma_trim_id(h);
    assert forall|i: int| 0 <= i < h.len() implies #[trigger] h[i] != '|' by {
        assert(is_lower_hex_digit(h[i]));
    }
    lemma_no_pipe_field_sep_free(h);
}

/// The round-trip law: decoding an encoded record yields the record back,
/// for every size, optional timestamp, optional well-behaved hash, and
/// arbitrary path code units.
#[verifier::rlimit(100)]
pub proof fn lemma_encode_decode_roundtrip(r: FileInfoV)
    requires
        encodable(r),
    ensures
        decode_record(encode_record(r)) == Some(r),
{
    let dsz = dec_chars(r.size as nat);
    let f1 = seq![' '] + dsz;
    let f2 = match r.modified {
        Some(m) => dec_chars(m as nat),
        None => none_lit(),
    };
    let f3 = match r.hash {
        Some(h) => h,
        None => none_lit(),
    };
    let pe = escape_path(r.path);
    let line = encode_record(r);
    let body = f1 + sep() + (f2 + sep() + (f3 + sep() + pe));

    // The line opens with the format tag and the rest is `body`.
    assert(line[0] == '>');
    assert(line.len() > 0);
    assert(line.subrange(1, line.len() as int) =~= body);

    // Field 1 is blank-padded digits: separator-free.
    lemma_dec_chars_digits(r.size as nat);
    lemma_digits_field(dsz);
    assert(forall|i: int| 0 <= i < f1.len() ==> #[trigger] f1[i] != '|');
    lemma_no_pipe_field_sep_free(f1);
    lemma_first_sep(f1, f2 + sep() + (f3 + sep() + pe));
    assert(find_sub(body, sep(), 0) == Some(f1.len() as int));
    assert(body.subrange(0, f1.len() as int) =~= f1);
    let r1 = f2 + sep() + (f3 + sep() + pe);
    assert(body.subrange(f1.len() as int + 3, body.len() as int) =~= r1);

    // Field 2 is digits or the sentinel: separator-free either way.
    match r.modified {
        Some(m) => {
            lemma_dec_chars_digits(m as nat);
            lemma_digits_field(f2);
        },
        None => {},
    }
    assert(forall|i: int| 0 <= i < f2.len() ==> #[trigger] f2[i] != '|');
    lemma_no_pipe_field_sep_free(f2);
    lemma_first_sep(f2, f3 + sep() + pe);
    assert(find_sub(r1, sep(), 0) == Some(f2.len() as int));
    assert(r1.subrange(0, f2.len() as int) =~= f2);
    let r2 = f3 + sep() + pe;
    assert(r1.subrange(f2.len() as int + 3, r1.len() as int) =~= r2);

    // Field 3 is the hash or the sentinel.
    match r.hash {
        Some(h) => {},
        None => {
            assert(forall|i: int| 0 <= i < f3.len() ==> #[trigger] f3[i] != '|');
            lemma_no_pipe_field_sep_free(f3);
        },
    }
    lemma_first_sep(f3, pe);
    assert(find_sub(r2, sep(), 0) == Some(f3.len() as int));
    assert(r2.subrange(0, f3.len() as int) =~= f3);
    assert(r2.subrange(f3.len() as int + 3, r2.len() as int) =~= pe);

    assert(decode_current(body) == decode_fields(f1, f2, f3, pe));

    // Field 1 trims to the bare digits and parses back to the size.
    assert(forall|j: int| 0 <= j < 1 ==> is_space_char(#[trigger] f1[j]));
    assert(!is_space_char(f1[1]));
    crate::text::lemma_trim_start_skip(f1, 1);
    assert(f1.subrange(1, f1.len() as int) =~= dsz);
    assert(!is_space_char(dsz.last()));
    assert(trim(f1) == dsz);
    lemma_parse_of_dec_chars(r.size);

    // Field 2 decodes to the modification time.
    match r.modified {
        Some(m) => {
            lemma_trim_id(f2);
            assert(f2 != none_lit()) by {
                if f2 == none_lit() {
                    assert(is_dec_digit(f2[0]) && f2[0] == 'N');
                }
            }
            lemma_parse_of_dec_chars(m);
        },
        None => {
            lemma_trim_id(f2);
        },
    }

    // Field 3 decodes to the hash.
    match r.hash {
        Some(h) => {},
        None => {
            lemma_trim_id(f3);
        },
    }

    // The path field unescapes to the original code units.
    lemma_unescape_escape(r.path);

    assert(decode_fields(f1, f2, f3, pe) == Some(r));
}

} // verus!
