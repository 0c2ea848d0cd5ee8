//! Links as `ls` shows them: their kind, and the target read from a `.lnk`
//! shortcut file.

use vstd::prelude::*;
use crate::text::{replace_all, replace_str, trim_end_char, trim_end_char_vec, chars_of, string_of, is_prefix, trim_seq, trim_chars, starts_with};
use crate::glob::{split_char, split_chars, views};
use vstd::utf8::encode_utf8;

verus! {

/// Kind of a directory entry.
#[derive(PartialEq, Eq, Structural, Clone, Copy, Debug)]
pub enum LinkType {
    /// A plain folder.
    Dir,
    /// A plain file.
    File,
    /// A symbolic link (to a folder or a file).
    Symlink,
    /// A Windows directory junction.
    Junction,
    /// A `.lnk` shortcut.
    Shortcut,
    /// Anything else.
    Unknown,
}

/// A link's kind and target.
pub struct LinkInfo {
    pub link_type: LinkType,
    pub target: Option<String>,
}

/// `p` without the `\\?\` and `\??\` prefixes Windows puts on link targets.
pub open spec fn normalize_spec(p: Seq<char>) -> Seq<char> {
    replace_all(replace_all(p, "\\\\?\\"@, ""@), "\\??\\"@, ""@)
}

/// Removes the `\\?\` and `\??\` prefixes from a path.
pub fn normalize_path(path: &str) -> (r: String)
    ensures
        r@ == normalize_spec(path@),
{
    proof {
        reveal_strlit("\\\\?\\");
        reveal_strlit("\\??\\");
        reveal_strlit("");
    }
    let a = replace_str(path, "\\\\?\\", "");
    replace_str(a.as_str(), "\\??\\", "")
}

/// The labels `fsutil reparsepoint query` puts before a junction's target:
/// the print name first, then the substitute name, each in Chinese and in
/// English.
pub open spec fn junction_labels() -> Seq<Seq<char>> {
    seq!["打印名称:"@, "Print Name:"@, "替换名称:"@, "Substitute Name:"@]
}

/// The first label of `labels` that the trimmed line `t` starts with.
pub open spec fn first_label(t: Seq<char>, labels: Seq<Seq<char>>) -> Option<Seq<char>>
    decreases labels.len(),
{
    if labels.len() == 0 {
        None
    } else if is_prefix(labels[0], t) {
        Some(labels[0])
    } else {
        first_label(t, labels.skip(1))
    }
}

/// The target a line of that output gives, if any: what follows the label,
/// trimmed, without the `\\?\` and `\??\` prefixes.
pub open spec fn junction_line(line: Seq<char>) -> Option<Seq<char>> {
    let t = trim_seq(line);
    match first_label(t, junction_labels()) {
        Some(l) => Some(normalize_spec(trim_seq(t.skip(l.len() as int)))),
        None => None,
    }
}

/// The target given by the first line of `lines` that gives one.
pub open spec fn junction_lines(lines: Seq<Seq<char>>) -> Option<Seq<char>>
    decreases lines.len(),
{
    if lines.len() == 0 {
        None
    } else {
        match junction_line(lines[0]) {
            Some(t) => Some(t),
            None => junction_lines(lines.skip(1)),
        }
    }
}

fn line_target(line: &[char]) -> (r: Option<String>)
    ensures
        opt_chars(r) == junction_line(line@),
{
    proof {
        reveal_strlit("打印名称:");
        reveal_strlit("Print Name:");
        reveal_strlit("替换名称:");
        reveal_strlit("Substitute Name:");
    }
    let t = trim_chars(line);
    let labels = ["打印名称:", "Print Name:", "替换名称:", "Substitute Name:"];
    let ghost ls = junction_labels();
    let mut k: usize = 0;
    assert(ls.skip(0) =~= ls);
    while k < 4
        invariant
            k <= 4,
            t@ == trim_seq(line@),
            ls == junction_labels(),
            forall|j: int| 0 <= j < 4 ==> (#[trigger] labels@[j])@ == ls[j],
            first_label(t@, ls) == first_label(t@, ls.skip(k as int)),
        decreases 4 - k,
    {
        let lc = chars_of(labels[k]);
        assert(ls.skip(k as int)[0] == ls[k as int]);
        assert(ls.skip(k as int).skip(1) =~= ls.skip(k + 1));
        if starts_with(t.as_slice(), lc.as_slice()) {
            let mut rest: Vec<char> = Vec::new();
            let mut i = lc.len();
            while i < t.len()
                invariant
                    lc.len() <= i <= t.len(),
                    rest@ == t@.subrange(lc.len() as int, i as int),
                decreases t.len() - i,
            {
                rest.push(t[i]);
                i += 1;
            }
            assert(rest@ =~= t@.skip(lc.len() as int));
            let tr = trim_chars(rest.as_slice());
            let s = string_of(tr.as_slice());
            return Some(normalize_path(s.as_str()));
        }
        k += 1;
    }
    assert(ls.skip(4).len() == 0);
    None
}

/// The target of a junction read from the output of
/// `fsutil reparsepoint query`: the first line carrying a print name or a
/// substitute name.
pub fn junction_target(output: &str) -> (r: Option<String>)
    ensures
        opt_chars(r) == junction_lines(split_char(output@, '\n')),
{
    let c = chars_of(output);
    let lines = split_chars(c.as_slice(), '\n');
    let ghost lv = views(lines@);
    let mut i: usize = 0;
    assert(lv.skip(0) =~= lv);
    while i < lines.len()
        invariant
            i <= lines.len(),
            lv == views(lines@),
            lv == split_char(output@, '\n'),
            junction_lines(lv) == junction_lines(lv.skip(i as int)),
        decreases lines.len() - i,
    {
        assert(lv.skip(i as int)[0] == lines@[i as int]@);
        assert(lv.skip(i as int).skip(1) =~= lv.skip(i + 1));
        match line_target(lines[i].as_slice()) {
            Some(t) => {
                return Some(t);
            },
            None => {},
        }
        i += 1;
    }
    None
}

/// Little-endian 16-bit value at `o`.
pub open spec fn le16(d: Seq<u8>, o: int) -> int {
    d[o] as int + 256 * d[o + 1] as int
}

/// Little-endian 32-bit value at `o`.
pub open spec fn le32(d: Seq<u8>, o: int) -> int {
    le16(d, o) + 65536 * le16(d, o + 2)
}

/// Bit `k` of `x`.
pub open spec fn bit(x: int, k: int) -> bool {
    (x / pow2_int(k)) % 2 == 1
}

pub open spec fn pow2_int(k: int) -> int
    decreases k,
{
    if k <= 0 { 1 } else { 2 * pow2_int(k - 1) }
}

/// UTF-16 code units of little-endian byte pairs, up to the first zero unit.
pub open spec fn utf16_units(b: Seq<u8>) -> Seq<u16>
    decreases b.len(),
{
    if b.len() < 2 || le16(b, 0) == 0 {
        Seq::empty()
    } else {
        seq![le16(b, 0) as u16] + utf16_units(b.skip(2))
    }
}

/// Text of UTF-16 code units: a unit outside the surrogate range is its own
/// character, a high surrogate followed by a low one is the character of
/// the pair, any other surrogate makes the units invalid (none).
pub open spec fn utf16_text(units: Seq<u16>) -> Option<Seq<char>>
    decreases units.len(),
{
    if units.len() == 0 {
        Some(Seq::empty())
    } else if units[0] < 0xD800 || units[0] > 0xDFFF {
        match utf16_text(units.drop_first()) {
            Some(rest) => Some(seq![(units[0] as u32) as char] + rest),
            None => None,
        }
    } else if units[0] <= 0xDBFF && units.len() >= 2 && 0xDC00 <= units[1] <= 0xDFFF {
        let c = 0x10000 + (units[0] - 0xD800) * 0x400 + (units[1] - 0xDC00);
        match utf16_text(units.skip(2)) {
            Some(rest) => Some(seq![(c as u32) as char] + rest),
            None => None,
        }
    } else {
        None
    }
}

/// Text of bytes read as UTF-8 with invalid sequences replaced
/// (`String::from_utf8_lossy`).
pub uninterp spec fn lossy_text(bytes: Seq<u8>) -> Seq<char>;

/// Calls `String::from_utf16`: UTF-16 decoding as [`utf16_text`] states
/// it, `None` for invalid units.
#[verifier::external_body]
fn decode_utf16(units: &[u16]) -> (r: Option<String>)
    ensures
        match r {
            Some(s) => utf16_text(units@) == Some(s@),
            None => utf16_text(units@) is None,
        },
{
    String::from_utf16(units).ok()
}

/// Calls `String::from_utf8_lossy`; the result is named `lossy_text` of the
/// bytes, and is the encoded text itself when the bytes are valid UTF-8.
#[verifier::external_body]
fn decode_utf8_lossy(bytes: &[u8]) -> (r: String)
    ensures
        r@ == lossy_text(bytes@),
        forall|s: Seq<char>| encode_utf8(s) == bytes@ ==> r@ == s,
{
    String::from_utf8_lossy(bytes).to_string()
}

/// Text of little-endian UTF-16 bytes, stopping at a zero unit; none for
/// fewer than two bytes, an odd count, or invalid UTF-16.
pub open spec fn utf16le_spec(b: Seq<u8>) -> Option<Seq<char>> {
    if b.len() < 2 || b.len() % 2 != 0 { None } else { utf16_text(utf16_units(b)) }
}

fn le16_at(d: &[u8], o: usize) -> (r: u32)
    requires
        o + 2 <= d.len(),
    ensures
        r as int == le16(d@, o as int),
        r < 65536,
{
    d[o] as u32 + 256 * (d[o + 1] as u32)
}

fn le32_at(d: &[u8], o: usize) -> (r: u64)
    requires
        o + 4 <= d.len(),
    ensures
        r as int == le32(d@, o as int),
        r < 0x1_0000_0000,
{
    let lo = le16_at(d, o) as u64;
    let hi = le16_at(d, o + 2) as u64;
    lo + 65536 * hi
}

/// Text of little-endian UTF-16 bytes (see [`utf16le_spec`]).
pub fn from_utf16le(bytes: &[u8]) -> (r: Option<String>)
    ensures
        opt_chars(r) == utf16le_spec(bytes@),
{
    if bytes.len() < 2 || bytes.len() % 2 != 0 {
        return None;
    }
    let mut units: Vec<u16> = Vec::new();
    let mut i: usize = 0;
    assert(bytes@.skip(0) =~= bytes@);
    while i + 1 < bytes.len() && (bytes[i] != 0 || bytes[i + 1] != 0)
        invariant
            i <= bytes.len(),
            i % 2 == 0,
            bytes.len() % 2 == 0,
            units@ + utf16_units(bytes@.skip(i as int)) == utf16_units(bytes@),
        decreases bytes.len() - i,
    {
        let code = le16_at(bytes, i);
        let ghost rest = bytes@.skip(i as int);
        assert(le16(rest, 0) == le16(bytes@, i as int));
        let ghost before = units@;
        units.push(code as u16);
        assert(rest.skip(2) =~= bytes@.skip(i + 2));
        assert(before + utf16_units(rest) =~= units@ + utf16_units(bytes@.skip(i + 2)));
        i += 2;
    }
    proof {
        let rest = bytes@.skip(i as int);
        if i + 1 < bytes.len() {
            assert(le16(rest, 0) == le16(bytes@, i as int));
        }
        assert(utf16_units(rest) =~= Seq::<u16>::empty());
        assert(units@ + Seq::<u16>::empty() =~= units@);
    }
    decode_utf16(units.as_slice())
}

/// Text of an optional string.
pub open spec fn opt_chars(o: Option<String>) -> Option<Seq<char>> {
    match o {
        Some(s) => Some(s@),
        None => None,
    }
}

/// Position of the first zero byte at or after `o`.
#[verifier::opaque]
pub open spec fn zero_from(d: Seq<u8>, o: int) -> Option<int> {
    if exists|e: int| o <= e < d.len() && d[e] == 0 {
        Some(choose|e: int| o <= e < d.len() && d[e] == 0 && forall|j: int| o <= j < e ==> d[j] != 0)
    } else {
        None
    }
}

/// A zero-terminated 8-bit string at `o` (decoded leniently as UTF-8).
pub open spec fn ansi_at(d: Seq<u8>, o: int) -> Option<Seq<char>> {
    match zero_from(d, o) {
        Some(e) => Some(lossy_text(d.subrange(o, e))),
        None => None,
    }
}

fn sub_bytes(d: &[u8], from: usize, to: usize) -> (r: Vec<u8>)
    requires
        from <= to <= d.len(),
    ensures
        r@ == d@.subrange(from as int, to as int),
{
    let mut v: Vec<u8> = Vec::new();
    let mut i = from;
    while i < to
        invariant
            from <= i <= to <= d.len(),
            v@ == d@.subrange(from as int, i as int),
        decreases to - i,
    {
        v.push(d[i]);
        assert(d@.subrange(from as int, i + 1) =~= d@.subrange(from as int, i as int).push(d@[i as int]));
        i += 1;
    }
    v
}

/// The zero-terminated 8-bit string at `offset`.
pub fn read_ansi_string(data: &[u8], offset: usize) -> (r: Option<String>)
    requires
        offset <= data.len(),
    ensures
        opt_chars(r) == ansi_at(data@, offset as int),
{
    let mut e = offset;
    while e < data.len() && data[e] != 0
        invariant
            offset <= e <= data.len(),
            forall|j: int| offset <= j < e ==> data@[j] != 0,
        decreases data.len() - e,
    {
        e += 1;
    }
    if e == data.len() {
        proof {
            reveal(zero_from);
        }
        return None;
    }
    proof {
        reveal(zero_from);
        let c = choose|c: int| offset <= c < data@.len() && data@[c] == 0 && forall|j: int| offset <= j < c ==> data@[j] != 0;
        assert(offset <= c < data@.len() && data@[c] == 0 && forall|j: int| offset <= j < c ==> data@[j] != 0);
        if c < e {
            assert(data@[c] != 0);
        } else if c > e {
            assert(data@[e as int] != 0);
        }
    }
    let b = sub_bytes(data, offset, e);
    Some(decode_utf8_lossy(b.as_slice()))
}

/// A counted string at `o` (a 16-bit character count, then UTF-16 or 8-bit
/// text), without trailing NULs, with the offset after it.
pub open spec fn string_data(d: Seq<u8>, o: int, unicode: bool) -> Option<(Seq<char>, int)> {
    if o + 2 > d.len() {
        None
    } else {
        let n = if unicode { le16(d, o) * 2 } else { le16(d, o) };
        if o + 2 + n > d.len() {
            None
        } else {
            let body = d.subrange(o + 2, o + 2 + n);
            let text = if unicode { utf16le_spec(body) } else { Some(lossy_text(body)) };
            match text {
                Some(t) => Some((trim_end_char(t, '\0'), o + 2 + n)),
                None => None,
            }
        }
    }
}

/// The counted string at `offset` and the offset after it.
pub fn read_string_data(data: &[u8], offset: usize, is_unicode: bool) -> (r: Option<(String, usize)>)
    ensures
        match r {
            Some(p) => string_data(data@, offset as int, is_unicode) == Some((p.0@, p.1 as int)),
            None => string_data(data@, offset as int, is_unicode) is None,
        },
{
    if offset > data.len() || data.len() - offset < 2 {
        return None;
    }
    let cnt = le16_at(data, offset) as usize;
    let byte_len = if is_unicode { cnt * 2 } else { cnt };
    if data.len() - offset - 2 < byte_len {
        return None;
    }
    let body = sub_bytes(data, offset + 2, offset + 2 + byte_len);
    let text = if is_unicode { from_utf16le(body.as_slice()) } else { Some(decode_utf8_lossy(body.as_slice())) };
    match text {
        Some(t) => {
            let tc = chars_of(t.as_str());
            let tt = trim_end_char_vec(tc.as_slice(), '\0');
            Some((string_of(tt.as_slice()), offset + 2 + byte_len))
        },
        None => None,
    }
}

/// The class id a shell link header carries.
pub open spec fn link_clsid() -> Seq<u8> {
    seq![0x01u8, 0x14, 0x02, 0x00, 0x00, 0x00, 0x00, 0x00, 0xC0, 0x00, 0x00, 0x00, 0x00, 0x00, 0x00, 0x46]
}

/// Start of the LinkInfo block: after the header and the ID list when present.
pub open spec fn info_start(d: Seq<u8>) -> Option<int> {
    let flags = le32(d, 20);
    if bit(flags, 0) {
        if 76 + 2 > d.len() { None } else { Some(76 + 2 + le16(d, 76)) }
    } else {
        Some(76)
    }
}

/// A path of the LinkInfo block at `s` (of size `size`): the Unicode one at
/// offset `uoff` when set, else the 8-bit one at `aoff` when inside the block.
pub open spec fn info_path(d: Seq<u8>, s: int, size: int, uoff: int, aoff: int) -> Option<Seq<char>> {
    if uoff > 0 {
        utf16le_spec(d.skip(s + uoff))
    } else if aoff > 0 && aoff < size {
        ansi_at(d, s + aoff)
    } else {
        None
    }
}

/// The LinkInfo block at `s` is read: it lies within the data and is at least 0x1C long.
pub open spec fn info_ok(d: Seq<u8>, s: int) -> bool {
    s + 4 <= d.len() && s + le32(d, s) <= d.len() && le32(d, s) >= 0x1C
}

/// Offsets of the LinkInfo block: header size, then the Unicode offsets
/// (0 when the header is short).
pub open spec fn uni_off(d: Seq<u8>, s: int, k: int) -> int {
    if le32(d, s + 4) >= 0x24 { le32(d, s + 28 + 4 * k) } else { 0 }
}

/// Target from the LinkInfo block: base path joined with the common suffix.
pub open spec fn info_target(d: Seq<u8>, s: int) -> Option<Seq<char>> {
    let size = le32(d, s);
    let base = info_path(d, s, size, uni_off(d, s, 0), le32(d, s + 16));
    let suffix = info_path(d, s, size, uni_off(d, s, 1), le32(d, s + 24));
    match (base, suffix) {
        (Some(b), Some(x)) => if b.len() > 0 && b.last() == '\\' { Some(b + x) } else { Some(b + seq!['\\'] + x) },
        (Some(b), None) => Some(b),
        (None, Some(x)) => Some(x),
        (None, None) => None,
    }
}

/// The input is one the reader handles without failing: where it reads the
/// Unicode offsets and paths of the LinkInfo block, they lie within the data.
pub open spec fn lnk_readable(d: Seq<u8>) -> bool {
    d.len() >= 76 && le32(d, 0) == 0x4C && d.subrange(4, 20) == link_clsid() ==> {
        let flags = le32(d, 20);
        match info_start(d) {
            None => true,
            Some(s) => (bit(flags, 1) && !bit(flags, 8) && info_ok(d, s)) ==> {
                &&& (le32(d, s + 4) >= 0x24 ==> s + 36 <= d.len())
                &&& (uni_off(d, s, 0) > 0 ==> s + uni_off(d, s, 0) <= d.len())
                &&& (uni_off(d, s, 1) > 0 ==> s + uni_off(d, s, 1) <= d.len())
            },
        }
    }
}

/// The target of a `.lnk` shortcut file: from the LinkInfo block when it
/// gives one, else the relative path, else the working folder (each only
/// when not empty).
pub open spec fn lnk_target_spec(d: Seq<u8>) -> Option<Seq<char>> {
    if d.len() < 76 || le32(d, 0) != 0x4C || d.subrange(4, 20) != link_clsid() {
        None
    } else {
        let flags = le32(d, 20);
        let unicode = bit(flags, 7);
        match info_start(d) {
            None => None,
            Some(s) => {
                let read_info = bit(flags, 1) && !bit(flags, 8) && s + 4 <= d.len();
                let from_info = if read_info && info_ok(d, s) { info_target(d, s) } else { None };
                let after = if read_info { s + le32(d, s) } else { s };
                match from_info {
                    Some(t) => Some(t),
                    None => {
                        let after_name = if bit(flags, 2) {
                            match string_data(d, after, unicode) { Some(p) => Some(p.1), None => None }
                        } else {
                            Some(after)
                        };
                        match after_name {
                            None => None,
                            Some(o1) => {
                                let rel = if bit(flags, 3) { string_data(d, o1, unicode) } else { Some((Seq::<char>::empty(), o1)) };
                                match rel {
                                    None => None,
                                    Some(rp) => if bit(flags, 3) && rp.0.len() > 0 {
                                        Some(rp.0)
                                    } else if bit(flags, 4) {
                                        match string_data(d, rp.1, unicode) {
                                            Some(wp) => if wp.0.len() > 0 { Some(wp.0) } else { None },
                                            None => None,
                                        }
                                    } else {
                                        None
                                    },
                                }
                            },
                        }
                    },
                }
            },
        }
    }
}

/// A shortcut whose header has a target ID list (flag bit 0) and a LinkInfo
/// block (bit 1, without bit 8): the LinkInfo block starts right after the
/// 76-byte header, the 2-byte ID list size and the ID list itself, i.e. at
/// `78 + IDListSize`; when that block (at least 0x1C bytes, inside the data,
/// with a short header so no Unicode paths) names an 8-bit local base path
/// and no common path suffix, the target is that base path, read up to its
/// terminating zero.
pub proof fn lnk_target_after_id_list(d: Seq<u8>, b: int, e: int)
    requires
        d.len() >= 78,
        le32(d, 0) == 0x4C,
        d.subrange(4, 20) == link_clsid(),
        bit(le32(d, 20), 0),
        bit(le32(d, 20), 1),
        !bit(le32(d, 20), 8),
        ({
            let s = 78 + le16(d, 76);
            &&& s + 28 <= d.len()
            &&& le32(d, s) >= 0x1C
            &&& s + le32(d, s) <= d.len()
            &&& le32(d, s + 4) < 0x24
            &&& le32(d, s + 16) == b
            &&& 0 < b < le32(d, s)
            &&& le32(d, s + 24) == 0
            &&& s + b <= e < d.len()
            &&& d[e] == 0
            &&& forall|j: int| s + b <= j < e ==> d[j] != 0
        }),
    ensures
        lnk_target_spec(d) == Some(lossy_text(d.subrange(78 + le16(d, 76) + b, e))),
{
    let s = 78 + le16(d, 76);
    assert(info_start(d) == Some(s));
    lemma_zero_from_is(d, s + b, e);
    assert(info_ok(d, s));
    assert(uni_off(d, s, 0) == 0);
    assert(uni_off(d, s, 1) == 0);
    assert(info_path(d, s, le32(d, s), 0, le32(d, s + 24)) is None);
    assert(info_target(d, s) == Some(lossy_text(d.subrange(s + b, e))));
}

/// Without a target ID list the LinkInfo block starts right after the
/// 76-byte header; a base path it names is the target.
pub proof fn lnk_target_without_id_list(d: Seq<u8>, b: int, e: int)
    requires
        d.len() >= 76,
        le32(d, 0) == 0x4C,
        d.subrange(4, 20) == link_clsid(),
        !bit(le32(d, 20), 0),
        bit(le32(d, 20), 1),
        !bit(le32(d, 20), 8),
        76 + 28 <= d.len(),
        le32(d, 76) >= 0x1C,
        76 + le32(d, 76) <= d.len(),
        le32(d, 80) < 0x24,
        le32(d, 92) == b,
        0 < b < le32(d, 76),
        le32(d, 100) == 0,
        76 + b <= e < d.len(),
        d[e] == 0,
        forall|j: int| 76 + b <= j < e ==> d[j] != 0,
    ensures
        lnk_target_spec(d) == Some(lossy_text(d.subrange(76 + b, e))),
{
    assert(info_start(d) == Some(76int));
    lemma_zero_from_is(d, 76 + b, e);
    assert(info_ok(d, 76));
    assert(uni_off(d, 76, 0) == 0);
    assert(uni_off(d, 76, 1) == 0);
    assert(info_path(d, 76, le32(d, 76), 0, le32(d, 100)) is None);
    assert(info_target(d, 76) == Some(lossy_text(d.subrange(76 + b, e))));
}

/// A shortcut with neither ID list nor LinkInfo nor name but a relative
/// path (flag bit 3, 8-bit strings): the relative path, a 16-bit character
/// count right after the header followed by that many bytes (trailing NULs
/// dropped), is the target when it is not empty.
pub proof fn lnk_target_relative_path(d: Seq<u8>)
    requires
        d.len() >= 78,
        le32(d, 0) == 0x4C,
        d.subrange(4, 20) == link_clsid(),
        !bit(le32(d, 20), 0),
        !bit(le32(d, 20), 1),
        !bit(le32(d, 20), 2),
        bit(le32(d, 20), 3),
        !bit(le32(d, 20), 7),
        78 + le16(d, 76) <= d.len(),
        trim_end_char(lossy_text(d.subrange(78, 78 + le16(d, 76))), '\0').len() > 0,
    ensures
        lnk_target_spec(d) == Some(trim_end_char(lossy_text(d.subrange(78, 78 + le16(d, 76))), '\0')),
{
    assert(info_start(d) == Some(76int));
    assert(string_data(d, 76, false) == Some((trim_end_char(lossy_text(d.subrange(78, 78 + le16(d, 76))), '\0'), 78 + le16(d, 76))));
}

/// A shortcut with neither ID list nor LinkInfo nor name nor relative path
/// but a working folder (flag bit 4, 8-bit strings): that folder, counted
/// like the relative path and right after the header, is the target when
/// it is not empty.
pub proof fn lnk_target_working_dir(d: Seq<u8>)
    requires
        d.len() >= 78,
        le32(d, 0) == 0x4C,
        d.subrange(4, 20) == link_clsid(),
        !bit(le32(d, 20), 0),
        !bit(le32(d, 20), 1),
        !bit(le32(d, 20), 2),
        !bit(le32(d, 20), 3),
        bit(le32(d, 20), 4),
        !bit(le32(d, 20), 7),
        78 + le16(d, 76) <= d.len(),
        trim_end_char(lossy_text(d.subrange(78, 78 + le16(d, 76))), '\0').len() > 0,
    ensures
        lnk_target_spec(d) == Some(trim_end_char(lossy_text(d.subrange(78, 78 + le16(d, 76))), '\0')),
{
    assert(info_start(d) == Some(76int));
    assert(string_data(d, 76, false) == Some((trim_end_char(lossy_text(d.subrange(78, 78 + le16(d, 76))), '\0'), 78 + le16(d, 76))));
}

proof fn lemma_zero_from_is(d: Seq<u8>, o: int, e: int)
    requires
        o <= e < d.len(),
        d[e] == 0,
        forall|j: int| o <= j < e ==> d[j] != 0,
    ensures
        zero_from(d, o) == Some(e),
        ansi_at(d, o) == Some(lossy_text(d.subrange(o, e))),
{
    reveal(zero_from);
    let c = choose|c: int| o <= c < d.len() && d[c] == 0 && forall|j: int| o <= j < c ==> d[j] != 0;
    assert(o <= c < d.len() && d[c] == 0 && forall|j: int| o <= j < c ==> d[j] != 0);
    if c < e {
        assert(d[c] != 0);
    } else if c > e {
        assert(d[e] != 0);
    }
}

fn bit_of(x: u64, k: u32) -> (r: bool)
    requires
        k <= 8,
    ensures
        r == bit(x as int, k as int),
{
    proof {
        reveal_with_fuel(pow2_int, 10);
    }
    let d: u64 = if k == 0 { 1 } else if k == 1 { 2 } else if k == 2 { 4 } else if k == 3 { 8 } else if k == 4 { 16 }
        else if k == 5 { 32 } else if k == 6 { 64 } else if k == 7 { 128 } else { 256 };
    assert(d as int == pow2_int(k as int));
    (x / d) % 2 == 1
}

fn info_path_exec(d: &[u8], s: usize, size: u64, uoff: u64, aoff: u64) -> (r: Option<String>)
    requires
        s <= d.len(),
        s as int + size <= d.len(),
        uoff > 0 ==> s as int + uoff <= d.len(),
    ensures
        opt_chars(r) == info_path(d@, s as int, size as int, uoff as int, aoff as int),
{
    if uoff > 0 {
        let start = s + uoff as usize;
        let tail = sub_bytes(d, start, d.len());
        assert(tail@ =~= d@.skip(s + uoff));
        from_utf16le(tail.as_slice())
    } else if aoff > 0 && aoff < size {
        read_ansi_string(d, s + aoff as usize)
    } else {
        None
    }
}

fn info_target_exec(d: &[u8], s: usize) -> (r: Option<String>)
    requires
        info_ok(d@, s as int),
        le32(d@, s as int + 4) >= 0x24 ==> s + 36 <= d.len(),
        uni_off(d@, s as int, 0) > 0 ==> s + uni_off(d@, s as int, 0) <= d.len(),
        uni_off(d@, s as int, 1) > 0 ==> s + uni_off(d@, s as int, 1) <= d.len(),
    ensures
        opt_chars(r) == info_target(d@, s as int),
{
    assert(s + 28 <= d.len());
    let size = le32_at(d, s);
    let hs = le32_at(d, s + 4);
    let lbpo = le32_at(d, s + 16);
    let cpso = le32_at(d, s + 24);
    let (u0, u1) = if hs >= 0x24 { (le32_at(d, s + 28), le32_at(d, s + 32)) } else { (0u64, 0u64) };
    assert(u0 as int == uni_off(d@, s as int, 0));
    assert(u1 as int == uni_off(d@, s as int, 1));
    let base = info_path_exec(d, s, size, u0, lbpo);
    let suffix = info_path_exec(d, s, size, u1, cpso);
    match (base, suffix) {
        (Some(b), Some(x)) => {
            let bc = chars_of(b.as_str());
            let mut out = b;
            if !(bc.len() > 0 && bc[bc.len() - 1] == '\\') {
                crate::text::push_char(&mut out, '\\');
            }
            crate::text::push_str(&mut out, x.as_str());
            Some(out)
        },
        (Some(b), None) => Some(b),
        (None, Some(x)) => Some(x),
        (None, None) => None,
    }
}

/// Whether the bytes start with a shell link header (size 0x4C and the link
/// class id).
fn has_link_header(data: &[u8]) -> (r: bool)
    ensures
        r == (data@.len() >= 76 && le32(data@, 0) == 0x4C && data@.subrange(4, 20) == link_clsid()),
{
    if data.len() < 76 || le32_at(data, 0) != 0x4C {
        return false;
    }
    let clsid: [u8; 16] = [0x01, 0x14, 0x02, 0x00, 0x00, 0x00, 0x00, 0x00, 0xC0, 0x00, 0x00, 0x00, 0x00, 0x00, 0x00, 0x46];
    let mut i: usize = 0;
    while i < 16
        invariant
            i <= 16,
            data.len() >= 76,
            clsid@ == link_clsid(),
            forall|j: int| 0 <= j < i ==> data@[4 + j] == link_clsid()[j],
        decreases 16 - i,
    {
        if data[4 + i] != clsid[i] {
            assert(data@.subrange(4, 20)[i as int] != link_clsid()[i as int]);
            return false;
        }
        i += 1;
    }
    assert(data@.subrange(4, 20) =~= link_clsid());
    true
}

/// Whether `get_lnk_target` can read these bytes: the offsets its LinkInfo
/// block gives lie within the data.
pub fn is_lnk_readable(data: &[u8]) -> (r: bool)
    ensures
        r == lnk_readable(data@),
{
    if !has_link_header(data) {
        return true;
    }
    let n = data.len();
    let flags = le32_at(data, 20);
    let mut s: usize = 76;
    if bit_of(flags, 0) {
        if n < 78 {
            return true;
        }
        s = 78 + le16_at(data, 76) as usize;
    }
    assert(info_start(data@) == Some(s as int));
    if !(bit_of(flags, 1) && !bit_of(flags, 8)) {
        return true;
    }
    if !(s <= n && n - s >= 4) {
        return true;
    }
    let size = le32_at(data, s);
    if !(size <= (n - s) as u64 && size >= 0x1C) {
        return true;
    }
    assert(info_ok(data@, s as int));
    let hs = le32_at(data, s + 4);
    if hs >= 0x24 {
        if n - s < 36 {
            return false;
        }
        let u0 = le32_at(data, s + 28);
        let u1 = le32_at(data, s + 32);
        assert(u0 as int == uni_off(data@, s as int, 0));
        assert(u1 as int == uni_off(data@, s as int, 1));
        (u0 == 0 || u0 <= (n - s) as u64) && (u1 == 0 || u1 <= (n - s) as u64)
    } else {
        assert(uni_off(data@, s as int, 0) == 0);
        assert(uni_off(data@, s as int, 1) == 0);
        true
    }
}

/// Reads the target of a `.lnk` shortcut from its bytes.
#[verifier::rlimit(40)]
pub fn get_lnk_target(data: &[u8]) -> (r: Option<String>)
    requires
        lnk_readable(data@),
    ensures
        opt_chars(r) == lnk_target_spec(data@),
{
    if !has_link_header(data) {
        return None;
    }
    let n = data.len();
    let flags = le32_at(data, 20);
    let unicode = bit_of(flags, 7);
    let mut offset: usize = 76;
    if bit_of(flags, 0) {
        if n < 78 {
            return None;
        }
        offset = 78 + le16_at(data, 76) as usize;
    }
    assert(info_start(data@) == Some(offset as int));
    let read_info = bit_of(flags, 1) && !bit_of(flags, 8) && offset <= n && n - offset >= 4;
    let mut from_info: Option<String> = None;
    if read_info {
        let size = le32_at(data, offset);
        if size <= (n - offset) as u64 && size >= 0x1C {
            from_info = info_target_exec(data, offset);
        }
        if size > (n - offset) as u64 {
            return None;
        }
        offset = offset + size as usize;
    }
    if let Some(t) = from_info {
        return Some(t);
    }
    if bit_of(flags, 2) {
        match read_string_data(data, offset, unicode) {
            Some(p) => {
                offset = p.1;
            },
            None => {
                return None;
            },
        }
    }
    let has_rel = bit_of(flags, 3);
    if has_rel {
        match read_string_data(data, offset, unicode) {
            Some(p) => {
                offset = p.1;
                let pc = chars_of(p.0.as_str());
                if pc.len() > 0 {
                    return Some(p.0);
                }
            },
            None => {
                return None;
            },
        }
    }
    if bit_of(flags, 4) {
        match read_string_data(data, offset, unicode) {
            Some(p) => {
                let pc = chars_of(p.0.as_str());
                if pc.len() > 0 {
                    return Some(p.0);
                }
                None
            },
            None => None,
        }
    } else {
        None
    }
}

} // verus!
