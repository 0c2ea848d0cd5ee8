//! Source mirrors and the bookkeeping of a source update: which mirrors to
//! try, which files changed (by SHA-256), which local files are orphans.
//! Downloading and file access are the caller's.

use vstd::prelude::*;
use crate::environ::EnvVars;
use crate::text::{
    chars_of, contains, contains_seq, push_char, push_str, str_eq, u64_to_string, dec, display_width,
    str_width, is_suffix, ends_with,
};
use crate::aspkg::locate::texts;

verus! {

/// Source mirrors: a custom one (from `AMINOS_SOURCE_REPO`) and the built-in list.
pub struct SourceRepo {
    pub custom: Option<String>,
    pub builtin: Vec<String>,
}

/// `s` with `x` added at the end unless already there.
pub open spec fn push_unique(s: Seq<Seq<char>>, x: Seq<char>) -> Seq<Seq<char>> {
    if s.contains(x) { s } else { s.push(x) }
}

/// The first `n` built-in mirrors added after `start`, each once.
pub open spec fn merge_upto(start: Seq<Seq<char>>, b: Seq<Seq<char>>, n: int) -> Seq<Seq<char>>
    decreases n,
{
    if n <= 0 {
        start
    } else {
        push_unique(merge_upto(start, b, n - 1), b[n - 1])
    }
}

/// Mirrors in the order they are tried: the custom one, then the built-in
/// ones, without repeats.
pub open spec fn resolve_spec(custom: Option<Seq<char>>, b: Seq<Seq<char>>) -> Seq<Seq<char>> {
    let start = match custom {
        Some(c) => seq![c],
        None => Seq::empty(),
    };
    merge_upto(start, b, b.len() as int)
}

impl SourceRepo {
    /// Mirrors from the built-in list and `AMINOS_SOURCE_REPO` in `env`.
    pub fn new(builtin: Vec<String>, env: &EnvVars) -> (r: Self)
        ensures
            r.builtin@ == builtin@,
            match r.custom {
                Some(c) => env.lookup("AMINOS_SOURCE_REPO"@) == Some(c@),
                None => env.lookup("AMINOS_SOURCE_REPO"@) is None,
            },
    {
        let custom = env.get("AMINOS_SOURCE_REPO");
        SourceRepo { custom, builtin }
    }

    /// The mirrors to try, in order, each once.
    pub fn resolve(&self) -> (r: Vec<String>)
        ensures
            texts(r@) == resolve_spec(
                crate::aspkg::locate::opt_text(self.custom),
                texts(self.builtin@),
            ),
    {
        let ghost b = texts(self.builtin@);
        let ghost custom = crate::aspkg::locate::opt_text(self.custom);
        let mut out: Vec<String> = Vec::new();
        match &self.custom {
            Some(c) => out.push(c.clone()),
            None => {},
        }
        assert(texts(out@) =~= merge_upto(match custom { Some(c) => seq![c], None => Seq::<Seq<char>>::empty() }, b, 0));
        let mut i: usize = 0;
        while i < self.builtin.len()
            invariant
                i <= self.builtin.len(),
                b == texts(self.builtin@),
                texts(out@) == merge_upto(match custom { Some(c) => seq![c], None => Seq::<Seq<char>>::empty() }, b, i as int),
            decreases self.builtin.len() - i,
        {
            let x = &self.builtin[i];
            let mut found = false;
            let mut j: usize = 0;
            while j < out.len()
                invariant
                    j <= out.len(),
                    found == exists|k: int| 0 <= k < j && texts(out@)[k] == x@,
                decreases out.len() - j,
            {
                proof {
                    assert(texts(out@)[j as int] == out@[j as int]@);
                }
                if str_eq(out[j].as_str(), x.as_str()) {
                    found = true;
                }
                j += 1;
            }
            assert(found == texts(out@).contains(b[i as int]));
            if !found {
                let ghost before = texts(out@);
                out.push(x.clone());
                assert(texts(out@) =~= before.push(b[i as int]));
            }
            i += 1;
        }
        out
    }
}

proof fn lemma_merge_distinct(start: Seq<Seq<char>>, b: Seq<Seq<char>>, n: int)
    requires
        0 <= n <= b.len(),
        start.no_duplicates(),
    ensures
        merge_upto(start, b, n).no_duplicates(),
        forall|k: int| 0 <= k < n ==> merge_upto(start, b, n).contains(#[trigger] b[k]),
        forall|k: int| 0 <= k < start.len() ==> merge_upto(start, b, n)[k] == start[k],
        merge_upto(start, b, n).len() >= start.len(),
    decreases n,
{
    if n > 0 {
        lemma_merge_distinct(start, b, n - 1);
        let m = merge_upto(start, b, n - 1);
        if !m.contains(b[n - 1]) {
            assert forall|k: int| 0 <= k < n implies m.push(b[n - 1]).contains(#[trigger] b[k]) by {
                if k < n - 1 {
                    let w = choose|w: int| 0 <= w < m.len() && m[w] == b[k];
                    assert(m.push(b[n - 1])[w] == b[k]);
                } else {
                    assert(m.push(b[n - 1])[m.len() as int] == b[k]);
                }
            }
        }
    }
}

/// The mirrors tried never repeat, every built-in mirror is among them, and
/// the custom mirror, when set, is tried first.
pub proof fn resolve_is_ordered_and_unique(custom: Option<Seq<char>>, b: Seq<Seq<char>>)
    ensures
        resolve_spec(custom, b).no_duplicates(),
        forall|k: int| 0 <= k < b.len() ==> resolve_spec(custom, b).contains(#[trigger] b[k]),
        custom matches Some(c) ==> resolve_spec(custom, b)[0] == c,
{
    let start = match custom {
        Some(c) => seq![c],
        None => Seq::<Seq<char>>::empty(),
    };
    lemma_merge_distinct(start, b, b.len() as int);
    if custom is Some {
        assert(merge_upto(start, b, b.len() as int)[0] == start[0]);
    }
}

/// Lower-case hexadecimal digit of `d` (0..16).
pub open spec fn hex_digit(d: int) -> char {
    if d < 10 {
        ((d + 48) as u32) as char
    } else {
        ((d + 87) as u32) as char
    }
}

/// Lower-case hexadecimal text of bytes, two digits per byte.
pub open spec fn hex_spec(data: Seq<u8>) -> Seq<char>
    decreases data.len(),
{
    if data.len() == 0 {
        Seq::empty()
    } else {
        hex_spec(data.drop_last()) + seq![hex_digit(data.last() as int / 16), hex_digit(data.last() as int % 16)]
    }
}

fn hex_char(d: u8) -> (r: char)
    requires
        d < 16,
    ensures
        r == hex_digit(d as int),
{
    if d < 10 {
        (d + 48) as char
    } else {
        (d + 87) as char
    }
}

/// Bytes as lower-case hexadecimal text.
pub fn hex_encode(data: &[u8]) -> (r: String)
    ensures
        r@ == hex_spec(data@),
{
    let mut s = String::new();
    let mut i: usize = 0;
    while i < data.len()
        invariant
            i <= data.len(),
            s@ == hex_spec(data@.take(i as int)),
        decreases data.len() - i,
    {
        let b = data[i];
        push_char(&mut s, hex_char(b / 16));
        push_char(&mut s, hex_char(b % 16));
        assert(data@.take(i + 1).drop_last() =~= data@.take(i as int));
        assert(data@.take(i + 1).last() == b);
        i += 1;
    }
    assert(data@.take(data.len() as int) =~= data@);
    s
}

proof fn lemma_hex_len(data: Seq<u8>)
    ensures
        hex_spec(data).len() == 2 * data.len(),
    decreases data.len(),
{
    if data.len() > 0 {
        lemma_hex_len(data.drop_last());
    }
}

/// Hex text has two characters per byte.
pub proof fn hex_encode_length(data: Seq<u8>)
    ensures
        hex_spec(data).len() == 2 * data.len(),
{
    lemma_hex_len(data);
}

/// SHA-256 digest of `data`.
pub uninterp spec fn sha256_of(data: Seq<u8>) -> Seq<u8>;

/// Calls `ring::digest::digest` with `SHA256`; the result is named
/// `sha256_of` of the input and is 32 bytes long. Inputs of 2^60 bytes or
/// more (which the digest refuses by panicking well beyond that) are left out.
#[verifier::external_body]
fn sha256(data: &[u8]) -> (r: Vec<u8>)
    requires
        data@.len() < 0x1000_0000_0000_0000,
    ensures
        r@ == sha256_of(data@),
        r@.len() == 32,
{
    ring::digest::digest(&ring::digest::SHA256, data).as_ref().to_vec()
}

/// Lower-case hex SHA-256 of some content.
pub fn sha256_hex(data: &[u8]) -> (r: String)
    requires
        data@.len() < 0x1000_0000_0000_0000,
    ensures
        r@ == hex_spec(sha256_of(data@)),
        r@.len() == 64,
{
    let d = sha256(data);
    proof {
        lemma_hex_len(d@);
    }
    hex_encode(d.as_slice())
}

/// A file must be (re)downloaded when it is missing locally or its SHA-256
/// differs from the index.
pub fn needs_update(local: Option<&[u8]>, expected: &str) -> (r: bool)
    requires
        local matches Some(b) ==> b@.len() < 0x1000_0000_0000_0000,
    ensures
        r == match local {
            Some(b) => hex_spec(sha256_of(b@)) != expected@,
            None => true,
        },
{
    match local {
        Some(b) => {
            let h = sha256_hex(b);
            !str_eq(h.as_str(), expected)
        },
        None => true,
    }
}

/// `?v={ts}` for jsDelivr mirrors (to bypass their cache), else nothing.
pub open spec fn cache_bust_spec(repo: Seq<char>, ts: u64) -> Seq<char> {
    if contains_seq(repo, "jsdelivr"@) {
        "?v="@ + dec(ts as nat)
    } else {
        Seq::empty()
    }
}

/// The cache-busting query for a mirror.
pub fn cache_bust(repo: &str, ts: u64) -> (r: String)
    ensures
        r@ == cache_bust_spec(repo@, ts),
{
    let rc = chars_of(repo);
    let pat = chars_of("jsdelivr");
    if contains(rc.as_slice(), pat.as_slice()) {
        let mut s = String::from_str("?v=");
        let n = u64_to_string(ts);
        push_str(&mut s, n.as_str());
        s
    } else {
        String::new()
    }
}

/// `{repo}/{file}{bust}`: the URL of a file on a mirror.
pub fn file_url(repo: &str, file: &str, bust: &str) -> (r: String)
    ensures
        r@ == repo@ + seq!['/'] + file@ + bust@,
{
    let mut s = String::from_str(repo);
    push_char(&mut s, '/');
    push_str(&mut s, file);
    push_str(&mut s, bust);
    s
}

/// Bytes without a leading UTF-8 byte order mark.
pub open spec fn strip_bom_spec(b: Seq<u8>) -> Seq<u8> {
    if b.len() >= 3 && b[0] == 0xEF && b[1] == 0xBB && b[2] == 0xBF {
        b.skip(3)
    } else {
        b
    }
}

/// Drops a UTF-8 byte order mark from the start of the bytes.
pub fn strip_bom(b: &[u8]) -> (r: Vec<u8>)
    ensures
        r@ == strip_bom_spec(b@),
{
    let start: usize = if b.len() >= 3 && b[0] == 0xEF && b[1] == 0xBB && b[2] == 0xBF { 3 } else { 0 };
    let mut out: Vec<u8> = Vec::new();
    let mut i = start;
    while i < b.len()
        invariant
            start <= i <= b.len(),
            out@ == b@.subrange(start as int, i as int),
        decreases b.len() - i,
    {
        out.push(b[i]);
        assert(b@.subrange(start as int, i + 1) =~= b@.subrange(start as int, i as int).push(b@[i as int]));
        i += 1;
    }
    assert(b@.subrange(start as int, b.len() as int) =~= strip_bom_spec(b@));
    out
}

/// A local `.json` file that the index no longer lists (the index itself excepted).
pub open spec fn orphan_spec(name: Seq<char>, files: Seq<Seq<char>>) -> bool {
    is_suffix(".json"@, name) && name.len() > 5 && name != "index.json"@ && !files.contains(name)
}

/// Whether a local source file is to be deleted after an update.
pub fn is_orphan(name: &str, files: &Vec<String>) -> (r: bool)
    ensures
        r == orphan_spec(name@, texts(files@)),
{
    let nc = chars_of(name);
    let ext = chars_of(".json");
    if !(ends_with(nc.as_slice(), ext.as_slice()) && nc.len() > 5) {
        return false;
    }
    if str_eq(name, "index.json") {
        return false;
    }
    let mut i: usize = 0;
    while i < files.len()
        invariant
            i <= files.len(),
            forall|k: int| 0 <= k < i ==> texts(files@)[k] != name@,
        decreases files.len() - i,
    {
        if str_eq(files[i].as_str(), name) {
            assert(texts(files@)[i as int] == name@);
            return false;
        }
        i += 1;
    }
    true
}

/// `s` padded on the right with spaces to `w` terminal columns.
pub open spec fn pad_cols_spec(s: Seq<char>, w: nat) -> Seq<char> {
    if display_width(s) >= w {
        s
    } else {
        s + Seq::new((w - display_width(s)) as nat, |_i: int| ' ')
    }
}

/// Pads a file name to `w` columns, counting wide characters as two.
pub fn pad_left(s: &str, w: usize) -> (r: String)
    ensures
        r@ == pad_cols_spec(s@, w as nat),
{
    let dw = str_width(s);
    let mut out = String::from_str(s);
    if dw >= w {
        return out;
    }
    let n = w - dw;
    let mut i: usize = 0;
    while i < n
        invariant
            i <= n,
            out@ == s@ + Seq::new(i as nat, |_i: int| ' '),
        decreases n - i,
    {
        push_char(&mut out, ' ');
        assert(s@ + Seq::new((i + 1) as nat, |_i: int| ' ') =~= (s@ + Seq::new(i as nat, |_i: int| ' ')).push(' '));
        i += 1;
    }
    out
}

} // verus!
