//! Recognising a downloaded file by its first bytes, and judging whether a
//! download is plausible.

use vstd::prelude::*;

verus! {

/// A file format recognised by its magic bytes.
#[derive(PartialEq, Eq, Structural, Clone, Copy, Debug)]
pub enum FileFormat {
    /// PE (exe, dll, msi).
    Pe,
    Zip,
    SevenZ,
    Rar,
    Gz,
    Xz,
    Bz2,
    /// ISO 9660 (`CD001`).
    Iso,
}

pub open spec fn extension_spec(f: FileFormat) -> Seq<char> {
    match f {
        FileFormat::Pe => ".exe"@,
        FileFormat::Zip => ".zip"@,
        FileFormat::SevenZ => ".7z"@,
        FileFormat::Rar => ".rar"@,
        FileFormat::Gz => ".gz"@,
        FileFormat::Xz => ".xz"@,
        FileFormat::Bz2 => ".bz2"@,
        FileFormat::Iso => ".iso"@,
    }
}

impl FileFormat {
    /// The usual extension, with its dot.
    pub fn extension(self) -> (r: &'static str)
        ensures
            r@ == extension_spec(self),
    {
        match self {
            FileFormat::Pe => ".exe",
            FileFormat::Zip => ".zip",
            FileFormat::SevenZ => ".7z",
            FileFormat::Rar => ".rar",
            FileFormat::Gz => ".gz",
            FileFormat::Xz => ".xz",
            FileFormat::Bz2 => ".bz2",
            FileFormat::Iso => ".iso",
        }
    }
}

/// The format the first bytes of a file (16 at most, `h` holding those that
/// were read) show; at least four bytes are needed.
pub open spec fn format_spec(h: Seq<u8>) -> Option<FileFormat> {
    if h.len() < 4 {
        None
    } else if h[0] == 0x4D && h[1] == 0x5A {
        Some(FileFormat::Pe)
    } else if h[0] == 0x50 && h[1] == 0x4B && h[2] == 0x03 && h[3] == 0x04 {
        Some(FileFormat::Zip)
    } else if h[0] == 0x37 && h[1] == 0x7A && h[2] == 0xBC && h[3] == 0xAF {
        Some(FileFormat::SevenZ)
    } else if h[0] == 0x52 && h[1] == 0x61 && h[2] == 0x72 && h[3] == 0x21 {
        Some(FileFormat::Rar)
    } else if h[0] == 0x1F && h[1] == 0x8B {
        Some(FileFormat::Gz)
    } else if h[0] == 0xFD && h[1] == 0x37 && h[2] == 0x7A && h[3] == 0x58 {
        Some(FileFormat::Xz)
    } else if h[0] == 0x42 && h[1] == 0x5A && h[2] == 0x68 {
        Some(FileFormat::Bz2)
    } else if h.len() >= 5 && h[0] == 0x43 && h[1] == 0x44 && h[2] == 0x30 && h[3] == 0x30 && h[4] == 0x31 {
        Some(FileFormat::Iso)
    } else {
        None
    }
}

/// The format shown by the first bytes of a file.
pub fn detect_format(header: &[u8]) -> (r: Option<FileFormat>)
    ensures
        r == format_spec(header@),
{
    let h = header;
    if h.len() < 4 {
        return None;
    }
    if h[0] == 0x4D && h[1] == 0x5A {
        return Some(FileFormat::Pe);
    }
    if h[0] == 0x50 && h[1] == 0x4B && h[2] == 0x03 && h[3] == 0x04 {
        return Some(FileFormat::Zip);
    }
    if h[0] == 0x37 && h[1] == 0x7A && h[2] == 0xBC && h[3] == 0xAF {
        return Some(FileFormat::SevenZ);
    }
    if h[0] == 0x52 && h[1] == 0x61 && h[2] == 0x72 && h[3] == 0x21 {
        return Some(FileFormat::Rar);
    }
    if h[0] == 0x1F && h[1] == 0x8B {
        return Some(FileFormat::Gz);
    }
    if h[0] == 0xFD && h[1] == 0x37 && h[2] == 0x7A && h[3] == 0x58 {
        return Some(FileFormat::Xz);
    }
    if h[0] == 0x42 && h[1] == 0x5A && h[2] == 0x68 {
        return Some(FileFormat::Bz2);
    }
    if h.len() >= 5 && h[0] == 0x43 && h[1] == 0x44 && h[2] == 0x30 && h[3] == 0x30 && h[4] == 0x31 {
        return Some(FileFormat::Iso);
    }
    None
}

/// `min(len, n)`.
pub open spec fn first_n(len: int, n: int) -> int {
    if len < n { len } else { n }
}

/// ASCII lower case of a byte.
pub open spec fn lower_byte(b: u8) -> u8 {
    if 0x41 <= b && b <= 0x5A { (b + 32) as u8 } else { b }
}

/// `p` starts the lowered bytes `h`.
pub open spec fn lowered_starts(h: Seq<u8>, p: Seq<u8>) -> bool {
    p.len() <= h.len() && forall|i: int| 0 <= i < p.len() ==> lower_byte(h[i]) == p[i]
}

/// The first 100 bytes look like an HTML error page: they start with
/// `<html`, `<!doctype` or `<!`, or with `<` and have a `>` among them.
pub open spec fn looks_like_html(head: Seq<u8>) -> bool {
    let h = head.take(first_n(head.len() as int, 100));
    lowered_starts(h, seq![0x3cu8, 0x68, 0x74, 0x6d, 0x6c]) || lowered_starts(h, seq![0x3cu8, 0x21])
        || (h.len() > 0 && h[0] == 0x3c && exists|i: int| 0 <= i < h.len() && h[i] == 0x3e)
}

/// A download is plausible when it is not an HTML page and, if its format
/// is known, it is big enough for it (PE 512 KiB, archives 4 KiB, ISO 1 MiB);
/// otherwise at least 100 bytes were read and it has 1 KiB.
pub open spec fn plausible_spec(size: u64, head: Seq<u8>) -> bool {
    !looks_like_html(head) && match format_spec(head.take(first_n(head.len() as int, 16))) {
        Some(FileFormat::Pe) => size >= 524288,
        Some(FileFormat::Iso) => size >= 1048576,
        Some(_) => size >= 4096,
        None => head.len() >= 100 && size >= 1024,
    }
}

fn lower_u8(b: u8) -> (r: u8)
    ensures
        r == lower_byte(b),
{
    if 0x41 <= b && b <= 0x5A { b + 32 } else { b }
}

fn starts_lowered(h: &[u8], n: usize, p: &[u8]) -> (r: bool)
    requires
        n <= h.len(),
    ensures
        r == lowered_starts(h@.take(n as int), p@),
{
    if p.len() > n {
        return false;
    }
    let mut i: usize = 0;
    while i < p.len()
        invariant
            i <= p.len() <= n <= h.len(),
            forall|k: int| 0 <= k < i ==> lower_byte(h@[k]) == p@[k],
        decreases p.len() - i,
    {
        if lower_u8(h[i]) != p[i] {
            assert(h@.take(n as int)[i as int] == h@[i as int]);
            return false;
        }
        i += 1;
    }
    true
}

/// Whether a downloaded file of `size` bytes whose first bytes are `head`
/// (up to 4 KiB, as read) is plausible.
pub fn verify_downloaded_file(size: u64, head: &[u8]) -> (r: bool)
    ensures
        r == plausible_spec(size, head@),
{
    let n: usize = if head.len() < 100 { head.len() } else { 100 };
    let html: [u8; 5] = [0x3c, 0x68, 0x74, 0x6d, 0x6c];
    let bang: [u8; 2] = [0x3c, 0x21];
    assert(html@ =~= seq![0x3cu8, 0x68, 0x74, 0x6d, 0x6c]);
    assert(bang@ =~= seq![0x3cu8, 0x21]);
    if starts_lowered(head, n, &html) || starts_lowered(head, n, &bang) {
        return false;
    }
    if n > 0 && head[0] == 0x3c {
        let mut i: usize = 0;
        while i < n
            invariant
                i <= n <= head.len(),
                n as int == first_n(head@.len() as int, 100),
                n > 0 && head@[0] == 0x3c,
                forall|k: int| 0 <= k < i ==> head@[k] != 0x3e,
            decreases n - i,
        {
            if head[i] == 0x3e {
                assert(head@.take(n as int)[i as int] == 0x3e);
                return false;
            }
            i += 1;
        }
    }
    let m: usize = if head.len() < 16 { head.len() } else { 16 };
    let mut first: Vec<u8> = Vec::new();
    let mut k: usize = 0;
    while k < m
        invariant
            k <= m <= head.len(),
            first@ == head@.take(k as int),
        decreases m - k,
    {
        first.push(head[k]);
        assert(head@.take(k + 1) =~= head@.take(k as int).push(head@[k as int]));
        k += 1;
    }
    match detect_format(first.as_slice()) {
        Some(FileFormat::Pe) => size >= 524288,
        Some(FileFormat::Iso) => size >= 1048576,
        Some(_) => size >= 4096,
        None => head.len() >= 100 && size >= 1024,
    }
}

} // verus!
