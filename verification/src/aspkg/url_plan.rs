//! What `as install <url>` makes of a download URL: the file name, its
//! extension, whether it is a media or document file (only downloaded), the
//! program name guessed from it, and the install kind.

use vstd::prelude::*;
use crate::text::{chars_of, lowercase, to_lower, string_of, str_eq, push_str};
use crate::glob::{split_char, split_chars, views};
use crate::aspkg::install::{url_filename, url_filename_spec};
use crate::ls::display::{extension_of, last_dot_exec};

verus! {

/// Whether `c` is alphanumeric (`char::is_alphanumeric`: alphabetic or
/// numeric in Unicode).
pub uninterp spec fn alphanumeric(c: char) -> bool;

/// Calls `char::is_alphanumeric`; the result is named `alphanumeric`. Among
/// ASCII characters exactly the letters and digits are alphanumeric.
#[verifier::external_body]
fn is_alnum(c: char) -> (r: bool)
    ensures
        r == alphanumeric(c),
        (c as u32) < 128 ==> r == (('a' <= c && c <= 'z') || ('A' <= c && c <= 'Z') || ('0' <= c && c <= '9')),
{
    c.is_alphanumeric()
}

/// `s` up to its first character that is not alphanumeric.
pub open spec fn alnum_head(s: Seq<char>) -> Seq<char>
    decreases s.len(),
{
    if s.len() == 0 {
        s
    } else if !alphanumeric(s[0]) {
        Seq::empty()
    } else {
        seq![s[0]] + alnum_head(s.drop_first())
    }
}

/// The guessed program name: the piece before the last `.` of the file name
/// (`app` when there is no dot), up to its first character that is not
/// alphanumeric.
pub open spec fn guessed_name(filename: Seq<char>) -> Seq<char> {
    let pieces = split_char(filename, '.');
    let piece = if pieces.len() >= 2 { pieces[pieces.len() - 2] } else { "app"@ };
    alnum_head(piece)
}

/// The lower-cased extension of the file name (of the empty text when it has
/// none).
pub open spec fn ext_lower(filename: Seq<char>) -> Seq<char> {
    lowercase(
        match extension_of(filename) {
            Some(e) => e,
            None => Seq::empty(),
        },
    )
}

/// Media and document files, which are only downloaded.
pub open spec fn media_ext(ext: Seq<char>) -> bool {
    ext == "mp4"@ || ext == "mp3"@ || ext == "pdf"@ || ext == "jpg"@ || ext == "png"@ || ext == "gif"@ || ext
        == "doc"@ || ext == "docx"@
}

/// Archives are portable installs.
pub open spec fn archive_ext(ext: Seq<char>) -> bool {
    ext == "zip"@ || ext == "7z"@ || ext == "rar"@
}

/// The install kind: archives portable, MSI packages installed, other files
/// portable when asked, else installed.
pub open spec fn url_kind(ext: Seq<char>, portable: bool) -> Seq<char> {
    if archive_ext(ext) {
        "portable"@
    } else if ext == "msi"@ {
        "installer"@
    } else if portable {
        "portable"@
    } else {
        "installer"@
    }
}

/// How the kind is described to the user before confirming.
pub open spec fn kind_note(ext: Seq<char>, portable: bool, installer_force: bool) -> Seq<char> {
    if archive_ext(ext) {
        "压缩包 → 便携版"@
    } else if ext == "msi"@ {
        "MSI 安装包 → 安装版"@
    } else {
        "可执行文件 → "@ + if portable {
            "便携版"@
        } else if installer_force {
            "安装版"@
        } else {
            "不确定 (请确认)"@
        }
    }
}

/// The plan for a URL install.
pub struct UrlPlan {
    pub filename: String,
    pub ext: String,
    pub media: bool,
    pub guessed: String,
    pub note: String,
    pub kind: String,
}

fn alnum_head_exec(s: &[char]) -> (r: Vec<char>)
    ensures
        r@ == alnum_head(s@),
{
    let mut i: usize = 0;
    let mut out: Vec<char> = Vec::new();
    assert(s@.skip(0) =~= s@);
    while i < s.len() && is_alnum(s[i])
        invariant
            i <= s.len(),
            out@ + alnum_head(s@.skip(i as int)) == alnum_head(s@),
        decreases s.len() - i,
    {
        assert(s@.skip(i as int).drop_first() =~= s@.skip(i + 1));
        assert(s@.skip(i as int)[0] == s@[i as int]);
        let ghost before = out@;
        out.push(s[i]);
        assert(before + alnum_head(s@.skip(i as int)) =~= out@ + alnum_head(s@.skip(i + 1)));
        i += 1;
    }
    proof {
        if i < s.len() {
            assert(s@.skip(i as int)[0] == s@[i as int]);
        }
        assert(alnum_head(s@.skip(i as int)) =~= Seq::<char>::empty());
        assert(out@ + Seq::<char>::empty() =~= out@);
    }
    out
}

fn str_in(s: &str, list: &[&str]) -> (r: bool)
    ensures
        r == exists|i: int| 0 <= i < list.len() && list@[i]@ == s@,
{
    let mut i: usize = 0;
    while i < list.len()
        invariant
            i <= list.len(),
            forall|j: int| 0 <= j < i ==> list@[j]@ != s@,
        decreases list.len() - i,
    {
        if str_eq(list[i], s) {
            return true;
        }
        i += 1;
    }
    false
}

/// Plans a URL install: `portable` and `installer_force` are the user's
/// flags.
pub fn url_install_plan(url: &str, portable: bool, installer_force: bool) -> (r: UrlPlan)
    ensures
        r.filename@ == url_filename_spec(url@),
        r.ext@ == ext_lower(url_filename_spec(url@)),
        r.media == media_ext(r.ext@),
        r.guessed@ == guessed_name(url_filename_spec(url@)),
        r.note@ == kind_note(r.ext@, portable, installer_force),
        r.kind@ == url_kind(r.ext@, portable),
{
    let filename = url_filename(url);
    let fc = chars_of(filename.as_str());
    let raw: String = match last_dot_exec(fc.as_slice()) {
        Some(k) => {
            if k == 0 || str_eq(filename.as_str(), "..") {
                String::new()
            } else {
                let mut v: Vec<char> = Vec::new();
                let mut i = k + 1;
                while i < fc.len()
                    invariant
                        k < i <= fc.len(),
                        v@ == fc@.subrange(k + 1, i as int),
                    decreases fc.len() - i,
                {
                    v.push(fc[i]);
                    assert(fc@.subrange(k + 1, i + 1) =~= fc@.subrange(k + 1, i as int).push(fc@[i as int]));
                    i += 1;
                }
                assert(fc@.subrange(k + 1, fc.len() as int) =~= fc@.skip(k + 1));
                string_of(v.as_slice())
            }
        },
        None => String::new(),
    };
    proof {
        reveal_strlit("..");
        assert(raw@ =~= match extension_of(filename@) {
            Some(e) => e,
            None => Seq::<char>::empty(),
        });
    }
    let ext = to_lower(raw.as_str());
    let media = str_in(ext.as_str(), &["mp4", "mp3", "pdf", "jpg", "png", "gif", "doc", "docx"]);
    proof {
        let l = ["mp4", "mp3", "pdf", "jpg", "png", "gif", "doc", "docx"];
        if media_ext(ext@) {
            if ext@ == "mp4"@ { assert(l@[0]@ == ext@); }
            else if ext@ == "mp3"@ { assert(l@[1]@ == ext@); }
            else if ext@ == "pdf"@ { assert(l@[2]@ == ext@); }
            else if ext@ == "jpg"@ { assert(l@[3]@ == ext@); }
            else if ext@ == "png"@ { assert(l@[4]@ == ext@); }
            else if ext@ == "gif"@ { assert(l@[5]@ == ext@); }
            else if ext@ == "doc"@ { assert(l@[6]@ == ext@); }
            else { assert(l@[7]@ == ext@); }
        }
    }
    let pieces = split_chars(fc.as_slice(), '.');
    let ghost pv = views(pieces@);
    let piece: Vec<char> = if pieces.len() >= 2 {
        assert(pv[pieces.len() - 2] == pieces@[pieces.len() - 2]@);
        let p = &pieces[pieces.len() - 2];
        let mut v: Vec<char> = Vec::new();
        let mut i: usize = 0;
        while i < p.len()
            invariant
                i <= p.len(),
                v@ == p@.take(i as int),
            decreases p.len() - i,
        {
            v.push(p[i]);
            assert(p@.take(i + 1) =~= p@.take(i as int).push(p@[i as int]));
            i += 1;
        }
        assert(p@.take(i as int) =~= p@);
        v
    } else {
        chars_of("app")
    };
    let guessed = string_of(alnum_head_exec(piece.as_slice()).as_slice());
    let archive = str_eq(ext.as_str(), "zip") || str_eq(ext.as_str(), "7z") || str_eq(ext.as_str(), "rar");
    let msi = str_eq(ext.as_str(), "msi");
    let note = if archive {
        String::from_str("压缩包 → 便携版")
    } else if msi {
        String::from_str("MSI 安装包 → 安装版")
    } else {
        let mut n = String::from_str("可执行文件 → ");
        push_str(&mut n, if portable { "便携版" } else if installer_force { "安装版" } else { "不确定 (请确认)" });
        n
    };
    let kind = if archive {
        String::from_str("portable")
    } else if msi {
        String::from_str("installer")
    } else if portable {
        String::from_str("portable")
    } else {
        String::from_str("installer")
    };
    UrlPlan { filename, ext, media, guessed, note, kind }
}

} // verus!
