//! Which entries `ls` shows and in what order.

use vstd::prelude::*;
use crate::ls::links::LinkType;
use crate::ls::scanner::{ItemInfo, wrap_i64};
use crate::ls::display::{
    extension_of, dotted_extension, dotted_ext, Formatter, maybe_colored, colored, colored_spec,
    file_name_spec, size_column_spec, link_target_spec, item_color_spec, file_name_of, file_name_exec,
    lemma_dotted_ext_len, maybe_color,
};
use crate::datetime::timestamp_spec;
use crate::aspkg::locate::{parent_dir, parent_of};
use crate::text::pad_left_with;
use crate::text::{
    chars_of, chars_lt, lowercase, str_eq, str_lt, to_lower, lemma_str_lt_irrefl, lemma_str_lt_asym,
    lemma_str_lt_total, lemma_str_lt_trans, trim_seq, trim_chars, string_of, is_suffix, ends_with,
    utf8_len_capped, i64_text, parse_i64, push_str,
};
use crate::aspkg::locate::texts;
use crate::order::{stably_sorted, stable_sort_by, weak_order};
use vstd::utf8::encode_utf8;

verus! {

/// The orders `ls` sorts by (`-s`).
#[derive(PartialEq, Eq, Structural, Clone, Copy, Debug)]
pub enum SortKey {
    /// Folders first, then by name.
    Default,
    /// By name, ignoring case.
    Name,
    /// By extension, then by name.
    Suffix,
    /// Folders first, then largest first.
    Size,
    /// Oldest creation time first.
    Create,
    /// Oldest modification time first.
    Update,
}

/// The order named by the `-s` value (anything unknown is the default order).
pub open spec fn sort_key_spec(s: Seq<char>) -> SortKey {
    if s == "name"@ {
        SortKey::Name
    } else if s == "suffix"@ {
        SortKey::Suffix
    } else if s == "size"@ {
        SortKey::Size
    } else if s == "create"@ {
        SortKey::Create
    } else if s == "update"@ {
        SortKey::Update
    } else {
        SortKey::Default
    }
}

pub fn sort_key_of(s: &str) -> (r: SortKey)
    ensures
        r == sort_key_spec(s@),
{
    if str_eq(s, "name") {
        SortKey::Name
    } else if str_eq(s, "suffix") {
        SortKey::Suffix
    } else if str_eq(s, "size") {
        SortKey::Size
    } else if str_eq(s, "create") {
        SortKey::Create
    } else if str_eq(s, "update") {
        SortKey::Update
    } else {
        SortKey::Default
    }
}

/// A folder, or a link that stands for one.
pub open spec fn dirish(item: ItemInfo) -> bool {
    item.is_dir || item.link_type == LinkType::Symlink || item.link_type == LinkType::Junction
}

pub fn is_dirish(item: &ItemInfo) -> (r: bool)
    ensures
        r == dirish(*item),
{
    item.is_dir || item.link_type == LinkType::Symlink || item.link_type == LinkType::Junction
}

/// The lower-cased name.
pub open spec fn name_key(item: ItemInfo) -> Seq<char> {
    lowercase(item.name@)
}

/// The lower-cased extension (empty when there is none).
pub open spec fn ext_key(item: ItemInfo) -> Seq<char> {
    match extension_of(item.name@) {
        Some(e) => lowercase(e),
        None => Seq::empty(),
    }
}

/// A time in seconds, unknown ones counted as zero.
pub open spec fn time_key(t: Option<u64>) -> int {
    match t {
        Some(s) => wrap_i64(s),
        None => 0,
    }
}

/// `a` goes strictly before `b` in order `k`.
pub open spec fn item_lt(a: ItemInfo, b: ItemInfo, k: SortKey) -> bool {
    match k {
        SortKey::Name => str_lt(name_key(a), name_key(b)),
        SortKey::Suffix => str_lt(ext_key(a), ext_key(b)) || (ext_key(a) == ext_key(b) && str_lt(
            name_key(a),
            name_key(b),
        )),
        SortKey::Size => if dirish(a) != dirish(b) {
            dirish(a)
        } else {
            b.size < a.size
        },
        SortKey::Create => time_key(a.create_time) < time_key(b.create_time),
        SortKey::Update => time_key(a.modify_time) < time_key(b.modify_time),
        SortKey::Default => if dirish(a) != dirish(b) {
            dirish(a)
        } else {
            str_lt(name_key(a), name_key(b))
        },
    }
}

proof fn lemma_str_order(x: Seq<char>, y: Seq<char>, z: Seq<char>)
    ensures
        !str_lt(x, x),
        str_lt(x, y) ==> !str_lt(y, x),
        str_lt(x, y) && str_lt(y, z) ==> str_lt(x, z),
        !str_lt(x, y) && !str_lt(y, z) ==> !str_lt(x, z),
        !str_lt(x, y) && !str_lt(y, x) ==> x == y,
{
    lemma_str_lt_irrefl(x);
    lemma_str_lt_asym(x, y);
    lemma_str_lt_asym(x, z);
    lemma_str_lt_total(x, y);
    lemma_str_lt_total(y, z);
    lemma_str_lt_total(x, z);
    if str_lt(x, y) && str_lt(y, z) {
        lemma_str_lt_trans(x, y, z);
    }
    if !str_lt(x, y) && !str_lt(y, z) && x != y && y != z {
        lemma_str_lt_trans(z, y, x);
    }
}

/// Each order is a strict weak order: irreflexive, asymmetric, transitive,
/// and entries that neither precedes are interchangeable in it.
pub proof fn lemma_item_order(a: ItemInfo, b: ItemInfo, c: ItemInfo, k: SortKey)
    ensures
        !item_lt(a, a, k),
        item_lt(a, b, k) ==> !item_lt(b, a, k),
        item_lt(a, b, k) && item_lt(b, c, k) ==> item_lt(a, c, k),
        !item_lt(a, b, k) && !item_lt(b, c, k) ==> !item_lt(a, c, k),
{
    lemma_str_order(name_key(a), name_key(b), name_key(c));
    lemma_str_order(ext_key(a), ext_key(b), ext_key(c));
    lemma_str_order(name_key(b), name_key(a), name_key(c));
    lemma_str_order(ext_key(b), ext_key(a), ext_key(c));
    lemma_str_order(name_key(a), name_key(c), name_key(b));
    lemma_str_order(ext_key(a), ext_key(c), ext_key(b));
    lemma_str_order(name_key(b), name_key(c), name_key(a));
    lemma_str_order(ext_key(b), ext_key(c), ext_key(a));
    lemma_str_order(name_key(c), name_key(a), name_key(b));
    lemma_str_order(ext_key(c), ext_key(a), ext_key(b));
    lemma_str_order(name_key(c), name_key(b), name_key(a));
    lemma_str_order(ext_key(c), ext_key(b), ext_key(a));
}

fn name_lower(item: &ItemInfo) -> (r: Vec<char>)
    ensures
        r@ == name_key(*item),
{
    let l = to_lower(item.name.as_str());
    chars_of(l.as_str())
}

fn ext_lower(item: &ItemInfo) -> (r: Vec<char>)
    ensures
        r@ == ext_key(*item),
{
    let d = dotted_extension(item.name.as_str());
    let dc = chars_of(d.as_str());
    if dc.len() == 0 {
        assert(extension_of(item.name@) is None);
        Vec::new()
    } else {
        let mut e = String::new();
        let mut i: usize = 1;
        while i < dc.len()
            invariant
                1 <= i <= dc.len(),
                e@ == dc@.subrange(1, i as int),
            decreases dc.len() - i,
        {
            crate::text::push_char(&mut e, dc[i]);
            assert(dc@.subrange(1, i + 1) =~= dc@.subrange(1, i as int).push(dc@[i as int]));
            i += 1;
        }
        assert(e@ =~= extension_of(item.name@).unwrap());
        let l = to_lower(e.as_str());
        chars_of(l.as_str())
    }
}

fn time_of(t: Option<u64>) -> (r: i64)
    ensures
        r as int == time_key(t),
{
    match t {
        Some(s) => crate::ls::scanner::to_i64_wrapping(s),
        None => 0,
    }
}

/// Whether `a` goes strictly before `b` in order `k`.
pub fn item_less(a: &ItemInfo, b: &ItemInfo, k: SortKey) -> (r: bool)
    ensures
        r == item_lt(*a, *b, k),
{
    match k {
        SortKey::Name => {
            let na = name_lower(a);
            let nb = name_lower(b);
            chars_lt(na.as_slice(), nb.as_slice())
        },
        SortKey::Suffix => {
            let ea = ext_lower(a);
            let eb = ext_lower(b);
            if chars_lt(ea.as_slice(), eb.as_slice()) {
                true
            } else if crate::text::chars_eq(ea.as_slice(), eb.as_slice()) {
                let na = name_lower(a);
                let nb = name_lower(b);
                chars_lt(na.as_slice(), nb.as_slice())
            } else {
                false
            }
        },
        SortKey::Size => {
            let da = is_dirish(a);
            let db = is_dirish(b);
            if da != db {
                da
            } else {
                b.size < a.size
            }
        },
        SortKey::Create => time_of(a.create_time) < time_of(b.create_time),
        SortKey::Update => time_of(a.modify_time) < time_of(b.modify_time),
        SortKey::Default => {
            let da = is_dirish(a);
            let db = is_dirish(b);
            if da != db {
                da
            } else {
                let na = name_lower(a);
                let nb = name_lower(b);
                chars_lt(na.as_slice(), nb.as_slice())
            }
        },
    }
}

/// Order `k` as a relation.
pub open spec fn item_order(k: SortKey) -> spec_fn(ItemInfo, ItemInfo) -> bool {
    |a: ItemInfo, b: ItemInfo| item_lt(a, b, k)
}

/// `r` is `o` sorted stably by order `k` (what `slice::sort_by` gives).
pub open spec fn stable_sort_of(o: Seq<ItemInfo>, r: Seq<ItemInfo>, k: SortKey) -> bool {
    stably_sorted(o, r, item_order(k))
}

/// Sorts entries stably by order `k`.
pub fn sort_entries(items: Vec<ItemInfo>, k: SortKey) -> (r: Vec<ItemInfo>)
    ensures
        stable_sort_of(items@, r@, k),
{
    proof {
        let lt = item_order(k);
        assert forall|a: ItemInfo, b: ItemInfo| #[trigger] lt(a, b) implies !lt(b, a) by {
            lemma_item_order(a, b, a, k);
        }
        assert forall|a: ItemInfo, b: ItemInfo, c: ItemInfo| #![trigger lt(a, b), lt(b, c)]
            !lt(a, b) && !lt(b, c) implies !lt(a, c) by {
            lemma_item_order(a, b, c, k);
        }
    }
    let less = |a: &ItemInfo, b: &ItemInfo| -> (r: bool)
        ensures
            r == item_order(k)(*a, *b),
        { item_less(a, b, k) };
    stable_sort_by(items, less, Ghost(item_order(k)))
}

/// Sorts the entries in place by the order `sort` names (`slice::sort_by`,
/// which is stable).
pub fn sort_items(items: &mut Vec<ItemInfo>, sort: &str)
    ensures
        stable_sort_of(old(items)@, final(items)@, sort_key_spec(sort@)),
{
    let k = sort_key_of(sort);
    let mut v: Vec<ItemInfo> = Vec::new();
    std::mem::swap(items, &mut v);
    *items = sort_entries(v, k);
}

/// A quote character.
pub open spec fn is_quote(c: char) -> bool {
    c == '"' || c == '\''
}

/// `s` starts and ends with the same kind of quote.
pub open spec fn quoted(s: Seq<char>) -> bool {
    s.len() > 0 && ((s[0] == '"' && s.last() == '"') || (s[0] == '\'' && s.last() == '\''))
}

/// `s` with matching outer quotes taken off, again and again.
pub open spec fn unquote(s: Seq<char>) -> Seq<char>
    decreases s.len(),
{
    if quoted(s) && s.len() >= 2 {
        unquote(s.subrange(1, s.len() - 1))
    } else {
        s
    }
}

/// Taking off outer quotes reaches a lone quote character, which cannot be
/// sliced off (the tools panic there).
pub open spec fn unquote_fails(s: Seq<char>) -> bool
    decreases s.len(),
{
    if quoted(s) {
        if s.len() < 2 {
            true
        } else {
            unquote_fails(s.subrange(1, s.len() - 1))
        }
    } else {
        false
    }
}

/// `s` without trailing quote characters.
pub open spec fn trim_end_quotes(s: Seq<char>) -> Seq<char>
    decreases s.len(),
{
    if s.len() > 0 && is_quote(s.last()) {
        trim_end_quotes(s.drop_last())
    } else {
        s
    }
}

/// `s` without trailing backslashes, kept while it is over three bytes long.
pub open spec fn trim_end_backslashes(s: Seq<char>) -> Seq<char>
    decreases s.len(),
{
    if encode_utf8(s).len() > 3 && s.len() > 0 && s.last() == '\\' {
        trim_end_backslashes(s.drop_last())
    } else {
        s
    }
}

/// A path argument as the tools clean it: trimmed, outer quotes taken off,
/// trailing quotes dropped.
pub open spec fn unquoted_arg(raw: Seq<char>) -> Seq<char> {
    trim_end_quotes(unquote(trim_seq(raw)))
}

/// The directory argument of `ls`, cleaned: also without trailing
/// backslashes past the third byte.
pub open spec fn ls_path_arg(raw: Seq<char>) -> Seq<char> {
    trim_end_backslashes(unquoted_arg(raw))
}

fn quoted_range(t: &[char], a: usize, b: usize) -> (r: bool)
    requires
        a <= b <= t.len(),
    ensures
        r == quoted(t@.subrange(a as int, b as int)),
{
    if b == a {
        false
    } else {
        (t[a] == '"' && t[b - 1] == '"') || (t[a] == '\'' && t[b - 1] == '\'')
    }
}

proof fn lemma_unquote_step(s: Seq<char>)
    requires
        quoted(s),
        !unquote_fails(s),
    ensures
        s.len() >= 2,
        unquote(s) == unquote(s.subrange(1, s.len() - 1)),
        !unquote_fails(s.subrange(1, s.len() - 1)),
{
}

/// Bounds of `t` once outer quotes are taken off.
fn unquote_bounds(t: &[char]) -> (r: (usize, usize))
    requires
        !unquote_fails(t@),
    ensures
        r.0 <= r.1 <= t.len(),
        t@.subrange(r.0 as int, r.1 as int) == unquote(t@),
{
    let mut a: usize = 0;
    let mut b: usize = t.len();
    assert(t@.subrange(0, t.len() as int) =~= t@);
    while b > a && quoted_range(t, a, b)
        invariant
            a <= b <= t.len(),
            unquote(t@.subrange(a as int, b as int)) == unquote(t@),
            !unquote_fails(t@.subrange(a as int, b as int)),
        decreases b - a,
    {
        proof {
            lemma_unquote_step(t@.subrange(a as int, b as int));
            assert(t@.subrange(a as int, b as int).subrange(1, b - a - 1) =~= t@.subrange(a + 1, b - 1));
        }
        a += 1;
        b -= 1;
    }
    (a, b)
}

/// End of `t[a..b]` once trailing quotes are dropped.
fn trailing_quotes_end(t: &[char], a: usize, b: usize) -> (e: usize)
    requires
        a <= b <= t.len(),
    ensures
        a <= e <= b,
        t@.subrange(a as int, e as int) == trim_end_quotes(t@.subrange(a as int, b as int)),
{
    let mut e = b;
    while e > a && (t[e - 1] == '"' || t[e - 1] == '\'')
        invariant
            a <= e <= b,
            b <= t.len(),
            trim_end_quotes(t@.subrange(a as int, e as int)) == trim_end_quotes(t@.subrange(a as int, b as int)),
        decreases e,
    {
        assert(t@.subrange(a as int, e as int).drop_last() =~= t@.subrange(a as int, e - 1));
        e -= 1;
    }
    e
}

/// Whether cleaning this path argument would reach a lone quote character
/// (where the tools panic).
pub fn unquote_fails_on(raw: &str) -> (r: bool)
    ensures
        r == unquote_fails(trim_seq(raw@)),
{
    let c = chars_of(raw);
    let t = trim_chars(c.as_slice());
    let mut a: usize = 0;
    let mut b: usize = t.len();
    assert(t@.subrange(0, t.len() as int) =~= t@);
    while b > a && quoted_range(t.as_slice(), a, b)
        invariant
            a <= b <= t.len(),
            unquote_fails(t@.subrange(a as int, b as int)) == unquote_fails(t@),
            t@ == trim_seq(raw@),
        decreases b - a,
    {
        if b - a < 2 {
            assert(unquote_fails(t@.subrange(a as int, b as int)));
            return true;
        }
        assert(t@.subrange(a as int, b as int).subrange(1, b - a - 1) =~= t@.subrange(a + 1, b - 1));
        a += 1;
        b -= 1;
    }
    false
}

/// Trims a path argument and takes off its quotes.
pub fn unquote_arg(raw: &str) -> (r: Vec<char>)
    requires
        !unquote_fails(trim_seq(raw@)),
    ensures
        r@ == unquoted_arg(raw@),
{
    let c = chars_of(raw);
    let t = trim_chars(c.as_slice());
    let (a, b) = unquote_bounds(t.as_slice());
    let e = trailing_quotes_end(t.as_slice(), a, b);
    let mut r: Vec<char> = Vec::new();
    let mut i = a;
    while i < e
        invariant
            a <= i <= e,
            e <= t.len(),
            r@ == t@.subrange(a as int, i as int),
        decreases e - i,
    {
        r.push(t[i]);
        i += 1;
    }
    r
}

/// Cleans the directory argument of `ls`.
pub fn sanitize_path(raw: &str) -> (r: String)
    requires
        !unquote_fails(trim_seq(raw@)),
    ensures
        r@ == ls_path_arg(raw@),
{
    let mut v = unquote_arg(raw);
    while utf8_len_capped(v.as_slice(), 4) == 4 && v.len() > 0 && v[v.len() - 1] == '\\'
        invariant
            trim_end_backslashes(v@) == ls_path_arg(raw@),
        decreases v.len(),
    {
        v.pop();
    }
    string_of(v.as_slice())
}

/// `name` ends with `ext`, both lower-cased.
pub open spec fn has_ext_ci(name: Seq<char>, ext: Seq<char>) -> bool {
    is_suffix(lowercase(ext), lowercase(name))
}

/// `name` ends with one of `exts`, ignoring case.
pub open spec fn any_ext(name: Seq<char>, exts: Seq<Seq<char>>) -> bool {
    exists|i: int| 0 <= i < exts.len() && has_ext_ci(name, #[trigger] exts[i])
}

fn any_ext_of(name: &str, exts: &[String]) -> (r: bool)
    ensures
        r == any_ext(name@, texts(exts@)),
{
    let n = to_lower(name);
    let nc = chars_of(n.as_str());
    let mut i: usize = 0;
    while i < exts.len()
        invariant
            i <= exts.len(),
            nc@ == lowercase(name@),
            forall|j: int| 0 <= j < i ==> !has_ext_ci(name@, #[trigger] texts(exts@)[j]),
        decreases exts.len() - i,
    {
        let e = to_lower(exts[i].as_str());
        let ec = chars_of(e.as_str());
        if ends_with(nc.as_slice(), ec.as_slice()) {
            assert(has_ext_ci(name@, texts(exts@)[i as int]));
            return true;
        }
        i += 1;
    }
    false
}

/// An entry that the listing keeps: no excluded extension; with an include
/// list, a folder or an included extension; only files, or else only
/// folder-like entries, when asked.
pub open spec fn listed(
    item: ItemInfo,
    excludes: Seq<Seq<char>>,
    includes: Seq<Seq<char>>,
    only_files: bool,
    only_dirs: bool,
) -> bool {
    &&& !any_ext(item.name@, excludes)
    &&& (includes.len() == 0 || item.is_dir || any_ext(item.name@, includes))
    &&& (only_files ==> item.is_file)
    &&& (!only_files && only_dirs ==> dirish(item))
}

/// The entries of `items` that the listing keeps, in order.
pub open spec fn listed_items(
    items: Seq<ItemInfo>,
    excludes: Seq<Seq<char>>,
    includes: Seq<Seq<char>>,
    only_files: bool,
    only_dirs: bool,
) -> Seq<ItemInfo>
    decreases items.len(),
{
    if items.len() == 0 {
        Seq::empty()
    } else {
        let r = listed_items(items.drop_last(), excludes, includes, only_files, only_dirs);
        if listed(items.last(), excludes, includes, only_files, only_dirs) {
            r.push(items.last())
        } else {
            r
        }
    }
}

/// Keeps the entries that the listing shows.
pub fn filter_items(
    items: Vec<ItemInfo>,
    excludes: &[String],
    includes: &[String],
    only_files: bool,
    only_dirs: bool,
) -> (r: Vec<ItemInfo>)
    ensures
        r@ == listed_items(items@, texts(excludes@), texts(includes@), only_files, only_dirs),
{
    let ghost o = items@;
    let ghost ex = texts(excludes@);
    let ghost inc = texts(includes@);
    let mut rest = items;
    let mut out: Vec<ItemInfo> = Vec::new();
    let ghost mut n: int = 0;
    while rest.len() > 0
        invariant
            0 <= n <= o.len(),
            rest@ == o.skip(n),
            ex == texts(excludes@),
            inc == texts(includes@),
            out@ == listed_items(o.take(n), ex, inc, only_files, only_dirs),
        decreases rest.len(),
    {
        let x = rest.remove(0);
        proof {
            assert(x == o[n]);
            assert(rest@ =~= o.skip(n + 1));
            assert(o.take(n + 1).drop_last() =~= o.take(n));
            assert(o.take(n + 1).last() == x);
        }
        let keep = !any_ext_of(x.name.as_str(), excludes)
            && (includes.len() == 0 || x.is_dir || any_ext_of(x.name.as_str(), includes))
            && (!only_files || x.is_file)
            && (only_files || !only_dirs || is_dirish(&x));
        if keep {
            out.push(x);
        }
        proof {
            n = n + 1;
        }
    }
    assert(o.take(n) =~= o);
    out
}

/// The plain folders among `s` (not links), in order.
pub open spec fn plain_dirs(s: Seq<ItemInfo>) -> Seq<ItemInfo>
    decreases s.len(),
{
    if s.len() == 0 {
        Seq::empty()
    } else if s.last().is_dir && s.last().link_type == LinkType::Dir {
        plain_dirs(s.drop_last()).push(s.last())
    } else {
        plain_dirs(s.drop_last())
    }
}

/// The entries of `s` that are not folders, in order.
pub open spec fn non_dirs(s: Seq<ItemInfo>) -> Seq<ItemInfo>
    decreases s.len(),
{
    if s.len() == 0 {
        Seq::empty()
    } else if !s.last().is_dir {
        non_dirs(s.drop_last()).push(s.last())
    } else {
        non_dirs(s.drop_last())
    }
}

/// The entries a tree level shows: after the extension filters, plain
/// folders only, files only, or both merged and sorted by name.
pub open spec fn tree_level(
    items: Seq<ItemInfo>,
    excludes: Seq<Seq<char>>,
    includes: Seq<Seq<char>>,
    only_dirs: bool,
    only_files: bool,
    r: Seq<ItemInfo>,
) -> bool {
    let kept = listed_items(items, excludes, includes, false, false);
    if only_dirs {
        r == plain_dirs(kept)
    } else if only_files {
        r == non_dirs(kept)
    } else {
        stable_sort_of(plain_dirs(kept) + non_dirs(kept), r, SortKey::Name)
    }
}

fn split_kinds(kept: Vec<ItemInfo>) -> (r: (Vec<ItemInfo>, Vec<ItemInfo>))
    ensures
        r.0@ == plain_dirs(kept@),
        r.1@ == non_dirs(kept@),
{
    let ghost o = kept@;
    let mut rest = kept;
    let mut dirs: Vec<ItemInfo> = Vec::new();
    let mut files: Vec<ItemInfo> = Vec::new();
    let ghost mut n: int = 0;
    while rest.len() > 0
        invariant
            0 <= n <= o.len(),
            rest@ == o.skip(n),
            dirs@ == plain_dirs(o.take(n)),
            files@ == non_dirs(o.take(n)),
        decreases rest.len(),
    {
        let x = rest.remove(0);
        proof {
            assert(x == o[n]);
            assert(rest@ =~= o.skip(n + 1));
            assert(o.take(n + 1).drop_last() =~= o.take(n));
        }
        if x.is_dir {
            if x.link_type == LinkType::Dir {
                dirs.push(x);
            }
        } else {
            files.push(x);
        }
        proof {
            n = n + 1;
        }
    }
    assert(o.take(n) =~= o);
    (dirs, files)
}

/// The entries one level of `ls -t` shows.
pub fn tree_entries(
    items: Vec<ItemInfo>,
    excludes: &[String],
    includes: &[String],
    only_dirs: bool,
    only_files: bool,
) -> (r: Vec<ItemInfo>)
    ensures
        tree_level(items@, texts(excludes@), texts(includes@), only_dirs, only_files, r@),
{
    let kept = filter_items(items, excludes, includes, false, false);
    let (mut dirs, files) = split_kinds(kept);
    if only_dirs {
        dirs
    } else if only_files {
        files
    } else {
        let ghost d = dirs@;
        let mut merged = dirs;
        let mut fs = files;
        merged.append(&mut fs);
        assert(merged@ == d + files@);
        sort_entries(merged, SortKey::Name)
    }
}

/// The branch drawn before an entry of a tree level.
pub open spec fn connector_spec(is_last: bool) -> Seq<char> {
    if is_last { "└── "@ } else { "├── "@ }
}

pub fn tree_connector(is_last: bool) -> (r: &'static str)
    ensures
        r@ == connector_spec(is_last),
{
    if is_last { "└── " } else { "├── " }
}

/// What the next level's lines start with below an entry.
pub open spec fn child_prefix_spec(prefix: Seq<char>, is_last: bool) -> Seq<char> {
    prefix + (if is_last { "    "@ } else { "│   "@ })
}

pub fn tree_child_prefix(prefix: &str, is_last: bool) -> (r: String)
    ensures
        r@ == child_prefix_spec(prefix@, is_last),
{
    let mut s = String::from_str(prefix);
    crate::text::push_str(&mut s, if is_last { "    " } else { "│   " });
    s
}

/// Depth left below a level: one less when counted, unlimited (`-1`)
/// otherwise.
pub fn tree_child_depth(depth: i32) -> (r: i32)
    requires
        depth != 0,
    ensures
        r == (if depth > 0 { depth - 1 } else { -1 }),
{
    if depth > 0 { depth - 1 } else { -1 }
}

/// How `-t` is read: a number is the depth (over the given directory); any
/// other text is the directory, at unlimited depth (`-1`).
pub open spec fn tree_opt_spec(tree: Option<Seq<char>>, dir: Seq<char>) -> (int, Seq<char>) {
    match tree {
        Some(s) => if s.len() == 0 {
            (-1, dir)
        } else {
            match i64_text(s) {
                Some(n) => if i32::MIN <= n <= i32::MAX { (n, dir) } else { (-1, s) },
                None => (-1, s),
            }
        },
        None => (-1, dir),
    }
}

pub fn parse_tree_opt(tree: &Option<String>, dir: &str) -> (r: (i32, String))
    ensures
        (r.0 as int, r.1@) == tree_opt_spec(
            match tree {
                Some(s) => Some(s@),
                None => None,
            },
            dir@,
        ),
{
    match tree {
        Some(s) => {
            let c = chars_of(s.as_str());
            if c.len() == 0 {
                (-1, String::from_str(dir))
            } else {
                match parse_i64(c.as_slice()) {
                    Some(n) => if -0x8000_0000 <= n && n <= 0x7fff_ffff {
                        (n as i32, String::from_str(dir))
                    } else {
                        (-1, s.clone())
                    },
                    None => (-1, s.clone()),
                }
            }
        },
        None => (-1, String::from_str(dir)),
    }
}

/// The arrow column of a link.
pub open spec fn arrow_spec(f: Formatter, is_directory: bool) -> Seq<char> {
    if is_directory {
        maybe_colored(f.no_color, seq![' '] + f.config.dir_link_arrow@ + seq![' '], f.config.dir_link_arrow_color@)
    } else {
        maybe_colored(f.no_color, seq![' '] + f.config.file_link_arrow@ + seq![' '], f.config.file_link_arrow_color@)
    }
}

/// A link shown as one: a symbolic link or a junction.
pub open spec fn is_link(item: ItemInfo) -> bool {
    item.link_type == LinkType::Symlink || item.link_type == LinkType::Junction
}

/// The time `ls -s create` or `ls -s update` shows, zero when unknown.
pub open spec fn shown_secs(item: ItemInfo, key: Seq<char>) -> int {
    if key == "create"@ { time_key(item.create_time) } else { time_key(item.modify_time) }
}

/// The line of an entry, `t` being its time text: its `<dir>`/`<file>`
/// marker, the time when sorting by time, its name, its size (files, when
/// asked), and for links and shortcuts an arrow and the target.
/// (`target_is_dir` tells whether the target is a folder on disk.)
pub open spec fn item_line(
    f: Formatter,
    item: ItemInfo,
    right_align: bool,
    max_width: nat,
    show_size: bool,
    max_size_width: nat,
    key: Seq<char>,
    target_is_dir: bool,
    t: Seq<char>,
) -> Seq<char> {
    let shortcut = item.link_type == LinkType::Shortcut;
    let marker = maybe_colored(
        f.no_color,
        pad_left_with(if item.is_dir || is_link(item) { "<dir>"@ } else { "<file>"@ }, 7, ' ') + seq![' '],
        "90"@,
    );
    let show_time = key == "create"@ || key == "update"@;
    let time = if show_time { maybe_colored(f.no_color, t + seq![' '], "90"@) } else { Seq::empty() };
    let name = file_name_spec(f, item, right_align, max_width);
    let size = if show_size && !item.is_dir { size_column_spec(f, item, max_size_width) } else { Seq::empty() };
    let link = match item.link_target {
        Some(target) => if is_link(item) || shortcut {
            arrow_spec(f, item.is_dir) + link_target_spec(f, target@, shortcut, target_is_dir)
        } else {
            Seq::empty()
        },
        None => Seq::empty(),
    };
    marker + time + name + size + link
}

/// `r` is the line of an entry, with the entry's time rendered when shown.
pub open spec fn item_line_ok(
    f: Formatter,
    item: ItemInfo,
    right_align: bool,
    max_width: nat,
    show_size: bool,
    max_size_width: nat,
    key: Seq<char>,
    target_is_dir: bool,
    r: Seq<char>,
) -> bool {
    exists|t: Seq<char>|
        ((key == "create"@ || key == "update"@) ==> timestamp_spec(shown_secs(item, key), t)) && r
            == #[trigger] item_line(f, item, right_align, max_width, show_size, max_size_width, key, target_is_dir, t)
}

fn time_part(f: &Formatter, item: &ItemInfo, create: bool) -> (r: (String, Ghost<Seq<char>>))
    ensures
        timestamp_spec(if create { time_key(item.create_time) } else { time_key(item.modify_time) }, r.1@),
        r.0@ == maybe_colored(f.no_color, r.1@ + seq![' '], "90"@),
{
    let secs = if create { time_of(item.create_time) } else { time_of(item.modify_time) };
    let ts = f.print_timestamp(secs);
    let ghost t = choose|t: Seq<char>| timestamp_spec(secs as int, t) && ts@ == maybe_colored(f.no_color, t + seq![' '], "90"@);
    (ts, Ghost(t))
}

fn link_part(f: &Formatter, item: &ItemInfo, target_is_dir: bool) -> (r: String)
    ensures
        r@ == (match item.link_target {
            Some(t) => if is_link(*item) || item.link_type == LinkType::Shortcut {
                arrow_spec(*f, item.is_dir) + link_target_spec(*f, t@, item.link_type == LinkType::Shortcut, target_is_dir)
            } else {
                Seq::<char>::empty()
            },
            None => Seq::<char>::empty(),
        }),
{
    let link = item.link_type == LinkType::Symlink || item.link_type == LinkType::Junction;
    let shortcut = item.link_type == LinkType::Shortcut;
    let mut out = String::new();
    if link || shortcut {
        match &item.link_target {
            Some(target) => {
                let a = f.print_link_arrow(item.is_dir);
                let tg = f.print_link_target(target.as_str(), shortcut, target_is_dir);
                push_str(&mut out, a.as_str());
                push_str(&mut out, tg.as_str());
            },
            None => {},
        }
    }
    out
}

/// The line `ls` prints for an entry (without the notes on environment
/// folders).
pub fn format_item_line(
    f: &Formatter,
    item: &ItemInfo,
    right_align: bool,
    max_width: usize,
    show_size: bool,
    max_size_width: usize,
    sort_key: &str,
    target_is_dir: bool,
) -> (r: String)
    ensures
        item_line_ok(*f, *item, right_align, max_width as nat, show_size, max_size_width as nat, sort_key@, target_is_dir, r@),
{
    let link = item.link_type == LinkType::Symlink || item.link_type == LinkType::Junction;
    let mut line = if item.is_dir || link {
        f.print_type_marker("<dir>")
    } else {
        f.print_type_marker("<file>")
    };
    let ghost marker = line@;
    let create = str_eq(sort_key, "create");
    let update = str_eq(sort_key, "update");
    let ghost mut t: Seq<char> = Seq::empty();
    let ghost mut tp: Seq<char> = Seq::empty();
    if create || update {
        let (ts, Ghost(tt)) = time_part(f, item, create);
        proof {
            t = tt;
            tp = ts@;
        }
        push_str(&mut line, ts.as_str());
    }
    let name = f.print_file_name(item, right_align, max_width);
    push_str(&mut line, name.as_str());
    let ghost np = name@;
    let ghost mut sp: Seq<char> = Seq::empty();
    if show_size && !item.is_dir {
        let sz = f.print_size(item, max_size_width);
        proof {
            sp = sz@;
        }
        push_str(&mut line, sz.as_str());
    }
    let lk = link_part(f, item, target_is_dir);
    push_str(&mut line, lk.as_str());
    proof {
        assert(line@ =~= marker + tp + np + sp + lk@);
        let show_time = sort_key@ == "create"@ || sort_key@ == "update"@;
        assert(show_time == (create || update));
        assert(show_time ==> timestamp_spec(shown_secs(*item, sort_key@), t));
        assert(line@ == item_line(*f, *item, right_align, max_width as nat, show_size, max_size_width as nat, sort_key@, target_is_dir, t));
    }
    line
}

/// The parent part of a full path: the parent folder and a backslash in
/// gray (nothing for an empty or `.` parent).
pub open spec fn abs_head(p: Seq<char>) -> Seq<char> {
    match parent_dir(p) {
        Some(d) => if d.len() > 0 && d != "."@ { colored_spec(d + seq!['\\'], "90"@) } else { Seq::empty() },
        None => Seq::empty(),
    }
}

/// The name part of a full path: in the entry colour for folders and
/// links, else in white with the extension in its own colour.
pub open spec fn abs_body(f: Formatter, item: ItemInfo, name: Seq<char>) -> Seq<char> {
    if item.is_dir || is_link(item) {
        colored_spec(name, item_color_spec(f.config, item))
    } else {
        let ext = dotted_ext(name);
        if ext.len() == 0 {
            colored_spec(name, "37"@)
        } else {
            colored_spec(name.take(name.len() - ext.len()), "37"@) + match f.config.ext_color_spec(ext) {
                Some(ec) => colored_spec(ext, ec),
                None => ext,
            }
        }
    }
}

/// The target part of a full-path line: arrow and target when the entry
/// has one.
pub open spec fn abs_link(f: Formatter, item: ItemInfo, target_is_dir: bool) -> Seq<char> {
    match item.link_target {
        Some(t) => arrow_spec(f, item.is_dir) + link_target_spec(f, t@, item.link_type == LinkType::Shortcut, target_is_dir),
        None => Seq::empty(),
    }
}

/// The line of an entry in full-path mode, `raw` being its full path as the
/// system gives it: without colours just the path (`\\?\` prefixes
/// dropped); else the parent part, the name part and the target part.
pub open spec fn abs_line_spec(f: Formatter, item: ItemInfo, raw: Seq<char>, target_is_dir: bool) -> Seq<char> {
    let p = crate::ls::links::normalize_spec(raw);
    if f.no_color {
        p
    } else {
        let name = match file_name_of(p) {
            Some(n) => n,
            None => p,
        };
        abs_head(p) + abs_body(f, item, name) + abs_link(f, item, target_is_dir)
    }
}

fn abs_head_exec(pc: &[char]) -> (r: String)
    ensures
        r@ == abs_head(pc@),
{
    let mut line = String::new();
    match parent_of(pc) {
        Some(d) => {
            let ds = string_of(d.as_slice());
            proof {
                reveal_strlit(".");
            }
            if d.len() > 0 && !str_eq(ds.as_str(), ".") {
                let mut dd = ds.clone();
                crate::text::push_char(&mut dd, '\\');
                line = colored(dd.as_str(), "90");
            }
        },
        None => {},
    }
    line
}

fn abs_body_exec(f: &Formatter, item: &ItemInfo, name: &str) -> (r: String)
    ensures
        r@ == abs_body(*f, *item, name@),
{
    if item.is_dir || item.link_type == LinkType::Symlink || item.link_type == LinkType::Junction {
        let code = f.get_item_color(item);
        return colored(name, code.as_str());
    }
    let ext = dotted_extension(name);
    let ec = chars_of(ext.as_str());
    if ec.len() == 0 {
        return colored(name, "37");
    }
    let nc = chars_of(name);
    proof {
        lemma_dotted_ext_len(name@);
    }
    let keep = nc.len() - ec.len();
    let mut stem = String::new();
    let mut i: usize = 0;
    while i < keep
        invariant
            i <= keep <= nc.len(),
            stem@ == nc@.take(i as int),
        decreases keep - i,
    {
        crate::text::push_char(&mut stem, nc[i]);
        assert(nc@.take(i + 1) =~= nc@.take(i as int).push(nc@[i as int]));
        i += 1;
    }
    let mut line = colored(stem.as_str(), "37");
    match f.config.ext_color(ext.as_str()) {
        Some(x) => {
            let c2 = colored(ext.as_str(), x);
            push_str(&mut line, c2.as_str());
        },
        None => {
            push_str(&mut line, ext.as_str());
        },
    }
    line
}

fn abs_link_exec(f: &Formatter, item: &ItemInfo, target_is_dir: bool) -> (r: String)
    ensures
        r@ == abs_link(*f, *item, target_is_dir),
{
    match &item.link_target {
        Some(target) => {
            let mut a = f.print_link_arrow(item.is_dir);
            let tg = f.print_link_target(target.as_str(), item.link_type == LinkType::Shortcut, target_is_dir);
            push_str(&mut a, tg.as_str());
            a
        },
        None => String::new(),
    }
}

/// The line of an entry in full-path mode.
pub fn format_abs_line(f: &Formatter, item: &ItemInfo, raw: &str, target_is_dir: bool) -> (r: String)
    ensures
        r@ == abs_line_spec(*f, *item, raw@, target_is_dir),
{
    let p = crate::ls::links::normalize_path(raw);
    if f.no_color {
        return p;
    }
    let pc = chars_of(p.as_str());
    let mut line = abs_head_exec(pc.as_slice());
    let name = match file_name_exec(pc.as_slice()) {
        Some(n) => string_of(n.as_slice()),
        None => p.clone(),
    };
    let body = abs_body_exec(f, item, name.as_str());
    push_str(&mut line, body.as_str());
    let lk = abs_link_exec(f, item, target_is_dir);
    push_str(&mut line, lk.as_str());
    line
}

/// Which tool an environment folder's note asks: Python for `.venv`,
/// `venv`, `env`, `.env` or names starting with `python`; else Java for
/// names holding `jdk`, `jre` or `java`; else Node for names holding
/// `node` (lower-cased names).
#[derive(PartialEq, Eq, Structural, Clone, Copy, Debug)]
pub enum EnvProbe {
    Python,
    Java,
    Node,
    Nothing,
}

pub open spec fn env_probe_spec(lower: Seq<char>) -> EnvProbe {
    if lower == ".venv"@ || lower == "venv"@ || lower == "env"@ || lower == ".env"@ || crate::text::is_prefix(
        "python"@,
        lower,
    ) {
        EnvProbe::Python
    } else if crate::text::contains_seq(lower, "jdk"@) || crate::text::contains_seq(lower, "jre"@)
        || crate::text::contains_seq(lower, "java"@) {
        EnvProbe::Java
    } else if crate::text::contains_seq(lower, "node"@) {
        EnvProbe::Node
    } else {
        EnvProbe::Nothing
    }
}

/// The note probe for an entry: only plain folders (not links) get one.
pub fn env_probe(item: &ItemInfo) -> (r: EnvProbe)
    ensures
        r == (if item.is_dir && !is_link(*item) { env_probe_spec(lowercase(item.name@)) } else { EnvProbe::Nothing }),
{
    if !item.is_dir || item.link_type == LinkType::Symlink || item.link_type == LinkType::Junction {
        return EnvProbe::Nothing;
    }
    let l = to_lower(item.name.as_str());
    let lc = chars_of(l.as_str());
    let ls = l.as_str();
    let p = chars_of("python");
    if str_eq(ls, ".venv") || str_eq(ls, "venv") || str_eq(ls, "env") || str_eq(ls, ".env")
        || crate::text::starts_with(lc.as_slice(), p.as_slice()) {
        EnvProbe::Python
    } else if crate::text::contains(lc.as_slice(), chars_of("jdk").as_slice()) || crate::text::contains(
        lc.as_slice(),
        chars_of("jre").as_slice(),
    ) || crate::text::contains(lc.as_slice(), chars_of("java").as_slice()) {
        EnvProbe::Java
    } else if crate::text::contains(lc.as_slice(), chars_of("node").as_slice()) {
        EnvProbe::Node
    } else {
        EnvProbe::Nothing
    }
}

/// The name `ls --link` gives a kind of entry.
pub open spec fn link_type_name_spec(t: LinkType) -> Seq<char> {
    match t {
        LinkType::Symlink => "符号链接 (Symbolic Link)"@,
        LinkType::Junction => "目录连接点 (Junction)"@,
        LinkType::Shortcut => "快捷方式 (.lnk)"@,
        LinkType::Dir => "普通目录"@,
        LinkType::File => "普通文件"@,
        LinkType::Unknown => "未知类型"@,
    }
}

pub fn link_type_name(t: LinkType) -> (r: &'static str)
    ensures
        r@ == link_type_name_spec(t),
{
    match t {
        LinkType::Symlink => "符号链接 (Symbolic Link)",
        LinkType::Junction => "目录连接点 (Junction)",
        LinkType::Shortcut => "快捷方式 (.lnk)",
        LinkType::Dir => "普通目录",
        LinkType::File => "普通文件",
        LinkType::Unknown => "未知类型",
    }
}

} // verus!
