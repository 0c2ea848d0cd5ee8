//! How `ls` renders an entry: type marker, time stamp, coloured name, link
//! arrow and target, and size.

use vstd::prelude::*;
use vstd::arithmetic::power2::{pow2, lemma_pow2_pos, lemma_pow2_unfold, lemma_pow2_adds, lemma_pow2_strictly_increases, lemma2_to64, lemma2_to64_rest};
use crate::text::{
    chars_of, dec, display_width, pad_left_with, pad_left_vec, push_char, push_str, push_all,
    str_eq, str_width, string_of, replace_all, replace_str, is_suffix, ends_with, repeat_char, is_ws,
};
use crate::datetime::{format_timestamp, timestamp_spec};
use crate::ls::config::{ColorConfig, SizeRule, rules_view};
use crate::ls::links::LinkType;
use crate::ls::scanner::ItemInfo;
use crate::aspkg::locate::{parent_dir, parent_of, trim_seps, is_sep};

verus! {

/// `ESC[{code}m{text}ESC[0m`.
pub open spec fn colored_spec(text: Seq<char>, code: Seq<char>) -> Seq<char> {
    seq!['\x1b', '['] + code + seq!['m'] + text + seq!['\x1b', '[', '0', 'm']
}

/// Text wrapped in an ANSI colour code.
pub fn colored(text: &str, code: &str) -> (r: String)
    ensures
        r@ == colored_spec(text@, code@),
{
    let mut s = String::new();
    push_char(&mut s, '\x1b');
    push_char(&mut s, '[');
    push_str(&mut s, code);
    push_char(&mut s, 'm');
    push_str(&mut s, text);
    push_char(&mut s, '\x1b');
    push_char(&mut s, '[');
    push_char(&mut s, '0');
    push_char(&mut s, 'm');
    assert(s@ =~= colored_spec(text@, code@));
    s
}

/// Number of binary digits of `n`.
pub open spec fn bits(n: nat) -> nat
    decreases n,
{
    if n == 0 { 0 } else { 1 + bits(n / 2) }
}

/// `a / d` rounded to the nearest integer, ties to even.
pub open spec fn round_even(a: nat, d: nat) -> nat {
    let q = a / d;
    let r = a % d;
    if 2 * r > d || (2 * r == d && q % 2 == 1) { q + 1 } else { q }
}

/// The `f64` nearest to `n` (ties to even): `n` itself below 2^53, else `n`
/// rounded to 53 significant bits.
pub open spec fn f64_value(n: nat) -> nat {
    if n < pow2(53) {
        n
    } else {
        let s = (bits(n) - 53) as nat;
        round_even(n, pow2(s)) * pow2(s)
    }
}

/// `{t/10}.{t%10}{unit}`: tenths as text with one decimal.
pub open spec fn tenths_text(t: nat, unit: Seq<char>) -> Seq<char> {
    dec(t / 10) + seq!['.'] + dec(t % 10) + unit
}

/// A file size as `ls` shows it: bytes below 1 KiB, else KB, MB or GB with
/// one decimal, as `{:.1}` prints the `f64` quotient (ties to even).
pub open spec fn format_size_spec(size: u64) -> Seq<char> {
    if size < 1024 {
        dec(size as nat) + "B"@
    } else if size < 1048576 {
        tenths_text(round_even(size as nat * 10, 1024), "KB"@)
    } else if size < 1073741824 {
        tenths_text(round_even(size as nat * 10, 1048576), "MB"@)
    } else {
        tenths_text(round_even(f64_value(size as nat) * 10, 1073741824), "GB"@)
    }
}

/// Decimal digits of a `u128`.
fn dec_u128(n: u128) -> (r: Vec<char>)
    ensures
        r@ == dec(n as nat),
    decreases n,
{
    if n < 10 {
        let c = ((n as u8) + 48) as char;
        let mut v: Vec<char> = Vec::new();
        v.push(c);
        assert(v@ =~= seq![crate::text::digit_char(n as nat)]);
        v
    } else {
        let mut v = dec_u128(n / 10);
        let d = n % 10;
        let c = ((d as u8) + 48) as char;
        v.push(c);
        v
    }
}

fn round_even_exec(a: u128, d: u128) -> (r: u128)
    requires
        d > 0,
        a < 0x1000_0000_0000_0000_0000_0000_0000_0000,
        d < 0x1000_0000_0000_0000_0000_0000_0000_0000,
    ensures
        r == round_even(a as nat, d as nat),
{
    let q = a / d;
    let rem = a % d;
    proof {
        assert(q <= a) by (nonlinear_arith)
            requires q == a / d, d > 0, a >= 0;
    }
    if 2 * rem > d || (2 * rem == d && q % 2 == 1) {
        q + 1
    } else {
        q
    }
}

proof fn lemma_bits_bound(n: nat)
    ensures
        n < pow2(bits(n)),
        n > 0 ==> pow2((bits(n) - 1) as nat) <= n,
    decreases n,
{
    if n > 0 {
        lemma_bits_bound(n / 2);
        lemma_pow2_unfold(bits(n));
        if n / 2 > 0 {
            lemma_pow2_unfold(bits(n / 2));
        } else {
            lemma2_to64();
        }
    } else {
        lemma2_to64();
    }
}

fn bit_len(n: u64) -> (r: u64)
    ensures
        r as nat == bits(n as nat),
        r <= 64,
{
    let mut x = n;
    let mut c: u64 = 0;
    proof {
        lemma_bits_bound(n as nat);
        lemma2_to64();
        if bits(n as nat) > 64 {
            lemma_pow2_strictly_increases(64, (bits(n as nat) - 1) as nat);
        }
    }
    while x > 0
        invariant
            bits(n as nat) == c + bits(x as nat),
            bits(n as nat) <= 64,
        decreases x,
    {
        x = x / 2;
        c = c + 1;
    }
    c
}

fn pow2_u128(k: u64) -> (r: u128)
    requires
        k <= 64,
    ensures
        r as nat == pow2(k as nat),
{
    let mut r: u128 = 1;
    let mut i: u64 = 0;
    proof {
        lemma2_to64();
    }
    while i < k
        invariant
            i <= k <= 64,
            r as nat == pow2(i as nat),
        decreases k - i,
    {
        proof {
            lemma_pow2_unfold(i as nat + 1);
            lemma2_to64();
            if i + 1 < 64 {
                lemma_pow2_strictly_increases(i as nat + 1, 64);
            }
        }
        r = r * 2;
        i = i + 1;
    }
    r
}

/// The `f64` nearest to `n`, as an integer.
fn f64_round(n: u64) -> (r: u128)
    ensures
        r as nat == f64_value(n as nat),
        r <= 0x1_0000_0000_0000_0000,
{
    proof {
        lemma2_to64_rest();
    }
    if n < 0x20_0000_0000_0000 {
        return n as u128;
    }
    let b = bit_len(n);
    proof {
        lemma_bits_bound(n as nat);
        if b < 54 {
            if b < 53 {
                lemma_pow2_strictly_increases(b as nat, 53);
            }
        }
    }
    let s = b - 53;
    let d = pow2_u128(s);
    proof {
        lemma_pow2_pos(s as nat);
        lemma2_to64();
        if s < 11 {
            lemma_pow2_strictly_increases(s as nat, 11);
        }
    }
    let q = round_even_exec(n as u128, d);
    proof {
        lemma_f64_bound(n as nat, s as nat, q as nat, d as nat);
    }
    q * d
}

proof fn lemma_f64_bound(n: nat, s: nat, q: nat, d: nat)
    requires
        d == pow2(s),
        d >= 1,
        q == round_even(n, d),
        n <= 0xffff_ffff_ffff_ffff,
        s <= 64,
    ensures
        q * d <= 0x1_0000_0000_0000_0000,
{
    let m = pow2((64 - s) as nat);
    lemma_pow2_adds((64 - s) as nat, s);
    lemma2_to64();
    assert(m * d == 0x1_0000_0000_0000_0000);
    let q0 = n / d;
    let r0 = n % d;
    assert(q0 * d + r0 == n && 0 <= r0 < d) by (nonlinear_arith)
        requires q0 == n / d, r0 == n % d, d >= 1;
    assert(q0 < m) by (nonlinear_arith)
        requires q0 * d + r0 == n, r0 >= 0, n < m * d, d >= 1;
    assert(q <= q0 + 1);
    assert(q * d <= m * d) by (nonlinear_arith)
        requires q <= q0 + 1, q0 < m, d >= 1;
}

fn tenths_string(t: u128, unit: &str) -> (r: String)
    ensures
        r@ == tenths_text(t as nat, unit@),
{
    let a = dec_u128(t / 10);
    let b = dec_u128(t % 10);
    let mut s = string_of(a.as_slice());
    push_char(&mut s, '.');
    push_all(&mut s, b.as_slice());
    push_str(&mut s, unit);
    s
}

/// Formats a file size.
pub fn format_size(size: u64) -> (r: String)
    ensures
        r@ == format_size_spec(size),
{
    if size < 1024 {
        let mut s = crate::text::u64_to_string(size);
        push_str(&mut s, "B");
        s
    } else if size < 1048576 {
        let t = round_even_exec(size as u128 * 10, 1024);
        tenths_string(t, "KB")
    } else if size < 1073741824 {
        let t = round_even_exec(size as u128 * 10, 1048576);
        tenths_string(t, "MB")
    } else {
        let v = f64_round(size);
        let t = round_even_exec(v * 10, 1073741824);
        tenths_string(t, "GB")
    }
}

/// The colour and mode of a size.
pub struct SizeStyle {
    pub color: String,
    pub mode: String,
}

/// Colour and mode of the first rule a size falls under (`-1` matches any
/// size; the size is compared as `as i64` gives it), else white in full.
pub open spec fn size_style_spec(size: u64, rules: Seq<(int, Seq<char>, Seq<char>)>) -> (Seq<char>, Seq<char>)
    decreases rules.len(),
{
    if rules.len() == 0 {
        ("37"@, "full"@)
    } else if rules[0].0 == -1 || crate::ls::scanner::wrap_i64(size) < rules[0].0 {
        (rules[0].1, rules[0].2)
    } else {
        size_style_spec(size, rules.drop_first())
    }
}

/// The colour rule for a size.
pub fn get_size_style(size: u64, rules: &Vec<SizeRule>) -> (r: SizeStyle)
    ensures
        (r.color@, r.mode@) == size_style_spec(size, rules_view(rules@)),
{
    let ghost rv = rules_view(rules@);
    let si = crate::ls::scanner::to_i64_wrapping(size);
    let mut i: usize = 0;
    assert(rv.skip(0) =~= rv);
    while i < rules.len()
        invariant
            i <= rules.len(),
            rv == rules_view(rules@),
            si as int == crate::ls::scanner::wrap_i64(size),
            size_style_spec(size, rv) == size_style_spec(size, rv.skip(i as int)),
        decreases rules.len() - i,
    {
        assert(rv.skip(i as int).drop_first() =~= rv.skip(i + 1));
        assert(rv.skip(i as int)[0] == rv[i as int]);
        let rule = &rules[i];
        if rule.max == -1 || si < rule.max {
            return SizeStyle { color: rule.color.clone(), mode: rule.mode.clone() };
        }
        i += 1;
    }
    assert(rv.skip(i as int) =~= Seq::<(int, Seq<char>, Seq<char>)>::empty());
    SizeStyle { color: String::from_str("37"), mode: String::from_str("full") }
}

/// Extension of a file name as `Path::extension` gives it: the text after
/// the last dot, unless there is no dot, the only dot starts the name, or the
/// name is `..`.
pub open spec fn extension_of(name: Seq<char>) -> Option<Seq<char>> {
    if name == ".."@ {
        None
    } else {
        match last_dot(name) {
            Some(k) => if k == 0 { None } else { Some(name.skip(k + 1)) },
            None => None,
        }
    }
}

/// Position of the last dot.
pub open spec fn last_dot(s: Seq<char>) -> Option<int>
    decreases s.len(),
{
    if s.len() == 0 {
        None
    } else if s.last() == '.' {
        Some(s.len() - 1)
    } else {
        last_dot(s.drop_last())
    }
}

pub fn last_dot_exec(s: &[char]) -> (r: Option<usize>)
    ensures
        match r {
            Some(k) => last_dot(s@) == Some(k as int) && k < s.len(),
            None => last_dot(s@) is None,
        },
{
    let mut k = s.len();
    assert(s@.take(k as int) =~= s@);
    while k > 0 && s[k - 1] != '.'
        invariant
            k <= s.len(),
            last_dot(s@) == last_dot(s@.take(k as int)),
        decreases k,
    {
        assert(s@.take(k as int).drop_last() =~= s@.take(k - 1));
        k -= 1;
    }
    if k == 0 {
        assert(s@.take(0) =~= Seq::<char>::empty());
        None
    } else {
        assert(s@.take(k as int).last() == s@[k - 1]);
        Some(k - 1)
    }
}

/// `.{extension}` of a file name, or empty without one.
pub open spec fn dotted_ext(name: Seq<char>) -> Seq<char> {
    match extension_of(name) {
        Some(e) => seq!['.'] + e,
        None => Seq::empty(),
    }
}

/// The dotted extension of a file name.
pub fn dotted_extension(name: &str) -> (r: String)
    ensures
        r@ == dotted_ext(name@),
{
    let c = chars_of(name);
    if str_eq(name, "..") {
        return String::new();
    }
    match last_dot_exec(c.as_slice()) {
        Some(k) => {
            if k == 0 {
                String::new()
            } else {
                let mut s = String::new();
                let mut i = k;
                while i < c.len()
                    invariant
                        k <= i <= c.len(),
                        s@ == c@.subrange(k as int, i as int),
                    decreases c.len() - i,
                {
                    push_char(&mut s, c[i]);
                    assert(c@.subrange(k as int, i + 1) =~= c@.subrange(k as int, i as int).push(c@[i as int]));
                    i += 1;
                }
                proof {
                    lemma_last_dot_range(c@);
                }
                assert(c@.subrange(k as int, c.len() as int) =~= seq!['.'] + c@.skip(k + 1));
                s
            }
        },
        None => String::new(),
    }
}

/// Last component of a plain Windows path (after trailing separators are
/// dropped): none for an empty path, a bare drive, `.` or `..`.
pub open spec fn file_name_of(p: Seq<char>) -> Option<Seq<char>> {
    let t = trim_seps(p);
    let last = match crate::aspkg::locate::last_sep(t) {
        Some(k) => t.skip(k + 1),
        None => t,
    };
    if last.len() == 0 || last == "."@ || last == ".."@ || (last.len() == 2 && last[1] == ':') {
        None
    } else {
        Some(last)
    }
}

/// `ls` output settings: colours, and whether to use them.
pub struct Formatter {
    pub config: ColorConfig,
    pub no_color: bool,
}

/// `text`, coloured with `code` unless colours are off.
pub open spec fn maybe_colored(no_color: bool, text: Seq<char>, code: Seq<char>) -> Seq<char> {
    if no_color { text } else { colored_spec(text, code) }
}

/// Colour of an entry: folders (link folders apart), else the colour of the
/// file's extension, else bright white.
pub open spec fn item_color_spec(cfg: ColorConfig, item: ItemInfo) -> Seq<char> {
    if item.is_dir {
        if item.link_type == LinkType::Symlink || item.link_type == LinkType::Junction {
            cfg.dir_link_color@
        } else {
            cfg.dir_color@
        }
    } else {
        match cfg.ext_color_spec(dotted_ext(item.name@)) {
            Some(c) => c,
            None => "97"@,
        }
    }
}

/// Spaces before a name shown right-aligned in `max_width` columns.
pub open spec fn name_padding(item: ItemInfo, right_align: bool, max_width: nat) -> Seq<char> {
    let w = display_width(item.name@);
    if right_align && w < max_width { repeat_char(' ', (max_width - w) as nat) } else { Seq::empty() }
}

/// The name column of an entry.
pub open spec fn file_name_spec(f: Formatter, item: ItemInfo, right_align: bool, max_width: nat) -> Seq<char> {
    let pad = name_padding(item, right_align, max_width);
    let name = item.name@;
    if f.no_color {
        pad + name + seq![' ']
    } else {
        let code = item_color_spec(f.config, item);
        if item.is_dir || item.link_type != LinkType::File {
            pad + colored_spec(name, code) + seq![' ']
        } else {
            let ext = dotted_ext(name);
            if ext.len() == 0 {
                pad + colored_spec(name, "97"@) + seq![' ']
            } else {
                match f.config.ext_color_spec(ext) {
                    Some(ec) => if ec != code {
                        pad + colored_spec(name.take(name.len() - ext.len()), "97"@) + colored_spec(ext, ec) + seq![' ']
                    } else {
                        pad + colored_spec(name, code) + seq![' ']
                    },
                    None => pad + colored_spec(name, code) + seq![' '],
                }
            }
        }
    }
}

/// The target column of a link, after the `\\?\` prefixes are dropped: the
/// parent folder in the path colour with a backslash, then the last
/// component in the colour for folders (when the target is a folder) or
/// bright white.
pub open spec fn link_target_spec(f: Formatter, target: Seq<char>, is_file_link: bool, target_is_dir: bool) -> Seq<char> {
    let t = crate::ls::links::normalize_spec(target);
    if f.no_color {
        t
    } else {
        let head = match parent_dir(t) {
            Some(p) => if p.len() > 0 && p != "."@ {
                colored_spec(p, f.config.dir_link_path_color@) + seq!['\\']
            } else {
                Seq::empty()
            },
            None => Seq::empty(),
        };
        let tail = match file_name_of(t) {
            Some(n) => {
                let is_dir = (t.len() > 0 && is_sep(t.last())) || target_is_dir;
                let code = if is_dir {
                    if is_file_link { f.config.file_link_dir_color@ } else { f.config.dir_link_path_basename_color@ }
                } else {
                    "97"@
                };
                colored_spec(n, code)
            },
            None => t,
        };
        head + tail
    }
}

/// Length of the text from its last ASCII letter on, counted from the end
/// (0 when the text ends with a letter or has none).
pub open spec fn alpha_from_end(s: Seq<char>) -> nat
    decreases s.len(),
{
    if s.len() == 0 {
        0
    } else if ('a' <= s.last() && s.last() <= 'z') || ('A' <= s.last() && s.last() <= 'Z') {
        0
    } else if has_alpha(s.drop_last()) {
        1 + alpha_from_end(s.drop_last())
    } else {
        0
    }
}

pub open spec fn has_alpha(s: Seq<char>) -> bool {
    exists|i: int| 0 <= i < s.len() && (('a' <= s[i] && s[i] <= 'z') || ('A' <= s[i] && s[i] <= 'Z'))
}

/// The size column of an entry, right-aligned in `max_width` characters.
pub open spec fn size_column_spec(f: Formatter, item: ItemInfo, max_width: nat) -> Seq<char> {
    let text = format_size_spec(item.size);
    let pad = if max_width > text.len() { repeat_char(' ', (max_width - text.len()) as nat) } else { Seq::empty() };
    if f.no_color {
        pad + text + seq![' ']
    } else {
        let st = size_style_spec(item.size, rules_view(f.config.size_rules@));
        let body = if st.1 == "full"@ {
            colored_spec(text, st.0)
        } else {
            let split = text.len() - alpha_from_end(text);
            text.take(split) + colored_spec(text.skip(split), st.0)
        };
        pad + body + seq![' ']
    }
}

fn spaces(n: usize) -> (r: String)
    ensures
        r@ == repeat_char(' ', n as nat),
{
    let mut s = String::new();
    let mut i: usize = 0;
    while i < n
        invariant
            i <= n,
            s@ == repeat_char(' ', i as nat),
        decreases n - i,
    {
        push_char(&mut s, ' ');
        assert(repeat_char(' ', (i + 1) as nat) =~= repeat_char(' ', i as nat).push(' '));
        i += 1;
    }
    s
}

pub fn maybe_color(no_color: bool, text: String, code: &str) -> (r: String)
    ensures
        r@ == maybe_colored(no_color, text@, code@),
{
    if no_color {
        text
    } else {
        colored(text.as_str(), code)
    }
}

fn has_alpha_exec(s: &[char], n: usize) -> (r: bool)
    requires
        n <= s.len(),
    ensures
        r == has_alpha(s@.take(n as int)),
{
    let mut i: usize = 0;
    while i < n
        invariant
            i <= n <= s.len(),
            forall|j: int| 0 <= j < i ==> !(('a' <= s@[j] && s@[j] <= 'z') || ('A' <= s@[j] && s@[j] <= 'Z')),
        decreases n - i,
    {
        let c = s[i];
        if ('a' <= c && c <= 'z') || ('A' <= c && c <= 'Z') {
            assert(s@.take(n as int)[i as int] == c);
            return true;
        }
        i += 1;
    }
    false
}

fn alpha_from_end_exec(s: &[char]) -> (r: usize)
    ensures
        r as nat == alpha_from_end(s@),
        r <= s.len(),
{
    let mut k = s.len();
    let mut count: usize = 0;
    assert(s@.take(k as int) =~= s@);
    while k > 0
        invariant
            k <= s.len(),
            count + k <= s.len(),
            alpha_from_end(s@) == count + alpha_from_end(s@.take(k as int)),
        decreases k,
    {
        let c = s[k - 1];
        let ghost t = s@.take(k as int);
        assert(t.last() == c);
        assert(t.drop_last() =~= s@.take(k - 1));
        if ('a' <= c && c <= 'z') || ('A' <= c && c <= 'Z') {
            return count;
        }
        if !has_alpha_exec(s, k - 1) {
            return count;
        }
        count += 1;
        k -= 1;
    }
    assert(s@.take(0) =~= Seq::<char>::empty());
    count
}

impl Formatter {
    /// Output settings with the given colours (colours are switched on by the caller).
    pub fn new(config: ColorConfig, no_color: bool) -> (r: Self)
        ensures
            r.config == config,
            r.no_color == no_color,
    {
        Formatter { config, no_color }
    }

    /// `<dir>`/`<file>` marker right-aligned in seven characters, then a space, in gray.
    pub fn print_type_marker(&self, marker: &str) -> (r: String)
        ensures
            r@ == maybe_colored(self.no_color, pad_left_with(marker@, 7, ' ') + seq![' '], "90"@),
    {
        let m = chars_of(marker);
        let p = pad_left_vec(m.as_slice(), 7, ' ');
        let mut text = string_of(p.as_slice());
        push_char(&mut text, ' ');
        maybe_color(self.no_color, text, "90")
    }

    /// Time stamp, then a space, in gray.
    pub fn print_timestamp(&self, secs: i64) -> (r: String)
        ensures
            exists|t: Seq<char>| timestamp_spec(secs as int, t) && r@ == maybe_colored(self.no_color, t + seq![' '], "90"@),
    {
        let mut text = format_timestamp(secs);
        let ghost t = text@;
        push_char(&mut text, ' ');
        maybe_color(self.no_color, text, "90")
    }

    /// Colour of an entry.
    pub fn get_item_color(&self, item: &ItemInfo) -> (r: String)
        ensures
            r@ == item_color_spec(self.config, *item),
    {
        if item.is_dir {
            match item.link_type {
                LinkType::Symlink | LinkType::Junction => self.config.dir_link_color.clone(),
                _ => self.config.dir_color.clone(),
            }
        } else {
            let ext = dotted_extension(item.name.as_str());
            match self.config.ext_color(ext.as_str()) {
                Some(c) => String::from_str(c),
                None => String::from_str("97"),
            }
        }
    }

    /// The name column of an entry.
    pub fn print_file_name(&self, item: &ItemInfo, right_align: bool, max_width: usize) -> (r: String)
        ensures
            r@ == file_name_spec(*self, *item, right_align, max_width as nat),
    {
        let name = item.name.as_str();
        let width = str_width(name);
        let padding: usize = if right_align && width < max_width { max_width - width } else { 0 };
        let mut out = spaces(padding);
        assert(out@ == name_padding(*item, right_align, max_width as nat));
        if self.no_color {
            push_str(&mut out, name);
            push_char(&mut out, ' ');
            return out;
        }
        let code = self.get_item_color(item);
        if item.is_dir || item.link_type != LinkType::File {
            let c = colored(name, code.as_str());
            push_str(&mut out, c.as_str());
            push_char(&mut out, ' ');
            return out;
        }
        let ext = dotted_extension(name);
        let ec = chars_of(ext.as_str());
        if ec.len() == 0 {
            let c = colored(name, "97");
            push_str(&mut out, c.as_str());
            push_char(&mut out, ' ');
            return out;
        }
        match self.config.ext_color(ext.as_str()) {
            Some(x) => {
                if !str_eq(x, code.as_str()) {
                    let nc = chars_of(name);
                    proof {
                        lemma_dotted_ext_len(name@);
                    }
                    let keep = nc.len() - ec.len();
                    let mut stem: Vec<char> = Vec::new();
                    let mut i: usize = 0;
                    while i < keep
                        invariant
                            i <= keep <= nc.len(),
                            stem@ == nc@.take(i as int),
                        decreases keep - i,
                    {
                        stem.push(nc[i]);
                        assert(nc@.take(i + 1) =~= nc@.take(i as int).push(nc@[i as int]));
                        i += 1;
                    }
                    let stem_s = string_of(stem.as_slice());
                    let c1 = colored(stem_s.as_str(), "97");
                    let c2 = colored(ext.as_str(), x);
                    push_str(&mut out, c1.as_str());
                    push_str(&mut out, c2.as_str());
                    push_char(&mut out, ' ');
                    return out;
                }
            },
            None => {},
        }
        let c = colored(name, code.as_str());
        push_str(&mut out, c.as_str());
        push_char(&mut out, ' ');
        out
    }

    /// The arrow between a link and its target.
    pub fn print_link_arrow(&self, is_directory: bool) -> (r: String)
        ensures
            r@ == (if is_directory {
                maybe_colored(self.no_color, seq![' '] + self.config.dir_link_arrow@ + seq![' '], self.config.dir_link_arrow_color@)
            } else {
                maybe_colored(self.no_color, seq![' '] + self.config.file_link_arrow@ + seq![' '], self.config.file_link_arrow_color@)
            }),
    {
        let (arrow, color) = if is_directory {
            (&self.config.dir_link_arrow, &self.config.dir_link_arrow_color)
        } else {
            (&self.config.file_link_arrow, &self.config.file_link_arrow_color)
        };
        let mut text = String::new();
        push_char(&mut text, ' ');
        push_str(&mut text, arrow.as_str());
        push_char(&mut text, ' ');
        maybe_color(self.no_color, text, color.as_str())
    }

    /// The target column of a link; `target_is_dir` tells whether the target
    /// is a folder on disk (read by the caller).
    pub fn print_link_target(&self, target: &str, is_file_link: bool, target_is_dir: bool) -> (r: String)
        ensures
            r@ == link_target_spec(*self, target@, is_file_link, target_is_dir),
    {
        let t = crate::ls::links::normalize_path(target);
        if self.no_color {
            return t;
        }
        let tc = chars_of(t.as_str());
        let mut result = String::new();
        match parent_of(tc.as_slice()) {
            Some(p) => {
                let ps = string_of(p.as_slice());
                if p.len() > 0 && !str_eq(ps.as_str(), ".") {
                    let c = colored(ps.as_str(), self.config.dir_link_path_color.as_str());
                    push_str(&mut result, c.as_str());
                    push_char(&mut result, '\\');
                }
            },
            None => {},
        }
        match file_name_exec(tc.as_slice()) {
            Some(n) => {
                let is_dir = (tc.len() > 0 && (tc[tc.len() - 1] == '\\' || tc[tc.len() - 1] == '/')) || target_is_dir;
                let code: &str = if is_dir {
                    if is_file_link { self.config.file_link_dir_color.as_str() } else { self.config.dir_link_path_basename_color.as_str() }
                } else {
                    "97"
                };
                let ns = string_of(n.as_slice());
                let c = colored(ns.as_str(), code);
                push_str(&mut result, c.as_str());
            },
            None => {
                push_str(&mut result, t.as_str());
            },
        }
        result
    }

    /// The size column of an entry.
    pub fn print_size(&self, item: &ItemInfo, max_width: usize) -> (r: String)
        ensures
            r@ == size_column_spec(*self, *item, max_width as nat),
    {
        let size_str = format_size(item.size);
        let sc = chars_of(size_str.as_str());
        let padding: usize = if max_width > sc.len() { max_width - sc.len() } else { 0 };
        let mut out = spaces(padding);
        if self.no_color {
            push_str(&mut out, size_str.as_str());
            push_char(&mut out, ' ');
            return out;
        }
        let style = get_size_style(item.size, &self.config.size_rules);
        if str_eq(style.mode.as_str(), "full") {
            let c = colored(size_str.as_str(), style.color.as_str());
            push_str(&mut out, c.as_str());
        } else {
            let back = alpha_from_end_exec(sc.as_slice());
            let split = sc.len() - back;
            let mut num: Vec<char> = Vec::new();
            let mut unit: Vec<char> = Vec::new();
            let mut i: usize = 0;
            while i < sc.len()
                invariant
                    i <= sc.len(),
                    split <= sc.len(),
                    num@ == sc@.take(if i < split { i as int } else { split as int }),
                    unit@ == (if i <= split { Seq::<char>::empty() } else { sc@.subrange(split as int, i as int) }),
                decreases sc.len() - i,
            {
                if i < split {
                    num.push(sc[i]);
                    assert(sc@.take(i + 1) =~= sc@.take(i as int).push(sc@[i as int]));
                } else {
                    unit.push(sc[i]);
                    assert(sc@.subrange(split as int, i + 1) =~= (if i <= split { Seq::<char>::empty() } else { sc@.subrange(split as int, i as int) }).push(sc@[i as int]));
                }
                i += 1;
            }
            assert(unit@ =~= sc@.skip(split as int));
            push_all(&mut out, num.as_slice());
            let us = string_of(unit.as_slice());
            let c = colored(us.as_str(), style.color.as_str());
            push_str(&mut out, c.as_str());
        }
        push_char(&mut out, ' ');
        out
    }
}

pub proof fn lemma_dotted_ext_len(name: Seq<char>)
    ensures
        dotted_ext(name).len() <= name.len(),
        dotted_ext(name) == name.skip(name.len() - dotted_ext(name).len()),
{
    lemma_last_dot_range(name);
    match extension_of(name) {
        Some(e) => {
            let k = last_dot(name).unwrap();
            assert(seq!['.'] + name.skip(k + 1) =~= name.skip(k));
        },
        None => {
            assert(name.skip(name.len() as int) =~= Seq::<char>::empty());
        },
    }
}

proof fn lemma_last_dot_range(s: Seq<char>)
    ensures
        match last_dot(s) {
            Some(k) => 0 <= k < s.len() && s[k] == '.',
            None => true,
        },
    decreases s.len(),
{
    if s.len() > 0 && s.last() != '.' {
        lemma_last_dot_range(s.drop_last());
    }
}

pub fn file_name_exec(p: &[char]) -> (r: Option<Vec<char>>)
    ensures
        match r {
            Some(v) => file_name_of(p@) == Some(v@),
            None => file_name_of(p@) is None,
        },
{
    let ghost t = trim_seps(p@);
    let mut n = p.len();
    assert(p@.take(n as int) =~= p@);
    while n > 0 && (p[n - 1] == '\\' || p[n - 1] == '/')
        invariant
            n <= p.len(),
            trim_seps(p@) == trim_seps(p@.take(n as int)),
        decreases n,
    {
        assert(p@.take(n as int).drop_last() =~= p@.take(n - 1));
        n -= 1;
    }
    proof {
        if n > 0 {
            assert(p@.take(n as int).last() == p@[n - 1]);
        }
        assert(trim_seps(p@.take(n as int)) == p@.take(n as int));
    }
    let mut k = n;
    assert(t.take(k as int) =~= t);
    while k > 0 && !(p[k - 1] == '\\' || p[k - 1] == '/')
        invariant
            k <= n <= p.len(),
            t == p@.take(n as int),
            crate::aspkg::locate::last_sep(t) == crate::aspkg::locate::last_sep(t.take(k as int)),
        decreases k,
    {
        assert(t.take(k as int).drop_last() =~= t.take(k - 1));
        k -= 1;
    }
    let start: usize = if k == 0 {
        assert(t.take(0) =~= Seq::<char>::empty());
        0
    } else {
        assert(t.take(k as int).last() == p@[k - 1]);
        k
    };
    let mut last: Vec<char> = Vec::new();
    let mut i = start;
    while i < n
        invariant
            start <= i <= n <= p.len(),
            last@ == p@.subrange(start as int, i as int),
        decreases n - i,
    {
        last.push(p[i]);
        assert(p@.subrange(start as int, i + 1) =~= p@.subrange(start as int, i as int).push(p@[i as int]));
        i += 1;
    }
    assert(last@ =~= (match crate::aspkg::locate::last_sep(t) { Some(j) => t.skip(j + 1), None => t }));
    let ls = string_of(last.as_slice());
    if last.len() == 0 || str_eq(ls.as_str(), ".") || str_eq(ls.as_str(), "..") || (last.len() == 2 && last[1] == ':') {
        None
    } else {
        Some(last)
    }
}

} // verus!
