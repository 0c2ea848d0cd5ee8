//! Decisions of `lw`, the window mover: where each shortcut puts the front
//! window, and how keyboard and wheel events turn into actions while the
//! held keys and the pause switch are tracked.

use vstd::prelude::*;
use crate::datetime::{tdiv, format_unix, format_unix_spec};
use crate::text::{dec, u64_to_string, push_str};
use crate::rules::{
    SizeFilter, entry_hits, filter_hits, skip_hits, key_hits, whitelist_spec, rule_skip_spec,
    window_rule_keys_spec, is_whitelisted, is_rule_skipped, match_rule,
};

verus! {

/// A window rectangle: left, top, right, bottom.
pub type Rect = (i32, i32, i32, i32);

/// Rust's `x / 2` on an `i32` (rounded toward zero).
fn half(x: i32) -> (r: i32)
    ensures
        r == tdiv(x as int, 2),
{
    if x >= 0 {
        x / 2
    } else {
        let y = x as i64;
        (-((-y) / 2)) as i32
    }
}

/// The position the number keys 1 to 9 put a window at: a 3 × 3 grid laid
/// out like a numeric keypad (1 bottom left, 9 top right), centred cells
/// rounded toward zero.
pub open spec fn grid_spec(key: char, rect: (int, int, int, int), sw: int, sh: int) -> Option<(int, int)> {
    let w = rect.2 - rect.0;
    let h = rect.3 - rect.1;
    let cx = tdiv(sw - w, 2);
    let cy = tdiv(sh - h, 2);
    if key == '1' {
        Some((0, sh - h))
    } else if key == '2' {
        Some((cx, sh - h))
    } else if key == '3' {
        Some((sw - w, sh - h))
    } else if key == '4' {
        Some((0, cy))
    } else if key == '5' {
        Some((cx, cy))
    } else if key == '6' {
        Some((sw - w, cy))
    } else if key == '7' {
        Some((0, 0))
    } else if key == '8' {
        Some((cx, 0))
    } else if key == '9' {
        Some((sw - w, 0))
    } else {
        None
    }
}

/// `c` is half of `v` rounded toward zero.
pub open spec fn is_half_toward_zero(v: int, c: int) -> bool {
    if v >= 0 { 0 <= v - 2 * c <= 1 } else { -1 <= v - 2 * c <= 0 }
}

/// The number keys lay the screen out like a keypad: keys 1, 4, 7 put the
/// window at the left edge, 3, 6, 9 at the right edge (`sw - w`), 2, 5, 8
/// centre it horizontally; keys 7, 8, 9 put it at the top, 1, 2, 3 at the
/// bottom (`sh - h`), 4, 5, 6 centre it vertically; centring takes half the
/// free room rounded toward zero. Other keys place nothing.
pub proof fn keypad_law(key: char, rect: (int, int, int, int), sw: int, sh: int)
    ensures
        ({
            let w = rect.2 - rect.0;
            let h = rect.3 - rect.1;
            let g = grid_spec(key, rect, sw, sh);
            let p = g.unwrap();
            &&& ('1' <= key && key <= '9') <==> g is Some
            &&& (key == '1' || key == '4' || key == '7') ==> p.0 == 0
            &&& (key == '3' || key == '6' || key == '9') ==> p.0 == sw - w
            &&& (key == '2' || key == '5' || key == '8') ==> is_half_toward_zero(sw - w, p.0)
            &&& (key == '7' || key == '8' || key == '9') ==> p.1 == 0
            &&& (key == '1' || key == '2' || key == '3') ==> p.1 == sh - h
            &&& (key == '4' || key == '5' || key == '6') ==> is_half_toward_zero(sh - h, p.1)
        }),
{
    let w = rect.2 - rect.0;
    let h = rect.3 - rect.1;
    lemma_tdiv_half(sw - w);
    lemma_tdiv_half(sh - h);
}

proof fn lemma_tdiv_half(v: int)
    ensures
        is_half_toward_zero(v, tdiv(v, 2)),
{
    if v >= 0 {
        assert(v - 2 * (v / 2) == v % 2);
    } else {
        assert((-v) - 2 * ((-v) / 2) == (-v) % 2);
    }
}

pub open spec fn rect_int(r: Rect) -> (int, int, int, int) {
    (r.0 as int, r.1 as int, r.2 as int, r.3 as int)
}

/// The numbers that stay in `i32` range while placing `rect` on a
/// `sw` × `sh` screen.
pub open spec fn fits_screen(rect: Rect, sw: i32, sh: i32) -> bool {
    let w = rect.2 - rect.0;
    let h = rect.3 - rect.1;
    &&& i32::MIN <= w <= i32::MAX
    &&& i32::MIN <= h <= i32::MAX
    &&& i32::MIN <= sw - w <= i32::MAX
    &&& i32::MIN <= sh - h <= i32::MAX
}

/// Where key `key` puts the window (none for other keys).
pub fn pos_by_key(key: char, rect: Rect, sw: i32, sh: i32) -> (r: Option<(i32, i32)>)
    requires
        fits_screen(rect, sw, sh),
    ensures
        match r {
            Some(p) => grid_spec(key, rect_int(rect), sw as int, sh as int) == Some((p.0 as int, p.1 as int)),
            None => grid_spec(key, rect_int(rect), sw as int, sh as int) is None,
        },
{
    let (left, top, right, bottom) = rect;
    let w = right - left;
    let h = bottom - top;
    let cx = half(sw - w);
    let cy = half(sh - h);
    if key == '1' {
        Some((0, sh - h))
    } else if key == '2' {
        Some((cx, sh - h))
    } else if key == '3' {
        Some((sw - w, sh - h))
    } else if key == '4' {
        Some((0, cy))
    } else if key == '5' {
        Some((cx, cy))
    } else if key == '6' {
        Some((sw - w, cy))
    } else if key == '7' {
        Some((0, 0))
    } else if key == '8' {
        Some((cx, 0))
    } else if key == '9' {
        Some((sw - w, 0))
    } else {
        None
    }
}

/// Where centring puts the window.
pub fn center_pos(rect: Rect, sw: i32, sh: i32) -> (r: (i32, i32))
    requires
        fits_screen(rect, sw, sh),
    ensures
        grid_spec('5', rect_int(rect), sw as int, sh as int) == Some((r.0 as int, r.1 as int)),
{
    let (left, top, right, bottom) = rect;
    (half(sw - (right - left)), half(sh - (bottom - top)))
}

/// A screen edge.
#[derive(PartialEq, Eq, Structural, Clone, Copy, Debug)]
pub enum Edge {
    Left,
    Right,
    Up,
    Down,
}

/// Where snapping to an edge puts the window: flush against it, the other
/// coordinate kept.
pub open spec fn edge_spec(edge: Edge, rect: (int, int, int, int), sw: int, sh: int) -> (int, int) {
    match edge {
        Edge::Left => (0, rect.1),
        Edge::Right => (sw - (rect.2 - rect.0), rect.1),
        Edge::Up => (rect.0, 0),
        Edge::Down => (rect.0, sh - (rect.3 - rect.1)),
    }
}

/// Snapping puts the window flush against the edge (its left side at 0,
/// its right side at the screen width, its top at 0, its bottom at the
/// screen height) and keeps the other coordinate.
pub proof fn snap_law(edge: Edge, rect: (int, int, int, int), sw: int, sh: int)
    ensures
        ({
            let p = edge_spec(edge, rect, sw, sh);
            let w = rect.2 - rect.0;
            let h = rect.3 - rect.1;
            &&& edge == Edge::Left ==> p.0 == 0 && p.1 == rect.1
            &&& edge == Edge::Right ==> p.0 + w == sw && p.1 == rect.1
            &&& edge == Edge::Up ==> p.1 == 0 && p.0 == rect.0
            &&& edge == Edge::Down ==> p.1 + h == sh && p.0 == rect.0
        }),
{
}

pub fn edge_pos(edge: Edge, rect: Rect, sw: i32, sh: i32) -> (r: (i32, i32))
    requires
        fits_screen(rect, sw, sh),
    ensures
        (r.0 as int, r.1 as int) == edge_spec(edge, rect_int(rect), sw as int, sh as int),
{
    let (l, t, rr, b) = rect;
    match edge {
        Edge::Left => (0, t),
        Edge::Right => (sw - (rr - l), t),
        Edge::Up => (l, 0),
        Edge::Down => (l, sh - (b - t)),
    }
}

/// Pixels one nudge or one wheel notch moves a window.
pub const MOVE_STEP: i32 = 10;

/// `x as i32`: the low 32 bits of `x`, read as signed.
pub open spec fn wrap_i32(x: int) -> int {
    (x as i32) as int
}

/// Where a wheel notch count `dy` moves the window: up by ten pixels a
/// notch when vertical, left when horizontal (the step product cut to
/// `i32`).
pub open spec fn scroll_spec(rect: (int, int, int, int), dy: int, vertical: bool) -> (int, int) {
    let step = wrap_i32(dy * 10);
    if vertical {
        (rect.0, rect.1 - step)
    } else {
        (rect.0 - step, rect.1)
    }
}

pub fn scroll_pos(rect: Rect, dy: i64, vertical: bool) -> (r: (i32, i32))
    requires
        i64::MIN <= dy * 10 <= i64::MAX,
        vertical ==> i32::MIN <= rect.1 - wrap_i32(dy * 10) <= i32::MAX,
        !vertical ==> i32::MIN <= rect.0 - wrap_i32(dy * 10) <= i32::MAX,
    ensures
        (r.0 as int, r.1 as int) == scroll_spec(rect_int(rect), dy as int, vertical),
{
    let step = (dy * 10) as i32;
    if vertical {
        (rect.0, rect.1 - step)
    } else {
        (rect.0 - step, rect.1)
    }
}

/// Where a nudge by (`dx`, `dy`) puts the window.
pub fn nudge_pos(rect: Rect, dx: i32, dy: i32) -> (r: (i32, i32))
    requires
        i32::MIN <= rect.0 + dx <= i32::MAX,
        i32::MIN <= rect.1 + dy <= i32::MAX,
    ensures
        r.0 == rect.0 + dx,
        r.1 == rect.1 + dy,
{
    (rect.0 + dx, rect.1 + dy)
}

/// Placement part of a window rule: fixed offsets from the screen's edges,
/// or centred.
#[derive(Clone, Copy)]
pub struct Placement {
    pub left: Option<i32>,
    pub top: Option<i32>,
    pub right: Option<i32>,
    pub bottom: Option<i32>,
    pub center: bool,
}

/// Placements of the window rules, in rule order.
pub open spec fn placements_spec() -> Seq<Placement> {
    seq![
        Placement { left: None, top: None, right: None, bottom: None, center: false },
        Placement { left: None, top: None, right: None, bottom: None, center: true },
    ]
}

pub fn window_rule_placements() -> (r: Vec<Placement>)
    ensures
        r@ == placements_spec(),
{
    let v = vec![
        Placement { left: None, top: None, right: None, bottom: None, center: false },
        Placement { left: None, top: None, right: None, bottom: None, center: true },
    ];
    assert(v@ =~= placements_spec());
    v
}

/// Where a rule puts a `fw` × `fh` window: centred or at (left, top) (0
/// when unset); a set left or top wins, and a set right or bottom wins over
/// that, measured from the far edge.
pub open spec fn place_spec(p: Placement, sw: int, sh: int, fw: int, fh: int) -> (int, int) {
    let x0 = if p.center { tdiv(sw - fw, 2) } else { match p.left { Some(l) => l as int, None => 0 } };
    let y0 = if p.center { tdiv(sh - fh, 2) } else { match p.top { Some(t) => t as int, None => 0 } };
    let x1 = match p.left { Some(l) => l as int, None => x0 };
    let y1 = match p.top { Some(t) => t as int, None => y0 };
    let x2 = match p.right { Some(r) => sw - fw - r, None => x1 };
    let y2 = match p.bottom { Some(b) => sh - fh - b, None => y1 };
    (x2, y2)
}

pub fn place_window(p: Placement, sw: i32, sh: i32, fw: i32, fh: i32) -> (r: (i32, i32))
    requires
        i32::MIN <= sw - fw <= i32::MAX,
        i32::MIN <= sh - fh <= i32::MAX,
        p.right matches Some(r) ==> i32::MIN <= sw - fw - r <= i32::MAX,
        p.bottom matches Some(b) ==> i32::MIN <= sh - fh - b <= i32::MAX,
    ensures
        (r.0 as int, r.1 as int) == place_spec(p, sw as int, sh as int, fw as int, fh as int),
{
    let (mut fx, mut fy) = if p.center {
        (half(sw - fw), half(sh - fh))
    } else {
        (
            match p.left {
                Some(l) => l,
                None => 0,
            },
            match p.top {
                Some(t) => t,
                None => 0,
            },
        )
    };
    if let Some(l) = p.left {
        fx = l;
    }
    if let Some(t) = p.top {
        fy = t;
    }
    if let Some(r) = p.right {
        fx = sw - fw - r;
    }
    if let Some(b) = p.bottom {
        fy = sh - fh - b;
    }
    (fx, fy)
}

/// Decimal text of an integer, `-` in front of negatives.
pub open spec fn int_text(v: int) -> Seq<char> {
    if v < 0 {
        seq!['-'] + dec((-v) as nat)
    } else {
        dec(v as nat)
    }
}

fn push_int(s: &mut String, v: i32)
    ensures
        final(s)@ == old(s)@ + int_text(v as int),
{
    if v < 0 {
        crate::text::push_char(s, '-');
        let t = u64_to_string((-(v as i64)) as u64);
        push_str(s, t.as_str());
        assert(final(s)@ =~= old(s)@ + int_text(v as int));
    } else {
        let t = u64_to_string(v as u64);
        push_str(s, t.as_str());
    }
}

/// How a move is logged: `(left,top,WxH) -> (left,top,WxH)`.
pub open spec fn change_spec(old: (int, int, int, int), new: (int, int, int, int)) -> Seq<char> {
    seq!['('] + int_text(old.0) + seq![','] + int_text(old.1) + seq![','] + int_text(old.2 - old.0) + seq!['x']
        + int_text(old.3 - old.1) + ") -> ("@ + int_text(new.0) + seq![','] + int_text(new.1) + seq![',']
        + int_text(new.2 - new.0) + seq!['x'] + int_text(new.3 - new.1) + seq![')']
}

/// The sizes of `r` fit in `i32`.
pub open spec fn sizes_fit(r: Rect) -> bool {
    i32::MIN <= r.2 - r.0 <= i32::MAX && i32::MIN <= r.3 - r.1 <= i32::MAX
}

pub fn format_change(old: Rect, new: Rect) -> (r: String)
    requires
        sizes_fit(old),
        sizes_fit(new),
    ensures
        r@ == change_spec(rect_int(old), rect_int(new)),
{
    let mut s = String::new();
    crate::text::push_char(&mut s, '(');
    push_int(&mut s, old.0);
    crate::text::push_char(&mut s, ',');
    push_int(&mut s, old.1);
    crate::text::push_char(&mut s, ',');
    push_int(&mut s, old.2 - old.0);
    crate::text::push_char(&mut s, 'x');
    push_int(&mut s, old.3 - old.1);
    push_str(&mut s, ") -> (");
    push_int(&mut s, new.0);
    crate::text::push_char(&mut s, ',');
    push_int(&mut s, new.1);
    crate::text::push_char(&mut s, ',');
    push_int(&mut s, new.2 - new.0);
    crate::text::push_char(&mut s, 'x');
    push_int(&mut s, new.3 - new.1);
    crate::text::push_char(&mut s, ')');
    assert(s@ =~= change_spec(rect_int(old), rect_int(new)));
    s
}

/// The log time of `lw`: the clock reading shown in UTC+8.
pub fn local_stamp(secs: u64) -> (r: String)
    requires
        secs <= 0x7fff_ffff_ffff_ffff - 28800,
    ensures
        format_unix_spec((secs + 28800) as u64, r@),
{
    format_unix(secs + 28800)
}

/// The keys `lw` tells apart; every other key is `Other`.
#[derive(PartialEq, Eq, Structural, Clone, Copy, Debug)]
pub enum Key {
    Escape,
    BackQuote,
    Alt,
    AltGr,
    ShiftLeft,
    ShiftRight,
    ControlLeft,
    ControlRight,
    LeftArrow,
    RightArrow,
    UpArrow,
    DownArrow,
    Num1,
    Num2,
    Num3,
    Num4,
    Num5,
    Num6,
    Num7,
    Num8,
    Num9,
    Other,
}

/// The digit a number-row key types.
pub open spec fn key_digit(key: Key) -> Option<char> {
    match key {
        Key::Num1 => Some('1'),
        Key::Num2 => Some('2'),
        Key::Num3 => Some('3'),
        Key::Num4 => Some('4'),
        Key::Num5 => Some('5'),
        Key::Num6 => Some('6'),
        Key::Num7 => Some('7'),
        Key::Num8 => Some('8'),
        Key::Num9 => Some('9'),
        _ => None,
    }
}

pub fn key_to_num(key: Key) -> (r: Option<char>)
    ensures
        r == key_digit(key),
{
    match key {
        Key::Num1 => Some('1'),
        Key::Num2 => Some('2'),
        Key::Num3 => Some('3'),
        Key::Num4 => Some('4'),
        Key::Num5 => Some('5'),
        Key::Num6 => Some('6'),
        Key::Num7 => Some('7'),
        Key::Num8 => Some('8'),
        Key::Num9 => Some('9'),
        _ => None,
    }
}

/// An input event as `lw` sees it.
#[derive(PartialEq, Eq, Structural, Clone, Copy, Debug)]
pub enum InputEvent {
    Press(Key),
    Release(Key),
    /// A wheel turn by this many notches (positive away from the user).
    Wheel(i64),
    Other,
}

/// What `lw` does in answer to an event.
#[derive(PartialEq, Eq, Structural, Clone, Copy, Debug)]
pub enum Action {
    Nothing,
    /// Quit the program.
    Exit,
    /// Shortcuts are now paused.
    Pause,
    /// Shortcuts are live again.
    Resume,
    /// Snap the front window to an edge.
    Snap(Edge),
    /// Put the front window in a cell of the 3 × 3 grid.
    Position(char),
    /// Move the front window by (dx, dy).
    Nudge(i32, i32),
    /// Widen (true) or narrow the front window.
    ScaleWidth(bool),
    /// Heighten (true) or lower the front window.
    ScaleHeight(bool),
    /// Grow (true) or shrink the front window about its centre.
    Zoom(bool),
    /// Move the front window by wheel notches, up-down or left-right.
    Scroll(i64, bool),
}

/// Keys held down, and whether shortcuts are paused.
pub struct InputState {
    pub held: Vec<Key>,
    pub paused: bool,
}

impl InputState {
    pub open spec fn held_set(&self) -> Set<Key> {
        self.held@.to_set()
    }

    /// Nothing held, shortcuts live.
    pub fn new() -> (r: Self)
        ensures
            r.held_set() == Set::<Key>::empty(),
            !r.paused,
    {
        let r = InputState { held: Vec::new(), paused: false };
        assert(r.held@.to_set() =~= Set::<Key>::empty());
        r
    }
}

pub open spec fn alt_held(h: Set<Key>) -> bool {
    h.contains(Key::Alt) || h.contains(Key::AltGr)
}

pub open spec fn ctrl_held(h: Set<Key>) -> bool {
    h.contains(Key::ControlLeft) || h.contains(Key::ControlRight)
}

pub open spec fn shift_held(h: Set<Key>) -> bool {
    h.contains(Key::ShiftLeft) || h.contains(Key::ShiftRight)
}

/// The edge an arrow key points at.
pub open spec fn arrow_edge(key: Key) -> Option<Edge> {
    match key {
        Key::LeftArrow => Some(Edge::Left),
        Key::RightArrow => Some(Edge::Right),
        Key::UpArrow => Some(Edge::Up),
        Key::DownArrow => Some(Edge::Down),
        _ => None,
    }
}

/// A live shortcut key: with Alt (and not Ctrl), a digit places the window
/// in the grid and an arrow nudges it; with Alt and Ctrl, left and right
/// narrow and widen it, up and down heighten and lower it.
pub open spec fn keypress_spec(key: Key, alt: bool, ctrl: bool) -> Action {
    if alt && !ctrl {
        match key_digit(key) {
            Some(n) => Action::Position(n),
            None => match key {
                Key::LeftArrow => Action::Nudge(-10i32, 0),
                Key::RightArrow => Action::Nudge(10, 0),
                Key::UpArrow => Action::Nudge(0, -10i32),
                Key::DownArrow => Action::Nudge(0, 10),
                _ => Action::Nothing,
            },
        }
    } else if alt && ctrl {
        match key {
            Key::LeftArrow => Action::ScaleWidth(false),
            Key::RightArrow => Action::ScaleWidth(true),
            Key::UpArrow => Action::ScaleHeight(true),
            Key::DownArrow => Action::ScaleHeight(false),
            _ => Action::Nothing,
        }
    } else {
        Action::Nothing
    }
}

pub fn on_keypress(key: Key, alt: bool, ctrl: bool) -> (r: Action)
    ensures
        r == keypress_spec(key, alt, ctrl),
{
    if alt && !ctrl {
        match key_to_num(key) {
            Some(n) => Action::Position(n),
            None => match key {
                Key::LeftArrow => Action::Nudge(-MOVE_STEP, 0),
                Key::RightArrow => Action::Nudge(MOVE_STEP, 0),
                Key::UpArrow => Action::Nudge(0, -MOVE_STEP),
                Key::DownArrow => Action::Nudge(0, MOVE_STEP),
                _ => Action::Nothing,
            },
        }
    } else if alt && ctrl {
        match key {
            Key::LeftArrow => Action::ScaleWidth(false),
            Key::RightArrow => Action::ScaleWidth(true),
            Key::UpArrow => Action::ScaleHeight(true),
            Key::DownArrow => Action::ScaleHeight(false),
            _ => Action::Nothing,
        }
    } else {
        Action::Nothing
    }
}

/// A wheel turn with modifiers: Alt zooms (in for positive turns), else
/// Shift moves up-down, else Ctrl moves left-right.
pub open spec fn scroll_spec_action(alt: bool, shift: bool, ctrl: bool, dy: i64) -> Action {
    if alt {
        Action::Zoom(dy > 0)
    } else if shift {
        Action::Scroll(dy, true)
    } else if ctrl {
        Action::Scroll(dy, false)
    } else {
        Action::Nothing
    }
}

pub fn on_scroll(alt: bool, shift: bool, ctrl: bool, dy: i64) -> (r: Action)
    ensures
        r == scroll_spec_action(alt, shift, ctrl, dy),
{
    if alt {
        Action::Zoom(dy > 0)
    } else if shift {
        Action::Scroll(dy, true)
    } else if ctrl {
        Action::Scroll(dy, false)
    } else {
        Action::Nothing
    }
}

/// One event: the keys held and the pause switch after it, and the action.
/// A key press is recorded first. Esc quits (unless disabled); the back
/// quote flips the pause; Alt with an arrow snaps to an edge even while
/// paused; otherwise, unless paused, the key is a shortcut. A release
/// forgets the key. A wheel turn acts, unless paused, when a modifier is
/// held.
pub open spec fn event_spec(held: Set<Key>, paused: bool, ev: InputEvent, no_esc: bool) -> (Set<Key>, bool, Action) {
    match ev {
        InputEvent::Press(key) => {
            let h = held.insert(key);
            if key == Key::Escape && !no_esc {
                (h, paused, Action::Exit)
            } else if key == Key::BackQuote {
                (h, !paused, if paused { Action::Resume } else { Action::Pause })
            } else if alt_held(h) && arrow_edge(key) is Some {
                (h, paused, Action::Snap(arrow_edge(key).unwrap()))
            } else if paused {
                (h, paused, Action::Nothing)
            } else {
                (h, paused, keypress_spec(key, alt_held(h), ctrl_held(h)))
            }
        },
        InputEvent::Release(key) => (held.remove(key), paused, Action::Nothing),
        InputEvent::Wheel(dy) => if paused {
            (held, paused, Action::Nothing)
        } else {
            (held, paused, scroll_spec_action(alt_held(held), shift_held(held), ctrl_held(held), dy))
        },
        InputEvent::Other => (held, paused, Action::Nothing),
    }
}

fn holds(held: &Vec<Key>, k: Key) -> (r: bool)
    ensures
        r == held@.to_set().contains(k),
{
    let mut i: usize = 0;
    while i < held.len()
        invariant
            i <= held.len(),
            forall|j: int| 0 <= j < i ==> held@[j] != k,
        decreases held.len() - i,
    {
        if held[i] == k {
            assert(held@.contains(k));
            return true;
        }
        i += 1;
    }
    assert(!held@.contains(k));
    false
}

impl InputState {
    /// Takes one event and says what to do.
    pub fn handle_event(&mut self, ev: InputEvent, no_esc: bool) -> (a: Action)
        ensures
            (final(self).held_set(), final(self).paused, a) == event_spec(
                old(self).held_set(),
                old(self).paused,
                ev,
                no_esc,
            ),
    {
        match ev {
            InputEvent::Press(key) => {
                self.held.push(key);
                assert(self.held@.to_set() =~= old(self).held@.to_set().insert(key)) by {
                    assert forall|k: Key| #[trigger] self.held@.to_set().contains(k) == old(self).held@.to_set().insert(key).contains(k) by {
                        if old(self).held@.contains(k) {
                            let j = choose|j: int| 0 <= j < old(self).held@.len() && old(self).held@[j] == k;
                            assert(self.held@[j] == k);
                        }
                        if self.held@.contains(k) && k != key {
                            let j = choose|j: int| 0 <= j < self.held@.len() && self.held@[j] == k;
                            assert(old(self).held@[j] == k);
                        }
                        assert(self.held@[self.held@.len() - 1] == key);
                    }
                }
                if key == Key::Escape && !no_esc {
                    return Action::Exit;
                }
                if key == Key::BackQuote {
                    let was = self.paused;
                    self.paused = !was;
                    return if was { Action::Resume } else { Action::Pause };
                }
                let alt = holds(&self.held, Key::Alt) || holds(&self.held, Key::AltGr);
                if alt {
                    match key {
                        Key::LeftArrow => { return Action::Snap(Edge::Left); },
                        Key::RightArrow => { return Action::Snap(Edge::Right); },
                        Key::UpArrow => { return Action::Snap(Edge::Up); },
                        Key::DownArrow => { return Action::Snap(Edge::Down); },
                        _ => {},
                    }
                }
                if self.paused {
                    return Action::Nothing;
                }
                let ctrl = holds(&self.held, Key::ControlLeft) || holds(&self.held, Key::ControlRight);
                on_keypress(key, alt, ctrl)
            },
            InputEvent::Release(key) => {
                let mut kept: Vec<Key> = Vec::new();
                let mut i: usize = 0;
                while i < self.held.len()
                    invariant
                        i <= self.held.len(),
                        forall|k: Key| #[trigger] kept@.contains(k) <==> (k != key && exists|j: int| 0 <= j < i && self.held@[j] == k),
                    decreases self.held.len() - i,
                {
                    let k = self.held[i];
                    let ghost prev = kept@;
                    if k != key {
                        kept.push(k);
                    }
                    proof {
                        assert forall|x: Key| #[trigger] kept@.contains(x) <==> (x != key && exists|j: int| 0 <= j < i + 1 && self.held@[j] == x) by {
                            if kept@.contains(x) {
                                let j = choose|j: int| 0 <= j < kept@.len() && kept@[j] == x;
                                if j < prev.len() {
                                    assert(prev[j] == x);
                                    assert(prev.contains(x));
                                } else {
                                    assert(self.held@[i as int] == x);
                                }
                            }
                            if x != key && exists|j: int| 0 <= j < i + 1 && self.held@[j] == x {
                                let j = choose|j: int| 0 <= j < i + 1 && self.held@[j] == x;
                                if j < i {
                                    assert(prev.contains(x));
                                    let m = choose|m: int| 0 <= m < prev.len() && prev[m] == x;
                                    assert(kept@[m] == x);
                                } else {
                                    assert(kept@[kept@.len() - 1] == x);
                                }
                            }
                        }
                    }
                    i += 1;
                }
                let ghost before = self.held@;
                self.held = kept;
                assert(self.held@.to_set() =~= before.to_set().remove(key));
                Action::Nothing
            },
            InputEvent::Wheel(dy) => {
                if self.paused {
                    return Action::Nothing;
                }
                let alt = holds(&self.held, Key::Alt) || holds(&self.held, Key::AltGr);
                let shift = holds(&self.held, Key::ShiftLeft) || holds(&self.held, Key::ShiftRight);
                let ctrl = holds(&self.held, Key::ControlLeft) || holds(&self.held, Key::ControlRight);
                if !alt && !shift && !ctrl {
                    return Action::Nothing;
                }
                on_scroll(alt, shift, ctrl, dy)
            },
            InputEvent::Other => Action::Nothing,
        }
    }
}

/// Alt with an arrow always snaps to an edge, whether shortcuts are paused
/// or not.
pub proof fn alt_arrow_always_snaps(held: Set<Key>, paused: bool, key: Key, no_esc: bool)
    requires
        held.contains(Key::Alt),
        arrow_edge(key) is Some,
    ensures
        event_spec(held, paused, InputEvent::Press(key), no_esc).2 == Action::Snap(arrow_edge(key).unwrap()),
{
}

/// Two presses of the back quote leave the pause switch as it was.
pub proof fn backquote_twice_restores(held: Set<Key>, paused: bool, no_esc: bool)
    ensures
        ({
            let (h1, p1, _a1) = event_spec(held, paused, InputEvent::Press(Key::BackQuote), no_esc);
            let (_h2, p2, _a2) = event_spec(h1, p1, InputEvent::Press(Key::BackQuote), no_esc);
            p2 == paused
        }),
{
}

/// A whitelist entry or the size filter applies to the window.
pub open spec fn whitelisted(title: Seq<char>, process: Seq<char>, rect: Rect) -> bool {
    (exists|i: int| 0 <= i < whitelist_spec().len() && entry_hits(whitelist_spec()[i], title, process))
        || filter_hits(
        SizeFilter { min_width: 0, max_width: 400, min_height: 0, max_height: 400 },
        rect.2 - rect.0,
        rect.3 - rect.1,
    )
}

/// The rule skip list names the window.
pub open spec fn rule_skipped(title: Seq<char>, process: Seq<char>) -> bool {
    exists|i: int| 0 <= i < rule_skip_spec().len() && skip_hits(rule_skip_spec()[i], title, process)
}

/// Rule `i` is the first window rule that fits the window.
pub open spec fn first_rule(title: Seq<char>, process: Seq<char>, i: int) -> bool {
    &&& 0 <= i < window_rule_keys_spec().len()
    &&& key_hits(window_rule_keys_spec()[i], title, process)
    &&& forall|j: int| 0 <= j < i ==> !key_hits(window_rule_keys_spec()[j], title, process)
}

/// No window rule fits the window.
pub open spec fn no_rule(title: Seq<char>, process: Seq<char>) -> bool {
    forall|j: int| 0 <= j < window_rule_keys_spec().len() ==> !key_hits(window_rule_keys_spec()[j], title, process)
}

/// What the background loop does with the front window.
#[derive(PartialEq, Eq, Structural, Clone, Copy, Debug)]
pub enum Step {
    /// The same window as last time (or none): wait a moment.
    Wait,
    /// A window without a title: look again at once.
    Ignore,
    /// Whitelisted: log the skip.
    Whitelisted,
    /// On the rule skip list: log the skip, then centre when asked.
    RuleSkipped(bool),
    /// Apply this window rule.
    Rule(usize),
    /// Centre the window.
    Center,
    Nothing,
}

/// The background loop's choice for a window: wait on an old window, pass
/// over an untitled one, leave whitelisted ones alone, then (in rule mode)
/// log skipped ones or apply the first fitting rule, then centre when asked.
pub open spec fn step_spec(
    fresh: bool,
    title: Seq<char>,
    process: Seq<char>,
    rect: Rect,
    rule: bool,
    center: bool,
    r: Step,
) -> bool {
    if !fresh {
        r == Step::Wait
    } else if title.len() == 0 {
        r == Step::Ignore
    } else if whitelisted(title, process, rect) {
        r == Step::Whitelisted
    } else if rule && rule_skipped(title, process) {
        r == Step::RuleSkipped(center)
    } else if rule && !no_rule(title, process) {
        r matches Step::Rule(i) && first_rule(title, process, i as int)
    } else if center {
        r == Step::Center
    } else {
        r == Step::Nothing
    }
}

/// Decides what the background loop does with the front window (`fresh`:
/// there is one and it is not the one handled last).
pub fn background_step(fresh: bool, title: &str, process: &str, rect: Rect, rule: bool, center: bool) -> (r: Step)
    requires
        sizes_fit(rect),
    ensures
        step_spec(fresh, title@, process@, rect, rule, center, r),
{
    if !fresh {
        return Step::Wait;
    }
    if title.is_empty() {
        return Step::Ignore;
    }
    if is_whitelisted(title, process, rect) {
        return Step::Whitelisted;
    }
    if rule {
        if is_rule_skipped(title, process) {
            return Step::RuleSkipped(center);
        }
        if let Some(i) = match_rule(title, process) {
            return Step::Rule(i);
        }
    }
    if center {
        Step::Center
    } else {
        Step::Nothing
    }
}

} // verus!
