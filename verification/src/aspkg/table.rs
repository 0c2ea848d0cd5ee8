//! The table `as list` prints: a header, a rule, the numbered rows, with
//! the right-hand columns hidden when the terminal is too narrow.

use vstd::prelude::*;
use crate::aspkg::rows::{texts, row_texts};
use crate::aspkg::software::{pad, pad_r, pad_spec, pad_r_spec};
use crate::aspkg::list::{visible_columns, layout_spec, visible_from, width_sum};
use crate::text::{
    display_width, str_width, dec, u64_to_string, pad_left_with, pad_left_vec, chars_of, string_of, push_str,
    repeat_vec, repeat_char,
};

verus! {

/// The column headers.
pub open spec fn header_text(i: int) -> Seq<char> {
    if i == 0 {
        "#"@
    } else if i == 1 {
        "名称"@
    } else if i == 2 {
        "版本"@
    } else if i == 3 {
        "来源"@
    } else if i == 4 {
        "类型"@
    } else if i == 5 {
        "分类"@
    } else if i == 6 {
        "状态"@
    } else if i == 7 {
        "路径"@
    } else {
        "所有版本"@
    }
}

fn header_exec(i: usize) -> (r: &'static str)
    ensures
        r@ == header_text(i as int),
{
    if i == 0 {
        "#"
    } else if i == 1 {
        "名称"
    } else if i == 2 {
        "版本"
    } else if i == 3 {
        "来源"
    } else if i == 4 {
        "类型"
    } else if i == 5 {
        "分类"
    } else if i == 6 {
        "状态"
    } else if i == 7 {
        "路径"
    } else {
        "所有版本"
    }
}

/// Cell `c` of a row (empty past its end).
pub open spec fn cell(row: Seq<Seq<char>>, c: int) -> Seq<char> {
    if 0 <= c < row.len() { row[c] } else { Seq::empty() }
}

/// Widest display width in column `c` of the rows.
pub open spec fn col_max(rows: Seq<Seq<Seq<char>>>, c: int) -> nat
    decreases rows.len(),
{
    if rows.len() == 0 {
        0
    } else {
        let m = col_max(rows.drop_last(), c);
        let x = display_width(cell(rows.last(), c));
        if x > m { x } else { m }
    }
}

/// Width of table column `i`: the number column fits the row count, the
/// others their header and widest cell.
pub open spec fn col_width(rows: Seq<Seq<Seq<char>>>, i: int) -> nat {
    if i == 0 {
        let d = dec(rows.len()).len();
        if d > display_width("#"@) { d } else { display_width("#"@) }
    } else {
        let m = col_max(rows, i - 1);
        if m > display_width(header_text(i)) { m } else { display_width(header_text(i)) }
    }
}

/// Texts joined with single spaces.
pub open spec fn join_sp(s: Seq<Seq<char>>) -> Seq<char>
    decreases s.len(),
{
    if s.len() == 0 {
        Seq::empty()
    } else if s.len() == 1 {
        s[0]
    } else {
        join_sp(s.drop_last()) + " "@ + s.last()
    }
}

/// Header cell `i`.
pub open spec fn head_cell(w: Seq<usize>, i: int) -> Seq<char> {
    if i == 0 { pad_r_spec(header_text(0), w[0] as nat) } else { pad_spec(header_text(i), w[i] as nat) }
}

/// Data cell `i` of the row numbered `k` (from 1).
pub open spec fn data_cell(w: Seq<usize>, row: Seq<Seq<char>>, k: nat, seq_w: nat, i: int) -> Seq<char> {
    if i == 0 {
        pad_r_spec(pad_left_with(dec(k), seq_w, '0'), w[0] as nat)
    } else {
        pad_spec(cell(row, i - 1), w[i] as nat)
    }
}

/// The lines `as list` prints for its rows on a terminal `tw` columns wide:
/// a message when there is none; else the header, a rule of dashes, each
/// row numbered from 1 (zero-padded to the digits of the row count), over
/// the visible columns; and a warning when columns had to be hidden.
pub open spec fn table_lines(rows: Seq<Seq<Seq<char>>>, tw: nat) -> Seq<Seq<char>> {
    if rows.len() == 0 {
        seq!["暂无已安装软件"@]
    } else {
        let w = Seq::new(9, |i: int| col_width(rows, i) as usize);
        let (eff, vis) = layout_spec(w, tw as int);
        let sw = dec(rows.len()).len();
        let head = join_sp(Seq::new(vis as nat, |i: int| head_cell(w, i)));
        let rule = join_sp(Seq::new(vis as nat, |i: int| repeat_char('-', w[i] as nat)));
        let body = Seq::new(rows.len(), |k: int| join_sp(Seq::new(vis as nat, |i: int| data_cell(w, rows[k], (k + 1) as nat, sw, i))));
        let warn = if vis < eff {
            seq!["警告：终端宽度仅 "@ + dec(tw) + " 列，不足以显示全部列，"@ + dec((eff - vis) as nat) + " 列内容已隐藏（扩展终端宽度可查看）"@]
        } else {
            Seq::empty()
        };
        seq![head, rule] + body + warn
    }
}

fn widths(rows: &Vec<Vec<String>>) -> (w: Vec<usize>)
    ensures
        w.len() == 9,
        forall|i: int| 0 <= i < 9 ==> w@[i] == col_width(row_texts(rows@), i),
{
    let ghost rt = row_texts(rows@);
    let mut w: Vec<usize> = Vec::new();
    let n = u64_to_string(rows.len() as u64);
    let d = chars_of(n.as_str()).len();
    let hw = str_width("#");
    w.push(if d > hw { d } else { hw });
    let mut i: usize = 1;
    while i < 9
        invariant
            1 <= i <= 9,
            w.len() == i,
            rt == row_texts(rows@),
            w@[0] == col_width(rt, 0),
            forall|j: int| 1 <= j < i ==> w@[j] == display_width(header_text(j)),
        decreases 9 - i,
    {
        w.push(str_width(header_exec(i)));
        i += 1;
    }
    let mut k: usize = 0;
    while k < rows.len()
        invariant
            k <= rows.len(),
            w.len() == 9,
            rt == row_texts(rows@),
            w@[0] == col_width(rt, 0),
            forall|j: int| 1 <= j < 9 ==> {
                let m = col_max(rt.take(k as int), j - 1);
                #[trigger] w@[j] == (if m > display_width(header_text(j)) { m } else { display_width(header_text(j)) })
            },
        decreases rows.len() - k,
    {
        let ghost t = rt.take(k + 1);
        assert(t.drop_last() =~= rt.take(k as int));
        assert(t.last() == texts(rows@[k as int]@));
        let row = &rows[k];
        let mut j: usize = 1;
        let ghost w0 = w@;
        while j < 9
            invariant
                1 <= j <= 9,
                w.len() == 9,
                w@[0] == w0[0],
                forall|c: int| j <= c < 9 ==> w@[c] == w0[c],
                forall|c: int| 1 <= c < j ==> {
                    let m = col_max(t, c - 1);
                    #[trigger] w@[c] == (if m > display_width(header_text(c)) { m } else { display_width(header_text(c)) })
                },
                forall|c: int| 1 <= c < 9 ==> {
                    let m = col_max(rt.take(k as int), c - 1);
                    #[trigger] w0[c] == (if m > display_width(header_text(c)) { m } else { display_width(header_text(c)) })
                },
                t.last() == texts(row@),
                t.drop_last() == rt.take(k as int),
                k < rows.len(),
                rt == row_texts(rows@),
                t == rt.take(k + 1),
            decreases 9 - j,
        {
            let x: usize = if j - 1 < row.len() { str_width(row[j - 1].as_str()) } else { str_width("") };
            assert(x == display_width(cell(t.last(), j - 1))) by {
                if j - 1 < row.len() {
                    assert(t.last()[j - 1] == row@[j - 1]@);
                } else {
                    reveal_strlit("");
                    assert(cell(t.last(), j - 1) =~= ""@);
                }
            }
            let ghost mprev = col_max(rt.take(k as int), j - 1);
            assert(t.len() == k + 1);
            assert(col_max(t.drop_last(), j - 1) == mprev);
            assert(x == display_width(cell(t.last(), j - 1)));
            assert(col_max(t, j - 1) == (if x > mprev { x as nat } else { mprev }));
            assert(w0[j as int] == (if mprev > display_width(header_text(j as int)) { mprev } else { display_width(header_text(j as int)) }));
            if x > w[j] {
                w.set(j, x);
            }
            assert(w@[j as int] == (if col_max(t, j - 1) > display_width(header_text(j as int)) { col_max(t, j - 1) } else { display_width(header_text(j as int)) }));
            j += 1;
        }
        k += 1;
    }
    assert(rt.take(k as int) =~= rt);
    w
}

proof fn lemma_visible_le(w: Seq<usize>, tw: int, v: int)
    ensures
        visible_from(w, tw, v) <= v,
    decreases v,
{
    if !(v <= 4 || width_sum(w, v) + (v - 1) <= tw) {
        lemma_visible_le(w, tw, v - 1);
    }
}

fn join_cells(cells: &Vec<String>) -> (r: String)
    ensures
        r@ == join_sp(texts(cells@)),
{
    let ghost c = texts(cells@);
    let mut out = String::new();
    let mut j: usize = 0;
    while j < cells.len()
        invariant
            j <= cells.len(),
            c == texts(cells@),
            out@ == join_sp(c.take(j as int)),
        decreases cells.len() - j,
    {
        assert(c.take(j + 1).drop_last() =~= c.take(j as int));
        if j > 0 {
            push_str(&mut out, " ");
        }
        push_str(&mut out, cells[j].as_str());
        proof {
            if j == 0 {
                assert(c.take(1) =~= seq![c[0]]);
                assert(out@ =~= c[0]);
            }
        }
        j += 1;
    }
    assert(c.take(j as int) =~= c);
    out
}

fn seq_text(k: usize, sw: usize) -> (r: String)
    ensures
        r@ == pad_left_with(dec(k as nat), sw as nat, '0'),
{
    let d = u64_to_string(k as u64);
    let c = chars_of(d.as_str());
    let p = pad_left_vec(c.as_slice(), sw, '0');
    string_of(p.as_slice())
}

/// The lines of the `as list` table for `rows` on a terminal `tw` columns
/// wide.
pub fn list_table(rows: &Vec<Vec<String>>, tw: usize) -> (r: Vec<String>)
    ensures
        texts(r@) == table_lines(row_texts(rows@), tw as nat),
{
    let ghost rt = row_texts(rows@);
    let mut out: Vec<String> = Vec::new();
    if rows.len() == 0 {
        out.push(String::from_str("暂无已安装软件"));
        assert(texts(out@) =~= table_lines(rt, tw as nat));
        return out;
    }
    let w = widths(rows);
    let ghost ws = Seq::new(9, |i: int| col_width(rt, i) as usize);
    assert(w@ =~= ws);
    let (eff, vis) = visible_columns(w.as_slice(), tw);
    proof {
        lemma_visible_le(ws, tw as int, layout_spec(ws, tw as int).0);
    }
    let sw = chars_of(u64_to_string(rows.len() as u64).as_str()).len();
    let mut hc: Vec<String> = Vec::new();
    let mut rc: Vec<String> = Vec::new();
    let mut i: usize = 0;
    while i < vis
        invariant
            i <= vis <= 9,
            w.len() == 9,
            w@ == ws,
            texts(hc@) == Seq::new(i as nat, |j: int| head_cell(ws, j)),
            texts(rc@) == Seq::new(i as nat, |j: int| repeat_char('-', ws[j] as nat)),
        decreases vis - i,
    {
        let h = if i == 0 { pad_r(header_exec(0), w[0]) } else { pad(header_exec(i), w[i]) };
        let ghost hb = texts(hc@);
        let ghost hv = h@;
        hc.push(h);
        assert(texts(hc@) =~= hb.push(hv));
        assert(texts(hc@) =~= Seq::new((i + 1) as nat, |j: int| head_cell(ws, j)));
        let dash = string_of(repeat_vec('-', w[i]).as_slice());
        let ghost rb = texts(rc@);
        let ghost dv = dash@;
        rc.push(dash);
        assert(texts(rc@) =~= rb.push(dv));
        assert(texts(rc@) =~= Seq::new((i + 1) as nat, |j: int| repeat_char('-', ws[j] as nat)));
        i += 1;
    }
    out.push(join_cells(&hc));
    out.push(join_cells(&rc));
    let mut k: usize = 0;
    while k < rows.len()
        invariant
            k <= rows.len(),
            vis <= 9,
            w.len() == 9,
            w@ == ws,
            rt == row_texts(rows@),
            sw as nat == dec(rows.len() as nat).len(),
            texts(out@) == seq![join_sp(Seq::new(vis as nat, |j: int| head_cell(ws, j))), join_sp(Seq::new(vis as nat, |j: int| repeat_char('-', ws[j] as nat)))]
                + Seq::new(k as nat, |q: int| join_sp(Seq::new(vis as nat, |j: int| data_cell(ws, rt[q], (q + 1) as nat, sw as nat, j)))),
        decreases rows.len() - k,
    {
        let row = &rows[k];
        let ghost rk = rt[k as int];
        assert(rk == texts(row@));
        let mut cells: Vec<String> = Vec::new();
        let mut j: usize = 0;
        while j < vis
            invariant
                j <= vis <= 9,
                w.len() == 9,
                w@ == ws,
                k < rows.len(),
                rk == texts(row@),
                texts(cells@) == Seq::new(j as nat, |c: int| data_cell(ws, rk, (k + 1) as nat, sw as nat, c)),
            decreases vis - j,
        {
            let c = if j == 0 {
                let st = seq_text(k + 1, sw);
                pad_r(st.as_str(), w[0])
            } else if j - 1 < row.len() {
                pad(row[j - 1].as_str(), w[j])
            } else {
                proof {
                    reveal_strlit("");
                    assert(cell(rk, j - 1) =~= ""@);
                }
                pad("", w[j])
            };
            let ghost cb = texts(cells@);
            let ghost cv = c@;
            cells.push(c);
            assert(texts(cells@) =~= cb.push(cv));
            assert(texts(cells@) =~= Seq::new((j + 1) as nat, |c: int| data_cell(ws, rk, (k + 1) as nat, sw as nat, c)));
            j += 1;
        }
        let line = join_cells(&cells);
        let ghost before = texts(out@);
        out.push(line);
        assert(texts(out@) =~= before.push(line@));
        k += 1;
    }
    if vis < eff {
        let mut msg = String::from_str("警告：终端宽度仅 ");
        push_str(&mut msg, u64_to_string(tw as u64).as_str());
        push_str(&mut msg, " 列，不足以显示全部列，");
        push_str(&mut msg, u64_to_string((eff - vis) as u64).as_str());
        push_str(&mut msg, " 列内容已隐藏（扩展终端宽度可查看）");
        let ghost before = texts(out@);
        out.push(msg);
        assert(texts(out@) =~= before.push(msg@));
    }
    assert(texts(out@) =~= table_lines(rt, tw as nat));
    out
}

} // verus!
