//! The table `env tag list` prints: a header, a rule, and for each tag its
//! name, aliases, PATH entries and variables, one item per line.

use vstd::prelude::*;
use crate::tags::{TagDef, TagColumns, tag_row_vars};
use crate::colors::show::vars_sort_of;
use crate::aspkg::software::{pad, pad_spec};
use crate::as4::versions::{truncate_display, truncate_spec};
use crate::text::{display_width, str_width, repeat_char, repeat_vec, string_of, push_str};

verus! {

/// A cell: the text padded to the column when it fits, else cut with `…`
/// (left as it is in a column of 3 or fewer).
pub open spec fn tag_cell(text: Seq<char>, w: nat) -> Seq<char> {
    if display_width(text) <= w {
        pad_spec(text, w)
    } else if w <= 3 {
        text
    } else {
        truncate_spec(text, w)
    }
}

/// An empty cell.
pub open spec fn blank(w: nat) -> Seq<char> {
    repeat_char(' ', w)
}

/// A line of the table: indented by two, cells two apart (the alias cell
/// only when some tag has an alias).
pub open spec fn tag_line(has_aliases: bool, n: Seq<char>, a: Seq<char>, p: Seq<char>, v: Seq<char>) -> Seq<char> {
    if has_aliases {
        "  "@ + n + "  "@ + a + "  "@ + p + "  "@ + v
    } else {
        "  "@ + n + "  "@ + p + "  "@ + v
    }
}

/// `name=value`.
pub open spec fn var_text(p: (String, String)) -> Seq<char> {
    p.0@ + "="@ + p.1@
}

/// Lines a tag takes: one per PATH entry, variable or alias, at least one.
pub open spec fn line_count(def: TagDef, nvars: int) -> int {
    let a = def.path.len() as int;
    let b = if nvars > a { nvars } else { a };
    let c = if def.aliases.len() > b { def.aliases.len() as int } else { b };
    if c < 1 { 1 } else { c }
}

/// Line `i` of a tag: its name on the first line, then its `i`-th alias,
/// PATH entry and variable (sorted by name), blank where there is none.
pub open spec fn tag_row_line(
    name: Seq<char>,
    def: TagDef,
    vars: Seq<(String, String)>,
    cols: TagColumns,
    has_aliases: bool,
    i: int,
) -> Seq<char> {
    tag_line(
        has_aliases,
        if i == 0 { tag_cell(name, cols.name as nat) } else { blank(cols.name as nat) },
        if i < def.aliases.len() { tag_cell(def.aliases@[i]@, cols.alias as nat) } else { blank(cols.alias as nat) },
        if i < def.path.len() { tag_cell(def.path@[i]@, cols.path as nat) } else { blank(cols.path as nat) },
        if i < vars.len() { tag_cell(var_text(vars[i]), cols.var as nat) } else { blank(cols.var as nat) },
    )
}

/// The lines of one tag.
pub open spec fn tag_row_lines(
    name: Seq<char>,
    def: TagDef,
    vars: Seq<(String, String)>,
    cols: TagColumns,
    has_aliases: bool,
) -> Seq<Seq<char>> {
    Seq::new(line_count(def, vars.len() as int) as nat, |i: int| tag_row_line(name, def, vars, cols, has_aliases, i))
}

/// The lines of the first `k` tags, tag after tag.
pub open spec fn rows_lines(
    rows: Seq<(String, TagDef)>,
    vars: Seq<Seq<(String, String)>>,
    cols: TagColumns,
    has_aliases: bool,
    k: int,
) -> Seq<Seq<char>>
    decreases k,
{
    if k <= 0 {
        Seq::empty()
    } else {
        rows_lines(rows, vars, cols, has_aliases, k - 1) + tag_row_lines(
            rows[k - 1].0@,
            rows[k - 1].1,
            vars[k - 1],
            cols,
            has_aliases,
        )
    }
}

/// The table: the header, a rule of dashes, an empty line, then the tags'
/// lines; `vars` holds each tag's variables sorted by name.
pub open spec fn tag_table_spec(
    rows: Seq<(String, TagDef)>,
    vars: Seq<Seq<(String, String)>>,
    cols: TagColumns,
    has_aliases: bool,
) -> Seq<Seq<char>> {
    let head = tag_line(
        has_aliases,
        pad_spec("名称"@, cols.name as nat),
        pad_spec("别名"@, cols.alias as nat),
        pad_spec("路径"@, cols.path as nat),
        pad_spec("变量"@, cols.var as nat),
    );
    let rule = tag_line(
        has_aliases,
        repeat_char('-', cols.name as nat),
        repeat_char('-', cols.alias as nat),
        repeat_char('-', cols.path as nat),
        repeat_char('-', cols.var as nat),
    );
    seq![head, rule, Seq::empty()] + rows_lines(rows, vars, cols, has_aliases, rows.len() as int)
}

fn cell_exec(text: &str, w: usize) -> (r: String)
    ensures
        r@ == tag_cell(text@, w as nat),
{
    if str_width(text) <= w {
        pad(text, w)
    } else if w <= 3 {
        String::from_str(text)
    } else {
        truncate_display(text, w)
    }
}

fn blank_exec(w: usize) -> (r: String)
    ensures
        r@ == blank(w as nat),
{
    string_of(repeat_vec(' ', w).as_slice())
}

fn line_exec(has_aliases: bool, n: String, a: String, p: String, v: String) -> (r: String)
    ensures
        r@ == tag_line(has_aliases, n@, a@, p@, v@),
{
    let mut s = String::from_str("  ");
    push_str(&mut s, n.as_str());
    if has_aliases {
        push_str(&mut s, "  ");
        push_str(&mut s, a.as_str());
    }
    push_str(&mut s, "  ");
    push_str(&mut s, p.as_str());
    push_str(&mut s, "  ");
    push_str(&mut s, v.as_str());
    s
}

fn var_text_exec(p: &(String, String)) -> (r: String)
    ensures
        r@ == var_text(*p),
{
    let mut s = p.0.clone();
    push_str(&mut s, "=");
    push_str(&mut s, p.1.as_str());
    s
}

/// The lines of the tag table for `rows` with columns `cols`.
pub fn tag_table(rows: &Vec<(String, TagDef)>, cols: &TagColumns, has_aliases: bool) -> (r: Vec<String>)
    ensures
        exists|vs: Seq<Seq<(String, String)>>|
            vs.len() == rows.len() && (forall|i: int| 0 <= i < rows.len() ==> vars_sort_of(
                rows@[i].1.var.entries@,
                #[trigger] vs[i],
                false,
            )) && r@.map_values(|s: String| s@) == tag_table_spec(rows@, vs, *cols, has_aliases),
{
    let mut out: Vec<String> = Vec::new();
    out.push(line_exec(
        has_aliases,
        pad("名称", cols.name),
        pad("别名", cols.alias),
        pad("路径", cols.path),
        pad("变量", cols.var),
    ));
    out.push(line_exec(
        has_aliases,
        string_of(repeat_vec('-', cols.name).as_slice()),
        string_of(repeat_vec('-', cols.alias).as_slice()),
        string_of(repeat_vec('-', cols.path).as_slice()),
        string_of(repeat_vec('-', cols.var).as_slice()),
    ));
    out.push(String::new());
    let ghost head3 = out@.map_values(|s: String| s@);
    let ghost mut vs: Seq<Seq<(String, String)>> = Seq::empty();
    let mut k: usize = 0;
    while k < rows.len()
        invariant
            k <= rows.len(),
            vs.len() == k,
            forall|i: int| 0 <= i < k ==> vars_sort_of(rows@[i].1.var.entries@, #[trigger] vs[i], false),
            out@.map_values(|s: String| s@) == head3 + rows_lines(rows@, vs, *cols, has_aliases, k as int),
        decreases rows.len() - k,
    {
        let name = &rows[k].0;
        let def = &rows[k].1;
        let vars = tag_row_vars(def);
        let ghost vs2 = vs.push(vars@);
        let a = def.path.len();
        let b = if vars.len() > a { vars.len() } else { a };
        let c = if def.aliases.len() > b { def.aliases.len() } else { b };
        let count = if c < 1 { 1 } else { c };
        let ghost base = out@.map_values(|s: String| s@);
        proof {
            assert forall|j: int| 0 <= j < k implies #[trigger] vs2[j] == vs[j] by {}
            lemma_rows_lines_prefix(rows@, vs, vs2, *cols, has_aliases, k as int);
        }
        let mut i: usize = 0;
        while i < count
            invariant
                i <= count,
                count as int == line_count(*def, vars.len() as int),
                out@.map_values(|s: String| s@) == base + Seq::new(i as nat, |j: int| tag_row_line(name@, *def, vars@, *cols, has_aliases, j)),
            decreases count - i,
        {
            let n = if i == 0 { cell_exec(name.as_str(), cols.name) } else { blank_exec(cols.name) };
            let al = if i < def.aliases.len() { cell_exec(def.aliases[i].as_str(), cols.alias) } else { blank_exec(cols.alias) };
            let p = if i < def.path.len() { cell_exec(def.path[i].as_str(), cols.path) } else { blank_exec(cols.path) };
            let v = if i < vars.len() {
                let t = var_text_exec(&vars[i]);
                cell_exec(t.as_str(), cols.var)
            } else {
                blank_exec(cols.var)
            };
            let line = line_exec(has_aliases, n, al, p, v);
            let ghost before = out@.map_values(|s: String| s@);
            out.push(line);
            assert(out@.map_values(|s: String| s@) =~= before.push(line@));
            assert(out@.map_values(|s: String| s@) =~= base + Seq::new((i + 1) as nat, |j: int| tag_row_line(name@, *def, vars@, *cols, has_aliases, j)));
            i += 1;
        }
        proof {
            vs = vs2;
            assert(rows_lines(rows@, vs, *cols, has_aliases, k + 1) == rows_lines(rows@, vs, *cols, has_aliases, k as int)
                + tag_row_lines(name@, *def, vars@, *cols, has_aliases));
            assert(out@.map_values(|s: String| s@) =~= head3 + rows_lines(rows@, vs, *cols, has_aliases, k + 1));
        }
        k += 1;
    }
    out
}

proof fn lemma_rows_lines_prefix(
    rows: Seq<(String, TagDef)>,
    vs: Seq<Seq<(String, String)>>,
    vs2: Seq<Seq<(String, String)>>,
    cols: TagColumns,
    has_aliases: bool,
    k: int,
)
    requires
        0 <= k,
        k <= vs.len(),
        k <= vs2.len(),
        forall|j: int| 0 <= j < k ==> #[trigger] vs2[j] == vs[j],
    ensures
        rows_lines(rows, vs2, cols, has_aliases, k) == rows_lines(rows, vs, cols, has_aliases, k),
    decreases k,
{
    if k > 0 {
        lemma_rows_lines_prefix(rows, vs, vs2, cols, has_aliases, k - 1);
        assert(vs2[k - 1] == vs[k - 1]);
    }
}

} // verus!
