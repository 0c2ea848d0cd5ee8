//! Tags of `env`: named sets of PATH folders, variables, a prompt and other
//! names, edited one change at a time and combined into one `cmd` line.

use vstd::prelude::*;
use crate::colors::map::ColorMap;
use crate::aspkg::locate::texts;
use crate::text::{eq_ascii_ci, eq_ignore_ascii_case, join_with, join_strings, push_str, str_width, display_width, replace_all, replace_str};
use crate::colors::show::{sort_vars, vars_sort_of};

verus! {

/// A tag: folders put in front of PATH (in order), variables it sets (each
/// name once; walked in the order they are held), a prompt, and the other
/// names it answers to.
pub struct TagDef {
    pub path: Vec<String>,
    pub var: ColorMap,
    pub prompt: String,
    pub aliases: Vec<String>,
}

/// Why a tag change or a combination was refused.
#[derive(PartialEq, Eq, Structural, Clone, Copy, Debug)]
pub enum TagError {
    /// No PATH entry has that index; the tag has `count` of them.
    PathIndex { count: usize },
    /// The alias is already one of the tag's names.
    AliasExists,
    /// No tag was named.
    NoTags,
}

/// Some alias of `aliases` is `a`, ASCII case ignored.
pub open spec fn has_alias(aliases: Seq<Seq<char>>, a: Seq<char>) -> bool {
    exists|i: int| 0 <= i < aliases.len() && eq_ascii_ci(#[trigger] aliases[i], a)
}

/// Position of the first alias equal to `a`, ASCII case ignored.
pub open spec fn alias_pos(aliases: Seq<Seq<char>>, a: Seq<char>) -> Option<int>
    decreases aliases.len(),
{
    if aliases.len() == 0 {
        None
    } else {
        match alias_pos(aliases.drop_last(), a) {
            Some(i) => Some(i),
            None => if eq_ascii_ci(aliases.last(), a) {
                Some(aliases.len() - 1)
            } else {
                None
            },
        }
    }
}

pub proof fn lemma_alias_pos(aliases: Seq<Seq<char>>, a: Seq<char>)
    ensures
        alias_pos(aliases, a) matches Some(i) ==> 0 <= i < aliases.len() && eq_ascii_ci(aliases[i], a)
            && forall|j: int| 0 <= j < i ==> !eq_ascii_ci(#[trigger] aliases[j], a),
        alias_pos(aliases, a) is None <==> !has_alias(aliases, a),
    decreases aliases.len(),
{
    if aliases.len() > 0 {
        lemma_alias_pos(aliases.drop_last(), a);
        if let Some(i) = alias_pos(aliases.drop_last(), a) {
            assert(aliases.drop_last()[i] == aliases[i]);
            assert forall|j: int| 0 <= j < i implies !eq_ascii_ci(#[trigger] aliases[j], a) by {
                assert(aliases.drop_last()[j] == aliases[j]);
            }
        }
        if alias_pos(aliases.drop_last(), a) is None {
            assert forall|j: int| 0 <= j < aliases.len() - 1 implies !eq_ascii_ci(#[trigger] aliases[j], a) by {
                assert(aliases.drop_last()[j] == aliases[j]);
            }
        }
        if has_alias(aliases, a) {
            let k = choose|k: int| 0 <= k < aliases.len() && eq_ascii_ci(#[trigger] aliases[k], a);
            if k < aliases.len() - 1 {
                assert(eq_ascii_ci(aliases.drop_last()[k], a));
            }
        }
        if has_alias(aliases.drop_last(), a) {
            let k = choose|k: int|
                0 <= k < aliases.drop_last().len() && eq_ascii_ci(#[trigger] aliases.drop_last()[k], a);
            assert(eq_ascii_ci(aliases[k], a));
        }
    }
}

fn find_alias(aliases: &Vec<String>, a: &str) -> (r: Option<usize>)
    ensures
        match r {
            Some(i) => alias_pos(texts(aliases@), a@) == Some(i as int),
            None => alias_pos(texts(aliases@), a@) is None,
        },
{
    proof {
        lemma_alias_pos(texts(aliases@), a@);
    }
    let mut i: usize = 0;
    while i < aliases.len()
        invariant
            i <= aliases.len(),
            forall|j: int| 0 <= j < i ==> !eq_ascii_ci(#[trigger] texts(aliases@)[j], a@),
        decreases aliases.len() - i,
    {
        if eq_ignore_ascii_case(aliases[i].as_str(), a) {
            proof {
                assert(eq_ascii_ci(texts(aliases@)[i as int], a@));
                lemma_alias_pos(texts(aliases@), a@);
                if let Some(k) = alias_pos(texts(aliases@), a@) {
                    if k > i {
                        assert(!eq_ascii_ci(texts(aliases@)[i as int], a@));
                    }
                }
            }
            return Some(i);
        }
        i += 1;
    }
    None
}

impl TagDef {
    pub open spec fn wf(&self) -> bool {
        self.var.wf()
    }

    /// An empty tag.
    pub fn new() -> (r: Self)
        ensures
            r.wf(),
            r.path@.len() == 0,
            r.var.view_map() == Map::<Seq<char>, Seq<char>>::empty(),
            r.var.pairs().len() == 0,
            r.prompt@.len() == 0,
            r.aliases@.len() == 0,
    {
        TagDef { path: Vec::new(), var: ColorMap::new(), prompt: String::new(), aliases: Vec::new() }
    }

    /// Puts a folder last in the tag's PATH list.
    pub fn add_path(&mut self, p: &str)
        ensures
            texts(final(self).path@) == texts(old(self).path@).push(p@),
            final(self).var == old(self).var,
            final(self).prompt == old(self).prompt,
            final(self).aliases == old(self).aliases,
    {
        self.path.push(String::from_str(p));
        assert(texts(self.path@) =~= texts(old(self).path@).push(p@));
    }

    /// Takes the PATH entry at `index` out and hands it back; an index past
    /// the end is refused with the number of entries.
    pub fn remove_path(&mut self, index: usize) -> (r: Result<String, TagError>)
        ensures
            index < old(self).path.len() ==> r is Ok && r.unwrap()@ == old(self).path@[index as int]@
                && final(self).path@ == old(self).path@.remove(index as int),
            index >= old(self).path.len() ==> r == Err::<String, TagError>(
                TagError::PathIndex { count: old(self).path.len() },
            ) && final(self).path@ == old(self).path@,
            final(self).var == old(self).var,
            final(self).prompt == old(self).prompt,
            final(self).aliases == old(self).aliases,
    {
        if index >= self.path.len() {
            Err(TagError::PathIndex { count: self.path.len() })
        } else {
            Ok(self.path.remove(index))
        }
    }

    /// Sets a variable (adding or replacing it) and hands back the value it
    /// replaced.
    pub fn set_var(&mut self, key: &str, value: &str) -> (r: Option<String>)
        requires
            old(self).wf(),
        ensures
            final(self).wf(),
            final(self).var.view_map() == old(self).var.view_map().insert(key@, value@),
            match r {
                Some(v) => old(self).var.view_map().dom().contains(key@) && old(self).var.view_map()[key@]
                    == v@,
                None => !old(self).var.view_map().dom().contains(key@),
            },
            final(self).path == old(self).path,
            final(self).prompt == old(self).prompt,
            final(self).aliases == old(self).aliases,
    {
        let prev = self.var.get(key);
        self.var.insert(key, value);
        prev
    }

    /// Takes a variable out; says whether the tag had it.
    pub fn remove_var(&mut self, key: &str) -> (r: bool)
        requires
            old(self).wf(),
        ensures
            final(self).wf(),
            r == old(self).var.view_map().dom().contains(key@),
            final(self).var.view_map() == old(self).var.view_map().remove(key@),
            final(self).path == old(self).path,
            final(self).prompt == old(self).prompt,
            final(self).aliases == old(self).aliases,
    {
        self.var.remove(key)
    }

    /// Sets the prompt.
    pub fn set_prompt(&mut self, value: &str)
        ensures
            final(self).prompt@ == value@,
            final(self).path == old(self).path,
            final(self).var == old(self).var,
            final(self).aliases == old(self).aliases,
    {
        self.prompt = String::from_str(value);
    }

    /// Clears the prompt.
    pub fn clear_prompt(&mut self)
        ensures
            final(self).prompt@ == Seq::<char>::empty(),
            final(self).path == old(self).path,
            final(self).var == old(self).var,
            final(self).aliases == old(self).aliases,
    {
        self.prompt = String::new();
    }

    /// Adds an alias, refused when the tag already has it (ASCII case
    /// ignored).
    pub fn add_alias(&mut self, alias: &str) -> (r: Result<(), TagError>)
        ensures
            has_alias(texts(old(self).aliases@), alias@) ==> r == Err::<(), TagError>(TagError::AliasExists)
                && final(self).aliases@ == old(self).aliases@,
            !has_alias(texts(old(self).aliases@), alias@) ==> r is Ok && texts(final(self).aliases@)
                == texts(old(self).aliases@).push(alias@),
            final(self).path == old(self).path,
            final(self).var == old(self).var,
            final(self).prompt == old(self).prompt,
    {
        proof {
            lemma_alias_pos(texts(self.aliases@), alias@);
        }
        match find_alias(&self.aliases, alias) {
            Some(_) => Err(TagError::AliasExists),
            None => {
                self.aliases.push(String::from_str(alias));
                assert(texts(self.aliases@) =~= texts(old(self).aliases@).push(alias@));
                Ok(())
            },
        }
    }

    /// Takes out the first alias equal to `alias` (ASCII case ignored); says
    /// whether there was one.
    pub fn remove_alias(&mut self, alias: &str) -> (r: bool)
        ensures
            match alias_pos(texts(old(self).aliases@), alias@) {
                Some(i) => r && final(self).aliases@ == old(self).aliases@.remove(i),
                None => !r && final(self).aliases@ == old(self).aliases@,
            },
            final(self).path == old(self).path,
            final(self).var == old(self).var,
            final(self).prompt == old(self).prompt,
    {
        proof {
            lemma_alias_pos(texts(self.aliases@), alias@);
        }
        match find_alias(&self.aliases, alias) {
            Some(i) => {
                self.aliases.remove(i);
                true
            },
            None => false,
        }
    }
}

impl Default for TagDef {
    fn default() -> (r: Self)
        ensures
            r.wf(),
            r.path@.len() == 0,
            r.var.pairs().len() == 0,
            r.prompt@.len() == 0,
            r.aliases@.len() == 0,
    {
        TagDef::new()
    }
}

/// Adding a fresh alias and then removing it leaves the aliases as they were.
pub proof fn add_then_remove_alias(aliases: Seq<Seq<char>>, a: Seq<char>)
    requires
        !has_alias(aliases, a),
    ensures
        alias_pos(aliases.push(a), a) == Some(aliases.len() as int),
        aliases.push(a).remove(aliases.len() as int) == aliases,
{
    lemma_alias_pos(aliases, a);
    assert(aliases.push(a).drop_last() =~= aliases);
    assert(eq_ascii_ci(a, a));
    assert(aliases.push(a).remove(aliases.len() as int) =~= aliases);
}

/// Removing the PATH entry just added (at the old length) hands back that
/// entry and leaves the list as it was.
pub proof fn add_then_remove_path(paths: Seq<Seq<char>>, p: Seq<char>)
    ensures
        paths.push(p)[paths.len() as int] == p,
        paths.push(p).remove(paths.len() as int) == paths,
{
    assert(paths.push(p).remove(paths.len() as int) =~= paths);
}

/// After a variable is set, the tag gives back the value set; removing a
/// variable that was not there before the set restores the variables.
pub proof fn set_then_read_var(vars: Map<Seq<char>, Seq<char>>, k: Seq<char>, v: Seq<char>)
    ensures
        vars.insert(k, v).dom().contains(k),
        vars.insert(k, v)[k] == v,
        !vars.dom().contains(k) ==> vars.insert(k, v).remove(k) == vars,
{
    if !vars.dom().contains(k) {
        assert(vars.insert(k, v).remove(k) =~= vars);
    }
}

/// The first tag, in the order given, that has `query` among its aliases
/// (ASCII case ignored).
pub open spec fn alias_owner_spec(tags: Seq<(String, TagDef)>, query: Seq<char>) -> Option<int>
    decreases tags.len(),
{
    if tags.len() == 0 {
        None
    } else {
        match alias_owner_spec(tags.drop_last(), query) {
            Some(i) => Some(i),
            None => if has_alias(texts(tags.last().1.aliases@), query) {
                Some(tags.len() - 1)
            } else {
                None
            },
        }
    }
}

/// Which tag answers to `query` as an alias.
pub fn alias_owner(tags: &[(String, TagDef)], query: &str) -> (r: Option<usize>)
    ensures
        match r {
            Some(i) => alias_owner_spec(tags@, query@) == Some(i as int),
            None => alias_owner_spec(tags@, query@) is None,
        },
{
    let mut i: usize = 0;
    while i < tags.len()
        invariant
            i <= tags.len(),
            alias_owner_spec(tags@.take(i as int), query@) is None,
        decreases tags.len() - i,
    {
        assert(tags@.take(i + 1).drop_last() =~= tags@.take(i as int));
        proof {
            lemma_alias_pos(texts(tags@[i as int].1.aliases@), query@);
        }
        if find_alias(&tags[i].1.aliases, query).is_some() {
            proof {
                lemma_owner_prefix(tags@, query@, i as int + 1);
            }
            return Some(i);
        }
        i += 1;
    }
    assert(tags@.take(tags.len() as int) =~= tags@);
    None
}

proof fn lemma_owner_prefix(tags: Seq<(String, TagDef)>, query: Seq<char>, n: int)
    requires
        0 <= n <= tags.len(),
        alias_owner_spec(tags.take(n), query) is Some,
    ensures
        alias_owner_spec(tags, query) == alias_owner_spec(tags.take(n), query),
    decreases tags.len() - n,
{
    if n < tags.len() {
        assert(tags.take(n + 1).drop_last() =~= tags.take(n));
        lemma_owner_prefix(tags, query, n + 1);
    } else {
        assert(tags.take(n) =~= tags);
    }
}

/// The folders the combined tags put in front of PATH: those of later tags
/// first, each tag's in its own order.
pub open spec fn tag_paths(defs: Seq<TagDef>) -> Seq<Seq<char>>
    decreases defs.len(),
{
    if defs.len() == 0 {
        Seq::empty()
    } else {
        tag_paths(defs.drop_first()) + texts(defs[0].path@)
    }
}

/// A `cmd` assignment `@SET "name=value"`.
pub open spec fn set_cmd(k: Seq<char>, v: Seq<char>) -> Seq<char> {
    "@SET \""@ + k + "="@ + v + "\""@
}

/// The assignments of each tag's variables, tag after tag.
pub open spec fn var_cmds(defs: Seq<TagDef>) -> Seq<Seq<char>>
    decreases defs.len(),
{
    if defs.len() == 0 {
        Seq::empty()
    } else {
        var_cmds(defs.drop_last()) + defs.last().var.pairs().map_values(
            |p: (Seq<char>, Seq<char>)| set_cmd(p.0, p.1),
        )
    }
}

/// The one `cmd` line that switches to a combination of tags: PATH with
/// their folders in front (one assignment), their variables, and the prompt
/// `[name+name] $P$G`, joined by ` && `.
pub open spec fn script_spec(tags: Seq<(String, TagDef)>) -> Seq<char> {
    let names = tags.map_values(|t: (String, TagDef)| t.0@);
    let defs = tags.map_values(|t: (String, TagDef)| t.1);
    let paths = tag_paths(defs);
    let path_cmd: Seq<Seq<char>> = if paths.len() > 0 {
        seq!["@SET \"PATH="@ + join_with(paths, ";"@) + ";%PATH%\""@]
    } else {
        Seq::empty()
    };
    let prompt = "@SET \"PROMPT=["@ + join_with(names, "+"@) + "] $P$G\""@;
    join_with(path_cmd + var_cmds(defs) + seq![prompt], " && "@)
}

fn set_cmd_exec(k: &str, v: &str) -> (r: String)
    ensures
        r@ == set_cmd(k@, v@),
{
    let mut s = String::from_str("@SET \"");
    push_str(&mut s, k);
    push_str(&mut s, "=");
    push_str(&mut s, v);
    push_str(&mut s, "\"");
    s
}

/// The `cmd` line for tags already looked up (name, definition), in the
/// order named; none is refused.
pub fn generate_script(tags: &[(String, TagDef)]) -> (r: Result<String, TagError>)
    ensures
        tags.len() == 0 ==> r == Err::<String, TagError>(TagError::NoTags),
        tags.len() > 0 ==> r is Ok && r.unwrap()@ == script_spec(tags@),
{
    if tags.len() == 0 {
        return Err(TagError::NoTags);
    }
    let ghost names = tags@.map_values(|t: (String, TagDef)| t.0@);
    let ghost defs = tags@.map_values(|t: (String, TagDef)| t.1);
    let mut parts: Vec<String> = Vec::new();
    let mut all_paths: Vec<String> = Vec::new();
    let mut t = tags.len();
    assert(defs.subrange(tags.len() as int, tags.len() as int) =~= Seq::<TagDef>::empty());
    while t > 0
        invariant
            t <= tags.len(),
            defs == tags@.map_values(|t: (String, TagDef)| t.1),
            texts(all_paths@) == tag_paths(defs.subrange(t as int, tags.len() as int)),
        decreases t,
    {
        let d = &tags[t - 1].1;
        let ghost before = texts(all_paths@);
        let mut j: usize = 0;
        while j < d.path.len()
            invariant
                j <= d.path.len(),
                texts(all_paths@) == before + texts(d.path@).take(j as int),
            decreases d.path.len() - j,
        {
            let ghost prev = texts(all_paths@);
            all_paths.push(d.path[j].clone());
            assert(texts(all_paths@) =~= prev.push(d.path@[j as int]@));
            assert(texts(d.path@).take(j + 1) =~= texts(d.path@).take(j as int).push(d.path@[j as int]@));
            assert(texts(all_paths@) =~= before + texts(d.path@).take(j + 1));
            j += 1;
        }
        assert(texts(d.path@).take(d.path.len() as int) =~= texts(d.path@));
        assert(defs.subrange(t - 1, tags.len() as int).drop_first() =~= defs.subrange(t as int, tags.len() as int));
        assert(defs.subrange(t - 1, tags.len() as int)[0] == tags@[t - 1].1);
        t -= 1;
    }
    assert(defs.subrange(0, tags.len() as int) =~= defs);
    let ghost paths = tag_paths(defs);
    if all_paths.len() > 0 {
        let mut s = String::from_str("@SET \"PATH=");
        let joined = join_strings(all_paths.as_slice(), ";");
        push_str(&mut s, joined.as_str());
        push_str(&mut s, ";%PATH%\"");
        parts.push(s);
    }
    let ghost head = texts(parts@);
    let mut i: usize = 0;
    while i < tags.len()
        invariant
            i <= tags.len(),
            defs == tags@.map_values(|t: (String, TagDef)| t.1),
            texts(parts@) == head + var_cmds(defs.take(i as int)),
        decreases tags.len() - i,
    {
        let d = &tags[i].1;
        let ghost before = texts(parts@);
        let ghost lines = d.var.pairs().map_values(|p: (Seq<char>, Seq<char>)| set_cmd(p.0, p.1));
        let mut j: usize = 0;
        while j < d.var.entries.len()
            invariant
                j <= d.var.entries.len(),
                lines == d.var.pairs().map_values(|p: (Seq<char>, Seq<char>)| set_cmd(p.0, p.1)),
                texts(parts@) == before + lines.take(j as int),
            decreases d.var.entries.len() - j,
        {
            let line = set_cmd_exec(d.var.entries[j].0.as_str(), d.var.entries[j].1.as_str());
            let ghost prev = texts(parts@);
            assert(lines[j as int] == line@);
            parts.push(line);
            assert(texts(parts@) =~= prev.push(line@));
            assert(lines.take(j + 1) =~= lines.take(j as int).push(lines[j as int]));
            assert(texts(parts@) =~= before + lines.take(j + 1));
            j += 1;
        }
        assert(lines.take(d.var.entries.len() as int) =~= lines);
        assert(defs.take(i + 1).drop_last() =~= defs.take(i as int));
        assert(defs.take(i + 1).last() == tags@[i as int].1);
        assert(texts(parts@) =~= head + var_cmds(defs.take(i + 1)));
        i += 1;
    }
    assert(defs.take(tags.len() as int) =~= defs);
    let mut names_v: Vec<String> = Vec::new();
    let mut k: usize = 0;
    while k < tags.len()
        invariant
            k <= tags.len(),
            names == tags@.map_values(|t: (String, TagDef)| t.0@),
            texts(names_v@) == names.take(k as int),
        decreases tags.len() - k,
    {
        let ghost prev = texts(names_v@);
        names_v.push(tags[k].0.clone());
        assert(texts(names_v@) =~= prev.push(tags@[k as int].0@));
        assert(texts(names_v@) =~= names.take(k + 1));
        k += 1;
    }
    assert(names.take(tags.len() as int) =~= names);
    let mut prompt = String::from_str("@SET \"PROMPT=[");
    let label = join_strings(names_v.as_slice(), "+");
    push_str(&mut prompt, label.as_str());
    push_str(&mut prompt, "] $P$G\"");
    let ghost mid = texts(parts@);
    parts.push(prompt);
    assert(texts(parts@) =~= mid.push(prompt@));
    let script = join_strings(parts.as_slice(), " && ");
    proof {
        let path_cmd: Seq<Seq<char>> = if paths.len() > 0 {
            seq!["@SET \"PATH="@ + join_with(paths, ";"@) + ";%PATH%\""@]
        } else {
            Seq::empty()
        };
        assert(head =~= path_cmd);
        assert(texts(parts@) =~= path_cmd + var_cmds(defs) + seq![prompt@]);
    }
    Ok(script)
}

/// `s` for a batch file: `%` doubled.
pub fn esc_bat(s: &str) -> (r: String)
    ensures
        r@ == replace_all(s@, "%"@, "%%"@),
{
    proof {
        reveal_strlit("%");
    }
    replace_str(s, "%", "%%")
}

/// `s` inside PowerShell single quotes: `'` doubled.
pub fn esc_ps1(s: &str) -> (r: String)
    ensures
        r@ == replace_all(s@, "'"@, "''"@),
{
    proof {
        reveal_strlit("'");
    }
    replace_str(s, "'", "''")
}

/// The widest of `v` in terminal columns (`dflt` when `v` is empty).
pub open spec fn max_width(v: Seq<Seq<char>>, dflt: nat) -> nat
    decreases v.len(),
{
    if v.len() == 0 {
        dflt
    } else if v.len() == 1 {
        display_width(v[0])
    } else {
        let m = max_width(v.drop_last(), dflt);
        let w = display_width(v.last());
        if w > m { w } else { m }
    }
}

fn max_width_of(v: &[String], dflt: usize) -> (r: usize)
    ensures
        r == max_width(texts(v@), dflt as nat),
{
    let mut m: usize = dflt;
    let mut i: usize = 0;
    while i < v.len()
        invariant
            i <= v.len(),
            m == max_width(texts(v@).take(i as int), dflt as nat),
        decreases v.len() - i,
    {
        assert(texts(v@).take(i + 1).drop_last() =~= texts(v@).take(i as int));
        assert(texts(v@).take(i + 1).last() == v@[i as int]@);
        let w = str_width(v[i].as_str());
        if i == 0 || w > m {
            m = w;
        }
        i += 1;
    }
    assert(texts(v@).take(v.len() as int) =~= texts(v@));
    m
}

/// A tag's variables as the table lists them: sorted by name.
pub fn tag_row_vars(def: &TagDef) -> (r: Vec<(String, String)>)
    ensures
        vars_sort_of(def.var.entries@, r@, false),
{
    let mut v: Vec<(String, String)> = Vec::new();
    let mut i: usize = 0;
    while i < def.var.entries.len()
        invariant
            i <= def.var.entries.len(),
            v@ == def.var.entries@.take(i as int),
        decreases def.var.entries.len() - i,
    {
        let e = &def.var.entries[i];
        v.push((e.0.clone(), e.1.clone()));
        assert(v@ =~= def.var.entries@.take(i + 1));
        i += 1;
    }
    assert(def.var.entries@.take(i as int) =~= def.var.entries@);
    sort_vars(v, false)
}

/// The alias column of a tag: its aliases joined by `, `.
pub open spec fn alias_label(def: TagDef) -> Seq<char> {
    join_with(texts(def.aliases@), ", "@)
}

/// All PATH entries of the rows, row after row.
pub open spec fn all_row_paths(rows: Seq<(String, TagDef)>) -> Seq<Seq<char>>
    decreases rows.len(),
{
    if rows.len() == 0 {
        Seq::empty()
    } else {
        all_row_paths(rows.drop_last()) + texts(rows.last().1.path@)
    }
}

/// All `name=value` texts of the rows, row after row.
pub open spec fn all_row_vars(rows: Seq<(String, TagDef)>) -> Seq<Seq<char>>
    decreases rows.len(),
{
    if rows.len() == 0 {
        Seq::empty()
    } else {
        all_row_vars(rows.drop_last()) + rows.last().1.var.pairs().map_values(
            |p: (Seq<char>, Seq<char>)| p.0 + "="@ + p.1,
        )
    }
}

/// Natural widths of the tag table: (name, alias, path, variable) columns,
/// and whether any tag has an alias. Names default to 6 columns when there
/// are no rows; the alias column is 0 wide when no tag has one.
pub open spec fn natural_widths_spec(rows: Seq<(String, TagDef)>) -> (nat, nat, nat, nat, bool) {
    let has_aliases = exists|i: int| 0 <= i < rows.len() && (#[trigger] rows[i]).1.aliases@.len() > 0;
    let names = rows.map_values(|r: (String, TagDef)| r.0@);
    let labels = rows.map_values(|r: (String, TagDef)| alias_label(r.1));
    (
        max_width(names, 6),
        if has_aliases { max_width(labels, 0) } else { 0 },
        max_width(all_row_paths(rows), 0),
        max_width(all_row_vars(rows), 0),
        has_aliases,
    )
}

/// Measures the tag table's columns.
pub fn natural_widths(rows: &[(String, TagDef)]) -> (r: (usize, usize, usize, usize, bool))
    ensures
        (r.0 as nat, r.1 as nat, r.2 as nat, r.3 as nat, r.4) == natural_widths_spec(rows@),
{
    let mut names: Vec<String> = Vec::new();
    let mut labels: Vec<String> = Vec::new();
    let mut paths: Vec<String> = Vec::new();
    let mut vars: Vec<String> = Vec::new();
    let mut has_aliases = false;
    let ghost rv = rows@;
    let mut i: usize = 0;
    while i < rows.len()
        invariant
            i <= rows.len(),
            rv == rows@,
            texts(names@) == rv.take(i as int).map_values(|r: (String, TagDef)| r.0@),
            texts(labels@) == rv.take(i as int).map_values(|r: (String, TagDef)| alias_label(r.1)),
            texts(paths@) == all_row_paths(rv.take(i as int)),
            texts(vars@) == all_row_vars(rv.take(i as int)),
            has_aliases == exists|k: int| 0 <= k < i && (#[trigger] rv[k]).1.aliases@.len() > 0,
        decreases rows.len() - i,
    {
        let (name, def) = (&rows[i].0, &rows[i].1);
        assert(rv.take(i + 1).drop_last() =~= rv.take(i as int));
        assert(rv.take(i + 1).last() == rv[i as int]);
        let ghost n0 = texts(names@);
        names.push(name.clone());
        assert(texts(names@) =~= n0.push(name@));
        assert(texts(names@) =~= rv.take(i + 1).map_values(|r: (String, TagDef)| r.0@));
        let label = join_strings(def.aliases.as_slice(), ", ");
        let ghost l0 = texts(labels@);
        labels.push(label);
        assert(texts(labels@) =~= l0.push(alias_label(*def)));
        assert(texts(labels@) =~= rv.take(i + 1).map_values(|r: (String, TagDef)| alias_label(r.1)));
        let ghost p0 = texts(paths@);
        let mut j: usize = 0;
        while j < def.path.len()
            invariant
                j <= def.path.len(),
                texts(paths@) == p0 + texts(def.path@).take(j as int),
            decreases def.path.len() - j,
        {
            let ghost q = texts(paths@);
            paths.push(def.path[j].clone());
            assert(texts(paths@) =~= q.push(def.path@[j as int]@));
            assert(texts(paths@) =~= p0 + texts(def.path@).take(j + 1));
            j += 1;
        }
        assert(texts(def.path@).take(def.path.len() as int) =~= texts(def.path@));
        let ghost v0 = texts(vars@);
        let ghost kv = def.var.pairs().map_values(|p: (Seq<char>, Seq<char>)| p.0 + "="@ + p.1);
        let mut k: usize = 0;
        while k < def.var.entries.len()
            invariant
                k <= def.var.entries.len(),
                kv == def.var.pairs().map_values(|p: (Seq<char>, Seq<char>)| p.0 + "="@ + p.1),
                texts(vars@) == v0 + kv.take(k as int),
            decreases def.var.entries.len() - k,
        {
            let mut t = def.var.entries[k].0.clone();
            push_str(&mut t, "=");
            push_str(&mut t, def.var.entries[k].1.as_str());
            let ghost q = texts(vars@);
            assert(t@ == kv[k as int]);
            vars.push(t);
            assert(texts(vars@) =~= q.push(kv[k as int]));
            assert(texts(vars@) =~= v0 + kv.take(k + 1));
            k += 1;
        }
        assert(kv.take(def.var.entries.len() as int) =~= kv);
        if def.aliases.len() > 0 {
            has_aliases = true;
        }
        assert(has_aliases == exists|k: int| 0 <= k < i + 1 && (#[trigger] rv[k]).1.aliases@.len() > 0) by {
            if def.aliases.len() > 0 {
                assert(rv[i as int].1.aliases@.len() > 0);
            }
        }
        i += 1;
    }
    assert(rv.take(rows.len() as int) =~= rv);
    let nw = max_width_of(names.as_slice(), 6);
    let aw = if has_aliases { max_width_of(labels.as_slice(), 0) } else { 0 };
    let pw = max_width_of(paths.as_slice(), 0);
    let vw = max_width_of(vars.as_slice(), 0);
    (nw, aw, pw, vw, has_aliases)
}

/// Column widths of the tag table: (name, alias, path, variable).
pub struct TagColumns {
    pub name: usize,
    pub alias: usize,
    pub path: usize,
    pub var: usize,
}

pub open spec fn at_least(x: int, m: int) -> int {
    if x >= m { x } else { m }
}

pub open spec fn at_most(x: int, m: int) -> int {
    if x <= m { x } else { m }
}

/// `a - b`, or 0 when `b` is larger.
pub open spec fn sat_sub(a: int, b: int) -> int {
    if a >= b { a - b } else { 0 }
}

/// How the tag table shares `term_w` columns. When the natural widths fit
/// (with an indent of 2 and gaps of 2), each column gets its natural width
/// (at least 6 for names, 4 for aliases, 10 for paths and 8 for variables);
/// else names get at most 8 and aliases at most 10 (same minimums), and
/// paths and variables split what is left six to four, the path share
/// rounded down, each still at its minimum.
pub open spec fn columns_spec(
    name_nat: int,
    alias_nat: int,
    path_nat: int,
    var_nat: int,
    has_aliases: bool,
    term_w: int,
) -> (int, int, int, int) {
    let reserved = if has_aliases { 8int } else { 6int };
    if has_aliases {
        if name_nat + alias_nat + path_nat + var_nat + reserved <= term_w {
            (at_least(name_nat, 6), at_least(alias_nat, 4), at_least(path_nat, 10), at_least(var_nat, 8))
        } else {
            let available = sat_sub(term_w, reserved);
            let nw = at_least(at_most(name_nat, 8), 6);
            let aw = at_least(at_most(alias_nat, 10), 4);
            let remain = sat_sub(available, nw + aw);
            let pw = remain * 6 / 10;
            (nw, aw, at_least(pw, 10), at_least(remain - pw, 8))
        }
    } else {
        if name_nat + path_nat + var_nat + reserved <= term_w {
            (at_least(name_nat, 6), 0, at_least(path_nat, 10), at_least(var_nat, 8))
        } else {
            let available = sat_sub(term_w, reserved);
            let nw = at_least(at_most(name_nat, 8), 6);
            let remain = sat_sub(available, nw);
            let pw = remain * 6 / 10;
            (nw, 0, at_least(pw, 10), at_least(remain - pw, 8))
        }
    }
}

fn max_us(x: usize, m: usize) -> (r: usize)
    ensures
        r == at_least(x as int, m as int),
{
    if x >= m { x } else { m }
}

fn min_us(x: usize, m: usize) -> (r: usize)
    ensures
        r == at_most(x as int, m as int),
{
    if x <= m { x } else { m }
}

fn sub_us(a: usize, b: usize) -> (r: usize)
    ensures
        r == sat_sub(a as int, b as int),
{
    if a >= b { a - b } else { 0 }
}

/// Six tenths of `n`, rounded down.
fn six_tenths(n: usize) -> (r: usize)
    ensures
        r == n * 6 / 10,
{
    let q = n / 10;
    let m = n % 10;
    assert(n * 6 / 10 == q * 6 + m * 6 / 10) by (nonlinear_arith)
        requires
            q == n / 10,
            m == n % 10,
    ;
    q * 6 + m * 6 / 10
}

/// Shares the terminal's columns among the tag table's columns.
pub fn tag_columns(
    name_nat: usize,
    alias_nat: usize,
    path_nat: usize,
    var_nat: usize,
    has_aliases: bool,
    term_w: usize,
) -> (r: TagColumns)
    requires
        name_nat + alias_nat + path_nat + var_nat + 8 <= usize::MAX,
    ensures
        (r.name as int, r.alias as int, r.path as int, r.var as int) == columns_spec(
            name_nat as int,
            alias_nat as int,
            path_nat as int,
            var_nat as int,
            has_aliases,
            term_w as int,
        ),
{
    let reserved: usize = if has_aliases { 8 } else { 6 };
    if has_aliases {
        if name_nat + alias_nat + path_nat + var_nat + reserved <= term_w {
            TagColumns {
                name: max_us(name_nat, 6),
                alias: max_us(alias_nat, 4),
                path: max_us(path_nat, 10),
                var: max_us(var_nat, 8),
            }
        } else {
            let available = sub_us(term_w, reserved);
            let nw = max_us(min_us(name_nat, 8), 6);
            let aw = max_us(min_us(alias_nat, 10), 4);
            let remain = sub_us(available, nw + aw);
            let pw = six_tenths(remain);
            TagColumns { name: nw, alias: aw, path: max_us(pw, 10), var: max_us(remain - pw, 8) }
        }
    } else {
        if name_nat + path_nat + var_nat + reserved <= term_w {
            TagColumns { name: max_us(name_nat, 6), alias: 0, path: max_us(path_nat, 10), var: max_us(var_nat, 8) }
        } else {
            let available = sub_us(term_w, reserved);
            let nw = max_us(min_us(name_nat, 8), 6);
            let remain = sub_us(available, nw);
            let pw = six_tenths(remain);
            TagColumns { name: nw, alias: 0, path: max_us(pw, 10), var: max_us(remain - pw, 8) }
        }
    }
}

} // verus!
