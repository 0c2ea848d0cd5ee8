//! Third-party source lists (`sources.toml`): the entries and the edits
//! `as source add/remove/enable/disable` make to them. Reading and writing
//! the file is the caller's.

use vstd::prelude::*;
use crate::text::{str_eq, push_str};
use crate::config::paths::{join_path, join_spec};

verus! {

/// One third-party source.
pub struct SourceEntry {
    pub name: String,
    pub url: String,
    pub enabled: bool,
}

/// A source entry as plain values.
pub type EntryView = (Seq<char>, Seq<char>, bool);

pub open spec fn entry_view(e: SourceEntry) -> EntryView {
    (e.name@, e.url@, e.enabled)
}

pub open spec fn entries_view(v: Seq<SourceEntry>) -> Seq<EntryView> {
    v.map_values(|e: SourceEntry| entry_view(e))
}

/// Some entry is named `name`.
pub open spec fn has_name(s: Seq<EntryView>, name: Seq<char>) -> bool {
    exists|i: int| 0 <= i < s.len() && s[i].0 == name
}

/// No two entries share a name.
pub open spec fn names_distinct(s: Seq<EntryView>) -> bool {
    forall|i: int, j: int| 0 <= i < j < s.len() ==> s[i].0 != s[j].0
}

/// `s` without the entries named `name`, in order.
pub open spec fn without_name(s: Seq<EntryView>, name: Seq<char>) -> Seq<EntryView>
    decreases s.len(),
{
    if s.len() == 0 {
        s
    } else if s.last().0 == name {
        without_name(s.drop_last(), name)
    } else {
        without_name(s.drop_last(), name).push(s.last())
    }
}

/// Position of the first entry named `name`.
pub open spec fn name_index(s: Seq<EntryView>, name: Seq<char>) -> Option<int> {
    if has_name(s, name) {
        Some(choose|i: int| 0 <= i < s.len() && s[i].0 == name && forall|j: int| 0 <= j < i ==> s[j].0 != name)
    } else {
        None
    }
}

/// A source defaults to enabled.
pub fn default_enabled() -> (r: bool)
    ensures
        r,
{
    true
}

/// Why an edit of the source list was refused.
#[derive(PartialEq, Eq, Structural, Clone, Copy, Debug)]
pub enum SourceError {
    /// A source with that name is already configured.
    AlreadyExists,
    /// No source has that name.
    NotFound,
}

/// The sources file of a configuration folder.
pub struct SourceConfig {
    pub path: String,
}

fn index_of(entries: &Vec<SourceEntry>, name: &str) -> (r: Option<usize>)
    ensures
        match r {
            Some(i) => name_index(entries_view(entries@), name@) == Some(i as int) && i < entries.len(),
            None => name_index(entries_view(entries@), name@) is None,
        },
{
    let ghost ev = entries_view(entries@);
    let mut i: usize = 0;
    while i < entries.len()
        invariant
            i <= entries.len(),
            ev == entries_view(entries@),
            forall|j: int| 0 <= j < i ==> ev[j].0 != name@,
        decreases entries.len() - i,
    {
        if str_eq(entries[i].name.as_str(), name) {
            proof {
                assert(ev[i as int].0 == name@);
                let c = choose|c: int| 0 <= c < ev.len() && ev[c].0 == name@ && forall|j: int| 0 <= j < c ==> ev[j].0 != name@;
                assert(0 <= c < ev.len() && ev[c].0 == name@ && forall|j: int| 0 <= j < c ==> ev[j].0 != name@);
                if c < i {
                    assert(ev[c].0 != name@);
                } else if c > i {
                    assert(ev[i as int].0 != name@);
                }
            }
            return Some(i);
        }
        i += 1;
    }
    None
}

impl SourceConfig {
    /// The `sources.toml` of the configuration folder `config_dir`.
    pub fn new(config_dir: &str) -> (r: Self)
        ensures
            r.path@ == join_spec(config_dir@, "sources.toml"@),
    {
        SourceConfig { path: join_path(config_dir, "sources.toml") }
    }

    /// Adds an enabled source named `name` at `url`; refused when the name is taken.
    pub fn add(&self, entries: &mut Vec<SourceEntry>, name: &str, url: &str) -> (r: Result<(), SourceError>)
        ensures
            has_name(entries_view(old(entries)@), name@) ==> r == Err::<(), SourceError>(SourceError::AlreadyExists)
                && final(entries)@ == old(entries)@,
            !has_name(entries_view(old(entries)@), name@) ==> r is Ok
                && entries_view(final(entries)@) == entries_view(old(entries)@).push((name@, url@, true)),
    {
        match index_of(entries, name) {
            Some(_) => Err(SourceError::AlreadyExists),
            None => {
                let ghost before = entries_view(entries@);
                entries.push(SourceEntry { name: String::from_str(name), url: String::from_str(url), enabled: default_enabled() });
                assert(entries_view(entries@) =~= before.push((name@, url@, true)));
                Ok(())
            },
        }
    }

    /// Removes every source named `name`; refused when there is none.
    pub fn remove(&self, entries: &mut Vec<SourceEntry>, name: &str) -> (r: Result<(), SourceError>)
        ensures
            has_name(entries_view(old(entries)@), name@) ==> r is Ok
                && entries_view(final(entries)@) == without_name(entries_view(old(entries)@), name@),
            !has_name(entries_view(old(entries)@), name@) ==> r == Err::<(), SourceError>(SourceError::NotFound)
                && entries_view(final(entries)@) == entries_view(old(entries)@),
    {
        let ghost before = entries_view(entries@);
        let mut kept: Vec<SourceEntry> = Vec::new();
        let n = entries.len();
        let mut taken: Vec<SourceEntry> = Vec::new();
        std::mem::swap(&mut taken, entries);
        assert(entries_view(taken@) == before);
        let mut i: usize = 0;
        while i < n
            invariant
                n == taken.len(),
                i <= n,
                before == entries_view(taken@),
                entries_view(kept@) == without_name(before.take(i as int), name@),
            decreases n - i,
        {
            proof {
                assert(before.take(i + 1).drop_last() =~= before.take(i as int));
                assert(before.take(i + 1).last() == entry_view(taken@[i as int]));
            }
            let e = &taken[i];
            if !str_eq(e.name.as_str(), name) {
                let ghost kb = entries_view(kept@);
                kept.push(SourceEntry { name: e.name.clone(), url: e.url.clone(), enabled: e.enabled });
                assert(entries_view(kept@) =~= kb.push(before.take(i + 1).last()));
            }
            i += 1;
        }
        assert(before.take(n as int) =~= before);
        proof {
            lemma_without_len(before, name@);
            if !has_name(before, name@) {
                lemma_without_absent(before, name@);
            }
        }
        if kept.len() == n {
            proof {
                lemma_without_absent(before, name@);
            }
            *entries = taken;
            return Err(SourceError::NotFound);
        }
        *entries = kept;
        Ok(())
    }

    /// Enables or disables the first source named `name`; refused when there is none.
    pub fn toggle(&self, entries: &mut Vec<SourceEntry>, name: &str, enabled: bool) -> (r: Result<(), SourceError>)
        ensures
            match name_index(entries_view(old(entries)@), name@) {
                Some(i) => r is Ok && entries_view(final(entries)@)
                    == entries_view(old(entries)@).update(i, (entries_view(old(entries)@)[i].0, entries_view(old(entries)@)[i].1, enabled)),
                None => r == Err::<(), SourceError>(SourceError::NotFound) && final(entries)@ == old(entries)@,
            },
    {
        match index_of(entries, name) {
            Some(i) => {
                let ghost before = entries_view(entries@);
                let e = SourceEntry { name: entries[i].name.clone(), url: entries[i].url.clone(), enabled };
                entries.set(i, e);
                assert(entries_view(entries@) =~= before.update(i as int, (before[i as int].0, before[i as int].1, enabled)));
                Ok(())
            },
            None => Err(SourceError::NotFound),
        }
    }
}

proof fn lemma_without_len(s: Seq<EntryView>, name: Seq<char>)
    ensures
        without_name(s, name).len() <= s.len(),
        has_name(s, name) ==> without_name(s, name).len() < s.len(),
    decreases s.len(),
{
    if s.len() > 0 {
        lemma_without_len(s.drop_last(), name);
        if has_name(s, name) && s.last().0 != name {
            let j = choose|j: int| 0 <= j < s.len() && s[j].0 == name;
            assert(j < s.len() - 1);
            assert(s.drop_last()[j].0 == name);
        }
    }
}

proof fn lemma_without_absent(s: Seq<EntryView>, name: Seq<char>)
    requires
        !has_name(s, name),
    ensures
        without_name(s, name) == s,
    decreases s.len(),
{
    if s.len() > 0 {
        assert(!has_name(s.drop_last(), name)) by {
            if has_name(s.drop_last(), name) {
                let j = choose|j: int| 0 <= j < s.drop_last().len() && s.drop_last()[j].0 == name;
                assert(s[j].0 == name);
            }
        }
        lemma_without_absent(s.drop_last(), name);
        assert(s.last().0 != name);
        assert(s.drop_last().push(s.last()) =~= s);
    }
}

proof fn lemma_without_has_none(s: Seq<EntryView>, name: Seq<char>)
    ensures
        !has_name(without_name(s, name), name),
        forall|i: int| 0 <= i < without_name(s, name).len() ==> s.contains(#[trigger] without_name(s, name)[i]),
    decreases s.len(),
{
    if s.len() > 0 {
        lemma_without_has_none(s.drop_last(), name);
        let w = without_name(s.drop_last(), name);
        assert forall|i: int| 0 <= i < without_name(s, name).len() implies s.contains(#[trigger] without_name(s, name)[i]) by {
            if s.last().0 != name && i == w.len() {
                assert(s[s.len() - 1] == s.last());
            } else {
                assert(s.drop_last().contains(w[i]));
                let k = choose|k: int| 0 <= k < s.drop_last().len() && s.drop_last()[k] == w[i];
                assert(s[k] == w[i]);
            }
        }
    }
}

/// After a source is removed, no source has its name.
pub proof fn removed_name_is_gone(s: Seq<EntryView>, name: Seq<char>)
    ensures
        !has_name(without_name(s, name), name),
{
    lemma_without_has_none(s, name);
}

/// Adding a source to a list of distinct names keeps the names distinct.
pub proof fn add_keeps_names_distinct(s: Seq<EntryView>, name: Seq<char>, url: Seq<char>)
    requires
        names_distinct(s),
        !has_name(s, name),
    ensures
        names_distinct(s.push((name, url, true))),
        has_name(s.push((name, url, true)), name),
{
    let t = s.push((name, url, true));
    assert(t[s.len() as int].0 == name);
    assert forall|i: int, j: int| 0 <= i < j < t.len() implies t[i].0 != t[j].0 by {
        if j == s.len() {
            assert(t[i] == s[i]);
        } else {
            assert(t[i] == s[i] && t[j] == s[j]);
        }
    }
}

} // verus!
