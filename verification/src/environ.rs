//! A snapshot of the process environment, taken by the caller and handed to
//! the logic that reads variables.

use vstd::prelude::*;
use crate::text::str_eq;

verus! {

/// Environment variables as name/value pairs, in the order they were read.
pub struct EnvVars {
    pub vars: Vec<(String, String)>,
}

/// Value of the first pair named `name`.
pub open spec fn env_lookup(vars: Seq<(Seq<char>, Seq<char>)>, name: Seq<char>) -> Option<Seq<char>>
    decreases vars.len(),
{
    if vars.len() == 0 {
        None
    } else if vars[0].0 == name {
        Some(vars[0].1)
    } else {
        env_lookup(vars.drop_first(), name)
    }
}

impl EnvVars {
    /// The pairs as plain text.
    pub open spec fn pairs(&self) -> Seq<(Seq<char>, Seq<char>)> {
        self.vars@.map_values(|p: (String, String)| (p.0@, p.1@))
    }

    /// Value of the variable `name`, if set.
    pub open spec fn lookup(&self, name: Seq<char>) -> Option<Seq<char>> {
        env_lookup(self.pairs(), name)
    }

    /// An empty environment.
    pub fn empty() -> (r: Self)
        ensures
            r.pairs() == Seq::<(Seq<char>, Seq<char>)>::empty(),
    {
        let r = EnvVars { vars: Vec::new() };
        assert(r.pairs() =~= Seq::<(Seq<char>, Seq<char>)>::empty());
        r
    }

    /// Value of the variable `name`, if set.
    pub fn get(&self, name: &str) -> (r: Option<String>)
        ensures
            match r {
                Some(v) => self.lookup(name@) == Some(v@),
                None => self.lookup(name@) is None,
            },
    {
        let ghost pv = self.pairs();
        let mut i: usize = 0;
        assert(pv.skip(0) =~= pv);
        while i < self.vars.len()
            invariant
                i <= self.vars.len(),
                pv == self.pairs(),
                env_lookup(pv, name@) == env_lookup(pv.skip(i as int), name@),
            decreases self.vars.len() - i,
        {
            assert(pv.skip(i as int).drop_first() =~= pv.skip(i + 1));
            assert(pv.skip(i as int)[0] == (self.vars@[i as int].0@, self.vars@[i as int].1@));
            if str_eq(self.vars[i].0.as_str(), name) {
                return Some(self.vars[i].1.clone());
            }
            i += 1;
        }
        assert(pv.skip(i as int) =~= Seq::<(Seq<char>, Seq<char>)>::empty());
        None
    }
}

} // verus!
