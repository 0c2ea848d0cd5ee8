//! The external tools (aria2c, curl, 7-Zip) and the places they are looked
//! for, in order.

use vstd::prelude::*;
use crate::environ::EnvVars;
use crate::config::paths::{join_path, join_spec};
use crate::text::{chars_of, string_of, trim_end_char};
use crate::glob::{split_char, split_chars, views};
use crate::aspkg::locate::texts;

verus! {

/// An external tool.
#[derive(PartialEq, Eq, Structural, Clone, Copy, Debug)]
pub enum Tool {
    Aria2c,
    Curl,
    SevenZip,
}

pub open spec fn exe_spec(t: Tool) -> Seq<char> {
    match t {
        Tool::Aria2c => "aria2c.exe"@,
        Tool::Curl => "curl.exe"@,
        Tool::SevenZip => "7z.exe"@,
    }
}

pub open spec fn stem_spec(t: Tool) -> Seq<char> {
    match t {
        Tool::Aria2c => "aria2c"@,
        Tool::Curl => "curl"@,
        Tool::SevenZip => "7z"@,
    }
}

pub open spec fn env_var_spec(t: Tool) -> Seq<char> {
    match t {
        Tool::Aria2c => "AMINOS_ARIA2C_PATH"@,
        Tool::Curl => "AMINOS_CURL_PATH"@,
        Tool::SevenZip => "AMINOS_7Z_PATH"@,
    }
}

/// The places a tool is looked for, in order: the path its variable names,
/// `%LOCALAPPDATA%\aminos\tools\{stem}\{exe}`, beside the running executable
/// (`exe_dir`), the desktop, then each folder of `PATH` (split at `;`).
pub open spec fn candidates_spec(t: Tool, env: EnvVars, exe_dir: Option<Seq<char>>) -> Seq<Seq<char>> {
    let a: Seq<Seq<char>> = match env.lookup(env_var_spec(t)) { Some(p) => seq![p], None => Seq::empty() };
    let b: Seq<Seq<char>> = match env.lookup("LOCALAPPDATA"@) {
        Some(l) => seq![join_spec(join_spec(join_spec(join_spec(l, "aminos"@), "tools"@), stem_spec(t)), exe_spec(t))],
        None => Seq::empty(),
    };
    let c: Seq<Seq<char>> = match exe_dir { Some(d) => seq![join_spec(d, exe_spec(t))], None => Seq::empty() };
    let d: Seq<Seq<char>> = match env.lookup("USERPROFILE"@) {
        Some(u) => seq![join_spec(join_spec(u, "Desktop"@), exe_spec(t))],
        None => Seq::empty(),
    };
    let e: Seq<Seq<char>> = match env.lookup("PATH"@) {
        Some(p) => split_char(p, ';').map_values(|dir: Seq<char>| join_spec(dir, exe_spec(t))),
        None => Seq::empty(),
    };
    a + b + c + d + e
}

impl Tool {
    /// The executable's file name.
    pub fn exe_name(&self) -> (r: &'static str)
        ensures
            r@ == exe_spec(*self),
    {
        match self {
            Tool::Aria2c => "aria2c.exe",
            Tool::Curl => "curl.exe",
            Tool::SevenZip => "7z.exe",
        }
    }

    fn stem(&self) -> (r: &'static str)
        ensures
            r@ == stem_spec(*self),
    {
        match self {
            Tool::Aria2c => "aria2c",
            Tool::Curl => "curl",
            Tool::SevenZip => "7z",
        }
    }

    /// The variable that names the tool's path.
    pub fn env_var(&self) -> (r: &'static str)
        ensures
            r@ == env_var_spec(*self),
    {
        match self {
            Tool::Aria2c => "AMINOS_ARIA2C_PATH",
            Tool::Curl => "AMINOS_CURL_PATH",
            Tool::SevenZip => "AMINOS_7Z_PATH",
        }
    }

    /// The places to look for the tool, in order (the caller takes the first
    /// that is a file).
    pub fn candidates(&self, env: &EnvVars, exe_dir: Option<&str>) -> (r: Vec<String>)
        ensures
            texts(r@) == candidates_spec(*self, *env, match exe_dir { Some(d) => Some(d@), None => None }),
    {
        let ghost ed = match exe_dir { Some(d) => Some(d@), None => None };
        let exe = self.exe_name();
        let mut out: Vec<String> = Vec::new();
        let ghost s0 = texts(out@);
        match env.get(self.env_var()) {
            Some(p) => out.push(p),
            None => {},
        }
        let ghost s1 = texts(out@);
        match env.get("LOCALAPPDATA") {
            Some(l) => {
                let a = join_path(l.as_str(), "aminos");
                let b = join_path(a.as_str(), "tools");
                let c = join_path(b.as_str(), self.stem());
                out.push(join_path(c.as_str(), exe));
            },
            None => {},
        }
        let ghost s2 = texts(out@);
        match exe_dir {
            Some(d) => out.push(join_path(d, exe)),
            None => {},
        }
        let ghost s3 = texts(out@);
        match env.get("USERPROFILE") {
            Some(u) => {
                let dk = join_path(u.as_str(), "Desktop");
                out.push(join_path(dk.as_str(), exe));
            },
            None => {},
        }
        let ghost s4 = texts(out@);
        match env.get("PATH") {
            Some(p) => {
                let pc = chars_of(p.as_str());
                let dirs = split_chars(pc.as_slice(), ';');
                let ghost dv = views(dirs@);
                let mut i: usize = 0;
                while i < dirs.len()
                    invariant
                        i <= dirs.len(),
                        dv == views(dirs@),
                        texts(out@) == s4 + dv.take(i as int).map_values(|dir: Seq<char>| join_spec(dir, exe_spec(*self))),
                        exe@ == exe_spec(*self),
                    decreases dirs.len() - i,
                {
                    let ds = string_of(dirs[i].as_slice());
                    let ghost before = texts(out@);
                    out.push(join_path(ds.as_str(), exe));
                    assert(dv.take(i + 1) =~= dv.take(i as int).push(dv[i as int]));
                    assert(texts(out@) =~= before.push(join_spec(dv[i as int], exe_spec(*self))));
                    assert(s4 + dv.take(i + 1).map_values(|dir: Seq<char>| join_spec(dir, exe_spec(*self)))
                        =~= (s4 + dv.take(i as int).map_values(|dir: Seq<char>| join_spec(dir, exe_spec(*self)))).push(join_spec(dv[i as int], exe_spec(*self))));
                    i += 1;
                }
                assert(dv.take(dirs.len() as int) =~= dv);
            },
            None => {
                assert(texts(out@) =~= s4 + Seq::<Seq<char>>::empty());
            },
        }
        assert(texts(out@) =~= candidates_spec(*self, *env, ed));
        out
    }

    /// Every tool with where it was found (`found`, one entry per tool in
    /// the order Aria2c, Curl, 7-Zip, looked up by the caller).
    pub fn list_all(found: Vec<Option<String>>) -> (r: Vec<(Tool, Option<String>)>)
        requires
            found.len() == 3,
        ensures
            r@.len() == 3,
            r@[0].0 == Tool::Aria2c && r@[1].0 == Tool::Curl && r@[2].0 == Tool::SevenZip,
            forall|i: int| 0 <= i < 3 ==> #[trigger] r@[i].1 == found@[i],
    {
        let mut f = found;
        let c = f.pop().unwrap();
        let b = f.pop().unwrap();
        let a = f.pop().unwrap();
        let mut out: Vec<(Tool, Option<String>)> = Vec::new();
        out.push((Tool::Aria2c, a));
        out.push((Tool::Curl, b));
        out.push((Tool::SevenZip, c));
        out
    }
}

} // verus!
