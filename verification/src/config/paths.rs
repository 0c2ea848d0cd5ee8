//! Data folders of the tool set under `%LOCALAPPDATA%\{app}`.

use vstd::prelude::*;
use crate::environ::EnvVars;
use crate::text::{chars_of, push_char, push_str};

verus! {

/// `name` joined under the folder `base` (Windows paths): `base\name`, with
/// no separator added after an empty base, a trailing separator or a bare drive.
pub open spec fn join_spec(base: Seq<char>, name: Seq<char>) -> Seq<char> {
    if base.len() == 0 {
        name
    } else if base.last() == '\\' || base.last() == '/' || (base.len() == 2 && base[1] == ':') {
        base + name
    } else {
        base + seq!['\\'] + name
    }
}

/// Joins the relative `name` under `base`.
pub fn join_path(base: &str, name: &str) -> (r: String)
    ensures
        r@ == join_spec(base@, name@),
{
    let b = chars_of(base);
    let n = b.len();
    let mut s = String::from_str(base);
    if n == 0 {
        return String::from_str(name);
    }
    if !(b[n - 1] == '\\' || b[n - 1] == '/' || (n == 2 && b[1] == ':')) {
        push_char(&mut s, '\\');
    }
    push_str(&mut s, name);
    s
}

/// Finds the data folders of one application.
pub struct PathResolver {
    pub app_name: &'static str,
}

impl PathResolver {
    /// A resolver for `app_name`.
    pub fn new(app_name: &'static str) -> (r: Self)
        ensures
            r.app_name@ == app_name@,
    {
        PathResolver { app_name }
    }

    /// The `aminos` resolver.
    pub fn aminos() -> (r: Self)
        ensures
            r.app_name@ == "aminos"@,
    {
        PathResolver { app_name: "aminos" }
    }

    /// `%LOCALAPPDATA%\{app}` (`.` standing for an unset `LOCALAPPDATA`).
    pub open spec fn root(&self, env: EnvVars) -> Seq<char> {
        join_spec(
            match env.lookup("LOCALAPPDATA"@) {
                Some(v) => v,
                None => "."@,
            },
            self.app_name@,
        )
    }

    /// The application data root.
    pub fn appdata_root(&self, env: &EnvVars) -> (r: String)
        ensures
            r@ == self.root(*env),
    {
        let local = match env.get("LOCALAPPDATA") {
            Some(v) => v,
            None => String::from_str("."),
        };
        join_path(local.as_str(), self.app_name)
    }

    /// The source definitions folder: `AMINOS_SOURCE_DIR` when set, else the
    /// `source` folder beside the executable when it exists (`sibling`, found
    /// by the caller), else `source` under the data root.
    pub fn source_dir(&self, env: &EnvVars, sibling: Option<&str>) -> (r: String)
        ensures
            r@ == match env.lookup("AMINOS_SOURCE_DIR"@) {
                Some(v) => v,
                None => match sibling {
                    Some(d) => d@,
                    None => join_spec(self.root(*env), "source"@),
                },
            },
    {
        if let Some(v) = env.get("AMINOS_SOURCE_DIR") {
            return v;
        }
        if let Some(d) = sibling {
            return String::from_str(d);
        }
        join_path(self.appdata_root(env).as_str(), "source")
    }

    /// The download cache: `{root}\downloads`.
    pub fn downloads_dir(&self, env: &EnvVars) -> (r: String)
        ensures
            r@ == join_spec(self.root(*env), "downloads"@),
    {
        join_path(self.appdata_root(env).as_str(), "downloads")
    }

    /// The install records folder: `{root}\apps`.
    pub fn apps_dir(&self, env: &EnvVars) -> (r: String)
        ensures
            r@ == join_spec(self.root(*env), "apps"@),
    {
        join_path(self.appdata_root(env).as_str(), "apps")
    }

    /// The install records file: `{root}\apps\installed.json`.
    pub fn installed_json(&self, env: &EnvVars) -> (r: String)
        ensures
            r@ == join_spec(join_spec(self.root(*env), "apps"@), "installed.json"@),
    {
        join_path(self.apps_dir(env).as_str(), "installed.json")
    }
}

} // verus!
