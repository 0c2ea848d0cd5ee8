//! Namespaced environment variables (`AMINOS_*`).

use vstd::prelude::*;
use crate::environ::EnvVars;
use crate::text::{chars_of, parse_u64, push_char, push_str, str_eq, u64_text};

verus! {

/// Reads the environment variables of one namespace: `{NAMESPACE}_{KEY}`.
pub struct EnvConfig {
    pub namespace: &'static str,
}

/// The variable name of `suffix` in `namespace`.
pub open spec fn key_spec(namespace: Seq<char>, suffix: Seq<char>) -> Seq<char> {
    if suffix.len() == 0 {
        namespace
    } else {
        namespace + seq!['_'] + suffix
    }
}

impl EnvConfig {
    /// A reader for the given namespace.
    pub fn new(namespace: &'static str) -> (r: Self)
        ensures
            r.namespace@ == namespace@,
    {
        EnvConfig { namespace }
    }

    /// The `AMINOS` namespace.
    pub fn aminos() -> (r: Self)
        ensures
            r.namespace@ == "AMINOS"@,
    {
        EnvConfig { namespace: "AMINOS" }
    }

    /// Full variable name: `{NAMESPACE}_{KEY}`, or the namespace alone for an empty key.
    pub fn key(&self, suffix: &str) -> (r: String)
        ensures
            r@ == key_spec(self.namespace@, suffix@),
    {
        let mut s = String::from_str(self.namespace);
        let sc = chars_of(suffix);
        if sc.len() == 0 {
            s
        } else {
            push_char(&mut s, '_');
            push_str(&mut s, suffix);
            s
        }
    }

    /// Value of the namespaced variable `key` in `env`.
    pub open spec fn value(&self, env: EnvVars, key: Seq<char>) -> Option<Seq<char>> {
        env.lookup(key_spec(self.namespace@, key))
    }

    /// Value of the namespaced variable, if set.
    pub fn get(&self, key: &str, env: &EnvVars) -> (r: Option<String>)
        ensures
            match r {
                Some(v) => self.value(*env, key@) == Some(v@),
                None => self.value(*env, key@) is None,
            },
    {
        let k = self.key(key);
        env.get(k.as_str())
    }

    /// Value of the namespaced variable, or `default`.
    pub fn get_or(&self, key: &str, default: &str, env: &EnvVars) -> (r: String)
        ensures
            r@ == match self.value(*env, key@) {
                Some(v) => v,
                None => default@,
            },
    {
        match self.get(key, env) {
            Some(v) => v,
            None => String::from_str(default),
        }
    }

    /// Value of the namespaced variable as a path.
    pub fn get_path(&self, key: &str, env: &EnvVars) -> (r: Option<String>)
        ensures
            match r {
                Some(v) => self.value(*env, key@) == Some(v@),
                None => self.value(*env, key@) is None,
            },
    {
        self.get(key, env)
    }

    /// Value of the namespaced variable read as a `u64`; `None` when unset or
    /// not a number.
    pub fn get_u64(&self, key: &str, env: &EnvVars) -> (r: Option<u64>)
        ensures
            r == match self.value(*env, key@) {
                Some(v) => u64_text(v),
                None => None,
            },
    {
        match self.get(key, env) {
            Some(v) => {
                let c = chars_of(v.as_str());
                parse_u64(c.as_slice())
            },
            None => None,
        }
    }

    /// `{NS}_SOURCE_REPO`.
    pub fn source_repo(&self, env: &EnvVars) -> (r: Option<String>)
        ensures
            match r {
                Some(v) => self.value(*env, "SOURCE_REPO"@) == Some(v@),
                None => self.value(*env, "SOURCE_REPO"@) is None,
            },
    {
        self.get("SOURCE_REPO", env)
    }

    /// `{NS}_SOURCE_DIR`.
    pub fn source_dir(&self, env: &EnvVars) -> (r: Option<String>)
        ensures
            match r {
                Some(v) => self.value(*env, "SOURCE_DIR"@) == Some(v@),
                None => self.value(*env, "SOURCE_DIR"@) is None,
            },
    {
        self.get_path("SOURCE_DIR", env)
    }

    /// `{NS}_DOWNLOAD_DIR`.
    pub fn download_dir(&self, env: &EnvVars) -> (r: Option<String>)
        ensures
            match r {
                Some(v) => self.value(*env, "DOWNLOAD_DIR"@) == Some(v@),
                None => self.value(*env, "DOWNLOAD_DIR"@) is None,
            },
    {
        self.get_path("DOWNLOAD_DIR", env)
    }

    /// `{NS}_ARIA2C_PATH`.
    pub fn aria2c_path(&self, env: &EnvVars) -> (r: Option<String>)
        ensures
            match r {
                Some(v) => self.value(*env, "ARIA2C_PATH"@) == Some(v@),
                None => self.value(*env, "ARIA2C_PATH"@) is None,
            },
    {
        self.get_path("ARIA2C_PATH", env)
    }

    /// `{NS}_PROXY`.
    pub fn proxy(&self, env: &EnvVars) -> (r: Option<String>)
        ensures
            match r {
                Some(v) => self.value(*env, "PROXY"@) == Some(v@),
                None => self.value(*env, "PROXY"@) is None,
            },
    {
        self.get("PROXY", env)
    }

    /// `{NS}_MAX_THREADS` as a number.
    pub fn max_threads(&self, env: &EnvVars) -> (r: Option<u64>)
        ensures
            r == match self.value(*env, "MAX_THREADS"@) {
                Some(v) => u64_text(v),
                None => None,
            },
    {
        self.get_u64("MAX_THREADS", env)
    }

    /// `{NS}_INSECURE` is `1` or `true`.
    pub fn insecure(&self, env: &EnvVars) -> (r: bool)
        ensures
            r == match self.value(*env, "INSECURE"@) {
                Some(v) => v == "1"@ || v == "true"@,
                None => false,
            },
    {
        match self.get("INSECURE", env) {
            Some(v) => str_eq(v.as_str(), "1") || str_eq(v.as_str(), "true"),
            None => false,
        }
    }
}

} // verus!
