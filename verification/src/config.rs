//! Configuration schema: which specs to track, and which files to scan.

use vstd::prelude::*;

use crate::strutil::clone_strings;

verus! {

/// Configuration for a single specification.
#[derive(Debug)]
pub struct SpecConfig {
    /// Name of the spec (for display purposes).
    pub name: String,
    /// URL of the spec's rules manifest.
    pub rules_url: String,
    /// Glob patterns for files to scan.
    pub includes: Vec<String>,
    /// Glob patterns to exclude.
    pub excludes: Vec<String>,
}

/// Root configuration.
#[derive(Debug)]
pub struct Config {
    /// Specifications to track coverage against.
    pub specs: Vec<SpecConfig>,
}

impl Default for SpecConfig {
    /// The default spec configuration: scan every Rust file, excluding the
    /// build directory.
    fn default() -> (r: Self)
        ensures
            r.name@.len() == 0,
            r.rules_url@.len() == 0,
            r.includes@.len() == 1 && r.includes@[0]@ == "**/*.rs"@,
            r.excludes@.len() == 1 && r.excludes@[0]@ == "target/**"@,
    {
        let mut includes: Vec<String> = Vec::new();
        includes.push(String::from_str("**/*.rs"));
        let mut excludes: Vec<String> = Vec::new();
        excludes.push(String::from_str("target/**"));
        SpecConfig { name: String::new(), rules_url: String::new(), includes, excludes }
    }
}

impl Default for Config {
    /// The default configuration tracks no spec.
    fn default() -> (r: Self)
        ensures
            r.specs@.len() == 0,
    {
        Config { specs: Vec::new() }
    }
}

impl Clone for SpecConfig {
    fn clone(&self) -> (r: Self)
        ensures
            r.name@ == self.name@,
            r.rules_url@ == self.rules_url@,
            r.includes@ == self.includes@,
            r.excludes@ == self.excludes@,
    {
        SpecConfig {
            name: self.name.clone(),
            rules_url: self.rules_url.clone(),
            includes: clone_strings(&self.includes),
            excludes: clone_strings(&self.excludes),
        }
    }
}

impl Clone for Config {
    fn clone(&self) -> (r: Self)
        ensures
            r.specs@.len() == self.specs@.len(),
            forall|t: int|
                0 <= t < self.specs@.len() ==> (#[trigger] r.specs@[t]).name@
                    == self.specs@[t].name@ && r.specs@[t].rules_url@ == self.specs@[t].rules_url@
                    && r.specs@[t].includes@ == self.specs@[t].includes@ && r.specs@[t].excludes@
                    == self.specs@[t].excludes@,
    {
        let mut specs: Vec<SpecConfig> = Vec::new();
        let n = self.specs.len();
        let mut i: usize = 0;
        while i < n
            invariant
                i <= n == self.specs@.len(),
                specs@.len() == i,
                forall|t: int|
                    0 <= t < i ==> (#[trigger] specs@[t]).name@ == self.specs@[t].name@
                        && specs@[t].rules_url@ == self.specs@[t].rules_url@ && specs@[t].includes@
                        == self.specs@[t].includes@ && specs@[t].excludes@
                        == self.specs@[t].excludes@,
            decreases n - i,
        {
            specs.push(self.specs[i].clone());
            i = i + 1;
        }
        Config { specs }
    }
}

} // verus!
