//! Reduction settings from `bonsai.toml`, and their merge with command-line
//! overrides.
//!
//! Reading and parsing the TOML file are I/O; this module holds the parsed
//! settings, the upward search for the file, and the merge rule: a value
//! given on the command line wins over the file's.
use vstd::prelude::*;

use crate::paths::{answered, find_upward, found, none_found};

verus! {

/// The name of the configuration file that `discover` looks for.
pub const CONFIG_FILENAME: &'static str = "bonsai.toml";

/// A parsed `bonsai.toml`.
#[derive(Debug, Clone, PartialEq)]
pub struct BonsaiConfig {
    pub reduce: ReduceConfig,
}

/// The `[reduce]` section.
#[derive(Debug, Clone, PartialEq)]
pub struct ReduceConfig {
    pub roots: Vec<String>,
    pub test: Option<String>,
    pub dependencies: DependenciesConfig,
}

/// The `[reduce.dependencies]` section.
#[derive(Debug, Clone, PartialEq)]
pub struct DependenciesConfig {
    pub paths: Vec<String>,
    pub exclude: Vec<String>,
}

/// Values given on the command line; `None` where the flag was not given.
#[derive(Debug, Clone)]
pub struct CliOverrides {
    pub roots: Option<Vec<String>>,
    pub test: Option<String>,
    pub deps: Option<Vec<String>>,
    pub exclude_deps: Option<Vec<String>>,
}

/// The settings a run uses, after merging.
#[derive(Debug, Clone, PartialEq)]
pub struct MergedConfig {
    pub roots: Vec<String>,
    pub test: Option<String>,
    pub dependencies: DependencyConfig,
}

/// The dependency settings a run uses.
#[derive(Debug, Clone, PartialEq)]
pub struct DependencyConfig {
    pub paths: Vec<String>,
    pub exclude: Vec<String>,
}

/// The texts of a list of strings.
pub open spec fn texts(v: Seq<String>) -> Seq<Seq<char>> {
    v.map_values(|s: String| s@)
}

/// The text of an optional string.
pub open spec fn opt_text(o: Option<String>) -> Option<Seq<char>> {
    match o {
        Some(s) => Some(s@),
        None => None,
    }
}

/// The override when there is one, else the configured value.
pub open spec fn prefer(cli: Option<Vec<String>>, file: Vec<String>) -> Seq<Seq<char>> {
    match cli {
        Some(v) => texts(v@),
        None => texts(file@),
    }
}

/// A copy of a list of strings.
pub fn copy_strings(v: &Vec<String>) -> (r: Vec<String>)
    ensures
        r@ == v@,
{
    let mut out: Vec<String> = Vec::new();
    let mut i: usize = 0;
    while i < v.len()
        invariant
            i <= v@.len(),
            out@ == v@.take(i as int),
        decreases v@.len() - i,
    {
        out.push(v[i].clone());
        i = i + 1;
        assert(out@ =~= v@.take(i as int));
    }
    assert(v@.take(v@.len() as int) =~= v@);
    out
}

/// A copy of an optional string.
fn copy_opt(o: &Option<String>) -> (r: Option<String>)
    ensures
        r == *o,
{
    match o {
        Some(s) => Some(s.clone()),
        None => None,
    }
}

impl Default for BonsaiConfig {
    fn default() -> (r: Self)
        ensures
            r.reduce.roots@.len() == 0,
            r.reduce.test is None,
            r.reduce.dependencies.paths@.len() == 0,
            r.reduce.dependencies.exclude@.len() == 0,
    {
        BonsaiConfig { reduce: ReduceConfig::default() }
    }
}

impl Default for ReduceConfig {
    fn default() -> (r: Self)
        ensures
            r.roots@.len() == 0,
            r.test is None,
            r.dependencies.paths@.len() == 0,
            r.dependencies.exclude@.len() == 0,
    {
        ReduceConfig { roots: Vec::new(), test: None, dependencies: DependenciesConfig::default() }
    }
}

impl Default for DependenciesConfig {
    fn default() -> (r: Self)
        ensures
            r.paths@.len() == 0,
            r.exclude@.len() == 0,
    {
        DependenciesConfig { paths: Vec::new(), exclude: Vec::new() }
    }
}

impl Default for CliOverrides {
    fn default() -> (r: Self)
        ensures
            r.roots is None,
            r.test is None,
            r.deps is None,
            r.exclude_deps is None,
    {
        CliOverrides { roots: None, test: None, deps: None, exclude_deps: None }
    }
}

impl BonsaiConfig {
    /// Merge config file values with CLI overrides. CLI takes precedence,
    /// field by field.
    pub fn merge(&self, cli: &CliOverrides) -> (r: MergedConfig)
        ensures
            texts(r.roots@) == prefer(cli.roots, self.reduce.roots),
            r.test == match cli.test {
                Some(t) => Some(t),
                None => self.reduce.test,
            },
            texts(r.dependencies.paths@) == prefer(cli.deps, self.reduce.dependencies.paths),
            texts(r.dependencies.exclude@) == prefer(
                cli.exclude_deps,
                self.reduce.dependencies.exclude,
            ),
    {
        let roots = match &cli.roots {
            Some(v) => copy_strings(v),
            None => copy_strings(&self.reduce.roots),
        };
        let test = match &cli.test {
            Some(t) => Some(t.clone()),
            None => copy_opt(&self.reduce.test),
        };
        let paths = match &cli.deps {
            Some(v) => copy_strings(v),
            None => copy_strings(&self.reduce.dependencies.paths),
        };
        let exclude = match &cli.exclude_deps {
            Some(v) => copy_strings(v),
            None => copy_strings(&self.reduce.dependencies.exclude),
        };
        MergedConfig { roots, test, dependencies: DependencyConfig { paths, exclude } }
    }
}

/// What `discover` returns for `start`, given whether `start` is a file: the
/// first `bonsai.toml` that `is_file` confirms on the walk upward from the
/// directory the search begins in.
pub open spec fn discovered<F: Fn(&str) -> bool>(
    is_file: F,
    start: Seq<char>,
    start_is_file: bool,
    r: Option<Seq<char>>,
) -> bool {
    let dir = if start_is_file {
        crate::paths::parent_path(start)
    } else {
        Some(start)
    };
    match dir {
        Some(d) => match r {
            Some(c) => found(is_file, d, CONFIG_FILENAME@, c),
            None => none_found(is_file, d, CONFIG_FILENAME@),
        },
        None => r is None,
    }
}

/// Walk up from `start_path` looking for `bonsai.toml`; `is_file` answers
/// whether a regular file exists at a path.
///
/// If `start_path` is a file, searching begins in its parent directory (and
/// there is nothing to find when it has none).
pub fn discover<F: Fn(&str) -> bool>(start_path: &str, is_file: &F) -> (r: Option<String>)
    requires
        forall|s: &str| is_file.requires((s,)),
    ensures
        exists|start_is_file: bool|
            answered(*is_file, start_path@, start_is_file) && #[trigger] discovered(
                *is_file,
                start_path@,
                start_is_file,
                opt_text(r),
            ),
{
    let start_is_file = is_file(start_path);
    assert(answered(*is_file, start_path@, start_is_file));
    let r = if start_is_file {
        match crate::paths::path_parent(start_path) {
            Some(dir) => find_upward(dir.as_str(), CONFIG_FILENAME, is_file),
            None => None,
        }
    } else {
        find_upward(start_path, CONFIG_FILENAME, is_file)
    };
    assert(discovered(*is_file, start_path@, start_is_file, opt_text(r)));
    r
}

} // verus!
