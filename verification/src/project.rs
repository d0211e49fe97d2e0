//! Per-project configuration loaded from `bonsai.toml`.
//!
//! Individual projects often define their own defining-form macros
//! (`defcreature`, `defcomponent`, ...) that the built-in scope analysis does
//! not recognize. A `bonsai.toml` in the project root extends the built-in
//! analysis with project-specific knowledge. This module holds the parsed
//! configuration, the discovery walk, and the translation of defining-form
//! rules into tree-sitter query text.
use vstd::prelude::*;
use vstd::string::*;

use crate::paths::{find_upward, found, none_found};
use crate::text::chars_vec;

verus! {

/// The name of the config file bonsai looks for.
pub const PROJECT_CONFIG_FILENAME: &'static str = "bonsai.toml";

/// A defining-form rule: tells bonsai to recognize `(head-pattern name body)`
/// as a definition of `name` (and optionally a scope).
pub struct DefiningFormRule {
    /// Regex matched against the form's head symbol name.
    pub head_pattern: String,
    /// 0-indexed position of the named symbol within the form's children.
    pub name_position: usize,
    /// If true, the matched form is also treated as a new lexical scope.
    pub introduces_scope: bool,
}

impl Clone for DefiningFormRule {
    fn clone(&self) -> (r: Self)
        ensures
            r.head_pattern@ == self.head_pattern@,
            r.name_position == self.name_position,
            r.introduces_scope == self.introduces_scope,
    {
        DefiningFormRule {
            head_pattern: self.head_pattern.clone(),
            name_position: self.name_position,
            introduces_scope: self.introduces_scope,
        }
    }
}

/// Per-language extensions to bonsai's built-in analysis.
pub struct LanguageConfig {
    /// Extra defining-form rules, appended to the language's `locals.scm`.
    pub defining_forms: Vec<DefiningFormRule>,
    /// Extra supertype declarations: (supertype name, subtype names), by name.
    pub supertypes: Vec<(String, Vec<String>)>,
}

/// A parsed `bonsai.toml`: per-language sections, keyed by language name.
pub struct ProjectConfig {
    /// (language name, section) pairs, ordered by name, each name once.
    pub languages: Vec<(String, LanguageConfig)>,
}

impl ProjectConfig {
    /// The section for `name`, if the file has one.
    pub fn language(&self, name: &str) -> (r: Option<&LanguageConfig>)
        ensures
            r matches Some(c) ==> exists|i: int|
                0 <= i < self.languages@.len() && self.languages@[i].0@ == name@ && *c
                    == self.languages@[i].1,
            r is None ==> forall|i: int|
                0 <= i < self.languages@.len() ==> #[trigger] self.languages@[i].0@ != name@,
    {
        let mut i: usize = 0;
        while i < self.languages.len()
            invariant
                i <= self.languages@.len(),
                forall|k: int| 0 <= k < i ==> #[trigger] self.languages@[k].0@ != name@,
            decreases self.languages@.len() - i,
        {
            if crate::text::str_eq(self.languages[i].0.as_str(), name) {
                return Some(&self.languages[i].1);
            }
            i = i + 1;
        }
        None
    }
}

/// Rust's `Debug` rendering of a string: the text in double quotes, with
/// quotes, backslashes and control characters escaped.
pub uninterp spec fn debug_quoted(s: Seq<char>) -> Seq<char>;

/// Calls `format!("{:?}", s)`, Rust's `Debug` formatting of a `str`; the
/// result depends on the characters of `s` alone.
#[verifier::external_body]
fn debug_quote(s: &str) -> (r: String)
    ensures
        r@ == debug_quoted(s@),
{
    format!("{:?}", s)
}

/// `s` repeated `n` times.
pub open spec fn repeat_text(s: Seq<char>, n: nat) -> Seq<char>
    decreases n,
{
    if n == 0 {
        Seq::empty()
    } else {
        repeat_text(s, (n - 1) as nat) + s
    }
}

/// The query text generated for a defining-form rule.
pub open spec fn rule_scm(rule: DefiningFormRule) -> Seq<char> {
    let skips: nat = if rule.name_position >= 1 {
        (rule.name_position - 1) as nat
    } else {
        0
    };
    let definition = ";; bonsai.toml defining-form rule\n"@ + "((list_lit\n"@ + "   .\n"@
        + "   (sym_lit (sym_name) @_bonsai-head)\n"@ + repeat_text("   .\n   _\n"@, skips)
        + "   .\n"@ + "   (sym_lit (sym_name) @local.definition))\n"@
        + " (#match? @_bonsai-head "@ + debug_quoted(rule.head_pattern@) + "))\n\n"@;
    if rule.introduces_scope {
        definition + "((list_lit\n"@ + "   .\n"@ + "   (sym_lit (sym_name) @_bonsai-head)\n"@
            + "   .\n"@ + "   _*)\n"@ + " (#match? @_bonsai-head "@ + debug_quoted(rule.head_pattern@)
            + "))\n"@ + " @local.scope\n\n"@
    } else {
        definition
    }
}

/// Translate a `DefiningFormRule` into a tree-sitter query fragment suitable
/// for appending to a Clojure-style `locals.scm`: one pattern capturing the
/// definition (the symbol at `name_position`) and, when the rule introduces
/// a scope, one pattern marking the whole form as a scope.
pub fn rule_to_clojure_scm(rule: &DefiningFormRule) -> (r: String)
    ensures
        r@ == rule_scm(*rule),
{
    let mut out = String::new();
    out.append(";; bonsai.toml defining-form rule\n");
    out.append("((list_lit\n");
    out.append("   .\n");
    out.append("   (sym_lit (sym_name) @_bonsai-head)\n");
    let skips: usize = if rule.name_position >= 1 {
        rule.name_position - 1
    } else {
        0
    };
    let ghost prefix = out@;
    let mut k: usize = 0;
    while k < skips
        invariant
            k <= skips,
            out@ == prefix + repeat_text("   .\n   _\n"@, k as nat),
        decreases skips - k,
    {
        out.append("   .\n");
        out.append("   _\n");
        proof {
            reveal_strlit("   .\n   _\n");
            reveal_strlit("   .\n");
            reveal_strlit("   _\n");
            assert(repeat_text("   .\n   _\n"@, (k + 1) as nat) =~= repeat_text("   .\n   _\n"@, k as nat) + "   .\n   _\n"@);
        }
        k = k + 1;
    }
    out.append("   .\n");
    out.append("   (sym_lit (sym_name) @local.definition))\n");
    out.append(" (#match? @_bonsai-head ");
    let quoted = debug_quote(rule.head_pattern.as_str());
    out.append(quoted.as_str());
    out.append("))\n\n");
    if rule.introduces_scope {
        out.append("((list_lit\n");
        out.append("   .\n");
        out.append("   (sym_lit (sym_name) @_bonsai-head)\n");
        out.append("   .\n");
        out.append("   _*)\n");
        out.append(" (#match? @_bonsai-head ");
        out.append(quoted.as_str());
        out.append("))\n");
        out.append(" @local.scope\n\n");
    }
    proof {
        assert(out@ =~= rule_scm(*rule));
    }
    out
}

/// The merged query text: `base`, a newline if `base` does not end with one,
/// the extensions header, then each rule's fragment in order.
pub open spec fn merged_scm(base: Seq<char>, rules: Seq<DefiningFormRule>) -> Seq<char> {
    let head = if base.len() > 0 && base.last() == '\n' {
        base
    } else {
        base.push('\n')
    };
    head + "\n;; ---- bonsai.toml extensions ----\n"@ + rules_scm(rules)
}

/// The fragments of `rules`, concatenated in order.
pub open spec fn rules_scm(rules: Seq<DefiningFormRule>) -> Seq<char>
    decreases rules.len(),
{
    if rules.len() == 0 {
        Seq::empty()
    } else {
        rules_scm(rules.drop_last()) + rule_scm(rules.last())
    }
}

/// Build a merged `locals.scm` by appending the project's rule patterns to
/// the language's embedded one. Returns `None` if there are no rules.
pub fn merge_locals_scm(base_locals: &str, rules: &[DefiningFormRule]) -> (r: Option<String>)
    ensures
        rules@.len() == 0 ==> r is None,
        rules@.len() > 0 ==> (r matches Some(s) && s@ == merged_scm(base_locals@, rules@)),
{
    if rules.len() == 0 {
        return None;
    }
    let mut merged = base_locals.to_owned();
    let chars = chars_vec(base_locals);
    let ends_with_newline = chars.len() > 0 && chars[chars.len() - 1] == '\n';
    if !ends_with_newline {
        merged.append("\n");
    }
    merged.append("\n;; ---- bonsai.toml extensions ----\n");
    let ghost prefix = merged@;
    let mut i: usize = 0;
    while i < rules.len()
        invariant
            i <= rules@.len(),
            merged@ == prefix + rules_scm(rules@.take(i as int)),
        decreases rules@.len() - i,
    {
        let fragment = rule_to_clojure_scm(&rules[i]);
        merged.append(fragment.as_str());
        proof {
            assert(rules@.take(i + 1).drop_last() =~= rules@.take(i as int));
        }
        i = i + 1;
    }
    proof {
        assert(rules@.take(rules@.len() as int) =~= rules@);
        reveal_strlit("\n");
    }
    Some(merged)
}

/// Errors from loading project configuration; every variant carries the
/// path of the file concerned.
pub enum ConfigError {
    /// The file could not be read.
    Io { path: String, message: String },
    /// The file is not a valid configuration.
    Parse { path: String, message: String },
}

impl ConfigError {
    /// The error as a message for the user.
    pub fn message(&self) -> (r: String)
        ensures
            r@ == match self {
                ConfigError::Io { path, message } => "failed to read "@ + path@ + ": "@ + message@,
                ConfigError::Parse { path, message } => "failed to parse "@ + path@ + ": "@
                    + message@,
            },
    {
        let mut out = String::new();
        match self {
            ConfigError::Io { path, message } => {
                out.append("failed to read ");
                out.append(path.as_str());
                out.append(": ");
                out.append(message.as_str());
            },
            ConfigError::Parse { path, message } => {
                out.append("failed to parse ");
                out.append(path.as_str());
                out.append(": ");
                out.append(message.as_str());
            },
        }
        out
    }
}

/// The loader `load` answered `res` when asked to load the file at `path`.
pub open spec fn loaded<L: Fn(&str) -> Result<ProjectConfig, ConfigError>>(
    load: L,
    path: Seq<char>,
    res: Result<ProjectConfig, ConfigError>,
) -> bool {
    exists|s: &str| s@ == path && call_ensures(load, (s,), res)
}

/// Discover and load a `bonsai.toml` by walking upward from `start_dir`.
///
/// `present` answers whether a file exists at a path and `load` reads and
/// parses one. The first directory, walking upward, where a `bonsai.toml`
/// exists wins, and its file is loaded. Returns `Ok(None)` if no config file
/// is found (not every project wants project-level customization) and `Err`
/// only when loading the found file fails. Walking stops at the root.
pub fn discover_and_load<E, L>(start_dir: &str, present: &E, load: &L) -> (r: Result<
    Option<(String, ProjectConfig)>,
    ConfigError,
>) where E: Fn(&str) -> bool, L: Fn(&str) -> Result<ProjectConfig, ConfigError>
    requires
        forall|s: &str| present.requires((s,)),
        forall|s: &str| load.requires((s,)),
    ensures
        match r {
            Ok(Some((path, config))) => found(*present, start_dir@, PROJECT_CONFIG_FILENAME@, path@)
                && loaded(*load, path@, Ok(config)),
            Ok(None) => none_found(*present, start_dir@, PROJECT_CONFIG_FILENAME@),
            Err(e) => exists|path: Seq<char>|
                found(*present, start_dir@, PROJECT_CONFIG_FILENAME@, path) && #[trigger] loaded(
                    *load,
                    path,
                    Err(e),
                ),
        },
{
    match find_upward(start_dir, PROJECT_CONFIG_FILENAME, present) {
        None => Ok(None),
        Some(path) => {
            let res = load(path.as_str());
            assert(loaded(*load, path@, res));
            match res {
                Ok(config) => Ok(Some((path, config))),
                Err(e) => Err(e),
            }
        },
    }
}

} // verus!
