use bonsai::config::{
    discover, BonsaiConfig, CliOverrides, DependenciesConfig, DependencyConfig, MergedConfig,
    ReduceConfig, CONFIG_FILENAME,
};

#[test]
fn merge_cli_overrides_all() {
    let cfg = BonsaiConfig {
        reduce: ReduceConfig {
            roots: vec!["old.py".into()],
            test: Some("old.sh".into()),
            dependencies: DependenciesConfig {
                paths: vec!["old/".into()],
                exclude: vec!["old_exc/".into()],
            },
        },
    };
    let cli = CliOverrides {
        roots: Some(vec!["new.py".into()]),
        test: Some("new.sh".into()),
        deps: Some(vec!["new/".into()]),
        exclude_deps: Some(vec!["new_exc/".into()]),
    };
    let merged = cfg.merge(&cli);
    assert_eq!(merged.roots, vec!["new.py"]);
    assert_eq!(merged.test, Some("new.sh".into()));
    assert_eq!(merged.dependencies.paths, vec!["new/"]);
    assert_eq!(merged.dependencies.exclude, vec!["new_exc/"]);
}

#[test]
fn merge_config_used_when_no_cli() {
    let cfg = BonsaiConfig {
        reduce: ReduceConfig {
            roots: vec!["main.py".into()],
            test: Some("test.sh".into()),
            dependencies: DependenciesConfig {
                paths: vec!["lib/".into()],
                exclude: vec!["vendor/".into()],
            },
        },
    };
    let cli = CliOverrides::default();
    let merged = cfg.merge(&cli);
    assert_eq!(merged.roots, vec!["main.py"]);
    assert_eq!(merged.test, Some("test.sh".into()));
    assert_eq!(merged.dependencies.paths, vec!["lib/"]);
    assert_eq!(merged.dependencies.exclude, vec!["vendor/"]);
}

#[test]
fn merge_empty_config_empty_cli() {
    let cfg = BonsaiConfig::default();
    let cli = CliOverrides::default();
    let merged = cfg.merge(&cli);
    assert_eq!(
        merged,
        MergedConfig {
            roots: vec![],
            test: None,
            dependencies: DependencyConfig {
                paths: vec![],
                exclude: vec![],
            },
        }
    );
}

#[test]
fn merge_partial_cli_overrides() {
    let cfg = BonsaiConfig {
        reduce: ReduceConfig {
            roots: vec!["config_root.py".into()],
            test: Some("config_test.sh".into()),
            dependencies: DependenciesConfig {
                paths: vec!["config_path/".into()],
                exclude: vec!["config_exc/".into()],
            },
        },
    };
    let cli = CliOverrides {
        roots: Some(vec!["cli_root.py".into()]),
        test: None,
        deps: None,
        exclude_deps: Some(vec!["cli_exc/".into()]),
    };
    let merged = cfg.merge(&cli);
    assert_eq!(merged.roots, vec!["cli_root.py"]);
    assert_eq!(merged.test, Some("config_test.sh".into()));
    assert_eq!(merged.dependencies.paths, vec!["config_path/"]);
    assert_eq!(merged.dependencies.exclude, vec!["cli_exc/"]);
}

#[test]
fn discover_in_current_dir() {
    let files = ["/work/proj/bonsai.toml"];
    let is_file = |p: &str| files.contains(&p);
    let found = discover("/work/proj", &is_file).unwrap();
    assert_eq!(found, "/work/proj/bonsai.toml");
}

#[test]
fn discover_in_parent_dir() {
    let files = ["/work/proj/bonsai.toml"];
    let is_file = |p: &str| files.contains(&p);
    let found = discover("/work/proj/subdir", &is_file).unwrap();
    assert_eq!(found, "/work/proj/bonsai.toml");
}

#[test]
fn discover_in_grandparent_dir() {
    let files = ["/work/proj/bonsai.toml"];
    let is_file = |p: &str| files.contains(&p);
    let found = discover("/work/proj/a/b", &is_file).unwrap();
    assert_eq!(found, "/work/proj/bonsai.toml");
}

#[test]
fn discover_from_file_path() {
    let files = ["/work/proj/bonsai.toml", "/work/proj/src/main.py"];
    let is_file = |p: &str| files.contains(&p);
    let found = discover("/work/proj/src/main.py", &is_file).unwrap();
    assert_eq!(found, "/work/proj/bonsai.toml");
}

#[test]
fn discover_nearest_config_wins() {
    let files = ["/work/bonsai.toml", "/work/proj/bonsai.toml"];
    let is_file = |p: &str| files.contains(&p);
    assert_eq!(discover("/work/proj/a", &is_file).unwrap(), "/work/proj/bonsai.toml");
    assert_eq!(discover("/work/other", &is_file).unwrap(), "/work/bonsai.toml");
    assert_eq!(CONFIG_FILENAME, "bonsai.toml");
}

#[test]
fn discover_stops_at_root_when_nothing_found() {
    let nothing = |_p: &str| false;
    assert!(discover("/a/b/c", &nothing).is_none());
}
