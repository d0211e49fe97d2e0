use std::cell::RefCell;
use std::collections::BTreeMap;

use bonsai::file_set::{
    skips_directory, ExcludeCommand, FileCommand, FileOp, FileSetError, ModifyCommand, ProjectFileSet,
};

/// A working copy kept in memory: carries out file operations on a map.
struct WorkingCopy {
    files: RefCell<BTreeMap<String, Vec<u8>>>,
}

impl WorkingCopy {
    fn new(set: &[(&str, &[u8])]) -> Self {
        WorkingCopy {
            files: RefCell::new(set.iter().map(|(p, c)| (p.to_string(), c.to_vec())).collect()),
        }
    }

    fn run(&self, op: &FileOp) -> Result<(), String> {
        match op {
            FileOp::Write { path, contents } => {
                self.files.borrow_mut().insert(path.clone(), contents.clone());
            }
            FileOp::Remove { path } => {
                self.files.borrow_mut().remove(path);
            }
        }
        Ok(())
    }

    fn get(&self, path: &str) -> Option<Vec<u8>> {
        self.files.borrow().get(path).cloned()
    }
}

fn project() -> Vec<(String, Vec<u8>)> {
    vec![
        ("main.py".to_string(), b"print('hello')".to_vec()),
        ("lib.py".to_string(), b"def helper(): pass".to_vec()),
        ("pkg/util.py".to_string(), b"# util".to_vec()),
    ]
}

fn working_copy() -> WorkingCopy {
    WorkingCopy::new(&[
        ("main.py", b"print('hello')"),
        ("lib.py", b"def helper(): pass"),
        ("pkg/util.py", b"# util"),
    ])
}

#[test]
fn test_from_directory_loads_files() {
    let pfs = ProjectFileSet::new(project(), vec!["main.py".to_string()]).ok().unwrap();
    assert_eq!(pfs.get_file("main.py"), Some(b"print('hello')" as &[u8]));
    assert_eq!(pfs.get_file("lib.py"), Some(b"def helper(): pass" as &[u8]));
    assert_eq!(pfs.get_file("pkg/util.py"), Some(b"# util" as &[u8]));
    assert_eq!(pfs.get_file(".git/HEAD"), None);
}

#[test]
fn test_from_directory_root_not_found() {
    let result = ProjectFileSet::new(project(), vec!["nonexistent.py".to_string()]);
    match result {
        Err(FileSetError::NotFound(m)) => assert!(m.contains("nonexistent.py")),
        _ => panic!("should be a not-found error"),
    }
}

#[test]
fn test_later_entry_wins() {
    let entries = vec![
        ("a.py".to_string(), b"one".to_vec()),
        ("a.py".to_string(), b"two".to_vec()),
    ];
    let pfs = ProjectFileSet::new(entries, vec![]).ok().unwrap();
    assert_eq!(pfs.get_file("a.py"), Some(b"two" as &[u8]));
    assert_eq!(pfs.dependency_files(), vec!["a.py".to_string()]);
}

#[test]
fn test_root_and_dependency_classification() {
    let pfs = ProjectFileSet::new(project(), vec!["main.py".to_string()]).ok().unwrap();
    let roots = pfs.root_files();
    assert_eq!(roots.len(), 1);
    assert!(roots.contains(&"main.py".to_string()));
    let deps = pfs.dependency_files();
    assert!(!deps.contains(&"main.py".to_string()));
    assert!(deps.contains(&"lib.py".to_string()));
    assert!(deps.contains(&"pkg/util.py".to_string()));
}

#[test]
fn test_dependency_files_sorted_by_size_desc() {
    let entries = vec![
        ("root.py".to_string(), b"x".to_vec()),
        ("small.py".to_string(), b"ab".to_vec()),
        ("medium.py".to_string(), b"abcdef".to_vec()),
        ("large.py".to_string(), b"abcdefghij".to_vec()),
        ("tie.py".to_string(), b"ghijkl".to_vec()),
    ];
    let pfs = ProjectFileSet::new(entries, vec!["root.py".to_string()]).ok().unwrap();
    let deps = pfs.dependency_files();
    assert_eq!(
        deps,
        vec![
            "large.py".to_string(),
            "medium.py".to_string(),
            "tie.py".to_string(),
            "small.py".to_string()
        ]
    );
    let sizes: Vec<usize> = deps.iter().map(|p| pfs.get_file(p).unwrap().len()).collect();
    for w in sizes.windows(2) {
        assert!(w[0] >= w[1], "deps not sorted by size desc: {:?}", sizes);
    }
}

#[test]
fn test_modify_and_undo_round_trip() {
    let wc = working_copy();
    let run = |op: &FileOp| wc.run(op);
    let mut pfs = ProjectFileSet::new(project(), vec!["main.py".to_string()]).ok().unwrap();
    let original = pfs.get_file("main.py").unwrap().to_vec();

    assert!(pfs.update_file("main.py", b"print('modified')".to_vec(), &run).is_ok());
    assert_eq!(pfs.get_file("main.py"), Some(b"print('modified')" as &[u8]));
    assert_eq!(wc.get("main.py").unwrap(), b"print('modified')");

    assert!(pfs.undo_last("main.py", &run).is_ok());
    assert_eq!(pfs.get_file("main.py").unwrap(), original.as_slice());
    assert_eq!(wc.get("main.py").unwrap(), original);
}

#[test]
fn test_exclude_and_undo_round_trip() {
    let wc = working_copy();
    let run = |op: &FileOp| wc.run(op);
    let mut pfs = ProjectFileSet::new(project(), vec!["main.py".to_string()]).ok().unwrap();
    let original = pfs.get_file("lib.py").unwrap().to_vec();

    assert!(pfs.exclude_file("lib.py", &run).is_ok());
    assert_eq!(pfs.get_file("lib.py"), None);
    assert!(wc.get("lib.py").is_none());

    assert!(pfs.undo_last("lib.py", &run).is_ok());
    assert_eq!(pfs.get_file("lib.py").unwrap(), original.as_slice());
    assert!(wc.get("lib.py").is_some());
}

#[test]
fn test_exclude_root_fails() {
    let wc = working_copy();
    let run = |op: &FileOp| wc.run(op);
    let mut pfs = ProjectFileSet::new(project(), vec!["main.py".to_string()]).ok().unwrap();
    match pfs.exclude_file("main.py", &run) {
        Err(FileSetError::InvalidInput(m)) => assert!(m.contains("cannot exclude root")),
        _ => panic!("should be an invalid-input error"),
    }
    assert!(pfs.get_file("main.py").is_some());
}

#[test]
fn test_multi_step_undo() {
    let wc = working_copy();
    let run = |op: &FileOp| wc.run(op);
    let mut pfs = ProjectFileSet::new(project(), vec!["main.py".to_string()]).ok().unwrap();
    let v0 = pfs.get_file("main.py").unwrap().to_vec();

    assert!(pfs.update_file("main.py", b"v1".to_vec(), &run).is_ok());
    assert!(pfs.update_file("main.py", b"v2".to_vec(), &run).is_ok());
    assert!(pfs.update_file("main.py", b"v3".to_vec(), &run).is_ok());
    assert_eq!(pfs.get_file("main.py"), Some(b"v3" as &[u8]));

    assert!(pfs.undo_last("main.py", &run).is_ok());
    assert_eq!(pfs.get_file("main.py"), Some(b"v2" as &[u8]));
    assert!(pfs.undo_last("main.py", &run).is_ok());
    assert_eq!(pfs.get_file("main.py"), Some(b"v1" as &[u8]));
    assert!(pfs.undo_last("main.py", &run).is_ok());
    assert_eq!(pfs.get_file("main.py").unwrap(), v0.as_slice());

    match pfs.undo_last("main.py", &run) {
        Err(FileSetError::NotFound(m)) => assert_eq!(m, "no commands to undo for: main.py"),
        _ => panic!("no more commands to undo"),
    }
}

#[test]
fn test_update_nonexistent_file() {
    let wc = working_copy();
    let run = |op: &FileOp| wc.run(op);
    let mut pfs = ProjectFileSet::new(project(), vec!["main.py".to_string()]).ok().unwrap();
    match pfs.update_file("nope.py", b"data".to_vec(), &run) {
        Err(FileSetError::NotFound(m)) => assert_eq!(m, "file not in project: nope.py"),
        _ => panic!("should be a not-found error"),
    }
}

#[test]
fn test_exclude_nonexistent_file() {
    let wc = working_copy();
    let run = |op: &FileOp| wc.run(op);
    let mut pfs = ProjectFileSet::new(project(), vec!["main.py".to_string()]).ok().unwrap();
    assert!(matches!(pfs.exclude_file("nope.py", &run), Err(FileSetError::NotFound(_))));
}

#[test]
fn test_failed_write_changes_nothing() {
    let failing = |_op: &FileOp| -> Result<(), String> { Err("disk full".to_string()) };
    let mut pfs = ProjectFileSet::new(project(), vec!["main.py".to_string()]).ok().unwrap();
    match pfs.update_file("lib.py", b"x".to_vec(), &failing) {
        Err(e) => assert_eq!(e.message(), "disk full"),
        Ok(()) => panic!("the write failed"),
    }
    assert_eq!(pfs.get_file("lib.py"), Some(b"def helper(): pass" as &[u8]));
    assert!(pfs.undo_last("lib.py", &failing).is_err());
}

#[test]
fn test_skips_target_and_node_modules() {
    for name in [".git", ".hg", "target", "node_modules", "__pycache__"] {
        assert!(skips_directory(name));
    }
    assert!(!skips_directory("src"));
    assert!(!skips_directory("targets"));
}

#[test]
fn test_exclude_then_dependency_files_updates() {
    let wc = working_copy();
    let run = |op: &FileOp| wc.run(op);
    let mut pfs = ProjectFileSet::new(project(), vec!["main.py".to_string()]).ok().unwrap();
    assert!(pfs.dependency_files().contains(&"lib.py".to_string()));
    assert!(pfs.exclude_file("lib.py", &run).is_ok());
    assert!(!pfs.dependency_files().contains(&"lib.py".to_string()));
}

#[test]
fn test_commands_name_their_file_operations() {
    let m = ModifyCommand {
        relative_path: "a.py".to_string(),
        new_contents: b"new".to_vec(),
        old_contents: b"old".to_vec(),
    };
    assert!(matches!(m.apply(), FileOp::Write { ref path, ref contents } if path == "a.py" && contents == b"new"));
    assert!(matches!(m.undo(), FileOp::Write { ref path, ref contents } if path == "a.py" && contents == b"old"));
    let e = ExcludeCommand { relative_path: "b.py".to_string(), contents: b"body".to_vec() };
    assert!(matches!(e.apply(), FileOp::Remove { ref path } if path == "b.py"));
    assert!(matches!(e.undo(), FileOp::Write { ref path, ref contents } if path == "b.py" && contents == b"body"));
}
