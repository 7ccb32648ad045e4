use decruft::registry::Registry;
use decruft::scanner::CruftyReason;
use decruft::walker::{dir_size_exec, scan_directories, scan_tree, staleness_exec, FsDir, FsFile};

fn file(name: &str, size: u64, age: Option<u64>) -> FsFile {
    FsFile { name: String::from(name), size, age_days: age }
}

fn dir(name: &str, age: Option<u64>, files: Vec<FsFile>, subdirs: Vec<FsDir>) -> FsDir {
    FsDir { name: String::from(name), age_days: age, files, subdirs }
}

#[test]
fn dir_size_sums_all_files_transitively() {
    let tree = dir(
        "root",
        Some(1),
        vec![file("a.txt", 100, Some(1)), file("b.txt", 200, Some(2))],
        vec![dir("inner", Some(1), vec![file("c.bin", 1000, Some(3))], vec![])],
    );
    assert_eq!(dir_size_exec(&tree), 1300);
}

#[test]
fn staleness_takes_the_newest_file() {
    let tree = dir(
        "root",
        Some(9),
        vec![file("old.txt", 1, Some(300)), file("new.txt", 1, Some(4))],
        vec![dir("inner", Some(9), vec![file("mid.txt", 1, Some(40))], vec![])],
    );
    assert_eq!(staleness_exec(&tree), Some(4));
}

#[test]
fn staleness_falls_back_to_directory_age() {
    let tree = dir("root", Some(77), vec![], vec![]);
    assert_eq!(staleness_exec(&tree), Some(77));
    let unknowable = dir("root", None, vec![file("x", 1, None)], vec![]);
    assert_eq!(staleness_exec(&unknowable), None);
}

#[test]
fn staleness_subscan_is_depth_bounded() {
    // A single file four directory levels down is outside the bounded
    // sub-scan, so the directory's own age is used instead.
    let deep = dir(
        "root",
        Some(50),
        vec![],
        vec![dir(
            "l1",
            Some(9),
            vec![],
            vec![dir(
                "l2",
                Some(9),
                vec![],
                vec![dir(
                    "l3",
                    Some(9),
                    vec![],
                    vec![dir("l4", Some(9), vec![file("f", 1, Some(2))], vec![])],
                )],
            )],
        )],
    );
    assert_eq!(staleness_exec(&deep), Some(50));
}

#[test]
fn scan_discovers_and_prunes() {
    // node_modules holds a nested `dist`; pruning must keep the inner
    // entry out.
    let tree = dir(
        ".",
        Some(1),
        vec![],
        vec![dir(
            "app",
            Some(1),
            vec![file("main.rs", 10, Some(1))],
            vec![
                dir(
                    "node_modules",
                    Some(1),
                    vec![file("pkg.json", 500, Some(2))],
                    vec![dir("dist", Some(1), vec![file("x.js", 700, Some(9))], vec![])],
                ),
                dir("src", Some(1), vec![file("lib.rs", 20, Some(1))], vec![]),
            ],
        )],
    );
    let (entries, _scanned) = scan_tree(&tree, &String::from("."), 4);
    let paths: Vec<&str> = entries.iter().map(|e| e.path.as_str()).collect();
    assert_eq!(paths, vec!["./app/node_modules"]);
    assert_eq!(entries[0].crufty_reason, CruftyReason::NodeModules);
    // Size includes the pruned subtree's files.
    assert_eq!(entries[0].size, 1200);
}

#[test]
fn scan_entries_are_never_nested() {
    let tree = dir(
        ".",
        Some(1),
        vec![],
        vec![
            dir(
                "build",
                Some(1),
                vec![],
                vec![dir("tmp", Some(1), vec![file("o", 5, Some(1))], vec![])],
            ),
            dir("dist", Some(1), vec![file("a", 5, Some(1))], vec![]),
            dir("distx", Some(1), vec![file("b", 5, Some(1))], vec![]),
        ],
    );
    let (entries, _) = scan_tree(&tree, &String::from("."), 5);
    let paths: Vec<String> = entries.iter().map(|e| e.path.clone()).collect();
    for i in 0..paths.len() {
        for j in 0..paths.len() {
            if i != j {
                let anc = format!("{}/", paths[i]);
                assert!(!paths[j].starts_with(&anc));
                assert_ne!(paths[i], paths[j]);
            }
        }
    }
    // `./build` was pruned: its inner `tmp` must not appear.
    assert!(paths.contains(&String::from("./build")));
    assert!(!paths.contains(&String::from("./build/tmp")));
}

#[test]
fn scan_respects_the_depth_limit() {
    let tree = dir(
        ".",
        Some(1),
        vec![],
        vec![dir(
            "a",
            Some(1),
            vec![],
            vec![dir("b", Some(1), vec![], vec![dir("dist", Some(1), vec![], vec![])])],
        )],
    );
    let (deep, _) = scan_tree(&tree, &String::from("."), 3);
    assert_eq!(deep.len(), 1);
    let (shallow, _) = scan_tree(&tree, &String::from("."), 2);
    assert_eq!(shallow.len(), 0);
}

#[test]
fn scan_counts_visited_entries() {
    let tree = dir(
        ".",
        Some(1),
        vec![file("top.txt", 1, Some(1))],
        vec![dir("src", Some(1), vec![file("lib.rs", 1, Some(1))], vec![])],
    );
    // Visited: the root, its file, `src`, and the file inside `src`.
    let (_, scanned) = scan_tree(&tree, &String::from("."), 3);
    assert_eq!(scanned, 4);
}

#[test]
fn marker_files_gate_the_classification() {
    let cargo_target = dir(
        "target",
        Some(1),
        vec![file(".rustc_info.json", 10, Some(1)), file("CACHEDIR.TAG", 10, Some(1))],
        vec![],
    );
    let tree = dir(".", Some(1), vec![], vec![cargo_target]);
    let (entries, _) = scan_tree(&tree, &String::from("."), 2);
    assert_eq!(entries.len(), 1);
    assert_eq!(entries[0].crufty_reason, CruftyReason::LanguageTargetDir);
}

#[test]
fn scan_directories_fills_the_registry() {
    let tree = dir(
        ".",
        Some(1),
        vec![],
        vec![
            dir("dist", Some(1), vec![file("a", 5, Some(10))], vec![]),
            dir("venv", Some(1), vec![file("b", 6, Some(20))], vec![]),
        ],
    );
    let mut reg = Registry::new();
    scan_directories(&tree, &String::from("."), 3, &mut reg);
    assert!(reg.is_complete());
    assert_eq!(reg.entry_count(), 2);
    // Root and the two pruned dirs were visited; the files inside the
    // pruned dirs were not.
    assert_eq!(reg.scanned_count(), 3);
    let snap = reg.snapshot();
    let paths: Vec<&str> = snap.iter().map(|e| e.path.as_str()).collect();
    assert_eq!(paths, vec!["./dist", "./venv"]);
}
