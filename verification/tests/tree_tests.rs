use ue_trim::tree::{
    checked_dir_size, dir_size, find_platform_dirs, is_pdb_name, pdb_files_to_remove, test_dirs_to_remove, FsEntry,
};

fn file(id: u64, name: &str, len: Option<u64>) -> FsEntry {
    FsEntry { id, name: name.to_string(), name_is_unicode: true, is_dir: false, len, children: vec![] }
}

fn dir(id: u64, name: &str, children: Vec<FsEntry>) -> FsEntry {
    FsEntry { id, name: name.to_string(), name_is_unicode: true, is_dir: true, len: None, children }
}

fn names(v: &[&str]) -> Vec<String> {
    v.iter().map(|s| s.to_string()).collect()
}

/// A small third-party tree:
/// root/
///   Lib/            (1)
///     Mac/          (2)  matches, not entered
///       Linux/      (3)
///     include/      (4)
///       deep/       (5)
///         deeper/   (6)
///           mac/    (7)  listed at depth 4
///   MAC             (8)  a file, never collected
///   Bad\u{fffd}/    (9)  name not valid Unicode, passed over
///     Mac/          (10)
///   Darwin/         (11) matches
fn sample_tree() -> FsEntry {
    let mut bad = dir(9, "Bad\u{fffd}", vec![dir(10, "Mac", vec![])]);
    bad.name_is_unicode = false;
    dir(0, "ThirdParty", vec![
        dir(1, "Lib", vec![
            dir(2, "Mac", vec![dir(3, "Linux", vec![])]),
            dir(4, "include", vec![dir(5, "deep", vec![dir(6, "deeper", vec![dir(7, "mac", vec![])])])]),
        ]),
        file(8, "MAC", Some(3)),
        bad,
        dir(11, "Darwin", vec![]),
    ])
}

#[test]
fn find_platform_dirs_collects_without_entering() {
    let t = sample_tree();
    assert_eq!(find_platform_dirs(&t, &names(&["Mac", "Darwin", "Linux"]), 5), vec![2, 7, 11]);
}

#[test]
fn find_platform_dirs_respects_depth() {
    let t = sample_tree();
    let n = names(&["mac", "DARWIN"]);
    assert_eq!(find_platform_dirs(&t, &n, 0), vec![11]);
    assert_eq!(find_platform_dirs(&t, &n, 1), vec![2, 11]);
    assert_eq!(find_platform_dirs(&t, &n, 2), vec![2, 11]);
    assert_eq!(find_platform_dirs(&t, &n, 3), vec![2, 11]);
    assert_eq!(find_platform_dirs(&t, &n, 4), vec![2, 7, 11]);
    assert_eq!(find_platform_dirs(&t, &n, u32::MAX), vec![2, 7, 11]);
}

#[test]
fn find_platform_dirs_with_no_names() {
    let t = sample_tree();
    assert!(find_platform_dirs(&t, &vec![], 5).is_empty());
    assert!(find_platform_dirs(&dir(0, "empty", vec![]), &names(&["Mac"]), 5).is_empty());
}

#[test]
fn dir_size_sums_files_below() {
    let t = dir(0, "root", vec![
        file(1, "a", Some(10)),
        dir(2, "sub", vec![file(3, "b", Some(5)), file(4, "unreadable", None), dir(5, "e", vec![])]),
        file(6, "c", Some(7)),
    ]);
    assert_eq!(dir_size(&t), 22);
    assert_eq!(checked_dir_size(&t), Some(22));
    assert_eq!(dir_size(&dir(0, "empty", vec![])), 0);
}

#[test]
fn dir_size_overflow_is_reported() {
    let t = dir(0, "root", vec![file(1, "a", Some(u64::MAX)), file(2, "b", Some(1))]);
    assert_eq!(checked_dir_size(&t), None);
    let t = dir(0, "root", vec![file(1, "a", Some(u64::MAX)), file(2, "b", Some(0))]);
    assert_eq!(checked_dir_size(&t), Some(u64::MAX));
}

#[test]
fn dir_size_is_additive() {
    let a = vec![file(1, "a", Some(3)), file(2, "b", Some(4))];
    let b = vec![dir(3, "d", vec![file(4, "c", Some(5))])];
    let mut ab = a.clone_entries();
    ab.extend(b.clone_entries());
    let sa = dir_size(&dir(0, "a", a));
    let sb = dir_size(&dir(0, "b", b));
    assert_eq!(dir_size(&dir(0, "ab", ab)), sa + sb);
}

trait CloneEntries {
    fn clone_entries(&self) -> Vec<FsEntry>;
}

impl CloneEntries for Vec<FsEntry> {
    fn clone_entries(&self) -> Vec<FsEntry> {
        self.iter()
            .map(|e| FsEntry {
                id: e.id,
                name: e.name.clone(),
                name_is_unicode: e.name_is_unicode,
                is_dir: e.is_dir,
                len: e.len,
                children: e.children.clone_entries(),
            })
            .collect()
    }
}

#[test]
fn pdb_names() {
    assert!(is_pdb_name("a.pdb"));
    assert!(is_pdb_name("UnrealEditor.PDB"));
    assert!(is_pdb_name("x.y.Pdb"));
    assert!(is_pdb_name("..pdb"));
    assert!(!is_pdb_name(".pdb"));
    assert!(!is_pdb_name("pdb"));
    assert!(!is_pdb_name("a.pdbx"));
    assert!(!is_pdb_name("apdb"));
    assert!(!is_pdb_name("a.pd"));
}

#[test]
fn pdb_names_agree_with_path_extension() {
    for n in ["a.pdb", "A.PDB", ".pdb", "..pdb", "x.", "x.pdb.bak", "pdb", "é.pdb", "a b.pDb", "a.p db"] {
        let by_path = std::path::Path::new(n).extension().map_or(false, |e| e.eq_ignore_ascii_case("pdb"));
        assert_eq!(is_pdb_name(n), by_path, "name {:?}", n);
    }
}

#[test]
fn pdb_files_in_walk_order() {
    let t = dir(0, "Binaries", vec![
        file(1, "Editor.pdb", Some(1)),
        dir(2, "Win64", vec![file(3, "Game.PDB", Some(1)), file(4, "Game.exe", Some(1)), dir(5, "x.pdb", vec![])]),
        file(6, "notes.txt", Some(1)),
        file(7, "last.pdb", None),
    ]);
    assert_eq!(pdb_files_to_remove(&t), vec![1, 3, 7]);
}

#[test]
fn test_dirs_directly_in_directory() {
    let mut odd = dir(5, "OddTests", vec![]);
    odd.name_is_unicode = false;
    let t = dir(0, "Win64", vec![
        dir(1, "EngineTests", vec![dir(2, "InnerTests", vec![])]),
        file(3, "FileTests", Some(1)),
        dir(4, "Tests", vec![]),
        odd,
        dir(6, "LowLevelTests", vec![]),
        dir(7, "tests", vec![]),
        dir(8, "HeadlessChaos", vec![]),
    ]);
    assert_eq!(test_dirs_to_remove(&t), vec![1, 4, 6]);
}
