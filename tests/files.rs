use btrs::files::{flatten_all, FileEntry, FileKind, NotADirectory};

#[test]
fn test_insert_path_builds_tree() -> Result<(), NotADirectory> {
    let mut root = FileEntry {
        name: "root".to_string(),
        kind: FileKind::Directory { children: vec![] },
    };

    let paths = vec![
        vec!["folder".to_string(), "file1.txt".to_string()],
        vec![
            "folder".to_string(),
            "nested".to_string(),
            "file2.txt".to_string(),
        ],
        vec!["another".to_string(), "file3.txt".to_string()],
    ];

    for path in paths {
        root.insert_path(&path)?;
    }

    // Root should have two children: "folder" and "another"
    let children = match &root.kind {
        FileKind::Directory { children } => children,
        _ => panic!("Root is not a directory"),
    };

    assert_eq!(children.len(), 2);

    // "folder" directory should exist with two children
    let folder = children
        .iter()
        .find(|c| c.name == "folder")
        .expect("folder missing");
    match &folder.kind {
        FileKind::Directory { children } => {
            // folder has two children: "file1.txt" and "nested"
            assert_eq!(children.len(), 2);

            // Check "file1.txt" exists and is a file
            let file1 = children
                .iter()
                .find(|c| c.name == "file1.txt")
                .expect("file1.txt missing");
            assert!(matches!(file1.kind, FileKind::File));

            // Check "nested" directory exists with one child
            let nested = children
                .iter()
                .find(|c| c.name == "nested")
                .expect("nested missing");
            match &nested.kind {
                FileKind::Directory { children } => {
                    assert_eq!(children.len(), 1);

                    // Check "file2.txt" inside nested is a file
                    let file2 = children
                        .iter()
                        .find(|c| c.name == "file2.txt")
                        .expect("file2.txt missing");
                    assert!(matches!(file2.kind, FileKind::File));
                }
                _ => panic!("nested is not a directory"),
            }
        }
        _ => panic!("folder is not a directory"),
    }

    // "another" directory should exist with one child: "file3.txt"
    let another = children
        .iter()
        .find(|c| c.name == "another")
        .expect("another missing");
    match &another.kind {
        FileKind::Directory { children } => {
            assert_eq!(children.len(), 1);
            let file3 = children
                .iter()
                .find(|c| c.name == "file3.txt")
                .expect("file3.txt missing");
            assert!(matches!(file3.kind, FileKind::File));
        }
        _ => panic!("another is not a directory"),
    }

    Ok(())
}

#[test]
fn inserting_under_a_file_fails_and_changes_nothing() {
    let mut root = FileEntry::new(".");
    root.insert_path(&["a".to_string()]).unwrap();
    assert_eq!(
        root.insert_path(&["a".to_string(), "b".to_string()]),
        Err(NotADirectory)
    );
    match &root.kind {
        FileKind::Directory { children } => {
            assert_eq!(children.len(), 1);
            assert!(matches!(children[0].kind, FileKind::File));
        }
        FileKind::File => panic!("root is not a directory"),
    }
}

#[test]
fn inserting_the_same_path_twice_adds_nothing() {
    let mut root = FileEntry::new(".");
    let path = vec!["d".to_string(), "f".to_string()];
    root.insert_path(&path).unwrap();
    root.insert_path(&path).unwrap();
    let mut flat = Vec::new();
    flatten_all(&root, 0, &mut flat);
    assert_eq!(flat.len(), 3);
}

#[test]
fn flatten_lists_entries_depth_first() {
    let mut root = FileEntry::new(".");
    root.insert_path(&["x".to_string(), "y.txt".to_string()]).unwrap();
    root.insert_path(&["z.txt".to_string()]).unwrap();
    let mut flat = Vec::new();
    flatten_all(&root, 0, &mut flat);
    let listed: Vec<(usize, &str)> = flat.iter().map(|(d, e)| (*d, e.name.as_str())).collect();
    assert_eq!(listed, vec![(0, "."), (1, "x"), (2, "y.txt"), (1, "z.txt")]);
}

#[test]
fn new_entries_are_appended_in_order() {
    let mut root = FileEntry::new(".");
    root.insert_path(&["b".to_string()]).unwrap();
    root.insert_path(&["a".to_string(), "x".to_string()]).unwrap();
    root.insert_path(&["b".to_string()]).unwrap();
    match &root.kind {
        FileKind::Directory { children } => {
            let names: Vec<&str> = children.iter().map(|c| c.name.as_str()).collect();
            assert_eq!(names, vec!["b", "a"]);
            assert!(matches!(children[0].kind, FileKind::File));
            assert!(matches!(children[1].kind, FileKind::Directory { .. }));
        }
        FileKind::File => panic!("root is not a directory"),
    }
}
