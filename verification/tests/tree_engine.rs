use fs_tree::error::DirErrorKind;
use fs_tree::error::FileSystemError;
use fs_tree::filesystem::Computer;
use fs_tree::filesystem::Folder;
use fs_tree::tree_builder::grow_folder_tree;
use fs_tree::tree_builder::file_tree_complete;
use fs_tree::tree_builder::merge_folder_tree;
use fs_tree::tree_builder::populate_folder;
use fs_tree::tree_builder::start_folder_tree;
use fs_tree::tree_builder::DirListing;
use fs_tree::tree_builder::FsEntry;
use fs_tree::tree_destructor::enumeration_failures;
use fs_tree::tree_destructor::flatten_folder;
use fs_tree::tree_destructor::get_all_files;
use fs_tree::tree_destructor::get_all_folders;
use fs_tree::tree_destructor::get_empty_folders;
use fs_tree::tree_destructor::mark_not_traversed;
use fs_tree::tree_destructor::mark_traversed;
use fs_tree::tree_destructor::EmptyFolders;
use fs_tree::tree_sizer::aggregate;
use fs_tree::tree_sizer::spread_percentage;

fn file_entry(path: &str, size: u64) -> FsEntry {
    FsEntry { path: path.to_string(), is_dir: false, size }
}

fn dir_entry(path: &str) -> FsEntry {
    FsEntry { path: path.to_string(), is_dir: true, size: 0 }
}

/// The example tree: /r holds a.txt (100), b.txt (200) and sub/ with
/// c.txt (300).
fn example_listings() -> Vec<DirListing> {
    vec![
        DirListing {
            path: "/r".to_string(),
            outcome: Ok(vec![
                file_entry("/r/a.txt", 100),
                file_entry("/r/b.txt", 200),
                dir_entry("/r/sub"),
            ]),
        },
        DirListing {
            path: "/r/sub".to_string(),
            outcome: Ok(vec![file_entry("/r/sub/c.txt", 300)]),
        },
    ]
}

fn example_tree() -> Folder {
    let listings = example_listings();
    let root = start_folder_tree("/r".to_string(), &listings[0].outcome)
        .expect("root listing is present");
    grow_folder_tree(root, 1, &listings)
}

fn subfolder<'a>(folder: &'a Folder, name: &str) -> &'a Folder {
    folder
        .subfolders
        .iter()
        .find(|f| f.name == name)
        .expect("subfolder is present")
}

fn manual_folder_count(folder: &Folder) -> usize {
    1 + folder.subfolders.iter().map(manual_folder_count).sum::<usize>()
}

fn manual_file_count(folder: &Folder) -> usize {
    folder.subfiles.len() + folder.subfolders.iter().map(manual_file_count).sum::<usize>()
}

fn trees_equal(a: &Folder, b: &Folder) -> bool {
    a.name == b.name
        && a.path == b.path
        && a.size == b.size
        && a.disk == b.disk
        && a.traversed == b.traversed
        && a.subfiles.len() == b.subfiles.len()
        && a
            .subfiles
            .iter()
            .zip(b.subfiles.iter())
            .all(|(x, y)| x.path == y.path && x.name == y.name && x.size == y.size)
        && a.subfolders.len() == b.subfolders.len()
        && a.subfolders.iter().zip(b.subfolders.iter()).all(|(x, y)| trees_equal(x, y))
}

#[test]
fn start_builds_one_populated_level() {
    let listings = example_listings();
    let root = start_folder_tree("/r".to_string(), &listings[0].outcome).unwrap();
    assert_eq!(root.name, "r");
    assert_eq!(root.path, "/r");
    assert!(root.traversed);
    assert!(!root.disk);
    assert_eq!(root.subfiles.len(), 2);
    assert_eq!(root.subfolders.len(), 1);
    assert_eq!(root.subfolders[0].name, "sub");
    assert!(!root.subfolders[0].traversed);
}

#[test]
fn start_fails_when_root_is_unreachable() {
    let unreachable: Result<Vec<FsEntry>, DirErrorKind> = Err(DirErrorKind::PermissionDenied);
    let r = start_folder_tree("/r".to_string(), &unreachable);
    assert!(matches!(r, Err(FileSystemError::RootUnreachable)));
}

#[test]
fn grow_by_zero_is_identity() {
    let listings = example_listings();
    let tree = example_tree();
    let again = grow_folder_tree(
        grow_folder_tree(example_tree(), 0, &listings),
        0,
        &listings,
    );
    assert!(trees_equal(&tree, &again));
}

#[test]
fn grow_composes_level_by_level() {
    let listings = example_listings();
    let first = start_folder_tree("/r".to_string(), &listings[0].outcome).unwrap();
    let second = start_folder_tree("/r".to_string(), &listings[0].outcome).unwrap();
    let in_two_steps = grow_folder_tree(grow_folder_tree(first, 1, &listings), 1, &listings);
    let in_one_step = grow_folder_tree(second, 2, &listings);
    assert!(trees_equal(&in_one_step, &in_two_steps));
}

#[test]
fn grow_traverses_to_depth() {
    let tree = example_tree();
    assert!(tree.traversed);
    let sub = subfolder(&tree, "sub");
    assert!(sub.traversed);
    assert_eq!(sub.subfiles.len(), 1);
    assert_eq!(sub.subfiles[0].name, "c.txt");
    assert!(file_tree_complete(&tree));
}

#[test]
fn populate_survives_enumeration_failure() {
    let folder = Folder::new("/locked".to_string());
    let outcome: Result<Vec<FsEntry>, DirErrorKind> = Err(DirErrorKind::PermissionDenied);
    let folder = populate_folder(folder, &outcome);
    assert!(folder.traversed);
    assert_eq!(folder.subfiles.len(), 0);
    assert_eq!(folder.subfolders.len(), 0);
    assert_eq!(folder.warning, Some(DirErrorKind::PermissionDenied));
    let failures = enumeration_failures(&folder);
    assert_eq!(failures.len(), 1);
    assert_eq!(failures[0].path, "/locked");
    assert_eq!(failures[0].cause, DirErrorKind::PermissionDenied);
}

#[test]
fn grow_marks_missing_listings_as_failures() {
    let listings = vec![DirListing {
        path: "/r".to_string(),
        outcome: Ok(vec![dir_entry("/r/ghost")]),
    }];
    let root = start_folder_tree("/r".to_string(), &listings[0].outcome).unwrap();
    let root = grow_folder_tree(root, 1, &listings);
    let ghost_folder = subfolder(&root, "ghost");
    assert!(ghost_folder.traversed);
    assert_eq!(ghost_folder.warning, Some(DirErrorKind::NotFound));
}

#[test]
fn aggregate_sums_files_and_subfolders() {
    let tree = aggregate(&example_tree());
    assert_eq!(tree.size, 600);
    assert_eq!(subfolder(&tree, "sub").size, 300);
    let again = aggregate(&tree);
    assert_eq!(again.size, 600);
    assert!(trees_equal(&tree, &again));
}

#[test]
fn example_scenario_sizes_and_shares() {
    let tree = aggregate(&example_tree());
    let root_size = tree.size;
    let tree = spread_percentage(&tree, root_size);
    assert_eq!(tree.size, 600);
    assert_eq!(tree.percentage_of_root.hundredths(), 10000);
    let sub = subfolder(&tree, "sub");
    assert_eq!(sub.size, 300);
    assert_eq!(sub.percentage_of_root.hundredths(), 5000);
    let a = tree.subfiles.iter().find(|f| f.name == "a.txt").unwrap();
    let b = tree.subfiles.iter().find(|f| f.name == "b.txt").unwrap();
    assert_eq!(a.percentage_of_root.hundredths(), 1667);
    assert_eq!(b.percentage_of_root.hundredths(), 3333);
}

#[test]
fn sibling_shares_sum_to_parent_share() {
    let tree = aggregate(&example_tree());
    let root_size = tree.size;
    let tree = spread_percentage(&tree, root_size);
    let child_parts: u64 = tree.subfiles.iter().map(|f| f.percentage_of_root.part).sum::<u64>()
        + tree.subfolders.iter().map(|f| f.percentage_of_root.part).sum::<u64>();
    assert_eq!(child_parts, tree.percentage_of_root.part);
    assert!(tree
        .subfiles
        .iter()
        .all(|f| f.percentage_of_root.whole == root_size));
    assert!(tree
        .subfolders
        .iter()
        .all(|f| f.percentage_of_root.whole == root_size));
}

#[test]
fn zero_root_size_gives_zero_shares() {
    let folder = Folder::new("/empty".to_string());
    let spreaded = spread_percentage(&folder, 0);
    assert_eq!(spreaded.percentage_of_root.hundredths(), 0);
}

#[test]
fn merge_overwrite_folds_deepened_subtree_back() {
    // Main tree: /r scanned one level, so /r/sub is untraversed.
    let listings = example_listings();
    let root = start_folder_tree("/r".to_string(), &listings[0].outcome).unwrap();
    assert!(!root.subfolders[0].traversed);

    // Deepen /r/sub independently.
    let sub_listing = &listings[1].outcome;
    let deepened = start_folder_tree("/r/sub".to_string(), sub_listing).unwrap();
    let deepened = grow_folder_tree(deepened, 1, &listings);

    let merged = merge_folder_tree(&root, &deepened, true).expect("sub is part of the main tree");
    let sub = subfolder(&merged, "sub");
    assert!(sub.traversed);
    assert_eq!(sub.subfiles.len(), 1);
    assert_eq!(sub.subfiles[0].name, "c.txt");
    assert_eq!(sub.subfiles[0].size, 300);
    // The rest of the main tree is untouched.
    assert_eq!(merged.subfiles.len(), 2);
    assert_eq!(merged.name, "r");
}

#[test]
fn merge_descends_to_a_nested_subtree() {
    let listings = vec![
        DirListing {
            path: "/r".to_string(),
            outcome: Ok(vec![dir_entry("/r/sub")]),
        },
        DirListing {
            path: "/r/sub".to_string(),
            outcome: Ok(vec![dir_entry("/r/sub/deep")]),
        },
        DirListing {
            path: "/r/sub/deep".to_string(),
            outcome: Ok(vec![file_entry("/r/sub/deep/d.txt", 7)]),
        },
    ];
    // The main tree knows /r/sub/deep only as an untraversed folder.
    let root = start_folder_tree("/r".to_string(), &listings[0].outcome).unwrap();
    let root = grow_folder_tree(root, 1, &listings);
    assert!(!subfolder(subfolder(&root, "sub"), "deep").traversed);
    // Deepen /r/sub/deep on its own and fold it back in, two levels down.
    let deep = start_folder_tree("/r/sub/deep".to_string(), &listings[2].outcome).unwrap();
    let merged = merge_folder_tree(&root, &deep, true).expect("deep is part of the main tree");
    let deep_after = subfolder(subfolder(&merged, "sub"), "deep");
    assert!(deep_after.traversed);
    assert_eq!(deep_after.subfiles.len(), 1);
    assert_eq!(deep_after.subfiles[0].name, "d.txt");
}

#[test]
fn merge_of_unknown_path_fails_and_leaves_main_unchanged() {
    let root = example_tree();
    let before = example_tree();
    let stranger = Folder::new("/elsewhere".to_string());
    let r = merge_folder_tree(&root, &stranger, false);
    assert!(matches!(r, Err(FileSystemError::FolderNotFound)));
    assert!(trees_equal(&root, &before));
}

#[test]
fn merge_of_present_subtree_changes_nothing() {
    let root = example_tree();
    let sub = subfolder(&root, "sub");
    let merged = merge_folder_tree(&root, sub, false).expect("sub is part of the main tree");
    assert!(trees_equal(&merged, &root));
    assert_eq!(manual_folder_count(&merged), manual_folder_count(&root));
    assert_eq!(manual_file_count(&merged), manual_file_count(&root));
}

#[test]
fn merge_union_appends_only_new_children() {
    let listings = example_listings();
    let root = start_folder_tree("/r".to_string(), &listings[0].outcome).unwrap();
    // A separately scanned /r that found one extra file and the same sub.
    let other_listing: Result<Vec<FsEntry>, DirErrorKind> = Ok(vec![
        file_entry("/r/a.txt", 100),
        file_entry("/r/d.txt", 400),
        dir_entry("/r/sub"),
    ]);
    let other = start_folder_tree("/r".to_string(), &other_listing).unwrap();
    let merged = merge_folder_tree(&root, &other, false).unwrap();
    assert_eq!(merged.subfiles.len(), 3);
    assert_eq!(merged.subfolders.len(), 1);
    let names: Vec<&str> = merged.subfiles.iter().map(|f| f.name.as_str()).collect();
    assert!(names.contains(&"a.txt"));
    assert!(names.contains(&"b.txt"));
    assert!(names.contains(&"d.txt"));
}

#[test]
fn flatten_preserves_cardinality() {
    let tree = example_tree();
    let flat = flatten_folder(&tree);
    assert_eq!(flat.subfiles.len(), manual_file_count(&tree));
    assert_eq!(flat.subfolders.len(), manual_folder_count(&tree));
    assert_eq!(flat.subfiles.len(), 3);
    assert_eq!(flat.subfolders.len(), 2);
    assert_eq!(flat.name, tree.name);
    assert_eq!(flat.path, tree.path);
}

#[test]
fn get_all_files_and_folders_collect_everything() {
    let tree = example_tree();
    let files = get_all_files(&tree);
    let folders = get_all_folders(&tree);
    assert_eq!(files.len(), 3);
    let mut names: Vec<&str> = files.iter().map(|f| f.name.as_str()).collect();
    names.sort();
    assert_eq!(names, vec!["a.txt", "b.txt", "c.txt"]);
    let mut folder_names: Vec<&str> = folders.iter().map(|f| f.name.as_str()).collect();
    folder_names.sort();
    assert_eq!(folder_names, vec!["r", "sub"]);
}

#[test]
fn empty_folders_of_untraversed_folder_are_unknown() {
    let folder = Folder::new("/fresh".to_string());
    assert!(matches!(get_empty_folders(&folder), EmptyFolders::Unknown));
}

#[test]
fn empty_folders_none_when_no_descendant_qualifies() {
    let tree = example_tree();
    // sub/ holds c.txt, so nothing below /r is empty.
    assert!(matches!(get_empty_folders(&tree), EmptyFolders::NoneFound));
}

#[test]
fn empty_folders_lists_traversed_childless_descendants() {
    let listings = vec![
        DirListing {
            path: "/r".to_string(),
            outcome: Ok(vec![dir_entry("/r/void")]),
        },
        DirListing {
            path: "/r/void".to_string(),
            outcome: Ok(vec![]),
        },
    ];
    let root = start_folder_tree("/r".to_string(), &listings[0].outcome).unwrap();
    let root = grow_folder_tree(root, 1, &listings);
    match get_empty_folders(&root) {
        EmptyFolders::Found(v) => {
            assert_eq!(v.len(), 1);
            assert_eq!(v[0].name, "void");
        },
        _ => panic!("expected the empty subfolder to be found"),
    }
}

#[test]
fn marks_flip_the_whole_tree() {
    let tree = example_tree();
    assert!(file_tree_complete(&tree));
    let cleared = mark_not_traversed(&tree);
    assert!(!cleared.traversed);
    assert!(!file_tree_complete(&cleared));
    assert!(cleared.subfolders.iter().all(|f| !f.traversed));
    let restored = mark_traversed(&cleared);
    assert!(file_tree_complete(&restored));
}

#[test]
fn computer_accepts_only_disks() {
    let mut computer = Computer::new("machine".to_string());
    let plain = Folder::new("/r/sub".to_string());
    assert!(matches!(
        computer.add_disk(plain),
        Err(FileSystemError::NotADisk)
    ));
    assert_eq!(computer.disks.len(), 0);
    assert_eq!(computer.total_size, 0);

    let mut disk = Folder::new_disk("/".to_string());
    disk.size = 42;
    assert!(computer.add_disk(disk).is_ok());
    assert_eq!(computer.disks.len(), 1);
    assert_eq!(computer.total_size, 42);
}

#[test]
fn error_messages_name_the_failure() {
    assert_eq!(
        FileSystemError::NotADisk.message(),
        "The provided folder is not a disk."
    );
    assert_eq!(
        FileSystemError::FolderNotFound.message(),
        "The provided Subfolder was not found in the main Folder"
    );
    assert_eq!(
        FileSystemError::RootUnreachable.message(),
        "The starting path could not be enumerated"
    );
}
