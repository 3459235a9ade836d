use steamdepot::manifest::DepotManifest;
use steamdepot::order::stable_order;
use steamdepot::paths::PathOptions;
use steamdepot::prepare::{
    file_is_kept, plan_directory_tree, PrepareAction, PreparePlan, PrepareResult, FLAG_DIRECTORY,
    FLAG_EXECUTABLE, FLAG_SYMLINK,
};
use steamdepot::proto::{ContentManifestPayload, FileMapping};

fn mapping(filename: &str, flags: u32, size: u64) -> FileMapping {
    FileMapping {
        filename: Some(filename.to_string()),
        flags: Some(flags),
        size: Some(size),
        ..Default::default()
    }
}

fn manifest(mappings: Vec<FileMapping>) -> DepotManifest {
    DepotManifest {
        payload: ContentManifestPayload { mappings },
        metadata: Default::default(),
        signature: Default::default(),
    }
}

fn shown(action: &PrepareAction) -> String {
    match action {
        PrepareAction::Directory { path } => format!("dir {path}"),
        PrepareAction::Symlink { path, target } => format!("link {path} -> {target}"),
        PrepareAction::File { path, size, executable } => {
            format!("file {path} {size}{}", if *executable { " x" } else { "" })
        }
    }
}

fn lines(plan: &PreparePlan) -> Vec<String> {
    plan.actions.iter().map(shown).collect()
}

#[test]
fn prepare_creates_folded_paths() {
    let m = manifest(vec![
        mapping("Addons", FLAG_DIRECTORY, 0),
        mapping("Addons/AIMEE_main.pbo", 0, 4),
    ]);
    let plan = plan_directory_tree(&m, PathOptions::lowercase()).unwrap();
    assert!(plan.failure.is_none());
    assert_eq!(lines(&plan), ["dir addons", "file addons/aimee_main.pbo 4"]);
    // The name the manifest used must not also appear -- that is the
    // duplicate this option exists to prevent.
    assert!(!lines(&plan).iter().any(|line| line.contains("Addons/AIMEE_main.pbo")));
}

#[test]
fn prepare_preserves_case_by_default() {
    let m = manifest(vec![
        mapping("Addons", FLAG_DIRECTORY, 0),
        mapping("Addons/AIMEE_main.pbo", 0, 4),
    ]);
    let plan = plan_directory_tree(&m, PathOptions::preserve_case()).unwrap();
    assert_eq!(lines(&plan), ["dir Addons", "file Addons/AIMEE_main.pbo 4"]);
}

#[test]
fn preparing_a_folded_tree_twice_finds_the_existing_file() {
    let m = manifest(vec![
        mapping("Addons", FLAG_DIRECTORY, 0),
        mapping("Addons/AIMEE_main.pbo", 0, 4),
    ]);
    let options = PathOptions::lowercase();
    let plan = plan_directory_tree(&m, options).unwrap();

    let mut first = PrepareResult::new();
    for action in &plan.actions {
        first.record(action, None);
    }
    assert_eq!(first.files_created, 1);
    assert!(first.verify_candidates.is_empty());

    let again = plan_directory_tree(&m, options).unwrap();
    assert_eq!(lines(&again), lines(&plan));
    let mut second = PrepareResult::new();
    for action in &again.actions {
        second.record(action, Some(4));
    }
    // Already at the manifest's size, so it is offered for chunk
    // verification instead of being recreated.
    assert_eq!(second.verify_candidates, vec!["addons/aimee_main.pbo".to_string()]);
    assert_eq!(second.files_created, 0);
    assert_eq!(second.dirs_created, 1);
    assert_eq!(second.total_bytes, 4);
}

#[test]
fn a_symlink_target_is_folded_with_its_path() {
    let mut link = mapping("Addons/Link.pbo", FLAG_SYMLINK, 0);
    link.linktarget = Some("Addons\\AIMEE_main.pbo".to_string());
    let m = manifest(vec![
        mapping("Addons", FLAG_DIRECTORY, 0),
        mapping("Addons/AIMEE_main.pbo", 0, 4),
        link,
    ]);
    let plan = plan_directory_tree(&m, PathOptions::lowercase()).unwrap();
    // Pointing at the unfolded name would dangle -- that file does
    // not exist in a folded tree.
    assert_eq!(
        lines(&plan),
        [
            "dir addons",
            "file addons/aimee_main.pbo 4",
            "link addons/link.pbo -> addons/aimee_main.pbo",
        ]
    );
}

#[test]
fn things_are_created_in_the_order_of_their_names() {
    let m = manifest(vec![
        mapping("b", 0, 1),
        mapping("a/z", 0, 2),
        FileMapping::default(),
        mapping("a", FLAG_DIRECTORY, 0),
        mapping("\u{e4}", 0, 3),
        mapping("B", 0, 4),
        mapping("a", 0, 5),
    ]);
    let plan = plan_directory_tree(&m, PathOptions::preserve_case()).unwrap();
    assert_eq!(
        lines(&plan),
        ["file B 4", "dir a", "file a 5", "file a/z 2", "file b 1", "file \u{e4} 3"]
    );
}

#[test]
fn flags_decide_what_is_created() {
    let m = manifest(vec![
        mapping("1", FLAG_EXECUTABLE, 9),
        mapping("2", FLAG_DIRECTORY | FLAG_SYMLINK, 0),
        FileMapping { filename: Some("3".to_string()), ..Default::default() },
    ]);
    let plan = plan_directory_tree(&m, PathOptions::preserve_case()).unwrap();
    assert_eq!(lines(&plan), ["file 1 9 x", "dir 2", "file 3 0"]);
}

#[test]
fn a_symlink_without_a_target_is_refused_in_its_turn() {
    for target in [None, Some(String::new())] {
        let mut link = mapping("Bin\\link", FLAG_SYMLINK, 0);
        link.linktarget = target;
        let m = manifest(vec![mapping("z", 0, 1), link, mapping("a", 0, 2), mapping("A", 0, 1)]);
        let plan = plan_directory_tree(&m, PathOptions::preserve_case()).unwrap();
        assert_eq!(lines(&plan), ["file A 1"]);
        assert_eq!(plan.failure.unwrap().message(), "symlink Bin\\link has no linktarget");
    }
}

#[test]
fn a_folded_plan_is_refused_on_a_collision() {
    let m = manifest(vec![mapping("a", 0, 1), mapping("A", 0, 1)]);
    let e = plan_directory_tree(&m, PathOptions::lowercase()).unwrap_err();
    assert_eq!(
        e.message(),
        "cannot lowercase this depot: \"a\" and \"A\" both become \"a\", so one would overwrite \
         the other"
    );
    assert!(plan_directory_tree(&m, PathOptions::preserve_case()).is_ok());
}

#[test]
fn results_are_counted() {
    let actions = [
        PrepareAction::Directory { path: "d".to_string() },
        PrepareAction::Symlink { path: "s".to_string(), target: "t".to_string() },
        PrepareAction::File { path: "kept".to_string(), size: 10, executable: false },
        PrepareAction::File { path: "new".to_string(), size: 20, executable: true },
        PrepareAction::File { path: "resized".to_string(), size: 30, executable: true },
    ];
    let existing = [Some(0), None, Some(10), None, Some(29)];
    let mut result = PrepareResult::new();
    for (action, size) in actions.iter().zip(existing) {
        result.record(action, size);
    }
    assert_eq!(result.dirs_created, 1);
    assert_eq!(result.symlinks_created, 1);
    assert_eq!(result.files_created, 2);
    assert_eq!(result.total_bytes, 60);
    assert_eq!(result.verify_candidates, vec!["kept".to_string()]);
}

#[test]
fn a_file_of_the_right_size_is_kept() {
    assert!(file_is_kept(Some(5), 5));
    assert!(!file_is_kept(Some(4), 5));
    assert!(!file_is_kept(None, 0));
}

#[test]
fn equal_keys_stay_in_place() {
    let keys: Vec<&[u8]> = vec![b"b", b"a", b"b", b"", b"ab", b"a"];
    assert_eq!(stable_order(&keys), vec![3, 1, 5, 4, 0, 2]);
    assert_eq!(stable_order(&vec![]), Vec::<usize>::new());
}
