use tagrepo::tree::from_ordered_paths;
use tagrepo::tree::FolderBuf;

fn paths_of(raw: Vec<&str>) -> Vec<String> {
    raw.into_iter().map(|p| p.to_string()).collect()
}

#[test]
fn paths_test() {
    let paths = paths_of(vec![
        "",
        "Band",
        "Band/ready",
        "Guitar IRs",
        "Guitar IRs/Aurora DSP/FREE PACK",
        "Guitar IRs/Aurora DSP/FREE PACK/WAVE/GOVERNOR/LEWITT 0cm",
        "Guitar IRs/Aurora DSP/FREE PACK/WAVE/GOVERNOR/LEWITT 2cm",
        "Guitar IRs/Aurora DSP/FREE PACK/WAVE/GOVERNOR/LEWITT 4cm",
    ]);
    let dirs = from_ordered_paths(&paths).unwrap();
    println!("{:?}", &dirs);
}

#[test]
fn tree_structure_is_nested_and_ordered() {
    let paths = paths_of(vec!["b/x", "a", "b/y/z", "b/x"]);
    let tree = from_ordered_paths(&paths).unwrap();
    assert_eq!(tree.child_count(), 2);
    assert_eq!(tree.child_name(0), "b");
    assert_eq!(tree.child_name(1), "a");
    let b = tree.child_at(0);
    assert_eq!(b.child_count(), 2);
    assert_eq!(b.child_name(0), "x");
    assert_eq!(b.child_name(1), "y");
    assert_eq!(b.child_at(0).child_count(), 0);
    let y = b.child_at(1);
    assert_eq!(y.child_count(), 1);
    assert_eq!(y.child_name(0), "z");
}

#[test]
fn empty_and_duplicate_separators_are_dropped() {
    let paths = paths_of(vec!["", "a//b/", "/a"]);
    let tree = from_ordered_paths(&paths).unwrap();
    assert_eq!(tree.child_count(), 1);
    assert_eq!(tree.child_name(0), "a");
    let a = tree.child_at(0);
    assert_eq!(a.child_count(), 1);
    assert_eq!(a.child_name(0), "b");
}

#[test]
fn an_empty_list_gives_an_empty_tree() {
    let paths: Vec<String> = Vec::new();
    let tree = from_ordered_paths(&paths).unwrap();
    assert_eq!(tree.child_count(), 0);
    assert_eq!(tree, FolderBuf::new());
}
