use tagrepo::config::Component;
use tagrepo::config::FixedComponent;
use tagrepo::config::PanelComponent;
use tagrepo::manager::determine_filetype;
use tagrepo::manager::FileType;
use tagrepo::manager::ItemDetails;
use tagrepo::manager::ManagerStatus;
use tagrepo::manager::UnwatchError;
use tagrepo::repo::repeat_vars;
use tagrepo::repo::IntoTags;
use tagrepo::repo::Item;
use tagrepo::repo::Tag;

#[test]
fn filetype_by_extension() {
    assert_eq!(determine_filetype("Drum Collection/Kick 01.wav"), FileType::Audio);
    assert_eq!(determine_filetype("notes/todo.txt"), FileType::Document);
    assert_eq!(determine_filetype("art/cover.png"), FileType::Image);
    assert_eq!(determine_filetype("clips/take.mp4"), FileType::Video);
    assert_eq!(determine_filetype("mystery.xyz"), FileType::Unknown);
}

#[test]
fn filetype_needs_a_real_extension() {
    assert_eq!(determine_filetype("no_extension"), FileType::Unknown);
    assert_eq!(determine_filetype(".gitignore"), FileType::Unknown);
    assert_eq!(determine_filetype("dir.mp3/file"), FileType::Unknown);
    assert_eq!(determine_filetype("archive.tar.gz"), FileType::Unknown);
    assert_eq!(determine_filetype("trailing."), FileType::Unknown);
}

#[test]
fn filetype_is_case_sensitive() {
    assert_eq!(determine_filetype("loud.WAV"), FileType::Unknown);
}

#[test]
fn item_details_pair_item_with_filetype() {
    let item = Item {
        id: 7,
        path: "kits/snare.flac".to_string(),
        tags: vec!["kit".to_string(), "snare".to_string()],
        meta_tags: "all".to_string(),
    };
    let details = ItemDetails::from_item(item);
    assert_eq!(details.filetype, FileType::Audio);
    assert_eq!(details.item.id, 7);
    assert_eq!(details.item.path, "kits/snare.flac");
}

#[test]
fn manager_starts_idle() {
    assert_eq!(ManagerStatus::default(), ManagerStatus::Idle);
    assert_eq!(UnwatchError::NotWatching, UnwatchError::NotWatching);
}

#[test]
fn repeat_vars_makes_placeholder_lists() {
    assert_eq!(repeat_vars(1), "?");
    assert_eq!(repeat_vars(2), "?,?");
    assert_eq!(repeat_vars(5), "?,?,?,?,?");
}

#[test]
fn tag_carries_its_count() {
    let tag = Tag { name: "kick".to_string(), column: "tags".to_string(), count: 3 };
    assert_eq!(tag.name, "kick");
    assert_eq!(tag.column, "tags");
    assert_eq!(tag.count, 3);
}

#[test]
fn tags_from_text_are_split_and_sorted() {
    assert_eq!("  c  b  a  ".into_tags(), vec!["a", "b", "c"]);
    assert_eq!("kick drum".to_string().into_tags(), vec!["drum", "kick"]);
    assert_eq!("one".into_tags(), vec!["one"]);
    assert_eq!("   ".into_tags(), Vec::<String>::new());
}

#[test]
fn tag_lists_are_sorted_not_split() {
    let list = vec!["zeta tau".to_string(), "alpha".to_string()];
    assert_eq!((&list).into_tags(), vec!["alpha", "zeta tau"]);
    assert_eq!(list.into_tags(), vec!["alpha", "zeta tau"]);
    assert_eq!(vec!["b", "a", "b"].into_tags(), vec!["a", "b", "b"]);
}

#[test]
fn components_compare_by_variant() {
    let a = Component::Fixed(FixedComponent::ItemList);
    let b = Component::Panel(PanelComponent::FolderTree);
    let c = Component::Panel(PanelComponent::ItemProperties);
    assert_eq!(a.clone(), a);
    assert_ne!(b, c);
    assert_ne!(a, b);
}
