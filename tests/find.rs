use cliutils::find::{type_selected, EntryKind, EntryType};

#[test]
fn type_filter() {
    let file = EntryKind { is_dir: false, is_file: true, is_symlink: false };
    assert!(type_selected(&vec![], file));
    assert!(type_selected(&vec![EntryType::Dir, EntryType::File], file));
    assert!(!type_selected(&vec![EntryType::Dir, EntryType::Link], file));
}
