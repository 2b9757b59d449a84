use todizzy::storage::{data_directory, Index, NoteId, NoteStore};

#[test]
fn default_index_has_one_note() {
    let i = Index::default();
    assert_eq!((i.notes, i.next_id), (vec![NoteId(0)], 1));
}

#[test]
fn file_names() {
    assert_eq!(NoteId(0).file_name(), "note-0.txt");
    assert_eq!(NoteId(4294967295).file_name(), "note-4294967295.txt");
    assert_eq!(NoteId(17).temp_file_name(), "note-17.tmp");
    assert_eq!(NoteStore::index_file_name(), "index.json");
    assert_eq!(NoteStore::index_temp_file_name(), "index.tmp");
}

#[test]
fn file_names_differ() {
    let names: Vec<String> = (0..200).map(|n| NoteId(n).file_name()).collect();
    for i in 0..names.len() {
        for j in 0..i {
            assert_ne!(names[i], names[j]);
        }
    }
}

#[test]
fn an_empty_index_gets_a_note() {
    let (store, created) = NoteStore::open(Index { notes: vec![], next_id: 7 });
    assert_eq!(created, Some(NoteId(7)));
    assert_eq!(store.note_ids(), &[NoteId(7)]);
    assert_eq!(store.next_id(), 8);
    let (store, created) = NoteStore::open(Index { notes: vec![NoteId(3)], next_id: 7 });
    assert_eq!(created, None);
    assert_eq!((store.len(), store.id_at(0), store.next_id()), (1, NoteId(3), 7));
}

#[test]
fn notes_are_created_at_the_end_with_new_ids() {
    let (mut store, _) = NoteStore::open(Index::default());
    assert_eq!(store.create_note(), NoteId(1));
    assert_eq!(store.create_note(), NoteId(2));
    assert_eq!(store.delete_note(2), Some(NoteId(2)));
    assert_eq!(store.create_note(), NoteId(3)); // the id of the deleted note stays unused
    assert_eq!(store.note_ids(), &[NoteId(0), NoteId(1), NoteId(3)]);
}

#[test]
fn the_last_note_stays() {
    let (mut store, _) = NoteStore::open(Index::default());
    store.create_note();
    assert_eq!(store.delete_note(0), Some(NoteId(0)));
    assert_eq!(store.delete_note(0), None);
    assert_eq!(store.delete_note(5), None);
    assert_eq!(store.note_ids(), &[NoteId(1)]);
}

#[test]
fn data_directories() {
    let dir = |chosen: Option<&str>, home: Option<&str>| {
        data_directory(chosen.map(String::from), home.map(String::from))
    };
    let below_home = "/Users/é/Library/Application Support/todizzy".to_string();
    assert_eq!(dir(None, Some("/Users/é")), Some(below_home.clone()));
    assert_eq!(dir(None, Some("/Users/é/")), Some(below_home));
    assert_eq!(
        dir(None, Some("")),
        Some("Library/Application Support/todizzy".to_string())
    );
    assert_eq!(dir(Some("/tmp/dev"), Some("/Users/x")), Some("/tmp/dev".to_string()));
    assert_eq!(dir(Some(""), None), Some(String::new()));
    assert_eq!(dir(None, None), None);
}
