use lazycard::buffer::TextBuffer;
use lazycard::config::Config;
use lazycard::hash::Seahash;
use lazycard::scroll::adjust_scroll;
use std::path::PathBuf;

#[test]
fn buffer_edits_at_byte_offsets() {
    let mut b = TextBuffer::from_text("aé");
    assert_eq!(b.len(), 3);
    assert_eq!(b.char_count(), 2);
    b.insert_char(1, 'x');
    assert_eq!(b.contents(), "axé");
    b.insert_str(4, "世!");
    assert_eq!(b.contents(), "axé世!");
    assert_eq!(b.char_index(4), 3);
    assert_eq!(b.byte_offset(4), 7);
    b.delete_range(2, 7);
    assert_eq!(b.contents(), "ax!");
    b.clear();
    assert_eq!(b.contents(), "");
    assert_eq!(b.len(), 0);
}

#[test]
fn buffer_remove_then_reinsert_round_trip() {
    let text = "héllo wörld";
    let mut b = TextBuffer::from_text(text);
    let (s, e) = (1, 8);
    let removed = text[s..e].to_string();
    b.delete_range(s, e);
    assert_eq!(b.contents(), "hörld");
    b.insert_str(s, &removed);
    assert_eq!(b.contents(), text);
}

#[test]
fn scroll_moves_only_as_far_as_needed() {
    assert_eq!(adjust_scroll(0, 0, 3), 0);
    assert_eq!(adjust_scroll(0, 2, 3), 0);
    assert_eq!(adjust_scroll(0, 3, 3), 1);
    assert_eq!(adjust_scroll(0, 10, 3), 8);
    assert_eq!(adjust_scroll(5, 2, 3), 2);
    assert_eq!(adjust_scroll(5, 7, 3), 5);
    assert_eq!(adjust_scroll(4, 4, 0), 5);
}

#[test]
fn seahash_matches_the_crate_and_round_trips_its_blob() {
    let h = Seahash::from_bytes(b"lazycard");
    assert_eq!(h.raw(), seahash::hash(b"lazycard"));
    assert_ne!(h.raw(), Seahash::from_bytes(b"lazycarD").raw());
    let raw = Seahash::from_raw(0x0102030405060708);
    assert_eq!(raw.to_blob(), vec![1, 2, 3, 4, 5, 6, 7, 8]);
    assert_eq!(Seahash::from_blob(&raw.to_blob()), Some(raw));
    assert_eq!(Seahash::from_blob(&[1, 2, 3]), None);
    assert_eq!(Seahash::from_blob(&h.to_blob()), Some(h));
}

#[test]
fn config_tracks_unsaved_changes() {
    let mut c = Config::empty();
    assert!(c.database().is_none());
    assert!(!c.take_dirty());
    c.set_database(PathBuf::from("cards.db"));
    assert_eq!(c.database(), Some(&PathBuf::from("cards.db")));
    assert!(c.take_dirty());
    assert!(!c.take_dirty());
    let saved = Config::from_saved(Some(PathBuf::from("x.db")));
    assert_eq!(saved.database(), Some(&PathBuf::from("x.db")));
}
