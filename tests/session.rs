use omega_edit::{ChangeKind, EditError, Session, Viewport};

fn text(s: &Session) -> String {
    String::from_utf8(s.save().unwrap()).unwrap()
}

fn seen(s: &Session, v: Viewport) -> String {
    String::from_utf8(s.materialized_bytes(v).unwrap()).unwrap()
}

#[test]
fn example_session_views() {
    let mut s = Session::new();
    let all = s.view(0, 100, true).unwrap();
    s.push("Hello Weird!!!!").unwrap();
    let hello = s.view(0, 5, false).unwrap();
    let world = s.view(6, 10, false).unwrap();
    s.overwrite("orl", 7).unwrap();
    s.delete(11, 3).unwrap();
    assert_eq!(seen(&s, hello), "Hello");
    assert_eq!(seen(&s, world), "World!");
    assert_eq!(seen(&s, all), "Hello World!");
    assert_eq!(s.materialized_bytes(all).unwrap().len(), 12);
    let notes = s.take_notifications();
    assert_eq!(notes.len(), 3);
    assert!(notes.iter().all(|n| n.viewport == all));
    assert_eq!(notes[0].change.kind, ChangeKind::Insert);
    assert_eq!(notes[1].change.kind, ChangeKind::Overwrite);
    assert_eq!(notes[2].change.kind, ChangeKind::Delete);
    assert_eq!(notes[2].change.offset, 11);
    assert_eq!(notes[2].change.length, 3);
    assert!(s.take_notifications().is_empty());
}

#[test]
fn scenario_overwrite_then_delete() {
    let mut s = Session::from_bytes(b"Hello World!!!!".to_vec());
    let all = s.view(0, 100, true).unwrap();
    assert_eq!(s.current_length(), 15);
    s.overwrite("orl", 7).unwrap();
    assert_eq!(text(&s), "Hello World!!!!");
    s.delete(11, 3).unwrap();
    assert_eq!(text(&s), "Hello World!");
    assert_eq!(seen(&s, all), "Hello World!");
    assert_eq!(s.current_length(), 12);
    assert_eq!(s.take_notifications().len(), 2);
}

#[test]
fn overwrite_replaces_in_place() {
    let mut s = Session::from_bytes(b"Hello Weird!!!!".to_vec());
    let c = s.overwrite("orl", 7).unwrap();
    assert_eq!(c.kind, ChangeKind::Overwrite);
    assert_eq!(c.offset, 7);
    assert_eq!(c.length, 3);
    assert_eq!(text(&s), "Hello World!!!!");
    assert_eq!(s.current_length(), 15);
}

#[test]
fn length_follows_each_change() {
    let mut s = Session::new();
    assert_eq!(s.current_length(), 0);
    s.insert("abcdef", 0).unwrap();
    assert_eq!(s.current_length(), 6);
    s.insert("XY", 3).unwrap();
    assert_eq!(s.current_length(), 8);
    assert_eq!(text(&s), "abcXYdef");
    s.overwrite("zz", 6).unwrap();
    assert_eq!(s.current_length(), 8);
    assert_eq!(text(&s), "abcXYdzz");
    s.delete(1, 4).unwrap();
    assert_eq!(s.current_length(), 4);
    assert_eq!(text(&s), "adzz");
    s.insert("!", 4).unwrap();
    assert_eq!(s.current_length(), 5);
    assert_eq!(text(&s), "adzz!");
}

#[test]
fn change_log_records_every_change() {
    let mut s = Session::new();
    s.insert("abc", 0).unwrap();
    s.delete(0, 1).unwrap();
    assert!(s.insert("q", 9).is_err());
    assert_eq!(s.change_count(), 2);
    let first = s.change(0).unwrap();
    assert_eq!(first.serial, 0);
    assert_eq!(first.kind, ChangeKind::Insert);
    assert_eq!(first.length, 3);
    let second = s.change(1).unwrap();
    assert_eq!(second.serial, 1);
    assert_eq!(second.kind, ChangeKind::Delete);
    assert_eq!(s.change(2), None);
}

#[test]
fn save_without_changes_gives_source_back() {
    let bytes: Vec<u8> = vec![0, 1, 2, 0, 255, 7];
    let s = Session::from_bytes(bytes.clone());
    assert_eq!(s.save().unwrap(), bytes);
    let empty = Session::new();
    assert_eq!(empty.save().unwrap(), Vec::<u8>::new());
}

#[test]
fn binary_content_with_zero_bytes() {
    let mut s = Session::from_bytes(vec![1, 2, 3]);
    s.insert_bytes(&[0, 0], 1).unwrap();
    assert_eq!(s.save().unwrap(), vec![1, 0, 0, 2, 3]);
    s.overwrite_bytes(&[9, 0], 3).unwrap();
    assert_eq!(s.save().unwrap(), vec![1, 0, 0, 9, 0]);
}

#[test]
fn reading_twice_gives_same_bytes() {
    let mut s = Session::from_bytes(b"0123456789".to_vec());
    let v = s.view(2, 3, true).unwrap();
    let a = s.materialized_bytes(v).unwrap();
    let b = s.materialized_bytes(v).unwrap();
    assert_eq!(a, b);
    assert_eq!(a, b"234".to_vec());
    s.overwrite("xy", 7).unwrap();
    assert_eq!(s.materialized_bytes(v).unwrap(), a);
    assert!(s.take_notifications().is_empty());
}

#[test]
fn insert_shifts_later_windows() {
    let mut s = Session::from_bytes(b"abcdefghij".to_vec());
    let before = s.view(0, 3, false).unwrap();
    let later = s.view(5, 3, false).unwrap();
    let old_later = s.materialized_bytes(later).unwrap();
    assert_eq!(old_later, b"fgh".to_vec());
    s.insert("1234", 4).unwrap();
    assert_eq!(seen(&s, before), "abc");
    assert_eq!(s.read_range(5 + 4, 3).unwrap(), old_later);
    assert_eq!(seen(&s, later), "234");
}

#[test]
fn delete_then_insert_restores_document() {
    let original = b"the quick brown fox".to_vec();
    let mut s = Session::from_bytes(original.clone());
    let removed = s.read_range(4, 6).unwrap();
    s.delete(4, 6).unwrap();
    assert_eq!(text(&s), "the brown fox");
    s.insert_bytes(&removed, 4).unwrap();
    assert_eq!(s.save().unwrap(), original);
}

#[test]
fn range_violations() {
    let mut s = Session::from_bytes(b"abc".to_vec());
    assert_eq!(s.insert("x", 4), Err(EditError::InvalidRange));
    assert_eq!(s.insert("x", -1), Err(EditError::InvalidRange));
    assert_eq!(s.overwrite("xy", 2), Err(EditError::ValidationError));
    assert_eq!(s.overwrite("x", 3), Err(EditError::InvalidRange));
    assert_eq!(s.overwrite("x", -2), Err(EditError::InvalidRange));
    assert_eq!(s.delete(1, 3), Err(EditError::ValidationError));
    assert_eq!(s.delete(3, 1), Err(EditError::InvalidRange));
    assert_eq!(s.delete(0, -1), Err(EditError::InvalidRange));
    assert_eq!(s.view(-1, 2, false), Err(EditError::InvalidRange));
    assert_eq!(s.view(0, -2, false), Err(EditError::InvalidRange));
    assert_eq!(s.read_range(-1, 2), Err(EditError::InvalidRange));
    assert_eq!(text(&s), "abc");
    assert_eq!(s.change_count(), 0);
    assert!(s.insert("x", 3).is_ok());
    assert_eq!(text(&s), "abcx");
}

#[test]
fn windows_past_the_end_are_cut() {
    let mut s = Session::from_bytes(b"abc".to_vec());
    let v = s.view(2, 10, false).unwrap();
    assert_eq!(seen(&s, v), "c");
    let far = s.view(10, 5, false).unwrap();
    assert_eq!(s.materialized_bytes(far).unwrap(), Vec::<u8>::new());
    assert_eq!(s.read_range(1, 100).unwrap(), b"bc".to_vec());
    s.insert("de", 3).unwrap();
    assert_eq!(seen(&s, v), "cde");
}

#[test]
fn empty_insert_touches_nothing() {
    let mut s = Session::from_bytes(b"abc".to_vec());
    let v = s.view(0, 10, true).unwrap();
    let c = s.insert("", 1).unwrap();
    assert_eq!(c.length, 0);
    assert_eq!(text(&s), "abc");
    assert_eq!(seen(&s, v), "abc");
    assert!(s.take_notifications().is_empty());
}

#[test]
fn unregistered_viewport_cannot_be_read() {
    let mut s = Session::from_bytes(b"abc".to_vec());
    let v = s.view(0, 2, true).unwrap();
    assert_eq!(s.unregister(v), Ok(()));
    assert_eq!(s.materialized_bytes(v), Err(EditError::InvalidRange));
    assert_eq!(s.unregister(v), Err(EditError::InvalidRange));
    s.insert("z", 0).unwrap();
    assert!(s.take_notifications().is_empty());
    assert_eq!(s.materialized_bytes(Viewport { id: 7 }), Err(EditError::InvalidRange));
}

#[test]
fn destroyed_session_refuses_everything() {
    let mut s = Session::from_bytes(b"abc".to_vec());
    let v = s.view(0, 3, false).unwrap();
    s.destroy();
    assert_eq!(s.materialized_bytes(v), Err(EditError::SessionClosed));
    assert_eq!(s.unregister(v), Err(EditError::SessionClosed));
    assert_eq!(s.insert("x", 0), Err(EditError::SessionClosed));
    assert_eq!(s.push("x"), Err(EditError::SessionClosed));
    assert_eq!(s.overwrite("x", 0), Err(EditError::SessionClosed));
    assert_eq!(s.delete(0, 1), Err(EditError::SessionClosed));
    assert_eq!(s.view(0, 1, false), Err(EditError::SessionClosed));
    assert_eq!(s.read_range(0, 1), Err(EditError::SessionClosed));
    assert_eq!(s.save(), Err(EditError::SessionClosed));
    s.destroy();
    assert_eq!(s.materialized_bytes(v), Err(EditError::SessionClosed));
}

#[test]
fn overlapping_overwrite_refreshes_and_notifies() {
    let mut s = Session::from_bytes(b"0123456789".to_vec());
    let left = s.view(0, 4, true).unwrap();
    let right = s.view(6, 4, true).unwrap();
    s.overwrite("ab", 3).unwrap();
    assert_eq!(seen(&s, left), "012a");
    assert_eq!(seen(&s, right), "6789");
    let notes = s.take_notifications();
    assert_eq!(notes.len(), 1);
    assert_eq!(notes[0].viewport, left);
    s.delete(0, 1).unwrap();
    assert_eq!(seen(&s, right), "789");
    assert_eq!(seen(&s, left), "12ab");
    assert_eq!(s.take_notifications().len(), 2);
}
