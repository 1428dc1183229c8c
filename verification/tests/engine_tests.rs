use srep::engine::FileTransformer;

#[test]
fn capture_only_reproduces_text() {
    let mut ft = FileTransformer::new(b"hello world".to_vec());
    ft.reader_push(5);
    ft.reader_push(6);
    ft.reset_reader();
    let (text, changed) = ft.into_parts();
    assert_eq!(text, b"hello world".to_vec());
    assert!(!changed);
}

#[test]
fn capture_partial_then_fold_keeps_tail() {
    let mut ft = FileTransformer::new(b"hello".to_vec());
    ft.reader_push(2);
    ft.reset_reader();
    let (text, changed) = ft.into_parts();
    assert_eq!(text, b"hello".to_vec());
    assert!(!changed);
}

#[test]
fn skip_drops_text_and_marks_modified() {
    let mut ft = FileTransformer::new(b"hello".to_vec());
    ft.reader_push(2);
    ft.reader_skip(3);
    ft.reset_reader();
    let (text, changed) = ft.into_parts();
    assert_eq!(text, b"he".to_vec());
    assert!(changed);
}

#[test]
fn push_inserts_at_read_head() {
    let mut ft = FileTransformer::new(b"ab".to_vec());
    ft.reader_push(1);
    ft.push(b"XY".to_vec());
    ft.reader_push(1);
    ft.reset_reader();
    let (text, changed) = ft.into_parts();
    assert_eq!(text, b"aXYb".to_vec());
    assert!(changed);
}

#[test]
fn get_reader_is_unread_suffix() {
    let mut ft = FileTransformer::new(b"abcdef".to_vec());
    ft.reader_push(2);
    assert_eq!(ft.get_reader(), b"cdef");
    ft.reader_skip(2);
    assert_eq!(ft.get_reader(), b"ef");
}

#[test]
fn fold_feeds_next_pass() {
    let mut ft = FileTransformer::new(b"abc".to_vec());
    ft.reader_skip(1);
    ft.push(b"Z".to_vec());
    ft.reset_reader();
    assert_eq!(ft.get_reader(), b"Zbc");
    ft.reader_push(3);
    ft.reset_reader();
    let (text, changed) = ft.into_parts();
    assert_eq!(text, b"Zbc".to_vec());
    assert!(changed);
}

#[test]
fn was_modified_tracks_skip_and_push_only() {
    let mut ft = FileTransformer::new(b"abcd".to_vec());
    assert!(!ft.was_modified());
    ft.reader_push(4);
    assert!(!ft.was_modified());
    ft.push(b"".to_vec());
    assert!(ft.was_modified());
}
