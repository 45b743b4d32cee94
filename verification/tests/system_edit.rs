use lazydeck::system::edit_result;

#[test]
fn a_clean_edit_hands_back_the_file() {
    let (content, error) = edit_result(0, Ok(b"new text".to_vec()), "/tmp/a.txt");
    assert_eq!(content, Some(b"new text".to_vec()));
    assert_eq!(error, None);
}

#[test]
fn a_failed_editor_is_reported_with_its_code() {
    let (content, error) = edit_result(3, Ok(b"x".to_vec()), "/tmp/a.txt");
    assert_eq!(content, Some(b"x".to_vec()));
    assert_eq!(error.as_deref(), Some("Editor exited with code 3"));
    let (_, error) = edit_result(-1, Err("gone".to_string()), "/tmp/a.txt");
    assert_eq!(error.as_deref(), Some("Editor exited with code -1"));
}

#[test]
fn an_unreadable_file_is_reported_when_the_editor_succeeded() {
    let (content, error) = edit_result(0, Err("No such file".to_string()), "/tmp/a.txt");
    assert_eq!(content, None);
    assert_eq!(error.as_deref(), Some("Failed to read edited file '/tmp/a.txt': No such file"));
}

#[test]
fn the_most_negative_exit_code_is_written_in_full() {
    let (_, error) = edit_result(i32::MIN, Ok(Vec::new()), "f");
    assert_eq!(error.as_deref(), Some("Editor exited with code -2147483648"));
}
