use flagpick::{character_cursor_to_byte, CursorError};

#[test]
fn converts_character_positions_to_byte_offsets() {
    let input = "aé🙂z";
    assert_eq!(character_cursor_to_byte(input, 0), Ok(0));
    assert_eq!(character_cursor_to_byte(input, 1), Ok(1));
    assert_eq!(character_cursor_to_byte(input, 2), Ok(3));
    assert_eq!(character_cursor_to_byte(input, 3), Ok(7));
    assert_eq!(character_cursor_to_byte(input, 4), Ok(8));
    assert!(character_cursor_to_byte(input, 5).is_err());
}

#[test]
fn cursor_error_reports_the_character_count() {
    assert_eq!(
        character_cursor_to_byte("aé", 7),
        Err(CursorError {
            cursor: 7,
            character_count: 2
        })
    );
    assert_eq!(character_cursor_to_byte("", 0), Ok(0));
}

#[test]
fn cursor_error_message_names_both_counts() {
    let error = CursorError { cursor: 7, character_count: 2 };
    assert_eq!(error.message(), "cursor 7 is beyond the buffer's 2 characters");
}
