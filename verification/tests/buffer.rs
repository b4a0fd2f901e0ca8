use flagpick::buffer::{Edit, EditError, ShellBuffer};
use std::ops::Range;

#[test]
fn appends_at_the_original_end() {
    let buffer = ShellBuffer::new("echo hi");

    assert_eq!(
        buffer.apply(&[Edit::Insert {
            at: buffer.text().len(),
            text: " && exit".into(),
        }]),
        Ok("echo hi && exit".into())
    );
}

#[test]
fn inserts_at_a_unicode_boundary() {
    let buffer = ShellBuffer::new("aé🙂z");

    assert_eq!(
        buffer.apply(&[Edit::Insert {
            at: 1,
            text: "✓".into(),
        }]),
        Ok("a✓é🙂z".into())
    );
}

#[test]
fn applies_sorted_and_unsorted_non_overlapping_edits() {
    let buffer = ShellBuffer::new("abcdef");
    let sorted = vec![
        Edit::Insert {
            at: 1,
            text: "!".into(),
        },
        Edit::Delete { range: 2..3 },
        Edit::Replace {
            range: 4..6,
            text: "YZ".into(),
        },
    ];
    let unsorted = vec![sorted[2].clone(), sorted[0].clone(), sorted[1].clone()];

    assert_eq!(buffer.apply(&sorted), Ok("a!bdYZ".into()));
    assert_eq!(buffer.apply(&unsorted), Ok("a!bdYZ".into()));
}

#[test]
fn preserves_untouched_injection_shaped_text_exactly() {
    let buffer = ShellBuffer::new("echo \"$(whoami)\" `date`\n  value='${HOME}'\n");

    assert_eq!(
        buffer.apply(&[Edit::Replace {
            range: 0..4,
            text: "printf".into(),
        }]),
        Ok("printf \"$(whoami)\" `date`\n  value='${HOME}'\n".into())
    );
}

#[test]
fn rejects_invalid_edits() {
    let ascii = ShellBuffer::new("abcd");
    let unicode = ShellBuffer::new("é");

    assert_eq!(
        ascii.apply(&[Edit::Insert {
            at: 5,
            text: "x".into(),
        }]),
        Err(EditError::OutOfBounds)
    );
    assert_eq!(
        unicode.apply(&[Edit::Insert {
            at: 1,
            text: "x".into(),
        }]),
        Err(EditError::NotCharBoundary)
    );
    assert_eq!(
        ascii.apply(&[Edit::Delete {
            range: Range { start: 3, end: 1 },
        }]),
        Err(EditError::ReversedRange)
    );
    assert_eq!(
        ascii.apply(&[Edit::Replace {
            range: 1..1,
            text: "x".into(),
        }]),
        Err(EditError::EmptyRange)
    );
    assert_eq!(
        ascii.apply(&[Edit::Delete { range: 1..1 }]),
        Err(EditError::EmptyRange)
    );
    assert_eq!(
        ascii.apply(&[
            Edit::Delete { range: 1..3 },
            Edit::Replace {
                range: 2..4,
                text: "x".into(),
            },
        ]),
        Err(EditError::Overlap)
    );
    assert_eq!(
        ascii.apply(&[
            Edit::Insert {
                at: 1,
                text: "x".into(),
            },
            Edit::Insert {
                at: 1,
                text: "y".into(),
            },
        ]),
        Err(EditError::DuplicateInsert)
    );
}

#[test]
fn no_edits_return_the_original_text() {
    let buffer = ShellBuffer::new("git status ✓");
    assert_eq!(buffer.apply(&[]), Ok("git status ✓".to_owned()));
}

#[test]
fn insert_at_range_start_and_end_surrounds_the_replacement() {
    let buffer = ShellBuffer::new("abcdef");
    let edits = [
        Edit::Insert { at: 4, text: "]".into() },
        Edit::Replace { range: 2..4, text: "XY".into() },
        Edit::Insert { at: 2, text: "[".into() },
    ];
    assert_eq!(buffer.apply(&edits), Ok("ab[XY]ef".into()));
}

#[test]
fn insert_strictly_inside_a_range_is_an_overlap() {
    let buffer = ShellBuffer::new("abcdef");
    let edits = [
        Edit::Delete { range: 1..4 },
        Edit::Insert { at: 2, text: "x".into() },
    ];
    assert_eq!(buffer.apply(&edits), Err(EditError::Overlap));
}

#[test]
fn first_invalid_edit_decides_the_error() {
    let buffer = ShellBuffer::new("abcd");
    let edits = [
        Edit::Delete { range: 3..1 },
        Edit::Insert { at: 9, text: "x".into() },
    ];
    assert_eq!(buffer.apply(&edits), Err(EditError::ReversedRange));
}

#[test]
fn range_overlap_is_reported_before_duplicate_inserts() {
    let buffer = ShellBuffer::new("abcdef");
    let edits = [
        Edit::Insert { at: 0, text: "x".into() },
        Edit::Insert { at: 0, text: "y".into() },
        Edit::Delete { range: 1..3 },
        Edit::Delete { range: 2..4 },
    ];
    assert_eq!(buffer.apply(&edits), Err(EditError::Overlap));
}

#[test]
fn edit_error_messages_match_their_variants() {
    assert_eq!(EditError::Overlap.message(), "edits overlap");
    assert_eq!(
        EditError::NotCharBoundary.message(),
        "edit offset is not a UTF-8 character boundary"
    );
}
