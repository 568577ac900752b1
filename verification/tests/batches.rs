use located_edits::buffer::TextBuffer;
use located_edits::edit::{EditKind, LocatedEdit};
use located_edits::location::Location;
use located_edits::order::BatchError;

fn at(line: usize, column: usize) -> Location {
    Location { file_path: "src/lib.rs".to_string(), line, column }
}

fn replace(line: usize, column: usize, end_line: usize, end_column: usize, text: &str) -> LocatedEdit {
    LocatedEdit {
        location: at(line, column),
        kind: EditKind::Replace {
            end_location: at(end_line, end_column),
            replacement_text: text.to_string(),
        },
    }
}

fn remove(line: usize, column: usize, end_column: usize) -> LocatedEdit {
    LocatedEdit {
        location: at(line, column),
        kind: EditKind::Remove { end_location: at(line, end_column) },
    }
}

fn insert_before(line: usize, text: &str) -> LocatedEdit {
    LocatedEdit { location: at(line, 0), kind: EditKind::InsertBefore { text: text.to_string() } }
}

#[test]
fn a_descending_batch_is_applied_as_planned() {
    let text = "zero\none two\nthree\n";
    let edits = vec![
        insert_before(3, "end\n"),
        replace(2, 0, 2, 5, "3"),
        remove(1, 3, 7),
        replace(1, 0, 1, 3, "1"),
        insert_before(1, "between\n"),
        replace(0, 0, 0, 4, "0"),
    ];
    let mut buffer = TextBuffer::from_text(text);
    assert!(buffer.goes_down(&edits));
    assert_eq!(buffer.apply_batch(&edits), Ok(()));
    assert_eq!(buffer.to_text(), "0\nbetween\n1\n3\nend\n");
    let mut in_turn = TextBuffer::from_text(text);
    assert_eq!(in_turn.apply_edits(&edits), Ok(()));
    assert_eq!(in_turn.to_text(), "0\nbetween\n1\n3\nend\n");
    let mut reloading = TextBuffer::from_text(text);
    assert_eq!(reloading.apply_edits_reloading(&edits), Ok(()));
    assert_eq!(reloading.to_text(), "0\nbetween\n1\n3\nend\n");
}

#[test]
fn an_ascending_batch_is_refused() {
    let text = "aaa\nbbb\nccc\n";
    let edits = vec![insert_before(0, "top\n"), replace(2, 0, 2, 3, "zzz")];
    let mut buffer = TextBuffer::from_text(text);
    assert!(!buffer.goes_down(&edits));
    assert_eq!(buffer.apply_batch(&edits), Err(BatchError::NotDescending));
    assert_eq!(buffer.to_text(), text);
}

#[test]
fn an_overlapping_batch_is_refused() {
    let text = "abcdefgh\n";
    let edits = vec![replace(0, 4, 0, 6, "X"), replace(0, 2, 0, 5, "Y")];
    let mut buffer = TextBuffer::from_text(text);
    assert_eq!(buffer.apply_batch(&edits), Err(BatchError::NotDescending));
    assert_eq!(buffer.to_text(), text);
    let touching = vec![replace(0, 4, 0, 6, "X"), replace(0, 2, 0, 4, "Y")];
    assert_eq!(buffer.apply_batch(&touching), Ok(()));
    assert_eq!(buffer.to_text(), "abYXgh\n");
}

#[test]
fn a_batch_with_an_edit_that_does_not_fit_is_refused() {
    let text = "one\ntwo\n";
    let mut buffer = TextBuffer::from_text(text);
    assert_eq!(buffer.apply_batch(&[replace(9, 0, 9, 1, "x")]), Err(BatchError::NotDescending));
    assert_eq!(
        buffer.apply_batch(&[replace(1, 0, 1, 1, "T"), replace(0, 2, 0, 1, "x")]),
        Err(BatchError::NotDescending)
    );
    assert_eq!(buffer.to_text(), text);
    assert_eq!(buffer.apply_batch(&[]), Ok(()));
    assert_eq!(buffer.to_text(), text);
}

#[test]
fn edits_at_one_offset_apply_in_the_order_given() {
    let text = "fn create() {}\n";
    let edits = vec![replace(0, 0, 0, 2, "pub fn"), insert_before(0, "#[mark]\n")];
    let mut buffer = TextBuffer::from_text(text);
    assert_eq!(buffer.apply_batch(&edits), Ok(()));
    assert_eq!(buffer.to_text(), "#[mark]\npub fn create() {}\n");
}

#[test]
fn a_line_feed_put_after_a_carriage_return_moves_the_next_line() {
    let text = "a\r";
    let edits = vec![insert_before(1, "\nX"), replace(1, 0, 1, 0, "Y")];
    let mut guarded = TextBuffer::from_text(text);
    assert!(!guarded.goes_down(&edits));
    assert_eq!(guarded.apply_batch(&edits), Err(BatchError::NotDescending));
    assert_eq!(guarded.to_text(), text);
    let mut in_turn = TextBuffer::from_text(text);
    assert_eq!(in_turn.apply_edits(&edits), Ok(()));
    assert_eq!(in_turn.to_text(), "a\r\nYX");
    let mut planned = TextBuffer::from_text(text);
    planned.splice(2, 2, "\nX");
    planned.splice(2, 2, "Y");
    assert_eq!(planned.to_text(), "a\rY\nX");
}

#[test]
fn a_line_after_a_line_feed_stays_where_it_is() {
    let text = "a\n";
    let edits = vec![insert_before(2, "X\n"), insert_before(1, "Y\n")];
    let mut buffer = TextBuffer::from_text(text);
    assert_eq!(buffer.apply_batch(&edits), Ok(()));
    assert_eq!(buffer.to_text(), "a\nY\nX\n");
}

#[test]
fn two_edits_past_the_last_line_are_refused() {
    let text = "a\n";
    let edits = vec![insert_before(2, "X\n"), insert_before(2, "Y\n")];
    let mut buffer = TextBuffer::from_text(text);
    assert_eq!(buffer.apply_batch(&edits), Err(BatchError::NotDescending));
    let mut in_turn = TextBuffer::from_text(text);
    assert_eq!(in_turn.apply_edits(&edits), Ok(()));
    assert_eq!(in_turn.to_text(), "a\nX\nY\n");
}

#[test]
fn ranges_are_resolved_against_the_text() {
    let buffer = TextBuffer::from_text("ab\ncde\n");
    assert_eq!(buffer.resolve(&replace(1, 1, 1, 3, "x")), Some((4, 6)));
    assert_eq!(buffer.resolve(&replace(0, 1, 1, 0, "x")), Some((1, 3)));
    assert_eq!(buffer.resolve(&remove(0, 0, 7)), Some((0, 7)));
    assert_eq!(buffer.resolve(&remove(0, 0, 8)), None);
    assert_eq!(buffer.resolve(&insert_before(2, "x")), Some((7, 7)));
    assert_eq!(buffer.resolve(&insert_before(3, "x")), Some((7, 7)));
    assert_eq!(buffer.resolve(&insert_before(4, "x")), None);
    assert_eq!(buffer.char_at(3), 'c');
    assert_eq!(buffer.reloaded().to_text(), "ab\ncde\n");
}
