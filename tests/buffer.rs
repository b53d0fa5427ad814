use rustyvim::buffer::Buffer;
use rustyvim::error::Error;
use rustyvim::marks::Mark;

#[test]
fn buffer_create_empty() {
    assert_eq!(Buffer::new().to_str(), "");
}

#[test]
fn create_from_string() {
    let str = "hello world";
    assert_eq!(Buffer::from_str(str).to_str(), str);
}

#[test]
fn create_from_multiline_string() {
    let str = "hello world\nanother line";
    assert_eq!(Buffer::from_str(str).to_str(), str);
}

#[test]
fn get_lines() {
    assert_eq!(
        Buffer::from_str("hello world\nanother line").get_lines(),
        ["hello world", "another line"]
    );
}

#[test]
fn get_line() {
    assert_eq!(
        Buffer::from_str("hello world\nanother line").get_line(0),
        "hello world"
    );
}

#[test]
fn insert() {
    let mut buf = Buffer::from_str("hello world");
    buf.insert(Mark::new(0, 0), " ").unwrap();
    buf.insert(Mark::new(0, buf.get_line(0).len()), " ").unwrap();
    buf.insert(Mark::new(0, 6), "w").unwrap();
    assert_eq!(buf.to_str(), " hellow world ")
}

#[test]
fn insert_multiline_str() {
    let mut buf = Buffer::from_str("hello world");
    buf.insert(Mark::new(0, 0), "\n").unwrap();
    assert_eq!(buf.get_lines(), ["", "hello world"]);
    buf.insert(Mark::new(1, buf.get_line(1).len()), "\n").unwrap();
    assert_eq!(buf.get_lines(), ["", "hello world", ""]);
    buf.insert(Mark::new(1, 5), "\n---\n").unwrap();
    assert_eq!(buf.get_lines(), ["", "hello", "---", " world", ""])
}

#[test]
fn remove() {
    let mut buf = Buffer::from_str("hello world");
    buf.remove(Mark::new(0, 0), Mark::new(0, 5)).unwrap();
    assert_eq!(buf.get_lines(), [" world"]);
}

#[test]
fn remove_multiline() {
    let mut buf = Buffer::from_str("hello world\nanother line");
    buf.remove(Mark::new(0, 1), Mark::new(1, 1)).unwrap();
    assert_eq!(buf.get_lines(), ["hnother line"]);
}

#[test]
fn remove_everything() {
    let mut buf = Buffer::from_str("hello world\nanother line");
    buf.remove(Mark::new(0, 0), Mark::new(2, 0)).unwrap();
    assert_eq!(buf.get_lines(), [""]);
}

fn four_marks() -> Buffer {
    let mut buf = Buffer::from_str("hello world\nanother line");
    buf.set_mark(0, Mark { row: 0, col: 0 });
    buf.set_mark(1, Mark { row: 1, col: 0 });
    buf.set_mark(
        2,
        Mark {
            row: 0,
            col: "hello world".len(),
        },
    );
    buf
}

#[test]
fn marks_on_insert() {
    let mut buf = four_marks();
    buf.set_mark(3, Mark { row: 0, col: 6 });

    let to_insert = "very ";
    buf.insert(Mark::new(0, 0), to_insert).unwrap();

    assert_eq!(buf.get_mark(0), Mark { row: 0, col: 0 });
    assert_eq!(buf.get_mark(1), Mark { row: 1, col: 0 });
    assert_eq!(
        buf.get_mark(2),
        Mark {
            row: 0,
            col: "hello world".len() + to_insert.len(),
        }
    );
    assert_eq!(
        buf.get_mark(3),
        Mark {
            row: 0,
            col: 6 + to_insert.len(),
        }
    );
}

#[test]
fn marks_on_insert_multiline() {
    let mut buf = four_marks();
    buf.set_mark(3, Mark { row: 0, col: 6 });

    let to_insert = "ot dog\nThis is j";
    buf.insert(Mark::new(0, 1), to_insert).unwrap();

    assert_eq!(buf.get_mark(0), Mark { row: 0, col: 0 });
    assert_eq!(buf.get_mark(1), Mark { row: 2, col: 0 });
    assert_eq!(
        buf.get_mark(2),
        Mark {
            row: 1,
            col: "This is jello world".len(),
        }
    );
    assert_eq!(
        buf.get_mark(3),
        Mark {
            row: 1,
            col: 6 + "This is j".len() - "h".len(),
        }
    );
}

#[test]
fn marks_on_remove() {
    let mut buf = four_marks();
    buf.set_mark(3, Mark { row: 0, col: 6 });

    buf.remove(Mark::new(0, 1), Mark::new(0, 1 + "ello wo".len()))
        .unwrap();

    assert_eq!(buf.get_mark(0), Mark { row: 0, col: 0 });
    assert_eq!(buf.get_mark(1), Mark { row: 1, col: 0 });
    assert_eq!(
        buf.get_mark(2),
        Mark {
            row: 0,
            col: "hello world".len() - "ello wo".len(),
        }
    );
    assert_eq!(buf.get_mark(3), Mark { row: 0, col: 1 });
}

#[test]
fn marks_on_remove_multiline() {
    let mut buf = four_marks();
    buf.set_mark(3, Mark { row: 1, col: 8 });

    buf.remove(Mark::new(0, 1), Mark::new(1, 2)).unwrap();

    assert_eq!(buf.get_mark(0), Mark { row: 0, col: 0 });
    assert_eq!(buf.get_mark(1), Mark { row: 0, col: 1 });
    assert_eq!(buf.get_mark(2), Mark { row: 0, col: 1 });
    assert_eq!(buf.get_mark(3), Mark { row: 0, col: 7 });
}

#[test]
fn mark_methods() {
    let mut m = Mark::new(0, 0);

    m.move_col(-1);
    m.move_row(-1);
    assert_eq!(m, Mark::new(0, 0));

    m.move_col(1);
    m.move_row(1);
    assert_eq!(m, Mark::new(1, 1));

    m.clamp_row(0);
    m.clamp_col(0);
    assert_eq!(m, Mark::new(0, 0));
}

#[test]
fn mark_moves_stop_at_the_ends() {
    let mut m = Mark::new(3, usize::MAX - 1);
    m.move_row(i64::MIN);
    m.move_col(i64::MAX);
    assert_eq!(m, Mark::new(0, usize::MAX));
    m.move_col(-5);
    assert_eq!(m, Mark::new(0, usize::MAX - 5));
}

#[test]
fn insert_out_of_bounds_changes_nothing() {
    let mut buf = Buffer::from_str("ab\ncd");
    buf.set_mark(7, Mark::new(1, 1));
    assert_eq!(buf.insert(Mark::new(2, 0), "x"), Err(Error::OutOfBounds));
    assert_eq!(buf.insert(Mark::new(0, 3), "x"), Err(Error::OutOfBounds));
    assert_eq!(buf.insert_str(1, 9, "x"), Err(Error::OutOfBounds));
    assert_eq!(buf.to_str(), "ab\ncd");
    assert_eq!(buf.get_mark(7), Mark::new(1, 1));
}

#[test]
fn remove_out_of_bounds_changes_nothing() {
    let mut buf = Buffer::from_str("ab\ncd");
    assert_eq!(
        buf.remove(Mark::new(1, 1), Mark::new(0, 1)),
        Err(Error::OutOfBounds)
    );
    assert_eq!(
        buf.remove(Mark::new(0, 3), Mark::new(1, 0)),
        Err(Error::OutOfBounds)
    );
    assert_eq!(
        buf.remove(Mark::new(0, 0), Mark::new(2, 1)),
        Err(Error::OutOfBounds)
    );
    assert_eq!(
        buf.remove(Mark::new(0, 0), Mark::new(3, 0)),
        Err(Error::OutOfBounds)
    );
    assert_eq!(buf.to_str(), "ab\ncd");
}

#[test]
fn plain_insert_keeps_line_count() {
    let mut buf = Buffer::from_str("one\ntwo\nthree");
    buf.insert(Mark::new(1, 2), "xyz").unwrap();
    buf.insert(Mark::new(2, 5), "").unwrap();
    assert_eq!(buf.line_count(), 3);
    assert_eq!(buf.get_lines(), ["one", "twxyzo", "three"]);
}

#[test]
fn insert_then_remove_round_trip() {
    let text = "hello world\nanother line\nlast";
    let mut buf = Buffer::from_str(text);
    buf.set_mark(0, Mark::new(0, 3));
    buf.set_mark(1, Mark::new(0, 4));
    buf.set_mark(2, Mark::new(0, 9));
    buf.set_mark(3, Mark::new(1, 2));
    buf.set_mark(4, Mark::new(2, 4));
    buf.insert(Mark::new(0, 4), "AB\nCDE\nF").unwrap();
    assert_eq!(buf.get_mark(2), Mark::new(2, 6));
    assert_eq!(buf.get_mark(4), Mark::new(4, 4));
    buf.remove(Mark::new(0, 4), Mark::new(2, 1)).unwrap();
    assert_eq!(buf.to_str(), text);
    assert_eq!(buf.get_mark(0), Mark::new(0, 3));
    assert_eq!(buf.get_mark(1), Mark::new(0, 4));
    assert_eq!(buf.get_mark(2), Mark::new(0, 9));
    assert_eq!(buf.get_mark(3), Mark::new(1, 2));
    assert_eq!(buf.get_mark(4), Mark::new(2, 4));
}

#[test]
fn remove_then_insert_round_trip() {
    let text = "hello world\nanother line\nlast";
    let mut buf = Buffer::from_str(text);
    buf.remove(Mark::new(0, 6), Mark::new(2, 2)).unwrap();
    assert_eq!(buf.to_str(), "hello st");
    buf.insert(Mark::new(0, 6), "world\nanother line\nla").unwrap();
    assert_eq!(buf.to_str(), text);

    let mut buf = Buffer::from_str(text);
    buf.remove(Mark::new(1, 7), Mark::new(3, 0)).unwrap();
    assert_eq!(buf.to_str(), "hello world\nanother");
    buf.insert(Mark::new(1, 7), " line\nlast").unwrap();
    assert_eq!(buf.to_str(), text);
}

#[test]
fn unset_mark_reads_as_start() {
    let mut buf = Buffer::from_str("abc");
    assert_eq!(buf.get_mark(42), Mark::new(0, 0));
    buf.move_mark(42, -3, 2);
    assert_eq!(buf.get_mark(42), Mark::new(0, 2));
    buf.move_mark(42, 1, -1);
    assert_eq!(buf.get_mark(42), Mark::new(0, 1));
    *buf.get_mark_mut(9) = Mark::new(0, 3);
    assert_eq!(buf.get_mark(9), Mark::new(0, 3));
}

#[test]
fn move_cursor_stays_on_one_line() {
    let mut buf = Buffer::from_str("hello");
    let deltas: [(i64, i64); 7] = [
        (5, 0),
        (-7, 3),
        (0, 100),
        (i64::MAX, i64::MIN),
        (i64::MIN, i64::MAX),
        (1, -1),
        (-1, 2),
    ];
    for (drow, dcol) in deltas {
        buf.move_cursor(0, drow, dcol);
        let m = buf.get_mark(0);
        assert_eq!(m.row, 0);
        if dcol != 0 {
            assert!(m.col <= 5);
        }
    }
    assert_eq!(buf.get_mark(0), Mark::new(0, 5));
}

#[test]
fn move_cursor_keeps_column_on_vertical_moves() {
    let mut buf = Buffer::from_str("a long line\nab\nanother long line");
    buf.set_mark(0, Mark::new(0, 8));
    buf.move_cursor(0, 1, 0);
    assert_eq!(buf.get_mark(0), Mark::new(1, 8));
    buf.move_cursor(0, 1, 0);
    assert_eq!(buf.get_mark(0), Mark::new(2, 8));
    buf.move_cursor(0, -1, 0);
    buf.move_cursor(0, 0, 1);
    assert_eq!(buf.get_mark(0), Mark::new(1, 2));
}

#[test]
fn typing_at_a_mark() {
    let mut buf = Buffer::from_str("ab\ncd");
    buf.set_mark(5, Mark::new(1, 9));
    buf.insert_at_mark(5, "xy\nz");
    assert_eq!(buf.to_str(), "ab\ncdxy\nz");
    assert_eq!(buf.get_mark(5), Mark::new(2, 1));
    buf.backspace_at_mark(5);
    buf.backspace_at_mark(5);
    assert_eq!(buf.to_str(), "ab\ncdxy");
    assert_eq!(buf.get_mark(5), Mark::new(1, 4));
    buf.set_mark(5, Mark::new(0, 0));
    buf.backspace_at_mark(5);
    assert_eq!(buf.to_str(), "ab\ncdxy");
}

#[test]
fn insert_char_moves_marks_at_the_place() {
    let mut buf = Buffer::from_str("abc\ndef");
    buf.set_mark(0, Mark::new(0, 1));
    buf.set_mark(1, Mark::new(0, 0));
    buf.set_mark(2, Mark::new(0, 2));
    buf.set_mark(3, Mark::new(1, 1));
    buf.insert_char(0, 1, 'X').unwrap();
    assert_eq!(buf.to_str(), "aXbc\ndef");
    assert_eq!(buf.get_mark(0), Mark::new(0, 2));
    assert_eq!(buf.get_mark(1), Mark::new(0, 0));
    assert_eq!(buf.get_mark(2), Mark::new(0, 3));
    assert_eq!(buf.get_mark(3), Mark::new(1, 1));
    buf.insert_char(1, 1, '\n').unwrap();
    assert_eq!(buf.get_lines(), ["aXbc", "d", "ef"]);
    assert_eq!(buf.get_mark(3), Mark::new(2, 0));
    assert_eq!(buf.insert_char(0, 5, 'Y'), Err(Error::OutOfBounds));
}

#[test]
fn remove_char_moves_later_marks_back() {
    let mut buf = Buffer::from_str("abcd");
    buf.set_mark(0, Mark::new(0, 1));
    buf.set_mark(1, Mark::new(0, 3));
    buf.remove_char(0, 1).unwrap();
    assert_eq!(buf.to_str(), "acd");
    assert_eq!(buf.get_mark(0), Mark::new(0, 1));
    assert_eq!(buf.get_mark(1), Mark::new(0, 2));
    assert_eq!(buf.remove_char(0, 3), Err(Error::OutOfBounds));
    assert_eq!(buf.remove_char(1, 0), Err(Error::OutOfBounds));
}

#[test]
fn join_above_keeps_mark_offsets() {
    let mut buf = Buffer::from_str("abc\ndef\ng");
    buf.set_mark(0, Mark::new(1, 2));
    buf.set_mark(1, Mark::new(2, 1));
    buf.join_above(0).unwrap();
    assert_eq!(buf.to_str(), "abc\ndef\ng");
    buf.join_above(1).unwrap();
    assert_eq!(buf.get_lines(), ["abcdef", "g"]);
    assert_eq!(buf.get_mark(0), Mark::new(0, 5));
    assert_eq!(buf.get_mark(1), Mark::new(1, 1));
    assert_eq!(buf.join_above(2), Err(Error::OutOfBounds));
}

#[test]
fn insert_and_remove_lines() {
    let mut buf = Buffer::from_str("a\nb");
    buf.set_mark(0, Mark::new(0, 1));
    buf.set_mark(1, Mark::new(1, 0));
    buf.insert_line(1).unwrap();
    assert_eq!(buf.get_lines(), ["a", "", "b"]);
    assert_eq!(buf.get_mark(0), Mark::new(0, 1));
    assert_eq!(buf.get_mark(1), Mark::new(2, 0));
    buf.insert_line(3).unwrap();
    assert_eq!(buf.get_lines(), ["a", "", "b", ""]);
    assert_eq!(buf.insert_line(5), Err(Error::OutOfBounds));
    buf.remove_line(0).unwrap();
    assert_eq!(buf.get_lines(), ["", "b", ""]);
    assert_eq!(buf.get_mark(1), Mark::new(1, 0));
    assert_eq!(buf.remove_line(3), Err(Error::OutOfBounds));
    let mut one = Buffer::from_str("only");
    one.remove_line(0).unwrap();
    assert_eq!(one.get_lines(), [""]);
    assert_eq!(one.line_count(), 1);
}

#[test]
fn multiline_insert_moves_mark_at_the_place() {
    let mut buf = Buffer::from_str("hello world");
    buf.set_mark(0, Mark::new(0, 5));
    buf.set_mark(1, Mark::new(0, 4));
    buf.insert(Mark::new(0, 5), "\n--").unwrap();
    assert_eq!(buf.get_lines(), ["hello", "-- world"]);
    assert_eq!(buf.get_mark(0), Mark::new(1, 2));
    assert_eq!(buf.get_mark(1), Mark::new(0, 4));
    buf.remove(Mark::new(0, 5), Mark::new(1, 2)).unwrap();
    assert_eq!(buf.to_str(), "hello world");
    assert_eq!(buf.get_mark(0), Mark::new(0, 5));
    buf.insert(Mark::new(0, 5), "!").unwrap();
    assert_eq!(buf.get_mark(0), Mark::new(0, 5));
}

#[test]
fn move_mark_stays_within_the_text() {
    let mut buf = Buffer::from_str("abc");
    buf.move_mark(3, 5, 0);
    assert_eq!(buf.get_mark(3), Mark::new(0, 0));
    buf.move_mark(3, 0, 100);
    assert_eq!(buf.get_mark(3), Mark::new(0, 3));
    let mut two = Buffer::from_str("a long line\nab");
    two.set_mark(1, Mark::new(0, 9));
    two.move_mark(1, 1, 0);
    assert_eq!(two.get_mark(1), Mark::new(1, 9));
    two.move_mark(1, 0, -1);
    assert_eq!(two.get_mark(1), Mark::new(1, 2));
}

#[test]
fn buffer_path() {
    let mut buf = Buffer::from_str("text");
    assert_eq!(buf.get_path(), None);
    buf.set_path("notes.txt");
    buf.insert(Mark::new(0, 4), "!").unwrap();
    assert_eq!(buf.get_path(), Some("notes.txt"));
    assert_eq!(buf.to_str(), "text!");
}
