use termnode::text::BufferLine;

#[test]
fn buffer_line_counts_graphemes_not_chars() {
    let line = BufferLine::new("he\u{301}llo".to_string());
    assert_eq!(line.count(), 5);
    assert_eq!(line.graphemes(), vec!["h", "e\u{301}", "l", "l", "o"]);
    assert_eq!(line.width(), 5);
}

#[test]
fn buffer_line_grapheme_data_of_wide_text() {
    let line = BufferLine::new("日本".to_string());
    assert_eq!(line.count(), 2);
    assert_eq!(line.width(), 4);
    assert_eq!(line.grapheme_data(), &[(0, 3, 2), (3, 3, 2)]);
    assert_eq!(line.grapheme_indices(), vec![(0, "日".to_string()), (3, "本".to_string())]);
}

#[test]
fn buffer_line_byte_and_grapheme_indices_round_trip() {
    let line = BufferLine::new("ae\u{301}b".to_string());
    assert_eq!(line.grapheme_to_byte_index(0), Some(0));
    assert_eq!(line.grapheme_to_byte_index(1), Some(1));
    assert_eq!(line.grapheme_to_byte_index(2), Some(4));
    assert_eq!(line.grapheme_to_byte_index(3), None);
    for g in 0..3 {
        let byte = line.grapheme_to_byte_index(g).unwrap();
        assert_eq!(line.byte_to_grapheme_index(byte), Some(g));
    }
    // inside the combined grapheme, or past the end
    assert_eq!(line.byte_to_grapheme_index(2), None);
    assert_eq!(line.byte_to_grapheme_index(5), None);
}

#[test]
fn buffer_line_edits() {
    let mut line = BufferLine::new("hello".to_string());
    line.insert(0, '>');
    assert_eq!(line.content(), ">hello");
    line.insert_str(6, " world");
    assert_eq!(line.content(), ">hello world");
    line.push('!');
    line.push_str("?");
    assert_eq!(line.content(), ">hello world!?");
    let removed = line.remove(0);
    assert_eq!(removed, ">");
    assert_eq!(line.content(), "hello world!?");
    let cut = line.remove_range(5..11);
    assert_eq!(cut, " world");
    assert_eq!(line.content(), "hello!?");
    line.replace_range(5..7, "...");
    assert_eq!(line.content(), "hello...");
    assert_eq!(line.count(), 8);
    assert_eq!(line.clone().into_content(), "hello...".to_string());
}

#[test]
fn buffer_line_remove_takes_whole_grapheme() {
    let mut line = BufferLine::new("xe\u{301}y".to_string());
    let removed = line.remove(1);
    assert_eq!(removed, "e\u{301}");
    assert_eq!(line.content(), "xy");
    assert_eq!(line.grapheme_data(), &[(0, 1, 1), (1, 1, 1)]);
}

#[test]
fn buffer_line_slices_by_grapheme() {
    let line = BufferLine::new("日本語です".to_string());
    assert_eq!(line.slice(1, 3), Some("本語"));
    assert_eq!(line.slice(3, 100), Some("です"));
    assert_eq!(line.slice(0, 0), Some(""));
    assert_eq!(line.slice(3, 2), None);
    assert_eq!(line.slice(5, 6), None);
}

#[test]
fn buffer_line_default_is_empty() {
    let line = BufferLine::default();
    assert_eq!(line.content(), "");
    assert_eq!(line.count(), 0);
    assert_eq!(line.width(), 0);
    assert_eq!(line.slice(0, 1), None);
}

#[test]
fn grapheme_indices_split_clusters() {
    let line = BufferLine::new("a\u{301}❤️z".to_string());
    let parts = line.grapheme_indices();
    let texts: Vec<&str> = parts.iter().map(|(_, g)| g.as_str()).collect();
    assert_eq!(texts, vec!["a\u{301}", "❤️", "z"]);
    let starts: Vec<usize> = parts.iter().map(|(i, _)| *i).collect();
    assert_eq!(starts, vec![0, 3, 9]);
}

#[test]
fn widths_count_columns() {
    assert_eq!(BufferLine::new("abc".to_string()).width(), 3);
    assert_eq!(BufferLine::new("日本".to_string()).width(), 4);
    assert_eq!(BufferLine::new(String::new()).width(), 0);
}

#[test]
fn removing_what_was_inserted_restores_the_line() {
    let mut line = BufferLine::new("héllo".to_string());
    line.insert_str(3, "日本");
    assert_eq!(line.content(), "hé日本llo");
    let removed = line.remove_range(3..3 + "日本".len());
    assert_eq!(removed, "日本");
    assert_eq!(line.content(), "héllo");
    assert_eq!(line.count(), 5);
}

#[test]
fn buffer_line_checked_width_counts_columns() {
    assert_eq!(BufferLine::new("日本a".to_string()).checked_width(), Some(5));
    assert_eq!(BufferLine::new(String::new()).checked_width(), Some(0));
}

#[test]
fn grapheme_data_covers_the_bytes_in_order() {
    let line = BufferLine::new("a日e\u{301}".to_string());
    let data = line.grapheme_data();
    assert_eq!(data, &[(0, 1, 1), (1, 3, 2), (4, 3, 1)]);
    assert_eq!(data[0].0, 0);
    for k in 0..data.len() - 1 {
        assert_eq!(data[k + 1].0, data[k].0 + data[k].1);
    }
    let last = data[data.len() - 1];
    assert_eq!(last.0 + last.1, line.content().len());
    assert!(BufferLine::new(String::new()).grapheme_data().is_empty());
}
