use clawpad::selection::{byte_offset, char_index, duplicate_selection};

#[test]
fn duplicate_selection_walks_forward_through_occurrences() {
    let content = "foo bar foo baz foo";
    assert_eq!(duplicate_selection(content, 0, 3), Some((8, 11)));
    assert_eq!(duplicate_selection(content, 8, 11), Some((16, 19)));
    assert_eq!(duplicate_selection(content, 16, 19), None);
}

#[test]
fn duplicate_selection_of_empty_selection_is_none() {
    assert_eq!(duplicate_selection("foo foo", 0, 0), None);
    assert_eq!(duplicate_selection("foo foo", 3, 3), None);
    assert_eq!(duplicate_selection("", 0, 0), None);
}

#[test]
fn duplicate_selection_out_of_range_is_none() {
    assert_eq!(duplicate_selection("foo foo", 4, 8), None);
    assert_eq!(duplicate_selection("foo foo", 5, 2), None);
    assert_eq!(duplicate_selection("foo", 0, 100), None);
}

#[test]
fn duplicate_selection_finds_adjacent_occurrence() {
    assert_eq!(duplicate_selection("abab", 0, 2), Some((2, 4)));
    assert_eq!(duplicate_selection("aaaa", 0, 1), Some((1, 2)));
    assert_eq!(duplicate_selection("aaaa", 0, 3), None);
}

#[test]
fn duplicate_selection_does_not_wrap_to_start() {
    assert_eq!(duplicate_selection("foo bar", 4, 7), None);
    assert_eq!(duplicate_selection("bar foo bar", 8, 11), None);
}

#[test]
fn duplicate_selection_counts_bytes() {
    let content = "é=é";
    assert_eq!(content.len(), 5);
    assert_eq!(duplicate_selection(content, 0, 2), Some((3, 5)));
}

#[test]
fn duplicate_selection_agrees_with_str_find() {
    let content = "let x = 1;\nlet y = x + x;\nlet z = x;";
    let mut start = 4;
    let mut end = 5;
    loop {
        let expected = content[end..].find(&content[start..end]).map(|pos| (end + pos, end + pos + (end - start)));
        let got = duplicate_selection(content, start, end);
        assert_eq!(got, expected);
        match got {
            Some((s, e)) => {
                start = s;
                end = e;
            }
            None => break,
        }
    }
}

#[test]
fn byte_offset_counts_encoded_bytes() {
    let text = "aé€😀z";
    assert_eq!(text.len(), 11);
    assert_eq!(byte_offset(text, 0), 0);
    assert_eq!(byte_offset(text, 1), 1);
    assert_eq!(byte_offset(text, 2), 3);
    assert_eq!(byte_offset(text, 3), 6);
    assert_eq!(byte_offset(text, 4), 10);
    assert_eq!(byte_offset(text, 5), 11);
    assert_eq!(byte_offset(text, 6), 11);
    assert_eq!(byte_offset(text, usize::MAX), 11);
    assert_eq!(byte_offset("", 0), 0);
    assert_eq!(byte_offset("", 3), 0);
}

#[test]
fn char_index_counts_characters_that_start_before() {
    let text = "aé€😀z";
    assert_eq!(char_index(text, 0), 0);
    assert_eq!(char_index(text, 1), 1);
    assert_eq!(char_index(text, 2), 2);
    assert_eq!(char_index(text, 3), 2);
    assert_eq!(char_index(text, 4), 3);
    assert_eq!(char_index(text, 6), 3);
    assert_eq!(char_index(text, 7), 4);
    assert_eq!(char_index(text, 10), 4);
    assert_eq!(char_index(text, 11), 5);
    assert_eq!(char_index(text, 100), 5);
    assert_eq!(char_index("", 0), 0);
    assert_eq!(char_index("", 5), 0);
}

#[test]
fn offsets_agree_with_char_indices_of_std() {
    let text = "let ü = \"日本語\"; // 🎉 done\n";
    let starts: Vec<usize> = text.char_indices().map(|(at, _)| at).collect();
    for (index, at) in starts.iter().enumerate() {
        assert_eq!(byte_offset(text, index), *at);
        assert_eq!(char_index(text, *at), index);
    }
    assert_eq!(byte_offset(text, starts.len()), text.len());
    assert_eq!(char_index(text, text.len()), starts.len());
}

#[test]
fn duplicate_selection_by_character_indices() {
    let text = "näme = näme + 1";
    let start = byte_offset(text, 0);
    let end = byte_offset(text, 4);
    assert_eq!((start, end), (0, 5));
    let (from, to) = duplicate_selection(text, start, end).unwrap();
    assert_eq!((from, to), (8, 13));
    assert_eq!((char_index(text, from), char_index(text, to)), (7, 11));
    assert_eq!(&text[from..to], "näme");
}
