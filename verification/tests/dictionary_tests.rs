use instaling_bot::dictionary::{dictionary_entry, read_from_dict, write_to_dict};

#[test]
fn lookup_finds_answer_of_matching_line() {
    let dict = "the cat sleeps $ kot\nthe dog barks $ pies\n";
    assert_eq!(read_from_dict(dict, "the dog barks"), "pies");
}

#[test]
fn lookup_without_match_gives_none() {
    let dict = "the cat sleeps $ kot\n";
    assert_eq!(read_from_dict(dict, "a bird sings"), "None");
}

#[test]
fn lookup_in_empty_dictionary_gives_none() {
    assert_eq!(read_from_dict("", "anything"), "None");
}

#[test]
fn lookup_last_matching_line_wins() {
    let dict = "good morning $ first\nsay good morning $ second\nunrelated $ x\n";
    assert_eq!(read_from_dict(dict, "good morning"), "second");
}

#[test]
fn lookup_matches_inside_longer_line() {
    let dict = "I like apples very much $ jablka\n";
    assert_eq!(read_from_dict(dict, "apples"), "jablka");
}

#[test]
fn lookup_line_without_separator_gives_none() {
    let dict = "apple $ jablko\napple without answer\n";
    assert_eq!(read_from_dict(dict, "apple"), "None");
}

#[test]
fn lookup_answer_stops_at_second_separator() {
    let dict = "q $ first $ second\n";
    assert_eq!(read_from_dict(dict, "q"), "first");
}

#[test]
fn lookup_empty_question_hits_trailing_empty_line() {
    let dict = "q $ a\n";
    assert_eq!(read_from_dict(dict, ""), "None");
    assert_eq!(read_from_dict("q $ a", ""), "a");
}

#[test]
fn lookup_last_line_without_newline() {
    assert_eq!(read_from_dict("x $ 1\ny $ 2", "y"), "2");
}

#[test]
fn lookup_keeps_non_ascii_text() {
    let dict = "zażółć gęślą $ jaźń\n";
    assert_eq!(read_from_dict(dict, "gęślą"), "jaźń");
}

#[test]
fn entry_joins_question_and_answer() {
    assert_eq!(dictionary_entry("the cat", "kot"), "the cat $ kot");
}

#[test]
fn write_appends_a_line() {
    let mut dict = String::from("a $ b\n");
    write_to_dict(&mut dict, "c $ d");
    assert_eq!(dict, "a $ b\nc $ d\n");
}

#[test]
fn written_entry_reads_back() {
    let mut dict = String::from("old question $ old\n");
    let entry = dictionary_entry("new question", "nowe");
    write_to_dict(&mut dict, &entry);
    assert_eq!(read_from_dict(&dict, "new question"), "nowe");
}

#[test]
fn written_entry_reads_back_from_empty_dictionary() {
    let mut dict = String::new();
    write_to_dict(&mut dict, &dictionary_entry("q", "a"));
    assert_eq!(read_from_dict(&dict, "q"), "a");
}

#[test]
fn other_entry_keeps_lookup() {
    let mut dict = String::from("first $ one\n");
    let before = read_from_dict(&dict, "first");
    write_to_dict(&mut dict, &dictionary_entry("second", "two"));
    assert_eq!(read_from_dict(&dict, "first"), before);
    assert_eq!(before, "one");
}

#[test]
fn newer_entry_replaces_older_answer() {
    let mut dict = String::from("q $ wrong\n");
    write_to_dict(&mut dict, &dictionary_entry("q", "right"));
    assert_eq!(read_from_dict(&dict, "q"), "right");
}
