use lamda_red::wrap::label_control;

#[test]
fn nine_words_in_chunks_of_eight_give_two_lines() {
    let lines = label_control("one two three four five six seven eight nine", 8);
    assert_eq!(lines.len(), 2);
    assert_eq!(lines[0], "one two three four five six seven eight");
    assert_eq!(lines[1], "nine");
}

#[test]
fn line_count_is_words_divided_by_chunk_rounded_up() {
    // Five words in chunks of two: three lines.
    let lines = label_control("a b c d e", 2);
    assert_eq!(lines.len(), 3);
    assert_eq!(lines[0], "a b");
    assert_eq!(lines[1], "c d");
    assert_eq!(lines[2], "e");
    // Six words in chunks of three: two full lines.
    let lines = label_control("a b c d e f", 3);
    assert_eq!(lines.len(), 2);
    assert_eq!(lines[0], "a b c");
    assert_eq!(lines[1], "d e f");
}

#[test]
fn few_words_fit_on_one_line() {
    let lines = label_control("just three words", 8);
    assert_eq!(lines.len(), 1);
    assert_eq!(lines[0], "just three words");
}

#[test]
fn empty_label_gives_no_lines() {
    assert_eq!(label_control("", 8).len(), 0);
    assert_eq!(label_control("   \t ", 8).len(), 0);
}

#[test]
fn repeated_spaces_do_not_make_empty_words() {
    let lines = label_control("a  b   c", 2);
    assert_eq!(lines.len(), 2);
    assert_eq!(lines[0], "a b");
    assert_eq!(lines[1], "c");
}

#[test]
fn no_line_ends_with_whitespace() {
    for text in ["one two three four five six seven eight nine", "  padded  ", "a", "a b c d"] {
        for chunk in [1usize, 2, 3, 8] {
            for line in label_control(text, chunk) {
                assert!(!line.is_empty());
                assert!(!line.ends_with(' '));
                assert!(!line.ends_with('\t'));
            }
        }
    }
}

#[test]
fn chunk_of_one_gives_one_word_per_line() {
    let lines = label_control("alpha beta gamma", 1);
    assert_eq!(lines.len(), 3);
    assert_eq!(lines[0], "alpha");
    assert_eq!(lines[1], "beta");
    assert_eq!(lines[2], "gamma");
}
