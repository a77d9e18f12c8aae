use std::collections::HashMap;
use wordcount::{count, CountError, CountOption};

#[test]
fn word_count_works() {
    let mut exp = HashMap::new();
    exp.insert("aa".to_string(), 1);
    exp.insert("bb".to_string(), 2);
    exp.insert("cc".to_string(), 1);

    let table = count("aa bb cc bb".as_bytes(), CountOption::Word).unwrap();
    let got: HashMap<String, usize> =
        table.tokens().iter().map(|token| (token.clone(), table.get(token))).collect();
    assert_eq!(got, exp);
}

#[test]
fn word_count_works2() {
    let mut exp = HashMap::new();
    exp.insert("aa".to_string(), 1);
    exp.insert("cc".to_string(), 1);
    exp.insert("dd".to_string(), 1);

    let table = count("aa cc dd".as_bytes(), CountOption::Word).unwrap();
    let got: HashMap<String, usize> =
        table.tokens().iter().map(|token| (token.clone(), table.get(token))).collect();
    assert_eq!(got, exp);
}

#[test]
#[should_panic]
fn word_count_do_not_contain_unknown_words() {
    count(
        &[
            b'a',
            0xf0, 0x90, 0x80,
            0xe3, 0x81, 0x82,
        ],
        CountOption::Word,
    )
    .unwrap();
}

#[test]
fn word_count_works3() {
    let freqs = count("aa  cc dd".as_bytes(), CountOption::Word).unwrap();

    assert_eq!(freqs.len(), 3);
    assert_eq!(freqs.get("aa"), 1);
    assert_eq!(freqs.get("cc"), 1);
    assert_eq!(freqs.get("dd"), 1);
}

#[test]
fn default_option_counts_words() {
    assert_eq!(CountOption::default(), CountOption::Word);
    let table = count(b"to be or not to be", CountOption::default()).unwrap();
    assert_eq!(table.len(), 4);
    assert_eq!(table.get("to"), 2);
    assert_eq!(table.get("be"), 2);
    assert_eq!(table.get("or"), 1);
    assert_eq!(table.get("not"), 1);
}

#[test]
fn chars_are_counted_without_the_newline() {
    let table = count(b"ab\ncd", CountOption::Char).unwrap();
    assert_eq!(table.len(), 4);
    assert_eq!(table.get("a"), 1);
    assert_eq!(table.get("b"), 1);
    assert_eq!(table.get("c"), 1);
    assert_eq!(table.get("d"), 1);
    assert_eq!(table.get("\n"), 0);
    assert_eq!(table.total(), 4);
}

#[test]
fn chars_repeat_and_keep_spaces() {
    let table = count(b"a a\na", CountOption::Char).unwrap();
    assert_eq!(table.len(), 2);
    assert_eq!(table.get("a"), 3);
    assert_eq!(table.get(" "), 1);
    assert_eq!(table.tokens(), &vec!["a".to_string(), " ".to_string()]);
}

#[test]
fn chars_of_more_than_one_byte_are_one_token_each() {
    let table = count("é€é😀".as_bytes(), CountOption::Char).unwrap();
    assert_eq!(table.len(), 3);
    assert_eq!(table.get("é"), 2);
    assert_eq!(table.get("€"), 1);
    assert_eq!(table.get("😀"), 1);
    assert_eq!(table.total(), 4);
}

#[test]
fn lines_are_counted_whole() {
    let table = count(b"x\nx\ny", CountOption::Line).unwrap();
    assert_eq!(table.len(), 2);
    assert_eq!(table.get("x"), 2);
    assert_eq!(table.get("y"), 1);
    assert_eq!(table.total(), 3);
}

#[test]
fn lines_lose_both_kinds_of_terminator() {
    let table = count(b"one two\r\none two\nthree\r\n", CountOption::Line).unwrap();
    assert_eq!(table.len(), 2);
    assert_eq!(table.get("one two"), 2);
    assert_eq!(table.get("three"), 1);
    assert_eq!(table.get("one two\r"), 0);
}

#[test]
fn a_carriage_return_without_line_feed_stays() {
    let table = count(b"a\rb\nc\r", CountOption::Line).unwrap();
    assert_eq!(table.len(), 2);
    assert_eq!(table.get("a\rb"), 1);
    assert_eq!(table.get("c\r"), 1);
}

#[test]
fn only_one_carriage_return_is_taken_off() {
    let table = count(b"a\r\r\n", CountOption::Line).unwrap();
    assert_eq!(table.len(), 1);
    assert_eq!(table.get("a\r"), 1);
}

#[test]
fn empty_lines_are_lines() {
    let table = count(b"\n\nx\n", CountOption::Line).unwrap();
    assert_eq!(table.len(), 2);
    assert_eq!(table.get(""), 2);
    assert_eq!(table.get("x"), 1);
    assert_eq!(table.total(), 3);
}

#[test]
fn empty_lines_hold_no_words_and_no_chars() {
    let words = count(b"\n\n\r\n", CountOption::Word).unwrap();
    assert_eq!(words.len(), 0);
    assert_eq!(words.total(), 0);
    let chars = count(b"\n\n\r\n", CountOption::Char).unwrap();
    assert_eq!(chars.len(), 0);
    assert_eq!(chars.total(), 0);
}

#[test]
fn empty_input_gives_an_empty_table() {
    for option in [CountOption::Char, CountOption::Word, CountOption::Line] {
        let table = count(b"", option).unwrap();
        assert_eq!(table.len(), 0);
        assert_eq!(table.total(), 0);
        assert!(table.tokens().is_empty());
    }
}

#[test]
fn punctuation_alone_holds_no_words() {
    let table = count(b"... --- !?\n(;)", CountOption::Word).unwrap();
    assert_eq!(table.len(), 0);
    assert_eq!(table.total(), 0);
}

#[test]
fn words_end_at_punctuation() {
    let table = count(b"Hello, world! hello-world", CountOption::Word).unwrap();
    assert_eq!(table.len(), 3);
    assert_eq!(table.get("Hello"), 1);
    assert_eq!(table.get("hello"), 1);
    assert_eq!(table.get("world"), 2);
    assert_eq!(table.get("Hello,"), 0);
    assert_eq!(table.get("hello-world"), 0);
    assert_eq!(
        table.tokens(),
        &vec!["Hello".to_string(), "world".to_string(), "hello".to_string()]
    );
}

#[test]
fn words_hold_letters_digits_and_underscores() {
    let table = count("snake_case x1 42 naïve Straße 東京".as_bytes(), CountOption::Word).unwrap();
    assert_eq!(table.len(), 6);
    assert_eq!(table.get("snake_case"), 1);
    assert_eq!(table.get("x1"), 1);
    assert_eq!(table.get("42"), 1);
    assert_eq!(table.get("naïve"), 1);
    assert_eq!(table.get("Straße"), 1);
    assert_eq!(table.get("東京"), 1);
}

#[test]
fn words_do_not_run_over_lines() {
    let table = count(b"ab\ncd\r\nab", CountOption::Word).unwrap();
    assert_eq!(table.len(), 2);
    assert_eq!(table.get("ab"), 2);
    assert_eq!(table.get("cd"), 1);
    assert_eq!(table.get("abcd"), 0);
}

#[test]
fn case_is_kept() {
    let table = count(b"Word word WORD word", CountOption::Word).unwrap();
    assert_eq!(table.len(), 3);
    assert_eq!(table.get("word"), 2);
    assert_eq!(table.get("Word"), 1);
    assert_eq!(table.get("WORD"), 1);
}

#[test]
fn invalid_utf8_fails_in_every_mode() {
    let truncated: [u8; 7] = [b'a', 0xf0, 0x90, 0x80, 0xe3, 0x81, 0x82];
    let lone: [u8; 3] = [b'a', 0x80, b'b'];
    for option in [CountOption::Char, CountOption::Word, CountOption::Line] {
        assert!(matches!(count(&truncated, option), Err(CountError::InvalidEncoding)));
        assert!(matches!(count(&lone, option), Err(CountError::InvalidEncoding)));
    }
}

#[test]
fn invalid_utf8_in_a_later_line_gives_no_table() {
    let input: [u8; 8] = [b'o', b'k', b'\n', b'o', b'k', b'\n', 0xff, b'\n'];
    for option in [CountOption::Char, CountOption::Word, CountOption::Line] {
        assert_eq!(count(&input, option).err(), Some(CountError::InvalidEncoding));
    }
}

#[test]
fn the_counts_add_up_to_the_number_of_tokens() {
    let input = "the cat and the hat\nand the bat\r\n\nthe end".as_bytes();
    let words = count(input, CountOption::Word).unwrap();
    let sum: usize = words.tokens().iter().map(|token| words.get(token)).sum();
    assert_eq!(sum, 10);
    assert_eq!(words.total(), 10);
    let chars = count(input, CountOption::Char).unwrap();
    let sum: usize = chars.tokens().iter().map(|token| chars.get(token)).sum();
    assert_eq!(sum, 37);
    assert_eq!(chars.total(), 37);
    let lines = count(input, CountOption::Line).unwrap();
    let sum: usize = lines.tokens().iter().map(|token| lines.get(token)).sum();
    assert_eq!(sum, 4);
    assert_eq!(lines.total(), 4);
}

#[test]
fn counting_twice_gives_the_same_table() {
    let input = "b a b\nc a\nb".as_bytes();
    for option in [CountOption::Char, CountOption::Word, CountOption::Line] {
        let first = count(input, option).unwrap();
        let second = count(input, option).unwrap();
        assert_eq!(first.tokens(), second.tokens());
        assert_eq!(first.total(), second.total());
        for token in first.tokens() {
            assert_eq!(first.get(token), second.get(token));
        }
    }
}
