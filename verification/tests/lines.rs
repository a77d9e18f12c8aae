use wordcount::next_line;

#[test]
fn next_line_stops_at_the_line_feed() {
    let input = b"ab\ncd";
    let (line, next) = next_line(input, 0);
    assert_eq!(line, b"ab");
    assert_eq!(next, 3);
    let (line, next) = next_line(input, 3);
    assert_eq!(line, b"cd");
    assert_eq!(next, 5);
}

#[test]
fn next_line_takes_off_one_carriage_return_before_the_line_feed() {
    let input = b"ab\r\ncd\r\r\n";
    let (line, next) = next_line(input, 0);
    assert_eq!(line, b"ab");
    assert_eq!(next, 4);
    let (line, next) = next_line(input, 4);
    assert_eq!(line, b"cd\r");
    assert_eq!(next, 9);
}

#[test]
fn next_line_keeps_a_carriage_return_at_the_end_of_the_input() {
    let input = b"ab\r";
    let (line, next) = next_line(input, 0);
    assert_eq!(line, b"ab\r");
    assert_eq!(next, 3);
}

#[test]
fn next_line_of_a_line_feed_is_empty() {
    let input = b"\n\r\nx";
    let (line, next) = next_line(input, 0);
    assert_eq!(line, b"");
    assert_eq!(next, 1);
    let (line, next) = next_line(input, 1);
    assert_eq!(line, b"");
    assert_eq!(next, 3);
    let (line, next) = next_line(input, 3);
    assert_eq!(line, b"x");
    assert_eq!(next, 4);
}
