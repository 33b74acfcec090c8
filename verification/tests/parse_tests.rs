use knapsack::parse::parse_dataset;
use knapsack::parse::parse_header;

fn lines(text: &[&str]) -> Vec<Vec<u8>> {
    text.iter().map(|l| l.as_bytes().to_vec()).collect()
}

#[test]
fn header_with_two_numbers() {
    assert_eq!(parse_header(b"4 11"), Some((4, 11)));
}

#[test]
fn header_with_extra_tokens_and_blanks() {
    assert_eq!(parse_header(b"  40\t1000  extra"), Some((40, 1000)));
}

#[test]
fn header_missing_a_number() {
    assert_eq!(parse_header(b"4"), None);
    assert_eq!(parse_header(b""), None);
    assert_eq!(parse_header(b"   "), None);
}

#[test]
fn header_with_non_numeral_token() {
    assert_eq!(parse_header(b"four 11"), None);
    assert_eq!(parse_header(b"4 -11"), None);
}

#[test]
fn whole_dataset() {
    let text = lines(&["4 11", "8 4", "10 5", "15 8", "4 3"]);
    let dataset = parse_dataset(&text).expect("well-formed dataset");
    assert_eq!(dataset.item_count, 4);
    assert_eq!(dataset.capacity, 11);
    assert_eq!(dataset.values, vec![8, 10, 15, 4]);
    assert_eq!(dataset.weights, vec![4, 5, 8, 3]);
}

#[test]
fn line_with_wrong_token_count_is_fatal() {
    assert!(parse_dataset(&lines(&["2 10", "8 4", "10 5 9"])).is_none());
    assert!(parse_dataset(&lines(&["2 10", "just-one", "10 5"])).is_none());
}

#[test]
fn blank_line_is_fatal() {
    assert!(parse_dataset(&lines(&["2 10", "", "8 4", "10 5"])).is_none());
    assert!(parse_dataset(&lines(&["2 10", "8 4", "10 5", "   "])).is_none());
}

#[test]
fn bad_item_line_is_fatal() {
    let text = lines(&["2 10", "8 four"]);
    assert!(parse_dataset(&text).is_none());
}

#[test]
fn empty_input_is_fatal() {
    let text: Vec<Vec<u8>> = Vec::new();
    assert!(parse_dataset(&text).is_none());
}

#[test]
fn bad_header_is_fatal() {
    let text = lines(&["x 10", "8 4"]);
    assert!(parse_dataset(&text).is_none());
}

#[test]
fn item_value_above_i32_is_fatal() {
    let text = lines(&["1 10", "2147483648 4"]);
    assert!(parse_dataset(&text).is_none());
}

#[test]
fn item_value_at_i32_limit_parses() {
    let text = lines(&["1 10", "2147483647 4"]);
    let dataset = parse_dataset(&text).expect("well-formed dataset");
    assert_eq!(dataset.values, vec![i32::MAX]);
    assert_eq!(dataset.weights, vec![4]);
}

#[test]
fn carriage_returns_are_blank() {
    let text = lines(&["2 10\r", "8 4\r", "10 5\r"]);
    let dataset = parse_dataset(&text).expect("well-formed dataset");
    assert_eq!(dataset.values, vec![8, 10]);
    assert_eq!(dataset.weights, vec![4, 5]);
}

#[test]
fn leading_zeros_parse() {
    let text = lines(&["1 007", "08 0004"]);
    let dataset = parse_dataset(&text).expect("well-formed dataset");
    assert_eq!(dataset.capacity, 7);
    assert_eq!(dataset.values, vec![8]);
    assert_eq!(dataset.weights, vec![4]);
}
