use rakune::text::{
    chars_of, decimal_string, join_lines, parse_decimal, rename_tokens, split_lines, trim,
};

fn std_lines(text: &str) -> Vec<String> {
    text.lines().map(|l| l.to_string()).collect()
}

#[test]
fn chars_of_lists_every_character() {
    assert_eq!(chars_of("héllo"), vec!['h', 'é', 'l', 'l', 'o']);
    assert_eq!(chars_of(""), Vec::<char>::new());
}

#[test]
fn split_lines_splits_at_line_feeds() {
    assert_eq!(split_lines("a\nb\nc"), vec!["a", "b", "c"]);
    assert_eq!(split_lines("a\nb\n"), vec!["a", "b"]);
    assert_eq!(split_lines(""), Vec::<String>::new());
    assert_eq!(split_lines("\n"), vec![""]);
    assert_eq!(split_lines("\n\n"), vec!["", ""]);
    assert_eq!(split_lines("one"), vec!["one"]);
}

#[test]
fn split_lines_drops_a_carriage_return_before_a_line_feed() {
    assert_eq!(split_lines("a\r\nb\r\n"), vec!["a", "b"]);
    assert_eq!(split_lines("a\r\r\nb"), vec!["a\r", "b"]);
    assert_eq!(split_lines("a\rb\n"), vec!["a\rb"]);
    assert_eq!(split_lines("last\r"), vec!["last\r"]);
}

#[test]
fn split_lines_agrees_with_std() {
    let samples = [
        "",
        "\n",
        "\r\n",
        "\r",
        "a",
        "a\n",
        "a\r\n",
        "a\n\nb",
        "a\r\n\r\nb\r",
        "\n\na\n\n",
        "fn main() {\n    println!(\"hi\");\n}\n",
        "ünï\ncödé\r\n",
    ];
    for sample in samples {
        assert_eq!(split_lines(sample), std_lines(sample), "sample {:?}", sample);
    }
}

#[test]
fn join_lines_puts_one_line_feed_between_lines() {
    let lines: Vec<String> = vec!["a".to_string(), "b".to_string(), "c".to_string()];
    assert_eq!(join_lines(&lines), "a\nb\nc");
    assert_eq!(join_lines(&vec!["only".to_string()]), "only");
    assert_eq!(join_lines(&Vec::new()), "");
    assert_eq!(join_lines(&vec!["".to_string(), "".to_string()]), "\n");
}

#[test]
fn split_undoes_join() {
    let lines: Vec<String> = vec!["x = 1".to_string(), "".to_string(), "y = 2\r".to_string()];
    assert_eq!(split_lines(&join_lines(&lines)), lines);
    assert_eq!(split_lines(&join_lines(&Vec::new())), Vec::<String>::new());
}

#[test]
fn split_does_not_undo_a_join_that_loses() {
    let empty_last: Vec<String> = vec!["a".to_string(), "".to_string()];
    assert_eq!(split_lines(&join_lines(&empty_last)), vec!["a"]);
    let carriage: Vec<String> = vec!["a\r".to_string(), "b".to_string()];
    assert_eq!(split_lines(&join_lines(&carriage)), vec!["a", "b"]);
}

#[test]
fn parse_decimal_reads_numerals() {
    assert_eq!(parse_decimal("0"), Some(0));
    assert_eq!(parse_decimal("7"), Some(7));
    assert_eq!(parse_decimal("42"), Some(42));
    assert_eq!(parse_decimal("007"), Some(7));
    assert_eq!(parse_decimal("1234567890"), Some(1234567890));
}

#[test]
fn parse_decimal_refuses_what_is_no_numeral() {
    assert_eq!(parse_decimal(""), None);
    assert_eq!(parse_decimal("+5"), None);
    assert_eq!(parse_decimal("-5"), None);
    assert_eq!(parse_decimal("12a"), None);
    assert_eq!(parse_decimal(" 12"), None);
    assert_eq!(parse_decimal("١٢"), None);
}

#[test]
fn parse_decimal_refuses_what_does_not_fit() {
    let max = usize::MAX.to_string();
    assert_eq!(parse_decimal(&max), Some(usize::MAX));
    let mut over = max.clone();
    over.push('0');
    assert_eq!(parse_decimal(&over), None);
    let digits: Vec<char> = max.chars().collect();
    let last = digits[digits.len() - 1].to_digit(10).unwrap();
    if last < 9 {
        let mut next: String = digits[..digits.len() - 1].iter().collect();
        next.push(char::from_digit(last + 1, 10).unwrap());
        assert_eq!(parse_decimal(&next), None);
    }
    assert_eq!(parse_decimal("99999999999999999999999999999999999999999"), None);
}

#[test]
fn decimal_string_writes_numerals() {
    assert_eq!(decimal_string(0), "0");
    assert_eq!(decimal_string(9), "9");
    assert_eq!(decimal_string(10), "10");
    assert_eq!(decimal_string(407), "407");
    assert_eq!(decimal_string(usize::MAX), usize::MAX.to_string());
}

#[test]
fn decimal_round_trip() {
    for n in [0usize, 1, 9, 10, 11, 99, 100, 12345, usize::MAX - 1, usize::MAX] {
        assert_eq!(parse_decimal(&decimal_string(n)), Some(n));
    }
}

#[test]
fn rename_tokens_replaces_whole_identifiers() {
    assert_eq!(rename_tokens("let foo = foo + 1;", "foo", "bar"), "let bar = bar + 1;");
    assert_eq!(rename_tokens("foo", "foo", "bar"), "bar");
    assert_eq!(rename_tokens("foo.foo(foo)", "foo", "b"), "b.b(b)");
}

#[test]
fn rename_tokens_leaves_longer_identifiers() {
    assert_eq!(rename_tokens("foobar foo_ _foo foo1 1foo", "foo", "x"), "foobar foo_ _foo foo1 1foo");
    assert_eq!(rename_tokens("food foo", "foo", "x"), "food x");
}

#[test]
fn rename_tokens_leaves_everything_else() {
    assert_eq!(rename_tokens("", "foo", "x"), "");
    assert_eq!(rename_tokens("a + b", "", "x"), "a + b");
    assert_eq!(rename_tokens("a + b", "+", "x"), "a + b");
    assert_eq!(rename_tokens("a b", "a b", "x"), "a b");
    assert_eq!(rename_tokens("é foo é", "foo", "ü"), "é ü é");
}

#[test]
fn trim_removes_blanks_at_both_ends() {
    assert_eq!(trim("  hello world \n"), "hello world");
    assert_eq!(trim("\t\r\nx\u{b}\u{c}"), "x");
    assert_eq!(trim("none"), "none");
    assert_eq!(trim("   "), "");
    assert_eq!(trim(""), "");
    assert_eq!(trim(" a  b "), "a  b");
}
