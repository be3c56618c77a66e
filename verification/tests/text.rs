use cargo_psx::text::{push_i64_decimal, split_at_char};

fn decimal(n: i64) -> String {
    let mut s = String::new();
    push_i64_decimal(&mut s, n);
    s
}

#[test]
fn decimal_rendering() {
    assert_eq!(decimal(0), "0");
    assert_eq!(decimal(7), "7");
    assert_eq!(decimal(10), "10");
    assert_eq!(decimal(-42), "-42");
    assert_eq!(decimal(i64::MAX), "9223372036854775807");
    assert_eq!(decimal(i64::MIN), "-9223372036854775808");
}

#[test]
fn decimal_appends() {
    let mut s = "code ".to_string();
    push_i64_decimal(&mut s, 12);
    assert_eq!(s, "code 12");
}

#[test]
fn split_keeps_empty_pieces() {
    assert_eq!(split_at_char("a b", ' '), vec!["a", "b"]);
    assert_eq!(split_at_char("", ' '), vec![""]);
    assert_eq!(split_at_char(" ", ' '), vec!["", ""]);
    assert_eq!(split_at_char("a  b ", ' '), vec!["a", "", "b", ""]);
    assert_eq!(split_at_char("nospace", ' '), vec!["nospace"]);
}

#[test]
fn split_then_join_gives_the_text_back() {
    for s in ["", "a", " a  b ", "x y z", "été à"] {
        assert_eq!(split_at_char(s, ' ').join(" "), s);
    }
}

#[test]
fn split_agrees_with_std() {
    for s in ["", " ", "a b", " a  b c ", "ü ö"] {
        let ours = split_at_char(s, ' ');
        let std: Vec<String> = s.split(' ').map(|p| p.to_string()).collect();
        assert_eq!(ours, std);
    }
}
