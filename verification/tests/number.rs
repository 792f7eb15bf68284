use rsync_net_exporter::number::{parse_unsigned, parse_unsigned_or_zero};

fn parse(s: &str) -> Option<u64> {
    let v: Vec<char> = s.chars().collect();
    parse_unsigned(&v, 0, v.len())
}

#[test]
fn digits_are_read_in_base_ten() {
    assert_eq!(parse("0"), Some(0));
    assert_eq!(parse("7"), Some(7));
    assert_eq!(parse("22054"), Some(22054));
    assert_eq!(parse("000123"), Some(123));
    assert_eq!(parse("+42"), Some(42));
    assert_eq!(parse("+0"), Some(0));
}

#[test]
fn largest_integer_is_read_and_the_next_is_not() {
    assert_eq!(parse("18446744073709551615"), Some(u64::MAX));
    assert_eq!(parse("+18446744073709551615"), Some(u64::MAX));
    assert_eq!(parse("0000000000000000000018446744073709551615"), Some(u64::MAX));
    assert_eq!(parse("18446744073709551616"), None);
    assert_eq!(parse("18446744073709551620"), None);
    assert_eq!(parse("99999999999999999999"), None);
    assert_eq!(parse("184467440737095516150"), None);
}

#[test]
fn other_text_writes_no_integer() {
    for s in [
        "", "+", "-", "-1", "-0", "++1", "+-1", "1+", "1.0", "1e3", " 1", "1 ", "1_000", "0x10",
        "١٢٣", "one", "12a", "a12", "1\n",
    ] {
        assert_eq!(parse(s), None, "{:?}", s);
    }
}

#[test]
fn reading_agrees_with_the_standard_library() {
    let alphabet = ['0', '1', '9', '+', '-', '.', ' ', 'a'];
    let mut texts: Vec<String> = vec![String::new()];
    let mut level: Vec<String> = vec![String::new()];
    for _ in 0..4 {
        let mut next = Vec::new();
        for t in &level {
            for c in alphabet {
                let mut s = t.clone();
                s.push(c);
                next.push(s);
            }
        }
        texts.extend(next.iter().cloned());
        level = next;
    }
    for n in [u64::MAX - 1, u64::MAX, u64::MAX / 10, u64::MAX / 10 + 1, 1u64 << 63, 65535, 65536] {
        texts.push(n.to_string());
        texts.push(format!("{}0", n));
        texts.push(format!("{}9", n));
    }
    for t in &texts {
        assert_eq!(parse(t), t.parse::<u64>().ok(), "{:?}", t);
    }
}

#[test]
fn a_range_of_the_text_is_read() {
    let v: Vec<char> = "ab123cd".chars().collect();
    assert_eq!(parse_unsigned(&v, 2, 5), Some(123));
    assert_eq!(parse_unsigned(&v, 2, 4), Some(12));
    assert_eq!(parse_unsigned(&v, 1, 5), None);
    assert_eq!(parse_unsigned(&v, 3, 3), None);
    assert_eq!(parse_unsigned_or_zero(&v, 2, 5), 123);
    assert_eq!(parse_unsigned_or_zero(&v, 1, 5), 0);
    assert_eq!(parse_unsigned_or_zero(&v, 3, 3), 0);
}
