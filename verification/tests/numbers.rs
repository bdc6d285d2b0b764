use pie_sexpr::number::{is_float, parse_integer};
use pie_sexpr::sexpr_tokenizer::characters;

const TEXTS: [&str; 78] = [
    "", "0", "7", "42", "007", "+0", "-0", "+", "-", "+-1", "--1", "1-", "1+1", " 1", "1 ", "1_000",
    "9223372036854775807", "9223372036854775808", "-9223372036854775808", "-9223372036854775809",
    "+9223372036854775807", "99999999999999999999999999999999999999999999",
    "-99999999999999999999999999999999999999999999", "00000000000000000000000000000000000000001",
    "1.", ".1", ".", "1.5", "01.50", "+1.5", "-1.5", "+.5", "-.5", "+.", "1..2", "1.2.3", "..1",
    "1e5", "1E5", "1e+5", "1e-5", "1.e5", ".5e5", "1.5e10", "1e", "1e+", "1e-", "e5", ".e5", "1ee5",
    "1e5.", "1e5e5", "1e5 ", "1e 5", "1e++5", "-1e-5", "+1E+05", "1x", "x1", "0x10", "1f", "1d",
    "inf", "INF", "Inf", "+inf", "-inf", "infinity", "Infinity", "-INFINITY", "infinit", "infinityy",
    "nan", "NaN", "-nan", "+NAN", "na", "nane",
];

#[test]
fn parse_integer_agrees_with_std() {
    for text in TEXTS {
        assert_eq!(
            parse_integer(&characters(text)),
            text.parse::<i64>().ok(),
            "{:?}",
            text
        );
    }
}

#[test]
fn is_float_agrees_with_std() {
    for text in TEXTS {
        assert_eq!(
            is_float(&characters(text)),
            text.parse::<f64>().is_ok(),
            "{:?}",
            text
        );
    }
}

#[test]
fn parse_integer_values() {
    assert_eq!(parse_integer(&characters("0")), Some(0));
    assert_eq!(parse_integer(&characters("1234567890")), Some(1234567890));
    assert_eq!(parse_integer(&characters("-45")), Some(-45));
    assert_eq!(parse_integer(&characters("+45")), Some(45));
    assert_eq!(parse_integer(&characters("9223372036854775807")), Some(i64::MAX));
    assert_eq!(parse_integer(&characters("-9223372036854775808")), Some(i64::MIN));
    assert_eq!(parse_integer(&characters("9223372036854775808")), None);
    assert_eq!(parse_integer(&characters("-9223372036854775809")), None);
    assert_eq!(parse_integer(&characters("12a")), None);
    assert_eq!(parse_integer(&characters("")), None);
    assert_eq!(parse_integer(&characters("-")), None);
    assert_eq!(parse_integer(&characters("\u{663}")), None);
}

#[test]
fn is_float_takes_what_is_no_integer_too() {
    assert!(is_float(&characters("12")));
    assert!(is_float(&characters("1.25")));
    assert!(is_float(&characters("iNfInItY")));
    assert!(!is_float(&characters("1.2.3")));
    assert!(!is_float(&characters("\u{130}nf")));
    assert!(!is_float(&characters("\u{49}\u{307}nf")));
}

fn short_texts(alphabet: &[char], longest: usize) -> Vec<String> {
    let mut texts = vec![String::new()];
    let mut last = vec![String::new()];
    for _ in 0..longest {
        let mut next = vec![];
        for text in &last {
            for c in alphabet {
                let mut longer = text.clone();
                longer.push(*c);
                next.push(longer);
            }
        }
        texts.extend(next.iter().cloned());
        last = next;
    }
    texts
}

#[test]
fn is_float_agrees_with_std_on_short_texts() {
    let alphabet = ['1', '0', '.', 'e', 'E', '+', '-', 'n', 'a', 'i', 'f'];
    for text in short_texts(&alphabet, 5) {
        assert_eq!(
            is_float(&characters(&text)),
            text.parse::<f64>().is_ok(),
            "{:?}",
            text
        );
    }
}

#[test]
fn parse_integer_agrees_with_std_on_short_texts() {
    let alphabet = ['9', '0', '2', '+', '-', '.', ' ', '_'];
    for text in short_texts(&alphabet, 5) {
        assert_eq!(
            parse_integer(&characters(&text)),
            text.parse::<i64>().ok(),
            "{:?}",
            text
        );
    }
}

#[test]
fn parse_integer_agrees_with_std_near_the_limits() {
    let digits = ['0', '1', '7', '8', '9'];
    for sign in ["", "+", "-"] {
        for tail in short_texts(&digits, 3) {
            for head in ["9223372036854775", "922337203685477580", "92233720368547758"] {
                let text = format!("{}{}{}", sign, head, tail);
                assert_eq!(
                    parse_integer(&characters(&text)),
                    text.parse::<i64>().ok(),
                    "{:?}",
                    text
                );
            }
        }
    }
}
