use cql_stress::settings::param::error::ValidationError;
use cql_stress::settings::param::types::{CommaDelimitedList, Count, Parsable, Rate, Ratio};
use std::time::Duration;

fn is_malformed<T>(r: Result<T, ValidationError>, of: &str, grammar: &str) -> bool {
    match r {
        Err(ValidationError::MalformedValue { text, pattern }) => text == of && pattern == grammar,
        _ => false,
    }
}

#[test]
fn unsigned_takes_digits_only() {
    assert_eq!(u64::parse("0").unwrap(), 0);
    assert_eq!(u64::parse("42").unwrap(), 42);
    assert_eq!(u64::parse("007").unwrap(), 7);
    assert_eq!(u64::parse("18446744073709551615").unwrap(), u64::MAX);
    assert!(is_malformed(u64::parse(""), "", "^[0-9]+$"));
    assert!(is_malformed(u64::parse("-1"), "-1", "^[0-9]+$"));
    assert!(is_malformed(u64::parse("1 "), "1 ", "^[0-9]+$"));
    assert!(is_malformed(u64::parse("12a"), "12a", "^[0-9]+$"));
    assert!(is_malformed(u64::parse("١٢"), "١٢", "^[0-9]+$"));
}

#[test]
fn unsigned_that_does_not_fit_is_refused() {
    assert!(u64::parse("18446744073709551616").is_err());
    assert!(u64::parse("99999999999999999999999999").is_err());
}

#[test]
fn flag_takes_no_value() {
    assert_eq!(bool::parse("").unwrap(), true);
    assert!(is_malformed(bool::parse("true"), "true", "^$"));
    assert!(bool::is_bool());
    assert!(!u64::is_bool());
    assert!(!String::is_bool());
    assert!(!Count::is_bool());
}

#[test]
fn text_is_taken_as_it_is() {
    assert_eq!(String::parse("").unwrap(), "");
    assert_eq!(String::parse("dc1").unwrap(), "dc1");
    assert_eq!(String::parse("a=b,c d\n").unwrap(), "a=b,c d\n");
}

#[test]
fn duration_values() {
    assert_eq!(Duration::parse("90s").unwrap(), Duration::from_secs(90));
    assert_eq!(Duration::parse("2m").unwrap(), Duration::from_secs(120));
    assert_eq!(Duration::parse("1h").unwrap(), Duration::from_secs(3600));
    assert_eq!(Duration::parse("0s").unwrap(), Duration::from_secs(0));
    assert!(is_malformed(Duration::parse("90"), "90", "^[0-9]+[smh]$"));
    assert!(Duration::parse("s").is_err());
    assert!(Duration::parse("").is_err());
    assert!(Duration::parse("1d").is_err());
    assert!(Duration::parse("1.5h").is_err());
    assert!(Duration::parse("10ss").is_err());
}

#[test]
fn duration_that_does_not_fit_is_refused() {
    assert_eq!(
        Duration::parse("18446744073709551615s").unwrap(),
        Duration::from_secs(u64::MAX)
    );
    assert!(Duration::parse("18446744073709551615m").is_err());
    assert!(Duration::parse("5124095576030432h").is_err());
    assert_eq!(
        Duration::parse("5124095576030431h").unwrap(),
        Duration::from_secs(5124095576030431 * 3600)
    );
}

#[test]
fn count_values() {
    assert_eq!(Count::parse("5k").unwrap(), 5000);
    assert_eq!(Count::parse("2m").unwrap(), 2_000_000);
    assert_eq!(Count::parse("3b").unwrap(), 3_000_000_000);
    assert_eq!(Count::parse("42").unwrap(), 42);
    assert_eq!(Count::parse("0k").unwrap(), 0);
    assert!(is_malformed(Count::parse(""), "", "^[0-9]+[bmk]?$"));
    assert!(Count::parse("k").is_err());
    assert!(Count::parse("5K").is_err());
    assert!(Count::parse("5kk").is_err());
    assert!(Count::parse("5g").is_err());
    assert!(Count::parse("k5").is_err());
}

#[test]
fn count_that_does_not_fit_is_refused() {
    assert_eq!(Count::parse("18446744073b").unwrap(), 18446744073_000_000_000);
    assert!(Count::parse("18446744074b").is_err());
    assert!(Count::parse("18446744073709551616").is_err());
}

#[test]
fn rate_values() {
    assert_eq!(Rate::parse("15/s").unwrap(), 15);
    assert_eq!(Rate::parse("0/s").unwrap(), 0);
    assert!(is_malformed(Rate::parse("15"), "15", "^[0-9]+/s$"));
    assert!(Rate::parse("/s").is_err());
    assert!(Rate::parse("15/m").is_err());
    assert!(Rate::parse("15/s ").is_err());
    assert!(Rate::parse("").is_err());
}

#[test]
fn ratio_text_is_checked() {
    assert_eq!(Ratio::parse("0.5").unwrap(), "0.5");
    assert_eq!(Ratio::parse("0.125").unwrap(), "0.125");
    assert!(is_malformed(Ratio::parse("1.5"), "1.5", "^0\\.[0-9]+$"));
    assert!(Ratio::parse("0.").is_err());
    assert!(Ratio::parse("0").is_err());
    assert!(Ratio::parse(".5").is_err());
    assert!(Ratio::parse("0,5").is_err());
    assert!(Ratio::parse("0.5x").is_err());
}

#[test]
fn comma_list_values() {
    assert_eq!(CommaDelimitedList::parse("a,b,c").unwrap(), vec!["a", "b", "c"]);
    assert_eq!(CommaDelimitedList::parse("localhost").unwrap(), vec!["localhost"]);
    assert_eq!(
        CommaDelimitedList::parse("127.0.0.1,localhost,192.168.0.1").unwrap(),
        vec!["127.0.0.1", "localhost", "192.168.0.1"]
    );
    assert!(is_malformed(CommaDelimitedList::parse("a,,b"), "a,,b", "^[^=,]+(,[^=,]+)*$"));
    assert!(CommaDelimitedList::parse("a,b,").is_err());
    assert!(CommaDelimitedList::parse(",a").is_err());
    assert!(CommaDelimitedList::parse("").is_err());
    assert!(CommaDelimitedList::parse("a=b").is_err());
    assert!(CommaDelimitedList::parse("a,b=c").is_err());
}

fn sample_texts() -> Vec<String> {
    let alphabet = ['0', '1', '9', 'k', 'm', 'b', 's', 'h', '/', '.', ',', '=', 'a', ' '];
    let mut texts = vec![String::new()];
    let mut start = 0;
    for _ in 0..4 {
        let end = texts.len();
        for i in start..end {
            for c in alphabet {
                let mut t = texts[i].clone();
                t.push(c);
                texts.push(t);
            }
        }
        start = end;
    }
    texts
}

#[test]
fn grammars_agree_with_their_patterns() {
    let unsigned = regex::Regex::new(r"^[0-9]+$").unwrap();
    let ratio = regex::Regex::new(r"^0\.[0-9]+$").unwrap();
    let duration = regex::Regex::new(r"^[0-9]+[smh]$").unwrap();
    let count = regex::Regex::new(r"^[0-9]+[bmk]?$").unwrap();
    let rate = regex::Regex::new(r"^[0-9]+/s$").unwrap();
    let list = regex::Regex::new(r"^[^=,]+(,[^=,]+)*$").unwrap();
    for text in sample_texts() {
        let t = text.as_str();
        assert_eq!(u64::parse(t).is_ok(), unsigned.is_match(t), "{:?}", t);
        assert_eq!(Ratio::parse(t).is_ok(), ratio.is_match(t), "{:?}", t);
        assert_eq!(Duration::parse(t).is_ok(), duration.is_match(t), "{:?}", t);
        assert_eq!(Count::parse(t).is_ok(), count.is_match(t), "{:?}", t);
        assert_eq!(Rate::parse(t).is_ok(), rate.is_match(t), "{:?}", t);
        assert_eq!(CommaDelimitedList::parse(t).is_ok(), list.is_match(t), "{:?}", t);
        assert_eq!(bool::parse(t).is_ok(), t.is_empty(), "{:?}", t);
        assert!(String::parse(t).is_ok());
    }
}
