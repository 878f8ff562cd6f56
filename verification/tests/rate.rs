use cql_stress::settings::option::rate::{prepare_parser, RateOption, ThreadsInfo};
use cql_stress::settings::param::error::ValidationError;
use cql_stress::settings::param::parser::ParamsParser;
use cql_stress::settings::param::value::{Value, ValueKind};

#[test]
fn rate_good_params_group_one_test() {
    let args = vec!["threads=100", "throttle=15/s"];
    let (mut parser, handles) = prepare_parser();

    assert!(parser.parse(args).is_ok());

    let params = RateOption::from_handles(&mut parser, handles).unwrap();
    assert_eq!(
        ThreadsInfo::Fixed {
            threads: 100,
            throttle: Some(15),
            fixed_rate: None
        },
        params.threads_info
    );
}

#[test]
fn rate_good_params_group_two_test() {
    let args = vec!["threads<=200", "auto"];
    let (mut parser, handles) = prepare_parser();

    assert!(parser.parse(args).is_ok());

    let params = RateOption::from_handles(&mut parser, handles).unwrap();
    assert_eq!(
        ThreadsInfo::Auto {
            min_threads: 4,
            max_threads: 200,
            auto: true
        },
        params.threads_info
    )
}

#[test]
fn rate_bad_params_test() {
    let args = vec!["threads<=200", "auto", "fixed=10/s"];
    let (mut parser, _) = prepare_parser();

    assert!(parser.parse(args).is_err());
}

#[test]
fn rate_bad_params_name_what_is_wrong() {
    let args = vec!["threads<=200", "auto", "fixed=10/s"];
    let (mut parser, _) = prepare_parser();
    match parser.parse(args) {
        Err(ValidationError::UnsatisfiedGroup { missing, unexpected }) => {
            assert_eq!(missing, vec![vec!["threads=".to_string()], vec![]]);
            assert_eq!(
                unexpected,
                vec![
                    vec!["threads<=".to_string(), "auto".to_string()],
                    vec!["fixed=".to_string()]
                ]
            );
        }
        other => panic!("unexpected outcome: {:?}", other),
    }
}

#[test]
fn rate_first_fitting_group_wins() {
    // Only `threads=` given: the first group fits, and so does no other.
    let option = RateOption::parse(vec!["threads=8"]).unwrap();
    assert_eq!(
        option.threads_info,
        ThreadsInfo::Fixed { threads: 8, throttle: None, fixed_rate: None }
    );
    let (mut parser, _) = prepare_parser();
    assert!(parser.parse(vec!["threads=8"]).is_ok());
    assert_eq!(parser.chosen(), Some(0));
}

#[test]
fn rate_without_arguments_is_auto_with_defaults() {
    let option = RateOption::parse(vec![]).unwrap();
    assert_eq!(
        option.threads_info,
        ThreadsInfo::Auto { min_threads: 4, max_threads: 1000, auto: false }
    );
}

#[test]
fn rate_duplicate_is_refused() {
    match RateOption::parse(vec!["threads=1", "threads=1"]) {
        Err(ValidationError::DuplicateSupply { name }) => assert_eq!(name, "threads="),
        other => panic!("unexpected outcome: {:?}", other.map(|o| o.threads_info)),
    }
}

#[test]
fn rate_malformed_value_is_refused() {
    match RateOption::parse(vec!["threads=100", "throttle=15"]) {
        Err(ValidationError::MalformedValue { text, pattern }) => {
            assert_eq!(text, "15");
            assert_eq!(pattern, "^[0-9]+/s$");
        }
        other => panic!("unexpected outcome: {:?}", other.map(|o| o.threads_info)),
    }
}

#[test]
fn rate_unknown_argument_is_refused() {
    match RateOption::parse(vec!["threads=100", "speed=3"]) {
        Err(ValidationError::UnrecognizedArgument { text, owner }) => {
            assert_eq!(text, "speed=3");
            assert_eq!(owner, "-rate");
        }
        other => panic!("unexpected outcome: {:?}", other.map(|o| o.threads_info)),
    }
}

#[test]
fn first_of_several_fitting_groups_is_chosen() {
    // Both groups fit every input that names `level=` alone; the first is
    // chosen, so `shared` and `first` are satisfied and `second` is not.
    let mut parser = ParamsParser::new("-demo");
    let shared = parser.simple_param("level=", ValueKind::Unsigned, Some("1"), "level", false);
    let first = parser.simple_param("first=", ValueKind::Text, Some("a"), "first", false);
    let second = parser.simple_param("second=", ValueKind::Text, Some("b"), "second", false);
    parser.group(vec![shared.cell(), first.cell()]);
    parser.group(vec![shared.cell(), second.cell()]);
    assert!(parser.parse(vec!["level=7"]).is_ok());
    assert_eq!(parser.chosen(), Some(0));
    assert!(shared.satisfied(&parser));
    assert!(first.satisfied(&parser));
    assert!(!second.satisfied(&parser));
    assert!(matches!(shared.get(&mut parser), Some(Value::Unsigned(7))));
    assert!(matches!(first.get_if_satisfied(&mut parser), Some(Value::Text(t)) if t == "a"));
    assert!(second.get_if_satisfied(&mut parser).is_none());
}

#[test]
fn later_group_is_chosen_where_the_first_does_not_fit() {
    let mut parser = ParamsParser::new("-demo");
    let shared = parser.simple_param("level=", ValueKind::Unsigned, Some("1"), "level", false);
    let first = parser.simple_param("first=", ValueKind::Text, Some("a"), "first", false);
    let second = parser.simple_param("second=", ValueKind::Text, Some("b"), "second", false);
    parser.group(vec![shared.cell(), first.cell()]);
    parser.group(vec![shared.cell(), second.cell()]);
    assert!(parser.parse(vec!["second=x"]).is_ok());
    assert_eq!(parser.chosen(), Some(1));
    assert!(!first.satisfied(&parser));
    assert!(matches!(second.get(&mut parser), Some(Value::Text(t)) if t == "x"));
    assert!(matches!(shared.get(&mut parser), Some(Value::Unsigned(1))));
}

#[test]
fn rate_description() {
    assert_eq!(
        RateOption::description(),
        "Thread count, rate limit or automatic mode (default is auto)"
    );
}
