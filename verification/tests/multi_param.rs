use cql_stress::settings::param::arena::{Param, ParamArena};
use cql_stress::settings::param::error::ValidationError;
use cql_stress::settings::param::multi_param::{
    AcceptsArbitraryParams, ArbitraryParamsAcceptance, MultiParam, MultiParamHandle,
    RejectsArbitraryParams,
};
use cql_stress::settings::param::parser::{ParamsParser, SimpleParamHandle};
use cql_stress::settings::param::simple_param::{ParamMatchResult, SimpleParam};
use cql_stress::settings::param::value::{Value, ValueKind};

#[test]
fn multi_param_arbitrary_test() {
    let mut arena = ParamArena::new();
    let multi_param = MultiParam::new("replication", Vec::new(), "description", false);
    let cell = arena.add(Param::Open(multi_param));

    assert!(arena
        .parse(cell, "replication(foo=bar,key=value,gear=five)")
        .is_ok());
    arena.set_satisfied(cell);

    let multi_param = match arena.take(cell) {
        Param::Open(multi_param) => multi_param,
        _ => panic!("the parameter has changed its kind"),
    };
    let parsed = multi_param.get_arbitrary().unwrap();
    assert_eq!(&String::from("bar"), parsed.get("foo").unwrap());
    assert_eq!(&String::from("value"), parsed.get("key").unwrap());
    assert_eq!(&String::from("five"), parsed.get("gear").unwrap());
}

#[test]
fn multi_param_two_pairs() {
    let mut parser = ParamsParser::new("-schema");
    let handle = parser.multi_param_arbitrary("replication", Vec::new(), "description", false);
    parser.group(vec![handle.cell()]);
    assert!(parser.parse(vec!["replication(foo=bar,key=value)"]).is_ok());
    assert!(handle.supplied_by_user(&parser));
    let parsed = handle.get_arbitrary(&mut parser).unwrap();
    assert_eq!(parsed.len(), 2);
    assert_eq!(parsed.get("foo").unwrap(), "bar");
    assert_eq!(parsed.get("key").unwrap(), "value");
}

#[test]
fn multi_param_key_collision() {
    let mut parser = ParamsParser::new("-schema");
    let handle = parser.multi_param_arbitrary("replication", Vec::new(), "description", false);
    parser.group(vec![handle.cell()]);
    match parser.parse(vec!["replication(foo=bar,foo=baz)"]) {
        Err(ValidationError::ArbitraryKeyCollision { key }) => assert_eq!(key, "foo"),
        other => panic!("unexpected outcome: {:?}", other),
    }
}

#[test]
fn multi_param_unsatisfied_gives_no_pairs() {
    let multi_param: MultiParam<AcceptsArbitraryParams> =
        MultiParam::new("replication", Vec::new(), "description", false);
    assert!(multi_param.get_arbitrary().is_none());
}

#[test]
fn multi_param_try_match() {
    let multi_param: MultiParam<AcceptsArbitraryParams> =
        MultiParam::new("replication", Vec::new(), "description", false);
    assert!(matches!(multi_param.try_match("factor=3"), ParamMatchResult::NoMatch));
    assert!(matches!(multi_param.try_match("replication(a=b)"), ParamMatchResult::Match));
    assert!(matches!(multi_param.try_match("replication()"), ParamMatchResult::Match));
    for bad in ["replication", "replication(", "replication)", "replication=3", "replication(a=b"] {
        match multi_param.try_match(bad) {
            ParamMatchResult::Error(ValidationError::MalformedValue { text, pattern }) => {
                assert_eq!(text, &bad["replication".len()..]);
                assert_eq!(pattern, "^\\(.*\\)$");
            }
            other => panic!("unexpected outcome for {}: {:?}", bad, other),
        }
    }
}

#[test]
fn multi_param_supplied_twice() {
    let mut parser = ParamsParser::new("-schema");
    let handle = parser.multi_param_arbitrary("replication", Vec::new(), "description", false);
    parser.group(vec![handle.cell()]);
    match parser.parse(vec!["replication(a=b)", "replication(a=b)"]) {
        Err(ValidationError::DuplicateSupply { name }) => assert_eq!(name, "replication"),
        other => panic!("unexpected outcome: {:?}", other),
    }
}

#[test]
fn multi_param_rejecting_refuses_pairs() {
    let mut parser = ParamsParser::new("-schema");
    let handle = parser.multi_param("compaction", Vec::new(), "description", false);
    parser.group(vec![handle.cell()]);
    match parser.parse(vec!["compaction(foo=bar)"]) {
        Err(ValidationError::UnrecognizedArgument { text, owner }) => {
            assert_eq!(text, "foo=bar");
            assert_eq!(owner, "compaction");
        }
        other => panic!("unexpected outcome: {:?}", other),
    }
}

#[test]
fn multi_param_malformed_pairs() {
    for bad in ["replication(foo)", "replication(foo=)", "replication(=bar)", "replication(a=b=c)",
        "replication()", "replication(a=b,)", "replication(,a=b)"]
    {
        let mut parser = ParamsParser::new("-schema");
        let handle = parser.multi_param_arbitrary("replication", Vec::new(), "description", false);
        parser.group(vec![handle.cell()]);
        match parser.parse(vec![bad]) {
            Err(ValidationError::UnrecognizedArgument { owner, .. }) => {
                assert_eq!(owner, "replication")
            }
            other => panic!("unexpected outcome for {}: {:?}", bad, other),
        }
    }
}

fn schema_parser() -> (ParamsParser, SimpleParamHandle, SimpleParamHandle, usize) {
    let mut parser = ParamsParser::new("-schema");
    let strategy = parser.simple_subparam(
        "strategy=",
        ValueKind::Text,
        Some("org.apache.cassandra.locator.SimpleStrategy"),
        "The replication strategy to use",
        false,
    );
    let factor =
        parser.simple_subparam("factor=", ValueKind::Unsigned, Some("1"), "The number of replicas", false);
    let replication = parser.multi_param_arbitrary(
        "replication",
        vec![strategy.cell(), factor.cell()],
        "Define the replication strategy and any parameters",
        false,
    );
    parser.group(vec![replication.cell()]);
    (parser, strategy, factor, replication.cell())
}

#[test]
fn multi_param_predefined_and_arbitrary() {
    let (mut parser, strategy, factor, replication) = schema_parser();
    assert!(parser.parse(vec!["replication(foo=bar,factor=3,key=value)"]).is_ok());
    assert_eq!(parser.chosen(), Some(0));
    match factor.get(&mut parser) {
        Some(Value::Unsigned(n)) => assert_eq!(n, 3),
        other => panic!("unexpected value: {:?}", other),
    }
    match strategy.get(&mut parser) {
        Some(Value::Text(t)) => assert_eq!(t, "org.apache.cassandra.locator.SimpleStrategy"),
        other => panic!("unexpected value: {:?}", other),
    }
    let pairs = MultiParamHandle::<AcceptsArbitraryParams>::new(replication)
        .get_arbitrary(&mut parser)
        .unwrap();
    assert_eq!(pairs.len(), 2);
    assert_eq!(pairs.get("foo").unwrap(), "bar");
    assert_eq!(pairs.get("key").unwrap(), "value");
    assert!(pairs.get("factor").is_none());
}

#[test]
fn multi_param_structural_match_is_terminal() {
    // `factor=x` is for the sub-parameter `factor=`; that its value is not a
    // number is a fault, and the fragment is not offered as a free pair.
    let (mut parser, _, _, _) = schema_parser();
    match parser.parse(vec!["replication(factor=x)"]) {
        Err(ValidationError::MalformedValue { text, pattern }) => {
            assert_eq!(text, "x");
            assert_eq!(pattern, "^[0-9]+$");
        }
        other => panic!("unexpected outcome: {:?}", other),
    }
    let (mut parser, _, _, _) = schema_parser();
    match parser.parse(vec!["replication(factor=1,factor=2)"]) {
        Err(ValidationError::DuplicateSupply { name }) => assert_eq!(name, "factor="),
        other => panic!("unexpected outcome: {:?}", other),
    }
}

#[test]
fn multi_param_lets_go_of_its_sub_parameters() {
    let (mut parser, _, _, replication) = schema_parser();
    assert!(parser.parse(vec![]).is_ok());
    match parser.get_param(replication) {
        Param::Open(multi_param) => {
            assert!(multi_param.satisfied());
            assert!(multi_param.subparams().is_empty());
        }
        _ => panic!("the parameter has changed its kind"),
    }
}

#[test]
fn acceptance_kinds() {
    let mut accepting = AcceptsArbitraryParams::empty();
    assert!(accepting.accepts_arbitrary());
    assert!(accepting.try_parse_arbitrary("replication", "a=b").is_ok());
    assert!(matches!(
        accepting.try_parse_arbitrary("replication", "a=c"),
        Err(ValidationError::ArbitraryKeyCollision { .. })
    ));
    let map = accepting.into_map();
    assert_eq!(map.len(), 1);
    assert_eq!(map.get("a").unwrap(), "b");
    let mut rejecting = RejectsArbitraryParams::default();
    assert!(!rejecting.accepts_arbitrary());
    assert!(matches!(
        rejecting.try_parse_arbitrary("compaction", "a=b"),
        Err(ValidationError::UnrecognizedArgument { .. })
    ));
}

#[test]
fn simple_param_lifecycle() {
    let mut param = SimpleParam::new("threads>=", ValueKind::Unsigned, Some("4"), "at least", false);
    assert!(matches!(param.try_match("threads=4"), ParamMatchResult::NoMatch));
    assert!(matches!(param.try_match("threads>=8"), ParamMatchResult::Match));
    assert!(matches!(
        param.try_match("threads>=many"),
        ParamMatchResult::Error(ValidationError::MalformedValue { .. })
    ));
    assert!(!param.supplied_by_user());
    assert!(param.parse("threads>=8").is_ok());
    assert!(param.supplied_by_user());
    // Supplied once: the same text again is a duplicate, and so is any other.
    assert!(matches!(
        param.try_match("threads>=8"),
        ParamMatchResult::Error(ValidationError::DuplicateSupply { .. })
    ));
    assert!(matches!(
        param.try_match("threads>=many"),
        ParamMatchResult::Error(ValidationError::DuplicateSupply { .. })
    ));
    param.set_satisfied();
    assert!(param.satisfied());
    assert!(matches!(param.get(), Some(Value::Unsigned(8))));
}

#[test]
fn simple_param_default_and_none() {
    let mut with_default =
        SimpleParam::new("threads>=", ValueKind::Unsigned, Some("4"), "at least", false);
    with_default.set_satisfied();
    assert!(!with_default.supplied_by_user());
    assert!(matches!(with_default.get(), Some(Value::Unsigned(4))));

    let mut without = SimpleParam::new("throttle=", ValueKind::Rate, None, "limit", false);
    without.set_satisfied();
    assert!(without.get().is_none());
}
