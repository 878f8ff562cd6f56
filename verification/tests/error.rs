use cql_stress::settings::option::rate::RateOption;
use cql_stress::settings::param::error::ValidationError;
use cql_stress::settings::param::types::{Count, Parsable};

#[test]
fn malformed_value_message() {
    let e = Count::parse("5x").unwrap_err();
    assert_eq!(e.message(), "Invalid value 5x; must match pattern ^[0-9]+[bmk]?$");
}

#[test]
fn duplicate_supply_message() {
    let e = ValidationError::DuplicateSupply { name: "threads=".to_string() };
    assert_eq!(e.message(), "threads= suboption has been specified more than once");
}

#[test]
fn unrecognized_argument_message() {
    let e = ValidationError::UnrecognizedArgument {
        text: "speed=3".to_string(),
        owner: "-rate".to_string(),
    };
    assert_eq!(e.message(), "Invalid -rate specification: speed=3");
}

#[test]
fn key_collision_message() {
    let e = ValidationError::ArbitraryKeyCollision { key: "foo".to_string() };
    assert_eq!(e.message(), "foo suboption has been specified more than once");
}

#[test]
fn unsatisfied_group_message() {
    let e = match RateOption::parse(vec!["threads<=200", "auto", "fixed=10/s"]) {
        Err(e) => e,
        Ok(_) => panic!("accepted"),
    };
    assert_eq!(
        e.message(),
        "Invalid combination of parameters; for each alternative:\
         \n  missing: threads=; unexpected: threads<=, auto\
         \n  missing: ; unexpected: fixed="
    );
    let none = ValidationError::UnsatisfiedGroup { missing: vec![], unexpected: vec![] };
    assert_eq!(none.message(), "Invalid combination of parameters; for each alternative:");
}
