use cql_stress::settings::option::node::NodeOption;
use cql_stress::settings::option::rate::{prepare_parser, RateOption};
use cql_stress::settings::param::parser::ParamsParser;
use cql_stress::settings::param::simple_param::SimpleParam;
use cql_stress::settings::param::value::ValueKind;

fn line(heading: &str, desc: &str) -> String {
    format!("  {:<40} {}\n", heading, desc)
}

#[test]
fn rate_help_text() {
    let mut expected = String::new();
    expected += "Usage: -rate threads=? [throttle=?] [fixed=?]\n";
    expected += " OR \n";
    expected += "Usage: -rate [threads>=?] [threads<=?] [auto]\n";
    expected += "\n";
    expected += &line("threads=?", "run this many clients concurrently");
    expected += &line(
        "throttle=?",
        "throttle operations per second across all clients to a maximum rate (or less) with no implied schedule",
    );
    expected += &line(
        "fixed=?",
        "expect fixed rate of operations per second across all clients with implied schedule",
    );
    expected += &line("threads>=? (default=4)", "run at least this many clients concurrently");
    expected += &line("threads<=? (default=1000)", "run at most this many clients concurrently");
    expected += &line("auto", "stop increasing threads once throughput saturates");
    assert_eq!(RateOption::print_help(), expected);
}

#[test]
fn node_help_text() {
    let mut expected = String::new();
    expected += "Usage: -node [datacenter=?] [whitelist] [?]\n";
    expected += " OR \n";
    expected += "Usage: -node [datacenter=?] [whitelist] [file=?]\n";
    expected += "\n";
    expected += &line(
        "datacenter=?",
        "Preferred datacenter for the default load balancing policy",
    );
    expected += &line("whitelist", "Limit communications to the provided nodes");
    expected += &line("file=?", "Node file (one per line)");
    expected += &line("? (default=localhost)", "comma delimited list of nodes");
    assert_eq!(NodeOption::print_help(), expected);
}

#[test]
fn help_does_not_change_the_parser() {
    let (mut parser, _) = prepare_parser();
    let before = parser.print_help();
    assert!(parser.parse(vec!["threads=3"]).is_ok());
    assert_eq!(parser.print_help(), before);
    assert_eq!(parser.chosen(), Some(0));
}

#[test]
fn schema_help_text() {
    let mut parser = ParamsParser::new("-schema");
    let strategy = parser.simple_subparam(
        "strategy=",
        ValueKind::Text,
        Some("org.apache.cassandra.locator.SimpleStrategy"),
        "The replication strategy to use",
        false,
    );
    let factor = parser.simple_subparam(
        "factor=",
        ValueKind::Unsigned,
        Some("1"),
        "The number of replicas",
        false,
    );
    let replication = parser.multi_param_arbitrary(
        "replication",
        vec![strategy.cell(), factor.cell()],
        "Define the replication strategy and any parameters",
        false,
    );
    let keyspace = parser.simple_param(
        "keyspace=",
        ValueKind::Text,
        Some("keyspace1"),
        "The keyspace name to use",
        false,
    );
    let compaction = parser.multi_param("compaction", Vec::new(), "Define the compaction", false);
    parser.group(vec![replication.cell(), keyspace.cell(), compaction.cell()]);

    let mut expected = String::new();
    expected += "Usage: -schema [replication(?)] [keyspace=?] [compaction(?)]\n";
    expected += "\n";
    expected += "  replication([strategy=?][factor=?][<option 1..N>=?]): Define the replication strategy and any parameters\n";
    expected += "      strategy=? (default=org.apache.cassandra.locator.SimpleStrategy) The replication strategy to use\n";
    expected += "      factor=? (default=1)                     The number of replicas\n";
    expected += &line("keyspace=? (default=keyspace1)", "The keyspace name to use");
    expected += "  compaction(): Define the compaction\n";
    assert_eq!(parser.print_help(), expected);
}

#[test]
fn usage_of_a_required_parameter_has_no_brackets() {
    let required = SimpleParam::new("threads=", ValueKind::Unsigned, None, "threads", true);
    assert_eq!(required.print_usage(), "threads=?");
    let optional = SimpleParam::new("auto", ValueKind::Flag, None, "auto", false);
    assert_eq!(optional.print_usage(), "[auto]");
    assert_eq!(optional.print_desc(), format!("{:<40} {}\n", "auto", "auto"));
}
