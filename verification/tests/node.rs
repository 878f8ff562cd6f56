use cql_stress::settings::option::node::{prepare_parser, NodeOption, NodeResolution};
use cql_stress::settings::param::error::ValidationError;

fn ready(resolution: NodeResolution) -> NodeOption {
    match resolution {
        NodeResolution::Ready(option) => option,
        NodeResolution::NeedsFile { file, .. } => panic!("a file is asked for: {}", file),
    }
}

#[test]
fn node_good_params_test() {
    let args = vec!["whitelist", "127.0.0.1,localhost,192.168.0.1"];
    let (mut parser, handles) = prepare_parser();

    assert!(parser.parse(args).is_ok());

    let params = ready(NodeOption::from_handles(&mut parser, handles).unwrap());
    assert_eq!(None, params.datacenter);
    assert!(params.whitelist);
    assert_eq!(vec!["127.0.0.1", "localhost", "192.168.0.1"], params.nodes);
}

#[test]
fn node_bad_params_test() {
    let args = vec!["whitelist", "127.0.0.1,localhost,192.168.0.1,"];
    let (mut parser, _) = prepare_parser();

    assert!(parser.parse(args).is_err());
}

#[test]
fn node_without_arguments_is_localhost() {
    let option = ready(NodeOption::parse(vec![]).unwrap());
    assert_eq!(option.nodes, vec!["localhost"]);
    assert!(!option.whitelist);
    assert_eq!(option.datacenter, None);
}

#[test]
fn node_datacenter_is_kept() {
    let option = ready(NodeOption::parse(vec!["datacenter=dc1", "10.0.0.1"]).unwrap());
    assert_eq!(option.nodes, vec!["10.0.0.1"]);
    assert_eq!(option.datacenter, Some("dc1".to_string()));
}

#[test]
fn node_file_asks_for_the_file() {
    match NodeOption::parse(vec!["datacenter=dc1", "file=nodes.txt", "whitelist"]).unwrap() {
        NodeResolution::NeedsFile { file, whitelist, datacenter } => {
            assert_eq!(file, "nodes.txt");
            assert!(whitelist);
            assert_eq!(datacenter, Some("dc1".to_string()));
        }
        NodeResolution::Ready(option) => panic!("nodes without a file: {:?}", option.nodes),
    }
}

#[test]
fn node_file_and_list_together_fit_no_group() {
    match NodeOption::parse(vec!["file=nodes.txt", "10.0.0.1"]) {
        Err(ValidationError::UnsatisfiedGroup { missing, unexpected }) => {
            assert_eq!(missing, vec![Vec::<String>::new(), Vec::<String>::new()]);
            assert_eq!(unexpected, vec![vec!["file=".to_string()], vec!["".to_string()]]);
        }
        Err(other) => panic!("unexpected fault: {:?}", other),
        Ok(_) => panic!("accepted"),
    }
}

#[test]
fn node_second_list_is_a_duplicate() {
    match NodeOption::parse(vec!["10.0.0.1", "10.0.0.2"]) {
        Err(ValidationError::DuplicateSupply { name }) => assert_eq!(name, ""),
        Err(other) => panic!("unexpected fault: {:?}", other),
        Ok(_) => panic!("accepted"),
    }
}

#[test]
fn node_file_lines_drop_the_empty_ones() {
    let lines = vec![
        "10.0.0.1".to_string(),
        String::new(),
        "node-b".to_string(),
        " ".to_string(),
        String::new(),
    ];
    let option = NodeOption::from_file_lines(lines, true, Some("dc2".to_string()));
    assert_eq!(option.nodes, vec!["10.0.0.1", "node-b", " "]);
    assert!(option.whitelist);
    assert_eq!(option.datacenter, Some("dc2".to_string()));
    let option = NodeOption::from_file_lines(Vec::new(), false, None);
    assert!(option.nodes.is_empty());
}

#[test]
fn node_description() {
    assert_eq!(NodeOption::description(), "Nodes to connect to");
}
