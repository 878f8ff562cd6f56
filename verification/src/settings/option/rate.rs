//! The option `-rate`: a fixed number of threads, with or without a limit on
//! the rate of operations; or a number of threads that is found by trying.

use crate::settings::param::arena::ParamView;
use crate::settings::param::error::{ValidationError, ValidationErrorView};
use crate::settings::param::multi_param::ParamCell;
use crate::settings::param::parser::{
    help_of, is_missing, lemma_pass_satisfies_chosen_group, read, ParamsParser, ParserView,
    SimpleParamHandle,
};
use crate::settings::param::simple_param::SimpleParamView;
use crate::settings::param::text::views;
use crate::settings::param::types::digits_value;
use crate::settings::param::value::{accepts, Value, ValueKind, ValueView};
use vstd::prelude::*;

verus! {

/// How many threads run, and how fast.
#[derive(PartialEq, Debug)]
pub enum ThreadsInfo {
    Fixed { threads: u64, throttle: Option<u64>, fixed_rate: Option<u64> },
    Auto { min_threads: u64, max_threads: u64, auto: bool },
}

/// What the user has chosen with `-rate`.
pub struct RateOption {
    pub threads_info: ThreadsInfo,
}

/// The caller's hold on the parameters of `-rate`.
pub struct RateParamHandles {
    pub threads: SimpleParamHandle,
    pub throttle: SimpleParamHandle,
    pub fixed: SimpleParamHandle,
    pub threads_gte: SimpleParamHandle,
    pub threads_lte: SimpleParamHandle,
    pub auto: SimpleParamHandle,
}

/// The cells of the parameters of `-rate`.
pub struct RateCells {
    pub threads: ParamCell,
    pub throttle: ParamCell,
    pub fixed: ParamCell,
    pub threads_gte: ParamCell,
    pub threads_lte: ParamCell,
    pub auto: ParamCell,
}

impl RateCells {
    /// The cells are six different ones, all below `bound`.
    pub open spec fn distinct_below(self, bound: nat) -> bool {
        let cells = seq![
            self.threads,
            self.throttle,
            self.fixed,
            self.threads_gte,
            self.threads_lte,
            self.auto,
        ];
        &&& forall|i: int| 0 <= i < 6 ==> #[trigger] cells[i] < bound
        &&& forall|i: int, j: int| 0 <= i < j < 6 ==> cells[i] != cells[j]
    }
}

impl RateParamHandles {
    /// The cells that the handles hold.
    pub open spec fn cells(self) -> RateCells {
        RateCells {
            threads: self.threads.cell(),
            throttle: self.throttle.cell(),
            fixed: self.fixed.cell(),
            threads_gte: self.threads_gte.cell(),
            threads_lte: self.threads_lte.cell(),
            auto: self.auto.cell(),
        }
    }
}

/// The name of the option on the command line.
pub const CLI_STRING: &'static str = "-rate";

pub const THREADS_DESC: &'static str = "run this many clients concurrently";

pub const THROTTLE_DESC: &'static str =
    "throttle operations per second across all clients to a maximum rate (or less) with no implied schedule";

pub const FIXED_DESC: &'static str =
    "expect fixed rate of operations per second across all clients with implied schedule";

pub const THREADS_GTE_DESC: &'static str = "run at least this many clients concurrently";

pub const THREADS_LTE_DESC: &'static str = "run at most this many clients concurrently";

pub const AUTO_DESC: &'static str = "stop increasing threads once throughput saturates";

/// The parser of `-rate` as it is declared. Either `threads=` is given, with
/// `throttle=` and `fixed=` at will; or any of `threads>=`, `threads<=` and
/// `auto`.
pub open spec fn rate_parser() -> ParserView {
    ParserView {
        cli_str: CLI_STRING@,
        nodes: seq![
            ParamView::Simple(
                SimpleParamView::declared(
                    "threads="@,
                    ValueKind::Unsigned,
                    None,
                    THREADS_DESC@,
                    true,
                ),
            ),
            ParamView::Simple(
                SimpleParamView::declared("throttle="@, ValueKind::Rate, None, THROTTLE_DESC@, false),
            ),
            ParamView::Simple(
                SimpleParamView::declared("fixed="@, ValueKind::Rate, None, FIXED_DESC@, false),
            ),
            ParamView::Simple(
                SimpleParamView::declared(
                    "threads>="@,
                    ValueKind::Unsigned,
                    Some("4"@),
                    THREADS_GTE_DESC@,
                    false,
                ),
            ),
            ParamView::Simple(
                SimpleParamView::declared(
                    "threads<="@,
                    ValueKind::Unsigned,
                    Some("1000"@),
                    THREADS_LTE_DESC@,
                    false,
                ),
            ),
            ParamView::Simple(
                SimpleParamView::declared("auto"@, ValueKind::Flag, None, AUTO_DESC@, false),
            ),
        ],
        params: seq![0usize, 1usize, 2usize, 3usize, 4usize, 5usize],
        groups: seq![seq![0usize, 1usize, 2usize], seq![3usize, 4usize, 5usize]],
        chosen: None,
    }
}

/// The cells of the parameters in [`rate_parser`].
pub open spec fn rate_cells() -> RateCells {
    RateCells { threads: 0, throttle: 1, fixed: 2, threads_gte: 3, threads_lte: 4, auto: 5 }
}

/// The number that reading the parameter in `cell` gives, if it gives one.
pub open spec fn number_in(nodes: Seq<ParamView>, cell: ParamCell) -> Option<u64> {
    match read(nodes, cell).1 {
        Some(ValueView::Unsigned(n)) => Some(n),
        Some(ValueView::Rate(n)) => Some(n),
        _ => None,
    }
}

/// What the parameters come to after a pass. With a least and a greatest
/// number of threads the number is found by trying; else it is fixed, and
/// must be given.
pub open spec fn threads_info_of(nodes: Seq<ParamView>, cells: RateCells) -> Option<ThreadsInfo> {
    let min = number_in(nodes, cells.threads_gte);
    let max = number_in(nodes, cells.threads_lte);
    if min is Some && max is Some {
        Some(
            ThreadsInfo::Auto {
                min_threads: min->0,
                max_threads: max->0,
                auto: read(nodes, cells.auto).1 is Some,
            },
        )
    } else {
        match number_in(nodes, cells.threads) {
            Some(threads) => Some(
                ThreadsInfo::Fixed {
                    threads,
                    throttle: number_in(nodes, cells.throttle),
                    fixed_rate: number_in(nodes, cells.fixed),
                },
            ),
            None => None,
        }
    }
}

/// The fault of a pass that leaves the number of threads open.
pub open spec fn threads_missing() -> ValidationErrorView {
    ValidationErrorView::UnsatisfiedGroup {
        missing: seq![seq!["threads="@]],
        unexpected: seq![Seq::<Seq<char>>::empty()],
    }
}

/// Reads the number of a satisfied parameter.
fn take_number(parser: &mut ParamsParser, handle: SimpleParamHandle) -> (n: Option<u64>)
    requires
        handle.cell() < old(parser)@.nodes.len(),
    ensures
        n == number_in(old(parser)@.nodes, handle.cell()),
        final(parser)@ == (ParserView {
            nodes: read(old(parser)@.nodes, handle.cell()).0,
            ..old(parser)@
        }),
{
    match handle.get_if_satisfied(parser) {
        Some(Value::Unsigned(n)) => Some(n),
        Some(Value::Rate(n)) => Some(n),
        _ => None,
    }
}

fn no_threads() -> (e: ValidationError)
    ensures
        e@ == threads_missing(),
{
    let mut names: Vec<String> = Vec::new();
    names.push(String::from_str("threads="));
    let mut missing: Vec<Vec<String>> = Vec::new();
    missing.push(names);
    let mut unexpected: Vec<Vec<String>> = Vec::new();
    unexpected.push(Vec::new());
    assert(missing.deep_view() =~~= seq![seq!["threads="@]]);
    assert(unexpected.deep_view() =~~= seq![Seq::<Seq<char>>::empty()]);
    ValidationError::UnsatisfiedGroup { missing, unexpected }
}

/// The parser of `-rate` and the handles of its parameters.
pub fn prepare_parser() -> (r: (ParamsParser, RateParamHandles))
    ensures
        r.0@ == rate_parser(),
        r.0@.wf(),
        r.1.cells() == rate_cells(),
{
    proof {
        lemma_defaults_are_numbers();
    }
    let mut parser = ParamsParser::new(CLI_STRING);

    let threads = parser.simple_param("threads=", ValueKind::Unsigned, None, THREADS_DESC, true);
    let throttle = parser.simple_param("throttle=", ValueKind::Rate, None, THROTTLE_DESC, false);
    let fixed = parser.simple_param("fixed=", ValueKind::Rate, None, FIXED_DESC, false);
    let threads_gte = parser.simple_param(
        "threads>=",
        ValueKind::Unsigned,
        Some("4"),
        THREADS_GTE_DESC,
        false,
    );
    let threads_lte = parser.simple_param(
        "threads<=",
        ValueKind::Unsigned,
        Some("1000"),
        THREADS_LTE_DESC,
        false,
    );
    let auto = parser.simple_param("auto", ValueKind::Flag, None, AUTO_DESC, false);

    parser.group(vec![threads.cell(), throttle.cell(), fixed.cell()]);
    parser.group(vec![threads_gte.cell(), threads_lte.cell(), auto.cell()]);

    assert(parser@.nodes =~= rate_parser().nodes);
    assert(parser@.params =~= rate_parser().params);
    assert(parser@.groups =~~= rate_parser().groups);
    (parser, RateParamHandles { threads, throttle, fixed, threads_gte, threads_lte, auto })
}

/// The defaults of `threads>=` and `threads<=` are numbers.
proof fn lemma_defaults_are_numbers()
    ensures
        accepts(ValueKind::Unsigned, "4"@),
        accepts(ValueKind::Unsigned, "1000"@),
{
    reveal_strlit("4");
    reveal_strlit("1000");
    reveal_with_fuel(digits_value, 5);
    let a = "4"@;
    let b = "1000"@;
    assert(a.drop_last() =~= Seq::<char>::empty());
    assert(b.drop_last() =~= seq!['1', '0', '0']);
    assert(b.drop_last().drop_last() =~= seq!['1', '0']);
    assert(b.drop_last().drop_last().drop_last() =~= seq!['1']);
    assert(b.drop_last().drop_last().drop_last().drop_last() =~= Seq::<char>::empty());
    assert(digits_value(a) == 4);
    assert(digits_value(b) == 1000);
}

impl RateOption {
    pub fn description() -> (text: &'static str)
        ensures
            text@ == "Thread count, rate limit or automatic mode (default is auto)"@,
    {
        "Thread count, rate limit or automatic mode (default is auto)"
    }

    /// The help text of `-rate`.
    pub fn print_help() -> (text: String)
        ensures
            text@ == help_of(rate_parser()),
    {
        let (parser, _) = prepare_parser();
        parser.print_help()
    }

    /// What the arguments `args` of `-rate` come to.
    pub fn parse(args: Vec<&str>) -> (result: Result<Self, ValidationError>)
        ensures
            match rate_parser().parse(views(args@)) {
                Err(e) => result matches Err(f) && f@ == e,
                Ok(parser) => result matches Ok(option) && threads_info_of(
                    parser.nodes,
                    rate_cells(),
                ) == Some(option.threads_info),
            },
    {
        let (mut parser, handles) = prepare_parser();
        match parser.parse(args) {
            Err(e) => Err(e),
            Ok(()) => {
                proof {
                    lemma_pass_gives_threads(views(args@));
                }
                Self::from_handles(&mut parser, handles)
            },
        }
    }

    /// Reads the parameters after a pass.
    pub fn from_handles(parser: &mut ParamsParser, handles: RateParamHandles) -> (result: Result<
        Self,
        ValidationError,
    >)
        requires
            handles.cells().distinct_below(old(parser)@.nodes.len()),
        ensures
            match threads_info_of(old(parser)@.nodes, handles.cells()) {
                Some(info) => result matches Ok(option) && option.threads_info == info,
                None => result matches Err(e) && e@ == threads_missing(),
            },
    {
        let ghost cells = handles.cells();
        let ghost nodes = parser@.nodes;
        proof {
            let list = seq![
                cells.threads,
                cells.throttle,
                cells.fixed,
                cells.threads_gte,
                cells.threads_lte,
                cells.auto,
            ];
            assert(list[0] < nodes.len() && list[1] < nodes.len() && list[2] < nodes.len());
            assert(list[3] < nodes.len() && list[4] < nodes.len() && list[5] < nodes.len());
            assert(list[0] != list[1] && list[0] != list[2] && list[0] != list[3]);
            assert(list[0] != list[4] && list[0] != list[5] && list[1] != list[2]);
            assert(list[1] != list[3] && list[1] != list[4] && list[1] != list[5]);
            assert(list[2] != list[3] && list[2] != list[4] && list[2] != list[5]);
            assert(list[3] != list[4] && list[3] != list[5] && list[4] != list[5]);
        }
        let threads = take_number(parser, handles.threads);
        let throttle = take_number(parser, handles.throttle);
        let fixed_rate = take_number(parser, handles.fixed);
        let min_threads = take_number(parser, handles.threads_gte);
        let max_threads = take_number(parser, handles.threads_lte);
        let auto = handles.auto.get_if_satisfied(parser).is_some();

        match (min_threads, max_threads) {
            (Some(min_threads), Some(max_threads)) => Ok(
                RateOption { threads_info: ThreadsInfo::Auto { min_threads, max_threads, auto } },
            ),
            _ => match threads {
                Some(threads) => Ok(
                    RateOption { threads_info: ThreadsInfo::Fixed { threads, throttle, fixed_rate } },
                ),
                None => Err(no_threads()),
            },
        }
    }
}

/// A pass of `-rate` that succeeds settles the threads: with the first group
/// chosen `threads=` has been given, and with the second the least and the
/// greatest number of threads are given or have their defaults.
pub proof fn lemma_pass_gives_threads(tokens: Seq<Seq<char>>)
    requires
        rate_parser().parse(tokens) is Ok,
    ensures
        threads_info_of(rate_parser().parse(tokens)->Ok_0.nodes, rate_cells()) is Some,
{
    let view = rate_parser();
    lemma_defaults_are_numbers();
    assert(view.wf()) by {
        assert forall|i: int| 0 <= i < view.nodes.len() implies (#[trigger] view.nodes[i]).wf() by {}
    }
    lemma_pass_satisfies_chosen_group(view, tokens);
    let after = view.parse(tokens)->Ok_0;
    let nodes = after.nodes;
    let g = after.chosen->0;
    assert(view.nodes[0].same_declaration(nodes[0]) && nodes[0].wf());
    assert(view.nodes[3].same_declaration(nodes[3]) && nodes[3].wf());
    assert(view.nodes[4].same_declaration(nodes[4]) && nodes[4].wf());
    if g == 0 {
        assert(view.groups[0][0] == 0);
        assert(nodes[view.groups[g][0] as int].satisfied());
        assert(!is_missing(nodes, view.groups[g][0]));
        assert(number_in(nodes, 0) is Some);
    } else {
        assert(g == 1);
        assert(view.groups[1][0] == 3 && view.groups[1][1] == 4);
        assert(nodes[view.groups[g][0] as int].satisfied());
        assert(nodes[view.groups[g][1] as int].satisfied());
        assert(number_in(nodes, 3) is Some);
        assert(number_in(nodes, 4) is Some);
    }
}

} // verus!
