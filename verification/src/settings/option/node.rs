//! The option `-node`: the nodes to connect to, listed on the command line or
//! in a file.

use crate::settings::param::arena::ParamView;
use crate::settings::param::error::{ValidationError, ValidationErrorView};
use crate::settings::param::multi_param::ParamCell;
use crate::settings::param::parser::{
    group_covers, group_satisfied, help_of, is_missing, is_stray,
    lemma_pass_satisfies_chosen_group, read, ParamsParser, ParserView, SimpleParamHandle,
};
use crate::settings::param::simple_param::SimpleParamView;
use crate::settings::param::text::{split, string_views, views};
use crate::settings::param::types::free_of;
use crate::settings::param::value::{accepts, Value, ValueKind, ValueView};
use vstd::prelude::*;

verus! {

/// What the user has chosen with `-node`.
pub struct NodeOption {
    pub nodes: Vec<String>,
    pub whitelist: bool,
    pub datacenter: Option<String>,
}

/// A [`NodeOption`] with its texts as character sequences.
pub struct NodeOptionView {
    pub nodes: Seq<Seq<char>>,
    pub whitelist: bool,
    pub datacenter: Option<Seq<char>>,
}

impl View for NodeOption {
    type V = NodeOptionView;

    open spec fn view(&self) -> NodeOptionView {
        NodeOptionView {
            nodes: string_views(self.nodes@),
            whitelist: self.whitelist,
            datacenter: match self.datacenter {
                Some(d) => Some(d@),
                None => None,
            },
        }
    }
}

/// What the arguments of `-node` come to before any file is read: the
/// option, where the nodes are listed; or the name of the file that lists
/// them, with the rest of the option.
pub enum NodeResolution {
    Ready(NodeOption),
    NeedsFile { file: String, whitelist: bool, datacenter: Option<String> },
}

/// A [`NodeResolution`] with its texts as character sequences.
pub enum NodeResolutionView {
    Ready(NodeOptionView),
    NeedsFile { file: Seq<char>, whitelist: bool, datacenter: Option<Seq<char>> },
}

impl View for NodeResolution {
    type V = NodeResolutionView;

    open spec fn view(&self) -> NodeResolutionView {
        match self {
            NodeResolution::Ready(option) => NodeResolutionView::Ready(option@),
            NodeResolution::NeedsFile {
                file,
                whitelist,
                datacenter,
            } => NodeResolutionView::NeedsFile {
                file: file@,
                whitelist: *whitelist,
                datacenter: match datacenter {
                    Some(d) => Some(d@),
                    None => None,
                },
            },
        }
    }
}

/// The caller's hold on the parameters of `-node`.
pub struct NodeParamHandles {
    pub datacenter: SimpleParamHandle,
    pub whitelist: SimpleParamHandle,
    pub file: SimpleParamHandle,
    pub nodes: SimpleParamHandle,
}

/// The cells of the parameters of `-node`.
pub struct NodeCells {
    pub datacenter: ParamCell,
    pub whitelist: ParamCell,
    pub file: ParamCell,
    pub nodes: ParamCell,
}

impl NodeCells {
    /// The cells are four different ones, all below `bound`.
    pub open spec fn distinct_below(self, bound: nat) -> bool {
        let cells = seq![self.datacenter, self.whitelist, self.file, self.nodes];
        &&& forall|i: int| 0 <= i < 4 ==> #[trigger] cells[i] < bound
        &&& forall|i: int, j: int| 0 <= i < j < 4 ==> cells[i] != cells[j]
    }
}

impl NodeParamHandles {
    /// The cells that the handles hold.
    pub open spec fn cells(self) -> NodeCells {
        NodeCells {
            datacenter: self.datacenter.cell(),
            whitelist: self.whitelist.cell(),
            file: self.file.cell(),
            nodes: self.nodes.cell(),
        }
    }
}

/// The name of the option on the command line.
pub const CLI_STRING: &'static str = "-node";

pub const DATACENTER_DESC: &'static str =
    "Preferred datacenter for the default load balancing policy";

pub const WHITELIST_DESC: &'static str = "Limit communications to the provided nodes";

pub const FILE_DESC: &'static str = "Node file (one per line)";

pub const NODES_DESC: &'static str = "comma delimited list of nodes";

/// The parser of `-node` as it is declared. The nodes are listed, or a file
/// is named; `datacenter=` and `whitelist` go with either.
pub open spec fn node_parser() -> ParserView {
    ParserView {
        cli_str: CLI_STRING@,
        nodes: seq![
            ParamView::Simple(
                SimpleParamView::declared(
                    "datacenter="@,
                    ValueKind::Text,
                    None,
                    DATACENTER_DESC@,
                    false,
                ),
            ),
            ParamView::Simple(
                SimpleParamView::declared("whitelist"@, ValueKind::Flag, None, WHITELIST_DESC@, false),
            ),
            ParamView::Simple(
                SimpleParamView::declared("file="@, ValueKind::Text, None, FILE_DESC@, false),
            ),
            ParamView::Simple(
                SimpleParamView::declared(
                    ""@,
                    ValueKind::CommaList,
                    Some("localhost"@),
                    NODES_DESC@,
                    false,
                ),
            ),
        ],
        params: seq![0usize, 1usize, 2usize, 3usize],
        groups: seq![seq![0usize, 1usize, 3usize], seq![0usize, 1usize, 2usize]],
        chosen: None,
    }
}

/// The cells of the parameters in [`node_parser`].
pub open spec fn node_cells() -> NodeCells {
    NodeCells { datacenter: 0, whitelist: 1, file: 2, nodes: 3 }
}

/// The text that reading the parameter in `cell` gives, if it gives one.
pub open spec fn text_in(nodes: Seq<ParamView>, cell: ParamCell) -> Option<Seq<char>> {
    match read(nodes, cell).1 {
        Some(ValueView::Text(t)) => Some(t),
        _ => None,
    }
}

/// The list that reading the parameter in `cell` gives, if it gives one.
pub open spec fn list_in(nodes: Seq<ParamView>, cell: ParamCell) -> Option<Seq<Seq<char>>> {
    match read(nodes, cell).1 {
        Some(ValueView::CommaList(l)) => Some(l),
        _ => None,
    }
}

/// What the parameters come to after a pass: the listed nodes where there
/// are any, else the file to read them from.
pub open spec fn resolution_of(nodes: Seq<ParamView>, cells: NodeCells) -> Option<
    NodeResolutionView,
> {
    let datacenter = text_in(nodes, cells.datacenter);
    let whitelist = cells.whitelist < nodes.len() && nodes[cells.whitelist as int].supplied_by_user();
    match list_in(nodes, cells.nodes) {
        Some(list) => Some(
            NodeResolutionView::Ready(NodeOptionView { nodes: list, whitelist, datacenter }),
        ),
        None => match text_in(nodes, cells.file) {
            Some(file) => Some(NodeResolutionView::NeedsFile { file, whitelist, datacenter }),
            None => None,
        },
    }
}

/// The fault of a pass that leaves open where the nodes are listed.
pub open spec fn nodes_missing() -> ValidationErrorView {
    ValidationErrorView::UnsatisfiedGroup {
        missing: seq![seq!["file="@]],
        unexpected: seq![Seq::<Seq<char>>::empty()],
    }
}

/// The lines that are not empty, in order.
pub open spec fn without_empty(lines: Seq<Seq<char>>) -> Seq<Seq<char>>
    decreases lines.len(),
{
    if lines.len() == 0 {
        Seq::empty()
    } else if lines.last().len() > 0 {
        without_empty(lines.drop_last()).push(lines.last())
    } else {
        without_empty(lines.drop_last())
    }
}

/// Reads the text of a satisfied parameter.
fn take_text(parser: &mut ParamsParser, handle: SimpleParamHandle) -> (text: Option<String>)
    requires
        handle.cell() < old(parser)@.nodes.len(),
    ensures
        match text {
            Some(t) => text_in(old(parser)@.nodes, handle.cell()) == Some(t@),
            None => text_in(old(parser)@.nodes, handle.cell()) is None,
        },
        final(parser)@ == (ParserView {
            nodes: read(old(parser)@.nodes, handle.cell()).0,
            ..old(parser)@
        }),
{
    match handle.get_if_satisfied(parser) {
        Some(Value::Text(t)) => Some(t),
        _ => None,
    }
}

/// Reads the list of a satisfied parameter.
fn take_list(parser: &mut ParamsParser, handle: SimpleParamHandle) -> (list: Option<Vec<String>>)
    requires
        handle.cell() < old(parser)@.nodes.len(),
    ensures
        match list {
            Some(l) => list_in(old(parser)@.nodes, handle.cell()) == Some(string_views(l@)),
            None => list_in(old(parser)@.nodes, handle.cell()) is None,
        },
        final(parser)@ == (ParserView {
            nodes: read(old(parser)@.nodes, handle.cell()).0,
            ..old(parser)@
        }),
{
    match handle.get_if_satisfied(parser) {
        Some(Value::CommaList(l)) => Some(l),
        _ => None,
    }
}

fn no_nodes() -> (e: ValidationError)
    ensures
        e@ == nodes_missing(),
{
    let mut names: Vec<String> = Vec::new();
    names.push(String::from_str("file="));
    let mut missing: Vec<Vec<String>> = Vec::new();
    missing.push(names);
    let mut unexpected: Vec<Vec<String>> = Vec::new();
    unexpected.push(Vec::new());
    assert(missing.deep_view() =~~= seq![seq!["file="@]]);
    assert(unexpected.deep_view() =~~= seq![Seq::<Seq<char>>::empty()]);
    ValidationError::UnsatisfiedGroup { missing, unexpected }
}

/// The default of the list of nodes is a list.
proof fn lemma_default_is_a_list()
    ensures
        accepts(ValueKind::CommaList, "localhost"@),
{
    reveal_strlit("localhost");
    let s = "localhost"@;
    assert(free_of(s, '='));
    lemma_split_without_separator(s, ',');
}

/// A text without the separator is one piece.
proof fn lemma_split_without_separator(s: Seq<char>, sep: char)
    requires
        free_of(s, sep),
    ensures
        split(s, sep) == seq![s],
    decreases s.len(),
{
    if s.len() > 0 {
        assert(s.last() != sep);
        assert(free_of(s.drop_last(), sep)) by {
            assert forall|i: int| 0 <= i < s.drop_last().len() implies #[trigger] s.drop_last()[i]
                != sep by {
                assert(s[i] != sep);
            }
        }
        lemma_split_without_separator(s.drop_last(), sep);
        let before = seq![s.drop_last()];
        assert(before.last().push(s.last()) =~= s);
        assert(before.drop_last().push(s) =~= seq![s]);
    } else {
        assert(s =~= Seq::<char>::empty());
    }
}

/// The parser of `-node` and the handles of its parameters.
pub fn prepare_parser() -> (r: (ParamsParser, NodeParamHandles))
    ensures
        r.0@ == node_parser(),
        r.0@.wf(),
        r.1.cells() == node_cells(),
{
    proof {
        lemma_default_is_a_list();
    }
    let mut parser = ParamsParser::new(CLI_STRING);

    let datacenter = parser.simple_param(
        "datacenter=",
        ValueKind::Text,
        None,
        DATACENTER_DESC,
        false,
    );
    let whitelist = parser.simple_param("whitelist", ValueKind::Flag, None, WHITELIST_DESC, false);
    let file = parser.simple_param("file=", ValueKind::Text, None, FILE_DESC, false);
    let nodes = parser.simple_param(
        "",
        ValueKind::CommaList,
        Some("localhost"),
        NODES_DESC,
        false,
    );

    parser.group(vec![datacenter.cell(), whitelist.cell(), nodes.cell()]);
    parser.group(vec![datacenter.cell(), whitelist.cell(), file.cell()]);

    assert(parser@.nodes =~= node_parser().nodes);
    assert(parser@.params =~= node_parser().params);
    assert(parser@.groups =~~= node_parser().groups);
    (parser, NodeParamHandles { datacenter, whitelist, file, nodes })
}

impl NodeOption {
    pub fn description() -> (text: &'static str)
        ensures
            text@ == "Nodes to connect to"@,
    {
        "Nodes to connect to"
    }

    /// The help text of `-node`.
    pub fn print_help() -> (text: String)
        ensures
            text@ == help_of(node_parser()),
    {
        let (parser, _) = prepare_parser();
        parser.print_help()
    }

    /// What the arguments `args` of `-node` come to.
    pub fn parse(args: Vec<&str>) -> (result: Result<NodeResolution, ValidationError>)
        ensures
            match node_parser().parse(views(args@)) {
                Err(e) => result matches Err(f) && f@ == e,
                Ok(parser) => result matches Ok(r) && resolution_of(parser.nodes, node_cells())
                    == Some(r@),
            },
    {
        let (mut parser, handles) = prepare_parser();
        match parser.parse(args) {
            Err(e) => Err(e),
            Ok(()) => {
                proof {
                    lemma_pass_gives_nodes(views(args@));
                }
                Self::from_handles(&mut parser, handles)
            },
        }
    }

    /// Reads the parameters after a pass.
    pub fn from_handles(parser: &mut ParamsParser, handles: NodeParamHandles) -> (result: Result<
        NodeResolution,
        ValidationError,
    >)
        requires
            handles.cells().distinct_below(old(parser)@.nodes.len()),
        ensures
            match resolution_of(old(parser)@.nodes, handles.cells()) {
                Some(resolution) => result matches Ok(r) && r@ == resolution,
                None => result matches Err(e) && e@ == nodes_missing(),
            },
    {
        let ghost cells = handles.cells();
        let ghost before = parser@.nodes;
        proof {
            let list = seq![cells.datacenter, cells.whitelist, cells.file, cells.nodes];
            assert(list[0] < before.len() && list[1] < before.len());
            assert(list[2] < before.len() && list[3] < before.len());
            assert(list[0] != list[1] && list[0] != list[2] && list[0] != list[3]);
            assert(list[1] != list[2] && list[1] != list[3] && list[2] != list[3]);
        }
        let datacenter = take_text(parser, handles.datacenter);
        let whitelist = handles.whitelist.supplied_by_user(parser);
        let file = take_text(parser, handles.file);
        let nodes = take_list(parser, handles.nodes);

        match nodes {
            Some(nodes) => Ok(NodeResolution::Ready(NodeOption { nodes, whitelist, datacenter })),
            None => match file {
                Some(file) => Ok(NodeResolution::NeedsFile { file, whitelist, datacenter }),
                None => Err(no_nodes()),
            },
        }
    }

    /// The option with the nodes that a file lists, one on each line that is
    /// not empty.
    pub fn from_file_lines(lines: Vec<String>, whitelist: bool, datacenter: Option<String>) -> (option:
        Self)
        ensures
            option@ == (NodeOptionView {
                nodes: without_empty(string_views(lines@)),
                whitelist,
                datacenter: match datacenter {
                    Some(d) => Some(d@),
                    None => None,
                },
            }),
    {
        let ghost all = string_views(lines@);
        let mut nodes: Vec<String> = Vec::new();
        let mut i: usize = 0;
        assert(all.take(0) =~= Seq::<Seq<char>>::empty());
        assert(string_views(nodes@) =~= Seq::<Seq<char>>::empty());
        while i < lines.len()
            invariant
                i <= lines.len(),
                all == string_views(lines@),
                string_views(nodes@) == without_empty(all.take(i as int)),
            decreases lines.len() - i,
        {
            assert(all.take(i + 1).drop_last() =~= all.take(i as int));
            assert(all.take(i + 1).last() == lines@[i as int]@);
            if lines[i].as_str().unicode_len() > 0 {
                let ghost before = string_views(nodes@);
                nodes.push(lines[i].clone());
                assert(string_views(nodes@) =~= before.push(lines@[i as int]@));
            }
            i = i + 1;
        }
        assert(all.take(lines@.len() as int) =~= all);
        NodeOption { nodes, whitelist, datacenter }
    }
}

/// A pass of `-node` that succeeds settles where the nodes are listed: with
/// the first group chosen they are given or have their default, and the
/// second group is chosen only where a file has been named.
pub proof fn lemma_pass_gives_nodes(tokens: Seq<Seq<char>>)
    requires
        node_parser().parse(tokens) is Ok,
    ensures
        resolution_of(node_parser().parse(tokens)->Ok_0.nodes, node_cells()) is Some,
{
    let view = node_parser();
    lemma_default_is_a_list();
    assert(view.wf()) by {
        assert forall|i: int| 0 <= i < view.nodes.len() implies (#[trigger] view.nodes[i]).wf() by {}
    }
    lemma_pass_satisfies_chosen_group(view, tokens);
    let after = view.parse(tokens)->Ok_0;
    let nodes = after.nodes;
    let g = after.chosen->0;
    assert(view.nodes[0].same_declaration(nodes[0]) && nodes[0].wf());
    assert(view.nodes[1].same_declaration(nodes[1]) && nodes[1].wf());
    assert(view.nodes[2].same_declaration(nodes[2]) && nodes[2].wf());
    assert(view.nodes[3].same_declaration(nodes[3]) && nodes[3].wf());
    if g == 0 {
        assert(view.groups[0][2] == 3);
        assert(nodes[view.groups[g][2] as int].satisfied());
        assert(list_in(nodes, 3) is Some);
    } else {
        assert(g == 1);
        let first = view.groups[0];
        assert(view.groups[1][2] == 2);
        assert(nodes[view.groups[g][2] as int].satisfied());
        assert(!(group_satisfied(nodes, first) && group_covers(nodes, view.params, first)));
        assert(group_satisfied(nodes, first)) by {
            assert forall|m: int| 0 <= m < first.len() implies !is_missing(
                nodes,
                #[trigger] first[m],
            ) by {
                assert(first[m] == 0 || first[m] == 1 || first[m] == 3);
            }
        }
        assert(nodes[2].supplied_by_user()) by {
            if !nodes[2].supplied_by_user() {
                assert forall|j: int| 0 <= j < view.params.len() implies !is_stray(
                    nodes,
                    first,
                    #[trigger] view.params[j],
                ) by {
                    assert(first[0] == 0 && first[1] == 1 && first[2] == 3);
                    assert(view.params[j] == j);
                }
            }
        }
        assert(text_in(nodes, 2) is Some);
        assert(list_in(nodes, 3) is Some || text_in(nodes, 2) is Some);
    }
}

} // verus!
