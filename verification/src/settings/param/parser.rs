//! The parser of one option: its parameters, the groups that say which
//! combinations of them are complete, and the pass over the user's arguments.

use super::arena::{
    describe_cells, lemma_parse_node_taken, lemma_satisfy_cells_marked, lemma_taken_self,
    lemma_taken_twice, marked, parse_node, satisfy_cells, taken, usages, wf, Param, ParamArena,
    ParamView,
};
use super::error::{ValidationError, ValidationErrorView};
use super::multi_param::{
    MultiParam, MultiParamAcceptsArbitraryHandle, MultiParamHandle, MultiParamView, ParamCell,
    RejectsArbitraryParams,
};
use super::simple_param::{MatchView, ParamMatchResult, SimpleParam, SimpleParamView};
use super::text::{string_views, views};
use super::value::{accepts, Value, ValueKind, ValueView};
use vstd::prelude::*;

verus! {

/// The parameters after `token` has been offered to those in `params[j..]`,
/// in order: the first that makes something of it takes it, or the token is
/// at fault. A token of which none makes anything is not recognized under
/// `owner`.
pub open spec fn consume(
    nodes: Seq<ParamView>,
    params: Seq<ParamCell>,
    owner: Seq<char>,
    token: Seq<char>,
    j: int,
) -> Result<Seq<ParamView>, ValidationErrorView>
    decreases params.len() - j,
{
    if 0 <= j < params.len() {
        if params[j] < nodes.len() {
            match nodes[params[j] as int].try_match(token) {
                MatchView::NoMatch => consume(nodes, params, owner, token, j + 1),
                MatchView::Error(e) => Err(e),
                MatchView::Match => parse_node(nodes, params[j] as int, token),
            }
        } else {
            consume(nodes, params, owner, token, j + 1)
        }
    } else {
        Err(ValidationErrorView::UnrecognizedArgument { text: token, owner })
    }
}

/// The parameters after the tokens `tokens[k..]` have been consumed in order,
/// or the first fault.
pub open spec fn consume_all(
    nodes: Seq<ParamView>,
    params: Seq<ParamCell>,
    owner: Seq<char>,
    tokens: Seq<Seq<char>>,
    k: int,
) -> Result<Seq<ParamView>, ValidationErrorView>
    decreases tokens.len() - k,
{
    if 0 <= k < tokens.len() {
        match consume(nodes, params, owner, tokens[k], 0) {
            Ok(next) => consume_all(next, params, owner, tokens, k + 1),
            Err(e) => Err(e),
        }
    } else {
        Ok(nodes)
    }
}

/// Whether the parameter in `cell` keeps a group from being satisfied: it
/// is required and the user has not given it.
pub open spec fn is_missing(nodes: Seq<ParamView>, cell: ParamCell) -> bool {
    cell < nodes.len() && nodes[cell as int].required() && !nodes[cell as int].supplied_by_user()
}

/// A group is satisfied when none of its members is missing.
pub open spec fn group_satisfied(nodes: Seq<ParamView>, group: Seq<ParamCell>) -> bool {
    forall|m: int| 0 <= m < group.len() ==> !is_missing(nodes, #[trigger] group[m])
}

/// The prefixes of the missing members among `group[m..]`, in order.
pub open spec fn missing_from(nodes: Seq<ParamView>, group: Seq<ParamCell>, m: int) -> Seq<
    Seq<char>,
>
    decreases group.len() - m,
{
    if 0 <= m < group.len() {
        if is_missing(nodes, group[m]) {
            seq![nodes[group[m] as int].prefix()] + missing_from(nodes, group, m + 1)
        } else {
            missing_from(nodes, group, m + 1)
        }
    } else {
        Seq::empty()
    }
}

/// Whether the parameter in `cell` keeps a group from fitting though it is
/// no member: the user has given it.
pub open spec fn is_stray(nodes: Seq<ParamView>, group: Seq<ParamCell>, cell: ParamCell) -> bool {
    cell < nodes.len() && nodes[cell as int].supplied_by_user() && !group.contains(cell)
}

/// A group covers the arguments when every parameter that the user has given
/// is a member of it.
pub open spec fn group_covers(
    nodes: Seq<ParamView>,
    params: Seq<ParamCell>,
    group: Seq<ParamCell>,
) -> bool {
    forall|j: int| 0 <= j < params.len() ==> !is_stray(nodes, group, #[trigger] params[j])
}

/// The prefixes of the parameters among `params[j..]` that the user has given
/// and that are no members of `group`, in order.
pub open spec fn strays_from(
    nodes: Seq<ParamView>,
    params: Seq<ParamCell>,
    group: Seq<ParamCell>,
    j: int,
) -> Seq<Seq<char>>
    decreases params.len() - j,
{
    if 0 <= j < params.len() {
        if is_stray(nodes, group, params[j]) {
            seq![nodes[params[j] as int].prefix()] + strays_from(nodes, params, group, j + 1)
        } else {
            strays_from(nodes, params, group, j + 1)
        }
    } else {
        Seq::empty()
    }
}

/// A group fits when it is satisfied and covers the arguments.
pub open spec fn group_fits(
    nodes: Seq<ParamView>,
    params: Seq<ParamCell>,
    group: Seq<ParamCell>,
) -> bool {
    group_satisfied(nodes, group) && group_covers(nodes, params, group)
}

/// For each group, the prefixes of its missing members.
pub open spec fn missing_by_group(nodes: Seq<ParamView>, groups: Seq<Seq<ParamCell>>) -> Seq<
    Seq<Seq<char>>,
> {
    Seq::new(groups.len(), |g: int| missing_from(nodes, groups[g], 0))
}

/// For each group, the prefixes of the given parameters that are no members
/// of it.
pub open spec fn strays_by_group(
    nodes: Seq<ParamView>,
    params: Seq<ParamCell>,
    groups: Seq<Seq<ParamCell>>,
) -> Seq<Seq<Seq<char>>> {
    Seq::new(groups.len(), |g: int| strays_from(nodes, params, groups[g], 0))
}

/// The first group among `groups[g..]` that fits, if there is one.
pub open spec fn first_fitting(
    nodes: Seq<ParamView>,
    params: Seq<ParamCell>,
    groups: Seq<Seq<ParamCell>>,
    g: int,
) -> Option<int>
    decreases groups.len() - g,
{
    if 0 <= g < groups.len() {
        if group_fits(nodes, params, groups[g]) {
            Some(g)
        } else {
            first_fitting(nodes, params, groups, g + 1)
        }
    } else {
        None
    }
}

/// What reading the leaf parameter in `cell` comes to: the parameters after
/// it, and the value read. A satisfied leaf gives its value, if it has one,
/// and is consumed; anything else gives nothing and stays.
pub open spec fn read(nodes: Seq<ParamView>, cell: ParamCell) -> (Seq<ParamView>, Option<ValueView>) {
    if cell < nodes.len() && nodes[cell as int] is Simple && nodes[cell as int]->Simple_0.satisfied {
        (nodes.update(cell as int, ParamView::Consumed), nodes[cell as int]->Simple_0.value)
    } else {
        (nodes, None)
    }
}

/// The lines of usage of the groups from number `g` on: one line for each
/// group, with its members in order, and ` OR ` between two groups.
pub open spec fn usage_lines(view: ParserView, g: int) -> Seq<char>
    decreases view.groups.len() - g,
{
    if 0 <= g < view.groups.len() {
        (if g > 0 {
            " OR \n"@
        } else {
            Seq::empty()
        }) + "Usage: "@ + view.cli_str + usages(view.nodes, view.groups[g], " "@, 0) + "\n"@
            + usage_lines(view, g + 1)
    } else {
        Seq::empty()
    }
}

/// The help text of an option: the lines of usage, an empty line, and the
/// description of each parameter in the order of declaration.
pub open spec fn help_of(view: ParserView) -> Seq<char> {
    usage_lines(view, 0) + "\n"@ + describe_cells(
        view.nodes,
        view.params,
        "  "@,
        view.nodes.len() as int,
        0,
    )
}

/// A parser with its texts as character sequences.
pub struct ParserView {
    /// The name of the option on the command line.
    pub cli_str: Seq<char>,
    /// Every parameter, sub-parameters included.
    pub nodes: Seq<ParamView>,
    /// The parameters that take the option's arguments, in the order of
    /// declaration.
    pub params: Seq<ParamCell>,
    /// The groups, in the order of declaration.
    pub groups: Seq<Seq<ParamCell>>,
    /// The group that a successful pass has chosen.
    pub chosen: Option<int>,
}

impl ParserView {
    /// Every cell that the parser names holds a parameter, and every
    /// sub-parameter stands before its compound parameter.
    pub open spec fn wf(self) -> bool {
        &&& wf(self.nodes)
        &&& forall|j: int| 0 <= j < self.params.len() ==> #[trigger] self.params[j] < self.nodes.len()
        &&& forall|g: int, m: int|
            0 <= g < self.groups.len() && 0 <= m < self.groups[g].len() ==> #[trigger] self.groups[g][m]
                < self.nodes.len()
    }

    /// What a pass over `tokens` comes to: the parser after it, with the first
    /// group that fits chosen and its members marked as satisfied; or the
    /// first fault among the tokens; or, where the tokens are in order and no
    /// group fits, what each group is missing and what it did not expect.
    pub open spec fn parse(self, tokens: Seq<Seq<char>>) -> Result<ParserView, ValidationErrorView> {
        match consume_all(self.nodes, self.params, self.cli_str, tokens, 0) {
            Err(e) => Err(e),
            Ok(nodes) => match first_fitting(nodes, self.params, self.groups, 0) {
                None => Err(
                    ValidationErrorView::UnsatisfiedGroup {
                        missing: missing_by_group(nodes, self.groups),
                        unexpected: strays_by_group(nodes, self.params, self.groups),
                    },
                ),
                Some(g) => Ok(
                    ParserView {
                        nodes: satisfy_cells(nodes, self.groups[g], nodes.len() as int, 0),
                        chosen: Some(g),
                        ..self
                    },
                ),
            },
        }
    }
}

/// Declaration order decides: the group that [`first_fitting`] finds fits,
/// and no group declared before it does, whether or not a later one fits
/// too.
pub proof fn lemma_first_fitting_is_first(
    nodes: Seq<ParamView>,
    params: Seq<ParamCell>,
    groups: Seq<Seq<ParamCell>>,
    from: int,
)
    requires
        0 <= from,
    ensures
        match first_fitting(nodes, params, groups, from) {
            Some(g) => {
                &&& from <= g < groups.len()
                &&& group_fits(nodes, params, groups[g])
                &&& forall|h: int| from <= h < g ==> !group_fits(nodes, params, #[trigger] groups[h])
            },
            None => forall|h: int|
                from <= h < groups.len() ==> !group_fits(nodes, params, #[trigger] groups[h]),
        },
    decreases groups.len() - from,
{
    if from < groups.len() && !group_fits(nodes, params, groups[from]) {
        lemma_first_fitting_is_first(nodes, params, groups, from + 1);
    }
}

/// The parser of one option.
pub struct ParamsParser {
    cli_str: &'static str,
    arena: ParamArena,
    params: Vec<ParamCell>,
    groups: Vec<Vec<ParamCell>>,
    chosen: Option<usize>,
}

/// The groups as sequences of cells.
pub open spec fn groups_of(groups: Seq<Vec<ParamCell>>) -> Seq<Seq<ParamCell>> {
    Seq::new(groups.len(), |g: int| groups[g]@)
}

impl View for ParamsParser {
    type V = ParserView;

    closed spec fn view(&self) -> ParserView {
        ParserView {
            cli_str: self.cli_str@,
            nodes: self.arena@,
            params: self.params@,
            groups: groups_of(self.groups@),
            chosen: match self.chosen {
                Some(g) => Some(g as int),
                None => None,
            },
        }
    }
}

impl ParamsParser {
    /// A parser for the option `cli_str`, without parameters or groups.
    pub fn new(cli_str: &'static str) -> (parser: Self)
        ensures
            parser@ == (ParserView {
                cli_str: cli_str@,
                nodes: Seq::empty(),
                params: Seq::empty(),
                groups: Seq::empty(),
                chosen: None,
            }),
            parser@.wf(),
    {
        let parser = ParamsParser {
            cli_str,
            arena: ParamArena::new(),
            params: Vec::new(),
            groups: Vec::new(),
            chosen: None,
        };
        assert(groups_of(parser.groups@) =~= Seq::<Seq<ParamCell>>::empty());
        parser
    }

    /// Puts `param` among the parameters without letting it take arguments of
    /// the option itself: it is for use as a sub-parameter.
    pub fn subparam(&mut self, param: Param) -> (cell: ParamCell)
        requires
            old(self)@.wf(),
            param@.wf(),
            forall|k: int|
                0 <= k < param@.subparams().len() ==> 0 <= #[trigger] param@.subparams()[k] < old(
                    self,
                )@.nodes.len(),
        ensures
            cell == old(self)@.nodes.len(),
            final(self)@ == (ParserView { nodes: old(self)@.nodes.push(param@), ..old(self)@ }),
            final(self)@.wf(),
    {
        self.arena.add(param)
    }

    /// Declares `param` as a parameter that takes arguments of the option.
    pub fn param(&mut self, param: Param) -> (cell: ParamCell)
        requires
            old(self)@.wf(),
            param@.wf(),
            forall|k: int|
                0 <= k < param@.subparams().len() ==> 0 <= #[trigger] param@.subparams()[k] < old(
                    self,
                )@.nodes.len(),
        ensures
            cell == old(self)@.nodes.len(),
            final(self)@ == (ParserView {
                nodes: old(self)@.nodes.push(param@),
                params: old(self)@.params.push(cell),
                ..old(self)@
            }),
            final(self)@.wf(),
    {
        let cell = self.arena.add(param);
        self.params.push(cell);
        cell
    }

    /// Declares a group: one complete combination of parameters.
    pub fn group(&mut self, members: Vec<ParamCell>)
        requires
            old(self)@.wf(),
            forall|m: int| 0 <= m < members@.len() ==> #[trigger] members@[m] < old(self)@.nodes.len(),
        ensures
            final(self)@ == (ParserView {
                groups: old(self)@.groups.push(members@),
                ..old(self)@
            }),
            final(self)@.wf(),
    {
        self.groups.push(members);
        assert(groups_of(self.groups@) =~= groups_of(old(self).groups@).push(members@));
    }

    /// Declares a leaf parameter that takes arguments of the option. A
    /// default must be a text of the grammar of `kind`.
    pub fn simple_param(
        &mut self,
        prefix: &'static str,
        kind: ValueKind,
        default: Option<&'static str>,
        desc: &'static str,
        required: bool,
    ) -> (handle: SimpleParamHandle)
        requires
            old(self)@.wf(),
            default matches Some(d) ==> accepts(kind, d@),
        ensures
            handle.cell() == old(self)@.nodes.len(),
            final(self)@ == (ParserView {
                nodes: old(self)@.nodes.push(
                    ParamView::Simple(
                        SimpleParamView::declared(
                            prefix@,
                            kind,
                            match default {
                                Some(d) => Some(d@),
                                None => None,
                            },
                            desc@,
                            required,
                        ),
                    ),
                ),
                params: old(self)@.params.push(handle.cell()),
                ..old(self)@
            }),
            final(self)@.wf(),
    {
        let param = Param::Simple(SimpleParam::new(prefix, kind, default, desc, required));
        SimpleParamHandle::new(self.param(param))
    }

    /// Declares a leaf parameter for use as a sub-parameter.
    pub fn simple_subparam(
        &mut self,
        prefix: &'static str,
        kind: ValueKind,
        default: Option<&'static str>,
        desc: &'static str,
        required: bool,
    ) -> (handle: SimpleParamHandle)
        requires
            old(self)@.wf(),
            default matches Some(d) ==> accepts(kind, d@),
        ensures
            handle.cell() == old(self)@.nodes.len(),
            final(self)@ == (ParserView {
                nodes: old(self)@.nodes.push(
                    ParamView::Simple(
                        SimpleParamView::declared(
                            prefix@,
                            kind,
                            match default {
                                Some(d) => Some(d@),
                                None => None,
                            },
                            desc@,
                            required,
                        ),
                    ),
                ),
                ..old(self)@
            }),
            final(self)@.wf(),
    {
        let param = Param::Simple(SimpleParam::new(prefix, kind, default, desc, required));
        SimpleParamHandle::new(self.subparam(param))
    }

    /// Declares a compound parameter that accepts no free pairs.
    pub fn multi_param(
        &mut self,
        prefix: &'static str,
        subparams: Vec<ParamCell>,
        desc: &'static str,
        required: bool,
    ) -> (handle: MultiParamHandle<RejectsArbitraryParams>)
        requires
            old(self)@.wf(),
            forall|k: int|
                0 <= k < subparams@.len() ==> #[trigger] subparams@[k] < old(self)@.nodes.len(),
        ensures
            handle.cell() == old(self)@.nodes.len(),
            final(self)@ == (ParserView {
                nodes: old(self)@.nodes.push(
                    ParamView::Multi(
                        MultiParamView::declared(prefix@, subparams@, desc@, required, false),
                    ),
                ),
                params: old(self)@.params.push(handle.cell()),
                ..old(self)@
            }),
            final(self)@.wf(),
    {
        let param = Param::Closed(MultiParam::new(prefix, subparams, desc, required));
        MultiParamHandle::new(self.param(param))
    }

    /// Declares a compound parameter that accepts free pairs.
    pub fn multi_param_arbitrary(
        &mut self,
        prefix: &'static str,
        subparams: Vec<ParamCell>,
        desc: &'static str,
        required: bool,
    ) -> (handle: MultiParamAcceptsArbitraryHandle)
        requires
            old(self)@.wf(),
            forall|k: int|
                0 <= k < subparams@.len() ==> #[trigger] subparams@[k] < old(self)@.nodes.len(),
        ensures
            handle.cell() == old(self)@.nodes.len(),
            final(self)@ == (ParserView {
                nodes: old(self)@.nodes.push(
                    ParamView::Multi(
                        MultiParamView::declared(prefix@, subparams@, desc@, required, true),
                    ),
                ),
                params: old(self)@.params.push(handle.cell()),
                ..old(self)@
            }),
            final(self)@.wf(),
    {
        let param = Param::Open(MultiParam::new(prefix, subparams, desc, required));
        MultiParamHandle::new(self.param(param))
    }

    /// Offers `token` to the parameters in the order of declaration.
    fn consume(&mut self, token: &str) -> (result: Result<(), ValidationError>)
        requires
            old(self)@.wf(),
        ensures
            match result {
                Ok(()) => consume(
                    old(self)@.nodes,
                    old(self)@.params,
                    old(self)@.cli_str,
                    token@,
                    0,
                ) == Ok::<Seq<ParamView>, ValidationErrorView>(final(self)@.nodes),
                Err(e) => consume(
                    old(self)@.nodes,
                    old(self)@.params,
                    old(self)@.cli_str,
                    token@,
                    0,
                ) == Err::<Seq<ParamView>, ValidationErrorView>(e@),
            },
            final(self)@ == (ParserView { nodes: final(self)@.nodes, ..old(self)@ }),
            taken(old(self)@.nodes, final(self)@.nodes),
            final(self)@.wf(),
    {
        let mut j: usize = 0;
        while j < self.params.len()
            invariant
                j <= self.params.len(),
                *self == *old(self),
                self@.wf(),
                consume(self@.nodes, self@.params, self@.cli_str, token@, j as int) == consume(
                    self@.nodes,
                    self@.params,
                    self@.cli_str,
                    token@,
                    0,
                ),
            decreases self.params.len() - j,
        {
            let cell = self.params[j];
            assert(self@.params[j as int] < self@.nodes.len());
            match self.arena.param(cell).try_match(token) {
                ParamMatchResult::NoMatch => {},
                ParamMatchResult::Error(e) => {
                    proof {
                        lemma_taken_self(self@.nodes);
                    }
                    return Err(e);
                },
                ParamMatchResult::Match => {
                    return self.arena.parse(cell, token);
                },
            }
            j = j + 1;
        }
        proof {
            lemma_taken_self(self@.nodes);
        }
        Err(
            ValidationError::UnrecognizedArgument {
                text: String::from_str(token),
                owner: String::from_str(self.cli_str),
            },
        )
    }

    /// Whether no member of group number `g` is missing.
    fn is_group_satisfied(&self, g: usize) -> (b: bool)
        requires
            self@.wf(),
            g < self@.groups.len(),
        ensures
            b == group_satisfied(self@.nodes, self@.groups[g as int]),
    {
        let group = &self.groups[g];
        assert(group@ == self@.groups[g as int]);
        let mut m: usize = 0;
        while m < group.len()
            invariant
                m <= group.len(),
                self@.wf(),
                g < self@.groups.len(),
                group@ == self@.groups[g as int],
                forall|n: int| 0 <= n < m ==> !is_missing(self@.nodes, #[trigger] group@[n]),
            decreases group.len() - m,
        {
            let cell = group[m];
            assert(self@.groups[g as int][m as int] < self@.nodes.len());
            let param = self.arena.param(cell);
            if param.required() && !param.supplied_by_user() {
                assert(is_missing(self@.nodes, group@[m as int]));
                return false;
            }
            m = m + 1;
        }
        true
    }

    /// Whether `cell` is a member of group number `g`.
    fn is_member(&self, g: usize, cell: ParamCell) -> (b: bool)
        requires
            g < self@.groups.len(),
        ensures
            b == self@.groups[g as int].contains(cell),
    {
        let group = &self.groups[g];
        assert(group@ == self@.groups[g as int]);
        let mut m: usize = 0;
        while m < group.len()
            invariant
                m <= group.len(),
                g < self@.groups.len(),
                group@ == self@.groups[g as int],
                forall|n: int| 0 <= n < m ==> group@[n] != cell,
            decreases group.len() - m,
        {
            if group[m] == cell {
                assert(group@[m as int] == cell);
                return true;
            }
            m = m + 1;
        }
        false
    }

    /// Whether every parameter that the user has given is a member of group
    /// number `g`.
    fn is_group_covering(&self, g: usize) -> (b: bool)
        requires
            self@.wf(),
            g < self@.groups.len(),
        ensures
            b == group_covers(self@.nodes, self@.params, self@.groups[g as int]),
    {
        let mut j: usize = 0;
        while j < self.params.len()
            invariant
                j <= self.params.len(),
                self@.wf(),
                g < self@.groups.len(),
                forall|n: int|
                    0 <= n < j ==> !is_stray(
                        self@.nodes,
                        self@.groups[g as int],
                        #[trigger] self@.params[n],
                    ),
            decreases self.params.len() - j,
        {
            let cell = self.params[j];
            assert(self@.params[j as int] < self@.nodes.len());
            if self.arena.param(cell).supplied_by_user() && !self.is_member(g, cell) {
                assert(is_stray(self@.nodes, self@.groups[g as int], self@.params[j as int]));
                return false;
            }
            j = j + 1;
        }
        true
    }

    /// The prefixes of the given parameters that are no members of group
    /// number `g`.
    fn strays_in(&self, g: usize) -> (strays: Vec<String>)
        requires
            self@.wf(),
            g < self@.groups.len(),
        ensures
            string_views(strays@) == strays_from(
                self@.nodes,
                self@.params,
                self@.groups[g as int],
                0,
            ),
    {
        let ghost group = self@.groups[g as int];
        let mut strays: Vec<String> = Vec::new();
        let mut j: usize = 0;
        assert(string_views(strays@) =~= Seq::<Seq<char>>::empty());
        while j < self.params.len()
            invariant
                j <= self.params.len(),
                self@.wf(),
                g < self@.groups.len(),
                group == self@.groups[g as int],
                string_views(strays@) + strays_from(self@.nodes, self@.params, group, j as int)
                    == strays_from(self@.nodes, self@.params, group, 0),
            decreases self.params.len() - j,
        {
            let cell = self.params[j];
            assert(self@.params[j as int] < self@.nodes.len());
            let param = self.arena.param(cell);
            if param.supplied_by_user() && !self.is_member(g, cell) {
                let ghost before = string_views(strays@);
                strays.push(String::from_str(param.prefix()));
                assert(string_views(strays@) =~= before.push(param@.prefix()));
                assert(before.push(param@.prefix()) + strays_from(
                    self@.nodes,
                    self@.params,
                    group,
                    j as int + 1,
                ) =~= before + strays_from(self@.nodes, self@.params, group, j as int));
            }
            j = j + 1;
        }
        assert(string_views(strays@) + Seq::<Seq<char>>::empty() =~= string_views(strays@));
        strays
    }

    /// The prefixes of the missing members of group number `g`.
    fn missing_in(&self, g: usize) -> (missing: Vec<String>)
        requires
            self@.wf(),
            g < self@.groups.len(),
        ensures
            string_views(missing@) == missing_from(self@.nodes, self@.groups[g as int], 0),
    {
        let group = &self.groups[g];
        assert(group@ == self@.groups[g as int]);
        let mut missing: Vec<String> = Vec::new();
        let mut m: usize = 0;
        assert(string_views(missing@) =~= Seq::<Seq<char>>::empty());
        while m < group.len()
            invariant
                m <= group.len(),
                self@.wf(),
                g < self@.groups.len(),
                group@ == self@.groups[g as int],
                string_views(missing@) + missing_from(self@.nodes, group@, m as int)
                    == missing_from(self@.nodes, group@, 0),
            decreases group.len() - m,
        {
            let cell = group[m];
            assert(self@.groups[g as int][m as int] < self@.nodes.len());
            let param = self.arena.param(cell);
            if param.required() && !param.supplied_by_user() {
                let ghost before = string_views(missing@);
                missing.push(String::from_str(param.prefix()));
                assert(string_views(missing@) =~= before.push(param@.prefix()));
                assert(before.push(param@.prefix()) + missing_from(
                    self@.nodes,
                    group@,
                    m as int + 1,
                ) =~= before + missing_from(self@.nodes, group@, m as int));
            }
            m = m + 1;
        }
        assert(string_views(missing@) + Seq::<Seq<char>>::empty() =~= string_views(missing@));
        missing
    }

    /// The pass over the user's arguments. Each argument goes to the first
    /// parameter, in the order of declaration, that makes something of it.
    /// Then the first group, in the order of declaration, that fits is
    /// chosen, and its members are marked as satisfied.
    pub fn parse(&mut self, args: Vec<&str>) -> (result: Result<(), ValidationError>)
        requires
            old(self)@.wf(),
        ensures
            match result {
                Ok(()) => old(self)@.parse(views(args@)) == Ok::<ParserView, ValidationErrorView>(
                    final(self)@,
                ),
                Err(e) => {
                    &&& old(self)@.parse(views(args@)) == Err::<ParserView, ValidationErrorView>(
                        e@,
                    )
                    &&& final(self)@ == (ParserView { nodes: final(self)@.nodes, ..old(self)@ })
                    &&& taken(old(self)@.nodes, final(self)@.nodes)
                },
            },
            final(self)@.nodes.len() == old(self)@.nodes.len(),
            final(self)@.wf(),
    {
        let ghost tokens = views(args@);
        let mut k: usize = 0;
        proof {
            lemma_taken_self(self@.nodes);
        }
        while k < args.len()
            invariant
                k <= args.len(),
                tokens == views(args@),
                self@.wf(),
                self@ == (ParserView { nodes: self@.nodes, ..old(self)@ }),
                taken(old(self)@.nodes, self@.nodes),
                consume_all(self@.nodes, self@.params, self@.cli_str, tokens, k as int)
                    == consume_all(
                    old(self)@.nodes,
                    old(self)@.params,
                    old(self)@.cli_str,
                    tokens,
                    0,
                ),
            decreases args.len() - k,
        {
            let ghost before = self@.nodes;
            let outcome = self.consume(args[k]);
            proof {
                lemma_taken_twice(old(self)@.nodes, before, self@.nodes);
            }
            match outcome {
                Ok(()) => {},
                Err(e) => {
                    return Err(e);
                },
            }
            k = k + 1;
        }
        let ghost consumed = self@.nodes;
        assert(consume_all(
            old(self)@.nodes,
            old(self)@.params,
            old(self)@.cli_str,
            tokens,
            0,
        ) == Ok::<Seq<ParamView>, ValidationErrorView>(consumed));
        let mut g: usize = 0;
        while g < self.groups.len()
            invariant
                g <= self.groups.len(),
                self@.wf(),
                self@ == (ParserView { nodes: consumed, ..old(self)@ }),
                taken(old(self)@.nodes, consumed),
                tokens == views(args@),
                consume_all(
                    old(self)@.nodes,
                    old(self)@.params,
                    old(self)@.cli_str,
                    tokens,
                    0,
                ) == Ok::<Seq<ParamView>, ValidationErrorView>(consumed),
                first_fitting(consumed, self@.params, self@.groups, g as int) == first_fitting(
                    consumed,
                    self@.params,
                    self@.groups,
                    0,
                ),
            decreases self.groups.len() - g,
        {
            if self.is_group_satisfied(g) && self.is_group_covering(g) {
                assert(first_fitting(consumed, self@.params, self@.groups, 0) == Some(g as int));
                self.satisfy_group(g);
                self.chosen = Some(g);
                assert(self@ == (ParserView {
                    nodes: satisfy_cells(
                        consumed,
                        old(self)@.groups[g as int],
                        consumed.len() as int,
                        0,
                    ),
                    chosen: Some(g as int),
                    ..old(self)@
                }));
                return Ok(());
            }
            g = g + 1;
        }
        let mut missing: Vec<Vec<String>> = Vec::new();
        let mut unexpected: Vec<Vec<String>> = Vec::new();
        let mut g: usize = 0;
        while g < self.groups.len()
            invariant
                g <= self.groups.len(),
                self@.wf(),
                self@ == (ParserView { nodes: consumed, ..old(self)@ }),
                missing@.len() == g,
                unexpected@.len() == g,
                forall|h: int|
                    0 <= h < g ==> string_views((#[trigger] missing@[h])@) == missing_from(
                        consumed,
                        self@.groups[h],
                        0,
                    ),
                forall|h: int|
                    0 <= h < g ==> string_views((#[trigger] unexpected@[h])@) == strays_from(
                        consumed,
                        self@.params,
                        self@.groups[h],
                        0,
                    ),
            decreases self.groups.len() - g,
        {
            missing.push(self.missing_in(g));
            unexpected.push(self.strays_in(g));
            g = g + 1;
        }
        assert(missing.deep_view() =~= missing_by_group(consumed, self@.groups)) by {
            assert forall|h: int| 0 <= h < missing@.len() implies missing.deep_view()[h]
                == missing_by_group(consumed, self@.groups)[h] by {
                assert(missing.deep_view()[h] =~= string_views(missing@[h]@));
            }
        }
        assert(unexpected.deep_view() =~= strays_by_group(consumed, self@.params, self@.groups)) by {
            assert forall|h: int| 0 <= h < unexpected@.len() implies unexpected.deep_view()[h]
                == strays_by_group(consumed, self@.params, self@.groups)[h] by {
                assert(unexpected.deep_view()[h] =~= string_views(unexpected@[h]@));
            }
        }
        Err(ValidationError::UnsatisfiedGroup { missing, unexpected })
    }

    /// Marks the members of group number `g` as satisfied.
    fn satisfy_group(&mut self, g: usize)
        requires
            g < old(self)@.groups.len(),
        ensures
            final(self)@ == (ParserView {
                nodes: satisfy_cells(
                    old(self)@.nodes,
                    old(self)@.groups[g as int],
                    old(self)@.nodes.len() as int,
                    0,
                ),
                ..old(self)@
            }),
            final(self)@.nodes.len() == old(self)@.nodes.len(),
            old(self)@.wf() ==> final(self)@.wf(),
    {
        let ghost group = self@.groups[g as int];
        let ghost bound = self@.nodes.len() as int;
        let count = self.groups[g].len();
        assert(self.groups@[g as int]@ == group);
        let mut m: usize = 0;
        while m < count
            invariant
                m <= count,
                count == group.len(),
                g < self@.groups.len(),
                self@.groups[g as int] == group,
                self@ == (ParserView { nodes: self@.nodes, ..old(self)@ }),
                self@.nodes.len() == bound,
                old(self)@.wf() ==> self@.wf(),
                satisfy_cells(self@.nodes, group, bound, m as int) == satisfy_cells(
                    old(self)@.nodes,
                    group,
                    bound,
                    0,
                ),
            decreases count - m,
        {
            assert(self.groups@[g as int]@ == group);
            let cell = self.groups[g][m];
            let ghost before = self@;
            if cell < self.arena.len() {
                self.arena.set_satisfied(cell);
            }
            assert(before.wf() ==> self@.wf()) by {
                if before.wf() {
                    assert(self@.params == before.params);
                    assert(self@.groups == before.groups);
                    assert(self@.nodes.len() == before.nodes.len());
                }
            }
            m = m + 1;
        }
    }

    /// The help text of the option. The parser is left as it is.
    pub fn print_help(&self) -> (text: String)
        ensures
            text@ == help_of(self@),
    {
        let mut text = String::new();
        let mut g: usize = 0;
        assert(text@ + usage_lines(self@, 0) =~= usage_lines(self@, 0));
        while g < self.groups.len()
            invariant
                g <= self.groups.len(),
                text@ + usage_lines(self@, g as int) == usage_lines(self@, 0),
            decreases self.groups.len() - g,
        {
            let ghost before = text@;
            if g > 0 {
                text.append(" OR \n");
            }
            text.append("Usage: ");
            text.append(self.cli_str);
            assert(self.groups@[g as int]@ == self@.groups[g as int]);
            self.arena.push_usages(&self.groups[g], " ", &mut text);
            text.append("\n");
            assert(text@ + usage_lines(self@, g as int + 1) =~= before + usage_lines(
                self@,
                g as int,
            ));
            g = g + 1;
        }
        assert(text@ + Seq::<char>::empty() =~= text@);
        text.append("\n");
        self.arena.push_descs(&self.params, "  ", self.arena.len(), &mut text);
        text
    }

    /// The group that the pass has chosen, if a pass has succeeded.
    pub fn chosen(&self) -> (g: Option<usize>)
        ensures
            match g {
                Some(g) => self@.chosen == Some(g as int),
                None => self@.chosen is None,
            },
    {
        self.chosen
    }

    /// The parameter in `cell`.
    pub fn get_param(&self, cell: ParamCell) -> (param: &Param)
        requires
            cell < self@.nodes.len(),
        ensures
            param@ == self@.nodes[cell as int],
    {
        self.arena.param(cell)
    }

    /// Takes the parameter out of `cell` and leaves the mark of a consumed one.
    pub fn take_param(&mut self, cell: ParamCell) -> (param: Param)
        requires
            cell < old(self)@.nodes.len(),
        ensures
            param@ == old(self)@.nodes[cell as int],
            final(self)@ == (ParserView {
                nodes: old(self)@.nodes.update(cell as int, ParamView::Consumed),
                ..old(self)@
            }),
            old(self)@.wf() ==> final(self)@.wf(),
    {
        self.arena.take(cell)
    }
}

/// The caller's hold on a leaf parameter of a parser.
pub struct SimpleParamHandle {
    cell: ParamCell,
}

impl SimpleParamHandle {
    /// A hold on the parameter in `cell`.
    pub fn new(cell: ParamCell) -> (handle: Self)
        ensures
            handle.cell() == cell,
    {
        SimpleParamHandle { cell }
    }

    /// The cell of the parameter.
    #[verifier::when_used_as_spec(spec_cell)]
    pub fn cell(&self) -> (cell: ParamCell)
        ensures
            cell == self.spec_cell(),
    {
        self.cell
    }

    pub closed spec fn spec_cell(&self) -> ParamCell {
        self.cell
    }

    /// Whether the user has given the parameter.
    pub fn supplied_by_user(&self, parser: &ParamsParser) -> (b: bool)
        requires
            self.cell() < parser@.nodes.len(),
        ensures
            b == parser@.nodes[self.cell() as int].supplied_by_user(),
    {
        parser.get_param(self.cell).supplied_by_user()
    }

    /// Whether the parameter has been marked as satisfied, and so can be read.
    pub fn satisfied(&self, parser: &ParamsParser) -> (b: bool)
        requires
            self.cell() < parser@.nodes.len(),
        ensures
            b == parser@.nodes[self.cell() as int].satisfied(),
    {
        parser.get_param(self.cell).satisfied()
    }

    /// The value of the parameter if it is satisfied and has one. A satisfied
    /// parameter is used up: its cell is left consumed. Another is left as
    /// it is.
    pub fn get_if_satisfied(self, parser: &mut ParamsParser) -> (value: Option<Value>)
        requires
            self.cell() < old(parser)@.nodes.len(),
        ensures
            final(parser)@ == (ParserView {
                nodes: read(old(parser)@.nodes, self.cell()).0,
                ..old(parser)@
            }),
            match value {
                Some(v) => read(old(parser)@.nodes, self.cell()).1 == Some(v@),
                None => read(old(parser)@.nodes, self.cell()).1 is None,
            },
            old(parser)@.wf() ==> final(parser)@.wf(),
    {
        if self.satisfied(parser) {
            match parser.get_param(self.cell) {
                Param::Simple(_) => self.get(parser),
                _ => None,
            }
        } else {
            None
        }
    }

    /// The value of the parameter, which is satisfied, if it has one. The
    /// parameter is used up: its cell is left consumed.
    pub fn get(self, parser: &mut ParamsParser) -> (value: Option<Value>)
        requires
            self.cell() < old(parser)@.nodes.len(),
            old(parser)@.nodes[self.cell() as int] matches ParamView::Simple(p) && p.satisfied,
        ensures
            final(parser)@ == (ParserView {
                nodes: old(parser)@.nodes.update(self.cell() as int, ParamView::Consumed),
                ..old(parser)@
            }),
            match value {
                Some(v) => {
                    &&& old(parser)@.nodes[self.cell() as int]->Simple_0.value == Some(v@)
                    &&& v@.kind() == old(parser)@.nodes[self.cell() as int]->Simple_0.kind
                },
                None => old(parser)@.nodes[self.cell() as int]->Simple_0.value is None,
            },
    {
        match parser.take_param(self.cell) {
            Param::Simple(p) => p.get(),
            _ => None,
        }
    }
}

/// A pass that succeeds has chosen the first group, in the order of
/// declaration, that fits the parameters as the arguments have left them:
/// no group declared before the chosen one fits, whether or not one declared
/// after it does.
pub proof fn lemma_parse_chooses_first_fitting(view: ParserView, tokens: Seq<Seq<char>>)
    requires
        view.parse(tokens) is Ok,
    ensures
        ({
            let consumed = consume_all(view.nodes, view.params, view.cli_str, tokens, 0)->Ok_0;
            let chosen = view.parse(tokens)->Ok_0.chosen;
            &&& chosen is Some
            &&& 0 <= chosen->0 < view.groups.len()
            &&& group_fits(consumed, view.params, view.groups[chosen->0])
            &&& forall|h: int|
                0 <= h < chosen->0 ==> !group_fits(consumed, view.params, #[trigger] view.groups[h])
        }),
{
    let consumed = consume_all(view.nodes, view.params, view.cli_str, tokens, 0)->Ok_0;
    lemma_first_fitting_is_first(consumed, view.params, view.groups, 0);
}

/// An argument that goes to a parameter which the user has given before is
/// a duplicate: the pass stops at it, whatever the argument holds behind the
/// prefix. The argument goes to the parameter in `params[j]` where no
/// parameter declared before it makes anything of the argument.
pub proof fn lemma_duplicate_supply(
    nodes: Seq<ParamView>,
    params: Seq<ParamCell>,
    owner: Seq<char>,
    token: Seq<char>,
    j: int,
    from: int,
)
    requires
        0 <= from <= j < params.len(),
        params[j] < nodes.len(),
        nodes[params[j] as int] !is Consumed,
        nodes[params[j] as int].prefix().is_prefix_of(token),
        nodes[params[j] as int].supplied_by_user(),
        forall|i: int|
            from <= i < j && params[i] < nodes.len() ==> nodes[#[trigger] params[i] as int].try_match(
                token,
            ) is NoMatch,
    ensures
        consume(nodes, params, owner, token, from) == Err::<Seq<ParamView>, ValidationErrorView>(
            ValidationErrorView::DuplicateSupply { name: nodes[params[j] as int].prefix() },
        ),
    decreases j - from,
{
    if from < j {
        lemma_duplicate_supply(nodes, params, owner, token, j, from + 1);
    }
}

/// Consuming a token changes no declaration.
pub proof fn lemma_consume_taken(
    nodes: Seq<ParamView>,
    params: Seq<ParamCell>,
    owner: Seq<char>,
    token: Seq<char>,
    j: int,
)
    ensures
        consume(nodes, params, owner, token, j) matches Ok(after) ==> taken(nodes, after),
    decreases params.len() - j,
{
    if 0 <= j < params.len() {
        if params[j] < nodes.len() {
            match nodes[params[j] as int].try_match(token) {
                MatchView::NoMatch => {
                    lemma_consume_taken(nodes, params, owner, token, j + 1);
                },
                MatchView::Error(e) => {},
                MatchView::Match => {
                    lemma_parse_node_taken(nodes, params[j] as int, token);
                },
            }
        } else {
            lemma_consume_taken(nodes, params, owner, token, j + 1);
        }
    }
}

/// Consuming tokens changes no declaration.
pub proof fn lemma_consume_all_taken(
    nodes: Seq<ParamView>,
    params: Seq<ParamCell>,
    owner: Seq<char>,
    tokens: Seq<Seq<char>>,
    k: int,
)
    ensures
        consume_all(nodes, params, owner, tokens, k) matches Ok(after) ==> taken(nodes, after),
    decreases tokens.len() - k,
{
    if 0 <= k < tokens.len() {
        lemma_consume_taken(nodes, params, owner, tokens[k], 0);
        if let Ok(next) = consume(nodes, params, owner, tokens[k], 0) {
            lemma_consume_all_taken(next, params, owner, tokens, k + 1);
            if let Ok(after) = consume_all(next, params, owner, tokens, k + 1) {
                assert forall|i: int| 0 <= i < nodes.len() implies (#[trigger] nodes[i]).takes_to(
                    after[i],
                ) by {
                    assert(nodes[i].takes_to(next[i]));
                    assert(next[i].takes_to(after[i]));
                }
            }
        }
    } else {
        assert(taken(nodes, nodes));
    }
}

/// Whether a group fits depends on which parameters are required and which
/// are supplied, and on nothing else.
pub proof fn lemma_fits_alike(
    before: Seq<ParamView>,
    after: Seq<ParamView>,
    params: Seq<ParamCell>,
    group: Seq<ParamCell>,
)
    requires
        before.len() == after.len(),
        forall|i: int|
            0 <= i < before.len() ==> (#[trigger] before[i]).required() == after[i].required()
                && before[i].supplied_by_user() == after[i].supplied_by_user(),
    ensures
        group_fits(before, params, group) == group_fits(after, params, group),
{
    assert forall|m: int| 0 <= m < group.len() implies is_missing(before, #[trigger] group[m])
        == is_missing(after, group[m]) by {
        if group[m] < before.len() {
            assert(before[group[m] as int].required() == after[group[m] as int].required());
        }
    }
    assert forall|j: int| 0 <= j < params.len() implies is_stray(before, group, #[trigger] params[j])
        == is_stray(after, group, params[j]) by {
        if params[j] < before.len() {
            assert(before[params[j] as int].required() == after[params[j] as int].required());
        }
    }
    if group_fits(before, params, group) {
        assert(group_satisfied(after, group)) by {
            assert forall|m: int| 0 <= m < group.len() implies !is_missing(
                after,
                #[trigger] group[m],
            ) by {
                assert(!is_missing(before, group[m]));
            }
        }
        assert(group_covers(after, params, group)) by {
            assert forall|j: int| 0 <= j < params.len() implies !is_stray(
                after,
                group,
                #[trigger] params[j],
            ) by {
                assert(!is_stray(before, group, params[j]));
            }
        }
    }
    if group_fits(after, params, group) {
        assert(group_satisfied(before, group)) by {
            assert forall|m: int| 0 <= m < group.len() implies !is_missing(
                before,
                #[trigger] group[m],
            ) by {
                assert(!is_missing(after, group[m]));
            }
        }
        assert(group_covers(before, params, group)) by {
            assert forall|j: int| 0 <= j < params.len() implies !is_stray(
                before,
                group,
                #[trigger] params[j],
            ) by {
                assert(!is_stray(after, group, params[j]));
            }
        }
    }
}

/// What a pass that succeeds leaves behind. Every parameter is declared as
/// it was, and in order if it was. The chosen group fits, and no group
/// declared before it does. Every member of the chosen group is satisfied,
/// and so can be read.
pub proof fn lemma_pass_satisfies_chosen_group(view: ParserView, tokens: Seq<Seq<char>>)
    requires
        view.wf(),
        view.parse(tokens) is Ok,
    ensures
        ({
            let after = view.parse(tokens)->Ok_0;
            let g = after.chosen->0;
            &&& after.chosen is Some
            &&& 0 <= g < view.groups.len()
            &&& after.nodes.len() == view.nodes.len()
            &&& after.params == view.params
            &&& after.groups == view.groups
            &&& after.cli_str == view.cli_str
            &&& forall|i: int|
                0 <= i < view.nodes.len() ==> (#[trigger] view.nodes[i]).same_declaration(
                    after.nodes[i],
                )
            &&& forall|i: int|
                0 <= i < view.nodes.len() && view.nodes[i].wf() ==> (#[trigger] after.nodes[i]).wf()
            &&& forall|m: int|
                0 <= m < view.groups[g].len() && view.nodes[view.groups[g][m] as int] !is Consumed
                    ==> after.nodes[#[trigger] view.groups[g][m] as int].satisfied()
            &&& group_fits(after.nodes, view.params, view.groups[g])
            &&& forall|h: int|
                0 <= h < g ==> !group_fits(after.nodes, view.params, #[trigger] view.groups[h])
        }),
{
    let consumed = consume_all(view.nodes, view.params, view.cli_str, tokens, 0)->Ok_0;
    let after = view.parse(tokens)->Ok_0;
    let g = after.chosen->0;
    let group = view.groups[g];
    lemma_consume_all_taken(view.nodes, view.params, view.cli_str, tokens, 0);
    lemma_first_fitting_is_first(consumed, view.params, view.groups, 0);
    lemma_satisfy_cells_marked(consumed, group, consumed.len() as int, 0);
    assert forall|i: int| 0 <= i < view.nodes.len() implies (#[trigger] view.nodes[i]).same_declaration(
        after.nodes[i],
    ) && (view.nodes[i].wf() ==> after.nodes[i].wf()) by {
        assert(view.nodes[i].takes_to(consumed[i]));
        assert(consumed[i].marks_to(after.nodes[i]));
    }
    assert forall|m: int|
        0 <= m < group.len() && view.nodes[group[m] as int] !is Consumed implies after.nodes[#[trigger] group[m] as int].satisfied() by {
        let c = group[m] as int;
        assert(view.nodes[c].takes_to(consumed[c]));
    }
    assert forall|i: int| 0 <= i < consumed.len() implies (#[trigger] consumed[i]).required()
        == after.nodes[i].required() && consumed[i].supplied_by_user()
        == after.nodes[i].supplied_by_user() by {
        assert(consumed[i].marks_to(after.nodes[i]));
    }
    lemma_fits_alike(consumed, after.nodes, view.params, group);
    assert forall|h: int| 0 <= h < g implies !group_fits(
        after.nodes,
        view.params,
        #[trigger] view.groups[h],
    ) by {
        lemma_fits_alike(consumed, after.nodes, view.params, view.groups[h]);
    }
}

} // verus!
