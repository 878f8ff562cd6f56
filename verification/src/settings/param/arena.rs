//! The parameters of one option, held side by side. A parameter is known by
//! its place, its cell; groups and compound parameters hold cells, so that one
//! parameter can stand in several of them.

use super::error::{ValidationError, ValidationErrorView};
use super::multi_param::{
    AcceptsArbitraryParams,
    MultiParam,
    MultiParamView,
    ParamCell,
    RejectsArbitraryParams,
};
use super::simple_param::{MatchView, ParamMatchResult, SimpleParam, SimpleParamView};
use super::text::views;
use vstd::prelude::*;

verus! {

/// A parameter of either kind, or the mark that is left where a parameter has
/// been taken out.
pub enum Param {
    Simple(SimpleParam),
    /// A compound parameter that accepts free pairs.
    Open(MultiParam<AcceptsArbitraryParams>),
    /// A compound parameter that accepts none.
    Closed(MultiParam<RejectsArbitraryParams>),
    Consumed,
}

/// A [`Param`] as a view; the two kinds of compound parameter differ in
/// `accepts_arbitrary`.
pub enum ParamView {
    Simple(SimpleParamView),
    Multi(MultiParamView),
    Consumed,
}

impl View for Param {
    type V = ParamView;

    open spec fn view(&self) -> ParamView {
        match self {
            Param::Simple(p) => ParamView::Simple(p@),
            Param::Open(m) => ParamView::Multi(m@),
            Param::Closed(m) => ParamView::Multi(m@),
            Param::Consumed => ParamView::Consumed,
        }
    }
}

impl ParamView {
    /// The prefix by which the parameter is known; a consumed one has none.
    pub open spec fn prefix(self) -> Seq<char> {
        match self {
            ParamView::Simple(p) => p.prefix,
            ParamView::Multi(m) => m.prefix,
            ParamView::Consumed => Seq::empty(),
        }
    }

    pub open spec fn required(self) -> bool {
        match self {
            ParamView::Simple(p) => p.required,
            ParamView::Multi(m) => m.required,
            ParamView::Consumed => false,
        }
    }

    pub open spec fn supplied_by_user(self) -> bool {
        match self {
            ParamView::Simple(p) => p.supplied_by_user,
            ParamView::Multi(m) => m.supplied_by_user,
            ParamView::Consumed => false,
        }
    }

    pub open spec fn satisfied(self) -> bool {
        match self {
            ParamView::Simple(p) => p.satisfied,
            ParamView::Multi(m) => m.satisfied,
            ParamView::Consumed => false,
        }
    }

    /// The sub-parameters of a compound parameter; another has none.
    pub open spec fn subparams(self) -> Seq<ParamCell> {
        match self {
            ParamView::Multi(m) => m.subparams,
            _ => Seq::empty(),
        }
    }

    /// What the parameter holds is in order; see [`SimpleParamView::wf`].
    pub open spec fn wf(self) -> bool {
        self matches ParamView::Simple(p) ==> p.wf()
    }

    /// What the parameter makes of `arg`. A consumed one takes nothing.
    pub open spec fn try_match(self, arg: Seq<char>) -> MatchView {
        match self {
            ParamView::Simple(p) => p.try_match(arg),
            ParamView::Multi(m) => m.try_match(arg),
            ParamView::Consumed => MatchView::NoMatch,
        }
    }
}

/// The views of a list of parameters.
pub open spec fn views_of(nodes: Seq<Param>) -> Seq<ParamView> {
    Seq::new(nodes.len(), |i: int| nodes[i]@)
}

/// Every sub-parameter of a compound parameter stands before it, and what
/// each parameter holds is in order.
pub open spec fn wf(nodes: Seq<ParamView>) -> bool {
    &&& forall|i: int, k: int|
        0 <= i < nodes.len() && 0 <= k < nodes[i].subparams().len() ==> 0 <= (
        #[trigger] nodes[i].subparams()[k]) < i
    &&& forall|i: int| 0 <= i < nodes.len() ==> (#[trigger] nodes[i]).wf()
}

/// The parameters after the one in cell `i` has taken `arg`, or the first
/// fault. A leaf stores its value. A compound parameter is marked as supplied
/// and takes the fragments between its parentheses one by one.
pub open spec fn parse_node(nodes: Seq<ParamView>, i: int, arg: Seq<char>) -> Result<
    Seq<ParamView>,
    ValidationErrorView,
>
    decreases i, 2int, 0int,
{
    if 0 <= i < nodes.len() {
        match nodes[i] {
            ParamView::Simple(p) => match p.parse(arg) {
                Ok(q) => Ok(nodes.update(i, ParamView::Simple(q))),
                Err(e) => Err(e),
            },
            ParamView::Multi(m) => parse_fragments(
                nodes.update(i, ParamView::Multi(m.supplied())),
                i,
                m.fragments(arg),
                0,
            ),
            ParamView::Consumed => Ok(nodes),
        }
    } else {
        Ok(nodes)
    }
}

/// The parameters after the compound parameter in cell `i` has taken the
/// fragments `fragments[k..]` in order, or the first fault.
pub open spec fn parse_fragments(
    nodes: Seq<ParamView>,
    i: int,
    fragments: Seq<Seq<char>>,
    k: int,
) -> Result<Seq<ParamView>, ValidationErrorView>
    decreases i, 1int, fragments.len() - k,
{
    if 0 <= k < fragments.len() && 0 <= i {
        match parse_fragment(nodes, i, fragments[k]) {
            Ok(next) => parse_fragments(next, i, fragments, k + 1),
            Err(e) => Err(e),
        }
    } else {
        Ok(nodes)
    }
}

/// The parameters after the compound parameter in cell `i` has taken one
/// fragment. The first sub-parameter, in the order of declaration, that makes
/// something of the fragment decides: it takes the fragment, or the fragment
/// is at fault. Where none does, the fragment is offered as a free pair.
pub open spec fn parse_fragment(nodes: Seq<ParamView>, i: int, fragment: Seq<char>) -> Result<
    Seq<ParamView>,
    ValidationErrorView,
>
    decreases i, 0int, nodes[i].subparams().len() + 1,
{
    if 0 <= i < nodes.len() && nodes[i] is Multi {
        match parse_predefined(nodes, i, fragment, 0) {
            Some(outcome) => outcome,
            None => match nodes[i]->Multi_0.with_pair(fragment) {
                Ok(m) => Ok(nodes.update(i, ParamView::Multi(m))),
                Err(e) => Err(e),
            },
        }
    } else {
        Ok(nodes)
    }
}

/// What the sub-parameters from number `j` on, of the compound parameter in
/// cell `i`, make of a fragment: nothing, where none of them takes it; else
/// the outcome of the first that does.
pub open spec fn parse_predefined(
    nodes: Seq<ParamView>,
    i: int,
    fragment: Seq<char>,
    j: int,
) -> Option<Result<Seq<ParamView>, ValidationErrorView>>
    decreases i, 0int, nodes[i].subparams().len() - j,
{
    let cells = nodes[i].subparams();
    if 0 <= j < cells.len() && 0 <= cells[j] < i && i < nodes.len() {
        match nodes[cells[j] as int].try_match(fragment) {
            MatchView::NoMatch => parse_predefined(nodes, i, fragment, j + 1),
            MatchView::Error(e) => Some(Err(e)),
            MatchView::Match => Some(parse_node(nodes, cells[j] as int, fragment)),
        }
    } else {
        None
    }
}

/// The parameters after the one in cell `i` has been marked as satisfied. A
/// compound parameter hands the mark on to its sub-parameters and then lets go
/// of them.
pub open spec fn satisfy_node(nodes: Seq<ParamView>, i: int) -> Seq<ParamView>
    decreases i, 1int, 0int,
{
    if 0 <= i < nodes.len() {
        match nodes[i] {
            ParamView::Simple(p) => nodes.update(i, ParamView::Simple(p.set_satisfied())),
            ParamView::Multi(m) => {
                let marked = satisfy_cells(nodes, m.subparams, i, 0);
                match marked[i] {
                    ParamView::Multi(n) => marked.update(i, ParamView::Multi(n.released())),
                    _ => marked,
                }
            },
            ParamView::Consumed => nodes,
        }
    } else {
        nodes
    }
}

/// The parameters after those in `cells[j..]` that stand before `bound` have
/// been marked as satisfied, in order.
pub open spec fn satisfy_cells(
    nodes: Seq<ParamView>,
    cells: Seq<ParamCell>,
    bound: int,
    j: int,
) -> Seq<ParamView>
    decreases bound, 0int, cells.len() - j,
{
    if 0 <= j < cells.len() {
        if 0 <= cells[j] < bound {
            satisfy_cells(satisfy_node(nodes, cells[j] as int), cells, bound, j + 1)
        } else {
            satisfy_cells(nodes, cells, bound, j + 1)
        }
    } else {
        nodes
    }
}

/// Parameters that have the sub-parameters of well-formed ones, cell by cell,
/// are well formed.
proof fn lemma_same_subparams_wf(before: Seq<ParamView>, after: Seq<ParamView>)
    requires
        wf(before),
        before.len() == after.len(),
        forall|i: int| 0 <= i < before.len() ==> before[i].subparams() == after[i].subparams(),
        forall|i: int| 0 <= i < after.len() ==> (#[trigger] after[i]).wf(),
    ensures
        wf(after),
{
    assert forall|i: int, k: int|
        0 <= i < after.len() && 0 <= k < after[i].subparams().len() implies 0 <= (
    #[trigger] after[i].subparams()[k]) < i by {
        assert(before[i].subparams()[k] == after[i].subparams()[k]);
    }
}

/// Parameters stay well formed when one of them lets go of its
/// sub-parameters.
proof fn lemma_fewer_subparams_wf(before: Seq<ParamView>, after: Seq<ParamView>, cell: int)
    requires
        wf(before),
        before.len() == after.len(),
        0 <= cell < before.len(),
        after[cell].subparams().len() == 0 || after[cell].subparams() == before[cell].subparams(),
        forall|i: int|
            0 <= i < before.len() && i != cell ==> before[i].subparams() == after[i].subparams(),
        forall|i: int| 0 <= i < after.len() ==> (#[trigger] after[i]).wf(),
    ensures
        wf(after),
{
    assert forall|i: int, k: int|
        0 <= i < after.len() && 0 <= k < after[i].subparams().len() implies 0 <= (
    #[trigger] after[i].subparams()[k]) < i by {
        assert(before[i].subparams()[k] == after[i].subparams()[k]);
    }
}

impl Param {
    /// What the parameter makes of `arg`.
    pub fn try_match(&self, arg: &str) -> (result: ParamMatchResult)
        ensures
            result@ == self@.try_match(arg@),
    {
        match self {
            Param::Simple(p) => p.try_match(arg),
            Param::Open(m) => m.try_match(arg),
            Param::Closed(m) => m.try_match(arg),
            Param::Consumed => ParamMatchResult::NoMatch,
        }
    }

    /// The prefix by which the parameter is known; a consumed one has none.
    pub fn prefix(&self) -> (prefix: &'static str)
        ensures
            prefix@ == self@.prefix(),
    {
        match self {
            Param::Simple(p) => p.prefix(),
            Param::Open(m) => m.prefix(),
            Param::Closed(m) => m.prefix(),
            Param::Consumed => {
                proof {
                    reveal_strlit("");
                }
                assert(""@ =~= Seq::<char>::empty());
                ""
            },
        }
    }

    /// Whether the user has given the parameter.
    pub fn supplied_by_user(&self) -> (b: bool)
        ensures
            b == self@.supplied_by_user(),
    {
        match self {
            Param::Simple(p) => p.supplied_by_user(),
            Param::Open(m) => m.supplied_by_user(),
            Param::Closed(m) => m.supplied_by_user(),
            Param::Consumed => false,
        }
    }

    /// Whether the parameter must be given.
    pub fn required(&self) -> (b: bool)
        ensures
            b == self@.required(),
    {
        match self {
            Param::Simple(p) => p.required(),
            Param::Open(m) => m.required(),
            Param::Closed(m) => m.required(),
            Param::Consumed => false,
        }
    }

    /// Whether the parameter has been marked as satisfied.
    pub fn satisfied(&self) -> (b: bool)
        ensures
            b == self@.satisfied(),
    {
        match self {
            Param::Simple(p) => p.satisfied(),
            Param::Open(m) => m.satisfied(),
            Param::Closed(m) => m.satisfied(),
            Param::Consumed => false,
        }
    }

    /// The sub-parameters of a compound parameter; another has none.
    fn subparams(&self) -> (cells: Vec<ParamCell>)
        ensures
            cells@ == self@.subparams(),
    {
        match self {
            Param::Open(m) => m.subparams().clone(),
            Param::Closed(m) => m.subparams().clone(),
            _ => Vec::new(),
        }
    }
}

/// The parameters of one option.
pub struct ParamArena {
    nodes: Vec<Param>,
}

impl View for ParamArena {
    type V = Seq<ParamView>;

    closed spec fn view(&self) -> Seq<ParamView> {
        views_of(self.nodes@)
    }
}

impl ParamArena {
    /// No parameters.
    pub fn new() -> (arena: Self)
        ensures
            arena@ == Seq::<ParamView>::empty(),
    {
        let arena = ParamArena { nodes: Vec::new() };
        assert(arena@ =~= Seq::<ParamView>::empty());
        arena
    }

    /// The number of cells.
    pub fn len(&self) -> (n: usize)
        ensures
            n == self@.len(),
    {
        self.nodes.len()
    }

    /// Puts `param` into a new cell, the last. Its sub-parameters must be in
    /// place already.
    pub fn add(&mut self, param: Param) -> (cell: ParamCell)
        requires
            wf(old(self)@),
            param@.wf(),
            forall|k: int|
                0 <= k < param@.subparams().len() ==> 0 <= #[trigger] param@.subparams()[k] < old(
                    self,
                )@.len(),
        ensures
            cell == old(self)@.len(),
            final(self)@ == old(self)@.push(param@),
            wf(final(self)@),
    {
        let cell = self.nodes.len();
        self.nodes.push(param);
        assert(self@ =~= old(self)@.push(param@));
        cell
    }

    /// The parameter in `cell`.
    pub fn param(&self, cell: ParamCell) -> (param: &Param)
        requires
            cell < self@.len(),
        ensures
            param@ == self@[cell as int],
    {
        &self.nodes[cell]
    }

    /// Takes the parameter out of `cell` and leaves the mark of a consumed one.
    pub fn take(&mut self, cell: ParamCell) -> (param: Param)
        requires
            cell < old(self)@.len(),
        ensures
            param@ == old(self)@[cell as int],
            final(self)@ == old(self)@.update(cell as int, ParamView::Consumed),
            wf(old(self)@) ==> wf(final(self)@),
    {
        let mut param = Param::Consumed;
        core::mem::swap(&mut self.nodes[cell], &mut param);
        assert(self@ =~= old(self)@.update(cell as int, ParamView::Consumed));
        param
    }

    /// The parameter in `cell` takes `arg`, which starts with its prefix.
    pub fn parse(&mut self, cell: ParamCell, arg: &str) -> (result: Result<(), ValidationError>)
        requires
            wf(old(self)@),
            cell < old(self)@.len(),
            old(self)@[cell as int].prefix().is_prefix_of(arg@),
        ensures
            match result {
                Ok(()) => parse_node(old(self)@, cell as int, arg@) == Ok::<
                    Seq<ParamView>,
                    ValidationErrorView,
                >(final(self)@),
                Err(e) => parse_node(old(self)@, cell as int, arg@) == Err::<
                    Seq<ParamView>,
                    ValidationErrorView,
                >(e@),
            },
            taken(old(self)@, final(self)@),
            wf(final(self)@),
        decreases cell, 2int, 0int,
    {
        let fragments = match &mut self.nodes[cell] {
            Param::Simple(p) => {
                let result = p.parse(arg);
                assert(self@ =~= old(self)@.update(cell as int, self.nodes@[cell as int]@));
                proof {
                    lemma_taken_at(old(self)@, cell as int, self.nodes@[cell as int]@);
                    lemma_taken_keeps_wf(old(self)@, self@);
                }
                return result;
            },
            Param::Open(m) => {
                m.mark_supplied();
                m.fragments_of(arg)
            },
            Param::Closed(m) => {
                m.mark_supplied();
                m.fragments_of(arg)
            },
            Param::Consumed => {
                assert(self@ =~= old(self)@);
                proof {
                    lemma_taken_self(self@);
                }
                return Ok(());
            },
        };
        assert(self@ =~= old(self)@.update(cell as int, self.nodes@[cell as int]@));
        let ghost start = self@;
        let ghost texts = views(fragments@);
        proof {
            lemma_taken_at(old(self)@, cell as int, self.nodes@[cell as int]@);
            lemma_taken_keeps_wf(old(self)@, start);
        }
        assert(parse_node(old(self)@, cell as int, arg@) == parse_fragments(
            start,
            cell as int,
            texts,
            0,
        ));
        let mut k: usize = 0;
        while k < fragments.len()
            invariant
                k <= fragments.len(),
                texts == views(fragments@),
                wf(self@),
                cell < self@.len(),
                taken(old(self)@, self@),
                parse_node(old(self)@, cell as int, arg@) == parse_fragments(
                    start,
                    cell as int,
                    texts,
                    0,
                ),
                parse_fragments(self@, cell as int, texts, k as int) == parse_fragments(
                    start,
                    cell as int,
                    texts,
                    0,
                ),
            decreases fragments.len() - k,
        {
            let ghost before = self@;
            let outcome = self.parse_fragment(cell, fragments[k]);
            proof {
                lemma_taken_twice(old(self)@, before, self@);
            }
            match outcome {
                Ok(()) => {},
                Err(e) => {
                    return Err(e);
                },
            }
            k = k + 1;
        }
        Ok(())
    }

    /// The compound parameter in `cell` takes one fragment: one of its
    /// sub-parameters does, or the fragment goes to the free pairs.
    fn parse_fragment(&mut self, cell: ParamCell, fragment: &str) -> (result: Result<
        (),
        ValidationError,
    >)
        requires
            wf(old(self)@),
            cell < old(self)@.len(),
        ensures
            match result {
                Ok(()) => parse_fragment(old(self)@, cell as int, fragment@) == Ok::<
                    Seq<ParamView>,
                    ValidationErrorView,
                >(final(self)@),
                Err(e) => parse_fragment(old(self)@, cell as int, fragment@) == Err::<
                    Seq<ParamView>,
                    ValidationErrorView,
                >(e@),
            },
            taken(old(self)@, final(self)@),
            wf(final(self)@),
        decreases cell, 0int, old(self)@[cell as int].subparams().len() + 1,
    {
        match &self.nodes[cell] {
            Param::Open(_) => {},
            Param::Closed(_) => {},
            _ => {
                proof {
                    lemma_taken_self(self@);
                }
                return Ok(());
            },
        }
        match self.try_parse_predefined(cell, fragment) {
            ParamMatchResult::Error(e) => {
                return Err(e);
            },
            ParamMatchResult::Match => {
                return Ok(());
            },
            ParamMatchResult::NoMatch => {},
        }
        let result = match &mut self.nodes[cell] {
            Param::Open(m) => m.take_pair(fragment),
            Param::Closed(m) => m.take_pair(fragment),
            _ => Ok(()),
        };
        assert(self@ =~= old(self)@.update(cell as int, self.nodes@[cell as int]@));
        proof {
            lemma_taken_at(old(self)@, cell as int, self.nodes@[cell as int]@);
            lemma_taken_keeps_wf(old(self)@, self@);
        }
        result
    }

    /// Offers `fragment` to the sub-parameters of the compound parameter in
    /// `cell`, in the order of declaration. The first that makes something of
    /// it decides: it takes the fragment, or the fragment is at fault.
    fn try_parse_predefined(&mut self, cell: ParamCell, fragment: &str) -> (result:
        ParamMatchResult)
        requires
            wf(old(self)@),
            cell < old(self)@.len(),
        ensures
            match result {
                ParamMatchResult::NoMatch => {
                    &&& parse_predefined(old(self)@, cell as int, fragment@, 0) is None
                    &&& final(self)@ == old(self)@
                },
                ParamMatchResult::Error(e) => parse_predefined(
                    old(self)@,
                    cell as int,
                    fragment@,
                    0,
                ) == Some(Err::<Seq<ParamView>, ValidationErrorView>(e@)),
                ParamMatchResult::Match => parse_predefined(
                    old(self)@,
                    cell as int,
                    fragment@,
                    0,
                ) == Some(Ok::<Seq<ParamView>, ValidationErrorView>(final(self)@)),
            },
            taken(old(self)@, final(self)@),
            wf(final(self)@),
        decreases cell, 0int, old(self)@[cell as int].subparams().len(),
    {
        let cells = self.nodes[cell].subparams();
        let mut j: usize = 0;
        while j < cells.len()
            invariant
                j <= cells.len(),
                self@ == old(self)@,
                wf(self@),
                cell < self@.len(),
                cells@ == self@[cell as int].subparams(),
                parse_predefined(self@, cell as int, fragment@, j as int) == parse_predefined(
                    self@,
                    cell as int,
                    fragment@,
                    0,
                ),
            decreases cells.len() - j,
        {
            let c = cells[j];
            assert(0 <= self@[cell as int].subparams()[j as int] < cell);
            assert(self@[c as int] == self.nodes@[c as int]@);
            match self.nodes[c].try_match(fragment) {
                ParamMatchResult::NoMatch => {},
                ParamMatchResult::Error(e) => {
                    proof {
                        lemma_taken_self(self@);
                    }
                    return ParamMatchResult::Error(e);
                },
                ParamMatchResult::Match => {
                    return match self.parse(c, fragment) {
                        Ok(()) => ParamMatchResult::Match,
                        Err(e) => ParamMatchResult::Error(e),
                    };
                },
            }
            j = j + 1;
        }
        proof {
            lemma_taken_self(self@);
        }
        ParamMatchResult::NoMatch
    }

    /// Marks the parameter in `cell` as satisfied.
    pub fn set_satisfied(&mut self, cell: ParamCell)
        requires
            cell < old(self)@.len(),
        ensures
            final(self)@ == satisfy_node(old(self)@, cell as int),
            final(self)@.len() == old(self)@.len(),
            wf(old(self)@) ==> wf(final(self)@),
        decreases cell, 1int, 0int,
    {
        let cells = match &mut self.nodes[cell] {
            Param::Simple(p) => {
                p.set_satisfied();
                assert(self@ =~= old(self)@.update(cell as int, self.nodes@[cell as int]@));
                proof {
                    if wf(old(self)@) {
                        lemma_same_subparams_wf(old(self)@, self@);
                    }
                }
                return ;
            },
            Param::Open(m) => m.subparams().clone(),
            Param::Closed(m) => m.subparams().clone(),
            Param::Consumed => {
                return ;
            },
        };
        assert(self@ =~= old(self)@);
        let mut j: usize = 0;
        while j < cells.len()
            invariant
                j <= cells.len(),
                cell < self@.len(),
                self@.len() == old(self)@.len(),
                wf(old(self)@) ==> wf(self@),
                satisfy_cells(self@, cells@, cell as int, j as int) == satisfy_cells(
                    old(self)@,
                    cells@,
                    cell as int,
                    0,
                ),
            decreases cells.len() - j,
        {
            let c = cells[j];
            if c < cell {
                self.set_satisfied(c);
            }
            j = j + 1;
        }
        let ghost marked = self@;
        match &mut self.nodes[cell] {
            Param::Open(m) => {
                m.release();
            },
            Param::Closed(m) => {
                m.release();
            },
            _ => {},
        }
        assert(self@ =~= marked.update(cell as int, self.nodes@[cell as int]@));
        proof {
            if wf(old(self)@) {
                lemma_fewer_subparams_wf(marked, self@, cell as int);
            }
        }
    }
}

impl ParamView {
    /// The parameter as it stands in a line of usage; a consumed one leaves
    /// no trace.
    pub open spec fn usage(self) -> Seq<char> {
        match self {
            ParamView::Simple(p) => p.usage(),
            ParamView::Multi(m) => m.usage(),
            ParamView::Consumed => Seq::empty(),
        }
    }
}

/// The parameters in `cells[j..]` as they stand in a line of usage, each
/// behind `gap`.
pub open spec fn usages(nodes: Seq<ParamView>, cells: Seq<ParamCell>, gap: Seq<char>, j: int) -> Seq<
    char,
>
    decreases cells.len() - j,
{
    if 0 <= j < cells.len() {
        if cells[j] < nodes.len() {
            gap + nodes[cells[j] as int].usage() + usages(nodes, cells, gap, j + 1)
        } else {
            usages(nodes, cells, gap, j + 1)
        }
    } else {
        Seq::empty()
    }
}

/// The first line of the description of the compound parameter `m`: its
/// prefix, in parentheses its sub-parameters as they stand in a line of usage
/// and the mark for free pairs, and its description.
pub open spec fn heading(nodes: Seq<ParamView>, m: MultiParamView) -> Seq<char> {
    m.prefix + "("@ + usages(nodes, m.subparams, Seq::empty(), 0) + m.arbitrary_usage() + "): "@
        + m.desc + "\n"@
}

/// The lines that describe the parameter in cell `i`. A leaf has one line. A
/// compound parameter has a line with its sub-parameters as they stand in a
/// line of usage, and below it the lines of its sub-parameters, indented.
pub open spec fn describe_node(nodes: Seq<ParamView>, i: int) -> Seq<char>
    decreases i, 1int, 0int,
{
    if 0 <= i < nodes.len() {
        match nodes[i] {
            ParamView::Simple(p) => p.describe(),
            ParamView::Multi(m) => heading(nodes, m) + describe_cells(
                nodes,
                m.subparams,
                "      "@,
                i,
                0,
            ),
            ParamView::Consumed => Seq::empty(),
        }
    } else {
        Seq::empty()
    }
}

/// The lines that describe the parameters in `cells[j..]` that stand before
/// `bound`, each behind `indent`.
pub open spec fn describe_cells(
    nodes: Seq<ParamView>,
    cells: Seq<ParamCell>,
    indent: Seq<char>,
    bound: int,
    j: int,
) -> Seq<char>
    decreases bound, 0int, cells.len() - j,
{
    if 0 <= j < cells.len() {
        if 0 <= cells[j] < bound {
            indent + describe_node(nodes, cells[j] as int) + describe_cells(
                nodes,
                cells,
                indent,
                bound,
                j + 1,
            )
        } else {
            describe_cells(nodes, cells, indent, bound, j + 1)
        }
    } else {
        Seq::empty()
    }
}

impl Param {
    /// The parameter as it stands in a line of usage.
    pub fn print_usage(&self) -> (text: String)
        ensures
            text@ == self@.usage(),
    {
        match self {
            Param::Simple(p) => p.print_usage(),
            Param::Open(m) => m.print_usage(),
            Param::Closed(m) => m.print_usage(),
            Param::Consumed => String::new(),
        }
    }
}

impl ParamArena {
    /// Appends the parameters in `cells` as they stand in a line of usage,
    /// each behind `gap`.
    pub fn push_usages(&self, cells: &Vec<ParamCell>, gap: &str, out: &mut String)
        ensures
            final(out)@ == old(out)@ + usages(self@, cells@, gap@, 0),
    {
        let mut j: usize = 0;
        while j < cells.len()
            invariant
                j <= cells.len(),
                out@ + usages(self@, cells@, gap@, j as int) == old(out)@ + usages(
                    self@,
                    cells@,
                    gap@,
                    0,
                ),
            decreases cells.len() - j,
        {
            let cell = cells[j];
            if cell < self.nodes.len() {
                let ghost before = out@;
                let usage = self.nodes[cell].print_usage();
                out.append(gap);
                out.append(usage.as_str());
                assert(out@ + usages(self@, cells@, gap@, j as int + 1) =~= before + usages(
                    self@,
                    cells@,
                    gap@,
                    j as int,
                ));
            }
            j = j + 1;
        }
        assert(out@ + Seq::<char>::empty() =~= out@);
    }

    /// Appends the lines that describe the parameter in `cell`.
    pub fn print_desc(&self, cell: ParamCell, out: &mut String)
        requires
            cell < self@.len(),
        ensures
            final(out)@ == old(out)@ + describe_node(self@, cell as int),
        decreases cell, 1int, 0int,
    {
        match &self.nodes[cell] {
            Param::Simple(p) => {
                let line = p.print_desc();
                out.append(line.as_str());
            },
            Param::Open(m) => {
                out.append(m.prefix());
                out.append("(");
                self.push_usages(m.subparams(), "", out);
                out.append("[<option 1..N>=?]");
                out.append("): ");
                out.append(m.desc());
                out.append("\n");
                proof {
                    reveal_strlit("");
                    m.lemma_accepts_as_declared();
                    assert(""@ =~= Seq::<char>::empty());
                    assert(out@ =~= old(out)@ + heading(self@, m@));
                }
                self.push_descs(m.subparams(), "      ", cell, out);
                assert(out@ =~= old(out)@ + describe_node(self@, cell as int));
            },
            Param::Closed(m) => {
                out.append(m.prefix());
                out.append("(");
                self.push_usages(m.subparams(), "", out);
                out.append("): ");
                out.append(m.desc());
                out.append("\n");
                proof {
                    reveal_strlit("");
                    m.lemma_accepts_as_declared();
                    assert(""@ =~= Seq::<char>::empty());
                    assert(out@ =~= old(out)@ + heading(self@, m@));
                }
                self.push_descs(m.subparams(), "      ", cell, out);
                assert(out@ =~= old(out)@ + describe_node(self@, cell as int));
            },
            Param::Consumed => {
                assert(out@ + Seq::<char>::empty() =~= out@);
            },
        }
    }

    /// Appends the lines that describe the parameters in `cells` that stand
    /// before `bound`, each behind `indent`.
    pub fn push_descs(&self, cells: &Vec<ParamCell>, indent: &str, bound: usize, out: &mut String)
        requires
            bound <= self@.len(),
        ensures
            final(out)@ == old(out)@ + describe_cells(self@, cells@, indent@, bound as int, 0),
        decreases bound, 0int, cells@.len(),
    {
        let mut j: usize = 0;
        while j < cells.len()
            invariant
                j <= cells.len(),
                bound <= self@.len(),
                out@ + describe_cells(self@, cells@, indent@, bound as int, j as int) == old(out)@
                    + describe_cells(self@, cells@, indent@, bound as int, 0),
            decreases cells.len() - j,
        {
            let c = cells[j];
            if c < bound {
                let ghost before = out@;
                out.append(indent);
                self.print_desc(c, out);
                assert(out@ + describe_cells(self@, cells@, indent@, bound as int, j as int + 1)
                    =~= before + describe_cells(self@, cells@, indent@, bound as int, j as int));
            }
            j = j + 1;
        }
        assert(out@ + Seq::<char>::empty() =~= out@);
    }
}

impl ParamView {
    /// Whether `other` is declared as this parameter is: of the same kind,
    /// with the same prefix, description and demands.
    pub open spec fn same_declaration(self, other: ParamView) -> bool {
        match (self, other) {
            (ParamView::Simple(p), ParamView::Simple(q)) => {
                &&& p.prefix == q.prefix
                &&& p.kind == q.kind
                &&& p.default == q.default
                &&& p.desc == q.desc
                &&& p.required == q.required
            },
            (ParamView::Multi(m), ParamView::Multi(n)) => {
                &&& m.prefix == n.prefix
                &&& m.desc == n.desc
                &&& m.required == n.required
                &&& m.accepts_arbitrary == n.accepts_arbitrary
            },
            (ParamView::Consumed, ParamView::Consumed) => true,
            _ => false,
        }
    }

    /// Whether `after` is what this parameter can become when arguments are
    /// taken: declared alike, with the same sub-parameters, satisfied as
    /// before, still supplied if it was, and in order if it was.
    pub open spec fn takes_to(self, after: ParamView) -> bool {
        &&& self.same_declaration(after)
        &&& self.subparams() == after.subparams()
        &&& self.satisfied() == after.satisfied()
        &&& self.supplied_by_user() ==> after.supplied_by_user()
        &&& self.wf() ==> after.wf()
    }

    /// Whether `after` is what this parameter can become when parameters are
    /// marked as satisfied: declared alike, supplied as before, still
    /// satisfied if it was, in order if it was, with the same sub-parameters
    /// or none.
    pub open spec fn marks_to(self, after: ParamView) -> bool {
        &&& self.same_declaration(after)
        &&& after.subparams() == self.subparams() || after.subparams().len() == 0
        &&& self.supplied_by_user() == after.supplied_by_user()
        &&& self.satisfied() ==> after.satisfied()
        &&& self.wf() ==> after.wf()
    }
}

/// Whether each of the parameters `after` is what the one in its cell in
/// `before` can become when arguments are taken.
pub open spec fn taken(before: Seq<ParamView>, after: Seq<ParamView>) -> bool {
    &&& before.len() == after.len()
    &&& forall|i: int| 0 <= i < before.len() ==> (#[trigger] before[i]).takes_to(after[i])
}

/// Whether each of the parameters `after` is what the one in its cell in
/// `before` can become when parameters are marked as satisfied.
pub open spec fn marked(before: Seq<ParamView>, after: Seq<ParamView>) -> bool {
    &&& before.len() == after.len()
    &&& forall|i: int| 0 <= i < before.len() ==> (#[trigger] before[i]).marks_to(after[i])
}

/// Parameters are what they can become when no argument is taken.
pub proof fn lemma_taken_self(a: Seq<ParamView>)
    ensures
        taken(a, a),
{
    assert forall|i: int| 0 <= i < a.len() implies (#[trigger] a[i]).takes_to(a[i]) by {}
}

/// Parameters that are in order stay so when arguments are taken.
pub proof fn lemma_taken_keeps_wf(before: Seq<ParamView>, after: Seq<ParamView>)
    requires
        wf(before),
        taken(before, after),
    ensures
        wf(after),
{
    assert forall|i: int, k: int|
        0 <= i < after.len() && 0 <= k < after[i].subparams().len() implies 0 <= (
    #[trigger] after[i].subparams()[k]) < i by {
        assert(before[i].takes_to(after[i]));
        assert(before[i].subparams()[k] == after[i].subparams()[k]);
    }
    assert forall|i: int| 0 <= i < after.len() implies (#[trigger] after[i]).wf() by {
        assert(before[i].takes_to(after[i]));
    }
}

/// What parameters can become by taking arguments twice, they can become by
/// taking arguments.
pub proof fn lemma_taken_twice(a: Seq<ParamView>, b: Seq<ParamView>, c: Seq<ParamView>)
    requires
        taken(a, b),
        taken(b, c),
    ensures
        taken(a, c),
{
    assert forall|i: int| 0 <= i < a.len() implies (#[trigger] a[i]).takes_to(c[i]) by {
        assert(a[i].takes_to(b[i]));
        assert(b[i].takes_to(c[i]));
    }
}

/// What parameters can become by being marked twice, they can become by
/// being marked.
proof fn lemma_marked_twice(a: Seq<ParamView>, b: Seq<ParamView>, c: Seq<ParamView>)
    requires
        marked(a, b),
        marked(b, c),
    ensures
        marked(a, c),
{
    assert forall|i: int| 0 <= i < a.len() implies (#[trigger] a[i]).marks_to(c[i]) by {
        assert(a[i].marks_to(b[i]));
        assert(b[i].marks_to(c[i]));
    }
}

/// Changing one parameter into what it can become by taking arguments does
/// as much to the parameters.
pub proof fn lemma_taken_at(nodes: Seq<ParamView>, i: int, after: ParamView)
    requires
        0 <= i < nodes.len(),
        nodes[i].takes_to(after),
    ensures
        taken(nodes, nodes.update(i, after)),
{
    let next = nodes.update(i, after);
    assert forall|k: int| 0 <= k < nodes.len() implies (#[trigger] nodes[k]).takes_to(next[k]) by {}
}

/// Changing one parameter into what it can become by being marked does as
/// much to the parameters.
proof fn lemma_marked_at(nodes: Seq<ParamView>, i: int, after: ParamView)
    requires
        0 <= i < nodes.len(),
        nodes[i].marks_to(after),
    ensures
        marked(nodes, nodes.update(i, after)),
{
    let next = nodes.update(i, after);
    assert forall|k: int| 0 <= k < nodes.len() implies (#[trigger] nodes[k]).marks_to(next[k]) by {}
}

/// Taking an argument changes no declaration: every parameter stays
/// declared as it was, keeps its sub-parameters, stays in order, and is
/// satisfied and, once supplied, supplied as before.
pub proof fn lemma_parse_node_taken(nodes: Seq<ParamView>, i: int, arg: Seq<char>)
    ensures
        parse_node(nodes, i, arg) matches Ok(after) ==> taken(nodes, after),
    decreases i, 2int, 0int,
{
    if 0 <= i < nodes.len() {
        match nodes[i] {
            ParamView::Simple(p) => {
                if let Ok(q) = p.parse(arg) {
                    lemma_taken_at(nodes, i, ParamView::Simple(q));
                }
            },
            ParamView::Multi(m) => {
                let start = nodes.update(i, ParamView::Multi(m.supplied()));
                lemma_taken_at(nodes, i, ParamView::Multi(m.supplied()));
                lemma_parse_fragments_taken(start, i, m.fragments(arg), 0);
                if let Ok(after) = parse_fragments(start, i, m.fragments(arg), 0) {
                    lemma_taken_twice(nodes, start, after);
                }
            },
            ParamView::Consumed => {
                lemma_taken_at(nodes, i, nodes[i]);
                assert(nodes.update(i, nodes[i]) =~= nodes);
            },
        }
    } else {
        assert(taken(nodes, nodes));
    }
}

proof fn lemma_parse_fragments_taken(
    nodes: Seq<ParamView>,
    i: int,
    fragments: Seq<Seq<char>>,
    k: int,
)
    ensures
        parse_fragments(nodes, i, fragments, k) matches Ok(after) ==> taken(nodes, after),
    decreases i, 1int, fragments.len() - k,
{
    if 0 <= k < fragments.len() && 0 <= i {
        lemma_parse_fragment_taken(nodes, i, fragments[k]);
        if let Ok(next) = parse_fragment(nodes, i, fragments[k]) {
            lemma_parse_fragments_taken(next, i, fragments, k + 1);
            if let Ok(after) = parse_fragments(next, i, fragments, k + 1) {
                lemma_taken_twice(nodes, next, after);
            }
        }
    } else {
        assert(taken(nodes, nodes));
    }
}

proof fn lemma_parse_fragment_taken(nodes: Seq<ParamView>, i: int, fragment: Seq<char>)
    ensures
        parse_fragment(nodes, i, fragment) matches Ok(after) ==> taken(nodes, after),
    decreases i, 0int, nodes[i].subparams().len() + 1,
{
    if 0 <= i < nodes.len() && nodes[i] is Multi {
        lemma_parse_predefined_taken(nodes, i, fragment, 0);
        if parse_predefined(nodes, i, fragment, 0) is None {
            if let Ok(m) = nodes[i]->Multi_0.with_pair(fragment) {
                lemma_taken_at(nodes, i, ParamView::Multi(m));
            }
        }
    } else {
        assert(taken(nodes, nodes));
    }
}

proof fn lemma_parse_predefined_taken(nodes: Seq<ParamView>, i: int, fragment: Seq<char>, j: int)
    ensures
        parse_predefined(nodes, i, fragment, j) matches Some(Ok(after)) ==> taken(nodes, after),
    decreases i, 0int, nodes[i].subparams().len() - j,
{
    let cells = nodes[i].subparams();
    if 0 <= j < cells.len() && 0 <= cells[j] < i && i < nodes.len() {
        match nodes[cells[j] as int].try_match(fragment) {
            MatchView::NoMatch => {
                lemma_parse_predefined_taken(nodes, i, fragment, j + 1);
            },
            MatchView::Error(e) => {},
            MatchView::Match => {
                lemma_parse_node_taken(nodes, cells[j] as int, fragment);
            },
        }
    }
}

/// Marking a parameter as satisfied changes no declaration and takes
/// nothing back: every parameter stays declared as it was, stays in order,
/// is supplied as before and, once satisfied, satisfied. The parameter that
/// is marked is satisfied afterwards, unless it is consumed.
pub proof fn lemma_satisfy_node_marked(nodes: Seq<ParamView>, i: int)
    ensures
        marked(nodes, satisfy_node(nodes, i)),
        0 <= i < nodes.len() && nodes[i] !is Consumed ==> satisfy_node(nodes, i)[i].satisfied(),
    decreases i, 1int, 0int,
{
    if 0 <= i < nodes.len() {
        match nodes[i] {
            ParamView::Simple(p) => {
                lemma_marked_at(nodes, i, ParamView::Simple(p.set_satisfied()));
            },
            ParamView::Multi(m) => {
                lemma_satisfy_cells_marked(nodes, m.subparams, i, 0);
                let between = satisfy_cells(nodes, m.subparams, i, 0);
                assert(nodes[i].marks_to(between[i]));
                match between[i] {
                    ParamView::Multi(n) => {
                        lemma_marked_at(between, i, ParamView::Multi(n.released()));
                        lemma_marked_twice(
                            nodes,
                            between,
                            between.update(i, ParamView::Multi(n.released())),
                        );
                    },
                    _ => {},
                }
            },
            ParamView::Consumed => {
                assert(marked(nodes, nodes));
            },
        }
    } else {
        assert(marked(nodes, nodes));
    }
}

/// Marking the parameters in `cells[j..]` changes no declaration and takes
/// nothing back, and each of them that stands before `bound` is satisfied
/// afterwards, unless it is consumed.
pub proof fn lemma_satisfy_cells_marked(
    nodes: Seq<ParamView>,
    cells: Seq<ParamCell>,
    bound: int,
    j: int,
)
    requires
        0 <= j,
    ensures
        marked(nodes, satisfy_cells(nodes, cells, bound, j)),
        forall|k: int|
            j <= k < cells.len() && cells[k] < bound && cells[k] < nodes.len() && nodes[cells[k] as int]
                !is Consumed ==> satisfy_cells(nodes, cells, bound, j)[#[trigger] cells[k] as int].satisfied(),
    decreases bound, 0int, cells.len() - j,
{
    if j < cells.len() {
        let after = satisfy_cells(nodes, cells, bound, j);
        if 0 <= cells[j] < bound {
            let next = satisfy_node(nodes, cells[j] as int);
            lemma_satisfy_node_marked(nodes, cells[j] as int);
            lemma_satisfy_cells_marked(next, cells, bound, j + 1);
            lemma_marked_twice(nodes, next, after);
            assert forall|k: int|
                j <= k < cells.len() && cells[k] < bound && cells[k] < nodes.len() && nodes[cells[k] as int]
                    !is Consumed implies after[#[trigger] cells[k] as int].satisfied() by {
                let c = cells[k] as int;
                assert(nodes[c].marks_to(next[c]));
                assert(next[c].marks_to(after[c]));
                if k == j {
                    assert(next[c].satisfied());
                }
            }
        } else {
            lemma_satisfy_cells_marked(nodes, cells, bound, j + 1);
        }
    } else {
        assert(marked(nodes, nodes));
    }
}

} // verus!
