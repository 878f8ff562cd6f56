//! The compound parameter `prefix(sub1,sub2,...)`: a list of declared
//! sub-parameters and, where the parameter accepts them, free `key=value`
//! pairs.

use super::arena::{Param, ParamView};
use super::error::{ValidationError, ValidationErrorView};
use super::parser::{ParamsParser, ParserView};
use super::simple_param::{MatchView, ParamMatchResult};
use super::text::{chars_of, split, split_on, starts_with, views};
use core::marker::PhantomData;
use vstd::hash_map::StringHashMap;
use vstd::prelude::*;

verus! {

/// Where a parameter stands among the parameters of its parser.
pub type ParamCell = usize;

/// Whether `arg` is one `key=value` pair with a key and a value of at least
/// one character each.
pub open spec fn is_pair(arg: Seq<char>) -> bool {
    let sides = split(arg, '=');
    sides.len() == 2 && sides[0].len() > 0 && sides[1].len() > 0
}

/// What becomes of the free pairs `dictionary` of the parameter `name` when
/// `arg` is offered as one more: it is refused where the parameter accepts no
/// free pairs or `arg` is not a pair, and where its key has been given before.
pub open spec fn with_arbitrary(
    accepting: bool,
    dictionary: Map<Seq<char>, Seq<char>>,
    name: Seq<char>,
    arg: Seq<char>,
) -> Result<Map<Seq<char>, Seq<char>>, ValidationErrorView> {
    if !accepting || !is_pair(arg) {
        Err(ValidationErrorView::UnrecognizedArgument { text: arg, owner: name })
    } else if dictionary.contains_key(split(arg, '=')[0]) {
        Err(ValidationErrorView::ArbitraryKeyCollision { key: split(arg, '=')[0] })
    } else {
        Ok(dictionary.insert(split(arg, '=')[0], split(arg, '=')[1]))
    }
}

/// The pairs of a map of strings, with the values as character sequences.
pub open spec fn pairs_of(m: Map<Seq<char>, String>) -> Map<Seq<char>, Seq<char>> {
    m.map_values(|v: String| v@)
}

/// How a compound parameter deals with arguments that none of its declared
/// sub-parameters takes.
pub trait ArbitraryParamsAcceptance: Sized {
    /// Whether free pairs are accepted at all.
    spec fn accepting() -> bool;

    /// The free pairs taken so far.
    spec fn dictionary(&self) -> Map<Seq<char>, Seq<char>>;

    /// The state in which no pair has been taken.
    fn empty() -> (acceptance: Self)
        ensures
            acceptance.dictionary() == Map::<Seq<char>, Seq<char>>::empty(),
    ;

    fn accepts_arbitrary(&self) -> (b: bool)
        ensures
            b == Self::accepting(),
    ;

    /// Takes `arg` as a free pair of the parameter `param_name`, or says why
    /// not.
    fn try_parse_arbitrary(&mut self, param_name: &str, arg: &str) -> (result: Result<
        (),
        ValidationError,
    >)
        ensures
            ({
                let outcome = with_arbitrary(
                    Self::accepting(),
                    old(self).dictionary(),
                    param_name@,
                    arg@,
                );
                match result {
                    Ok(()) => outcome == Ok::<Map<Seq<char>, Seq<char>>, ValidationErrorView>(
                        final(self).dictionary(),
                    ),
                    Err(e) => {
                        &&& outcome == Err::<Map<Seq<char>, Seq<char>>, ValidationErrorView>(e@)
                        &&& final(self).dictionary() == old(self).dictionary()
                    },
                }
            }),
    ;
}

/// Accepts every free pair whose key is new.
pub struct AcceptsArbitraryParams {
    map: StringHashMap<String>,
}

impl AcceptsArbitraryParams {
    /// The pairs taken, as a map.
    pub fn into_map(self) -> (map: StringHashMap<String>)
        ensures
            pairs_of(map@) == self.dictionary(),
    {
        self.map
    }
}

impl ArbitraryParamsAcceptance for AcceptsArbitraryParams {
    open spec fn accepting() -> bool {
        true
    }

    closed spec fn dictionary(&self) -> Map<Seq<char>, Seq<char>> {
        pairs_of(self.map@)
    }

    fn empty() -> (acceptance: Self) {
        let acceptance = AcceptsArbitraryParams { map: StringHashMap::new() };
        assert(pairs_of(acceptance.map@) =~= Map::<Seq<char>, Seq<char>>::empty());
        acceptance
    }

    fn accepts_arbitrary(&self) -> (b: bool) {
        true
    }

    fn try_parse_arbitrary(&mut self, param_name: &str, arg: &str) -> (result: Result<
        (),
        ValidationError,
    >) {
        let sides = split_on(arg, '=');
        if sides.len() != 2 {
            return Err(
                ValidationError::UnrecognizedArgument {
                    text: String::from_str(arg),
                    owner: String::from_str(param_name),
                },
            );
        }
        let key = sides[0];
        let val = sides[1];
        assert(views(sides@)[0] == key@ && views(sides@)[1] == val@);
        if key.unicode_len() == 0 || val.unicode_len() == 0 {
            return Err(
                ValidationError::UnrecognizedArgument {
                    text: String::from_str(arg),
                    owner: String::from_str(param_name),
                },
            );
        }
        if self.map.contains_key(key) {
            return Err(ValidationError::ArbitraryKeyCollision { key: String::from_str(key) });
        }
        let ghost before = self.map@;
        self.map.insert(String::from_str(key), String::from_str(val));
        assert(pairs_of(self.map@) =~= pairs_of(before).insert(key@, val@));
        Ok(())
    }
}

impl Default for AcceptsArbitraryParams {
    fn default() -> (acceptance: Self)
        ensures
            acceptance.dictionary() == Map::<Seq<char>, Seq<char>>::empty(),
    {
        Self::empty()
    }
}

/// Accepts no free pair.
pub struct RejectsArbitraryParams;

impl ArbitraryParamsAcceptance for RejectsArbitraryParams {
    open spec fn accepting() -> bool {
        false
    }

    open spec fn dictionary(&self) -> Map<Seq<char>, Seq<char>> {
        Map::empty()
    }

    fn empty() -> (acceptance: Self) {
        RejectsArbitraryParams
    }

    fn accepts_arbitrary(&self) -> (b: bool) {
        false
    }

    fn try_parse_arbitrary(&mut self, param_name: &str, arg: &str) -> (result: Result<
        (),
        ValidationError,
    >) {
        Err(
            ValidationError::UnrecognizedArgument {
                text: String::from_str(arg),
                owner: String::from_str(param_name),
            },
        )
    }
}

impl Default for RejectsArbitraryParams {
    fn default() -> (acceptance: Self) {
        RejectsArbitraryParams
    }
}

/// A compound parameter: what it was declared with, and what has been made of
/// the user's arguments so far.
pub struct MultiParam<A: ArbitraryParamsAcceptance> {
    prefix: &'static str,
    subparams: Vec<ParamCell>,
    desc: &'static str,
    required: bool,
    arbitrary_params: A,
    supplied_by_user: bool,
    satisfied: bool,
}

/// A [`MultiParam`] with its texts as character sequences.
pub struct MultiParamView {
    pub prefix: Seq<char>,
    /// The declared sub-parameters, in the order in which they are tried.
    pub subparams: Seq<ParamCell>,
    pub desc: Seq<char>,
    pub required: bool,
    pub accepts_arbitrary: bool,
    /// The free pairs taken so far.
    pub arbitrary: Map<Seq<char>, Seq<char>>,
    pub supplied_by_user: bool,
    pub satisfied: bool,
}

/// The grammar of what follows the prefix of a compound parameter, as it is
/// shown to the user.
pub const WRAPPED: &'static str = "^\\(.*\\)$";

impl MultiParamView {
    /// A parameter as it is when declared: without free pairs, neither
    /// supplied nor satisfied.
    pub open spec fn declared(
        prefix: Seq<char>,
        subparams: Seq<ParamCell>,
        desc: Seq<char>,
        required: bool,
        accepts_arbitrary: bool,
    ) -> MultiParamView {
        MultiParamView {
            prefix,
            subparams,
            desc,
            required,
            accepts_arbitrary,
            arbitrary: Map::empty(),
            supplied_by_user: false,
            satisfied: false,
        }
    }

    /// What follows the prefix in `arg`.
    pub open spec fn rest(self, arg: Seq<char>) -> Seq<char> {
        arg.skip(self.prefix.len() as int)
    }

    /// Whether `rest` opens with `(` and closes with `)`.
    pub open spec fn wrapped(rest: Seq<char>) -> bool {
        rest.len() >= 2 && rest.first() == '(' && rest.last() == ')'
    }

    /// What stands between the first and the last character after the prefix
    /// in `arg`: between the parentheses, where `arg` is wrapped in them.
    pub open spec fn inner(self, arg: Seq<char>) -> Seq<char> {
        let rest = self.rest(arg);
        if rest.len() >= 2 {
            rest.subrange(1, rest.len() - 1)
        } else {
            Seq::empty()
        }
    }

    /// The comma-separated fragments between the parentheses of `arg`.
    pub open spec fn fragments(self, arg: Seq<char>) -> Seq<Seq<char>> {
        split(self.inner(arg), ',')
    }

    /// What the parameter makes of `arg`: nothing if `arg` does not start with
    /// the prefix; else an error if the parameter has been supplied before, or
    /// if what follows the prefix is not wrapped in parentheses.
    pub open spec fn try_match(self, arg: Seq<char>) -> MatchView {
        if !self.prefix.is_prefix_of(arg) {
            MatchView::NoMatch
        } else if self.supplied_by_user {
            MatchView::Error(ValidationErrorView::DuplicateSupply { name: self.prefix })
        } else if !Self::wrapped(self.rest(arg)) {
            MatchView::Error(
                ValidationErrorView::MalformedValue { text: self.rest(arg), pattern: WRAPPED@ },
            )
        } else {
            MatchView::Match
        }
    }

    /// The parameter as it stands in a line of usage.
    pub open spec fn usage(self) -> Seq<char> {
        "["@ + self.prefix + "(?)]"@
    }

    /// The mark that the parameter takes free pairs, where it does.
    pub open spec fn arbitrary_usage(self) -> Seq<char> {
        if self.accepts_arbitrary {
            "[<option 1..N>=?]"@
        } else {
            Seq::empty()
        }
    }

    /// The parameter once the user has given it.
    pub open spec fn supplied(self) -> MultiParamView {
        MultiParamView { supplied_by_user: true, ..self }
    }

    /// The parameter after the fragment `arg`, which none of its
    /// sub-parameters takes, has been offered as a free pair.
    pub open spec fn with_pair(self, arg: Seq<char>) -> Result<
        MultiParamView,
        ValidationErrorView,
    > {
        match with_arbitrary(self.accepts_arbitrary, self.arbitrary, self.prefix, arg) {
            Ok(arbitrary) => Ok(MultiParamView { arbitrary, ..self }),
            Err(e) => Err(e),
        }
    }

    /// The parameter after it has been marked as satisfied and has let go of
    /// its sub-parameters.
    pub open spec fn released(self) -> MultiParamView {
        MultiParamView { satisfied: true, subparams: Seq::empty(), ..self }
    }
}

impl<A: ArbitraryParamsAcceptance> View for MultiParam<A> {
    type V = MultiParamView;

    closed spec fn view(&self) -> MultiParamView {
        MultiParamView {
            prefix: self.prefix@,
            subparams: self.subparams@,
            desc: self.desc@,
            required: self.required,
            accepts_arbitrary: A::accepting(),
            arbitrary: self.arbitrary_params.dictionary(),
            supplied_by_user: self.supplied_by_user,
            satisfied: self.satisfied,
        }
    }
}

impl MultiParam<AcceptsArbitraryParams> {
    /// The free pairs of a satisfied parameter; nothing if the parameter is
    /// not satisfied. The parameter is used up.
    pub fn get_arbitrary(self) -> (pairs: Option<StringHashMap<String>>)
        ensures
            match pairs {
                Some(map) => self@.satisfied && pairs_of(map@) == self@.arbitrary,
                None => !self@.satisfied,
            },
    {
        if self.satisfied {
            Some(self.arbitrary_params.into_map())
        } else {
            None
        }
    }
}

impl<A: ArbitraryParamsAcceptance> MultiParam<A> {
    /// Declares a compound parameter with the sub-parameters `subparams`.
    pub fn new(
        prefix: &'static str,
        subparams: Vec<ParamCell>,
        desc: &'static str,
        required: bool,
    ) -> (param: Self)
        ensures
            param@ == MultiParamView::declared(
                prefix@,
                subparams@,
                desc@,
                required,
                A::accepting(),
            ),
    {
        MultiParam {
            prefix,
            subparams,
            desc,
            required,
            arbitrary_params: A::empty(),
            supplied_by_user: false,
            satisfied: false,
        }
    }

    /// The prefix by which the parameter is known.
    pub fn prefix(&self) -> (prefix: &'static str)
        ensures
            prefix@ == self@.prefix,
    {
        self.prefix
    }

    /// A parameter takes free pairs as its kind of acceptance says.
    pub proof fn lemma_accepts_as_declared(&self)
        ensures
            self@.accepts_arbitrary == A::accepting(),
    {
    }

    /// Whether the parameter takes free pairs.
    pub fn accepts_arbitrary(&self) -> (b: bool)
        ensures
            b == self@.accepts_arbitrary,
    {
        self.arbitrary_params.accepts_arbitrary()
    }

    /// Whether the user has given the parameter.
    pub fn supplied_by_user(&self) -> (b: bool)
        ensures
            b == self@.supplied_by_user,
    {
        self.supplied_by_user
    }

    /// Whether the parameter must be given.
    pub fn required(&self) -> (b: bool)
        ensures
            b == self@.required,
    {
        self.required
    }

    /// Whether the parameter has been marked as satisfied.
    pub fn satisfied(&self) -> (b: bool)
        ensures
            b == self@.satisfied,
    {
        self.satisfied
    }

    /// The declared sub-parameters that have not been let go of.
    pub fn subparams(&self) -> (cells: &Vec<ParamCell>)
        ensures
            cells@ == self@.subparams,
    {
        &self.subparams
    }

    /// What the parameter makes of `arg`.
    pub fn try_match(&self, arg: &str) -> (result: ParamMatchResult)
        ensures
            result@ == self@.try_match(arg@),
    {
        let cs = chars_of(arg);
        let ps = chars_of(self.prefix);
        if !starts_with(cs.as_slice(), ps.as_slice()) {
            return ParamMatchResult::NoMatch;
        }
        if self.supplied_by_user {
            return ParamMatchResult::Error(
                ValidationError::DuplicateSupply { name: String::from_str(self.prefix) },
            );
        }
        let n = cs.len();
        let from = ps.len();
        assert(self@.rest(arg@) =~= arg@.subrange(from as int, n as int));
        if n - from < 2 || cs[from] != '(' || cs[n - 1] != ')' {
            let rest = arg.substring_char(from, n);
            return ParamMatchResult::Error(
                ValidationError::MalformedValue { text: String::from_str(rest), pattern: WRAPPED },
            );
        }
        ParamMatchResult::Match
    }

    /// The comma-separated fragments between the parentheses of `arg`, which
    /// starts with the prefix.
    pub fn fragments_of<'a>(&self, arg: &'a str) -> (fragments: Vec<&'a str>)
        requires
            self@.prefix.is_prefix_of(arg@),
        ensures
            views(fragments@) == self@.fragments(arg@),
    {
        let n = arg.unicode_len();
        let from = self.prefix.unicode_len();
        assert(self@.rest(arg@) =~= arg@.subrange(from as int, n as int));
        let inner = if n - from >= 2 {
            arg.substring_char(from + 1, n - 1)
        } else {
            arg.substring_char(n, n)
        };
        assert(inner@ =~= self@.inner(arg@));
        split_on(inner, ',')
    }

    /// The parameter as it stands in a line of usage.
    pub fn print_usage(&self) -> (text: String)
        ensures
            text@ == self@.usage(),
    {
        let mut text = String::new();
        text.append("[");
        text.append(self.prefix);
        text.append("(?)]");
        assert(text@ =~= self@.usage());
        text
    }

    /// The description of the parameter.
    pub fn desc(&self) -> (desc: &'static str)
        ensures
            desc@ == self@.desc,
    {
        self.desc
    }

    /// Records that the user has given the parameter.
    pub fn mark_supplied(&mut self)
        ensures
            final(self)@ == old(self)@.supplied(),
    {
        self.supplied_by_user = true;
    }

    /// Offers the fragment `arg`, which none of the sub-parameters takes, as a
    /// free pair.
    pub fn take_pair(&mut self, arg: &str) -> (result: Result<(), ValidationError>)
        ensures
            match result {
                Ok(()) => old(self)@.with_pair(arg@) == Ok::<MultiParamView, ValidationErrorView>(
                    final(self)@,
                ),
                Err(e) => {
                    &&& old(self)@.with_pair(arg@) == Err::<MultiParamView, ValidationErrorView>(e@)
                    &&& final(self)@ == old(self)@
                },
            },
    {
        self.arbitrary_params.try_parse_arbitrary(self.prefix, arg)
    }

    /// Marks the parameter as satisfied and lets go of its sub-parameters,
    /// which are to be marked by the caller.
    pub fn release(&mut self)
        ensures
            final(self)@ == old(self)@.released(),
    {
        self.satisfied = true;
        self.subparams.clear();
    }
}

/// The caller's hold on a compound parameter of a parser.
pub struct MultiParamHandle<A: ArbitraryParamsAcceptance> {
    cell: ParamCell,
    acceptance: PhantomData<A>,
}

/// The hold on a compound parameter that accepts free pairs.
pub type MultiParamAcceptsArbitraryHandle = MultiParamHandle<AcceptsArbitraryParams>;

impl MultiParamAcceptsArbitraryHandle {
    /// The free pairs of the parameter, if it is satisfied. The parameter is
    /// used up: its cell is left consumed.
    pub fn get_arbitrary(self, parser: &mut ParamsParser) -> (pairs: Option<StringHashMap<String>>)
        requires
            self.cell() < old(parser)@.nodes.len(),
            old(parser)@.nodes[self.cell() as int] matches ParamView::Multi(m)
                && m.accepts_arbitrary,
        ensures
            final(parser)@ == (ParserView {
                nodes: old(parser)@.nodes.update(self.cell() as int, ParamView::Consumed),
                ..old(parser)@
            }),
            match pairs {
                Some(map) => {
                    &&& old(parser)@.nodes[self.cell() as int]->Multi_0.satisfied
                    &&& pairs_of(map@) == old(parser)@.nodes[self.cell() as int]->Multi_0.arbitrary
                },
                None => !old(parser)@.nodes[self.cell() as int]->Multi_0.satisfied,
            },
    {
        match parser.take_param(self.cell) {
            Param::Open(m) => m.get_arbitrary(),
            Param::Closed(m) => {
                proof {
                    m.lemma_accepts_as_declared();
                }
                None
            },
            _ => None,
        }
    }
}

impl<A: ArbitraryParamsAcceptance> MultiParamHandle<A> {
    /// A hold on the parameter in `cell`.
    pub fn new(cell: ParamCell) -> (handle: Self)
        ensures
            handle.cell() == cell,
    {
        MultiParamHandle { cell, acceptance: PhantomData }
    }

    /// The cell of the parameter.
    #[verifier::when_used_as_spec(spec_cell)]
    pub fn cell(&self) -> (cell: ParamCell)
        ensures
            cell == self.spec_cell(),
    {
        self.cell
    }

    pub closed spec fn spec_cell(&self) -> ParamCell {
        self.cell
    }

    /// Whether the user has given the parameter.
    pub fn supplied_by_user(&self, parser: &ParamsParser) -> (b: bool)
        requires
            self.cell() < parser@.nodes.len(),
        ensures
            b == parser@.nodes[self.cell() as int].supplied_by_user(),
    {
        parser.get_param(self.cell).supplied_by_user()
    }
}

} // verus!
