//! The leaf parameter: a literal prefix followed by one value.

use super::error::{ValidationError, ValidationErrorView};
use super::text::{chars_of, pad, padded, starts_with};
use super::value::{accepts, parse_value, pattern_of, value_of, Value, ValueKind, ValueView};
use vstd::prelude::*;

verus! {

/// What a parameter makes of an argument.
#[derive(Debug)]
pub enum ParamMatchResult {
    /// The argument is not for this parameter.
    NoMatch,
    /// The argument is for this parameter, and is at fault.
    Error(ValidationError),
    /// The argument is for this parameter, and the parameter can take it.
    Match,
}

/// A [`ParamMatchResult`] with its error as a view.
pub enum MatchView {
    NoMatch,
    Error(ValidationErrorView),
    Match,
}

impl View for ParamMatchResult {
    type V = MatchView;

    open spec fn view(&self) -> MatchView {
        match self {
            ParamMatchResult::NoMatch => MatchView::NoMatch,
            ParamMatchResult::Error(e) => MatchView::Error(e@),
            ParamMatchResult::Match => MatchView::Match,
        }
    }
}

/// A leaf parameter: what it was declared with, and what has been made of the
/// user's arguments so far.
pub struct SimpleParam {
    prefix: &'static str,
    kind: ValueKind,
    default: Option<&'static str>,
    desc: &'static str,
    required: bool,
    value: Option<Value>,
    supplied_by_user: bool,
    satisfied: bool,
}

/// A [`SimpleParam`] with its texts as character sequences.
pub struct SimpleParamView {
    pub prefix: Seq<char>,
    pub kind: ValueKind,
    pub default: Option<Seq<char>>,
    pub desc: Seq<char>,
    pub required: bool,
    pub value: Option<ValueView>,
    pub supplied_by_user: bool,
    pub satisfied: bool,
}

impl SimpleParamView {
    /// A parameter as it is when declared: without a value, neither supplied
    /// nor satisfied.
    pub open spec fn declared(
        prefix: Seq<char>,
        kind: ValueKind,
        default: Option<Seq<char>>,
        desc: Seq<char>,
        required: bool,
    ) -> SimpleParamView {
        SimpleParamView {
            prefix,
            kind,
            default,
            desc,
            required,
            value: None,
            supplied_by_user: false,
            satisfied: false,
        }
    }

    /// The default, where there is one, is a text of the parameter's
    /// grammar. A value that the parameter holds is of its type. A parameter
    /// that the user has given holds a value, and so does a satisfied one
    /// that has a default; one that is neither given nor satisfied holds
    /// none.
    pub open spec fn wf(self) -> bool {
        &&& self.default matches Some(d) ==> accepts(self.kind, d)
        &&& self.value matches Some(v) ==> v.kind() == self.kind
        &&& self.supplied_by_user ==> self.value is Some
        &&& self.satisfied && self.default is Some ==> self.value is Some
        &&& !self.supplied_by_user && !self.satisfied ==> self.value is None
    }

    /// What follows the prefix in `arg`.
    pub open spec fn rest(self, arg: Seq<char>) -> Seq<char> {
        arg.skip(self.prefix.len() as int)
    }

    /// What the parameter makes of `arg`: nothing if `arg` does not start with
    /// the prefix; else an error if the parameter has been supplied before, or
    /// if what follows the prefix is not of its grammar.
    pub open spec fn try_match(self, arg: Seq<char>) -> MatchView {
        if !self.prefix.is_prefix_of(arg) {
            MatchView::NoMatch
        } else if self.supplied_by_user {
            MatchView::Error(ValidationErrorView::DuplicateSupply { name: self.prefix })
        } else if !accepts(self.kind, self.rest(arg)) {
            MatchView::Error(
                ValidationErrorView::MalformedValue {
                    text: self.rest(arg),
                    pattern: pattern_of(self.kind),
                },
            )
        } else {
            MatchView::Match
        }
    }

    /// The parameter after it has taken `arg`, which starts with its prefix:
    /// supplied, with the value that the rest of `arg` denotes.
    pub open spec fn parse(self, arg: Seq<char>) -> Result<SimpleParamView, ValidationErrorView> {
        if accepts(self.kind, self.rest(arg)) {
            Ok(
                SimpleParamView {
                    value: Some(value_of(self.kind, self.rest(arg))),
                    supplied_by_user: true,
                    ..self
                },
            )
        } else {
            Err(
                ValidationErrorView::MalformedValue {
                    text: self.rest(arg),
                    pattern: pattern_of(self.kind),
                },
            )
        }
    }

    /// The parameter with a `?` for its value; a flag has none.
    pub open spec fn shape(self) -> Seq<char> {
        if self.kind == ValueKind::Flag {
            self.prefix
        } else {
            self.prefix + "?"@
        }
    }

    /// The parameter as it stands in a line of usage: in brackets unless it
    /// is required.
    pub open spec fn usage(self) -> Seq<char> {
        if self.required {
            self.shape()
        } else {
            "["@ + self.shape() + "]"@
        }
    }

    /// The parameter with its default, where it has one.
    pub open spec fn heading(self) -> Seq<char> {
        match self.default {
            Some(d) => self.shape() + " (default="@ + d + ")"@,
            None => self.shape(),
        }
    }

    /// The line that describes the parameter: its heading, filled up to
    /// forty characters, and the description.
    pub open spec fn describe(self) -> Seq<char> {
        padded(self.heading(), 40) + " "@ + self.desc + "\n"@
    }

    /// The parameter after it has been marked as satisfied: where the user
    /// gave no value and there is a default, it holds the default's value.
    pub open spec fn set_satisfied(self) -> SimpleParamView {
        SimpleParamView {
            satisfied: true,
            value: if !self.supplied_by_user && self.default is Some {
                Some(value_of(self.kind, self.default->0))
            } else {
                self.value
            },
            ..self
        }
    }
}

impl View for SimpleParam {
    type V = SimpleParamView;

    closed spec fn view(&self) -> SimpleParamView {
        SimpleParamView {
            prefix: self.prefix@,
            kind: self.kind,
            default: match self.default {
                Some(d) => Some(d@),
                None => None,
            },
            desc: self.desc@,
            required: self.required,
            value: match self.value {
                Some(v) => Some(v@),
                None => None,
            },
            supplied_by_user: self.supplied_by_user,
            satisfied: self.satisfied,
        }
    }
}

impl SimpleParam {
    #[verifier::type_invariant]
    spec fn inv(&self) -> bool {
        self@.wf()
    }

    /// Declares a parameter. A default must be a text of the grammar of
    /// `kind`.
    pub fn new(
        prefix: &'static str,
        kind: ValueKind,
        default: Option<&'static str>,
        desc: &'static str,
        required: bool,
    ) -> (param: Self)
        requires
            default matches Some(d) ==> accepts(kind, d@),
        ensures
            param@ == SimpleParamView::declared(
                prefix@,
                kind,
                match default {
                    Some(d) => Some(d@),
                    None => None,
                },
                desc@,
                required,
            ),
            param@.wf(),
    {
        SimpleParam {
            prefix,
            kind,
            default,
            desc,
            required,
            value: None,
            supplied_by_user: false,
            satisfied: false,
        }
    }

    /// What the parameter makes of `arg`.
    pub fn try_match(&self, arg: &str) -> (result: ParamMatchResult)
        ensures
            result@ == self@.try_match(arg@),
    {
        let cs = chars_of(arg);
        let ps = chars_of(self.prefix);
        if !starts_with(cs.as_slice(), ps.as_slice()) {
            return ParamMatchResult::NoMatch;
        }
        if self.supplied_by_user {
            return ParamMatchResult::Error(
                ValidationError::DuplicateSupply { name: String::from_str(self.prefix) },
            );
        }
        let rest = arg.substring_char(ps.len(), cs.len());
        assert(rest@ =~= self@.rest(arg@));
        match parse_value(self.kind, rest) {
            Ok(_) => ParamMatchResult::Match,
            Err(e) => ParamMatchResult::Error(e),
        }
    }

    /// Takes `arg`, which starts with the prefix: checks what follows the
    /// prefix once more, stores its value and marks the parameter as supplied.
    pub fn parse(&mut self, arg: &str) -> (result: Result<(), ValidationError>)
        requires
            old(self)@.prefix.is_prefix_of(arg@),
        ensures
            match result {
                Ok(()) => old(self)@.parse(arg@) == Ok::<SimpleParamView, ValidationErrorView>(
                    final(self)@,
                ),
                Err(e) => old(self)@.parse(arg@) == Err::<SimpleParamView, ValidationErrorView>(e@)
                    && final(self)@ == old(self)@,
            },
            old(self)@.wf(),
            final(self)@.wf(),
    {
        proof {
            use_type_invariant(&*self);
        }
        let cs = chars_of(arg);
        let ps = chars_of(self.prefix);
        let rest = arg.substring_char(ps.len(), cs.len());
        assert(rest@ =~= self@.rest(arg@));
        match parse_value(self.kind, rest) {
            Ok(v) => {
                *self = SimpleParam {
                    prefix: self.prefix,
                    kind: self.kind,
                    default: self.default,
                    desc: self.desc,
                    required: self.required,
                    value: Some(v),
                    supplied_by_user: true,
                    satisfied: self.satisfied,
                };
                Ok(())
            },
            Err(e) => Err(e),
        }
    }

    /// The prefix by which the parameter is known.
    pub fn prefix(&self) -> (prefix: &'static str)
        ensures
            prefix@ == self@.prefix,
    {
        self.prefix
    }

    /// Whether the user has given the parameter.
    pub fn supplied_by_user(&self) -> (b: bool)
        ensures
            b == self@.supplied_by_user,
    {
        self.supplied_by_user
    }

    /// Whether the parameter must be given.
    pub fn required(&self) -> (b: bool)
        ensures
            b == self@.required,
    {
        self.required
    }

    /// Whether the parameter has been marked as satisfied.
    pub fn satisfied(&self) -> (b: bool)
        ensures
            b == self@.satisfied,
    {
        self.satisfied
    }

    /// Marks the parameter as satisfied. Where the user gave no value and
    /// there is a default, the default's value is stored.
    pub fn set_satisfied(&mut self)
        ensures
            final(self)@ == old(self)@.set_satisfied(),
            old(self)@.wf(),
            final(self)@.wf(),
    {
        proof {
            use_type_invariant(&*self);
        }
        if !self.supplied_by_user {
            if let Some(default) = self.default {
                match parse_value(self.kind, default) {
                    Ok(v) => {
                        *self = SimpleParam {
                            prefix: self.prefix,
                            kind: self.kind,
                            default: self.default,
                            desc: self.desc,
                            required: self.required,
                            value: Some(v),
                            supplied_by_user: false,
                            satisfied: true,
                        };
                        return ;
                    },
                    Err(_) => {
                        assert(false);
                    },
                }
            }
        }
        self.satisfied = true;
    }

    /// The value of a satisfied parameter, if it has one. The parameter is
    /// used up.
    pub fn get(self) -> (value: Option<Value>)
        requires
            self@.satisfied,
        ensures
            match value {
                Some(v) => self@.value == Some(v@),
                None => self@.value is None,
            },
            self@.wf(),
    {
        proof {
            use_type_invariant(&self);
        }
        self.value
    }
}

impl SimpleParam {
    /// Appends the parameter with a `?` for its value.
    fn push_shape(&self, out: &mut String)
        ensures
            final(out)@ == old(out)@ + self@.shape(),
    {
        out.append(self.prefix);
        match self.kind {
            ValueKind::Flag => {},
            _ => {
                out.append("?");
            },
        }
        assert(out@ =~= old(out)@ + self@.shape());
    }

    /// The parameter as it stands in a line of usage.
    pub fn print_usage(&self) -> (text: String)
        ensures
            text@ == self@.usage(),
    {
        let mut text = String::new();
        if self.required {
            self.push_shape(&mut text);
        } else {
            text.append("[");
            self.push_shape(&mut text);
            text.append("]");
        }
        assert(text@ =~= self@.usage());
        text
    }

    /// The line that describes the parameter.
    pub fn print_desc(&self) -> (text: String)
        ensures
            text@ == self@.describe(),
    {
        let mut text = String::new();
        self.push_shape(&mut text);
        if let Some(default) = self.default {
            text.append(" (default=");
            text.append(default);
            text.append(")");
        }
        assert(text@ =~= self@.heading());
        pad(&mut text, 40);
        text.append(" ");
        text.append(self.desc);
        text.append("\n");
        text
    }
}

/// A parameter that the user has not given holds, once it is marked as
/// satisfied, the value that its default denotes; without a default it holds
/// no value.
pub proof fn lemma_default_when_not_supplied(p: SimpleParamView)
    requires
        p.wf(),
        !p.supplied_by_user,
        !p.satisfied,
    ensures
        p.set_satisfied().satisfied,
        p.set_satisfied().wf(),
        p.set_satisfied().value == match p.default {
            Some(d) => Some(value_of(p.kind, d)),
            None => None,
        },
{
}

/// A parameter that has taken one argument makes a duplicate of every other
/// with its prefix, whether or not what follows the prefix is of its grammar
/// and whether or not it is the same text again.
pub proof fn lemma_second_supply_is_duplicate(p: SimpleParamView, first: Seq<char>, second: Seq<char>)
    requires
        p.parse(first) is Ok,
        p.prefix.is_prefix_of(second),
    ensures
        p.parse(first)->Ok_0.try_match(second) == MatchView::Error(
            ValidationErrorView::DuplicateSupply { name: p.prefix },
        ),
{
}

} // verus!
