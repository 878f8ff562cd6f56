//! Values of every type behind one face: the type of a parameter is chosen
//! when the parameter is declared, and its value is held with its type.

use super::error::{ValidationError, ValidationErrorView};
use super::text::{split, string_views};
use super::types::{
    count_value, digits_value, duration_secs, duration_value, rate_value, CommaDelimitedList,
    Count, Parsable, Rate, Ratio,
};
use std::time::Duration;
use vstd::prelude::*;

verus! {

/// The types of value that a parameter can take.
#[derive(Clone, Copy, PartialEq, Eq, Debug)]
pub enum ValueKind {
    Unsigned,
    Ratio,
    Flag,
    Text,
    Duration,
    Count,
    Rate,
    CommaList,
}

/// A value, held with its type.
#[derive(Debug)]
pub enum Value {
    Unsigned(u64),
    /// The checked text of a ratio.
    Ratio(String),
    Flag(bool),
    Text(String),
    Duration(Duration),
    Count(u64),
    Rate(u64),
    CommaList(Vec<String>),
}

/// A [`Value`] with its texts as character sequences and a duration as its
/// whole seconds.
pub enum ValueView {
    Unsigned(u64),
    Ratio(Seq<char>),
    Flag(bool),
    Text(Seq<char>),
    Duration(u64),
    Count(u64),
    Rate(u64),
    CommaList(Seq<Seq<char>>),
}

impl ValueView {
    /// The type of the value.
    pub open spec fn kind(self) -> ValueKind {
        match self {
            ValueView::Unsigned(_) => ValueKind::Unsigned,
            ValueView::Ratio(_) => ValueKind::Ratio,
            ValueView::Flag(_) => ValueKind::Flag,
            ValueView::Text(_) => ValueKind::Text,
            ValueView::Duration(_) => ValueKind::Duration,
            ValueView::Count(_) => ValueKind::Count,
            ValueView::Rate(_) => ValueKind::Rate,
            ValueView::CommaList(_) => ValueKind::CommaList,
        }
    }
}

impl View for Value {
    type V = ValueView;

    open spec fn view(&self) -> ValueView {
        match self {
            Value::Unsigned(v) => ValueView::Unsigned(*v),
            Value::Ratio(v) => ValueView::Ratio(v@),
            Value::Flag(v) => ValueView::Flag(*v),
            Value::Text(v) => ValueView::Text(v@),
            Value::Duration(v) => ValueView::Duration(duration_secs(*v)),
            Value::Count(v) => ValueView::Count(*v),
            Value::Rate(v) => ValueView::Rate(*v),
            Value::CommaList(v) => ValueView::CommaList(string_views(v@)),
        }
    }
}

/// Whether `s` is a text of the grammar of `kind`.
pub open spec fn accepts(kind: ValueKind, s: Seq<char>) -> bool {
    match kind {
        ValueKind::Unsigned => <u64 as Parsable>::accepts(s),
        ValueKind::Ratio => <Ratio as Parsable>::accepts(s),
        ValueKind::Flag => <bool as Parsable>::accepts(s),
        ValueKind::Text => <String as Parsable>::accepts(s),
        ValueKind::Duration => <Duration as Parsable>::accepts(s),
        ValueKind::Count => <Count as Parsable>::accepts(s),
        ValueKind::Rate => <Rate as Parsable>::accepts(s),
        ValueKind::CommaList => <CommaDelimitedList as Parsable>::accepts(s),
    }
}

/// The value of type `kind` that the text `s` of its grammar denotes.
pub open spec fn value_of(kind: ValueKind, s: Seq<char>) -> ValueView {
    match kind {
        ValueKind::Unsigned => ValueView::Unsigned(digits_value(s) as u64),
        ValueKind::Ratio => ValueView::Ratio(s),
        ValueKind::Flag => ValueView::Flag(true),
        ValueKind::Text => ValueView::Text(s),
        ValueKind::Duration => ValueView::Duration(duration_value(s) as u64),
        ValueKind::Count => ValueView::Count(count_value(s) as u64),
        ValueKind::Rate => ValueView::Rate(rate_value(s) as u64),
        ValueKind::CommaList => ValueView::CommaList(split(s, ',')),
    }
}

/// The grammar of `kind` as it is shown to the user.
pub open spec fn pattern_of(kind: ValueKind) -> Seq<char> {
    match kind {
        ValueKind::Unsigned => <u64 as Parsable>::pattern(),
        ValueKind::Ratio => <Ratio as Parsable>::pattern(),
        ValueKind::Flag => <bool as Parsable>::pattern(),
        ValueKind::Text => <String as Parsable>::pattern(),
        ValueKind::Duration => <Duration as Parsable>::pattern(),
        ValueKind::Count => <Count as Parsable>::pattern(),
        ValueKind::Rate => <Rate as Parsable>::pattern(),
        ValueKind::CommaList => <CommaDelimitedList as Parsable>::pattern(),
    }
}

/// The value of type `kind` that `s` denotes, or an error that names `s` and
/// the grammar.
pub fn parse_value(kind: ValueKind, s: &str) -> (r: Result<Value, ValidationError>)
    ensures
        match r {
            Ok(v) => accepts(kind, s@) && v@ == value_of(kind, s@),
            Err(e) => !accepts(kind, s@) && e@ == (ValidationErrorView::MalformedValue {
                text: s@,
                pattern: pattern_of(kind),
            }),
        },
{
    match kind {
        ValueKind::Unsigned => match <u64 as Parsable>::parse(s) {
            Ok(v) => Ok(Value::Unsigned(v)),
            Err(e) => Err(e),
        },
        ValueKind::Ratio => match <Ratio as Parsable>::parse(s) {
            Ok(v) => Ok(Value::Ratio(v)),
            Err(e) => Err(e),
        },
        ValueKind::Flag => match <bool as Parsable>::parse(s) {
            Ok(v) => Ok(Value::Flag(v)),
            Err(e) => Err(e),
        },
        ValueKind::Text => match <String as Parsable>::parse(s) {
            Ok(v) => Ok(Value::Text(v)),
            Err(e) => Err(e),
        },
        ValueKind::Duration => match <Duration as Parsable>::parse(s) {
            Ok(v) => Ok(Value::Duration(v)),
            Err(e) => Err(e),
        },
        ValueKind::Count => match <Count as Parsable>::parse(s) {
            Ok(v) => Ok(Value::Count(v)),
            Err(e) => Err(e),
        },
        ValueKind::Rate => match <Rate as Parsable>::parse(s) {
            Ok(v) => Ok(Value::Rate(v)),
            Err(e) => Err(e),
        },
        ValueKind::CommaList => match <CommaDelimitedList as Parsable>::parse(s) {
            Ok(v) => Ok(Value::CommaList(v)),
            Err(e) => Err(e),
        },
    }
}

} // verus!
