//! The value grammars: what text a parameter of each type takes, and the value
//! that the text denotes.

use super::error::{ValidationError, ValidationErrorView};
use super::text::{chars_of, split, split_on, string_views, views};
use std::time::Duration;
use vstd::prelude::*;

verus! {

/// A decimal digit.
pub open spec fn is_digit(c: char) -> bool {
    '0' <= c <= '9'
}

/// The number that a decimal digit stands for.
pub open spec fn digit_of(c: char) -> nat {
    if is_digit(c) {
        (c as int - '0' as int) as nat
    } else {
        0
    }
}

/// Whether `s` holds decimal digits only.
pub open spec fn all_digits(s: Seq<char>) -> bool {
    forall|i: int| 0 <= i < s.len() ==> is_digit(#[trigger] s[i])
}

/// The number that the decimal digits `s` denote.
pub open spec fn digits_value(s: Seq<char>) -> nat
    decreases s.len(),
{
    if s.len() == 0 {
        0
    } else {
        digits_value(s.drop_last()) * 10 + digit_of(s.last())
    }
}

/// One or more decimal digits whose value fits in 64 bits.
pub open spec fn is_number(s: Seq<char>) -> bool {
    s.len() > 0 && all_digits(s) && digits_value(s) <= u64::MAX
}

/// A longer run of digits denotes no smaller a number.
pub proof fn lemma_digits_value_grows(s: Seq<char>, i: int, j: int)
    requires
        0 <= i <= j <= s.len(),
    ensures
        digits_value(s.take(i)) <= digits_value(s.take(j)),
    decreases j - i,
{
    if i < j {
        lemma_digits_value_grows(s, i, j - 1);
        assert(s.take(j).drop_last() =~= s.take(j - 1));
        assert(digits_value(s.take(j - 1)) * 10 >= digits_value(s.take(j - 1))) by (nonlinear_arith);
    }
}

fn digit(c: char) -> (d: Option<u64>)
    ensures
        match d {
            Some(v) => is_digit(c) && v == digit_of(c),
            None => !is_digit(c),
        },
{
    if '0' <= c && c <= '9' {
        Some((c as u32 - '0' as u32) as u64)
    } else {
        None
    }
}

/// The number that `cs[..upto]` denotes, if it is one.
pub fn parse_digits(cs: &[char], upto: usize) -> (r: Option<u64>)
    requires
        upto <= cs.len(),
    ensures
        match r {
            Some(v) => is_number(cs@.take(upto as int)) && v == digits_value(cs@.take(upto as int)),
            None => !is_number(cs@.take(upto as int)),
        },
{
    let ghost s = cs@.take(upto as int);
    if upto == 0 {
        return None;
    }
    let mut acc: u64 = 0;
    let mut i: usize = 0;
    assert(s.take(0) =~= Seq::<char>::empty());
    while i < upto
        invariant
            i <= upto <= cs.len(),
            s == cs@.take(upto as int),
            all_digits(s.take(i as int)),
            acc == digits_value(s.take(i as int)),
        decreases upto - i,
    {
        assert(s.take(i + 1).drop_last() =~= s.take(i as int));
        assert(s.take(i + 1).last() == cs@[i as int]);
        let next = match digit(cs[i]) {
            None => {
                assert(!is_digit(s[i as int]));
                return None;
            },
            Some(d) => match acc.checked_mul(10) {
                None => None,
                Some(shifted) => shifted.checked_add(d),
            },
        };
        match next {
            None => {
                proof {
                    lemma_digits_value_grows(s, i + 1, upto as int);
                    assert(s.take(upto as int) =~= s);
                }
                return None;
            },
            Some(v) => {
                acc = v;
            },
        }
        assert forall|j: int| 0 <= j < i + 1 implies is_digit(#[trigger] s.take(i + 1)[j]) by {
            if j < i {
                assert(s.take(i as int)[j] == s.take(i + 1)[j]);
            }
        }
        i = i + 1;
    }
    assert(s.take(upto as int) =~= s);
    Some(acc)
}

fn malformed(s: &str, pattern: &'static str) -> (e: ValidationError)
    ensures
        e@ == (ValidationErrorView::MalformedValue { text: s@, pattern: pattern@ }),
{
    ValidationError::MalformedValue { text: String::from_str(s), pattern }
}

/// A type of parameter value: a grammar, and the value that each text of the
/// grammar denotes.
pub trait Parsable: Sized {
    type Parsed;

    /// Whether `s` is a text of the grammar.
    spec fn accepts(s: Seq<char>) -> bool;

    /// Whether `v` is the value that the text `s` denotes.
    spec fn denotes(s: Seq<char>, v: Self::Parsed) -> bool;

    /// The grammar as it is shown to the user.
    spec fn pattern() -> Seq<char>;

    /// The value that `s` denotes, or an error that names `s` and the grammar.
    fn parse(s: &str) -> (r: Result<Self::Parsed, ValidationError>)
        ensures
            match r {
                Ok(v) => Self::accepts(s@) && Self::denotes(s@, v),
                Err(e) => !Self::accepts(s@) && e@ == (ValidationErrorView::MalformedValue {
                    text: s@,
                    pattern: Self::pattern(),
                }),
            },
    ;

    /// Whether the type is the presence-only flag, which the help text shows
    /// without a value.
    fn is_bool() -> (b: bool)
        ensures
            b == (forall|s: Seq<char>| Self::accepts(s) <==> s.len() == 0),
    ;
}

/// An unsigned integer: one or more digits.
impl Parsable for u64 {
    type Parsed = u64;

    open spec fn accepts(s: Seq<char>) -> bool {
        is_number(s)
    }

    open spec fn denotes(s: Seq<char>, v: u64) -> bool {
        v == digits_value(s)
    }

    open spec fn pattern() -> Seq<char> {
        "^[0-9]+$"@
    }

    fn parse(s: &str) -> (r: Result<u64, ValidationError>) {
        let cs = chars_of(s);
        assert(cs@.take(cs@.len() as int) =~= cs@);
        match parse_digits(cs.as_slice(), cs.len()) {
            Some(v) => Ok(v),
            None => Err(malformed(s, "^[0-9]+$")),
        }
    }

    fn is_bool() -> (b: bool) {
        assert(!is_number(Seq::<char>::empty()));
        false
    }
}

/// A flag: given without a value, and true where it is given.
impl Parsable for bool {
    type Parsed = bool;

    open spec fn accepts(s: Seq<char>) -> bool {
        s.len() == 0
    }

    open spec fn denotes(s: Seq<char>, v: bool) -> bool {
        v
    }

    open spec fn pattern() -> Seq<char> {
        "^$"@
    }

    fn parse(s: &str) -> (r: Result<bool, ValidationError>) {
        if s.unicode_len() == 0 {
            Ok(true)
        } else {
            Err(malformed(s, "^$"))
        }
    }

    fn is_bool() -> (b: bool) {
        true
    }
}

/// Free text: any text, taken as it is.
impl Parsable for String {
    type Parsed = String;

    open spec fn accepts(s: Seq<char>) -> bool {
        true
    }

    open spec fn denotes(s: Seq<char>, v: String) -> bool {
        v@ == s
    }

    open spec fn pattern() -> Seq<char> {
        "^.*$"@
    }

    fn parse(s: &str) -> (r: Result<String, ValidationError>) {
        Ok(String::from_str(s))
    }

    fn is_bool() -> (b: bool) {
        assert(Self::accepts(seq!['a']) && seq!['a'].len() != 0);
        false
    }
}

/// The whole seconds of a duration.
pub uninterp spec fn duration_secs(d: Duration) -> u64;

/// Calls `std::time::Duration::from_secs`. Trusted: the duration it returns
/// has the given number of whole seconds.
#[verifier::external_body]
fn duration_from_secs(secs: u64) -> (d: Duration)
    ensures
        duration_secs(d) == secs,
{
    Duration::from_secs(secs)
}

/// The number of seconds in one unit of time: `s`, `m` or `h`.
pub open spec fn unit_seconds(unit: char) -> Option<nat> {
    if unit == 's' {
        Some(1nat)
    } else if unit == 'm' {
        Some(60nat)
    } else if unit == 'h' {
        Some(3600nat)
    } else {
        None
    }
}

/// The factor that a magnitude suffix stands for: `k`, `m` or `b`.
pub open spec fn magnitude(unit: char) -> Option<nat> {
    if unit == 'k' {
        Some(1_000nat)
    } else if unit == 'm' {
        Some(1_000_000nat)
    } else if unit == 'b' {
        Some(1_000_000_000nat)
    } else {
        None
    }
}

fn seconds_per(unit: char) -> (r: Option<u64>)
    ensures
        match r {
            Some(v) => unit_seconds(unit) == Some(v as nat),
            None => unit_seconds(unit) is None,
        },
{
    if unit == 's' {
        Some(1)
    } else if unit == 'm' {
        Some(60)
    } else if unit == 'h' {
        Some(3600)
    } else {
        None
    }
}

fn factor_of(unit: char) -> (r: Option<u64>)
    ensures
        match r {
            Some(v) => magnitude(unit) == Some(v as nat),
            None => magnitude(unit) is None,
        },
{
    if unit == 'k' {
        Some(1_000)
    } else if unit == 'm' {
        Some(1_000_000)
    } else if unit == 'b' {
        Some(1_000_000_000)
    } else {
        None
    }
}

/// The seconds that a duration text denotes: its digits times its unit.
pub open spec fn duration_value(s: Seq<char>) -> nat {
    digits_value(s.drop_last()) * unit_seconds(s.last())->0
}

/// The number that a count text denotes: its digits, times the factor of its
/// suffix where it has one.
pub open spec fn count_value(s: Seq<char>) -> nat {
    if s.len() > 0 && magnitude(s.last()) is Some {
        digits_value(s.drop_last()) * magnitude(s.last())->0
    } else {
        digits_value(s)
    }
}

/// The number that a rate text denotes: its digits, without the `/s`.
pub open spec fn rate_value(s: Seq<char>) -> nat {
    digits_value(s.take(s.len() - 2))
}

/// A duration: one or more digits and a unit, `s`, `m` or `h`.
impl Parsable for Duration {
    type Parsed = Duration;

    open spec fn accepts(s: Seq<char>) -> bool {
        &&& s.len() >= 2
        &&& unit_seconds(s.last()) is Some
        &&& is_number(s.drop_last())
        &&& duration_value(s) <= u64::MAX
    }

    open spec fn denotes(s: Seq<char>, v: Duration) -> bool {
        duration_secs(v) == duration_value(s)
    }

    open spec fn pattern() -> Seq<char> {
        "^[0-9]+[smh]$"@
    }

    fn parse(s: &str) -> (r: Result<Duration, ValidationError>) {
        let cs = chars_of(s);
        let n = cs.len();
        if n < 2 {
            return Err(malformed(s, "^[0-9]+[smh]$"));
        }
        assert(cs@.take(n - 1) =~= cs@.drop_last());
        let seconds = match seconds_per(cs[n - 1]) {
            None => None,
            Some(unit) => match parse_digits(cs.as_slice(), n - 1) {
                None => None,
                Some(count) => count.checked_mul(unit),
            },
        };
        match seconds {
            Some(secs) => Ok(duration_from_secs(secs)),
            None => Err(malformed(s, "^[0-9]+[smh]$")),
        }
    }

    fn is_bool() -> (b: bool) {
        assert(!Self::accepts(Seq::<char>::empty()));
        false
    }
}

/// A count: one or more digits, and at will one of the suffixes `k`, `m` and
/// `b` for a thousand, a million and a billion.
#[derive(Debug, PartialEq, Eq)]
pub struct Count;

impl Parsable for Count {
    type Parsed = u64;

    open spec fn accepts(s: Seq<char>) -> bool {
        ||| is_number(s)
        ||| {
            &&& s.len() >= 2
            &&& magnitude(s.last()) is Some
            &&& is_number(s.drop_last())
            &&& count_value(s) <= u64::MAX
        }
    }

    open spec fn denotes(s: Seq<char>, v: u64) -> bool {
        v == count_value(s)
    }

    open spec fn pattern() -> Seq<char> {
        "^[0-9]+[bmk]?$"@
    }

    fn parse(s: &str) -> (r: Result<u64, ValidationError>) {
        let cs = chars_of(s);
        let n = cs.len();
        if n == 0 {
            return Err(malformed(s, "^[0-9]+[bmk]?$"));
        }
        assert(cs@.take(n as int) =~= cs@);
        assert(cs@.take(n - 1) =~= cs@.drop_last());
        let value = match factor_of(cs[n - 1]) {
            None => parse_digits(cs.as_slice(), n),
            Some(factor) => {
                assert(!is_digit(cs@.last()));
                match parse_digits(cs.as_slice(), n - 1) {
                    None => None,
                    Some(count) => count.checked_mul(factor),
                }
            },
        };
        match value {
            Some(v) => Ok(v),
            None => Err(malformed(s, "^[0-9]+[bmk]?$")),
        }
    }

    fn is_bool() -> (b: bool) {
        assert(!Self::accepts(Seq::<char>::empty()));
        false
    }
}

/// A rate: one or more digits followed by `/s`.
pub struct Rate;

impl Parsable for Rate {
    type Parsed = u64;

    open spec fn accepts(s: Seq<char>) -> bool {
        &&& s.len() >= 3
        &&& s[s.len() - 2] == '/'
        &&& s[s.len() - 1] == 's'
        &&& is_number(s.take(s.len() - 2))
    }

    open spec fn denotes(s: Seq<char>, v: u64) -> bool {
        v == rate_value(s)
    }

    open spec fn pattern() -> Seq<char> {
        "^[0-9]+/s$"@
    }

    fn parse(s: &str) -> (r: Result<u64, ValidationError>) {
        let cs = chars_of(s);
        let n = cs.len();
        if n < 3 || cs[n - 2] != '/' || cs[n - 1] != 's' {
            return Err(malformed(s, "^[0-9]+/s$"));
        }
        match parse_digits(cs.as_slice(), n - 2) {
            Some(v) => Ok(v),
            None => Err(malformed(s, "^[0-9]+/s$")),
        }
    }

    fn is_bool() -> (b: bool) {
        assert(!Self::accepts(Seq::<char>::empty()));
        false
    }
}

/// A ratio below one: `0.` and one or more digits. The text is checked here
/// and handed on as it is; the number it denotes is a fraction, which this
/// library does not compute.
pub struct Ratio;

impl Parsable for Ratio {
    type Parsed = String;

    open spec fn accepts(s: Seq<char>) -> bool {
        &&& s.len() >= 3
        &&& s[0] == '0'
        &&& s[1] == '.'
        &&& all_digits(s.skip(2))
    }

    open spec fn denotes(s: Seq<char>, v: String) -> bool {
        v@ == s
    }

    open spec fn pattern() -> Seq<char> {
        "^0\\.[0-9]+$"@
    }

    fn parse(s: &str) -> (r: Result<String, ValidationError>) {
        let cs = chars_of(s);
        let n = cs.len();
        if n < 3 || cs[0] != '0' || cs[1] != '.' {
            return Err(malformed(s, "^0\\.[0-9]+$"));
        }
        let mut i: usize = 2;
        while i < n
            invariant
                2 <= i <= n,
                n == cs@.len(),
                cs@ == s@,
                forall|j: int| 2 <= j < i ==> is_digit(cs@[j]),
            decreases n - i,
        {
            if digit(cs[i]).is_none() {
                assert(!is_digit(s@.skip(2)[i - 2]));
                return Err(malformed(s, "^0\\.[0-9]+$"));
            }
            i = i + 1;
        }
        assert forall|j: int| 0 <= j < s@.skip(2).len() implies is_digit(
            #[trigger] s@.skip(2)[j],
        ) by {
            assert(is_digit(cs@[j + 2]));
        }
        Ok(String::from_str(s))
    }

    fn is_bool() -> (b: bool) {
        assert(!Self::accepts(Seq::<char>::empty()));
        false
    }
}

/// Whether the character `c` occurs nowhere in `s`.
pub open spec fn free_of(s: Seq<char>, c: char) -> bool {
    forall|i: int| 0 <= i < s.len() ==> #[trigger] s[i] != c
}

/// Whether every piece has at least one character.
pub open spec fn all_nonempty(pieces: Seq<Seq<char>>) -> bool {
    forall|k: int| 0 <= k < pieces.len() ==> (#[trigger] pieces[k]).len() > 0
}

/// A list: one or more items separated by commas, each item with at least one
/// character and without `=`.
pub struct CommaDelimitedList;

impl Parsable for CommaDelimitedList {
    type Parsed = Vec<String>;

    open spec fn accepts(s: Seq<char>) -> bool {
        free_of(s, '=') && all_nonempty(split(s, ','))
    }

    open spec fn denotes(s: Seq<char>, v: Vec<String>) -> bool {
        string_views(v@) == split(s, ',')
    }

    open spec fn pattern() -> Seq<char> {
        "^[^=,]+(,[^=,]+)*$"@
    }

    fn parse(s: &str) -> (r: Result<Vec<String>, ValidationError>) {
        let cs = chars_of(s);
        let mut i: usize = 0;
        while i < cs.len()
            invariant
                i <= cs.len(),
                cs@ == s@,
                forall|j: int| 0 <= j < i ==> cs@[j] != '=',
            decreases cs.len() - i,
        {
            if cs[i] == '=' {
                return Err(malformed(s, "^[^=,]+(,[^=,]+)*$"));
            }
            i = i + 1;
        }
        let parts = split_on(s, ',');
        let mut items: Vec<String> = Vec::new();
        let mut k: usize = 0;
        while k < parts.len()
            invariant
                k <= parts.len(),
                views(parts@) == split(s@, ','),
                items@.len() == k,
                forall|j: int| 0 <= j < k ==> (#[trigger] items@[j])@ == parts@[j]@,
                forall|j: int| 0 <= j < k ==> (#[trigger] split(s@, ',')[j]).len() > 0,
            decreases parts.len() - k,
        {
            let part = parts[k];
            assert(views(parts@)[k as int] == part@);
            if part.unicode_len() == 0 {
                return Err(malformed(s, "^[^=,]+(,[^=,]+)*$"));
            }
            items.push(String::from_str(part));
            k = k + 1;
        }
        assert(string_views(items@) =~= views(parts@)) by {
            assert forall|j: int| 0 <= j < items@.len() implies string_views(items@)[j] == views(
                parts@,
            )[j] by {
                assert(items@[j]@ == parts@[j]@);
            }
        }
        Ok(items)
    }

    fn is_bool() -> (b: bool) {
        proof {
            let e = Seq::<char>::empty();
            assert(split(e, ',')[0].len() == 0);
            assert(!Self::accepts(e));
        }
        false
    }
}

} // verus!
