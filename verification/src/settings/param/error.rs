//! What can be wrong with the text that a user gives for an option.

use vstd::prelude::*;

verus! {

/// A fault in the user's input. Each one names the text at fault.
#[derive(Debug)]
pub enum ValidationError {
    /// `text` was given where a value of the grammar `pattern` is expected.
    MalformedValue { text: String, pattern: &'static str },
    /// The parameter `name` was given more than once.
    DuplicateSupply { name: String },
    /// Nothing under `owner`, an option or a parameter, takes the argument
    /// `text`.
    UnrecognizedArgument { text: String, owner: String },
    /// No alternative of the option fits what was given. For each
    /// alternative, in the order of declaration, `missing` lists the
    /// required parameters that were not given, and `unexpected` the
    /// parameters that were given and do not belong to it.
    UnsatisfiedGroup { missing: Vec<Vec<String>>, unexpected: Vec<Vec<String>> },
    /// The key `key` occurs twice among the free `key=value` pairs of one
    /// parameter.
    ArbitraryKeyCollision { key: String },
}

/// A [`ValidationError`] with its texts as character sequences.
pub enum ValidationErrorView {
    MalformedValue { text: Seq<char>, pattern: Seq<char> },
    DuplicateSupply { name: Seq<char> },
    UnrecognizedArgument { text: Seq<char>, owner: Seq<char> },
    UnsatisfiedGroup { missing: Seq<Seq<Seq<char>>>, unexpected: Seq<Seq<Seq<char>>> },
    ArbitraryKeyCollision { key: Seq<char> },
}

impl View for ValidationError {
    type V = ValidationErrorView;

    open spec fn view(&self) -> ValidationErrorView {
        match self {
            ValidationError::MalformedValue { text, pattern } => ValidationErrorView::MalformedValue {
                text: text@,
                pattern: pattern@,
            },
            ValidationError::DuplicateSupply { name } => ValidationErrorView::DuplicateSupply {
                name: name@,
            },
            ValidationError::UnrecognizedArgument {
                text,
                owner,
            } => ValidationErrorView::UnrecognizedArgument { text: text@, owner: owner@ },
            ValidationError::UnsatisfiedGroup {
                missing,
                unexpected,
            } => ValidationErrorView::UnsatisfiedGroup {
                missing: missing.deep_view(),
                unexpected: unexpected.deep_view(),
            },
            ValidationError::ArbitraryKeyCollision {
                key,
            } => ValidationErrorView::ArbitraryKeyCollision { key: key@ },
        }
    }
}

/// The names `names[j..]`, with `, ` between two of them.
pub open spec fn listed(names: Seq<Seq<char>>, j: int) -> Seq<char>
    decreases names.len() - j,
{
    if 0 <= j < names.len() {
        (if j > 0 {
            ", "@
        } else {
            Seq::empty()
        }) + names[j] + listed(names, j + 1)
    } else {
        Seq::empty()
    }
}

/// What is wrong with the groups from number `g` on: for each a line with
/// what it is missing and what it did not expect.
pub open spec fn group_faults(
    missing: Seq<Seq<Seq<char>>>,
    unexpected: Seq<Seq<Seq<char>>>,
    g: int,
) -> Seq<char>
    decreases missing.len() - g,
{
    if 0 <= g < missing.len() && g < unexpected.len() {
        "\n  missing: "@ + listed(missing[g], 0) + "; unexpected: "@ + listed(unexpected[g], 0)
            + group_faults(missing, unexpected, g + 1)
    } else {
        Seq::empty()
    }
}

/// The fault in words, for the user.
pub open spec fn message_of(e: ValidationErrorView) -> Seq<char> {
    match e {
        ValidationErrorView::MalformedValue { text, pattern } => "Invalid value "@ + text
            + "; must match pattern "@ + pattern,
        ValidationErrorView::DuplicateSupply { name } => name
            + " suboption has been specified more than once"@,
        ValidationErrorView::UnrecognizedArgument { text, owner } => "Invalid "@ + owner
            + " specification: "@ + text,
        ValidationErrorView::UnsatisfiedGroup {
            missing,
            unexpected,
        } => "Invalid combination of parameters; for each alternative:"@ + group_faults(
            missing,
            unexpected,
            0,
        ),
        ValidationErrorView::ArbitraryKeyCollision { key } => key
            + " suboption has been specified more than once"@,
    }
}

/// Appends `names`, with `, ` between two of them.
fn push_listed(names: &Vec<String>, out: &mut String)
    ensures
        final(out)@ == old(out)@ + listed(names.deep_view(), 0),
{
    let ghost all = names.deep_view();
    let mut j: usize = 0;
    while j < names.len()
        invariant
            j <= names.len(),
            all == names.deep_view(),
            out@ + listed(all, j as int) == old(out)@ + listed(all, 0),
        decreases names.len() - j,
    {
        let ghost before = out@;
        if j > 0 {
            out.append(", ");
        }
        out.append(names[j].as_str());
        assert(all[j as int] == names@[j as int]@);
        assert(out@ + listed(all, j as int + 1) =~= before + listed(all, j as int));
        j = j + 1;
    }
    assert(out@ + Seq::<char>::empty() =~= out@);
}

impl ValidationError {
    /// The fault in words, for the user.
    pub fn message(&self) -> (text: String)
        ensures
            text@ == message_of(self@),
    {
        let mut text = String::new();
        match self {
            ValidationError::MalformedValue { text: value, pattern } => {
                text.append("Invalid value ");
                text.append(value.as_str());
                text.append("; must match pattern ");
                text.append(pattern);
                assert(text@ =~= message_of(self@));
            },
            ValidationError::DuplicateSupply { name } => {
                text.append(name.as_str());
                text.append(" suboption has been specified more than once");
                assert(text@ =~= message_of(self@));
            },
            ValidationError::UnrecognizedArgument { text: argument, owner } => {
                text.append("Invalid ");
                text.append(owner.as_str());
                text.append(" specification: ");
                text.append(argument.as_str());
                assert(text@ =~= message_of(self@));
            },
            ValidationError::UnsatisfiedGroup { missing, unexpected } => {
                text.append("Invalid combination of parameters; for each alternative:");
                let ghost head = text@;
                let ghost m = missing.deep_view();
                let ghost u = unexpected.deep_view();
                let mut g: usize = 0;
                while g < missing.len() && g < unexpected.len()
                    invariant
                        g <= missing.len(),
                        g <= unexpected.len(),
                        m == missing.deep_view(),
                        u == unexpected.deep_view(),
                        text@ + group_faults(m, u, g as int) == head + group_faults(m, u, 0),
                    decreases missing.len() - g,
                {
                    let ghost before = text@;
                    text.append("\n  missing: ");
                    push_listed(&missing[g], &mut text);
                    text.append("; unexpected: ");
                    push_listed(&unexpected[g], &mut text);
                    assert(m[g as int] == missing@[g as int].deep_view());
                    assert(u[g as int] == unexpected@[g as int].deep_view());
                    assert(text@ + group_faults(m, u, g as int + 1) =~= before + group_faults(
                        m,
                        u,
                        g as int,
                    ));
                    g = g + 1;
                }
                assert(text@ + Seq::<char>::empty() =~= text@);
            },
            ValidationError::ArbitraryKeyCollision { key } => {
                text.append(key.as_str());
                text.append(" suboption has been specified more than once");
                assert(text@ =~= message_of(self@));
            },
        }
        text
    }
}

} // verus!
