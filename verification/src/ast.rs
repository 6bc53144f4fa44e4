//! The pattern tree: the content of a message, term or attribute.
//!
//! A pattern is an ordered sequence of elements, each either literal text or
//! a placeable (an embedded expression). Expressions are inline values
//! (literals, variable references, function calls, message or term
//! references) or selection expressions (a selector plus keyed variants,
//! each variant carrying a pattern of its own).

use vstd::prelude::*;

verus! {

/// One argument list of a function or term call: positional values followed
/// by named values.
pub struct CallArguments {
    pub positional: Vec<InlineExpression>,
    pub named: Vec<NamedArgument>,
}

/// A named argument of a call: `name: value`.
pub struct NamedArgument {
    pub name: String,
    pub value: InlineExpression,
}

/// An inline expression: a value that can stand inside a placeable or as a
/// call argument or selector.
#[allow(inconsistent_fields)]
pub enum InlineExpression {
    /// A quoted string literal.
    StringLiteral { value: String },
    /// A number literal, kept in its source spelling.
    NumberLiteral { value: String },
    /// A reference to a caller-supplied variable, `$id`.
    VariableReference { id: String },
    /// A function call, `ID(positional, name: value)`.
    FunctionReference { id: String, arguments: CallArguments },
    /// A reference to a message, `id` or `id.attribute`.
    MessageReference { id: String, attribute: Option<String> },
    /// A reference to a term, `-id`, with an optional attribute and an
    /// optional argument list.
    TermReference { id: String, attribute: Option<String>, arguments: Option<CallArguments> },
}

/// An expression inside a placeable: an inline value or a selection.
pub enum Expression {
    Inline(InlineExpression),
    /// A choice point: a selector value and keyed variants, exactly one of
    /// which is marked as the default.
    Select { selector: InlineExpression, variants: Vec<Variant> },
}

/// One branch of a selection expression: a key and the pattern chosen when
/// the selector matches that key.
pub struct Variant {
    pub key: String,
    pub value: Pattern,
    pub default: bool,
}

/// One element of a pattern: literal text or an embedded expression.
pub enum PatternElement {
    Text { value: String },
    Placeable { expression: Expression },
}

/// The text-plus-expressions content of a message, term or attribute.
pub struct Pattern {
    pub elements: Vec<PatternElement>,
}

/// A named sub-pattern of a message or term, `.id = pattern`.
pub struct Attribute {
    pub id: String,
    pub value: Pattern,
}

/// One definition of a resource: a message (optional value pattern plus
/// attributes) or a term (value pattern always present, plus attributes).
#[allow(inconsistent_fields)]
pub enum Entry {
    Message { id: String, value: Option<Pattern>, attributes: Vec<Attribute> },
    Term { id: String, value: Pattern, attributes: Vec<Attribute> },
}

impl Entry {
    /// The identifier under which the entry is stored: the message id
    /// verbatim, or the term id behind a leading `-`.
    pub open spec fn full_id(self) -> Seq<char> {
        match self {
            Entry::Message { id, .. } => id@,
            Entry::Term { id, .. } => seq!['-'] + id@,
        }
    }

    /// The entry's own identifier, without the `-` sentinel for terms.
    pub open spec fn bare_id(self) -> Seq<char> {
        match self {
            Entry::Message { id, .. } => id@,
            Entry::Term { id, .. } => id@,
        }
    }

    /// The entry's attributes, in document order.
    pub open spec fn attrs(self) -> Seq<Attribute> {
        match self {
            Entry::Message { attributes, .. } => attributes@,
            Entry::Term { attributes, .. } => attributes@,
        }
    }

    /// The entry's value pattern: always present for terms, optional for
    /// messages.
    pub open spec fn value_pattern(self) -> Option<Pattern> {
        match self {
            Entry::Message { value, .. } => value,
            Entry::Term { value, .. } => Some(value),
        }
    }
}

/// The pattern of the first attribute of `s` named `a`, if any.
pub open spec fn attr_pattern(s: Seq<Attribute>, a: Seq<char>) -> Option<Pattern>
    decreases s.len(),
{
    if s.len() == 0 {
        None
    } else if s[0].id@ == a {
        Some(s[0].value)
    } else {
        attr_pattern(s.subrange(1, s.len() as int), a)
    }
}

/// Whether the entry carries an attribute named `a`.
pub open spec fn entry_has_attr(e: Entry, a: Seq<char>) -> bool {
    attr_pattern(e.attrs(), a) is Some
}

/// Looks up the first attribute named `a` on the entry.
pub fn find_attribute<'a>(e: &'a Entry, a: &str) -> (r: Option<&'a Pattern>)
    ensures
        match r {
            Some(p) => attr_pattern(e.attrs(), a@) == Some(*p),
            None => attr_pattern(e.attrs(), a@) is None,
        },
{
    let attributes = match e {
        Entry::Message { attributes, .. } => attributes,
        Entry::Term { attributes, .. } => attributes,
    };
    let ghost s = e.attrs();
    let mut i: usize = 0;
    proof {
        assert(s.subrange(0, s.len() as int) =~= s);
    }
    while i < attributes.len()
        invariant
            0 <= i <= s.len(),
            s == attributes@,
            s == e.attrs(),
            attr_pattern(s, a@) == attr_pattern(s.subrange(i as int, s.len() as int), a@),
        decreases s.len() - i,
    {
        if crate::strutil::str_eq(attributes[i].id.as_str(), a) {
            proof {
                assert(s.subrange(i as int, s.len() as int)[0] == s[i as int]);
                assert(attr_pattern(s.subrange(i as int, s.len() as int), a@) == Some(
                    s[i as int].value,
                ));
            }
            return Some(&attributes[i].value);
        }
        proof {
            assert(s.subrange(i as int, s.len() as int).subrange(
                1,
                s.subrange(i as int, s.len() as int).len() as int,
            ) =~= s.subrange(i as int + 1, s.len() as int));
            assert(s.subrange(i as int, s.len() as int)[0] == s[i as int]);
        }
        i = i + 1;
    }
    None
}

/// Whether the entry carries an attribute named `a`.
pub fn has_attribute(e: &Entry, a: &str) -> (r: bool)
    ensures
        r == entry_has_attr(*e, a@),
{
    match find_attribute(e, a) {
        Some(_) => true,
        None => false,
    }
}

} // verus!
