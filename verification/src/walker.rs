//! The pattern walker: a total recursive traversal of a pattern that
//! produces the set of variable names it references.
//!
//! Every placeable's expression is visited; for function and term calls
//! every positional argument and every named argument's value; for selection
//! expressions the selector and every variant's pattern. Default and
//! non-default variants are treated alike, since any variant may be chosen
//! at runtime.

use vstd::prelude::*;

use crate::ast::CallArguments;
use crate::ast::Expression;
use crate::ast::InlineExpression;
use crate::ast::NamedArgument;
use crate::ast::Pattern;
use crate::ast::PatternElement;
use crate::ast::Variant;

verus! {

/// The set of variable names referenced anywhere in the pattern.
pub open spec fn vars_of_pattern(p: Pattern) -> Set<Seq<char>>
    decreases p, 0int,
{
    vars_of_elements(p.elements@, 0)
}

/// The variables of the elements of `s` from position `i` on.
pub open spec fn vars_of_elements(s: Seq<PatternElement>, i: int) -> Set<Seq<char>>
    decreases s, s.len() - i,
{
    if i < 0 || i >= s.len() {
        Set::empty()
    } else {
        vars_of_element(s[i]).union(vars_of_elements(s, i + 1))
    }
}

/// The variables of one pattern element: none for literal text.
pub open spec fn vars_of_element(e: PatternElement) -> Set<Seq<char>>
    decreases e, 0int,
{
    match e {
        PatternElement::Text { .. } => Set::empty(),
        PatternElement::Placeable { expression } => vars_of_expression(expression),
    }
}

/// The variables of an expression; a selection contributes its selector and
/// all of its variants.
pub open spec fn vars_of_expression(e: Expression) -> Set<Seq<char>>
    decreases e, 2int,
{
    match e {
        Expression::Inline(inline) => vars_of_inline(inline),
        Expression::Select { selector, variants } => vars_of_inline(selector).union(
            vars_of_variants(variants@, 0),
        ),
    }
}

/// The variables of the variants of `s` from position `i` on.
pub open spec fn vars_of_variants(s: Seq<Variant>, i: int) -> Set<Seq<char>>
    decreases s, s.len() - i,
{
    if i < 0 || i >= s.len() {
        Set::empty()
    } else {
        vars_of_pattern(s[i].value).union(vars_of_variants(s, i + 1))
    }
}

/// The variables of an inline expression: a variable reference contributes
/// its own name; function and term calls contribute their arguments'
/// variables; literals and message references contribute nothing.
pub open spec fn vars_of_inline(e: InlineExpression) -> Set<Seq<char>>
    decreases e, 1int,
{
    match e {
        InlineExpression::StringLiteral { .. } => Set::empty(),
        InlineExpression::NumberLiteral { .. } => Set::empty(),
        InlineExpression::VariableReference { id } => set![id@],
        InlineExpression::FunctionReference { arguments, .. } => vars_of_arguments(arguments),
        InlineExpression::MessageReference { .. } => Set::empty(),
        InlineExpression::TermReference { arguments, .. } => match arguments {
            Some(a) => vars_of_arguments(a),
            None => Set::empty(),
        },
    }
}

/// The variables of a call's argument list: positional and named values.
pub open spec fn vars_of_arguments(a: CallArguments) -> Set<Seq<char>>
    decreases a, 0int,
{
    vars_of_positional(a.positional@, 0).union(vars_of_named(a.named@, 0))
}

/// The variables of the positional arguments of `s` from position `i` on.
pub open spec fn vars_of_positional(s: Seq<InlineExpression>, i: int) -> Set<Seq<char>>
    decreases s, s.len() - i,
{
    if i < 0 || i >= s.len() {
        Set::empty()
    } else {
        vars_of_inline(s[i]).union(vars_of_positional(s, i + 1))
    }
}

/// The variables of the named arguments of `s` from position `i` on.
pub open spec fn vars_of_named(s: Seq<NamedArgument>, i: int) -> Set<Seq<char>>
    decreases s, s.len() - i,
{
    if i < 0 || i >= s.len() {
        Set::empty()
    } else {
        vars_of_inline(s[i].value).union(vars_of_named(s, i + 1))
    }
}

/// The views of a vector of strings, as a set.
pub open spec fn views_of(s: Seq<String>) -> Set<Seq<char>> {
    Set::new(|x: Seq<char>| exists|k: int| 0 <= k < s.len() && s[k]@ == x)
}

/// A union with the empty set changes nothing.
pub proof fn lemma_union_empty<A>(x: Set<A>)
    ensures
        x.union(Set::empty()) =~= x,
{
}

/// Set union is associative.
pub proof fn lemma_union_assoc<A>(x: Set<A>, y: Set<A>, z: Set<A>)
    ensures
        x.union(y).union(z) =~= x.union(y.union(z)),
{
}

/// Pushing a string adds exactly its content to the set of views.
pub broadcast proof fn lemma_views_push(s: Seq<String>, x: String)
    ensures
        #[trigger] views_of(s.push(x)) =~= views_of(s).insert(x@),
{
    assert forall|y: Seq<char>| views_of(s.push(x)).contains(y) implies views_of(s).insert(
        x@,
    ).contains(y) by {
        let k = choose|k: int| 0 <= k < s.push(x).len() && s.push(x)[k]@ == y;
        if k < s.len() {
            assert(s[k]@ == y);
        } else {
            assert(s.push(x)[k] == x);
        }
    };
    assert forall|y: Seq<char>| views_of(s).insert(x@).contains(y) implies views_of(
        s.push(x),
    ).contains(y) by {
        if y == x@ {
            assert(s.push(x)[s.len() as int]@ == y);
        } else {
            let k = choose|k: int| 0 <= k < s.len() && s[k]@ == y;
            assert(s.push(x)[k]@ == y);
        }
    };
}

/// The contents of a vector of strings, in order.
pub open spec fn views_seq(s: Seq<String>) -> Seq<Seq<char>> {
    s.map_values(|x: String| x@)
}

/// The set of views is the set of the sequence of views.
pub proof fn lemma_views_seq_to_set(s: Seq<String>)
    ensures
        views_seq(s).to_set() =~= views_of(s),
{
    assert forall|y: Seq<char>| views_seq(s).to_set().contains(y) implies views_of(s).contains(
        y,
    ) by {
        let k = choose|k: int| 0 <= k < views_seq(s).len() && views_seq(s)[k] == y;
        assert(s[k]@ == y);
    };
    assert forall|y: Seq<char>| views_of(s).contains(y) implies views_seq(s).to_set().contains(
        y,
    ) by {
        let k = choose|k: int| 0 <= k < s.len() && s[k]@ == y;
        assert(views_seq(s)[k] == y);
        assert(views_seq(s).contains(y));
    };
}

/// The set of views of a finite list is finite.
pub proof fn lemma_views_of_finite(s: Seq<String>)
    ensures
        views_of(s).finite(),
{
    lemma_views_seq_to_set(s);
    assert(views_of(s) =~= views_seq(s).to_set());
}

/// No two strings of `s` have the same content.
pub open spec fn distinct_views(s: Seq<String>) -> bool {
    forall|i: int, j: int| 0 <= i < j < s.len() ==> s[i]@ != s[j]@
}

/// Whether some string of `v` has the content of `x`.
pub fn contains_string(v: &Vec<String>, x: &String) -> (r: bool)
    ensures
        r == views_of(v@).contains(x@),
{
    let mut i: usize = 0;
    let mut found: bool = false;
    while i < v.len()
        invariant
            0 <= i <= v@.len(),
            found == exists|k: int| 0 <= k < i && v@[k]@ == x@,
        decreases v@.len() - i,
    {
        if !found && v[i].eq(x) {
            found = true;
        }
        i = i + 1;
    }
    proof {
        assert(views_of(v@).contains(x@) == exists|k: int|
            0 <= k < v@.len() && v@[k]@ == x@) by {
            if exists|k: int| 0 <= k < v@.len() && v@[k]@ == x@ {
                let k = choose|k: int| 0 <= k < v@.len() && v@[k]@ == x@;
                assert(v@.map_values(|y: String| y@)[k] == x@);
                assert(views_of(v@).contains(x@));
            }
            if views_of(v@).contains(x@) {
                let sv = v@.map_values(|y: String| y@);
                let k = choose|k: int| 0 <= k < sv.len() && sv[k] == x@;
                assert(v@[k]@ == x@);
            }
        }
    }
    found
}

/// Adds the name to the accumulator unless an equal name is already there.
fn push_new(acc: &mut Vec<String>, x: String)
    ensures
        views_of(final(acc)@) =~= views_of(old(acc)@).insert(x@),
        distinct_views(old(acc)@) ==> distinct_views(final(acc)@),
{
    let present = contains_string(acc, &x);
    if !present {
        let ghost before = acc@;
        acc.push(x);
        proof {
            lemma_views_push(before, x);
            if distinct_views(before) {
                assert forall|i: int, j: int| 0 <= i < j < acc@.len() implies acc@[i]@
                    != acc@[j]@ by {
                    if j == before.len() {
                        assert(acc@[i] == before[i]);
                        assert(views_of(before).contains(before[i]@));
                    }
                }
            }
        }
    } else {
        proof {
            assert(views_of(acc@) =~= views_of(acc@).insert(x@));
        }
    }
}

/// Collects the pattern's variables into `acc`, without duplicates.
pub fn collect_vars_pattern(p: &Pattern, acc: &mut Vec<String>)
    ensures
        views_of(final(acc)@) =~= views_of(old(acc)@).union(vars_of_pattern(*p)),
        distinct_views(old(acc)@) ==> distinct_views(final(acc)@),
    decreases *p, 0int,
{
    let ghost acc0 = acc@;
    let mut i: usize = 0;
    while i < p.elements.len()
        invariant
            0 <= i <= p.elements@.len(),
            views_of(acc@).union(vars_of_elements(p.elements@, i as int)) =~= views_of(
                acc0,
            ).union(vars_of_elements(p.elements@, 0)),
            distinct_views(acc0) ==> distinct_views(acc@),
        decreases p.elements@.len() - i,
    {
        collect_vars_element(&p.elements[i], acc);
        i = i + 1;
    }
    proof {
        assert(vars_of_elements(p.elements@, p.elements@.len() as int) =~= Set::empty());
        assert(views_of(acc@) =~= views_of(acc0).union(vars_of_pattern(*p)));
    }
}

/// Collects one element's variables into `acc`.
fn collect_vars_element(e: &PatternElement, acc: &mut Vec<String>)
    ensures
        views_of(final(acc)@) =~= views_of(old(acc)@).union(vars_of_element(*e)),
        distinct_views(old(acc)@) ==> distinct_views(final(acc)@),
    decreases *e, 0int,
{
    match e {
        PatternElement::Text { .. } => {
            proof {
                assert(views_of(acc@) =~= views_of(acc@).union(Set::empty()));
            }
        },
        PatternElement::Placeable { expression } => {
            collect_vars_expression(expression, acc);
        },
    }
}

/// Collects an expression's variables into `acc`.
fn collect_vars_expression(e: &Expression, acc: &mut Vec<String>)
    ensures
        views_of(final(acc)@) =~= views_of(old(acc)@).union(vars_of_expression(*e)),
        distinct_views(old(acc)@) ==> distinct_views(final(acc)@),
    decreases *e, 2int,
{
    match e {
        Expression::Inline(inline) => {
            collect_vars_inline(inline, acc);
        },
        Expression::Select { selector, variants } => {
            let ghost acc0 = acc@;
            collect_vars_inline(selector, acc);
            let ghost acc1 = acc@;
            let mut i: usize = 0;
            while i < variants.len()
                invariant
                    0 <= i <= variants@.len(),
                    *e is Select,
                    e->variants == *variants,
                    e->selector == *selector,
                    views_of(acc@).union(vars_of_variants(variants@, i as int)) =~= views_of(
                        acc1,
                    ).union(vars_of_variants(variants@, 0)),
                    views_of(acc1) =~= views_of(acc0).union(vars_of_inline(*selector)),
                    distinct_views(acc0) ==> distinct_views(acc@),
                decreases variants@.len() - i,
            {
                proof {
                    assert(decreases_to!(*e => e->variants));
                    assert(e->variants == *variants);
                    assert(decreases_to!(*variants => variants@));
                    assert(decreases_to!(variants@ => variants@[i as int]));
                    assert(decreases_to!(variants@[i as int] => variants@[i as int].value));
                }
                collect_vars_pattern(&variants[i].value, acc);
                i = i + 1;
            }
            proof {
                assert(vars_of_variants(variants@, variants@.len() as int) =~= Set::empty());
                lemma_union_empty(views_of(acc@));
                assert(views_of(acc@) == views_of(acc1).union(vars_of_variants(variants@, 0)));
                lemma_union_assoc(
                    views_of(acc0),
                    vars_of_inline(*selector),
                    vars_of_variants(variants@, 0),
                );
                assert(views_of(acc@) =~= views_of(acc0).union(vars_of_expression(*e)));
            }
        },
    }
}

/// Collects an inline expression's variables into `acc`.
fn collect_vars_inline(e: &InlineExpression, acc: &mut Vec<String>)
    ensures
        views_of(final(acc)@) =~= views_of(old(acc)@).union(vars_of_inline(*e)),
        distinct_views(old(acc)@) ==> distinct_views(final(acc)@),
    decreases *e, 1int,
{
    match e {
        InlineExpression::VariableReference { id } => {
            let name = id.clone();
            push_new(acc, name);
        },
        InlineExpression::FunctionReference { arguments, .. } => {
            collect_vars_arguments(arguments, acc);
        },
        InlineExpression::TermReference { arguments, .. } => {
            match arguments {
                Some(a) => {
                    collect_vars_arguments(a, acc);
                },
                None => {
                    proof {
                        assert(views_of(acc@) =~= views_of(acc@).union(Set::empty()));
                    }
                },
            }
        },
        _ => {
            proof {
                assert(views_of(acc@) =~= views_of(acc@).union(vars_of_inline(*e)));
            }
        },
    }
}

/// Collects a call's arguments' variables into `acc`.
fn collect_vars_arguments(a: &CallArguments, acc: &mut Vec<String>)
    ensures
        views_of(final(acc)@) =~= views_of(old(acc)@).union(vars_of_arguments(*a)),
        distinct_views(old(acc)@) ==> distinct_views(final(acc)@),
    decreases *a, 0int,
{
    let ghost acc0 = acc@;
    let mut i: usize = 0;
    while i < a.positional.len()
        invariant
            0 <= i <= a.positional@.len(),
            views_of(acc@).union(vars_of_positional(a.positional@, i as int)) =~= views_of(
                acc0,
            ).union(vars_of_positional(a.positional@, 0)),
            distinct_views(acc0) ==> distinct_views(acc@),
        decreases a.positional@.len() - i,
    {
        collect_vars_inline(&a.positional[i], acc);
        i = i + 1;
    }
    let ghost acc1 = acc@;
    proof {
        assert(vars_of_positional(a.positional@, a.positional@.len() as int) =~= Set::empty());
        assert(views_of(acc1) =~= views_of(acc0).union(vars_of_positional(a.positional@, 0)));
    }
    let mut j: usize = 0;
    while j < a.named.len()
        invariant
            0 <= j <= a.named@.len(),
            views_of(acc@).union(vars_of_named(a.named@, j as int)) =~= views_of(acc1).union(
                vars_of_named(a.named@, 0),
            ),
            views_of(acc1) =~= views_of(acc0).union(vars_of_positional(a.positional@, 0)),
            distinct_views(acc0) ==> distinct_views(acc@),
        decreases a.named@.len() - j,
    {
        collect_vars_inline(&a.named[j].value, acc);
        j = j + 1;
    }
    proof {
        assert(vars_of_named(a.named@, a.named@.len() as int) =~= Set::empty());
        lemma_union_empty(views_of(acc@));
        assert(views_of(acc@) == views_of(acc1).union(vars_of_named(a.named@, 0)));
        lemma_union_assoc(
            views_of(acc0),
            vars_of_positional(a.positional@, 0),
            vars_of_named(a.named@, 0),
        );
        assert(views_of(acc@) =~= views_of(acc0).union(vars_of_arguments(*a)));
    }
}

/// The variable names referenced anywhere in the pattern, without
/// duplicates, in the order in which the walk first meets them.
pub fn collect_variables(p: &Pattern) -> (vars: Vec<String>)
    ensures
        views_of(vars@) =~= vars_of_pattern(*p),
        distinct_views(vars@),
{
    let mut acc: Vec<String> = Vec::new();
    proof {
        assert(views_of(acc@) =~= Set::empty());
    }
    collect_vars_pattern(p, &mut acc);
    acc
}

/// One message or term reference found in a pattern.
pub struct Reference {
    /// True for a term reference `-id`, false for a message reference.
    pub term: bool,
    /// The referenced identifier, without the `-` sentinel.
    pub id: String,
    /// The referenced attribute, if the reference is `id.attribute`.
    pub attribute: Option<String>,
    /// True if the reference is a term call carrying positional arguments.
    pub has_positional: bool,
}

/// The mathematical content of one reference.
pub ghost struct RefView {
    pub term: bool,
    pub id: Seq<char>,
    pub attribute: Option<Seq<char>>,
    pub has_positional: bool,
}

/// The content of an optional string.
pub open spec fn opt_view(o: Option<String>) -> Option<Seq<char>> {
    match o {
        Some(s) => Some(s@),
        None => None,
    }
}

impl Reference {
    /// The content of the reference.
    pub open spec fn v(self) -> RefView {
        RefView {
            term: self.term,
            id: self.id@,
            attribute: opt_view(self.attribute),
            has_positional: self.has_positional,
        }
    }
}

/// The contents of a vector of references, in order.
pub open spec fn ref_views(s: Seq<Reference>) -> Seq<RefView> {
    s.map_values(|r: Reference| r.v())
}

/// Whether a term call carries at least one positional argument.
pub open spec fn spec_has_positional(arguments: Option<CallArguments>) -> bool {
    match arguments {
        Some(a) => a.positional@.len() > 0,
        None => false,
    }
}

/// The references of the pattern, in the order of a depth-first walk.
pub open spec fn refs_of_pattern(p: Pattern) -> Seq<RefView>
    decreases p, 0int,
{
    refs_of_elements(p.elements@, 0)
}

/// The references of the elements of `s` from position `i` on.
pub open spec fn refs_of_elements(s: Seq<PatternElement>, i: int) -> Seq<RefView>
    decreases s, s.len() - i,
{
    if i < 0 || i >= s.len() {
        Seq::empty()
    } else {
        refs_of_element(s[i]) + refs_of_elements(s, i + 1)
    }
}

/// The references of one pattern element: none for literal text.
pub open spec fn refs_of_element(e: PatternElement) -> Seq<RefView>
    decreases e, 0int,
{
    match e {
        PatternElement::Text { .. } => Seq::empty(),
        PatternElement::Placeable { expression } => refs_of_expression(expression),
    }
}

/// The references of an expression; a selection contributes its selector's
/// references followed by those of every variant, in order.
pub open spec fn refs_of_expression(e: Expression) -> Seq<RefView>
    decreases e, 2int,
{
    match e {
        Expression::Inline(inline) => refs_of_inline(inline),
        Expression::Select { selector, variants } => refs_of_inline(selector) + refs_of_variants(
            variants@,
            0,
        ),
    }
}

/// The references of the variants of `s` from position `i` on.
pub open spec fn refs_of_variants(s: Seq<Variant>, i: int) -> Seq<RefView>
    decreases s, s.len() - i,
{
    if i < 0 || i >= s.len() {
        Seq::empty()
    } else {
        refs_of_pattern(s[i].value) + refs_of_variants(s, i + 1)
    }
}

/// The references of an inline expression. A message reference contributes
/// itself; a term reference contributes itself and then its arguments'
/// references; a function call contributes its arguments' references.
pub open spec fn refs_of_inline(e: InlineExpression) -> Seq<RefView>
    decreases e, 1int,
{
    match e {
        InlineExpression::StringLiteral { .. } => Seq::empty(),
        InlineExpression::NumberLiteral { .. } => Seq::empty(),
        InlineExpression::VariableReference { .. } => Seq::empty(),
        InlineExpression::FunctionReference { arguments, .. } => refs_of_arguments(arguments),
        InlineExpression::MessageReference { id, attribute } => seq![
            RefView {
                term: false,
                id: id@,
                attribute: opt_view(attribute),
                has_positional: false,
            },
        ],
        InlineExpression::TermReference { id, attribute, arguments } => seq![
            RefView {
                term: true,
                id: id@,
                attribute: opt_view(attribute),
                has_positional: spec_has_positional(arguments),
            },
        ] + match arguments {
            Some(a) => refs_of_arguments(a),
            None => Seq::empty(),
        },
    }
}

/// The references of a call's argument list: positional, then named.
pub open spec fn refs_of_arguments(a: CallArguments) -> Seq<RefView>
    decreases a, 0int,
{
    refs_of_positional(a.positional@, 0) + refs_of_named(a.named@, 0)
}

/// The references of the positional arguments of `s` from position `i` on.
pub open spec fn refs_of_positional(s: Seq<InlineExpression>, i: int) -> Seq<RefView>
    decreases s, s.len() - i,
{
    if i < 0 || i >= s.len() {
        Seq::empty()
    } else {
        refs_of_inline(s[i]) + refs_of_positional(s, i + 1)
    }
}

/// The references of the named arguments of `s` from position `i` on.
pub open spec fn refs_of_named(s: Seq<NamedArgument>, i: int) -> Seq<RefView>
    decreases s, s.len() - i,
{
    if i < 0 || i >= s.len() {
        Seq::empty()
    } else {
        refs_of_inline(s[i].value) + refs_of_named(s, i + 1)
    }
}

/// Sequence concatenation is associative.
pub proof fn lemma_seq_concat_assoc<A>(x: Seq<A>, y: Seq<A>, z: Seq<A>)
    ensures
        x + y + z =~= x + (y + z),
{
}

/// Concatenation with the empty sequence changes nothing.
pub proof fn lemma_seq_concat_empty<A>(x: Seq<A>)
    ensures
        x + Seq::empty() =~= x,
{
}

/// Collects the pattern's references into `acc`, in walk order.
pub fn collect_refs_pattern(p: &Pattern, acc: &mut Vec<Reference>)
    ensures
        ref_views(final(acc)@) =~= ref_views(old(acc)@) + refs_of_pattern(*p),
    decreases *p, 0int,
{
    let ghost acc0 = acc@;
    let mut i: usize = 0;
    while i < p.elements.len()
        invariant
            0 <= i <= p.elements@.len(),
            ref_views(acc@) + refs_of_elements(p.elements@, i as int) =~= ref_views(acc0)
                + refs_of_elements(p.elements@, 0),
        decreases p.elements@.len() - i,
    {
        let ghost prev = acc@;
        collect_refs_element(&p.elements[i], acc);
        proof {
            lemma_seq_concat_assoc(
                ref_views(prev),
                refs_of_element(p.elements@[i as int]),
                refs_of_elements(p.elements@, i as int + 1),
            );
        }
        i = i + 1;
    }
    proof {
        lemma_seq_concat_empty(ref_views(acc@));
        assert(ref_views(acc@) =~= ref_views(acc0) + refs_of_pattern(*p));
    }
}

/// Collects one element's references into `acc`.
fn collect_refs_element(e: &PatternElement, acc: &mut Vec<Reference>)
    ensures
        ref_views(final(acc)@) =~= ref_views(old(acc)@) + refs_of_element(*e),
    decreases *e, 0int,
{
    match e {
        PatternElement::Text { .. } => {
            proof {
                lemma_seq_concat_empty(ref_views(acc@));
            }
        },
        PatternElement::Placeable { expression } => {
            collect_refs_expression(expression, acc);
        },
    }
}

/// Collects an expression's references into `acc`.
fn collect_refs_expression(e: &Expression, acc: &mut Vec<Reference>)
    ensures
        ref_views(final(acc)@) =~= ref_views(old(acc)@) + refs_of_expression(*e),
    decreases *e, 2int,
{
    match e {
        Expression::Inline(inline) => {
            collect_refs_inline(inline, acc);
        },
        Expression::Select { selector, variants } => {
            let ghost acc0 = acc@;
            collect_refs_inline(selector, acc);
            let ghost acc1 = acc@;
            let mut i: usize = 0;
            while i < variants.len()
                invariant
                    0 <= i <= variants@.len(),
                    *e is Select,
                    e->variants == *variants,
                    e->selector == *selector,
                    ref_views(acc1) =~= ref_views(acc0) + refs_of_inline(*selector),
                    ref_views(acc@) + refs_of_variants(variants@, i as int) =~= ref_views(acc1)
                        + refs_of_variants(variants@, 0),
                decreases variants@.len() - i,
            {
                proof {
                    assert(decreases_to!(*e => e->variants));
                    assert(e->variants == *variants);
                    assert(decreases_to!(*variants => variants@));
                    assert(decreases_to!(variants@ => variants@[i as int]));
                    assert(decreases_to!(variants@[i as int] => variants@[i as int].value));
                }
                let ghost prev = acc@;
                collect_refs_pattern(&variants[i].value, acc);
                proof {
                    lemma_seq_concat_assoc(
                        ref_views(prev),
                        refs_of_pattern(variants@[i as int].value),
                        refs_of_variants(variants@, i as int + 1),
                    );
                }
                i = i + 1;
            }
            proof {
                lemma_seq_concat_empty(ref_views(acc@));
                assert(ref_views(acc@) == ref_views(acc1) + refs_of_variants(variants@, 0));
                lemma_seq_concat_assoc(
                    ref_views(acc0),
                    refs_of_inline(*selector),
                    refs_of_variants(variants@, 0),
                );
                assert(ref_views(acc@) =~= ref_views(acc0) + refs_of_expression(*e));
            }
        },
    }
}

/// Collects an inline expression's references into `acc`.
fn collect_refs_inline(e: &InlineExpression, acc: &mut Vec<Reference>)
    ensures
        ref_views(final(acc)@) =~= ref_views(old(acc)@) + refs_of_inline(*e),
    decreases *e, 1int,
{
    match e {
        InlineExpression::MessageReference { id, attribute } => {
            let ghost acc0 = acc@;
            let r = Reference {
                term: false,
                id: id.clone(),
                attribute: clone_opt_string(attribute),
                has_positional: false,
            };
            acc.push(r);
            proof {
                assert(ref_views(acc@) =~= ref_views(acc0) + refs_of_inline(*e));
            }
        },
        InlineExpression::TermReference { id, attribute, arguments } => {
            let ghost acc0 = acc@;
            let has_positional = match arguments {
                Some(a) => a.positional.len() > 0,
                None => false,
            };
            let r = Reference {
                term: true,
                id: id.clone(),
                attribute: clone_opt_string(attribute),
                has_positional,
            };
            acc.push(r);
            let ghost acc1 = acc@;
            proof {
                assert(ref_views(acc1) =~= ref_views(acc0) + seq![r.v()]);
            }
            match arguments {
                Some(a) => {
                    collect_refs_arguments(a, acc);
                    proof {
                        lemma_seq_concat_assoc(
                            ref_views(acc0),
                            seq![r.v()],
                            refs_of_arguments(*a),
                        );
                        assert(ref_views(acc@) =~= ref_views(acc0) + refs_of_inline(*e));
                    }
                },
                None => {
                    proof {
                        lemma_seq_concat_empty(seq![r.v()]);
                        assert(ref_views(acc@) =~= ref_views(acc0) + refs_of_inline(*e));
                    }
                },
            }
        },
        InlineExpression::FunctionReference { arguments, .. } => {
            collect_refs_arguments(arguments, acc);
        },
        _ => {
            proof {
                lemma_seq_concat_empty(ref_views(acc@));
            }
        },
    }
}

/// A copy of an optional string with the same content.
fn clone_opt_string(o: &Option<String>) -> (r: Option<String>)
    ensures
        opt_view(r) == opt_view(*o),
{
    match o {
        Some(s) => Some(s.clone()),
        None => None,
    }
}

/// Collects a call's arguments' references into `acc`.
fn collect_refs_arguments(a: &CallArguments, acc: &mut Vec<Reference>)
    ensures
        ref_views(final(acc)@) =~= ref_views(old(acc)@) + refs_of_arguments(*a),
    decreases *a, 0int,
{
    let ghost acc0 = acc@;
    let mut i: usize = 0;
    while i < a.positional.len()
        invariant
            0 <= i <= a.positional@.len(),
            ref_views(acc@) + refs_of_positional(a.positional@, i as int) =~= ref_views(acc0)
                + refs_of_positional(a.positional@, 0),
        decreases a.positional@.len() - i,
    {
        let ghost prev = acc@;
        collect_refs_inline(&a.positional[i], acc);
        proof {
            lemma_seq_concat_assoc(
                ref_views(prev),
                refs_of_inline(a.positional@[i as int]),
                refs_of_positional(a.positional@, i as int + 1),
            );
        }
        i = i + 1;
    }
    let ghost acc1 = acc@;
    proof {
        lemma_seq_concat_empty(ref_views(acc1));
        assert(ref_views(acc1) == ref_views(acc0) + refs_of_positional(a.positional@, 0));
    }
    let mut j: usize = 0;
    while j < a.named.len()
        invariant
            0 <= j <= a.named@.len(),
            ref_views(acc1) == ref_views(acc0) + refs_of_positional(a.positional@, 0),
            ref_views(acc@) + refs_of_named(a.named@, j as int) =~= ref_views(acc1) + refs_of_named(
                a.named@,
                0,
            ),
        decreases a.named@.len() - j,
    {
        let ghost prev = acc@;
        collect_refs_inline(&a.named[j].value, acc);
        proof {
            lemma_seq_concat_assoc(
                ref_views(prev),
                refs_of_inline(a.named@[j as int].value),
                refs_of_named(a.named@, j as int + 1),
            );
        }
        j = j + 1;
    }
    proof {
        lemma_seq_concat_empty(ref_views(acc@));
        assert(ref_views(acc@) == ref_views(acc1) + refs_of_named(a.named@, 0));
        lemma_seq_concat_assoc(
            ref_views(acc0),
            refs_of_positional(a.positional@, 0),
            refs_of_named(a.named@, 0),
        );
        assert(ref_views(acc@) =~= ref_views(acc0) + refs_of_arguments(*a));
    }
}

/// The message and term references found anywhere in the pattern, in the
/// order of a depth-first walk, duplicates kept.
pub fn collect_references(p: &Pattern) -> (refs: Vec<Reference>)
    ensures
        ref_views(refs@) =~= refs_of_pattern(*p),
{
    let mut acc: Vec<Reference> = Vec::new();
    proof {
        assert(ref_views(acc@) =~= Seq::empty());
        assert(Seq::<RefView>::empty() + refs_of_pattern(*p) =~= refs_of_pattern(*p));
    }
    collect_refs_pattern(p, &mut acc);
    acc
}

} // verus!
