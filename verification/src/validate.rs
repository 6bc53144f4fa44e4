//! The reference validator: every message, term and attribute reference
//! found in a resource is checked against the symbol table, which already
//! contains the resource's own entries, so entries may reference each other
//! and themselves, forward declarations included.
//!
//! A message reference `m` yields `UnknownMessage` if `m` is absent; if `m`
//! exists and the reference names an attribute, a missing attribute yields
//! `UnknownAttribute`. A term reference `-t` first yields
//! `IgnoredPositionalArgument` if its call carries positional arguments
//! (the formatting engine drops them silently), and is then checked against
//! the term table exactly as for messages.

use vstd::prelude::*;
use vstd::string::StrSliceExecFns;
use vstd::string::StringExecFns;

use crate::ast::entry_has_attr;
use crate::ast::has_attribute;
use crate::ast::Attribute;
use crate::ast::Entry;
use crate::diag::ignored_positional_view;
use crate::diag::ignored_positional_error;
use crate::diag::unknown_attribute_view;
use crate::diag::unknown_attribute_error;
use crate::diag::unknown_message_view;
use crate::diag::unknown_message_error;
use crate::diag::unknown_term_attribute_view;
use crate::diag::unknown_term_attribute_error;
use crate::diag::unknown_term_view;
use crate::diag::unknown_term_error;
use crate::diag::verr_views;
use crate::diag::ValidationError;
use crate::diag::ValidationErrorView;
use crate::table::SymbolTable;
use crate::table::TableModel;
use crate::walker::collect_refs_pattern;
use crate::walker::lemma_seq_concat_assoc;
use crate::walker::lemma_seq_concat_empty;
use crate::walker::ref_views;
use crate::walker::refs_of_pattern;
use crate::walker::RefView;
use crate::walker::Reference;

verus! {

/// The diagnostics of one reference, checked against the table: zero, one
/// or (for a term call with positional arguments against an absent term or
/// attribute) two, in the order the walk reports them.
pub open spec fn classify_ref(m: TableModel, owner: Seq<char>, r: RefView) -> Seq<
    ValidationErrorView,
> {
    if !r.term {
        if !m.messages.dom().contains(r.id) {
            seq![unknown_message_view(owner, r.id)]
        } else {
            match r.attribute {
                Some(a) => if !entry_has_attr(m.messages[r.id], a) {
                    seq![unknown_attribute_view(owner, r.id, a)]
                } else {
                    Seq::empty()
                },
                None => Seq::empty(),
            }
        }
    } else {
        (if r.has_positional {
            seq![ignored_positional_view(owner, r.id)]
        } else {
            Seq::empty()
        }) + (if !m.terms.dom().contains(seq!['-'] + r.id) {
            seq![unknown_term_view(owner, r.id)]
        } else {
            match r.attribute {
                Some(a) => if !entry_has_attr(m.terms[seq!['-'] + r.id], a) {
                    seq![unknown_term_attribute_view(owner, r.id, a)]
                } else {
                    Seq::empty()
                },
                None => Seq::empty(),
            }
        })
    }
}

/// The diagnostics of the references of `refs` from position `i` on.
pub open spec fn classify_refs(
    m: TableModel,
    owner: Seq<char>,
    refs: Seq<RefView>,
    i: int,
) -> Seq<ValidationErrorView>
    decreases refs.len() - i,
{
    if i < 0 || i >= refs.len() {
        Seq::empty()
    } else {
        classify_ref(m, owner, refs[i]) + classify_refs(m, owner, refs, i + 1)
    }
}

/// The references of the attributes of `s` from position `i` on, each
/// attribute's pattern walked in order.
pub open spec fn refs_of_attrs(s: Seq<Attribute>, i: int) -> Seq<RefView>
    decreases s.len() - i,
{
    if i < 0 || i >= s.len() {
        Seq::empty()
    } else {
        refs_of_pattern(s[i].value) + refs_of_attrs(s, i + 1)
    }
}

/// The references of an entry: its value pattern's, then its attributes'.
pub open spec fn refs_of_entry(e: Entry) -> Seq<RefView> {
    (match e.value_pattern() {
        Some(p) => refs_of_pattern(p),
        None => Seq::empty(),
    }) + refs_of_attrs(e.attrs(), 0)
}

/// The diagnostics of one entry: its references classified in walk order,
/// owned by the entry's full id.
pub open spec fn validate_entry(m: TableModel, e: Entry) -> Seq<ValidationErrorView> {
    classify_refs(m, e.full_id(), refs_of_entry(e), 0)
}

/// The diagnostics of the entries of `s` from position `i` on.
pub open spec fn validate_entries(m: TableModel, s: Seq<Entry>, i: int) -> Seq<
    ValidationErrorView,
>
    decreases s.len() - i,
{
    if i < 0 || i >= s.len() {
        Seq::empty()
    } else {
        validate_entry(m, s[i]) + validate_entries(m, s, i + 1)
    }
}

/// Collects the references of an entry, value pattern first, then each
/// attribute's pattern, in document order.
pub fn collect_refs_entry(e: &Entry) -> (refs: Vec<Reference>)
    ensures
        ref_views(refs@) =~= refs_of_entry(*e),
{
    let mut acc: Vec<Reference> = Vec::new();
    match e {
        Entry::Message { value: Some(p), .. } => {
            collect_refs_pattern(p, &mut acc);
        },
        Entry::Message { value: None, .. } => {
        },
        Entry::Term { value, .. } => {
            collect_refs_pattern(value, &mut acc);
        },
    }
    let ghost head = acc@;
    proof {
        assert(ref_views(head) =~= match e.value_pattern() {
            Some(p) => refs_of_pattern(p),
            None => Seq::empty(),
        });
    }
    let attributes = match e {
        Entry::Message { attributes, .. } => attributes,
        Entry::Term { attributes, .. } => attributes,
    };
    let ghost s = e.attrs();
    let mut i: usize = 0;
    while i < attributes.len()
        invariant
            0 <= i <= s.len(),
            s == attributes@,
            ref_views(acc@) + refs_of_attrs(s, i as int) =~= ref_views(head) + refs_of_attrs(s, 0),
        decreases s.len() - i,
    {
        let ghost prev = acc@;
        collect_refs_pattern(&attributes[i].value, &mut acc);
        proof {
            lemma_seq_concat_assoc(
                ref_views(prev),
                refs_of_pattern(s[i as int].value),
                refs_of_attrs(s, i as int + 1),
            );
        }
        i = i + 1;
    }
    proof {
        lemma_seq_concat_empty(ref_views(acc@));
        assert(ref_views(acc@) == ref_views(head) + refs_of_attrs(s, 0));
        assert(ref_views(acc@) =~= refs_of_entry(*e));
    }
    acc
}

/// Checks one reference against the table and appends its diagnostics.
fn classify_reference(
    table: &SymbolTable,
    owner: &String,
    r: &Reference,
    errs: &mut Vec<ValidationError>,
)
    requires
        table.wf(),
    ensures
        verr_views(final(errs)@) =~= verr_views(old(errs)@) + classify_ref(
            table.model(),
            owner@,
            r.v(),
        ),
{
    let ghost errs0 = errs@;
    if !r.term {
        match table.get_message(r.id.as_str()) {
            None => {
                errs.push(unknown_message_error(owner, &r.id));
                proof {
                    assert(verr_views(errs@) =~= verr_views(errs0) + seq![
                        unknown_message_view(owner@, r.id@),
                    ]);
                }
            },
            Some(e) => {
                match &r.attribute {
                    Some(a) => {
                        if !has_attribute(e, a.as_str()) {
                            errs.push(unknown_attribute_error(owner, &r.id, a));
                            proof {
                                assert(verr_views(errs@) =~= verr_views(errs0) + seq![
                                    unknown_attribute_view(owner@, r.id@, a@),
                                ]);
                            }
                        } else {
                            proof {
                                lemma_seq_concat_empty(verr_views(errs@));
                            }
                        }
                    },
                    None => {
                        proof {
                            lemma_seq_concat_empty(verr_views(errs@));
                        }
                    },
                }
            },
        }
    } else {
        if r.has_positional {
            errs.push(ignored_positional_error(owner, &r.id));
        }
        let ghost mid = errs@;
        proof {
            assert(verr_views(mid) =~= verr_views(errs0) + (if r.v().has_positional {
                seq![ignored_positional_view(owner@, r.id@)]
            } else {
                Seq::<ValidationErrorView>::empty()
            }));
        }
        let mut key = String::from_str("-");
        key.append(r.id.as_str());
        proof {
            reveal_strlit("-");
            assert(key@ == seq!['-'] + r.id@);
        }
        match table.get_term(key.as_str()) {
            None => {
                errs.push(unknown_term_error(owner, &r.id));
                proof {
                    assert(verr_views(errs@) =~= verr_views(mid) + seq![
                        unknown_term_view(owner@, r.id@),
                    ]);
                }
            },
            Some(e) => {
                match &r.attribute {
                    Some(a) => {
                        if !has_attribute(e, a.as_str()) {
                            errs.push(unknown_term_attribute_error(owner, &r.id, a));
                            proof {
                                assert(verr_views(errs@) =~= verr_views(mid) + seq![
                                    unknown_term_attribute_view(owner@, r.id@, a@),
                                ]);
                            }
                        } else {
                            proof {
                                lemma_seq_concat_empty(verr_views(errs@));
                            }
                        }
                    },
                    None => {
                        proof {
                            lemma_seq_concat_empty(verr_views(errs@));
                        }
                    },
                }
            },
        }
        proof {
            lemma_seq_concat_assoc(
                verr_views(errs0),
                (if r.v().has_positional {
                    seq![ignored_positional_view(owner@, r.id@)]
                } else {
                    Seq::<ValidationErrorView>::empty()
                }),
                (if !table.model().terms.dom().contains(seq!['-'] + r.id@) {
                    seq![unknown_term_view(owner@, r.id@)]
                } else {
                    match r.v().attribute {
                        Some(a) => if !entry_has_attr(
                            table.model().terms[seq!['-'] + r.id@],
                            a,
                        ) {
                            seq![unknown_term_attribute_view(owner@, r.id@, a)]
                        } else {
                            Seq::<ValidationErrorView>::empty()
                        },
                        None => Seq::<ValidationErrorView>::empty(),
                    }
                }),
            );
        }
    }
}

/// Checks one entry's references against the table and appends their
/// diagnostics, in walk order.
fn validate_one_entry(table: &SymbolTable, e: &Entry, errs: &mut Vec<ValidationError>)
    requires
        table.wf(),
    ensures
        verr_views(final(errs)@) =~= verr_views(old(errs)@) + validate_entry(table.model(), *e),
{
    let ghost errs0 = errs@;
    let owner = match e {
        Entry::Message { id, .. } => id.clone(),
        Entry::Term { id, .. } => {
            let mut key = String::from_str("-");
            key.append(id.as_str());
            key
        },
    };
    proof {
        reveal_strlit("-");
        assert(owner@ == e.full_id());
    }
    let refs = collect_refs_entry(e);
    let ghost rv = ref_views(refs@);
    let mut i: usize = 0;
    while i < refs.len()
        invariant
            table.wf(),
            0 <= i <= refs@.len(),
            rv == ref_views(refs@),
            rv =~= refs_of_entry(*e),
            owner@ == e.full_id(),
            verr_views(errs@) + classify_refs(table.model(), owner@, rv, i as int) =~= verr_views(
                errs0,
            ) + classify_refs(table.model(), owner@, rv, 0),
        decreases refs@.len() - i,
    {
        let ghost prev = errs@;
        classify_reference(table, &owner, &refs[i], errs);
        proof {
            assert(refs@[i as int].v() == rv[i as int]);
            lemma_seq_concat_assoc(
                verr_views(prev),
                classify_ref(table.model(), owner@, rv[i as int]),
                classify_refs(table.model(), owner@, rv, i as int + 1),
            );
        }
        i = i + 1;
    }
    proof {
        lemma_seq_concat_empty(verr_views(errs@));
        assert(verr_views(errs@) == verr_views(errs0) + classify_refs(
            table.model(),
            owner@,
            rv,
            0,
        ));
        assert(classify_refs(table.model(), owner@, rv, 0) == validate_entry(table.model(), *e));
    }
}

/// Validates the references of every entry of the resource that occupies
/// the arena from position `start` on, against the whole table.
pub fn validate_resource(table: &SymbolTable, start: usize) -> (errs: Vec<ValidationError>)
    requires
        table.wf(),
        start <= table.arena@.len(),
    ensures
        verr_views(errs@) =~= validate_entries(
            table.model(),
            table.arena@.subrange(start as int, table.arena@.len() as int),
            0,
        ),
{
    let ghost s = table.arena@.subrange(start as int, table.arena@.len() as int);
    let mut errs: Vec<ValidationError> = Vec::new();
    let mut k: usize = start;
    proof {
        assert(verr_views(errs@) =~= Seq::empty());
    }
    while k < table.arena.len()
        invariant
            table.wf(),
            start <= k <= table.arena@.len(),
            s == table.arena@.subrange(start as int, table.arena@.len() as int),
            verr_views(errs@) + validate_entries(table.model(), s, k - start) =~= validate_entries(
                table.model(),
                s,
                0,
            ),
        decreases table.arena@.len() - k,
    {
        let ghost prev = errs@;
        validate_one_entry(table, &table.arena[k], &mut errs);
        proof {
            assert(s[k - start] == table.arena@[k as int]);
            lemma_seq_concat_assoc(
                verr_views(prev),
                validate_entry(table.model(), s[k - start]),
                validate_entries(table.model(), s, k - start + 1),
            );
        }
        k = k + 1;
    }
    proof {
        lemma_seq_concat_empty(verr_views(errs@));
    }
    errs
}

} // verus!
