//! Laws of the library, each proved from the contracts the other modules
//! state: what merging, validation and resolution promise of every input.

use vstd::prelude::*;

use crate::ast::entry_has_attr;
use crate::ast::Entry;
use crate::bundle::all_parse_errors;
use crate::bundle::all_validation_errors;
use crate::bundle::Bundle;
use crate::bundle::ConstructionError;
use crate::bundle::ResourceInput;
use crate::diag::perr_views;
use crate::diag::verr_views;
use crate::engine::is_valid_lang_tag;
use crate::cycles::cycle_diags;
use crate::cycles::join_arrows;
use crate::cycles::spec_dfs;
use crate::cycles::spec_dfs_edges;
use crate::diag::cyclic_view;
use crate::diag::dup_diag_view;
use crate::diag::missing_variable_view;
use crate::diag::unknown_attribute_view;
use crate::diag::unknown_term_view;
use crate::diag::ValidationErrorKind;
use crate::diag::ValidationErrorView;
use crate::resolve::bind_diag_of;
use crate::resolve::bind_diags;
use crate::resolve::missing_diags;
use crate::resolve::provided_keys;
use crate::resolve::VariableView;
use crate::table::apply_entry;
use crate::table::entry_is_dup;
use crate::table::merge_dups;
use crate::table::merge_entries;
use crate::table::TableModel;
use crate::validate::classify_ref;
use crate::validate::classify_refs;
use crate::validate::refs_of_entry;
use crate::validate::validate_entry;
use crate::walker::RefView;

verus! {

/// How many diagnostics of `s` are `DuplicateId` diagnostics naming `id`.
pub open spec fn count_dups_naming(s: Seq<ValidationErrorView>, id: Seq<char>) -> int
    decreases s.len(),
{
    if s.len() == 0 {
        0
    } else {
        (if s[0].kind == ValidationErrorKind::DuplicateId && s[0].entry_id == Some(id) {
            1int
        } else {
            0int
        }) + count_dups_naming(s.subrange(1, s.len() as int), id)
    }
}

/// Counting over a concatenation counts each part.
proof fn lemma_count_concat(a: Seq<ValidationErrorView>, b: Seq<ValidationErrorView>, id: Seq<
    char,
>)
    ensures
        count_dups_naming(a + b, id) == count_dups_naming(a, id) + count_dups_naming(b, id),
    decreases a.len(),
{
    if a.len() == 0 {
        assert(a + b =~= b);
    } else {
        assert((a + b).subrange(1, (a + b).len() as int) =~= a.subrange(1, a.len() as int) + b);
        assert((a + b)[0] == a[0]);
        lemma_count_concat(a.subrange(1, a.len() as int), b, id);
    }
}

/// The count of a single diagnostic.
proof fn lemma_count_singleton(d: ValidationErrorView, id: Seq<char>)
    ensures
        count_dups_naming(seq![d], id) == (if d.kind == ValidationErrorKind::DuplicateId
            && d.entry_id == Some(id) {
            1int
        } else {
            0int
        }),
{
    assert(seq![d].subrange(1, 1) =~= Seq::<ValidationErrorView>::empty());
    assert(count_dups_naming(Seq::<ValidationErrorView>::empty(), id) == 0);
    assert(seq![d][0] == d);
    assert(seq![d].len() == 1);
}

/// Merging never removes a message definition.
proof fn lemma_messages_grow(m: TableModel, s: Seq<Entry>, i: int, id: Seq<char>)
    requires
        m.messages.dom().contains(id),
    ensures
        merge_entries(m, s, i).messages.dom().contains(id),
    decreases s.len() - i,
{
    if 0 <= i < s.len() {
        lemma_messages_grow(apply_entry(m, s[i]), s, i + 1, id);
    }
}

/// Merging a resource that defines message `id` leaves `id` defined.
pub proof fn lemma_merge_defines(m: TableModel, s: Seq<Entry>, j: int)
    requires
        0 <= j < s.len(),
        s[j] is Message,
    ensures
        merge_entries(m, s, 0).messages.dom().contains(s[j].full_id()),
    decreases j,
{
    lemma_merge_defines_from(m, s, 0, j);
}

/// Merging from a position at or before `j` leaves `j`'s message defined.
proof fn lemma_merge_defines_from(m: TableModel, s: Seq<Entry>, i: int, j: int)
    requires
        0 <= i <= j < s.len(),
        s[j] is Message,
    ensures
        merge_entries(m, s, i).messages.dom().contains(s[j].full_id()),
    decreases s.len() - i,
{
    if i == j {
        lemma_messages_grow(apply_entry(m, s[j]), s, j + 1, s[j].full_id());
    } else {
        lemma_merge_defines_from(apply_entry(m, s[i]), s, i + 1, j);
    }
}

/// Merge override. A resource `s` is merged into a table that already
/// defines the message that `s[j]` defines, and no other entry of `s`
/// carries the same name: afterwards the table's definition of that message
/// is exactly `s[j]` (the later definition overrides), and the merge
/// records exactly one `DuplicateId` diagnostic naming it.
pub proof fn lemma_merge_override(m: TableModel, s: Seq<Entry>, j: int)
    requires
        0 <= j < s.len(),
        s[j] is Message,
        m.messages.dom().contains(s[j].full_id()),
        forall|k: int| 0 <= k < s.len() && k != j ==> (#[trigger] s[k]).bare_id() != s[j].bare_id(),
    ensures
        merge_entries(m, s, 0).messages[s[j].full_id()] == s[j],
        count_dups_naming(merge_dups(m, s, 0), s[j].bare_id()) == 1,
{
    lemma_merge_override_from(m, s, 0, j);
}

/// The same, for a merge that starts at position `i` at or before `j`.
proof fn lemma_merge_override_from(m: TableModel, s: Seq<Entry>, i: int, j: int)
    requires
        0 <= i <= j < s.len(),
        s[j] is Message,
        m.messages.dom().contains(s[j].full_id()),
        forall|k: int| 0 <= k < s.len() && k != j ==> (#[trigger] s[k]).bare_id() != s[j].bare_id(),
    ensures
        merge_entries(m, s, i).messages[s[j].full_id()] == s[j],
        count_dups_naming(merge_dups(m, s, i), s[j].bare_id()) == 1,
    decreases s.len() - i,
{
    let id = s[j].full_id();
    let head = if entry_is_dup(m, s[i]) {
        seq![dup_diag_view(s[i] is Term, s[i].bare_id())]
    } else {
        Seq::<ValidationErrorView>::empty()
    };
    if i == j {
        assert(entry_is_dup(m, s[j]));
        lemma_stable_after(apply_entry(m, s[j]), s, j + 1, j);
        lemma_no_dups_naming(apply_entry(m, s[j]), s, j + 1, j);
        lemma_count_concat(head, merge_dups(apply_entry(m, s[i]), s, i + 1), s[j].bare_id());
        lemma_count_singleton(dup_diag_view(s[j] is Term, s[j].bare_id()), s[j].bare_id());
    } else {
        lemma_merge_override_from(apply_entry(m, s[i]), s, i + 1, j);
        lemma_count_concat(head, merge_dups(apply_entry(m, s[i]), s, i + 1), s[j].bare_id());
        if entry_is_dup(m, s[i]) {
            lemma_count_singleton(dup_diag_view(s[i] is Term, s[i].bare_id()), s[j].bare_id());
            assert(head[0].entry_id == Some(s[i].bare_id()));
            assert(count_dups_naming(head, s[j].bare_id()) == 0);
        }
    }
}

/// After `j`'s definition is in, no later entry of `s` disturbs it.
proof fn lemma_stable_after(m: TableModel, s: Seq<Entry>, i: int, j: int)
    requires
        0 <= j < i <= s.len() || (0 <= j < s.len() && i == j + 1),
        0 <= i <= s.len(),
        0 <= j < s.len(),
        j < i,
        s[j] is Message,
        m.messages.dom().contains(s[j].full_id()),
        m.messages[s[j].full_id()] == s[j],
        forall|k: int| 0 <= k < s.len() && k != j ==> (#[trigger] s[k]).bare_id() != s[j].bare_id(),
    ensures
        merge_entries(m, s, i).messages[s[j].full_id()] == s[j],
        merge_entries(m, s, i).messages.dom().contains(s[j].full_id()),
    decreases s.len() - i,
{
    if i < s.len() {
        assert(s[i].bare_id() != s[j].bare_id());
        lemma_stable_after(apply_entry(m, s[i]), s, i + 1, j);
    }
}

/// Entries after `j` record no `DuplicateId` naming `j`'s message.
proof fn lemma_no_dups_naming(m: TableModel, s: Seq<Entry>, i: int, j: int)
    requires
        0 <= i <= s.len(),
        0 <= j < s.len(),
        forall|k: int| 0 <= k < s.len() && k != j ==> (#[trigger] s[k]).bare_id() != s[j].bare_id(),
        j < i,
    ensures
        count_dups_naming(merge_dups(m, s, i), s[j].bare_id()) == 0,
    decreases s.len() - i,
{
    if i < s.len() {
        let head = if entry_is_dup(m, s[i]) {
            seq![dup_diag_view(s[i] is Term, s[i].bare_id())]
        } else {
            Seq::<ValidationErrorView>::empty()
        };
        lemma_no_dups_naming(apply_entry(m, s[i]), s, i + 1, j);
        lemma_count_concat(head, merge_dups(apply_entry(m, s[i]), s, i + 1), s[j].bare_id());
        if entry_is_dup(m, s[i]) {
            lemma_count_singleton(dup_diag_view(s[i] is Term, s[i].bare_id()), s[j].bare_id());
            assert(head[0].entry_id == Some(s[i].bare_id()));
        }
    }
}

/// Merging never removes a term definition.
proof fn lemma_terms_grow(m: TableModel, s: Seq<Entry>, i: int, id: Seq<char>)
    requires
        m.terms.dom().contains(id),
    ensures
        merge_entries(m, s, i).terms.dom().contains(id),
    decreases s.len() - i,
{
    if 0 <= i < s.len() {
        lemma_terms_grow(apply_entry(m, s[i]), s, i + 1, id);
    }
}

/// Merging a resource that defines term `s[j]` leaves the term defined.
pub proof fn lemma_merge_defines_term(m: TableModel, s: Seq<Entry>, j: int)
    requires
        0 <= j < s.len(),
        s[j] is Term,
    ensures
        merge_entries(m, s, 0).terms.dom().contains(s[j].full_id()),
{
    lemma_merge_defines_term_from(m, s, 0, j);
}

/// The same, from a position at or before `j`.
proof fn lemma_merge_defines_term_from(m: TableModel, s: Seq<Entry>, i: int, j: int)
    requires
        0 <= i <= j < s.len(),
        s[j] is Term,
    ensures
        merge_entries(m, s, i).terms.dom().contains(s[j].full_id()),
    decreases s.len() - i,
{
    if i == j {
        lemma_terms_grow(apply_entry(m, s[j]), s, j + 1, s[j].full_id());
    } else {
        lemma_merge_defines_term_from(apply_entry(m, s[i]), s, i + 1, j);
    }
}

/// A resource of one entry validates as that entry does.
pub proof fn lemma_validate_single(m: TableModel, e: Entry)
    ensures
        crate::validate::validate_entries(m, seq![e], 0) =~= validate_entry(m, e),
{
    assert(crate::validate::validate_entries(m, seq![e], 1) =~= Seq::<
        ValidationErrorView,
    >::empty());
    crate::walker::lemma_seq_concat_empty(validate_entry(m, e));
}

/// Reference validity. An entry whose patterns hold exactly one reference,
/// to term `t` (no attribute, no positional arguments), yields exactly one
/// `UnknownTerm` diagnostic naming `-t` while no merged resource defines
/// the term, and none once one does.
pub proof fn lemma_reference_validity(m: TableModel, e: Entry, t: Seq<char>)
    requires
        refs_of_entry(e) == seq![
            RefView { term: true, id: t, attribute: None, has_positional: false },
        ],
    ensures
        !m.terms.dom().contains(seq!['-'] + t) ==> validate_entry(m, e) =~= seq![
            unknown_term_view(e.full_id(), t),
        ],
        m.terms.dom().contains(seq!['-'] + t) ==> validate_entry(m, e) =~= Seq::<
            ValidationErrorView,
        >::empty(),
{
    let r = RefView { term: true, id: t, attribute: None, has_positional: false };
    let refs = refs_of_entry(e);
    assert(classify_refs(m, e.full_id(), refs, 1) =~= Seq::<ValidationErrorView>::empty());
    crate::walker::lemma_seq_concat_empty(classify_ref(m, e.full_id(), r));
    if !m.terms.dom().contains(seq!['-'] + t) {
        assert(classify_ref(m, e.full_id(), r) =~= Seq::<ValidationErrorView>::empty() + seq![
            unknown_term_view(e.full_id(), t),
        ]);
        assert(Seq::<ValidationErrorView>::empty() + seq![unknown_term_view(e.full_id(), t)]
            =~= seq![unknown_term_view(e.full_id(), t)]);
    } else {
        assert(classify_ref(m, e.full_id(), r) =~= Seq::<ValidationErrorView>::empty() + Seq::<
            ValidationErrorView,
        >::empty());
    }
}

/// Reference validity across resources. When an earlier-merged resource
/// defines the term that an entry of a later resource references, validating
/// that entry against the cumulatively merged table yields nothing.
pub proof fn lemma_cross_resource_term(
    m0: TableModel,
    r1: Seq<Entry>,
    r2: Seq<Entry>,
    j: int,
    e: Entry,
)
    requires
        0 <= j < r1.len(),
        r1[j] is Term,
        refs_of_entry(e) == seq![
            RefView {
                term: true,
                id: r1[j].bare_id(),
                attribute: None,
                has_positional: false,
            },
        ],
    ensures
        validate_entry(merge_entries(merge_entries(m0, r1, 0), r2, 0), e) =~= Seq::<
            ValidationErrorView,
        >::empty(),
{
    let m1 = merge_entries(m0, r1, 0);
    lemma_merge_defines_term(m0, r1, j);
    lemma_terms_grow(m1, r2, 0, r1[j].full_id());
    assert(r1[j].full_id() == seq!['-'] + r1[j].bare_id());
    lemma_reference_validity(merge_entries(m1, r2, 0), e, r1[j].bare_id());
}

/// Attribute validity. A reference `m.attr` where the message exists but
/// lacks the attribute yields exactly one diagnostic, and its kind is
/// `UnknownAttribute`, never `UnknownMessage`.
pub proof fn lemma_attribute_validity(m: TableModel, owner: Seq<char>, mid: Seq<char>, attr: Seq<
    char,
>)
    requires
        m.messages.dom().contains(mid),
        !entry_has_attr(m.messages[mid], attr),
    ensures
        classify_ref(
            m,
            owner,
            RefView { term: false, id: mid, attribute: Some(attr), has_positional: false },
        ) =~= seq![unknown_attribute_view(owner, mid, attr)],
        unknown_attribute_view(owner, mid, attr).kind == ValidationErrorKind::UnknownAttribute,
        unknown_attribute_view(owner, mid, attr).kind != ValidationErrorKind::UnknownMessage,
{
}

/// Strict-mode aggregation. With a well-formed language tag, a strict
/// construction over inputs carrying any parse or validation diagnostic can
/// only return the one aggregated error, embedding exactly the full lists
/// of both.
pub proof fn lemma_strict_aggregation(
    language: &str,
    inputs: Vec<ResourceInput>,
    validate_references: bool,
    r: Result<Bundle, ConstructionError>,
)
    requires
        call_ensures(Bundle::new, (language, inputs, true, validate_references), r),
        is_valid_lang_tag(language@),
        all_parse_errors(inputs@, 0).len() > 0 || all_validation_errors(
            TableModel::empty(),
            inputs@,
            0,
            validate_references,
        ).len() > 0,
    ensures
        r matches Err(ConstructionError::Diagnostics { parse_errors, validation_errors })
            && perr_views(parse_errors@) == all_parse_errors(inputs@, 0) && verr_views(
            validation_errors@,
        ) == all_validation_errors(TableModel::empty(), inputs@, 0, validate_references),
{
}

/// Cycle detection. Two nodes that reference each other — a message `a`
/// referencing term `-b` and the term referencing `a` back — yield one
/// `CyclicReference` diagnostic per starting node, each carrying the cycle
/// path, which holds both identifiers.
pub proof fn lemma_mutual_reference_cycle(a: Seq<char>, b: Seq<char>)
    requires
        a != b,
    ensures
        ({
            let g = map![a => seq![b], b => seq![a]];
            cycle_diags(g, seq![a, b], 0) =~= seq![
                cyclic_view(a, join_arrows(seq![a, b, a])),
                cyclic_view(b, join_arrows(seq![b, a, b])),
            ]
        }),
{
    let g = map![a => seq![b], b => seq![a]];
    let es = Seq::<Seq<char>>::empty();
    assert(g.dom() =~= set![a, b]);
    assert(g.dom().finite()) by {
        assert(set![a, b].finite());
    };
    assert(g[a] == seq![b] && g[b] == seq![a]);
    assert(!es.contains(a) && !es.contains(b));
    assert(es.push(a) =~= seq![a]);
    assert(es.push(b) =~= seq![b]);
    assert(seq![a].push(b) =~= seq![a, b]);
    assert(seq![b].push(a) =~= seq![b, a]);
    assert(!seq![a].contains(b)) by {
        if seq![a].contains(b) {
            let k = choose|k: int| 0 <= k < seq![a].len() && seq![a][k] == b;
            assert(seq![a][0] == a);
        }
    };
    assert(!seq![b].contains(a)) by {
        if seq![b].contains(a) {
            let k = choose|k: int| 0 <= k < seq![b].len() && seq![b][k] == a;
            assert(seq![b][0] == b);
        }
    };
    assert(seq![a, b].contains(a)) by {
        assert(seq![a, b][0] == a);
    };
    assert(seq![b, a].contains(b)) by {
        assert(seq![b, a][0] == b);
    };
    assert(spec_dfs(g, seq![a, b], a) == Some(seq![a, b].push(a)));
    assert(seq![a, b].push(a) =~= seq![a, b, a]);
    assert(spec_dfs_edges(g, seq![a, b], seq![a], 0) == Some(seq![a, b, a])) by {
        assert(seq![a][0] == a);
    };
    assert(spec_dfs(g, seq![a], b) == spec_dfs_edges(g, seq![a, b], seq![a], 0));
    assert(spec_dfs_edges(g, seq![a], seq![b], 0) == Some(seq![a, b, a])) by {
        assert(seq![b][0] == b);
    };
    assert(spec_dfs(g, es, a) == Some(seq![a, b, a]));
    assert(spec_dfs(g, seq![b, a], b) == Some(seq![b, a].push(b)));
    assert(seq![b, a].push(b) =~= seq![b, a, b]);
    assert(spec_dfs_edges(g, seq![b, a], seq![b], 0) == Some(seq![b, a, b])) by {
        assert(seq![b][0] == b);
    };
    assert(spec_dfs(g, seq![b], a) == spec_dfs_edges(g, seq![b, a], seq![b], 0));
    assert(spec_dfs_edges(g, seq![b], seq![a], 0) == Some(seq![b, a, b])) by {
        assert(seq![a][0] == a);
    };
    assert(spec_dfs(g, es, b) == Some(seq![b, a, b]));
    let order = seq![a, b];
    assert(order[0] == a && order[1] == b && order.len() == 2);
    assert(cycle_diags(g, order, 2) =~= Seq::<ValidationErrorView>::empty());
    assert(cycle_diags(g, order, 1) == seq![cyclic_view(b, join_arrows(seq![b, a, b]))]
        + cycle_diags(g, order, 2));
    assert(cycle_diags(g, order, 0) == seq![cyclic_view(a, join_arrows(seq![a, b, a]))]
        + cycle_diags(g, order, 1));
    crate::walker::lemma_seq_concat_empty(seq![cyclic_view(b, join_arrows(seq![b, a, b]))]);
    assert(cycle_diags(g, order, 0) =~= seq![
        cyclic_view(a, join_arrows(seq![a, b, a])),
        cyclic_view(b, join_arrows(seq![b, a, b])),
    ]);
}

/// Round trip, the variables' side. When every supplied variable is a
/// string or an integer, binding records no diagnostic; and when every
/// required name is supplied, no `MissingVariable` is recorded.
pub proof fn lemma_all_supplied(
    entry: Seq<char>,
    vs: Seq<(Seq<char>, VariableView)>,
    req: Seq<Seq<char>>,
)
    requires
        forall|k: int|
            0 <= k < vs.len() ==> ((#[trigger] vs[k]).1 is Str || vs[k].1 is Int),
        forall|i: int| 0 <= i < req.len() ==> provided_keys(vs).contains(#[trigger] req[i]),
    ensures
        bind_diags(entry, vs, 0) =~= Seq::<crate::diag::FormatErrorView>::empty(),
        missing_diags(entry, req, provided_keys(vs), 0) =~= Seq::<
            crate::diag::FormatErrorView,
        >::empty(),
{
    lemma_bind_empty(entry, vs, 0);
    lemma_missing_empty(entry, req, provided_keys(vs), 0);
}

/// Binding strings and integers records nothing, from any position on.
proof fn lemma_bind_empty(entry: Seq<char>, vs: Seq<(Seq<char>, VariableView)>, i: int)
    requires
        forall|k: int|
            0 <= k < vs.len() ==> ((#[trigger] vs[k]).1 is Str || vs[k].1 is Int),
    ensures
        bind_diags(entry, vs, i) =~= Seq::<crate::diag::FormatErrorView>::empty(),
    decreases vs.len() - i,
{
    if 0 <= i < vs.len() {
        lemma_bind_empty(entry, vs, i + 1);
        assert(bind_diag_of(entry, vs[i].0, vs[i].1) =~= Seq::<
            crate::diag::FormatErrorView,
        >::empty());
        assert(bind_diag_of(entry, vs[i].0, vs[i].1) + bind_diags(entry, vs, i + 1) =~= Seq::<
            crate::diag::FormatErrorView,
        >::empty());
    }
}

/// Nothing is missing when every required name is supplied.
proof fn lemma_missing_empty(
    entry: Seq<char>,
    req: Seq<Seq<char>>,
    provided: Set<Seq<char>>,
    i: int,
)
    requires
        forall|k: int| 0 <= k < req.len() ==> provided.contains(#[trigger] req[k]),
    ensures
        missing_diags(entry, req, provided, i) =~= Seq::<crate::diag::FormatErrorView>::empty(),
    decreases req.len() - i,
{
    if 0 <= i < req.len() {
        lemma_missing_empty(entry, req, provided, i + 1);
        assert(Seq::<crate::diag::FormatErrorView>::empty() + missing_diags(
            entry,
            req,
            provided,
            i + 1,
        ) =~= Seq::<crate::diag::FormatErrorView>::empty());
    }
}

/// Round trip, the missing side. When exactly the name at position `j` of
/// the required list is unsupplied, exactly one `MissingVariable`
/// diagnostic is recorded, and it names that variable.
pub proof fn lemma_one_missing(
    entry: Seq<char>,
    req: Seq<Seq<char>>,
    provided: Set<Seq<char>>,
    j: int,
)
    requires
        0 <= j < req.len(),
        !provided.contains(req[j]),
        forall|k: int| 0 <= k < req.len() && k != j ==> provided.contains(#[trigger] req[k]),
    ensures
        missing_diags(entry, req, provided, 0) =~= seq![missing_variable_view(entry, req[j])],
{
    lemma_one_missing_from(entry, req, provided, 0, j);
}

/// The same, from any position at or before `j`.
proof fn lemma_one_missing_from(
    entry: Seq<char>,
    req: Seq<Seq<char>>,
    provided: Set<Seq<char>>,
    i: int,
    j: int,
)
    requires
        0 <= i <= j < req.len(),
        !provided.contains(req[j]),
        forall|k: int| 0 <= k < req.len() && k != j ==> provided.contains(#[trigger] req[k]),
    ensures
        missing_diags(entry, req, provided, i) =~= seq![missing_variable_view(entry, req[j])],
    decreases req.len() - i,
{
    if i == j {
        lemma_missing_after(entry, req, provided, j + 1, j);
        crate::walker::lemma_seq_concat_empty(seq![missing_variable_view(entry, req[j])]);
    } else {
        lemma_one_missing_from(entry, req, provided, i + 1, j);
        assert(Seq::<crate::diag::FormatErrorView>::empty() + missing_diags(
            entry,
            req,
            provided,
            i + 1,
        ) =~= missing_diags(entry, req, provided, i + 1));
    }
}

/// Nothing is missing after `j` when only `j`'s name is unsupplied.
proof fn lemma_missing_after(
    entry: Seq<char>,
    req: Seq<Seq<char>>,
    provided: Set<Seq<char>>,
    i: int,
    j: int,
)
    requires
        0 <= j < i,
        i <= req.len(),
        forall|k: int| 0 <= k < req.len() && k != j ==> provided.contains(#[trigger] req[k]),
    ensures
        missing_diags(entry, req, provided, i) =~= Seq::<crate::diag::FormatErrorView>::empty(),
    decreases req.len() - i,
{
    if i < req.len() {
        lemma_missing_after(entry, req, provided, i + 1, j);
        assert(Seq::<crate::diag::FormatErrorView>::empty() + missing_diags(
            entry,
            req,
            provided,
            i + 1,
        ) =~= Seq::<crate::diag::FormatErrorView>::empty());
    }
}

} // verus!
