//! The symbol table: the merged definitions of all resources.
//!
//! Entries live in a flat arena in merge order; two maps key them by
//! identifier, messages under their id verbatim and terms under their id
//! behind a leading `-` sentinel, so the two namespaces stay distinct.
//! A later merge with a colliding key replaces the earlier entry (override
//! semantics) and is recorded as a `DuplicateId` diagnostic.

use vstd::hash_map::StringHashMap;
use vstd::prelude::*;
use vstd::string::StrSliceExecFns;
use vstd::string::StringExecFns;

use crate::ast::Entry;
use crate::diag::dup_diag_view;
use crate::diag::duplicate_id_error;
use crate::diag::verr_views;
use crate::diag::ValidationError;
use crate::diag::ValidationErrorView;

verus! {

/// The mathematical content of the symbol table: the stored entry for each
/// message id, and for each `-`-prefixed term id.
#[verifier::ext_equal]
pub ghost struct TableModel {
    pub messages: Map<Seq<char>, Entry>,
    pub terms: Map<Seq<char>, Entry>,
}

impl TableModel {
    /// The table with no definitions.
    pub open spec fn empty() -> TableModel {
        TableModel { messages: Map::empty(), terms: Map::empty() }
    }
}

/// The model after one entry is inserted: last write wins.
pub open spec fn apply_entry(m: TableModel, e: Entry) -> TableModel {
    match e {
        Entry::Message { .. } => TableModel {
            messages: m.messages.insert(e.full_id(), e),
            terms: m.terms,
        },
        Entry::Term { .. } => TableModel {
            messages: m.messages,
            terms: m.terms.insert(e.full_id(), e),
        },
    }
}

/// The model after the entries of `s` from position `i` on are inserted,
/// in order.
pub open spec fn merge_entries(m: TableModel, s: Seq<Entry>, i: int) -> TableModel
    decreases s.len() - i,
{
    if i < 0 || i >= s.len() {
        m
    } else {
        merge_entries(apply_entry(m, s[i]), s, i + 1)
    }
}

/// Whether inserting the entry would collide with a definition already in
/// the model.
pub open spec fn entry_is_dup(m: TableModel, e: Entry) -> bool {
    match e {
        Entry::Message { .. } => m.messages.dom().contains(e.full_id()),
        Entry::Term { .. } => m.terms.dom().contains(e.full_id()),
    }
}

/// The `DuplicateId` diagnostics of merging the entries of `s` from
/// position `i` on into the model, in document order.
pub open spec fn merge_dups(m: TableModel, s: Seq<Entry>, i: int) -> Seq<ValidationErrorView>
    decreases s.len() - i,
{
    if i < 0 || i >= s.len() {
        Seq::empty()
    } else {
        (if entry_is_dup(m, s[i]) {
            seq![dup_diag_view(s[i] is Term, s[i].bare_id())]
        } else {
            Seq::empty()
        }) + merge_dups(apply_entry(m, s[i]), s, i + 1)
    }
}

/// The merged definitions, ready for lookups.
pub struct SymbolTable {
    /// Every merged entry, in merge order; shadowed entries stay in place
    /// but are no longer reachable through the maps.
    pub arena: Vec<Entry>,
    /// Message id, verbatim, to the position of its current definition.
    pub messages: StringHashMap<usize>,
    /// Term id behind a leading `-` to the position of its current
    /// definition.
    pub terms: StringHashMap<usize>,
}

impl SymbolTable {
    /// Every map entry points into the arena, at an entry of the right
    /// variant whose id spells the key.
    pub open spec fn wf(self) -> bool {
        &&& forall|k: Seq<char>|
            self.messages@.dom().contains(k) ==> (#[trigger] self.messages@[k]) < self.arena@.len()
                && self.arena@[self.messages@[k] as int] is Message && self.arena@[self.messages@[k]
                as int].bare_id() == k
        &&& forall|k: Seq<char>|
            self.terms@.dom().contains(k) ==> (#[trigger] self.terms@[k]) < self.arena@.len()
                && self.arena@[self.terms@[k] as int] is Term && seq!['-']
                + self.arena@[self.terms@[k] as int].bare_id() == k
    }

    /// The stored entry for each message id and each `-`-prefixed term id.
    pub open spec fn model(self) -> TableModel {
        TableModel {
            messages: self.messages@.map_values(|i: usize| self.arena@[i as int]),
            terms: self.terms@.map_values(|i: usize| self.arena@[i as int]),
        }
    }

    /// An empty table.
    pub fn new() -> (r: SymbolTable)
        ensures
            r.wf(),
            r.model() =~= TableModel::empty(),
            r.arena@ =~= Seq::<Entry>::empty(),
    {
        SymbolTable {
            arena: Vec::new(),
            messages: StringHashMap::new(),
            terms: StringHashMap::new(),
        }
    }

    /// Looks up the current definition of a message.
    pub fn get_message<'a>(&'a self, id: &str) -> (r: Option<&'a Entry>)
        requires
            self.wf(),
        ensures
            match r {
                Some(e) => self.model().messages.dom().contains(id@) && *e
                    == self.model().messages[id@],
                None => !self.model().messages.dom().contains(id@),
            },
    {
        match self.messages.get(id) {
            Some(i) => Some(&self.arena[*i]),
            None => None,
        }
    }

    /// Looks up the current definition of a term; the key carries the `-`
    /// sentinel.
    pub fn get_term<'a>(&'a self, key: &str) -> (r: Option<&'a Entry>)
        requires
            self.wf(),
        ensures
            match r {
                Some(e) => self.model().terms.dom().contains(key@) && *e
                    == self.model().terms[key@],
                None => !self.model().terms.dom().contains(key@),
            },
    {
        match self.terms.get(key) {
            Some(i) => Some(&self.arena[*i]),
            None => None,
        }
    }

    /// Merges one resource: every entry, in document order, is keyed by its
    /// full id; an id already in the table (from an earlier resource or from
    /// earlier in this one) yields a `DuplicateId` diagnostic, and the new
    /// entry replaces the old one unconditionally.
    pub fn merge(&mut self, entries: Vec<Entry>) -> (dups: Vec<ValidationError>)
        requires
            old(self).wf(),
        ensures
            final(self).wf(),
            final(self).model() == merge_entries(old(self).model(), entries@, 0),
            final(self).arena@ == old(self).arena@ + entries@,
            verr_views(dups@) =~= merge_dups(old(self).model(), entries@, 0),
    {
        let ghost s = entries@;
        let ghost model0 = self.model();
        let ghost arena0 = self.arena@;
        let mut rest = entries;
        let mut dups: Vec<ValidationError> = Vec::new();
        let ghost mut i: int = 0;
        proof {
            assert(rest@ =~= s.subrange(0, s.len() as int));
            assert(verr_views(dups@) =~= Seq::empty());
        }
        while rest.len() > 0
            invariant
                self.wf(),
                0 <= i && i + rest@.len() == s.len(),
                rest@ == s.subrange(i, s.len() as int),
                merge_entries(model0, s, 0) == merge_entries(self.model(), s, i),
                verr_views(dups@) + merge_dups(self.model(), s, i) =~= merge_dups(
                    model0,
                    s,
                    0,
                ),
                self.arena@ == arena0 + s.subrange(0, i),
            decreases rest@.len(),
        {
            let ghost pre = *self;
            let ghost dups_pre = dups@;
            let e = rest.remove(0);
            proof {
                assert(e == s[i]);
                assert(rest@ =~= s.subrange(i + 1, s.len() as int));
                assert(pre.model().messages.dom() =~= pre.messages@.dom());
                assert(pre.model().terms.dom() =~= pre.terms@.dom());
            }
            let idx = self.arena.len();
            match &e {
                Entry::Message { id, .. } => {
                    let key = id.clone();
                    if self.messages.contains_key(key.as_str()) {
                        dups.push(duplicate_id_error(false, &key));
                        proof {
                            assert(entry_is_dup(pre.model(), e));
                            assert(verr_views(dups@) =~= verr_views(dups_pre) + seq![
                                dup_diag_view(e is Term, e.bare_id()),
                            ]);
                        }
                    } else {
                        proof {
                            assert(!entry_is_dup(pre.model(), e));
                            assert(verr_views(dups@) =~= verr_views(dups_pre) + Seq::<
                                ValidationErrorView,
                            >::empty());
                        }
                    }
                    self.arena.push(e);
                    self.messages.insert(key, idx);
                },
                Entry::Term { id, .. } => {
                    let mut key = String::from_str("-");
                    key.append(id.as_str());
                    proof {
                        reveal_strlit("-");
                        assert(key@ == seq!['-'] + id@);
                        assert(key@ == e.full_id());
                    }
                    let bare = id.clone();
                    if self.terms.contains_key(key.as_str()) {
                        dups.push(duplicate_id_error(true, &bare));
                        proof {
                            assert(entry_is_dup(pre.model(), e));
                            assert(verr_views(dups@) =~= verr_views(dups_pre) + seq![
                                dup_diag_view(e is Term, e.bare_id()),
                            ]);
                        }
                    } else {
                        proof {
                            assert(!entry_is_dup(pre.model(), e));
                            assert(verr_views(dups@) =~= verr_views(dups_pre) + Seq::<
                                ValidationErrorView,
                            >::empty());
                        }
                    }
                    self.arena.push(e);
                    self.terms.insert(key, idx);
                },
            }
            proof {
                lemma_step(pre, *self, s[i]);
                assert(self.model() == apply_entry(pre.model(), s[i]));
                assert(self.arena@ =~= arena0 + s.subrange(0, i + 1));
                lemma_dup_step(
                    verr_views(dups_pre),
                    verr_views(dups@),
                    pre.model(),
                    model0,
                    s,
                    i,
                );
                i = i + 1;
            }
        }
        proof {
            assert(i == s.len());
            assert(self.arena@ =~= arena0 + s);
            assert(verr_views(dups@) + Seq::<ValidationErrorView>::empty() =~= verr_views(dups@));
        }
        dups
    }
}

/// One merge step takes the model one `apply_entry` forward and keeps the
/// table well-formed.
proof fn lemma_step(pre: SymbolTable, post: SymbolTable, e: Entry)
    requires
        pre.wf(),
        pre.arena@.len() <= usize::MAX,
        post.arena@ == pre.arena@.push(e),
        match e {
            Entry::Message { .. } => post.messages@ == pre.messages@.insert(
                e.full_id(),
                pre.arena@.len() as usize,
            ) && post.terms@ == pre.terms@,
            Entry::Term { .. } => post.terms@ == pre.terms@.insert(
                e.full_id(),
                pre.arena@.len() as usize,
            ) && post.messages@ == pre.messages@,
        },
    ensures
        post.wf(),
        post.model() == apply_entry(pre.model(), e),
{
    assert(post.wf()) by {
        assert forall|k: Seq<char>| post.messages@.dom().contains(k) implies (
        #[trigger] post.messages@[k]) < post.arena@.len() && post.arena@[post.messages@[k] as int]
            is Message && post.arena@[post.messages@[k] as int].bare_id() == k by {
            if e is Message && k == e.full_id() && post.messages@[k] == pre.arena@.len() {
                assert(post.arena@[pre.arena@.len() as int] == e);
            } else {
                assert(pre.messages@.dom().contains(k) && pre.messages@[k] == post.messages@[k]);
            }
        };
        assert forall|k: Seq<char>| post.terms@.dom().contains(k) implies (
        #[trigger] post.terms@[k]) < post.arena@.len() && post.arena@[post.terms@[k] as int]
            is Term && seq!['-'] + post.arena@[post.terms@[k] as int].bare_id() == k by {
            if e is Term && k == e.full_id() && post.terms@[k] == pre.arena@.len() {
                assert(post.arena@[pre.arena@.len() as int] == e);
            } else {
                assert(pre.terms@.dom().contains(k) && pre.terms@[k] == post.terms@[k]);
            }
        };
    };
    assert forall|k: Seq<char>| post.messages@.dom().contains(k) implies #[trigger] post.model()
        .messages[k] == apply_entry(pre.model(), e).messages[k] by {
        if e is Message && k == e.full_id() {
            assert(post.messages@[k] == pre.arena@.len() as usize);
            assert(post.arena@[pre.arena@.len() as int] == e);
        } else {
            assert(pre.messages@.dom().contains(k));
            assert(post.messages@[k] == pre.messages@[k]);
            assert(pre.messages@[k] < pre.arena@.len());
            assert(post.arena@[pre.messages@[k] as int] == pre.arena@[pre.messages@[k] as int]);
        }
    };
    assert forall|k: Seq<char>| post.terms@.dom().contains(k) implies #[trigger] post.model()
        .terms[k] == apply_entry(pre.model(), e).terms[k] by {
        if e is Term && k == e.full_id() {
            assert(post.terms@[k] == pre.arena@.len() as usize);
            assert(post.arena@[pre.arena@.len() as int] == e);
        } else {
            assert(pre.terms@.dom().contains(k));
            assert(post.terms@[k] == pre.terms@[k]);
            assert(pre.terms@[k] < pre.arena@.len());
            assert(post.arena@[pre.terms@[k] as int] == pre.arena@[pre.terms@[k] as int]);
        }
    };
    assert(post.model().messages =~= apply_entry(pre.model(), e).messages) by {
        assert(post.model().messages.dom() =~= post.messages@.dom());
        assert(apply_entry(pre.model(), e).messages.dom() =~= post.messages@.dom());
    };
    assert(post.model().terms =~= apply_entry(pre.model(), e).terms) by {
        assert(post.model().terms.dom() =~= post.terms@.dom());
        assert(apply_entry(pre.model(), e).terms.dom() =~= post.terms@.dom());
    };
}

/// One dup-diagnostics step keeps the suffix-accumulator equation.
proof fn lemma_dup_step(
    before: Seq<ValidationErrorView>,
    after: Seq<ValidationErrorView>,
    m: TableModel,
    model0: TableModel,
    s: Seq<Entry>,
    i: int,
)
    requires
        0 <= i < s.len(),
        after == before + (if entry_is_dup(m, s[i]) {
            seq![dup_diag_view(s[i] is Term, s[i].bare_id())]
        } else {
            Seq::<ValidationErrorView>::empty()
        }),
        before + merge_dups(m, s, i) =~= merge_dups(model0, s, 0),
    ensures
        after + merge_dups(apply_entry(m, s[i]), s, i + 1) =~= merge_dups(model0, s, 0),
{
    assert(merge_dups(m, s, i) == (if entry_is_dup(m, s[i]) {
        seq![dup_diag_view(s[i] is Term, s[i].bare_id())]
    } else {
        Seq::<ValidationErrorView>::empty()
    }) + merge_dups(apply_entry(m, s[i]), s, i + 1));
    assert(after + merge_dups(apply_entry(m, s[i]), s, i + 1) =~= before + merge_dups(m, s, i));
}

} // verus!
