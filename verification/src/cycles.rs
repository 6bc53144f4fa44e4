//! The cycle detector: a reference graph (identifier to referenced
//! identifiers) is built over one resource's entries, and a depth-first
//! search with an explicit path stack is run from every node. Reaching a
//! node that already lies on the path closes a cycle, which is reported
//! with the full path; path membership is unwound on return, so each
//! starting node explores every walk with distinct nodes.

use vstd::prelude::*;
use vstd::string::StrSliceExecFns;
use vstd::string::StringExecFns;

use crate::ast::Entry;
use crate::diag::cyclic_view;
use crate::diag::cyclic_error;
use crate::diag::verr_views;
use crate::diag::ValidationError;
use crate::diag::ValidationErrorView;
use crate::table::SymbolTable;
use crate::validate::collect_refs_entry;
use crate::validate::refs_of_entry;
use crate::walker::contains_string;
use crate::walker::lemma_seq_concat_empty;
use crate::walker::lemma_views_of_finite;
use crate::walker::lemma_views_seq_to_set;
use crate::walker::views_of;
use crate::walker::views_seq;
use crate::walker::RefView;

verus! {

/// The graph node an entry reference points at: the message id verbatim,
/// the term id behind a `-`.
pub open spec fn ref_edge(r: RefView) -> Seq<char> {
    if r.term {
        seq!['-'] + r.id
    } else {
        r.id
    }
}

/// The outgoing edges of an entry: every reference of its value pattern and
/// attributes, in walk order.
pub open spec fn edges_of_entry(e: Entry) -> Seq<Seq<char>> {
    refs_of_entry(e).map_values(|r: RefView| ref_edge(r))
}

/// The reference graph of the entries of `s` from position `i` on, grown
/// from `g`: each entry's full id maps to its edges, last definition wins.
pub open spec fn build_graph(
    g: Map<Seq<char>, Seq<Seq<char>>>,
    s: Seq<Entry>,
    i: int,
) -> Map<Seq<char>, Seq<Seq<char>>>
    decreases s.len() - i,
{
    if i < 0 || i >= s.len() {
        g
    } else {
        build_graph(g.insert(s[i].full_id(), edges_of_entry(s[i])), s, i + 1)
    }
}

/// The node order of the entries of `s` from position `i` on, grown from
/// `ks`: each full id once, at its first occurrence.
pub open spec fn build_keys(ks: Seq<Seq<char>>, s: Seq<Entry>, i: int) -> Seq<Seq<char>>
    decreases s.len() - i,
{
    if i < 0 || i >= s.len() {
        ks
    } else {
        build_keys(
            if ks.contains(s[i].full_id()) {
                ks
            } else {
                ks.push(s[i].full_id())
            },
            s,
            i + 1,
        )
    }
}

/// The depth-first search from `id` with the nodes of `stack` already on
/// the path: finding `id` on the path closes a cycle and yields the path
/// with `id` appended; otherwise every edge of `id` is searched in order,
/// and the first cycle found wins.
pub open spec fn spec_dfs(
    g: Map<Seq<char>, Seq<Seq<char>>>,
    stack: Seq<Seq<char>>,
    id: Seq<char>,
) -> Option<Seq<Seq<char>>>
    decreases g.dom().difference(stack.to_set()).len(), 0int, 0int,
        when g.dom().finite() via spec_dfs_decreases
{
    if stack.contains(id) {
        Some(stack.push(id))
    } else if !g.dom().contains(id) {
        None
    } else {
        spec_dfs_edges(g, stack.push(id), g[id], 0)
    }
}

/// The search continued over the edges of `refs` from position `j` on.
pub open spec fn spec_dfs_edges(
    g: Map<Seq<char>, Seq<Seq<char>>>,
    stack: Seq<Seq<char>>,
    refs: Seq<Seq<char>>,
    j: int,
) -> Option<Seq<Seq<char>>>
    decreases g.dom().difference(stack.to_set()).len(), 1int, refs.len() - j,
        when g.dom().finite() via spec_dfs_edges_decreases
{
    if j < 0 || j >= refs.len() {
        None
    } else {
        match spec_dfs(g, stack, refs[j]) {
            Some(p) => Some(p),
            None => spec_dfs_edges(g, stack, refs, j + 1),
        }
    }
}

#[via_fn]
proof fn spec_dfs_decreases(
    g: Map<Seq<char>, Seq<Seq<char>>>,
    stack: Seq<Seq<char>>,
    id: Seq<char>,
) {
    if !stack.contains(id) && g.dom().contains(id) {
        lemma_stack_grows(g, stack, id);
    }
}

#[via_fn]
proof fn spec_dfs_edges_decreases(
    g: Map<Seq<char>, Seq<Seq<char>>>,
    stack: Seq<Seq<char>>,
    refs: Seq<Seq<char>>,
    j: int,
) {
}

/// Pushing a node of the graph that is not yet on the stack shrinks the set
/// of unvisited nodes.
pub proof fn lemma_stack_grows(
    g: Map<Seq<char>, Seq<Seq<char>>>,
    stack: Seq<Seq<char>>,
    id: Seq<char>,
)
    requires
        g.dom().finite(),
        g.dom().contains(id),
        !stack.contains(id),
    ensures
        g.dom().difference(stack.push(id).to_set()).len() < g.dom().difference(
            stack.to_set(),
        ).len(),
{
    let before = g.dom().difference(stack.to_set());
    let after = g.dom().difference(stack.push(id).to_set());
    assert(stack.push(id).to_set() =~= stack.to_set().insert(id)) by {
        assert forall|y: Seq<char>| stack.push(id).to_set().contains(y) implies stack.to_set()
            .insert(id).contains(y) by {
            let k = choose|k: int| 0 <= k < stack.push(id).len() && stack.push(id)[k] == y;
            if k < stack.len() {
                assert(stack.contains(y));
            }
        };
        assert forall|y: Seq<char>| stack.to_set().insert(id).contains(y) implies stack.push(
            id,
        ).to_set().contains(y) by {
            if y == id {
                assert(stack.push(id)[stack.len() as int] == y);
                assert(stack.push(id).contains(y));
            } else {
                let k = choose|k: int| 0 <= k < stack.len() && stack[k] == y;
                assert(stack.push(id)[k] == y);
                assert(stack.push(id).contains(y));
            }
        };
    };
    assert(after =~= before.remove(id));
    assert(before.contains(id));
    assert(before.finite());
    assert(before.remove(id).len() == before.len() - 1);
}

/// The cycle diagnostics of the nodes of `order` from position `i` on: one
/// per starting node whose search closes a cycle, carrying the path.
pub open spec fn cycle_diags(
    g: Map<Seq<char>, Seq<Seq<char>>>,
    order: Seq<Seq<char>>,
    i: int,
) -> Seq<ValidationErrorView>
    decreases order.len() - i,
{
    if i < 0 || i >= order.len() {
        Seq::empty()
    } else {
        (match spec_dfs(g, Seq::empty(), order[i]) {
            Some(p) => seq![cyclic_view(order[i], join_arrows(p))],
            None => Seq::empty(),
        }) + cycle_diags(g, order, i + 1)
    }
}

/// The path rendered with ` -> ` between the nodes.
pub open spec fn join_arrows(p: Seq<Seq<char>>) -> Seq<char> {
    if p.len() == 0 {
        Seq::empty()
    } else {
        p[0] + join_tail(p, 1)
    }
}

/// The rendered tail of the path: ` -> ` before each node of `p` from
/// position `i` on.
pub open spec fn join_tail(p: Seq<Seq<char>>, i: int) -> Seq<char>
    decreases p.len() - i,
{
    if i < 0 || i >= p.len() {
        Seq::empty()
    } else {
        " -> "@ + p[i] + join_tail(p, i + 1)
    }
}

/// Renders the path with ` -> ` between the nodes.
pub fn join_path(p: &Vec<String>) -> (r: String)
    ensures
        r@ == join_arrows(views_seq(p@)),
{
    let ghost pv = views_seq(p@);
    if p.len() == 0 {
        let r = String::new();
        proof {
            assert(r@ =~= join_arrows(pv));
        }
        return r;
    }
    let mut text = p[0].clone();
    let mut i: usize = 1;
    while i < p.len()
        invariant
            1 <= i <= pv.len(),
            pv == views_seq(p@),
            pv.len() == p@.len(),
            text@ + join_tail(pv, i as int) == pv[0] + join_tail(pv, 1),
        decreases pv.len() - i,
    {
        let ghost before = text@;
        text.append(" -> ");
        text.append(p[i].as_str());
        proof {
            assert(p@[i as int]@ == pv[i as int]);
            assert(text@ =~= before + (" -> "@ + pv[i as int]));
            assert((before + (" -> "@ + pv[i as int])) + join_tail(pv, i as int + 1) =~= before + ((
            " -> "@ + pv[i as int]) + join_tail(pv, i as int + 1)));
            assert((" -> "@ + pv[i as int]) + join_tail(pv, i as int + 1) =~= " -> "@
                + pv[i as int] + join_tail(pv, i as int + 1));
        }
        i = i + 1;
    }
    proof {
        lemma_seq_concat_empty(text@);
        assert(text@ =~= pv[0] + join_tail(pv, 1));
    }
    text
}

/// The reference graph of one resource, rebuilt per validation pass and
/// discarded after use.
pub struct RefGraph {
    /// The nodes, in first-occurrence order, each once.
    pub keys: Vec<String>,
    /// Each node's outgoing edges, in walk order.
    pub map: vstd::hash_map::StringHashMap<Vec<String>>,
}

impl RefGraph {
    /// The graph: each node's edges, as plain contents.
    pub open spec fn model(self) -> Map<Seq<char>, Seq<Seq<char>>> {
        self.map@.map_values(|v: Vec<String>| views_seq(v@))
    }

    /// The nodes listed are exactly the nodes of the graph.
    pub open spec fn wf(self) -> bool {
        self.map@.dom() =~= views_of(self.keys@)
    }

    /// The graph's nodes form a finite set.
    pub proof fn lemma_finite(self)
        requires
            self.wf(),
        ensures
            self.model().dom().finite(),
    {
        lemma_views_of_finite(self.keys@);
        assert(self.model().dom() =~= views_of(self.keys@));
    }
}

/// The outgoing edges of an entry, as strings.
fn edge_strings(e: &Entry) -> (out: Vec<String>)
    ensures
        views_seq(out@) =~= edges_of_entry(*e),
{
    let refs = collect_refs_entry(e);
    let ghost rv = crate::walker::ref_views(refs@);
    let mut out: Vec<String> = Vec::new();
    let mut i: usize = 0;
    while i < refs.len()
        invariant
            0 <= i <= refs@.len(),
            rv == crate::walker::ref_views(refs@),
            rv =~= refs_of_entry(*e),
            out@.len() == i,
            forall|k: int| 0 <= k < i ==> out@[k]@ == ref_edge(rv[k]),
        decreases refs@.len() - i,
    {
        let r = &refs[i];
        if r.term {
            let mut key = String::from_str("-");
            key.append(r.id.as_str());
            proof {
                reveal_strlit("-");
            }
            out.push(key);
        } else {
            out.push(r.id.clone());
        }
        proof {
            assert(rv[i as int] == refs@[i as int].v());
        }
        i = i + 1;
    }
    proof {
        assert forall|k: int| 0 <= k < views_seq(out@).len() implies views_seq(out@)[k]
            == edges_of_entry(*e)[k] by {
            assert(views_seq(out@)[k] == out@[k]@);
            assert(edges_of_entry(*e)[k] == ref_edge(rv[k]));
        };
        assert(views_seq(out@) =~= edges_of_entry(*e));
    }
    out
}

/// Builds the reference graph of the resource that occupies the arena from
/// position `start` on.
fn build_ref_graph(table: &SymbolTable, start: usize) -> (g: RefGraph)
    requires
        start <= table.arena@.len(),
    ensures
        g.wf(),
        g.model() == build_graph(
            Map::empty(),
            table.arena@.subrange(start as int, table.arena@.len() as int),
            0,
        ),
        views_seq(g.keys@) == build_keys(
            Seq::empty(),
            table.arena@.subrange(start as int, table.arena@.len() as int),
            0,
        ),
{
    let ghost s = table.arena@.subrange(start as int, table.arena@.len() as int);
    let mut g = RefGraph { keys: Vec::new(), map: vstd::hash_map::StringHashMap::new() };
    let mut k: usize = start;
    proof {
        assert(g.map@.dom() =~= views_of(g.keys@));
        assert(g.model() =~= Map::<Seq<char>, Seq<Seq<char>>>::empty());
        assert(views_seq(g.keys@) =~= Seq::<Seq<char>>::empty());
    }
    while k < table.arena.len()
        invariant
            start <= k <= table.arena@.len(),
            s == table.arena@.subrange(start as int, table.arena@.len() as int),
            g.wf(),
            build_graph(g.model(), s, k - start) == build_graph(Map::empty(), s, 0),
            build_keys(views_seq(g.keys@), s, k - start) == build_keys(Seq::empty(), s, 0),
        decreases table.arena@.len() - k,
    {
        let ghost gm_pre = g.model();
        let ghost keys_pre = g.keys@;
        let e = &table.arena[k];
        proof {
            assert(*e == s[k - start]);
        }
        let full = match e {
            Entry::Message { id, .. } => id.clone(),
            Entry::Term { id, .. } => {
                let mut key = String::from_str("-");
                key.append(id.as_str());
                key
            },
        };
        proof {
            reveal_strlit("-");
            assert(full@ == e.full_id());
        }
        let edges = edge_strings(e);
        let ghost ev = views_seq(edges@);
        let ghost kv_pre = views_seq(keys_pre);
        if !g.map.contains_key(full.as_str()) {
            g.keys.push(full.clone());
            proof {
                crate::walker::lemma_views_push(keys_pre, g.keys@[keys_pre.len() as int]);
                assert(views_of(g.keys@) =~= views_of(keys_pre).insert(full@));
                assert(views_seq(g.keys@) =~= kv_pre.push(full@));
                assert(!kv_pre.contains(full@)) by {
                    if kv_pre.contains(full@) {
                        let j = choose|j: int| 0 <= j < kv_pre.len() && kv_pre[j] == full@;
                        assert(keys_pre[j]@ == full@);
                        assert(views_of(keys_pre).contains(full@));
                    }
                };
            }
        } else {
            proof {
                assert(views_of(keys_pre).contains(full@));
                let j = choose|j: int| 0 <= j < keys_pre.len() && keys_pre[j]@ == full@;
                assert(views_seq(keys_pre)[j] == full@);
                assert(kv_pre.contains(full@));
            }
        }
        let ghost keys_now = g.keys@;
        g.map.insert(full, edges);
        proof {
            assert(g.keys@ == keys_now);
            assert(g.map@.dom() =~= views_of(g.keys@)) by {
                if gm_pre.dom().contains(s[k - start].full_id()) {
                    assert(g.map@.dom() =~= gm_pre.dom());
                    assert(views_of(keys_now) =~= views_of(keys_pre));
                } else {
                    assert(g.map@.dom() =~= gm_pre.dom().insert(s[k - start].full_id()));
                }
            };
            assert(g.model() =~= gm_pre.insert(s[k - start].full_id(), edges_of_entry(
                s[k - start],
            ))) by {
                assert(g.model().dom() =~= gm_pre.insert(
                    s[k - start].full_id(),
                    edges_of_entry(s[k - start]),
                ).dom());
                assert(ev == edges_of_entry(s[k - start]));
            };
            assert(views_seq(g.keys@) =~= if kv_pre.contains(s[k - start].full_id()) {
                kv_pre
            } else {
                kv_pre.push(s[k - start].full_id())
            });
            assert(build_graph(g.model(), s, k - start + 1) == build_graph(Map::empty(), s, 0));
            assert(build_keys(views_seq(g.keys@), s, k - start + 1) == build_keys(
                Seq::empty(),
                s,
                0,
            ));
        }
        k = k + 1;
    }
    proof {
        assert(k - start == s.len());
    }
    g
}

/// The search from `id`, with `path` as the stack: true exactly when the
/// specification search finds a cycle; the path then carries the cycle and
/// is otherwise restored.
fn dfs(g: &RefGraph, id: &String, path: &mut Vec<String>) -> (found: bool)
    requires
        g.wf(),
    ensures
        found == (spec_dfs(g.model(), views_seq(old(path)@), id@) is Some),
        found ==> views_seq(final(path)@) == spec_dfs(
            g.model(),
            views_seq(old(path)@),
            id@,
        ).unwrap(),
        !found ==> final(path)@ == old(path)@,
    decreases views_of(g.keys@).difference(views_of(path@)).len(),
{
    proof {
        g.lemma_finite();
        lemma_views_seq_to_set(path@);
    }
    let ghost stack = views_seq(path@);
    let on_path = contains_string(path, id);
    if on_path {
        proof {
            assert(stack.to_set().contains(id@));
            assert(stack.contains(id@));
        }
        path.push(id.clone());
        proof {
            assert(views_seq(path@) =~= stack.push(id@));
        }
        return true;
    }
    proof {
        assert(!stack.contains(id@)) by {
            if stack.contains(id@) {
                let j = choose|j: int| 0 <= j < stack.len() && stack[j] == id@;
                assert(old(path)@[j]@ == id@);
                assert(views_of(old(path)@).contains(id@));
            }
        };
    }
    let edges = match g.map.get(id.as_str()) {
        None => {
            proof {
                assert(!g.model().dom().contains(id@));
            }
            return false;
        },
        Some(edges) => edges,
    };
    proof {
        assert(g.model().dom().contains(id@));
        assert(g.model()[id@] == views_seq(edges@));
    }
    let ghost path0 = path@;
    path.push(id.clone());
    let ghost stack1 = views_seq(path@);
    proof {
        assert(stack1 =~= stack.push(id@));
        crate::walker::lemma_views_push(path0, path@[path0.len() as int]);
        assert(views_of(path@) =~= views_of(path0).insert(id@));
    }
    let ghost ev = views_seq(edges@);
    let mut j: usize = 0;
    while j < edges.len()
        invariant
            g.wf(),
            g.model().dom().contains(id@),
            old(path)@ == path0,
            views_seq(path@) == stack1,
            views_of(path@) =~= views_of(path0).insert(id@),
            path@ == path0.push(path@[path0.len() as int]),
            path@.len() == path0.len() + 1,
            !views_of(path0).contains(id@),
            stack1 == stack.push(id@),
            stack == views_seq(path0),
            0 <= j <= ev.len(),
            ev == views_seq(edges@),
            ev == g.model()[id@],
            spec_dfs_edges(g.model(), stack1, ev, j as int) == spec_dfs_edges(
                g.model(),
                stack1,
                ev,
                0,
            ),
        decreases ev.len() - j,
    {
        proof {
            g.lemma_finite();
            lemma_views_seq_to_set(path0);
            lemma_views_seq_to_set(path@);
            assert(!stack.contains(id@)) by {
                if stack.contains(id@) {
                    let jj = choose|jj: int| 0 <= jj < stack.len() && stack[jj] == id@;
                    assert(path0[jj]@ == id@);
                    assert(views_of(path0).contains(id@));
                }
            };
            lemma_stack_grows(g.model(), stack, id@);
            assert(g.model().dom() =~= g.map@.dom());
            assert(g.model().dom() =~= views_of(g.keys@));
            assert(views_of(path@) =~= stack1.to_set());
            assert(views_of(path0) =~= stack.to_set());
            assert(views_of(g.keys@).difference(views_of(path@)) =~= g.model().dom().difference(
                stack1.to_set(),
            ));
            assert(views_of(g.keys@).difference(views_of(path0)) =~= g.model().dom().difference(
                stack.to_set(),
            ));
            assert(spec_dfs(g.model(), stack, id@) == spec_dfs_edges(
                g.model(),
                stack1,
                ev,
                0,
            ));
        }
        let found = dfs(g, &edges[j], path);
        if found {
            proof {
                assert(ev[j as int] == edges@[j as int]@);
                assert(spec_dfs_edges(g.model(), stack1, ev, j as int) is Some);
                assert(spec_dfs_edges(g.model(), stack1, ev, j as int).unwrap() == spec_dfs(
                    g.model(),
                    stack1,
                    ev[j as int],
                ).unwrap());
                assert(spec_dfs(g.model(), stack, id@) == spec_dfs_edges(
                    g.model(),
                    stack1,
                    ev,
                    0,
                ));
            }
            return true;
        }
        proof {
            assert(ev[j as int] == edges@[j as int]@);
            assert(spec_dfs(g.model(), stack1, ev[j as int]) is None);
            assert(spec_dfs_edges(g.model(), stack1, ev, j as int) == spec_dfs_edges(
                g.model(),
                stack1,
                ev,
                j as int + 1,
            ));
        }
        j = j + 1;
    }
    proof {
        assert(spec_dfs_edges(g.model(), stack1, ev, ev.len() as int) is None);
        assert(spec_dfs_edges(g.model(), stack1, ev, 0) is None);
        assert(spec_dfs(g.model(), stack, id@) is None);
    }
    let popped = path.pop();
    proof {
        assert(path@ =~= path0);
    }
    let _ = popped;
    false
}

/// Detects cycles among the entries of the resource that occupies the arena
/// from position `start` on: a depth-first search runs from every node of
/// the resource's reference graph, in first-occurrence order, and each
/// search that closes a cycle yields one `CyclicReference` diagnostic
/// carrying the cycle path.
pub fn detect_cycles(table: &SymbolTable, start: usize) -> (errs: Vec<ValidationError>)
    requires
        start <= table.arena@.len(),
    ensures
        verr_views(errs@) =~= cycle_diags(
            build_graph(
                Map::empty(),
                table.arena@.subrange(start as int, table.arena@.len() as int),
                0,
            ),
            build_keys(
                Seq::empty(),
                table.arena@.subrange(start as int, table.arena@.len() as int),
                0,
            ),
            0,
        ),
{
    let g = build_ref_graph(table, start);
    let ghost gm = g.model();
    let ghost order = views_seq(g.keys@);
    let mut errs: Vec<ValidationError> = Vec::new();
    let mut i: usize = 0;
    proof {
        assert(verr_views(errs@) =~= Seq::empty());
    }
    while i < g.keys.len()
        invariant
            g.wf(),
            gm == g.model(),
            order == views_seq(g.keys@),
            0 <= i <= order.len(),
            order.len() == g.keys@.len(),
            verr_views(errs@) + cycle_diags(gm, order, i as int) =~= cycle_diags(gm, order, 0),
        decreases order.len() - i,
    {
        let ghost prev = errs@;
        let mut path: Vec<String> = Vec::new();
        proof {
            assert(views_seq(path@) =~= Seq::<Seq<char>>::empty());
            assert(g.keys@[i as int]@ == order[i as int]);
        }
        let found = dfs(&g, &g.keys[i], &mut path);
        if found {
            let text = join_path(&path);
            errs.push(cyclic_error(&g.keys[i], &text));
            proof {
                assert(verr_views(errs@) =~= verr_views(prev) + seq![
                    cyclic_view(order[i as int], join_arrows(views_seq(path@))),
                ]);
                assert(join_arrows(views_seq(path@)) == join_arrows(
                    spec_dfs(gm, Seq::empty(), order[i as int]).unwrap(),
                ));
            }
        } else {
            proof {
                lemma_seq_concat_empty(verr_views(errs@));
                assert(verr_views(errs@) =~= verr_views(prev) + Seq::<
                    ValidationErrorView,
                >::empty());
            }
        }
        proof {
            assert(cycle_diags(gm, order, i as int) == (match spec_dfs(
                gm,
                Seq::empty(),
                order[i as int],
            ) {
                Some(p) => seq![cyclic_view(order[i as int], join_arrows(p))],
                None => Seq::<ValidationErrorView>::empty(),
            }) + cycle_diags(gm, order, i as int + 1));
            crate::walker::lemma_seq_concat_assoc(
                verr_views(prev),
                (match spec_dfs(gm, Seq::empty(), order[i as int]) {
                    Some(p) => seq![cyclic_view(order[i as int], join_arrows(p))],
                    None => Seq::<ValidationErrorView>::empty(),
                }),
                cycle_diags(gm, order, i as int + 1),
            );
        }
        i = i + 1;
    }
    proof {
        lemma_seq_concat_empty(verr_views(errs@));
    }
    errs
}

} // verus!
