//! Verified string helpers: equality and lexicographic order by code
//! points, splitting an identifier at its first `.`, and sorting a list of
//! names.

use vstd::prelude::*;
use vstd::string::StrSliceExecFns;

use crate::walker::distinct_views;
use crate::walker::views_of;

verus! {

/// Lexicographic order on character sequences, by code point; a prefix
/// comes before every extension of it.
pub open spec fn lex_le(x: Seq<char>, y: Seq<char>) -> bool
    decreases x.len(),
{
    if x.len() == 0 {
        true
    } else if y.len() == 0 {
        false
    } else if (x[0] as u32) < (y[0] as u32) {
        true
    } else if (x[0] as u32) > (y[0] as u32) {
        false
    } else {
        lex_le(x.subrange(1, x.len() as int), y.subrange(1, y.len() as int))
    }
}

/// Any two character sequences are comparable.
pub proof fn lemma_lex_total(x: Seq<char>, y: Seq<char>)
    ensures
        lex_le(x, y) || lex_le(y, x),
    decreases x.len(),
{
    if x.len() > 0 && y.len() > 0 && (x[0] as u32) == (y[0] as u32) {
        lemma_lex_total(x.subrange(1, x.len() as int), y.subrange(1, y.len() as int));
    }
}

/// The order is transitive.
pub proof fn lemma_lex_trans(x: Seq<char>, y: Seq<char>, z: Seq<char>)
    requires
        lex_le(x, y),
        lex_le(y, z),
    ensures
        lex_le(x, z),
    decreases x.len(),
{
    if x.len() > 0 && y.len() > 0 && z.len() > 0 && (x[0] as u32) == (y[0] as u32) && (y[0] as u32)
        == (z[0] as u32) {
        lemma_lex_trans(
            x.subrange(1, x.len() as int),
            y.subrange(1, y.len() as int),
            z.subrange(1, z.len() as int),
        );
    }
}

/// Characters with the same code point are the same character.
proof fn lemma_char_inj(c1: char, c2: char)
    requires
        c1 as u32 == c2 as u32,
    ensures
        c1 == c2,
{
}

/// The order has no distinct sequences below each other.
pub proof fn lemma_lex_antisym(x: Seq<char>, y: Seq<char>)
    requires
        lex_le(x, y),
        lex_le(y, x),
    ensures
        x == y,
    decreases x.len(),
{
    if x.len() > 0 && y.len() > 0 && (x[0] as u32) == (y[0] as u32) {
        lemma_char_inj(x[0], y[0]);
        lemma_lex_antisym(x.subrange(1, x.len() as int), y.subrange(1, y.len() as int));
        assert(x.len() == y.len());
        assert forall|i: int| 0 <= i < x.len() implies x[i] == y[i] by {
            if i > 0 {
                assert(x.subrange(1, x.len() as int)[i - 1] == x[i]);
                assert(y.subrange(1, y.len() as int)[i - 1] == y[i]);
            }
        };
        assert(x =~= y);
    } else if x.len() == 0 {
        assert(y.len() == 0);
        assert(x =~= y);
    }
}

/// A list of names in strict order: no duplicates, each before the next.
pub open spec fn sorted_distinct(q: Seq<Seq<char>>) -> bool {
    forall|a: int, b: int| #![trigger q[a], q[b]]
        0 <= a < b < q.len() ==> q[a] != q[b] && lex_le(q[a], q[b])
}

/// Two strictly ordered lists of the same names are the same list.
pub proof fn lemma_sorted_unique(q1: Seq<Seq<char>>, q2: Seq<Seq<char>>)
    requires
        sorted_distinct(q1),
        sorted_distinct(q2),
        q1.to_set() == q2.to_set(),
    ensures
        q1 == q2,
    decreases q1.len(),
{
    if q1.len() == 0 {
        if q2.len() > 0 {
            assert(q2.to_set().contains(q2[0]));
            assert(q1.contains(q2[0]));
        }
        assert(q1 =~= q2);
    } else {
        assert(q1.to_set().contains(q1[0]));
        assert(q2.contains(q1[0]));
        if q2.len() == 0 {
            assert(q2.to_set().contains(q1[0]));
        }
        assert(q2.to_set().contains(q2[0]));
        assert(q1.contains(q2[0]));
        let a = choose|a: int| 0 <= a < q2.len() && q2[a] == q1[0];
        let b = choose|b: int| 0 <= b < q1.len() && q1[b] == q2[0];
        lemma_lex_total(q1[0], q1[0]);
        lemma_lex_total(q2[0], q2[0]);
        assert(lex_le(q1[0], q1[b]));
        assert(lex_le(q2[0], q2[a]));
        lemma_lex_antisym(q1[0], q2[0]);
        let t1 = q1.subrange(1, q1.len() as int);
        let t2 = q2.subrange(1, q2.len() as int);
        assert(t1.to_set() =~= t2.to_set()) by {
            assert forall|x: Seq<char>| t1.to_set().contains(x) implies t2.to_set().contains(
                x,
            ) by {
                let k = choose|k: int| 0 <= k < t1.len() && t1[k] == x;
                assert(q1[k + 1] == x);
                assert(x != q1[0]);
                assert(q1.to_set().contains(x));
                assert(q2.contains(x));
                let m = choose|m: int| 0 <= m < q2.len() && q2[m] == x;
                assert(m != 0);
                assert(t2[m - 1] == x);
                assert(t2.contains(x));
            };
            assert forall|x: Seq<char>| t2.to_set().contains(x) implies t1.to_set().contains(
                x,
            ) by {
                let k = choose|k: int| 0 <= k < t2.len() && t2[k] == x;
                assert(q2[k + 1] == x);
                assert(x != q2[0]);
                assert(q2.to_set().contains(x));
                assert(q1.contains(x));
                let m = choose|m: int| 0 <= m < q1.len() && q1[m] == x;
                assert(m != 0);
                assert(t1[m - 1] == x);
                assert(t1.contains(x));
            };
        };
        assert forall|u: int, v: int| 0 <= u < v < t1.len() implies t1[u] != t1[v] && lex_le(
            t1[u],
            t1[v],
        ) by {
            assert(t1[u] == q1[u + 1] && t1[v] == q1[v + 1]);
            assert(q1[u + 1] != q1[v + 1] && lex_le(q1[u + 1], q1[v + 1]));
        };
        assert forall|u: int, v: int| 0 <= u < v < t2.len() implies t2[u] != t2[v] && lex_le(
            t2[u],
            t2[v],
        ) by {
            assert(t2[u] == q2[u + 1] && t2[v] == q2[v + 1]);
            assert(q2[u + 1] != q2[v + 1] && lex_le(q2[u + 1], q2[v + 1]));
        };
        lemma_sorted_unique(t1, t2);
        assert(q1.len() == q2.len());
        assert forall|i: int| 0 <= i < q1.len() implies q1[i] == q2[i] by {
            if i > 0 {
                assert(t1[i - 1] == q1[i]);
                assert(t2[i - 1] == q2[i]);
            }
        };
        assert(q1 =~= q2);
    }
}

/// Whether the two strings have the same characters.
pub fn str_eq(a: &str, b: &str) -> (r: bool)
    ensures
        r == (a@ == b@),
{
    let n1 = a.unicode_len();
    let n2 = b.unicode_len();
    if n1 != n2 {
        proof {
            assert(a@ != b@);
        }
        return false;
    }
    let mut i: usize = 0;
    while i < n1
        invariant
            0 <= i <= n1,
            n1 == a@.len(),
            n1 == b@.len(),
            forall|k: int| 0 <= k < i ==> a@[k] == b@[k],
        decreases n1 - i,
    {
        let c1 = a.get_char(i);
        let c2 = b.get_char(i);
        if c1 != c2 {
            proof {
                assert(a@[i as int] != b@[i as int]);
            }
            return false;
        }
        i = i + 1;
    }
    proof {
        assert(a@ =~= b@);
    }
    true
}

/// Whether `a` comes before `b` (or equals it) in lexicographic order.
pub fn str_le(a: &str, b: &str) -> (r: bool)
    ensures
        r == lex_le(a@, b@),
{
    let n1 = a.unicode_len();
    let n2 = b.unicode_len();
    let mut i: usize = 0;
    proof {
        assert(a@.subrange(0, n1 as int) =~= a@);
        assert(b@.subrange(0, n2 as int) =~= b@);
    }
    loop
        invariant
            0 <= i <= n1,
            i <= n2,
            n1 == a@.len(),
            n2 == b@.len(),
            lex_le(a@, b@) == lex_le(
                a@.subrange(i as int, n1 as int),
                b@.subrange(i as int, n2 as int),
            ),
        decreases n1 - i,
    {
        if i == n1 {
            proof {
                assert(lex_le(a@.subrange(i as int, n1 as int), b@.subrange(i as int, n2 as int)));
            }
            return true;
        }
        if i == n2 {
            proof {
                assert(a@.subrange(i as int, n1 as int).len() > 0);
                assert(!lex_le(a@.subrange(i as int, n1 as int), b@.subrange(i as int, n2 as int)));
            }
            return false;
        }
        let c1 = a.get_char(i);
        let c2 = b.get_char(i);
        let u1 = c1 as u32;
        let u2 = c2 as u32;
        proof {
            assert(a@.subrange(i as int, n1 as int)[0] == a@[i as int]);
            assert(b@.subrange(i as int, n2 as int)[0] == b@[i as int]);
        }
        if u1 < u2 {
            return true;
        }
        if u1 > u2 {
            return false;
        }
        proof {
            assert(a@.subrange(i as int, n1 as int).subrange(
                1,
                a@.subrange(i as int, n1 as int).len() as int,
            ) =~= a@.subrange(i as int + 1, n1 as int));
            assert(b@.subrange(i as int, n2 as int).subrange(
                1,
                b@.subrange(i as int, n2 as int).len() as int,
            ) =~= b@.subrange(i as int + 1, n2 as int));
        }
        i = i + 1;
    }
}

/// Splits an identifier at its first `.`: `m.attr` becomes the pair
/// `(m, attr)`; an identifier without a `.` is returned unsplit.
pub fn split_identifier<'a>(s: &'a str) -> (r: Option<(&'a str, &'a str)>)
    ensures
        match r {
            Some((head, tail)) => {
                &&& exists|k: int|
                    0 <= k < s@.len() && s@[k] == '.' && head@ =~= s@.subrange(0, k) && tail@
                        =~= s@.subrange(k + 1, s@.len() as int) && (forall|j: int|
                        0 <= j < k ==> s@[j] != '.')
            },
            None => forall|j: int| 0 <= j < s@.len() ==> s@[j] != '.',
        },
{
    let n = s.unicode_len();
    let mut i: usize = 0;
    while i < n
        invariant
            0 <= i <= n,
            n == s@.len(),
            forall|j: int| 0 <= j < i ==> s@[j] != '.',
        decreases n - i,
    {
        let c = s.get_char(i);
        if c == '.' {
            let head = s.substring_char(0, i);
            let tail = s.substring_char(i + 1, n);
            return Some((head, tail));
        }
        i = i + 1;
    }
    None
}

/// Whether the names are in lexicographic order.
pub open spec fn sorted_views(s: Seq<String>) -> bool {
    forall|i: int, j: int| 0 <= i < j < s.len() ==> lex_le(s[i]@, s[j]@)
}

/// Sorts the names lexicographically, keeping exactly the same contents.
pub fn sort_strings(v: Vec<String>) -> (r: Vec<String>)
    ensures
        views_of(r@) =~= views_of(v@),
        distinct_views(v@) ==> distinct_views(r@),
        sorted_views(r@),
{
    let ghost s = v@;
    let mut rest = v;
    let mut out: Vec<String> = Vec::new();
    while rest.len() > 0
        invariant
            sorted_views(out@),
            views_of(out@ + rest@) =~= views_of(s),
            distinct_views(s) ==> distinct_views(out@ + rest@),
        decreases rest@.len(),
    {
        let ghost rest_pre = rest@;
        let ghost out_pre = out@;
        let x = rest.remove(0);
        let mut j: usize = 0;
        loop
            invariant
                0 <= j <= out@.len(),
                out@ == out_pre,
                forall|k: int| 0 <= k < j ==> lex_le(out@[k]@, x@),
            ensures
                0 <= j <= out@.len(),
                out@ == out_pre,
                forall|k: int| 0 <= k < j ==> lex_le(out@[k]@, x@),
                j < out@.len() ==> !lex_le(out@[j as int]@, x@),
            decreases out@.len() - j,
        {
            if j == out.len() {
                break ;
            }
            if !str_le(out[j].as_str(), x.as_str()) {
                break ;
            }
            j = j + 1;
        }
        proof {
            if (j as int) < out@.len() {
                lemma_lex_total(out@[j as int]@, x@);
            }
        }
        out.insert(j, x);
        proof {
            lemma_sorted_insert(out_pre, x, j as int);
            assert(out@ == out_pre.insert(j as int, x));
            lemma_insert_views(out_pre, rest_pre, x, j as int, s);
        }
    }
    proof {
        assert(out@ + rest@ =~= out@);
        assert(views_of(out@) =~= views_of(s));
    }
    out
}

/// Inserting a name at the first position whose occupant does not come
/// before it keeps the list sorted.
proof fn lemma_sorted_insert(s: Seq<String>, x: String, j: int)
    requires
        sorted_views(s),
        0 <= j <= s.len(),
        forall|k: int| 0 <= k < j ==> lex_le(s[k]@, x@),
        j < s.len() ==> lex_le(x@, s[j]@),
    ensures
        sorted_views(s.insert(j, x)),
{
    let t = s.insert(j, x);
    assert forall|p: int, q: int| 0 <= p < q < t.len() implies lex_le(t[p]@, t[q]@) by {
        if p < j && q == j {
        } else if p == j && q > j {
            assert(t[q] == s[q - 1]);
            if j < s.len() && q - 1 > j {
                lemma_lex_trans(x@, s[j]@, s[q - 1]@);
            }
        } else if p < j && q > j {
            assert(t[p] == s[p] && t[q] == s[q - 1]);
        } else if p > j && q > j {
            assert(t[p] == s[p - 1] && t[q] == s[q - 1]);
        }
    };
}

/// Moving one name from the unsorted part into the sorted part keeps the
/// combined contents.
proof fn lemma_insert_views(
    out_pre: Seq<String>,
    rest_pre: Seq<String>,
    x: String,
    j: int,
    s: Seq<String>,
)
    requires
        0 <= j <= out_pre.len(),
        rest_pre.len() > 0,
        x == rest_pre[0],
        views_of(out_pre + rest_pre) =~= views_of(s),
        distinct_views(s) ==> distinct_views(out_pre + rest_pre),
    ensures
        views_of(out_pre.insert(j, x) + rest_pre.subrange(1, rest_pre.len() as int)) =~= views_of(
            s,
        ),
        distinct_views(s) ==> distinct_views(
            out_pre.insert(j, x) + rest_pre.subrange(1, rest_pre.len() as int),
        ),
{
    let before = out_pre + rest_pre;
    let after = out_pre.insert(j, x) + rest_pre.subrange(1, rest_pre.len() as int);
    assert(before.len() == after.len());
    let n = before.len();
    let f = |p: int|
        if p < j {
            p
        } else if p == j {
            out_pre.len() as int
        } else if p <= out_pre.len() {
            p - 1
        } else {
            p
        };
    assert forall|p: int| 0 <= p < n implies after[p] == before[f(p)] && 0 <= f(p) < n by {
        if p < j {
        } else if p == j {
            assert(after[p] == x && before[out_pre.len() as int] == rest_pre[0]);
        } else if p <= out_pre.len() {
            assert(after[p] == out_pre[p - 1]);
        } else {
            assert(after[p] == rest_pre.subrange(1, rest_pre.len() as int)[p - out_pre.len() - 1]);
            assert(after[p] == rest_pre[p - out_pre.len()]);
        }
    };
    let g = |q: int|
        if q < j {
            q
        } else if q < out_pre.len() {
            q + 1
        } else if q == out_pre.len() {
            j
        } else {
            q
        };
    assert forall|q: int| 0 <= q < n implies before[q] == after[g(q)] && 0 <= g(q) < n by {
        if q < j {
        } else if q < out_pre.len() {
            assert(after[q + 1] == out_pre[q]);
        } else if q == out_pre.len() {
            assert(before[q] == rest_pre[0]);
            assert(after[j] == x);
        } else {
            assert(before[q] == rest_pre[q - out_pre.len()]);
            assert(after[q] == rest_pre.subrange(1, rest_pre.len() as int)[q - out_pre.len() - 1]);
        }
    };
    assert forall|y: Seq<char>| views_of(after).contains(y) implies views_of(before).contains(
        y,
    ) by {
        let p = choose|p: int| 0 <= p < after.len() && after[p]@ == y;
        assert(before[f(p)]@ == y);
    };
    assert forall|y: Seq<char>| views_of(before).contains(y) implies views_of(after).contains(
        y,
    ) by {
        let q = choose|q: int| 0 <= q < before.len() && before[q]@ == y;
        assert(after[g(q)]@ == y);
    };
    if distinct_views(s) {
        assert forall|p: int, q: int| 0 <= p < q < after.len() implies after[p]@ != after[q]@ by {
            assert(after[p] == before[f(p)] && after[q] == before[f(q)]);
            assert(f(p) != f(q));
        }
    }
}

} // verus!
