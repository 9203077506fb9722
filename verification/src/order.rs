//! Ordering and listing helpers: lexicographic string order (by code point),
//! sorted insertion for stable diagnostic listings, and list joining.
use vstd::prelude::*;
use vstd::string::*;

use crate::text::{seq_contains_str, str_eq};

verus! {

/// Lexicographic comparison from position `i` on: true when `a` is less than
/// or equal to `b`.
pub open spec fn str_le_from(a: Seq<char>, b: Seq<char>, i: nat) -> bool
    decreases a.len() - i,
{
    if i >= a.len() {
        true
    } else if i >= b.len() {
        false
    } else if (a[i as int] as u32) != (b[i as int] as u32) {
        (a[i as int] as u32) < (b[i as int] as u32)
    } else {
        str_le_from(a, b, (i + 1) as nat)
    }
}

/// Lexicographic order on character sequences, by code point.
pub open spec fn str_le(a: Seq<char>, b: Seq<char>) -> bool {
    str_le_from(a, b, 0)
}

proof fn lemma_str_le_from_total(a: Seq<char>, b: Seq<char>, i: nat)
    ensures
        str_le_from(a, b, i) || str_le_from(b, a, i),
    decreases a.len() - i,
{
    if i < a.len() && i < b.len() && (a[i as int] as u32) == (b[i as int] as u32) {
        lemma_str_le_from_total(a, b, (i + 1) as nat);
    }
}

/// The order is total: of any two sequences, one is less than or equal to
/// the other.
pub proof fn lemma_str_le_total(a: Seq<char>, b: Seq<char>)
    ensures
        str_le(a, b) || str_le(b, a),
{
    lemma_str_le_from_total(a, b, 0);
}

proof fn lemma_str_le_from_trans(a: Seq<char>, b: Seq<char>, c: Seq<char>, i: nat)
    requires
        str_le_from(a, b, i),
        str_le_from(b, c, i),
    ensures
        str_le_from(a, c, i),
    decreases a.len() - i,
{
    if i >= a.len() {
    } else {
        if i < b.len() && i < c.len() && (a[i as int] as u32) == (b[i as int] as u32) && (b[
            i as int] as u32) == (c[i as int] as u32) {
            lemma_str_le_from_trans(a, b, c, (i + 1) as nat);
        }
    }
}

/// The order is transitive.
pub proof fn lemma_str_le_trans(a: Seq<char>, b: Seq<char>, c: Seq<char>)
    requires
        str_le(a, b),
        str_le(b, c),
    ensures
        str_le(a, c),
{
    lemma_str_le_from_trans(a, b, c, 0);
}

/// Lexicographic comparison of two string slices.
pub fn str_le_exec(a: &str, b: &str) -> (r: bool)
    ensures
        r == str_le(a@, b@),
{
    let na = a.unicode_len();
    let nb = b.unicode_len();
    let mut i: usize = 0;
    loop
        invariant
            i <= na,
            na == a@.len(),
            nb == b@.len(),
            str_le(a@, b@) == str_le_from(a@, b@, i as nat),
        decreases na - i,
    {
        if i >= na {
            return true;
        }
        if i >= nb {
            return false;
        }
        let ca = a.get_char(i);
        let cb = b.get_char(i);
        if (ca as u32) != (cb as u32) {
            return (ca as u32) < (cb as u32);
        }
        i += 1;
    }
}

/// Whether the strings selected from `keys` by `order` are sorted.
pub open spec fn sorted_by_keys(keys: Seq<String>, order: Seq<usize>) -> bool {
    forall|k: int, l: int|
        0 <= k < l < order.len() ==> str_le(keys[order[k] as int]@, keys[order[l] as int]@)
}

/// Inserts index `idx` into `order` so that the strings selected from `keys`
/// stay sorted; equal keys keep their insertion order.
pub fn insert_by_key(keys: &Vec<String>, order: &mut Vec<usize>, idx: usize)
    requires
        idx < keys@.len(),
        forall|k: int| 0 <= k < old(order)@.len() ==> #[trigger] old(order)@[k] < keys@.len(),
        sorted_by_keys(keys@, old(order)@),
    ensures
        final(order)@.len() == old(order)@.len() + 1,
        forall|k: int| 0 <= k < final(order)@.len() ==> #[trigger] final(order)@[k] < keys@.len(),
        sorted_by_keys(keys@, final(order)@),
        forall|x: usize| final(order)@.contains(x) == (old(order)@.contains(x) || x == idx),
        final(order)@.map_values(|u: usize| u as int) == spec_sorted_insert_idx(
            keys@,
            old(order)@.map_values(|u: usize| u as int),
            idx as int,
        ),
    {
    let n = order.len();
    let key = &keys[idx];
    let mut p: usize = 0;
    while p < n && str_le_exec(keys[order[p]].as_str(), key.as_str())
        invariant
            p <= n,
            n == order@.len(),
            order@ == old(order)@,
            forall|k: int| 0 <= k < p ==> str_le(keys@[order@[k] as int]@, keys@[idx as int]@),
        decreases n - p,
    {
        p += 1;
    }
    proof {
        if p < n {
            lemma_str_le_total(keys@[order@[p as int] as int]@, keys@[idx as int]@);
        }
    }
    order.insert(p, idx);
    proof {
        let newv = order@;
        let oldv = old(order)@;
        assert forall|k: int, l: int|
            0 <= k < l < newv.len() implies str_le(
            keys@[newv[k] as int]@,
            keys@[newv[l] as int]@,
        ) by {
            if k < p && l == p {
            } else if k == p && l > p {
                if p < n {
                    if l > p + 1 {
                        lemma_str_le_trans(
                            keys@[idx as int]@,
                            keys@[oldv[p as int] as int]@,
                            keys@[newv[l] as int]@,
                        );
                    }
                }
            }
        }
        assert forall|x: usize| newv.contains(x) == (oldv.contains(x) || x == idx) by {
            if newv.contains(x) {
                let k = choose|k: int| 0 <= k < newv.len() && newv[k] == x;
                if k < p {
                    assert(oldv[k] == x);
                } else if k > p {
                    assert(oldv[k - 1] == x);
                }
            }
            if oldv.contains(x) {
                let k = choose|k: int| 0 <= k < oldv.len() && oldv[k] == x;
                if k < p {
                    assert(newv[k] == x);
                } else {
                    assert(newv[k + 1] == x);
                }
            }
            if x == idx {
                assert(newv[p as int] == x);
            }
        }
        let oldm = oldv.map_values(|u: usize| u as int);
        let newm = newv.map_values(|u: usize| u as int);
        lemma_sorted_insert_idx_at(keys@, oldm, idx as int, p as int);
        assert(newm =~= oldm.take(p as int) + seq![idx as int] + oldm.skip(p as int));
    }
}

/// Inserting an index into an index list so that the strings selected from
/// `keys` stay sorted: the new index goes after every entry whose key is
/// less than or equal to its key.
pub open spec fn spec_sorted_insert_idx(keys: Seq<String>, v: Seq<int>, x: int) -> Seq<int>
    decreases v.len(),
{
    if v.len() == 0 {
        seq![x]
    } else if str_le(keys[v[0]]@, keys[x]@) {
        seq![v[0]] + spec_sorted_insert_idx(keys, v.drop_first(), x)
    } else {
        seq![x] + v
    }
}

/// Sorting the first `n` indices by their keys, by repeated insertion:
/// equal keys keep their order.
pub open spec fn spec_sort_indices_upto(keys: Seq<String>, v: Seq<int>, n: nat) -> Seq<int>
    decreases n,
{
    if n == 0 {
        Seq::empty()
    } else {
        spec_sorted_insert_idx(keys, spec_sort_indices_upto(keys, v, (n - 1) as nat), v[n - 1])
    }
}

/// The index list sorted by its keys, stably.
pub open spec fn spec_sort_indices(keys: Seq<String>, v: Seq<int>) -> Seq<int> {
    spec_sort_indices_upto(keys, v, v.len())
}

/// Sorted insertion places the new index at the first position whose key is
/// not less than or equal to the new key.
pub proof fn lemma_sorted_insert_idx_at(keys: Seq<String>, v: Seq<int>, x: int, p: int)
    requires
        0 <= p <= v.len(),
        forall|k: int| 0 <= k < p ==> str_le(keys[#[trigger] v[k]]@, keys[x]@),
        p < v.len() ==> !str_le(keys[v[p]]@, keys[x]@),
    ensures
        spec_sorted_insert_idx(keys, v, x) == v.take(p) + seq![x] + v.skip(p),
    decreases p,
{
    if p == 0 {
        if v.len() == 0 {
            assert(spec_sorted_insert_idx(keys, v, x) =~= v.take(0) + seq![x] + v.skip(0));
        } else {
            assert(spec_sorted_insert_idx(keys, v, x) =~= v.take(0) + seq![x] + v.skip(0));
        }
    } else {
        let w = v.drop_first();
        assert(forall|k: int| 0 <= k < p - 1 ==> #[trigger] w[k] == v[k + 1]);
        lemma_sorted_insert_idx_at(keys, w, x, p - 1);
        assert(spec_sorted_insert_idx(keys, v, x) == seq![v[0]] + (w.take(p - 1) + seq![x]
            + w.skip(p - 1)));
        assert(spec_sorted_insert_idx(keys, v, x) =~= v.take(p) + seq![x] + v.skip(p));
    }
}

/// Joining a list of strings with a separator: empty list gives the empty
/// string, and entries after the first are preceded by the separator.
pub open spec fn spec_join(v: Seq<Seq<char>>, sep: Seq<char>) -> Seq<char>
    decreases v.len(),
{
    if v.len() == 0 {
        Seq::empty()
    } else if v.len() == 1 {
        v[0]
    } else {
        spec_join(v.drop_last(), sep) + sep + v.last()
    }
}

/// Joins the strings selected from `keys` by `order` with the separator.
pub open spec fn spec_join_keys(keys: Seq<String>, order: Seq<usize>, sep: Seq<char>) -> Seq<
    char,
> {
    spec_join(order.map_values(|i: usize| keys[i as int]@), sep)
}

/// Joins a list of strings with a separator.
pub fn join_strs(v: &Vec<String>, sep: &str) -> (r: String)
    ensures
        r@ == spec_join(v@.map_values(|s: String| s@), sep@),
{
    let ghost vs = v@.map_values(|s: String| s@);
    let n = v.len();
    let mut r = String::new();
    let mut i: usize = 0;
    while i < n
        invariant
            i <= n,
            n == v@.len(),
            vs == v@.map_values(|s: String| s@),
            r@ == spec_join(vs.take(i as int), sep@),
        decreases n - i,
    {
        if i > 0 {
            r.append(sep);
        }
        r.append(v[i].as_str());
        proof {
            let t1 = vs.take(i as int);
            let t2 = vs.take(i + 1);
            assert(t2.drop_last() =~= t1);
            assert(t2.last() == vs[i as int]);
            if i == 0 {
                assert(t2.len() == 1);
                assert(spec_join(t2, sep@) == vs[0]);
                assert(r@ =~= spec_join(t2, sep@));
            } else {
                assert(spec_join(t2, sep@) == spec_join(t1, sep@) + sep@ + vs[i as int]);
            }
        }
        i += 1;
    }
    proof {
        assert(vs.take(n as int) =~= vs);
    }
    r
}

/// Joins the strings selected from `keys` by `order` with the separator.
pub fn join_keys(keys: &Vec<String>, order: &Vec<usize>, sep: &str) -> (r: String)
    requires
        forall|k: int| 0 <= k < order@.len() ==> #[trigger] order@[k] < keys@.len(),
    ensures
        r@ == spec_join_keys(keys@, order@, sep@),
{
    let n = order.len();
    let mut picked: Vec<String> = Vec::new();
    let mut i: usize = 0;
    while i < n
        invariant
            i <= n,
            n == order@.len(),
            forall|k: int| 0 <= k < n ==> #[trigger] order@[k] < keys@.len(),
            picked@.len() == i,
            forall|k: int| 0 <= k < i ==> picked@[k]@ == keys@[order@[k] as int]@,
        decreases n - i,
    {
        picked.push(keys[order[i]].clone());
        i += 1;
    }
    let r = join_strs(&picked, sep);
    proof {
        assert(picked@.map_values(|s: String| s@) =~= order@.map_values(
            |i: usize| keys@[i as int]@,
        ));
    }
    r
}

/// Joins the tokens after position `from` with single spaces.
pub fn join_tokens_after(toks: &Vec<Vec<char>>, from: usize) -> (r: String)
    requires
        from <= toks@.len(),
    ensures
        r@ == spec_join(crate::text::views_of(toks@).skip(from as int), " "@),
{
    let ghost sub = crate::text::views_of(toks@).skip(from as int);
    let n = toks.len();
    let mut r = String::new();
    let mut k: usize = from;
    while k < n
        invariant
            from <= k <= n,
            n == toks@.len(),
            sub == crate::text::views_of(toks@).skip(from as int),
            r@ == spec_join(sub.take(k - from), " "@),
        decreases n - k,
    {
        if k > from {
            r.append(" ");
        }
        let t = crate::text::token_to_string(&toks[k]);
        r.append(t.as_str());
        proof {
            let t1 = sub.take(k - from);
            let t2 = sub.take(k + 1 - from);
            assert(t2.drop_last() =~= t1);
            assert(t2.last() == sub[k - from]);
            assert(sub[k - from] == crate::text::views_of(toks@)[k as int]);
            if k == from {
                assert(t2.len() == 1);
                assert(r@ =~= spec_join(t2, " "@));
            } else {
                assert(spec_join(t2, " "@) == spec_join(t1, " "@) + " "@ + sub[k - from]);
            }
        }
        k += 1;
    }
    proof {
        assert(sub.take(n - from) =~= sub);
    }
    r
}

/// Sorted insertion of a string into a sorted list, removing nothing.
pub fn insert_sorted_str(v: &mut Vec<String>, s: &str)
    requires
        forall|k: int, l: int|
            0 <= k < l < old(v)@.len() ==> str_le(#[trigger] old(v)@[k]@, #[trigger] old(v)@[l]@),
    ensures
        final(v)@.len() == old(v)@.len() + 1,
        forall|k: int, l: int|
            0 <= k < l < final(v)@.len() ==> str_le(
                #[trigger] final(v)@[k]@,
                #[trigger] final(v)@[l]@,
            ),
        forall|x: Seq<char>|
            #[trigger] seq_contains_str(final(v)@, x) == (seq_contains_str(old(v)@, x) || x == s@),
{
    let n = v.len();
    let mut p: usize = 0;
    while p < n && str_le_exec(v[p].as_str(), s)
        invariant
            p <= n,
            n == v@.len(),
            v@ == old(v)@,
            forall|k: int| 0 <= k < p ==> str_le(v@[k]@, s@),
        decreases n - p,
    {
        p += 1;
    }
    proof {
        if p < n {
            lemma_str_le_total(v@[p as int]@, s@);
        }
    }
    v.insert(p, String::from_str(s));
    proof {
        let newv = v@;
        let oldv = old(v)@;
        assert forall|k: int, l: int|
            0 <= k < l < newv.len() implies str_le(#[trigger] newv[k]@, #[trigger] newv[l]@) by {
            if k < p && l == p {
            } else if k == p && l > p {
                if p < n {
                    if l > p + 1 {
                        lemma_str_le_trans(s@, oldv[p as int]@, newv[l]@);
                    }
                }
            }
        }
        assert forall|x: Seq<char>|
            #[trigger] seq_contains_str(newv, x) == (seq_contains_str(oldv, x) || x == s@) by {
            if seq_contains_str(newv, x) {
                let k = choose|k: int| 0 <= k < newv.len() && newv[k]@ == x;
                if k < p {
                    assert(oldv[k]@ == x);
                } else if k > p {
                    assert(oldv[k - 1]@ == x);
                }
            }
            if seq_contains_str(oldv, x) {
                let k = choose|k: int| 0 <= k < oldv.len() && oldv[k]@ == x;
                if k < p {
                    assert(newv[k]@ == x);
                } else {
                    assert(newv[k + 1]@ == x);
                }
            }
            if x == s@ {
                assert(newv[p as int]@ == x);
            }
        }
    }
}

/// Whether a sorted string list already holds the given string.
pub fn sorted_contains(v: &Vec<String>, s: &str) -> (r: bool)
    ensures
        r == seq_contains_str(v@, s@),
{
    let n = v.len();
    let mut i: usize = 0;
    while i < n
        invariant
            i <= n,
            n == v@.len(),
            forall|k: int| 0 <= k < i ==> v@[k]@ != s@,
        decreases n - i,
    {
        if str_eq(v[i].as_str(), s) {
            assert(v@[i as int]@ == s@);
            return true;
        }
        i += 1;
    }
    false
}

} // verus!
