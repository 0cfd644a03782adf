//! Verified text comparison.
//!
//! Equality and lexicographic order over the character sequences of `&str`
//! values, with the order's totality and transitivity proved. The order
//! compares characters by their scalar values, which for UTF-8 encoded text
//! agrees with byte-wise lexicographic order.

use vstd::prelude::*;

verus! {

/// Lexicographic order over character sequences: `a` sorts strictly before
/// `b`.
pub open spec fn chars_lt(a: Seq<char>, b: Seq<char>) -> bool
    decreases a.len(),
{
    if b.len() == 0 {
        false
    } else if a.len() == 0 {
        true
    } else if a[0] == b[0] {
        chars_lt(a.drop_first(), b.drop_first())
    } else {
        a[0] < b[0]
    }
}

/// Returns whether `a` and `b` hold the same characters.
pub fn str_eq(a: &str, b: &str) -> (r: bool)
    ensures
        r == (a@ == b@),
{
    let a_len = a.unicode_len();
    let b_len = b.unicode_len();
    if a_len != b_len {
        return false;
    }
    let mut i: usize = 0;
    while i < a_len
        invariant
            0 <= i <= a_len,
            a_len == a@.len(),
            a_len == b@.len(),
            forall|j: int| 0 <= j < i ==> a@[j] == b@[j],
        decreases a_len - i,
    {
        if a.get_char(i) != b.get_char(i) {
            return false;
        }
        i = i + 1;
    }
    proof {
        assert(a@ =~= b@);
    }
    true
}

/// Dropping an equal prefix does not change how two sequences compare.
proof fn lemma_chars_lt_skip(a: Seq<char>, b: Seq<char>, i: int)
    requires
        0 <= i <= a.len(),
        i <= b.len(),
        forall|j: int| 0 <= j < i ==> a[j] == b[j],
    ensures
        chars_lt(a, b) == chars_lt(a.skip(i), b.skip(i)),
    decreases i,
{
    if i > 0 {
        assert(a.len() > 0 && b.len() > 0 && a[0] == b[0]);
        lemma_chars_lt_skip(a.drop_first(), b.drop_first(), i - 1);
        assert(a.drop_first().skip(i - 1) =~= a.skip(i));
        assert(b.drop_first().skip(i - 1) =~= b.skip(i));
    } else {
        assert(a.skip(0) =~= a);
        assert(b.skip(0) =~= b);
    }
}

/// Returns whether `a` sorts strictly before `b` in lexicographic order.
pub fn str_lt(a: &str, b: &str) -> (r: bool)
    ensures
        r == chars_lt(a@, b@),
{
    let a_len = a.unicode_len();
    let b_len = b.unicode_len();
    let common = if a_len < b_len {
        a_len
    } else {
        b_len
    };
    let mut i: usize = 0;
    while i < common
        invariant
            0 <= i <= common,
            common <= a@.len(),
            common <= b@.len(),
            a_len == a@.len(),
            b_len == b@.len(),
            common == if a_len < b_len {
                a_len
            } else {
                b_len
            },
            forall|j: int| 0 <= j < i ==> a@[j] == b@[j],
        decreases common - i,
    {
        let ca = a.get_char(i);
        let cb = b.get_char(i);
        if ca != cb {
            proof {
                lemma_chars_lt_skip(a@, b@, i as int);
            }
            return ca < cb;
        }
        i = i + 1;
    }
    proof {
        lemma_chars_lt_skip(a@, b@, common as int);
    }
    a_len < b_len
}

/// The order is irreflexive, asymmetric and connected: of two distinct
/// sequences exactly one sorts before the other.
pub proof fn lemma_chars_lt_total(a: Seq<char>, b: Seq<char>)
    ensures
        a == b ==> !chars_lt(a, b),
        !(chars_lt(a, b) && chars_lt(b, a)),
        !chars_lt(a, b) && !chars_lt(b, a) ==> a == b,
    decreases a.len(),
{
    if a.len() > 0 && b.len() > 0 && a[0] == b[0] {
        lemma_chars_lt_total(a.drop_first(), b.drop_first());
        if a.drop_first() == b.drop_first() {
            assert forall|i: int| 0 <= i < a.len() implies a[i] == b[i] by {
                if i > 0 {
                    assert(a.drop_first()[i - 1] == b.drop_first()[i - 1]);
                }
            }
            assert(a =~= b);
        }
        if a == b {
            assert(a.drop_first() =~= b.drop_first());
        }
    }
}

/// The order is transitive.
pub proof fn lemma_chars_lt_trans(a: Seq<char>, b: Seq<char>, c: Seq<char>)
    requires
        chars_lt(a, b),
        chars_lt(b, c),
    ensures
        chars_lt(a, c),
    decreases a.len(),
{
    if a.len() > 0 {
        if a[0] == b[0] && b[0] == c[0] {
            lemma_chars_lt_trans(a.drop_first(), b.drop_first(), c.drop_first());
        }
    }
}

/// A list of texts in strictly ascending lexicographic order; such a list
/// holds no duplicates.
pub open spec fn strictly_sorted(v: Seq<Seq<char>>) -> bool {
    forall|i: int, j: int| 0 <= i < j < v.len() ==> chars_lt(#[trigger] v[i], #[trigger] v[j])
}

/// `v` with `s` placed at its ordered position; `v` is unchanged when it
/// already holds `s`.
pub open spec fn sorted_insert(v: Seq<Seq<char>>, s: Seq<char>) -> Seq<Seq<char>>
    decreases v.len(),
{
    if v.len() == 0 {
        seq![s]
    } else if s == v[0] {
        v
    } else if chars_lt(s, v[0]) {
        seq![s] + v
    } else {
        seq![v[0]] + sorted_insert(v.drop_first(), s)
    }
}

/// Every element of `v` inserted into `acc` in order.
pub open spec fn insert_all(acc: Seq<Seq<char>>, v: Seq<Seq<char>>) -> Seq<Seq<char>>
    decreases v.len(),
{
    if v.len() == 0 {
        acc
    } else {
        insert_all(sorted_insert(acc, v[0]), v.drop_first())
    }
}

/// The sorted, duplicate-free union of two lists of texts: the unique
/// strictly ascending list holding exactly the texts of both.
pub open spec fn union_sorted(a: Seq<Seq<char>>, b: Seq<Seq<char>>) -> Seq<Seq<char>> {
    insert_all(insert_all(Seq::empty(), a), b)
}

/// Inserting keeps the list strictly sorted and makes its contents the old
/// contents plus `s`.
pub proof fn lemma_sorted_insert(v: Seq<Seq<char>>, s: Seq<char>)
    requires
        strictly_sorted(v),
    ensures
        strictly_sorted(sorted_insert(v, s)),
        forall|t: Seq<char>| #[trigger]
            sorted_insert(v, s).contains(t) <==> (v.contains(t) || t == s),
    decreases v.len(),
{
    let r = sorted_insert(v, s);
    if v.len() == 0 {
        assert(r == seq![s]);
        assert(r[0] == s);
        assert forall|t: Seq<char>| #[trigger] r.contains(t) implies (v.contains(t) || t == s) by {
            let i = choose|i: int| 0 <= i < r.len() && r[i] == t;
            assert(i == 0);
        }
    } else if s == v[0] {
    } else if chars_lt(s, v[0]) {
        assert(r == seq![s] + v);
        assert forall|i: int, j: int| 0 <= i < j < r.len() implies chars_lt(r[i], r[j]) by {
            if i == 0 {
                if j == 1 {
                    assert(r[j] == v[0]);
                } else {
                    assert(r[j] == v[j - 1]);
                    assert(chars_lt(v[0], v[j - 1]));
                    lemma_chars_lt_trans(s, v[0], v[j - 1]);
                }
            } else {
                assert(r[i] == v[i - 1] && r[j] == v[j - 1]);
            }
        }
        assert forall|t: Seq<char>| #[trigger] r.contains(t) implies (v.contains(t) || t == s) by {
            let i = choose|i: int| 0 <= i < r.len() && r[i] == t;
            if i > 0 {
                assert(v[i - 1] == t);
            }
        }
        assert forall|t: Seq<char>| v.contains(t) || t == s implies #[trigger] r.contains(t) by {
            if v.contains(t) {
                let i = choose|i: int| 0 <= i < v.len() && v[i] == t;
                assert(r[i + 1] == t);
            } else {
                assert(r[0] == t);
            }
        }
    } else {
        let tail = v.drop_first();
        assert(strictly_sorted(tail)) by {
            assert forall|i: int, j: int| 0 <= i < j < tail.len() implies chars_lt(
                tail[i],
                tail[j],
            ) by {
                assert(tail[i] == v[i + 1] && tail[j] == v[j + 1]);
            }
        }
        lemma_sorted_insert(tail, s);
        let rt = sorted_insert(tail, s);
        assert(r == seq![v[0]] + rt);
        lemma_chars_lt_total(s, v[0]);
        assert(chars_lt(v[0], s));
        assert forall|i: int, j: int| 0 <= i < j < r.len() implies chars_lt(r[i], r[j]) by {
            if i == 0 {
                assert(r[j] == rt[j - 1]);
                assert(rt.contains(rt[j - 1]));
                if rt[j - 1] == s {
                    assert(chars_lt(v[0], s));
                } else {
                    assert(tail.contains(rt[j - 1]));
                    let k = choose|k: int| 0 <= k < tail.len() && tail[k] == rt[j - 1];
                    assert(tail[k] == v[k + 1]);
                    assert(chars_lt(v[0], v[k + 1]));
                }
            } else {
                assert(r[i] == rt[i - 1] && r[j] == rt[j - 1]);
            }
        }
        assert forall|t: Seq<char>| #[trigger] r.contains(t) implies (v.contains(t) || t == s) by {
            let i = choose|i: int| 0 <= i < r.len() && r[i] == t;
            if i == 0 {
                assert(v[0] == t);
            } else {
                assert(rt[i - 1] == t);
                assert(rt.contains(t));
                if tail.contains(t) {
                    let k = choose|k: int| 0 <= k < tail.len() && tail[k] == t;
                    assert(v[k + 1] == t);
                }
            }
        }
        assert forall|t: Seq<char>| v.contains(t) || t == s implies #[trigger] r.contains(t) by {
            if v.contains(t) {
                let i = choose|i: int| 0 <= i < v.len() && v[i] == t;
                if i == 0 {
                    assert(r[0] == t);
                } else {
                    assert(tail[i - 1] == t);
                    assert(tail.contains(t));
                    assert(rt.contains(t));
                    let k = choose|k: int| 0 <= k < rt.len() && rt[k] == t;
                    assert(r[k + 1] == t);
                }
            } else {
                assert(rt.contains(s));
                let k = choose|k: int| 0 <= k < rt.len() && rt[k] == s;
                assert(r[k + 1] == s);
            }
        }
    }
}

/// Inserting all of `v` keeps the accumulator strictly sorted and adds
/// exactly the contents of `v`.
pub proof fn lemma_insert_all(acc: Seq<Seq<char>>, v: Seq<Seq<char>>)
    requires
        strictly_sorted(acc),
    ensures
        strictly_sorted(insert_all(acc, v)),
        forall|t: Seq<char>| #[trigger]
            insert_all(acc, v).contains(t) <==> (acc.contains(t) || v.contains(t)),
    decreases v.len(),
{
    if v.len() > 0 {
        lemma_sorted_insert(acc, v[0]);
        lemma_insert_all(sorted_insert(acc, v[0]), v.drop_first());
        let r = insert_all(acc, v);
        assert forall|t: Seq<char>| #[trigger] r.contains(t) implies (acc.contains(t)
            || v.contains(t)) by {
            if !acc.contains(t) {
                if t == v[0] {
                    assert(v.contains(t));
                } else {
                    assert(v.drop_first().contains(t));
                    let k = choose|k: int| 0 <= k < v.drop_first().len() && v.drop_first()[k] == t;
                    assert(v[k + 1] == t);
                }
            }
        }
        assert forall|t: Seq<char>| acc.contains(t) || v.contains(t) implies #[trigger] r.contains(
            t,
        ) by {
            if v.contains(t) && t != v[0] {
                let k = choose|k: int| 0 <= k < v.len() && v[k] == t;
                assert(k > 0);
                assert(v.drop_first()[k - 1] == t);
                assert(v.drop_first().contains(t));
            }
        }
    }
}

/// The union of two lists of texts is strictly sorted and holds exactly
/// the texts of both.
pub proof fn lemma_union_sorted(a: Seq<Seq<char>>, b: Seq<Seq<char>>)
    ensures
        strictly_sorted(union_sorted(a, b)),
        forall|t: Seq<char>| #[trigger]
            union_sorted(a, b).contains(t) <==> (a.contains(t) || b.contains(t)),
{
    lemma_insert_all(Seq::empty(), a);
    lemma_insert_all(insert_all(Seq::empty(), a), b);
    assert(forall|t: Seq<char>| !Seq::<Seq<char>>::empty().contains(t));
}

/// Inserting a text that a sorted list already holds leaves it unchanged.
proof fn lemma_sorted_insert_present(v: Seq<Seq<char>>, s: Seq<char>)
    requires
        strictly_sorted(v),
        v.contains(s),
    ensures
        sorted_insert(v, s) == v,
    decreases v.len(),
{
    lemma_chars_lt_total(s, v[0]);
    if s != v[0] {
        let i = choose|i: int| 0 <= i < v.len() && v[i] == s;
        assert(chars_lt(v[0], v[i]));
        let tail = v.drop_first();
        assert(strictly_sorted(tail)) by {
            assert forall|x: int, y: int| 0 <= x < y < tail.len() implies chars_lt(
                tail[x],
                tail[y],
            ) by {
                assert(tail[x] == v[x + 1] && tail[y] == v[y + 1]);
            }
        }
        assert(tail[i - 1] == s);
        assert(tail.contains(s));
        lemma_sorted_insert_present(tail, s);
        assert(sorted_insert(v, s) == seq![v[0]] + tail);
        assert(seq![v[0]] + tail =~= v);
    }
}

/// Inserting a text greater than everything in a sorted list appends it.
proof fn lemma_sorted_insert_append(v: Seq<Seq<char>>, s: Seq<char>)
    requires
        strictly_sorted(v),
        forall|i: int| 0 <= i < v.len() ==> chars_lt(#[trigger] v[i], s),
    ensures
        sorted_insert(v, s) == v.push(s),
    decreases v.len(),
{
    if v.len() == 0 {
        assert(sorted_insert(v, s) =~= v.push(s));
    } else {
        lemma_chars_lt_total(s, v[0]);
        let tail = v.drop_first();
        assert(strictly_sorted(tail)) by {
            assert forall|x: int, y: int| 0 <= x < y < tail.len() implies chars_lt(
                tail[x],
                tail[y],
            ) by {
                assert(tail[x] == v[x + 1] && tail[y] == v[y + 1]);
            }
        }
        assert(forall|i: int| 0 <= i < tail.len() ==> chars_lt(#[trigger] tail[i], s)) by {
            assert(forall|i: int| 0 <= i < tail.len() ==> tail[i] == v[i + 1]);
        }
        lemma_sorted_insert_append(tail, s);
        assert(sorted_insert(v, s) =~= v.push(s));
    }
}

/// Unioning a sorted, duplicate-free list with itself gives it back.
pub proof fn lemma_union_sorted_self(v: Seq<Seq<char>>)
    requires
        strictly_sorted(v),
    ensures
        union_sorted(v, v) == v,
{
    lemma_insert_all_of_sorted(v);
    lemma_insert_all_present(v, v);
}

/// Inserting the elements of an already sorted list into an empty
/// accumulator reproduces the list.
proof fn lemma_insert_all_of_sorted(v: Seq<Seq<char>>)
    requires
        strictly_sorted(v),
    ensures
        insert_all(Seq::empty(), v) == v,
{
    assert(Seq::<Seq<char>>::empty() =~= v.take(0));
    assert(v.skip(0) =~= v);
    lemma_insert_all_prefix(v, 0, v.take(0));
}

/// Helper: inserting the suffix of `v` from `i` into the accumulator
/// `v.take(i)` rebuilds `v`.
proof fn lemma_insert_all_prefix(v: Seq<Seq<char>>, i: int, acc: Seq<Seq<char>>)
    requires
        strictly_sorted(v),
        0 <= i <= v.len(),
        acc == v.take(i),
    ensures
        insert_all(acc, v.skip(i)) == v,
    decreases v.len() - i,
{
    assert(strictly_sorted(acc)) by {
        assert(forall|x: int| 0 <= x < i ==> acc[x] == v[x]);
    }
    if i == v.len() {
        assert(v.skip(i).len() == 0);
        assert(acc =~= v);
    } else {
        let s = v[i];
        assert(v.skip(i)[0] == s);
        assert(forall|x: int| 0 <= x < acc.len() ==> chars_lt(#[trigger] acc[x], s)) by {
            assert(forall|x: int| 0 <= x < i ==> acc[x] == v[x]);
        }
        lemma_sorted_insert_append(acc, s);
        assert(acc.push(s) =~= v.take(i + 1));
        assert(v.skip(i).drop_first() =~= v.skip(i + 1));
        lemma_insert_all_prefix(v, i + 1, v.take(i + 1));
    }
}

/// Inserting elements that a sorted accumulator already holds leaves it
/// unchanged.
proof fn lemma_insert_all_present(acc: Seq<Seq<char>>, v: Seq<Seq<char>>)
    requires
        strictly_sorted(acc),
        forall|i: int| 0 <= i < v.len() ==> acc.contains(#[trigger] v[i]),
    ensures
        insert_all(acc, v) == acc,
    decreases v.len(),
{
    if v.len() > 0 {
        assert(acc.contains(v[0]));
        lemma_sorted_insert_present(acc, v[0]);
        assert(forall|i: int| 0 <= i < v.drop_first().len() ==> v.drop_first()[i] == v[i + 1]);
        lemma_insert_all_present(acc, v.drop_first());
    }
}

/// Places `s` at its ordered position in `out`, leaving `out` unchanged
/// when it already holds the text.
fn insert_sorted_exec(out: &mut Vec<String>, s: &str)
    ensures
        final(out).deep_view() == sorted_insert(old(out).deep_view(), s@),
{
    let ghost orig = old(out).deep_view();
    let n = out.len();
    proof {
        assert(orig.skip(0) =~= orig);
        assert(orig.take(0) + sorted_insert(orig, s@) =~= sorted_insert(orig, s@));
    }
    let mut idx: usize = 0;
    while idx < n
        invariant
            0 <= idx <= n,
            n == out.len(),
            orig == old(out).deep_view(),
            orig.len() == n,
            out.deep_view() == orig,
            sorted_insert(orig, s@) == orig.take(idx as int) + sorted_insert(
                orig.skip(idx as int),
                s@,
            ),
            forall|j: int| 0 <= j < out@.len() ==> #[trigger] out@[j]@ == orig[j],
        decreases n - idx,
    {
        let ghost rest = orig.skip(idx as int);
        proof {
            assert(rest[0] == orig[idx as int]);
            assert(out@[idx as int]@ == orig[idx as int]);
        }
        if str_eq(out[idx].as_str(), s) {
            proof {
                assert(rest[0] == s@);
                assert(sorted_insert(rest, s@) == rest);
                assert(orig.take(idx as int) + rest =~= orig);
            }
            return ;
        } else if str_lt(s, out[idx].as_str()) {
            let ghost before = out@;
            out.insert(idx, s.to_owned());
            proof {
                assert(chars_lt(s@, rest[0]));
                lemma_chars_lt_total(s@, rest[0]);
                assert(sorted_insert(rest, s@) == seq![s@] + rest);
                assert(out@ == before.insert(idx as int, out@[idx as int]));
                assert(out.deep_view() =~= orig.take(idx as int) + (seq![s@] + rest)) by {
                    assert(out@.len() == orig.len() + 1);
                    assert(forall|j: int| 0 <= j < idx ==> out@[j] == before[j]);
                    assert(forall|j: int| 0 <= j < idx ==> #[trigger] out@[j]@ == orig[j]);
                    assert(out@[idx as int]@ == s@);
                    assert(forall|j: int| idx < j < out@.len() ==> out@[j] == before[j - 1]);
                    assert(forall|j: int| idx < j < out@.len() ==> #[trigger] out@[j]@ == orig[j
                        - 1]);
                }
            }
            return ;
        }
        proof {
            assert(sorted_insert(rest, s@) == seq![rest[0]] + sorted_insert(rest.drop_first(), s@));
            assert(rest.drop_first() =~= orig.skip(idx + 1));
            assert(orig.take(idx as int).push(orig[idx as int]) =~= orig.take(idx + 1));
            assert(orig.take(idx as int) + (seq![rest[0]] + sorted_insert(orig.skip(idx + 1), s@))
                =~= orig.take(idx + 1) + sorted_insert(orig.skip(idx + 1), s@));
        }
        idx = idx + 1;
    }
    proof {
        assert(orig.skip(n as int).len() == 0);
        assert(sorted_insert(orig.skip(n as int), s@) == seq![s@]);
    }
    let ghost before = out@;
    out.push(s.to_owned());
    proof {
        assert(out@ == before.push(out@[n as int]));
        assert(out.deep_view() =~= orig.take(n as int) + seq![s@]) by {
            assert(out@.len() == orig.len() + 1);
            assert(forall|j: int| 0 <= j < n ==> out@[j] == before[j]);
            assert(forall|j: int| 0 <= j < n ==> #[trigger] out@[j]@ == orig[j]);
            assert(out@[n as int]@ == s@);
        }
    }
}

/// Returns the sorted, duplicate-free union of two lists of texts.
pub fn union_text_lists(a: &Vec<String>, b: &Vec<String>) -> (r: Vec<String>)
    ensures
        r.deep_view() == union_sorted(a.deep_view(), b.deep_view()),
{
    let mut out: Vec<String> = Vec::new();
    proof {
        assert(out.deep_view() =~= Seq::<Seq<char>>::empty());
    }
    let mut i: usize = 0;
    while i < a.len()
        invariant
            0 <= i <= a.len(),
            out.deep_view() == insert_all(Seq::empty(), a.deep_view().take(i as int)),
        decreases a.len() - i,
    {
        proof {
            lemma_insert_all_step(Seq::empty(), a.deep_view(), i as int);
        }
        insert_sorted_exec(&mut out, a[i].as_str());
        proof {
            assert(a[i as int]@ == a.deep_view()[i as int]);
        }
        i = i + 1;
    }
    proof {
        assert(a.deep_view().take(a.len() as int) =~= a.deep_view());
    }
    let ghost mid = insert_all(Seq::empty(), a.deep_view());
    let mut j: usize = 0;
    while j < b.len()
        invariant
            0 <= j <= b.len(),
            mid == insert_all(Seq::empty(), a.deep_view()),
            out.deep_view() == insert_all(mid, b.deep_view().take(j as int)),
        decreases b.len() - j,
    {
        proof {
            lemma_insert_all_step(mid, b.deep_view(), j as int);
        }
        insert_sorted_exec(&mut out, b[j].as_str());
        proof {
            assert(b[j as int]@ == b.deep_view()[j as int]);
        }
        j = j + 1;
    }
    proof {
        assert(b.deep_view().take(b.len() as int) =~= b.deep_view());
    }
    out
}

/// Extending the inserted prefix by one element composes with one more
/// sorted insertion.
proof fn lemma_insert_all_step(acc: Seq<Seq<char>>, v: Seq<Seq<char>>, i: int)
    requires
        0 <= i < v.len(),
    ensures
        insert_all(acc, v.take(i + 1)) == sorted_insert(insert_all(acc, v.take(i)), v[i]),
    decreases i,
{
    if i == 0 {
        assert(v.take(1) =~= seq![v[0]]);
        assert(v.take(0) =~= Seq::<Seq<char>>::empty());
        assert(insert_all(acc, v.take(0)) == acc);
        assert(v.take(1)[0] == v[0]);
        assert(v.take(1).drop_first() =~= Seq::<Seq<char>>::empty());
        assert(insert_all(acc, v.take(1)) == insert_all(
            sorted_insert(acc, v[0]),
            v.take(1).drop_first(),
        ));
    } else {
        let w = v.drop_first();
        assert(v.take(i + 1)[0] == v[0]);
        assert(v.take(i)[0] == v[0]);
        assert(v.take(i + 1).drop_first() =~= w.take(i));
        assert(v.take(i).drop_first() =~= w.take(i - 1));
        assert(w[i - 1] == v[i]);
        lemma_insert_all_step(sorted_insert(acc, v[0]), w, i - 1);
        assert(insert_all(acc, v.take(i + 1)) == insert_all(sorted_insert(acc, v[0]), w.take(i)));
        assert(insert_all(acc, v.take(i)) == insert_all(sorted_insert(acc, v[0]), w.take(i - 1)));
    }
}

} // verus!
