//! Lexicographic order on character sequences, and a sort by it.

use vstd::prelude::*;
use vstd::multiset::Multiset;
use vstd::relations::*;
use crate::text::string_of;

verus! {

broadcast use {vstd::seq_lib::group_to_multiset_ensures, vstd::multiset::group_multiset_axioms};

/// `a` comes no later than `b` in code-point lexicographic order, the order of
/// std's `Ord` for `str` and `String` (UTF-8 preserves code-point order).
pub open spec fn lex_le(a: Seq<char>, b: Seq<char>) -> bool
    decreases a.len(),
{
    if a.len() == 0 {
        true
    } else if b.len() == 0 {
        false
    } else if a[0] != b[0] {
        (a[0] as u32) < (b[0] as u32)
    } else {
        lex_le(a.drop_first(), b.drop_first())
    }
}

/// `lex_le` as a relation value.
pub open spec fn lex_order() -> spec_fn(Seq<char>, Seq<char>) -> bool {
    |a: Seq<char>, b: Seq<char>| lex_le(a, b)
}

proof fn lemma_lex_reflexive(a: Seq<char>)
    ensures
        lex_le(a, a),
    decreases a.len(),
{
    if a.len() > 0 {
        lemma_lex_reflexive(a.drop_first());
    }
}

proof fn lemma_lex_antisymmetric(a: Seq<char>, b: Seq<char>)
    requires
        lex_le(a, b),
        lex_le(b, a),
    ensures
        a == b,
    decreases a.len(),
{
    if a.len() == 0 {
        assert(b.len() == 0);
        assert(a =~= b);
    } else {
        assert(b.len() > 0);
        if a[0] == b[0] {
            lemma_lex_antisymmetric(a.drop_first(), b.drop_first());
            assert(a =~= seq![a[0]] + a.drop_first());
            assert(b =~= seq![b[0]] + b.drop_first());
        }
    }
}

proof fn lemma_lex_transitive(a: Seq<char>, b: Seq<char>, c: Seq<char>)
    requires
        lex_le(a, b),
        lex_le(b, c),
    ensures
        lex_le(a, c),
    decreases a.len(),
{
    if a.len() > 0 {
        assert(b.len() > 0);
        assert(c.len() > 0);
        if a[0] == b[0] && b[0] == c[0] {
            lemma_lex_transitive(a.drop_first(), b.drop_first(), c.drop_first());
        }
    }
}

proof fn lemma_lex_total(a: Seq<char>, b: Seq<char>)
    ensures
        lex_le(a, b) || lex_le(b, a),
    decreases a.len(),
{
    if a.len() > 0 && b.len() > 0 {
        if a[0] == b[0] {
            lemma_lex_total(a.drop_first(), b.drop_first());
        } else {
            vstd::utf8::char_u32_cast(a[0], a[0] as u32);
            vstd::utf8::char_u32_cast(b[0], b[0] as u32);
        }
    }
}

/// `lex_le` is a total order.
pub proof fn lemma_lex_total_ordering()
    ensures
        total_ordering(lex_order()),
{
    let r = lex_order();
    assert forall|x: Seq<char>| #[trigger] r(x, x) by {
        lemma_lex_reflexive(x);
    }
    assert forall|x: Seq<char>, y: Seq<char>| #[trigger] r(x, y) && #[trigger] r(y, x) implies x
        == y by {
        lemma_lex_antisymmetric(x, y);
    }
    assert forall|x: Seq<char>, y: Seq<char>, z: Seq<char>|
        #[trigger] r(x, y) && #[trigger] r(y, z) implies r(x, z) by {
        lemma_lex_transitive(x, y, z);
    }
    assert forall|x: Seq<char>, y: Seq<char>| #[trigger] r(x, y) || #[trigger] r(y, x) by {
        lemma_lex_total(x, y);
    }
}

/// Whether `a` comes no later than `b` in lexicographic order.
pub fn lex_le_exec(a: &Vec<char>, b: &Vec<char>) -> (r: bool)
    ensures
        r == lex_le(a@, b@),
{
    let mut i: usize = 0;
    assert(a@.skip(0) == a@);
    assert(b@.skip(0) == b@);
    while i < a.len() && i < b.len() && a[i] == b[i]
        invariant
            i <= a.len(),
            i <= b.len(),
            lex_le(a@, b@) == lex_le(a@.skip(i as int), b@.skip(i as int)),
        decreases a.len() - i,
    {
        assert(a@.skip(i as int).drop_first() == a@.skip(i + 1));
        assert(b@.skip(i as int).drop_first() == b@.skip(i + 1));
        i = i + 1;
    }
    if i == a.len() {
        true
    } else if i == b.len() {
        false
    } else {
        (a[i] as u32) < (b[i] as u32)
    }
}

/// The character sequences held by `v`.
pub open spec fn char_views(v: Seq<Vec<char>>) -> Seq<Seq<char>> {
    v.map_values(|x: Vec<char>| x@)
}

/// The character sequences held by `v`.
pub open spec fn string_views(v: Seq<String>) -> Seq<Seq<char>> {
    v.map_values(|x: String| x@)
}

/// Sorts `v` in lexicographic order; the result is `v`'s own sorted form.
pub fn sort_lex(v: Vec<Vec<char>>) -> (r: Vec<Vec<char>>)
    ensures
        char_views(r@) == char_views(v@).sort_by(lex_order()),
{
    let ghost orig = char_views(v@);
    proof {
        lemma_lex_total_ordering();
    }
    let mut rest = v;
    let mut out: Vec<Vec<char>> = Vec::new();
    assert(char_views(out@) =~= Seq::<Seq<char>>::empty());
    while rest.len() > 0
        invariant
            total_ordering(lex_order()),
            sorted_by(char_views(out@), lex_order()),
            char_views(out@).to_multiset().add(char_views(rest@).to_multiset())
                == orig.to_multiset(),
        decreases rest.len(),
    {
        let ghost rest0 = rest@;
        let ghost out0 = char_views(out@);
        let x = rest.pop().unwrap();
        assert(char_views(rest0) =~= char_views(rest@).push(x@));
        let mut k: usize = 0;
        while k < out.len() && lex_le_exec(&out[k], &x)
            invariant
                k <= out.len(),
                char_views(out@) == out0,
                forall|i: int| 0 <= i < k ==> lex_le(#[trigger] out0[i], x@),
            decreases out.len() - k,
        {
            k = k + 1;
        }
        proof {
            if k < out.len() {
                lemma_lex_total(out0[k as int], x@);
            }
        }
        out.insert(k, x);
        let ghost placed = char_views(out@);
        assert(placed =~= out0.insert(k as int, x@));
        assert(sorted_by(placed, lex_order())) by {
            assert forall|i: int, j: int| 0 <= i < j < placed.len() implies #[trigger] lex_le(
                placed[i],
                placed[j],
            ) by {
                if j < k {
                    assert(placed[i] == out0[i] && placed[j] == out0[j]);
                    assert(lex_order()(out0[i], out0[j]));
                } else if j == k {
                    assert(placed[i] == out0[i]);
                } else if i == k {
                    assert(placed[j] == out0[j - 1]);
                    if j - 1 > k {
                        assert(lex_order()(out0[k as int], out0[j - 1]));
                        lemma_lex_transitive(x@, out0[k as int], out0[j - 1]);
                    }
                } else if i < k {
                    assert(placed[i] == out0[i] && placed[j] == out0[j - 1]);
                    assert(lex_order()(out0[i], out0[j - 1]));
                } else {
                    assert(placed[i] == out0[i - 1] && placed[j] == out0[j - 1]);
                    assert(lex_order()(out0[i - 1], out0[j - 1]));
                }
            }
        }
        assert(placed.to_multiset() == out0.to_multiset().insert(x@));
        assert(char_views(rest0).to_multiset() == char_views(rest@).to_multiset().insert(x@));
        assert(placed.to_multiset().add(char_views(rest@).to_multiset()) =~= out0.to_multiset().add(
            char_views(rest0).to_multiset(),
        ));
    }
    assert(char_views(rest@) =~= Seq::<Seq<char>>::empty());
    assert(char_views(rest@).to_multiset() =~= Multiset::<Seq<char>>::empty());
    assert(char_views(out@).to_multiset() =~= orig.to_multiset());
    proof {
        orig.lemma_sort_by_ensures(lex_order());
        vstd::seq_lib::lemma_sorted_unique(char_views(out@), orig.sort_by(lex_order()), lex_order());
    }
    out
}

/// Builds `String`s from character vectors, in order.
pub fn strings_of(v: &Vec<Vec<char>>) -> (r: Vec<String>)
    ensures
        string_views(r@) == char_views(v@),
{
    let mut r: Vec<String> = Vec::new();
    for i in 0..v.len()
        invariant
            string_views(r@) == char_views(v@).take(i as int),
    {
        let s = string_of(&v[i]);
        let ghost r0 = r@;
        r.push(s);
        assert(string_views(r@) =~= string_views(r0).push(v@[i as int]@));
        assert(string_views(r@) =~= char_views(v@).take(i + 1));
    }
    assert(char_views(v@).take(v.len() as int) =~= char_views(v@));
    r
}

} // verus!
