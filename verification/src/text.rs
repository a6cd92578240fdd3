//! Small facts and copies of strings and string lists.
use vstd::prelude::*;
use crate::paths::string_views;

verus! {

/// A copy of a list of strings.
pub fn copy_strings(v: &Vec<String>) -> (r: Vec<String>)
    ensures
        r@ == v@,
{
    let mut r: Vec<String> = Vec::new();
    let mut i: usize = 0;
    while i < v.len()
        invariant
            i <= v@.len(),
            r@ == v@.take(i as int),
        decreases v@.len() - i,
    {
        r.push(v[i].clone());
        proof {
            assert(v@.take(i + 1) =~= v@.take(i as int).push(v@[i as int]));
        }
        i = i + 1;
    }
    proof {
        assert(v@.take(v@.len() as int) =~= v@);
    }
    r
}

/// The views of an optional list of strings.
pub open spec fn optional_views(o: Option<Vec<String>>) -> Option<Seq<Seq<char>>> {
    match o {
        Some(v) => Some(string_views(v@)),
        None => None,
    }
}

/// A copy of an optional list of strings.
pub fn copy_optional_strings(v: &Option<Vec<String>>) -> (r: Option<Vec<String>>)
    ensures
        optional_views(r) == optional_views(*v),
{
    match v {
        Some(list) => Some(copy_strings(list)),
        None => None,
    }
}

} // verus!

verus! {

/// Whether two strings hold the same characters.
pub fn str_equal(a: &str, b: &str) -> (r: bool)
    ensures
        r == (a@ == b@),
{
    let n = a.unicode_len();
    if n != b.unicode_len() {
        return false;
    }
    let mut i: usize = 0;
    while i < n
        invariant
            n == a@.len() == b@.len(),
            i <= n,
            forall|j: int| 0 <= j < i ==> a@[j] == b@[j],
        decreases n - i,
    {
        if a.get_char(i) != b.get_char(i) {
            return false;
        }
        i = i + 1;
    }
    proof {
        assert(a@ =~= b@);
    }
    true
}

} // verus!

verus! {

/// Lexicographic order of texts by character code: a prefix comes first.
pub open spec fn text_le(a: Seq<char>, b: Seq<char>) -> bool
    decreases a.len(),
{
    if a.len() == 0 {
        true
    } else if b.len() == 0 {
        false
    } else if a[0] != b[0] {
        (a[0] as int) < (b[0] as int)
    } else {
        text_le(a.drop_first(), b.drop_first())
    }
}

/// `text_le` as a relation.
pub open spec fn text_order() -> spec_fn(Seq<char>, Seq<char>) -> bool {
    |a: Seq<char>, b: Seq<char>| text_le(a, b)
}

pub proof fn lemma_text_le_reflexive(a: Seq<char>)
    ensures
        text_le(a, a),
    decreases a.len(),
{
    if a.len() > 0 {
        lemma_text_le_reflexive(a.drop_first());
    }
}

pub proof fn lemma_text_le_total(a: Seq<char>, b: Seq<char>)
    ensures
        text_le(a, b) || text_le(b, a),
    decreases a.len(),
{
    if a.len() > 0 && b.len() > 0 && a[0] == b[0] {
        lemma_text_le_total(a.drop_first(), b.drop_first());
    }
}

pub proof fn lemma_text_le_antisymmetric(a: Seq<char>, b: Seq<char>)
    requires
        text_le(a, b),
        text_le(b, a),
    ensures
        a == b,
    decreases a.len(),
{
    if a.len() > 0 {
        lemma_text_le_antisymmetric(a.drop_first(), b.drop_first());
        assert(a =~= seq![a[0]] + a.drop_first());
        assert(b =~= seq![b[0]] + b.drop_first());
    }
}

pub proof fn lemma_text_le_transitive(a: Seq<char>, b: Seq<char>, c: Seq<char>)
    requires
        text_le(a, b),
        text_le(b, c),
    ensures
        text_le(a, c),
    decreases a.len(),
{
    if a.len() > 0 && b.len() > 0 && c.len() > 0 && a[0] == b[0] && b[0] == c[0] {
        lemma_text_le_transitive(a.drop_first(), b.drop_first(), c.drop_first());
    }
}

/// The order of texts is a total order.
pub proof fn lemma_text_order_total()
    ensures
        vstd::relations::total_ordering(text_order()),
{
    assert forall|x: Seq<char>| #[trigger] (text_order())(x, x) by {
        lemma_text_le_reflexive(x);
    }
    assert forall|x: Seq<char>, y: Seq<char>| #[trigger] (text_order())(x, y) && #[trigger] (text_order())(y, x) implies x == y by {
        lemma_text_le_antisymmetric(x, y);
    }
    assert forall|x: Seq<char>, y: Seq<char>, z: Seq<char>| #[trigger] (text_order())(x, y) && #[trigger] (text_order())(y, z) implies (text_order())(x, z) by {
        lemma_text_le_transitive(x, y, z);
    }
    assert forall|x: Seq<char>, y: Seq<char>| #[trigger] (text_order())(x, y) || #[trigger] (text_order())(y, x) by {
        lemma_text_le_total(x, y);
    }
}

/// Whether `a` comes before or with `b` in the order of texts.
pub fn text_not_after(a: &str, b: &str) -> (r: bool)
    ensures
        r == text_le(a@, b@),
{
    let n = a.unicode_len();
    let m = b.unicode_len();
    let mut i: usize = 0;
    proof {
        assert(a@.skip(0) =~= a@);
        assert(b@.skip(0) =~= b@);
    }
    while i < n && i < m
        invariant
            n == a@.len(),
            m == b@.len(),
            i <= n,
            i <= m,
            text_le(a@, b@) == text_le(a@.skip(i as int), b@.skip(i as int)),
        decreases n - i,
    {
        let x = a.get_char(i);
        let y = b.get_char(i);
        if x != y {
            return (x as u32) < (y as u32);
        }
        proof {
            assert(a@.skip(i as int).drop_first() =~= a@.skip(i + 1));
            assert(b@.skip(i as int).drop_first() =~= b@.skip(i + 1));
        }
        i = i + 1;
    }
    i == n
}

/// The texts in order: `ids` sorted by `text_le`, equal texts kept in the order given.
pub fn sort_texts(ids: &Vec<String>) -> (r: Vec<String>)
    ensures
        string_views(r@) == string_views(ids@).sort_by(text_order()),
{
    let ghost order = text_order();
    let mut out: Vec<String> = Vec::new();
    let mut i: usize = 0;
    proof {
        lemma_text_order_total();
        assert(string_views(ids@.take(0)) =~= string_views(out@));
    }
    while i < ids.len()
        invariant
            i <= ids@.len(),
            order == text_order(),
            vstd::relations::total_ordering(order),
            vstd::relations::sorted_by(string_views(out@), order),
            string_views(out@).to_multiset() == string_views(ids@.take(i as int)).to_multiset(),
        decreases ids@.len() - i,
    {
        let x = ids[i].clone();
        let mut p: usize = 0;
        while p < out.len() && text_not_after(out[p].as_str(), x.as_str())
            invariant
                p <= out@.len(),
                forall|j: int| 0 <= j < p ==> text_le(#[trigger] out@[j]@, x@),
            decreases out@.len() - p,
        {
            p = p + 1;
        }
        let ghost before = string_views(out@);
        out.insert(p, x);
        proof {
            assert(string_views(out@) =~= before.insert(p as int, x@));
            vstd::seq_lib::to_multiset_insert(before, p as int, x@);
            let tk = string_views(ids@.take(i as int));
            assert(string_views(ids@.take(i + 1)) =~= tk.push(x@));
            vstd::seq_lib::to_multiset_build(tk, x@);
            let s = string_views(out@);
            assert forall|a: int, b: int| 0 <= a < b < s.len() implies #[trigger] order(s[a], s[b]) by {
                if b < p {
                    assert(s[a] == before[a] && s[b] == before[b]);
                } else if b == p {
                    assert(s[a] == before[a]);
                    assert(text_le(out@[a]@, x@));
                } else if a == p {
                    assert(s[b] == before[b - 1]);
                    assert(!text_le(before[p as int], x@));
                    lemma_text_le_total(before[p as int], x@);
                    if b - 1 > p {
                        assert(order(before[p as int], before[b - 1]));
                        lemma_text_le_transitive(x@, before[p as int], before[b - 1]);
                    }
                } else if a < p {
                    assert(s[a] == before[a] && s[b] == before[b - 1]);
                } else {
                    assert(s[a] == before[a - 1] && s[b] == before[b - 1]);
                }
            }
        }
        i = i + 1;
    }
    proof {
        assert(ids@.take(ids@.len() as int) =~= ids@);
        string_views(ids@).lemma_sort_by_ensures(order);
        vstd::seq_lib::lemma_sorted_unique(string_views(out@), string_views(ids@).sort_by(order), order);
    }
    out
}

} // verus!
