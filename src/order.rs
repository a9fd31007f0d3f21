//! The order of names: character by character, by code point, a prefix
//! before any longer name; pairs of names by the first, then the second.
use vstd::prelude::*;

verus! {

/// `a` comes strictly before `b`.
pub open spec fn text_lt(a: Seq<char>, b: Seq<char>) -> bool
    decreases a.len(),
{
    if a.len() == 0 {
        b.len() > 0
    } else if b.len() == 0 {
        false
    } else if a[0] != b[0] {
        a[0] < b[0]
    } else {
        text_lt(a.drop_first(), b.drop_first())
    }
}

/// The pair `p` comes strictly before the pair `q`.
pub open spec fn pair_lt(p: (Seq<char>, Seq<char>), q: (Seq<char>, Seq<char>)) -> bool {
    text_lt(p.0, q.0) || (p.0 == q.0 && text_lt(p.1, q.1))
}

/// `s` is in ascending order.
pub open spec fn sorted_pairs(s: Seq<(Seq<char>, Seq<char>)>) -> bool {
    forall|i: int, j: int| 0 <= i < j < s.len() ==> !pair_lt(#[trigger] s[j], #[trigger] s[i])
}

/// No text comes before itself.
pub proof fn lemma_text_irreflexive(a: Seq<char>)
    ensures
        !text_lt(a, a),
    decreases a.len(),
{
    if a.len() > 0 {
        lemma_text_irreflexive(a.drop_first());
    }
}

/// Of two different texts, one comes before the other.
pub proof fn lemma_text_total(a: Seq<char>, b: Seq<char>)
    ensures
        a == b || text_lt(a, b) || text_lt(b, a),
    decreases a.len(),
{
    if a.len() > 0 && b.len() > 0 && a[0] == b[0] {
        lemma_text_total(a.drop_first(), b.drop_first());
        if a.drop_first() == b.drop_first() {
            assert(a =~= seq![a[0]] + a.drop_first());
            assert(b =~= seq![b[0]] + b.drop_first());
        }
    } else if a.len() == 0 && b.len() == 0 {
        assert(a =~= b);
    }
}

/// Two texts do not each come before the other.
pub proof fn lemma_text_asymmetric(a: Seq<char>, b: Seq<char>)
    ensures
        !(text_lt(a, b) && text_lt(b, a)),
    decreases a.len(),
{
    if a.len() > 0 && b.len() > 0 && a[0] == b[0] {
        lemma_text_asymmetric(a.drop_first(), b.drop_first());
    }
}

/// The order of texts is transitive.
pub proof fn lemma_text_transitive(a: Seq<char>, b: Seq<char>, c: Seq<char>)
    requires
        text_lt(a, b),
        text_lt(b, c),
    ensures
        text_lt(a, c),
    decreases a.len(),
{
    if a.len() > 0 && a[0] == b[0] && b[0] == c[0] {
        lemma_text_transitive(a.drop_first(), b.drop_first(), c.drop_first());
    }
}

/// The order of pairs is a strict total order.
pub proof fn lemma_pair_order(p: (Seq<char>, Seq<char>), q: (Seq<char>, Seq<char>), r: (Seq<char>, Seq<char>))
    ensures
        !pair_lt(p, p),
        !(pair_lt(p, q) && pair_lt(q, p)),
        p == q || pair_lt(p, q) || pair_lt(q, p),
        pair_lt(p, q) && pair_lt(q, r) ==> pair_lt(p, r),
        !pair_lt(q, p) && !pair_lt(r, q) ==> !pair_lt(r, p),
{
    lemma_text_irreflexive(p.0);
    lemma_text_irreflexive(p.1);
    lemma_text_total(p.0, q.0);
    lemma_text_total(p.1, q.1);
    lemma_text_asymmetric(p.0, q.0);
    lemma_text_asymmetric(p.1, q.1);
    lemma_text_total(q.0, r.0);
    lemma_text_total(q.1, r.1);
    lemma_text_total(p.0, r.0);
    lemma_text_total(p.1, r.1);
    lemma_text_asymmetric(p.0, r.0);
    lemma_text_asymmetric(p.1, r.1);
    lemma_text_asymmetric(q.0, r.0);
    lemma_text_asymmetric(q.1, r.1);
    if text_lt(p.0, q.0) && text_lt(q.0, r.0) {
        lemma_text_transitive(p.0, q.0, r.0);
    }
    if text_lt(p.1, q.1) && text_lt(q.1, r.1) {
        lemma_text_transitive(p.1, q.1, r.1);
    }
    if text_lt(r.0, q.0) && text_lt(q.0, p.0) {
        lemma_text_transitive(r.0, q.0, p.0);
    }
    if text_lt(r.1, q.1) && text_lt(q.1, p.1) {
        lemma_text_transitive(r.1, q.1, p.1);
    }
    if (p == q || pair_lt(p, q)) && (q == r || pair_lt(q, r)) {
        assert(p.0 == r.0 || text_lt(p.0, r.0));
    }
}

/// Whether the text `a` comes strictly before the text `b`.
pub fn less_than(a: &String, b: &String) -> (r: bool)
    ensures
        r == text_lt(a@, b@),
{
    let na = a.unicode_len();
    let nb = b.unicode_len();
    let s = a.as_str();
    let t = b.as_str();
    let mut i: usize = 0;
    assert(a@.subrange(0, na as int) =~= a@);
    assert(b@.subrange(0, nb as int) =~= b@);
    while i < na && i < nb
        invariant
            na == a@.len(),
            nb == b@.len(),
            s@ == a@,
            t@ == b@,
            i <= na,
            i <= nb,
            text_lt(a@, b@) == text_lt(a@.subrange(i as int, na as int), b@.subrange(i as int, nb as int)),
        decreases na - i,
    {
        let x = s.get_char(i);
        let y = t.get_char(i);
        let ghost u = a@.subrange(i as int, na as int);
        let ghost v = b@.subrange(i as int, nb as int);
        assert(u[0] == x && v[0] == y);
        if x != y {
            return x < y;
        }
        assert(u.drop_first() =~= a@.subrange(i + 1, na as int));
        assert(v.drop_first() =~= b@.subrange(i + 1, nb as int));
        i = i + 1;
    }
    i < nb
}

} // verus!
