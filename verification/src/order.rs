//! The order of texts: character by character, a shorter text before its continuations.
use crate::text::chars_of;
use vstd::prelude::*;
use vstd::string::*;

verus! {

/// Does `a` come before `b`, or are they the same?
pub open spec fn text_le(a: Seq<char>, b: Seq<char>) -> bool
    decreases a.len(),
{
    if a.len() == 0 {
        true
    } else if b.len() == 0 {
        false
    } else if a[0] != b[0] {
        a[0] < b[0]
    } else {
        text_le(a.drop_first(), b.drop_first())
    }
}

/// Of two texts one comes before the other, or they are the same.
pub proof fn lemma_le_total(a: Seq<char>, b: Seq<char>)
    ensures
        text_le(a, b) || text_le(b, a),
    decreases a.len(),
{
    if a.len() > 0 && b.len() > 0 && a[0] == b[0] {
        lemma_le_total(a.drop_first(), b.drop_first());
    }
}

/// The order is transitive.
pub proof fn lemma_le_transitive(a: Seq<char>, b: Seq<char>, c: Seq<char>)
    requires
        text_le(a, b),
        text_le(b, c),
    ensures
        text_le(a, c),
    decreases a.len(),
{
    if a.len() > 0 && b.len() > 0 && c.len() > 0 && a[0] == b[0] && b[0] == c[0] {
        lemma_le_transitive(a.drop_first(), b.drop_first(), c.drop_first());
    }
}

/// Two texts of which neither comes after the other are the same.
pub proof fn lemma_le_antisymmetric(a: Seq<char>, b: Seq<char>)
    requires
        text_le(a, b),
        text_le(b, a),
    ensures
        a == b,
    decreases a.len(),
{
    if a.len() > 0 && b.len() > 0 {
        lemma_le_antisymmetric(a.drop_first(), b.drop_first());
        assert(a =~= seq![a[0]] + a.drop_first());
        assert(b =~= seq![b[0]] + b.drop_first());
    } else {
        assert(a =~= b);
    }
}

/// Does `a` come before `b`, or are they the same?
pub fn not_after(a: &str, b: &str) -> (r: bool)
    ensures
        r == text_le(a@, b@),
{
    let x = chars_of(a);
    let y = chars_of(b);
    let mut i: usize = 0;
    proof {
        assert(x@.skip(0) =~= x@);
        assert(y@.skip(0) =~= y@);
    }
    loop
        invariant
            i <= x@.len(),
            i <= y@.len(),
            text_le(x@.skip(i as int), y@.skip(i as int)) == text_le(x@, y@),
            x@ == a@,
            y@ == b@,
        decreases x.len() - i,
    {
        if i == x.len() {
            return true;
        }
        if i == y.len() {
            return false;
        }
        if x[i] != y[i] {
            return x[i] < y[i];
        }
        proof {
            assert(x@.skip(i as int).drop_first() =~= x@.skip(i + 1));
            assert(y@.skip(i as int).drop_first() =~= y@.skip(i + 1));
        }
        i += 1;
    }
}

/// Texts are ordered like words in a dictionary: by the first character in which they
/// differ, and a text before all that go on from it.
pub proof fn law_texts_are_ordered_by_first_difference(
    p: Seq<char>,
    a: char,
    x: Seq<char>,
    b: char,
    y: Seq<char>,
)
    ensures
        text_le(p, p + x),
        x.len() > 0 ==> !text_le(p + x, p),
        a < b ==> text_le(p + (seq![a] + x), p + (seq![b] + y)),
        a > b ==> !text_le(p + (seq![a] + x), p + (seq![b] + y)),
    decreases p.len(),
{
    let s = p + (seq![a] + x);
    let t = p + (seq![b] + y);
    if p.len() == 0 {
        assert(s[0] == a && t[0] == b);
        assert(p + x =~= x);
    } else {
        let q = p.drop_first();
        law_texts_are_ordered_by_first_difference(q, a, x, b, y);
        assert(s.drop_first() =~= q + (seq![a] + x));
        assert(t.drop_first() =~= q + (seq![b] + y));
        assert((p + x).drop_first() =~= q + x);
    }
}

} // verus!
