//! Lexicographic order on texts, and texts kept as strictly increasing
//! sequences (sorted, without duplicates).
use vstd::prelude::*;
use crate::text::chars_of;

verus! {

/// `a` comes strictly before `b` when their characters are compared one by one
/// by code point; a proper prefix comes first.  For UTF-8 strings this is the
/// order of `String`'s `Ord`, which compares bytes.
pub open spec fn text_lt(a: Seq<char>, b: Seq<char>) -> bool
    decreases a.len(),
{
    if a.len() == 0 {
        b.len() > 0
    } else if b.len() == 0 {
        false
    } else if a[0] != b[0] {
        (a[0] as int) < (b[0] as int)
    } else {
        text_lt(a.drop_first(), b.drop_first())
    }
}

/// The texts of a sequence of strings.
pub open spec fn texts(v: Seq<String>) -> Seq<Seq<char>> {
    v.map_values(|s: String| s@)
}

/// The text of an optional string.
pub open spec fn opt_text(o: Option<String>) -> Option<Seq<char>> {
    match o {
        Some(s) => Some(s@),
        None => None,
    }
}

/// Every text comes strictly before every later one.
pub open spec fn strictly_sorted(s: Seq<Seq<char>>) -> bool {
    forall|i: int, j: int| 0 <= i < j < s.len() ==> text_lt(#[trigger] s[i], #[trigger] s[j])
}

/// The elements of a finite set of texts, in increasing order.
pub open spec fn sorted_text_set(set: Set<Seq<char>>) -> Seq<Seq<char>> {
    choose|q: Seq<Seq<char>>| strictly_sorted(q) && q.to_set() == set
}

/// No text comes before itself.
pub proof fn lemma_text_lt_irreflexive(a: Seq<char>)
    ensures
        !text_lt(a, a),
    decreases a.len(),
{
    if a.len() > 0 {
        lemma_text_lt_irreflexive(a.drop_first());
    }
}

/// The order is transitive.
pub proof fn lemma_text_lt_transitive(a: Seq<char>, b: Seq<char>, c: Seq<char>)
    requires
        text_lt(a, b),
        text_lt(b, c),
    ensures
        text_lt(a, c),
    decreases a.len(),
{
    if a.len() > 0 && b.len() > 0 && c.len() > 0 && a[0] == b[0] && b[0] == c[0] {
        lemma_text_lt_transitive(a.drop_first(), b.drop_first(), c.drop_first());
    }
}

/// Of two different texts, one comes before the other.
pub proof fn lemma_text_lt_total(a: Seq<char>, b: Seq<char>)
    requires
        a != b,
    ensures
        text_lt(a, b) || text_lt(b, a),
    decreases a.len(),
{
    if a.len() > 0 && b.len() > 0 && a[0] == b[0] {
        if a.drop_first() == b.drop_first() {
            assert(a.drop_first().len() == b.drop_first().len());
            assert(a.len() == b.len());
            assert(a =~= b) by {
                assert forall|i: int| 0 <= i < a.len() implies a[i] == b[i] by {
                    if i > 0 {
                        assert(a[i] == a.drop_first()[i - 1]);
                        assert(b[i] == b.drop_first()[i - 1]);
                    }
                }
            }
        } else {
            lemma_text_lt_total(a.drop_first(), b.drop_first());
        }
    } else if a.len() == 0 && b.len() == 0 {
        assert(a =~= b);
    }
}

/// The order is asymmetric.
pub proof fn lemma_text_lt_asymmetric(a: Seq<char>, b: Seq<char>)
    requires
        text_lt(a, b),
    ensures
        !text_lt(b, a),
{
    if text_lt(b, a) {
        lemma_text_lt_transitive(a, b, a);
        lemma_text_lt_irreflexive(a);
    }
}

/// Dropping the first element of a strictly sorted sequence removes exactly that
/// element from its set.
proof fn lemma_drop_first_set(p: Seq<Seq<char>>)
    requires
        strictly_sorted(p),
        p.len() > 0,
    ensures
        p.drop_first().to_set() == p.to_set().remove(p[0]),
        strictly_sorted(p.drop_first()),
{
    assert forall|x: Seq<char>| p.drop_first().to_set().contains(x) <==> p.to_set().remove(p[0]).contains(x) by {
        if p.drop_first().to_set().contains(x) {
            assert(p.drop_first().contains(x));
            let i = choose|i: int| 0 <= i < p.drop_first().len() && p.drop_first()[i] == x;
            assert(p[i + 1] == x);
            assert(text_lt(p[0], p[i + 1]));
            lemma_text_lt_irreflexive(x);
            assert(p.contains(x));
        }
        if p.to_set().remove(p[0]).contains(x) {
            assert(p.contains(x));
            let i = choose|i: int| 0 <= i < p.len() && p[i] == x;
            assert(i != 0);
            assert(p.drop_first()[i - 1] == x);
            assert(p.drop_first().contains(x));
        }
    }
    assert(p.drop_first().to_set() =~= p.to_set().remove(p[0]));
    assert forall|i: int, j: int| 0 <= i < j < p.drop_first().len() implies text_lt(
        #[trigger] p.drop_first()[i],
        #[trigger] p.drop_first()[j],
    ) by {
        assert(p.drop_first()[i] == p[i + 1]);
        assert(p.drop_first()[j] == p[j + 1]);
    }
}

/// Two strictly sorted sequences with the same elements are equal.
pub proof fn lemma_strictly_sorted_unique(p: Seq<Seq<char>>, q: Seq<Seq<char>>)
    requires
        strictly_sorted(p),
        strictly_sorted(q),
        p.to_set() == q.to_set(),
    ensures
        p == q,
    decreases p.len(),
{
    if p.len() == 0 {
        if q.len() > 0 {
            assert(q.contains(q[0]));
            assert(q.to_set().contains(q[0]));
            assert(p.contains(q[0]));
        }
        assert(p =~= q);
    } else {
        assert(p.contains(p[0]));
        assert(q.to_set().contains(p[0]));
        assert(q.contains(p[0]));
        let j = choose|j: int| 0 <= j < q.len() && q[j] == p[0];
        assert(q.contains(q[0]));
        assert(p.to_set().contains(q[0]));
        assert(p.contains(q[0]));
        let k = choose|k: int| 0 <= k < p.len() && p[k] == q[0];
        if j != 0 {
            assert(text_lt(q[0], q[j]));
            if k == 0 {
                lemma_text_lt_irreflexive(q[0]);
            } else {
                assert(text_lt(p[0], p[k]));
                lemma_text_lt_asymmetric(p[0], p[k]);
            }
        }
        assert(p[0] == q[0]);
        lemma_drop_first_set(p);
        lemma_drop_first_set(q);
        lemma_strictly_sorted_unique(p.drop_first(), q.drop_first());
        assert(p =~= q) by {
            assert forall|i: int| 0 <= i < p.len() implies p[i] == q[i] by {
                if i > 0 {
                    assert(p[i] == p.drop_first()[i - 1]);
                    assert(q[i] == q.drop_first()[i - 1]);
                }
            }
        }
    }
}

/// A strictly sorted sequence is the sorted form of its own set.
pub proof fn lemma_sorted_text_set(q: Seq<Seq<char>>)
    requires
        strictly_sorted(q),
    ensures
        sorted_text_set(q.to_set()) == q,
{
    let r = sorted_text_set(q.to_set());
    assert(strictly_sorted(r) && r.to_set() == q.to_set());
    lemma_strictly_sorted_unique(r, q);
}

/// `text_lt` of two character vectors.
pub fn chars_less(a: &Vec<char>, b: &Vec<char>) -> (r: bool)
    ensures
        r == text_lt(a@, b@),
{
    let mut i: usize = 0;
    assert(a@.skip(0) == a@);
    assert(b@.skip(0) == b@);
    loop
        invariant
            i <= a.len(),
            i <= b.len(),
            text_lt(a@, b@) == text_lt(a@.skip(i as int), b@.skip(i as int)),
        decreases a.len() - i,
    {
        if i == a.len() {
            return i < b.len();
        }
        if i == b.len() {
            return false;
        }
        assert(a@.skip(i as int)[0] == a@[i as int]);
        assert(b@.skip(i as int)[0] == b@[i as int]);
        if a[i] != b[i] {
            return a[i] < b[i];
        }
        assert(a@.skip(i as int).drop_first() =~= a@.skip(i + 1));
        assert(b@.skip(i as int).drop_first() =~= b@.skip(i + 1));
        i = i + 1;
    }
}

/// `text_lt` of two strings.
pub fn str_less(a: &str, b: &str) -> (r: bool)
    ensures
        r == text_lt(a@, b@),
{
    let x = chars_of(a);
    let y = chars_of(b);
    chars_less(&x, &y)
}

/// Adds `x` to a strictly sorted vector of strings, keeping it strictly sorted;
/// nothing changes when `x` is already there.
pub fn insert_sorted_text(v: &mut Vec<String>, x: String)
    requires
        strictly_sorted(texts(old(v)@)),
    ensures
        strictly_sorted(texts(final(v)@)),
        texts(final(v)@).to_set() == texts(old(v)@).to_set().insert(x@),
{
    let ghost old_texts = texts(v@);
    let n = v.len();
    let mut pos: usize = 0;
    while pos < n && str_less(v[pos].as_str(), x.as_str())
        invariant
            n == v.len(),
            v@ == old(v)@,
            pos <= n,
            forall|k: int| 0 <= k < pos ==> text_lt(#[trigger] texts(v@)[k], x@),
        decreases n - pos,
    {
        pos = pos + 1;
    }
    if pos < n && v[pos] == x {
        assert(texts(v@)[pos as int] == x@);
        assert(texts(v@).contains(x@));
        assert(texts(v@).to_set() =~= texts(v@).to_set().insert(x@));
        return;
    }
    // every later text comes after `x`
    assert forall|k: int| pos <= k < n implies text_lt(x@, #[trigger] texts(v@)[k]) by {
        let p = texts(v@)[pos as int];
        assert(!text_lt(p, x@));
        assert(p != x@);
        lemma_text_lt_total(p, x@);
        if k > pos {
            lemma_text_lt_transitive(x@, p, texts(v@)[k]);
        }
    }
    v.insert(pos, x);
    let ghost new_texts = texts(v@);
    assert(new_texts =~= old_texts.insert(pos as int, x@));
    assert forall|i: int, j: int| 0 <= i < j < new_texts.len() implies text_lt(
        #[trigger] new_texts[i],
        #[trigger] new_texts[j],
    ) by {
        if j < pos {
        } else if j == pos {
        } else if i < pos {
            lemma_text_lt_transitive(new_texts[i], x@, new_texts[j]);
        } else if i == pos {
        } else {
            assert(new_texts[i] == old_texts[i - 1]);
            assert(new_texts[j] == old_texts[j - 1]);
        }
    }
    assert forall|y: Seq<char>| new_texts.contains(y) <==> old_texts.to_set().insert(x@).contains(y) by {
        if new_texts.contains(y) {
            let i = choose|i: int| 0 <= i < new_texts.len() && new_texts[i] == y;
            if i < pos {
                assert(old_texts[i] == y);
                assert(old_texts.contains(y));
            } else if i > pos {
                assert(old_texts[i - 1] == y);
                assert(old_texts.contains(y));
            }
        }
        if old_texts.contains(y) {
            let i = choose|i: int| 0 <= i < old_texts.len() && old_texts[i] == y;
            if i < pos {
                assert(new_texts[i] == y);
            } else {
                assert(new_texts[i + 1] == y);
            }
        }
        if y == x@ {
            assert(new_texts[pos as int] == y);
        }
    }
    assert(new_texts.to_set() =~= old_texts.to_set().insert(x@));
}

/// Whether some string of `v` has the text of `x`.
pub fn contains_text(v: &Vec<String>, x: &String) -> (r: bool)
    ensures
        r == texts(v@).contains(x@),
{
    let n = v.len();
    for i in 0..n
        invariant
            n == v.len(),
            forall|k: int| 0 <= k < i ==> texts(v@)[k] != x@,
    {
        if v[i] == *x {
            assert(texts(v@)[i as int] == x@);
            return true;
        }
    }
    false
}

} // verus!
