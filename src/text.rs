//! Lexicographic order on text by code point, which is the order of the
//! UTF-8 bytes, and sorted duplicate-free lists of strings under it.
use vstd::prelude::*;

verus! {

/// `a` sorts strictly before `b`.
pub open spec fn text_lt(a: Seq<char>, b: Seq<char>) -> bool
    decreases a.len(),
{
    if a.len() == 0 {
        b.len() > 0
    } else if b.len() == 0 {
        false
    } else if a[0] != b[0] {
        a[0] < b[0]
    } else {
        text_lt(a.drop_first(), b.drop_first())
    }
}

/// Each element sorts strictly before every later one: sorted, and no
/// element occurs twice.
pub open spec fn strictly_sorted(s: Seq<Seq<char>>) -> bool {
    forall|i: int, j: int| 0 <= i < j < s.len() ==> text_lt(#[trigger] s[i], #[trigger] s[j])
}

/// The views of a run of strings.
pub open spec fn texts(v: Seq<String>) -> Seq<Seq<char>> {
    v.map_values(|s: String| s@)
}

pub proof fn lemma_text_lt_irreflexive(a: Seq<char>)
    ensures
        !text_lt(a, a),
    decreases a.len(),
{
    if a.len() > 0 {
        lemma_text_lt_irreflexive(a.drop_first());
    }
}

pub proof fn lemma_text_lt_transitive(a: Seq<char>, b: Seq<char>, c: Seq<char>)
    requires
        text_lt(a, b),
        text_lt(b, c),
    ensures
        text_lt(a, c),
    decreases a.len(),
{
    if a.len() > 0 && b.len() > 0 && c.len() > 0 && a[0] == b[0] && b[0] == c[0] {
        lemma_text_lt_transitive(a.drop_first(), b.drop_first(), c.drop_first());
    }
}

pub proof fn lemma_text_lt_total(a: Seq<char>, b: Seq<char>)
    requires
        a != b,
    ensures
        text_lt(a, b) || text_lt(b, a),
    decreases a.len(),
{
    if a.len() > 0 && b.len() > 0 && a[0] == b[0] {
        if a.drop_first() == b.drop_first() {
            assert(a =~= seq![a[0]] + a.drop_first());
            assert(b =~= seq![b[0]] + b.drop_first());
        } else {
            lemma_text_lt_total(a.drop_first(), b.drop_first());
        }
    } else if a.len() == 0 && b.len() == 0 {
        assert(a =~= b);
    }
}

pub proof fn lemma_text_lt_asymmetric(a: Seq<char>, b: Seq<char>)
    requires
        text_lt(a, b),
    ensures
        !text_lt(b, a),
{
    if text_lt(b, a) {
        lemma_text_lt_transitive(a, b, a);
        lemma_text_lt_irreflexive(a);
    }
}

/// Two strictly sorted lists that hold the same strings are the same list:
/// a set of strings has exactly one sorted duplicate-free arrangement.
pub proof fn lemma_sorted_arrangement_unique(a: Seq<Seq<char>>, b: Seq<Seq<char>>)
    requires
        strictly_sorted(a),
        strictly_sorted(b),
        forall|t: Seq<char>| a.contains(t) <==> b.contains(t),
    ensures
        a == b,
    decreases a.len(),
{
    if a.len() == 0 {
        if b.len() > 0 {
            assert(b.contains(b[0]));
        }
        assert(a =~= b);
    } else {
        assert(a.contains(a[0]));
        let k = choose|k: int| 0 <= k < b.len() && b[k] == a[0];
        assert(b.contains(b[0]));
        let m = choose|m: int| 0 <= m < a.len() && a[m] == b[0];
        if a[0] != b[0] {
            assert(k > 0 && m > 0);
            lemma_text_lt_asymmetric(b[0], b[k]);
        }
        let a1 = a.drop_first();
        let b1 = b.drop_first();
        assert forall|t: Seq<char>| a1.contains(t) implies b1.contains(t) by {
            let i = choose|i: int| 0 <= i < a1.len() && a1[i] == t;
            assert(a.contains(t) && a[i + 1] == t);
            let j = choose|j: int| 0 <= j < b.len() && b[j] == t;
            if j == 0 {
                assert(text_lt(a[0], a[i + 1]));
                lemma_text_lt_irreflexive(a[0]);
            }
            assert(b1[j - 1] == t);
        }
        assert forall|t: Seq<char>| b1.contains(t) implies a1.contains(t) by {
            let j = choose|j: int| 0 <= j < b1.len() && b1[j] == t;
            assert(b.contains(t) && b[j + 1] == t);
            let i = choose|i: int| 0 <= i < a.len() && a[i] == t;
            if i == 0 {
                assert(text_lt(b[0], b[j + 1]));
                lemma_text_lt_irreflexive(b[0]);
            }
            assert(a1[i - 1] == t);
        }
        lemma_sorted_arrangement_unique(a1, b1);
        assert(a =~= seq![a[0]] + a1);
        assert(b =~= seq![b[0]] + b1);
    }
}

/// Whether `a` sorts strictly before `b`.
pub fn text_less(a: &str, b: &str) -> (r: bool)
    ensures
        r == text_lt(a@, b@),
{
    let la = a.unicode_len();
    let lb = b.unicode_len();
    let mut i: usize = 0;
    assert(a@.skip(0) =~= a@ && b@.skip(0) =~= b@);
    while i < la && i < lb
        invariant
            la == a@.len(),
            lb == b@.len(),
            i <= la,
            i <= lb,
            text_lt(a@, b@) == text_lt(a@.skip(i as int), b@.skip(i as int)),
        decreases la - i,
    {
        let ca = a.get_char(i);
        let cb = b.get_char(i);
        proof {
            assert(a@.skip(i as int).drop_first() =~= a@.skip(i + 1));
            assert(b@.skip(i as int).drop_first() =~= b@.skip(i + 1));
        }
        if ca != cb {
            return ca < cb;
        }
        i = i + 1;
    }
    i == la && i < lb
}

/// Adds `tag` to a strictly sorted list, where it is not there already.
pub fn insert_sorted(list: &mut Vec<String>, tag: String)
    requires
        strictly_sorted(texts(old(list)@)),
    ensures
        strictly_sorted(texts(final(list)@)),
        forall|t: Seq<char>|
            texts(final(list)@).contains(t) <==> (texts(old(list)@).contains(t) || t == tag@),
{
    let ghost old_texts = texts(list@);
    let n = list.len();
    let mut i: usize = 0;
    while i < n && text_less(list[i].as_str(), tag.as_str())
        invariant
            n == list@.len(),
            i <= n,
            old_texts == texts(list@),
            forall|j: int| 0 <= j < i ==> text_lt(#[trigger] old_texts[j], tag@),
        decreases n - i,
    {
        i = i + 1;
    }
    if i < n && list[i] == tag {
        assert(old_texts[i as int] == tag@);
        assert forall|t: Seq<char>| old_texts.contains(t) || t == tag@ implies old_texts.contains(t) by {
            if t == tag@ {
                assert(old_texts[i as int] == t);
            }
        }
        return;
    }
    proof {
        if i < n {
            assert(old_texts[i as int] != tag@);
            assert(!text_lt(old_texts[i as int], tag@));
            lemma_text_lt_total(old_texts[i as int], tag@);
        }
    }
    list.insert(i, tag);
    proof {
        let nt = texts(list@);
        assert(nt =~= old_texts.insert(i as int, tag@));
        assert forall|k: int| i <= k < old_texts.len() implies text_lt(tag@, #[trigger] old_texts[k]) by {
            if k > i {
                lemma_text_lt_transitive(tag@, old_texts[i as int], old_texts[k]);
            }
        }
        assert forall|p: int, q: int| 0 <= p < q < nt.len() implies text_lt(
            #[trigger] nt[p],
            #[trigger] nt[q],
        ) by {
            if q < i {
            } else if q == i {
            } else if p < i {
                lemma_text_lt_transitive(old_texts[p], tag@, old_texts[q - 1]);
            } else if p == i {
                assert(text_lt(tag@, old_texts[q - 1]));
            } else {
            }
        }
        assert forall|t: Seq<char>| nt.contains(t) <==> (old_texts.contains(t) || t == tag@) by {
            if nt.contains(t) {
                let k = choose|k: int| 0 <= k < nt.len() && nt[k] == t;
                if k < i {
                    assert(old_texts[k] == t);
                } else if k > i {
                    assert(old_texts[k - 1] == t);
                }
            }
            if old_texts.contains(t) {
                let k = choose|k: int| 0 <= k < old_texts.len() && old_texts[k] == t;
                if k < i {
                    assert(nt[k] == t);
                } else {
                    assert(nt[k + 1] == t);
                }
            }
            if t == tag@ {
                assert(nt[i as int] == t);
            }
        }
    }
}

} // verus!
