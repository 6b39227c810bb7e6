//! Comparison of texts by their characters.

use vstd::prelude::*;
use vstd::std_specs::iter::IteratorSpec;

verus! {

/// The characters of an optional text.
pub open spec fn opt_chars(o: Option<String>) -> Option<Seq<char>> {
    match o {
        Some(s) => Some(s@),
        None => None,
    }
}

/// `a` sorts strictly before `b` in lexicographic order of characters
/// (the order of `str`, whose byte order follows the code points).
pub open spec fn chars_lt(a: Seq<char>, b: Seq<char>) -> bool
    decreases a.len(),
{
    if a.len() == 0 {
        b.len() > 0
    } else if b.len() == 0 {
        false
    } else if a[0] < b[0] {
        true
    } else if a[0] == b[0] {
        chars_lt(a.drop_first(), b.drop_first())
    } else {
        false
    }
}

/// `a` sorts before `b` or equals it.
pub open spec fn chars_le(a: Seq<char>, b: Seq<char>) -> bool {
    a == b || chars_lt(a, b)
}

pub proof fn lemma_chars_lt_irreflexive(a: Seq<char>)
    ensures
        !chars_lt(a, a),
    decreases a.len(),
{
    if a.len() > 0 {
        lemma_chars_lt_irreflexive(a.drop_first());
    }
}

pub proof fn lemma_chars_lt_transitive(a: Seq<char>, b: Seq<char>, c: Seq<char>)
    requires
        chars_lt(a, b),
        chars_lt(b, c),
    ensures
        chars_lt(a, c),
    decreases a.len(),
{
    if a.len() > 0 && b.len() > 0 && c.len() > 0 && a[0] == b[0] && b[0] == c[0] {
        lemma_chars_lt_transitive(a.drop_first(), b.drop_first(), c.drop_first());
    }
}

pub proof fn lemma_chars_lt_total(a: Seq<char>, b: Seq<char>)
    ensures
        a == b || chars_lt(a, b) || chars_lt(b, a),
    decreases a.len(),
{
    if a.len() == 0 && b.len() == 0 {
        assert(a =~= b);
    } else if a.len() > 0 && b.len() > 0 && a[0] == b[0] {
        lemma_chars_lt_total(a.drop_first(), b.drop_first());
        lemma_same_head(a, b);
    }
}

pub proof fn lemma_chars_lt_asymmetric(a: Seq<char>, b: Seq<char>)
    requires
        chars_lt(a, b),
    ensures
        !chars_lt(b, a),
{
    if chars_lt(b, a) {
        lemma_chars_lt_transitive(a, b, a);
        lemma_chars_lt_irreflexive(a);
    }
}

/// `a` sorts strictly before `b` exactly when `a` is a proper prefix of
/// `b`, or at the first position where they differ the character of `a`
/// has the smaller code point: the order of `str`.
pub proof fn lemma_chars_lt_lexicographic(a: Seq<char>, b: Seq<char>)
    ensures
        chars_lt(a, b) <==> {
            ||| a.len() < b.len() && a == b.take(a.len() as int)
            ||| exists|i: int| 0 <= i < a.len() && i < b.len() && a.take(i) == b.take(i) && #[trigger] a[i] < b[i]
        },
    decreases a.len(),
{
    if a.len() == 0 {
        assert(a =~= b.take(0));
        assert forall|i: int| !(0 <= i < a.len() && i < b.len() && a.take(i) == b.take(i) && #[trigger] a[i] < b[i]) by {}
    } else if b.len() == 0 {
        assert forall|i: int| !(0 <= i < a.len() && i < b.len() && a.take(i) == b.take(i) && #[trigger] a[i] < b[i]) by {}
    } else {
        let ta = a.drop_first();
        let tb = b.drop_first();
        lemma_chars_lt_lexicographic(ta, tb);
        if a[0] < b[0] {
            assert(a.take(0) =~= b.take(0));
            assert(a[0] < b[0]);
        } else if a[0] == b[0] {
            // a prefix of b exactly when the tails are
            if ta.len() < tb.len() && ta == tb.take(ta.len() as int) {
                assert(a =~= b.take(a.len() as int)) by {
                    assert forall|k: int| 0 <= k < a.len() implies a[k] == b.take(a.len() as int)[k] by {
                        if k > 0 {
                            assert(a[k] == ta[k - 1]);
                            assert(b[k] == tb[k - 1]);
                            assert(tb.take(ta.len() as int)[k - 1] == tb[k - 1]);
                        }
                    }
                }
            }
            if a.len() < b.len() && a == b.take(a.len() as int) {
                assert(ta =~= tb.take(ta.len() as int)) by {
                    assert forall|k: int| 0 <= k < ta.len() implies ta[k] == tb.take(ta.len() as int)[k] by {
                        assert(a[k + 1] == b.take(a.len() as int)[k + 1]);
                    }
                }
            }
            // a first difference of the tails is one of a and b, one further on
            if exists|i: int| 0 <= i < ta.len() && i < tb.len() && ta.take(i) == tb.take(i) && #[trigger] ta[i] < tb[i] {
                let i = choose|i: int| 0 <= i < ta.len() && i < tb.len() && ta.take(i) == tb.take(i) && #[trigger] ta[i] < tb[i];
                assert(a.take(i + 1) =~= b.take(i + 1)) by {
                    assert forall|k: int| 0 <= k < i + 1 implies #[trigger] a.take(i + 1)[k] == b.take(i + 1)[k] by {
                        if k > 0 {
                            assert(ta.take(i)[k - 1] == tb.take(i)[k - 1]);
                        }
                    }
                }
                assert(a[i + 1] == ta[i] && b[i + 1] == tb[i]);
            }
            if exists|i: int| 0 <= i < a.len() && i < b.len() && a.take(i) == b.take(i) && #[trigger] a[i] < b[i] {
                let i = choose|i: int| 0 <= i < a.len() && i < b.len() && a.take(i) == b.take(i) && #[trigger] a[i] < b[i];
                assert(i > 0);
                assert(ta.take(i - 1) =~= tb.take(i - 1)) by {
                    assert forall|k: int| 0 <= k < i - 1 implies #[trigger] ta.take(i - 1)[k] == tb.take(i - 1)[k] by {
                        assert(a.take(i)[k + 1] == b.take(i)[k + 1]);
                    }
                }
                assert(ta[i - 1] == a[i] && tb[i - 1] == b[i]);
            }
        } else {
            if a.len() < b.len() && a == b.take(a.len() as int) {
                assert(a[0] == b.take(a.len() as int)[0]);
            }
            assert forall|i: int| !(0 <= i < a.len() && i < b.len() && a.take(i) == b.take(i) && #[trigger] a[i] < b[i]) by {
                if 0 < i < a.len() && i < b.len() && a.take(i) == b.take(i) {
                    assert(a.take(i)[0] == b.take(i)[0]);
                }
            }
        }
    }
}

/// On single characters the order is that of their code points.
pub proof fn lemma_chars_lt_chars(x: char, y: char)
    ensures
        chars_lt(seq![x], seq![y]) == (x < y),
{
    assert(seq![x].drop_first() =~= Seq::<char>::empty());
    assert(seq![y].drop_first() =~= Seq::<char>::empty());
    assert(!chars_lt(Seq::<char>::empty(), Seq::<char>::empty()));
    assert(seq![x][0] == x && seq![y][0] == y);
}

/// Whether `a` sorts strictly before `b`.
pub fn str_lt(a: &str, b: &str) -> (r: bool)
    ensures
        r == chars_lt(a@, b@),
        r <==> {
            ||| a@.len() < b@.len() && a@ == b@.take(a@.len() as int)
            ||| exists|i: int| 0 <= i < a@.len() && i < b@.len() && a@.take(i) == b@.take(i) && #[trigger] a@[i] < b@[i]
        },
{
    broadcast use vstd::string::axiom_spec_iter, vstd::string::next_postcondition;

    proof {
        lemma_chars_lt_lexicographic(a@, b@);
    }

    let mut ia = a.chars();
    let mut ib = b.chars();
    loop
        invariant
            chars_lt(a@, b@) == chars_lt(ia.remaining(), ib.remaining()),
            chars_lt(a@, b@) <==> {
                ||| a@.len() < b@.len() && a@ == b@.take(a@.len() as int)
                ||| exists|i: int| 0 <= i < a@.len() && i < b@.len() && a@.take(i) == b@.take(i) && #[trigger] a@[i] < b@[i]
            },
            ia.decrease() is Some,
        decreases ia.decrease()->0,
    {
        let ca = ia.next();
        let cb = ib.next();
        match (ca, cb) {
            (None, None) => {
                return false;
            },
            (None, Some(_)) => {
                return true;
            },
            (Some(_), None) => {
                return false;
            },
            (Some(x), Some(y)) => {
                if x < y {
                    return true;
                }
                if x != y {
                    return false;
                }
            },
        }
    }
}

proof fn lemma_same_head(a: Seq<char>, b: Seq<char>)
    requires
        a.len() > 0,
        b.len() > 0,
        a[0] == b[0],
    ensures
        (a == b) == (a.drop_first() == b.drop_first()),
{
    if a.drop_first() == b.drop_first() {
        assert(a.drop_first().len() == b.drop_first().len());
        assert(a.len() == b.len());
        assert(a =~= b) by {
            assert forall|i: int| 0 <= i < a.len() implies a[i] == b[i] by {
                if i > 0 {
                    assert(a[i] == a.drop_first()[i - 1]);
                    assert(b[i] == b.drop_first()[i - 1]);
                }
            }
        }
    }
}

/// Whether `a` and `b` are the same text.
pub fn str_eq(a: &str, b: &str) -> (r: bool)
    ensures
        r == (a@ == b@),
{
    broadcast use vstd::string::axiom_spec_iter, vstd::string::next_postcondition;

    let mut ia = a.chars();
    let mut ib = b.chars();
    loop
        invariant
            (a@ == b@) == (ia.remaining() == ib.remaining()),
            ia.decrease() is Some,
        decreases ia.decrease()->0,
    {
        let ghost ra = ia.remaining();
        let ghost rb = ib.remaining();
        let ca = ia.next();
        let cb = ib.next();
        match (ca, cb) {
            (None, None) => {
                assert(ra =~= rb);
                return true;
            },
            (None, Some(_)) => {
                assert(ra.len() != rb.len());
                return false;
            },
            (Some(_), None) => {
                assert(ra.len() != rb.len());
                return false;
            },
            (Some(x), Some(y)) => {
                if x != y {
                    assert(ra[0] != rb[0]);
                    return false;
                }
                proof {
                    lemma_same_head(ra, rb);
                }
            },
        }
    }
}

} // verus!
