//! Lexicographic ordering of names, used to keep the environment's entries
//! sorted for deterministic diagnostic rendering.

use vstd::prelude::*;
use vstd::string::StrSliceExecFns;

verus! {

/// Strict lexicographic order on character sequences, comparing characters by
/// their Unicode scalar value. A proper prefix sorts before its extensions.
pub open spec fn lex_lt(a: Seq<char>, b: Seq<char>) -> bool
    decreases a.len(),
{
    if b.len() == 0 {
        false
    } else if a.len() == 0 {
        true
    } else if (a[0] as int) < (b[0] as int) {
        true
    } else if a[0] == b[0] {
        lex_lt(a.drop_first(), b.drop_first())
    } else {
        false
    }
}

pub proof fn lemma_lex_lt_irrefl(a: Seq<char>)
    ensures
        !lex_lt(a, a),
    decreases a.len(),
{
    if a.len() > 0 {
        lemma_lex_lt_irrefl(a.drop_first());
    }
}

pub proof fn lemma_lex_lt_trans(a: Seq<char>, b: Seq<char>, c: Seq<char>)
    requires
        lex_lt(a, b),
        lex_lt(b, c),
    ensures
        lex_lt(a, c),
    decreases a.len(),
{
    if a.len() > 0 {
        if a[0] == b[0] && b[0] == c[0] {
            lemma_lex_lt_trans(a.drop_first(), b.drop_first(), c.drop_first());
        }
    }
}

pub proof fn lemma_lex_lt_asym(a: Seq<char>, b: Seq<char>)
    requires
        lex_lt(a, b),
    ensures
        !lex_lt(b, a),
        a != b,
{
    if lex_lt(b, a) {
        lemma_lex_lt_trans(a, b, a);
        lemma_lex_lt_irrefl(a);
    }
    if a == b {
        lemma_lex_lt_irrefl(a);
    }
}

/// Comparing two sequences that agree on their first `i` characters is the
/// same as comparing the remaining suffixes.
pub proof fn lemma_lex_skip(a: Seq<char>, b: Seq<char>, i: int)
    requires
        0 <= i <= a.len(),
        i <= b.len(),
        forall|j: int| 0 <= j < i ==> a[j] == b[j],
    ensures
        lex_lt(a, b) <==> lex_lt(
            a.subrange(i, a.len() as int),
            b.subrange(i, b.len() as int),
        ),
        (a == b) <==> (a.subrange(i, a.len() as int) =~= b.subrange(i, b.len() as int)),
    decreases i,
{
    if i == 0 {
        assert(a.subrange(0, a.len() as int) =~= a);
        assert(b.subrange(0, b.len() as int) =~= b);
        if a.subrange(0, a.len() as int) =~= b.subrange(0, b.len() as int) {
            assert(a =~= b);
        }
    } else {
        lemma_lex_skip(a, b, i - 1);
        let a1 = a.subrange(i - 1, a.len() as int);
        let b1 = b.subrange(i - 1, b.len() as int);
        assert(a1[0] == a[i - 1]);
        assert(b1[0] == b[i - 1]);
        assert(a1.drop_first() =~= a.subrange(i, a.len() as int));
        assert(b1.drop_first() =~= b.subrange(i, b.len() as int));
        if a1 =~= b1 {
            assert(a1.drop_first() =~= b1.drop_first());
        }
        if a.subrange(i, a.len() as int) =~= b.subrange(i, b.len() as int) {
            assert forall|k: int| 0 <= k < a1.len() implies a1[k] == b1[k] by {
                if k >= 1 {
                    assert(a1[k] == a1.drop_first()[k - 1]);
                    assert(b1[k] == b1.drop_first()[k - 1]);
                }
            }
            assert(a1 =~= b1);
        }
    }
}

/// Three-way comparison of two names, agreeing with `lex_lt` on their views.
pub fn compare_names(a: &str, b: &str) -> (o: core::cmp::Ordering)
    ensures
        (o == core::cmp::Ordering::Less) == lex_lt(a@, b@),
        (o == core::cmp::Ordering::Equal) == (a@ == b@),
        (o == core::cmp::Ordering::Greater) == lex_lt(b@, a@),
{
    let alen = a.unicode_len();
    let blen = b.unicode_len();
    let mut i: usize = 0;
    loop
        invariant
            0 <= i <= alen,
            i <= blen,
            alen == a@.len(),
            blen == b@.len(),
            forall|j: int| 0 <= j < i ==> a@[j] == b@[j],
        decreases alen - i,
    {
        if i == alen && i == blen {
            proof {
                lemma_lex_skip(a@, b@, i as int);
                lemma_lex_skip(b@, a@, i as int);
                assert(a@.subrange(i as int, a@.len() as int)
                    =~= b@.subrange(i as int, b@.len() as int));
                lemma_lex_lt_irrefl(a@);
            }
            return core::cmp::Ordering::Equal;
        }
        if i == alen {
            proof {
                lemma_lex_skip(a@, b@, i as int);
                lemma_lex_skip(b@, a@, i as int);
                lemma_lex_lt_asym(a@, b@);
            }
            return core::cmp::Ordering::Less;
        }
        if i == blen {
            proof {
                lemma_lex_skip(a@, b@, i as int);
                lemma_lex_skip(b@, a@, i as int);
                lemma_lex_lt_asym(b@, a@);
            }
            return core::cmp::Ordering::Greater;
        }
        let ca = a.get_char(i);
        let cb = b.get_char(i);
        if (ca as u32) < (cb as u32) {
            proof {
                lemma_lex_skip(a@, b@, i as int);
                lemma_lex_skip(b@, a@, i as int);
                lemma_lex_lt_asym(a@, b@);
            }
            return core::cmp::Ordering::Less;
        }
        if (cb as u32) < (ca as u32) {
            proof {
                lemma_lex_skip(a@, b@, i as int);
                lemma_lex_skip(b@, a@, i as int);
                lemma_lex_lt_asym(b@, a@);
            }
            return core::cmp::Ordering::Greater;
        }
        assert(ca == cb);
        i = i + 1;
    }
}

} // verus!
