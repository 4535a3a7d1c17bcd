//! Properties of the evaluation rules, stated over the semantics and proved
//! once for all inputs.

use vstd::prelude::*;

use crate::ast::{Expr, Pat, Stmt};
use crate::env::{
    Environment, distinct_names, lemma_map_of_dom, lemma_map_of_index, lemma_sorted_implies_distinct,
    lookup_s, map_of, sorted_by_name,
};
use crate::error::ErrorV;
use crate::order::{lemma_lex_lt_asym, lex_lt};
use crate::semantics::{eval_block_s, eval_expr_s, eval_place_s, eval_stmt_s};
use crate::value::ValueV;

verus! {

/// Looking up any place in a fresh, empty environment fails with `NotFound`.
pub proof fn lemma_fresh_lookup_not_found(p: Seq<char>)
    ensures
        lookup_s(Map::empty(), p) == Result::<ValueV, ErrorV>::Err(ErrorV::NotFound(p)),
{
    assert(!Map::<Seq<char>, ValueV>::empty().contains_key(p));
}

/// A declaration without an initializer binds the sentinel, and looking the
/// name up before any later assignment fails with `UndefinedRead`.
pub proof fn lemma_declare_then_undefined_read(m: Map<Seq<char>, ValueV>, name: String)
    ensures
        eval_stmt_s(Stmt::Local(Pat::Ident(name), Option::None), m)
            == Result::<Map<Seq<char>, ValueV>, ErrorV>::Ok(m.insert(name@, ValueV::Undefined)),
        lookup_s(m.insert(name@, ValueV::Undefined), name@)
            == Result::<ValueV, ErrorV>::Err(ErrorV::UndefinedRead(name@)),
{
}

/// Re-declaring a name overwrites its previous binding unconditionally:
/// after two literal declarations of the same name, whatever the environment
/// held before, the name resolves to the second literal.
pub proof fn lemma_redeclare_overwrites(
    m: Map<Seq<char>, ValueV>,
    name: String,
    t1: String,
    t2: String,
)
    ensures
        ({
            let two = seq![
                Stmt::Local(Pat::Ident(name), Option::Some(Expr::Lit(t1))),
                Stmt::Local(Pat::Ident(name), Option::Some(Expr::Lit(t2))),
            ];
            let r = eval_block_s(two, m);
            &&& r is Ok
            &&& lookup_s(r->Ok_0, name@) == Result::<ValueV, ErrorV>::Ok(ValueV::Lit(t2@))
        }),
{
    let s1 = Stmt::Local(Pat::Ident(name), Option::Some(Expr::Lit(t1)));
    let s2 = Stmt::Local(Pat::Ident(name), Option::Some(Expr::Lit(t2)));
    let two = seq![s1, s2];
    let m1 = m.insert(name@, ValueV::Lit(t1@));
    let m2 = m1.insert(name@, ValueV::Lit(t2@));
    assert(two[0] == s1);
    assert(eval_stmt_s(s1, m) == Result::<Map<Seq<char>, ValueV>, ErrorV>::Ok(m1));
    assert(two.drop_first() =~= seq![s2]);
    assert(seq![s2][0] == s2);
    assert(eval_stmt_s(s2, m1) == Result::<Map<Seq<char>, ValueV>, ErrorV>::Ok(m2));
    assert(seq![s2].drop_first() =~= Seq::<Stmt>::empty());
    assert(eval_block_s(Seq::<Stmt>::empty(), m2)
        == Result::<Map<Seq<char>, ValueV>, ErrorV>::Ok(m2));
    assert(eval_block_s(seq![s2], m1) == Result::<Map<Seq<char>, ValueV>, ErrorV>::Ok(m2));
    assert(eval_block_s(two, m) == Result::<Map<Seq<char>, ValueV>, ErrorV>::Ok(m2));
}

/// Dereferencing a reference re-reads the referent live, at the moment of
/// access: whatever the referent's place currently holds is what the
/// dereference yields, no matter what it held when the reference was taken.
pub proof fn lemma_deref_reads_live(m: Map<Seq<char>, ValueV>, de: Expr, b: String, a: Seq<char>)
    requires
        (match de {
            Expr::Deref(inner) => *inner == Expr::Path(b),
            _ => false,
        }),
        m.contains_key(b@),
        m[b@] == ValueV::Ref(a),
    ensures
        eval_expr_s(de, m) == (match lookup_s(m, a) {
            Result::Ok(v) => Result::<(ValueV, Map<Seq<char>, ValueV>), ErrorV>::Ok((v, m)),
            Result::Err(er) => Result::<(ValueV, Map<Seq<char>, ValueV>), ErrorV>::Err(er),
        }),
{
    assert(eval_place_s(Expr::Path(b), m) == Result::<Seq<char>, ErrorV>::Ok(b@));
    assert(lookup_s(m, b@) == Result::<ValueV, ErrorV>::Ok(ValueV::Ref(a)));
    assert(eval_place_s(de, m) == Result::<Seq<char>, ErrorV>::Ok(a));
}

/// Assignment through a dereference mutates the ultimate referent, not the
/// reference itself: the written place is the referent `p`, and the binding
/// of the place `q` that holds the reference is untouched by the write.
pub proof fn lemma_assign_through_deref(
    m: Map<Seq<char>, ValueV>,
    ae: Expr,
    q: Seq<char>,
    p: Seq<char>,
)
    requires
        (match ae {
            Expr::Assign(l, _) => match *l {
                Expr::Deref(inner) => eval_place_s(*inner, m) == Result::<Seq<char>, ErrorV>::Ok(q),
                _ => false,
            },
            _ => false,
        }),
        lookup_s(m, q) == Result::<ValueV, ErrorV>::Ok(ValueV::Ref(p)),
    ensures
        (match ae {
            Expr::Assign(_, r) => match eval_expr_s(*r, m) {
                Result::Ok(pr) => {
                    &&& eval_expr_s(ae, m) == Result::<(ValueV, Map<Seq<char>, ValueV>), ErrorV>::Ok(
                        (ValueV::Unit, pr.1.insert(p, pr.0)),
                    )
                    &&& pr.1.insert(p, pr.0)[p] == pr.0
                    &&& q != p ==> pr.1.insert(p, pr.0).contains_key(q) == pr.1.contains_key(q)
                    &&& q != p && pr.1.contains_key(q) ==> pr.1.insert(p, pr.0)[q] == pr.1[q]
                },
                Result::Err(er) => eval_expr_s(ae, m)
                    == Result::<(ValueV, Map<Seq<char>, ValueV>), ErrorV>::Err(er),
            },
            _ => true,
        }),
{
    match ae {
        Expr::Assign(l, _) => {
            assert(eval_place_s(*l, m) == Result::<Seq<char>, ErrorV>::Ok(p));
        },
        _ => {},
    }
}

/// Dereferencing a place that holds a non-reference value fails with
/// `TypeMismatch`, both as a location and as an expression.
pub proof fn lemma_deref_non_reference(m: Map<Seq<char>, ValueV>, de: Expr, q: Seq<char>, v: ValueV)
    requires
        (match de {
            Expr::Deref(inner) => eval_place_s(*inner, m) == Result::<Seq<char>, ErrorV>::Ok(q),
            _ => false,
        }),
        lookup_s(m, q) == Result::<ValueV, ErrorV>::Ok(v),
        !(v is Ref),
    ensures
        eval_place_s(de, m) == Result::<Seq<char>, ErrorV>::Err(ErrorV::TypeMismatch),
        eval_expr_s(de, m) == Result::<(ValueV, Map<Seq<char>, ValueV>), ErrorV>::Err(
            ErrorV::TypeMismatch,
        ),
{
}

/// Two well-formed environments that denote the same map are the same
/// binding sequence, so diagnostic rendering is determined by the bindings
/// alone: it is stable, whatever order they were made in.
pub proof fn lemma_render_deterministic(e1: Environment, e2: Environment)
    requires
        e1.wf(),
        e2.wf(),
        e1.as_map() == e2.as_map(),
    ensures
        e1@ == e2@,
{
    lemma_sorted_entries_unique(e1@, e2@);
}

/// Sorted, duplicate-free binding sequences are determined by the map they
/// denote.
proof fn lemma_sorted_entries_unique(s1: Seq<(Seq<char>, ValueV)>, s2: Seq<(Seq<char>, ValueV)>)
    requires
        sorted_by_name(s1),
        sorted_by_name(s2),
        map_of(s1) == map_of(s2),
    ensures
        s1 == s2,
    decreases s1.len(),
{
    lemma_sorted_implies_distinct(s1);
    lemma_sorted_implies_distinct(s2);
    lemma_map_of_dom(s1);
    lemma_map_of_dom(s2);
    if s1.len() == 0 {
        if s2.len() > 0 {
            assert(map_of(s2).contains_key(s2[0].0));
            assert(false);
        }
        assert(s1 =~= s2);
    } else if s2.len() == 0 {
        assert(map_of(s1).contains_key(s1[0].0));
        assert(false);
    } else {
        let k1 = s1.last().0;
        let k2 = s2.last().0;
        assert(map_of(s1).contains_key(k1)) by {
            assert(s1[s1.len() - 1].0 == k1);
        }
        assert(map_of(s2).contains_key(k2)) by {
            assert(s2[s2.len() - 1].0 == k2);
        }
        lemma_last_is_largest(s1, k2);
        lemma_last_is_largest(s2, k1);
        assert(k1 == k2) by {
            if k1 != k2 {
                lemma_lex_lt_asym(k1, k2);
            }
        }
        lemma_map_of_index(s1, s1.len() - 1);
        lemma_map_of_index(s2, s2.len() - 1);
        assert(s1.last().1 == s2.last().1);
        let d1 = s1.drop_last();
        let d2 = s2.drop_last();
        assert(sorted_by_name(d1)) by {
            assert(forall|i: int, j: int|
                0 <= i < j < d1.len() ==> s1[i] == d1[i] && s1[j] == d1[j]);
        }
        assert(sorted_by_name(d2)) by {
            assert(forall|i: int, j: int|
                0 <= i < j < d2.len() ==> s2[i] == d2[i] && s2[j] == d2[j]);
        }
        assert(map_of(d1) =~= map_of(d2)) by {
            lemma_drop_last_map(s1);
            lemma_drop_last_map(s2);
        }
        lemma_sorted_entries_unique(d1, d2);
        assert(d1.len() == s1.len() - 1);
        assert(d2.len() == s2.len() - 1);
        assert(s1.len() == s2.len());
        assert forall|i: int| 0 <= i < s1.len() implies s1[i] == s2[i] by {
            if i < s1.len() - 1 {
                assert(s1[i] == d1[i]);
                assert(s2[i] == d2[i]);
            } else {
                assert(s1[i] == s1.last());
                assert(s2[i] == s2.last());
            }
        }
        assert(s1 =~= s2);
    }
}

/// In a map shared by two sorted sequences, each one's last name cannot sort
/// after the other's, so the last name is the same in both.
proof fn lemma_last_is_largest(s: Seq<(Seq<char>, ValueV)>, k: Seq<char>)
    requires
        sorted_by_name(s),
        s.len() > 0,
        map_of(s).contains_key(k),
    ensures
        k == s.last().0 || lex_lt(k, s.last().0),
{
    lemma_map_of_dom(s);
    let i = choose|i: int| 0 <= i < s.len() && #[trigger] s[i].0 == k;
    if i < s.len() - 1 {
        assert(lex_lt(s[i].0, s[s.len() - 1].0));
    }
}

/// Removing the last entry of a sorted, duplicate-free sequence removes
/// exactly its name from the denoted map.
proof fn lemma_drop_last_map(s: Seq<(Seq<char>, ValueV)>)
    requires
        distinct_names(s),
        s.len() > 0,
    ensures
        map_of(s.drop_last()) == map_of(s).remove(s.last().0),
{
    let d = s.drop_last();
    let k = s.last().0;
    lemma_map_of_dom(s);
    lemma_map_of_dom(d);
    assert forall|j: int| 0 <= j < d.len() implies #[trigger] d[j].0 != k by {
        assert(s[j].0 != s[s.len() - 1].0);
        assert(d[j] == s[j]);
    }
    assert(!map_of(d).contains_key(k));
    assert(map_of(s) == map_of(d).insert(k, s.last().1));
    assert(map_of(d) =~= map_of(s).remove(k));
}

} // verus!
