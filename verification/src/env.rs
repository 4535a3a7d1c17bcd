//! The environment: a flat, mutable binding store mapping places to values.
//! Keys are unique; entries are kept sorted by name so that diagnostic
//! rendering is deterministic.

use vstd::prelude::*;
use vstd::map::*;
use vstd::string::StringExecFns;

use crate::error::{ErrorV, EvalError, res_view};
use crate::order::{compare_names, lex_lt, lemma_lex_lt_asym, lemma_lex_lt_trans};
use crate::value::{Place, Value, ValueV, render_value_s};

verus! {

/// Entries sorted strictly ascending by name.
pub open spec fn sorted_by_name(s: Seq<(Seq<char>, ValueV)>) -> bool {
    forall|i: int, j: int|
        0 <= i < j < s.len() ==> #[trigger] lex_lt(s[i].0, s[j].0)
}

/// No two entries bind the same name.
pub open spec fn distinct_names(s: Seq<(Seq<char>, ValueV)>) -> bool {
    forall|i: int, j: int|
        0 <= i < s.len() && 0 <= j < s.len() && i != j ==> #[trigger] s[i].0 != #[trigger] s[j].0
}

pub proof fn lemma_sorted_implies_distinct(s: Seq<(Seq<char>, ValueV)>)
    requires
        sorted_by_name(s),
    ensures
        distinct_names(s),
{
    assert forall|i: int, j: int|
        0 <= i < s.len() && 0 <= j < s.len() && i != j implies #[trigger] s[i].0 != #[trigger] s[j].0 by {
        if i < j {
            lemma_lex_lt_asym(s[i].0, s[j].0);
        } else {
            lemma_lex_lt_asym(s[j].0, s[i].0);
        }
    }
}

/// The finite map that a sequence of bindings denotes; a later entry for the
/// same name would win, though well-formed environments never hold one.
pub open spec fn map_of(s: Seq<(Seq<char>, ValueV)>) -> Map<Seq<char>, ValueV>
    decreases s.len(),
{
    if s.len() == 0 {
        Map::empty()
    } else {
        map_of(s.drop_last()).insert(s.last().0, s.last().1)
    }
}

pub proof fn lemma_map_of_dom(s: Seq<(Seq<char>, ValueV)>)
    ensures
        forall|k: Seq<char>|
            #[trigger] map_of(s).contains_key(k) <==> (exists|i: int|
                0 <= i < s.len() && #[trigger] s[i].0 == k),
    decreases s.len(),
{
    if s.len() > 0 {
        lemma_map_of_dom(s.drop_last());
        assert forall|k: Seq<char>| #[trigger] map_of(s).contains_key(k) implies (exists|i: int|
            0 <= i < s.len() && #[trigger] s[i].0 == k) by {
            if k == s.last().0 {
                assert(s[s.len() - 1].0 == k);
            } else {
                assert(map_of(s.drop_last()).contains_key(k));
                let i = choose|i: int|
                    0 <= i < s.drop_last().len() && #[trigger] s.drop_last()[i].0 == k;
                assert(s.drop_last()[i] == s[i]);
                assert(s[i].0 == k);
            }
        }
        assert forall|k: Seq<char>| (exists|i: int|
            0 <= i < s.len() && #[trigger] s[i].0 == k) implies #[trigger] map_of(s).contains_key(k) by {
            let i = choose|i: int| 0 <= i < s.len() && #[trigger] s[i].0 == k;
            if i < s.len() - 1 {
                assert(s.drop_last()[i] == s[i]);
                assert(s.drop_last()[i].0 == k);
                assert(map_of(s.drop_last()).contains_key(k));
            }
        }
    }
}

pub proof fn lemma_map_of_index(s: Seq<(Seq<char>, ValueV)>, i: int)
    requires
        distinct_names(s),
        0 <= i < s.len(),
    ensures
        map_of(s).contains_key(s[i].0),
        map_of(s)[s[i].0] == s[i].1,
    decreases s.len(),
{
    lemma_map_of_dom(s);
    if i == s.len() - 1 {
        assert(map_of(s)[s.last().0] == s.last().1);
    } else {
        assert(s[i].0 != s.last().0);
        assert forall|m: int, n: int|
            0 <= m < s.drop_last().len() && 0 <= n < s.drop_last().len() && m != n
            implies #[trigger] s.drop_last()[m].0 != #[trigger] s.drop_last()[n].0 by {
            assert(s[m].0 != s[n].0);
        }
        lemma_map_of_index(s.drop_last(), i);
        assert(s.drop_last()[i] == s[i]);
    }
}

/// How `lookup` decides: absent places fail with `NotFound`, places still
/// holding the sentinel fail with `UndefinedRead`, anything else is returned.
pub open spec fn lookup_s(m: Map<Seq<char>, ValueV>, p: Seq<char>) -> Result<ValueV, ErrorV> {
    if !m.contains_key(p) {
        Result::Err(ErrorV::NotFound(p))
    } else if m[p] is Undefined {
        Result::Err(ErrorV::UndefinedRead(p))
    } else {
        Result::Ok(m[p])
    }
}

/// The diagnostic line of one binding: `name ↦ value`, newline-terminated.
pub open spec fn render_entry_s(k: Seq<char>, v: ValueV) -> Seq<char> {
    k + " ↦ "@ + render_value_s(v) + "\n"@
}

/// The diagnostic text of a binding sequence, one line per entry, in order.
pub open spec fn render_env_s(s: Seq<(Seq<char>, ValueV)>) -> Seq<char>
    decreases s.len(),
{
    if s.len() == 0 {
        Seq::empty()
    } else {
        render_env_s(s.drop_last()) + render_entry_s(s.last().0, s.last().1)
    }
}

/// The mutable binding store for one block evaluation.
#[derive(Debug)]
pub struct Environment {
    entries: Vec<(Place, Value)>,
}

impl View for Environment {
    type V = Seq<(Seq<char>, ValueV)>;

    closed spec fn view(&self) -> Seq<(Seq<char>, ValueV)> {
        self.entries@.map_values(|e: (Place, Value)| (e.0@, e.1@))
    }
}

impl Environment {
    /// Well-formed environments keep their entries sorted strictly by name,
    /// which also makes names unique.
    pub open spec fn wf(self) -> bool {
        sorted_by_name(self@)
    }

    /// The map this environment denotes.
    pub open spec fn as_map(self) -> Map<Seq<char>, ValueV> {
        map_of(self@)
    }

    /// Returns the value bound to a place, or why it cannot be read.
    /// Callers receive a copy, never a live handle into the store.
    pub fn lookup(&self, place: &Place) -> (r: Result<Value, EvalError>)
        requires
            self.wf(),
        ensures
            res_view(r) == lookup_s(self.as_map(), place@),
    {
        proof {
            lemma_sorted_implies_distinct(self@);
            lemma_map_of_dom(self@);
        }
        let n = self.entries.len();
        let mut i: usize = 0;
        while i < n
            invariant
                i <= n,
                n == self.entries.len(),
                self.wf(),
                forall|j: int| 0 <= j < i ==> self@[j].0 != place@,
            decreases n - i,
        {
            let entry = &self.entries[i];
            let o = compare_names(entry.0.as_str(), place.as_str());
            if matches!(o, core::cmp::Ordering::Equal) {
                proof {
                    lemma_sorted_implies_distinct(self@);
                    lemma_map_of_index(self@, i as int);
                }
                match &entry.1 {
                    Value::Undefined => {
                        return Result::Err(EvalError::UndefinedRead(place.clone()));
                    },
                    v => {
                        return Result::Ok(v.duplicate());
                    },
                }
            }
            i = i + 1;
        }
        proof {
            lemma_map_of_dom(self@);
        }
        Result::Err(EvalError::NotFound(place.clone()))
    }

    /// Unconditional upsert: binds the place to the value, making any prior
    /// binding for that place unobservable. Never fails.
    pub fn insert(&mut self, place: Place, value: Value)
        requires
            old(self).wf(),
        ensures
            final(self).wf(),
            final(self).as_map() == old(self).as_map().insert(place@, value@),
    {
        let n = self.entries.len();
        let mut i: usize = 0;
        while i < n
            invariant
                i <= n,
                n == self.entries.len(),
                self == old(self),
                self.wf(),
                forall|j: int| 0 <= j < i ==> lex_lt(#[trigger] self@[j].0, place@),
            decreases n - i,
        {
            let o = compare_names(self.entries[i].0.as_str(), place.as_str());
            match o {
                core::cmp::Ordering::Less => {
                    i = i + 1;
                },
                core::cmp::Ordering::Equal => {
                    let ghost k = self@[i as int].0;
                    self.entries.remove(i);
                    self.entries.insert(i, (place, value));
                    proof {
                        lemma_replace_at(old(self)@, self@, i as int, k, value@);
                    }
                    return ;
                },
                core::cmp::Ordering::Greater => {
                    self.entries.insert(i, (place, value));
                    proof {
                        assert forall|j: int| i as int <= j < old(self)@.len()
                            implies lex_lt(place@, #[trigger] old(self)@[j].0) by {
                            if j > i as int {
                                lemma_lex_lt_trans(place@, old(self)@[i as int].0, old(self)@[j].0);
                            }
                        }
                        lemma_insert_fresh_at(old(self)@, self@, i as int, place@, value@);
                    }
                    return ;
                },
            }
        }
        self.entries.insert(i, (place, value));
        proof {
            lemma_insert_fresh_at(old(self)@, self@, i as int, place@, value@);
        }
    }

    /// Diagnostic rendering: one line per binding, `name ↦ value`. A
    /// well-formed environment lists its bindings sorted ascending by name.
    pub fn render(&self) -> (r: String)
        ensures
            r@ == render_env_s(self@),
    {
        let mut out = String::new();
        let n = self.entries.len();
        let mut i: usize = 0;
        while i < n
            invariant
                i <= n,
                n == self.entries.len(),
                out@ == render_env_s(self@.take(i as int)),
            decreases n - i,
        {
            let entry = &self.entries[i];
            out.append(entry.0.as_str());
            out.append(" ↦ ");
            let vt = entry.1.render();
            out.append(vt.as_str());
            out.append("\n");
            proof {
                let t = self@.take(i + 1 as int);
                assert(t.drop_last() =~= self@.take(i as int));
                assert(t.last() == self@[i as int]);
                assert(out@ =~= render_env_s(t));
            }
            i = i + 1;
        }
        proof {
            assert(self@.take(n as int) =~= self@);
        }
        out
    }
}

impl Default for Environment {
    /// A fresh, empty environment.
    fn default() -> (r: Environment)
        ensures
            r@ == Seq::<(Seq<char>, ValueV)>::empty(),
            r.as_map() == Map::<Seq<char>, ValueV>::empty(),
            r.wf(),
    {
        let e = Environment { entries: Vec::new() };
        proof {
            assert(e@ =~= Seq::<(Seq<char>, ValueV)>::empty());
        }
        e
    }
}

/// Replacing the entry at a position with one for the same name leaves the
/// entries sorted and updates the denoted map at that name alone.
proof fn lemma_replace_at(
    s0: Seq<(Seq<char>, ValueV)>,
    s1: Seq<(Seq<char>, ValueV)>,
    i: int,
    k: Seq<char>,
    v: ValueV,
)
    requires
        sorted_by_name(s0),
        0 <= i < s0.len(),
        s0[i].0 == k,
        s1 =~= s0.remove(i).insert(i, (k, v)),
    ensures
        sorted_by_name(s1),
        map_of(s1) == map_of(s0).insert(k, v),
{
    assert(s1 =~= s0.update(i, (k, v)));
    assert forall|m: int, n: int| 0 <= m < n < s1.len() implies #[trigger] lex_lt(s1[m].0, s1[n].0) by {
        assert(s1[m].0 == s0[m].0);
        assert(s1[n].0 == s0[n].0);
    }
    lemma_sorted_implies_distinct(s0);
    lemma_sorted_implies_distinct(s1);
    lemma_map_of_dom(s0);
    lemma_map_of_dom(s1);
    assert forall|p: Seq<char>|
        map_of(s1).contains_key(p) <==> map_of(s0).insert(k, v).contains_key(p) by {
        if map_of(s1).contains_key(p) {
            let j = choose|j: int| 0 <= j < s1.len() && #[trigger] s1[j].0 == p;
            assert(s0[j].0 == p);
        }
        if map_of(s0).contains_key(p) {
            let j = choose|j: int| 0 <= j < s0.len() && #[trigger] s0[j].0 == p;
            assert(s1[j].0 == p);
        }
        if p == k {
            assert(s1[i].0 == p);
        }
    }
    assert forall|p: Seq<char>| #[trigger] map_of(s1).contains_key(p)
        implies map_of(s1)[p] == map_of(s0).insert(k, v)[p] by {
        let j = choose|j: int| 0 <= j < s1.len() && #[trigger] s1[j].0 == p;
        lemma_map_of_index(s1, j);
        if j == i {
            assert(map_of(s1)[p] == v);
        } else {
            assert(s0[j].0 == p);
            assert(p != k);
            lemma_map_of_index(s0, j);
        }
    }
    assert(map_of(s1) =~= map_of(s0).insert(k, v));
}

/// Inserting an entry for a fresh name between its sorted neighbours leaves
/// the entries sorted and adds exactly that binding to the denoted map.
proof fn lemma_insert_fresh_at(
    s0: Seq<(Seq<char>, ValueV)>,
    s1: Seq<(Seq<char>, ValueV)>,
    i: int,
    k: Seq<char>,
    v: ValueV,
)
    requires
        sorted_by_name(s0),
        0 <= i <= s0.len(),
        forall|j: int| 0 <= j < i ==> lex_lt(#[trigger] s0[j].0, k),
        forall|j: int| i <= j < s0.len() ==> lex_lt(k, #[trigger] s0[j].0),
        s1 =~= s0.insert(i, (k, v)),
    ensures
        sorted_by_name(s1),
        map_of(s1) == map_of(s0).insert(k, v),
{
    assert forall|m: int, n: int| 0 <= m < n < s1.len() implies #[trigger] lex_lt(s1[m].0, s1[n].0) by {
        if m < i && n < i {
            assert(s1[m] == s0[m] && s1[n] == s0[n]);
        } else if m < i && n == i {
            assert(s1[m] == s0[m]);
        } else if m < i && n > i {
            assert(s1[m] == s0[m] && s1[n] == s0[n - 1]);
            lemma_lex_lt_trans(s0[m].0, k, s0[n - 1].0);
        } else if m == i && n > i {
            assert(s1[n] == s0[n - 1]);
        } else {
            assert(s1[m] == s0[m - 1] && s1[n] == s0[n - 1]);
        }
    }
    lemma_sorted_implies_distinct(s0);
    lemma_sorted_implies_distinct(s1);
    lemma_map_of_dom(s0);
    lemma_map_of_dom(s1);
    assert forall|j: int| 0 <= j < s0.len() implies s0[j].0 != k by {
        if j < i {
            lemma_lex_lt_asym(s0[j].0, k);
        } else {
            lemma_lex_lt_asym(k, s0[j].0);
        }
    }
    assert forall|p: Seq<char>|
        map_of(s1).contains_key(p) <==> map_of(s0).insert(k, v).contains_key(p) by {
        if map_of(s1).contains_key(p) {
            let j = choose|j: int| 0 <= j < s1.len() && #[trigger] s1[j].0 == p;
            if j < i {
                assert(s0[j].0 == p);
            } else if j > i {
                assert(s0[j - 1].0 == p);
            }
        }
        if map_of(s0).contains_key(p) {
            let j = choose|j: int| 0 <= j < s0.len() && #[trigger] s0[j].0 == p;
            if j < i {
                assert(s1[j].0 == p);
            } else {
                assert(s1[j + 1].0 == p);
            }
        }
        if p == k {
            assert(s1[i].0 == p);
        }
    }
    assert forall|p: Seq<char>| #[trigger] map_of(s1).contains_key(p)
        implies map_of(s1)[p] == map_of(s0).insert(k, v)[p] by {
        let j = choose|j: int| 0 <= j < s1.len() && #[trigger] s1[j].0 == p;
        lemma_map_of_index(s1, j);
        if j == i {
            assert(map_of(s1)[p] == v);
        } else if j < i {
            assert(s0[j].0 == p);
            lemma_map_of_index(s0, j);
        } else {
            assert(s0[j - 1].0 == p);
            lemma_map_of_index(s0, j - 1);
        }
    }
    assert(map_of(s1) =~= map_of(s0).insert(k, v));
}

} // verus!
