//! The classname table: a mapping from classname to a dense slot
//! index.
//!
//! Names are kept sorted lexicographically, so a name's slot is its
//! position in the sorted name list.  This makes the assignment a pure
//! function of the *set* of distinct classnames, independent of the
//! order in which they appear in the source.  The first occurrence's
//! location is retained for diagnostics.

use vstd::prelude::*;

use crate::ast::{RuleList, Style, collected_view, rules_classnames, rules_view, style_view};
use crate::order::{lemma_lex_lt_transitive, lemma_lex_lt_trichotomy, lex_lt, name_eq, name_lt};

verus! {

/// Classnames in sorted order, with the source location of each
/// name's first occurrence.  A name's slot index is its position in
/// `names`.
#[derive(Debug)]
pub struct ClassnameTable {
    pub names: Vec<Vec<char>>,
    pub locs: Vec<usize>,
}

/// Well-formedness: one location per name, names strictly sorted.
pub open spec fn table_wf(t: ClassnameTable) -> bool {
    &&& t.locs@.len() == t.names@.len()
    &&& forall|i: int, j: int|
        0 <= i < j < t.names@.len() ==> lex_lt(t.names@[i]@, t.names@[j]@)
}

/// The names of the table, in slot order.
pub open spec fn table_names(t: ClassnameTable) -> Seq<Seq<char>> {
    t.names@.map_values(|n: Vec<char>| n@)
}

/// Whether the table holds `n`.
pub open spec fn table_contains(t: ClassnameTable, n: Seq<char>) -> bool {
    exists|i: int| 0 <= i < t.names@.len() && t.names@[i]@ == n
}

/// The slot of a name held by the table.
pub open spec fn table_index(t: ClassnameTable, n: Seq<char>) -> int {
    choose|i: int| 0 <= i < t.names@.len() && t.names@[i]@ == n
}

/// The table as a map from name to recorded location.
pub open spec fn table_model(t: ClassnameTable) -> Map<Seq<char>, nat> {
    Map::new(
        |n: Seq<char>| table_contains(t, n),
        |n: Seq<char>| t.locs@[table_index(t, n)] as nat,
    )
}

/// In a well-formed table each name occurs at exactly one slot.
pub proof fn lemma_table_index_unique(t: ClassnameTable, i: int)
    requires
        table_wf(t),
        0 <= i < t.names@.len(),
    ensures
        table_contains(t, t.names@[i]@),
        table_index(t, t.names@[i]@) == i,
{
    let n = t.names@[i]@;
    assert(table_contains(t, n));
    let j = table_index(t, n);
    if j != i {
        lemma_lex_lt_trichotomy(n, n);
        if j < i {
            assert(lex_lt(t.names@[j]@, t.names@[i]@));
        } else {
            assert(lex_lt(t.names@[i]@, t.names@[j]@));
        }
        assert(false);
    }
}

/// Slots are ranks: a name's slot index equals the number of table
/// names lexicographically smaller than it, whatever order the names
/// were inserted in.
pub proof fn lemma_sorted_slot_assignment(t: ClassnameTable, i: int, j: int)
    requires
        table_wf(t),
        0 <= i < t.names@.len(),
        0 <= j < t.names@.len(),
    ensures
        lex_lt(t.names@[j]@, t.names@[i]@) <==> j < i,
{
    lemma_lex_lt_trichotomy(t.names@[j]@, t.names@[i]@);
    if j == i {
        lemma_lex_lt_trichotomy(t.names@[i]@, t.names@[i]@);
    }
}

impl ClassnameTable {
    /// The empty table.
    pub fn new() -> (t: ClassnameTable)
        ensures
            table_wf(t),
            table_model(t) == Map::<Seq<char>, nat>::empty(),
            t.names@.len() == 0,
    {
        let t = ClassnameTable { names: Vec::new(), locs: Vec::new() };
        proof {
            assert(table_model(t) =~= Map::<Seq<char>, nat>::empty());
        }
        t
    }

    /// Inserts a name at its sorted position.  A name that is already
    /// present is left alone, so the location of the first insertion
    /// wins.
    pub fn insert(&mut self, name: Vec<char>, loc: usize)
        requires
            table_wf(*old(self)),
        ensures
            table_wf(*final(self)),
            table_model(*final(self)) == (if table_contains(*old(self), name@) {
                table_model(*old(self))
            } else {
                table_model(*old(self)).insert(name@, loc as nat)
            }),
            forall|n: Seq<char>|
                table_contains(*final(self), n) <==> (table_contains(*old(self), n) || n
                    == name@),
            table_contains(*old(self), name@) ==> *final(self) == *old(self),
            final(self).names@.len() == old(self).names@.len() + (
            if table_contains(*old(self), name@) {
                0int
            } else {
                1int
            }),
    {
        let ghost nm = name@;
        let mut p: usize = 0;
        while p < self.names.len() && name_lt(&self.names[p], &name)
            invariant
                *self == *old(self),
                table_wf(*self),
                nm == name@,
                0 <= p <= self.names@.len(),
                forall|k: int| 0 <= k < p ==> lex_lt(self.names@[k]@, nm),
            decreases self.names@.len() - p,
        {
            p += 1;
        }
        let mut present = false;
        if p < self.names.len() {
            if name_eq(&self.names[p], &name) {
                present = true;
            }
        }
        if present {
            proof {
                assert(self.names@[p as int]@ == nm);
                assert(table_contains(*self, nm));
            }
            return;
        }
        proof {
            // the name is not in the table: everything before `p` is
            // smaller, everything at or after `p` is larger
            assert forall|k: int| p <= k < self.names@.len() implies lex_lt(
                nm,
                self.names@[k]@,
            ) by {
                lemma_lex_lt_trichotomy(self.names@[p as int]@, nm);
                if k > p {
                    lemma_lex_lt_transitive(nm, self.names@[p as int]@, self.names@[k]@);
                }
            }
            assert forall|k: int| 0 <= k < self.names@.len() implies self.names@[k]@ != nm by {
                lemma_lex_lt_trichotomy(self.names@[k]@, nm);
            }
            assert(!table_contains(*self, nm));
        }
        let ghost oldt = *self;
        let ghost namev = name;
        self.names.insert(p, name);
        self.locs.insert(p, loc);
        proof {
            oldt.names@.insert_ensures(p as int, namev);
            oldt.locs@.insert_ensures(p as int, loc);
            assert(self.names@[p as int]@ == nm);
            // sortedness of the new name list
            assert forall|i: int, j: int|
                0 <= i < j < self.names@.len() implies lex_lt(
                self.names@[i]@,
                self.names@[j]@,
            ) by {
                if j < p {
                    assert(self.names@[i]@ == oldt.names@[i]@);
                    assert(self.names@[j]@ == oldt.names@[j]@);
                } else if j == p {
                    assert(self.names@[i]@ == oldt.names@[i]@);
                } else if i < p {
                    assert(self.names@[i]@ == oldt.names@[i]@);
                    assert(self.names@[j]@ == oldt.names@[j - 1]@);
                } else if i == p {
                    assert(self.names@[j]@ == oldt.names@[j - 1]@);
                } else {
                    assert(self.names@[i]@ == oldt.names@[i - 1]@);
                    assert(self.names@[j]@ == oldt.names@[j - 1]@);
                }
            }
            // membership: exactly the old names plus the new one
            assert forall|n: Seq<char>|
                table_contains(*self, n) <==> (table_contains(oldt, n) || n == nm) by {
                if table_contains(*self, n) {
                    let i = choose|i: int|
                        0 <= i < self.names@.len() && self.names@[i]@ == n;
                    if i < p {
                        assert(oldt.names@[i]@ == n);
                    } else if i > p {
                        assert(oldt.names@[i - 1]@ == n);
                    }
                }
                if table_contains(oldt, n) {
                    let i = choose|i: int|
                        0 <= i < oldt.names@.len() && oldt.names@[i]@ == n;
                    if i < p {
                        assert(self.names@[i]@ == n);
                    } else {
                        assert(self.names@[i + 1]@ == n);
                    }
                }
                if n == nm {
                    assert(self.names@[p as int]@ == n);
                }
            }
            // the model gains exactly one binding
            let m0 = table_model(oldt);
            let m1 = table_model(*self);
            assert forall|n: Seq<char>| m1.dom().contains(n) implies m1[n] == (
            if n == nm {
                loc as nat
            } else {
                m0[n]
            }) by {
                if n == nm {
                    lemma_table_index_unique(*self, p as int);
                    assert(self.locs@[p as int] == loc);
                } else {
                    let i = choose|i: int|
                        0 <= i < oldt.names@.len() && oldt.names@[i]@ == n;
                    lemma_table_index_unique(oldt, i);
                    if i < p {
                        lemma_table_index_unique(*self, i);
                        assert(self.locs@[i] == oldt.locs@[i]);
                    } else {
                        lemma_table_index_unique(*self, i + 1);
                        assert(self.locs@[i + 1] == oldt.locs@[i]);
                    }
                }
            }
            assert(m1 =~= m0.insert(nm, loc as nat));
        }
    }

    /// Looks a name up; `Some(i)` means the name sits at slot `i`.
    pub fn slot_of(&self, name: &Vec<char>) -> (r: Option<usize>)
        requires
            table_wf(*self),
        ensures
            match r {
                Some(i) => table_contains(*self, name@) && 0 <= i < self.names@.len()
                    && self.names@[i as int]@ == name@ && table_index(*self, name@) == i,
                None => !table_contains(*self, name@),
            },
    {
        let mut i: usize = 0;
        while i < self.names.len()
            invariant
                table_wf(*self),
                0 <= i <= self.names@.len(),
                forall|k: int| 0 <= k < i ==> self.names@[k]@ != name@,
            decreases self.names@.len() - i,
        {
            if name_eq(&self.names[i], name) {
                proof {
                    lemma_table_index_unique(*self, i as int);
                }
                return Some(i);
            }
            i += 1;
        }
        None
    }

    /// The number of distinct classnames.
    pub fn len(&self) -> (n: usize)
        ensures
            n == self.names@.len(),
    {
        self.names.len()
    }
}

// ---------------------------------------------------------------------------
// Building a table from collected classnames
// ---------------------------------------------------------------------------

/// The name-to-location map induced by a collected pair list: each
/// name maps to the location of its first occurrence.
pub open spec fn pairs_model(ps: Seq<(Seq<char>, nat)>) -> Map<Seq<char>, nat>
    decreases ps.len(),
{
    if ps.len() == 0 {
        Map::empty()
    } else {
        let m = pairs_model(ps.take(ps.len() - 1));
        if m.dom().contains(ps.last().0) {
            m
        } else {
            m.insert(ps.last().0, ps.last().1)
        }
    }
}

impl ClassnameTable {
    /// Builds the table from collected `(name, location)` pairs.
    pub fn build(pairs: &Vec<(Vec<char>, usize)>) -> (t: ClassnameTable)
        ensures
            table_wf(t),
            table_model(t) == pairs_model(collected_view(pairs@)),
    {
        let ghost cv = collected_view(pairs@);
        let mut t = ClassnameTable::new();
        let mut i: usize = 0;
        proof {
            assert(cv.take(0) =~= Seq::<(Seq<char>, nat)>::empty());
        }
        while i < pairs.len()
            invariant
                cv == collected_view(pairs@),
                cv.len() == pairs@.len(),
                0 <= i <= pairs@.len(),
                table_wf(t),
                table_model(t) == pairs_model(cv.take(i as int)),
            decreases pairs@.len() - i,
        {
            let name = crate::ast::clone_chars(&pairs[i].0);
            let loc = pairs[i].1;
            proof {
                assert(cv[i as int] == (pairs@[i as int].0@, pairs@[i as int].1 as nat));
            }
            t.insert(name, loc);
            proof {
                let prefix = cv.take(i + 1);
                assert(prefix.take(prefix.len() - 1) =~= cv.take(i as int));
                assert(prefix.last() == cv[i as int]);
                assert(table_model(t) =~= pairs_model(cv.take(i + 1)));
            }
            i += 1;
        }
        proof {
            assert(cv.take(cv.len() as int) =~= cv);
        }
        t
    }
}

impl RuleList {
    /// Resolves a rule list to its classname table: collects every
    /// classname reference in the tree (however deeply nested inside
    /// at-rule bodies) and assigns slots in sorted name order.
    pub fn resolve(&self) -> (t: ClassnameTable)
        ensures
            table_wf(t),
            table_model(t) == pairs_model(rules_classnames(rules_view(self.rules@))),
    {
        let mut pairs: Vec<(Vec<char>, usize)> = Vec::new();
        self.collect_classnames(&mut pairs);
        proof {
            assert(collected_view(pairs@) =~~= rules_classnames(rules_view(self.rules@)));
        }
        ClassnameTable::build(&pairs)
    }
}

impl Style {
    /// The style's distinct classnames, in slot order.
    pub fn get_classnames(&self) -> (r: Vec<Vec<char>>)
        ensures
            forall|i: int, j: int| 0 <= i < j < r@.len() ==> lex_lt(r@[i]@, r@[j]@),
            forall|n: Seq<char>|
                (exists|i: int| 0 <= i < r@.len() && r@[i]@ == n) <==> pairs_model(
                    rules_classnames(style_view(*self).rules),
                ).dom().contains(n),
    {
        let t = self.rules.resolve();
        t.names
    }
}


/// The model of a pair list binds exactly the names that occur in it.
pub proof fn lemma_pairs_model_dom(ps: Seq<(Seq<char>, nat)>)
    ensures
        forall|k: int|
            0 <= k < ps.len() ==> pairs_model(ps).dom().contains(#[trigger] ps[k].0),
        forall|n: Seq<char>|
            pairs_model(ps).dom().contains(n) ==> exists|k: int|
                0 <= k < ps.len() && (#[trigger] ps[k]).0 == n,
    decreases ps.len(),
{
    if ps.len() > 0 {
        lemma_pairs_model_dom(ps.take(ps.len() - 1));
        let front = ps.take(ps.len() - 1);
        let m = pairs_model(front);
        assert(pairs_model(ps) == (if m.dom().contains(ps.last().0) {
            m
        } else {
            m.insert(ps.last().0, ps.last().1)
        }));
        assert forall|k: int|
            0 <= k < ps.len() implies pairs_model(ps).dom().contains(#[trigger] ps[k].0) by {
            if k < ps.len() - 1 {
                assert(front[k] == ps[k]);
                assert(m.dom().contains(ps[k].0));
            } else {
                assert(ps[k].0 == ps.last().0);
            }
        }
        assert forall|n: Seq<char>|
            pairs_model(ps).dom().contains(n) implies exists|k: int|
            0 <= k < ps.len() && (#[trigger] ps[k]).0 == n by {
            if m.dom().contains(n) {
                let k0 = choose|k0: int| 0 <= k0 < front.len() && (#[trigger] front[k0]).0 == n;
                assert((ps[k0]).0 == n);
            } else {
                assert(n == ps.last().0);
                assert((ps[ps.len() - 1]).0 == n);
            }
        }
    }
}

} // verus!
