//! Provenance: which cells of which trace a value was computed from.

use vstd::prelude::*;
use crate::symbolic::SymbolicExpression;

verus! {

/// What a tracked value came from.
#[derive(Clone, Copy, Debug, PartialEq, Eq, Structural, Hash)]
pub enum Entry {
    Preprocessed { row: usize, col: usize },
    Main { row: usize, col: usize },
    Permutation { row: usize, col: usize },
    Public { index: usize },
    Untracked,
}

impl Entry {
    /// The place of the entry in the order of entries: first by kind, in the
    /// order in which the kinds are declared, then by row or index, then by
    /// column.
    pub open spec fn key(self) -> (int, int, int) {
        match self {
            Entry::Preprocessed { row, col } => (0, row as int, col as int),
            Entry::Main { row, col } => (1, row as int, col as int),
            Entry::Permutation { row, col } => (2, row as int, col as int),
            Entry::Public { index } => (3, index as int, 0),
            Entry::Untracked => (4, 0, 0),
        }
    }

    /// Whether this entry comes before `other`.
    pub open spec fn before(self, other: Entry) -> bool {
        let a = self.key();
        let b = other.key();
        a.0 < b.0 || (a.0 == b.0 && (a.1 < b.1 || (a.1 == b.1 && a.2 < b.2)))
    }

    /// Two entries with the same place are the same entry.
    pub proof fn lemma_key_injective(a: Entry, b: Entry)
        ensures
            a.key() == b.key() <==> a == b,
    {
    }

    fn parts(&self) -> (r: (u8, usize, usize))
        ensures
            (r.0 as int, r.1 as int, r.2 as int) == self.key(),
    {
        match self {
            Entry::Preprocessed { row, col } => (0, *row, *col),
            Entry::Main { row, col } => (1, *row, *col),
            Entry::Permutation { row, col } => (2, *row, *col),
            Entry::Public { index } => (3, *index, 0),
            Entry::Untracked => (4, 0, 0),
        }
    }

    /// Tests whether this entry comes before `other`.
    pub fn is_before(&self, other: &Entry) -> (r: bool)
        ensures
            r == self.before(*other),
    {
        let a = self.parts();
        let b = other.parts();
        a.0 < b.0 || (a.0 == b.0 && (a.1 < b.1 || (a.1 == b.1 && a.2 < b.2)))
    }
}

/// Whether the entries are in order, with none twice.
pub open spec fn strictly_sorted(s: Seq<Entry>) -> bool {
    forall|i: int, j: int| 0 <= i < j < s.len() ==> (#[trigger] s[i]).before(#[trigger] s[j])
}

/// Puts `e` at its place among sorted entries, unless it is there already.
pub fn insert_entry(entries: &mut Vec<Entry>, e: Entry)
    requires
        strictly_sorted(old(entries)@),
    ensures
        strictly_sorted(final(entries)@),
        forall|x: Entry| final(entries)@.contains(x) <==> (old(entries)@.contains(x) || x == e),
{
    let mut i: usize = 0;
    while i < entries.len() && entries[i].is_before(&e)
        invariant
            i <= entries@.len(),
            entries@ == old(entries)@,
            forall|j: int| 0 <= j < i ==> (#[trigger] entries@[j]).before(e),
        decreases entries@.len() - i,
    {
        i += 1;
    }
    if i < entries.len() && !e.is_before(&entries[i]) {
        proof {
            Entry::lemma_key_injective(e, entries@[i as int]);
            assert(entries@.contains(e));
        }
        return ;
    }
    let ghost before = entries@;
    entries.insert(i, e);
    proof {
        let after = entries@;
        assert(after.len() == before.len() + 1);
        assert forall|j: int| 0 <= j < after.len() implies #[trigger] after[j] == (if j < i {
            before[j]
        } else if j == i {
            e
        } else {
            before[j - 1]
        }) by {}
        assert forall|a: int, b: int| 0 <= a < b < after.len() implies (#[trigger] after[a]).before(
            #[trigger] after[b],
        ) by {
            if b < i {
                assert(before[a].before(before[b]));
            } else if b == i {
                assert(before[a].before(e));
            } else {
                if a < i {
                    assert(before[a].before(before[b - 1]));
                } else if a == i {
                    if b - 1 > i {
                        assert(before[i as int].before(before[b - 1]));
                    }
                    assert(e.before(before[b - 1]));
                } else {
                    assert(before[a - 1].before(before[b - 1]));
                }
            }
        }
        assert forall|x: Entry| after.contains(x) <==> (before.contains(x) || x == e) by {
            if after.contains(x) {
                let j = choose|j: int| 0 <= j < after.len() && after[j] == x;
                if j < i {
                    assert(before[j] == x);
                } else if j > i {
                    assert(before[j - 1] == x);
                }
            }
            if before.contains(x) {
                let j = choose|j: int| 0 <= j < before.len() && before[j] == x;
                if j < i {
                    assert(after[j] == x);
                } else {
                    assert(after[j + 1] == x);
                }
            }
            if x == e {
                assert(after[i as int] == x);
            }
        }
    }
}

/// The cells and public values that an expression reads when its window
/// stands on row `row` and the row after it is `next_row`.
pub open spec fn expr_entries(e: SymbolicExpression, row: usize, next_row: usize) -> Set<Entry>
    decreases e,
{
    match e {
        SymbolicExpression::Constant(_) => Set::empty(),
        SymbolicExpression::Preprocessed { next, column } => set![Entry::Preprocessed {
            row: if next { next_row } else { row },
            col: column,
        }],
        SymbolicExpression::Main { next, column } => set![Entry::Main {
            row: if next { next_row } else { row },
            col: column,
        }],
        SymbolicExpression::Permutation { next, column } => set![Entry::Permutation {
            row: if next { next_row } else { row },
            col: column,
        }],
        SymbolicExpression::Public { index } => set![Entry::Public { index }],
        SymbolicExpression::ChallengePower { index, power } => Set::empty(),
        SymbolicExpression::CumulativeSum => Set::empty(),
        SymbolicExpression::IsFirstRow => Set::empty(),
        SymbolicExpression::IsLastRow => Set::empty(),
        SymbolicExpression::IsTransition => Set::empty(),
        SymbolicExpression::Add(a, b) => expr_entries(*a, row, next_row).union(
            expr_entries(*b, row, next_row),
        ),
        SymbolicExpression::Sub(a, b) => expr_entries(*a, row, next_row).union(
            expr_entries(*b, row, next_row),
        ),
        SymbolicExpression::Mul(a, b) => expr_entries(*a, row, next_row).union(
            expr_entries(*b, row, next_row),
        ),
        SymbolicExpression::Neg(a) => expr_entries(*a, row, next_row),
    }
}

/// Adds to sorted entries what an expression reads.
pub fn collect_entries(e: &SymbolicExpression, row: usize, next_row: usize, entries: &mut Vec<Entry>)
    requires
        strictly_sorted(old(entries)@),
    ensures
        strictly_sorted(final(entries)@),
        forall|x: Entry|
            final(entries)@.contains(x) <==> (old(entries)@.contains(x) || expr_entries(
                *e,
                row,
                next_row,
            ).contains(x)),
    decreases e,
{
    match e {
        SymbolicExpression::Preprocessed { next, column } => {
            let r: usize = if *next {
                next_row
            } else {
                row
            };
            insert_entry(entries, Entry::Preprocessed { row: r, col: *column });
        },
        SymbolicExpression::Main { next, column } => {
            let r: usize = if *next {
                next_row
            } else {
                row
            };
            insert_entry(entries, Entry::Main { row: r, col: *column });
        },
        SymbolicExpression::Permutation { next, column } => {
            let r: usize = if *next {
                next_row
            } else {
                row
            };
            insert_entry(entries, Entry::Permutation { row: r, col: *column });
        },
        SymbolicExpression::Public { index } => {
            insert_entry(entries, Entry::Public { index: *index });
        },
        SymbolicExpression::Add(a, b) => {
            collect_entries(a, row, next_row, entries);
            collect_entries(b, row, next_row, entries);
        },
        SymbolicExpression::Sub(a, b) => {
            collect_entries(a, row, next_row, entries);
            collect_entries(b, row, next_row, entries);
        },
        SymbolicExpression::Mul(a, b) => {
            collect_entries(a, row, next_row, entries);
            collect_entries(b, row, next_row, entries);
        },
        SymbolicExpression::Neg(a) => {
            collect_entries(a, row, next_row, entries);
        },
        _ => {},
    }
}

} // verus!
