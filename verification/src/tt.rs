//! A Zobrist-keyed transposition table for the search.
//!
//! Each entry caches the result of a previously searched node: its best move,
//! the score, the depth it was searched to, and whether that score is exact or
//! a bound (alpha/beta cutoff). Indexed by the low bits of the position key;
//! the full key is stored for collision detection.
use crate::moves::Move;
use vstd::prelude::*;

verus! {

/// The kind of bound a stored score represents.
#[derive(Clone, Copy, PartialEq, Eq, Structural, Debug)]
pub enum Bound {
    /// No entry.
    Empty,
    /// Exact score (the node was a PV node, score is precise).
    Exact,
    /// Lower bound (a beta cutoff: the true score is ≥ stored).
    Lower,
    /// Upper bound (failed low: the true score is ≤ stored).
    Upper,
}

/// One table slot.
#[derive(Clone, Copy, PartialEq, Eq, Structural)]
pub struct Entry {
    pub key: u64,
    pub mv: Move,
    pub score: i16,
    pub depth: i8,
    pub bound: Bound,
    pub age: u8,
}

/// Bytes taken by one [`Entry`].
pub const ENTRY_BYTES: usize = 16;

/// An unused slot.
pub open spec fn empty_entry() -> Entry {
    Entry { key: 0, mv: Move(0), score: 0, depth: 0, bound: Bound::Empty, age: 0 }
}

/// Data returned from a successful probe.
#[derive(Clone, Copy, Debug)]
pub struct TtData {
    pub mv: Move,
    pub score: i32,
    pub depth: i32,
    pub bound: Bound,
}

/// A fixed-size transposition table (power-of-two number of entries).
pub struct Tt {
    table: Vec<Entry>,
    mask: usize,
    age: u8,
}

/// `n` is a power of two.
pub open spec fn is_pow2(n: int) -> bool
    decreases n,
{
    if n <= 0 {
        false
    } else if n == 1 {
        true
    } else {
        n % 2 == 0 && is_pow2(n / 2)
    }
}

/// The entry count `Tt::new` picks for a budget of `mb` MiB: the largest
/// power of two whose entries fit the budget, at least 1024.
pub open spec fn entries_for(mb: int, p: int) -> bool {
    let bytes = (if mb < 1 {
        1
    } else {
        mb
    }) * 1024 * 1024;
    let want = if bytes / 16 < 1024 {
        1024
    } else {
        bytes / 16
    };
    // `q` is the least power of two at or above `want`.
    exists|q: int|
        is_pow2(q) && q >= want && q / 2 < want && p == if q * 16 > bytes {
            if q / 2 < 1024 {
                1024
            } else {
                q / 2
            }
        } else {
            q
        }
}

/// The slot index of a key in a table of `len` entries.
pub open spec fn slot(key: u64, len: int) -> int {
    ((key as usize) & ((len - 1) as usize)) as int
}

impl Tt {
    /// The slots, the index mask and the search generation.
    pub closed spec fn entries(&self) -> Seq<Entry> {
        self.table@
    }

    pub closed spec fn generation(&self) -> u8 {
        self.age
    }

    /// The slot count is a power of two of at least 1024 and the mask is
    /// one less.
    pub closed spec fn wf(&self) -> bool {
        &&& is_pow2(self.table@.len() as int)
        &&& self.table@.len() >= 1024
        &&& self.mask == self.table@.len() - 1
    }

    /// Create a table of about `mb` mebibytes (rounded down to a power-of-two
    /// entry count, minimum 1024 entries).
    pub fn new(mb: usize) -> (r: Tt)
        requires
            mb * 2097152 <= usize::MAX,
        ensures
            r.wf(),
            entries_for(mb as int, r.entries().len() as int),
            r.entries() == Seq::new(r.entries().len(), |i: int| empty_entry()),
            r.generation() == 0,
    {
        let m = if mb < 1 {
            1
        } else {
            mb
        };
        let bytes = m * 1024 * 1024;
        let size = ENTRY_BYTES;
        let want = if bytes / size < 1024 {
            1024
        } else {
            bytes / size
        };
        assert(want <= bytes && bytes * 2 <= usize::MAX && want >= 1024);
        let mut q: usize = 1;
        while q < want
            invariant
                is_pow2(q as int),
                q >= 1,
                q / 2 < want,
                want * 2 <= usize::MAX,
            decreases want * 2 - q,
        {
            assert(is_pow2(q * 2)) by {
                assert((q * 2) / 2 == q);
            }
            q = q * 2;
        }
        let mut entries = q;
        if entries * size > bytes {
            entries = entries / 2;
        }
        if entries < 1024 {
            entries = 1024;
        }
        assert(is_pow2(entries as int)) by {
            if entries != q && entries != 1024 {
                assert(q % 2 == 0 || q == 1);
            }
            assert(is_pow2(1024)) by {
                reveal_with_fuel(is_pow2, 12);
            }
        }
        let mut table: Vec<Entry> = Vec::new();
        let mut i: usize = 0;
        while i < entries
            invariant
                i <= entries,
                table@ == Seq::new(i as nat, |k: int| empty_entry()),
            decreases entries - i,
        {
            table.push(Entry { key: 0, mv: Move(0), score: 0, depth: 0, bound: Bound::Empty, age: 0 });
            i += 1;
            assert(table@ =~= Seq::new(i as nat, |k: int| empty_entry()));
        }
        Tt { table, mask: entries - 1, age: 0 }
    }
}

/// What probing slot entry `e` for `key` finds.
pub open spec fn probe_spec(e: Entry, key: u64) -> Option<TtData> {
    if e.bound != Bound::Empty && e.key == key {
        Some(TtData { mv: e.mv, score: e.score as i32, depth: e.depth as i32, bound: e.bound })
    } else {
        None
    }
}

/// The slot after storing into `e`: depth-preferred with aging — replace
/// when the slot is empty or from an older search, holds another position,
/// or was searched no deeper; an upper-bound store that lacks a move keeps
/// the slot's move for the same position.
pub open spec fn store_spec(
    e: Entry,
    age: u8,
    key: u64,
    mv: Move,
    score: i32,
    depth: i32,
    bound: Bound,
) -> Entry {
    let replace = e.bound == Bound::Empty || e.age != age || e.key != key || depth as i8 >= e.depth;
    if !replace {
        e
    } else {
        Entry {
            key,
            mv: if mv.0 == 0 && e.key == key {
                e.mv
            } else {
                mv
            },
            score: score as i16,
            depth: depth as i8,
            bound,
            age,
        }
    }
}

/// Entries of the current generation among the first `n` slots.
pub open spec fn used_count(t: Seq<Entry>, age: u8, n: int) -> int
    decreases n,
{
    if n <= 0 {
        0
    } else {
        used_count(t, age, n - 1) + if t[n - 1].bound != Bound::Empty && t[n - 1].age == age {
            1int
        } else {
            0int
        }
    }
}

/// A mask of a power-of-two length keeps indices in range.
proof fn lemma_mask(x: usize, m: usize)
    ensures
        x & m <= m,
{
    assert(x & m <= m) by (bit_vector);
}

impl Tt {
    /// Drop all entries.
    pub fn clear(&mut self)
        requires
            old(self).wf(),
        ensures
            final(self).wf(),
            final(self).entries() == Seq::new(old(self).entries().len(), |i: int| empty_entry()),
            final(self).generation() == 0,
    {
        let n = self.table.len();
        let mut i: usize = 0;
        while i < n
            invariant
                i <= n,
                n == self.table@.len(),
                is_pow2(n as int),
                n >= 1024,
                self.mask == n - 1,
                forall|k: int| 0 <= k < i ==> #[trigger] self.table@[k] == empty_entry(),
            decreases n - i,
        {
            self.table.set(
                i,
                Entry { key: 0, mv: Move(0), score: 0, depth: 0, bound: Bound::Empty, age: 0 },
            );
            i += 1;
        }
        self.age = 0;
        assert(self.table@ =~= Seq::new(n as nat, |i: int| empty_entry()));
    }

    /// Resize to about `mb` MiB, clearing the table.
    pub fn resize(&mut self, mb: usize)
        requires
            mb * 2097152 <= usize::MAX,
        ensures
            final(self).wf(),
            entries_for(mb as int, final(self).entries().len() as int),
            final(self).entries() == Seq::new(final(self).entries().len(), |i: int| empty_entry()),
            final(self).generation() == 0,
    {
        *self = Tt::new(mb);
    }

    /// Begin a new search generation (so old entries can be preferentially
    /// overwritten).
    pub fn new_generation(&mut self)
        requires
            old(self).wf(),
        ensures
            final(self).wf(),
            final(self).entries() == old(self).entries(),
            final(self).generation() == (if old(self).generation() == 255 {
                0
            } else {
                old(self).generation() + 1
            }),
    {
        self.age = if self.age == 255 {
            0
        } else {
            self.age + 1
        };
    }

    /// The slot of `key`.
    fn index(&self, key: u64) -> (r: usize)
        requires
            self.wf(),
        ensures
            r == slot(key, self.entries().len() as int),
            r < self.entries().len(),
    {
        proof {
            lemma_mask(key as usize, self.mask);
        }
        key as usize & self.mask
    }

    /// Look up `key`; returns the cached data if a matching entry exists.
    pub fn probe(&self, key: u64) -> (r: Option<TtData>)
        requires
            self.wf(),
        ensures
            r == probe_spec(self.entries()[slot(key, self.entries().len() as int)], key),
    {
        let e = self.table[self.index(key)];
        if e.bound != Bound::Empty && e.key == key {
            Some(TtData { mv: e.mv, score: e.score as i32, depth: e.depth as i32, bound: e.bound })
        } else {
            None
        }
    }

    /// Store a result. Uses a depth-preferred-with-aging replacement policy:
    /// overwrite when the slot is empty/from an older search, a different
    /// position, or searched at least as deep.
    pub fn store(&mut self, key: u64, mv: Move, score: i32, depth: i32, bound: Bound)
        requires
            old(self).wf(),
        ensures
            final(self).wf(),
            final(self).generation() == old(self).generation(),
            ({
                let i = slot(key, old(self).entries().len() as int);
                final(self).entries() == old(self).entries().update(
                    i,
                    store_spec(
                        old(self).entries()[i],
                        old(self).generation(),
                        key,
                        mv,
                        score,
                        depth,
                        bound,
                    ),
                )
            }),
    {
        let idx = self.index(key);
        let slot = self.table[idx];
        let replace = slot.bound == Bound::Empty || slot.age != self.age || slot.key != key || depth
            as i8 >= slot.depth;
        if !replace {
            assert(self.table@ =~= old(self).table@.update(idx as int, slot));
            return ;
        }
        // Keep a best move even on an upper-bound store that lacks one.
        let mv = if mv.0 == 0 && slot.key == key {
            slot.mv
        } else {
            mv
        };
        self.table.set(
            idx,
            Entry {
                key,
                mv,
                score: score as i16,
                depth: depth as i8,
                bound,
                age: self.age,
            },
        );
    }

    /// Approximate fill level in permille (0..1000), sampled over the first
    /// 1000 entries (UCI `hashfull`).
    pub fn hashfull(&self) -> (r: usize)
        requires
            self.wf(),
        ensures
            ({
                let n = if self.entries().len() < 1000 {
                    self.entries().len() as int
                } else {
                    1000
                };
                r == used_count(self.entries(), self.generation(), n) * 1000 / n
            }),
    {
        let n = if self.table.len() < 1000 {
            self.table.len()
        } else {
            1000
        };
        let mut used: usize = 0;
        let mut i: usize = 0;
        while i < n
            invariant
                i <= n <= self.table@.len(),
                n <= 1000,
                used == used_count(self.table@, self.age, i as int),
                used <= i,
            decreases n - i,
        {
            let e = self.table[i];
            if e.bound != Bound::Empty && e.age == self.age {
                used += 1;
            }
            i += 1;
        }
        used * 1000 / n
    }
}

} // verus!
