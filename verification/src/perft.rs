//! Perft: counting the leaves of the legal move tree, the standard check of
//! move generation against published node counts.
use crate::board::{Board, BoardState, applicable, has_king, has_piece, make_view, state_wf, undo_spec};
use crate::game::{clocks_ok, lemma_unclocked_same};
use crate::movegen::{legal, lemma_king_survives, lemma_pseudo_applicable, unclocked};
use crate::moves::{Move, MoveList};
use crate::types::{Color, PieceType, opposite};
use vstd::prelude::*;

verus! {

/// Strictly increasing by encoding.
pub open spec fn strictly_sorted(s: Seq<Move>) -> bool {
    forall|i: int, j: int| 0 <= i < j < s.len() ==> (#[trigger] s[i]).0 < (#[trigger] s[j]).0
}

/// The legal moves of `v` in increasing order of encoding.
pub open spec fn legal_list(v: BoardState) -> Seq<Move> {
    choose|s: Seq<Move>|
        strictly_sorted(s) && forall|m: Move| #[trigger] s.contains(m) == legal(v, m)
}

/// The number of leaves of the legal move tree of depth `d` below `v`.
pub open spec fn perft_spec(v: BoardState, d: nat) -> nat
    decreases d, 1nat, 0nat,
{
    if d == 0 {
        1
    } else {
        perft_sum(v, legal_list(v), (d - 1) as nat)
    }
}

/// The leaves of depth `d` below each of the moves `ms` from `v`, summed.
pub open spec fn perft_sum(v: BoardState, ms: Seq<Move>, d: nat) -> nat
    decreases d, 2nat, ms.len(),
{
    if ms.len() == 0 {
        0
    } else {
        perft_sum(v, ms.drop_last(), d) + perft_spec(make_view(v, ms.last()), d)
    }
}

/// Every position of the tree to depth `d` below `v` can be played on: its
/// clocks advance without overflow and no legal move takes the last king.
pub open spec fn perft_ok(v: BoardState, d: nat) -> bool
    decreases d,
{
    d == 0 || (clocks_ok(v) && forall|m: Move|
        #[trigger] legal(v, m) ==> has_king(make_view(v, m), opposite(v.side)) && perft_ok(
            make_view(v, m),
            (d - 1) as nat,
        ))
}

/// Two strictly sorted sequences with the same members are equal.
proof fn lemma_sorted_same(s: Seq<Move>, t: Seq<Move>)
    requires
        strictly_sorted(s),
        strictly_sorted(t),
        forall|m: Move| #[trigger] s.contains(m) == t.contains(m),
    ensures
        s == t,
    decreases s.len(),
{
    if s.len() == 0 {
        if t.len() > 0 {
            assert(t.contains(t[0]));
            assert(s.contains(t[0]));
        }
        assert(t.len() == 0);
        assert(s =~= t);
    } else {
        assert(s.contains(s[0]));
        assert(t.contains(s[0]));
        assert(t.len() > 0);
        assert(t.contains(t[0]));
        assert(s.contains(t[0]));
        let i = choose|i: int| 0 <= i < s.len() && s[i] == t[0];
        let j = choose|j: int| 0 <= j < t.len() && t[j] == s[0];
        assert(s[0] == t[0]) by {
            if i > 0 {
                assert(s[0].0 < s[i].0);
            }
            if j > 0 {
                assert(t[0].0 < t[j].0);
            }
        }
        let s2 = s.drop_first();
        let t2 = t.drop_first();
        assert forall|m: Move| #[trigger] s2.contains(m) == t2.contains(m) by {
            if s2.contains(m) {
                let k = choose|k: int| 0 <= k < s2.len() && s2[k] == m;
                assert(s.contains(m));
                assert(t.contains(m));
                assert(m.0 > s[0].0);
                let l = choose|l: int| 0 <= l < t.len() && t[l] == m;
                assert(l != 0);
                assert(t2[l - 1] == m);
            }
            if t2.contains(m) {
                let k = choose|k: int| 0 <= k < t2.len() && t2[k] == m;
                assert(t2[k] == t[k + 1]);
                assert(t[0].0 < t[k + 1].0);
                assert(t.contains(m));
                assert(s.contains(m));
                assert(m.0 > s[0].0);
                let l = choose|l: int| 0 <= l < s.len() && s[l] == m;
                assert(l != 0);
                assert(s2[l - 1] == m);
            }
        }
        lemma_sorted_same(s2, t2);
        assert(s =~= seq![s[0]] + s2);
        assert(t =~= seq![t[0]] + t2);
    }
}

/// Perft to depth one counts the legal moves: for any list that holds each
/// legal move of `v` exactly once (as `legal_moves` returns), the number of
/// depth-one leaves is the list's length.
pub proof fn lemma_perft_one(v: BoardState, s: Seq<Move>)
    requires
        s.no_duplicates(),
        forall|m: Move| #[trigger] s.contains(m) == legal(v, m),
    ensures
        perft_spec(v, 1) == s.len(),
{
    broadcast use vstd::seq_lib::group_to_multiset_ensures;
    broadcast use vstd::multiset::group_multiset_axioms;

    let leq = |a: Move, b: Move| a.0 <= b.0;
    assert(vstd::relations::total_ordering(leq)) by {
        assert forall|a: Move, b: Move| #[trigger] leq(a, b) && #[trigger] leq(b, a) implies a == b by {
            assert(a.0 == b.0);
        }
    }
    s.lemma_sort_by_ensures(leq);
    let t = s.sort_by(leq);
    s.lemma_multiset_has_no_duplicates();
    assert forall|x: Move| t.to_multiset().contains(x) implies t.to_multiset().count(x) == 1 by {
        assert(s.to_multiset().contains(x));
    }
    t.lemma_multiset_has_no_duplicates_conv();
    assert forall|m: Move| #[trigger] t.contains(m) == legal(v, m) by {
        assert(t.contains(m) == t.to_multiset().contains(m));
        assert(s.contains(m) == s.to_multiset().contains(m));
    }
    assert(strictly_sorted(t)) by {
        assert forall|i: int, j: int| 0 <= i < j < t.len() implies (#[trigger] t[i]).0 < (#[trigger] t[j]).0 by {
            assert(leq(t[i], t[j]));
            if t[i].0 == t[j].0 {
                assert(t[i] == t[j]);
            }
        }
    }
    let l = legal_list(v);
    assert(strictly_sorted(l) && forall|m: Move| #[trigger] l.contains(m) == legal(v, m));
    lemma_sorted_same(t, l);
    lemma_sum_base(v, l);
    assert(t.len() == t.to_multiset().len());
    assert(s.len() == s.to_multiset().len());
}

/// The members of a sequence with one more element.
proof fn lemma_push_contains(s: Seq<Move>, a: Move)
    ensures
        forall|b: Move| #[trigger] s.push(a).contains(b) == (s.contains(b) || b == a),
{
    assert forall|b: Move| #[trigger] s.push(a).contains(b) == (s.contains(b) || b == a) by {
        if s.contains(b) {
            let k = choose|k: int| 0 <= k < s.len() && s[k] == b;
            assert(s.push(a)[k] == b);
        }
        if b == a {
            assert(s.push(a)[s.len() as int] == a);
        }
        if s.push(a).contains(b) && b != a {
            let k = choose|k: int| 0 <= k < s.len() + 1 && s.push(a)[k] == b;
            assert(k < s.len());
            assert(s[k] == b);
        }
    }
}

/// The legal moves of a list, sorted by encoding, each once.
fn sorted_moves(list: &MoveList) -> (r: Vec<Move>)
    ensures
        strictly_sorted(r@),
        forall|m: Move| #[trigger] r@.contains(m) == list@.contains(m),
{
    let mut out: Vec<Move> = Vec::new();
    let n = list.len();
    let mut i: usize = 0;
    while i < n
        invariant
            i <= n,
            n == list@.len(),
            strictly_sorted(out@),
            forall|m: Move| #[trigger] out@.contains(m) == list@.take(i as int).contains(m),
        decreases n - i,
    {
        let mv = list.get(i);
        proof {
            assert(list@.take(i + 1) =~= list@.take(i as int).push(mv));
        }
        // Position of the first entry not below `mv`.
        let mut p: usize = 0;
        while p < out.len() && out[p].0 < mv.0
            invariant
                p <= out@.len(),
                forall|k: int| 0 <= k < p ==> (#[trigger] out@[k]).0 < mv.0,
            decreases out@.len() - p,
        {
            p += 1;
        }
        let ghost before = out@;
        proof {
            lemma_push_contains(list@.take(i as int), mv);
        }
        if p < out.len() && out[p].0 == mv.0 {
            assert(out@[p as int] == mv);
            assert forall|m: Move| #[trigger] out@.contains(m) == list@.take(i + 1).contains(m) by {
                if m == mv {
                    assert(out@.contains(mv));
                }
            }
        } else {
            out.insert(p, mv);
            assert forall|a: int, b: int| 0 <= a < b < out@.len() implies (#[trigger] out@[a]).0
                < (#[trigger] out@[b]).0 by {
                if b < p {
                    assert(out@[a] == before[a] && out@[b] == before[b]);
                } else if b == p {
                    assert(out@[a] == before[a]);
                } else if a == p {
                    assert(out@[b] == before[b - 1]);
                } else if a < p {
                    assert(out@[a] == before[a] && out@[b] == before[b - 1]);
                } else {
                    assert(out@[a] == before[a - 1] && out@[b] == before[b - 1]);
                }
            }
            assert forall|m: Move| #[trigger] out@.contains(m) == list@.take(i + 1).contains(m) by {
                if before.contains(m) {
                    let k = choose|k: int| 0 <= k < before.len() && before[k] == m;
                    if k < p {
                        assert(out@[k] == m);
                    } else {
                        assert(out@[k + 1] == m);
                    }
                }
                if out@.contains(m) && m != mv {
                    let k = choose|k: int| 0 <= k < out@.len() && out@[k] == m;
                    if k < p {
                        assert(before[k] == m);
                    } else {
                        assert(k != p);
                        assert(before[k - 1] == m);
                    }
                }
                if m == mv {
                    assert(out@[p as int] == mv);
                }
            }
        }
        i += 1;
    }
    assert(list@.take(n as int) =~= list@);
    out
}

/// Playing a legal move within the clocks keeps a playable board playable
/// when the enemy king survives it.
proof fn lemma_child_valid(v: BoardState, m: Move)
    requires
        state_wf(v),
        legal(v, m),
        clocks_ok(v),
        has_king(v, v.side),
    ensures
        applicable(v, m),
        has_king(make_view(v, m), v.side),
{
    lemma_pseudo_applicable(v, m);
    lemma_unclocked_same(v, m);
    lemma_king_survives(v, m);
    let w = make_view(unclocked(v), m);
    let k = choose|s: int| #[trigger] has_piece(w, s, v.side, PieceType::King);
    assert(has_piece(make_view(v, m), k, v.side, PieceType::King));
}

impl Board {
    /// Count leaf nodes of the legal move tree to `depth` (move-gen testing).
    pub fn perft(&mut self, depth: u32) -> (r: u64)
        requires
            old(self).valid(),
            perft_ok(old(self)@, depth as nat),
            perft_spec(old(self)@, depth as nat) <= u64::MAX,
        ensures
            final(self).valid(),
            final(self)@ == old(self)@,
            r == perft_spec(old(self)@, depth as nat),
        decreases depth,
    {
        if depth == 0 {
            return 1;
        }
        let ghost v = self@;
        let list = self.legal_moves();
        let moves = sorted_moves(&list);
        proof {
            assert(strictly_sorted(moves@) && forall|m: Move| #[trigger] moves@.contains(m) == legal(v, m));
            let l = legal_list(v);
            assert(strictly_sorted(l) && forall|m: Move| #[trigger] l.contains(m) == legal(v, m));
            lemma_sorted_same(moves@, l);
        }
        let n = moves.len();
        if depth == 1 {
            proof {
                lemma_sum_base(v, moves@);
            }
            return n as u64;
        }
        let mut nodes: u64 = 0;
        let mut i: usize = 0;
        while i < n
            invariant
                i <= n,
                n == moves@.len(),
                moves@ == legal_list(v),
                forall|m: Move| #[trigger] moves@.contains(m) == legal(v, m),
                depth >= 2,
                self.valid(),
                self@ == v,
                perft_ok(v, depth as nat),
                perft_spec(v, depth as nat) <= u64::MAX,
                nodes == perft_sum(v, moves@.take(i as int), (depth - 1) as nat),
            decreases n - i,
        {
            let mv = moves[i];
            proof {
                assert(moves@.contains(mv));
                assert(legal(v, mv));
                self.lemma_state_wf_valid();
                lemma_child_valid(v, mv);
                assert(moves@.take(i + 1).drop_last() =~= moves@.take(i as int));
                lemma_sum_prefix(v, moves@, (depth - 1) as nat, i + 1);
            }
            let undo = self.make_move(mv);
            proof {
                self.lemma_inv_wf();
            }
            let c = self.perft(depth - 1);
            self.unmake_move(mv, undo);
            proof {
                self.lemma_inv_wf();
            }
            nodes = nodes + c;
            i += 1;
        }
        proof {
            assert(moves@.take(n as int) =~= moves@);
        }
        nodes
    }
}

/// At depth one every move counts once.
proof fn lemma_sum_base(v: BoardState, ms: Seq<Move>)
    ensures
        perft_sum(v, ms, 0) == ms.len(),
    decreases ms.len(),
{
    if ms.len() > 0 {
        lemma_sum_base(v, ms.drop_last());
        assert(perft_spec(make_view(v, ms.last()), 0) == 1);
    }
}

/// A prefix of the moves sums to no more than all of them.
proof fn lemma_sum_prefix(v: BoardState, ms: Seq<Move>, d: nat, k: int)
    requires
        0 <= k <= ms.len(),
    ensures
        perft_sum(v, ms.take(k), d) <= perft_sum(v, ms, d),
    decreases ms.len(),
{
    if k == ms.len() {
        assert(ms.take(k) =~= ms);
    } else {
        lemma_sum_prefix(v, ms.drop_last(), d, k);
        assert(ms.drop_last().take(k) =~= ms.take(k));
    }
}

impl Board {
    /// Perft "divide": leaves below each legal root move (move-gen debugging),
    /// in generation order.
    pub fn perft_divide(&mut self, depth: u32) -> (r: Vec<(Move, u64)>)
        requires
            old(self).valid(),
            perft_ok(old(self)@, if depth == 0 {
                1nat
            } else {
                depth as nat
            }),
            forall|m: Move|
                #[trigger] legal(old(self)@, m) ==> perft_spec(
                    make_view(old(self)@, m),
                    (depth - 1) as nat,
                ) <= u64::MAX,
        ensures
            final(self).valid(),
            final(self)@ == old(self)@,
            forall|i: int|
                0 <= i < r@.len() ==> legal(old(self)@, (#[trigger] r@[i]).0) && r@[i].1 == if depth
                    <= 1 {
                    1
                } else {
                    perft_spec(make_view(old(self)@, r@[i].0), (depth - 1) as nat)
                },
            forall|m: Move|
                legal(old(self)@, m) ==> exists|i: int| 0 <= i < r@.len() && (#[trigger] r@[i]).0 == m,
    {
        let ghost v = self@;
        let moves = self.legal_moves();
        let n = moves.len();
        let mut out: Vec<(Move, u64)> = Vec::new();
        let mut i: usize = 0;
        while i < n
            invariant
                i <= n,
                n == moves@.len(),
                forall|m: Move| #[trigger] moves@.contains(m) == legal(v, m),
                self.valid(),
                self@ == v,
                perft_ok(v, if depth == 0 {
                    1nat
                } else {
                    depth as nat
                }),
                forall|m: Move|
                    #[trigger] legal(v, m) ==> perft_spec(make_view(v, m), (depth - 1) as nat)
                        <= u64::MAX,
                out@.len() == i,
                forall|k: int|
                    0 <= k < i ==> (#[trigger] out@[k]).0 == moves@[k] && out@[k].1 == if depth
                        <= 1 {
                        1
                    } else {
                        perft_spec(make_view(v, moves@[k]), (depth - 1) as nat)
                    },
            decreases n - i,
        {
            let mv = moves.get(i);
            proof {
                assert(moves@.contains(mv));
                self.lemma_state_wf_valid();
                lemma_child_valid(v, mv);
            }
            let undo = self.make_move(mv);
            proof {
                self.lemma_inv_wf();
            }
            let c = if depth <= 1 {
                1
            } else {
                self.perft(depth - 1)
            };
            self.unmake_move(mv, undo);
            proof {
                self.lemma_inv_wf();
            }
            out.push((mv, c));
            i += 1;
        }
        proof {
            assert forall|k: int| 0 <= k < out@.len() implies legal(v, (#[trigger] out@[k]).0) by {
                assert(moves@.contains(moves@[k]));
            }
            assert forall|m: Move| legal(v, m) implies exists|k: int|
                0 <= k < out@.len() && (#[trigger] out@[k]).0 == m by {
                assert(moves@.contains(m));
                let k = choose|k: int| 0 <= k < moves@.len() && moves@[k] == m;
                assert(out@[k].0 == m);
            }
        }
        out
    }
}

} // verus!
