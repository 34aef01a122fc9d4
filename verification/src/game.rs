//! [`Game`]: a [`Board`] plus the move/position history needed for the
//! history-dependent draw rules, surfaced through [`Outcome`].
//!
//! `Board` alone answers everything about a single position (legal moves,
//! check, stalemate, insufficient material). Threefold/fivefold repetition and
//! the 50/75-move rules require history, which lives here.
use crate::board::{
    Board, BoardState, Undo, applicable, has_king, in_check_spec, insufficient_spec, make_view,
    state_wf, undo_spec,
};
use crate::fen::{FenError, FenFault, fen_spec, start_state};
use crate::movegen::{legal, lemma_king_survives, lemma_pseudo_applicable, unclocked};
use crate::moves::{Move, MoveList};
use crate::repetition::{KeyView, RepetitionKey, key_of};
use crate::types::{Color, opposite};
use vstd::prelude::*;

verus! {

/// Why a game is drawn (other than stalemate, which is its own [`Outcome`]).
#[derive(Clone, Copy, PartialEq, Eq, Structural, Debug)]
pub enum DrawReason {
    /// 50 moves by each side without a pawn move or capture (claimable).
    FiftyMove,
    /// 75 moves by each side without a pawn move or capture (automatic).
    SeventyFiveMove,
    /// The same position has occurred three times (claimable).
    ThreefoldRepetition,
    /// The same position has occurred five times (automatic).
    FivefoldRepetition,
    /// Neither side has the material to deliver checkmate.
    InsufficientMaterial,
}

/// The status of a game.
#[derive(Clone, Copy, PartialEq, Eq, Structural, Debug)]
pub enum Outcome {
    /// The game is still in progress.
    Ongoing,
    /// `winner` delivered checkmate.
    Checkmate { winner: Color },
    /// The side to move has no legal move but is not in check.
    Stalemate,
    /// A draw for the given reason.
    Draw(DrawReason),
}

impl Outcome {
    pub fn is_over(self) -> (r: bool)
        ensures
            r == !(self is Ongoing),
    {
        !matches!(self, Outcome::Ongoing)
    }

    pub fn is_draw(self) -> (r: bool)
        ensures
            r == (self is Stalemate || self is Draw),
    {
        matches!(self, Outcome::Stalemate | Outcome::Draw(_))
    }
}

/// The mathematical content of a [`Game`]: every position so far (the
/// initial one first, the current one last) and the moves between them.
pub struct GameView {
    pub positions: Seq<BoardState>,
    pub moves: Seq<Move>,
}

/// How often `k` occurs in `ks`.
pub open spec fn occurrences(ks: Seq<KeyView>, k: KeyView) -> nat
    decreases ks.len(),
{
    if ks.len() == 0 {
        0
    } else {
        occurrences(ks.drop_last(), k) + if ks.last() == k {
            1nat
        } else {
            0nat
        }
    }
}

/// How many times the current position of a game has occurred, now included.
pub open spec fn rep_count(g: GameView) -> nat {
    occurrences(g.positions.map_values(|v: BoardState| key_of(v)), key_of(g.positions.last()))
}

/// The outcome of a game whose current position is `v` and has occurred
/// `reps` times.
pub open spec fn outcome_spec(v: BoardState, reps: int) -> Outcome {
    if !(exists|m: Move| #[trigger] legal(v, m)) {
        if in_check_spec(v) {
            Outcome::Checkmate { winner: opposite(v.side) }
        } else {
            Outcome::Stalemate
        }
    } else if insufficient_spec(v) {
        Outcome::Draw(DrawReason::InsufficientMaterial)
    } else if reps >= 5 {
        Outcome::Draw(DrawReason::FivefoldRepetition)
    } else if v.halfmove >= 150 {
        Outcome::Draw(DrawReason::SeventyFiveMove)
    } else if reps >= 3 {
        Outcome::Draw(DrawReason::ThreefoldRepetition)
    } else if v.halfmove >= 100 {
        Outcome::Draw(DrawReason::FiftyMove)
    } else {
        Outcome::Ongoing
    }
}

/// The move clocks can advance once more without overflowing.
pub open spec fn clocks_ok(v: BoardState) -> bool {
    v.halfmove < 65535 && (v.side == Color::Black ==> v.fullmove < 65535)
}

/// No legal move of `v` removes the opponent's last king.
pub open spec fn keeps_kings(v: BoardState) -> bool {
    forall|m: Move| #[trigger] legal(v, m) ==> has_king(make_view(v, m), opposite(v.side))
}

/// A position of the history is playable and carries its key.
#[verifier::opaque]
pub closed spec fn pos_ok(v: BoardState, key: RepetitionKey) -> bool {
    state_wf(v) && has_king(v, Color::White) && has_king(v, Color::Black) && key@ == key_of(v)
}

/// `next` follows from `v` by the legal move `mv`, undone by `undo`.
#[verifier::opaque]
pub closed spec fn step_ok(v: BoardState, mv: Move, undo: Undo, next: BoardState) -> bool {
    legal(v, mv) && applicable(v, mv) && make_view(v, mv) == next && undo == undo_spec(v, mv)
}

/// Each position is playable and keyed, and follows from the previous one by
/// the recorded legal move, whose undo record is kept.
pub open spec fn history_ok(
    h: Seq<BoardState>,
    keys: Seq<RepetitionKey>,
    stack: Seq<(Move, Undo)>,
) -> bool {
    &&& forall|i: int| 0 <= i < h.len() ==> #[trigger] pos_ok(h[i], keys[i])
    &&& forall|i: int|
        0 <= i < stack.len() ==> #[trigger] step_ok(h[i], stack[i].0, stack[i].1, h[i + 1])
}

/// The keys of a consistent history are the positions' keys.
proof fn lemma_history_keys(h: Seq<BoardState>, keys: Seq<RepetitionKey>, stack: Seq<(Move, Undo)>)
    requires
        history_ok(h, keys, stack),
    ensures
        forall|i: int| 0 <= i < h.len() ==> #[trigger] keys[i]@ == key_of(h[i]),
{
    reveal(pos_ok);
    assert forall|i: int| 0 <= i < h.len() implies #[trigger] keys[i]@ == key_of(h[i]) by {
        assert(pos_ok(h[i], keys[i]));
    }
}

/// The facts recorded for the last move of a consistent history.
proof fn lemma_history_last(h: Seq<BoardState>, keys: Seq<RepetitionKey>, stack: Seq<(Move, Undo)>)
    requires
        history_ok(h, keys, stack),
        stack.len() > 0,
        h.len() == stack.len() + 1,
        keys.len() == h.len(),
    ensures
        ({
            let i = stack.len() - 1;
            &&& state_wf(h[i])
            &&& has_king(h[i], Color::White)
            &&& has_king(h[i], Color::Black)
            &&& applicable(h[i], stack[i].0)
            &&& make_view(h[i], stack[i].0) == h[i + 1]
            &&& stack[i].1 == undo_spec(h[i], stack[i].0)
        }),
        history_ok(h.drop_last(), keys.drop_last(), stack.drop_last()),
{
    let i = stack.len() - 1;
    assert(pos_ok(h[i], keys[i]));
    assert(step_ok(h[i], stack[i].0, stack[i].1, h[i + 1]));
    reveal(pos_ok);
    reveal(step_ok);
    let h2 = h.drop_last();
    let k2 = keys.drop_last();
    let s2 = stack.drop_last();
    assert forall|j: int| 0 <= j < h2.len() implies #[trigger] pos_ok(h2[j], k2[j]) by {
        assert(pos_ok(h[j], keys[j]));
    }
    assert forall|j: int| 0 <= j < s2.len() implies #[trigger] step_ok(
        h2[j],
        s2[j].0,
        s2[j].1,
        h2[j + 1],
    ) by {
        assert(step_ok(h[j], stack[j].0, stack[j].1, h[j + 1]));
    }
}

/// Extending a consistent history by one legal move keeps it consistent.
proof fn lemma_history_push(
    h: Seq<BoardState>,
    keys: Seq<RepetitionKey>,
    stack: Seq<(Move, Undo)>,
    mv: Move,
    undo: Undo,
    key: RepetitionKey,
    w: BoardState,
)
    requires
        history_ok(h, keys, stack),
        h.len() == stack.len() + 1,
        keys.len() == h.len(),
        legal(h.last(), mv),
        applicable(h.last(), mv),
        make_view(h.last(), mv) == w,
        undo == undo_spec(h.last(), mv),
        state_wf(w),
        has_king(w, Color::White),
        has_king(w, Color::Black),
        key@ == key_of(w),
    ensures
        history_ok(h.push(w), keys.push(key), stack.push((mv, undo))),
{
    let h2 = h.push(w);
    let k2 = keys.push(key);
    let s2 = stack.push((mv, undo));
    assert(pos_ok(w, key)) by {
        reveal(pos_ok);
    }
    assert(step_ok(h.last(), mv, undo, w)) by {
        reveal(step_ok);
    }
    assert forall|j: int| 0 <= j < h2.len() implies #[trigger] pos_ok(h2[j], k2[j]) by {
        if j < h.len() {
            assert(pos_ok(h[j], keys[j]));
        }
    }
    assert forall|j: int| 0 <= j < s2.len() implies #[trigger] step_ok(
        h2[j],
        s2[j].0,
        s2[j].1,
        h2[j + 1],
    ) by {
        if j < stack.len() {
            assert(step_ok(h[j], stack[j].0, stack[j].1, h[j + 1]));
        }
    }
}

/// A game: the current position plus its full history.
#[derive(Clone)]
pub struct Game {
    board: Board,
    /// Exact repetition keys, one per ply plus the initial position.
    keys: Vec<RepetitionKey>,
    /// Applied moves and their undo records, for [`Game::pop`].
    stack: Vec<(Move, Undo)>,
    /// Every position so far.
    history: Ghost<Seq<BoardState>>,
}

impl View for Game {
    type V = GameView;

    closed spec fn view(&self) -> GameView {
        GameView {
            positions: self.history@,
            moves: Seq::new(self.stack@.len(), |i: int| self.stack@[i].0),
        }
    }
}

impl Game {
    /// The history is consistent: each position follows from the previous
    /// one by the recorded legal move, every position is playable, and the
    /// keys and undo records match the positions.
    pub closed spec fn wf(&self) -> bool {
        let h = self.history@;
        let n = self.stack@.len();
        &&& h.len() == n + 1
        &&& self.keys@.len() == n + 1
        &&& self.board.valid()
        &&& h[n as int] == self.board@
        &&& history_ok(h, self.keys@, self.stack@)
    }

    /// The current position.
    pub open spec fn current(&self) -> BoardState {
        self@.positions.last()
    }

    /// The view's shape: one more position than moves.
    pub proof fn lemma_view(&self)
        requires
            self.wf(),
        ensures
            self@.positions.len() == self@.moves.len() + 1,
            state_wf(self.current()),
    {
        self.board.lemma_state_wf_valid();
    }

    /// A game starting from an arbitrary position.
    pub fn from_board(board: Board) -> (r: Game)
        requires
            board.valid(),
        ensures
            r.wf(),
            r@.positions == seq![board@],
            r@.moves == Seq::<Move>::empty(),
    {
        let key = board.repetition_key();
        let mut keys: Vec<RepetitionKey> = Vec::new();
        keys.push(key);
        let ghost h = seq![board@];
        let r = Game { board, keys, stack: Vec::new(), history: Ghost(h) };
        proof {
            board.lemma_state_wf_valid();
            assert(r@.moves =~= Seq::<Move>::empty());
            assert(pos_ok(board@, key)) by {
                reveal(pos_ok);
            }
        }
        r
    }

    /// A new game from the standard starting position.
    pub fn new() -> (r: Game)
        ensures
            r.wf(),
            r@.positions == seq![start_state()],
            r@.moves == Seq::<Move>::empty(),
    {
        Game::from_board(Board::startpos())
    }

    /// Start from a FEN position.
    pub fn from_fen(fen: &str) -> (r: Result<Game, FenError>)
        ensures
            match r {
                Ok(g) => g.wf() && g@.moves == Seq::<Move>::empty() && fen_spec(fen@) == Ok::<
                    BoardState,
                    FenFault,
                >(g.current()) && g@.positions.len() == 1,
                Err(e) => fen_spec(fen@) == Err::<BoardState, FenFault>(e@),
            },
    {
        match Board::from_fen(fen) {
            Ok(b) => Ok(Game::from_board(b)),
            Err(e) => Err(e),
        }
    }

    pub fn board(&self) -> (r: &Board)
        requires
            self.wf(),
        ensures
            r.valid(),
            r@ == self.current(),
    {
        &self.board
    }

    pub fn side_to_move(&self) -> (r: Color)
        requires
            self.wf(),
        ensures
            r == self.current().side,
    {
        self.board.side_to_move()
    }

    /// Number of plies (half-moves) played.
    pub fn ply(&self) -> (r: usize)
        requires
            self.wf(),
        ensures
            r == self@.moves.len(),
    {
        self.stack.len()
    }

    pub fn legal_moves(&self) -> (r: MoveList)
        requires
            self.wf(),
        ensures
            forall|m: Move| #[trigger] r@.contains(m) == legal(self.current(), m),
    {
        self.board.legal_moves()
    }

    /// Apply a move and record it in the history.
    pub fn push(&mut self, mv: Move)
        requires
            old(self).wf(),
            legal(old(self).current(), mv),
            clocks_ok(old(self).current()),
            has_king(make_view(old(self).current(), mv), opposite(old(self).current().side)),
        ensures
            final(self).wf(),
            final(self)@.positions == old(self)@.positions.push(
                make_view(old(self).current(), mv),
            ),
            final(self)@.moves == old(self)@.moves.push(mv),
    {
        let ghost h = self.history@;
        let ghost v = self.board@;
        proof {
            self.board.lemma_state_wf_valid();
            lemma_pseudo_applicable(v, mv);
            lemma_king_survives(v, mv);
            lemma_unclocked_same(v, mv);
        }
        let undo = self.board.make_move(mv);
        self.stack.push((mv, undo));
        proof {
            self.board.lemma_inv_wf();
            let w = make_view(unclocked(v), mv);
            let k = choose|s: int| #[trigger] crate::board::has_piece(w, s, v.side, crate::types::PieceType::King);
            assert(crate::board::has_piece(self.board@, k, v.side, crate::types::PieceType::King));
        }
        let key = self.board.repetition_key();
        self.keys.push(key);
        proof {
            self.board.lemma_state_wf_valid();
            lemma_history_push(h, old(self).keys@, old(self).stack@, mv, undo, key, self.board@);
        }
        self.history = Ghost(h.push(self.board@));
        proof {
            assert(self@.moves =~= old(self)@.moves.push(mv));
        }
    }

    /// Apply a move given in UCI notation; returns the move if legal.
    pub fn push_uci(&mut self, uci: &str) -> (r: Option<Move>)
        requires
            old(self).wf(),
            clocks_ok(old(self).current()),
            keeps_kings(old(self).current()),
            crate::uci::uci_slices_ok(uci@),
        ensures
            final(self).wf(),
            match r {
                Some(m) => legal(old(self).current(), m) && (crate::uci::uci_request(uci@) matches Some(
                    q,
                ) && crate::uci::uci_names(m, q)) && final(self)@.positions == old(
                    self,
                )@.positions.push(make_view(old(self).current(), m)) && final(self)@.moves == old(
                    self,
                )@.moves.push(m),
                None => final(self)@ == old(self)@ && forall|m: Move|
                    legal(old(self).current(), m) ==> !(crate::uci::uci_request(uci@) matches Some(q)
                        && crate::uci::uci_names(m, q)),
            },
    {
        let mv = match self.board.parse_uci(uci) {
            Some(m) => m,
            None => {
                return None;
            },
        };
        self.push(mv);
        Some(mv)
    }

    /// Apply a move given in SAN notation; returns the move if legal.
    pub fn push_san(&mut self, san: &str) -> (r: Option<Move>)
        requires
            old(self).wf(),
            clocks_ok(old(self).current()),
            keeps_kings(old(self).current()),
        ensures
            final(self).wf(),
            match r {
                Some(m) => legal(old(self).current(), m) && crate::san::normalize(
                    crate::san::san_base(old(self).current(), m),
                ) == crate::san::normalize(san@) && final(self)@.positions == old(
                    self,
                )@.positions.push(make_view(old(self).current(), m)) && final(self)@.moves == old(
                    self,
                )@.moves.push(m),
                None => final(self)@ == old(self)@ && forall|m: Move|
                    legal(old(self).current(), m) ==> crate::san::normalize(
                        crate::san::san_base(old(self).current(), m),
                    ) != crate::san::normalize(san@),
            },
    {
        let mv = match self.board.parse_san(san) {
            Some(m) => m,
            None => {
                return None;
            },
        };
        self.push(mv);
        Some(mv)
    }

    /// Undo the most recent move, if any.
    pub fn pop(&mut self) -> (r: Option<Move>)
        requires
            old(self).wf(),
        ensures
            final(self).wf(),
            old(self)@.moves.len() == 0 ==> r is None && final(self)@ == old(self)@,
            old(self)@.moves.len() > 0 ==> r == Some(old(self)@.moves.last())
                && final(self)@.positions == old(self)@.positions.drop_last()
                && final(self)@.moves == old(self)@.moves.drop_last(),
    {
        let ghost h = self.history@;
        let ghost n = self.stack@.len();
        match self.stack.pop() {
            None => None,
            Some((mv, undo)) => {
                proof {
                    lemma_history_last(h, old(self).keys@, old(self).stack@);
                }
                self.board.unmake_move(mv, undo);
                self.keys.pop();
                self.history = Ghost(h.drop_last());
                proof {
                    self.board.lemma_inv_wf();
                    assert(self@.moves =~= old(self)@.moves.drop_last());
                }
                Some(mv)
            },
        }
    }

    /// Exact repetition keys of every position so far, including the current
    /// one (one per ply plus the initial position).
    pub fn position_keys(&self) -> (r: &[RepetitionKey])
        requires
            self.wf(),
        ensures
            r@.len() == self@.positions.len(),
            forall|i: int| 0 <= i < r@.len() ==> #[trigger] r@[i]@ == key_of(self@.positions[i]),
    {
        proof {
            lemma_history_keys(self.history@, self.keys@, self.stack@);
        }
        self.keys.as_slice()
    }

    /// How many times the current position has occurred (including now).
    pub fn repetition_count(&self) -> (r: usize)
        requires
            self.wf(),
        ensures
            r == rep_count(self@),
    {
        let current = self.board.repetition_key();
        let ghost ks = self@.positions.map_values(|v: BoardState| key_of(v));
        let ghost k = key_of(self.current());
        proof {
            lemma_history_keys(self.history@, self.keys@, self.stack@);
        }
        let mut count: usize = 0;
        let mut i: usize = 0;
        while i < self.keys.len()
            invariant
                self.wf(),
                i <= self.keys@.len(),
                ks == self@.positions.map_values(|v: BoardState| key_of(v)),
                ks.len() == self.keys@.len(),
                current@ == k,
                k == key_of(self.current()),
                count == occurrences(ks.take(i as int), k),
                count <= i,
                forall|j: int| 0 <= j < ks.len() ==> #[trigger] ks[j] == self.keys@[j]@,
            decreases self.keys@.len() - i,
        {
            proof {
                assert(ks.take(i + 1).drop_last() =~= ks.take(i as int));
                assert(ks[i as int] == self.keys@[i as int]@);
            }
            if self.keys[i] == current {
                count += 1;
            }
            i += 1;
        }
        proof {
            assert(ks.take(ks.len() as int) =~= ks);
        }
        count
    }

    /// Whether the side to move may *claim* a draw (threefold repetition or the
    /// 50-move rule).
    pub fn can_claim_draw(&self) -> (r: bool)
        requires
            self.wf(),
        ensures
            r == (rep_count(self@) >= 3 || self.current().halfmove >= 100),
    {
        self.repetition_count() >= 3 || self.board.halfmove_clock() >= 100
    }

    /// The game's outcome.
    ///
    /// Automatic terminations (checkmate, stalemate, 75-move, fivefold
    /// repetition, insufficient material) are always reported. The *claimable*
    /// draws (threefold repetition, 50-move) are also reported here as draws;
    /// use [`Game::can_claim_draw`] to tell "claimable" from "automatic".
    pub fn outcome(&self) -> (r: Outcome)
        requires
            self.wf(),
        ensures
            r == outcome_spec(self.current(), rep_count(self@) as int),
    {
        if !self.board.has_legal_move() {
            return if self.board.in_check() {
                Outcome::Checkmate { winner: self.board.side_to_move().flip() }
            } else {
                Outcome::Stalemate
            };
        }
        if self.board.is_insufficient_material() {
            return Outcome::Draw(DrawReason::InsufficientMaterial);
        }
        let rep = self.repetition_count();
        if rep >= 5 {
            return Outcome::Draw(DrawReason::FivefoldRepetition);
        }
        if self.board.halfmove_clock() >= 150 {
            return Outcome::Draw(DrawReason::SeventyFiveMove);
        }
        if rep >= 3 {
            return Outcome::Draw(DrawReason::ThreefoldRepetition);
        }
        if self.board.halfmove_clock() >= 100 {
            return Outcome::Draw(DrawReason::FiftyMove);
        }
        Outcome::Ongoing
    }

    pub fn is_checkmate(&self) -> (r: bool)
        requires
            self.wf(),
        ensures
            r == (outcome_spec(self.current(), rep_count(self@) as int) is Checkmate),
    {
        matches!(self.outcome(), Outcome::Checkmate { .. })
    }

    pub fn is_stalemate(&self) -> (r: bool)
        requires
            self.wf(),
        ensures
            r == (outcome_spec(self.current(), rep_count(self@) as int) is Stalemate),
    {
        matches!(self.outcome(), Outcome::Stalemate)
    }
}

impl Default for Game {
    fn default() -> (r: Game)
        ensures
            r.wf(),
            r@.positions == seq![start_state()],
            r@.moves == Seq::<Move>::empty(),
    {
        Game::new()
    }
}

/// Playing a move from a position or from its clock-reset copy leaves the
/// same pieces on the same squares for the same side.
pub(crate) proof fn lemma_unclocked_same(v: BoardState, m: Move)
    ensures
        make_view(unclocked(v), m).placement == make_view(v, m).placement,
        make_view(unclocked(v), m).side == make_view(v, m).side,
{
    reveal(make_view);
    reveal(crate::board::make_placement);
}

} // verus!
