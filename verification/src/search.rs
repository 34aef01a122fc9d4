//! The search: iterative-deepening negamax with alpha-beta, a transposition
//! table, quiescence, move ordering (hash move, MVV-LVA, promotions, killer
//! moves, history), late-move reductions, check extensions, mate-distance
//! pruning and aspiration windows.
//!
//! The engine is generic over the [`Evaluator`], so the same search drives
//! any evaluator. The late-move reduction amounts come in as a table of
//! integers (see [`lmr_table_ok`]).
use crate::board::{applicable, has_king, make_view, state_wf, Board, Undo};
use crate::clock::{elapsed_since, flag_is_set, instant_now, share_flag};
use crate::eval::{Evaluator, DRAW, INFINITY, MATE, MATE_IN_MAX, MAX_PLY};
use crate::movegen::{legal, lemma_pseudo_applicable, unclocked};
use crate::moves::{Move, MoveList};
use crate::review_api::whole_millis;
use crate::tt::{Bound, Tt};
use crate::types::{Color, PieceType};
use vstd::prelude::*;

verus! {

/// The widest score the search handles: a transposition-table score (an
/// `i16`) moved by the ply, or the bounds of a window.
pub const SCORE_LIMIT: i32 = 32_768;

/// The deepest nominal depth the search is started with.
pub const MAX_DEPTH: i32 = 200;

/// Rows and columns of the late-move reduction table.
pub const LMR_SIZE: usize = 256;

/// The largest reduction the table may hold.
pub const MAX_REDUCTION: i32 = 64;

/// Piece values for MVV-LVA move ordering (P, N, B, R, Q, K).
pub fn piece_value(pt: PieceType) -> (r: i32)
    ensures
        0 < r <= 10_000,
{
    match pt {
        PieceType::Pawn => 100,
        PieceType::Knight => 320,
        PieceType::Bishop => 330,
        PieceType::Rook => 500,
        PieceType::Queen => 900,
        PieceType::King => 10_000,
    }
}

/// Search limits. Construct with the helpers, or set fields directly.
#[derive(Clone, Default)]
pub struct Limits {
    pub depth: Option<i32>,
    pub nodes: Option<u64>,
    pub movetime: Option<u64>,
    pub wtime: Option<u64>,
    pub btime: Option<u64>,
    pub winc: Option<u64>,
    pub binc: Option<u64>,
    pub movestogo: Option<u32>,
    pub infinite: bool,
}

/// No limit set.
pub open spec fn no_limits() -> Limits {
    Limits {
        depth: None,
        nodes: None,
        movetime: None,
        wtime: None,
        btime: None,
        winc: None,
        binc: None,
        movestogo: None,
        infinite: false,
    }
}

impl Limits {
    /// Search to a fixed depth.
    pub fn depth(d: i32) -> (r: Limits)
        ensures
            r == (Limits { depth: Some(d), ..no_limits() }),
    {
        Limits {
            depth: Some(d),
            nodes: None,
            movetime: None,
            wtime: None,
            btime: None,
            winc: None,
            binc: None,
            movestogo: None,
            infinite: false,
        }
    }

    /// Search for a fixed time, in milliseconds.
    pub fn movetime(ms: u64) -> (r: Limits)
        ensures
            r == (Limits { movetime: Some(ms), ..no_limits() }),
    {
        Limits {
            depth: None,
            nodes: None,
            movetime: Some(ms),
            wtime: None,
            btime: None,
            winc: None,
            binc: None,
            movestogo: None,
            infinite: false,
        }
    }

    /// Search a fixed number of nodes.
    pub fn nodes(n: u64) -> (r: Limits)
        ensures
            r == (Limits { nodes: Some(n), ..no_limits() }),
    {
        Limits {
            depth: None,
            nodes: Some(n),
            movetime: None,
            wtime: None,
            btime: None,
            winc: None,
            binc: None,
            movestogo: None,
            infinite: false,
        }
    }

    /// Search until stopped.
    pub fn infinite() -> (r: Limits)
        ensures
            r == (Limits { infinite: true, ..no_limits() }),
    {
        Limits {
            depth: None,
            nodes: None,
            movetime: None,
            wtime: None,
            btime: None,
            winc: None,
            binc: None,
            movestogo: None,
            infinite: true,
        }
    }
}

/// Per-iteration search information (for UCI `info` output).
#[derive(Clone, Debug)]
pub struct SearchInfo {
    pub depth: i32,
    pub seldepth: i32,
    pub score: i32,
    pub nodes: u64,
    pub time_ms: u128,
    pub nps: u64,
    pub hashfull: usize,
    pub pv: Vec<Move>,
}

/// The final result of a search.
#[derive(Clone, Debug)]
pub struct Analysis {
    pub best_move: Move,
    pub ponder: Option<Move>,
    pub score: i32,
    pub depth: i32,
    pub seldepth: i32,
    pub nodes: u64,
    pub time_ms: u128,
    pub pv: Vec<Move>,
}

/// `ms` is a line of legal moves played from `v`.
pub open spec fn legal_line(v: crate::board::BoardState, ms: Seq<Move>) -> bool
    decreases ms.len(),
{
    ms.len() == 0 || (legal(v, ms[0]) && legal_line(make_view(v, ms[0]), ms.drop_first()))
}

/// There is room on the move clocks for the `MAX_PLY - ply` moves a search
/// from ply `ply` can still play.
pub open spec fn clock_room(v: crate::board::BoardState, ply: int) -> bool {
    &&& v.halfmove + (MAX_PLY - ply) < 65535
    &&& v.fullmove + (MAX_PLY - ply) < 65535
}

/// A late-move reduction table: `LMR_SIZE` rows of `LMR_SIZE` reductions
/// (indexed by depth and move number), each between 0 and `MAX_REDUCTION`.
pub open spec fn lmr_table_ok(t: Seq<Vec<i32>>) -> bool {
    &&& t.len() == LMR_SIZE
    &&& forall|i: int|
        0 <= i < LMR_SIZE ==> (#[trigger] t[i])@.len() == LMR_SIZE && forall|j: int|
            0 <= j < LMR_SIZE ==> 0 <= #[trigger] t[i]@[j] <= MAX_REDUCTION
}

/// A move score stored from ply `ply`, with mate scores made relative to
/// the node.
pub open spec fn to_tt_spec(score: int, ply: int) -> int {
    if score >= MATE_IN_MAX {
        score + ply
    } else if score <= -MATE_IN_MAX {
        score - ply
    } else {
        score
    }
}

/// A stored score read back at ply `ply`.
pub open spec fn from_tt_spec(score: int, ply: int) -> int {
    if score >= MATE_IN_MAX {
        score - ply
    } else if score <= -MATE_IN_MAX {
        score + ply
    } else {
        score
    }
}

fn score_to_tt(score: i32, ply: usize) -> (r: i32)
    requires
        -SCORE_LIMIT <= score <= SCORE_LIMIT,
        ply < MAX_PLY,
    ensures
        r == to_tt_spec(score as int, ply as int),
{
    let p = ply as i32;
    if score >= MATE_IN_MAX {
        score + p
    } else if score <= -MATE_IN_MAX {
        score - p
    } else {
        score
    }
}

fn score_from_tt(score: i32, ply: usize) -> (r: i32)
    requires
        i16::MIN <= score <= i16::MAX,
        ply < MAX_PLY,
    ensures
        r == from_tt_spec(score as int, ply as int),
        -SCORE_LIMIT <= r <= SCORE_LIMIT,
{
    let p = ply as i32;
    if score >= MATE_IN_MAX {
        score - p
    } else if score <= -MATE_IN_MAX {
        score + p
    } else {
        score
    }
}

/// Whether `score` denotes a forced mate.
fn mate_score(score: i32) -> (r: bool)
    requires
        -SCORE_LIMIT <= score <= SCORE_LIMIT,
    ensures
        r == crate::eval::is_mate_spec(score as int),
{
    crate::eval::is_mate(score)
}

/// A legal move of a searchable position can be played.
pub(crate) proof fn lemma_playable(b: Board, m: Move, ply: int)
    requires
        b.valid(),
        clock_room(b@, ply),
        0 <= ply < MAX_PLY,
        legal(b@, m),
    ensures
        applicable(b@, m),
        clock_room(make_view(b@, m), ply + 1),
        state_wf(b@),
{
    b.lemma_state_wf_valid();
    lemma_pseudo_applicable(b@, m);
    reveal(make_view);
}

/// A chess analysis engine over the evaluator `E`.
pub struct Engine<E: Evaluator> {
    tt: Tt,
    eval: E,
    killers: Vec<(Move, Move)>,
    /// History heuristic, indexed by `color * 4096 + from * 64 + to`.
    history: Vec<i32>,
    /// Triangular principal-variation table: the line found below each ply.
    pv: Vec<Vec<Move>>,
    lmr: Vec<Vec<i32>>,
    stop: std::sync::Arc<std::sync::atomic::AtomicBool>,
    /// Position keys preceding the search root (for repetition detection).
    root_history: Vec<u64>,
    nodes: u64,
    seldepth: i32,
    stopped: bool,
    start: std::time::Instant,
    soft_ms: Option<u64>,
    hard_ms: Option<u64>,
    node_limit: Option<u64>,
    /// Position keys along the current search path (root history + tree).
    path: Vec<u64>,
}

impl<E: Evaluator> Engine<E> {
    /// The engine's invariant: its tables have their sizes, history scores
    /// stay in range, and the table below the deepest ply is empty.
    pub closed spec fn wf(&self) -> bool {
        &&& self.tt.wf()
        &&& self.killers@.len() == MAX_PLY
        &&& self.history@.len() == 8192
        &&& forall|i: int| 0 <= i < 8192 ==> 0 <= #[trigger] self.history@[i] <= 600_000
        &&& self.pv@.len() == MAX_PLY
        &&& self.pv@[MAX_PLY - 1]@.len() == 0
        &&& lmr_table_ok(self.lmr@)
        &&& 0 <= self.seldepth
    }

    /// The principal variation found below ply `ply`.
    pub closed spec fn pv_at(&self, ply: int) -> Seq<Move> {
        self.pv@[ply]@
    }

    /// The keys along the current search path.
    pub closed spec fn path_keys(&self) -> Seq<u64> {
        self.path@
    }

    /// A new engine over `eval`, with a `tt_mb` MiB transposition table and
    /// the late-move reduction table `lmr`.
    pub fn with_eval_and_tt(eval: E, tt_mb: usize, lmr: Vec<Vec<i32>>) -> (r: Engine<E>)
        requires
            tt_mb * 2097152 <= usize::MAX,
            lmr_table_ok(lmr@),
        ensures
            r.wf(),
    {
        let mut killers: Vec<(Move, Move)> = Vec::new();
        let mut pv: Vec<Vec<Move>> = Vec::new();
        let mut i: usize = 0;
        while i < MAX_PLY
            invariant
                i <= MAX_PLY,
                killers@.len() == i,
                pv@.len() == i,
                forall|k: int| 0 <= k < i ==> (#[trigger] pv@[k])@.len() == 0,
            decreases MAX_PLY - i,
        {
            killers.push((Move::none(), Move::none()));
            pv.push(Vec::new());
            i += 1;
        }
        let mut history: Vec<i32> = Vec::new();
        let mut h: usize = 0;
        while h < 8192
            invariant
                h <= 8192,
                history@.len() == h,
                forall|k: int| 0 <= k < h ==> #[trigger] history@[k] == 0,
            decreases 8192 - h,
        {
            history.push(0);
            h += 1;
        }
        Engine {
            tt: Tt::new(tt_mb),
            eval,
            killers,
            history,
            pv,
            lmr,
            stop: std::sync::Arc::new(std::sync::atomic::AtomicBool::new(false)),
            root_history: Vec::new(),
            nodes: 0,
            seldepth: 0,
            stopped: false,
            start: instant_now(),
            soft_ms: None,
            hard_ms: None,
            node_limit: None,
            path: Vec::new(),
        }
    }

    /// Shared stop flag: set it from another thread to abort the search.
    pub fn stop_handle(&self) -> std::sync::Arc<std::sync::atomic::AtomicBool> {
        share_flag(&self.stop)
    }

    /// Resize the transposition table (MiB) and clear it.
    pub fn resize_tt(&mut self, mb: usize)
        requires
            old(self).wf(),
            mb * 2097152 <= usize::MAX,
        ensures
            final(self).wf(),
    {
        self.tt.resize(mb);
    }

    /// Clear the transposition table and the search heuristics (UCI
    /// `ucinewgame`).
    pub fn new_game(&mut self)
        requires
            old(self).wf(),
        ensures
            final(self).wf(),
    {
        self.tt.clear();
        let mut i: usize = 0;
        while i < MAX_PLY
            invariant
                i <= MAX_PLY,
                self.wf(),
            decreases MAX_PLY - i,
        {
            self.killers.set(i, (Move::none(), Move::none()));
            i += 1;
        }
        let mut h: usize = 0;
        while h < 8192
            invariant
                h <= 8192,
                self.wf(),
            decreases 8192 - h,
        {
            self.history.set(h, 0);
            h += 1;
        }
    }

    /// Seed the keys of the positions that preceded the root, so the search
    /// recognises repetitions of the actual game.
    pub fn set_history(&mut self, keys: &[u64])
        requires
            old(self).wf(),
        ensures
            final(self).wf(),
            final(self).root_keys() == keys@,
    {
        let mut v: Vec<u64> = Vec::new();
        let mut i: usize = 0;
        while i < keys.len()
            invariant
                i <= keys@.len(),
                v@ == keys@.take(i as int),
            decreases keys@.len() - i,
        {
            v.push(keys[i]);
            i += 1;
            proof {
                assert(v@ =~= keys@.take(i as int));
            }
        }
        proof {
            assert(keys@.take(keys@.len() as int) =~= keys@);
        }
        self.root_history = v;
    }

    /// The keys seeded by `set_history`.
    pub closed spec fn root_keys(&self) -> Seq<u64> {
        self.root_history@
    }

    fn elapsed_ms(&self) -> u128 {
        let d = elapsed_since(&self.start);
        whole_millis(&d)
    }

    /// Whether the search is to stop: the flag is raised, the node budget is
    /// spent, or the hard deadline has passed.
    fn should_stop(&self) -> bool {
        if flag_is_set(&self.stop) {
            return true;
        }
        match self.node_limit {
            Some(nl) => {
                if self.nodes >= nl {
                    return true;
                }
            },
            None => {},
        }
        match self.hard_ms {
            Some(hd) => self.elapsed_ms() >= hd as u128,
            None => false,
        }
    }

    /// Count a node, and check now and then whether to stop.
    fn tick(&mut self)
        requires
            old(self).wf(),
        ensures
            final(self).wf(),
            final(self).pv == old(self).pv,
            final(self).path == old(self).path,
    {
        if self.nodes % 2048 == 0 && self.should_stop() {
            self.stopped = true;
        }
    }

    fn count_node(&mut self, ply: usize)
        requires
            old(self).wf(),
            ply < MAX_PLY,
        ensures
            final(self).wf(),
            final(self).pv == old(self).pv,
            final(self).path == old(self).path,
            final(self).stopped == old(self).stopped,
    {
        self.nodes = self.nodes.saturating_add(1);
        if ply as i32 > self.seldepth {
            self.seldepth = ply as i32;
        }
    }

    /// Whether the current position repeats an ancestor within the
    /// half-move window (positions since the last irreversible move).
    fn is_repetition(&self, board: &Board) -> bool
        requires
            board.inv(),
    {
        let n = self.path.len();
        if n < 2 {
            return false;
        }
        let key = self.path[n - 1];
        let hm = board.halfmove_clock() as usize;
        let start = if n - 1 > hm {
            n - 1 - hm
        } else {
            0
        };
        let mut i = n - 1;
        while i > start
            invariant
                start <= i <= n - 1,
                n == self.path@.len(),
            decreases i,
        {
            i -= 1;
            if self.path[i] == key {
                return true;
            }
        }
        false
    }

    /// MVV-LVA capture score (victim heavily weighted over attacker).
    fn capture_score(&self, board: &Board, mv: Move) -> (r: i32)
        requires
            board.inv(),
        ensures
            -10_000 <= r <= 170_000,
    {
        proof {
            board.lemma_inv_wf();
        }
        let victim = if mv.is_en_passant() {
            PieceType::Pawn
        } else {
            match board.piece_type_at(mv.to()) {
                Some(p) => p,
                None => PieceType::Pawn,
            }
        };
        let attacker = match board.piece_type_at(mv.from()) {
            Some(p) => p,
            None => PieceType::Pawn,
        };
        let mut s = piece_value(victim) * 16 - piece_value(attacker);
        match mv.promotion_piece() {
            Some(p) => {
                s = s + piece_value(p);
            },
            None => {},
        }
        s
    }

    /// The ordering score of a move: the hash move first, then captures,
    /// promotions, killer moves, and quiet moves by history.
    fn move_score(&self, board: &Board, mv: Move, tt_move: Move, ply: usize, stm: usize) -> i32
        requires
            self.wf(),
            board.inv(),
            ply < MAX_PLY,
            stm < 2,
    {
        if mv == tt_move {
            return 2_000_000;
        }
        if mv.is_capture() {
            return 1_000_000 + self.capture_score(board, mv);
        }
        match mv.promotion_piece() {
            Some(p) => {
                return 900_000 + piece_value(p);
            },
            None => {},
        }
        let (k0, k1) = self.killers[ply];
        if k0 == mv {
            return 800_000;
        }
        if k1 == mv {
            return 700_000;
        }
        self.history[history_index(stm, mv)]
    }

    /// The moves of `scored` by descending score.
    fn by_score(scored: Vec<(i32, Move)>, Ghost(v): Ghost<crate::board::BoardState>) -> (r: Vec<Move>)
        requires
            forall|j: int| 0 <= j < scored@.len() ==> legal(v, (#[trigger] scored@[j]).1),
        ensures
            r@.len() == scored@.len(),
            forall|j: int| 0 <= j < r@.len() ==> legal(v, #[trigger] r@[j]),
    {
        let mut rest = scored;
        let mut out: Vec<Move> = Vec::new();
        let ghost total = rest@.len();
        while rest.len() > 0
            invariant
                out@.len() + rest@.len() == total,
                forall|j: int| 0 <= j < rest@.len() ==> legal(v, (#[trigger] rest@[j]).1),
                forall|j: int| 0 <= j < out@.len() ==> legal(v, #[trigger] out@[j]),
            decreases rest@.len(),
        {
            let mut best: usize = 0;
            let mut k: usize = 1;
            while k < rest.len()
                invariant
                    best < rest@.len(),
                    1 <= k <= rest@.len(),
                decreases rest@.len() - k,
            {
                if rest[k].0 > rest[best].0 {
                    best = k;
                }
                k += 1;
            }
            let ghost before = rest@;
            let (_, mv) = rest.remove(best);
            assert(legal(v, before[best as int].1));
            out.push(mv);
            proof {
                assert forall|j: int| 0 <= j < rest@.len() implies legal(v, (#[trigger] rest@[j]).1) by {
                    if j < best {
                        assert(rest@[j] == before[j]);
                    } else {
                        assert(rest@[j] == before[j + 1]);
                    }
                }
            }
        }
        out
    }

    /// The legal moves of `board` in search order.
    fn order(&self, board: &Board, moves: &MoveList, tt_move: Move, ply: usize) -> (r: Vec<Move>)
        requires
            self.wf(),
            board.valid(),
            ply < MAX_PLY,
            forall|m: Move| #[trigger] moves@.contains(m) == legal(board@, m),
        ensures
            r@.len() == moves@.len(),
            forall|j: int| 0 <= j < r@.len() ==> legal(board@, #[trigger] r@[j]),
    {
        let stm = board.side_to_move().index();
        let mut scored: Vec<(i32, Move)> = Vec::new();
        let n = moves.len();
        let mut i: usize = 0;
        while i < n
            invariant
                i <= n,
                n == moves@.len(),
                scored@.len() == i,
                self.wf(),
                board.valid(),
                ply < MAX_PLY,
                stm < 2,
                forall|m: Move| #[trigger] moves@.contains(m) == legal(board@, m),
                forall|j: int| 0 <= j < i ==> legal(board@, (#[trigger] scored@[j]).1),
            decreases n - i,
        {
            let mv = moves.get(i);
            assert(moves@.contains(moves@[i as int]));
            scored.push((self.move_score(board, mv, tt_move, ply, stm), mv));
            i += 1;
        }
        Self::by_score(scored, Ghost(board@))
    }

    fn update_killers(&mut self, ply: usize, mv: Move)
        requires
            old(self).wf(),
            ply < MAX_PLY,
        ensures
            final(self).wf(),
            final(self).pv == old(self).pv,
            final(self).path == old(self).path,
            final(self).stopped == old(self).stopped,
    {
        let (k0, _) = self.killers[ply];
        if k0 != mv {
            self.killers.set(ply, (mv, k0));
        }
    }

    fn update_history(&mut self, stm: usize, mv: Move, depth: i32)
        requires
            old(self).wf(),
            stm < 2,
            0 <= depth <= MAX_DEPTH + 1,
        ensures
            final(self).wf(),
            final(self).pv == old(self).pv,
            final(self).path == old(self).path,
            final(self).stopped == old(self).stopped,
    {
        let i = history_index(stm, mv);
        let h = self.history[i];
        assert(0 <= depth * depth <= 201 * 201) by (nonlinear_arith)
            requires
                0 <= depth <= 201,
        ;
        let updated = if h + depth * depth < 600_000 {
            h + depth * depth
        } else {
            600_000
        };
        self.history.set(i, updated);
    }

    /// The line below ply `ply` becomes `mv` followed by the line below the
    /// next ply.
    fn update_pv(&mut self, ply: usize, mv: Move)
        requires
            old(self).wf(),
            ply + 1 < MAX_PLY,
        ensures
            final(self).wf(),
            final(self).pv@.len() == old(self).pv@.len(),
            final(self).pv_at(ply as int) == seq![mv] + old(self).pv_at(ply + 1),
            forall|k: int| 0 <= k < MAX_PLY && k != ply ==> final(self).pv@[k] == old(self).pv@[k],
            final(self).path == old(self).path,
            final(self).stopped == old(self).stopped,
    {
        let mut line: Vec<Move> = Vec::new();
        line.push(mv);
        let n = self.pv[ply + 1].len();
        let mut i: usize = 0;
        while i < n
            invariant
                i <= n,
                n == self.pv@[ply + 1]@.len(),
                ply + 1 < MAX_PLY,
                self.pv@.len() == MAX_PLY,
                line@ == seq![mv] + self.pv@[ply + 1]@.take(i as int),
            decreases n - i,
        {
            line.push(self.pv[ply + 1][i]);
            i += 1;
            proof {
                assert(line@ =~= seq![mv] + self.pv@[ply + 1]@.take(i as int));
            }
        }
        proof {
            assert(self.pv@[ply + 1]@.take(n as int) =~= self.pv@[ply + 1]@);
        }
        self.pv.set(ply, line);
    }

    fn clear_pv(&mut self, ply: usize)
        requires
            old(self).wf(),
            ply < MAX_PLY,
        ensures
            final(self).wf(),
            final(self).pv@.len() == old(self).pv@.len(),
            final(self).pv_at(ply as int).len() == 0,
            forall|k: int| 0 <= k < MAX_PLY && k != ply ==> final(self).pv@[k] == old(self).pv@[k],
            final(self).path == old(self).path,
            final(self).stopped == old(self).stopped,
    {
        self.pv.set(ply, Vec::new());
    }

    /// Play `mv` on `board`, with the evaluator's hook and the path.
    fn play(&mut self, board: &mut Board, mv: Move, ply: usize) -> (r: Undo)
        requires
            old(self).wf(),
            old(board).valid(),
            clock_room(old(board)@, ply as int),
            ply < MAX_PLY,
            legal(old(board)@, mv),
        ensures
            final(self).wf(),
            final(board).inv(),
            final(board)@ == make_view(old(board)@, mv),
            r == crate::board::undo_spec(old(board)@, mv),
            clock_room(final(board)@, ply + 1),
            state_wf(old(board)@),
            applicable(old(board)@, mv),
            final(self).pv == old(self).pv,
            final(self).path@ == old(self).path@.push(crate::board::zobrist(final(board)@)),
            final(self).stopped == old(self).stopped,
    {
        proof {
            lemma_playable(*board, mv, ply as int);
        }
        let undo = board.make_move(mv);
        self.eval.on_make(board, mv);
        self.path.push(board.hash());
        undo
    }

    /// Take back `mv` from `board`.
    fn take_back(&mut self, board: &mut Board, mv: Move, undo: Undo, Ghost(v): Ghost<crate::board::BoardState>)
        requires
            old(self).wf(),
            old(self).path@.len() > 0,
            old(board).inv(),
            state_wf(v),
            applicable(v, mv),
            old(board)@ == make_view(v, mv),
            undo == crate::board::undo_spec(v, mv),
        ensures
            final(self).wf(),
            final(board).inv(),
            final(board)@ == v,
            final(self).pv == old(self).pv,
            final(self).path@ == old(self).path@.drop_last(),
            final(self).stopped == old(self).stopped,
    {
        proof {
            board.lemma_inv_wf();
        }
        self.path.pop();
        board.unmake_move(mv, undo);
        self.eval.on_unmake(board, mv);
    }
}

/// The index of a move in the history table.
fn history_index(stm: usize, mv: Move) -> (r: usize)
    requires
        stm < 2,
    ensures
        r < 8192,
{
    stm * 4096 + mv.from().index() * 64 + mv.to().index()
}

/// Whether both kings are still on the board (a king can only be captured
/// after an illegal move, from a position the rules do not allow).
pub(crate) fn kings_present(board: &Board) -> (r: bool)
    requires
        board.inv(),
    ensures
        r == (has_king(board@, Color::White) && has_king(board@, Color::Black)),
{
    proof {
        board.lemma_inv_wf();
        crate::bitboard::lemma_mem_zero_full();
    }
    let w = board.pieces_colored(PieceType::King, Color::White);
    let b = board.pieces_colored(PieceType::King, Color::Black);
    let rw = match w.lsb() {
        Some(s) => {
            assert(crate::board::has_piece(board@, s.0 as int, Color::White, PieceType::King));
            true
        },
        None => false,
    };
    let rb = match b.lsb() {
        Some(s) => {
            assert(crate::board::has_piece(board@, s.0 as int, Color::Black, PieceType::King));
            true
        },
        None => false,
    };
    proof {
        if !rw {
            assert forall|s: int| !#[trigger] crate::board::has_piece(board@, s, Color::White, PieceType::King) by {
                assert(!crate::bitboard::mem(w.0, s));
            }
        }
        if !rb {
            assert forall|s: int| !#[trigger] crate::board::has_piece(board@, s, Color::Black, PieceType::King) by {
                assert(!crate::bitboard::mem(b.0, s));
            }
        }
    }
    rw && rb
}

impl<E: Evaluator> Engine<E> {
    /// Quiescence search: stand pat on the static evaluation (when not in
    /// check), then search captures and promotions (all evasions when in
    /// check) until the position is quiet.
    fn quiescence(&mut self, board: &mut Board, alpha: i32, beta: i32, ply: usize) -> (r: i32)
        requires
            old(self).wf(),
            old(board).valid(),
            clock_room(old(board)@, ply as int),
            -SCORE_LIMIT <= alpha < beta <= SCORE_LIMIT,
            ply < MAX_PLY,
        ensures
            final(self).wf(),
            final(board).valid(),
            final(board)@ == old(board)@,
            -SCORE_LIMIT <= r <= SCORE_LIMIT,
            final(self).path@ == old(self).path@,
            final(self).pv == old(self).pv,
        decreases MAX_PLY - ply,
    {
        self.tick();
        if self.stopped {
            return 0;
        }
        self.count_node(ply);
        if ply >= MAX_PLY - 1 {
            return self.eval.evaluate(board);
        }
        let in_check = board.in_check();
        let mut scored: Vec<(i32, Move)> = Vec::new();
        let mut alpha = alpha;
        let mut best: i32;
        if in_check {
            let moves = board.legal_moves();
            let n = moves.len();
            if n == 0 {
                return -MATE + ply as i32;
            }
            let stm = board.side_to_move().index();
            let mut i: usize = 0;
            while i < n
                invariant
                    i <= n,
                    n == moves@.len(),
                    self.wf(),
                    board.valid(),
                    ply < MAX_PLY,
                    stm < 2,
                    forall|m: Move| #[trigger] moves@.contains(m) == legal(board@, m),
                    forall|j: int| 0 <= j < scored@.len() ==> legal(board@, (#[trigger] scored@[j]).1),
                decreases n - i,
            {
                let mv = moves.get(i);
                assert(moves@.contains(moves@[i as int]));
                scored.push((self.move_score(board, mv, Move::none(), ply, stm), mv));
                i += 1;
            }
            best = -INFINITY;
        } else {
            let stand_pat = self.eval.evaluate(board);
            if stand_pat >= beta {
                return stand_pat;
            }
            if stand_pat > alpha {
                alpha = stand_pat;
            }
            best = stand_pat;
            let tactical = board.legal_tactical_moves();
            let n = tactical.len();
            let mut i: usize = 0;
            while i < n
                invariant
                    i <= n,
                    n == tactical@.len(),
                    self.wf(),
                    board.valid(),
                    forall|m: Move| #[trigger] tactical@.contains(m) ==> legal(board@, m),
                    forall|j: int| 0 <= j < scored@.len() ==> legal(board@, (#[trigger] scored@[j]).1),
                decreases n - i,
            {
                let mv = tactical.get(i);
                assert(tactical@.contains(tactical@[i as int]));
                scored.push((self.capture_score(board, mv), mv));
                i += 1;
            }
        }
        let ordered = Self::by_score(scored, Ghost(board@));
        let ghost v0 = board@;
        let ghost path0 = self.path@;
        let ghost pv0 = self.pv;
        let mut k: usize = 0;
        while k < ordered.len()
            invariant
                self.wf(),
                board.valid(),
                board@ == v0,
                v0 == old(board)@,
                clock_room(v0, ply as int),
                ply < MAX_PLY - 1,
                -SCORE_LIMIT <= alpha < beta <= SCORE_LIMIT,
                -SCORE_LIMIT <= best <= SCORE_LIMIT,
                self.path@ == path0,
                path0 == old(self).path@,
                self.pv == pv0,
                pv0 == old(self).pv,
                forall|j: int| 0 <= j < ordered@.len() ==> legal(v0, #[trigger] ordered@[j]),
            decreases ordered@.len() - k,
        {
            let mv = ordered[k];
            let undo = self.play(board, mv, ply);
            if !kings_present(board) {
                self.take_back(board, mv, undo, Ghost(v0));
                proof {
                    board.lemma_inv_wf();
                }
                k += 1;
                continue;
            }
            proof {
                board.lemma_inv_wf();
            }
            let child = self.quiescence(board, -beta, -alpha, ply + 1);
            let score = -child;
            self.take_back(board, mv, undo, Ghost(v0));
            proof {
                board.lemma_inv_wf();
            }
            if self.stopped {
                return 0;
            }
            if score > best {
                best = score;
                if score > alpha {
                    if score >= beta {
                        break;
                    }
                    alpha = score;
                }
            }
            k += 1;
        }
        best
    }

    /// Negamax with alpha-beta over the window `(alpha, beta)`, `depth`
    /// plies deep, `ply` plies below the root. The line it finds below this
    /// ply is left in the principal-variation table.
    fn negamax(&mut self, board: &mut Board, depth: i32, alpha: i32, beta: i32, ply: usize) -> (r: i32)
        requires
            old(self).wf(),
            old(board).valid(),
            clock_room(old(board)@, ply as int),
            -SCORE_LIMIT <= alpha < beta <= SCORE_LIMIT,
            ply < MAX_PLY,
            -1000 < depth <= MAX_DEPTH,
        ensures
            final(self).wf(),
            final(board).valid(),
            final(board)@ == old(board)@,
            -SCORE_LIMIT <= r <= SCORE_LIMIT,
            final(self).path@ == old(self).path@,
            forall|k: int| 0 <= k < ply ==> final(self).pv@[k] == old(self).pv@[k],
            legal_line(old(board)@, final(self).pv_at(ply as int)),
        decreases MAX_PLY - ply,
    {
        if ply >= MAX_PLY - 1 {
            return self.eval.evaluate(board);
        }
        self.clear_pv(ply);
        let is_root = ply == 0;
        let is_pv = beta - alpha > 1;
        self.tick();
        if self.stopped {
            return 0;
        }
        let mut alpha = alpha;
        let mut beta = beta;
        if !is_root {
            if self.is_repetition(board) || board.halfmove_clock() >= 100
                || board.is_insufficient_material() {
                return DRAW;
            }
            let lo = -MATE + ply as i32;
            if alpha < lo {
                alpha = lo;
            }
            let hi = MATE - ply as i32 - 1;
            if beta > hi {
                beta = hi;
            }
            if alpha >= beta {
                return alpha;
            }
        }
        let in_check = board.in_check();
        let depth = if in_check {
            depth + 1
        } else {
            depth
        };
        if depth <= 0 {
            return self.quiescence(board, alpha, beta, ply);
        }
        self.count_node(ply);
        let key = board.hash();
        let mut tt_move = Move::none();
        match self.tt.probe(key) {
            Some(d) => {
                tt_move = d.mv;
                if !is_pv && d.depth >= depth {
                    let s = score_from_tt(d.score, ply);
                    match d.bound {
                        Bound::Exact => {
                            return s;
                        },
                        Bound::Lower => {
                            if s >= beta {
                                return s;
                            }
                        },
                        Bound::Upper => {
                            if s <= alpha {
                                return s;
                            }
                        },
                        Bound::Empty => {},
                    }
                }
            },
            None => {},
        }
        let moves = board.legal_moves();
        if moves.len() == 0 {
            return if in_check {
                -MATE + ply as i32
            } else {
                DRAW
            };
        }
        let stm = board.side_to_move().index();
        let ordered = self.order(board, &moves, tt_move, ply);
        let n = ordered.len();
        let mut best_score: i32 = -INFINITY;
        let mut best_move = Move::none();
        let mut bound = Bound::Upper;
        let ghost v0 = board@;
        let ghost path0 = self.path@;
        let ghost pv_old = old(self).pv@;
        let mut i: usize = 0;
        while i < n
            invariant
                n == ordered@.len(),
                self.wf(),
                board.valid(),
                board@ == v0,
                v0 == old(board)@,
                clock_room(v0, ply as int),
                ply < MAX_PLY - 1,
                1 <= depth <= MAX_DEPTH + 1,
                stm < 2,
                -SCORE_LIMIT <= alpha < beta <= SCORE_LIMIT,
                -SCORE_LIMIT <= best_score <= SCORE_LIMIT,
                self.path@ == path0,
                path0 == old(self).path@,
                pv_old == old(self).pv@,
                pv_old.len() == MAX_PLY,
                forall|k: int| 0 <= k < ply ==> self.pv@[k] == pv_old[k],
                legal_line(v0, self.pv_at(ply as int)),
                forall|j: int| 0 <= j < ordered@.len() ==> legal(v0, #[trigger] ordered@[j]),
            decreases n - i,
        {
            let mv = ordered[i];
            let is_quiet = !mv.is_capture() && !mv.is_promotion();
            let undo = self.play(board, mv, ply);
            if !kings_present(board) {
                self.take_back(board, mv, undo, Ghost(v0));
                proof {
                    board.lemma_inv_wf();
                }
                i += 1;
                continue;
            }
            proof {
                board.lemma_inv_wf();
            }
            let mut reduction: i32 = 0;
            if depth >= 3 && i >= 4 && is_quiet && !in_check {
                let col = if i < LMR_SIZE {
                    i
                } else {
                    LMR_SIZE - 1
                };
                proof {
                    assert(self.lmr@[depth as int]@.len() == LMR_SIZE);
                }
                reduction = self.lmr[depth as usize][col];
                if is_pv {
                    reduction = if reduction > 1 {
                        reduction - 1
                    } else {
                        0
                    };
                }
            }
            let new_depth = depth - 1;
            let ghost pv_before = self.pv@;
            let score = if i == 0 {
                -self.negamax(board, new_depth, -beta, -alpha, ply + 1)
            } else {
                let mut s = -self.negamax(board, new_depth - reduction, -alpha - 1, -alpha, ply + 1);
                if s > alpha && reduction > 0 && !self.stopped {
                    s = -self.negamax(board, new_depth, -alpha - 1, -alpha, ply + 1);
                }
                if s > alpha && s < beta && !self.stopped {
                    s = -self.negamax(board, new_depth, -beta, -alpha, ply + 1);
                }
                s
            };
            self.take_back(board, mv, undo, Ghost(v0));
            proof {
                board.lemma_inv_wf();
            }
            proof {
                assert forall|k: int| 0 <= k < ply implies self.pv@[k] == pv_old[k] by {
                    assert(pv_before[k] == pv_old[k]);
                }
            }
            if self.stopped {
                return 0;
            }
            if score > best_score {
                best_score = score;
                best_move = mv;
                if score > alpha {
                    alpha = if score < beta {
                        score
                    } else {
                        alpha
                    };
                    bound = Bound::Exact;
                    let ghost line = self.pv_at(ply + 1);
                    self.update_pv(ply, mv);
                    proof {
                        assert((seq![mv] + line).drop_first() =~= line);
                    }
                    if score >= beta {
                        bound = Bound::Lower;
                        if is_quiet {
                            self.update_killers(ply, mv);
                            self.update_history(stm, mv, depth);
                        }
                        break;
                    }
                }
            }
            i += 1;
        }
        self.tt.store(key, best_move, score_to_tt(best_score, ply), depth, bound);
        best_score
    }
}

/// The aspiration window at depth `depth` around `prev`: `(alpha, beta)`.
fn aspiration(prev: i32, delta: i32) -> (r: (i32, i32))
    requires
        -SCORE_LIMIT <= prev <= SCORE_LIMIT,
        0 < delta <= 100_000,
    ensures
        r.0 == (if prev - delta > -INFINITY { prev - delta } else { -INFINITY as int }),
        r.1 == (if prev + delta < INFINITY { prev + delta } else { INFINITY as int }),
{
    let a = if prev - delta > -INFINITY {
        prev - delta
    } else {
        -INFINITY
    };
    let b = if prev + delta < INFINITY {
        prev + delta
    } else {
        INFINITY
    };
    (a, b)
}

impl<E: Evaluator> Engine<E> {
    /// The root search of one iteration, `depth` plies deep. From depth 5
    /// it starts with a window of 25 around the previous score `prev` and
    /// widens it by half on each failure; after 64 failures (or when the
    /// window would be empty) it searches the full window.
    fn search_root(&mut self, board: &mut Board, depth: i32, prev: i32) -> (r: i32)
        requires
            old(self).wf(),
            old(board).valid(),
            clock_room(old(board)@, 0),
            1 <= depth <= MAX_DEPTH,
            -SCORE_LIMIT <= prev <= SCORE_LIMIT,
        ensures
            final(self).wf(),
            final(board).valid(),
            final(board)@ == old(board)@,
            -SCORE_LIMIT <= r <= SCORE_LIMIT,
            final(self).path@ == old(self).path@,
            legal_line(old(board)@, final(self).pv_at(0)),
    {
        if depth >= 5 {
            let mut delta: i32 = 25;
            let (a0, b0) = aspiration(prev, delta);
            let mut alpha = a0;
            let mut beta = b0;
            let ghost v0 = board@;
            let ghost path0 = self.path@;
            let mut tries: u32 = 0;
            while tries < 64 && alpha < beta
                invariant
                    self.wf(),
                    board.valid(),
                    board@ == v0,
                    v0 == old(board)@,
                    clock_room(v0, 0),
                    1 <= depth <= MAX_DEPTH,
                    self.path@ == path0,
                    path0 == old(self).path@,
                    -INFINITY <= alpha,
                    beta <= INFINITY,
                    0 < delta <= 100_000,
                decreases 64 - tries,
            {
                let score = self.negamax(board, depth, alpha, beta, 0);
                if self.stopped {
                    return score;
                }
                if score <= alpha {
                    beta = (alpha + beta) / 2;
                    alpha = if score - delta > -INFINITY {
                        score - delta
                    } else {
                        -INFINITY
                    };
                } else if score >= beta {
                    beta = if score + delta < INFINITY {
                        score + delta
                    } else {
                        INFINITY
                    };
                } else {
                    return score;
                }
                if delta < 65_536 {
                    delta = delta + delta / 2;
                }
                tries += 1;
            }
        }
        self.negamax(board, depth, -INFINITY, INFINITY, 0)
    }

    /// Reset the per-search state for a search of `board` under `limits`:
    /// counters, the clock, the node budget, the table's generation, the
    /// evaluator, the path (the game's keys and the root's) and the time
    /// budget in milliseconds.
    fn prepare(&mut self, board: &Board, limits: &Limits)
        requires
            old(self).wf(),
            board.valid(),
        ensures
            final(self).wf(),
            final(self).path@ == old(self).root_history@.push(crate::board::zobrist(board@)),
            final(self).root_history == old(self).root_history,
            final(self).pv == old(self).pv,
    {
        self.nodes = 0;
        self.seldepth = 0;
        self.stopped = false;
        self.start = instant_now();
        self.node_limit = limits.nodes;
        self.tt.new_generation();
        self.eval.refresh(board);
        let mut path: Vec<u64> = Vec::new();
        let n = self.root_history.len();
        let mut i: usize = 0;
        while i < n
            invariant
                i <= n,
                n == self.root_history@.len(),
                path@ == self.root_history@.take(i as int),
            decreases n - i,
        {
            path.push(self.root_history[i]);
            i += 1;
            proof {
                assert(path@ =~= self.root_history@.take(i as int));
            }
        }
        proof {
            assert(self.root_history@.take(n as int) =~= self.root_history@);
        }
        path.push(board.hash());
        self.path = path;
        self.soft_ms = None;
        self.hard_ms = None;
        match limits.movetime {
            Some(mt) => {
                self.soft_ms = Some(mt);
                self.hard_ms = Some(mt);
            },
            None => {
                if !limits.infinite {
                    let (time, inc) = match board.side_to_move() {
                        Color::White => (limits.wtime, limits.winc),
                        Color::Black => (limits.btime, limits.binc),
                    };
                    match time {
                        Some(t) => {
                            let togo: u32 = match limits.movestogo {
                                Some(m) => m,
                                None => 30,
                            };
                            let mtg: u64 = if togo < 1 {
                                1
                            } else {
                                togo as u64
                            };
                            let inc: u64 = match inc {
                                Some(x) => x,
                                None => 0,
                            };
                            let reserve: u64 = if t < 50 {
                                t
                            } else {
                                50
                            };
                            let share = (t / mtg).saturating_add(inc);
                            let cap = t - reserve;
                            let mut alloc = if share < cap {
                                share
                            } else {
                                cap
                            };
                            if alloc < 1 {
                                alloc = 1;
                            }
                            self.soft_ms = Some(alloc);
                            let four: u64 = if alloc <= u64::MAX / 4 {
                                alloc * 4
                            } else {
                                u64::MAX
                            };
                            let mut hard = if four < t - reserve {
                                four
                            } else {
                                t - reserve
                            };
                            if hard < alloc {
                                hard = alloc;
                            }
                            self.hard_ms = Some(hard);
                        },
                        None => {},
                    }
                }
            },
        }
    }

    /// The principal variation of the last iteration.
    fn collect_pv(&self) -> (r: Vec<Move>)
        requires
            self.wf(),
        ensures
            r@ == self.pv_at(0),
    {
        let mut line: Vec<Move> = Vec::new();
        let n = self.pv[0].len();
        let mut i: usize = 0;
        while i < n
            invariant
                i <= n,
                n == self.pv@[0]@.len(),
                self.pv@.len() == MAX_PLY,
                line@ == self.pv@[0]@.take(i as int),
            decreases n - i,
        {
            line.push(self.pv[0][i]);
            i += 1;
            proof {
                assert(line@ =~= self.pv@[0]@.take(i as int));
            }
        }
        proof {
            assert(self.pv@[0]@.take(n as int) =~= self.pv@[0]@);
        }
        line
    }

    /// The report of a finished iteration.
    fn make_info(&self, depth: i32, score: i32, pv: &[Move]) -> (r: SearchInfo)
        requires
            self.wf(),
        ensures
            r.depth == depth,
            r.score == score,
            r.seldepth == self.seldepth,
            r.nodes == self.nodes,
            r.pv@ == pv@,
    {
        let time_ms = self.elapsed_ms();
        let nps: u64 = if time_ms == 0 {
            0
        } else {
            let per = (self.nodes as u128) * 1000 / time_ms;
            #[verifier::truncate]
            (per as u64)
        };
        let mut line: Vec<Move> = Vec::new();
        let mut i: usize = 0;
        while i < pv.len()
            invariant
                i <= pv@.len(),
                line@ == pv@.take(i as int),
            decreases pv@.len() - i,
        {
            line.push(pv[i]);
            i += 1;
            proof {
                assert(line@ =~= pv@.take(i as int));
            }
        }
        proof {
            assert(pv@.take(pv@.len() as int) =~= pv@);
        }
        SearchInfo {
            depth,
            seldepth: self.seldepth,
            score,
            nodes: self.nodes,
            time_ms,
            nps,
            hashfull: self.tt.hashfull(),
            pv: line,
        }
    }
}

/// What a finished analysis of `v` promises: a legal best move whenever
/// the position has one (and none otherwise), a principal variation made
/// of legal moves that starts with the best move, and the variation's
/// second move as the move to ponder on.
pub open spec fn analysis_ok(v: crate::board::BoardState, a: Analysis) -> bool {
    &&& (exists|m: Move| legal(v, m)) ==> legal(v, a.best_move)
    &&& !(exists|m: Move| legal(v, m)) ==> a.best_move == Move(0) && a.pv@.len() == 0
    &&& legal_line(v, a.pv@)
    &&& a.pv@.len() > 0 ==> a.best_move == a.pv@[0]
    &&& a.ponder == (if a.pv@.len() > 1 {
        Some(a.pv@[1])
    } else {
        None
    })
}

/// The deepest iteration `analyze` runs under a depth limit `limit`.
pub open spec fn depth_cap(limit: Option<i32>) -> int {
    match limit {
        Some(d) => if d < MAX_PLY - 2 {
            d as int
        } else {
            MAX_PLY - 2
        },
        None => MAX_PLY - 2,
    }
}

impl<E: Evaluator> Engine<E> {
    /// Analyze `board` to the given limits, ignoring per-iteration info.
    pub fn analyze(&mut self, board: &Board, limits: &Limits) -> (a: Analysis)
        requires
            old(self).wf(),
            board.valid(),
            clock_room(board@, 0),
        ensures
            final(self).wf(),
            analysis_ok(board@, a),
            a.depth <= depth_cap(limits.depth),
            -SCORE_LIMIT <= a.score <= SCORE_LIMIT,
    {
        self.analyze_with(board, limits, |info: &SearchInfo| {})
    }

    /// Analyze `board` by iterative deepening, invoking `on_info` after
    /// each completed depth. It stops at the depth limit, when the search
    /// is stopped (flag, node budget or hard deadline), when the soft
    /// deadline has passed after an iteration, or on finding a forced mate.
    pub fn analyze_with(&mut self, board: &Board, limits: &Limits, on_info: impl Fn(&SearchInfo)) -> (a: Analysis)
        requires
            old(self).wf(),
            board.valid(),
            clock_room(board@, 0),
            forall|i: &SearchInfo| #[trigger] on_info.requires((i,)),
        ensures
            final(self).wf(),
            analysis_ok(board@, a),
            a.depth <= depth_cap(limits.depth),
            -SCORE_LIMIT <= a.score <= SCORE_LIMIT,
    {
        self.prepare(board, limits);
        let mut root = *board;
        let mut best_move = Move::none();
        let mut found = false;
        let mut best_score: i32 = 0;
        let mut last_pv: Vec<Move> = Vec::new();
        let cap: i32 = 126;
        let max_depth: i32 = match limits.depth {
            Some(d) => if d < cap {
                d
            } else {
                cap
            },
            None => cap,
        };
        let mut prev_score: i32 = 0;
        let mut depth: i32 = 1;
        while depth <= max_depth
            invariant
                self.wf(),
                root.valid(),
                root@ == board@,
                clock_room(board@, 0),
                max_depth == depth_cap(limits.depth),
                1 <= depth,
                -SCORE_LIMIT <= prev_score <= SCORE_LIMIT,
                -SCORE_LIMIT <= best_score <= SCORE_LIMIT,
                legal_line(board@, last_pv@),
                found ==> legal(board@, best_move),
                !found ==> best_move == Move(0),
                last_pv@.len() > 0 ==> found && best_move == last_pv@[0],
                forall|i: &SearchInfo| #[trigger] on_info.requires((i,)),
            decreases max_depth + 1 - depth,
        {
            let score = self.search_root(&mut root, depth, prev_score);
            if self.stopped && depth > 1 {
                break;
            }
            best_score = score;
            prev_score = score;
            last_pv = self.collect_pv();
            if last_pv.len() > 0 {
                best_move = last_pv[0];
                found = true;
            }
            let info = self.make_info(depth, score, last_pv.as_slice());
            on_info(&info);
            match self.soft_ms {
                Some(sd) => {
                    if self.elapsed_ms() >= sd as u128 {
                        break;
                    }
                },
                None => {},
            }
            if mate_score(score) {
                break;
            }
            depth += 1;
        }
        if !found {
            let moves = root.legal_moves();
            if moves.len() > 0 {
                best_move = moves.get(0);
                proof {
                    assert(moves@.contains(moves@[0]));
                }
            } else {
                proof {
                    assert forall|m: Move| !legal(board@, m) by {
                        if legal(board@, m) {
                            assert(moves@.contains(m));
                        }
                    }
                }
            }
        }
        let ponder = if last_pv.len() > 1 {
            Some(last_pv[1])
        } else {
            None
        };
        let plen = self.pv[0].len();
        let completed: i32 = if max_depth <= 0 || plen >= max_depth as usize {
            max_depth
        } else {
            plen as i32
        };
        Analysis {
            best_move,
            ponder,
            score: best_score,
            depth: completed,
            seldepth: self.seldepth,
            nodes: self.nodes,
            time_ms: self.elapsed_ms(),
            pv: last_pv,
        }
    }
}

} // verus!
