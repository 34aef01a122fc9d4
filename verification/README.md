# chess

A chess library whose behaviour is stated in contracts and proved with Verus.

- `board`, `movegen`, `fen`, `san`, `uci`, `packed`, `zobrist`, `repetition`,
  `game`, `perft`: the position, legal move generation (each legal move listed
  once), notation, hashing, repetition identity and game outcomes.
- `search`, `tt`, `eval`: an alpha-beta engine with a transposition table,
  quiescence search, late-move reductions and aspiration windows, generic over
  an `Evaluator`. Late-move reductions come in as an integer table, so the
  search itself needs no floating point. `analyze` returns a legal best move
  whenever one exists and a principal variation of legal moves.
- `selfplay`, `series`: self-play training records and the per-position
  evaluation events of a line.
- `cards`, `review`, `review_log`, `review_api`, `trainer`, `book`: the
  spaced-repetition trainer: card catalogues, review scheduling, the event
  log and the JSON API.
- `http`, `web`, `state`, `pgn`, `uci_client`: request parsing, JSON text and
  the web handlers' logic.

Outside crates (`serde_json`, `sha2`) and a few std functions are reached
through small trusted wrappers whose contracts say what their documentation
promises; everything else is verified. Tests under `tests/` run the compiled
library.
