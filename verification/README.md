# socha — a verified Blokus client library

A client library for the Software-Challenge 2027 game Blokus, written in Verus.
Its functions carry `requires`/`ensures` contracts, and Verus proves them.

## Layout

- `src/` — the verified library
  - `neutral.rs`, `piece_shape.rs` — colours, teams, rotations, pieces, moves,
    the 21 shapes and their rotated/flipped variants
  - `internal.rs` — the board and the game state (turns, valid colours,
    undeployed shapes)
  - `rules.rs` — move validation with the exact mistake, move generation
  - `moves.rs` — applying a move and taking it back
  - `scoring.rs` — points and the game result
  - `incoming.rs`, `messages.rs` — the received server data and the library
    messages built from it
  - `outgoing.rs` — the XML sent to the server
  - `socha_com.rs`, `i_client_handler.rs` — the decisions of a connection:
    buffer framing, message hand-out, room id, command texts
  - `text.rs` — trimming, decimal rendering, float-literal check, XML escaping
- `tests/` — tests of the library on concrete values
- `app/` — the unverified shell: XML reading with strong-xml, the TCP
  connection, threads and the bot callback trait

Each `law_*` proof function states a property that holds across calls, such as
that `unmake_move` undoes `make_move`, or that move generation lists every
valid placement.
