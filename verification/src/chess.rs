//! The move-notation resolver: legality-checked board positions,
//! algebraic move text, and wire (UCI) move text. The chess rules
//! themselves come from the `shakmaty` library, behind a narrow trusted
//! interface; everything the rest of the crate states is in terms of the
//! named results below.

use vstd::prelude::*;

verus! {

#[verifier::external_type_specification]
#[verifier::external_body]
pub struct ExChess(shakmaty::Chess);

/// Whether a six-field FEN text denotes a rule-legal standard-chess
/// position: it parses, and the setup it describes is playable.
pub uninterp spec fn board_ok(fen: Seq<char>) -> bool;

/// Whether `tok` reads as standard algebraic notation and names a legal
/// move in the position that `fen` denotes.
pub uninterp spec fn san_plays(fen: Seq<char>, tok: Seq<char>) -> bool;

/// The wire (UCI) notation of the legal move that `tok` names in `fen`.
pub uninterp spec fn wire_of_san(fen: Seq<char>, tok: Seq<char>) -> Seq<char>;

/// Whether `wire` reads as wire notation and names a legal move in the
/// position that `fen` denotes.
pub uninterp spec fn uci_plays(fen: Seq<char>, wire: Seq<char>) -> bool;

/// The wire notation, rendered anew, of the legal move that `wire` names
/// in the position that `fen` denotes.
pub uninterp spec fn wire_of_uci(fen: Seq<char>, wire: Seq<char>) -> Seq<char>;

/// A parsed, legality-checked board position, remembering the FEN text it
/// was built from.
pub struct Board {
    pos: shakmaty::Chess,
    fen: String,
}

/// Relies on shakmaty's `Fen::from_ascii` and `Fen::into_position` with
/// standard castling: together they accept exactly the FEN texts that
/// denote rule-legal standard positions.
#[verifier::external_body]
fn parse_board_raw(fen: &str) -> (r: Option<Board>)
    ensures
        r is Some <==> board_ok(fen@),
        r is Some ==> r->0.fen() == fen@,
{
    let parsed = match shakmaty::fen::Fen::from_ascii(fen.as_bytes()) {
        Ok(f) => f,
        Err(_) => return None,
    };
    let pos: shakmaty::Chess = match parsed.into_position(shakmaty::CastlingMode::Standard) {
        Ok(p) => p,
        Err(_) => return None,
    };
    Some(Board { pos, fen: fen.to_owned() })
}

/// Relies on shakmaty's `San::from_ascii` and `San::to_move`, which
/// resolve algebraic notation to a unique legal move of the position, and
/// on `Move::to_uci` with standard castling. The wire text of a legal
/// move, read back by `UciMove::from_ascii` and `UciMove::to_move`
/// against the same position, resolves to that same move again and so
/// renders to the same text.
#[verifier::external_body]
fn san_to_wire_raw(b: &Board, tok: &str) -> (r: Option<String>)
    ensures
        r is Some <==> san_plays(b.fen(), tok@),
        r is Some ==> r->0@ == wire_of_san(b.fen(), tok@),
        r is Some ==> uci_plays(b.fen(), r->0@) && wire_of_uci(b.fen(), r->0@) == r->0@,
{
    let san = match shakmaty::san::San::from_ascii(tok.as_bytes()) {
        Ok(s) => s,
        Err(_) => return None,
    };
    let m = match san.to_move(&b.pos) {
        Ok(m) => m,
        Err(_) => return None,
    };
    Some(m.to_uci(shakmaty::CastlingMode::Standard).to_string())
}

/// Relies on shakmaty's `UciMove::from_ascii` and `UciMove::to_move`,
/// which resolve wire notation to a legal move of the position, and on
/// `Move::to_uci` with standard castling to render that move again.
#[verifier::external_body]
fn rerender_raw(b: &Board, wire: &str) -> (r: Option<String>)
    ensures
        r is Some <==> uci_plays(b.fen(), wire@),
        r is Some ==> r->0@ == wire_of_uci(b.fen(), wire@),
{
    let u = match shakmaty::uci::UciMove::from_ascii(wire.as_bytes()) {
        Ok(u) => u,
        Err(_) => return None,
    };
    let m = match u.to_move(&b.pos) {
        Ok(m) => m,
        Err(_) => return None,
    };
    Some(m.to_uci(shakmaty::CastlingMode::Standard).to_string())
}

impl Board {
    /// The FEN text this board was parsed from.
    pub closed spec fn fen(&self) -> Seq<char> {
        self.fen@
    }

    /// Parses a six-field FEN text into a legality-checked board.
    pub fn parse(fen: &str) -> (r: Option<Board>)
        ensures
            r is Some <==> board_ok(fen@),
            r is Some ==> r->0.fen() == fen@,
    {
        parse_board_raw(fen)
    }

    /// Resolves an algebraic move against this board and returns its wire
    /// notation. The returned text, resolved back against the same board,
    /// renders to itself again.
    pub fn san_to_wire(&self, tok: &str) -> (r: Option<String>)
        ensures
            r is Some <==> san_plays(self.fen(), tok@),
            r is Some ==> r->0@ == wire_of_san(self.fen(), tok@),
            r is Some ==> uci_plays(self.fen(), r->0@) && wire_of_uci(self.fen(), r->0@)
                == r->0@,
    {
        san_to_wire_raw(self, tok)
    }

    /// Resolves wire notation against this board and renders the move it
    /// names anew.
    pub fn wire_roundtrip(&self, wire: &str) -> (r: Option<String>)
        ensures
            r is Some <==> uci_plays(self.fen(), wire@),
            r is Some ==> r->0@ == wire_of_uci(self.fen(), wire@),
    {
        rerender_raw(self, wire)
    }
}

} // verus!
