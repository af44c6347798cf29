//! The EPD record parser: one line of text becomes a normalized position
//! record (board FEN, accepted best moves in wire notation, display id),
//! or a structured parse failure.

use vstd::prelude::*;

use crate::chess::{board_ok, san_plays, uci_plays, wire_of_san, wire_of_uci, Board};
use crate::text;
use crate::text::{
    dec_chars, dec_string, find_sub, first_match, lines_of, split_ch, split_char, tokens,
    tokens_of,
};

verus! {

/// Each token of `ts` followed by one space, concatenated.
pub open spec fn join_sp(ts: Seq<Seq<char>>) -> Seq<char>
    decreases ts.len(),
{
    if ts.len() == 0 {
        Seq::empty()
    } else {
        ts[0] + seq![' '] + join_sp(ts.skip(1))
    }
}

/// The board-state text of an EPD line: its first four whitespace
/// separated fields, joined by single spaces, with neutral half-move and
/// full-move counters appended.
pub open spec fn epd_fen(line: Seq<char>) -> Seq<char> {
    let ts = tokens_of(line);
    let four = if ts.len() <= 4 {
        ts
    } else {
        ts.take(4)
    };
    join_sp(four) + seq!['1', ' ', '1']
}

/// The text between the best-move marker (skipping one delimiter
/// character) and the next semicolon, if both are present.
pub open spec fn move_region(line: Seq<char>) -> Option<Seq<char>> {
    match first_match(line, "bm"@) {
        None => None,
        Some(b) => {
            let start = if b + 3 <= line.len() {
                b + 3
            } else {
                line.len() as int
            };
            let tail = line.skip(start);
            match first_match(tail, ";"@) {
                None => None,
                Some(e) => Some(tail.take(e)),
            }
        },
    }
}

/// The declared best-move tokens: the move region split on single spaces.
pub open spec fn move_toks(line: Seq<char>) -> Seq<Seq<char>> {
    split_ch(move_region(line)->0, ' ')
}

/// The explicitly quoted id label of the line, if an id marker is present:
/// the text after the marker and its two delimiter characters, up to the
/// next quote (or the end of the line).
pub open spec fn explicit_id(line: Seq<char>) -> Option<Seq<char>> {
    match first_match(line, "id"@) {
        None => None,
        Some(i) => {
            let start = if i + 4 <= line.len() {
                i + 4
            } else {
                line.len() as int
            };
            let rest = line.skip(start);
            match first_match(rest, "\""@) {
                None => Some(rest),
                Some(q) => Some(rest.take(q)),
            }
        },
    }
}

/// The label synthesized for a record without an id marker.
pub open spec fn synth_id(counter: nat) -> Seq<char> {
    "position "@ + dec_chars(counter)
}

/// The display id of the line: the explicit label, or a synthesized one.
pub open spec fn spec_id(line: Seq<char>, counter: nat) -> Seq<char> {
    match explicit_id(line) {
        Some(t) => t,
        None => synth_id(counter),
    }
}

/// Synthesized labels of distinct parse attempts are distinct.
pub proof fn lemma_synth_id_distinct(c1: nat, c2: nat)
    requires
        c1 != c2,
    ensures
        synth_id(c1) != synth_id(c2),
{
    if synth_id(c1) == synth_id(c2) {
        let p = "position "@;
        assert((p + dec_chars(c1)).skip(p.len() as int) =~= dec_chars(c1));
        assert((p + dec_chars(c2)).skip(p.len() as int) =~= dec_chars(c2));
        text::lemma_dec_injective(c1, c2);
    }
}

/// A synthesized label embeds the counter it was made from: the digits
/// after the fixed prefix denote exactly that counter, so the labels of
/// successive attempts carry successive numbers.
pub proof fn lemma_synth_id_embeds_counter(c: nat)
    ensures
        text::val_of(synth_id(c).skip("position "@.len() as int)) == c,
{
    assert(("position "@ + dec_chars(c)).skip("position "@.len() as int) =~= dec_chars(c));
    text::lemma_dec_val(c);
}

/// Why a record failed to parse.
#[derive(Debug, PartialEq, Eq)]
pub enum EpdError {
    /// The four-field board prefix is not a rule-legal position.
    MalformedBoard,
    /// The line has no best-move marker.
    MissingBestMove,
    /// No semicolon terminates the best-move list.
    UnterminatedBestMoveList,
    /// A declared best move does not read as a legal move of the board;
    /// the offending token is carried.
    IllegalBestMove(String),
}

/// One parsed EPD record.
#[derive(Debug, PartialEq, Eq)]
pub struct EpdPosition {
    /// The six-field board-state text.
    pub fen: String,
    /// The accepted best moves, in wire notation, as written.
    pub best_moves: Vec<String>,
    /// The display label.
    pub id: String,
}

/// A successful parse of `line` under counter value `counter` yields
/// exactly this record.
pub open spec fn parse_result_ok(line: Seq<char>, counter: nat, p: EpdPosition) -> bool {
    let fen = epd_fen(line);
    let toks = move_toks(line);
    &&& board_ok(fen)
    &&& p.fen@ == fen
    &&& move_region(line) is Some
    &&& toks.len() >= 1
    &&& p.best_moves.deep_view().len() == toks.len()
    &&& forall|i: int| 0 <= i < toks.len() ==> san_plays(fen, toks[i])
    &&& forall|i: int|
        0 <= i < toks.len() ==> p.best_moves.deep_view()[i] == wire_of_san(fen, toks[i])
    &&& forall|i: int|
        0 <= i < toks.len() ==> {
            let w = #[trigger] p.best_moves.deep_view()[i];
            uci_plays(fen, w) && wire_of_uci(fen, w) == w
        }
    &&& p.id@ == spec_id(line, counter)
}

/// Each failure names exactly the condition that produced it.
pub open spec fn parse_result_err(line: Seq<char>, e: EpdError) -> bool {
    let fen = epd_fen(line);
    let toks = move_toks(line);
    match e {
        EpdError::MalformedBoard => !board_ok(fen),
        EpdError::MissingBestMove => board_ok(fen) && first_match(line, "bm"@) is None,
        EpdError::UnterminatedBestMoveList => board_ok(fen) && first_match(line, "bm"@) is Some
            && move_region(line) is None,
        EpdError::IllegalBestMove(t) => {
            &&& board_ok(fen)
            &&& move_region(line) is Some
            &&& exists|i: int|
                {
                    &&& 0 <= i < toks.len()
                    &&& t@ == #[trigger] toks[i]
                    &&& !san_plays(fen, toks[i])
                    &&& forall|j: int| 0 <= j < i ==> san_plays(fen, toks[j])
                }
        },
    }
}

/// A line that parses without failure.
pub open spec fn line_ok(line: Seq<char>) -> bool {
    &&& board_ok(epd_fen(line))
    &&& move_region(line) is Some
    &&& forall|i: int|
        0 <= i < move_toks(line).len() ==> san_plays(epd_fen(line), #[trigger] move_toks(line)[i])
}

/// Assembles the six-field board-state text of an EPD line.
fn assemble_fen(line: &str) -> (r: String)
    ensures
        r@ == epd_fen(line@),
{
    let ts = tokens(line);
    let k = if ts.len() > 4 {
        4
    } else {
        ts.len()
    };
    let ghost four = if tokens_of(line@).len() <= 4 {
        tokens_of(line@)
    } else {
        tokens_of(line@).take(4)
    };
    let mut out = String::new();
    let mut i: usize = 0;
    proof {
        assert(four.skip(0) =~= four);
        assert(out@ + join_sp(four) =~= join_sp(four));
    }
    while i < k
        invariant
            k == four.len(),
            k <= ts@.len(),
            ts.deep_view() == tokens_of(line@),
            four == (if tokens_of(line@).len() <= 4 {
                tokens_of(line@)
            } else {
                tokens_of(line@).take(4)
            }),
            0 <= i <= k,
            join_sp(four) == out@ + join_sp(four.skip(i as int)),
        decreases k - i,
    {
        proof {
            reveal_strlit(" ");
            assert(four.skip(i as int)[0] == four[i as int]);
            assert(four[i as int] == ts.deep_view()[i as int]);
            assert(four.skip(i as int).skip(1) =~= four.skip(i + 1));
        }
        let ghost prev = out@;
        out.append(ts[i].as_str());
        out.append(" ");
        proof {
            assert(" "@ =~= seq![' ']);
            assert(four.skip(i as int).len() > 0);
            assert(join_sp(four.skip(i as int)) == four[i as int] + seq![' '] + join_sp(
                four.skip(i + 1),
            ));
            assert(out@ + join_sp(four.skip(i + 1)) =~= prev + join_sp(four.skip(i as int)));
        }
        i += 1;
    }
    proof {
        assert(join_sp(four.skip(k as int)) =~= Seq::<char>::empty());
        assert(out@ + join_sp(four.skip(k as int)) =~= out@);
    }
    out.append("1 1");
    proof {
        reveal_strlit("1 1");
        assert("1 1"@ =~= seq!['1', ' ', '1']);
    }
    out
}

/// Parses EPD records one line at a time, synthesizing labels for records
/// without an id from a counter that advances once per parse attempt.
pub struct EpdParser {
    counter: usize,
}

impl EpdParser {
    /// How many parse attempts this parser has made.
    pub closed spec fn counter(&self) -> nat {
        self.counter as nat
    }

    /// A fresh parser, counting attempts from zero.
    pub fn new() -> (r: EpdParser)
        ensures
            r.counter() == 0,
    {
        EpdParser { counter: 0 }
    }

    /// Parses one EPD line into a record, or reports the first failure.
    pub fn parse_line(&mut self, line: &str) -> (r: Result<EpdPosition, EpdError>)
        requires
            old(self).counter() < usize::MAX,
        ensures
            final(self).counter() == old(self).counter() + 1,
            match r {
                Ok(p) => parse_result_ok(line@, old(self).counter(), p),
                Err(e) => parse_result_err(line@, e),
            },
    {
        let counter_now = self.counter;
        self.counter = self.counter + 1;
        let n = line.unicode_len();
        let fen = assemble_fen(line);
        let board = match Board::parse(fen.as_str()) {
            Some(b) => b,
            None => {
                return Err(EpdError::MalformedBoard);
            },
        };
        let bm = match find_sub(line, "bm") {
            Some(i) => i,
            None => {
                return Err(EpdError::MissingBestMove);
            },
        };
        proof {
            text::lemma_first_match(line@, "bm"@);
            reveal_strlit("bm");
        }
        let start = if n - bm >= 3 {
            bm + 3
        } else {
            n
        };
        let tail = line.substring_char(start, n);
        proof {
            assert(tail@ =~= line@.skip(start as int));
        }
        let semi = match find_sub(tail, ";") {
            Some(e) => e,
            None => {
                return Err(EpdError::UnterminatedBestMoveList);
            },
        };
        proof {
            text::lemma_first_match(tail@, ";"@);
            reveal_strlit(";");
        }
        let region = tail.substring_char(0, semi);
        proof {
            assert(region@ =~= tail@.take(semi as int));
            assert(move_region(line@) == Some(region@));
        }
        let toks = split_char(region, ' ');
        let ghost fenv = epd_fen(line@);
        let ghost tv = move_toks(line@);
        proof {
            assert(tv == split_ch(region@, ' '));
            assert(tv.len() >= 1);
        }
        let mut wires: Vec<String> = Vec::new();
        let mut i: usize = 0;
        while i < toks.len()
            invariant
                toks.deep_view() == tv,
                board.fen() == fenv,
                fenv == epd_fen(line@),
                tv == move_toks(line@),
                tv.len() >= 1,
                board_ok(fenv),
                move_region(line@) is Some,
                n == line@.len(),
                self.counter() == old(self).counter() + 1,
                counter_now == old(self).counter(),
                0 <= i <= toks@.len(),
                toks@.len() == tv.len(),
                wires@.len() == i,
                forall|j: int| 0 <= j < i ==> san_plays(fenv, tv[j]),
                forall|j: int|
                    0 <= j < i ==> wires.deep_view()[j] == wire_of_san(fenv, tv[j]),
                forall|j: int|
                    0 <= j < i ==> {
                        let w = #[trigger] wires.deep_view()[j];
                        uci_plays(fenv, w) && wire_of_uci(fenv, w) == w
                    },
            decreases toks@.len() - i,
        {
            let tok = &toks[i];
            match board.san_to_wire(tok.as_str()) {
                Some(w) => {
                    let ghost prev = wires;
                    wires.push(w);
                    proof {
                        assert forall|j: int| 0 <= j < i + 1 implies wires.deep_view()[j]
                            == wire_of_san(fenv, tv[j]) && uci_plays(
                            fenv,
                            wires.deep_view()[j],
                        ) && wire_of_uci(fenv, wires.deep_view()[j]) == wires.deep_view()[j] by {
                            assert(wires.deep_view()[j] == wires@[j]@);
                            if j < i {
                                assert(wires@[j] == prev@[j]);
                                assert(prev.deep_view()[j] == prev@[j]@);
                            }
                        }
                    }
                },
                None => {
                    let bad = tok.clone();
                    proof {
                        let ii = i as int;
                        assert(bad@ == tv[ii]);
                        assert(0 <= ii < tv.len() && !san_plays(fenv, tv[ii]) && (forall|j: int|
                            0 <= j < ii ==> san_plays(fenv, tv[j])));
                    }
                    return Err(EpdError::IllegalBestMove(bad));
                },
            }
            i += 1;
        }
        let id = match find_sub(line, "id") {
            Some(idp) => {
                proof {
                    text::lemma_first_match(line@, "id"@);
                    reveal_strlit("id");
                }
                let s2 = if n - idp >= 4 {
                    idp + 4
                } else {
                    n
                };
                let rest = line.substring_char(s2, n);
                proof {
                    assert(rest@ =~= line@.skip(s2 as int));
                }
                match find_sub(rest, "\"") {
                    Some(q) => {
                        proof {
                            text::lemma_first_match(rest@, "\""@);
                            reveal_strlit("\"");
                            assert(rest@.subrange(0, q as int) =~= rest@.take(q as int));
                        }
                        String::from_str(rest.substring_char(0, q))
                    },
                    None => String::from_str(rest),
                }
            },
            None => {
                let mut s = String::from_str("position ");
                s.append(dec_string(counter_now).as_str());
                s
            },
        };
        Ok(EpdPosition { fen, best_moves: wires, id })
    }

    /// Parses a whole EPD text, line by line, stopping at the first
    /// failure; on failure no records are handed out at all.
    pub fn parse_suite(&mut self, epd_text: &str) -> (r: Result<Vec<EpdPosition>, EpdError>)
        requires
            old(self).counter() + lines_of(epd_text@).len() <= usize::MAX,
        ensures
            match r {
                Ok(v) => {
                    &&& v@.len() == lines_of(epd_text@).len()
                    &&& forall|i: int|
                        0 <= i < v@.len() ==> parse_result_ok(
                            lines_of(epd_text@)[i],
                            (old(self).counter() + i) as nat,
                            #[trigger] v@[i],
                        )
                    &&& final(self).counter() == old(self).counter() + lines_of(epd_text@).len()
                },
                Err(e) => exists|i: int|
                    {
                        &&& 0 <= i < lines_of(epd_text@).len()
                        &&& parse_result_err(#[trigger] lines_of(epd_text@)[i], e)
                        &&& forall|j: int| 0 <= j < i ==> line_ok(lines_of(epd_text@)[j])
                        &&& final(self).counter() == old(self).counter() + i + 1
                    },
            },
    {
        let ls = text::lines(epd_text);
        let mut out: Vec<EpdPosition> = Vec::new();
        let mut i: usize = 0;
        while i < ls.len()
            invariant
                ls.deep_view() == lines_of(epd_text@),
                ls@.len() == lines_of(epd_text@).len(),
                0 <= i <= ls@.len(),
                old(self).counter() + ls@.len() <= usize::MAX,
                self.counter() == (old(self).counter() + i) as nat,
                out@.len() == i,
                forall|j: int|
                    0 <= j < i ==> parse_result_ok(
                        lines_of(epd_text@)[j],
                        (old(self).counter() + j) as nat,
                        #[trigger] out@[j],
                    ),
                forall|j: int| 0 <= j < i ==> line_ok(lines_of(epd_text@)[j]),
            decreases ls@.len() - i,
        {
            proof {
                assert(ls.deep_view()[i as int] == ls@[i as int]@);
            }
            match self.parse_line(ls[i].as_str()) {
                Ok(p) => {
                    out.push(p);
                },
                Err(e) => {
                    return Err(e);
                },
            }
            i += 1;
        }
        Ok(out)
    }
}

} // verus!
