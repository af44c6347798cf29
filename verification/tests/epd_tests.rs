use epdrunner::chess::Board;
use epdrunner::epd::{EpdError, EpdParser};

const START: &str = "rnbqkbnr/pppppppp/8/8/8/8/PPPPPPPP/RNBQKBNR w KQkq -";

#[test]
fn parses_simple_record() {
    let mut p = EpdParser::new();
    let line = format!("{START} bm e4; id \"open\";");
    let rec = p.parse_line(&line).unwrap();
    assert_eq!(rec.fen, "rnbqkbnr/pppppppp/8/8/8/8/PPPPPPPP/RNBQKBNR w KQkq - 1 1");
    assert_eq!(rec.best_moves, vec!["e2e4".to_string()]);
    assert_eq!(rec.id, "open");
}

#[test]
fn parses_multiple_best_moves() {
    let mut p = EpdParser::new();
    let line = format!("{START} bm e4 d4; id \"two\";");
    let rec = p.parse_line(&line).unwrap();
    assert_eq!(rec.best_moves, vec!["e2e4".to_string(), "d2d4".to_string()]);
}

#[test]
fn duplicates_are_preserved() {
    let mut p = EpdParser::new();
    let line = format!("{START} bm e4 e4;");
    let rec = p.parse_line(&line).unwrap();
    assert_eq!(rec.best_moves, vec!["e2e4".to_string(), "e2e4".to_string()]);
}

#[test]
fn missing_best_move_marker_fails_as_such() {
    let mut p = EpdParser::new();
    let line = format!("{START} id \"none\";");
    assert_eq!(p.parse_line(&line), Err(EpdError::MissingBestMove));
}

#[test]
fn unterminated_best_move_list_fails_as_such() {
    let mut p = EpdParser::new();
    let line = format!("{START} bm e4");
    assert_eq!(p.parse_line(&line), Err(EpdError::UnterminatedBestMoveList));
}

#[test]
fn malformed_board_fails_as_such() {
    let mut p = EpdParser::new();
    assert_eq!(
        p.parse_line("not a fen at all bm e4;"),
        Err(EpdError::MalformedBoard)
    );
}

#[test]
fn blank_line_is_a_parse_error() {
    let mut p = EpdParser::new();
    assert_eq!(p.parse_line(""), Err(EpdError::MalformedBoard));
}

#[test]
fn illegal_best_move_fails_with_the_token() {
    let mut p = EpdParser::new();
    let line = format!("{START} bm e5;");
    assert_eq!(
        p.parse_line(&line),
        Err(EpdError::IllegalBestMove("e5".to_string()))
    );
}

#[test]
fn illegal_move_is_never_dropped_from_the_set() {
    // A record mixing one legal and one illegal move fails whole; the
    // legal move must not survive alone.
    let mut p = EpdParser::new();
    let line = format!("{START} bm e4 e5;");
    assert_eq!(
        p.parse_line(&line),
        Err(EpdError::IllegalBestMove("e5".to_string()))
    );
}

#[test]
fn synthesized_ids_increase_per_attempt() {
    let mut p = EpdParser::new();
    let a = p.parse_line(&format!("{START} bm e4;")).unwrap();
    let b = p.parse_line(&format!("{START} bm d4;")).unwrap();
    assert_eq!(a.id, "position 0");
    assert_eq!(b.id, "position 1");
    assert_ne!(a.id, b.id);
}

#[test]
fn counter_advances_even_on_failure() {
    let mut p = EpdParser::new();
    let _ = p.parse_line("garbage");
    let rec = p.parse_line(&format!("{START} bm e4;")).unwrap();
    assert_eq!(rec.id, "position 1");
}

#[test]
fn quoted_id_is_extracted() {
    let mut p = EpdParser::new();
    let line = "2rr3k/pp3pp1/1nnqbN1p/3pN3/2pP4/2P3Q1/PPB4P/R4RK1 w - - bm Qg6; id \"WAC.001\";";
    let rec = p.parse_line(line).unwrap();
    assert_eq!(rec.id, "WAC.001");
    assert_eq!(rec.best_moves, vec!["g3g6".to_string()]);
}

#[test]
fn wire_roundtrip_on_accepted_moves() {
    let mut p = EpdParser::new();
    let line = format!("{START} bm e4 Nf3;");
    let rec = p.parse_line(&line).unwrap();
    let board = Board::parse(&rec.fen).unwrap();
    for m in &rec.best_moves {
        assert_eq!(board.wire_roundtrip(m), Some(m.clone()));
    }
}

#[test]
fn wire_roundtrip_through_castling() {
    let mut p = EpdParser::new();
    let rec = p
        .parse_line("r3k2r/8/8/8/8/8/8/R3K2R w KQkq - bm O-O;")
        .unwrap();
    assert_eq!(rec.best_moves, vec!["e1g1".to_string()]);
    let board = Board::parse(&rec.fen).unwrap();
    assert_eq!(
        board.wire_roundtrip("e1g1"),
        Some("e1g1".to_string())
    );
}

#[test]
fn resolver_rejects_illegal_wire_moves() {
    let board =
        Board::parse("rnbqkbnr/pppppppp/8/8/8/8/PPPPPPPP/RNBQKBNR w KQkq - 1 1").unwrap();
    assert_eq!(board.wire_roundtrip("e2e5"), None);
    assert_eq!(board.san_to_wire("e4"), Some("e2e4".to_string()));
    assert_eq!(board.san_to_wire("Ke2"), None);
}

#[test]
fn board_parse_rejects_junk() {
    assert!(Board::parse("junk").is_none());
    assert!(Board::parse("").is_none());
}

#[test]
fn suite_parsing_is_fail_fast() {
    let mut p = EpdParser::new();
    let text = format!("{START} bm e4; id \"one\";\n{START} bm d4\n");
    assert_eq!(
        p.parse_suite(&text),
        Err(EpdError::UnterminatedBestMoveList)
    );
}

#[test]
fn suite_parsing_yields_all_records_in_order() {
    let mut p = EpdParser::new();
    let text = format!("{START} bm e4; id \"one\";\n{START} bm d4;\r\n");
    let recs = p.parse_suite(&text).unwrap();
    assert_eq!(recs.len(), 2);
    assert_eq!(recs[0].id, "one");
    assert_eq!(recs[1].id, "position 1");
    assert_eq!(recs[1].best_moves, vec!["d2d4".to_string()]);
}
