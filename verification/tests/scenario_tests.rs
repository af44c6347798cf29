//! End-to-end scenarios: the suite text is parsed, each record is driven
//! against a scripted stub engine, and the outcomes are aggregated.

use epdrunner::driver::{DriverError, Search, StepAction};
use epdrunner::epd::{EpdError, EpdParser, EpdPosition};
use epdrunner::report::{Outcome, Report};

const RECORD: &str = "rnbqkbnr/pppppppp/8/8/8/8/PPPPPPPP/RNBQKBNR w KQkq - bm e4; id \"open\";";

/// Drives one record against a scripted engine; returns the outcome and
/// how many stop commands were sent.
fn drive(
    record: &EpdPosition,
    earlypass: bool,
    script: &[&str],
) -> Result<(Outcome, usize), DriverError> {
    let mut search = Search::new(record.best_moves.clone(), earlypass);
    let mut stops = 0usize;
    for line in script {
        match search.step(line)? {
            StepAction::Ignored => {}
            StepAction::SendStop => stops += 1,
            StepAction::Finished { chosen, passed } => {
                return Ok((
                    Outcome {
                        record_id: record.id.clone(),
                        chosen_move: chosen,
                        think_millis: 0,
                        passed,
                    },
                    stops,
                ));
            }
        }
    }
    panic!("script ended before a terminal line");
}

#[test]
fn scenario_engine_answers_the_best_move() {
    let mut parser = EpdParser::new();
    let records = parser.parse_suite(RECORD).unwrap();
    assert_eq!(records.len(), 1);
    let mut report = Report::new();
    let (o, stops) = drive(&records[0], false, &["info depth 1", "bestmove e2e4"]).unwrap();
    assert!(o.passed);
    assert_eq!(o.chosen_move, "e2e4");
    assert_eq!(stops, 0);
    report.record(o);
    assert_eq!(report.passes(), 1);
    assert_eq!(report.total(), 1);
    assert!(report.failures().is_empty());
}

#[test]
fn scenario_engine_answers_a_different_move() {
    let mut parser = EpdParser::new();
    let records = parser.parse_suite(RECORD).unwrap();
    let mut report = Report::new();
    let (o, _) = drive(&records[0], false, &["bestmove g1f3"]).unwrap();
    assert!(!o.passed);
    assert_eq!(o.chosen_move, "g1f3");
    report.record(o);
    assert_eq!(report.passes(), 0);
    assert_eq!(report.total(), 1);
    assert_eq!(report.failures().len(), 1);
    assert_eq!(report.failures()[0].record_id, "open");
}

#[test]
fn scenario_unterminated_second_record_aborts_before_any_engine_exchange() {
    let text = format!(
        "{RECORD}\nrnbqkbnr/pppppppp/8/8/8/8/PPPPPPPP/RNBQKBNR w KQkq - bm d4\n"
    );
    let mut parser = EpdParser::new();
    let report = Report::new();
    match parser.parse_suite(&text) {
        Err(EpdError::UnterminatedBestMoveList) => {}
        other => panic!("expected an unterminated best-move list, got {other:?}"),
    }
    // The run aborts during parsing: no outcome was ever produced.
    assert_eq!(report.total(), 0);
}

#[test]
fn scenario_early_acceptance_keeps_the_pv_move_and_stops_once() {
    let mut parser = EpdParser::new();
    let records = parser.parse_suite(RECORD).unwrap();
    let script = [
        "info depth 1 score cp 10",
        "info depth 5 score cp 30 pv e2e4 e7e5",
        "info depth 6 score cp 8 pv d2d4 d7d5",
        "bestmove d2d4",
    ];
    let (o, stops) = drive(&records[0], true, &script).unwrap();
    assert!(o.passed);
    assert_eq!(o.chosen_move, "e2e4");
    assert_eq!(stops, 1);
    let mut report = Report::new();
    report.record(o);
    assert_eq!(report.passes(), 1);
}
