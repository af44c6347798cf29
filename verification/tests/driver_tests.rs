use epdrunner::driver::{
    handshake_commands, is_ready_confirmation, search_commands, setoption_command, stop_command,
    DriverError, OptionError, Search, StepAction,
};

fn accepted(moves: &[&str]) -> Vec<String> {
    moves.iter().map(|m| m.to_string()).collect()
}

#[test]
fn without_early_acceptance_pv_is_never_consulted() {
    let mut s = Search::new(accepted(&["e2e4"]), false);
    assert!(matches!(s.step("info depth 1 pv d2d4"), Ok(StepAction::Ignored)));
    assert!(matches!(s.step("info depth 2 pv e2e4 e7e5"), Ok(StepAction::Ignored)));
    match s.step("bestmove g1f3 ponder b8c6") {
        Ok(StepAction::Finished { chosen, passed }) => {
            assert_eq!(chosen, "g1f3");
            assert!(!passed);
        }
        other => panic!("expected terminal step, got {other:?}"),
    }
}

#[test]
fn terminal_line_matching_accepted_move_passes() {
    let mut s = Search::new(accepted(&["e2e4"]), false);
    assert!(matches!(s.step("info string warming up"), Ok(StepAction::Ignored)));
    match s.step("bestmove e2e4") {
        Ok(StepAction::Finished { chosen, passed }) => {
            assert_eq!(chosen, "e2e4");
            assert!(passed);
        }
        other => panic!("expected terminal step, got {other:?}"),
    }
}

#[test]
fn early_acceptance_stops_once_and_keeps_the_pv_move() {
    let mut s = Search::new(accepted(&["e2e4"]), true);
    let mut stops = 0;
    assert!(matches!(s.step("info depth 1"), Ok(StepAction::Ignored)));
    match s.step("info depth 5 score cp 20 pv e2e4 e7e5") {
        Ok(StepAction::SendStop) => stops += 1,
        other => panic!("expected a stop request, got {other:?}"),
    }
    assert!(matches!(s.step("info depth 6 pv d2d4 d7d5"), Ok(StepAction::Ignored)));
    match s.step("bestmove d2d4") {
        Ok(StepAction::Finished { chosen, passed }) => {
            assert_eq!(chosen, "e2e4");
            assert!(passed);
        }
        other => panic!("expected terminal step, got {other:?}"),
    }
    assert_eq!(stops, 1);
}

#[test]
fn unaccepted_pv_move_is_ignored() {
    let mut s = Search::new(accepted(&["e2e4"]), true);
    assert!(matches!(s.step("info depth 3 pv d2d4"), Ok(StepAction::Ignored)));
    match s.step("bestmove e2e4") {
        Ok(StepAction::Finished { chosen, passed }) => {
            assert_eq!(chosen, "e2e4");
            assert!(passed);
        }
        other => panic!("expected terminal step, got {other:?}"),
    }
}

#[test]
fn terminal_line_without_a_move_is_a_fault() {
    let mut s = Search::new(accepted(&["e2e4"]), false);
    assert_eq!(s.step("bestmove"), Err(DriverError::MalformedBestMove));
}

#[test]
fn pv_marker_without_a_move_is_a_fault() {
    let mut s = Search::new(accepted(&["e2e4"]), true);
    assert_eq!(s.step("info depth 1 pv"), Err(DriverError::PvWithoutMove));
}

#[test]
fn handshake_vocabulary() {
    assert_eq!(
        handshake_commands(),
        vec!["uci\n".to_string(), "isready\n".to_string()]
    );
    assert!(is_ready_confirmation("readyok"));
    assert!(is_ready_confirmation("prefix readyok suffix"));
    assert!(!is_ready_confirmation("id name SomeEngine"));
}

#[test]
fn option_command_splits_on_first_equals() {
    assert_eq!(
        setoption_command("Hash=64"),
        Ok("setoption name Hash value 64\n".to_string())
    );
    assert_eq!(
        setoption_command("SyzygyPath=/a=b"),
        Ok("setoption name SyzygyPath value /a=b\n".to_string())
    );
    assert_eq!(setoption_command("Hash"), Err(OptionError::MissingSeparator));
}

#[test]
fn search_command_sequence() {
    let fen = "rnbqkbnr/pppppppp/8/8/8/8/PPPPPPPP/RNBQKBNR w KQkq - 1 1";
    assert_eq!(
        search_commands(fen, &None),
        vec![
            "ucinewgame\n".to_string(),
            format!("position fen {fen}\n"),
            "go movetime 1000\n".to_string(),
        ]
    );
    assert_eq!(
        search_commands(fen, &Some("depth 12".to_string()))[2],
        "go depth 12\n"
    );
    assert_eq!(stop_command(), "stop\n");
}

#[test]
fn finished_exchange_ignores_further_lines() {
    let mut s = Search::new(accepted(&["e2e4"]), true);
    assert_eq!(
        s.step("bestmove e2e4"),
        Ok(StepAction::Finished { chosen: "e2e4".to_string(), passed: true })
    );
    assert_eq!(s.step("info depth 9 pv e2e4"), Ok(StepAction::Ignored));
    assert_eq!(s.step("bestmove d2d4"), Ok(StepAction::Ignored));
}
