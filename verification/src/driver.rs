//! The protocol driver: the per-record search exchange with a UCI engine
//! as a state machine over inbound lines, together with the outbound
//! command vocabulary. The caller owns the line streams; it feeds each
//! inbound line to [`Search::step`] and performs the action the step
//! asks for.

use vstd::prelude::*;

use crate::text;
use crate::text::{contains_sub, find_sub, first_match, str_eq, tokens, tokens_of};

verus! {

/// The driver's position in one per-record exchange, at specification
/// level: still searching, draining lines after an early-acceptance stop
/// (with the chosen move), or finished.
pub enum StateModel {
    Searching,
    Draining(Seq<char>),
    Done,
}

/// What one step asks the caller to do, at specification level.
pub enum ActionModel {
    /// Nothing: the line carried no recognized pattern.
    Ignored,
    /// Send the stop-search command, once, and keep reading.
    SendStop,
    /// The exchange is over: the chosen move, and whether it passed.
    Finished(Seq<char>, bool),
}

/// A fatal protocol fault in an inbound line.
#[derive(Debug, PartialEq, Eq, Structural, Clone, Copy)]
pub enum DriverError {
    /// A terminal best-move line with no second token to read the move
    /// from.
    MalformedBestMove,
    /// A principal-variation marker with no move after it.
    PvWithoutMove,
}

/// Position of the first token of `ts` equal to `t`, if any.
pub open spec fn first_tok(ts: Seq<Seq<char>>, t: Seq<char>) -> Option<int>
    decreases ts.len(),
{
    if ts.len() == 0 {
        None
    } else if ts[0] == t {
        Some(0)
    } else {
        match first_tok(ts.skip(1), t) {
            None => None,
            Some(k) => Some(k + 1),
        }
    }
}

/// `first_tok` returns the least index whose token equals `t`.
pub proof fn lemma_first_tok(ts: Seq<Seq<char>>, t: Seq<char>)
    ensures
        match first_tok(ts, t) {
            Some(i) => 0 <= i < ts.len() && ts[i] == t && forall|j: int| 0 <= j < i ==> ts[j] != t,
            None => forall|j: int| 0 <= j < ts.len() ==> ts[j] != t,
        },
    decreases ts.len(),
{
    if ts.len() == 0 {
    } else if ts[0] == t {
    } else {
        lemma_first_tok(ts.skip(1), t);
        assert(forall|j: int| 1 <= j < ts.len() ==> ts[j] == ts.skip(1)[j - 1]);
    }
}

/// One step of the per-record exchange: from a driver state and one
/// inbound line to the next state and the action the caller must take,
/// or a fatal protocol fault. `earlypass` is the early-acceptance toggle;
/// `acc` the record's accepted moves in wire notation.
pub open spec fn spec_step(
    earlypass: bool,
    acc: Seq<Seq<char>>,
    st: StateModel,
    line: Seq<char>,
) -> Result<(StateModel, ActionModel), DriverError> {
    match st {
        StateModel::Done => Ok((StateModel::Done, ActionModel::Ignored)),
        StateModel::Draining(c) => if contains_sub(line, "bestmove"@) {
            Ok((StateModel::Done, ActionModel::Finished(c, true)))
        } else {
            Ok((StateModel::Draining(c), ActionModel::Ignored))
        },
        StateModel::Searching => {
            let ts = tokens_of(line);
            if contains_sub(line, "bestmove"@) {
                if ts.len() >= 2 {
                    Ok((StateModel::Done, ActionModel::Finished(ts[1], acc.contains(ts[1]))))
                } else {
                    Err(DriverError::MalformedBestMove)
                }
            } else if earlypass && first_tok(ts, "pv"@) is Some {
                let j = first_tok(ts, "pv"@)->0;
                if j + 1 < ts.len() {
                    if acc.contains(ts[j + 1]) {
                        Ok((StateModel::Draining(ts[j + 1]), ActionModel::SendStop))
                    } else {
                        Ok((StateModel::Searching, ActionModel::Ignored))
                    }
                } else {
                    Err(DriverError::PvWithoutMove)
                }
            } else {
                Ok((StateModel::Searching, ActionModel::Ignored))
            }
        },
    }
}

/// The actions of a whole exchange: each line stepped in turn from `st`,
/// stopping after a terminal action or a fault.
pub open spec fn run_trace(
    eh: bool,
    acc: Seq<Seq<char>>,
    st: StateModel,
    lines: Seq<Seq<char>>,
) -> Seq<ActionModel>
    decreases lines.len(),
{
    if lines.len() == 0 {
        Seq::empty()
    } else {
        match spec_step(eh, acc, st, lines[0]) {
            Err(_) => Seq::empty(),
            Ok((st2, a)) => if a is Finished {
                seq![a]
            } else {
                seq![a] + run_trace(eh, acc, st2, lines.skip(1))
            },
        }
    }
}

/// What a whole exchange reports: the first terminal result or fault, if
/// the lines reach one.
pub open spec fn run_outcome(
    eh: bool,
    acc: Seq<Seq<char>>,
    st: StateModel,
    lines: Seq<Seq<char>>,
) -> Option<Result<(Seq<char>, bool), DriverError>>
    decreases lines.len(),
{
    if lines.len() == 0 {
        None
    } else {
        match spec_step(eh, acc, st, lines[0]) {
            Err(e) => Some(Err(e)),
            Ok((st2, a)) => match a {
                ActionModel::Finished(c, p) => Some(Ok((c, p))),
                _ => run_outcome(eh, acc, st2, lines.skip(1)),
            },
        }
    }
}

/// How many stop commands a trace asks for.
pub open spec fn stop_count(tr: Seq<ActionModel>) -> nat
    decreases tr.len(),
{
    if tr.len() == 0 {
        0
    } else {
        (if tr[0] is SendStop {
            1nat
        } else {
            0nat
        }) + stop_count(tr.skip(1))
    }
}

/// Whether some line contains the terminal best-move token.
pub open spec fn has_bm_line(lines: Seq<Seq<char>>) -> bool
    decreases lines.len(),
{
    if lines.len() == 0 {
        false
    } else {
        contains_sub(lines[0], "bestmove"@) || has_bm_line(lines.skip(1))
    }
}

/// What the first best-move line alone decides: its second token is the
/// chosen move, passing exactly when the accepted set contains it.
pub open spec fn bm_outcome(acc: Seq<Seq<char>>, lines: Seq<Seq<char>>) -> Option<
    Result<(Seq<char>, bool), DriverError>,
>
    decreases lines.len(),
{
    if lines.len() == 0 {
        None
    } else if contains_sub(lines[0], "bestmove"@) {
        let ts = tokens_of(lines[0]);
        if ts.len() >= 2 {
            Some(Ok((ts[1], acc.contains(ts[1]))))
        } else {
            Some(Err(DriverError::MalformedBestMove))
        }
    } else {
        bm_outcome(acc, lines.skip(1))
    }
}

proof fn lemma_stop_count_cons(a: ActionModel, tr: Seq<ActionModel>)
    ensures
        stop_count(seq![a] + tr) == (if a is SendStop {
            1nat
        } else {
            0nat
        }) + stop_count(tr),
{
    assert((seq![a] + tr)[0] == a);
    assert((seq![a] + tr).skip(1) =~= tr);
}

proof fn lemma_stop_count_one(a: ActionModel)
    ensures
        stop_count(seq![a]) == (if a is SendStop {
            1nat
        } else {
            0nat
        }),
{
    assert(seq![a] + Seq::<ActionModel>::empty() =~= seq![a]);
    lemma_stop_count_cons(a, Seq::empty());
}

/// With early acceptance disabled, the exchange's outcome is decided by
/// the first terminal best-move line alone — its second token is the
/// chosen move — and no stop command is ever sent: principal-variation
/// lines are never consulted.
pub proof fn lemma_terminal_only_without_early(acc: Seq<Seq<char>>, lines: Seq<Seq<char>>)
    ensures
        run_outcome(false, acc, StateModel::Searching, lines) == bm_outcome(acc, lines),
        stop_count(run_trace(false, acc, StateModel::Searching, lines)) == 0,
    decreases lines.len(),
{
    if lines.len() == 0 {
    } else if contains_sub(lines[0], "bestmove"@) {
        if tokens_of(lines[0]).len() >= 2 {
            lemma_stop_count_one(
                ActionModel::Finished(
                    tokens_of(lines[0])[1],
                    acc.contains(tokens_of(lines[0])[1]),
                ),
            );
        }
    } else {
        lemma_terminal_only_without_early(acc, lines.skip(1));
        lemma_stop_count_cons(
            ActionModel::Ignored,
            run_trace(false, acc, StateModel::Searching, lines.skip(1)),
        );
    }
}

/// After an early-acceptance stop, the driver only drains: it never sends
/// another stop, and the exchange ends, with the early chosen move and a
/// pass, at the first line carrying the best-move token — whatever move
/// that line names.
pub proof fn lemma_draining_drains(
    eh: bool,
    acc: Seq<Seq<char>>,
    c: Seq<char>,
    lines: Seq<Seq<char>>,
)
    ensures
        stop_count(run_trace(eh, acc, StateModel::Draining(c), lines)) == 0,
        run_outcome(eh, acc, StateModel::Draining(c), lines) == (if has_bm_line(lines) {
            Some(Ok::<(Seq<char>, bool), DriverError>((c, true)))
        } else {
            None::<Result<(Seq<char>, bool), DriverError>>
        }),
    decreases lines.len(),
{
    if lines.len() == 0 {
    } else if contains_sub(lines[0], "bestmove"@) {
        lemma_stop_count_one(ActionModel::Finished(c, true));
    } else {
        lemma_draining_drains(eh, acc, c, lines.skip(1));
        lemma_stop_count_cons(
            ActionModel::Ignored,
            run_trace(eh, acc, StateModel::Draining(c), lines.skip(1)),
        );
    }
}

/// A whole exchange sends the stop command at most once.
pub proof fn lemma_stop_at_most_once(eh: bool, acc: Seq<Seq<char>>, lines: Seq<Seq<char>>)
    ensures
        stop_count(run_trace(eh, acc, StateModel::Searching, lines)) <= 1,
    decreases lines.len(),
{
    if lines.len() == 0 {
    } else {
        let s0 = spec_step(eh, acc, StateModel::Searching, lines[0]);
        if s0 is Ok {
            let st2 = s0->Ok_0.0;
            let a = s0->Ok_0.1;
            if a is Finished {
                lemma_stop_count_one(a);
            } else {
                match st2 {
                    StateModel::Searching => {
                        lemma_stop_at_most_once(eh, acc, lines.skip(1));
                    },
                    StateModel::Draining(c) => {
                        lemma_draining_drains(eh, acc, c, lines.skip(1));
                    },
                    StateModel::Done => {},
                }
                lemma_stop_count_cons(a, run_trace(eh, acc, st2, lines.skip(1)));
            }
        }
    }
}

/// Early acceptance: when a principal-variation line makes the driver
/// accept a move `c` (so `c` is one of the accepted moves), the whole
/// exchange sends the stop command exactly once, and — as soon as any
/// terminal best-move line arrives, whatever move it names — reports `c`
/// as chosen and the record as passed.
pub proof fn lemma_early_acceptance(
    eh: bool,
    acc: Seq<Seq<char>>,
    lines: Seq<Seq<char>>,
    c: Seq<char>,
)
    requires
        lines.len() >= 1,
        spec_step(eh, acc, StateModel::Searching, lines[0]) == Ok::<
            (StateModel, ActionModel),
            DriverError,
        >((StateModel::Draining(c), ActionModel::SendStop)),
    ensures
        acc.contains(c),
        stop_count(run_trace(eh, acc, StateModel::Searching, lines)) == 1,
        run_outcome(eh, acc, StateModel::Searching, lines) == (if has_bm_line(lines.skip(1)) {
            Some(Ok::<(Seq<char>, bool), DriverError>((c, true)))
        } else {
            None::<Result<(Seq<char>, bool), DriverError>>
        }),
{
    lemma_draining_drains(eh, acc, c, lines.skip(1));
    lemma_stop_count_cons(
        ActionModel::SendStop,
        run_trace(eh, acc, StateModel::Draining(c), lines.skip(1)),
    );
}

/// The driver's position in one per-record exchange.
enum SearchState {
    Searching,
    Draining(String),
    Done,
}

impl SearchState {
    spec fn model(&self) -> StateModel {
        match self {
            SearchState::Searching => StateModel::Searching,
            SearchState::Draining(c) => StateModel::Draining(c@),
            SearchState::Done => StateModel::Done,
        }
    }
}

/// What one step asks the caller to do.
#[derive(Debug, PartialEq, Eq)]
pub enum StepAction {
    /// Nothing: the line carried no recognized pattern.
    Ignored,
    /// Send the stop-search command, once, and keep reading.
    SendStop,
    /// The exchange is over.
    Finished {
        /// The chosen move, in wire notation.
        chosen: String,
        /// Whether the chosen move is among the record's accepted moves.
        passed: bool,
    },
}

impl StepAction {
    /// The specification-level value of this action.
    pub open spec fn model(&self) -> ActionModel {
        match self {
            StepAction::Ignored => ActionModel::Ignored,
            StepAction::SendStop => ActionModel::SendStop,
            StepAction::Finished { chosen, passed } => ActionModel::Finished(chosen@, *passed),
        }
    }
}

/// Whether any token of `v` equals `s`.
fn contains_str(v: &Vec<String>, s: &str) -> (r: bool)
    ensures
        r == v.deep_view().contains(s@),
{
    let mut i: usize = 0;
    while i < v.len()
        invariant
            0 <= i <= v@.len(),
            forall|j: int| 0 <= j < i ==> v.deep_view()[j] != s@,
        decreases v@.len() - i,
    {
        if str_eq(v[i].as_str(), s) {
            proof {
                assert(v.deep_view()[i as int] == s@);
            }
            return true;
        }
        i += 1;
    }
    proof {
        assert(forall|j: int| 0 <= j < v.deep_view().len() ==> v.deep_view()[j] != s@);
    }
    false
}

/// Finds the first token of `ts` equal to `t`.
fn find_token(ts: &Vec<String>, t: &str) -> (r: Option<usize>)
    ensures
        match r {
            Some(j) => first_tok(ts.deep_view(), t@) == Some(j as int),
            None => first_tok(ts.deep_view(), t@) is None,
        },
{
    proof {
        lemma_first_tok(ts.deep_view(), t@);
    }
    let mut i: usize = 0;
    while i < ts.len()
        invariant
            0 <= i <= ts@.len(),
            forall|j: int| 0 <= j < i ==> ts.deep_view()[j] != t@,
        decreases ts@.len() - i,
    {
        if str_eq(ts[i].as_str(), t) {
            proof {
                assert(ts.deep_view()[i as int] == t@);
                lemma_first_tok(ts.deep_view(), t@);
            }
            return Some(i);
        }
        i += 1;
    }
    proof {
        lemma_first_tok(ts.deep_view(), t@);
    }
    None
}

/// The per-record search exchange for one position record.
pub struct Search {
    accepted: Vec<String>,
    earlypass: bool,
    state: SearchState,
}

impl Search {
    /// The record's accepted moves, in wire notation.
    pub closed spec fn acc(&self) -> Seq<Seq<char>> {
        self.accepted.deep_view()
    }

    /// Whether early acceptance is enabled.
    pub closed spec fn early(&self) -> bool {
        self.earlypass
    }

    /// The current state of the exchange.
    pub closed spec fn model(&self) -> StateModel {
        self.state.model()
    }

    /// When draining after an early acceptance, the chosen move really is
    /// one of the accepted moves.
    pub open spec fn wf(&self) -> bool {
        match self.model() {
            StateModel::Draining(c) => self.acc().contains(c),
            _ => true,
        }
    }

    /// Begins the exchange for one record.
    pub fn new(accepted: Vec<String>, earlypass: bool) -> (r: Search)
        ensures
            r.acc() == accepted.deep_view(),
            r.early() == earlypass,
            r.model() == StateModel::Searching,
            r.wf(),
    {
        Search { accepted, earlypass, state: SearchState::Searching }
    }

    /// Consumes one inbound line and reports what to do, exactly as
    /// [`spec_step`] says.
    pub fn step(&mut self, line: &str) -> (r: Result<StepAction, DriverError>)
        requires
            old(self).wf(),
        ensures
            final(self).wf(),
            final(self).acc() == old(self).acc(),
            final(self).early() == old(self).early(),
            match r {
                Ok(a) => spec_step(old(self).early(), old(self).acc(), old(self).model(), line@)
                    == Ok::<_, DriverError>((final(self).model(), a.model())),
                Err(e) => spec_step(old(self).early(), old(self).acc(), old(self).model(), line@)
                    == Err::<(StateModel, ActionModel), _>(e) && final(self).model() == old(
                    self,
                ).model(),
            },
    {
        let has_bm = find_sub(line, "bestmove").is_some();
        match &self.state {
            SearchState::Done => Ok(StepAction::Ignored),
            SearchState::Draining(c) => {
                if has_bm {
                    let chosen = c.clone();
                    self.state = SearchState::Done;
                    Ok(StepAction::Finished { chosen, passed: true })
                } else {
                    Ok(StepAction::Ignored)
                }
            },
            SearchState::Searching => {
                if has_bm {
                    let ts = tokens(line);
                    if ts.len() >= 2 {
                        let chosen = ts[1].clone();
                        proof {
                            assert(chosen@ == tokens_of(line@)[1]);
                        }
                        let passed = contains_str(&self.accepted, chosen.as_str());
                        self.state = SearchState::Done;
                        Ok(StepAction::Finished { chosen, passed })
                    } else {
                        Err(DriverError::MalformedBestMove)
                    }
                } else if self.earlypass {
                    let ts = tokens(line);
                    match find_token(&ts, "pv") {
                        Some(j) => {
                            if j < ts.len() - 1 {
                                let choice = ts[j + 1].clone();
                                proof {
                                    assert(choice@ == tokens_of(line@)[j + 1]);
                                }
                                if contains_str(&self.accepted, choice.as_str()) {
                                    self.state = SearchState::Draining(choice);
                                    Ok(StepAction::SendStop)
                                } else {
                                    Ok(StepAction::Ignored)
                                }
                            } else {
                                Err(DriverError::PvWithoutMove)
                            }
                        },
                        None => Ok(StepAction::Ignored),
                    }
                } else {
                    Ok(StepAction::Ignored)
                }
            },
        }
    }
}

/// A malformed option pair handed in by the operator.
#[derive(Debug, PartialEq, Eq, Structural, Clone, Copy)]
pub enum OptionError {
    /// The pair has no `=` separating name and value.
    MissingSeparator,
}

/// The two commands of the session handshake: the identification request
/// and the readiness request.
pub fn handshake_commands() -> (r: Vec<String>)
    ensures
        r.deep_view() == seq!["uci\n"@, "isready\n"@],
{
    let mut v: Vec<String> = Vec::new();
    v.push(String::from_str("uci\n"));
    v.push(String::from_str("isready\n"));
    proof {
        assert(v.deep_view() =~~= seq!["uci\n"@, "isready\n"@]);
    }
    v
}

/// Whether an inbound line confirms readiness.
pub fn is_ready_confirmation(line: &str) -> (r: bool)
    ensures
        r == contains_sub(line@, "readyok"@),
{
    find_sub(line, "readyok").is_some()
}

/// Builds the option-set command from one `name=value` pair, split at the
/// first `=`; a pair without `=` is a fatal configuration error.
pub fn setoption_command(opt: &str) -> (r: Result<String, OptionError>)
    ensures
        match r {
            Ok(c) => {
                &&& first_match(opt@, "="@) is Some
                &&& {
                    let i = first_match(opt@, "="@)->0;
                    c@ == "setoption name "@ + opt@.take(i) + " value "@ + opt@.skip(i + 1)
                        + "\n"@
                }
            },
            Err(_) => first_match(opt@, "="@) is None,
        },
{
    match find_sub(opt, "=") {
        None => Err(OptionError::MissingSeparator),
        Some(i) => {
            proof {
                text::lemma_first_match(opt@, "="@);
                reveal_strlit("=");
            }
            let n = opt.unicode_len();
            let name = opt.substring_char(0, i);
            let value = opt.substring_char(i + 1, n);
            proof {
                assert(name@ =~= opt@.take(i as int));
                assert(value@ =~= opt@.skip(i + 1));
            }
            let mut c = String::from_str("setoption name ");
            c.append(name);
            c.append(" value ");
            c.append(value);
            c.append("\n");
            Ok(c)
        },
    }
}

/// The search parameters sent with the begin-search command: the caller's
/// override, or the default fixed per-move time budget.
pub open spec fn go_text(go: Option<String>) -> Seq<char> {
    match go {
        Some(g) => g@,
        None => "movetime 1000"@,
    }
}

/// The three commands that start one record's search: reset the game
/// state, set the position, and begin the search.
pub fn search_commands(fen: &str, go: &Option<String>) -> (r: Vec<String>)
    ensures
        r.deep_view() == seq![
            "ucinewgame\n"@,
            "position fen "@ + fen@ + "\n"@,
            "go "@ + go_text(*go) + "\n"@,
        ],
{
    let mut v: Vec<String> = Vec::new();
    v.push(String::from_str("ucinewgame\n"));
    let mut pos = String::from_str("position fen ");
    pos.append(fen);
    pos.append("\n");
    v.push(pos);
    let mut g = String::from_str("go ");
    match go {
        Some(text) => {
            g.append(text.as_str());
        },
        None => {
            g.append("movetime 1000");
        },
    }
    g.append("\n");
    v.push(g);
    proof {
        assert(v.deep_view() =~~= seq![
            "ucinewgame\n"@,
            "position fen "@ + fen@ + "\n"@,
            "go "@ + go_text(*go) + "\n"@,
        ]);
    }
    v
}

/// The stop-search command.
pub fn stop_command() -> (r: String)
    ensures
        r@ == "stop\n"@,
{
    String::from_str("stop\n")
}

} // verus!
