//! Operator-facing configuration: the plain values the core accepts from
//! its surroundings — engine and suite selection, option pairs, toggles,
//! and the search-budget override, none of which the core validates
//! beyond what its contracts state.

use vstd::prelude::*;

use crate::text::str_eq;

verus! {

/// Selection of inbuilt EPD test suites to run.
#[derive(Debug, Copy, Clone, PartialEq, Eq, Structural)]
pub enum InbuiltEpd {
    WinAtChess,
    Zugzwangs,
    Tablebases,
}

impl InbuiltEpd {
    /// Which inbuilt suite a name selects; each suite answers to its long
    /// and its short name, and any other text selects none.
    pub fn from_name(s: &str) -> (r: Option<InbuiltEpd>)
        ensures
            (r == Some(InbuiltEpd::WinAtChess)) <==> (s@ == "winatchess"@ || s@ == "wac"@),
            (r == Some(InbuiltEpd::Zugzwangs)) <==> (s@ == "zugzwangs"@ || s@ == "zugts"@),
            (r == Some(InbuiltEpd::Tablebases)) <==> (s@ == "tablebases"@ || s@ == "tbs"@),
    {
        proof {
            reveal_strlit("winatchess");
            reveal_strlit("wac");
            reveal_strlit("zugzwangs");
            reveal_strlit("zugts");
            reveal_strlit("tablebases");
            reveal_strlit("tbs");
            assert("winatchess"@.len() == 10 && "wac"@.len() == 3 && "zugzwangs"@.len() == 9
                && "zugts"@.len() == 5 && "tablebases"@.len() == 10 && "tbs"@.len() == 3);
            assert("winatchess"@ != "tablebases"@) by {
                assert("winatchess"@[0] == 'w' && "tablebases"@[0] == 't');
            }
            assert("wac"@ != "tbs"@) by {
                assert("wac"@[0] == 'w' && "tbs"@[0] == 't');
            }
        }
        if str_eq(s, "winatchess") || str_eq(s, "wac") {
            Some(InbuiltEpd::WinAtChess)
        } else if str_eq(s, "zugzwangs") || str_eq(s, "zugts") {
            Some(InbuiltEpd::Zugzwangs)
        } else if str_eq(s, "tablebases") || str_eq(s, "tbs") {
            Some(InbuiltEpd::Tablebases)
        } else {
            None
        }
    }
}

/// The suite a run works on: the selected one, or the default when none
/// was selected.
pub fn chosen_suite(inbuilt: &Option<InbuiltEpd>) -> (r: InbuiltEpd)
    ensures
        r == match *inbuilt {
            Some(s) => s,
            None => InbuiltEpd::WinAtChess,
        },
{
    match inbuilt {
        Some(s) => *s,
        None => InbuiltEpd::WinAtChess,
    }
}

/// The run configuration the core is handed, as plain values.
#[derive(Debug)]
pub struct Cli {
    /// Path to a UCI chess engine to run on the test suite.
    pub engine: String,
    /// Selection of inbuilt EPD test suites to run.
    pub inbuilt: Option<InbuiltEpd>,
    /// Path to an Extended Position Description file to use.
    pub epdpath: Option<String>,
    /// UCI options to set before running the test suite, as
    /// `name=value` pairs.
    pub option: Vec<String>,
    /// Whether to echo every engine line as it arrives.
    pub verbose: bool,
    /// Whether to echo the protocol dialogue itself.
    pub debug: bool,
    /// The parameter text passed with the begin-search command.
    pub go: Option<String>,
    /// Whether to grant a pass as soon as the engine's principal
    /// variation contains an accepted move.
    pub earlypass: bool,
}

} // verus!
