//! What a command line asks for.
use vstd::prelude::*;

use crate::mode;
use crate::mode::{Asked, Mode, Refusal};

verus! {

/// Each request has its own mode; what explains comes before what prints a
/// fixture, that before JSON, and that before the table; to follow needs one
/// of the two to print.
pub proof fn law_each_request_has_its_mode(a: Asked, terminal: bool)
    ensures
        ({
            let m = mode::mode_of(a, terminal);
            let prints = a.once || a.json;
            &&& a.follow && !prints ==> m == Err::<Mode, Refusal>(Refusal::FollowAlone)
            &&& !a.follow || prints ==> {
                &&& a.explain matches Some(pid) ==> m == Ok::<Mode, Refusal>(Mode::Explain(pid))
                &&& a.explain is None && a.fixture ==> m == Ok::<Mode, Refusal>(Mode::Fixture)
                &&& a.explain is None && !a.fixture && a.json && !a.follow ==> m == Ok::<
                    Mode,
                    Refusal,
                >(Mode::Json)
                &&& a.explain is None && !a.fixture && a.json && a.follow ==> m == Ok::<
                    Mode,
                    Refusal,
                >(Mode::FollowJson)
                &&& a.explain is None && !a.fixture && !a.json && a.once && !a.follow ==> m == Ok::<
                    Mode,
                    Refusal,
                >(Mode::Table)
                &&& a.explain is None && !a.fixture && !a.json && a.once && a.follow ==> m == Ok::<
                    Mode,
                    Refusal,
                >(Mode::FollowTable)
                &&& a.explain is None && !a.fixture && !prints && terminal ==> m == Ok::<
                    Mode,
                    Refusal,
                >(Mode::Interactive)
                &&& a.explain is None && !a.fixture && !prints && !terminal ==> m == Err::<
                    Mode,
                    Refusal,
                >(Refusal::NoTerminal)
            }
        }),
{
}

/// Only the interactive table looks at the terminal.
pub proof fn law_only_the_table_looks_at_the_terminal(a: Asked)
    requires
        a.once || a.json || a.fixture || a.explain is Some,
    ensures
        mode::mode_of(a, true) == mode::mode_of(a, false),
{
}

} // verus!
