//! What the program is asked to do.
use vstd::prelude::*;

pub mod laws;

verus! {

/// What the command line asks for.
#[derive(Clone, Copy, Debug, PartialEq, Eq, Structural)]
pub struct Asked {
    pub once: bool,
    pub json: bool,
    pub follow: bool,
    pub explain: Option<u32>,
    pub fixture: bool,
}

/// What to do.
#[derive(Clone, Copy, Debug, PartialEq, Eq, Structural)]
pub enum Mode {
    Explain(u32),
    Fixture,
    Json,
    FollowJson,
    Table,
    FollowTable,
    Interactive,
}

/// Why nothing can be done.
#[derive(Clone, Copy, Debug, PartialEq, Eq, Structural)]
pub enum Refusal {
    /// To go on sampling needs something to print: the interactive table
    /// already does.
    FollowAlone,
    /// The interactive table needs a terminal, and is never replaced by
    /// something else without being asked.
    NoTerminal,
}

/// What to do, or why not. A command line that cannot mean anything is refused
/// before the terminal is looked at.
pub open spec fn mode_of(a: Asked, terminal: bool) -> Result<Mode, Refusal> {
    if a.follow && !a.once && !a.json {
        Err(Refusal::FollowAlone)
    } else if !a.once && !a.json && !a.fixture && a.explain is None && !terminal {
        Err(Refusal::NoTerminal)
    } else if a.explain is Some {
        Ok(Mode::Explain(a.explain->0))
    } else if a.fixture {
        Ok(Mode::Fixture)
    } else if a.json {
        Ok(
            if a.follow {
                Mode::FollowJson
            } else {
                Mode::Json
            },
        )
    } else if a.once {
        Ok(
            if a.follow {
                Mode::FollowTable
            } else {
                Mode::Table
            },
        )
    } else {
        Ok(Mode::Interactive)
    }
}

pub fn mode(a: Asked, terminal: bool) -> (r: Result<Mode, Refusal>)
    ensures
        r == mode_of(a, terminal),
{
    if a.follow && !a.once && !a.json {
        return Err(Refusal::FollowAlone);
    }
    if !a.once && !a.json && !a.fixture && a.explain.is_none() && !terminal {
        return Err(Refusal::NoTerminal);
    }
    if let Some(pid) = a.explain {
        return Ok(Mode::Explain(pid));
    }
    if a.fixture {
        return Ok(Mode::Fixture);
    }
    if a.json {
        return if a.follow {
            Ok(Mode::FollowJson)
        } else {
            Ok(Mode::Json)
        };
    }
    if a.once {
        return if a.follow {
            Ok(Mode::FollowTable)
        } else {
            Ok(Mode::Table)
        };
    }
    Ok(Mode::Interactive)
}

/// The interactive table opens on a terminal only, and never where something
/// else was asked for.
pub proof fn law_the_table_needs_a_terminal(a: Asked, terminal: bool)
    requires
        mode_of(a, terminal) == Ok::<Mode, Refusal>(Mode::Interactive),
    ensures
        terminal && !a.once && !a.json && !a.follow && !a.fixture && a.explain is None,
{
}

} // verus!
