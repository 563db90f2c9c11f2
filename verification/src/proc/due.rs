//! What is due at a sample.
use vstd::prelude::*;

use crate::types::Process;
use crate::{proc, text};

verus! {

/// When the memory shares were last read, and for which container scopes the
/// list of containers was last asked for. Times are nanoseconds of one clock.
#[derive(Debug)]
pub struct Due {
    pub last_pss: Option<u64>,
    pub pss_interval: u64,
    pub scopes: Vec<String>,
    pub listed: u64,
}

impl Due {
    /// The scopes a sample shows, asked about at `now`; no shares were read.
    pub fn new(pss_interval: u64, procs: &Vec<Process>, now: u64) -> (r: Self)
        ensures
            r.last_pss is None,
            r.pss_interval == pss_interval,
            text::texts(r.scopes@) == proc::scopes_upto(procs@, procs@.len() as int),
            r.listed == now,
    {
        Due { last_pss: None, pss_interval, scopes: proc::container_scopes(procs), listed: now }
    }

    /// Whether the shares are read at this sample: where that is forced, and
    /// else an interval after the last time.
    pub fn wants_pss(&mut self, force: bool, now: u64) -> (r: bool)
        ensures
            r == (force || match old(self).last_pss {
                Some(t) => proc::max_of(now - t, 0) >= old(self).pss_interval,
                None => true,
            }),
            final(self).last_pss == if r {
                Some(now)
            } else {
                old(self).last_pss
            },
            final(self).pss_interval == old(self).pss_interval,
            final(self).scopes == old(self).scopes,
            final(self).listed == old(self).listed,
    {
        let due = force || proc::pss_due(self.last_pss, now, self.pss_interval);
        if due {
            self.last_pss = Some(now);
        }
        due
    }

    /// Whether the list of containers is asked for again: a scope came or
    /// went, an answer is still owed, or the list has grown old.
    pub fn relists(&mut self, procs: &Vec<Process>, pending: bool, now: u64) -> (r: bool)
        ensures
            r == (text::texts(old(self).scopes@) != proc::scopes_upto(
                procs@,
                procs@.len() as int,
            ) || pending || proc::max_of(now - old(self).listed, 0) >= proc::CONTAINER_RELIST),
            text::texts(final(self).scopes@) == proc::scopes_upto(procs@, procs@.len() as int)
                || !r,
            !r ==> final(self).scopes == old(self).scopes,
            final(self).listed == if r {
                now
            } else {
                old(self).listed
            },
            final(self).last_pss == old(self).last_pss,
            final(self).pss_interval == old(self).pss_interval,
    {
        let scopes = proc::container_scopes(procs);
        let changed = !text::same_strings(&self.scopes, &scopes);
        let due = proc::relist_due(changed, pending, now.saturating_sub(self.listed));
        if due {
            self.scopes = scopes;
            self.listed = now;
        }
        due
    }
}

} // verus!
