//! The policy of the run loop: how long a cycle lasts, when the snapshot is
//! built anew, and which of the notifications of a pass is delivered.

use crate::notification::Notification;
use vstd::prelude::*;

verus! {

/// How a run is paced.
#[derive(Clone, Copy, Debug, PartialEq, Eq, Structural)]
pub struct Schedule {
    /// The pause between two passes, in nanoseconds.
    pub period_nanos: u32,
    /// The number of passes after which the snapshot is built anew; with 0 it
    /// never is.
    pub rebuild_every: usize,
}

/// The passes that were made since the snapshot was last built.
#[derive(Clone, Copy, Debug, PartialEq, Eq, Structural)]
pub struct Cycle {
    pub count: usize,
}

/// After `count` passes on one snapshot, the next pass is the last on it.
pub open spec fn due(count: nat, every: nat) -> bool {
    every > 0 && count + 1 >= every
}

/// The count after a pass that came after `count` passes on one snapshot.
pub open spec fn counted(count: usize, every: usize) -> usize {
    if due(count as nat, every as nat) {
        0
    } else if count < usize::MAX {
        (count + 1) as usize
    } else {
        count
    }
}

impl Schedule {
    /// A pass each second, and a new snapshot after a thousand of them.
    pub fn default() -> (s: Schedule)
        ensures
            s.period_nanos == 1_000_000_000,
            s.rebuild_every == 1000,
    {
        Schedule { period_nanos: 1_000_000_000, rebuild_every: 1000 }
    }
}

impl Cycle {
    /// No pass was made yet.
    pub fn new() -> (c: Cycle)
        ensures
            c.count == 0,
    {
        Cycle { count: 0 }
    }

    /// Counts one pass and says whether the snapshot is to be built anew
    /// after it: it is where this was pass number `rebuild_every` on the
    /// snapshot, and the count then starts again at 0. So at most
    /// `rebuild_every` passes are made on one snapshot.
    pub fn tick(&mut self, schedule: &Schedule) -> (rebuild: bool)
        ensures
            rebuild == due(old(self).count as nat, schedule.rebuild_every as nat),
            final(self).count == counted(old(self).count, schedule.rebuild_every),
            old(self).count < schedule.rebuild_every ==> final(self).count < schedule.rebuild_every,
    {
        if schedule.rebuild_every > 0 && self.count >= schedule.rebuild_every - 1 {
            self.count = 0;
            true
        } else {
            if self.count < usize::MAX {
                self.count += 1;
            }
            false
        }
    }
}

/// Takes the notification to deliver out of what a pass has gathered: the
/// one that came last. The others are dropped with it, so that nothing is
/// left over for a later cycle.
pub fn drain(buffer: &mut Vec<Notification>) -> (latest: Option<Notification>)
    ensures
        final(buffer)@.len() == 0,
        latest is Some <==> old(buffer)@.len() > 0,
        latest matches Some(n) ==> n == old(buffer)@.last(),
{
    let latest = buffer.pop();
    buffer.clear();
    latest
}

} // verus!
