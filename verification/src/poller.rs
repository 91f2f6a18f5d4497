//! The schedule of the health checks: every service in turn, then a pause.

use vstd::prelude::*;

use crate::config::CHECK_SECS;

verus! {

/// What is to be done next.
#[derive(Clone, Copy, Debug, PartialEq, Eq, Structural)]
pub enum PollAction {
    /// Probe the service at this index, and record what comes of it.
    Probe { index: usize },
    /// Every service has been probed: wait this long.
    Sleep { secs: u64 },
}

/// How far a round of checks has come.
#[derive(Clone, Copy, Debug, PartialEq, Eq, Structural)]
pub struct Poller {
    /// Number of services that have been probed in this round.
    pub probed: usize,
}

impl Poller {
    /// At the beginning of a round.
    pub open spec fn start() -> Poller {
        Poller { probed: 0 }
    }

    /// What is next in a round over this many services.
    pub open spec fn action(self, services: usize) -> PollAction {
        if self.probed < services {
            PollAction::Probe { index: self.probed }
        } else {
            PollAction::Sleep { secs: CHECK_SECS }
        }
    }

    /// How far the round has come when that is done.
    pub open spec fn stepped(self, services: usize) -> Poller {
        if self.probed < services {
            Poller { probed: (self.probed + 1) as usize }
        } else {
            Poller::start()
        }
    }

    /// How far the round has come after `steps` actions.
    pub open spec fn after(self, services: usize, steps: nat) -> Poller
        decreases steps,
    {
        if steps == 0 {
            self
        } else {
            self.after(services, (steps - 1) as nat).stepped(services)
        }
    }

    /// A poller at the beginning of a round.
    pub fn new() -> (poller: Poller)
        ensures
            poller == Poller::start(),
            poller.probed == 0,
    {
        Poller { probed: 0 }
    }

    /// Says what to do next in a round over this many services, and moves on.
    pub fn step(&mut self, services: usize) -> (action: PollAction)
        ensures
            action == old(self).action(services),
            *final(self) == old(self).stepped(services),
            old(self).probed < services ==> action == (PollAction::Probe {
                index: old(self).probed,
            }) && final(self).probed == old(self).probed + 1,
            old(self).probed >= services ==> action == (PollAction::Sleep { secs: CHECK_SECS })
                && final(self).probed == 0,
    {
        if self.probed < services {
            let index: usize = self.probed;
            self.probed = index + 1;
            PollAction::Probe { index }
        } else {
            self.probed = 0;
            PollAction::Sleep { secs: CHECK_SECS }
        }
    }
}

/// From wherever it stands, the poller probes the next service if there is one left, and counts it;
/// otherwise it pauses, and begins anew.
pub proof fn step_probes_the_next_service_or_pauses(poller: Poller, services: usize)
    ensures
        Poller::start().probed == 0,
        poller.probed < services ==> poller.action(services) == (PollAction::Probe {
            index: poller.probed,
        }) && poller.stepped(services).probed == poller.probed + 1,
        poller.probed >= services ==> poller.action(services) == (PollAction::Sleep {
            secs: CHECK_SECS,
        }) && poller.stepped(services).probed == 0,
{
}

/// Polling goes in rounds, for ever: each round probes every service exactly once, in the order of
/// the records, and ends in one pause of [`CHECK_SECS`].
pub proof fn polling_goes_in_rounds(services: usize, steps: nat)
    ensures
        Poller::start().after(services, steps).action(services) == ({
            let i = steps % ((services + 1) as nat);
            if i < services {
                PollAction::Probe { index: i as usize }
            } else {
                PollAction::Sleep { secs: CHECK_SECS }
            }
        }),
{
    lemma_position_in_round(services, steps);
}

/// The poller has come as far in the round as the steps since the last pause.
proof fn lemma_position_in_round(services: usize, steps: nat)
    ensures
        Poller::start().after(services, steps).probed == steps % ((services + 1) as nat),
    decreases steps,
{
    let round = services + 1;
    if steps == 0 {
        vstd::arithmetic::div_mod::lemma_small_mod(0, round as nat);
    } else {
        let before = steps - 1;
        let rounds = before / round;
        let probed = before % round;
        lemma_position_in_round(services, before as nat);
        vstd::arithmetic::div_mod::lemma_fundamental_div_mod(before, round);
        assert(round * rounds == rounds * round) by (nonlinear_arith);
        if probed < services {
            vstd::arithmetic::div_mod::lemma_fundamental_div_mod_converse(
                steps as int,
                round,
                rounds,
                probed + 1,
            );
        } else {
            assert((rounds + 1) * round == rounds * round + round) by (nonlinear_arith);
            vstd::arithmetic::div_mod::lemma_fundamental_div_mod_converse(
                steps as int,
                round,
                rounds + 1,
                0,
            );
        }
    }
}

} // verus!
