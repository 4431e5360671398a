//! Staged host discovery: the probes run in a fixed order and the first
//! one that reports the host alive settles it.

use vstd::prelude::*;

use crate::ipv4::Ipv4Addr;

verus! {

/// The probes that decide whether a host is up.
#[derive(Clone, Copy, Debug, PartialEq, Eq, Structural)]
pub enum Stage {
    /// ICMP echo request (type 8).
    EchoRequest,
    /// TCP SYN to the configured ports.
    TcpSyn,
}

/// Number of stages.
pub const STAGE_COUNT: usize = 2;

/// The stage that runs in position `i`: the echo request first, then TCP SYN.
pub open spec fn stage_at(i: int) -> Stage {
    if i == 0 {
        Stage::EchoRequest
    } else {
        Stage::TcpSyn
    }
}

/// The probing of one host is over once some stage reported it alive or
/// every stage has run.
pub open spec fn is_settled(results: Seq<bool>) -> bool {
    results.contains(true) || results.len() >= STAGE_COUNT
}

/// The result history of one host's staged probing: the results of the
/// stages run so far, in stage order.
pub struct StagedProbe {
    ran: usize,
    alive: bool,
}

impl View for StagedProbe {
    type V = Seq<bool>;

    /// Every stage that ran before the last one reported the host dead; the
    /// last one reported `alive`.
    closed spec fn view(&self) -> Seq<bool> {
        Seq::new(self.ran as nat, |i: int| i == self.ran - 1 && self.alive)
    }
}

impl StagedProbe {
    #[verifier::type_invariant]
    closed spec fn well_formed(self) -> bool {
        &&& self.ran <= STAGE_COUNT
        &&& self.alive ==> self.ran >= 1
    }

    /// A probe of one host before any stage ran.
    pub fn new() -> (p: StagedProbe)
        ensures
            p@ == Seq::<bool>::empty(),
    {
        let p = StagedProbe { ran: 0, alive: false };
        assert(p@ =~= Seq::<bool>::empty());
        p
    }

    /// The stage to run next, or `None` once the host is settled.
    pub fn next_stage(&self) -> (r: Option<Stage>)
        ensures
            r == (if is_settled(self@) {
                None
            } else {
                Some(stage_at(self@.len() as int))
            }),
    {
        proof {
            use_type_invariant(self);
            if self.alive {
                assert(self@[self.ran - 1]);
            }
        }
        if self.alive || self.ran >= STAGE_COUNT {
            None
        } else if self.ran == 0 {
            Some(Stage::EchoRequest)
        } else {
            Some(Stage::TcpSyn)
        }
    }

    /// Record what the stage that just ran reported.
    pub fn record(&mut self, alive: bool)
        requires
            !is_settled(old(self)@),
        ensures
            final(self)@ == old(self)@.push(alive),
    {
        proof {
            use_type_invariant(&*self);
            if self.alive {
                assert(self@[self.ran - 1]);
            }
        }
        let ghost before = self@;
        self.ran = self.ran + 1;
        self.alive = alive;
        assert(self@ =~= before.push(alive));
    }

    /// What staged probing says of `ip` once it is settled: `Some(ip)` when
    /// some stage reported the host alive, `None` when none did.
    pub fn outcome(&self, ip: Ipv4Addr) -> (r: Option<Ipv4Addr>)
        requires
            is_settled(self@),
        ensures
            r == (if self@.contains(true) {
                Some(ip)
            } else {
                None
            }),
    {
        proof {
            use_type_invariant(self);
            if self.alive {
                assert(self@[self.ran - 1]);
            } else {
                assert forall|i: int| 0 <= i < self@.len() implies !self@[i] by {}
            }
        }
        if self.alive {
            Some(ip)
        } else {
            None
        }
    }
}

/// The result histories that staged probing can reach from the start by
/// recording one result per stage while the host is not settled.
pub open spec fn reachable(results: Seq<bool>) -> bool
    decreases results.len(),
{
    results.len() == 0 || (reachable(results.drop_last()) && !is_settled(results.drop_last()))
}

/// Stages run in order and stop at the first that reports the host alive:
/// in any reachable history, every stage but the last reported dead, at most
/// `STAGE_COUNT` stages ran, and once settled the verdict is alive exactly
/// when the last stage that ran reported alive.
pub proof fn law_staged_probing_short_circuits(results: Seq<bool>)
    requires
        reachable(results),
    ensures
        results.len() <= STAGE_COUNT,
        forall|i: int| 0 <= i < results.len() - 1 ==> !results[i],
        is_settled(results) ==> (results.contains(true) <==> results.last()),
    decreases results.len(),
{
    if results.len() > 0 {
        let p = results.drop_last();
        law_staged_probing_short_circuits(p);
        assert forall|i: int| 0 <= i < results.len() - 1 implies !results[i] by {
            assert(results[i] == p[i]);
            if results[i] {
                assert(p.contains(true));
            }
        }
        if results.contains(true) && !results.last() {
            let i = choose|i: int| 0 <= i < results.len() && results[i];
        }
    }
}

} // verus!
