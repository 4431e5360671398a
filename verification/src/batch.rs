//! Buffering of alive hosts before they are printed, so that the progress
//! display is interrupted once per batch rather than once per host.

use vstd::prelude::*;

use crate::config::PRINT_BATCH;
use crate::ipv4::Ipv4Addr;

verus! {

/// One alive host joins the buffer `pending`: the buffer afterwards, and
/// the batch to print now, if the buffer became full.
pub open spec fn batch_step(pending: Seq<Ipv4Addr>, ip: Ipv4Addr) -> (
    Seq<Ipv4Addr>,
    Option<Seq<Ipv4Addr>>,
) {
    let p = pending.push(ip);
    if p.len() >= PRINT_BATCH {
        (Seq::<Ipv4Addr>::empty(), Some(p))
    } else {
        (p, None)
    }
}

/// Alive hosts waiting to be printed; there are always fewer than
/// `PRINT_BATCH` of them.
pub struct AliveBatch {
    pending: Vec<Ipv4Addr>,
}

impl View for AliveBatch {
    type V = Seq<Ipv4Addr>;

    closed spec fn view(&self) -> Seq<Ipv4Addr> {
        self.pending@
    }
}

impl AliveBatch {
    #[verifier::type_invariant]
    closed spec fn well_formed(self) -> bool {
        self.pending@.len() < PRINT_BATCH
    }

    /// An empty buffer.
    pub fn new() -> (b: AliveBatch)
        ensures
            b@ == Seq::<Ipv4Addr>::empty(),
    {
        AliveBatch { pending: Vec::new() }
    }

    /// Buffer one more alive host; once `PRINT_BATCH` hosts are buffered,
    /// hand all of them out, in arrival order, to be printed.
    pub fn push(&mut self, ip: Ipv4Addr) -> (r: Option<Vec<Ipv4Addr>>)
        ensures
            final(self)@ == batch_step(old(self)@, ip).0,
            r matches Some(v) ==> batch_step(old(self)@, ip).1 == Some(v@),
            r is None ==> batch_step(old(self)@, ip).1 is None,
    {
        proof {
            use_type_invariant(&*self);
        }
        let mut pending = Vec::new();
        std::mem::swap(&mut pending, &mut self.pending);
        pending.push(ip);
        if pending.len() >= PRINT_BATCH {
            Some(pending)
        } else {
            self.pending = pending;
            None
        }
    }

    /// The hosts still buffered, in arrival order, at the end of the run.
    pub fn finish(self) -> (r: Vec<Ipv4Addr>)
        ensures
            r@ == self@,
    {
        self.pending
    }
}

/// Feeding the alive hosts `pushes`, in order, into a buffer holding
/// `pending`: the batches printed on the way, and what stays buffered.
pub open spec fn run_batches(pending: Seq<Ipv4Addr>, pushes: Seq<Ipv4Addr>) -> (
    Seq<Seq<Ipv4Addr>>,
    Seq<Ipv4Addr>,
)
    decreases pushes.len(),
{
    if pushes.len() == 0 {
        (Seq::<Seq<Ipv4Addr>>::empty(), pending)
    } else {
        let (batches, p) = run_batches(pending, pushes.drop_last());
        let (after, out) = batch_step(p, pushes.last());
        match out {
            Some(b) => (batches.push(b), after),
            None => (batches, after),
        }
    }
}

/// Every alive host is printed exactly once and in the order it arrived:
/// the printed batches followed by what is left at the end are the buffered
/// hosts followed by all that arrived; every printed batch holds exactly
/// `PRINT_BATCH` hosts, and fewer than that are ever left over.
pub proof fn law_batches_print_every_host_in_order(
    pending: Seq<Ipv4Addr>,
    pushes: Seq<Ipv4Addr>,
)
    requires
        pending.len() < PRINT_BATCH,
    ensures
        ({
            let (batches, rest) = run_batches(pending, pushes);
            &&& batches.flatten_alt() + rest == pending + pushes
            &&& forall|i: int| 0 <= i < batches.len() ==> (#[trigger] batches[i]).len() == PRINT_BATCH
            &&& rest.len() < PRINT_BATCH
        }),
    decreases pushes.len(),
{
    if pushes.len() > 0 {
        let prev = pushes.drop_last();
        law_batches_print_every_host_in_order(pending, prev);
        let (batches, p) = run_batches(pending, prev);
        let (after, out) = batch_step(p, pushes.last());
        assert(prev.push(pushes.last()) =~= pushes);
        let l = pushes.last();
        assert(batches.flatten_alt() + p == pending + prev);
        assert((batches.flatten_alt() + p).push(l) =~= batches.flatten_alt() + p.push(l));
        assert((pending + prev).push(l) =~= pending + pushes);
        match out {
            Some(b) => {
                let nb = batches.push(b);
                assert(nb.drop_last() =~= batches);
                assert(nb.flatten_alt() == batches.flatten_alt() + b);
                assert(nb.flatten_alt() + after =~= pending + pushes);
                assert forall|i: int| 0 <= i < nb.len() implies (#[trigger] nb[i]).len()
                    == PRINT_BATCH by {
                    if i < batches.len() {
                        assert(nb[i] == batches[i]);
                    }
                }
            },
            None => {
                assert(batches.flatten_alt() + after =~= pending + pushes);
            },
        }
    }
}

} // verus!
