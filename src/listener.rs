use vstd::prelude::*;
use crate::note::RawEvent;

verus! {

/// How many batches the channel between the listener and the server holds.
pub const CHANNEL_CAPACITY: usize = 30;

/// How many events one read of a device may return.
pub const BUF_LEN: usize = 1024;

/// The pause between two sweeps over the devices, in milliseconds.
pub const POLL_INTERVAL_MS: u64 = 10;

/// The events read from one device in one sweep, tagged with that device.
#[derive(Debug)]
pub struct ChannelMessage {
    pub events: Vec<RawEvent>,
    pub device: i32,
}

/// What one read of one device gave.
#[derive(Debug)]
pub enum ReadOutcome {
    /// Events were pending and were read, in the device's order.
    Events(Vec<RawEvent>),
    /// Nothing was pending.
    Nothing,
    /// The read failed; the device is skipped for this sweep.
    Failed,
}

/// One device's read in a sweep.
#[derive(Debug)]
pub struct PortRead {
    pub device: i32,
    pub outcome: ReadOutcome,
}

/// Whether a read yields a batch: it succeeded with at least one event.
pub open spec fn yields_batch(r: PortRead) -> bool {
    r.outcome matches ReadOutcome::Events(ev) && ev@.len() > 0
}

/// The events of a read, empty unless it succeeded.
pub open spec fn events_of(r: PortRead) -> Seq<RawEvent> {
    match r.outcome {
        ReadOutcome::Events(ev) => ev@,
        _ => Seq::empty(),
    }
}

/// The positions, in sweep order, of the reads that yield a batch.
pub open spec fn batch_sources(reads: Seq<PortRead>) -> Seq<int>
    decreases reads.len(),
{
    if reads.len() == 0 {
        Seq::empty()
    } else {
        let rest = batch_sources(reads.drop_last());
        if yields_batch(reads.last()) {
            rest.push(reads.len() - 1)
        } else {
            rest
        }
    }
}

proof fn lemma_batch_sources_bounds(reads: Seq<PortRead>)
    ensures
        forall|i: int| 0 <= i < batch_sources(reads).len() ==> 0 <= #[trigger] batch_sources(reads)[i] < reads.len(),
    decreases reads.len(),
{
    if reads.len() > 0 {
        let rest = reads.drop_last();
        lemma_batch_sources_bounds(rest);
        assert forall|i: int| 0 <= i < batch_sources(reads).len() implies 0 <= #[trigger] batch_sources(reads)[i] < reads.len() by {
            if i < batch_sources(rest).len() {
                assert(batch_sources(reads)[i] == batch_sources(rest)[i]);
            }
        }
    }
}

/// The batches that one sweep over the devices sends, in sweep order: one for
/// each device whose read gave events, with those events in read order.
/// Devices with nothing pending or a failed read send nothing.
pub fn sweep_batches(reads: &Vec<PortRead>) -> (r: Vec<ChannelMessage>)
    ensures
        r@.len() == batch_sources(reads@).len(),
        forall|i: int|
            0 <= i < r@.len() ==> {
                let src = reads@[batch_sources(reads@)[i]];
                &&& (#[trigger] r@[i]).device == src.device
                &&& r@[i].events@ == events_of(src)
                &&& yields_batch(src)
            },
{
    let mut out: Vec<ChannelMessage> = Vec::new();
    let mut j: usize = 0;
    while j < reads.len()
        invariant
            j <= reads.len(),
            out@.len() == batch_sources(reads@.subrange(0, j as int)).len(),
            forall|i: int|
                0 <= i < out@.len() ==> {
                    let src = reads@[batch_sources(reads@.subrange(0, j as int))[i]];
                    &&& (#[trigger] out@[i]).device == src.device
                    &&& out@[i].events@ == events_of(src)
                    &&& yields_batch(src)
                },
        decreases reads.len() - j,
    {
        let ghost before = reads@.subrange(0, j as int);
        let ghost after = reads@.subrange(0, j + 1);
        proof {
            assert(after.drop_last() =~= before);
            lemma_batch_sources_bounds(before);
        }
        match &reads[j].outcome {
            ReadOutcome::Events(ev) => {
                if ev.len() > 0 {
                    out.push(ChannelMessage { events: ev.clone(), device: reads[j].device });
                }
            },
            _ => {},
        }
        proof {
            assert forall|i: int| 0 <= i < batch_sources(before).len() implies reads@[batch_sources(after)[i]] == reads@[batch_sources(before)[i]] by {
                assert(batch_sources(after)[i] == batch_sources(before)[i]);
            }
        }
        j = j + 1;
    }
    proof {
        assert(reads@.subrange(0, j as int) =~= reads@);
    }
    out
}

} // verus!
