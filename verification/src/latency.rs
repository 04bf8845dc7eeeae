//! The bounded window of latency samples kept for each peer, and the
//! figures drawn from it.
//!
//! A latency is a whole number of microseconds. A probe that got no answer
//! leaves a sample without a latency: it stays in the window, and the
//! figures pass over it.

use crate::net::IpAddress;
use std::collections::VecDeque;
use vstd::prelude::*;

verus! {

/// The number of samples that a window holds at most.
pub const MAX_LATENCY_SAMPLES: usize = 100;

/// The outcome of one probe.
#[derive(Debug)]
pub struct LatencyData {
    pub node_id: String,
    pub address: IpAddress,
    /// Round-trip time in microseconds; `None` for a probe without answer.
    pub latency_micros: Option<u64>,
    pub timestamp: String,
}

/// The latencies of a run of samples, in order.
pub open spec fn latencies_of(samples: Seq<LatencyData>) -> Seq<Option<u64>> {
    Seq::new(samples.len(), |i: int| samples[i].latency_micros)
}

/// The latencies that are present, in order.
pub open spec fn answered(latencies: Seq<Option<u64>>) -> Seq<u64>
    decreases latencies.len(),
{
    if latencies.len() == 0 {
        Seq::empty()
    } else {
        match latencies.last() {
            Some(latency) => answered(latencies.drop_last()).push(latency),
            None => answered(latencies.drop_last()),
        }
    }
}

/// The sum of the values.
pub open spec fn total(values: Seq<u64>) -> int
    decreases values.len(),
{
    if values.len() == 0 {
        0
    } else {
        total(values.drop_last()) + values.last()
    }
}

/// The least of the values; zero if there are none.
pub open spec fn least(values: Seq<u64>) -> int
    decreases values.len(),
{
    if values.len() == 0 {
        0
    } else if values.len() == 1 {
        values.last() as int
    } else if values.last() < least(values.drop_last()) {
        values.last() as int
    } else {
        least(values.drop_last())
    }
}

/// The greatest of the values; zero if there are none.
pub open spec fn greatest(values: Seq<u64>) -> int
    decreases values.len(),
{
    if values.len() == 0 {
        0
    } else if values.last() > greatest(values.drop_last()) {
        values.last() as int
    } else {
        greatest(values.drop_last())
    }
}

/// The mean of the present latencies, rounded down; `None` if none is
/// present.
pub open spec fn spec_average(latencies: Seq<Option<u64>>) -> Option<u64> {
    let values = answered(latencies);
    if values.len() == 0 {
        None
    } else {
        Some((total(values) / values.len() as int) as u64)
    }
}

/// The least of the present latencies; `None` if none is present.
pub open spec fn spec_minimum(latencies: Seq<Option<u64>>) -> Option<u64> {
    let values = answered(latencies);
    if values.len() == 0 {
        None
    } else {
        Some(least(values) as u64)
    }
}

/// The greatest of the present latencies; `None` if none is present.
pub open spec fn spec_maximum(latencies: Seq<Option<u64>>) -> Option<u64> {
    let values = answered(latencies);
    if values.len() == 0 {
        None
    } else {
        Some(greatest(values) as u64)
    }
}

/// The least and the greatest value occur among the values and bound them
/// all; the sum lies between as many times the least and the greatest.
pub proof fn lemma_extremes(values: Seq<u64>)
    requires
        values.len() > 0,
    ensures
        exists|i: int| 0 <= i < values.len() && #[trigger] values[i] == least(values),
        exists|i: int| 0 <= i < values.len() && #[trigger] values[i] == greatest(values),
        forall|i: int|
            0 <= i < values.len() ==> least(values) <= #[trigger] values[i] && values[i]
                <= greatest(values),
        least(values) * values.len() <= total(values) <= greatest(values) * values.len(),
    decreases values.len(),
{
    let init = values.drop_last();
    let last_index = values.len() - 1;
    if values.len() == 1 {
        assert(init.len() == 0);
        assert(total(init) == 0);
        assert(greatest(init) == 0);
        assert(values[0] == least(values));
        assert(values[0] == greatest(values));
    } else {
        lemma_extremes(init);
        let i_min = choose|i: int| 0 <= i < init.len() && #[trigger] init[i] == least(init);
        let i_max = choose|i: int| 0 <= i < init.len() && #[trigger] init[i] == greatest(init);
        if values.last() < least(init) {
            assert(values[last_index] == least(values));
        } else {
            assert(values[i_min] == least(values));
        }
        if values.last() > greatest(init) {
            assert(values[last_index] == greatest(values));
        } else {
            assert(values[i_max] == greatest(values));
        }
        assert forall|i: int| 0 <= i < values.len() implies least(values) <= #[trigger] values[i]
            && values[i] <= greatest(values) by {
            if i < init.len() {
                assert(init[i] == values[i]);
            }
        }
        let n = init.len() as int;
        let lo = least(values);
        let hi = greatest(values);
        assert(lo * (n + 1) <= total(values) <= hi * (n + 1)) by (nonlinear_arith)
            requires
                least(init) * n <= total(init) <= greatest(init) * n,
                lo <= least(init),
                greatest(init) <= hi,
                lo <= values.last() <= hi,
                total(values) == total(init) + values.last(),
                n >= 0,
        ;
    }
}

/// The mean of the present latencies lies between the least and the
/// greatest of them.
pub proof fn lemma_average_between(latencies: Seq<Option<u64>>)
    requires
        answered(latencies).len() > 0,
    ensures
        spec_minimum(latencies)->0 <= spec_average(latencies)->0 <= spec_maximum(latencies)->0,
{
    let values = answered(latencies);
    lemma_extremes(values);
    let n = values.len() as int;
    let sum = total(values);
    let lo = least(values);
    let hi = greatest(values);
    assert(lo <= sum / n <= hi) by (nonlinear_arith)
        requires
            lo * n <= sum <= hi * n,
            n > 0,
    ;
}

/// The window after one more sample: the sample is appended, and the oldest
/// one leaves first if the window is full.
pub open spec fn window_after(window: Seq<LatencyData>, sample: LatencyData) -> Seq<LatencyData> {
    if window.len() >= MAX_LATENCY_SAMPLES {
        window.subrange(1, window.len() as int).push(sample)
    } else {
        window.push(sample)
    }
}

/// The window after a run of samples, taken in one after the other.
pub open spec fn window_after_all(window: Seq<LatencyData>, samples: Seq<LatencyData>) -> Seq<
    LatencyData,
>
    decreases samples.len(),
{
    if samples.len() == 0 {
        window
    } else {
        window_after(window_after_all(window, samples.drop_last()), samples.last())
    }
}

/// The last `count` elements, or all of them if there are fewer.
pub open spec fn newest(samples: Seq<LatencyData>, count: int) -> Seq<LatencyData> {
    if samples.len() <= count {
        samples
    } else {
        samples.subrange(samples.len() - count, samples.len() as int)
    }
}

/// A window never grows past its capacity, and holds the newest of what
/// went into it: after any run of samples, a window that was within its
/// capacity holds the last hundred of its old content followed by the run.
/// So one sample more than the capacity, into an empty window, leaves all
/// of them but the first.
pub proof fn lemma_window_keeps_newest(window: Seq<LatencyData>, samples: Seq<LatencyData>)
    requires
        window.len() <= MAX_LATENCY_SAMPLES,
    ensures
        window_after_all(window, samples) == newest(window + samples, MAX_LATENCY_SAMPLES as int),
        window_after_all(window, samples).len() <= MAX_LATENCY_SAMPLES,
        window.len() == 0 && samples.len() == MAX_LATENCY_SAMPLES + 1 ==> window_after_all(
            window,
            samples,
        ) == samples.subrange(1, samples.len() as int),
    decreases samples.len(),
{
    if samples.len() == 0 {
        assert(window + samples =~= window);
    } else {
        let init = samples.drop_last();
        lemma_window_keeps_newest(window, init);
        let before = window_after_all(window, init);
        assert((window + init).push(samples.last()) =~= window + samples);
        assert(window_after(before, samples.last()) =~= newest(
            window + samples,
            MAX_LATENCY_SAMPLES as int,
        ));
    }
    if window.len() == 0 && samples.len() == MAX_LATENCY_SAMPLES + 1 {
        assert(window + samples =~= samples);
    }
}

/// The samples of one peer, newest last, and what they amount to.
#[derive(Debug)]
pub struct LatencyHistory {
    pub node_id: String,
    pub samples: VecDeque<LatencyData>,
    pub avg_latency_micros: Option<u64>,
    pub min_latency_micros: Option<u64>,
    pub max_latency_micros: Option<u64>,
}

impl LatencyHistory {
    /// Whether the figures are those of the samples held.
    pub open spec fn figures_current(&self) -> bool {
        let latencies = latencies_of(self.samples@);
        &&& self.avg_latency_micros == spec_average(latencies)
        &&& self.min_latency_micros == spec_minimum(latencies)
        &&& self.max_latency_micros == spec_maximum(latencies)
    }

    /// An empty history for the given peer.
    pub fn new(node_id: String) -> (history: Self)
        ensures
            history.node_id == node_id,
            history.samples@ == Seq::<LatencyData>::empty(),
            history.avg_latency_micros is None,
            history.min_latency_micros is None,
            history.max_latency_micros is None,
            history.figures_current(),
    {
        let history = LatencyHistory {
            node_id,
            samples: VecDeque::with_capacity(MAX_LATENCY_SAMPLES),
            avg_latency_micros: None,
            min_latency_micros: None,
            max_latency_micros: None,
        };
        assert(latencies_of(history.samples@) =~= Seq::<Option<u64>>::empty());
        history
    }

    /// Takes in one sample. A full window drops its oldest sample first.
    pub fn add_sample(&mut self, data: LatencyData)
        ensures
            final(self).samples@ == window_after(old(self).samples@, data),
            final(self).figures_current(),
            final(self).node_id == old(self).node_id,
    {
        if self.samples.len() >= MAX_LATENCY_SAMPLES {
            self.samples.pop_front();
        }
        self.samples.push_back(data);
        self.update_stats();
    }

    /// Brings the figures up to date with the samples held.
    fn update_stats(&mut self)
        ensures
            final(self).samples == old(self).samples,
            final(self).node_id == old(self).node_id,
            final(self).figures_current(),
    {
        let ghost latencies = latencies_of(self.samples@);
        let mut sum: u128 = 0;
        let mut count: u64 = 0;
        let mut lowest: u64 = 0;
        let mut highest: u64 = 0;
        let mut index: usize = 0;
        assert(latencies.take(0) =~= Seq::<Option<u64>>::empty());
        while index < self.samples.len()
            invariant
                index <= self.samples.len(),
                latencies == latencies_of(self.samples@),
                count == answered(latencies.take(index as int)).len(),
                count <= index,
                sum == total(answered(latencies.take(index as int))),
                sum <= count * 0xFFFF_FFFF_FFFF_FFFF,
                lowest == least(answered(latencies.take(index as int))),
                highest == greatest(answered(latencies.take(index as int))),
            decreases self.samples.len() - index,
        {
            proof {
                let upto = latencies.take(index + 1);
                assert(upto.drop_last() =~= latencies.take(index as int));
                assert(upto.last() == self.samples@[index as int].latency_micros);
                let values = answered(latencies.take(index as int));
                if values.len() > 0 {
                    lemma_extremes(values);
                }
            }
            match self.samples[index].latency_micros {
                Some(latency) => {
                    proof {
                        let values = answered(latencies.take(index as int));
                        assert(answered(latencies.take(index + 1)) == values.push(latency));
                        assert(values.push(latency).drop_last() =~= values);
                    }
                    if count == 0 || latency < lowest {
                        lowest = latency;
                    }
                    if latency > highest {
                        highest = latency;
                    }
                    sum = sum + latency as u128;
                    count = count + 1;
                },
                None => {},
            }
            index = index + 1;
        }
        assert(latencies.take(latencies.len() as int) =~= latencies);
        if count == 0 {
            self.avg_latency_micros = None;
            self.min_latency_micros = None;
            self.max_latency_micros = None;
        } else {
            let mean: u128 = sum / count as u128;
            assert(mean <= 0xFFFF_FFFF_FFFF_FFFF) by (nonlinear_arith)
                requires
                    mean == sum as int / count as int,
                    sum <= count * 0xFFFF_FFFF_FFFF_FFFF,
                    count > 0,
            ;
            self.avg_latency_micros = Some(mean as u64);
            self.min_latency_micros = Some(lowest);
            self.max_latency_micros = Some(highest);
        }
    }
}

} // verus!
