//! The calibration campaign: a fixed number of rounds over all array
//! channels, from which one offset per channel is derived.

use std::collections::BTreeMap;
use vstd::arithmetic::div_mod::{
    lemma_fundamental_div_mod, lemma_fundamental_div_mod_converse, lemma_mod_pos_bound,
};
use vstd::prelude::*;

verus! {

broadcast use vstd::std_specs::btree::group_btree_axioms;

/// Where a campaign stands.
#[derive(Clone, Copy, Debug, PartialEq, Eq, Structural)]
pub enum Phase {
    /// Not started.
    Idle,
    /// Waiting for the reading of `channel` in round `round`.
    Sampling { round: usize, channel: usize },
    /// All readings are in; the offsets are being derived and persisted.
    Reducing,
    /// The new calibration is persisted; the campaign is over.
    Persisted,
}

/// What the controller has to do next.
#[derive(Clone, Copy, Debug, PartialEq, Eq, Structural)]
pub enum Action {
    /// Start the campaign.
    Start,
    /// Read `channel`, wait out the sampling interval, and report the
    /// outcome.
    Read { channel: usize },
    /// Derive the offsets, persist them, and report that it is done.
    Reduce,
    /// Nothing: the campaign is over.
    Finished,
}

/// A campaign as a value: its phase, its size, and the successful samples
/// of every channel in the order they arrived.
#[verifier::ext_equal]
pub struct Campaign<T> {
    /// Where the campaign stands.
    pub phase: Phase,
    /// Number of rounds, each reading every channel once.
    pub rounds: nat,
    /// The samples of each channel so far, by channel id.
    pub samples: Seq<Seq<T>>,
}

impl<T> Campaign<T> {
    /// A campaign over `channels` channels and `rounds` rounds that has
    /// not started.
    pub open spec fn fresh(channels: nat, rounds: nat) -> Campaign<T> {
        Campaign {
            phase: Phase::Idle,
            rounds,
            samples: Seq::new(channels, |c: int| Seq::<T>::empty()),
        }
    }

    /// A sampling phase points at a round and a channel of the campaign,
    /// and no channel holds more samples than rounds have begun.
    pub open spec fn wf(self) -> bool {
        &&& match self.phase {
            Phase::Idle => forall|c: int|
                0 <= c < self.samples.len() ==> (#[trigger] self.samples[c]).len() == 0,
            Phase::Sampling { round, channel } => {
                &&& round < self.rounds
                &&& channel < self.samples.len()
                &&& forall|c: int|
                    0 <= c < self.samples.len() ==> (#[trigger] self.samples[c]).len() <= if c
                        < channel {
                        round + 1
                    } else {
                        round as int
                    }
            },
            _ => forall|c: int|
                0 <= c < self.samples.len() ==> (#[trigger] self.samples[c]).len()
                    <= self.rounds,
        }
    }

    /// What the controller has to do in this phase.
    pub open spec fn pending(self) -> Action {
        match self.phase {
            Phase::Idle => Action::Start,
            Phase::Sampling { channel, .. } => Action::Read { channel },
            Phase::Reducing => Action::Reduce,
            Phase::Persisted => Action::Finished,
        }
    }

    /// The campaign after it was started: sampling begins with channel 0
    /// of round 0, or is skipped when there is nothing to read. Starting
    /// again later changes nothing.
    pub open spec fn begin(self) -> Campaign<T> {
        match self.phase {
            Phase::Idle => if self.samples.len() > 0 && self.rounds > 0 {
                Campaign { phase: Phase::Sampling { round: 0, channel: 0 }, ..self }
            } else {
                Campaign { phase: Phase::Reducing, ..self }
            },
            _ => self,
        }
    }

    /// The campaign after the awaited read ended with `reading`: a
    /// successful sample is kept, a failed one is skipped, and sampling
    /// moves on to the next channel, the next round, or the reduction.
    /// Outside the sampling phase a reading changes nothing.
    pub open spec fn record(self, reading: Option<T>) -> Campaign<T> {
        match self.phase {
            Phase::Sampling { round, channel } => Campaign {
                phase: if channel + 1 < self.samples.len() {
                    Phase::Sampling { round, channel: (channel + 1) as usize }
                } else if round + 1 < self.rounds {
                    Phase::Sampling { round: (round + 1) as usize, channel: 0 }
                } else {
                    Phase::Reducing
                },
                samples: match reading {
                    Some(value) => self.samples.update(
                        channel as int,
                        self.samples[channel as int].push(value),
                    ),
                    None => self.samples,
                },
                ..self
            },
            _ => self,
        }
    }

    /// The campaign after the new calibration was persisted. Before the
    /// reduction is reached this changes nothing.
    pub open spec fn persisted(self) -> Campaign<T> {
        match self.phase {
            Phase::Reducing => Campaign { phase: Phase::Persisted, ..self },
            _ => self,
        }
    }

    /// The campaign after the outcomes `readings` of its reads were taken
    /// in, first to last.
    pub open spec fn after(self, readings: Seq<Option<T>>) -> Campaign<T>
        decreases readings.len(),
    {
        if readings.len() == 0 {
            self
        } else {
            self.after(readings.drop_last()).record(readings.last())
        }
    }

    /// The channels that gave at least one sample.
    pub open spec fn sampled(self) -> Set<usize> {
        Set::new(|c: usize| c < self.samples.len() && self.samples[c as int].len() > 0)
    }
}

/// The position reached after `k` reads: reads go channel by channel and
/// round by round, so one more read moves to the next channel, or to the
/// first channel of the next round.
proof fn lemma_next_position(k: int, channels: int)
    requires
        0 <= k,
        0 < channels,
    ensures
        0 <= k % channels < channels,
        0 <= k / channels,
        k == (k / channels) * channels + k % channels,
        k % channels + 1 < channels ==> (k + 1) / channels == k / channels && (k + 1) % channels
            == k % channels + 1,
        k % channels + 1 >= channels ==> (k + 1) / channels == k / channels + 1 && (k + 1)
            % channels == 0,
{
    let q = k / channels;
    let r = k % channels;
    lemma_mod_pos_bound(k, channels);
    lemma_fundamental_div_mod(k, channels);
    assert(channels * q == q * channels) by (nonlinear_arith);
    assert(q >= 0) by (nonlinear_arith)
        requires
            k == q * channels + r,
            0 <= r < channels,
            0 <= k,
    ;
    if r + 1 < channels {
        lemma_fundamental_div_mod_converse(k + 1, channels, q, r + 1);
    } else {
        assert((q + 1) * channels == q * channels + channels) by (nonlinear_arith);
        lemma_fundamental_div_mod_converse(k + 1, channels, q + 1, 0);
    }
}

/// A campaign is in round `k / channels` after `k` reads, and that round
/// exists as long as reads are outstanding.
proof fn lemma_round_exists(k: int, channels: int, rounds: int)
    requires
        0 <= k,
        0 < channels,
        0 <= rounds,
    ensures
        k < rounds * channels <==> k / channels < rounds,
        k == rounds * channels ==> k / channels == rounds && k % channels == 0,
{
    let q = k / channels;
    let r = k % channels;
    lemma_next_position(k, channels);
    if q < rounds {
        assert(q * channels + r < rounds * channels) by (nonlinear_arith)
            requires
                q + 1 <= rounds,
                0 <= r < channels,
        ;
    } else {
        assert(q * channels + r >= rounds * channels) by (nonlinear_arith)
            requires
                q >= rounds,
                0 <= r,
                0 < channels,
        ;
    }
    if k == rounds * channels {
        lemma_fundamental_div_mod_converse(k, channels, rounds, 0);
    }
}

/// A campaign reads every channel once per round: after `k` outcomes it
/// awaits channel `k % channels` of round `k / channels`, and once
/// `rounds * channels` outcomes are in it turns to the reduction. No
/// outcome, good or bad, changes that course.
pub proof fn lemma_campaign_progress<T>(channels: nat, rounds: nat, readings: Seq<Option<T>>)
    requires
        0 < channels <= usize::MAX,
        0 < rounds <= usize::MAX,
        readings.len() <= rounds * channels,
    ensures
        ({
            let reached = Campaign::<T>::fresh(channels, rounds).begin().after(readings);
            &&& reached.wf()
            &&& reached.rounds == rounds
            &&& reached.samples.len() == channels
            &&& reached.phase == if readings.len() < rounds * channels {
                Phase::Sampling {
                    round: (readings.len() / channels) as usize,
                    channel: (readings.len() % channels) as usize,
                }
            } else {
                Phase::Reducing
            }
        }),
    decreases readings.len(),
{
    let started = Campaign::<T>::fresh(channels, rounds).begin();
    let k = readings.len() as int;
    assert(0 < rounds * channels) by (nonlinear_arith)
        requires
            0 < channels,
            0 < rounds,
    ;
    if k == 0 {
        lemma_next_position(0, channels as int);
        assert(0int / (channels as int) == 0 && 0int % (channels as int) == 0) by {
            lemma_fundamental_div_mod_converse(0, channels as int, 0, 0);
        }
    } else {
        lemma_campaign_progress(channels, rounds, readings.drop_last());
        lemma_next_position(k - 1, channels as int);
        lemma_round_exists(k - 1, channels as int, rounds as int);
        lemma_round_exists(k, channels as int, rounds as int);
    }
}

/// When every read of a campaign gives the same value, every channel
/// ends up with one sample of that value per round.
pub proof fn lemma_steady_campaign<T>(
    channels: nat,
    rounds: nat,
    readings: Seq<Option<T>>,
    value: T,
)
    requires
        0 < channels <= usize::MAX,
        0 < rounds <= usize::MAX,
        readings.len() <= rounds * channels,
        forall|k: int| 0 <= k < readings.len() ==> readings[k] == Some(value),
    ensures
        ({
            let reached = Campaign::<T>::fresh(channels, rounds).begin().after(readings);
            &&& reached.samples.len() == channels
            &&& forall|c: int|
                0 <= c < channels ==> #[trigger] reached.samples[c] == Seq::new(
                    (readings.len() / channels + if c < readings.len() % channels {
                        1int
                    } else {
                        0int
                    }) as nat,
                    |i: int| value,
                )
            &&& readings.len() == rounds * channels ==> reached.phase == Phase::Reducing
                && forall|c: int|
                0 <= c < channels ==> #[trigger] reached.samples[c] == Seq::new(
                    rounds,
                    |i: int| value,
                )
        }),
    decreases readings.len(),
{
    let reached = Campaign::<T>::fresh(channels, rounds).begin().after(readings);
    let k = readings.len() as int;
    let n = channels as int;
    lemma_campaign_progress(channels, rounds, readings);
    lemma_next_position(k, n);
    lemma_round_exists(k, n, rounds as int);
    if k == 0 {
        assert(0int / n == 0 && 0int % n == 0) by {
            lemma_fundamental_div_mod_converse(0, n, 0, 0);
        }
        assert forall|c: int| 0 <= c < channels implies #[trigger] reached.samples[c]
            == Seq::new((k / n + if c < k % n {
                1int
            } else {
                0int
            }) as nat, |i: int| value) by {
            assert(reached.samples[c] =~= Seq::new(0, |i: int| value));
        }
    } else {
        let earlier = readings.drop_last();
        let before = Campaign::<T>::fresh(channels, rounds).begin().after(earlier);
        lemma_steady_campaign(channels, rounds, earlier, value);
        lemma_campaign_progress(channels, rounds, earlier);
        lemma_next_position(k - 1, n);
        lemma_round_exists(k - 1, n, rounds as int);
        let q = (k - 1) / n;
        let r = (k - 1) % n;
        assert(readings.last() == Some(value));
        assert(reached == before.record(Some(value)));
        assert forall|c: int| 0 <= c < channels implies #[trigger] reached.samples[c]
            == Seq::new((k / n + if c < k % n {
                1int
            } else {
                0int
            }) as nat, |i: int| value) by {
            let old_count = q + if c < r {
                1int
            } else {
                0int
            };
            assert(before.samples[c] == Seq::new(old_count as nat, |i: int| value));
            if c == r {
                assert(reached.samples[c] =~= Seq::new((old_count + 1) as nat, |i: int| value));
            } else {
                assert(reached.samples[c] == before.samples[c]);
            }
        }
    }
    if k == rounds * channels {
        assert forall|c: int| 0 <= c < channels implies #[trigger] reached.samples[c]
            == Seq::new(rounds, |i: int| value) by {
            assert(k / n == rounds && k % n == 0);
        }
    }
}

/// The controller's record of one campaign.
pub struct CalibrationSession<T> {
    phase: Phase,
    rounds: usize,
    samples: Vec<Vec<T>>,
}

impl<T> View for CalibrationSession<T> {
    type V = Campaign<T>;

    closed spec fn view(&self) -> Campaign<T> {
        Campaign {
            phase: self.phase,
            rounds: self.rounds as nat,
            samples: Seq::new(self.samples@.len(), |c: int| self.samples@[c]@),
        }
    }
}

impl<T> CalibrationSession<T> {
    /// The invariant of the campaign.
    pub open spec fn wf(&self) -> bool {
        self@.wf()
    }

    /// The samples of `channel` as the list handed to the reducer.
    pub closed spec fn batch(&self, channel: int) -> Vec<T> {
        self.samples@[channel]
    }

    /// A campaign over channels `0..channels` with `rounds` rounds, not
    /// yet started.
    pub fn new(channels: usize, rounds: usize) -> (session: Self)
        ensures
            session.wf(),
            session@ == Campaign::<T>::fresh(channels as nat, rounds as nat),
    {
        let mut samples: Vec<Vec<T>> = Vec::new();
        let mut c: usize = 0;
        while c < channels
            invariant
                c <= channels,
                samples@.len() == c,
                forall|i: int| 0 <= i < c ==> (#[trigger] samples@[i])@ == Seq::<T>::empty(),
            decreases channels - c,
        {
            samples.push(Vec::new());
            c = c + 1;
        }
        let session = Self { phase: Phase::Idle, rounds, samples };
        assert(session@.samples =~= Campaign::<T>::fresh(channels as nat, rounds as nat).samples);
        session
    }

    /// What the controller has to do next.
    pub fn pending(&self) -> (action: Action)
        ensures
            action == self@.pending(),
    {
        match self.phase {
            Phase::Idle => Action::Start,
            Phase::Sampling { channel, .. } => Action::Read { channel },
            Phase::Reducing => Action::Reduce,
            Phase::Persisted => Action::Finished,
        }
    }

    /// Where the campaign stands.
    pub fn phase(&self) -> (phase: Phase)
        ensures
            phase == self@.phase,
    {
        self.phase
    }

    /// Starts the campaign and returns what to do next.
    pub fn begin(&mut self) -> (next: Action)
        requires
            old(self).wf(),
        ensures
            final(self).wf(),
            final(self)@ == old(self)@.begin(),
            next == final(self)@.pending(),
    {
        match self.phase {
            Phase::Idle => {
                if self.samples.len() > 0 && self.rounds > 0 {
                    self.phase = Phase::Sampling { round: 0, channel: 0 };
                } else {
                    self.phase = Phase::Reducing;
                }
            },
            _ => {},
        }
        assert(self@.samples =~= old(self)@.samples);
        self.pending()
    }

    /// Takes in the outcome of the awaited read and returns what to do
    /// next.
    pub fn record(&mut self, reading: Option<T>) -> (next: Action)
        requires
            old(self).wf(),
        ensures
            final(self).wf(),
            final(self)@ == old(self)@.record(reading),
            next == final(self)@.pending(),
    {
        match self.phase {
            Phase::Sampling { round, channel } => {
                let channels = self.samples.len();
                match reading {
                    Some(value) => {
                        self.samples[channel].push(value);
                    },
                    None => {},
                }
                if channel + 1 < channels {
                    self.phase = Phase::Sampling { round, channel: channel + 1 };
                } else if round + 1 < self.rounds {
                    self.phase = Phase::Sampling { round: round + 1, channel: 0 };
                } else {
                    self.phase = Phase::Reducing;
                }
                assert(self@.samples =~= old(self)@.record(reading).samples);
            },
            _ => {
                assert(self@.samples =~= old(self)@.samples);
            },
        }
        self.pending()
    }

    /// Notes that the new calibration is persisted and returns what to do
    /// next.
    pub fn persisted(&mut self) -> (next: Action)
        requires
            old(self).wf(),
        ensures
            final(self).wf(),
            final(self)@ == old(self)@.persisted(),
            next == final(self)@.pending(),
    {
        match self.phase {
            Phase::Reducing => {
                self.phase = Phase::Persisted;
            },
            _ => {},
        }
        assert(self@.samples =~= old(self)@.samples);
        self.pending()
    }

    /// Derives the new calibration once sampling is over: `offset_of` is
    /// applied to the samples of every channel that gave at least one, and
    /// a channel that gave none is left out of the table. `None` unless
    /// the campaign is in its reduction phase.
    pub fn reduce<F: Fn(&Vec<T>) -> T>(&self, offset_of: F) -> (table: Option<BTreeMap<usize, T>>)
        requires
            self.wf(),
            forall|c: int|
                0 <= c < self@.samples.len() && self@.samples[c].len() > 0 ==> call_requires(
                    offset_of,
                    (&#[trigger] self.batch(c),),
                ),
        ensures
            table.is_some() == (self@.phase == Phase::Reducing),
            (match table {
                Some(offsets) => {
                    &&& offsets@.dom() == self@.sampled()
                    &&& forall|c: usize|
                        self@.sampled().contains(c) ==> call_ensures(
                            offset_of,
                            (&self.batch(c as int),),
                            #[trigger] offsets@[c],
                        )
                },
                None => true,
            }),
    {
        match self.phase {
            Phase::Reducing => {},
            _ => {
                return None;
            },
        }
        let mut offsets: BTreeMap<usize, T> = BTreeMap::new();
        let mut c: usize = 0;
        while c < self.samples.len()
            invariant
                c <= self.samples@.len(),
                forall|i: int|
                    0 <= i < self@.samples.len() && self@.samples[i].len() > 0 ==> call_requires(
                        offset_of,
                        (&#[trigger] self.batch(i),),
                    ),
                forall|k: usize|
                    offsets@.dom().contains(k) <==> k < c && self@.samples[k as int].len() > 0,
                forall|k: usize|
                    offsets@.dom().contains(k) ==> call_ensures(
                        offset_of,
                        (&self.batch(k as int),),
                        #[trigger] offsets@[k],
                    ),
            decreases self.samples@.len() - c,
        {
            if self.samples[c].len() > 0 {
                assert(self@.samples[c as int].len() > 0);
                assert(self.batch(c as int) == self.samples@[c as int]);
                let offset = offset_of(&self.samples[c]);
                offsets.insert(c, offset);
            }
            c = c + 1;
        }
        assert(offsets@.dom() =~= self@.sampled());
        Some(offsets)
    }
}

} // verus!
