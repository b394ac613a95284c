use crate::sequences::{find_duplicate, first_duplicate, strs, views, Duplicate};
use crate::strings::{lemma_seq_lt_irrefl, lemma_seq_lt_total, lemma_seq_lt_trans, lemma_utf8_injective, seq_lt, str_eq, str_lt, utf8};
use core::marker::PhantomData;
use vstd::prelude::*;

verus! {

/// Errors of the consensus mechanism.
#[derive(Clone, Debug, PartialEq)]
pub enum ConsensusError {
    Std { msg: String },
    PrepublishError { msg: String },
    ZeroThreshold {},
    UnreachableThreshold {},
    EmptyMessengers {},
    DuplicateMessengers {},
    DoubleSubmission {},
    InvalidRound { msg: String },
    Overflow {},
    CheckedDiv {},
}

/// The configuration of the consensus.
#[derive(Clone, Debug, PartialEq)]
pub struct Config {
    /// the messengers that can submit data for consensus
    pub messengers: Vec<String>,
    /// how many messengers must agree for consensus to be reached
    pub threshold: u32,
    /// delta in parts per million for which two values are considered equal
    pub data_delta_ppm: u64,
    /// length of a round in seconds
    pub round_length: u64,
}

impl Config {
    /// Validates the configuration: at least one messenger, no messenger listed
    /// twice, and a nonzero threshold that does not exceed the number of
    /// messengers.
    pub fn validate(&self) -> (r: Result<(), ConsensusError>)
        ensures
            r == config_check(*self),
            r is Ok <==> config_valid(*self),
    {
        if self.messengers.len() == 0 {
            return Err(ConsensusError::EmptyMessengers {});
        }
        if find_duplicate(self.messengers.as_slice()).is_some() {
            return Err(ConsensusError::DuplicateMessengers {});
        }
        if self.threshold == 0 {
            return Err(ConsensusError::ZeroThreshold {});
        }
        if (self.threshold as usize) > self.messengers.len() {
            return Err(ConsensusError::UnreachableThreshold {});
        }
        Ok(())
    }
}

/// The answer of the configuration check, the checks taken in order: no
/// messengers, a messenger listed twice, a zero threshold, a threshold above
/// the number of messengers.
pub open spec fn config_check(c: Config) -> Result<(), ConsensusError> {
    if c.messengers@.len() == 0 {
        Err(ConsensusError::EmptyMessengers {})
    } else if first_duplicate(strs(c.messengers@)) is Some {
        Err(ConsensusError::DuplicateMessengers {})
    } else if c.threshold == 0 {
        Err(ConsensusError::ZeroThreshold {})
    } else if c.threshold > c.messengers@.len() {
        Err(ConsensusError::UnreachableThreshold {})
    } else {
        Ok(())
    }
}

/// A valid configuration: at least one messenger, none listed twice, and a
/// threshold between one and the number of messengers.
pub open spec fn config_valid(c: Config) -> bool {
    &&& c.messengers@.len() > 0
    &&& first_duplicate(strs(c.messengers@)) is None
    &&& 0 < c.threshold <= c.messengers@.len()
}

/// A consensus round.
#[derive(Clone, Copy, Debug, PartialEq, Eq, Structural)]
pub struct Round {
    /// the number of the round
    pub round: u64,
    /// when the round started (UNIX timestamp in seconds)
    pub start: u64,
}

impl Round {
    pub open spec fn spec_is_passed(self, now: u64, round_length: u64) -> bool {
        self.start + round_length <= now
    }

    /// Whether the round is over at time `now`.
    pub fn is_passed(&self, now: u64, round_length: u64) -> (r: bool)
        requires
            self.start + round_length <= u64::MAX,
        ensures
            r == self.spec_is_passed(now, round_length),
    {
        self.start + round_length <= now
    }

    /// The round after this one.
    pub fn next_round(&self, round_length: u64) -> (r: Round)
        requires
            self.round + 1 <= u64::MAX,
            self.start + round_length <= u64::MAX,
        ensures
            r.round == self.round + 1,
            r.start == self.start + round_length,
    {
        Round { round: self.round + 1, start: self.start + round_length }
    }
}

/// The outcome of the consensus for data of type `T`.
#[derive(Clone, Debug, PartialEq)]
pub struct ConsensusOutcome<T> {
    /// the round in which consensus was reached
    pub round: u64,
    /// the UNIX timestamp in seconds when consensus was reached
    pub timestamp: u64,
    /// the agreed data
    pub data: T,
}

/// Result of `publish_data`.
#[derive(Clone, Debug, PartialEq)]
pub enum PublishResult<T> {
    ConsensusReached(ConsensusOutcome<T>),
    ConsensusNotReached,
}

impl<T: View> View for ConsensusOutcome<T> {
    type V = ConsensusOutcome<T::V>;

    open spec fn view(&self) -> ConsensusOutcome<T::V> {
        ConsensusOutcome { round: self.round, timestamp: self.timestamp, data: self.data@ }
    }
}

impl<T: View> View for PublishResult<T> {
    type V = PublishResult<T::V>;

    open spec fn view(&self) -> PublishResult<T::V> {
        match self {
            PublishResult::ConsensusReached(o) => PublishResult::ConsensusReached(o@),
            PublishResult::ConsensusNotReached => PublishResult::ConsensusNotReached,
        }
    }
}

/// The view of an optional outcome.
pub open spec fn outcome_view<T: View>(o: Option<ConsensusOutcome<T>>) -> Option<ConsensusOutcome<T::V>> {
    match o {
        Some(x) => Some(x@),
        None => None,
    }
}

/// The data messengers reach consensus on, specified over its view.
pub trait ConsensusData<O>: Duplicate {
    /// What cleaning up a submission gives: the cleaned data, or the message of the
    /// `PrepublishError` it is refused with.
    spec fn spec_prepublish_cleanup(data: Self::V, options: O) -> Result<Self::V, Seq<char>>;

    /// The consensus of a collection of submissions.
    spec fn spec_try_consensus(data: Seq<Self::V>, threshold: int, delta_ppm: u64) -> Option<Self::V>;

    /// The collections on which forming the consensus is free of arithmetic overflow.
    spec fn consensus_safe(data: Seq<Self::V>, threshold: int, delta_ppm: u64) -> bool;

    /// Sorts and cleans incoming data and checks that all required fields are present.
    fn prepublish_cleanup(&mut self, options: O) -> (r: Result<(), ConsensusError>)
        ensures
            match Self::spec_prepublish_cleanup(old(self)@, options) {
                Ok(c) => r is Ok && final(self)@ == c,
                Err(m) => r matches Err(ConsensusError::PrepublishError { msg }) && msg@ == m,
            },
    ;

    /// Forms a single value out of the submissions, when enough of them agree.
    fn try_consensus(data: &[Self], threshold: usize, delta_ppm: u64) -> (r: Option<Self>)
        requires
            Self::consensus_safe(views(data@), threshold as int, delta_ppm),
        ensures
            r is Some <==> Self::spec_try_consensus(views(data@), threshold as int, delta_ppm) is Some,
            r matches Some(x) ==> Self::spec_try_consensus(views(data@), threshold as int, delta_ppm)
                == Some(x@),
    ;
}

/// The consensus state: the pending round, the configuration (and the one that
/// takes effect on the next round switch), the last agreed data, the data
/// submitted in the pending round and not yet finalized, by messenger in
/// ascending address order, and every messenger that submitted in the pending
/// round (kept when the round's data is finalized before the round is over).
pub struct State<T, O> {
    pub pending_round: Round,
    pub config: Config,
    pub pending_config: Option<Config>,
    pub last_published_data: Option<ConsensusOutcome<T>>,
    pub pending_messengers: Vec<String>,
    pub pending_values: Vec<T>,
    pub round_submitters: Vec<String>,
    /// the type of the options that cleaning up a submission takes
    pub options: PhantomData<O>,
}

/// Addresses in strictly ascending order.
pub open spec fn addresses_ascending(a: Seq<String>) -> bool {
    forall|i: int, j: int| 0 <= i < j < a.len() ==> seq_lt(utf8(a[i]@), utf8(a[j]@))
}

/// Whether an address occurs among the given ones.
pub open spec fn has_address(a: Seq<String>, m: Seq<char>) -> bool {
    exists|i: int| 0 <= i < a.len() && a[i]@ == m
}

/// The position at which an address is inserted to keep ascending order.
pub open spec fn insert_position(a: Seq<String>, m: Seq<char>) -> int {
    choose|p: int| position_ok(a, m, p)
}

/// The addresses before `p` are smaller than `m` and the ones from `p` on are larger.
pub open spec fn position_ok(a: Seq<String>, m: Seq<char>, p: int) -> bool {
    &&& 0 <= p <= a.len()
    &&& forall|i: int| 0 <= i < p ==> seq_lt(utf8(#[trigger] a[i]@), utf8(m))
    &&& forall|i: int| p <= i < a.len() ==> seq_lt(utf8(m), utf8(#[trigger] a[i]@))
}

impl<T, O> State<T, O> {
    pub open spec fn wf(self) -> bool {
        &&& self.pending_messengers@.len() == self.pending_values@.len()
        &&& addresses_ascending(self.pending_messengers@)
        &&& forall|i: int|
            0 <= i < self.pending_messengers@.len() ==> has_address(
                self.round_submitters@,
                (#[trigger] self.pending_messengers@[i])@,
            )
    }

    /// The pending round after a publication at time `now`.
    pub open spec fn round_after(self, now: u64) -> Round {
        if self.pending_round.spec_is_passed(now, self.config.round_length) {
            Round { round: (self.pending_round.round + 1) as u64, start: now }
        } else {
            self.pending_round
        }
    }

    /// The configuration after a publication at time `now`: a pending configuration
    /// takes effect on a round switch.
    pub open spec fn config_after(self, now: u64) -> Config {
        if self.pending_round.spec_is_passed(now, self.config.round_length) {
            match self.pending_config {
                Some(c) => c,
                None => self.config,
            }
        } else {
            self.config
        }
    }

    /// The state can be updated at time `now` without overflow of the round arithmetic.
    pub open spec fn time_safe(self, now: u64) -> bool {
        &&& self.pending_round.start + self.config.round_length <= u64::MAX
        &&& self.pending_round.spec_is_passed(now, self.config.round_length) ==> self.pending_round.round
            < u64::MAX
    }
}

/// The outcome of finalizing a round with the given submissions.
pub open spec fn spec_finalize<T: ConsensusData<O>, O>(
    data: Seq<T::V>,
    config: Config,
    round: u64,
    timestamp: u64,
) -> Option<ConsensusOutcome<T::V>> {
    match T::spec_try_consensus(data, config.threshold as int, config.data_delta_ppm) {
        Some(c) => Some(ConsensusOutcome { round, timestamp, data: c }),
        None => None,
    }
}

/// The submissions after the round switch, if any, at time `now`.
pub open spec fn pending_after_switch<T: View, O>(s: State<T, O>, now: u64) -> (Seq<String>, Seq<T::V>) {
    if s.pending_round.spec_is_passed(now, s.config.round_length) {
        (Seq::empty(), Seq::empty())
    } else {
        (s.pending_messengers@, views(s.pending_values@))
    }
}

/// The messengers that submitted in the round pending after a switch, if any, at
/// time `now`.
pub open spec fn submitters_after_switch<T, O>(s: State<T, O>, now: u64) -> Seq<String> {
    if s.pending_round.spec_is_passed(now, s.config.round_length) {
        Seq::empty()
    } else {
        s.round_submitters@
    }
}

/// The outcome of the finalization that a round switch at time `now` performs.
pub open spec fn switch_outcome<T: ConsensusData<O>, O>(s: State<T, O>, now: u64) -> Option<
    ConsensusOutcome<T::V>,
> {
    if s.pending_round.spec_is_passed(now, s.config.round_length) {
        spec_finalize::<T, O>(views(s.pending_values@), s.config, s.pending_round.round, now)
    } else {
        None
    }
}

/// The inputs for which `publish_data` forms its consensus values free of overflow:
/// the round arithmetic fits, and the consensus that the call forms (of the round
/// that is over, and of a round that every messenger has submitted to) is free
/// of overflow. Nothing is asked of the data where no consensus is formed: a
/// refused cleanup or a second submission.
pub open spec fn publish_safe<T: ConsensusData<O>, O>(
    s: State<T, O>,
    now: u64,
    messenger: Seq<char>,
    new_data: T::V,
    options: O,
) -> bool {
    &&& s.time_safe(now)
    &&& match T::spec_prepublish_cleanup(new_data, options) {
        Ok(c) => {
            let (ms, vs) = pending_after_switch(s, now);
            let p = insert_position(ms, messenger);
            let cfg = s.config_after(now);
            &&& s.pending_round.spec_is_passed(now, s.config.round_length) ==> T::consensus_safe(
                views(s.pending_values@),
                s.config.threshold as int,
                s.config.data_delta_ppm,
            )
            &&& !has_address(submitters_after_switch(s, now), messenger) && ms.len() + 1
                == cfg.messengers@.len() ==> T::consensus_safe(
                vs.insert(p, c),
                cfg.threshold as int,
                cfg.data_delta_ppm,
            )
        },
        Err(_) => true,
    }
}

/// What `publish_data` does: the relation between the state before (`s`), the
/// state after (`t`) and the result.
pub open spec fn publish_post<T: ConsensusData<O>, O>(
    s: State<T, O>,
    t: State<T, O>,
    now: u64,
    messenger: Seq<char>,
    new_data: T::V,
    options: O,
    r: Result<(PublishResult<T>, Round), ConsensusError>,
) -> bool {
    match T::spec_prepublish_cleanup(new_data, options) {
        Err(m) => (r matches Err(ConsensusError::PrepublishError { msg }) && msg@ == m) && t == s,
        Ok(c) => {
            let passed = s.pending_round.spec_is_passed(now, s.config.round_length);
            let first = switch_outcome::<T, O>(s, now);
            let round = s.round_after(now);
            let cfg = s.config_after(now);
            let pending_cfg = if passed {
                None
            } else {
                s.pending_config
            };
            let last = if first is Some {
                first
            } else {
                outcome_view(s.last_published_data)
            };
            let (ms, vs) = pending_after_switch(s, now);
            let subs = submitters_after_switch(s, now);
            if has_address(subs, messenger) {
                r == Err::<(PublishResult<T>, Round), ConsensusError>(ConsensusError::DoubleSubmission {})
                    && t == s
            } else {
                let p = insert_position(ms, messenger);
                let vs2 = vs.insert(p, c);
                let all_in = ms.len() + 1 == cfg.messengers@.len();
                let second = if all_in {
                    spec_finalize::<T, O>(vs2, cfg, round.round, now)
                } else {
                    None
                };
                let res = if all_in {
                    match second {
                        Some(o) => PublishResult::ConsensusReached(o),
                        None => PublishResult::ConsensusNotReached,
                    }
                } else {
                    match first {
                        Some(o) => PublishResult::ConsensusReached(o),
                        None => PublishResult::ConsensusNotReached,
                    }
                };
                &&& r matches Ok((pr, rd)) && pr@ == res && rd == round
                &&& position_ok(ms, messenger, p)
                &&& t.pending_round == round
                &&& t.round_submitters@.len() == subs.len() + 1
                &&& t.round_submitters@.last()@ == messenger
                &&& t.round_submitters@.drop_last() == subs
                &&& t.config == cfg
                &&& t.pending_config == pending_cfg
                &&& outcome_view(t.last_published_data) == (if second is Some {
                    second
                } else {
                    last
                })
                &&& all_in ==> t.pending_messengers@.len() == 0 && t.pending_values@.len() == 0
                &&& !all_in ==> views(t.pending_values@) == vs2 && t.pending_messengers@.len() == ms.len()
                    + 1 && t.pending_messengers@[p]@ == messenger && t.pending_messengers@.remove(p) == ms
            }
        },
    }
}

/// What `get_last_published_data` returns at time `now`: the consensus of the
/// pending submissions once the round is over (when one is formed), else the
/// last agreed data.
pub open spec fn spec_last_published<T: ConsensusData<O>, O>(s: State<T, O>, now: u64) -> Option<
    ConsensusOutcome<T::V>,
> {
    if s.pending_round.spec_is_passed(now, s.config.round_length) {
        match T::spec_try_consensus(
            views(s.pending_values@),
            s.config.threshold as int,
            s.config.data_delta_ppm,
        ) {
            Some(c) => Some(
                ConsensusOutcome {
                    round: s.pending_round.round,
                    timestamp: (s.pending_round.start + s.config.round_length) as u64,
                    data: c,
                },
            ),
            None => outcome_view(s.last_published_data),
        }
    } else {
        outcome_view(s.last_published_data)
    }
}

impl<T: ConsensusData<O>, O> State<T, O> {
    /// The state of a freshly instantiated consensus: round 0 starting at `now`.
    pub fn initialize(now: u64, config: Config) -> (s: State<T, O>)
        ensures
            s.wf(),
            s.pending_round == (Round { round: 0, start: now }),
            s.config == config,
            s.pending_config is None,
            s.last_published_data is None,
            s.pending_messengers@.len() == 0,
            s.pending_values@.len() == 0,
            s.round_submitters@.len() == 0,
    {
        State {
            pending_round: Round { round: 0, start: now },
            config,
            pending_config: None,
            last_published_data: None,
            pending_messengers: Vec::new(),
            pending_values: Vec::new(),
            round_submitters: Vec::new(),
            options: PhantomData,
        }
    }

    /// The pending round.
    pub fn get_pending_round(&self) -> (r: Round)
        ensures
            r == self.pending_round,
    {
        self.pending_round
    }

    /// Saves a new configuration; it takes effect on the next round switch.
    pub fn save_config(&mut self, new_config: Config)
        ensures
            final(self).pending_config == Some(new_config),
            final(self).pending_round == old(self).pending_round,
            final(self).config == old(self).config,
            final(self).last_published_data == old(self).last_published_data,
            final(self).pending_messengers == old(self).pending_messengers,
            final(self).pending_values == old(self).pending_values,
            final(self).round_submitters == old(self).round_submitters,
    {
        self.pending_config = Some(new_config);
    }

    /// The last agreed data; once the pending round is over, the consensus of its
    /// submissions when one is formed.
    pub fn get_last_published_data(&self, now: u64) -> (r: Option<ConsensusOutcome<T>>)
        requires
            self.pending_round.start + self.config.round_length <= u64::MAX,
            self.pending_round.spec_is_passed(now, self.config.round_length) ==> T::consensus_safe(
                views(self.pending_values@),
                self.config.threshold as int,
                self.config.data_delta_ppm,
            ),
        ensures
            outcome_view(r) == spec_last_published::<T, O>(*self, now),
    {
        let round_length = self.config.round_length;
        if self.pending_round.is_passed(now, round_length) {
            match T::try_consensus(
                self.pending_values.as_slice(),
                self.config.threshold as usize,
                self.config.data_delta_ppm,
            ) {
                Some(consensus) => {
                    return Some(
                        ConsensusOutcome {
                            round: self.pending_round.round,
                            timestamp: self.pending_round.start + round_length,
                            data: consensus,
                        },
                    );
                },
                None => {},
            }
        }
        match &self.last_published_data {
            Some(o) => Some(
                ConsensusOutcome { round: o.round, timestamp: o.timestamp, data: o.data.duplicate() },
            ),
            None => None,
        }
    }

    /// Tries to form a consensus for the pending submissions and publishes it when
    /// reached; the pending submissions are cleared either way.
    fn finalize_round_data(&mut self, round: Round, now: u64) -> (r: PublishResult<T>)
        requires
            T::consensus_safe(
                views(old(self).pending_values@),
                old(self).config.threshold as int,
                old(self).config.data_delta_ppm,
            ),
        ensures
            r@ == (match spec_finalize::<T, O>(
                views(old(self).pending_values@),
                old(self).config,
                round.round,
                now,
            ) {
                Some(o) => PublishResult::ConsensusReached(o),
                None => PublishResult::ConsensusNotReached,
            }),
            outcome_view(final(self).last_published_data) == (match spec_finalize::<T, O>(
                views(old(self).pending_values@),
                old(self).config,
                round.round,
                now,
            ) {
                Some(o) => Some(o),
                None => outcome_view(old(self).last_published_data),
            }),
            final(self).pending_messengers@.len() == 0,
            final(self).pending_values@.len() == 0,
            final(self).pending_round == old(self).pending_round,
            final(self).config == old(self).config,
            final(self).pending_config == old(self).pending_config,
            final(self).round_submitters == old(self).round_submitters,
    {
        let mut res = PublishResult::ConsensusNotReached;
        match T::try_consensus(
            self.pending_values.as_slice(),
            self.config.threshold as usize,
            self.config.data_delta_ppm,
        ) {
            Some(consensus) => {
                let kept = consensus.duplicate();
                self.last_published_data = Some(
                    ConsensusOutcome { round: round.round, timestamp: now, data: kept },
                );
                res = PublishResult::ConsensusReached(
                    ConsensusOutcome { round: round.round, timestamp: now, data: consensus },
                );
            },
            None => {},
        }
        self.pending_messengers = Vec::new();
        self.pending_values = Vec::new();
        res
    }

    /// Closes the pending round when it is over at time `now`: its consensus is
    /// formed, the next round starts now and the pending configuration (if any)
    /// takes effect.
    fn switch_round(&mut self, now: u64) -> (r: PublishResult<T>)
        requires
            old(self).wf(),
            old(self).time_safe(now),
            old(self).pending_round.spec_is_passed(now, old(self).config.round_length)
                ==> T::consensus_safe(
                views(old(self).pending_values@),
                old(self).config.threshold as int,
                old(self).config.data_delta_ppm,
            ),
        ensures
            final(self).wf(),
            r@ == (match switch_outcome::<T, O>(*old(self), now) {
                Some(o) => PublishResult::ConsensusReached(o),
                None => PublishResult::ConsensusNotReached,
            }),
            final(self).pending_round == old(self).round_after(now),
            final(self).config == old(self).config_after(now),
            final(self).pending_config == (if old(self).pending_round.spec_is_passed(
                now,
                old(self).config.round_length,
            ) {
                None
            } else {
                old(self).pending_config
            }),
            outcome_view(final(self).last_published_data) == (if switch_outcome::<T, O>(
                *old(self),
                now,
            ) is Some {
                switch_outcome::<T, O>(*old(self), now)
            } else {
                outcome_view(old(self).last_published_data)
            }),
            final(self).pending_messengers@ == pending_after_switch(*old(self), now).0,
            views(final(self).pending_values@) == pending_after_switch(*old(self), now).1,
            final(self).round_submitters@ == submitters_after_switch(*old(self), now),
            !old(self).pending_round.spec_is_passed(now, old(self).config.round_length)
                ==> *final(self) == *old(self),
    {
        let round_length = self.config.round_length;
        if !self.pending_round.is_passed(now, round_length) {
            return PublishResult::ConsensusNotReached;
        }
        let round = self.pending_round;
        let result = self.finalize_round_data(round, now);
        let pending = self.pending_config.take();
        match pending {
            Some(c) => {
                self.config = c;
            },
            None => {},
        }
        self.pending_round = Round { round: round.round + 1, start: now };
        self.round_submitters = Vec::new();
        proof {
            assert(self.pending_messengers@ =~= Seq::<String>::empty());
            assert(views(self.pending_values@) =~= Seq::<T::V>::empty());
        }
        result
    }

    /// Publishes a messenger's data for consensus.
    /// * If the pending round is over, the consensus for its submissions is formed
    ///   and the next round starts now, with the pending configuration (if any).
    /// * If all messengers have submitted, the consensus is formed without waiting
    ///   for the round to end.
    ///
    /// A messenger that submits twice in a round gets an error.
    pub fn publish_data(&mut self, now: u64, messenger: String, new_data: T, options: O) -> (r: Result<
        (PublishResult<T>, Round),
        ConsensusError,
    >)
        requires
            old(self).wf(),
            publish_safe::<T, O>(*old(self), now, messenger@, new_data@, options),
        ensures
            final(self).wf(),
            publish_post::<T, O>(*old(self), *final(self), now, messenger@, new_data@, options, r),
    {
        let ghost s0 = *self;
        let mut new_data = new_data;
        match new_data.prepublish_cleanup(options) {
            Ok(()) => {},
            Err(e) => {
                return Err(e);
            },
        }
        let mut result = self.switch_round(now);
        let ghost ms = self.pending_messengers@;
        let ghost vs = self.pending_values@;
        let ghost subs = self.round_submitters@;
        if contains_address(&self.round_submitters, &messenger) {
            return Err(ConsensusError::DoubleSubmission {});
        }
        let (p, found) = address_slot(&self.pending_messengers, &messenger);
        if found {
            proof {
                let i = choose|i: int| 0 <= i < ms.len() && ms[i]@ == messenger@;
                assert(has_address(subs, ms[i]@));
            }
            return Err(ConsensusError::DoubleSubmission {});
        }
        self.round_submitters.push(messenger.clone());
        proof {
            assert(self.round_submitters@.drop_last() =~= subs);
        }
        proof {
            lemma_insert_ascending(ms, messenger, p as int);
        }
        self.pending_messengers.insert(p, messenger);
        self.pending_values.insert(p, new_data);
        proof {
            assert(self.pending_messengers@ =~= ms.insert(p as int, messenger));
            assert(self.pending_messengers@.remove(p as int) =~= ms);
            assert(views(self.pending_values@) =~= views(vs).insert(p as int, new_data@));
            let subs2 = self.round_submitters@;
            assert(subs2[subs2.len() - 1]@ == messenger@);
            assert forall|i: int| 0 <= i < self.pending_messengers@.len() implies has_address(
                subs2,
                (#[trigger] self.pending_messengers@[i])@,
            ) by {
                if i != p {
                    let q = if i < p { i } else { i - 1 };
                    assert(self.pending_messengers@[i] == ms[q]);
                    assert(has_address(subs, ms[q]@));
                    let w = choose|w: int| 0 <= w < subs.len() && subs[w]@ == ms[q]@;
                    assert(subs2[w] == subs[w]);
                }
            }
        }
        if self.pending_messengers.len() == self.config.messengers.len() {
            let round = self.pending_round;
            result = self.finalize_round_data(round, now);
            proof {
                assert(self.pending_messengers@ =~= Seq::<String>::empty());
            }
        }
        Ok((result, self.pending_round))
    }
}

/// Whether an address occurs among the given ones.
fn contains_address(addrs: &Vec<String>, m: &String) -> (r: bool)
    ensures
        r == has_address(addrs@, m@),
{
    let mut i: usize = 0;
    while i < addrs.len()
        invariant
            i <= addrs@.len(),
            forall|k: int| 0 <= k < i ==> addrs@[k]@ != m@,
        decreases addrs@.len() - i,
    {
        if str_eq(&addrs[i], m) {
            return true;
        }
        i += 1;
    }
    false
}

/// Where an address stands among addresses in ascending order: whether it occurs,
/// and where it would be inserted.
fn address_slot(addrs: &Vec<String>, m: &String) -> (r: (usize, bool))
    requires
        addresses_ascending(addrs@),
    ensures
        r.1 <==> has_address(addrs@, m@),
        !r.1 ==> r.0 == insert_position(addrs@, m@) && position_ok(addrs@, m@, r.0 as int),
{
    let n = addrs.len();
    let mut p: usize = 0;
    while p < n && str_lt(addrs[p].as_str(), m.as_str())
        invariant
            p <= n,
            n == addrs@.len(),
            addresses_ascending(addrs@),
            forall|i: int| 0 <= i < p ==> seq_lt(utf8(addrs@[i]@), utf8(m@)),
        decreases n - p,
    {
        p += 1;
    }
    if p < n && addrs[p] == *m {
        proof {
            assert(has_address(addrs@, m@));
        }
        return (p, true);
    }
    let ghost ms = addrs@;
    proof {
        let m = m@;
        if p < n {
            let kp = ms[p as int]@;
            lemma_utf8_injective(kp, m);
            lemma_seq_lt_total(utf8(kp), utf8(m));
        }
        assert forall|i: int| p <= i < n implies seq_lt(utf8(m), utf8(#[trigger] ms[i]@)) by {
            if i > p {
                lemma_seq_lt_trans(utf8(m), utf8(ms[p as int]@), utf8(ms[i]@));
            }
        }
        assert forall|i: int| 0 <= i < n implies #[trigger] ms[i]@ != m by {
            lemma_seq_lt_irrefl(utf8(m));
        }
        assert(!has_address(ms, m));
        let q = insert_position(ms, m);
        assert(position_ok(ms, m, p as int));
        if q < p {
            lemma_seq_lt_total(utf8(ms[q]@), utf8(m));
        } else if q > p {
            lemma_seq_lt_total(utf8(ms[p as int]@), utf8(m));
        }
        assert(q == p);
    }
    (p, false)
}

/// Inserting an address at its position keeps the addresses in ascending order.
proof fn lemma_insert_ascending(ms: Seq<String>, m: String, p: int)
    requires
        addresses_ascending(ms),
        position_ok(ms, m@, p),
    ensures
        addresses_ascending(ms.insert(p, m)),
{
    let ms2 = ms.insert(p, m);
    assert forall|a: int, b: int| 0 <= a < b < ms2.len() implies seq_lt(
        utf8(ms2[a]@),
        utf8(ms2[b]@),
    ) by {
        if b < p {
            assert(ms2[a] == ms[a] && ms2[b] == ms[b]);
        } else if b == p {
            assert(ms2[a] == ms[a]);
        } else if a < p {
            assert(ms2[a] == ms[a] && ms2[b] == ms[b - 1]);
            lemma_seq_lt_trans(utf8(ms2[a]@), utf8(m@), utf8(ms2[b]@));
        } else if a == p {
            assert(ms2[b] == ms[b - 1]);
        } else {
            assert(ms2[a] == ms[a - 1] && ms2[b] == ms[b - 1]);
        }
    }
}

/// A publication that forms a consensus is what a read at the same time gives
/// back, as long as the round pending after it is not over at once (a round
/// length above zero).
pub proof fn lemma_publish_then_read<T: ConsensusData<O>, O>(
    s: State<T, O>,
    t: State<T, O>,
    now: u64,
    messenger: Seq<char>,
    new_data: T::V,
    options: O,
    r: Result<(PublishResult<T>, Round), ConsensusError>,
    outcome: ConsensusOutcome<T>,
    round: Round,
)
    requires
        publish_post::<T, O>(s, t, now, messenger, new_data, options, r),
        r == Ok::<(PublishResult<T>, Round), ConsensusError>(
            (PublishResult::ConsensusReached(outcome), round),
        ),
        t.config.round_length > 0,
    ensures
        spec_last_published::<T, O>(t, now) == Some(outcome@),
        t.pending_round == round,
{
}

/// A refused publication leaves the state as it was.
pub proof fn lemma_refused_publish_keeps_state<T: ConsensusData<O>, O>(
    s: State<T, O>,
    t: State<T, O>,
    now: u64,
    messenger: Seq<char>,
    new_data: T::V,
    options: O,
    r: Result<(PublishResult<T>, Round), ConsensusError>,
)
    requires
        publish_post::<T, O>(s, t, now, messenger, new_data, options, r),
        r is Err,
    ensures
        t == s,
{
}

/// Within a round, the configuration and the round stay as they are: a saved
/// configuration takes effect only when a round is over.
pub proof fn lemma_config_fixed_within_round<T: ConsensusData<O>, O>(
    s: State<T, O>,
    t: State<T, O>,
    now: u64,
    messenger: Seq<char>,
    new_data: T::V,
    options: O,
    r: Result<(PublishResult<T>, Round), ConsensusError>,
)
    requires
        publish_post::<T, O>(s, t, now, messenger, new_data, options, r),
        !s.pending_round.spec_is_passed(now, s.config.round_length),
    ensures
        t.config == s.config,
        t.pending_config == s.pending_config,
        t.pending_round == s.pending_round,
{
}

/// The round number moves forward by at most one per publication, and a round
/// that is over is replaced by the next one, starting at the time of publication.
pub proof fn lemma_round_advances_by_one<T: ConsensusData<O>, O>(
    s: State<T, O>,
    t: State<T, O>,
    now: u64,
    messenger: Seq<char>,
    new_data: T::V,
    options: O,
    r: Result<(PublishResult<T>, Round), ConsensusError>,
)
    requires
        publish_post::<T, O>(s, t, now, messenger, new_data, options, r),
        r is Ok,
    ensures
        s.pending_round.spec_is_passed(now, s.config.round_length) ==> t.pending_round == (Round {
            round: (s.pending_round.round + 1) as u64,
            start: now,
        }),
        !s.pending_round.spec_is_passed(now, s.config.round_length) ==> t.pending_round
            == s.pending_round,
{
}

/// A messenger that has submitted in a round that is not over is refused a
/// second submission with `DoubleSubmission`, and the state stays; this holds
/// also after the round's data was finalized because every messenger submitted.
pub proof fn lemma_double_submission<T: ConsensusData<O>, O>(
    s: State<T, O>,
    t: State<T, O>,
    u: State<T, O>,
    now1: u64,
    now2: u64,
    messenger: Seq<char>,
    data1: T::V,
    data2: T::V,
    options1: O,
    options2: O,
    r1: Result<(PublishResult<T>, Round), ConsensusError>,
    r2: Result<(PublishResult<T>, Round), ConsensusError>,
)
    requires
        publish_post::<T, O>(s, t, now1, messenger, data1, options1, r1),
        r1 is Ok,
        !t.pending_round.spec_is_passed(now2, t.config.round_length),
        T::spec_prepublish_cleanup(data2, options2) is Ok,
        publish_post::<T, O>(t, u, now2, messenger, data2, options2, r2),
    ensures
        r2 == Err::<(PublishResult<T>, Round), ConsensusError>(ConsensusError::DoubleSubmission {}),
        u == t,
{
    let n = t.round_submitters@.len() - 1;
    assert(t.round_submitters@[n]@ == messenger);
    assert(has_address(t.round_submitters@, messenger));
}

} // verus!
