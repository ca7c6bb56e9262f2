//! Homeostatic monitoring: the decisions of the hypothalamus. It emits
//! decisions only and never scales anything itself. A change of capacity is
//! requested only after the condition behind it has persisted for the
//! configured number of cycles.

use vstd::prelude::*;
use crate::text::{chars_of, first_line, first_line_of, parse_u64, parse_u64_chars, split_words, words};

verus! {

/// The response the system would like an actuator to take.
#[derive(Debug, Clone, Copy, PartialEq, Eq, Structural)]
pub enum MetabolicAction {
    Maintain,
    Hypertrophy,
    Atrophy,
}

/// How one telemetry sample compares with the thresholds.
#[derive(Debug, Clone, Copy, PartialEq, Eq, Structural)]
pub enum StressLevel {
    /// The stress score reached the stress threshold.
    Stressed,
    /// The stress score is at or below the relaxation threshold.
    Relaxed,
    /// Anything in between.
    Normal,
}

/// The stateful part of the policy: how many consecutive cycles were
/// stressed or relaxed, and how many are needed before acting.
pub struct Hypothalamus {
    sustained_stress_cycles: u32,
    sustained_relaxation_cycles: u32,
    stress_cycles: u32,
    relaxation_cycles: u32,
    /// Every sample observed so far, in order.
    history: Ghost<Seq<StressLevel>>,
}

/// The counters of the hypothalamus, in the order: cycles needed under
/// stress, cycles needed relaxed, stressed cycles seen, relaxed cycles seen.
pub struct CycleState {
    pub sustained_stress: u32,
    pub sustained_relaxation: u32,
    pub stress: u32,
    pub relaxation: u32,
}

/// At least one cycle is always needed.
pub open spec fn at_least_one(n: u32) -> u32 {
    if n >= 1 { n } else { 1 }
}

/// One sample observed: the counters it leads to and the action it emits.
pub open spec fn observe_step(state: CycleState, level: StressLevel) -> (CycleState, MetabolicAction) {
    match level {
        StressLevel::Stressed => {
            let stress = if state.stress == u32::MAX { u32::MAX } else { (state.stress + 1) as u32 };
            if stress >= at_least_one(state.sustained_stress) {
                (CycleState { stress: 0, relaxation: 0, ..state }, MetabolicAction::Hypertrophy)
            } else {
                (CycleState { stress, relaxation: 0, ..state }, MetabolicAction::Maintain)
            }
        },
        StressLevel::Relaxed => {
            let relaxation = if state.relaxation == u32::MAX { u32::MAX } else { (state.relaxation + 1) as u32 };
            if relaxation >= at_least_one(state.sustained_relaxation) {
                (CycleState { stress: 0, relaxation: 0, ..state }, MetabolicAction::Atrophy)
            } else {
                (CycleState { stress: 0, relaxation, ..state }, MetabolicAction::Maintain)
            }
        },
        StressLevel::Normal => (CycleState { stress: 0, relaxation: 0, ..state }, MetabolicAction::Maintain),
    }
}

/// A run of samples observed from `state`: the counters it ends with and
/// the action emitted at each sample.
pub open spec fn observe_run(state: CycleState, levels: Seq<StressLevel>) -> (CycleState, Seq<MetabolicAction>)
    decreases levels.len(),
{
    if levels.len() == 0 {
        (state, Seq::empty())
    } else {
        let (before, actions) = observe_run(state, levels.drop_last());
        let (after, action) = observe_step(before, levels.last());
        (after, actions.push(action))
    }
}

/// How many samples at the end of `levels` are `level`, in a row.
pub open spec fn trailing(levels: Seq<StressLevel>, level: StressLevel) -> nat
    decreases levels.len(),
{
    if levels.len() > 0 && levels.last() == level {
        trailing(levels.drop_last(), level) + 1
    } else {
        0
    }
}

proof fn lemma_counters_bounded(state: CycleState, levels: Seq<StressLevel>)
    requires
        state.stress == 0,
        state.relaxation == 0,
    ensures
        observe_run(state, levels).0.stress <= trailing(levels, StressLevel::Stressed),
        observe_run(state, levels).0.relaxation <= trailing(levels, StressLevel::Relaxed),
        observe_run(state, levels).0.sustained_stress == state.sustained_stress,
        observe_run(state, levels).0.sustained_relaxation == state.sustained_relaxation,
        observe_run(state, levels).1.len() == levels.len(),
    decreases levels.len(),
{
    if levels.len() > 0 {
        lemma_counters_bounded(state, levels.drop_last());
    }
}

/// A change of capacity is asked only after the condition persisted: from
/// counters at rest, a run whose last sample emits `Hypertrophy` ends with
/// at least the configured number of stressed samples in a row, and one
/// whose last sample emits `Atrophy` with at least the configured number of
/// relaxed samples in a row. A single anomaly changes nothing.
pub proof fn lemma_sustained_before_acting(state: CycleState, levels: Seq<StressLevel>)
    requires
        state.stress == 0,
        state.relaxation == 0,
        levels.len() > 0,
    ensures
        observe_run(state, levels).1.last() == MetabolicAction::Hypertrophy ==> trailing(levels, StressLevel::Stressed)
            >= at_least_one(state.sustained_stress),
        observe_run(state, levels).1.last() == MetabolicAction::Atrophy ==> trailing(levels, StressLevel::Relaxed)
            >= at_least_one(state.sustained_relaxation),
{
    lemma_counters_bounded(state, levels.drop_last());
}

/// `n` samples of `level` in a row.
pub open spec fn repeated(level: StressLevel, n: nat) -> Seq<StressLevel> {
    Seq::new(n, |i: int| level)
}

proof fn lemma_stress_accumulates(state: CycleState, k: nat)
    requires
        state.stress == 0,
        state.relaxation == 0,
        k < at_least_one(state.sustained_stress),
    ensures
        observe_run(state, repeated(StressLevel::Stressed, k)).0 == (CycleState { stress: k as u32, relaxation: 0, ..state }),
    decreases k,
{
    if k > 0 {
        assert(repeated(StressLevel::Stressed, k).drop_last() =~= repeated(StressLevel::Stressed, (k - 1) as nat));
        lemma_stress_accumulates(state, (k - 1) as nat);
    } else {
        assert(repeated(StressLevel::Stressed, k) =~= Seq::<StressLevel>::empty());
    }
}

proof fn lemma_relaxation_accumulates(state: CycleState, k: nat)
    requires
        state.stress == 0,
        state.relaxation == 0,
        k < at_least_one(state.sustained_relaxation),
    ensures
        observe_run(state, repeated(StressLevel::Relaxed, k)).0 == (CycleState { stress: 0, relaxation: k as u32, ..state }),
    decreases k,
{
    if k > 0 {
        assert(repeated(StressLevel::Relaxed, k).drop_last() =~= repeated(StressLevel::Relaxed, (k - 1) as nat));
        lemma_relaxation_accumulates(state, (k - 1) as nat);
    } else {
        assert(repeated(StressLevel::Relaxed, k) =~= Seq::<StressLevel>::empty());
    }
}

/// A condition that persists is acted on: from counters at rest, as many
/// stressed samples in a row as the policy asks for end in `Hypertrophy`,
/// and as many relaxed ones end in `Atrophy`.
pub proof fn lemma_sustained_condition_acts(state: CycleState)
    requires
        state.stress == 0,
        state.relaxation == 0,
    ensures
        observe_run(state, repeated(StressLevel::Stressed, at_least_one(state.sustained_stress) as nat)).1.last()
            == MetabolicAction::Hypertrophy,
        observe_run(state, repeated(StressLevel::Relaxed, at_least_one(state.sustained_relaxation) as nat)).1.last()
            == MetabolicAction::Atrophy,
{
    let n = at_least_one(state.sustained_stress) as nat;
    assert(repeated(StressLevel::Stressed, n).drop_last() =~= repeated(StressLevel::Stressed, (n - 1) as nat));
    lemma_stress_accumulates(state, (n - 1) as nat);
    let m = at_least_one(state.sustained_relaxation) as nat;
    assert(repeated(StressLevel::Relaxed, m).drop_last() =~= repeated(StressLevel::Relaxed, (m - 1) as nat));
    lemma_relaxation_accumulates(state, (m - 1) as nat);
}

/// A run never ends with more samples of a level in a row than it has.
proof fn lemma_trailing_within(levels: Seq<StressLevel>, level: StressLevel)
    ensures
        trailing(levels, level) <= levels.len(),
    decreases levels.len(),
{
    if levels.len() > 0 {
        lemma_trailing_within(levels.drop_last(), level);
    }
}

impl Hypothalamus {
    /// The counters never exceed the samples of their level that ended the
    /// history.
    #[verifier::type_invariant]
    closed spec fn counts_trailing(self) -> bool {
        &&& self.stress_cycles <= trailing(self.history@, StressLevel::Stressed)
        &&& self.relaxation_cycles <= trailing(self.history@, StressLevel::Relaxed)
    }

    /// The samples observed so far, in order.
    pub closed spec fn history(&self) -> Seq<StressLevel> {
        self.history@
    }

    pub closed spec fn state(&self) -> CycleState {
        CycleState {
            sustained_stress: self.sustained_stress_cycles,
            sustained_relaxation: self.sustained_relaxation_cycles,
            stress: self.stress_cycles,
            relaxation: self.relaxation_cycles,
        }
    }

    /// A policy needing `sustained_stress_cycles` stressed cycles in a row
    /// before asking for more capacity, and `sustained_relaxation_cycles`
    /// relaxed ones before asking for less.
    pub fn new(sustained_stress_cycles: u32, sustained_relaxation_cycles: u32) -> (brain: Hypothalamus)
        ensures
            brain.state() == (CycleState {
                sustained_stress: sustained_stress_cycles,
                sustained_relaxation: sustained_relaxation_cycles,
                stress: 0,
                relaxation: 0,
            }),
            brain.history() == Seq::<StressLevel>::empty(),
    {
        Hypothalamus {
            sustained_stress_cycles,
            sustained_relaxation_cycles,
            stress_cycles: 0,
            relaxation_cycles: 0,
            history: Ghost(Seq::empty()),
        }
    }

    pub fn stress_cycles(&self) -> (n: u32)
        ensures
            n == self.state().stress,
    {
        self.stress_cycles
    }

    pub fn relaxation_cycles(&self) -> (n: u32)
        ensures
            n == self.state().relaxation,
    {
        self.relaxation_cycles
    }

    /// Observes one sample and returns the action it leads to. A change of
    /// capacity is asked only once the samples observed end with as many of
    /// its condition in a row as the policy needs.
    pub fn observe(&mut self, level: StressLevel) -> (action: MetabolicAction)
        ensures
            (final(self).state(), action) == observe_step(old(self).state(), level),
            final(self).history() == old(self).history().push(level),
            action == MetabolicAction::Hypertrophy ==> {
                &&& trailing(final(self).history(), StressLevel::Stressed) >= at_least_one(
                    old(self).state().sustained_stress,
                )
                &&& final(self).history().len() >= at_least_one(old(self).state().sustained_stress)
            },
            action == MetabolicAction::Atrophy ==> {
                &&& trailing(final(self).history(), StressLevel::Relaxed) >= at_least_one(
                    old(self).state().sustained_relaxation,
                )
                &&& final(self).history().len() >= at_least_one(old(self).state().sustained_relaxation)
            },
    {
        proof {
            use_type_invariant(&*self);
        }
        let ghost history = self.history@.push(level);
        proof {
            assert(history.drop_last() =~= self.history@);
            lemma_trailing_within(history, StressLevel::Stressed);
            lemma_trailing_within(history, StressLevel::Relaxed);
        }
        let (stress, relaxation, action) = match level {
            StressLevel::Stressed => {
                let stress = self.stress_cycles.saturating_add(1);
                let needed = if self.sustained_stress_cycles >= 1 { self.sustained_stress_cycles } else { 1 };
                if stress >= needed {
                    (0, 0, MetabolicAction::Hypertrophy)
                } else {
                    (stress, 0, MetabolicAction::Maintain)
                }
            },
            StressLevel::Relaxed => {
                let relaxation = self.relaxation_cycles.saturating_add(1);
                let needed = if self.sustained_relaxation_cycles >= 1 { self.sustained_relaxation_cycles } else { 1 };
                if relaxation >= needed {
                    (0, 0, MetabolicAction::Atrophy)
                } else {
                    (0, relaxation, MetabolicAction::Maintain)
                }
            },
            StressLevel::Normal => (0, 0, MetabolicAction::Maintain),
        };
        *self = Hypothalamus {
            sustained_stress_cycles: self.sustained_stress_cycles,
            sustained_relaxation_cycles: self.sustained_relaxation_cycles,
            stress_cycles: stress,
            relaxation_cycles: relaxation,
            history: Ghost(history),
        };
        action
    }
}

impl Default for Hypothalamus {
    /// Five cycles either way, as the node runs by default: a quiet instant
    /// must not remove capacity that a workload needs moments later.
    fn default() -> (brain: Hypothalamus)
        ensures
            brain.state() == (CycleState { sustained_stress: 5, sustained_relaxation: 5, stress: 0, relaxation: 0 }),
            brain.history() == Seq::<StressLevel>::empty(),
    {
        Self::new(5, 5)
    }
}

/// Lets through only changes of decision: repeating the same decision at
/// every tick would be noise, the signal is the moment it changes.
#[derive(Debug, Clone)]
pub struct ChangeGate {
    last: Option<MetabolicAction>,
}

impl ChangeGate {
    pub closed spec fn last_action(&self) -> Option<MetabolicAction> {
        self.last
    }

    pub fn new() -> (gate: ChangeGate)
        ensures
            gate.last_action() is None,
    {
        ChangeGate { last: None }
    }

    /// Whether `action` differs from the previous one; the first is always news.
    pub fn should_notify(&mut self, action: MetabolicAction) -> (changed: bool)
        ensures
            changed == (old(self).last_action() != Some(action)),
            final(self).last_action() == Some(action),
    {
        let changed = match self.last {
            Some(previous) => previous != action,
            None => true,
        };
        self.last = Some(action);
        changed
    }
}

impl Default for ChangeGate {
    fn default() -> (gate: ChangeGate)
        ensures
            gate.last_action() is None,
    {
        ChangeGate::new()
    }
}

/// Remembers the previous CPU counters read from `/proc/stat`, so that each
/// sample measures the time elapsed since the last one.
#[derive(Debug, Clone)]
pub struct ProcfsVitalsSource {
    previous_cpu: Option<(u64, u64)>,
}

impl ProcfsVitalsSource {
    pub closed spec fn previous(&self) -> Option<(u64, u64)> {
        self.previous_cpu
    }

    pub fn new() -> (source: ProcfsVitalsSource)
        ensures
            source.previous() is None,
    {
        ProcfsVitalsSource { previous_cpu: None }
    }

    /// Records the counters `(total, idle)` and returns, against the
    /// previous reading, the busy time and the total time elapsed. Nothing
    /// for the first reading, when a counter went backwards or when no time
    /// elapsed.
    pub fn cpu_delta(&mut self, total: u64, idle: u64) -> (delta: Option<(u64, u64)>)
        ensures
            final(self).previous() == Some((total, idle)),
            delta == match old(self).previous() {
                None => None,
                Some((previous_total, previous_idle)) => if total >= previous_total && idle >= previous_idle
                    && total - previous_total > 0 {
                    let total_delta = (total - previous_total) as u64;
                    let idle_delta = (idle - previous_idle) as u64;
                    Some((if total_delta >= idle_delta { (total_delta - idle_delta) as u64 } else { 0u64 }, total_delta))
                } else {
                    None
                },
            },
    {
        let previous = self.previous_cpu;
        self.previous_cpu = Some((total, idle));
        match previous {
            None => None,
            Some((previous_total, previous_idle)) => {
                let total_delta = match total.checked_sub(previous_total) {
                    Some(delta) => delta,
                    None => {
                        return None;
                    },
                };
                let idle_delta = match idle.checked_sub(previous_idle) {
                    Some(delta) => delta,
                    None => {
                        return None;
                    },
                };
                if total_delta > 0 {
                    Some((total_delta.saturating_sub(idle_delta), total_delta))
                } else {
                    None
                }
            },
        }
    }
}

impl Default for ProcfsVitalsSource {
    fn default() -> (source: ProcfsVitalsSource)
        ensures
            source.previous() is None,
    {
        ProcfsVitalsSource::new()
    }
}

/// The numeric fields of the first line of `/proc/stat`: its words after
/// the first, each an unsigned number.
pub open spec fn stat_words(stat: Seq<char>) -> Seq<Seq<char>> {
    let tokens = words(first_line(stat));
    if tokens.len() > 0 {
        tokens.drop_first()
    } else {
        tokens
    }
}

/// Every word is an unsigned number.
pub open spec fn all_numbers(tokens: Seq<Seq<char>>) -> bool {
    forall|i: int| 0 <= i < tokens.len() ==> (#[trigger] parse_u64(tokens[i])) is Some
}

/// The numbers the words spell.
pub open spec fn numbers(tokens: Seq<Seq<char>>) -> Seq<u64> {
    Seq::new(tokens.len(), |i: int| parse_u64(tokens[i]).unwrap())
}

/// The sum of some counters.
pub open spec fn sum_of(values: Seq<u64>) -> nat
    decreases values.len(),
{
    if values.len() == 0 {
        0
    } else {
        sum_of(values.drop_last()) + values.last() as nat
    }
}

/// The total and idle CPU time of the first line of `/proc/stat`: the sum
/// of its fields, and the fourth plus the fifth (when there is one). None
/// when a field is not a number, when there are fewer than four, or when a
/// sum does not fit in 64 bits.
pub open spec fn cpu_totals_of(stat: Seq<char>) -> Option<(u64, u64)> {
    let tokens = stat_words(stat);
    if !all_numbers(tokens) || tokens.len() < 4 {
        None
    } else {
        let fields = numbers(tokens);
        let total = sum_of(fields);
        let idle = fields[3] + if fields.len() > 4 { fields[4] as nat } else { 0nat };
        if total > u64::MAX || idle > u64::MAX {
            None
        } else {
            Some((total as u64, idle as u64))
        }
    }
}

/// Reads the total and idle CPU time out of the text of `/proc/stat`.
pub fn cpu_totals(stat: &str) -> (totals: Option<(u64, u64)>)
    ensures
        totals == cpu_totals_of(stat@),
{
    let chars = chars_of(stat);
    let line = first_line_of(&chars);
    let tokens = split_words(&line);
    let ghost all = words(first_line(stat@));
    let ghost expected = stat_words(stat@);
    let first: usize = if tokens.len() > 0 { 1 } else { 0 };
    assert(expected.len() == tokens@.len() - first);
    let mut fields: Vec<u64> = Vec::new();
    let mut i: usize = first;
    while i < tokens.len()
        invariant
            first <= i <= tokens@.len(),
            first == (if tokens@.len() > 0 { 1usize } else { 0usize }),
            tokens@.len() == all.len(),
            all == words(first_line(stat@)),
            expected == stat_words(stat@),
            forall|k: int| 0 <= k < tokens@.len() ==> (#[trigger] tokens@[k])@ == all[k],
            fields@.len() == i - first,
            forall|k: int| 0 <= k < fields@.len() ==> parse_u64(#[trigger] expected[k]) == Some(fields@[k]),
        decreases tokens@.len() - i,
    {
        assert(expected[i - first] == all[i as int]);
        match parse_u64_chars(&tokens[i]) {
            Some(value) => fields.push(value),
            None => {
                assert(!all_numbers(expected));
                return None;
            },
        }
        i = i + 1;
    }
    assert(all_numbers(expected));
    assert(fields@ =~= numbers(expected));
    if fields.len() < 4 {
        return None;
    }
    let mut total: u64 = 0;
    let mut k: usize = 0;
    while k < fields.len()
        invariant
            k <= fields@.len(),
            total == sum_of(fields@.subrange(0, k as int)),
            fields@ == numbers(stat_words(stat@)),
            all_numbers(stat_words(stat@)),
            fields@.len() >= 4,
        decreases fields@.len() - k,
    {
        assert(fields@.subrange(0, k + 1).drop_last() =~= fields@.subrange(0, k as int));
        match total.checked_add(fields[k]) {
            Some(sum) => total = sum,
            None => {
                proof {
                    lemma_sum_grows(fields@, k as int + 1);
                }
                return None;
            },
        }
        k = k + 1;
    }
    assert(fields@.subrange(0, fields@.len() as int) =~= fields@);
    let fifth: u64 = if fields.len() > 4 { fields[4] } else { 0 };
    match fields[3].checked_add(fifth) {
        Some(idle) => Some((total, idle)),
        None => None,
    }
}

/// A prefix of counters sums to no more than all of them.
proof fn lemma_sum_grows(values: Seq<u64>, n: int)
    requires
        0 <= n <= values.len(),
    ensures
        sum_of(values.subrange(0, n)) <= sum_of(values),
    decreases values.len() - n,
{
    if n < values.len() {
        lemma_sum_grows(values, n + 1);
        assert(values.subrange(0, n + 1).drop_last() =~= values.subrange(0, n));
    } else {
        assert(values.subrange(0, n) =~= values);
    }
}

} // verus!
