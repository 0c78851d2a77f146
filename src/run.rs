use vstd::prelude::*;
use crate::error::HarnessError;
use crate::operation::Operation;
use crate::sweep::{PlanEntry, SweepModel, SweepSpec};
use crate::target::Selector;

verus! {

/// What the driver of a sweep does next.
#[derive(Debug, Clone, Copy, PartialEq, Eq, Structural)]
pub enum Action {
    /// Generate the fixed input set of `size` elements on the host and, when
    /// `to_device` holds, copy it to device memory. Neither step is timed.
    /// Answer with `Event::Prepared`, or with `Event::Unsupported` when no
    /// valid input of that size can be built.
    Prepare { size: u64, to_device: bool },
    /// The operation admits no input of `size` elements; answer with
    /// `Event::Unsupported`.
    Skip { size: u64 },
    /// Time one call of the operation on the prepared inputs, forcing its
    /// result and any device synchronisation before the clock stops; answer
    /// with `Event::Sample`.
    Run { size: u64 },
    /// Every entry of the plan has been measured or skipped.
    Done,
}

impl Action {
    /// The size whose inputs this action asks to prepare, if it does.
    pub open spec fn prepared_size(self) -> Option<u64> {
        match self {
            Action::Prepare { size, .. } => Some(size),
            _ => None,
        }
    }
}

/// What the driver reports back after performing an action.
#[derive(Debug, Clone, Copy, PartialEq, Eq, Structural)]
pub enum Event {
    /// The input set for the current size is in place.
    Prepared,
    /// No valid input exists for the current size.
    Unsupported,
    /// One timed repetition took this many nanoseconds. A zero is kept as it
    /// is: correcting clock resolution is left to the reporting side.
    Sample(u64),
}

/// Samples of one operation on one backend at one input size.
pub struct MeasurementRecord {
    pub operation: Operation,
    pub backend: String,
    pub size: u64,
    pub samples: Vec<u64>,
}

pub struct RecordModel {
    pub operation: Operation,
    pub backend: Seq<char>,
    pub size: u64,
    pub samples: Seq<u64>,
}

impl View for MeasurementRecord {
    type V = RecordModel;

    open spec fn view(&self) -> RecordModel {
        RecordModel {
            operation: self.operation,
            backend: self.backend@,
            size: self.size,
            samples: self.samples@,
        }
    }
}

/// The result of one entry of a sweep.
pub enum Outcome {
    Measured(MeasurementRecord),
    Skipped { size: u64 },
}

pub enum OutcomeModel {
    Measured(RecordModel),
    Skipped { size: u64 },
}

impl OutcomeModel {
    pub open spec fn size(self) -> u64 {
        match self {
            OutcomeModel::Measured(r) => r.size,
            OutcomeModel::Skipped { size } => size,
        }
    }
}

impl View for Outcome {
    type V = OutcomeModel;

    open spec fn view(&self) -> OutcomeModel {
        match self {
            Outcome::Measured(r) => OutcomeModel::Measured(r@),
            Outcome::Skipped { size } => OutcomeModel::Skipped { size: *size },
        }
    }
}

/// The entries a sweep of `operation` runs through: the plan of `spec` for
/// a sized operation; otherwise one entry for the representative operands.
pub open spec fn plan_for(operation: Operation, spec: SweepModel) -> Seq<PlanEntry> {
    if operation.spec_is_sized() {
        spec.plan()
    } else {
        seq![
            PlanEntry {
                size: operation.spec_operand_count(),
                repetitions: spec.repetitions_for(operation.spec_operand_count()),
            },
        ]
    }
}

/// The state of a sweep of one operation on one backend.
#[verifier::ext_equal]
pub struct RunModel {
    pub operation: Operation,
    pub backend: Seq<char>,
    pub to_device: bool,
    pub plan: Seq<PlanEntry>,
    /// Index of the plan entry in progress.
    pub cursor: nat,
    /// Whether the inputs of the current entry are in place.
    pub prepared: bool,
    /// Samples taken so far at the current entry.
    pub samples: Seq<u64>,
    /// One outcome per finished entry, in plan order.
    pub outcomes: Seq<OutcomeModel>,
}

impl RunModel {
    pub open spec fn initial(
        operation: Operation,
        backend: Seq<char>,
        to_device: bool,
        plan: Seq<PlanEntry>,
    ) -> RunModel {
        RunModel {
            operation,
            backend,
            to_device,
            plan,
            cursor: 0,
            prepared: false,
            samples: Seq::empty(),
            outcomes: Seq::empty(),
        }
    }

    pub open spec fn current(self) -> PlanEntry {
        self.plan[self.cursor as int]
    }

    /// Whether outcome `i` belongs to plan entry `i`, a measurement holding
    /// exactly the planned number of samples.
    pub open spec fn outcome_matches_plan(self, i: int) -> bool {
        &&& self.outcomes[i].size() == self.plan[i].size
        &&& self.outcomes[i] matches OutcomeModel::Measured(r) ==> {
            &&& r.operation == self.operation
            &&& r.backend == self.backend
            &&& r.samples.len() == self.plan[i].repetitions
        }
    }

    pub open spec fn wf(self) -> bool {
        &&& forall|i: int, j: int|
            0 <= i < j < self.plan.len() ==> #[trigger] self.plan[i].size
                < #[trigger] self.plan[j].size
        &&& forall|i: int| 0 <= i < self.plan.len() ==> #[trigger] self.plan[i].repetitions >= 1
        &&& self.cursor <= self.plan.len()
        &&& self.outcomes.len() == self.cursor
        &&& forall|i: int| 0 <= i < self.cursor ==> #[trigger] self.outcome_matches_plan(i)
        &&& !self.prepared ==> self.samples.len() == 0
        &&& self.cursor < self.plan.len() ==> self.samples.len() < self.current().repetitions
        &&& self.cursor == self.plan.len() ==> !self.prepared
    }

    pub open spec fn action(self) -> Action {
        if self.cursor >= self.plan.len() {
            Action::Done
        } else if self.prepared {
            Action::Run { size: self.current().size }
        } else if self.operation.spec_supports_size(self.current().size) {
            Action::Prepare { size: self.current().size, to_device: self.to_device }
        } else {
            Action::Skip { size: self.current().size }
        }
    }

    /// The events that answer the current action.
    pub open spec fn accepts(self, event: Event) -> bool {
        match event {
            Event::Prepared => self.action() is Prepare,
            Event::Unsupported => self.action() is Prepare || self.action() is Skip,
            Event::Sample(_) => self.action() is Run,
        }
    }

    /// Closes the current entry with `outcome` and moves to the next one.
    pub open spec fn advance(self, outcome: OutcomeModel) -> RunModel {
        RunModel {
            cursor: self.cursor + 1,
            prepared: false,
            samples: Seq::empty(),
            outcomes: self.outcomes.push(outcome),
            ..self
        }
    }

    pub open spec fn record(self, samples: Seq<u64>) -> RecordModel {
        RecordModel {
            operation: self.operation,
            backend: self.backend,
            size: self.current().size,
            samples,
        }
    }

    /// The state after `event`; an event that does not answer the current
    /// action changes nothing.
    pub open spec fn step(self, event: Event) -> RunModel {
        if !self.accepts(event) {
            self
        } else {
            match event {
                Event::Prepared => RunModel { prepared: true, ..self },
                Event::Unsupported => self.advance(
                    OutcomeModel::Skipped { size: self.current().size },
                ),
                Event::Sample(t) => {
                    let s = self.samples.push(t);
                    if s.len() == self.current().repetitions {
                        self.advance(OutcomeModel::Measured(self.record(s)))
                    } else {
                        RunModel { samples: s, ..self }
                    }
                },
            }
        }
    }

    /// The state after a sequence of events.
    pub open spec fn run(self, events: Seq<Event>) -> RunModel
        decreases events.len(),
    {
        if events.len() == 0 {
            self
        } else {
            self.step(events[0]).run(events.drop_first())
        }
    }

    /// Whether each event of the sequence answers the action current when it
    /// arrives.
    pub open spec fn answers(self, events: Seq<Event>) -> bool
        decreases events.len(),
    {
        events.len() == 0 || (self.accepts(events[0]) && self.step(events[0]).answers(
            events.drop_first(),
        ))
    }

    /// The actions asked for while a sequence of events is answered: the
    /// action current before each event.
    pub open spec fn trace(self, events: Seq<Event>) -> Seq<Action>
        decreases events.len(),
    {
        if events.len() == 0 {
            Seq::empty()
        } else {
            seq![self.action()] + self.step(events[0]).trace(events.drop_first())
        }
    }
}

/// Every step keeps a well-formed sweep well-formed: in particular each
/// measurement record holds exactly as many samples as its entry planned.
pub proof fn lemma_step_preserves_wf(m: RunModel, event: Event)
    requires
        m.wf(),
    ensures
        m.step(event).wf(),
{
    let n = m.step(event);
    if m.accepts(event) {
        assert forall|i: int| 0 <= i < n.cursor implies #[trigger] n.outcome_matches_plan(i) by {
            if i < m.cursor {
                assert(m.outcome_matches_plan(i));
                assert(n.outcomes[i] == m.outcomes[i]);
            }
        }
    }
}

/// The events that report the samples `ts`, in order.
pub open spec fn sample_events(ts: Seq<u64>) -> Seq<Event> {
    ts.map_values(|t: u64| Event::Sample(t))
}

/// `n` requests for a timed call at `size`.
pub open spec fn timed_calls(size: u64, n: nat) -> Seq<Action> {
    Seq::new(n, |_i: int| Action::Run { size })
}

proof fn lemma_timing_phase(m: RunModel, ts: Seq<u64>)
    requires
        m.wf(),
        m.prepared,
        ts.len() >= 1,
        m.samples.len() + ts.len() == m.current().repetitions,
    ensures
        m.trace(sample_events(ts)) == timed_calls(m.current().size, ts.len()),
        m.run(sample_events(ts)) == m.advance(OutcomeModel::Measured(m.record(m.samples + ts))),
    decreases ts.len(),
{
    let e = sample_events(ts);
    let n = m.step(e[0]);
    assert(e[0] == Event::Sample(ts[0]));
    lemma_step_preserves_wf(m, e[0]);
    if ts.len() == 1 {
        assert(m.samples + ts =~= m.samples.push(ts[0]));
        assert(e.drop_first() =~= Seq::<Event>::empty());
        assert(n.run(e.drop_first()) == n);
        assert(n.trace(e.drop_first()) == Seq::<Action>::empty());
        assert(m.action() == Action::Run { size: m.current().size });
        assert(m.trace(e) == seq![m.action()] + n.trace(e.drop_first()));
        assert(m.trace(e) =~= timed_calls(m.current().size, 1));
    } else {
        let rest = ts.drop_first();
        assert(e.drop_first() =~= sample_events(rest));
        assert(n.samples == m.samples.push(ts[0]));
        lemma_timing_phase(n, rest);
        assert(n.samples + rest =~= m.samples + ts);
        assert(m.trace(e) =~= timed_calls(m.current().size, ts.len()));
    }
}

/// Measuring one entry: the driver is asked once to prepare the inputs and
/// then for exactly as many timed calls as the entry plans, all on those
/// same inputs; the entry's record then holds exactly the reported samples,
/// in order, and the sweep moves on to the next entry.
pub proof fn lemma_entry_protocol(m: RunModel, ts: Seq<u64>)
    requires
        m.wf(),
        m.action() is Prepare,
        ts.len() == m.current().repetitions,
    ensures
        m.trace(seq![Event::Prepared] + sample_events(ts)) == seq![m.action()] + timed_calls(
            m.current().size,
            ts.len(),
        ),
        m.run(seq![Event::Prepared] + sample_events(ts)) == m.advance(
            OutcomeModel::Measured(m.record(ts)),
        ),
        m.run(seq![Event::Prepared] + sample_events(ts)).wf(),
{
    let e = seq![Event::Prepared] + sample_events(ts);
    let n = m.step(Event::Prepared);
    lemma_step_preserves_wf(m, Event::Prepared);
    assert(e[0] == Event::Prepared);
    assert(e.drop_first() =~= sample_events(ts));
    assert(n.samples =~= Seq::<u64>::empty());
    lemma_timing_phase(n, ts);
    assert(n.samples + ts =~= ts);
    assert(n.advance(OutcomeModel::Measured(n.record(ts))) == m.advance(
        OutcomeModel::Measured(m.record(ts)),
    ));
    lemma_step_preserves_wf(n.run(Seq::<Event>::empty()), Event::Prepared);
    assert(m.run(e) == n.run(sample_events(ts)));
    lemma_advance_wf(m, ts);
}

proof fn lemma_advance_wf(m: RunModel, ts: Seq<u64>)
    requires
        m.wf(),
        m.cursor < m.plan.len(),
        ts.len() == m.current().repetitions,
    ensures
        m.advance(OutcomeModel::Measured(m.record(ts))).wf(),
{
    let n = m.advance(OutcomeModel::Measured(m.record(ts)));
    assert forall|i: int| 0 <= i < n.cursor implies #[trigger] n.outcome_matches_plan(i) by {
        if i < m.cursor {
            assert(m.outcome_matches_plan(i));
        }
    }
}

/// A sweep visits its sizes in strictly increasing order: its outcomes come
/// in increasing size, and the entry in progress is larger than every
/// finished one.
pub proof fn lemma_visits_in_increasing_order(m: RunModel)
    requires
        m.wf(),
    ensures
        forall|i: int, j: int|
            0 <= i < j < m.outcomes.len() ==> #[trigger] m.outcomes[i].size()
                < #[trigger] m.outcomes[j].size(),
        m.cursor < m.plan.len() ==> forall|i: int|
            0 <= i < m.outcomes.len() ==> #[trigger] m.outcomes[i].size() < m.current().size,
{
    assert forall|i: int, j: int| 0 <= i < j < m.outcomes.len() implies #[trigger] m.outcomes[i].size()
        < #[trigger] m.outcomes[j].size() by {
        assert(m.outcome_matches_plan(i));
        assert(m.outcome_matches_plan(j));
    }
    if m.cursor < m.plan.len() {
        assert forall|i: int| 0 <= i < m.outcomes.len() implies #[trigger] m.outcomes[i].size()
            < m.current().size by {
            assert(m.outcome_matches_plan(i));
        }
    }
}

proof fn lemma_later_preparations_are_larger(m: RunModel, events: Seq<Event>)
    requires
        m.wf(),
        m.answers(events),
        m.cursor < m.plan.len(),
    ensures
        forall|k: int|
            0 <= k < m.trace(events).len() && #[trigger] m.trace(events)[k].prepared_size() is Some
                ==> m.trace(events)[k].prepared_size().unwrap() >= m.current().size,
        forall|k: int|
            (0 < k || m.prepared) && 0 <= k < m.trace(events).len() && #[trigger] m.trace(
                events,
            )[k].prepared_size() is Some ==> m.trace(events)[k].prepared_size().unwrap()
                > m.current().size,
    decreases events.len(),
{
    if events.len() > 0 {
        let n = m.step(events[0]);
        let rest = events.drop_first();
        let t = m.trace(events);
        lemma_step_preserves_wf(m, events[0]);
        assert(t == seq![m.action()] + n.trace(rest));
        if n.cursor < n.plan.len() {
            lemma_later_preparations_are_larger(n, rest);
            if n.cursor == m.cursor {
                assert(n.prepared);
            } else {
                assert(n.current().size > m.current().size);
            }
        } else if rest.len() > 0 {
            assert(!n.accepts(rest[0]));
        }
        assert forall|k: int| 0 < k < t.len() implies #[trigger] t[k] == n.trace(rest)[k - 1] by {}
    }
}

/// A sweep visits its sizes in strictly increasing order: however the driver
/// answers, each request to prepare inputs names a larger size than every
/// earlier one, so no size is prepared twice or out of order.
pub proof fn lemma_preparations_in_increasing_order(m: RunModel, events: Seq<Event>)
    requires
        m.wf(),
        m.answers(events),
    ensures
        forall|i: int, j: int|
            0 <= i < j < m.trace(events).len() && #[trigger] m.trace(events)[i].prepared_size() is Some
                && #[trigger] m.trace(events)[j].prepared_size() is Some ==> m.trace(
                events,
            )[i].prepared_size().unwrap() < m.trace(events)[j].prepared_size().unwrap(),
    decreases events.len(),
{
    if events.len() > 0 {
        let n = m.step(events[0]);
        let rest = events.drop_first();
        let t = m.trace(events);
        lemma_step_preserves_wf(m, events[0]);
        assert(t == seq![m.action()] + n.trace(rest));
        lemma_preparations_in_increasing_order(n, rest);
        assert(m.cursor < m.plan.len());
        lemma_later_preparations_are_larger(m, events);
        assert forall|k: int| 0 < k < t.len() implies #[trigger] t[k] == n.trace(rest)[k - 1] by {}
        assert forall|i: int, j: int|
            0 <= i < j < t.len() && #[trigger] t[i].prepared_size() is Some
                && #[trigger] t[j].prepared_size() is Some implies t[i].prepared_size().unwrap()
            < t[j].prepared_size().unwrap() by {
            if i == 0 {
                assert(t[0] == m.action());
            } else {
                assert(t[i] == n.trace(rest)[i - 1]);
                assert(t[j] == n.trace(rest)[j - 1]);
            }
        }
    }
}

/// An entry without a valid input is recorded as skipped, and the sweep goes
/// on with the next entry in the state it would have after a measurement:
/// nothing else is recorded, dropped or aborted.
pub proof fn lemma_skip_then_continue(m: RunModel)
    requires
        m.wf(),
        m.action() is Prepare || m.action() is Skip,
    ensures
        m.step(Event::Unsupported) == m.advance(OutcomeModel::Skipped { size: m.current().size }),
        m.step(Event::Unsupported).wf(),
        m.step(Event::Unsupported).outcomes == m.outcomes.push(
            OutcomeModel::Skipped { size: m.current().size },
        ),
        m.step(Event::Unsupported).cursor == m.cursor + 1,
        m.step(Event::Unsupported).cursor < m.plan.len() ==> !(m.step(
            Event::Unsupported,
        ).action() is Run) && !(m.step(Event::Unsupported).action() is Done),
{
    lemma_step_preserves_wf(m, Event::Unsupported);
}

/// A sweep in progress: the verified protocol between the harness and the
/// driver that performs the untimed preparation and the timed calls.
pub struct SweepRun {
    operation: Operation,
    backend: String,
    to_device: bool,
    plan: Vec<PlanEntry>,
    cursor: usize,
    prepared: bool,
    samples: Vec<u64>,
    outcomes: Vec<Outcome>,
}

impl View for SweepRun {
    type V = RunModel;

    closed spec fn view(&self) -> RunModel {
        RunModel {
            operation: self.operation,
            backend: self.backend@,
            to_device: self.to_device,
            plan: self.plan@,
            cursor: self.cursor as nat,
            prepared: self.prepared,
            samples: self.samples@,
            outcomes: self.outcomes@.map_values(|o: Outcome| o@),
        }
    }
}

impl SweepRun {
    /// The invariant of a sweep in progress, which every method keeps.
    pub open spec fn wf(&self) -> bool {
        self@.wf()
    }

    /// Starts a sweep of `operation` on `backend` over `spec`, on the target
    /// that `selector` holds. Fails with `NoTargetSelected`, producing no
    /// measurement, when no target was selected.
    pub fn start(selector: &Selector, operation: Operation, backend: String, spec: &SweepSpec) -> (r:
        Result<SweepRun, HarnessError>)
        ensures
            r is Err <==> !selector@.may_measure(),
            r matches Err(e) ==> e == HarnessError::NoTargetSelected,
            r matches Ok(run) ==> run.wf(),
            r matches Ok(run) ==> run@ == RunModel::initial(
                operation,
                backend@,
                selector@.selected.unwrap().device_memory,
                plan_for(operation, spec@),
            ),
    {
        let to_device = match selector.selected() {
            Some(t) => t.device_memory,
            None => {
                return Err(HarnessError::NoTargetSelected);
            },
        };
        let plan = if operation.is_sized() {
            let p = spec.plan();
            proof {
                crate::sweep::lemma_plan_respects_policy(spec@);
            }
            p
        } else {
            let size = operation.operand_count();
            let mut v: Vec<PlanEntry> = Vec::new();
            v.push(PlanEntry { size, repetitions: spec.repetitions_for(size) });
            proof {
                assert(v@ =~= plan_for(operation, spec@));
            }
            v
        };
        let run = SweepRun {
            operation,
            backend,
            to_device,
            plan,
            cursor: 0,
            prepared: false,
            samples: Vec::new(),
            outcomes: Vec::new(),
        };
        proof {
            assert(run.outcomes@.map_values(|o: Outcome| o@) =~= Seq::<OutcomeModel>::empty());
        }
        Ok(run)
    }

    /// The action the driver performs next.
    pub fn action(&self) -> (r: Action)
        requires
            self.wf(),
        ensures
            r == self@.action(),
    {
        if self.cursor >= self.plan.len() {
            return Action::Done;
        }
        let size = self.plan[self.cursor].size;
        if self.prepared {
            Action::Run { size }
        } else if self.operation.supports_size(size) {
            Action::Prepare { size, to_device: self.to_device }
        } else {
            Action::Skip { size }
        }
    }

    /// Whether `event` answers the current action.
    pub fn accepts(&self, event: Event) -> (r: bool)
        requires
            self.wf(),
        ensures
            r == self@.accepts(event),
    {
        let a = self.action();
        match event {
            Event::Prepared => matches!(a, Action::Prepare { .. }),
            Event::Unsupported => matches!(a, Action::Prepare { .. } | Action::Skip { .. }),
            Event::Sample(_) => matches!(a, Action::Run { .. }),
        }
    }

    /// Applies the driver's answer to the current action. Returns false, and
    /// changes nothing, when `event` does not answer it.
    pub fn apply(&mut self, event: Event) -> (r: bool)
        requires
            old(self).wf(),
        ensures
            final(self).wf(),
            r == old(self)@.accepts(event),
            final(self)@ == old(self)@.step(event),
    {
        proof {
            lemma_step_preserves_wf(self@, event);
        }
        if !self.accepts(event) {
            return false;
        }
        let ghost before = self@;
        let size = self.plan[self.cursor].size;
        match event {
            Event::Prepared => {
                self.prepared = true;
                assert(self@ =~= before.step(event));
            },
            Event::Unsupported => {
                self.finish(Outcome::Skipped { size });
                assert(self.outcomes@.map_values(|o: Outcome| o@) =~= before.outcomes.push(
                    OutcomeModel::Skipped { size },
                ));
                assert(self@ =~= before.step(event));
            },
            Event::Sample(t) => {
                self.samples.push(t);
                if self.samples.len() == self.plan[self.cursor].repetitions {
                    let mut taken: Vec<u64> = Vec::new();
                    std::mem::swap(&mut self.samples, &mut taken);
                    let record = MeasurementRecord {
                        operation: self.operation,
                        backend: self.backend.clone(),
                        size,
                        samples: taken,
                    };
                    assert(record@ == before.record(before.samples.push(t)));
                    self.finish(Outcome::Measured(record));
                    assert(self.outcomes@.map_values(|o: Outcome| o@) =~= before.outcomes.push(
                        OutcomeModel::Measured(before.record(before.samples.push(t))),
                    ));
                    assert(self@ =~= before.step(event));
                } else {
                    assert(self@ =~= before.step(event));
                }
            },
        }
        true
    }

    /// Appends `outcome` and moves to the next entry with no samples.
    fn finish(&mut self, outcome: Outcome)
        requires
            old(self).cursor < old(self).plan@.len(),
        ensures
            final(self).operation == old(self).operation,
            final(self).backend == old(self).backend,
            final(self).to_device == old(self).to_device,
            final(self).plan == old(self).plan,
            final(self).cursor == old(self).cursor + 1,
            !final(self).prepared,
            final(self).samples@.len() == 0,
            final(self).outcomes@ == old(self).outcomes@.push(outcome),
    {
        let n = self.plan.len();
        assert(self.cursor < n);
        self.outcomes.push(outcome);
        self.cursor = self.cursor + 1;
        self.prepared = false;
        self.samples = Vec::new();
    }

    /// Whether every entry has been measured or skipped.
    pub fn is_done(&self) -> (r: bool)
        requires
            self.wf(),
        ensures
            r == (self@.action() is Done),
    {
        self.cursor >= self.plan.len()
    }

    /// The plan this sweep runs through.
    pub fn plan(&self) -> (r: &Vec<PlanEntry>)
        ensures
            r@ == self@.plan,
    {
        &self.plan
    }

    /// The outcomes of the finished entries, in plan order.
    pub fn outcomes(&self) -> (r: &Vec<Outcome>)
        ensures
            r@.map_values(|o: Outcome| o@) == self@.outcomes,
    {
        &self.outcomes
    }

    /// Hands the outcomes of the finished entries over to the report sink.
    pub fn into_outcomes(self) -> (r: Vec<Outcome>)
        ensures
            r@.map_values(|o: Outcome| o@) == self@.outcomes,
    {
        self.outcomes
    }
}

} // verus!
