//! The system: tables of tasklets and data providers, the executor's run
//! queue, and the operations of the initialization and run phases.
//!
//! Every operation takes the system by `&mut`, which gives it the exclusive
//! access that a critical section gives on a single core. Objects refer to
//! one another by index into these tables, and nothing is ever removed.
use vstd::prelude::*;
use vstd::multiset::Multiset;
use crate::boolean_condition::{BooleanCondition, BooleanConditionSet, BooleanConditionSetType, rule_holds};
use crate::cyclic_execution::{CyclicExecution, after_tick, due};
use crate::error::{InitError, RuntimeError};
use crate::event::{Event, EventId, EventSet};
use crate::execution_monitor::{ExecutionData, ExecutionStats, recorded};
use crate::message_queue::MessageQueue;
use crate::run_queue::{
    Entry, RunQueue, TASKLET_COUNT, entry_le, queued, run_queue_new, run_queue_pop,
    run_queue_push,
};
use crate::storage::{
    BooleanConditionHandle, EventHandle, MessageQueueHandle, Storage, TaskletHandle,
};
use crate::tasklet::{DataSource, TaskStatus, Tasklet, TaskletConfig};
use crate::time::{Duration, Instant};

verus! {

/// Number of waiting tasklets in `ts`.
pub open spec fn waiting_count(ts: Seq<Tasklet>) -> nat
    decreases ts.len(),
{
    if ts.len() == 0 {
        0
    } else {
        waiting_count(ts.drop_last()) + if ts.last().status_view() == TaskStatus::Waiting {
            1nat
        } else {
            0nat
        }
    }
}

/// A tasklet that is not waiting leaves room among the waiting ones.
proof fn lemma_waiting_count_below(ts: Seq<Tasklet>, i: int)
    requires
        0 <= i < ts.len(),
        ts[i].status_view() != TaskStatus::Waiting,
    ensures
        waiting_count(ts) < ts.len(),
    decreases ts.len(),
{
    if i == ts.len() - 1 {
        lemma_waiting_count_le(ts.drop_last());
    } else {
        lemma_waiting_count_below(ts.drop_last(), i);
    }
}

proof fn lemma_waiting_count_le(ts: Seq<Tasklet>)
    ensures
        waiting_count(ts) <= ts.len(),
    decreases ts.len(),
{
    if ts.len() > 0 {
        lemma_waiting_count_le(ts.drop_last());
    }
}

/// No tasklet waits exactly when the count is zero.
proof fn lemma_waiting_count_zero(ts: Seq<Tasklet>)
    ensures
        (waiting_count(ts) == 0) == (forall|j: int|
            0 <= j < ts.len() ==> #[trigger] ts[j].status_view() != TaskStatus::Waiting),
    decreases ts.len(),
{
    if ts.len() > 0 {
        lemma_waiting_count_zero(ts.drop_last());
        if waiting_count(ts) == 0 {
            assert forall|j: int| 0 <= j < ts.len() implies #[trigger] ts[j].status_view()
                != TaskStatus::Waiting by {
                if j < ts.len() - 1 {
                    assert(ts.drop_last()[j] == ts[j]);
                }
            }
        } else if ts.last().status_view() != TaskStatus::Waiting {
            let j = choose|j: int|
                0 <= j < ts.drop_last().len() && #[trigger] ts.drop_last()[j].status_view()
                    == TaskStatus::Waiting;
            assert(ts[j] == ts.drop_last()[j]);
        }
    }
}

/// Replacing one tasklet changes the count by the change in its status.
proof fn lemma_waiting_count_update(ts: Seq<Tasklet>, i: int, t: Tasklet)
    requires
        0 <= i < ts.len(),
    ensures
        waiting_count(ts.update(i, t)) + (if ts[i].status_view() == TaskStatus::Waiting {
            1int
        } else {
            0int
        }) == waiting_count(ts) + (if t.status_view() == TaskStatus::Waiting {
            1int
        } else {
            0int
        }),
    decreases ts.len(),
{
    if i == ts.len() - 1 {
        assert(ts.update(i, t).drop_last() =~= ts.drop_last());
    } else {
        lemma_waiting_count_update(ts.drop_last(), i, t);
        assert(ts.update(i, t).drop_last() =~= ts.drop_last().update(i, t));
    }
}

/// `a` and `b` are the same tasklet but for its status.
pub open spec fn same_but_status(a: Tasklet, b: Tasklet) -> bool {
    &&& a.name_view() == b.name_view()
    &&& a.priority_view() == b.priority_view()
    &&& a.last_time_view() == b.last_time_view()
    &&& a.source_view() == b.source_view()
}

/// The status that waking gives: a sleeping tasklet starts waiting, any
/// other keeps its status.
pub open spec fn woken_status(s: TaskStatus) -> TaskStatus {
    if s == TaskStatus::Sleeping {
        TaskStatus::Waiting
    } else {
        s
    }
}

/// The values among the first `n` of `s`.
pub open spec fn prefix_set(s: Seq<usize>, n: int) -> Set<usize> {
    Set::new(|j: usize| exists|k: int| 0 <= k < n && k < s.len() && s[k] == j)
}

/// One more element of the prefix adds that element.
pub proof fn lemma_prefix_set_step(s: Seq<usize>, n: int)
    requires
        0 <= n < s.len(),
    ensures
        prefix_set(s, n + 1) == prefix_set(s, n).insert(s[n]),
{
    assert forall|j: usize| #[trigger] prefix_set(s, n + 1).contains(j) == prefix_set(s, n).insert(
        s[n],
    ).contains(j) by {
        if prefix_set(s, n + 1).contains(j) {
            let w = choose|w: int| 0 <= w < n + 1 && w < s.len() && s[w] == j;
            if w < n {
                assert(prefix_set(s, n).contains(j));
            }
        }
        if prefix_set(s, n).contains(j) {
            let w = choose|w: int| 0 <= w < n && w < s.len() && s[w] == j;
            assert(prefix_set(s, n + 1).contains(j));
        }
        if j == s[n] {
            assert(prefix_set(s, n + 1).contains(j));
        }
    }
    assert(prefix_set(s, n + 1) =~= prefix_set(s, n).insert(s[n]));
}

/// The owners of the event sets at the first `n` indices of `idx`.
pub open spec fn event_set_owners(sets: Seq<EventSet>, idx: Seq<usize>, n: int) -> Set<usize> {
    Set::new(
        |t: usize|
            exists|k: int| 0 <= k < n && k < idx.len() && sets[idx[k] as int].owner_view() == t,
    )
}

/// The tasklets of the first `n` cyclic records that are due at `now`.
pub open spec fn due_tasklets(records: Seq<CyclicExecution>, now: Instant, n: int) -> Set<usize> {
    Set::new(
        |t: usize|
            exists|k: int|
                0 <= k < n && k < records.len() && records[k].tasklet_view() == t && due(
                    records[k].period_view(),
                    records[k].next_view(),
                    now,
                ),
    )
}

/// The owners of the condition sets at the first `n` indices of `idx` whose
/// rule holds over `values`.
pub open spec fn satisfied_owners(
    sets: Seq<BooleanConditionSet>,
    idx: Seq<usize>,
    values: Seq<bool>,
    n: int,
) -> Set<usize> {
    Set::new(
        |t: usize|
            exists|k: int|
                0 <= k < n && k < idx.len() && sets[idx[k] as int].owner_view() == t
                    && rule_holds(
                    sets[idx[k] as int].rule_view(),
                    sets[idx[k] as int].members_view(),
                    values,
                ),
    )
}

/// `after` is `before` with every tasklet of `woken` woken.
pub open spec fn woke(before: Seq<Tasklet>, after: Seq<Tasklet>, woken: Set<usize>) -> bool {
    &&& after.len() == before.len()
    &&& forall|j: int|
        0 <= j < before.len() ==> #[trigger] after[j].status_view() == if woken.contains(
            j as usize,
        ) {
            woken_status(before[j].status_view())
        } else {
            before[j].status_view()
        }
    &&& forall|j: int| 0 <= j < before.len() ==> same_but_status(before[j], #[trigger] after[j])
}

/// Waking twice is waking once over both sets.
pub proof fn lemma_woke_trans(
    a: Seq<Tasklet>,
    b: Seq<Tasklet>,
    c: Seq<Tasklet>,
    s1: Set<usize>,
    s2: Set<usize>,
)
    requires
        woke(a, b, s1),
        woke(b, c, s2),
    ensures
        woke(a, c, s1.union(s2)),
{
    assert forall|j: int| 0 <= j < a.len() implies #[trigger] c[j].status_view() == if s1.union(
        s2,
    ).contains(j as usize) {
        woken_status(a[j].status_view())
    } else {
        a[j].status_view()
    } by {
        assert(b[j].status_view() == c[j].status_view() || s2.contains(j as usize));
    }
    assert forall|j: int| 0 <= j < a.len() implies same_but_status(a[j], #[trigger] c[j]) by {
        assert(same_but_status(a[j], b[j]));
        assert(same_but_status(b[j], c[j]));
    }
}

/// `after` is `before` with tasklet `i` bound to `source`.
pub open spec fn bound(before: Seq<Tasklet>, after: Seq<Tasklet>, i: int, source: DataSource) -> bool {
    &&& after.len() == before.len()
    &&& after[i].source_view() == Some(source)
    &&& after[i].name_view() == before[i].name_view()
    &&& after[i].priority_view() == before[i].priority_view()
    &&& after[i].status_view() == before[i].status_view()
    &&& after[i].last_time_view() == before[i].last_time_view()
    &&& forall|j: int| 0 <= j < before.len() && j != i ==> #[trigger] after[j] == before[j]
}

/// Whether `x` is among the elements of `v`.
fn contains_index(v: &Vec<usize>, x: usize) -> (r: bool)
    ensures
        r == v@.contains(x),
{
    let mut i: usize = 0;
    while i < v.len()
        invariant
            i <= v@.len(),
            forall|k: int| 0 <= k < i ==> v@[k] != x,
        decreases v@.len() - i,
    {
        if v[i] == x {
            return true;
        }
        i += 1;
    }
    false
}

/// Whether `x` is among the elements of `v`.
fn contains_id(v: &Vec<EventId>, x: EventId) -> (r: bool)
    ensures
        r == v@.contains(x),
{
    let mut i: usize = 0;
    while i < v.len()
        invariant
            i <= v@.len(),
            forall|k: int| 0 <= k < i ==> v@[k] != x,
        decreases v@.len() - i,
    {
        if v[i] == x {
            return true;
        }
        i += 1;
    }
    false
}

/// The indices that the first `n` event handles name.
pub open spec fn event_indices(hs: Seq<EventHandle>, n: int) -> Set<usize> {
    Set::new(|e: usize| exists|k: int| 0 <= k < n && k < hs.len() && hs[k].index_view() == e)
}

/// The indices that the first `n` condition handles name.
pub open spec fn condition_indices(hs: Seq<BooleanConditionHandle>, n: int) -> Set<usize> {
    Set::new(|c: usize| exists|k: int| 0 <= k < n && k < hs.len() && hs[k].index_view() == c)
}

/// The identifiers of the events at `idx` in `events`.
pub open spec fn event_ids(events: Seq<Event>, idx: Set<usize>) -> Set<EventId> {
    Set::new(|id: EventId| exists|e: usize| idx.contains(e) && events[e as int].id_view() == id)
}

/// The input handed to a tasklet's step.
#[derive(Debug, PartialEq, Eq)]
pub enum StepInput<T> {
    /// The head element of its message queue.
    Message(T),
    /// The lowest pending event of its event set.
    Event(EventId),
    /// The value of its condition set.
    Condition(bool),
    /// A cyclic wake-up.
    Tick,
}

/// The system.
pub struct Aerugo<T> {
    tasklets: Vec<Tasklet>,
    queues: Vec<MessageQueue<T>>,
    events: Vec<Event>,
    event_sets: Vec<EventSet>,
    conditions: Vec<BooleanCondition>,
    condition_sets: Vec<BooleanConditionSet>,
    cyclic_executions: Vec<CyclicExecution>,
    run_queue: RunQueue,
    in_flight: Option<usize>,
    step_start: Instant,
    stats: Vec<ExecutionData>,
}

impl<T> Aerugo<T> {
    /// The tasklets, by index.
    pub closed spec fn tasklets_view(&self) -> Seq<Tasklet> {
        self.tasklets@
    }

    /// The message queues, by index.
    pub closed spec fn queues_view(&self) -> Seq<MessageQueue<T>> {
        self.queues@
    }

    /// The events, by index.
    pub closed spec fn events_view(&self) -> Seq<Event> {
        self.events@
    }

    /// The event sets, by index.
    pub closed spec fn event_sets_view(&self) -> Seq<EventSet> {
        self.event_sets@
    }

    /// The boolean conditions, by index.
    pub closed spec fn conditions_view(&self) -> Seq<BooleanCondition> {
        self.conditions@
    }

    /// The condition sets, by index.
    pub closed spec fn condition_sets_view(&self) -> Seq<BooleanConditionSet> {
        self.condition_sets@
    }

    /// The cyclic execution records, by index.
    pub closed spec fn cyclic_view(&self) -> Seq<CyclicExecution> {
        self.cyclic_executions@
    }

    /// The tasklet whose step is running, if any.
    pub closed spec fn in_flight_view(&self) -> Option<usize> {
        self.in_flight
    }

    /// The step durations recorded for each tasklet.
    pub closed spec fn stats_view(&self) -> Seq<ExecutionData> {
        self.stats@
    }

    /// Instant at which the step in flight started.
    pub closed spec fn step_start_view(&self) -> Instant {
        self.step_start
    }

    /// The entries of the run queue.
    pub closed spec fn queued_view(&self) -> Multiset<Entry> {
        queued(self.run_queue)
    }

    /// The current value of every condition.
    pub open spec fn condition_values(&self) -> Seq<bool> {
        self.conditions_view().map_values(|c: BooleanCondition| c.value_view())
    }

    /// Status of tasklet `i`.
    pub open spec fn status_of(&self, i: int) -> TaskStatus {
        self.tasklets_view()[i].status_view()
    }

    /// The run-queue entry of tasklet `i`.
    pub open spec fn entry_of(&self, i: int) -> Entry {
        (self.tasklets_view()[i].priority_view(), i as usize)
    }

    /// The run queue holds exactly one entry for each waiting tasklet, and
    /// nothing else; a tasklet works exactly when its step is in flight.
    pub closed spec fn schedule_wf(&self) -> bool {
        let ts = self.tasklets@;
        let q = queued(self.run_queue);
        &&& ts.len() <= TASKLET_COUNT
        &&& forall|e: Entry|
            #[trigger] q.count(e) > 0 ==> {
                &&& e.1 < ts.len()
                &&& e.0 == ts[e.1 as int].priority_view()
                &&& ts[e.1 as int].status_view() == TaskStatus::Waiting
                &&& q.count(e) == 1
            }
        &&& forall|j: int|
            0 <= j < ts.len() && #[trigger] ts[j].status_view() == TaskStatus::Waiting ==> q.count(
                (ts[j].priority_view(), j as usize),
            ) == 1
        &&& q.len() == waiting_count(ts)
        &&& forall|j: int|
            0 <= j < ts.len() ==> (#[trigger] ts[j].status_view() == TaskStatus::Working
                <==> self.in_flight == Some(j as usize))
        &&& self.in_flight matches Some(i) ==> i < ts.len()
    }

    /// Every index in every table points into the table it names, every
    /// event is held by the sets it lists, and each object is well formed.
    pub closed spec fn tables_wf(&self) -> bool {
        let nt = self.tasklets@.len();
        &&& forall|i: int|
            0 <= i < nt ==> match #[trigger] self.tasklets@[i].source_view() {
                Some(DataSource::Queue(q)) => q < self.queues@.len(),
                Some(DataSource::Events(s)) => s < self.event_sets@.len(),
                Some(DataSource::Conditions(s)) => s < self.condition_sets@.len(),
                Some(DataSource::Cyclic(c)) => c < self.cyclic_executions@.len(),
                None => true,
            }
        &&& forall|q: int| 0 <= q < self.queues@.len() ==> (#[trigger] self.queues@[q]).wf()
        &&& forall|q: int, k: int|
            0 <= q < self.queues@.len() && 0 <= k < self.queues@[q].subscribers_view().len()
                ==> #[trigger] self.queues@[q].subscribers_view()[k] < nt
        &&& forall|e: int| 0 <= e < self.events@.len() ==> (#[trigger] self.events@[e]).wf()
        &&& forall|e: int, k: int|
            0 <= e < self.events@.len() && 0 <= k < self.events@[e].sets_view().len() ==> {
                let s = #[trigger] self.events@[e].sets_view()[k];
                &&& s < self.event_sets@.len()
                &&& self.event_sets@[s as int].ids_view().contains(self.events@[e].id_view())
            }
        &&& forall|s: int|
            0 <= s < self.event_sets@.len() ==> (#[trigger] self.event_sets@[s]).wf()
                && self.event_sets@[s].owner_view() < nt
        &&& forall|c: int|
            0 <= c < self.conditions@.len() ==> (#[trigger] self.conditions@[c]).wf()
        &&& forall|c: int, k: int|
            0 <= c < self.conditions@.len() && 0 <= k < self.conditions@[c].sets_view().len()
                ==> #[trigger] self.conditions@[c].sets_view()[k] < self.condition_sets@.len()
        &&& forall|s: int|
            0 <= s < self.condition_sets@.len() ==> (#[trigger] self.condition_sets@[s]).owner_view()
                < nt
        &&& forall|s: int, k: int|
            0 <= s < self.condition_sets@.len() && 0 <= k
                < self.condition_sets@[s].members_view().len()
                ==> #[trigger] self.condition_sets@[s].members_view()[k] < self.conditions@.len()
        &&& self.stats@.len() == nt
        &&& forall|i: int| 0 <= i < nt ==> (#[trigger] self.stats@[i]).wf()
        &&& self.cyclic_executions@.len() <= TASKLET_COUNT
        &&& forall|c: int|
            0 <= c < self.cyclic_executions@.len() ==> (#[trigger] self.cyclic_executions@[c]).wf()
                && self.cyclic_executions@[c].tasklet_view() < nt
    }

    /// The system's invariant.
    pub open spec fn wf(&self) -> bool {
        self.schedule_wf() && self.tables_wf()
    }

    /// Number of tasklets.
    pub open spec fn tasklet_count_view(&self) -> nat {
        self.tasklets_view().len()
    }

    /// `h` names a tasklet of this system.
    pub open spec fn valid_tasklet(&self, h: TaskletHandle) -> bool {
        h.index_view() < self.tasklets_view().len()
    }

    /// `h` names a queue of this system.
    pub open spec fn valid_queue(&self, h: MessageQueueHandle) -> bool {
        h.index_view() < self.queues_view().len()
    }

    /// `h` names an event of this system.
    pub open spec fn valid_event(&self, h: EventHandle) -> bool {
        h.index_view() < self.events_view().len()
    }

    /// `h` names a condition of this system.
    pub open spec fn valid_condition(&self, h: BooleanConditionHandle) -> bool {
        h.index_view() < self.conditions_view().len()
    }

    /// All the tables but the tasklets and the run queue are those of `other`.
    pub open spec fn same_providers(&self, other: &Self) -> bool {
        &&& self.queues_view() == other.queues_view()
        &&& self.events_view() == other.events_view()
        &&& self.event_sets_view() == other.event_sets_view()
        &&& self.conditions_view() == other.conditions_view()
        &&& self.condition_sets_view() == other.condition_sets_view()
        &&& self.cyclic_view() == other.cyclic_view()
        &&& self.stats_view() == other.stats_view()
    }

    /// An empty system in its initialization phase.
    pub fn new() -> (r: Aerugo<T>)
        ensures
            r.wf(),
            r.tasklets_view().len() == 0,
            r.queues_view().len() == 0,
            r.events_view().len() == 0,
            r.event_sets_view().len() == 0,
            r.conditions_view().len() == 0,
            r.condition_sets_view().len() == 0,
            r.cyclic_view().len() == 0,
            r.in_flight_view() is None,
    {
        Aerugo {
            tasklets: Vec::new(),
            queues: Vec::new(),
            events: Vec::new(),
            event_sets: Vec::new(),
            conditions: Vec::new(),
            condition_sets: Vec::new(),
            cyclic_executions: Vec::new(),
            run_queue: run_queue_new(),
            in_flight: None,
            step_start: Instant::from_ticks(0),
            stats: Vec::new(),
        }
    }

    /// Schedules tasklet `i`: a sleeping tasklet starts waiting and enters
    /// the run queue; a waiting or working one is left as it is.
    fn wake(&mut self, i: usize) -> (r: Result<bool, RuntimeError>)
        requires
            old(self).wf(),
            i < old(self).tasklets_view().len(),
        ensures
            final(self).wf(),
            r == Ok::<bool, RuntimeError>(old(self).status_of(i as int) == TaskStatus::Sleeping),
            woke(old(self).tasklets_view(), final(self).tasklets_view(), set![i]),
            final(self).same_providers(old(self)),
            final(self).in_flight_view() == old(self).in_flight_view(),
    {
        if self.tasklets[i].get_status() != TaskStatus::Sleeping {
            assert(woke(old(self).tasklets_view(), self.tasklets_view(), set![i]));
            return Ok(false);
        }
        let ghost before = self.tasklets@;
        proof {
            lemma_waiting_count_below(before, i as int);
        }
        let priority = self.tasklets[i].get_priority();
        self.tasklets[i].set_status(TaskStatus::Waiting);
        proof {
            lemma_waiting_count_update(before, i as int, self.tasklets@[i as int]);
            assert(self.tasklets@ =~= before.update(i as int, self.tasklets@[i as int]));
            assert(queued(self.run_queue).count((priority, i)) == 0);
        }
        match run_queue_push(&mut self.run_queue, (priority, i)) {
            Ok(()) => {},
            Err(_) => {
                return Err(RuntimeError::ExecutorTaskletQueueFull);
            },
        }
        proof {
            let ts = self.tasklets@;
            let q = queued(self.run_queue);
            assert forall|e: Entry| #[trigger] q.count(e) > 0 implies {
                &&& e.1 < ts.len()
                &&& e.0 == ts[e.1 as int].priority_view()
                &&& ts[e.1 as int].status_view() == TaskStatus::Waiting
                &&& q.count(e) == 1
            } by {
                if e != (priority, i) {
                    assert(queued(old(self).run_queue).count(e) > 0);
                    if e.1 == i {
                        assert(before[i as int].status_view() == TaskStatus::Waiting);
                    }
                }
            }
            assert forall|j: int|
                0 <= j < ts.len() && #[trigger] ts[j].status_view()
                    == TaskStatus::Waiting implies q.count((ts[j].priority_view(), j as usize))
                == 1 by {
                if j != i {
                    assert(before[j].status_view() == TaskStatus::Waiting);
                    assert(before[j].priority_view() == ts[j].priority_view());
                }
            }
            assert forall|j: int|
                0 <= j < ts.len() implies (#[trigger] ts[j].status_view() == TaskStatus::Working
                <==> self.in_flight == Some(j as usize)) by {
                if j != i {
                    assert(before[j].status_view() == ts[j].status_view());
                } else {
                    assert(before[j].status_view() != TaskStatus::Working);
                }
            }
            assert forall|k: int| 0 <= k < ts.len() implies #[trigger] self.tasklets@[k].source_view()
                == before[k].source_view() by {
                if k != i {
                    assert(self.tasklets@[k] == before[k]);
                }
            }
            assert(woke(before, ts, set![i]));
        }
        Ok(true)
    }

    /// Wakes every subscriber of queue `qi`.
    fn wake_queue_subscribers(&mut self, qi: usize)
        requires
            old(self).wf(),
            qi < old(self).queues_view().len(),
        ensures
            final(self).wf(),
            woke(
                old(self).tasklets_view(),
                final(self).tasklets_view(),
                prefix_set(
                    old(self).queues_view()[qi as int].subscribers_view(),
                    old(self).queues_view()[qi as int].subscribers_view().len() as int,
                ),
            ),
            final(self).same_providers(old(self)),
            final(self).in_flight_view() == old(self).in_flight_view(),
    {
        let ghost subs = self.queues@[qi as int].subscribers_view();
        let n = self.queues[qi].subscriber_count();
        let mut k: usize = 0;
        assert(woke(old(self).tasklets_view(), self.tasklets_view(), prefix_set(subs, 0)));
        while k < n
            invariant
                self.wf(),
                qi < self.queues@.len(),
                subs == self.queues@[qi as int].subscribers_view(),
                n == subs.len(),
                k <= n,
                woke(old(self).tasklets_view(), self.tasklets_view(), prefix_set(subs, k as int)),
                self.same_providers(old(self)),
                self.in_flight_view() == old(self).in_flight_view(),
            decreases n - k,
        {
            let t = self.queues[qi].subscriber(k);
            assert(t < self.tasklets@.len());
            let ghost mid = self.tasklets_view();
            let _ = self.wake(t);
            proof {
                lemma_woke_trans(old(self).tasklets_view(), mid, self.tasklets_view(), prefix_set(subs, k as int), set![t]);
                assert(prefix_set(subs, k as int).union(set![t]) =~= prefix_set(subs, k + 1));
            }
            k += 1;
        }
    }

    /// Sends `data` on a queue and wakes its subscribers; on a full queue
    /// fails with `DataQueueFull` and changes nothing.
    pub fn send_data(&mut self, queue: &MessageQueueHandle, data: T) -> (r: Result<(), RuntimeError>)
        requires
            old(self).wf(),
            old(self).valid_queue(*queue),
        ensures
            final(self).wf(),
            final(self).in_flight_view() == old(self).in_flight_view(),
            final(self).queues_view().len() == old(self).queues_view().len(),
            forall|j: int|
                0 <= j < old(self).queues_view().len() && j != queue.index_view()
                    ==> #[trigger] final(self).queues_view()[j] == old(self).queues_view()[j],
            ({
                let q = old(self).queues_view()[queue.index_view() as int];
                let fq = final(self).queues_view()[queue.index_view() as int];
                &&& fq.capacity_view() == q.capacity_view()
                &&& fq.subscribers_view() == q.subscribers_view()
                &&& q.items_view().len() >= q.capacity_view() ==> r == Err::<(), RuntimeError>(
                    RuntimeError::DataQueueFull,
                ) && fq.items_view() == q.items_view() && final(self).tasklets_view()
                    == old(self).tasklets_view()
                &&& q.items_view().len() < q.capacity_view() ==> r is Ok && fq.items_view()
                    == q.items_view().push(data) && woke(
                    old(self).tasklets_view(),
                    final(self).tasklets_view(),
                    prefix_set(q.subscribers_view(), q.subscribers_view().len() as int),
                )
            }),
            final(self).events_view() == old(self).events_view(),
            final(self).event_sets_view() == old(self).event_sets_view(),
            final(self).conditions_view() == old(self).conditions_view(),
            final(self).condition_sets_view() == old(self).condition_sets_view(),
            final(self).cyclic_view() == old(self).cyclic_view(),
    {
        let qi = queue.index();
        let res = self.queues[qi].enqueue(data);
        proof {
            assert forall|j: int| 0 <= j < self.queues@.len() implies (#[trigger] self.queues@[j]).wf() by {
                if j != qi {
                    assert(self.queues@[j] == old(self).queues@[j]);
                }
            }
            assert forall|j: int, k: int|
                0 <= j < self.queues@.len() && 0 <= k < self.queues@[j].subscribers_view().len()
                    implies #[trigger] self.queues@[j].subscribers_view()[k] < self.tasklets@.len() by {
                assert(old(self).queues@[j].subscribers_view() == self.queues@[j].subscribers_view());
            }
        }
        match res {
            Err(e) => {
                return Err(e);
            },
            Ok(()) => {},
        }
        self.wake_queue_subscribers(qi);
        Ok(())
    }

    /// Drops every element of a queue; wakes nobody.
    pub fn clear_queue(&mut self, queue: &MessageQueueHandle)
        requires
            old(self).wf(),
            old(self).valid_queue(*queue),
        ensures
            final(self).wf(),
            final(self).queues_view().len() == old(self).queues_view().len(),
            forall|j: int|
                0 <= j < old(self).queues_view().len() && j != queue.index_view()
                    ==> #[trigger] final(self).queues_view()[j] == old(self).queues_view()[j],
            final(self).queues_view()[queue.index_view() as int].items_view().len() == 0,
            final(self).queues_view()[queue.index_view() as int].capacity_view() == old(
                self,
            ).queues_view()[queue.index_view() as int].capacity_view(),
            final(self).queues_view()[queue.index_view() as int].subscribers_view() == old(
                self,
            ).queues_view()[queue.index_view() as int].subscribers_view(),
            final(self).tasklets_view() == old(self).tasklets_view(),
            final(self).in_flight_view() == old(self).in_flight_view(),
            final(self).stats_view() == old(self).stats_view(),
            final(self).step_start_view() == old(self).step_start_view(),
            final(self).events_view() == old(self).events_view(),
            final(self).event_sets_view() == old(self).event_sets_view(),
            final(self).conditions_view() == old(self).conditions_view(),
            final(self).condition_sets_view() == old(self).condition_sets_view(),
            final(self).cyclic_view() == old(self).cyclic_view(),
    {
        let qi = queue.index();
        self.queues[qi].clear();
        proof {
            assert forall|j: int| 0 <= j < self.queues@.len() implies (#[trigger] self.queues@[j]).wf() by {
                if j != qi {
                    assert(self.queues@[j] == old(self).queues@[j]);
                }
            }
            assert forall|j: int, k: int|
                0 <= j < self.queues@.len() && 0 <= k < self.queues@[j].subscribers_view().len()
                    implies #[trigger] self.queues@[j].subscribers_view()[k] < self.tasklets@.len() by {
                assert(old(self).queues@[j].subscribers_view() == self.queues@[j].subscribers_view());
            }
        }
    }

    /// Emits an event: marks it pending in every event set that holds it and
    /// wakes the owner of each such set.
    pub fn emit_event(&mut self, event: &EventHandle) -> (r: Result<(), RuntimeError>)
        requires
            old(self).wf(),
            old(self).valid_event(*event),
        ensures
            final(self).wf(),
            r is Ok,
            ({
                let e = old(self).events_view()[event.index_view() as int];
                let sets = e.sets_view();
                &&& final(self).event_sets_view().len() == old(self).event_sets_view().len()
                &&& forall|s: usize|
                    s < old(self).event_sets_view().len() ==> {
                        let before = old(self).event_sets_view()[s as int];
                        let after = #[trigger] final(self).event_sets_view()[s as int];
                        &&& after.owner_view() == before.owner_view()
                        &&& after.ids_view() == before.ids_view()
                        &&& after.pending_view() == if prefix_set(sets, sets.len() as int).contains(
                            s,
                        ) {
                            before.pending_view().insert(e.id_view())
                        } else {
                            before.pending_view()
                        }
                    }
                &&& woke(
                    old(self).tasklets_view(),
                    final(self).tasklets_view(),
                    event_set_owners(old(self).event_sets_view(), sets, sets.len() as int),
                )
                &&& forall|k: int|
                    0 <= k < sets.len() ==> {
                        let set = final(self).event_sets_view()[#[trigger] sets[k] as int];
                        &&& set.pending_view().contains(e.id_view())
                        &&& final(self).status_of(set.owner_view() as int) != TaskStatus::Sleeping
                    }
            }),
            final(self).in_flight_view() == old(self).in_flight_view(),
            final(self).queues_view() == old(self).queues_view(),
            final(self).events_view() == old(self).events_view(),
            final(self).conditions_view() == old(self).conditions_view(),
            final(self).condition_sets_view() == old(self).condition_sets_view(),
            final(self).cyclic_view() == old(self).cyclic_view(),
    {
        let ei = event.index();
        let id = self.events[ei].id();
        let n = self.events[ei].set_count();
        let ghost sets = self.events@[ei as int].sets_view();
        let ghost old_sets = self.event_sets@;
        let mut k: usize = 0;
        proof {
            assert(woke(old(self).tasklets_view(), self.tasklets_view(), event_set_owners(old_sets, sets, 0)));
        }
        while k < n
            invariant
                self.wf(),
                ei < self.events@.len(),
                self.events@ == old(self).events@,
                sets == self.events@[ei as int].sets_view(),
                id == self.events@[ei as int].id_view(),
                n == sets.len(),
                k <= n,
                old_sets == old(self).event_sets@,
                self.event_sets@.len() == old_sets.len(),
                forall|s: usize|
                    s < old_sets.len() ==> {
                        let before = old_sets[s as int];
                        let after = #[trigger] self.event_sets@[s as int];
                        &&& after.owner_view() == before.owner_view()
                        &&& after.ids_view() == before.ids_view()
                        &&& after.pending_view() == if prefix_set(sets, k as int).contains(s) {
                            before.pending_view().insert(id)
                        } else {
                            before.pending_view()
                        }
                    },
                woke(old(self).tasklets_view(), self.tasklets_view(), event_set_owners(old_sets, sets, k as int)),
                self.in_flight_view() == old(self).in_flight_view(),
                self.queues@ == old(self).queues@,
                self.conditions@ == old(self).conditions@,
                self.condition_sets@ == old(self).condition_sets@,
                self.cyclic_executions@ == old(self).cyclic_executions@,
            decreases n - k,
        {
            let s = self.events[ei].set_at(k);
            assert(self.events@[ei as int].sets_view()[k as int] == s);
            assert(s < self.event_sets@.len());
            assert(self.event_sets@[s as int].ids_view().contains(id));
            let ghost sets_before = self.event_sets@;
            assert forall|x: usize| x < old_sets.len() implies {
                let before = old_sets[x as int];
                let cur = #[trigger] sets_before[x as int];
                &&& cur.owner_view() == before.owner_view()
                &&& cur.ids_view() == before.ids_view()
                &&& cur.pending_view() == if prefix_set(sets, k as int).contains(x) {
                    before.pending_view().insert(id)
                } else {
                    before.pending_view()
                }
            } by {
                assert(sets_before[x as int] == self.event_sets@[x as int]);
            }
            let _ = self.event_sets[s].activate_event(id);
            proof {
                assert forall|j: int| 0 <= j < self.event_sets@.len() implies (#[trigger] self.event_sets@[j]).wf()
                    && self.event_sets@[j].owner_view() < self.tasklets@.len() by {
                    if j != s {
                        assert(self.event_sets@[j] == sets_before[j]);
                    }
                }
                assert forall|e: int, m: int|
                    0 <= e < self.events@.len() && 0 <= m < self.events@[e].sets_view().len() implies {
                        let x = #[trigger] self.events@[e].sets_view()[m];
                        &&& x < self.event_sets@.len()
                        &&& self.event_sets@[x as int].ids_view().contains(self.events@[e].id_view())
                    } by {
                    let x = self.events@[e].sets_view()[m];
                    assert(sets_before[x as int].ids_view() == self.event_sets@[x as int].ids_view());
                }
            }
            let owner = self.event_sets[s].owner();
            assert(owner == old_sets[s as int].owner_view());
            let ghost mid = self.tasklets_view();
            let _ = self.wake(owner);
            proof {
                lemma_woke_trans(
                    old(self).tasklets_view(),
                    mid,
                    self.tasklets_view(),
                    event_set_owners(old_sets, sets, k as int),
                    set![owner],
                );
                assert(event_set_owners(old_sets, sets, k as int).union(set![owner]) =~= event_set_owners(old_sets, sets, k + 1));
                lemma_prefix_set_step(sets, k as int);
                assert(sets[k as int] == s);
                assert(prefix_set(sets, k + 1) == prefix_set(sets, k as int).insert(s));
                assert forall|x: usize| x < old_sets.len() implies {
                    let before = old_sets[x as int];
                    let after = #[trigger] self.event_sets@[x as int];
                    &&& after.owner_view() == before.owner_view()
                    &&& after.ids_view() == before.ids_view()
                    &&& after.pending_view() == if prefix_set(sets, k + 1).contains(x) {
                        before.pending_view().insert(id)
                    } else {
                        before.pending_view()
                    }
                } by {
                    if x == s {
                        assert(self.event_sets@[x as int].pending_view() == sets_before[x as int].pending_view().insert(id));
                        if prefix_set(sets, k as int).contains(x) {
                            assert(sets_before[x as int].pending_view() == old_sets[x as int].pending_view().insert(id));
                            assert(old_sets[x as int].pending_view().insert(id).insert(id) =~= old_sets[x as int].pending_view().insert(id));
                        } else {
                            assert(sets_before[x as int].pending_view() == old_sets[x as int].pending_view());
                        }
                    } else {
                        assert(self.event_sets@[x as int] == sets_before[x as int]);
                    }
                }
            }
            k += 1;
        }
        proof {
            assert forall|m: int| 0 <= m < sets.len() implies {
                let set = self.event_sets@[#[trigger] sets[m] as int];
                &&& set.pending_view().contains(id)
                &&& self.status_of(set.owner_view() as int) != TaskStatus::Sleeping
            } by {
                let x = sets[m];
                assert(x < old_sets.len());
                assert(prefix_set(sets, n as int).contains(x));
                assert(event_set_owners(old_sets, sets, n as int).contains(old_sets[x as int].owner_view()));
                assert(old_sets[x as int].owner_view() < old(self).tasklets@.len());
            }
        }
        Ok(())
    }

    /// A tick of the time manager at `now`: every cyclic record that is due
    /// wakes its tasklet once, and a periodic one moves its deadline past `now`.
    pub fn tick(&mut self, now: Instant)
        requires
            old(self).wf(),
        ensures
            final(self).wf(),
            final(self).cyclic_view().len() == old(self).cyclic_view().len(),
            forall|k: int|
                0 <= k < old(self).cyclic_view().len() ==> {
                    let before = old(self).cyclic_view()[k];
                    let after = #[trigger] final(self).cyclic_view()[k];
                    &&& after.tasklet_view() == before.tasklet_view()
                    &&& after.period_view() == before.period_view()
                    &&& after.next_view() == after_tick(
                        before.period_view(),
                        before.next_view(),
                        now,
                    )
                },
            woke(
                old(self).tasklets_view(),
                final(self).tasklets_view(),
                due_tasklets(old(self).cyclic_view(), now, old(self).cyclic_view().len() as int),
            ),
            final(self).in_flight_view() == old(self).in_flight_view(),
            final(self).queues_view() == old(self).queues_view(),
            final(self).events_view() == old(self).events_view(),
            final(self).event_sets_view() == old(self).event_sets_view(),
            final(self).conditions_view() == old(self).conditions_view(),
            final(self).condition_sets_view() == old(self).condition_sets_view(),
    {
        let ghost recs = self.cyclic_executions@;
        let n = self.cyclic_executions.len();
        let mut k: usize = 0;
        proof {
            assert(woke(old(self).tasklets_view(), self.tasklets_view(), due_tasklets(recs, now, 0)));
        }
        while k < n
            invariant
                self.wf(),
                recs == old(self).cyclic_executions@,
                n == recs.len(),
                k <= n,
                self.cyclic_executions@.len() == n,
                forall|j: int|
                    0 <= j < n ==> {
                        let before = recs[j];
                        let after = #[trigger] self.cyclic_executions@[j];
                        &&& after.tasklet_view() == before.tasklet_view()
                        &&& after.period_view() == before.period_view()
                        &&& after.next_view() == if j < k {
                            after_tick(before.period_view(), before.next_view(), now)
                        } else {
                            before.next_view()
                        }
                    },
                woke(old(self).tasklets_view(), self.tasklets_view(), due_tasklets(recs, now, k as int)),
                self.in_flight_view() == old(self).in_flight_view(),
                self.queues@ == old(self).queues@,
                self.events@ == old(self).events@,
                self.event_sets@ == old(self).event_sets@,
                self.conditions@ == old(self).conditions@,
                self.condition_sets@ == old(self).condition_sets@,
            decreases n - k,
        {
            let ghost before = self.cyclic_executions@;
            let fire = self.cyclic_executions[k].wake_if_should_execute(now);
            let t = self.cyclic_executions[k].tasklet();
            proof {
                assert forall|j: int| 0 <= j < n implies (#[trigger] self.cyclic_executions@[j]).wf()
                    && self.cyclic_executions@[j].tasklet_view() < self.tasklets@.len() by {
                    if j != k {
                        assert(self.cyclic_executions@[j] == before[j]);
                    }
                }
                assert(t == recs[k as int].tasklet_view());
            }
            let ghost mid = self.tasklets_view();
            if fire {
                let _ = self.wake(t);
            }
            proof {
                let w = if fire { set![t] } else { Set::<usize>::empty() };
                assert(woke(mid, self.tasklets_view(), w));
                lemma_woke_trans(old(self).tasklets_view(), mid, self.tasklets_view(), due_tasklets(recs, now, k as int), w);
                assert forall|x: usize| #[trigger] due_tasklets(recs, now, k + 1).contains(x)
                    == due_tasklets(recs, now, k as int).union(w).contains(x) by {
                    if due_tasklets(recs, now, k + 1).contains(x) {
                        let j = choose|j: int| 0 <= j < k + 1 && j < recs.len() && recs[j].tasklet_view() == x && due(recs[j].period_view(), recs[j].next_view(), now);
                        if j < k {
                            assert(due_tasklets(recs, now, k as int).contains(x));
                        }
                    }
                    if due_tasklets(recs, now, k as int).contains(x) {
                        let j = choose|j: int| 0 <= j < k && j < recs.len() && recs[j].tasklet_view() == x && due(recs[j].period_view(), recs[j].next_view(), now);
                        assert(due_tasklets(recs, now, k + 1).contains(x));
                    }
                    if w.contains(x) {
                        assert(due_tasklets(recs, now, k + 1).contains(x));
                    }
                }
                assert(due_tasklets(recs, now, k + 1) =~= due_tasklets(recs, now, k as int).union(w));
                assert forall|j: int| 0 <= j < n implies {
                    let b = recs[j];
                    let a = #[trigger] self.cyclic_executions@[j];
                    &&& a.tasklet_view() == b.tasklet_view()
                    &&& a.period_view() == b.period_view()
                    &&& a.next_view() == if j < k + 1 {
                        after_tick(b.period_view(), b.next_view(), now)
                    } else {
                        b.next_view()
                    }
                } by {
                    if j != k {
                        assert(self.cyclic_executions@[j] == before[j]);
                    }
                }
            }
            k += 1;
        }
    }

    /// Sets a boolean condition. When the value changes, every condition set
    /// that holds it is evaluated again, and each one whose rule then holds
    /// latches a notification and wakes its owner.
    pub fn set_boolean_condition(&mut self, condition: &BooleanConditionHandle, value: bool)
        requires
            old(self).wf(),
            old(self).valid_condition(*condition),
        ensures
            final(self).wf(),
            ({
                let c = condition.index_view() as int;
                let changed = old(self).conditions_view()[c].value_view() != value;
                let idx = old(self).conditions_view()[c].sets_view();
                let values = old(self).condition_values().update(c, value);
                &&& final(self).condition_values() == values
                &&& final(self).conditions_view().len() == old(self).conditions_view().len()
                &&& forall|j: int|
                    0 <= j < old(self).conditions_view().len()
                        ==> (#[trigger] final(self).conditions_view()[j]).sets_view()
                        == old(self).conditions_view()[j].sets_view()
                &&& final(self).condition_sets_view().len() == old(self).condition_sets_view().len()
                &&& forall|s: usize|
                    s < old(self).condition_sets_view().len() ==> {
                        let before = old(self).condition_sets_view()[s as int];
                        let after = #[trigger] final(self).condition_sets_view()[s as int];
                        &&& after.owner_view() == before.owner_view()
                        &&& after.members_view() == before.members_view()
                        &&& after.rule_view() == before.rule_view()
                        &&& after.notified_view() == (before.notified_view() || (changed
                            && prefix_set(idx, idx.len() as int).contains(s) && rule_holds(
                            before.rule_view(),
                            before.members_view(),
                            values,
                        )))
                    }
                &&& changed ==> woke(
                    old(self).tasklets_view(),
                    final(self).tasklets_view(),
                    satisfied_owners(old(self).condition_sets_view(), idx, values, idx.len() as int),
                )
                &&& !changed ==> final(self).tasklets_view() == old(self).tasklets_view()
                &&& changed ==> forall|k: int|
                    0 <= k < idx.len() ==> {
                        let set = old(self).condition_sets_view()[#[trigger] idx[k] as int];
                        rule_holds(set.rule_view(), set.members_view(), values) ==> {
                            &&& final(self).condition_sets_view()[idx[k] as int].notified_view()
                            &&& final(self).status_of(set.owner_view() as int) != TaskStatus::Sleeping
                        }
                    }
            }),
            final(self).in_flight_view() == old(self).in_flight_view(),
            final(self).queues_view() == old(self).queues_view(),
            final(self).events_view() == old(self).events_view(),
            final(self).event_sets_view() == old(self).event_sets_view(),
            final(self).cyclic_view() == old(self).cyclic_view(),
    {
        let ci = condition.index();
        if self.conditions[ci].get_value() == value {
            proof {
                assert(self.condition_values() =~= old(self).condition_values().update(ci as int, value));
                let idx = self.conditions@[ci as int].sets_view();
                assert forall|s: usize| s < self.condition_sets@.len() implies
                    #[trigger] self.condition_sets@[s as int].notified_view() == (self.condition_sets@[s as int].notified_view() || (false
                            && prefix_set(idx, idx.len() as int).contains(s))) by {}
            }
            return;
        }
        let ghost values = self.condition_values().update(ci as int, value);
        let ghost old_cs = self.condition_sets@;
        let ghost idx = self.conditions@[ci as int].sets_view();
        let ghost before_conds = self.conditions@;
        self.conditions[ci].set_value(value);
        proof {
            assert(self.condition_values() =~= values);
            assert forall|c: int| 0 <= c < self.conditions@.len() implies (#[trigger] self.conditions@[c]).wf() by {
                if c != ci {
                    assert(self.conditions@[c] == before_conds[c]);
                }
            }
            assert forall|c: int, k: int|
                0 <= c < self.conditions@.len() && 0 <= k < self.conditions@[c].sets_view().len()
                    implies #[trigger] self.conditions@[c].sets_view()[k] < self.condition_sets@.len() by {
                assert(self.conditions@[c].sets_view() == before_conds[c].sets_view());
            }
            assert forall|j: int| 0 <= j < self.conditions@.len() implies (#[trigger] self.conditions@[j]).sets_view()
                == before_conds[j].sets_view() by {
                if j != ci {
                    assert(self.conditions@[j] == before_conds[j]);
                }
            }
        }
        let n = self.conditions[ci].set_count();
        let mut k: usize = 0;
        proof {
            assert(woke(old(self).tasklets_view(), self.tasklets_view(), satisfied_owners(old_cs, idx, values, 0)));
        }
        while k < n
            invariant
                self.wf(),
                ci < self.conditions@.len(),
                idx == self.conditions@[ci as int].sets_view(),
                n == idx.len(),
                k <= n,
                values == self.condition_values(),
                self.conditions@ == old(self).conditions@.update(ci as int, self.conditions@[ci as int]),
                forall|j: int| 0 <= j < self.conditions@.len() ==> (#[trigger] self.conditions@[j]).sets_view()
                    == old(self).conditions@[j].sets_view(),
                self.conditions@.len() == old(self).conditions@.len(),
                old_cs == old(self).condition_sets@,
                self.condition_sets@.len() == old_cs.len(),
                forall|s: usize|
                    s < old_cs.len() ==> {
                        let before = old_cs[s as int];
                        let after = #[trigger] self.condition_sets@[s as int];
                        &&& after.owner_view() == before.owner_view()
                        &&& after.members_view() == before.members_view()
                        &&& after.rule_view() == before.rule_view()
                        &&& after.notified_view() == (before.notified_view() || (prefix_set(idx, k as int).contains(s)
                            && rule_holds(before.rule_view(), before.members_view(), values)))
                    },
                woke(old(self).tasklets_view(), self.tasklets_view(), satisfied_owners(old_cs, idx, values, k as int)),
                self.in_flight_view() == old(self).in_flight_view(),
                self.queues@ == old(self).queues@,
                self.events@ == old(self).events@,
                self.event_sets@ == old(self).event_sets@,
                self.cyclic_executions@ == old(self).cyclic_executions@,
            decreases n - k,
        {
            let s = self.conditions[ci].set_at(k);
            assert(s < self.condition_sets@.len());
            assert(idx[k as int] == s);
            let ghost sets_before = self.condition_sets@;
            assert forall|x: usize| x < old_cs.len() implies {
                let before = old_cs[x as int];
                let cur = #[trigger] sets_before[x as int];
                &&& cur.owner_view() == before.owner_view()
                &&& cur.members_view() == before.members_view()
                &&& cur.rule_view() == before.rule_view()
                &&& cur.notified_view() == (before.notified_view() || (prefix_set(idx, k as int).contains(x)
                    && rule_holds(before.rule_view(), before.members_view(), values)))
            } by {
                assert(sets_before[x as int] == self.condition_sets@[x as int]);
            }
            proof {
                assert forall|m: int| 0 <= m < self.condition_sets@[s as int].members_view().len()
                    implies #[trigger] self.condition_sets@[s as int].members_view()[m] < self.conditions@.len() by {}
            }
            let holds = self.condition_sets[s].evaluate(&self.conditions);
            let ghost mid = self.tasklets_view();
            if holds {
                self.condition_sets[s].set_notified(true);
                let owner = self.condition_sets[s].owner();
                proof {
                    assert forall|j: int| 0 <= j < self.condition_sets@.len() implies (#[trigger] self.condition_sets@[j]).owner_view()
                        < self.tasklets@.len() by {
                        if j != s {
                            assert(self.condition_sets@[j] == sets_before[j]);
                        }
                    }
                    assert forall|j: int, m: int|
                        0 <= j < self.condition_sets@.len() && 0 <= m < self.condition_sets@[j].members_view().len()
                            implies #[trigger] self.condition_sets@[j].members_view()[m] < self.conditions@.len() by {
                        assert(self.condition_sets@[j].members_view() == sets_before[j].members_view());
                    }
                }
                let _ = self.wake(owner);
            }
            proof {
                let w = if holds { set![old_cs[s as int].owner_view()] } else { Set::<usize>::empty() };
                assert(woke(mid, self.tasklets_view(), w));
                lemma_woke_trans(old(self).tasklets_view(), mid, self.tasklets_view(), satisfied_owners(old_cs, idx, values, k as int), w);
                assert forall|x: usize| #[trigger] satisfied_owners(old_cs, idx, values, k + 1).contains(x)
                    == satisfied_owners(old_cs, idx, values, k as int).union(w).contains(x) by {
                    if satisfied_owners(old_cs, idx, values, k + 1).contains(x) {
                        let j = choose|j: int| 0 <= j < k + 1 && j < idx.len() && old_cs[idx[j] as int].owner_view() == x && rule_holds(
                            old_cs[idx[j] as int].rule_view(), old_cs[idx[j] as int].members_view(), values);
                        if j < k {
                            assert(satisfied_owners(old_cs, idx, values, k as int).contains(x));
                        }
                    }
                    if satisfied_owners(old_cs, idx, values, k as int).contains(x) {
                        let j = choose|j: int| 0 <= j < k && j < idx.len() && old_cs[idx[j] as int].owner_view() == x && rule_holds(
                            old_cs[idx[j] as int].rule_view(), old_cs[idx[j] as int].members_view(), values);
                        assert(satisfied_owners(old_cs, idx, values, k + 1).contains(x));
                    }
                    if w.contains(x) {
                        assert(satisfied_owners(old_cs, idx, values, k + 1).contains(x));
                    }
                }
                assert(satisfied_owners(old_cs, idx, values, k + 1) =~= satisfied_owners(old_cs, idx, values, k as int).union(w));
                lemma_prefix_set_step(idx, k as int);
                assert forall|x: usize| x < old_cs.len() implies {
                    let before = old_cs[x as int];
                    let after = #[trigger] self.condition_sets@[x as int];
                    &&& after.owner_view() == before.owner_view()
                    &&& after.members_view() == before.members_view()
                    &&& after.rule_view() == before.rule_view()
                    &&& after.notified_view() == (before.notified_view() || (prefix_set(idx, k + 1).contains(x)
                        && rule_holds(before.rule_view(), before.members_view(), values)))
                } by {
                    assert(prefix_set(idx, k as int).insert(s).contains(x) == (prefix_set(idx, k as int).contains(x) || x == s));
                    if x != s {
                        assert(self.condition_sets@[x as int] == sets_before[x as int]);
                    }
                }
            }
            k += 1;
        }
        proof {
            assert forall|m: int| 0 <= m < idx.len() implies {
                let set = old_cs[#[trigger] idx[m] as int];
                rule_holds(set.rule_view(), set.members_view(), values) ==> {
                    &&& self.condition_sets@[idx[m] as int].notified_view()
                    &&& self.status_of(set.owner_view() as int) != TaskStatus::Sleeping
                }
            } by {
                let x = idx[m];
                assert(x < old_cs.len());
                assert(prefix_set(idx, n as int).contains(x));
                let set = old_cs[x as int];
                if rule_holds(set.rule_view(), set.members_view(), values) {
                    assert(satisfied_owners(old_cs, idx, values, n as int).contains(set.owner_view()));
                    assert(set.owner_view() < old(self).tasklets@.len());
                }
            }
        }
    }

    /// Whether tasklet `i` has input pending at its data provider.
    pub open spec fn has_work_spec(&self, i: int) -> bool {
        match self.tasklets_view()[i].source_view() {
            Some(DataSource::Queue(q)) => self.queues_view()[q as int].items_view().len() > 0,
            Some(DataSource::Events(s)) => !self.event_sets_view()[s as int].pending_view().is_empty(),
            Some(DataSource::Conditions(s)) => {
                let cs = self.condition_sets_view()[s as int];
                cs.notified_view() && rule_holds(
                    cs.rule_view(),
                    cs.members_view(),
                    self.condition_values(),
                )
            },
            Some(DataSource::Cyclic(_)) => false,
            None => false,
        }
    }

    /// How taking the input of tasklet `i` turns `before` into `after`, and
    /// what it yields.
    pub open spec fn input_taken(before: &Self, after: &Self, i: int, r: Option<StepInput<T>>) -> bool {
        match before.tasklets_view()[i].source_view() {
            Some(DataSource::Queue(q)) => {
                let b = before.queues_view()[q as int];
                let a = after.queues_view()[q as int];
                &&& after.queues_view().len() == before.queues_view().len()
                &&& forall|j: int| 0 <= j < before.queues_view().len() && j != q
                    ==> #[trigger] after.queues_view()[j] == before.queues_view()[j]
                &&& a.capacity_view() == b.capacity_view()
                &&& a.subscribers_view() == b.subscribers_view()
                &&& b.items_view().len() == 0 ==> r is None && a.items_view() == b.items_view()
                &&& b.items_view().len() > 0 ==> r == Some(StepInput::Message(b.items_view()[0]))
                    && a.items_view() == b.items_view().drop_first()
                &&& after.events_view() == before.events_view()
                &&& after.event_sets_view() == before.event_sets_view()
                &&& after.conditions_view() == before.conditions_view()
                &&& after.condition_sets_view() == before.condition_sets_view()
                &&& after.cyclic_view() == before.cyclic_view()
            },
            Some(DataSource::Events(s)) => {
                let b = before.event_sets_view()[s as int];
                let a = after.event_sets_view()[s as int];
                &&& after.event_sets_view().len() == before.event_sets_view().len()
                &&& forall|j: int| 0 <= j < before.event_sets_view().len() && j != s
                    ==> #[trigger] after.event_sets_view()[j] == before.event_sets_view()[j]
                &&& a.owner_view() == b.owner_view()
                &&& a.ids_view() == b.ids_view()
                &&& b.pending_view().is_empty() ==> r is None && a.pending_view() == b.pending_view()
                &&& !b.pending_view().is_empty() ==> (r matches Some(StepInput::Event(id))
                    && b.pending_view().contains(id)
                    && (forall|x: EventId| #[trigger] b.pending_view().contains(x) ==> id <= x)
                    && a.pending_view() == b.pending_view().remove(id))
                &&& after.queues_view() == before.queues_view()
                &&& after.events_view() == before.events_view()
                &&& after.conditions_view() == before.conditions_view()
                &&& after.condition_sets_view() == before.condition_sets_view()
                &&& after.cyclic_view() == before.cyclic_view()
            },
            Some(DataSource::Conditions(s)) => {
                let b = before.condition_sets_view()[s as int];
                let a = after.condition_sets_view()[s as int];
                &&& after.condition_sets_view().len() == before.condition_sets_view().len()
                &&& forall|j: int| 0 <= j < before.condition_sets_view().len() && j != s
                    ==> #[trigger] after.condition_sets_view()[j] == before.condition_sets_view()[j]
                &&& a.owner_view() == b.owner_view()
                &&& a.members_view() == b.members_view()
                &&& a.rule_view() == b.rule_view()
                &&& !a.notified_view()
                &&& r == if b.notified_view() && rule_holds(
                    b.rule_view(),
                    b.members_view(),
                    before.condition_values(),
                ) {
                    Some(StepInput::<T>::Condition(true))
                } else {
                    None
                }
                &&& after.queues_view() == before.queues_view()
                &&& after.events_view() == before.events_view()
                &&& after.event_sets_view() == before.event_sets_view()
                &&& after.conditions_view() == before.conditions_view()
                &&& after.cyclic_view() == before.cyclic_view()
            },
            Some(DataSource::Cyclic(_)) => r == Some(StepInput::<T>::Tick) && after.same_providers(before),
            None => r is None && after.same_providers(before),
        }
    }

    /// Whether the tasklet has input pending at its data provider; a tasklet
    /// bound to no provider, or to a cyclic record, has none.
    pub fn has_work(&self, tasklet: &TaskletHandle) -> (r: bool)
        requires
            self.wf(),
            self.valid_tasklet(*tasklet),
        ensures
            r == self.has_work_spec(tasklet.index_view() as int),
    {
        self.has_work_at(tasklet.index())
    }

    fn has_work_at(&self, i: usize) -> (r: bool)
        requires
            self.wf(),
            i < self.tasklets_view().len(),
        ensures
            r == self.has_work_spec(i as int),
    {
        match self.tasklets[i].get_source() {
            Some(DataSource::Queue(q)) => self.queues[q].data_waiting(),
            Some(DataSource::Events(s)) => self.event_sets[s].data_ready(),
            Some(DataSource::Conditions(s)) => {
                if !self.condition_sets[s].is_notified() {
                    return false;
                }
                proof {
                    assert forall|m: int| 0 <= m < self.condition_sets@[s as int].members_view().len()
                        implies #[trigger] self.condition_sets@[s as int].members_view()[m] < self.conditions@.len() by {}
                }
                self.condition_sets[s].evaluate(&self.conditions)
            },
            Some(DataSource::Cyclic(_)) => false,
            None => false,
        }
    }

    /// Takes the input of tasklet `i` from its data provider.
    fn take_input(&mut self, i: usize) -> (r: Option<StepInput<T>>)
        requires
            old(self).wf(),
            i < old(self).tasklets_view().len(),
        ensures
            final(self).wf(),
            Self::input_taken(old(self), final(self), i as int, r),
            final(self).tasklets_view() == old(self).tasklets_view(),
            final(self).in_flight_view() == old(self).in_flight_view(),
            final(self).stats_view() == old(self).stats_view(),
            final(self).step_start_view() == old(self).step_start_view(),
    {
        match self.tasklets[i].get_source() {
            Some(DataSource::Queue(q)) => {
                let ghost before = self.queues@;
                let v = self.queues[q].get_data();
                proof {
                    assert forall|j: int| 0 <= j < self.queues@.len() implies (#[trigger] self.queues@[j]).wf() by {
                        if j != q {
                            assert(self.queues@[j] == before[j]);
                        }
                    }
                    assert forall|j: int, k: int|
                        0 <= j < self.queues@.len() && 0 <= k < self.queues@[j].subscribers_view().len()
                            implies #[trigger] self.queues@[j].subscribers_view()[k] < self.tasklets@.len() by {
                        assert(before[j].subscribers_view() == self.queues@[j].subscribers_view());
                    }
                }
                match v {
                    Some(x) => Some(StepInput::Message(x)),
                    None => None,
                }
            },
            Some(DataSource::Events(s)) => {
                let ghost before = self.event_sets@;
                let v = self.event_sets[s].get_data();
                proof {
                    assert forall|j: int| 0 <= j < self.event_sets@.len() implies (#[trigger] self.event_sets@[j]).wf()
                        && self.event_sets@[j].owner_view() < self.tasklets@.len() by {
                        if j != s {
                            assert(self.event_sets@[j] == before[j]);
                        }
                    }
                    assert forall|e: int, m: int|
                        0 <= e < self.events@.len() && 0 <= m < self.events@[e].sets_view().len() implies {
                            let x = #[trigger] self.events@[e].sets_view()[m];
                            &&& x < self.event_sets@.len()
                            &&& self.event_sets@[x as int].ids_view().contains(self.events@[e].id_view())
                        } by {
                        let x = self.events@[e].sets_view()[m];
                        assert(before[x as int].ids_view() == self.event_sets@[x as int].ids_view());
                    }
                }
                match v {
                    Some(id) => Some(StepInput::Event(id)),
                    None => None,
                }
            },
            Some(DataSource::Conditions(s)) => {
                let ghost before = self.condition_sets@;
                let notified = self.condition_sets[s].is_notified();
                proof {
                    assert forall|m: int| 0 <= m < self.condition_sets@[s as int].members_view().len()
                        implies #[trigger] self.condition_sets@[s as int].members_view()[m] < self.conditions@.len() by {}
                }
                let holds = self.condition_sets[s].evaluate(&self.conditions);
                self.condition_sets[s].set_notified(false);
                proof {
                    assert forall|j: int| 0 <= j < self.condition_sets@.len() implies (#[trigger] self.condition_sets@[j]).owner_view()
                        < self.tasklets@.len() by {
                        if j != s {
                            assert(self.condition_sets@[j] == before[j]);
                        }
                    }
                    assert forall|j: int, m: int|
                        0 <= j < self.condition_sets@.len() && 0 <= m < self.condition_sets@[j].members_view().len()
                            implies #[trigger] self.condition_sets@[j].members_view()[m] < self.conditions@.len() by {
                        assert(self.condition_sets@[j].members_view() == before[j].members_view());
                    }
                }
                if notified && holds {
                    Some(StepInput::Condition(true))
                } else {
                    None
                }
            },
            Some(DataSource::Cyclic(_)) => Some(StepInput::Tick),
            None => None,
        }
    }

    /// Starts the next step: takes the most urgent waiting tasklet out of the
    /// run queue, marks it working and takes its input from its data
    /// provider. `None` when no tasklet waits. The caller runs the tasklet's
    /// step on the input, when there is one, and then calls `complete_step`.
    pub fn next_step(&mut self, now: Instant) -> (r: Option<(TaskletHandle, Option<StepInput<T>>)>)
        requires
            old(self).wf(),
            old(self).in_flight_view() is None,
        ensures
            final(self).wf(),
            (forall|j: int|
                0 <= j < old(self).tasklets_view().len() ==> old(self).status_of(j)
                    != TaskStatus::Waiting) ==> r is None && final(self).tasklets_view()
                == old(self).tasklets_view() && final(self).same_providers(old(self))
                && final(self).in_flight_view() is None,
            r is None ==> forall|j: int|
                0 <= j < old(self).tasklets_view().len() ==> old(self).status_of(j)
                    != TaskStatus::Waiting,
            r matches Some((h, input)) ==> {
                let i = h.index_view() as int;
                &&& 0 <= i < old(self).tasklets_view().len()
                &&& old(self).status_of(i) == TaskStatus::Waiting
                &&& forall|j: int|
                    0 <= j < old(self).tasklets_view().len() && old(self).status_of(j)
                        == TaskStatus::Waiting ==> entry_le(
                        #[trigger] old(self).entry_of(j),
                        old(self).entry_of(i),
                    )
                &&& final(self).in_flight_view() == Some(i as usize)
                &&& final(self).step_start_view() == now
                &&& final(self).stats_view() == old(self).stats_view()
                &&& final(self).tasklets_view().len() == old(self).tasklets_view().len()
                &&& final(self).status_of(i) == TaskStatus::Working
                &&& same_but_status(old(self).tasklets_view()[i], final(self).tasklets_view()[i])
                &&& forall|j: int|
                    0 <= j < old(self).tasklets_view().len() && j != i
                        ==> #[trigger] final(self).tasklets_view()[j] == old(self).tasklets_view()[j]
                &&& Self::input_taken(old(self), final(self), i, input)
            },
    {
        let ghost ts = self.tasklets@;
        let top = run_queue_pop(&mut self.run_queue);
        match top {
            None => {
                proof {
                    lemma_waiting_count_zero(ts);
                }
                None
            },
            Some((priority, i)) => {
                assert(queued(old(self).run_queue).count((priority, i)) > 0);
                proof {
                    assert forall|j: int|
                        0 <= j < ts.len() && old(self).status_of(j) == TaskStatus::Waiting implies entry_le(
                            #[trigger] old(self).entry_of(j),
                            old(self).entry_of(i as int),
                        ) by {
                        assert(queued(old(self).run_queue).count((ts[j].priority_view(), j as usize)) == 1);
                    }
                }
                self.tasklets[i].set_status(TaskStatus::Working);
                self.in_flight = Some(i);
                self.step_start = now;
                proof {
                    lemma_waiting_count_update(ts, i as int, self.tasklets@[i as int]);
                    assert(self.tasklets@ =~= ts.update(i as int, self.tasklets@[i as int]));
                    let q = queued(self.run_queue);
                    let nts = self.tasklets@;
                    assert forall|e: Entry| #[trigger] q.count(e) > 0 implies {
                        &&& e.1 < nts.len()
                        &&& e.0 == nts[e.1 as int].priority_view()
                        &&& nts[e.1 as int].status_view() == TaskStatus::Waiting
                        &&& q.count(e) == 1
                    } by {
                        assert(queued(old(self).run_queue).count(e) > 0);
                        if e.1 == i {
                            assert(e == (priority, i));
                        }
                    }
                    assert forall|j: int|
                        0 <= j < nts.len() && #[trigger] nts[j].status_view()
                            == TaskStatus::Waiting implies q.count((nts[j].priority_view(), j as usize))
                        == 1 by {
                        assert(j != i);
                        assert(ts[j] == nts[j]);
                    }
                    assert forall|j: int|
                        0 <= j < nts.len() implies (#[trigger] nts[j].status_view() == TaskStatus::Working
                        <==> self.in_flight == Some(j as usize)) by {
                        if j != i {
                            assert(ts[j] == nts[j]);
                        }
                    }
                    assert forall|k: int| 0 <= k < nts.len() implies #[trigger] nts[k].source_view()
                        == ts[k].source_view() by {
                        if k != i {
                            assert(nts[k] == ts[k]);
                        }
                    }
                }
                let input = self.take_input(i);
                Some((TaskletHandle::from_index(i), input))
            },
        }
    }

    /// Completes the step in flight at `now`: records the completion time,
    /// then queues the tasklet again when its provider still has input, and
    /// puts it to sleep otherwise. Returns whether it was queued again.
    pub fn complete_step(&mut self, now: Instant) -> (r: Result<bool, RuntimeError>)
        requires
            old(self).wf(),
            old(self).in_flight_view() is Some,
        ensures
            final(self).wf(),
            final(self).in_flight_view() is None,
            ({
                let i = old(self).in_flight_view()->0 as int;
                let more = old(self).has_work_spec(i);
                &&& r == Ok::<bool, RuntimeError>(more)
                &&& final(self).tasklets_view().len() == old(self).tasklets_view().len()
                &&& final(self).status_of(i) == if more {
                    TaskStatus::Waiting
                } else {
                    TaskStatus::Sleeping
                }
                &&& final(self).tasklets_view()[i].last_time_view() == now
                &&& final(self).stats_view().len() == old(self).stats_view().len()
                &&& recorded(
                    old(self).stats_view()[i],
                    final(self).stats_view()[i],
                    if now.ticks >= old(self).step_start_view().ticks {
                        (now.ticks - old(self).step_start_view().ticks) as u64
                    } else {
                        0
                    },
                )
                &&& forall|j: int| 0 <= j < old(self).stats_view().len() && j != i
                    ==> #[trigger] final(self).stats_view()[j] == old(self).stats_view()[j]
                &&& final(self).tasklets_view()[i].name_view() == old(self).tasklets_view()[i].name_view()
                &&& final(self).tasklets_view()[i].priority_view() == old(self).tasklets_view()[i].priority_view()
                &&& final(self).tasklets_view()[i].source_view() == old(self).tasklets_view()[i].source_view()
                &&& forall|j: int|
                    0 <= j < old(self).tasklets_view().len() && j != i ==> {
                        &&& #[trigger] final(self).status_of(j) == old(self).status_of(j)
                        &&& same_but_status(old(self).tasklets_view()[j], final(self).tasklets_view()[j])
                    }
            }),
            final(self).queues_view() == old(self).queues_view(),
            final(self).events_view() == old(self).events_view(),
            final(self).event_sets_view() == old(self).event_sets_view(),
            final(self).conditions_view() == old(self).conditions_view(),
            final(self).condition_sets_view() == old(self).condition_sets_view(),
            final(self).cyclic_view() == old(self).cyclic_view(),
    {
        let i = match self.in_flight {
            Some(i) => i,
            None => {
                return Ok(false);
            },
        };
        let elapsed = now.saturating_duration_since(self.step_start);
        let ghost before_stats = self.stats@;
        self.stats[i].record(elapsed);
        proof {
            assert forall|j: int| 0 <= j < self.tasklets@.len() implies (#[trigger] self.stats@[j]).wf() by {
                if j != i {
                    assert(self.stats@[j] == before_stats[j]);
                }
            }
        }
        let ghost ts = self.tasklets@;
        self.tasklets[i].set_last_execution_time(now);
        self.tasklets[i].set_status(TaskStatus::Sleeping);
        self.in_flight = None;
        proof {
            lemma_waiting_count_update(ts, i as int, self.tasklets@[i as int]);
            assert(self.tasklets@ =~= ts.update(i as int, self.tasklets@[i as int]));
            let q = queued(self.run_queue);
            let nts = self.tasklets@;
            assert forall|e: Entry| #[trigger] q.count(e) > 0 implies {
                &&& e.1 < nts.len()
                &&& e.0 == nts[e.1 as int].priority_view()
                &&& nts[e.1 as int].status_view() == TaskStatus::Waiting
                &&& q.count(e) == 1
            } by {
                if e.1 == i {
                    assert(ts[i as int].status_view() == TaskStatus::Working);
                }
            }
            assert forall|j: int|
                0 <= j < nts.len() && #[trigger] nts[j].status_view()
                    == TaskStatus::Waiting implies q.count((nts[j].priority_view(), j as usize))
                == 1 by {
                assert(j != i);
                assert(ts[j] == nts[j]);
            }
            assert forall|j: int|
                0 <= j < nts.len() implies (#[trigger] nts[j].status_view() == TaskStatus::Working
                <==> self.in_flight == Some(j as usize)) by {
                if j != i {
                    assert(ts[j] == nts[j]);
                    assert(ts[j].status_view() != TaskStatus::Working);
                }
            }
            assert forall|k: int| 0 <= k < nts.len() implies #[trigger] nts[k].source_view()
                == ts[k].source_view() by {
                if k != i {
                    assert(nts[k] == ts[k]);
                }
            }
        }
        let more = self.has_work_at(i);
        if more {
            let _ = self.wake(i);
        }
        Ok(more)
    }

    /// Wakes a tasklet: a sleeping one starts waiting and enters the run
    /// queue; a waiting or working one is left as it is. Returns whether it
    /// was queued.
    pub fn wake_tasklet(&mut self, tasklet: &TaskletHandle) -> (r: Result<bool, RuntimeError>)
        requires
            old(self).wf(),
            old(self).valid_tasklet(*tasklet),
        ensures
            final(self).wf(),
            r == Ok::<bool, RuntimeError>(
                old(self).status_of(tasklet.index_view() as int) == TaskStatus::Sleeping,
            ),
            woke(old(self).tasklets_view(), final(self).tasklets_view(), set![tasklet.index_view()]),
            final(self).same_providers(old(self)),
            final(self).in_flight_view() == old(self).in_flight_view(),
    {
        self.wake(tasklet.index())
    }

    /// Creates a tasklet in `storage`: sleeping, bound to no provider. Fails
    /// with `TaskletAlreadyCreated`, changing nothing, when the storage
    /// already holds one.
    pub fn create_tasklet(&mut self, config: TaskletConfig, storage: &mut Storage) -> (r: Result<(), InitError>)
        requires
            old(self).wf(),
            old(self).tasklets_view().len() < TASKLET_COUNT,
        ensures
            final(self).wf(),
            final(self).queues_view() == old(self).queues_view(),
            final(self).events_view() == old(self).events_view(),
            final(self).event_sets_view() == old(self).event_sets_view(),
            final(self).conditions_view() == old(self).conditions_view(),
            final(self).condition_sets_view() == old(self).condition_sets_view(),
            final(self).cyclic_view() == old(self).cyclic_view(),
            final(self).in_flight_view() == old(self).in_flight_view(),
            final(self).stats_view().len() == final(self).tasklets_view().len(),
            old(storage).index_view() is Some ==> r == Err::<(), InitError>(InitError::TaskletAlreadyCreated)
                && final(self).tasklets_view() == old(self).tasklets_view() && *final(storage) == *old(storage),
            old(storage).index_view() is None ==> {
                let n = old(self).tasklets_view().len();
                let t = final(self).tasklets_view()[n as int];
                &&& r is Ok
                &&& final(storage).index_view() == Some(n as usize)
                &&& final(storage).handle_taken_view() == old(storage).handle_taken_view()
                &&& final(self).tasklets_view().len() == n + 1
                &&& final(self).tasklets_view().subrange(0, n as int) == old(self).tasklets_view()
                &&& t.name_view() == config.name@
                &&& t.priority_view() == config.priority
                &&& t.status_view() == TaskStatus::Sleeping
                &&& t.last_time_view().ticks == 0
                &&& t.source_view() is None
            },
    {
        if storage.is_initialized() {
            return Err(InitError::TaskletAlreadyCreated);
        }
        let n = self.tasklets.len();
        let ghost ts = self.tasklets@;
        self.tasklets.push(Tasklet::new(config));
        self.stats.push(ExecutionData::new());
        storage.fill(n);
        proof {
            let nts = self.tasklets@;
            assert(nts.drop_last() =~= ts);
            assert(nts.subrange(0, n as int) =~= ts);
            assert forall|j: int| 0 <= j < ts.len() implies #[trigger] nts[j] == ts[j] by {}
            assert forall|e: Entry| #[trigger] queued(self.run_queue).count(e) > 0 implies {
                &&& e.1 < nts.len()
                &&& e.0 == nts[e.1 as int].priority_view()
                &&& nts[e.1 as int].status_view() == TaskStatus::Waiting
                &&& queued(self.run_queue).count(e) == 1
            } by {
                assert(nts[e.1 as int] == ts[e.1 as int]);
            }
            assert forall|j: int|
                0 <= j < nts.len() && #[trigger] nts[j].status_view()
                    == TaskStatus::Waiting implies queued(self.run_queue).count((nts[j].priority_view(), j as usize))
                == 1 by {
                assert(j < ts.len());
            }
            assert forall|j: int|
                0 <= j < nts.len() implies (#[trigger] nts[j].status_view() == TaskStatus::Working
                <==> self.in_flight == Some(j as usize)) by {
                if j == ts.len() {
                    if let Some(i) = self.in_flight {
                        assert(i < ts.len());
                    }
                }
            }
            assert forall|i: int| 0 <= i < nts.len() implies (#[trigger] self.stats@[i]).wf() by {
                if i < ts.len() {
                    assert(self.stats@[i] == old(self).stats@[i]);
                }
            }
            assert forall|i: int| 0 <= i < nts.len() implies match #[trigger] nts[i].source_view() {
                Some(DataSource::Queue(q)) => q < self.queues@.len(),
                Some(DataSource::Events(s)) => s < self.event_sets@.len(),
                Some(DataSource::Conditions(s)) => s < self.condition_sets@.len(),
                Some(DataSource::Cyclic(c)) => c < self.cyclic_executions@.len(),
                None => true,
            } by {
                if i < ts.len() {
                    assert(nts[i] == ts[i]);
                }
            }
        }
        Ok(())
    }

    /// Creates a message queue of the given capacity in `storage`. Fails
    /// with `MessageQueueAlreadyCreated`, changing nothing, when the storage
    /// already holds one.
    pub fn create_message_queue(&mut self, capacity: usize, storage: &mut Storage) -> (r: Result<(), InitError>)
        requires
            old(self).wf(),
        ensures
            final(self).wf(),
            final(self).tasklets_view() == old(self).tasklets_view(),
            final(self).in_flight_view() == old(self).in_flight_view(),
            final(self).events_view() == old(self).events_view(),
            final(self).event_sets_view() == old(self).event_sets_view(),
            final(self).conditions_view() == old(self).conditions_view(),
            final(self).condition_sets_view() == old(self).condition_sets_view(),
            final(self).cyclic_view() == old(self).cyclic_view(),
            old(storage).index_view() is Some ==> r == Err::<(), InitError>(InitError::MessageQueueAlreadyCreated)
                && final(self).queues_view() == old(self).queues_view() && *final(storage) == *old(storage),
            old(storage).index_view() is None ==> {
                let n = old(self).queues_view().len();
                let q = final(self).queues_view()[n as int];
                &&& r is Ok
                &&& final(storage).index_view() == Some(n as usize)
                &&& final(storage).handle_taken_view() == old(storage).handle_taken_view()
                &&& final(self).queues_view().len() == n + 1
                &&& final(self).queues_view().subrange(0, n as int) == old(self).queues_view()
                &&& q.items_view().len() == 0
                &&& q.capacity_view() == capacity
                &&& q.subscribers_view().len() == 0
            },
    {
        if storage.is_initialized() {
            return Err(InitError::MessageQueueAlreadyCreated);
        }
        let n = self.queues.len();
        let ghost qs = self.queues@;
        self.queues.push(MessageQueue::new(capacity));
        storage.fill(n);
        proof {
            assert(self.queues@.subrange(0, n as int) =~= qs);
            assert forall|j: int| 0 <= j < qs.len() implies #[trigger] self.queues@[j] == qs[j] by {}
        }
        Ok(())
    }

    /// Creates an event with the given identifier in `storage`. Fails with
    /// `EventAlreadyCreated`, changing nothing, when the storage already
    /// holds one.
    pub fn create_event(&mut self, id: EventId, storage: &mut Storage) -> (r: Result<(), InitError>)
        requires
            old(self).wf(),
        ensures
            final(self).wf(),
            final(self).tasklets_view() == old(self).tasklets_view(),
            final(self).in_flight_view() == old(self).in_flight_view(),
            final(self).queues_view() == old(self).queues_view(),
            final(self).event_sets_view() == old(self).event_sets_view(),
            final(self).conditions_view() == old(self).conditions_view(),
            final(self).condition_sets_view() == old(self).condition_sets_view(),
            final(self).cyclic_view() == old(self).cyclic_view(),
            old(storage).index_view() is Some ==> r == Err::<(), InitError>(InitError::EventAlreadyCreated)
                && final(self).events_view() == old(self).events_view() && *final(storage) == *old(storage),
            old(storage).index_view() is None ==> {
                let n = old(self).events_view().len();
                let e = final(self).events_view()[n as int];
                &&& r is Ok
                &&& final(storage).index_view() == Some(n as usize)
                &&& final(storage).handle_taken_view() == old(storage).handle_taken_view()
                &&& final(self).events_view().len() == n + 1
                &&& final(self).events_view().subrange(0, n as int) == old(self).events_view()
                &&& e.id_view() == id
                &&& e.sets_view().len() == 0
            },
    {
        if storage.is_initialized() {
            return Err(InitError::EventAlreadyCreated);
        }
        let n = self.events.len();
        let ghost es = self.events@;
        self.events.push(Event::new(id));
        storage.fill(n);
        proof {
            assert(self.events@.subrange(0, n as int) =~= es);
            assert forall|j: int| 0 <= j < es.len() implies #[trigger] self.events@[j] == es[j] by {}
        }
        Ok(())
    }

    /// Creates a boolean condition with the given value in `storage`. Fails
    /// with `BooleanConditionAlreadyCreated`, changing nothing, when the
    /// storage already holds one.
    pub fn create_boolean_condition(&mut self, value: bool, storage: &mut Storage) -> (r: Result<(), InitError>)
        requires
            old(self).wf(),
        ensures
            final(self).wf(),
            final(self).tasklets_view() == old(self).tasklets_view(),
            final(self).in_flight_view() == old(self).in_flight_view(),
            final(self).queues_view() == old(self).queues_view(),
            final(self).events_view() == old(self).events_view(),
            final(self).event_sets_view() == old(self).event_sets_view(),
            final(self).condition_sets_view() == old(self).condition_sets_view(),
            final(self).cyclic_view() == old(self).cyclic_view(),
            old(storage).index_view() is Some ==> r == Err::<(), InitError>(InitError::BooleanConditionAlreadyCreated)
                && final(self).conditions_view() == old(self).conditions_view() && *final(storage) == *old(storage),
            old(storage).index_view() is None ==> {
                let n = old(self).conditions_view().len();
                let c = final(self).conditions_view()[n as int];
                &&& r is Ok
                &&& final(storage).index_view() == Some(n as usize)
                &&& final(storage).handle_taken_view() == old(storage).handle_taken_view()
                &&& final(self).conditions_view().len() == n + 1
                &&& final(self).conditions_view().subrange(0, n as int) == old(self).conditions_view()
                &&& c.value_view() == value
                &&& c.sets_view().len() == 0
            },
    {
        if storage.is_initialized() {
            return Err(InitError::BooleanConditionAlreadyCreated);
        }
        let n = self.conditions.len();
        let ghost cs = self.conditions@;
        self.conditions.push(BooleanCondition::new(value));
        storage.fill(n);
        proof {
            assert(self.conditions@.subrange(0, n as int) =~= cs);
            assert forall|j: int| 0 <= j < cs.len() implies #[trigger] self.conditions@[j] == cs[j] by {}
        }
        Ok(())
    }

    /// Number of tasklets.
    pub fn tasklet_count(&self) -> (r: usize)
        ensures
            r == self.tasklets_view().len(),
    {
        self.tasklets.len()
    }

    /// Name of a tasklet.
    pub fn get_tasklet_name(&self, tasklet: &TaskletHandle) -> (r: &'static str)
        requires
            self.valid_tasklet(*tasklet),
        ensures
            r@ == self.tasklets_view()[tasklet.index_view() as int].name_view(),
    {
        self.tasklets[tasklet.index()].get_name()
    }

    /// Status of a tasklet.
    pub fn get_tasklet_status(&self, tasklet: &TaskletHandle) -> (r: TaskStatus)
        requires
            self.valid_tasklet(*tasklet),
        ensures
            r == self.status_of(tasklet.index_view() as int),
    {
        self.tasklets[tasklet.index()].get_status()
    }

    /// Instant at which a tasklet's last step completed.
    pub fn get_last_execution_time(&self, tasklet: &TaskletHandle) -> (r: Instant)
        requires
            self.valid_tasklet(*tasklet),
        ensures
            r == self.tasklets_view()[tasklet.index_view() as int].last_time_view(),
    {
        self.tasklets[tasklet.index()].get_last_execution_time()
    }

    /// Number of elements in a queue.
    pub fn queue_len(&self, queue: &MessageQueueHandle) -> (r: usize)
        requires
            self.valid_queue(*queue),
        ensures
            r == self.queues_view()[queue.index_view() as int].items_view().len(),
    {
        self.queues[queue.index()].len()
    }

    /// Current value of a condition.
    pub fn get_boolean_condition(&self, condition: &BooleanConditionHandle) -> (r: bool)
        requires
            self.valid_condition(*condition),
        ensures
            r == self.conditions_view()[condition.index_view() as int].value_view(),
    {
        self.conditions[condition.index()].get_value()
    }

    /// Binds tasklet `i`, which is bound to nothing, to `source`, whose
    /// index points into its table.
    fn bind(&mut self, i: usize, source: DataSource)
        requires
            old(self).wf(),
            i < old(self).tasklets_view().len(),
            old(self).tasklets_view()[i as int].source_view() is None,
            match source {
                DataSource::Queue(q) => q < old(self).queues_view().len(),
                DataSource::Events(s) => s < old(self).event_sets_view().len(),
                DataSource::Conditions(s) => s < old(self).condition_sets_view().len(),
                DataSource::Cyclic(c) => c < old(self).cyclic_view().len(),
            },
        ensures
            final(self).wf(),
            bound(old(self).tasklets_view(), final(self).tasklets_view(), i as int, source),
            final(self).same_providers(old(self)),
            final(self).in_flight_view() == old(self).in_flight_view(),
    {
        let ghost ts = self.tasklets@;
        let _ = self.tasklets[i].subscribe(source);
        proof {
            let nts = self.tasklets@;
            assert(nts =~= ts.update(i as int, nts[i as int]));
            lemma_waiting_count_update(ts, i as int, nts[i as int]);
            assert forall|e: Entry| #[trigger] queued(self.run_queue).count(e) > 0 implies {
                &&& e.1 < nts.len()
                &&& e.0 == nts[e.1 as int].priority_view()
                &&& nts[e.1 as int].status_view() == TaskStatus::Waiting
                &&& queued(self.run_queue).count(e) == 1
            } by {
                assert(e.1 < ts.len());
            }
            assert forall|j: int|
                0 <= j < nts.len() && #[trigger] nts[j].status_view()
                    == TaskStatus::Waiting implies queued(self.run_queue).count((nts[j].priority_view(), j as usize))
                == 1 by {
                assert(ts[j].status_view() == TaskStatus::Waiting);
            }
            assert forall|j: int|
                0 <= j < nts.len() implies (#[trigger] nts[j].status_view() == TaskStatus::Working
                <==> self.in_flight == Some(j as usize)) by {
                assert(ts[j].status_view() == nts[j].status_view());
            }
            assert forall|k: int| 0 <= k < nts.len() implies match #[trigger] nts[k].source_view() {
                Some(DataSource::Queue(q)) => q < self.queues@.len(),
                Some(DataSource::Events(s)) => s < self.event_sets@.len(),
                Some(DataSource::Conditions(s)) => s < self.condition_sets@.len(),
                Some(DataSource::Cyclic(c)) => c < self.cyclic_executions@.len(),
                None => true,
            } by {
                if k != i {
                    assert(nts[k] == ts[k]);
                }
            }
        }
    }

    /// Subscribes a tasklet to a queue: the queue wakes it on every send and
    /// feeds it its elements. Fails, changing nothing, with
    /// `DataReceiverAlreadySubscribed` when the tasklet is already bound,
    /// and with `SubscriptionListFull` when the queue has all the
    /// subscribers it can hold.
    pub fn subscribe_tasklet_to_queue(&mut self, tasklet: &TaskletHandle, queue: &MessageQueueHandle) -> (r: Result<(), InitError>)
        requires
            old(self).wf(),
            old(self).valid_tasklet(*tasklet),
            old(self).valid_queue(*queue),
        ensures
            final(self).wf(),
            final(self).in_flight_view() == old(self).in_flight_view(),
            final(self).events_view() == old(self).events_view(),
            final(self).event_sets_view() == old(self).event_sets_view(),
            final(self).conditions_view() == old(self).conditions_view(),
            final(self).condition_sets_view() == old(self).condition_sets_view(),
            final(self).cyclic_view() == old(self).cyclic_view(),
            ({
                let t = tasklet.index_view();
                let q = queue.index_view() as int;
                let bq = old(self).queues_view()[q];
                let aq = final(self).queues_view()[q];
                &&& old(self).tasklets_view()[t as int].source_view() is Some ==> r == Err::<(), InitError>(
                    InitError::DataReceiverAlreadySubscribed,
                ) && final(self).tasklets_view() == old(self).tasklets_view() && final(self).queues_view()
                    == old(self).queues_view()
                &&& old(self).tasklets_view()[t as int].source_view() is None && bq.subscribers_view().len()
                    >= TASKLET_COUNT ==> r == Err::<(), InitError>(InitError::SubscriptionListFull)
                    && final(self).tasklets_view() == old(self).tasklets_view() && final(self).queues_view()
                    == old(self).queues_view()
                &&& old(self).tasklets_view()[t as int].source_view() is None && bq.subscribers_view().len()
                    < TASKLET_COUNT ==> {
                    &&& r is Ok
                    &&& bound(old(self).tasklets_view(), final(self).tasklets_view(), t as int, DataSource::Queue(q as usize))
                    &&& final(self).queues_view().len() == old(self).queues_view().len()
                    &&& aq.subscribers_view() == bq.subscribers_view().push(t)
                    &&& aq.items_view() == bq.items_view()
                    &&& aq.capacity_view() == bq.capacity_view()
                    &&& forall|j: int| 0 <= j < old(self).queues_view().len() && j != q
                        ==> #[trigger] final(self).queues_view()[j] == old(self).queues_view()[j]
                }
            }),
    {
        let t = tasklet.index();
        let q = queue.index();
        if self.tasklets[t].get_source().is_some() {
            return Err(InitError::DataReceiverAlreadySubscribed);
        }
        if !self.queues[q].has_room() {
            return Err(InitError::SubscriptionListFull);
        }
        let ghost before = self.queues@;
        let _ = self.queues[q].register_tasklet(t);
        proof {
            assert forall|j: int| 0 <= j < self.queues@.len() implies (#[trigger] self.queues@[j]).wf() by {
                if j != q {
                    assert(self.queues@[j] == before[j]);
                }
            }
            assert forall|j: int, k: int|
                0 <= j < self.queues@.len() && 0 <= k < self.queues@[j].subscribers_view().len()
                    implies #[trigger] self.queues@[j].subscribers_view()[k] < self.tasklets@.len() by {
                if j != q {
                    assert(self.queues@[j] == before[j]);
                } else if k < before[j].subscribers_view().len() {
                    assert(self.queues@[j].subscribers_view()[k] == before[j].subscribers_view()[k]);
                }
            }
        }
        self.bind(t, DataSource::Queue(q));
        Ok(())
    }

    /// Subscribes a tasklet to cyclic execution: the time manager wakes it
    /// every `period`, from `offset` after start, or on every tick when
    /// there is no period. Fails, changing nothing, with
    /// `DataReceiverAlreadySubscribed` when the tasklet is already bound,
    /// and with `CyclicExecutionListFull` when the time manager holds as many
    /// records as it can.
    pub fn subscribe_tasklet_to_cyclic(
        &mut self,
        tasklet: &TaskletHandle,
        period: Option<Duration>,
        offset: Option<Duration>,
    ) -> (r: Result<(), InitError>)
        requires
            old(self).wf(),
            old(self).valid_tasklet(*tasklet),
            period matches Some(p) ==> p.ticks > 0,
        ensures
            final(self).wf(),
            final(self).in_flight_view() == old(self).in_flight_view(),
            final(self).queues_view() == old(self).queues_view(),
            final(self).events_view() == old(self).events_view(),
            final(self).event_sets_view() == old(self).event_sets_view(),
            final(self).conditions_view() == old(self).conditions_view(),
            final(self).condition_sets_view() == old(self).condition_sets_view(),
            ({
                let t = tasklet.index_view();
                let n = old(self).cyclic_view().len();
                &&& old(self).tasklets_view()[t as int].source_view() is Some ==> r == Err::<(), InitError>(
                    InitError::DataReceiverAlreadySubscribed,
                ) && final(self).tasklets_view() == old(self).tasklets_view() && final(self).cyclic_view()
                    == old(self).cyclic_view()
                &&& old(self).tasklets_view()[t as int].source_view() is None && n >= TASKLET_COUNT
                    ==> r == Err::<(), InitError>(InitError::CyclicExecutionListFull)
                    && final(self).tasklets_view() == old(self).tasklets_view() && final(self).cyclic_view()
                    == old(self).cyclic_view()
                &&& old(self).tasklets_view()[t as int].source_view() is None && n < TASKLET_COUNT ==> {
                    let c = final(self).cyclic_view()[n as int];
                    &&& r is Ok
                    &&& bound(old(self).tasklets_view(), final(self).tasklets_view(), t as int, DataSource::Cyclic(n as usize))
                    &&& final(self).cyclic_view().len() == n + 1
                    &&& final(self).cyclic_view().subrange(0, n as int) == old(self).cyclic_view()
                    &&& c.tasklet_view() == t
                    &&& c.period_view() == period
                    &&& c.next_view().ticks == match offset {
                        Some(o) => o.ticks,
                        None => 0,
                    }
                }
            }),
    {
        let t = tasklet.index();
        if self.tasklets[t].get_source().is_some() {
            return Err(InitError::DataReceiverAlreadySubscribed);
        }
        if self.cyclic_executions.len() >= TASKLET_COUNT {
            return Err(InitError::CyclicExecutionListFull);
        }
        let n = self.cyclic_executions.len();
        let ghost cs = self.cyclic_executions@;
        self.cyclic_executions.push(CyclicExecution::new(t, period, offset));
        proof {
            assert(self.cyclic_executions@.subrange(0, n as int) =~= cs);
            assert forall|j: int| 0 <= j < cs.len() implies #[trigger] self.cyclic_executions@[j] == cs[j] by {}
        }
        self.bind(t, DataSource::Cyclic(n));
        Ok(())
    }

    /// The distinct event indices that `hs` names, and the distinct ids of
    /// those events.
    fn collect_events(&self, hs: &Vec<EventHandle>) -> (r: (Vec<usize>, Vec<EventId>))
        requires
            forall|k: int| 0 <= k < hs@.len() ==> self.valid_event(#[trigger] hs@[k]),
        ensures
            r.0@.no_duplicates(),
            r.1@.no_duplicates(),
            r.0@.to_set() == event_indices(hs@, hs@.len() as int),
            r.1@.to_set() == event_ids(self.events_view(), event_indices(hs@, hs@.len() as int)),
            forall|k: int| 0 <= k < r.0@.len() ==> #[trigger] r.0@[k] < self.events_view().len(),
    {
        let mut idxs: Vec<usize> = Vec::new();
        let mut ids: Vec<EventId> = Vec::new();
        let mut k: usize = 0;
        while k < hs.len()
            invariant
                k <= hs@.len(),
                forall|j: int| 0 <= j < hs@.len() ==> self.valid_event(#[trigger] hs@[j]),
                idxs@.no_duplicates(),
                ids@.no_duplicates(),
                idxs@.to_set() == event_indices(hs@, k as int),
                ids@.to_set() == event_ids(self.events@, event_indices(hs@, k as int)),
                forall|j: int| 0 <= j < idxs@.len() ==> #[trigger] idxs@[j] < self.events@.len(),
            decreases hs@.len() - k,
        {
            let e = hs[k].index();
            assert(self.valid_event(hs@[k as int]));
            let id = self.events[e].id();
            let ghost old_idxs = idxs@;
            let ghost old_ids = ids@;
            if !contains_index(&idxs, e) {
                idxs.push(e);
            }
            if !contains_id(&ids, id) {
                ids.push(id);
            }
            proof {
                assert forall|x: usize| #[trigger] event_indices(hs@, k + 1).contains(x)
                    == event_indices(hs@, k as int).insert(e).contains(x) by {
                    if event_indices(hs@, k + 1).contains(x) {
                        let w = choose|w: int| 0 <= w < k + 1 && w < hs@.len() && hs@[w].index_view() == x;
                        if w < k {
                            assert(event_indices(hs@, k as int).contains(x));
                        }
                    }
                    if event_indices(hs@, k as int).contains(x) {
                        let w = choose|w: int| 0 <= w < k && w < hs@.len() && hs@[w].index_view() == x;
                        assert(event_indices(hs@, k + 1).contains(x));
                    }
                    if x == e {
                        assert(event_indices(hs@, k + 1).contains(x));
                    }
                }
                assert(event_indices(hs@, k + 1) =~= event_indices(hs@, k as int).insert(e));
                assert(idxs@.to_set() =~= old_idxs.to_set().insert(e)) by {
                    if !old_idxs.contains(e) {
                        assert(idxs@ == old_idxs.push(e));
                        assert forall|x: usize| #[trigger] idxs@.contains(x) == (old_idxs.contains(x) || x == e) by {
                            if idxs@.contains(x) {
                                let w = choose|w: int| 0 <= w < idxs@.len() && idxs@[w] == x;
                                if w < old_idxs.len() {
                                    assert(old_idxs[w] == x);
                                }
                            }
                            if old_idxs.contains(x) {
                                let w = choose|w: int| 0 <= w < old_idxs.len() && old_idxs[w] == x;
                                assert(idxs@[w] == x);
                            }
                            if x == e {
                                assert(idxs@[old_idxs.len() as int] == e);
                            }
                        }
                    }
                }
                assert(ids@.to_set() =~= old_ids.to_set().insert(id)) by {
                    if !old_ids.contains(id) {
                        assert(ids@ == old_ids.push(id));
                        assert forall|x: EventId| #[trigger] ids@.contains(x) == (old_ids.contains(x) || x == id) by {
                            if ids@.contains(x) {
                                let w = choose|w: int| 0 <= w < ids@.len() && ids@[w] == x;
                                if w < old_ids.len() {
                                    assert(old_ids[w] == x);
                                }
                            }
                            if old_ids.contains(x) {
                                let w = choose|w: int| 0 <= w < old_ids.len() && old_ids[w] == x;
                                assert(ids@[w] == x);
                            }
                            if x == id {
                                assert(ids@[old_ids.len() as int] == id);
                            }
                        }
                    }
                }
                assert forall|x: EventId| #[trigger] event_ids(self.events@, event_indices(hs@, k + 1)).contains(x)
                    == event_ids(self.events@, event_indices(hs@, k as int)).insert(id).contains(x) by {
                    if event_ids(self.events@, event_indices(hs@, k + 1)).contains(x) {
                        let w = choose|w: usize| event_indices(hs@, k + 1).contains(w) && self.events@[w as int].id_view() == x;
                        if w != e {
                            assert(event_ids(self.events@, event_indices(hs@, k as int)).contains(x));
                        }
                    }
                    if event_ids(self.events@, event_indices(hs@, k as int)).contains(x) {
                        let w = choose|w: usize| event_indices(hs@, k as int).contains(w) && self.events@[w as int].id_view() == x;
                        assert(event_indices(hs@, k + 1).contains(w));
                    }
                    if x == id {
                        assert(event_indices(hs@, k + 1).contains(e));
                    }
                }
                assert(event_ids(self.events@, event_indices(hs@, k + 1)) =~= event_ids(self.events@, event_indices(hs@, k as int)).insert(id));
                assert forall|j: int| 0 <= j < idxs@.len() implies #[trigger] idxs@[j] < self.events@.len() by {
                    if j < old_idxs.len() {
                        assert(idxs@[j] == old_idxs[j]);
                    }
                }
            }
            k += 1;
        }
        (idxs, ids)
    }

    /// Whether every event at `idxs` can be registered in one more set.
    fn events_have_room(&self, idxs: &Vec<usize>) -> (r: bool)
        requires
            forall|j: int| 0 <= j < idxs@.len() ==> #[trigger] idxs@[j] < self.events_view().len(),
        ensures
            r == forall|j: int| 0 <= j < idxs@.len() ==> self.events_view()[#[trigger] idxs@[j] as int].sets_view().len() < TASKLET_COUNT,
    {
        let mut k: usize = 0;
        while k < idxs.len()
            invariant
                k <= idxs@.len(),
                forall|j: int| 0 <= j < idxs@.len() ==> #[trigger] idxs@[j] < self.events@.len(),
                forall|j: int| 0 <= j < k ==> self.events@[#[trigger] idxs@[j] as int].sets_view().len() < TASKLET_COUNT,
            decreases idxs@.len() - k,
        {
            if !self.events[idxs[k]].has_room() {
                return false;
            }
            k += 1;
        }
        true
    }

    /// Subscribes a tasklet to a set of events: a new event set over them
    /// feeds it, and each of the events is registered in that set. Fails,
    /// changing nothing, with `DataReceiverAlreadySubscribed` when the
    /// tasklet is already bound, and with `EventSetListFull` when one of the
    /// events is registered in as many sets as it can be.
    pub fn subscribe_tasklet_to_events(&mut self, tasklet: &TaskletHandle, events: &Vec<EventHandle>) -> (r: Result<(), InitError>)
        requires
            old(self).wf(),
            old(self).valid_tasklet(*tasklet),
            forall|k: int| 0 <= k < events@.len() ==> old(self).valid_event(#[trigger] events@[k]),
        ensures
            final(self).wf(),
            final(self).in_flight_view() == old(self).in_flight_view(),
            final(self).queues_view() == old(self).queues_view(),
            final(self).conditions_view() == old(self).conditions_view(),
            final(self).condition_sets_view() == old(self).condition_sets_view(),
            final(self).cyclic_view() == old(self).cyclic_view(),
            ({
                let t = tasklet.index_view();
                let es = event_indices(events@, events@.len() as int);
                let n = old(self).event_sets_view().len();
                let free = forall|e: usize| #[trigger] es.contains(e) ==> old(self).events_view()[e as int].sets_view().len() < TASKLET_COUNT;
                &&& old(self).tasklets_view()[t as int].source_view() is Some ==> r == Err::<(), InitError>(
                    InitError::DataReceiverAlreadySubscribed,
                ) && final(self).tasklets_view() == old(self).tasklets_view() && final(self).events_view()
                    == old(self).events_view() && final(self).event_sets_view() == old(self).event_sets_view()
                &&& old(self).tasklets_view()[t as int].source_view() is None && !free ==> r == Err::<(), InitError>(
                    InitError::EventSetListFull,
                ) && final(self).tasklets_view() == old(self).tasklets_view() && final(self).events_view()
                    == old(self).events_view() && final(self).event_sets_view() == old(self).event_sets_view()
                &&& old(self).tasklets_view()[t as int].source_view() is None && free ==> {
                    let set = final(self).event_sets_view()[n as int];
                    &&& r is Ok
                    &&& bound(old(self).tasklets_view(), final(self).tasklets_view(), t as int, DataSource::Events(n as usize))
                    &&& final(self).event_sets_view().len() == n + 1
                    &&& final(self).event_sets_view().subrange(0, n as int) == old(self).event_sets_view()
                    &&& set.owner_view() == t
                    &&& set.ids_view().to_set() == event_ids(old(self).events_view(), es)
                    &&& set.pending_view().is_empty()
                    &&& final(self).events_view().len() == old(self).events_view().len()
                    &&& forall|e: usize| e < old(self).events_view().len() ==> {
                        let b = old(self).events_view()[e as int];
                        let a = #[trigger] final(self).events_view()[e as int];
                        &&& a.id_view() == b.id_view()
                        &&& a.sets_view() == if es.contains(e) { b.sets_view().push(n as usize) } else { b.sets_view() }
                    }
                }
            }),
    {
        let t = tasklet.index();
        if self.tasklets[t].get_source().is_some() {
            return Err(InitError::DataReceiverAlreadySubscribed);
        }
        let (idxs, ids) = self.collect_events(events);
        let ghost es = event_indices(events@, events@.len() as int);
        if !self.events_have_room(&idxs) {
            proof {
                let j = choose|j: int| 0 <= j < idxs@.len() && self.events@[idxs@[j] as int].sets_view().len() >= TASKLET_COUNT;
                assert(idxs@.to_set().contains(idxs@[j]));
            }
            return Err(InitError::EventSetListFull);
        }
        proof {
            assert forall|e: usize| #[trigger] es.contains(e) implies old(self).events_view()[e as int].sets_view().len() < TASKLET_COUNT by {
                assert(idxs@.to_set().contains(e));
                let j = choose|j: int| 0 <= j < idxs@.len() && idxs@[j] == e;
            }
        }
        let s = self.event_sets.len();
        let ghost old_sets = self.event_sets@;
        let ghost old_events = self.events@;
        self.event_sets.push(EventSet::new(t, ids));
        proof {
            assert(self.event_sets@.subrange(0, s as int) =~= old_sets);
            assert forall|j: int| 0 <= j < old_sets.len() implies #[trigger] self.event_sets@[j] == old_sets[j] by {}
            assert(self.event_sets@[s as int].pending_view().is_empty());
        }
        let mut k: usize = 0;
        while k < idxs.len()
            invariant
                self.wf(),
                k <= idxs@.len(),
                idxs@.no_duplicates(),
                idxs@.to_set() == es,
                forall|j: int| 0 <= j < idxs@.len() ==> #[trigger] idxs@[j] < self.events@.len(),
                forall|e: usize| #[trigger] es.contains(e) ==> old_events[e as int].sets_view().len() < TASKLET_COUNT,
                self.event_sets@.len() == s + 1,
                self.event_sets@.subrange(0, s as int) == old_sets,
                self.event_sets@[s as int].owner_view() == t,
                self.event_sets@[s as int].ids_view() == ids@,
                self.event_sets@[s as int].pending_view().is_empty(),
                ids@.to_set() == event_ids(old_events, es),
                self.events@.len() == old_events.len(),
                forall|e: usize| e < old_events.len() ==> {
                    let b = old_events[e as int];
                    let a = #[trigger] self.events@[e as int];
                    &&& a.id_view() == b.id_view()
                    &&& a.sets_view() == if prefix_set(idxs@, k as int).contains(e) { b.sets_view().push(s) } else { b.sets_view() }
                },
                self.tasklets@ == old(self).tasklets@,
                self.in_flight == old(self).in_flight,
                self.run_queue == old(self).run_queue,
                self.queues@ == old(self).queues@,
                self.conditions@ == old(self).conditions@,
                self.condition_sets@ == old(self).condition_sets@,
                self.cyclic_executions@ == old(self).cyclic_executions@,
            decreases idxs@.len() - k,
        {
            let e = idxs[k];
            let ghost before = self.events@;
            proof {
                assert(es.contains(e));
                assert(!prefix_set(idxs@, k as int).contains(e)) by {
                    if prefix_set(idxs@, k as int).contains(e) {
                        let w = choose|w: int| 0 <= w < k && w < idxs@.len() && idxs@[w] == e;
                    }
                }
                assert(before[e as int].sets_view() == old_events[e as int].sets_view());
            }
            let _ = self.events[e].add_set(s);
            proof {
                lemma_prefix_set_step(idxs@, k as int);
                assert(self.event_sets@[s as int].ids_view().contains(self.events@[e as int].id_view())) by {
                    assert(event_ids(old_events, es).contains(old_events[e as int].id_view()));
                    assert(ids@.to_set().contains(old_events[e as int].id_view()));
                }
                assert forall|x: usize| x < old_events.len() implies {
                    let b = old_events[x as int];
                    let a = #[trigger] self.events@[x as int];
                    &&& a.id_view() == b.id_view()
                    &&& a.sets_view() == if prefix_set(idxs@, k + 1).contains(x) { b.sets_view().push(s) } else { b.sets_view() }
                } by {
                    if x != e {
                        assert(self.events@[x as int] == before[x as int]);
                    }
                }
                assert forall|j: int| 0 <= j < self.events@.len() implies (#[trigger] self.events@[j]).wf() by {
                    if j != e {
                        assert(self.events@[j] == before[j]);
                    }
                }
                assert forall|j: int, m: int|
                    0 <= j < self.events@.len() && 0 <= m < self.events@[j].sets_view().len() implies {
                        let x = #[trigger] self.events@[j].sets_view()[m];
                        &&& x < self.event_sets@.len()
                        &&& self.event_sets@[x as int].ids_view().contains(self.events@[j].id_view())
                    } by {
                    if j != e {
                        assert(self.events@[j] == before[j]);
                    } else if m < before[j].sets_view().len() {
                        assert(self.events@[j].sets_view()[m] == before[j].sets_view()[m]);
                    }
                }
            }
            k += 1;
        }
        proof {
            assert forall|x: usize| x < old_events.len() implies #[trigger] prefix_set(idxs@, idxs@.len() as int).contains(x) == es.contains(x) by {
                if es.contains(x) {
                    assert(idxs@.to_set().contains(x));
                }
            }
        }
        self.bind(t, DataSource::Events(s));
        Ok(())
    }

    /// The distinct condition indices that `hs` names.
    fn collect_conditions(&self, hs: &Vec<BooleanConditionHandle>) -> (r: Vec<usize>)
        requires
            forall|k: int| 0 <= k < hs@.len() ==> self.valid_condition(#[trigger] hs@[k]),
        ensures
            r@.no_duplicates(),
            r@.to_set() == condition_indices(hs@, hs@.len() as int),
            forall|k: int| 0 <= k < r@.len() ==> #[trigger] r@[k] < self.conditions_view().len(),
    {
        let mut idxs: Vec<usize> = Vec::new();
        let mut k: usize = 0;
        while k < hs.len()
            invariant
                k <= hs@.len(),
                forall|j: int| 0 <= j < hs@.len() ==> self.valid_condition(#[trigger] hs@[j]),
                idxs@.no_duplicates(),
                idxs@.to_set() == condition_indices(hs@, k as int),
                forall|j: int| 0 <= j < idxs@.len() ==> #[trigger] idxs@[j] < self.conditions@.len(),
            decreases hs@.len() - k,
        {
            let c = hs[k].index();
            assert(self.valid_condition(hs@[k as int]));
            let ghost old_idxs = idxs@;
            if !contains_index(&idxs, c) {
                idxs.push(c);
            }
            proof {
                assert forall|x: usize| #[trigger] condition_indices(hs@, k + 1).contains(x)
                    == condition_indices(hs@, k as int).insert(c).contains(x) by {
                    if condition_indices(hs@, k + 1).contains(x) {
                        let w = choose|w: int| 0 <= w < k + 1 && w < hs@.len() && hs@[w].index_view() == x;
                        if w < k {
                            assert(condition_indices(hs@, k as int).contains(x));
                        }
                    }
                    if condition_indices(hs@, k as int).contains(x) {
                        let w = choose|w: int| 0 <= w < k && w < hs@.len() && hs@[w].index_view() == x;
                        assert(condition_indices(hs@, k + 1).contains(x));
                    }
                    if x == c {
                        assert(condition_indices(hs@, k + 1).contains(x));
                    }
                }
                assert(condition_indices(hs@, k + 1) =~= condition_indices(hs@, k as int).insert(c));
                assert(idxs@.to_set() =~= old_idxs.to_set().insert(c)) by {
                    if !old_idxs.contains(c) {
                        assert(idxs@ == old_idxs.push(c));
                        assert forall|x: usize| #[trigger] idxs@.contains(x) == (old_idxs.contains(x) || x == c) by {
                            if idxs@.contains(x) {
                                let w = choose|w: int| 0 <= w < idxs@.len() && idxs@[w] == x;
                                if w < old_idxs.len() {
                                    assert(old_idxs[w] == x);
                                }
                            }
                            if old_idxs.contains(x) {
                                let w = choose|w: int| 0 <= w < old_idxs.len() && old_idxs[w] == x;
                                assert(idxs@[w] == x);
                            }
                            if x == c {
                                assert(idxs@[old_idxs.len() as int] == c);
                            }
                        }
                    }
                }
                assert forall|j: int| 0 <= j < idxs@.len() implies #[trigger] idxs@[j] < self.conditions@.len() by {
                    if j < old_idxs.len() {
                        assert(idxs@[j] == old_idxs[j]);
                    }
                }
            }
            k += 1;
        }
        idxs
    }

    /// Whether every condition at `idxs` can be referred to by one more set.
    fn conditions_have_room(&self, idxs: &Vec<usize>) -> (r: bool)
        requires
            forall|j: int| 0 <= j < idxs@.len() ==> #[trigger] idxs@[j] < self.conditions_view().len(),
        ensures
            r == forall|j: int| 0 <= j < idxs@.len() ==> self.conditions_view()[#[trigger] idxs@[j] as int].sets_view().len() < TASKLET_COUNT,
    {
        let mut k: usize = 0;
        while k < idxs.len()
            invariant
                k <= idxs@.len(),
                forall|j: int| 0 <= j < idxs@.len() ==> #[trigger] idxs@[j] < self.conditions@.len(),
                forall|j: int| 0 <= j < k ==> self.conditions@[#[trigger] idxs@[j] as int].sets_view().len() < TASKLET_COUNT,
            decreases idxs@.len() - k,
        {
            if !self.conditions[idxs[k]].has_room() {
                return false;
            }
            k += 1;
        }
        true
    }

    /// Subscribes a tasklet to a set of conditions composed by `rule`: a new
    /// condition set over them feeds it, and each condition refers to that
    /// set. Fails, changing nothing, with `DataReceiverAlreadySubscribed`
    /// when the tasklet is already bound, and with `SubscriptionListFull`
    /// when one of the conditions is referred to by as many sets as it can be.
    pub fn subscribe_tasklet_to_conditions(
        &mut self,
        tasklet: &TaskletHandle,
        conditions: &Vec<BooleanConditionHandle>,
        rule: BooleanConditionSetType,
    ) -> (r: Result<(), InitError>)
        requires
            old(self).wf(),
            old(self).valid_tasklet(*tasklet),
            forall|k: int| 0 <= k < conditions@.len() ==> old(self).valid_condition(#[trigger] conditions@[k]),
        ensures
            final(self).wf(),
            final(self).in_flight_view() == old(self).in_flight_view(),
            final(self).queues_view() == old(self).queues_view(),
            final(self).events_view() == old(self).events_view(),
            final(self).event_sets_view() == old(self).event_sets_view(),
            final(self).cyclic_view() == old(self).cyclic_view(),
            final(self).condition_values() == old(self).condition_values(),
            ({
                let t = tasklet.index_view();
                let cs = condition_indices(conditions@, conditions@.len() as int);
                let n = old(self).condition_sets_view().len();
                let free = forall|c: usize| #[trigger] cs.contains(c) ==> old(self).conditions_view()[c as int].sets_view().len() < TASKLET_COUNT;
                &&& old(self).tasklets_view()[t as int].source_view() is Some ==> r == Err::<(), InitError>(
                    InitError::DataReceiverAlreadySubscribed,
                ) && final(self).tasklets_view() == old(self).tasklets_view() && final(self).conditions_view()
                    == old(self).conditions_view() && final(self).condition_sets_view() == old(self).condition_sets_view()
                &&& old(self).tasklets_view()[t as int].source_view() is None && !free ==> r == Err::<(), InitError>(
                    InitError::SubscriptionListFull,
                ) && final(self).tasklets_view() == old(self).tasklets_view() && final(self).conditions_view()
                    == old(self).conditions_view() && final(self).condition_sets_view() == old(self).condition_sets_view()
                &&& old(self).tasklets_view()[t as int].source_view() is None && free ==> {
                    let set = final(self).condition_sets_view()[n as int];
                    &&& r is Ok
                    &&& bound(old(self).tasklets_view(), final(self).tasklets_view(), t as int, DataSource::Conditions(n as usize))
                    &&& final(self).condition_sets_view().len() == n + 1
                    &&& final(self).condition_sets_view().subrange(0, n as int) == old(self).condition_sets_view()
                    &&& set.owner_view() == t
                    &&& set.members_view().to_set() == cs
                    &&& set.rule_view() == rule
                    &&& !set.notified_view()
                    &&& final(self).conditions_view().len() == old(self).conditions_view().len()
                    &&& forall|c: usize| c < old(self).conditions_view().len() ==> {
                        let b = old(self).conditions_view()[c as int];
                        let a = #[trigger] final(self).conditions_view()[c as int];
                        &&& a.value_view() == b.value_view()
                        &&& a.sets_view() == if cs.contains(c) { b.sets_view().push(n as usize) } else { b.sets_view() }
                    }
                }
            }),
    {
        let t = tasklet.index();
        if self.tasklets[t].get_source().is_some() {
            return Err(InitError::DataReceiverAlreadySubscribed);
        }
        let idxs = self.collect_conditions(conditions);
        let ghost cs = condition_indices(conditions@, conditions@.len() as int);
        if !self.conditions_have_room(&idxs) {
            proof {
                let j = choose|j: int| 0 <= j < idxs@.len() && self.conditions@[idxs@[j] as int].sets_view().len() >= TASKLET_COUNT;
                assert(idxs@.to_set().contains(idxs@[j]));
            }
            return Err(InitError::SubscriptionListFull);
        }
        proof {
            assert forall|c: usize| #[trigger] cs.contains(c) implies old(self).conditions_view()[c as int].sets_view().len() < TASKLET_COUNT by {
                assert(idxs@.to_set().contains(c));
                let j = choose|j: int| 0 <= j < idxs@.len() && idxs@[j] == c;
            }
        }
        let s = self.condition_sets.len();
        let ghost old_sets = self.condition_sets@;
        let ghost old_conds = self.conditions@;
        let ghost members = idxs@;
        let mut k: usize = 0;
        let n = idxs.len();
        self.condition_sets.push(BooleanConditionSet::new(t, idxs, rule));
        proof {
            assert(self.condition_sets@.subrange(0, s as int) =~= old_sets);
            assert forall|j: int| 0 <= j < old_sets.len() implies #[trigger] self.condition_sets@[j] == old_sets[j] by {}
        }
        while k < n
            invariant
                self.wf(),
                k <= n,
                n == members.len(),
                members.no_duplicates(),
                members.to_set() == cs,
                forall|j: int| 0 <= j < members.len() ==> #[trigger] members[j] < self.conditions@.len(),
                forall|c: usize| #[trigger] cs.contains(c) ==> old_conds[c as int].sets_view().len() < TASKLET_COUNT,
                self.condition_sets@.len() == s + 1,
                self.condition_sets@.subrange(0, s as int) == old_sets,
                self.condition_sets@[s as int].owner_view() == t,
                self.condition_sets@[s as int].members_view() == members,
                self.condition_sets@[s as int].rule_view() == rule,
                !self.condition_sets@[s as int].notified_view(),
                self.conditions@.len() == old_conds.len(),
                old_conds == old(self).conditions@,
                forall|c: usize| c < old_conds.len() ==> {
                    let b = old_conds[c as int];
                    let a = #[trigger] self.conditions@[c as int];
                    &&& a.value_view() == b.value_view()
                    &&& a.sets_view() == if prefix_set(members, k as int).contains(c) { b.sets_view().push(s) } else { b.sets_view() }
                },
                self.tasklets@ == old(self).tasklets@,
                self.in_flight == old(self).in_flight,
                self.run_queue == old(self).run_queue,
                self.queues@ == old(self).queues@,
                self.events@ == old(self).events@,
                self.event_sets@ == old(self).event_sets@,
                self.cyclic_executions@ == old(self).cyclic_executions@,
            decreases n - k,
        {
            let c = self.condition_sets[s].member(k);
            let ghost before = self.conditions@;
            proof {
                assert(cs.contains(c));
                assert(!prefix_set(members, k as int).contains(c)) by {
                    if prefix_set(members, k as int).contains(c) {
                        let w = choose|w: int| 0 <= w < k && w < members.len() && members[w] == c;
                    }
                }
                assert(before[c as int].sets_view() == old_conds[c as int].sets_view());
            }
            let _ = self.conditions[c].add_set(s);
            proof {
                lemma_prefix_set_step(members, k as int);
                assert forall|x: usize| x < old_conds.len() implies {
                    let b = old_conds[x as int];
                    let a = #[trigger] self.conditions@[x as int];
                    &&& a.value_view() == b.value_view()
                    &&& a.sets_view() == if prefix_set(members, k + 1).contains(x) { b.sets_view().push(s) } else { b.sets_view() }
                } by {
                    if x != c {
                        assert(self.conditions@[x as int] == before[x as int]);
                    }
                }
                assert forall|j: int| 0 <= j < self.conditions@.len() implies (#[trigger] self.conditions@[j]).wf() by {
                    if j != c {
                        assert(self.conditions@[j] == before[j]);
                    }
                }
                assert forall|j: int, m: int|
                    0 <= j < self.conditions@.len() && 0 <= m < self.conditions@[j].sets_view().len()
                        implies #[trigger] self.conditions@[j].sets_view()[m] < self.condition_sets@.len() by {
                    if j != c {
                        assert(self.conditions@[j] == before[j]);
                    } else if m < before[j].sets_view().len() {
                        assert(self.conditions@[j].sets_view()[m] == before[j].sets_view()[m]);
                    }
                }
            }
            k += 1;
        }
        let nc = self.conditions.len();
        proof {
            assert forall|x: usize| x < old_conds.len() implies #[trigger] prefix_set(members, n as int).contains(x) == cs.contains(x) by {
                if cs.contains(x) {
                    assert(members.to_set().contains(x));
                }
            }
            assert forall|i: int| 0 <= i < old_conds.len() implies #[trigger] self.condition_values()[i]
                == old(self).condition_values()[i] by {
                assert(i < nc);
                let x = i as usize;
                assert(self.conditions@[x as int].value_view() == old_conds[x as int].value_view());
            }
            assert(self.condition_values() =~= old(self).condition_values());
        }
        self.bind(t, DataSource::Conditions(s));
        Ok(())
    }

    /// At most one step is in flight: two working tasklets are the same one.
    pub proof fn lemma_single_step_in_flight(&self, i: int, j: int)
        requires
            self.wf(),
            0 <= i < self.tasklets_view().len(),
            0 <= j < self.tasklets_view().len(),
            self.status_of(i) == TaskStatus::Working,
            self.status_of(j) == TaskStatus::Working,
        ensures
            i == j,
            self.in_flight_view() == Some(i as usize),
    {
        assert(self.tasklets@[i].status_view() == TaskStatus::Working);
        assert(self.tasklets@[j].status_view() == TaskStatus::Working);
    }

    /// A waiting tasklet is in the run queue exactly once; a tasklet that
    /// does not wait is not in it.
    pub proof fn lemma_queued_once(&self, i: int)
        requires
            self.wf(),
            0 <= i < self.tasklets_view().len(),
        ensures
            self.queued_view().count(self.entry_of(i)) == if self.status_of(i) == TaskStatus::Waiting {
                1nat
            } else {
                0nat
            },
    {
        assert(self.tasklets@[i].status_view() == self.status_of(i));
        if self.status_of(i) != TaskStatus::Waiting && queued(self.run_queue).count(self.entry_of(i)) > 0 {
            assert(self.tasklets@[self.entry_of(i).1 as int].status_view() == TaskStatus::Waiting);
        }
    }

    /// Waking a tasklet twice, with no step of it in between, leaves it
    /// queued exactly once, as waking it once does.
    pub proof fn lemma_wake_idempotent(s0: &Self, s1: &Self, s2: &Self, i: usize)
        requires
            s0.wf(),
            s1.wf(),
            s2.wf(),
            i < s0.tasklets_view().len(),
            s0.status_of(i as int) != TaskStatus::Working,
            woke(s0.tasklets_view(), s1.tasklets_view(), set![i]),
            woke(s1.tasklets_view(), s2.tasklets_view(), set![i]),
        ensures
            s1.status_of(i as int) == TaskStatus::Waiting,
            s2.status_of(i as int) == TaskStatus::Waiting,
            s1.queued_view().count(s1.entry_of(i as int)) == 1,
            s2.queued_view().count(s2.entry_of(i as int)) == 1,
            forall|j: int| 0 <= j < s0.tasklets_view().len() ==> #[trigger] s2.status_of(j) == s1.status_of(j),
    {
        assert(s1.tasklets_view()[i as int].status_view() == TaskStatus::Waiting);
        assert(s2.tasklets_view()[i as int].status_view() == TaskStatus::Waiting);
        s1.lemma_queued_once(i as int);
        s2.lemma_queued_once(i as int);
        assert forall|j: int| 0 <= j < s0.tasklets_view().len() implies #[trigger] s2.status_of(j) == s1.status_of(j) by {
            assert(s2.tasklets_view()[j].status_view() == s2.status_of(j));
        }
    }

    /// Shortest, longest and mean duration of a tasklet's steps.
    pub fn get_execution_stats(&self, tasklet: &TaskletHandle) -> (r: ExecutionStats)
        requires
            self.wf(),
            self.valid_tasklet(*tasklet),
        ensures
            ({
                let d = self.stats_view()[tasklet.index_view() as int];
                &&& r.min == d.min_view()
                &&& r.max == d.max_view()
                &&& d.count_view() == 0 ==> r.mean == 0
                &&& d.count_view() > 0 ==> r.mean == d.total_view() / d.count_view()
            }),
    {
        self.stats[tasklet.index()].stats()
    }
}

} // verus!
