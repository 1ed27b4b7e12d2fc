//! The set of active countdowns, the history of finished ones, and the
//! allocation of ids.
use vstd::prelude::*;
use crate::duration::{parse_duration, parse_spec, ParseError};
use crate::label::{label_for, label_text};
use crate::task::CountdownTask;

verus! {

/// A finished countdown as it is kept and persisted: no clock state.
pub struct HistoryEntry {
    pub id: u64,
    pub label: String,
    pub input: String,
    pub target_secs: u64,
    pub created_at: i64,
}

impl HistoryEntry {
    pub fn duplicate(&self) -> (r: HistoryEntry)
        ensures
            r == *self,
    {
        HistoryEntry {
            id: self.id,
            label: self.label.clone(),
            input: self.input.clone(),
            target_secs: self.target_secs,
            created_at: self.created_at,
        }
    }
}

/// Why `TaskRegistry::add` created no countdown.
#[derive(Debug, Clone, Copy, PartialEq, Eq, Structural)]
pub enum AddError {
    /// The length text was not understood.
    Parse(ParseError),
    /// The length is zero seconds.
    InvalidDuration,
    /// Every id has been handed out.
    IdsExhausted,
}

/// The history record of a countdown.
pub open spec fn entry_of(t: CountdownTask) -> HistoryEntry {
    HistoryEntry {
        id: t.id,
        label: t.label,
        input: t.input,
        target_secs: t.target_secs,
        created_at: t.created_at,
    }
}

/// A countdown whose completion a tick at `now` observes for the first time.
pub open spec fn is_due(t: CountdownTask, now: u64) -> bool {
    !t.is_finalized() && t.time_is_up(now)
}

/// A countdown after a tick at `now`.
pub open spec fn finalized(t: CountdownTask, now: u64) -> CountdownTask {
    if is_due(t, now) {
        CountdownTask { finished_at: Some(now), ..t }
    } else {
        t
    }
}

pub open spec fn due_tasks(ts: Seq<CountdownTask>, now: u64) -> Seq<CountdownTask> {
    ts.filter(|t: CountdownTask| is_due(t, now))
}

/// The ids that a tick at `now` reports, in the order of `ts`.
pub open spec fn due_ids(ts: Seq<CountdownTask>, now: u64) -> Seq<u64> {
    due_tasks(ts, now).map_values(|t: CountdownTask| t.id)
}

/// The active countdowns after a tick at `now`.
pub open spec fn ticked(ts: Seq<CountdownTask>, now: u64) -> Seq<CountdownTask> {
    ts.map_values(|t: CountdownTask| finalized(t, now))
}

/// The records that a tick at `now` appends to the history.
pub open spec fn due_entries(ts: Seq<CountdownTask>, now: u64) -> Seq<HistoryEntry> {
    due_tasks(ts, now).map_values(|t: CountdownTask| entry_of(t))
}

/// The largest id in a history, plus one; zero for an empty history.
pub open spec fn id_bound(h: Seq<HistoryEntry>) -> nat
    decreases h.len(),
{
    if h.len() == 0 {
        0
    } else {
        let rest = id_bound(h.drop_last());
        if h.last().id + 1 > rest {
            (h.last().id + 1) as nat
        } else {
            rest
        }
    }
}

/// What a registry holds, as contracts see it.
pub struct RegistryModel {
    pub active: Seq<CountdownTask>,
    pub history: Seq<HistoryEntry>,
    pub next_id: nat,
}

/// Ids of active countdowns are distinct, and every id in use lies below the
/// next one to be handed out.
pub open spec fn model_wf(m: RegistryModel) -> bool {
    &&& m.next_id <= u64::MAX
    &&& forall|i: int, j: int|
        0 <= i < m.active.len() && 0 <= j < m.active.len() && i != j ==> #[trigger] m.active[i].id
            != #[trigger] m.active[j].id
    &&& forall|i: int| 0 <= i < m.active.len() ==> #[trigger] m.active[i].id < m.next_id
    &&& forall|i: int| 0 <= i < m.history.len() ==> #[trigger] m.history[i].id < m.next_id
}

pub struct TaskRegistry {
    tasks: Vec<CountdownTask>,
    history: Vec<HistoryEntry>,
    next_id: u64,
}

impl View for TaskRegistry {
    type V = RegistryModel;

    closed spec fn view(&self) -> RegistryModel {
        RegistryModel { active: self.tasks@, history: self.history@, next_id: self.next_id as nat }
    }
}

impl TaskRegistry {
    pub open spec fn wf(&self) -> bool {
        model_wf(self@)
    }

    /// An empty registry.
    pub fn new() -> (r: TaskRegistry)
        ensures
            r.wf(),
            r@.active.len() == 0,
            r@.history.len() == 0,
            r@.next_id == 0,
    {
        TaskRegistry { tasks: Vec::new(), history: Vec::new(), next_id: 0 }
    }

    /// The active countdowns, in the order they were added.
    pub fn tasks(&self) -> (r: &Vec<CountdownTask>)
        ensures
            r@ == self@.active,
    {
        &self.tasks
    }

    /// The finished countdowns that are kept, oldest first.
    pub fn history(&self) -> (r: &Vec<HistoryEntry>)
        ensures
            r@ == self@.history,
    {
        &self.history
    }

    /// The id that the next countdown will get.
    pub fn next_id(&self) -> (r: u64)
        ensures
            r == self@.next_id,
    {
        self.next_id
    }

    /// Where the active countdown with this id stands, if there is one.
    pub fn position(&self, id: u64) -> (r: Option<usize>)
        ensures
            match r {
                Some(i) => i < self@.active.len() && self@.active[i as int].id == id,
                None => forall|i: int| 0 <= i < self@.active.len() ==> #[trigger] self@.active[i].id != id,
            },
    {
        let mut i: usize = 0;
        while i < self.tasks.len()
            invariant
                i <= self.tasks@.len(),
                forall|j: int| 0 <= j < i ==> #[trigger] self.tasks@[j].id != id,
            decreases self.tasks@.len() - i,
        {
            if self.tasks[i].id == id {
                return Some(i);
            }
            i = i + 1;
        }
        None
    }

    /// Adds a countdown whose length is parsed from `input`, running from
    /// `now`. Nothing is added when the text is not understood, when the
    /// length is zero, or when no id is left; otherwise the new countdown gets
    /// the next id, is labelled after `name` (see `label_text`), and goes to
    /// the end of the active set.
    pub fn add(&mut self, name: &str, input: String, now: u64, created_at: i64) -> (r: Result<u64, AddError>)
        requires
            old(self).wf(),
        ensures
            final(self).wf(),
            match parse_spec(input@) {
                Err(e) => r == Err::<u64, AddError>(AddError::Parse(e)),
                Ok(secs) => if secs == 0 {
                    r == Err::<u64, AddError>(AddError::InvalidDuration)
                } else if old(self)@.next_id == u64::MAX {
                    r == Err::<u64, AddError>(AddError::IdsExhausted)
                } else {
                    r == Ok::<u64, AddError>(old(self)@.next_id as u64)
                },
            },
            r is Err ==> final(self)@ == old(self)@,
            r is Ok ==> {
                let t = final(self)@.active.last();
                &&& final(self)@ == (RegistryModel {
                    active: old(self)@.active.push(t),
                    history: old(self)@.history,
                    next_id: old(self)@.next_id + 1,
                })
                &&& t.id == old(self)@.next_id
                &&& t.label@ == label_text(name@, old(self)@.next_id as u64)
                &&& t.input == input
                &&& t.target_secs == parse_spec(input@)->Ok_0
                &&& t.created_at == created_at
                &&& t.accumulated_ms == 0
                &&& t.running_since == Some(now)
                &&& t.finished_at is None
            },
    {
        let secs = match parse_duration(input.as_str()) {
            Ok(secs) => secs,
            Err(e) => return Err(AddError::Parse(e)),
        };
        if secs == 0 {
            return Err(AddError::InvalidDuration);
        }
        if self.next_id == u64::MAX {
            return Err(AddError::IdsExhausted);
        }
        let id = self.next_id;
        let label = label_for(name, id);
        self.tasks.push(CountdownTask::new(id, label, input, secs, now, created_at));
        self.next_id = id + 1;
        Ok(id)
    }

    /// Pauses the active countdown with this id at `now`. An unknown id, or a
    /// countdown that is not running, leaves everything as it is.
    pub fn pause(&mut self, id: u64, now: u64)
        requires
            old(self).wf(),
        ensures
            final(self).wf(),
            forall|i: int|
                0 <= i < old(self)@.active.len() && #[trigger] old(self)@.active[i].id == id
                    ==> final(self)@ == (RegistryModel {
                    active: old(self)@.active.update(i, old(self)@.active[i].paused_at(now)),
                    ..old(self)@
                }),
            (forall|i: int| 0 <= i < old(self)@.active.len() ==> #[trigger] old(self)@.active[i].id != id)
                ==> final(self)@ == old(self)@,
    {
        if let Some(i) = self.position(id) {
            self.tasks[i].pause(now);
            proof {
                assert forall|j: int| 0 <= j < self@.active.len() implies #[trigger] self@.active[j].id
                    == old(self)@.active[j].id by {}
            }
        }
    }

    /// Resumes the active countdown with this id at `now`. An unknown id, or a
    /// countdown that is not paused, leaves everything as it is.
    pub fn resume(&mut self, id: u64, now: u64)
        requires
            old(self).wf(),
        ensures
            final(self).wf(),
            forall|i: int|
                0 <= i < old(self)@.active.len() && #[trigger] old(self)@.active[i].id == id
                    ==> final(self)@ == (RegistryModel {
                    active: old(self)@.active.update(i, old(self)@.active[i].resumed_at(now)),
                    ..old(self)@
                }),
            (forall|i: int| 0 <= i < old(self)@.active.len() ==> #[trigger] old(self)@.active[i].id != id)
                ==> final(self)@ == old(self)@,
    {
        if let Some(i) = self.position(id) {
            self.tasks[i].resume(now);
            proof {
                assert forall|j: int| 0 <= j < self@.active.len() implies #[trigger] self@.active[j].id
                    == old(self)@.active[j].id by {}
            }
        }
    }

    /// Takes the countdown with this id out of the active set; the history is
    /// not touched. An unknown id leaves everything as it is.
    pub fn remove(&mut self, id: u64)
        requires
            old(self).wf(),
        ensures
            final(self).wf(),
            forall|i: int|
                0 <= i < old(self)@.active.len() && #[trigger] old(self)@.active[i].id == id
                    ==> final(self)@ == (RegistryModel { active: old(self)@.active.remove(i), ..old(self)@ }),
            (forall|i: int| 0 <= i < old(self)@.active.len() ==> #[trigger] old(self)@.active[i].id != id)
                ==> final(self)@ == old(self)@,
    {
        if let Some(i) = self.position(id) {
            self.tasks.remove(i);
        }
    }

    /// One pass over the active countdowns at `now`: each whose time is up
    /// and whose completion was not yet observed is marked finished at `now`
    /// and recorded at the end of the history. Returns their ids, in order;
    /// a countdown is reported by one tick only.
    pub fn tick(&mut self, now: u64) -> (r: Vec<u64>)
        requires
            old(self).wf(),
        ensures
            final(self).wf(),
            r@ == due_ids(old(self)@.active, now),
            final(self)@ == (RegistryModel {
                active: ticked(old(self)@.active, now),
                history: old(self)@.history + due_entries(old(self)@.active, now),
                next_id: old(self)@.next_id,
            }),
    {
        let ghost old_active = self@.active;
        let ghost old_history = self@.history;
        let mut ids: Vec<u64> = Vec::new();
        let mut i: usize = 0;
        while i < self.tasks.len()
            invariant
                self.tasks@.len() == old_active.len(),
                i <= old_active.len(),
                self.next_id == old(self).next_id,
                model_wf(old(self)@),
                old_active == old(self)@.active,
                old_history == old(self)@.history,
                forall|j: int| 0 <= j < i ==> #[trigger] self.tasks@[j] == finalized(old_active[j], now),
                forall|j: int| i <= j < old_active.len() ==> #[trigger] self.tasks@[j] == old_active[j],
                ids@ == due_ids(old_active.take(i as int), now),
                self.history@ == old_history + due_entries(old_active.take(i as int), now),
            decreases old_active.len() - i,
        {
            let ghost pre = old_active.take(i as int);
            let ghost post = old_active.take(i + 1);
            proof {
                reveal(Seq::filter);
                assert(post.drop_last() =~= pre);
                assert(post.last() == old_active[i as int]);
            }
            if self.tasks[i].finished_at.is_none() && self.tasks[i].is_time_up(now) {
                let entry = HistoryEntry {
                    id: self.tasks[i].id,
                    label: self.tasks[i].label.clone(),
                    input: self.tasks[i].input.clone(),
                    target_secs: self.tasks[i].target_secs,
                    created_at: self.tasks[i].created_at,
                };
                self.tasks[i].finished_at = Some(now);
                ids.push(entry.id);
                self.history.push(entry);
                proof {
                    assert(due_tasks(post, now) == due_tasks(pre, now).push(old_active[i as int]));
                    assert(ids@ =~= due_ids(post, now));
                    assert(self.history@ =~= old_history + due_entries(post, now));
                }
            } else {
                proof {
                    assert(due_tasks(post, now) == due_tasks(pre, now));
                }
            }
            i = i + 1;
        }
        proof {
            assert(old_active.take(old_active.len() as int) =~= old_active);
            assert(self.tasks@ =~= ticked(old_active, now));
            let d = due_entries(old_active, now);
            assert forall|k: int| 0 <= k < d.len() implies #[trigger] d[k].id < self.next_id by {
                let dt = due_tasks(old_active, now);
                assert(dt.contains(dt[k]));
                old_active.lemma_filter_contains_rev(|t: CountdownTask| is_due(t, now), dt[k]);
            }
            assert forall|k: int| 0 <= k < self.history@.len() implies #[trigger] self.history@[k].id < self.next_id by {
                if k >= old_history.len() {
                    assert(self.history@[k] == d[k - old_history.len()]);
                }
            }
            assert forall|a: int, b: int|
                0 <= a < self.tasks@.len() && 0 <= b < self.tasks@.len() && a != b implies #[trigger] self.tasks@[a].id
                != #[trigger] self.tasks@[b].id by {
                assert(self.tasks@[a].id == old_active[a].id);
                assert(self.tasks@[b].id == old_active[b].id);
            }
        }
        ids
    }

    /// Deletes every history record with this id; the active set is not
    /// touched.
    pub fn delete_from_history(&mut self, id: u64)
        requires
            old(self).wf(),
        ensures
            final(self).wf(),
            final(self)@ == (RegistryModel {
                history: old(self)@.history.filter(|e: HistoryEntry| e.id != id),
                ..old(self)@
            }),
    {
        let ghost old_history = self@.history;
        let mut kept: Vec<HistoryEntry> = Vec::new();
        let mut i: usize = 0;
        while i < self.history.len()
            invariant
                self.history@ == old_history,
                i <= old_history.len(),
                kept@ == old_history.take(i as int).filter(|e: HistoryEntry| e.id != id),
            decreases old_history.len() - i,
        {
            proof {
                reveal(Seq::filter);
                assert(old_history.take(i + 1).drop_last() =~= old_history.take(i as int));
            }
            if self.history[i].id != id {
                kept.push(self.history[i].duplicate());
            }
            i = i + 1;
        }
        proof {
            assert(old_history.take(old_history.len() as int) =~= old_history);
            assert forall|k: int| 0 <= k < kept@.len() implies #[trigger] kept@[k].id < self.next_id by {
                assert(kept@.contains(kept@[k]));
                old_history.lemma_filter_contains_rev(|e: HistoryEntry| e.id != id, kept@[k]);
            }
        }
        self.history = kept;
    }

    /// A registry with no active countdowns that keeps `history`, handing out
    /// ids above every id in it. `None` when some record has the largest
    /// `u64` as its id, since no id would then be left above it.
    pub fn restore(history: Vec<HistoryEntry>) -> (r: Option<TaskRegistry>)
        ensures
            r is None <==> exists|i: int| 0 <= i < history@.len() && #[trigger] history@[i].id == u64::MAX,
            r matches Some(reg) ==> reg.wf() && reg@ == (RegistryModel {
                active: Seq::empty(),
                history: history@,
                next_id: id_bound(history@),
            }),
    {
        let mut bound: u64 = 0;
        let mut i: usize = 0;
        while i < history.len()
            invariant
                i <= history@.len(),
                bound == id_bound(history@.take(i as int)),
                forall|j: int| 0 <= j < i ==> #[trigger] history@[j].id < u64::MAX,
            decreases history@.len() - i,
        {
            proof {
                assert(history@.take(i + 1).drop_last() =~= history@.take(i as int));
            }
            let id = history[i].id;
            if id == u64::MAX {
                return None;
            }
            if id + 1 > bound {
                bound = id + 1;
            }
            i = i + 1;
        }
        proof {
            assert(history@.take(history@.len() as int) =~= history@);
            lemma_id_bound(history@);
        }
        Some(TaskRegistry { tasks: Vec::new(), history, next_id: bound })
    }
}

/// Every id of a history lies below its bound.
pub proof fn lemma_id_bound(h: Seq<HistoryEntry>)
    ensures
        forall|i: int| 0 <= i < h.len() ==> #[trigger] h[i].id < id_bound(h),
    decreases h.len(),
{
    if h.len() > 0 {
        let rest = h.drop_last();
        lemma_id_bound(rest);
        assert forall|i: int| 0 <= i < h.len() implies #[trigger] h[i].id < id_bound(h) by {
            if i < h.len() - 1 {
                assert(h[i] == rest[i]);
            }
        }
    }
}

/// The bound of a history is no larger than any number above all its ids.
pub proof fn lemma_id_bound_least(h: Seq<HistoryEntry>, b: nat)
    requires
        forall|i: int| 0 <= i < h.len() ==> #[trigger] h[i].id < b,
    ensures
        id_bound(h) <= b,
    decreases h.len(),
{
    if h.len() > 0 {
        let rest = h.drop_last();
        assert forall|i: int| 0 <= i < rest.len() implies #[trigger] rest[i].id < b by {
            assert(rest[i] == h[i]);
        }
        lemma_id_bound_least(rest, b);
        assert(h[h.len() - 1].id < b);
    }
}

/// A tick reports each completion once: a second tick at the same instant
/// finds nothing more to finalize and records nothing more.
pub proof fn law_tick_exactly_once(ts: Seq<CountdownTask>, now: u64)
    ensures
        due_ids(ticked(ts, now), now) == Seq::<u64>::empty(),
        due_entries(ticked(ts, now), now) == Seq::<HistoryEntry>::empty(),
        ticked(ticked(ts, now), now) == ticked(ts, now),
{
    let t2 = ticked(ts, now);
    assert forall|i: int| 0 <= i < t2.len() implies !is_due(#[trigger] t2[i], now) by {}
    lemma_none_due(t2, now);
    assert(ticked(t2, now) =~= t2);
}

proof fn lemma_none_due(ts: Seq<CountdownTask>, now: u64)
    requires
        forall|i: int| 0 <= i < ts.len() ==> !is_due(#[trigger] ts[i], now),
    ensures
        due_tasks(ts, now) == Seq::<CountdownTask>::empty(),
        due_ids(ts, now) == Seq::<u64>::empty(),
        due_entries(ts, now) == Seq::<HistoryEntry>::empty(),
    decreases ts.len(),
{
    reveal(Seq::filter);
    if ts.len() > 0 {
        let rest = ts.drop_last();
        assert forall|i: int| 0 <= i < rest.len() implies !is_due(#[trigger] rest[i], now) by {
            assert(rest[i] == ts[i]);
        }
        lemma_none_due(rest, now);
        assert(!is_due(ts.last(), now));
    }
    assert(due_ids(ts, now) =~= Seq::<u64>::empty());
    assert(due_entries(ts, now) =~= Seq::<HistoryEntry>::empty());
}

/// Persisting a registry's history and restoring from it gives back the same
/// records with nothing active, and ids handed out afterwards still lie above
/// every id of the history and never above where the registry was.
pub proof fn law_history_round_trip(m: RegistryModel)
    requires
        model_wf(m),
    ensures
        forall|i: int| 0 <= i < m.history.len() ==> #[trigger] m.history[i].id < u64::MAX,
        forall|i: int| 0 <= i < m.history.len() ==> #[trigger] m.history[i].id < id_bound(m.history),
        id_bound(m.history) <= m.next_id,
        model_wf(RegistryModel { active: Seq::empty(), history: m.history, next_id: id_bound(m.history) }),
{
    lemma_id_bound(m.history);
    lemma_id_bound_least(m.history, m.next_id);
}

} // verus!