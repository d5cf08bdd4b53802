//! The cron scheduler: a table of (task name, cron schedule) entries, each
//! either idle or armed with the one trigger it has outstanding.
//!
//! The scheduler decides; its driver performs. On each poll the driver
//! reports which armed triggers have finished (`complete`), then asks
//! `run` which idle entries to arm, and starts one delayed dispatch per
//! `Trigger` returned. An entry is armed again only once its trigger has
//! been reported finished, so no task ever has two triggers outstanding.
use crate::error::TaskError;
use crate::text::str_eq;
use std::str::FromStr;
use vstd::prelude::*;

verus! {

/// The latest instant the scheduler accepts as "now", in milliseconds since
/// the Unix epoch (the end of the year 9999, UTC).
pub const MAX_INSTANT_MS: i64 = 253402300799999;

/// Whether the cron crate accepts `expression` as a schedule.
pub uninterp spec fn cron_accepts(expression: Seq<char>) -> bool;

/// The first occurrence of the schedule `expression` strictly after the
/// instant `after_ms` (milliseconds since the Unix epoch, UTC), if any.
pub uninterp spec fn cron_next_after(expression: Seq<char>, after_ms: int) -> Option<int>;

/// Relies on `cron::Schedule::from_str`: parses a cron expression (six or
/// seven fields, seconds first); whether it succeeds depends on the text alone.
#[verifier::external_body]
fn parse_cron(expression: &str) -> (r: Result<(), String>)
    ensures
        r is Ok <==> cron_accepts(expression@),
{
    cron::Schedule::from_str(expression).map(|_| ()).map_err(|e| e.to_string())
}

/// Relies on `cron::Schedule::after` (on the schedule that `from_str` reads
/// from `expression`): the first occurrence it yields lies strictly after
/// the given instant, on a whole second (UTC); it depends on the expression
/// and the instant alone. The bound keeps chrono's `after + 1 s` in range.
#[verifier::external_body]
fn next_occurrence_after(expression: &str, after_ms: i64) -> (r: Option<i64>)
    requires
        after_ms <= MAX_INSTANT_MS,
    ensures
        r matches Some(t) ==> cron_next_after(expression@, after_ms as int) == Some(t as int)
            && t > after_ms && t % 1000 == 0,
        r is None ==> cron_next_after(expression@, after_ms as int) is None,
{
    let schedule = cron::Schedule::from_str(expression).ok()?;
    let start = chrono::DateTime::from_timestamp_millis(after_ms)?;
    schedule.after(&start).next().map(|t| t.timestamp_millis())
}

/// Whether some entry of `task_name` is armed.
fn name_is_armed(entries: &Vec<ScheduleEntry>, task_name: &str) -> (r: bool)
    ensures
        r == exists|j: int|
            0 <= j < entries@.len() && (#[trigger] entry_views(entries@)[j]).task_name == task_name@
                && entry_views(entries@)[j].pending is Some,
{
    let mut j: usize = 0;
    while j < entries.len()
        invariant
            j <= entries.len(),
            forall|k: int|
                0 <= k < j ==> !((#[trigger] entry_views(entries@)[k]).task_name == task_name@
                    && entry_views(entries@)[k].pending is Some),
        decreases entries.len() - j,
    {
        if entries[j].pending.is_some() && str_eq(entries[j].task_name.as_str(), task_name) {
            assert(entry_views(entries@)[j as int].task_name == task_name@);
            return true;
        }
        j = j + 1;
    }
    false
}

/// One registered task and its schedule.
pub struct ScheduleEntry {
    pub task_name: String,
    pub expression: String,
    /// The fire time of the trigger this entry has outstanding, if any.
    pub pending: Option<i64>,
    /// The fire time of the last trigger reported finished, if any.
    pub last_fire: Option<i64>,
}

/// What the scheduler knows of an entry.
pub struct EntryModel {
    pub task_name: Seq<char>,
    pub expression: Seq<char>,
    pub pending: Option<int>,
    pub last_fire: Option<int>,
}

impl View for ScheduleEntry {
    type V = EntryModel;

    open spec fn view(&self) -> EntryModel {
        EntryModel {
            task_name: self.task_name@,
            expression: self.expression@,
            pending: match self.pending {
                Some(t) => Some(t as int),
                None => None,
            },
            last_fire: match self.last_fire {
                Some(t) => Some(t as int),
                None => None,
            },
        }
    }
}

/// A delayed dispatch that the driver is to start: at `fire_at`, that is
/// `delay_ms` after the poll, dispatch `task_name` (entry `index`).
pub struct Trigger {
    pub index: usize,
    pub task_name: String,
    pub fire_at: i64,
    pub delay_ms: i64,
}

pub struct TriggerModel {
    pub index: int,
    pub task_name: Seq<char>,
    pub fire_at: int,
    pub delay_ms: int,
}

impl View for Trigger {
    type V = TriggerModel;

    open spec fn view(&self) -> TriggerModel {
        TriggerModel {
            index: self.index as int,
            task_name: self.task_name@,
            fire_at: self.fire_at as int,
            delay_ms: self.delay_ms as int,
        }
    }
}

pub open spec fn entry_views(es: Seq<ScheduleEntry>) -> Seq<EntryModel> {
    es.map_values(|e: ScheduleEntry| e@)
}

pub open spec fn trigger_views(ts: Seq<Trigger>) -> Seq<TriggerModel> {
    ts.map_values(|t: Trigger| t@)
}

/// At most one outstanding trigger per task name: no two entries of the
/// same task are armed at once.
pub open spec fn one_per_name(es: Seq<EntryModel>) -> bool {
    forall|i: int, j: int|
        0 <= i < es.len() && 0 <= j < es.len() && i != j && (#[trigger] es[i]).task_name == (
        #[trigger] es[j]).task_name && es[i].pending is Some ==> es[j].pending is None
}

/// Every fire time the table holds lies on a whole second.
pub open spec fn whole_seconds(es: Seq<EntryModel>) -> bool {
    forall|i: int|
        0 <= i < es.len() ==> ((#[trigger] es[i]).pending matches Some(t) ==> t % 1000 == 0) && (
        es[i].last_fire matches Some(t) ==> t % 1000 == 0)
}

/// Another entry of the same task as entry `i` is armed, before the poll or
/// by it (among the entries it visited before `i`).
pub open spec fn name_busy(before: Seq<EntryModel>, after: Seq<EntryModel>, i: int) -> bool {
    exists|j: int|
        0 <= j < before.len() && j != i && (#[trigger] before[j]).task_name == before[i].task_name
            && (before[j].pending is Some || (j < i && after[j].pending is Some))
}

/// The instant after which entry `e` next fires when polled at `now`: not
/// before its last fire, so a slow clock never repeats a cron second.
pub open spec fn start_of(e: EntryModel, now: int) -> int {
    match e.last_fire {
        Some(l) => if l > now {
            l
        } else {
            now
        },
        None => now,
    }
}

/// What entry `i`, idle before a poll at `now`, holds after it: the first
/// occurrence of its cron expression after `start_of`, unless another entry
/// of its task is armed or the instants are out of range.
pub open spec fn armed_at(before: Seq<EntryModel>, now: int, after: Seq<EntryModel>, i: int) -> Option<
    int,
> {
    if now < 0 || start_of(before[i], now) > MAX_INSTANT_MS || name_busy(before, after, i) {
        None
    } else {
        cron_next_after(before[i].expression, start_of(before[i], now))
    }
}

/// What one poll at `now` does: every idle entry is armed at the first
/// occurrence of its schedule after `start_of` (unless another entry of its
/// task is armed); armed entries keep their trigger; names, expressions and
/// last fires are kept; and the triggers returned are exactly the entries
/// newly armed, in order.
pub open spec fn poll_step(
    before: Seq<EntryModel>,
    now: int,
    after: Seq<EntryModel>,
    triggers: Seq<TriggerModel>,
) -> bool {
    &&& after.len() == before.len()
    &&& one_per_name(before) ==> one_per_name(after)
    &&& forall|i: int|
        0 <= i < before.len() ==> {
            &&& (#[trigger] after[i]).task_name == before[i].task_name
            &&& after[i].expression == before[i].expression
            &&& after[i].last_fire == before[i].last_fire
            &&& before[i].pending is Some ==> after[i].pending == before[i].pending
            &&& before[i].pending is None ==> after[i].pending == armed_at(before, now, after, i)
            &&& before[i].pending is None ==> (after[i].pending matches Some(t) ==> t > start_of(
                before[i],
                now,
            ) && t % 1000 == 0)
        }
    &&& forall|k: int|
        0 <= k < triggers.len() ==> {
            let t = #[trigger] triggers[k];
            &&& 0 <= t.index < before.len()
            &&& before[t.index].pending is None
            &&& after[t.index].pending == Some(t.fire_at)
            &&& t.task_name == before[t.index].task_name
            &&& t.delay_ms == t.fire_at - now
        }
    &&& forall|k: int, l: int|
        0 <= k < l < triggers.len() ==> (#[trigger] triggers[k]).index < (#[trigger] triggers[l]).index
    &&& forall|i: int|
        0 <= i < before.len() && before[i].pending is None && (#[trigger] after[i]).pending is Some
            ==> exists|k: int| 0 <= k < triggers.len() && (#[trigger] triggers[k]).index == i
}

pub struct Scheduler {
    entries: Vec<ScheduleEntry>,
}

impl View for Scheduler {
    type V = Seq<EntryModel>;

    closed spec fn view(&self) -> Seq<EntryModel> {
        entry_views(self.entries@)
    }
}

/// Whether another entry of a task is armed depends only on the entries
/// visited before it.
proof fn lemma_busy_frame(before: Seq<EntryModel>, a1: Seq<EntryModel>, a2: Seq<EntryModel>, i: int)
    requires
        a1.len() == before.len(),
        a2.len() == before.len(),
        forall|j: int| 0 <= j < i && j < before.len() ==> (#[trigger] a1[j]).pending == a2[j].pending,
    ensures
        name_busy(before, a1, i) == name_busy(before, a2, i),
{
    if name_busy(before, a1, i) {
        let j = choose|j: int|
            0 <= j < before.len() && j != i && (#[trigger] before[j]).task_name
                == before[i].task_name && (before[j].pending is Some || (j < i
                && a1[j].pending is Some));
        if j < i {
            assert(a1[j].pending == a2[j].pending);
        }
    }
    if name_busy(before, a2, i) {
        let j = choose|j: int|
            0 <= j < before.len() && j != i && (#[trigger] before[j]).task_name
                == before[i].task_name && (before[j].pending is Some || (j < i
                && a2[j].pending is Some));
        if j < i {
            assert(a1[j].pending == a2[j].pending);
        }
    }
}

impl Scheduler {
    pub fn new() -> (r: Scheduler)
        ensures
            r@.len() == 0,
    {
        Scheduler { entries: Vec::new() }
    }

    /// Adds an idle entry for `task_name` when the cron crate accepts
    /// `schedule`; otherwise leaves the table as it was.
    pub fn register_task(&mut self, task_name: String, schedule: String) -> (r: Result<(), TaskError>)
        ensures
            r is Ok <==> cron_accepts(schedule@),
            r is Ok ==> final(self)@ == old(self)@.push(
                (EntryModel {
                    task_name: task_name@,
                    expression: schedule@,
                    pending: None,
                    last_fire: None,
                }),
            ),
            r matches Err(e) ==> final(self)@ == old(self)@ && e == (TaskError::CronParse {
                expression: schedule,
            }),
    {
        match parse_cron(schedule.as_str()) {
            Ok(()) => {
                let ghost old_entries = self.entries@;
                self.entries.push(
                    ScheduleEntry { task_name, expression: schedule, pending: None, last_fire: None },
                );
                assert(entry_views(self.entries@) =~= entry_views(old_entries).push(
                    self.entries@.last()@,
                ));
                Ok(())
            },
            Err(_) => Err(TaskError::CronParse { expression: schedule }),
        }
    }

    pub fn len(&self) -> (r: usize)
        ensures
            r == self@.len(),
    {
        self.entries.len()
    }

    /// The name of the task of entry `index`.
    pub fn task_name(&self, index: usize) -> (r: &str)
        requires
            index < self@.len(),
        ensures
            r@ == self@[index as int].task_name,
    {
        self.entries[index].task_name.as_str()
    }

    /// Whether entry `index` has a trigger outstanding.
    pub fn is_armed(&self, index: usize) -> (r: bool)
        requires
            index < self@.len(),
        ensures
            r == self@[index as int].pending is Some,
    {
        self.entries[index].pending.is_some()
    }

    /// Records that the trigger of entry `index` has finished: the entry is
    /// idle again, and its fire time becomes the entry's last fire.
    pub fn complete(&mut self, index: usize)
        requires
            index < old(self)@.len(),
        ensures
            final(self)@ == old(self)@.update(
                index as int,
                (EntryModel {
                    pending: None,
                    last_fire: match old(self)@[index as int].pending {
                        Some(t) => Some(t),
                        None => old(self)@[index as int].last_fire,
                    },
                    ..old(self)@[index as int]
                }),
            ),
            whole_seconds(old(self)@) ==> whole_seconds(final(self)@),
    {
        let ghost old_entries = self.entries@;
        let mut entry = self.entries.remove(index);
        if entry.pending.is_some() {
            entry.last_fire = entry.pending;
        }
        entry.pending = None;
        self.entries.insert(index, entry);
        assert(entry_views(self.entries@) =~= entry_views(old_entries).update(
            index as int,
            entry@,
        ));
    }

    /// Arms every idle entry at the first occurrence of its schedule after
    /// `now_ms` (and after its last fire), unless another entry of its task
    /// is armed, and returns one trigger per entry armed.
    pub fn run(&mut self, now_ms: i64) -> (r: Vec<Trigger>)
        ensures
            poll_step(old(self)@, now_ms as int, final(self)@, trigger_views(r@)),
            whole_seconds(old(self)@) ==> whole_seconds(final(self)@),
    {
        let ghost before = self@;
        let mut triggers: Vec<Trigger> = Vec::new();
        let n = self.entries.len();
        let mut i: usize = 0;
        while i < n
            invariant
                i <= n,
                n == self.entries.len(),
                before.len() == n,
                self@.len() == n,
                one_per_name(before) ==> one_per_name(self@),
                whole_seconds(before) ==> whole_seconds(self@),
                forall|j: int| i <= j < n ==> (#[trigger] self@[j]) == before[j],
                forall|j: int|
                    0 <= j < i ==> {
                        &&& (#[trigger] self@[j]).task_name == before[j].task_name
                        &&& self@[j].expression == before[j].expression
                        &&& self@[j].last_fire == before[j].last_fire
                        &&& before[j].pending is Some ==> self@[j].pending == before[j].pending
                        &&& before[j].pending is None ==> self@[j].pending == armed_at(
                            before,
                            now_ms as int,
                            self@,
                            j,
                        )
                        &&& before[j].pending is None ==> (self@[j].pending matches Some(t) ==> t
                            > start_of(before[j], now_ms as int) && t % 1000 == 0)
                    },
                forall|k: int|
                    0 <= k < triggers.len() ==> {
                        let t = #[trigger] trigger_views(triggers@)[k];
                        &&& 0 <= t.index < i
                        &&& before[t.index].pending is None
                        &&& self@[t.index].pending == Some(t.fire_at)
                        &&& t.task_name == before[t.index].task_name
                        &&& t.delay_ms == t.fire_at - now_ms
                    },
                forall|k: int, l: int|
                    0 <= k < l < triggers.len() ==> (#[trigger] trigger_views(triggers@)[k]).index
                        < (#[trigger] trigger_views(triggers@)[l]).index,
                forall|j: int|
                    0 <= j < i && before[j].pending is None && (#[trigger] self@[j]).pending is Some
                        ==> exists|k: int|
                        0 <= k < triggers.len() && (#[trigger] trigger_views(triggers@)[k]).index
                            == j,
            decreases n - i,
        {
            let ghost prev = self@;
            assert(self@[i as int] == before[i as int]);
            if self.entries[i].pending.is_none() {
                let busy = name_is_armed(&self.entries, self.entries[i].task_name.as_str());
                proof {
                    if busy {
                        let j = choose|j: int|
                            0 <= j < n && (#[trigger] entry_views(self.entries@)[j]).task_name
                                == before[i as int].task_name && entry_views(
                                self.entries@,
                            )[j].pending is Some;
                        assert(prev[j] == entry_views(self.entries@)[j]);
                        if j > i {
                            assert(prev[j] == before[j]);
                        }
                        assert(before[j].task_name == before[i as int].task_name);
                        assert(name_busy(before, prev, i as int));
                    }
                    if name_busy(before, prev, i as int) {
                        let j = choose|j: int|
                            0 <= j < before.len() && j != i && (#[trigger] before[j]).task_name
                                == before[i as int].task_name && (before[j].pending is Some || (j
                                < i && prev[j].pending is Some));
                        if j >= i {
                            assert(prev[j] == before[j]);
                        }
                        assert(entry_views(self.entries@)[j] == prev[j]);
                        assert(prev[j].task_name == before[i as int].task_name);
                    }
                    assert(busy == name_busy(before, prev, i as int));
                }
                let start: i64 = match self.entries[i].last_fire {
                    Some(l) => if l > now_ms {
                        l
                    } else {
                        now_ms
                    },
                    None => now_ms,
                };
                assert(start == start_of(before[i as int], now_ms as int));
                if !busy && now_ms >= 0 && start <= MAX_INSTANT_MS {
                    let next = next_occurrence_after(self.entries[i].expression.as_str(), start);
                    if let Some(fire_at) = next {
                        let ghost old_entries = self.entries@;
                        let ghost old_triggers = triggers@;
                        let mut entry = self.entries.remove(i);
                        entry.pending = Some(fire_at);
                        let name = entry.task_name.clone();
                        self.entries.insert(i, entry);
                        assert(entry_views(self.entries@) =~= entry_views(old_entries).update(
                            i as int,
                            entry@,
                        ));
                        triggers.push(
                            Trigger { index: i, task_name: name, fire_at, delay_ms: fire_at - now_ms },
                        );
                        assert(trigger_views(triggers@) =~= trigger_views(old_triggers).push(
                            triggers@.last()@,
                        ));
                        assert(trigger_views(triggers@)[old_triggers.len() as int].index == i);
                        assert(self@[i as int].pending == Some(fire_at as int));
                        assert(one_per_name(before) ==> one_per_name(self@)) by {
                            if one_per_name(before) {
                                assert forall|a: int, b: int|
                                    0 <= a < n && 0 <= b < n && a != b && (#[trigger] self@[a]).task_name
                                        == (#[trigger] self@[b]).task_name && self@[a].pending is Some
                                        implies self@[b].pending is None by {
                                    if a == i {
                                        assert(prev[b] == self@[b]);
                                        assert(!(entry_views(old_entries)[b].task_name
                                            == old_entries[i as int].task_name@
                                            && entry_views(old_entries)[b].pending is Some));
                                    } else if b == i {
                                        assert(prev[a] == self@[a]);
                                        assert(!(entry_views(old_entries)[a].task_name
                                            == old_entries[i as int].task_name@
                                            && entry_views(old_entries)[a].pending is Some));
                                    } else {
                                        assert(prev[a] == self@[a]);
                                        assert(prev[b] == self@[b]);
                                    }
                                };
                            }
                        };
                        assert forall|j: int|
                            0 <= j <= i && before[j].pending is None && (#[trigger] self@[j]).pending is Some
                                implies exists|k: int|
                            0 <= k < triggers.len() && (#[trigger] trigger_views(triggers@)[k]).index
                                == j by {
                            if j == i {
                                assert(trigger_views(triggers@)[old_triggers.len() as int].index == j);
                            } else {
                                assert(prev[j] == self@[j]);
                                let k = choose|k: int|
                                    0 <= k < old_triggers.len() && (#[trigger] trigger_views(
                                        old_triggers,
                                    )[k]).index == j;
                                assert(trigger_views(triggers@)[k] == trigger_views(old_triggers)[k]);
                            }
                        };
                    }
                }
            }
            assert(forall|j: int| 0 <= j < n && j != i ==> self@[j] == prev[j]);
            proof {
                assert forall|j: int| 0 <= j <= i implies armed_at(before, now_ms as int, self@, j)
                    == armed_at(before, now_ms as int, prev, j) by {
                    lemma_busy_frame(before, self@, prev, j);
                };
                assert(whole_seconds(before) ==> whole_seconds(self@)) by {
                    if whole_seconds(before) {
                        assert forall|j: int| 0 <= j < n implies ((#[trigger] self@[j]).pending matches Some(
                            t,
                        ) ==> t % 1000 == 0) && (self@[j].last_fire matches Some(t) ==> t % 1000
                            == 0) by {
                            assert(prev[j] == self@[j] || j == i);
                        };
                    }
                };
            }
            i = i + 1;
        }
        triggers
    }
}

/// No overlap: a poll never gives an entry a second outstanding trigger.
/// Every trigger it returns is for an entry that was idle, and no entry
/// receives two triggers from one poll.
pub proof fn lemma_no_overlapping_triggers(
    before: Seq<EntryModel>,
    now: int,
    after: Seq<EntryModel>,
    triggers: Seq<TriggerModel>,
)
    requires
        poll_step(before, now, after, triggers),
    ensures
        forall|k: int| 0 <= k < triggers.len() ==> before[(#[trigger] triggers[k]).index].pending is None,
        forall|k: int, l: int|
            0 <= k < triggers.len() && 0 <= l < triggers.len() && k != l ==> (#[trigger] triggers[k]).index
                != (#[trigger] triggers[l]).index,
        forall|i: int|
            0 <= i < before.len() && (#[trigger] before[i]).pending is Some ==> after[i].pending
                == before[i].pending,
        one_per_name(before) ==> one_per_name(after),
{
    assert forall|k: int, l: int|
        0 <= k < triggers.len() && 0 <= l < triggers.len() && k != l implies (#[trigger] triggers[k]).index
        != (#[trigger] triggers[l]).index by {
        if k < l {
            assert(triggers[k].index < triggers[l].index);
        } else {
            assert(triggers[l].index < triggers[k].index);
        }
    };
    assert forall|i: int| 0 <= i < before.len() && (#[trigger] before[i]).pending is Some implies after[i].pending
        == before[i].pending by {
        assert(after[i].task_name == before[i].task_name);
    };
}

/// Registering an entry or reporting an entry's trigger finished keeps at
/// most one outstanding trigger per task name.
pub proof fn lemma_idle_entries_keep_one_per_name(es: Seq<EntryModel>, e: EntryModel, i: int)
    requires
        one_per_name(es),
        0 <= i < es.len(),
        e.pending is None,
    ensures
        one_per_name(es.push(e)),
        one_per_name(es.update(i, e)),
{
    let p = es.push(e);
    assert forall|a: int, b: int|
        0 <= a < p.len() && 0 <= b < p.len() && a != b && (#[trigger] p[a]).task_name == (
        #[trigger] p[b]).task_name && p[a].pending is Some implies p[b].pending is None by {
        if b < es.len() && a < es.len() {
            assert(es[a] == p[a] && es[b] == p[b]);
        }
    };
    let u = es.update(i, e);
    assert forall|a: int, b: int|
        0 <= a < u.len() && 0 <= b < u.len() && a != b && (#[trigger] u[a]).task_name == (
        #[trigger] u[b]).task_name && u[a].pending is Some implies u[b].pending is None by {
        if b != i && a != i {
            assert(es[a].task_name == es[b].task_name);
        }
    };
}

/// Spacing of successive runs: a trigger fires strictly after the poll and
/// at least one second after the entry's last fire, so no cron second is
/// dispatched twice.
pub proof fn lemma_triggers_spaced(
    before: Seq<EntryModel>,
    now: int,
    after: Seq<EntryModel>,
    triggers: Seq<TriggerModel>,
)
    requires
        poll_step(before, now, after, triggers),
        whole_seconds(before),
    ensures
        forall|k: int|
            0 <= k < triggers.len() ==> (#[trigger] triggers[k]).fire_at > now
                && triggers[k].delay_ms > 0 && (before[triggers[k].index].last_fire matches Some(l)
                ==> triggers[k].fire_at >= l + 1000),
{
    assert forall|k: int| 0 <= k < triggers.len() implies (#[trigger] triggers[k]).fire_at > now
        && triggers[k].delay_ms > 0 && (before[triggers[k].index].last_fire matches Some(l)
        ==> triggers[k].fire_at >= l + 1000) by {
        let i = triggers[k].index;
        assert(after[i].task_name == before[i].task_name);
        let t = triggers[k].fire_at;
        assert(t > start_of(before[i], now) && t % 1000 == 0);
        if let Some(l) = before[i].last_fire {
            assert(l % 1000 == 0);
            assert(t >= l + 1000) by (nonlinear_arith)
                requires
                    t > l,
                    t % 1000 == 0,
                    l % 1000 == 0,
            ;
        }
    };
}

} // verus!
