//! The automation manager: the scheduler's shared state — tasks, logs,
//! credentials, the planned queue, the global enable flag and the
//! per-date planning debounce set — with the control surface that task
//! CRUD, priority reordering and plan generation use.  The embedding
//! program wraps one value of this type in its locks; every verified
//! operation here is a plain state transition.

use vstd::prelude::*;
use crate::model::{AutomationTask, PlannedItem, TaskExecutionLog, UpdatePrioritiesArgs, task_eq};
use crate::plan::{
    spec_find_task, find_task_index, spec_plan, items_match, id_views, plan_occurrences,
    build_planned_items,
};
use crate::laws::{lemma_plan_in_window, occ_in_window};
use crate::expand::{occ_views, MAX_WINDOW_SEC};
use crate::bridge::MAX_PLAN_INSTANT;
use crate::timefmt::{spec_parse_date, parse_date};
use crate::bridge::{local_day_bounds, day_window};

verus! {

/// No two tasks share an id.
pub open spec fn tasks_wf(ts: Seq<AutomationTask>) -> bool {
    forall|i: int, j: int|
        0 <= i < j < ts.len() ==> (#[trigger] ts[i]).id@ != (#[trigger] ts[j]).id@
}

/// No two credential entries share a device id.
pub open spec fn keys_wf(ks: Seq<(String, String)>) -> bool {
    forall|i: int, j: int|
        0 <= i < j < ks.len() ==> (#[trigger] ks[i]).0@ != (#[trigger] ks[j]).0@
}

/// No date is marked in flight twice.
pub open spec fn inflight_wf(ds: Seq<String>) -> bool {
    forall|i: int, j: int| 0 <= i < j < ds.len() ==> (#[trigger] ds[i])@ != (#[trigger] ds[j])@
}

/// Whether a date is marked as being planned.
pub open spec fn inflight_contains(ds: Seq<String>, date: Seq<char>) -> bool {
    exists|i: int| 0 <= i < ds.len() && (#[trigger] ds[i])@ == date
}

/// The scheduler's shared state.
pub struct SimpleAutomationManager {
    pub tasks: Vec<AutomationTask>,
    pub logs: Vec<TaskExecutionLog>,
    /// Device id to API key.
    pub api_keys: Vec<(String, String)>,
    /// The global automation switch; off means the dispatcher does
    /// nothing each tick.
    pub automation_enabled: bool,
    pub planned: Vec<PlannedItem>,
    /// The debounce set: dates whose plan generation is under way.
    pub planning_inflight: Vec<String>,
}

impl SimpleAutomationManager {
    /// The state invariant: task ids, credential device ids and
    /// in-flight dates are each unique.
    pub open spec fn wf(&self) -> bool {
        tasks_wf(self.tasks@) && keys_wf(self.api_keys@) && inflight_wf(self.planning_inflight@)
    }

    /// A fresh manager: no state, automation enabled.
    pub fn new() -> (r: Self)
        ensures
            r.tasks@.len() == 0,
            r.logs@.len() == 0,
            r.api_keys@.len() == 0,
            r.automation_enabled == true,
            r.planned@.len() == 0,
            r.planning_inflight@.len() == 0,
            r.wf(),
    {
        SimpleAutomationManager {
            tasks: Vec::new(),
            logs: Vec::new(),
            api_keys: Vec::new(),
            automation_enabled: true,
            planned: Vec::new(),
            planning_inflight: Vec::new(),
        }
    }

    /// Turns the global automation switch on or off.
    pub fn set_automation_enabled(&mut self, enabled: bool) -> (r: Result<(), String>)
        ensures
            r is Ok,
            final(self).automation_enabled == enabled,
            final(self).tasks == old(self).tasks,
            final(self).logs == old(self).logs,
            final(self).api_keys == old(self).api_keys,
            final(self).planned == old(self).planned,
            final(self).planning_inflight == old(self).planning_inflight,
    {
        self.automation_enabled = enabled;
        Ok(())
    }

    /// Reads the global automation switch.
    pub fn is_automation_enabled(&self) -> (r: Result<bool, String>)
        ensures
            r == Ok::<bool, String>(self.automation_enabled),
    {
        Ok(self.automation_enabled)
    }

    /// Stores one device's API key, replacing any previous one.
    pub fn set_api_key(&mut self, device_id: String, api_key: String) -> (r: Result<(), String>)
        requires
            old(self).wf(),
        ensures
            r is Ok,
            final(self).wf(),
            final(self).tasks == old(self).tasks,
            final(self).logs == old(self).logs,
            final(self).automation_enabled == old(self).automation_enabled,
            final(self).planned == old(self).planned,
            final(self).planning_inflight == old(self).planning_inflight,
            spec_key_of(final(self).api_keys@, device_id@) == Some(api_key@),
            forall|d: Seq<char>|
                d != device_id@ ==> #[trigger] spec_key_of(final(self).api_keys@, d)
                    == spec_key_of(old(self).api_keys@, d),
    {
        upsert_key(&mut self.api_keys, device_id, api_key);
        Ok(())
    }

    /// Stores the keys of many devices at once: each device named with a
    /// non-empty key gets its last such key of the list; entries with an
    /// empty key are ignored; every other device's key is unchanged.
    pub fn sync_api_keys(&mut self, device_configs: Vec<(String, String)>) -> (r: Result<
        (),
        String,
    >)
        requires
            old(self).wf(),
        ensures
            r is Ok,
            final(self).wf(),
            final(self).tasks == old(self).tasks,
            final(self).logs == old(self).logs,
            final(self).automation_enabled == old(self).automation_enabled,
            final(self).planned == old(self).planned,
            final(self).planning_inflight == old(self).planning_inflight,
            forall|d: Seq<char>|
                #[trigger] spec_key_of(final(self).api_keys@, d) == (
                match spec_synced_key(device_configs@, d) {
                    Some(k) => Some(k),
                    None => spec_key_of(old(self).api_keys@, d),
                }),
    {
        let ghost cs = device_configs@;
        let n = device_configs.len();
        let mut i: usize = 0;
        let mut rest = device_configs;
        proof {
            assert(cs.take(0) =~= Seq::<(String, String)>::empty());
        }
        while i < n
            invariant
                keys_wf(self.api_keys@),
                tasks_wf(self.tasks@),
                inflight_wf(self.planning_inflight@),
                self.tasks == old(self).tasks,
                self.logs == old(self).logs,
                self.automation_enabled == old(self).automation_enabled,
                self.planned == old(self).planned,
                self.planning_inflight == old(self).planning_inflight,
                n == cs.len(),
                i <= n,
                rest@.len() == n - i,
                rest@ == cs.skip(i as int),
                forall|d: Seq<char>|
                    #[trigger] spec_key_of(self.api_keys@, d) == (match spec_synced_key(
                        cs.take(i as int),
                        d,
                    ) {
                        Some(k) => Some(k),
                        None => spec_key_of(old(self).api_keys@, d),
                    }),
            decreases n - i,
        {
            let ghost orest = rest@;
            let ghost before = self.api_keys@;
            let (device_id, api_key) = rest.remove(0);
            let ghost dv = device_id@;
            let ghost kv = api_key@;
            proof {
                assert(orest[0] == cs[i as int]);
                assert(rest@ =~= cs.skip(i as int + 1));
                assert(cs.take(i as int + 1).drop_last() =~= cs.take(i as int));
                assert(cs.take(i as int + 1).last() == cs[i as int]);
            }
            if api_key.unicode_len() > 0 {
                upsert_key(&mut self.api_keys, device_id, api_key);
                proof {
                    assert forall|d: Seq<char>| #[trigger] spec_key_of(self.api_keys@, d) == (
                    match spec_synced_key(cs.take(i as int + 1), d) {
                        Some(k) => Some(k),
                        None => spec_key_of(old(self).api_keys@, d),
                    }) by {
                        if d == dv {
                            assert(spec_key_of(self.api_keys@, d) == Some(kv));
                            assert(spec_synced_key(cs.take(i as int + 1), d) == Some(kv));
                        } else {
                            assert(spec_key_of(self.api_keys@, d) == spec_key_of(before, d));
                            assert(spec_synced_key(cs.take(i as int + 1), d) == spec_synced_key(
                                cs.take(i as int),
                                d,
                            ));
                        }
                    }
                }
            } else {
                proof {
                    assert forall|d: Seq<char>| spec_synced_key(cs.take(i as int + 1), d)
                        == spec_synced_key(cs.take(i as int), d) by {
                        assert(cs[i as int].1@.len() == 0);
                    }
                }
            }
            i = i + 1;
        }
        proof {
            assert(cs.take(n as int) =~= cs);
        }
        Ok(())
    }

    /// The key stored for one device, if any.
    pub fn get_api_key(&self, device_id: &str) -> (r: Option<String>)
        requires
            self.wf(),
        ensures
            match r {
                Some(k) => spec_key_of(self.api_keys@, device_id@) == Some(k@),
                None => spec_key_of(self.api_keys@, device_id@) is None,
            },
    {
        let mut i: usize = 0;
        proof {
            assert(self.api_keys@.skip(0) =~= self.api_keys@);
        }
        while i < self.api_keys.len()
            invariant
                i <= self.api_keys@.len(),
                spec_key_of(self.api_keys@, device_id@) == spec_key_of(
                    self.api_keys@.skip(i as int),
                    device_id@,
                ),
            decreases self.api_keys@.len() - i,
        {
            proof {
                let tail = self.api_keys@.skip(i as int);
                assert(tail[0] == self.api_keys@[i as int]);
                assert(tail.drop_first() =~= self.api_keys@.skip(i as int + 1));
            }
            if crate::strutil::str_eq(self.api_keys[i].0.as_str(), device_id) {
                return Some(self.api_keys[i].1.clone());
            }
            i = i + 1;
        }
        proof {
            assert(self.api_keys@.skip(self.api_keys@.len() as int) =~= Seq::<(
                String,
                String,
            )>::empty());
        }
        None
    }

    /// Marks a date as being planned.  Returns false, changing nothing,
    /// when a planning pass for that date is already under way: the
    /// caller must then drop the request.
    pub fn try_begin_planning(&mut self, date: &str) -> (r: bool)
        requires
            old(self).wf(),
        ensures
            final(self).wf(),
            r == !inflight_contains(old(self).planning_inflight@, date@),
            final(self).tasks == old(self).tasks,
            final(self).logs == old(self).logs,
            final(self).api_keys == old(self).api_keys,
            final(self).automation_enabled == old(self).automation_enabled,
            final(self).planned == old(self).planned,
            r ==> final(self).planning_inflight@.len() == old(self).planning_inflight@.len() + 1
                && (forall|k: int|
                0 <= k < old(self).planning_inflight@.len() ==> final(self).planning_inflight@[k]
                    == old(self).planning_inflight@[k]) && final(self).planning_inflight@.last()@
                == date@,
            !r ==> final(self).planning_inflight == old(self).planning_inflight,
            inflight_contains(final(self).planning_inflight@, date@),
    {
        let mut i: usize = 0;
        while i < self.planning_inflight.len()
            invariant
                *self == *old(self),
                old(self).wf(),
                i <= self.planning_inflight@.len(),
                forall|k: int| 0 <= k < i ==> (#[trigger] self.planning_inflight@[k])@ != date@,
            decreases self.planning_inflight@.len() - i,
        {
            if crate::strutil::str_eq(self.planning_inflight[i].as_str(), date) {
                proof {
                    assert(inflight_contains(self.planning_inflight@, date@));
                }
                return false;
            }
            i = i + 1;
        }
        self.planning_inflight.push(date.to_owned());
        proof {
            let ds = self.planning_inflight@;
            assert(ds.last()@ == date@);
            assert(inflight_contains(ds, date@));
            assert forall|a: int, b: int| 0 <= a < b < ds.len() implies (#[trigger] ds[a])@ != (
            #[trigger] ds[b])@ by {
                if b == ds.len() - 1 {
                    assert(ds[a] == old(self).planning_inflight@[a]);
                }
            }
        }
        true
    }

    /// Clears a date's in-flight marker, whether planning succeeded or
    /// failed, so a stuck marker can never block replanning forever.
    pub fn finish_planning(&mut self, date: &str)
        requires
            old(self).wf(),
        ensures
            final(self).wf(),
            final(self).tasks == old(self).tasks,
            final(self).logs == old(self).logs,
            final(self).api_keys == old(self).api_keys,
            final(self).automation_enabled == old(self).automation_enabled,
            final(self).planned == old(self).planned,
            !inflight_contains(final(self).planning_inflight@, date@),
            forall|d: Seq<char>|
                d != date@ ==> inflight_contains(final(self).planning_inflight@, d)
                    == inflight_contains(old(self).planning_inflight@, d),
    {
        let mut i: usize = 0;
        while i < self.planning_inflight.len()
            invariant
                *self == *old(self),
                old(self).wf(),
                i <= self.planning_inflight@.len(),
                forall|k: int| 0 <= k < i ==> (#[trigger] self.planning_inflight@[k])@ != date@,
            decreases self.planning_inflight@.len() - i,
        {
            if crate::strutil::str_eq(self.planning_inflight[i].as_str(), date) {
                let ghost ds = self.planning_inflight@;
                let ghost di = i as int;
                self.planning_inflight.remove(i);
                proof {
                    let nw = self.planning_inflight@;
                    assert(nw == ds.remove(di));
                    assert(nw.len() == ds.len() - 1);
                    assert forall|k: int| 0 <= k < nw.len() implies (#[trigger] nw[k])@ != date@ by {
                        if k < di {
                            assert(nw[k] == ds[k]);
                            assert(ds[k]@ != ds[di]@);
                        } else {
                            assert(nw[k] == ds[k + 1]);
                            assert(ds[k + 1]@ != ds[di]@);
                        }
                    }
                    assert forall|a: int, b: int| 0 <= a < b < nw.len() implies (
                    #[trigger] nw[a])@ != (#[trigger] nw[b])@ by {
                        if b < di {
                            assert(nw[a] == ds[a] && nw[b] == ds[b]);
                        } else if a < di {
                            assert(nw[a] == ds[a] && nw[b] == ds[b + 1]);
                        } else {
                            assert(nw[a] == ds[a + 1] && nw[b] == ds[b + 1]);
                        }
                    }
                    assert forall|d: Seq<char>| d != date@ implies inflight_contains(nw, d)
                        == inflight_contains(ds, d) by {
                        if inflight_contains(nw, d) {
                            let k = choose|k: int| 0 <= k < nw.len() && (#[trigger] nw[k])@ == d;
                            if k < di {
                                assert(ds[k]@ == d);
                            } else {
                                assert(ds[k + 1]@ == d);
                            }
                            assert(inflight_contains(ds, d));
                        }
                        if inflight_contains(ds, d) {
                            let q = choose|q: int| 0 <= q < ds.len() && (#[trigger] ds[q])@ == d;
                            assert(q != di);
                            if q < di {
                                assert(nw[q]@ == d);
                            } else {
                                assert(nw[q - 1]@ == d);
                            }
                            assert(inflight_contains(nw, d));
                        }
                    }
                }
                return ;
            }
            i = i + 1;
        }
        proof {
            assert(!inflight_contains(self.planning_inflight@, date@));
        }
    }

    /// How the priority reordering rewrites one task: the priority
    /// becomes the id's rank in the ordered list, the update stamp the
    /// given instant; everything else is kept.
    pub open spec fn reprioritized(
        t_new: AutomationTask,
        t_old: AutomationTask,
        p: int,
        now: int,
    ) -> bool {
        &&& t_new.id == t_old.id
        &&& t_new.name == t_old.name
        &&& t_new.task_type == t_old.task_type
        &&& t_new.enabled == t_old.enabled
        &&& t_new.schedule == t_old.schedule
        &&& t_new.device_ids == t_old.device_ids
        &&& t_new.config == t_old.config
        &&& t_new.last_run == t_old.last_run
        &&& t_new.next_run == t_old.next_run
        &&& t_new.run_count == t_old.run_count
        &&& t_new.error_count == t_old.error_count
        &&& t_new.created_at == t_old.created_at
        &&& t_new.updated_at == now
        &&& t_new.fixed_at == t_old.fixed_at
        &&& t_new.interval_sec == t_old.interval_sec
        &&& t_new.priority == p
        &&& t_new.duration_sec == t_old.duration_sec
    }

    /// Applies a user ordering: each listed task's priority becomes its
    /// rank in the list (lower rank = higher precedence); tasks not
    /// listed keep their priority.  A repeated id gets its last rank.
    pub fn update_priorities(&mut self, args: &UpdatePrioritiesArgs, now: i64) -> (r: Result<
        (),
        String,
    >)
        requires
            old(self).wf(),
            args.ordered_ids@.len() <= i32::MAX,
        ensures
            r is Ok,
            final(self).wf(),
            final(self).logs == old(self).logs,
            final(self).api_keys == old(self).api_keys,
            final(self).automation_enabled == old(self).automation_enabled,
            final(self).planned == old(self).planned,
            final(self).planning_inflight == old(self).planning_inflight,
            final(self).tasks@.len() == old(self).tasks@.len(),
            forall|j: int|
                0 <= j < old(self).tasks@.len() ==> (match spec_last_rank(
                    id_views(args.ordered_ids@),
                    (#[trigger] old(self).tasks@[j]).id@,
                ) {
                    Some(p) => Self::reprioritized(
                        final(self).tasks@[j],
                        old(self).tasks@[j],
                        p,
                        now as int,
                    ),
                    None => final(self).tasks@[j] == old(self).tasks@[j],
                }),
    {
        let n = args.ordered_ids.len();
        let mut k: usize = 0;
        proof {
            assert(id_views(args.ordered_ids@).take(0) =~= Seq::<Seq<char>>::empty());
        }
        while k < n
            invariant
                n == args.ordered_ids@.len(),
                n <= i32::MAX,
                k <= n,
                tasks_wf(self.tasks@),
                keys_wf(self.api_keys@),
                inflight_wf(self.planning_inflight@),
                self.logs == old(self).logs,
                self.api_keys == old(self).api_keys,
                self.automation_enabled == old(self).automation_enabled,
                self.planned == old(self).planned,
                self.planning_inflight == old(self).planning_inflight,
                self.tasks@.len() == old(self).tasks@.len(),
                forall|j: int|
                    0 <= j < old(self).tasks@.len() ==> (match spec_last_rank(
                        id_views(args.ordered_ids@).take(k as int),
                        (#[trigger] old(self).tasks@[j]).id@,
                    ) {
                        Some(p) => Self::reprioritized(
                            self.tasks@[j],
                            old(self).tasks@[j],
                            p,
                            now as int,
                        ),
                        None => self.tasks@[j] == old(self).tasks@[j],
                    }),
                forall|j: int|
                    0 <= j < self.tasks@.len() ==> (#[trigger] self.tasks@[j]).id@ == old(
                        self,
                    ).tasks@[j].id@,
            decreases n - k,
        {
            let ghost ids = id_views(args.ordered_ids@);
            proof {
                assert(ids.take(k as int + 1).drop_last() =~= ids.take(k as int));
                assert(ids.take(k as int + 1).last() == ids[k as int]);
                assert(ids[k as int] == args.ordered_ids@[k as int]@);
            }
            match find_task_index(&self.tasks, args.ordered_ids[k].as_str()) {
                Some(ti) => {
                    self.tasks[ti].priority = k as i32;
                    self.tasks[ti].updated_at = now;
                    proof {
                        assert forall|j: int| 0 <= j < old(self).tasks@.len() implies (
                        match spec_last_rank(
                            ids.take(k as int + 1),
                            (#[trigger] old(self).tasks@[j]).id@,
                        ) {
                            Some(p) => Self::reprioritized(
                                self.tasks@[j],
                                old(self).tasks@[j],
                                p,
                                now as int,
                            ),
                            None => self.tasks@[j] == old(self).tasks@[j],
                        }) by {
                            if j != ti {
                                assert(self.tasks@[j].id@ != args.ordered_ids@[k as int]@);
                            }
                        }
                    }
                },
                None => {
                    proof {
                        assert forall|j: int| 0 <= j < old(self).tasks@.len() implies (
                        match spec_last_rank(
                            ids.take(k as int + 1),
                            (#[trigger] old(self).tasks@[j]).id@,
                        ) {
                            Some(p) => Self::reprioritized(
                                self.tasks@[j],
                                old(self).tasks@[j],
                                p,
                                now as int,
                            ),
                            None => self.tasks@[j] == old(self).tasks@[j],
                        }) by {
                            assert(spec_find_task(self.tasks@, ids[k as int]) is None);
                            lemma_find_none(self.tasks@, ids[k as int]);
                        }
                    }
                },
            }
            k = k + 1;
        }
        proof {
            assert(id_views(args.ordered_ids@).take(n as int) =~= id_views(args.ordered_ids@));
        }
        Ok(())
    }
}

/// The rank of the last occurrence of `id` in the ordered list, if any.
pub open spec fn spec_last_rank(order: Seq<Seq<char>>, id: Seq<char>) -> Option<int>
    decreases order.len(),
{
    if order.len() == 0 {
        None
    } else if order.last() == id {
        Some(order.len() - 1)
    } else {
        spec_last_rank(order.drop_last(), id)
    }
}

/// A missing task under an id means no stored task carries it.
proof fn lemma_find_none(tasks: Seq<AutomationTask>, id: Seq<char>)
    requires
        spec_find_task(tasks, id) is None,
    ensures
        forall|j: int| 0 <= j < tasks.len() ==> (#[trigger] tasks[j]).id@ != id,
    decreases tasks.len(),
{
    if tasks.len() > 0 {
        lemma_find_none(tasks.drop_first(), id);
        assert forall|j: int| 0 <= j < tasks.len() implies (#[trigger] tasks[j]).id@ != id by {
            if j > 0 {
                assert(tasks.drop_first()[j - 1] == tasks[j]);
            }
        }
    }
}

/// The key a bulk sync leaves for a device: the last pair of the list
/// naming the device with a non-empty key, if any (pairs with an empty
/// key are ignored).
pub open spec fn spec_synced_key(cs: Seq<(String, String)>, device: Seq<char>) -> Option<
    Seq<char>,
>
    decreases cs.len(),
{
    if cs.len() == 0 {
        None
    } else if cs.last().0@ == device && cs.last().1@.len() > 0 {
        Some(cs.last().1@)
    } else {
        spec_synced_key(cs.drop_last(), device)
    }
}

/// The key stored under a device id, if any.
pub open spec fn spec_key_of(ks: Seq<(String, String)>, device: Seq<char>) -> Option<Seq<char>>
    decreases ks.len(),
{
    if ks.len() == 0 {
        None
    } else if ks[0].0@ == device {
        Some(ks[0].1@)
    } else {
        spec_key_of(ks.drop_first(), device)
    }
}

/// Stores a key under a device id, replacing any previous one.
fn upsert_key(ks: &mut Vec<(String, String)>, device_id: String, api_key: String)
    requires
        keys_wf(old(ks)@),
    ensures
        keys_wf(final(ks)@),
        spec_key_of(final(ks)@, device_id@) == Some(api_key@),
        forall|d: Seq<char>|
            d != device_id@ ==> #[trigger] spec_key_of(final(ks)@, d) == spec_key_of(old(ks)@, d),
{
    let ghost orig = ks@;
    let mut i: usize = 0;
    while i < ks.len()
        invariant
            orig == ks@,
            orig == old(ks)@,
            keys_wf(orig),
            i <= orig.len(),
            forall|k: int| 0 <= k < i ==> (#[trigger] orig[k]).0@ != device_id@,
        decreases orig.len() - i,
    {
        if crate::strutil::str_eq(ks[i].0.as_str(), device_id.as_str()) {
            let ghost j = i as int;
            let ghost dv = device_id@;
            let ghost kv = api_key@;
            ks[i] = (device_id, api_key);
            proof {
                lemma_key_of_update(orig, ks@, j, dv, kv);
            }
            return ;
        }
        i = i + 1;
    }
    ks.push((device_id, api_key));
    proof {
        let ksv = ks@;
        assert forall|a: int, b: int| 0 <= a < b < ksv.len() implies (#[trigger] ksv[a]).0@ != (
        #[trigger] ksv[b]).0@ by {
            if b == ksv.len() - 1 {
                assert(ksv[a] == orig[a]);
            }
        }
        lemma_key_of_append(orig, device_id@, api_key@, ksv);
    }
}

proof fn lemma_key_of_update(
    orig: Seq<(String, String)>,
    upd: Seq<(String, String)>,
    j: int,
    device: Seq<char>,
    key: Seq<char>,
)
    requires
        keys_wf(orig),
        0 <= j < orig.len(),
        orig[j].0@ == device,
        upd.len() == orig.len(),
        upd[j].0@ == device,
        upd[j].1@ == key,
        forall|k: int| 0 <= k < orig.len() && k != j ==> upd[k] == orig[k],
    ensures
        keys_wf(upd),
        spec_key_of(upd, device) == Some(key),
        forall|d: Seq<char>| d != device ==> #[trigger] spec_key_of(upd, d) == spec_key_of(orig, d),
    decreases orig.len(),
{
    reveal_with_fuel(spec_key_of, 3);
    assert forall|a: int, b: int| 0 <= a < b < upd.len() implies (#[trigger] upd[a]).0@ != (
    #[trigger] upd[b]).0@ by {
        assert(orig[a].0@ != orig[b].0@);
        if a != j && b != j {
        } else if a == j {
            assert(upd[b] == orig[b]);
        } else {
            assert(upd[a] == orig[a]);
        }
    }
    if j == 0 {
        assert forall|d: Seq<char>| d != device implies #[trigger] spec_key_of(upd, d)
            == spec_key_of(orig, d) by {
            assert(upd.drop_first() =~= orig.drop_first());
        }
    } else {
        assert(upd[0] == orig[0]);
        assert forall|a: int, b: int|
            0 <= a < b < orig.drop_first().len() implies (#[trigger] orig.drop_first()[a]).0@ != (
        #[trigger] orig.drop_first()[b]).0@ by {
            assert(orig.drop_first()[a] == orig[a + 1]);
            assert(orig.drop_first()[b] == orig[b + 1]);
        }
        assert(upd.drop_first()[j - 1].0@ == device);
        assert forall|k: int|
            0 <= k < orig.drop_first().len() && k != j - 1 implies #[trigger] upd.drop_first()[k]
            == orig.drop_first()[k] by {
            assert(upd.drop_first()[k] == upd[k + 1]);
            assert(orig.drop_first()[k] == orig[k + 1]);
        }
        lemma_key_of_update(orig.drop_first(), upd.drop_first(), j - 1, device, key);
        assert(orig[0].0@ != device);
        assert forall|d: Seq<char>| d != device implies #[trigger] spec_key_of(upd, d)
            == spec_key_of(orig, d) by {
            if upd[0].0@ != d {
                assert(spec_key_of(upd, d) == spec_key_of(upd.drop_first(), d));
                assert(spec_key_of(orig, d) == spec_key_of(orig.drop_first(), d));
            }
        }
    }
}

proof fn lemma_key_of_append(
    orig: Seq<(String, String)>,
    device: Seq<char>,
    key: Seq<char>,
    pushed: Seq<(String, String)>,
)
    requires
        pushed.len() == orig.len() + 1,
        forall|k: int| 0 <= k < orig.len() ==> #[trigger] pushed[k] == orig[k],
        pushed.last().0@ == device,
        pushed.last().1@ == key,
        forall|k: int| 0 <= k < orig.len() ==> (#[trigger] orig[k]).0@ != device,
    ensures
        spec_key_of(pushed, device) == Some(key),
        forall|d: Seq<char>|
            d != device ==> #[trigger] spec_key_of(pushed, d) == spec_key_of(orig, d),
    decreases orig.len(),
{
    reveal_with_fuel(spec_key_of, 3);
    if orig.len() == 0 {
        assert(pushed[0].0@ == device);
        assert forall|d: Seq<char>| d != device implies #[trigger] spec_key_of(pushed, d)
            == spec_key_of(orig, d) by {
            assert(pushed.drop_first() =~= Seq::<(String, String)>::empty());
            assert(spec_key_of(pushed, d) == spec_key_of(pushed.drop_first(), d));
        }
    } else {
        assert(pushed[0] == orig[0]);
        assert(pushed.drop_first().len() == orig.drop_first().len() + 1);
        assert forall|k: int|
            0 <= k < orig.drop_first().len() implies #[trigger] pushed.drop_first()[k]
            == orig.drop_first()[k] by {
            assert(pushed.drop_first()[k] == pushed[k + 1]);
        }
        assert(pushed.drop_first().last() == pushed.last());
        lemma_key_of_append(orig.drop_first(), device, key, pushed.drop_first());
        assert forall|d: Seq<char>| d != device implies #[trigger] spec_key_of(pushed, d)
            == spec_key_of(orig, d) by {
            if pushed[0].0@ != d {
                assert(spec_key_of(pushed, d) == spec_key_of(pushed.drop_first(), d));
                assert(spec_key_of(orig, d) == spec_key_of(orig.drop_first(), d));
            }
        }
        assert(spec_key_of(pushed, device) == Some(key));
    }
}

/// How storing (adding or updating) stamps a task: it gets the given
/// id and stamps; every other field is kept from the submitted task.
pub open spec fn stored_task(
    t2: AutomationTask,
    submitted: AutomationTask,
    id: String,
    created_at: int,
    updated_at: int,
) -> bool {
    &&& t2.id == id
    &&& t2.name == submitted.name
    &&& t2.task_type == submitted.task_type
    &&& t2.enabled == submitted.enabled
    &&& t2.schedule == submitted.schedule
    &&& t2.device_ids == submitted.device_ids
    &&& t2.config == submitted.config
    &&& t2.last_run == submitted.last_run
    &&& t2.next_run == submitted.next_run
    &&& t2.run_count == submitted.run_count
    &&& t2.error_count == submitted.error_count
    &&& t2.created_at == created_at
    &&& t2.updated_at == updated_at
    &&& t2.fixed_at == submitted.fixed_at
    &&& t2.interval_sec == submitted.interval_sec
    &&& t2.priority == submitted.priority
    &&& t2.duration_sec == submitted.duration_sec
}

/// Whether the collection stores, under a fresh 36-character id, the
/// submitted task stamped at `now`.
pub open spec fn added_under(
    ts: Seq<AutomationTask>,
    submitted: AutomationTask,
    id: String,
    now: i64,
) -> bool {
    &&& spec_find_task(ts, id@) matches Some(t2) && stored_task(
        t2,
        submitted,
        id,
        now as int,
        now as int,
    )
    &&& id@.len() == 36
}

/// The first stored match of an id is the task at the first matching
/// index.
proof fn lemma_find_first(ts: Seq<AutomationTask>, id: Seq<char>, i: int)
    requires
        0 <= i < ts.len(),
        ts[i].id@ == id,
        forall|k: int| 0 <= k < i ==> (#[trigger] ts[k]).id@ != id,
    ensures
        spec_find_task(ts, id) == Some(ts[i]),
    decreases i,
{
    if i > 0 {
        assert forall|k: int|
            0 <= k < i - 1 implies (#[trigger] ts.drop_first()[k]).id@ != id by {
            assert(ts.drop_first()[k] == ts[k + 1]);
        }
        assert(ts.drop_first()[i - 1] == ts[i]);
        lemma_find_first(ts.drop_first(), id, i - 1);
    }
}

impl SimpleAutomationManager {
    /// Stores a task under the given id with the given stamps: an
    /// existing task with that id is replaced in place, otherwise the
    /// task is appended.
    fn store_task(&mut self, t2: AutomationTask)
        requires
            old(self).wf(),
        ensures
            final(self).wf(),
            final(self).logs == old(self).logs,
            final(self).api_keys == old(self).api_keys,
            final(self).automation_enabled == old(self).automation_enabled,
            final(self).planned == old(self).planned,
            final(self).planning_inflight == old(self).planning_inflight,
            spec_find_task(final(self).tasks@, t2.id@) == Some(t2),
            forall|j: int|
                0 <= j < old(self).tasks@.len() && (#[trigger] old(self).tasks@[j]).id@ != t2.id@
                    ==> final(self).tasks@[j] == old(self).tasks@[j],
            (exists|j: int|
                0 <= j < old(self).tasks@.len() && (#[trigger] old(self).tasks@[j]).id@ == t2.id@)
                ==> final(self).tasks@.len() == old(self).tasks@.len(),
            !(exists|j: int|
                0 <= j < old(self).tasks@.len() && (#[trigger] old(self).tasks@[j]).id@ == t2.id@)
                ==> final(self).tasks@ == old(self).tasks@.push(t2),
            forall|j: int|
                0 <= j < final(self).tasks@.len() && (#[trigger] final(self).tasks@[j]).id@
                    == t2.id@ ==> final(self).tasks@[j] == t2,
    {
        let ghost orig = self.tasks@;
        let mut i: usize = 0;
        while i < self.tasks.len()
            invariant
                *self == *old(self),
                old(self).wf(),
                orig == self.tasks@,
                i <= orig.len(),
                forall|k: int| 0 <= k < i ==> (#[trigger] orig[k]).id@ != t2.id@,
            decreases orig.len() - i,
        {
            if crate::strutil::str_eq(self.tasks[i].id.as_str(), t2.id.as_str()) {
                let ghost j = i as int;
                let ghost t2g = t2;
                self.tasks[i] = t2;
                proof {
                    let nw = self.tasks@;
                    assert(nw == orig.update(j, t2g));
                    assert forall|a: int, b: int| 0 <= a < b < nw.len() implies (
                    #[trigger] nw[a]).id@ != (#[trigger] nw[b]).id@ by {
                        if a != j && b != j {
                            assert(nw[a] == orig[a] && nw[b] == orig[b]);
                        } else if a == j {
                            assert(nw[b] == orig[b]);
                            assert(orig[j].id@ == t2g.id@);
                        } else {
                            assert(nw[a] == orig[a]);
                            assert(orig[j].id@ == t2g.id@);
                        }
                    }
                    assert forall|k: int| 0 <= k < j implies (#[trigger] nw[k]).id@ != t2g.id@ by {
                        assert(nw[k] == orig[k]);
                    }
                    lemma_find_first(nw, t2g.id@, j);
                    assert forall|k: int|
                        0 <= k < nw.len() && (#[trigger] nw[k]).id@ == t2g.id@ implies nw[k] == t2g
                    by {
                        if k != j {
                            assert(nw[k] == orig[k]);
                            assert(orig[j].id@ == t2g.id@);
                        }
                    }
                }
                return ;
            }
            i = i + 1;
        }
        let ghost t2g = t2;
        self.tasks.push(t2);
        proof {
            let nw = self.tasks@;
            assert(nw == orig.push(t2g));
            assert forall|a: int, b: int| 0 <= a < b < nw.len() implies (#[trigger] nw[a]).id@ != (
            #[trigger] nw[b]).id@ by {
                if b == nw.len() - 1 {
                    assert(nw[a] == orig[a]);
                } else {
                    assert(nw[a] == orig[a] && nw[b] == orig[b]);
                }
            }
            assert forall|k: int| 0 <= k < nw.len() - 1 implies (#[trigger] nw[k]).id@ != t2g.id@
            by {
                assert(nw[k] == orig[k]);
            }
            lemma_find_first(nw, t2g.id@, nw.len() - 1);
        }
    }

    /// Adds a task: it gets a fresh generated id and creation stamps,
    /// and is stored under that id.
    pub fn add_task(&mut self, task: AutomationTask) -> (r: Result<(), String>)
        requires
            old(self).wf(),
        ensures
            r is Ok,
            final(self).wf(),
            final(self).logs == old(self).logs,
            final(self).api_keys == old(self).api_keys,
            final(self).automation_enabled == old(self).automation_enabled,
            final(self).planned == old(self).planned,
            final(self).planning_inflight == old(self).planning_inflight,
            exists|id: String, now: i64|
                #[trigger] added_under(final(self).tasks@, task, id, now) && (forall|j: int|
                    0 <= j < old(self).tasks@.len() && (#[trigger] old(self).tasks@[j]).id@ != id@
                        ==> final(self).tasks@[j] == old(self).tasks@[j]),
            old(self).tasks@.len() <= final(self).tasks@.len() <= old(self).tasks@.len() + 1,
    {
        let id = crate::bridge::new_uuid();
        let now = crate::bridge::now_parts().unix_seconds;
        let ghost idg = id;
        let ghost nowg = now;
        let r = self.add_task_with(task, id, now);
        proof {
            assert(added_under(self.tasks@, task, idg, nowg));
        }
        r
    }

    /// Adds a task under a caller-chosen id and instant: the stored task
    /// carries the given id, with creation and update stamps at `now`.
    pub fn add_task_with(&mut self, task: AutomationTask, id: String, now: i64) -> (r: Result<
        (),
        String,
    >)
        requires
            old(self).wf(),
        ensures
            r is Ok,
            final(self).wf(),
            final(self).logs == old(self).logs,
            final(self).api_keys == old(self).api_keys,
            final(self).automation_enabled == old(self).automation_enabled,
            final(self).planned == old(self).planned,
            final(self).planning_inflight == old(self).planning_inflight,
            spec_find_task(final(self).tasks@, id@) matches Some(t2) && stored_task(
                t2,
                task,
                id,
                now as int,
                now as int,
            ),
            forall|j: int|
                0 <= j < old(self).tasks@.len() && (#[trigger] old(self).tasks@[j]).id@ != id@
                    ==> final(self).tasks@[j] == old(self).tasks@[j],
            old(self).tasks@.len() <= final(self).tasks@.len() <= old(self).tasks@.len() + 1,
    {
        let t2 = AutomationTask {
            id,
            name: task.name,
            task_type: task.task_type,
            enabled: task.enabled,
            schedule: task.schedule,
            device_ids: task.device_ids,
            config: task.config,
            last_run: task.last_run,
            next_run: task.next_run,
            run_count: task.run_count,
            error_count: task.error_count,
            created_at: now,
            updated_at: now,
            fixed_at: task.fixed_at,
            interval_sec: task.interval_sec,
            priority: task.priority,
            duration_sec: task.duration_sec,
        };
        self.store_task(t2);
        Ok(())
    }

    /// Updates a task: the submitted value replaces the stored one under
    /// its own id (or is added), with the update stamp set to `now` and
    /// the submitted creation stamp kept.
    pub fn update_task(&mut self, task: AutomationTask, now: i64) -> (r: Result<(), String>)
        requires
            old(self).wf(),
        ensures
            r is Ok,
            final(self).wf(),
            final(self).logs == old(self).logs,
            final(self).api_keys == old(self).api_keys,
            final(self).automation_enabled == old(self).automation_enabled,
            final(self).planned == old(self).planned,
            final(self).planning_inflight == old(self).planning_inflight,
            spec_find_task(final(self).tasks@, task.id@) matches Some(t2) && stored_task(
                t2,
                task,
                task.id,
                task.created_at as int,
                now as int,
            ),
            forall|j: int|
                0 <= j < old(self).tasks@.len() && (#[trigger] old(self).tasks@[j]).id@ != task.id@
                    ==> final(self).tasks@[j] == old(self).tasks@[j],
    {
        let t2 = AutomationTask {
            id: task.id.clone(),
            name: task.name,
            task_type: task.task_type,
            enabled: task.enabled,
            schedule: task.schedule,
            device_ids: task.device_ids,
            config: task.config,
            last_run: task.last_run,
            next_run: task.next_run,
            run_count: task.run_count,
            error_count: task.error_count,
            created_at: task.created_at,
            updated_at: now,
            fixed_at: task.fixed_at,
            interval_sec: task.interval_sec,
            priority: task.priority,
            duration_sec: task.duration_sec,
        };
        self.store_task(t2);
        Ok(())
    }

    /// Deletes the task stored under an id; deleting a missing id is a
    /// no-op.
    pub fn delete_task(&mut self, task_id: &str) -> (r: Result<(), String>)
        requires
            old(self).wf(),
        ensures
            r is Ok,
            final(self).wf(),
            final(self).logs == old(self).logs,
            final(self).api_keys == old(self).api_keys,
            final(self).automation_enabled == old(self).automation_enabled,
            final(self).planned == old(self).planned,
            final(self).planning_inflight == old(self).planning_inflight,
            forall|j: int|
                0 <= j < final(self).tasks@.len() ==> (#[trigger] final(self).tasks@[j]).id@
                    != task_id@,
            (exists|j: int|
                0 <= j < old(self).tasks@.len() && (#[trigger] old(self).tasks@[j]).id@
                    == task_id@) ==> exists|j: int|
                0 <= j < old(self).tasks@.len() && (#[trigger] old(self).tasks@[j]).id@ == task_id@
                    && final(self).tasks@ == old(self).tasks@.remove(j),
            !(exists|j: int|
                0 <= j < old(self).tasks@.len() && (#[trigger] old(self).tasks@[j]).id@
                    == task_id@) ==> final(self).tasks@ == old(self).tasks@,
    {
        let ghost orig = self.tasks@;
        let mut i: usize = 0;
        while i < self.tasks.len()
            invariant
                *self == *old(self),
                old(self).wf(),
                orig == self.tasks@,
                i <= orig.len(),
                forall|k: int| 0 <= k < i ==> (#[trigger] orig[k]).id@ != task_id@,
            decreases orig.len() - i,
        {
            if crate::strutil::str_eq(self.tasks[i].id.as_str(), task_id) {
                let ghost j = i as int;
                self.tasks.remove(i);
                proof {
                    let nw = self.tasks@;
                    assert(nw == orig.remove(j));
                    assert forall|k: int| 0 <= k < nw.len() implies (#[trigger] nw[k]).id@
                        != task_id@ by {
                        if k < j {
                            assert(nw[k] == orig[k]);
                        } else {
                            assert(nw[k] == orig[k + 1]);
                            assert(orig[j].id@ == task_id@);
                        }
                    }
                    assert forall|a: int, b: int| 0 <= a < b < nw.len() implies (
                    #[trigger] nw[a]).id@ != (#[trigger] nw[b]).id@ by {
                        if b < j {
                            assert(nw[a] == orig[a] && nw[b] == orig[b]);
                        } else if a < j {
                            assert(nw[a] == orig[a] && nw[b] == orig[b + 1]);
                        } else {
                            assert(nw[a] == orig[a + 1] && nw[b] == orig[b + 1]);
                        }
                    }
                }
                return Ok(());
            }
            i = i + 1;
        }
        Ok(())
    }

    /// A snapshot of every stored task.
    pub fn get_tasks(&self) -> (r: Result<Vec<AutomationTask>, String>)
        ensures
            r matches Ok(ts) && ts@.len() == self.tasks@.len() && forall|i: int|
                0 <= i < ts@.len() ==> task_eq(#[trigger] ts@[i], self.tasks@[i]),
    {
        let mut out: Vec<AutomationTask> = Vec::new();
        let mut i: usize = 0;
        while i < self.tasks.len()
            invariant
                i <= self.tasks@.len(),
                out@.len() == i,
                forall|k: int| 0 <= k < i ==> task_eq(#[trigger] out@[k], self.tasks@[k]),
            decreases self.tasks@.len() - i,
        {
            out.push(self.tasks[i].duplicate());
            i = i + 1;
        }
        Ok(out)
    }

    /// A snapshot of the task stored under an id.
    pub fn get_task(&self, task_id: &str) -> (r: Option<AutomationTask>)
        ensures
            match r {
                Some(t) => spec_find_task(self.tasks@, task_id@) matches Some(f) && task_eq(t, f),
                None => spec_find_task(self.tasks@, task_id@) is None,
            },
    {
        match find_task_index(&self.tasks, task_id) {
            Some(i) => Some(self.tasks[i].duplicate()),
            None => None,
        }
    }
}

/// The log order: most recent execution first.
pub open spec fn log_le(a: TaskExecutionLog, b: TaskExecutionLog) -> bool {
    a.executed_at >= b.executed_at
}

/// A log inserted before the first entry it precedes or ties with.
pub open spec fn spec_ins_log(x: TaskExecutionLog, s: Seq<TaskExecutionLog>) -> Seq<
    TaskExecutionLog,
>
    decreases s.len(),
{
    if s.len() == 0 {
        seq![x]
    } else if log_le(x, s[0]) {
        seq![x] + s
    } else {
        seq![s[0]] + spec_ins_log(x, s.drop_first())
    }
}

/// Insertion sort of execution logs, most recent first.
pub open spec fn spec_sort_logs(s: Seq<TaskExecutionLog>) -> Seq<TaskExecutionLog>
    decreases s.len(),
{
    if s.len() == 0 {
        Seq::empty()
    } else {
        spec_ins_log(s.last(), spec_sort_logs(s.drop_last()))
    }
}

proof fn lemma_ins_log_at(s: Seq<TaskExecutionLog>, x: TaskExecutionLog, j: int)
    requires
        0 <= j <= s.len(),
        forall|k: int| 0 <= k < j ==> !log_le(x, #[trigger] s[k]),
        j == s.len() || log_le(x, s[j]),
    ensures
        spec_ins_log(x, s) == s.insert(j, x),
    decreases s.len(),
{
    if s.len() == 0 {
        assert(spec_ins_log(x, s) =~= s.insert(0, x));
    } else if j == 0 {
        assert(spec_ins_log(x, s) =~= s.insert(0, x));
    } else {
        lemma_ins_log_at(s.drop_first(), x, j - 1);
        assert(spec_ins_log(x, s) == seq![s[0]] + s.drop_first().insert(j - 1, x));
        assert(seq![s[0]] + s.drop_first().insert(j - 1, x) =~= s.insert(j, x));
    }
}

fn insert_log(out: &mut Vec<TaskExecutionLog>, x: TaskExecutionLog)
    ensures
        final(out)@ == spec_ins_log(x, old(out)@),
{
    let ghost s = out@;
    let ghost xg = x;
    let mut j: usize = 0;
    while j < out.len()
        invariant_except_break
            s == out@,
            xg == x,
            j <= out@.len(),
            forall|k: int| 0 <= k < j ==> !log_le(xg, #[trigger] s[k]),
        ensures
            s == out@,
            j <= out@.len(),
            forall|k: int| 0 <= k < j ==> !log_le(xg, #[trigger] s[k]),
            j == out@.len() || log_le(xg, s[j as int]),
        decreases out@.len() - j,
    {
        if x.executed_at >= out[j].executed_at {
            break;
        }
        j = j + 1;
    }
    proof {
        lemma_ins_log_at(s, xg, j as int);
    }
    out.insert(j, x);
}

/// The planned-item order for one day's view: by scheduled instant,
/// ties by position.
pub open spec fn planned_le(a: PlannedItem, b: PlannedItem) -> bool {
    a.scheduled_at < b.scheduled_at || (a.scheduled_at == b.scheduled_at && a.position
        <= b.position)
}

/// A planned item inserted before the first it precedes or ties with.
pub open spec fn spec_ins_planned(x: PlannedItem, s: Seq<PlannedItem>) -> Seq<PlannedItem>
    decreases s.len(),
{
    if s.len() == 0 {
        seq![x]
    } else if planned_le(x, s[0]) {
        seq![x] + s
    } else {
        seq![s[0]] + spec_ins_planned(x, s.drop_first())
    }
}

/// Insertion sort of planned items by scheduled instant and position.
pub open spec fn spec_sort_planned(s: Seq<PlannedItem>) -> Seq<PlannedItem>
    decreases s.len(),
{
    if s.len() == 0 {
        Seq::empty()
    } else {
        spec_ins_planned(s.last(), spec_sort_planned(s.drop_last()))
    }
}

proof fn lemma_ins_planned_at(s: Seq<PlannedItem>, x: PlannedItem, j: int)
    requires
        0 <= j <= s.len(),
        forall|k: int| 0 <= k < j ==> !planned_le(x, #[trigger] s[k]),
        j == s.len() || planned_le(x, s[j]),
    ensures
        spec_ins_planned(x, s) == s.insert(j, x),
    decreases s.len(),
{
    if s.len() == 0 {
        assert(spec_ins_planned(x, s) =~= s.insert(0, x));
    } else if j == 0 {
        assert(spec_ins_planned(x, s) =~= s.insert(0, x));
    } else {
        lemma_ins_planned_at(s.drop_first(), x, j - 1);
        assert(spec_ins_planned(x, s) == seq![s[0]] + s.drop_first().insert(j - 1, x));
        assert(seq![s[0]] + s.drop_first().insert(j - 1, x) =~= s.insert(j, x));
    }
}

fn insert_planned(out: &mut Vec<PlannedItem>, x: PlannedItem)
    ensures
        final(out)@ == spec_ins_planned(x, old(out)@),
{
    let ghost s = out@;
    let ghost xg = x;
    let mut j: usize = 0;
    while j < out.len()
        invariant_except_break
            s == out@,
            xg == x,
            j <= out@.len(),
            forall|k: int| 0 <= k < j ==> !planned_le(xg, #[trigger] s[k]),
        ensures
            s == out@,
            j <= out@.len(),
            forall|k: int| 0 <= k < j ==> !planned_le(xg, #[trigger] s[k]),
            j == out@.len() || planned_le(xg, s[j as int]),
        decreases out@.len() - j,
    {
        let c = &out[j];
        if x.scheduled_at < c.scheduled_at || (x.scheduled_at == c.scheduled_at && x.position
            <= c.position) {
            break;
        }
        j = j + 1;
    }
    proof {
        lemma_ins_planned_at(s, xg, j as int);
    }
    out.insert(j, x);
}

impl SimpleAutomationManager {
    /// The execution logs, most recent first, cut to `limit` entries
    /// when one is given.
    pub fn get_logs(&self, limit: Option<usize>) -> (r: Result<Vec<TaskExecutionLog>, String>)
        ensures
            r matches Ok(ls) && ls@ == (match limit {
                Some(l) => spec_sort_logs(self.logs@).take(
                    if l <= self.logs@.len() {
                        l as int
                    } else {
                        self.logs@.len() as int
                    },
                ),
                None => spec_sort_logs(self.logs@),
            }),
    {
        let ghost s = self.logs@;
        let mut out: Vec<TaskExecutionLog> = Vec::new();
        let mut i: usize = 0;
        proof {
            assert(out@ =~= spec_sort_logs(s.take(0)));
        }
        while i < self.logs.len()
            invariant
                s == self.logs@,
                i <= s.len(),
                out@ == spec_sort_logs(s.take(i as int)),
                out@.len() == i,
            decreases s.len() - i,
        {
            proof {
                let tk = s.take(i as int + 1);
                assert(tk.drop_last() =~= s.take(i as int));
                assert(tk.last() == s[i as int]);
            }
            insert_log(&mut out, self.logs[i].duplicate());
            proof {
                lemma_ins_log_len(s[i as int], spec_sort_logs(s.take(i as int)));
            }
            i = i + 1;
        }
        proof {
            assert(s.take(s.len() as int) =~= s);
        }
        match limit {
            Some(l) => {
                if l < out.len() {
                    out.truncate(l);
                    proof {
                        assert(out@ =~= spec_sort_logs(s).take(l as int));
                    }
                } else {
                    proof {
                        assert(out@ =~= spec_sort_logs(s).take(spec_sort_logs(s).len() as int));
                    }
                }
                Ok(out)
            },
            None => Ok(out),
        }
    }

    /// The planned items of one date, ordered by scheduled instant and
    /// position.
    pub fn get_planned_for_date(&self, date: &str) -> (r: Result<Vec<PlannedItem>, String>)
        ensures
            r matches Ok(ps) && ps@ == spec_sort_planned(
                self.planned@.filter(|p: PlannedItem| p.date@ == date@),
            ),
    {
        let ghost s = self.planned@;
        let ghost pred = |p: PlannedItem| p.date@ == date@;
        let mut out: Vec<PlannedItem> = Vec::new();
        let mut i: usize = 0;
        proof {
            reveal(Seq::filter);
            assert(s.take(0) =~= Seq::<PlannedItem>::empty());
            assert(out@ =~= spec_sort_planned(s.take(0).filter(pred)));
        }
        while i < self.planned.len()
            invariant
                s == self.planned@,
                pred == (|p: PlannedItem| p.date@ == date@),
                i <= s.len(),
                out@ == spec_sort_planned(s.take(i as int).filter(pred)),
            decreases s.len() - i,
        {
            proof {
                reveal(Seq::filter);
                let tk = s.take(i as int + 1);
                assert(tk.drop_last() =~= s.take(i as int));
                assert(tk.last() == s[i as int]);
            }
            if crate::strutil::str_eq(self.planned[i].date.as_str(), date) {
                insert_planned(&mut out, self.planned[i].duplicate());
                proof {
                    assert(s.take(i as int + 1).filter(pred) == s.take(i as int).filter(
                        pred,
                    ).push(s[i as int]));
                    assert(spec_sort_planned(s.take(i as int + 1).filter(pred)) == spec_ins_planned(
                        s[i as int],
                        spec_sort_planned(s.take(i as int).filter(pred)),
                    )) by {
                        let f = s.take(i as int + 1).filter(pred);
                        assert(f.drop_last() =~= s.take(i as int).filter(pred));
                        assert(f.last() == s[i as int]);
                    }
                }
            } else {
                proof {
                    assert(s.take(i as int + 1).filter(pred) == s.take(i as int).filter(pred));
                }
            }
            i = i + 1;
        }
        proof {
            assert(s.take(s.len() as int) =~= s);
        }
        Ok(out)
    }

    /// Removes every planned item of one date.
    pub fn clear_planned_for_date(&mut self, date: &str) -> (r: Result<(), String>)
        requires
            old(self).wf(),
        ensures
            r is Ok,
            final(self).wf(),
            final(self).tasks == old(self).tasks,
            final(self).logs == old(self).logs,
            final(self).api_keys == old(self).api_keys,
            final(self).automation_enabled == old(self).automation_enabled,
            final(self).planning_inflight == old(self).planning_inflight,
            final(self).planned@ == old(self).planned@.filter(
                |p: PlannedItem| p.date@ != date@,
            ),
    {
        let ghost s = self.planned@;
        let ghost pred = |p: PlannedItem| p.date@ != date@;
        let mut out: Vec<PlannedItem> = Vec::new();
        let mut i: usize = 0;
        proof {
            reveal(Seq::filter);
            assert(s.take(0) =~= Seq::<PlannedItem>::empty());
            assert(out@ =~= s.take(0).filter(pred));
        }
        while i < self.planned.len()
            invariant
                *self == *old(self),
                old(self).wf(),
                s == self.planned@,
                pred == (|p: PlannedItem| p.date@ != date@),
                i <= s.len(),
                out@ == s.take(i as int).filter(pred),
            decreases s.len() - i,
        {
            proof {
                reveal(Seq::filter);
                let tk = s.take(i as int + 1);
                assert(tk.drop_last() =~= s.take(i as int));
                assert(tk.last() == s[i as int]);
            }
            if !crate::strutil::str_eq(self.planned[i].date.as_str(), date) {
                out.push(self.planned[i].duplicate());
            }
            i = i + 1;
        }
        proof {
            assert(s.take(s.len() as int) =~= s);
        }
        self.planned = out;
        Ok(())
    }
}

proof fn lemma_ins_log_len(x: TaskExecutionLog, s: Seq<TaskExecutionLog>)
    ensures
        spec_ins_log(x, s).len() == s.len() + 1,
    decreases s.len(),
{
    if s.len() > 0 && !log_le(x, s[0]) {
        lemma_ins_log_len(x, s.drop_first());
    }
}

impl SimpleAutomationManager {
    /// Generates one date's planned queue at instant `now`: parses the
    /// date, resolves the local day window, applies the priority order
    /// to the stored tasks, expands and merges every listed task's
    /// occurrences, and replaces that date's planned items with the new
    /// queue.  Returns the number of planned items.
    ///
    /// A date that fails calendar parsing, a day window the calendar
    /// collaborator cannot resolve (or wider than a calendar day can
    /// be), an order too long to rank, or a queue too large to position
    /// is rejected with an error; the first two leave the state
    /// unchanged.
    pub fn generate_planned_for_date(&mut self, date: &str, order: &Vec<String>, now: i64) -> (r:
        Result<usize, String>)
        requires
            old(self).wf(),
        ensures
            final(self).wf(),
            final(self).logs == old(self).logs,
            final(self).api_keys == old(self).api_keys,
            final(self).automation_enabled == old(self).automation_enabled,
            final(self).planning_inflight == old(self).planning_inflight,
            r is Err ==> final(self).planned == old(self).planned,
            (match spec_parse_date(date@) {
                Some((y, m, d)) => (match local_day_bounds(y, m, d) {
                    Some((ws, we)) => {
                        if ws <= we && we - ws <= MAX_WINDOW_SEC && ws <= MAX_PLAN_INSTANT
                            && order@.len() <= i32::MAX {
                            let plan = spec_plan(final(self).tasks@, id_views(order@), ws, we);
                            if plan.len() < u32::MAX {
                                let others = old(self).planned@.filter(
                                    |p: PlannedItem| p.date@ != date@,
                                );
                                &&& r == Ok::<usize, String>(plan.len() as usize)
                                &&& final(self).tasks@.len() == old(self).tasks@.len()
                                &&& (forall|j: int|
                                    0 <= j < old(self).tasks@.len() ==> (match spec_last_rank(
                                        id_views(order@),
                                        (#[trigger] old(self).tasks@[j]).id@,
                                    ) {
                                        Some(p) => Self::reprioritized(
                                            final(self).tasks@[j],
                                            old(self).tasks@[j],
                                            p,
                                            now as int,
                                        ),
                                        None => final(self).tasks@[j] == old(self).tasks@[j],
                                    }))
                                &&& final(self).planned@.len() == others.len() + plan.len()
                                &&& (forall|k: int|
                                    0 <= k < others.len() ==> #[trigger] final(self).planned@[k]
                                        == others[k])
                                &&& items_match(
                                    final(self).planned@.skip(others.len() as int),
                                    plan,
                                    date@,
                                    now as int,
                                    ws as int,
                                )
                            } else {
                                r is Err
                            }
                        } else {
                            r is Err
                        }
                    },
                    None => r is Err && final(self).tasks == old(self).tasks,
                }),
                None => r is Err && final(self).tasks == old(self).tasks,
            }),
    {
        let (y, m, d) = match parse_date(date) {
            Some(t) => t,
            None => {
                return Err(msg_invalid_date());
            },
        };
        let (ws, we) = match day_window(y, m, d) {
            Some(w) => w,
            None => {
                return Err(msg_invalid_date());
            },
        };
        if we < ws || ws > MAX_PLAN_INSTANT {
            return Err(msg_invalid_date());
        }
        match ws.checked_add(MAX_WINDOW_SEC) {
            Some(lim) => {
                if we > lim {
                    return Err(msg_invalid_date());
                }
            },
            None => {
                proof {
                    assert(we as int - ws as int <= MAX_WINDOW_SEC as int);
                }
            },
        }
        if order.len() > i32::MAX as usize {
            return Err(msg_plan_rejected());
        }
        let args = UpdatePrioritiesArgs { ordered_ids: crate::model::dup_strings(order) };
        match self.update_priorities(&args, now) {
            Ok(()) => {},
            Err(e) => {
                return Err(e);
            },
        }
        proof {
            assert(id_views(args.ordered_ids@) =~= id_views(order@));
        }
        let queue = plan_occurrences(&self.tasks, order, ws, we);
        if queue.len() >= u32::MAX as usize {
            return Err(msg_plan_rejected());
        }
        proof {
            lemma_plan_in_window(self.tasks@, id_views(order@), ws, we);
            assert forall|i: int| 0 <= i < queue@.len() implies {
                let o = #[trigger] queue@[i]@;
                ws <= o.start && o.start - ws < 360000 && 0 <= o.end - o.start <= u32::MAX
            } by {
                assert(occ_views(queue@)[i] == queue@[i]@);
                assert(occ_in_window(occ_views(queue@)[i], ws as int, we as int));
            }
        }
        let mut items = build_planned_items(&queue, date, now, ws);
        // replace this date's items, keep every other date's
        let ghost s = self.planned@;
        let ghost pred = |p: PlannedItem| p.date@ != date@;
        let mut out: Vec<PlannedItem> = Vec::new();
        let mut i: usize = 0;
        proof {
            reveal(Seq::filter);
            assert(s.take(0) =~= Seq::<PlannedItem>::empty());
            assert(out@ =~= s.take(0).filter(pred));
        }
        while i < self.planned.len()
            invariant
                s == self.planned@,
                pred == (|p: PlannedItem| p.date@ != date@),
                i <= s.len(),
                out@ == s.take(i as int).filter(pred),
            decreases s.len() - i,
        {
            proof {
                reveal(Seq::filter);
                let tk = s.take(i as int + 1);
                assert(tk.drop_last() =~= s.take(i as int));
                assert(tk.last() == s[i as int]);
            }
            if !crate::strutil::str_eq(self.planned[i].date.as_str(), date) {
                out.push(self.planned[i].duplicate());
            }
            i = i + 1;
        }
        proof {
            assert(s.take(s.len() as int) =~= s);
        }
        let count = items.len();
        let ghost obefore = out@;
        let ghost iview = items@;
        out.append(&mut items);
        proof {
            assert(out@.skip(obefore.len() as int) =~= iview);
            assert forall|k: int| 0 <= k < obefore.len() implies #[trigger] out@[k]
                == obefore[k] by {}
        }
        self.planned = out;
        Ok(count)
    }
}

/// The error text of a date the planner rejects.
fn msg_invalid_date() -> (r: String)
    ensures
        r@ == "invalid date"@,
{
    String::from_str("invalid date")
}

/// The error text of an order or queue too large to rank.
fn msg_plan_rejected() -> (r: String)
    ensures
        r@ == "plan rejected"@,
{
    String::from_str("plan rejected")
}

/// Whether a manual execution's key is stored for the device `d`: the
/// passed key is not blank, and `d` is one of the task's non-blank
/// device ids.
pub open spec fn manual_key_target(t: AutomationTask, api_key: Seq<char>, d: Seq<char>) -> bool {
    &&& crate::strutil::spec_trim(api_key).len() > 0
    &&& crate::strutil::spec_trim(d).len() > 0
    &&& exists|i: int| 0 <= i < t.device_ids@.len() && (#[trigger] t.device_ids@[i])@ == d
}

impl SimpleAutomationManager {
    /// Prepares a manual, plan-bypassing execution of one task: the task
    /// must exist and be enabled; a non-blank key passed along is stored
    /// for each of the task's non-blank devices, so the background
    /// dispatcher can use it too; every other device's key is unchanged.
    /// Returns a snapshot of the task; the caller performs the delivery
    /// and then records the outcome.
    pub fn prepare_manual_execution(&mut self, task_id: &str, api_key: &str) -> (r: Result<
        AutomationTask,
        String,
    >)
        requires
            old(self).wf(),
        ensures
            final(self).wf(),
            final(self).tasks == old(self).tasks,
            final(self).logs == old(self).logs,
            final(self).automation_enabled == old(self).automation_enabled,
            final(self).planned == old(self).planned,
            final(self).planning_inflight == old(self).planning_inflight,
            match r {
                Ok(t) => spec_find_task(old(self).tasks@, task_id@) matches Some(f) && task_eq(t, f)
                    && f.enabled && (forall|d: Seq<char>|
                    #[trigger] spec_key_of(final(self).api_keys@, d) == (if manual_key_target(
                        f,
                        api_key@,
                        d,
                    ) {
                        Some(api_key@)
                    } else {
                        spec_key_of(old(self).api_keys@, d)
                    })),
                Err(e) => final(self).api_keys == old(self).api_keys && ((e@ == "任务不存在"@
                    && spec_find_task(old(self).tasks@, task_id@) is None) || (e@ == "任务已禁用"@
                    && (spec_find_task(old(self).tasks@, task_id@) matches Some(f)
                        && !f.enabled))),
            },
            r is Ok && crate::strutil::spec_trim(api_key@).len() == 0 ==> final(self).api_keys
                == old(self).api_keys,
    {
        let ti = match find_task_index(&self.tasks, task_id) {
            Some(ti) => ti,
            None => {
                return Err(String::from_str("任务不存在"));
            },
        };
        if !self.tasks[ti].enabled {
            return Err(String::from_str("任务已禁用"));
        }
        let ghost f = self.tasks@[ti as int];
        let ghost devs = self.tasks@[ti as int].device_ids@;
        if crate::strutil::trim(api_key).unicode_len() > 0 {
            let n = self.tasks[ti].device_ids.len();
            let mut k: usize = 0;
            while k < n
                invariant
                    tasks_wf(self.tasks@),
                    keys_wf(self.api_keys@),
                    inflight_wf(self.planning_inflight@),
                    self.tasks == old(self).tasks,
                    self.logs == old(self).logs,
                    self.automation_enabled == old(self).automation_enabled,
                    self.planned == old(self).planned,
                    self.planning_inflight == old(self).planning_inflight,
                    ti < self.tasks@.len(),
                    devs == self.tasks@[ti as int].device_ids@,
                    n == devs.len(),
                    k <= n,
                    crate::strutil::spec_trim(api_key@).len() > 0,
                    forall|d: Seq<char>|
                        #[trigger] spec_key_of(self.api_keys@, d) == (
                        if crate::strutil::spec_trim(d).len() > 0 && (exists|q: int|
                            0 <= q < k && (#[trigger] devs[q])@ == d) {
                            Some(api_key@)
                        } else {
                            spec_key_of(old(self).api_keys@, d)
                        }),
                decreases n - k,
            {
                let did = self.tasks[ti].device_ids[k].clone();
                let ghost dv = did@;
                let ghost before = self.api_keys@;
                if crate::strutil::trim(did.as_str()).unicode_len() > 0 {
                    upsert_key(&mut self.api_keys, did, String::from_str(api_key).clone());
                    proof {
                        assert(devs[k as int]@ == dv);
                        assert forall|d: Seq<char>| #[trigger] spec_key_of(self.api_keys@, d) == (
                        if crate::strutil::spec_trim(d).len() > 0 && (exists|q: int|
                            0 <= q < k + 1 && (#[trigger] devs[q])@ == d) {
                            Some(api_key@)
                        } else {
                            spec_key_of(old(self).api_keys@, d)
                        }) by {
                            if d == dv {
                                assert(spec_key_of(self.api_keys@, d) == Some(api_key@));
                                assert((devs[k as int])@ == d);
                            } else {
                                assert(spec_key_of(self.api_keys@, d) == spec_key_of(before, d));
                                assert forall|q: int|
                                    0 <= q < k + 1 && (#[trigger] devs[q])@ == d implies q < k by {
                                    if q == k {
                                        assert(devs[q]@ == dv);
                                    }
                                }
                            }
                        }
                    }
                } else {
                    proof {
                        assert(crate::strutil::spec_trim(dv).len() == 0);
                        assert forall|d: Seq<char>| #[trigger] spec_key_of(self.api_keys@, d) == (
                        if crate::strutil::spec_trim(d).len() > 0 && (exists|q: int|
                            0 <= q < k + 1 && (#[trigger] devs[q])@ == d) {
                            Some(api_key@)
                        } else {
                            spec_key_of(old(self).api_keys@, d)
                        }) by {
                            if d != dv {
                                assert forall|q: int|
                                    0 <= q < k + 1 && (#[trigger] devs[q])@ == d implies q < k by {
                                    if q == k {
                                        assert(devs[q]@ == dv);
                                    }
                                }
                            }
                        }
                    }
                }
                k = k + 1;
            }
            proof {
                assert forall|d: Seq<char>| #[trigger] spec_key_of(self.api_keys@, d) == (
                if manual_key_target(f, api_key@, d) {
                    Some(api_key@)
                } else {
                    spec_key_of(old(self).api_keys@, d)
                }) by {}
            }
        } else {
            proof {
                assert forall|d: Seq<char>| #[trigger] spec_key_of(self.api_keys@, d) == (
                if manual_key_target(f, api_key@, d) {
                    Some(api_key@)
                } else {
                    spec_key_of(old(self).api_keys@, d)
                }) by {}
            }
        }
        proof {
            assert(self.tasks@[ti as int].id@ == task_id@);
        }
        Ok(self.tasks[ti].duplicate())
    }
}

impl SimpleAutomationManager {
    /// One date's raw, unmerged occurrences, task by task in the order's
    /// ranks: the auditable trace of what the expander produced before
    /// conflict resolution, which the embedding program persists per
    /// task.  The date is validated exactly as plan generation does.
    pub fn unmerged_occurrences_for_date(&self, date: &str, order: &Vec<String>) -> (r: Result<
        Vec<crate::expand::Occurrence>,
        String,
    >)
        ensures
            match r {
                Ok(os) => spec_parse_date(date@) matches Some((y, m, d))
                    && local_day_bounds(y, m, d) matches Some((ws, we)) && ws <= we && we - ws
                    <= MAX_WINDOW_SEC && ws <= MAX_PLAN_INSTANT
                    && occ_views(os@) == crate::plan::spec_expand_all(
                    self.tasks@,
                    id_views(order@),
                    0,
                    ws,
                    we,
                ),
                Err(_) => true,
            },
    {
        let (y, m, d) = match parse_date(date) {
            Some(t) => t,
            None => {
                return Err(msg_invalid_date());
            },
        };
        let (ws, we) = match day_window(y, m, d) {
            Some(w) => w,
            None => {
                return Err(msg_invalid_date());
            },
        };
        if we < ws || ws > MAX_PLAN_INSTANT {
            return Err(msg_invalid_date());
        }
        match ws.checked_add(MAX_WINDOW_SEC) {
            Some(lim) => {
                if we > lim {
                    return Err(msg_invalid_date());
                }
            },
            None => {
                proof {
                    assert(we as int - ws as int <= MAX_WINDOW_SEC as int);
                }
            },
        }
        Ok(crate::plan::expand_all(&self.tasks, order, ws, we))
    }
}

} // verus!
