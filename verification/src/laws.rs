//! The planner's laws, proved over its specification: what the expander
//! yields for fixed and disabled tasks, that a higher-priority
//! occurrence always wins a collision, that replanning the same inputs
//! yields the same queue (up to item ids and creation stamps), and the
//! window bounds that every planned occurrence obeys.

use vstd::prelude::*;
use crate::model::{AutomationTask, PlannedItem};
use crate::expand::{
    OccV, occv, spec_keep, spec_expand_task, spec_every_from, spec_from_times,
};
use crate::plan::{
    covered_by_higher, spec_survivors, spec_sort, spec_ins, spec_plan, spec_expand_all,
    spec_find_task, items_match, occ_le, sorted_occs,
};
use crate::spec_effective_duration;

verus! {

/// How many occurrences of `s` satisfy `q`.
pub open spec fn count_occs(s: Seq<OccV>, q: spec_fn(OccV) -> bool) -> int {
    s.filter(q).len() as int
}

/// A task that is disabled yields no occurrence, whatever its schedule.
pub proof fn lemma_disabled_task_expands_to_nothing(
    t: AutomationTask,
    pri: int,
    ws: i64,
    we: i64,
)
    requires
        !t.enabled,
    ensures
        spec_expand_task(t, pri, ws, we) == Seq::<OccV>::empty(),
{
}

/// An enabled task with a fixed instant that fits the window expands to
/// exactly that one occurrence.
pub proof fn lemma_fixed_task_expands_to_one(t: AutomationTask, pri: int, ws: i64, we: i64)
    requires
        t.enabled,
        t.fixed_at is Some,
        spec_keep(
            t.fixed_at->Some_0 as int,
            spec_effective_duration(t.duration_sec) as int,
            ws as int,
            we as int,
        ),
    ensures
        spec_expand_task(t, pri, ws, we) == seq![
            occv(
                t.fixed_at->Some_0 as int,
                spec_effective_duration(t.duration_sec) as int,
                t.id@,
                pri,
            ),
        ],
{
}

/// A one-shot task whose fixed instant was cleared, with no interval and
/// an empty schedule expression, is never expanded again.
pub proof fn lemma_one_shot_not_replanned(t: AutomationTask, pri: int, ws: i64, we: i64)
    requires
        t.fixed_at is None,
        t.interval_sec is None,
        crate::strutil::spec_trim(t.schedule@).len() == 0,
    ensures
        spec_expand_task(t, pri, ws, we) == Seq::<OccV>::empty(),
{
}

// ---------------------------------------------------------------------
// counting occurrences through filter, insertion and sort

proof fn lemma_filter_singleton(x: OccV, q: spec_fn(OccV) -> bool)
    ensures
        seq![x].filter(q) == if q(x) {
            seq![x]
        } else {
            Seq::<OccV>::empty()
        },
{
    reveal_with_fuel(Seq::filter, 3);
    assert(seq![x].drop_last() =~= Seq::<OccV>::empty());
    if q(x) {
        assert(seq![x].filter(q) =~= seq![x]);
    } else {
        assert(seq![x].filter(q) =~= Seq::<OccV>::empty());
    }
}

proof fn lemma_filter_none(s: Seq<OccV>, q: spec_fn(OccV) -> bool)
    requires
        forall|i: int| 0 <= i < s.len() ==> !q(#[trigger] s[i]),
    ensures
        s.filter(q).len() == 0,
    decreases s.len(),
{
    reveal(Seq::filter);
    if s.len() > 0 {
        lemma_filter_none(s.drop_last(), q);
    }
}

proof fn lemma_filter_agree(s: Seq<OccV>, q1: spec_fn(OccV) -> bool, q2: spec_fn(OccV) -> bool)
    requires
        forall|i: int| 0 <= i < s.len() ==> (q1(#[trigger] s[i]) == q2(s[i])),
    ensures
        s.filter(q1) == s.filter(q2),
    decreases s.len(),
{
    reveal(Seq::filter);
    if s.len() > 0 {
        lemma_filter_agree(s.drop_last(), q1, q2);
        assert(s.filter(q1) =~= s.filter(q2));
    } else {
        assert(s.filter(q1) =~= s.filter(q2));
    }
}

proof fn lemma_filter_filter(s: Seq<OccV>, p: spec_fn(OccV) -> bool, q: spec_fn(OccV) -> bool)
    ensures
        s.filter(p).filter(q) == s.filter(|o: OccV| p(o) && q(o)),
    decreases s.len(),
{
    reveal(Seq::filter);
    if s.len() == 0 {
        assert(s.filter(p).filter(q) =~= s.filter(|o: OccV| p(o) && q(o)));
    } else {
        lemma_filter_filter(s.drop_last(), p, q);
        let fp = s.drop_last().filter(p);
        if p(s.last()) {
            assert(fp.push(s.last()).drop_last() =~= fp);
        }
        assert(s.filter(p).filter(q) =~= s.filter(|o: OccV| p(o) && q(o)));
    }
}

proof fn lemma_count_ins(x: OccV, s: Seq<OccV>, q: spec_fn(OccV) -> bool)
    ensures
        spec_ins(x, s).filter(q).len() == s.filter(q).len() + (if q(x) {
            1int
        } else {
            0
        }),
    decreases s.len(),
{
    if s.len() == 0 {
        lemma_filter_singleton(x, q);
        reveal_with_fuel(Seq::filter, 3);
    } else if occ_le(x, s[0]) {
        Seq::lemma_filter_prepend(s, x, q);
        if q(x) {
            assert((seq![x] + s.filter(q)).len() == 1 + s.filter(q).len());
        }
    } else {
        lemma_count_ins(x, s.drop_first(), q);
        Seq::lemma_filter_prepend(spec_ins(x, s.drop_first()), s[0], q);
        Seq::lemma_filter_prepend(s.drop_first(), s[0], q);
        assert(s =~= seq![s[0]] + s.drop_first());
        assert(spec_ins(x, s) == seq![s[0]] + spec_ins(x, s.drop_first()));
    }
}

proof fn lemma_count_sort(s: Seq<OccV>, q: spec_fn(OccV) -> bool)
    ensures
        spec_sort(s).filter(q).len() == s.filter(q).len(),
    decreases s.len(),
{
    reveal(Seq::filter);
    if s.len() > 0 {
        lemma_count_sort(s.drop_last(), q);
        lemma_count_ins(s.last(), spec_sort(s.drop_last()), q);
    }
}

// ---------------------------------------------------------------------
// sortedness of the final queue

/// The queue comparison covers every pair one way or the other.
proof fn lemma_occ_le_total(a: OccV, b: OccV)
    ensures
        occ_le(a, b) || occ_le(b, a),
{
}

proof fn lemma_ins_sorted(x: OccV, s: Seq<OccV>)
    requires
        sorted_occs(s),
    ensures
        sorted_occs(spec_ins(x, s)),
    decreases s.len(),
{
    if s.len() == 0 {
    } else if occ_le(x, s[0]) {
        let r = seq![x] + s;
        assert forall|i: int, j: int| 0 <= i < j < r.len() implies occ_le(r[i], r[j]) by {
            if i == 0 {
                if j > 0 {
                    assert(r[j] == s[j - 1]);
                    if j - 1 > 0 {
                        assert(occ_le(s[0], s[j - 1]));
                    }
                }
            } else {
                assert(r[i] == s[i - 1] && r[j] == s[j - 1]);
            }
        }
    } else {
        assert forall|i: int, j: int|
            0 <= i < j < s.drop_first().len() implies occ_le(
            #[trigger] s.drop_first()[i],
            #[trigger] s.drop_first()[j],
        ) by {
            assert(s.drop_first()[i] == s[i + 1] && s.drop_first()[j] == s[j + 1]);
        }
        lemma_ins_sorted(x, s.drop_first());
        let r = seq![s[0]] + spec_ins(x, s.drop_first());
        let inner = spec_ins(x, s.drop_first());
        lemma_ins_elements(x, s.drop_first());
        assert forall|i: int, j: int| 0 <= i < j < r.len() implies occ_le(r[i], r[j]) by {
            if i == 0 {
                assert(r[j] == inner[j - 1]);
                // every element of the insertion is x or an element of s
                assert(inner[j - 1] == x || s.drop_first().contains(inner[j - 1]));
                if inner[j - 1] == x {
                    lemma_occ_le_total(x, s[0]);
                } else {
                    let w = choose|w: int|
                        0 <= w < s.drop_first().len() && s.drop_first()[w] == inner[j - 1];
                    assert(s[w + 1] == inner[j - 1]);
                    assert(occ_le(s[0], s[w + 1]));
                }
            } else {
                assert(r[i] == inner[i - 1] && r[j] == inner[j - 1]);
            }
        }
    }
}

/// Every element of an insertion is the inserted value or an element
/// that was already there.
proof fn lemma_ins_elements(x: OccV, s: Seq<OccV>)
    ensures
        forall|i: int|
            0 <= i < spec_ins(x, s).len() ==> (#[trigger] spec_ins(x, s)[i] == x || s.contains(
                spec_ins(x, s)[i],
            )),
        spec_ins(x, s).len() == s.len() + 1,
    decreases s.len(),
{
    if s.len() == 0 {
    } else if occ_le(x, s[0]) {
        assert forall|i: int| 0 <= i < spec_ins(x, s).len() implies (#[trigger] spec_ins(x, s)[i]
            == x || s.contains(spec_ins(x, s)[i])) by {
            if i > 0 {
                assert(spec_ins(x, s)[i] == s[i - 1]);
            }
        }
    } else {
        lemma_ins_elements(x, s.drop_first());
        let inner = spec_ins(x, s.drop_first());
        assert forall|i: int| 0 <= i < spec_ins(x, s).len() implies (#[trigger] spec_ins(x, s)[i]
            == x || s.contains(spec_ins(x, s)[i])) by {
            if i == 0 {
                assert(spec_ins(x, s)[0] == s[0]);
                assert(s.contains(s[0]));
            } else {
                assert(spec_ins(x, s)[i] == inner[i - 1]);
                if inner[i - 1] != x {
                    let w = choose|w: int|
                        0 <= w < s.drop_first().len() && s.drop_first()[w] == inner[i - 1];
                    assert(s[w + 1] == inner[i - 1]);
                    assert(s.contains(s[w + 1]));
                }
            }
        }
    }
}

/// The planner's queue is ordered by start time, ties by priority rank.
pub proof fn lemma_sort_sorted(s: Seq<OccV>)
    ensures
        sorted_occs(spec_sort(s)),
    decreases s.len(),
{
    if s.len() > 0 {
        lemma_sort_sorted(s.drop_last());
        lemma_ins_sorted(s.last(), spec_sort(s.drop_last()));
    }
}

// ---------------------------------------------------------------------
// higher priority wins

/// In a collision, the queue keeps the higher-priority occurrence and
/// excludes the lower-priority one: the occurrence whose start a
/// strictly higher-priority occurrence covers never appears, and the
/// covering occurrence appears unless something of yet higher priority
/// covers it in turn.
pub proof fn lemma_higher_priority_wins(all: Seq<OccV>, hi: int, lo: int)
    requires
        0 <= hi < all.len(),
        0 <= lo < all.len(),
        all[hi].pri < all[lo].pri,
        all[hi].start <= all[lo].start,
        all[lo].start < all[hi].end,
    ensures
        count_occs(spec_sort(spec_survivors(all)), |o: OccV| o == all[lo]) == 0,
        !covered_by_higher(all, all[hi]) ==> count_occs(
            spec_sort(spec_survivors(all)),
            |o: OccV| o == all[hi],
        ) >= 1,
{
    let p = |o: OccV| !covered_by_higher(all, o);
    let qlo = |o: OccV| o == all[lo];
    let qhi = |o: OccV| o == all[hi];
    assert(covered_by_higher(all, all[lo]));
    // the covered occurrence fails the survivor predicate wherever it occurs
    lemma_filter_filter(all, p, qlo);
    let pq = |o: OccV| p(o) && qlo(o);
    assert forall|i: int| 0 <= i < all.len() implies !pq(#[trigger] all[i]) by {
        if all[i] == all[lo] {
            assert(covered_by_higher(all, all[i]));
        }
    }
    lemma_filter_none(all, pq);
    lemma_count_sort(spec_survivors(all), qlo);
    assert(count_occs(spec_sort(spec_survivors(all)), qlo) == 0);
    if !covered_by_higher(all, all[hi]) {
        Seq::lemma_filter_contains(all, p, hi);
        let surv = spec_survivors(all);
        assert(surv.contains(all[hi]));
        let w = choose|w: int| 0 <= w < surv.len() && surv[w] == all[hi];
        Seq::lemma_filter_contains(surv, qhi, w);
        assert(surv.filter(qhi).len() >= 1);
        lemma_count_sort(surv, qhi);
    }
}

// ---------------------------------------------------------------------
// replanning is deterministic up to item identity

/// Two queues planned from the same surviving occurrences for the same
/// date agree on everything but the items' generated ids and creation
/// stamps.
pub proof fn lemma_replan_identical(
    r1: Seq<PlannedItem>,
    r2: Seq<PlannedItem>,
    occs: Seq<OccV>,
    date: Seq<char>,
    now1: int,
    now2: int,
    ws: int,
)
    requires
        items_match(r1, occs, date, now1, ws),
        items_match(r2, occs, date, now2, ws),
    ensures
        r1.len() == r2.len(),
        forall|i: int|
            0 <= i < r1.len() ==> {
                &&& (#[trigger] r1[i]).task_id@ == r2[i].task_id@
                &&& r1[i].date@ == r2[i].date@
                &&& r1[i].time@ == r2[i].time@
                &&& r1[i].position == r2[i].position
                &&& r1[i].status == r2[i].status
                &&& r1[i].executed_at == r2[i].executed_at
                &&& r1[i].scheduled_at == r2[i].scheduled_at
                &&& r1[i].scheduled_end_at == r2[i].scheduled_end_at
                &&& r1[i].duration_sec == r2[i].duration_sec
            },
{
}

// ---------------------------------------------------------------------
// what holds of every occurrence a plan can contain

/// Whether an occurrence lies inside the window with a representable
/// duration.
pub open spec fn occ_in_window(o: OccV, ws: int, we: int) -> bool {
    &&& ws <= o.start
    &&& o.start < we
    &&& o.start < o.end
    &&& o.end <= we
    &&& o.end - o.start <= u32::MAX
}

proof fn lemma_every_from_elems(
    t: int,
    step: int,
    dur: int,
    tid: Seq<char>,
    pri: int,
    ws: int,
    we: int,
)
    requires
        step > 0,
        0 < dur <= u32::MAX,
        ws <= t,
    ensures
        forall|i: int|
            0 <= i < spec_every_from(t, step, dur, tid, pri, ws, we).len() ==> {
                let o = #[trigger] spec_every_from(t, step, dur, tid, pri, ws, we)[i];
                occ_in_window(o, ws, we) && o.task_id == tid && o.pri == pri
            },
    decreases (if we - t >= 0 { we - t } else { 0 }),
{
    let s = spec_every_from(t, step, dur, tid, pri, ws, we);
    if t < we && t + dur <= we {
        lemma_every_from_elems(t + step, step, dur, tid, pri, ws, we);
        let rest = spec_every_from(t + step, step, dur, tid, pri, ws, we);
        assert(s == seq![occv(t, dur, tid, pri)] + rest);
        assert forall|i: int| 0 <= i < s.len() implies {
            let o = #[trigger] s[i];
            occ_in_window(o, ws, we) && o.task_id == tid && o.pri == pri
        } by {
            if i == 0 {
                assert(s[0] == occv(t, dur, tid, pri));
            } else {
                assert(s[i] == rest[i - 1]);
            }
        }
    }
}

proof fn lemma_from_times_elems(
    ts: Seq<i64>,
    dur: int,
    tid: Seq<char>,
    pri: int,
    ws: int,
    we: int,
)
    requires
        0 < dur <= u32::MAX,
    ensures
        forall|i: int|
            0 <= i < spec_from_times(ts, dur, tid, pri, ws, we).len() ==> {
                let o = #[trigger] spec_from_times(ts, dur, tid, pri, ws, we)[i];
                occ_in_window(o, ws, we) && o.task_id == tid && o.pri == pri
            },
    decreases ts.len(),
{
    let s = spec_from_times(ts, dur, tid, pri, ws, we);
    if ts.len() > 0 {
        lemma_from_times_elems(ts.drop_first(), dur, tid, pri, ws, we);
        let rest = spec_from_times(ts.drop_first(), dur, tid, pri, ws, we);
        let head: Seq<OccV> = if spec_keep(ts[0] as int, dur, ws, we) {
            seq![occv(ts[0] as int, dur, tid, pri)]
        } else {
            Seq::empty()
        };
        assert(s == head + rest);
        assert forall|i: int| 0 <= i < s.len() implies {
            let o = #[trigger] s[i];
            occ_in_window(o, ws, we) && o.task_id == tid && o.pri == pri
        } by {
            if i < head.len() {
                assert(s[i] == head[0]);
            } else {
                assert(s[i] == rest[i - head.len()]);
            }
        }
    }
}

/// Every occurrence one task expands to lies inside the window, carries
/// the task's id and the given priority rank.
pub proof fn lemma_expand_task_elems(t: AutomationTask, pri: int, ws: i64, we: i64)
    requires
        ws <= we,
    ensures
        forall|i: int|
            0 <= i < spec_expand_task(t, pri, ws, we).len() ==> {
                let o = #[trigger] spec_expand_task(t, pri, ws, we)[i];
                occ_in_window(o, ws as int, we as int) && o.task_id == t.id@ && o.pri == pri
            },
{
    let dur = spec_effective_duration(t.duration_sec) as int;
    assert(0 < dur <= u32::MAX);
    if !t.enabled {
    } else if t.fixed_at is Some {
    } else if t.interval_sec is Some {
        let n = t.interval_sec->Some_0;
        if n > 0 {
            lemma_every_from_elems(ws as int, n as int, dur, t.id@, pri, ws as int, we as int);
        }
    } else {
        let e = crate::strutil::spec_trim(t.schedule@);
        if e.len() == 0 {
        } else if (crate::strutil::spec_count_fields(e) == 5 || crate::strutil::spec_count_fields(
            e,
        ) == 6) && crate::bridge::cron_window_times(
            crate::expand::spec_six_fields(e),
            ws,
            we,
        ) is Some {
            lemma_from_times_elems(
                crate::bridge::cron_window_times(crate::expand::spec_six_fields(e), ws, we)
                    ->Some_0,
                dur,
                t.id@,
                pri,
                ws as int,
                we as int,
            );
        } else {
            if e == "* * * * *"@ {
                lemma_every_from_elems(ws as int, 60, dur, t.id@, pri, ws as int, we as int);
            } else if e == "0 * * * *"@ {
                lemma_every_from_elems(ws as int, 3600, dur, t.id@, pri, ws as int, we as int);
            } else if e.len() >= 2 && e[0] == '0' && e[1] == ' ' {
            } else {
                lemma_every_from_elems(ws as int, 3600, dur, t.id@, pri, ws as int, we as int);
            }
        }
    }
}

/// The first task found under an id carries that id.
proof fn lemma_find_id(tasks: Seq<AutomationTask>, id: Seq<char>)
    ensures
        spec_find_task(tasks, id) is Some ==> spec_find_task(tasks, id)->Some_0.id@ == id,
    decreases tasks.len(),
{
    if tasks.len() > 0 && tasks[0].id@ != id {
        lemma_find_id(tasks.drop_first(), id);
    }
}

/// Every occurrence of the expansion of a whole order lies inside the
/// window.
pub proof fn lemma_expand_all_elems(
    tasks: Seq<AutomationTask>,
    order: Seq<Seq<char>>,
    pri0: int,
    ws: i64,
    we: i64,
)
    requires
        ws <= we,
    ensures
        forall|i: int|
            0 <= i < spec_expand_all(tasks, order, pri0, ws, we).len() ==> occ_in_window(
                #[trigger] spec_expand_all(tasks, order, pri0, ws, we)[i],
                ws as int,
                we as int,
            ),
    decreases order.len(),
{
    if order.len() > 0 {
        lemma_expand_all_elems(tasks, order.drop_first(), pri0 + 1, ws, we);
        let head = match spec_find_task(tasks, order[0]) {
            Some(t) => spec_expand_task(t, pri0, ws, we),
            None => Seq::<OccV>::empty(),
        };
        let rest = spec_expand_all(tasks, order.drop_first(), pri0 + 1, ws, we);
        let s = spec_expand_all(tasks, order, pri0, ws, we);
        assert(s == head + rest);
        match spec_find_task(tasks, order[0]) {
            Some(t) => {
                lemma_expand_task_elems(t, pri0, ws, we);
            },
            None => {},
        }
        assert forall|i: int| 0 <= i < s.len() implies occ_in_window(
            #[trigger] s[i],
            ws as int,
            we as int,
        ) by {
            if i < head.len() {
                assert(s[i] == head[i]);
            } else {
                assert(s[i] == rest[i - head.len()]);
            }
        }
    }
}

/// Every occurrence of the final plan lies inside the window.
pub proof fn lemma_plan_in_window(
    tasks: Seq<AutomationTask>,
    order: Seq<Seq<char>>,
    ws: i64,
    we: i64,
)
    requires
        ws <= we,
    ensures
        forall|i: int|
            0 <= i < spec_plan(tasks, order, ws, we).len() ==> occ_in_window(
                #[trigger] spec_plan(tasks, order, ws, we)[i],
                ws as int,
                we as int,
            ),
{
    let all = spec_expand_all(tasks, order, 0, ws, we);
    let p = |o: OccV| !covered_by_higher(all, o);
    let surv = spec_survivors(all);
    lemma_expand_all_elems(tasks, order, 0, ws, we);
    assert forall|i: int| 0 <= i < surv.len() implies occ_in_window(
        #[trigger] surv[i],
        ws as int,
        we as int,
    ) by {
        assert(surv.contains(surv[i]));
        Seq::lemma_filter_contains_rev(all, p, surv[i]);
        let w = choose|w: int| 0 <= w < all.len() && all[w] == surv[i];
        assert(occ_in_window(all[w], ws as int, we as int));
    }
    lemma_sort_elements_in_window(surv, ws as int, we as int);
}

proof fn lemma_sort_elements_in_window(s: Seq<OccV>, ws: int, we: int)
    requires
        forall|i: int| 0 <= i < s.len() ==> occ_in_window(#[trigger] s[i], ws, we),
    ensures
        forall|i: int|
            0 <= i < spec_sort(s).len() ==> occ_in_window(#[trigger] spec_sort(s)[i], ws, we),
    decreases s.len(),
{
    if s.len() > 0 {
        assert forall|i: int| 0 <= i < s.drop_last().len() implies occ_in_window(
            #[trigger] s.drop_last()[i],
            ws,
            we,
        ) by {
            assert(s.drop_last()[i] == s[i]);
        }
        lemma_sort_elements_in_window(s.drop_last(), ws, we);
        let inner = spec_sort(s.drop_last());
        lemma_ins_elements(s.last(), inner);
        assert forall|i: int| 0 <= i < spec_sort(s).len() implies occ_in_window(
            #[trigger] spec_sort(s)[i],
            ws,
            we,
        ) by {
            assert(spec_sort(s) == spec_ins(s.last(), inner));
            if spec_sort(s)[i] != s.last() {
                assert(inner.contains(spec_sort(s)[i]));
                let w = choose|w: int| 0 <= w < inner.len() && inner[w] == spec_sort(s)[i];
            }
        }
    }
}

// ---------------------------------------------------------------------
// what the plan holds of one task: exactly its fixed firing, or nothing

proof fn lemma_expand_all_no_task(
    tasks: Seq<AutomationTask>,
    order: Seq<Seq<char>>,
    pri0: int,
    ws: i64,
    we: i64,
    tid: Seq<char>,
)
    requires
        ws <= we,
        forall|k: int|
            0 <= k < order.len() ==> (match spec_find_task(tasks, #[trigger] order[k]) {
                Some(t) => t.id@ != tid || spec_expand_task(t, pri0 + k, ws, we).len() == 0,
                None => true,
            }),
    ensures
        forall|i: int|
            0 <= i < spec_expand_all(tasks, order, pri0, ws, we).len() ==> (
            #[trigger] spec_expand_all(tasks, order, pri0, ws, we)[i]).task_id != tid,
    decreases order.len(),
{
    if order.len() > 0 {
        assert forall|k: int|
            0 <= k < order.drop_first().len() implies (match spec_find_task(
            tasks,
            #[trigger] order.drop_first()[k],
        ) {
            Some(t) => t.id@ != tid || spec_expand_task(t, pri0 + 1 + k, ws, we).len() == 0,
            None => true,
        }) by {
            assert(order.drop_first()[k] == order[k + 1]);
        }
        lemma_expand_all_no_task(tasks, order.drop_first(), pri0 + 1, ws, we, tid);
        let head = match spec_find_task(tasks, order[0]) {
            Some(t) => spec_expand_task(t, pri0, ws, we),
            None => Seq::<OccV>::empty(),
        };
        let rest = spec_expand_all(tasks, order.drop_first(), pri0 + 1, ws, we);
        let s = spec_expand_all(tasks, order, pri0, ws, we);
        assert(s == head + rest);
        match spec_find_task(tasks, order[0]) {
            Some(t) => {
                lemma_expand_task_elems(t, pri0, ws, we);
                if t.id@ == tid {
                    assert(spec_expand_task(t, pri0 + 0, ws, we).len() == 0);
                }
            },
            None => {},
        }
        assert forall|i: int| 0 <= i < s.len() implies (#[trigger] s[i]).task_id != tid by {
            if i < head.len() {
                assert(s[i] == head[i]);
            } else {
                assert(s[i] == rest[i - head.len()]);
            }
        }
    }
}

/// A disabled task never appears in any planned queue, whatever its
/// schedule descriptor.
pub proof fn lemma_disabled_task_never_planned(
    tasks: Seq<AutomationTask>,
    order: Seq<Seq<char>>,
    ws: i64,
    we: i64,
    tid: Seq<char>,
)
    requires
        ws <= we,
        match spec_find_task(tasks, tid) {
            Some(t) => !t.enabled,
            None => true,
        },
    ensures
        count_occs(spec_plan(tasks, order, ws, we), |o: OccV| o.task_id == tid) == 0,
{
    let qd = |o: OccV| o.task_id == tid;
    let all = spec_expand_all(tasks, order, 0, ws, we);
    assert forall|k: int|
        0 <= k < order.len() implies (match spec_find_task(tasks, #[trigger] order[k]) {
        Some(t) => t.id@ != tid || spec_expand_task(t, 0 + k, ws, we).len() == 0,
        None => true,
    }) by {
        match spec_find_task(tasks, order[k]) {
            Some(t) => {
                if t.id@ == tid {
                    lemma_find_id(tasks, order[k]);
                    assert(spec_find_task(tasks, tid) == spec_find_task(tasks, order[k]));
                    assert(!t.enabled);
                }
            },
            None => {},
        }
    }
    lemma_expand_all_no_task(tasks, order, 0, ws, we, tid);
    let p = |o: OccV| !covered_by_higher(all, o);
    let surv = spec_survivors(all);
    assert forall|i: int| 0 <= i < surv.len() implies !qd(#[trigger] surv[i]) by {
        assert(surv.contains(surv[i]));
        Seq::lemma_filter_contains_rev(all, p, surv[i]);
        let w = choose|w: int| 0 <= w < all.len() && all[w] == surv[i];
    }
    lemma_filter_none(surv, qd);
    lemma_count_sort(surv, qd);
}

proof fn lemma_expand_all_fixed_count(
    tasks: Seq<AutomationTask>,
    order: Seq<Seq<char>>,
    pri0: int,
    ws: i64,
    we: i64,
    t: AutomationTask,
    pri: int,
)
    requires
        ws <= we,
        pri0 <= pri < pri0 + order.len(),
        order[pri - pri0] == t.id@,
        forall|k: int| 0 <= k < order.len() && k != pri - pri0 ==> #[trigger] order[k] != t.id@,
        spec_find_task(tasks, t.id@) == Some(t),
        t.enabled,
        t.fixed_at is Some,
        spec_keep(
            t.fixed_at->Some_0 as int,
            spec_effective_duration(t.duration_sec) as int,
            ws as int,
            we as int,
        ),
    ensures
        ({
            let ow = occv(
                t.fixed_at->Some_0 as int,
                spec_effective_duration(t.duration_sec) as int,
                t.id@,
                pri,
            );
            let q = |o: OccV| o.task_id == t.id@ && o.start == t.fixed_at->Some_0 as int;
            let e = spec_expand_all(tasks, order, pri0, ws, we);
            e.filter(q).len() == 1 && forall|i: int| 0 <= i < e.len() && q(#[trigger] e[i]) ==> e[i]
                == ow
        }),
    decreases order.len(),
{
    let ow = occv(
        t.fixed_at->Some_0 as int,
        spec_effective_duration(t.duration_sec) as int,
        t.id@,
        pri,
    );
    let q = |o: OccV| o.task_id == t.id@ && o.start == t.fixed_at->Some_0 as int;
    let e = spec_expand_all(tasks, order, pri0, ws, we);
    let head = match spec_find_task(tasks, order[0]) {
        Some(ft) => spec_expand_task(ft, pri0, ws, we),
        None => Seq::<OccV>::empty(),
    };
    let tail = spec_expand_all(tasks, order.drop_first(), pri0 + 1, ws, we);
    assert(e == head + tail);
    Seq::filter_distributes_over_add(head, tail, q);
    if pri == pri0 {
        // the head holds exactly one occurrence: the fixed instant
        lemma_fixed_task_expands_to_one(t, pri0, ws, we);
        assert(head =~= seq![ow]);
        lemma_filter_singleton(ow, q);
        assert(head.filter(q).len() == 1);
        // no other entry of the order carries the id
        assert forall|k: int|
            0 <= k < order.drop_first().len() implies (match spec_find_task(
            tasks,
            #[trigger] order.drop_first()[k],
        ) {
            Some(ft) => ft.id@ != t.id@ || spec_expand_task(ft, pri0 + 1 + k, ws, we).len() == 0,
            None => true,
        }) by {
            assert(order.drop_first()[k] == order[k + 1]);
            match spec_find_task(tasks, order[k + 1]) {
                Some(ft) => {
                    lemma_find_id(tasks, order[k + 1]);
                    assert(order[k + 1] != t.id@);
                },
                None => {},
            }
        }
        lemma_expand_all_no_task(tasks, order.drop_first(), pri0 + 1, ws, we, t.id@);
        assert forall|i: int| 0 <= i < tail.len() implies !q(#[trigger] tail[i]) by {}
        lemma_filter_none(tail, q);
        assert(e.filter(q).len() == 1);
        assert forall|i: int| 0 <= i < e.len() && q(#[trigger] e[i]) implies e[i] == ow by {
            if i >= head.len() {
                assert(e[i] == tail[i - head.len()]);
            } else {
                assert(e[i] == head[i]);
            }
        }
    } else {
        // the head is some other id's expansion
        assert(order[0] != t.id@);
        match spec_find_task(tasks, order[0]) {
            Some(ft) => {
                lemma_find_id(tasks, order[0]);
                lemma_expand_task_elems(ft, pri0, ws, we);
                assert forall|i: int| 0 <= i < head.len() implies !q(#[trigger] head[i]) by {}
            },
            None => {},
        }
        lemma_filter_none(head, q);
        assert forall|k: int|
            0 <= k < order.drop_first().len() && k != pri - (pri0 + 1) implies #[trigger] order
            .drop_first()[k] != t.id@ by {
            assert(order.drop_first()[k] == order[k + 1]);
        }
        lemma_expand_all_fixed_count(tasks, order.drop_first(), pri0 + 1, ws, we, t, pri);
        assert(e.filter(q).len() == 1);
        assert forall|i: int| 0 <= i < e.len() && q(#[trigger] e[i]) implies e[i] == ow by {
            if i >= head.len() {
                assert(e[i] == tail[i - head.len()]);
            } else {
                assert(e[i] == head[i]);
            }
        }
    }
}

/// An enabled task with a fixed instant inside the day window, listed
/// once in the priority order and covered by no higher-priority
/// occurrence, yields exactly one planned item, scheduled at that
/// instant.
pub proof fn lemma_fixed_task_planned(
    tasks: Seq<AutomationTask>,
    order: Seq<Seq<char>>,
    ws: i64,
    we: i64,
    t: AutomationTask,
    pri: int,
)
    requires
        ws <= we,
        0 <= pri < order.len(),
        order[pri] == t.id@,
        forall|k: int| 0 <= k < order.len() && k != pri ==> #[trigger] order[k] != t.id@,
        spec_find_task(tasks, t.id@) == Some(t),
        t.enabled,
        t.fixed_at is Some,
        spec_keep(
            t.fixed_at->Some_0 as int,
            spec_effective_duration(t.duration_sec) as int,
            ws as int,
            we as int,
        ),
        !covered_by_higher(
            spec_expand_all(tasks, order, 0, ws, we),
            occv(
                t.fixed_at->Some_0 as int,
                spec_effective_duration(t.duration_sec) as int,
                t.id@,
                pri,
            ),
        ),
    ensures
        count_occs(
            spec_plan(tasks, order, ws, we),
            |o: OccV| o.task_id == t.id@ && o.start == t.fixed_at->Some_0 as int,
        ) == 1,
{
    let ow = occv(
        t.fixed_at->Some_0 as int,
        spec_effective_duration(t.duration_sec) as int,
        t.id@,
        pri,
    );
    let q = |o: OccV| o.task_id == t.id@ && o.start == t.fixed_at->Some_0 as int;
    let all = spec_expand_all(tasks, order, 0, ws, we);
    let p = |o: OccV| !covered_by_higher(all, o);
    lemma_expand_all_fixed_count(tasks, order, 0, ws, we, t, pri);
    let pq = |o: OccV| p(o) && q(o);
    lemma_filter_filter(all, p, q);
    assert forall|i: int| 0 <= i < all.len() implies (pq(#[trigger] all[i]) == q(all[i])) by {
        if q(all[i]) {
            assert(all[i] == ow);
        }
    }
    lemma_filter_agree(all, pq, q);
    lemma_count_sort(spec_survivors(all), q);
}


/// The planner's queue is totally ordered by start time (ties by
/// priority rank): within one day, planned items follow their positions.
pub proof fn lemma_plan_sorted(
    tasks: Seq<AutomationTask>,
    order: Seq<Seq<char>>,
    ws: i64,
    we: i64,
)
    ensures
        sorted_occs(spec_plan(tasks, order, ws, we)),
{
    lemma_sort_sorted(spec_survivors(spec_expand_all(tasks, order, 0, ws, we)));
}


} // verus!
