//! The planner: expands every task of a user-supplied priority order
//! onto one day window, merges the occurrences into a conflict-free
//! queue (a higher-priority occurrence evicts any lower-priority one
//! whose start falls inside its span), and orders the survivors by
//! start time.

use vstd::prelude::*;
use crate::model::{AutomationTask, PlannedItem, ItemStatus};
use crate::expand::{
    Occurrence, OccV, occ_views, spec_expand_task, expand_task, MAX_WINDOW_SEC,
};
use crate::bridge::MAX_PLAN_INSTANT;
use crate::timefmt::{spec_time_of_day, time_of_day_string};
use crate::bridge::new_uuid;

verus! {

/// Whether a strictly higher-priority occurrence of `all` covers the
/// start of `o` (lower `pri` is higher priority).
pub open spec fn covered_by_higher(all: Seq<OccV>, o: OccV) -> bool {
    exists|j: int|
        0 <= j < all.len() && all[j].pri < o.pri && all[j].start <= o.start && o.start
            < all[j].end
}

/// The occurrences that survive the conflict merge: those whose start no
/// strictly higher-priority occurrence covers.  Occurrences of equal
/// priority never evict one another.
pub open spec fn spec_survivors(all: Seq<OccV>) -> Seq<OccV> {
    all.filter(|o: OccV| !covered_by_higher(all, o))
}

/// The final queue order: by start time, ties by priority rank.
pub open spec fn occ_le(a: OccV, b: OccV) -> bool {
    a.start < b.start || (a.start == b.start && a.pri <= b.pri)
}

/// Whether a sequence is ordered by [`occ_le`].
pub open spec fn sorted_occs(s: Seq<OccV>) -> bool {
    forall|i: int, j: int| 0 <= i < j < s.len() ==> occ_le(#[trigger] s[i], #[trigger] s[j])
}

/// `x` inserted before the first element it precedes or ties with.
pub open spec fn spec_ins(x: OccV, s: Seq<OccV>) -> Seq<OccV>
    decreases s.len(),
{
    if s.len() == 0 {
        seq![x]
    } else if occ_le(x, s[0]) {
        seq![x] + s
    } else {
        seq![s[0]] + spec_ins(x, s.drop_first())
    }
}

/// Insertion sort of a sequence of occurrence values, left to right.
pub open spec fn spec_sort(s: Seq<OccV>) -> Seq<OccV>
    decreases s.len(),
{
    if s.len() == 0 {
        Seq::empty()
    } else {
        spec_ins(s.last(), spec_sort(s.drop_last()))
    }
}

/// Keeps the occurrences that no strictly higher-priority occurrence
/// covers.
pub fn merge_occurrences(occs: &Vec<Occurrence>) -> (r: Vec<Occurrence>)
    ensures
        occ_views(r@) == spec_survivors(occ_views(occs@)),
{
    let ghost all = occ_views(occs@);
    let ghost pred = |o: OccV| !covered_by_higher(all, o);
    let mut out: Vec<Occurrence> = Vec::new();
    let mut i: usize = 0;
    proof {
        reveal(Seq::filter);
        assert(all.take(0) =~= Seq::<OccV>::empty());
        assert(occ_views(out@) =~= all.take(0).filter(pred));
    }
    while i < occs.len()
        invariant
            i <= occs@.len(),
            all == occ_views(occs@),
            pred == (|o: OccV| !covered_by_higher(all, o)),
            occ_views(out@) == all.take(i as int).filter(pred),
        decreases occs@.len() - i,
    {
        let o = &occs[i];
        // does any strictly higher-priority occurrence cover o's start?
        let mut covered = false;
        let mut j: usize = 0;
        while j < occs.len()
            invariant
                i < occs@.len(),
                j <= occs@.len(),
                all == occ_views(occs@),
                o == occs@[i as int],
                covered ==> covered_by_higher(all, all[i as int]),
                !covered ==> forall|q: int|
                    0 <= q < j ==> !(all[q].pri < all[i as int].pri && all[q].start
                        <= all[i as int].start && all[i as int].start < all[q].end),
            decreases occs@.len() - j,
        {
            if !covered {
                let h = &occs[j];
                if h.priority_idx < o.priority_idx && h.start <= o.start && o.start < h.end {
                    proof {
                        assert(all[j as int].pri < all[i as int].pri && all[j as int].start
                            <= all[i as int].start && all[i as int].start < all[j as int].end);
                    }
                    covered = true;
                }
            }
            j = j + 1;
        }
        if !covered {
            out.push(o.duplicate());
        }
        proof {
            reveal(Seq::filter);
            let tk = all.take(i as int + 1);
            assert(tk.drop_last() =~= all.take(i as int));
            assert(tk.last() == all[i as int]);
            if !covered {
                assert(!covered_by_higher(all, all[i as int]));
                assert(occ_views(out@) =~= all.take(i as int).filter(pred).push(all[i as int]));
            }
        }
        i = i + 1;
    }
    proof {
        assert(all.take(all.len() as int) =~= all);
    }
    out
}

proof fn lemma_ins_at(s: Seq<OccV>, x: OccV, j: int)
    requires
        0 <= j <= s.len(),
        forall|k: int| 0 <= k < j ==> !occ_le(x, #[trigger] s[k]),
        j == s.len() || occ_le(x, s[j]),
    ensures
        spec_ins(x, s) == s.insert(j, x),
    decreases s.len(),
{
    if s.len() == 0 {
        assert(spec_ins(x, s) =~= s.insert(0, x));
    } else if j == 0 {
        assert(spec_ins(x, s) =~= s.insert(0, x));
    } else {
        lemma_ins_at(s.drop_first(), x, j - 1);
        assert(spec_ins(x, s) == seq![s[0]] + s.drop_first().insert(j - 1, x));
        assert(seq![s[0]] + s.drop_first().insert(j - 1, x) =~= s.insert(j, x));
    }
}

/// Inserts an occurrence into a vector at its queue-order position.
fn insert_occ(out: &mut Vec<Occurrence>, x: Occurrence)
    ensures
        occ_views(final(out)@) == spec_ins(x@, occ_views(old(out)@)),
{
    let ghost s = occ_views(out@);
    let mut j: usize = 0;
    while j < out.len()
        invariant_except_break
            s == occ_views(out@),
            j <= out@.len(),
            forall|k: int| 0 <= k < j ==> !occ_le(x@, #[trigger] s[k]),
        ensures
            s == occ_views(out@),
            j <= out@.len(),
            forall|k: int| 0 <= k < j ==> !occ_le(x@, #[trigger] s[k]),
            j == out@.len() || occ_le(x@, s[j as int]),
        decreases out@.len() - j,
    {
        let c = &out[j];
        let le = x.start < c.start || (x.start == c.start && x.priority_idx <= c.priority_idx);
        if le {
            proof {
                assert(occ_le(x@, s[j as int]));
            }
            break;
        }
        proof {
            assert(!occ_le(x@, s[j as int]));
        }
        j = j + 1;
    }
    proof {
        lemma_ins_at(s, x@, j as int);
    }
    out.insert(j, x);
    proof {
        assert(occ_views(out@) =~= s.insert(j as int, x@));
    }
}

/// Sorts occurrences by start time, ties by priority rank.
pub fn sort_occurrences(occs: Vec<Occurrence>) -> (r: Vec<Occurrence>)
    ensures
        occ_views(r@) == spec_sort(occ_views(occs@)),
{
    let ghost s = occ_views(occs@);
    let mut out: Vec<Occurrence> = Vec::new();
    let mut i: usize = 0;
    proof {
        assert(s.take(0) =~= Seq::<OccV>::empty());
        assert(occ_views(out@) =~= spec_sort(s.take(0)));
    }
    let n = occs.len();
    let mut rest = occs;
    // consume from the front to move each element into place
    while i < n
        invariant
            i <= n,
            n == s.len(),
            occ_views(out@) == spec_sort(s.take(i as int)),
            rest@.len() == n - i,
            occ_views(rest@) == s.skip(i as int),
        decreases n - i,
    {
        let ghost orest = rest@;
        let x = rest.remove(0);
        proof {
            assert(occ_views(orest)[0] == orest[0]@);
            assert(occ_views(orest)[0] == s.skip(i as int)[0]);
            assert(x@ == s[i as int]);
            let tk = s.take(i as int + 1);
            assert(tk.drop_last() =~= s.take(i as int));
            assert(tk.last() == s[i as int]);
            assert forall|k: int| 0 <= k < rest@.len() implies occ_views(rest@)[k] == s.skip(
                i as int + 1,
            )[k] by {
                assert(rest@[k] == orest[k + 1]);
                assert(occ_views(orest)[k + 1] == orest[k + 1]@);
                assert(occ_views(rest@)[k] == rest@[k]@);
            }
            assert(occ_views(rest@) =~= s.skip(i as int + 1));
        }
        insert_occ(&mut out, x);
        i = i + 1;
    }
    proof {
        assert(s.take(n as int) =~= s);
    }
    out
}

/// The first task of the collection carrying the given id.
pub open spec fn spec_find_task(tasks: Seq<AutomationTask>, id: Seq<char>) -> Option<
    AutomationTask,
>
    decreases tasks.len(),
{
    if tasks.len() == 0 {
        None
    } else if tasks[0].id@ == id {
        Some(tasks[0])
    } else {
        spec_find_task(tasks.drop_first(), id)
    }
}

/// Finds the first task carrying the given id.
pub fn find_task_index(tasks: &Vec<AutomationTask>, id: &str) -> (r: Option<usize>)
    ensures
        match r {
            Some(i) => i < tasks@.len() && tasks@[i as int].id@ == id@ && spec_find_task(
                tasks@,
                id@,
            ) == Some(tasks@[i as int]),
            None => spec_find_task(tasks@, id@) is None,
        },
{
    let mut i: usize = 0;
    proof {
        assert(tasks@.skip(0) =~= tasks@);
    }
    while i < tasks.len()
        invariant
            i <= tasks@.len(),
            spec_find_task(tasks@, id@) == spec_find_task(tasks@.skip(i as int), id@),
        decreases tasks@.len() - i,
    {
        proof {
            let tail = tasks@.skip(i as int);
            assert(tail[0] == tasks@[i as int]);
            assert(tail.drop_first() =~= tasks@.skip(i as int + 1));
        }
        if crate::strutil::str_eq(tasks[i].id.as_str(), id) {
            return Some(i);
        }
        i = i + 1;
    }
    proof {
        assert(tasks@.skip(tasks@.len() as int) =~= Seq::<AutomationTask>::empty());
    }
    None
}

/// Every firing of every task of the priority order, expanded in order:
/// entry `k` of the order gets priority rank `pri0 + k`.
pub open spec fn spec_expand_all(
    tasks: Seq<AutomationTask>,
    order: Seq<Seq<char>>,
    pri0: int,
    ws: i64,
    we: i64,
) -> Seq<OccV>
    decreases order.len(),
{
    if order.len() == 0 {
        Seq::empty()
    } else {
        (match spec_find_task(tasks, order[0]) {
            Some(t) => spec_expand_task(t, pri0, ws, we),
            None => Seq::empty(),
        }) + spec_expand_all(tasks, order.drop_first(), pri0 + 1, ws, we)
    }
}

/// The views of a vector of task ids.
pub open spec fn id_views(order: Seq<String>) -> Seq<Seq<char>> {
    order.map_values(|s: String| s@)
}

/// Expands every task of the priority order onto the window.
pub fn expand_all(
    tasks: &Vec<AutomationTask>,
    order: &Vec<String>,
    ws: i64,
    we: i64,
) -> (r: Vec<Occurrence>)
    requires
        ws <= we,
        we - ws <= MAX_WINDOW_SEC,
        ws <= MAX_PLAN_INSTANT,
    ensures
        occ_views(r@) == spec_expand_all(tasks@, id_views(order@), 0, ws, we),
{
    let ghost ids = id_views(order@);
    let ghost full = spec_expand_all(tasks@, ids, 0, ws, we);
    let mut out: Vec<Occurrence> = Vec::new();
    let mut k: usize = 0;
    proof {
        assert(ids.skip(0) =~= ids);
        assert(occ_views(out@) + spec_expand_all(tasks@, ids.skip(0), 0, ws, we) =~= full);
    }
    while k < order.len()
        invariant
            ws <= we,
            we - ws <= MAX_WINDOW_SEC,
            ws <= MAX_PLAN_INSTANT,
            k <= order@.len(),
            ids == id_views(order@),
            full == spec_expand_all(tasks@, ids, 0, ws, we),
            occ_views(out@) + spec_expand_all(tasks@, ids.skip(k as int), k as int, ws, we)
                =~= full,
        decreases order@.len() - k,
    {
        proof {
            let tail = ids.skip(k as int);
            assert(tail[0] == ids[k as int]);
            assert(ids[k as int] == order@[k as int]@);
            assert(tail.drop_first() =~= ids.skip(k as int + 1));
        }
        let mut part: Vec<Occurrence> = match find_task_index(tasks, order[k].as_str()) {
            Some(ti) => expand_task(&tasks[ti], k, ws, we),
            None => Vec::new(),
        };
        proof {
            assert(occ_views(out@ + part@) =~= occ_views(out@) + occ_views(part@));
        }
        out.append(&mut part);
        k = k + 1;
    }
    proof {
        assert(ids.skip(ids.len() as int) =~= Seq::<Seq<char>>::empty());
        assert(occ_views(out@) + Seq::<OccV>::empty() =~= occ_views(out@));
    }
    out
}

/// The planned queue of one day as occurrence values: every task of the
/// order expanded, the conflict merge applied, the survivors ordered by
/// start time (ties by priority rank).
pub open spec fn spec_plan(
    tasks: Seq<AutomationTask>,
    order: Seq<Seq<char>>,
    ws: i64,
    we: i64,
) -> Seq<OccV> {
    spec_sort(spec_survivors(spec_expand_all(tasks, order, 0, ws, we)))
}

/// Produces the day's conflict-free, time-ordered occurrence queue.
pub fn plan_occurrences(
    tasks: &Vec<AutomationTask>,
    order: &Vec<String>,
    ws: i64,
    we: i64,
) -> (r: Vec<Occurrence>)
    requires
        ws <= we,
        we - ws <= MAX_WINDOW_SEC,
        ws <= MAX_PLAN_INSTANT,
    ensures
        occ_views(r@) == spec_plan(tasks@, id_views(order@), ws, we),
{
    let raw = expand_all(tasks, order, ws, we);
    let merged = merge_occurrences(&raw);
    sort_occurrences(merged)
}

/// Whether one planned item records the occurrence `o` at rank `pos` of
/// the queue planned at `now` for the given date.
pub open spec fn item_matches(
    p: PlannedItem,
    o: OccV,
    date: Seq<char>,
    now: int,
    ws: int,
    pos: int,
) -> bool {
    &&& p.task_id@ == o.task_id
    &&& p.scheduled_at == o.start
    &&& p.scheduled_end_at == o.end
    &&& p.position == pos
    &&& p.status == ItemStatus::Pending
    &&& p.created_at == now
    &&& p.executed_at is None
    &&& p.duration_sec == o.end - o.start
    &&& p.date@ == date
    &&& p.time@ == spec_time_of_day(o.start - ws)
    &&& p.id@.len() == 36
}

/// Whether `items` records exactly the occurrence queue `occs`, with
/// sequential positions starting at 1.
pub open spec fn items_match(
    items: Seq<PlannedItem>,
    occs: Seq<OccV>,
    date: Seq<char>,
    now: int,
    ws: int,
) -> bool {
    &&& items.len() == occs.len()
    &&& forall|i: int|
        0 <= i < items.len() ==> item_matches(#[trigger] items[i], occs[i], date, now, ws, i + 1)
}

/// Turns the sorted occurrence queue into pending planned items for one
/// date, with sequential positions starting at 1, fresh ids and the
/// planning instant as creation stamp.
pub fn build_planned_items(
    sorted: &Vec<Occurrence>,
    date: &str,
    now: i64,
    ws: i64,
) -> (r: Vec<PlannedItem>)
    requires
        sorted@.len() < u32::MAX,
        forall|i: int|
            0 <= i < sorted@.len() ==> {
                let o = #[trigger] sorted@[i]@;
                ws <= o.start && o.start - ws < 360000 && 0 <= o.end - o.start <= u32::MAX
            },
    ensures
        items_match(r@, occ_views(sorted@), date@, now as int, ws as int),
{
    let mut out: Vec<PlannedItem> = Vec::new();
    let mut i: usize = 0;
    while i < sorted.len()
        invariant
            i <= sorted@.len(),
            sorted@.len() < u32::MAX,
            out@.len() == i,
            forall|k: int|
                0 <= k < sorted@.len() ==> {
                    let o = #[trigger] sorted@[k]@;
                    ws <= o.start && o.start - ws < 360000 && 0 <= o.end - o.start <= u32::MAX
                },
            forall|k: int|
                0 <= k < i ==> item_matches(
                    #[trigger] out@[k],
                    occ_views(sorted@)[k],
                    date@,
                    now as int,
                    ws as int,
                    k + 1,
                ),
        decreases sorted@.len() - i,
    {
        let o = &sorted[i];
        proof {
            assert(occ_views(sorted@)[i as int] == sorted@[i as int]@);
        }
        let item = PlannedItem {
            id: new_uuid(),
            task_id: o.task_id.clone(),
            date: date.to_owned(),
            time: time_of_day_string(o.start - ws),
            position: (i + 1) as u32,
            status: ItemStatus::Pending,
            created_at: now,
            executed_at: None,
            scheduled_at: o.start,
            scheduled_end_at: o.end,
            duration_sec: (o.end - o.start) as u32,
        };
        out.push(item);
        i = i + 1;
    }
    out
}

} // verus!
