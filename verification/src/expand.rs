//! The occurrence expander: maps one task's schedule descriptor onto a
//! half-open day window and yields the concrete instants at which the
//! task fires, each paired with its on-device duration.
//!
//! The descriptor is decided by which field is present, in order of
//! precedence: `fixed_at`, then `interval_sec`, then the cron-like
//! expression.  A disabled task yields nothing.  An expression that the
//! cron engine rejects falls back to a closed set of recognized literal
//! patterns (every minute, every hour on the hour, a fixed hour daily)
//! and finally to an hourly default; an empty expression denotes no
//! descriptor at all and yields nothing, so a one-shot task whose fixed
//! instant was cleared is never replanned.

use vstd::prelude::*;
use crate::model::AutomationTask;
use crate::strutil::{
    spec_trim, trim, spec_count_fields, count_fields, spec_skip_spaces, skip_spaces,
    spec_next_space, next_space, spec_parse_u32, parse_u32,
};
use crate::bridge::{cron_window_times, cron_times_in_window, MAX_PLAN_INSTANT};
use crate::spec_effective_duration;
use crate::effective_duration;

verus! {

/// The widest day window the planner accepts, in seconds: a calendar
/// day never spans more than two civil days, whatever the timezone
/// shift.
pub const MAX_WINDOW_SEC: i64 = 172799;

/// The mathematical value of one occurrence: its bounds, the owning
/// task and the task's rank in the user's priority order.
pub ghost struct OccV {
    pub start: int,
    pub end: int,
    pub task_id: Seq<char>,
    pub pri: int,
}

/// One concrete, time-bounded firing of a task within a day.
pub struct Occurrence {
    pub start: i64,
    pub end: i64,
    pub task_id: String,
    pub priority_idx: usize,
}

impl View for Occurrence {
    type V = OccV;

    open spec fn view(&self) -> OccV {
        OccV {
            start: self.start as int,
            end: self.end as int,
            task_id: self.task_id@,
            pri: self.priority_idx as int,
        }
    }
}

impl Occurrence {
    /// An equal copy.
    pub fn duplicate(&self) -> (r: Occurrence)
        ensures
            r == *self,
    {
        Occurrence {
            start: self.start,
            end: self.end,
            task_id: self.task_id.clone(),
            priority_idx: self.priority_idx,
        }
    }
}

/// The views of a vector of occurrences.
pub open spec fn occ_views(v: Seq<Occurrence>) -> Seq<OccV> {
    v.map_values(|o: Occurrence| o@)
}

/// Whether an occurrence starting at `t` with duration `dur` fits the
/// window `[ws, we)`: it starts inside it and ends at or before `we`.
pub open spec fn spec_keep(t: int, dur: int, ws: int, we: int) -> bool {
    ws <= t && t < we && t + dur <= we
}

/// The occurrence value of a firing at `t`.
pub open spec fn occv(t: int, dur: int, tid: Seq<char>, pri: int) -> OccV {
    OccV { start: t, end: t + dur, task_id: tid, pri: pri }
}

/// The firings generated by repeated addition of `step` from `t` on,
/// stopping at the first firing that does not fit the window.
pub open spec fn spec_every_from(
    t: int,
    step: int,
    dur: int,
    tid: Seq<char>,
    pri: int,
    ws: int,
    we: int,
) -> Seq<OccV>
    decreases (if we - t >= 0 { we - t } else { 0 }) when step > 0 && dur > 0
{
    if step > 0 && dur > 0 && t < we && t + dur <= we {
        seq![occv(t, dur, tid, pri)] + spec_every_from(t + step, step, dur, tid, pri, ws, we)
    } else {
        Seq::empty()
    }
}

/// The firings of an every-`step`-seconds descriptor inside the window.
pub open spec fn spec_expand_every(
    step: int,
    dur: int,
    tid: Seq<char>,
    pri: int,
    ws: int,
    we: int,
) -> Seq<OccV> {
    spec_every_from(ws, step, dur, tid, pri, ws, we)
}

/// How many firings an every-`step` descriptor generates: one for every
/// multiple of `step` that leaves room for the duration before the
/// window's end.
pub open spec fn spec_every_count(step: int, dur: int, ws: int, we: int) -> int {
    if we - ws < dur {
        0
    } else {
        (we - ws - dur) / step + 1
    }
}

/// The generated firings are exactly the multiples of `step` from the
/// window start that fit before its end, `spec_every_count` of them.
pub proof fn lemma_every_from_shape(
    t: int,
    step: int,
    dur: int,
    tid: Seq<char>,
    pri: int,
    ws: int,
    we: int,
)
    requires
        step > 0,
        dur > 0,
    ensures
        spec_every_from(t, step, dur, tid, pri, ws, we) == Seq::new(
            spec_every_count(step, dur, t, we) as nat,
            |k: int| occv(t + k * step, dur, tid, pri),
        ),
    decreases (if we - t >= 0 { we - t } else { 0 }),
{
    reveal_with_fuel(spec_every_from, 2);
    let s = spec_every_from(t, step, dur, tid, pri, ws, we);
    let w = we - t;
    if t < we && t + dur <= we {
        lemma_every_from_shape(t + step, step, dur, tid, pri, ws, we);
        let rest = spec_every_from(t + step, step, dur, tid, pri, ws, we);
        let c_rest = spec_every_count(step, dur, t + step, we);
        let c = spec_every_count(step, dur, t, we);
        assert(c == (w - dur) / step + 1);
        if we - (t + step) < dur {
            // only the firing at t fits
            assert(0 <= w - dur < step);
            vstd::arithmetic::div_mod::lemma_basic_div(w - dur, step);
            assert(c == 1);
            assert(spec_every_count(step, dur, t + step, we) == 0);
            assert(rest =~= Seq::<OccV>::empty());
            assert(s.len() == 1);
            assert(s[0] == occv(t, dur, tid, pri));
            assert(t + 0 * step == t);
            assert(s =~= Seq::new(c as nat, |k: int| occv(t + k * step, dur, tid, pri)));
        } else {
            assert(c_rest == (w - step - dur) / step + 1);
            vstd::arithmetic::div_mod::lemma_div_plus_one(w - step - dur, step);
            assert((w - dur) / step == (w - step - dur) / step + 1);
            assert(c == c_rest + 1);
            assert forall|k: int| 0 <= k < c implies (seq![
                occv(t, dur, tid, pri),
            ] + rest)[k] == occv(t + k * step, dur, tid, pri) by {
                if k > 0 {
                    assert(rest[k - 1] == occv(t + step + (k - 1) * step, dur, tid, pri));
                    assert(t + step + (k - 1) * step == t + k * step) by (nonlinear_arith);
                }
            }
            assert(s =~= Seq::new(c as nat, |k: int| occv(t + k * step, dur, tid, pri)));
        }
    } else {
        if we - t >= dur {
            assert(t + dur <= we);
            assert(!(t < we));
            assert(dur > 0);
            assert(false);
        }
        assert(spec_every_count(step, dur, t, we) == 0);
        assert(s =~= Seq::new(0, |k: int| occv(t + k * step, dur, tid, pri)));
    }
}

/// The firings named by the cron engine's trigger instants, in order,
/// those that fit the window.
pub open spec fn spec_from_times(
    ts: Seq<i64>,
    dur: int,
    tid: Seq<char>,
    pri: int,
    ws: int,
    we: int,
) -> Seq<OccV>
    decreases ts.len(),
{
    if ts.len() == 0 {
        Seq::empty()
    } else {
        (if spec_keep(ts[0] as int, dur, ws, we) {
            seq![occv(ts[0] as int, dur, tid, pri)]
        } else {
            Seq::empty()
        }) + spec_from_times(ts.drop_first(), dur, tid, pri, ws, we)
    }
}

/// The six-field form of a schedule expression: a five-field expression
/// gains a leading seconds field of `0`.
pub open spec fn spec_six_fields(e: Seq<char>) -> Seq<char> {
    if spec_count_fields(e) == 5 {
        seq!['0', ' '] + e
    } else {
        e
    }
}

/// The daily hour of the fixed-hour fallback pattern `0 H ...`: the
/// second whitespace-separated field read as a number, or 9 when it is
/// not one.
pub open spec fn spec_fallback_hour(e: Seq<char>) -> int {
    let a = spec_skip_spaces(e, 1);
    let b = spec_next_space(e, a);
    match spec_parse_u32(e.subrange(a, b)) {
        Some(h) => h as int,
        None => 9,
    }
}

/// The firings of the closed fallback pattern set: every minute, every
/// hour on the hour, a fixed hour daily, and an hourly default.
pub open spec fn spec_expand_fallback(
    e: Seq<char>,
    dur: int,
    tid: Seq<char>,
    pri: int,
    ws: int,
    we: int,
) -> Seq<OccV> {
    if e == "* * * * *"@ {
        spec_expand_every(60, dur, tid, pri, ws, we)
    } else if e == "0 * * * *"@ {
        spec_expand_every(3600, dur, tid, pri, ws, we)
    } else if e.len() >= 2 && e[0] == '0' && e[1] == ' ' {
        let h = spec_fallback_hour(e);
        if h <= 23 && spec_keep(ws + 3600 * h, dur, ws, we) {
            seq![occv(ws + 3600 * h, dur, tid, pri)]
        } else {
            Seq::empty()
        }
    } else {
        spec_expand_every(3600, dur, tid, pri, ws, we)
    }
}

/// The firings of a trimmed schedule expression `e`: nothing when it is
/// empty; the cron engine's trigger instants when it has five or six
/// fields and the engine accepts its six-field form; the fallback
/// patterns otherwise.
pub open spec fn spec_expand_sched(
    e: Seq<char>,
    dur: int,
    tid: Seq<char>,
    pri: int,
    ws: i64,
    we: i64,
) -> Seq<OccV> {
    if e.len() == 0 {
        Seq::empty()
    } else if (spec_count_fields(e) == 5 || spec_count_fields(e) == 6)
        && cron_window_times(spec_six_fields(e), ws, we) is Some {
        spec_from_times(
            cron_window_times(spec_six_fields(e), ws, we)->Some_0,
            dur,
            tid,
            pri,
            ws as int,
            we as int,
        )
    } else {
        spec_expand_fallback(e, dur, tid, pri, ws as int, we as int)
    }
}

/// Every firing of one task inside the day window `[ws, we)`: nothing
/// when the task is disabled; its fixed instant if that is set; its
/// interval repetition if an interval is set; its schedule expression's
/// firings otherwise.
pub open spec fn spec_expand_task(t: AutomationTask, pri: int, ws: i64, we: i64) -> Seq<OccV> {
    let dur = spec_effective_duration(t.duration_sec) as int;
    if !t.enabled {
        Seq::empty()
    } else if t.fixed_at is Some {
        let fx = t.fixed_at->Some_0;
        if spec_keep(fx as int, dur, ws as int, we as int) {
            seq![occv(fx as int, dur, t.id@, pri)]
        } else {
            Seq::empty()
        }
    } else if t.interval_sec is Some {
        let n = t.interval_sec->Some_0;
        if n > 0 {
            spec_expand_every(n as int, dur, t.id@, pri, ws as int, we as int)
        } else {
            Seq::empty()
        }
    } else {
        spec_expand_sched(spec_trim(t.schedule@), dur, t.id@, pri, ws, we)
    }
}

/// Generates the firings of an every-`step` descriptor.
fn expand_every(
    step: u32,
    dur: u32,
    tid: &String,
    pri: usize,
    ws: i64,
    we: i64,
) -> (r: Vec<Occurrence>)
    requires
        step > 0,
        dur > 0,
        ws <= we,
        we - ws <= MAX_WINDOW_SEC,
    ensures
        occ_views(r@) == spec_expand_every(step as int, dur as int, tid@, pri as int, ws as int, we as int),
{
    let mut out: Vec<Occurrence> = Vec::new();
    let mut t: i64 = ws;
    let ghost full = spec_expand_every(step as int, dur as int, tid@, pri as int, ws as int, we as int);
    proof {
        assert(occ_views(out@) + spec_every_from(
            t as int, step as int, dur as int, tid@, pri as int, ws as int, we as int,
        ) =~= full);
    }
    while t < we
        invariant_except_break
            step > 0,
            dur > 0,
            ws <= t,
            we - ws <= MAX_WINDOW_SEC,
            full == spec_expand_every(
                step as int, dur as int, tid@, pri as int, ws as int, we as int,
            ),
            occ_views(out@) + spec_every_from(
                t as int, step as int, dur as int, tid@, pri as int, ws as int, we as int,
            ) =~= full,
        ensures
            occ_views(out@) =~= full,
        decreases (if we - t >= 0 { we as int - t as int } else { 0int }),
    {
        let e = match t.checked_add(dur as i64) {
            Some(e) => e,
            None => {
                proof {
                    assert(t as int + dur as int > i64::MAX >= we as int);
                    assert(spec_every_from(
                        t as int, step as int, dur as int, tid@, pri as int, ws as int, we as int,
                    ) =~= Seq::<OccV>::empty());
                    assert(occ_views(out@) =~= full);
                }
                break;
            },
        };
        if e > we {
            proof {
                assert(spec_every_from(
                    t as int, step as int, dur as int, tid@, pri as int, ws as int, we as int,
                ) =~= Seq::<OccV>::empty());
                assert(occ_views(out@) =~= full);
            }
            break;
        }
        out.push(Occurrence { start: t, end: e, task_id: tid.clone(), priority_idx: pri });
        proof {
            let tt = t as int;
            assert(spec_every_from(tt, step as int, dur as int, tid@, pri as int, ws as int, we as int)
                == seq![occv(tt, dur as int, tid@, pri as int)] + spec_every_from(
                tt + step as int, step as int, dur as int, tid@, pri as int, ws as int, we as int,
            ));
            assert(occ_views(out@) =~= occ_views(out@.drop_last()) + seq![
                occv(tt, dur as int, tid@, pri as int),
            ]);
        }
        t = match t.checked_add(step as i64) {
            Some(t2) => t2,
            None => {
                proof {
                    assert(t as int + step as int > i64::MAX >= we as int);
                    assert(spec_every_from(
                        t as int + step as int, step as int, dur as int, tid@, pri as int,
                        ws as int, we as int,
                    ) =~= Seq::<OccV>::empty());
                    assert(occ_views(out@) =~= full);
                }
                break;
            },
        };
    }
    out
}

/// Keeps the cron trigger instants that fit the window.
fn expand_from_times(
    ts: &Vec<i64>,
    dur: u32,
    tid: &String,
    pri: usize,
    ws: i64,
    we: i64,
) -> (r: Vec<Occurrence>)
    requires
        dur > 0,
    ensures
        occ_views(r@) == spec_from_times(ts@, dur as int, tid@, pri as int, ws as int, we as int),
{
    let mut out: Vec<Occurrence> = Vec::new();
    let mut i: usize = 0;
    let ghost full = spec_from_times(ts@, dur as int, tid@, pri as int, ws as int, we as int);
    proof {
        assert(ts@.skip(0) =~= ts@);
        assert(occ_views(out@) + spec_from_times(
            ts@.skip(0), dur as int, tid@, pri as int, ws as int, we as int,
        ) =~= full);
    }
    while i < ts.len()
        invariant
            dur > 0,
            i <= ts@.len(),
            occ_views(out@) + spec_from_times(
                ts@.skip(i as int), dur as int, tid@, pri as int, ws as int, we as int,
            ) =~= full,
        decreases ts@.len() - i,
    {
        let t = ts[i];
        let ghost tail = ts@.skip(i as int);
        proof {
            assert(tail[0] == ts@[i as int]);
            assert(tail.drop_first() =~= ts@.skip(i as int + 1));
        }
        let keep = if t >= ws && t < we {
            match t.checked_add(dur as i64) {
                Some(e) => e <= we,
                None => {
                    proof {
                        assert(t as int + dur as int > i64::MAX >= we as int);
                    }
                    false
                },
            }
        } else {
            false
        };
        if keep {
            let e = t + dur as i64;
            out.push(Occurrence { start: t, end: e, task_id: tid.clone(), priority_idx: pri });
            proof {
                assert(occ_views(out@) =~= occ_views(out@.drop_last()) + seq![
                    occv(t as int, dur as int, tid@, pri as int),
                ]);
            }
        } else {
            proof {
                assert(!spec_keep(t as int, dur as int, ws as int, we as int));
            }
        }
        i = i + 1;
    }
    proof {
        assert(ts@.skip(ts@.len() as int) =~= Seq::<i64>::empty());
        assert(occ_views(out@) + Seq::<OccV>::empty() =~= occ_views(out@));
    }
    out
}

/// Expands a trimmed, non-empty schedule expression.
fn expand_sched(
    e: &str,
    dur: u32,
    tid: &String,
    pri: usize,
    ws: i64,
    we: i64,
) -> (r: Vec<Occurrence>)
    requires
        dur > 0,
        ws <= we,
        we - ws <= MAX_WINDOW_SEC,
        ws <= MAX_PLAN_INSTANT,
        e@.len() > 0,
    ensures
        occ_views(r@) == spec_expand_sched(e@, dur as int, tid@, pri as int, ws, we),
{
    let nf = count_fields(e);
    if nf == 5 || nf == 6 {
        let expr6: String = if nf == 5 {
            proof {
                reveal_strlit("0 ");
            }
            let mut p = String::new();
            p.append("0 ");
            p.append(e);
            proof {
                assert(p@ =~= seq!['0', ' '] + e@);
                assert(p@ =~= spec_six_fields(e@));
            }
            p
        } else {
            let p = e.to_owned();
            proof {
                assert(p@ =~= spec_six_fields(e@));
            }
            p
        };
        match cron_times_in_window(expr6.as_str(), ws, we) {
            Some(ts) => {
                return expand_from_times(&ts, dur, tid, pri, ws, we);
            },
            None => {
                // the engine rejected the expression: fall back
            },
        }
    }
    // the closed fallback set
    if crate::strutil::str_eq(e, "* * * * *") {
        expand_every(60, dur, tid, pri, ws, we)
    } else if crate::strutil::str_eq(e, "0 * * * *") {
        expand_every(3600, dur, tid, pri, ws, we)
    } else if e.unicode_len() >= 2 && e.get_char(0) == '0' && e.get_char(1) == ' ' {
        let a = skip_spaces(e, 1);
        let b = next_space(e, a);
        let field = e.substring_char(a, b);
        let h: u32 = match parse_u32(field) {
            Some(h) => h,
            None => 9,
        };
        proof {
            assert(h as int == spec_fallback_hour(e@));
        }
        let mut out: Vec<Occurrence> = Vec::new();
        if h <= 23 {
            let t = match ws.checked_add(3600 * h as i64) {
                Some(t) => t,
                None => {
                    proof {
                        assert(!spec_keep(
                            ws as int + 3600 * h as int, dur as int, ws as int, we as int,
                        ));
                    }
                    return out;
                },
            };
            let keep = if t >= ws && t < we {
                match t.checked_add(dur as i64) {
                    Some(en) => en <= we,
                    None => {
                        proof {
                            assert(t as int + dur as int > i64::MAX >= we as int);
                        }
                        false
                    },
                }
            } else {
                false
            };
            if keep {
                let en = t + dur as i64;
                out.push(Occurrence { start: t, end: en, task_id: tid.clone(), priority_idx: pri });
            }
        }
        proof {
            let hh = spec_fallback_hour(e@);
            if hh <= 23 && spec_keep(ws as int + 3600 * hh, dur as int, ws as int, we as int) {
                assert(occ_views(out@) =~= seq![
                    occv(ws as int + 3600 * hh, dur as int, tid@, pri as int),
                ]);
            } else {
                assert(occ_views(out@) =~= Seq::<OccV>::empty());
            }
        }
        out
    } else {
        expand_every(3600, dur, tid, pri, ws, we)
    }
}

/// Expands one task onto the day window `[ws, we)`.
///
/// A disabled task yields nothing; a fixed instant yields at most one
/// firing; an interval yields its repetitions; otherwise the schedule
/// expression decides, through the cron engine or the fallback set.
pub fn expand_task(task: &AutomationTask, pri: usize, ws: i64, we: i64) -> (r: Vec<Occurrence>)
    requires
        ws <= we,
        we - ws <= MAX_WINDOW_SEC,
        ws <= MAX_PLAN_INSTANT,
    ensures
        occ_views(r@) == spec_expand_task(*task, pri as int, ws, we),
{
    let dur = effective_duration(task.duration_sec);
    if !task.enabled {
        return Vec::new();
    }
    if let Some(fx) = task.fixed_at {
        let mut out: Vec<Occurrence> = Vec::new();
        let keep = if fx >= ws && fx < we {
            match fx.checked_add(dur as i64) {
                Some(e) => e <= we,
                None => {
                    proof {
                        assert(fx as int + dur as int > i64::MAX >= we as int);
                    }
                    false
                },
            }
        } else {
            false
        };
        if keep {
            let e = fx + dur as i64;
            out.push(Occurrence {
                start: fx,
                end: e,
                task_id: task.id.clone(),
                priority_idx: pri,
            });
            proof {
                assert(occ_views(out@) =~= seq![occv(fx as int, dur as int, task.id@, pri as int)]);
            }
        } else {
            proof {
                assert(occ_views(out@) =~= Seq::<OccV>::empty());
            }
        }
        return out;
    }
    if let Some(n) = task.interval_sec {
        if n > 0 {
            return expand_every(n, dur, &task.id, pri, ws, we);
        } else {
            return Vec::new();
        }
    }
    let e = trim(task.schedule.as_str());
    if e.unicode_len() == 0 {
        proof {
            assert(spec_trim(task.schedule@).len() == 0);
        }
        return Vec::new();
    }
    expand_sched(e, dur, &task.id, pri, ws, we)
}

} // verus!
