//! The priority arbiter: a total order over candidate occurrences for
//! same-second execution selection.
//!
//! The comparison key, most significant first: the user-assigned
//! priority (overridden to the most favorable value for a candidate
//! that comes from the planned queue), the schedule kind's rank (fixed
//! before interval before cron), a kind-specific key (the fixed instant,
//! or the interval length), the last-run instant (longest idle first),
//! and the task id as the deterministic final tiebreak.

use vstd::prelude::*;
use crate::model::AutomationTask;
use crate::strutil::{seq_char_lt, str_lt, lemma_seq_char_lt_trichotomy};

verus! {

/// The mathematical value of a comparison key.
pub ghost struct CpV {
    pub user_priority: int,
    pub kind_rank: int,
    pub key1: int,
    pub key2: int,
    pub key3: int,
    pub id: Seq<char>,
}

/// The composite ordering key of one candidate occurrence.
pub struct CandidatePriority {
    pub user_priority: i32,
    /// 0 fixed, 1 interval, 2 cron.
    pub kind_rank: u8,
    /// Fixed: the instant; interval: the length in seconds; cron: 0.
    pub key1: i64,
    /// Reserved.
    pub key2: i64,
    /// The task's last run (0 when it never ran): longest idle first.
    pub key3: i64,
    /// The task id: the deterministic final tiebreak.
    pub id: String,
}

impl View for CandidatePriority {
    type V = CpV;

    open spec fn view(&self) -> CpV {
        CpV {
            user_priority: self.user_priority as int,
            kind_rank: self.kind_rank as int,
            key1: self.key1 as int,
            key2: self.key2 as int,
            key3: self.key3 as int,
            id: self.id@,
        }
    }
}

/// The key of one task's candidate occurrence.  A candidate that comes
/// from the planned queue outranks any that does not: its user priority
/// is overridden to the most favorable value.
pub open spec fn spec_candidate_priority(t: AutomationTask, from_plan: bool) -> CpV {
    CpV {
        user_priority: if from_plan {
            i32::MIN as int
        } else {
            t.priority as int
        },
        kind_rank: if t.fixed_at is Some {
            0
        } else if t.interval_sec is Some {
            1
        } else {
            2
        },
        key1: if t.fixed_at is Some {
            t.fixed_at->Some_0 as int
        } else if t.interval_sec is Some {
            t.interval_sec->Some_0 as int
        } else {
            0
        },
        key2: 0,
        key3: match t.last_run {
            Some(v) => v as int,
            None => 0,
        },
        id: t.id@,
    }
}

/// Computes the comparison key of one task's candidate occurrence.
pub fn compute_priority(task: &AutomationTask, from_plan: bool) -> (r: CandidatePriority)
    ensures
        r@ == spec_candidate_priority(*task, from_plan),
{
    let user_priority = if from_plan {
        i32::MIN
    } else {
        task.priority
    };
    let (kind_rank, key1): (u8, i64) = match task.fixed_at {
        Some(fx) => (0, fx),
        None => match task.interval_sec {
            Some(n) => (1, n as i64),
            None => (2, 0),
        },
    };
    let key3 = match task.last_run {
        Some(v) => v,
        None => 0,
    };
    CandidatePriority {
        user_priority,
        kind_rank,
        key1,
        key2: 0,
        key3,
        id: task.id.clone(),
    }
}

/// Strict precedence: the earlier key wins; the task id decides last.
pub open spec fn cp_lt(a: CpV, b: CpV) -> bool {
    if a.user_priority != b.user_priority {
        a.user_priority < b.user_priority
    } else if a.kind_rank != b.kind_rank {
        a.kind_rank < b.kind_rank
    } else if a.key1 != b.key1 {
        a.key1 < b.key1
    } else if a.key2 != b.key2 {
        a.key2 < b.key2
    } else if a.key3 != b.key3 {
        a.key3 < b.key3
    } else {
        seq_char_lt(a.id, b.id)
    }
}

/// Whether this candidate strictly precedes the other.
pub fn precedes(a: &CandidatePriority, b: &CandidatePriority) -> (r: bool)
    ensures
        r == cp_lt(a@, b@),
{
    if a.user_priority != b.user_priority {
        a.user_priority < b.user_priority
    } else if a.kind_rank != b.kind_rank {
        a.kind_rank < b.kind_rank
    } else if a.key1 != b.key1 {
        a.key1 < b.key1
    } else if a.key2 != b.key2 {
        a.key2 < b.key2
    } else if a.key3 != b.key3 {
        a.key3 < b.key3
    } else {
        str_lt(a.id.as_str(), b.id.as_str())
    }
}

/// The ordering is total: two candidate keys are equal or one strictly
/// precedes the other — after the id tiebreak, ties are impossible.
pub proof fn lemma_priority_order_total(a: CpV, b: CpV)
    ensures
        a == b || cp_lt(a, b) || cp_lt(b, a),
{
    if a.user_priority == b.user_priority && a.kind_rank == b.kind_rank && a.key1 == b.key1
        && a.key2 == b.key2 && a.key3 == b.key3 {
        lemma_seq_char_lt_trichotomy(a.id, b.id);
    }
}

/// Strict precedence is irreflexive and asymmetric.
pub proof fn lemma_priority_order_strict(a: CpV, b: CpV)
    ensures
        !(cp_lt(a, b) && cp_lt(b, a)),
        !cp_lt(a, a),
    decreases a.id.len() + b.id.len(),
{
    if a.user_priority == b.user_priority && a.kind_rank == b.kind_rank && a.key1 == b.key1
        && a.key2 == b.key2 && a.key3 == b.key3 {
        lemma_seq_char_lt_asymmetric(a.id, b.id);
    }
    lemma_seq_char_lt_asymmetric(a.id, a.id);
}

proof fn lemma_seq_char_lt_asymmetric(x: Seq<char>, y: Seq<char>)
    ensures
        !(seq_char_lt(x, y) && seq_char_lt(y, x)),
    decreases x.len(),
{
    if x.len() > 0 && y.len() > 0 && (x[0] as u32) == (y[0] as u32) {
        lemma_seq_char_lt_asymmetric(x.drop_first(), y.drop_first());
    }
}

/// Strict precedence is transitive.
pub proof fn lemma_priority_order_transitive(a: CpV, b: CpV, c: CpV)
    requires
        cp_lt(a, b),
        cp_lt(b, c),
    ensures
        cp_lt(a, c),
{
    if a.user_priority == b.user_priority && b.user_priority == c.user_priority && a.kind_rank
        == b.kind_rank && b.kind_rank == c.kind_rank && a.key1 == b.key1 && b.key1 == c.key1
        && a.key2 == b.key2 && b.key2 == c.key2 && a.key3 == b.key3 && b.key3 == c.key3 {
        crate::strutil::lemma_seq_char_lt_transitive(a.id, b.id, c.id);
    }
}


} // verus!
