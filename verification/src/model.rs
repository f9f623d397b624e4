//! Data model of the scheduling engine: tasks, their payload
//! configuration, planned occurrences and execution logs.
//!
//! All instants are unix timestamps in seconds; a calendar date is the
//! string `YYYY-MM-DD` of the reference timezone's local day.

use vstd::prelude::*;

verus! {

/// The kind of payload a task pushes to its device.
#[derive(Clone, Copy, Debug, PartialEq, Eq, Structural)]
pub enum TaskType {
    Text,
    Image,
    TextToImage,
}

/// One positioned text of a composed image, reduced to what the engine
/// reads: the element's identity and its content (the renderer
/// collaborator owns the geometry).
#[derive(Clone, Debug, PartialEq, Eq)]
pub struct TextSpan {
    pub id: String,
    pub content: String,
}

/// Payload configuration, polymorphic over the three task kinds.
/// The scheduler only ever inspects which variant it is; the fields are
/// passed through to the execution collaborator.
#[derive(Clone, Debug, PartialEq, Eq)]
pub enum TaskConfig {
    Text {
        title: String,
        message: String,
        signature: String,
        icon: Option<String>,
        link: Option<String>,
    },
    Image {
        image_data: String,
        algorithm: String,
        link: Option<String>,
    },
    TextToImage {
        background_color: String,
        background_image: Option<String>,
        texts: Vec<TextSpan>,
        link: Option<String>,
    },
}

impl TaskConfig {
    /// Whether this payload configuration belongs to the given task kind.
    pub fn matches_type(&self, t: TaskType) -> (r: bool)
        ensures
            r == self.spec_matches_type(t),
    {
        match (self, t) {
            (TaskConfig::Text { .. }, TaskType::Text) => true,
            (TaskConfig::Image { .. }, TaskType::Image) => true,
            (TaskConfig::TextToImage { .. }, TaskType::TextToImage) => true,
            _ => false,
        }
    }

    /// Which task kind this payload configuration belongs to.
    pub open spec fn spec_matches_type(&self, t: TaskType) -> bool {
        match (self, t) {
            (TaskConfig::Text { .. }, TaskType::Text) => true,
            (TaskConfig::Image { .. }, TaskType::Image) => true,
            (TaskConfig::TextToImage { .. }, TaskType::TextToImage) => true,
            _ => false,
        }
    }
}

/// A schedulable unit of work.
///
/// The schedule descriptor is exactly one of, in order of precedence:
/// `fixed_at` (a one-shot fixed instant), `interval_sec` (repetition from
/// the start of the day), or `schedule` (a cron-like expression).  The
/// presence of a field decides the descriptor, whether or not it yields
/// occurrences.
#[derive(Clone, Debug, PartialEq, Eq)]
pub struct AutomationTask {
    pub id: String,
    pub name: String,
    pub task_type: TaskType,
    pub enabled: bool,
    pub schedule: String,
    pub device_ids: Vec<String>,
    pub config: TaskConfig,
    pub last_run: Option<i64>,
    pub next_run: Option<i64>,
    pub run_count: u64,
    pub error_count: u64,
    pub created_at: i64,
    pub updated_at: i64,
    pub fixed_at: Option<i64>,
    pub interval_sec: Option<u32>,
    pub priority: i32,
    pub duration_sec: Option<u32>,
}

/// The state of one planned occurrence.
#[derive(Clone, Copy, Debug, PartialEq, Eq, Structural)]
pub enum ItemStatus {
    Pending,
    Done,
    Skipped,
}

/// One concrete, resolved occurrence of a task on a specific date.
#[derive(Clone, Debug, PartialEq, Eq)]
pub struct PlannedItem {
    pub id: String,
    pub task_id: String,
    /// Calendar day, `YYYY-MM-DD`.
    pub date: String,
    /// Local wall-clock start, `HH:MM:SS`.
    pub time: String,
    /// Rank within the day's queue, starting at 1.
    pub position: u32,
    pub status: ItemStatus,
    pub created_at: i64,
    pub executed_at: Option<i64>,
    pub scheduled_at: i64,
    pub scheduled_end_at: i64,
    pub duration_sec: u32,
}

/// Immutable record of one execution attempt.
#[derive(Clone, Debug, PartialEq, Eq)]
pub struct TaskExecutionLog {
    pub id: String,
    pub task_id: String,
    pub executed_at: i64,
    pub success: bool,
    pub error_message: Option<String>,
    pub duration_ms: u64,
}

/// A user-supplied priority ordering: task ids, highest priority first.
#[derive(Clone, Debug, PartialEq, Eq)]
pub struct UpdatePrioritiesArgs {
    pub ordered_ids: Vec<String>,
}

impl TextSpan {
    /// An equal copy.
    pub fn duplicate(&self) -> (r: TextSpan)
        ensures
            r == *self,
    {
        TextSpan { id: self.id.clone(), content: self.content.clone() }
    }
}

/// Whether two payload configurations hold the same values (text
/// elements compared by their contents).
pub open spec fn config_eq(a: TaskConfig, b: TaskConfig) -> bool {
    match (a, b) {
        (
            TaskConfig::Text { title: t1, message: m1, signature: s1, icon: i1, link: l1 },
            TaskConfig::Text { title: t2, message: m2, signature: s2, icon: i2, link: l2 },
        ) => t1 == t2 && m1 == m2 && s1 == s2 && i1 == i2 && l1 == l2,
        (
            TaskConfig::Image { image_data: d1, algorithm: a1, link: l1 },
            TaskConfig::Image { image_data: d2, algorithm: a2, link: l2 },
        ) => d1 == d2 && a1 == a2 && l1 == l2,
        (
            TaskConfig::TextToImage {
                background_color: c1,
                background_image: b1,
                texts: x1,
                link: l1,
            },
            TaskConfig::TextToImage {
                background_color: c2,
                background_image: b2,
                texts: x2,
                link: l2,
            },
        ) => c1 == c2 && b1 == b2 && x1@ == x2@ && l1 == l2,
        _ => false,
    }
}

impl TaskConfig {
    /// A copy holding the same values.
    pub fn duplicate(&self) -> (r: TaskConfig)
        ensures
            config_eq(r, *self),
    {
        match self {
            TaskConfig::Text { title, message, signature, icon, link } => TaskConfig::Text {
                title: title.clone(),
                message: message.clone(),
                signature: signature.clone(),
                icon: icon.clone(),
                link: link.clone(),
            },
            TaskConfig::Image { image_data, algorithm, link } => TaskConfig::Image {
                image_data: image_data.clone(),
                algorithm: algorithm.clone(),
                link: link.clone(),
            },
            TaskConfig::TextToImage { background_color, background_image, texts, link } => {
                let mut ts: Vec<TextSpan> = Vec::new();
                let mut i: usize = 0;
                while i < texts.len()
                    invariant
                        i <= texts@.len(),
                        ts@.len() == i,
                        forall|k: int| 0 <= k < i ==> ts@[k] == texts@[k],
                    decreases texts@.len() - i,
                {
                    ts.push(texts[i].duplicate());
                    i = i + 1;
                }
                proof {
                    assert(ts@ =~= texts@);
                }
                TaskConfig::TextToImage {
                    background_color: background_color.clone(),
                    background_image: background_image.clone(),
                    texts: ts,
                    link: link.clone(),
                }
            },
        }
    }
}

/// Whether two tasks hold the same values (device lists compared by
/// their contents).
pub open spec fn task_eq(a: AutomationTask, b: AutomationTask) -> bool {
    &&& a.id == b.id
    &&& a.name == b.name
    &&& a.task_type == b.task_type
    &&& a.enabled == b.enabled
    &&& a.schedule == b.schedule
    &&& a.device_ids@ == b.device_ids@
    &&& config_eq(a.config, b.config)
    &&& a.last_run == b.last_run
    &&& a.next_run == b.next_run
    &&& a.run_count == b.run_count
    &&& a.error_count == b.error_count
    &&& a.created_at == b.created_at
    &&& a.updated_at == b.updated_at
    &&& a.fixed_at == b.fixed_at
    &&& a.interval_sec == b.interval_sec
    &&& a.priority == b.priority
    &&& a.duration_sec == b.duration_sec
}

/// Copies a vector of strings.
pub fn dup_strings(v: &Vec<String>) -> (r: Vec<String>)
    ensures
        r@ == v@,
{
    let mut out: Vec<String> = Vec::new();
    let mut i: usize = 0;
    while i < v.len()
        invariant
            i <= v@.len(),
            out@.len() == i,
            forall|k: int| 0 <= k < i ==> out@[k] == v@[k],
        decreases v@.len() - i,
    {
        out.push(v[i].clone());
        i = i + 1;
    }
    proof {
        assert(out@ =~= v@);
    }
    out
}

impl AutomationTask {
    /// A copy holding the same values.
    pub fn duplicate(&self) -> (r: AutomationTask)
        ensures
            task_eq(r, *self),
    {
        AutomationTask {
            id: self.id.clone(),
            name: self.name.clone(),
            task_type: self.task_type,
            enabled: self.enabled,
            schedule: self.schedule.clone(),
            device_ids: dup_strings(&self.device_ids),
            config: self.config.duplicate(),
            last_run: self.last_run,
            next_run: self.next_run,
            run_count: self.run_count,
            error_count: self.error_count,
            created_at: self.created_at,
            updated_at: self.updated_at,
            fixed_at: self.fixed_at,
            interval_sec: self.interval_sec,
            priority: self.priority,
            duration_sec: self.duration_sec,
        }
    }
}

impl PlannedItem {
    /// An equal copy.
    pub fn duplicate(&self) -> (r: PlannedItem)
        ensures
            r == *self,
    {
        PlannedItem {
            id: self.id.clone(),
            task_id: self.task_id.clone(),
            date: self.date.clone(),
            time: self.time.clone(),
            position: self.position,
            status: self.status,
            created_at: self.created_at,
            executed_at: self.executed_at,
            scheduled_at: self.scheduled_at,
            scheduled_end_at: self.scheduled_end_at,
            duration_sec: self.duration_sec,
        }
    }
}

impl TaskExecutionLog {
    /// An equal copy.
    pub fn duplicate(&self) -> (r: TaskExecutionLog)
        ensures
            r == *self,
    {
        TaskExecutionLog {
            id: self.id.clone(),
            task_id: self.task_id.clone(),
            executed_at: self.executed_at,
            success: self.success,
            error_message: self.error_message.clone(),
            duration_ms: self.duration_ms,
        }
    }
}


} // verus!
