//! The persisted entities — tasks, subtasks, time sessions, categories and
//! their experience ledgers — together with the response shapes the store
//! operations return, the error kinds, and the mathematical view of each
//! record.

use vstd::prelude::*;

verus! {

use crate::text::str_eq;

/// Status of a task.
#[derive(Clone, Copy, Debug, PartialEq, Eq, Structural)]
pub enum TaskStatus {
    Todo,
    InProgress,
    Done,
}

impl TaskStatus {
    /// The persisted string form of this status.
    pub open spec fn spec_str(self) -> Seq<char> {
        match self {
            TaskStatus::Todo => "todo"@,
            TaskStatus::InProgress => "in_progress"@,
            TaskStatus::Done => "done"@,
        }
    }

    /// The status a persisted string denotes; anything unrecognized is
    /// coerced to `Todo`.
    pub open spec fn spec_from_str(s: Seq<char>) -> TaskStatus {
        if s == "in_progress"@ {
            TaskStatus::InProgress
        } else if s == "done"@ {
            TaskStatus::Done
        } else {
            TaskStatus::Todo
        }
    }

    /// The status a string denotes, or nothing if the string is not one of
    /// the three persisted forms.
    pub open spec fn spec_try_from_str(s: Seq<char>) -> Option<TaskStatus> {
        if s == "todo"@ {
            Some(TaskStatus::Todo)
        } else if s == "in_progress"@ {
            Some(TaskStatus::InProgress)
        } else if s == "done"@ {
            Some(TaskStatus::Done)
        } else {
            None
        }
    }

    pub fn as_str(&self) -> (s: &str)
        ensures
            s@ == self.spec_str(),
    {
        match self {
            TaskStatus::Todo => "todo",
            TaskStatus::InProgress => "in_progress",
            TaskStatus::Done => "done",
        }
    }

    /// Reads the persisted string form back, coercing unknown strings to
    /// `Todo` as the loose reader does.
    pub fn from_str(s: &str) -> (r: Self)
        ensures
            r == TaskStatus::spec_from_str(s@),
    {
        if str_eq(s, "in_progress") {
            TaskStatus::InProgress
        } else if str_eq(s, "done") {
            TaskStatus::Done
        } else {
            TaskStatus::Todo
        }
    }

    /// The strict reader: recognizes exactly the three persisted forms and
    /// reports anything else as absent.
    pub fn try_from_str(s: &str) -> (r: Option<Self>)
        ensures
            r == TaskStatus::spec_try_from_str(s@),
    {
        if str_eq(s, "todo") {
            Some(TaskStatus::Todo)
        } else if str_eq(s, "in_progress") {
            Some(TaskStatus::InProgress)
        } else if str_eq(s, "done") {
            Some(TaskStatus::Done)
        } else {
            None
        }
    }
}

/// Status of a subtask; `Paused` exists only at this level.
#[derive(Clone, Copy, Debug, PartialEq, Eq, Structural)]
pub enum SubtaskStatus {
    Todo,
    InProgress,
    Paused,
    Done,
}

impl SubtaskStatus {
    /// The persisted string form of this status.
    pub open spec fn spec_str(self) -> Seq<char> {
        match self {
            SubtaskStatus::Todo => "todo"@,
            SubtaskStatus::InProgress => "in_progress"@,
            SubtaskStatus::Paused => "paused"@,
            SubtaskStatus::Done => "done"@,
        }
    }

    /// The status a persisted string denotes; anything unrecognized is
    /// coerced to `Todo`.
    pub open spec fn spec_from_str(s: Seq<char>) -> SubtaskStatus {
        if s == "in_progress"@ {
            SubtaskStatus::InProgress
        } else if s == "paused"@ {
            SubtaskStatus::Paused
        } else if s == "done"@ {
            SubtaskStatus::Done
        } else {
            SubtaskStatus::Todo
        }
    }

    pub fn as_str(&self) -> (s: &str)
        ensures
            s@ == self.spec_str(),
    {
        match self {
            SubtaskStatus::Todo => "todo",
            SubtaskStatus::InProgress => "in_progress",
            SubtaskStatus::Paused => "paused",
            SubtaskStatus::Done => "done",
        }
    }

    /// Reads the persisted string form back, coercing unknown strings to
    /// `Todo` as the loose reader does.
    pub fn from_str(s: &str) -> (r: Self)
        ensures
            r == SubtaskStatus::spec_from_str(s@),
    {
        if str_eq(s, "in_progress") {
            SubtaskStatus::InProgress
        } else if str_eq(s, "paused") {
            SubtaskStatus::Paused
        } else if str_eq(s, "done") {
            SubtaskStatus::Done
        } else {
            SubtaskStatus::Todo
        }
    }
}

/// The error kinds a store operation can report.
#[derive(Clone, Copy, Debug, PartialEq, Eq, Structural)]
pub enum StoreError {
    /// A referenced task, subtask or category id has no record.
    NotFound,
    /// The request collides with existing state: a duplicate id or name, or
    /// a transition the state machine does not allow.
    Conflict,
    /// The store cannot take more data, or the backing medium failed.
    StoreUnavailable,
    /// An input value is rejected: an empty title or name, or an elapsed
    /// time that is negative, above the sane bound, or below what the active
    /// session has already accumulated.
    Validation,
}

impl StoreError {
    /// A short text for this error kind.
    pub fn as_str(&self) -> (s: &str)
        ensures
            (self is NotFound ==> s@ == "not found"@)
                && (self is Conflict ==> s@ == "conflict"@)
                && (self is StoreUnavailable ==> s@ == "store unavailable"@)
                && (self is Validation ==> s@ == "validation"@),
    {
        match self {
            StoreError::NotFound => "not found",
            StoreError::Conflict => "conflict",
            StoreError::StoreUnavailable => "store unavailable",
            StoreError::Validation => "validation",
        }
    }
}

/// The view of an optional string: the characters, if present.
pub open spec fn opt_text(o: Option<String>) -> Option<Seq<char>> {
    match o {
        Some(s) => Some(s@),
        None => None,
    }
}

/// A top-level unit of work.
#[derive(Clone, Debug, PartialEq, Eq)]
pub struct Task {
    pub id: String,
    pub title: String,
    pub description: Option<String>,
    pub status: TaskStatus,
    pub created_at: String,
    pub updated_at: String,
    pub completed_at: Option<String>,
}

/// Mathematical view of a task record.
#[verifier::ext_equal]
pub ghost struct TaskV {
    pub id: Seq<char>,
    pub title: Seq<char>,
    pub description: Option<Seq<char>>,
    pub status: TaskStatus,
    pub created_at: Seq<char>,
    pub updated_at: Seq<char>,
    pub completed_at: Option<Seq<char>>,
}

impl View for Task {
    type V = TaskV;

    open spec fn view(&self) -> TaskV {
        TaskV {
            id: self.id@,
            title: self.title@,
            description: opt_text(self.description),
            status: self.status,
            created_at: self.created_at@,
            updated_at: self.updated_at@,
            completed_at: opt_text(self.completed_at),
        }
    }
}

/// The unit of work time is tracked against; belongs to exactly one task.
#[derive(Clone, Debug, PartialEq, Eq)]
pub struct Subtask {
    pub id: String,
    pub task_id: String,
    pub title: String,
    pub status: SubtaskStatus,
    pub created_at: String,
    pub updated_at: String,
    pub completed_at: Option<String>,
    /// Derived historical total; filled in responses, not kept by the store.
    pub total_time_seconds: Option<i64>,
    pub category_id: Option<String>,
}

/// Mathematical view of a subtask record.
#[verifier::ext_equal]
pub ghost struct SubtaskV {
    pub id: Seq<char>,
    pub task_id: Seq<char>,
    pub title: Seq<char>,
    pub status: SubtaskStatus,
    pub created_at: Seq<char>,
    pub updated_at: Seq<char>,
    pub completed_at: Option<Seq<char>>,
    pub total_time_seconds: Option<i64>,
    pub category_id: Option<Seq<char>>,
}

impl View for Subtask {
    type V = SubtaskV;

    open spec fn view(&self) -> SubtaskV {
        SubtaskV {
            id: self.id@,
            task_id: self.task_id@,
            title: self.title@,
            status: self.status,
            created_at: self.created_at@,
            updated_at: self.updated_at@,
            completed_at: opt_text(self.completed_at),
            total_time_seconds: self.total_time_seconds,
            category_id: opt_text(self.category_id),
        }
    }
}

/// One stretch of tracked work on a subtask. A session with no end
/// timestamp is the subtask's active session.
#[derive(Clone, Debug, PartialEq, Eq)]
pub struct TimeSession {
    pub id: String,
    pub subtask_id: String,
    pub started_at: String,
    pub paused_at: Option<String>,
    pub resumed_at: Option<String>,
    pub ended_at: Option<String>,
    pub duration_seconds: i64,
}

/// Mathematical view of a time session record.
#[verifier::ext_equal]
pub ghost struct SessionV {
    pub id: Seq<char>,
    pub subtask_id: Seq<char>,
    pub started_at: Seq<char>,
    pub paused_at: Option<Seq<char>>,
    pub resumed_at: Option<Seq<char>>,
    pub ended_at: Option<Seq<char>>,
    pub duration_seconds: i64,
}

impl View for TimeSession {
    type V = SessionV;

    open spec fn view(&self) -> SessionV {
        SessionV {
            id: self.id@,
            subtask_id: self.subtask_id@,
            started_at: self.started_at@,
            paused_at: opt_text(self.paused_at),
            resumed_at: opt_text(self.resumed_at),
            ended_at: opt_text(self.ended_at),
            duration_seconds: self.duration_seconds,
        }
    }
}

/// A category of work; names are case-folded and unique.
#[derive(Clone, Debug, PartialEq, Eq)]
pub struct Category {
    pub id: String,
    pub name: String,
    pub color: String,
    pub created_at: String,
}

/// Mathematical view of a category record.
#[verifier::ext_equal]
pub ghost struct CategoryV {
    pub id: Seq<char>,
    pub name: Seq<char>,
    pub color: Seq<char>,
    pub created_at: Seq<char>,
}

impl View for Category {
    type V = CategoryV;

    open spec fn view(&self) -> CategoryV {
        CategoryV {
            id: self.id@,
            name: self.name@,
            color: self.color@,
            created_at: self.created_at@,
        }
    }
}

/// The experience ledger of one category; created with the category and
/// kept one-to-one with it.
#[derive(Clone, Debug, PartialEq, Eq)]
pub struct CategoryExperience {
    pub id: String,
    pub category_id: String,
    pub total_xp: i64,
    pub level: i64,
    pub updated_at: String,
}

/// Mathematical view of a ledger record.
#[verifier::ext_equal]
pub ghost struct LedgerV {
    pub id: Seq<char>,
    pub category_id: Seq<char>,
    pub total_xp: i64,
    pub level: i64,
    pub updated_at: Seq<char>,
}

impl View for CategoryExperience {
    type V = LedgerV;

    open spec fn view(&self) -> LedgerV {
        LedgerV {
            id: self.id@,
            category_id: self.category_id@,
            total_xp: self.total_xp,
            level: self.level,
            updated_at: self.updated_at@,
        }
    }
}

/// A task together with all its subtasks.
#[derive(Clone, Debug, PartialEq, Eq)]
pub struct TaskWithSubtasks {
    pub id: String,
    pub title: String,
    pub description: Option<String>,
    pub status: TaskStatus,
    pub created_at: String,
    pub updated_at: String,
    pub completed_at: Option<String>,
    pub subtasks: Vec<Subtask>,
}

/// The in-progress subtask shown beside a task in list views.
#[derive(Clone, Debug, PartialEq, Eq)]
pub struct ActiveSubtaskInfo {
    pub id: String,
    pub title: String,
    pub total_time_seconds: i64,
    /// Approximate elapsed seconds of the running session, derived from the
    /// wall clock; absent when the session's start timestamp does not parse.
    pub current_session_time: Option<i64>,
}

/// A task together with its first in-progress subtask, if any.
#[derive(Clone, Debug, PartialEq, Eq)]
pub struct TaskWithActiveSubtask {
    pub id: String,
    pub title: String,
    pub description: Option<String>,
    pub status: TaskStatus,
    pub created_at: String,
    pub updated_at: String,
    pub completed_at: Option<String>,
    pub active_subtask: Option<ActiveSubtaskInfo>,
}

/// A subtask with its historical time total.
#[derive(Clone, Debug, PartialEq, Eq)]
pub struct SubtaskWithTime {
    pub subtask: Subtask,
    pub total_time_seconds: i64,
}

/// What completing a subtask reports back.
#[derive(Clone, Debug, PartialEq, Eq)]
pub struct SubtaskCompletion {
    pub subtask: Subtask,
    pub points_earned: i64,
    pub time_spent_seconds: i64,
    pub xp_gained: i64,
    pub category: Option<Category>,
}

/// A subtask with its active session, if one is running.
#[derive(Clone, Debug, PartialEq, Eq)]
pub struct SubtaskWithSession {
    pub subtask: Subtask,
    pub session: Option<TimeSession>,
}

/// A task with every subtask and each subtask's active session.
#[derive(Clone, Debug, PartialEq, Eq)]
pub struct TaskWithSubtasksAndSessions {
    pub id: String,
    pub title: String,
    pub description: Option<String>,
    pub status: TaskStatus,
    pub created_at: String,
    pub updated_at: String,
    pub completed_at: Option<String>,
    pub subtasks_with_sessions: Vec<SubtaskWithSession>,
}

/// Derived statistics for one task.
#[derive(Clone, Debug, PartialEq, Eq)]
pub struct TaskMetrics {
    pub task_id: String,
    pub task_title: String,
    pub total_time_seconds: i64,
    pub total_points: i64,
    pub subtasks_completed: i64,
    pub subtasks_total: i64,
    /// Whole seconds per completed subtask, rounded down; 0 with no
    /// completions.
    pub average_time_per_subtask: i64,
    /// Whole percent of completed subtasks that finished under the
    /// efficiency threshold, rounded down; 0 with no completions.
    pub efficiency_rate: i64,
    pub completed_at: Option<String>,
    pub subtasks_with_time: Vec<SubtaskWithTime>,
}

/// A category with its ledger state and progress toward the next level.
#[derive(Clone, Debug, PartialEq, Eq)]
pub struct CategoryStats {
    pub category: Category,
    pub total_xp: i64,
    pub level: i64,
    pub xp_for_next_level: i64,
    /// Whole percent, clamped to `[0, 100]`.
    pub progress_percentage: i64,
}

/// One day of the trailing week: its date, points and completions.
#[derive(Clone, Debug, PartialEq, Eq)]
pub struct DailyPoints {
    /// The calendar date, rendered as in `2024-01-31`.
    pub date: String,
    /// The same day as a count of whole days since the epoch.
    pub epoch_day: i64,
    pub points: i64,
    pub subtasks_completed: i64,
}

/// Derived statistics across every task.
#[derive(Clone, Debug, PartialEq, Eq)]
pub struct GeneralMetrics {
    pub total_points: i64,
    pub points_today: i64,
    pub points_this_week: i64,
    /// Exactly seven entries, oldest first, ending with today.
    pub points_last_7_days: Vec<DailyPoints>,
    /// The day of the window with the most points, earliest first on ties;
    /// absent when no day of the window has any.
    pub best_day: Option<DailyPoints>,
    pub total_tasks_completed: i64,
    pub total_subtasks_completed: i64,
    /// Whole seconds per completed subtask, rounded down; 0 with no
    /// completions.
    pub average_completion_time_seconds: i64,
}

} // verus!
