//! The time-session state machine: starting, pausing, resuming and
//! completing work on a subtask, and adjusting the running session's
//! accumulated time.
//!
//! A subtask starts as to-do; `start` opens its one session and moves it to
//! in-progress; `pause` and `resume` switch between paused and in-progress
//! while the session stays open; `complete` closes the session, marks the
//! subtask done — a terminal state — awards points and pays the tracked
//! seconds into the category's experience ledger.

use vstd::prelude::*;

verus! {

use crate::level::MAX_TOTAL_XP;
use crate::level::calculate_level;
use crate::level::spec_is_level_of;
use crate::models::LedgerV;
use crate::models::SessionV;
use crate::models::StoreError;
use crate::models::Subtask;
use crate::models::SubtaskCompletion;
use crate::models::SubtaskStatus;
use crate::models::SubtaskV;
use crate::models::TimeSession;
use crate::models::opt_text;
use crate::scoring::points_for_duration;
use crate::scoring::spec_points;
use crate::store::MAX_ELAPSED_SECONDS;
use crate::store::MAX_RECORDS;
use crate::store::Store;
use crate::store::StoreV;
use crate::store::active_exists;
use crate::store::active_index_of;
use crate::store::category_exists;
use crate::store::category_index_of;
use crate::store::clone_category;
use crate::store::clone_opt_text;
use crate::store::clone_session;
use crate::store::clone_subtask;
use crate::store::is_active;
use crate::store::lemma_active_index_of;
use crate::store::lemma_category_index_of;
use crate::store::lemma_subtask_index_of;
use crate::store::session_id_exists;
use crate::store::store_wf;
use crate::store::subtask_exists;
use crate::store::subtask_index_of;
use crate::store::task_exists;
use crate::models::CategoryExperience;
use crate::clock::now_rfc3339;
use crate::ident::new_id;

/// The status of the subtask `sid`, assuming it exists.
pub open spec fn subtask_status_of(v: StoreV, sid: Seq<char>) -> SubtaskStatus {
    v.subtasks[subtask_index_of(v.subtasks, sid)].status
}

/// From to-do, the only valid transition is `start`.
pub open spec fn spec_may_start(v: StoreV, sid: Seq<char>) -> bool {
    subtask_exists(v.subtasks, sid) && subtask_status_of(v, sid) is Todo
}

/// From in-progress, work can be paused.
pub open spec fn spec_may_pause(v: StoreV, sid: Seq<char>) -> bool {
    subtask_exists(v.subtasks, sid) && subtask_status_of(v, sid) is InProgress
}

/// From paused, work can be resumed.
pub open spec fn spec_may_resume(v: StoreV, sid: Seq<char>) -> bool {
    subtask_exists(v.subtasks, sid) && subtask_status_of(v, sid) is Paused
}

/// From in-progress or paused — the states with a running session — work
/// can be completed.
pub open spec fn spec_may_complete(v: StoreV, sid: Seq<char>) -> bool {
    subtask_exists(v.subtasks, sid) && (subtask_status_of(v, sid) is InProgress
        || subtask_status_of(v, sid) is Paused)
}

/// The accumulated seconds of the running session of `sid`, assuming one.
pub open spec fn active_duration_of(v: StoreV, sid: Seq<char>) -> i64 {
    v.sessions[active_index_of(v.sessions, sid)].duration_seconds
}

/// A caller-supplied elapsed time is accepted when it is non-negative,
/// within the sane bound, and not below what the running session already
/// holds.
pub open spec fn elapsed_ok(v: StoreV, sid: Seq<char>, elapsed: i64) -> bool {
    0 <= elapsed <= MAX_ELAPSED_SECONDS && elapsed >= active_duration_of(v, sid)
}

/// When the completion can pay its experience: either the subtask has no
/// category, or the category's ledger has room for `elapsed` more.
pub open spec fn xp_room(v: StoreV, sid: Seq<char>, elapsed: i64) -> bool {
    match v.subtasks[subtask_index_of(v.subtasks, sid)].category_id {
        Some(cid) => v.ledgers[category_index_of(v.categories, cid)].total_xp + elapsed
            <= MAX_TOTAL_XP,
        None => true,
    }
}

/// When starting succeeds: an existing to-do subtask, a fresh session id,
/// room left.
pub open spec fn start_ok(v: StoreV, sid: Seq<char>, sess_id: Seq<char>) -> bool {
    &&& spec_may_start(v, sid)
    &&& !session_id_exists(v.sessions, sess_id)
    &&& v.sessions.len() < MAX_RECORDS
}

/// The error reported when starting fails.
pub open spec fn start_err(v: StoreV, sid: Seq<char>, sess_id: Seq<char>) -> StoreError {
    if !subtask_exists(v.subtasks, sid) {
        StoreError::NotFound
    } else if !(subtask_status_of(v, sid) is Todo) {
        StoreError::Conflict
    } else if session_id_exists(v.sessions, sess_id) {
        StoreError::Conflict
    } else {
        StoreError::StoreUnavailable
    }
}

/// When pausing succeeds: an existing in-progress subtask and an accepted
/// elapsed time.
pub open spec fn pause_ok(v: StoreV, sid: Seq<char>, elapsed: i64) -> bool {
    spec_may_pause(v, sid) && elapsed_ok(v, sid, elapsed)
}

/// The error reported when pausing fails.
pub open spec fn pause_err(v: StoreV, sid: Seq<char>, elapsed: i64) -> StoreError {
    if !subtask_exists(v.subtasks, sid) {
        StoreError::NotFound
    } else if !(subtask_status_of(v, sid) is InProgress) {
        StoreError::Conflict
    } else {
        StoreError::Validation
    }
}

/// When resuming succeeds: an existing paused subtask.
pub open spec fn resume_ok(v: StoreV, sid: Seq<char>) -> bool {
    spec_may_resume(v, sid)
}

/// The error reported when resuming fails.
pub open spec fn resume_err(v: StoreV, sid: Seq<char>) -> StoreError {
    if !subtask_exists(v.subtasks, sid) {
        StoreError::NotFound
    } else {
        StoreError::Conflict
    }
}

/// When completing succeeds: a subtask with a running session, an accepted
/// elapsed time, and ledger room for the experience.
pub open spec fn complete_ok(v: StoreV, sid: Seq<char>, elapsed: i64) -> bool {
    spec_may_complete(v, sid) && elapsed_ok(v, sid, elapsed) && xp_room(v, sid, elapsed)
}

/// The error reported when completing fails.
pub open spec fn complete_err(v: StoreV, sid: Seq<char>, elapsed: i64) -> StoreError {
    if !subtask_exists(v.subtasks, sid) {
        StoreError::NotFound
    } else if !spec_may_complete(v, sid) {
        StoreError::Conflict
    } else {
        StoreError::Validation
    }
}

/// When adjusting the running session's time succeeds: the subtask exists,
/// a session is running, and the new time is accepted.
pub open spec fn update_duration_ok(v: StoreV, sid: Seq<char>, d: i64) -> bool {
    &&& subtask_exists(v.subtasks, sid)
    &&& active_exists(v.sessions, sid)
    &&& elapsed_ok(v, sid, d)
}

/// The error reported when adjusting the running session's time fails.
pub open spec fn update_duration_err(v: StoreV, sid: Seq<char>, d: i64) -> StoreError {
    if !subtask_exists(v.subtasks, sid) {
        StoreError::NotFound
    } else if !active_exists(v.sessions, sid) {
        StoreError::Conflict
    } else {
        StoreError::Validation
    }
}

/// The state machine read off the statuses: each status admits exactly the
/// transitions the tracker accepts — from to-do only `start`; from
/// in-progress only `pause` or `complete`; from paused only `resume` or
/// `complete`; from done, nothing.
pub proof fn lemma_transition_validity(v: StoreV, sid: Seq<char>)
    requires
        subtask_exists(v.subtasks, sid),
    ensures
        subtask_status_of(v, sid) is Todo ==> spec_may_start(v, sid) && !spec_may_pause(v, sid)
            && !spec_may_resume(v, sid) && !spec_may_complete(v, sid),
        subtask_status_of(v, sid) is InProgress ==> !spec_may_start(v, sid) && spec_may_pause(
            v,
            sid,
        ) && !spec_may_resume(v, sid) && spec_may_complete(v, sid),
        subtask_status_of(v, sid) is Paused ==> !spec_may_start(v, sid) && !spec_may_pause(v, sid)
            && spec_may_resume(v, sid) && spec_may_complete(v, sid),
        subtask_status_of(v, sid) is Done ==> !spec_may_start(v, sid) && !spec_may_pause(v, sid)
            && !spec_may_resume(v, sid) && !spec_may_complete(v, sid),
{
}

/// Replacing one subtask and its one session, keeping ids and ownership,
/// preserves well-formedness as long as the pair stays in lockstep.
proof fn lemma_wf_update_pair(v: StoreV, si: int, ai: int, s2: SubtaskV, x2: SessionV, v2: StoreV)
    requires
        store_wf(v),
        0 <= si < v.subtasks.len(),
        0 <= ai < v.sessions.len(),
        v.sessions[ai].subtask_id == v.subtasks[si].id,
        s2.id == v.subtasks[si].id,
        s2.task_id == v.subtasks[si].task_id,
        s2.category_id == v.subtasks[si].category_id,
        (s2.completed_at is Some) <==> (s2.status is Done),
        x2.id == v.sessions[ai].id,
        x2.subtask_id == v.sessions[ai].subtask_id,
        0 <= x2.duration_seconds <= MAX_ELAPSED_SECONDS,
        if is_active(x2) {
            s2.status is InProgress || s2.status is Paused
        } else {
            s2.status is Done
        },
        (s2.status is InProgress || s2.status is Paused) ==> is_active(x2),
        v2 == (StoreV {
            subtasks: v.subtasks.update(si, s2),
            sessions: v.sessions.update(ai, x2),
            ..v
        }),
    ensures
        store_wf(v2),
{
    let ss = v2.subtasks;
    let xs = v2.sessions;
    assert(v.subtasks[si].id == s2.id);
    lemma_subtask_index_of(v.subtasks, si);
    assert forall|a: int, b: int| 0 <= a < b < ss.len() implies (#[trigger] ss[a]).id != (
    #[trigger] ss[b]).id by {
        assert(v.subtasks[a].id != v.subtasks[b].id);
    }
    assert forall|a: int| 0 <= a < ss.len() implies task_exists(
        v2.tasks,
        (#[trigger] ss[a]).task_id,
    ) by {
        assert(task_exists(v.tasks, v.subtasks[a].task_id));
    }
    assert forall|a: int| 0 <= a < ss.len() implies ((#[trigger] ss[a]).completed_at is Some <==> ss[
        a
    ].status is Done) by {
        if a != si {
            assert((v.subtasks[a].completed_at is Some) <==> (v.subtasks[a].status is Done));
        }
    }
    assert forall|a: int| 0 <= a < ss.len() implies ((#[trigger] ss[a]).category_id matches Some(
        cid,
    ) ==> category_exists(v2.categories, cid)) by {
        if v.subtasks[a].category_id is Some {
            assert(category_exists(v.categories, v.subtasks[a].category_id->Some_0));
        }
    }
    assert forall|a: int, b: int| 0 <= a < b < xs.len() implies (#[trigger] xs[a]).id != (
    #[trigger] xs[b]).id by {
        assert(v.sessions[a].id != v.sessions[b].id);
    }
    assert forall|a: int, b: int| 0 <= a < b < xs.len() implies (#[trigger] xs[a]).subtask_id != (
    #[trigger] xs[b]).subtask_id by {
        assert(v.sessions[a].subtask_id != v.sessions[b].subtask_id);
    }
    assert forall|a: int|
        0 <= a < xs.len() implies 0 <= (#[trigger] xs[a]).duration_seconds
        <= MAX_ELAPSED_SECONDS by {
        if a != ai {
            assert(0 <= v.sessions[a].duration_seconds <= MAX_ELAPSED_SECONDS);
        }
    }
    assert forall|a: int| 0 <= a < xs.len() implies subtask_exists(
        ss,
        (#[trigger] xs[a]).subtask_id,
    ) by {
        assert(subtask_exists(v.subtasks, v.sessions[a].subtask_id));
        let w = subtask_index_of(v.subtasks, v.sessions[a].subtask_id);
        assert(ss[w].id == xs[a].subtask_id);
    }
    assert forall|a: int| 0 <= a < xs.len() implies {
        let owner = ss[subtask_index_of(ss, (#[trigger] xs[a]).subtask_id)];
        if is_active(xs[a]) {
            owner.status is InProgress || owner.status is Paused
        } else {
            owner.status is Done
        }
    } by {
        let sidk = xs[a].subtask_id;
        let w = subtask_index_of(v.subtasks, sidk);
        lemma_subtask_index_of(v.subtasks, w);
        assert(ss[w].id == v.subtasks[w].id);
        lemma_subtask_index_of(ss, w);
        assert(subtask_index_of(ss, sidk) == w);
        if a == ai {
            assert(w == si);
        } else {
            assert(v.sessions[a].subtask_id != v.sessions[ai].subtask_id);
            assert(w != si);
            assert({
                let owner = v.subtasks[subtask_index_of(v.subtasks, v.sessions[a].subtask_id)];
                if is_active(v.sessions[a]) {
                    owner.status is InProgress || owner.status is Paused
                } else {
                    owner.status is Done
                }
            });
        }
    }
    assert forall|a: int|
        0 <= a < ss.len() implies (((#[trigger] ss[a]).status is InProgress || ss[a].status
        is Paused) ==> active_exists(xs, ss[a].id)) by {
        if ss[a].status is InProgress || ss[a].status is Paused {
            if a == si {
                assert(xs[ai].subtask_id == s2.id && is_active(xs[ai]));
            } else {
                assert((v.subtasks[a].status is InProgress || v.subtasks[a].status is Paused)
                    ==> active_exists(v.sessions, v.subtasks[a].id));
                let u = choose|u: int|
                    0 <= u < v.sessions.len() && (#[trigger] v.sessions[u]).subtask_id
                        == v.subtasks[a].id && is_active(v.sessions[u]);
                assert(v.subtasks[a].id != v.subtasks[si].id);
                assert(u != ai);
                assert(xs[u].subtask_id == ss[a].id && is_active(xs[u]));
            }
        }
    }
}

impl Store {
    /// Starts work on a to-do subtask, with explicit identifier and
    /// timestamp values: the subtask moves to in-progress and a fresh
    /// session opens with no accumulated time.
    pub fn start_subtask_with(&mut self, subtask_id: &str, session_id: String, now: String) -> (r:
        Result<TimeSession, StoreError>)
        requires
            old(self).wf(),
        ensures
            final(self).wf(),
            r is Ok <==> start_ok(old(self)@, subtask_id@, session_id@),
            r matches Err(e) ==> final(self)@ == old(self)@ && e == start_err(
                old(self)@,
                subtask_id@,
                session_id@,
            ),
            r matches Ok(x) ==> {
                let si = subtask_index_of(old(self)@.subtasks, subtask_id@);
                &&& x@ == (SessionV {
                    id: session_id@,
                    subtask_id: subtask_id@,
                    started_at: now@,
                    paused_at: None,
                    resumed_at: None,
                    ended_at: None,
                    duration_seconds: 0,
                })
                &&& final(self)@ == (StoreV {
                    subtasks: old(self)@.subtasks.update(
                        si,
                        (SubtaskV {
                            status: SubtaskStatus::InProgress,
                            updated_at: now@,
                            ..old(self)@.subtasks[si]
                        }),
                    ),
                    sessions: old(self)@.sessions.push(x@),
                    ..old(self)@
                })
            },
    {
        let si = match self.find_subtask(subtask_id) {
            Some(i) => i,
            None => {
                return Err(StoreError::NotFound);
            },
        };
        proof {
            lemma_subtask_index_of(self@.subtasks, si as int);
        }
        match self.subtasks[si].status {
            SubtaskStatus::Todo => {},
            _ => {
                return Err(StoreError::Conflict);
            },
        }
        if self.find_session_by_id(session_id.as_str()).is_some() {
            return Err(StoreError::Conflict);
        }
        if self.sessions.len() >= MAX_RECORDS {
            return Err(StoreError::StoreUnavailable);
        }
        let ghost prior = self@;
        let ghost sid = subtask_id@;
        let prev = &self.subtasks[si];
        let updated = Subtask {
            id: prev.id.clone(),
            task_id: prev.task_id.clone(),
            title: prev.title.clone(),
            status: SubtaskStatus::InProgress,
            created_at: prev.created_at.clone(),
            updated_at: now.clone(),
            completed_at: clone_opt_text(&prev.completed_at),
            total_time_seconds: prev.total_time_seconds,
            category_id: clone_opt_text(&prev.category_id),
        };
        let session = TimeSession {
            id: session_id,
            subtask_id: subtask_id.to_owned(),
            started_at: now,
            paused_at: None,
            resumed_at: None,
            ended_at: None,
            duration_seconds: 0,
        };
        let out = clone_session(&session);
        let ghost s2 = updated@;
        let ghost xnew = session@;
        self.subtasks[si] = updated;
        self.sessions.push(session);
        proof {
            let si = si as int;
            assert(self@.subtasks =~= prior.subtasks.update(si, s2));
            assert(self@.sessions =~= prior.sessions.push(xnew));
            assert(self@ =~= (StoreV {
                subtasks: prior.subtasks.update(si, s2),
                sessions: prior.sessions.push(xnew),
                ..prior
            }));
            let ss = self@.subtasks;
            let xs = self@.sessions;
            let n = xs.len();
            // no session of this subtask existed: its status was to-do
            assert forall|k: int| 0 <= k < n - 1 implies (#[trigger] xs[k]).subtask_id != sid by {
                if prior.sessions[k].subtask_id == sid {
                    let w = subtask_index_of(prior.subtasks, sid);
                    assert({
                        let owner = prior.subtasks[subtask_index_of(
                            prior.subtasks,
                            prior.sessions[k].subtask_id,
                        )];
                        if is_active(prior.sessions[k]) {
                            owner.status is InProgress || owner.status is Paused
                        } else {
                            owner.status is Done
                        }
                    });
                }
            }
            assert forall|a: int, b: int| 0 <= a < b < ss.len() implies (#[trigger] ss[a]).id != (
            #[trigger] ss[b]).id by {
                assert(prior.subtasks[a].id != prior.subtasks[b].id);
            }
            assert forall|a: int| 0 <= a < ss.len() implies task_exists(
                self@.tasks,
                (#[trigger] ss[a]).task_id,
            ) by {
                assert(task_exists(prior.tasks, prior.subtasks[a].task_id));
            }
            assert forall|a: int| 0 <= a < ss.len() implies ((#[trigger] ss[a]).completed_at
                is Some <==> ss[a].status is Done) by {
                assert((prior.subtasks[a].completed_at is Some) <==> (prior.subtasks[a].status
                    is Done));
            }
            assert forall|a: int| 0 <= a < ss.len() implies ((#[trigger] ss[a]).category_id
                matches Some(cid) ==> category_exists(self@.categories, cid)) by {
                if prior.subtasks[a].category_id is Some {
                    assert(category_exists(
                        self@.categories,
                        prior.subtasks[a].category_id->Some_0,
                    ));
                }
            }
            assert forall|a: int, b: int| 0 <= a < b < n implies (#[trigger] xs[a]).id != (
            #[trigger] xs[b]).id by {
                if b < n - 1 {
                    assert(prior.sessions[a].id != prior.sessions[b].id);
                }
            }
            assert forall|a: int, b: int| 0 <= a < b < n implies (#[trigger] xs[a]).subtask_id != (
            #[trigger] xs[b]).subtask_id by {
                if b < n - 1 {
                    assert(prior.sessions[a].subtask_id != prior.sessions[b].subtask_id);
                }
            }
            assert forall|a: int| 0 <= a < n implies subtask_exists(
                ss,
                (#[trigger] xs[a]).subtask_id,
            ) by {
                if a < n - 1 {
                    assert(subtask_exists(prior.subtasks, prior.sessions[a].subtask_id));
                    let w = subtask_index_of(prior.subtasks, prior.sessions[a].subtask_id);
                    assert(ss[w].id == xs[a].subtask_id);
                } else {
                    assert(ss[si].id == sid);
                }
            }
            assert forall|a: int| 0 <= a < n implies {
                let owner = ss[subtask_index_of(ss, (#[trigger] xs[a]).subtask_id)];
                if is_active(xs[a]) {
                    owner.status is InProgress || owner.status is Paused
                } else {
                    owner.status is Done
                }
            } by {
                let sidk = xs[a].subtask_id;
                if a < n - 1 {
                    assert(sidk != sid);
                    let w = subtask_index_of(prior.subtasks, sidk);
                    lemma_subtask_index_of(prior.subtasks, w);
                    assert(w != si);
                    assert(ss[w].id == sidk);
                    lemma_subtask_index_of(ss, w);
                    assert({
                        let owner = prior.subtasks[subtask_index_of(
                            prior.subtasks,
                            prior.sessions[a].subtask_id,
                        )];
                        if is_active(prior.sessions[a]) {
                            owner.status is InProgress || owner.status is Paused
                        } else {
                            owner.status is Done
                        }
                    });
                } else {
                    assert(ss[si].id == sid);
                    lemma_subtask_index_of(ss, si);
                }
            }
            assert forall|a: int|
                0 <= a < ss.len() implies (((#[trigger] ss[a]).status is InProgress
                || ss[a].status is Paused) ==> active_exists(xs, ss[a].id)) by {
                if ss[a].status is InProgress || ss[a].status is Paused {
                    if a == si {
                        assert(xs[n - 1].subtask_id == sid && is_active(xs[n - 1]));
                    } else {
                        assert((prior.subtasks[a].status is InProgress
                            || prior.subtasks[a].status is Paused) ==> active_exists(
                            prior.sessions,
                            prior.subtasks[a].id,
                        ));
                        let u = choose|u: int|
                            0 <= u < prior.sessions.len() && (
                            #[trigger] prior.sessions[u]).subtask_id == prior.subtasks[a].id
                                && is_active(prior.sessions[u]);
                        assert(xs[u].subtask_id == ss[a].id && is_active(xs[u]));
                    }
                }
            }
        }
        Ok(out)
    }

    /// Pauses in-progress work, with an explicit timestamp: the subtask
    /// moves to paused and the running session records the caller-supplied
    /// elapsed seconds without closing.
    pub fn pause_subtask_at(&mut self, subtask_id: &str, elapsed: i64, now: String) -> (r: Result<
        TimeSession,
        StoreError,
    >)
        requires
            old(self).wf(),
        ensures
            final(self).wf(),
            r is Ok <==> pause_ok(old(self)@, subtask_id@, elapsed),
            r matches Err(e) ==> final(self)@ == old(self)@ && e == pause_err(
                old(self)@,
                subtask_id@,
                elapsed,
            ),
            r matches Ok(x) ==> {
                let si = subtask_index_of(old(self)@.subtasks, subtask_id@);
                let ai = active_index_of(old(self)@.sessions, subtask_id@);
                &&& x@ == (SessionV {
                    paused_at: Some(now@),
                    duration_seconds: elapsed,
                    ..old(self)@.sessions[ai]
                })
                &&& final(self)@ == (StoreV {
                    subtasks: old(self)@.subtasks.update(
                        si,
                        (SubtaskV {
                            status: SubtaskStatus::Paused,
                            updated_at: now@,
                            ..old(self)@.subtasks[si]
                        }),
                    ),
                    sessions: old(self)@.sessions.update(ai, x@),
                    ..old(self)@
                })
            },
    {
        let si = match self.find_subtask(subtask_id) {
            Some(i) => i,
            None => {
                return Err(StoreError::NotFound);
            },
        };
        proof {
            lemma_subtask_index_of(self@.subtasks, si as int);
        }
        match self.subtasks[si].status {
            SubtaskStatus::InProgress => {},
            _ => {
                return Err(StoreError::Conflict);
            },
        }
        let ai = match self.find_active_session(subtask_id) {
            Some(a) => a,
            None => {
                proof {
                    assert(active_exists(self@.sessions, self@.subtasks[si as int].id));
                }
                vstd::pervasive::unreached()
            },
        };
        proof {
            lemma_active_index_of(self@.sessions, ai as int);
        }
        if elapsed < 0 || elapsed > MAX_ELAPSED_SECONDS {
            return Err(StoreError::Validation);
        }
        if elapsed < self.sessions[ai].duration_seconds {
            return Err(StoreError::Validation);
        }
        let ghost prior = self@;
        let sprev = &self.subtasks[si];
        let updated_s = Subtask {
            id: sprev.id.clone(),
            task_id: sprev.task_id.clone(),
            title: sprev.title.clone(),
            status: SubtaskStatus::Paused,
            created_at: sprev.created_at.clone(),
            updated_at: now.clone(),
            completed_at: clone_opt_text(&sprev.completed_at),
            total_time_seconds: sprev.total_time_seconds,
            category_id: clone_opt_text(&sprev.category_id),
        };
        let xprev = &self.sessions[ai];
        let updated_x = TimeSession {
            id: xprev.id.clone(),
            subtask_id: xprev.subtask_id.clone(),
            started_at: xprev.started_at.clone(),
            paused_at: Some(now),
            resumed_at: clone_opt_text(&xprev.resumed_at),
            ended_at: None,
            duration_seconds: elapsed,
        };
        let out = clone_session(&updated_x);
        let ghost s2 = updated_s@;
        let ghost x2 = updated_x@;
        self.subtasks[si] = updated_s;
        self.sessions[ai] = updated_x;
        proof {
            assert(self@.subtasks =~= prior.subtasks.update(si as int, s2));
            assert(self@.sessions =~= prior.sessions.update(ai as int, x2));
            assert(self@ =~= (StoreV {
                subtasks: prior.subtasks.update(si as int, s2),
                sessions: prior.sessions.update(ai as int, x2),
                ..prior
            }));
            lemma_wf_update_pair(prior, si as int, ai as int, s2, x2, self@);
        }
        Ok(out)
    }

    /// Pauses in-progress work, stamped with the current time.
    pub fn pause_subtask(&mut self, subtask_id: &str, elapsed: i64) -> (r: Result<
        TimeSession,
        StoreError,
    >)
        requires
            old(self).wf(),
        ensures
            final(self).wf(),
            r is Ok <==> pause_ok(old(self)@, subtask_id@, elapsed),
            r matches Err(e) ==> final(self)@ == old(self)@ && e == pause_err(
                old(self)@,
                subtask_id@,
                elapsed,
            ),
            r matches Ok(x) ==> {
                let si = subtask_index_of(old(self)@.subtasks, subtask_id@);
                let ai = active_index_of(old(self)@.sessions, subtask_id@);
                &&& x@ == (SessionV {
                    paused_at: x@.paused_at,
                    duration_seconds: elapsed,
                    ..old(self)@.sessions[ai]
                })
                &&& x@.paused_at is Some
                &&& final(self)@ == (StoreV {
                    subtasks: old(self)@.subtasks.update(
                        si,
                        (SubtaskV {
                            status: SubtaskStatus::Paused,
                            updated_at: x@.paused_at->Some_0,
                            ..old(self)@.subtasks[si]
                        }),
                    ),
                    sessions: old(self)@.sessions.update(ai, x@),
                    ..old(self)@
                })
            },
    {
        let now = now_rfc3339();
        self.pause_subtask_at(subtask_id, elapsed, now)
    }

    /// Resumes paused work, with an explicit timestamp: the subtask moves
    /// back to in-progress and the session records when, keeping its
    /// accumulated time.
    pub fn resume_subtask_at(&mut self, subtask_id: &str, now: String) -> (r: Result<
        TimeSession,
        StoreError,
    >)
        requires
            old(self).wf(),
        ensures
            final(self).wf(),
            r is Ok <==> resume_ok(old(self)@, subtask_id@),
            r matches Err(e) ==> final(self)@ == old(self)@ && e == resume_err(
                old(self)@,
                subtask_id@,
            ),
            r matches Ok(x) ==> {
                let si = subtask_index_of(old(self)@.subtasks, subtask_id@);
                let ai = active_index_of(old(self)@.sessions, subtask_id@);
                &&& x@ == (SessionV { resumed_at: Some(now@), ..old(self)@.sessions[ai] })
                &&& final(self)@ == (StoreV {
                    subtasks: old(self)@.subtasks.update(
                        si,
                        (SubtaskV {
                            status: SubtaskStatus::InProgress,
                            updated_at: now@,
                            ..old(self)@.subtasks[si]
                        }),
                    ),
                    sessions: old(self)@.sessions.update(ai, x@),
                    ..old(self)@
                })
            },
    {
        let si = match self.find_subtask(subtask_id) {
            Some(i) => i,
            None => {
                return Err(StoreError::NotFound);
            },
        };
        proof {
            lemma_subtask_index_of(self@.subtasks, si as int);
        }
        match self.subtasks[si].status {
            SubtaskStatus::Paused => {},
            _ => {
                return Err(StoreError::Conflict);
            },
        }
        let ai = match self.find_active_session(subtask_id) {
            Some(a) => a,
            None => {
                proof {
                    assert(active_exists(self@.sessions, self@.subtasks[si as int].id));
                }
                vstd::pervasive::unreached()
            },
        };
        proof {
            lemma_active_index_of(self@.sessions, ai as int);
            assert(0 <= self@.sessions[ai as int].duration_seconds <= MAX_ELAPSED_SECONDS);
        }
        let ghost prior = self@;
        let sprev = &self.subtasks[si];
        let updated_s = Subtask {
            id: sprev.id.clone(),
            task_id: sprev.task_id.clone(),
            title: sprev.title.clone(),
            status: SubtaskStatus::InProgress,
            created_at: sprev.created_at.clone(),
            updated_at: now.clone(),
            completed_at: clone_opt_text(&sprev.completed_at),
            total_time_seconds: sprev.total_time_seconds,
            category_id: clone_opt_text(&sprev.category_id),
        };
        let xprev = &self.sessions[ai];
        let updated_x = TimeSession {
            id: xprev.id.clone(),
            subtask_id: xprev.subtask_id.clone(),
            started_at: xprev.started_at.clone(),
            paused_at: clone_opt_text(&xprev.paused_at),
            resumed_at: Some(now),
            ended_at: None,
            duration_seconds: xprev.duration_seconds,
        };
        let out = clone_session(&updated_x);
        let ghost s2 = updated_s@;
        let ghost x2 = updated_x@;
        self.subtasks[si] = updated_s;
        self.sessions[ai] = updated_x;
        proof {
            assert(self@.subtasks =~= prior.subtasks.update(si as int, s2));
            assert(self@.sessions =~= prior.sessions.update(ai as int, x2));
            assert(self@ =~= (StoreV {
                subtasks: prior.subtasks.update(si as int, s2),
                sessions: prior.sessions.update(ai as int, x2),
                ..prior
            }));
            lemma_wf_update_pair(prior, si as int, ai as int, s2, x2, self@);
        }
        Ok(out)
    }

    /// Resumes paused work, stamped with the current time.
    pub fn resume_subtask(&mut self, subtask_id: &str) -> (r: Result<TimeSession, StoreError>)
        requires
            old(self).wf(),
        ensures
            final(self).wf(),
            r is Ok <==> resume_ok(old(self)@, subtask_id@),
            r matches Err(e) ==> final(self)@ == old(self)@ && e == resume_err(
                old(self)@,
                subtask_id@,
            ),
            r matches Ok(x) ==> {
                let si = subtask_index_of(old(self)@.subtasks, subtask_id@);
                let ai = active_index_of(old(self)@.sessions, subtask_id@);
                &&& x@ == (SessionV { resumed_at: x@.resumed_at, ..old(self)@.sessions[ai] })
                &&& x@.resumed_at is Some
                &&& final(self)@ == (StoreV {
                    subtasks: old(self)@.subtasks.update(
                        si,
                        (SubtaskV {
                            status: SubtaskStatus::InProgress,
                            updated_at: x@.resumed_at->Some_0,
                            ..old(self)@.subtasks[si]
                        }),
                    ),
                    sessions: old(self)@.sessions.update(ai, x@),
                    ..old(self)@
                })
            },
    {
        let now = now_rfc3339();
        self.resume_subtask_at(subtask_id, now)
    }

    /// Sets the running session's accumulated time, without touching any
    /// status or timestamp. The new value may not shrink what the session
    /// already holds.
    pub fn update_session_duration(&mut self, subtask_id: &str, duration_seconds: i64) -> (r:
        Result<(), StoreError>)
        requires
            old(self).wf(),
        ensures
            final(self).wf(),
            r is Ok <==> update_duration_ok(old(self)@, subtask_id@, duration_seconds),
            r matches Err(e) ==> final(self)@ == old(self)@ && e == update_duration_err(
                old(self)@,
                subtask_id@,
                duration_seconds,
            ),
            r is Ok ==> {
                let ai = active_index_of(old(self)@.sessions, subtask_id@);
                final(self)@ == (StoreV {
                    sessions: old(self)@.sessions.update(
                        ai,
                        (SessionV {
                            duration_seconds: duration_seconds,
                            ..old(self)@.sessions[ai]
                        }),
                    ),
                    ..old(self)@
                })
            },
    {
        let si = match self.find_subtask(subtask_id) {
            Some(i) => i,
            None => {
                return Err(StoreError::NotFound);
            },
        };
        proof {
            lemma_subtask_index_of(self@.subtasks, si as int);
        }
        let ai = match self.find_active_session(subtask_id) {
            Some(a) => a,
            None => {
                return Err(StoreError::Conflict);
            },
        };
        proof {
            lemma_active_index_of(self@.sessions, ai as int);
        }
        if duration_seconds < 0 || duration_seconds > MAX_ELAPSED_SECONDS {
            return Err(StoreError::Validation);
        }
        if duration_seconds < self.sessions[ai].duration_seconds {
            return Err(StoreError::Validation);
        }
        let ghost prior = self@;
        let xprev = &self.sessions[ai];
        let updated_x = TimeSession {
            id: xprev.id.clone(),
            subtask_id: xprev.subtask_id.clone(),
            started_at: xprev.started_at.clone(),
            paused_at: clone_opt_text(&xprev.paused_at),
            resumed_at: clone_opt_text(&xprev.resumed_at),
            ended_at: None,
            duration_seconds,
        };
        let ghost x2 = updated_x@;
        let ghost si = si as int;
        proof {
            assert((prior.subtasks[si].completed_at is Some) <==> (prior.subtasks[si].status
                is Done));
            assert({
                let owner = prior.subtasks[subtask_index_of(
                    prior.subtasks,
                    prior.sessions[ai as int].subtask_id,
                )];
                owner.status is InProgress || owner.status is Paused
            });
        }
        self.sessions[ai] = updated_x;
        proof {
            assert(self@.subtasks =~= prior.subtasks.update(si, prior.subtasks[si]));
            assert(self@.sessions =~= prior.sessions.update(ai as int, x2));
            assert(self@ =~= (StoreV {
                subtasks: prior.subtasks.update(si, prior.subtasks[si]),
                sessions: prior.sessions.update(ai as int, x2),
                ..prior
            }));
            lemma_wf_update_pair(prior, si, ai as int, prior.subtasks[si], x2, self@);
            assert(self@.subtasks =~= prior.subtasks);
            assert(self@ =~= (StoreV { sessions: prior.sessions.update(ai as int, x2), ..prior }));
        }
        Ok(())
    }

    /// Completes work on a subtask, with an explicit timestamp: the subtask
    /// becomes done — for good — its session closes with the caller-supplied
    /// final elapsed seconds, points are computed from those seconds, and
    /// the category's ledger (if the subtask has one) is paid one point of
    /// experience per second and releveled.
    pub fn complete_subtask_at(&mut self, subtask_id: &str, elapsed: i64, now: String) -> (r:
        Result<SubtaskCompletion, StoreError>)
        requires
            old(self).wf(),
        ensures
            final(self).wf(),
            r is Ok <==> complete_ok(old(self)@, subtask_id@, elapsed),
            r matches Err(e) ==> final(self)@ == old(self)@ && e == complete_err(
                old(self)@,
                subtask_id@,
                elapsed,
            ),
            r matches Ok(c) ==> {
                let si = subtask_index_of(old(self)@.subtasks, subtask_id@);
                let ai = active_index_of(old(self)@.sessions, subtask_id@);
                let s2 = (SubtaskV {
                    status: SubtaskStatus::Done,
                    updated_at: now@,
                    completed_at: Some(now@),
                    ..old(self)@.subtasks[si]
                });
                let x2 = (SessionV {
                    ended_at: Some(now@),
                    duration_seconds: elapsed,
                    ..old(self)@.sessions[ai]
                });
                &&& c.points_earned == spec_points(elapsed as int)
                &&& c.time_spent_seconds == elapsed
                &&& c.xp_gained == elapsed
                &&& c.subtask@ == (SubtaskV {
                    total_time_seconds: Some(
                        crate::metrics::spec_session_time(
                            final(self)@.sessions,
                            subtask_id@,
                        ) as i64,
                    ),
                    ..s2
                })
                &&& (old(self)@.subtasks[si].category_id is None ==> c.category is None
                    && final(self)@ == (StoreV {
                    subtasks: old(self)@.subtasks.update(si, s2),
                    sessions: old(self)@.sessions.update(ai, x2),
                    ..old(self)@
                }))
                &&& (old(self)@.subtasks[si].category_id is Some ==> {
                    let cid = old(self)@.subtasks[si].category_id->Some_0;
                    let ci = category_index_of(old(self)@.categories, cid);
                    &&& c.category is Some
                    &&& c.category->Some_0@ == old(self)@.categories[ci]
                    &&& final(self)@.ledgers[ci].total_xp == old(self)@.ledgers[ci].total_xp
                        + elapsed
                    &&& spec_is_level_of(
                        final(self)@.ledgers[ci].total_xp as int,
                        final(self)@.ledgers[ci].level as int,
                    )
                    &&& final(self)@ == (StoreV {
                        subtasks: old(self)@.subtasks.update(si, s2),
                        sessions: old(self)@.sessions.update(ai, x2),
                        ledgers: old(self)@.ledgers.update(
                            ci,
                            (LedgerV {
                                total_xp: (old(self)@.ledgers[ci].total_xp + elapsed) as i64,
                                level: final(self)@.ledgers[ci].level,
                                updated_at: now@,
                                ..old(self)@.ledgers[ci]
                            }),
                        ),
                        ..old(self)@
                    })
                })
            },
    {
        let si = match self.find_subtask(subtask_id) {
            Some(i) => i,
            None => {
                return Err(StoreError::NotFound);
            },
        };
        proof {
            lemma_subtask_index_of(self@.subtasks, si as int);
        }
        match self.subtasks[si].status {
            SubtaskStatus::InProgress | SubtaskStatus::Paused => {},
            _ => {
                return Err(StoreError::Conflict);
            },
        }
        let ai = match self.find_active_session(subtask_id) {
            Some(a) => a,
            None => {
                proof {
                    assert(active_exists(self@.sessions, self@.subtasks[si as int].id));
                }
                vstd::pervasive::unreached()
            },
        };
        proof {
            lemma_active_index_of(self@.sessions, ai as int);
        }
        if elapsed < 0 || elapsed > MAX_ELAPSED_SECONDS {
            return Err(StoreError::Validation);
        }
        if elapsed < self.sessions[ai].duration_seconds {
            return Err(StoreError::Validation);
        }
        // find the category's ledger, if any, and check it has room
        let cat_ci: Option<usize> = match &self.subtasks[si].category_id {
            Some(cid) => {
                let ci = match self.find_category(cid.as_str()) {
                    Some(c) => c,
                    None => {
                        proof {
                            assert(category_exists(
                                self@.categories,
                                self@.subtasks[si as int].category_id->Some_0,
                            ));
                        }
                        vstd::pervasive::unreached()
                    },
                };
                proof {
                    lemma_category_index_of(self@.categories, ci as int);
                    assert(0 <= self@.ledgers[ci as int].total_xp <= MAX_TOTAL_XP);
                }
                if elapsed > MAX_TOTAL_XP - self.ledgers[ci].total_xp {
                    return Err(StoreError::Validation);
                }
                Some(ci)
            },
            None => None,
        };
        let ghost prior = self@;
        let sprev = &self.subtasks[si];
        let updated_s = Subtask {
            id: sprev.id.clone(),
            task_id: sprev.task_id.clone(),
            title: sprev.title.clone(),
            status: SubtaskStatus::Done,
            created_at: sprev.created_at.clone(),
            updated_at: now.clone(),
            completed_at: Some(now.clone()),
            total_time_seconds: sprev.total_time_seconds,
            category_id: clone_opt_text(&sprev.category_id),
        };
        let xprev = &self.sessions[ai];
        let updated_x = TimeSession {
            id: xprev.id.clone(),
            subtask_id: xprev.subtask_id.clone(),
            started_at: xprev.started_at.clone(),
            paused_at: clone_opt_text(&xprev.paused_at),
            resumed_at: clone_opt_text(&xprev.resumed_at),
            ended_at: Some(now.clone()),
            duration_seconds: elapsed,
        };
        let ghost s2 = updated_s@;
        let ghost x2 = updated_x@;
        self.subtasks[si] = updated_s;
        self.sessions[ai] = updated_x;
        proof {
            assert(self@.subtasks =~= prior.subtasks.update(si as int, s2));
            assert(self@.sessions =~= prior.sessions.update(ai as int, x2));
            assert(self@ =~= (StoreV {
                subtasks: prior.subtasks.update(si as int, s2),
                sessions: prior.sessions.update(ai as int, x2),
                ..prior
            }));
            lemma_wf_update_pair(prior, si as int, ai as int, s2, x2, self@);
        }
        // pay the category's ledger
        let category = match cat_ci {
            Some(ci) => {
                let ghost mid = self@;
                let lprev = &self.ledgers[ci];
                let new_xp = lprev.total_xp + elapsed;
                let new_level = calculate_level(new_xp);
                let updated_l = CategoryExperience {
                    id: lprev.id.clone(),
                    category_id: lprev.category_id.clone(),
                    total_xp: new_xp,
                    level: new_level,
                    updated_at: now,
                };
                let ghost l2 = updated_l@;
                self.ledgers[ci] = updated_l;
                proof {
                    crate::level::lemma_level_bounded(new_xp as int, new_level as int);
                    assert(self@.ledgers =~= mid.ledgers.update(ci as int, l2));
                    assert(self@ =~= (StoreV {
                        ledgers: mid.ledgers.update(ci as int, l2),
                        ..mid
                    }));
                }
                Some(clone_category(&self.categories[ci]))
            },
            None => None,
        };
        let total = self.total_time_for(subtask_id);
        let mut sub_out = clone_subtask(&self.subtasks[si]);
        sub_out.total_time_seconds = Some(total);
        let points = points_for_duration(elapsed);
        Ok(SubtaskCompletion {
            subtask: sub_out,
            points_earned: points,
            time_spent_seconds: elapsed,
            xp_gained: elapsed,
            category,
        })
    }

    /// Completes work on a subtask, stamped with the current time: points
    /// from the elapsed seconds, one experience point per second to the
    /// subtask's category, and the subtask done for good.
    pub fn complete_subtask(&mut self, subtask_id: &str, elapsed: i64) -> (r: Result<
        SubtaskCompletion,
        StoreError,
    >)
        requires
            old(self).wf(),
        ensures
            final(self).wf(),
            r is Ok <==> complete_ok(old(self)@, subtask_id@, elapsed),
            r matches Err(e) ==> final(self)@ == old(self)@ && e == complete_err(
                old(self)@,
                subtask_id@,
                elapsed,
            ),
            r matches Ok(c) ==> {
                let si = subtask_index_of(old(self)@.subtasks, subtask_id@);
                let ai = active_index_of(old(self)@.sessions, subtask_id@);
                let stamp = c.subtask@.updated_at;
                let s2 = (SubtaskV {
                    status: SubtaskStatus::Done,
                    updated_at: stamp,
                    completed_at: Some(stamp),
                    ..old(self)@.subtasks[si]
                });
                let x2 = (SessionV {
                    ended_at: Some(stamp),
                    duration_seconds: elapsed,
                    ..old(self)@.sessions[ai]
                });
                &&& c.points_earned == spec_points(elapsed as int)
                &&& c.time_spent_seconds == elapsed
                &&& c.xp_gained == elapsed
                &&& c.subtask@ == (SubtaskV {
                    total_time_seconds: Some(
                        crate::metrics::spec_session_time(
                            final(self)@.sessions,
                            subtask_id@,
                        ) as i64,
                    ),
                    ..s2
                })
                &&& (old(self)@.subtasks[si].category_id is None ==> c.category is None
                    && final(self)@ == (StoreV {
                    subtasks: old(self)@.subtasks.update(si, s2),
                    sessions: old(self)@.sessions.update(ai, x2),
                    ..old(self)@
                }))
                &&& (old(self)@.subtasks[si].category_id is Some ==> {
                    let cid = old(self)@.subtasks[si].category_id->Some_0;
                    let ci = category_index_of(old(self)@.categories, cid);
                    &&& c.category is Some
                    &&& c.category->Some_0@ == old(self)@.categories[ci]
                    &&& final(self)@.ledgers[ci].total_xp == old(self)@.ledgers[ci].total_xp
                        + elapsed
                    &&& spec_is_level_of(
                        final(self)@.ledgers[ci].total_xp as int,
                        final(self)@.ledgers[ci].level as int,
                    )
                    &&& final(self)@ == (StoreV {
                        subtasks: old(self)@.subtasks.update(si, s2),
                        sessions: old(self)@.sessions.update(ai, x2),
                        ledgers: old(self)@.ledgers.update(
                            ci,
                            (LedgerV {
                                total_xp: (old(self)@.ledgers[ci].total_xp + elapsed) as i64,
                                level: final(self)@.ledgers[ci].level,
                                updated_at: stamp,
                                ..old(self)@.ledgers[ci]
                            }),
                        ),
                        ..old(self)@
                    })
                })
            },
    {
        let now = now_rfc3339();
        self.complete_subtask_at(subtask_id, elapsed, now)
    }

    /// Starts work on a to-do subtask, stamped with the current time and a
    /// fresh session identifier.
    pub fn start_subtask(&mut self, subtask_id: &str) -> (r: Result<TimeSession, StoreError>)
        requires
            old(self).wf(),
        ensures
            final(self).wf(),
            !subtask_exists(old(self)@.subtasks, subtask_id@) ==> r == Err::<
                TimeSession,
                StoreError,
            >(StoreError::NotFound),
            subtask_exists(old(self)@.subtasks, subtask_id@) && !spec_may_start(
                old(self)@,
                subtask_id@,
            ) ==> r == Err::<TimeSession, StoreError>(StoreError::Conflict),
            r matches Err(_) ==> final(self)@ == old(self)@,
            r is Ok ==> spec_may_start(old(self)@, subtask_id@),
            spec_may_start(old(self)@, subtask_id@) ==> (r matches Err(e) ==> e is Conflict || e
                is StoreUnavailable),
            r matches Ok(x) ==> {
                let si = subtask_index_of(old(self)@.subtasks, subtask_id@);
                &&& x@.subtask_id == subtask_id@
                &&& x@.paused_at is None
                &&& x@.resumed_at is None
                &&& x@.ended_at is None
                &&& x@.duration_seconds == 0
                &&& final(self)@ == (StoreV {
                    subtasks: old(self)@.subtasks.update(
                        si,
                        (SubtaskV {
                            status: SubtaskStatus::InProgress,
                            updated_at: x@.started_at,
                            ..old(self)@.subtasks[si]
                        }),
                    ),
                    sessions: old(self)@.sessions.push(x@),
                    ..old(self)@
                })
            },
    {
        let session_id = new_id();
        let now = now_rfc3339();
        self.start_subtask_with(subtask_id, session_id, now)
    }
}

} // verus!
