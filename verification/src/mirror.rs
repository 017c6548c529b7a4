//! The optional remote graph mirror, modeled at its interface.
//!
//! The local cache is authoritative; the graph store holds an additive,
//! eventually consistent copy with relationship edges. Its connection is
//! lazily established and may never succeed; mirror failure is never
//! surfaced to the ingestion path, which does not depend on mirror state
//! in any contract of this crate. The embedding application performs the
//! network work and reports outcomes here; the network client itself is
//! deliberately not part of this crate — the pipeline is complete and
//! correct without it, and a deployment that wants the mirror adds one
//! against these models.

use vstd::prelude::*;

use crate::model::{opt_str, opt_str_list};

verus! {

/// Connection settings of the graph store.
#[derive(Debug)]
pub struct GraphDbConfig {
    pub uri: String,
    pub user: String,
    pub password: String,
    pub database: String,
}

/// Mathematical content of a [`GraphDbConfig`].
pub struct GraphDbConfigView {
    pub uri: Seq<char>,
    pub user: Seq<char>,
    pub password: Seq<char>,
    pub database: Seq<char>,
}

impl View for GraphDbConfig {
    type V = GraphDbConfigView;

    open spec fn view(&self) -> GraphDbConfigView {
        GraphDbConfigView {
            uri: self.uri@,
            user: self.user@,
            password: self.password@,
            database: self.database@,
        }
    }
}

/// The built-in connection defaults; the embedding application may
/// override them from its environment.
pub open spec fn default_graph_config() -> GraphDbConfigView {
    GraphDbConfigView {
        uri: "bolt://localhost:7687"@,
        user: "ijoka"@,
        password: "ijoka"@,
        database: "memgraph"@,
    }
}

impl Default for GraphDbConfig {
    /// A local bolt endpoint and the store's own database name.
    fn default() -> (c: GraphDbConfig)
        ensures
            c@ == default_graph_config(),
    {
        GraphDbConfig {
            uri: String::from_str("bolt://localhost:7687"),
            user: String::from_str("ijoka"),
            password: String::from_str("ijoka"),
            database: String::from_str("memgraph"),
        }
    }
}

/// The mirror's connection state. It starts disconnected and changes only
/// when the embedding application reports the outcome of a connection
/// attempt; an unreachable store therefore leaves it disconnected for as
/// long as every attempt fails, while the ingestion path runs on contracts
/// that never mention this state.
#[derive(Debug, Clone, Copy)]
pub struct Mirror {
    connected: bool,
}

impl Mirror {
    /// Whether the last reported connection attempt succeeded.
    pub closed spec fn connected(&self) -> bool {
        self.connected
    }

    /// A mirror whose connection has not been established.
    pub fn new() -> (m: Mirror)
        ensures
            !m.connected(),
    {
        Mirror { connected: false }
    }

    /// Whether the mirror is connected.
    pub fn is_connected(&self) -> (r: bool)
        ensures
            r == self.connected(),
    {
        self.connected
    }

    /// Record the outcome of a connection attempt. A success connects the
    /// mirror; a failure changes nothing, so an established connection is
    /// kept and a mirror whose every attempt failed stays disconnected:
    /// connected means some attempt so far succeeded. A failure is never an
    /// error of the caller's own path.
    pub fn apply_connect_outcome(&mut self, success: bool)
        ensures
            final(self).connected() == (old(self).connected() || success),
    {
        if success {
            self.connected = true;
        }
    }
}

/// A feature as mirrored in the graph store: the store keys work state in
/// a `status` string, from which the pass and progress flags are derived.
#[derive(Debug)]
pub struct Feature {
    pub id: Option<String>,
    pub description: String,
    pub category: String,
    pub status: String,
    pub passes: bool,
    pub in_progress: bool,
    pub priority: Option<i32>,
    pub steps: Option<Vec<String>>,
    pub created_at: Option<String>,
    pub updated_at: Option<String>,
    pub completed_at: Option<String>,
    pub work_count: Option<i32>,
    pub assigned_agent: Option<String>,
    pub project_dir: Option<String>,
}

impl Feature {
    /// Derive a mirrored feature from its stored fields: it passes exactly
    /// when its status is `"complete"`, and is in progress exactly when
    /// its status is `"in_progress"`.
    pub fn from_status(
        id: Option<String>,
        description: String,
        category: String,
        status: String,
        priority: Option<i32>,
        steps: Option<Vec<String>>,
        assigned_agent: Option<String>,
    ) -> (f: Feature)
        ensures
            f.passes == (status@ == "complete"@),
            f.in_progress == (status@ == "in_progress"@),
            f.status@ == status@,
            f.description@ == description@,
            f.category@ == category@,
            opt_str(f.id) == opt_str(id),
            opt_str(f.assigned_agent) == opt_str(assigned_agent),
            f.priority == priority,
            opt_str_list(f.steps) == opt_str_list(steps),
            f.created_at is None && f.updated_at is None && f.completed_at is None,
            f.work_count is None && f.project_dir is None,
    {
        let passes: bool = crate::text::str_eq(status.as_str(), "complete");
        let in_progress: bool = crate::text::str_eq(status.as_str(), "in_progress");
        Feature {
            id,
            description,
            category,
            status,
            passes,
            in_progress,
            priority,
            steps,
            created_at: None,
            updated_at: None,
            completed_at: None,
            work_count: None,
            assigned_agent,
            project_dir: None,
        }
    }
}

/// A session as mirrored in the graph store.
#[derive(Debug)]
pub struct Session {
    pub id: String,
    pub agent: String,
    pub status: String,
    pub started_at: Option<String>,
    pub ended_at: Option<String>,
    pub last_activity: Option<String>,
    pub event_count: Option<i32>,
    pub is_subagent: Option<bool>,
}

/// Aggregate counts of one mirrored project.
#[derive(Debug, Default, PartialEq, Eq, Structural, Clone, Copy)]
pub struct ProjectStats {
    pub total: i32,
    pub completed: i32,
    pub in_progress: i32,
    pub percentage: i32,
    pub active_sessions: i32,
}

impl ProjectStats {
    /// Assemble project statistics from the store's counts. `percentage`
    /// is the completed share in whole percent, rounded down, 0 of an
    /// empty project.
    pub fn from_counts(total: i64, completed: i64, in_progress: i64, active_sessions: i64) -> (s:
        ProjectStats)
        requires
            0 <= completed <= total <= i32::MAX,
            0 <= in_progress <= i32::MAX,
            0 <= active_sessions <= i32::MAX,
        ensures
            s.total == total,
            s.completed == completed,
            s.in_progress == in_progress,
            s.active_sessions == active_sessions,
            s.percentage as int == if total > 0 {
                100 * (completed as int) / (total as int)
            } else {
                0
            },
    {
        let percentage: i64 = if total > 0 {
            proof {
                let c = completed as int;
                let t = total as int;
                assert((100 * c) / t <= 100) by (nonlinear_arith)
                    requires
                        0 < t,
                        0 <= c <= t,
                ;
                assert((100 * c) / t >= 0) by (nonlinear_arith)
                    requires
                        0 < t,
                        0 <= c,
                ;
            }
            (100i64 * completed) / total
        } else {
            0
        };
        ProjectStats {
            total: total as i32,
            completed: completed as i32,
            in_progress: in_progress as i32,
            percentage: percentage as i32,
            active_sessions: active_sessions as i32,
        }
    }
}

} // verus!
