//! Domain records: events, features, sessions, configuration, statistics.

use vstd::prelude::*;

verus! {

/// View of an optional string.
pub open spec fn opt_str(o: Option<String>) -> Option<Seq<char>> {
    match o {
        Some(s) => Some(s@),
        None => None,
    }
}

/// Copy an optional string.
pub fn dup_opt_str(o: &Option<String>) -> (r: Option<String>)
    ensures
        opt_str(r) == opt_str(*o),
{
    match o {
        Some(s) => Some(s.clone()),
        None => None,
    }
}

/// One ingested activity event. `id` is assigned by the cache on insert;
/// records are append-only and never mutated after creation.
#[derive(Debug)]
pub struct AgentEvent {
    pub id: Option<i64>,
    pub event_type: String,
    pub source_agent: String,
    pub session_id: String,
    pub project_dir: String,
    pub tool_name: Option<String>,
    pub payload: Option<String>,
    pub feature_id: Option<String>,
    pub created_at: String,
}

/// Mathematical content of an [`AgentEvent`].
pub struct AgentEventView {
    pub id: Option<i64>,
    pub event_type: Seq<char>,
    pub source_agent: Seq<char>,
    pub session_id: Seq<char>,
    pub project_dir: Seq<char>,
    pub tool_name: Option<Seq<char>>,
    pub payload: Option<Seq<char>>,
    pub feature_id: Option<Seq<char>>,
    pub created_at: Seq<char>,
}

impl View for AgentEvent {
    type V = AgentEventView;

    open spec fn view(&self) -> AgentEventView {
        AgentEventView {
            id: self.id,
            event_type: self.event_type@,
            source_agent: self.source_agent@,
            session_id: self.session_id@,
            project_dir: self.project_dir@,
            tool_name: opt_str(self.tool_name),
            payload: opt_str(self.payload),
            feature_id: opt_str(self.feature_id),
            created_at: self.created_at@,
        }
    }
}

impl AgentEvent {
    /// Field-for-field copy.
    pub fn duplicate(&self) -> (r: AgentEvent)
        ensures
            r@ == self@,
    {
        AgentEvent {
            id: self.id,
            event_type: self.event_type.clone(),
            source_agent: self.source_agent.clone(),
            session_id: self.session_id.clone(),
            project_dir: self.project_dir.clone(),
            tool_name: dup_opt_str(&self.tool_name),
            payload: dup_opt_str(&self.payload),
            feature_id: dup_opt_str(&self.feature_id),
            created_at: self.created_at.clone(),
        }
    }
}

/// One trackable unit of project work, sourced from a project's feature list.
/// Its identity is positional: `"{projectDir}:{index}"`.
#[derive(Debug)]
pub struct Feature {
    pub id: String,
    pub project_dir: String,
    pub description: String,
    pub category: String,
    pub passes: bool,
    pub in_progress: bool,
    pub agent: Option<String>,
    pub steps: Option<Vec<String>>,
    pub updated_at: String,
}

/// View of an optional string list.
pub open spec fn opt_str_list(o: Option<Vec<String>>) -> Option<Seq<Seq<char>>> {
    match o {
        Some(v) => Some(v@.map_values(|s: String| s@)),
        None => None,
    }
}

/// Mathematical content of a [`Feature`].
pub struct FeatureView {
    pub id: Seq<char>,
    pub project_dir: Seq<char>,
    pub description: Seq<char>,
    pub category: Seq<char>,
    pub passes: bool,
    pub in_progress: bool,
    pub agent: Option<Seq<char>>,
    pub steps: Option<Seq<Seq<char>>>,
    pub updated_at: Seq<char>,
}

impl View for Feature {
    type V = FeatureView;

    open spec fn view(&self) -> FeatureView {
        FeatureView {
            id: self.id@,
            project_dir: self.project_dir@,
            description: self.description@,
            category: self.category@,
            passes: self.passes,
            in_progress: self.in_progress,
            agent: opt_str(self.agent),
            steps: opt_str_list(self.steps),
            updated_at: self.updated_at@,
        }
    }
}

/// Copy a string list.
pub fn dup_str_list(v: &Vec<String>) -> (r: Vec<String>)
    ensures
        r@.map_values(|s: String| s@) == v@.map_values(|s: String| s@),
{
    let mut r: Vec<String> = Vec::new();
    let mut i: usize = 0;
    while i < v.len()
        invariant
            i <= v@.len(),
            r@.len() == i,
            forall|j: int| 0 <= j < i ==> r@[j]@ == v@[j]@,
        decreases v@.len() - i,
    {
        r.push(v[i].clone());
        i += 1;
    }
    proof {
        assert(r@.map_values(|s: String| s@) =~= v@.map_values(|s: String| s@));
    }
    r
}

impl Feature {
    /// Field-for-field copy.
    pub fn duplicate(&self) -> (r: Feature)
        ensures
            r@ == self@,
    {
        Feature {
            id: self.id.clone(),
            project_dir: self.project_dir.clone(),
            description: self.description.clone(),
            category: self.category.clone(),
            passes: self.passes,
            in_progress: self.in_progress,
            agent: dup_opt_str(&self.agent),
            steps: match &self.steps {
                Some(v) => Some(dup_str_list(v)),
                None => None,
            },
            updated_at: self.updated_at.clone(),
        }
    }
}

/// One agent session. `status` is `"active"` until ended; re-starting an
/// ended session id resets it to `"active"`.
#[derive(Debug)]
pub struct Session {
    pub session_id: String,
    pub source_agent: String,
    pub project_dir: String,
    pub started_at: String,
    pub last_activity: String,
    pub status: String,
}

/// Mathematical content of a [`Session`].
pub struct SessionView {
    pub session_id: Seq<char>,
    pub source_agent: Seq<char>,
    pub project_dir: Seq<char>,
    pub started_at: Seq<char>,
    pub last_activity: Seq<char>,
    pub status: Seq<char>,
}

impl View for Session {
    type V = SessionView;

    open spec fn view(&self) -> SessionView {
        SessionView {
            session_id: self.session_id@,
            source_agent: self.source_agent@,
            project_dir: self.project_dir@,
            started_at: self.started_at@,
            last_activity: self.last_activity@,
            status: self.status@,
        }
    }
}

impl Session {
    /// Field-for-field copy.
    pub fn duplicate(&self) -> (r: Session)
        ensures
            r@ == self@,
    {
        Session {
            session_id: self.session_id.clone(),
            source_agent: self.source_agent.clone(),
            project_dir: self.project_dir.clone(),
            started_at: self.started_at.clone(),
            last_activity: self.last_activity.clone(),
            status: self.status.clone(),
        }
    }
}

/// Persisted configuration, a singleton record.
#[derive(Debug)]
pub struct Config {
    pub watched_projects: Vec<String>,
    pub sync_server_port: u16,
    pub notifications_enabled: bool,
    pub selected_project: Option<String>,
}

/// Mathematical content of a [`Config`].
pub struct ConfigView {
    pub watched_projects: Seq<Seq<char>>,
    pub sync_server_port: u16,
    pub notifications_enabled: bool,
    pub selected_project: Option<Seq<char>>,
}

impl View for Config {
    type V = ConfigView;

    open spec fn view(&self) -> ConfigView {
        ConfigView {
            watched_projects: self.watched_projects@.map_values(|s: String| s@),
            sync_server_port: self.sync_server_port,
            notifications_enabled: self.notifications_enabled,
            selected_project: opt_str(self.selected_project),
        }
    }
}

/// The configuration in force when none has been saved.
pub open spec fn default_config() -> ConfigView {
    ConfigView {
        watched_projects: Seq::empty(),
        sync_server_port: 4000,
        notifications_enabled: true,
        selected_project: None,
    }
}

impl Default for Config {
    /// No watched projects, port 4000, notifications on.
    fn default() -> (c: Config)
        ensures
            c@ == default_config(),
    {
        let c = Config {
            watched_projects: Vec::new(),
            sync_server_port: 4000,
            notifications_enabled: true,
            selected_project: None,
        };
        proof {
            assert(c@.watched_projects =~= default_config().watched_projects);
        }
        c
    }
}

impl Config {
    /// Field-for-field copy.
    pub fn duplicate(&self) -> (r: Config)
        ensures
            r@ == self@,
    {
        Config {
            watched_projects: dup_str_list(&self.watched_projects),
            sync_server_port: self.sync_server_port,
            notifications_enabled: self.notifications_enabled,
            selected_project: dup_opt_str(&self.selected_project),
        }
    }
}

/// Aggregate feature and session counts over the cache.
///
/// `percentage` is the completed share in whole percent, rounded down.
#[derive(Debug, PartialEq, Eq, Structural, Clone, Copy)]
pub struct Stats {
    pub total: u64,
    pub completed: u64,
    pub in_progress: u64,
    pub percentage: u64,
    pub active_sessions: u64,
}

/// A desktop notification to be delivered by the embedding application.
#[derive(Debug)]
pub struct Notification {
    pub title: String,
    pub body: String,
}

/// Mathematical content of a [`Notification`].
pub struct NotificationView {
    pub title: Seq<char>,
    pub body: Seq<char>,
}

impl View for Notification {
    type V = NotificationView;

    open spec fn view(&self) -> NotificationView {
        NotificationView { title: self.title@, body: self.body@ }
    }
}

} // verus!
