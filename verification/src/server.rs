//! Decision logic of the HTTP ingestion boundary.
//!
//! Each endpoint's handler is a function over the cache and the bus: the
//! embedding application deserializes the request into plain values, calls
//! the handler, and serializes the response. Every accepted write goes to
//! the cache first; only a write the cache accepted is published to the
//! bus, and a cache failure is answered with a structured failure.

use vstd::prelude::*;

use crate::bus::EventBus;
use crate::cache::{find_event, upsert_all, upsert_session_spec, with_feature, with_id, Database};
use crate::json::{ser, JsonValue, JsonView};
use crate::model::{opt_str, AgentEvent, AgentEventView, Feature, Notification, NotificationView,
    Session, SessionView};
use crate::reconcile::{feature_items, parse_feature_list, parsed_features, with_ids};

verus! {

broadcast use vstd::std_specs::vec::group_vec_axioms, vstd::seq::group_seq_axioms;

/// The liveness answer.
pub fn health() -> (r: &'static str)
    ensures
        r@ == "OK"@,
{
    "OK"
}

/// Every endpoint's answer: a success flag and an optional message.
#[derive(Debug)]
pub struct ApiResponse {
    pub ok: bool,
    pub error: Option<String>,
}

/// Mathematical content of an [`ApiResponse`].
pub struct ApiResponseView {
    pub ok: bool,
    pub error: Option<Seq<char>>,
}

impl View for ApiResponse {
    type V = ApiResponseView;

    open spec fn view(&self) -> ApiResponseView {
        ApiResponseView { ok: self.ok, error: opt_str(self.error) }
    }
}

/// An externally originated event, as posted to the ingestion endpoint.
#[derive(Debug)]
pub struct IncomingEvent {
    pub event_type: String,
    pub source_agent: String,
    pub session_id: String,
    pub project_dir: String,
    pub tool_name: Option<String>,
    pub payload: Option<String>,
    pub feature_id: Option<String>,
}

/// Mathematical content of an [`IncomingEvent`].
pub struct IncomingEventView {
    pub event_type: Seq<char>,
    pub source_agent: Seq<char>,
    pub session_id: Seq<char>,
    pub project_dir: Seq<char>,
    pub tool_name: Option<Seq<char>>,
    pub payload: Option<Seq<char>>,
    pub feature_id: Option<Seq<char>>,
}

impl View for IncomingEvent {
    type V = IncomingEventView;

    open spec fn view(&self) -> IncomingEventView {
        IncomingEventView {
            event_type: self.event_type@,
            source_agent: self.source_agent@,
            session_id: self.session_id@,
            project_dir: self.project_dir@,
            tool_name: opt_str(self.tool_name),
            payload: opt_str(self.payload),
            feature_id: opt_str(self.feature_id),
        }
    }
}

/// Every stored event must carry a non-empty session id and project
/// directory; a request that cannot supply them is rejected at the
/// boundary, before any write.
pub open spec fn identified(session_id: Seq<char>, project_dir: Seq<char>) -> bool {
    session_id.len() > 0 && project_dir.len() > 0
}

/// The stored form of a posted event: stamped, id left to the cache.
pub open spec fn event_of_incoming(inc: IncomingEventView, now: Seq<char>) -> AgentEventView {
    AgentEventView {
        id: None,
        event_type: inc.event_type,
        source_agent: inc.source_agent,
        session_id: inc.session_id,
        project_dir: inc.project_dir,
        tool_name: inc.tool_name,
        payload: inc.payload,
        feature_id: inc.feature_id,
        created_at: now,
    }
}

/// Accept one externally originated event: store it, then publish it.
/// A request without a session id or project directory is rejected before
/// any write; a cache failure is answered with a structured failure and
/// nothing is published; otherwise the caller gets `ok` and every
/// subscribed consumer sees the event.
pub fn receive_event(db: &mut Database, bus: &mut EventBus, incoming: IncomingEvent, now: &str) -> (
    r: ApiResponse)
    requires
        old(db).wf(),
        old(bus).wf(),
    ensures
        final(db).wf(),
        final(bus).wf(),
        final(bus).capacity() == old(bus).capacity(),
        final(db).features() == old(db).features(),
        final(db).sessions() == old(db).sessions(),
        final(db).config_saved() == old(db).config_saved(),
        if !identified(incoming@.session_id, incoming@.project_dir) {
            &&& final(db).events() == old(db).events()
            &&& final(db).next_id() == old(db).next_id()
            &&& final(bus).total() == old(bus).total()
            &&& !r@.ok
            &&& r@.error == Some("sessionId and projectDir must be non-empty"@)
        } else if old(db).next_id() < i64::MAX {
            &&& final(db).events() == old(db).events().push(
                with_id(event_of_incoming(incoming@, now@), old(db).next_id()),
            )
            &&& final(db).next_id() == old(db).next_id() + 1
            &&& (old(bus).total() < u64::MAX ==> final(bus).total() == old(bus).total() + 1
                && final(bus).window() == crate::bus::window_after(
                old(bus).window(),
                old(bus).capacity() as int,
                seq![event_of_incoming(incoming@, now@)],
            ))
            &&& r@.ok
            &&& r@.error is None
        } else {
            &&& final(db).events() == old(db).events()
            &&& final(db).next_id() == old(db).next_id()
            &&& final(bus).total() == old(bus).total()
            &&& !r@.ok
            &&& r@.error == Some("Database error: event id space exhausted"@)
        },
{
    if incoming.session_id.as_str().unicode_len() == 0 || incoming.project_dir.as_str()
        .unicode_len() == 0 {
        return ApiResponse {
            ok: false,
            error: Some(String::from_str("sessionId and projectDir must be non-empty")),
        };
    }
    let event = AgentEvent {
        id: None,
        event_type: incoming.event_type,
        source_agent: incoming.source_agent,
        session_id: incoming.session_id,
        project_dir: incoming.project_dir,
        tool_name: incoming.tool_name,
        payload: incoming.payload,
        feature_id: incoming.feature_id,
        created_at: now.to_owned(),
    };
    match db.insert_event(&event) {
        Ok(_) => {
            bus.publish(&event);
            proof {
                let single = seq![event_of_incoming(incoming@, now@)];
                assert(single.drop_last() =~= Seq::<AgentEventView>::empty());
                assert(crate::bus::window_after(
                    old(bus).window(),
                    old(bus).capacity() as int,
                    single.drop_last(),
                ) == old(bus).window());
            }
            ApiResponse { ok: true, error: None }
        },
        Err(e) => {
            proof {
                reveal_strlit("Database error: ");
                reveal_strlit("event id space exhausted");
                reveal_strlit("Database error: event id space exhausted");
            }
            let mut msg: String = String::from_str("Database error: ");
            let detail: String = e.message();
            msg.append(detail.as_str());
            proof {
                assert(msg@ =~= "Database error: event id space exhausted"@);
            }
            ApiResponse { ok: false, error: Some(msg) }
        },
    }
}

/// One changed feature of a feature-update request.
#[derive(Debug)]
pub struct ChangedFeature {
    pub description: String,
    pub category: String,
}

/// Mathematical content of a [`ChangedFeature`].
pub struct ChangedFeatureView {
    pub description: Seq<char>,
    pub category: Seq<char>,
}

impl View for ChangedFeature {
    type V = ChangedFeatureView;

    open spec fn view(&self) -> ChangedFeatureView {
        ChangedFeatureView { description: self.description@, category: self.category@ }
    }
}

/// The synthesized `FeatureCompleted` event for one changed feature of a
/// feature-update request.
pub open spec fn feature_update_event_view(
    project_dir: Seq<char>,
    cf: ChangedFeatureView,
    now: Seq<char>,
) -> AgentEventView {
    AgentEventView {
        id: None,
        event_type: "FeatureCompleted"@,
        source_agent: "hook"@,
        session_id: "feature-update"@,
        project_dir: project_dir,
        tool_name: Some(cf.description),
        payload: Some(ser(JsonView::Obj(seq![("category"@, JsonView::Str(cf.category))]))),
        feature_id: None,
        created_at: now,
    }
}

/// The events of one feature-update request, in request order.
pub open spec fn feature_update_events(
    project_dir: Seq<char>,
    cfs: Seq<ChangedFeatureView>,
    now: Seq<char>,
) -> Seq<AgentEventView> {
    Seq::new(cfs.len(), |i: int| feature_update_event_view(project_dir, cfs[i], now))
}

fn feature_update_event(project_dir: &str, cf: &ChangedFeature, now: &str) -> (ev: AgentEvent)
    ensures
        ev@ == feature_update_event_view(project_dir@, cf@, now@),
{
    let mut ms: Vec<crate::json::JsonMember> = Vec::new();
    proof {
        crate::json::lemma_obj_view(ms@);
    }
    ms.push(
        crate::json::JsonMember {
            key: String::from_str("category"),
            value: JsonValue::Str(cf.category.clone()),
        },
    );
    proof {
        crate::json::lemma_obj_view(ms@);
        assert(crate::json::obj_view(ms@) =~= seq![("category"@, JsonView::Str(cf@.category))]);
    }
    let payload_value = JsonValue::Obj(ms);
    let payload: String = payload_value.to_json_string();
    AgentEvent {
        id: None,
        event_type: String::from_str("FeatureCompleted"),
        source_agent: String::from_str("hook"),
        session_id: String::from_str("feature-update"),
        project_dir: project_dir.to_owned(),
        tool_name: Some(cf.description.clone()),
        payload: Some(payload),
        feature_id: None,
        created_at: now.to_owned(),
    }
}

/// Accept a feature-update request: one synthesized `FeatureCompleted`
/// event per changed feature, in request order, each stored first and
/// published and notified only once the cache accepted it. A request
/// without a project directory is rejected before any write; a cache
/// failure stops the pass at the failing feature and is answered as a
/// structured failure, with nothing published for it; the client-facing
/// progress summary is the embedding application's to forward.
#[verifier::loop_isolation(false)]
pub fn receive_feature_update(
    db: &mut Database,
    bus: &mut EventBus,
    project_dir: &str,
    changed_features: &Vec<ChangedFeature>,
    now: &str,
) -> (r: (ApiResponse, Vec<Notification>))
    requires
        old(db).wf(),
        old(bus).wf(),
    ensures
        final(db).wf(),
        final(bus).wf(),
        final(bus).capacity() == old(bus).capacity(),
        final(db).features() == old(db).features(),
        final(db).sessions() == old(db).sessions(),
        final(db).config_saved() == old(db).config_saved(),
        project_dir@.len() == 0 ==> {
            &&& final(db).events() == old(db).events()
            &&& final(db).next_id() == old(db).next_id()
            &&& final(bus).total() == old(bus).total()
            &&& r.1@.len() == 0
            &&& !r.0@.ok
            &&& r.0@.error == Some("projectDir must be non-empty"@)
        },
        project_dir@.len() > 0 ==> ({
            let cfs = changed_features@.map_values(|cf: ChangedFeature| cf@);
            let evs = feature_update_events(project_dir@, cfs, now@);
            let m = if old(db).next_id() + cfs.len() <= i64::MAX {
                cfs.len() as int
            } else {
                i64::MAX - old(db).next_id()
            };
            &&& final(db).events() == old(db).events() + with_ids(
                evs.take(m),
                old(db).next_id() as int,
            )
            &&& final(db).next_id() == old(db).next_id() + m
            &&& r.1@.len() == m
            &&& (forall|i: int|
                0 <= i < m ==> (#[trigger] r.1@[i])@ == (NotificationView {
                    title: "Feature Completed"@,
                    body: cfs[i].description,
                }))
            &&& (r.0@.ok <==> m == cfs.len())
            &&& (r.0@.ok ==> r.0@.error is None)
            &&& (!r.0@.ok ==> r.0@.error == Some(
                "Database error: event id space exhausted"@,
            ))
            &&& (old(bus).total() + cfs.len() <= u64::MAX ==> final(bus).total() == old(
                bus,
            ).total() + m && final(bus).window() == crate::bus::window_after(
                old(bus).window(),
                old(bus).capacity() as int,
                evs.take(m),
            ))
        }),
{
    if project_dir.unicode_len() == 0 {
        return (
            ApiResponse {
                ok: false,
                error: Some(String::from_str("projectDir must be non-empty")),
            },
            Vec::new(),
        );
    }
    let ghost cfs = changed_features@.map_values(|cf: ChangedFeature| cf@);
    let ghost evs = feature_update_events(project_dir@, cfs, now@);
    let ghost n = cfs.len();
    let mut notifs: Vec<Notification> = Vec::new();
    let mut k: usize = 0;
    while k < changed_features.len()
        invariant
            old(db).wf(),
            db.wf(),
            bus.wf(),
            k <= changed_features@.len(),
            db.features() == old(db).features(),
            db.sessions() == old(db).sessions(),
            db.config_saved() == old(db).config_saved(),
            bus.capacity() == old(bus).capacity(),
            notifs@.len() == k,
            forall|i: int|
                0 <= i < k ==> (#[trigger] notifs@[i])@ == (NotificationView {
                    title: "Feature Completed"@,
                    body: cfs[i].description,
                }),
            db.events() == old(db).events() + with_ids(
                evs.take(k as int),
                old(db).next_id() as int,
            ),
            db.next_id() == old(db).next_id() + k,
            old(bus).total() + n <= u64::MAX ==> bus.total() == old(bus).total() + k
                && bus.window() == crate::bus::window_after(
                old(bus).window(),
                old(bus).capacity() as int,
                evs.take(k as int),
            ),
        decreases changed_features@.len() - k,
    {
        let ev: AgentEvent = feature_update_event(project_dir, &changed_features[k], now);
        match db.insert_event(&ev) {
            Ok(_) => {
                proof {
                    assert(db.events() =~= old(db).events() + with_ids(
                        evs.take(k + 1),
                        old(db).next_id() as int,
                    ));
                }
                bus.publish(&ev);
                proof {
                    assert(evs.take(k + 1).drop_last() =~= evs.take(k as int));
                    assert(evs.take(k + 1).last() == evs[k as int]);
                }
                notifs.push(
                    Notification {
                        title: String::from_str("Feature Completed"),
                        body: changed_features[k].description.clone(),
                    },
                );
                k += 1;
            },
            Err(e) => {
                proof {
                    reveal_strlit("Database error: ");
                    reveal_strlit("event id space exhausted");
                    reveal_strlit("Database error: event id space exhausted");
                    assert(old(db).next_id() + k == i64::MAX);
                }
                let mut msg: String = String::from_str("Database error: ");
                let detail: String = e.message();
                msg.append(detail.as_str());
                proof {
                    assert(msg@ =~= "Database error: event id space exhausted"@);
                }
                return (ApiResponse { ok: false, error: Some(msg) }, notifs);
            },
        }
    }
    proof {
        assert(evs.take(evs.len() as int) =~= evs);
    }
    (ApiResponse { ok: true, error: None }, notifs)
}

/// Parse a feature-list text and upsert its features for the project.
/// `true` exactly when the text parsed and the upsert ran; a text that is
/// not a JSON array changes nothing.
pub fn sync_features_from_file(
    db: &mut Database,
    project_dir: &str,
    content: &str,
    now: &str,
) -> (synced: bool)
    requires
        old(db).wf(),
    ensures
        final(db).wf(),
        final(db).events() == old(db).events(),
        final(db).sessions() == old(db).sessions(),
        final(db).config_saved() == old(db).config_saved(),
        final(db).next_id() == old(db).next_id(),
        match feature_items(content@) {
            Some(items) => synced && final(db).features() == upsert_all(
                old(db).features(),
                parsed_features(project_dir@, items, now@),
            ),
            None => !synced && final(db).features() == old(db).features(),
        },
{
    match parse_feature_list(project_dir, content, now) {
        Some(features) => {
            let sync_result = db.sync_features(features);
            proof {
                assert(sync_result is Ok);
            }
            true
        },
        None => false,
    }
}

/// A session-start request.
#[derive(Debug)]
pub struct SessionStartRequest {
    pub session_id: String,
    pub source_agent: String,
    pub project_dir: String,
}

/// Mathematical content of a [`SessionStartRequest`].
pub struct SessionStartRequestView {
    pub session_id: Seq<char>,
    pub source_agent: Seq<char>,
    pub project_dir: Seq<char>,
}

impl View for SessionStartRequest {
    type V = SessionStartRequestView;

    open spec fn view(&self) -> SessionStartRequestView {
        SessionStartRequestView {
            session_id: self.session_id@,
            source_agent: self.source_agent@,
            project_dir: self.project_dir@,
        }
    }
}

/// The session record a start request creates or resets: active, both
/// timestamps the request's arrival.
pub open spec fn session_record_view(req: SessionStartRequestView, now: Seq<char>) -> SessionView {
    SessionView {
        session_id: req.session_id,
        source_agent: req.source_agent,
        project_dir: req.project_dir,
        started_at: now,
        last_activity: now,
        status: "active"@,
    }
}

/// The `SessionStart` event of a start request.
pub open spec fn session_start_event_view(
    req: SessionStartRequestView,
    now: Seq<char>,
) -> AgentEventView {
    AgentEventView {
        id: None,
        event_type: "SessionStart"@,
        source_agent: req.source_agent,
        session_id: req.session_id,
        project_dir: req.project_dir,
        tool_name: None,
        payload: None,
        feature_id: None,
        created_at: now,
    }
}

/// Accept a session start: create or reset the session record, register
/// the project as watched when it was not, resync the project's features
/// from its feature list when the caller found one, and store and publish
/// one `SessionStart` event once the cache accepted it. A request without
/// a session id or project directory is rejected before any write, and a
/// cache failure on the event insert is surfaced as a structured failure
/// (the session record and registration stand by then).
pub fn session_start(
    db: &mut Database,
    bus: &mut EventBus,
    req: &SessionStartRequest,
    feature_list_content: Option<&str>,
    now: &str,
) -> (r: ApiResponse)
    requires
        old(db).wf(),
        old(bus).wf(),
    ensures
        final(db).wf(),
        final(bus).wf(),
        final(bus).capacity() == old(bus).capacity(),
        if !identified(req@.session_id, req@.project_dir) {
            &&& final(db).sessions() == old(db).sessions()
            &&& final(db).config_saved() == old(db).config_saved()
            &&& final(db).features() == old(db).features()
            &&& final(db).events() == old(db).events()
            &&& final(db).next_id() == old(db).next_id()
            &&& final(bus).total() == old(bus).total()
            &&& !r@.ok
            &&& r@.error == Some("sessionId and projectDir must be non-empty"@)
        } else {
            &&& final(db).sessions() == upsert_session_spec(
                old(db).sessions(),
                session_record_view(req@, now@),
            )
            &&& final(db).config_saved() == (if old(db).config_now().watched_projects.contains(
                req@.project_dir,
            ) {
                old(db).config_saved()
            } else {
                Some(
                    crate::model::ConfigView {
                        watched_projects: old(db).config_now().watched_projects.push(
                            req@.project_dir,
                        ),
                        ..old(db).config_now()
                    },
                )
            })
            &&& (match feature_list_content {
                Some(c) => match feature_items(c@) {
                    Some(items) => final(db).features() == upsert_all(
                        old(db).features(),
                        parsed_features(req@.project_dir, items, now@),
                    ),
                    None => final(db).features() == old(db).features(),
                },
                None => final(db).features() == old(db).features(),
            })
            &&& if old(db).next_id() < i64::MAX {
                &&& final(db).events() == old(db).events().push(
                    with_id(session_start_event_view(req@, now@), old(db).next_id()),
                )
                &&& final(db).next_id() == old(db).next_id() + 1
                &&& (old(bus).total() < u64::MAX ==> final(bus).total() == old(bus).total()
                    + 1 && final(bus).window() == crate::bus::window_after(
                    old(bus).window(),
                    old(bus).capacity() as int,
                    seq![session_start_event_view(req@, now@)],
                ))
                &&& r@.ok
                &&& r@.error is None
            } else {
                &&& final(db).events() == old(db).events()
                &&& final(db).next_id() == old(db).next_id()
                &&& final(bus).total() == old(bus).total()
                &&& !r@.ok
                &&& r@.error == Some("Database error: event id space exhausted"@)
            }
        },
{
    if req.session_id.as_str().unicode_len() == 0 || req.project_dir.as_str().unicode_len()
        == 0 {
        return ApiResponse {
            ok: false,
            error: Some(String::from_str("sessionId and projectDir must be non-empty")),
        };
    }
    let session = Session {
        session_id: req.session_id.clone(),
        source_agent: req.source_agent.clone(),
        project_dir: req.project_dir.clone(),
        started_at: now.to_owned(),
        last_activity: now.to_owned(),
        status: String::from_str("active"),
    };
    let upsert_result = db.upsert_session(&session);
    proof {
        assert(upsert_result is Ok);
    }
    let add_result = db.add_watched_project(req.project_dir.as_str());
    proof {
        assert(add_result is Ok);
    }
    if let Some(content) = feature_list_content {
        let _synced: bool = sync_features_from_file(db, req.project_dir.as_str(), content, now);
    }
    let event = AgentEvent {
        id: None,
        event_type: String::from_str("SessionStart"),
        source_agent: req.source_agent.clone(),
        session_id: req.session_id.clone(),
        project_dir: req.project_dir.clone(),
        tool_name: None,
        payload: None,
        feature_id: None,
        created_at: now.to_owned(),
    };
    match db.insert_event(&event) {
        Ok(_) => {
            bus.publish(&event);
            proof {
                let single = seq![session_start_event_view(req@, now@)];
                assert(single.drop_last() =~= Seq::<AgentEventView>::empty());
                assert(crate::bus::window_after(
                    old(bus).window(),
                    old(bus).capacity() as int,
                    single.drop_last(),
                ) == old(bus).window());
            }
            ApiResponse { ok: true, error: None }
        },
        Err(e) => {
            proof {
                reveal_strlit("Database error: ");
                reveal_strlit("event id space exhausted");
                reveal_strlit("Database error: event id space exhausted");
            }
            let mut msg: String = String::from_str("Database error: ");
            let detail: String = e.message();
            msg.append(detail.as_str());
            proof {
                assert(msg@ =~= "Database error: event id space exhausted"@);
            }
            ApiResponse { ok: false, error: Some(msg) }
        },
    }
}

/// The `SessionEnd` event. The request body carries only the session id;
/// the project directory is resolved from the session record so the event
/// keeps a non-empty project, with `"unknown"` standing in for a session
/// the cache has never seen.
pub open spec fn session_end_event_view(
    session_id: Seq<char>,
    project_dir: Seq<char>,
    now: Seq<char>,
) -> AgentEventView {
    AgentEventView {
        id: None,
        event_type: "SessionEnd"@,
        source_agent: "unknown"@,
        session_id: session_id,
        project_dir: project_dir,
        tool_name: None,
        payload: None,
        feature_id: None,
        created_at: now,
    }
}

/// The project a session-end event is attributed to: the session's own
/// project, or `"unknown"`.
pub open spec fn session_end_project(ss: Seq<SessionView>, session_id: Seq<char>) -> Seq<char> {
    match crate::cache::find_session(ss, session_id) {
        Some(i) => ss[i].project_dir,
        None => "unknown"@,
    }
}

/// Accept a session end: mark the session ended if it exists, and store
/// and publish one `SessionEnd` event either way, attributed to the
/// session's project (`"unknown"` for a session never seen). A request
/// without a session id is rejected before any write; the event is
/// published only once the cache accepted it; a cache failure is answered
/// as a structured failure after the status update.
pub fn session_end(db: &mut Database, bus: &mut EventBus, session_id: &str, now: &str) -> (r:
    ApiResponse)
    requires
        old(db).wf(),
        old(bus).wf(),
    ensures
        final(db).wf(),
        final(bus).wf(),
        final(bus).capacity() == old(bus).capacity(),
        final(db).features() == old(db).features(),
        final(db).config_saved() == old(db).config_saved(),
        session_id@.len() == 0 ==> {
            &&& final(db).sessions() == old(db).sessions()
            &&& final(db).events() == old(db).events()
            &&& final(db).next_id() == old(db).next_id()
            &&& final(bus).total() == old(bus).total()
            &&& !r@.ok
            &&& r@.error == Some("sessionId must be non-empty"@)
        },
        session_id@.len() > 0 ==> match crate::cache::find_session(
            old(db).sessions(),
            session_id@,
        ) {
            Some(i) => final(db).sessions() == old(db).sessions().update(
                i,
                SessionView { status: "ended"@, last_activity: now@, ..old(db).sessions()[i] },
            ),
            None => final(db).sessions() == old(db).sessions(),
        },
        session_id@.len() > 0 ==> ({
            let ev = session_end_event_view(
                session_id@,
                session_end_project(old(db).sessions(), session_id@),
                now@,
            );
            if old(db).next_id() < i64::MAX {
                &&& final(db).events() == old(db).events().push(
                    with_id(ev, old(db).next_id()),
                )
                &&& final(db).next_id() == old(db).next_id() + 1
                &&& (old(bus).total() < u64::MAX ==> final(bus).total() == old(bus).total()
                    + 1 && final(bus).window() == crate::bus::window_after(
                    old(bus).window(),
                    old(bus).capacity() as int,
                    seq![ev],
                ))
                &&& r@.ok
                &&& r@.error is None
            } else {
                &&& final(db).events() == old(db).events()
                &&& final(db).next_id() == old(db).next_id()
                &&& final(bus).total() == old(bus).total()
                &&& !r@.ok
                &&& r@.error == Some("Database error: event id space exhausted"@)
            }
        }),
{
    if session_id.unicode_len() == 0 {
        return ApiResponse {
            ok: false,
            error: Some(String::from_str("sessionId must be non-empty")),
        };
    }
    let project_dir: String = match db.session_project_dir(session_id) {
        Some(dir) => dir,
        None => String::from_str("unknown"),
    };
    let update_result = db.update_session_status(session_id, "ended", now);
    proof {
        assert(update_result is Ok);
    }
    let event = AgentEvent {
        id: None,
        event_type: String::from_str("SessionEnd"),
        source_agent: String::from_str("unknown"),
        session_id: session_id.to_owned(),
        project_dir,
        tool_name: None,
        payload: None,
        feature_id: None,
        created_at: now.to_owned(),
    };
    match db.insert_event(&event) {
        Ok(_) => {
            bus.publish(&event);
            proof {
                let ev = session_end_event_view(
                    session_id@,
                    session_end_project(old(db).sessions(), session_id@),
                    now@,
                );
                assert(seq![ev].drop_last() =~= Seq::<AgentEventView>::empty());
                assert(crate::bus::window_after(
                    old(bus).window(),
                    old(bus).capacity() as int,
                    seq![ev].drop_last(),
                ) == old(bus).window());
            }
            ApiResponse { ok: true, error: None }
        },
        Err(e) => {
            proof {
                reveal_strlit("Database error: ");
                reveal_strlit("event id space exhausted");
                reveal_strlit("Database error: event id space exhausted");
            }
            let mut msg: String = String::from_str("Database error: ");
            let detail: String = e.message();
            msg.append(detail.as_str());
            proof {
                assert(msg@ =~= "Database error: event id space exhausted"@);
            }
            ApiResponse { ok: false, error: Some(msg) }
        },
    }
}

/// Link a stored event to a feature. `ok` exactly when an event with the
/// given id exists; otherwise a structured not-found answer.
pub fn link_event(db: &mut Database, event_id: i64, feature_id: &str) -> (r: ApiResponse)
    requires
        old(db).wf(),
    ensures
        final(db).wf(),
        final(db).features() == old(db).features(),
        final(db).sessions() == old(db).sessions(),
        final(db).config_saved() == old(db).config_saved(),
        final(db).next_id() == old(db).next_id(),
        match find_event(old(db).events(), event_id) {
            Some(i) => final(db).events() == old(db).events().update(
                i,
                with_feature(old(db).events()[i], feature_id@),
            ) && r@.ok && r@.error is None,
            None => final(db).events() == old(db).events() && !r@.ok && r@.error == Some(
                "Event not found"@,
            ),
        },
{
    let link_result = db.link_event_to_feature(event_id, feature_id);
    match link_result {
        Ok(true) => ApiResponse { ok: true, error: None },
        Ok(false) => ApiResponse {
            ok: false,
            error: Some(String::from_str("Event not found")),
        },
        Err(_) => {
            proof {
                assert(false);
            }
            ApiResponse { ok: false, error: None }
        },
    }
}

/// Answer an events query: the most recent events, optionally only the
/// unlinked ones, optionally restricted to one project; the default limit
/// is 50.
pub fn get_events_query(
    db: &Database,
    limit: Option<i64>,
    unlinked: bool,
    project_dir: Option<&str>,
) -> (r: Vec<AgentEvent>)
    ensures
        ({
            let lim = (match limit {
                Some(l) => l,
                None => 50,
            });
            if unlinked {
                let picked = db.events().filter(
                    |e: AgentEventView| e.feature_id is None && (match project_dir {
                        Some(dir) => e.project_dir == dir@,
                        None => true,
                    }),
                );
                r@.map_values(|e: AgentEvent| e@) == crate::cache::latest_first(picked).take(
                    crate::cache::clip_limit(lim, picked.len()),
                )
            } else {
                r@.map_values(|e: AgentEvent| e@) == crate::cache::latest_first(
                    db.events(),
                ).take(crate::cache::clip_limit(lim, db.events().len()))
            }
        }),
{
    let lim: i64 = match limit {
        Some(l) => l,
        None => 50,
    };
    if unlinked {
        match db.get_unlinked_events(project_dir, lim) {
            Ok(es) => es,
            Err(_) => {
                proof {
                    assert(false);
                }
                Vec::new()
            },
        }
    } else {
        match db.get_events(lim) {
            Ok(es) => es,
            Err(_) => {
                proof {
                    assert(false);
                }
                Vec::new()
            },
        }
    }
}

} // verus!
