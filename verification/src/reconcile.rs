//! Feature-list reconciliation.
//!
//! A project's `feature_list.json` is an array of feature objects with
//! optional fields. Parsing gives each feature a positional identity
//! `"{projectDir}:{index}"`. Reconciliation diffs the parsed list against
//! the cache's feature set for the project, emits one `FeatureCompleted`
//! event for each feature that is now complete and whose description was
//! not previously marked complete, and then upserts the full list into the
//! cache unconditionally. An unreadable or unparsable list aborts the pass
//! and leaves the cache as it was.

use vstd::prelude::*;

use crate::bus::EventBus;
use crate::cache::{upsert_all, with_id, Database};
use crate::json::{arr_of, arr_view, field_bool_or, field_str, get_of, ser, str_of, JsonValue,
    JsonView};
use crate::json::{lemma_arr_view, parse_json, parsed_json};
use crate::model::{AgentEvent, AgentEventView, Feature, FeatureView, Notification,
    NotificationView};
use crate::text::{dec_str, str_eq, u64_to_dec};
use crate::transcript::str_or;

verus! {

broadcast use vstd::std_specs::vec::group_vec_axioms, vstd::seq::group_seq_axioms;

/// The deterministic positional feature id: `"{projectDir}:{index}"`.
pub open spec fn feature_id_seq(dir: Seq<char>, i: nat) -> Seq<char> {
    dir + seq![':'] + dec_str(i)
}

/// Render the positional feature id.
pub fn make_feature_id(dir: &str, index: usize) -> (r: String)
    ensures
        r@ == feature_id_seq(dir@, index as nat),
{
    proof {
        reveal_strlit(":");
    }
    let mut s: String = dir.to_owned();
    s.append(":");
    let digits: String = u64_to_dec(index as u64);
    s.append(digits.as_str());
    proof {
        assert(s@ =~= feature_id_seq(dir@, index as nat));
    }
    s
}

/// The string elements of an array, in order, other elements dropped.
pub open spec fn str_items(items: Seq<JsonView>) -> Seq<Seq<char>>
    decreases items.len(),
{
    if items.len() == 0 {
        Seq::empty()
    } else {
        str_items(items.drop_last()) + match str_of(items.last()) {
            Some(s) => seq![s],
            None => Seq::<Seq<char>>::empty(),
        }
    }
}

/// The feature's `steps` field: a list of its string elements, when the
/// field is an array.
pub open spec fn steps_of(f: JsonView) -> Option<Seq<Seq<char>>> {
    match get_of(f, "steps"@) {
        Some(v) => match arr_of(v) {
            Some(items) => Some(str_items(items)),
            None => None,
        },
        None => None,
    }
}

/// One parsed feature: documented defaults for absent fields, positional
/// identity, the given timestamp.
pub open spec fn parse_feature_view(
    dir: Seq<char>,
    i: nat,
    f: JsonView,
    now: Seq<char>,
) -> FeatureView {
    FeatureView {
        id: feature_id_seq(dir, i),
        project_dir: dir,
        description: str_or(field_str(f, "description"@), Seq::empty()),
        category: str_or(field_str(f, "category"@), "functional"@),
        passes: field_bool_or(f, "passes"@, false),
        in_progress: field_bool_or(f, "inProgress"@, false),
        agent: field_str(f, "agent"@),
        steps: steps_of(f),
        updated_at: now,
    }
}

/// The whole parsed list.
pub open spec fn parsed_features(dir: Seq<char>, items: Seq<JsonView>, now: Seq<char>) -> Seq<
    FeatureView,
> {
    Seq::new(items.len(), |i: int| parse_feature_view(dir, i as nat, items[i], now))
}

/// The feature array a text parses to, when it parses and is an array.
pub open spec fn feature_items(content: Seq<char>) -> Option<Seq<JsonView>> {
    match parsed_json(content) {
        Some(doc) => arr_of(doc),
        None => None,
    }
}

/// Parse one feature object.
fn parse_feature(dir: &str, index: usize, f: &JsonValue, now: &str) -> (r: Feature)
    ensures
        r@ == parse_feature_view(dir@, index as nat, f@, now@),
{
    proof {
        reveal_strlit("");
        assert(""@ =~= Seq::<char>::empty());
    }
    let description: String = match f.get("description") {
        Some(d) => match d.as_str() {
            Some(s) => s.to_owned(),
            None => String::from_str(""),
        },
        None => String::from_str(""),
    };
    let category: String = match f.get("category") {
        Some(c) => match c.as_str() {
            Some(s) => s.to_owned(),
            None => String::from_str("functional"),
        },
        None => String::from_str("functional"),
    };
    let passes: bool = match f.get("passes") {
        Some(p) => match p.as_bool() {
            Some(b) => b,
            None => false,
        },
        None => false,
    };
    let in_progress: bool = match f.get("inProgress") {
        Some(p) => match p.as_bool() {
            Some(b) => b,
            None => false,
        },
        None => false,
    };
    let agent: Option<String> = match f.get("agent") {
        Some(a) => match a.as_str() {
            Some(s) => Some(s.to_owned()),
            None => None,
        },
        None => None,
    };
    let steps: Option<Vec<String>> = match f.get("steps") {
        Some(v) => match v.as_arr() {
            Some(items) => Some(collect_strings(items)),
            None => None,
        },
        None => None,
    };
    let feature = Feature {
        id: make_feature_id(dir, index),
        project_dir: dir.to_owned(),
        description,
        category,
        passes,
        in_progress,
        agent,
        steps,
        updated_at: now.to_owned(),
    };
    proof {
        assert(feature@.steps == steps_of(f@));
    }
    feature
}

/// Collect the string elements of a JSON array.
#[verifier::loop_isolation(false)]
fn collect_strings(items: &Vec<JsonValue>) -> (r: Vec<String>)
    ensures
        r@.map_values(|s: String| s@) == str_items(arr_view(items@)),
{
    let ghost vs = arr_view(items@);
    proof {
        lemma_arr_view(items@);
    }
    let mut r: Vec<String> = Vec::new();
    let mut i: usize = 0;
    while i < items.len()
        invariant
            i <= items@.len(),
            r@.map_values(|s: String| s@) == str_items(vs.take(i as int)),
        decreases items@.len() - i,
    {
        proof {
            assert(vs.take(i + 1).drop_last() =~= vs.take(i as int));
            assert(vs.take(i + 1).last() == vs[i as int]);
        }
        match items[i].as_str() {
            Some(s) => {
                r.push(s.to_owned());
                proof {
                    assert(r@.map_values(|s: String| s@) =~= str_items(vs.take(i + 1)));
                }
            },
            None => {
                proof {
                    assert(r@.map_values(|s: String| s@) =~= str_items(vs.take(i + 1)));
                }
            },
        }
        i += 1;
    }
    proof {
        assert(vs.take(items@.len() as int) =~= vs);
    }
    r
}

/// Parse a feature-list text: `None` exactly when the text is not a JSON
/// array.
#[verifier::loop_isolation(false)]
pub fn parse_feature_list(dir: &str, content: &str, now: &str) -> (r: Option<Vec<Feature>>)
    ensures
        match r {
            Some(fs) => match feature_items(content@) {
                Some(items) => fs@.map_values(|f: Feature| f@) == parsed_features(
                    dir@,
                    items,
                    now@,
                ),
                None => false,
            },
            None => feature_items(content@) is None,
        },
{
    let doc: JsonValue = match parse_json(content) {
        Some(d) => d,
        None => {
            return None;
        },
    };
    let items: &Vec<JsonValue> = match doc.as_arr() {
        Some(a) => a,
        None => {
            return None;
        },
    };
    let ghost vs = arr_view(items@);
    proof {
        lemma_arr_view(items@);
    }
    let mut r: Vec<Feature> = Vec::new();
    let mut i: usize = 0;
    while i < items.len()
        invariant
            i <= items@.len(),
            r@.len() == i,
            forall|j: int|
                0 <= j < i ==> r@[j]@ == parse_feature_view(dir@, j as nat, vs[j], now@),
        decreases items@.len() - i,
    {
        let f: Feature = parse_feature(dir, i, &items[i], now);
        r.push(f);
        i += 1;
    }
    proof {
        assert(r@.map_values(|f: Feature| f@) =~= parsed_features(dir@, vs, now@));
    }
    Some(r)
}

/// The descriptions of the features marked complete.
pub open spec fn completed_descriptions(fs: Seq<FeatureView>) -> Set<Seq<char>> {
    Set::new(
        |d: Seq<char>|
            exists|i: int| 0 <= i < fs.len() && (#[trigger] fs[i]).passes && fs[i].description
                == d,
    )
}

/// A feature that is complete now and whose description was not complete
/// before. Deduplication is keyed by the description string.
pub open spec fn is_new_completion(f: FeatureView, old_completed: Set<Seq<char>>) -> bool {
    f.passes && !old_completed.contains(f.description)
}

/// The features of the list that newly completed, in order.
pub open spec fn new_completions(fs: Seq<FeatureView>, old_completed: Set<Seq<char>>) -> Seq<
    FeatureView,
> {
    fs.filter(|f: FeatureView| is_new_completion(f, old_completed))
}

/// The `FeatureCompleted` event for one feature: source agent is the
/// feature's agent or `"unknown"`, the session is the file watcher's, the
/// payload carries the category, and the feature link is the positional id.
pub open spec fn completion_event_view(f: FeatureView, now: Seq<char>) -> AgentEventView {
    AgentEventView {
        id: None,
        event_type: "FeatureCompleted"@,
        source_agent: match f.agent {
            Some(a) => a,
            None => "unknown"@,
        },
        session_id: "file-watch"@,
        project_dir: f.project_dir,
        tool_name: Some(f.description),
        payload: Some(
            ser(JsonView::Obj(seq![("category"@, JsonView::Str(f.category))])),
        ),
        feature_id: Some(f.id),
        created_at: now,
    }
}

/// The events of a reconciliation pass.
pub open spec fn completion_events(
    fs: Seq<FeatureView>,
    old_completed: Set<Seq<char>>,
    now: Seq<char>,
) -> Seq<AgentEventView> {
    new_completions(fs, old_completed).map_values(|f: FeatureView| completion_event_view(f, now))
}

/// The desktop notifications of a reconciliation pass.
pub open spec fn completion_notifications(
    fs: Seq<FeatureView>,
    old_completed: Set<Seq<char>>,
) -> Seq<NotificationView> {
    new_completions(fs, old_completed).map_values(
        |f: FeatureView| NotificationView { title: "Feature Completed"@, body: f.description },
    )
}

/// Events with cache-assigned ascending ids, starting at `first`.
pub open spec fn with_ids(evs: Seq<AgentEventView>, first: int) -> Seq<AgentEventView> {
    Seq::new(evs.len(), |i: int| with_id(evs[i], (first + i) as i64))
}

/// What one reconciliation pass did.
pub struct ReconcileOutcome {
    /// The list parsed; detection and the upsert ran.
    pub ok: bool,
    /// The completion events actually stored and published, in list order.
    /// A cache failure stops emission at the failing event; the upsert of
    /// the full feature set still runs.
    pub events: Vec<AgentEvent>,
    /// One notification per emitted event.
    pub notifications: Vec<Notification>,
}

/// Was this description among the completed ones?
fn desc_was_completed(old_fs: &Vec<Feature>, desc: &str) -> (r: bool)
    ensures
        r == completed_descriptions(old_fs@.map_values(|f: Feature| f@)).contains(desc@),
{
    let ghost fsv = old_fs@.map_values(|f: Feature| f@);
    let mut i: usize = 0;
    while i < old_fs.len()
        invariant
            fsv == old_fs@.map_values(|f: Feature| f@),
            i <= old_fs@.len(),
            forall|j: int| 0 <= j < i ==> !((#[trigger] fsv[j]).passes && fsv[j].description
                == desc@),
        decreases old_fs@.len() - i,
    {
        let hit: bool = if old_fs[i].passes {
            str_eq(old_fs[i].description.as_str(), desc)
        } else {
            false
        };
        if hit {
            proof {
                assert(fsv[i as int].passes && fsv[i as int].description == desc@);
                assert(completed_descriptions(fsv).contains(desc@));
            }
            return true;
        }
        i += 1;
    }
    proof {
        assert(!completed_descriptions(fsv).contains(desc@));
    }
    false
}

/// The `FeatureCompleted` event for one feature.
pub fn completion_event(f: &Feature, now: &str) -> (ev: AgentEvent)
    ensures
        ev@ == completion_event_view(f@, now@),
{
    let source_agent: String = match &f.agent {
        Some(a) => a.clone(),
        None => String::from_str("unknown"),
    };
    let mut ms: Vec<crate::json::JsonMember> = Vec::new();
    proof {
        crate::json::lemma_obj_view(ms@);
    }
    ms.push(
        crate::json::JsonMember {
            key: String::from_str("category"),
            value: JsonValue::Str(f.category.clone()),
        },
    );
    proof {
        crate::json::lemma_obj_view(ms@);
        assert(crate::json::obj_view(ms@) =~= seq![("category"@, JsonView::Str(f@.category))]);
    }
    let payload_value = JsonValue::Obj(ms);
    let payload: String = payload_value.to_json_string();
    AgentEvent {
        id: None,
        event_type: String::from_str("FeatureCompleted"),
        source_agent,
        session_id: String::from_str("file-watch"),
        project_dir: f.project_dir.clone(),
        tool_name: Some(f.description.clone()),
        payload: Some(payload),
        feature_id: Some(f.id.clone()),
        created_at: now.to_owned(),
    }
}

/// One reconciliation pass: parse the list, emit one `FeatureCompleted`
/// event for each newly completed feature — stored first, published to
/// every subscribed consumer and notified only once the cache accepted it
/// — then upsert the full feature set into the cache unconditionally. A
/// text that is not a JSON array aborts the pass and changes nothing; a
/// cache failure mid-pass stops emission at the failing event, and the
/// upsert still runs.
#[verifier::loop_isolation(false)]
#[verifier::rlimit(60)]
pub fn handle_feature_list_change(
    db: &mut Database,
    bus: &mut EventBus,
    project_dir: &str,
    content: &str,
    now: &str,
) -> (outcome: ReconcileOutcome)
    requires
        old(db).wf(),
        old(bus).wf(),
    ensures
        final(db).wf(),
        final(bus).wf(),
        final(bus).capacity() == old(bus).capacity(),
        final(db).sessions() == old(db).sessions(),
        final(db).config_saved() == old(db).config_saved(),
        match feature_items(content@) {
            None => {
                &&& !outcome.ok
                &&& outcome.events@.len() == 0
                &&& outcome.notifications@.len() == 0
                &&& final(db).events() == old(db).events()
                &&& final(db).features() == old(db).features()
                &&& final(db).next_id() == old(db).next_id()
                &&& final(bus).total() == old(bus).total()
            },
            Some(items) => ({
                let fs = parsed_features(project_dir@, items, now@);
                let oldc = completed_descriptions(
                    old(db).features().filter(|f: FeatureView| f.project_dir == project_dir@),
                );
                let evs = completion_events(fs, oldc, now@);
                let m = if old(db).next_id() + evs.len() <= i64::MAX {
                    evs.len() as int
                } else {
                    i64::MAX - old(db).next_id()
                };
                &&& outcome.ok
                &&& outcome.events@.map_values(|e: AgentEvent| e@) == evs.take(m)
                &&& outcome.notifications@.map_values(|n: Notification| n@)
                    == completion_notifications(fs, oldc).take(m)
                &&& final(db).features() == upsert_all(old(db).features(), fs)
                &&& final(db).events() == old(db).events() + with_ids(
                    evs.take(m),
                    old(db).next_id() as int,
                )
                &&& final(db).next_id() == old(db).next_id() + m
                &&& (old(bus).total() + evs.len() <= u64::MAX ==> final(bus).total() == old(
                    bus,
                ).total() + m && final(bus).window() == crate::bus::window_after(
                    old(bus).window(),
                    old(bus).capacity() as int,
                    evs.take(m),
                ))
            }),
        },
{
    let parsed: Vec<Feature> = match parse_feature_list(project_dir, content, now) {
        Some(p) => p,
        None => {
            return ReconcileOutcome { ok: false, events: Vec::new(), notifications: Vec::new() };
        },
    };
    let old_features: Vec<Feature> = match db.get_features(Some(project_dir)) {
        Ok(fs) => fs,
        Err(_) => {
            proof {
                assert(false);
            }
            Vec::new()
        },
    };
    let ghost fs = parsed@.map_values(|f: Feature| f@);
    let ghost oldc = completed_descriptions(
        old(db).features().filter(|f: FeatureView| f.project_dir == project_dir@),
    );
    let ghost pred = (|f: FeatureView| is_new_completion(f, oldc));
    let mut hits: Vec<Feature> = Vec::new();
    let mut i: usize = 0;
    while i < parsed.len()
        invariant
            i <= parsed@.len(),
            hits@.map_values(|f: Feature| f@) == fs.take(i as int).filter(pred),
        decreases parsed@.len() - i,
    {
        proof {
            assert(fs.take(i + 1).drop_last() =~= fs.take(i as int));
            assert(fs.take(i + 1).last() == fs[i as int]);
            assert(fs[i as int] == parsed@[i as int]@);
            reveal_with_fuel(Seq::filter, 2);
        }
        let is_completion: bool = if parsed[i].passes {
            !desc_was_completed(&old_features, parsed[i].description.as_str())
        } else {
            false
        };
        proof {
            assert(is_completion == pred(fs[i as int]));
        }
        if is_completion {
            hits.push(parsed[i].duplicate());
        }
        proof {
            assert(hits@.map_values(|f: Feature| f@) =~= fs.take(i + 1).filter(pred));
        }
        i += 1;
    }
    proof {
        assert(fs.take(parsed@.len() as int) =~= fs);
    }
    let ghost hitsv = new_completions(fs, oldc);
    proof {
        assert(hits@.map_values(|f: Feature| f@) == hitsv);
    }
    let mut events: Vec<AgentEvent> = Vec::new();
    let mut notifs: Vec<Notification> = Vec::new();
    let mut t: usize = 0;
    while t < hits.len()
        invariant
            t <= hits@.len(),
            hits@.map_values(|f: Feature| f@) == hitsv,
            events@.len() == t,
            notifs@.len() == t,
            forall|j: int|
                0 <= j < t ==> (#[trigger] events@[j])@ == completion_event_view(
                    hitsv[j],
                    now@,
                ),
            forall|j: int|
                0 <= j < t ==> (#[trigger] notifs@[j])@ == (NotificationView {
                    title: "Feature Completed"@,
                    body: hitsv[j].description,
                }),
        decreases hits@.len() - t,
    {
        proof {
            assert(hits@[t as int]@ == hitsv[t as int]);
        }
        let ev: AgentEvent = completion_event(&hits[t], now);
        let note = Notification {
            title: String::from_str("Feature Completed"),
            body: hits[t].description.clone(),
        };
        events.push(ev);
        notifs.push(note);
        t += 1;
    }
    let ghost evs = completion_events(fs, oldc, now@);
    let ghost n_events = evs.len();
    proof {
        assert(events@.map_values(|e: AgentEvent| e@) =~= evs);
        assert(notifs@.map_values(|n: Notification| n@) =~= completion_notifications(fs, oldc));
        assert(events@.len() == n_events);
        assert(notifs@.len() == n_events);
    }
    let mut k: usize = 0;
    let mut stopped: bool = false;
    while !stopped && k < events.len()
        invariant
            old(db).wf(),
            db.wf(),
            bus.wf(),
            k <= events@.len(),
            events@.map_values(|e: AgentEvent| e@) == evs,
            notifs@.map_values(|n: Notification| n@) == completion_notifications(fs, oldc),
            notifs@.len() == n_events,
            n_events == evs.len(),
            db.features() == old(db).features(),
            db.sessions() == old(db).sessions(),
            db.config_saved() == old(db).config_saved(),
            bus.capacity() == old(bus).capacity(),
            db.events() == old(db).events() + with_ids(
                evs.take(k as int),
                old(db).next_id() as int,
            ),
            db.next_id() == old(db).next_id() + k,
            stopped ==> old(db).next_id() + k == i64::MAX && k < n_events,
            old(bus).total() + n_events <= u64::MAX ==> bus.total() == old(bus).total() + k
                && bus.window() == crate::bus::window_after(
                old(bus).window(),
                old(bus).capacity() as int,
                evs.take(k as int),
            ),
        decreases events@.len() - k + (if stopped { 0int } else { 1int }),
    {
        match db.insert_event(&events[k]) {
            Ok(_) => {
                proof {
                    assert(db.events() =~= old(db).events() + with_ids(
                        evs.take(k + 1),
                        old(db).next_id() as int,
                    ));
                }
                bus.publish(&events[k]);
                proof {
                    assert(evs.take(k + 1).drop_last() =~= evs.take(k as int));
                    assert(evs.take(k + 1).last() == evs[k as int]);
                }
                k += 1;
            },
            Err(_) => {
                stopped = true;
            },
        }
    }
    events.truncate(k);
    notifs.truncate(k);
    proof {
        let m = if old(db).next_id() + n_events <= i64::MAX {
            n_events as int
        } else {
            i64::MAX - old(db).next_id()
        };
        assert(k as int == m);
        assert(events@.map_values(|e: AgentEvent| e@) =~= evs.take(m));
        assert(notifs@.map_values(|n: Notification| n@) =~= completion_notifications(
            fs,
            oldc,
        ).take(m));
    }
    let sync_result = db.sync_features(parsed);
    proof {
        assert(sync_result is Ok);
    }
    ReconcileOutcome { ok: true, events, notifications: notifs }
}

/// The newly completed features of a list that also carry a given feature
/// id: what one feature's completion events are keyed by.
pub open spec fn matching_completions(
    fs: Seq<FeatureView>,
    old_completed: Set<Seq<char>>,
    id: Seq<char>,
) -> Seq<FeatureView> {
    fs.filter(|f: FeatureView| is_new_completion(f, old_completed) && f.id == id)
}

proof fn lemma_matching_none(fs: Seq<FeatureView>, old_completed: Set<Seq<char>>, id: Seq<char>)
    requires
        forall|j: int| 0 <= j < fs.len() ==> (#[trigger] fs[j]).id != id,
    ensures
        matching_completions(fs, old_completed, id).len() == 0,
    decreases fs.len(),
{
    reveal_with_fuel(Seq::filter, 2);
    if fs.len() > 0 {
        lemma_matching_none(fs.drop_last(), old_completed, id);
    }
}

/// Completion-edge detection, positionally keyed. In a list whose feature
/// ids are distinct (as positional ids are), the feature at a given
/// position yields exactly one completion event carrying its id when it is
/// complete and its description was not complete before, and none
/// otherwise. Deduplication is keyed by the description string: when
/// another feature of the previous list shared the description and had
/// completed, no event is emitted.
pub proof fn lemma_completion_edge(
    fs: Seq<FeatureView>,
    old_completed: Set<Seq<char>>,
    i: int,
)
    requires
        0 <= i < fs.len(),
        forall|j: int| 0 <= j < fs.len() && j != i ==> (#[trigger] fs[j]).id != fs[i].id,
    ensures
        is_new_completion(fs[i], old_completed) ==> matching_completions(
            fs,
            old_completed,
            fs[i].id,
        ) == seq![fs[i]],
        !is_new_completion(fs[i], old_completed) ==> matching_completions(
            fs,
            old_completed,
            fs[i].id,
        ).len() == 0,
    decreases fs.len(),
{
    reveal_with_fuel(Seq::filter, 2);
    if i == fs.len() - 1 {
        lemma_matching_none(fs.drop_last(), old_completed, fs[i].id);
        if is_new_completion(fs[i], old_completed) {
            assert(matching_completions(fs, old_completed, fs[i].id) =~= seq![fs[i]]);
        }
    } else {
        lemma_completion_edge(fs.drop_last(), old_completed, i);
        assert(fs.drop_last()[i] == fs[i]);
        assert(fs.last().id != fs[i].id);
    }
}

proof fn lemma_no_new_completions(fs: Seq<FeatureView>, old_completed: Set<Seq<char>>)
    requires
        forall|j: int|
            0 <= j < fs.len() ==> ((#[trigger] fs[j]).passes ==> old_completed.contains(
                fs[j].description,
            )),
    ensures
        new_completions(fs, old_completed).len() == 0,
    decreases fs.len(),
{
    reveal_with_fuel(Seq::filter, 2);
    if fs.len() > 0 {
        lemma_no_new_completions(fs.drop_last(), old_completed);
    }
}

/// Idempotence: reconciling a feature list against a cache state that
/// already marks this list's completed descriptions as complete — as it
/// does after the same list was reconciled once — yields no completion
/// events, whatever the timestamp, and so no notifications either.
pub proof fn lemma_reingest_unchanged(fs: Seq<FeatureView>, now: Seq<char>)
    ensures
        new_completions(fs, completed_descriptions(fs)).len() == 0,
        completion_events(fs, completed_descriptions(fs), now).len() == 0,
        completion_notifications(fs, completed_descriptions(fs)).len() == 0,
{
    assert forall|j: int|
        0 <= j < fs.len() implies ((#[trigger] fs[j]).passes ==> completed_descriptions(
        fs,
    ).contains(fs[j].description)) by {
        if fs[j].passes {
            assert(fs[j].passes && fs[j].description == fs[j].description);
            assert(completed_descriptions(fs).contains(fs[j].description));
        }
    }
    lemma_no_new_completions(fs, completed_descriptions(fs));
}

/// No edge, no event: against a previous list with the same pass flags
/// and descriptions position for position — only `true→true` and
/// `false→false` transitions — a reconciliation emits no completion event
/// and no notification, whatever else about the features changed.
pub proof fn lemma_no_edges_no_events(
    old_fs: Seq<FeatureView>,
    new_fs: Seq<FeatureView>,
    now: Seq<char>,
)
    requires
        new_fs.len() == old_fs.len(),
        forall|i: int|
            0 <= i < new_fs.len() ==> (#[trigger] new_fs[i]).passes == old_fs[i].passes
                && new_fs[i].description == old_fs[i].description,
    ensures
        new_completions(new_fs, completed_descriptions(old_fs)).len() == 0,
        completion_events(new_fs, completed_descriptions(old_fs), now).len() == 0,
        completion_notifications(new_fs, completed_descriptions(old_fs)).len() == 0,
{
    assert forall|j: int|
        0 <= j < new_fs.len() implies ((#[trigger] new_fs[j]).passes
        ==> completed_descriptions(old_fs).contains(new_fs[j].description)) by {
        if new_fs[j].passes {
            assert(old_fs[j].passes && old_fs[j].description == new_fs[j].description);
            assert(completed_descriptions(old_fs).contains(old_fs[j].description));
        }
    }
    lemma_no_new_completions(new_fs, completed_descriptions(old_fs));
}

/// Decimal renderings are distinct for distinct numbers.
proof fn lemma_dec_str_injective(n: nat, m: nat)
    requires
        n != m,
    ensures
        dec_str(n) != dec_str(m),
    decreases n + m,
{
    if n < 10 && m < 10 {
        assert(dec_str(n)[0] == crate::text::digit_char(n));
        assert(dec_str(m)[0] == crate::text::digit_char(m));
    } else if n < 10 && m >= 10 {
        lemma_dec_str_min_len(m);
        assert(dec_str(n).len() == 1);
    } else if n >= 10 && m < 10 {
        lemma_dec_str_min_len(n);
        assert(dec_str(m).len() == 1);
    } else {
        if n % 10 != m % 10 {
            assert(dec_str(n).last() == crate::text::digit_char(n % 10));
            assert(dec_str(m).last() == crate::text::digit_char(m % 10));
        } else {
            assert(n / 10 != m / 10);
            lemma_dec_str_injective(n / 10, m / 10);
            assert(dec_str(n).drop_last() =~= dec_str(n / 10));
            assert(dec_str(m).drop_last() =~= dec_str(m / 10));
        }
    }
}

proof fn lemma_dec_str_min_len(n: nat)
    requires
        n >= 10,
    ensures
        dec_str(n).len() >= 2,
{
    assert(dec_str(n / 10).len() >= 1) by {
        lemma_dec_str_nonempty(n / 10);
    }
}

proof fn lemma_dec_str_nonempty(n: nat)
    ensures
        dec_str(n).len() >= 1,
    decreases n,
{
    if n >= 10 {
        lemma_dec_str_nonempty(n / 10);
    }
}

/// Positional identity: in one parsed list, the feature at position `i`
/// carries id `"{projectDir}:{i}"` — the same on every re-parse of the
/// same text — and distinct positions carry distinct ids.
pub proof fn lemma_feature_ids_positional(
    dir: Seq<char>,
    items: Seq<JsonView>,
    now: Seq<char>,
    i: int,
    j: int,
)
    requires
        0 <= i < items.len(),
        0 <= j < items.len(),
        i != j,
    ensures
        parsed_features(dir, items, now)[i].id == feature_id_seq(dir, i as nat),
        parsed_features(dir, items, now)[i].id != parsed_features(dir, items, now)[j].id,
{
    lemma_dec_str_injective(i as nat, j as nat);
    let idi = feature_id_seq(dir, i as nat);
    let idj = feature_id_seq(dir, j as nat);
    if idi == idj {
        let di = dec_str(i as nat);
        let dj = dec_str(j as nat);
        assert(idi.len() == dir.len() + 1 + di.len());
        assert(idj.len() == dir.len() + 1 + dj.len());
        assert(di =~= idi.subrange(dir.len() as int + 1, idi.len() as int)) by {
            assert forall|k: int| 0 <= k < di.len() implies idi[dir.len() + 1 + k] == di[k] by {}
        }
        assert(dj =~= idj.subrange(dir.len() as int + 1, idj.len() as int)) by {
            assert forall|k: int| 0 <= k < dj.len() implies idj[dir.len() + 1 + k] == dj[k] by {}
        }
        assert(false);
    }
}

} // verus!
