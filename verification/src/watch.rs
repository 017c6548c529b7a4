//! Watcher-side routing: classify settled file paths, recover project and
//! session identity from transcript paths, and assemble the event a
//! transcript change produces.
//!
//! The embedding application owns the filesystem watcher and debouncer; it
//! hands each settled path here, with the file contents it read, and
//! performs no decision of its own. Two constants of the deployed agent
//! CLI are its configuration, not this crate's: the path marker of the
//! directory the CLI keeps its transcripts under, and the agent name its
//! events are stamped with. Both are passed in, and every contract holds
//! for whatever values the deployment supplies.

use vstd::prelude::*;

use crate::bus::EventBus;
use crate::cache::{with_id, Database};
use crate::json::{field_bool_or, JsonValue};
use crate::json::{lemma_arr_view, parse_json};
use crate::model::{opt_str, AgentEvent, AgentEventView};
use crate::reconcile::{feature_id_seq, feature_items, make_feature_id};
use crate::text::{blank_seq, contains_seq, contains_str, dashes_decoded, dashes_to_slashes,
    ends_with_str, has_suffix, last_nonblank_at, line_at, starts_with_char};
use crate::transcript::{get_last_transcript_entry, line_class};

verus! {

broadcast use vstd::std_specs::vec::group_vec_axioms, vstd::seq::group_seq_axioms;

/// Where a settled file change is routed.
#[derive(Debug, PartialEq, Eq, Structural, Clone, Copy)]
pub enum PathKind {
    /// A transcript file under the transcript root.
    Transcript,
    /// A project's feature list.
    FeatureList,
    /// Ignored.
    Other,
}

/// A transcript path: under the transcript root — any path containing the
/// deployment's transcript-root marker — with the transcript extension.
pub open spec fn is_transcript_path(p: Seq<char>, root_marker: Seq<char>) -> bool {
    has_suffix(p, ".jsonl"@) && contains_seq(p, root_marker)
}

/// A feature-list path.
pub open spec fn is_feature_list_path(p: Seq<char>) -> bool {
    has_suffix(p, "feature_list.json"@)
}

/// Route one settled path by suffix and location under the deployment's
/// transcript-root marker.
pub fn route_path(path: &str, transcript_root_marker: &str) -> (k: PathKind)
    ensures
        k == PathKind::Transcript <==> is_transcript_path(path@, transcript_root_marker@),
        k == PathKind::FeatureList <==> (is_feature_list_path(path@) && !is_transcript_path(
            path@,
            transcript_root_marker@,
        )),
        k == PathKind::Other <==> (!is_transcript_path(path@, transcript_root_marker@)
            && !is_feature_list_path(path@)),
{
    if ends_with_str(path, ".jsonl") && contains_str(path, transcript_root_marker) {
        PathKind::Transcript
    } else if ends_with_str(path, "feature_list.json") {
        PathKind::FeatureList
    } else {
        PathKind::Other
    }
}

/// Index one past the last `'/'`, or 0 when there is none: where the file
/// name begins.
pub open spec fn file_name_start(p: Seq<char>) -> int {
    if exists|i: int| 0 <= i < p.len() && p[i] == '/' {
        (choose|i: int|
            0 <= i < p.len() && p[i] == '/' && forall|j: int| i < j < p.len() ==> p[j] != '/')
            + 1
    } else {
        0
    }
}

fn find_file_name_start(p: &str) -> (r: usize)
    ensures
        r == file_name_start(p@),
        r <= p@.len(),
{
    let n: usize = p.unicode_len();
    let mut i: usize = n;
    loop
        invariant
            n == p@.len(),
            i <= n,
            forall|j: int| i <= j < n ==> p@[j] != '/',
        ensures
            i <= n,
            forall|j: int| i <= j < n ==> p@[j] != '/',
            i == 0 || p@[i - 1] == '/',
        decreases i,
    {
        if i == 0 {
            break ;
        }
        if p.get_char(i - 1) == '/' {
            break ;
        }
        i -= 1;
    }
    proof {
        if i == 0 {
            assert(!(exists|k: int| 0 <= k < p@.len() && p@[k] == '/')) by {
                assert(forall|k: int| 0 <= k < p@.len() ==> p@[k] != '/');
            }
        } else {
            let w = i - 1;
            assert(0 <= w < p@.len() && p@[w] == '/' && forall|j: int|
                w < j < p@.len() ==> p@[j] != '/');
            let c = choose|k: int|
                0 <= k < p@.len() && p@[k] == '/' && forall|j: int|
                    k < j < p@.len() ==> p@[j] != '/';
            assert(c == w) by {
                if c < w {
                    assert(p@[w] == '/');
                }
                if c > w {
                    assert(p@[c] == '/');
                }
            }
        }
    }
    i
}

/// The path's file name: everything after the last `'/'`.
pub open spec fn file_name_of(p: Seq<char>) -> Seq<char> {
    p.subrange(file_name_start(p), p.len() as int)
}

/// The directory part: everything before the last `'/'`, exclusive.
pub open spec fn dir_name_of(p: Seq<char>) -> Seq<char> {
    if file_name_start(p) == 0 {
        Seq::empty()
    } else {
        p.subrange(0, file_name_start(p) - 1)
    }
}

/// The path's file name.
pub fn file_name(p: &str) -> (r: String)
    ensures
        r@ == file_name_of(p@),
{
    let n: usize = p.unicode_len();
    let start: usize = find_file_name_start(p);
    let piece: &str = p.substring_char(start, n);
    piece.to_owned()
}

/// The directory part of the path.
pub fn dir_name(p: &str) -> (r: String)
    ensures
        r@ == dir_name_of(p@),
{
    let start: usize = find_file_name_start(p);
    if start == 0 {
        proof {
            reveal_strlit("");
            assert(""@ =~= Seq::<char>::empty());
        }
        String::from_str("")
    } else {
        let piece: &str = p.substring_char(0, start - 1);
        piece.to_owned()
    }
}

/// A name without its extension: everything before the last `'.'`, when
/// one stands past the first character; else the whole name.
pub open spec fn stem_of(name: Seq<char>) -> Seq<char> {
    if exists|i: int| 1 <= i < name.len() && name[i] == '.' {
        name.subrange(
            0,
            choose|i: int|
                1 <= i < name.len() && name[i] == '.' && forall|j: int|
                    i < j < name.len() ==> name[j] != '.',
        )
    } else {
        name
    }
}

/// Strip the extension from a file name.
pub fn file_stem(name: &str) -> (r: String)
    ensures
        r@ == stem_of(name@),
{
    let n: usize = name.unicode_len();
    let mut i: usize = n;
    loop
        invariant
            n == name@.len(),
            i <= n,
            forall|j: int| i <= j < n ==> name@[j] != '.',
        ensures
            i <= n,
            forall|j: int| i <= j < n ==> name@[j] != '.',
            i <= 1 || name@[i - 1] == '.',
        decreases i,
    {
        if i <= 1 {
            break ;
        }
        if name.get_char(i - 1) == '.' {
            break ;
        }
        i -= 1;
    }
    if i <= 1 {
        proof {
            assert(!(exists|k: int| 1 <= k < name@.len() && name@[k] == '.')) by {
                assert(forall|k: int| 1 <= k < name@.len() ==> name@[k] != '.');
            }
        }
        return name.to_owned();
    }
    let w: usize = i - 1;
    proof {
        assert(1 <= w < name@.len() && name@[w as int] == '.' && forall|j: int|
            w < j < name@.len() ==> name@[j] != '.');
        let c = choose|k: int|
            1 <= k < name@.len() && name@[k] == '.' && forall|j: int|
                k < j < name@.len() ==> name@[j] != '.';
        assert(c == w) by {
            if c < w {
                assert(name@[w as int] == '.');
            }
            if c > w {
                assert(name@[c] == '.');
            }
        }
    }
    let piece: &str = name.substring_char(0, w);
    piece.to_owned()
}

/// The project directory a transcript path encodes: the transcript's
/// parent directory name, decoded from dash separators into a filesystem
/// path when it starts with a dash.
pub open spec fn transcript_project_dir_of(p: Seq<char>) -> Seq<char> {
    let encoded = file_name_of(dir_name_of(p));
    if encoded.len() > 0 && encoded[0] == '-' {
        dashes_decoded(encoded)
    } else {
        encoded
    }
}

/// Recover the project directory from a transcript path.
pub fn transcript_project_dir(path: &str) -> (r: String)
    ensures
        r@ == transcript_project_dir_of(path@),
{
    let parent: String = dir_name(path);
    let encoded: String = file_name(parent.as_str());
    if starts_with_char(encoded.as_str(), '-') {
        dashes_to_slashes(encoded.as_str())
    } else {
        encoded
    }
}

/// The session id a transcript path encodes: the file name's stem.
pub open spec fn transcript_session_id_of(p: Seq<char>) -> Seq<char> {
    stem_of(file_name_of(p))
}

/// Recover the session id from a transcript path.
pub fn transcript_session_id(path: &str) -> (r: String)
    ensures
        r@ == transcript_session_id_of(path@),
{
    let name: String = file_name(path);
    file_stem(name.as_str())
}

/// Index of the first feature marked in progress.
pub open spec fn first_in_progress(items: Seq<crate::json::JsonView>) -> Option<int>
    decreases items.len(),
{
    if items.len() == 0 {
        None
    } else if field_bool_or(items[0], "inProgress"@, false) {
        Some(0)
    } else {
        match first_in_progress(items.drop_first()) {
            Some(i) => Some(i + 1),
            None => None,
        }
    }
}

proof fn lemma_first_in_progress_skip(items: Seq<crate::json::JsonView>, i: int)
    requires
        0 <= i <= items.len(),
        forall|j: int| 0 <= j < i ==> !field_bool_or(#[trigger] items[j], "inProgress"@, false),
    ensures
        first_in_progress(items) == (match first_in_progress(items.skip(i)) {
            Some(k) => Some(k + i),
            None => None::<int>,
        }),
    decreases i,
{
    if i > 0 {
        lemma_first_in_progress_skip(items.drop_first(), i - 1);
        assert(items.drop_first().skip(i - 1) =~= items.skip(i));
    } else {
        assert(items.skip(0) =~= items);
    }
}

/// The id of the project's active feature: the positional id of the first
/// list entry marked in progress, if any.
pub open spec fn active_feature_id_of(dir: Seq<char>, content: Seq<char>) -> Option<Seq<char>> {
    match feature_items(content) {
        Some(items) => match first_in_progress(items) {
            Some(i) => Some(feature_id_seq(dir, i as nat)),
            None => None,
        },
        None => None,
    }
}

/// Find the active feature in a feature-list text: `None` when the text is
/// not a JSON array or no feature is marked in progress.
#[verifier::loop_isolation(false)]
pub fn get_active_feature_id(project_dir: &str, content: &str) -> (r: Option<String>)
    ensures
        opt_str(r) == active_feature_id_of(project_dir@, content@),
{
    let doc: JsonValue = match parse_json(content) {
        Some(d) => d,
        None => {
            return None;
        },
    };
    let items: &Vec<JsonValue> = match doc.as_arr() {
        Some(a) => a,
        None => {
            return None;
        },
    };
    let ghost vs = crate::json::arr_view(items@);
    proof {
        lemma_arr_view(items@);
    }
    let mut i: usize = 0;
    while i < items.len()
        invariant
            i <= items@.len(),
            forall|j: int|
                0 <= j < i ==> !field_bool_or(#[trigger] vs[j], "inProgress"@, false),
        decreases items@.len() - i,
    {
        let in_progress: bool = match items[i].get("inProgress") {
            Some(f) => match f.as_bool() {
                Some(b) => b,
                None => false,
            },
            None => false,
        };
        if in_progress {
            proof {
                lemma_first_in_progress_skip(vs, i as int);
                assert(vs.skip(i as int)[0] == vs[i as int]);
            }
            return Some(make_feature_id(project_dir, i));
        }
        i += 1;
    }
    proof {
        lemma_first_in_progress_skip(vs, vs.len() as int);
        assert(vs.skip(vs.len() as int).len() == 0);
    }
    None
}

/// The path of a project's feature list.
pub fn feature_list_path(project_dir: &str) -> (r: String)
    ensures
        r@ == project_dir@ + "/feature_list.json"@,
{
    let mut s: String = project_dir.to_owned();
    s.append("/feature_list.json");
    s
}

/// The event a settled transcript change produces. Identity comes from the
/// path; the source agent is the deployment's agent name; the
/// classification comes from the transcript's last non-blank line; the
/// feature link is the project's active feature, when the caller found a
/// feature list; a caller that cannot derive a session id from the path
/// supplies a fallback.
pub fn build_transcript_event(
    path: &str,
    transcript_content: &str,
    feature_list_content: Option<&str>,
    source_agent: &str,
    fallback_session_id: &str,
    now: &str,
) -> (ev: AgentEvent)
    ensures
        ev@.id is None,
        ev@.event_type == "TranscriptUpdated"@,
        ev@.source_agent == source_agent@,
        ev@.session_id == (if transcript_session_id_of(path@).len() > 0 {
            transcript_session_id_of(path@)
        } else {
            fallback_session_id@
        }),
        ev@.project_dir == transcript_project_dir_of(path@),
        ev@.feature_id == (match feature_list_content {
            Some(c) => active_feature_id_of(transcript_project_dir_of(path@), c@),
            None => None::<Seq<char>>,
        }),
        ev@.created_at == now@,
        (exists|a: int, b: int|
            #[trigger] last_nonblank_at(transcript_content@, a, b) && ev@.tool_name == line_class(
                transcript_content@.subrange(a, b),
            ).tool && ev@.payload == line_class(transcript_content@.subrange(a, b)).payload) || ((
        forall|a: int, b: int|
            line_at(transcript_content@, a, b) ==> blank_seq(
                transcript_content@.subrange(a, b),
            )) && ev@.tool_name is None && ev@.payload is None),
{
    let project_dir: String = transcript_project_dir(path);
    let stem: String = transcript_session_id(path);
    let session_id: String = if stem.as_str().unicode_len() > 0 {
        stem
    } else {
        fallback_session_id.to_owned()
    };
    let feature_id: Option<String> = match feature_list_content {
        Some(c) => get_active_feature_id(project_dir.as_str(), c),
        None => None,
    };
    let parts: (Option<String>, Option<String>) = get_last_transcript_entry(transcript_content);
    AgentEvent {
        id: None,
        event_type: String::from_str("TranscriptUpdated"),
        source_agent: source_agent.to_owned(),
        session_id,
        project_dir,
        tool_name: parts.0,
        payload: parts.1,
        feature_id,
        created_at: now.to_owned(),
    }
}

/// Handle a settled transcript change: build its event, store it, and
/// publish it to every subscribed consumer — but only once the cache
/// accepted it — then hand it back.
pub fn handle_transcript_change(
    db: &mut Database,
    bus: &mut EventBus,
    path: &str,
    transcript_content: &str,
    feature_list_content: Option<&str>,
    source_agent: &str,
    fallback_session_id: &str,
    now: &str,
) -> (ev: AgentEvent)
    requires
        old(db).wf(),
        old(bus).wf(),
    ensures
        final(db).wf(),
        final(bus).wf(),
        final(bus).capacity() == old(bus).capacity(),
        final(db).features() == old(db).features(),
        final(db).sessions() == old(db).sessions(),
        final(db).config_saved() == old(db).config_saved(),
        ev@.event_type == "TranscriptUpdated"@,
        ev@.source_agent == source_agent@,
        ev@.project_dir == transcript_project_dir_of(path@),
        ev@.session_id == (if transcript_session_id_of(path@).len() > 0 {
            transcript_session_id_of(path@)
        } else {
            fallback_session_id@
        }),
        ev@.feature_id == (match feature_list_content {
            Some(c) => active_feature_id_of(transcript_project_dir_of(path@), c@),
            None => None::<Seq<char>>,
        }),
        (exists|a: int, b: int|
            #[trigger] last_nonblank_at(transcript_content@, a, b) && ev@.tool_name == line_class(
                transcript_content@.subrange(a, b),
            ).tool && ev@.payload == line_class(transcript_content@.subrange(a, b)).payload) || ((
        forall|a: int, b: int|
            line_at(transcript_content@, a, b) ==> blank_seq(
                transcript_content@.subrange(a, b),
            )) && ev@.tool_name is None && ev@.payload is None),
        ev@.created_at == now@,
        ev@.id is None,
        if old(db).next_id() < i64::MAX {
            &&& final(db).events() == old(db).events().push(with_id(ev@, old(db).next_id()))
            &&& final(db).next_id() == old(db).next_id() + 1
            &&& (old(bus).total() < u64::MAX ==> final(bus).total() == old(bus).total() + 1
                && final(bus).window() == crate::bus::window_after(
                old(bus).window(),
                old(bus).capacity() as int,
                seq![ev@],
            ))
        } else {
            &&& final(db).events() == old(db).events()
            &&& final(db).next_id() == old(db).next_id()
            &&& final(bus).total() == old(bus).total()
        },
{
    let ev: AgentEvent = build_transcript_event(
        path,
        transcript_content,
        feature_list_content,
        source_agent,
        fallback_session_id,
        now,
    );
    match db.insert_event(&ev) {
        Ok(_) => {
            bus.publish(&ev);
            proof {
                let w = old(bus).window();
                let cap = old(bus).capacity() as int;
                assert(seq![ev@].drop_last() =~= Seq::<AgentEventView>::empty());
                assert(crate::bus::window_after(w, cap, seq![ev@].drop_last()) == w);
            }
        },
        Err(_) => {},
    }
    ev
}

} // verus!
