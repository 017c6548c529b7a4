//! The local cache: system of record for every read API.
//!
//! An append-only event log with cache-assigned ascending ids, the feature
//! set keyed by feature id, the session table keyed by session id, and the
//! singleton configuration record. All access goes through one [`Database`]
//! value; the embedding application serializes access and persists a mirror
//! of it as it sees fit.

use vstd::prelude::*;

use crate::model::{AgentEvent, AgentEventView, Config, ConfigView, Feature, FeatureView, Session,
    SessionView, Stats};
use crate::model::default_config;
use crate::text::str_eq;

verus! {

/// A failure of the cache itself.
#[derive(Debug, PartialEq, Eq, Structural, Clone, Copy)]
pub enum CacheError {
    /// No event id is left to assign.
    IdSpaceExhausted,
}

impl CacheError {
    /// A human-readable description.
    pub fn message(&self) -> (r: String)
        ensures
            r@ == "event id space exhausted"@,
    {
        String::from_str("event id space exhausted")
    }
}

/// `s` with the latest (highest-index) element first.
pub open spec fn latest_first<T>(s: Seq<T>) -> Seq<T> {
    Seq::new(s.len(), |i: int| s[s.len() - 1 - i])
}

/// Insertion-recency order is the display order: when stored events carry
/// nondecreasing `created_at` stamps — as they do, each being stamped on
/// arrival — reading them latest-first yields them in `created_at`
/// descending order.
pub proof fn lemma_latest_first_by_created_at(es: Seq<AgentEventView>)
    requires
        forall|i: int, j: int|
            0 <= i < j < es.len() ==> crate::text::lex_le(
                (#[trigger] es[i]).created_at,
                (#[trigger] es[j]).created_at,
            ),
    ensures
        forall|i: int, j: int|
            0 <= i < j < latest_first(es).len() ==> crate::text::lex_le(
                (#[trigger] latest_first(es)[j]).created_at,
                (#[trigger] latest_first(es)[i]).created_at,
            ),
{
    assert forall|i: int, j: int|
        0 <= i < j < latest_first(es).len() implies crate::text::lex_le(
        (#[trigger] latest_first(es)[j]).created_at,
        (#[trigger] latest_first(es)[i]).created_at,
    ) by {
        assert(latest_first(es)[i] == es[es.len() - 1 - i]);
        assert(latest_first(es)[j] == es[es.len() - 1 - j]);
    }
}

/// How many of `len` elements a query limit admits: a negative limit admits
/// all of them.
pub open spec fn clip_limit(limit: i64, len: nat) -> int {
    if limit < 0 {
        len as int
    } else if limit as int <= len as int {
        limit as int
    } else {
        len as int
    }
}

/// The event id, or 0 where none is assigned.
pub open spec fn event_id(e: AgentEventView) -> i64 {
    match e.id {
        Some(i) => i,
        None => 0,
    }
}

/// `e` with its id replaced.
pub open spec fn with_id(e: AgentEventView, id: i64) -> AgentEventView {
    AgentEventView { id: Some(id), ..e }
}

/// `e` with its feature link replaced.
pub open spec fn with_feature(e: AgentEventView, feature_id: Seq<char>) -> AgentEventView {
    AgentEventView { feature_id: Some(feature_id), ..e }
}

/// Index of the first event carrying id `id`.
pub open spec fn find_event(es: Seq<AgentEventView>, id: i64) -> Option<int>
    decreases es.len(),
{
    if es.len() == 0 {
        None
    } else if es[0].id == Some(id) {
        Some(0)
    } else {
        match find_event(es.drop_first(), id) {
            Some(i) => Some(i + 1),
            None => None,
        }
    }
}

/// Index of the first feature carrying id `id`.
pub open spec fn find_feature(fs: Seq<FeatureView>, id: Seq<char>) -> Option<int>
    decreases fs.len(),
{
    if fs.len() == 0 {
        None
    } else if fs[0].id == id {
        Some(0)
    } else {
        match find_feature(fs.drop_first(), id) {
            Some(i) => Some(i + 1),
            None => None,
        }
    }
}

/// Index of the first session carrying id `id`.
pub open spec fn find_session(ss: Seq<SessionView>, id: Seq<char>) -> Option<int>
    decreases ss.len(),
{
    if ss.len() == 0 {
        None
    } else if ss[0].session_id == id {
        Some(0)
    } else {
        match find_session(ss.drop_first(), id) {
            Some(i) => Some(i + 1),
            None => None,
        }
    }
}

/// `fs` with `f` replacing the feature of the same id, or appended.
pub open spec fn upsert_feature_spec(fs: Seq<FeatureView>, f: FeatureView) -> Seq<FeatureView> {
    match find_feature(fs, f.id) {
        Some(i) => fs.update(i, f),
        None => fs.push(f),
    }
}

/// `fs` after upserting each element of `news` in order.
pub open spec fn upsert_all(fs: Seq<FeatureView>, news: Seq<FeatureView>) -> Seq<FeatureView>
    decreases news.len(),
{
    if news.len() == 0 {
        fs
    } else {
        upsert_feature_spec(upsert_all(fs, news.drop_last()), news.last())
    }
}

/// `ss` with `s` replacing the session of the same id, or appended.
pub open spec fn upsert_session_spec(ss: Seq<SessionView>, s: SessionView) -> Seq<SessionView> {
    match find_session(ss, s.session_id) {
        Some(i) => ss.update(i, s),
        None => ss.push(s),
    }
}

/// What `find_event` finds: the first index carrying the id.
pub proof fn lemma_find_event(es: Seq<AgentEventView>, id: i64)
    ensures
        match find_event(es, id) {
            Some(i) => 0 <= i < es.len() && es[i].id == Some(id) && forall|j: int|
                0 <= j < i ==> es[j].id != Some(id),
            None => forall|j: int| 0 <= j < es.len() ==> es[j].id != Some(id),
        },
    decreases es.len(),
{
    if es.len() > 0 && es[0].id != Some(id) {
        let rest = es.drop_first();
        lemma_find_event(rest, id);
        assert(forall|j: int| 0 <= j < rest.len() ==> #[trigger] rest[j] == es[j + 1]);
        match find_event(rest, id) {
            Some(i) => {
                assert forall|j: int| 0 <= j < i + 1 implies es[j].id != Some(id) by {
                    if j > 0 {
                        assert(es[j] == rest[j - 1]);
                    }
                }
            },
            None => {
                assert forall|j: int| 0 <= j < es.len() implies es[j].id != Some(id) by {
                    if j > 0 {
                        assert(es[j] == rest[j - 1]);
                    }
                }
            },
        }
    }
}

/// What `find_feature` finds: the first index carrying the id.
pub proof fn lemma_find_feature(fs: Seq<FeatureView>, id: Seq<char>)
    ensures
        match find_feature(fs, id) {
            Some(i) => 0 <= i < fs.len() && fs[i].id == id && forall|j: int|
                0 <= j < i ==> fs[j].id != id,
            None => forall|j: int| 0 <= j < fs.len() ==> fs[j].id != id,
        },
    decreases fs.len(),
{
    if fs.len() > 0 && fs[0].id != id {
        let rest = fs.drop_first();
        lemma_find_feature(rest, id);
        assert(forall|j: int| 0 <= j < rest.len() ==> #[trigger] rest[j] == fs[j + 1]);
        match find_feature(rest, id) {
            Some(i) => {
                assert forall|j: int| 0 <= j < i + 1 implies fs[j].id != id by {
                    if j > 0 {
                        assert(fs[j] == rest[j - 1]);
                    }
                }
            },
            None => {
                assert forall|j: int| 0 <= j < fs.len() implies fs[j].id != id by {
                    if j > 0 {
                        assert(fs[j] == rest[j - 1]);
                    }
                }
            },
        }
    }
}

/// What `find_session` finds: the first index carrying the id.
pub proof fn lemma_find_session(ss: Seq<SessionView>, id: Seq<char>)
    ensures
        match find_session(ss, id) {
            Some(i) => 0 <= i < ss.len() && ss[i].session_id == id && forall|j: int|
                0 <= j < i ==> ss[j].session_id != id,
            None => forall|j: int| 0 <= j < ss.len() ==> ss[j].session_id != id,
        },
    decreases ss.len(),
{
    if ss.len() > 0 && ss[0].session_id != id {
        let rest = ss.drop_first();
        lemma_find_session(rest, id);
        assert(forall|j: int| 0 <= j < rest.len() ==> #[trigger] rest[j] == ss[j + 1]);
        match find_session(rest, id) {
            Some(i) => {
                assert forall|j: int| 0 <= j < i + 1 implies ss[j].session_id != id by {
                    if j > 0 {
                        assert(ss[j] == rest[j - 1]);
                    }
                }
            },
            None => {
                assert forall|j: int| 0 <= j < ss.len() implies ss[j].session_id != id by {
                    if j > 0 {
                        assert(ss[j] == rest[j - 1]);
                    }
                }
            },
        }
    }
}

/// Every event has an id, ids ascend with position and stay below `next`.
pub open spec fn events_wf(es: Seq<AgentEventView>, next: i64) -> bool {
    &&& forall|i: int| 0 <= i < es.len() ==> (#[trigger] es[i]).id is Some
    &&& forall|i: int| 0 <= i < es.len() ==> 1 <= event_id(#[trigger] es[i]) < next
    &&& forall|i: int, j: int|
        0 <= i < j < es.len() ==> event_id(#[trigger] es[i]) < event_id(#[trigger] es[j])
}

/// Pairwise distinct feature ids.
pub open spec fn feature_ids_unique(fs: Seq<FeatureView>) -> bool {
    forall|i: int, j: int|
        0 <= i < j < fs.len() ==> (#[trigger] fs[i]).id != (#[trigger] fs[j]).id
}

/// Stable insertion into a last-activity-descending list: the session
/// goes after every session whose last activity is at least as recent.
pub open spec fn insert_by_activity(r: Seq<SessionView>, s: SessionView) -> Seq<SessionView>
    decreases r.len(),
{
    if r.len() == 0 {
        seq![s]
    } else if crate::text::lex_le(s.last_activity, r[0].last_activity) {
        seq![r[0]] + insert_by_activity(r.drop_first(), s)
    } else {
        seq![s] + r
    }
}

/// The display order of sessions: most recent activity first, equal
/// stamps kept in their given order.
pub open spec fn sort_by_activity(ss: Seq<SessionView>) -> Seq<SessionView>
    decreases ss.len(),
{
    if ss.len() == 0 {
        Seq::empty()
    } else {
        insert_by_activity(sort_by_activity(ss.drop_last()), ss.last())
    }
}

proof fn lemma_insert_by_activity_at(r: Seq<SessionView>, s: SessionView, p: int)
    requires
        0 <= p <= r.len(),
        forall|k: int|
            0 <= k < p ==> crate::text::lex_le(
                s.last_activity,
                (#[trigger] r[k]).last_activity,
            ),
        p < r.len() ==> !crate::text::lex_le(s.last_activity, r[p].last_activity),
    ensures
        insert_by_activity(r, s) == r.take(p) + seq![s] + r.skip(p),
    decreases p,
{
    if p == 0 {
        assert(r.take(0) =~= Seq::<SessionView>::empty());
        assert(r.skip(0) =~= r);
        if r.len() == 0 {
            assert(insert_by_activity(r, s) =~= r.take(0) + seq![s] + r.skip(0));
        } else {
            assert(insert_by_activity(r, s) =~= r.take(0) + seq![s] + r.skip(0));
        }
    } else {
        let rest = r.drop_first();
        assert(forall|k: int| 0 <= k < rest.len() ==> #[trigger] rest[k] == r[k + 1]);
        lemma_insert_by_activity_at(rest, s, p - 1);
        assert(insert_by_activity(r, s) == seq![r[0]] + (rest.take(p - 1) + seq![s]
            + rest.skip(p - 1)));
        assert(insert_by_activity(r, s) =~= r.take(p) + seq![s] + r.skip(p));
    }
}

/// Pairwise distinct session ids.
pub open spec fn session_ids_unique(ss: Seq<SessionView>) -> bool {
    forall|i: int, j: int|
        0 <= i < j < ss.len() ==> (#[trigger] ss[i]).session_id != (
        #[trigger] ss[j]).session_id
}

proof fn lemma_events_wf_push(es: Seq<AgentEventView>, next: i64, e: AgentEventView)
    requires
        events_wf(es, next),
        e.id == Some(next),
        1 <= next < i64::MAX,
    ensures
        events_wf(es.push(e), (next + 1) as i64),
{
    let nes = es.push(e);
    assert forall|i: int| 0 <= i < nes.len() implies (#[trigger] nes[i]).id is Some by {
        if i < es.len() {
            assert(nes[i] == es[i]);
        } else {
            assert(nes[i] == e);
        }
    }
    assert forall|i: int|
        0 <= i < nes.len() implies 1 <= event_id(#[trigger] nes[i]) < next + 1 by {
        if i < es.len() {
            assert(nes[i] == es[i]);
        } else {
            assert(nes[i] == e);
        }
    }
    assert forall|i: int, j: int|
        0 <= i < j < nes.len() implies event_id(#[trigger] nes[i]) < event_id(
        #[trigger] nes[j]) by {
        assert(nes[i] == es[i]);
        if j < es.len() {
            assert(nes[j] == es[j]);
        } else {
            assert(nes[j] == e);
        }
    }
}

proof fn lemma_events_wf_update(es: Seq<AgentEventView>, next: i64, i: int, e: AgentEventView)
    requires
        events_wf(es, next),
        0 <= i < es.len(),
        e.id == es[i].id,
    ensures
        events_wf(es.update(i, e), next),
{
    let nes = es.update(i, e);
    assert forall|a: int| 0 <= a < nes.len() implies (#[trigger] nes[a]).id is Some && 1
        <= event_id(nes[a]) < next by {
        if a != i {
            assert(nes[a] == es[a]);
        }
        assert(es[a].id is Some && 1 <= event_id(es[a]) < next);
    }
    assert forall|a: int, b: int|
        0 <= a < b < nes.len() implies event_id(#[trigger] nes[a]) < event_id(
        #[trigger] nes[b]) by {
        if a != i {
            assert(nes[a] == es[a]);
        }
        if b != i {
            assert(nes[b] == es[b]);
        }
        assert(event_id(es[a]) < event_id(es[b]));
    }
}

proof fn lemma_feature_unique_update(fs: Seq<FeatureView>, i: int, f: FeatureView)
    requires
        feature_ids_unique(fs),
        0 <= i < fs.len(),
        fs[i].id == f.id,
    ensures
        feature_ids_unique(fs.update(i, f)),
{
    let nfs = fs.update(i, f);
    assert forall|a: int, b: int|
        0 <= a < b < nfs.len() implies (#[trigger] nfs[a]).id != (#[trigger] nfs[b]).id by {
        assert(fs[a].id != fs[b].id);
        if a != i {
            assert(nfs[a] == fs[a]);
        }
        if b != i {
            assert(nfs[b] == fs[b]);
        }
    }
}

proof fn lemma_feature_unique_push(fs: Seq<FeatureView>, f: FeatureView)
    requires
        feature_ids_unique(fs),
        forall|j: int| 0 <= j < fs.len() ==> (#[trigger] fs[j]).id != f.id,
    ensures
        feature_ids_unique(fs.push(f)),
{
    let nfs = fs.push(f);
    assert forall|a: int, b: int|
        0 <= a < b < nfs.len() implies (#[trigger] nfs[a]).id != (#[trigger] nfs[b]).id by {
        assert(nfs[a] == fs[a]);
        if b < fs.len() {
            assert(nfs[b] == fs[b]);
        } else {
            assert(nfs[b] == f);
        }
    }
}

proof fn lemma_session_unique_update(ss: Seq<SessionView>, i: int, s: SessionView)
    requires
        session_ids_unique(ss),
        0 <= i < ss.len(),
        ss[i].session_id == s.session_id,
    ensures
        session_ids_unique(ss.update(i, s)),
{
    let nss = ss.update(i, s);
    assert forall|a: int, b: int|
        0 <= a < b < nss.len() implies (#[trigger] nss[a]).session_id != (
        #[trigger] nss[b]).session_id by {
        assert(ss[a].session_id != ss[b].session_id);
        if a != i {
            assert(nss[a] == ss[a]);
        }
        if b != i {
            assert(nss[b] == ss[b]);
        }
    }
}

proof fn lemma_session_unique_push(ss: Seq<SessionView>, s: SessionView)
    requires
        session_ids_unique(ss),
        forall|j: int| 0 <= j < ss.len() ==> (#[trigger] ss[j]).session_id != s.session_id,
    ensures
        session_ids_unique(ss.push(s)),
{
    let nss = ss.push(s);
    assert forall|a: int, b: int|
        0 <= a < b < nss.len() implies (#[trigger] nss[a]).session_id != (
        #[trigger] nss[b]).session_id by {
        assert(nss[a] == ss[a]);
        if b < ss.len() {
            assert(nss[b] == ss[b]);
        } else {
            assert(nss[b] == s);
        }
    }
}

/// The in-memory cache.
pub struct Database {
    events: Vec<AgentEvent>,
    next_event_id: i64,
    features: Vec<Feature>,
    sessions: Vec<Session>,
    config: Option<Config>,
}

impl Database {
    /// The stored events, oldest first.
    pub closed spec fn events(&self) -> Seq<AgentEventView> {
        self.events@.map_values(|e: AgentEvent| e@)
    }

    /// The stored features.
    pub closed spec fn features(&self) -> Seq<FeatureView> {
        self.features@.map_values(|f: Feature| f@)
    }

    /// The stored sessions.
    pub closed spec fn sessions(&self) -> Seq<SessionView> {
        self.sessions@.map_values(|s: Session| s@)
    }

    /// The saved configuration record, if any.
    pub closed spec fn config_saved(&self) -> Option<ConfigView> {
        match self.config {
            Some(c) => Some(c@),
            None => None,
        }
    }

    /// The configuration in force: the saved record, or the default.
    pub open spec fn config_now(&self) -> ConfigView {
        match self.config_saved() {
            Some(c) => c,
            None => default_config(),
        }
    }

    /// The id the next accepted event will get.
    pub closed spec fn next_id(&self) -> i64 {
        self.next_event_id
    }

    /// Internal consistency: event ids are assigned, ascending and below the
    /// next id; feature and session ids are unique.
    pub closed spec fn wf(&self) -> bool {
        &&& 1 <= self.next_event_id
        &&& events_wf(self.events(), self.next_event_id)
        &&& feature_ids_unique(self.features())
        &&& session_ids_unique(self.sessions())
    }

    /// An empty cache.
    pub fn new() -> (db: Database)
        ensures
            db.wf(),
            db.events() == Seq::<AgentEventView>::empty(),
            db.features() == Seq::<FeatureView>::empty(),
            db.sessions() == Seq::<SessionView>::empty(),
            db.config_saved() is None,
            db.next_id() == 1,
    {
        let db = Database {
            events: Vec::new(),
            next_event_id: 1,
            features: Vec::new(),
            sessions: Vec::new(),
            config: None,
        };
        proof {
            assert(db.events() =~= Seq::<AgentEventView>::empty());
            assert(db.features() =~= Seq::<FeatureView>::empty());
            assert(db.sessions() =~= Seq::<SessionView>::empty());
        }
        db
    }

    /// Append one event; the cache assigns its id. Fails exactly when the id
    /// space is exhausted, and then changes nothing.
    pub fn insert_event(&mut self, event: &AgentEvent) -> (r: Result<i64, CacheError>)
        requires
            old(self).wf(),
        ensures
            final(self).wf(),
            final(self).features() == old(self).features(),
            final(self).sessions() == old(self).sessions(),
            final(self).config_saved() == old(self).config_saved(),
            match r {
                Ok(id) => {
                    &&& id == old(self).next_id()
                    &&& final(self).events() == old(self).events().push(with_id(event@, id))
                    &&& final(self).next_id() == old(self).next_id() + 1
                },
                Err(e) => {
                    &&& e == CacheError::IdSpaceExhausted
                    &&& old(self).next_id() == i64::MAX
                    &&& final(self).events() == old(self).events()
                    &&& final(self).next_id() == old(self).next_id()
                },
            },
    {
        if self.next_event_id == i64::MAX {
            return Err(CacheError::IdSpaceExhausted);
        }
        let id: i64 = self.next_event_id;
        let mut stored: AgentEvent = event.duplicate();
        stored.id = Some(id);
        self.events.push(stored);
        self.next_event_id = id + 1;
        proof {
            assert(self.events() =~= old(self).events().push(with_id(event@, id)));
            lemma_events_wf_push(old(self).events(), id, with_id(event@, id));
        }
        Ok(id)
    }

    /// The most recent `limit` events, latest first; a negative limit means
    /// all of them. Latest-first is insertion-recency order, which is the
    /// `created_at`-descending display order because the cache stamps each
    /// event on arrival (`lemma_latest_first_by_created_at`); among equal
    /// stamps it is deterministic where a timestamp sort would not be.
    pub fn get_events(&self, limit: i64) -> (r: Result<Vec<AgentEvent>, CacheError>)
        ensures
            match r {
                Ok(es) => es@.map_values(|e: AgentEvent| e@) == latest_first(
                    self.events(),
                ).take(clip_limit(limit, self.events().len())),
                Err(_) => false,
            },
    {
        let total: usize = self.events.len();
        let cap: usize = if limit < 0 || (limit as u64) >= (total as u64) {
            total
        } else {
            limit as usize
        };
        let mut r: Vec<AgentEvent> = Vec::new();
        let mut taken: usize = 0;
        while taken < cap
            invariant
                cap <= total,
                total == self.events@.len(),
                taken <= cap,
                r@.len() == taken,
                forall|t: int|
                    0 <= t < taken ==> r@[t]@ == self.events@[total - 1 - t]@,
            decreases cap - taken,
        {
            r.push(self.events[total - 1 - taken].duplicate());
            taken += 1;
        }
        proof {
            assert(r@.map_values(|e: AgentEvent| e@) =~= latest_first(self.events()).take(
                clip_limit(limit, self.events().len()),
            ));
        }
        Ok(r)
    }

    /// The most recent `limit` events linked to `feature_id`, latest
    /// first, in the same insertion-recency order as `get_events`.
    pub fn get_events_by_feature(&self, feature_id: &str, limit: i64) -> (r: Result<
        Vec<AgentEvent>,
        CacheError,
    >)
        ensures
            match r {
                Ok(es) => {
                    let picked = self.events().filter(
                        |e: AgentEventView| e.feature_id == Some(feature_id@),
                    );
                    es@.map_values(|e: AgentEvent| e@) == latest_first(picked).take(
                        clip_limit(limit, picked.len()),
                    )
                },
                Err(_) => false,
            },
    {
        let mut matches: Vec<AgentEvent> = Vec::new();
        let ghost pred = |e: AgentEventView| e.feature_id == Some(feature_id@);
        let mut i: usize = 0;
        while i < self.events.len()
            invariant
                i <= self.events@.len(),
                matches@.map_values(|e: AgentEvent| e@) == self.events().take(i as int).filter(
                    pred,
                ),
                pred == (|e: AgentEventView| e.feature_id == Some(feature_id@)),
            decreases self.events@.len() - i,
        {
            let keep: bool = match &self.events[i].feature_id {
                Some(f) => str_eq(f.as_str(), feature_id),
                None => false,
            };
            if keep {
                matches.push(self.events[i].duplicate());
            }
            proof {
                assert(self.events().take(i + 1).drop_last() =~= self.events().take(i as int));
                assert(self.events().take(i + 1).last() == self.events()[i as int]);
                reveal_with_fuel(Seq::filter, 2);
                assert(matches@.map_values(|e: AgentEvent| e@) =~= self.events().take(i + 1).filter(
                    pred,
                ));
            }
            i += 1;
        }
        proof {
            assert(self.events().take(self.events().len() as int) =~= self.events());
        }
        let picked_len: usize = matches.len();
        let cap: usize = if limit < 0 || (limit as u64) >= (picked_len as u64) {
            picked_len
        } else {
            limit as usize
        };
        let mut r: Vec<AgentEvent> = Vec::new();
        let mut taken: usize = 0;
        while taken < cap
            invariant
                cap <= picked_len,
                picked_len == matches@.len(),
                taken <= cap,
                r@.len() == taken,
                forall|t: int|
                    0 <= t < taken ==> r@[t]@ == matches@[picked_len - 1 - t]@,
            decreases cap - taken,
        {
            r.push(matches[picked_len - 1 - taken].duplicate());
            taken += 1;
        }
        proof {
            let picked = self.events().filter(pred);
            assert(r@.map_values(|e: AgentEvent| e@) =~= latest_first(picked).take(
                clip_limit(limit, picked.len()),
            ));
        }
        Ok(r)
    }

    /// The most recent `limit` events not linked to any feature, optionally
    /// restricted to one project, latest first.
    pub fn get_unlinked_events(&self, project_dir: Option<&str>, limit: i64) -> (r: Result<
        Vec<AgentEvent>,
        CacheError,
    >)
        ensures
            match r {
                Ok(es) => {
                    let picked = self.events().filter(
                        |e: AgentEventView| e.feature_id is None && (match project_dir {
                            Some(dir) => e.project_dir == dir@,
                            None => true,
                        }),
                    );
                    es@.map_values(|e: AgentEvent| e@) == latest_first(picked).take(
                        clip_limit(limit, picked.len()),
                    )
                },
                Err(_) => false,
            },
    {
        let mut matches: Vec<AgentEvent> = Vec::new();
        let ghost pred = |e: AgentEventView| e.feature_id is None && (match project_dir {
            Some(dir) => e.project_dir == dir@,
            None => true,
        });
        let mut i: usize = 0;
        while i < self.events.len()
            invariant
                i <= self.events@.len(),
                matches@.map_values(|e: AgentEvent| e@) == self.events().take(i as int).filter(
                    pred,
                ),
                pred == (|e: AgentEventView| e.feature_id is None && (match project_dir {
                    Some(dir) => e.project_dir == dir@,
                    None => true,
                })),
            decreases self.events@.len() - i,
        {
            let unlinked: bool = self.events[i].feature_id.is_none();
            let keep: bool = if unlinked {
                match project_dir {
                    Some(dir) => str_eq(self.events[i].project_dir.as_str(), dir),
                    None => true,
                }
            } else {
                false
            };
            if keep {
                matches.push(self.events[i].duplicate());
            }
            proof {
                assert(self.events().take(i + 1).drop_last() =~= self.events().take(i as int));
                assert(self.events().take(i + 1).last() == self.events()[i as int]);
                reveal_with_fuel(Seq::filter, 2);
                assert(matches@.map_values(|e: AgentEvent| e@) =~= self.events().take(
                    i + 1,
                ).filter(pred));
            }
            i += 1;
        }
        proof {
            assert(self.events().take(self.events().len() as int) =~= self.events());
        }
        let picked_len: usize = matches.len();
        let cap: usize = if limit < 0 || (limit as u64) >= (picked_len as u64) {
            picked_len
        } else {
            limit as usize
        };
        let mut r: Vec<AgentEvent> = Vec::new();
        let mut taken: usize = 0;
        while taken < cap
            invariant
                cap <= picked_len,
                picked_len == matches@.len(),
                taken <= cap,
                r@.len() == taken,
                forall|t: int|
                    0 <= t < taken ==> r@[t]@ == matches@[picked_len - 1 - t]@,
            decreases cap - taken,
        {
            r.push(matches[picked_len - 1 - taken].duplicate());
            taken += 1;
        }
        proof {
            let picked = self.events().filter(pred);
            assert(r@.map_values(|e: AgentEvent| e@) =~= latest_first(picked).take(
                clip_limit(limit, picked.len()),
            ));
        }
        Ok(r)
    }

    /// Link the event with the given id to a feature. `Ok(true)` exactly
    /// when an event with that id exists; otherwise nothing changes.
    pub fn link_event_to_feature(&mut self, event_id: i64, feature_id: &str) -> (r: Result<
        bool,
        CacheError,
    >)
        requires
            old(self).wf(),
        ensures
            final(self).wf(),
            final(self).features() == old(self).features(),
            final(self).sessions() == old(self).sessions(),
            final(self).config_saved() == old(self).config_saved(),
            final(self).next_id() == old(self).next_id(),
            match r {
                Ok(found) => match find_event(old(self).events(), event_id) {
                    Some(i) => found && final(self).events() == old(self).events().update(
                        i,
                        with_feature(old(self).events()[i], feature_id@),
                    ),
                    None => !found && final(self).events() == old(self).events(),
                },
                Err(_) => false,
            },
    {
        proof {
            lemma_find_event(self.events(), event_id);
        }
        let mut i: usize = 0;
        while i < self.events.len()
            invariant
                old(self).wf(),
                *self == *old(self),
                i <= self.events@.len(),
                forall|j: int| 0 <= j < i ==> (#[trigger] self.events()[j]).id != Some(event_id),
            decreases self.events@.len() - i,
        {
            let hit: bool = match self.events[i].id {
                Some(id) => id == event_id,
                None => false,
            };
            if hit {
                proof {
                    assert(self.events()[i as int] == self.events@[i as int]@);
                    lemma_find_event(self.events(), event_id);
                    let k = find_event(old(self).events(), event_id).unwrap();
                    assert(k == i as int);
                    lemma_events_wf_update(
                        old(self).events(),
                        old(self).next_id(),
                        i as int,
                        with_feature(old(self).events()[i as int], feature_id@),
                    );
                }
                let mut e: AgentEvent = self.events[i].duplicate();
                e.feature_id = Some(feature_id.to_owned());
                self.events.set(i, e);
                proof {
                    assert(self.events() =~= old(self).events().update(
                        i as int,
                        with_feature(old(self).events()[i as int], feature_id@),
                    ));
                }
                return Ok(true);
            }
            i += 1;
        }
        proof {
            assert(self.events() =~= old(self).events());
        }
        Ok(false)
    }

    /// Upsert one feature, keyed by feature id.
    fn upsert_feature(&mut self, f: Feature)
        requires
            old(self).wf(),
        ensures
            final(self).wf(),
            final(self).events() == old(self).events(),
            final(self).sessions() == old(self).sessions(),
            final(self).config_saved() == old(self).config_saved(),
            final(self).next_id() == old(self).next_id(),
            final(self).features() == upsert_feature_spec(old(self).features(), f@),
    {
        proof {
            lemma_find_feature(self.features(), f@.id);
        }
        let mut i: usize = 0;
        while i < self.features.len()
            invariant
                old(self).wf(),
                *self == *old(self),
                i <= self.features@.len(),
                forall|j: int| 0 <= j < i ==> (#[trigger] self.features()[j]).id != f@.id,
            decreases self.features@.len() - i,
        {
            if str_eq(self.features[i].id.as_str(), f.id.as_str()) {
                proof {
                    assert(self.features()[i as int] == self.features@[i as int]@);
                    assert(self.features()[i as int].id == f@.id);
                    lemma_find_feature(self.features(), f@.id);
                    let k = find_feature(old(self).features(), f@.id).unwrap();
                    assert(k == i as int);
                    lemma_feature_unique_update(old(self).features(), i as int, f@);
                }
                self.features.set(i, f);
                proof {
                    assert(self.features() =~= old(self).features().update(i as int, f@));
                }
                return ;
            }
            i += 1;
        }
        proof {
            lemma_find_feature(self.features(), f@.id);
            lemma_feature_unique_push(self.features(), f@);
        }
        self.features.push(f);
        proof {
            assert(self.features() =~= upsert_feature_spec(old(self).features(), f@));
        }
    }

    /// Store the given features, replacing by feature id and appending the
    /// new ones, in order.
    pub fn sync_features(&mut self, features: Vec<Feature>) -> (r: Result<(), CacheError>)
        requires
            old(self).wf(),
        ensures
            final(self).wf(),
            final(self).events() == old(self).events(),
            final(self).sessions() == old(self).sessions(),
            final(self).config_saved() == old(self).config_saved(),
            final(self).next_id() == old(self).next_id(),
            r is Ok,
            final(self).features() == upsert_all(
                old(self).features(),
                features@.map_values(|f: Feature| f@),
            ),
    {
        let ghost news = features@.map_values(|f: Feature| f@);
        let mut i: usize = 0;
        while i < features.len()
            invariant
                old(self).wf(),
                self.wf(),
                i <= features@.len(),
                news == features@.map_values(|f: Feature| f@),
                self.events() == old(self).events(),
                self.sessions() == old(self).sessions(),
                self.config_saved() == old(self).config_saved(),
                self.next_id() == old(self).next_id(),
                self.features() == upsert_all(old(self).features(), news.take(i as int)),
            decreases features@.len() - i,
        {
            self.upsert_feature(features[i].duplicate());
            proof {
                assert(news.take(i + 1).drop_last() =~= news.take(i as int));
                assert(news.take(i + 1).last() == news[i as int]);
            }
            i += 1;
        }
        proof {
            assert(news.take(news.len() as int) =~= news);
        }
        Ok(())
    }

    /// The features of one project, or all of them, in stored order:
    /// first-upsert position, kept across replacements. This order is
    /// stated deliberately — a lexicographic sort of the positional id
    /// strings would put `p:10` before `p:2` — and the contract pins the
    /// exact sequence.
    pub fn get_features(&self, project_dir: Option<&str>) -> (r: Result<Vec<Feature>, CacheError>)
        ensures
            match r {
                Ok(fs) => fs@.map_values(|f: Feature| f@) == match project_dir {
                    Some(dir) => self.features().filter(
                        |f: FeatureView| f.project_dir == dir@,
                    ),
                    None => self.features(),
                },
                Err(_) => false,
            },
    {
        let mut r: Vec<Feature> = Vec::new();
        match project_dir {
            Some(dir) => {
                let ghost pred = |f: FeatureView| f.project_dir == dir@;
                let mut i: usize = 0;
                while i < self.features.len()
                    invariant
                        i <= self.features@.len(),
                        pred == (|f: FeatureView| f.project_dir == dir@),
                        r@.map_values(|f: Feature| f@) == self.features().take(i as int).filter(
                            pred,
                        ),
                    decreases self.features@.len() - i,
                {
                    if str_eq(self.features[i].project_dir.as_str(), dir) {
                        r.push(self.features[i].duplicate());
                    }
                    proof {
                        assert(self.features().take(i + 1).drop_last() =~= self.features().take(
                            i as int,
                        ));
                        assert(self.features().take(i + 1).last() == self.features()[i as int]);
                        reveal_with_fuel(Seq::filter, 2);
                        assert(r@.map_values(|f: Feature| f@) =~= self.features().take(
                            i + 1,
                        ).filter(pred));
                    }
                    i += 1;
                }
                proof {
                    assert(self.features().take(self.features().len() as int)
                        =~= self.features());
                }
            },
            None => {
                let mut i: usize = 0;
                while i < self.features.len()
                    invariant
                        i <= self.features@.len(),
                        r@.len() == i,
                        forall|j: int| 0 <= j < i ==> r@[j]@ == self.features()[j],
                    decreases self.features@.len() - i,
                {
                    r.push(self.features[i].duplicate());
                    i += 1;
                }
                proof {
                    assert(r@.map_values(|f: Feature| f@) =~= self.features());
                }
            },
        }
        Ok(r)
    }

    /// The sessions currently active, most recent activity first —
    /// the display order — with equal stamps kept in stored order, so the
    /// sequence is pinned exactly.
    pub fn get_sessions(&self) -> (r: Result<Vec<Session>, CacheError>)
        ensures
            match r {
                Ok(ss) => ss@.map_values(|s: Session| s@) == sort_by_activity(
                    self.sessions().filter(|s: SessionView| s.status == "active"@),
                ),
                Err(_) => false,
            },
    {
        let ghost pred = |s: SessionView| s.status == "active"@;
        let mut actives: Vec<Session> = Vec::new();
        let mut i: usize = 0;
        while i < self.sessions.len()
            invariant
                i <= self.sessions@.len(),
                pred == (|s: SessionView| s.status == "active"@),
                actives@.map_values(|s: Session| s@) == self.sessions().take(i as int).filter(
                    pred,
                ),
            decreases self.sessions@.len() - i,
        {
            if str_eq(self.sessions[i].status.as_str(), "active") {
                actives.push(self.sessions[i].duplicate());
            }
            proof {
                assert(self.sessions().take(i + 1).drop_last() =~= self.sessions().take(i as int));
                assert(self.sessions().take(i + 1).last() == self.sessions()[i as int]);
                reveal_with_fuel(Seq::filter, 2);
                assert(actives@.map_values(|s: Session| s@) =~= self.sessions().take(
                    i + 1,
                ).filter(pred));
            }
            i += 1;
        }
        proof {
            assert(self.sessions().take(self.sessions().len() as int) =~= self.sessions());
        }
        let ghost filtered = self.sessions().filter(pred);
        let mut r: Vec<Session> = Vec::new();
        let mut i: usize = 0;
        while i < actives.len()
            invariant
                i <= actives@.len(),
                actives@.map_values(|s: Session| s@) == filtered,
                r@.map_values(|s: Session| s@) == sort_by_activity(filtered.take(i as int)),
            decreases actives@.len() - i,
        {
            let ghost rv = r@.map_values(|s: Session| s@);
            let ghost sv = actives@[i as int]@;
            let mut p: usize = 0;
            loop
                invariant
                    p <= r@.len(),
                    rv == r@.map_values(|s: Session| s@),
                    sv == actives@[i as int]@,
                    i < actives@.len(),
                    forall|k: int|
                        0 <= k < p ==> crate::text::lex_le(
                            sv.last_activity,
                            (#[trigger] rv[k]).last_activity,
                        ),
                ensures
                    p <= r@.len(),
                    forall|k: int|
                        0 <= k < p ==> crate::text::lex_le(
                            sv.last_activity,
                            (#[trigger] rv[k]).last_activity,
                        ),
                    p == r@.len() || !crate::text::lex_le(
                        sv.last_activity,
                        rv[p as int].last_activity,
                    ),
                decreases r@.len() - p,
            {
                if p == r.len() {
                    break ;
                }
                if !crate::text::str_lex_le(
                    actives[i].last_activity.as_str(),
                    r[p].last_activity.as_str(),
                ) {
                    proof {
                        assert(rv[p as int] == r@[p as int]@);
                    }
                    break ;
                }
                p += 1;
            }
            r.insert(p, actives[i].duplicate());
            proof {
                lemma_insert_by_activity_at(rv, sv, p as int);
                assert(r@.map_values(|s: Session| s@) =~= insert_by_activity(rv, sv));
                assert(filtered.take(i + 1).drop_last() =~= filtered.take(i as int));
                assert(filtered.take(i + 1).last() == filtered[i as int]);
                assert(filtered[i as int] == sv);
                assert(r@.map_values(|s: Session| s@) =~= sort_by_activity(
                    filtered.take(i + 1),
                ));
            }
            i += 1;
        }
        proof {
            assert(filtered.take(filtered.len() as int) =~= filtered);
        }
        Ok(r)
    }

    /// Insert or replace one session, keyed by session id.
    pub fn upsert_session(&mut self, session: &Session) -> (r: Result<(), CacheError>)
        requires
            old(self).wf(),
        ensures
            final(self).wf(),
            final(self).events() == old(self).events(),
            final(self).features() == old(self).features(),
            final(self).config_saved() == old(self).config_saved(),
            final(self).next_id() == old(self).next_id(),
            r is Ok,
            final(self).sessions() == upsert_session_spec(old(self).sessions(), session@),
    {
        proof {
            lemma_find_session(self.sessions(), session@.session_id);
        }
        let mut i: usize = 0;
        while i < self.sessions.len()
            invariant
                old(self).wf(),
                *self == *old(self),
                i <= self.sessions@.len(),
                forall|j: int|
                    0 <= j < i ==> (#[trigger] self.sessions()[j]).session_id
                        != session@.session_id,
            decreases self.sessions@.len() - i,
        {
            if str_eq(self.sessions[i].session_id.as_str(), session.session_id.as_str()) {
                proof {
                    assert(self.sessions()[i as int] == self.sessions@[i as int]@);
                    assert(self.sessions()[i as int].session_id == session@.session_id);
                    lemma_find_session(self.sessions(), session@.session_id);
                    let k = find_session(old(self).sessions(), session@.session_id).unwrap();
                    assert(k == i as int);
                    lemma_session_unique_update(old(self).sessions(), i as int, session@);
                }
                self.sessions.set(i, session.duplicate());
                proof {
                    assert(self.sessions() =~= old(self).sessions().update(i as int, session@));
                }
                return Ok(());
            }
            i += 1;
        }
        proof {
            lemma_find_session(self.sessions(), session@.session_id);
            lemma_session_unique_push(self.sessions(), session@);
        }
        self.sessions.push(session.duplicate());
        proof {
            assert(self.sessions() =~= upsert_session_spec(old(self).sessions(), session@));
        }
        Ok(())
    }

    /// Set the status of the session with the given id, if present, and
    /// stamp its last activity.
    pub fn update_session_status(&mut self, session_id: &str, status: &str, now: &str) -> (r:
        Result<(), CacheError>)
        requires
            old(self).wf(),
        ensures
            final(self).wf(),
            final(self).events() == old(self).events(),
            final(self).features() == old(self).features(),
            final(self).config_saved() == old(self).config_saved(),
            final(self).next_id() == old(self).next_id(),
            r is Ok,
            match find_session(old(self).sessions(), session_id@) {
                Some(i) => final(self).sessions() == old(self).sessions().update(
                    i,
                    SessionView {
                        status: status@,
                        last_activity: now@,
                        ..old(self).sessions()[i]
                    },
                ),
                None => final(self).sessions() == old(self).sessions(),
            },
    {
        proof {
            lemma_find_session(self.sessions(), session_id@);
        }
        let mut i: usize = 0;
        while i < self.sessions.len()
            invariant
                old(self).wf(),
                *self == *old(self),
                i <= self.sessions@.len(),
                forall|j: int|
                    0 <= j < i ==> (#[trigger] self.sessions()[j]).session_id != session_id@,
            decreases self.sessions@.len() - i,
        {
            if str_eq(self.sessions[i].session_id.as_str(), session_id) {
                proof {
                    assert(self.sessions()[i as int] == self.sessions@[i as int]@);
                    assert(self.sessions()[i as int].session_id == session_id@);
                    lemma_find_session(self.sessions(), session_id@);
                    let k = find_session(old(self).sessions(), session_id@).unwrap();
                    assert(k == i as int);
                    lemma_session_unique_update(
                        old(self).sessions(),
                        i as int,
                        SessionView {
                            status: status@,
                            last_activity: now@,
                            ..old(self).sessions()[i as int]
                        },
                    );
                }
                let mut s: Session = self.sessions[i].duplicate();
                s.status = status.to_owned();
                s.last_activity = now.to_owned();
                self.sessions.set(i, s);
                proof {
                    let k = find_session(old(self).sessions(), session_id@).unwrap();
                    assert(self.sessions() =~= old(self).sessions().update(
                        k,
                        SessionView {
                            status: status@,
                            last_activity: now@,
                            ..old(self).sessions()[k]
                        },
                    ));
                }
                return Ok(());
            }
            i += 1;
        }
        proof {
            assert(self.sessions() =~= old(self).sessions());
        }
        Ok(())
    }

    /// The project directory of the session with the given id, if the
    /// session is known.
    pub fn session_project_dir(&self, session_id: &str) -> (r: Option<String>)
        ensures
            match find_session(self.sessions(), session_id@) {
                Some(i) => match r {
                    Some(dir) => dir@ == self.sessions()[i].project_dir,
                    None => false,
                },
                None => r is None,
            },
    {
        proof {
            lemma_find_session(self.sessions(), session_id@);
        }
        let mut i: usize = 0;
        while i < self.sessions.len()
            invariant
                i <= self.sessions@.len(),
                forall|j: int|
                    0 <= j < i ==> (#[trigger] self.sessions()[j]).session_id != session_id@,
            decreases self.sessions@.len() - i,
        {
            if str_eq(self.sessions[i].session_id.as_str(), session_id) {
                proof {
                    assert(self.sessions()[i as int] == self.sessions@[i as int]@);
                    lemma_find_session(self.sessions(), session_id@);
                    let k = find_session(self.sessions(), session_id@).unwrap();
                    assert(k == i as int);
                }
                return Some(self.sessions[i].project_dir.clone());
            }
            i += 1;
        }
        None
    }

    /// Aggregate counts: all features, the completed, the in-progress but
    /// not completed, and the active sessions; `percentage` is the completed
    /// share in whole percent, rounded down (0 of an empty feature set).
    pub fn get_stats(&self) -> (r: Result<Stats, CacheError>)
        ensures
            match r {
                Ok(stats) => {
                    let total = self.features().len();
                    let completed = self.features().filter(|f: FeatureView| f.passes).len();
                    let in_progress = self.features().filter(
                        |f: FeatureView| f.in_progress && !f.passes,
                    ).len();
                    let active = self.sessions().filter(
                        |s: SessionView| s.status == "active"@,
                    ).len();
                    &&& stats.total == total
                    &&& stats.completed == completed
                    &&& stats.in_progress == in_progress
                    &&& stats.active_sessions == active
                    &&& stats.percentage == if total > 0 {
                        100 * (completed as int) / (total as int)
                    } else {
                        0
                    }
                },
                Err(_) => false,
            },
    {
        let ghost pass_pred = |f: FeatureView| f.passes;
        let ghost prog_pred = |f: FeatureView| f.in_progress && !f.passes;
        let ghost act_pred = |s: SessionView| s.status == "active"@;
        let total: usize = self.features.len();
        let mut completed: usize = 0;
        let mut in_progress: usize = 0;
        let mut i: usize = 0;
        while i < self.features.len()
            invariant
                i <= self.features@.len(),
                pass_pred == (|f: FeatureView| f.passes),
                prog_pred == (|f: FeatureView| f.in_progress && !f.passes),
                completed == self.features().take(i as int).filter(pass_pred).len(),
                in_progress == self.features().take(i as int).filter(prog_pred).len(),
                completed <= i,
                in_progress <= i,
            decreases self.features@.len() - i,
        {
            proof {
                assert(self.features().take(i + 1).drop_last() =~= self.features().take(i as int));
                assert(self.features().take(i + 1).last() == self.features()[i as int]);
                reveal_with_fuel(Seq::filter, 2);
                assert(self.features().take(i as int).filter(pass_pred).len() <= self.features()
                    .take(i as int).len()) by {
                    self.features().take(i as int).lemma_filter_len(pass_pred);
                };
                assert(self.features().take(i as int).filter(prog_pred).len() <= self.features()
                    .take(i as int).len()) by {
                    self.features().take(i as int).lemma_filter_len(prog_pred);
                };
            }
            if self.features[i].passes {
                completed += 1;
            }
            if self.features[i].in_progress && !self.features[i].passes {
                in_progress += 1;
            }
            i += 1;
        }
        proof {
            assert(self.features().take(total as int) =~= self.features());
        }
        let ghost _ = 0int;
        let mut active: usize = 0;
        let mut k: usize = 0;
        while k < self.sessions.len()
            invariant
                k <= self.sessions@.len(),
                act_pred == (|s: SessionView| s.status == "active"@),
                active == self.sessions().take(k as int).filter(act_pred).len(),
                active <= k,
            decreases self.sessions@.len() - k,
        {
            proof {
                assert(self.sessions().take(k + 1).drop_last() =~= self.sessions().take(k as int));
                assert(self.sessions().take(k + 1).last() == self.sessions()[k as int]);
                reveal_with_fuel(Seq::filter, 2);
                assert(self.sessions().take(k as int).filter(act_pred).len() <= self.sessions()
                    .take(k as int).len()) by {
                    self.sessions().take(k as int).lemma_filter_len(act_pred);
                };
            }
            if str_eq(self.sessions[k].status.as_str(), "active") {
                active += 1;
            }
            k += 1;
        }
        proof {
            assert(self.sessions().take(self.sessions().len() as int) =~= self.sessions());
        }
        let percentage: u64 = if total > 0 {
            (((100u128) * (completed as u128)) / (total as u128)) as u64
        } else {
            0
        };
        proof {
            if total > 0 {
                assert((100 * (completed as int)) / (total as int) <= 100) by (nonlinear_arith)
                    requires
                        0 < total as int,
                        0 <= completed as int <= total as int,
                ;
            }
        }
        Ok(
            Stats {
                total: total as u64,
                completed: completed as u64,
                in_progress: in_progress as u64,
                percentage,
                active_sessions: active as u64,
            },
        )
    }

    /// The saved configuration, or the default when none was saved.
    pub fn get_config(&self) -> (r: Result<Config, CacheError>)
        ensures
            match r {
                Ok(c) => c@ == self.config_now(),
                Err(_) => false,
            },
    {
        match &self.config {
            Some(c) => Ok(c.duplicate()),
            None => Ok(Config::default()),
        }
    }

    /// Save the configuration record.
    pub fn save_config(&mut self, config: &Config) -> (r: Result<(), CacheError>)
        requires
            old(self).wf(),
        ensures
            final(self).wf(),
            final(self).events() == old(self).events(),
            final(self).features() == old(self).features(),
            final(self).sessions() == old(self).sessions(),
            final(self).next_id() == old(self).next_id(),
            r is Ok,
            final(self).config_saved() == Some(config@),
    {
        self.config = Some(config.duplicate());
        Ok(())
    }

    /// The distinct project directories of the stored features, sorted.
    pub fn get_projects(&self) -> (r: Result<Vec<String>, CacheError>)
        ensures
            match r {
                Ok(ps) => crate::text::strictly_sorted(crate::text::string_views(ps@)) && (
                forall|d: Seq<char>|
                    #[trigger] crate::text::string_views(ps@).contains(d) == exists|i: int|
                        0 <= i < self.features().len() && (#[trigger] self.features()[
                            i
                        ]).project_dir == d),
                Err(_) => false,
            },
    {
        let mut dirs: Vec<String> = Vec::new();
        let mut i: usize = 0;
        while i < self.features.len()
            invariant
                i <= self.features@.len(),
                dirs@.len() == i,
                forall|j: int|
                    0 <= j < i ==> crate::text::string_views(dirs@)[j] == (
                    #[trigger] self.features()[j]).project_dir,
            decreases self.features@.len() - i,
        {
            dirs.push(self.features[i].project_dir.clone());
            i += 1;
        }
        let sorted: Vec<String> = crate::text::sort_dedup_strings(&dirs);
        proof {
            assert forall|d: Seq<char>|
                #[trigger] crate::text::string_views(sorted@).contains(d) == (exists|k: int|
                    0 <= k < self.features().len() && (#[trigger] self.features()[
                        k
                    ]).project_dir == d) by {
                if crate::text::string_views(dirs@).contains(d) {
                    let w = choose|w: int|
                        0 <= w < crate::text::string_views(dirs@).len()
                            && #[trigger] crate::text::string_views(dirs@)[w] == d;
                    assert(self.features()[w].project_dir == d);
                }
                if exists|k: int|
                    0 <= k < self.features().len() && (#[trigger] self.features()[
                        k
                    ]).project_dir == d {
                    let k = choose|k: int|
                        0 <= k < self.features().len() && (#[trigger] self.features()[
                            k
                        ]).project_dir == d;
                    assert(crate::text::string_views(dirs@)[k] == d);
                    assert(crate::text::string_views(dirs@).contains(d));
                }
            }
        }
        Ok(sorted)
    }

    /// Add `project_dir` to the watched projects unless already present.
    /// `Ok(true)` exactly when it was added.
    pub fn add_watched_project(&mut self, project_dir: &str) -> (r: Result<bool, CacheError>)
        requires
            old(self).wf(),
        ensures
            final(self).wf(),
            final(self).events() == old(self).events(),
            final(self).features() == old(self).features(),
            final(self).sessions() == old(self).sessions(),
            final(self).next_id() == old(self).next_id(),
            match r {
                Ok(added) => {
                    &&& added == !old(self).config_now().watched_projects.contains(project_dir@)
                    &&& if added {
                        final(self).config_saved() == Some(
                            ConfigView {
                                watched_projects: old(self).config_now().watched_projects.push(
                                    project_dir@,
                                ),
                                ..old(self).config_now()
                            },
                        )
                    } else {
                        final(self).config_saved() == old(self).config_saved()
                    }
                },
                Err(_) => false,
            },
    {
        let current: Config = match self.get_config() {
            Ok(c) => c,
            Err(e) => {
                return Err(e);
            },
        };
        let mut i: usize = 0;
        let n: usize = current.watched_projects.len();
        while i < n
            invariant
                n == current.watched_projects@.len(),
                i <= n,
                forall|j: int| 0 <= j < i ==> current@.watched_projects[j] != project_dir@,
                current@ == old(self).config_now(),
                old(self).wf(),
                *self == *old(self),
            decreases n - i,
        {
            if str_eq(current.watched_projects[i].as_str(), project_dir) {
                proof {
                    assert(current@.watched_projects[i as int] == project_dir@);
                    assert(old(self).config_now().watched_projects.contains(project_dir@));
                }
                return Ok(false);
            }
            i += 1;
        }
        proof {
            assert(!old(self).config_now().watched_projects.contains(project_dir@));
        }
        let mut updated: Config = current;
        updated.watched_projects.push(project_dir.to_owned());
        let save_result = self.save_config(&updated);
        match save_result {
            Ok(_) => {
                proof {
                    assert(updated@.watched_projects =~= old(self).config_now()
                        .watched_projects.push(project_dir@));
                }
                Ok(true)
            },
            Err(e) => Err(e),
        }
    }
}

} // verus!
