//! Filesystem change events and the on-demand watcher registry.
//!
//! The registry keeps, per watched directory, who subscribes to it and
//! when it was last active. Arming and dropping the actual OS watchers is
//! the caller's part: the registry says when a watcher is needed and when
//! one may go.
use vstd::prelude::*;

use crate::conn::unix_secs;
use crate::error::{text_of, QshareError};
use crate::paths::{components_of, path_text, path_text_of, split_components, views};
use crate::sandbox::{find_parent_segment, has_parent_segment, relative_url, under_root, url_of_components};
use crate::table::KeyedTable;
use dashmap::DashMap;
use crate::text::{chars_vec, count_leading, push_str, string_from_chars, sub_vec, trim_start_char};

verus! {

broadcast use vstd::string::group_string_axioms;

/// How long a watched directory with zero subscribers may linger before
/// the sweeper drops it (seconds).
pub const WATCH_TTL_SECS: u64 = 30;

/// One filesystem change. Paths are URL paths relative to the shared root.
#[derive(Debug, Clone)]
pub enum FsChange {
    Created { path: String, is_dir: bool, ts: u64 },
    Modified { path: String, is_dir: bool, ts: u64 },
    Removed { path: String, is_dir: bool, ts: u64 },
    Renamed { from: String, to: String, ts: u64 },
}

impl FsChange {
    pub open spec fn ts_of(self) -> u64 {
        match self {
            FsChange::Created { ts, .. } => ts,
            FsChange::Modified { ts, .. } => ts,
            FsChange::Removed { ts, .. } => ts,
            FsChange::Renamed { ts, .. } => ts,
        }
    }

    pub fn ts(&self) -> (r: u64)
        ensures
            r == self.ts_of(),
    {
        match self {
            FsChange::Created { ts, .. } => *ts,
            FsChange::Modified { ts, .. } => *ts,
            FsChange::Removed { ts, .. } => *ts,
            FsChange::Renamed { ts, .. } => *ts,
        }
    }
}

/// A filesystem change observed and debounced by the watcher: one change,
/// or the batch of changes of a single debounce window.
#[derive(Debug, Clone)]
pub enum FsEvent {
    Created { path: String, is_dir: bool, ts: u64 },
    Modified { path: String, is_dir: bool, ts: u64 },
    Removed { path: String, is_dir: bool, ts: u64 },
    Renamed { from: String, to: String, ts: u64 },
    /// Batch of events fired in a single debounce window.
    Batch(Vec<FsChange>),
}

/// Timestamp of an event: its own, or for a batch that of its last change;
/// `fallback` for an empty batch.
pub open spec fn event_ts(e: FsEvent, fallback: u64) -> u64 {
    match e {
        FsEvent::Created { ts, .. } => ts,
        FsEvent::Modified { ts, .. } => ts,
        FsEvent::Removed { ts, .. } => ts,
        FsEvent::Renamed { ts, .. } => ts,
        FsEvent::Batch(v) => if v@.len() == 0 {
            fallback
        } else {
            v@.last().ts_of()
        },
    }
}

impl FsEvent {
    /// Timestamp, with `fallback` standing for an empty batch.
    pub fn ts_or(&self, fallback: u64) -> (r: u64)
        ensures
            r == event_ts(*self, fallback),
    {
        match self {
            FsEvent::Created { ts, .. } => *ts,
            FsEvent::Modified { ts, .. } => *ts,
            FsEvent::Removed { ts, .. } => *ts,
            FsEvent::Renamed { ts, .. } => *ts,
            FsEvent::Batch(events) => {
                let n = events.len();
                if n == 0 {
                    fallback
                } else {
                    events[n - 1].ts()
                }
            },
        }
    }

    /// Timestamp; an empty batch reads the clock.
    pub fn ts(&self) -> (r: u64)
        ensures
            !(*self matches FsEvent::Batch(v) && v@.len() == 0) ==> r == event_ts(*self, 0),
    {
        let empty_batch = match self {
            FsEvent::Batch(events) => events.len() == 0,
            _ => false,
        };
        if empty_batch {
            now_secs()
        } else {
            self.ts_or(0)
        }
    }
}

/// Seconds since the Unix epoch.
pub fn now_secs() -> u64 {
    unix_secs()
}

/// What the notify layer reported, as far as event conversion cares.
#[derive(Debug, Clone, Copy, PartialEq, Eq, Structural)]
pub enum WatchEventKind {
    Create,
    /// A rename's source side.
    RenameFrom,
    /// A rename's destination side.
    RenameTo,
    /// Any other modification.
    Modify,
    Remove,
    /// Access and other kinds that are not forwarded.
    Other,
}

/// URL path of `abs` relative to `root`, when it lies under it.
pub fn abs_to_url(abs: &Vec<String>, root: &Vec<String>) -> (r: Option<String>)
    ensures
        r is Some <==> under_root(root@, abs@),
        r matches Some(u) ==> u@ == url_of_components(abs@.skip(root@.len() as int)),
{
    relative_url(root, abs)
}

/// Converts one observed change of path `abs` into the event sent to
/// clients: renames split into removal and creation, other kinds dropped,
/// paths outside the root dropped.
pub fn convert(kind: WatchEventKind, abs: &Vec<String>, root: &Vec<String>, is_dir: bool, ts: u64) -> (r:
    Option<FsChange>)
    ensures
        r is Some <==> (under_root(root@, abs@) && kind != WatchEventKind::Other),
        r matches Some(e) ==> match kind {
            WatchEventKind::Create | WatchEventKind::RenameTo => e matches FsChange::Created {
                path,
                is_dir: d,
                ts: t,
            } && path@ == url_of_components(abs@.skip(root@.len() as int)) && d == is_dir && t
                == ts,
            WatchEventKind::RenameFrom | WatchEventKind::Remove => e matches FsChange::Removed {
                path,
                is_dir: d,
                ts: t,
            } && path@ == url_of_components(abs@.skip(root@.len() as int)) && d == is_dir && t
                == ts,
            WatchEventKind::Modify => e matches FsChange::Modified { path, is_dir: d, ts: t }
                && path@ == url_of_components(abs@.skip(root@.len() as int)) && d == is_dir && t
                == ts,
            WatchEventKind::Other => false,
        },
{
    let url = match abs_to_url(abs, root) {
        None => {
            return None;
        },
        Some(u) => u,
    };
    match kind {
        WatchEventKind::Create | WatchEventKind::RenameTo => Some(
            FsChange::Created { path: url, is_dir, ts },
        ),
        WatchEventKind::RenameFrom | WatchEventKind::Remove => Some(
            FsChange::Removed { path: url, is_dir, ts },
        ),
        WatchEventKind::Modify => Some(FsChange::Modified { path: url, is_dir, ts }),
        WatchEventKind::Other => None,
    }
}

/// One change as the notify layer reported it: its kind, the absolute
/// path (as components), and whether that path is a directory.
#[derive(Debug, Clone)]
pub struct ObservedChange {
    pub kind: WatchEventKind,
    pub path: Vec<String>,
    pub is_dir: bool,
}

/// The change is forwarded: it is under the root and of a kind clients
/// hear about.
pub open spec fn forwarded(o: ObservedChange, root: Seq<String>) -> bool {
    under_root(root, o.path@) && o.kind != WatchEventKind::Other
}

/// The forwarded changes, in order.
pub open spec fn forwarded_changes(obs: Seq<ObservedChange>, root: Seq<String>) -> Seq<ObservedChange>
    decreases obs.len(),
{
    if obs.len() == 0 {
        Seq::empty()
    } else {
        let rest = forwarded_changes(obs.drop_last(), root);
        if forwarded(obs.last(), root) {
            rest.push(obs.last())
        } else {
            rest
        }
    }
}

/// `e` is what clients are told of change `o` at `ts`.
pub open spec fn converted(o: ObservedChange, root: Seq<String>, ts: u64, e: FsChange) -> bool {
    let url = url_of_components(o.path@.skip(root.len() as int));
    match o.kind {
        WatchEventKind::Create | WatchEventKind::RenameTo => e matches FsChange::Created { path, is_dir, ts: t }
            && path@ == url && is_dir == o.is_dir && t == ts,
        WatchEventKind::RenameFrom | WatchEventKind::Remove => e matches FsChange::Removed { path, is_dir, ts: t }
            && path@ == url && is_dir == o.is_dir && t == ts,
        WatchEventKind::Modify => e matches FsChange::Modified { path, is_dir, ts: t } && path@ == url
            && is_dir == o.is_dir && t == ts,
        WatchEventKind::Other => false,
    }
}

/// The event one debounce window produces: the batch of its forwarded
/// changes, or nothing when none is forwarded.
pub fn batch_changes(observed: &Vec<ObservedChange>, root: &Vec<String>, ts: u64) -> (r: Option<FsEvent>)
    ensures
        r is Some <==> forwarded_changes(observed@, root@).len() > 0,
        r matches Some(ev) ==> (ev matches FsEvent::Batch(v) && v@.len() == forwarded_changes(observed@, root@).len()
            && forall|i: int| 0 <= i < v@.len() ==> converted(forwarded_changes(observed@, root@)[i], root@, ts, #[trigger] v@[i])),
{
    let mut batch: Vec<FsChange> = Vec::new();
    let mut i: usize = 0;
    while i < observed.len()
        invariant
            i <= observed@.len(),
            batch@.len() == forwarded_changes(observed@.take(i as int), root@).len(),
            forall|t: int| 0 <= t < batch@.len() ==> converted(forwarded_changes(observed@.take(i as int), root@)[t], root@, ts, #[trigger] batch@[t]),
        decreases observed@.len() - i,
    {
        assert(observed@.take(i + 1).drop_last() =~= observed@.take(i as int));
        assert(observed@.take(i + 1).last() == observed@[i as int]);
        let o = &observed[i];
        match convert(o.kind, &o.path, root, o.is_dir, ts) {
            Some(e) => {
                batch.push(e);
            },
            None => {},
        }
        i = i + 1;
    }
    assert(observed@.take(observed@.len() as int) =~= observed@);
    if batch.len() == 0 {
        None
    } else {
        Some(FsEvent::Batch(batch))
    }
}

/// Events announced on the watcher log channel.
#[derive(Debug, Clone)]
pub enum WatcherLog {
    Armed { path: String, recursive: bool, watcher_id: String, ts: u64 },
    Released { path: String, watcher_id: String, lifetime_secs: u64, ts: u64 },
}

/// One watched directory.
pub struct WatchEntry {
    pub id: String,
    /// Text of the watched absolute path.
    pub abs_path: String,
    pub recursive: bool,
    /// Ids of the subscribed connections.
    pub subs: KeyedTable<()>,
    /// When the entry was last subscribed to / unsubscribed from (ms).
    pub last_active_ms: u64,
}

/// What a subscription needs from the caller.
#[derive(Debug)]
pub enum SubscribePlan {
    /// The directory was already watched; the connection joined it.
    Joined { watcher_id: String },
    /// No watcher yet for the directory with this key: arm one, then call
    /// [`WatcherRegistry::add_watcher`].
    MustArm { key: String },
}

/// The key (absolute path text) a request path resolves to, or the
/// rejection of a path with a `..` segment.
pub open spec fn watch_key(root: Seq<String>, url_path: Seq<char>) -> Option<Seq<char>> {
    let t = trim_start_char(url_path, '/');
    if has_parent_segment(t) {
        None
    } else {
        Some(path_text(views(root) + components_of(t)))
    }
}

/// An entry may be released: nobody subscribes and it has been idle for
/// at least `WATCH_TTL_SECS` at `now_ms`.
pub open spec fn releasable(e: WatchEntry, now_ms: u64) -> bool {
    e.subs.view().dom().len() == 0 && now_ms >= e.last_active_ms && (now_ms - e.last_active_ms)
        / 1000 >= WATCH_TTL_SECS
}

/// The request path resolves to a directory that is watched.
pub open spec fn names_watched(m: Map<Seq<char>, WatchEntry>, root: Seq<String>, url_path: Seq<char>) -> bool {
    match watch_key(root, url_path) {
        Some(k) => m.contains_key(k),
        None => false,
    }
}

/// `after` is `before` with `conn` joined to the existing watcher of `k`,
/// marked active at `now_ms`.
pub open spec fn joined_watch(
    before: Map<Seq<char>, WatchEntry>,
    after: Map<Seq<char>, WatchEntry>,
    k: Seq<char>,
    conn: Seq<char>,
    now_ms: u64,
) -> bool {
    &&& before.contains_key(k)
    &&& after.dom() == before.dom()
    &&& after[k].subs.view().dom() == before[k].subs.view().dom().insert(conn)
    &&& after[k].last_active_ms == now_ms
    &&& after[k].id == before[k].id
    &&& after[k].abs_path == before[k].abs_path
    &&& after[k].recursive == before[k].recursive
    &&& forall|q: Seq<char>| q != k && #[trigger] before.contains_key(q) ==> after[q] == before[q]
}

/// `after` is `before` with a new watcher `id` for `k`, whose only
/// subscriber is `conn`, active at `now_ms`.
pub open spec fn armed_watch(
    before: Map<Seq<char>, WatchEntry>,
    after: Map<Seq<char>, WatchEntry>,
    k: Seq<char>,
    id: String,
    recursive: bool,
    conn: Seq<char>,
    now_ms: u64,
) -> bool {
    &&& !before.contains_key(k)
    &&& after.dom() == before.dom().insert(k)
    &&& after[k].id == id
    &&& after[k].abs_path@ == k
    &&& after[k].recursive == recursive
    &&& after[k].subs.view().dom() == set![conn]
    &&& after[k].last_active_ms == now_ms
    &&& forall|q: Seq<char>| q != k && #[trigger] before.contains_key(q) ==> after[q] == before[q]
}

/// The former single recursive watcher of the whole root, kept as a name
/// only: watching is per directory and on demand, through
/// [`WatcherRegistry`].
pub struct DebouncedWatcher;

/// `dashmap::DashMap`, the concurrent map the watched directories live in.
#[verifier::external_type_specification]
#[verifier::external_body]
#[verifier::reject_recursive_types(K)]
#[verifier::reject_recursive_types(V)]
#[verifier::reject_recursive_types(S)]
pub struct ExDashMap<K, V, S>(DashMap<K, V, S>);

/// The map the watched directories live in, by key.
pub type DirMap = DashMap<String, WatchEntry>;

/// The entries of a map of watched directories, by key.
pub uninterp spec fn dir_entries(m: DirMap) -> Map<Seq<char>, WatchEntry>;

/// Calls `DashMap::new()`: an empty map.
#[verifier::external_body]
fn new_dir_map() -> (r: DirMap)
    ensures
        dir_entries(r).dom() == Set::<Seq<char>>::empty(),
{
    DashMap::new()
}

/// Calls `DashMap::insert(k, v)`: the entry of `k` becomes `v` (the value it
/// replaces, if any, is dropped).
#[verifier::external_body]
fn insert_dir(m: &mut DirMap, k: String, v: WatchEntry)
    ensures
        dir_entries(*final(m)) == dir_entries(*old(m)).insert(k@, v),
{
    m.insert(k, v);
}

/// Calls `DashMap::remove(k)` and keeps the value: the entry of `k` is
/// taken out and handed back, `None` when there was none.
#[verifier::external_body]
fn remove_dir(m: &mut DirMap, k: &str) -> (r: Option<WatchEntry>)
    ensures
        dir_entries(*final(m)) == dir_entries(*old(m)).remove(k@),
        r is Some <==> dir_entries(*old(m)).contains_key(k@),
        r matches Some(v) ==> v == dir_entries(*old(m))[k@],
{
    m.remove(k).map(|(_, v)| v)
}

/// Calls `DashMap::len()`: the number of entries.
#[verifier::external_body]
fn dir_count(m: &DirMap) -> (r: usize)
    ensures
        r == dir_entries(*m).dom().len(),
{
    m.len()
}

/// Calls `DashMap::iter()` and copies each entry's key: every key once, in
/// the map's own order.
#[verifier::external_body]
fn dir_keys(m: &DirMap) -> (r: Vec<String>)
    ensures
        forall|i: int| 0 <= i < r@.len() ==> dir_entries(*m).contains_key(#[trigger] r@[i]@),
        forall|k: Seq<char>| #[trigger] dir_entries(*m).contains_key(k) ==> exists|i: int| 0 <= i < r@.len() && r@[i]@ == k,
        forall|i: int, j: int| 0 <= i < j < r@.len() ==> r@[i]@ != r@[j]@,
{
    m.iter().map(|e| e.key().clone()).collect()
}

/// Calls `DashMap::get(k)` and reads the watcher id and the subscriber
/// count (`KeyedTable::len`) of the entry, `None` when there is none.
#[verifier::external_body]
fn dir_summary(m: &DirMap, k: &str) -> (r: Option<(String, usize)>)
    requires
        dir_entries(*m).contains_key(k@) ==> dir_entries(*m)[k@].subs.wf(),
    ensures
        r is Some <==> dir_entries(*m).contains_key(k@),
        r matches Some((id, n)) ==> id == dir_entries(*m)[k@].id && n == dir_entries(*m)[k@].subs.view().dom().len(),
{
    m.get(k).map(|e| (e.id.clone(), e.subs.len()))
}

proof fn lemma_keys_cover(m: Map<Seq<char>, WatchEntry>, keys: Seq<String>)
    requires
        forall|i: int| 0 <= i < keys.len() ==> m.contains_key(#[trigger] keys[i]@),
        forall|k: Seq<char>| #[trigger] m.contains_key(k) ==> exists|i: int| 0 <= i < keys.len() && keys[i]@ == k,
        forall|a: int, b: int| 0 <= a < b < keys.len() ==> keys[a]@ != keys[b]@,
    ensures
        keys.len() == m.dom().len(),
{
    let ks = keys.map_values(|s: String| s@);
    assert forall|a: int, b: int| 0 <= a < ks.len() && 0 <= b < ks.len() && a != b implies ks[a] != ks[b] by {
        if a < b {
            assert(keys[a]@ != keys[b]@);
        } else {
            assert(keys[b]@ != keys[a]@);
        }
    }
    ks.unique_seq_to_set();
    assert forall|k: Seq<char>| m.dom().contains(k) <==> ks.to_set().contains(k) by {
        if m.contains_key(k) {
            let i = choose|i: int| 0 <= i < keys.len() && keys[i]@ == k;
            assert(ks[i] == k);
        }
        if ks.to_set().contains(k) {
            let i = choose|i: int| 0 <= i < ks.len() && ks[i] == k;
            assert(keys[i]@ == k);
        }
    }
    assert(m.dom() =~= ks.to_set());
}

pub struct WatcherRegistry {
    root: Vec<String>,
    dirs: DirMap,
}

impl WatcherRegistry {
    /// Watched directories by key.
    pub closed spec fn view(&self) -> Map<Seq<char>, WatchEntry> {
        dir_entries(self.dirs)
    }

    pub closed spec fn root_components(&self) -> Seq<String> {
        self.root@
    }

    pub closed spec fn wf(&self) -> bool {
        &&& self.view().dom().finite()
        &&& forall|k: Seq<char>| #[trigger] self.view().contains_key(k) ==> self.view()[k].subs.wf()
    }

    pub fn new(sandbox_root: Vec<String>) -> (r: Self)
        ensures
            r.wf(),
            r.view() == Map::<Seq<char>, WatchEntry>::empty(),
            r.root_components() == sandbox_root@,
    {
        WatcherRegistry { root: sandbox_root, dirs: new_dir_map() }
    }

    /// The key of the directory a request path names; `BadRequest` for a
    /// path with a `..` segment.
    pub fn resolve(&self, url_path: &str) -> (r: Result<String, QshareError>)
        ensures
            watch_key(self.root_components(), url_path@) matches Some(k) ==> (r matches Ok(s)
                && s@ == k),
            watch_key(self.root_components(), url_path@) is None ==> (r matches Err(e)
                && e is BadRequest),
    {
        let v = chars_vec(url_path);
        let lead = count_leading(v.as_slice(), '/');
        let t = sub_vec(v.as_slice(), lead, v.len());
        assert(t@ =~= trim_start_char(url_path@, '/'));
        if find_parent_segment(t.as_slice()) {
            let mut msg = text_of("invalid path: ");
            push_str(&mut msg, url_path);
            return Err(QshareError::BadRequest(msg));
        }
        let ts = string_from_chars(t.as_slice());
        let comps = split_components(ts.as_str());
        Ok(path_text_of(&self.root, &comps))
    }

    /// First step of a subscription: when the directory is watched already,
    /// adds `conn_id` to its subscribers and marks it active at `now_ms`.
    pub fn plan_subscribe(&mut self, url_path: &str, conn_id: &str, now_ms: u64) -> (r: Result<
        SubscribePlan,
        QshareError,
    >)
        requires
            old(self).wf(),
        ensures
            final(self).wf(),
            final(self).root_components() == old(self).root_components(),
            watch_key(old(self).root_components(), url_path@) is None ==> (r matches Err(e)
                && e is BadRequest && final(self).view() == old(self).view()),
            watch_key(old(self).root_components(), url_path@) matches Some(k) ==> {
                if old(self).view().contains_key(k) {
                    let e = old(self).view()[k];
                    &&& r matches Ok(SubscribePlan::Joined { watcher_id }) && watcher_id == e.id
                    &&& final(self).view().dom() == old(self).view().dom()
                    &&& final(self).view()[k].subs.view().dom() == e.subs.view().dom().insert(conn_id@)
                    &&& final(self).view()[k].last_active_ms == now_ms
                    &&& final(self).view()[k].id == e.id
                    &&& final(self).view()[k].abs_path == e.abs_path
                    &&& final(self).view()[k].recursive == e.recursive
                    &&& forall|q: Seq<char>| q != k && #[trigger] old(self).view().contains_key(q) ==> final(self).view()[q] == old(self).view()[q]
                    &&& joined_watch(old(self).view(), final(self).view(), k, conn_id@, now_ms)
                } else {
                    &&& r matches Ok(SubscribePlan::MustArm { key }) && key@ == k
                    &&& final(self).view() == old(self).view()
                }
            },
    {
        let key = match self.resolve(url_path) {
            Err(e) => {
                return Err(e);
            },
            Ok(k) => k,
        };
        match remove_dir(&mut self.dirs, key.as_str()) {
            None => {
                proof {
                    assert(self.view() =~= old(self).view());
                }
                Ok(SubscribePlan::MustArm { key })
            },
            Some(entry) => {
                let WatchEntry { id, abs_path, recursive, subs, last_active_ms: _ } = entry;
                let mut subs = subs;
                subs.insert(text_of(conn_id), ());
                let watcher_id = id.clone();
                let e = WatchEntry { id, abs_path, recursive, subs, last_active_ms: now_ms };
                insert_dir(&mut self.dirs, key, e);
                proof {
                    assert(self.view().dom() =~= old(self).view().dom());
                    assert forall|q: Seq<char>| #[trigger] self.view().contains_key(q) implies self.view()[q].subs.wf() by {
                        if q != key@ {
                            assert(old(self).view().contains_key(q));
                        }
                    }
                }
                Ok(SubscribePlan::Joined { watcher_id })
            },
        }
    }

    /// Second step of a subscription: records the newly armed watcher `id`
    /// for `key` with `conn_id` as its first subscriber. Returns the
    /// `Armed` log event, or `None` when a watcher for `key` was recorded
    /// meanwhile (then `conn_id` joins that one and the new one is unused).
    pub fn add_watcher(
        &mut self,
        key: String,
        url_path: &str,
        id: String,
        recursive: bool,
        conn_id: &str,
        now_ms: u64,
    ) -> (r: Option<WatcherLog>)
        requires
            old(self).wf(),
        ensures
            final(self).wf(),
            final(self).root_components() == old(self).root_components(),
            final(self).view().dom() == old(self).view().dom().insert(key@),
            final(self).view()[key@].subs.view().dom().contains(conn_id@),
            final(self).view()[key@].last_active_ms == now_ms,
            !old(self).view().contains_key(key@) ==> {
                &&& final(self).view()[key@].id == id
                &&& final(self).view()[key@].abs_path == key
                &&& final(self).view()[key@].recursive == recursive
                &&& final(self).view()[key@].subs.view().dom() == set![conn_id@]
                &&& r matches Some(WatcherLog::Armed { path, recursive: rec, watcher_id, ts })
                    && path@ == url_path@ && rec == recursive && watcher_id == id && ts == now_ms / 1000
            },
            old(self).view().contains_key(key@) ==> r is None,
            forall|q: Seq<char>| q != key@ && #[trigger] old(self).view().contains_key(q) ==> final(self).view()[q] == old(self).view()[q],
            !old(self).view().contains_key(key@) ==> armed_watch(
                old(self).view(),
                final(self).view(),
                key@,
                id,
                recursive,
                conn_id@,
                now_ms,
            ),
    {
        match remove_dir(&mut self.dirs, key.as_str()) {
            Some(entry) => {
                let WatchEntry { id: old_id, abs_path, recursive: rec, subs, last_active_ms: _ } = entry;
                let mut subs = subs;
                subs.insert(text_of(conn_id), ());
                proof {
                    assert(subs.view().contains_key(conn_id@));
                }
                let e = WatchEntry { id: old_id, abs_path, recursive: rec, subs, last_active_ms: now_ms };
                insert_dir(&mut self.dirs, key, e);
                proof {
                    assert(self.view().dom() =~= old(self).view().dom().insert(key@));
                    assert forall|q: Seq<char>| #[trigger] self.view().contains_key(q) implies self.view()[q].subs.wf() by {
                        if q != key@ {
                            assert(old(self).view().contains_key(q));
                        }
                    }
                }
                None
            },
            None => {
                let mut subs: KeyedTable<()> = KeyedTable::new();
                subs.insert(text_of(conn_id), ());
                proof {
                    assert(subs.view().dom() =~= set![conn_id@]);
                }
                let log = WatcherLog::Armed {
                    path: text_of(url_path),
                    recursive,
                    watcher_id: id.clone(),
                    ts: now_ms / 1000,
                };
                let abs_path = key.clone();
                let e = WatchEntry { id, abs_path, recursive, subs, last_active_ms: now_ms };
                insert_dir(&mut self.dirs, key, e);
                proof {
                    assert(self.view().dom() =~= old(self).view().dom().insert(key@));
                    assert forall|q: Seq<char>| #[trigger] self.view().contains_key(q) implies self.view()[q].subs.wf() by {
                        if q != key@ {
                            assert(old(self).view().contains_key(q));
                        }
                    }
                }
                Some(log)
            },
        }
    }

    /// Drops the subscription of `conn_id` to the directory `url_path`
    /// names, marking that directory active at `now_ms`. Idempotent; a
    /// path that does not resolve or is not watched changes nothing.
    pub fn unsubscribe(&mut self, url_path: &str, conn_id: &str, now_ms: u64)
        requires
            old(self).wf(),
        ensures
            final(self).wf(),
            final(self).root_components() == old(self).root_components(),
            final(self).view().dom() == old(self).view().dom(),
            watch_key(old(self).root_components(), url_path@) matches Some(k) ==> old(self).view().contains_key(k) ==> {
                let e = old(self).view()[k];
                &&& final(self).view()[k].subs.view().dom() == e.subs.view().dom().remove(conn_id@)
                &&& final(self).view()[k].last_active_ms == now_ms
                &&& final(self).view()[k].id == e.id
                &&& final(self).view()[k].abs_path == e.abs_path
                &&& forall|q: Seq<char>| q != k && #[trigger] old(self).view().contains_key(q) ==> final(self).view()[q] == old(self).view()[q]
            },
            !names_watched(old(self).view(), old(self).root_components(), url_path@) ==> final(self).view() == old(self).view(),
    {
        let key = match self.resolve(url_path) {
            Err(_) => {
                return;
            },
            Ok(k) => k,
        };
        match remove_dir(&mut self.dirs, key.as_str()) {
            None => {
                proof {
                    assert(self.view() =~= old(self).view());
                }
            },
            Some(entry) => {
                let WatchEntry { id, abs_path, recursive, subs, last_active_ms: _ } = entry;
                let mut subs = subs;
                let _ = subs.remove(conn_id);
                proof {
                    assert(subs.view().dom() =~= old(self).view()[key@].subs.view().dom().remove(conn_id@));
                }
                let e = WatchEntry { id, abs_path, recursive, subs, last_active_ms: now_ms };
                insert_dir(&mut self.dirs, key, e);
                proof {
                    assert(self.view().dom() =~= old(self).view().dom());
                    assert forall|q: Seq<char>| #[trigger] self.view().contains_key(q) implies self.view()[q].subs.wf() by {
                        if q != key@ {
                            assert(old(self).view().contains_key(q));
                        }
                    }
                }
            },
        }
    }

    /// Releases every directory that nobody subscribes to and that has been
    /// idle for `WATCH_TTL_SECS` at `now_ms`. Returns, per release, the
    /// key, the watcher id and the `Released` log event.
    pub fn sweep(&mut self, now_ms: u64) -> (r: Vec<(String, String, WatcherLog)>)
        requires
            old(self).wf(),
        ensures
            final(self).wf(),
            final(self).root_components() == old(self).root_components(),
            final(self).view() == old(self).view().restrict(
                old(self).view().dom().filter(|k: Seq<char>| !releasable(old(self).view()[k], now_ms)),
            ),
            forall|i: int| 0 <= i < r@.len() ==> old(self).view().contains_key(#[trigger] r@[i].0@)
                && releasable(old(self).view()[r@[i].0@], now_ms) && r@[i].1 == old(self).view()[r@[i].0@].id,
    {
        let ghost orig = self.view();
        let keys = dir_keys(&self.dirs);
        let mut released: Vec<(String, String, WatcherLog)> = Vec::new();
        let mut j: usize = 0;
        while j < keys.len()
            invariant
                self.wf(),
                self.root_components() == old(self).root_components(),
                orig == old(self).view(),
                j <= keys@.len(),
                forall|i: int| 0 <= i < keys@.len() ==> orig.contains_key(#[trigger] keys@[i]@),
                forall|k: Seq<char>| #[trigger] orig.contains_key(k) ==> exists|i: int| 0 <= i < keys@.len() && keys@[i]@ == k,
                forall|a: int, b: int| 0 <= a < b < keys@.len() ==> keys@[a]@ != keys@[b]@,
                forall|k: Seq<char>| #[trigger] self.view().contains_key(k) ==> orig.contains_key(k) && self.view()[k] == orig[k],
                forall|k: Seq<char>| orig.contains_key(k) && !releasable(orig[k], now_ms) ==> #[trigger] self.view().contains_key(k),
                forall|i: int| j <= i < keys@.len() ==> self.view().contains_key(#[trigger] keys@[i]@),
                forall|i: int| 0 <= i < j && releasable(orig[keys@[i]@], now_ms) ==> !self.view().contains_key(#[trigger] keys@[i]@),
                forall|t: int| 0 <= t < released@.len() ==> orig.contains_key(#[trigger] released@[t].0@)
                    && releasable(orig[released@[t].0@], now_ms) && released@[t].1 == orig[released@[t].0@].id,
            decreases keys@.len() - j,
        {
            let ghost pre = self.view();
            let k = &keys[j];
            assert(self.view().contains_key(keys@[j as int]@));
            let taken = remove_dir(&mut self.dirs, k.as_str());
            let w = match taken {
                Some(w) => w,
                None => {
                    j = j + 1;
                    continue;
                },
            };
            proof {
                assert(w == orig[k@]);
                assert(w.subs.wf());
            }
            let idle = now_ms >= w.last_active_ms && (now_ms - w.last_active_ms) / 1000 >= WATCH_TTL_SECS;
            if w.subs.len() == 0 && idle {
                let lifetime = (now_ms - w.last_active_ms) / 1000;
                let log = WatcherLog::Released {
                    path: w.abs_path,
                    watcher_id: w.id.clone(),
                    lifetime_secs: lifetime,
                    ts: now_ms / 1000,
                };
                let ghost prev = released@;
                released.push((k.clone(), w.id, log));
                proof {
                    assert forall|t: int| 0 <= t < released@.len() implies orig.contains_key(#[trigger] released@[t].0@)
                            && releasable(orig[released@[t].0@], now_ms) && released@[t].1 == orig[released@[t].0@].id by {
                        if t < prev.len() {
                            assert(released@[t] == prev[t]);
                        }
                    }
                }
            } else {
                insert_dir(&mut self.dirs, k.clone(), w);
                proof {
                    assert(self.view() == pre);
                }
            }
            proof {
                assert forall|i: int| j + 1 <= i < keys@.len() implies self.view().contains_key(#[trigger] keys@[i]@) by {
                    assert(keys@[i]@ != keys@[j as int]@);
                }
                assert forall|i: int| 0 <= i < j + 1 && releasable(orig[keys@[i]@], now_ms) implies !self.view().contains_key(#[trigger] keys@[i]@) by {
                    if i < j {
                        assert(!pre.contains_key(keys@[i]@));
                    }
                }
                assert forall|q: Seq<char>| #[trigger] self.view().contains_key(q) implies self.view()[q].subs.wf() by {
                    assert(pre.contains_key(q));
                }
            }
            j = j + 1;
        }
        proof {
            let keep = orig.dom().filter(|k: Seq<char>| !releasable(orig[k], now_ms));
            assert forall|k: Seq<char>| self.view().contains_key(k) <==> orig.restrict(keep).contains_key(k) by {
                if orig.contains_key(k) && releasable(orig[k], now_ms) {
                    let u = choose|u: int| 0 <= u < keys@.len() && keys@[u]@ == k;
                    assert(!self.view().contains_key(keys@[u]@));
                }
            }
            assert(self.view() =~= orig.restrict(keep));
        }
        released
    }

    /// Number of watched directories.
    pub fn active_count(&self) -> (r: usize)
        requires
            self.wf(),
        ensures
            r == self.view().dom().len(),
    {
        dir_count(&self.dirs)
    }

    /// `(key, watcher id, subscriber count)` of every watched directory, in
    /// no particular order.
    pub fn snapshot(&self) -> (r: Vec<(String, String, usize)>)
        requires
            self.wf(),
        ensures
            r@.len() == self.view().dom().len(),
            forall|i: int| 0 <= i < r@.len() ==> self.view().contains_key(#[trigger] r@[i].0@)
                && r@[i].1 == self.view()[r@[i].0@].id
                && r@[i].2 == self.view()[r@[i].0@].subs.view().dom().len(),
    {
        let keys = dir_keys(&self.dirs);
        let mut out: Vec<(String, String, usize)> = Vec::new();
        let mut i: usize = 0;
        while i < keys.len()
            invariant
                self.wf(),
                i <= keys@.len(),
                out@.len() == i,
                forall|t: int| 0 <= t < keys@.len() ==> self.view().contains_key(#[trigger] keys@[t]@),
                forall|t: int| 0 <= t < i ==> out@[t].0@ == keys@[t]@,
                forall|t: int| 0 <= t < i ==> self.view().contains_key(#[trigger] out@[t].0@)
                    && out@[t].1 == self.view()[out@[t].0@].id
                    && out@[t].2 == self.view()[out@[t].0@].subs.view().dom().len(),
            decreases keys@.len() - i,
        {
            let k = &keys[i];
            assert(self.view().contains_key(keys@[i as int]@));
            let (id, n) = match dir_summary(&self.dirs, k.as_str()) {
                Some(v) => v,
                None => {
                    return out;
                },
            };
            let ghost prev = out@;
            out.push((k.clone(), id, n));
            proof {
                assert forall|t: int| 0 <= t < i + 1 implies self.view().contains_key(#[trigger] out@[t].0@)
                    && out@[t].1 == self.view()[out@[t].0@].id
                    && out@[t].2 == self.view()[out@[t].0@].subs.view().dom().len() by {
                    if t < i {
                        assert(out@[t] == prev[t]);
                    }
                }
            }
            i = i + 1;
        }
        proof {
            assert(keys@.len() == self.view().dom().len()) by {
                lemma_keys_cover(self.view(), keys@);
            }
        }
        out
    }
}

/// A connection that subscribes to a watched directory and unsubscribes
/// again leaves that directory's subscribers as they were.
pub proof fn subscribe_then_unsubscribe(subs: Set<Seq<char>>, conn: Seq<char>)
    ensures
        !subs.contains(conn) ==> subs.insert(conn).remove(conn) == subs,
        subs.insert(conn).contains(conn),
{
    if !subs.contains(conn) {
        assert(subs.insert(conn).remove(conn) =~= subs);
    }
}

/// A sweep never releases a directory that somebody subscribes to, nor
/// one active within the last `WATCH_TTL_SECS`.
pub proof fn sweep_keeps_live(m: Map<Seq<char>, WatchEntry>, k: Seq<char>, now_ms: u64)
    requires
        m.contains_key(k),
        m[k].subs.view().dom().len() > 0 || now_ms < m[k].last_active_ms
            || (now_ms - m[k].last_active_ms) / 1000 < WATCH_TTL_SECS,
    ensures
        m.restrict(m.dom().filter(|q: Seq<char>| !releasable(m[q], now_ms))).contains_key(k),
        m.restrict(m.dom().filter(|q: Seq<char>| !releasable(m[q], now_ms)))[k] == m[k],
{
}


/// Two connections subscribing to one directory that nobody watched get
/// one watcher between them: the first subscription arms it, the second
/// joins it, and both are its subscribers.
pub proof fn subscribe_twice_one_watcher(
    m0: Map<Seq<char>, WatchEntry>,
    m1: Map<Seq<char>, WatchEntry>,
    m2: Map<Seq<char>, WatchEntry>,
    k: Seq<char>,
    id: String,
    recursive: bool,
    c1: Seq<char>,
    c2: Seq<char>,
    t1: u64,
    t2: u64,
)
    requires
        m0.dom().finite(),
        armed_watch(m0, m1, k, id, recursive, c1, t1),
        joined_watch(m1, m2, k, c2, t2),
    ensures
        m2.dom() == m0.dom().insert(k),
        m2.dom().len() == m0.dom().len() + 1,
        m2[k].id == id,
        m2[k].subs.view().dom() == set![c1, c2],
{
    assert(m1[k].subs.view().dom().insert(c2) =~= set![c1, c2]);
}

} // verus!
