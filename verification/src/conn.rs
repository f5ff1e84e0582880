//! Active WebSocket connection registry and the rolling live log.
//!
//! Every browser / GUI client that connects to `/ws` gets one [`ConnInfo`]
//! stored in [`ConnectionRegistry`]. Operations whose effect live
//! subscribers hear about return the [`ConnEvent`] to send; the caller
//! owns the channel.
use vstd::prelude::*;

use crate::table::KeyedTable;
use crate::text::chars_vec;
use crate::error::text_of;

verus! {

broadcast use vstd::string::group_string_axioms;

/// Public-facing snapshot of one active connection.
#[derive(Debug, Clone)]
pub struct ConnInfo {
    pub id: String,
    pub ip: String,
    /// `User-Agent` header (browser / qshare / curl / …).
    pub user_agent: String,
    /// Currently watched URL-path (e.g. `/photos/summer`). Empty = idle.
    pub watching: String,
    pub bytes_sent: u64,
    pub uptime_secs: u64,
    pub last_seen_unix_ms: u64,
}

impl ConnInfo {
    /// A field-by-field copy.
    pub fn duplicate(&self) -> (r: ConnInfo)
        ensures
            r == *self,
    {
        ConnInfo {
            id: self.id.clone(),
            ip: self.ip.clone(),
            user_agent: self.user_agent.clone(),
            watching: self.watching.clone(),
            bytes_sent: self.bytes_sent,
            uptime_secs: self.uptime_secs,
            last_seen_unix_ms: self.last_seen_unix_ms,
        }
    }
}

/// Internal record: the public info plus when the connection opened, in
/// milliseconds on the monotonic clock the uptime is measured with.
#[derive(Debug)]
pub struct ConnRecord {
    pub info: ConnInfo,
    pub opened_at_ms: u64,
}

/// Things the registry may broadcast to subscribers (e.g. live log).
#[derive(Debug, Clone)]
pub enum ConnEvent {
    Opened { id: String, ip: String, user_agent: String, ts: u64 },
    Closed { id: String, reason: String, ts: u64 },
    Subscribed { id: String, path: String, ts: u64 },
    Unsubscribed { id: String, path: String, ts: u64 },
}

/// How long without any traffic before a connection is considered dead.
/// Generous (90 s) — browsers behind slow proxies may sit idle briefly.
pub const STALE_SECS: u64 = 90;

/// Calls the system clock (`SystemTime::now().duration_since(UNIX_EPOCH)`)
/// and gives the milliseconds elapsed, or `None` when the clock is before
/// the epoch. Nothing is promised about the value.
#[verifier::external_body]
fn clock_unix_millis() -> (r: Option<u128>) {
    std::time::SystemTime::now().duration_since(std::time::UNIX_EPOCH).ok().map(|d| d.as_millis())
}

/// Calls the system clock and gives the whole seconds since the epoch, or
/// `None` when the clock is before the epoch. Nothing is promised about the
/// value.
#[verifier::external_body]
fn clock_unix_secs() -> (r: Option<u64>) {
    std::time::SystemTime::now().duration_since(std::time::UNIX_EPOCH).ok().map(|d| d.as_secs())
}

/// A clock reading in milliseconds as a `u64` (wrapping past `u64::MAX`),
/// 0 when the clock is before the epoch.
pub fn millis_since_epoch(reading: Option<u128>) -> (r: u64)
    ensures
        r == match reading {
            Some(ms) => (ms % 0x1_0000_0000_0000_0000u128) as u64,
            None => 0u64,
        },
{
    match reading {
        Some(ms) => (ms % 0x1_0000_0000_0000_0000u128) as u64,
        None => 0,
    }
}

/// A clock reading in whole seconds, 0 when the clock is before the epoch.
pub fn secs_since_epoch(reading: Option<u64>) -> (r: u64)
    ensures
        r == match reading {
            Some(s) => s,
            None => 0u64,
        },
{
    match reading {
        Some(s) => s,
        None => 0,
    }
}

/// Milliseconds since the Unix epoch (0 if the clock is before it).
pub fn unix_ms() -> u64 {
    millis_since_epoch(clock_unix_millis())
}

/// Seconds since the Unix epoch (0 if the clock is before it).
pub fn unix_secs() -> u64 {
    secs_since_epoch(clock_unix_secs())
}

/// A lower-case hexadecimal digit.
pub open spec fn lower_hex_digit(c: char) -> bool {
    ('0' <= c && c <= '9') || ('a' <= c && c <= 'f')
}

/// The text of a random (version 4) UUID: 36 characters, lower-case hex in
/// groups of 8-4-4-4-12 joined by `-`, version digit `4`, variant digit one
/// of `8`, `9`, `a`, `b`.
pub open spec fn uuid_v4_text(s: Seq<char>) -> bool {
    &&& s.len() == 36
    &&& forall|i: int|
        0 <= i < 36 ==> if i == 8 || i == 13 || i == 18 || i == 23 {
            #[trigger] s[i] == '-'
        } else {
            lower_hex_digit(s[i])
        }
    &&& s[14] == '4'
    &&& (s[19] == '8' || s[19] == '9' || s[19] == 'a' || s[19] == 'b')
}

/// Calls `uuid::Uuid::new_v4().to_string()`: a fresh random identifier.
/// Its value is left open; its shape is what the crate's source gives:
/// `new_v4` fixes the version and variant bits, and `Display` writes the
/// hyphenated lower-case form.
#[verifier::external_body]
fn fresh_conn_id() -> (r: String)
    ensures
        uuid_v4_text(r@),
{
    uuid::Uuid::new_v4().to_string()
}

/// `r` is the record a new connection starts with.
pub open spec fn is_opened_record(
    r: ConnRecord,
    id: String,
    ip: String,
    ua: String,
    now_ms: u64,
    opened_ms: u64,
) -> bool {
    &&& r.info.id == id
    &&& r.info.ip == ip
    &&& r.info.user_agent == ua
    &&& r.info.watching@.len() == 0
    &&& r.info.bytes_sent == 0
    &&& r.info.uptime_secs == 0
    &&& r.info.last_seen_unix_ms == now_ms
    &&& r.opened_at_ms == opened_ms
}

pub open spec fn is_stale(r: ConnRecord, cutoff_ms: u64) -> bool {
    r.info.last_seen_unix_ms < cutoff_ms
}

/// Cut-off below which a last-seen time is stale.
pub open spec fn stale_cutoff(now_ms: u64) -> u64 {
    if now_ms >= STALE_SECS * 1000 {
        (now_ms - STALE_SECS * 1000) as u64
    } else {
        0
    }
}

/// `a + b`, saturating at `u64::MAX`.
pub open spec fn sat_add(a: u64, b: u64) -> u64 {
    if a + b > u64::MAX {
        u64::MAX
    } else {
        (a + b) as u64
    }
}

/// The registry after `add_bytes_at(id, n, now_ms)`: the byte counter of
/// `id` grows by `n` (saturating) and its last-seen time becomes `now_ms`;
/// unchanged when `n == 0` or `id` is not registered.
pub open spec fn bytes_added(
    before: Map<Seq<char>, ConnRecord>,
    id: Seq<char>,
    n: u64,
    now_ms: u64,
) -> Map<Seq<char>, ConnRecord> {
    if n == 0 || !before.contains_key(id) {
        before
    } else {
        let prev = before[id];
        before.insert(
            id,
            ConnRecord {
                info: ConnInfo {
                    bytes_sent: sat_add(prev.info.bytes_sent, n),
                    last_seen_unix_ms: now_ms,
                    ..prev.info
                },
                ..prev
            },
        )
    }
}

/// The registry after `touch_at(id, now_ms)`: the last-seen time of `id`
/// becomes `now_ms`; unchanged when `id` is not registered.
pub open spec fn touched(before: Map<Seq<char>, ConnRecord>, id: Seq<char>, now_ms: u64) -> Map<
    Seq<char>,
    ConnRecord,
> {
    if !before.contains_key(id) {
        before
    } else {
        let prev = before[id];
        before.insert(id, ConnRecord { info: ConnInfo { last_seen_unix_ms: now_ms, ..prev.info }, ..prev })
    }
}

/// The registry after `set_watching_at(id, path, now_ms)` answered `r`:
/// the watched path of `id` becomes `path` and its last-seen time `now_ms`;
/// the event is `Unsubscribed` (previous path) when the path was cleared,
/// `Subscribed` (new path) when it changed to another, none otherwise or
/// when `id` is not registered.
pub open spec fn watching_set(
    before: Map<Seq<char>, ConnRecord>,
    after: Map<Seq<char>, ConnRecord>,
    id: Seq<char>,
    path: String,
    now_ms: u64,
    r: Option<ConnEvent>,
) -> bool {
    if !before.contains_key(id) {
        after == before && r is None
    } else {
        let prev = before[id];
        &&& after == before.insert(
            id,
            ConnRecord { info: ConnInfo { watching: path, last_seen_unix_ms: now_ms, ..prev.info }, ..prev },
        )
        &&& (prev.info.watching@ == path@ ==> r is None)
        &&& (prev.info.watching@ != path@ && path@.len() == 0 ==> (r matches Some(
            ConnEvent::Unsubscribed { id: i, path: p, ts },
        ) && i@ == id && p == prev.info.watching && ts == now_ms / 1000))
        &&& (prev.info.watching@ != path@ && path@.len() > 0 ==> (r matches Some(
            ConnEvent::Subscribed { id: i, path: p, ts },
        ) && i@ == id && p == path && ts == now_ms / 1000))
    }
}

/// `r` reports every connection of `m` once, each with its uptime at
/// `now_ms`.
pub open spec fn reports_all(m: Map<Seq<char>, ConnRecord>, r: Seq<ConnInfo>, now_ms: u64) -> bool {
    &&& r.len() == m.dom().len()
    &&& forall|i: int|
        0 <= i < r.len() ==> m.contains_key(#[trigger] r[i].id@) && r[i] == reported(m[r[i].id@], now_ms)
    &&& forall|i: int, j: int| 0 <= i < j < r.len() ==> r[i].id@ != r[j].id@
}

/// The whole second of a millisecond clock reading.
pub open spec fn second_of(ms: u64) -> u64 {
    ms / 1000
}

/// The connection id an event is about.
pub open spec fn event_id(ev: ConnEvent) -> Seq<char> {
    match ev {
        ConnEvent::Opened { id, .. } => id@,
        ConnEvent::Closed { id, .. } => id@,
        ConnEvent::Subscribed { id, .. } => id@,
        ConnEvent::Unsubscribed { id, .. } => id@,
    }
}

/// `ev` closes a connection of `before` that is stale as of `now_ms`, with
/// reason `stale-timeout` at second `now_ms / 1000`.
pub open spec fn stale_close(ev: ConnEvent, before: Map<Seq<char>, ConnRecord>, now_ms: u64) -> bool {
    &&& ev matches ConnEvent::Closed { id, reason, ts } && reason@ == "stale-timeout"@ && ts == now_ms / 1000
    &&& before.contains_key(event_id(ev))
    &&& is_stale(before[event_id(ev)], stale_cutoff(now_ms))
}

/// A sweep at `now_ms` took `before` to `after` and answered `events`: the
/// connections stale at `now_ms` are dropped, and `events` holds one
/// `Closed` event for each of them and no other.
pub open spec fn swept(
    before: Map<Seq<char>, ConnRecord>,
    after: Map<Seq<char>, ConnRecord>,
    events: Seq<ConnEvent>,
    now_ms: u64,
) -> bool {
    &&& after == before.restrict(
        before.dom().filter(|k: Seq<char>| !is_stale(before[k], stale_cutoff(now_ms))),
    )
    &&& forall|i: int| 0 <= i < events.len() ==> stale_close(#[trigger] events[i], before, now_ms)
    &&& forall|i: int, j: int|
        0 <= i < j < events.len() ==> event_id(#[trigger] events[i]) != event_id(#[trigger] events[j])
    &&& forall|k: Seq<char>|
        before.contains_key(k) && is_stale(#[trigger] before[k], stale_cutoff(now_ms)) ==> exists|i: int|
            0 <= i < events.len() && event_id(#[trigger] events[i]) == k
}

/// The info a snapshot reports for a record at time `now_ms`.
pub open spec fn reported(r: ConnRecord, now_ms: u64) -> ConnInfo {
    ConnInfo {
        uptime_secs: (if now_ms >= r.opened_at_ms {
            (now_ms - r.opened_at_ms) / 1000
        } else {
            0
        }) as u64,
        ..r.info
    }
}

/// `std::time::Instant`, a reading of the monotonic clock.
#[verifier::external_type_specification]
#[verifier::external_body]
pub struct ExInstant(std::time::Instant);

/// Calls `Instant::now()`. Nothing is promised about the reading.
#[verifier::external_body]
fn clock_instant() -> (r: std::time::Instant) {
    std::time::Instant::now()
}

/// Calls `origin.elapsed().as_millis()`: how far the monotonic clock has
/// moved since `origin`, in milliseconds. Nothing is promised about the
/// value.
#[verifier::external_body]
fn millis_since(origin: &std::time::Instant) -> (r: u128) {
    origin.elapsed().as_millis()
}

pub struct ConnectionRegistry {
    conns: KeyedTable<ConnRecord>,
    /// Origin of the monotonic readings that uptimes are measured in.
    origin: std::time::Instant,
}

impl ConnectionRegistry {
    /// Connections by id.
    pub closed spec fn view(&self) -> Map<Seq<char>, ConnRecord> {
        self.conns.view()
    }

    /// Internal consistency: every record is stored under its own id.
    pub closed spec fn wf(&self) -> bool {
        &&& self.conns.wf()
        &&& forall|k: Seq<char>| #[trigger] self.conns.view().contains_key(k) ==> self.conns.view()[k].info.id@ == k
    }

    pub fn new() -> (r: Self)
        ensures
            r.wf(),
            r.view() == Map::<Seq<char>, ConnRecord>::empty(),
    {
        ConnectionRegistry { conns: KeyedTable::new(), origin: clock_instant() }
    }

    /// Milliseconds on the monotonic clock since the registry was made
    /// (`u64::MAX` past that).
    fn mono_ms(&self) -> u64 {
        let ms = millis_since(&self.origin);
        if ms > 0xFFFF_FFFF_FFFF_FFFFu128 {
            0xFFFF_FFFF_FFFF_FFFFu64
        } else {
            ms as u64
        }
    }

    /// Registers a connection under `id` at wall-clock time `now_ms` and
    /// monotonic time `opened_ms`; returns the initial info and the
    /// `Opened` event to broadcast.
    pub fn register_at(&mut self, id: String, ip: String, user_agent: String, now_ms: u64, opened_ms: u64) -> (r: (
        ConnInfo,
        ConnEvent,
    ))
        requires
            old(self).wf(),
        ensures
            final(self).wf(),
            final(self).view() == old(self).view().insert(id@, final(self).view()[id@]),
            is_opened_record(final(self).view()[id@], id, ip, user_agent, now_ms, opened_ms),
            r.0 == final(self).view()[id@].info,
            r.1 == (ConnEvent::Opened { id, ip, user_agent, ts: now_ms / 1000 }),
    {
        let info = ConnInfo {
            id: id.clone(),
            ip: ip.clone(),
            user_agent: user_agent.clone(),
            watching: String::new(),
            bytes_sent: 0,
            uptime_secs: 0,
            last_seen_unix_ms: now_ms,
        };
        let rec = ConnRecord { info: info.duplicate(), opened_at_ms: opened_ms };
        let key = id.clone();
        self.conns.insert(key, rec);
        proof {
            assert forall|k: Seq<char>| #[trigger] self.conns.view().contains_key(k) implies self.conns.view()[k].info.id@ == k by {
                if k != id@ {
                    assert(old(self).conns.view().contains_key(k));
                }
            }
        }
        let ev = ConnEvent::Opened { id, ip, user_agent, ts: now_ms / 1000 };
        (info, ev)
    }

    /// Registers a new connection with a fresh random id at the current
    /// time; returns its id, its initial info and the `Opened` event.
    pub fn register(&mut self, ip: String, user_agent: String) -> (r: (String, ConnInfo, ConnEvent))
        requires
            old(self).wf(),
        ensures
            final(self).wf(),
            final(self).view().dom() == old(self).view().dom().insert(r.0@),
            final(self).view()[r.0@].info == r.1,
            r.1.id == r.0,
            r.1.ip == ip,
            r.1.user_agent == user_agent,
            r.1.watching@.len() == 0,
            r.1.bytes_sent == 0,
            r.1.uptime_secs == 0,
            r.2 is Opened,
            uuid_v4_text(r.0@),
            exists|now_ms: u64, opened_ms: u64|
                is_opened_record(final(self).view()[r.0@], r.0, ip, user_agent, now_ms, opened_ms) && r.2
                == (ConnEvent::Opened { id: r.0, ip, user_agent, ts: now_ms / 1000 }),
    {
        let id = fresh_conn_id();
        let now = unix_ms();
        let opened = self.mono_ms();
        let (info, ev) = self.register_at(id.clone(), ip, user_agent, now, opened);
        proof {
            assert(final(self).view().dom() =~= old(self).view().dom().insert(id@));
            assert(is_opened_record(final(self).view()[id@], id, ip, user_agent, now, opened));
        }
        (id, info, ev)
    }

    /// Removes connection `id`; the `Closed` event when it was registered.
    pub fn unregister_at(&mut self, id: &str, reason: &str, now_ms: u64) -> (r: Option<ConnEvent>)
        requires
            old(self).wf(),
        ensures
            final(self).wf(),
            final(self).view() == old(self).view().remove(id@),
            r is Some <==> old(self).view().contains_key(id@),
            r matches Some(ev) ==> (ev matches ConnEvent::Closed { id: i, reason: why, ts } && i@
                == id@ && why@ == reason@ && ts == now_ms / 1000),
    {
        let removed = self.conns.remove(id);
        proof {
            assert forall|k: Seq<char>| #[trigger] self.conns.view().contains_key(k) implies self.conns.view()[k].info.id@ == k by {
                assert(old(self).conns.view().contains_key(k));
            }
        }
        match removed {
            None => None,
            Some(_) => Some(
                ConnEvent::Closed { id: text_of(id), reason: text_of(reason), ts: now_ms / 1000 },
            ),
        }
    }

    pub fn unregister(&mut self, id: &str, reason: &str) -> (r: Option<ConnEvent>)
        requires
            old(self).wf(),
        ensures
            final(self).wf(),
            final(self).view() == old(self).view().remove(id@),
            r is Some <==> old(self).view().contains_key(id@),
            r matches Some(ev) ==> (ev matches ConnEvent::Closed { id: i, reason: why, ts } && i@
                == id@ && why@ == reason@ && exists|now_ms: u64| #[trigger] second_of(now_ms) == ts),
    {
        let now = unix_ms();
        let r = self.unregister_at(id, reason, now);
        proof {
            match r {
                Some(ConnEvent::Closed { ts, .. }) => {
                    assert(second_of(now) == ts);
                },
                _ => {},
            }
        }
        r
    }

    /// Sets / clears the path connection `id` watches and refreshes its
    /// last-seen time. Returns the event to broadcast when the path changed:
    /// `Unsubscribed` with the previous path when the new one is empty,
    /// `Subscribed` with the new one otherwise.
    pub fn set_watching_at(&mut self, id: &str, path: String, now_ms: u64) -> (r: Option<ConnEvent>)
        requires
            old(self).wf(),
        ensures
            final(self).wf(),
            !old(self).view().contains_key(id@) ==> final(self).view() == old(self).view()
                && r is None,
            old(self).view().contains_key(id@) ==> {
                let prev = old(self).view()[id@];
                &&& final(self).view() == old(self).view().insert(
                    id@,
                    ConnRecord {
                        info: ConnInfo { watching: path, last_seen_unix_ms: now_ms, ..prev.info },
                        ..prev
                    },
                )
                &&& (prev.info.watching@ == path@ ==> r is None)
                &&& (prev.info.watching@ != path@ && path@.len() == 0 ==> (r matches Some(
                    ConnEvent::Unsubscribed { id: i, path: p, ts },
                ) && i@ == id@ && p == prev.info.watching && ts == now_ms / 1000))
                &&& (prev.info.watching@ != path@ && path@.len() > 0 ==> (r matches Some(
                    ConnEvent::Subscribed { id: i, path: p, ts },
                ) && i@ == id@ && p == path && ts == now_ms / 1000))
            },
            watching_set(old(self).view(), final(self).view(), id@, path, now_ms, r),
    {
        let taken = self.conns.remove(id);
        match taken {
            None => {
                proof {
                    assert(self.conns.view() =~= old(self).conns.view());
                }
                None
            },
            Some(rec) => {
                let ConnRecord { info, opened_at_ms } = rec;
                let prev = info.watching;
                let p = chars_vec(prev.as_str());
                let q = chars_vec(path.as_str());
                let same = crate::text::chars_eq(p.as_slice(), q.as_slice());
                let empty = q.len() == 0;
                let new_info = ConnInfo {
                    id: info.id,
                    ip: info.ip,
                    user_agent: info.user_agent,
                    watching: path.clone(),
                    bytes_sent: info.bytes_sent,
                    uptime_secs: info.uptime_secs,
                    last_seen_unix_ms: now_ms,
                };
                let key = new_info.id.clone();
                self.conns.insert(key, ConnRecord { info: new_info, opened_at_ms });
                proof {
                    assert(self.conns.view() =~= old(self).conns.view().insert(
                        id@,
                        self.conns.view()[id@],
                    ));
                    assert forall|k: Seq<char>| #[trigger] self.conns.view().contains_key(k) implies self.conns.view()[k].info.id@ == k by {
                        if k != id@ {
                            assert(old(self).conns.view().contains_key(k));
                        }
                    }
                }
                if same {
                    None
                } else if empty {
                    Some(ConnEvent::Unsubscribed { id: text_of(id), path: prev, ts: now_ms / 1000 })
                } else {
                    Some(ConnEvent::Subscribed { id: text_of(id), path, ts: now_ms / 1000 })
                }
            },
        }
    }

    pub fn set_watching(&mut self, id: &str, path: String) -> (r: Option<ConnEvent>)
        requires
            old(self).wf(),
        ensures
            final(self).wf(),
            final(self).view().dom() == old(self).view().dom(),
            old(self).view().contains_key(id@) ==> final(self).view()[id@].info.watching == path,
            exists|now_ms: u64| watching_set(old(self).view(), final(self).view(), id@, path, now_ms, r),
    {
        let now = unix_ms();
        let r = self.set_watching_at(id, path, now);
        proof {
            assert(watching_set(old(self).view(), final(self).view(), id@, path, now, r));
            assert(final(self).view().dom() =~= old(self).view().dom());
        }
        r
    }

    /// Adds to the byte counter of connection `id` (saturating) and
    /// refreshes its last-seen time; nothing happens for `n == 0`.
    pub fn add_bytes_at(&mut self, id: &str, n: u64, now_ms: u64)
        requires
            old(self).wf(),
        ensures
            final(self).wf(),
            (n == 0 || !old(self).view().contains_key(id@)) ==> final(self).view() == old(
                self,
            ).view(),
            (n > 0 && old(self).view().contains_key(id@)) ==> {
                let prev = old(self).view()[id@];
                final(self).view() == old(self).view().insert(
                    id@,
                    ConnRecord {
                        info: ConnInfo {
                            bytes_sent: sat_add(prev.info.bytes_sent, n),
                            last_seen_unix_ms: now_ms,
                            ..prev.info
                        },
                        ..prev
                    },
                )
            },
    {
        if n == 0 {
            return;
        }
        let taken = self.conns.remove(id);
        match taken {
            None => {
                proof {
                    assert(self.conns.view() =~= old(self).conns.view());
                }
            },
            Some(rec) => {
                let ConnRecord { info, opened_at_ms } = rec;
                let new_info = ConnInfo {
                    bytes_sent: info.bytes_sent.saturating_add(n),
                    last_seen_unix_ms: now_ms,
                    ..info
                };
                let key = new_info.id.clone();
                self.conns.insert(key, ConnRecord { info: new_info, opened_at_ms });
                proof {
                    assert(self.conns.view() =~= old(self).conns.view().insert(
                        id@,
                        self.conns.view()[id@],
                    ));
                    assert forall|k: Seq<char>| #[trigger] self.conns.view().contains_key(k) implies self.conns.view()[k].info.id@ == k by {
                        if k != id@ {
                            assert(old(self).conns.view().contains_key(k));
                        }
                    }
                }
            },
        }
    }

    /// `add_bytes_at` with the current time: adds `n` to the byte counter
    /// of `id` (saturating) and sets its last-seen time to a clock reading.
    pub fn add_bytes(&mut self, id: &str, n: u64)
        requires
            old(self).wf(),
        ensures
            final(self).wf(),
            final(self).view().dom() == old(self).view().dom(),
            exists|now_ms: u64| final(self).view() == bytes_added(old(self).view(), id@, n, now_ms),
    {
        if n == 0 {
            assert(self.view() == bytes_added(old(self).view(), id@, n, 0));
            return;
        }
        let now = unix_ms();
        self.add_bytes_at(id, n, now);
        proof {
            assert(final(self).view() == bytes_added(old(self).view(), id@, n, now));
            assert(final(self).view().dom() =~= old(self).view().dom());
        }
    }

    /// Refreshes the last-seen time of connection `id`.
    pub fn touch_at(&mut self, id: &str, now_ms: u64)
        requires
            old(self).wf(),
        ensures
            final(self).wf(),
            !old(self).view().contains_key(id@) ==> final(self).view() == old(self).view(),
            old(self).view().contains_key(id@) ==> {
                let prev = old(self).view()[id@];
                final(self).view() == old(self).view().insert(
                    id@,
                    ConnRecord { info: ConnInfo { last_seen_unix_ms: now_ms, ..prev.info }, ..prev },
                )
            },
    {
        let taken = self.conns.remove(id);
        match taken {
            None => {
                proof {
                    assert(self.conns.view() =~= old(self).conns.view());
                }
            },
            Some(rec) => {
                let ConnRecord { info, opened_at_ms } = rec;
                let new_info = ConnInfo { last_seen_unix_ms: now_ms, ..info };
                let key = new_info.id.clone();
                self.conns.insert(key, ConnRecord { info: new_info, opened_at_ms });
                proof {
                    assert(self.conns.view() =~= old(self).conns.view().insert(
                        id@,
                        self.conns.view()[id@],
                    ));
                    assert forall|k: Seq<char>| #[trigger] self.conns.view().contains_key(k) implies self.conns.view()[k].info.id@ == k by {
                        if k != id@ {
                            assert(old(self).conns.view().contains_key(k));
                        }
                    }
                }
            },
        }
    }

    /// `touch_at` with the current time: the last-seen time of `id`
    /// becomes a clock reading.
    pub fn touch(&mut self, id: &str)
        requires
            old(self).wf(),
        ensures
            final(self).wf(),
            final(self).view().dom() == old(self).view().dom(),
            exists|now_ms: u64| final(self).view() == touched(old(self).view(), id@, now_ms),
    {
        let now = unix_ms();
        self.touch_at(id, now);
        proof {
            assert(final(self).view() == touched(old(self).view(), id@, now));
            assert(final(self).view().dom() =~= old(self).view().dom());
        }
    }

    /// All current connections, each with its uptime at monotonic time
    /// `now_ms`; one entry per registered connection (in no particular
    /// order).
    pub fn snapshot_at(&self, now_ms: u64) -> (r: Vec<ConnInfo>)
        requires
            self.wf(),
        ensures
            r@.len() == self.view().dom().len(),
            forall|i: int|
                0 <= i < r@.len() ==> self.view().contains_key(#[trigger] r@[i].id@) && r@[i]
                    == reported(self.view()[r@[i].id@], now_ms),
            forall|i: int, j: int| 0 <= i < j < r@.len() ==> r@[i].id@ != r@[j].id@,
    {
        let n = self.conns.len();
        let mut out: Vec<ConnInfo> = Vec::new();
        let mut i: usize = 0;
        while i < n
            invariant
                self.wf(),
                n == self.conns.size(),
                i <= n,
                out@.len() == i,
                forall|t: int|
                    0 <= t < i ==> #[trigger] out@[t].id@ == self.conns.key_at_spec(t) && out@[t]
                        == reported(self.conns.value_at_spec(t), now_ms),
            decreases n - i,
        {
            let rec = self.conns.value_at(i);
            let mut info = rec.info.duplicate();
            info.uptime_secs = if now_ms >= rec.opened_at_ms {
                (now_ms - rec.opened_at_ms) / 1000
            } else {
                0
            };
            proof {
                self.conns.lemma_entry_at(i as int);
                assert(self.conns.view().contains_key(self.conns.key_at_spec(i as int)));
                assert(info.id@ == self.conns.key_at_spec(i as int));
                assert(info == reported(self.conns.value_at_spec(i as int), now_ms));
            }
            let ghost prev = out@;
            let ghost item = info;
            out.push(info);
            i = i + 1;
            proof {
                assert(out@ == prev.push(item));
                assert forall|t: int| 0 <= t < i implies #[trigger] out@[t].id@ == self.conns.key_at_spec(t) && out@[t]
                        == reported(self.conns.value_at_spec(t), now_ms) by {
                    if t < i - 1 {
                        assert(out@[t] == prev[t]);
                        assert(prev[t].id@ == self.conns.key_at_spec(t));
                    } else {
                        assert(out@[t] == item);
                    }
                }
            }
        }
        proof {
            self.conns.lemma_size();
            assert forall|t: int| 0 <= t < out@.len() implies self.view().contains_key(
                #[trigger] out@[t].id@,
            ) && out@[t] == reported(self.view()[out@[t].id@], now_ms) by {
                self.conns.lemma_entry_at(t);
            }
            assert forall|p: int, q: int| 0 <= p < q < out@.len() implies out@[p].id@
                != out@[q].id@ by {
                self.conns.lemma_entry_at(q);
            }
        }
        out
    }

    pub fn snapshot(&self) -> (r: Vec<ConnInfo>)
        requires
            self.wf(),
        ensures
            r@.len() == self.view().dom().len(),
            exists|now_ms: u64| reports_all(self.view(), r@, now_ms),
    {
        let now = self.mono_ms();
        let r = self.snapshot_at(now);
        assert(reports_all(self.view(), r@, now));
        r
    }

    /// Ids of connections whose last traffic is older than `cutoff_ms`.
    fn stale_ids(&self, cutoff_ms: u64) -> (r: Vec<String>)
        requires
            self.wf(),
        ensures
            forall|i: int|
                0 <= i < r@.len() ==> self.view().contains_key(#[trigger] r@[i]@) && is_stale(
                    self.view()[r@[i]@],
                    cutoff_ms,
                ),
            forall|k: Seq<char>|
                #[trigger] self.view().contains_key(k) && is_stale(self.view()[k], cutoff_ms)
                    ==> exists|i: int| 0 <= i < r@.len() && r@[i]@ == k,
    {
        let n = self.conns.len();
        let mut out: Vec<String> = Vec::new();
        let mut i: usize = 0;
        while i < n
            invariant
                self.wf(),
                n == self.conns.size(),
                i <= n,
                forall|t: int|
                    0 <= t < out@.len() ==> self.view().contains_key(#[trigger] out@[t]@)
                        && is_stale(self.view()[out@[t]@], cutoff_ms),
                forall|t: int|
                    0 <= t < i && is_stale(#[trigger] self.conns.value_at_spec(t), cutoff_ms)
                        ==> exists|u: int| 0 <= u < out@.len() && out@[u]@ == self.conns.key_at_spec(t),
            decreases n - i,
        {
            proof {
                self.conns.lemma_entry_at(i as int);
            }
            let rec = self.conns.value_at(i);
            let ghost prev = out@;
            if rec.info.last_seen_unix_ms < cutoff_ms {
                let k = self.conns.key_at(i).clone();
                out.push(k);
                proof {
                    assert(out@[out@.len() - 1]@ == self.conns.key_at_spec(i as int));
                }
            }
            proof {
                assert forall|t: int|
                    0 <= t < i + 1 && is_stale(#[trigger] self.conns.value_at_spec(t), cutoff_ms)
                        implies exists|u: int| 0 <= u < out@.len() && out@[u]@ == self.conns.key_at_spec(t) by {
                    if t < i {
                        let u = choose|u: int| 0 <= u < prev.len() && prev[u]@ == self.conns.key_at_spec(t);
                        assert(out@[u] == prev[u]);
                    } else {
                        assert(out@[out@.len() - 1]@ == self.conns.key_at_spec(t));
                    }
                }
                assert forall|t: int|
                    0 <= t < out@.len() implies self.view().contains_key(#[trigger] out@[t]@)
                        && is_stale(self.view()[out@[t]@], cutoff_ms) by {
                    if t < prev.len() {
                        assert(out@[t] == prev[t]);
                    }
                }
            }
            i = i + 1;
        }
        proof {
            assert forall|k: Seq<char>| #[trigger] self.view().contains_key(k) && is_stale(
                self.view()[k],
                cutoff_ms,
            ) implies exists|u: int| 0 <= u < out@.len() && out@[u]@ == k by {
                self.conns.lemma_key_has_index(k);
                let t = self.conns.index_of(k);
                self.conns.lemma_entry_at(t);
            }
        }
        out
    }

    /// Drops connections with no traffic for more than `STALE_SECS` as of
    /// `now_ms`; returns the `Closed` events (reason `stale-timeout`), one
    /// per connection dropped.
    pub fn sweep_stale_at(&mut self, now_ms: u64) -> (r: Vec<ConnEvent>)
        requires
            old(self).wf(),
        ensures
            final(self).wf(),
            final(self).view() == old(self).view().restrict(
                old(self).view().dom().filter(
                    |k: Seq<char>| !is_stale(old(self).view()[k], stale_cutoff(now_ms)),
                ),
            ),
            forall|i: int| 0 <= i < r@.len() ==> (#[trigger] r@[i]) is Closed,
            swept(old(self).view(), final(self).view(), r@, now_ms),
    {
        let cutoff = now_ms.saturating_sub(STALE_SECS * 1000);
        assert(cutoff == stale_cutoff(now_ms));
        let ids = self.stale_ids(cutoff);
        let ghost orig = self.view();
        let ghost gone = |k: Seq<char>| orig.contains_key(k) && is_stale(orig[k], cutoff);
        let mut events: Vec<ConnEvent> = Vec::new();
        let mut i: usize = 0;
        while i < ids.len()
            invariant
                self.wf(),
                i <= ids@.len(),
                forall|t: int| 0 <= t < ids@.len() ==> #[trigger] gone(ids@[t]@),
                forall|k: Seq<char>| #[trigger] gone(k) ==> exists|t: int| 0 <= t < ids@.len() && ids@[t]@ == k,
                forall|k: Seq<char>| #[trigger] self.view().contains_key(k) ==> orig.contains_key(k) && self.view()[k] == orig[k],
                forall|k: Seq<char>| orig.contains_key(k) && !gone(k) ==> #[trigger] self.view().contains_key(k),
                forall|t: int| 0 <= t < i ==> !self.view().contains_key(#[trigger] ids@[t]@),
                forall|t: int| 0 <= t < events@.len() ==> (#[trigger] events@[t]) is Closed,
                cutoff == stale_cutoff(now_ms),
                gone == (|k: Seq<char>| orig.contains_key(k) && is_stale(orig[k], cutoff)),
                forall|t: int| 0 <= t < events@.len() ==> stale_close(#[trigger] events@[t], orig, now_ms),
                forall|t: int| 0 <= t < events@.len() ==> !self.view().contains_key(event_id(#[trigger] events@[t])),
                forall|a: int, b: int|
                    0 <= a < b < events@.len() ==> event_id(#[trigger] events@[a]) != event_id(#[trigger] events@[b]),
                forall|k: Seq<char>|
                    #[trigger] orig.contains_key(k) && !self.view().contains_key(k) ==> exists|t: int|
                        0 <= t < events@.len() && event_id(#[trigger] events@[t]) == k,
            decreases ids@.len() - i,
        {
            let ghost before = self.view();
            let ghost evs = events@;
            let r = self.unregister_at(ids[i].as_str(), "stale-timeout", now_ms);
            if let Some(ev) = r {
                events.push(ev);
                proof {
                    assert(event_id(ev) == ids@[i as int]@);
                    assert(gone(ids@[i as int]@));
                    assert(stale_close(ev, orig, now_ms));
                    assert forall|t: int| 0 <= t < evs.len() implies event_id(evs[t]) != event_id(ev) by {
                        assert(!before.contains_key(event_id(evs[t])));
                    }
                    assert forall|k: Seq<char>| #[trigger] orig.contains_key(k) && !self.view().contains_key(k)
                        implies exists|t: int| 0 <= t < events@.len() && event_id(#[trigger] events@[t]) == k by {
                        if k == ids@[i as int]@ {
                            assert(event_id(events@[evs.len() as int]) == k);
                        } else {
                            assert(!before.contains_key(k));
                            let t = choose|t: int| 0 <= t < evs.len() && event_id(#[trigger] evs[t]) == k;
                            assert(events@[t] == evs[t]);
                        }
                    }
                }
            } else {
                proof {
                    assert forall|k: Seq<char>| #[trigger] orig.contains_key(k) && !self.view().contains_key(k)
                        implies exists|t: int| 0 <= t < events@.len() && event_id(#[trigger] events@[t]) == k by {
                        assert(!before.contains_key(k));
                    }
                }
            }
            i = i + 1;
        }
        proof {
            let keep = orig.dom().filter(|k: Seq<char>| !is_stale(orig[k], stale_cutoff(now_ms)));
            assert forall|k: Seq<char>| self.view().contains_key(k) <==> orig.restrict(keep).contains_key(k) by {
                if gone(k) {
                    let t = choose|t: int| 0 <= t < ids@.len() && ids@[t]@ == k;
                    assert(!self.view().contains_key(ids@[t]@));
                }
            }
            assert(self.view() =~= orig.restrict(keep));
            assert forall|k: Seq<char>| orig.contains_key(k) && is_stale(#[trigger] orig[k], stale_cutoff(now_ms))
                implies exists|t: int| 0 <= t < events@.len() && event_id(#[trigger] events@[t]) == k by {
                assert(gone(k));
                let t = choose|t: int| 0 <= t < ids@.len() && ids@[t]@ == k;
                assert(!self.view().contains_key(ids@[t]@));
            }
        }
        events
    }

    /// `sweep_stale_at` with the current time.
    pub fn sweep_stale(&mut self) -> (r: Vec<ConnEvent>)
        requires
            old(self).wf(),
        ensures
            final(self).wf(),
            final(self).view().dom().subset_of(old(self).view().dom()),
            exists|now_ms: u64| swept(old(self).view(), final(self).view(), r@, now_ms),
    {
        let now = unix_ms();
        let r = self.sweep_stale_at(now);
        assert(swept(old(self).view(), self.view(), r@, now));
        r
    }

    pub fn len(&self) -> (r: usize)
        requires
            self.wf(),
        ensures
            r == self.view().dom().len(),
    {
        self.conns.len()
    }

    pub fn is_empty(&self) -> (r: bool)
        requires
            self.wf(),
        ensures
            r == (self.view().dom().len() == 0),
    {
        self.conns.len() == 0
    }
}

/// A connection that is registered and then unregistered leaves the
/// registry as it was, when its id was not in use before.
pub proof fn register_then_unregister(
    before: Map<Seq<char>, ConnRecord>,
    id: Seq<char>,
    rec: ConnRecord,
)
    requires
        !before.contains_key(id),
    ensures
        before.insert(id, rec).remove(id) == before,
{
    assert(before.insert(id, rec).remove(id) =~= before);
}

// ─── Live log ──────────────────────────────────────────────────────────────
/// One line in the server's rolling live log.
#[derive(Debug, Clone)]
pub struct LogLine {
    pub ts_ms: u64,
    /// Coarse level for icon colouring: "info" | "warn" | "error" | "system".
    pub level: String,
    pub msg: String,
}

impl LogLine {
    pub fn duplicate(&self) -> (r: LogLine)
        ensures
            r == *self,
    {
        LogLine { ts_ms: self.ts_ms, level: self.level.clone(), msg: self.msg.clone() }
    }
}

/// Append-only ring buffer of recent log lines (default capacity 500).
#[derive(Debug)]
pub struct LogBuffer {
    lines: Vec<LogLine>,
    cap: usize,
}

/// The lines of `s` that stay when one more is pushed into a buffer of
/// capacity `cap`: the oldest goes when the buffer is full.
pub open spec fn kept(s: Seq<LogLine>, cap: nat) -> Seq<LogLine> {
    if s.len() == cap {
        s.drop_first()
    } else {
        s
    }
}

/// The last `n` elements of `s` (all of them when `n` exceeds the length).
pub open spec fn last_n<T>(s: Seq<T>, n: nat) -> Seq<T> {
    if n >= s.len() {
        s
    } else {
        s.skip(s.len() - n)
    }
}

impl LogBuffer {
    pub closed spec fn view(&self) -> Seq<LogLine> {
        self.lines@
    }

    pub closed spec fn capacity(&self) -> nat {
        self.cap as nat
    }

    /// Never holds more lines than its capacity.
    pub closed spec fn wf(&self) -> bool {
        self.lines@.len() <= self.cap
    }

    pub fn new() -> (r: Self)
        ensures
            r.wf(),
            r.view() == Seq::<LogLine>::empty(),
            r.capacity() == 500,
    {
        Self::with_capacity(500)
    }

    pub fn with_capacity(cap: usize) -> (r: Self)
        ensures
            r.wf(),
            r.view() == Seq::<LogLine>::empty(),
            r.capacity() == cap,
    {
        LogBuffer { lines: Vec::new(), cap }
    }

    /// Appends a line stamped `ts_ms`, dropping the oldest when full.
    pub fn push_at(&mut self, level: &str, msg: String, ts_ms: u64)
        requires
            old(self).wf(),
            old(self).capacity() > 0,
        ensures
            final(self).wf(),
            final(self).capacity() == old(self).capacity(),
            final(self).view().len() > 0,
            final(self).view().drop_last() == kept(old(self).view(), old(self).capacity()),
            final(self).view().last().ts_ms == ts_ms,
            final(self).view().last().level@ == level@,
            final(self).view().last().msg == msg,
    {
        let line = LogLine { ts_ms, level: text_of(level), msg };
        if self.lines.len() == self.cap {
            self.lines.remove(0);
        }
        self.lines.push(line);
        proof {
            if old(self).lines@.len() == self.cap {
                assert(old(self).lines@.remove(0) =~= old(self).lines@.drop_first());
            }
            assert(self.lines@.drop_last() =~= kept(old(self).lines@, self.cap as nat));
        }
    }

    /// Appends a line stamped with the current time.
    pub fn push(&mut self, level: &str, msg: String)
        requires
            old(self).wf(),
            old(self).capacity() > 0,
        ensures
            final(self).wf(),
            final(self).capacity() == old(self).capacity(),
            final(self).view().len() > 0,
            final(self).view().drop_last() == kept(old(self).view(), old(self).capacity()),
            final(self).view().last().msg == msg,
            final(self).view().last().level@ == level@,
    {
        let now = unix_ms();
        self.push_at(level, msg, now);
    }

    /// The last `n` lines, oldest first.
    pub fn tail(&self, n: usize) -> (r: Vec<LogLine>)
        ensures
            r@ == last_n(self.view(), n as nat),
    {
        let len = self.lines.len();
        let start = if n >= len {
            0
        } else {
            len - n
        };
        let mut out: Vec<LogLine> = Vec::new();
        let mut i: usize = start;
        while i < len
            invariant
                len == self.lines@.len(),
                start <= i <= len,
                out@ == self.lines@.subrange(start as int, i as int),
            decreases len - i,
        {
            out.push(self.lines[i].duplicate());
            assert(self.lines@.subrange(start as int, i + 1) =~= self.lines@.subrange(
                start as int,
                i as int,
            ).push(self.lines@[i as int]));
            i = i + 1;
        }
        assert(out@ =~= last_n(self.view(), n as nat));
        out
    }

    /// Number of lines held.
    pub fn len(&self) -> (r: usize)
        ensures
            r == self.view().len(),
    {
        self.lines.len()
    }
}

/// The live log never holds more lines than its capacity, and the newest
/// line is always the one pushed last.
pub proof fn log_push_keeps_bound(s: Seq<LogLine>, cap: nat, after: Seq<LogLine>)
    requires
        s.len() <= cap,
        cap > 0,
        after.len() > 0,
        after.drop_last() == kept(s, cap),
    ensures
        after.len() <= cap,
        last_n(after, 1) == seq![after.last()],
        s.len() < cap ==> after.len() == s.len() + 1,
        s.len() == cap ==> after.len() == cap,
{
    assert(after.len() == after.drop_last().len() + 1);
    assert(last_n(after, 1) =~= seq![after.last()]);
}

} // verus!
