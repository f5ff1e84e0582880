//! The per-connection protocol of the `/ws` channel.
//!
//! The socket, the JSON framing and the background tasks belong to the
//! caller; this module decides what each client frame leads to, which
//! paths a connection watches, and the text of every reply and log line.
use vstd::prelude::*;

use crate::error::text_of;
use crate::stats::StatsSnapshot;
use crate::table::KeyedTable;
use crate::text::{
    chars_eq, chars_vec, count_leading, find_char, has_char, push_char, push_str, string_from_chars, sub_vec,
    trim_start_char,
};

verus! {

broadcast use vstd::string::group_string_axioms;

/// A frame from the client.
#[derive(Debug)]
pub enum ClientMsg {
    Ping,
    Watch { path: String, recursive: Option<bool> },
    Unwatch { path: String },
    Bye,
}

/// A frame to the client.
#[derive(Debug)]
pub enum ServerMsg {
    Welcome { id: String, server_version: String, ip: String },
    Pong,
    Watching { path: String, watcher_id: String, recursive: bool },
    Error { op: String, message: String },
    Unwatched { path: String },
    Stats { active: u64, bytes_served: u64, errors: u64 },
}

/// A line for the server log: level and message.
#[derive(Debug)]
pub struct LogEntry {
    pub level: String,
    pub msg: String,
}

/// What the caller does with a client frame.
#[derive(Debug)]
pub enum WsStep {
    /// Send this reply.
    Reply(ServerMsg),
    /// Subscribe the connection to `path` in the watcher registry, then
    /// report the outcome to [`WsSession::on_subscribed`].
    Subscribe { path: String, recursive: bool },
    /// Unsubscribe the connection from `path`, clear its `watching` field,
    /// log `log` and send `reply`.
    Unwatch { path: String, log: LogEntry, reply: ServerMsg },
    /// Stop reading: the client said goodbye.
    Close,
}

/// What the caller does once a subscription was attempted.
#[derive(Debug)]
pub struct WatchOutcome {
    pub reply: ServerMsg,
    pub log: LogEntry,
    /// The path to record as the connection's `watching`, on success.
    pub watching: Option<String>,
}

/// The path is the share root or a directory right below it.
pub open spec fn top_level(path: Seq<char>) -> bool {
    let t = trim_start_char(path, '/');
    t.len() == 0 || !has_char(t, '/')
}

/// At most `max` characters of `s`, with `…` appended when cut.
pub open spec fn truncated(s: Seq<char>, max: nat) -> Seq<char> {
    if s.len() <= max {
        s
    } else {
        s.take(max as int).push('…')
    }
}

/// The first eight characters of an id.
pub open spec fn short_id(s: Seq<char>) -> Seq<char> {
    if s.len() <= 8 {
        s
    } else {
        s.take(8)
    }
}

/// Whether a watch is recursive: as requested, else everything below
/// the first level.
pub open spec fn watch_recursive(path: Seq<char>, requested: Option<bool>) -> bool {
    match requested {
        Some(b) => b,
        None => !top_level(path),
    }
}

pub fn is_top_level(path: &str) -> (r: bool)
    ensures
        r == top_level(path@),
{
    let v = chars_vec(path);
    let lead = count_leading(v.as_slice(), '/');
    let t = sub_vec(v.as_slice(), lead, v.len());
    assert(t@ =~= trim_start_char(path@, '/'));
    t.len() == 0 || find_char(t.as_slice(), '/').is_none()
}

pub fn truncate(s: &str, max: usize) -> (r: String)
    ensures
        r@ == truncated(s@, max as nat),
{
    let v = chars_vec(s);
    if v.len() <= max {
        string_from_chars(v.as_slice())
    } else {
        let head = sub_vec(v.as_slice(), 0, max);
        let mut out = string_from_chars(head.as_slice());
        push_char(&mut out, '…');
        assert(head@ =~= s@.take(max as int));
        out
    }
}

pub fn short(id: &str) -> (r: String)
    ensures
        r@ == short_id(id@),
{
    let v = chars_vec(id);
    if v.len() <= 8 {
        string_from_chars(v.as_slice())
    } else {
        let head = sub_vec(v.as_slice(), 0, 8);
        assert(head@ =~= id@.take(8));
        string_from_chars(head.as_slice())
    }
}

pub fn effective_recursive(path: &str, requested: Option<bool>) -> (r: bool)
    ensures
        r == watch_recursive(path@, requested),
{
    match requested {
        Some(b) => b,
        None => !is_top_level(path),
    }
}

/// `"[+] <ip> connected  ua=\"<user agent, cut at 40>\""`.
pub fn connected_line(ip: &str, user_agent: &str) -> (r: String)
    ensures
        r@ == "[+] "@ + ip@ + " connected  ua=\""@ + truncated(user_agent@, 40) + "\""@,
{
    let mut s = text_of("[+] ");
    push_str(&mut s, ip);
    push_str(&mut s, " connected  ua=\"");
    let ua = truncate(user_agent, 40);
    push_str(&mut s, ua.as_str());
    push_str(&mut s, "\"");
    s
}

/// `"[-] <ip> disconnected"`.
pub fn disconnected_line(ip: &str) -> (r: String)
    ensures
        r@ == "[-] "@ + ip@ + " disconnected"@,
{
    let mut s = text_of("[-] ");
    push_str(&mut s, ip);
    push_str(&mut s, " disconnected");
    s
}

/// The first frame of every connection.
pub fn welcome(id: &str, server_version: &str, ip: &str) -> (r: ServerMsg)
    ensures
        r matches ServerMsg::Welcome { id: i, server_version: v, ip: a } && i@ == id@
            && v@ == server_version@ && a@ == ip@,
{
    ServerMsg::Welcome { id: text_of(id), server_version: text_of(server_version), ip: text_of(ip) }
}

/// The periodic stats frame.
pub fn stats_msg(snap: &StatsSnapshot) -> (r: ServerMsg)
    ensures
        r == (ServerMsg::Stats { active: snap.active, bytes_served: snap.bytes_served, errors: snap.errors }),
{
    ServerMsg::Stats { active: snap.active, bytes_served: snap.bytes_served, errors: snap.errors }
}

/// The views of a list of strings.
pub open spec fn str_views(v: Seq<String>) -> Seq<Seq<char>> {
    v.map_values(|s: String| s@)
}

/// The entries of `cur` that `known` lacks, in order.
pub open spec fn missing_from(cur: Seq<Seq<char>>, known: Seq<Seq<char>>) -> Seq<Seq<char>>
    decreases cur.len(),
{
    if cur.len() == 0 {
        Seq::empty()
    } else {
        let rest = missing_from(cur.drop_last(), known);
        if known.contains(cur.last()) {
            rest
        } else {
            rest.push(cur.last())
        }
    }
}

/// Whether `s` is one of `v`.
pub fn contains_str(v: &Vec<String>, s: &str) -> (r: bool)
    ensures
        r == str_views(v@).contains(s@),
{
    let sv = chars_vec(s);
    let mut i: usize = 0;
    while i < v.len()
        invariant
            i <= v@.len(),
            sv@ == s@,
            forall|j: int| 0 <= j < i ==> v@[j]@ != s@,
        decreases v@.len() - i,
    {
        let c = chars_vec(v[i].as_str());
        if chars_eq(c.as_slice(), sv.as_slice()) {
            assert(str_views(v@)[i as int] == s@);
            return true;
        }
        i = i + 1;
    }
    assert(!str_views(v@).contains(s@)) by {
        if str_views(v@).contains(s@) {
            let j = choose|j: int| 0 <= j < str_views(v@).len() && str_views(v@)[j] == s@;
            assert(v@[j]@ == s@);
        }
    }
    false
}

/// The watched paths that have no event forwarder yet (`known` lists
/// those that have one), in the order of `cur`.
pub fn forwarders_to_start(cur: &Vec<String>, known: &Vec<String>) -> (r: Vec<String>)
    ensures
        str_views(r@) == missing_from(str_views(cur@), str_views(known@)),
{
    let mut out: Vec<String> = Vec::new();
    let mut i: usize = 0;
    while i < cur.len()
        invariant
            i <= cur@.len(),
            str_views(out@) == missing_from(str_views(cur@).take(i as int), str_views(known@)),
        decreases cur@.len() - i,
    {
        let ghost pre = str_views(cur@).take(i as int);
        assert(str_views(cur@).take(i + 1).drop_last() =~= pre);
        assert(str_views(cur@).take(i + 1).last() == cur@[i as int]@);
        if !contains_str(known, cur[i].as_str()) {
            out.push(cur[i].clone());
            assert(str_views(out@) =~= str_views(out@).drop_last().push(cur@[i as int]@));
        }
        i = i + 1;
    }
    assert(str_views(cur@).take(cur@.len() as int) =~= str_views(cur@));
    out
}

/// The state of one open socket: its connection id and the paths it
/// watches.
pub struct WsSession {
    conn_id: String,
    paths: KeyedTable<()>,
}

impl WsSession {
    pub closed spec fn id(&self) -> Seq<char> {
        self.conn_id@
    }

    /// The watched paths.
    pub closed spec fn watched(&self) -> Set<Seq<char>> {
        self.paths.view().dom()
    }

    pub closed spec fn wf(&self) -> bool {
        self.paths.wf()
    }

    pub fn new(conn_id: String) -> (r: Self)
        ensures
            r.wf(),
            r.id() == conn_id@,
            r.watched() == Set::<Seq<char>>::empty(),
    {
        let r = WsSession { conn_id, paths: KeyedTable::new() };
        assert(r.watched() =~= Set::<Seq<char>>::empty());
        r
    }

    pub fn conn_id(&self) -> (r: &String)
        ensures
            r@ == self.id(),
    {
        &self.conn_id
    }

    /// Whether `path` is watched by this connection.
    pub fn is_watching(&self, path: &str) -> (r: bool)
        requires
            self.wf(),
        ensures
            r == self.watched().contains(path@),
    {
        self.paths.find(path).is_some()
    }

    /// Decides what a client frame leads to. `Unwatch` forgets the path
    /// here at once; a watch is recorded when it succeeds.
    pub fn on_message(&mut self, msg: ClientMsg) -> (r: WsStep)
        requires
            old(self).wf(),
        ensures
            final(self).wf(),
            final(self).id() == old(self).id(),
            match msg {
                ClientMsg::Ping => r == WsStep::Reply(ServerMsg::Pong) && final(self).watched()
                    == old(self).watched(),
                ClientMsg::Watch { path, recursive } => {
                    &&& r matches WsStep::Subscribe { path: p, recursive: rec }
                    &&& p@ == path@
                    &&& rec == watch_recursive(path@, recursive)
                    &&& final(self).watched() == old(self).watched()
                },
                ClientMsg::Unwatch { path } => {
                    &&& r matches WsStep::Unwatch { path: p, log, reply: ServerMsg::Unwatched { path: q } }
                    &&& p@ == path@
                    &&& q@ == path@
                    &&& log.level@ == "info"@
                    &&& log.msg@ == "[←] "@ + short_id(old(self).id()) + " unwatch "@ + path@
                    &&& final(self).watched() == old(self).watched().remove(path@)
                },
                ClientMsg::Bye => r == WsStep::Close && final(self).watched() == old(self).watched(),
            },
    {
        match msg {
            ClientMsg::Ping => WsStep::Reply(ServerMsg::Pong),
            ClientMsg::Watch { path, recursive } => {
                let rec = effective_recursive(path.as_str(), recursive);
                WsStep::Subscribe { path, recursive: rec }
            },
            ClientMsg::Unwatch { path } => {
                let _ = self.paths.remove(path.as_str());
                proof {
                    assert(self.paths.view().dom() =~= old(self).paths.view().dom().remove(path@));
                }
                let mut msg = text_of("[←] ");
                let sid = short(self.conn_id.as_str());
                push_str(&mut msg, sid.as_str());
                push_str(&mut msg, " unwatch ");
                push_str(&mut msg, path.as_str());
                let reply = ServerMsg::Unwatched { path: path.clone() };
                WsStep::Unwatch { path, log: LogEntry { level: text_of("info"), msg }, reply }
            },
            ClientMsg::Bye => WsStep::Close,
        }
    }

    /// Records the outcome of a subscription to `path`: on success the
    /// watcher's id, on failure the error's text.
    pub fn on_subscribed(&mut self, path: String, recursive: bool, result: Result<String, String>) -> (r:
        WatchOutcome)
        requires
            old(self).wf(),
        ensures
            final(self).wf(),
            final(self).id() == old(self).id(),
            match result {
                Ok(watcher_id) => {
                    &&& final(self).watched() == old(self).watched().insert(path@)
                    &&& r.reply matches ServerMsg::Watching { path: p, watcher_id: w, recursive: rec }
                        && p@ == path@ && w@ == watcher_id@ && rec == recursive
                    &&& r.log.level@ == "info"@
                    &&& r.log.msg@ == "[→] "@ + short_id(old(self).id()) + " watch "@ + path@
                    &&& r.watching matches Some(w) && w@ == path@
                },
                Err(e) => {
                    &&& final(self).watched() == old(self).watched()
                    &&& r.reply matches ServerMsg::Error { op, message } && op@ == "watch"@
                        && message@ == e@
                    &&& r.log.level@ == "warn"@
                    &&& r.log.msg@ == "[!] "@ + short_id(old(self).id()) + " watch "@ + path@
                        + " failed: "@ + e@
                    &&& r.watching is None
                },
            },
    {
        let sid = short(self.conn_id.as_str());
        match result {
            Ok(watcher_id) => {
                self.paths.insert(path.clone(), ());
                proof {
                    assert(self.paths.view().dom() =~= old(self).paths.view().dom().insert(path@));
                }
                let mut msg = text_of("[→] ");
                push_str(&mut msg, sid.as_str());
                push_str(&mut msg, " watch ");
                push_str(&mut msg, path.as_str());
                let watching = Some(path.clone());
                WatchOutcome {
                    reply: ServerMsg::Watching { path, watcher_id, recursive },
                    log: LogEntry { level: text_of("info"), msg },
                    watching,
                }
            },
            Err(e) => {
                let mut msg = text_of("[!] ");
                push_str(&mut msg, sid.as_str());
                push_str(&mut msg, " watch ");
                push_str(&mut msg, path.as_str());
                push_str(&mut msg, " failed: ");
                push_str(&mut msg, e.as_str());
                WatchOutcome {
                    reply: ServerMsg::Error { op: text_of("watch"), message: e },
                    log: LogEntry { level: text_of("warn"), msg },
                    watching: None,
                }
            },
        }
    }

    /// The paths to unsubscribe when the socket closes: every watched
    /// path, once each.
    pub fn close_paths(&self) -> (r: Vec<String>)
        requires
            self.wf(),
        ensures
            r@.map_values(|s: String| s@).to_set() == self.watched(),
            r@.map_values(|s: String| s@).no_duplicates(),
    {
        let n = self.paths.len();
        let mut out: Vec<String> = Vec::new();
        let mut i: usize = 0;
        while i < n
            invariant
                self.wf(),
                n == self.paths.size(),
                i <= n,
                out@.len() == i,
                forall|j: int| 0 <= j < i ==> #[trigger] out@[j]@ == self.paths.key_at_spec(j),
            decreases n - i,
        {
            out.push(self.paths.key_at(i).clone());
            i = i + 1;
        }
        proof {
            let s = out@.map_values(|s: String| s@);
            assert forall|k: Seq<char>| s.to_set().contains(k) implies self.watched().contains(k) by {
                let j = choose|j: int| 0 <= j < s.len() && s[j] == k;
                self.paths.lemma_entry_at(j);
            }
            assert forall|k: Seq<char>| self.watched().contains(k) implies s.to_set().contains(k) by {
                self.paths.lemma_key_has_index(k);
                let j = self.paths.index_of(k);
                assert(s[j] == k);
            }
            assert(s.to_set() =~= self.watched());
            assert forall|a: int, b: int| 0 <= a < s.len() && 0 <= b < s.len() && a != b implies s[a]
                != s[b] by {
                self.paths.lemma_entry_at(a);
            }
        }
        out
    }
}

/// Watching a path twice watches it once; unwatching a path that was not
/// watched before the watch restores the watched set.
pub proof fn unwatch_undoes_watch(watched: Set<Seq<char>>, path: Seq<char>)
    ensures
        watched.insert(path).insert(path) == watched.insert(path),
        !watched.contains(path) ==> watched.insert(path).remove(path) == watched,
        !watched.insert(path).remove(path).contains(path),
{
    assert(watched.insert(path).insert(path) =~= watched.insert(path));
    if !watched.contains(path) {
        assert(watched.insert(path).remove(path) =~= watched);
    }
}

} // verus!
