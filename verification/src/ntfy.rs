//! The coordinator: it owns the set of watched `(server, topic)` pairs,
//! validates and persists subscriptions, restores them from the store,
//! mediates account operations, and names the listeners a refresh must
//! restart. Spawning tasks, probing the network and driving mailboxes are
//! the surrounding application's work.
use vstd::prelude::*;

verus! {

use crate::credentials::{conflicting_account, find_kv, upsert_kv, Credentials};
use crate::http_client::{basic_auth_of, basic_auth_value, RequestInfo, RequestInfoV};
use crate::message_repo::{find_sub, Db};
use crate::models::{valid_topic, Account, Subscription, SubscriptionBuilder};
use crate::strutil::str_eq;
use crate::urls;
use crate::Error;

/// The key of one live listener.
#[derive(Clone, Debug)]
pub struct WatchKey {
    pub server: String,
    pub topic: String,
}

impl WatchKey {
    /// A field-for-field copy.
    pub fn duplicate(&self) -> (r: WatchKey)
        ensures
            r == *self,
    {
        WatchKey { server: self.server.clone(), topic: self.topic.clone() }
    }
}

/// The index of the first watch entry with this key, or -1.
pub open spec fn find_watch(ws: Seq<WatchKey>, server: Seq<char>, topic: Seq<char>) -> int
    decreases ws.len(),
{
    if ws.len() == 0 {
        -1
    } else if ws[0].server@ == server && ws[0].topic@ == topic {
        0
    } else {
        let r = find_watch(ws.skip(1), server, topic);
        if r == -1 {
            -1
        } else {
            r + 1
        }
    }
}

/// A found watch index is in range and matches; -1 means no entry does.
pub proof fn lemma_find_watch_props(ws: Seq<WatchKey>, server: Seq<char>, topic: Seq<char>)
    ensures
        find_watch(ws, server, topic) == -1 ==> (forall|j: int|
            0 <= j < ws.len() ==> !((#[trigger] ws[j]).server@ == server && ws[j].topic@
                == topic)),
        find_watch(ws, server, topic) >= 0 ==> {
            let i = find_watch(ws, server, topic);
            i < ws.len() && ws[i].server@ == server && ws[i].topic@ == topic
        },
    decreases ws.len(),
{
    if ws.len() > 0 && !(ws[0].server@ == server && ws[0].topic@ == topic) {
        lemma_find_watch_props(ws.skip(1), server, topic);
        lemma_find_watch_range(ws.skip(1), server, topic);
        if find_watch(ws.skip(1), server, topic) == -1 {
            assert forall|j: int| 0 <= j < ws.len() implies !((#[trigger] ws[j]).server@ == server
                && ws[j].topic@ == topic) by {
                if j > 0 {
                    assert(ws.skip(1)[j - 1] == ws[j]);
                }
            }
        } else {
            assert(ws.skip(1)[find_watch(ws.skip(1), server, topic)] == ws[find_watch(
                ws,
                server,
                topic,
            )]);
        }
    }
}

/// `find_watch` returns -1 or an index into the entries.
pub proof fn lemma_find_watch_range(ws: Seq<WatchKey>, server: Seq<char>, topic: Seq<char>)
    ensures
        -1 <= find_watch(ws, server, topic) < ws.len(),
    decreases ws.len(),
{
    if ws.len() > 0 && !(ws[0].server@ == server && ws[0].topic@ == topic) {
        lemma_find_watch_range(ws.skip(1), server, topic);
    }
}

/// When `k` is the first matching entry, `find_watch` returns it.
pub proof fn lemma_find_watch_at(ws: Seq<WatchKey>, server: Seq<char>, topic: Seq<char>, k: int)
    requires
        0 <= k < ws.len(),
        ws[k].server@ == server,
        ws[k].topic@ == topic,
        forall|j: int|
            0 <= j < k ==> !((#[trigger] ws[j]).server@ == server && ws[j].topic@ == topic),
    ensures
        find_watch(ws, server, topic) == k,
    decreases ws.len(),
{
    if k > 0 {
        assert(ws.skip(1)[k - 1] == ws[k]);
        assert forall|j: int| 0 <= j < k - 1 implies !((#[trigger] ws.skip(1)[j]).server@ == server
            && ws.skip(1)[j].topic@ == topic) by {
            assert(ws.skip(1)[j] == ws[j + 1]);
        }
        lemma_find_watch_at(ws.skip(1), server, topic, k - 1);
    }
}

/// When no entry matches, `find_watch` returns -1.
pub proof fn lemma_find_watch_none(ws: Seq<WatchKey>, server: Seq<char>, topic: Seq<char>)
    requires
        forall|j: int|
            0 <= j < ws.len() ==> !((#[trigger] ws[j]).server@ == server && ws[j].topic@
                == topic),
    ensures
        find_watch(ws, server, topic) == -1,
    decreases ws.len(),
{
    if ws.len() > 0 {
        assert forall|j: int| 0 <= j < ws.skip(1).len() implies !((#[trigger] ws.skip(
            1,
        )[j]).server@ == server && ws.skip(1)[j].topic@ == topic) by {
            assert(ws.skip(1)[j] == ws[j + 1]);
        }
        lemma_find_watch_none(ws.skip(1), server, topic);
    }
}

/// The watch list never holds two entries for one key.
pub open spec fn unique_watches(ws: Seq<WatchKey>) -> bool {
    forall|i: int, j: int|
        0 <= i < j < ws.len() ==> !((#[trigger] ws[i]).server@ == (#[trigger] ws[j]).server@
            && ws[i].topic@ == ws[j].topic@)
}

/// The coordinator's state: the store, the credential map, and the keys of
/// the live listeners.
#[derive(Debug)]
pub struct NtfyActor {
    pub db: Db,
    pub credentials: Credentials,
    pub watching: Vec<WatchKey>,
}

impl NtfyActor {
    /// The coordinator's standing shape; in particular, at most one
    /// listener per `(server, topic)`.
    pub open spec fn wf(self) -> bool {
        &&& self.db.wf()
        &&& self.credentials.wf()
        &&& unique_watches(self.watching@)
    }

    pub fn new(db: Db, credentials: Credentials) -> (r: NtfyActor)
        requires
            db.wf(),
            credentials.wf(),
        ensures
            r.wf(),
            r.db == db,
            r.credentials == credentials,
            r.watching@.len() == 0,
    {
        NtfyActor { db, credentials, watching: Vec::new() }
    }

    /// The index of the watch entry for this key.
    fn find_watch_entry(&self, server: &str, topic: &str) -> (r: Option<usize>)
        ensures
            match r {
                Some(i) => find_watch(self.watching@, server@, topic@) == i,
                None => find_watch(self.watching@, server@, topic@) == -1,
            },
    {
        let mut i: usize = 0;
        while i < self.watching.len()
            invariant
                i <= self.watching@.len(),
                forall|j: int|
                    0 <= j < i ==> !((#[trigger] self.watching@[j]).server@ == server@
                        && self.watching@[j].topic@ == topic@),
            decreases self.watching@.len() - i,
        {
            if str_eq(self.watching[i].server.as_str(), server) && str_eq(
                self.watching[i].topic.as_str(),
                topic,
            ) {
                proof {
                    lemma_find_watch_at(self.watching@, server@, topic@, i as int);
                }
                return Some(i);
            }
            i = i + 1;
        }
        proof {
            lemma_find_watch_none(self.watching@, server@, topic@);
        }
        None
    }

    /// Start watching a key, unless a listener for it already runs: the
    /// watch list keeps at most one entry per key.
    fn watch(&mut self, server: &str, topic: &str)
        requires
            unique_watches(old(self).watching@),
        ensures
            final(self).db == old(self).db,
            final(self).credentials == old(self).credentials,
            unique_watches(final(self).watching@),
            find_watch(old(self).watching@, server@, topic@) >= 0 ==> final(self).watching == old(self).watching,
            find_watch(old(self).watching@, server@, topic@) == -1 ==> {
                &&& final(self).watching@.len() == old(self).watching@.len() + 1
                &&& (forall|i: int|
                    0 <= i < old(self).watching@.len() ==> final(self).watching@[i] == old(self).watching@[i])
                &&& final(self).watching@.last().server@ == server@
                &&& final(self).watching@.last().topic@ == topic@
            },
    {
        let ghost before = self.watching@;
        match self.find_watch_entry(server, topic) {
            Some(_) => {},
            None => {
                proof {
                    lemma_find_watch_props(before, server@, topic@);
                }
                self.watching.push(WatchKey { server: server.to_owned(), topic: topic.to_owned() });
                proof {
                    assert forall|i: int, j: int|
                        0 <= i < j < self.watching@.len() implies !((
                    #[trigger] self.watching@[i]).server@ == (#[trigger] self.watching@[j]).server@
                        && self.watching@[i].topic@ == self.watching@[j].topic@) by {
                        assert(self.watching@[i] == before[i]);
                        if j < before.len() {
                            assert(self.watching@[j] == before[j]);
                        }
                    }
                }
            },
        }
    }

    /// Subscribe to a topic: validate, persist, and start a listener. A
    /// subscription the store already holds is refused by the store.
    pub fn handle_subscribe(&mut self, server: &str, topic: &str) -> (r: Result<
        Subscription,
        Vec<Error>,
    >)
        requires
            old(self).wf(),
            old(self).db.servers@.len() < 0x7fff_ffff_ffff_ffff,
        ensures
            final(self).wf(),
            final(self).credentials == old(self).credentials,
            !(valid_topic(topic@) && urls::server_base_ok(server@)) ==> r is Err && *final(self)
                == *old(self),
            valid_topic(topic@) && urls::server_base_ok(server@) && find_sub(
                old(self).db.subscriptions@,
                server@,
                topic@,
            ) >= 0 ==> r is Err && final(self).watching == old(self).watching && final(self).db.subscriptions == old(self).db.subscriptions,
            valid_topic(topic@) && urls::server_base_ok(server@) && find_sub(
                old(self).db.subscriptions@,
                server@,
                topic@,
            ) == -1 ==> {
                &&& r matches Ok(sub) && sub.server@ == server@ && sub.topic@ == topic@
                    && sub.read_until == 0
                &&& final(self).db.subscriptions@.len() == old(self).db.subscriptions@.len() + 1
                &&& find_sub(final(self).db.subscriptions@, server@, topic@) >= 0
                &&& find_watch(final(self).watching@, server@, topic@) >= 0
            },
    {
        let built = SubscriptionBuilder::new(topic.to_owned()).server(server.to_owned()).build();
        let sub = match built {
            Ok(s) => s,
            Err(es) => {
                return Err(es);
            },
        };
        match self.db.insert_subscription(sub.duplicate()) {
            Ok(()) => {},
            Err(e) => {
                let mut es: Vec<Error> = Vec::new();
                es.push(e);
                return Err(es);
            },
        }
        proof {
            let pre = old(self).db.subscriptions@;
            crate::message_repo::lemma_find_sub_range(pre, server@, topic@);
            assert(find_sub(pre, server@, topic@) == -1);
            let subs = self.db.subscriptions@;
            assert(subs.len() == pre.len() + 1);
            assert(subs.last().server@ == server@ && subs.last().topic@ == topic@);
            crate::message_repo::lemma_find_sub_props(subs, server@, topic@);
            crate::message_repo::lemma_find_sub_range(subs, server@, topic@);
            if find_sub(subs, server@, topic@) == -1 {
                assert(!(subs.last().server@ == server@ && subs.last().topic@ == topic@));
            }
        }
        let ghost pre_watch = self.watching@;
        self.watch(server, topic);
        proof {
            lemma_find_watch_range(pre_watch, server@, topic@);
            if find_watch(pre_watch, server@, topic@) >= 0 {
                assert(self.watching@ == pre_watch);
            } else {
                let n = self.watching@.len() - 1;
                assert(self.watching@[n] == self.watching@.last());
                assert(self.watching@[n].server@ == server@ && self.watching@[n].topic@ == topic@);
                lemma_find_watch_props(self.watching@, server@, topic@);
                lemma_find_watch_range(self.watching@, server@, topic@);
                if find_watch(self.watching@, server@, topic@) == -1 {
                    assert(!(self.watching@[n].server@ == server@ && self.watching@[n].topic@
                        == topic@));
                }
            }
        }
        Ok(sub)
    }

    /// Unsubscribe: stop watching the key and remove the stored row. The
    /// watch entry goes away even when the store has no row.
    pub fn handle_unsubscribe(&mut self, server: &str, topic: &str) -> (r: Result<(), Error>)
        requires
            old(self).wf(),
            old(self).db.servers@.len() < 0x7fff_ffff_ffff_ffff,
        ensures
            final(self).wf(),
            final(self).credentials == old(self).credentials,
            final(self).db.messages == old(self).db.messages,
            find_watch(old(self).watching@, server@, topic@) == -1 ==> final(self).watching == old(self).watching,
            find_watch(old(self).watching@, server@, topic@) >= 0 ==> final(self).watching@ == old(self).watching@.remove(find_watch(old(self).watching@, server@, topic@)),
            find_sub(old(self).db.subscriptions@, server@, topic@) == -1 ==> (r matches Err(e)
                && e matches Error::SubscriptionNotFound(_)) && final(self).db.subscriptions == old(self).db.subscriptions,
            find_sub(old(self).db.subscriptions@, server@, topic@) >= 0 ==> r is Ok && final(self).db.subscriptions@ == old(self).db.subscriptions@.remove(
                find_sub(old(self).db.subscriptions@, server@, topic@),
            ),
    {
        let ghost before = self.watching@;
        match self.find_watch_entry(server, topic) {
            Some(i) => {
                proof {
                    lemma_find_watch_props(before, server@, topic@);
                }
                self.watching.remove(i);
                proof {
                    assert forall|a: int, b: int|
                        0 <= a < b < self.watching@.len() implies !((
                    #[trigger] self.watching@[a]).server@ == (#[trigger] self.watching@[b]).server@
                        && self.watching@[a].topic@ == self.watching@[b].topic@) by {
                        let ia = if a < i { a } else { a + 1 };
                        let ib = if b < i { b } else { b + 1 };
                        assert(self.watching@[a] == before[ia]);
                        assert(self.watching@[b] == before[ib]);
                    }
                }
            },
            None => {},
        }
        self.db.remove_subscription(server, topic)
    }

    /// Every stored account, with the secret redacted.
    pub fn list_accounts(&self) -> (r: Vec<Account>)
        ensures
            r@.len() == self.credentials.map_view().len(),
            forall|i: int|
                0 <= i < r@.len() ==> {
                    let a = #[trigger] r@[i];
                    a.server@ == self.credentials.map_view()[i].0 && a.username@
                        == self.credentials.map_view()[i].1.0
                },
    {
        let all = self.credentials.list_all();
        let mut out: Vec<Account> = Vec::new();
        let mut i: usize = 0;
        while i < all.len()
            invariant
                i <= all@.len(),
                out@.len() == i,
                all@.len() == self.credentials.map_view().len(),
                forall|j: int|
                    0 <= j < all@.len() ==> {
                        let e = #[trigger] all@[j];
                        (e.0@, (e.1.username@, e.1.password@)) == self.credentials.map_view()[j]
                    },
                forall|j: int|
                    0 <= j < i ==> {
                        let a = #[trigger] out@[j];
                        a.server@ == self.credentials.map_view()[j].0 && a.username@
                            == self.credentials.map_view()[j].1.0
                    },
            decreases all@.len() - i,
        {
            out.push(
                Account { server: all[i].0.clone(), username: all[i].1.username.clone() },
            );
            i = i + 1;
        }
        out
    }

    /// The request that probes an account: `GET {server}/stats/auth` with
    /// the candidate credentials attached; any topic works, as the probe
    /// only checks who is asking.
    pub fn auth_probe_request(server: &str, username: &str, password: &str) -> (r: Result<
        RequestInfo,
        Error,
    >)
        ensures
            r is Ok <==> urls::server_base_ok(server@),
            r matches Ok(req) ==> req@ == (RequestInfoV {
                method: "GET"@,
                url: urls::auth_url_of(server@, "stats"@),
                headers: seq![("Authorization"@, basic_auth_of(username@, password@))],
                body: None,
            }),
            r matches Err(e) ==> e matches Error::InvalidServer(_),
    {
        let url = match Subscription::build_auth_url(server, "stats") {
            Ok(u) => u,
            Err(e) => {
                return Err(e);
            },
        };
        let mut headers: Vec<(String, String)> = Vec::new();
        headers.push((String::from_str("Authorization"), basic_auth_value(username, password)));
        let req = RequestInfo { method: String::from_str("GET"), url, headers, body: None };
        proof {
            assert(req@.headers =~= seq![("Authorization"@, basic_auth_of(username@, password@))]);
        }
        Ok(req)
    }

    /// Store an account once the probe answered: only a 2xx status admits
    /// it, and the store keeps one account per server. On success the
    /// returned keys name every live listener — each must be restarted so
    /// it picks the new credentials up.
    pub fn handle_add_account(
        &mut self,
        server: &str,
        username: &str,
        password: &str,
        probe_status: u16,
    ) -> (r: Result<Vec<WatchKey>, Error>)
        requires
            old(self).wf(),
        ensures
            final(self).wf(),
            final(self).db == old(self).db,
            final(self).watching == old(self).watching,
            !(200 <= probe_status < 300) ==> (r matches Err(e) && (e matches Error::Http(st) && st
                == probe_status)) && final(self).credentials == old(self).credentials,
            200 <= probe_status < 300 && conflicting_account(
                old(self).credentials.map_view(),
                server@,
                username@,
            ) ==> (r matches Err(e) && e matches Error::SingleAccountPerServer) && final(self).credentials == old(self).credentials,
            200 <= probe_status < 300 && !conflicting_account(
                old(self).credentials.map_view(),
                server@,
                username@,
            ) ==> final(self).credentials.map_view() == upsert_kv(
                old(self).credentials.map_view(),
                server@,
                (username@, password@),
            ) && (r matches Ok(targets) && targets@.len() == old(self).watching@.len() && (forall|
                i: int,
            |
                0 <= i < targets@.len() ==> (#[trigger] targets@[i]).server@ == old(self).watching@[i].server@ && targets@[i].topic@ == old(self).watching@[i].topic@)),
    {
        if !(200 <= probe_status && probe_status < 300) {
            return Err(Error::Http(probe_status));
        }
        match self.credentials.insert(server, username, password) {
            Ok(()) => Ok(self.refresh_targets()),
            Err(e) => Err(e),
        }
    }

    /// Forget the account of a server.
    pub fn handle_remove_account(&mut self, server: &str) -> (r: Result<(), Error>)
        requires
            old(self).wf(),
        ensures
            final(self).wf(),
            final(self).db == old(self).db,
            final(self).watching == old(self).watching,
            find_kv(old(self).credentials.map_view(), server@) == -1 ==> (r matches Err(e)
                && e matches Error::AccountNotFound) && final(self).credentials == old(self).credentials,
            find_kv(old(self).credentials.map_view(), server@) >= 0 ==> r is Ok && final(self).credentials.map_view() == old(self).credentials.map_view().remove(
                find_kv(old(self).credentials.map_view(), server@),
            ),
    {
        self.credentials.delete(server)
    }

    /// The keys of every live listener: a refresh sends each a restart.
    pub fn refresh_targets(&self) -> (r: Vec<WatchKey>)
        ensures
            r@.len() == self.watching@.len(),
            forall|i: int|
                0 <= i < r@.len() ==> (#[trigger] r@[i]).server@ == self.watching@[i].server@
                    && r@[i].topic@ == self.watching@[i].topic@,
    {
        let mut out: Vec<WatchKey> = Vec::new();
        let mut i: usize = 0;
        while i < self.watching.len()
            invariant
                i <= self.watching@.len(),
                out@.len() == i,
                forall|j: int|
                    0 <= j < i ==> (#[trigger] out@[j]).server@ == self.watching@[j].server@
                        && out@[j].topic@ == self.watching@[j].topic@,
            decreases self.watching@.len() - i,
        {
            out.push(self.watching[i].duplicate());
            i = i + 1;
        }
        out
    }

    /// Restore the stored subscriptions: list them and start a listener
    /// for each key not already watched. Returns the rows; the caller
    /// spawns each listener from `ListenerConfig::for_subscription`, so a
    /// restored stream resumes at the row's read watermark.
    pub fn handle_watch_subscribed(&mut self) -> (r: Result<Vec<Subscription>, Error>)
        requires
            old(self).wf(),
        ensures
            final(self).wf(),
            final(self).db == old(self).db,
            final(self).credentials == old(self).credentials,
            r is Ok,
            old(self).watching@.len() <= final(self).watching@.len(),
            forall|i: int|
                0 <= i < old(self).watching@.len() ==> final(self).watching@[i] == old(
                    self,
                ).watching@[i],
            r matches Ok(subs) ==> {
                &&& subs@.to_multiset() == old(self).db.subscriptions@.to_multiset()
                &&& forall|i: int|
                    0 <= i < subs@.len() ==> find_watch(
                        final(self).watching@,
                        (#[trigger] subs@[i]).server@,
                        subs@[i].topic@,
                    ) >= 0
            },
    {
        let subs = match self.db.list_subscriptions() {
            Ok(s) => s,
            Err(e) => {
                return Err(e);
            },
        };
        let mut i: usize = 0;
        while i < subs.len()
            invariant
                i <= subs@.len(),
                self.db == old(self).db,
                self.credentials == old(self).credentials,
                unique_watches(self.watching@),
                old(self).watching@.len() <= self.watching@.len(),
                forall|j: int|
                    0 <= j < old(self).watching@.len() ==> self.watching@[j] == old(
                        self,
                    ).watching@[j],
                forall|j: int|
                    0 <= j < i ==> find_watch(
                        self.watching@,
                        (#[trigger] subs@[j]).server@,
                        subs@[j].topic@,
                    ) >= 0,
            decreases subs@.len() - i,
        {
            let ghost before = self.watching@;
            self.watch(subs[i].server.as_str(), subs[i].topic.as_str());
            proof {
                lemma_find_watch_range(before, subs@[i as int].server@, subs@[i as int].topic@);
                if find_watch(before, subs@[i as int].server@, subs@[i as int].topic@) == -1 {
                    lemma_find_watch_at(
                        self.watching@,
                        subs@[i as int].server@,
                        subs@[i as int].topic@,
                        before.len() as int,
                    );
                }
                assert forall|j: int| 0 <= j <= i implies find_watch(
                    self.watching@,
                    (#[trigger] subs@[j]).server@,
                    subs@[j].topic@,
                ) >= 0 by {
                    if j < i {
                        lemma_find_watch_props(before, subs@[j].server@, subs@[j].topic@);
                        let w = find_watch(before, subs@[j].server@, subs@[j].topic@);
                        assert(self.watching@[w] == before[w]);
                        lemma_find_watch_range(before, subs@[j].server@, subs@[j].topic@);
                        lemma_find_watch_range(
                            self.watching@,
                            subs@[j].server@,
                            subs@[j].topic@,
                        );
                        lemma_find_watch_props(
                            self.watching@,
                            subs@[j].server@,
                            subs@[j].topic@,
                        );
                        if find_watch(self.watching@, subs@[j].server@, subs@[j].topic@) == -1 {
                            assert(!(self.watching@[w].server@ == subs@[j].server@
                                && self.watching@[w].topic@ == subs@[j].topic@));
                        }
                    }
                }
            }
            i = i + 1;
        }
        Ok(subs)
    }
}

/// At most one listener per `(server, topic)`: a well-formed coordinator's
/// watch list never holds two entries with the same key, so no key ever
/// has two live listeners.
pub proof fn lemma_single_listener_per_key(actor: NtfyActor, i: int, j: int)
    requires
        actor.wf(),
        0 <= i < actor.watching@.len(),
        0 <= j < actor.watching@.len(),
        i != j,
    ensures
        !(actor.watching@[i].server@ == actor.watching@[j].server@ && actor.watching@[i].topic@
            == actor.watching@[j].topic@),
{
    if i < j {
        assert(unique_watches(actor.watching@));
    } else {
        assert(unique_watches(actor.watching@));
    }
}

} // verus!
