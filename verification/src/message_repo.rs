//! The durable store's semantics, fully verified over an in-memory model:
//! message rows de-duplicated on `(server, id)` and kept in time order,
//! subscription rows unique per `(server, topic)`, and a server table of
//! stable integer ids. The storage engine behind the schema is abstracted
//! away; durability is the surrounding application's concern.
use vstd::prelude::*;

verus! {

use crate::Error;
use vstd::multiset::Multiset;
use crate::json::{json_str_field, json_u64_field};
use crate::models::{min_message_parses, MinMessage, Subscription};
use crate::strutil::{lex_cmp, lemma_lex_cmp_antisym, lemma_lex_cmp_eq, lemma_lex_cmp_trans, str_cmp, str_eq};

/// One stored message row: the raw JSON blob and the fields the store
/// indexes it by.
#[derive(Clone, Debug)]
pub struct StoredMessage {
    pub server: String,
    pub topic: String,
    pub id: String,
    pub time: u64,
    pub data: String,
}

impl StoredMessage {
    /// A field-for-field copy.
    pub fn duplicate(&self) -> (r: StoredMessage)
        ensures
            r == *self,
    {
        StoredMessage {
            server: self.server.clone(),
            topic: self.topic.clone(),
            id: self.id.clone(),
            time: self.time,
            data: self.data.clone(),
        }
    }
}

/// A row is keyed by its own blob: the indexed id, topic and time are the
/// blob's fields.
pub open spec fn row_keyed(m: StoredMessage) -> bool {
    &&& json_str_field(m.data@, "id"@) == Some(m.id@)
    &&& json_str_field(m.data@, "topic"@) == Some(m.topic@)
    &&& json_u64_field(m.data@, "time"@) == Some(m.time)
}

/// Rows are kept in non-decreasing time order; insertion is stable, so
/// rows with equal times stay in arrival order.
pub open spec fn sorted_by_time(ms: Seq<StoredMessage>) -> bool {
    forall|i: int, j: int| 0 <= i < j < ms.len() ==> #[trigger] ms[i].time <= #[trigger] ms[j].time
}

/// Whether a row with this `(server, id)` is stored.
pub open spec fn has_msg(ms: Seq<StoredMessage>, server: Seq<char>, id: Seq<char>) -> bool {
    exists|i: int|
        0 <= i < ms.len() && (#[trigger] ms[i]).server@ == server && ms[i].id@ == id
}

/// The index of the first server row with this endpoint, or -1.
pub open spec fn find_server(ss: Seq<String>, server: Seq<char>) -> int
    decreases ss.len(),
{
    if ss.len() == 0 {
        -1
    } else if ss[0]@ == server {
        0
    } else {
        let r = find_server(ss.skip(1), server);
        if r == -1 {
            -1
        } else {
            r + 1
        }
    }
}

/// The index of the first subscription row with this key, or -1.
pub open spec fn find_sub(subs: Seq<Subscription>, server: Seq<char>, topic: Seq<char>) -> int
    decreases subs.len(),
{
    if subs.len() == 0 {
        -1
    } else if subs[0].server@ == server && subs[0].topic@ == topic {
        0
    } else {
        let r = find_sub(subs.skip(1), server, topic);
        if r == -1 {
            -1
        } else {
            r + 1
        }
    }
}

/// Where a new row of time `t` goes: after every row with time <= `t`.
pub open spec fn insert_pos(ms: Seq<StoredMessage>, t: u64) -> int
    decreases ms.len(),
{
    if ms.len() == 0 {
        0
    } else if ms.last().time <= t {
        ms.len() as int
    } else {
        insert_pos(ms.drop_last(), t)
    }
}

/// A new row's position is within the table.
pub proof fn lemma_insert_pos_range(ms: Seq<StoredMessage>, t: u64)
    ensures
        0 <= insert_pos(ms, t) <= ms.len(),
    decreases ms.len(),
{
    if ms.len() > 0 && ms.last().time > t {
        lemma_insert_pos_range(ms.drop_last(), t);
    }
}

/// How the message table changes when a blob with these minimal fields is
/// inserted: one new row at its time-ordered position, everything else in
/// place.
pub open spec fn msg_inserted(
    pre: Seq<StoredMessage>,
    post: Seq<StoredMessage>,
    server: Seq<char>,
    data: Seq<char>,
) -> bool {
    let id = json_str_field(data, "id"@).unwrap();
    let topic = json_str_field(data, "topic"@).unwrap();
    let t = json_u64_field(data, "time"@).unwrap();
    let k = insert_pos(pre, t);
    &&& post.len() == pre.len() + 1
    &&& (forall|i: int| 0 <= i < k ==> post[i] == pre[i])
    &&& (forall|i: int| k <= i < pre.len() ==> post[i + 1] == pre[i])
    &&& post[k].server@ == server
    &&& post[k].topic@ == topic
    &&& post[k].id@ == id
    &&& post[k].time == t
    &&& post[k].data@ == data
}

/// The stored rows of `(server, topic)` with time at least `since`, oldest
/// first: their raw JSON blobs in stored order.
pub open spec fn listed(
    ms: Seq<StoredMessage>,
    server: Seq<char>,
    topic: Seq<char>,
    since: u64,
) -> Seq<Seq<char>>
    decreases ms.len(),
{
    if ms.len() == 0 {
        Seq::<Seq<char>>::empty()
    } else {
        let rest = listed(ms.drop_last(), server, topic, since);
        if ms.last().server@ == server && ms.last().topic@ == topic && ms.last().time >= since {
            rest.push(ms.last().data@)
        } else {
            rest
        }
    }
}

/// The rows that survive `delete_messages(server, topic)`.
pub open spec fn kept(ms: Seq<StoredMessage>, server: Seq<char>, topic: Seq<char>) -> Seq<
    StoredMessage,
>
    decreases ms.len(),
{
    if ms.len() == 0 {
        Seq::<StoredMessage>::empty()
    } else {
        let rest = kept(ms.drop_last(), server, topic);
        if ms.last().server@ == server && ms.last().topic@ == topic {
            rest
        } else {
            rest.push(ms.last())
        }
    }
}

/// Three-way comparison of subscriptions by `(server, display_name,
/// topic)`, the listing order.
pub open spec fn sub_cmp(a: Subscription, b: Subscription) -> int {
    let c1 = lex_cmp(a.server@, b.server@);
    if c1 != 0 {
        c1
    } else {
        let c2 = lex_cmp(a.display_name@, b.display_name@);
        if c2 != 0 {
            c2
        } else {
            lex_cmp(a.topic@, b.topic@)
        }
    }
}

/// A subscription listing is sorted when adjacent rows compare <= 0.
pub open spec fn sorted_subs(subs: Seq<Subscription>) -> bool {
    forall|i: int, j: int| 0 <= i < j < subs.len() ==> #[trigger] sub_cmp(subs[i], subs[j]) <= 0
}

/// `sub_cmp` is antisymmetric.
pub proof fn lemma_sub_cmp_antisym(a: Subscription, b: Subscription)
    ensures
        sub_cmp(a, b) == -sub_cmp(b, a),
{
    lemma_lex_cmp_antisym(a.server@, b.server@);
    lemma_lex_cmp_antisym(a.display_name@, b.display_name@);
    lemma_lex_cmp_antisym(a.topic@, b.topic@);
}

/// `sub_cmp` is transitive in its non-positive form.
pub proof fn lemma_sub_cmp_trans(a: Subscription, b: Subscription, c: Subscription)
    requires
        sub_cmp(a, b) <= 0,
        sub_cmp(b, c) <= 0,
    ensures
        sub_cmp(a, c) <= 0,
{
    crate::strutil::lemma_lex_cmp_order(a.server@, b.server@, c.server@);
    if lex_cmp(a.server@, c.server@) == 0 {
        crate::strutil::lemma_lex_cmp_order(a.display_name@, b.display_name@, c.display_name@);
        if lex_cmp(a.display_name@, c.display_name@) == 0 {
            lemma_lex_cmp_trans(a.topic@, b.topic@, c.topic@);
        }
    }
}

/// Three-way comparison of two subscriptions, executable.
fn sub_cmp_exec(a: &Subscription, b: &Subscription) -> (r: i32)
    ensures
        r == sub_cmp(*a, *b),
{
    let c1 = str_cmp(a.server.as_str(), b.server.as_str());
    if c1 != 0 {
        return c1;
    }
    let c2 = str_cmp(a.display_name.as_str(), b.display_name.as_str());
    if c2 != 0 {
        return c2;
    }
    str_cmp(a.topic.as_str(), b.topic.as_str())
}

/// The in-memory store.
#[derive(Debug)]
pub struct Db {
    pub servers: Vec<String>,
    pub messages: Vec<StoredMessage>,
    pub subscriptions: Vec<Subscription>,
}

impl Db {
    /// The store's standing shape: rows in time order, one subscription
    /// row per key, one server row per endpoint.
    pub open spec fn wf(self) -> bool {
        &&& sorted_by_time(self.messages@)
        &&& forall|i: int| 0 <= i < self.messages@.len() ==> row_keyed(#[trigger] self.messages@[i])
        &&& forall|i: int, j: int|
            0 <= i < j < self.subscriptions@.len() ==> !((#[trigger] self.subscriptions@[i]).server@
                == (#[trigger] self.subscriptions@[j]).server@ && self.subscriptions@[i].topic@
                == self.subscriptions@[j].topic@)
        &&& forall|i: int, j: int|
            0 <= i < j < self.servers@.len() ==> (#[trigger] self.servers@[i])@ != (
            #[trigger] self.servers@[j])@
    }

    /// How the server table changes when an endpoint is interned: nothing
    /// when it is listed, one appended row when it is not.
    pub open spec fn servers_interned(pre: Seq<String>, post: Seq<String>, server: Seq<char>) -> bool {
        if find_server(pre, server) >= 0 {
            post == pre
        } else {
            &&& post.len() == pre.len() + 1
            &&& (forall|i: int| 0 <= i < pre.len() ==> post[i] == pre[i])
            &&& post.last()@ == server
        }
    }

    pub fn new() -> (r: Db)
        ensures
            r.wf(),
            r.servers@.len() == 0,
            r.messages@.len() == 0,
            r.subscriptions@.len() == 0,
    {
        Db { servers: Vec::new(), messages: Vec::new(), subscriptions: Vec::new() }
    }
}

// ---------------------------------------------------------------------------
// Lemmas on the first-match searches
// ---------------------------------------------------------------------------

/// `find_server` returns -1 or an index into the rows.
pub proof fn lemma_find_server_range(ss: Seq<String>, server: Seq<char>)
    ensures
        -1 <= find_server(ss, server) < ss.len(),
    decreases ss.len(),
{
    if ss.len() > 0 && ss[0]@ != server {
        lemma_find_server_range(ss.skip(1), server);
    }
}

/// A found server index is in range and matches; -1 means no row matches.
pub proof fn lemma_find_server_props(ss: Seq<String>, server: Seq<char>)
    ensures
        find_server(ss, server) == -1 ==> (forall|j: int|
            0 <= j < ss.len() ==> (#[trigger] ss[j])@ != server),
        find_server(ss, server) >= 0 ==> {
            let i = find_server(ss, server);
            i < ss.len() && ss[i]@ == server
        },
    decreases ss.len(),
{
    if ss.len() > 0 && ss[0]@ != server {
        lemma_find_server_props(ss.skip(1), server);
        lemma_find_server_range(ss.skip(1), server);
        if find_server(ss.skip(1), server) == -1 {
            assert forall|j: int| 0 <= j < ss.len() implies (#[trigger] ss[j])@ != server by {
                if j > 0 {
                    assert(ss.skip(1)[j - 1] == ss[j]);
                }
            }
        } else {
            assert(ss.skip(1)[find_server(ss.skip(1), server)] == ss[find_server(ss, server)]);
        }
    }
}

/// When `k` is the first matching server row, `find_server` returns it.
pub proof fn lemma_find_server_at(ss: Seq<String>, server: Seq<char>, k: int)
    requires
        0 <= k < ss.len(),
        ss[k]@ == server,
        forall|j: int| 0 <= j < k ==> (#[trigger] ss[j])@ != server,
    ensures
        find_server(ss, server) == k,
    decreases ss.len(),
{
    if k > 0 {
        assert(ss.skip(1)[k - 1] == ss[k]);
        assert forall|j: int| 0 <= j < k - 1 implies (#[trigger] ss.skip(1)[j])@ != server by {
            assert(ss.skip(1)[j] == ss[j + 1]);
        }
        lemma_find_server_at(ss.skip(1), server, k - 1);
    }
}

/// When no server row matches, `find_server` returns -1.
pub proof fn lemma_find_server_none(ss: Seq<String>, server: Seq<char>)
    requires
        forall|j: int| 0 <= j < ss.len() ==> (#[trigger] ss[j])@ != server,
    ensures
        find_server(ss, server) == -1,
    decreases ss.len(),
{
    if ss.len() > 0 {
        assert forall|j: int| 0 <= j < ss.skip(1).len() implies (#[trigger] ss.skip(1)[j])@
            != server by {
            assert(ss.skip(1)[j] == ss[j + 1]);
        }
        lemma_find_server_none(ss.skip(1), server);
    }
}

/// `find_sub` returns -1 or an index into the rows.
pub proof fn lemma_find_sub_range(subs: Seq<Subscription>, server: Seq<char>, topic: Seq<char>)
    ensures
        -1 <= find_sub(subs, server, topic) < subs.len(),
    decreases subs.len(),
{
    if subs.len() > 0 && !(subs[0].server@ == server && subs[0].topic@ == topic) {
        lemma_find_sub_range(subs.skip(1), server, topic);
    }
}

/// A found subscription index is in range and matches; -1 means no row
/// matches.
pub proof fn lemma_find_sub_props(subs: Seq<Subscription>, server: Seq<char>, topic: Seq<char>)
    ensures
        find_sub(subs, server, topic) == -1 ==> (forall|j: int|
            0 <= j < subs.len() ==> !((#[trigger] subs[j]).server@ == server && subs[j].topic@
                == topic)),
        find_sub(subs, server, topic) >= 0 ==> {
            let i = find_sub(subs, server, topic);
            i < subs.len() && subs[i].server@ == server && subs[i].topic@ == topic
        },
    decreases subs.len(),
{
    if subs.len() > 0 && !(subs[0].server@ == server && subs[0].topic@ == topic) {
        lemma_find_sub_props(subs.skip(1), server, topic);
        lemma_find_sub_range(subs.skip(1), server, topic);
        if find_sub(subs.skip(1), server, topic) == -1 {
            assert forall|j: int| 0 <= j < subs.len() implies !((#[trigger] subs[j]).server@
                == server && subs[j].topic@ == topic) by {
                if j > 0 {
                    assert(subs.skip(1)[j - 1] == subs[j]);
                }
            }
        } else {
            assert(subs.skip(1)[find_sub(subs.skip(1), server, topic)] == subs[find_sub(
                subs,
                server,
                topic,
            )]);
        }
    }
}

/// When `k` is the first matching subscription row, `find_sub` returns it.
pub proof fn lemma_find_sub_at(
    subs: Seq<Subscription>,
    server: Seq<char>,
    topic: Seq<char>,
    k: int,
)
    requires
        0 <= k < subs.len(),
        subs[k].server@ == server,
        subs[k].topic@ == topic,
        forall|j: int|
            0 <= j < k ==> !((#[trigger] subs[j]).server@ == server && subs[j].topic@ == topic),
    ensures
        find_sub(subs, server, topic) == k,
    decreases subs.len(),
{
    if k > 0 {
        assert(subs.skip(1)[k - 1] == subs[k]);
        assert forall|j: int| 0 <= j < k - 1 implies !((#[trigger] subs.skip(1)[j]).server@
            == server && subs.skip(1)[j].topic@ == topic) by {
            assert(subs.skip(1)[j] == subs[j + 1]);
        }
        lemma_find_sub_at(subs.skip(1), server, topic, k - 1);
    }
}

/// When no subscription row matches, `find_sub` returns -1.
pub proof fn lemma_find_sub_none(subs: Seq<Subscription>, server: Seq<char>, topic: Seq<char>)
    requires
        forall|j: int|
            0 <= j < subs.len() ==> !((#[trigger] subs[j]).server@ == server && subs[j].topic@
                == topic),
    ensures
        find_sub(subs, server, topic) == -1,
    decreases subs.len(),
{
    if subs.len() > 0 {
        assert forall|j: int| 0 <= j < subs.skip(1).len() implies !((#[trigger] subs.skip(
            1,
        )[j]).server@ == server && subs.skip(1)[j].topic@ == topic) by {
            assert(subs.skip(1)[j] == subs[j + 1]);
        }
        lemma_find_sub_none(subs.skip(1), server, topic);
    }
}

impl Db {
    /// The index of the server row for this endpoint.
    fn find_server_row(&self, server: &str) -> (r: Option<usize>)
        ensures
            match r {
                Some(i) => find_server(self.servers@, server@) == i,
                None => find_server(self.servers@, server@) == -1,
            },
    {
        let mut i: usize = 0;
        while i < self.servers.len()
            invariant
                i <= self.servers@.len(),
                forall|j: int| 0 <= j < i ==> (#[trigger] self.servers@[j])@ != server@,
            decreases self.servers@.len() - i,
        {
            if str_eq(self.servers[i].as_str(), server) {
                proof {
                    lemma_find_server_at(self.servers@, server@, i as int);
                }
                return Some(i);
            }
            i = i + 1;
        }
        proof {
            lemma_find_server_none(self.servers@, server@);
        }
        None
    }

    /// The index of the subscription row for this key.
    fn find_sub_row(&self, server: &str, topic: &str) -> (r: Option<usize>)
        ensures
            match r {
                Some(i) => find_sub(self.subscriptions@, server@, topic@) == i,
                None => find_sub(self.subscriptions@, server@, topic@) == -1,
            },
    {
        let mut i: usize = 0;
        while i < self.subscriptions.len()
            invariant
                i <= self.subscriptions@.len(),
                forall|j: int|
                    0 <= j < i ==> !((#[trigger] self.subscriptions@[j]).server@ == server@
                        && self.subscriptions@[j].topic@ == topic@),
            decreases self.subscriptions@.len() - i,
        {
            if str_eq(self.subscriptions[i].server.as_str(), server) && str_eq(
                self.subscriptions[i].topic.as_str(),
                topic,
            ) {
                proof {
                    lemma_find_sub_at(self.subscriptions@, server@, topic@, i as int);
                }
                return Some(i);
            }
            i = i + 1;
        }
        proof {
            lemma_find_sub_none(self.subscriptions@, server@, topic@);
        }
        None
    }

    /// Look the endpoint up in the server table, interning it when absent;
    /// the returned id is the row's index plus one, stable for the life of
    /// the store.
    pub fn get_or_insert_server(&mut self, server: &str) -> (r: i64)
        requires
            old(self).wf(),
            old(self).servers@.len() < 0x7fff_ffff_ffff_ffff,
        ensures
            final(self).wf(),
            Db::servers_interned(old(self).servers@, final(self).servers@, server@),
            final(self).messages == old(self).messages,
            final(self).subscriptions == old(self).subscriptions,
            r == find_server(final(self).servers@, server@) + 1,
            1 <= r <= final(self).servers@.len(),
    {
        match self.find_server_row(server) {
            Some(i) => {
                proof {
                    lemma_find_server_props(self.servers@, server@);
                }
                (i as i64) + 1
            },
            None => {
                let ghost before = self.servers@;
                self.servers.push(server.to_owned());
                proof {
                    lemma_find_server_props(before, server@);
                    assert forall|j: int| 0 <= j < before.len() implies (#[trigger] self.servers@[j])@
                        != server@ by {
                        assert(self.servers@[j] == before[j]);
                    }
                    lemma_find_server_at(self.servers@, server@, before.len() as int);
                }
                self.servers.len() as i64
            },
        }
    }

    /// Whether a row with this `(server, id)` is stored.
    fn contains_msg(&self, server: &str, id: &str) -> (r: bool)
        ensures
            r == has_msg(self.messages@, server@, id@),
    {
        let mut i: usize = 0;
        while i < self.messages.len()
            invariant
                i <= self.messages@.len(),
                forall|j: int|
                    0 <= j < i ==> !((#[trigger] self.messages@[j]).server@ == server@
                        && self.messages@[j].id@ == id@),
            decreases self.messages@.len() - i,
        {
            if str_eq(self.messages[i].server.as_str(), server) && str_eq(
                self.messages[i].id.as_str(),
                id,
            ) {
                return true;
            }
            i = i + 1;
        }
        false
    }

    /// Insert one message row. The `(server, id)` key comes from the JSON
    /// itself; a second row with the same key is refused as a duplicate,
    /// and a blob without the minimal fields is refused as a storage
    /// error. A row is placed after every row with an earlier-or-equal
    /// time, so rows stay in time order, arrival order among equals.
    #[verifier::rlimit(60)]
    pub fn insert_message(&mut self, server: &str, data: &str) -> (r: Result<(), Error>)
        requires
            old(self).wf(),
            old(self).servers@.len() < 0x7fff_ffff_ffff_ffff,
        ensures
            final(self).wf(),
            final(self).subscriptions == old(self).subscriptions,
            Db::servers_interned(old(self).servers@, final(self).servers@, server@),
            !min_message_parses(data@) ==> (r matches Err(e) && e matches Error::Db(_))
                && final(self).messages == old(self).messages,
            min_message_parses(data@) ==> {
                let id = json_str_field(data@, "id"@).unwrap();
                let topic = json_str_field(data@, "topic"@).unwrap();
                let t = json_u64_field(data@, "time"@).unwrap();
                &&& (has_msg(old(self).messages@, server@, id) ==> (r matches Err(
                    e,
                ) && e matches Error::DuplicateMessage) && final(self).messages == old(self).messages)
                &&& (!has_msg(old(self).messages@, server@, id) ==> r is Ok && msg_inserted(
                    old(self).messages@,
                    final(self).messages@,
                    server@,
                    data@,
                ))

            },
    {
        let _sid = self.get_or_insert_server(server);
        let min = match MinMessage::parse(data) {
            Some(m) => m,
            None => {
                return Err(Error::Db("message blob lacks id, topic or time".to_owned()));
            },
        };
        if self.contains_msg(server, min.id.as_str()) {
            return Err(Error::DuplicateMessage);
        }
        let t = min.time;
        let mut k: usize = self.messages.len();
        proof {
            assert(self.messages@.take(self.messages@.len() as int) =~= self.messages@);
        }
        while k > 0 && self.messages[k - 1].time > t
            invariant
                k <= self.messages@.len(),
                insert_pos(self.messages@, t) == insert_pos(self.messages@.take(k as int), t),
                forall|i: int|
                    k <= i < self.messages@.len() ==> (#[trigger] self.messages@[i]).time > t,
            decreases k,
        {
            proof {
                assert(self.messages@.take(k as int).last() == self.messages@[k - 1]);
                assert(self.messages@.take(k as int).drop_last() =~= self.messages@.take(k - 1));
            }
            k = k - 1;
        }
        proof {
            if k > 0 {
                assert(self.messages@.take(k as int).last() == self.messages@[k - 1]);
                assert(insert_pos(self.messages@.take(k as int), t) == k as int);
            } else {
                assert(self.messages@.take(0).len() == 0);
            }
            assert(insert_pos(self.messages@, t) == k as int);
        }
        let row = StoredMessage {
            server: server.to_owned(),
            topic: min.topic,
            id: min.id,
            time: min.time,
            data: data.to_owned(),
        };
        let ghost before = self.messages@;
        self.messages.insert(k, row);
        proof {
            assert forall|i: int| 0 <= i < self.messages@.len() implies row_keyed(
                #[trigger] self.messages@[i],
            ) by {
                let ki = k as int;
                if i < ki {
                    assert(self.messages@[i] == before[i]);
                } else if i > ki {
                    assert(self.messages@[i] == before[i - 1]);
                }
            }
            assert forall|i: int, j: int|
                0 <= i < j < self.messages@.len() implies #[trigger] self.messages@[i].time
                <= #[trigger] self.messages@[j].time by {
                let ki = k as int;
                if i < ki && j < ki {
                    assert(self.messages@[i] == before[i]);
                    assert(self.messages@[j] == before[j]);
                } else if i < ki && j == ki {
                    assert(self.messages@[i] == before[i]);
                    assert(before[i].time <= before[ki - 1].time || i == ki - 1);
                } else if i < ki && j > ki {
                    assert(self.messages@[i] == before[i]);
                    assert(self.messages@[j] == before[j - 1]);
                } else if i == ki && j > ki {
                    assert(self.messages@[j] == before[j - 1]);
                } else if i > ki && j > ki {
                    assert(self.messages@[i] == before[i - 1]);
                    assert(self.messages@[j] == before[j - 1]);
                }
            }
        }
        Ok(())
    }

    /// The stored blobs of `(server, topic)` with time at least `since`,
    /// oldest first — provided the subscription row exists, as the listing
    /// joins against it.
    pub fn list_messages(&self, server: &str, topic: &str, since: u64) -> (r: Result<
        Vec<String>,
        Error,
    >)
        ensures
            r is Ok,
            r matches Ok(v) ==> v.deep_view() == (if find_sub(
                self.subscriptions@,
                server@,
                topic@,
            ) >= 0 {
                listed(self.messages@, server@, topic@, since)
            } else {
                Seq::<Seq<char>>::empty()
            }),
    {
        let mut out: Vec<String> = Vec::new();
        if self.find_sub_row(server, topic).is_none() {
            proof {
                assert(out.deep_view() =~= Seq::<Seq<char>>::empty());
            }
            return Ok(out);
        }
        let mut i: usize = 0;
        proof {
            assert(out.deep_view() =~= listed(self.messages@.take(0), server@, topic@, since));
        }
        while i < self.messages.len()
            invariant
                i <= self.messages@.len(),
                out.deep_view() == listed(self.messages@.take(i as int), server@, topic@, since),
            decreases self.messages@.len() - i,
        {
            proof {
                assert(self.messages@.take(i + 1).drop_last() =~= self.messages@.take(i as int));
                assert(self.messages@.take(i + 1).last() == self.messages@[i as int]);
            }
            let m = &self.messages[i];
            if str_eq(m.server.as_str(), server) && str_eq(m.topic.as_str(), topic) && m.time
                >= since {
                let ghost dv = out.deep_view();
                out.push(m.data.clone());
                proof {
                    assert(out.deep_view() =~= dv.push(self.messages@[i as int].data@));
                }
            }
            i = i + 1;
        }
        proof {
            assert(self.messages@.take(self.messages@.len() as int) =~= self.messages@);
        }
        Ok(out)
    }

    /// Insert a subscription row as given; a second row for the same
    /// `(server, topic)` is refused.
    pub fn insert_subscription(&mut self, sub: Subscription) -> (r: Result<(), Error>)
        requires
            old(self).wf(),
            old(self).servers@.len() < 0x7fff_ffff_ffff_ffff,
        ensures
            final(self).wf(),
            final(self).messages == old(self).messages,
            Db::servers_interned(old(self).servers@, final(self).servers@, sub.server@),
            find_sub(old(self).subscriptions@, sub.server@, sub.topic@) >= 0 ==> (r matches Err(
                e,
            ) && e matches Error::Db(_)) && final(self).subscriptions == old(self).subscriptions,
            find_sub(old(self).subscriptions@, sub.server@, sub.topic@) == -1 ==> r is Ok && final(self).subscriptions@ == old(self).subscriptions@.push(sub),
    {
        let _sid = self.get_or_insert_server(sub.server.as_str());
        match self.find_sub_row(sub.server.as_str(), sub.topic.as_str()) {
            Some(_) => Err(Error::Db("a subscription for this server and topic exists".to_owned())),
            None => {
                let ghost before = self.subscriptions@;
                proof {
                    lemma_find_sub_props(before, sub.server@, sub.topic@);
                }
                self.subscriptions.push(sub);
                proof {
                    assert forall|i: int, j: int|
                        0 <= i < j < self.subscriptions@.len() implies !((
                    #[trigger] self.subscriptions@[i]).server@ == (
                    #[trigger] self.subscriptions@[j]).server@ && self.subscriptions@[i].topic@
                        == self.subscriptions@[j].topic@) by {
                        if j < before.len() {
                            assert(self.subscriptions@[i] == before[i]);
                            assert(self.subscriptions@[j] == before[j]);
                        } else {
                            assert(self.subscriptions@[i] == before[i]);
                        }
                    }
                }
                Ok(())
            },
        }
    }

    /// Update the mutable fields of a subscription row: display name,
    /// reserved, muted, archived, the symbolic icon and the read
    /// watermark. The key is left as stored.
    pub fn update_subscription(&mut self, sub: Subscription) -> (r: Result<(), Error>)
        requires
            old(self).wf(),
            old(self).servers@.len() < 0x7fff_ffff_ffff_ffff,
        ensures
            final(self).wf(),
            final(self).messages == old(self).messages,
            Db::servers_interned(old(self).servers@, final(self).servers@, sub.server@),
            find_sub(old(self).subscriptions@, sub.server@, sub.topic@) == -1 ==> (r matches Err(
                e,
            ) && e matches Error::SubscriptionNotFound(_)) && final(self).subscriptions == old(self).subscriptions,
            find_sub(old(self).subscriptions@, sub.server@, sub.topic@) >= 0 ==> {
                let i = find_sub(old(self).subscriptions@, sub.server@, sub.topic@);
                &&& r is Ok
                &&& final(self).subscriptions@ == old(self).subscriptions@.update(
                    i,
                    (Subscription {
                        display_name: sub.display_name,
                        reserved: sub.reserved,
                        muted: sub.muted,
                        archived: sub.archived,
                        symbolic_icon: sub.symbolic_icon,
                        read_until: sub.read_until,
                        ..old(self).subscriptions@[i]
                    }),
                )
            },
    {
        let _sid = self.get_or_insert_server(sub.server.as_str());
        match self.find_sub_row(sub.server.as_str(), sub.topic.as_str()) {
            None => Err(Error::SubscriptionNotFound("updating subscription".to_owned())),
            Some(i) => {
                proof {
                    lemma_find_sub_props(self.subscriptions@, sub.server@, sub.topic@);
                }
                let ghost before = self.subscriptions@;
                let row = &mut self.subscriptions[i];
                row.display_name = sub.display_name;
                row.reserved = sub.reserved;
                row.muted = sub.muted;
                row.archived = sub.archived;
                row.symbolic_icon = sub.symbolic_icon;
                row.read_until = sub.read_until;
                proof {
                    assert(self.subscriptions@ =~= before.update(
                        i as int,
                        self.subscriptions@[i as int],
                    ));
                    assert forall|a: int, b: int|
                        0 <= a < b < self.subscriptions@.len() implies !((
                    #[trigger] self.subscriptions@[a]).server@ == (
                    #[trigger] self.subscriptions@[b]).server@ && self.subscriptions@[a].topic@
                        == self.subscriptions@[b].topic@) by {
                        assert(self.subscriptions@[a].server@ == before[a].server@
                            && self.subscriptions@[a].topic@ == before[a].topic@);
                        assert(self.subscriptions@[b].server@ == before[b].server@
                            && self.subscriptions@[b].topic@ == before[b].topic@);
                    }
                }
                Ok(())
            },
        }
    }

    /// Remove the subscription row for this key; its messages stay.
    pub fn remove_subscription(&mut self, server: &str, topic: &str) -> (r: Result<(), Error>)
        requires
            old(self).wf(),
            old(self).servers@.len() < 0x7fff_ffff_ffff_ffff,
        ensures
            final(self).wf(),
            final(self).messages == old(self).messages,
            Db::servers_interned(old(self).servers@, final(self).servers@, server@),
            find_sub(old(self).subscriptions@, server@, topic@) == -1 ==> (r matches Err(
                e,
            ) && e matches Error::SubscriptionNotFound(_)) && final(self).subscriptions == old(self).subscriptions,
            find_sub(old(self).subscriptions@, server@, topic@) >= 0 ==> r is Ok && final(self).subscriptions@ == old(self).subscriptions@.remove(
                find_sub(old(self).subscriptions@, server@, topic@),
            ),
    {
        let _sid = self.get_or_insert_server(server);
        match self.find_sub_row(server, topic) {
            None => Err(Error::SubscriptionNotFound("removing subscription".to_owned())),
            Some(i) => {
                proof {
                    lemma_find_sub_props(self.subscriptions@, server@, topic@);
                }
                let ghost before = self.subscriptions@;
                self.subscriptions.remove(i);
                proof {
                    assert forall|a: int, b: int|
                        0 <= a < b < self.subscriptions@.len() implies !((
                    #[trigger] self.subscriptions@[a]).server@ == (
                    #[trigger] self.subscriptions@[b]).server@ && self.subscriptions@[a].topic@
                        == self.subscriptions@[b].topic@) by {
                        let ia = if a < i { a } else { a + 1 };
                        let ib = if b < i { b } else { b + 1 };
                        assert(self.subscriptions@[a] == before[ia]);
                        assert(self.subscriptions@[b] == before[ib]);
                    }
                }
                Ok(())
            },
        }
    }

    /// Advance (or set) the read watermark of a subscription row.
    pub fn update_read_until(&mut self, server: &str, topic: &str, value: u64) -> (r: Result<
        (),
        Error,
    >)
        requires
            old(self).wf(),
            old(self).servers@.len() < 0x7fff_ffff_ffff_ffff,
        ensures
            final(self).wf(),
            final(self).messages == old(self).messages,
            Db::servers_interned(old(self).servers@, final(self).servers@, server@),
            find_sub(old(self).subscriptions@, server@, topic@) == -1 ==> (r matches Err(
                e,
            ) && e matches Error::SubscriptionNotFound(_)) && final(self).subscriptions == old(self).subscriptions,
            find_sub(old(self).subscriptions@, server@, topic@) >= 0 ==> {
                let i = find_sub(old(self).subscriptions@, server@, topic@);
                &&& r is Ok
                &&& final(self).subscriptions@ == old(self).subscriptions@.update(
                    i,
                    (Subscription { read_until: value, ..old(self).subscriptions@[i] }),
                )
            },
    {
        let _sid = self.get_or_insert_server(server);
        match self.find_sub_row(server, topic) {
            None => Err(Error::SubscriptionNotFound("updating read_until".to_owned())),
            Some(i) => {
                proof {
                    lemma_find_sub_props(self.subscriptions@, server@, topic@);
                }
                let ghost before = self.subscriptions@;
                let row = &mut self.subscriptions[i];
                row.read_until = value;
                proof {
                    assert(self.subscriptions@ =~= before.update(
                        i as int,
                        self.subscriptions@[i as int],
                    ));
                    assert forall|a: int, b: int|
                        0 <= a < b < self.subscriptions@.len() implies !((
                    #[trigger] self.subscriptions@[a]).server@ == (
                    #[trigger] self.subscriptions@[b]).server@ && self.subscriptions@[a].topic@
                        == self.subscriptions@[b].topic@) by {
                        assert(self.subscriptions@[a].server@ == before[a].server@
                            && self.subscriptions@[a].topic@ == before[a].topic@);
                        assert(self.subscriptions@[b].server@ == before[b].server@
                            && self.subscriptions@[b].topic@ == before[b].topic@);
                    }
                }
                Ok(())
            },
        }
    }

    /// Delete every message row of `(server, topic)`. Deleting nothing is
    /// reported as the subscription not being found: zero matched rows
    /// mean the key was never written to.
    pub fn delete_messages(&mut self, server: &str, topic: &str) -> (r: Result<(), Error>)
        requires
            old(self).wf(),
            old(self).servers@.len() < 0x7fff_ffff_ffff_ffff,
        ensures
            final(self).wf(),
            final(self).subscriptions == old(self).subscriptions,
            Db::servers_interned(old(self).servers@, final(self).servers@, server@),
            final(self).messages@ == kept(old(self).messages@, server@, topic@),
            r is Ok <==> kept(old(self).messages@, server@, topic@).len() != old(self).messages@.len(),
            r matches Err(e) ==> e matches Error::SubscriptionNotFound(_),
    {
        let _sid = self.get_or_insert_server(server);
        let mut out: Vec<StoredMessage> = Vec::new();
        let mut i: usize = 0;
        proof {
            assert(out@ =~= kept(self.messages@.take(0), server@, topic@));
        }
        while i < self.messages.len()
            invariant
                i <= self.messages@.len(),
                out@ == kept(self.messages@.take(i as int), server@, topic@),
            decreases self.messages@.len() - i,
        {
            proof {
                assert(self.messages@.take(i + 1).drop_last() =~= self.messages@.take(i as int));
                assert(self.messages@.take(i + 1).last() == self.messages@[i as int]);
            }
            let m = &self.messages[i];
            if !(str_eq(m.server.as_str(), server) && str_eq(m.topic.as_str(), topic)) {
                let ghost prev = out@;
                out.push(m.duplicate());
                proof {
                    assert(out@ =~= prev.push(self.messages@[i as int]));
                }
            }
            i = i + 1;
        }
        proof {
            assert(self.messages@.take(self.messages@.len() as int) =~= self.messages@);
            lemma_kept_sorted(self.messages@, server@, topic@);
            lemma_kept_keyed(self.messages@, server@, topic@);
        }
        let removed_any = out.len() < self.messages.len();
        self.messages = out;
        if removed_any {
            Ok(())
        } else {
            proof {
                lemma_kept_len(old(self).messages@, server@, topic@);
            }
            Err(Error::SubscriptionNotFound("deleting messages".to_owned()))
        }
    }

    /// Every subscription row, ordered by `(server, display_name, topic)`.
    pub fn list_subscriptions(&self) -> (r: Result<Vec<Subscription>, Error>)
        ensures
            r is Ok,
            r matches Ok(v) ==> v@.to_multiset() == self.subscriptions@.to_multiset()
                && sorted_subs(v@),
    {
        let mut out: Vec<Subscription> = Vec::new();
        let mut i: usize = 0;
        proof {
            assert(out@ =~= self.subscriptions@.take(0));
        }
        while i < self.subscriptions.len()
            invariant
                i <= self.subscriptions@.len(),
                out@.to_multiset() == self.subscriptions@.take(i as int).to_multiset(),
                sorted_subs(out@),
            decreases self.subscriptions@.len() - i,
        {
            let x = self.subscriptions[i].duplicate();
            let mut p: usize = 0;
            while p < out.len() && sub_cmp_exec(&out[p], &x) <= 0
                invariant
                    p <= out@.len(),
                    forall|j: int| 0 <= j < p ==> sub_cmp(#[trigger] out@[j], x) <= 0,
                decreases out@.len() - p,
            {
                p = p + 1;
            }
            let ghost prev = out@;
            out.insert(p, x);
            proof {
                lemma_insert_sorted(prev, x, p as int);
                lemma_insert_multiset(prev, x, p as int);
                self.subscriptions@.take(i as int).to_multiset_ensures();
                assert(self.subscriptions@.take(i + 1) =~= self.subscriptions@.take(i as int).push(
                    self.subscriptions@[i as int],
                ));
            }
            i = i + 1;
        }
        proof {
            assert(self.subscriptions@.take(self.subscriptions@.len() as int)
                =~= self.subscriptions@);
        }
        Ok(out)
    }
}

/// Rows that survive a deletion all respect a time bound that every row
/// respected beforehand.
pub proof fn lemma_kept_time_bound(
    ms: Seq<StoredMessage>,
    server: Seq<char>,
    topic: Seq<char>,
    t: u64,
)
    requires
        forall|i: int| 0 <= i < ms.len() ==> (#[trigger] ms[i]).time <= t,
    ensures
        forall|a: int|
            0 <= a < kept(ms, server, topic).len() ==> (#[trigger] kept(ms, server, topic)[a]).time
                <= t,
    decreases ms.len(),
{
    if ms.len() > 0 {
        assert forall|i: int| 0 <= i < ms.drop_last().len() implies (#[trigger] ms.drop_last()[i]).time
            <= t by {
            assert(ms.drop_last()[i] == ms[i]);
        }
        lemma_kept_time_bound(ms.drop_last(), server, topic, t);
        let sub = kept(ms.drop_last(), server, topic);
        let whole = kept(ms, server, topic);
        assert forall|a: int| 0 <= a < whole.len() implies (#[trigger] whole[a]).time <= t by {
            if a < sub.len() {
                assert(whole[a] == sub[a]);
            } else {
                assert(whole[a] == ms.last());
            }
        }
    }
}

/// Deleting rows keeps the remainder in time order.
pub proof fn lemma_kept_sorted(ms: Seq<StoredMessage>, server: Seq<char>, topic: Seq<char>)
    requires
        sorted_by_time(ms),
    ensures
        sorted_by_time(kept(ms, server, topic)),
    decreases ms.len(),
{
    if ms.len() > 0 {
        assert forall|i: int, j: int|
            0 <= i < j < ms.drop_last().len() implies #[trigger] ms.drop_last()[i].time
            <= #[trigger] ms.drop_last()[j].time by {
            assert(ms.drop_last()[i] == ms[i] && ms.drop_last()[j] == ms[j]);
        }
        lemma_kept_sorted(ms.drop_last(), server, topic);
        assert forall|i: int| 0 <= i < ms.drop_last().len() implies (#[trigger] ms.drop_last()[i]).time
            <= ms.last().time by {
            assert(ms.drop_last()[i] == ms[i]);
        }
        lemma_kept_time_bound(ms.drop_last(), server, topic, ms.last().time);
    }
}

/// Deleting rows keeps the remainder keyed by its blobs.
pub proof fn lemma_kept_keyed(ms: Seq<StoredMessage>, server: Seq<char>, topic: Seq<char>)
    requires
        forall|i: int| 0 <= i < ms.len() ==> row_keyed(#[trigger] ms[i]),
    ensures
        forall|a: int|
            0 <= a < kept(ms, server, topic).len() ==> row_keyed(
                #[trigger] kept(ms, server, topic)[a],
            ),
    decreases ms.len(),
{
    if ms.len() > 0 {
        assert forall|i: int| 0 <= i < ms.drop_last().len() implies row_keyed(
            #[trigger] ms.drop_last()[i],
        ) by {
            assert(ms.drop_last()[i] == ms[i]);
        }
        lemma_kept_keyed(ms.drop_last(), server, topic);
        let sub = kept(ms.drop_last(), server, topic);
        let whole = kept(ms, server, topic);
        assert forall|a: int| 0 <= a < whole.len() implies row_keyed(#[trigger] whole[a]) by {
            if a < sub.len() {
                assert(whole[a] == sub[a]);
            } else {
                assert(whole[a] == ms.last());
            }
        }
    }
}

/// In a keyed, time-ordered table the listing's blobs carry ascending
/// times — so an attach replay arrives oldest first by message time.
pub proof fn lemma_listed_times_ascend(
    ms: Seq<StoredMessage>,
    server: Seq<char>,
    topic: Seq<char>,
    since: u64,
)
    requires
        sorted_by_time(ms),
        forall|i: int| 0 <= i < ms.len() ==> row_keyed(#[trigger] ms[i]),
    ensures
        forall|i: int, j: int|
            0 <= i < j < listed(ms, server, topic, since).len() ==> json_u64_field(
                #[trigger] listed(ms, server, topic, since)[i],
                "time"@,
            ).unwrap() <= json_u64_field(
                #[trigger] listed(ms, server, topic, since)[j],
                "time"@,
            ).unwrap(),
        ms.len() > 0 ==> (forall|i: int|
            0 <= i < listed(ms, server, topic, since).len() ==> json_u64_field(
                #[trigger] listed(ms, server, topic, since)[i],
                "time"@,
            ).unwrap() <= ms.last().time),
    decreases ms.len(),
{
    if ms.len() > 0 {
        assert forall|i: int, j: int|
            0 <= i < j < ms.drop_last().len() implies #[trigger] ms.drop_last()[i].time
            <= #[trigger] ms.drop_last()[j].time by {
            assert(ms.drop_last()[i] == ms[i] && ms.drop_last()[j] == ms[j]);
        }
        assert forall|i: int| 0 <= i < ms.drop_last().len() implies row_keyed(
            #[trigger] ms.drop_last()[i],
        ) by {
            assert(ms.drop_last()[i] == ms[i]);
        }
        lemma_listed_times_ascend(ms.drop_last(), server, topic, since);
        let sub = listed(ms.drop_last(), server, topic, since);
        let whole = listed(ms, server, topic, since);
        if ms.drop_last().len() > 0 {
            assert(ms.drop_last().last() == ms[ms.len() - 2]);
            assert(ms.drop_last().last().time <= ms.last().time);
        }
        assert forall|i: int| 0 <= i < whole.len() implies json_u64_field(
            #[trigger] whole[i],
            "time"@,
        ).unwrap() <= ms.last().time by {
            if i < sub.len() {
                assert(whole[i] == sub[i]);
            } else {
                assert(whole[i] == ms.last().data@);
            }
        }
        assert forall|i: int, j: int| 0 <= i < j < whole.len() implies json_u64_field(
            #[trigger] whole[i],
            "time"@,
        ).unwrap() <= json_u64_field(#[trigger] whole[j], "time"@).unwrap() by {
            if j < sub.len() {
                assert(whole[i] == sub[i] && whole[j] == sub[j]);
            } else {
                assert(whole[i] == sub[i]);
            }
        }
    }
}

/// Removing every matching row never yields more rows.
pub proof fn lemma_kept_len(ms: Seq<StoredMessage>, server: Seq<char>, topic: Seq<char>)
    ensures
        kept(ms, server, topic).len() <= ms.len(),
        kept(ms, server, topic).len() == ms.len() ==> kept(ms, server, topic) == ms,
    decreases ms.len(),
{
    if ms.len() > 0 {
        lemma_kept_len(ms.drop_last(), server, topic);
        if kept(ms, server, topic).len() == ms.len() {
            assert(kept(ms.drop_last(), server, topic).push(ms.last()) =~= ms);
        }
    }
}

/// Inserting at the first position whose row compares greater keeps a
/// listing sorted.
pub proof fn lemma_insert_sorted(subs: Seq<Subscription>, x: Subscription, p: int)
    requires
        0 <= p <= subs.len(),
        sorted_subs(subs),
        forall|j: int| 0 <= j < p ==> sub_cmp(#[trigger] subs[j], x) <= 0,
        p < subs.len() ==> sub_cmp(subs[p], x) > 0,
    ensures
        sorted_subs(subs.insert(p, x)),
{
    let post = subs.insert(p, x);
    assert forall|a: int, b: int| 0 <= a < b < post.len() implies #[trigger] sub_cmp(
        post[a],
        post[b],
    ) <= 0 by {
        if a < p && b < p {
            assert(post[a] == subs[a] && post[b] == subs[b]);
        } else if a < p && b == p {
            assert(post[a] == subs[a]);
        } else if a < p && b > p {
            assert(post[a] == subs[a] && post[b] == subs[b - 1]);
        } else if a == p && b > p {
            assert(post[b] == subs[b - 1]);
            lemma_sub_cmp_antisym(subs[p], x);
            if b - 1 > p {
                lemma_sub_cmp_trans(x, subs[p], subs[b - 1]);
            }
        } else {
            assert(post[a] == subs[a - 1] && post[b] == subs[b - 1]);
        }
    }
}

/// Inserting anywhere adds exactly one occurrence to the multiset.
pub proof fn lemma_insert_multiset(subs: Seq<Subscription>, x: Subscription, p: int)
    requires
        0 <= p <= subs.len(),
    ensures
        subs.insert(p, x).to_multiset() == subs.to_multiset().insert(x),
{
    broadcast use vstd::multiset::group_multiset_axioms;

    let left = subs.take(p);
    let right = subs.skip(p);
    assert(subs.insert(p, x) =~= left + (seq![x] + right));
    assert(subs =~= left + right);
    vstd::seq_lib::lemma_multiset_commutative(left, seq![x] + right);
    vstd::seq_lib::lemma_multiset_commutative(seq![x], right);
    vstd::seq_lib::lemma_multiset_commutative(left, right);
    assert(seq![x].to_multiset() =~= Multiset::<Subscription>::empty().insert(x)) by {
        seq![x].to_multiset_ensures();
        assert(seq![x] =~= Seq::<Subscription>::empty().push(x));
        Seq::<Subscription>::empty().to_multiset_ensures();
    }
    assert(subs.insert(p, x).to_multiset() =~= subs.to_multiset().insert(x));
}


} // verus!
