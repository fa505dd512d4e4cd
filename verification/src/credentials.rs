//! The credentials store: a process-local map from server to `(username,
//! password)`, the source of truth for lookups; the keyring behind it is
//! the durable source and is driven by the surrounding application, which
//! feeds `load` with the items it found. At most one credential is kept
//! per server.
use vstd::prelude::*;

verus! {

use crate::Error;
use crate::strutil::str_eq;
use vstd::utf8::encode_utf8;

/// Relies on std::str::from_utf8: Some exactly when the bytes are valid
/// UTF-8, and then the decoded characters encode back to the input.
#[verifier::external_body]
fn bytes_to_string(b: &[u8]) -> (r: Option<String>)
    ensures
        r matches Some(s) ==> encode_utf8(s@) == b@,
        r is Some <==> exists|cs: Seq<char>| encode_utf8(cs) == b@,
{
    match std::str::from_utf8(b) {
        Ok(s) => Some(s.to_string()),
        Err(_) => None,
    }
}

/// The index of the first pair with this key, or -1.
pub open spec fn find_kv<T>(entries: Seq<(Seq<char>, T)>, key: Seq<char>) -> int
    decreases entries.len(),
{
    if entries.len() == 0 {
        -1
    } else if entries[0].0 == key {
        0
    } else {
        let r = find_kv(entries.skip(1), key);
        if r == -1 {
            -1
        } else {
            r + 1
        }
    }
}

/// `find_kv` returns -1 or an index into the entries.
pub proof fn lemma_find_kv_range<T>(entries: Seq<(Seq<char>, T)>, key: Seq<char>)
    ensures
        -1 <= find_kv(entries, key) < entries.len(),
    decreases entries.len(),
{
    if entries.len() > 0 && entries[0].0 != key {
        lemma_find_kv_range(entries.skip(1), key);
    }
}

/// A found index is in range and matches, and is the first match; -1
/// means no pair matches.
pub proof fn lemma_find_kv_props<T>(entries: Seq<(Seq<char>, T)>, key: Seq<char>)
    ensures
        find_kv(entries, key) == -1 ==> (forall|j: int|
            0 <= j < entries.len() ==> (#[trigger] entries[j]).0 != key),
        find_kv(entries, key) >= 0 ==> {
            let i = find_kv(entries, key);
            &&& i < entries.len()
            &&& entries[i].0 == key
            &&& forall|j: int| 0 <= j < i ==> (#[trigger] entries[j]).0 != key
        },
    decreases entries.len(),
{
    if entries.len() > 0 && entries[0].0 != key {
        lemma_find_kv_props(entries.skip(1), key);
        lemma_find_kv_range(entries.skip(1), key);
        let r = find_kv(entries.skip(1), key);
        if r == -1 {
            assert forall|j: int| 0 <= j < entries.len() implies (#[trigger] entries[j]).0 != key by {
                if j > 0 {
                    assert(entries.skip(1)[j - 1] == entries[j]);
                }
            }
        } else {
            assert(entries.skip(1)[r] == entries[r + 1]);
            assert forall|j: int| 0 <= j < r + 1 implies (#[trigger] entries[j]).0 != key by {
                if j > 0 {
                    assert(entries.skip(1)[j - 1] == entries[j]);
                }
            }
        }
    }
}

/// When `k` is the first matching index, `find_kv` returns it.
pub proof fn lemma_find_kv_at<T>(entries: Seq<(Seq<char>, T)>, key: Seq<char>, k: int)
    requires
        0 <= k < entries.len(),
        entries[k].0 == key,
        forall|j: int| 0 <= j < k ==> (#[trigger] entries[j]).0 != key,
    ensures
        find_kv(entries, key) == k,
    decreases entries.len(),
{
    if k > 0 {
        assert(entries.skip(1)[k - 1] == entries[k]);
        assert forall|j: int| 0 <= j < k - 1 implies (#[trigger] entries.skip(1)[j]).0 != key by {
            assert(entries.skip(1)[j] == entries[j + 1]);
        }
        lemma_find_kv_at(entries.skip(1), key, k - 1);
    }
}

/// When no pair matches, `find_kv` returns -1.
pub proof fn lemma_find_kv_none<T>(entries: Seq<(Seq<char>, T)>, key: Seq<char>)
    requires
        forall|j: int| 0 <= j < entries.len() ==> (#[trigger] entries[j]).0 != key,
    ensures
        find_kv(entries, key) == -1,
    decreases entries.len(),
{
    if entries.len() > 0 {
        assert forall|j: int| 0 <= j < entries.skip(1).len() implies (#[trigger] entries.skip(
            1,
        )[j]).0 != key by {
            assert(entries.skip(1)[j] == entries[j + 1]);
        }
        lemma_find_kv_none(entries.skip(1), key);
    }
}

/// Insert-or-replace on a view-level association list.
pub open spec fn upsert_kv<T>(entries: Seq<(Seq<char>, T)>, key: Seq<char>, value: T) -> Seq<
    (Seq<char>, T),
> {
    let i = find_kv(entries, key);
    if i >= 0 {
        entries.update(i, (key, value))
    } else {
        entries.push((key, value))
    }
}

/// A username and password for one server.
#[derive(Clone, Debug)]
pub struct Credential {
    pub username: String,
    pub password: String,
}

impl Credential {
    /// A field-for-field copy.
    pub fn duplicate(&self) -> (r: Credential)
        ensures
            r == *self,
    {
        Credential { username: self.username.clone(), password: self.password.clone() }
    }
}

/// One item as the keyring hands it out: string attributes and the secret
/// bytes.
#[derive(Clone, Debug)]
pub struct KeyringItem {
    pub attributes: Vec<(String, String)>,
    pub secret: Vec<u8>,
}

/// The mathematical shape of a keyring item.
pub ghost struct KeyringItemV {
    pub attributes: Seq<(Seq<char>, Seq<char>)>,
    pub secret: Seq<u8>,
}

impl View for KeyringItem {
    type V = KeyringItemV;

    open spec fn view(&self) -> KeyringItemV {
        KeyringItemV { attributes: self.attributes.deep_view(), secret: self.secret@ }
    }
}

impl DeepView for KeyringItem {
    type V = KeyringItemV;

    open spec fn deep_view(&self) -> KeyringItemV {
        self.view()
    }
}

impl KeyringItem {
    pub fn new(attributes: Vec<(String, String)>, secret: Vec<u8>) -> (r: Self)
        ensures
            r.attributes == attributes,
            r.secret == secret,
    {
        KeyringItem { attributes, secret }
    }

    /// A field-for-field copy; equal to the original in its view.
    pub fn duplicate(&self) -> (r: KeyringItem)
        ensures
            r@ == self@,
    {
        let r = KeyringItem {
            attributes: crate::models::clone_pairs(&self.attributes),
            secret: self.secret.clone(),
        };
        proof {
            assert(r.secret@ =~= self.secret@);
            assert(r.attributes.deep_view() =~= self.attributes.deep_view());
        }
        r
    }

    /// The value of the first attribute with this name.
    pub fn attribute(&self, name: &str) -> (r: Option<String>)
        ensures
            r.deep_view() == (if find_kv(self@.attributes, name@) >= 0 {
                Some(self@.attributes[find_kv(self@.attributes, name@)].1)
            } else {
                Option::<Seq<char>>::None
            }),
    {
        let mut i: usize = 0;
        while i < self.attributes.len()
            invariant
                i <= self.attributes@.len(),
                self@.attributes.len() == self.attributes@.len(),
                forall|j: int| 0 <= j < i ==> (#[trigger] self@.attributes[j]).0 != name@,
            decreases self.attributes@.len() - i,
        {
            proof {
                assert(self@.attributes[i as int].0 == self.attributes@[i as int].0@);
                assert(self@.attributes[i as int].1 == self.attributes@[i as int].1@);
            }
            if str_eq(self.attributes[i].0.as_str(), name) {
                proof {
                    lemma_find_kv_at(self@.attributes, name@, i as int);
                }
                return Some(self.attributes[i].1.clone());
            }
            i = i + 1;
        }
        proof {
            lemma_find_kv_none(self@.attributes, name@);
        }
        None
    }
}

/// The item the scripted keyring builds for one server's credential:
/// tagged as a password, with the server and username attributes set and
/// the secret holding the password bytes — the shape the real keyring
/// stores.
pub open spec fn nullable_item(e: (String, Credential)) -> KeyringItemV {
    KeyringItemV {
        attributes: seq![
            ("type"@, "password"@),
            ("username"@, e.1.username@),
            ("server"@, e.0@),
        ],
        secret: encode_utf8(e.1.password@),
    }
}

/// One scripted item per `(server, credential)` pair, in order.
pub open spec fn nullable_items(creds: Seq<(String, Credential)>) -> Seq<KeyringItemV> {
    Seq::new(creds.len(), |i: int| nullable_item(creds[i]))
}

/// A scripted keyring: `search_items` returns a fixed response.
#[derive(Debug)]
pub struct NullableKeyring {
    pub search_response: Vec<KeyringItem>,
}

impl NullableKeyring {
    pub fn new(search_response: Vec<KeyringItem>) -> (r: Self)
        ensures
            r.search_response == search_response,
    {
        NullableKeyring { search_response }
    }

    /// One keyring item per `(server, credential)` pair, shaped as
    /// `nullable_item` says.
    pub fn with_credentials(credentials: Vec<(String, Credential)>) -> (r: Self)
        ensures
            r.search_response.deep_view() == nullable_items(credentials@),
    {
        let mut search_response: Vec<KeyringItem> = Vec::new();
        let mut i: usize = 0;
        while i < credentials.len()
            invariant
                i <= credentials@.len(),
                search_response@.len() == i,
                forall|k: int|
                    0 <= k < i ==> (#[trigger] search_response@[k])@ == nullable_item(
                        credentials@[k],
                    ),
            decreases credentials@.len() - i,
        {
            let cred = &credentials[i].1;
            let mut attributes: Vec<(String, String)> = Vec::new();
            attributes.push((String::from_str("type"), String::from_str("password")));
            attributes.push((String::from_str("username"), cred.username.clone()));
            attributes.push((String::from_str("server"), credentials[i].0.clone()));
            let secret = cred.password.as_str().as_bytes_vec();
            let item = KeyringItem { attributes, secret };
            proof {
                assert(item@.attributes =~= nullable_item(credentials@[i as int]).attributes);
                assert(item@ == nullable_item(credentials@[i as int]));
            }
            search_response.push(item);
            i = i + 1;
        }
        proof {
            assert(search_response.deep_view() =~= nullable_items(credentials@));
        }
        NullableKeyring { search_response }
    }

    /// The scripted search result.
    pub fn search_items(&self) -> (r: Vec<KeyringItem>)
        ensures
            r.deep_view() == self.search_response.deep_view(),
    {
        let mut out: Vec<KeyringItem> = Vec::new();
        let mut i: usize = 0;
        while i < self.search_response.len()
            invariant
                i <= self.search_response@.len(),
                out.deep_view() == self.search_response.deep_view().take(i as int),
            decreases self.search_response@.len() - i,
        {
            let ghost dv = out.deep_view();
            out.push(self.search_response[i].duplicate());
            proof {
                assert(out.deep_view() =~= dv.push(self.search_response@[i as int]@));
                assert(out.deep_view() =~= self.search_response.deep_view().take(i + 1));
            }
            i = i + 1;
        }
        proof {
            assert(self.search_response.deep_view().take(self.search_response@.len() as int)
                =~= self.search_response.deep_view());
        }
        out
    }
}

/// Whether a stored credential for this server carries another username.
pub open spec fn conflicting_account(
    m: Seq<(Seq<char>, (Seq<char>, Seq<char>))>,
    server: Seq<char>,
    username: Seq<char>,
) -> bool {
    find_kv(m, server) >= 0 && m[find_kv(m, server)].1.0 != username
}

/// The in-memory credential map: one entry per server.
#[derive(Debug)]
pub struct Credentials {
    pub creds: Vec<(String, Credential)>,
}

impl Credentials {
    /// The map as mathematics: server to `(username, password)`.
    pub open spec fn map_view(self) -> Seq<(Seq<char>, (Seq<char>, Seq<char>))> {
        Seq::new(
            self.creds@.len(),
            |i: int|
                (self.creds@[i].0@, (self.creds@[i].1.username@, self.creds@[i].1.password@)),
        )
    }

    /// One entry per server.
    pub open spec fn wf(self) -> bool {
        forall|i: int, j: int|
            0 <= i < j < self.creds@.len() ==> (#[trigger] self.creds@[i]).0@ != (
            #[trigger] self.creds@[j]).0@
    }

    /// An empty map; the durable items are fed in through `load`.
    pub fn new() -> (r: Credentials)
        ensures
            r.wf(),
            r.map_view().len() == 0,
    {
        Credentials { creds: Vec::new() }
    }

    /// The index of the entry for this server.
    fn find_entry(&self, server: &str) -> (r: Option<usize>)
        ensures
            match r {
                Some(i) => find_kv(self.map_view(), server@) == i,
                None => find_kv(self.map_view(), server@) == -1,
            },
    {
        let mut i: usize = 0;
        while i < self.creds.len()
            invariant
                i <= self.creds@.len(),
                forall|j: int| 0 <= j < i ==> (#[trigger] self.creds@[j]).0@ != server@,
            decreases self.creds@.len() - i,
        {
            if str_eq(self.creds[i].0.as_str(), server) {
                proof {
                    assert forall|j: int| 0 <= j < i implies (#[trigger] self.map_view()[j]).0
                        != server@ by {
                        assert(self.map_view()[j].0 == self.creds@[j].0@);
                    }
                    lemma_find_kv_at(self.map_view(), server@, i as int);
                }
                return Some(i);
            }
            i = i + 1;
        }
        proof {
            assert forall|j: int| 0 <= j < self.map_view().len() implies (
            #[trigger] self.map_view()[j]).0 != server@ by {
                assert(self.map_view()[j].0 == self.creds@[j].0@);
            }
            lemma_find_kv_none(self.map_view(), server@);
        }
        None
    }

    /// The credential for a server, if one is stored.
    pub fn get(&self, server: &str) -> (r: Option<Credential>)
        ensures
            r is Some <==> find_kv(self.map_view(), server@) >= 0,
            r matches Some(c) ==> {
                let v = self.map_view()[find_kv(self.map_view(), server@)].1;
                c.username@ == v.0 && c.password@ == v.1
            },
    {
        match self.find_entry(server) {
            Some(i) => {
                proof {
                    lemma_find_kv_props(self.map_view(), server@);
                }
                Some(self.creds[i].1.duplicate())
            },
            None => None,
        }
    }

    /// Every stored `(server, credential)` pair, in insertion order.
    pub fn list_all(&self) -> (r: Vec<(String, Credential)>)
        ensures
            r@.len() == self.map_view().len(),
            forall|i: int|
                0 <= i < r@.len() ==> {
                    let e = #[trigger] r@[i];
                    (e.0@, (e.1.username@, e.1.password@)) == self.map_view()[i]
                },
    {
        let mut out: Vec<(String, Credential)> = Vec::new();
        let mut i: usize = 0;
        while i < self.creds.len()
            invariant
                i <= self.creds@.len(),
                out@.len() == i,
                forall|j: int|
                    0 <= j < i ==> {
                        let e = #[trigger] out@[j];
                        (e.0@, (e.1.username@, e.1.password@)) == self.map_view()[j]
                    },
            decreases self.creds@.len() - i,
        {
            out.push((self.creds[i].0.clone(), self.creds[i].1.duplicate()));
            i = i + 1;
        }
        out
    }

    /// Put one credential in the map, replacing an entry for the same
    /// server.
    fn upsert_entry(&mut self, server: String, cred: Credential)
        ensures
            final(self).map_view() == upsert_kv(
                old(self).map_view(),
                server@,
                (cred.username@, cred.password@),
            ),
            old(self).wf() ==> final(self).wf(),
    {
        let ghost before = self.map_view();
        let ghost before_creds = self.creds@;
        match self.find_entry(server.as_str()) {
            Some(i) => {
                proof {
                    lemma_find_kv_props(before, server@);
                }
                let entry = &mut self.creds[i];
                entry.1 = cred;
                proof {
                    assert(self.map_view() =~= upsert_kv(
                        before,
                        server@,
                        (cred.username@, cred.password@),
                    ));
                    assert forall|a: int, b: int|
                        0 <= a < b < self.creds@.len() && old(self).wf() implies (
                    #[trigger] self.creds@[a]).0@ != (#[trigger] self.creds@[b]).0@ by {
                        assert(self.creds@[a].0 == before_creds[a].0);
                        assert(self.creds@[b].0 == before_creds[b].0);
                    }
                }
            },
            None => {
                proof {
                    lemma_find_kv_props(before, server@);
                }
                self.creds.push((server, cred));
                proof {
                    assert(self.map_view() =~= upsert_kv(
                        before,
                        server@,
                        (cred.username@, cred.password@),
                    ));
                    assert forall|a: int, b: int|
                        0 <= a < b < self.creds@.len() && old(self).wf() implies (
                    #[trigger] self.creds@[a]).0@ != (#[trigger] self.creds@[b]).0@ by {
                        assert(self.creds@[a] == before_creds[a]);
                        if b < before_creds.len() {
                            assert(self.creds@[b] == before_creds[b]);
                        } else {
                            assert(before[a].0 == before_creds[a].0@);
                        }
                    }
                }
            },
        }
    }

    /// Store a credential. A server keeps at most one account: a second
    /// username for the same server is refused, while re-inserting the
    /// same username updates the password.
    pub fn insert(&mut self, server: &str, username: &str, password: &str) -> (r: Result<(), Error>)
        requires
            old(self).wf(),
        ensures
            final(self).wf(),
            conflicting_account(old(self).map_view(), server@, username@) ==> (r matches Err(e)
                && e matches Error::SingleAccountPerServer) && *final(self) == *old(self),
            !conflicting_account(old(self).map_view(), server@, username@) ==> r is Ok && final(self).map_view() == upsert_kv(old(self).map_view(), server@, (username@, password@)),
    {
        match self.get(server) {
            Some(existing) => {
                if !str_eq(existing.username.as_str(), username) {
                    return Err(Error::SingleAccountPerServer);
                }
            },
            None => {},
        }
        self.upsert_entry(
            server.to_owned(),
            Credential { username: username.to_owned(), password: password.to_owned() },
        );
        Ok(())
    }

    /// Forget the credential of a server.
    pub fn delete(&mut self, server: &str) -> (r: Result<(), Error>)
        requires
            old(self).wf(),
        ensures
            final(self).wf(),
            find_kv(old(self).map_view(), server@) == -1 ==> (r matches Err(
                e,
            ) && e matches Error::AccountNotFound) && *final(self) == *old(self),
            find_kv(old(self).map_view(), server@) >= 0 ==> r is Ok && final(self).map_view()
                == old(self).map_view().remove(find_kv(old(self).map_view(), server@)),
    {
        let ghost before_creds = self.creds@;
        match self.find_entry(server) {
            None => Err(Error::AccountNotFound),
            Some(i) => {
                proof {
                    lemma_find_kv_props(self.map_view(), server@);
                }
                self.creds.remove(i);
                proof {
                    assert(self.map_view() =~= old(self).map_view().remove(i as int));
                    assert forall|a: int, b: int|
                        0 <= a < b < self.creds@.len() implies (#[trigger] self.creds@[a]).0@ != (
                    #[trigger] self.creds@[b]).0@ by {
                        let ia = if a < i { a } else { a + 1 };
                        let ib = if b < i { b } else { b + 1 };
                        assert(self.creds@[a] == before_creds[ia]);
                        assert(self.creds@[b] == before_creds[ib]);
                    }
                }
                Ok(())
            },
        }
    }

    /// Rebuild the map from keyring items: each item's `server` and
    /// `username` attributes key its secret, later items replacing
    /// earlier ones. An item without those attributes, or whose secret is
    /// not UTF-8, stops the load with a storage error.
    pub fn load(&mut self, items: Vec<KeyringItem>) -> (r: Result<(), Error>)
        requires
            old(self).wf(),
        ensures
            final(self).wf(),
            r is Ok ==> final(self).map_view() == loaded_view(items.deep_view()),
            r is Ok <==> all_items_loadable(items.deep_view()),
    {
        self.creds = Vec::new();
        let mut i: usize = 0;
        proof {
            assert(self.map_view() =~= loaded_view(items.deep_view().take(0)));
        }
        while i < items.len()
            invariant
                i <= items@.len(),
                items.deep_view().len() == items@.len(),
                self.wf(),
                self.map_view() == loaded_view(items.deep_view().take(i as int)),
                forall|j: int| 0 <= j < i ==> item_loadable(#[trigger] items.deep_view()[j]),
            decreases items@.len() - i,
        {
            proof {
                assert(items.deep_view()[i as int] == items@[i as int]@);
                assert(items.deep_view().take(i + 1).drop_last() =~= items.deep_view().take(
                    i as int,
                ));
                assert(items.deep_view().take(i + 1).last() == items.deep_view()[i as int]);
            }
            let item = &items[i];
            let server = match item.attribute("server") {
                Some(s) => s,
                None => {
                    return Err(Error::Db("keyring item lacks a server attribute".to_owned()));
                },
            };
            let username = match item.attribute("username") {
                Some(u) => u,
                None => {
                    return Err(Error::Db("keyring item lacks a username attribute".to_owned()));
                },
            };
            let password = match bytes_to_string(item.secret.as_slice()) {
                Some(p) => p,
                None => {
                    return Err(Error::Db("keyring secret is not valid UTF-8".to_owned()));
                },
            };
            proof {
                let itv = items.deep_view()[i as int];
                assert(encode_utf8(password@) == itv.secret);
                vstd::utf8::encode_utf8_decode_utf8(password@);
                vstd::utf8::encode_utf8_decode_utf8(decoded_secret(itv));
                assert(password@ == decoded_secret(itv));
            }
            self.upsert_entry(server, Credential { username, password });
            i = i + 1;
        }
        proof {
            assert(items.deep_view().take(items@.len() as int) =~= items.deep_view());
        }
        Ok(())
    }

    /// Build a store over a scripted keyring, as tests do. Every scripted
    /// item carries its key attributes and a UTF-8 secret, so the load
    /// always succeeds, and the map is exactly what loading those items
    /// builds.
    pub fn new_nullable(credentials: Vec<(String, Credential)>) -> (r: Result<Credentials, Error>)
        ensures
            r is Ok,
            r matches Ok(c) ==> c.wf() && c.map_view() == loaded_view(
                nullable_items(credentials@),
            ),
    {
        let keyring = NullableKeyring::with_credentials(credentials);
        let items = keyring.search_items();
        proof {
            lemma_nullable_items_loadable(credentials@);
        }
        let mut this = Credentials::new();
        match this.load(items) {
            Ok(()) => Ok(this),
            Err(e) => Err(e),
        }
    }
}

/// The attribute value an item holds under this name.
pub open spec fn item_attr(item: KeyringItemV, name: Seq<char>) -> Option<Seq<char>> {
    let i = find_kv(item.attributes, name);
    if i >= 0 {
        Some(item.attributes[i].1)
    } else {
        None
    }
}

/// The decoded secret of an item, where one exists.
pub open spec fn decoded_secret(item: KeyringItemV) -> Seq<char> {
    choose|cs: Seq<char>| encode_utf8(cs) == item.secret
}

/// Whether an item can enter the map: both key attributes present, secret
/// valid UTF-8.
pub open spec fn item_loadable(item: KeyringItemV) -> bool {
    &&& item_attr(item, "server"@) is Some
    &&& item_attr(item, "username"@) is Some
    &&& exists|cs: Seq<char>| encode_utf8(cs) == item.secret
}

pub open spec fn all_items_loadable(items: Seq<KeyringItemV>) -> bool {
    forall|j: int| 0 <= j < items.len() ==> item_loadable(#[trigger] items[j])
}

/// Every scripted item can enter the map: the key attributes are in
/// place, and the secret is the UTF-8 encoding of the password.
pub proof fn lemma_nullable_items_loadable(creds: Seq<(String, Credential)>)
    ensures
        all_items_loadable(nullable_items(creds)),
{
    assert forall|j: int| 0 <= j < nullable_items(creds).len() implies item_loadable(
        #[trigger] nullable_items(creds)[j],
    ) by {
        let item = nullable_item(creds[j]);
        reveal_strlit("type");
        reveal_strlit("username");
        reveal_strlit("server");
        assert("type"@.len() == 4 && "username"@.len() == 8 && "server"@.len() == 6);
        lemma_find_kv_at(item.attributes, "server"@, 2);
        lemma_find_kv_at(item.attributes, "username"@, 1);
        assert(encode_utf8(creds[j].1.password@) == item.secret);
    }
}

/// The map a sequence of loadable items builds: upserts in order, later
/// items replacing earlier ones.
pub open spec fn loaded_view(items: Seq<KeyringItemV>) -> Seq<(Seq<char>, (Seq<char>, Seq<char>))>
    decreases items.len(),
{
    if items.len() == 0 {
        Seq::<(Seq<char>, (Seq<char>, Seq<char>))>::empty()
    } else {
        let last = items.last();
        upsert_kv(
            loaded_view(items.drop_last()),
            item_attr(last, "server"@).unwrap(),
            (item_attr(last, "username"@).unwrap(), decoded_secret(last)),
        )
    }
}

} // verus!
