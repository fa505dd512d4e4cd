//! The HTTP surface the daemon's logic works with: plain request and
//! response values, the HTTP Basic authorization header, and the scripted
//! client test double with URL-keyed FIFO response queues.
//!
//! Executing a request against the network is input/output and lives
//! outside the library; the scripted client below is pure and verified.
use vstd::prelude::*;

verus! {

use crate::base64::{b64_of, b64_encode};
use vstd::utf8::encode_utf8;

/// A request as recorded and dispatched: method, URL, headers in order,
/// and an optional body.
#[derive(Clone, Debug)]
pub struct RequestInfo {
    pub method: String,
    pub url: String,
    pub headers: Vec<(String, String)>,
    pub body: Option<String>,
}

/// The mathematical shape of a request.
pub ghost struct RequestInfoV {
    pub method: Seq<char>,
    pub url: Seq<char>,
    pub headers: Seq<(Seq<char>, Seq<char>)>,
    pub body: Option<Seq<char>>,
}

impl View for RequestInfo {
    type V = RequestInfoV;

    open spec fn view(&self) -> RequestInfoV {
        RequestInfoV {
            method: self.method@,
            url: self.url@,
            headers: self.headers.deep_view(),
            body: self.body.deep_view(),
        }
    }
}

impl RequestInfo {
    /// A field-for-field copy; equal to the original in its view.
    pub fn duplicate(&self) -> (r: RequestInfo)
        ensures
            r@ == self@,
    {
        RequestInfo {
            method: self.method.clone(),
            url: self.url.clone(),
            headers: crate::models::clone_pairs(&self.headers),
            body: crate::models::clone_opt_string(&self.body),
        }
    }
}

/// A response as the logic consumes it: a status code and a body.
#[derive(Clone, Debug)]
pub struct HttpResponse {
    pub status: u16,
    pub body: String,
}

impl HttpResponse {
    pub fn new(status: u16, body: String) -> (r: Self)
        ensures
            r.status == status,
            r.body == body,
    {
        HttpResponse { status, body }
    }

    /// A field-for-field copy.
    pub fn duplicate(&self) -> (r: HttpResponse)
        ensures
            r == *self,
    {
        HttpResponse { status: self.status, body: self.body.clone() }
    }

    /// Whether the status is a success (2xx).
    pub fn is_success(&self) -> (r: bool)
        ensures
            r == (200 <= self.status < 300),
    {
        200 <= self.status && self.status < 300
    }
}

/// The value of an `Authorization` header for HTTP Basic credentials.
pub open spec fn basic_auth_of(user: Seq<char>, pass: Seq<char>) -> Seq<char> {
    "Basic "@ + b64_of(encode_utf8(user + ":"@ + pass))
}

/// Render `Basic base64(user:pass)`.
pub fn basic_auth_value(user: &str, pass: &str) -> (r: String)
    ensures
        r@ == basic_auth_of(user@, pass@),
{
    let mut creds = String::new();
    creds.append(user);
    creds.append(":");
    creds.append(pass);
    proof {
        assert(creds@ =~= user@ + ":"@ + pass@);
    }
    let bytes = creds.as_str().as_bytes_vec();
    let enc = b64_encode(bytes.as_slice());
    let mut out = String::new();
    out.append("Basic ");
    out.append(enc.as_str());
    proof {
        assert(out@ =~= "Basic "@ + b64_of(encode_utf8(user@ + ":"@ + pass@)));
    }
    out
}

// ---------------------------------------------------------------------------
// Scripted client
// ---------------------------------------------------------------------------

/// The index of the first entry whose key is `url`, or -1.
pub open spec fn find_url(entries: Seq<(String, Vec<HttpResponse>)>, url: Seq<char>) -> int
    decreases entries.len(),
{
    if entries.len() == 0 {
        -1
    } else if entries[0].0@ == url {
        0
    } else {
        let r = find_url(entries.skip(1), url);
        if r == -1 {
            -1
        } else {
            r + 1
        }
    }
}

/// `find_url` returns -1 or an index into the entries.
pub proof fn lemma_find_url_range(entries: Seq<(String, Vec<HttpResponse>)>, url: Seq<char>)
    ensures
        -1 <= find_url(entries, url) < entries.len(),
    decreases entries.len(),
{
    if entries.len() > 0 && entries[0].0@ != url {
        lemma_find_url_range(entries.skip(1), url);
    }
}

/// Basic shape of `find_url`: a found index is in range, matches, and is
/// the first match; -1 means no entry matches.
pub proof fn lemma_find_url_props(entries: Seq<(String, Vec<HttpResponse>)>, url: Seq<char>)
    ensures
        find_url(entries, url) == -1 ==> (forall|j: int|
            0 <= j < entries.len() ==> (#[trigger] entries[j].0)@ != url),
        find_url(entries, url) >= 0 ==> {
            let i = find_url(entries, url);
            &&& i < entries.len()
            &&& entries[i].0@ == url
            &&& forall|j: int| 0 <= j < i ==> (#[trigger] entries[j].0)@ != url
        },
    decreases entries.len(),
{
    if entries.len() > 0 && entries[0].0@ != url {
        lemma_find_url_props(entries.skip(1), url);
        lemma_find_url_range(entries.skip(1), url);
        let r = find_url(entries.skip(1), url);
        if r == -1 {
            assert forall|j: int| 0 <= j < entries.len() implies (#[trigger] entries[j].0)@ != url
            by {
                if j > 0 {
                    assert(entries.skip(1)[j - 1] == entries[j]);
                }
            }
        } else {
            let i = r + 1;
            assert(entries.skip(1)[i - 1] == entries[i]);
            assert forall|j: int| 0 <= j < i implies (#[trigger] entries[j].0)@ != url by {
                if j > 0 {
                    assert(entries.skip(1)[j - 1] == entries[j]);
                }
            }
        }
    }
}

/// When `k` is the first matching index, `find_url` returns it.
pub proof fn lemma_find_url_at(entries: Seq<(String, Vec<HttpResponse>)>, url: Seq<char>, k: int)
    requires
        0 <= k < entries.len(),
        entries[k].0@ == url,
        forall|j: int| 0 <= j < k ==> (#[trigger] entries[j].0)@ != url,
    ensures
        find_url(entries, url) == k,
    decreases entries.len(),
{
    if k > 0 {
        assert(entries[0].0@ != url);
        assert(entries.skip(1)[k - 1] == entries[k]);
        assert forall|j: int| 0 <= j < k - 1 implies (#[trigger] entries.skip(1)[j].0)@ != url by {
            assert(entries.skip(1)[j] == entries[j + 1]);
        }
        lemma_find_url_at(entries.skip(1), url, k - 1);
    }
}

/// When no entry matches, `find_url` returns -1.
pub proof fn lemma_find_url_none(entries: Seq<(String, Vec<HttpResponse>)>, url: Seq<char>)
    requires
        forall|j: int| 0 <= j < entries.len() ==> (#[trigger] entries[j].0)@ != url,
    ensures
        find_url(entries, url) == -1,
    decreases entries.len(),
{
    if entries.len() > 0 {
        assert forall|j: int| 0 <= j < entries.skip(1).len() implies (#[trigger] entries.skip(
            1,
        )[j].0)@ != url by {
            assert(entries.skip(1)[j] == entries[j + 1]);
        }
        lemma_find_url_none(entries.skip(1), url);
    }
}

/// Replacing the value of one entry moves no index.
pub proof fn lemma_find_url_update_value(
    entries: Seq<(String, Vec<HttpResponse>)>,
    i: int,
    v: Vec<HttpResponse>,
    url: Seq<char>,
)
    requires
        0 <= i < entries.len(),
    ensures
        find_url(entries.update(i, (entries[i].0, v)), url) == find_url(entries, url),
    decreases entries.len(),
{
    let updated = entries.update(i, (entries[i].0, v));
    assert(updated[0].0@ == entries[0].0@);
    if entries[0].0@ != url {
        if i == 0 {
            assert(updated.skip(1) =~= entries.skip(1));
        } else {
            lemma_find_url_update_value(entries.skip(1), i - 1, v, url);
            assert(entries.skip(1)[i - 1] == entries[i]);
            assert(updated.skip(1) =~= entries.skip(1).update(i - 1, (entries.skip(1)[i - 1].0, v)));
        }
    }
}

/// Appending an entry leaves earlier matches alone; a new key is found at
/// the end.
pub proof fn lemma_find_url_push(
    entries: Seq<(String, Vec<HttpResponse>)>,
    e: (String, Vec<HttpResponse>),
    url: Seq<char>,
)
    ensures
        find_url(entries.push(e), url) == if find_url(entries, url) >= 0 {
            find_url(entries, url)
        } else if e.0@ == url {
            entries.len() as int
        } else {
            -1
        },
    decreases entries.len(),
{
    if entries.len() == 0 {
        assert(entries.push(e)[0] == e);
        assert(entries.push(e).skip(1) =~= Seq::<(String, Vec<HttpResponse>)>::empty());
        if e.0@ != url {
            assert(find_url(Seq::<(String, Vec<HttpResponse>)>::empty(), url) == -1);
            assert(find_url(entries.push(e), url) == -1);
        }
    } else {
        lemma_find_url_push(entries.skip(1), e, url);
        lemma_find_url_range(entries.skip(1), url);
        lemma_find_url_range(entries.skip(1).push(e), url);
        assert(entries.push(e)[0] == entries[0]);
        assert(entries.push(e).skip(1) =~= entries.skip(1).push(e));
        let whole = entries.push(e);
        if entries[0].0@ == url {
            assert(find_url(whole, url) == 0);
        } else {
            let rt = find_url(entries.skip(1).push(e), url);
            assert(find_url(whole, url) == (if rt == -1 { -1int } else { rt + 1 }));
        }
    }
}

/// A scripted HTTP client: a FIFO queue of responses per URL, and an
/// optional default for unmatched URLs.
#[derive(Debug)]
pub struct NullableClient {
    pub responses: Vec<(String, Vec<HttpResponse>)>,
    pub default_response: Option<HttpResponse>,
}

impl NullableClient {
    /// The responses still queued for a URL, in the order they will be
    /// returned.
    pub open spec fn queue_of(self, url: Seq<char>) -> Seq<HttpResponse> {
        let i = find_url(self.responses@, url);
        if i >= 0 {
            self.responses@[i].1@
        } else {
            Seq::<HttpResponse>::empty()
        }
    }

    pub fn builder() -> (r: NullableClientBuilder)
        ensures
            r.client.responses@.len() == 0,
            r.client.default_response is None,
    {
        NullableClientBuilder {
            client: NullableClient { responses: Vec::new(), default_response: None },
        }
    }

    /// The first entry whose key is `url`.
    fn find_entry(&self, url: &str) -> (r: Option<usize>)
        ensures
            match r {
                Some(i) => find_url(self.responses@, url@) == i,
                None => find_url(self.responses@, url@) == -1,
            },
    {
        let mut i: usize = 0;
        while i < self.responses.len()
            invariant
                i <= self.responses@.len(),
                forall|j: int| 0 <= j < i ==> (#[trigger] self.responses@[j].0)@ != url@,
            decreases self.responses@.len() - i,
        {
            if crate::strutil::str_eq(self.responses[i].0.as_str(), url) {
                proof {
                    lemma_find_url_at(self.responses@, url@, i as int);
                }
                return Some(i);
            }
            i = i + 1;
        }
        proof {
            lemma_find_url_none(self.responses@, url@);
        }
        None
    }

    /// Serve one request: the next queued response for the URL, else the
    /// default, else nothing.
    pub fn execute(&mut self, req: &RequestInfo) -> (r: Option<HttpResponse>)
        ensures
            old(self).queue_of(req.url@).len() > 0 ==> {
                &&& r == Some(old(self).queue_of(req.url@)[0])
                &&& final(self).queue_of(req.url@) == old(self).queue_of(req.url@).skip(1)
                &&& forall|u: Seq<char>|
                    u != req.url@ ==> #[trigger] final(self).queue_of(u) == old(self).queue_of(u)
                &&& final(self).default_response == old(self).default_response
            },
            old(self).queue_of(req.url@).len() == 0 ==> {
                &&& *final(self) == *old(self)
                &&& r == old(self).default_response
            },
    {
        match self.find_entry(req.url.as_str()) {
            Some(i) => {
                proof {
                    lemma_find_url_props(self.responses@, req.url@);
                }
                if self.responses[i].1.len() > 0 {
                    let ghost before = self.responses@;
                    let entry = &mut self.responses[i];
                    let resp = entry.1.remove(0);
                    proof {
                        assert(self.responses@ =~= before.update(
                            i as int,
                            (before[i as int].0, self.responses@[i as int].1),
                        ));
                        lemma_find_url_update_value(
                            before,
                            i as int,
                            self.responses@[i as int].1,
                            req.url@,
                        );
                        assert forall|u: Seq<char>| u != req.url@ implies #[trigger] self.queue_of(
                            u,
                        ) == old(self).queue_of(u) by {
                            lemma_find_url_update_value(
                                before,
                                i as int,
                                self.responses@[i as int].1,
                                u,
                            );
                            lemma_find_url_props(before, u);
                        }
                    }
                    Some(resp)
                } else {
                    match &self.default_response {
                        Some(d) => Some(d.duplicate()),
                        None => None,
                    }
                }
            },
            None => {
                match &self.default_response {
                    Some(d) => Some(d.duplicate()),
                    None => None,
                }
            },
        }
    }
}

/// Builds a scripted client.
#[derive(Debug)]
pub struct NullableClientBuilder {
    pub client: NullableClient,
}

impl NullableClientBuilder {
    pub fn new() -> (r: Self)
        ensures
            r.client.responses@.len() == 0,
            r.client.default_response is None,
    {
        NullableClient::builder()
    }

    /// Queue one more response for a URL.
    pub fn response(self, url: String, response: HttpResponse) -> (r: Self)
        ensures
            r.client.queue_of(url@) == self.client.queue_of(url@).push(response),
            forall|u: Seq<char>|
                u != url@ ==> #[trigger] r.client.queue_of(u) == self.client.queue_of(u),
            r.client.default_response == self.client.default_response,
    {
        let ghost orig = self.client;
        let mut client = self.client;
        let ghost before = client.responses@;
        match client.find_entry(url.as_str()) {
            Some(i) => {
                proof {
                    lemma_find_url_props(client.responses@, url@);
                }
                let entry = &mut client.responses[i];
                entry.1.push(response);
                proof {
                    assert(client.responses@ =~= before.update(
                        i as int,
                        (before[i as int].0, client.responses@[i as int].1),
                    ));
                    lemma_find_url_update_value(
                        before,
                        i as int,
                        client.responses@[i as int].1,
                        url@,
                    );
                    assert forall|u: Seq<char>| u != url@ implies #[trigger] client.queue_of(u)
                        == orig.queue_of(u) by {
                        lemma_find_url_update_value(
                            before,
                            i as int,
                            client.responses@[i as int].1,
                            u,
                        );
                        lemma_find_url_props(before, u);
                    }
                }
            },
            None => {
                let mut q: Vec<HttpResponse> = Vec::new();
                q.push(response);
                client.responses.push((url, q));
                proof {
                    let ghost pushed = client.responses@.last();
                    assert(client.responses@ =~= before.push(pushed));
                    lemma_find_url_push(before, pushed, url@);
                    assert(orig.queue_of(url@) =~= Seq::<HttpResponse>::empty());
                    assert(client.queue_of(url@) =~= orig.queue_of(url@).push(response));
                    assert forall|u: Seq<char>| u != url@ implies #[trigger] client.queue_of(u)
                        == orig.queue_of(u) by {
                        lemma_find_url_push(before, pushed, u);
                        lemma_find_url_range(before, u);
                        lemma_find_url_props(before, u);
                        assert(pushed.0@ == url@);
                    }
                }
            },
        }
        NullableClientBuilder { client }
    }

    /// Replace the whole queue for a URL.
    pub fn responses(self, url: String, list: Vec<HttpResponse>) -> (r: Self)
        ensures
            r.client.queue_of(url@) == list@,
            forall|u: Seq<char>|
                u != url@ ==> #[trigger] r.client.queue_of(u) == self.client.queue_of(u),
            r.client.default_response == self.client.default_response,
    {
        let ghost orig = self.client;
        let mut client = self.client;
        let ghost before = client.responses@;
        match client.find_entry(url.as_str()) {
            Some(i) => {
                proof {
                    lemma_find_url_props(client.responses@, url@);
                }
                let entry = &mut client.responses[i];
                entry.1 = list;
                proof {
                    assert(client.responses@ =~= before.update(
                        i as int,
                        (before[i as int].0, client.responses@[i as int].1),
                    ));
                    lemma_find_url_update_value(
                        before,
                        i as int,
                        client.responses@[i as int].1,
                        url@,
                    );
                    assert forall|u: Seq<char>| u != url@ implies #[trigger] client.queue_of(u)
                        == orig.queue_of(u) by {
                        lemma_find_url_update_value(
                            before,
                            i as int,
                            client.responses@[i as int].1,
                            u,
                        );
                        lemma_find_url_props(before, u);
                    }
                }
            },
            None => {
                client.responses.push((url, list));
                proof {
                    let ghost pushed = client.responses@.last();
                    assert(client.responses@ =~= before.push(pushed));
                    lemma_find_url_push(before, pushed, url@);
                    assert(client.queue_of(url@) =~= list@);
                    assert forall|u: Seq<char>| u != url@ implies #[trigger] client.queue_of(u)
                        == orig.queue_of(u) by {
                        lemma_find_url_push(before, pushed, u);
                        lemma_find_url_range(before, u);
                        lemma_find_url_props(before, u);
                        assert(pushed.0@ == url@);
                    }
                }
            },
        }
        NullableClientBuilder { client }
    }

    /// The response returned for every URL with an empty or missing queue.
    pub fn default_response(self, response: HttpResponse) -> (r: Self)
        ensures
            r.client.default_response == Some(response),
            r.client.responses == self.client.responses,
    {
        let mut client = self.client;
        client.default_response = Some(response);
        NullableClientBuilder { client }
    }

    /// Queue a JSON response: a status and the JSON text as its body.
    pub fn json_response(self, url: String, status: u16, json_body: String) -> (r: Self)
        ensures
            r.client.queue_of(url@) == self.client.queue_of(url@).push(
                HttpResponse { status, body: json_body },
            ),
            forall|u: Seq<char>|
                u != url@ ==> #[trigger] r.client.queue_of(u) == self.client.queue_of(u),
            r.client.default_response == self.client.default_response,
    {
        self.response(url, HttpResponse::new(status, json_body))
    }

    /// Queue a plain text response.
    pub fn text_response(self, url: String, status: u16, body: String) -> (r: Self)
        ensures
            r.client.queue_of(url@) == self.client.queue_of(url@).push(
                HttpResponse { status, body },
            ),
            forall|u: Seq<char>|
                u != url@ ==> #[trigger] r.client.queue_of(u) == self.client.queue_of(u),
            r.client.default_response == self.client.default_response,
    {
        self.response(url, HttpResponse::new(status, body))
    }

    pub fn build(self) -> (r: NullableClient)
        ensures
            r == self.client,
    {
        self.client
    }
}

} // verus!
