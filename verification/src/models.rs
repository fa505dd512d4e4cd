//! Data model: subscriptions and their validation, wire messages and the
//! verified field-by-field parsers over the trusted JSON lookups, emoji
//! decoration of notification text, accounts and notifications.
use vstd::prelude::*;

verus! {

use crate::Error;
use crate::json::{
    get_array_field, get_bool_field, get_object_field, get_str_array_field, get_str_field,
    get_str_map_field, get_u64_field, json_array_field, json_bool_field, json_object_field,
    json_str_array_field, json_str_field, json_str_map_field, json_u64_field,
};
use crate::strutil::str_eq;
use crate::urls;

pub const DEFAULT_SERVER: &'static str = "https://ntfy.sh";

// ---------------------------------------------------------------------------
// Topic validation
// ---------------------------------------------------------------------------

/// A topic character: an ASCII letter, a digit, `_` or `-`.
pub open spec fn is_topic_char(c: char) -> bool {
    let u = c as u32;
    (65 <= u <= 90)  // A-Z
    || (97 <= u <= 122)  // a-z
    || (48 <= u <= 57)  // 0-9
    || u == 95  // _
    || u == 45  // -
}

/// A valid topic: 1 to 64 topic characters.
pub open spec fn valid_topic(s: Seq<char>) -> bool {
    1 <= s.len() <= 64 && (forall|i: int| 0 <= i < s.len() ==> is_topic_char(s[i]))
}

/// Accept exactly the strings of 1 to 64 ASCII letters, digits, `_` or `-`.
pub fn validate_topic(topic: &str) -> (r: Result<&str, Error>)
    ensures
        r is Ok <==> valid_topic(topic@),
        r matches Ok(t) ==> t@ == topic@,
        r matches Err(e) ==> (e matches Error::InvalidTopic(s) && s@ == topic@),
{
    let len = topic.unicode_len();
    if len < 1 || len > 64 {
        return Err(Error::InvalidTopic(topic.to_owned()));
    }
    let mut i: usize = 0;
    while i < len
        invariant
            i <= len,
            len == topic@.len(),
            forall|j: int| 0 <= j < i ==> is_topic_char(topic@[j]),
        decreases len - i,
    {
        let u = topic.get_char(i) as u32;
        if !((65 <= u && u <= 90) || (97 <= u && u <= 122) || (48 <= u && u <= 57) || u == 95
            || u == 45) {
            return Err(Error::InvalidTopic(topic.to_owned()));
        }
        i = i + 1;
    }
    Ok(topic)
}

// ---------------------------------------------------------------------------
// Subscription
// ---------------------------------------------------------------------------

/// A persistent subscription to one `(server, topic)` pair.
#[derive(Clone, Debug)]
pub struct Subscription {
    pub server: String,
    pub topic: String,
    pub display_name: String,
    pub muted: bool,
    pub archived: bool,
    pub reserved: bool,
    pub symbolic_icon: Option<String>,
    pub read_until: u64,
}

impl Subscription {
    /// A well-formed subscription: valid topic, base-capable server URL.
    pub open spec fn valid_spec(self) -> bool {
        valid_topic(self.topic@) && urls::server_base_ok(self.server@)
    }

    /// The streaming endpoint `{server}/{topic}/json?since=<n>`.
    pub fn build_url(server: &str, topic: &str, since: u64) -> (r: Result<String, Error>)
        ensures
            r is Ok <==> urls::server_base_ok(server@),
            r matches Ok(u) ==> u@ == urls::topic_url_of(server@, topic@, since),
            r matches Err(e) ==> e matches Error::InvalidServer(_),
    {
        match urls::render_topic_url(server, topic, since) {
            Ok(u) => Ok(u),
            Err(e) => Err(Error::InvalidServer(e)),
        }
    }

    /// The authentication probe endpoint `{server}/{topic}/auth`.
    pub fn build_auth_url(server: &str, topic: &str) -> (r: Result<String, Error>)
        ensures
            r is Ok <==> urls::server_base_ok(server@),
            r matches Ok(u) ==> u@ == urls::auth_url_of(server@, topic@),
            r matches Err(e) ==> e matches Error::InvalidServer(_),
    {
        match urls::render_auth_url(server, topic) {
            Ok(u) => Ok(u),
            Err(e) => Err(Error::InvalidServer(e)),
        }
    }

    /// Check the topic grammar and the server URL; collect the failures,
    /// topic error first.
    pub fn validate(self) -> (r: Result<Subscription, Vec<Error>>)
        ensures
            r is Ok <==> self.valid_spec(),
            r matches Ok(s) ==> s == self,
            r matches Err(es) ==> {
                &&& es@.len() == (if valid_topic(self.topic@) {
                    0int
                } else {
                    1int
                }) + (if urls::server_base_ok(self.server@) {
                    0int
                } else {
                    1int
                })
                &&& !valid_topic(self.topic@) ==> (es@[0] matches Error::InvalidTopic(t)
                    && t@ == self.topic@)
                &&& !urls::server_base_ok(self.server@) ==> (es@[es@.len() - 1]
                    matches Error::InvalidServer(_))
            },
    {
        let mut errs: Vec<Error> = Vec::new();
        match validate_topic(self.topic.as_str()) {
            Ok(_) => {},
            Err(e) => errs.push(e),
        }
        match Self::build_url(self.server.as_str(), self.topic.as_str(), 0) {
            Ok(_) => {},
            Err(e) => errs.push(e),
        }
        if errs.len() > 0 {
            return Err(errs);
        }
        Ok(self)
    }

    /// A field-for-field copy.
    pub fn duplicate(&self) -> (r: Subscription)
        ensures
            r == *self,
    {
        Subscription {
            server: self.server.clone(),
            topic: self.topic.clone(),
            display_name: self.display_name.clone(),
            muted: self.muted,
            archived: self.archived,
            reserved: self.reserved,
            symbolic_icon: clone_opt_string(&self.symbolic_icon),
            read_until: self.read_until,
        }
    }

    pub fn builder(topic: String) -> (r: SubscriptionBuilder)
        ensures
            r.server@ == "https://ntfy.sh"@,
            r.topic == topic,
            r.muted == false,
            r.archived == false,
            r.reserved == false,
            r.symbolic_icon is None,
            r.display_name@ == Seq::<char>::empty(),
    {
        SubscriptionBuilder::new(topic)
    }
}

/// Step-by-step construction of a subscription; `build` validates.
#[derive(Clone, Debug)]
pub struct SubscriptionBuilder {
    pub server: String,
    pub topic: String,
    pub muted: bool,
    pub archived: bool,
    pub reserved: bool,
    pub symbolic_icon: Option<String>,
    pub display_name: String,
}

impl SubscriptionBuilder {
    pub fn new(topic: String) -> (r: Self)
        ensures
            r.server@ == "https://ntfy.sh"@,
            r.topic == topic,
            r.muted == false,
            r.archived == false,
            r.reserved == false,
            r.symbolic_icon is None,
            r.display_name@ == Seq::<char>::empty(),
    {
        SubscriptionBuilder {
            server: DEFAULT_SERVER.to_owned(),
            topic,
            muted: false,
            archived: false,
            reserved: false,
            symbolic_icon: None,
            display_name: String::new(),
        }
    }

    pub fn server(self, server: String) -> (r: Self)
        ensures
            r == (SubscriptionBuilder { server, ..self }),
    {
        SubscriptionBuilder { server, ..self }
    }

    pub fn muted(self, muted: bool) -> (r: Self)
        ensures
            r == (SubscriptionBuilder { muted, ..self }),
    {
        SubscriptionBuilder { muted, ..self }
    }

    pub fn archived(self, archived: bool) -> (r: Self)
        ensures
            r == (SubscriptionBuilder { archived, ..self }),
    {
        SubscriptionBuilder { archived, ..self }
    }

    pub fn reserved(self, reserved: bool) -> (r: Self)
        ensures
            r == (SubscriptionBuilder { reserved, ..self }),
    {
        SubscriptionBuilder { reserved, ..self }
    }

    pub fn symbolic_icon(self, symbolic_icon: Option<String>) -> (r: Self)
        ensures
            r == (SubscriptionBuilder { symbolic_icon, ..self }),
    {
        SubscriptionBuilder { symbolic_icon, ..self }
    }

    pub fn display_name(self, display_name: String) -> (r: Self)
        ensures
            r == (SubscriptionBuilder { display_name, ..self }),
    {
        SubscriptionBuilder { display_name, ..self }
    }

    /// The subscription this builder assembles, before validation: its
    /// fields, with `read_until` starting at zero.
    pub open spec fn assembled(self) -> Subscription {
        Subscription {
            server: self.server,
            topic: self.topic,
            display_name: self.display_name,
            muted: self.muted,
            archived: self.archived,
            reserved: self.reserved,
            symbolic_icon: self.symbolic_icon,
            read_until: 0,
        }
    }

    /// Assemble and validate: one error per failed check, topic first.
    pub fn build(self) -> (r: Result<Subscription, Vec<Error>>)
        ensures
            r is Ok <==> self.assembled().valid_spec(),
            r matches Ok(s) ==> s == self.assembled(),
            r matches Err(es) ==> {
                &&& es@.len() == (if valid_topic(self.topic@) {
                    0int
                } else {
                    1int
                }) + (if urls::server_base_ok(self.server@) {
                    0int
                } else {
                    1int
                })
                &&& !valid_topic(self.topic@) ==> (es@[0] matches Error::InvalidTopic(t)
                    && t@ == self.topic@)
                &&& !urls::server_base_ok(self.server@) ==> (es@[es@.len() - 1]
                    matches Error::InvalidServer(_))
            },
    {
        let res = Subscription {
            server: self.server,
            topic: self.topic,
            display_name: self.display_name,
            muted: self.muted,
            archived: self.archived,
            reserved: self.reserved,
            symbolic_icon: self.symbolic_icon,
            read_until: 0,
        };
        res.validate()
    }
}

// ---------------------------------------------------------------------------
// Emoji decoration
// ---------------------------------------------------------------------------

/// The tag-to-emoji association list, loaded once at process start from an
/// embedded asset and passed in by the caller.
#[derive(Clone, Debug)]
pub struct EmojiMap {
    pub entries: Vec<(String, String)>,
}

/// First-match lookup in an association list of strings.
pub open spec fn spec_lookup(entries: Seq<(String, String)>, tag: Seq<char>) -> Option<Seq<char>>
    decreases entries.len(),
{
    if entries.len() == 0 {
        None
    } else if entries[0].0@ == tag {
        Some(entries[0].1@)
    } else {
        spec_lookup(entries.skip(1), tag)
    }
}

/// The concatenation of the emojis of the tags that have one, in tag order.
pub open spec fn emoji_prefix(entries: Seq<(String, String)>, tags: Seq<String>) -> Seq<char>
    decreases tags.len(),
{
    if tags.len() == 0 {
        Seq::<char>::empty()
    } else {
        emoji_prefix(entries, tags.drop_last()) + (match spec_lookup(entries, tags.last()@) {
            Some(e) => e,
            None => Seq::<char>::empty(),
        })
    }
}

impl EmojiMap {
    pub fn new(entries: Vec<(String, String)>) -> (r: Self)
        ensures
            r.entries == entries,
    {
        EmojiMap { entries }
    }

    /// The emoji for a tag, if the map has one.
    pub fn lookup(&self, tag: &str) -> (r: Option<String>)
        ensures
            r.deep_view() == spec_lookup(self.entries@, tag@),
    {
        let mut i: usize = 0;
        proof {
            assert(self.entries@.skip(0) =~= self.entries@);
        }
        while i < self.entries.len()
            invariant
                i <= self.entries@.len(),
                spec_lookup(self.entries@, tag@) == spec_lookup(self.entries@.skip(i as int), tag@),
            decreases self.entries@.len() - i,
        {
            proof {
                assert(self.entries@.skip(i as int)[0] == self.entries@[i as int]);
                assert(self.entries@.skip(i as int).skip(1) =~= self.entries@.skip(i + 1));
            }
            if str_eq(self.entries[i].0.as_str(), tag) {
                return Some(self.entries[i].1.clone());
            }
            i = i + 1;
        }
        None
    }
}

// ---------------------------------------------------------------------------
// Wire messages
// ---------------------------------------------------------------------------

/// The tolerant parse of `{id, topic, time}` only, used for de-duplication
/// and `since` advancement.
#[derive(Clone, Debug)]
pub struct MinMessage {
    pub id: String,
    pub topic: String,
    pub time: u64,
}

/// Whether a line carries the three minimal fields.
pub open spec fn min_message_parses(s: Seq<char>) -> bool {
    &&& json_str_field(s, "id"@) is Some
    &&& json_str_field(s, "topic"@) is Some
    &&& json_u64_field(s, "time"@) is Some
}

/// The minimal fields a parsed `MinMessage` must carry.
pub open spec fn min_message_matches(s: Seq<char>, m: MinMessage) -> bool {
    &&& json_str_field(s, "id"@) == Some(m.id@)
    &&& json_str_field(s, "topic"@) == Some(m.topic@)
    &&& json_u64_field(s, "time"@) == Some(m.time)
}

impl MinMessage {
    /// Extract `{id, topic, time}` from a JSON line, if all three are there.
    pub fn parse(line: &str) -> (r: Option<MinMessage>)
        ensures
            r is Some <==> min_message_parses(line@),
            r matches Some(m) ==> min_message_matches(line@, m),
    {
        let id = get_str_field(line, "id")?;
        let topic = get_str_field(line, "topic")?;
        let time = get_u64_field(line, "time")?;
        Some(MinMessage { id, topic, time })
    }
}

/// An attachment surfaced to the UI; fetching is not the daemon's concern.
#[derive(Clone, Debug)]
pub struct Attachment {
    pub name: String,
    pub url: String,
    pub atype: Option<String>,
    pub size: Option<u64>,
    pub expires: Option<u64>,
}

/// Whether an attachment object carries its required fields.
pub open spec fn attachment_parses(raw: Seq<char>) -> bool {
    json_str_field(raw, "name"@) is Some && json_str_field(raw, "url"@) is Some
}

/// The fields a parsed `Attachment` must carry.
pub open spec fn attachment_matches(raw: Seq<char>, a: Attachment) -> bool {
    &&& json_str_field(raw, "name"@) == Some(a.name@)
    &&& json_str_field(raw, "url"@) == Some(a.url@)
    &&& a.atype.deep_view() == json_str_field(raw, "type"@)
    &&& a.size == json_u64_field(raw, "size"@)
    &&& a.expires == json_u64_field(raw, "expires"@)
}

/// The suffix of `s` after the last occurrence of `c`; `s` itself when `c`
/// does not occur.
pub open spec fn suffix_after_last(s: Seq<char>, c: char) -> Seq<char>
    decreases s.len(),
{
    if s.len() == 0 {
        s
    } else if s.last() == c {
        Seq::<char>::empty()
    } else {
        suffix_after_last(s.drop_last(), c).push(s.last())
    }
}

/// The image extensions recognised for inline preview.
pub open spec fn is_image_ext(e: Seq<char>) -> bool {
    e == "jpeg"@ || e == "jpg"@ || e == "png"@ || e == "webp"@ || e == "gif"@
}

impl Attachment {
    pub fn parse(raw: &str) -> (r: Option<Attachment>)
        ensures
            r is Some <==> attachment_parses(raw@),
            r matches Some(a) ==> attachment_matches(raw@, a),
    {
        let name = get_str_field(raw, "name")?;
        let url = get_str_field(raw, "url")?;
        let atype = get_str_field(raw, "type");
        let size = get_u64_field(raw, "size");
        let expires = get_u64_field(raw, "expires");
        Some(Attachment { name, url, atype, size, expires })
    }

    /// Whether the file name ends in a recognised image extension.
    pub fn is_image(&self) -> (r: bool)
        ensures
            r == is_image_ext(suffix_after_last(self.name@, '.')),
    {
        let s = self.name.as_str();
        let n = s.unicode_len();
        let mut j: usize = n;
        while j > 0
            invariant
                j <= n,
                n == s@.len(),
                s@ == self.name@,
                forall|k: int| j <= k < n ==> s@[k] != '.',
            decreases j,
        {
            if s.get_char(j - 1) as u32 == 46 {
                let ext = s.substring_char(j, n);
                proof {
                    assert(s@[j - 1] as u32 == 46 && '.' as u32 == 46);
                    assert(s@[j - 1] == '.');
                    lemma_suffix_after_last_found(s@, '.', j - 1);
                    assert(suffix_after_last(s@, '.') == s@.skip(j - 1 + 1));
                    assert(s@.skip(j - 1 + 1) =~= s@.skip(j as int));
                    assert(s@ == self.name@);
                    assert(ext@ =~= s@.skip(j as int));
                    assert(ext@ == suffix_after_last(self.name@, '.'));
                }
                return Self::ext_is_image(ext);
            }
            j = j - 1;
        }
        proof {
            lemma_suffix_after_last_absent(s@, '.');
            assert(s@ == suffix_after_last(self.name@, '.'));
        }
        Self::ext_is_image(s)
    }

    fn ext_is_image(ext: &str) -> (r: bool)
        ensures
            r == is_image_ext(ext@),
    {
        str_eq(ext, "jpeg") || str_eq(ext, "jpg") || str_eq(ext, "png") || str_eq(ext, "webp")
            || str_eq(ext, "gif")
    }
}

/// When `c` occurs last at index `k`, the suffix after it is everything
/// past `k`.
proof fn lemma_suffix_after_last_found(s: Seq<char>, c: char, k: int)
    requires
        0 <= k < s.len(),
        s[k] == c,
        forall|i: int| k < i < s.len() ==> s[i] != c,
    ensures
        suffix_after_last(s, c) == s.skip(k + 1),
    decreases s.len(),
{
    if k == s.len() - 1 {
        assert(s.last() == c);
        assert(s.skip(k + 1) =~= Seq::<char>::empty());
    } else {
        assert(s.last() != c);
        lemma_suffix_after_last_found(s.drop_last(), c, k);
        assert(suffix_after_last(s.drop_last(), c) == s.drop_last().skip(k + 1));
        assert(s.drop_last().skip(k + 1).push(s.last()) =~= s.skip(k + 1));
    }
}

/// When `c` does not occur, the suffix after it is the whole sequence.
proof fn lemma_suffix_after_last_absent(s: Seq<char>, c: char)
    requires
        forall|i: int| 0 <= i < s.len() ==> s[i] != c,
    ensures
        suffix_after_last(s, c) == s,
    decreases s.len(),
{
    if s.len() > 0 {
        lemma_suffix_after_last_absent(s.drop_last(), c);
        assert(suffix_after_last(s.drop_last(), c).push(s.last()) =~= s);
    }
}

/// A user-facing action attached to a message.
#[derive(Clone, Debug)]
pub enum Action {
    View { label: String, url: String, clear: bool },
    Http {
        label: String,
        url: String,
        method: String,
        headers: Vec<(String, String)>,
        body: String,
        clear: bool,
    },
    Broadcast {
        label: String,
        intent: Option<String>,
        extras: Vec<(String, String)>,
        clear: bool,
    },
}

/// The mathematical shape of an action: its fields as sequences.
pub ghost enum ActionV {
    View { label: Seq<char>, url: Seq<char>, clear: bool },
    Http {
        label: Seq<char>,
        url: Seq<char>,
        method: Seq<char>,
        headers: Seq<(Seq<char>, Seq<char>)>,
        body: Seq<char>,
        clear: bool,
    },
    Broadcast {
        label: Seq<char>,
        intent: Option<Seq<char>>,
        extras: Seq<(Seq<char>, Seq<char>)>,
        clear: bool,
    },
}

impl View for Action {
    type V = ActionV;

    open spec fn view(&self) -> ActionV {
        match *self {
            Action::View { label, url, clear } => ActionV::View {
                label: label@,
                url: url@,
                clear,
            },
            Action::Http { label, url, method, headers, body, clear } => ActionV::Http {
                label: label@,
                url: url@,
                method: method@,
                headers: headers.deep_view(),
                body: body@,
                clear,
            },
            Action::Broadcast { label, intent, extras, clear } => ActionV::Broadcast {
                label: label@,
                intent: intent.deep_view(),
                extras: extras.deep_view(),
                clear,
            },
        }
    }
}

impl DeepView for Action {
    type V = ActionV;

    open spec fn deep_view(&self) -> ActionV {
        self.view()
    }
}

/// Whether an action object is one of the three variants with its required
/// fields.
pub open spec fn action_parses(raw: Seq<char>) -> bool {
    match json_str_field(raw, "action"@) {
        Some(tag) => {
            if tag == "view"@ || tag == "http"@ {
                json_str_field(raw, "label"@) is Some && json_str_field(raw, "url"@) is Some
            } else if tag == "broadcast"@ {
                json_str_field(raw, "label"@) is Some
            } else {
                false
            }
        },
        None => false,
    }
}

/// The boolean at `key`, defaulting to false.
pub open spec fn bool_field_or_false(raw: Seq<char>, key: Seq<char>) -> bool {
    match json_bool_field(raw, key) {
        Some(b) => b,
        None => false,
    }
}

/// The string map at `key`, defaulting to empty.
pub open spec fn map_field_or_empty(raw: Seq<char>, key: Seq<char>) -> Seq<(Seq<char>, Seq<char>)> {
    match json_str_map_field(raw, key) {
        Some(m) => m,
        None => Seq::<(Seq<char>, Seq<char>)>::empty(),
    }
}

/// The fields a parsed `Action` must carry, with the wire defaults:
/// `method` defaults to POST, `headers`, `extras` and `body` to empty,
/// `clear` to false.
pub open spec fn action_matches(raw: Seq<char>, a: Action) -> bool {
    match a {
        Action::View { label, url, clear } => {
            &&& json_str_field(raw, "action"@) == Some("view"@)
            &&& json_str_field(raw, "label"@) == Some(label@)
            &&& json_str_field(raw, "url"@) == Some(url@)
            &&& clear == bool_field_or_false(raw, "clear"@)
        },
        Action::Http { label, url, method, headers, body, clear } => {
            &&& json_str_field(raw, "action"@) == Some("http"@)
            &&& json_str_field(raw, "label"@) == Some(label@)
            &&& json_str_field(raw, "url"@) == Some(url@)
            &&& method@ == (match json_str_field(raw, "method"@) {
                Some(m) => m,
                None => "POST"@,
            })
            &&& headers.deep_view() == map_field_or_empty(raw, "headers"@)
            &&& body@ == (match json_str_field(raw, "body"@) {
                Some(b) => b,
                None => Seq::<char>::empty(),
            })
            &&& clear == bool_field_or_false(raw, "clear"@)
        },
        Action::Broadcast { label, intent, extras, clear } => {
            &&& json_str_field(raw, "action"@) == Some("broadcast"@)
            &&& json_str_field(raw, "label"@) == Some(label@)
            &&& intent.deep_view() == json_str_field(raw, "intent"@)
            &&& extras.deep_view() == map_field_or_empty(raw, "extras"@)
            &&& clear == bool_field_or_false(raw, "clear"@)
        },
    }
}

impl Action {
    fn clear_field(raw: &str) -> (r: bool)
        ensures
            r == bool_field_or_false(raw@, "clear"@),
    {
        match get_bool_field(raw, "clear") {
            Some(b) => b,
            None => false,
        }
    }

    fn map_field(raw: &str, key: &str) -> (r: Vec<(String, String)>)
        ensures
            r.deep_view() == map_field_or_empty(raw@, key@),
    {
        match get_str_map_field(raw, key) {
            Some(m) => m,
            None => Vec::new(),
        }
    }

    /// Parse one action object.
    pub fn parse(raw: &str) -> (r: Option<Action>)
        ensures
            r is Some <==> action_parses(raw@),
            r matches Some(a) ==> action_matches(raw@, a),
    {
        let tag = get_str_field(raw, "action")?;
        if str_eq(tag.as_str(), "view") {
            let label = get_str_field(raw, "label")?;
            let url = get_str_field(raw, "url")?;
            let clear = Self::clear_field(raw);
            Some(Action::View { label, url, clear })
        } else if str_eq(tag.as_str(), "http") {
            let label = get_str_field(raw, "label")?;
            let url = get_str_field(raw, "url")?;
            let method = match get_str_field(raw, "method") {
                Some(m) => m,
                None => String::from_str("POST"),
            };
            let headers = Self::map_field(raw, "headers");
            let body = match get_str_field(raw, "body") {
                Some(b) => b,
                None => String::new(),
            };
            let clear = Self::clear_field(raw);
            Some(Action::Http { label, url, method, headers, body, clear })
        } else if str_eq(tag.as_str(), "broadcast") {
            let label = get_str_field(raw, "label")?;
            let intent = get_str_field(raw, "intent");
            let extras = Self::map_field(raw, "extras");
            let clear = Self::clear_field(raw);
            Some(Action::Broadcast { label, intent, extras, clear })
        } else {
            None
        }
    }

    /// A field-for-field copy; equal to the original in its view.
    pub fn duplicate(&self) -> (r: Action)
        ensures
            r@ == self@,
    {
        match self {
            Action::View { label, url, clear } => Action::View {
                label: label.clone(),
                url: url.clone(),
                clear: *clear,
            },
            Action::Http { label, url, method, headers, body, clear } => Action::Http {
                label: label.clone(),
                url: url.clone(),
                method: method.clone(),
                headers: clone_pairs(headers),
                body: body.clone(),
                clear: *clear,
            },
            Action::Broadcast { label, intent, extras, clear } => Action::Broadcast {
                label: label.clone(),
                intent: clone_opt_string(intent),
                extras: clone_pairs(extras),
                clear: *clear,
            },
        }
    }
}

/// A field-for-field copy of a pair list.
pub fn clone_pairs(v: &Vec<(String, String)>) -> (r: Vec<(String, String)>)
    ensures
        r@ == v@,
{
    let mut out: Vec<(String, String)> = Vec::new();
    let mut i: usize = 0;
    while i < v.len()
        invariant
            i <= v@.len(),
            out@ =~= v@.take(i as int),
        decreases v@.len() - i,
    {
        out.push((v[i].0.clone(), v[i].1.clone()));
        proof {
            assert(out@ =~= v@.take(i + 1));
        }
        i = i + 1;
    }
    proof {
        assert(v@.take(v@.len() as int) =~= v@);
    }
    out
}

/// A field-for-field copy of an optional string.
pub fn clone_opt_string(o: &Option<String>) -> (r: Option<String>)
    ensures
        r == *o,
{
    match o {
        Some(s) => Some(s.clone()),
        None => None,
    }
}

/// A server-provided message, the fields the core consults.
#[derive(Clone, Debug)]
pub struct Message {
    pub id: String,
    pub topic: String,
    pub message: Option<String>,
    pub time: u64,
    pub title: Option<String>,
    pub tags: Vec<String>,
    pub priority: Option<i8>,
    pub attachment: Option<Attachment>,
    pub icon: Option<String>,
    pub actions: Vec<Action>,
}

/// Whether the priority field, if present, fits the wire type.
pub open spec fn priority_parses(s: Seq<char>) -> bool {
    match json_u64_field(s, "priority"@) {
        Some(v) => v <= 127,
        None => true,
    }
}

/// What the priority field, if present, must parse to.
pub open spec fn priority_field_matches(s: Seq<char>, p: Option<i8>) -> bool {
    match json_u64_field(s, "priority"@) {
        Some(v) => p == Some(v as i8),
        None => p is None,
    }
}

/// Whether the attachment field, if present, is a well-formed object.
pub open spec fn attachment_field_ok(s: Seq<char>) -> bool {
    match json_object_field(s, "attachment"@) {
        Some(raw) => attachment_parses(raw),
        None => true,
    }
}

/// What the attachment field must parse to: absent means none.
pub open spec fn attachment_field_matches(s: Seq<char>, att: Option<Attachment>) -> bool {
    match json_object_field(s, "attachment"@) {
        Some(raw) => att matches Some(a) && attachment_matches(raw, a),
        None => att is None,
    }
}

/// Whether every element of the actions array, if present, is well-formed.
pub open spec fn actions_field_ok(s: Seq<char>) -> bool {
    match json_array_field(s, "actions"@) {
        Some(raws) => forall|i: int| 0 <= i < raws.len() ==> #[trigger] action_parses(raws[i]),
        None => true,
    }
}

/// What the actions field must parse to: absent means empty.
pub open spec fn actions_field_matches(s: Seq<char>, acts: Seq<Action>) -> bool {
    match json_array_field(s, "actions"@) {
        Some(raws) => acts.len() == raws.len() && (forall|i: int|
            0 <= i < raws.len() ==> action_matches(raws[i], #[trigger] acts[i])),
        None => acts.len() == 0,
    }
}

/// What the tags field must parse to: absent means empty.
pub open spec fn tags_field_matches(s: Seq<char>, tags: Seq<Seq<char>>) -> bool {
    tags == (match json_str_array_field(s, "tags"@) {
        Some(t) => t,
        None => Seq::<Seq<char>>::empty(),
    })
}

/// Whether a line parses as a full message: required `id` and `topic`, and
/// well-formed optional sub-objects.
pub open spec fn message_parses(s: Seq<char>) -> bool {
    &&& json_str_field(s, "id"@) is Some
    &&& json_str_field(s, "topic"@) is Some
    &&& priority_parses(s)
    &&& attachment_field_ok(s)
    &&& actions_field_ok(s)
}

/// The fields a parsed `Message` must carry, with the wire defaults:
/// `time` defaults to 0, `tags` and `actions` to empty.
pub open spec fn message_matches(s: Seq<char>, m: Message) -> bool {
    &&& json_str_field(s, "id"@) == Some(m.id@)
    &&& json_str_field(s, "topic"@) == Some(m.topic@)
    &&& m.time == (match json_u64_field(s, "time"@) {
        Some(t) => t,
        None => 0u64,
    })
    &&& m.message.deep_view() == json_str_field(s, "message"@)
    &&& m.title.deep_view() == json_str_field(s, "title"@)
    &&& tags_field_matches(s, m.tags.deep_view())
    &&& priority_field_matches(s, m.priority)
    &&& attachment_field_matches(s, m.attachment)
    &&& m.icon.deep_view() == json_str_field(s, "icon"@)
    &&& actions_field_matches(s, m.actions@)
}

impl Message {
    fn parse_priority(line: &str) -> (r: Option<Option<i8>>)
        ensures
            r is Some <==> priority_parses(line@),
            r matches Some(p) ==> priority_field_matches(line@, p),
    {
        match get_u64_field(line, "priority") {
            Some(v) => {
                if v <= 127 {
                    Some(Some(v as i8))
                } else {
                    None
                }
            },
            None => Some(None),
        }
    }

    fn parse_attachment_field(line: &str) -> (r: Option<Option<Attachment>>)
        ensures
            r is Some <==> attachment_field_ok(line@),
            r matches Some(att) ==> attachment_field_matches(line@, att),
    {
        match get_object_field(line, "attachment") {
            Some(raw) => {
                match Attachment::parse(raw.as_str()) {
                    Some(a) => Some(Some(a)),
                    None => None,
                }
            },
            None => Some(None),
        }
    }

    fn parse_tags(line: &str) -> (r: Vec<String>)
        ensures
            tags_field_matches(line@, r.deep_view()),
    {
        match get_str_array_field(line, "tags") {
            Some(t) => t,
            None => {
                let empty: Vec<String> = Vec::new();
                proof {
                    assert(empty.deep_view() =~= Seq::<Seq<char>>::empty());
                }
                empty
            },
        }
    }

    fn parse_actions(line: &str) -> (r: Option<Vec<Action>>)
        ensures
            r is Some <==> actions_field_ok(line@),
            r matches Some(acts) ==> actions_field_matches(line@, acts@),
    {
        match get_array_field(line, "actions") {
            Some(raws) => {
                let mut acts: Vec<Action> = Vec::new();
                let mut k: usize = 0;
                while k < raws.len()
                    invariant
                        k <= raws@.len(),
                        acts@.len() == k,
                        json_array_field(line@, "actions"@) == Some(raws.deep_view()),
                        raws.deep_view().len() == raws@.len(),
                        forall|i: int|
                            0 <= i < k ==> #[trigger] action_parses(raws.deep_view()[i]),
                        forall|i: int|
                            0 <= i < k ==> action_matches(raws.deep_view()[i], #[trigger] acts@[i]),
                    decreases raws@.len() - k,
                {
                    proof {
                        assert(raws.deep_view()[k as int] == raws@[k as int]@);
                    }
                    match Action::parse(raws[k].as_str()) {
                        Some(a) => acts.push(a),
                        None => {
                            proof {
                                if actions_field_ok(line@) {
                                    let sc = json_array_field(line@, "actions"@);
                                    let raws2 = sc.unwrap();
                                    assert(raws2 == raws.deep_view());
                                    assert(forall|i: int|
                                        0 <= i < raws2.len() ==> #[trigger] action_parses(
                                            raws2[i],
                                        ));
                                    assert(action_parses(raws2[k as int]));
                                    assert(false);
                                }
                            }
                            return None;
                        },
                    }
                    k = k + 1;
                }
                Some(acts)
            },
            None => {
                let empty: Vec<Action> = Vec::new();
                Some(empty)
            },
        }
    }

    /// Parse a full message line, field by field.
    pub fn parse(line: &str) -> (r: Option<Message>)
        ensures
            r is Some <==> message_parses(line@),
            r matches Some(m) ==> message_matches(line@, m),
    {
        let id = get_str_field(line, "id")?;
        let topic = get_str_field(line, "topic")?;
        let time = match get_u64_field(line, "time") {
            Some(t) => t,
            None => 0,
        };
        let message = get_str_field(line, "message");
        let title = get_str_field(line, "title");
        let tags = Self::parse_tags(line);
        let priority = Self::parse_priority(line)?;
        let attachment = Self::parse_attachment_field(line)?;
        let icon = get_str_field(line, "icon");
        let actions = Self::parse_actions(line)?;
        Some(
            Message {
                id,
                topic,
                message,
                time,
                title,
                tags,
                priority,
                attachment,
                icon,
                actions,
            },
        )
    }

    fn extend_with_emojis(&self, emojis: &EmojiMap, text: &mut String)
        ensures
            final(text)@ == old(text)@ + emoji_prefix(emojis.entries@, self.tags@),
    {
        let ghost start = text@;
        let mut i: usize = 0;
        while i < self.tags.len()
            invariant
                i <= self.tags@.len(),
                text@ == start + emoji_prefix(emojis.entries@, self.tags@.take(i as int)),
            decreases self.tags@.len() - i,
        {
            proof {
                assert(self.tags@.take(i + 1).drop_last() =~= self.tags@.take(i as int));
                assert(self.tags@.take(i + 1).last() == self.tags@[i as int]);
            }
            match emojis.lookup(self.tags[i].as_str()) {
                Some(e) => text.append(e.as_str()),
                None => {},
            }
            i = i + 1;
        }
        proof {
            assert(self.tags@.take(self.tags@.len() as int) =~= self.tags@);
        }
    }

    /// The title decorated with the emojis of the tags, when a title is set.
    pub open spec fn spec_display_title(self, entries: Seq<(String, String)>) -> Option<Seq<char>> {
        match self.title {
            Some(t) => {
                let p = emoji_prefix(entries, self.tags@);
                Some(
                    if p.len() > 0 {
                        p + " "@ + t@
                    } else {
                        t@
                    },
                )
            },
            None => None,
        }
    }

    pub fn display_title(&self, emojis: &EmojiMap) -> (r: Option<String>)
        ensures
            r.deep_view() == self.spec_display_title(emojis.entries@),
    {
        match &self.title {
            None => None,
            Some(title) => {
                let mut out = String::new();
                self.extend_with_emojis(emojis, &mut out);
                if out.as_str().unicode_len() > 0 {
                    out.append(" ");
                }
                out.append(title.as_str());
                Some(out)
            },
        }
    }

    /// The body decorated with the emojis only when no title carries them.
    pub open spec fn spec_display_message(self, entries: Seq<(String, String)>) -> Option<
        Seq<char>,
    > {
        match self.message {
            Some(msg) => {
                let p = if self.title is None {
                    emoji_prefix(entries, self.tags@)
                } else {
                    Seq::<char>::empty()
                };
                Some(
                    if p.len() > 0 {
                        p + " "@ + msg@
                    } else {
                        msg@
                    },
                )
            },
            None => None,
        }
    }

    pub fn display_message(&self, emojis: &EmojiMap) -> (r: Option<String>)
        ensures
            r.deep_view() == self.spec_display_message(emojis.entries@),
    {
        match &self.message {
            None => None,
            Some(message) => {
                let mut out = String::new();
                if self.title.is_none() {
                    self.extend_with_emojis(emojis, &mut out);
                }
                if out.as_str().unicode_len() > 0 {
                    out.append(" ");
                }
                out.append(message.as_str());
                Some(out)
            },
        }
    }

    /// The notification title: the decorated message title, else the
    /// subscription's display name when set, else the topic.
    pub open spec fn spec_notification_title(
        self,
        sub: Subscription,
        entries: Seq<(String, String)>,
    ) -> Seq<char> {
        match self.spec_display_title(entries) {
            Some(t) => t,
            None => {
                if sub.display_name@.len() > 0 {
                    sub.display_name@
                } else {
                    self.topic@
                }
            },
        }
    }

    pub fn notification_title(&self, sub: &Subscription, emojis: &EmojiMap) -> (r: String)
        ensures
            r@ == self.spec_notification_title(*sub, emojis.entries@),
    {
        match self.display_title(emojis) {
            Some(t) => t,
            None => {
                if sub.display_name.as_str().unicode_len() > 0 {
                    sub.display_name.clone()
                } else {
                    self.topic.clone()
                }
            },
        }
    }
}

// ---------------------------------------------------------------------------
// Accounts, notifications, status
// ---------------------------------------------------------------------------

/// A credential with the secret redacted.
#[derive(Clone, Debug)]
pub struct Account {
    pub server: String,
    pub username: String,
}

/// What the host notification sink receives.
#[derive(Clone, Debug)]
pub struct Notification {
    pub title: String,
    pub body: String,
    pub actions: Vec<Action>,
}

/// The host's notification surface; the daemon only calls `send`.
pub trait NotificationProxy {
    fn send(&self, n: &Notification) -> Result<(), String>;
}

/// Coarse connection status surfaced to the UI.
#[derive(Debug, PartialEq, Eq, Structural, Copy, Clone)]
pub enum Status {
    Down,
    Degraded,
    Up,
}

impl Default for Status {
    fn default() -> (r: Self)
        ensures
            r == Status::Down,
    {
        Status::Down
    }
}

impl From<u8> for Status {
    fn from(item: u8) -> (r: Status) {
        match item {
            1 => Status::Degraded,
            2 => Status::Up,
            _ => Status::Down,
        }
    }
}

impl vstd::std_specs::convert::FromSpecImpl<u8> for Status {
    open spec fn obeys_from_spec() -> bool {
        true
    }

    open spec fn from_spec(t: u8) -> Status {
        if t == 1 {
            Status::Degraded
        } else if t == 2 {
            Status::Up
        } else {
            Status::Down
        }
    }
}

impl From<Status> for u8 {
    fn from(item: Status) -> (r: u8) {
        match item {
            Status::Down => 0,
            Status::Degraded => 1,
            Status::Up => 2,
        }
    }
}

impl vstd::std_specs::convert::FromSpecImpl<Status> for u8 {
    open spec fn obeys_from_spec() -> bool {
        true
    }

    open spec fn from_spec(t: Status) -> u8 {
        match t {
            Status::Down => 0u8,
            Status::Degraded => 1u8,
            Status::Up => 2u8,
        }
    }
}

} // verus!
