//! RSS feeds tracked by the bot.

use vstd::prelude::*;

use crate::cache::{distinct_keys, has_key, lookup, spec_put, Cache};
use crate::env::{get_var, Config, Variables};
use crate::message::{msg_views, opt_view, sort_by_timestamp, stable_sort_of, Message, MessageView};
use crate::text::{parse_usize, spec_parse_usize};

verus! {

broadcast use vstd::array::group_array_axioms;

// ----- items of an RSS document -----

/// The fields of an RSS item that the bot reads.
pub struct RssItem {
    pub title: Option<String>,
    pub link: Option<String>,
    pub description: Option<String>,
    pub author: Option<String>,
    pub pub_date: Option<String>,
}

/// An RSS item as plain values.
pub struct RssItemView {
    pub title: Option<Seq<char>>,
    pub link: Option<Seq<char>>,
    pub description: Option<Seq<char>>,
    pub author: Option<Seq<char>>,
    pub pub_date: Option<Seq<char>>,
}

impl View for RssItem {
    type V = RssItemView;

    open spec fn view(&self) -> RssItemView {
        RssItemView {
            title: opt_view(self.title),
            link: opt_view(self.link),
            description: opt_view(self.description),
            author: opt_view(self.author),
            pub_date: opt_view(self.pub_date),
        }
    }
}

pub open spec fn item_views(s: Seq<RssItem>) -> Seq<RssItemView> {
    s.map_values(|i: RssItem| i@)
}

/// The items that the `rss` crate reads from a document, or `None` where it
/// refuses the document.
pub uninterp spec fn rss_items(body: Seq<u8>) -> Option<Seq<RssItemView>>;

/// Calls `rss::Channel::read_from` on the bytes of a document and hands back,
/// for each of the channel's items in order, its title, link, description,
/// author and publication date. What the crate accepts and what it reads are
/// named by `rss_items`, not stated.
#[verifier::external_body]
fn read_rss_items(body: &[u8]) -> (r: Option<Vec<RssItem>>)
    ensures
        match r {
            Some(v) => rss_items(body@) == Some(item_views(v@)),
            None => rss_items(body@) is None,
        },
{
    match rss::Channel::read_from(body) {
        Ok(channel) => Some(
            channel.items.into_iter().map(
                |i| RssItem {
                    title: i.title,
                    link: i.link,
                    description: i.description,
                    author: i.author,
                    pub_date: i.pub_date,
                },
            ).collect(),
        ),
        Err(_) => None,
    }
}

/// Seconds since the Unix epoch of an RFC 2822 date, as `chrono` reads it.
pub uninterp spec fn rfc2822_seconds(date: Seq<char>) -> Option<i64>;

/// Calls `chrono::DateTime::parse_from_rfc2822` and, where it succeeds,
/// `DateTime::timestamp`. Which dates parse, and to what, is named, not stated.
#[verifier::external_body]
fn parse_rfc2822_seconds(date: &str) -> (r: Option<i64>)
    ensures
        r == rfc2822_seconds(date@),
{
    match chrono::DateTime::parse_from_rfc2822(date) {
        Ok(d) => Some(d.timestamp()),
        Err(_) => None,
    }
}

/// The text of a capture group of the first match of a regular expression.
pub uninterp spec fn regex_capture(pattern: Seq<char>, text: Seq<char>, group: nat) -> Option<
    Seq<char>,
>;

/// Calls `regex::Regex::new(pattern)`, then `Regex::captures(text)` and
/// `Captures::get(group)`: the text of that group in the leftmost match, or
/// `None` where the pattern does not compile, nothing matches or the group
/// took no part. The matching itself is named, not stated.
#[verifier::external_body]
fn capture_group(pattern: &str, text: &str, group: usize) -> (r: Option<String>)
    ensures
        opt_view(r) == regex_capture(pattern@, text@, group as nat),
{
    match regex::Regex::new(pattern) {
        Ok(re) => match re.captures(text) {
            Some(caps) => match caps.get(group) {
                Some(m) => Some(m.as_str().to_owned()),
                None => None,
            },
            None => None,
        },
        Err(_) => None,
    }
}

/// The Markdown that `html2md` makes of an HTML fragment.
pub uninterp spec fn markdown_of(html: Seq<char>) -> Seq<char>;

/// Calls `html2md::parse_html`. The conversion is named, not stated.
#[verifier::external_body]
fn html_to_markdown(html: &str) -> (r: String)
    ensures
        r@ == markdown_of(html@),
{
    html2md::parse_html(html)
}

/// The MD5 digest of a byte string.
pub uninterp spec fn md5_of(data: Seq<u8>) -> Seq<u8>;

/// Calls `md5::compute` and returns the 16 bytes of the digest. The digest is
/// named, not stated.
#[verifier::external_body]
fn md5_digest(data: &[u8]) -> (r: [u8; 16])
    ensures
        r@ == md5_of(data@),
{
    md5::compute(data).0
}

// ----- from items to messages -----

/// The pattern that finds the author's name inside parentheses.
pub open spec fn author_pattern() -> Seq<char> {
    "\\((.*)\\)"@
}

pub open spec fn default_author() -> Seq<char> {
    "Teacher Trigobot"@
}

pub open spec fn default_title() -> Seq<char> {
    "Trigobot for President"@
}

pub open spec fn default_description() -> Seq<char> {
    "I am inevitable"@
}

/// The author shown for what the author pattern captured.
pub open spec fn spec_author_from(capture: Option<Seq<char>>) -> Seq<char> {
    match capture {
        Some(c) => c,
        None => default_author(),
    }
}

/// The author shown for an item: the text between the parentheses of its
/// author field, or a default.
pub open spec fn spec_author(author: Option<Seq<char>>) -> Seq<char> {
    match author {
        Some(a) => spec_author_from(regex_capture(author_pattern(), a, 1)),
        None => default_author(),
    }
}

pub open spec fn or_default(s: Option<Seq<char>>, d: Seq<char>) -> Seq<char> {
    match s {
        Some(v) => v,
        None => d,
    }
}

/// The message an item gives, once its date is read as `secs` seconds
/// (`None` where it did not parse).
pub open spec fn item_message_at(item: RssItemView, secs: Option<i64>) -> Option<MessageView> {
    match secs {
        None => None,
        Some(ts) => Some(
            MessageView {
                author: spec_author(item.author),
                title: markdown_of(or_default(item.title, default_title())),
                content: markdown_of(or_default(item.description, default_description())),
                link: item.link,
                timestamp: ts as u64,
            },
        ),
    }
}

/// The message an item gives: items without a publication date, or with one
/// that does not parse, give none.
pub open spec fn item_message(item: RssItemView) -> Option<MessageView> {
    match item.pub_date {
        None => None,
        Some(d) => item_message_at(item, rfc2822_seconds(d)),
    }
}

/// The messages that a list of items gives, in item order.
pub open spec fn item_messages(items: Seq<RssItemView>) -> Seq<MessageView>
    decreases items.len(),
{
    if items.len() == 0 {
        seq![]
    } else {
        let prev = item_messages(items.drop_last());
        match item_message(items.last()) {
            Some(m) => prev.push(m),
            None => prev,
        }
    }
}

/// The author shown for what the author pattern captured: the capture, or a
/// default.
pub fn author_or_default(capture: Option<String>) -> (r: String)
    ensures
        r@ == spec_author_from(opt_view(capture)),
{
    match capture {
        Some(c) => c,
        None => String::from_str("Teacher Trigobot"),
    }
}

fn author_name(author: &Option<String>) -> (r: String)
    ensures
        r@ == spec_author(opt_view(*author)),
{
    match author {
        Some(a) => author_or_default(capture_group("\\((.*)\\)", a.as_str(), 1)),
        None => String::from_str("Teacher Trigobot"),
    }
}

fn markdown_or(s: &Option<String>, default: &str) -> (r: String)
    ensures
        r@ == markdown_of(or_default(opt_view(*s), default@)),
{
    match s {
        Some(v) => html_to_markdown(v.as_str()),
        None => html_to_markdown(default),
    }
}

fn clone_opt(s: &Option<String>) -> (r: Option<String>)
    ensures
        opt_view(r) == opt_view(*s),
{
    match s {
        Some(v) => Some(v.clone()),
        None => None,
    }
}

/// The message an item gives once its date is read as `secs`.
pub fn message_for_item(item: &RssItem, secs: Option<i64>) -> (r: Option<Message>)
    ensures
        match r {
            Some(m) => item_message_at(item@, secs) == Some(m@),
            None => item_message_at(item@, secs) is None,
        },
{
    match secs {
        Some(ts) => Some(
            Message::new(
                author_name(&item.author),
                markdown_or(&item.title, "Trigobot for President"),
                markdown_or(&item.description, "I am inevitable"),
                clone_opt(&item.link),
                ts as u64,
            ),
        ),
        None => None,
    }
}

/// Build the messages of a list of items, in item order.
pub fn messages_from_items(items: &Vec<RssItem>) -> (r: Vec<Message>)
    ensures
        msg_views(r@) == item_messages(item_views(items@)),
{
    let ghost iv = item_views(items@);
    let mut r: Vec<Message> = Vec::new();
    let mut i: usize = 0;
    proof {
        assert(iv.subrange(0, 0) =~= Seq::<RssItemView>::empty());
        assert(msg_views(r@) =~= Seq::<MessageView>::empty());
    }
    while i < items.len()
        invariant
            iv == item_views(items@),
            i <= items.len(),
            msg_views(r@) == item_messages(iv.subrange(0, i as int)),
        decreases items.len() - i,
    {
        let item = &items[i];
        proof {
            assert(iv.subrange(0, i + 1).drop_last() =~= iv.subrange(0, i as int));
            assert(iv.subrange(0, i + 1).last() == item@);
        }
        let ghost old_r = msg_views(r@);
        match &item.pub_date {
            Some(d) => match message_for_item(item, parse_rfc2822_seconds(d.as_str())) {
                Some(m) => {
                    r.push(m);
                    proof {
                        assert(msg_views(r@) =~= old_r.push(m@));
                    }
                },
                None => {},
            },
            None => {},
        }
        i = i + 1;
    }
    proof {
        assert(iv.subrange(0, items.len() as int) =~= iv);
    }
    r
}

// ----- feeds -----

/// The cached facts of a published announcement: its message id and the MD5
/// digest of its content.
pub type MessageInfo = (u64, [u8; 16]);

/// Stores all information regarding a feed
///
/// Namely:
/// + its name
/// + its link
/// + its role on the server
/// + its channel on the server
/// + the message to give the role
/// + the last time it was updated
pub struct Feed {
    name: String,
    link: String,
    role: u64,
    cache: Cache<MessageInfo>,
    channel: u64,
    message: u64,
    updated: u64,
}

/// A feed as plain values.
pub struct FeedView {
    pub name: Seq<char>,
    pub link: Seq<char>,
    pub role: u64,
    pub cache: Seq<(Seq<char>, (u64, Seq<u8>))>,
    pub cache_capacity: nat,
    pub channel: u64,
    pub message: u64,
    pub updated: u64,
}

impl View for Feed {
    type V = FeedView;

    closed spec fn view(&self) -> FeedView {
        FeedView {
            name: self.name@,
            link: self.link@,
            role: self.role,
            cache: info_views(self.cache@),
            cache_capacity: self.cache.spec_capacity(),
            channel: self.channel,
            message: self.message,
            updated: self.updated,
        }
    }
}

/// The digest stored for a message content: its MD5 over the UTF-8 bytes.
pub open spec fn content_digest(content: Seq<char>) -> Seq<u8> {
    md5_of(vstd::utf8::encode_utf8(content))
}

/// A cached announcement as plain values.
pub open spec fn info_view(i: MessageInfo) -> (u64, Seq<u8>) {
    (i.0, i.1@)
}

/// The views of cached announcements.
pub open spec fn info_views(s: Seq<(Seq<char>, MessageInfo)>) -> Seq<(Seq<char>, (u64, Seq<u8>))> {
    crate::cache::map_entries(s, |i: MessageInfo| info_view(i))
}

/// The id of an earlier announcement of the same link whose content has since
/// changed, if any.
pub open spec fn spec_check_changed(f: FeedView, m: MessageView) -> Option<u64> {
    match m.link {
        Some(l) => match lookup(f.cache, l) {
            Some(info) => if info.1 != content_digest(m.content) {
                Some(info.0)
            } else {
                None
            },
            None => None,
        },
        None => None,
    }
}

/// The feed after caching that announcement `id` shows message `m`.
pub open spec fn spec_cache(f: FeedView, id: u64, m: MessageView) -> FeedView {
    match m.link {
        Some(l) => FeedView {
            cache: spec_put(f.cache, f.cache_capacity, l, (id, content_digest(m.content))),
            ..f
        },
        None => f,
    }
}

/// `cache` may be called with message `m`: a new key cannot go into a cache
/// of capacity zero.
pub open spec fn can_cache(f: FeedView, m: MessageView) -> bool {
    m.link is Some ==> f.cache_capacity > 0 || has_key(f.cache, m.link->0)
}

/// After caching that announcement `id` shows message `m`, checking a
/// message with the same link reports the announcement as changed exactly
/// when the message's digest differs from `m`'s; checking `m` itself reports
/// no change. Other links keep what they reported, but for the one a full
/// cache evicts.
pub proof fn law_check_after_cache(f: FeedView, id: u64, m: MessageView, m2: MessageView)
    requires
        f.cache.len() <= f.cache_capacity,
        distinct_keys(f.cache),
        can_cache(f, m),
        m.link is Some,
    ensures
        spec_check_changed(spec_cache(f, id, m), m) is None,
        m2.link == m.link ==> spec_check_changed(spec_cache(f, id, m), m2) == if content_digest(
            m2.content,
        ) != content_digest(m.content) {
            Some(id)
        } else {
            None
        },
        m2.link is Some && m2.link != m.link && crate::cache::spec_evicted(
            f.cache,
            f.cache_capacity,
            m.link->0,
        ) != m2.link ==> spec_check_changed(spec_cache(f, id, m), m2) == spec_check_changed(f, m2),
{
    let l = m.link->0;
    let d = content_digest(m.content);
    let cap = f.cache_capacity;
    if cap == 0 {
        assert(has_key(f.cache, l));
        assert(false);
    }
    crate::cache::lemma_put_lookup(f.cache, cap, l, (id, d), l);
    if m2.link is Some {
        crate::cache::lemma_put_lookup(f.cache, cap, l, (id, d), m2.link->0);
    }
}

/// The feed after caching each (announcement id, message) pair of `ops` in
/// turn.
pub open spec fn cache_all(f: FeedView, ops: Seq<(u64, MessageView)>) -> FeedView
    decreases ops.len(),
{
    if ops.len() == 0 {
        f
    } else {
        cache_all(spec_cache(f, ops[0].0, ops[0].1), ops.drop_first())
    }
}

/// Caching messages of other links keeps what a link that is still cached at
/// the end was stored with.
proof fn lemma_cache_all_keeps(f: FeedView, ops: Seq<(u64, MessageView)>, l: Seq<char>)
    requires
        f.cache.len() <= f.cache_capacity,
        distinct_keys(f.cache),
        f.cache_capacity > 0,
        forall|i: int| 0 <= i < ops.len() ==> (#[trigger] ops[i]).1.link != Some(l),
        has_key(cache_all(f, ops).cache, l),
    ensures
        lookup(cache_all(f, ops).cache, l) == lookup(f.cache, l),
        cache_all(f, ops).cache_capacity == f.cache_capacity,
    decreases ops.len(),
{
    if ops.len() > 0 {
        let (id, m) = ops[0];
        let f1 = spec_cache(f, id, m);
        let rest = ops.drop_first();
        assert forall|i: int| 0 <= i < rest.len() implies (#[trigger] rest[i]).1.link != Some(l) by {
            assert(rest[i] == ops[i + 1]);
        }
        assert(ops[0].1.link != Some(l));
        if m.link is Some {
            let k = m.link->0;
            let v = (id, content_digest(m.content));
            crate::cache::lemma_put_lookup(f.cache, f.cache_capacity, k, v, l);
        }
        lemma_cache_all_keeps(f1, rest, l);
    }
}

/// A message whose link is absent, or not cached, is never reported as
/// changed.
pub proof fn law_check_unknown_link(f: FeedView, x: MessageView)
    requires
        x.link is None || !has_key(f.cache, x.link->0),
    ensures
        spec_check_changed(f, x) is None,
{
}

/// After caching that announcement `id` shows message `m`, and then caching
/// any messages of other links, a message with `m`'s link is reported as
/// changed to announcement `id` exactly when its digest differs from `m`'s,
/// for as long as the link is still cached.
pub proof fn law_check_after_caches(
    f: FeedView,
    id: u64,
    m: MessageView,
    ops: Seq<(u64, MessageView)>,
    m2: MessageView,
)
    requires
        f.cache.len() <= f.cache_capacity,
        distinct_keys(f.cache),
        can_cache(f, m),
        m.link is Some,
        forall|i: int| 0 <= i < ops.len() ==> (#[trigger] ops[i]).1.link != m.link,
        has_key(cache_all(spec_cache(f, id, m), ops).cache, m.link->0),
        m2.link == m.link,
    ensures
        spec_check_changed(cache_all(spec_cache(f, id, m), ops), m2) == if content_digest(m2.content)
            != content_digest(m.content) {
            Some(id)
        } else {
            None
        },
{
    let l = m.link->0;
    let d = content_digest(m.content);
    let cap = f.cache_capacity;
    if cap == 0 {
        assert(has_key(f.cache, l));
        assert(false);
    }
    crate::cache::lemma_put_lookup(f.cache, cap, l, (id, d), l);
    let f1 = spec_cache(f, id, m);
    lemma_cache_all_keeps(f1, ops, l);
}

/// The announcement id of a cached entry whose digest differs from `digest`.
pub fn changed_id(info: &MessageInfo, digest: &[u8; 16]) -> (r: Option<u64>)
    ensures
        r == if info.1@ != digest@ {
            Some(info.0)
        } else {
            None::<u64>
        },
{
    if !same_digest(digest, &info.1) {
        Some(info.0)
    } else {
        None
    }
}

fn same_digest(a: &[u8; 16], b: &[u8; 16]) -> (r: bool)
    ensures
        r == (a@ == b@),
{
    let mut i: usize = 0;
    while i < 16
        invariant
            i <= 16,
            forall|j: int| 0 <= j < i ==> a@[j] == b@[j],
        decreases 16 - i,
    {
        if a[i] != b[i] {
            return false;
        }
        i = i + 1;
    }
    assert(a@ =~= b@);
    true
}

impl Feed {
    /// The feed is well formed: its cache is.
    pub open spec fn wf(&self) -> bool {
        self@.cache.len() <= self@.cache_capacity && distinct_keys(self@.cache)
    }

    /// Creates a new feed to track
    ///
    /// Channel and Role need to be created *a priori*
    ///
    /// Link needs to be checked *a priori*
    ///
    /// The cache holds as many entries as the configured `CACHE_ENTRIES`.
    pub fn new(
        config: &Config,
        name: String,
        link: String,
        role: u64,
        channel: u64,
        message: u64,
        updated: Option<u64>,
    ) -> (f: Feed)
        requires
            config.wf(),
            config@.contains_key(Variables::CacheEntries),
            spec_parse_usize(config@[Variables::CacheEntries]) is Some,
        ensures
            f.wf(),
            f@ == (FeedView {
                name: name@,
                link: link@,
                role,
                cache: Seq::empty(),
                cache_capacity: spec_parse_usize(config@[Variables::CacheEntries])->0 as nat,
                channel,
                message,
                updated: match updated {
                    Some(u) => u,
                    None => 0,
                },
            }),
    {
        let entries = get_var(config, Variables::CacheEntries);
        let capacity = match parse_usize(entries.as_str()) {
            Some(c) => c,
            None => 0,
        };
        let f = Feed {
            name,
            link,
            role,
            cache: Cache::new(capacity),
            channel,
            updated: if let Some(val) = updated {
                val
            } else {
                0
            },
            message,
        };
        proof {
            assert(info_views(f.cache@) =~= Seq::empty());
        }
        f
    }

    /// The parts of a feed: name, link, role, cached announcements (the most
    /// recent first), cache capacity, channel, reaction-role message and last
    /// update.
    pub fn to_parts(&self) -> (r: (String, String, u64, Vec<(String, MessageInfo)>, usize, u64, u64, u64))
        ensures
            r.0@ == self@.name,
            r.1@ == self@.link,
            r.2 == self@.role,
            info_views(r.3@.map_values(|e: (String, MessageInfo)| (e.0@, e.1))) == self@.cache,
            r.4 == self@.cache_capacity,
            r.5 == self@.channel,
            r.6 == self@.message,
            r.7 == self@.updated,
    {
        let entries = self.cache.to_parts();
        (
            self.name.clone(),
            self.link.clone(),
            self.role,
            entries,
            self.cache.capacity(),
            self.channel,
            self.message,
            self.updated,
        )
    }

    /// A feed from its parts; `None` where the cached announcements repeat a
    /// link or outnumber the capacity.
    pub fn from_parts(
        name: String,
        link: String,
        role: u64,
        cached: Vec<(String, MessageInfo)>,
        capacity: usize,
        channel: u64,
        message: u64,
        updated: u64,
    ) -> (r: Option<Feed>)
        ensures
            match r {
                Some(f) => f.wf() && f@ == (FeedView {
                    name: name@,
                    link: link@,
                    role,
                    cache: info_views(cached@.map_values(|e: (String, MessageInfo)| (e.0@, e.1))),
                    cache_capacity: capacity as nat,
                    channel,
                    message,
                    updated,
                }),
                None => !(distinct_keys(cached@.map_values(|e: (String, MessageInfo)| (e.0@, e.1)))
                    && cached@.len() <= capacity),
            },
    {
        match Cache::from_parts(cached, capacity) {
            Some(cache) => {
                let f = Feed { name, link, role, cache, channel, message, updated };
                proof {
                    crate::cache::lemma_map_entries_lookup(cache@, |i: MessageInfo| info_view(i), seq![]);
                }
                Some(f)
            },
            None => None,
        }
    }

    /// Check if the body fetched from a link is RSS (supported by crate `rss`);
    /// `None` stands for a link that could not be fetched.
    pub fn test_link(body: Option<&[u8]>) -> (r: bool)
        ensures
            r == match body {
                Some(b) => rss_items(b@) is Some,
                None => false,
            },
    {
        match body {
            Some(b) => match read_rss_items(b) {
                Some(_) => true,
                None => false,
            },
            None => false,
        }
    }

    pub fn get_name(&self) -> (r: String)
        ensures
            r@ == self@.name,
    {
        self.name.clone()
    }

    pub fn set_name(&mut self, name: String)
        ensures
            final(self)@ == (FeedView { name: name@, ..old(self)@ }),
    {
        self.name = name;
    }

    pub fn get_role(&self) -> (r: u64)
        ensures
            r == self@.role,
    {
        self.role
    }

    pub fn get_channel(&self) -> (r: u64)
        ensures
            r == self@.channel,
    {
        self.channel
    }

    pub fn get_message(&self) -> (r: u64)
        ensures
            r == self@.message,
    {
        self.message
    }

    pub fn set_message(&mut self, id: u64)
        ensures
            final(self)@ == (FeedView { message: id, ..old(self)@ }),
    {
        self.message = id;
    }

    pub fn get_link(&self) -> (r: String)
        ensures
            r@ == self@.link,
    {
        self.link.clone()
    }

    pub fn set_link(&mut self, link: String)
        ensures
            final(self)@ == (FeedView { link: link@, ..old(self)@ }),
    {
        self.link = link;
    }

    pub fn get_update(&self) -> (r: u64)
        ensures
            r == self@.updated,
    {
        self.updated
    }

    pub fn set_update(&mut self, update: u64)
        ensures
            final(self)@ == (FeedView { updated: update, ..old(self)@ }),
    {
        self.updated = update;
    }

    /// The feed's cache is well formed.
    pub fn cache_is_ok(&self) -> (r: bool)
        ensures
            r == self.wf(),
    {
        proof {
            crate::cache::lemma_map_entries_lookup(self.cache@, |i: MessageInfo| info_view(i), seq![]);
        }
        self.cache.check_wf()
    }

    /// The number of announcements whose digests the feed keeps.
    pub fn cache_capacity(&self) -> (r: usize)
        ensures
            r == self@.cache_capacity,
    {
        self.cache.capacity()
    }

    /// Remember that announcement `id` shows `message`, by the message's link.
    pub fn cache(&mut self, id: u64, message: Message)
        requires
            old(self).wf(),
            can_cache(old(self)@, message@),
        ensures
            final(self).wf(),
            final(self)@ == spec_cache(old(self)@, id, message@),
    {
        let ghost m = message@;
        if let Some(link) = message.link {
            let digest = md5_digest(message.content.as_str().as_bytes());
            let ghost before = self.cache@;
            let ghost cap = self.cache.spec_capacity();
            proof {
                crate::cache::lemma_map_entries_put(before, |i: MessageInfo| info_view(i), cap, link@, (id, digest));
                crate::cache::lemma_map_entries_lookup(before, |i: MessageInfo| info_view(i), link@);
                assert(info_view((id, digest)) == (id, content_digest(m.content)));
            }
            self.cache.put(link, (id, digest));
        }
    }

    /// The id of the earlier announcement of this message's link, if its
    /// content has changed since.
    pub fn check_changed(&self, message: &Message) -> (r: Option<u64>)
        requires
            self.wf(),
        ensures
            r == spec_check_changed(self@, message@),
    {
        if let Some(link) = &message.link {
            proof {
                crate::cache::lemma_map_entries_lookup(self.cache@, |i: MessageInfo| info_view(i), link@);
            }
            if let Some(old_msg) = self.cache.get(link) {
                let digest = md5_digest(message.content.as_str().as_bytes());
                changed_id(old_msg, &digest)
            } else {
                None
            }
        } else {
            None
        }
    }

    /// Read the messages of the document fetched from the feed's link, oldest
    /// first, and move the feed's last update to the newest of them.
    ///
    /// A document that the `rss` crate refuses gives no message and leaves the
    /// feed as it was.
    pub fn update(&mut self, body: &[u8]) -> (r: Vec<Message>)
        ensures
            match rss_items(body@) {
                None => r@.len() == 0 && final(self)@ == old(self)@,
                Some(items) => {
                    &&& stable_sort_of(msg_views(r@), item_messages(items))
                    &&& final(self)@ == (FeedView {
                        updated: if r@.len() > 0 {
                            r@.last().timestamp
                        } else {
                            old(self)@.updated
                        },
                        ..old(self)@
                    })
                },
            },
    {
        let items = match read_rss_items(body) {
            Some(items) => items,
            None => {
                return Vec::new();
            },
        };
        let messages = messages_from_items(&items);
        let result = sort_by_timestamp(messages);
        if result.len() > 0 {
            self.updated = result[result.len() - 1].timestamp;
        }
        result
    }
}

} // verus!
