//! The bot's persistent state: tracked feeds, the category for new channels
//! and the reaction-role messages.

use std::collections::HashMap;

use vstd::prelude::*;

use crate::cache::{
    distinct_keys, entries_map, has_key, key_position, lemma_entries_map_ext, lemma_lookup_at,
    lemma_lookup_map, lemma_lookup_push, lemma_lookup_remove, lemma_lookup_update, lookup,
};
use crate::feed::{Feed, FeedView};

verus! {

broadcast use vstd::std_specs::hash::group_hash_axioms;

/// A feed's cache is well formed.
pub open spec fn feed_ok(f: FeedView) -> bool {
    f.cache.len() <= f.cache_capacity && distinct_keys(f.cache)
}

/// The state as plain values.
pub struct StateView {
    /// Tracked feeds by name.
    pub feeds: Map<Seq<char>, FeedView>,
    /// Category in which new feed channels are created.
    pub category: Option<u64>,
    /// Reaction-role messages: message id to role id.
    pub messages: Map<u64, u64>,
}

/// The views of a list of named feeds.
pub open spec fn feed_entries(v: Seq<(String, Feed)>) -> Seq<(Seq<char>, FeedView)> {
    v.map_values(|p: (String, Feed)| (p.0@, p.1@))
}

/// The state after tracking `f` under `name` and recording its
/// reaction-role message.
pub open spec fn spec_register(s: StateView, name: Seq<char>, f: FeedView) -> StateView {
    StateView {
        feeds: s.feeds.insert(name, f),
        messages: s.messages.insert(f.message, f.role),
        ..s
    }
}

/// The state after tracking feed `f`, taken out of it, under `new_name` with
/// reaction-role message `new_msg`.
pub open spec fn spec_move(s: StateView, f: FeedView, new_name: Seq<char>, new_msg: u64) -> StateView {
    StateView {
        feeds: s.feeds.insert(new_name, FeedView { name: new_name, message: new_msg, ..f }),
        messages: s.messages.remove(f.message).insert(new_msg, f.role),
        ..s
    }
}

/// `m` without the keys in `keys`, removed in order.
pub open spec fn remove_all(m: Map<u64, u64>, keys: Seq<u64>) -> Map<u64, u64>
    decreases keys.len(),
{
    if keys.len() == 0 {
        m
    } else {
        remove_all(m, keys.drop_last()).remove(keys.last())
    }
}

/// `m` with the pairs of `pairs` inserted in order.
pub open spec fn insert_all(m: Map<u64, u64>, pairs: Seq<(u64, u64)>) -> Map<u64, u64>
    decreases pairs.len(),
{
    if pairs.len() == 0 {
        m
    } else {
        insert_all(m, pairs.drop_last()).insert(pairs.last().0, pairs.last().1)
    }
}

// ----- what the commands keep -----

/// Each tracked feed's reaction-role message gives that feed's role.
pub open spec fn consistent(s: StateView) -> bool {
    forall|k: Seq<char>|
        #[trigger] s.feeds.contains_key(k) ==> s.messages.contains_key(s.feeds[k].message)
            && s.messages[s.feeds[k].message] == s.feeds[k].role
}

/// No two tracked feeds share a reaction-role message.
pub open spec fn distinct_messages(s: StateView) -> bool {
    forall|a: Seq<char>, b: Seq<char>|
        #[trigger] s.feeds.contains_key(a) && #[trigger] s.feeds.contains_key(b) && a != b
            ==> s.feeds[a].message != s.feeds[b].message
}

/// Every feed is tracked under its own name.
pub open spec fn named_by_key(s: StateView) -> bool {
    forall|k: Seq<char>| #[trigger] s.feeds.contains_key(k) ==> s.feeds[k].name == k
}

/// The state's feeds and reaction-role messages agree.
pub open spec fn coherent(s: StateView) -> bool {
    &&& consistent(s)
    &&& distinct_messages(s)
    &&& named_by_key(s)
}

/// Adding a feed: record it (and its message), then forget the message of
/// the feed it replaces.
pub open spec fn spec_add(s: StateView, name: Seq<char>, f: FeedView) -> StateView {
    let r = spec_register(s, name, f);
    if s.feeds.contains_key(name) {
        StateView { messages: r.messages.remove(s.feeds[name].message), ..r }
    } else {
        r
    }
}

/// Removing a feed: stop tracking it and forget its message.
pub open spec fn spec_rm(s: StateView, name: Seq<char>) -> StateView {
    StateView {
        feeds: s.feeds.remove(name),
        messages: s.messages.remove(s.feeds[name].message),
        ..s
    }
}

/// Renaming a feed: take it out, then track it under the new name with a new message.
pub open spec fn spec_mv(s: StateView, old_name: Seq<char>, new_name: Seq<char>, new_msg: u64) -> StateView {
    spec_move(StateView { feeds: s.feeds.remove(old_name), ..s }, s.feeds[old_name], new_name, new_msg)
}

/// An empty state is coherent.
pub proof fn law_empty_coherent(s: StateView)
    requires
        s.feeds == Map::<Seq<char>, FeedView>::empty(),
    ensures
        coherent(s),
{
}

/// Adding a feed named after itself, whose reaction-role message is new,
/// keeps the state coherent, and the feed is then tracked under its name
/// with its message giving its role.
pub proof fn law_add_keeps_coherent(s: StateView, name: Seq<char>, f: FeedView)
    requires
        coherent(s),
        f.name == name,
        !s.messages.contains_key(f.message),
    ensures
        coherent(spec_add(s, name, f)),
        spec_add(s, name, f).feeds.contains_key(name),
        spec_add(s, name, f).feeds[name] == f,
        spec_add(s, name, f).messages[f.message] == f.role,
{
    let t = spec_add(s, name, f);
    assert forall|k: Seq<char>| #[trigger] t.feeds.contains_key(k) implies t.messages.contains_key(
        t.feeds[k].message,
    ) && t.messages[t.feeds[k].message] == t.feeds[k].role by {
        if k != name {
            assert(s.feeds.contains_key(k));
            if s.feeds.contains_key(name) {
                assert(s.feeds[k].message != s.feeds[name].message);
            }
        } else if s.feeds.contains_key(name) {
            assert(s.messages.contains_key(s.feeds[name].message));
        }
    }
    assert forall|a: Seq<char>, b: Seq<char>|
        #[trigger] t.feeds.contains_key(a) && #[trigger] t.feeds.contains_key(b) && a != b implies t.feeds[a].message
        != t.feeds[b].message by {
        if a == name {
            assert(s.messages.contains_key(s.feeds[b].message));
        } else if b == name {
            assert(s.messages.contains_key(s.feeds[a].message));
        }
    }
}

/// Removing a tracked feed keeps the state coherent, and it is no longer tracked.
pub proof fn law_rm_keeps_coherent(s: StateView, name: Seq<char>)
    requires
        coherent(s),
        s.feeds.contains_key(name),
    ensures
        coherent(spec_rm(s, name)),
        !spec_rm(s, name).feeds.contains_key(name),
{
    let t = spec_rm(s, name);
    assert forall|k: Seq<char>| #[trigger] t.feeds.contains_key(k) implies t.messages.contains_key(
        t.feeds[k].message,
    ) && t.messages[t.feeds[k].message] == t.feeds[k].role by {
        assert(s.feeds.contains_key(k) && k != name);
        assert(s.feeds[k].message != s.feeds[name].message);
    }
}

/// Renaming a tracked feed, with a reaction-role message that is new, keeps
/// the state coherent; the feed is then tracked under the new name with the
/// same link, role, channel and cache, and no longer under the old one.
pub proof fn law_mv_keeps_coherent(
    s: StateView,
    old_name: Seq<char>,
    new_name: Seq<char>,
    new_msg: u64,
)
    requires
        coherent(s),
        s.feeds.contains_key(old_name),
        !s.messages.contains_key(new_msg),
    ensures
        coherent(spec_mv(s, old_name, new_name, new_msg)),
        spec_mv(s, old_name, new_name, new_msg).feeds.contains_key(new_name),
        spec_mv(s, old_name, new_name, new_msg).feeds[new_name] == (FeedView {
            name: new_name,
            message: new_msg,
            ..s.feeds[old_name]
        }),
        old_name != new_name ==> !spec_mv(s, old_name, new_name, new_msg).feeds.contains_key(old_name),
{
    let f = s.feeds[old_name];
    let t = spec_mv(s, old_name, new_name, new_msg);
    assert(s.messages.contains_key(f.message));
    assert forall|k: Seq<char>| #[trigger] t.feeds.contains_key(k) implies t.messages.contains_key(
        t.feeds[k].message,
    ) && t.messages[t.feeds[k].message] == t.feeds[k].role by {
        if k != new_name {
            assert(s.feeds.contains_key(k) && k != old_name);
            assert(s.feeds[k].message != f.message);
            assert(s.messages.contains_key(s.feeds[k].message));
        }
    }
    assert forall|a: Seq<char>, b: Seq<char>|
        #[trigger] t.feeds.contains_key(a) && #[trigger] t.feeds.contains_key(b) && a != b implies t.feeds[a].message
        != t.feeds[b].message by {
        if a == new_name {
            assert(s.messages.contains_key(s.feeds[b].message));
        } else if b == new_name {
            assert(s.messages.contains_key(s.feeds[a].message));
        }
    }
}

/// The views of a list of names with roles.
pub open spec fn name_roles(v: Seq<(String, u64)>) -> Seq<(Seq<char>, u64)> {
    v.map_values(|p: (String, u64)| (p.0@, p.1))
}

/// Mapping the values of a list of entries maps the values of its map.
proof fn lemma_map_values_entries(e: Seq<(Seq<char>, FeedView)>)
    requires
        distinct_keys(e),
    ensures
        distinct_keys(e.map_values(|p: (Seq<char>, FeedView)| (p.0, p.1.role))),
        entries_map(e.map_values(|p: (Seq<char>, FeedView)| (p.0, p.1.role))) == entries_map(
            e,
        ).map_values(|f: FeedView| f.role),
{
    let g = e.map_values(|p: (Seq<char>, FeedView)| (p.0, p.1.role));
    assert forall|a: int, b: int|
        0 <= a < g.len() && 0 <= b < g.len() && a != b implies (#[trigger] g[a]).0 != (
    #[trigger] g[b]).0 by {
        assert(g[a].0 == e[a].0);
        assert(g[b].0 == e[b].0);
    }
    let m = entries_map(e).map_values(|f: FeedView| f.role);
    assert forall|q: Seq<char>| #[trigger] lookup(g, q) == if m.contains_key(q) {
        Some(m[q])
    } else {
        None::<u64>
    } by {
        lemma_lookup_map(e, q);
        if has_key(g, q) {
            let i = choose|i: int| 0 <= i < g.len() && (#[trigger] g[i]).0 == q;
            lemma_lookup_at(g, i);
            assert(e[i].0 == q);
            lemma_lookup_at(e, i);
        } else {
            if has_key(e, q) {
                let i = choose|i: int| 0 <= i < e.len() && (#[trigger] e[i]).0 == q;
                assert(g[i].0 == q);
            }
        }
    }
    lemma_entries_map_ext(g, m);
}

pub struct State {
    feeds: Vec<(String, Feed)>,
    category: Option<u64>,
    messages: HashMap<u64, u64>,
}

impl View for State {
    type V = StateView;

    closed spec fn view(&self) -> StateView {
        StateView {
            feeds: entries_map(feed_entries(self.feeds@)),
            category: self.category,
            messages: self.messages@,
        }
    }
}

impl State {
    /// Feeds are stored once per name, each with a well-formed cache.
    pub closed spec fn wf(&self) -> bool {
        &&& distinct_keys(feed_entries(self.feeds@))
        &&& forall|i: int| 0 <= i < self.feeds@.len() ==> feed_ok((#[trigger] self.feeds@[i]).1@)
    }

    /// Every tracked feed is well formed.
    pub proof fn lemma_wf_feeds(&self)
        requires
            self.wf(),
        ensures
            forall|k: Seq<char>| #[trigger] self@.feeds.contains_key(k) ==> feed_ok(self@.feeds[k]),
    {
        let e = feed_entries(self.feeds@);
        assert forall|k: Seq<char>| #[trigger] self@.feeds.contains_key(k) implies feed_ok(
            self@.feeds[k],
        ) by {
            let i = choose|i: int| 0 <= i < e.len() && (#[trigger] e[i]).0 == k;
            lemma_lookup_at(e, i);
            assert(e[i].1 == self.feeds@[i].1@);
        }
    }

    /// Create an empty state
    pub fn new() -> (s: State)
        ensures
            s.wf(),
            s@.feeds == Map::<Seq<char>, FeedView>::empty(),
            s@.category is None,
            s@.messages == Map::<u64, u64>::empty(),
    {
        let s = State { feeds: Vec::new(), category: None, messages: HashMap::new() };
        proof {
            assert(feed_entries(s.feeds@) =~= Seq::empty());
            lemma_entries_map_ext(feed_entries(s.feeds@), Map::empty());
        }
        s
    }

    /// Rebuild a state from its parts; `None` where a feed name occurs twice
    /// or a feed's cache is not well formed.
    pub fn from_parts(
        feeds: Vec<(String, Feed)>,
        category: Option<u64>,
        messages: HashMap<u64, u64>,
    ) -> (r: Option<State>)
        ensures
            match r {
                Some(s) => s.wf() && s@ == (StateView {
                    feeds: entries_map(feed_entries(feeds@)),
                    category,
                    messages: messages@,
                }),
                None => !(distinct_keys(feed_entries(feeds@)) && forall|i: int|
                    0 <= i < feeds@.len() ==> feed_ok((#[trigger] feeds@[i]).1@)),
            },
    {
        let mut i: usize = 0;
        while i < feeds.len()
            invariant
                i <= feeds.len(),
                forall|j: int| 0 <= j < i ==> feed_ok((#[trigger] feeds@[j]).1@),
                forall|a: int, b: int|
                    0 <= a < i && 0 <= b < feeds@.len() && a != b ==> (#[trigger] feeds@[a]).0@
                        != (#[trigger] feeds@[b]).0@,
            decreases feeds.len() - i,
        {
            if !feeds[i].1.cache_is_ok() {
                return None;
            }
            let mut j: usize = 0;
            while j < feeds.len()
                invariant
                    i < feeds.len(),
                    j <= feeds.len(),
                    forall|b: int| 0 <= b < j && b != i ==> feeds@[i as int].0@ != (#[trigger] feeds@[b]).0@,
                decreases feeds.len() - j,
            {
                if j != i && feeds[i].0 == feeds[j].0 {
                    proof {
                        let e = feed_entries(feeds@);
                        assert(e[i as int].0 == e[j as int].0);
                    }
                    return None;
                }
                j = j + 1;
            }
            proof {
                assert forall|a: int, b: int|
                    0 <= a < i + 1 && 0 <= b < feeds@.len() && a != b implies (#[trigger] feeds@[a]).0@
                    != (#[trigger] feeds@[b]).0@ by {
                    if a == i {
                    } else if b == i {
                        assert(feeds@[b].0@ != feeds@[a].0@);
                    }
                }
            }
            i = i + 1;
        }
        proof {
            let e = feed_entries(feeds@);
            assert forall|a: int, b: int|
                0 <= a < e.len() && 0 <= b < e.len() && a != b implies (#[trigger] e[a]).0 != (
            #[trigger] e[b]).0 by {
                assert(e[a].0 == feeds@[a].0@);
                assert(e[b].0 == feeds@[b].0@);
            }
        }
        Some(State { feeds, category, messages })
    }

    pub fn category(&self) -> (r: Option<u64>)
        ensures
            r == self@.category,
    {
        self.category
    }

    pub fn set_category(&mut self, category: u64)
        requires
            old(self).wf(),
        ensures
            final(self).wf(),
            final(self)@ == (StateView { category: Some(category), ..old(self)@ }),
    {
        self.category = Some(category);
    }

    pub fn get_messages(&self) -> (r: &HashMap<u64, u64>)
        ensures
            r@ == self@.messages,
    {
        &self.messages
    }

    /// The role that reacting to message `msg` gives, if it is a
    /// reaction-role message.
    pub fn role_for_message(&self, msg: u64) -> (r: Option<u64>)
        ensures
            r == if self@.messages.contains_key(msg) {
                Some(self@.messages[msg])
            } else {
                None::<u64>
            },
    {
        match self.messages.get(&msg) {
            Some(role) => Some(*role),
            None => None,
        }
    }

    /// Record that reacting to message `msg` gives role `role`.
    pub fn insert_message(&mut self, msg: u64, role: u64)
        requires
            old(self).wf(),
        ensures
            final(self).wf(),
            final(self)@ == (StateView {
                messages: old(self)@.messages.insert(msg, role),
                ..old(self)@
            }),
    {
        self.messages.insert(msg, role);
    }

    /// Forget reaction-role message `msg`.
    pub fn remove_message(&mut self, msg: u64)
        requires
            old(self).wf(),
        ensures
            final(self).wf(),
            final(self)@ == (StateView { messages: old(self)@.messages.remove(msg), ..old(self)@ }),
    {
        self.messages.remove(&msg);
    }

    /// Position of the feed named `name`.
    fn position(&self, name: &String) -> (r: Option<usize>)
        requires
            self.wf(),
        ensures
            match r {
                Some(p) => p < self.feeds@.len() && self.feeds@[p as int].0@ == name@ && has_key(
                    feed_entries(self.feeds@),
                    name@,
                ) && key_position(feed_entries(self.feeds@), name@) == p,
                None => !has_key(feed_entries(self.feeds@), name@),
            },
    {
        let ghost e = feed_entries(self.feeds@);
        let mut i: usize = 0;
        while i < self.feeds.len()
            invariant
                e == feed_entries(self.feeds@),
                i <= self.feeds.len(),
                forall|j: int| 0 <= j < i ==> (#[trigger] e[j]).0 != name@,
            decreases self.feeds.len() - i,
        {
            proof {
                assert(e[i as int].0 == self.feeds@[i as int].0@);
            }
            if self.feeds[i].0 == *name {
                proof {
                    crate::cache::lemma_key_position(e, name@, i as int);
                }
                return Some(i);
            }
            i = i + 1;
        }
        None
    }

    pub fn contains_feed(&self, name: &String) -> (r: bool)
        requires
            self.wf(),
        ensures
            r == self@.feeds.contains_key(name@),
    {
        self.position(name).is_some()
    }

    pub fn get_feed(&self, name: &String) -> (r: Option<&Feed>)
        requires
            self.wf(),
        ensures
            match r {
                Some(f) => self@.feeds.contains_key(name@) && f@ == self@.feeds[name@],
                None => !self@.feeds.contains_key(name@),
            },
    {
        match self.position(name) {
            Some(p) => {
                proof {
                    let e = feed_entries(self.feeds@);
                    assert(e[p as int].1 == self.feeds@[p as int].1@);
                }
                Some(&self.feeds[p].1)
            },
            None => None,
        }
    }

    /// The tracked feeds, each with the name it is tracked under.
    pub fn get_feeds(&self) -> (r: &Vec<(String, Feed)>)
        requires
            self.wf(),
        ensures
            distinct_keys(feed_entries(r@)),
            entries_map(feed_entries(r@)) == self@.feeds,
    {
        &self.feeds
    }

    /// Track `feed` under `name`, replacing and returning the feed tracked
    /// under that name before, if any.
    pub fn insert_feed(&mut self, name: String, feed: Feed) -> (r: Option<Feed>)
        requires
            old(self).wf(),
            feed.wf(),
        ensures
            final(self).wf(),
            final(self)@ == (StateView {
                feeds: old(self)@.feeds.insert(name@, feed@),
                ..old(self)@
            }),
            match r {
                Some(o) => old(self)@.feeds.contains_key(name@) && o@ == old(self)@.feeds[name@],
                None => !old(self)@.feeds.contains_key(name@),
            },
    {
        let ghost old_e = feed_entries(self.feeds@);
        let ghost k = name@;
        let ghost fv = feed@;
        let ghost m = old(self)@.feeds;
        match self.position(&name) {
            Some(p) => {
                let mut pair = (name, feed);
                std::mem::swap(&mut self.feeds[p], &mut pair);
                proof {
                    assert(feed_entries(self.feeds@) =~= old_e.update(p as int, (old_e[p as int].0, fv)));
                    assert(old_e[p as int].1 == pair.1@);
                    assert forall|q: Seq<char>| #[trigger] lookup(feed_entries(self.feeds@), q) == if m.insert(k, fv).contains_key(q) {
                        Some(m.insert(k, fv)[q])
                    } else {
                        None::<FeedView>
                    } by {
                        lemma_lookup_update(old_e, p as int, fv, q);
                        lemma_lookup_map(old_e, q);
                    }
                    lemma_lookup_update(old_e, p as int, fv, k);
                    lemma_entries_map_ext(feed_entries(self.feeds@), m.insert(k, fv));
                    lemma_lookup_at(old_e, p as int);
                    assert forall|i: int| 0 <= i < self.feeds@.len() implies feed_ok(
                        (#[trigger] self.feeds@[i]).1@,
                    ) by {
                        if i != p {
                            assert(self.feeds@[i] == old(self).feeds@[i]);
                        }
                    }
                }
                Some(pair.1)
            },
            None => {
                self.feeds.push((name, feed));
                proof {
                    assert(feed_entries(self.feeds@) =~= old_e.push((k, fv)));
                    assert forall|q: Seq<char>| #[trigger] lookup(feed_entries(self.feeds@), q) == if m.insert(k, fv).contains_key(q) {
                        Some(m.insert(k, fv)[q])
                    } else {
                        None::<FeedView>
                    } by {
                        lemma_lookup_push(old_e, k, fv, q);
                        lemma_lookup_map(old_e, q);
                    }
                    lemma_lookup_push(old_e, k, fv, k);
                    lemma_entries_map_ext(feed_entries(self.feeds@), m.insert(k, fv));
                    assert forall|i: int| 0 <= i < self.feeds@.len() implies feed_ok(
                        (#[trigger] self.feeds@[i]).1@,
                    ) by {
                        if i < old(self).feeds@.len() {
                            assert(self.feeds@[i] == old(self).feeds@[i]);
                        }
                    }
                }
                None
            },
        }
    }

    /// Track `feed` under `name` and record its reaction-role message, as
    /// adding a feed does; returns the feed tracked under `name` before.
    pub fn register_feed(&mut self, name: String, feed: Feed) -> (r: Option<Feed>)
        requires
            old(self).wf(),
            feed.wf(),
        ensures
            final(self).wf(),
            final(self)@ == spec_register(old(self)@, name@, feed@),
            match r {
                Some(o) => old(self)@.feeds.contains_key(name@) && o@ == old(self)@.feeds[name@],
                None => !old(self)@.feeds.contains_key(name@),
            },
    {
        let msg = feed.get_message();
        let role = feed.get_role();
        self.insert_message(msg, role);
        self.insert_feed(name, feed)
    }

    /// Track a feed taken out of the state under a new name, with a new
    /// reaction-role message, as renaming a feed does; returns the feed that
    /// was tracked under the new name, if any.
    pub fn move_feed(&mut self, feed: Feed, new_name: String, new_msg: u64) -> (r: Option<Feed>)
        requires
            old(self).wf(),
            feed.wf(),
        ensures
            final(self).wf(),
            final(self)@ == spec_move(old(self)@, feed@, new_name@, new_msg),
            match r {
                Some(o) => old(self)@.feeds.contains_key(new_name@) && o@ == old(self)@.feeds[new_name@],
                None => !old(self)@.feeds.contains_key(new_name@),
            },
    {
        let mut feed = feed;
        let old_msg = feed.get_message();
        let role = feed.get_role();
        feed.set_message(new_msg);
        feed.set_name(new_name.clone());
        let displaced = self.insert_feed(new_name, feed);
        self.remove_message(old_msg);
        self.insert_message(new_msg, role);
        displaced
    }

    /// Point an imported feed that is already tracked at a new link, last
    /// update and reaction-role message; returns its former message and its
    /// role, or `None` where no feed has that name.
    pub fn reimport_feed(&mut self, name: &String, link: String, updated: u64, new_msg: u64) -> (r:
        Option<(u64, u64)>)
        requires
            old(self).wf(),
        ensures
            final(self).wf(),
            match r {
                Some((msg, role)) => {
                    &&& old(self)@.feeds.contains_key(name@)
                    &&& msg == old(self)@.feeds[name@].message
                    &&& role == old(self)@.feeds[name@].role
                    &&& final(self)@ == (StateView {
                        feeds: old(self)@.feeds.insert(
                            name@,
                            FeedView {
                                link: link@,
                                updated,
                                message: new_msg,
                                ..old(self)@.feeds[name@]
                            },
                        ),
                        ..old(self)@
                    })
                },
                None => !old(self)@.feeds.contains_key(name@) && final(self)@ == old(self)@,
            },
    {
        match self.remove_feed(name) {
            Some(feed) => {
                let mut feed = feed;
                let msg = feed.get_message();
                let role = feed.get_role();
                feed.set_link(link);
                feed.set_update(updated);
                feed.set_message(new_msg);
                let ghost fv = feed@;
                proof {
                    assert(fv == (FeedView {
                        link: link@,
                        updated,
                        message: new_msg,
                        ..old(self)@.feeds[name@]
                    }));
                }
                let _ = self.insert_feed(name.clone(), feed);
                proof {
                    assert(old(self)@.feeds.remove(name@).insert(name@, fv) =~= old(self)@.feeds.insert(name@, fv));
                }
                Some((msg, role))
            },
            None => {
                proof {
                    assert(old(self)@.feeds.remove(name@) =~= old(self)@.feeds);
                }
                None
            },
        }
    }

    /// Forget the messages in `remove`, then record each pair of `add` in
    /// order, as importing feeds does.
    pub fn apply_message_changes(&mut self, remove: &Vec<u64>, add: &Vec<(u64, u64)>)
        requires
            old(self).wf(),
        ensures
            final(self).wf(),
            final(self)@ == (StateView {
                messages: insert_all(remove_all(old(self)@.messages, remove@), add@),
                ..old(self)@
            }),
    {
        let mut i: usize = 0;
        while i < remove.len()
            invariant
                self.wf(),
                i <= remove.len(),
                self@ == (StateView {
                    messages: remove_all(old(self)@.messages, remove@.subrange(0, i as int)),
                    ..old(self)@
                }),
            decreases remove.len() - i,
        {
            proof {
                assert(remove@.subrange(0, i + 1).drop_last() =~= remove@.subrange(0, i as int));
            }
            self.remove_message(remove[i]);
            i = i + 1;
        }
        proof {
            assert(remove@.subrange(0, remove.len() as int) =~= remove@);
        }
        let ghost removed = self@.messages;
        let mut j: usize = 0;
        while j < add.len()
            invariant
                self.wf(),
                j <= add.len(),
                self@ == (StateView { messages: insert_all(removed, add@.subrange(0, j as int)), ..old(self)@ }),
            decreases add.len() - j,
        {
            proof {
                assert(add@.subrange(0, j + 1).drop_last() =~= add@.subrange(0, j as int));
            }
            self.insert_message(add[j].0, add[j].1);
            j = j + 1;
        }
        proof {
            assert(add@.subrange(0, add.len() as int) =~= add@);
        }
    }

    /// Each tracked feed's name with its role.
    pub fn get_feeds_simple(&self) -> (r: Vec<(String, u64)>)
        requires
            self.wf(),
        ensures
            distinct_keys(name_roles(r@)),
            entries_map(name_roles(r@)) == self@.feeds.map_values(|f: FeedView| f.role),
    {
        let ghost e = feed_entries(self.feeds@);
        let mut r: Vec<(String, u64)> = Vec::new();
        let mut i: usize = 0;
        while i < self.feeds.len()
            invariant
                self.wf(),
                e == feed_entries(self.feeds@),
                i <= self.feeds.len(),
                r@.len() == i,
                forall|j: int| 0 <= j < i ==> (#[trigger] name_roles(r@)[j]) == (e[j].0, e[j].1.role),
            decreases self.feeds.len() - i,
        {
            let ghost old_r = r@;
            let pair = (self.feeds[i].0.clone(), self.feeds[i].1.get_role());
            r.push(pair);
            proof {
                assert(e[i as int] == (self.feeds@[i as int].0@, self.feeds@[i as int].1@));
                assert(r@ == old_r.push(pair));
                assert forall|j: int| 0 <= j < i + 1 implies (#[trigger] name_roles(r@)[j]) == (
                e[j].0, e[j].1.role) by {
                    if j < i {
                        assert(name_roles(r@)[j] == name_roles(old_r)[j]);
                    }
                }
            }
            i = i + 1;
        }
        proof {
            let nr = name_roles(r@);
            assert(nr =~= e.map_values(|p: (Seq<char>, FeedView)| (p.0, p.1.role)));
            lemma_map_values_entries(e);
        }
        r
    }

    /// Stop tracking the feed named `name`, returning it.
    pub fn remove_feed(&mut self, name: &String) -> (r: Option<Feed>)
        requires
            old(self).wf(),
        ensures
            final(self).wf(),
            final(self)@ == (StateView { feeds: old(self)@.feeds.remove(name@), ..old(self)@ }),
            match r {
                Some(o) => old(self)@.feeds.contains_key(name@) && o@ == old(self)@.feeds[name@]
                    && o.wf(),
                None => !old(self)@.feeds.contains_key(name@),
            },
    {
        let ghost old_e = feed_entries(self.feeds@);
        let ghost k = name@;
        let ghost m = old(self)@.feeds;
        match self.position(name) {
            Some(p) => {
                let (_, feed) = self.feeds.remove(p);
                proof {
                    assert(feed_entries(self.feeds@) =~= old_e.remove(p as int));
                    assert(old_e[p as int].1 == feed@);
                    assert forall|q: Seq<char>| #[trigger] lookup(feed_entries(self.feeds@), q) == if m.remove(k).contains_key(q) {
                        Some(m.remove(k)[q])
                    } else {
                        None::<FeedView>
                    } by {
                        lemma_lookup_remove(old_e, p as int, q);
                        lemma_lookup_map(old_e, q);
                    }
                    lemma_lookup_remove(old_e, p as int, k);
                    lemma_entries_map_ext(feed_entries(self.feeds@), m.remove(k));
                    lemma_lookup_at(old_e, p as int);
                    assert forall|i: int| 0 <= i < self.feeds@.len() implies feed_ok(
                        (#[trigger] self.feeds@[i]).1@,
                    ) by {
                        if i < p {
                            assert(self.feeds@[i] == old(self).feeds@[i]);
                        } else {
                            assert(self.feeds@[i] == old(self).feeds@[i + 1]);
                        }
                    }
                    assert(feed_ok(old(self).feeds@[p as int].1@));
                }
                Some(feed)
            },
            None => {
                proof {
                    assert(m.remove(k) =~= m);
                }
                None
            },
        }
    }
}

} // verus!
