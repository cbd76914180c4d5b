//! Announcements read from a feed.

use vstd::prelude::*;

verus! {

broadcast use vstd::seq_lib::group_seq_properties;

/// Stores all relevant information to create a Discord message
#[derive(Debug)]
pub struct Message {
    pub author: String,
    pub title: String,
    pub content: String,
    pub link: Option<String>,
    pub timestamp: u64,
}

/// What a message holds, as plain values.
pub struct MessageView {
    pub author: Seq<char>,
    pub title: Seq<char>,
    pub content: Seq<char>,
    pub link: Option<Seq<char>>,
    pub timestamp: u64,
}

/// The view of an optional string.
pub open spec fn opt_view(s: Option<String>) -> Option<Seq<char>> {
    match s {
        Some(v) => Some(v@),
        None => None,
    }
}

impl View for Message {
    type V = MessageView;

    open spec fn view(&self) -> MessageView {
        MessageView {
            author: self.author@,
            title: self.title@,
            content: self.content@,
            link: opt_view(self.link),
            timestamp: self.timestamp,
        }
    }
}

/// The views of a sequence of messages.
pub open spec fn msg_views(s: Seq<Message>) -> Seq<MessageView> {
    s.map_values(|m: Message| m@)
}

impl Message {
    pub fn new(
        author: String,
        title: String,
        content: String,
        link: Option<String>,
        timestamp: u64,
    ) -> (m: Message)
        ensures
            m.author == author,
            m.title == title,
            m.content == content,
            m.link == link,
            m.timestamp == timestamp,
    {
        Message { author, title, content, link, timestamp }
    }
}

impl Clone for Message {
    fn clone(&self) -> (r: Self)
        ensures
            r == *self,
    {
        Message {
            author: self.author.clone(),
            title: self.title.clone(),
            content: self.content.clone(),
            link: match &self.link {
                Some(l) => Some(l.clone()),
                None => None,
            },
            timestamp: self.timestamp,
        }
    }
}

impl Message {
    /// Messages are ordered by their timestamp alone.
    pub fn cmp(&self, other: &Self) -> (r: std::cmp::Ordering)
        ensures
            r == (if self.timestamp < other.timestamp {
                std::cmp::Ordering::Less
            } else if self.timestamp == other.timestamp {
                std::cmp::Ordering::Equal
            } else {
                std::cmp::Ordering::Greater
            }),
    {
        if self.timestamp < other.timestamp {
            std::cmp::Ordering::Less
        } else if self.timestamp == other.timestamp {
            std::cmp::Ordering::Equal
        } else {
            std::cmp::Ordering::Greater
        }
    }

    /// The same order, which is total.
    pub fn partial_cmp(&self, other: &Self) -> (r: Option<std::cmp::Ordering>)
        ensures
            r == Some(
                if self.timestamp < other.timestamp {
                    std::cmp::Ordering::Less
                } else if self.timestamp == other.timestamp {
                    std::cmp::Ordering::Equal
                } else {
                    std::cmp::Ordering::Greater
                },
            ),
    {
        Some(self.cmp(other))
    }
}

/// Messages are ordered by their timestamp alone.
pub open spec fn sorted_by_timestamp(s: Seq<MessageView>) -> bool {
    forall|i: int, j: int| 0 <= i <= j < s.len() ==> (#[trigger] s[i]).timestamp <= (#[trigger] s[j]).timestamp
}

/// The messages of one timestamp.
pub open spec fn at_time(t: u64) -> spec_fn(MessageView) -> bool {
    |m: MessageView| m.timestamp == t
}

/// `r` is `s` stably sorted by timestamp: ordered by timestamp, and the
/// messages of each timestamp in the order they had in `s`.
pub open spec fn stable_sort_of(r: Seq<MessageView>, s: Seq<MessageView>) -> bool {
    &&& sorted_by_timestamp(r)
    &&& forall|t: u64| #[trigger] r.filter(at_time(t)) == s.filter(at_time(t))
}

proof fn lemma_insert_keeps_groups(r: Seq<MessageView>, p: int, x: MessageView, t: u64)
    requires
        0 <= p <= r.len(),
        forall|i: int| p <= i < r.len() ==> (#[trigger] r[i]).timestamp > x.timestamp,
    ensures
        r.insert(p, x).filter(at_time(t)) == if t == x.timestamp {
            r.filter(at_time(t)).push(x)
        } else {
            r.filter(at_time(t))
        },
{
    let a = r.subrange(0, p);
    let b = r.subrange(p, r.len() as int);
    assert(r =~= a + b);
    assert(r.insert(p, x) =~= a + (seq![x] + b));
    Seq::filter_distributes_over_add(a, b, at_time(t));
    Seq::filter_distributes_over_add(a, seq![x] + b, at_time(t));
    Seq::filter_distributes_over_add(seq![x], b, at_time(t));
    assert(seq![x] =~= Seq::<MessageView>::empty().push(x));
    Seq::<MessageView>::empty().lemma_filter_push(x, at_time(t));
    assert(Seq::<MessageView>::empty().filter(at_time(t)) =~= Seq::<MessageView>::empty()) by {
        reveal(Seq::filter);
    }
    if t == x.timestamp {
        assert(b.all(|m: MessageView| !at_time(t)(m))) by {
            assert forall|i: int| 0 <= i < b.len() implies !at_time(t)(#[trigger] b[i]) by {
                assert(b[i] == r[p + i]);
            }
        }
        b.lemma_all_neg_filter_empty(at_time(t));
        assert(b.filter(at_time(t)) =~= Seq::<MessageView>::empty());
        assert(r.insert(p, x).filter(at_time(t)) =~= a.filter(at_time(t)).push(x));
        assert(r.filter(at_time(t)) =~= a.filter(at_time(t)));
    } else {
        assert(r.insert(p, x).filter(at_time(t)) =~= a.filter(at_time(t)) + b.filter(at_time(t)));
    }
}

/// Sort messages by timestamp, keeping the order of messages with equal
/// timestamps.
pub fn sort_by_timestamp(messages: Vec<Message>) -> (r: Vec<Message>)
    ensures
        stable_sort_of(msg_views(r@), msg_views(messages@)),
        r@.len() == messages@.len(),
{
    let ghost input = msg_views(messages@);
    let mut rest = messages;
    let mut r: Vec<Message> = Vec::new();
    let ghost mut k: int = 0;
    proof {
        assert forall|t: u64| #[trigger] msg_views(r@).filter(at_time(t)) == input.subrange(0, 0).filter(
            at_time(t),
        ) by {
            assert(msg_views(r@) =~= input.subrange(0, 0));
        }
    }
    while rest.len() > 0
        invariant
            0 <= k <= input.len(),
            msg_views(rest@) == input.subrange(k, input.len() as int),
            r@.len() == k,
            sorted_by_timestamp(msg_views(r@)),
            forall|t: u64| #[trigger]
                msg_views(r@).filter(at_time(t)) == input.subrange(0, k).filter(at_time(t)),
        decreases rest.len(),
    {
        let ghost old_rest = rest@;
        let x = rest.remove(0);
        let mut p: usize = r.len();
        while p > 0 && r[p - 1].timestamp > x.timestamp
            invariant
                p <= r@.len(),
                forall|i: int| p <= i < r@.len() ==> (#[trigger] r@[i]).timestamp > x.timestamp,
            decreases p,
        {
            p = p - 1;
        }
        let ghost old_r = msg_views(r@);
        r.insert(p, x);
        proof {
            assert(msg_views(old_rest).len() == old_rest.len());
            assert(k < input.len());
            assert(x == old_rest[0]);
            assert(msg_views(old_rest)[0] == old_rest[0]@);
            assert(input.subrange(k, input.len() as int)[0] == input[k]);
            assert(x@ == input[k]);
            assert(msg_views(r@) =~= old_r.insert(p as int, x@));
            assert(input.subrange(0, k + 1) =~= input.subrange(0, k).push(x@));
            assert forall|i: int| p <= i < old_r.len() implies (#[trigger] old_r[i]).timestamp
                > x@.timestamp by {}
            assert forall|t: u64| #[trigger]
                msg_views(r@).filter(at_time(t)) == input.subrange(0, k + 1).filter(at_time(t)) by {
                lemma_insert_keeps_groups(old_r, p as int, x@, t);
                input.subrange(0, k).lemma_filter_push(x@, at_time(t));
            }
            assert forall|i: int, j: int|
                0 <= i <= j < msg_views(r@).len() implies (#[trigger] msg_views(r@)[i]).timestamp
                <= (#[trigger] msg_views(r@)[j]).timestamp by {
                if p > 0 {
                    assert(old_r[p - 1].timestamp <= x.timestamp);
                }
            }
            assert(rest@ =~= old_rest.remove(0));
            assert(msg_views(rest@) =~= msg_views(old_rest).subrange(1, old_rest.len() as int));
            k = k + 1;
            assert(msg_views(rest@) =~= input.subrange(k, input.len() as int));
        }
    }
    proof {
        assert(input.subrange(0, k) =~= input);
    }
    r
}

} // verus!
