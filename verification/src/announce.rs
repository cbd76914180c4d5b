//! Decisions and texts for publishing feed announcements.

use vstd::prelude::*;

use crate::feed::{spec_check_changed, Feed};
use crate::message::Message;
use crate::text::{byte_len, byte_length, min_nat, prune_msg};

verus! {

/// Maximum length, in bytes, of an embed description.
pub const EMBED_MAX_DESC: usize = 4096;

/// What to do with a message read from a feed.
#[derive(Clone, Copy, PartialEq, Eq, Structural, Debug)]
pub enum Announcement {
    /// Nothing: it was announced before and has not changed.
    Skip,
    /// Mark the earlier announcement with this id as updated and publish again.
    Edit(u64),
    /// Publish it: it is newer than the feed's last update.
    Publish,
}

/// The decision for message `m` of a feed last updated at `update_ts`.
pub open spec fn spec_plan(f: crate::feed::FeedView, update_ts: u64, m: crate::message::MessageView) -> Announcement {
    if m.timestamp <= update_ts {
        match spec_check_changed(f, m) {
            Some(id) => Announcement::Edit(id),
            None => Announcement::Skip,
        }
    } else {
        Announcement::Publish
    }
}

/// Check if an announcement is too old, needs to be updated or is new.
///
/// `update_ts` is the feed's last update before its messages were read.
pub fn plan_announcement(feed: &Feed, update_ts: u64, m: &Message) -> (a: Announcement)
    requires
        feed.wf(),
    ensures
        a == spec_plan(feed@, update_ts, m@),
{
    if m.timestamp <= update_ts {
        if m.link.is_some() {
            match feed.check_changed(m) {
                Some(old_id) => Announcement::Edit(old_id),
                None => Announcement::Skip,
            }
        } else {
            Announcement::Skip
        }
    } else {
        Announcement::Publish
    }
}

/// Title of an announcement: the feed's name in brackets, then the title.
pub open spec fn spec_title(name: Seq<char>, title: Seq<char>) -> Seq<char> {
    "["@ + name + "] "@ + title
}

pub fn announcement_title(name: &str, title: &str) -> (r: String)
    ensures
        r@ == spec_title(name@, title@),
{
    String::from_str("[").concat(name).concat("] ").concat(title)
}

/// Description of a new announcement: its content, cut to fit an embed with
/// a trailing `(...)` when longer than `EMBED_MAX_DESC` bytes.
pub open spec fn spec_description(content: Seq<char>) -> Seq<char> {
    if byte_len(content) > EMBED_MAX_DESC {
        content.take(min_nat((EMBED_MAX_DESC - 5) as nat, content.len()) as int) + "(...)"@
    } else {
        content
    }
}

pub fn announcement_description(content: &str) -> (r: String)
    ensures
        r@ == spec_description(content@),
{
    if byte_length(content) > EMBED_MAX_DESC {
        proof {
            if content@.len() == 0 {
                assert(vstd::utf8::encode_utf8(content@) =~= Seq::<u8>::empty());
            }
        }
        prune_msg(content, EMBED_MAX_DESC - 5).concat("(...)")
    } else {
        String::from_str(content)
    }
}

/// Description written over an announcement whose content changed: a notice,
/// then the old description struck through and cut to fit.
pub open spec fn spec_updated_description(old: Seq<char>) -> Seq<char> {
    "**THIS ANNOUNCEMENT HAS BEEN UPDATED**\n~~"@ + old.take(
        min_nat((EMBED_MAX_DESC - 43) as nat, old.len()) as int,
    ) + "~~"@
}

/// The old description must not be empty: it is cut by taking its first
/// chunk, which an empty text does not have.
pub fn updated_description(old: &str) -> (r: String)
    requires
        old@.len() > 0,
    ensures
        r@ == spec_updated_description(old@),
{
    String::from_str("**THIS ANNOUNCEMENT HAS BEEN UPDATED**\n~~").concat(
        prune_msg(old, EMBED_MAX_DESC - 43).as_str(),
    ).concat("~~")
}

/// The value of the field that links to the announced item.
pub open spec fn spec_link_field(link: Seq<char>) -> Seq<char> {
    "[Click here]("@ + link + ")"@
}

pub fn link_field(link: &str) -> (r: String)
    ensures
        r@ == spec_link_field(link@),
{
    String::from_str("[Click here](").concat(link).concat(")")
}

/// A message read from a feed is published exactly when it is newer than the
/// feed's last update. An older (or equally old) message is announced again,
/// as an edit of announcement `id`, exactly when the cache holds its link
/// under `id` with a digest that differs from the message's content; otherwise
/// it is skipped.
pub proof fn law_plan_announcement(f: crate::feed::FeedView, update_ts: u64, m: crate::message::MessageView)
    ensures
        (spec_plan(f, update_ts, m) == Announcement::Publish) <==> m.timestamp > update_ts,
        m.timestamp <= update_ts ==> {
            let cached = match m.link {
                Some(l) => crate::cache::lookup(f.cache, l),
                None => None,
            };
            match cached {
                Some((id, digest)) => spec_plan(f, update_ts, m) == if digest
                    != crate::feed::content_digest(m.content) {
                    Announcement::Edit(id)
                } else {
                    Announcement::Skip
                },
                None => spec_plan(f, update_ts, m) == Announcement::Skip,
            }
        },
{
}

} // verus!
