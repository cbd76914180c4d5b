//! The computations behind the bot's commands.

use std::fmt::Write;

use vstd::prelude::*;

use crate::cache::{distinct_keys, entries_map, has_key, lemma_lookup_at, lookup};
use crate::feed::{Feed, FeedView};
use crate::message::opt_view;
use crate::state::{feed_entries, name_roles};
use crate::text::{char_chunks, chunk_chars, pack_messages, spec_pack, views};

verus! {

broadcast use vstd::seq_lib::group_seq_properties;

/// The general command group and the commands it holds.
pub struct Commands;

impl Commands {
    pub open spec fn spec_names() -> Seq<Seq<char>> {
        seq!["announce"@, "say"@]
    }

    /// The commands of the group, by name.
    pub fn names() -> (r: Vec<&'static str>)
        ensures
            r@.map_values(|s: &str| s@) == Self::spec_names(),
    {
        let r = vec!["announce", "say"];
        proof {
            assert(r@.map_values(|s: &str| s@) =~= Self::spec_names());
        }
        r
    }
}

// ----- splitting -----

/// How `str::split` cuts a string at each occurrence of a character.
pub open spec fn split_spec(s: Seq<char>, sep: char) -> Seq<Seq<char>>
    decreases s.len(),
{
    if s.len() == 0 {
        seq![seq![]]
    } else {
        let p = split_spec(s.drop_last(), sep);
        if s.last() == sep {
            p.push(seq![])
        } else {
            p.update(p.len() - 1, p.last().push(s.last()))
        }
    }
}

proof fn lemma_split_nonempty(s: Seq<char>, sep: char)
    ensures
        split_spec(s, sep).len() >= 1,
    decreases s.len(),
{
    if s.len() > 0 {
        lemma_split_nonempty(s.drop_last(), sep);
    }
}

/// Cut `s` at each occurrence of `sep`, as `str::split` does.
pub fn split_on(s: &str, sep: char) -> (r: Vec<String>)
    ensures
        views(r@) == split_spec(s@, sep),
{
    let n = s.unicode_len();
    let mut r: Vec<String> = Vec::new();
    let mut start: usize = 0;
    let mut i: usize = 0;
    proof {
        assert(s@.take(0) =~= Seq::<char>::empty());
        assert(views(r@) + seq![s@.subrange(0, 0)] =~= split_spec(s@.take(0), sep));
    }
    while i < n
        invariant
            n == s@.len(),
            start <= i <= n,
            views(r@) + seq![s@.subrange(start as int, i as int)] == split_spec(s@.take(i as int), sep),
        decreases n - i,
    {
        let c = s.get_char(i);
        proof {
            lemma_split_nonempty(s@.take(i as int), sep);
            assert(s@.take(i + 1).drop_last() =~= s@.take(i as int));
            assert(s@.take(i + 1).last() == c);
        }
        if c == sep {
            let piece = String::from_str(s.substring_char(start, i));
            let ghost old_r = views(r@);
            r.push(piece);
            proof {
                assert(views(r@) =~= old_r.push(piece@));
                assert(piece@ =~= s@.subrange(start as int, i as int));
                assert(s@.subrange(i + 1, i + 1) =~= Seq::<char>::empty());
                assert(split_spec(s@.take(i + 1), sep) == split_spec(s@.take(i as int), sep).push(seq![]));
                assert(views(r@) + seq![s@.subrange(i + 1, i + 1)] =~= split_spec(s@.take(i + 1), sep));
            }
            start = i + 1;
        } else {
            proof {
                assert(s@.subrange(start as int, i + 1) =~= s@.subrange(start as int, i as int).push(c));
                assert(views(r@) + seq![s@.subrange(start as int, i + 1)] =~= split_spec(
                    s@.take(i + 1),
                    sep,
                ));
            }
        }
        i = i + 1;
    }
    let last = String::from_str(s.substring_char(start, n));
    let ghost old_r = views(r@);
    r.push(last);
    proof {
        assert(views(r@) =~= old_r.push(last@));
        assert(s@.take(n as int) =~= s@);
    }
    r
}

fn contains_string(v: &Vec<String>, x: &String) -> (r: bool)
    ensures
        r == views(v@).contains(x@),
{
    let mut i: usize = 0;
    while i < v.len()
        invariant
            i <= v.len(),
            forall|j: int| 0 <= j < i ==> v@[j]@ != x@,
        decreases v.len() - i,
    {
        if v[i] == *x {
            proof {
                assert(views(v@)[i as int] == x@);
            }
            return true;
        }
        i = i + 1;
    }
    proof {
        if views(v@).contains(x@) {
            let j = choose|j: int| 0 <= j < views(v@).len() && views(v@)[j] == x@;
            assert(v@[j]@ == x@);
        }
    }
    false
}

fn contains_u64(v: &Vec<u64>, x: u64) -> (r: bool)
    ensures
        r == v@.contains(x),
{
    let mut i: usize = 0;
    while i < v.len()
        invariant
            i <= v.len(),
            forall|j: int| 0 <= j < i ==> v@[j] != x,
        decreases v.len() - i,
    {
        if v[i] == x {
            return true;
        }
        i = i + 1;
    }
    false
}

// ----- roles -----

/// The roles of the feeds whose names are among `words`.
pub open spec fn named_roles(words: Set<Seq<char>>, feeds: Map<Seq<char>, u64>) -> Set<u64> {
    Set::new(|r: u64| exists|n: Seq<char>| #[trigger] words.contains(n) && feeds.contains_key(n) && feeds[n] == r)
}

/// The roles that some feed has.
pub open spec fn feed_roles(feeds: Map<Seq<char>, u64>) -> Set<u64> {
    Set::new(|r: u64| exists|n: Seq<char>| #[trigger] feeds.contains_key(n) && feeds[n] == r)
}

/// The roles of the feeds named in `words`, leaving out those in `exclude`.
fn collect_roles(words: &Vec<String>, feeds: &Vec<(String, u64)>, exclude: &Vec<u64>) -> (r: Vec<u64>)
    requires
        distinct_keys(name_roles(feeds@)),
    ensures
        r@.no_duplicates(),
        r@.to_set() == named_roles(views(words@).to_set(), entries_map(name_roles(feeds@))).difference(
            exclude@.to_set(),
        ),
{
    let ghost w = views(words@).to_set();
    let ghost e = name_roles(feeds@);
    let ghost fm = entries_map(e);
    let mut r: Vec<u64> = Vec::new();
    let mut i: usize = 0;
    while i < feeds.len()
        invariant
            i <= feeds.len(),
            e == name_roles(feeds@),
            fm == entries_map(e),
            distinct_keys(e),
            w == views(words@).to_set(),
            r@.no_duplicates(),
            forall|x: u64| #[trigger] r@.contains(x) <==> (!exclude@.contains(x) && exists|j: int|
                0 <= j < i && w.contains(#[trigger] e[j].0) && e[j].1 == x),
        decreases feeds.len() - i,
    {
        let name = &feeds[i].0;
        let role = feeds[i].1;
        proof {
            assert(e[i as int] == (name@, role));
        }
        let ghost old_r = r@;
        if contains_string(words, name) && !contains_u64(exclude, role) && !contains_u64(&r, role) {
            r.push(role);
            proof {
                assert(w.contains(name@));
                assert(w.contains(e[i as int].0));
                assert forall|x: u64| #[trigger] r@.contains(x) <==> (!exclude@.contains(x) && exists|j: int|
                    0 <= j < i + 1 && w.contains(#[trigger] e[j].0) && e[j].1 == x) by {
                    if x == role {
                        assert(r@[old_r.len() as int] == role);
                    } else if exists|j: int| 0 <= j < i + 1 && w.contains(#[trigger] e[j].0) && e[j].1 == x {
                        let j = choose|j: int| 0 <= j < i + 1 && w.contains(#[trigger] e[j].0) && e[j].1 == x;
                        assert(j < i);
                        if !exclude@.contains(x) {
                            assert(old_r.contains(x));
                            let k = choose|k: int| 0 <= k < old_r.len() && old_r[k] == x;
                            assert(r@[k] == x);
                        }
                    }
                    if old_r.contains(x) {
                        let k = choose|k: int| 0 <= k < old_r.len() && old_r[k] == x;
                        assert(r@[k] == x);
                    }
                    if r@.contains(x) && x != role {
                        let k = choose|k: int| 0 <= k < r@.len() && r@[k] == x;
                        assert(old_r[k] == x);
                    }
                }
            }
        } else {
            proof {
                assert forall|x: u64| #[trigger] r@.contains(x) <==> (!exclude@.contains(x) && exists|j: int|
                    0 <= j < i + 1 && w.contains(#[trigger] e[j].0) && e[j].1 == x) by {
                    if x == role && !exclude@.contains(x) && w.contains(name@) {
                        assert(r@.contains(x));
                    }
                    if !(x == role && w.contains(e[i as int].0)) {
                        if exists|j: int| 0 <= j < i + 1 && w.contains(#[trigger] e[j].0) && e[j].1 == x {
                            let j = choose|j: int| 0 <= j < i + 1 && w.contains(#[trigger] e[j].0) && e[j].1 == x;
                            assert(j < i);
                        }
                    }
                }
            }
        }
        i = i + 1;
    }
    proof {
        let target = named_roles(w, fm).difference(exclude@.to_set());
        assert forall|x: u64| #[trigger] r@.to_set().contains(x) <==> target.contains(x) by {
            if r@.contains(x) {
                let j = choose|j: int| 0 <= j < feeds@.len() && w.contains(#[trigger] e[j].0) && e[j].1 == x;
                lemma_lookup_at(e, j);
                assert(fm.contains_key(e[j].0) && fm[e[j].0] == x);
                assert(named_roles(w, fm).contains(x));
            }
            if target.contains(x) {
                let n = choose|n: Seq<char>| #[trigger] w.contains(n) && fm.contains_key(n) && fm[n] == x;
                assert(has_key(e, n));
                let j = choose|j: int| 0 <= j < e.len() && (#[trigger] e[j]).0 == n;
                lemma_lookup_at(e, j);
                assert(e[j].1 == x);
            }
        }
        assert(r@.to_set() =~= target);
    }
    r
}

/// Roles to give a member who asked, in `args`, for the roles of some feeds
/// by name (separated by spaces): those of the named feeds that the member
/// does not have yet.
pub fn roles_to_add(args: &str, feeds: &Vec<(String, u64)>, member_roles: &Vec<u64>) -> (r: Vec<u64>)
    requires
        distinct_keys(name_roles(feeds@)),
    ensures
        r@.no_duplicates(),
        r@.to_set() == named_roles(split_spec(args@, ' ').to_set(), entries_map(name_roles(feeds@))).difference(
            member_roles@.to_set(),
        ),
{
    let words = split_on(args, ' ');
    collect_roles(&words, feeds, member_roles)
}

/// Roles of the feeds that a member named in `args` (separated by spaces):
/// those to take away, or those asked for before leaving out the ones held.
pub fn requested_roles(args: &str, feeds: &Vec<(String, u64)>) -> (r: Vec<u64>)
    requires
        distinct_keys(name_roles(feeds@)),
    ensures
        r@.no_duplicates(),
        r@.to_set() == named_roles(split_spec(args@, ' ').to_set(), entries_map(name_roles(feeds@))),
{
    let words = split_on(args, ' ');
    let none: Vec<u64> = Vec::new();
    let r = collect_roles(&words, feeds, &none);
    proof {
        let s = named_roles(split_spec(args@, ' ').to_set(), entries_map(name_roles(feeds@)));
        assert(none@.to_set() =~= Set::<u64>::empty());
        assert(s.difference(none@.to_set()) =~= s);
    }
    r
}

/// Feed roles to take from a member who asked to clear them: those of the
/// member's roles that belong to some feed.
pub fn roles_to_clear(member_roles: &Vec<u64>, feeds: &Vec<(String, u64)>) -> (r: Vec<u64>)
    requires
        distinct_keys(name_roles(feeds@)),
    ensures
        r@.no_duplicates(),
        r@.to_set() == member_roles@.to_set().intersect(feed_roles(entries_map(name_roles(feeds@)))),
{
    let ghost e = name_roles(feeds@);
    let ghost fm = entries_map(e);
    let mut values: Vec<u64> = Vec::new();
    let mut i: usize = 0;
    while i < feeds.len()
        invariant
            i <= feeds.len(),
            e == name_roles(feeds@),
            values@.len() == i,
            forall|j: int| 0 <= j < i ==> values@[j] == (#[trigger] e[j]).1,
        decreases feeds.len() - i,
    {
        values.push(feeds[i].1);
        proof {
            assert(e[i as int].1 == feeds@[i as int].1);
        }
        i = i + 1;
    }
    let mut r: Vec<u64> = Vec::new();
    let mut k: usize = 0;
    while k < member_roles.len()
        invariant
            k <= member_roles.len(),
            r@.no_duplicates(),
            forall|x: u64| #[trigger] r@.contains(x) <==> (values@.contains(x) && exists|j: int|
                0 <= j < k && member_roles@[j] == x),
        decreases member_roles.len() - k,
    {
        let x = member_roles[k];
        let ghost old_r = r@;
        if contains_u64(&values, x) && !contains_u64(&r, x) {
            r.push(x);
            proof {
                assert forall|y: u64| #[trigger] r@.contains(y) <==> (values@.contains(y) && exists|j: int|
                    0 <= j < k + 1 && member_roles@[j] == y) by {
                    if y == x {
                        assert(r@[old_r.len() as int] == x);
                    }
                    if old_r.contains(y) {
                        let a = choose|a: int| 0 <= a < old_r.len() && old_r[a] == y;
                        assert(r@[a] == y);
                    }
                    if r@.contains(y) && y != x {
                        let a = choose|a: int| 0 <= a < r@.len() && r@[a] == y;
                        assert(old_r[a] == y);
                    }
                }
            }
        } else {
            proof {
                assert forall|y: u64| #[trigger] r@.contains(y) <==> (values@.contains(y) && exists|j: int|
                    0 <= j < k + 1 && member_roles@[j] == y) by {
                    if y != x {
                        if exists|j: int| 0 <= j < k + 1 && member_roles@[j] == y {
                            let j = choose|j: int| 0 <= j < k + 1 && member_roles@[j] == y;
                            assert(j < k);
                        }
                    }
                }
            }
        }
        k = k + 1;
    }
    proof {
        let target = member_roles@.to_set().intersect(feed_roles(fm));
        assert forall|y: u64| #[trigger] r@.to_set().contains(y) <==> target.contains(y) by {
            if r@.contains(y) {
                let j = choose|j: int| 0 <= j < values@.len() && values@[j] == y;
                lemma_lookup_at(e, j);
                assert(fm.contains_key(e[j].0) && fm[e[j].0] == y);
                let m = choose|m: int| 0 <= m < member_roles.len() && member_roles@[m] == y;
                assert(member_roles@.contains(y));
            }
            if target.contains(y) {
                let n = choose|n: Seq<char>| #[trigger] fm.contains_key(n) && fm[n] == y;
                assert(has_key(e, n));
                let j = choose|j: int| 0 <= j < e.len() && (#[trigger] e[j]).0 == n;
                lemma_lookup_at(e, j);
                assert(values@[j] == y);
                let m = choose|m: int| 0 <= m < member_roles@.len() && member_roles@[m] == y;
            }
        }
        assert(r@.to_set() =~= target);
    }
    r
}

// ----- list -----

/// Most bytes in one Discord message.
pub const MESSAGE_MAX_LENGTH: usize = 2000;

/// A Unix time shown in UTC with a `chrono` format string.
pub uninterp spec fn utc_formatted(secs: i64, fmt: Seq<char>) -> Option<Seq<char>>;

/// Calls `chrono::DateTime::<Utc>::from_timestamp(secs, 0)` and writes the
/// time with `DateTime::format(fmt)`; `None` where the time is out of range or
/// the format fails. The text is named, not stated.
#[verifier::external_body]
fn format_utc(secs: i64, fmt: &str) -> (r: Option<String>)
    ensures
        opt_view(r) == utc_formatted(secs, fmt@),
{
    match chrono::DateTime::<chrono::Utc>::from_timestamp(secs, 0) {
        Some(d) => {
            let mut out = String::new();
            match write!(out, "{}", d.format(fmt)) {
                Ok(()) => Some(out),
                Err(_) => None,
            }
        },
        None => None,
    }
}

pub open spec fn status_time_format() -> Seq<char> {
    "%Y/%m/%d %T %Z"@
}

/// The status line of a feed: its name in bold, its link, and the time of its
/// last update; `None` where that time cannot be shown.
pub open spec fn feed_status(f: FeedView) -> Option<Seq<char>> {
    status_text(f.name, f.link, utc_formatted(f.updated as i64, status_time_format()))
}

/// The status lines of a list of feeds, or `None` where one cannot be shown.
pub open spec fn feed_statuses(fs: Seq<FeedView>) -> Option<Seq<Seq<char>>>
    decreases fs.len(),
{
    if fs.len() == 0 {
        Some(seq![])
    } else {
        match (feed_statuses(fs.drop_last()), feed_status(fs.last())) {
            (Some(prev), Some(line)) => Some(prev.push(line)),
            _ => None,
        }
    }
}

/// The status line of a feed named `name` with link `link`, whose last
/// update reads `date` (`None` where it cannot be shown).
pub open spec fn status_text(name: Seq<char>, link: Seq<char>, date: Option<Seq<char>>) -> Option<Seq<char>> {
    match date {
        Some(d) => Some(
            "**"@ + name + "**"@ + ": "@ + link + "\n"@ + "Última atualização: "@ + d + "\n"@,
        ),
        None => None,
    }
}

pub fn status_from_date(name: &str, link: &str, date: Option<String>) -> (r: Option<String>)
    ensures
        opt_view(r) == status_text(name@, link@, opt_view(date)),
{
    match date {
        Some(d) => Some(
            String::from_str("**").concat(name).concat("**").concat(": ").concat(link).concat(
                "\n",
            ).concat("Última atualização: ").concat(d.as_str()).concat("\n"),
        ),
        None => None,
    }
}

pub fn status_line(feed: &Feed) -> (r: Option<String>)
    ensures
        opt_view(r) == feed_status(feed@),
{
    let date = format_utc(feed.get_update() as i64, "%Y/%m/%d %T %Z");
    status_from_date(feed.get_name().as_str(), feed.get_link().as_str(), date)
}

/// The messages that list the status of the feeds, packed into messages of
/// at most `MESSAGE_MAX_LENGTH` bytes; `None` where a feed's last update
/// cannot be shown.
pub fn list_messages(feeds: &Vec<(String, Feed)>) -> (r: Option<Vec<String>>)
    ensures
        match r {
            Some(v) => feed_statuses(feed_entries(feeds@).map_values(
                |p: (Seq<char>, FeedView)| p.1,
            )) is Some && views(v@) == spec_pack(
                feed_statuses(feed_entries(feeds@).map_values(|p: (Seq<char>, FeedView)| p.1))->0,
                MESSAGE_MAX_LENGTH as nat,
            ),
            None => feed_statuses(
                feed_entries(feeds@).map_values(|p: (Seq<char>, FeedView)| p.1),
            ) is None,
        },
{
    let ghost fs = feed_entries(feeds@).map_values(|p: (Seq<char>, FeedView)| p.1);
    let mut lines: Vec<String> = Vec::new();
    let mut i: usize = 0;
    proof {
        assert(fs.subrange(0, 0) =~= Seq::<FeedView>::empty());
        assert(views(lines@) =~= Seq::<Seq<char>>::empty());
    }
    while i < feeds.len()
        invariant
            i <= feeds.len(),
            fs == feed_entries(feeds@).map_values(|p: (Seq<char>, FeedView)| p.1),
            feed_statuses(fs.subrange(0, i as int)) == Some(views(lines@)),
        decreases feeds.len() - i,
    {
        proof {
            assert(fs.subrange(0, i + 1).drop_last() =~= fs.subrange(0, i as int));
            assert(fs.subrange(0, i + 1).last() == feeds@[i as int].1@);
        }
        match status_line(&feeds[i].1) {
            Some(line) => {
                let ghost old_l = views(lines@);
                lines.push(line);
                proof {
                    assert(views(lines@) =~= old_l.push(line@));
                }
            },
            None => {
                proof {
                    lemma_statuses_none(fs, i as int);
                }
                return None;
            },
        }
        i = i + 1;
    }
    proof {
        assert(fs.subrange(0, feeds.len() as int) =~= fs);
    }
    Some(pack_messages(&lines, MESSAGE_MAX_LENGTH))
}

/// One status that cannot be shown leaves the whole list without one.
proof fn lemma_statuses_none(fs: Seq<FeedView>, i: int)
    requires
        0 <= i < fs.len(),
        feed_status(fs[i]) is None,
    ensures
        feed_statuses(fs) is None,
    decreases fs.len(),
{
    if i < fs.len() - 1 {
        assert(fs.drop_last()[i] == fs[i]);
        lemma_statuses_none(fs.drop_last(), i);
    }
}

// ----- roles and channels of new feeds -----

/// The lowercase form of a text, as `str::to_lowercase` gives it.
pub uninterp spec fn lowercase_of(s: Seq<char>) -> Seq<char>;

/// Calls `str::to_lowercase`: the Unicode lowercase mapping of each
/// character. The mapping is named, not stated.
#[verifier::external_body]
fn to_lowercase(s: &str) -> (r: String)
    ensures
        r@ == lowercase_of(s@),
{
    s.to_lowercase()
}

/// Position of the first of `names` equal to `name`, if any.
pub fn find_by_name(names: &Vec<String>, name: &str) -> (r: Option<usize>)
    ensures
        match r {
            Some(i) => i < names@.len() && names@[i as int]@ == name@ && forall|j: int|
                0 <= j < i ==> names@[j]@ != name@,
            None => !views(names@).contains(name@),
        },
{
    let key = String::from_str(name);
    let mut i: usize = 0;
    while i < names.len()
        invariant
            key@ == name@,
            i <= names.len(),
            forall|j: int| 0 <= j < i ==> names@[j]@ != name@,
        decreases names.len() - i,
    {
        if names[i] == key {
            return Some(i);
        }
        i = i + 1;
    }
    proof {
        if views(names@).contains(name@) {
            let j = choose|j: int| 0 <= j < views(names@).len() && views(names@)[j] == name@;
            assert(names@[j]@ == name@);
        }
    }
    None
}

/// The existing role a new feed reuses: the first role named like the feed.
pub fn feed_role_among(role_names: &Vec<String>, feed: &str) -> (r: Option<usize>)
    ensures
        match r {
            Some(i) => i < role_names@.len() && role_names@[i as int]@ == feed@ && forall|j: int|
                0 <= j < i ==> role_names@[j]@ != feed@,
            None => !views(role_names@).contains(feed@),
        },
{
    find_by_name(role_names, feed)
}

/// The existing channel a new feed reuses: the first channel named like the
/// feed in lowercase.
pub fn feed_channel_among(channel_names: &Vec<String>, feed: &str) -> (r: Option<usize>)
    ensures
        match r {
            Some(i) => i < channel_names@.len() && channel_names@[i as int]@ == lowercase_of(feed@)
                && forall|j: int| 0 <= j < i ==> channel_names@[j]@ != lowercase_of(feed@),
            None => !views(channel_names@).contains(lowercase_of(feed@)),
        },
{
    let lower = to_lowercase(feed);
    find_by_name(channel_names, lower.as_str())
}

// ----- dump -----

/// Most characters of JSON per message, leaving room for the code block.
pub const DUMP_CHUNK: usize = 1988;

pub open spec fn json_block(c: Seq<char>) -> Seq<char> {
    "```JSON\n"@ + c + "\n```"@
}

/// The messages that show a JSON dump: pieces of `DUMP_CHUNK` characters,
/// each in a JSON code block.
pub fn dump_messages(json: &str) -> (r: Vec<String>)
    ensures
        views(r@) == char_chunks(json@, DUMP_CHUNK as nat).map_values(|c: Seq<char>| json_block(c)),
{
    let chunks = chunk_chars(json, DUMP_CHUNK);
    let mut r: Vec<String> = Vec::new();
    let mut i: usize = 0;
    while i < chunks.len()
        invariant
            i <= chunks.len(),
            views(r@) == views(chunks@).subrange(0, i as int).map_values(|c: Seq<char>| json_block(c)),
        decreases chunks.len() - i,
    {
        let block = String::from_str("```JSON\n").concat(chunks[i].as_str()).concat("\n```");
        let ghost old_r = views(r@);
        r.push(block);
        proof {
            assert(views(r@) =~= old_r.push(block@));
            assert(views(chunks@)[i as int] == chunks@[i as int]@);
            assert(views(r@) =~= views(chunks@).subrange(0, i + 1).map_values(|c: Seq<char>| json_block(c)));
        }
        i = i + 1;
    }
    proof {
        assert(views(chunks@).subrange(0, chunks.len() as int) =~= views(chunks@));
    }
    r
}

// ----- undo -----

/// Position of the first message written by `author`, if any.
pub fn first_by_author(authors: &Vec<u64>, author: u64) -> (r: Option<usize>)
    ensures
        match r {
            Some(i) => i < authors@.len() && authors@[i as int] == author && forall|j: int|
                0 <= j < i ==> authors@[j] != author,
            None => !authors@.contains(author),
        },
{
    let mut i: usize = 0;
    while i < authors.len()
        invariant
            i <= authors.len(),
            forall|j: int| 0 <= j < i ==> authors@[j] != author,
        decreases authors.len() - i,
    {
        if authors[i] == author {
            return Some(i);
        }
        i = i + 1;
    }
    None
}

/// The reply that refuses an `rss add` request, or `None` where the feed is to
/// be added: it needs a name and a link, the link must read as a feed, and a
/// category must have been chosen for the feed's channel.
pub open spec fn spec_add_refusal(n_args: nat, link_ok: bool, category: Option<u64>) -> Option<Seq<char>> {
    if n_args != 2 {
        Some("Need a feed name and link"@)
    } else if !link_ok {
        Some("Link de feed inválido"@)
    } else if category is None {
        Some("Nenhuma categoria selecionada"@)
    } else {
        None
    }
}

pub fn add_refusal(n_args: usize, link_ok: bool, category: Option<u64>) -> (r: Option<String>)
    ensures
        opt_view(r) == spec_add_refusal(n_args as nat, link_ok, category),
{
    if n_args != 2 {
        Some(String::from_str("Need a feed name and link"))
    } else if !link_ok {
        Some(String::from_str("Link de feed inválido"))
    } else if category.is_none() {
        Some(String::from_str("Nenhuma categoria selecionada"))
    } else {
        None
    }
}

/// The reply that refuses an `rss import` request, or `None` where the feeds
/// are to be imported: it needs a JSON text that reads as feeds, and a chosen
/// category.
pub open spec fn spec_import_refusal(has_text: bool, json_ok: bool, category: Option<u64>) -> Option<
    Seq<char>,
> {
    if !has_text {
        Some("Need the json to import"@)
    } else if !json_ok {
        Some("JSON inválido"@)
    } else if category is None {
        Some("Nenhuma categoria selecionada"@)
    } else {
        None
    }
}

pub fn import_refusal(has_text: bool, json_ok: bool, category: Option<u64>) -> (r: Option<String>)
    ensures
        opt_view(r) == spec_import_refusal(has_text, json_ok, category),
{
    if !has_text {
        Some(String::from_str("Need the json to import"))
    } else if !json_ok {
        Some(String::from_str("JSON inválido"))
    } else if category.is_none() {
        Some(String::from_str("Nenhuma categoria selecionada"))
    } else {
        None
    }
}

/// The reply that refuses an `rss mv` request, or `None` where the feed is to
/// be renamed: it needs the old and the new name, and the old one must be a
/// known feed.
pub open spec fn spec_mv_refusal(n_args: nat, known: bool) -> Option<Seq<char>> {
    if n_args != 2 {
        Some("Need the old name and a new name"@)
    } else if !known {
        Some("Feed inexistente"@)
    } else {
        None
    }
}

pub fn mv_refusal(n_args: usize, known: bool) -> (r: Option<String>)
    ensures
        opt_view(r) == spec_mv_refusal(n_args as nat, known),
{
    if n_args != 2 {
        Some(String::from_str("Need the old name and a new name"))
    } else if !known {
        Some(String::from_str("Feed inexistente"))
    } else {
        None
    }
}

/// The reply that refuses an `rss rm` request, or `None` where the feed is to
/// be removed: it needs one name, of a known feed.
pub open spec fn spec_rm_refusal(n_args: nat, known: bool) -> Option<Seq<char>> {
    if n_args != 1 {
        Some("Need a feed name"@)
    } else if !known {
        Some("Feed inexistente"@)
    } else {
        None
    }
}

pub fn rm_refusal(n_args: usize, known: bool) -> (r: Option<String>)
    ensures
        opt_view(r) == spec_rm_refusal(n_args as nat, known),
{
    if n_args != 1 {
        Some(String::from_str("Need a feed name"))
    } else if !known {
        Some(String::from_str("Feed inexistente"))
    } else {
        None
    }
}

/// What the `category` command makes of its argument: the category id and
/// the reply on success, or the reply that refuses it.
pub open spec fn spec_category_reply(arg: Seq<char>) -> Result<(u64, Seq<char>), Seq<char>> {
    match crate::text::spec_parse_u64(arg) {
        Some(id) => Ok((id, "Category changed successfully"@)),
        None => Err("Couldn't parse category id"@),
    }
}

pub fn category_reply(arg: &str) -> (r: Result<(u64, String), String>)
    ensures
        match r {
            Ok((id, s)) => spec_category_reply(arg@) == Ok::<(u64, Seq<char>), Seq<char>>((id, s@)),
            Err(s) => spec_category_reply(arg@) == Err::<(u64, Seq<char>), Seq<char>>(s@),
        },
{
    match crate::text::parse_u64(arg) {
        Some(id) => Ok((id, String::from_str("Category changed successfully"))),
        None => Err(String::from_str("Couldn't parse category id")),
    }
}

/// The status line of a feed shows the time of its last update read as
/// seconds since the epoch, in UTC, as `%Y/%m/%d %T %Z`: there is a line
/// exactly when that time can be shown, and it is the feed's name in bold, its
/// link, and that time.
pub proof fn law_feed_status_shows_update_seconds(f: FeedView)
    ensures
        feed_status(f) is Some <==> utc_formatted(f.updated as i64, "%Y/%m/%d %T %Z"@) is Some,
        utc_formatted(f.updated as i64, "%Y/%m/%d %T %Z"@) matches Some(d) ==> feed_status(f) == Some(
            "**"@ + f.name + "**: "@ + f.link + "\nÚltima atualização: "@ + d + "\n"@,
        ),
{
    reveal_strlit("**");
    reveal_strlit("**: ");
    reveal_strlit(": ");
    reveal_strlit("\n");
    reveal_strlit("\nÚltima atualização: ");
    reveal_strlit("Última atualização: ");
    if let Some(d) = utc_formatted(f.updated as i64, "%Y/%m/%d %T %Z"@) {
        assert("**"@ + f.name + "**"@ + ": "@ + f.link + "\n"@ + "Última atualização: "@ + d + "\n"@
            =~= "**"@ + f.name + "**: "@ + f.link + "\nÚltima atualização: "@ + d + "\n"@);
    }
}

/// Every argument that reads as a `u64` is taken as the category id, and the
/// command refuses exactly the arguments that do not.
pub proof fn law_category_accepts_every_id(arg: Seq<char>)
    ensures
        crate::text::spec_parse_u64(arg) matches Some(id) ==> spec_category_reply(arg) matches Ok(
            (got, _),
        ) && got == id,
        spec_category_reply(arg) is Err <==> crate::text::spec_parse_u64(arg) is None,
{
}

/// The decimal text of any `u64` is accepted as that category id.
pub proof fn law_category_accepts_decimal(id: u64)
    ensures
        spec_category_reply(crate::render::decimal_text(id as nat)) matches Ok((got, _)) && got == id,
{
    crate::render::law_parse_decimal(id);
}

} // verus!
