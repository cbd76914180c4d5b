use trigobot::announce::{
    announcement_description, announcement_title, link_field, plan_announcement, updated_description,
    Announcement,
};
use trigobot::cache::Cache;
use trigobot::env::{load_env, Config};
use trigobot::feed::{messages_from_items, Feed, RssItem};
use trigobot::message::{sort_by_timestamp, Message};

fn config_with_cache(entries: &str) -> Config {
    let names = [
        "ANNOUNCEMENT_ICON", "ANNOUNCEMENTS", "CACHE_ENTRIES", "COMMAND_PREFIX", "DELEGATE_ROLE",
        "DISCORD_TOKEN", "PEERS_FILE", "PIN_MIN_REACTIONS", "PIN_REACTION", "REACT_ROLE",
        "REACT_ROLE_CHANNEL", "RSS_SLEEP", "RULES_CHANNEL", "STATE_FILE", "WELCOME_CHANNEL",
    ];
    let env: Vec<(String, String)> = names
        .iter()
        .map(|n| (n.to_string(), if *n == "CACHE_ENTRIES" { entries.to_string() } else { "1".to_string() }))
        .collect();
    let mut config = Config::new();
    assert_eq!(load_env(&mut config, &env), Ok(()));
    config
}

fn msg(title: &str, link: Option<&str>, content: &str, ts: u64) -> Message {
    Message::new("a".into(), title.into(), content.into(), link.map(|l| l.to_string()), ts)
}

#[test]
fn cache_get_after_put() {
    let mut c: Cache<u32> = Cache::new(2);
    c.put("a".into(), 1);
    assert_eq!(c.get(&"a".to_string()), Some(&1));
    assert_eq!(c.get(&"b".to_string()), None);
    c.put("a".into(), 5);
    assert_eq!(c.get(&"a".to_string()), Some(&5));
}

#[test]
fn cache_evicts_the_oldest_key() {
    let mut c: Cache<u32> = Cache::new(2);
    c.put("a".into(), 1);
    c.put("b".into(), 2);
    c.put("a".into(), 3); // "a" becomes the most recent
    c.put("c".into(), 4); // evicts "b"
    assert_eq!(c.get(&"b".to_string()), None);
    assert_eq!(c.get(&"a".to_string()), Some(&3));
    assert_eq!(c.get(&"c".to_string()), Some(&4));
    let entries = c.to_parts();
    assert_eq!(c.capacity(), 2);
    let keys: Vec<&str> = entries.iter().map(|(k, _)| k.as_str()).collect();
    assert_eq!(keys, vec!["c", "a"]);
}

#[test]
fn cache_from_parts_checks_the_shape() {
    assert!(Cache::<u8>::from_parts(vec![("a".into(), 1), ("a".into(), 2)], 5).is_none());
    assert!(Cache::<u8>::from_parts(vec![("a".into(), 1), ("b".into(), 2)], 1).is_none());
    let c = Cache::<u8>::from_parts(vec![("a".into(), 1), ("b".into(), 2)], 2).unwrap();
    assert_eq!(c.get(&"b".to_string()), Some(&2));
}

#[test]
fn sort_is_stable_by_timestamp() {
    let v = vec![msg("x", None, "", 3), msg("y", None, "", 1), msg("z", None, "", 3), msg("w", None, "", 2)];
    let sorted = sort_by_timestamp(v);
    let titles: Vec<&str> = sorted.iter().map(|m| m.title.as_str()).collect();
    assert_eq!(titles, vec!["y", "w", "x", "z"]);
}

const DOC: &str = r#"<?xml version="1.0"?>
<rss version="2.0"><channel><title>T</title><link>http://x</link><description>d</description>
<item><title>Second</title><link>http://x/2</link><description>Body two</description><author>prof@x.pt (Ana Silva)</author><pubDate>Tue, 02 Jan 2024 10:00:00 +0000</pubDate></item>
<item><title>First</title><link>http://x/1</link><description>Body one</description><pubDate>Mon, 01 Jan 2024 10:00:00 +0000</pubDate></item>
<item><title>NoDate</title></item>
<item><title>Bad</title><pubDate>not a date</pubDate></item>
</channel></rss>"#;

#[test]
fn update_reads_dated_items_oldest_first() {
    let config = config_with_cache("10");
    let mut feed = Feed::new(&config, "IAC".into(), "http://x".into(), 1, 2, 3, Some(5));
    assert_eq!(feed.get_update(), 5);
    let messages = feed.update(DOC.as_bytes());
    assert_eq!(messages.len(), 2);
    assert_eq!(messages[0].title, "First");
    assert_eq!(messages[0].author, "Teacher Trigobot");
    assert_eq!(messages[0].content, "Body one");
    assert_eq!(messages[0].link.as_deref(), Some("http://x/1"));
    assert_eq!(messages[0].timestamp, 1704103200);
    assert_eq!(messages[1].title, "Second");
    assert_eq!(messages[1].author, "Ana Silva");
    assert_eq!(messages[1].timestamp, 1704189600);
    assert_eq!(feed.get_update(), 1704189600);
}

#[test]
fn update_of_a_broken_document_changes_nothing() {
    let config = config_with_cache("10");
    let mut feed = Feed::new(&config, "IAC".into(), "http://x".into(), 1, 2, 3, None);
    assert_eq!(feed.get_update(), 0);
    assert!(feed.update(b"this is not rss").is_empty());
    assert_eq!(feed.get_update(), 0);
}

#[test]
fn defaults_fill_missing_fields() {
    let items = vec![RssItem {
        title: None,
        link: None,
        description: None,
        author: Some("no parentheses".into()),
        pub_date: Some("Mon, 01 Jan 2024 10:00:00 +0000".into()),
    }];
    let m = messages_from_items(&items);
    assert_eq!(m.len(), 1);
    assert_eq!(m[0].title, "Trigobot for President");
    assert_eq!(m[0].content, "I am inevitable");
    assert_eq!(m[0].author, "Teacher Trigobot");
    assert_eq!(m[0].link, None);
}

#[test]
fn test_link_accepts_rss_only() {
    assert!(Feed::test_link(Some(DOC.as_bytes())));
    assert!(!Feed::test_link(Some(b"<html></html>")));
    assert!(!Feed::test_link(None));
}

#[test]
fn cached_announcements_detect_changes() {
    let config = config_with_cache("2");
    let mut feed = Feed::new(&config, "IAC".into(), "http://x".into(), 1, 2, 3, None);
    let m = msg("t", Some("http://x/1"), "old content", 10);
    assert_eq!(feed.check_changed(&m), None);
    feed.cache(77, m.clone());
    assert_eq!(feed.check_changed(&m), None);
    let edited = msg("t", Some("http://x/1"), "new content", 10);
    assert_eq!(feed.check_changed(&edited), Some(77));
    let unlinked = msg("t", None, "new content", 10);
    assert_eq!(feed.check_changed(&unlinked), None);
    // caching a message without a link does nothing
    feed.cache(78, unlinked);
    assert_eq!(feed.check_changed(&edited), Some(77));
}

#[test]
fn changes_are_detected_while_the_link_stays_cached() {
    let config = config_with_cache("3");
    let mut feed = Feed::new(&config, "IAC".into(), "http://x".into(), 1, 2, 3, None);
    feed.cache(5, msg("t", Some("http://x/a"), "first", 10));
    feed.cache(6, msg("t", Some("http://x/b"), "other", 11));
    feed.cache(7, msg("t", Some("http://x/c"), "third", 12));
    feed.cache(8, msg("t", None, "no link", 13));
    assert_eq!(feed.check_changed(&msg("u", Some("http://x/a"), "first", 99)), None);
    assert_eq!(feed.check_changed(&msg("u", Some("http://x/a"), "edited", 99)), Some(5));
    assert_eq!(feed.check_changed(&msg("u", Some("http://x/z"), "edited", 99)), None);
    assert_eq!(feed.check_changed(&msg("u", None, "edited", 99)), None);
    // a fourth link evicts the oldest one, which is then no longer known
    feed.cache(9, msg("t", Some("http://x/d"), "fourth", 14));
    assert_eq!(feed.check_changed(&msg("u", Some("http://x/a"), "edited", 99)), None);
    assert_eq!(feed.check_changed(&msg("u", Some("http://x/b"), "edited", 99)), Some(6));
}

#[test]
fn plan_decides_between_skip_edit_and_publish() {
    let config = config_with_cache("2");
    let mut feed = Feed::new(&config, "IAC".into(), "http://x".into(), 1, 2, 3, None);
    feed.cache(9, msg("t", Some("http://x/1"), "v1", 10));
    assert_eq!(plan_announcement(&feed, 20, &msg("t", Some("http://x/1"), "v1", 10)), Announcement::Skip);
    assert_eq!(plan_announcement(&feed, 20, &msg("t", Some("http://x/1"), "v2", 10)), Announcement::Edit(9));
    assert_eq!(plan_announcement(&feed, 20, &msg("t", None, "v2", 10)), Announcement::Skip);
    assert_eq!(plan_announcement(&feed, 20, &msg("t", Some("http://x/9"), "v2", 10)), Announcement::Skip);
    assert_eq!(plan_announcement(&feed, 9, &msg("t", Some("http://x/1"), "v1", 10)), Announcement::Publish);
}

#[test]
fn announcement_texts() {
    assert_eq!(announcement_title("IAC", "Exam"), "[IAC] Exam");
    assert_eq!(link_field("http://x/1"), "[Click here](http://x/1)");
    assert_eq!(announcement_description("short"), "short");
    let long = "é".repeat(3000); // 6000 bytes
    let d = announcement_description(&long);
    assert_eq!(d, format!("{}(...)", "é".repeat(3000)));
    let long = "a".repeat(5000);
    let d = announcement_description(&long);
    assert_eq!(d, format!("{}(...)", "a".repeat(4091)));
    assert_eq!(announcement_description(&"a".repeat(4096)), "a".repeat(4096));
    assert_eq!(
        updated_description("old"),
        "**THIS ANNOUNCEMENT HAS BEEN UPDATED**\n~~old~~"
    );
    assert_eq!(
        updated_description(&"b".repeat(5000)),
        format!("**THIS ANNOUNCEMENT HAS BEEN UPDATED**\n~~{}~~", "b".repeat(4053))
    );
}

#[test]
fn feed_parts_round_trip() {
    let config = config_with_cache("3");
    let mut feed = Feed::new(&config, "IAC".into(), "http://x".into(), 1, 2, 3, Some(4));
    feed.cache(5, msg("t", Some("l"), "c", 1));
    let (name, link, role, cached, cap, channel, message, updated) = feed.to_parts();
    assert_eq!((name.as_str(), link.as_str(), role, cap, channel, message, updated), ("IAC", "http://x", 1, 3, 2, 3, 4));
    assert_eq!(cached.len(), 1);
    assert_eq!(cached[0].1 .0, 5);
    assert_eq!(cached[0].1 .1, *md5::compute("c"));
    let again = Feed::from_parts(name, link, role, cached, cap, channel, message, updated).unwrap();
    assert_eq!(again.check_changed(&msg("t", Some("l"), "c", 1)), None);
    assert_eq!(again.check_changed(&msg("t", Some("l"), "d", 1)), Some(5));
}
