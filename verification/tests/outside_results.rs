use std::cmp::Ordering;

use trigobot::commands::status_from_date;
use trigobot::feed::{author_or_default, changed_id, message_for_item, messages_from_items, RssItem};
use trigobot::message::Message;

fn item(title: &str, description: &str, author: Option<&str>, date: &str) -> RssItem {
    RssItem {
        title: Some(title.into()),
        link: Some("http://x/1".into()),
        description: Some(description.into()),
        author: author.map(|a| a.to_string()),
        pub_date: Some(date.into()),
    }
}

#[test]
fn html_is_turned_into_markdown() {
    let html = "<p>Exam on <b>Monday</b></p>";
    let items = vec![item("<i>T</i>", html, None, "Mon, 01 Jan 2024 10:00:00 +0000")];
    let m = messages_from_items(&items);
    assert_eq!(m.len(), 1);
    assert_eq!(m[0].content, html2md::parse_html(html));
    assert_ne!(m[0].content, html);
    assert_eq!(m[0].title, html2md::parse_html("<i>T</i>"));
}

#[test]
fn dates_with_offsets_are_read_in_utc() {
    let items = vec![item("t", "d", None, "Mon, 01 Jan 2024 11:00:00 +0100")];
    let m = messages_from_items(&items);
    assert_eq!(m[0].timestamp, 1704103200);
    // a date before the epoch wraps around as an unsigned number
    let items = vec![item("t", "d", None, "Wed, 31 Dec 1969 23:59:59 +0000")];
    let m = messages_from_items(&items);
    assert_eq!(m[0].timestamp, u64::MAX);
}

#[test]
fn author_is_read_between_parentheses() {
    let items = vec![item("t", "d", Some("someone@tecnico (Prof (X) Y)"), "Mon, 01 Jan 2024 10:00:00 +0000")];
    assert_eq!(messages_from_items(&items)[0].author, "Prof (X) Y");
    let items = vec![item("t", "d", Some("()"), "Mon, 01 Jan 2024 10:00:00 +0000")];
    assert_eq!(messages_from_items(&items)[0].author, "");
    assert_eq!(author_or_default(None), "Teacher Trigobot");
    assert_eq!(author_or_default(Some("A".into())), "A");
}

#[test]
fn message_for_item_uses_the_given_time() {
    let it = item("t", "d", None, "ignored");
    assert!(message_for_item(&it, None).is_none());
    let m = message_for_item(&it, Some(42)).unwrap();
    assert_eq!(m.timestamp, 42);
    assert_eq!(m.link.as_deref(), Some("http://x/1"));
}

#[test]
fn changed_id_compares_digests() {
    let d = *md5::compute("a");
    assert_eq!(changed_id(&(3, d), &d), None);
    assert_eq!(changed_id(&(3, d), &*md5::compute("b")), Some(3));
}

#[test]
fn status_line_text() {
    assert_eq!(
        status_from_date("IAC", "http://l", Some("D".into())),
        Some("**IAC**: http://l\nÚltima atualização: D\n".to_string())
    );
    assert_eq!(status_from_date("IAC", "http://l", None), None);
}

#[test]
fn messages_compare_by_timestamp() {
    let a = Message::new("x".into(), "a".into(), "".into(), None, 1);
    let b = Message::new("y".into(), "b".into(), "".into(), None, 2);
    let c = Message::new("z".into(), "c".into(), "".into(), None, 1);
    assert_eq!(a.cmp(&b), Ordering::Less);
    assert_eq!(b.cmp(&a), Ordering::Greater);
    assert_eq!(a.cmp(&c), Ordering::Equal);
    assert_eq!(a.partial_cmp(&b), Some(Ordering::Less));
}
