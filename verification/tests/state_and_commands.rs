use std::collections::HashMap;

use trigobot::commands::{
    add_refusal, category_reply, import_refusal, mv_refusal, rm_refusal,
    dump_messages, feed_channel_among, feed_role_among, first_by_author, list_messages, roles_to_add,
    roles_to_clear, requested_roles, split_on, Commands,
};
use trigobot::env::{load_env, Config};
use trigobot::events::{dm_refused, is_unknown_role, reaction_added, reaction_removed, should_pin, ReactionAction};
use trigobot::feed::Feed;
use trigobot::network::{broadcast_refusal, ErrorMessage, Network, Protocol};
use trigobot::state::State;

fn config() -> Config {
    let names = [
        "ANNOUNCEMENT_ICON", "ANNOUNCEMENTS", "CACHE_ENTRIES", "COMMAND_PREFIX", "DELEGATE_ROLE",
        "DISCORD_TOKEN", "PEERS_FILE", "PIN_MIN_REACTIONS", "PIN_REACTION", "REACT_ROLE",
        "REACT_ROLE_CHANNEL", "RSS_SLEEP", "RULES_CHANNEL", "STATE_FILE", "WELCOME_CHANNEL",
    ];
    let env: Vec<(String, String)> = names.iter().map(|n| (n.to_string(), "4".to_string())).collect();
    let mut c = Config::new();
    assert_eq!(load_env(&mut c, &env), Ok(()));
    c
}

fn feed(name: &str, role: u64, msg: u64) -> Feed {
    Feed::new(&config(), name.into(), format!("http://{}", name), role, 100 + role, msg, None)
}

fn sorted(mut v: Vec<u64>) -> Vec<u64> {
    v.sort();
    v
}

#[test]
fn adding_a_feed_records_its_message() {
    let mut s = State::new();
    assert_eq!(s.category(), None);
    s.set_category(42);
    assert_eq!(s.category(), Some(42));
    assert!(s.register_feed("IAC".into(), feed("IAC", 1, 11)).is_none());
    assert_eq!(s.role_for_message(11), Some(1));
    assert!(s.contains_feed(&"IAC".to_string()));
    // adding again replaces the feed; the old message is then forgotten
    let old = s.register_feed("IAC".into(), feed("IAC", 1, 12)).unwrap();
    assert_eq!(old.get_message(), 11);
    s.remove_message(old.get_message());
    assert_eq!(s.role_for_message(11), None);
    assert_eq!(s.role_for_message(12), Some(1));
    assert_eq!(s.get_feed(&"IAC".to_string()).unwrap().get_message(), 12);
}

#[test]
fn removing_a_feed() {
    let mut s = State::new();
    s.register_feed("IAC".into(), feed("IAC", 1, 11));
    s.register_feed("CG".into(), feed("CG", 2, 21));
    let f = s.remove_feed(&"IAC".to_string()).unwrap();
    s.remove_message(f.get_message());
    assert!(!s.contains_feed(&"IAC".to_string()));
    assert!(s.remove_feed(&"IAC".to_string()).is_none());
    assert_eq!(s.role_for_message(11), None);
    assert_eq!(s.role_for_message(21), Some(2));
    assert_eq!(s.get_feeds().len(), 1);
}

#[test]
fn renaming_a_feed() {
    let mut s = State::new();
    s.register_feed("IAC".into(), feed("IAC", 1, 11));
    let f = s.remove_feed(&"IAC".to_string()).unwrap();
    assert!(s.move_feed(f, "IAC2".into(), 13).is_none());
    assert!(!s.contains_feed(&"IAC".to_string()));
    let moved = s.get_feed(&"IAC2".to_string()).unwrap();
    assert_eq!(moved.get_name(), "IAC2");
    assert_eq!(moved.get_message(), 13);
    assert_eq!(moved.get_role(), 1);
    assert_eq!(moved.get_link(), "http://IAC");
    assert_eq!(s.role_for_message(11), None);
    assert_eq!(s.role_for_message(13), Some(1));
}

#[test]
fn importing_known_and_new_feeds() {
    let mut s = State::new();
    s.register_feed("IAC".into(), feed("IAC", 1, 11));
    assert_eq!(s.reimport_feed(&"IAC".to_string(), "http://new".into(), 99, 14), Some((11, 1)));
    assert_eq!(s.reimport_feed(&"NONE".to_string(), "http://new".into(), 99, 14), None);
    let f = s.get_feed(&"IAC".to_string()).unwrap();
    assert_eq!((f.get_link().as_str(), f.get_update(), f.get_message()), ("http://new", 99, 14));
    s.insert_feed("CG".into(), feed("CG", 2, 21));
    s.apply_message_changes(&vec![11], &vec![(14, 1), (21, 2)]);
    assert_eq!(s.role_for_message(11), None);
    assert_eq!(s.role_for_message(14), Some(1));
    assert_eq!(s.role_for_message(21), Some(2));
}

#[test]
fn feeds_simple_and_parts() {
    let mut s = State::new();
    s.register_feed("IAC".into(), feed("IAC", 1, 11));
    s.register_feed("CG".into(), feed("CG", 2, 21));
    let mut simple = s.get_feeds_simple();
    simple.sort();
    assert_eq!(simple, vec![("CG".to_string(), 2), ("IAC".to_string(), 1)]);
    let feeds: Vec<(String, Feed)> = s
        .get_feeds()
        .iter()
        .map(|(n, f)| {
            let (name, link, role, cached, cap, channel, message, updated) = f.to_parts();
            (n.clone(), Feed::from_parts(name, link, role, cached, cap, channel, message, updated).unwrap())
        })
        .collect();
    assert_eq!(s.category(), None);
    let messages = s.get_messages().clone();
    assert_eq!(messages.get(&21), Some(&2));
    let back = State::from_parts(feeds, Some(3), messages).unwrap();
    assert!(back.contains_feed(&"CG".to_string()));
    assert_eq!(back.category(), Some(3));
    assert!(State::from_parts(vec![("A".into(), feed("A", 1, 1)), ("A".into(), feed("A", 2, 2))], None, HashMap::new()).is_none());
}

#[test]
fn splitting_like_str_split() {
    for (s, sep) in [("IAC IEI", ' '), ("", ' '), ("a  b ", ' '), ("x", ' '), ("l1\nl2\n", '\n')] {
        let expected: Vec<String> = s.split(sep).map(|p| p.to_string()).collect();
        assert_eq!(split_on(s, sep), expected);
    }
}

#[test]
fn roles_commands() {
    let feeds = vec![("IAC".to_string(), 1u64), ("IEI".to_string(), 2), ("CG".to_string(), 3)];
    assert_eq!(sorted(roles_to_add("IAC IEI XYZ", &feeds, &vec![2, 9])), vec![1]);
    assert_eq!(sorted(roles_to_add("IEI", &feeds, &vec![2])), Vec::<u64>::new());
    assert_eq!(sorted(requested_roles("IAC  CG IAC", &feeds)), vec![1, 3]);
    assert_eq!(sorted(requested_roles("nothing", &feeds)), Vec::<u64>::new());
    assert_eq!(sorted(roles_to_clear(&vec![3, 9, 1, 3], &feeds)), vec![1, 3]);
    assert_eq!(sorted(roles_to_clear(&vec![9], &feeds)), Vec::<u64>::new());
}

#[test]
fn dump_and_list() {
    let json = "x".repeat(2000);
    let d = dump_messages(&json);
    assert_eq!(d.len(), 2);
    assert_eq!(d[0], format!("```JSON\n{}\n```", "x".repeat(1988)));
    assert_eq!(d[1], format!("```JSON\n{}\n```", "x".repeat(12)));
    assert!(dump_messages("").is_empty());

    let mut s = State::new();
    s.register_feed("IAC".into(), feed("IAC", 1, 11));
    let lines = list_messages(s.get_feeds()).unwrap();
    assert_eq!(lines, vec!["**IAC**: http://IAC\nÚltima atualização: 1970/01/01 00:00:00 UTC\n".to_string()]);
}

#[test]
fn existing_roles_and_channels_are_reused() {
    let names = vec!["Staff".to_string(), "IAC".to_string(), "iac".to_string()];
    assert_eq!(feed_role_among(&names, "IAC"), Some(1));
    assert_eq!(feed_role_among(&names, "CG"), None);
    assert_eq!(feed_channel_among(&names, "IAC"), Some(2));
    assert_eq!(feed_channel_among(&names, "ÁB"), None);
    assert_eq!(feed_channel_among(&vec!["áb".to_string()], "ÁB"), Some(0));
}

#[test]
fn small_command_helpers() {
    assert_eq!(first_by_author(&vec![5, 7, 7], 7), Some(1));
    assert_eq!(first_by_author(&vec![5], 7), None);
    assert_eq!(Commands::names(), vec!["announce", "say"]);
}

#[test]
fn reactions_decide_roles_and_pins() {
    let mut s = State::new();
    s.register_feed("IAC".into(), feed("IAC", 1, 11));
    let hand = Some("✋".to_string());
    let pin = Some("📌".to_string());
    assert_eq!(reaction_added(&s, &hand, 11, "✋", "📌"), ReactionAction::GiveRole(1));
    assert_eq!(reaction_added(&s, &hand, 12, "✋", "📌"), ReactionAction::Nothing);
    assert_eq!(reaction_added(&s, &pin, 11, "✋", "📌"), ReactionAction::CheckPin);
    assert_eq!(reaction_added(&s, &None, 11, "✋", "📌"), ReactionAction::Nothing);
    assert_eq!(reaction_removed(&s, &hand, 11, "✋"), Some(1));
    assert_eq!(reaction_removed(&s, &pin, 11, "✋"), None);
    assert!(should_pin(3, 3));
    assert!(!should_pin(2, 3));
    assert!(dm_refused("Cannot send messages to this user"));
    assert!(!dm_refused("Missing Access"));
    assert!(is_unknown_role("Unknown Role"));
    assert!(!is_unknown_role("Unknown Member"));
}

#[test]
fn broadcast_bookkeeping() {
    assert_eq!(ErrorMessage::Unauthenticated.get_message(), "Sender is not authenticated");
    let mut n = Network::new(vec!["a".into(), "b".into(), "c".into(), "a".into()]);
    assert!(!n.can_deliver(Protocol::Test));
    n.receive(Protocol::Test, "a".into()); // first acknowledgement: kept pending
    assert!(!n.can_deliver(Protocol::Test));
    n.receive(Protocol::Test, "b".into()); // a new one: 2 of 3 peers
    assert!(n.can_deliver(Protocol::Test));
    n.receive(Protocol::Test, "b".into()); // repeated
    assert!(n.can_deliver(Protocol::Test));
}

#[test]
fn command_refusals() {
    assert_eq!(add_refusal(1, false, Some(3)).as_deref(), Some("Need a feed name and link"));
    assert_eq!(add_refusal(2, false, Some(3)).as_deref(), Some("Link de feed inválido"));
    assert_eq!(add_refusal(2, true, None).as_deref(), Some("Nenhuma categoria selecionada"));
    assert_eq!(add_refusal(2, true, Some(3)), None);
    assert_eq!(import_refusal(false, false, None).as_deref(), Some("Need the json to import"));
    assert_eq!(import_refusal(true, false, Some(1)).as_deref(), Some("JSON inválido"));
    assert_eq!(import_refusal(true, true, None).as_deref(), Some("Nenhuma categoria selecionada"));
    assert_eq!(import_refusal(true, true, Some(1)), None);
    assert_eq!(mv_refusal(3, true).as_deref(), Some("Need the old name and a new name"));
    assert_eq!(mv_refusal(2, false).as_deref(), Some("Feed inexistente"));
    assert_eq!(mv_refusal(2, true), None);
    assert_eq!(rm_refusal(0, true).as_deref(), Some("Need a feed name"));
    assert_eq!(rm_refusal(1, false).as_deref(), Some("Feed inexistente"));
    assert_eq!(rm_refusal(1, true), None);
    assert_eq!(
        category_reply("1234567890"),
        Ok((1234567890, "Category changed successfully".to_string()))
    );
    assert_eq!(category_reply("12a"), Err("Couldn't parse category id".to_string()));
    assert_eq!(broadcast_refusal(true), None);
    assert_eq!(broadcast_refusal(false), Some(ErrorMessage::Unauthenticated.get_message()));
    assert_eq!(broadcast_refusal(false).as_deref(), Some("Sender is not authenticated"));
}
