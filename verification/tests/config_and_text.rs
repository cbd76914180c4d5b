use trigobot::env::{
    get_error, get_var, get_var_name, get_var_u64, get_var_usize, load_env, rss_sleep_seconds,
    variable_at, Config, Variables,
};
use trigobot::text::{byte_length, chunk_chars, pack_messages, parse_u64, parse_usize, prune_msg};

fn full_env() -> Vec<(String, String)> {
    let names = [
        "ANNOUNCEMENT_ICON",
        "ANNOUNCEMENTS",
        "CACHE_ENTRIES",
        "COMMAND_PREFIX",
        "DELEGATE_ROLE",
        "DISCORD_TOKEN",
        "PEERS_FILE",
        "PIN_MIN_REACTIONS",
        "PIN_REACTION",
        "REACT_ROLE",
        "REACT_ROLE_CHANNEL",
        "RSS_SLEEP",
        "RULES_CHANNEL",
        "STATE_FILE",
        "WELCOME_CHANNEL",
    ];
    names
        .iter()
        .map(|n| (n.to_string(), format!("value-of-{}", n)))
        .collect()
}

fn set(env: &mut Vec<(String, String)>, name: &str, value: &str) {
    for e in env.iter_mut() {
        if e.0 == name {
            e.1 = value.to_string();
        }
    }
}

#[test]
fn variable_names_match_the_environment() {
    assert_eq!(get_var_name(Variables::AnnouncementsChannel), "ANNOUNCEMENTS");
    assert_eq!(get_var_name(Variables::DomainsFile), "PEERS_FILE");
    assert_eq!(get_var_name(Variables::ReactionRole), "REACT_ROLE");
    assert_eq!(get_var_name(Variables::WelcomeChannel), "WELCOME_CHANNEL");
    for i in 0..15 {
        let v = variable_at(i);
        assert_eq!(trigobot::env::variable_index(v), i);
    }
}

#[test]
fn error_messages_name_the_variable() {
    assert_eq!(
        get_error(Variables::DiscordToken),
        "No Discord token found!\nSet env var DISCORD_TOKEN with the token"
    );
    assert_eq!(
        get_error(Variables::DelegateRole),
        "No delegate role defined|\nSet env var DELEGATE_ROLE, with the id of the role"
    );
    assert_eq!(
        get_error(Variables::CacheEntries),
        "No number of cache entries defined!\nSet env var CACHE_ENTRIES with an appropriate value"
    );
}

#[test]
fn every_error_message_is_its_own() {
    for i in 0..15 {
        let v = variable_at(i);
        let line = format!("\nSet env var {}", get_var_name(v));
        assert!(get_error(v).contains(&line));
        for j in 0..15 {
            if i != j {
                assert_ne!(get_error(v), get_error(variable_at(j)));
            }
        }
    }
}

#[test]
fn load_then_get_gives_back_the_environment() {
    let mut config = Config::new();
    let mut env = full_env();
    set(&mut env, "COMMAND_PREFIX", "$$$");
    env.push(("COMMAND_PREFIX".to_string(), "shadowed".to_string()));
    env.push(("OTHER".to_string(), "x".to_string()));
    assert_eq!(load_env(&mut config, &env), Ok(()));
    assert_eq!(get_var(&config, Variables::CommandPrefix), "$$$");
    assert_eq!(get_var(&config, Variables::StateFile), "value-of-STATE_FILE");
}

#[test]
fn load_reports_the_first_missing_variable() {
    let mut config = Config::new();
    let env = full_env();
    assert_eq!(load_env(&mut config, &env), Ok(()));
    let partial: Vec<(String, String)> = env
        .iter()
        .filter(|(n, _)| n != "PIN_REACTION" && n != "RULES_CHANNEL")
        .cloned()
        .collect();
    assert_eq!(load_env(&mut config, &partial), Err(Variables::PinReaction));
    // the earlier configuration stays
    assert_eq!(get_var(&config, Variables::PinReaction), "value-of-PIN_REACTION");
    let mut fresh = Config::new();
    assert_eq!(load_env(&mut fresh, &Vec::new()), Err(Variables::AnnouncementIcon));
}

#[test]
fn numeric_settings() {
    let mut config = Config::new();
    let mut env = full_env();
    set(&mut env, "RSS_SLEEP", "5");
    set(&mut env, "CACHE_ENTRIES", "+12");
    set(&mut env, "ANNOUNCEMENTS", "123456789012345678");
    assert_eq!(load_env(&mut config, &env), Ok(()));
    assert_eq!(rss_sleep_seconds(&config), Some(300));
    assert_eq!(get_var_usize(&config, Variables::CacheEntries), Some(12));
    assert_eq!(get_var_u64(&config, Variables::AnnouncementsChannel), Some(123456789012345678));
    assert_eq!(get_var_u64(&config, Variables::DiscordToken), None);

    set(&mut env, "RSS_SLEEP", "307445734561825861");
    assert_eq!(load_env(&mut config, &env), Ok(()));
    assert_eq!(rss_sleep_seconds(&config), None);
    set(&mut env, "RSS_SLEEP", "307445734561825860");
    assert_eq!(load_env(&mut config, &env), Ok(()));
    assert_eq!(rss_sleep_seconds(&config), Some(18446744073709551600));
}

#[test]
fn parse_like_the_standard_library() {
    for s in ["0", "7", "+7", "007", "18446744073709551615", "", "+", "-1", "1 ", " 1", "12a", "18446744073709551616", "99999999999999999999", "٣"] {
        assert_eq!(parse_u64(s), s.parse::<u64>().ok(), "input {:?}", s);
        assert_eq!(parse_usize(s), s.parse::<usize>().ok(), "input {:?}", s);
    }
}

#[test]
fn prune_keeps_the_first_characters() {
    assert_eq!(prune_msg("héllo", 2), "hé");
    assert_eq!(prune_msg("abc", 10), "abc");
    assert_eq!(prune_msg("abc", 3), "abc");
}

#[test]
fn chunks_cover_the_text() {
    assert_eq!(chunk_chars("abcdefg", 3), vec!["abc", "def", "g"]);
    assert_eq!(chunk_chars("abcdef", 3), vec!["abc", "def"]);
    assert_eq!(chunk_chars("", 3), Vec::<String>::new());
    assert_eq!(chunk_chars("ééé", 2), vec!["éé", "é"]);
}

#[test]
fn packing_joins_lines_up_to_the_limit() {
    let parts: Vec<String> = vec!["aaaa".into(), "bb".into(), "ccc".into(), "d".into()];
    assert_eq!(pack_messages(&parts, 6), vec!["aaaabb", "cccd"]);
    // a part longer than the limit starts with the (empty) message being filled
    let parts: Vec<String> = vec!["toolong".into(), "x".into()];
    assert_eq!(pack_messages(&parts, 3), vec!["", "toolong", "x"]);
    // bytes, not characters, count
    let parts: Vec<String> = vec!["éé".into(), "é".into()];
    assert_eq!(pack_messages(&parts, 5), vec!["éé", "é"]);
    assert_eq!(pack_messages(&Vec::new(), 5), Vec::<String>::new());
    let parts: Vec<String> = vec!["".into(), "".into()];
    assert_eq!(pack_messages(&parts, 5), Vec::<String>::new());
}

#[test]
fn byte_length_counts_utf8_bytes() {
    assert_eq!(byte_length("abc"), 3);
    assert_eq!(byte_length("é"), 2);
    assert_eq!(byte_length("€"), 3);
    assert_eq!(byte_length("😀"), 4);
}
