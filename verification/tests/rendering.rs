use serenity::model::id::{ChannelId, RoleId, UserId};
use serenity::utils::MessageBuilder;

use trigobot::render::{
    announcement_content, channel_mention, decimal, insult, reaction_role_text, reaction_role_title,
    removed_text, renamed_text, role_mention, update_error_text, user_mention, welcome_fallback,
};
use trigobot::text::parse_u64;

#[test]
fn decimal_matches_display() {
    for n in [0u64, 7, 10, 99, 100, 1234567890, 804703285487222814, u64::MAX] {
        assert_eq!(decimal(n), n.to_string());
        assert_eq!(parse_u64(&decimal(n)), Some(n));
    }
}

#[test]
fn mentions_match_serenity() {
    assert_eq!(role_mention(5), MessageBuilder::new().mention(&RoleId(5)).build());
    assert_eq!(channel_mention(77), MessageBuilder::new().mention(&ChannelId(77)).build());
    assert_eq!(user_mention(123), MessageBuilder::new().mention(&UserId(123)).build());
}

#[test]
fn announcement_content_matches_serenity() {
    for title in ["Exam **today**", "see discord.gg/x @everyone", "plain"] {
        let expected = MessageBuilder::new()
            .mention(&RoleId(42))
            .push_line("")
            .push_bold_line_safe(title)
            .build();
        assert_eq!(announcement_content(42, title), expected);
    }
    // the unsafe parts are defused
    assert_ne!(announcement_content(42, "@everyone"), "<@&42>\n**@everyone**\n");
}

#[test]
fn reaction_role_message_matches_serenity() {
    let name = "IAC";
    let reaction = "✋";
    let role = RoleId(11);
    let channel = ChannelId(22);
    let expected = MessageBuilder::new()
        .push_bold_line("[PT]")
        .push_line("")
        .push("Se vais fazer a cadeira ")
        .push_bold(name)
        .push(" reage com ")
        .push(reaction)
        .push(" para teres acesso ao role ")
        .mention(&role)
        .push(", ao canal ")
        .mention(&channel)
        .push_line(" e receberes notificações de anúncios")
        .push_line("Para remover tudo isto só precisas de remover a reação")
        .push_line("")
        .push_line("")
        .push_bold_line("[EN]")
        .push_line("")
        .push("If you are enrolling in ")
        .push_bold(name)
        .push(" react with ")
        .push(reaction)
        .push(" to get access to the role ")
        .mention(&role)
        .push(", the channel ")
        .mention(&channel)
        .push_line(" and to receive announcements' notifications")
        .push("To quit all of this, just remove the reaction")
        .build();
    assert_eq!(reaction_role_text(name, reaction, 11, 22), expected);
    assert_eq!(reaction_role_title(name), "[IAC] Cadeira disponível / Course available");
}

#[test]
fn welcome_fallback_matches_serenity() {
    let expected = MessageBuilder::new()
        .push("Hey ")
        .mention(&UserId(9))
        .push("!\nCheck channel ")
        .channel(ChannelId(3))
        .build();
    assert_eq!(welcome_fallback(9, 3), expected);
}

#[test]
fn insult_matches_serenity() {
    let spaced = MessageBuilder::new().push("Vai pó caralho ").mention(&UserId(31)).build();
    let tight = MessageBuilder::new().push("Vai pó caralho").mention(&UserId(31)).build();
    assert_eq!(insult(31, true), spaced);
    assert_eq!(insult(31, false), tight);
    assert_eq!(insult(31, false), "Vai pó caralho<@31>");
}

#[test]
fn feed_replies() {
    assert_eq!(renamed_text("ES", "ESof"), "Feed ES renomeado para ESof com sucesso");
    assert_eq!(removed_text("PF"), "Feed PF removido com sucesso");
}

#[test]
fn update_error_counts_from_one() {
    assert_eq!(
        update_error_text(0, 3, "IA", "timeout"),
        format!("Erro {}/{} a atualizar feed {}:\n{}", 1, 3, "IA", "timeout")
    );
    assert_eq!(update_error_text(11, 12, "X", ""), "Erro 12/12 a atualizar feed X:\n");
}
