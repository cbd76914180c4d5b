//! Texts of the messages that the bot posts.

use vstd::prelude::*;

verus! {

broadcast use vstd::seq_lib::group_seq_properties;

pub open spec fn digit_char(d: nat) -> char {
    if d == 0 {
        '0'
    } else if d == 1 {
        '1'
    } else if d == 2 {
        '2'
    } else if d == 3 {
        '3'
    } else if d == 4 {
        '4'
    } else if d == 5 {
        '5'
    } else if d == 6 {
        '6'
    } else if d == 7 {
        '7'
    } else if d == 8 {
        '8'
    } else {
        '9'
    }
}

/// The decimal digits of a number, without leading zeros, as `Display` writes it.
pub open spec fn decimal_text(n: nat) -> Seq<char>
    decreases n,
{
    if n < 10 {
        seq![digit_char(n)]
    } else {
        decimal_text(n / 10).push(digit_char(n % 10))
    }
}

fn digit_str(d: u64) -> (s: &'static str)
    requires
        d < 10,
    ensures
        s@ == seq![digit_char(d as nat)],
{
    proof {
        reveal_strlit("0");
        reveal_strlit("1");
        reveal_strlit("2");
        reveal_strlit("3");
        reveal_strlit("4");
        reveal_strlit("5");
        reveal_strlit("6");
        reveal_strlit("7");
        reveal_strlit("8");
        reveal_strlit("9");
    }
    if d == 0 {
        "0"
    } else if d == 1 {
        "1"
    } else if d == 2 {
        "2"
    } else if d == 3 {
        "3"
    } else if d == 4 {
        "4"
    } else if d == 5 {
        "5"
    } else if d == 6 {
        "6"
    } else if d == 7 {
        "7"
    } else if d == 8 {
        "8"
    } else {
        "9"
    }
}

/// A number in decimal, as `u64`'s `Display` writes it.
pub fn decimal(n: u64) -> (r: String)
    ensures
        r@ == decimal_text(n as nat),
{
    let mut rest = n;
    let mut out = String::new();
    assert(decimal_text(n as nat) =~= decimal_text(rest as nat) + out@);
    loop
        invariant
            decimal_text(n as nat) == decimal_text(rest as nat) + out@,
        decreases rest,
    {
        let d = rest % 10;
        let piece = String::from_str(digit_str(d));
        let ghost before = out@;
        out = piece.concat(out.as_str());
        proof {
            assert(out@ == seq![digit_char(d as nat)] + before);
        }
        if rest < 10 {
            proof {
                assert(decimal_text(rest as nat) == seq![digit_char(rest as nat)]);
                assert(out@ =~= decimal_text(rest as nat) + before);
            }
            return out;
        }
        proof {
            assert(decimal_text(rest as nat) == decimal_text((rest / 10) as nat).push(digit_char(d as nat)));
            assert(decimal_text((rest / 10) as nat).push(digit_char(d as nat)) + before =~= decimal_text(
                (rest / 10) as nat,
            ) + out@);
        }
        rest = rest / 10;
    }
}

proof fn lemma_decimal_text_value(n: nat)
    ensures
        crate::text::all_digits(decimal_text(n)),
        crate::text::decimal_value(decimal_text(n)) == n,
        decimal_text(n).len() > 0,
        decimal_text(n)[0] != '+',
    decreases n,
{
    let d = (n % 10) as nat;
    assert(crate::text::is_digit(digit_char(d)) && crate::text::digit_value(digit_char(d)) == d);
    if n >= 10 {
        lemma_decimal_text_value(n / 10);
        let s = decimal_text(n / 10);
        assert(s.push(digit_char(d)).drop_last() =~= s);
        assert(s.push(digit_char(d))[0] == s[0]);
        assert(n == 10 * (n / 10) + n % 10);
        assert forall|i: int| 0 <= i < s.push(digit_char(d)).len() implies crate::text::is_digit(
            #[trigger] s.push(digit_char(d))[i],
        ) by {
            if i < s.len() {
                assert(s.push(digit_char(d))[i] == s[i]);
            }
        }
    } else {
        assert(seq![digit_char(d)].drop_last() =~= Seq::<char>::empty());
        assert(crate::text::decimal_value(Seq::<char>::empty()) == 0);
    }
}

/// Reading back a number written in decimal gives the number.
pub proof fn law_parse_decimal(n: u64)
    ensures
        crate::text::spec_parse_u64(decimal_text(n as nat)) == Some(n),
{
    lemma_decimal_text_value(n as nat);
}

/// How Discord mentions a role.
pub open spec fn spec_role_mention(id: u64) -> Seq<char> {
    "<@&"@ + decimal_text(id as nat) + ">"@
}

/// How Discord mentions a channel.
pub open spec fn spec_channel_mention(id: u64) -> Seq<char> {
    "<#"@ + decimal_text(id as nat) + ">"@
}

/// How Discord mentions a user.
pub open spec fn spec_user_mention(id: u64) -> Seq<char> {
    "<@"@ + decimal_text(id as nat) + ">"@
}

pub fn role_mention(id: u64) -> (r: String)
    ensures
        r@ == spec_role_mention(id),
{
    String::from_str("<@&").concat(decimal(id).as_str()).concat(">")
}

pub fn channel_mention(id: u64) -> (r: String)
    ensures
        r@ == spec_channel_mention(id),
{
    String::from_str("<#").concat(decimal(id).as_str()).concat(">")
}

pub fn user_mention(id: u64) -> (r: String)
    ensures
        r@ == spec_user_mention(id),
{
    String::from_str("<@").concat(decimal(id).as_str()).concat(">")
}

/// A line in bold, made safe by `serenity`: invite links, direction marks
/// and mass mentions defused, and inner `**` removed.
pub uninterp spec fn bold_line_safe_of(text: Seq<char>) -> Seq<char>;

/// Calls `serenity::utils::MessageBuilder::push_bold_line_safe` on an empty
/// builder and returns the text built. What the normalisation does is named,
/// not stated.
#[verifier::external_body]
fn bold_line_safe(text: &str) -> (r: String)
    ensures
        r@ == bold_line_safe_of(text@),
{
    serenity::utils::MessageBuilder::new().push_bold_line_safe(text).build()
}

/// The text of an announcement: a mention of the feed's role, then its title
/// in bold on a line of its own.
pub open spec fn spec_announcement_content(role: u64, title: Seq<char>) -> Seq<char> {
    spec_role_mention(role) + "\n"@ + bold_line_safe_of(title)
}

pub fn announcement_content(role: u64, title: &str) -> (r: String)
    ensures
        r@ == spec_announcement_content(role, title@),
{
    role_mention(role).concat("\n").concat(bold_line_safe(title).as_str())
}

/// Title of the message on which members react to follow a feed.
pub open spec fn spec_reaction_role_title(name: Seq<char>) -> Seq<char> {
    "["@ + name + "] Cadeira disponível / Course available"@
}

pub fn reaction_role_title(name: &str) -> (r: String)
    ensures
        r@ == spec_reaction_role_title(name@),
{
    String::from_str("[").concat(name).concat("] Cadeira disponível / Course available")
}

/// The text of the message on which members react with `reaction` to get the
/// role of feed `name` and access to its channel, in Portuguese and English.
pub open spec fn spec_reaction_role_text(name: Seq<char>, reaction: Seq<char>, role: u64, channel: u64) -> Seq<
    char,
> {
    "**[PT]**\n"@ + "\n"@ + "Se vais fazer a cadeira "@ + "**"@ + name + "**"@ + " reage com "@ + reaction
        + " para teres acesso ao role "@ + spec_role_mention(role) + ", ao canal "@
        + spec_channel_mention(channel) + " e receberes notificações de anúncios\n"@
        + "Para remover tudo isto só precisas de remover a reação\n"@ + "\n"@ + "\n"@ + "**[EN]**\n"@
        + "\n"@ + "If you are enrolling in "@ + "**"@ + name + "**"@ + " react with "@ + reaction
        + " to get access to the role "@ + spec_role_mention(role) + ", the channel "@
        + spec_channel_mention(channel) + " and to receive announcements' notifications\n"@
        + "To quit all of this, just remove the reaction"@
}

pub fn reaction_role_text(name: &str, reaction: &str, role: u64, channel: u64) -> (r: String)
    ensures
        r@ == spec_reaction_role_text(name@, reaction@, role, channel),
{
    let role_m = role_mention(role);
    let channel_m = channel_mention(channel);
    String::from_str("**[PT]**\n").concat("\n").concat("Se vais fazer a cadeira ").concat("**").concat(
        name,
    ).concat("**").concat(" reage com ").concat(reaction).concat(" para teres acesso ao role ").concat(
        role_m.as_str(),
    ).concat(", ao canal ").concat(channel_m.as_str()).concat(
        " e receberes notificações de anúncios\n",
    ).concat("Para remover tudo isto só precisas de remover a reação\n").concat("\n").concat(
        "\n",
    ).concat("**[EN]**\n").concat("\n").concat("If you are enrolling in ").concat("**").concat(
        name,
    ).concat("**").concat(" react with ").concat(reaction).concat(
        " to get access to the role ",
    ).concat(role_m.as_str()).concat(", the channel ").concat(channel_m.as_str()).concat(
        " and to receive announcements' notifications\n",
    ).concat("To quit all of this, just remove the reaction")
}

/// The note posted in the welcome channel for a new member who does not
/// accept direct messages.
pub open spec fn spec_welcome_fallback(member: u64, rules_channel: u64) -> Seq<char> {
    "Hey "@ + spec_user_mention(member) + "!\nCheck channel "@ + spec_channel_mention(rules_channel)
}

pub fn welcome_fallback(member: u64, rules_channel: u64) -> (r: String)
    ensures
        r@ == spec_welcome_fallback(member, rules_channel),
{
    String::from_str("Hey ").concat(user_mention(member).as_str()).concat("!\nCheck channel ").concat(
        channel_mention(rules_channel).as_str(),
    )
}

/// The greeting of the `announce` command (`anunciar` has no space before
/// the mention).
pub open spec fn spec_insult(user: u64, spaced: bool) -> Seq<char> {
    (if spaced {
        "Vai pó caralho "@
    } else {
        "Vai pó caralho"@
    }) + spec_user_mention(user)
}

pub fn insult(user: u64, spaced: bool) -> (r: String)
    ensures
        r@ == spec_insult(user, spaced),
{
    let head = if spaced {
        String::from_str("Vai pó caralho ")
    } else {
        String::from_str("Vai pó caralho")
    };
    head.concat(user_mention(user).as_str())
}

/// The reply to a renamed feed.
pub open spec fn spec_renamed_text(old_name: Seq<char>, new_name: Seq<char>) -> Seq<char> {
    "Feed "@ + old_name + " renomeado para "@ + new_name + " com sucesso"@
}

pub fn renamed_text(old_name: &str, new_name: &str) -> (r: String)
    ensures
        r@ == spec_renamed_text(old_name@, new_name@),
{
    String::from_str("Feed ").concat(old_name).concat(" renomeado para ").concat(new_name).concat(
        " com sucesso",
    )
}

/// The reply to a removed feed.
pub open spec fn spec_removed_text(name: Seq<char>) -> Seq<char> {
    "Feed "@ + name + " removido com sucesso"@
}

pub fn removed_text(name: &str) -> (r: String)
    ensures
        r@ == spec_removed_text(name@),
{
    String::from_str("Feed ").concat(name).concat(" removido com sucesso")
}

/// The reply for the `i`-th (from zero) of `total` errors of a feed update.
pub open spec fn spec_update_error_text(i: nat, total: nat, feed: Seq<char>, error: Seq<char>) -> Seq<char> {
    "Erro "@ + decimal_text(i + 1) + "/"@ + decimal_text(total) + " a atualizar feed "@ + feed + ":\n"@
        + error
}

pub fn update_error_text(i: usize, total: usize, feed: &str, error: &str) -> (r: String)
    requires
        i < total,
    ensures
        r@ == spec_update_error_text(i as nat, total as nat, feed@, error@),
{
    String::from_str("Erro ").concat(decimal((i + 1) as u64).as_str()).concat("/").concat(
        decimal(total as u64).as_str(),
    ).concat(" a atualizar feed ").concat(feed).concat(":\n").concat(error)
}

} // verus!
