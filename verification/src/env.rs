//! Configuration variables read from the environment.

use vstd::prelude::*;

verus! {

/// Variables that can be used
#[derive(Clone, Copy, PartialEq, Eq, Structural, Hash, Debug)]
pub enum Variables {
    AnnouncementIcon,
    AnnouncementsChannel,
    CacheEntries,
    CommandPrefix,
    DelegateRole,
    DiscordToken,
    DomainsFile,
    PinMinReactions,
    PinReaction,
    ReactionRole,
    ReactionRolesChannel,
    RssSleep,
    RulesChannel,
    StateFile,
    WelcomeChannel,
}

/// Number of configuration variables.
pub const NUM_VARIABLES: usize = 15;

/// Position of a variable in declaration order.
pub open spec fn spec_index(var: Variables) -> int {
    match var {
        Variables::AnnouncementIcon => 0,
        Variables::AnnouncementsChannel => 1,
        Variables::CacheEntries => 2,
        Variables::CommandPrefix => 3,
        Variables::DelegateRole => 4,
        Variables::DiscordToken => 5,
        Variables::DomainsFile => 6,
        Variables::PinMinReactions => 7,
        Variables::PinReaction => 8,
        Variables::ReactionRole => 9,
        Variables::ReactionRolesChannel => 10,
        Variables::RssSleep => 11,
        Variables::RulesChannel => 12,
        Variables::StateFile => 13,
        Variables::WelcomeChannel => 14,
    }
}

/// The variable at a position in declaration order.
pub open spec fn spec_variable_at(i: int) -> Variables {
    if i == 0 {
        Variables::AnnouncementIcon
    } else if i == 1 {
        Variables::AnnouncementsChannel
    } else if i == 2 {
        Variables::CacheEntries
    } else if i == 3 {
        Variables::CommandPrefix
    } else if i == 4 {
        Variables::DelegateRole
    } else if i == 5 {
        Variables::DiscordToken
    } else if i == 6 {
        Variables::DomainsFile
    } else if i == 7 {
        Variables::PinMinReactions
    } else if i == 8 {
        Variables::PinReaction
    } else if i == 9 {
        Variables::ReactionRole
    } else if i == 10 {
        Variables::ReactionRolesChannel
    } else if i == 11 {
        Variables::RssSleep
    } else if i == 12 {
        Variables::RulesChannel
    } else if i == 13 {
        Variables::StateFile
    } else {
        Variables::WelcomeChannel
    }
}

/// Declaration order is a bijection between variables and `0..NUM_VARIABLES`.
pub proof fn lemma_index_bijection(var: Variables, i: int)
    ensures
        0 <= spec_index(var) < NUM_VARIABLES,
        spec_variable_at(spec_index(var)) == var,
        0 <= i < NUM_VARIABLES ==> spec_index(spec_variable_at(i)) == i,
{
}

/// Position of a variable in declaration order.
pub fn variable_index(var: Variables) -> (i: usize)
    ensures
        i == spec_index(var),
        i < NUM_VARIABLES,
{
    match var {
        Variables::AnnouncementIcon => 0,
        Variables::AnnouncementsChannel => 1,
        Variables::CacheEntries => 2,
        Variables::CommandPrefix => 3,
        Variables::DelegateRole => 4,
        Variables::DiscordToken => 5,
        Variables::DomainsFile => 6,
        Variables::PinMinReactions => 7,
        Variables::PinReaction => 8,
        Variables::ReactionRole => 9,
        Variables::ReactionRolesChannel => 10,
        Variables::RssSleep => 11,
        Variables::RulesChannel => 12,
        Variables::StateFile => 13,
        Variables::WelcomeChannel => 14,
    }
}

/// The variable at position `i` in declaration order.
pub fn variable_at(i: usize) -> (var: Variables)
    requires
        i < NUM_VARIABLES,
    ensures
        var == spec_variable_at(i as int),
        spec_index(var) == i,
{
    if i == 0 {
        Variables::AnnouncementIcon
    } else if i == 1 {
        Variables::AnnouncementsChannel
    } else if i == 2 {
        Variables::CacheEntries
    } else if i == 3 {
        Variables::CommandPrefix
    } else if i == 4 {
        Variables::DelegateRole
    } else if i == 5 {
        Variables::DiscordToken
    } else if i == 6 {
        Variables::DomainsFile
    } else if i == 7 {
        Variables::PinMinReactions
    } else if i == 8 {
        Variables::PinReaction
    } else if i == 9 {
        Variables::ReactionRole
    } else if i == 10 {
        Variables::ReactionRolesChannel
    } else if i == 11 {
        Variables::RssSleep
    } else if i == 12 {
        Variables::RulesChannel
    } else if i == 13 {
        Variables::StateFile
    } else {
        Variables::WelcomeChannel
    }
}

/// The name of the environment variable that holds a configuration variable.
pub open spec fn spec_var_name(var: Variables) -> Seq<char> {
    match var {
        Variables::AnnouncementIcon => "ANNOUNCEMENT_ICON"@,
        Variables::AnnouncementsChannel => "ANNOUNCEMENTS"@,
        Variables::CacheEntries => "CACHE_ENTRIES"@,
        Variables::CommandPrefix => "COMMAND_PREFIX"@,
        Variables::DelegateRole => "DELEGATE_ROLE"@,
        Variables::DiscordToken => "DISCORD_TOKEN"@,
        Variables::DomainsFile => "PEERS_FILE"@,
        Variables::PinMinReactions => "PIN_MIN_REACTIONS"@,
        Variables::PinReaction => "PIN_REACTION"@,
        Variables::ReactionRole => "REACT_ROLE"@,
        Variables::ReactionRolesChannel => "REACT_ROLE_CHANNEL"@,
        Variables::RssSleep => "RSS_SLEEP"@,
        Variables::RulesChannel => "RULES_CHANNEL"@,
        Variables::StateFile => "STATE_FILE"@,
        Variables::WelcomeChannel => "WELCOME_CHANNEL"@,
    }
}

/// The name of the environment variable that holds `var`.
pub fn get_var_name(var: Variables) -> (name: &'static str)
    ensures
        name@ == spec_var_name(var),
{
    match var {
        Variables::AnnouncementIcon => "ANNOUNCEMENT_ICON",
        Variables::AnnouncementsChannel => "ANNOUNCEMENTS",
        Variables::CacheEntries => "CACHE_ENTRIES",
        Variables::CommandPrefix => "COMMAND_PREFIX",
        Variables::DelegateRole => "DELEGATE_ROLE",
        Variables::DiscordToken => "DISCORD_TOKEN",
        Variables::DomainsFile => "PEERS_FILE",
        Variables::PinMinReactions => "PIN_MIN_REACTIONS",
        Variables::PinReaction => "PIN_REACTION",
        Variables::ReactionRole => "REACT_ROLE",
        Variables::ReactionRolesChannel => "REACT_ROLE_CHANNEL",
        Variables::RssSleep => "RSS_SLEEP",
        Variables::RulesChannel => "RULES_CHANNEL",
        Variables::StateFile => "STATE_FILE",
        Variables::WelcomeChannel => "WELCOME_CHANNEL",
    }
}

/// Text of the missing-variable message that comes before the variable's name.
pub open spec fn spec_error_head(var: Variables) -> Seq<char> {
    match var {
        Variables::AnnouncementIcon => "No announcement icon defined!\nSet env var "@,
        Variables::AnnouncementsChannel => "No announcements channel defined!\nSet env var "@,
        Variables::CacheEntries => "No number of cache entries defined!\nSet env var "@,
        Variables::CommandPrefix => "No command prefix defined!\nSet env var "@,
        Variables::DelegateRole => "No delegate role defined|\nSet env var "@,
        Variables::DiscordToken => "No Discord token found!\nSet env var "@,
        Variables::DomainsFile => "Unknown domains file!\nSet env var "@,
        Variables::PinMinReactions => "Unknown minimum number of reactions to pin message!\nSet env var "@,
        Variables::PinReaction => "No pin reaction defined!\nSet env var "@,
        Variables::ReactionRole => "No reaction defined for roles!\nSet env var "@,
        Variables::ReactionRolesChannel => "No reaction roles channel defined!\nSet env var "@,
        Variables::RssSleep => "No RSS sleep time defined!\nSet env var "@,
        Variables::RulesChannel => "No rules channel defined!\nSet env var "@,
        Variables::StateFile => "Unknown state file!\nSet env var "@,
        Variables::WelcomeChannel => "No welcome channel defined!\nSet env var "@,
    }
}

/// Text of the missing-variable message that comes after the variable's name.
pub open spec fn spec_error_tail(var: Variables) -> Seq<char> {
    match var {
        Variables::AnnouncementIcon => " with a link to the image"@,
        Variables::AnnouncementsChannel => " with the Discord channel id"@,
        Variables::CacheEntries => " with an appropriate value"@,
        Variables::CommandPrefix => " with the prefix"@,
        Variables::DelegateRole => ", with the id of the role"@,
        Variables::DiscordToken => " with the token"@,
        Variables::DomainsFile => " with the path to the appropriate file"@,
        Variables::PinMinReactions => " with the chosen value"@,
        Variables::PinReaction => " with the chosen reaction"@,
        Variables::ReactionRole => " with the chosen reaction"@,
        Variables::ReactionRolesChannel => " with the id of the channel"@,
        Variables::RssSleep => " with the appropriate value"@,
        Variables::RulesChannel => " with the id of the channel"@,
        Variables::StateFile => " with the path to the appropriate file"@,
        Variables::WelcomeChannel => " with the id of the channel"@,
    }
}

/// The message reported when `var` is not defined.
pub open spec fn spec_error(var: Variables) -> Seq<char> {
    spec_error_head(var) + spec_var_name(var) + spec_error_tail(var)
}

fn error_head(var: Variables) -> (s: &'static str)
    ensures
        s@ == spec_error_head(var),
{
    match var {
        Variables::AnnouncementIcon => "No announcement icon defined!\nSet env var ",
        Variables::AnnouncementsChannel => "No announcements channel defined!\nSet env var ",
        Variables::CacheEntries => "No number of cache entries defined!\nSet env var ",
        Variables::CommandPrefix => "No command prefix defined!\nSet env var ",
        Variables::DelegateRole => "No delegate role defined|\nSet env var ",
        Variables::DiscordToken => "No Discord token found!\nSet env var ",
        Variables::DomainsFile => "Unknown domains file!\nSet env var ",
        Variables::PinMinReactions => "Unknown minimum number of reactions to pin message!\nSet env var ",
        Variables::PinReaction => "No pin reaction defined!\nSet env var ",
        Variables::ReactionRole => "No reaction defined for roles!\nSet env var ",
        Variables::ReactionRolesChannel => "No reaction roles channel defined!\nSet env var ",
        Variables::RssSleep => "No RSS sleep time defined!\nSet env var ",
        Variables::RulesChannel => "No rules channel defined!\nSet env var ",
        Variables::StateFile => "Unknown state file!\nSet env var ",
        Variables::WelcomeChannel => "No welcome channel defined!\nSet env var ",
    }
}

fn error_tail(var: Variables) -> (s: &'static str)
    ensures
        s@ == spec_error_tail(var),
{
    match var {
        Variables::AnnouncementIcon => " with a link to the image",
        Variables::AnnouncementsChannel => " with the Discord channel id",
        Variables::CacheEntries => " with an appropriate value",
        Variables::CommandPrefix => " with the prefix",
        Variables::DelegateRole => ", with the id of the role",
        Variables::DiscordToken => " with the token",
        Variables::DomainsFile => " with the path to the appropriate file",
        Variables::PinMinReactions => " with the chosen value",
        Variables::PinReaction => " with the chosen reaction",
        Variables::ReactionRole => " with the chosen reaction",
        Variables::ReactionRolesChannel => " with the id of the channel",
        Variables::RssSleep => " with the appropriate value",
        Variables::RulesChannel => " with the id of the channel",
        Variables::StateFile => " with the path to the appropriate file",
        Variables::WelcomeChannel => " with the id of the channel",
    }
}

/// The message reported when `var` is not defined: what it is for and which
/// environment variable to set.
pub fn get_error(var: Variables) -> (msg: String)
    ensures
        msg@ == spec_error(var),
{
    let head = String::from_str(error_head(var));
    let named = head.concat(get_var_name(var));
    named.concat(error_tail(var))
}

/// The line of a missing-variable message that says which environment
/// variable to set.
pub open spec fn set_var_line(var: Variables) -> Seq<char> {
    "\nSet env var "@ + spec_var_name(var)
}

/// `t` occurs in `s` as a contiguous run of characters.
pub open spec fn contains_text(s: Seq<char>, t: Seq<char>) -> bool {
    exists|i: int| 0 <= i && i + t.len() <= s.len() && #[trigger] s.subrange(i, i + t.len()) == t
}

/// The length and fifth character of each missing-variable message; no two
/// variables share both.
spec fn error_fingerprint(var: Variables) -> (nat, char) {
    match var {
        Variables::AnnouncementIcon => (84, 'n'),
        Variables::AnnouncementsChannel => (87, 'n'),
        Variables::CacheEntries => (87, 'u'),
        Variables::CommandPrefix => (69, 'o'),
        Variables::DelegateRole => (76, 'e'),
        Variables::DiscordToken => (64, 'i'),
        Variables::DomainsFile => (82, 'o'),
        Variables::PinMinReactions => (103, 'o'),
        Variables::PinReaction => (74, 'i'),
        Variables::ReactionRole => (78, 'e'),
        Variables::ReactionRolesChannel => (92, 'e'),
        Variables::RssSleep => (75, 'S'),
        Variables::RulesChannel => (78, 'u'),
        Variables::StateFile => (80, 'o'),
        Variables::WelcomeChannel => (82, 'e'),
    }
}

proof fn lemma_error_shape(var: Variables)
    ensures
        spec_error(var).len() == error_fingerprint(var).0,
        spec_error(var)[4] == error_fingerprint(var).1,
        spec_error_head(var).len() >= 13,
        spec_error_head(var).subrange(spec_error_head(var).len() - 13, spec_error_head(var).len() as int)
            == "\nSet env var "@,
{
    reveal_strlit("\nSet env var ");
    match var {
        Variables::AnnouncementIcon => {
            reveal_strlit("No announcement icon defined!\nSet env var ");
            reveal_strlit("ANNOUNCEMENT_ICON");
            reveal_strlit(" with a link to the image");
        },
        Variables::AnnouncementsChannel => {
            reveal_strlit("No announcements channel defined!\nSet env var ");
            reveal_strlit("ANNOUNCEMENTS");
            reveal_strlit(" with the Discord channel id");
        },
        Variables::CacheEntries => {
            reveal_strlit("No number of cache entries defined!\nSet env var ");
            reveal_strlit("CACHE_ENTRIES");
            reveal_strlit(" with an appropriate value");
        },
        Variables::CommandPrefix => {
            reveal_strlit("No command prefix defined!\nSet env var ");
            reveal_strlit("COMMAND_PREFIX");
            reveal_strlit(" with the prefix");
        },
        Variables::DelegateRole => {
            reveal_strlit("No delegate role defined|\nSet env var ");
            reveal_strlit("DELEGATE_ROLE");
            reveal_strlit(", with the id of the role");
        },
        Variables::DiscordToken => {
            reveal_strlit("No Discord token found!\nSet env var ");
            reveal_strlit("DISCORD_TOKEN");
            reveal_strlit(" with the token");
        },
        Variables::DomainsFile => {
            reveal_strlit("Unknown domains file!\nSet env var ");
            reveal_strlit("PEERS_FILE");
            reveal_strlit(" with the path to the appropriate file");
        },
        Variables::PinMinReactions => {
            reveal_strlit("Unknown minimum number of reactions to pin message!\nSet env var ");
            reveal_strlit("PIN_MIN_REACTIONS");
            reveal_strlit(" with the chosen value");
        },
        Variables::PinReaction => {
            reveal_strlit("No pin reaction defined!\nSet env var ");
            reveal_strlit("PIN_REACTION");
            reveal_strlit(" with the chosen reaction");
        },
        Variables::ReactionRole => {
            reveal_strlit("No reaction defined for roles!\nSet env var ");
            reveal_strlit("REACT_ROLE");
            reveal_strlit(" with the chosen reaction");
        },
        Variables::ReactionRolesChannel => {
            reveal_strlit("No reaction roles channel defined!\nSet env var ");
            reveal_strlit("REACT_ROLE_CHANNEL");
            reveal_strlit(" with the id of the channel");
        },
        Variables::RssSleep => {
            reveal_strlit("No RSS sleep time defined!\nSet env var ");
            reveal_strlit("RSS_SLEEP");
            reveal_strlit(" with the appropriate value");
        },
        Variables::RulesChannel => {
            reveal_strlit("No rules channel defined!\nSet env var ");
            reveal_strlit("RULES_CHANNEL");
            reveal_strlit(" with the id of the channel");
        },
        Variables::StateFile => {
            reveal_strlit("Unknown state file!\nSet env var ");
            reveal_strlit("STATE_FILE");
            reveal_strlit(" with the path to the appropriate file");
        },
        Variables::WelcomeChannel => {
            reveal_strlit("No welcome channel defined!\nSet env var ");
            reveal_strlit("WELCOME_CHANNEL");
            reveal_strlit(" with the id of the channel");
        },
    }
}

/// Every missing-variable message tells to set its own variable's environment
/// variable, and no two variables share a message.
pub proof fn law_error_names_its_variable(v: Variables, w: Variables)
    ensures
        contains_text(spec_error(v), set_var_line(v)),
        v != w ==> spec_error(v) != spec_error(w),
{
    lemma_error_shape(v);
    lemma_error_shape(w);
    let head = spec_error_head(v);
    let i = head.len() - 13;
    let t = set_var_line(v);
    assert(spec_error(v).subrange(i, i + t.len()) =~= t);
}

/// The value that an environment (a list of name/value pairs) gives a name:
/// that of the first pair with this name.
pub open spec fn env_lookup(env: Seq<(String, String)>, name: Seq<char>) -> Option<Seq<char>>
    decreases env.len(),
{
    if env.len() == 0 {
        None
    } else if env[0].0@ == name {
        Some(env[0].1@)
    } else {
        env_lookup(env.drop_first(), name)
    }
}

/// Every configuration variable is defined in `env`.
pub open spec fn all_defined(env: Seq<(String, String)>) -> bool {
    forall|v: Variables| #[trigger] env_lookup(env, spec_var_name(v)) is Some
}

/// `var` is the first variable, in declaration order, that `env` leaves undefined.
pub open spec fn first_missing(env: Seq<(String, String)>, var: Variables) -> bool {
    &&& env_lookup(env, spec_var_name(var)) is None
    &&& forall|w: Variables|
        spec_index(w) < spec_index(var) ==> #[trigger] env_lookup(env, spec_var_name(w)) is Some
}

/// The configuration that a complete environment gives.
pub open spec fn config_from_env(env: Seq<(String, String)>) -> Map<Variables, Seq<char>> {
    Map::new(|v: Variables| true, |v: Variables| env_lookup(env, spec_var_name(v))->0)
}

/// Find the value of `name` in `env`.
fn lookup(env: &Vec<(String, String)>, name: &str) -> (r: Option<String>)
    ensures
        match r {
            Some(s) => env_lookup(env@, name@) == Some(s@),
            None => env_lookup(env@, name@) is None,
        },
{
    let key = String::from_str(name);
    let mut i: usize = 0;
    assert(env@.skip(0) =~= env@);
    while i < env.len()
        invariant
            i <= env.len(),
            key@ == name@,
            env_lookup(env@, name@) == env_lookup(env@.skip(i as int), name@),
        decreases env.len() - i,
    {
        assert(env@.skip(i as int).drop_first() =~= env@.skip(i + 1));
        if env[i].0 == key {
            return Some(env[i].1.clone());
        }
        i = i + 1;
    }
    None
}

/// The loaded configuration: a value for each variable that has one.
pub struct Config {
    values: Vec<Option<String>>,
}

impl View for Config {
    type V = Map<Variables, Seq<char>>;

    closed spec fn view(&self) -> Map<Variables, Seq<char>> {
        Map::new(
            |v: Variables| self.values@[spec_index(v)] is Some,
            |v: Variables| self.values@[spec_index(v)]->0@,
        )
    }
}

impl Config {
    /// The configuration is well formed: it has one slot per variable.
    pub closed spec fn wf(&self) -> bool {
        self.values@.len() == NUM_VARIABLES
    }

    /// A configuration in which no variable is defined yet.
    pub fn new() -> (c: Config)
        ensures
            c.wf(),
            c@ == Map::<Variables, Seq<char>>::empty(),
    {
        let mut values: Vec<Option<String>> = Vec::new();
        let mut i: usize = 0;
        while i < NUM_VARIABLES
            invariant
                i <= NUM_VARIABLES,
                values@.len() == i,
                forall|j: int| 0 <= j < i ==> values@[j] is None,
            decreases NUM_VARIABLES - i,
        {
            values.push(None);
            i = i + 1;
        }
        let c = Config { values };
        assert(c@ =~= Map::<Variables, Seq<char>>::empty());
        c
    }
}

/// Whether `var` has a value.
pub fn has_var(config: &Config, var: Variables) -> (r: bool)
    requires
        config.wf(),
    ensures
        r == config@.contains_key(var),
{
    config.values[variable_index(var)].is_some()
}

/// The value of a loaded variable.
pub fn get_var(config: &Config, var: Variables) -> (val: String)
    requires
        config.wf(),
        config@.contains_key(var),
    ensures
        val@ == config@[var],
{
    let i = variable_index(var);
    match &config.values[i] {
        Some(v) => v.clone(),
        None => {
            proof {
                assert(config@.contains_key(var));
            }
            String::new()
        },
    }
}

/// The value of a loaded variable read as a `u64` (a channel, role or
/// category id); `None` where it is not one.
pub fn get_var_u64(config: &Config, var: Variables) -> (r: Option<u64>)
    requires
        config.wf(),
        config@.contains_key(var),
    ensures
        r == crate::text::spec_parse_u64(config@[var]),
{
    crate::text::parse_u64(get_var(config, var).as_str())
}

/// The value of a loaded variable read as a `usize` (a count); `None` where
/// it is not one.
pub fn get_var_usize(config: &Config, var: Variables) -> (r: Option<usize>)
    requires
        config.wf(),
        config@.contains_key(var),
    ensures
        r == crate::text::spec_parse_usize(config@[var]),
{
    crate::text::parse_usize(get_var(config, var).as_str())
}

/// Seconds between two RSS updates: the configured minutes times sixty;
/// `None` where the setting is not a `u64` or the product does not fit.
pub fn rss_sleep_seconds(config: &Config) -> (r: Option<u64>)
    requires
        config.wf(),
        config@.contains_key(Variables::RssSleep),
    ensures
        r == match crate::text::spec_parse_u64(config@[Variables::RssSleep]) {
            Some(m) => if m * 60 <= u64::MAX {
                Some((m * 60) as u64)
            } else {
                None
            },
            None => None,
        },
{
    match get_var_u64(config, Variables::RssSleep) {
        Some(m) => m.checked_mul(60),
        None => None,
    }
}

/// Replace the configuration with the values that `env` gives every variable.
///
/// Where a variable is missing, the first such one in declaration order is
/// returned and the configuration is left as it was.
pub fn load_env(config: &mut Config, env: &Vec<(String, String)>) -> (r: Result<(), Variables>)
    requires
        old(config).wf(),
    ensures
        final(config).wf(),
        r is Ok <==> all_defined(env@),
        match r {
            Ok(()) => final(config)@ == config_from_env(env@),
            Err(var) => first_missing(env@, var) && final(config)@ == old(config)@,
        },
{
    let mut values: Vec<Option<String>> = Vec::new();
    let mut i: usize = 0;
    while i < NUM_VARIABLES
        invariant
            i <= NUM_VARIABLES,
            values@.len() == i,
            *config == *old(config),
            config.wf(),
            forall|j: int|
                0 <= j < i ==> (#[trigger] values@[j]) is Some && env_lookup(
                    env@,
                    spec_var_name(spec_variable_at(j)),
                ) == Some(values@[j]->0@),
        decreases NUM_VARIABLES - i,
    {
        let var = variable_at(i);
        match lookup(env, get_var_name(var)) {
            Some(val) => {
                values.push(Some(val));
            },
            None => {
                proof {
                    assert forall|w: Variables| spec_index(w) < spec_index(var) implies
                        #[trigger] env_lookup(env@, spec_var_name(w)) is Some by {
                        lemma_index_bijection(w, 0);
                        assert(values@[spec_index(w)] is Some);
                    }
                    assert(!all_defined(env@));
                }
                return Err(var);
            },
        }
        i = i + 1;
    }
    config.values = values;
    proof {
        assert forall|v: Variables| #[trigger] env_lookup(env@, spec_var_name(v)) is Some by {
            lemma_index_bijection(v, 0);
            assert(values@[spec_index(v)] is Some);
        }
        assert forall|v: Variables| #[trigger] config@.contains_key(v) by {
            lemma_index_bijection(v, 0);
            assert(values@[spec_index(v)] is Some);
        }
        assert forall|v: Variables| config@[v] == #[trigger] config_from_env(env@)[v] by {
            lemma_index_bijection(v, 0);
            assert(values@[spec_index(v)] is Some);
        }
        assert(config@ =~= config_from_env(env@));
    }
    Ok(())
}

/// A successful load makes every variable read back as the value that the
/// environment gives its name.
pub proof fn law_get_after_load(env: Seq<(String, String)>, var: Variables)
    requires
        all_defined(env),
    ensures
        config_from_env(env).contains_key(var),
        config_from_env(env)[var] == env_lookup(env, spec_var_name(var))->0,
        env_lookup(env, spec_var_name(var)) is Some,
{
}

} // verus!
