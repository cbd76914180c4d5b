//! Decisions taken on Discord events.

use vstd::prelude::*;

use crate::state::State;

verus! {

/// `a` and `b` hold the same text.
pub fn str_eq(a: &str, b: &str) -> (r: bool)
    ensures
        r == (a@ == b@),
{
    String::from_str(a) == String::from_str(b)
}

/// What to do about a reaction added to a message.
#[derive(Clone, Copy, PartialEq, Eq, Structural, Debug)]
pub enum ReactionAction {
    /// Give the reacting member this role.
    GiveRole(u64),
    /// Count the message's pin reactions and pin it when there are enough.
    CheckPin,
    /// Nothing.
    Nothing,
}

/// The role that message `msg` gives, if it is a reaction-role message.
pub open spec fn spec_role_of(state: crate::state::StateView, msg: u64) -> Option<u64> {
    if state.messages.contains_key(msg) {
        Some(state.messages[msg])
    } else {
        None
    }
}

/// The decision on a reaction `emoji` (`None` for a custom emoji) added to
/// message `msg`: the reaction-role emoji on a reaction-role message gives its
/// role; the pin emoji leads to counting.
pub open spec fn spec_reaction_added(
    state: crate::state::StateView,
    emoji: Option<Seq<char>>,
    msg: u64,
    react_role: Seq<char>,
    pin: Seq<char>,
) -> ReactionAction {
    if emoji == Some(react_role) {
        match spec_role_of(state, msg) {
            Some(role) => ReactionAction::GiveRole(role),
            None => ReactionAction::Nothing,
        }
    } else if emoji == Some(pin) {
        ReactionAction::CheckPin
    } else {
        ReactionAction::Nothing
    }
}

pub fn reaction_added(
    state: &State,
    emoji: &Option<String>,
    msg: u64,
    react_role: &str,
    pin: &str,
) -> (r: ReactionAction)
    ensures
        r == spec_reaction_added(state@, crate::message::opt_view(*emoji), msg, react_role@, pin@),
{
    match emoji {
        Some(e) => {
            if str_eq(e.as_str(), react_role) {
                match state.role_for_message(msg) {
                    Some(role) => ReactionAction::GiveRole(role),
                    None => ReactionAction::Nothing,
                }
            } else if str_eq(e.as_str(), pin) {
                ReactionAction::CheckPin
            } else {
                ReactionAction::Nothing
            }
        },
        None => ReactionAction::Nothing,
    }
}

/// The role to take back when reaction `emoji` is removed from message `msg`.
pub fn reaction_removed(state: &State, emoji: &Option<String>, msg: u64, react_role: &str) -> (r:
    Option<u64>)
    ensures
        r == if crate::message::opt_view(*emoji) == Some(react_role@) {
            spec_role_of(state@, msg)
        } else {
            None
        },
{
    match emoji {
        Some(e) => {
            if str_eq(e.as_str(), react_role) {
                state.role_for_message(msg)
            } else {
                None
            }
        },
        None => None,
    }
}

/// A message with `count` pin reactions is pinned when that reaches `min`.
pub fn should_pin(count: usize, min: usize) -> (r: bool)
    ensures
        r == (count >= min),
{
    count >= min
}

/// The error that Discord gives when a user does not accept direct messages.
pub fn dm_refused(error_message: &str) -> (r: bool)
    ensures
        r == (error_message@ == "Cannot send messages to this user"@),
{
    str_eq(error_message, "Cannot send messages to this user")
}

/// The error that giving or taking a deleted role gives: its reaction-role
/// message is then deleted.
pub fn is_unknown_role(error_text: &str) -> (r: bool)
    ensures
        r == (error_text@ == "Unknown Role"@),
{
    str_eq(error_text, "Unknown Role")
}

/// A reaction gives a role only when its emoji is the reaction-role emoji and
/// the message is a reaction-role message, and then it gives that message's
/// role; the pin emoji (when it is not the reaction-role emoji) leads to
/// counting; any other reaction does nothing.
pub proof fn law_reaction_added(
    state: crate::state::StateView,
    emoji: Option<Seq<char>>,
    msg: u64,
    react_role: Seq<char>,
    pin: Seq<char>,
)
    ensures
        spec_reaction_added(state, emoji, msg, react_role, pin) matches ReactionAction::GiveRole(r)
            ==> emoji == Some(react_role) && state.messages.contains_key(msg) && state.messages[msg] == r,
        emoji == Some(react_role) && state.messages.contains_key(msg) ==> spec_reaction_added(
            state,
            emoji,
            msg,
            react_role,
            pin,
        ) == ReactionAction::GiveRole(state.messages[msg]),
        (spec_reaction_added(state, emoji, msg, react_role, pin) == ReactionAction::CheckPin) <==> (
        emoji == Some(pin) && emoji != Some(react_role)),
        emoji != Some(react_role) && emoji != Some(pin) ==> spec_reaction_added(
            state,
            emoji,
            msg,
            react_role,
            pin,
        ) == ReactionAction::Nothing,
{
}

} // verus!
