//! Who may do what.

use vstd::prelude::*;

use crate::config::{ActionRule, RuntimeSettings};
use crate::model::{Role, User};

verus! {

/// Whether a rule lets a caller act; `None` stands for an anonymous caller.
pub open spec fn permits(rule: ActionRule, role: Option<Role>) -> bool {
    match rule {
        ActionRule::Disabled => false,
        ActionRule::Anonymous => true,
        ActionRule::Authenticated => role is Some,
        ActionRule::Moderator => role is Some && role->0.rank() >= Role::Moderator.rank(),
        ActionRule::Admin => role is Some && role->0.rank() >= Role::Admin.rank(),
        ActionRule::Owner => role is Some && role->0.rank() >= Role::Owner.rank(),
    }
}

/// The role of a caller, or `None` where the caller is anonymous.
pub open spec fn role_of(user: Option<&User>) -> Option<Role> {
    match user {
        Some(user) => Some(user.role),
        None => None,
    }
}

/// Whether a rule lets a caller act.
pub fn allowed(rule: ActionRule, user: Option<&User>) -> (r: bool)
    ensures
        r == permits(rule, role_of(user)),
{
    match rule {
        ActionRule::Disabled => false,
        ActionRule::Anonymous => true,
        ActionRule::Authenticated => user.is_some(),
        ActionRule::Moderator => match user {
            Some(user) => user.role.at_least(Role::Moderator),
            None => false,
        },
        ActionRule::Admin => match user {
            Some(user) => user.role.at_least(Role::Admin),
            None => false,
        },
        ActionRule::Owner => match user {
            Some(user) => user.role.at_least(Role::Owner),
            None => false,
        },
    }
}

/// Whether the caller may upload files.
pub fn can_upload_file(settings: &RuntimeSettings, user: Option<&User>) -> (r: bool)
    ensures
        r == permits(settings.policy.upload_file, role_of(user)),
{
    allowed(settings.policy.upload_file, user)
}

/// Whether the caller may create pastes.
pub fn can_create_paste(settings: &RuntimeSettings, user: Option<&User>) -> (r: bool)
    ensures
        r == permits(settings.policy.create_paste, role_of(user)),
{
    allowed(settings.policy.create_paste, user)
}

/// Whether the caller may use the API.
pub fn can_use_api(settings: &RuntimeSettings, user: Option<&User>) -> (r: bool)
    ensures
        r == permits(settings.policy.use_api, role_of(user)),
{
    allowed(settings.policy.use_api, user)
}

/// A rule never shuts out a caller of a higher role than one that it lets act.
pub proof fn higher_roles_keep_what_lower_roles_have(rule: ActionRule, lower: Role, higher: Role)
    requires
        lower.rank() <= higher.rank(),
        permits(rule, Some(lower)),
    ensures
        permits(rule, Some(higher)),
{
}

/// What an anonymous caller may do, every signed-in caller may do.
pub proof fn signing_in_takes_nothing_away(rule: ActionRule, role: Role)
    requires
        permits(rule, None),
    ensures
        permits(rule, Some(role)),
{
}

/// Whom each rule lets act: nobody, everybody, whoever is signed in, or those of a role and of the
/// roles above it, from moderators over administrators to owners.
pub proof fn each_rule_lets_act_whom_it_names(role: Role)
    ensures
        !permits(ActionRule::Disabled, Some(role)) && !permits(ActionRule::Disabled, None),
        permits(ActionRule::Anonymous, Some(role)) && permits(ActionRule::Anonymous, None),
        permits(ActionRule::Authenticated, Some(role)) && !permits(ActionRule::Authenticated, None),
        permits(ActionRule::Moderator, Some(role)) <==> role != Role::User,
        permits(ActionRule::Admin, Some(role)) <==> role == Role::Admin || role == Role::Owner,
        permits(ActionRule::Owner, Some(role)) <==> role == Role::Owner,
        !permits(ActionRule::Moderator, None),
        !permits(ActionRule::Admin, None),
        !permits(ActionRule::Owner, None),
{
}

} // verus!
