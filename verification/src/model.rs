//! The records that requests are about: users, files, pastes and page cursors.

use vstd::prelude::*;

verus! {

/// What a user is trusted with, in rising order.
#[derive(Debug, Clone, Copy, PartialEq, Eq, Structural)]
pub enum Role {
    User,
    Moderator,
    Admin,
    Owner,
}

impl Role {
    /// The place of a role in the order `user < moderator < admin < owner`.
    pub open spec fn rank(self) -> int {
        match self {
            Role::User => 0,
            Role::Moderator => 1,
            Role::Admin => 2,
            Role::Owner => 3,
        }
    }

    /// Whether this role is `minimum` or above it.
    pub fn at_least(self, minimum: Role) -> (r: bool)
        ensures
            r == (self.rank() >= minimum.rank()),
    {
        match minimum {
            Role::User => true,
            Role::Moderator => self != Role::User,
            Role::Admin => self == Role::Admin || self == Role::Owner,
            Role::Owner => self == Role::Owner,
        }
    }
}

#[derive(Debug, Clone)]
pub struct User {
    pub id: String,
    pub role: Role,
}

#[derive(Debug, Clone)]
pub struct FileItem {
    pub id: String,
    pub public_id: String,
    pub blob_hash: String,
    pub size_bytes: i64,
    pub original_filename: Option<String>,
    pub content_type: Option<String>,
    pub extension: Option<String>,
    pub visibility: String,
    pub owner_user_id: Option<String>,
    pub state: String,
    pub created_at: i64,
    pub metadata_json: Option<String>,
    pub thumbnail_hash: Option<String>,
    pub image_width: Option<i64>,
    pub image_height: Option<i64>,
}

#[derive(Debug, Clone)]
pub struct Paste {
    pub id: String,
    pub public_id: String,
    pub title: Option<String>,
    pub content: String,
    pub syntax: Option<String>,
    pub visibility: String,
    pub owner_user_id: Option<String>,
    pub state: String,
    pub created_at: i64,
}

/// The place in a newest-first listing behind which the next page starts.
#[derive(Debug, Clone, PartialEq, Eq)]
pub struct PageCursor {
    pub created_at: i64,
    pub public_id: String,
}

/// A page cursor with its identifier as a sequence of characters.
pub struct CursorView {
    pub created_at: i64,
    pub public_id: Seq<char>,
}

impl View for PageCursor {
    type V = CursorView;

    open spec fn view(&self) -> CursorView {
        CursorView { created_at: self.created_at, public_id: self.public_id@ }
    }
}

/// The view of an optional cursor.
pub open spec fn opt_cursor(c: Option<PageCursor>) -> Option<CursorView> {
    match c {
        Some(c) => Some(c@),
        None => None,
    }
}

/// The roles stand in the order in which they are trusted: users, moderators, administrators,
/// owners.
pub proof fn roles_rise_in_trust()
    ensures
        Role::User.rank() < Role::Moderator.rank() < Role::Admin.rank() < Role::Owner.rank(),
{
}

} // verus!
