//! Invite records and how a lookup result turns into a validity record.

use vstd::prelude::*;

verus! {

/// What the directory service reports for an invite that exists.
/// Timestamps are milliseconds since the Unix epoch.
#[derive(Clone, Copy, Debug, PartialEq, Eq)]
pub struct InviteLookup {
    pub expires_at: Option<u64>,
    pub max_age: Option<u64>,
    pub max_uses: Option<u64>,
}

/// The validity fields written for a code after a lookup.
#[derive(Clone, Copy, Debug, PartialEq, Eq)]
pub struct Validation {
    pub expires_at: Option<u64>,
    pub is_permanent: bool,
    pub is_valid: bool,
}

impl Validation {
    /// A lookup that found the invite makes it valid, and permanent when it
    /// reports no expiry, no maximum age and no maximum number of uses.
    /// A failed lookup (`None`) makes it invalid, not permanent, without expiry.
    pub fn from_lookup(lookup: &Option<InviteLookup>) -> (r: Validation)
        ensures
            r == Validation::from_lookup_spec(*lookup),
    {
        match lookup {
            Some(info) => Validation {
                expires_at: info.expires_at,
                is_permanent: info.expires_at.is_none() && info.max_age.is_none()
                    && info.max_uses.is_none(),
                is_valid: true,
            },
            None => Validation { expires_at: None, is_permanent: false, is_valid: false },
        }
    }

    pub open spec fn from_lookup_spec(lookup: Option<InviteLookup>) -> Validation {
        match lookup {
            Some(info) => Validation {
                expires_at: info.expires_at,
                is_permanent: info.expires_at is None && info.max_age is None
                    && info.max_uses is None,
                is_valid: true,
            },
            None => Validation { expires_at: None, is_permanent: false, is_valid: false },
        }
    }

    /// Whether a validation counts as a good invite at time `now`.
    pub fn is_good(&self, now: u64) -> (r: bool)
        ensures
            r == good_spec(self.is_valid, self.is_permanent, self.expires_at, now),
    {
        let expired = match self.expires_at {
            Some(t) => t <= now,
            None => false,
        };
        self.is_valid && (self.is_permanent || !expired)
    }
}

/// An invite is good when it is valid and either permanent or not yet expired;
/// an invite without an expiry never expires.
pub open spec fn good_spec(valid: bool, permanent: bool, expires_at: Option<u64>, now: u64) -> bool {
    valid && (permanent || !expired_spec(expires_at, now))
}

pub open spec fn expired_spec(expires_at: Option<u64>, now: u64) -> bool {
    match expires_at {
        Some(t) => t <= now,
        None => false,
    }
}

/// The stored record of one invite code of one guild.
#[derive(Debug)]
pub struct Invite {
    pub guild_id: u64,
    pub code: String,
    pub expires_at: Option<u64>,
    pub is_permanent: Option<bool>,
    pub is_valid: Option<bool>,
    pub is_checked: bool,
    pub created_at: u64,
    pub updated_at: u64,
}

/// Mathematical value of an invite record.
pub struct InviteView {
    pub guild_id: u64,
    pub code: Seq<char>,
    pub expires_at: Option<u64>,
    pub is_permanent: Option<bool>,
    pub is_valid: Option<bool>,
    pub is_checked: bool,
    pub created_at: u64,
    pub updated_at: u64,
}

impl View for Invite {
    type V = InviteView;

    open spec fn view(&self) -> InviteView {
        InviteView {
            guild_id: self.guild_id,
            code: self.code@,
            expires_at: self.expires_at,
            is_permanent: self.is_permanent,
            is_valid: self.is_valid,
            is_checked: self.is_checked,
            created_at: self.created_at,
            updated_at: self.updated_at,
        }
    }
}

impl InviteView {
    /// An unchecked record knows nothing of validity, permanence or expiry;
    /// a checked one knows its validity and permanence.
    pub open spec fn wf(self) -> bool {
        &&& !self.is_checked ==> (self.is_valid is None && self.is_permanent is None
            && self.expires_at is None)
        &&& self.is_checked ==> (self.is_valid is Some && self.is_permanent is Some)
    }

    /// Classification of a checked record at time `now`.
    pub open spec fn good_at(self, now: u64) -> bool {
        good_spec(
            self.is_valid == Some(true),
            self.is_permanent == Some(true),
            self.expires_at,
            now,
        )
    }
}

impl Invite {
    /// A copy of the record.
    pub fn copy(&self) -> (r: Invite)
        ensures
            r@ == self@,
    {
        Invite {
            guild_id: self.guild_id,
            code: self.code.clone(),
            expires_at: self.expires_at,
            is_permanent: self.is_permanent,
            is_valid: self.is_valid,
            is_checked: self.is_checked,
            created_at: self.created_at,
            updated_at: self.updated_at,
        }
    }

    /// Whether a checked record counts as a good invite at time `now`:
    /// valid, and permanent or not yet expired.
    pub fn is_good(&self, now: u64) -> (r: bool)
        ensures
            r == self@.good_at(now),
    {
        let valid = match self.is_valid {
            Some(v) => v,
            None => false,
        };
        let permanent = match self.is_permanent {
            Some(p) => p,
            None => false,
        };
        let expired = match self.expires_at {
            Some(t) => t <= now,
            None => false,
        };
        valid && (permanent || !expired)
    }
}

/// The views of a list of records.
pub open spec fn invite_views(s: Seq<Invite>) -> Seq<InviteView> {
    s.map_values(|x: Invite| x@)
}

/// A code together with the guild it was seen in.
#[derive(Debug)]
pub struct Code {
    pub guild_id: u64,
    pub code: String,
}

} // verus!
