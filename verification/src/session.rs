//! Process-wide session state: the active keypair, the cached display
//! name, and the signed-in flag. One active identity at a time; sign-out
//! clears everything. The caller serializes access and owns the network
//! client.

use vstd::prelude::*;
use crate::keys::{zb32_of, Keypair};

verus! {

/// A caller-facing description of the signed-in account.
pub struct UserProfile {
    /// The account's public key as its address string.
    pub public_key: String,
    /// Whether a session is active.
    pub signed_in: bool,
    /// The account's display name, when known.
    pub name: Option<String>,
}

/// What a successful sign-in hands back: the profile and the wrapped
/// keypair for local persistence.
pub struct SignInResult {
    /// The signed-in account.
    pub profile: UserProfile,
    /// The wrapped session, base64-encoded for storage.
    pub encrypted_keypair: String,
}

/// A conversation partner as listed in the caller's contact view.
pub struct Contact {
    /// The contact's public key string.
    pub public_key: String,
    /// Resolved display name, when known.
    pub name: Option<String>,
    /// Preview of the most recent message, when any.
    pub last_message: Option<String>,
    /// Timestamp of the most recent message, when any.
    pub last_message_time: Option<u64>,
}

/// The mutable session state: empty at process start, filled by
/// sign-in or restore, cleared by sign-out.
pub struct SessionState {
    /// The active identity, while signed in.
    pub keypair: Option<Keypair>,
    /// The cached display name.
    pub user_name: Option<String>,
}

impl SessionState {
    /// Every held keypair is well formed.
    pub open spec fn wf(&self) -> bool {
        match self.keypair {
            Some(kp) => kp.wf(),
            None => true,
        }
    }

    /// Whether a session is active.
    pub open spec fn spec_signed_in(&self) -> bool {
        self.keypair is Some
    }

    /// Fresh state: no identity, no name.
    pub fn new() -> (r: SessionState)
        ensures
            r.keypair is None,
            r.user_name is None,
            r.wf(),
            !r.spec_signed_in(),
    {
        SessionState { keypair: None, user_name: None }
    }

    /// Whether a session is active.
    pub fn is_signed_in(&self) -> (r: bool)
        ensures
            r == self.spec_signed_in(),
    {
        self.keypair.is_some()
    }

    /// Install an identity and its display name after a sign-in or
    /// restore.
    pub fn sign_in_with(&mut self, keypair: Keypair, name: Option<String>)
        requires
            keypair.wf(),
        ensures
            final(self).keypair == Some(keypair),
            final(self).user_name == name,
            final(self).wf(),
            final(self).spec_signed_in(),
    {
        self.keypair = Some(keypair);
        self.user_name = name;
    }

    /// Clear all session state.
    pub fn sign_out(&mut self)
        ensures
            final(self).keypair is None,
            final(self).user_name is None,
            final(self).wf(),
            !final(self).spec_signed_in(),
    {
        self.keypair = None;
        self.user_name = None;
    }

    /// The signed-in account's profile, or nothing while signed out.
    pub fn user_profile(&self) -> (r: Option<UserProfile>)
        requires
            self.wf(),
        ensures
            r is Some <==> self.spec_signed_in(),
            r is Some ==> r->Some_0.signed_in,
            r is Some ==> r->Some_0.public_key@ == zb32_of(
                self.keypair->Some_0.spec_public_key(),
            ),
            r is Some ==> (match (r->Some_0.name, self.user_name) {
                (Some(a), Some(b)) => a@ == b@,
                (None, None) => true,
                _ => false,
            }),
    {
        match &self.keypair {
            Some(kp) => {
                let name = match &self.user_name {
                    Some(n) => Some(n.clone()),
                    None => None,
                };
                Some(
                    UserProfile {
                        public_key: kp.public_key_string(),
                        signed_in: true,
                        name,
                    },
                )
            },
            None => None,
        }
    }
}

} // verus!
