//! Origin checking and the privileged-key decisions: who a call comes
//! from, whether it carries root authority, and how the sudo key may be
//! rotated. The surrounding runtime performs the actual call forwarding;
//! this module only decides.

use vstd::prelude::*;

verus! {

/// Where a call comes from.
#[derive(Clone, Copy, PartialEq, Eq, Structural, Debug)]
pub enum Origin {
    /// The call carries root authority.
    Root,
    /// The call was signed by this account.
    Signed(u64),
    /// The call carries no authority at all.
    Unsigned,
}

/// Why an origin was rejected.
#[derive(Clone, Copy, PartialEq, Eq, Structural, Debug)]
pub enum OriginError {
    /// The call needed an authority its origin does not carry.
    BadOrigin,
    /// The call needed the sudo key but was signed by someone else.
    RequireSudo,
}

/// The signing account, if the origin is a signature.
pub fn ensure_signed(origin: Origin) -> (r: Result<u64, OriginError>)
    ensures
        r == (match origin {
            Origin::Signed(who) => Result::<u64, OriginError>::Ok(who),
            _ => Result::<u64, OriginError>::Err(OriginError::BadOrigin),
        }),
{
    match origin {
        Origin::Signed(who) => Ok(who),
        _ => Err(OriginError::BadOrigin),
    }
}

/// Accept exactly the root origin.
pub fn ensure_root(origin: Origin) -> (r: Result<(), OriginError>)
    ensures
        r == (match origin {
            Origin::Root => Result::<(), OriginError>::Ok(()),
            _ => Result::<(), OriginError>::Err(OriginError::BadOrigin),
        }),
{
    match origin {
        Origin::Root => Ok(()),
        _ => Err(OriginError::BadOrigin),
    }
}

/// The privileged key and the decisions made with it.
pub struct SudoKey {
    /// The account allowed to act with root authority, if any.
    pub key: Option<u64>,
}

impl SudoKey {
    /// A key registry holding `key`.
    pub fn new(key: Option<u64>) -> (r: SudoKey)
        ensures
            r.key == key,
    {
        SudoKey { key }
    }

    /// The current sudo key.
    pub fn key(&self) -> (r: Option<u64>)
        ensures
            r == self.key,
    {
        self.key
    }

    /// Does this origin hold the sudo key?
    pub open spec fn spec_is_sudo(self, origin: Origin) -> bool {
        match origin {
            Origin::Signed(who) => self.key == Some(who),
            _ => false,
        }
    }

    /// The root origin a sudo call forwards with: granted exactly when
    /// the caller signed with the sudo key.
    pub fn sudo_origin(&self, origin: Origin) -> (r: Result<Origin, OriginError>)
        ensures
            r == (if self.spec_is_sudo(origin) {
                Result::<Origin, OriginError>::Ok(Origin::Root)
            } else {
                Result::<Origin, OriginError>::Err(OriginError::RequireSudo)
            }),
    {
        let who = match origin {
            Origin::Signed(who) => who,
            _ => {
                return Err(OriginError::RequireSudo);
            },
        };
        match self.key {
            Some(k) if k == who => Ok(Origin::Root),
            _ => Err(OriginError::RequireSudo),
        }
    }

    /// The signed origin a sudo-as call forwards with: the impersonated
    /// account, granted exactly when the caller signed with the sudo key.
    pub fn sudo_as_origin(&self, origin: Origin, who: u64) -> (r: Result<Origin, OriginError>)
        ensures
            r == (if self.spec_is_sudo(origin) {
                Result::<Origin, OriginError>::Ok(Origin::Signed(who))
            } else {
                Result::<Origin, OriginError>::Err(OriginError::RequireSudo)
            }),
    {
        match self.sudo_origin(origin) {
            Ok(_) => Ok(Origin::Signed(who)),
            Err(e) => Err(e),
        }
    }

    /// Hand the sudo key to `new`. Only the current key holder may; the
    /// old key is returned on success, nothing changes on failure.
    pub fn set_key(&mut self, origin: Origin, new: u64) -> (r: Result<Option<u64>, OriginError>)
        ensures
            r == (if old(self).spec_is_sudo(origin) {
                Result::<Option<u64>, OriginError>::Ok(old(self).key)
            } else {
                Result::<Option<u64>, OriginError>::Err(OriginError::RequireSudo)
            }),
            old(self).spec_is_sudo(origin) ==> final(self).key == Some(new),
            !old(self).spec_is_sudo(origin) ==> *final(self) == *old(self),
    {
        match self.sudo_origin(origin) {
            Ok(_) => {
                let previous = self.key;
                self.key = Some(new);
                Ok(previous)
            },
            Err(e) => Err(e),
        }
    }
}

} // verus!
