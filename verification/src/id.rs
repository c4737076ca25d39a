//! The identifiers of games and users, and the seat of a player in a game.
use vstd::prelude::*;
use vstd::std_specs::convert::FromSpecImpl;
use vstd::string::StringSliceAdditionalSpecFns;
use sha2::{Digest, Sha256};
use crate::rand_id::{le_value, RandId};

verus! {

/// The identifier of a game.
#[derive(Clone, Copy, PartialEq, Eq, Structural, Hash, Debug)]
pub struct GameId(pub RandId);

/// The identifier of a user.
#[derive(Clone, Copy, PartialEq, Eq, Structural, Hash, Debug)]
pub struct UserId(pub RandId);

/// The seat of a player: an index into the players of a game.
#[derive(Clone, Copy, PartialEq, Eq, Structural, Hash, Debug, PartialOrd, Ord)]
pub struct PlayerIdx(pub u8);

impl From<RandId> for GameId {
    fn from(inner: RandId) -> (r: GameId) {
        GameId(inner)
    }
}

impl FromSpecImpl<RandId> for GameId {
    open spec fn obeys_from_spec() -> bool {
        true
    }

    open spec fn from_spec(inner: RandId) -> GameId {
        GameId(inner)
    }
}

impl From<RandId> for UserId {
    fn from(inner: RandId) -> (r: UserId) {
        UserId(inner)
    }
}

impl FromSpecImpl<RandId> for UserId {
    open spec fn obeys_from_spec() -> bool {
        true
    }

    open spec fn from_spec(inner: RandId) -> UserId {
        UserId(inner)
    }
}

impl From<u8> for PlayerIdx {
    fn from(inner: u8) -> (r: PlayerIdx) {
        PlayerIdx(inner)
    }
}

impl FromSpecImpl<u8> for PlayerIdx {
    open spec fn obeys_from_spec() -> bool {
        true
    }

    open spec fn from_spec(inner: u8) -> PlayerIdx {
        PlayerIdx(inner)
    }
}

impl GameId {
    /// The sixteen-glyph text of the identifier.
    pub fn to_string(&self) -> (s: String)
        ensures
            s@ == self.0.spec_text(),
    {
        self.0.to_string()
    }
}

/// The SHA-256 hash of a sequence of bytes.
pub uninterp spec fn sha256_of(data: Seq<u8>) -> Seq<u8>;

/// `Sha256::digest` computes the hash of the data: thirty-two bytes that the
/// data fix.
#[verifier::external_body]
fn sha256(data: &[u8]) -> (hash: Vec<u8>)
    ensures
        hash@ == sha256_of(data@),
        hash@.len() == 32,
{
    Sha256::digest(data).to_vec()
}

impl UserId {
    /// The identifier of the user with the secret `secret`: the twelve first
    /// bytes of the SHA-256 hash of the secret. The secret itself is not kept.
    pub fn from_secret(secret: &str) -> (id: UserId)
        ensures
            id.0.value() == le_value(sha256_of(secret.spec_bytes()).subrange(0, 12)),
    {
        let hash: Vec<u8> = sha256(secret.as_bytes());
        UserId(RandId::from_hash(hash.as_slice()))
    }

    /// The sixteen-glyph text of the identifier.
    pub fn to_string(&self) -> (s: String)
        ensures
            s@ == self.0.spec_text(),
    {
        self.0.to_string()
    }
}

impl PlayerIdx {
    pub open spec fn spec_idx(self) -> usize {
        self.0 as usize
    }

    /// The seat as an index.
    #[verifier::when_used_as_spec(spec_idx)]
    pub fn idx(self) -> (i: usize)
        ensures
            i == self.0,
    {
        self.0 as usize
    }
}

} // verus!
