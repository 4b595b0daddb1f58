//! The server-side model of players: the link between a connected player and its avatar.
use vstd::prelude::*;

use crate::coordinates::AbsBlockPos;
use crate::entity::Entity;

verus! {

/// A link to the avatar that a connected player controls, kept on the player's entity.
#[derive(Clone, Copy, Debug, PartialEq, Eq, Structural)]
pub struct ServerPlayerAvatarController(pub Entity);

impl ServerPlayerAvatarController {
    /// Returns the ID of the player avatar controlled by this entity.
    pub fn server_player_avatar_id(&self) -> (r: Entity)
        ensures
            r == self.0,
    {
        self.0
    }
}

/// A link to the connected player that controls an avatar, kept on the avatar's entity.
#[derive(Clone, Copy, Debug, PartialEq, Eq, Structural)]
pub struct ServerPlayerAvatarControlled(pub Entity);

impl ServerPlayerAvatarControlled {
    /// Returns the ID of the player controlling this entity.
    pub fn connected_player_id(&self) -> (r: Entity)
        ensures
            r == self.0,
    {
        self.0
    }
}

/// Links an entity inside the game universe to a player's character, acting as its avatar.
#[derive(Clone, Copy, Debug, PartialEq, Eq, Structural)]
pub struct ServerPlayerAvatar {
    /// The ID of the account owning this avatar.
    pub account_id: u128,
    /// The ID of the character represented by this avatar.
    pub character_id: u128,
}

impl ServerPlayerAvatar {
    /// An avatar with the default (nil) account and character ids.
    pub fn new() -> (r: ServerPlayerAvatar)
        ensures
            r.account_id == 0,
            r.character_id == 0,
    {
        ServerPlayerAvatar { account_id: 0, character_id: 0 }
    }
}

/// The block where the avatar of a joining player appears.
pub fn avatar_spawn_position() -> (r: AbsBlockPos)
    ensures
        r == (AbsBlockPos { x: 0, y: 6, z: 12 }),
{
    AbsBlockPos::new(0, 6, 12)
}

/// The avatars (entity, and the player controlling it if any) controlled by `player`, in order.
pub open spec fn avatars_of(avatars: Seq<(Entity, Option<ServerPlayerAvatarControlled>)>, player: Entity) -> Seq<Entity>
    decreases avatars.len(),
{
    if avatars.len() == 0 {
        Seq::empty()
    } else {
        let prev = avatars_of(avatars.drop_last(), player);
        if avatars.last().1 == Some(ServerPlayerAvatarControlled(player)) {
            prev.push(avatars.last().0)
        } else {
            prev
        }
    }
}

/// The avatars to despawn when `player` leaves: those it controls, in order.
pub fn avatars_of_leaving_player(
    avatars: &[(Entity, Option<ServerPlayerAvatarControlled>)],
    player: Entity,
) -> (r: Vec<Entity>)
    ensures
        r@ == avatars_of(avatars@, player),
{
    let mut r: Vec<Entity> = Vec::new();
    let mut i: usize = 0;
    while i < avatars.len()
        invariant
            i <= avatars@.len(),
            r@ == avatars_of(avatars@.subrange(0, i as int), player),
        decreases avatars@.len() - i,
    {
        proof {
            assert(avatars@.subrange(0, i + 1).drop_last() =~= avatars@.subrange(0, i as int));
        }
        let (avatar, controlled) = avatars[i];
        let controller = match controlled {
            Some(c) => Some(c.connected_player_id()),
            None => None,
        };
        if controller == Some(player) {
            r.push(avatar);
        }
        i = i + 1;
    }
    proof {
        assert(avatars@.subrange(0, avatars@.len() as int) =~= avatars@);
    }
    r
}

} // verus!
