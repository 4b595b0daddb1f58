use geosia::coordinates::AbsBlockPos;
use geosia::entity::Entity;
use geosia::player::{
    avatar_spawn_position, avatars_of_leaving_player, ServerPlayerAvatar, ServerPlayerAvatarControlled,
    ServerPlayerAvatarController,
};

#[test]
fn avatar_links() {
    let controller = ServerPlayerAvatarController(Entity(10));
    assert_eq!(controller.server_player_avatar_id(), Entity(10));
    let controlled = ServerPlayerAvatarControlled(Entity(3));
    assert_eq!(controlled.connected_player_id(), Entity(3));
    let avatar = ServerPlayerAvatar::new();
    assert_eq!((avatar.account_id, avatar.character_id), (0, 0));
    assert_eq!(avatar_spawn_position(), AbsBlockPos::new(0, 6, 12));
}

#[test]
fn leaving_player_loses_only_its_avatars() {
    let avatars = vec![
        (Entity(1), Some(ServerPlayerAvatarControlled(Entity(100)))),
        (Entity(2), None),
        (Entity(3), Some(ServerPlayerAvatarControlled(Entity(200)))),
        (Entity(4), Some(ServerPlayerAvatarControlled(Entity(100)))),
    ];
    assert_eq!(avatars_of_leaving_player(&avatars, Entity(100)), vec![Entity(1), Entity(4)]);
    assert!(avatars_of_leaving_player(&avatars, Entity(300)).is_empty());
}
