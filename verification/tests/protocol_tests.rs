use mcrizzledizzle::config::{ServerConfig, WorldConfig};
use mcrizzledizzle::protocol::{
    client_disconnect, despawn_player, finalize_level, init_level, ping, send_chat_message,
    server_identification, set_position_and_orientation, spawn_player, stream_write_short,
    to_mc_string, write_chat_stream,
};
use mcrizzledizzle::world::World;

#[test]
fn test_string_writer() {
    assert_eq!(to_mc_string("This is a nice test string that's longer than 64 chars. By having a string of this length it checks if to_mc_string truncates text correctly."), [84, 104, 105, 115, 32, 105, 115, 32, 97, 32, 110, 105, 99, 101, 32, 116, 101, 115, 116, 32, 115, 116, 114, 105, 110, 103, 32, 116, 104, 97, 116, 39, 115, 32, 108, 111, 110, 103, 101, 114, 32, 116, 104, 97, 110, 32, 54, 52, 32, 99, 104, 97, 114, 115, 46, 32, 66, 121, 32, 104, 97, 118, 105, 110]);
}

#[test]
fn test_short_writer() {
    for x in i16::MIN..i16::MAX {
        assert_eq!(
            stream_write_short(x),
            [(x.to_le() >> 0x08) as u8, (x.to_le() & 0x00FF) as u8].to_vec()
        );
    }
}

#[test]
fn test_client_disconnect() {
    assert_eq!(
        client_disconnect("test string"),
        [
            14, 116, 101, 115, 116, 32, 115, 116, 114, 105, 110, 103, 32, 32, 32, 32, 32, 32,
            32, 32, 32, 32, 32, 32, 32, 32, 32, 32, 32, 32, 32, 32, 32, 32, 32, 32, 32, 32, 32,
            32, 32, 32, 32, 32, 32, 32, 32, 32, 32, 32, 32, 32, 32, 32, 32, 32, 32, 32, 32, 32,
            32, 32, 32, 32, 32
        ]
    );
}

#[test]
fn test_server_ident() {
    assert_eq!(
        server_identification(
            ServerConfig {
                port: 25565,
                max_players: 255,
                name: "Shrimp".to_string(),
                motd: "Also shrimp".to_string()
            },
            true
        ),
        [
            0, 7, 83, 104, 114, 105, 109, 112, 32, 32, 32, 32, 32, 32, 32, 32, 32, 32, 32, 32,
            32, 32, 32, 32, 32, 32, 32, 32, 32, 32, 32, 32, 32, 32, 32, 32, 32, 32, 32, 32, 32,
            32, 32, 32, 32, 32, 32, 32, 32, 32, 32, 32, 32, 32, 32, 32, 32, 32, 32, 32, 32, 32,
            32, 32, 32, 32, 65, 108, 115, 111, 32, 115, 104, 114, 105, 109, 112, 32, 32, 32,
            32, 32, 32, 32, 32, 32, 32, 32, 32, 32, 32, 32, 32, 32, 32, 32, 32, 32, 32, 32, 32,
            32, 32, 32, 32, 32, 32, 32, 32, 32, 32, 32, 32, 32, 32, 32, 32, 32, 32, 32, 32, 32,
            32, 32, 32, 32, 32, 32, 32, 32, 100
        ]
    );
    assert_eq!(
        server_identification(
            ServerConfig {
                port: 25565,
                max_players: 255,
                name: "Shrimp".to_string(),
                motd: "Also shrimp".to_string()
            },
            false
        ),
        [
            0, 7, 83, 104, 114, 105, 109, 112, 32, 32, 32, 32, 32, 32, 32, 32, 32, 32, 32, 32,
            32, 32, 32, 32, 32, 32, 32, 32, 32, 32, 32, 32, 32, 32, 32, 32, 32, 32, 32, 32, 32,
            32, 32, 32, 32, 32, 32, 32, 32, 32, 32, 32, 32, 32, 32, 32, 32, 32, 32, 32, 32, 32,
            32, 32, 32, 32, 65, 108, 115, 111, 32, 115, 104, 114, 105, 109, 112, 32, 32, 32,
            32, 32, 32, 32, 32, 32, 32, 32, 32, 32, 32, 32, 32, 32, 32, 32, 32, 32, 32, 32, 32,
            32, 32, 32, 32, 32, 32, 32, 32, 32, 32, 32, 32, 32, 32, 32, 32, 32, 32, 32, 32, 32,
            32, 32, 32, 32, 32, 32, 32, 32, 0
        ]
    );
}

#[test]
fn test_ping() {
    assert_eq!(ping(), [1]);
}

#[test]
fn test_init_level() {
    assert_eq!(init_level(), [2]);
}

#[test]
fn test_finalize_level() {
    assert_eq!(
        finalize_level(
            &World::load(
                &WorldConfig {
                    world: "testpath.testwrld".to_string(),
                    size_x: 256,
                    size_y: 128,
                    size_z: 256
                },
                None
            )
            .unwrap()
        ),
        [4, 1, 0, 0, 128, 1, 0]
    );
}

#[test]
fn test_spawn_player() {
    assert_eq!(
        spawn_player(7, "jimmy the 9", 25, 47, 3, 90, 90),
        [
            7, 7, 106, 105, 109, 109, 121, 32, 116, 104, 101, 32, 57, 32, 32, 32, 32, 32, 32,
            32, 32, 32, 32, 32, 32, 32, 32, 32, 32, 32, 32, 32, 32, 32, 32, 32, 32, 32, 32, 32,
            32, 32, 32, 32, 32, 32, 32, 32, 32, 32, 32, 32, 32, 32, 32, 32, 32, 32, 32, 32, 32,
            32, 32, 32, 32, 32, 3, 32, 5, 224, 0, 96, 90, 90
        ]
    );
}

#[test]
fn test_despawn_player() {
    for x in u8::MIN..u8::MAX {
        assert_eq!(despawn_player(x), [0x0C, x]);
    }
}

#[test]
fn test_send_chat_message() {
    assert_eq!(
        send_chat_message(12, "Testy toes".to_string(), "Whurrrrrrrrrrrrrrrrrrrrrrrrrrrrrrrrrrrrrrrrrrrrrrrrrrrrrrrrrrrrrrrrrrrrrrrrrrrrrrrrrrrrrrr".to_string()),
        [
            13, 12, 84, 101, 115, 116, 121, 32, 116, 111, 101, 115, 58, 32, 87, 104, 117, 114,
            114, 114, 114, 114, 114, 114, 114, 114, 114, 114, 114, 114, 114, 114, 114, 114,
            114, 114, 114, 114, 114, 114, 114, 114, 114, 114, 114, 114, 114, 114, 114, 114,
            114, 114, 114, 114, 114, 114, 114, 114, 114, 114, 114, 114, 114, 114, 114, 114
        ]
    );
}

#[test]
fn test_write_chat_stream() {
    assert_eq!(
        write_chat_stream("This message is nice and long, like the message before it, it is long because this also tests for truncation".to_string()),
        [
            13, 255, 84, 104, 105, 115, 32, 109, 101, 115, 115, 97, 103, 101, 32, 105, 115, 32,
            110, 105, 99, 101, 32, 97, 110, 100, 32, 108, 111, 110, 103, 44, 32, 108, 105, 107,
            101, 32, 116, 104, 101, 32, 109, 101, 115, 115, 97, 103, 101, 32, 98, 101, 102, 111,
            114, 101, 32, 105, 116, 44, 32, 105, 116, 32, 105, 115
        ]
    );
}

#[test]
fn test_set_position_and_orientation() {
    assert_eq!(
        set_position_and_orientation(120, 15, 16, 17, 90, 90),
        [8, 120, 0, 15, 0, 16, 0, 17, 90, 90]
    );
}

