use mcrizzledizzle::command::{extension_command_reply, handle_command, CommandOutcome};
use mcrizzledizzle::config::{ServerConfig, WorldConfig};
use mcrizzledizzle::player::{new_player_table, Player, PlayerStatus};
use mcrizzledizzle::protocol::{
    client_disconnect, despawn_player, send_chat_message, set_position_and_orientation,
    spawn_player, write_chat_stream,
};
use mcrizzledizzle::server::{choose_slot, server_full_packets};
use mcrizzledizzle::session::{parse_block_change, payload_len, release_slot, ChatOutcome, Session};
use mcrizzledizzle::world::World;

fn join(players: &mut Vec<Player>, slot: usize, name: &str) {
    players[slot].id = slot as u8;
    players[slot].username = name.to_string();
}

fn server() -> ServerConfig {
    ServerConfig { port: 25565, max_players: 255, name: "S".to_string(), motd: "M".to_string() }
}

#[test]
fn kick_frees_the_first_matching_slot() {
    let mut players = new_player_table();
    join(&mut players, 3, "bob");
    join(&mut players, 7, "bob");
    let out = handle_command(&mut players, &"kick bob".to_string());
    assert!(matches!(out, CommandOutcome::Handled));
    assert_eq!(players[3].id, 255);
    assert_eq!(players[3].outgoing_data, client_disconnect("KICKED!"));
    assert_eq!(players[7].id, 7);
    assert!(players[7].outgoing_data.is_empty());
}

#[test]
fn kick_and_tp_without_name_answer_usage() {
    let mut players = new_player_table();
    match handle_command(&mut players, &"  kick ".to_string()) {
        CommandOutcome::Reply(b) => assert_eq!(b, write_chat_stream("&cUsage: kick [player]".to_string())),
        _ => panic!("expected usage"),
    }
    match handle_command(&mut players, &"tp".to_string()) {
        CommandOutcome::Reply(b) => assert_eq!(b, write_chat_stream("&cUsage: tp [player]".to_string())),
        _ => panic!("expected usage"),
    }
}

#[test]
fn tp_answers_position() {
    let mut players = new_player_table();
    join(&mut players, 2, "ann");
    players[2].position_x = 10;
    players[2].position_y = -3;
    players[2].position_z = 7;
    players[2].yaw = 1;
    players[2].pitch = 2;
    match handle_command(&mut players, &"tp ann".to_string()) {
        CommandOutcome::Reply(b) => assert_eq!(b, set_position_and_orientation(255, 10, -3, 7, 1, 2)),
        _ => panic!("expected position"),
    }
    assert!(matches!(handle_command(&mut players, &"tp nobody".to_string()), CommandOutcome::Handled));
}

#[test]
fn other_commands_go_to_extensions() {
    let mut players = new_player_table();
    match handle_command(&mut players, &"greet  you".to_string()) {
        CommandOutcome::Extension { key, args } => {
            assert_eq!(key, "greet");
            assert_eq!(args, vec!["greet".to_string(), "".to_string(), "you".to_string()]);
        }
        _ => panic!("expected extension command"),
    }
}

#[test]
fn extension_replies() {
    assert_eq!(extension_command_reply(Ok(true)), None);
    assert_eq!(extension_command_reply(Ok(false)), Some(write_chat_stream("&cUnknown command!".to_string())));
    assert_eq!(extension_command_reply(Err(())), Some(write_chat_stream("&cCommand failed".to_string())));
}

#[test]
fn slot_search() {
    let mut players = new_player_table();
    let c = choose_slot(&players, 0, 255);
    assert_eq!((c.slot, c.attempts), (0, 0));
    join(&mut players, 5, "a");
    join(&mut players, 6, "b");
    let c = choose_slot(&players, 5, 255);
    assert_eq!((c.slot, c.attempts), (7, 2));
    let c = choose_slot(&players, 5, 7);
    assert_eq!((c.slot, c.attempts), (0, 2));
    let mut full = new_player_table();
    for i in 0..3 {
        join(&mut full, i, "x");
    }
    let c = choose_slot(&full, 0, 3);
    assert_eq!(c.attempts, 3);
    let c = choose_slot(&full, 0, 0);
    assert_eq!((c.slot, c.attempts), (0, 0));
}

#[test]
fn full_server_packets() {
    let mut expected = mcrizzledizzle::protocol::server_identification(server(), false);
    expected.extend(client_disconnect("Server is full! Try again later"));
    assert_eq!(server_full_packets(&server()), expected);
}

#[test]
fn session_shows_joins_and_leaves() {
    let mut players = new_player_table();
    join(&mut players, 4, "dan");
    let mut s = Session::new(&players, 1);
    assert_eq!(s.statuses[1], PlayerStatus::ConnectedSelf);
    assert_eq!(s.statuses[4], PlayerStatus::Connected);
    assert!(s.immediate_join[4]);
    players[1].outgoing_data = vec![42];
    join(&mut players, 9, "eve");
    let bytes = s.sync(&mut players);
    let mut expected = vec![42];
    expected.extend(set_position_and_orientation(4, 0, 0, 0, 0, 0));
    expected.extend(spawn_player(9, "eve", 0, 0, 0, 0, 0));
    expected.extend(send_chat_message(9, String::new(), "eve has joined the game!".to_string()));
    expected.extend(set_position_and_orientation(9, 0, 0, 0, 0, 0));
    assert_eq!(bytes, expected);
    assert!(players[1].outgoing_data.is_empty());
    assert_eq!(s.statuses[9], PlayerStatus::Connected);
    release_slot(&mut players, 4);
    let bytes = s.sync(&mut players);
    let mut expected = despawn_player(4);
    expected.extend(send_chat_message(4, String::new(), "dan has left the game!".to_string()));
    expected.extend(set_position_and_orientation(9, 0, 0, 0, 0, 0));
    assert_eq!(bytes, expected);
    assert_eq!(s.statuses[4], PlayerStatus::Disconnected);
}

fn ident_payload(version: u8, name: &str) -> Vec<u8> {
    let mut p = vec![version];
    let mut n = name.as_bytes().to_vec();
    n.resize(64, b' ');
    p.extend(n);
    p.extend(vec![0xAB; 64]);
    p.push(0x42);
    p
}

#[test]
fn identification_takes_the_slot() {
    let mut players = new_player_table();
    join(&mut players, 0, "old");
    let s = Session::new(&players, 2);
    let world = World::generate(&WorldConfig { world: "w".to_string(), size_x: 4, size_y: 4, size_z: 4 });
    let r = s.identify(&mut players, &server(), &world, &ident_payload(7, "alice"));
    assert!(!r.disconnect);
    assert_eq!(players[2].id, 2);
    assert_eq!(players[2].username, "alice");
    assert_eq!(players[2].verification_key, [0xAB; 64]);
    assert_eq!(players[2].unused, 0x42);
    assert_eq!((players[2].position_x, players[2].position_y, players[2].position_z), (0, 128, 0));
    assert!(players[2].operator);
    assert_eq!(&r.bytes[..2], &[0x00, 0x07]);
    let tail = spawn_player(0, "old", 0, 0, 0, 0, 0);
    assert!(r.bytes.ends_with(&tail));
}

#[test]
fn identification_with_wrong_version_disconnects() {
    let mut players = new_player_table();
    let s = Session::new(&players, 2);
    let world = World::generate(&WorldConfig { world: "w".to_string(), size_x: 1, size_y: 1, size_z: 1 });
    let r = s.identify(&mut players, &server(), &world, &ident_payload(6, "x"));
    assert!(r.disconnect);
    assert_eq!(r.bytes, client_disconnect("Something went wrong (Type 0x00 expected ver 7, something else was received, contact server admin)"));
    assert_eq!(players[2].id, 255);
}

#[test]
fn position_updates_and_spoofing() {
    let mut players = new_player_table();
    join(&mut players, 3, "p");
    let s = Session::new(&players, 3);
    let r = s.update_position(&mut players, &vec![255, 0, 10, 0xFF, 0xFE, 1, 0, 9, 8]);
    assert!(!r.disconnect);
    assert_eq!((players[3].position_x, players[3].position_y, players[3].position_z), (10, -2, 256));
    assert_eq!((players[3].yaw, players[3].pitch), (9, 8));
    let r = s.update_position(&mut players, &vec![4, 0, 0, 0, 0, 0, 0, 0, 0]);
    assert!(r.disconnect);
    assert_eq!(r.bytes, client_disconnect("Evil bit level hacking"));
}

fn chat_payload(text: &str) -> Vec<u8> {
    let mut p = vec![255];
    let mut t = text.as_bytes().to_vec();
    t.resize(64, b' ');
    p.extend(t);
    p
}

#[test]
fn chat_goes_to_the_others() {
    let mut players = new_player_table();
    join(&mut players, 1, "amy");
    join(&mut players, 2, "ben");
    let s = Session::new(&players, 1);
    let message = format!("{:<64}", "hi all");
    match s.chat(&mut players, &chat_payload("hi all")) {
        ChatOutcome::Said(b) => assert_eq!(b, send_chat_message(255, "amy".to_string(), message.clone())),
        _ => panic!("expected a chat line"),
    }
    assert_eq!(players[2].outgoing_data, send_chat_message(1, "amy".to_string(), message));
    assert!(players[1].outgoing_data.is_empty());
    match s.chat(&mut players, &chat_payload("/kick ben")) {
        ChatOutcome::Command(line) => assert_eq!(line, format!("{:<63}", "kick ben")),
        _ => panic!("expected a command"),
    }
    let mut spoof = chat_payload("x");
    spoof[0] = 1;
    assert!(matches!(s.chat(&mut players, &spoof), ChatOutcome::Disconnect(_)));
}

#[test]
fn block_changes() {
    let mut players = new_player_table();
    join(&mut players, 0, "a");
    join(&mut players, 1, "b");
    let s = Session::new(&players, 0);
    let mut world = World::generate(&WorldConfig { world: "w".to_string(), size_x: 4, size_y: 20, size_z: 4 });
    let place = parse_block_change(&vec![0, 1, 0, 16, 0, 2, 1, 5]);
    assert_eq!((place.x, place.y, place.z, place.mode, place.block_type), (1, 16, 2, 1, 5));
    let r = s.apply_block_change(&mut world, &mut players, &place, true).unwrap();
    assert!(!r.disconnect && r.bytes.is_empty());
    assert_eq!(world.data[1 + 2 * 4 + 16 * 16], 5);
    let mut update = vec![6];
    update.extend([0, 1, 0, 16, 0, 2, 5]);
    assert_eq!(players[1].outgoing_data, update);
    assert!(players[0].outgoing_data.is_empty());
    let destroy = parse_block_change(&vec![0, 1, 0, 16, 0, 2, 0, 5]);
    let r = s.apply_block_change(&mut world, &mut players, &destroy, true).unwrap();
    assert_eq!(r.bytes, vec![6, 0, 1, 0, 16, 0, 2, 5]);
    assert_eq!(world.data[1 + 2 * 4 + 16 * 16], 5);
    let r = s.apply_block_change(&mut world, &mut players, &destroy, false).unwrap();
    assert!(r.bytes.is_empty());
    assert_eq!(world.data[1 + 2 * 4 + 16 * 16], 0);
    let far = parse_block_change(&vec![0, 5, 0, 0, 0, 0, 1, 1]);
    let r = s.apply_block_change(&mut world, &mut players, &far, false).unwrap();
    assert!(r.disconnect);
    assert_eq!(r.bytes, client_disconnect("Block position was not within world bounds, naughty boy"));
    let edge = parse_block_change(&vec![0, 4, 0, 19, 0, 3, 1, 1]);
    assert!(s.apply_block_change(&mut world, &mut players, &edge, false).is_none());
}

#[test]
fn payload_lengths() {
    assert_eq!(payload_len(0x00), Some(130));
    assert_eq!(payload_len(0x05), Some(8));
    assert_eq!(payload_len(0x08), Some(9));
    assert_eq!(payload_len(0x0D), Some(65));
    assert_eq!(payload_len(0x01), None);
}
