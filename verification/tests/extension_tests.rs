use rhai::packages::Package;
use mcrizzledizzle::extensions::{
    event_listeners_for, event_outcome, is_script_name, run_builtin_command, run_command,
    run_event, select_command, send_all, send_message, set_block, username, Event, EventType,
    Extension, Vec3,
};
use mcrizzledizzle::session::{block_break_event, leave_event, BlockChange};
use mcrizzledizzle::config::WorldConfig;
use mcrizzledizzle::player::{new_player_table, Player};
use mcrizzledizzle::protocol::{send_chat_message, to_mc_string, write_chat_stream};
use mcrizzledizzle::version::{ExtensionMetadata, Version, VersionError};
use mcrizzledizzle::world::World;

#[test]
fn version_parse_and_display() {
    let v = Version::parse("1.20.3-alpha.1+build.5".to_string()).unwrap();
    assert_eq!((v.major, v.minor, v.patch), (1, 20, 3));
    assert_eq!(v.prerelease, "alpha.1");
    assert_eq!(v.build, "build.5");
    assert_eq!(v.display(), "1.20.3-alpha.1+build.5");
    let plain = Version::parse("0.1.0".to_string()).unwrap();
    assert_eq!(plain.display(), "0.1.0");
    assert_eq!(Version::parse("1.2".to_string()), Err(VersionError::Invalid));
    assert_eq!(Version::parse("01.2.3".to_string()), Err(VersionError::Invalid));
    assert_eq!(Version::parse("70000.0.0".to_string()), Err(VersionError::NumberTooLarge));
}

#[test]
fn event_basics() {
    let mut e = Event::new();
    assert_eq!(e.player, 255);
    assert_eq!(e.position, Vec3 { x: 0, y: 0, z: 0 });
    assert!(!e.is_cancelled);
    e.cancel();
    assert!(e.is_cancelled);
    assert_eq!(Vec3::new(1, -2, 300), Vec3 { x: 1, y: -2, z: 300 });
    assert_eq!(EventType::from_name("block_break"), Some(EventType::BlockBreak));
    assert_eq!(EventType::from_name("player_leave"), Some(EventType::PlayerLeave));
    assert_eq!(EventType::from_name("jump"), None);
}

#[test]
fn listener_verdicts() {
    assert!(!event_outcome(&vec![]).is_cancelled);
    assert!(event_outcome(&vec![Ok(false), Ok(true)]).is_cancelled);
    assert!(event_outcome(&vec![Ok(true), Ok(false)]).is_cancelled);
    assert!(!event_outcome(&vec![Ok(false), Err(()), Ok(true)]).is_cancelled);
    assert!(event_outcome(&vec![Ok(true), Err(()), Ok(false)]).is_cancelled);
}

fn active(players: &mut Vec<Player>, i: usize) {
    players[i].id = i as u8;
    players[i].username = format!("p{}", i);
}

#[test]
fn messages_to_players() {
    let mut players = new_player_table();
    active(&mut players, 1);
    active(&mut players, 2);
    send_message(&mut players, 1, "hello".to_string());
    assert_eq!(players[1].outgoing_data, write_chat_stream("hello".to_string()));
    assert!(players[2].outgoing_data.is_empty());
    send_all(&mut players, "all".to_string());
    assert_eq!(players[2].outgoing_data, write_chat_stream("all".to_string()));
    assert!(players[3].outgoing_data.is_empty());
    assert_eq!(username(&players, 2), "p2");
}

#[test]
fn extension_sets_block() {
    let mut players = new_player_table();
    active(&mut players, 0);
    let mut world = World::generate(&WorldConfig { world: "w".to_string(), size_x: 2, size_y: 2, size_z: 2 });
    set_block(&mut world, &mut players, Vec3 { x: 1, y: 1, z: 0 }, 7);
    assert_eq!(world.data[1 + 4], 7);
    assert_eq!(players[0].outgoing_data, vec![6, 0, 1, 0, 1, 0, 0, 7]);
}

fn extension(name: &str, script: &str) -> Extension {
    let mut engine = rhai::Engine::new();
    engine
        .register_type_with_name::<Event>("Event")
        .register_fn("cancel", Event::cancel);
    let ast = engine.compile(script).unwrap();
    Extension::new(
        ast,
        engine,
        ExtensionMetadata::new(
            name.to_string(),
            "me".to_string(),
            Version::parse("1.0.0".to_string()).unwrap(),
        ),
    )
}

fn info() -> Vec<Extension> {
    let mut e = extension("Tools", "fn warp(player, args) { }");
    e.register_command("warp".to_string(), rhai::FnPtr::new("warp").unwrap());
    vec![e]
}

#[test]
fn script_commands() {
    let mut tools = extension("Tools", "fn warp(player, args) { } fn bad(player, args) { throw \"no\"; }");
    tools.register_command("warp".to_string(), rhai::FnPtr::new("warp").unwrap());
    tools.register_command("bad".to_string(), rhai::FnPtr::new("bad").unwrap());
    tools.register_command("warp".to_string(), rhai::FnPtr::new("warp").unwrap());
    assert_eq!(tools.commands.len(), 2);
    let exts = vec![tools];
    assert!(run_command(&exts, &"warp".to_string(), 0, vec!["warp".to_string()]).unwrap());
    assert!(!run_command(&exts, &"fly".to_string(), 0, vec![]).unwrap());
    assert!(run_command(&exts, &"bad".to_string(), 0, vec![]).is_err());
}

#[test]
fn script_event_listeners() {
    let mut first = extension("A", "fn on_break(e) { e.cancel(); e }");
    first.add_event_listener(EventType::BlockBreak, rhai::FnPtr::new("on_break").unwrap());
    let mut second = extension("B", "fn on_break(e) { throw \"broken\"; }");
    second.add_event_listener(EventType::BlockBreak, rhai::FnPtr::new("on_break").unwrap());
    let mut third = extension("C", "fn on_break(e) { e }");
    third.add_event_listener(EventType::BlockBreak, rhai::FnPtr::new("on_break").unwrap());
    let exts = vec![first, second, third];
    assert!(run_event(&exts, EventType::BlockBreak, Event::new()).is_cancelled);
    assert!(!run_event(&exts, EventType::PlayerLeave, Event::new()).is_cancelled);
    let mut only_third = extension("C", "fn on_break(e) { e }");
    only_third.add_event_listener(EventType::BlockBreak, rhai::FnPtr::new("on_break").unwrap());
    let mut canceller = extension("A", "fn on_break(e) { e.cancel(); e }");
    canceller.add_event_listener(EventType::BlockBreak, rhai::FnPtr::new("on_break").unwrap());
    let later = vec![canceller, only_third];
    assert!(run_event(&later, EventType::BlockBreak, Event::new()).is_cancelled);
    let mut keeper = extension("C", "fn on_break(e) { e }");
    keeper.add_event_listener(EventType::BlockBreak, rhai::FnPtr::new("on_break").unwrap());
    assert!(!run_event(&vec![keeper], EventType::BlockBreak, Event::new()).is_cancelled);
}

#[test]
fn builtin_listings() {
    let mut players = new_player_table();
    assert!(run_builtin_command(&mut players, 3, "extensions", &info()));
    let mut expected = write_chat_stream("Extension listing".to_string());
    expected.extend(write_chat_stream("&aTools &bv1.0.0".to_string()));
    assert_eq!(players[3].outgoing_data, expected);
    let mut players = new_player_table();
    assert!(run_builtin_command(&mut players, 0, "help", &info()));
    let mut expected = write_chat_stream("Command listing".to_string());
    for line in ["&chelp &a[Builtin]", "&cextensions &a[Builtin]", "&ckick &a[Builtin]", "&ctp &a[Builtin]", "&cwarp &a[Tools]"] {
        expected.extend(write_chat_stream(line.to_string()));
    }
    assert_eq!(players[0].outgoing_data, expected);
    assert!(!run_builtin_command(&mut players, 0, "warp", &info()));
}

#[test]
fn mc_strings_keep_low_bytes() {
    let s = to_mc_string("é€");
    assert_eq!(s[0], 0xE9);
    assert_eq!(s[1], 0xAC);
    assert!(s[2..].iter().all(|b| *b == 0x20));
    assert_eq!(to_mc_string(""), [0x20; 64]);
}

#[test]
fn default_player_slot_is_free() {
    let p = Player::default();
    assert_eq!(p.id, 255);
    assert!(p.username.is_empty());
    assert_eq!(p.verification_key, [0; 64]);
    assert!(!p.operator);
    assert!(p.outgoing_data.is_empty());
}

#[test]
fn server_chat_is_chat_without_name() {
    let m = "server says hi".to_string();
    assert_eq!(write_chat_stream(m.clone()), send_chat_message(255, String::new(), m));
}

#[test]
fn command_selection_takes_first_extension() {
    let mut a = extension("A", "fn hop(player, args) { }");
    a.register_command("go".to_string(), rhai::FnPtr::new("hop").unwrap());
    let mut b = extension("B", "fn hop(player, args) { } fn stay(player, args) { }");
    b.register_command("stay".to_string(), rhai::FnPtr::new("stay").unwrap());
    b.register_command("go".to_string(), rhai::FnPtr::new("hop").unwrap());
    let exts = vec![a, b];
    assert_eq!(select_command(&exts, &"go".to_string()), Some((0, 0)));
    assert_eq!(select_command(&exts, &"stay".to_string()), Some((1, 0)));
    assert_eq!(select_command(&exts, &"fly".to_string()), None);
}

#[test]
fn registering_keeps_other_commands() {
    let mut e = extension("A", "fn a(p, x) { } fn b(p, x) { } fn c(p, x) { }");
    e.register_command("a".to_string(), rhai::FnPtr::new("a").unwrap());
    e.register_command("b".to_string(), rhai::FnPtr::new("b").unwrap());
    e.register_command("a".to_string(), rhai::FnPtr::new("c").unwrap());
    assert_eq!(e.commands.len(), 2);
    assert_eq!(e.commands[0].0, "a");
    assert_eq!(e.commands[0].1.fn_name(), "c");
    assert_eq!(e.commands[1].0, "b");
    assert_eq!(e.commands[1].1.fn_name(), "b");
}

#[test]
fn listener_selection_in_order() {
    let mut a = extension("A", "fn l(e) { e }");
    a.add_event_listener(EventType::PlayerLeave, rhai::FnPtr::new("l").unwrap());
    let b = extension("B", "fn l(e) { e }");
    let mut c = extension("C", "fn l(e) { e }");
    c.add_event_listener(EventType::PlayerLeave, rhai::FnPtr::new("l").unwrap());
    c.add_event_listener(EventType::BlockBreak, rhai::FnPtr::new("l").unwrap());
    let exts = vec![a, b, c];
    assert_eq!(event_listeners_for(&exts, EventType::PlayerLeave), vec![(0, 0), (2, 0)]);
    assert_eq!(event_listeners_for(&exts, EventType::BlockBreak), vec![(2, 1)]);
}

#[test]
fn runaway_scripts_are_stopped() {
    let mut e = extension("Spin", "fn spin(player, args) { loop { } } fn on_break(e) { loop { } }");
    e.register_command("spin".to_string(), rhai::FnPtr::new("spin").unwrap());
    e.add_event_listener(EventType::BlockBreak, rhai::FnPtr::new("on_break").unwrap());
    let exts = vec![e];
    assert!(run_command(&exts, &"spin".to_string(), 0, vec![]).is_err());
    assert!(!run_event(&exts, EventType::BlockBreak, Event::new()).is_cancelled);
}

#[test]
fn script_file_names() {
    assert!(is_script_name("rhai"));
    assert!(!is_script_name("rhai2"));
    assert!(!is_script_name("RHAI"));
    assert!(!is_script_name(""));
}

#[test]
fn events_from_clients() {
    let broken = BlockChange { x: 1, y: 2, z: 3, mode: 0, block_type: 5 };
    let e = block_break_event(4, &broken).unwrap();
    assert_eq!(e.player, 4);
    assert_eq!(e.position, Vec3 { x: 1, y: 2, z: 3 });
    assert_eq!(e.selected_block, 5);
    assert!(!e.is_cancelled);
    let placed = BlockChange { x: 1, y: 2, z: 3, mode: 1, block_type: 5 };
    assert!(block_break_event(4, &placed).is_none());
    let left = leave_event(9);
    assert_eq!(left.player, 9);
    assert_eq!(left.position, Vec3 { x: 0, y: 0, z: 0 });
    assert_eq!(left.selected_block, 0);
}

#[test]
fn engine_functions_shadow_the_random_package() {
    let mut engine = rhai::Engine::new();
    rhai_rand::RandomPackage::new().register_into_engine(&mut engine);
    engine.register_fn("rand_float", |start: f64, end: f64| -> Result<f64, Box<rhai::EvalAltResult>> {
        if start < end && (end - start).is_finite() {
            Ok(start)
        } else {
            Err("range refused".into())
        }
    });
    engine.register_fn("rand_bool", |p: f64| -> Result<bool, Box<rhai::EvalAltResult>> {
        if (0.0..=1.0).contains(&p) {
            Ok(true)
        } else {
            Err("probability refused".into())
        }
    });
    assert_eq!(engine.eval::<f64>("rand_float(2.0, 3.0)").unwrap(), 2.0);
    assert!(engine.eval::<f64>("rand_float(-1e308, 1e308)").is_err());
    assert!(engine.eval::<f64>("rand_float(sqrt(-1.0), 1.0)").is_err());
    assert!(engine.eval::<bool>("rand_bool(sqrt(-1.0))").is_err());
    assert!(engine.eval::<bool>("rand_bool(1.0)").unwrap());
    assert!(engine.eval::<bool>("is_nan(sqrt(-1.0))").unwrap());
    let plain: bool = engine.eval("rand_bool()").unwrap();
    assert!(plain || !plain);
}
