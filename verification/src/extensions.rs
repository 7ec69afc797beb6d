use vstd::prelude::*;

use crate::player::{broadcast, broadcast_to, Player, SELF_PLAYER_ID};
use crate::protocol::{
    block_update, block_update_packet, chat_packet, send_chat_message,
    server_chat_chars, server_chat_str,
};
use crate::text::{chars_eq, chars_eq_str, chars_of, push_str_chars};
use crate::version::{version_text, ExtensionMetadata};
use crate::world::{block_index, World};

verus! {

/// A block position as extensions see it.
#[derive(Debug, Clone, Copy, PartialEq, Eq, Structural)]
pub struct Vec3 {
    pub x: i16,
    pub y: i16,
    pub z: i16,
}

impl Vec3 {
    /// A position from script integers, each of which must fit in 16 bits.
    pub fn new(x: i64, y: i64, z: i64) -> (v: Vec3)
        requires
            i16::MIN <= x <= i16::MAX,
            i16::MIN <= y <= i16::MAX,
            i16::MIN <= z <= i16::MAX,
        ensures
            v.x == x,
            v.y == y,
            v.z == z,
    {
        Vec3 { x: x as i16, y: y as i16, z: z as i16 }
    }
}

/// The events extensions can listen to.
#[derive(Debug, Clone, Copy, PartialEq, Eq, Hash, Structural)]
pub enum EventType {
    BlockBreak,
    PlayerLeave,
}

impl EventType {
    /// The event an extension names when it adds a listener: "block_break" or
    /// "player_leave"; any other name is none.
    pub fn from_name(name: &str) -> (r: Option<EventType>)
        ensures
            r == (if name@ == "block_break"@ {
                Some(EventType::BlockBreak)
            } else if name@ == "player_leave"@ {
                Some(EventType::PlayerLeave)
            } else {
                None::<EventType>
            }),
    {
        let chars = chars_of(name);
        if chars_eq_str(&chars, "block_break") {
            Some(EventType::BlockBreak)
        } else if chars_eq_str(&chars, "player_leave") {
            Some(EventType::PlayerLeave)
        } else {
            None
        }
    }
}

/// What an event tells the listeners, and whether one of them cancelled it.
#[derive(Debug, Clone, Copy, PartialEq, Eq, Structural)]
pub struct Event {
    pub player: u8,
    pub position: Vec3,
    pub selected_block: u8,
    pub is_cancelled: bool,
}

impl Event {
    /// A blank event: the server's own id, the origin, no block, not cancelled.
    pub fn new() -> (e: Event)
        ensures
            e.player == SELF_PLAYER_ID,
            e.position == (Vec3 { x: 0, y: 0, z: 0 }),
            e.selected_block == 0,
            !e.is_cancelled,
    {
        Event { player: SELF_PLAYER_ID, position: Vec3 { x: 0, y: 0, z: 0 }, selected_block: 0, is_cancelled: false }
    }

    /// Cancels the event; this stops interruptible events such as a block break.
    pub fn cancel(&mut self)
        ensures
            final(self).is_cancelled,
            final(self).player == old(self).player,
            final(self).position == old(self).position,
            final(self).selected_block == old(self).selected_block,
    {
        self.is_cancelled = true;
    }
}

/// Whether the listeners cancelled an event, from what they returned in turn from `i` on
/// (`Ok` with their verdict, or `Err` when one failed): a cancel by any listener that ran
/// before the first failure sticks; with none, the event is not cancelled.
pub open spec fn cancelled_by(results: Seq<Result<bool, ()>>, i: int) -> bool
    decreases results.len() - i,
{
    if i < 0 || i >= results.len() {
        false
    } else {
        match results[i] {
            Ok(b) => b || cancelled_by(results, i + 1),
            Err(_) => false,
        }
    }
}

/// The event handed back to the server after the listeners ran.
pub fn event_outcome(results: &Vec<Result<bool, ()>>) -> (e: Event)
    ensures
        e.player == SELF_PLAYER_ID,
        e.position == (Vec3 { x: 0, y: 0, z: 0 }),
        e.selected_block == 0,
        e.is_cancelled == cancelled_by(results@, 0),
{
    let mut is_cancelled = false;
    let mut failed = false;
    let mut i: usize = 0;
    while i < results.len() && !failed
        invariant
            i <= results.len(),
            !failed ==> cancelled_by(results@, 0) == (is_cancelled || cancelled_by(
                results@,
                i as int,
            )),
            failed ==> cancelled_by(results@, 0) == is_cancelled,
        decreases results.len() - i,
    {
        match results[i] {
            Ok(b) => {
                is_cancelled = is_cancelled || b;
            },
            Err(_) => {
                failed = true;
            },
        }
        i += 1;
    }
    let mut response = Event::new();
    response.is_cancelled = is_cancelled;
    response
}

/// Queues a server chat line for one player.
pub fn send_message(players: &mut Vec<Player>, player: u8, message: String)
    requires
        player < old(players).len(),
    ensures
        final(players).len() == old(players).len(),
        final(players)@[player as int].outgoing_data@ == old(players)@[player as int].outgoing_data@
            + chat_packet(SELF_PLAYER_ID, message@),
        crate::player::same_but_outgoing(final(players)@[player as int], old(players)@[player as int]),
        forall|j: int|
            0 <= j < old(players).len() && j != player ==> final(players)@[j] == old(players)@[j],
{
    let mut packet = send_chat_message(SELF_PLAYER_ID, String::new(), message);
    players[player as usize].outgoing_data.append(&mut packet);
}

/// Queues a server chat line for every connected player.
pub fn send_all(players: &mut Vec<Player>, message: String)
    ensures
        broadcast_to(old(players)@, final(players)@, None, chat_packet(SELF_PLAYER_ID, message@)),
{
    let packet = send_chat_message(SELF_PLAYER_ID, String::new(), message);
    broadcast(players, None, &packet);
}

/// The name of the player in a slot.
pub fn username(players: &Vec<Player>, player: u8) -> (name: String)
    requires
        player < players.len(),
    ensures
        name@ == players@[player as int].username@,
{
    players[player as usize].username.clone()
}

/// Sets a block for an extension and tells every connected player. The cell must be one
/// the server can index (see [`World::block_offset`]).
pub fn set_block(world: &mut World, players: &mut Vec<Player>, position: Vec3, block_type: u8)
    requires
        block_index(old(world)@, position.x, position.y, position.z) is Some,
    ensures
        final(world).size_x == old(world).size_x,
        final(world).size_y == old(world).size_y,
        final(world).size_z == old(world).size_z,
        final(world).data@ == old(world).data@.update(
            block_index(old(world)@, position.x, position.y, position.z)->0,
            block_type,
        ),
        broadcast_to(
            old(players)@,
            final(players)@,
            None,
            block_update_packet(position.x, position.y, position.z, block_type),
        ),
{
    let offset = match world.block_offset(position.x, position.y, position.z) {
        Some(o) => o,
        None => {
            assert(false);
            return;
        },
    };
    world.data.set(offset, block_type);
    let update = block_update(position.x, position.y, position.z, block_type);
    broadcast(players, None, &update);
}

/// The script engine of rhai, carried as an opaque value.
#[verifier::external_type_specification]
#[verifier::external_body]
pub struct ExEngine(rhai::Engine);

/// A compiled rhai script, carried as an opaque value.
#[verifier::external_type_specification]
#[verifier::external_body]
pub struct ExAst(rhai::AST);

/// A function of a rhai script, carried as an opaque value.
#[verifier::external_type_specification]
#[verifier::external_body]
pub struct ExFnPtr(rhai::FnPtr);

/// An error that a rhai script raised, carried as an opaque value.
#[verifier::external_type_specification]
#[verifier::external_body]
pub struct ExEvalAltResult(rhai::EvalAltResult);

/// Whether a file extension marks an extension script: exactly "rhai".
pub fn is_script_name(extension: &str) -> (b: bool)
    ensures
        b == (extension@ == "rhai"@),
{
    let chars = chars_of(extension);
    chars_eq_str(&chars, "rhai")
}

/// How many operations one run of a script may take before it is stopped with an error.
pub const MAX_SCRIPT_OPERATIONS: u64 = 1_000_000;

/// Caps how many operations a script run on the engine may take; a run that reaches the cap
/// stops with an error, so every call into a script returns.
///
/// Trusted: calls rhai's `Engine::set_max_operations`, which only stores the cap (a nonzero
/// one; zero would mean no cap). Nothing is stated of the engine, which is opaque here.
#[verifier::external_body]
fn limit_operations(engine: &mut rhai::Engine, limit: u64)
    requires
        limit > 0,
{
    engine.set_max_operations(limit);
}

/// A loaded extension: its compiled script, the engine that runs it, its metadata, and
/// the commands and event listeners it registered (each name and each event at most once).
pub struct Extension {
    pub ast: rhai::AST,
    pub engine: rhai::Engine,
    pub commands: Vec<(String, rhai::FnPtr)>,
    pub event_listeners: Vec<(EventType, rhai::FnPtr)>,
    pub metadata: ExtensionMetadata,
}

/// The names of registered commands.
pub open spec fn command_names(commands: Seq<(String, rhai::FnPtr)>) -> Seq<Seq<char>> {
    commands.map_values(|c: (String, rhai::FnPtr)| c.0@)
}

/// The events of registered listeners.
pub open spec fn listener_events(listeners: Seq<(EventType, rhai::FnPtr)>) -> Seq<EventType> {
    listeners.map_values(|l: (EventType, rhai::FnPtr)| l.0)
}

/// Whether no element occurs twice.
pub open spec fn no_duplicates<A>(s: Seq<A>) -> bool {
    forall|i: int, j: int| 0 <= i < j < s.len() ==> s[i] != s[j]
}

impl Extension {
    /// Each command name and each event is registered at most once.
    pub open spec fn wf(&self) -> bool {
        &&& no_duplicates(command_names(self.commands@))
        &&& no_duplicates(listener_events(self.event_listeners@))
    }

    /// An extension that has registered nothing yet. Its engine is capped at
    /// [`MAX_SCRIPT_OPERATIONS`] operations per script run.
    pub fn new(ast: rhai::AST, engine: rhai::Engine, metadata: ExtensionMetadata) -> (e: Extension)
        ensures
            e.wf(),
            e.commands@.len() == 0,
            e.event_listeners@.len() == 0,
            e.metadata == metadata,
    {
        let mut engine = engine;
        limit_operations(&mut engine, MAX_SCRIPT_OPERATIONS);
        let e = Extension { ast, engine, commands: Vec::new(), event_listeners: Vec::new(), metadata };
        assert(command_names(e.commands@) =~= Seq::<Seq<char>>::empty());
        assert(listener_events(e.event_listeners@) =~= Seq::<EventType>::empty());
        e
    }

    /// Registers a command; a command of the same name is replaced.
    pub fn register_command(&mut self, name: String, callback: rhai::FnPtr)
        requires
            old(self).wf(),
        ensures
            final(self).wf(),
            final(self).metadata == old(self).metadata,
            final(self).event_listeners == old(self).event_listeners,
            command_names(old(self).commands@).contains(name@) ==> command_names(
                final(self).commands@,
            ) == command_names(old(self).commands@),
            !command_names(old(self).commands@).contains(name@) ==> command_names(
                final(self).commands@,
            ) == command_names(old(self).commands@).push(name@),
            exists|k: int|
                0 <= k < final(self).commands@.len() && #[trigger] final(self).commands@[k].0@
                    == name@ && final(self).commands@[k].1 == callback,
            forall|k: int|
                0 <= k < old(self).commands@.len() && #[trigger] old(self).commands@[k].0@ != name@
                    ==> final(self).commands@[k] == old(self).commands@[k],
    {
        let ghost names = command_names(self.commands@);
        let mut i: usize = 0;
        while i < self.commands.len()
            invariant
                i <= self.commands.len(),
                self.commands@ == old(self).commands@,
                self.metadata == old(self).metadata,
                self.event_listeners == old(self).event_listeners,
                old(self).wf(),
                names == command_names(self.commands@),
                forall|j: int| 0 <= j < i ==> names[j] != name@,
            decreases self.commands.len() - i,
        {
            let existing = chars_of(self.commands[i].0.as_str());
            let wanted = chars_of(name.as_str());
            if chars_eq(&existing, &wanted) {
                assert(names[i as int] == name@);
                assert(names.contains(name@));
                self.commands.set(i, (name, callback));
                assert(command_names(self.commands@) =~= names);
                assert(self.commands@[i as int].0@ == name@);
                return;
            }
            i += 1;
        }
        assert(!names.contains(name@));
        self.commands.push((name, callback));
        assert(command_names(self.commands@) =~= names.push(name@));
        assert(self.commands@[self.commands@.len() - 1].0@ == name@);
    }

    /// Adds a listener for an event; a listener for the same event is replaced.
    pub fn add_event_listener(&mut self, event: EventType, callback: rhai::FnPtr)
        requires
            old(self).wf(),
        ensures
            final(self).wf(),
            final(self).metadata == old(self).metadata,
            final(self).commands == old(self).commands,
            listener_events(old(self).event_listeners@).contains(event) ==> listener_events(
                final(self).event_listeners@,
            ) == listener_events(old(self).event_listeners@),
            !listener_events(old(self).event_listeners@).contains(event) ==> listener_events(
                final(self).event_listeners@,
            ) == listener_events(old(self).event_listeners@).push(event),
            exists|k: int|
                0 <= k < final(self).event_listeners@.len()
                    && #[trigger] final(self).event_listeners@[k] == (event, callback),
            forall|k: int|
                0 <= k < old(self).event_listeners@.len() && #[trigger] old(
                    self,
                ).event_listeners@[k].0 != event ==> final(self).event_listeners@[k] == old(
                    self,
                ).event_listeners@[k],
    {
        let ghost events = listener_events(self.event_listeners@);
        let mut i: usize = 0;
        while i < self.event_listeners.len()
            invariant
                i <= self.event_listeners.len(),
                self.event_listeners@ == old(self).event_listeners@,
                self.metadata == old(self).metadata,
                self.commands == old(self).commands,
                old(self).wf(),
                events == listener_events(self.event_listeners@),
                forall|j: int| 0 <= j < i ==> events[j] != event,
            decreases self.event_listeners.len() - i,
        {
            if self.event_listeners[i].0 == event {
                self.event_listeners.set(i, (event, callback));
                assert(listener_events(self.event_listeners@) =~= events);
                assert(self.event_listeners@[i as int] == (event, callback));
                assert(events[i as int] == event);
                assert(events.contains(event));
                return;
            }
            i += 1;
        }
        assert(!events.contains(event));
        self.event_listeners.push((event, callback));
        assert(listener_events(self.event_listeners@) =~= events.push(event));
        assert(self.event_listeners@[self.event_listeners@.len() - 1] == (event, callback));
    }
}

/// Runs a command function of a script with the player id and the command's words.
///
/// Trusted: calls rhai's `FnPtr::call` with the words as a rhai array and `()` as the
/// expected result type. Nothing is claimed of the outcome: it is whatever the script does.
/// The call returns, unless memory runs out: the engines of extensions are capped in
/// operations, and the functions the server gives scripts report errors rather than panic
/// (its own, and those of the random package, whose `rand_float` and `rand_bool` with a
/// probability the server shadows with versions that also refuse bounds that are not finite
/// numbers).
#[verifier::external_body]
fn call_command(
    handler: &rhai::FnPtr,
    engine: &rhai::Engine,
    ast: &rhai::AST,
    player: u8,
    argv: &Vec<String>,
) -> Result<(), Box<rhai::EvalAltResult>> {
    let args: rhai::Array = argv.iter().map(|arg| arg.into()).collect();
    handler.call::<()>(engine, ast, (player, args))
}

/// Runs an event listener of a script with the event.
///
/// Trusted: calls rhai's `FnPtr::call` with the event as its only argument and an event as
/// the expected result type. Nothing is claimed of the outcome: it is whatever the script
/// computes (scripts may draw random numbers). The call returns, as for `call_command`.
#[verifier::external_body]
fn call_event_listener(
    listener: &rhai::FnPtr,
    engine: &rhai::Engine,
    ast: &rhai::AST,
    event: Event,
) -> Result<Event, Box<rhai::EvalAltResult>> {
    listener.call::<Event>(engine, ast, (event,))
}

/// Whether an extension registered a command of that name.
pub open spec fn registers_command(e: Extension, name: Seq<char>) -> bool {
    command_names(e.commands@).contains(name)
}

/// Whether an extension listens to an event.
pub open spec fn listens_to(e: Extension, event: EventType) -> bool {
    listener_events(e.event_listeners@).contains(event)
}

/// Index of the command of that name in an extension.
fn find_command(e: &Extension, name: &Vec<char>) -> (r: Option<usize>)
    ensures
        match r {
            Some(k) => k < e.commands@.len() && e.commands@[k as int].0@ == name@ && forall|m: int|
                0 <= m < k ==> #[trigger] e.commands@[m].0@ != name@,
            None => !registers_command(*e, name@),
        },
{
    let mut i: usize = 0;
    while i < e.commands.len()
        invariant
            i <= e.commands.len(),
            forall|j: int| 0 <= j < i ==> command_names(e.commands@)[j] != name@,
        decreases e.commands.len() - i,
    {
        let existing = chars_of(e.commands[i].0.as_str());
        if chars_eq(&existing, name) {
            proof {
                assert forall|m: int| 0 <= m < i implies #[trigger] e.commands@[m].0@ != name@ by {
                    assert(command_names(e.commands@)[m] == e.commands@[m].0@);
                }
            }
            return Some(i);
        }
        i += 1;
    }
    None
}

/// Index of the listener of an event in an extension.
fn find_listener(e: &Extension, event: EventType) -> (r: Option<usize>)
    ensures
        match r {
            Some(k) => k < e.event_listeners@.len() && e.event_listeners@[k as int].0 == event
                && forall|m: int| 0 <= m < k ==> #[trigger] e.event_listeners@[m].0 != event,
            None => !listens_to(*e, event),
        },
{
    let mut i: usize = 0;
    while i < e.event_listeners.len()
        invariant
            i <= e.event_listeners.len(),
            forall|j: int| 0 <= j < i ==> listener_events(e.event_listeners@)[j] != event,
        decreases e.event_listeners.len() - i,
    {
        if e.event_listeners[i].0 == event {
            proof {
                assert forall|m: int| 0 <= m < i implies #[trigger] e.event_listeners@[m].0
                    != event by {
                    assert(listener_events(e.event_listeners@)[m] == e.event_listeners@[m].0);
                }
            }
            return Some(i);
        }
        i += 1;
    }
    None
}

/// The command that runs for a name: the first extension that registered a command of that
/// name, and the place of that command in it. `None` when no extension has one.
pub fn select_command(extensions: &Vec<Extension>, key: &String) -> (r: Option<(usize, usize)>)
    ensures
        match r {
            Some((i, k)) => {
                &&& i < extensions@.len()
                &&& registers_command(extensions@[i as int], key@)
                &&& forall|j: int|
                    0 <= j < i ==> !registers_command(#[trigger] extensions@[j], key@)
                &&& k < extensions@[i as int].commands@.len()
                &&& extensions@[i as int].commands@[k as int].0@ == key@
                &&& forall|m: int|
                    0 <= m < k ==> #[trigger] extensions@[i as int].commands@[m].0@ != key@
            },
            None => forall|j: int|
                0 <= j < extensions@.len() ==> !registers_command(#[trigger] extensions@[j], key@),
        },
{
    let name = chars_of(key.as_str());
    let mut i: usize = 0;
    while i < extensions.len()
        invariant
            i <= extensions.len(),
            name@ == key@,
            forall|j: int| 0 <= j < i ==> !registers_command(#[trigger] extensions@[j], key@),
        decreases extensions.len() - i,
    {
        match find_command(&extensions[i], &name) {
            Some(k) => {
                proof {
                    assert(command_names(extensions@[i as int].commands@)[k as int] == key@);
                }
                return Some((i, k));
            },
            None => {},
        }
        i += 1;
    }
    None
}

/// The extensions among the first `n` that listen to an event, in order.
pub open spec fn listening_extensions(extensions: Seq<Extension>, event: EventType, n: int) -> Seq<
    int,
>
    decreases n,
{
    if n <= 0 {
        Seq::empty()
    } else {
        listening_extensions(extensions, event, n - 1) + if listens_to(extensions[n - 1], event) {
            seq![n - 1]
        } else {
            Seq::empty()
        }
    }
}

/// The listeners that run for an event, in order: for each extension that listens to it,
/// the extension and the place of its first listener for the event.
pub fn event_listeners_for(extensions: &Vec<Extension>, event_type: EventType) -> (r: Vec<
    (usize, usize),
>)
    ensures
        r@.len() == listening_extensions(extensions@, event_type, extensions@.len() as int).len(),
        forall|j: int|
            0 <= j < r@.len() ==> {
                let (i, k) = #[trigger] r@[j];
                &&& i == listening_extensions(extensions@, event_type, extensions@.len() as int)[j]
                &&& i < extensions@.len()
                &&& k < extensions@[i as int].event_listeners@.len()
                &&& extensions@[i as int].event_listeners@[k as int].0 == event_type
                &&& forall|m: int|
                    0 <= m < k ==> #[trigger] extensions@[i as int].event_listeners@[m].0
                        != event_type
            },
{
    let mut r: Vec<(usize, usize)> = Vec::new();
    let mut i: usize = 0;
    while i < extensions.len()
        invariant
            i <= extensions.len(),
            r@.len() == listening_extensions(extensions@, event_type, i as int).len(),
            forall|j: int|
                0 <= j < r@.len() ==> {
                    let (x, k) = #[trigger] r@[j];
                    &&& x == listening_extensions(extensions@, event_type, i as int)[j]
                    &&& x < i
                    &&& k < extensions@[x as int].event_listeners@.len()
                    &&& extensions@[x as int].event_listeners@[k as int].0 == event_type
                    &&& forall|m: int|
                        0 <= m < k ==> #[trigger] extensions@[x as int].event_listeners@[m].0
                            != event_type
                },
        decreases extensions.len() - i,
    {
        let ghost before = listening_extensions(extensions@, event_type, i as int);
        match find_listener(&extensions[i], event_type) {
            Some(k) => {
                proof {
                    assert(listener_events(extensions@[i as int].event_listeners@)[k as int]
                        == event_type);
                    assert(listening_extensions(extensions@, event_type, i + 1) == before.push(
                        i as int,
                    ));
                }
                r.push((i, k));
            },
            None => {
                proof {
                    assert(listening_extensions(extensions@, event_type, i + 1) =~= before);
                }
            },
        }
        i += 1;
    }
    r
}

/// Runs a command that extensions registered: the command that [`select_command`] picks,
/// with the player id and the words. `Ok(false)` when no extension has a command of that
/// name, `Ok(true)` when the command ran, and the script's error when it failed.
pub fn run_command(extensions: &Vec<Extension>, key: &String, player: u8, argv: Vec<String>) -> (r:
    Result<bool, Box<rhai::EvalAltResult>>)
    ensures
        r matches Ok(false) <==> forall|i: int|
            0 <= i < extensions@.len() ==> !registers_command(#[trigger] extensions@[i], key@),
{
    match select_command(extensions, key) {
        Some((i, k)) => {
            let ext = &extensions[i];
            match call_command(&ext.commands[k].1, &ext.engine, &ext.ast, player, &argv) {
                Ok(()) => Ok(true),
                Err(e) => Err(e),
            }
        },
        None => Ok(false),
    }
}

/// Runs the listeners of an event that [`event_listeners_for`] picks, in order, each with
/// the event as it came, until one fails; hands back a blank event that is cancelled when a
/// listener that ran before the first failure cancelled it.
pub fn run_event(extensions: &Vec<Extension>, event_type: EventType, event: Event) -> (e: Event)
    ensures
        e.player == SELF_PLAYER_ID,
        e.position == (Vec3 { x: 0, y: 0, z: 0 }),
        e.selected_block == 0,
        exists|results: Seq<Result<bool, ()>>|
            {
                let n = listening_extensions(extensions@, event_type, extensions@.len() as int).len();
                &&& results.len() <= n
                &&& forall|j: int| 0 <= j < results.len() - 1 ==> #[trigger] results[j] is Ok
                &&& results.len() < n ==> results.len() > 0 && results.last() is Err
                &&& e.is_cancelled == #[trigger] cancelled_by(results, 0)
            },
{
    let listeners = event_listeners_for(extensions, event_type);
    let ghost n = listening_extensions(extensions@, event_type, extensions@.len() as int).len();
    let mut results: Vec<Result<bool, ()>> = Vec::new();
    let mut failed = false;
    let mut j: usize = 0;
    while j < listeners.len() && !failed
        invariant
            listeners@.len() == n,
            forall|m: int|
                0 <= m < listeners@.len() ==> {
                    let (i, k) = #[trigger] listeners@[m];
                    i < extensions@.len() && k < extensions@[i as int].event_listeners@.len()
                },
            j <= listeners@.len(),
            results@.len() == j,
            !failed ==> forall|m: int| 0 <= m < results@.len() ==> #[trigger] results@[m] is Ok,
            failed ==> j > 0 && results@.last() is Err && forall|m: int|
                0 <= m < results@.len() - 1 ==> #[trigger] results@[m] is Ok,
        decreases listeners@.len() - j,
    {
        let (i, k) = listeners[j];
        let ext = &extensions[i];
        match call_event_listener(&ext.event_listeners[k].1, &ext.engine, &ext.ast, event) {
            Ok(result) => results.push(Ok(result.is_cancelled)),
            Err(_) => {
                results.push(Err(()));
                failed = true;
            },
        }
        j += 1;
    }
    let outcome = event_outcome(&results);
    assert(results@.len() <= n);
    outcome
}

/// Listing line of an extension: its name and version.
pub open spec fn extension_line(m: ExtensionMetadata) -> Seq<char> {
    "&a"@ + m.name@ + " &bv"@ + version_text(
        m.version.major,
        m.version.minor,
        m.version.patch,
        m.version.prerelease@,
        m.version.build@,
    )
}

/// Listing lines of the first `n` extensions.
pub open spec fn listing_lines(exts: Seq<Extension>, n: int) -> Seq<u8>
    decreases n,
{
    if n <= 0 {
        Seq::empty()
    } else {
        listing_lines(exts, n - 1) + chat_packet(SELF_PLAYER_ID, extension_line(exts[n - 1].metadata))
    }
}

/// The answer to the built-in `extensions` command.
pub open spec fn extensions_listing(exts: Seq<Extension>) -> Seq<u8> {
    chat_packet(SELF_PLAYER_ID, "Extension listing"@) + listing_lines(exts, exts.len() as int)
}

/// Help line of a command and who provides it.
pub open spec fn command_line(command: Seq<char>, owner: Seq<char>) -> Seq<char> {
    "&c"@ + command + " &a["@ + owner + "]"@
}

/// Help lines of the first `n` commands of one extension.
pub open spec fn command_lines(commands: Seq<(String, rhai::FnPtr)>, owner: Seq<char>, n: int) -> Seq<u8>
    decreases n,
{
    if n <= 0 {
        Seq::empty()
    } else {
        command_lines(commands, owner, n - 1) + chat_packet(
            SELF_PLAYER_ID,
            command_line(commands[n - 1].0@, owner),
        )
    }
}

/// Help lines of the commands of the first `n` extensions.
pub open spec fn help_lines(exts: Seq<Extension>, n: int) -> Seq<u8>
    decreases n,
{
    if n <= 0 {
        Seq::empty()
    } else {
        help_lines(exts, n - 1) + command_lines(
            exts[n - 1].commands@,
            exts[n - 1].metadata.name@,
            exts[n - 1].commands@.len() as int,
        )
    }
}

/// The answer to the built-in `help` command: the four built-in commands, then the
/// commands of every extension.
pub open spec fn command_listing(exts: Seq<Extension>) -> Seq<u8> {
    chat_packet(SELF_PLAYER_ID, "Command listing"@) + chat_packet(
        SELF_PLAYER_ID,
        command_line("help"@, "Builtin"@),
    ) + chat_packet(SELF_PLAYER_ID, command_line("extensions"@, "Builtin"@)) + chat_packet(
        SELF_PLAYER_ID,
        command_line("kick"@, "Builtin"@),
    ) + chat_packet(SELF_PLAYER_ID, command_line("tp"@, "Builtin"@)) + help_lines(
        exts,
        exts.len() as int,
    )
}

/// Number of commands that the first `n` extensions registered.
pub open spec fn registered_command_count(exts: Seq<Extension>, n: int) -> nat
    decreases n,
{
    if n <= 0 {
        0
    } else {
        registered_command_count(exts, n - 1) + exts[n - 1].commands@.len()
    }
}

proof fn lemma_command_lines_layout(commands: Seq<(String, rhai::FnPtr)>, owner: Seq<char>, m: int)
    requires
        0 <= m <= commands.len(),
    ensures
        command_lines(commands, owner, m).len() == 66 * m,
        forall|k: int|
            0 <= k < m ==> #[trigger] command_lines(commands, owner, m).subrange(66 * k, 66 * k + 66)
                == chat_packet(SELF_PLAYER_ID, command_line(commands[k].0@, owner)),
    decreases m,
{
    if m > 0 {
        lemma_command_lines_layout(commands, owner, m - 1);
        let prev = command_lines(commands, owner, m - 1);
        let all = command_lines(commands, owner, m);
        let last = chat_packet(SELF_PLAYER_ID, command_line(commands[m - 1].0@, owner));
        assert(all == prev + last);
        assert forall|k: int| 0 <= k < m implies #[trigger] all.subrange(66 * k, 66 * k + 66)
            == chat_packet(SELF_PLAYER_ID, command_line(commands[k].0@, owner)) by {
            if k < m - 1 {
                assert(all.subrange(66 * k, 66 * k + 66) =~= prev.subrange(66 * k, 66 * k + 66));
            } else {
                assert(all.subrange(66 * k, 66 * k + 66) =~= last);
            }
        }
    }
}

proof fn lemma_help_lines_layout(exts: Seq<Extension>, n: int)
    requires
        0 <= n <= exts.len(),
    ensures
        help_lines(exts, n).len() == 66 * registered_command_count(exts, n),
        forall|i: int, k: int|
            #![trigger exts[i].commands@[k]]
            0 <= i < n && 0 <= k < exts[i].commands@.len() ==> help_lines(exts, n).subrange(
                66 * (registered_command_count(exts, i) + k),
                66 * (registered_command_count(exts, i) + k) + 66,
            ) == chat_packet(
                SELF_PLAYER_ID,
                command_line(exts[i].commands@[k].0@, exts[i].metadata.name@),
            ),
    decreases n,
{
    if n > 0 {
        lemma_help_lines_layout(exts, n - 1);
        let e = exts[n - 1];
        lemma_command_lines_layout(e.commands@, e.metadata.name@, e.commands@.len() as int);
        let prev = help_lines(exts, n - 1);
        let mine = command_lines(e.commands@, e.metadata.name@, e.commands@.len() as int);
        let all = help_lines(exts, n);
        assert(all == prev + mine);
        let base = 66 * registered_command_count(exts, n - 1);
        assert forall|i: int, k: int|
            #![trigger exts[i].commands@[k]]
            0 <= i < n && 0 <= k < exts[i].commands@.len() implies all.subrange(
                66 * (registered_command_count(exts, i) + k),
                66 * (registered_command_count(exts, i) + k) + 66,
            ) == chat_packet(
                SELF_PLAYER_ID,
                command_line(exts[i].commands@[k].0@, exts[i].metadata.name@),
            ) by {
            let a = 66 * (registered_command_count(exts, i) + k);
            if i < n - 1 {
                lemma_command_count_grows(exts, i + 1, n - 1);
                assert(a + 66 <= base);
                assert(all.subrange(a, a + 66) =~= prev.subrange(a, a + 66));
            } else {
                assert(a == base + 66 * k);
                assert(all.subrange(a, a + 66) =~= mine.subrange(66 * k, 66 * k + 66));
            }
        }
    }
}

proof fn lemma_command_count_grows(exts: Seq<Extension>, i: int, n: int)
    requires
        0 <= i <= n <= exts.len(),
    ensures
        registered_command_count(exts, i) <= registered_command_count(exts, n),
    decreases n - i,
{
    if i < n {
        lemma_command_count_grows(exts, i, n - 1);
    }
}

/// The `help` listing is one 66-byte chat line per command: "Command listing", the four
/// built-in commands, then every command that every extension registered, in order, each as
/// "&c<name> &a[<extension name>]"; nothing more.
pub proof fn lemma_help_lists_every_command(exts: Seq<Extension>)
    ensures
        command_listing(exts).len() == 66 * (5 + registered_command_count(exts, exts.len() as int)),
        command_listing(exts).subrange(0, 66) == chat_packet(SELF_PLAYER_ID, "Command listing"@),
        command_listing(exts).subrange(66, 132) == chat_packet(
            SELF_PLAYER_ID,
            "&c"@ + "help"@ + " &a["@ + "Builtin"@ + "]"@,
        ),
        command_listing(exts).subrange(264, 330) == chat_packet(
            SELF_PLAYER_ID,
            "&c"@ + "tp"@ + " &a["@ + "Builtin"@ + "]"@,
        ),
        forall|i: int, k: int|
            #![trigger exts[i].commands@[k]]
            0 <= i < exts.len() && 0 <= k < exts[i].commands@.len() ==> command_listing(
                exts,
            ).subrange(
                66 * (5 + registered_command_count(exts, i) + k),
                66 * (5 + registered_command_count(exts, i) + k) + 66,
            ) == chat_packet(
                SELF_PLAYER_ID,
                "&c"@ + exts[i].commands@[k].0@ + " &a["@ + exts[i].metadata.name@ + "]"@,
            ),
{
    lemma_help_lines_layout(exts, exts.len() as int);
    let head = chat_packet(SELF_PLAYER_ID, "Command listing"@) + chat_packet(
        SELF_PLAYER_ID,
        command_line("help"@, "Builtin"@),
    ) + chat_packet(SELF_PLAYER_ID, command_line("extensions"@, "Builtin"@)) + chat_packet(
        SELF_PLAYER_ID,
        command_line("kick"@, "Builtin"@),
    ) + chat_packet(SELF_PLAYER_ID, command_line("tp"@, "Builtin"@));
    let lines = help_lines(exts, exts.len() as int);
    let all = command_listing(exts);
    assert(head.len() == 330);
    assert(all == head + lines);
    assert(all.subrange(0, 66) =~= chat_packet(SELF_PLAYER_ID, "Command listing"@));
    assert(all.subrange(66, 132) =~= chat_packet(SELF_PLAYER_ID, command_line("help"@, "Builtin"@)));
    assert(all.subrange(264, 330) =~= chat_packet(SELF_PLAYER_ID, command_line("tp"@, "Builtin"@)));
    assert forall|i: int, k: int|
        #![trigger exts[i].commands@[k]]
        0 <= i < exts.len() && 0 <= k < exts[i].commands@.len() implies all.subrange(
            66 * (5 + registered_command_count(exts, i) + k),
            66 * (5 + registered_command_count(exts, i) + k) + 66,
        ) == chat_packet(
            SELF_PLAYER_ID,
            "&c"@ + exts[i].commands@[k].0@ + " &a["@ + exts[i].metadata.name@ + "]"@,
        ) by {
        let a = 66 * (registered_command_count(exts, i) + k);
        lemma_command_count_grows(exts, i + 1, exts.len() as int);
        assert(a + 66 <= lines.len());
        assert(all.subrange(330 + a, 330 + a + 66) =~= lines.subrange(a, a + 66));
    }
}

fn command_line_packet(command: &str, owner: &str) -> (packet: Vec<u8>)
    ensures
        packet@ == chat_packet(SELF_PLAYER_ID, command_line(command@, owner@)),
{
    let mut text: Vec<char> = Vec::new();
    push_str_chars(&mut text, "&c");
    push_str_chars(&mut text, command);
    push_str_chars(&mut text, " &a[");
    push_str_chars(&mut text, owner);
    push_str_chars(&mut text, "]");
    assert(text@ =~= command_line(command@, owner@));
    server_chat_chars(&text)
}

/// The answer to the built-in `extensions` command.
pub fn list_extensions(exts: &Vec<Extension>) -> (bytes: Vec<u8>)
    ensures
        bytes@ == extensions_listing(exts@),
{
    let mut res_data = server_chat_str("Extension listing");
    let mut i: usize = 0;
    let ghost head = res_data@;
    while i < exts.len()
        invariant
            i <= exts.len(),
            head == chat_packet(SELF_PLAYER_ID, "Extension listing"@),
            res_data@ == head + listing_lines(exts@, i as int),
        decreases exts.len() - i,
    {
        let m = &exts[i].metadata;
        let mut text: Vec<char> = Vec::new();
        push_str_chars(&mut text, "&a");
        push_str_chars(&mut text, m.name.as_str());
        push_str_chars(&mut text, " &bv");
        let mut v = m.version.display_chars();
        text.append(&mut v);
        assert(text@ =~= extension_line(exts@[i as int].metadata));
        let mut line = server_chat_chars(&text);
        res_data.append(&mut line);
        assert(res_data@ =~= head + listing_lines(exts@, i + 1));
        i += 1;
    }
    res_data
}

/// The answer to the built-in `help` command.
pub fn list_commands(exts: &Vec<Extension>) -> (bytes: Vec<u8>)
    ensures
        bytes@ == command_listing(exts@),
{
    let mut res_data = server_chat_str("Command listing");
    let mut l = command_line_packet("help", "Builtin");
    res_data.append(&mut l);
    let mut l = command_line_packet("extensions", "Builtin");
    res_data.append(&mut l);
    let mut l = command_line_packet("kick", "Builtin");
    res_data.append(&mut l);
    let mut l = command_line_packet("tp", "Builtin");
    res_data.append(&mut l);
    let ghost head = res_data@;
    let mut i: usize = 0;
    while i < exts.len()
        invariant
            i <= exts.len(),
            res_data@ == head + help_lines(exts@, i as int),
        decreases exts.len() - i,
    {
        let ext = &exts[i];
        let ghost before = res_data@;
        let mut j: usize = 0;
        while j < ext.commands.len()
            invariant
                j <= ext.commands.len(),
                res_data@ == before + command_lines(
                    ext.commands@,
                    ext.metadata.name@,
                    j as int,
                ),
            decreases ext.commands.len() - j,
        {
            let mut line = command_line_packet(
                ext.commands[j].0.as_str(),
                ext.metadata.name.as_str(),
            );
            res_data.append(&mut line);
            assert(res_data@ =~= before + command_lines(
                ext.commands@,
                ext.metadata.name@,
                j + 1,
            ));
            j += 1;
        }
        assert(res_data@ =~= head + help_lines(exts@, i + 1));
        i += 1;
    }
    assert(res_data@ =~= command_listing(exts@));
    res_data
}

/// Runs a built-in extension command for a player: `extensions` queues the extension
/// listing, `help` the command listing. Any other command is no built-in: nothing changes
/// and the result is `false`.
pub fn run_builtin_command(
    players: &mut Vec<Player>,
    player: u8,
    key: &str,
    exts: &Vec<Extension>,
) -> (found: bool)
    requires
        player < old(players).len(),
    ensures
        found == (key@ == "extensions"@ || key@ == "help"@),
        final(players).len() == old(players).len(),
        forall|j: int|
            0 <= j < old(players).len() && (j != player || !found) ==> final(players)@[j] == old(
                players,
            )@[j],
        found ==> crate::player::same_but_outgoing(
            final(players)@[player as int],
            old(players)@[player as int],
        ),
        key@ == "extensions"@ ==> final(players)@[player as int].outgoing_data@ == old(
            players,
        )@[player as int].outgoing_data@ + extensions_listing(exts@),
        key@ == "help"@ && key@ != "extensions"@ ==> final(players)@[player as int].outgoing_data@
            == old(players)@[player as int].outgoing_data@ + command_listing(exts@),
{
    let k = chars_of(key);
    if chars_eq_str(&k, "extensions") {
        let mut res_data = list_extensions(exts);
        players[player as usize].outgoing_data.append(&mut res_data);
        return true;
    }
    if chars_eq_str(&k, "help") {
        let mut res_data = list_commands(exts);
        players[player as usize].outgoing_data.append(&mut res_data);
        return true;
    }
    false
}

} // verus!
