use vstd::prelude::*;

use crate::player::{Player, SELF_PLAYER_ID};
use crate::protocol::{
    chat_packet, client_disconnect, disconnect_packet, position_packet, server_chat_str,
    set_position_and_orientation,
};
use crate::text::{chars_eq, chars_eq_str, chars_of, string_from_chars, trim_chars, trimmed};

verus! {

/// `s` split at every space, as `str::split(" ")` does: `k` spaces give `k + 1` words,
/// some of them possibly empty.
pub open spec fn split_spaces(s: Seq<char>) -> Seq<Seq<char>>
    decreases s.len(),
{
    if s.len() == 0 {
        seq![Seq::empty()]
    } else {
        let t = split_spaces(s.drop_last());
        if s.last() == ' ' {
            t.push(Seq::empty())
        } else {
            t.update(t.len() - 1, t.last().push(s.last()))
        }
    }
}

/// The words of a command line: split at spaces after trimming.
pub open spec fn command_words(command: Seq<char>) -> Seq<Seq<char>> {
    split_spaces(trimmed(command))
}

/// The character sequences of a list of words.
pub open spec fn words_view(words: Seq<Vec<char>>) -> Seq<Seq<char>> {
    words.map_values(|w: Vec<char>| w@)
}

/// The character sequences of a list of strings.
pub open spec fn strings_view(strings: Seq<String>) -> Seq<Seq<char>> {
    strings.map_values(|s: String| s@)
}

/// Whether a slot holds a connected player of that name.
pub open spec fn is_named(p: Player, name: Seq<char>) -> bool {
    p.id != SELF_PLAYER_ID && p.username@ == name
}

/// The first slot from `i` on that holds a connected player of that name.
pub open spec fn first_named_from(players: Seq<Player>, name: Seq<char>, i: int) -> Option<int>
    decreases players.len() - i,
{
    if i < 0 || i >= players.len() {
        None
    } else if is_named(players[i], name) {
        Some(i)
    } else {
        first_named_from(players, name, i + 1)
    }
}

/// The first slot that holds a connected player of that name.
pub open spec fn first_named(players: Seq<Player>, name: Seq<char>) -> Option<int> {
    first_named_from(players, name, 0)
}

/// What a command asks of the connection once the player table has been updated.
pub enum CommandOutcome {
    /// Bytes to write back to the client that gave the command.
    Reply(Vec<u8>),
    /// Nothing more to send.
    Handled,
    /// Not a built-in command: hand it to the extensions, with its name and all its words.
    Extension { key: String, args: Vec<String> },
}

/// The slot kicked: it is freed and gets the kick message queued.
pub open spec fn kicked(before: Player, after: Player) -> bool {
    &&& after.id == SELF_PLAYER_ID
    &&& after.outgoing_data@ == before.outgoing_data@ + disconnect_packet("KICKED!"@)
    &&& after.username == before.username
    &&& after.verification_key == before.verification_key
    &&& after.unused == before.unused
    &&& after.position_x == before.position_x
    &&& after.position_y == before.position_y
    &&& after.position_z == before.position_z
    &&& after.yaw == before.yaw
    &&& after.pitch == before.pitch
    &&& after.operator == before.operator
}

proof fn lemma_first_named_bound(players: Seq<Player>, name: Seq<char>, i: int)
    ensures
        first_named_from(players, name, i) matches Some(k) ==> 0 <= k < players.len() && i <= k
            && is_named(players[k], name),
    decreases players.len() - i,
{
    if 0 <= i < players.len() && !is_named(players[i], name) {
        lemma_first_named_bound(players, name, i + 1);
    }
}

proof fn lemma_first_named_from_connected(players: Seq<Player>, name: Seq<char>, i: int)
    requires
        0 <= i,
    ensures
        first_named_from(players, name, i) matches Some(k) ==> {
            &&& i <= k < players.len()
            &&& players[k].id != SELF_PLAYER_ID
            &&& players[k].username@ == name
            &&& forall|j: int|
                i <= j < k ==> #[trigger] players[j].id == SELF_PLAYER_ID || players[j].username@
                    != name
        },
        first_named_from(players, name, i) is None ==> forall|j: int|
            i <= j < players.len() ==> #[trigger] players[j].id == SELF_PLAYER_ID
                || players[j].username@ != name,
    decreases players.len() - i,
{
    if i < players.len() && !is_named(players[i], name) {
        lemma_first_named_from_connected(players, name, i + 1);
    }
}

/// The slot that `kick` and `tp` act on holds a connected player (its id is not 255) of
/// that name, and no earlier slot does; when there is none, no connected player has the
/// name, whatever free slots still hold it.
pub proof fn lemma_named_slot_is_connected(players: Seq<Player>, name: Seq<char>)
    ensures
        first_named(players, name) matches Some(k) ==> {
            &&& 0 <= k < players.len()
            &&& players[k].id != SELF_PLAYER_ID
            &&& players[k].username@ == name
            &&& forall|j: int|
                0 <= j < k ==> #[trigger] players[j].id == SELF_PLAYER_ID || players[j].username@
                    != name
        },
        first_named(players, name) is None ==> forall|j: int|
            0 <= j < players.len() ==> #[trigger] players[j].id == SELF_PLAYER_ID
                || players[j].username@ != name,
{
    lemma_first_named_from_connected(players, name, 0);
}

proof fn lemma_split_nonempty(s: Seq<char>)
    ensures
        split_spaces(s).len() >= 1,
    decreases s.len(),
{
    if s.len() > 0 {
        lemma_split_nonempty(s.drop_last());
    }
}

/// Splits a line at every space.
pub fn split_words(s: &Vec<char>) -> (words: Vec<Vec<char>>)
    ensures
        words_view(words@) == split_spaces(s@),
{
    let mut done: Vec<Vec<char>> = Vec::new();
    let mut cur: Vec<char> = Vec::new();
    let mut i: usize = 0;
    while i < s.len()
        invariant
            i <= s.len(),
            words_view(done@).push(cur@) == split_spaces(s@.take(i as int)),
        decreases s.len() - i,
    {
        let ghost old_done = words_view(done@);
        let ghost old_cur = cur@;
        proof {
            assert(s@.take(i + 1).drop_last() =~= s@.take(i as int));
            assert(s@.take(i + 1).last() == s@[i as int]);
        }
        if s[i] == ' ' {
            let finished = cur;
            done.push(finished);
            cur = Vec::new();
            assert(words_view(done@) =~= old_done.push(old_cur));
            assert(words_view(done@).push(cur@) =~= old_done.push(old_cur).push(Seq::empty()));
        } else {
            cur.push(s[i]);
            assert(words_view(done@).push(cur@) =~= old_done.push(old_cur).update(
                old_done.len() as int,
                old_cur.push(s@[i as int]),
            ));
        }
        i += 1;
    }
    let ghost before = words_view(done@);
    done.push(cur);
    assert(words_view(done@) =~= before.push(cur@));
    assert(s@.take(s.len() as int) =~= s@);
    done
}

/// Index of the first slot that holds a connected player whose name is `name`.
pub fn find_player(players: &Vec<Player>, name: &Vec<char>) -> (r: Option<usize>)
    ensures
        match first_named(players@, name@) {
            Some(k) => r == Some(k as usize),
            None => r is None,
        },
        r matches Some(k) ==> k < players.len() && is_named(players@[k as int], name@),
        first_named(players@, name@) matches Some(k) ==> 0 <= k < players.len(),
{
    proof {
        lemma_first_named_bound(players@, name@, 0);
    }
    let mut i: usize = 0;
    while i < players.len()
        invariant
            i <= players.len(),
            first_named(players@, name@) == first_named_from(players@, name@, i as int),
        decreases players.len() - i,
    {
        if players[i].id != SELF_PLAYER_ID {
            let uname = chars_of(players[i].username.as_str());
            if chars_eq(&uname, name) {
                return Some(i);
            }
        }
        i += 1;
    }
    None
}

/// Runs a chat command of a client. `kick [player]` frees the slot of the first connected
/// player of that name and queues a kick message for it; `tp [player]` answers with that
/// player's position; without a name either answers with its usage. Any other command is
/// handed to the extensions.
pub fn handle_command(players: &mut Vec<Player>, command_string: &String) -> (outcome:
    CommandOutcome)
    ensures
        ({
            let words = command_words(command_string@);
            let old_players = old(players)@;
            let new_players = final(players)@;
            if words[0] == "kick"@ && words.len() == 1 {
                &&& outcome matches CommandOutcome::Reply(b) && b@ == chat_packet(
                    SELF_PLAYER_ID,
                    "&cUsage: kick [player]"@,
                )
                &&& new_players == old_players
            } else if words[0] == "kick"@ {
                &&& outcome is Handled
                &&& new_players.len() == old_players.len()
                &&& match first_named(old_players, words[1]) {
                    Some(k) => kicked(old_players[k], new_players[k]) && forall|j: int|
                        0 <= j < old_players.len() && j != k ==> new_players[j] == old_players[j],
                    None => new_players == old_players,
                }
            } else if words[0] == "tp"@ && words.len() == 1 {
                &&& outcome matches CommandOutcome::Reply(b) && b@ == chat_packet(
                    SELF_PLAYER_ID,
                    "&cUsage: tp [player]"@,
                )
                &&& new_players == old_players
            } else if words[0] == "tp"@ {
                &&& new_players == old_players
                &&& match first_named(old_players, words[1]) {
                    Some(k) => outcome matches CommandOutcome::Reply(b) && b@ == position_packet(
                        SELF_PLAYER_ID,
                        old_players[k].position_x,
                        old_players[k].position_y,
                        old_players[k].position_z,
                        old_players[k].yaw,
                        old_players[k].pitch,
                    ),
                    None => outcome is Handled,
                }
            } else {
                &&& new_players == old_players
                &&& outcome matches CommandOutcome::Extension { key, args } && key@ == words[0]
                    && strings_view(args@) == words
            }
        }),
{
    let raw = chars_of(command_string.as_str());
    let trimmed_chars = trim_chars(&raw);
    let words = split_words(&trimmed_chars);
    proof {
        lemma_split_nonempty(trimmed_chars@);
        assert(words_view(words@)[0] == words@[0]@);
    }
    if chars_eq_str(&words[0], "kick") {
        if words.len() == 1 {
            return CommandOutcome::Reply(server_chat_str("&cUsage: kick [player]"));
        }
        proof {
            assert(words_view(words@)[1] == words@[1]@);
            assert(words@[1]@ == command_words(command_string@)[1]);
        }
        match find_player(players, &words[1]) {
            Some(k) => {
                let ghost before = players@;
                let mut bye = client_disconnect("KICKED!");
                players[k].outgoing_data.append(&mut bye);
                players[k].id = SELF_PLAYER_ID;
                assert(players@[k as int].outgoing_data@ == before[k as int].outgoing_data@
                    + disconnect_packet("KICKED!"@));
                assert(kicked(before[k as int], players@[k as int]));
            },
            None => {},
        }
        CommandOutcome::Handled
    } else if chars_eq_str(&words[0], "tp") {
        if words.len() == 1 {
            return CommandOutcome::Reply(server_chat_str("&cUsage: tp [player]"));
        }
        proof {
            assert(words_view(words@)[1] == words@[1]@);
            assert(words@[1]@ == command_words(command_string@)[1]);
        }
        match find_player(players, &words[1]) {
            Some(k) => {
                let p = &players[k];
                CommandOutcome::Reply(
                    set_position_and_orientation(
                        SELF_PLAYER_ID,
                        p.position_x,
                        p.position_y,
                        p.position_z,
                        p.yaw,
                        p.pitch,
                    ),
                )
            },
            None => CommandOutcome::Handled,
        }
    } else {
        let mut args: Vec<String> = Vec::new();
        let mut i: usize = 0;
        while i < words.len()
            invariant
                i <= words.len(),
                args.len() == i,
                strings_view(args@) == words_view(words@).take(i as int),
            decreases words.len() - i,
        {
            let ghost before = strings_view(args@);
            let w = string_from_chars(&words[i]);
            let ghost wv = w@;
            assert(wv == words@[i as int]@);
            args.push(w);
            assert(args@[i as int]@ == wv);
            assert forall|j: int| 0 <= j <= i implies #[trigger] strings_view(args@)[j]
                == words_view(words@).take(i + 1)[j] by {
                if j < i {
                    assert(strings_view(args@)[j] == before[j]);
                }
            }
            assert(strings_view(args@) =~= words_view(words@).take(i + 1));
            i += 1;
        }
        assert(words_view(words@).take(words.len() as int) =~= words_view(words@));
        let key = string_from_chars(&words[0]);
        CommandOutcome::Extension { key, args }
    }
}

/// What the client is told after an extension ran its command: nothing when a command
/// was found and ran, "&cUnknown command!" when none was found, "&cCommand failed" when it
/// failed.
pub fn extension_command_reply(result: Result<bool, ()>) -> (reply: Option<Vec<u8>>)
    ensures
        match result {
            Ok(true) => reply is None,
            Ok(false) => reply matches Some(b) && b@ == chat_packet(
                SELF_PLAYER_ID,
                "&cUnknown command!"@,
            ),
            Err(_) => reply matches Some(b) && b@ == chat_packet(
                SELF_PLAYER_ID,
                "&cCommand failed"@,
            ),
        },
{
    match result {
        Ok(true) => None,
        Ok(false) => Some(server_chat_str("&cUnknown command!")),
        Err(_) => Some(server_chat_str("&cCommand failed")),
    }
}

} // verus!
