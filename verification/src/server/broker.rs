use vstd::prelude::*;
use vstd::string::*;

use crate::comms::protocol::{
    chat_line, chat_text, handshake_line, is_exit_command, is_exit_line, law_handshake_round_trip,
    nick_prefix, parse_nickname_handshake, valid_nickname,
};
use crate::comms::session::ConsoleStep;
use crate::server::clients::{
    has_address, law_rename, shown_name, with_nickname, ClientId, ClientRegistry, Member,
};
use crate::text::{has_prefix, trimmed};

verus! {

/// The line every client receives when the server shuts down.
pub const SHUTDOWN_NOTICE: &'static str = "[system] server shutting down";

/// The name under which the server operator speaks.
pub open spec fn server_name() -> Seq<char> {
    seq!['s', 'e', 'r', 'v', 'e', 'r']
}

/// The announcement that the client at `address` now goes by `name`.
pub open spec fn rename_text(address: Seq<char>, name: Seq<char>) -> Seq<char> {
    seq!['[', 's', 'y', 's', 't', 'e', 'm', ']', ' '] + address + seq![
        ' ',
        'i',
        's',
        ' ',
        'n',
        'o',
        'w',
        ' ',
        'k',
        'n',
        'o',
        'w',
        'n',
        ' ',
        'a',
        's',
        ' ',
    ] + name
}

/// Decides what the server does with a line typed by its operator: it stops on
/// `exit`, and otherwise broadcasts the line under the name `server`.
pub fn server_input_step(line: &str) -> (step: ConsoleStep)
    ensures
        match step {
            ConsoleStep::Quit => is_exit_line(line@),
            ConsoleStep::Send(text) => !is_exit_line(line@) && text@ == chat_text(
                server_name(),
                line@,
            ),
        },
{
    proof {
        reveal_strlit("server");
    }
    if is_exit_command(line) {
        ConsoleStep::Quit
    } else {
        ConsoleStep::Send(chat_line("server", line))
    }
}

/// What came of one attempt to accept a connection.
pub enum AcceptOutcome {
    /// A client connected.
    Accepted,
    /// No client was waiting.
    WouldBlock,
    /// Accepting failed.
    Failed,
}

/// What the accepting loop does next.
pub enum AcceptAction {
    /// Register the new client and relay its lines.
    Register,
    /// Pause briefly and try again.
    Wait,
    /// Stop accepting; report the failure when `report` holds.
    Stop { report: bool },
}

/// Decides how the accepting loop goes on after `outcome`, where
/// `still_running` tells whether the server has not begun to shut down: a
/// failure is reported only while the server still runs.
pub fn accept_action(outcome: AcceptOutcome, still_running: bool) -> (action: AcceptAction)
    ensures
        match outcome {
            AcceptOutcome::Accepted => action is Register,
            AcceptOutcome::WouldBlock => action is Wait,
            AcceptOutcome::Failed => action == (AcceptAction::Stop { report: still_running }),
        },
{
    match outcome {
        AcceptOutcome::Accepted => AcceptAction::Register,
        AcceptOutcome::WouldBlock => AcceptAction::Wait,
        AcceptOutcome::Failed => AcceptAction::Stop { report: still_running },
    }
}

/// What the server does with one line received from a client.
pub enum RelayStep {
    /// The client took a nickname; print this announcement.
    Renamed(String),
    /// The line was a handshake that changed nothing.
    Unchanged,
    /// Print this line and broadcast it to every client.
    Broadcast(String),
}

/// The name carried by the handshake line `line`.
pub open spec fn handshake_name(line: Seq<char>) -> Seq<char> {
    line.skip(nick_prefix().len() as int)
}

/// Decides what the server does with `line`, received from the client at `id`:
/// a handshake renames the client when the name is valid and the client is
/// registered; any other line goes to everyone, under the client's shown name.
pub fn relay_step<W>(registry: &mut ClientRegistry<W>, id: &ClientId, line: &str) -> (step:
    RelayStep)
    ensures
        has_prefix(line@, nick_prefix()) ==> {
            let name = handshake_name(line@);
            let renamed = valid_nickname(name) && has_address(old(registry)@, id@);
            &&& final(registry)@ == if valid_nickname(name) {
                with_nickname(old(registry)@, id@, trimmed(name))
            } else {
                old(registry)@
            }
            &&& match step {
                RelayStep::Renamed(text) => renamed && text@ == rename_text(
                    id@,
                    shown_name(final(registry)@, id@),
                ),
                RelayStep::Unchanged => !renamed,
                RelayStep::Broadcast(_) => false,
            }
        },
        !has_prefix(line@, nick_prefix()) ==> {
            &&& final(registry)@ == old(registry)@
            &&& match step {
                RelayStep::Broadcast(text) => text@ == chat_text(
                    shown_name(old(registry)@, id@),
                    line@,
                ),
                _ => false,
            }
        },
{
    match parse_nickname_handshake(line) {
        Some(name) => {
            proof {
                assert(name@ =~= handshake_name(line@));
                assert(has_prefix(line@, nick_prefix())) by {
                    assert(line@.subrange(0, 5) =~= nick_prefix());
                }
            }
            if registry.set_nickname(id, name) {
                let shown = registry.display_name(id);
                RelayStep::Renamed(rename_notice(id.address(), shown.as_str()))
            } else {
                RelayStep::Unchanged
            }
        },
        None => {
            let sender = registry.display_name(id);
            RelayStep::Broadcast(chat_line(sender.as_str(), line))
        },
    }
}

/// Builds the announcement that the client at `address` now goes by `name`.
fn rename_notice(address: &str, name: &str) -> (text: String)
    ensures
        text@ == rename_text(address@, name@),
{
    proof {
        reveal_strlit("[system] ");
        reveal_strlit(" is now known as ");
    }
    let mut text = String::from_str("[system] ");
    text.append(address);
    text.append(" is now known as ");
    text.append(name);
    proof {
        assert(text@ =~= rename_text(address@, name@));
    }
    text
}

/// A registered client that sends the handshake for a valid nickname is
/// renamed to that nickname, trimmed: the announcement and every later line it
/// sends carry that name.
pub proof fn law_handshake_renames<W>(
    members: Seq<Member<W>>,
    address: Seq<char>,
    name: Seq<char>,
    message: Seq<char>,
)
    requires
        has_address(members, address),
        valid_nickname(name),
    ensures
        has_prefix(handshake_line(name), nick_prefix()),
        handshake_name(handshake_line(name)) == name,
        rename_text(address, shown_name(with_nickname(members, address, trimmed(name)), address))
            == rename_text(address, trimmed(name)),
        chat_text(shown_name(with_nickname(members, address, trimmed(name)), address), message)
            == chat_text(trimmed(name), message),
{
    law_handshake_round_trip(name, name);
    assert(handshake_line(name).skip(5) =~= name);
    law_rename(members, address, trimmed(name), address);
}

/// The rename announcement is `[system] `, the whole address,
/// ` is now known as `, then the whole new name.
pub proof fn law_rename_text(address: Seq<char>, name: Seq<char>)
    ensures
        rename_text(address, name).len() == address.len() + name.len() + 26,
        rename_text(address, name).take(9) == seq!['[', 's', 'y', 's', 't', 'e', 'm', ']', ' '],
        rename_text(address, name).subrange(9, 9 + address.len() as int) == address,
        rename_text(address, name).skip(address.len() + 26 as int) == name,
{
    let text = rename_text(address, name);
    assert(text.take(9) =~= seq!['[', 's', 'y', 's', 't', 'e', 'm', ']', ' ']);
    assert(text.subrange(9, 9 + address.len() as int) =~= address);
    assert(text.skip(address.len() + 26 as int) =~= name);
}

} // verus!
