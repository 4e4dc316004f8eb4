//! The session engine: what to do when a connection attempt fails, when the
//! first packet after login arrives, when any later packet arrives, and when
//! the user enters a line. The caller owns the socket and the console: it
//! hands in what it read and carries out what comes back.

use crate::chat::chat_line;
use crate::chat::receive_chat_message;
use crate::cursor::read_array_fixed_cursor;
use crate::cursor::Cursor;
use crate::error::Error;
use crate::packet;
use crate::protocol;
use crate::roster::applied_all;
use crate::roster::create_player_list;
use crate::roster::create_players_string;
use crate::roster::lists;
use crate::roster::names;
use crate::roster::names_in;
use crate::roster::players_line;
use crate::roster::update_at;
use crate::text::eq_ignore_ascii_case;
use crate::text::same_ignoring_case;
use crate::text::trim;
use crate::text::trimmed;
use crate::varint;
use std::collections::HashMap;
use vstd::prelude::*;
use vstd::std_specs::hash::group_hash_axioms;
use vstd::utf8::encode_utf8;

verus! {

broadcast use group_hash_axioms;

/// The number of connection attempts before the client gives up.
pub const MAX_ATTEMPTS: u16 = 5;

/// The longest line, in bytes, that is sent as chat.
pub const MAX_LINE: usize = 255;

/// Where a session stands.
#[derive(Clone, Copy, Debug, PartialEq, Eq, Structural)]
pub enum Phase {
    /// No connection yet.
    Connecting,
    /// Handshake and login are out; the next packet may set the threshold.
    AwaitingCompressionNegotiation,
    /// Packets come in and lines go out.
    Active,
    /// Over, by an error or by the user.
    Terminated,
}

/// What to do about a packet that came in.
#[derive(Clone, Debug, PartialEq, Eq)]
pub enum Reaction {
    /// Nothing.
    Nothing,
    /// Write these bytes, one frame, to the socket.
    Send(Vec<u8>),
    /// Show this line on the console.
    Show(String),
}

/// A `Reaction` by its contents.
pub enum ReactionView {
    Nothing,
    Send(Seq<u8>),
    Show(Seq<char>),
}

impl View for Reaction {
    type V = ReactionView;

    open spec fn view(&self) -> ReactionView {
        match *self {
            Reaction::Nothing => ReactionView::Nothing,
            Reaction::Send(bytes) => ReactionView::Send(bytes@),
            Reaction::Show(line) => ReactionView::Show(line@),
        }
    }
}

/// What to do about a line that the user entered.
#[derive(Clone, Debug, PartialEq, Eq)]
pub enum Command {
    /// Show this listing of the roster.
    List(String),
    /// End the process.
    Quit,
    /// Write these bytes, one frame with the line as chat, to the socket.
    Send(Vec<u8>),
}

/// A `Command` by its contents.
pub enum CommandView {
    List(Seq<char>),
    Quit,
    Send(Seq<u8>),
}

impl View for Command {
    type V = CommandView;

    open spec fn view(&self) -> CommandView {
        match *self {
            Command::List(line) => CommandView::List(line@),
            Command::Quit => CommandView::Quit,
            Command::Send(bytes) => CommandView::Send(bytes@),
        }
    }
}

/// The two frames that open a login.
#[derive(Clone, Debug, PartialEq, Eq)]
pub struct Opening {
    /// The handshake, with the login intent.
    pub handshake: Vec<u8>,
    /// The login start, with the chosen name.
    pub login_start: Vec<u8>,
}

/// After attempt number `failed` has failed: the number of the next attempt,
/// or `ConnectFailed` where that was the last one.
pub fn next_attempt(failed: u16) -> (r: Result<u16, Error>)
    ensures
        match r {
            Ok(next) => failed < MAX_ATTEMPTS && next == failed + 1,
            Err(e) => failed >= MAX_ATTEMPTS && e == Error::ConnectFailed,
        },
{
    if failed >= MAX_ATTEMPTS {
        Err(Error::ConnectFailed)
    } else {
        Ok(failed + 1)
    }
}

/// The threshold that the first packet `(id, payload)` after the login sets:
/// the one in its payload where it is the packet that sets one, else none.
pub open spec fn negotiated(id: i32, payload: Seq<u8>) -> Result<Option<i32>, Error> {
    if id == protocol::SET_COMPRESSION {
        match varint::decoding(payload) {
            Some((threshold, _)) => Ok(Some(threshold)),
            None => Err(Error::MalformedVarInt),
        }
    } else {
        Ok(None)
    }
}

/// The threshold that the first packet after the login sets, if it sets one.
/// A packet of any other kind is dropped.
pub fn negotiate(id: i32, payload: &[u8]) -> (r: Result<Option<i32>, Error>)
    ensures
        r == negotiated(id, payload@),
{
    if id == protocol::SET_COMPRESSION {
        match varint::decode(payload) {
            Ok((threshold, _)) => Ok(Some(threshold)),
            Err(e) => Err(e),
        }
    } else {
        Ok(None)
    }
}

/// The frame that answers a keep-alive whose payload is `payload`: the first
/// eight bytes go back as they came, under the threshold in force.
pub open spec fn keep_alive_reply(payload: Seq<u8>, threshold: i32) -> Result<Seq<u8>, Error> {
    if payload.len() < protocol::TOKEN_BYTES {
        Err(Error::ProtocolDecodeError)
    } else {
        match packet::frame_of(
            protocol::KEEP_ALIVE_OUT,
            payload.take(protocol::TOKEN_BYTES as int),
            threshold,
        ) {
            Some(frame) => Ok(frame),
            None => Err(Error::DecompressionError),
        }
    }
}

/// Reads the token of a keep-alive at the cursor, stops behind it and gives
/// the one frame that answers it. A reader under the same threshold finds in
/// that frame the answer's packet with the token as its payload. On an error
/// the cursor stays where it was.
pub fn send_keep_alive_packet(cursor: &mut Cursor, threshold: i32) -> (r: Result<Vec<u8>, Error>)
    ensures
        final(cursor).bytes() == old(cursor).bytes(),
        final(cursor).position() <= final(cursor).bytes().len(),
        match r {
            Ok(frame) => {
                &&& keep_alive_reply(old(cursor).remaining(), threshold) == Ok::<Seq<u8>, Error>(
                    frame@,
                )
                &&& packet::received(frame@, threshold) == Ok::<((i32, Seq<u8>), nat), Error>(
                    (
                        (
                            protocol::KEEP_ALIVE_OUT,
                            old(cursor).remaining().take(protocol::TOKEN_BYTES as int),
                        ),
                        frame@.len(),
                    ),
                )
                &&& final(cursor).position() == old(cursor).position() + protocol::TOKEN_BYTES
            },
            Err(e) => {
                &&& keep_alive_reply(old(cursor).remaining(), threshold) == Err::<Seq<u8>, Error>(
                    e,
                )
                &&& final(cursor).position() == old(cursor).position()
            },
        },
{
    let at: usize = cursor.pos();
    let token = match read_array_fixed_cursor(cursor, protocol::TOKEN_BYTES) {
        Ok(v) => v,
        Err(e) => {
            return Err(e);
        },
    };
    match packet::send_packet(protocol::KEEP_ALIVE_OUT, token.as_slice(), threshold) {
        Ok(frame) => Ok(frame),
        Err(e) => {
            cursor.seek(at);
            Err(e)
        },
    }
}

/// What a packet `(id, payload)` leads to under `threshold` with the roster
/// `roster`: the reaction and the roster afterwards, or the error that ends
/// the session. A keep-alive is answered, a chat message shown, a roster
/// update made, anything else ignored.
pub open spec fn dispatched(
    id: i32,
    payload: Seq<u8>,
    threshold: i32,
    roster: Map<u128, Seq<char>>,
) -> Result<(ReactionView, Map<u128, Seq<char>>), Error> {
    if id == protocol::KEEP_ALIVE_IN {
        match keep_alive_reply(payload, threshold) {
            Ok(frame) => Ok((ReactionView::Send(frame), roster)),
            Err(e) => Err(e),
        }
    } else if id == protocol::CHAT_IN {
        match chat_line(payload) {
            Ok((line, _)) => Ok((ReactionView::Show(line), roster)),
            Err(e) => Err(e),
        }
    } else if id == protocol::PLAYER_LIST {
        match update_at(payload) {
            Ok((changes, _)) => Ok((ReactionView::Nothing, applied_all(roster, changes))),
            Err(e) => Err(e),
        }
    } else {
        Ok((ReactionView::Nothing, roster))
    }
}

/// Handles one packet that came in while the session is active. On an error
/// the roster is as it was.
pub fn dispatch(
    roster: &mut HashMap<u128, String>,
    id: i32,
    payload: Vec<u8>,
    threshold: i32,
) -> (r: Result<Reaction, Error>)
    ensures
        match r {
            Ok(reaction) => dispatched(id, payload@, threshold, names(old(roster)@)) == Ok::<
                (ReactionView, Map<u128, Seq<char>>),
                Error,
            >((reaction@, names(final(roster)@))),
            Err(e) => {
                &&& dispatched(id, payload@, threshold, names(old(roster)@)) == Err::<
                    (ReactionView, Map<u128, Seq<char>>),
                    Error,
                >(e)
                &&& final(roster)@ == old(roster)@
            },
        },
{
    let ghost bytes = payload@;
    let mut cursor = Cursor::new(payload);
    proof {
        assert(cursor.remaining() =~= bytes);
    }
    if id == protocol::KEEP_ALIVE_IN {
        match send_keep_alive_packet(&mut cursor, threshold) {
            Ok(frame) => Ok(Reaction::Send(frame)),
            Err(e) => Err(e),
        }
    } else if id == protocol::CHAT_IN {
        match receive_chat_message(&mut cursor) {
            Ok(line) => Ok(Reaction::Show(line)),
            Err(e) => Err(e),
        }
    } else if id == protocol::PLAYER_LIST {
        match create_player_list(&mut cursor, roster) {
            Ok(_) => Ok(Reaction::Nothing),
            Err(e) => Err(e),
        }
    } else {
        Ok(Reaction::Nothing)
    }
}

/// The bytes of the command that lists the roster.
pub open spec fn list_word() -> Seq<u8> {
    seq![0x2eu8, 0x6c, 0x69, 0x73, 0x74]
}

/// The bytes of the command that ends the process.
pub open spec fn quit_word() -> Seq<u8> {
    seq![0x2eu8, 0x71, 0x75, 0x69, 0x74]
}

/// Why the text `text` of a line is not acted on under `threshold`, if it is
/// not: longer than 255 bytes it is rejected; a text that is to go out as
/// chat and on whose packet the compressor fails cannot be sent.
pub open spec fn refusal(text: Seq<char>, threshold: i32) -> Option<Error> {
    let bytes = encode_utf8(text);
    if bytes.len() > MAX_LINE {
        Some(Error::LocalInputRejected)
    } else if same_ignoring_case(bytes, list_word()) || same_ignoring_case(bytes, quit_word()) {
        None
    } else if packet::frame_of(protocol::CHAT_OUT, protocol::string_field(text), threshold)
        is None {
        Some(Error::DecompressionError)
    } else {
        None
    }
}

/// Whether `command` is what the text `text` of a line, which is acted on,
/// calls for under `threshold` with the roster `roster`: `.list` and `.quit`,
/// in either case of their letters, list the roster and end the process; any
/// other text, an empty one too, goes out as chat in one frame.
pub open spec fn answers(
    command: CommandView,
    text: Seq<char>,
    threshold: i32,
    roster: Map<u128, String>,
) -> bool {
    let bytes = encode_utf8(text);
    if same_ignoring_case(bytes, list_word()) {
        exists|order: Seq<u128>| #[trigger]
            lists(order, roster) && command == CommandView::List(
                players_line(names_in(order, roster)),
            )
    } else if same_ignoring_case(bytes, quit_word()) {
        command == CommandView::Quit
    } else {
        packet::frame_of(protocol::CHAT_OUT, protocol::string_field(text), threshold) == Some(
            command->Send_0,
        ) && command is Send
    }
}

/// Whether a text that is no command is sure to go out under `threshold`:
/// compression is off, or its packet is shorter than the threshold.
pub open spec fn goes_uncompressed(text: Seq<char>, threshold: i32) -> bool {
    threshold < 0 || packet::raw_packet(protocol::CHAT_OUT, protocol::string_field(text)).len()
        < threshold
}

/// What to do about the text of a line, taken as it is: `LocalInputRejected`
/// where it is longer than 255 bytes, `DecompressionError` where it cannot be
/// sent. A text of at most 255 bytes that goes uncompressed is acted on.
pub fn command_for(roster: &HashMap<u128, String>, text: &str, threshold: i32) -> (r: Result<
    Command,
    Error,
>)
    ensures
        encode_utf8(text@).len() > MAX_LINE ==> r == Err::<Command, Error>(
            Error::LocalInputRejected,
        ),
        encode_utf8(text@).len() <= MAX_LINE && goes_uncompressed(text@, threshold) ==> r is Ok,
        match r {
            Ok(command) => refusal(text@, threshold) is None && answers(
                command@,
                text@,
                threshold,
                roster@,
            ),
            Err(e) => refusal(text@, threshold) == Some(e),
        },
{
    let bytes = text.as_bytes();
    if bytes.len() > MAX_LINE {
        return Err(Error::LocalInputRejected);
    }
    let list: Vec<u8> = vec![0x2eu8, 0x6c, 0x69, 0x73, 0x74];
    let quit: Vec<u8> = vec![0x2eu8, 0x71, 0x75, 0x69, 0x74];
    proof {
        assert(list@ =~= list_word());
        assert(quit@ =~= quit_word());
    }
    if eq_ignore_ascii_case(bytes, list.as_slice()) {
        return Ok(Command::List(create_players_string(roster)));
    }
    if eq_ignore_ascii_case(bytes, quit.as_slice()) {
        return Ok(Command::Quit);
    }
    let payload = protocol::string_payload(text);
    proof {
        packet::lemma_raw_packet(protocol::CHAT_OUT, payload@);
    }
    match packet::send_packet(protocol::CHAT_OUT, payload.as_slice(), threshold) {
        Ok(frame) => Ok(Command::Send(frame)),
        Err(e) => Err(e),
    }
}

/// What to do about a line that the user entered: what its text calls for
/// once the white space at its two ends is taken off. A line of at most 255
/// bytes is never rejected for its length, and is acted on while compression
/// is off.
pub fn command(roster: &HashMap<u128, String>, line: &str, threshold: i32) -> (r: Result<
    Command,
    Error,
>)
    ensures
        encode_utf8(line@).len() <= MAX_LINE ==> r != Err::<Command, Error>(
            Error::LocalInputRejected,
        ),
        encode_utf8(line@).len() <= MAX_LINE && threshold < 0 ==> r is Ok,
        match r {
            Ok(command) => refusal(trimmed(line@), threshold) is None && answers(
                command@,
                trimmed(line@),
                threshold,
                roster@,
            ),
            Err(e) => refusal(trimmed(line@), threshold) == Some(e),
        },
{
    command_for(roster, trim(line), threshold)
}

/// A session by its contents.
pub struct SessionView {
    /// Where the session stands.
    pub phase: Phase,
    /// The number of the connection attempt under way, from 1.
    pub attempt: u16,
    /// The compression threshold in force; negative for none.
    pub threshold: i32,
    /// The display names of the known participants, by identifier.
    pub roster: Map<u128, Seq<char>>,
}

/// A session: its phase, the compression threshold and the roster.
pub struct Session {
    phase: Phase,
    attempt: u16,
    threshold: i32,
    roster: HashMap<u128, String>,
}

impl View for Session {
    type V = SessionView;

    closed spec fn view(&self) -> SessionView {
        SessionView {
            phase: self.phase,
            attempt: self.attempt,
            threshold: self.threshold,
            roster: names(self.roster@),
        }
    }
}

impl Session {
    /// Before the session is active no threshold is in force and nobody is
    /// known; the attempt under way is one of the five.
    pub open spec fn well_formed(view: SessionView) -> bool {
        &&& 1 <= view.attempt <= MAX_ATTEMPTS
        &&& (view.phase is Connecting || view.phase is AwaitingCompressionNegotiation) ==> {
            &&& view.threshold == protocol::NO_COMPRESSION
            &&& view.roster == Map::<u128, Seq<char>>::empty()
        }
    }

    /// The roster as the map that holds it.
    pub closed spec fn roster_map(self) -> Map<u128, String> {
        self.roster@
    }

    /// A session that has yet to connect: first attempt, no threshold, nobody
    /// known.
    pub fn new() -> (session: Session)
        ensures
            session@ == (SessionView {
                phase: Phase::Connecting,
                attempt: 1,
                threshold: protocol::NO_COMPRESSION,
                roster: Map::<u128, Seq<char>>::empty(),
            }),
            Self::well_formed(session@),
    {
        let session = Session {
            phase: Phase::Connecting,
            attempt: 1,
            threshold: protocol::NO_COMPRESSION,
            roster: HashMap::new(),
        };
        proof {
            assert(names(session.roster@) =~= Map::<u128, Seq<char>>::empty());
        }
        session
    }

    /// Where the session stands.
    pub fn phase(&self) -> (phase: Phase)
        ensures
            phase == self@.phase,
    {
        self.phase
    }

    /// The number of the connection attempt under way.
    pub fn attempt(&self) -> (attempt: u16)
        ensures
            attempt == self@.attempt,
    {
        self.attempt
    }

    /// The compression threshold in force.
    pub fn threshold(&self) -> (threshold: i32)
        ensures
            threshold == self@.threshold,
    {
        self.threshold
    }

    /// The roster.
    pub fn roster(&self) -> (roster: &HashMap<u128, String>)
        ensures
            roster@ == self.roster_map(),
            names(roster@) == self@.roster,
    {
        &self.roster
    }

    /// The connection attempt under way has failed: the session goes on to
    /// the next attempt, or ends with `ConnectFailed` after the fifth.
    pub fn connect_failed(&mut self) -> (r: Result<u16, Error>)
        requires
            old(self)@.phase is Connecting,
        ensures
            Self::well_formed(old(self)@) ==> Self::well_formed(final(self)@),
            match r {
                Ok(next) => old(self)@.attempt < MAX_ATTEMPTS && next == old(self)@.attempt + 1
                    && final(self)@ == (SessionView { attempt: next, ..old(self)@ }),
                Err(e) => {
                    &&& e == Error::ConnectFailed
                    &&& old(self)@.attempt >= MAX_ATTEMPTS
                    &&& final(self)@ == (SessionView { phase: Phase::Terminated, ..old(self)@ })
                },
            },
    {
        match next_attempt(self.attempt) {
            Ok(next) => {
                self.attempt = next;
                Ok(next)
            },
            Err(e) => {
                self.phase = Phase::Terminated;
                Err(e)
            },
        }
    }

    /// The connection stands: the two frames to write, handshake and login
    /// start, both with compression off. The session then awaits the packet
    /// that may set the threshold.
    pub fn connected(&mut self, host: &str, port: u16, username: &str) -> (opening: Opening)
        requires
            old(self)@.phase is Connecting,
            encode_utf8(host@).len() <= protocol::MAX_STRING,
            encode_utf8(username@).len() <= protocol::MAX_STRING,
        ensures
            Self::well_formed(old(self)@) ==> Self::well_formed(final(self)@),
            final(self)@ == (SessionView {
                phase: Phase::AwaitingCompressionNegotiation,
                ..old(self)@
            }),
            packet::frame_of(
                protocol::HANDSHAKE,
                protocol::handshake(host@, port, protocol::INTENT_LOGIN),
                protocol::NO_COMPRESSION,
            ) == Some(opening.handshake@),
            packet::frame_of(
                protocol::LOGIN_START,
                protocol::string_field(username@),
                protocol::NO_COMPRESSION,
            ) == Some(opening.login_start@),
    {
        let handshake = protocol::send_handshake_packet(host, port, protocol::INTENT_LOGIN);
        let name = protocol::string_payload(username);
        let login_start = packet::send_packet_raw(protocol::LOGIN_START, name.as_slice());
        self.phase = Phase::AwaitingCompressionNegotiation;
        Opening { handshake, login_start }
    }

    /// Reading from the socket has failed: the session ends with
    /// `ConnectionClosed`.
    pub fn closed(&mut self) -> (e: Error)
        ensures
            Self::well_formed(old(self)@) ==> Self::well_formed(final(self)@),
            e == Error::ConnectionClosed,
            final(self)@ == (SessionView { phase: Phase::Terminated, ..old(self)@ }),
    {
        self.phase = Phase::Terminated;
        Error::ConnectionClosed
    }

    /// The body of the first frame after the login has come in. Where its
    /// packet sets the threshold, that threshold is in force from now on and
    /// is handed back; any other packet is dropped and compression stays off.
    /// Either way the session is active; a body that does not decode ends it.
    pub fn first_packet(&mut self, body: &[u8]) -> (r: Result<Option<i32>, Error>)
        requires
            old(self)@.phase is AwaitingCompressionNegotiation,
        ensures
            Self::well_formed(old(self)@) ==> Self::well_formed(final(self)@),
            match r {
                Ok(set) => {
                    &&& packet::packet_of(body@, protocol::NO_COMPRESSION) matches Ok((id, payload))
                    &&& negotiated(id, payload) == Ok::<Option<i32>, Error>(set)
                    &&& final(self)@ == (SessionView {
                        phase: Phase::Active,
                        threshold: match set {
                            Some(threshold) => threshold,
                            None => old(self)@.threshold,
                        },
                        ..old(self)@
                    })
                },
                Err(e) => {
                    &&& match packet::packet_of(body@, protocol::NO_COMPRESSION) {
                        Ok((id, payload)) => negotiated(id, payload) == Err::<Option<i32>, Error>(
                            e,
                        ),
                        Err(first) => e == first,
                    }
                    &&& final(self)@ == (SessionView { phase: Phase::Terminated, ..old(self)@ })
                },
            },
    {
        let decoded = match packet::decode_body(body, protocol::NO_COMPRESSION) {
            Ok((id, payload)) => negotiate(id, payload.as_slice()),
            Err(e) => Err(e),
        };
        match decoded {
            Ok(set) => {
                match set {
                    Some(threshold) => {
                        self.threshold = threshold;
                    },
                    None => {},
                }
                self.phase = Phase::Active;
                Ok(set)
            },
            Err(e) => {
                self.phase = Phase::Terminated;
                Err(e)
            },
        }
    }

    /// The body of a frame has come in while the session is active: what to
    /// do about its packet. A body or a packet that does not decode ends the
    /// session and leaves the roster as it was.
    pub fn packet(&mut self, body: &[u8]) -> (r: Result<Reaction, Error>)
        requires
            old(self)@.phase is Active,
        ensures
            Self::well_formed(old(self)@) ==> Self::well_formed(final(self)@),
            match r {
                Ok(reaction) => {
                    &&& packet::packet_of(body@, old(self)@.threshold) matches Ok((id, payload))
                    &&& dispatched(id, payload, old(self)@.threshold, old(self)@.roster) == Ok::<
                        (ReactionView, Map<u128, Seq<char>>),
                        Error,
                    >((reaction@, final(self)@.roster))
                    &&& final(self)@ == (SessionView { roster: final(self)@.roster, ..old(self)@ })
                },
                Err(e) => {
                    &&& match packet::packet_of(body@, old(self)@.threshold) {
                        Ok((id, payload)) => dispatched(
                            id,
                            payload,
                            old(self)@.threshold,
                            old(self)@.roster,
                        ) == Err::<(ReactionView, Map<u128, Seq<char>>), Error>(e),
                        Err(first) => e == first,
                    }
                    &&& final(self)@ == (SessionView { phase: Phase::Terminated, ..old(self)@ })
                },
            },
    {
        let outcome = match packet::decode_body(body, self.threshold) {
            Ok((id, payload)) => dispatch(&mut self.roster, id, payload, self.threshold),
            Err(e) => Err(e),
        };
        match outcome {
            Ok(reaction) => Ok(reaction),
            Err(e) => {
                self.phase = Phase::Terminated;
                Err(e)
            },
        }
    }

    /// The user has entered a line while the session is active: what to do
    /// about it. The command that ends the process ends the session, and so
    /// does a line that cannot be sent; a line that is too long is rejected
    /// and changes nothing.
    pub fn line(&mut self, line: &str) -> (r: Result<Command, Error>)
        requires
            old(self)@.phase is Active,
        ensures
            Self::well_formed(old(self)@) ==> Self::well_formed(final(self)@),
            final(self).roster_map() == old(self).roster_map(),
            encode_utf8(line@).len() <= MAX_LINE ==> r != Err::<Command, Error>(
                Error::LocalInputRejected,
            ),
            match r {
                Ok(command) => {
                    &&& refusal(trimmed(line@), old(self)@.threshold) is None
                    &&& answers(
                        command@,
                        trimmed(line@),
                        old(self)@.threshold,
                        old(self).roster_map(),
                    )
                    &&& final(self)@ == (SessionView {
                        phase: if command is Quit {
                            Phase::Terminated
                        } else {
                            Phase::Active
                        },
                        ..old(self)@
                    })
                },
                Err(e) => {
                    &&& refusal(trimmed(line@), old(self)@.threshold) == Some(e)
                    &&& final(self)@ == (SessionView {
                        phase: if e == Error::LocalInputRejected {
                            Phase::Active
                        } else {
                            Phase::Terminated
                        },
                        ..old(self)@
                    })
                },
            },
    {
        match command(&self.roster, line, self.threshold) {
            Ok(Command::Quit) => {
                self.phase = Phase::Terminated;
                Ok(Command::Quit)
            },
            Ok(other) => Ok(other),
            Err(Error::LocalInputRejected) => Err(Error::LocalInputRejected),
            Err(e) => {
                self.phase = Phase::Terminated;
                Err(e)
            },
        }
    }
}

} // verus!
