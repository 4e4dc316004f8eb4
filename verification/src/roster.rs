//! The roster of known participants, and the packet that updates it.

use crate::bytes::big_endian;
use crate::bytes::u128_from_be;
use crate::cursor::dynamic_array;
use crate::cursor::lemma_advance;
use crate::cursor::moved;
use crate::cursor::read_array_dynamic_cursor;
use crate::cursor::read_array_fixed_cursor;
use crate::cursor::read_varint_cursor;
use crate::cursor::varint_at;
use crate::cursor::Cursor;
use crate::error::Error;
use crate::text::decimal;
use crate::text::decimal_string;
use crate::text::string_from_utf8;
use crate::varint;
use std::collections::HashMap;
use vstd::prelude::*;
use vstd::std_specs::hash::group_hash_axioms;
use vstd::std_specs::iter::IteratorSpec;
use vstd::string::StringExecFns;
use vstd::utf8::decode_utf8;
use vstd::utf8::valid_utf8;

verus! {

broadcast use group_hash_axioms;

/// The display names of a roster, by identifier.
pub open spec fn names(roster: Map<u128, String>) -> Map<u128, Seq<char>> {
    Map::new(|id: u128| roster.contains_key(id), |id: u128| roster[id]@)
}

/// The action code that adds participants.
pub const ACTION_ADD: i32 = 0;

/// The action code that updates a game mode.
pub const ACTION_UPDATE_GAME_MODE: i32 = 1;

/// The action code that updates a latency.
pub const ACTION_UPDATE_LATENCY: i32 = 2;

/// The action code that updates a display name.
pub const ACTION_UPDATE_DISPLAY_NAME: i32 = 3;

/// The action code that removes participants.
pub const ACTION_REMOVE: i32 = 4;

/// One entry of a roster update, as far as the roster is concerned.
#[derive(Clone, Debug, PartialEq, Eq)]
pub enum RosterChange {
    /// A participant to add under `name`, unless the identifier is known.
    Add { id: u128, name: String },
    /// An update of game mode, latency or display name: read, and nothing
    /// kept of it.
    Update { id: u128 },
    /// A participant to remove.
    Remove { id: u128 },
}

/// A `RosterChange` with its name as characters.
pub enum Change {
    Add { id: u128, name: Seq<char> },
    Update { id: u128 },
    Remove { id: u128 },
}

impl View for RosterChange {
    type V = Change;

    open spec fn view(&self) -> Change {
        match *self {
            RosterChange::Add { id, name } => Change::Add { id, name: name@ },
            RosterChange::Update { id } => Change::Update { id },
            RosterChange::Remove { id } => Change::Remove { id },
        }
    }
}

/// The changes of a list, each by its view.
pub open spec fn views(changes: Seq<RosterChange>) -> Seq<Change> {
    changes.map_values(|c: RosterChange| c@)
}

/// Whether `action` is one of the five action codes.
pub open spec fn known_action(action: i32) -> bool {
    ACTION_ADD <= action <= ACTION_REMOVE
}

/// The length of an optional array at the head of `bytes`: a flag byte and,
/// where the flag is 1, a length-prefixed array.
pub open spec fn flagged_array(bytes: Seq<u8>) -> Result<nat, Error> {
    if bytes.len() < 1 {
        Err(Error::ProtocolDecodeError)
    } else if bytes[0] == 1 {
        match dynamic_array(bytes.skip(1)) {
            Ok((_, used)) => Ok(used + 1),
            Err(e) => Err(e),
        }
    } else {
        Ok(1)
    }
}

/// The length of one property at the head of `bytes`: a name, a value, and
/// an optional signature.
#[verifier::opaque]
pub open spec fn property(bytes: Seq<u8>) -> Result<nat, Error> {
    match dynamic_array(bytes) {
        Err(e) => Err(e),
        Ok((_, a)) => match dynamic_array(bytes.skip(a as int)) {
            Err(e) => Err(e),
            Ok((_, b)) => match flagged_array(bytes.skip((a + b) as int)) {
                Err(e) => Err(e),
                Ok(c) => Ok(a + b + c),
            },
        },
    }
}

/// The length of `count` properties at the head of `bytes`.
pub open spec fn properties(bytes: Seq<u8>, count: nat) -> Result<nat, Error>
    decreases count,
{
    if count == 0 {
        Ok(0)
    } else {
        match property(bytes) {
            Err(e) => Err(e),
            Ok(a) => match properties(bytes.skip(a as int), (count - 1) as nat) {
                Err(e) => Err(e),
                Ok(b) => Ok(a + b),
            },
        }
    }
}

/// A count read off the wire as a number of things to read: none where it is
/// negative.
pub open spec fn as_count(n: i32) -> nat {
    if n < 0 {
        0
    } else {
        n as nat
    }
}

/// The name at the head of `bytes`: a length-prefixed array that must be
/// UTF-8.
pub open spec fn name_at(bytes: Seq<u8>) -> Result<(Seq<char>, nat), Error> {
    match dynamic_array(bytes) {
        Err(e) => Err(e),
        Ok((raw, used)) => if valid_utf8(raw) {
            Ok((decode_utf8(raw), used))
        } else {
            Err(Error::ProtocolDecodeError)
        },
    }
}

/// The length of what follows the name in an entry that adds a participant:
/// a count of properties, the properties, two integers and an optional
/// display name.
#[verifier::opaque]
pub open spec fn added_details(bytes: Seq<u8>) -> Result<nat, Error> {
    match varint_at(bytes) {
        Err(e) => Err(e),
        Ok((count, a)) => match properties(bytes.skip(a as int), as_count(count)) {
            Err(e) => Err(e),
            Ok(b) => match varint_at(bytes.skip((a + b) as int)) {
                Err(e) => Err(e),
                Ok((_, c)) => match varint_at(bytes.skip((a + b + c) as int)) {
                    Err(e) => Err(e),
                    Ok((_, d)) => match flagged_array(bytes.skip((a + b + c + d) as int)) {
                        Err(e) => Err(e),
                        Ok(f) => Ok(a + b + c + d + f),
                    },
                },
            },
        }
    }
}

/// What follows the identifier in an entry under `action`: the name that an
/// added participant brings, if any, and the length of it all.
pub open spec fn entry_body(bytes: Seq<u8>, action: i32) -> Result<(Option<Seq<char>>, nat), Error> {
    if action == ACTION_ADD {
        match name_at(bytes) {
            Err(e) => Err(e),
            Ok((name, a)) => match added_details(bytes.skip(a as int)) {
                Err(e) => Err(e),
                Ok(b) => Ok((Some(name), a + b)),
            },
        }
    } else if action == ACTION_UPDATE_GAME_MODE || action == ACTION_UPDATE_LATENCY {
        match varint_at(bytes) {
            Err(e) => Err(e),
            Ok((_, a)) => Ok((None, a)),
        }
    } else if action == ACTION_UPDATE_DISPLAY_NAME {
        match flagged_array(bytes) {
            Err(e) => Err(e),
            Ok(a) => Ok((None, a)),
        }
    } else {
        Ok((None, 0))
    }
}

/// The change that an entry with identifier `id` under `action` asks for.
pub open spec fn change_of(id: u128, action: i32, name: Option<Seq<char>>) -> Change {
    if action == ACTION_ADD {
        Change::Add { id, name: name->0 }
    } else if action == ACTION_REMOVE {
        Change::Remove { id }
    } else {
        Change::Update { id }
    }
}

/// The entry at the head of `bytes` under `action`: a sixteen-byte identifier,
/// most significant byte first, then what the action calls for.
#[verifier::opaque]
pub open spec fn entry_at(bytes: Seq<u8>, action: i32) -> Result<(Change, nat), Error> {
    if bytes.len() < 16 {
        Err(Error::ProtocolDecodeError)
    } else {
        match entry_body(bytes.skip(16), action) {
            Err(e) => Err(e),
            Ok((name, used)) => Ok(
                (change_of(big_endian(bytes.take(16)) as u128, action, name), used + 16),
            ),
        }
    }
}

/// The `count` entries at the head of `bytes` under `action`, in order, and
/// the number of bytes they take together.
pub open spec fn entries_at(bytes: Seq<u8>, action: i32, count: nat) -> Result<
    (Seq<Change>, nat),
    Error,
>
    decreases count,
{
    if count == 0 {
        Ok((Seq::empty(), 0))
    } else {
        match entry_at(bytes, action) {
            Err(e) => Err(e),
            Ok((first, used)) => match entries_at(bytes.skip(used as int), action, (count - 1) as nat) {
                Err(e) => Err(e),
                Ok((rest, more)) => Ok((seq![first] + rest, used + more)),
            },
        }
    }
}

/// The changes that the payload of a roster update asks for, and the number
/// of bytes that the update takes: an action code, which must be known, a
/// count, and that many entries. What follows the last entry is no part of
/// the update.
pub open spec fn update_at(payload: Seq<u8>) -> Result<(Seq<Change>, nat), Error> {
    match varint_at(payload) {
        Err(e) => Err(e),
        Ok((action, a)) => if !known_action(action) {
            Err(Error::ProtocolDecodeError)
        } else {
            match varint_at(payload.skip(a as int)) {
                Err(e) => Err(e),
                Ok((count, b)) => match entries_at(
                    payload.skip((a + b) as int),
                    action,
                    as_count(count),
                ) {
                    Err(e) => Err(e),
                    Ok((changes, c)) => Ok((changes, a + b + c)),
                },
            }
        },
    }
}

/// Reads past an optional array. On an error the cursor stays where it was.
pub fn skip_flagged_array(stream: &mut Cursor) -> (r: Result<(), Error>)
    ensures
        final(stream).bytes() == old(stream).bytes(),
        final(stream).position() <= final(stream).bytes().len(),
        match r {
            Ok(_) => flagged_array(old(stream).remaining()) matches Ok(used) && moved(
                *old(stream),
                *final(stream),
                used,
            ),
            Err(e) => {
                &&& flagged_array(old(stream).remaining()) == Err::<nat, Error>(e)
                &&& final(stream).position() == old(stream).position()
            },
        },
{
    let at: usize = stream.pos();
    let flag = match read_array_fixed_cursor(stream, 1) {
        Ok(v) => v,
        Err(e) => {
            stream.seek(at);
            return Err(e);
        },
    };
    proof {
        lemma_advance(*old(stream), *stream, 1);
    }
    if flag[0] == 1 {
        match read_array_dynamic_cursor(stream) {
            Ok(_) => Ok(()),
            Err(e) => {
                stream.seek(at);
                Err(e)
            },
        }
    } else {
        Ok(())
    }
}

/// Reads past one property. On an error the cursor stays where it was.
pub fn skip_property(stream: &mut Cursor) -> (r: Result<(), Error>)
    ensures
        final(stream).bytes() == old(stream).bytes(),
        final(stream).position() <= final(stream).bytes().len(),
        match r {
            Ok(_) => property(old(stream).remaining()) matches Ok(used) && moved(
                *old(stream),
                *final(stream),
                used,
            ),
            Err(e) => {
                &&& property(old(stream).remaining()) == Err::<nat, Error>(e)
                &&& final(stream).position() == old(stream).position()
            },
        },
{
    let at: usize = stream.pos();
    proof {
        reveal(property);
    }
    match read_array_dynamic_cursor(stream) {
        Ok(_) => {},
        Err(e) => {
            stream.seek(at);
            return Err(e);
        },
    }
    let ghost after_name = *stream;
    proof {
        lemma_advance(*old(stream), after_name, (after_name.position() - old(stream).position()) as nat);
    }
    match read_array_dynamic_cursor(stream) {
        Ok(_) => {},
        Err(e) => {
            stream.seek(at);
            return Err(e);
        },
    }
    proof {
        lemma_advance(after_name, *stream, (stream.position() - after_name.position()) as nat);
        lemma_advance(*old(stream), *stream, (stream.position() - old(stream).position()) as nat);
    }
    match skip_flagged_array(stream) {
        Ok(_) => Ok(()),
        Err(e) => {
            stream.seek(at);
            Err(e)
        },
    }
}

/// Reads past `count` properties; a negative count is none. On an error the
/// cursor stays where it was.
pub fn skip_properties(stream: &mut Cursor, count: i32) -> (r: Result<(), Error>)
    ensures
        final(stream).bytes() == old(stream).bytes(),
        final(stream).position() <= final(stream).bytes().len(),
        match r {
            Ok(_) => properties(old(stream).remaining(), as_count(count)) matches Ok(used) && moved(
                *old(stream),
                *final(stream),
                used,
            ),
            Err(e) => {
                &&& properties(old(stream).remaining(), as_count(count)) == Err::<nat, Error>(e)
                &&& final(stream).position() == old(stream).position()
            },
        },
{
    let at: usize = stream.pos();
    let mut i: i32 = 0;
    let ghost start = old(stream).remaining();
    let ghost done: nat = 0;
    proof {
        assert(start.skip(0) =~= start);
    }
    while i < count
        invariant
            0 <= i,
            i <= count || count < 0,
            moved(*old(stream), *stream, done),
            properties(start, as_count(count)) == (match properties(
                start.skip(done as int),
                (as_count(count) - i) as nat,
            ) {
                Ok(more) => Ok::<nat, Error>(done + more),
                Err(e) => Err(e),
            }),
            at == old(stream).position(),
            start == old(stream).remaining(),
        decreases count - i,
    {
        let ghost before = *stream;
        proof {
            lemma_advance(*old(stream), before, done);
        }
        match skip_property(stream) {
            Ok(_) => {},
            Err(e) => {
                stream.seek(at);
            return Err(e);
            },
        }
        proof {
            let step = (stream.position() - before.position()) as nat;
            assert(start.skip(done as int).skip(step as int) =~= start.skip((done + step) as int));
            done = done + step;
        }
        i = i + 1;
    }
    Ok(())
}

/// Reads a name. On an error the cursor stays where it was.
pub fn read_name(stream: &mut Cursor) -> (r: Result<String, Error>)
    ensures
        final(stream).bytes() == old(stream).bytes(),
        final(stream).position() <= final(stream).bytes().len(),
        match r {
            Ok(name) => name_at(old(stream).remaining()) matches Ok((chars, used)) && name@
                == chars && moved(*old(stream), *final(stream), used),
            Err(e) => {
                &&& name_at(old(stream).remaining()) == Err::<(Seq<char>, nat), Error>(e)
                &&& final(stream).position() == old(stream).position()
            },
        },
{
    let at: usize = stream.pos();
    let raw = match read_array_dynamic_cursor(stream) {
        Ok(v) => v,
        Err(e) => {
            stream.seek(at);
            return Err(e);
        },
    };
    match string_from_utf8(raw) {
        Some(name) => Ok(name),
        None => {
            stream.seek(at);
            Err(Error::ProtocolDecodeError)
        },
    }
}

/// Reads past what follows the name in an entry that adds a participant. On
/// an error the cursor stays where it was.
pub fn skip_added_details(stream: &mut Cursor) -> (r: Result<(), Error>)
    ensures
        final(stream).bytes() == old(stream).bytes(),
        final(stream).position() <= final(stream).bytes().len(),
        match r {
            Ok(_) => added_details(old(stream).remaining()) matches Ok(used) && moved(
                *old(stream),
                *final(stream),
                used,
            ),
            Err(e) => {
                &&& added_details(old(stream).remaining()) == Err::<nat, Error>(e)
                &&& final(stream).position() == old(stream).position()
            },
        },
{
    let at: usize = stream.pos();
    proof {
        reveal(added_details);
    }
    let ghost s0 = *stream;
    let count: i32 = match read_varint_cursor(stream) {
        Ok(v) => v,
        Err(e) => {
            stream.seek(at);
            return Err(e);
        },
    };
    let ghost s1 = *stream;
    proof {
        lemma_advance(s0, s1, (s1.position() - s0.position()) as nat);
    }
    match skip_properties(stream, count) {
        Ok(_) => {},
        Err(e) => {
            stream.seek(at);
            return Err(e);
        },
    }
    let ghost s2 = *stream;
    proof {
        lemma_advance(s0, s2, (s2.position() - s0.position()) as nat);
    }
    match read_varint_cursor(stream) {
        Ok(_) => {},
        Err(e) => {
            stream.seek(at);
            return Err(e);
        },
    }
    let ghost s3 = *stream;
    proof {
        lemma_advance(s0, s3, (s3.position() - s0.position()) as nat);
    }
    match read_varint_cursor(stream) {
        Ok(_) => {},
        Err(e) => {
            stream.seek(at);
            return Err(e);
        },
    }
    proof {
        lemma_advance(s0, *stream, (stream.position() - s0.position()) as nat);
    }
    match skip_flagged_array(stream) {
        Ok(_) => Ok(()),
        Err(e) => {
            stream.seek(at);
            Err(e)
        },
    }
}

/// Reads one entry of a roster update under `action`. On an error the cursor
/// stays where it was.
pub fn read_entry(stream: &mut Cursor, action: i32) -> (r: Result<RosterChange, Error>)
    requires
        known_action(action),
    ensures
        final(stream).bytes() == old(stream).bytes(),
        final(stream).position() <= final(stream).bytes().len(),
        match r {
            Ok(change) => entry_at(old(stream).remaining(), action) matches Ok((want, used))
                && change@ == want && moved(*old(stream), *final(stream), used),
            Err(e) => {
                &&& entry_at(old(stream).remaining(), action) == Err::<(Change, nat), Error>(e)
                &&& final(stream).position() == old(stream).position()
            },
        },
{
    let at: usize = stream.pos();
    proof {
        reveal(entry_at);
    }
    let ghost s0 = *stream;
    let raw_id = match read_array_fixed_cursor(stream, 16) {
        Ok(v) => v,
        Err(e) => {
            stream.seek(at);
            return Err(e);
        },
    };
    let id: u128 = u128_from_be(raw_id.as_slice());
    let ghost s1 = *stream;
    proof {
        lemma_advance(s0, s1, 16);
    }
    if action == ACTION_ADD {
        let name = match read_name(stream) {
            Ok(v) => v,
            Err(e) => {
                stream.seek(at);
            return Err(e);
            },
        };
        proof {
            lemma_advance(s1, *stream, (stream.position() - s1.position()) as nat);
        }
        match skip_added_details(stream) {
            Ok(_) => Ok(RosterChange::Add { id, name }),
            Err(e) => {
                stream.seek(at);
                Err(e)
            },
        }
    } else if action == ACTION_UPDATE_GAME_MODE || action == ACTION_UPDATE_LATENCY {
        match read_varint_cursor(stream) {
            Ok(_) => Ok(RosterChange::Update { id }),
            Err(e) => {
                stream.seek(at);
                Err(e)
            },
        }
    } else if action == ACTION_UPDATE_DISPLAY_NAME {
        match skip_flagged_array(stream) {
            Ok(_) => Ok(RosterChange::Update { id }),
            Err(e) => {
                stream.seek(at);
                Err(e)
            },
        }
    } else {
        Ok(RosterChange::Remove { id })
    }
}

/// Reads `count` entries under `action`; a negative count is none. On an
/// error the cursor stays where it was.
pub fn read_entries(stream: &mut Cursor, action: i32, count: i32) -> (r: Result<
    Vec<RosterChange>,
    Error,
>)
    requires
        known_action(action),
    ensures
        final(stream).bytes() == old(stream).bytes(),
        final(stream).position() <= final(stream).bytes().len(),
        match r {
            Ok(changes) => {
                &&& entries_at(old(stream).remaining(), action, as_count(count)) matches Ok(
                    (want, used),
                )
                &&& views(changes@) == want
                &&& moved(*old(stream), *final(stream), used)
            },
            Err(e) => {
                &&& entries_at(old(stream).remaining(), action, as_count(count)) == Err::<
                    (Seq<Change>, nat),
                    Error,
                >(e)
                &&& final(stream).position() == old(stream).position()
            },
        },
{
    let mut changes: Vec<RosterChange> = Vec::new();
    let mut i: i32 = 0;
    let ghost start = old(stream).remaining();
    let ghost done: nat = 0;
    let at: usize = stream.pos();
    proof {
        assert(start.skip(0) =~= start);
        assert(views(changes@) =~= Seq::<Change>::empty());
        match entries_at(start, action, as_count(count)) {
            Ok((more, _)) => {
                assert(views(changes@) + more =~= more);
            },
            Err(e) => {},
        }
    }
    while i < count
        invariant
            0 <= i,
            i <= count || count < 0,
            moved(*old(stream), *stream, done),
            at == old(stream).position(),
            known_action(action),
            entries_at(start, action, as_count(count)) == (match entries_at(
                start.skip(done as int),
                action,
                (as_count(count) - i) as nat,
            ) {
                Ok((more, used)) => Ok::<(Seq<Change>, nat), Error>(
                    (views(changes@) + more, done + used),
                ),
                Err(e) => Err(e),
            }),
            start == old(stream).remaining(),
        decreases count - i,
    {
        let ghost before = *stream;
        let ghost had = views(changes@);
        proof {
            lemma_advance(*old(stream), before, done);
        }
        let change = match read_entry(stream, action) {
            Ok(c) => c,
            Err(e) => {
                stream.seek(at);
                return Err(e);
            },
        };
        changes.push(change);
        proof {
            let step = (stream.position() - before.position()) as nat;
            assert(start.skip(done as int).skip(step as int) =~= start.skip((done + step) as int));
            assert(views(changes@) =~= had.push(change@));
            match entries_at(start.skip((done + step) as int), action, (as_count(count) - i - 1) as nat) {
                Ok((more, _)) => {
                    assert(had + (seq![change@] + more) =~= had.push(change@) + more);
                },
                Err(e) => {},
            }
            done = done + step;
        }
        i = i + 1;
    }
    proof {
        assert(views(changes@) + Seq::<Change>::empty() =~= views(changes@));
    }
    Ok(changes)
}

/// Reads the changes that a roster update asks for, and stops behind its
/// last entry. On an error the cursor stays where it was.
pub fn read_update(stream: &mut Cursor) -> (r: Result<Vec<RosterChange>, Error>)
    ensures
        final(stream).bytes() == old(stream).bytes(),
        final(stream).position() <= final(stream).bytes().len(),
        match r {
            Ok(changes) => {
                &&& update_at(old(stream).remaining()) matches Ok((want, used))
                &&& views(changes@) == want
                &&& moved(*old(stream), *final(stream), used)
            },
            Err(e) => {
                &&& update_at(old(stream).remaining()) == Err::<(Seq<Change>, nat), Error>(e)
                &&& final(stream).position() == old(stream).position()
            },
        },
{
    let ghost s0 = *stream;
    let at: usize = stream.pos();
    let action: i32 = match read_varint_cursor(stream) {
        Ok(v) => v,
        Err(e) => {
            return Err(e);
        },
    };
    if action < ACTION_ADD || action > ACTION_REMOVE {
        stream.seek(at);
        return Err(Error::ProtocolDecodeError);
    }
    let ghost s1 = *stream;
    proof {
        lemma_advance(s0, s1, (s1.position() - s0.position()) as nat);
    }
    let count: i32 = match read_varint_cursor(stream) {
        Ok(v) => v,
        Err(e) => {
            stream.seek(at);
            return Err(e);
        },
    };
    proof {
        lemma_advance(s0, *stream, (stream.position() - s0.position()) as nat);
    }
    match read_entries(stream, action, count) {
        Ok(changes) => Ok(changes),
        Err(e) => {
            stream.seek(at);
            Err(e)
        },
    }
}

/// The roster after one change: an added participant is new or changes
/// nothing, a removed one is gone, anything else changes nothing.
pub open spec fn applied(roster: Map<u128, Seq<char>>, change: Change) -> Map<u128, Seq<char>> {
    match change {
        Change::Add { id, name } => if roster.contains_key(id) {
            roster
        } else {
            roster.insert(id, name)
        },
        Change::Update { id } => roster,
        Change::Remove { id } => roster.remove(id),
    }
}

/// The roster after a list of changes, made in order.
pub open spec fn applied_all(roster: Map<u128, Seq<char>>, changes: Seq<Change>) -> Map<
    u128,
    Seq<char>,
>
    decreases changes.len(),
{
    if changes.len() == 0 {
        roster
    } else {
        applied_all(applied(roster, changes[0]), changes.skip(1))
    }
}

/// Whoever is added first under an identifier keeps the name: a second
/// addition under the same identifier changes nothing.
pub proof fn lemma_first_name_stays(
    roster: Map<u128, Seq<char>>,
    id: u128,
    first: Seq<char>,
    second: Seq<char>,
)
    ensures
        applied(applied(roster, Change::Add { id, name: first }), Change::Add { id, name: second })
            == applied(roster, Change::Add { id, name: first }),
        !roster.contains_key(id) ==> applied(
            applied(roster, Change::Add { id, name: first }),
            Change::Add { id, name: second },
        )[id] == first,
{
}

/// Removing an identifier that the roster does not hold changes nothing.
pub proof fn lemma_remove_absent(roster: Map<u128, Seq<char>>, id: u128)
    requires
        !roster.contains_key(id),
    ensures
        applied(roster, Change::Remove { id }) == roster,
{
    assert(roster.remove(id) =~= roster);
}

/// Makes one change to the roster.
pub fn apply_change(roster: &mut HashMap<u128, String>, change: &RosterChange)
    ensures
        names(final(roster)@) == applied(names(old(roster)@), change@),
{
    match change {
        RosterChange::Add { id, name } => {
            if !roster.contains_key(id) {
                roster.insert(*id, name.clone());
            }
            proof {
                assert(names(roster@) =~= applied(names(old(roster)@), change@));
            }
        },
        RosterChange::Update { id } => {},
        RosterChange::Remove { id } => {
            roster.remove(id);
            proof {
                assert(names(roster@) =~= applied(names(old(roster)@), change@));
            }
        },
    }
}

/// Makes a list of changes to the roster, in order.
pub fn apply_changes(roster: &mut HashMap<u128, String>, changes: &Vec<RosterChange>)
    ensures
        names(final(roster)@) == applied_all(names(old(roster)@), views(changes@)),
{
    let mut i: usize = 0;
    let ghost all = views(changes@);
    proof {
        assert(all.skip(0) =~= all);
    }
    while i < changes.len()
        invariant
            i <= changes@.len(),
            all == views(changes@),
            applied_all(names(old(roster)@), all) == applied_all(names(roster@), all.skip(i as int)),
        decreases changes@.len() - i,
    {
        apply_change(roster, &changes[i]);
        proof {
            assert(all.skip(i as int)[0] == changes@[i as int]@);
            assert(all.skip(i as int).skip(1) =~= all.skip(i + 1));
        }
        i = i + 1;
    }
}

/// Reads a roster update at the cursor, makes its changes and stops behind
/// its last entry. A payload that does not decode as a whole changes nothing
/// and leaves the cursor where it was.
pub fn create_player_list(cursor: &mut Cursor, online_players: &mut HashMap<u128, String>) -> (r:
    Result<(), Error>)
    ensures
        final(cursor).bytes() == old(cursor).bytes(),
        final(cursor).position() <= final(cursor).bytes().len(),
        match r {
            Ok(_) => {
                &&& update_at(old(cursor).remaining()) matches Ok((changes, used))
                &&& names(final(online_players)@) == applied_all(
                    names(old(online_players)@),
                    changes,
                )
                &&& moved(*old(cursor), *final(cursor), used)
            },
            Err(e) => {
                &&& update_at(old(cursor).remaining()) == Err::<(Seq<Change>, nat), Error>(e)
                &&& final(online_players)@ == old(online_players)@
                &&& final(cursor).position() == old(cursor).position()
            },
        },
{
    match read_update(cursor) {
        Ok(changes) => {
            apply_changes(online_players, &changes);
            Ok(())
        },
        Err(e) => Err(e),
    }
}

/// The names of a list, with a comma and a space between neighbours.
pub open spec fn joined(list: Seq<Seq<char>>) -> Seq<char>
    decreases list.len(),
{
    if list.len() == 0 {
        Seq::empty()
    } else if list.len() == 1 {
        list[0]
    } else {
        joined(list.drop_last()) + ", "@ + list.last()
    }
}

/// The line that lists the participants `list`: their number, then their
/// names.
pub open spec fn players_line(list: Seq<Seq<char>>) -> Seq<char> {
    "Online Players ("@ + decimal(list.len()) + "): ["@ + joined(list) + "]"@
}

/// Whether `order` names every participant of `roster` once and nobody else.
pub open spec fn lists(order: Seq<u128>, roster: Map<u128, String>) -> bool {
    &&& order.no_duplicates()
    &&& order.len() == roster.dom().len()
    &&& forall|id: u128| roster.contains_key(id) <==> order.contains(id)
}

/// The names of the participants `order` in `roster`.
pub open spec fn names_in(order: Seq<u128>, roster: Map<u128, String>) -> Seq<Seq<char>> {
    order.map_values(|id: u128| roster[id]@)
}

/// A listing of the roster states the roster's size: its number is the
/// number of participants, and it names that many.
pub proof fn lemma_listing_counts_the_roster(order: Seq<u128>, roster: Map<u128, String>)
    requires
        lists(order, roster),
    ensures
        names_in(order, roster).len() == roster.dom().len(),
        players_line(names_in(order, roster)) == "Online Players ("@ + decimal(roster.dom().len())
            + "): ["@ + joined(names_in(order, roster)) + "]"@,
{
}

/// The line that lists the roster: the number of participants, which is the
/// roster's size, and the name of each once, in the order in which the map
/// hands them out.
pub fn create_players_string(players: &HashMap<u128, String>) -> (res: String)
    ensures
        exists|order: Seq<u128>| #[trigger]
            lists(order, players@) && res@ == players_line(names_in(order, players@)),
{
    let mut res: String = String::new();
    res.append("Online Players (");
    res.append(decimal_string(players.len()).as_str());
    res.append("): [");
    let ghost head = res@;
    let ghost order: Seq<u128> = Seq::empty();
    let mut is_first: bool = true;
    proof {
        assert(res@ =~= head + joined(names_in(order, players@)));
    }
    for pair in it: players.iter()
        invariant
            order.len() == it.index(),
            is_first <==> order.len() == 0,
            forall|j: int| 0 <= j < order.len() ==> order[j] == *(#[trigger] it.seq()[j]).0,
            it.seq() == players.iter().remaining(),
            res@ == head + joined(names_in(order, players@)),
            head == "Online Players ("@ + decimal(players@.dom().len()) + "): ["@,
    {
        let ghost before = names_in(order, players@);
        if !is_first {
            res.append(", ");
        }
        res.append(pair.1.as_str());
        is_first = false;
        proof {
            let id = *pair.0;
            let next = order.push(id);
            assert(players@.contains_key(id) && players@[id] == *pair.1);
            assert(names_in(next, players@) =~= before.push(pair.1@));
            assert(names_in(next, players@).drop_last() =~= before);
            assert(res@ =~= head + joined(names_in(next, players@)));
            order = next;
        }
    }
    res.append("]");
    proof {
        let seq = players.iter().remaining();
        assert forall|i: int, j: int| 0 <= i < order.len() && 0 <= j < order.len() && i != j implies order[i] != order[j] by {
            assert(players@[*seq[i].0] == *seq[i].1);
            assert(players@[*seq[j].0] == *seq[j].1);
            if order[i] == order[j] {
                assert(seq[i] == seq[j]);
            }
        }
        assert forall|id: u128| players@.contains_key(id) <==> order.contains(id) by {
            if players@.contains_key(id) {
                assert(seq.contains((&id, &players@[id])));
                let i = choose|i: int| 0 <= i < seq.len() && seq[i] == (&id, &players@[id]);
                assert(order[i] == id);
            }
            if order.contains(id) {
                let i = choose|i: int| 0 <= i < order.len() && order[i] == id;
                assert(players@.contains_key(*seq[i].0));
            }
        }
        assert(lists(order, players@));
        assert(res@ =~= players_line(names_in(order, players@)));
    }
    res
}

} // verus!
