use mclient::cursor::Cursor;
use mclient::error::Error;
use mclient::roster::apply_change;
use mclient::roster::apply_changes;
use mclient::roster::create_player_list;
use mclient::roster::create_players_string;
use mclient::roster::read_entry;
use mclient::roster::read_update;
use mclient::roster::skip_flagged_array;
use mclient::roster::skip_properties;
use mclient::roster::skip_property;
use mclient::roster::RosterChange;
use std::collections::HashMap;

fn id_bytes(id: u128) -> Vec<u8> {
    id.to_be_bytes().to_vec()
}

fn string(text: &str) -> Vec<u8> {
    let mut out = vec![text.len() as u8];
    out.extend_from_slice(text.as_bytes());
    out
}

/// An entry that adds `name` under `id`, without properties or display name.
fn add_entry(id: u128, name: &str) -> Vec<u8> {
    let mut out = id_bytes(id);
    out.extend_from_slice(&string(name));
    out.extend_from_slice(&[0x00, 0x01, 0x2a, 0x00]);
    out
}

fn update(action: u8, entries: &[Vec<u8>]) -> Vec<u8> {
    let mut out = vec![action, entries.len() as u8];
    for entry in entries {
        out.extend_from_slice(entry);
    }
    out
}

fn apply(roster: &mut HashMap<u128, String>, payload: Vec<u8>) -> Result<(), Error> {
    let mut cursor = Cursor::new(payload);
    create_player_list(&mut cursor, roster)
}

#[test]
fn add_inserts_new_participants() {
    let mut roster = HashMap::new();
    let payload = update(0, &[add_entry(1, "Alice"), add_entry(2, "Bob")]);
    assert_eq!(apply(&mut roster, payload), Ok(()));
    assert_eq!(roster.len(), 2);
    assert_eq!(roster.get(&1).map(String::as_str), Some("Alice"));
    assert_eq!(roster.get(&2).map(String::as_str), Some("Bob"));
}

#[test]
fn identifier_is_read_most_significant_byte_first() {
    let mut roster = HashMap::new();
    let id: u128 = 0x0102_0304_0506_0708_090a_0b0c_0d0e_0f10;
    let mut entry: Vec<u8> = (1u8..=16).collect();
    entry.extend_from_slice(&string("Zed"));
    entry.extend_from_slice(&[0x00, 0x00, 0x00, 0x00]);
    assert_eq!(apply(&mut roster, update(0, &[entry])), Ok(()));
    assert_eq!(roster.get(&id).map(String::as_str), Some("Zed"));
    assert_eq!(apply(&mut roster, update(0, &[add_entry(u128::MAX, "Max")])), Ok(()));
    assert_eq!(roster.get(&u128::MAX).map(String::as_str), Some("Max"));
}

#[test]
fn adding_twice_keeps_the_first_name() {
    let mut roster = HashMap::new();
    assert_eq!(apply(&mut roster, update(0, &[add_entry(7, "First")])), Ok(()));
    assert_eq!(apply(&mut roster, update(0, &[add_entry(7, "Second")])), Ok(()));
    assert_eq!(roster.len(), 1);
    assert_eq!(roster.get(&7).map(String::as_str), Some("First"));
}

#[test]
fn adding_twice_in_one_packet_keeps_the_first_name() {
    let mut roster = HashMap::new();
    let payload = update(0, &[add_entry(7, "First"), add_entry(7, "Second")]);
    assert_eq!(apply(&mut roster, payload), Ok(()));
    assert_eq!(roster.get(&7).map(String::as_str), Some("First"));
}

#[test]
fn remove_deletes_and_absent_is_a_no_op() {
    let mut roster = HashMap::new();
    roster.insert(1u128, String::from("Alice"));
    roster.insert(2u128, String::from("Bob"));
    assert_eq!(apply(&mut roster, update(4, &[id_bytes(99)])), Ok(()));
    assert_eq!(roster.len(), 2);
    assert_eq!(apply(&mut roster, update(4, &[id_bytes(1)])), Ok(()));
    assert_eq!(roster.len(), 1);
    assert_eq!(roster.get(&2).map(String::as_str), Some("Bob"));
    assert_eq!(apply(&mut roster, update(4, &[id_bytes(1)])), Ok(()));
    assert_eq!(roster.len(), 1);
}

#[test]
fn removed_participant_can_be_added_under_a_new_name() {
    let mut roster = HashMap::new();
    assert_eq!(apply(&mut roster, update(0, &[add_entry(7, "First")])), Ok(()));
    assert_eq!(apply(&mut roster, update(4, &[id_bytes(7)])), Ok(()));
    assert_eq!(apply(&mut roster, update(0, &[add_entry(7, "Second")])), Ok(()));
    assert_eq!(roster.get(&7).map(String::as_str), Some("Second"));
}

#[test]
fn updates_are_read_and_change_nothing() {
    let mut roster = HashMap::new();
    roster.insert(1u128, String::from("Alice"));
    let before = roster.clone();
    let mut game_mode = id_bytes(1);
    game_mode.push(0x01);
    assert_eq!(apply(&mut roster, update(1, &[game_mode])), Ok(()));
    let mut latency = id_bytes(1);
    latency.extend_from_slice(&[0xac, 0x02]);
    assert_eq!(apply(&mut roster, update(2, &[latency.clone(), latency])), Ok(()));
    let mut named = id_bytes(1);
    named.push(0x01);
    named.extend_from_slice(&string("{\"text\":\"A\"}"));
    let mut unnamed = id_bytes(5);
    unnamed.push(0x00);
    assert_eq!(apply(&mut roster, update(3, &[named, unnamed])), Ok(()));
    assert_eq!(roster, before);
}

#[test]
fn add_with_properties_and_display_name() {
    let mut entry = id_bytes(3);
    entry.extend_from_slice(&string("Carol"));
    entry.push(0x02);
    entry.extend_from_slice(&string("textures"));
    entry.extend_from_slice(&string("abc"));
    entry.push(0x01);
    entry.extend_from_slice(&string("signature"));
    entry.extend_from_slice(&string("cape"));
    entry.extend_from_slice(&string(""));
    entry.push(0x00);
    entry.extend_from_slice(&[0x01, 0x2a]);
    entry.push(0x01);
    entry.extend_from_slice(&string("{\"text\":\"C\"}"));
    let mut roster = HashMap::new();
    let payload = update(0, &[entry, add_entry(4, "Dave")]);
    assert_eq!(apply(&mut roster, payload), Ok(()));
    assert_eq!(roster.get(&3).map(String::as_str), Some("Carol"));
    assert_eq!(roster.get(&4).map(String::as_str), Some("Dave"));
}

#[test]
fn unknown_action_is_a_protocol_error() {
    let mut roster = HashMap::new();
    assert_eq!(apply(&mut roster, update(5, &[])), Err(Error::ProtocolDecodeError));
    assert_eq!(apply(&mut roster, update(5, &[id_bytes(1)])), Err(Error::ProtocolDecodeError));
    assert_eq!(
        apply(&mut roster, vec![0xff, 0xff, 0xff, 0xff, 0x0f, 0x00]),
        Err(Error::ProtocolDecodeError)
    );
}

#[test]
fn negative_count_reads_no_entry() {
    let mut roster = HashMap::new();
    roster.insert(1u128, String::from("Alice"));
    assert_eq!(apply(&mut roster, vec![0x04, 0xff, 0xff, 0xff, 0xff, 0x0f]), Ok(()));
    assert_eq!(roster.len(), 1);
}

#[test]
fn zero_entries_change_nothing() {
    let mut roster = HashMap::new();
    assert_eq!(apply(&mut roster, update(0, &[])), Ok(()));
    assert!(roster.is_empty());
}

#[test]
fn malformed_update_changes_nothing() {
    let mut roster = HashMap::new();
    roster.insert(1u128, String::from("Alice"));
    let before = roster.clone();
    let mut payload = update(0, &[add_entry(2, "Bob"), add_entry(3, "Carol")]);
    payload.truncate(payload.len() - 1);
    assert_eq!(apply(&mut roster, payload), Err(Error::ProtocolDecodeError));
    assert_eq!(roster, before);
    let mut removal = update(4, &[id_bytes(1), id_bytes(2)]);
    removal.truncate(removal.len() - 1);
    assert_eq!(apply(&mut roster, removal), Err(Error::ProtocolDecodeError));
    assert_eq!(roster, before);
}

#[test]
fn update_errors() {
    let mut roster = HashMap::new();
    assert_eq!(apply(&mut roster, vec![]), Err(Error::MalformedVarInt));
    assert_eq!(apply(&mut roster, vec![0x00]), Err(Error::MalformedVarInt));
    assert_eq!(apply(&mut roster, vec![0x00, 0x01]), Err(Error::ProtocolDecodeError));
    let mut bad_name = id_bytes(1);
    bad_name.extend_from_slice(&[0x02, 0xc3, 0x28, 0x00, 0x00, 0x00, 0x00]);
    assert_eq!(apply(&mut roster, update(0, &[bad_name])), Err(Error::ProtocolDecodeError));
    let mut no_latency = id_bytes(1);
    no_latency.push(0x80);
    assert_eq!(apply(&mut roster, update(2, &[no_latency])), Err(Error::MalformedVarInt));
    let mut no_flag = id_bytes(1);
    assert_eq!(apply(&mut roster, update(3, &[no_flag.clone()])), Err(Error::ProtocolDecodeError));
    no_flag.extend_from_slice(&[0x01, 0x05, 0x41]);
    assert_eq!(apply(&mut roster, update(3, &[no_flag])), Err(Error::ProtocolDecodeError));
    assert!(roster.is_empty());
}

#[test]
fn read_update_lists_the_changes_in_order() {
    let mut cursor = Cursor::new(update(0, &[add_entry(2, "Bob"), add_entry(1, "Alice")]));
    assert_eq!(
        read_update(&mut cursor),
        Ok(vec![
            RosterChange::Add { id: 2, name: String::from("Bob") },
            RosterChange::Add { id: 1, name: String::from("Alice") },
        ])
    );
    let mut removal = Cursor::new(update(4, &[id_bytes(9)]));
    assert_eq!(read_update(&mut removal), Ok(vec![RosterChange::Remove { id: 9 }]));
    let mut game_mode = id_bytes(6);
    game_mode.push(0x00);
    let mut ignored = Cursor::new(update(1, &[game_mode]));
    assert_eq!(read_update(&mut ignored), Ok(vec![RosterChange::Update { id: 6 }]));
}

#[test]
fn read_entry_stops_behind_the_entry() {
    let mut bytes = add_entry(5, "Eve");
    let len = bytes.len();
    bytes.extend_from_slice(&[0xaa, 0xbb]);
    let mut cursor = Cursor::new(bytes);
    assert_eq!(
        read_entry(&mut cursor, 0),
        Ok(RosterChange::Add { id: 5, name: String::from("Eve") })
    );
    assert_eq!(cursor.pos(), len);
}

#[test]
fn skipping_optional_arrays_and_properties() {
    let mut absent = Cursor::new(vec![0x00, 0x07]);
    assert_eq!(skip_flagged_array(&mut absent), Ok(()));
    assert_eq!(absent.pos(), 1);
    let mut other_flag = Cursor::new(vec![0x02, 0x07]);
    assert_eq!(skip_flagged_array(&mut other_flag), Ok(()));
    assert_eq!(other_flag.pos(), 1);
    let mut present = Cursor::new(vec![0x01, 0x02, 0x41, 0x42, 0x07]);
    assert_eq!(skip_flagged_array(&mut present), Ok(()));
    assert_eq!(present.pos(), 4);
    let mut property = Cursor::new(vec![0x01, 0x61, 0x00, 0x01, 0x01, 0x62, 0x09]);
    assert_eq!(skip_property(&mut property), Ok(()));
    assert_eq!(property.pos(), 6);
    let mut two = Cursor::new(vec![0x00, 0x00, 0x00, 0x01, 0x61, 0x00, 0x00, 0x09]);
    assert_eq!(skip_properties(&mut two, 2), Ok(()));
    assert_eq!(two.pos(), 7);
    let mut none = Cursor::new(vec![0x09]);
    assert_eq!(skip_properties(&mut none, -3), Ok(()));
    assert_eq!(none.pos(), 0);
    let mut short = Cursor::new(vec![0x00, 0x00]);
    assert_eq!(skip_properties(&mut short, 1), Err(Error::ProtocolDecodeError));
}

#[test]
fn changes_apply_in_order() {
    let mut roster = HashMap::new();
    let changes = vec![
        RosterChange::Add { id: 1, name: String::from("A") },
        RosterChange::Add { id: 1, name: String::from("B") },
        RosterChange::Update { id: 1 },
        RosterChange::Remove { id: 1 },
        RosterChange::Add { id: 1, name: String::from("C") },
        RosterChange::Remove { id: 2 },
    ];
    apply_changes(&mut roster, &changes);
    assert_eq!(roster.len(), 1);
    assert_eq!(roster.get(&1).map(String::as_str), Some("C"));
    apply_change(&mut roster, &RosterChange::Update { id: 1 });
    assert_eq!(roster.get(&1).map(String::as_str), Some("C"));
}

#[test]
fn listing_of_an_empty_roster() {
    assert_eq!(create_players_string(&HashMap::new()), "Online Players (0): []");
}

#[test]
fn listing_of_one_participant() {
    let mut roster = HashMap::new();
    roster.insert(1u128, String::from("Alice"));
    assert_eq!(create_players_string(&roster), "Online Players (1): [Alice]");
}

#[test]
fn listing_names_everyone_once() {
    let mut roster = HashMap::new();
    roster.insert(1u128, String::from("Alice"));
    roster.insert(2u128, String::from("Bob"));
    roster.insert(3u128, String::from("Carol"));
    let line = create_players_string(&roster);
    let inner = line.strip_prefix("Online Players (3): [").unwrap().strip_suffix("]").unwrap();
    let mut listed: Vec<&str> = inner.split(", ").collect();
    listed.sort();
    assert_eq!(listed, vec!["Alice", "Bob", "Carol"]);
}

#[test]
fn listing_counts_the_roster() {
    let mut roster = HashMap::new();
    for id in 0u128..12 {
        roster.insert(id, format!("p{}", id));
        let line = create_players_string(&roster);
        assert!(line.starts_with(&format!("Online Players ({}): [", roster.len())));
        assert_eq!(line.matches(", ").count() + 1, roster.len());
    }
}

#[test]
fn update_stops_behind_two_additions_of_one_identifier() {
    let id = 1u128.to_be_bytes().to_vec();
    let bytes = [
        vec![0u8, 2],
        id.clone(),
        vec![5, 65, 108, 105, 99, 101, 0, 0, 0, 0],
        id,
        vec![3, 66, 111, 98, 0, 0, 0, 0],
    ]
    .concat();
    let mut cursor = Cursor::new(bytes);
    let mut roster = HashMap::new();
    assert_eq!(create_player_list(&mut cursor, &mut roster), Ok(()));
    assert_eq!(roster, HashMap::from([(1u128, String::from("Alice"))]));
    assert_eq!(cursor.pos(), 52);
}

#[test]
fn update_stops_behind_a_removal() {
    let mut roster = HashMap::from([(1u128, String::from("Alice"))]);
    let mut absent = Cursor::new([vec![4u8, 1], 2u128.to_be_bytes().to_vec()].concat());
    assert_eq!(create_player_list(&mut absent, &mut roster), Ok(()));
    assert_eq!(roster, HashMap::from([(1u128, String::from("Alice"))]));
    assert_eq!(absent.pos(), 18);
    roster.insert(2u128, String::from("Bob"));
    let mut known = Cursor::new([vec![4u8, 1], 1u128.to_be_bytes().to_vec()].concat());
    assert_eq!(create_player_list(&mut known, &mut roster), Ok(()));
    assert_eq!(roster, HashMap::from([(2u128, String::from("Bob"))]));
    assert_eq!(known.pos(), 18);
}

#[test]
fn update_stops_behind_an_addition_with_the_high_byte_set() {
    let bytes = [
        vec![0u8, 1],
        vec![1, 0, 0, 0, 0, 0, 0, 0, 0, 0, 0, 0, 0, 0, 0, 0],
        vec![5, 65, 108, 105, 99, 101, 0, 0, 0, 0],
    ]
    .concat();
    let mut cursor = Cursor::new(bytes);
    let mut roster = HashMap::new();
    assert_eq!(create_player_list(&mut cursor, &mut roster), Ok(()));
    assert_eq!(roster, HashMap::from([(1u128 << 120, String::from("Alice"))]));
    assert_eq!(cursor.pos(), 28);
}

#[test]
fn update_stops_behind_properties_integers_and_display_name() {
    let bytes = [
        vec![0u8, 2],
        1u128.to_be_bytes().to_vec(),
        vec![1, 65, 1, 1, 116, 1, 118, 1, 1, 115, 1, 172, 2, 1, 2, 123, 125],
        2u128.to_be_bytes().to_vec(),
        vec![1, 66, 0, 0, 0, 0],
    ]
    .concat();
    let mut cursor = Cursor::new(bytes);
    let mut roster = HashMap::new();
    assert_eq!(create_player_list(&mut cursor, &mut roster), Ok(()));
    assert_eq!(
        roster,
        HashMap::from([(1u128, String::from("A")), (2u128, String::from("B"))])
    );
    assert_eq!(cursor.pos(), 57);
}

#[test]
fn update_leaves_what_follows_its_last_entry() {
    let mut bytes = update(4, &[id_bytes(3)]);
    bytes.extend_from_slice(&[0xaa, 0xbb, 0xcc]);
    let mut cursor = Cursor::new(bytes);
    let mut roster = HashMap::new();
    assert_eq!(create_player_list(&mut cursor, &mut roster), Ok(()));
    assert_eq!(cursor.pos(), 18);
    assert_eq!(cursor.left(), 3);
    let mut none = Cursor::new(vec![0x02, 0x00, 0x07]);
    assert_eq!(create_player_list(&mut none, &mut roster), Ok(()));
    assert_eq!(none.pos(), 2);
}

#[test]
fn updates_of_every_kind_are_read_to_their_end() {
    let mut roster = HashMap::from([(1u128, String::from("Alice"))]);
    let before = roster.clone();
    let mut game_mode = id_bytes(1);
    game_mode.push(0x01);
    let mut latency = id_bytes(1);
    latency.extend_from_slice(&[0xac, 0x02]);
    let mut named = id_bytes(1);
    named.extend_from_slice(&[0x01, 0x02, 0x7b, 0x7d]);
    let mut unnamed = id_bytes(2);
    unnamed.push(0x00);
    for payload in [
        update(0, &[add_entry(1, "Other"), add_entry(1, "Another")]),
        update(1, &[game_mode.clone(), game_mode]),
        update(2, &[latency]),
        update(3, &[named, unnamed]),
    ] {
        let len = payload.len();
        let mut cursor = Cursor::new(payload);
        assert_eq!(create_player_list(&mut cursor, &mut roster), Ok(()));
        assert_eq!(cursor.pos(), len);
        assert_eq!(roster, before);
    }
}

#[test]
fn a_malformed_update_leaves_the_cursor_where_it_was() {
    let mut payload = vec![0xee];
    payload.extend_from_slice(&update(0, &[add_entry(2, "Bob"), add_entry(3, "Carol")]));
    payload.truncate(payload.len() - 1);
    let mut cursor = Cursor::new(payload);
    cursor.seek(1);
    let mut roster = HashMap::new();
    assert_eq!(create_player_list(&mut cursor, &mut roster), Err(Error::ProtocolDecodeError));
    assert_eq!(cursor.pos(), 1);
    assert!(roster.is_empty());
    let mut unknown = Cursor::new(vec![0x09, 0x00]);
    assert_eq!(read_update(&mut unknown), Err(Error::ProtocolDecodeError));
    assert_eq!(unknown.pos(), 0);
    let mut entry = Cursor::new(id_bytes(1));
    assert_eq!(read_entry(&mut entry, 0), Err(Error::MalformedVarInt));
    assert_eq!(entry.pos(), 0);
    let mut property = Cursor::new(vec![0x00, 0x01, 0x61, 0x01, 0x05]);
    assert_eq!(skip_property(&mut property), Err(Error::ProtocolDecodeError));
    assert_eq!(property.pos(), 0);
}
