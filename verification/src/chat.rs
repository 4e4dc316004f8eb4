//! Chat messages: a length-prefixed UTF-8 string that holds a rich-text
//! document as JSON, and its rendering for a terminal.
//!
//! The rich-text model is `azalea_chat`'s, with the format strings of
//! `azalea_language`, and the JSON reader is `serde_json`'s. What this
//! library relies on is stated at `render_ansi` and `translation` and
//! believed, not proved. The reader panics on some documents; which ones is
//! decided here, on the document as a value of this library, before the
//! reader gets it.

use crate::cursor::dynamic_array;
use crate::cursor::moved;
use crate::cursor::read_array_dynamic_cursor;
use crate::cursor::Cursor;
use crate::error::Error;
use crate::json::has_member;
use crate::json::has_key;
use crate::json::has_no_bool;
use crate::json::has_other_than_bool;
use crate::json::json_value;
use crate::json::member_at;
use crate::json::member_text;
use crate::json::text_in;
use crate::json::read_json;
use crate::json::Json;
use crate::text::string_from_utf8;
use azalea_chat::FormattedText;
use serde::Deserialize;
use vstd::prelude::*;
use vstd::slice::slice_to_vec;
use vstd::string::StringExecFns;
use vstd::utf8::decode_utf8;
use vstd::utf8::encode_utf8;
use vstd::utf8::valid_utf8;

verus! {

broadcast use vstd::utf8::decode_utf8_encode_utf8;

/// The terminal rendering of the rich-text document `json`, or `None` where
/// `json` is no JSON or no rich text.
pub uninterp spec fn rendered(json: Seq<char>) -> Option<Seq<char>>;

/// The byte of a percent sign.
pub const PERCENT: u8 = 0x25;

/// The byte of a dollar sign.
pub const DOLLAR: u8 = 0x24;

/// The byte of the letter that ends an argument.
pub const LETTER_S: u8 = 0x73;

/// The byte of the digit zero.
pub const DIGIT_ZERO: u8 = 0x30;

/// The byte of the digit nine.
pub const DIGIT_NINE: u8 = 0x39;

/// What the rich-text reader makes of a format string.
#[derive(Clone, Copy, Debug, PartialEq, Eq, Structural)]
pub enum Format {
    /// It reads the string to its end.
    Sound,
    /// It meets the argument `%0$s`, of which it takes the number before
    /// zero.
    ArgumentZero,
    /// It meets a percent sign and a digit that `$s` does not follow, and
    /// gives the string up.
    Broken,
}

/// What the reader makes of the format string `text`, read from the left: a
/// percent sign before another, before `s`, or before anything but a digit
/// is passed; before a digit, `$s` must follow, and the digit must not be
/// zero.
pub open spec fn format_of(text: Seq<u8>) -> Format
    decreases text.len(),
{
    if text.len() == 0 {
        Format::Sound
    } else if text[0] != PERCENT {
        format_of(text.skip(1))
    } else if text.len() == 1 {
        Format::Sound
    } else if text[1] == PERCENT || text[1] == LETTER_S {
        format_of(text.skip(2))
    } else if DIGIT_ZERO <= text[1] <= DIGIT_NINE {
        if text.len() >= 4 && text[2] == DOLLAR && text[3] == LETTER_S {
            if text[1] == DIGIT_ZERO {
                Format::ArgumentZero
            } else {
                format_of(text.skip(4))
            }
        } else {
            Format::Broken
        }
    } else {
        format_of(text.skip(1))
    }
}

/// The format string that the rich-text reader has in its table for `key`,
/// if it has one.
pub uninterp spec fn translation_of(key: Seq<char>) -> Option<Seq<char>>;

/// Whether the reader, going through the format string `text` from the left
/// with `next` arguments taken in turn so far, uses argument `j` (counted
/// from zero): `%s` takes the next argument in turn, `%N$s` the argument
/// `N - 1`; the reader stops where it gives the string up or meets argument
/// zero.
pub open spec fn uses(text: Seq<u8>, next: nat, j: nat) -> bool
    decreases text.len(),
{
    if text.len() == 0 {
        false
    } else if text[0] != PERCENT {
        uses(text.skip(1), next, j)
    } else if text.len() == 1 {
        false
    } else if text[1] == PERCENT {
        uses(text.skip(2), next, j)
    } else if text[1] == LETTER_S {
        next == j || uses(text.skip(2), next + 1, j)
    } else if DIGIT_ZERO <= text[1] <= DIGIT_NINE {
        if text.len() >= 4 && text[2] == DOLLAR && text[3] == LETTER_S && text[1] != DIGIT_ZERO {
            text[1] - DIGIT_ZERO - 1 == j || uses(text.skip(4), next, j)
        } else {
            false
        }
    } else {
        uses(text.skip(1), next, j)
    }
}

/// Where a value stands for the rich-text reader.
#[derive(Clone, Copy, Debug, PartialEq, Eq, Structural)]
pub enum Place {
    /// The reader does not take it for rich text.
    Unread,
    /// A component that the reader reads, with what it holds, but never
    /// shows.
    Parsed,
    /// A component that the reader shows, with what it holds: it shows the
    /// key of a format string that it gives up.
    Shown,
    /// A component that the reader turns into plain text as part of an
    /// argument that is text at its head: there it fails on a format string
    /// that it gives up.
    Flattened,
    /// The list of the arguments of a format string that the reader goes
    /// through.
    Arguments,
}

/// Whether the object with the members `members` is a component that shows
/// its text: the kind that the reader tries first.
pub open spec fn shows_text(members: Seq<(String, Json)>) -> bool {
    has_key(members, "text"@)
}

/// Whether the object with the members `members` is a component that stands
/// for a format string with arguments: the kind that the reader tries second.
pub open spec fn translates(members: Seq<(String, Json)>) -> bool {
    !has_key(members, "text"@) && has_key(members, "translate"@)
}

/// Whether the object with the members `members` is a component of the kind
/// `nbt`, which the reader tries last.
pub open spec fn reads_nbt(members: Seq<(String, Json)>) -> bool {
    &&& !has_key(members, "text"@)
    &&& !has_key(members, "translate"@)
    &&& !has_key(members, "score"@)
    &&& !has_key(members, "selector"@)
    &&& !has_key(members, "keybind"@)
    &&& !has_key(members, "object"@)
    &&& has_key(members, "nbt"@)
}

/// The format string that the reader goes through for the component with
/// the members `members`: the one its table has for the key; else the one to
/// fall back on; else the key itself. Without a key that is a string there
/// is none.
pub open spec fn template_of(members: Seq<(String, Json)>) -> Option<Seq<u8>> {
    match text_in(member_at(members, "translate"@)) {
        None => None,
        Some(key) => Some(
            encode_utf8(
                match translation_of(key) {
                    Some(known) => known,
                    None => match text_in(member_at(members, "fallback"@)) {
                        Some(fallback) => fallback,
                        None => key,
                    },
                },
            ),
        ),
    }
}

/// What the reader makes of the format string that it goes through for the
/// component with the members `members`, if there is one.
pub open spec fn outcome_of(members: Seq<(String, Json)>) -> Option<Format> {
    match template_of(members) {
        Some(template) => Some(format_of(template)),
        None => None,
    }
}

/// The format string of `template_of`, or an empty one where there is none.
pub open spec fn template_or_none(members: Seq<(String, Json)>) -> Seq<u8> {
    match template_of(members) {
        Some(template) => template,
        None => Seq::empty(),
    }
}

/// Whether the component `doc` is text at its head: a value that is no
/// object, an object that shows its text, or a list with nothing or with
/// such a component first.
pub open spec fn text_first(doc: Json) -> bool
    decreases doc,
{
    match doc {
        Json::Array(items) => items@.len() == 0 || text_first(items@[0]),
        Json::Object(members) => shows_text(members@),
        _ => true,
    }
}

/// Whether the object with the members `members`, standing at `place`, is
/// one that the reader does not survive: an `nbt` component with an
/// `interpret` that is no boolean; where it is shown or turned into plain
/// text, a format string with the argument `%0$s`; where it is turned into
/// plain text, a format string that the reader gives up.
pub open spec fn hazardous_object(members: Seq<(String, Json)>, place: Place) -> bool {
    ||| (reads_nbt(members) && has_other_than_bool(members, "interpret"@))
    ||| ((place is Shown || place is Flattened) && translates(members) && outcome_of(members)
        == Some(Format::ArgumentZero))
    ||| (place is Flattened && translates(members) && outcome_of(members) == Some(
        Format::Broken,
    ))
}

/// Where the value of member `i` stands, in an object with the members
/// `members` that stands at `place`: what a component holds besides itself
/// stands where the component stands; the arguments of a format string that
/// the reader goes through are its arguments, else they are read and no
/// more; so is the separator of an `nbt` component; nothing else is read.
pub open spec fn place_of_member(members: Seq<(String, Json)>, i: int, place: Place) -> Place {
    let key = members[i].0@;
    if key == "extra"@ && (shows_text(members) || translates(members)) {
        place
    } else if key == "with"@ && translates(members) {
        if place is Parsed {
            Place::Parsed
        } else {
            Place::Arguments
        }
    } else if key == "separator"@ && reads_nbt(members) {
        Place::Parsed
    } else {
        Place::Unread
    }
}

/// Where item `j` stands, in a list that stands at `place`. Among the
/// arguments of the format string `template`, one that the reader uses is
/// turned into plain text where it is text at its head, else shown; one that
/// it does not use is read and no more. An item of a component stands where
/// the component stands.
pub open spec fn place_of_item(item: Json, j: int, place: Place, template: Seq<u8>) -> Place {
    if place is Arguments {
        if !uses(template, 0, j as nat) {
            Place::Parsed
        } else if text_first(item) {
            Place::Flattened
        } else {
            Place::Shown
        }
    } else {
        place
    }
}

/// Whether the rich-text reader does not survive the value `doc` that
/// stands at `place`: it is, or holds where the reader reads, an object that
/// the reader does not survive. `template` is the format string whose
/// arguments `doc` lists, where it stands as such a list.
pub open spec fn hazardous(doc: Json, place: Place, template: Seq<u8>) -> bool
    decreases doc,
{
    match doc {
        Json::Array(items) => !(place is Unread) && exists|j: int|
            0 <= j < items@.len() && hazardous(
                #[trigger] items@[j],
                place_of_item(items@[j], j, place, template),
                Seq::empty(),
            ),
        Json::Object(members) => (place is Parsed || place is Shown || place is Flattened) && (
        hazardous_object(members@, place) || exists|i: int|
            0 <= i < members@.len() && hazardous(
                (#[trigger] members@[i]).1,
                place_of_member(members@, i, place),
                template_or_none(members@),
            )),
        _ => false,
    }
}

/// Whether the chat document `json` is refused before it is rendered: it is
/// no JSON, or the reader is kept away from it.
pub open spec fn refused(json: Seq<char>) -> bool {
    match json_value(json) {
        None => true,
        Some(doc) => hazardous(doc, Place::Shown, Seq::empty()),
    }
}

/// Looks `key` up with `azalea_language::get`, the table that the rich-text
/// reader takes its format strings from.
///
/// Believed of it: the outcome is a function of `key` alone.
#[verifier::external_body]
pub(crate) fn translation(key: &str) -> (r: Option<String>)
    ensures
        match r {
            Some(known) => translation_of(key@) == Some(known@),
            None => translation_of(key@) is None,
        },
{
    azalea_language::get(key).map(String::from)
}

/// Reads `json` with `serde_json::from_str`, turns the value into rich text
/// with `azalea_chat::FormattedText::deserialize` and renders that with
/// `FormattedText::to_ansi`.
///
/// Believed of it: the outcome is a function of `json` alone. The reader
/// panics in three places: where it reads an `nbt` component with an
/// `interpret` that is no boolean; where a format string that it goes
/// through names argument zero; and where it turns an argument that it uses
/// into plain text, the argument is text at its head and holds a format
/// string which the reader gives up. Documents in which it would come to one
/// of these are kept out.
#[verifier::external_body]
pub(crate) fn render_ansi(json: &str) -> (r: Option<String>)
    requires
        json_value(json@) matches Some(doc) ==> !hazardous(doc, Place::Shown, Seq::empty()),
    ensures
        match r {
            Some(line) => rendered(json@) == Some(line@),
            None => rendered(json@) is None,
        },
{
    let value: serde_json::Value = match serde_json::from_str(json) {
        Ok(value) => value,
        Err(_) => return None,
    };
    match FormattedText::deserialize(&value) {
        Ok(text) => Some(text.to_ansi()),
        Err(_) => None,
    }
}

/// What the reader makes of the format string `text`.
pub fn read_format(text: &[u8]) -> (r: Format)
    ensures
        r == format_of(text@),
{
    let mut i: usize = 0;
    proof {
        assert(text@.skip(0) =~= text@);
    }
    while i < text.len()
        invariant
            i <= text@.len(),
            format_of(text@) == format_of(text@.skip(i as int)),
        decreases text@.len() - i,
    {
        let ghost rest = text@.skip(i as int);
        let left: usize = text.len() - i;
        proof {
            assert(rest.skip(1) =~= text@.skip(i + 1));
            if left >= 2 {
                assert(rest.skip(2) =~= text@.skip(i + 2));
            }
            if left >= 4 {
                assert(rest.skip(4) =~= text@.skip(i + 4));
            }
        }
        if text[i] != PERCENT {
            i = i + 1;
        } else if left == 1 {
            return Format::Sound;
        } else if text[i + 1] == PERCENT || text[i + 1] == LETTER_S {
            i = i + 2;
        } else if DIGIT_ZERO <= text[i + 1] && text[i + 1] <= DIGIT_NINE {
            if left >= 4 && text[i + 2] == DOLLAR && text[i + 3] == LETTER_S {
                if text[i + 1] == DIGIT_ZERO {
                    return Format::ArgumentZero;
                }
                i = i + 4;
            } else {
                return Format::Broken;
            }
        } else {
            i = i + 1;
        }
    }
    Format::Sound
}

/// Whether the reader, going through the format string `text`, uses argument
/// `j`.
pub fn is_used(text: &[u8], j: usize) -> (r: bool)
    ensures
        r == uses(text@, 0, j as nat),
{
    let mut i: usize = 0;
    let mut next: usize = 0;
    proof {
        assert(text@.skip(0) =~= text@);
    }
    while i < text.len()
        invariant
            i <= text@.len(),
            next <= i,
            uses(text@, 0, j as nat) == uses(text@.skip(i as int), next as nat, j as nat),
        decreases text@.len() - i,
    {
        let ghost rest = text@.skip(i as int);
        let left: usize = text.len() - i;
        proof {
            assert(rest.skip(1) =~= text@.skip(i + 1));
            if left >= 2 {
                assert(rest.skip(2) =~= text@.skip(i + 2));
            }
            if left >= 4 {
                assert(rest.skip(4) =~= text@.skip(i + 4));
            }
        }
        if text[i] != PERCENT {
            i = i + 1;
        } else if left == 1 {
            return false;
        } else if text[i + 1] == PERCENT {
            i = i + 2;
        } else if text[i + 1] == LETTER_S {
            if next == j {
                return true;
            }
            next = next + 1;
            i = i + 2;
        } else if DIGIT_ZERO <= text[i + 1] && text[i + 1] <= DIGIT_NINE {
            if left >= 4 && text[i + 2] == DOLLAR && text[i + 3] == LETTER_S && text[i + 1]
                != DIGIT_ZERO {
                let number: usize = (text[i + 1] - DIGIT_ZERO - 1) as usize;
                if number == j {
                    return true;
                }
                i = i + 4;
            } else {
                return false;
            }
        } else {
            i = i + 1;
        }
    }
    false
}

/// The format string that the reader goes through for the component with
/// the members `members`.
pub fn template(members: &Vec<(String, Json)>) -> (r: Option<Vec<u8>>)
    ensures
        match r {
            Some(bytes) => template_of(members@) == Some(bytes@),
            None => template_of(members@) is None,
        },
{
    let key = match member_text(members, "translate") {
        Some(key) => key,
        None => {
            return None;
        },
    };
    match translation(key.as_str()) {
        Some(known) => Some(slice_to_vec(known.as_str().as_bytes())),
        None => match member_text(members, "fallback") {
            Some(fallback) => Some(slice_to_vec(fallback.as_str().as_bytes())),
            None => Some(slice_to_vec(key.as_str().as_bytes())),
        },
    }
}

/// Whether the component `doc` is text at its head.
pub fn is_text_first(doc: &Json) -> (r: bool)
    ensures
        r == text_first(*doc),
    decreases *doc,
{
    match doc {
        Json::Array(items) => {
            if items.len() == 0 {
                true
            } else {
                proof {
                    vstd::std_specs::vec::axiom_vec_index_decreases(*items, 0);
                }
                is_text_first(&items[0])
            }
        },
        Json::Object(members) => has_member(members, "text"),
        _ => true,
    }
}

/// Whether the object with the members `members` is a component of the kind
/// `nbt`.
pub fn is_nbt(members: &Vec<(String, Json)>) -> (r: bool)
    ensures
        r == reads_nbt(members@),
{
    if has_member(members, "text") || has_member(members, "translate") || has_member(
        members,
        "score",
    ) || has_member(members, "selector") || has_member(members, "keybind") || has_member(
        members,
        "object",
    ) {
        return false;
    }
    has_member(members, "nbt")
}

/// Whether the object with the members `members` is a component that stands
/// for a format string with arguments.
pub fn is_translated(members: &Vec<(String, Json)>) -> (r: bool)
    ensures
        r == translates(members@),
{
    if has_member(members, "text") {
        return false;
    }
    has_member(members, "translate")
}

/// Whether the object with the members `members`, standing at `place`, is
/// one that the reader does not survive.
pub fn is_hazardous_object(members: &Vec<(String, Json)>, place: Place) -> (found: bool)
    ensures
        found == hazardous_object(members@, place),
{
    if is_nbt(members) {
        return has_no_bool(members, "interpret");
    }
    if !is_translated(members) {
        return false;
    }
    let shown = match place {
        Place::Shown | Place::Flattened => true,
        _ => false,
    };
    if !shown {
        return false;
    }
    let outcome = match template(members) {
        Some(bytes) => read_format(bytes.as_slice()),
        None => Format::Sound,
    };
    match outcome {
        Format::Sound => false,
        Format::ArgumentZero => true,
        Format::Broken => match place {
            Place::Flattened => true,
            _ => false,
        },
    }
}

/// Whether the rich-text reader does not survive the value `doc` that
/// stands at `place`; `template` is the format string whose arguments `doc`
/// lists, where it stands as such a list.
pub fn is_hazardous(doc: &Json, place: Place, template: &[u8]) -> (found: bool)
    ensures
        found == hazardous(*doc, place, template@),
    decreases *doc,
{
    match doc {
        Json::Array(items) => match place {
            Place::Unread => false,
            _ => any_item_hazardous(items, place, template),
        },
        Json::Object(members) => match place {
            Place::Parsed | Place::Shown | Place::Flattened => is_hazardous_object(members, place)
                || any_member_hazardous(members, place),
            _ => false,
        },
        _ => false,
    }
}

/// Whether the reader does not survive one of `items`, in a list that stands
/// at `place`.
pub fn any_item_hazardous(items: &Vec<Json>, place: Place, template: &[u8]) -> (found: bool)
    ensures
        found == (exists|j: int|
            0 <= j < items@.len() && hazardous(
                #[trigger] items@[j],
                place_of_item(items@[j], j, place, template@),
                Seq::empty(),
            )),
    decreases *items,
{
    let none: Vec<u8> = Vec::new();
    let mut j: usize = 0;
    while j < items.len()
        invariant
            j <= items@.len(),
            none@ == Seq::<u8>::empty(),
            forall|k: int|
                0 <= k < j ==> !hazardous(
                    #[trigger] items@[k],
                    place_of_item(items@[k], k, place, template@),
                    Seq::empty(),
                ),
        decreases items@.len() - j,
    {
        proof {
            vstd::std_specs::vec::axiom_vec_index_decreases(*items, j as int);
        }
        let below = match place {
            Place::Arguments => if !is_used(template, j) {
                Place::Parsed
            } else if is_text_first(&items[j]) {
                Place::Flattened
            } else {
                Place::Shown
            },
            _ => place,
        };
        if is_hazardous(&items[j], below, none.as_slice()) {
            assert(hazardous(
                items@[j as int],
                place_of_item(items@[j as int], j as int, place, template@),
                Seq::empty(),
            ));
            return true;
        }
        j = j + 1;
    }
    false
}

/// Whether the reader does not survive the value of one of `members`, in an
/// object that stands at `place`.
pub fn any_member_hazardous(members: &Vec<(String, Json)>, place: Place) -> (found: bool)
    ensures
        found == (exists|i: int|
            0 <= i < members@.len() && hazardous(
                (#[trigger] members@[i]).1,
                place_of_member(members@, i, place),
                template_or_none(members@),
            )),
    decreases *members,
{
    let extra = String::from_str("extra");
    let with = String::from_str("with");
    let separator = String::from_str("separator");
    let translated = is_translated(members);
    let holds = translated || has_member(members, "text");
    let nbt = is_nbt(members);
    let format: Vec<u8> = match template(members) {
        Some(bytes) => bytes,
        None => Vec::new(),
    };
    let mut i: usize = 0;
    while i < members.len()
        invariant
            i <= members@.len(),
            extra@ == "extra"@,
            with@ == "with"@,
            separator@ == "separator"@,
            translated == translates(members@),
            holds == (shows_text(members@) || translates(members@)),
            nbt == reads_nbt(members@),
            format@ == template_or_none(members@),
            forall|k: int|
                0 <= k < i ==> !hazardous(
                    (#[trigger] members@[k]).1,
                    place_of_member(members@, k, place),
                    template_or_none(members@),
                ),
        decreases members@.len() - i,
    {
        let below = if members[i].0 == extra && holds {
            place
        } else if members[i].0 == with && translated {
            match place {
                Place::Parsed => Place::Parsed,
                _ => Place::Arguments,
            }
        } else if members[i].0 == separator && nbt {
            Place::Parsed
        } else {
            Place::Unread
        };
        proof {
            vstd::std_specs::vec::axiom_vec_index_decreases(*members, i as int);
            assert(below == place_of_member(members@, i as int, place));
        }
        if is_hazardous(&members[i].1, below, format.as_slice()) {
            assert(hazardous(
                members@[i as int].1,
                place_of_member(members@, i as int, place),
                template_or_none(members@),
            ));
            return true;
        }
        i = i + 1;
    }
    false
}

/// The line to show for the chat document `json`: its rendering, unless the
/// document is refused or is no rich text.
pub open spec fn line_of(json: Seq<char>) -> Result<Seq<char>, Error> {
    if refused(json) {
        Err(Error::ProtocolDecodeError)
    } else {
        match rendered(json) {
            Some(line) => Ok(line),
            None => Err(Error::ProtocolDecodeError),
        }
    }
}

/// The line to show for the chat message at the head of `payload`, and the
/// number of bytes that the message takes: its string must be there and be
/// UTF-8, and its document rich text.
pub open spec fn chat_line(payload: Seq<u8>) -> Result<(Seq<char>, nat), Error> {
    match dynamic_array(payload) {
        Err(e) => Err(e),
        Ok((document, used)) => if !valid_utf8(document) {
            Err(Error::ProtocolDecodeError)
        } else {
            match line_of(decode_utf8(document)) {
                Ok(line) => Ok((line, used)),
                Err(e) => Err(e),
            }
        },
    }
}

/// The line to show for the chat document `json`: its rendering. A document
/// that is no JSON, that the reader is kept away from, or that is no rich
/// text is a `ProtocolDecodeError`.
pub fn render_chat(json: &str) -> (r: Result<String, Error>)
    ensures
        match r {
            Ok(line) => !refused(json@) && rendered(json@) == Some(line@),
            Err(e) => e == Error::ProtocolDecodeError && (refused(json@) || rendered(json@)
                is None),
        },
        match r {
            Ok(line) => line_of(json@) == Ok::<Seq<char>, Error>(line@),
            Err(e) => line_of(json@) == Err::<Seq<char>, Error>(e),
        },
{
    let doc = match read_json(json) {
        Some(doc) => doc,
        None => {
            return Err(Error::ProtocolDecodeError);
        },
    };
    let none: Vec<u8> = Vec::new();
    if is_hazardous(&doc, Place::Shown, none.as_slice()) {
        return Err(Error::ProtocolDecodeError);
    }
    match render_ansi(json) {
        Some(line) => Ok(line),
        None => Err(Error::ProtocolDecodeError),
    }
}

/// Reads a chat message at the cursor, stops behind it and gives the line to
/// show for it. On an error the cursor stays where it was.
pub fn receive_chat_message(cursor: &mut Cursor) -> (r: Result<String, Error>)
    ensures
        final(cursor).bytes() == old(cursor).bytes(),
        final(cursor).position() <= final(cursor).bytes().len(),
        match r {
            Ok(line) => {
                &&& chat_line(old(cursor).remaining()) matches Ok((want, used))
                &&& line@ == want
                &&& moved(*old(cursor), *final(cursor), used)
            },
            Err(e) => {
                &&& chat_line(old(cursor).remaining()) == Err::<(Seq<char>, nat), Error>(e)
                &&& final(cursor).position() == old(cursor).position()
            },
        },
{
    let at: usize = cursor.pos();
    let document = match read_array_dynamic_cursor(cursor) {
        Ok(v) => v,
        Err(e) => {
            return Err(e);
        },
    };
    let rendering = match string_from_utf8(document) {
        Some(json) => render_chat(json.as_str()),
        None => Err(Error::ProtocolDecodeError),
    };
    match rendering {
        Ok(line) => Ok(line),
        Err(e) => {
            cursor.seek(at);
            Err(e)
        },
    }
}

} // verus!
