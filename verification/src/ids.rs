//! Fresh ids and the form of ids.
use vstd::prelude::*;
use vstd::string::*;

use crate::text;

verus! {

/// Whether `c` is a lowercase hexadecimal digit.
pub open spec fn is_lower_hex(c: char) -> bool {
    ('0' <= c <= '9') || ('a' <= c <= 'f')
}

/// Whether a position in a hyphenated id holds a hyphen.
pub open spec fn is_hyphen_position(i: int) -> bool {
    i == 8 || i == 13 || i == 18 || i == 23
}

/// Whether `s` has the form of a fresh id: 32 lowercase hexadecimal digits in five
/// groups with hyphens between.
pub open spec fn is_hyphenated_id(s: Seq<char>) -> bool {
    &&& s.len() == 36
    &&& forall|i: int|
        0 <= i < 36 ==> if is_hyphen_position(i) {
            #[trigger] s[i] == '-'
        } else {
            is_lower_hex(s[i])
        }
}

/// Whether `c` is a hexadecimal digit of either case.
pub open spec fn is_hex(c: char) -> bool {
    is_lower_hex(c) || ('A' <= c <= 'F')
}

/// Whether `s` is written like an id: as a fresh one is, in digits of either case.
pub open spec fn reads_as_id(s: Seq<char>) -> bool {
    &&& s.len() == 36
    &&& forall|i: int|
        0 <= i < 36 ==> if is_hyphen_position(i) {
            #[trigger] s[i] == '-'
        } else {
            is_hex(s[i])
        }
}

/// Calls `uuid::Uuid::new_v4` and takes the hyphenated text. Which id it is is
/// chance; its form is not.
#[verifier::external_body]
pub(crate) fn fresh_id() -> (r: String)
    ensures
        is_hyphenated_id(r@),
{
    uuid::Uuid::new_v4().to_string()
}

/// Calls `uuid::Uuid::parse_str` on a text of 36 bytes, which it reads as an id
/// exactly where it is 32 hexadecimal digits with hyphens behind the first eight and
/// each of the three groups of four that follow.
#[verifier::external_body]
fn parses_as_uuid(text: &str) -> (r: bool)
    requires
        text.spec_bytes().len() == 36,
    ensures
        r == reads_as_id(text@),
{
    uuid::Uuid::parse_str(text).is_ok()
}

/// The part of an event's id before its first colon, where it has the length of a
/// hyphenated id.
pub open spec fn machine_prefix(event_id: Seq<char>) -> Option<Seq<char>> {
    let k = text::seek(event_id, ':', 0);
    let prefix = event_id.take(k);
    if k < event_id.len() && vstd::utf8::encode_utf8(prefix).len() == 36 {
        Some(prefix)
    } else {
        None
    }
}

/// The id of the machine that an event came from: the prefix of the event's id,
/// where that reads as an id.
pub open spec fn machine_of(event_id: Seq<char>) -> Option<Seq<char>> {
    match machine_prefix(event_id) {
        Some(prefix) => if reads_as_id(prefix) {
            Some(prefix)
        } else {
            None
        },
        None => None,
    }
}

/// The part of an event's id before its first colon, where it has the length of a
/// hyphenated id.
pub fn id_prefix(event_id: &str) -> (r: Option<String>)
    ensures
        text::opt_text(r) == machine_prefix(event_id@),
{
    let chars = text::chars_of(event_id);
    let k: usize = text::find_char(&chars, ':', 0);
    if k >= chars.len() {
        return None;
    }
    let prefix = text::string_from(&chars, 0, k);
    proof {
        assert(prefix@ =~= event_id@.take(k as int));
    }
    if prefix.as_str().as_bytes().len() != 36 {
        return None;
    }
    Some(prefix)
}

/// The id of the machine that an event came from, where its id starts with one.
pub fn extract_machine_id(event_id: &str) -> (r: Option<String>)
    ensures
        text::opt_text(r) == machine_of(event_id@),
{
    match id_prefix(event_id) {
        Some(prefix) => if parses_as_uuid(prefix.as_str()) {
            Some(prefix)
        } else {
            None
        },
        None => None,
    }
}

/// The machine is read back from every id that starts with it and a colon.
pub proof fn machines_read_back(event_id: Seq<char>, machine: Seq<char>)
    requires
        reads_as_id(machine),
        event_id.len() > 36,
        event_id.take(36) == machine,
        event_id[36] == ':',
    ensures
        machine_of(event_id) == Some(machine),
{
    let k = text::seek(event_id, ':', 0);
    text::seek_is_first(event_id, ':', 0);
    assert forall|i: int| 0 <= i < 36 implies event_id[i] != ':' by {
        assert(machine[i] == event_id[i]);
    }
    assert(k == 36);
    assert(vstd::utf8::is_ascii_chars(machine));
    vstd::utf8::is_ascii_chars_encode_utf8(machine);
}

/// An event's id tells a machine exactly where it starts with an id and a colon, and then
/// that machine.
pub proof fn ids_tell_a_machine_before_a_colon(event_id: Seq<char>)
    ensures
        machine_of(event_id) is Some <==> event_id.len() > 36 && event_id[36] == ':' && reads_as_id(
            event_id.take(36),
        ),
        machine_of(event_id) matches Some(machine) ==> machine == event_id.take(36),
{
    let k = text::seek(event_id, ':', 0);
    text::seek_is_first(event_id, ':', 0);
    if machine_of(event_id) is Some {
        assert(event_id.take(k).len() == 36);
    }
    if event_id.len() > 36 && event_id[36] == ':' && reads_as_id(event_id.take(36)) {
        machines_read_back(event_id, event_id.take(36));
    }
}

/// An id reads as one in either case of its letters.
pub proof fn ids_are_read_in_either_case(s: Seq<char>, i: int, lower: char, upper: char)
    requires
        0 <= i < s.len(),
        'a' <= lower <= 'f',
        upper as int == lower as int - 'a' as int + 'A' as int,
    ensures
        reads_as_id(s.update(i, lower)) <==> reads_as_id(s.update(i, upper)),
        is_hyphenated_id(s) ==> reads_as_id(s),
{
    let a = s.update(i, lower);
    let b = s.update(i, upper);
    if reads_as_id(a) {
        assert forall|j: int| 0 <= j < 36 implies if is_hyphen_position(j) {
            #[trigger] b[j] == '-'
        } else {
            is_hex(b[j])
        } by {
            assert(a[i] == lower);
            let same = a[j];
        }
    }
    if reads_as_id(b) {
        assert forall|j: int| 0 <= j < 36 implies if is_hyphen_position(j) {
            #[trigger] a[j] == '-'
        } else {
            is_hex(a[j])
        } by {
            assert(b[i] == upper);
            let same = b[j];
        }
    }
}

} // verus!
