//! Plain values as JSON, which is how logs hold them.
use vstd::prelude::*;

use crate::forwarded_message::Forwards;
use crate::loggable::{DeserializeError, Loggable, SerializeError};

verus! {

/// The bytes of an ASCII text.
pub open spec fn ascii_bytes(text: Seq<char>) -> Seq<u8> {
    text.map_values(|c: char| c as u8)
}

/// A number as JSON: its decimal digits.
pub open spec fn json_digits(value: u64) -> Seq<u8> {
    ascii_bytes(crate::text::decimal(value as nat))
}

/// The JSON string that `serde_json::to_vec` makes of a text.
pub uninterp spec fn json_string(text: Seq<char>) -> Seq<u8>;

/// What `serde_json::from_slice` reads as a `u64`: the number, or the message
/// of its error.
pub uninterp spec fn json_number_in(bytes: Seq<u8>) -> Result<u64, Seq<char>>;

/// What `serde_json::from_slice` reads as a `String`: the text, or the message
/// of its error.
pub uninterp spec fn json_string_in(bytes: Seq<u8>) -> Result<Seq<char>, Seq<char>>;

/// A number or an error message, by its characters.
pub open spec fn number_outcome(r: Result<u64, String>) -> Result<u64, Seq<char>> {
    match r {
        Ok(value) => Ok(value),
        Err(message) => Err(message@),
    }
}

/// A text or an error message, by its characters.
pub open spec fn text_outcome(r: Result<String, String>) -> Result<Seq<char>, Seq<char>> {
    match r {
        Ok(text) => Ok(text@),
        Err(message) => Err(message@),
    }
}

/// `serde_json::to_vec` of a `u64`: it always succeeds, and the bytes are the
/// decimal digits of the number.
#[verifier::external_body]
fn number_to_json(value: u64) -> (r: Result<Vec<u8>, String>)
    ensures
        r is Ok,
        r matches Ok(bytes) ==> bytes@ == json_digits(value),
{
    serde_json::to_vec(&value).map_err(|error| error.to_string())
}

/// `serde_json::from_slice` to a `u64`: what comes of it depends on the bytes
/// alone, and the digits of a number give that number back.
#[verifier::external_body]
fn number_from_json(bytes: &[u8]) -> (r: Result<u64, String>)
    ensures
        json_number_in(bytes@) == number_outcome(r),
        forall|value: u64| bytes@ == #[trigger] json_digits(value) ==> r is Ok && r->Ok_0 == value,
{
    serde_json::from_slice::<u64>(bytes).map_err(|error| error.to_string())
}

/// `serde_json::to_vec` of a text: it always succeeds, and the bytes depend on
/// the text alone.
#[verifier::external_body]
fn text_to_json(text: &str) -> (r: Result<Vec<u8>, String>)
    ensures
        r is Ok,
        r matches Ok(bytes) ==> bytes@ == json_string(text@),
{
    serde_json::to_vec(text).map_err(|error| error.to_string())
}

/// `serde_json::from_slice` to a `String`: what comes of it depends on the
/// bytes alone, and the JSON string of a text gives that text back.
#[verifier::external_body]
fn text_from_json(bytes: &[u8]) -> (r: Result<String, String>)
    ensures
        json_string_in(bytes@) == text_outcome(r),
        forall|text: Seq<char>| bytes@ == #[trigger] json_string(text) ==> r is Ok && r->Ok_0@
            == text,
{
    serde_json::from_slice::<String>(bytes).map_err(|error| error.to_string())
}

/// Identifies numbers among the payload types.
pub const NUMBER_VALUE_TYPE: u64 = 0x75_3634;

/// Identifies texts among the payload types.
pub const TEXT_VALUE_TYPE: u64 = 0x73_7472;

impl Loggable for u64 {
    open spec fn tag() -> u64 {
        NUMBER_VALUE_TYPE
    }

    fn value_type() -> (r: u64) {
        NUMBER_VALUE_TYPE
    }

    open spec fn writes(
        &self,
        before: Seq<u8>,
        after: Seq<u8>,
        r: Result<(), SerializeError>,
    ) -> bool {
        r is Ok && after == before + json_digits(*self)
    }

    fn serialize(&self, w: &mut Vec<u8>) -> (r: Result<(), SerializeError>) {
        match number_to_json(*self) {
            Ok(bytes) => {
                let mut bytes = bytes;
                w.append(&mut bytes);
                Ok(())
            },
            Err(message) => Err(SerializeError::SerdeJson(message)),
        }
    }

    open spec fn reads(bytes: Seq<u8>, r: Result<u64, DeserializeError>) -> bool {
        &&& r matches Ok(value) ==> json_number_in(bytes) == Ok::<u64, Seq<char>>(value)
        &&& r matches Err(error) ==> error is SerdeJson && json_number_in(bytes) == Err::<
            u64,
            Seq<char>,
        >(error->SerdeJson_0@)
        &&& forall|value: u64| bytes == #[trigger] json_digits(value) ==> r is Ok && r->Ok_0
            == value
    }

    fn deserialize(bytes: &[u8]) -> (r: Result<u64, DeserializeError>) {
        match number_from_json(bytes) {
            Ok(value) => Ok(value),
            Err(message) => Err(DeserializeError::SerdeJson(message)),
        }
    }
}

impl Loggable for String {
    open spec fn tag() -> u64 {
        TEXT_VALUE_TYPE
    }

    fn value_type() -> (r: u64) {
        TEXT_VALUE_TYPE
    }

    open spec fn writes(
        &self,
        before: Seq<u8>,
        after: Seq<u8>,
        r: Result<(), SerializeError>,
    ) -> bool {
        r is Ok && after == before + json_string(self@)
    }

    fn serialize(&self, w: &mut Vec<u8>) -> (r: Result<(), SerializeError>) {
        match text_to_json(self.as_str()) {
            Ok(bytes) => {
                let mut bytes = bytes;
                w.append(&mut bytes);
                Ok(())
            },
            Err(message) => Err(SerializeError::SerdeJson(message)),
        }
    }

    open spec fn reads(bytes: Seq<u8>, r: Result<String, DeserializeError>) -> bool {
        &&& r matches Ok(text) ==> json_string_in(bytes) == Ok::<Seq<char>, Seq<char>>(text@)
        &&& r matches Err(error) ==> error is SerdeJson && json_string_in(bytes) == Err::<
            Seq<char>,
            Seq<char>,
        >(error->SerdeJson_0@)
        &&& forall|text: Seq<char>| bytes == #[trigger] json_string(text) ==> r is Ok
            && r->Ok_0@ == text
    }

    fn deserialize(bytes: &[u8]) -> (r: Result<String, DeserializeError>) {
        match text_from_json(bytes) {
            Ok(text) => Ok(text),
            Err(message) => Err(DeserializeError::SerdeJson(message)),
        }
    }
}

/// A number that was written is read back.
pub proof fn law_logged_number_is_read_back(
    value: u64,
    bytes: Seq<u8>,
    written: Result<(), SerializeError>,
    r: Result<u64, DeserializeError>,
)
    requires
        value.writes(Seq::empty(), bytes, written),
        u64::reads(bytes, r),
    ensures
        written is Ok,
        r is Ok,
        r->Ok_0 == value,
{
    assert(bytes =~= json_digits(value));
}

/// A text that was written is read back.
pub proof fn law_logged_text_is_read_back(
    value: String,
    bytes: Seq<u8>,
    written: Result<(), SerializeError>,
    r: Result<String, DeserializeError>,
)
    requires
        value.writes(Seq::empty(), bytes, written),
        <String as Loggable>::reads(bytes, r),
    ensures
        written is Ok,
        r is Ok,
        r->Ok_0@ == value@,
{
    assert(bytes =~= json_string(value@));
}

/// Numbers that go with forwarded numbers.
pub const NUMBER_WITH_NUMBER_TYPE: u64 = 0x75_3634_75_3634;

impl Forwards<u64> for u64 {
    open spec fn forwarding_tag() -> u64 {
        NUMBER_WITH_NUMBER_TYPE
    }

    fn forwarding_value_type() -> (r: u64) {
        NUMBER_WITH_NUMBER_TYPE
    }
}

/// Numbers that go with forwarded texts.
pub const NUMBER_WITH_TEXT_TYPE: u64 = 0x75_3634_73_7472;

impl Forwards<String> for u64 {
    open spec fn forwarding_tag() -> u64 {
        NUMBER_WITH_TEXT_TYPE
    }

    fn forwarding_value_type() -> (r: u64) {
        NUMBER_WITH_TEXT_TYPE
    }
}

/// Texts that go with forwarded numbers.
pub const TEXT_WITH_NUMBER_TYPE: u64 = 0x73_7472_75_3634;

impl Forwards<u64> for String {
    open spec fn forwarding_tag() -> u64 {
        TEXT_WITH_NUMBER_TYPE
    }

    fn forwarding_value_type() -> (r: u64) {
        TEXT_WITH_NUMBER_TYPE
    }
}

/// Texts that go with forwarded texts.
pub const TEXT_WITH_TEXT_TYPE: u64 = 0x73_7472_73_7472;

impl Forwards<String> for String {
    open spec fn forwarding_tag() -> u64 {
        TEXT_WITH_TEXT_TYPE
    }

    fn forwarding_value_type() -> (r: u64) {
        TEXT_WITH_TEXT_TYPE
    }
}

} // verus!
