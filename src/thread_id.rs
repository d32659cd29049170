//! Classification of an external chat identifier into a thread handle: a
//! direct conversation named by a UUID, or a group named by a 32-byte master
//! key written in hexadecimal.

use vstd::prelude::*;

verus! {

/// Number of bytes in a group master key.
pub const GROUP_KEY_LEN: usize = 32;

/// The conversation an identifier designates.
#[derive(Debug, Clone, PartialEq, Eq)]
pub enum ThreadHandle {
    /// A one-to-one conversation with the account of this 128-bit identifier.
    DirectThread(u128),
    /// A group conversation with this master key.
    GroupThread([u8; 32]),
}

/// Why an identifier was not accepted.
#[derive(Debug, Clone, PartialEq, Eq)]
pub enum IdentifierFault {
    /// Neither a UUID nor hexadecimal text.
    NotHex,
    /// Hexadecimal text of this many bytes, where a group key has 32.
    WrongKeyLength(usize),
}

/// Failure to resolve an identifier; it carries the text that was given.
#[derive(Debug, Clone, PartialEq, Eq)]
pub enum ParseError {
    InvalidIdentifier { input: String, fault: IdentifierFault },
}

pub open spec fn is_hex_digit(c: char) -> bool {
    let v = c as u32;
    (48 <= v <= 57) || (65 <= v <= 70) || (97 <= v <= 102)
}

/// Value of a hexadecimal digit, in either case.
pub open spec fn hex_value(c: char) -> int {
    let v = c as u32;
    if 48 <= v <= 57 {
        v - 48
    } else if 65 <= v <= 70 {
        v - 55
    } else {
        v - 87
    }
}

/// The bytes that hexadecimal text stands for, two digits per byte, high digit
/// first; none when the text has an odd length or a character that is no digit.
pub open spec fn hex_decoded(s: Seq<char>) -> Option<Seq<u8>> {
    if s.len() % 2 == 0 && forall|i: int| 0 <= i < s.len() ==> #[trigger] is_hex_digit(s[i]) {
        Some(
            Seq::new(
                (s.len() / 2) as nat,
                |j: int| (hex_value(s[2 * j]) * 16 + hex_value(s[2 * j + 1])) as u8,
            ),
        )
    } else {
        None
    }
}

/// The 128-bit value of a UUID written as text, when the text is one.
pub uninterp spec fn uuid_parse(s: Seq<char>) -> Option<u128>;

/// Relies on uuid::Uuid::parse_str (with Uuid::as_u128): the value of a UUID in
/// any of its textual forms, a function of the text alone.
#[verifier::external_body]
pub(crate) fn parse_uuid(s: &str) -> (r: Option<u128>)
    ensures
        r == uuid_parse(s@),
{
    uuid::Uuid::parse_str(s).ok().map(|u| u.as_u128())
}

/// Relies on hex::decode: even-length text of hexadecimal digits of either
/// case decodes to one byte per pair of digits; anything else is an error.
#[verifier::external_body]
fn decode_hex(s: &str) -> (r: Option<Vec<u8>>)
    ensures
        r.is_some() == hex_decoded(s@).is_some(),
        r.is_some() ==> r.unwrap()@ == hex_decoded(s@).unwrap(),
{
    hex::decode(s).ok()
}

/// What resolving `input` gives, once it is known whether it reads as a UUID.
pub open spec fn resolves_to(
    input: Seq<char>,
    uuid: Option<u128>,
    r: Result<ThreadHandle, ParseError>,
) -> bool {
    match uuid {
        Some(id) => r == Ok::<ThreadHandle, ParseError>(ThreadHandle::DirectThread(id)),
        None => match hex_decoded(input) {
            Some(bytes) => if bytes.len() == 32 {
                r matches Ok(ThreadHandle::GroupThread(key)) && key@ == bytes
            } else {
                r matches Err(ParseError::InvalidIdentifier { input: s, fault }) && s@ == input
                    && fault == IdentifierFault::WrongKeyLength(bytes.len() as usize)
            },
            None => r matches Err(ParseError::InvalidIdentifier { input: s, fault }) && s@ == input
                && fault == IdentifierFault::NotHex,
        },
    }
}

/// Classifies `input` given the outcome of reading it as a UUID: a UUID names
/// a direct thread; otherwise 32 bytes of hexadecimal name a group.
pub fn classify(input: &str, uuid: Option<u128>) -> (r: Result<ThreadHandle, ParseError>)
    ensures
        resolves_to(input@, uuid, r),
{
    if let Some(id) = uuid {
        return Ok(ThreadHandle::DirectThread(id));
    }
    match decode_hex(input) {
        Some(bytes) => {
            if bytes.len() != GROUP_KEY_LEN {
                return Err(
                    ParseError::InvalidIdentifier {
                        input: String::from_str(input),
                        fault: IdentifierFault::WrongKeyLength(bytes.len()),
                    },
                );
            }
            let mut key = [0u8; 32];
            let mut i: usize = 0;
            while i < GROUP_KEY_LEN
                invariant
                    bytes@.len() == 32,
                    i <= 32,
                    forall|j: int| 0 <= j < i ==> key@[j] == bytes@[j],
                decreases 32 - i,
            {
                key[i] = bytes[i];
                i = i + 1;
            }
            assert(key@ =~= bytes@);
            Ok(ThreadHandle::GroupThread(key))
        },
        None => Err(
            ParseError::InvalidIdentifier { input: String::from_str(input), fault: IdentifierFault::NotHex },
        ),
    }
}

/// Resolves an external chat identifier to the thread it designates.
pub fn resolve(input: &str) -> (r: Result<ThreadHandle, ParseError>)
    ensures
        resolves_to(input@, uuid_parse(input@), r),
{
    let id = parse_uuid(input);
    classify(input, id)
}

/// What a request to mark chats read does with one chat id: a thread to mark
/// (`Ok(Some)`), an id to skip because it is neither a UUID nor hexadecimal
/// (`Ok(None)`), or a failure of the whole request for a group key of the
/// wrong length (`Err`).
pub open spec fn chat_target_of(input: Seq<char>, resolved: Result<ThreadHandle, ParseError>, r: Result<Option<ThreadHandle>, ParseError>) -> bool {
    match resolved {
        Ok(h) => r == Ok::<Option<ThreadHandle>, ParseError>(Some(h)),
        Err(ParseError::InvalidIdentifier { input: s, fault: IdentifierFault::NotHex }) => r
            == Ok::<Option<ThreadHandle>, ParseError>(None),
        Err(e) => r == Err::<Option<ThreadHandle>, ParseError>(e),
    }
}

/// Decides what to do with one chat id of a request to mark chats read.
pub fn chat_target(input: &str) -> (r: Result<Option<ThreadHandle>, ParseError>)
    ensures
        exists|resolved: Result<ThreadHandle, ParseError>|
            resolves_to(input@, uuid_parse(input@), resolved) && #[trigger] chat_target_of(
                input@,
                resolved,
                r,
            ),
{
    let resolved = resolve(input);
    let ghost g = resolved;
    let r = match resolved {
        Ok(h) => Ok(Some(h)),
        Err(ParseError::InvalidIdentifier { input: s, fault: IdentifierFault::NotHex }) => Ok(None),
        Err(e) => Err(e),
    };
    assert(chat_target_of(input@, g, r));
    r
}

} // verus!
