// The identities of connections: random UUIDs, kept as 128-bit values.

use crate::error::PatchbayError;
use crate::text::same_text;
use vstd::prelude::*;

verus! {

/// The error of the `uuid` crate's parser.
#[verifier::external_type_specification]
#[verifier::external_body]
pub struct ExUuidError(uuid::Error);

/// The value that `uuid::Uuid::parse_str` reads out of a text, if any.
pub uninterp spec fn parsed_uuid(text: Seq<char>) -> Option<u128>;

/// The lower-case hexadecimal digit for a value below sixteen.
pub open spec fn hex_char(digit: u128) -> char {
    if digit == 0 {
        '0'
    } else if digit == 1 {
        '1'
    } else if digit == 2 {
        '2'
    } else if digit == 3 {
        '3'
    } else if digit == 4 {
        '4'
    } else if digit == 5 {
        '5'
    } else if digit == 6 {
        '6'
    } else if digit == 7 {
        '7'
    } else if digit == 8 {
        '8'
    } else if digit == 9 {
        '9'
    } else if digit == 10 {
        'a'
    } else if digit == 11 {
        'b'
    } else if digit == 12 {
        'c'
    } else if digit == 13 {
        'd'
    } else if digit == 14 {
        'e'
    } else {
        'f'
    }
}

/// The hexadecimal digit of `value` at `place`, the most significant of
/// its thirty-two digits being at place 0.
pub open spec fn hex_digit_at(value: u128, place: int) -> u128 {
    (value >> ((4 * (31 - place)) as u128)) & 0xf
}

/// How many hyphens stand before position `i` of the hyphenated form.
pub open spec fn hyphens_before(i: int) -> int {
    if i > 23 {
        4
    } else if i > 18 {
        3
    } else if i > 13 {
        2
    } else if i > 8 {
        1
    } else {
        0
    }
}

/// The hyphenated form of an identifier: its thirty-two hexadecimal digits
/// in lower case, the most significant first, in groups of 8, 4, 4, 4 and
/// 12 with a hyphen between the groups.
pub open spec fn uuid_text(value: u128) -> Seq<char> {
    Seq::new(
        36,
        |i: int|
            if i == 8 || i == 13 || i == 18 || i == 23 {
                '-'
            } else {
                hex_char(hex_digit_at(value, i - hyphens_before(i)))
            },
    )
}

/// The bits that mark a value as a random (version 4) identifier.
pub open spec fn is_random_uuid(value: u128) -> bool {
    value & 0x0000_0000_0000_f000_c000_0000_0000_0000u128
        == 0x0000_0000_0000_4000_8000_0000_0000_0000u128
}

/// `uuid::Uuid::new_v4`, as a 128-bit value. The value is random; what holds
/// of every outcome is that the version and variant bits are those of a
/// version 4 identifier.
#[verifier::external_body]
fn random_uuid() -> (value: u128)
    ensures
        is_random_uuid(value),
{
    uuid::Uuid::new_v4().as_u128()
}

/// `uuid::Uuid::parse_str`, with the identifier as a 128-bit value. The
/// outcome depends on the text alone.
#[verifier::external_body]
fn parse_uuid(written: &str) -> (parsed: Result<u128, uuid::Error>)
    ensures
        match parsed {
            Ok(value) => parsed_uuid(written@) == Some(value),
            Err(_) => parsed_uuid(written@) is None,
        },
{
    uuid::Uuid::parse_str(written).map(|id| id.as_u128())
}

/// The `Display` of `uuid::Uuid` for a 128-bit value: the hyphenated form
/// in lower case, which the crate's parser reads back as the same value.
#[verifier::external_body]
fn format_uuid(value: u128) -> (hyphenated: String)
    ensures
        hyphenated@ == uuid_text(value),
        parsed_uuid(hyphenated@) == Some(value),
{
    format!("{}", uuid::Uuid::from_u128(value))
}

/// The identity of a connection within a patchbay.
#[derive(Clone, Copy, Debug, PartialEq, Eq, Hash, Structural)]
pub struct ConnectionId(pub u128);

impl ConnectionId {
    /// A fresh random identity.
    pub fn generate() -> (id: ConnectionId)
        ensures
            is_random_uuid(id.0),
    {
        ConnectionId(random_uuid())
    }

    /// The identity that a parser's outcome stands for.
    pub fn from_parsed(parsed: Result<u128, uuid::Error>) -> (r: Result<ConnectionId, PatchbayError>)
        ensures
            match parsed {
                Ok(value) => r == Ok::<ConnectionId, PatchbayError>(ConnectionId(value)),
                Err(_) => r == Err::<ConnectionId, PatchbayError>(PatchbayError::InvalidIdentity),
            },
    {
        match parsed {
            Ok(value) => Ok(ConnectionId(value)),
            Err(_) => Err(PatchbayError::InvalidIdentity),
        }
    }

    /// Reads an identity from its text.
    pub fn from_text(text: &str) -> (r: Result<ConnectionId, PatchbayError>)
        ensures
            match parsed_uuid(text@) {
                Some(value) => r == Ok::<ConnectionId, PatchbayError>(ConnectionId(value)),
                None => r == Err::<ConnectionId, PatchbayError>(PatchbayError::InvalidIdentity),
            },
    {
        ConnectionId::from_parsed(parse_uuid(text))
    }

    /// The text of the identity, which `from_text` reads back.
    pub fn text(&self) -> (text: String)
        ensures
            text@ == uuid_text(self.0),
            parsed_uuid(text@) == Some(self.0),
    {
        format_uuid(self.0)
    }
}

/// What a request to disconnect names: every connection, or one.
#[derive(Clone, Copy, Debug, PartialEq, Eq, Structural)]
pub enum Removal {
    All,
    One(ConnectionId),
}

impl Removal {
    /// Reads what is to be disconnected: `*` stands for every connection,
    /// any other text has to be an identity.
    pub fn from_text(text: &str) -> (r: Result<Removal, PatchbayError>)
        ensures
            text@ == "*"@ ==> r == Ok::<Removal, PatchbayError>(Removal::All),
            text@ != "*"@ ==> match parsed_uuid(text@) {
                Some(value) => r == Ok::<Removal, PatchbayError>(
                    Removal::One(ConnectionId(value)),
                ),
                None => r == Err::<Removal, PatchbayError>(PatchbayError::InvalidIdentity),
            },
    {
        if same_text(text, "*") {
            Ok(Removal::All)
        } else {
            match ConnectionId::from_text(text) {
                Ok(id) => Ok(Removal::One(id)),
                Err(e) => Err(e),
            }
        }
    }
}

} // verus!
