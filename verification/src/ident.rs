//! Game identifiers and the clock.

use vstd::prelude::*;

verus! {

/// The identifier of a game: a 128-bit value, written as a UUID.
#[derive(Debug, Clone, Copy, PartialEq, Eq, Hash, Structural)]
pub struct GameId {
    pub value: u128,
}

/// The value that `uuid::Uuid::parse_str` reads from a text, if it accepts
/// the text.
pub uninterp spec fn uuid_parsed(s: Seq<char>) -> Option<u128>;

/// The text that `uuid::Uuid` displays for a value.
pub uninterp spec fn uuid_text(v: u128) -> Seq<char>;

/// Whether a value has the fixed fields of a random UUID: the version
/// field (the four bits from bit 76 up) holds 4, and the variant field (the
/// two bits from bit 62 up) holds the binary digits 10. The other 122 bits
/// are free.
pub open spec fn random_form(v: u128) -> bool {
    v & 0x0000_0000_0000_f000_c000_0000_0000_0000u128
        == 0x0000_0000_0000_4000_8000_0000_0000_0000u128
}

/// Calls `uuid::Uuid::new_v4`, which draws 128 random bits and then sets
/// the version field to 4 and the variant field to that of RFC 4122. The
/// value is random: only those two fields are claimed of it.
#[verifier::external_body]
fn fresh_uuid() -> (v: u128)
    ensures
        random_form(v),
{
    uuid::Uuid::new_v4().as_u128()
}

/// Calls `uuid::Uuid::parse_str`: gives the value of the identifier that
/// the text holds, or `None` where the parser rejects the text.
#[verifier::external_body]
fn parse_uuid(s: &str) -> (r: Option<u128>)
    ensures
        r == uuid_parsed(s@),
{
    match uuid::Uuid::parse_str(s) {
        Ok(id) => Some(id.as_u128()),
        Err(_) => None,
    }
}

/// Calls `to_string` of `uuid::Uuid`, which writes the hyphenated form in
/// lower case; the parser reads that form back to the same value.
#[verifier::external_body]
fn format_uuid(v: u128) -> (r: String)
    ensures
        r@ == uuid_text(v),
        uuid_parsed(r@) == Some(v),
{
    uuid::Uuid::from_u128(v).to_string()
}

/// Calls `std::time::SystemTime::now` and returns the seconds since the
/// Unix epoch, or 0 if the clock stands before it. Nothing is claimed of
/// the value.
#[verifier::external_body]
pub fn unix_timestamp() -> (t: u64) {
    std::time::SystemTime::now().duration_since(std::time::UNIX_EPOCH).unwrap_or_default().as_secs()
}

impl GameId {
    /// The identifier that a text stands for, if it is a UUID.
    pub open spec fn parsed(s: Seq<char>) -> Option<GameId> {
        match uuid_parsed(s) {
            Some(v) => Some(GameId { value: v }),
            None => None,
        }
    }

    /// The identifier as text.
    pub open spec fn text(self) -> Seq<char> {
        uuid_text(self.value)
    }

    /// Whether the identifier has the form of a random (version 4) UUID.
    pub open spec fn is_random(self) -> bool {
        random_form(self.value)
    }

    /// Creates a fresh identifier: a random (version 4) UUID. Which one is
    /// left to chance; its version and variant fields are fixed.
    pub fn random() -> (id: GameId)
        ensures
            id.is_random(),
    {
        GameId { value: fresh_uuid() }
    }

    /// Reads an identifier from its text; `None` if the text is no UUID.
    pub fn parse(s: &str) -> (r: Option<GameId>)
        ensures
            r == GameId::parsed(s@),
    {
        match parse_uuid(s) {
            Some(v) => Some(GameId { value: v }),
            None => None,
        }
    }

    /// Writes the identifier as a hyphenated UUID in lower case. Reading
    /// that text gives the identifier back.
    pub fn to_string(&self) -> (r: String)
        ensures
            r@ == self.text(),
            GameId::parsed(r@) == Some(*self),
    {
        format_uuid(self.value)
    }
}

} // verus!
