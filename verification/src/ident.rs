use crate::text::{holds, one_line};
use vstd::arithmetic::power::pow;
use vstd::prelude::*;
use vstd::string::*;

verus! {

/// The error of the `uuid` crate, which says why a text is no identifier.
#[verifier::external_type_specification]
#[verifier::external_body]
pub struct ExUuidError(uuid::Error);

/// What `uuid::Uuid::parse_str` makes of a text: the 128 bits of the
/// identifier it reads, big end first, or nothing where it reports an error.
pub uninterp spec fn parsed_uuid(text: Seq<char>) -> Option<u128>;

/// The lower-case hexadecimal digit for a value below 16.
pub open spec fn hex_digit(d: int) -> char {
    if d == 0 {
        '0'
    } else if d == 1 {
        '1'
    } else if d == 2 {
        '2'
    } else if d == 3 {
        '3'
    } else if d == 4 {
        '4'
    } else if d == 5 {
        '5'
    } else if d == 6 {
        '6'
    } else if d == 7 {
        '7'
    } else if d == 8 {
        '8'
    } else if d == 9 {
        '9'
    } else if d == 10 {
        'a'
    } else if d == 11 {
        'b'
    } else if d == 12 {
        'c'
    } else if d == 13 {
        'd'
    } else if d == 14 {
        'e'
    } else {
        'f'
    }
}

/// The `k`-th group of four bits of `v`, counted from the most significant.
pub open spec fn nibble(v: u128, k: int) -> int {
    (v as int / pow(16, (31 - k) as nat)) % 16
}

/// Whether a hyphen stands at position `i` of the canonical text.
pub open spec fn hyphen_at(i: int) -> bool {
    i == 8 || i == 13 || i == 18 || i == 23
}

/// How many hyphens stand before position `i` of the canonical text.
pub open spec fn hyphens_before(i: int) -> int {
    if i < 8 {
        0
    } else if i < 13 {
        1
    } else if i < 18 {
        2
    } else if i < 23 {
        3
    } else {
        4
    }
}

/// The canonical text of an identifier: its 32 hexadecimal digits in lower
/// case, most significant first, in groups of 8, 4, 4, 4 and 12 digits
/// with a hyphen between two groups.
pub open spec fn hyphenated(id: Identifier) -> Seq<char> {
    Seq::new(
        36,
        |i: int|
            if hyphen_at(i) {
                '-'
            } else {
                hex_digit(nibble(id.value, i - hyphens_before(i)))
            },
    )
}

/// The first eight characters of the canonical text, by which a note is
/// found from a short identifier.
pub open spec fn short_text(id: Identifier) -> Seq<char> {
    hyphenated(id).take(8)
}

/// A character of the canonical text: a lower-case hexadecimal digit or a hyphen.
pub open spec fn canonical_char(c: char) -> bool {
    c == '-' || ('0' <= c && c <= '9') || ('a' <= c && c <= 'f')
}

/// The canonical text has 36 characters, each a lower-case hexadecimal
/// digit or a hyphen, so it is a single line of a record.
pub proof fn lemma_hyphenated_shape(id: Identifier)
    ensures
        hyphenated(id).len() == 36,
        forall|i: int| 0 <= i < 36 ==> canonical_char(#[trigger] hyphenated(id)[i]),
        one_line(hyphenated(id)),
{
    let t = hyphenated(id);
    let v = id.value;
    assert forall|i: int| 0 <= i < 36 implies canonical_char(#[trigger] t[i]) by {
        if !hyphen_at(i) {
            let d = nibble(v, i - hyphens_before(i));
            assert(0 <= d < 16);
        }
    }
    assert(!holds(t, '\n')) by {
        if holds(t, '\n') {
            let i = choose|i: int| 0 <= i < t.len() && t[i] == '\n';
            assert(canonical_char(t[i]));
        }
    }
    assert(canonical_char(t[35]));
    assert(t.last() == t[35]);
}

/// Calls `uuid::Uuid::parse_str` and hands back the bits of the identifier
/// it read, or its error. Trusted: the result is the one named by
/// [`parsed_uuid`], and an identifier that was read is read again, as itself,
/// from its canonical text.
#[verifier::external_body]
fn uuid_parse(text: &str) -> (r: Result<u128, uuid::Error>)
    ensures
        r is Ok <==> parsed_uuid(text@) is Some,
        r matches Ok(v) ==> parsed_uuid(text@) == Some(v) && reads_back(Identifier { value: v }),
{
    match uuid::Uuid::parse_str(text) {
        Ok(u) => Ok(u.as_u128()),
        Err(e) => Err(e),
    }
}

/// Formats an identifier with `uuid::Uuid`'s `Display`. Trusted: the result
/// is the canonical text, lower case and hyphenated, and
/// `uuid::Uuid::parse_str` reads it back as the same identifier.
#[verifier::external_body]
fn uuid_text(v: u128) -> (r: String)
    ensures
        r@ == hyphenated(Identifier { value: v }),
        parsed_uuid(r@) == Some(v),
{
    uuid::Uuid::from_u128(v).to_string()
}

/// Calls `uuid::Uuid::new_v4` for a random identifier. Trusted: whatever
/// comes back is read again, as itself, from its canonical text. The call
/// panics where the system has no randomness to give.
#[verifier::external_body]
fn uuid_random() -> (v: u128)
    ensures
        reads_back(Identifier { value: v }),
{
    uuid::Uuid::new_v4().as_u128()
}

/// The identifier of a note: 128 bits, written as 32 hexadecimal digits.
#[derive(Debug, Clone, Copy, PartialEq, Eq, Hash, Structural)]
pub struct Identifier {
    pub value: u128,
}

impl View for Identifier {
    type V = Identifier;

    open spec fn view(&self) -> Identifier {
        *self
    }
}

/// Whether the canonical text of an identifier is read back as that
/// identifier. It holds of every identifier: whoever has the text of one
/// knows it of that one.
pub open spec fn reads_back(id: Identifier) -> bool {
    parsed_uuid(hyphenated(id)) == Some(id.value)
}

/// What reading `text` as an identifier gives.
pub open spec fn identifier_of(text: Seq<char>) -> Option<Identifier> {
    match parsed_uuid(text) {
        Some(v) => Some(Identifier { value: v }),
        None => None,
    }
}

impl Identifier {
    /// Reads an identifier from a text, in any of the forms that the
    /// `uuid` crate reads.
    pub fn parse_str(text: &str) -> (r: Option<Identifier>)
        ensures
            r == identifier_of(text@),
            r matches Some(id) ==> reads_back(id@),
    {
        match uuid_parse(text) {
            Ok(v) => Some(Identifier { value: v }),
            Err(_) => None,
        }
    }

    /// The canonical text of this identifier, which is read back as
    /// this identifier.
    pub fn text(&self) -> (r: String)
        ensures
            r@ == hyphenated(self@),
            identifier_of(r@) == Some(*self),
            reads_back(*self),
    {
        uuid_text(self.value)
    }

    /// The short form of this identifier: the first eight characters of
    /// its canonical text.
    pub fn short(&self) -> (r: String)
        ensures
            r@ == short_text(self@),
    {
        let full = uuid_text(self.value);
        String::from_str(full.as_str().substring_char(0, 8))
    }

    /// A fresh random identifier.
    pub fn mint() -> (id: Identifier)
        ensures
            reads_back(id@),
    {
        Identifier { value: uuid_random() }
    }
}

} // verus!
