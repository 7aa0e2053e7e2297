use crate::ident::hyphen_at;
use crate::text::{chars_of, first_index, lemma_first_index_is};
use vstd::prelude::*;
use vstd::string::*;

verus! {

/// What `regex_syntax::try_is_word_character` says of a character:
/// whether it is a word character of Unicode, the class that a regular
/// expression writes `\w`; or nothing, where that crate was built without
/// its Unicode tables.
pub uninterp spec fn unicode_word(c: char) -> Option<bool>;

/// Calls `regex_syntax::try_is_word_character`. Trusted: the result is the
/// one named by [`unicode_word`].
#[verifier::external_body]
fn unicode_word_character(c: char) -> (r: Option<bool>)
    ensures
        r == unicode_word(c),
{
    regex_syntax::try_is_word_character(c).ok()
}

/// A word character of ASCII: a letter, a digit or the underscore.
pub open spec fn ascii_word(c: char) -> bool {
    ('0' <= c && c <= '9') || ('a' <= c && c <= 'z') || ('A' <= c && c <= 'Z') || c == '_'
}

/// A character that a topic's or a path's name may hold in a location:
/// a word character, of ASCII or of the rest of Unicode.
pub open spec fn word_char(c: char) -> bool {
    if c <= '\u{7f}' {
        ascii_word(c)
    } else {
        unicode_word(c) == Some(true)
    }
}

/// A hexadecimal digit, in either case.
pub open spec fn hex_char(c: char) -> bool {
    ('0' <= c && c <= '9') || ('a' <= c && c <= 'f') || ('A' <= c && c <= 'F')
}

/// A decimal digit.
pub open spec fn digit_char(c: char) -> bool {
    '0' <= c && c <= '9'
}

/// A name as a location writes it: one word character or more.
pub open spec fn is_word(s: Seq<char>) -> bool {
    s.len() > 0 && forall|i: int| 0 <= i < s.len() ==> word_char(#[trigger] s[i])
}

/// One decimal digit or more.
pub open spec fn is_number(s: Seq<char>) -> bool {
    s.len() > 0 && forall|i: int| 0 <= i < s.len() ==> digit_char(#[trigger] s[i])
}

/// The number that decimal digits write.
pub open spec fn decimal_value(digits: Seq<char>) -> nat
    decreases digits.len(),
{
    if digits.len() == 0 {
        0
    } else {
        (decimal_value(digits.drop_last()) * 10 + (digits.last() as int - '0' as int)) as nat
    }
}

/// The absolute form: eight hexadecimal digits, alone or followed by the
/// rest of an identifier's hyphenated text.
pub open spec fn is_absolute(s: Seq<char>) -> bool {
    ||| s.len() == 8 && forall|i: int| 0 <= i < 8 ==> hex_char(#[trigger] s[i])
    ||| s.len() == 36 && forall|i: int|
        0 <= i < 36 ==> if hyphen_at(i) {
            #[trigger] s[i] == '-'
        } else {
            hex_char(s[i])
        }
}

/// The history-walk modifier that ends a relative location: nothing, for
/// no step, or a colon, a hyphen and the number of steps, which fits in 64 bits.
pub open spec fn steps_of(suffix: Seq<char>) -> Option<u64> {
    if suffix.len() == 0 {
        Some(0)
    } else if suffix.len() >= 3 && suffix[0] == ':' && suffix[1] == '-' && is_number(suffix.skip(2))
        && decimal_value(suffix.skip(2)) <= u64::MAX {
        Some(decimal_value(suffix.skip(2)) as u64)
    } else {
        None
    }
}

/// The mathematical value of a [`Location`].
pub enum LocationView {
    Relative { topic: Option<Seq<char>>, path: Seq<char>, steps: u64 },
    Absolute { short: Seq<char> },
}

/// The relative form: a topic and a slash, or neither; a path's name, or
/// `HEAD`; a history-walk modifier, or none.
pub open spec fn relative_of(s: Seq<char>) -> Option<LocationView> {
    let slash = first_index(s, '/');
    let topic = if slash < s.len() {
        Some(s.take(slash))
    } else {
        None
    };
    let rest = if slash < s.len() {
        s.skip(slash + 1)
    } else {
        s
    };
    let colon = first_index(rest, ':');
    let path = rest.take(colon);
    let steps = steps_of(rest.skip(colon));
    if (topic matches Some(t) ==> is_word(t)) && is_word(path) && steps is Some {
        Some(LocationView::Relative { topic, path, steps: steps->0 })
    } else {
        None
    }
}

/// What an expression is read as: a location in absolute form, else one in
/// relative form, else nothing. Eight hexadecimal digits alone are a short
/// identifier, never a path's name.
pub open spec fn location_of(s: Seq<char>) -> Option<LocationView> {
    if is_absolute(s) {
        Some(LocationView::Absolute { short: s.take(8) })
    } else {
        relative_of(s)
    }
}

/// Where a note is looked for.
#[derive(Debug, Clone, PartialEq)]
pub enum Location {
    /// A path of a topic, and how many notes to step back from its head.
    /// Without a topic the current one is meant; the path `HEAD` is the
    /// topic's current path.
    Relative { topic: Option<String>, path: String, steps: u64 },
    /// The first eight characters of an identifier's text.
    Absolute { short: String },
}

impl View for Location {
    type V = LocationView;

    open spec fn view(&self) -> LocationView {
        match self {
            Location::Relative { topic, path, steps } => LocationView::Relative {
                topic: match topic {
                    Some(t) => Some(t@),
                    None => None,
                },
                path: path@,
                steps: *steps,
            },
            Location::Absolute { short } => LocationView::Absolute { short: short@ },
        }
    }
}

/// The value of a location that may be absent.
pub open spec fn location_view(l: Option<Location>) -> Option<LocationView> {
    match l {
        Some(x) => Some(x@),
        None => None,
    }
}

/// Whether `c` is a word character.
pub fn is_word_char(c: char) -> (r: bool)
    ensures
        r == word_char(c),
{
    if c <= '\u{7f}' {
        ('0' <= c && c <= '9') || ('a' <= c && c <= 'z') || ('A' <= c && c <= 'Z') || c == '_'
    } else {
        match unicode_word_character(c) {
            Some(word) => word,
            None => false,
        }
    }
}

/// Whether `c` is a hexadecimal digit.
pub fn is_hex_char(c: char) -> (r: bool)
    ensures
        r == hex_char(c),
{
    ('0' <= c && c <= '9') || ('a' <= c && c <= 'f') || ('A' <= c && c <= 'F')
}

/// Whether the characters from `from` to `to` are a name.
fn word_between(chars: &Vec<char>, from: usize, to: usize) -> (r: bool)
    requires
        from <= to <= chars.len(),
    ensures
        r == is_word(chars@.subrange(from as int, to as int)),
{
    if from == to {
        return false;
    }
    let ghost part = chars@.subrange(from as int, to as int);
    let mut i: usize = from;
    while i < to
        invariant
            from <= i <= to <= chars.len(),
            part == chars@.subrange(from as int, to as int),
            forall|j: int| 0 <= j < i - from ==> word_char(#[trigger] part[j]),
        decreases to - i,
    {
        if !is_word_char(chars[i]) {
            assert(!word_char(part[i - from]));
            return false;
        }
        i += 1;
    }
    true
}

/// The index from `from` on at which `c` first stands, or the length.
fn find_from(chars: &Vec<char>, from: usize, c: char) -> (at: usize)
    requires
        from <= chars.len(),
    ensures
        from <= at <= chars.len(),
        at - from == first_index(chars@.skip(from as int), c),
{
    let mut i: usize = from;
    while i < chars.len() && chars[i] != c
        invariant
            from <= i <= chars.len(),
            forall|j: int| from <= j < i ==> chars@[j] != c,
        decreases chars.len() - i,
    {
        i += 1;
    }
    proof {
        lemma_first_index_is(chars@.skip(from as int), c, i - from);
    }
    i
}

proof fn lemma_decimal_value_grows(digits: Seq<char>, k: int)
    requires
        0 <= k <= digits.len(),
        is_number(digits),
    ensures
        decimal_value(digits.take(k)) <= decimal_value(digits),
    decreases digits.len() - k,
{
    if k < digits.len() {
        let next = digits.take(k + 1);
        assert(next.drop_last() =~= digits.take(k));
        assert(digit_char(digits[k]));
        assert(next.last() == digits[k]);
        lemma_decimal_value_grows(digits, k + 1);
    } else {
        assert(digits.take(k) =~= digits);
    }
}

/// The number that the characters from `from` on write in decimal digits,
/// where they are digits, one at least, and the number fits in 64 bits.
fn number_from(chars: &Vec<char>, from: usize) -> (r: Option<u64>)
    requires
        from <= chars.len(),
    ensures
        r == if is_number(chars@.skip(from as int)) && decimal_value(chars@.skip(from as int))
            <= u64::MAX {
            Some(decimal_value(chars@.skip(from as int)) as u64)
        } else {
            None
        },
{
    if from == chars.len() {
        return None;
    }
    let ghost digits = chars@.skip(from as int);
    let mut value: u64 = 0;
    let mut i: usize = from;
    proof {
        assert(digits.take(0) =~= Seq::<char>::empty());
    }
    while i < chars.len()
        invariant
            from <= i <= chars.len(),
            from < chars.len(),
            digits == chars@.skip(from as int),
            forall|j: int| 0 <= j < i - from ==> digit_char(#[trigger] digits[j]),
            value == decimal_value(digits.take(i - from)),
        decreases chars.len() - i,
    {
        let c = chars[i];
        if !('0' <= c && c <= '9') {
            assert(!digit_char(digits[i - from]));
            return None;
        }
        let d: u64 = (c as u32 - '0' as u32) as u64;
        proof {
            let next = digits.take(i - from + 1);
            assert(next.drop_last() =~= digits.take(i - from));
            assert(next.last() == c);
            assert(decimal_value(next) == value * 10 + d);
        }
        if value > (u64::MAX - d) / 10 {
            proof {
                if is_number(digits) {
                    lemma_decimal_value_grows(digits, i - from + 1);
                }
            }
            return None;
        }
        value = value * 10 + d;
        i += 1;
    }
    proof {
        assert(digits.take(i - from) =~= digits);
    }
    Some(value)
}

/// The history-walk modifier that the characters from `from` on write.
fn steps_from(chars: &Vec<char>, from: usize) -> (r: Option<u64>)
    requires
        from <= chars.len(),
    ensures
        r == steps_of(chars@.skip(from as int)),
{
    let n = chars.len();
    if from == n {
        return Some(0);
    }
    if n - from < 3 || chars[from] != ':' || chars[from + 1] != '-' {
        return None;
    }
    proof {
        assert(chars@.skip(from as int).skip(2) =~= chars@.skip(from + 2));
    }
    number_from(chars, from + 2)
}

/// Whether the characters are a location in absolute form.
fn absolute_form(chars: &Vec<char>) -> (r: bool)
    ensures
        r == is_absolute(chars@),
{
    let n = chars.len();
    if n != 8 && n != 36 {
        return false;
    }
    let mut i: usize = 0;
    while i < n
        invariant
            i <= n,
            n == chars.len(),
            n == 8 || n == 36,
            forall|j: int|
                0 <= j < i ==> if hyphen_at(j) {
                    #[trigger] chars@[j] == '-'
                } else {
                    hex_char(chars@[j])
                },
        decreases n - i,
    {
        let c = chars[i];
        if i == 8 || i == 13 || i == 18 || i == 23 {
            if c != '-' {
                assert(hyphen_at(i as int) && chars@[i as int] != '-');
                return false;
            }
        } else if !is_hex_char(c) {
            assert(!hyphen_at(i as int) && !hex_char(chars@[i as int]));
            return false;
        }
        i += 1;
    }
    true
}

impl Location {
    /// Reads a location from an expression, or nothing where the
    /// expression is no location.
    pub fn parse(expression: &str) -> (r: Option<Location>)
        ensures
            location_view(r) == location_of(expression@),
    {
        let chars = chars_of(expression);
        let n = chars.len();
        if absolute_form(&chars) {
            let short = String::from_str(expression.substring_char(0, 8));
            proof {
                assert(expression@.take(8) =~= expression@.subrange(0, 8));
            }
            return Some(Location::Absolute { short });
        }
        let slash = find_from(&chars, 0, '/');
        proof {
            assert(chars@.skip(0) =~= chars@);
        }
        let start = if slash < n {
            slash + 1
        } else {
            0
        };
        let ghost rest = if slash < n {
            chars@.skip(slash + 1)
        } else {
            chars@
        };
        assert(rest =~= chars@.skip(start as int));
        let colon = find_from(&chars, start, ':');
        proof {
            assert(rest.take(colon - start) =~= chars@.subrange(start as int, colon as int));
            assert(rest.skip(colon - start) =~= chars@.skip(colon as int));
            assert(chars@.take(slash as int) =~= chars@.subrange(0, slash as int));
        }
        if slash < n && !word_between(&chars, 0, slash) {
            return None;
        }
        if !word_between(&chars, start, colon) {
            return None;
        }
        let steps = match steps_from(&chars, colon) {
            Some(s) => s,
            None => {
                return None;
            },
        };
        let topic = if slash < n {
            let t = String::from_str(expression.substring_char(0, slash));
            assert(t@ =~= expression@.take(slash as int));
            Some(t)
        } else {
            None
        };
        let path = String::from_str(expression.substring_char(start, colon));
        Some(Location::Relative { topic, path, steps })
    }
}

} // verus!
