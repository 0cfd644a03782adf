//! Identifier character rules and case conversion.
//!
//! Identifier text is restricted to ASCII letters, digits and underscore.
//! Validation is a pure function of the characters; it never allocates.
//! [`pascal_case_to_snake_case`] derives the canonical component name from a
//! Pascal-case type name.

use vstd::prelude::*;

verus! {

/// The error returned when identifier text contains a disallowed character.
#[derive(Debug, Clone, Copy, PartialEq, Eq)]
pub struct InvalidIdentifier;

impl InvalidIdentifier {
    /// Describes the error in words.
    pub fn message(&self) -> (r: String)
        ensures
            r@ == "invalid character found in identifier"@,
    {
        String::from_str("invalid character found in identifier")
    }
}

/// A character allowed in identifier text: `a-z`, `A-Z`, `0-9` or `_`.
pub open spec fn is_ident_char(c: char) -> bool {
    ||| 'a' <= c <= 'z'
    ||| 'A' <= c <= 'Z'
    ||| '0' <= c <= '9'
    ||| c == '_'
}

/// Identifier text is valid when every character is allowed.
pub open spec fn is_valid_ident(s: Seq<char>) -> bool {
    forall|i: int| 0 <= i < s.len() ==> is_ident_char(#[trigger] s[i])
}

/// Validates `name`, returning an error exactly when some character is
/// outside `a-z`, `A-Z`, `0-9`, `_`.
pub fn validate_identifier(name: &str) -> (r: Result<(), InvalidIdentifier>)
    ensures
        r is Ok <==> is_valid_ident(name@),
{
    let len = name.unicode_len();
    let mut i: usize = 0;
    while i < len
        invariant
            0 <= i <= len,
            len == name@.len(),
            forall|j: int| 0 <= j < i ==> is_ident_char(#[trigger] name@[j]),
        decreases len - i,
    {
        let c = name.get_char(i);
        let ok = ('a' <= c && c <= 'z') || ('A' <= c && c <= 'Z') || ('0' <= c && c <= '9') || c
            == '_';
        if !ok {
            return Err(InvalidIdentifier);
        }
        i = i + 1;
    }
    Ok(())
}

/// An ASCII uppercase letter.
pub open spec fn is_upper(c: char) -> bool {
    'A' <= c <= 'Z'
}

/// The lowercase form of an ASCII uppercase letter; other characters are
/// unchanged.
pub open spec fn lower_char(c: char) -> char {
    if is_upper(c) {
        (c as u8 + 32) as char
    } else {
        c
    }
}

/// What position `i` of `s` contributes to the snake-case form: an uppercase
/// letter is lowercased and, when it ends a run of uppercase letters that
/// follows another uppercase letter, an underscore is placed before it; a
/// lowercase position followed by an uppercase letter gets an underscore
/// after it.
pub open spec fn snake_emit(s: Seq<char>, i: int) -> Seq<char>
    recommends
        0 <= i < s.len(),
{
    if is_upper(s[i]) {
        if 0 < i && is_upper(s[i - 1]) && !(i + 1 < s.len() && is_upper(s[i + 1])) {
            seq!['_', lower_char(s[i])]
        } else {
            seq![lower_char(s[i])]
        }
    } else {
        if i + 1 < s.len() && is_upper(s[i + 1]) {
            seq![s[i], '_']
        } else {
            seq![s[i]]
        }
    }
}

/// The snake-case form of the first `i` positions of `s`.
pub open spec fn snake_prefix(s: Seq<char>, i: int) -> Seq<char>
    decreases i,
{
    if i <= 0 {
        Seq::empty()
    } else {
        snake_prefix(s, i - 1) + snake_emit(s, i - 1)
    }
}

/// The snake-case form of `s`: each position contributes what
/// [`snake_emit`] assigns to it.
pub open spec fn snake_case(s: Seq<char>) -> Seq<char> {
    snake_prefix(s, s.len() as int)
}

/// Relies on `String::push`: appends the given character to the end of the
/// string.
#[verifier::external_body]
fn push_char(s: &mut String, c: char)
    ensures
        final(s)@ == old(s)@.push(c),
{
    s.push(c)
}

/// Converts a Pascal-case type name such as `FontSize` to its snake-case
/// component name `font_size`.
///
/// # Errors
///
/// Returns [`InvalidIdentifier`] exactly when `name` contains a character
/// outside `a-z`, `A-Z`, `0-9`, `_`.
pub fn pascal_case_to_snake_case(name: String) -> (r: Result<String, InvalidIdentifier>)
    ensures
        r is Ok <==> is_valid_ident(name@),
        r is Ok ==> r->Ok_0@ == snake_case(name@),
{
    let text = name.as_str();
    let len = text.unicode_len();
    let mut out = String::new();
    let mut i: usize = 0;
    while i < len
        invariant
            0 <= i <= len,
            len == text@.len(),
            text@ == name@,
            forall|j: int| 0 <= j < i ==> is_ident_char(#[trigger] text@[j]),
            out@ == snake_prefix(text@, i as int),
        decreases len - i,
    {
        let c = text.get_char(i);
        let ok = ('a' <= c && c <= 'z') || ('A' <= c && c <= 'Z') || ('0' <= c && c <= '9') || c
            == '_';
        if !ok {
            return Err(InvalidIdentifier);
        }
        let next_upper = i + 1 < len && {
            let n = text.get_char(i + 1);
            'A' <= n && n <= 'Z'
        };
        if 'A' <= c && c <= 'Z' {
            let prev_upper = i > 0 && {
                let p = text.get_char(i - 1);
                'A' <= p && p <= 'Z'
            };
            if prev_upper && !next_upper {
                push_char(&mut out, '_');
            }
            push_char(&mut out, (c as u8 + 32) as char);
        } else {
            push_char(&mut out, c);
            if next_upper {
                push_char(&mut out, '_');
            }
        }
        proof {
            assert(out@ =~= snake_prefix(text@, i + 1));
        }
        i = i + 1;
    }
    Ok(out)
}

} // verus!
