//! Identifier casing: ASCII lower/upper conversion and the case styles
//! applied to scope, field and constant names.

use vstd::prelude::*;

verus! {

/// The ASCII lower-case image of one character.
pub open spec fn to_lower_char(c: char) -> char {
    if 0x41 <= c as u32 && c as u32 <= 0x5A {
        ((c as u32 + 0x20) as u8) as char
    } else {
        c
    }
}

/// The ASCII upper-case image of one character.
pub open spec fn to_upper_char(c: char) -> char {
    if 0x61 <= c as u32 && c as u32 <= 0x7A {
        ((c as u32 - 0x20) as u8) as char
    } else {
        c
    }
}

/// The ASCII lower-case image of a string.
pub open spec fn spec_lower(s: Seq<char>) -> Seq<char> {
    s.map_values(|c: char| to_lower_char(c))
}

/// The ASCII upper-case image of a string.
pub open spec fn spec_upper(s: Seq<char>) -> Seq<char> {
    s.map_values(|c: char| to_upper_char(c))
}

/// PascalCase of a snake_case name, processing the first `n` characters:
/// underscores are dropped and the character that follows a run of them (or
/// starts the name) is upper-cased.  The flag says whether the next character
/// is to be capitalized.
pub open spec fn pascal_rec(s: Seq<char>, n: int) -> (Seq<char>, bool)
    decreases n,
{
    if n <= 0 {
        (Seq::<char>::empty(), true)
    } else {
        let prev = pascal_rec(s, n - 1);
        let c = s[n - 1];
        if c == '_' {
            (prev.0, true)
        } else if prev.1 {
            (prev.0.push(to_upper_char(c)), false)
        } else {
            (prev.0.push(c), false)
        }
    }
}

/// PascalCase of a whole name.
pub open spec fn spec_pascal(s: Seq<char>) -> Seq<char> {
    pascal_rec(s, s.len() as int).0
}

/// Relies on `String::push`: appends a single character at the end.
#[verifier::external_body]
pub(crate) fn push_char(s: &mut String, c: char)
    ensures
        final(s)@ == old(s)@.push(c),
{
    s.push(c);
}

fn lower_char(c: char) -> (r: char)
    ensures
        r == to_lower_char(c),
{
    let u = c as u32;
    if 0x41u32 <= u && u <= 0x5Au32 {
        ((u + 0x20) as u8) as char
    } else {
        c
    }
}

/// ASCII lower-casing, character by character.
#[verifier::loop_isolation(false)]
pub fn ascii_lower(s: &String) -> (r: String)
    ensures
        r@ == spec_lower(s@),
{
    let n = s.as_str().unicode_len();
    let mut r = String::new();
    let mut i: usize = 0;
    while i < n
        invariant
            i <= n,
            n == s@.len(),
            r@ == spec_lower(s@.take(i as int)),
        decreases n - i,
    {
        let c = s.as_str().get_char(i);
        push_char(&mut r, lower_char(c));
        proof {
            assert(s@.take(i + 1) =~= s@.take(i as int).push(s@[i as int]));
            assert(spec_lower(s@.take(i + 1)) =~= spec_lower(s@.take(i as int)).push(
                to_lower_char(s@[i as int]),
            ));
        }
        i = i + 1;
    }
    proof {
        assert(s@.take(n as int) =~= s@);
    }
    r
}

/// Relies on `ident_case::RenameRule::PascalCase`, whose `apply_to_field`
/// drops underscores and upper-cases the character that follows each run of
/// them, as well as the first character.
#[verifier::external_body]
pub(crate) fn pascal_field(s: &String) -> (r: String)
    ensures
        r@ == spec_pascal(s@),
{
    ident_case::RenameRule::PascalCase.apply_to_field(s.as_str())
}

/// Relies on `ident_case::RenameRule::SnakeCase`, whose `apply_to_field`
/// returns a field name unchanged.
#[verifier::external_body]
pub(crate) fn snake_field(s: &String) -> (r: String)
    ensures
        r@ == s@,
{
    ident_case::RenameRule::SnakeCase.apply_to_field(s.as_str())
}

/// Relies on `ident_case::RenameRule::ScreamingSnakeCase`, whose
/// `apply_to_field` is ASCII upper-casing of the whole field name.
#[verifier::external_body]
pub(crate) fn screaming_field(s: &String) -> (r: String)
    ensures
        r@ == spec_upper(s@),
{
    ident_case::RenameRule::ScreamingSnakeCase.apply_to_field(s.as_str())
}

} // verus!
