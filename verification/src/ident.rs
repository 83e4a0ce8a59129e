//! The identifier normalizer: turns free-text captions into language-legal
//! identifiers, with an optional prefix and a guard against a leading digit.

use vstd::prelude::*;
use crate::casing::push_char;

verus! {

/// ASCII whitespace, the characters replaced by an underscore.
pub open spec fn is_space_char(c: char) -> bool {
    c == ' ' || c == '\t' || c == '\n' || c == '\u{c}' || c == '\r'
}

/// ASCII decimal digit.
pub open spec fn is_digit_char(c: char) -> bool {
    0x30 <= c as u32 && c as u32 <= 0x39
}

/// ASCII letter or digit, the characters passed through unchanged.
pub open spec fn is_alnum_char(c: char) -> bool {
    (0x30 <= c as u32 && c as u32 <= 0x39) || (0x41 <= c as u32 && c as u32 <= 0x5A) || (0x61 <= c
        as u32 && c as u32 <= 0x7A)
}

/// What one caption character contributes to the identifier: an underscore
/// for whitespace, itself if alphanumeric, nothing otherwise.
pub open spec fn ident_chunk(c: char) -> Seq<char> {
    if is_space_char(c) {
        seq!['_']
    } else if is_alnum_char(c) {
        seq![c]
    } else {
        Seq::<char>::empty()
    }
}

/// The identifier derived from the first `n` caption characters.
pub open spec fn filtered_ident(s: Seq<char>, n: int) -> Seq<char>
    decreases n,
{
    if n <= 0 {
        Seq::<char>::empty()
    } else {
        filtered_ident(s, n - 1) + ident_chunk(s[n - 1])
    }
}

/// The caption if it is non-empty, else the plain name.
pub open spec fn spec_or_name(caption: Seq<char>, name: Seq<char>) -> Seq<char> {
    if caption.len() == 0 {
        name
    } else {
        caption
    }
}

/// The view of an optional borrowed string.
pub open spec fn opt_str_view(o: Option<&String>) -> Option<Seq<char>> {
    match o {
        Option::Some(s) => Option::Some(s@),
        Option::None => Option::None,
    }
}

/// The full normalization: filter the caption, prepend the prefix and a
/// separating underscore if present, and guard a leading digit with an
/// underscore.
pub open spec fn spec_caption_to_ident(caption: Seq<char>, prefix: Option<Seq<char>>) -> Seq<char> {
    let base = match prefix {
        Option::Some(p) => p + seq!['_'] + filtered_ident(caption, caption.len() as int),
        Option::None => filtered_ident(caption, caption.len() as int),
    };
    if base.len() > 0 && is_digit_char(base[0]) {
        seq!['_'] + base
    } else {
        base
    }
}

fn is_space(c: char) -> (r: bool)
    ensures
        r == is_space_char(c),
{
    c == ' ' || c == '\t' || c == '\n' || c == '\u{c}' || c == '\r'
}

fn is_alnum(c: char) -> (r: bool)
    ensures
        r == is_alnum_char(c),
{
    let u = c as u32;
    (0x30u32 <= u && u <= 0x39u32) || (0x41u32 <= u && u <= 0x5Au32) || (0x61u32 <= u && u
        <= 0x7Au32)
}

fn is_digit(c: char) -> (r: bool)
    ensures
        r == is_digit_char(c),
{
    let u = c as u32;
    0x30u32 <= u && u <= 0x39u32
}

/// The caption of an entity when it has one, else its plain name.
pub fn or_name<'a>(caption: &'a String, name: &'a String) -> (r: &'a String)
    ensures
        r@ == spec_or_name(caption@, name@),
{
    if caption.as_str().unicode_len() == 0 {
        name
    } else {
        caption
    }
}

/// Derives an identifier from a free-text caption: whitespace becomes an
/// underscore, alphanumerics pass through, everything else is dropped; an
/// optional prefix is prepended with a separating underscore; a leading
/// digit is guarded by an underscore.
#[verifier::loop_isolation(false)]
pub fn caption_to_ident(caption: &String, group_name: Option<&String>) -> (r: String)
    requires
        group_name is None ==> caption@.len() > 0,
    ensures
        r@ == spec_caption_to_ident(caption@, opt_str_view(group_name)),
{
    let n = caption.as_str().unicode_len();
    let mut filtered = String::new();
    let mut i: usize = 0;
    while i < n
        invariant
            i <= n,
            n == caption@.len(),
            filtered@ == filtered_ident(caption@, i as int),
        decreases n - i,
    {
        let c = caption.as_str().get_char(i);
        if is_space(c) {
            push_char(&mut filtered, '_');
        } else if is_alnum(c) {
            push_char(&mut filtered, c);
        }
        proof {
            assert(filtered@ =~= filtered_ident(caption@, i as int) + ident_chunk(
                caption@[i as int],
            ));
        }
        i = i + 1;
    }
    let base = match group_name {
        Option::Some(g) => {
            let mut b = g.clone();
            push_char(&mut b, '_');
            b.append(filtered.as_str());
            proof {
                assert(b@ =~= g@ + seq!['_'] + filtered_ident(caption@, caption@.len() as int));
            }
            b
        },
        Option::None => filtered,
    };
    let starts_with_digit = if base.as_str().unicode_len() > 0 {
        is_digit(base.as_str().get_char(0))
    } else {
        false
    };
    if starts_with_digit {
        let mut r = String::new();
        push_char(&mut r, '_');
        r.append(base.as_str());
        proof {
            assert(r@ =~= seq!['_'] + base@);
        }
        r
    } else {
        base
    }
}

/// A character legal in an identifier: alphanumeric or underscore.
pub open spec fn is_ident_legal_char(c: char) -> bool {
    is_alnum_char(c) || c == '_'
}

/// Every character of the filtered caption is legal.
pub proof fn lemma_filtered_ident_legal(s: Seq<char>, n: int)
    ensures
        forall|k: int|
            0 <= k < filtered_ident(s, n).len() ==> is_ident_legal_char(
                #[trigger] filtered_ident(s, n)[k],
            ),
    decreases n,
{
    if n > 0 {
        lemma_filtered_ident_legal(s, n - 1);
        assert forall|k: int| 0 <= k < filtered_ident(s, n).len() implies is_ident_legal_char(
            filtered_ident(s, n)[k],
        ) by {
            if k < filtered_ident(s, n - 1).len() {
                assert(filtered_ident(s, n)[k] == filtered_ident(s, n - 1)[k]);
            } else {
                assert(filtered_ident(s, n)[k] == ident_chunk(s[n - 1])[k - filtered_ident(
                    s,
                    n - 1,
                ).len()]);
            }
        }
    }
}

/// Law: for every caption, the derived identifier consists of ASCII letters,
/// digits and underscores only, and never begins with a digit; a prefix made
/// of legal characters keeps it so, and guarantees a non-empty result.
pub proof fn lemma_caption_to_ident_legal(caption: Seq<char>, prefix: Option<Seq<char>>)
    requires
        prefix matches Some(p) ==> forall|k: int| 0 <= k < p.len() ==> is_ident_legal_char(p[k]),
    ensures
        forall|k: int|
            0 <= k < spec_caption_to_ident(caption, prefix).len() ==> is_ident_legal_char(
                #[trigger] spec_caption_to_ident(caption, prefix)[k],
            ),
        spec_caption_to_ident(caption, prefix).len() > 0 ==> !is_digit_char(
            spec_caption_to_ident(caption, prefix)[0],
        ),
        prefix is Some ==> spec_caption_to_ident(caption, prefix).len() > 0,
{
    lemma_filtered_ident_legal(caption, caption.len() as int);
    let filtered = filtered_ident(caption, caption.len() as int);
    let base = match prefix {
        Option::Some(p) => p + seq!['_'] + filtered,
        Option::None => filtered,
    };
    assert forall|k: int| 0 <= k < base.len() implies is_ident_legal_char(base[k]) by {
        match prefix {
            Option::Some(p) => {
                if k < p.len() {
                    assert(base[k] == p[k]);
                } else if k == p.len() {
                    assert(base[k] == '_');
                } else {
                    assert(base[k] == filtered[k - p.len() - 1]);
                }
            },
            Option::None => {
                assert(base[k] == filtered[k]);
            },
        }
    }
    let out = spec_caption_to_ident(caption, prefix);
    if base.len() > 0 && is_digit_char(base[0]) {
        assert(out[0] == '_');
        assert forall|k: int| 0 <= k < out.len() implies is_ident_legal_char(out[k]) by {
            if k == 0 {
                assert(out[k] == '_');
            } else {
                assert(out[k] == base[k - 1]);
            }
        }
    }
}

} // verus!
