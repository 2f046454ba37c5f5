//! Character classes and the lexicographic order used throughout the crate.

use vstd::prelude::*;

verus! {

/// A character that disqualifies a whole line: one of the characters a
/// path value may not contain, or any control character below space.
pub open spec fn is_invalid_path_char(c: char) -> bool {
    c == '\u{0}' || c == '?' || c == '<' || c == '>' || c == ':' || c == '|' || c == '*'
        || c == '"' || c == '\\' || (c as u32) < 0x20
}

/// Executable test for [`is_invalid_path_char`].
pub fn char_is_invalid(c: char) -> (r: bool)
    ensures
        r == is_invalid_path_char(c),
{
    let u = c as u32;
    c == '\u{0}' || c == '?' || c == '<' || c == '>' || c == ':' || c == '|' || c == '*'
        || c == '"' || c == '\\' || u < 0x20
}

/// A character with the Unicode `White_Space` property: what trimming a
/// line removes from its ends.
pub open spec fn is_space_char(c: char) -> bool {
    (0x9 <= c as u32 && c as u32 <= 0xD) || c as u32 == 0x20 || c as u32 == 0x85
        || c as u32 == 0xA0 || c as u32 == 0x1680 || (0x2000 <= c as u32 && c as u32 <= 0x200A)
        || c as u32 == 0x2028 || c as u32 == 0x2029 || c as u32 == 0x202F || c as u32 == 0x205F
        || c as u32 == 0x3000
}

/// Executable test for [`is_space_char`].
pub fn char_is_space(c: char) -> (r: bool)
    ensures
        r == is_space_char(c),
{
    let u = c as u32;
    (0x9 <= u && u <= 0xD) || u == 0x20 || u == 0x85 || u == 0xA0 || u == 0x1680
        || (0x2000 <= u && u <= 0x200A) || u == 0x2028 || u == 0x2029 || u == 0x202F
        || u == 0x205F || u == 0x3000
}

/// `a` comes before `b` (or equals it) in lexicographic order by code point.
/// For UTF-8 encoded strings this coincides with byte order.
pub open spec fn lex_le(a: Seq<char>, b: Seq<char>) -> bool
    decreases a.len(),
{
    if a.len() == 0 {
        true
    } else if b.len() == 0 {
        false
    } else if (a[0] as u32) < (b[0] as u32) {
        true
    } else if (a[0] as u32) > (b[0] as u32) {
        false
    } else {
        lex_le(a.drop_first(), b.drop_first())
    }
}

/// The order is total: of two strings, one is `lex_le` the other.
pub proof fn lemma_lex_le_total(a: Seq<char>, b: Seq<char>)
    ensures
        lex_le(a, b) || lex_le(b, a),
    decreases a.len(),
{
    if a.len() > 0 && b.len() > 0 && (a[0] as u32) == (b[0] as u32) {
        lemma_lex_le_total(a.drop_first(), b.drop_first());
    }
}

/// Executable comparison deciding [`lex_le`] on the views of two strings.
pub fn str_lex_le(a: &str, b: &str) -> (r: bool)
    ensures
        r == lex_le(a@, b@),
{
    let na = a.unicode_len();
    let nb = b.unicode_len();
    let mut i: usize = 0;
    proof {
        assert(a@.skip(0) =~= a@);
        assert(b@.skip(0) =~= b@);
    }
    loop
        invariant
            i <= na,
            i <= nb,
            na == a@.len(),
            nb == b@.len(),
            lex_le(a@, b@) == lex_le(a@.skip(i as int), b@.skip(i as int)),
        decreases na - i,
    {
        if i == na {
            proof {
                assert(a@.skip(i as int).len() == 0);
            }
            return true;
        }
        if i == nb {
            proof {
                assert(b@.skip(i as int).len() == 0);
                assert(a@.skip(i as int).len() > 0);
            }
            return false;
        }
        let ca = a.get_char(i) as u32;
        let cb = b.get_char(i) as u32;
        proof {
            assert(a@.skip(i as int)[0] == a@[i as int]);
            assert(b@.skip(i as int)[0] == b@[i as int]);
            assert(a@.skip(i as int).drop_first() =~= a@.skip(i as int + 1));
            assert(b@.skip(i as int).drop_first() =~= b@.skip(i as int + 1));
        }
        if ca < cb {
            return true;
        }
        if ca > cb {
            return false;
        }
        proof {
            vstd::utf8::char_u32_cast(a@[i as int], ca);
            vstd::utf8::char_u32_cast(b@[i as int], cb);
        }
        i = i + 1;
    }
}

/// `a` is a prefix of `b`.
pub open spec fn is_prefix_of(a: Seq<char>, b: Seq<char>) -> bool {
    a.len() <= b.len() && (forall|k: int| 0 <= k < a.len() ==> a[k] == b[k])
}

/// Executable test for [`is_prefix_of`] on the views of two strings.
pub fn str_is_prefix(a: &str, b: &str) -> (r: bool)
    ensures
        r == is_prefix_of(a@, b@),
{
    let na = a.unicode_len();
    let nb = b.unicode_len();
    if na > nb {
        return false;
    }
    let mut i: usize = 0;
    while i < na
        invariant
            i <= na <= nb,
            na == a@.len(),
            nb == b@.len(),
            forall|k: int| 0 <= k < i ==> a@[k] == b@[k],
        decreases na - i,
    {
        if a.get_char(i) != b.get_char(i) {
            return false;
        }
        i = i + 1;
    }
    true
}

} // verus!
