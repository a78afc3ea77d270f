//! Character-level access to string slices, and the character classes the
//! grammar is written over.
use vstd::prelude::*;
use vstd::string::StringSliceAdditionalSpecFns;
use vstd::utf8::*;

verus! {

/// Whether a character has Unicode's `White_Space` property, which is what
/// `char::is_whitespace` decides: the controls U+0009 to U+000D and U+0085,
/// the space, the no-break space U+00A0, U+1680, U+2000 to U+200A, the line
/// and paragraph separators U+2028 and U+2029, U+202F, U+205F and U+3000.
pub open spec fn is_white_space(c: char) -> bool {
    let u = c as u32;
    (0x09 <= u && u <= 0x0D) || u == 0x20 || u == 0x85 || u == 0xA0 || u == 0x1680 || (0x2000
        <= u && u <= 0x200A) || u == 0x2028 || u == 0x2029 || u == 0x202F || u == 0x205F || u
        == 0x3000
}

/// Whether a character is in ASCII.
pub open spec fn is_ascii_char(c: char) -> bool {
    (c as u32) < 0x80
}

/// Whether a character outside ASCII is alphabetic or numeric, as
/// `char::is_alphanumeric` decides it.
pub uninterp spec fn is_alphanumeric_beyond_ascii(c: char) -> bool;

/// Whether a character is alphabetic or numeric, as `char::is_alphanumeric`
/// decides it. In ASCII these are the letters and the digits. Outside ASCII
/// no such character has the `White_Space` property: those are separators
/// and a control, neither alphabetic nor numeric.
pub open spec fn is_alphanumeric_char(c: char) -> bool {
    let u = c as u32;
    if is_ascii_char(c) {
        (0x30 <= u && u <= 0x39) || (0x41 <= u && u <= 0x5A) || (0x61 <= u && u <= 0x7A)
    } else {
        is_alphanumeric_beyond_ascii(c) && !is_white_space(c)
    }
}

/// Relies on `char::len_utf8`: the number of bytes of the character's UTF-8 encoding.
pub assume_specification[ char::len_utf8 ](c: char) -> (r: usize)
    ensures
        r == encode_scalar(c as u32).len(),
;

/// Relies on `char::is_whitespace`: whether the character has the `White_Space` property.
pub assume_specification[ char::is_whitespace ](c: char) -> (r: bool)
    ensures
        r == is_white_space(c),
;

/// Relies on `char::is_alphanumeric`: whether the character is alphabetic or numeric.
/// In ASCII that is the letters and digits; beyond ASCII, the named property,
/// which no `White_Space` character has.
pub assume_specification[ char::is_alphanumeric ](c: char) -> (r: bool)
    ensures
        (r == is_alphanumeric_char(c)) && (is_ascii_char(c) || r == (is_alphanumeric_beyond_ascii(
            c,
        ) && !is_white_space(c))),
;

/// A character that may stand in a process name: alphanumeric, `-` or `_`.
pub open spec fn is_name_char(c: char) -> bool {
    is_alphanumeric_char(c) || c == '-' || c == '_'
}

/// Whether `c` may stand in a process name.
pub fn name_char(c: char) -> (r: bool)
    ensures
        r == is_name_char(c),
{
    c.is_alphanumeric() || c == '-' || c == '_'
}

/// Whether `c` is whitespace.
pub fn white_space(c: char) -> (r: bool)
    ensures
        r == is_white_space(c),
{
    c.is_whitespace()
}

/// Splits off the first character of `s`, both as a `char` and as a slice of
/// its own, or gives `None` when `s` is empty.
pub fn split_first_char<'a>(s: &'a str) -> (r: Option<(char, &'a str, &'a str)>)
    ensures
        match r {
            Some((c, head, rest)) => s@.len() > 0 && c == s@[0] && head@ == seq![c] && rest@
                == s@.drop_first(),
            None => s@.len() == 0,
        },
{
    if s.is_empty() {
        return None;
    }
    let c = s.get_char(0);
    let k = c.len_utf8();
    proof {
        let bytes = s.spec_bytes();
        encode_utf8_first_scalar(s@);
        assert(bytes == encode_scalar(s@[0] as u32) + encode_utf8(s@.drop_first()));
        assert(pop_first_scalar(bytes) =~= encode_utf8(s@.drop_first()));
        encode_utf8_valid_utf8(s@);
        encode_utf8_valid_utf8(s@.drop_first());
        assert(is_char_boundary(pop_first_scalar(bytes), 0));
        reveal_with_fuel(is_char_boundary, 2);
        assert(is_char_boundary(bytes, k as int));
    }
    let (head, rest) = s.split_at(k);
    proof {
        let bytes = s.spec_bytes();
        assert(rest.spec_bytes() =~= encode_utf8(s@.drop_first()));
        encode_utf8_decode_utf8(rest@);
        encode_utf8_decode_utf8(s@.drop_first());
        assert(head.spec_bytes() =~= encode_scalar(c as u32));
        assert(encode_utf8(seq![c]) =~= encode_scalar(c as u32)) by {
            assert(seq![c].drop_first() =~= Seq::<char>::empty());
            assert(encode_utf8(Seq::<char>::empty()) =~= Seq::<u8>::empty());
            assert(encode_utf8(seq![c]) == encode_scalar(seq![c][0] as u32) + encode_utf8(
                seq![c].drop_first(),
            ));
        }
        encode_utf8_decode_utf8(head@);
        encode_utf8_decode_utf8(seq![c]);
    }
    Some((c, head, rest))
}

} // verus!
