//! UTF-16 text: validity, decoding to characters, and surrogate pairing.

use vstd::prelude::*;

verus! {

/// True of a code unit in the high (leading) surrogate range.
pub open spec fn is_high_surrogate(u: u16) -> bool {
    0xD800 <= u <= 0xDBFF
}

/// True of a code unit in the low (trailing) surrogate range.
pub open spec fn is_low_surrogate(u: u16) -> bool {
    0xDC00 <= u <= 0xDFFF
}

/// True of any surrogate code unit; such a unit never stands for a character
/// by itself.
pub open spec fn is_surrogate(u: u16) -> bool {
    0xD800 <= u <= 0xDFFF
}

/// The Unicode scalar value encoded by a surrogate pair.
pub open spec fn pair_scalar(hi: u16, lo: u16) -> u32
    recommends
        is_high_surrogate(hi),
        is_low_surrogate(lo),
{
    (0x10000 + 0x400 * (hi - 0xD800) + (lo - 0xDC00)) as u32
}

/// True when the code units form well-formed UTF-16 text: every surrogate
/// stands in a high-low pair.
pub open spec fn utf16_valid(s: Seq<u16>) -> bool
    decreases s.len(),
{
    if s.len() == 0 {
        true
    } else if !is_surrogate(s[0]) {
        utf16_valid(s.skip(1))
    } else if is_high_surrogate(s[0]) {
        s.len() >= 2 && is_low_surrogate(s[1]) && utf16_valid(s.skip(2))
    } else {
        false
    }
}

/// The characters encoded by well-formed UTF-16 text.
pub open spec fn utf16_chars(s: Seq<u16>) -> Seq<char>
    recommends
        utf16_valid(s),
    decreases s.len(),
{
    if s.len() == 0 {
        Seq::empty()
    } else if !is_surrogate(s[0]) {
        seq![(s[0] as u32) as char] + utf16_chars(s.skip(1))
    } else if s.len() >= 2 && is_high_surrogate(s[0]) && is_low_surrogate(s[1]) {
        seq![(pair_scalar(s[0], s[1]) as char)] + utf16_chars(s.skip(2))
    } else {
        Seq::empty()
    }
}

/// True when the code unit at index `i` is a surrogate that is not half of a
/// high-low pair: a low surrogate not preceded by a high one, or a high
/// surrogate not followed by a low one.
pub open spec fn unpaired_surrogate_at(s: Seq<u16>, i: int) -> bool
    recommends
        0 <= i < s.len(),
{
    ||| (is_low_surrogate(s[i]) && (i == 0 || !is_high_surrogate(s[i - 1])))
    ||| (is_high_surrogate(s[i]) && (i == s.len() - 1 || !is_low_surrogate(s[i + 1])))
}

/// In well-formed UTF-16 text every surrogate is half of a high-low pair.
pub proof fn lemma_valid_utf16_has_no_unpaired_surrogate(s: Seq<u16>)
    requires
        utf16_valid(s),
    ensures
        forall|i: int| 0 <= i < s.len() ==> !#[trigger] unpaired_surrogate_at(s, i),
    decreases s.len(),
{
    if s.len() == 0 {
    } else if !is_surrogate(s[0]) {
        let rest = s.skip(1);
        lemma_valid_utf16_has_no_unpaired_surrogate(rest);
        assert forall|i: int| 0 <= i < s.len() implies !#[trigger] unpaired_surrogate_at(s, i) by {
            if i >= 1 {
                assert(!unpaired_surrogate_at(rest, i - 1));
                assert(rest[i - 1] == s[i]);
                if i >= 2 {
                    assert(rest[i - 2] == s[i - 1]);
                }
                if i + 1 < s.len() {
                    assert(rest[i] == s[i + 1]);
                }
            }
        }
    } else {
        let rest = s.skip(2);
        lemma_valid_utf16_has_no_unpaired_surrogate(rest);
        assert forall|i: int| 0 <= i < s.len() implies !#[trigger] unpaired_surrogate_at(s, i) by {
            if i >= 2 {
                assert(!unpaired_surrogate_at(rest, i - 2));
                assert(rest[i - 2] == s[i]);
                if i >= 3 {
                    assert(rest[i - 3] == s[i - 1]);
                }
                if i + 1 < s.len() {
                    assert(rest[i - 1] == s[i + 1]);
                }
            }
        }
    }
}

/// Relies on `char::from_u32`: it returns `Some` exactly when the value is a
/// Unicode scalar value (not a surrogate and at most 0x10FFFF), and the
/// returned character has that value.
#[verifier::external_body]
fn char_from_u32(u: u32) -> (r: Option<char>)
    ensures
        r is Some <==> vstd::utf8::is_scalar(u),
        r matches Some(c) ==> c as u32 == u,
{
    char::from_u32(u)
}

/// Relies on `String::from_iter` over characters: the string holds exactly
/// the characters of the vector, in order.
#[verifier::external_body]
fn string_from_chars(v: Vec<char>) -> (r: String)
    ensures
        r@ == v@,
{
    String::from_iter(v)
}

/// Decodes UTF-16 code units into a string; `None` exactly when the units are
/// not well-formed UTF-16 text.
pub fn decode_utf16_units(units: &Vec<u16>) -> (r: Option<String>)
    ensures
        r is Some <==> utf16_valid(units@),
        r matches Some(s) ==> s@ == utf16_chars(units@),
{
    let mut out: Vec<char> = Vec::new();
    let mut i: usize = 0;
    proof {
        assert(units@.skip(0) =~= units@);
        assert(out@ + utf16_chars(units@) =~= utf16_chars(units@));
    }
    while i < units.len()
        invariant
            i <= units@.len(),
            utf16_valid(units@) == utf16_valid(units@.skip(i as int)),
            utf16_valid(units@.skip(i as int)) ==> utf16_chars(units@) == out@ + utf16_chars(
                units@.skip(i as int),
            ),
        decreases units@.len() - i,
    {
        let ghost rest = units@.skip(i as int);
        let u = units[i];
        proof {
            assert(rest[0] == u);
        }
        if u < 0xD800 || u > 0xDFFF {
            let c_opt = char_from_u32(u as u32);
            proof {
                assert(vstd::utf8::is_scalar(u as u32));
            }
            let c = c_opt.unwrap();
            proof {
                vstd::utf8::char_u32_cast(c, u as u32);
                assert(rest.skip(1) =~= units@.skip(i as int + 1));
                assert(utf16_chars(rest) == seq![c] + utf16_chars(rest.skip(1)));
                assert(out@ + utf16_chars(rest) =~= (out@ + seq![c]) + utf16_chars(rest.skip(1)));
            }
            out.push(c);
            i = i + 1;
        } else if u <= 0xDBFF && i + 1 < units.len() && 0xDC00 <= units[i + 1] && units[i + 1]
            <= 0xDFFF {
            let lo = units[i + 1];
            let scalar: u32 = 0x10000 + 0x400 * (u as u32 - 0xD800) + (lo as u32 - 0xDC00);
            let c_opt = char_from_u32(scalar);
            proof {
                assert(rest.len() >= 2 && rest[1] == lo);
                assert(scalar == pair_scalar(u, lo));
                assert(vstd::utf8::is_scalar(scalar));
            }
            let c = c_opt.unwrap();
            proof {
                vstd::utf8::char_u32_cast(c, scalar);
                assert(rest.skip(2) =~= units@.skip(i as int + 2));
                assert(utf16_chars(rest) == seq![c] + utf16_chars(rest.skip(2)));
                assert(out@ + utf16_chars(rest) =~= (out@ + seq![c]) + utf16_chars(rest.skip(2)));
            }
            out.push(c);
            i = i + 2;
        } else {
            proof {
                assert(!utf16_valid(rest));
            }
            return None;
        }
    }
    proof {
        assert(units@.skip(i as int) =~= Seq::<u16>::empty());
        assert(utf16_valid(units@));
        assert(utf16_chars(units@) =~= out@);
    }
    Some(string_from_chars(out))
}

} // verus!
