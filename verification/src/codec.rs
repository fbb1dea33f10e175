//! The escape codecs used around mount tables: the kernel's `\NNN` octal
//! byte escaping inside mount-table path fields, and the backslash escaping
//! used when assembling an overlay-filesystem option string.
//!
//! Paths are opaque byte strings: nothing here assumes the bytes are text.

use vstd::prelude::*;

verus! {

/// The byte `'\\'`, the escape character of both codecs.
pub const BACKSLASH: u8 = 92;

/// The byte `' '`, the field separator that the octal codec escapes.
pub const SPACE: u8 = 32;

/// The byte `'\t'`.
pub const TAB: u8 = 9;

/// The byte `'\n'`.
pub const NEWLINE: u8 = 10;

/// The byte `'0'`, the least ASCII octal digit.
pub const DIGIT_ZERO: u8 = 48;

/// The byte `'7'`, the greatest ASCII octal digit.
pub const DIGIT_SEVEN: u8 = 55;

/// The byte `':'`, the list separator inside an overlay option string.
pub const COLON: u8 = 58;

/// The byte `','`, the option separator inside an overlay option string.
pub const COMMA: u8 = 44;

/// An ASCII octal digit: `'0'` through `'7'`.
pub open spec fn is_oct_spec(c: u8) -> bool {
    DIGIT_ZERO <= c && c <= DIGIT_SEVEN
}

/// Whether `c` is an ASCII octal digit.
pub fn is_oct(c: u8) -> (r: bool)
    ensures
        r == is_oct_spec(c),
{
    c >= DIGIT_ZERO && c <= DIGIT_SEVEN
}

/// Whether a byte string starts with a well-formed octal escape:
/// a backslash followed by exactly three ASCII octal digits.
pub open spec fn is_octal_encoding_spec(s: Seq<u8>) -> bool {
    s.len() >= 4 && s[0] == BACKSLASH && is_oct_spec(s[1]) && is_oct_spec(s[2]) && is_oct_spec(
        s[3],
    )
}

/// Whether `v` starts with a well-formed octal escape.
pub fn is_octal_encoding(v: &[u8]) -> (r: bool)
    ensures
        r == is_octal_encoding_spec(v@),
{
    v.len() >= 4 && v[0] == BACKSLASH && is_oct(v[1]) && is_oct(v[2]) && is_oct(v[3])
}

/// The byte encoded by the three octal digit bytes `a`, `b`, `c`.
///
/// Each digit contributes its low three bits; the leading digit is further
/// masked to its low two bits, so an out-of-range escape such as `\400` is
/// silently truncated to a byte rather than rejected (`\400` decodes to 0,
/// `\777` to 255).
pub open spec fn octal_value_spec(a: u8, b: u8, c: u8) -> u8 {
    ((((a & 3) as u8) << 6) + (((b & 7) as u8) << 3) + ((c & 7) as u8)) as u8
}

/// Decode the three octal digit bytes at the front of `v` into one byte.
pub fn parse_octal(v: &[u8]) -> (r: u8)
    requires
        v@.len() >= 3,
    ensures
        r == octal_value_spec(v[0], v[1], v[2]),
{
    parse_octal_at(v, 0)
}

/// The decoding of a whole byte string: each well-formed octal escape
/// becomes its byte; everything else, a lone or malformed backslash
/// included, passes through unchanged.
pub open spec fn unescape_octals_spec(s: Seq<u8>) -> Seq<u8>
    decreases s.len(),
{
    if s.len() == 0 {
        Seq::empty()
    } else if is_octal_encoding_spec(s) {
        seq![octal_value_spec(s[1], s[2], s[3])] + unescape_octals_spec(s.skip(4))
    } else {
        seq![s[0]] + unescape_octals_spec(s.skip(1))
    }
}

/// Decode every `\NNN` octal escape in `v`; all other bytes pass through.
pub fn unescape_octals(v: &[u8]) -> (r: Vec<u8>)
    ensures
        r@ == unescape_octals_spec(v@),
{
    let mut out: Vec<u8> = Vec::new();
    let mut i: usize = 0;
    proof {
        assert(v@.skip(0) =~= v@);
        assert(out@ + unescape_octals_spec(v@.skip(0)) =~= unescape_octals_spec(v@));
    }
    while i < v.len()
        invariant
            i <= v.len(),
            out@ + unescape_octals_spec(v@.skip(i as int)) == unescape_octals_spec(v@),
        decreases v.len() - i,
    {
        let n = v.len() - i;
        if n >= 4 && v[i] == BACKSLASH && is_oct(v[i + 1]) && is_oct(v[i + 2]) && is_oct(
            v[i + 3],
        ) {
            proof {
                assert(is_octal_encoding_spec(v@.skip(i as int)));
                assert(v@.skip(i as int).skip(4) =~= v@.skip(i as int + 4));
            }
            out.push(parse_octal_at(v, i + 1));
            proof {
                assert(out@ + unescape_octals_spec(v@.skip(i as int + 4)) =~= unescape_octals_spec(
                    v@,
                ));
            }
            i = i + 4;
        } else {
            proof {
                assert(!is_octal_encoding_spec(v@.skip(i as int)));
                assert(v@.skip(i as int).skip(1) =~= v@.skip(i as int + 1));
            }
            out.push(v[i]);
            proof {
                assert(out@ + unescape_octals_spec(v@.skip(i as int + 1)) =~= unescape_octals_spec(
                    v@,
                ));
            }
            i = i + 1;
        }
    }
    proof {
        assert(v@.skip(i as int) =~= Seq::<u8>::empty());
        assert(out@ =~= unescape_octals_spec(v@));
    }
    out
}

/// Whether the kernel escapes this byte inside a mount-table path field.
pub open spec fn is_kernel_escaped(c: u8) -> bool {
    c == SPACE || c == TAB || c == NEWLINE || c == BACKSLASH
}

/// The three ASCII octal digits of byte `c`, most significant first.
pub open spec fn octal_digits_spec(c: u8) -> Seq<u8> {
    seq![
        (DIGIT_ZERO + (c >> 6)) as u8,
        (DIGIT_ZERO + ((c >> 3) & 7)) as u8,
        (DIGIT_ZERO + (c & 7)) as u8,
    ]
}

/// The kernel-style encoding of a byte string: each of the four separator
/// bytes (space, tab, newline, backslash) becomes a backslash followed by
/// exactly three octal digits; every other byte passes through.
pub open spec fn kernel_escape_spec(s: Seq<u8>) -> Seq<u8>
    decreases s.len(),
{
    if s.len() == 0 {
        Seq::empty()
    } else if is_kernel_escaped(s[0]) {
        seq![BACKSLASH] + octal_digits_spec(s[0]) + kernel_escape_spec(s.skip(1))
    } else {
        seq![s[0]] + kernel_escape_spec(s.skip(1))
    }
}

/// Encode `v` the way the kernel escapes mount-table path fields.
pub fn kernel_style_encode(v: &[u8]) -> (r: Vec<u8>)
    ensures
        r@ == kernel_escape_spec(v@),
{
    let mut out: Vec<u8> = Vec::new();
    let mut i: usize = 0;
    proof {
        assert(v@.skip(0) =~= v@);
        assert(out@ + kernel_escape_spec(v@.skip(0)) =~= kernel_escape_spec(v@));
    }
    while i < v.len()
        invariant
            i <= v.len(),
            out@ + kernel_escape_spec(v@.skip(i as int)) == kernel_escape_spec(v@),
        decreases v.len() - i,
    {
        let c = v[i];
        proof {
            assert(v@.skip(i as int).skip(1) =~= v@.skip(i as int + 1));
            assert(c >> 6 <= 3 && (c >> 3) & 7 <= 7 && c & 7 <= 7) by (bit_vector);
        }
        if c == SPACE || c == TAB || c == NEWLINE || c == BACKSLASH {
            out.push(BACKSLASH);
            out.push(DIGIT_ZERO + (c >> 6));
            out.push(DIGIT_ZERO + ((c >> 3) & 7));
            out.push(DIGIT_ZERO + (c & 7));
        } else {
            out.push(c);
        }
        proof {
            assert(out@ + kernel_escape_spec(v@.skip(i as int + 1)) =~= kernel_escape_spec(v@));
        }
        i = i + 1;
    }
    proof {
        assert(v@.skip(i as int) =~= Seq::<u8>::empty());
        assert(out@ =~= kernel_escape_spec(v@));
    }
    out
}

/// Whether the overlay option-string codec escapes this byte: the escape
/// character itself, the lower-directory list separator, and the option
/// separator.
pub open spec fn is_overlay_escaped(c: u8) -> bool {
    c == BACKSLASH || c == COLON || c == COMMA
}

/// The overlay option-string encoding: backslash, colon and comma are each
/// preceded by a backslash; every other byte passes through. This is a
/// distinct scheme from the octal codec and the two must not be conflated.
pub open spec fn overlay_escape_spec(s: Seq<u8>) -> Seq<u8>
    decreases s.len(),
{
    if s.len() == 0 {
        Seq::empty()
    } else if is_overlay_escaped(s[0]) {
        seq![BACKSLASH, s[0]] + overlay_escape_spec(s.skip(1))
    } else {
        seq![s[0]] + overlay_escape_spec(s.skip(1))
    }
}

/// Append `path` to `dest`, escaped for use inside an overlay option string.
pub fn append_escape(dest: &mut Vec<u8>, path: &[u8])
    ensures
        final(dest)@ == old(dest)@ + overlay_escape_spec(path@),
{
    let mut i: usize = 0;
    proof {
        assert(path@.skip(0) =~= path@);
        assert(dest@ + overlay_escape_spec(path@.skip(0)) =~= old(dest)@ + overlay_escape_spec(
            path@,
        ));
    }
    while i < path.len()
        invariant
            i <= path.len(),
            dest@ + overlay_escape_spec(path@.skip(i as int)) == old(dest)@ + overlay_escape_spec(
                path@,
            ),
        decreases path.len() - i,
    {
        let c = path[i];
        proof {
            assert(path@.skip(i as int).skip(1) =~= path@.skip(i as int + 1));
        }
        if c == BACKSLASH || c == COLON || c == COMMA {
            dest.push(BACKSLASH);
            dest.push(c);
        } else {
            dest.push(c);
        }
        proof {
            assert(dest@ + overlay_escape_spec(path@.skip(i as int + 1)) =~= old(dest)@
                + overlay_escape_spec(path@));
        }
        i = i + 1;
    }
    proof {
        assert(path@.skip(i as int) =~= Seq::<u8>::empty());
        assert(dest@ =~= old(dest)@ + overlay_escape_spec(path@));
    }
}

/// Decoding leaves a byte string without well-formed octal escapes intact:
/// a backslash followed by fewer than three octal digits, or by non-octal
/// bytes, passes through byte for byte.
pub proof fn lemma_unescape_without_escapes_identity(s: Seq<u8>)
    requires
        forall|i: int| 0 <= i < s.len() ==> !is_octal_encoding_spec(#[trigger] s.skip(i)),
    ensures
        unescape_octals_spec(s) == s,
    decreases s.len(),
{
    if s.len() == 0 {
        assert(unescape_octals_spec(s) =~= s);
    } else {
        assert(!is_octal_encoding_spec(s.skip(0)));
        assert(s.skip(0) =~= s);
        assert forall|i: int| 0 <= i < s.skip(1).len() implies !is_octal_encoding_spec(
            #[trigger] s.skip(1).skip(i),
        ) by {
            assert(s.skip(1).skip(i) =~= s.skip(i + 1));
            assert(!is_octal_encoding_spec(s.skip(i + 1)));
        }
        lemma_unescape_without_escapes_identity(s.skip(1));
        assert(unescape_octals_spec(s) =~= s);
    }
}

/// Decoding is the identity on byte strings that contain none of the four
/// bytes the kernel escapes; in particular no backslash, so no escape can
/// begin anywhere.
pub proof fn lemma_unescape_plain_identity(s: Seq<u8>)
    requires
        forall|i: int| 0 <= i < s.len() ==> !is_kernel_escaped(#[trigger] s[i]),
    ensures
        unescape_octals_spec(s) == s,
{
    assert forall|i: int| 0 <= i < s.len() implies !is_octal_encoding_spec(
        #[trigger] s.skip(i),
    ) by {
        assert(s.skip(i).len() >= 4 ==> s.skip(i)[0] == s[i]);
    }
    lemma_unescape_without_escapes_identity(s);
}

/// Decoding inverts kernel-style encoding: the round trip over any byte
/// string gives the string back, the encoder always emitting exactly three
/// octal digits per escaped byte.
pub proof fn lemma_unescape_of_kernel_escape(s: Seq<u8>)
    ensures
        unescape_octals_spec(kernel_escape_spec(s)) == s,
    decreases s.len(),
{
    if s.len() == 0 {
        assert(unescape_octals_spec(kernel_escape_spec(s)) =~= s);
    } else {
        let c = s[0];
        lemma_unescape_of_kernel_escape(s.skip(1));
        let rest = kernel_escape_spec(s.skip(1));
        if is_kernel_escaped(c) {
            let e = kernel_escape_spec(s);
            assert(e =~= seq![BACKSLASH] + octal_digits_spec(c) + rest);
            assert(is_oct_spec((DIGIT_ZERO + (c >> 6)) as u8) && is_oct_spec(
                (DIGIT_ZERO + ((c >> 3) & 7)) as u8,
            ) && is_oct_spec((DIGIT_ZERO + (c & 7)) as u8)) by (bit_vector);
            let d1 = (DIGIT_ZERO + (c >> 6)) as u8;
            let d2 = (DIGIT_ZERO + ((c >> 3) & 7)) as u8;
            let d3 = (DIGIT_ZERO + (c & 7)) as u8;
            assert(e[0] == BACKSLASH && e[1] == d1 && e[2] == d2 && e[3] == d3);
            assert(is_octal_encoding_spec(e));
            assert(octal_value_spec(
                (DIGIT_ZERO + (c >> 6)) as u8,
                (DIGIT_ZERO + ((c >> 3) & 7)) as u8,
                (DIGIT_ZERO + (c & 7)) as u8,
            ) == c) by (bit_vector);
            assert(e.skip(4) =~= rest);
            assert(unescape_octals_spec(e) =~= seq![c] + unescape_octals_spec(rest));
            assert(unescape_octals_spec(kernel_escape_spec(s)) =~= s);
        } else {
            let e = kernel_escape_spec(s);
            assert(e =~= seq![c] + rest);
            assert(c != BACKSLASH);
            assert(!is_octal_encoding_spec(e));
            assert(e.skip(1) =~= rest);
            assert(unescape_octals_spec(e) =~= seq![c] + unescape_octals_spec(rest));
            assert(unescape_octals_spec(kernel_escape_spec(s)) =~= s);
        }
    }
}

/// Decode the three octal digits at `v[i..i + 3]` into one byte.
fn parse_octal_at(v: &[u8], i: usize) -> (r: u8)
    requires
        i + 3 <= v@.len(),
    ensures
        r == octal_value_spec(v[i as int], v[i + 1], v[i + 2]),
{
    let a = v[i];
    let b = v[i + 1];
    let c = v[i + 2];
    proof {
        assert(((a & 3) << 6) <= 192 && ((b & 7) << 3) <= 56 && (c & 7) <= 7) by (bit_vector);
    }
    ((a & 3) << 6) + ((b & 7) << 3) + (c & 7)
}

} // verus!
