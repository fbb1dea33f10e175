//! Diagnostic text: turning raw bytes and numbers into `String`s for
//! error messages, and comparing byte strings.
//!
//! Mount-table fields are opaque byte strings, so the text of a diagnostic
//! that embeds one is only defined up to the lossy UTF-8 decoding named
//! below; for plain ASCII bytes it is pinned exactly.

use vstd::prelude::*;

verus! {

/// The byte `'"'`.
pub const QUOTE: u8 = 34;

/// What `String::from_utf8_lossy` returns for a byte string: a function of
/// the bytes alone.
pub uninterp spec fn lossy_utf8_of(b: Seq<u8>) -> Seq<char>;

/// Whether every byte is ASCII.
pub open spec fn is_ascii_bytes(b: Seq<u8>) -> bool {
    forall|i: int| 0 <= i < b.len() ==> b[i] < 128
}

/// The characters of an ASCII byte string, one per byte.
pub open spec fn ascii_chars_of(b: Seq<u8>) -> Seq<char> {
    Seq::new(b.len(), |i: int| b[i] as char)
}

/// Relies on `String::from_utf8_lossy`: the result depends on the bytes
/// alone, and bytes that are valid UTF-8 (so in particular ASCII bytes)
/// decode to themselves.
#[verifier::external_body]
pub fn lossy_string(b: &[u8]) -> (r: String)
    ensures
        r@ == lossy_utf8_of(b@),
        is_ascii_bytes(b@) ==> r@ == ascii_chars_of(b@),
{
    String::from_utf8_lossy(b).into_owned()
}

/// The byte string between quotes, with any quote or backslash preceded by
/// a backslash. Unlike the formatter of the standard library this leaves
/// control and non-ASCII bytes as they are; the lossy decoding above deals
/// with them.
pub open spec fn quote_escape_spec(s: Seq<u8>) -> Seq<u8>
    decreases s.len(),
{
    if s.len() == 0 {
        Seq::empty()
    } else if s[0] == QUOTE || s[0] == crate::codec::BACKSLASH {
        seq![crate::codec::BACKSLASH, s[0]] + quote_escape_spec(s.skip(1))
    } else {
        seq![s[0]] + quote_escape_spec(s.skip(1))
    }
}

/// A byte string rendered as a double-quoted token for a diagnostic.
pub open spec fn debug_quoted_spec(s: Seq<u8>) -> Seq<u8> {
    seq![QUOTE] + quote_escape_spec(s) + seq![QUOTE]
}

/// Render `b` as a double-quoted token: `/x` becomes `"/x"`.
pub fn debug_quoted(b: &[u8]) -> (r: Vec<u8>)
    ensures
        r@ == debug_quoted_spec(b@),
{
    let mut out: Vec<u8> = Vec::new();
    out.push(QUOTE);
    let mut i: usize = 0;
    proof {
        assert(b@.skip(0) =~= b@);
        assert(out@ + quote_escape_spec(b@.skip(0)) =~= seq![QUOTE] + quote_escape_spec(b@));
    }
    while i < b.len()
        invariant
            i <= b.len(),
            out@ + quote_escape_spec(b@.skip(i as int)) == seq![QUOTE] + quote_escape_spec(b@),
        decreases b.len() - i,
    {
        let c = b[i];
        proof {
            assert(b@.skip(i as int).skip(1) =~= b@.skip(i as int + 1));
        }
        if c == QUOTE || c == crate::codec::BACKSLASH {
            out.push(crate::codec::BACKSLASH);
            out.push(c);
        } else {
            out.push(c);
        }
        proof {
            assert(out@ + quote_escape_spec(b@.skip(i as int + 1)) =~= seq![QUOTE]
                + quote_escape_spec(b@));
        }
        i = i + 1;
    }
    out.push(QUOTE);
    proof {
        assert(b@.skip(i as int) =~= Seq::<u8>::empty());
        assert(out@ =~= debug_quoted_spec(b@));
    }
    out
}

/// The quoted form of `b`, lossily decoded for embedding in a message.
pub open spec fn quoted_text_spec(b: Seq<u8>) -> Seq<char> {
    lossy_utf8_of(debug_quoted_spec(b))
}

/// Render `b` as a double-quoted `String`.
pub fn quoted_text(b: &[u8]) -> (r: String)
    ensures
        r@ == quoted_text_spec(b@),
{
    let q = debug_quoted(b);
    lossy_string(q.as_slice())
}

/// The decimal digits of `v`, most significant first, without leading
/// zeros (zero itself is one digit).
pub open spec fn dec_digits_spec(v: nat) -> Seq<u8>
    decreases v,
{
    if v < 10 {
        seq![(48 + v) as u8]
    } else {
        dec_digits_spec(v / 10) + seq![(48 + v % 10) as u8]
    }
}

/// Every byte of a decimal rendering is an ASCII digit.
proof fn lemma_dec_digits_ascii(v: nat)
    ensures
        forall|i: int| 0 <= i < dec_digits_spec(v).len() ==> 48 <= #[trigger] dec_digits_spec(v)[i]
            <= 57,
    decreases v,
{
    if v >= 10 {
        lemma_dec_digits_ascii(v / 10);
        let pre = dec_digits_spec(v / 10);
        assert forall|i: int| 0 <= i < dec_digits_spec(v).len() implies 48
            <= #[trigger] dec_digits_spec(v)[i] <= 57 by {
            if i < pre.len() {
                assert(dec_digits_spec(v)[i] == pre[i]);
            } else {
                assert(dec_digits_spec(v)[i] == (48 + v % 10) as u8);
            }
        }
    }
}

/// The decimal rendering of `v` as text.
pub open spec fn dec_text_spec(v: nat) -> Seq<char> {
    ascii_chars_of(dec_digits_spec(v))
}

/// Append the decimal digits of `v` to `out`.
fn push_dec_digits(out: &mut Vec<u8>, v: u64)
    ensures
        final(out)@ == old(out)@ + dec_digits_spec(v as nat),
    decreases v,
{
    if v < 10 {
        out.push(48 + (v as u8));
        proof {
            assert(out@ =~= old(out)@ + dec_digits_spec(v as nat));
        }
    } else {
        push_dec_digits(out, v / 10);
        out.push(48 + ((v % 10) as u8));
        proof {
            assert(out@ =~= old(out)@ + dec_digits_spec(v as nat));
        }
    }
}

/// Render `v` in decimal.
pub fn decimal_string(v: u64) -> (r: String)
    ensures
        r@ == dec_text_spec(v as nat),
{
    let mut out: Vec<u8> = Vec::new();
    push_dec_digits(&mut out, v);
    proof {
        lemma_dec_digits_ascii(v as nat);
        assert(out@ =~= dec_digits_spec(v as nat));
        assert(is_ascii_bytes(out@));
    }
    lossy_string(out.as_slice())
}

/// Whether two byte strings hold the same bytes.
pub fn bytes_eq(a: &[u8], b: &[u8]) -> (r: bool)
    ensures
        r == (a@ == b@),
{
    if a.len() != b.len() {
        return false;
    }
    let mut i: usize = 0;
    while i < a.len()
        invariant
            i <= a.len(),
            a@.len() == b@.len(),
            forall|j: int| 0 <= j < i ==> a@[j] == b@[j],
        decreases a.len() - i,
    {
        if a[i] != b[i] {
            return false;
        }
        i = i + 1;
    }
    proof {
        assert(a@ =~= b@);
    }
    true
}

} // verus!
