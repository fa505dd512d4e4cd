//! Standard base64 encoding with padding, written out and verified here:
//! it is small enough to state exactly, so nothing is taken on trust.
use vstd::prelude::*;

verus! {

/// The 64-character standard alphabet.
pub open spec fn b64_alphabet() -> Seq<char> {
    "ABCDEFGHIJKLMNOPQRSTUVWXYZabcdefghijklmnopqrstuvwxyz0123456789+/"@
}

/// The alphabet character for a 6-bit value.
pub open spec fn b64_char(v: int) -> char {
    b64_alphabet()[v]
}

/// The encoding of a whole byte sequence: four output characters for every
/// three input bytes, `=`-padded at the tail.
pub open spec fn b64_of(bytes: Seq<u8>) -> Seq<char>
    decreases bytes.len(),
{
    if bytes.len() == 0 {
        Seq::<char>::empty()
    } else if bytes.len() == 1 {
        let b0 = bytes[0];
        seq![b64_char((b0 >> 2) as int), b64_char(((b0 & 3) << 4) as int), '=', '=']
    } else if bytes.len() == 2 {
        let b0 = bytes[0];
        let b1 = bytes[1];
        seq![
            b64_char((b0 >> 2) as int),
            b64_char((((b0 & 3) << 4) | (b1 >> 4)) as int),
            b64_char(((b1 & 15) << 2) as int),
            '=',
        ]
    } else {
        let b0 = bytes[0];
        let b1 = bytes[1];
        let b2 = bytes[2];
        seq![
            b64_char((b0 >> 2) as int),
            b64_char((((b0 & 3) << 4) | (b1 >> 4)) as int),
            b64_char(((((b1 & 15) << 2) | (b2 >> 6))) as int),
            b64_char((b2 & 63) as int),
        ] + b64_of(bytes.skip(3))
    }
}

/// The alphabet, as an executable string.
fn alphabet() -> (r: &'static str)
    ensures
        r@ == b64_alphabet(),
        r@.len() == 64,
        r.is_ascii(),
{
    let a = "ABCDEFGHIJKLMNOPQRSTUVWXYZabcdefghijklmnopqrstuvwxyz0123456789+/";
    proof {
        reveal_strlit("ABCDEFGHIJKLMNOPQRSTUVWXYZabcdefghijklmnopqrstuvwxyz0123456789+/");
    }
    a
}

/// Append the alphabet character for a 6-bit value.
fn push_b64_char(out: &mut String, v: u8)
    requires
        v < 64,
    ensures
        final(out)@ == old(out)@.push(b64_char(v as int)),
{
    let a = alphabet();
    let c = a.substring_ascii(v as usize, v as usize + 1);
    out.append(c);
    proof {
        assert(c@ =~= seq![b64_alphabet()[v as int]]);
        assert(old(out)@ + c@ =~= old(out)@.push(b64_char(v as int)));
    }
}

/// Encode a byte slice to standard padded base64.
pub fn b64_encode(bytes: &[u8]) -> (r: String)
    ensures
        r@ == b64_of(bytes@),
{
    let n = bytes.len();
    let mut out = String::new();
    let mut i: usize = 0;
    proof {
        assert(bytes@.skip(0) =~= bytes@);
    }
    while n - i >= 3
        invariant
            i <= n,
            n == bytes@.len(),
            out@ + b64_of(bytes@.skip(i as int)) == b64_of(bytes@),
        decreases n - i,
    {
        let b0 = bytes[i];
        let b1 = bytes[i + 1];
        let b2 = bytes[i + 2];
        proof {
            assert(bytes@.skip(i as int)[0] == b0);
            assert(bytes@.skip(i as int)[1] == b1);
            assert(bytes@.skip(i as int)[2] == b2);
            assert(bytes@.skip(i as int).skip(3) =~= bytes@.skip(i + 3));
            assert(b0 >> 2 < 64 && (b0 & 3) << 4 < 64 && ((b0 & 3) << 4 | (b1 >> 4)) < 64) by (bit_vector);
            assert((b1 & 15) << 2 < 64 && ((b1 & 15) << 2 | (b2 >> 6)) < 64 && (b2 & 63) < 64) by (bit_vector);
        }
        push_b64_char(&mut out, b0 >> 2);
        push_b64_char(&mut out, ((b0 & 3) << 4) | (b1 >> 4));
        push_b64_char(&mut out, ((b1 & 15) << 2) | (b2 >> 6));
        push_b64_char(&mut out, b2 & 63);
        i = i + 3;
    }
    if n - i == 1 {
        let b0 = bytes[i];
        proof {
            assert(bytes@.skip(i as int)[0] == b0);
            assert(bytes@.skip(i as int).len() == 1);
            assert(b0 >> 2 < 64 && (b0 & 3) << 4 < 64) by (bit_vector);
        }
        push_b64_char(&mut out, b0 >> 2);
        push_b64_char(&mut out, (b0 & 3) << 4);
        out.append("=");
        out.append("=");
        proof {
            reveal_strlit("=");
            assert(out@ =~= b64_of(bytes@));
        }
    } else if n - i == 2 {
        let b0 = bytes[i];
        let b1 = bytes[i + 1];
        proof {
            assert(bytes@.skip(i as int)[0] == b0);
            assert(bytes@.skip(i as int)[1] == b1);
            assert(bytes@.skip(i as int).len() == 2);
            assert(b0 >> 2 < 64 && ((b0 & 3) << 4 | (b1 >> 4)) < 64 && (b1 & 15) << 2 < 64)
                by (bit_vector);
        }
        push_b64_char(&mut out, b0 >> 2);
        push_b64_char(&mut out, ((b0 & 3) << 4) | (b1 >> 4));
        push_b64_char(&mut out, (b1 & 15) << 2);
        out.append("=");
        proof {
            reveal_strlit("=");
            assert(out@ =~= b64_of(bytes@));
        }
    } else {
        proof {
            assert(bytes@.skip(i as int).len() == 0);
            assert(out@ =~= b64_of(bytes@));
        }
    }
    out
}

} // verus!
