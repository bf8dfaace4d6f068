use vstd::prelude::*;
use vstd::string::StringSliceAdditionalSpecFns;

use crate::fields::{Error, Hex};
use crate::gf256::GF256;
use crate::shamir::{
    decode, encode, has_duplicate, interp_at_zero, share_col, share_xs, shares_consistent_with,
    uniform_shape, Share,
};

verus! {

/// The lowercase hex digit for a nibble.
pub open spec fn hex_digit(n: u8) -> char
    recommends
        n < 16,
{
    if n == 0 {
        '0'
    } else if n == 1 {
        '1'
    } else if n == 2 {
        '2'
    } else if n == 3 {
        '3'
    } else if n == 4 {
        '4'
    } else if n == 5 {
        '5'
    } else if n == 6 {
        '6'
    } else if n == 7 {
        '7'
    } else if n == 8 {
        '8'
    } else if n == 9 {
        '9'
    } else if n == 10 {
        'a'
    } else if n == 11 {
        'b'
    } else if n == 12 {
        'c'
    } else if n == 13 {
        'd'
    } else if n == 14 {
        'e'
    } else {
        'f'
    }
}

/// The lowercase hex encoding of a byte sequence: two digits per byte,
/// high nibble first.
pub open spec fn hex_chars_of(bytes: Seq<u8>) -> Seq<char> {
    Seq::new(
        bytes.len() * 2,
        |i: int|
            if i % 2 == 0 {
                hex_digit(bytes[i / 2] >> 4)
            } else {
                hex_digit(bytes[i / 2] & 0xf)
            },
    )
}

/// Whether `c` is a hex digit, in either case.
pub open spec fn is_hex_char(c: char) -> bool {
    ||| ('0' <= c && c <= '9')
    ||| ('a' <= c && c <= 'f')
    ||| ('A' <= c && c <= 'F')
}

/// The value of one hex digit.
pub open spec fn hex_val(c: char) -> u8
    recommends
        is_hex_char(c),
{
    if '0' <= c && c <= '9' {
        (c as u8 - '0' as u8) as u8
    } else if 'a' <= c && c <= 'f' {
        (c as u8 - 'a' as u8 + 10) as u8
    } else {
        (c as u8 - 'A' as u8 + 10) as u8
    }
}

/// Whether a character sequence is a decodable hex string: even length,
/// every character a hex digit of either case.
pub open spec fn valid_hex(s: Seq<char>) -> bool {
    s.len() % 2 == 0 && forall|i: int| 0 <= i < s.len() ==> is_hex_char(#[trigger] s[i])
}

/// The bytes a valid hex string stands for.
pub open spec fn unhex(s: Seq<char>) -> Seq<u8>
    recommends
        valid_hex(s),
{
    Seq::new(s.len() / 2, |i: int| ((hex_val(s[2 * i]) * 16 + hex_val(s[2 * i + 1])) as u8))
}

/// A byte sequence as field elements, one element per byte.
pub open spec fn elements_of(msg: Seq<u8>) -> Seq<GF256> {
    msg.map_values(|b: u8| GF256(b))
}

/// The transport bytes of one share: its x-coordinate, then its y-values.
pub open spec fn share_bytes(s: Share) -> Seq<u8> {
    seq![s.x.0] + s.y@.map_values(|g: GF256| g.0)
}

/// Whether a transport fragment is usable: valid hex holding at least the
/// x-coordinate byte.
pub open spec fn fragment_ok(f: Seq<char>) -> bool {
    valid_hex(f) && unhex(f).len() >= 1
}

/// The x-coordinate a fragment carries.
pub open spec fn fragment_x(f: Seq<char>) -> u8 {
    unhex(f)[0]
}

/// The y-values a fragment carries.
pub open spec fn fragment_ys(f: Seq<char>) -> Seq<u8> {
    unhex(f).skip(1)
}

/// The x-coordinates of a fragment sequence.
pub open spec fn frag_xs(frs: Seq<Seq<char>>) -> Seq<u8> {
    frs.map_values(|f: Seq<char>| fragment_x(f))
}

/// Column `p` of the y-values of a fragment sequence.
pub open spec fn frag_col(frs: Seq<Seq<char>>, p: int) -> Seq<u8> {
    frs.map_values(|f: Seq<char>| fragment_ys(f)[p])
}

/// Whether a set of transport fragments can be decoded: at least one, all
/// usable, pairwise-distinct x-coordinates, equally many y-values each.
pub open spec fn fragments_decodable(frs: Seq<Seq<char>>) -> bool {
    &&& frs.len() > 0
    &&& (forall|i: int| 0 <= i < frs.len() ==> fragment_ok(#[trigger] frs[i]))
    &&& !has_duplicate(frag_xs(frs))
    &&& (forall|i: int|
        0 <= i < frs.len() ==> fragment_ys(#[trigger] frs[i]).len() == fragment_ys(frs[0]).len())
}

/// The secret bytes a decodable fragment set stands for.
pub open spec fn fragments_secret(frs: Seq<Seq<char>>) -> Seq<u8>
    recommends
        fragments_decodable(frs),
{
    Seq::new(fragment_ys(frs[0]).len(), |p: int| interp_at_zero(frag_xs(frs), frag_col(frs, p)))
}

/// What `String::from_utf8` makes of a byte sequence: the characters when the
/// bytes are valid UTF-8, nothing otherwise.
pub uninterp spec fn utf8_of(bytes: Seq<u8>) -> Option<Seq<char>>;

/// Relies on hex::encode: two lowercase hex digits per input byte, high
/// nibble first.
#[verifier::external_body]
fn hex_to_ascii(bytes: &Vec<u8>) -> (r: String)
    ensures
        r@ == hex_chars_of(bytes@),
{
    hex::encode(bytes.as_slice())
}

/// Relies on hex::decode: succeeds exactly on even-length strings of hex
/// digits of either case, and returns the bytes they spell.
#[verifier::external_body]
fn hex_decode(s: &str) -> (r: Option<Vec<u8>>)
    ensures
        (r is Some) == valid_hex(s@),
        r matches Some(v) ==> v@ == unhex(s@),
{
    hex::decode(s).ok()
}

/// Relies on String::from_utf8: succeeds exactly on valid UTF-8, and the
/// reading depends on the bytes alone.
#[verifier::external_body]
fn string_from_utf8(bytes: Vec<u8>) -> (r: Option<String>)
    ensures
        (r is Some) == (utf8_of(bytes@) is Some),
        r matches Some(s) ==> Some(s@) == utf8_of(bytes@),
{
    String::from_utf8(bytes).ok()
}

/// The transport bytes of one share: x-coordinate first, then the y-values.
fn shares_to_hex(share: &Share) -> (r: Vec<u8>)
    ensures
        r@ == share_bytes(*share),
{
    let mut r: Vec<u8> = Vec::new();
    r.push(share.x.0);
    let mut i: usize = 0;
    while i < share.y.len()
        invariant
            i <= share.y@.len(),
            r@.len() == i + 1,
            r@[0] == share.x.0,
            forall|t: int| 0 <= t < i ==> r@[t + 1] == (#[trigger] share.y@[t]).0,
        decreases share.y@.len() - i,
    {
        r.push(share.y[i].0);
        i = i + 1;
    }
    proof {
        assert(r@ =~= share_bytes(*share));
    }
    r
}

/// The field elements of a message's bytes, one element per byte.
pub fn message_to_elements(message: &str) -> (r: Vec<GF256>)
    ensures
        r@.len() == message.spec_bytes().len(),
        forall|i: int| 0 <= i < r@.len() ==> (#[trigger] r@[i]).0 == message.spec_bytes()[i],
{
    let r = GF256::from_bytes(message.as_bytes());
    proof {
        assert forall|i: int| 0 <= i < r@.len() implies (#[trigger] r@[i]).0
            == message.spec_bytes()[i] by {
            assert(r@[i].byte_rep() == message.spec_bytes()[i]);
        }
    }
    r
}

/// Split a message into `m` hex transport fragments of which any `k`
/// reconstruct it: each fragment spells one share's x-coordinate and y-values.
pub fn encode_message(message: &str, m: usize, k: usize) -> (r: Result<Vec<String>, Error>)
    requires
        message.spec_bytes().len() >= 1,
    ensures
        (r == Err::<Vec<String>, Error>(Error::InvalidThreshold)) <==> (k == 0 || k > m || m
            >= 256),
        r is Err ==> r == Err::<Vec<String>, Error>(Error::InvalidThreshold) || r == Err::<
            Vec<String>,
            Error,
        >(Error::InsufficientSamplingSpace),
        r matches Ok(frs) ==> frs@.len() == m,
        r matches Ok(frs) ==> exists|shares: Seq<Share>|
            {
                &&& #[trigger] shares_consistent_with(
                    elements_of(message.spec_bytes()),
                    shares,
                    k as int,
                )
                &&& shares.len() == m
                &&& (forall|a: int, b: int|
                    0 <= a < b < shares.len() ==> (#[trigger] shares[a].x).0 != (
                    #[trigger] shares[b].x).0)
                &&& (forall|j: int|
                    0 <= j < shares.len() ==> (#[trigger] shares[j].y)@.len()
                        == message.spec_bytes().len())
                &&& (forall|j: int|
                    0 <= j < m ==> (#[trigger] frs@[j])@ == hex_chars_of(share_bytes(shares[j])))
            },
{
    let elements = message_to_elements(message);
    proof {
        assert(elements@ =~= elements_of(message.spec_bytes()));
    }
    let shares = match encode(elements, m, k) {
        Ok(v) => v,
        Err(e) => {
            return Err(e);
        },
    };
    let mut frs: Vec<String> = Vec::new();
    let mut j: usize = 0;
    while j < shares.len()
        invariant
            j <= shares@.len(),
            frs@.len() == j,
            forall|t: int|
                0 <= t < j ==> (#[trigger] frs@[t])@ == hex_chars_of(share_bytes(shares@[t])),
        decreases shares@.len() - j,
    {
        let bytes = shares_to_hex(&shares[j]);
        frs.push(hex_to_ascii(&bytes));
        j = j + 1;
    }
    Ok(frs)
}

/// One transport fragment read back into a share: the first byte is the
/// x-coordinate, the rest are the y-values.
fn fragment_to_share(fragment: &String) -> (r: Option<Share>)
    ensures
        (r is Some) == fragment_ok(fragment@),
        r matches Some(sh) ==> {
            &&& sh.x.0 == fragment_x(fragment@)
            &&& sh.y@.map_values(|g: GF256| g.0) == fragment_ys(fragment@)
        },
{
    let bytes = match hex_decode(fragment.as_str()) {
        Some(v) => v,
        None => {
            return None;
        },
    };
    if bytes.len() == 0 {
        return None;
    }
    let x = GF256(bytes[0]);
    let mut y: Vec<GF256> = Vec::new();
    let mut i: usize = 1;
    while i < bytes.len()
        invariant
            1 <= i <= bytes@.len(),
            y@.len() == i - 1,
            forall|t: int| 0 <= t < i - 1 ==> (#[trigger] y@[t]).0 == bytes@[t + 1],
        decreases bytes@.len() - i,
    {
        y.push(GF256(bytes[i]));
        i = i + 1;
    }
    let sh = Share { x, y };
    proof {
        assert(sh.y@.map_values(|g: GF256| g.0) =~= fragment_ys(fragment@));
    }
    Some(sh)
}

/// Read transport fragments back into shares, reconstruct the secret bytes by
/// interpolation, and return them as text. Nothing comes back unless every
/// fragment is usable, the x-coordinates are pairwise distinct, the shapes
/// agree, and the reconstructed bytes are valid UTF-8.
pub fn decode_message(fragments: Vec<String>) -> (r: Option<String>)
    ensures
        (r is Some) == (fragments_decodable(fragments@.map_values(|s: String| s@)) && utf8_of(
            fragments_secret(fragments@.map_values(|s: String| s@)),
        ) is Some),
        r matches Some(s) ==> Some(s@) == utf8_of(
            fragments_secret(fragments@.map_values(|s: String| s@)),
        ),
{
    let ghost frs: Seq<Seq<char>> = fragments@.map_values(|s: String| s@);
    if fragments.len() == 0 {
        return None;
    }
    let mut shares: Vec<Share> = Vec::new();
    let mut i: usize = 0;
    while i < fragments.len()
        invariant
            frs == fragments@.map_values(|s: String| s@),
            i <= fragments@.len(),
            shares@.len() == i,
            forall|t: int| 0 <= t < i ==> fragment_ok(#[trigger] frs[t]),
            forall|t: int| 0 <= t < i ==> (#[trigger] shares@[t]).x.0 == fragment_x(frs[t]),
            forall|t: int|
                0 <= t < i ==> (#[trigger] shares@[t]).y@.map_values(|g: GF256| g.0)
                    == fragment_ys(frs[t]),
        decreases fragments@.len() - i,
    {
        let sh = match fragment_to_share(&fragments[i]) {
            Some(v) => v,
            None => {
                proof {
                    assert(frs[i as int] == fragments@[i as int]@);
                    assert(!fragment_ok(frs[i as int]));
                    assert(!fragments_decodable(frs));
                }
                return None;
            },
        };
        shares.push(sh);
        i = i + 1;
    }
    let ghost gshares: Seq<Share> = shares@;
    proof {
        assert(share_xs(gshares) =~= frag_xs(frs));
        assert forall|t: int| 0 <= t < gshares.len() implies #[trigger] gshares[t].y@.len()
            == fragment_ys(frs[t]).len() by {
            assert(gshares[t].y@.map_values(|g: GF256| g.0).len() == fragment_ys(frs[t]).len());
        }
        if fragments_decodable(frs) {
            assert forall|t: int| 0 <= t < gshares.len() implies #[trigger] gshares[t].y@.len()
                == gshares[0].y@.len() by {
                assert(fragment_ys(frs[t]).len() == fragment_ys(frs[0]).len());
            }
            assert(uniform_shape(gshares));
        }
    }
    let elems = match decode(shares) {
        Ok(v) => v,
        Err(_) => {
            proof {
                if fragments_decodable(frs) {
                    assert(false);
                }
            }
            return None;
        },
    };
    let bytes = GF256::to_bytes(elems.as_slice());
    proof {
        assert(!has_duplicate(frag_xs(frs)));
        assert(uniform_shape(gshares));
        assert forall|t: int| 0 <= t < frs.len() implies fragment_ys(#[trigger] frs[t]).len()
            == fragment_ys(frs[0]).len() by {
            assert(gshares[t].y@.len() == gshares[0].y@.len());
            assert(gshares[t].y@.len() == fragment_ys(frs[t]).len());
        }
        assert(fragments_decodable(frs));
        assert(elems@.len() == gshares[0].y@.len());
        assert(gshares[0].y@.len() == fragment_ys(frs[0]).len());
        assert(bytes@ =~= fragments_secret(frs)) by {
            assert forall|p: int| 0 <= p < bytes@.len() implies bytes@[p] == fragments_secret(
                frs,
            )[p] by {
                assert(bytes@[p] == elems@[p].byte_rep());
                assert(elems@[p].0 == interp_at_zero(share_xs(gshares), share_col(gshares, p)));
                assert(share_col(gshares, p) =~= frag_col(frs, p)) by {
                    assert forall|t: int| 0 <= t < gshares.len() implies gshares[t].y@[p].0
                        == fragment_ys(frs[t])[p] by {
                        assert(gshares[t].y@.map_values(|g: GF256| g.0)[p] == fragment_ys(
                            frs[t],
                        )[p]);
                    }
                }
                assert(share_xs(gshares) =~= frag_xs(frs));
            }
        }
    }
    string_from_utf8(bytes)
}

} // verus!
