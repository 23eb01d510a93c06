use vstd::prelude::*;
use vstd::string::*;

verus! {

/// Whether a byte is an ASCII hex digit.
pub open spec fn is_hex_digit(b: u8) -> bool {
    (48 <= b <= 57) || (97 <= b <= 102) || (65 <= b <= 70)
}

/// The value of one ASCII hex digit.
pub open spec fn hex_val(b: u8) -> u8 {
    if 48 <= b <= 57 {
        (b - 48) as u8
    } else if 97 <= b <= 102 {
        (b - 87) as u8
    } else if 65 <= b <= 70 {
        (b - 55) as u8
    } else {
        0
    }
}

/// The bytes an even-length string of hex digits decodes to: each pair of
/// digits, high first, gives one byte.
pub open spec fn hex_decoded(s: Seq<u8>) -> Seq<u8> {
    Seq::new(s.len() / 2, |i: int| (hex_val(s[2 * i]) * 16 + hex_val(s[2 * i + 1])) as u8)
}

/// Relies on hex::decode: upper or lower case digits, two per byte; an odd
/// length or any other byte is rejected.
#[verifier::external_body]
fn hex_decode(data: &[u8]) -> (r: Option<Vec<u8>>)
    ensures
        r is Some <==> (data@.len() % 2 == 0 && (forall|i: int|
            0 <= i < data@.len() ==> is_hex_digit(#[trigger] data@[i]))),
        r matches Some(v) ==> v@ == hex_decoded(data@),
{
    hex::decode(data).ok()
}

/// Decodes a pre-shared key written as hex digits, as a key store holds it;
/// a malformed key yields nothing.
pub fn decode_psk_key(key: &str) -> (r: Option<Vec<u8>>)
    ensures
        r is Some <==> (key.spec_bytes().len() % 2 == 0 && (forall|i: int|
            0 <= i < key.spec_bytes().len() ==> is_hex_digit(#[trigger] key.spec_bytes()[i]))),
        r matches Some(v) ==> v@ == hex_decoded(key.spec_bytes()),
{
    hex_decode(key.as_bytes())
}

/// Packs a client identity for a key-exchange callback: its bytes with the
/// terminating zero appended; an identity with an interior zero byte cannot
/// be packed.
pub fn pack_client_identity(id: &str) -> (r: Option<Vec<u8>>)
    ensures
        r is Some <==> (forall|i: int|
            0 <= i < id.spec_bytes().len() ==> #[trigger] id.spec_bytes()[i] != 0),
        r matches Some(v) ==> v@ == id.spec_bytes().push(0u8),
{
    let bytes = id.as_bytes();
    let mut out: Vec<u8> = Vec::new();
    let mut i: usize = 0;
    while i < bytes.len()
        invariant
            i <= bytes@.len(),
            bytes@ == id.spec_bytes(),
            out@ == id.spec_bytes().subrange(0, i as int),
            forall|j: int| 0 <= j < i ==> #[trigger] id.spec_bytes()[j] != 0,
        decreases bytes@.len() - i,
    {
        let b = bytes[i];
        if b == 0 {
            return None;
        }
        out.push(b);
        proof {
            assert(out@ =~= id.spec_bytes().subrange(0, i + 1));
        }
        i += 1;
    }
    out.push(0);
    proof {
        assert(id.spec_bytes().subrange(0, id.spec_bytes().len() as int) =~= id.spec_bytes());
        assert(out@ =~= id.spec_bytes().push(0u8));
    }
    Some(out)
}

} // verus!
