//! The identity under which a machine's baselines are kept.
//!
//! A machine is known by the first sixteen hexadecimal digits of the SHA-256
//! digest of its primary network interface's hardware address, written in
//! lower case with dashes. The address itself is never kept.

use sha2::Digest;
use vstd::prelude::*;
use vstd::string::*;

verus! {

/// The SHA-256 digest of a message.
pub uninterp spec fn sha256(message: Seq<u8>) -> Seq<u8>;

/// `Digest::digest` of sha2's `Sha256`: the SHA-256 digest of `message`,
/// which is 32 bytes long.
#[verifier::external_body]
fn sha256_digest(message: &[u8]) -> (digest: Vec<u8>)
    ensures
        digest@ == sha256(message@),
        digest@.len() == 32,
{
    sha2::Sha256::digest(message).to_vec()
}

/// The lower-case hexadecimal digit for a value below sixteen.
pub open spec fn hex_digit(nibble: int) -> char
    recommends
        0 <= nibble < 16,
{
    if nibble == 0 {
        '0'
    } else if nibble == 1 {
        '1'
    } else if nibble == 2 {
        '2'
    } else if nibble == 3 {
        '3'
    } else if nibble == 4 {
        '4'
    } else if nibble == 5 {
        '5'
    } else if nibble == 6 {
        '6'
    } else if nibble == 7 {
        '7'
    } else if nibble == 8 {
        '8'
    } else if nibble == 9 {
        '9'
    } else if nibble == 10 {
        'a'
    } else if nibble == 11 {
        'b'
    } else if nibble == 12 {
        'c'
    } else if nibble == 13 {
        'd'
    } else if nibble == 14 {
        'e'
    } else {
        'f'
    }
}

/// The two lower-case hexadecimal digits of a byte.
pub open spec fn hex_pair(byte: u8) -> Seq<char> {
    seq![hex_digit(byte as int / 16), hex_digit(byte as int % 16)]
}

/// The bytes written as lower-case hexadecimal digits, two per byte.
pub open spec fn hex_lower(bytes: Seq<u8>) -> Seq<char>
    decreases bytes.len(),
{
    if bytes.len() == 0 {
        Seq::empty()
    } else {
        hex_lower(bytes.drop_last()) + hex_pair(bytes.last())
    }
}

/// A hardware address as text: the bytes in lower-case hexadecimal,
/// separated by dashes.
pub open spec fn mac_text(octets: Seq<u8>) -> Seq<char>
    decreases octets.len(),
{
    if octets.len() == 0 {
        Seq::empty()
    } else if octets.len() == 1 {
        hex_pair(octets[0])
    } else {
        mac_text(octets.drop_last()) + seq!['-'] + hex_pair(octets.last())
    }
}

/// The identifier of the machine whose hardware address is written `mac`.
pub open spec fn machine_id_of(mac: Seq<char>) -> Seq<char> {
    hex_lower(sha256(vstd::utf8::encode_utf8(mac)).take(8))
}

/// Whether `c` is a lower-case hexadecimal digit.
pub open spec fn is_lower_hex(c: char) -> bool {
    ('0' <= c <= '9') || ('a' <= c <= 'f')
}

/// Hexadecimal text has two digits per byte, each a lower-case digit.
pub proof fn lemma_hex_lower_shape(bytes: Seq<u8>)
    ensures
        hex_lower(bytes).len() == 2 * bytes.len(),
        forall|i: int| 0 <= i < hex_lower(bytes).len() ==> is_lower_hex(#[trigger] hex_lower(bytes)[i]),
    decreases bytes.len(),
{
    if bytes.len() > 0 {
        lemma_hex_lower_shape(bytes.drop_last());
        let front = hex_lower(bytes.drop_last());
        let pair = hex_pair(bytes.last());
        assert(is_lower_hex(pair[0]));
        assert(is_lower_hex(pair[1]));
        assert forall|i: int| 0 <= i < hex_lower(bytes).len() implies is_lower_hex(
            #[trigger] hex_lower(bytes)[i],
        ) by {
            if i < front.len() {
                assert(hex_lower(bytes)[i] == front[i]);
            } else {
                assert(hex_lower(bytes)[i] == pair[i - front.len()]);
            }
        }
    }
}

/// The identifier made of a digest: its first eight bytes in hexadecimal.
pub open spec fn id_text(digest: Seq<u8>) -> Seq<char> {
    hex_lower(digest.take(8))
}

/// The identifier made of a digest of eight bytes or more is sixteen
/// lower-case hexadecimal digits.
pub proof fn lemma_id_shape(digest: Seq<u8>)
    requires
        digest.len() >= 8,
    ensures
        id_text(digest).len() == 16,
        forall|i: int| 0 <= i < 16 ==> is_lower_hex(#[trigger] id_text(digest)[i]),
{
    lemma_hex_lower_shape(digest.take(8));
}

/// The text of one hexadecimal digit.
fn hex_digit_text(nibble: u8) -> (text: &'static str)
    requires
        nibble < 16,
    ensures
        text@ == seq![hex_digit(nibble as int)],
{
    proof {
        reveal_strlit("0");
        reveal_strlit("1");
        reveal_strlit("2");
        reveal_strlit("3");
        reveal_strlit("4");
        reveal_strlit("5");
        reveal_strlit("6");
        reveal_strlit("7");
        reveal_strlit("8");
        reveal_strlit("9");
        reveal_strlit("a");
        reveal_strlit("b");
        reveal_strlit("c");
        reveal_strlit("d");
        reveal_strlit("e");
        reveal_strlit("f");
    }
    let text = if nibble == 0 {
        "0"
    } else if nibble == 1 {
        "1"
    } else if nibble == 2 {
        "2"
    } else if nibble == 3 {
        "3"
    } else if nibble == 4 {
        "4"
    } else if nibble == 5 {
        "5"
    } else if nibble == 6 {
        "6"
    } else if nibble == 7 {
        "7"
    } else if nibble == 8 {
        "8"
    } else if nibble == 9 {
        "9"
    } else if nibble == 10 {
        "a"
    } else if nibble == 11 {
        "b"
    } else if nibble == 12 {
        "c"
    } else if nibble == 13 {
        "d"
    } else if nibble == 14 {
        "e"
    } else {
        "f"
    };
    assert(text@ =~= seq![hex_digit(nibble as int)]);
    text
}

/// Appends the two hexadecimal digits of `byte`.
fn push_hex_pair(text: &mut String, byte: u8)
    ensures
        final(text)@ == old(text)@ + hex_pair(byte),
{
    text.append(hex_digit_text(byte / 16));
    text.append(hex_digit_text(byte % 16));
    assert(final(text)@ =~= old(text)@ + hex_pair(byte));
}

/// Writes a hardware address in lower case with dashes, as in
/// `aa-bb-cc-dd-ee-ff`.
pub fn format_mac_address(octets: &[u8; 6]) -> (text: String)
    ensures
        text@ == mac_text(octets@),
{
    let mut text = String::new();
    let mut i: usize = 0;
    while i < 6
        invariant
            i <= 6,
            octets@.len() == 6,
            text@ == mac_text(octets@.take(i as int)),
        decreases 6 - i,
    {
        proof {
            assert(octets@.take(i + 1).drop_last() =~= octets@.take(i as int));
            reveal_strlit("-");
        }
        if i > 0 {
            text.append("-");
        }
        push_hex_pair(&mut text, octets[i]);
        proof {
            assert(octets@.take(i + 1).last() == octets@[i as int]);
            if i == 0 {
                assert(octets@.take(1)[0] == octets@[0]);
                assert(text@ =~= hex_pair(octets@[0]));
            } else {
                assert(text@ =~= mac_text(octets@.take(i as int)) + seq!['-'] + hex_pair(
                    octets@[i as int],
                ));
            }
        }
        i += 1;
    }
    proof {
        assert(octets@.take(6) =~= octets@);
    }
    text
}

/// The identifier made of a digest: its first eight bytes in lower-case
/// hexadecimal.
pub fn id_of_digest(digest: &[u8]) -> (id: String)
    requires
        digest@.len() >= 8,
    ensures
        id@ == id_text(digest@),
        id@.len() == 16,
        forall|i: int| 0 <= i < 16 ==> is_lower_hex(#[trigger] id@[i]),
{
    let mut id = String::new();
    let mut i: usize = 0;
    while i < 8
        invariant
            i <= 8,
            digest@.len() >= 8,
            id@ == hex_lower(digest@.take(i as int)),
        decreases 8 - i,
    {
        proof {
            assert(digest@.take(i + 1).drop_last() =~= digest@.take(i as int));
            assert(digest@.take(i + 1).last() == digest@[i as int]);
        }
        push_hex_pair(&mut id, digest[i]);
        i += 1;
    }
    proof {
        lemma_id_shape(digest@);
    }
    id
}

/// The machine identifier for a hardware address given as text: the first
/// sixteen hexadecimal digits of its SHA-256 digest.
pub fn hash_mac_address(mac: &str) -> (id: String)
    ensures
        id@ == machine_id_of(mac@),
        id@.len() == 16,
        forall|i: int| 0 <= i < 16 ==> is_lower_hex(#[trigger] id@[i]),
{
    let digest = sha256_digest(mac.as_bytes());
    id_of_digest(digest.as_slice())
}

/// The machine identifier for a hardware address.
pub fn machine_id_for(octets: &[u8; 6]) -> (id: String)
    ensures
        id@ == machine_id_of(mac_text(octets@)),
        id@.len() == 16,
        forall|i: int| 0 <= i < 16 ==> is_lower_hex(#[trigger] id@[i]),
{
    let mac = format_mac_address(octets);
    hash_mac_address(mac.as_str())
}

} // verus!
