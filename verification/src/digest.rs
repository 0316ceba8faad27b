//! Names derived from a digest.

use crate::text;
use sha2::Digest;
use vstd::prelude::*;
use vstd::string::*;

verus! {

/// The SHA-256 digest of a byte string.
pub uninterp spec fn sha256_digest(data: Seq<u8>) -> Seq<u8>;

/// Wraps `sha2::Sha256::digest`: the digest of the data, which is 32 bytes long.
#[verifier::external_body]
pub(crate) fn sha256(data: &[u8]) -> (digest: Vec<u8>)
    ensures
        digest@ == sha256_digest(data@),
        digest@.len() == 32,
{
    sha2::Sha256::digest(data).to_vec()
}

/// The bytes in lower-case hexadecimal, two digits each.
pub open spec fn hex_text(data: Seq<u8>) -> Seq<char> {
    Seq::new(
        2 * data.len(),
        |i: int|
            if i % 2 == 0 {
                text::hex_digit(data[i / 2] as int / 16)
            } else {
                text::hex_digit(data[i / 2] as int % 16)
            },
    )
}

/// Wraps `hex::encode`: each byte as two lower-case hexadecimal digits, the high one first.
#[verifier::external_body]
pub(crate) fn hex_encode(data: &[u8]) -> (text: String)
    ensures
        text@ == hex_text(data@),
{
    hex::encode(data)
}

/// The name that a digest gives: the prefix, a hyphen, and the digest's first 8 bytes.
pub open spec fn digest_name(prefix: Seq<char>, digest: Seq<u8>) -> Seq<char> {
    prefix + "-"@ + hex_text(digest.take(8))
}

/// A lower-case hexadecimal digit.
pub open spec fn is_hex_char(c: char) -> bool {
    '0' <= c <= '9' || 'a' <= c <= 'f'
}

/// A name of the form `"{prefix}-{hash}"`, where the hash is 16 lower-case hexadecimal digits.
pub open spec fn has_name_format(name: Seq<char>, prefix: Seq<char>) -> bool {
    &&& name.len() == prefix.len() + 17
    &&& name.take(prefix.len() as int) == prefix
    &&& name[prefix.len() as int] == '-'
    &&& forall|i: int| prefix.len() < i < name.len() ==> is_hex_char(#[trigger] name[i])
}

proof fn lemma_digest_name_format(prefix: Seq<char>, digest: Seq<u8>)
    requires
        digest.len() >= 8,
    ensures
        has_name_format(digest_name(prefix, digest), prefix),
{
    reveal_strlit("-");
    let hash = hex_text(digest.take(8));
    let name = digest_name(prefix, digest);
    assert(name.take(prefix.len() as int) =~= prefix);
    assert forall|i: int| prefix.len() < i < name.len() implies is_hex_char(#[trigger] name[i]) by {
        let k = i - prefix.len() - 1;
        assert(name[i] == hash[k]);
        let byte = digest.take(8)[k / 2];
        assert(0 <= byte as int / 16 < 16);
    }
}

proof fn lemma_hex_text_at(data: Seq<u8>, i: int)
    requires
        0 <= i < data.len(),
    ensures
        hex_text(data)[2 * i] == text::hex_digit(data[i] as int / 16),
        hex_text(data)[2 * i + 1] == text::hex_digit(data[i] as int % 16),
{
    assert((2 * i) / 2 == i && (2 * i) % 2 == 0);
    assert((2 * i + 1) / 2 == i && (2 * i + 1) % 2 == 1);
}

/// Different bytes are written differently.
pub proof fn lemma_hex_text_injective(a: Seq<u8>, b: Seq<u8>)
    requires
        hex_text(a) == hex_text(b),
    ensures
        a == b,
{
    assert(hex_text(a).len() == 2 * a.len());
    assert(hex_text(b).len() == 2 * b.len());
    assert forall|i: int| 0 <= i < a.len() implies a[i] == b[i] by {
        lemma_hex_text_at(a, i);
        lemma_hex_text_at(b, i);
        text::lemma_hex_digit_injective(a[i] as int / 16, b[i] as int / 16);
        text::lemma_hex_digit_injective(a[i] as int % 16, b[i] as int % 16);
    }
    assert(a =~= b);
}

/// The prefix of a name can be read off the name: names under different prefixes differ.
pub proof fn law_name_determines_prefix(name: Seq<char>, p: Seq<char>, q: Seq<char>)
    requires
        has_name_format(name, p),
        has_name_format(name, q),
    ensures
        p == q,
{
}

/// The hyphen before the hash is the last one in the name, whatever the prefix holds.
pub proof fn law_last_hyphen_ends_prefix(name: Seq<char>, prefix: Seq<char>)
    requires
        has_name_format(name, prefix),
    ensures
        name[prefix.len() as int] == '-',
        forall|i: int| prefix.len() < i < name.len() ==> #[trigger] name[i] != '-',
{
}

/// Names a thing by a prefix and the first 8 bytes (16 hex characters) of its digest.
pub fn name_from_digest(prefix: &str, digest: &[u8]) -> (name: String)
    requires
        digest@.len() >= 8,
    ensures
        name@ == digest_name(prefix@, digest@),
        has_name_format(name@, prefix@),
{
    proof {
        lemma_digest_name_format(prefix@, digest@);
    }
    let short_hash: String = hex_encode(vstd::slice::slice_subrange(digest, 0, 8));
    let mut name: String = prefix.to_owned();
    name.append("-");
    name.append(short_hash.as_str());
    assert(digest@.subrange(0, 8) =~= digest@.take(8));
    name
}

/// Each byte is written as two digits, the high one first.
pub proof fn law_hex_text(data: Seq<u8>)
    ensures
        hex_text(data).len() == 2 * data.len(),
        forall|k: int|
            0 <= k < data.len() ==> hex_text(data)[2 * k] == "0123456789abcdef"@[(#[trigger] data[k])
                as int / 16] && hex_text(data)[2 * k + 1] == "0123456789abcdef"@[data[k] as int % 16],
{
    assert forall|k: int| 0 <= k < data.len() implies hex_text(data)[2 * k]
        == "0123456789abcdef"@[(#[trigger] data[k]) as int / 16] && hex_text(data)[2 * k + 1]
        == "0123456789abcdef"@[data[k] as int % 16] by {
        lemma_hex_text_at(data, k);
        text::law_hex_digit(data[k] as int / 16);
        text::law_hex_digit(data[k] as int % 16);
    }
}

/// A name is the whole prefix, one hyphen, and two digits for each of the first 8 bytes of the
/// digest, in the order of the bytes and the high digit first.
pub proof fn law_digest_name(prefix: Seq<char>, digest: Seq<u8>)
    requires
        digest.len() >= 8,
    ensures
        digest_name(prefix, digest).len() == prefix.len() + 17,
        digest_name(prefix, digest).subrange(0, prefix.len() as int) == prefix,
        digest_name(prefix, digest)[prefix.len() as int] == '-',
        forall|k: int|
            0 <= k < 8 ==> digest_name(prefix, digest)[prefix.len() + 1 + 2 * k]
                == "0123456789abcdef"@[(#[trigger] digest[k]) as int / 16] && digest_name(
                prefix,
                digest,
            )[prefix.len() + 2 + 2 * k] == "0123456789abcdef"@[digest[k] as int % 16],
{
    reveal_strlit("-");
    let name = digest_name(prefix, digest);
    let short = digest.take(8);
    law_hex_text(short);
    assert(name.subrange(0, prefix.len() as int) =~= prefix);
    assert forall|k: int| 0 <= k < 8 implies name[prefix.len() + 1 + 2 * k]
        == "0123456789abcdef"@[(#[trigger] digest[k]) as int / 16] && name[prefix.len() + 2 + 2 * k]
        == "0123456789abcdef"@[digest[k] as int % 16] by {
        assert(short[k] == digest[k]);
        assert(name[prefix.len() + 1 + 2 * k] == hex_text(short)[2 * k]);
        assert(name[prefix.len() + 2 + 2 * k] == hex_text(short)[2 * k + 1]);
    }
}

} // verus!
