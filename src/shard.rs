use vstd::prelude::*;
use vstd::arithmetic::power::pow;
use vstd::string::StringExecFns;

use sha2::Digest;

verus! {

/// Seed of the identifier of the catalog shard.
pub const CATALOG_SEED: u64 = 1;

/// Seed of the identifier of the catalog upgrade shard.
pub const UPGRADE_SEED: u64 = 2;

/// The SHA-256 digest of the UTF-8 encoding of `s`.
pub uninterp spec fn sha256_of(s: Seq<char>) -> Seq<u8>;

/// Relies on sha2's `Sha256::digest`: the digest of the UTF-8 bytes of `s`,
/// which is 32 bytes long.
#[verifier::external_body]
fn sha256(s: &String) -> (r: Vec<u8>)
    ensures
        r@ == sha256_of(s@),
        r@.len() == 32,
{
    sha2::Sha256::digest(s.as_bytes()).to_vec()
}

/// The lower-case hexadecimal digit of `n`, for `0 <= n < 16`.
pub open spec fn hex_digit(n: int) -> char {
    seq!['0', '1', '2', '3', '4', '5', '6', '7', '8', '9', 'a', 'b', 'c', 'd', 'e', 'f'][n]
}

/// The `d`-th of the 32 hexadecimal digits of `v`, most significant first.
pub open spec fn nibble(v: int, d: int) -> int {
    (v / pow(16, (31 - d) as nat)) % 16
}

/// The hyphenated lower-case text of the UUID whose 128 bits, most significant
/// first, are `v`: 32 digits, with a hyphen after the 8th, 12th, 16th and 20th.
pub open spec fn uuid_text(v: int) -> Seq<char> {
    Seq::new(
        36,
        |i: int|
            if i == 8 || i == 13 || i == 18 || i == 23 {
                '-'
            } else {
                let d = if i < 8 {
                    i
                } else if i < 13 {
                    i - 1
                } else if i < 18 {
                    i - 2
                } else if i < 23 {
                    i - 3
                } else {
                    i - 4
                };
                hex_digit(nibble(v, d))
            },
    )
}

/// The 128 bits of the big-endian bytes `b`.
pub open spec fn be_bits(b: Seq<u8>) -> int
    decreases b.len(),
{
    if b.len() == 0 {
        0
    } else {
        be_bits(b.drop_last()) * 256 + b.last() as int
    }
}

/// Relies on uuid's `Uuid::from_u128` and the hyphenated lower-case text that
/// its `Display` writes.
#[verifier::external_body]
fn uuid_string(v: u128) -> (r: String)
    ensures
        r@ == uuid_text(v as int),
{
    uuid::Uuid::from_u128(v).to_string()
}

/// Relies on uuid's `Uuid::from_slice`, which takes exactly 16 bytes, big-endian,
/// and the hyphenated lower-case text that its `Display` writes.
#[verifier::external_body]
fn uuid_string_from_bytes(b: &Vec<u8>) -> (r: String)
    requires
        b@.len() == 16,
    ensures
        r@ == uuid_text(be_bits(b@)),
{
    uuid::Uuid::from_slice(b.as_slice()).expect("sixteen bytes").to_string()
}

/// The decimal text of `n`, without leading zeros.
pub open spec fn decimal_text(n: nat) -> Seq<char>
    decreases n,
{
    if n < 10 {
        seq![hex_digit(n as int)]
    } else {
        decimal_text(n / 10).push(hex_digit((n % 10) as int))
    }
}

/// Relies on std's `u64::to_string`: the decimal text of `n`.
#[verifier::external_body]
fn decimal_string(n: u64) -> (r: String)
    ensures
        r@ == decimal_text(n as nat),
{
    n.to_string()
}

/// The identifier of the shard of `organization_id` for `seed`: `s` followed by
/// the UUID made of the first 16 bytes of the SHA-256 digest of the
/// organization's UUID text followed by the seed in decimal.
pub open spec fn shard_id_of(organization_id: u128, seed: u64) -> Seq<char> {
    seq!['s'] + uuid_text(
        be_bits(sha256_of(uuid_text(organization_id as int) + decimal_text(seed as nat)).take(16)),
    )
}

/// Deterministically generates the shard identifier for `organization_id`
/// and `seed`.
pub fn shard_id(organization_id: u128, seed: u64) -> (r: String)
    ensures
        r@ == shard_id_of(organization_id, seed),
{
    let mut text = uuid_string(organization_id);
    let digits = decimal_string(seed);
    text.append(digits.as_str());
    let hash = sha256(&text);
    let mut head: Vec<u8> = Vec::new();
    let mut i: usize = 0;
    while i < 16
        invariant
            i <= 16,
            hash@.len() == 32,
            head@ == hash@.take(i as int),
        decreases 16 - i,
    {
        head.push(hash[i]);
        assert(hash@.take(i as int + 1) =~= hash@.take(i as int).push(hash@[i as int]));
        i = i + 1;
    }
    let id = uuid_string_from_bytes(&head);
    let mut r = String::from_str("s");
    proof {
        reveal_strlit("s");
    }
    r.append(id.as_str());
    assert(r@ =~= seq!['s'] + id@);
    r
}

} // verus!
