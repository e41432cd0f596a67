use vstd::prelude::*;
use sha2::Digest;
use vstd::string::StringSliceAdditionalSpecFns;
use crate::variation::{variation_name, Corners, WTileVariation};

verus! {

/// The ASCII digit for `d`.
pub open spec fn digit(d: nat) -> u8 {
    (48 + d) as u8
}

/// The decimal digits of `n`, most significant first, without leading
/// zeros (`0` is one digit).
pub open spec fn decimal(n: nat) -> Seq<u8>
    decreases n,
{
    if n < 10 {
        seq![digit(n)]
    } else {
        decimal(n / 10).push(digit(n % 10))
    }
}

/// The lowercase hexadecimal digit for `d < 16`.
pub open spec fn hex_digit(d: nat) -> char {
    if d < 10 {
        (48 + d) as char
    } else {
        (87 + d) as char
    }
}

/// Two lowercase hexadecimal digits for each byte of `b`, high nibble first.
pub open spec fn hex_lower(b: Seq<u8>) -> Seq<char> {
    Seq::new(
        2 * b.len(),
        |i: int|
            if i % 2 == 0 {
                hex_digit((b[i / 2] / 16) as nat)
            } else {
                hex_digit((b[i / 2] % 16) as nat)
            },
    )
}

/// The SHA-256 digest of `data`.
pub uninterp spec fn sha256_of(data: Seq<u8>) -> Seq<u8>;

/// Relies on sha2's `Sha256::digest`: the 32-byte SHA-256 digest of `data`.
#[verifier::external_body]
fn sha256(data: &[u8]) -> (r: Vec<u8>)
    ensures
        r@ == sha256_of(data@),
        r@.len() == 32,
{
    sha2::Sha256::digest(data).to_vec()
}

/// Relies on hex's `encode`: two lowercase hexadecimal digits per byte, in
/// order.
#[verifier::external_body]
fn hex_encode(data: &[u8]) -> (r: String)
    ensures
        r@ == hex_lower(data@),
{
    hex::encode(data)
}

/// The file name, without extension, under which the entry for `key` is
/// stored: the lowercase hexadecimal SHA-256 digest of the key.
pub fn entry_name(key: &[u8]) -> (r: String)
    ensures
        r@ == hex_lower(sha256_of(key@)),
        r@.len() == 64,
{
    let digest = sha256(key);
    hex_encode(digest.as_slice())
}

/// Appends the decimal digits of `n`.
pub fn push_decimal(out: &mut Vec<u8>, n: u64)
    ensures
        final(out)@ == old(out)@ + decimal(n as nat),
    decreases n,
{
    if n >= 10 {
        push_decimal(out, n / 10);
    }
    out.push(48 + (n % 10) as u8);
    proof {
        if n >= 10 {
            assert(decimal(n as nat) == decimal((n / 10) as nat).push(digit((n % 10) as nat)));
        }
        assert(final(out)@ =~= old(out)@ + decimal(n as nat));
    }
}

/// Appends the bytes of `s`.
pub fn push_text(out: &mut Vec<u8>, s: &str)
    ensures
        final(out)@ == old(out)@ + s.spec_bytes(),
{
    let b = s.as_bytes();
    let mut i: usize = 0;
    while i < b.len()
        invariant
            i <= b@.len(),
            b@ == s.spec_bytes(),
            out@ == old(out)@ + b@.subrange(0, i as int),
        decreases b@.len() - i,
    {
        out.push(b[i]);
        assert(b@.subrange(0, i as int + 1) =~= b@.subrange(0, i as int).push(b@[i as int]));
        i = i + 1;
    }
    assert(b@.subrange(0, i as int) =~= b@);
}

/// The separator between the fields of a key.
pub open spec fn plus() -> Seq<u8> {
    seq![43u8]
}

/// The key of a tile: `"{variation}+{label}+{a}+{b}+{c}+{d}"`, where the
/// label is the input path, or `test` for the test set.
pub open spec fn tile_key_bytes(v: WTileVariation, label: Seq<u8>, t: Corners) -> Seq<u8> {
    vstd::utf8::encode_utf8(variation_name(v)) + plus() + label + plus() + decimal(t.0 as nat) + plus() + decimal(
        t.1 as nat,
    ) + plus() + decimal(t.2 as nat) + plus() + decimal(t.3 as nat)
}

/// The key of a sample: `"{w}+{h}+{path}+{id}+samples"`.
pub open spec fn sample_key_bytes(w: u32, h: u32, path: Seq<u8>, id: u64) -> Seq<u8> {
    decimal(w as nat) + plus() + decimal(h as nat) + plus() + path + plus() + decimal(id as nat) + plus() + seq![
        115u8,
        97u8,
        109u8,
        112u8,
        108u8,
        101u8,
        115u8,
    ]
}

/// The cache key of the tile with corners `t` of variation `v` built from
/// the input named `label`.
pub fn tile_key(v: WTileVariation, label: &str, t: Corners) -> (r: Vec<u8>)
    ensures
        r@ == tile_key_bytes(v, label.spec_bytes(), t),
{
    let mut r: Vec<u8> = Vec::new();
    push_text(&mut r, v.as_str());
    r.push(43);
    push_text(&mut r, label);
    r.push(43);
    push_decimal(&mut r, t.0 as u64);
    r.push(43);
    push_decimal(&mut r, t.1 as u64);
    r.push(43);
    push_decimal(&mut r, t.2 as u64);
    r.push(43);
    push_decimal(&mut r, t.3 as u64);
    assert(r@ =~= tile_key_bytes(v, label.spec_bytes(), t));
    r
}

/// The cache key of the `id`-th sample synthesised from the `w` by `h`
/// input at `path`.
pub fn sample_key(w: u32, h: u32, path: &str, id: u64) -> (r: Vec<u8>)
    ensures
        r@ == sample_key_bytes(w, h, path.spec_bytes(), id),
{
    let mut r: Vec<u8> = Vec::new();
    push_decimal(&mut r, w as u64);
    r.push(43);
    push_decimal(&mut r, h as u64);
    r.push(43);
    push_text(&mut r, path);
    r.push(43);
    push_decimal(&mut r, id);
    r.push(43);
    push_text(&mut r, "samples");
    proof {
        reveal_strlit("samples");
        assert("samples"@ =~= seq!['s', 'a', 'm', 'p', 'l', 'e', 's']);
        assert(vstd::string::is_ascii("samples"));
        vstd::string::is_ascii_spec_bytes("samples");
        assert("samples".spec_bytes() =~= seq![115u8, 97u8, 109u8, 112u8, 108u8, 101u8, 115u8]);
    }
    assert(r@ =~= sample_key_bytes(w, h, path.spec_bytes(), id));
    r
}

} // verus!
