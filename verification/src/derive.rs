//! Public-key and address derivation: the compressed-point scheme interface,
//! the hash160 / Base58Check encoding pipeline, and hex codecs for private
//! and public keys.

use vstd::prelude::*;
use crate::big::Big;

verus! {

/// The SHA-256 digest of a byte sequence; a function of the input alone.
pub uninterp spec fn sha256_of(input: Seq<u8>) -> Seq<u8>;

/// The RIPEMD-160 digest of a byte sequence; a function of the input alone.
pub uninterp spec fn ripemd160_of(input: Seq<u8>) -> Seq<u8>;

/// Relies on `sha2::Sha256`: a 32-byte digest determined by the input alone.
#[verifier::external_body]
fn sha256(input: &Vec<u8>) -> (r: Vec<u8>)
    ensures
        r@ == sha256_of(input@),
        r@.len() == 32,
{
    <sha2::Sha256 as sha2::Digest>::digest(input.as_slice()).to_vec()
}

/// Relies on `ripemd::Ripemd160`: a 20-byte digest determined by the input
/// alone.
#[verifier::external_body]
fn ripemd160(input: &Vec<u8>) -> (r: Vec<u8>)
    ensures
        r@ == ripemd160_of(input@),
        r@.len() == 20,
{
    <ripemd::Ripemd160 as ripemd::Digest>::digest(input.as_slice()).to_vec()
}

/// The RIPEMD-160 digest of the SHA-256 digest: the hash a pay-to-hash
/// address is built from.
pub open spec fn hash160_of(input: Seq<u8>) -> Seq<u8> {
    ripemd160_of(sha256_of(input))
}

/// The base-58 alphabet, in digit order.
pub open spec fn b58_alphabet() -> Seq<char> {
    "123456789ABCDEFGHJKLMNPQRSTUVWXYZabcdefghijkmnopqrstuvwxyz"@
}

/// The base-58 digit character for a value below fifty-eight.
pub open spec fn b58_char(d: nat) -> char {
    b58_alphabet()[d as int]
}

/// The base-58 digit characters of a positive value, most significant first.
pub open spec fn b58_digits(n: nat) -> Seq<char>
    decreases n,
{
    if n < 58 {
        seq![b58_char(n)]
    } else {
        b58_digits(n / 58).push(b58_char(n % 58))
    }
}

/// The value of a byte sequence read big-endian.
pub open spec fn be_val(s: Seq<u8>) -> nat
    decreases s.len(),
{
    if s.len() == 0 {
        0
    } else {
        be_val(s.drop_last()) * 256 + s.last() as nat
    }
}

/// How many zero bytes the sequence starts with.
pub open spec fn leading_zeros(s: Seq<u8>) -> nat
    decreases s.len(),
{
    if s.len() == 0 || s[0] != 0 {
        0
    } else {
        1 + leading_zeros(s.skip(1))
    }
}

/// The base-58 encoding of a byte string: one `'1'` per leading zero byte,
/// then the digits of the remaining value when it is nonzero.
pub open spec fn base58_seq(bytes: Seq<u8>) -> Seq<char> {
    Seq::new(leading_zeros(bytes), |i: int| '1') + if be_val(bytes) == 0 {
        Seq::<char>::empty()
    } else {
        b58_digits(be_val(bytes))
    }
}

/// Base58Check: the payload followed by the first four bytes of its double
/// SHA-256 digest, base-58 encoded.
pub open spec fn base58check_of(payload: Seq<u8>) -> Seq<char> {
    base58_seq(payload + sha256_of(sha256_of(payload)).take(4))
}

/// The address of a serialized public key: Base58Check of a zero version
/// byte followed by the key's hash160.
pub open spec fn address_of(point: Seq<u8>) -> Seq<char> {
    base58check_of(seq![0u8] + hash160_of(point))
}

/// One base-58 digit as a string slice.
fn b58_piece(d: u64) -> (r: &'static str)
    requires
        d < 58,
    ensures
        r@ =~= seq![b58_char(d as nat)],
{
    let alpha = "123456789ABCDEFGHJKLMNPQRSTUVWXYZabcdefghijkmnopqrstuvwxyz";
    proof {
        reveal_strlit("123456789ABCDEFGHJKLMNPQRSTUVWXYZabcdefghijkmnopqrstuvwxyz");
    }
    let i = d as usize;
    let r = alpha.substring_ascii(i, i + 1);
    proof {
        assert(r@ =~= seq![b58_char(d as nat)]);
    }
    r
}

/// The base-58 digit string of a positive value.
fn b58_digits_exec(n: &Big) -> (r: String)
    requires
        n@ >= 1,
    ensures
        r@ == b58_digits(n@),
    decreases n@,
{
    let fifty_eight = Big::from_u64(58);
    let (q, rem) = n.divmod_big(&fifty_eight);
    let rem64: u64 = match rem.to_u64() {
        Some(v) => v,
        None => vstd::pervasive::unreached(),
    };
    let piece = b58_piece(rem64);
    if q.is_zero() {
        proof {
            assert(n@ < 58);
            assert(n@ % 58 == n@);
        }
        let mut s = String::new();
        s.append(piece);
        proof {
            assert(s@ =~= b58_digits(n@));
        }
        s
    } else {
        proof {
            assert(n@ >= 58) by {
                if n@ < 58 {
                    assert(n@ / 58 == 0);
                }
            }
        }
        let mut s = b58_digits_exec(&q);
        s.append(piece);
        proof {
            assert(s@ =~= b58_digits(n@));
        }
        s
    }
}

/// `leading_zeros` is the first index holding a nonzero byte.
proof fn lemma_leading_zeros_at(s: Seq<u8>, k: nat)
    requires
        k <= s.len(),
        forall|i: int| 0 <= i < k ==> s[i] == 0,
        k == s.len() || s[k as int] != 0,
    ensures
        leading_zeros(s) == k,
    decreases k,
{
    if k == 0 {
    } else {
        assert(s[0] == 0);
        lemma_leading_zeros_at(s.skip(1), (k - 1) as nat);
    }
}

/// Base-58 encoding of a byte string.
pub fn base58_encode(bytes: &Vec<u8>) -> (r: String)
    ensures
        r@ == base58_seq(bytes@),
{
    let mut lz: usize = 0;
    while lz < bytes.len() && bytes[lz] == 0
        invariant
            lz <= bytes.len(),
            forall|i: int| 0 <= i < lz ==> bytes@[i] == 0,
        decreases bytes.len() - lz,
    {
        lz = lz + 1;
    }
    proof {
        lemma_leading_zeros_at(bytes@, lz as nat);
    }
    let b256 = Big::from_u64(256);
    let mut v = Big::zero();
    let mut i: usize = 0;
    while i < bytes.len()
        invariant
            i <= bytes.len(),
            b256@ == 256,
            v@ == be_val(bytes@.take(i as int)),
        decreases bytes.len() - i,
    {
        let byte = Big::from_u64(bytes[i] as u64);
        v = v.mul_big(&b256).add_big(&byte);
        proof {
            assert(bytes@.take(i + 1).drop_last() =~= bytes@.take(i as int));
            assert(be_val(bytes@.take(i + 1)) == be_val(bytes@.take(i as int)) * 256 + bytes@[
                i as int
            ]);
        }
        i = i + 1;
    }
    proof {
        assert(bytes@.take(bytes@.len() as int) =~= bytes@);
    }
    let mut r = String::new();
    let mut j: usize = 0;
    while j < lz
        invariant
            j <= lz,
            r@ =~= Seq::new(j as nat, |i: int| '1'),
        decreases lz - j,
    {
        r.append("1");
        proof {
            reveal_strlit("1");
            assert(r@ =~= Seq::new((j + 1) as nat, |i: int| '1'));
        }
        j = j + 1;
    }
    if v.is_zero() {
        proof {
            assert(r@ =~= base58_seq(bytes@));
        }
        r
    } else {
        let digits = b58_digits_exec(&v);
        r.append(digits.as_str());
        proof {
            assert(r@ =~= base58_seq(bytes@));
        }
        r
    }
}

/// Derives the address string of a serialized public key: version byte zero,
/// hash160, four checksum bytes, base-58. The result always begins with the
/// version's `'1'`.
pub fn derive_address(point: &Vec<u8>) -> (r: String)
    ensures
        r@ == address_of(point@),
        1 <= r@.len() <= 34,
        r@[0] == '1',
{
    let h1 = sha256(point);
    let mut h2 = ripemd160(&h1);
    let mut payload: Vec<u8> = Vec::new();
    payload.push(0u8);
    payload.append(&mut h2);
    proof {
        assert(payload@ =~= seq![0u8] + hash160_of(point@));
    }
    let ghost payload_snapshot = payload@;
    let c1 = sha256(&payload);
    let c2 = sha256(&c1);
    let mut full = payload;
    full.push(c2[0]);
    full.push(c2[1]);
    full.push(c2[2]);
    full.push(c2[3]);
    proof {
        assert(full@ =~= payload_snapshot + sha256_of(sha256_of(payload_snapshot)).take(4));
    }
    let r = base58_encode(&full);
    proof {
        assert(full@[0] == 0);
        assert(leading_zeros(full@) >= 1);
        assert(r@[0] == '1');
        lemma_base58_len(full@);
    }
    r
}

/// A byte string's value is below 256 to its length.
proof fn lemma_be_val_bound(s: Seq<u8>)
    ensures
        be_val(s) < vstd::arithmetic::power::pow(256, s.len()),
    decreases s.len(),
{
    vstd::arithmetic::power::lemma_pow_positive(256, s.len());
    if s.len() == 0 {
    } else {
        lemma_be_val_bound(s.drop_last());
        let p = vstd::arithmetic::power::pow(256, (s.len() - 1) as nat);
        assert(vstd::arithmetic::power::pow(256, s.len()) == p * 256) by {
            vstd::arithmetic::power::lemma_pow_adds(256, (s.len() - 1) as nat, 1);
            vstd::arithmetic::power::lemma_pow1(256);
        }
        assert(be_val(s.drop_last()) * 256 <= (p - 1) * 256) by {
            vstd::arithmetic::mul::lemma_mul_inequality(
                be_val(s.drop_last()) as int,
                p - 1,
                256,
            );
        }
    }
}

/// A leading zero byte does not change the value.
proof fn lemma_be_val_skip_zero(s: Seq<u8>)
    requires
        s.len() >= 1,
        s[0] == 0,
    ensures
        be_val(s) == be_val(s.skip(1)),
    decreases s.len(),
{
    if s.len() == 1 {
        assert(s =~= seq![0u8]);
        assert(be_val(s) == be_val(s.drop_last()) * 256 + s.last());
    } else {
        lemma_be_val_skip_zero(s.drop_last());
        assert(s.skip(1).drop_last() =~= s.drop_last().skip(1));
        assert(s.skip(1).last() == s.last());
    }
}

/// Stripping all leading zero bytes does not change the value, and there are
/// at most as many as the string is long.
proof fn lemma_be_val_skip_leading(s: Seq<u8>)
    ensures
        leading_zeros(s) <= s.len(),
        be_val(s) == be_val(s.skip(leading_zeros(s) as int)),
    decreases s.len(),
{
    if s.len() == 0 || s[0] != 0 {
        assert(s.skip(0) =~= s);
    } else {
        lemma_be_val_skip_zero(s);
        lemma_be_val_skip_leading(s.skip(1));
        let lz = leading_zeros(s.skip(1)) as int;
        assert(s.skip(1).skip(lz) =~= s.skip(1 + lz));
    }
}

/// A positive value below 58 to the `d` has at most `d` base-58 digits.
proof fn lemma_b58_digits_len(n: nat, d: nat)
    requires
        1 <= n,
        n < vstd::arithmetic::power::pow(58, d),
    ensures
        b58_digits(n).len() <= d,
    decreases d,
{
    if n < 58 {
        if d == 0 {
            assert(vstd::arithmetic::power::pow(58, 0) == 1) by {
                vstd::arithmetic::power::lemma_pow0(58);
            }
        }
    } else {
        let p = vstd::arithmetic::power::pow(58, (d - 1) as nat);
        assert(d >= 1) by {
            if d == 0 {
                assert(vstd::arithmetic::power::pow(58, 0) == 1) by {
                vstd::arithmetic::power::lemma_pow0(58);
            }
            }
        }
        assert(vstd::arithmetic::power::pow(58, d) == p * 58) by {
            vstd::arithmetic::power::lemma_pow_adds(58, (d - 1) as nat, 1);
            vstd::arithmetic::power::lemma_pow1(58);
        }
        assert(n as int / 58 < p) by {
            vstd::arithmetic::div_mod::lemma_multiply_divide_lt(n as int, 58, p as int);
        }
        lemma_b58_digits_len(n / 58, (d - 1) as nat);
    }
}

/// 256 to the 24 is below 58 to the 33: the numeric core of the address
/// length bound. Both sides are cubes, so it reduces to one word-sized
/// comparison.
proof fn lemma_pow_base_case()
    ensures
        vstd::arithmetic::power::pow(256, 24) <= vstd::arithmetic::power::pow(58, 33),
{
    let x = vstd::arithmetic::power::pow(256, 8);
    let y = vstd::arithmetic::power::pow(58, 11);
    assert(x == 0x1_0000_0000_0000_0000) by {
        reveal_with_fuel(vstd::arithmetic::power::pow, 9);
    }
    assert(y == 24986644000165537792) by {
        reveal_with_fuel(vstd::arithmetic::power::pow, 12);
    }
    assert(vstd::arithmetic::power::pow(x, 3) == vstd::arithmetic::power::pow(256, 24)) by {
        vstd::arithmetic::power::lemma_pow_multiplies(256, 8, 3);
    }
    assert(vstd::arithmetic::power::pow(y, 3) == vstd::arithmetic::power::pow(58, 33)) by {
        vstd::arithmetic::power::lemma_pow_multiplies(58, 11, 3);
    }
    assert(vstd::arithmetic::power::pow(x, 3) == x * x * x) by {
        reveal_with_fuel(vstd::arithmetic::power::pow, 4);
    }
    assert(vstd::arithmetic::power::pow(y, 3) == y * y * y) by {
        reveal_with_fuel(vstd::arithmetic::power::pow, 4);
    }
    assert(x * x * x <= y * y * y) by (nonlinear_arith)
        requires
            0 <= x <= y,
    ;
}

/// For each count of leading zero bytes, the value of the remaining bytes of
/// a 25-byte string stays below the digit budget of a 34-character address.
proof fn lemma_pow_compare(lz: nat)
    requires
        1 <= lz <= 25,
    ensures
        vstd::arithmetic::power::pow(256, (25 - lz) as nat) <= vstd::arithmetic::power::pow(
            58,
            (34 - lz) as nat,
        ),
    decreases lz,
{
    if lz == 1 {
        lemma_pow_base_case();
    } else {
        lemma_pow_compare((lz - 1) as nat);
        let xp = vstd::arithmetic::power::pow(256, (25 - lz) as nat);
        let yp = vstd::arithmetic::power::pow(58, (34 - lz) as nat);
        assert(vstd::arithmetic::power::pow(256, (26 - lz) as nat) == xp * 256) by {
            vstd::arithmetic::power::lemma_pow_adds(256, (25 - lz) as nat, 1);
            vstd::arithmetic::power::lemma_pow1(256);
        }
        assert(vstd::arithmetic::power::pow(58, (35 - lz) as nat) == yp * 58) by {
            vstd::arithmetic::power::lemma_pow_adds(58, (34 - lz) as nat, 1);
            vstd::arithmetic::power::lemma_pow1(58);
        }
        vstd::arithmetic::power::lemma_pow_positive(58, (34 - lz) as nat);
        assert(xp * 256 <= yp * 58);
        assert(yp * 58 <= yp * 256) by (nonlinear_arith)
            requires
                yp >= 0,
        ;
    }
}

/// A 25-byte string whose first byte is zero encodes to at most 34 base-58
/// characters.
proof fn lemma_base58_len(bytes: Seq<u8>)
    requires
        bytes.len() == 25,
        bytes[0] == 0,
    ensures
        base58_seq(bytes).len() <= 34,
{
    lemma_be_val_skip_leading(bytes);
    let lz = leading_zeros(bytes);
    assert(lz >= 1);
    let v = be_val(bytes);
    if v == 0 {
    } else {
        lemma_be_val_bound(bytes.skip(lz as int));
        lemma_pow_compare(lz);
        lemma_b58_digits_len(v, (34 - lz) as nat);
    }
}

/// Whether a character belongs to the base-58 alphabet.
pub open spec fn is_b58_char(c: char) -> bool {
    exists|d: nat| d < 58 && c == b58_char(d)
}

/// Every digit character of a base-58 rendering is from the alphabet.
proof fn lemma_b58_digits_valid(n: nat)
    ensures
        forall|i: int| 0 <= i < b58_digits(n).len() ==> is_b58_char(#[trigger] b58_digits(n)[i]),
    decreases n,
{
    if n < 58 {
        assert(is_b58_char(b58_char(n)));
    } else {
        lemma_b58_digits_valid(n / 58);
        assert(is_b58_char(b58_char(n % 58)));
        assert(b58_digits(n) == b58_digits(n / 58).push(b58_char(n % 58)));
    }
}

/// The round-trip law: every valid scalar's derived address is syntactically
/// well formed — nonempty, beginning with the version's `'1'` prefix, and
/// made of base-58 alphabet characters alone.
pub proof fn lemma_address_shape(point: Seq<u8>)
    ensures
        address_of(point).len() >= 1,
        address_of(point)[0] == '1',
        forall|i: int|
            0 <= i < address_of(point).len() ==> is_b58_char(#[trigger] address_of(point)[i]),
{
    let payload = seq![0u8] + ripemd160_of(sha256_of(point));
    let full = payload + sha256_of(sha256_of(payload)).take(4);
    assert(full[0] == 0);
    assert(leading_zeros(full) >= 1);
    assert('1' == b58_char(0)) by {
        reveal_strlit("123456789ABCDEFGHJKLMNPQRSTUVWXYZabcdefghijkmnopqrstuvwxyz");
    }
    assert(is_b58_char('1'));
    lemma_b58_digits_valid(be_val(full));
}

/// The value of a hexadecimal digit character, `None` for any other
/// character; both cases are accepted.
pub open spec fn hex_digit(c: char) -> Option<nat> {
    if c == '0' {
        Some(0nat)
    } else if c == '1' {
        Some(1nat)
    } else if c == '2' {
        Some(2nat)
    } else if c == '3' {
        Some(3nat)
    } else if c == '4' {
        Some(4nat)
    } else if c == '5' {
        Some(5nat)
    } else if c == '6' {
        Some(6nat)
    } else if c == '7' {
        Some(7nat)
    } else if c == '8' {
        Some(8nat)
    } else if c == '9' {
        Some(9nat)
    } else if c == 'a' || c == 'A' {
        Some(10nat)
    } else if c == 'b' || c == 'B' {
        Some(11nat)
    } else if c == 'c' || c == 'C' {
        Some(12nat)
    } else if c == 'd' || c == 'D' {
        Some(13nat)
    } else if c == 'e' || c == 'E' {
        Some(14nat)
    } else if c == 'f' || c == 'F' {
        Some(15nat)
    } else {
        None
    }
}

/// A nonempty string of hexadecimal digits.
pub open spec fn is_hex_seq(s: Seq<char>) -> bool {
    s.len() >= 1 && forall|i: int| 0 <= i < s.len() ==> (#[trigger] hex_digit(s[i])) is Some
}

/// The big-endian value of a hexadecimal digit string.
pub open spec fn hex_val(s: Seq<char>) -> nat
    decreases s.len(),
{
    if s.len() == 0 {
        0
    } else {
        hex_val(s.drop_last()) * 16 + match hex_digit(s.last()) {
            Some(d) => d,
            None => 0,
        }
    }
}

/// One hexadecimal digit's value, as a value.
fn hex_digit_exec(c: char) -> (r: Option<u64>)
    ensures
        r is Some <==> hex_digit(c) is Some,
        r is Some ==> r->0 as nat == hex_digit(c)->0,
{
    match c {
        '0' => Some(0),
        '1' => Some(1),
        '2' => Some(2),
        '3' => Some(3),
        '4' => Some(4),
        '5' => Some(5),
        '6' => Some(6),
        '7' => Some(7),
        '8' => Some(8),
        '9' => Some(9),
        'a' | 'A' => Some(10),
        'b' | 'B' => Some(11),
        'c' | 'C' => Some(12),
        'd' | 'D' => Some(13),
        'e' | 'E' => Some(14),
        'f' | 'F' => Some(15),
        _ => None,
    }
}

/// Parses a big-endian hexadecimal scalar; `None` exactly when the string is
/// empty or holds a non-hexadecimal character.
pub fn parse_hex_scalar(hex: &str) -> (r: Option<Big>)
    ensures
        r is Some <==> is_hex_seq(hex@),
        r is Some ==> r->0@ == hex_val(hex@),
{
    let len = hex.unicode_len();
    if len == 0 {
        return None;
    }
    let sixteen = Big::from_u64(16);
    let mut acc = Big::zero();
    let mut i: usize = 0;
    while i < len
        invariant
            i <= len,
            len == hex@.len(),
            sixteen@ == 16,
            acc@ == hex_val(hex@.take(i as int)),
            forall|t: int| 0 <= t < i ==> (#[trigger] hex_digit(hex@[t])) is Some,
        decreases len - i,
    {
        let c = hex.get_char(i);
        let d = match hex_digit_exec(c) {
            Some(d) => d,
            None => {
                return None;
            },
        };
        acc = acc.mul_big(&sixteen).add_big(&Big::from_u64(d));
        proof {
            assert(hex@.take(i + 1).drop_last() =~= hex@.take(i as int));
            assert(hex@.take(i + 1).last() == hex@[i as int]);
        }
        i = i + 1;
    }
    proof {
        assert(hex@.take(len as int) =~= hex@);
    }
    Some(acc)
}

/// The lowercase hexadecimal digit character for a value below sixteen.
pub open spec fn hex_char(d: nat) -> char {
    "0123456789abcdef"@[d as int]
}

/// The lowercase hexadecimal rendering of a byte string, two digits a byte.
pub open spec fn hex_of(bytes: Seq<u8>) -> Seq<char>
    decreases bytes.len(),
{
    if bytes.len() == 0 {
        Seq::<char>::empty()
    } else {
        hex_of(bytes.drop_last()) + seq![
            hex_char((bytes.last() / 16) as nat),
            hex_char((bytes.last() % 16) as nat),
        ]
    }
}

/// One lowercase hexadecimal digit as a string slice.
fn hex_piece(d: u64) -> (r: &'static str)
    requires
        d < 16,
    ensures
        r@ =~= seq![hex_char(d as nat)],
{
    let alpha = "0123456789abcdef";
    proof {
        reveal_strlit("0123456789abcdef");
    }
    let i = d as usize;
    let r = alpha.substring_ascii(i, i + 1);
    proof {
        assert(r@ =~= seq![hex_char(d as nat)]);
    }
    r
}

/// Renders a byte string in lowercase hexadecimal.
pub fn to_hex(bytes: &Vec<u8>) -> (r: String)
    ensures
        r@ == hex_of(bytes@),
{
    let mut r = String::new();
    let mut i: usize = 0;
    while i < bytes.len()
        invariant
            i <= bytes.len(),
            r@ == hex_of(bytes@.take(i as int)),
        decreases bytes.len() - i,
    {
        let b = bytes[i];
        let hi = hex_piece((b / 16) as u64);
        let lo = hex_piece((b % 16) as u64);
        r.append(hi);
        r.append(lo);
        proof {
            assert(bytes@.take(i + 1).drop_last() =~= bytes@.take(i as int));
            assert(r@ =~= hex_of(bytes@.take(i + 1)));
        }
        i = i + 1;
    }
    proof {
        assert(bytes@.take(bytes@.len() as int) =~= bytes@);
    }
    r
}

/// A source of compressed public keys: the curve-arithmetic capability the
/// search engine is parameterized by. An implementation fixes the scalar
/// order and, for each valid scalar, the 33-byte compressed serialization of
/// the scalar's public point.
pub trait PointScheme: Sized {
    /// The order of the scalar group; valid private keys lie strictly
    /// between zero and this.
    spec fn order_spec(&self) -> nat;

    /// The compressed public-key bytes of a valid scalar.
    spec fn point_spec(&self, k: nat) -> Seq<u8>;

    /// The order, as a value.
    fn curve_order(&self) -> (r: Big)
        ensures
            r@ == self.order_spec(),
    ;

    /// Scalar multiplication of the base point: the compressed public key of
    /// `k`.
    fn derive_point(&self, k: &Big) -> (r: Vec<u8>)
        requires
            1 <= k@ < self.order_spec(),
        ensures
            r@ == self.point_spec(k@),
            r@.len() == 33,
    ;
}

/// The address a scheme gives to a scalar.
pub open spec fn scheme_address<S: PointScheme>(scheme: &S, k: nat) -> Seq<char> {
    address_of(scheme.point_spec(k))
}

/// A scalar outside `[1, order-1]` cannot be turned into a public key.
#[derive(Clone, Copy, Debug, PartialEq, Eq, Structural)]
pub enum KeyError {
    InvalidScalar,
}

/// The compressed public key of a private-key scalar; `InvalidScalar` exactly
/// when the scalar is zero or not below the curve order.
pub fn derive_public_key<S: PointScheme>(scheme: &S, private_key: &Big) -> (r: Result<
    Vec<u8>,
    KeyError,
>)
    ensures
        r is Ok <==> 1 <= private_key@ < scheme.order_spec(),
        r is Ok ==> r->Ok_0@ == scheme.point_spec(private_key@) && r->Ok_0@.len() == 33,
        r is Err ==> r->Err_0 == KeyError::InvalidScalar,
{
    if private_key.is_zero() {
        return Err(KeyError::InvalidScalar);
    }
    let order = scheme.curve_order();
    if order.le_big(private_key) {
        return Err(KeyError::InvalidScalar);
    }
    Ok(scheme.derive_point(private_key))
}

/// The compressed public key, in hexadecimal, of a private key given as a
/// hexadecimal string; `None` exactly when the string is not well-formed hex
/// or its value lies outside `[1, order-1]`.
pub fn derive_public_key_by_private_key_hex<S: PointScheme>(scheme: &S, hex: &str) -> (r: Option<
    String,
>)
    ensures
        r is Some <==> is_hex_seq(hex@) && 1 <= hex_val(hex@) < scheme.order_spec(),
        r is Some ==> r->0@ == hex_of(scheme.point_spec(hex_val(hex@))),
{
    let scalar = match parse_hex_scalar(hex) {
        Some(s) => s,
        None => {
            return None;
        },
    };
    match derive_public_key(scheme, &scalar) {
        Ok(point) => Some(to_hex(&point)),
        Err(_) => None,
    }
}

} // verus!
