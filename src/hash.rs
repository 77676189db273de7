use vstd::prelude::*;
use vstd::arithmetic::power2::*;
use vstd::arithmetic::div_mod::lemma_fundamental_div_mod_converse;
use sha3::Digest;

verus! {

/// Errors raised while decoding a hash from untrusted text or bytes.
#[derive(Debug, Clone, Copy, PartialEq, Eq, Structural)]
pub enum ConsensusHashError {
    InvalidFormat,
    InvalidLength,
}

/// A 32-byte SHA3-256 digest.
#[derive(Debug, Clone, Copy, Hash)]
pub struct ConsensusHash(pub [u8; 32]);

impl PartialEq for ConsensusHash {
    fn eq(&self, o: &ConsensusHash) -> (r: bool) {
        let mut i: usize = 0;
        while i < 32
            invariant
                i <= 32,
                self.0@.len() == 32,
                o.0@.len() == 32,
                forall|j: int| 0 <= j < i ==> self.0@[j] == o.0@[j],
            decreases 32 - i,
        {
            if self.0[i] != o.0[i] {
                return false;
            }
            i = i + 1;
        }
        assert(self.0@ =~= o.0@);
        true
    }
}

impl vstd::std_specs::cmp::PartialEqSpecImpl for ConsensusHash {
    open spec fn obeys_eq_spec() -> bool {
        true
    }

    open spec fn eq_spec(&self, o: &ConsensusHash) -> bool {
        self.0@ == o.0@
    }
}

impl Eq for ConsensusHash {
}

/// Big-endian unsigned value of a byte sequence.
pub open spec fn be_value(s: Seq<u8>) -> nat
    decreases s.len(),
{
    if s.len() == 0 {
        0
    } else {
        be_value(s.drop_last()) * 256 + s.last() as nat
    }
}

/// The largest hash value accepted at a difficulty: `(2^256 - 1) >> difficulty`.
pub open spec fn target(difficulty: nat) -> nat {
    ((pow2(256) - 1) as nat) / pow2(difficulty)
}

/// A hash is valid for a difficulty iff its big-endian value is at most the target.
pub open spec fn meets_target(h: Seq<u8>, difficulty: nat) -> bool {
    be_value(h) <= target(difficulty)
}

/// Number of leading zero bits of a 32-byte hash, as a numeric property.
pub open spec fn has_leading_zero_bits(h: Seq<u8>, n: nat) -> bool {
    &&& n <= 256
    &&& be_value(h) < pow2((256 - n) as nat)
    &&& n < 256 ==> be_value(h) >= pow2((255 - n) as nat)
}

/// Name for the SHA3-256 digest of a byte sequence.
pub uninterp spec fn sha3_256_of(data: Seq<u8>) -> Seq<u8>;

/// Relies on sha3::Sha3_256 (through digest::Digest::digest): the SHA3-256
/// digest of the input, 32 bytes that depend on the input alone.
#[verifier::external_body]
fn sha3_256(data: &Vec<u8>) -> (r: [u8; 32])
    ensures
        r@ == sha3_256_of(data@),
{
    sha3::Sha3_256::digest(data.as_slice()).into()
}

/// Whether a character is a hexadecimal digit of either case.
pub open spec fn is_hex_digit(c: char) -> bool {
    ('0' <= c && c <= '9') || ('a' <= c && c <= 'f') || ('A' <= c && c <= 'F')
}

/// Value of a hexadecimal digit.
pub open spec fn hex_digit_value(c: char) -> nat {
    if '0' <= c && c <= '9' {
        (c as nat - '0' as nat) as nat
    } else if 'a' <= c && c <= 'f' {
        (c as nat - 'a' as nat + 10) as nat
    } else {
        (c as nat - 'A' as nat + 10) as nat
    }
}

/// Text that decodes as hexadecimal: an even number of hex digits.
pub open spec fn is_hex_text(s: Seq<char>) -> bool {
    s.len() % 2 == 0 && forall|i: int| 0 <= i < s.len() ==> is_hex_digit(#[trigger] s[i])
}

/// Bytes of hexadecimal text, two digits per byte, high nibble first.
pub open spec fn hex_decoded(s: Seq<char>) -> Seq<u8> {
    Seq::new(
        s.len() / 2,
        |i: int| (hex_digit_value(s[2 * i]) * 16 + hex_digit_value(s[2 * i + 1])) as u8,
    )
}

/// Lowercase hexadecimal digit of a value below 16.
pub open spec fn lower_hex_digit(v: nat) -> char {
    if v < 10 {
        (('0' as nat) + v) as char
    } else {
        (('a' as nat) + v - 10) as char
    }
}

/// Lowercase hexadecimal text of bytes, two digits per byte, high nibble first.
pub open spec fn hex_lower(b: Seq<u8>) -> Seq<char> {
    Seq::new(
        2 * b.len(),
        |i: int|
            if i % 2 == 0 {
                lower_hex_digit(b[i / 2] as nat / 16)
            } else {
                lower_hex_digit(b[i / 2] as nat % 16)
            },
    )
}

/// Relies on hex::decode: it succeeds exactly on an even number of hex
/// digits of either case, and yields one byte per two digits, high nibble first.
#[verifier::external_body]
fn decode_hex(s: &str) -> (r: Option<Vec<u8>>)
    ensures
        r is Some <==> is_hex_text(s@),
        r is Some ==> r->Some_0@ == hex_decoded(s@),
{
    hex::decode(s).ok()
}

/// Relies on hex::encode: two lowercase hex digits per byte, high nibble first.
#[verifier::external_body]
fn encode_hex(b: &[u8; 32]) -> (r: String)
    ensures
        r@ == hex_lower(b@),
{
    hex::encode(b)
}

proof fn lemma_be_bound(s: Seq<u8>)
    ensures
        be_value(s) < pow2(8 * s.len()),
    decreases s.len(),
{
    if s.len() == 0 {
        lemma2_to64();
    } else {
        let t = s.drop_last();
        lemma_be_bound(t);
        let n = t.len();
        lemma_pow2_adds(8 * n, 8);
        lemma2_to64();
        assert(8 * s.len() == 8 * n + 8);
        let a = be_value(t);
        let p = pow2(8 * n);
        let x = s.last() as nat;
        assert(a * 256 + x < p * 256) by (nonlinear_arith)
            requires
                a < p,
                x < 256,
        ;
    }
}

proof fn lemma_be_split(s: Seq<u8>, i: nat)
    requires
        i <= s.len(),
    ensures
        be_value(s) == be_value(s.take(i as int)) * pow2((8 * (s.len() - i)) as nat)
            + be_value(s.skip(i as int)),
    decreases s.len(),
{
    lemma2_to64();
    if i == s.len() {
        assert(s.take(i as int) =~= s);
        assert(s.skip(i as int) =~= Seq::<u8>::empty());
        assert(be_value(s.skip(i as int)) == 0);
        assert(pow2((8 * (s.len() - i)) as nat) == 1);
    } else {
        let t = s.drop_last();
        lemma_be_split(t, i);
        assert(t.take(i as int) =~= s.take(i as int));
        assert(s.skip(i as int).drop_last() =~= t.skip(i as int));
        let k = (t.len() - i) as nat;
        lemma_pow2_adds(8 * k, 8);
        assert((8 * (s.len() - i)) as nat == 8 * k + 8);
        let a = be_value(s.take(i as int));
        let p = pow2(8 * k);
        let b = be_value(t.skip(i as int));
        let x = s.last() as nat;
        assert(be_value(s) == be_value(t) * 256 + x);
        assert(be_value(t) == a * p + b);
        assert(s.skip(i as int).last() == x);
        assert(be_value(s.skip(i as int)) == b * 256 + x);
        assert(pow2((8 * (s.len() - i)) as nat) == p * 256);
        assert((a * p + b) * 256 + x == a * (p * 256) + (b * 256 + x)) by (nonlinear_arith);
        assert(be_value(s) == a * (p * 256) + be_value(s.skip(i as int)));
    }
}

proof fn lemma_be_zero(s: Seq<u8>)
    ensures
        be_value(s) == 0 <==> (forall|j: int| 0 <= j < s.len() ==> s[j] == 0),
    decreases s.len(),
{
    if s.len() > 0 {
        let t = s.drop_last();
        lemma_be_zero(t);
        if be_value(s) == 0 {
            assert forall|j: int| 0 <= j < s.len() implies s[j] == 0 by {
                if j < t.len() {
                    assert(t[j] == s[j]);
                }
            }
        }
        if forall|j: int| 0 <= j < s.len() ==> s[j] == 0 {
            assert forall|j: int| 0 <= j < t.len() implies t[j] == 0 by {
                assert(t[j] == s[j]);
            }
        }
    }
}

proof fn lemma_threshold(x: int, a: int, m: int, b: int, c: int)
    requires
        x == a * m + b,
        0 <= b < m,
        a >= 0,
        c >= 0,
    ensures
        x < c * m <==> a < c,
{
    if a < c {
        assert(a * m + b < c * m) by (nonlinear_arith)
            requires
                a < c,
                0 <= b < m,
        ;
    } else {
        assert(a * m + b >= c * m) by (nonlinear_arith)
            requires
                a >= c,
                0 <= b,
                m > 0,
        ;
    }
}

/// Closed form of the target: `2^(256 - d) - 1`, and zero past 256.
pub proof fn lemma_target(d: nat)
    ensures
        d <= 256 ==> target(d) + 1 == pow2((256 - d) as nat),
        d > 256 ==> target(d) == 0,
{
    lemma_pow2_pos(d);
    if d <= 256 {
        let e = (256 - d) as nat;
        lemma_pow2_adds(d, e);
        lemma_pow2_pos(e);
        assert(d + e == 256);
        let pd = pow2(d) as int;
        let pe = pow2(e) as int;
        assert(pd * pe - 1 == (pe - 1) * pd + (pd - 1)) by (nonlinear_arith);
        lemma_fundamental_div_mod_converse(pd * pe - 1, pd, pe - 1, pd - 1);
    } else {
        lemma_pow2_strictly_increases(256, d);
        lemma_pow2_pos(256);
        lemma_fundamental_div_mod_converse(pow2(256) - 1, pow2(d) as int, 0, pow2(256) - 1);
    }
}

proof fn lemma_meets_target_bytes(h: Seq<u8>, d: nat)
    requires
        h.len() == 32,
        d <= 256,
    ensures
        meets_target(h, d) <==> ((forall|j: int| 0 <= j < d / 8 ==> h[j] == 0) && (d % 8 != 0
            ==> h[(d / 8) as int] < pow2((8 - d % 8) as nat))),
{
    lemma_target(d);
    lemma2_to64();
    let q = d / 8;
    let r = d % 8;
    lemma_be_zero(h.take(q as int));
    assert forall|j: int| 0 <= j < q implies h.take(q as int)[j] == h[j] by {}
    if r == 0 {
        lemma_be_split(h, q);
        lemma_be_bound(h.skip(q as int));
        let p = pow2((8 * (32 - q)) as nat);
        assert((256 - d) as nat == (8 * (32 - q)) as nat);
        lemma_threshold(
            be_value(h) as int,
            be_value(h.take(q as int)) as int,
            p as int,
            be_value(h.skip(q as int)) as int,
            1,
        );
    } else {
        let q1 = (q + 1) as nat;
        lemma_be_split(h, q1);
        lemma_be_bound(h.skip(q1 as int));
        let p = pow2((8 * (31 - q)) as nat);
        let c = pow2((8 - r) as nat);
        assert((8 * (32 - q1)) as nat == (8 * (31 - q)) as nat);
        assert((256 - d) as nat == (8 - r) as nat + (8 * (31 - q)) as nat);
        lemma_pow2_adds((8 - r) as nat, (8 * (31 - q)) as nat);
        lemma_threshold(
            be_value(h) as int,
            be_value(h.take(q1 as int)) as int,
            p as int,
            be_value(h.skip(q1 as int)) as int,
            c as int,
        );
        assert(h.take(q1 as int).drop_last() =~= h.take(q as int));
        lemma_pow2_strictly_increases((8 - r) as nat, 8);
    }
}

impl ConsensusHash {
    /// The all-zero hash.
    pub fn zero() -> (r: ConsensusHash)
        ensures
            r.0@ == Seq::new(32, |i: int| 0u8),
    {
        let r = ConsensusHash([0u8; 32]);
        assert(r.0@ =~= Seq::new(32, |i: int| 0u8));
        r
    }

    /// SHA3-256 digest of an encoded value.
    pub fn digest(data: &Vec<u8>) -> (r: ConsensusHash)
        ensures
            r.0@ == sha3_256_of(data@),
    {
        ConsensusHash(sha3_256(data))
    }

    /// Whether this hash, read as a big-endian integer, is at most
    /// `(2^256 - 1) >> difficulty`.
    pub fn meets_difficulty(&self, difficulty: u32) -> (r: bool)
        ensures
            r == meets_target(self.0@, difficulty as nat),
    {
        let d: u32 = if difficulty > 256 {
            256
        } else {
            difficulty
        };
        proof {
            lemma_target(difficulty as nat);
            lemma_target(256);
            lemma2_to64();
            assert(meets_target(self.0@, difficulty as nat) == meets_target(self.0@, d as nat));
            lemma_meets_target_bytes(self.0@, d as nat);
        }
        let q: usize = (d / 8) as usize;
        let r: u32 = d % 8;
        let mut i: usize = 0;
        while i < q
            invariant
                i <= q,
                q <= 32,
                q == d / 8,
                d <= 256,
                meets_target(self.0@, difficulty as nat) == meets_target(self.0@, d as nat),
                self.0@.len() == 32,
                forall|j: int| 0 <= j < i ==> self.0@[j] == 0,
            decreases q - i,
        {
            if self.0[i] != 0 {
                assert(self.0@[i as int] != 0);
                proof {
                    lemma_meets_target_bytes(self.0@, d as nat);
                }
                return false;
            }
            i = i + 1;
        }
        proof {
            lemma_meets_target_bytes(self.0@, d as nat);
            lemma2_to64();
        }
        if r == 0 {
            true
        } else {
            let limit: u8 = if r == 1 {
                128
            } else if r == 2 {
                64
            } else if r == 3 {
                32
            } else if r == 4 {
                16
            } else if r == 5 {
                8
            } else if r == 6 {
                4
            } else {
                2
            };
            self.0[q] < limit
        }
    }

    /// Number of leading zero bits.
    pub fn leading_zeros(&self) -> (r: u32)
        ensures
            has_leading_zero_bits(self.0@, r as nat),
    {
        proof {
            lemma_be_bound(self.0@);
            lemma_pow2_pos(0);
            lemma2_to64();
        }
        let mut n: u32 = 0;
        while n < 256 && self.meets_difficulty(n + 1)
            invariant
                n <= 256,
                be_value(self.0@) < pow2((256 - n) as nat),
            decreases 256 - n,
        {
            proof {
                lemma_target((n + 1) as nat);
            }
            n = n + 1;
        }
        proof {
            if n < 256 {
                lemma_target((n + 1) as nat);
                assert((256 - (n + 1)) as nat == (255 - n) as nat);
            }
        }
        n
    }

    /// Decodes a 32-byte hash from raw bytes.
    pub fn from_bytes(v: &Vec<u8>) -> (r: Result<ConsensusHash, ConsensusHashError>)
        ensures
            v@.len() == 32 ==> r == Ok::<ConsensusHash, ConsensusHashError>(ConsensusHash(
                r->Ok_0.0,
            )) && r->Ok_0.0@ == v@,
            v@.len() != 32 ==> r == Err::<ConsensusHash, ConsensusHashError>(
                ConsensusHashError::InvalidLength,
            ),
    {
        if v.len() != 32 {
            return Err(ConsensusHashError::InvalidLength);
        }
        let mut a: [u8; 32] = [0u8; 32];
        let mut i: usize = 0;
        while i < 32
            invariant
                i <= 32,
                v@.len() == 32,
                a@.len() == 32,
                forall|j: int| 0 <= j < i ==> a@[j] == v@[j],
            decreases 32 - i,
        {
            a.set(i, v[i]);
            i = i + 1;
        }
        assert(a@ =~= v@);
        Ok(ConsensusHash(a))
    }

    /// Decodes a hash from its hexadecimal text.
    pub fn from_hex(s: &str) -> (r: Result<ConsensusHash, ConsensusHashError>)
        ensures
            !is_hex_text(s@) ==> r == Err::<ConsensusHash, ConsensusHashError>(
                ConsensusHashError::InvalidFormat,
            ),
            is_hex_text(s@) && hex_decoded(s@).len() != 32 ==> r == Err::<
                ConsensusHash,
                ConsensusHashError,
            >(ConsensusHashError::InvalidLength),
            is_hex_text(s@) && hex_decoded(s@).len() == 32 ==> r is Ok && r->Ok_0.0@ == hex_decoded(
                s@,
            ),
    {
        match decode_hex(s) {
            Some(bytes) => ConsensusHash::from_bytes(&bytes),
            None => Err(ConsensusHashError::InvalidFormat),
        }
    }

    /// Lowercase hexadecimal text of the 32 bytes.
    pub fn to_hex(&self) -> (r: String)
        ensures
            r@ == hex_lower(self.0@),
    {
        encode_hex(&self.0)
    }
}

} // verus!
