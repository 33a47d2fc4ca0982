use vstd::prelude::*;
use crate::text::{chars_of, push_char};
use vstd::utf8::encode_utf8;

verus! {

/// A 64-bit content identifier.
#[derive(Debug, Clone, Copy, PartialEq, Eq, Structural)]
pub struct Hash(pub u64);

/// The SeaHash digest of a byte sequence.
pub uninterp spec fn seahash_of(b: Seq<u8>) -> u64;

/// Relies on `seahash::hash`: the 64-bit SeaHash digest of the bytes, which
/// depends on the bytes alone.
#[verifier::external_body]
fn seahash_bytes(b: &[u8]) -> (r: u64)
    ensures
        r == seahash_of(b@),
{
    seahash::hash(b)
}

/// Relies on `rand::random`: a uniformly drawn 64-bit value.
#[verifier::external_body]
fn random_u64() -> (r: u64) {
    rand::random::<u64>()
}

/// The `n` lowest bytes of `x`, most significant first.
pub open spec fn be_bytes(x: u64, n: nat) -> Seq<u8> {
    Seq::new(n, |i: int| ((x >> ((8 * (n - 1 - i)) as u64)) & 0xffu64) as u8)
}

/// Executable form of [`be_bytes`].
pub fn be_bytes_of(x: u64, n: usize) -> (r: Vec<u8>)
    requires
        1 <= n <= 8,
    ensures
        r@ == be_bytes(x, n as nat),
{
    let mut v: Vec<u8> = Vec::new();
    let mut i: usize = 0;
    while i < n
        invariant
            1 <= n <= 8,
            i <= n,
            v@.len() == i,
            forall|j: int| 0 <= j < i ==> v@[j] == be_bytes(x, n as nat)[j],
        decreases n - i,
    {
        let shift: u64 = (8 * (n - 1 - i)) as u64;
        v.push(((x >> shift) & 0xff) as u8);
        i += 1;
    }
    assert(v@ =~= be_bytes(x, n as nat));
    v
}

/// XOR of the hash values of a sequence, folded from the left over zero.
pub open spec fn xor_all(s: Seq<Hash>) -> u64
    decreases s.len(),
{
    if s.len() == 0 {
        0
    } else {
        xor_all(s.drop_last()) ^ s.last().0
    }
}

/// The digit `i` (0 to 12, most significant first) of the textual form: the
/// 64 bits followed by one zero bit, cut into thirteen groups of five bits.
pub open spec fn b32_digit(v: u64, i: int) -> u8 {
    ((((v as u128) << 1u128) >> ((5 * (12 - i)) as u128)) & 31u128) as u8
}

/// The character of a five-bit digit in the lowercase RFC 4648 hex alphabet.
pub open spec fn b32_char(d: u8) -> char {
    if d < 10 {
        ((48 + d) as u8) as char
    } else {
        ((87 + d) as u8) as char
    }
}

/// The digit of a character of the lowercase RFC 4648 hex alphabet.
pub open spec fn b32_value(c: char) -> Option<u8> {
    if '0' <= c && c <= '9' {
        Some((c as u32 - 48) as u8)
    } else if 'a' <= c && c <= 'v' {
        Some((c as u32 - 87) as u8)
    } else {
        None
    }
}

/// The textual form of a hash: lowercase base32 (RFC 4648 hex alphabet, no
/// padding) of its eight big-endian bytes, thirteen characters.
pub open spec fn base32_text(v: u64) -> Seq<char> {
    Seq::new(13, |i: int| b32_char(b32_digit(v, i)))
}

/// The hash whose textual form is `s`, if there is one.
pub open spec fn hash_of_text(s: Seq<char>) -> Option<Hash> {
    if exists|v: u64| base32_text(v) == s {
        Some(Hash(choose|v: u64| base32_text(v) == s))
    } else {
        None
    }
}

proof fn lemma_b32_char_value(d: u8)
    requires
        d < 32,
    ensures
        b32_value(b32_char(d)) == Some(d),
{
}

proof fn lemma_digit_bound(v: u64, i: int)
    requires
        0 <= i < 13,
    ensures
        b32_digit(v, i) < 32,
{
    let x = (v as u128) << 1u128;
    let s = (5 * (12 - i)) as u128;
    assert((x >> s) & 31u128 < 32u128) by (bit_vector);
}

proof fn lemma_last_digit_even(v: u64)
    ensures
        b32_digit(v, 12) % 2 == 0,
{
    let x = v as u128;
    assert(((((x << 1u128) >> 0u128) & 31u128) as u8) % 2 == 0) by (bit_vector);
}

/// Two hashes with the same textual form are equal.
pub proof fn lemma_base32_injective(a: u64, b: u64)
    requires
        base32_text(a) == base32_text(b),
    ensures
        a == b,
{
    assert forall|i: int| 0 <= i < 13 implies b32_digit(a, i) == b32_digit(b, i) by {
        lemma_digit_bound(a, i);
        lemma_digit_bound(b, i);
        lemma_b32_char_value(b32_digit(a, i));
        lemma_b32_char_value(b32_digit(b, i));
        assert(base32_text(a)[i] == b32_char(b32_digit(a, i)));
        assert(base32_text(b)[i] == b32_char(b32_digit(b, i)));
        assert(b32_char(b32_digit(a, i)) == b32_char(b32_digit(b, i)));
    }
    let x = (a as u128) << 1u128;
    let y = (b as u128) << 1u128;
    assert(b32_digit(a, 0) == b32_digit(b, 0));
    assert(b32_digit(a, 1) == b32_digit(b, 1));
    assert(b32_digit(a, 2) == b32_digit(b, 2));
    assert(b32_digit(a, 3) == b32_digit(b, 3));
    assert(b32_digit(a, 4) == b32_digit(b, 4));
    assert(b32_digit(a, 5) == b32_digit(b, 5));
    assert(b32_digit(a, 6) == b32_digit(b, 6));
    assert(b32_digit(a, 7) == b32_digit(b, 7));
    assert(b32_digit(a, 8) == b32_digit(b, 8));
    assert(b32_digit(a, 9) == b32_digit(b, 9));
    assert(b32_digit(a, 10) == b32_digit(b, 10));
    assert(b32_digit(a, 11) == b32_digit(b, 11));
    assert(b32_digit(a, 12) == b32_digit(b, 12));
    assert(a == b) by (bit_vector)
        requires
            x == (a as u128) << 1u128,
            y == (b as u128) << 1u128,
            ((x >> 60u128) & 31u128) as u8 == ((y >> 60u128) & 31u128) as u8,
            ((x >> 55u128) & 31u128) as u8 == ((y >> 55u128) & 31u128) as u8,
            ((x >> 50u128) & 31u128) as u8 == ((y >> 50u128) & 31u128) as u8,
            ((x >> 45u128) & 31u128) as u8 == ((y >> 45u128) & 31u128) as u8,
            ((x >> 40u128) & 31u128) as u8 == ((y >> 40u128) & 31u128) as u8,
            ((x >> 35u128) & 31u128) as u8 == ((y >> 35u128) & 31u128) as u8,
            ((x >> 30u128) & 31u128) as u8 == ((y >> 30u128) & 31u128) as u8,
            ((x >> 25u128) & 31u128) as u8 == ((y >> 25u128) & 31u128) as u8,
            ((x >> 20u128) & 31u128) as u8 == ((y >> 20u128) & 31u128) as u8,
            ((x >> 15u128) & 31u128) as u8 == ((y >> 15u128) & 31u128) as u8,
            ((x >> 10u128) & 31u128) as u8 == ((y >> 10u128) & 31u128) as u8,
            ((x >> 5u128) & 31u128) as u8 == ((y >> 5u128) & 31u128) as u8,
            ((x >> 0u128) & 31u128) as u8 == ((y >> 0u128) & 31u128) as u8,
    ;
}

/// Parsing the textual form of a hash gives the hash back.
pub proof fn lemma_base32_round_trip(h: Hash)
    ensures
        hash_of_text(base32_text(h.0)) == Some(h),
{
    let s = base32_text(h.0);
    assert(base32_text(h.0) == s);
    let v = choose|v: u64| base32_text(v) == s;
    lemma_base32_injective(v, h.0);
}

impl Hash {
    /// A fresh random hash, used as a placeholder name.
    pub fn rand() -> (r: Hash) {
        Hash(random_u64())
    }

    /// Chain two hashes together by XOR.
    pub fn chain(self, other: Hash) -> (r: Hash)
        ensures
            r.0 == self.0 ^ other.0,
    {
        Hash(self.0 ^ other.0)
    }

    /// The hash of a byte slice.
    pub fn for_slice(buf: &[u8]) -> (r: Hash)
        ensures
            r.0 == seahash_of(buf@),
    {
        Hash(seahash_bytes(buf))
    }

    /// The textual form of the hash.
    pub fn to_base32(&self) -> (r: String)
        ensures
            r@ == base32_text(self.0),
    {
        let x: u128 = (self.0 as u128) << 1u128;
        let mut s = String::new();
        let mut i: usize = 0;
        while i < 13
            invariant
                x == (self.0 as u128) << 1u128,
                i <= 13,
                s@.len() == i,
                forall|j: int| 0 <= j < i ==> s@[j] == base32_text(self.0)[j],
            decreases 13 - i,
        {
            let sh: u128 = (5 * (12 - i)) as u128;
            let d: u8 = ((x >> sh) & 31u128) as u8;
            proof {
                lemma_digit_bound(self.0, i as int);
            }
            let c: char = if d < 10 {
                (48 + d) as char
            } else {
                (87 + d) as char
            };
            push_char(&mut s, c);
            i += 1;
        }
        assert(s@ =~= base32_text(self.0));
        s
    }

    /// Parse the textual form of a hash; `None` unless the text is the form
    /// of some hash.
    pub fn from_base32(text: &str) -> (r: Option<Hash>)
        ensures
            r == hash_of_text(text@),
    {
        let cs = chars_of(text);
        if cs.len() != 13 {
            assert forall|v: u64| text@ != #[trigger] base32_text(v) by {
                assert(base32_text(v).len() == 13);
            }
            return None;
        }
        let mut acc: u128 = 0;
        let mut digits: Vec<u8> = Vec::new();
        let mut i: usize = 0;
        assert(0u128 >> 0u128 == 0u128) by (bit_vector);
        while i < 13
            invariant
                cs@ == text@,
                cs@.len() == 13,
                i <= 13,
                digits@.len() == i,
                acc >> ((5 * i) as u128) == 0u128,
                forall|j: int| 0 <= j < i ==> b32_value(#[trigger] cs@[j]) == Some(digits@[j]),
                forall|j: int| 0 <= j < i ==> digits@[j] < 32,
                forall|j: int|
                    0 <= j < i ==> ((acc >> ((5 * (i - 1 - j)) as u128)) & 31u128) as u8
                        == #[trigger] digits@[j],
            decreases 13 - i,
        {
            let c = cs[i];
            let d: u8 = if '0' <= c && c <= '9' {
                (c as u32 - 48) as u8
            } else if 'a' <= c && c <= 'v' {
                (c as u32 - 87) as u8
            } else {
                assert forall|v: u64| text@ != #[trigger] base32_text(v) by {
                    if text@ == base32_text(v) {
                        lemma_digit_bound(v, i as int);
                        lemma_b32_char_value(b32_digit(v, i as int));
                    }
                }
                return None;
            };
            let old_acc = acc;
            let ghost gi = i;
            proof {
                let k = (5 * i) as u128;
                assert(old_acc >> 60u128 == 0u128 && ((old_acc << 5u128) | (d as u128)) >> (k
                    + 5u128) == 0u128 && ((old_acc << 5u128) | (d as u128)) & 31u128 == d as u128)
                    by (bit_vector)
                    requires
                        d < 32,
                        k <= 60,
                        old_acc >> k == 0u128,
                ;
            }
            acc = (acc << 5u128) | (d as u128);
            digits.push(d);
            proof {
                assert forall|j: int| 0 <= j < gi + 1 implies ((acc >> ((5 * (gi + 1 - 1 - j))
                    as u128)) & 31u128) as u8 == #[trigger] digits@[j] by {
                    if j < gi {
                        let s = (5 * (gi - 1 - j)) as u128;
                        assert(s <= 60);
                        assert(((old_acc << 5u128) | (d as u128)) >> (s + 5u128) == old_acc >> s)
                            by (bit_vector)
                            requires
                                d < 32,
                                s <= 60,
                                old_acc >> 60u128 == 0u128,
                        ;
                        assert((5 * (gi + 1 - 1 - j)) as u128 == s + 5u128);
                    } else {
                        assert((5 * (gi + 1 - 1 - j)) as u128 == 0u128);
                        assert(acc >> 0u128 == acc) by (bit_vector);
                    }
                }
                assert((5 * (gi + 1)) as u128 == (5 * gi) as u128 + 5u128);
            }
            i += 1;
        }
        if digits[12] % 2 != 0 {
            assert forall|v: u64| text@ != #[trigger] base32_text(v) by {
                if text@ == base32_text(v) {
                    lemma_digit_bound(v, 12);
                    lemma_b32_char_value(b32_digit(v, 12));
                    lemma_last_digit_even(v);
                    assert(b32_value(cs@[12]) == Some(digits@[12]));
                    assert(base32_text(v)[12] == b32_char(b32_digit(v, 12)));
                }
            }
            return None;
        }
        let v: u64 = (acc >> 1u128) as u64;
        proof {
            assert(((acc >> 0u128) & 31u128) as u8 == digits@[12]);
            assert((acc & 1u128) == 0u128) by (bit_vector)
                requires
                    ((acc >> 0u128) & 31u128) as u8 % 2 == 0,
            ;
            assert(((v as u128) << 1u128) == acc) by (bit_vector)
                requires
                    acc >> 65u128 == 0u128,
                    acc & 1u128 == 0u128,
                    v == (acc >> 1u128) as u64,
            ;
            assert forall|j: int| 0 <= j < 13 implies text@[j] == #[trigger] base32_text(v)[j] by {
                assert(b32_digit(v, j) == digits@[j]);
                assert(b32_value(cs@[j]) == Some(digits@[j]));
                assert(b32_char(digits@[j]) == cs@[j]);
            }
            assert(text@ =~= base32_text(v));
            lemma_base32_round_trip(Hash(v));
        }
        Some(Hash(v))
    }
}

/// One entry met while walking a directory: its path relative to the root,
/// and for a regular file the hash of its content.
#[derive(Debug, Clone, PartialEq, Eq)]
pub struct TreeEntry {
    pub path: Vec<u8>,
    pub content: Option<Hash>,
}

/// What one entry adds to the hash of its directory.
pub open spec fn entry_value(e: TreeEntry) -> u64 {
    seahash_of(e.path@) ^ match e.content {
        Some(h) => h.0,
        None => 0u64,
    }
}

/// XOR of the entry values of a walk, folded from the left over zero.
pub open spec fn xor_entries(s: Seq<TreeEntry>) -> u64
    decreases s.len(),
{
    if s.len() == 0 {
        0
    } else {
        xor_entries(s.drop_last()) ^ entry_value(s.last())
    }
}

/// The hash of a directory from the entries found under it.
pub fn tree_hash(entries: &[TreeEntry]) -> (r: Hash)
    ensures
        r.0 == xor_entries(entries@),
{
    let mut acc: u64 = 0;
    let mut i: usize = 0;
    while i < entries.len()
        invariant
            i <= entries@.len(),
            acc == xor_entries(entries@.subrange(0, i as int)),
        decreases entries.len() - i,
    {
        let e = &entries[i];
        let mut v: u64 = seahash_bytes(e.path.as_slice());
        match e.content {
            Some(h) => {
                v = v ^ h.0;
            },
            None => {
                assert(v ^ 0u64 == v) by (bit_vector);
            },
        }
        proof {
            assert(entries@.subrange(0, i + 1).drop_last() =~= entries@.subrange(0, i as int));
        }
        acc = acc ^ v;
        i += 1;
    }
    assert(entries@.subrange(0, entries@.len() as int) =~= entries@);
    Hash(acc)
}

proof fn lemma_xor_swap(a: u64, b: u64, c: u64)
    ensures
        (a ^ b) ^ c == (a ^ c) ^ b,
{
    assert((a ^ b) ^ c == (a ^ c) ^ b) by (bit_vector);
}

proof fn lemma_xor_remove(s: Seq<TreeEntry>, i: int)
    requires
        0 <= i < s.len(),
    ensures
        xor_entries(s) == xor_entries(s.remove(i)) ^ entry_value(s[i]),
    decreases s.len(),
{
    if i == s.len() - 1 {
        assert(s.remove(i) =~= s.drop_last());
    } else {
        let d = s.drop_last();
        lemma_xor_remove(d, i);
        assert(d.remove(i) =~= s.remove(i).drop_last());
        assert(s.remove(i).last() == s.last());
        lemma_xor_swap(xor_entries(d.remove(i)), entry_value(s[i]), entry_value(s.last()));
    }
}

/// The hash of a directory does not depend on the order in which its
/// entries were met: two walks that meet the same entries give one hash.
pub proof fn lemma_tree_hash_order_independent(a: Seq<TreeEntry>, b: Seq<TreeEntry>)
    requires
        a.to_multiset() == b.to_multiset(),
    ensures
        xor_entries(a) == xor_entries(b),
    decreases a.len(),
{
    broadcast use vstd::seq_lib::to_multiset_len, vstd::seq_lib::to_multiset_contains,
        vstd::seq_lib::to_multiset_remove;

    if a.len() == 0 {
        assert(b.to_multiset().len() == 0);
        assert(b.len() == 0);
    } else {
        let x = a.last();
        assert(a.contains(x)) by {
            assert(a[a.len() - 1] == x);
        }
        assert(a.to_multiset().count(x) > 0);
        assert(b.to_multiset().count(x) > 0);
        assert(b.contains(x));
        let i = choose|i: int| 0 <= i < b.len() && b[i] == x;
        let a2 = a.remove(a.len() - 1);
        assert(a2 =~= a.drop_last());
        let b2 = b.remove(i);
        assert(a2.to_multiset() == a.to_multiset().remove(x));
        assert(b2.to_multiset() == b.to_multiset().remove(x));
        lemma_tree_hash_order_independent(a2, b2);
        lemma_xor_remove(b, i);
    }
}

/// Custom hashing of values.
pub trait AsHash {
    /// The hash of the value.
    spec fn hash_spec(&self) -> Hash;

    /// Compute the hash of the value.
    fn hash(&self) -> (r: Hash)
        ensures
            r == self.hash_spec(),
    ;
}

impl AsHash for Hash {
    open spec fn hash_spec(&self) -> Hash {
        *self
    }

    fn hash(&self) -> (r: Hash) {
        *self
    }
}

impl AsHash for u64 {
    open spec fn hash_spec(&self) -> Hash {
        Hash(seahash_of(be_bytes(*self, 8)))
    }

    fn hash(&self) -> (r: Hash) {
        let b = be_bytes_of(*self, 8);
        Hash::for_slice(b.as_slice())
    }
}

impl AsHash for u32 {
    open spec fn hash_spec(&self) -> Hash {
        Hash(seahash_of(be_bytes(*self as u64, 4)))
    }

    fn hash(&self) -> (r: Hash) {
        let b = be_bytes_of(*self as u64, 4);
        Hash::for_slice(b.as_slice())
    }
}

impl AsHash for u16 {
    open spec fn hash_spec(&self) -> Hash {
        Hash(seahash_of(be_bytes(*self as u64, 2)))
    }

    fn hash(&self) -> (r: Hash) {
        let b = be_bytes_of(*self as u64, 2);
        Hash::for_slice(b.as_slice())
    }
}

impl AsHash for i64 {
    open spec fn hash_spec(&self) -> Hash {
        Hash(seahash_of(be_bytes(*self as u64, 8)))
    }

    fn hash(&self) -> (r: Hash) {
        let b = be_bytes_of(*self as u64, 8);
        Hash::for_slice(b.as_slice())
    }
}

impl AsHash for i32 {
    open spec fn hash_spec(&self) -> Hash {
        Hash(seahash_of(be_bytes((*self as u32) as u64, 4)))
    }

    fn hash(&self) -> (r: Hash) {
        let b = be_bytes_of((*self as u32) as u64, 4);
        Hash::for_slice(b.as_slice())
    }
}

impl AsHash for i16 {
    open spec fn hash_spec(&self) -> Hash {
        Hash(seahash_of(be_bytes((*self as u16) as u64, 2)))
    }

    fn hash(&self) -> (r: Hash) {
        let b = be_bytes_of((*self as u16) as u64, 2);
        Hash::for_slice(b.as_slice())
    }
}

impl AsHash for i8 {
    open spec fn hash_spec(&self) -> Hash {
        Hash(seahash_of(be_bytes((*self as u8) as u64, 1)))
    }

    fn hash(&self) -> (r: Hash) {
        let b = be_bytes_of((*self as u8) as u64, 1);
        Hash::for_slice(b.as_slice())
    }
}

impl AsHash for str {
    open spec fn hash_spec(&self) -> Hash {
        Hash(seahash_of(encode_utf8(self@)))
    }

    fn hash(&self) -> (r: Hash) {
        Hash::for_slice(self.as_bytes())
    }
}

impl AsHash for String {
    open spec fn hash_spec(&self) -> Hash {
        Hash(seahash_of(encode_utf8(self@)))
    }

    fn hash(&self) -> (r: Hash) {
        Hash::for_slice(self.as_str().as_bytes())
    }
}

impl AsHash for [u8] {
    open spec fn hash_spec(&self) -> Hash {
        Hash(seahash_of(self@))
    }

    fn hash(&self) -> (r: Hash) {
        Hash::for_slice(self)
    }
}

impl<T: AsHash> AsHash for Option<T> {
    open spec fn hash_spec(&self) -> Hash {
        match self {
            Some(v) => v.hash_spec(),
            None => Hash(0),
        }
    }

    fn hash(&self) -> (r: Hash) {
        match self {
            Some(v) => v.hash(),
            None => Hash(0),
        }
    }
}

/// XOR of the hashes of the items, folded from the left over zero.
pub open spec fn xor_hashes<T: AsHash>(s: Seq<T>) -> u64
    decreases s.len(),
{
    if s.len() == 0 {
        0
    } else {
        xor_hashes(s.drop_last()) ^ s.last().hash_spec().0
    }
}

impl<T: AsHash> AsHash for [T] {
    open spec fn hash_spec(&self) -> Hash {
        Hash(xor_hashes(self@))
    }

    fn hash(&self) -> (r: Hash) {
        let mut acc = Hash(0);
        let mut i: usize = 0;
        while i < self.len()
            invariant
                i <= self@.len(),
                acc.0 == xor_hashes(self@.subrange(0, i as int)),
            decreases self.len() - i,
        {
            proof {
                assert(self@.subrange(0, i + 1).drop_last() =~= self@.subrange(0, i as int));
            }
            acc = acc.chain(self[i].hash());
            i += 1;
        }
        assert(self@.subrange(0, self@.len() as int) =~= self@);
        acc
    }
}

impl<T: AsHash> AsHash for Vec<T> {
    open spec fn hash_spec(&self) -> Hash {
        Hash(xor_hashes(self@))
    }

    fn hash(&self) -> (r: Hash) {
        self.as_slice().hash()
    }
}

} // verus!
