//! Bloom filters over byte strings, and the trigram filter of a group of lines.

use vstd::prelude::*;
use vstd::string::*;
use vstd::utf8::*;

use crate::bytes::{push_bytes, push_le, read_le, slice_bytes};
use crate::text::{lowercase, push_decimal};

verus! {

/// The first four bytes of an encoded filter.
pub open spec fn magic() -> Seq<u8> {
    seq![0x42u8, 0x4cu8, 0x4du8, 0x31u8]
}

/// A set of byte strings with false positives and no false negatives: `k` bits
/// out of `num_bits` stand for each member.
pub struct BloomFilter {
    bits: Vec<u8>,
    num_bits: usize,
    k: u32,
}

// ------------------------------------------------------------------ the model
/// FNV-1a over `data`, started at `seed`.
pub open spec fn fnv1a(data: Seq<u8>, seed: u64) -> u64
    decreases data.len(),
{
    if data.len() == 0 {
        seed
    } else {
        (fnv1a(data.drop_last(), seed) ^ (data.last() as u64)).wrapping_mul(0x100000001b3)
    }
}

/// The `i`-th bit that stands for `data` in a filter of `m` bits.
pub open spec fn probe(data: Seq<u8>, i: int, m: int) -> int {
    (fnv1a(data, 0xcbf29ce484222325).wrapping_add(
        fnv1a(data, 0x517cc1b727220a95).wrapping_mul(i as u64),
    ) as usize as int) % m
}

/// Bit `j` of a byte, the least significant first.
pub open spec fn byte_bit(b: u8, j: u8) -> bool {
    b & (1u8 << j) != 0
}

/// Bit `i` of a string of bytes.
pub open spec fn bit_at(bits: Seq<u8>, i: int) -> bool {
    byte_bit(bits[i / 8], (i % 8) as u8)
}

impl BloomFilter {
    pub closed spec fn bits(&self) -> Seq<u8> {
        self.bits@
    }

    pub closed spec fn spec_num_bits(&self) -> int {
        self.num_bits as int
    }

    pub closed spec fn spec_k(&self) -> int {
        self.k as int
    }

    /// A whole number of bytes, at least one, and exactly the bits they hold.
    pub open spec fn wf(&self) -> bool {
        &&& self.spec_num_bits() > 0
        &&& self.spec_num_bits() % 8 == 0
        &&& self.spec_num_bits() <= usize::MAX
        &&& self.bits().len() * 8 == self.spec_num_bits()
        &&& 0 <= self.spec_k() <= u32::MAX
    }

    /// Whether bit `i` is set.
    pub open spec fn bit(&self, i: int) -> bool {
        bit_at(self.bits(), i)
    }

    /// Whether `data` passes: every bit that stands for it is set.
    pub open spec fn holds(&self, data: Seq<u8>) -> bool {
        forall|j: int|
            0 <= j < self.spec_k() ==> self.bit(#[trigger] probe(data, j, self.spec_num_bits()))
    }

    /// Whether bit `i` stands for `data` in this filter.
    pub open spec fn marks(&self, data: Seq<u8>, i: int) -> bool {
        exists|j: int| 0 <= j < self.spec_k() && #[trigger] probe(data, j, self.spec_num_bits()) == i
    }

    /// Whether `self` is `before` with the bits of `data` set and nothing else.
    pub open spec fn is_with(&self, before: &BloomFilter, data: Seq<u8>) -> bool {
        &&& self.spec_num_bits() == before.spec_num_bits()
        &&& self.spec_k() == before.spec_k()
        &&& forall|i: int|
            0 <= i < self.spec_num_bits() ==> (#[trigger] self.bit(i) <==> before.bit(i)
                || before.marks(data, i))
    }

    /// Whether the set bits are exactly those that stand for a member of `items`.
    pub open spec fn is_filter_of(&self, items: Set<Seq<u8>>) -> bool {
        forall|i: int|
            0 <= i < self.spec_num_bits() ==> (#[trigger] self.bit(i) <==> exists|item: Seq<u8>|
                items.contains(item) && #[trigger] self.marks(item, i))
    }

    /// The encoded form: magic, bit count, hash count, bits.
    pub open spec fn encoded(&self) -> Seq<u8> {
        magic() + crate::bytes::le_bytes((self.spec_num_bits() as u32) as nat, 4)
            + crate::bytes::le_bytes(self.spec_k() as nat, 4) + self.bits()
    }
}

proof fn byte_bit_of_or(b: u8, i: u8, j: u8)
    by (bit_vector)
    requires
        i < 8,
        j < 8,
    ensures
        ((b | (1u8 << i)) & (1u8 << j) != 0) == (i == j || b & (1u8 << j) != 0),
{
}

proof fn byte_bit_of_zero(j: u8)
    by (bit_vector)
    requires
        j < 8,
    ensures
        0u8 & (1u8 << j) == 0,
{
}

proof fn byte_bits_decide(a: u8, b: u8)
    by (bit_vector)
    requires
        (a & (1u8 << 0u8) != 0) == (b & (1u8 << 0u8) != 0),
        (a & (1u8 << 1u8) != 0) == (b & (1u8 << 1u8) != 0),
        (a & (1u8 << 2u8) != 0) == (b & (1u8 << 2u8) != 0),
        (a & (1u8 << 3u8) != 0) == (b & (1u8 << 3u8) != 0),
        (a & (1u8 << 4u8) != 0) == (b & (1u8 << 4u8) != 0),
        (a & (1u8 << 5u8) != 0) == (b & (1u8 << 5u8) != 0),
        (a & (1u8 << 6u8) != 0) == (b & (1u8 << 6u8) != 0),
        (a & (1u8 << 7u8) != 0) == (b & (1u8 << 7u8) != 0),
    ensures
        a == b,
{
}

fn fnv1a_64(data: &[u8], seed: u64) -> (h: u64)
    ensures
        h == fnv1a(data@, seed),
{
    let mut h: u64 = seed;
    let mut i: usize = 0;
    assert(data@.take(0) =~= Seq::<u8>::empty());
    while i < data.len()
        invariant
            i <= data@.len(),
            h == fnv1a(data@.take(i as int), seed),
        decreases data.len() - i,
    {
        let ghost next = data@.take(i + 1);
        assert(next.drop_last() =~= data@.take(i as int));
        h = (h ^ (data[i] as u64)).wrapping_mul(0x100000001b3);
        i = i + 1;
    }
    assert(data@.take(data@.len() as int) =~= data@);
    h
}

fn hash_pair(data: &[u8]) -> (pair: (u64, u64))
    ensures
        pair.0 == fnv1a(data@, 0xcbf29ce484222325),
        pair.1 == fnv1a(data@, 0x517cc1b727220a95),
{
    (fnv1a_64(data, 0xcbf29ce484222325), fnv1a_64(data, 0x517cc1b727220a95))
}

fn double_hash(h1: u64, h2: u64, i: u64, m: usize) -> (idx: usize)
    requires
        m > 0,
    ensures
        idx < m,
        idx == (h1.wrapping_add(h2.wrapping_mul(i)) as usize as int) % (m as int),
{
    let combined: u64 = h1.wrapping_add(h2.wrapping_mul(i));
    (combined as usize) % m
}

impl BloomFilter {
    /// An empty filter.
    pub fn new(num_bits: usize, k: u32) -> (filter: Self)
        requires
            num_bits > 0,
            num_bits % 8 == 0,
        ensures
            filter.wf(),
            filter.spec_num_bits() == num_bits,
            filter.spec_k() == k,
            forall|i: int| 0 <= i < num_bits ==> !#[trigger] filter.bit(i),
    {
        let bits: Vec<u8> = vec![0u8; num_bits / 8];
        let filter = BloomFilter { bits, num_bits, k };
        assert forall|i: int| 0 <= i < num_bits implies !#[trigger] filter.bit(i) by {
            byte_bit_of_zero((i % 8) as u8);
        }
        filter
    }

    /// Adds `data`.
    pub fn insert(&mut self, data: &[u8])
        requires
            old(self).wf(),
        ensures
            final(self).wf(),
            final(self).is_with(old(self), data@),
            final(self).holds(data@),
    {
        let (h1, h2) = hash_pair(data);
        let mut i: u32 = 0;
        while i < self.k
            invariant
                0 <= i <= self.k,
                self.wf(),
                self.spec_num_bits() == old(self).spec_num_bits(),
                self.spec_k() == old(self).spec_k(),
                h1 == fnv1a(data@, 0xcbf29ce484222325),
                h2 == fnv1a(data@, 0x517cc1b727220a95),
                forall|b: int|
                    0 <= b < self.spec_num_bits() ==> (#[trigger] self.bit(b) <==> old(self).bit(b)
                        || exists|j: int|
                        0 <= j < i && #[trigger] probe(data@, j, self.spec_num_bits()) == b),
            decreases self.k - i,
        {
            let idx: usize = double_hash(h1, h2, i as u64, self.num_bits);
            assert(idx == probe(data@, i as int, self.spec_num_bits()));
            let ghost before = *self;
            let at: usize = idx / 8;
            let byte: u8 = self.bits[at];
            let mask: u8 = 1u8 << ((idx % 8) as u8);
            self.bits.set(at, byte | mask);
            proof {
                assert forall|b: int| 0 <= b < self.spec_num_bits() implies (#[trigger] self.bit(b)
                    <==> old(self).bit(b) || exists|j: int|
                    0 <= j < i + 1 && #[trigger] probe(data@, j, self.spec_num_bits()) == b) by {
                    assert(self.bit(b) <==> before.bit(b) || b == idx) by {
                        if b / 8 == at as int {
                            byte_bit_of_or(byte, (idx % 8) as u8, (b % 8) as u8);
                        }
                    }
                    if before.bit(b) && !old(self).bit(b) {
                        let j = choose|j: int|
                            0 <= j < i && #[trigger] probe(data@, j, self.spec_num_bits()) == b;
                        assert(0 <= j < i + 1 && probe(data@, j, self.spec_num_bits()) == b);
                    }
                    if b == idx {
                        assert(probe(data@, i as int, self.spec_num_bits()) == b);
                    }
                    if exists|j: int|
                        0 <= j < i + 1 && #[trigger] probe(data@, j, self.spec_num_bits()) == b {
                        let j = choose|j: int|
                            0 <= j < i + 1 && #[trigger] probe(data@, j, self.spec_num_bits()) == b;
                        if j < i {
                            assert(before.bit(b));
                        } else {
                            assert(b == idx);
                        }
                    }
                }
            }
            i = i + 1;
        }
        proof {
            assert forall|j: int| 0 <= j < self.spec_k() implies self.bit(
                #[trigger] probe(data@, j, self.spec_num_bits()),
            ) by {
                let b = probe(data@, j, self.spec_num_bits());
                assert(0 <= b < self.spec_num_bits());
            }
        }
    }

    /// Whether `data` may have been added. Never false of something that was.
    pub fn contains(&self, data: &[u8]) -> (found: bool)
        requires
            self.wf(),
        ensures
            found == self.holds(data@),
    {
        let (h1, h2) = hash_pair(data);
        let mut i: u32 = 0;
        while i < self.k
            invariant
                0 <= i <= self.k,
                self.wf(),
                h1 == fnv1a(data@, 0xcbf29ce484222325),
                h2 == fnv1a(data@, 0x517cc1b727220a95),
                forall|j: int|
                    0 <= j < i ==> self.bit(#[trigger] probe(data@, j, self.spec_num_bits())),
            decreases self.k - i,
        {
            let idx: usize = double_hash(h1, h2, i as u64, self.num_bits);
            assert(idx == probe(data@, i as int, self.spec_num_bits()));
            if self.bits[idx / 8] & (1u8 << ((idx % 8) as u8)) == 0 {
                assert(!self.bit(probe(data@, i as int, self.spec_num_bits())));
                return false;
            }
            i = i + 1;
        }
        true
    }

    pub fn num_bits(&self) -> (n: usize)
        ensures
            n == self.spec_num_bits(),
    {
        self.num_bits
    }

    /// Bytes this filter holds in memory for as long as its part is open.
    pub fn resident_bytes(&self) -> (n: usize)
        ensures
            n == self.bits().len(),
    {
        self.bits.len()
    }

    pub fn k(&self) -> (k: u32)
        ensures
            k == self.spec_k(),
    {
        self.k
    }

    /// The filter as bytes. The bit count is written in four bytes.
    pub fn encode(&self) -> (out: Vec<u8>)
        requires
            self.wf(),
        ensures
            out@ == self.encoded(),
    {
        let mut out: Vec<u8> = Vec::new();
        out.push(0x42);
        out.push(0x4c);
        out.push(0x4d);
        out.push(0x31);
        assert(out@ =~= magic());
        push_le(&mut out, (self.num_bits as u32) as u64, 4);
        push_le(&mut out, self.k as u64, 4);
        push_bytes(&mut out, self.bits.as_slice());
        out
    }

    /// A filter out of its encoded form.
    pub fn decode(buf: &[u8]) -> (out: Result<BloomFilter, String>)
        ensures
            match out {
                Ok(filter) => decodable(buf@) && filter.wf() && filter.spec_num_bits()
                    == declared_bits(buf@) && filter.spec_k() == crate::bytes::le_value(
                    buf@.subrange(8, 12),
                ) && filter.bits() == buf@.subrange(12, buf@.len() as int),
                Err(message) => !decodable(buf@) && message@ == decode_error(buf@),
            },
    {
        if buf.len() < 12 {
            return Err("bloom buffer too short".to_owned());
        }
        proof {
            assert(buf@.subrange(0, 4)[0] == buf@[0]);
            assert(buf@.subrange(0, 4)[1] == buf@[1]);
            assert(buf@.subrange(0, 4)[2] == buf@[2]);
            assert(buf@.subrange(0, 4)[3] == buf@[3]);
        }
        if buf[0] != 0x42 || buf[1] != 0x4c || buf[2] != 0x4d || buf[3] != 0x31 {
            return Err("bloom magic mismatch".to_owned());
        }
        assert(buf@.subrange(0, 4) =~= magic());
        proof {
            crate::bytes::span_values();
        }
        let num_bits: u64 = read_le(buf, 4, 4);
        let k: u64 = read_le(buf, 8, 4);
        if num_bits == 0 || num_bits % 8 != 0 {
            let mut message = "invalid bloom num_bits ".to_owned();
            push_decimal(&mut message, num_bits);
            return Err(message);
        }
        let expected: u64 = 12 + num_bits / 8;
        if buf.len() as u64 != expected {
            let mut message = "bloom length mismatch: expected ".to_owned();
            push_decimal(&mut message, expected);
            message.append(" got ");
            push_decimal(&mut message, buf.len() as u64);
            return Err(message);
        }
        let bits = slice_bytes(buf, 12, buf.len());
        Ok(BloomFilter { bits, num_bits: num_bits as usize, k: k as u32 })
    }
}

/// The bit count that an encoded filter declares.
pub open spec fn declared_bits(buf: Seq<u8>) -> int {
    crate::bytes::le_value(buf.subrange(4, 8)) as int
}

/// Whether bytes are an encoded filter: the header is whole and carries the
/// magic, the bit count is a positive whole number of bytes, and exactly that
/// many bytes follow.
pub open spec fn decodable(buf: Seq<u8>) -> bool {
    &&& buf.len() >= 12
    &&& buf.subrange(0, 4) == magic()
    &&& declared_bits(buf) > 0
    &&& declared_bits(buf) % 8 == 0
    &&& buf.len() == 12 + declared_bits(buf) / 8
}

/// What is wrong with bytes that are no encoded filter.
pub open spec fn decode_error(buf: Seq<u8>) -> Seq<char> {
    if buf.len() < 12 {
        "bloom buffer too short"@
    } else if buf.subrange(0, 4) != magic() {
        "bloom magic mismatch"@
    } else if declared_bits(buf) == 0 || declared_bits(buf) % 8 != 0 {
        "invalid bloom num_bits "@ + crate::text::decimal(declared_bits(buf) as nat)
    } else {
        "bloom length mismatch: expected "@ + crate::text::decimal(
            (12 + declared_bits(buf) / 8) as nat,
        ) + " got "@ + crate::text::decimal(buf.len())
    }
}

// --------------------------------------------------------------------- sizing
/// `-ln(0.01) / ln(2)^2`, the bits per item of a filter that answers wrongly for
/// one absent item in a hundred, in units of `2^-56`: the rate of the line filter.
pub const LINE_BITS_PER_ITEM: u64 = 690676245386183194;

/// `ln(2)` in units of `2^-56`.
pub const LN_2: u128 = 49946518145322874;

/// `2^56`.
pub const UNIT: u128 = 72057594037927936;

/// How many bits a filter for `n` items takes: `n` times the bits per item, which
/// are in units of `2^-56`, rounded up, at least 1024, in whole bytes.
pub open spec fn optimal_bits(n: nat, bits_per_item: nat) -> nat {
    if n == 0 {
        8192
    } else {
        let m = (n * bits_per_item + UNIT as nat - 1) as nat / UNIT as nat;
        let floored = if m < 1024 {
            1024
        } else {
            m
        };
        (floored + 7) / 8 * 8
    }
}

/// How many bits a line filter of `n` trigrams takes.
pub open spec fn line_bits(n: nat) -> nat {
    optimal_bits(n, LINE_BITS_PER_ITEM as nat)
}

/// How many bits stand for one item: `m / n * ln(2)` to the nearest, between 1
/// and 16.
pub open spec fn optimal_k(m: nat, n: nat) -> nat {
    if n == 0 {
        4
    } else {
        let k = (2 * m * LN_2 as nat + n * UNIT as nat) / (2 * n * UNIT as nat);
        if k < 1 {
            1
        } else if k > 16 {
            16
        } else {
            k
        }
    }
}

fn bits_for(estimated_items: usize, bits_per_item: u64) -> (m: usize)
    requires
        estimated_items > 0,
        optimal_bits(estimated_items as nat, bits_per_item as nat) <= usize::MAX,
    ensures
        m == optimal_bits(estimated_items as nat, bits_per_item as nat),
{
    let n: u128 = estimated_items as u128;
    let product: u128 = scaled(n, bits_per_item as u128);
    assert(0xffff_ffff_ffff_ffff * bits_per_item <= 0xffff_ffff_ffff_ffff * 0xffff_ffff_ffff_ffff);
    let exact: u128 = (product + (UNIT - 1)) / UNIT;
    let floored: u128 = if exact < 1024 {
        1024
    } else {
        exact
    };
    ((floored + 7) / 8 * 8) as usize
}

fn scaled(n: u128, factor: u128) -> (product: u128)
    requires
        n <= 0xffff_ffff_ffff_ffff,
        factor <= 0xffff_ffff_ffff_ffff,
    ensures
        product == n * factor,
        product <= 0xffff_ffff_ffff_ffff * factor,
{
    assert(0 <= n * factor <= 0xffff_ffff_ffff_ffff * factor) by (nonlinear_arith)
        requires
            n <= 0xffff_ffff_ffff_ffff,
    ;
    n * factor
}

fn hashes_for(m: usize, estimated_items: usize) -> (k: u32)
    requires
        estimated_items > 0,
    ensures
        k == optimal_k(m as nat, estimated_items as nat),
{
    let bits: u128 = scaled(m as u128, LN_2);
    let items: u128 = scaled(estimated_items as u128, UNIT);
    proof {
        assert(2 * m * LN_2 == 2 * bits) by (nonlinear_arith)
            requires
                bits == m * LN_2,
        ;
        assert(2 * estimated_items * UNIT == 2 * items && items > 0) by (nonlinear_arith)
            requires
                items == estimated_items * UNIT,
                estimated_items > 0,
                UNIT > 0,
        ;
    }
    let nearest: u128 = (2 * bits + items) / (2 * items);
    if nearest < 1 {
        1
    } else if nearest > 16 {
        16
    } else {
        nearest as u32
    }
}

impl BloomFilter {
    /// An empty filter sized for `estimated_items`. `bits_per_item` stands for the
    /// rate of false positives `p`: it is `-ln(p) / ln(2)^2` in units of `2^-56`.
    pub fn with_capacity(estimated_items: usize, bits_per_item: u64) -> (filter: Self)
        requires
            optimal_bits(estimated_items as nat, bits_per_item as nat) <= usize::MAX,
        ensures
            filter.wf(),
            filter.spec_num_bits() == optimal_bits(estimated_items as nat, bits_per_item as nat),
            filter.spec_k() == optimal_k(
                optimal_bits(estimated_items as nat, bits_per_item as nat),
                estimated_items as nat,
            ),
            forall|i: int| 0 <= i < filter.spec_num_bits() ==> !#[trigger] filter.bit(i),
    {
        if estimated_items == 0 {
            return BloomFilter::new(8192, 4);
        }
        let m: usize = bits_for(estimated_items, bits_per_item);
        let k: u32 = hashes_for(m, estimated_items);
        BloomFilter::new(m, k)
    }
}

// ------------------------------------------------------------------- trigrams
/// The bytes of a text in lower case.
pub open spec fn lowered_bytes(text: Seq<char>) -> Seq<u8> {
    encode_utf8(crate::text::lowercased(text))
}

/// Every run of three consecutive bytes, in order.
pub open spec fn windows(bytes: Seq<u8>) -> Seq<Seq<u8>> {
    if bytes.len() < 3 {
        seq![]
    } else {
        Seq::new((bytes.len() - 2) as nat, |i: int| bytes.subrange(i, i + 3))
    }
}

/// The trigrams of a text.
pub open spec fn text_trigrams(text: Seq<char>) -> Seq<Seq<u8>> {
    windows(lowered_bytes(text))
}

/// The byte of an ASCII character in lower case.
pub open spec fn lowered_byte(c: char) -> u8 {
    if 'A' <= c && c <= 'Z' {
        (c as u32 + 32) as u8
    } else {
        c as u8
    }
}

/// The three bytes of an ASCII text from a place on, in lower case.
pub open spec fn ascii_run(text: Seq<char>, i: int) -> Seq<u8> {
    seq![lowered_byte(text[i]), lowered_byte(text[i + 1]), lowered_byte(text[i + 2])]
}

/// How many runs of three characters a text has.
pub open spec fn runs_of(text: Seq<char>) -> nat {
    if text.len() < 3 {
        0
    } else {
        (text.len() - 2) as nat
    }
}

proof fn ascii_trigrams(text: Seq<char>, lower: Seq<char>)
    requires
        is_ascii_chars(text),
        lower == text.map_values(|c: char| crate::text::ascii_lower(c)),
    ensures
        windows(encode_utf8(lower)).len() == runs_of(text),
        forall|i: int|
            0 <= i < runs_of(text) ==> #[trigger] windows(encode_utf8(lower))[i] == ascii_run(
                text,
                i,
            ),
{
    let bytes = encode_utf8(lower);
    assert(is_ascii_chars(lower)) by {
        assert forall|i: int| 0 <= i < lower.len() implies '\0' <= #[trigger] lower[i] <= '\u{7f}' by {
            assert('\0' <= text[i] <= '\u{7f}');
        }
    }
    is_ascii_chars_encode_utf8(lower);
    assert forall|i: int| 0 <= i < text.len() implies #[trigger] bytes[i] == lowered_byte(
        text[i],
    ) by {
        assert('\0' <= text[i] <= '\u{7f}');
        assert(lower[i] as u8 == bytes[i]);
    }
    assert forall|i: int| 0 <= i < runs_of(text) implies #[trigger] windows(bytes)[i] == ascii_run(
        text,
        i,
    ) by {
        assert(bytes.subrange(i, i + 3) =~= ascii_run(text, i));
    }
}

/// The trigrams of a text in lower case, in order, repeats kept.
pub fn trigrams(s: &str) -> (out: Vec<[u8; 3]>)
    ensures
        out@.len() == text_trigrams(s@).len(),
        forall|i: int| 0 <= i < out@.len() ==> (#[trigger] out@[i])@ == text_trigrams(s@)[i],
        is_ascii(s) ==> {
            &&& out@.len() == runs_of(s@)
            &&& forall|i: int| 0 <= i < out@.len() ==> (#[trigger] out@[i])@ == ascii_run(s@, i)
        },
{
    let lower = lowercase(s);
    let bytes = lower.as_str().as_bytes();
    proof {
        if is_ascii(s) {
            ascii_trigrams(s@, lower@);
        }
    }
    let mut out: Vec<[u8; 3]> = Vec::new();
    if bytes.len() < 3 {
        return out;
    }
    let mut i: usize = 0;
    while i < bytes.len() - 2
        invariant
            3 <= bytes@.len(),
            i <= bytes@.len() - 2,
            bytes@ == lowered_bytes(s@),
            out@.len() == i,
            forall|j: int| 0 <= j < i ==> (#[trigger] out@[j])@ == text_trigrams(s@)[j],
            is_ascii(s) ==> {
                &&& text_trigrams(s@).len() == runs_of(s@)
                &&& forall|j: int|
                    0 <= j < runs_of(s@) ==> #[trigger] text_trigrams(s@)[j] == ascii_run(s@, j)
            },
        decreases bytes.len() - i,
    {
        let trigram: [u8; 3] = [bytes[i], bytes[i + 1], bytes[i + 2]];
        assert(trigram@ =~= bytes@.subrange(i as int, i + 3));
        out.push(trigram);
        i = i + 1;
    }
    out
}

impl BloomFilter {
    /// Whether every trigram of a text passes.
    pub open spec fn admits(&self, text: Seq<char>) -> bool {
        forall|i: int|
            0 <= i < text_trigrams(text).len() ==> self.holds(#[trigger] text_trigrams(text)[i])
    }

    /// Adds every trigram of a text.
    pub fn insert_str_trigrams(&mut self, s: &str)
        requires
            old(self).wf(),
        ensures
            final(self).wf(),
            final(self).spec_num_bits() == old(self).spec_num_bits(),
            final(self).spec_k() == old(self).spec_k(),
            forall|b: int|
                0 <= b < final(self).spec_num_bits() ==> (#[trigger] final(self).bit(b) <==> old(
                    self,
                ).bit(b) || exists|i: int|
                    0 <= i < text_trigrams(s@).len() && old(self).marks(
                        #[trigger] text_trigrams(s@)[i],
                        b,
                    )),
            is_ascii(s) ==> forall|i: int|
                0 <= i < runs_of(s@) ==> final(self).holds(#[trigger] ascii_run(s@, i)),
    {
        let list = trigrams(s);
        let mut n: usize = 0;
        while n < list.len()
            invariant
                n <= list@.len(),
                list@.len() == text_trigrams(s@).len(),
                forall|i: int|
                    0 <= i < list@.len() ==> (#[trigger] list@[i])@ == text_trigrams(s@)[i],
                self.wf(),
                self.spec_num_bits() == old(self).spec_num_bits(),
                self.spec_k() == old(self).spec_k(),
                forall|b: int|
                    0 <= b < self.spec_num_bits() ==> (#[trigger] self.bit(b) <==> old(self).bit(b)
                        || exists|i: int|
                        0 <= i < n && old(self).marks(#[trigger] text_trigrams(s@)[i], b)),
            decreases list.len() - n,
        {
            let ghost before = *self;
            let trigram: [u8; 3] = list[n];
            self.insert(trigram.as_slice());
            proof {
                let t = text_trigrams(s@)[n as int];
                assert forall|b: int| 0 <= b < self.spec_num_bits() implies (#[trigger] self.bit(b)
                    <==> old(self).bit(b) || exists|i: int|
                    0 <= i < n + 1 && old(self).marks(#[trigger] text_trigrams(s@)[i], b)) by {
                    assert(before.marks(t, b) == old(self).marks(t, b));
                    assert(before.bit(b) <==> old(self).bit(b) || exists|i: int|
                        0 <= i < n && old(self).marks(#[trigger] text_trigrams(s@)[i], b));
                    if exists|i: int|
                        0 <= i < n + 1 && old(self).marks(#[trigger] text_trigrams(s@)[i], b) {
                        let i = choose|i: int|
                            0 <= i < n + 1 && old(self).marks(#[trigger] text_trigrams(s@)[i], b);
                        if i == n {
                            assert(before.marks(t, b));
                        }
                    }
                }
            }
            n = n + 1;
        }
        proof {
            if is_ascii(s) {
                assert forall|i: int| 0 <= i < runs_of(s@) implies self.holds(
                    #[trigger] ascii_run(s@, i),
                ) by {
                    let t = ascii_run(s@, i);
                    assert(list@[i]@ == t);
                    assert forall|j: int| 0 <= j < self.spec_k() implies self.bit(
                        #[trigger] probe(t, j, self.spec_num_bits()),
                    ) by {
                        let b = probe(t, j, self.spec_num_bits());
                        assert(0 <= b < self.spec_num_bits());
                        assert(old(self).marks(text_trigrams(s@)[i], b));
                    }
                }
            }
        }
    }

    /// Whether a text that holds `needle` may be among those added: false only
    /// if none can be. A needle too short for a trigram says nothing.
    pub fn might_contain_substr(&self, needle: &str) -> (found: bool)
        requires
            self.wf(),
        ensures
            found == self.admits(needle@),
            is_ascii(needle) ==> found == forall|i: int|
                0 <= i < runs_of(needle@) ==> self.holds(#[trigger] ascii_run(needle@, i)),
    {
        let list = trigrams(needle);
        let mut i: usize = 0;
        while i < list.len()
            invariant
                self.wf(),
                i <= list@.len(),
                list@.len() == text_trigrams(needle@).len(),
                forall|j: int|
                    0 <= j < list@.len() ==> (#[trigger] list@[j])@ == text_trigrams(needle@)[j],
                forall|j: int| 0 <= j < i ==> self.holds(#[trigger] text_trigrams(needle@)[j]),
                is_ascii(needle) ==> {
                    &&& list@.len() == runs_of(needle@)
                    &&& forall|j: int|
                        0 <= j < list@.len() ==> (#[trigger] list@[j])@ == ascii_run(needle@, j)
                },
            decreases list.len() - i,
        {
            let trigram: [u8; 3] = list[i];
            if !self.contains(trigram.as_slice()) {
                assert(!self.holds(text_trigrams(needle@)[i as int]));
                assert(is_ascii(needle) ==> !self.holds(ascii_run(needle@, i as int)));
                return false;
            }
            i = i + 1;
        }
        proof {
            if is_ascii(needle) {
                assert forall|j: int| 0 <= j < runs_of(needle@) implies self.holds(
                    #[trigger] ascii_run(needle@, j),
                ) by {
                    assert(list@[j]@ == text_trigrams(needle@)[j]);
                }
            }
        }
        true
    }
}

// ---------------------------------------------------------- the set of trigrams
/// Where a trigram stands in the order of all of them.
pub open spec fn index_of(trigram: Seq<u8>) -> int {
    trigram[0] as int * 65536 + trigram[1] as int * 256 + trigram[2] as int
}

/// The trigram at a place in that order.
pub open spec fn trigram_at(index: int) -> Seq<u8> {
    seq![(index / 65536) as u8, (index / 256 % 256) as u8, (index % 256) as u8]
}

/// One bit for each of the `2^24` trigrams, in words of 64.
pub const TRIGRAM_WORDS: usize = 262144;

pub const TRIGRAMS: usize = 16777216;

pub fn trigram_index(trigram: [u8; 3]) -> (index: usize)
    ensures
        index == index_of(trigram@),
        index < TRIGRAMS,
{
    trigram[0] as usize * 65536 + trigram[1] as usize * 256 + trigram[2] as usize
}

pub fn trigram_of(index: usize) -> (trigram: [u8; 3])
    requires
        index < TRIGRAMS,
    ensures
        trigram@ == trigram_at(index as int),
{
    let trigram: [u8; 3] = [(index / 65536) as u8, (index / 256 % 256) as u8, (index % 256) as u8];
    assert(trigram@ =~= trigram_at(index as int));
    trigram
}

/// Every trigram is at its own index, and every index is its trigram's.
pub proof fn trigram_round_trip(trigram: Seq<u8>, index: int)
    requires
        trigram.len() == 3,
        0 <= index < TRIGRAMS,
    ensures
        trigram_at(index_of(trigram)) == trigram,
        index_of(trigram_at(index)) == index,
        0 <= index_of(trigram) < TRIGRAMS,
{
    assert(trigram_at(index_of(trigram)) =~= trigram);
}

/// The distinct trigrams of a group of lines, gathered a line at a time.
pub struct TrigramSet {
    words: Vec<u64>,
    len: usize,
}

pub open spec fn word_bit(w: u64, j: u64) -> bool {
    w & (1u64 << j) != 0
}

proof fn word_bit_of_or(w: u64, i: u64, j: u64)
    by (bit_vector)
    requires
        i < 64,
        j < 64,
    ensures
        ((w | (1u64 << i)) & (1u64 << j) != 0) == (i == j || w & (1u64 << j) != 0),
{
}

proof fn word_bit_of_zero(j: u64)
    by (bit_vector)
    requires
        j < 64,
    ensures
        0u64 & (1u64 << j) == 0,
{
}

/// The trigrams in a set that stand before `bound` in the order of all of them.
pub open spec fn below(items: Set<Seq<u8>>, bound: int) -> Set<Seq<u8>> {
    items.filter(|t: Seq<u8>| index_of(t) < bound)
}

/// The trigrams of a group of lines.
pub open spec fn lines_trigrams(lines: Seq<Seq<char>>) -> Set<Seq<u8>>
    decreases lines.len(),
{
    if lines.len() == 0 {
        Set::empty()
    } else {
        lines_trigrams(lines.drop_last()).union(text_trigrams(lines.last()).to_set())
    }
}

impl TrigramSet {
    spec fn has(&self, index: int) -> bool {
        word_bit(self.words@[index / 64], (index % 64) as u64)
    }

    /// The trigrams gathered so far.
    pub closed spec fn trigrams(&self) -> Set<Seq<u8>> {
        Set::new(|t: Seq<u8>| t.len() == 3 && self.has(index_of(t)))
    }

    /// The count is the number of distinct trigrams.
    pub closed spec fn wf(&self) -> bool {
        &&& self.words@.len() == TRIGRAM_WORDS
        &&& self.trigrams().finite()
        &&& self.trigrams().len() == self.len
        &&& self.len <= TRIGRAMS
    }

    pub fn new() -> (set: Self)
        ensures
            set.wf(),
            set.trigrams() == Set::<Seq<u8>>::empty(),
    {
        let words: Vec<u64> = vec![0u64; TRIGRAM_WORDS];
        let set = TrigramSet { words, len: 0 };
        proof {
            assert forall|t: Seq<u8>| !#[trigger] set.trigrams().contains(t) by {
                if t.len() == 3 {
                    trigram_round_trip(t, 0);
                    word_bit_of_zero((index_of(t) % 64) as u64);
                }
            }
            assert(set.trigrams() =~= Set::<Seq<u8>>::empty());
        }
        set
    }

    fn add(&mut self, trigram: [u8; 3])
        requires
            old(self).wf(),
        ensures
            final(self).wf(),
            final(self).trigrams() == old(self).trigrams().insert(trigram@),
    {
        let index: usize = trigram_index(trigram);
        let at: usize = index / 64;
        let bit: u64 = (index % 64) as u64;
        let word: u64 = self.words[at];
        proof {
            trigram_round_trip(trigram@, index as int);
        }
        if word & (1u64 << bit) == 0 {
            proof {
                bounded(self.trigrams().insert(trigram@));
            }
            assert(!self.trigrams().contains(trigram@));
            self.words.set(at, word | (1u64 << bit));
            self.len = self.len + 1;
            proof {
                assert forall|t: Seq<u8>| #[trigger] self.trigrams().contains(t) <==> old(
                    self,
                ).trigrams().insert(trigram@).contains(t) by {
                    if t.len() == 3 {
                        trigram_round_trip(t, 0);
                        if index_of(t) / 64 == at as int {
                            word_bit_of_or(word, bit, (index_of(t) % 64) as u64);
                        }
                        if index_of(t) == index {
                            assert(trigram_at(index_of(t)) == trigram_at(index as int));
                        }
                    }
                }
                assert(self.trigrams() =~= old(self).trigrams().insert(trigram@));
            }
        } else {
            assert(self.trigrams().contains(trigram@));
            assert(self.trigrams() =~= old(self).trigrams().insert(trigram@));
        }
    }

    /// Adds the trigrams of a line.
    pub fn add_line(&mut self, line: &str)
        requires
            old(self).wf(),
        ensures
            final(self).wf(),
            final(self).trigrams() == old(self).trigrams().union(text_trigrams(line@).to_set()),
            old(self).trigrams().subset_of(final(self).trigrams()),
            is_ascii(line) ==> forall|i: int|
                0 <= i < runs_of(line@) ==> final(self).trigrams().contains(
                    #[trigger] ascii_run(line@, i),
                ),
    {
        let list = trigrams(line);
        let mut i: usize = 0;
        assert(old(self).trigrams().union(text_trigrams(line@).take(0).to_set()) =~= old(
            self,
        ).trigrams());
        while i < list.len()
            invariant
                i <= list@.len(),
                list@.len() == text_trigrams(line@).len(),
                forall|j: int|
                    0 <= j < list@.len() ==> (#[trigger] list@[j])@ == text_trigrams(line@)[j],
                self.wf(),
                self.trigrams() == old(self).trigrams().union(
                    text_trigrams(line@).take(i as int).to_set(),
                ),
            decreases list.len() - i,
        {
            self.add(list[i]);
            proof {
                let all = text_trigrams(line@);
                assert(all.take(i + 1) =~= all.take(i as int).push(all[i as int]));
                pushed_set(all.take(i as int), all[i as int]);
                assert(self.trigrams() =~= old(self).trigrams().union(all.take(i + 1).to_set()));
            }
            i = i + 1;
        }
        assert(text_trigrams(line@).take(list@.len() as int) =~= text_trigrams(line@));
        proof {
            if is_ascii(line) {
                assert forall|i: int| 0 <= i < runs_of(line@) implies self.trigrams().contains(
                    #[trigger] ascii_run(line@, i),
                ) by {
                    assert(list@[i]@ == text_trigrams(line@)[i]);
                    assert(text_trigrams(line@).to_set().contains(text_trigrams(line@)[i]));
                }
            }
        }
    }

    /// How many distinct trigrams there are.
    pub fn len(&self) -> (n: usize)
        requires
            self.wf(),
        ensures
            n == self.trigrams().len(),
    {
        self.len
    }

    pub fn is_empty(&self) -> (empty: bool)
        requires
            self.wf(),
        ensures
            empty == (self.trigrams() == Set::<Seq<u8>>::empty()),
    {
        proof {
            if self.len == 0 {
                assert(self.trigrams() =~= Set::<Seq<u8>>::empty());
            }
        }
        self.len == 0
    }

    /// A filter sized to the distinct count, holding exactly those trigrams.
    pub fn finish(&self) -> (filter: BloomFilter)
        requires
            self.wf(),
        ensures
            filter.wf(),
            filter.is_line_filter(self.trigrams()),
            forall|t: Seq<u8>| self.trigrams().contains(t) ==> #[trigger] filter.holds(t),
    {
        let items: usize = if self.len == 0 {
            1
        } else {
            self.len
        };
        proof {
            capacity_fits(items as nat);
        }
        let mut filter = BloomFilter::with_capacity(items, LINE_BITS_PER_ITEM);
        let mut index: usize = 0;
        assert(below(self.trigrams(), 0) =~= Set::<Seq<u8>>::empty()) by {
            assert forall|t: Seq<u8>| !#[trigger] below(self.trigrams(), 0).contains(t) by {
                if t.len() == 3 {
                    trigram_round_trip(t, 0);
                }
            }
        }
        while index < TRIGRAMS
            invariant
                index <= TRIGRAMS,
                self.wf(),
                filter.wf(),
                filter.spec_num_bits() == line_bits(items as nat),
                filter.spec_k() == optimal_k(line_bits(items as nat), items as nat),
                filter.is_filter_of(below(self.trigrams(), index as int)),
            decreases TRIGRAMS - index,
        {
            let word: u64 = self.words[index / 64];
            let ghost before = filter;
            let ghost t = trigram_at(index as int);
            proof {
                trigram_round_trip(t, index as int);
            }
            if word & (1u64 << ((index % 64) as u64)) != 0 {
                let trigram = trigram_of(index);
                filter.insert(trigram.as_slice());
                proof {
                    assert(self.trigrams().contains(t));
                    below_step(self.trigrams(), index as int, true);
                    grown(&before, &filter, below(self.trigrams(), index as int), t);
                }
            } else {
                proof {
                    assert(!self.trigrams().contains(t));
                    below_step(self.trigrams(), index as int, false);
                }
            }
            index = index + 1;
        }
        assert(below(self.trigrams(), TRIGRAMS as int) =~= self.trigrams()) by {
            assert forall|t: Seq<u8>| #[trigger]
                self.trigrams().contains(t) implies below(
                self.trigrams(),
                TRIGRAMS as int,
            ).contains(t) by {
                trigram_round_trip(t, 0);
            }
        }
        proof {
            assert forall|t: Seq<u8>| self.trigrams().contains(t) implies #[trigger] filter.holds(
                t,
            ) by {
                members_are_held(&filter, self.trigrams(), t);
            }
        }
        filter
    }
}

impl BloomFilter {
    /// Whether this is the filter of a set of trigrams: sized to their number,
    /// with the bits of exactly those set.
    pub open spec fn is_line_filter(&self, items: Set<Seq<u8>>) -> bool {
        let n = if items.len() == 0 {
            1
        } else {
            items.len()
        };
        &&& self.spec_num_bits() == line_bits(n)
        &&& self.spec_k() == optimal_k(line_bits(n), n)
        &&& self.is_filter_of(items)
    }
}

proof fn capacity_fits(n: nat)
    requires
        n <= TRIGRAMS,
    ensures
        line_bits(n) <= usize::MAX,
{
    assert(n * 690676245386183194 <= 16777216 * 690676245386183194) by (nonlinear_arith)
        requires
            n <= 16777216,
    ;
}

proof fn pushed_set(list: Seq<Seq<u8>>, item: Seq<u8>)
    ensures
        list.push(item).to_set() == list.to_set().insert(item),
{
    assert forall|t: Seq<u8>| #[trigger] list.push(item).to_set().contains(t) <==> list.to_set().insert(
        item,
    ).contains(t) by {
        if list.to_set().contains(t) {
            let j = choose|j: int| 0 <= j < list.len() && list[j] == t;
            assert(list.push(item)[j] == t);
        }
        if t == item {
            assert(list.push(item)[list.len() as int] == t);
        }
        if list.push(item).to_set().contains(t) {
            let j = choose|j: int| 0 <= j < list.push(item).len() && list.push(item)[j] == t;
            if j < list.len() {
                assert(list[j] == t);
            }
        }
    }
    assert(list.push(item).to_set() =~= list.to_set().insert(item));
}

/// There are no more than `2^24` trigrams.
proof fn bounded(items: Set<Seq<u8>>)
    requires
        items.finite(),
        forall|t: Seq<u8>| #[trigger] items.contains(t) ==> t.len() == 3,
    ensures
        items.len() <= TRIGRAMS,
{
    let indexes = items.map(|t: Seq<u8>| index_of(t));
    assert(vstd::relations::injective_on(|t: Seq<u8>| index_of(t), items)) by {
        assert forall|a: Seq<u8>, b: Seq<u8>|
            items.contains(a) && items.contains(b) && index_of(a) == index_of(b) implies a == b by {
            trigram_round_trip(a, 0);
            trigram_round_trip(b, 0);
        }
    }
    vstd::set_lib::lemma_map_size(items, indexes, |t: Seq<u8>| index_of(t));
    let all = vstd::set_lib::set_int_range(0, TRIGRAMS as int);
    vstd::set_lib::lemma_int_range(0, TRIGRAMS as int);
    assert(indexes.subset_of(all)) by {
        assert forall|i: int| indexes.contains(i) implies all.contains(i) by {
            let t = choose|t: Seq<u8>| items.contains(t) && index_of(t) == i;
            trigram_round_trip(t, 0);
        }
    }
    vstd::set_lib::lemma_len_subset(indexes, all);
}

proof fn below_step(items: Set<Seq<u8>>, index: int, present: bool)
    requires
        0 <= index < TRIGRAMS,
        forall|t: Seq<u8>| #[trigger] items.contains(t) ==> t.len() == 3,
        items.contains(trigram_at(index)) == present,
    ensures
        below(items, index + 1) == if present {
            below(items, index).insert(trigram_at(index))
        } else {
            below(items, index)
        },
{
    let t0 = trigram_at(index);
    trigram_round_trip(t0, index);
    let after = if present {
        below(items, index).insert(t0)
    } else {
        below(items, index)
    };
    assert forall|t: Seq<u8>| #[trigger] below(items, index + 1).contains(t) <==> after.contains(t) by {
        if items.contains(t) {
            trigram_round_trip(t, index);
            if index_of(t) == index {
                assert(t == t0);
            }
        }
    }
    assert(below(items, index + 1) =~= after);
}

/// Adding one item to the filter of a set gives the filter of the larger set.
proof fn grown(before: &BloomFilter, after: &BloomFilter, items: Set<Seq<u8>>, item: Seq<u8>)
    requires
        before.is_filter_of(items),
        after.is_with(before, item),
    ensures
        after.is_filter_of(items.insert(item)),
{
    assert forall|i: int| 0 <= i < after.spec_num_bits() implies (#[trigger] after.bit(i)
        <==> exists|t: Seq<u8>| items.insert(item).contains(t) && #[trigger] after.marks(t, i)) by {
        assert(before.bit(i) <==> exists|t: Seq<u8>|
            items.contains(t) && #[trigger] before.marks(t, i));
        if before.bit(i) {
            let t = choose|t: Seq<u8>| items.contains(t) && #[trigger] before.marks(t, i);
            assert(items.insert(item).contains(t) && after.marks(t, i));
        }
        if before.marks(item, i) {
            assert(items.insert(item).contains(item) && after.marks(item, i));
        }
        if exists|t: Seq<u8>| items.insert(item).contains(t) && #[trigger] after.marks(t, i) {
            let t = choose|t: Seq<u8>|
                items.insert(item).contains(t) && #[trigger] after.marks(t, i);
            if t == item {
                assert(before.marks(item, i));
            } else {
                assert(items.contains(t) && before.marks(t, i));
            }
        }
    }
}

/// The filter of a group of lines.
pub fn line_bloom(lines: &[&str]) -> (filter: BloomFilter)
    ensures
        filter.wf(),
        filter.is_line_filter(lines_trigrams(lines@.map_values(|line: &str| line@))),
        forall|n: int, i: int|
            0 <= n < lines@.len() && is_ascii(lines@[n]) && 0 <= i < runs_of(lines@[n]@)
                ==> filter.holds(#[trigger] ascii_run(lines@[n]@, i)),
{
    let mut set = TrigramSet::new();
    let ghost texts = lines@.map_values(|line: &str| line@);
    let mut i: usize = 0;
    assert(texts.take(0) =~= Seq::<Seq<char>>::empty());
    while i < lines.len()
        invariant
            i <= lines@.len(),
            texts == lines@.map_values(|line: &str| line@),
            set.wf(),
            set.trigrams() == lines_trigrams(texts.take(i as int)),
            forall|n: int, r: int|
                0 <= n < i && is_ascii(lines@[n]) && 0 <= r < runs_of(lines@[n]@)
                    ==> set.trigrams().contains(#[trigger] ascii_run(lines@[n]@, r)),
        decreases lines.len() - i,
    {
        let ghost before = set.trigrams();
        set.add_line(lines[i]);
        proof {
            assert forall|n: int, r: int|
                0 <= n < i + 1 && is_ascii(lines@[n]) && 0 <= r < runs_of(
                    lines@[n]@,
                ) implies set.trigrams().contains(#[trigger] ascii_run(lines@[n]@, r)) by {
                if n < i {
                    assert(before.contains(ascii_run(lines@[n]@, r)));
                }
            }
            assert(texts.take(i + 1).drop_last() =~= texts.take(i as int));
            assert(texts.take(i + 1).last() == lines@[i as int]@);
        }
        i = i + 1;
    }
    assert(texts.take(lines@.len() as int) =~= texts);
    set.finish()
}

// ------------------------------------------------------------------------ laws
/// Adding something never makes the filter forget: whatever passed still does.
pub proof fn insert_keeps_members(before: &BloomFilter, after: &BloomFilter, added: Seq<u8>, kept: Seq<u8>)
    requires
        before.wf(),
        after.is_with(before, added),
        before.holds(kept),
    ensures
        after.holds(kept),
{
    assert forall|j: int| 0 <= j < after.spec_k() implies after.bit(
        #[trigger] probe(kept, j, after.spec_num_bits()),
    ) by {
        let b = probe(kept, j, before.spec_num_bits());
        assert(before.bit(b));
        assert(0 <= b < before.spec_num_bits());
    }
}

/// The filter of a set holds every member of the set.
pub proof fn members_are_held(filter: &BloomFilter, items: Set<Seq<u8>>, item: Seq<u8>)
    requires
        filter.wf(),
        filter.is_filter_of(items),
        items.contains(item),
    ensures
        filter.holds(item),
{
    assert forall|j: int| 0 <= j < filter.spec_k() implies filter.bit(
        #[trigger] probe(item, j, filter.spec_num_bits()),
    ) by {
        let b = probe(item, j, filter.spec_num_bits());
        assert(0 <= b < filter.spec_num_bits());
        assert(filter.marks(item, b));
    }
}

/// Two filters of one size whose bits agree are the same bytes.
pub proof fn bits_decide_bytes(a: &BloomFilter, b: &BloomFilter)
    requires
        a.wf(),
        b.wf(),
        a.spec_num_bits() == b.spec_num_bits(),
        forall|i: int| 0 <= i < a.spec_num_bits() ==> #[trigger] a.bit(i) == b.bit(i),
    ensures
        a.bits() == b.bits(),
{
    assert forall|n: int| 0 <= n < a.bits().len() implies a.bits()[n] == b.bits()[n] by {
        let x = a.bits()[n];
        let y = b.bits()[n];
        assert forall|j: int| 0 <= j < 8 implies #[trigger] byte_bit(x, j as u8) == byte_bit(
            y,
            j as u8,
        ) by {
            let i = n * 8 + j;
            assert(i / 8 == n && i % 8 == j);
            assert(a.bit(i) == b.bit(i));
        }
        assert(byte_bit(x, 0int as u8) == byte_bit(y, 0int as u8));
        assert(byte_bit(x, 1int as u8) == byte_bit(y, 1int as u8));
        assert(byte_bit(x, 2int as u8) == byte_bit(y, 2int as u8));
        assert(byte_bit(x, 3int as u8) == byte_bit(y, 3int as u8));
        assert(byte_bit(x, 4int as u8) == byte_bit(y, 4int as u8));
        assert(byte_bit(x, 5int as u8) == byte_bit(y, 5int as u8));
        assert(byte_bit(x, 6int as u8) == byte_bit(y, 6int as u8));
        assert(byte_bit(x, 7int as u8) == byte_bit(y, 7int as u8));
        byte_bits_decide(x, y);
    }
    assert(a.bits() =~= b.bits());
}

/// The filter of a set does not depend on the order in which its members were
/// added, nor on how often: the same set gives the same bytes.
pub proof fn same_set_same_filter(a: &BloomFilter, b: &BloomFilter, items: Set<Seq<u8>>)
    requires
        a.wf(),
        b.wf(),
        a.spec_num_bits() == b.spec_num_bits(),
        a.spec_k() == b.spec_k(),
        a.is_filter_of(items),
        b.is_filter_of(items),
    ensures
        a.encoded() == b.encoded(),
{
    assert forall|i: int| 0 <= i < a.spec_num_bits() implies #[trigger] a.bit(i) == b.bit(i) by {
        if a.bit(i) {
            let t = choose|t: Seq<u8>| items.contains(t) && #[trigger] a.marks(t, i);
            assert(b.marks(t, i));
        }
        if b.bit(i) {
            let t = choose|t: Seq<u8>| items.contains(t) && #[trigger] b.marks(t, i);
            assert(a.marks(t, i));
        }
    }
    bits_decide_bytes(a, b);
}

/// Decoding an encoded filter gives the filter back, as long as its bit count
/// fits the four bytes it is written in.
pub proof fn decode_undoes_encode(filter: &BloomFilter)
    requires
        filter.wf(),
        filter.spec_num_bits() <= u32::MAX,
    ensures
        decodable(filter.encoded()),
        declared_bits(filter.encoded()) == filter.spec_num_bits(),
        crate::bytes::le_value(filter.encoded().subrange(8, 12)) == filter.spec_k(),
        filter.encoded().subrange(12, filter.encoded().len() as int) == filter.bits(),
{
    crate::bytes::span_values();
    let bits = (filter.spec_num_bits() as u32) as nat;
    let k = filter.spec_k() as nat;
    crate::bytes::le_round_trip(bits, 4);
    crate::bytes::le_round_trip(k, 4);
    let e = filter.encoded();
    assert(e.subrange(0, 4) =~= magic());
    assert(e.subrange(4, 8) =~= crate::bytes::le_bytes(bits, 4));
    assert(e.subrange(8, 12) =~= crate::bytes::le_bytes(k, 4));
    assert(e.subrange(12, e.len() as int) =~= filter.bits());
}

/// Whether `part` stands somewhere in `whole`, as consecutive bytes.
pub open spec fn occurs_in(part: Seq<u8>, whole: Seq<u8>) -> bool {
    exists|at: int|
        0 <= at <= whole.len() - part.len() && #[trigger] whole.subrange(at, at + part.len()) == part
}

/// No false negatives: a filter that holds the trigrams of a line never rules
/// the line out for a needle that occurs in it, both in lower case.
pub proof fn a_line_is_never_ruled_out(filter: &BloomFilter, line: Seq<char>, needle: Seq<char>)
    requires
        filter.admits(line),
        occurs_in(lowered_bytes(needle), lowered_bytes(line)),
    ensures
        filter.admits(needle),
{
    let whole = lowered_bytes(line);
    let part = lowered_bytes(needle);
    let at = choose|at: int|
        0 <= at <= whole.len() - part.len() && #[trigger] whole.subrange(at, at + part.len()) == part;
    assert forall|i: int| 0 <= i < text_trigrams(needle).len() implies filter.holds(
        #[trigger] text_trigrams(needle)[i],
    ) by {
        assert(text_trigrams(line)[at + i] =~= text_trigrams(needle)[i]) by {
            assert(part.subrange(i, i + 3) =~= whole.subrange(at + i, at + i + 3));
        }
        assert(filter.holds(text_trigrams(line)[at + i]));
    }
}

proof fn line_in_lines(lines: Seq<Seq<char>>, n: int)
    requires
        0 <= n < lines.len(),
    ensures
        text_trigrams(lines[n]).to_set().subset_of(lines_trigrams(lines)),
    decreases lines.len(),
{
    if n < lines.len() - 1 {
        line_in_lines(lines.drop_last(), n);
        assert(lines.drop_last()[n] == lines[n]);
    }
}

/// The filter of a group of lines rules none of them out for a needle that
/// occurs in it.
pub proof fn a_group_filter_finds_every_line(
    filter: &BloomFilter,
    lines: Seq<Seq<char>>,
    n: int,
    needle: Seq<char>,
)
    requires
        filter.wf(),
        filter.is_line_filter(lines_trigrams(lines)),
        0 <= n < lines.len(),
        occurs_in(lowered_bytes(needle), lowered_bytes(lines[n])),
    ensures
        filter.admits(needle),
{
    line_in_lines(lines, n);
    assert forall|i: int| 0 <= i < text_trigrams(lines[n]).len() implies filter.holds(
        #[trigger] text_trigrams(lines[n])[i],
    ) by {
        let t = text_trigrams(lines[n])[i];
        assert(text_trigrams(lines[n]).to_set().contains(t));
        members_are_held(filter, lines_trigrams(lines), t);
    }
    a_line_is_never_ruled_out(filter, lines[n], needle);
}

/// The trigrams of a text are the runs of three bytes of the text in lower case, each
/// in its place, whatever the text is: as many as begin in it with two bytes behind
/// them.
pub proof fn trigrams_are_the_runs_of_the_lowered_text(text: Seq<char>, i: int)
    requires
        0 <= i < text_trigrams(text).len(),
    ensures
        text_trigrams(text).len() + 2 == encode_utf8(crate::text::lowercased(text)).len(),
        text_trigrams(text)[i].len() == 3,
        text_trigrams(text)[i][0] == encode_utf8(crate::text::lowercased(text))[i],
        text_trigrams(text)[i][1] == encode_utf8(crate::text::lowercased(text))[i + 1],
        text_trigrams(text)[i][2] == encode_utf8(crate::text::lowercased(text))[i + 2],
{
}

/// A text has no trigrams exactly if it takes fewer than three bytes in lower case.
pub proof fn only_a_short_text_has_no_trigrams(text: Seq<char>)
    ensures
        text_trigrams(text).len() == 0 <==> encode_utf8(crate::text::lowercased(text)).len() < 3,
{
}

/// The filter of a group of lines admits a needle that stands in one of them once both
/// are in lower case, whichever line it is and wherever the needle stands in it.
pub proof fn a_group_filter_admits_what_a_line_holds(
    filter: &BloomFilter,
    lines: Seq<Seq<char>>,
    n: int,
    needle: Seq<char>,
    at: int,
)
    requires
        filter.wf(),
        filter.is_line_filter(lines_trigrams(lines)),
        0 <= n < lines.len(),
        0 <= at,
        at + encode_utf8(crate::text::lowercased(needle)).len() <= encode_utf8(
            crate::text::lowercased(lines[n]),
        ).len(),
        forall|k: int|
            0 <= k < encode_utf8(crate::text::lowercased(needle)).len() ==> #[trigger] encode_utf8(
                crate::text::lowercased(needle),
            )[k] == encode_utf8(crate::text::lowercased(lines[n]))[at + k],
    ensures
        filter.admits(needle),
        forall|i: int|
            0 <= i <= encode_utf8(crate::text::lowercased(needle)).len() - 3 ==> filter.holds(
                #[trigger] encode_utf8(crate::text::lowercased(needle)).subrange(i, i + 3),
            ),
{
    let part = lowered_bytes(needle);
    let whole = lowered_bytes(lines[n]);
    assert(whole.subrange(at, at + part.len()) =~= part);
    a_group_filter_finds_every_line(filter, lines, n, needle);
    assert forall|i: int| 0 <= i <= part.len() - 3 implies filter.holds(
        #[trigger] part.subrange(i, i + 3),
    ) by {
        assert(text_trigrams(needle)[i] == part.subrange(i, i + 3));
    }
}

/// For ASCII text the case of a letter decides nothing: if the characters of a needle
/// stand in a line from some place on, each in either case, and a filter holds the runs
/// of the line in lower case, it holds those of the needle.
pub proof fn the_case_of_ascii_decides_nothing(
    filter: &BloomFilter,
    line: Seq<char>,
    needle: Seq<char>,
    at: int,
)
    requires
        is_ascii_chars(line),
        is_ascii_chars(needle),
        0 <= at <= line.len() - needle.len(),
        forall|k: int|
            0 <= k < needle.len() ==> {
                let (a, b) = (#[trigger] needle[k] as int, line[at + k] as int);
                ||| a == b
                ||| 65 <= a <= 90 && b == a + 32
                ||| 65 <= b <= 90 && a == b + 32
            },
        forall|i: int| 0 <= i < runs_of(line) ==> filter.holds(#[trigger] ascii_run(line, i)),
    ensures
        forall|i: int| 0 <= i < runs_of(needle) ==> filter.holds(#[trigger] ascii_run(needle, i)),
{
    assert forall|k: int| 0 <= k < needle.len() implies lowered_byte(#[trigger] needle[k])
        == lowered_byte(line[at + k]) by {
        assert('\0' <= needle[k] <= '\u{7f}');
        assert('\0' <= line[at + k] <= '\u{7f}');
    }
    assert forall|i: int| 0 <= i < runs_of(needle) implies filter.holds(
        #[trigger] ascii_run(needle, i),
    ) by {
        assert(lowered_byte(needle[i]) == lowered_byte(line[at + i]));
        assert(lowered_byte(needle[i + 1]) == lowered_byte(line[at + (i + 1)]));
        assert(lowered_byte(needle[i + 2]) == lowered_byte(line[at + (i + 2)]));
        assert(ascii_run(needle, i) =~= ascii_run(line, at + i));
    }
}

/// A hash begins at its seed, and each byte is folded into it in turn.
pub proof fn a_hash_folds_in_one_byte_after_the_other(data: Seq<u8>, last: u8, seed: u64)
    ensures
        fnv1a(seq![], seed) == seed,
        fnv1a(data.push(last), seed) == (fnv1a(data, seed) ^ (last as u64)).wrapping_mul(
            1099511628211,
        ),
{
    assert(data.push(last).drop_last() =~= data);
}

/// Something passes exactly if each of the bits that stand for it is set, as many as the
/// filter gives to one item.
pub proof fn what_passes_has_all_its_bits_set(filter: &BloomFilter, data: Seq<u8>)
    requires
        filter.wf(),
    ensures
        filter.holds(data) <==> forall|j: int|
            0 <= j < filter.spec_k() ==> {
                let at = #[trigger] probe(data, j, filter.spec_num_bits());
                filter.bits()[at / 8] & (1u8 << ((at % 8) as u8)) != 0
            },
        forall|j: int|
            0 <= j < filter.spec_k() ==> 0 <= #[trigger] probe(data, j, filter.spec_num_bits())
                < filter.spec_num_bits(),
{
}

/// A filter without a bit set lets nothing pass, unless it gives an item no bit at all.
pub proof fn an_empty_filter_lets_nothing_pass(filter: &BloomFilter, data: Seq<u8>)
    requires
        filter.wf(),
        filter.spec_k() > 0,
        forall|i: int| 0 <= i < filter.spec_num_bits() ==> !#[trigger] filter.bit(i),
    ensures
        !filter.holds(data),
{
    let at = probe(data, 0, filter.spec_num_bits());
    assert(0 <= at < filter.spec_num_bits());
    assert(!filter.bit(at));
}

/// An encoded filter is the four bytes `BLM1`, how many bits it has and how many stand for
/// an item, each in four bytes with the least first, and its bits.
pub proof fn an_encoded_filter_is_laid_out_in_order(filter: &BloomFilter)
    requires
        filter.wf(),
        filter.spec_num_bits() <= u32::MAX,
    ensures
        ({
            let out = filter.encoded();
            &&& out.len() == 12 + filter.bits().len()
            &&& out[0] == 0x42 && out[1] == 0x4c && out[2] == 0x4d && out[3] == 0x31
            &&& out[4] + 256 * out[5] + 65536 * out[6] + 16777216 * out[7]
                == filter.spec_num_bits()
            &&& out[8] + 256 * out[9] + 65536 * out[10] + 16777216 * out[11] == filter.spec_k()
            &&& forall|i: int|
                0 <= i < filter.bits().len() ==> #[trigger] filter.bits()[i] == out[12 + i]
        }),
{
    let bits = filter.spec_num_bits() as nat;
    let k = filter.spec_k() as nat;
    crate::bytes::the_least_byte_comes_first(bits);
    crate::bytes::the_least_byte_comes_first(k);
    let out = filter.encoded();
    let a = crate::bytes::le_bytes(bits, 4);
    let b = crate::bytes::le_bytes(k, 4);
    assert(out[4] == a[0] && out[5] == a[1] && out[6] == a[2] && out[7] == a[3]);
    assert(out[8] == b[0] && out[9] == b[1] && out[10] == b[2] && out[11] == b[3]);
}

// ------------------------------------------------------------ sizes and bounds
/// A filter has the fewest bits that are enough: whole bytes, 1024 bits at least, and eight
/// bits fewer would not be enough for its items.
pub proof fn a_filter_has_the_fewest_bits_that_are_enough(n: nat, bits_per_item: nat)
    requires
        n > 0,
    ensures
        optimal_bits(n, bits_per_item) % 8 == 0,
        optimal_bits(n, bits_per_item) >= 1024,
        optimal_bits(n, bits_per_item) * 72_057_594_037_927_936 >= n * bits_per_item,
        optimal_bits(n, bits_per_item) > 1024 ==> (optimal_bits(n, bits_per_item) - 8)
            * 72_057_594_037_927_936 < n * bits_per_item,
{
    let product = n * bits_per_item;
    assert(product >= 0) by (nonlinear_arith)
        requires
            product == n * bits_per_item,
    ;
    let m = (product + UNIT as nat - 1) as nat / UNIT as nat;
    assert(m * 72_057_594_037_927_936 >= product);
    assert((m - 1) * 72_057_594_037_927_936 < product);
}

/// The bits of an item are `m / n * ln(2)` to the nearest, unless that is below one or
/// above sixteen.
pub proof fn an_item_has_the_nearest_number_of_bits(m: nat, n: nat)
    requires
        n > 0,
    ensures
        1 <= optimal_k(m, n) <= 16,
        optimal_k(m, n) > 1 ==> (2 * optimal_k(m, n) - 1) * (n * 72_057_594_037_927_936) <= 2 * (m
            * 49_946_518_145_322_874),
        optimal_k(m, n) < 16 ==> 2 * (m * 49_946_518_145_322_874) < (2 * optimal_k(m, n) + 1) * (n
            * 72_057_594_037_927_936),
{
    let whole = n * 72_057_594_037_927_936;
    let share = m * 49_946_518_145_322_874;
    let k = (2 * share + whole) / (2 * whole);
    assert(2 * m * LN_2 as nat == 2 * share) by (nonlinear_arith)
        requires
            share == m * 49_946_518_145_322_874,
            LN_2 == 49_946_518_145_322_874,
    ;
    assert(2 * n * UNIT as nat == 2 * whole) by (nonlinear_arith)
        requires
            whole == n * 72_057_594_037_927_936,
            UNIT == 72_057_594_037_927_936,
    ;
    assert(whole > 0);
    assert(k * (2 * whole) <= 2 * share + whole < (k + 1) * (2 * whole)) by (nonlinear_arith)
        requires
            whole > 0,
            k == (2 * share + whole) / (2 * whole),
    ;
    let least = optimal_k(m, n);
    assert((2 * k - 1) * whole == k * (2 * whole) - whole) by (nonlinear_arith);
    assert((2 * k + 1) * whole == (k + 1) * (2 * whole) - whole) by (nonlinear_arith);
    if least > k {
        assert((2 * least + 1) * whole >= (2 * k + 1) * whole) by (nonlinear_arith)
            requires
                least > k,
                whole > 0,
        ;
    }
    if least < k {
        assert((2 * least - 1) * whole <= (2 * k - 1) * whole) by (nonlinear_arith)
            requires
                least < k,
                whole > 0,
        ;
    }
}

/// The bits of a line filter are about 9.585 for each of its trigrams: between 9.585058 and
/// 9.585059.
pub proof fn a_line_filter_spends_its_bits_on_one_miss_in_a_hundred(n: nat)
    requires
        n > 0,
    ensures
        line_bits(n) * 1_000_000 >= n * 9_585_058,
        line_bits(n) > 1024 ==> (line_bits(n) - 8) * 1_000_000 < n * 9_585_059,
{
    a_filter_has_the_fewest_bits_that_are_enough(n, LINE_BITS_PER_ITEM as nat);
    let bits = line_bits(n);
    assert(bits * 1_000_000 >= n * 9_585_058) by (nonlinear_arith)
        requires
            bits * 72_057_594_037_927_936 >= n * LINE_BITS_PER_ITEM,
            LINE_BITS_PER_ITEM == 690_676_245_386_183_194,
    ;
    if bits > 1024 {
        assert((bits - 8) * 1_000_000 < n * 9_585_059) by (nonlinear_arith)
            requires
                (bits - 8) * 72_057_594_037_927_936 < n * LINE_BITS_PER_ITEM,
                LINE_BITS_PER_ITEM == 690_676_245_386_183_194,
                n > 0,
        ;
    }
}

/// Bytes that are an encoded filter are none any more once one is cut off, one is put
/// behind them, or one of the first four is another.
pub proof fn a_damaged_filter_is_refused(buf: Seq<u8>, n: int, more: Seq<u8>, i: int, other: u8)
    requires
        decodable(buf),
        0 <= n < buf.len(),
        more.len() > 0,
        0 <= i < 4,
        other != buf[i],
    ensures
        !decodable(buf.take(n)),
        !decodable(buf + more),
        !decodable(buf.update(i, other)),
{
    if n >= 12 {
        assert(buf.take(n).subrange(4, 8) =~= buf.subrange(4, 8));
    }
    assert((buf + more).subrange(4, 8) =~= buf.subrange(4, 8));
    assert(buf.subrange(0, 4)[i] == buf[i]);
    assert(buf.update(i, other).subrange(0, 4)[i] == other);
}

/// No bytes are an encoded filter of no bits, or of bits that do not fill their last byte.
pub proof fn a_filter_has_whole_bytes(buf: Seq<u8>)
    ensures
        decodable(buf) ==> buf.len() > 12 && declared_bits(buf) == 8 * (buf.len() - 12),
{
}

/// The bits of an item begin where its first hash falls, and go on in steps of its second
/// one.
pub proof fn the_bits_of_an_item_are_steps_apart(data: Seq<u8>, j: u32, m: int)
    requires
        m > 0,
    ensures
        ({
            let first = fnv1a(data, 0xcbf2_9ce4_8422_2325);
            let step = fnv1a(data, 0x517c_c1b7_2722_0a95);
            &&& probe(data, 0, m) == (first as usize) as int % m
            &&& probe(data, j as int, m) == (first.wrapping_add(
                step.wrapping_mul(j as u64),
            ) as usize) as int % m
            &&& 0 <= probe(data, j as int, m) < m
        }),
{
    let first = fnv1a(data, 0xcbf2_9ce4_8422_2325);
    let step = fnv1a(data, 0x517c_c1b7_2722_0a95);
    assert(step.wrapping_mul(0) == 0) by {
        assert(step * 0 == 0) by (nonlinear_arith);
    }
    assert(first.wrapping_add(0) == first);
}

/// Bytes that are no encoded filter are refused for the first thing that is wrong with
/// them: that they are too short for a header, then that they do not begin with the magic,
/// then the number of bits that they give, and last their length.
pub proof fn bytes_are_refused_for_what_is_wrong_first(buf: Seq<u8>)
    ensures
        buf.len() < 12 ==> decode_error(buf) == "bloom buffer too short"@,
        buf.len() >= 12 && !(buf[0] == 0x42 && buf[1] == 0x4c && buf[2] == 0x4d && buf[3] == 0x31)
            ==> decode_error(buf) == "bloom magic mismatch"@,
        buf.len() >= 12 && buf[0] == 0x42 && buf[1] == 0x4c && buf[2] == 0x4d && buf[3] == 0x31 && (
        declared_bits(buf) == 0 || declared_bits(buf) % 8 != 0) ==> decode_error(buf)
            == "invalid bloom num_bits "@ + crate::text::decimal(declared_bits(buf) as nat),
{
    if buf.len() >= 12 {
        let head = buf.subrange(0, 4);
        assert(head[0] == buf[0] && head[1] == buf[1] && head[2] == buf[2] && head[3] == buf[3]);
        if buf[0] == 0x42 && buf[1] == 0x4c && buf[2] == 0x4d && buf[3] == 0x31 {
            assert(head =~= magic());
        }
    }
}

} // verus!
