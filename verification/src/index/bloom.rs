//! Per-file Bloom filters: a fast "does file X mention identifier Y?" test.
//!
//! A filter can say "no" for certain and "maybe" otherwise. Identifiers are
//! taken from file content by a small state machine that skips string
//! literals and comments.

use dashmap::DashMap;
use std::collections::hash_map::DefaultHasher;
use std::hash::{Hash, Hasher};
use vstd::prelude::*;
use vstd::std_specs::hash::DefaultHasherAdditionalSpecFns;

use crate::paths::{normal_form, normalize};
use crate::text::{slice_chars, string_of, string_views, to_chars};

verus! {

// ---------------------------------------------------------------------------
// Hashing
// ---------------------------------------------------------------------------

/// What `<u64 as Hash>::hash` writes into a hasher for `value`, by the
/// standard library that the program is built with.
pub uninterp spec fn hashed_u64(value: u64) -> Seq<Seq<u8>>;

/// What `<str as Hash>::hash` writes into a hasher for `value`, by the
/// standard library that the program is built with.
pub uninterp spec fn hashed_str(value: Seq<char>) -> Seq<Seq<u8>>;

/// Calls `<u64 as Hash>::hash`. Claimed: what is written depends on the value
/// alone, and is added after what the hasher already holds.
#[verifier::external_body]
fn feed_u64(hasher: &mut DefaultHasher, value: u64)
    ensures
        final(hasher)@ == old(hasher)@ + hashed_u64(value),
{
    value.hash(hasher);
}

/// Calls `<str as Hash>::hash`. Claimed: what is written depends on the
/// characters alone, and is added after what the hasher already holds.
#[verifier::external_body]
fn feed_str(hasher: &mut DefaultHasher, value: &str)
    ensures
        final(hasher)@ == old(hasher)@ + hashed_str(value@),
{
    value.hash(hasher);
}

/// The second seed of the double hash.
pub const SECOND_SEED: u64 = 0x517c_c1b7_2722_0a95;

/// The hash of `item` under `seed`.
pub open spec fn seeded_hash(item: Seq<char>, seed: u64) -> u64 {
    DefaultHasher::spec_finish(hashed_u64(seed) + hashed_str(item))
}

/// Hashes `item` with a fresh default hasher that was fed `seed` first.
pub fn hash_with_seed(item: &str, seed: u64) -> (h: u64)
    ensures
        h == seeded_hash(item@, seed),
{
    let mut hasher = DefaultHasher::new();
    feed_u64(&mut hasher, seed);
    feed_str(&mut hasher, item);
    assert(Seq::<Seq<u8>>::empty() + hashed_u64(seed) + hashed_str(item@) =~= hashed_u64(seed)
        + hashed_str(item@));
    hasher.finish()
}

/// The two base hashes of `item`.
pub fn double_hash(item: &str) -> (h: (u64, u64))
    ensures
        h.0 == seeded_hash(item@, 0),
        h.1 == seeded_hash(item@, SECOND_SEED),
{
    let h1 = hash_with_seed(item, 0);
    let h2 = hash_with_seed(item, SECOND_SEED);
    (h1, h2)
}

/// The `i`-th probe position: `h1 + i * h2`, wrapped to 64 bits, modulo `num_bits`.
pub open spec fn probe(h1: u64, h2: u64, i: u64, num_bits: nat) -> int {
    (((h1 as int + ((i as int * h2 as int) % 0x1_0000_0000_0000_0000)) % 0x1_0000_0000_0000_0000)
        % (num_bits as int))
}

/// Combines the two base hashes into the `i`-th probe position.
pub fn combined_hash(h1: u64, h2: u64, i: u64, num_bits: usize) -> (idx: usize)
    requires
        num_bits > 0,
    ensures
        idx == probe(h1, h2, i, num_bits as nat),
        idx < num_bits,
{
    let hash = h1.wrapping_add(i.wrapping_mul(h2));
    let idx = hash % (num_bits as u64);
    proof {
        let prod = i.wrapping_mul(h2);
        assert(prod as int == (i as int * h2 as int) % 0x1_0000_0000_0000_0000) by {
            vstd::arithmetic::div_mod::lemma_mod_bound(
                i as int * h2 as int,
                0x1_0000_0000_0000_0000,
            );
        }
    }
    idx as usize
}

// ---------------------------------------------------------------------------
// BloomFilter
// ---------------------------------------------------------------------------

/// The mathematical content of a Bloom filter: which bits are set, how many
/// bits there are, and how many probes each item takes.
pub struct BloomView {
    pub bits: Set<int>,
    pub num_bits: nat,
    pub num_hashes: nat,
}

impl BloomView {
    /// The filter of the given shape with no bit set.
    pub open spec fn empty(num_bits: nat, num_hashes: nat) -> BloomView {
        BloomView { bits: Set::empty(), num_bits, num_hashes }
    }

    /// The bit positions that `item` probes.
    pub open spec fn probes(self, item: Seq<char>) -> Set<int> {
        Set::new(
            |idx: int|
                exists|i: u64|
                    i < self.num_hashes && idx == #[trigger] probe(
                        seeded_hash(item, 0),
                        seeded_hash(item, SECOND_SEED),
                        i,
                        self.num_bits,
                    ),
        )
    }

    /// The filter after `item` was inserted: its probes are set as well.
    pub open spec fn insert(self, item: Seq<char>) -> BloomView {
        BloomView {
            bits: self.bits.union(self.probes(item)),
            num_bits: self.num_bits,
            num_hashes: self.num_hashes,
        }
    }

    /// The answer of the filter for `item`: all of its probes are set.
    pub open spec fn contains(self, item: Seq<char>) -> bool {
        self.probes(item).subset_of(self.bits)
    }

    /// The filter after every item of `items` was inserted, in order.
    pub open spec fn insert_all(self, items: Seq<Seq<char>>) -> BloomView
        decreases items.len(),
    {
        if items.len() == 0 {
            self
        } else {
            self.insert_all(items.drop_last()).insert(items.last())
        }
    }
}

/// No false negatives: right after an item was inserted, the filter answers
/// "maybe present" for it.
pub proof fn lemma_inserted_is_contained(filter: BloomView, item: Seq<char>)
    ensures
        filter.insert(item).contains(item),
{
    assert(filter.insert(item).probes(item) =~= filter.probes(item));
}

/// Inserting never removes: an item that the filter answers "maybe present"
/// for keeps that answer after any other insertion.
pub proof fn lemma_insert_keeps_members(filter: BloomView, member: Seq<char>, item: Seq<char>)
    requires
        filter.contains(member),
    ensures
        filter.insert(item).contains(member),
{
    assert(filter.insert(item).probes(member) =~= filter.probes(member));
}

/// No false negatives over a whole run of insertions: every item of `items`
/// is answered "maybe present" once all of them have been inserted.
pub proof fn lemma_all_inserted_are_contained(filter: BloomView, items: Seq<Seq<char>>, k: int)
    requires
        0 <= k < items.len(),
    ensures
        filter.insert_all(items).contains(items[k]),
    decreases items.len(),
{
    let before = filter.insert_all(items.drop_last());
    if k == items.len() - 1 {
        lemma_inserted_is_contained(before, items.last());
    } else {
        lemma_all_inserted_are_contained(filter, items.drop_last(), k);
        lemma_insert_keeps_members(before, items[k], items.last());
    }
}

/// Whether bit `idx` is set in a bit array stored as 64-bit words.
pub open spec fn bit_at(words: Seq<u64>, idx: int) -> bool {
    0 <= idx < words.len() * 64 && (words[idx / 64] & (1u64 << ((idx % 64) as u64))) != 0
}

/// The largest bit count a filter can have on this machine.
pub open spec fn max_filter_bits() -> nat {
    ((usize::MAX / 64) * 64) as nat
}

/// The number of bits of a filter for which `requested` bits were asked:
/// at least 64, rounded up to whole 64-bit words.
pub open spec fn rounded_bits(requested: nat) -> nat {
    let m = if requested < 64 {
        64
    } else {
        requested
    };
    let rounded = ((m + 63) / 64) * 64;
    if rounded > max_filter_bits() {
        max_filter_bits()
    } else {
        rounded as nat
    }
}

/// The number of probes of a filter for which `requested` probes were asked:
/// between 1 and 32.
pub open spec fn clamped_hashes(requested: nat) -> nat {
    if requested < 1 {
        1
    } else if requested > 32 {
        32
    } else {
        requested
    }
}

/// The bits that a filter for `expected_items` items needs for a false
/// positive rate of one percent: `ceil(n * -ln(0.01) / ln(2)^2)`, with the
/// factor `9.585058377367439` taken to fifteen decimal places.
pub open spec fn optimal_bits(expected_items: nat) -> nat {
    (expected_items * 9_585_058_377_367_439 + 999_999_999_999_999) / 1_000_000_000_000_000
}

/// The probes per item that suit `num_bits` bits and `expected_items` items:
/// `ceil(m / n * ln 2)`, with `ln 2 = 0.6931471805599453`.
pub open spec fn optimal_hashes(num_bits: nat, expected_items: nat) -> nat {
    ((num_bits * 6_931_471_805_599_453 + (expected_items * 10_000_000_000_000_000 - 1)) / (
    expected_items * 10_000_000_000_000_000) as int) as nat
}

/// The bit count that `BloomFilter::new` asks for.
pub open spec fn requested_bits(expected_items: nat) -> nat {
    let m = optimal_bits(expected_items);
    let capped = if m > usize::MAX {
        usize::MAX as nat
    } else {
        m
    };
    if capped < 64 {
        64
    } else {
        capped
    }
}

/// The probe count that `BloomFilter::new` asks for.
pub open spec fn requested_hashes(expected_items: nat) -> nat {
    let k = optimal_hashes(requested_bits(expected_items), expected_items);
    if k > 255 {
        255
    } else {
        k
    }
}

/// A probabilistic set of strings.
///
/// `contains` may answer `true` for an item that was never inserted, but never
/// answers `false` for one that was.
pub struct BloomFilter {
    bits: Vec<u64>,
    num_hashes: u8,
    num_bits: usize,
}

impl View for BloomFilter {
    type V = BloomView;

    closed spec fn view(&self) -> BloomView {
        BloomView {
            bits: Set::new(|idx: int| bit_at(self.bits@, idx)),
            num_bits: self.num_bits as nat,
            num_hashes: self.num_hashes as nat,
        }
    }
}

proof fn lemma_set_bit(w: u64, b: u64, c: u64)
    requires
        b < 64,
        c < 64,
    ensures
        ((w | (1u64 << b)) & (1u64 << c) != 0) == ((w & (1u64 << c) != 0) || b == c),
{
    assert(((w | (1u64 << b)) & (1u64 << c) != 0) == ((w & (1u64 << c) != 0) || b == c)) by (bit_vector)
        requires
            b < 64,
            c < 64,
    ;
}

proof fn lemma_zero_word(c: u64)
    requires
        c < 64,
    ensures
        0u64 & (1u64 << c) == 0,
{
    assert(0u64 & (1u64 << c) == 0) by (bit_vector);
}

impl BloomFilter {
    /// The representation invariant: whole words, at least one of them, and a
    /// probe count in `1..=32`.
    pub closed spec fn well_formed(&self) -> bool {
        &&& self.num_bits == self.bits@.len() * 64
        &&& self.num_bits >= 64
        &&& 1 <= self.num_hashes <= 32
    }

    /// An empty filter with about `bits` bits and `hashes` probes per item.
    ///
    /// The bit count is raised to 64 at least and rounded up to whole words;
    /// the probe count is brought into `1..=32`.
    pub fn with_dimensions(bits: usize, hashes: u8) -> (filter: BloomFilter)
        ensures
            filter.well_formed(),
            filter@ == BloomView::empty(rounded_bits(bits as nat), clamped_hashes(hashes as nat)),
    {
        let m: usize = if bits < 64 {
            64
        } else {
            bits
        };
        let max_words: usize = usize::MAX / 64;
        let mut num_words: usize = m / 64;
        if m % 64 != 0 {
            num_words = num_words + 1;
        }
        if num_words > max_words {
            num_words = max_words;
        }
        let k: u8 = if hashes < 1 {
            1
        } else if hashes > 32 {
            32
        } else {
            hashes
        };
        let mut words: Vec<u64> = Vec::new();
        let mut i: usize = 0;
        while i < num_words
            invariant
                i <= num_words,
                words@.len() == i,
                forall|j: int| 0 <= j < i ==> words@[j] == 0u64,
            decreases num_words - i,
        {
            words.push(0u64);
            i += 1;
        }
        let filter = BloomFilter { bits: words, num_hashes: k, num_bits: num_words * 64 };
        proof {
            assert forall|idx: int| !bit_at(filter.bits@, idx) by {
                if 0 <= idx < filter.bits@.len() * 64 {
                    lemma_zero_word((idx % 64) as u64);
                }
            }
            assert(filter@.bits =~= Set::<int>::empty());
        }
        filter
    }

    /// An empty filter sized for `expected_items` items at a target false
    /// positive rate of one percent.
    pub fn new(expected_items: usize) -> (filter: BloomFilter)
        requires
            expected_items > 0,
        ensures
            filter.well_formed(),
            filter@ == BloomView::empty(
                rounded_bits(requested_bits(expected_items as nat)),
                clamped_hashes(requested_hashes(expected_items as nat)),
            ),
    {
        let n: u128 = expected_items as u128;
        let m: u128 = (n * 9_585_058_377_367_439u128 + 999_999_999_999_999u128)
            / 1_000_000_000_000_000u128;
        let capped: usize = if m > usize::MAX as u128 {
            usize::MAX
        } else {
            m as usize
        };
        let bits: usize = if capped < 64 {
            64
        } else {
            capped
        };
        let den: u128 = n * 10_000_000_000_000_000u128;
        let k: u128 = (bits as u128 * 6_931_471_805_599_453u128 + (den - 1)) / den;
        let hashes: u8 = if k > 255 {
            255
        } else {
            k as u8
        };
        BloomFilter::with_dimensions(bits, hashes)
    }

    /// The number of bits of the filter.
    pub fn num_bits(&self) -> (n: usize)
        requires
            self.well_formed(),
        ensures
            n == self@.num_bits,
            n >= 64,
            n % 64 == 0,
    {
        self.num_bits
    }

    /// The number of probes per item.
    pub fn num_hashes(&self) -> (k: u8)
        requires
            self.well_formed(),
        ensures
            k == self@.num_hashes,
            1 <= k <= 32,
    {
        self.num_hashes
    }

    /// Inserts `item` into the filter.
    pub fn insert(&mut self, item: &str)
        requires
            old(self).well_formed(),
        ensures
            final(self).well_formed(),
            final(self)@ == old(self)@.insert(item@),
    {
        let (h1, h2) = double_hash(item);
        let k: u64 = self.num_hashes as u64;
        let mut i: u64 = 0;
        while i < k
            invariant
                i <= k,
                k == self.num_hashes,
                self.num_hashes == old(self).num_hashes,
                self.num_bits == old(self).num_bits,
                self.num_bits == self.bits@.len() * 64,
                self.num_bits >= 64,
                1 <= self.num_hashes <= 32,
                h1 == seeded_hash(item@, 0),
                h2 == seeded_hash(item@, SECOND_SEED),
                forall|idx: int|
                    bit_at(self.bits@, idx) == (bit_at(old(self).bits@, idx) || exists|j: u64|
                        j < i && idx == #[trigger] probe(h1, h2, j, self.num_bits as nat)),
            decreases k - i,
        {
            let idx = combined_hash(h1, h2, i, self.num_bits);
            let word = idx / 64;
            let bit = idx % 64;
            let ghost before = self.bits@;
            let updated: u64 = self.bits[word] | (1u64 << (bit as u64));
            self.bits.set(word, updated);
            proof {
                let nb = self.num_bits as nat;
                assert forall|x: int|
                    bit_at(self.bits@, x) == (bit_at(old(self).bits@, x) || exists|j: u64|
                        j < i + 1 && x == #[trigger] probe(h1, h2, j, nb)) by {
                    let p_old = exists|j: u64| j < i && x == #[trigger] probe(h1, h2, j, nb);
                    let p_new = exists|j: u64| j < i + 1 && x == #[trigger] probe(h1, h2, j, nb);
                    assert(bit_at(before, x) == (bit_at(old(self).bits@, x) || p_old));
                    if p_old {
                        let j = choose|j: u64| j < i && x == #[trigger] probe(h1, h2, j, nb);
                        assert(j < i + 1 && x == probe(h1, h2, j, nb));
                    }
                    if x == idx as int {
                        assert(i < i + 1 && x == probe(h1, h2, i, nb));
                    }
                    if p_new {
                        let j = choose|j: u64| j < i + 1 && x == #[trigger] probe(h1, h2, j, nb);
                        if j != i {
                            assert(j < i && x == probe(h1, h2, j, nb));
                        }
                    }
                    assert(p_new == (p_old || x == idx as int));
                    if 0 <= x < self.bits@.len() * 64 {
                        if x / 64 == word as int {
                            lemma_set_bit(before[word as int], bit as u64, (x % 64) as u64);
                            assert(self.bits@[x / 64] == updated);
                        } else {
                            assert(self.bits@[x / 64] == before[x / 64]);
                        }
                    }
                }
            }
            i += 1;
        }
        proof {
            assert(self@.bits =~= old(self)@.insert(item@).bits);
        }
    }

    /// Whether `item` is possibly in the filter; `false` means it was never
    /// inserted.
    pub fn contains(&self, item: &str) -> (present: bool)
        requires
            self.well_formed(),
        ensures
            present == self@.contains(item@),
    {
        let (h1, h2) = double_hash(item);
        let k: u64 = self.num_hashes as u64;
        let mut i: u64 = 0;
        while i < k
            invariant
                i <= k,
                k == self.num_hashes,
                self.num_bits == self.bits@.len() * 64,
                self.num_bits >= 64,
                h1 == seeded_hash(item@, 0),
                h2 == seeded_hash(item@, SECOND_SEED),
                forall|j: u64|
                    j < i ==> bit_at(self.bits@, #[trigger] probe(h1, h2, j, self.num_bits as nat)),
            decreases k - i,
        {
            let idx = combined_hash(h1, h2, i, self.num_bits);
            let word = idx / 64;
            let bit = idx % 64;
            if self.bits[word] & (1u64 << (bit as u64)) == 0 {
                proof {
                    assert(!bit_at(self.bits@, idx as int));
                    assert(self@.probes(item@).contains(idx as int));
                    assert(!self@.bits.contains(idx as int));
                }
                return false;
            }
            i += 1;
        }
        proof {
            assert forall|x: int| self@.probes(item@).contains(x) implies self@.bits.contains(
                x,
            ) by {
                let j = choose|j: u64|
                    j < self@.num_hashes && x == #[trigger] probe(
                        seeded_hash(item@, 0),
                        seeded_hash(item@, SECOND_SEED),
                        j,
                        self@.num_bits,
                    );
                assert(bit_at(self.bits@, probe(h1, h2, j, self.num_bits as nat)));
            }
        }
        true
    }
}

// ---------------------------------------------------------------------------
// Identifier extraction
// ---------------------------------------------------------------------------

/// The states of the identifier scanner.
#[derive(Clone, Copy, Debug, PartialEq, Eq, Structural)]
pub enum ScanState {
    /// Ordinary code.
    Code,
    /// Inside a double-quoted string.
    StringDouble,
    /// Inside a single-quoted string or character.
    StringSingle,
    /// Inside a backtick string.
    StringBacktick,
    /// Inside a `//` comment.
    LineComment,
    /// Inside a `/* */` comment.
    BlockComment,
}

/// Whether `c` can begin an identifier: an ASCII letter or `_`.
pub open spec fn ident_start(c: char) -> bool {
    ('a' <= c <= 'z') || ('A' <= c <= 'Z') || c == '_'
}

/// Whether `c` can continue an identifier: an ASCII letter, digit or `_`.
pub open spec fn ident_continue(c: char) -> bool {
    ident_start(c) || ('0' <= c <= '9')
}

/// Executable form of [`ident_start`].
pub fn is_ident_start(c: char) -> (b: bool)
    ensures
        b == ident_start(c),
{
    ('a' <= c && c <= 'z') || ('A' <= c && c <= 'Z') || c == '_'
}

/// Executable form of [`ident_continue`].
pub fn is_ident_continue(c: char) -> (b: bool)
    ensures
        b == ident_continue(c),
{
    is_ident_start(c) || ('0' <= c && c <= '9')
}

/// The end of the run of identifier characters that begins at `pos`.
pub open spec fn ident_end(s: Seq<char>, pos: int) -> int
    decreases s.len() - pos,
{
    if 0 <= pos < s.len() && ident_continue(s[pos]) {
        ident_end(s, pos + 1)
    } else {
        pos
    }
}

/// `ident_end` never moves backwards and never runs past the text.
pub proof fn lemma_ident_end_bounds(s: Seq<char>, pos: int)
    requires
        0 <= pos <= s.len(),
    ensures
        pos <= ident_end(s, pos) <= s.len(),
        forall|k: int| pos <= k < ident_end(s, pos) ==> ident_continue(s[k]),
    decreases s.len() - pos,
{
    if pos < s.len() && ident_continue(s[pos]) {
        lemma_ident_end_bounds(s, pos + 1);
    }
}

/// The state after a string state has read the character at `pos`, and how
/// far it moved: a backslash takes the next character with it, the closing
/// quote returns to code.
pub open spec fn string_step(s: Seq<char>, pos: int, state: ScanState, quote: char) -> (
    int,
    ScanState,
) {
    if s[pos] == '\\' && pos + 1 < s.len() {
        (pos + 2, state)
    } else if s[pos] == quote {
        (pos + 1, ScanState::Code)
    } else {
        (pos + 1, state)
    }
}

/// The identifiers that the scanner yields from position `pos` on, when it
/// is in `state` there.
pub open spec fn scan(s: Seq<char>, pos: int, state: ScanState) -> Seq<Seq<char>>
    decreases s.len() - pos,
{
    if pos < 0 || pos >= s.len() {
        Seq::empty()
    } else {
        let c = s[pos];
        match state {
            ScanState::Code => {
                if c == '"' {
                    scan(s, pos + 1, ScanState::StringDouble)
                } else if c == '\'' {
                    scan(s, pos + 1, ScanState::StringSingle)
                } else if c == '`' {
                    scan(s, pos + 1, ScanState::StringBacktick)
                } else if c == '/' && pos + 1 < s.len() && s[pos + 1] == '/' {
                    scan(s, pos + 2, ScanState::LineComment)
                } else if c == '/' && pos + 1 < s.len() && s[pos + 1] == '*' {
                    scan(s, pos + 2, ScanState::BlockComment)
                } else if ident_start(c) {
                    proof {
                        lemma_ident_end_bounds(s, pos + 1);
                    }
                    let end = ident_end(s, pos + 1);
                    seq![s.subrange(pos, end)] + scan(s, end, ScanState::Code)
                } else {
                    scan(s, pos + 1, ScanState::Code)
                }
            },
            ScanState::StringDouble => {
                let next = string_step(s, pos, state, '"');
                scan(s, next.0, next.1)
            },
            ScanState::StringSingle => {
                let next = string_step(s, pos, state, '\'');
                scan(s, next.0, next.1)
            },
            ScanState::StringBacktick => {
                let next = string_step(s, pos, state, '`');
                scan(s, next.0, next.1)
            },
            ScanState::LineComment => {
                if c == '\n' {
                    scan(s, pos + 1, ScanState::Code)
                } else {
                    scan(s, pos + 1, ScanState::LineComment)
                }
            },
            ScanState::BlockComment => {
                if c == '*' && pos + 1 < s.len() && s[pos + 1] == '/' {
                    scan(s, pos + 2, ScanState::Code)
                } else {
                    scan(s, pos + 1, ScanState::BlockComment)
                }
            },
        }
    }
}

/// The identifiers of `s`: those outside string literals and comments.
pub open spec fn identifiers(s: Seq<char>) -> Seq<Seq<char>> {
    scan(s, 0, ScanState::Code)
}

/// Whether `id` has the shape `[a-zA-Z_][a-zA-Z0-9_]*`.
pub open spec fn is_identifier(id: Seq<char>) -> bool {
    &&& id.len() >= 1
    &&& ident_start(id[0])
    &&& forall|k: int| 0 <= k < id.len() ==> ident_continue(id[k])
}

/// Everything the scanner yields is an identifier.
pub proof fn lemma_scan_yields_identifiers(s: Seq<char>, pos: int, state: ScanState, k: int)
    requires
        0 <= k < scan(s, pos, state).len(),
    ensures
        is_identifier(scan(s, pos, state)[k]),
    decreases s.len() - pos,
{
    if pos < 0 || pos >= s.len() {
    } else {
        let c = s[pos];
        match state {
            ScanState::Code => {
                if c == '"' {
                    lemma_scan_yields_identifiers(s, pos + 1, ScanState::StringDouble, k);
                } else if c == '\'' {
                    lemma_scan_yields_identifiers(s, pos + 1, ScanState::StringSingle, k);
                } else if c == '`' {
                    lemma_scan_yields_identifiers(s, pos + 1, ScanState::StringBacktick, k);
                } else if c == '/' && pos + 1 < s.len() && s[pos + 1] == '/' {
                    lemma_scan_yields_identifiers(s, pos + 2, ScanState::LineComment, k);
                } else if c == '/' && pos + 1 < s.len() && s[pos + 1] == '*' {
                    lemma_scan_yields_identifiers(s, pos + 2, ScanState::BlockComment, k);
                } else if ident_start(c) {
                    lemma_ident_end_bounds(s, pos + 1);
                    let end = ident_end(s, pos + 1);
                    if k > 0 {
                        lemma_scan_yields_identifiers(s, end, ScanState::Code, k - 1);
                    }
                } else {
                    lemma_scan_yields_identifiers(s, pos + 1, ScanState::Code, k);
                }
            },
            ScanState::StringDouble => {
                let next = string_step(s, pos, state, '"');
                lemma_scan_yields_identifiers(s, next.0, next.1, k);
            },
            ScanState::StringSingle => {
                let next = string_step(s, pos, state, '\'');
                lemma_scan_yields_identifiers(s, next.0, next.1, k);
            },
            ScanState::StringBacktick => {
                let next = string_step(s, pos, state, '`');
                lemma_scan_yields_identifiers(s, next.0, next.1, k);
            },
            ScanState::LineComment => {
                if c == '\n' {
                    lemma_scan_yields_identifiers(s, pos + 1, ScanState::Code, k);
                } else {
                    lemma_scan_yields_identifiers(s, pos + 1, ScanState::LineComment, k);
                }
            },
            ScanState::BlockComment => {
                if c == '*' && pos + 1 < s.len() && s[pos + 1] == '/' {
                    lemma_scan_yields_identifiers(s, pos + 2, ScanState::Code, k);
                } else {
                    lemma_scan_yields_identifiers(s, pos + 1, ScanState::BlockComment, k);
                }
            },
        }
    }
}

/// A scanner over the characters of one text, yielding identifiers one by one.
pub struct IdentifierIter {
    chars: Vec<char>,
    pos: usize,
    state: ScanState,
}

impl IdentifierIter {
    /// The scanner has not run past its text.
    pub closed spec fn well_formed(&self) -> bool {
        self.pos <= self.chars@.len()
    }

    /// The identifiers that are still to come.
    pub closed spec fn remaining(&self) -> Seq<Seq<char>> {
        scan(self.chars@, self.pos as int, self.state)
    }

    /// A scanner at the start of `content`.
    pub fn new(content: &str) -> (it: IdentifierIter)
        ensures
            it.well_formed(),
            it.remaining() == identifiers(content@),
    {
        IdentifierIter { chars: to_chars(content), pos: 0, state: ScanState::Code }
    }

    /// One step of a string state at the current position.
    fn step_string(&mut self, quote: char)
        requires
            old(self).pos < old(self).chars@.len(),
        ensures
            final(self).chars == old(self).chars,
            (final(self).pos as int, final(self).state) == string_step(
                old(self).chars@,
                old(self).pos as int,
                old(self).state,
                quote,
            ),
            old(self).pos < final(self).pos <= final(self).chars@.len(),
    {
        let len = self.chars.len();
        let c = self.chars[self.pos];
        if c == '\\' && self.pos + 1 < len {
            self.pos = self.pos + 2;
        } else if c == quote {
            self.state = ScanState::Code;
            self.pos = self.pos + 1;
        } else {
            self.pos = self.pos + 1;
        }
    }

    /// The next identifier, or `None` when the text is used up.
    pub fn next(&mut self) -> (r: Option<String>)
        requires
            old(self).well_formed(),
        ensures
            final(self).well_formed(),
            match r {
                Some(id) => old(self).remaining().len() > 0 && id@ == old(self).remaining()[0]
                    && final(self).remaining() == old(self).remaining().drop_first(),
                None => old(self).remaining().len() == 0 && final(self).remaining().len() == 0,
            },
    {
        let len = self.chars.len();
        while self.pos < len
            invariant
                len == self.chars@.len(),
                self.chars == old(self).chars,
                self.pos <= len,
                scan(self.chars@, self.pos as int, self.state) == old(self).remaining(),
            decreases len - self.pos,
        {
            let i = self.pos;
            let c = self.chars[i];
            match self.state {
                ScanState::Code => {
                    if c == '"' {
                        self.state = ScanState::StringDouble;
                        self.pos = i + 1;
                    } else if c == '\'' {
                        self.state = ScanState::StringSingle;
                        self.pos = i + 1;
                    } else if c == '`' {
                        self.state = ScanState::StringBacktick;
                        self.pos = i + 1;
                    } else if c == '/' && i + 1 < len && self.chars[i + 1] == '/' {
                        self.state = ScanState::LineComment;
                        self.pos = i + 2;
                    } else if c == '/' && i + 1 < len && self.chars[i + 1] == '*' {
                        self.state = ScanState::BlockComment;
                        self.pos = i + 2;
                    } else if is_ident_start(c) {
                        let mut end = i + 1;
                        while end < len && is_ident_continue(self.chars[end])
                            invariant
                                len == self.chars@.len(),
                                i + 1 <= end <= len,
                                ident_end(self.chars@, i + 1) == ident_end(self.chars@, end as int),
                            decreases len - end,
                        {
                            end += 1;
                        }
                        let id = slice_chars(&self.chars, i, end);
                        self.pos = end;
                        let text = string_of(&id);
                        proof {
                            let rest = scan(self.chars@, end as int, ScanState::Code);
                            assert(old(self).remaining() == seq![id@] + rest);
                            assert((seq![id@] + rest).drop_first() =~= rest);
                        }
                        return Some(text);
                    } else {
                        self.pos = i + 1;
                    }
                },
                ScanState::StringDouble => {
                    self.step_string('"');
                },
                ScanState::StringSingle => {
                    self.step_string('\'');
                },
                ScanState::StringBacktick => {
                    self.step_string('`');
                },
                ScanState::LineComment => {
                    if c == '\n' {
                        self.state = ScanState::Code;
                    }
                    self.pos = i + 1;
                },
                ScanState::BlockComment => {
                    if c == '*' && i + 1 < len && self.chars[i + 1] == '/' {
                        self.state = ScanState::Code;
                        self.pos = i + 2;
                    } else {
                        self.pos = i + 1;
                    }
                },
            }
        }
        None
    }
}

/// The identifiers of `content`, in order of appearance.
///
/// An identifier is `[a-zA-Z_][a-zA-Z0-9_]*`. String literals and comments are
/// skipped. This is a deliberate approximation of real lexers: it knows no raw
/// strings and no nested block comments.
pub fn extract_identifiers(content: &str) -> (ids: Vec<String>)
    ensures
        string_views(ids@) == identifiers(content@),
{
    let mut it = IdentifierIter::new(content);
    let mut ids: Vec<String> = Vec::new();
    let ghost total = it.chars@.len();
    assert(string_views(ids@) + it.remaining() =~= identifiers(content@));
    loop
        invariant
            it.well_formed(),
            string_views(ids@) + it.remaining() == identifiers(content@),
        ensures
            string_views(ids@) == identifiers(content@),
        decreases it.remaining().len(),
    {
        let ghost before = string_views(ids@);
        let ghost rest = it.remaining();
        match it.next() {
            Some(id) => {
                ids.push(id);
                proof {
                    assert(string_views(ids@) =~= before.push(rest[0]));
                    assert(before.push(rest[0]) + rest.drop_first() =~= before + rest);
                }
            },
            None => {
                assert(before + rest =~= before);
                break;
            },
        }
    }
    ids
}

/// A filter over the identifiers of `content`, sized for their number.
pub fn build_filter(content: &str) -> (filter: BloomFilter)
    ensures
        filter.well_formed(),
        filter@ == filter_of(content@),
{
    let idents = extract_identifiers(content);
    let expected: usize = if idents.len() < 1 {
        1
    } else {
        idents.len()
    };
    let mut filter = BloomFilter::new(expected);
    let mut i: usize = 0;
    assert(string_views(idents@).take(0) =~= Seq::<Seq<char>>::empty());
    while i < idents.len()
        invariant
            i <= idents.len(),
            filter.well_formed(),
            filter@ == sized_for(expected as nat).insert_all(string_views(idents@).take(i as int)),
        decreases idents.len() - i,
    {
        filter.insert(idents[i].as_str());
        i += 1;
        proof {
            let items = string_views(idents@);
            assert(items.take(i as int).drop_last() =~= items.take(i - 1));
        }
    }
    assert(string_views(idents@).take(idents.len() as int) =~= string_views(idents@));
    filter
}

/// The empty filter that `BloomFilter::new` builds for `expected_items`.
pub open spec fn sized_for(expected_items: nat) -> BloomView {
    BloomView::empty(
        rounded_bits(requested_bits(expected_items)),
        clamped_hashes(requested_hashes(expected_items)),
    )
}

/// The filter that stands for a file with the given content: sized for the
/// number of its identifiers (at least one), with all of them inserted.
pub open spec fn filter_of(content: Seq<char>) -> BloomView {
    let ids = identifiers(content);
    let expected = if ids.len() < 1 {
        1
    } else {
        ids.len()
    };
    sized_for(expected).insert_all(ids)
}

/// A file's filter answers "maybe present" for every identifier of the file.
pub proof fn lemma_filter_has_identifiers(content: Seq<char>, k: int)
    requires
        0 <= k < identifiers(content).len(),
    ensures
        filter_of(content).contains(identifiers(content)[k]),
{
    let ids = identifiers(content);
    let expected = if ids.len() < 1 {
        1
    } else {
        ids.len()
    };
    lemma_all_inserted_are_contained(sized_for(expected), ids, k);
}

// ---------------------------------------------------------------------------
// BloomFilterCache
// ---------------------------------------------------------------------------

/// `dashmap::DashMap`, a sharded hash map. Nothing of its inside is visible
/// to proofs; what it holds is named by a function per use.
#[verifier::external_type_specification]
#[verifier::external_body]
#[verifier::reject_recursive_types(K)]
#[verifier::reject_recursive_types(V)]
#[verifier::reject_recursive_types(S)]
pub struct ExDashMap<K, V, S>(DashMap<K, V, S>);

/// A filter together with the mtime of the file it was built from.
pub struct CachedFilter {
    pub filter: BloomFilter,
    pub mtime: u64,
}

/// The entries that a map of cached filters holds, by path.
pub uninterp spec fn cached_filters(map: DashMap<String, CachedFilter>) -> Map<
    Seq<char>,
    CachedFilter,
>;

/// Calls `DashMap::new`. Claimed: the new map holds nothing.
#[verifier::external_body]
fn new_filter_map() -> (fresh: DashMap<String, CachedFilter>)
    ensures
        cached_filters(fresh) == (Map::<Seq<char>, CachedFilter>::empty()),
{
    DashMap::new()
}

/// Calls `DashMap::insert`. Claimed: afterwards the map holds `entry` under
/// `path`, in place of what it held there, and everything else as before.
#[verifier::external_body]
fn store_filter(map: &mut DashMap<String, CachedFilter>, path: String, entry: CachedFilter)
    ensures
        cached_filters(*final(map)) == cached_filters(*old(map)).insert(path@, entry),
{
    map.insert(path, entry);
}

/// What a cached entry answers for `symbol`, if it was built at `mtime`.
pub open spec fn entry_answer(entry: CachedFilter, mtime: u64, symbol: Seq<char>) -> Option<bool> {
    if entry.mtime == mtime {
        Some(entry.filter@.contains(symbol))
    } else {
        None
    }
}

/// Asks a cached entry about `symbol`; `None` if the entry is from another
/// `mtime`.
fn probe_entry(entry: &CachedFilter, mtime: u64, symbol: &str) -> (r: Option<bool>)
    requires
        entry.filter.well_formed(),
    ensures
        r == entry_answer(*entry, mtime, symbol@),
{
    if entry.mtime == mtime {
        Some(entry.filter.contains(symbol))
    } else {
        None
    }
}

/// Calls `DashMap::view` with `probe_entry`. Claimed: `None` if the map holds
/// nothing under `path`, else what `probe_entry` answers for the entry held
/// there.
#[verifier::external_body]
fn probe_cached(map: &DashMap<String, CachedFilter>, path: &str, mtime: u64, symbol: &str) -> (r:
    Option<Option<bool>>)
    requires
        cached_filters(*map).dom().contains(path@) ==> cached_filters(
            *map,
        )[path@].filter.well_formed(),
    ensures
        r == if cached_filters(*map).dom().contains(path@) {
            Some(entry_answer(cached_filters(*map)[path@], mtime, symbol@))
        } else {
            None
        },
{
    map.view(path, |_, entry| probe_entry(entry, mtime, symbol))
}

/// A cache of per-file Bloom filters, keyed by path and checked by mtime.
pub struct BloomFilterCache {
    filters: DashMap<String, CachedFilter>,
}

/// What a cache knows of one file: its filter's content and the mtime.
pub struct CachedView {
    pub filter: BloomView,
    pub mtime: u64,
}

impl View for BloomFilterCache {
    type V = Map<Seq<char>, CachedView>;

    closed spec fn view(&self) -> Map<Seq<char>, CachedView> {
        cached_filters(self.filters).map_values(
            |e: CachedFilter| CachedView { filter: e.filter@, mtime: e.mtime },
        )
    }
}

/// What `BloomFilterCache::contains` answers on a cache that holds `cache`.
pub open spec fn cache_answer(
    cache: Map<Seq<char>, CachedView>,
    path: Seq<char>,
    mtime: u64,
    content: Seq<char>,
    symbol: Seq<char>,
) -> bool {
    if cache.dom().contains(path) && cache[path].mtime == mtime {
        cache[path].filter.contains(symbol)
    } else {
        filter_of(content).contains(symbol)
    }
}

/// What a cache that holds `cache` holds after `BloomFilterCache::contains`.
pub open spec fn cache_after(
    cache: Map<Seq<char>, CachedView>,
    path: Seq<char>,
    mtime: u64,
    content: Seq<char>,
) -> Map<Seq<char>, CachedView> {
    if cache.dom().contains(path) && cache[path].mtime == mtime {
        cache
    } else {
        cache.insert(path, CachedView { filter: filter_of(content), mtime })
    }
}

impl BloomFilterCache {
    /// Every cached filter is well formed.
    pub closed spec fn well_formed(&self) -> bool {
        forall|p: Seq<char>| #[trigger]
            cached_filters(self.filters).dom().contains(p) ==> cached_filters(
                self.filters,
            )[p].filter.well_formed()
    }

    /// An empty cache.
    pub fn new() -> (cache: BloomFilterCache)
        ensures
            cache.well_formed(),
            cache@ == Map::<Seq<char>, CachedView>::empty(),
    {
        let cache = BloomFilterCache { filters: new_filter_map() };
        assert(cache@ =~= Map::<Seq<char>, CachedView>::empty());
        cache
    }

    /// Whether `symbol` might appear in the file at `path`.
    ///
    /// If a filter is cached for `path` with the same `mtime`, it answers, and
    /// `content` is not looked at. Otherwise a filter is built from `content`,
    /// cached under `path` and `mtime`, and asked. Files are known by the
    /// normal form of their path.
    pub fn contains(&mut self, path: &str, mtime: u64, content: &str, symbol: &str) -> (present:
        bool)
        requires
            old(self).well_formed(),
        ensures
            final(self).well_formed(),
            present == cache_answer(old(self)@, normal_form(path@), mtime, content@, symbol@),
            final(self)@ == cache_after(old(self)@, normal_form(path@), mtime, content@),
    {
        let key = normalize(path);
        match probe_cached(&self.filters, key.as_str(), mtime, symbol) {
            Some(Some(answer)) => {
                assert(self@ =~= cache_after(old(self)@, key@, mtime, content@));
                return answer;
            },
            _ => {},
        }
        let filter = build_filter(content);
        let result = filter.contains(symbol);
        store_filter(&mut self.filters, key, CachedFilter { filter, mtime });
        assert(self@ =~= cache_after(old(self)@, normal_form(path@), mtime, content@));
        result
    }
}

impl Default for BloomFilterCache {
    /// An empty cache.
    fn default() -> (cache: BloomFilterCache)
        ensures
            cache.well_formed(),
            cache@ == Map::<Seq<char>, CachedView>::empty(),
    {
        BloomFilterCache::new()
    }
}

} // verus!
