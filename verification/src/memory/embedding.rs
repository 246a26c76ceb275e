//! The deterministic embedding: words are hashed into a fixed number of slots.
//!
//! The library works out which slot each word adds to, and how much. Adding up
//! and scaling to unit length, which take floating-point numbers, are left to
//! the caller.
use vstd::prelude::*;
use vstd::utf8::encode_utf8;
use crate::checksum::{sha256, sha256_digest};
use crate::text::{chars_of, lowercase_char, lowercase_of_char};
use crate::words::{
    find_runs, is_run, runs, runs_are_the_maximal_stretches, span_view, WordClass,
};

verus! {

/// The dimension of the deterministic embedding, that of the vector indexes.
pub const DIM: usize = 768;

/// What one word adds to one slot: `raw` divided by the largest `i32`.
#[derive(Debug, Clone, Copy, PartialEq, Eq, Structural)]
pub struct Contribution {
    pub slot: usize,
    pub raw: i32,
}

// --- Words -------------------------------------------------------------------

/// The characters of `s[i..j]` in lowercase, one by one.
pub open spec fn lowered(s: Seq<char>, i: int, j: int) -> Seq<char>
    decreases j - i,
{
    if i >= j {
        Seq::empty()
    } else {
        lowered(s, i, j - 1) + lowercase_of_char(s[j - 1])
    }
}

/// The words of a text in lowercase: its runs of letters and numbers.
pub open spec fn tokens(s: Seq<char>) -> Seq<Seq<char>> {
    runs(s, WordClass::Alphanumeric).map_values(|r: (int, int)| lowered(s, r.0, r.1))
}

/// The words of a text in lowercase.
pub fn tokenize(text: &str) -> (r: Vec<String>)
    ensures
        r.deep_view() == tokens(text@),
        forall|i: int| 0 <= i < r@.len() ==> (#[trigger] r@[i])@.len() > 0,
{
    let chars = chars_of(text);
    let spans = find_runs(&chars, WordClass::Alphanumeric);
    let ghost spans_v = spans@.map_values(|p: (usize, usize)| span_view(p));
    let mut out: Vec<String> = Vec::new();
    let mut i: usize = 0;
    while i < spans.len()
        invariant
            i <= spans@.len(),
            chars@ == text@,
            spans_v == spans@.map_values(|p: (usize, usize)| span_view(p)),
            spans_v == runs(text@, WordClass::Alphanumeric),
            forall|m: int|
                0 <= m < spans@.len() ==> (#[trigger] spans@[m]).0 < spans@[m].1 <= chars@.len(),
            out@.len() == i,
            forall|k: int|
                0 <= k < i ==> (#[trigger] out@[k])@ == tokens(text@)[k] && out@[k]@.len() > 0,
        decreases spans@.len() - i,
    {
        let (from, to) = spans[i];
        let mut word = String::new();
        let mut k: usize = from;
        while k < to
            invariant
                from <= k <= to <= chars@.len(),
                chars@ == text@,
                word@ == lowered(text@, from as int, k as int),
                k > from ==> word@.len() > 0,
            decreases to - k,
        {
            word.append(lowercase_char(chars[k]).as_str());
            k = k + 1;
        }
        assert(spans_v[i as int] == span_view(spans@[i as int]));
        assert(tokens(text@)[i as int] == word@);
        out.push(word);
        i = i + 1;
    }
    assert(out.deep_view() =~= tokens(text@));
    out
}

// --- Numbers in a digest -----------------------------------------------------

/// The number that `count` bytes from `from` on stand for, most significant
/// byte first.
pub open spec fn big_endian(bytes: Seq<u8>, from: int, count: int) -> nat
    decreases count,
{
    if count <= 0 {
        0
    } else {
        256 * big_endian(bytes, from, count - 1) + bytes[from + count - 1] as nat
    }
}

/// The signed number of four bytes, in two's complement.
pub open spec fn big_endian_i32(bytes: Seq<u8>, from: int) -> int {
    let n = big_endian(bytes, from, 4);
    if n < 0x8000_0000 {
        n as int
    } else {
        n - 0x1_0000_0000
    }
}

fn read_big_endian(bytes: &Vec<u8>, from: usize, count: usize) -> (r: u64)
    requires
        count <= 8,
        from + count <= bytes@.len(),
    ensures
        r == big_endian(bytes@, from as int, count as int),
        count <= 4 ==> r < 0x1_0000_0000,
{
    let size: usize = bytes.len();
    let mut n: u64 = 0;
    let mut k: usize = 0;
    while k < count
        invariant
            k <= count <= 8,
            from + count <= size == bytes@.len(),
            n == big_endian(bytes@, from as int, k as int),
            k == 0 ==> n < 1,
            k == 1 ==> n < 0x100,
            k == 2 ==> n < 0x1_0000,
            k == 3 ==> n < 0x100_0000,
            k == 4 ==> n < 0x1_0000_0000,
            k == 5 ==> n < 0x100_0000_0000,
            k == 6 ==> n < 0x1_0000_0000_0000,
            k == 7 ==> n < 0x100_0000_0000_0000,
        decreases count - k,
    {
        n = n * 256 + bytes[from + k] as u64;
        k = k + 1;
    }
    n
}

// --- Slots -------------------------------------------------------------------

/// The slot that a word at `position` adds to with its part `offset`: the three
/// parts of a word go to neighbouring slots.
pub open spec fn slot_of(digest: Seq<u8>, position: int, offset: int, dim: int) -> int {
    ((big_endian(digest, 0, 8) + position + offset) % 0x1_0000_0000_0000_0000) % dim
}

/// What a word at `position` adds with its part `offset`.
pub open spec fn contribution(digest: Seq<u8>, position: int, offset: int, dim: int) -> Contribution {
    Contribution {
        slot: slot_of(digest, position, offset, dim) as usize,
        raw: big_endian_i32(digest, 8 + 4 * offset) as i32,
    }
}

/// The digest of a word.
pub open spec fn word_digest(word: Seq<char>) -> Seq<u8> {
    sha256_digest(encode_utf8(word))
}

/// What the words add, three parts each, word by word.
pub open spec fn contributions(words: Seq<Seq<char>>, dim: int) -> Seq<Contribution> {
    Seq::new(
        3 * words.len(),
        |n: int| contribution(word_digest(words[n / 3]), n / 3, n % 3, dim),
    )
}

/// What a word at `position` adds with its part `offset`, from its digest.
pub fn contribution_of_digest(digest: &Vec<u8>, position: usize, offset: usize, dim: usize) -> (r:
    Contribution)
    requires
        digest@.len() == 32,
        offset < 3,
        dim > 0,
    ensures
        r == contribution(digest@, position as int, offset as int, dim as int),
        r.slot < dim,
{
    let h0: u64 = read_big_endian(digest, 0, 8);
    let shifted: u128 = h0 as u128 + position as u128 + offset as u128;
    let wrapped: u128 = shifted % 0x1_0000_0000_0000_0000;
    let slot: u128 = wrapped % dim as u128;
    let n: u64 = read_big_endian(digest, 8 + 4 * offset, 4);
    let raw: i64 = if n < 0x8000_0000 {
        n as i64
    } else {
        n as i64 - 0x1_0000_0000
    };
    Contribution { slot: slot as usize, raw: raw as i32 }
}

/// What the words of a text add to the slots of an embedding of dimension
/// `dim`.
pub fn embed_text(text: &str, dim: usize) -> (r: Vec<Contribution>)
    requires
        dim > 0 || tokens(text@).len() == 0,
    ensures
        r@ == contributions(tokens(text@), dim as int),
        forall|i: int| 0 <= i < r@.len() ==> (#[trigger] r@[i]).slot < dim,
{
    let words = tokenize(text);
    let ghost all = contributions(tokens(text@), dim as int);
    let mut out: Vec<Contribution> = Vec::new();
    let mut i: usize = 0;
    while i < words.len()
        invariant
            i <= words@.len(),
            words.deep_view() == tokens(text@),
            dim > 0 || words@.len() == 0,
            all == contributions(tokens(text@), dim as int),
            out@ == all.take(3 * i as int),
            forall|k: int| 0 <= k < out@.len() ==> (#[trigger] out@[k]).slot < dim,
        decreases words@.len() - i,
    {
        let digest = sha256(words[i].as_str().as_bytes());
        assert(words.deep_view()[i as int] == words@[i as int]@);
        let mut offset: usize = 0;
        while offset < 3
            invariant
                offset <= 3,
                i < words@.len(),
                words@.len() == tokens(text@).len(),
                dim > 0,
                digest@.len() == 32,
                digest@ == word_digest(tokens(text@)[i as int]),
                all == contributions(tokens(text@), dim as int),
                out@ == all.take(3 * i + offset),
                forall|k: int| 0 <= k < out@.len() ==> (#[trigger] out@[k]).slot < dim,
            decreases 3 - offset,
        {
            let c = contribution_of_digest(&digest, i, offset, dim);
            assert(all[3 * i + offset] == c) by {
                assert((3 * i + offset) / 3 == i);
                assert((3 * i + offset) % 3 == offset);
            }
            out.push(c);
            assert(out@ =~= all.take(3 * i + offset + 1));
            offset = offset + 1;
        }
        i = i + 1;
    }
    assert(words.deep_view().len() == words@.len());
    assert(out@ =~= all);
    out
}

/// The deterministic embedding of the vector indexes' dimension.
#[derive(Debug, Clone, Copy)]
pub struct DeterministicEmbedding;

impl DeterministicEmbedding {
    /// The name of the model.
    pub fn model_id(&self) -> (r: &'static str)
        ensures
            r@ == "deterministic-768-v1"@,
    {
        "deterministic-768-v1"
    }

    /// The dimension of the embedding.
    pub fn dimension(&self) -> (r: usize)
        ensures
            r == DIM,
    {
        DIM
    }

    /// What the words of a text add to the slots of its embedding.
    pub fn embed(&self, text: &str) -> (r: Vec<Contribution>)
        ensures
            r@ == contributions(tokens(text@), DIM as int),
            forall|i: int| 0 <= i < r@.len() ==> (#[trigger] r@[i]).slot < DIM,
    {
        embed_text(text, DIM)
    }
}

/// A text without letters and numbers adds nothing, so its embedding is zero;
/// any other text adds three parts for each word.
pub proof fn every_word_counts(s: Seq<char>, dim: int)
    ensures
        contributions(tokens(s), dim).len() == 3 * runs(s, WordClass::Alphanumeric).len(),
        s.len() == 0 ==> contributions(tokens(s), dim).len() == 0,
{
}

/// Only the words of a text and their order count: texts with the same words
/// have the same embedding.
pub proof fn same_words_same_embedding(a: Seq<char>, b: Seq<char>, dim: int)
    requires
        tokens(a) == tokens(b),
    ensures
        contributions(tokens(a), dim) == contributions(tokens(b), dim),
{
}

/// The characters of a part of a text in lowercase are those of its parts, one
/// after the other; of one character, what that is in lowercase.
pub proof fn lowercase_goes_by_character(s: Seq<char>, i: int, k: int, j: int)
    requires
        0 <= i <= k <= j <= s.len(),
    ensures
        lowered(s, i, j) == lowered(s, i, k) + lowered(s, k, j),
        i < s.len() ==> lowered(s, i, i + 1) == lowercase_of_char(s[i]),
        lowered(s, i, i) == Seq::<char>::empty(),
    decreases j - k,
{
    if k < j {
        lowercase_goes_by_character(s, i, k, j - 1);
        assert(lowered(s, i, j) =~= lowered(s, i, k) + lowered(s, k, j));
    } else {
        assert(lowered(s, i, j) =~= lowered(s, i, k) + lowered(s, k, j));
    }
    if i < s.len() {
        assert(lowered(s, i, i) =~= Seq::<char>::empty());
        assert(lowered(s, i, i + 1) =~= lowercase_of_char(s[i]));
    }
}

/// The words of a text are its stretches of letters and numbers, taken as far as
/// they go, in their order, each in lowercase.
pub proof fn every_stretch_is_a_word(s: Seq<char>, i: int, j: int)
    requires
        is_run(s, WordClass::Alphanumeric, i, j),
    ensures
        exists|k: int|
            0 <= k < tokens(s).len() && (#[trigger] tokens(s)[k]) == lowered(s, i, j)
                && runs(s, WordClass::Alphanumeric)[k] == (i, j),
        tokens(s).len() == runs(s, WordClass::Alphanumeric).len(),
{
    runs_are_the_maximal_stretches(s, WordClass::Alphanumeric);
    let spans = runs(s, WordClass::Alphanumeric);
    let k = choose|k: int| 0 <= k < spans.len() && spans[k] == (i, j);
    assert(tokens(s)[k] == lowered(s, i, j));
}

/// Bytes stand for a number with the highest byte first.
pub proof fn bytes_are_read_from_the_highest(b: Seq<u8>, from: int)
    requires
        0 <= from,
        from + 8 <= b.len(),
    ensures
        big_endian(b, from, 4) == 0x100_0000 * b[from] + 0x1_0000 * b[from + 1] + 0x100 * b[from
            + 2] + b[from + 3],
        big_endian(b, from, 8) == 0x1_0000_0000 * big_endian(b, from, 4) + big_endian(
            b,
            from + 4,
            4,
        ),
        big_endian(b, from, 4) < 0x8000_0000 ==> big_endian_i32(b, from) == big_endian(b, from, 4),
        big_endian(b, from, 4) >= 0x8000_0000 ==> big_endian_i32(b, from) == big_endian(b, from, 4)
            - 0x1_0000_0000,
{
    reveal_with_fuel(big_endian, 9);
}

/// What a word adds to an embedding: three parts, to neighbouring slots, the
/// first of which goes by the first eight bytes of the word's digest and by the
/// word's position; each part is the signed number of four further bytes.
pub proof fn a_word_adds_three_parts(words: Seq<Seq<char>>, dim: int, w: int, part: int)
    requires
        0 < dim <= usize::MAX,
        0 <= w < words.len(),
        0 <= part < 3,
        sha256_digest(encode_utf8(words[w])).len() == 32,
    ensures
        ({
            let digest = sha256_digest(encode_utf8(words[w]));
            let c = contributions(words, dim)[3 * w + part];
            &&& contributions(words, dim).len() == 3 * words.len()
            &&& c.slot == ((big_endian(digest, 0, 8) + w + part) % 0x1_0000_0000_0000_0000) % dim
            &&& c.raw == big_endian_i32(digest, 8 + 4 * part)
        }),
{
    let digest = sha256_digest(encode_utf8(words[w]));
    let n = 3 * w + part;
    assert(n / 3 == w && n % 3 == part);
    assert(contributions(words, dim)[n] == contribution(word_digest(words[w]), w, part, dim));
    lemma_four_bytes(digest, 8 + 4 * part);
    let slot = slot_of(digest, w, part, dim);
    assert(0 <= slot < dim) by (nonlinear_arith)
        requires
            slot == ((big_endian(digest, 0, 8) + w + part) % 0x1_0000_0000_0000_0000) % dim,
            dim > 0,
    ;
}

proof fn lemma_four_bytes(b: Seq<u8>, from: int)
    ensures
        big_endian(b, from, 4) < 0x1_0000_0000,
        i32::MIN <= big_endian_i32(b, from) <= i32::MAX,
{
    reveal_with_fuel(big_endian, 5);
}

} // verus!
