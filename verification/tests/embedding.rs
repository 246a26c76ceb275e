use engram::checksum::sha256_of_text;
use engram::memory::embedding::{
    contribution_of_digest, embed_text, tokenize, Contribution, DeterministicEmbedding, DIM,
};

fn unit_vector(parts: &[Contribution], dim: usize) -> Vec<f32> {
    let mut v = vec![0.0f32; dim];
    for c in parts {
        v[c.slot] += (c.raw as f32) / (i32::MAX as f32);
    }
    let norm: f32 = v.iter().map(|x| x * x).sum::<f32>().sqrt();
    if norm > 0.0 {
        for x in &mut v {
            *x /= norm;
        }
    }
    v
}

fn embed(text: &str) -> Vec<f32> {
    unit_vector(&DeterministicEmbedding.embed(text), DeterministicEmbedding.dimension())
}

#[test]
fn deterministic_embedder_is_deterministic() {
    let a = embed("Sarah Chen is the VP of Engineering.");
    let b = embed("Sarah Chen is the VP of Engineering.");
    assert_eq!(a, b, "same input must produce same output");
}

#[test]
fn deterministic_embedder_is_normalised() {
    let v = embed("Anything at all.");
    let norm: f32 = v.iter().map(|x| x * x).sum::<f32>().sqrt();
    assert!((norm - 1.0).abs() < 1e-5, "vector must be L2-normalised (norm={norm})");
}

#[test]
fn deterministic_embedder_produces_768d() {
    let v = embed("hi");
    assert_eq!(v.len(), 768);
}

#[test]
fn empty_text_produces_zero_vector() {
    let v = embed("");
    assert_eq!(v.len(), 768);
    assert!(v.iter().all(|&x| x == 0.0), "empty input → zero vector");
}

#[test]
fn similar_inputs_produce_similar_vectors() {
    let a = embed("Sarah Chen is the VP of Engineering.");
    let b = embed("Sarah Chen, VP of Engineering.");
    let dot: f32 = a.iter().zip(&b).map(|(x, y)| x * y).sum();
    let c = embed("Llamas prefer high-altitude grazing.");
    let dot_unrelated: f32 = a.iter().zip(&c).map(|(x, y)| x * y).sum();
    assert!(
        dot > dot_unrelated,
        "related text should outscore unrelated text: {dot} vs {dot_unrelated}"
    );
}

#[test]
fn the_model_has_a_name_and_a_dimension() {
    assert_eq!(DeterministicEmbedding.model_id(), "deterministic-768-v1");
    assert_eq!(DIM, 768);
}

#[test]
fn tokens_are_lowercase_runs_of_letters_and_numbers() {
    assert_eq!(tokenize("Sarah-Chen, VP2!"), vec!["sarah", "chen", "vp2"]);
    assert_eq!(tokenize("  ...  "), Vec::<String>::new());
    assert_eq!(tokenize("Ärger ÜBER"), vec!["ärger", "über"]);
    assert!(tokenize("--a--\u{130}--").iter().all(|t| !t.is_empty()));
}

#[test]
fn each_word_adds_three_parts() {
    // SHA-256 of "hi" starts 8f434346648f6b96 df89dda9 01c5176b 10a6d839.
    assert!(sha256_of_text("hi").starts_with("8f434346648f6b96df89dda901c5176b10a6d839"));
    let h0: u64 = 0x8f43_4346_648f_6b96;
    let parts = embed_text("Hi", 768);
    assert_eq!(
        parts,
        vec![
            Contribution { slot: (h0 % 768) as usize, raw: 0xdf89_dda9u32 as i32 },
            Contribution { slot: ((h0 + 1) % 768) as usize, raw: 0x01c5_176b },
            Contribution { slot: ((h0 + 2) % 768) as usize, raw: 0x10a6_d839 },
        ]
    );
    assert_eq!(embed_text("one two three", 10).len(), 9);
}

#[test]
fn a_digest_is_read_with_the_highest_byte_first() {
    let mut digest = vec![0u8; 32];
    digest[7] = 5;
    digest[12] = 0x80;
    let c = contribution_of_digest(&digest, 2, 1, 1000);
    assert_eq!(c, Contribution { slot: 8, raw: i32::MIN });
}

#[test]
fn the_slot_wraps_around() {
    let digest = vec![0xffu8; 32];
    let c = contribution_of_digest(&digest, 1, 0, 100);
    assert_eq!(c, Contribution { slot: 0, raw: -1 });
}

#[test]
fn the_order_of_words_moves_their_slots() {
    let a = embed_text("alpha beta", 768);
    let b = embed_text("beta alpha", 768);
    assert_eq!(a[0].raw, b[3].raw);
    assert_eq!((a[0].slot + 1) % 768, b[3].slot);
}

#[test]
fn the_same_words_embed_the_same() {
    assert_eq!(embed_text("Hello, World", 768), embed_text("hello world!", 768));
}
