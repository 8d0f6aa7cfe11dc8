use std::collections::BTreeSet;

use loggytracy::bloom::{
    line_bloom, trigram_index, trigram_of, trigrams, BloomFilter, TrigramSet,
    LINE_BITS_PER_ITEM,
};
use loggytracy::corpus::{generate, CorpusSpec, Shape};

#[test]
fn insert_and_contains() {
    let mut b = BloomFilter::new(8192, 4);
    b.insert(b"hello world");
    assert!(b.contains(b"hello world"));
    assert!(!b.contains(b"goodbye world"));
}

#[test]
fn trigram_substring_pruning() {
    let mut b = BloomFilter::with_capacity(100, LINE_BITS_PER_ITEM);
    b.insert_str_trigrams("the quick brown fox");
    assert!(b.might_contain_substr("quick brown"));
    assert!(b.might_contain_substr("brown fox"));
    assert!(!b.might_contain_substr("zzzzzz"));
}

#[test]
fn short_needle_skips_pruning() {
    let mut b = BloomFilter::new(8192, 4);
    b.insert_str_trigrams("abcdef");
    assert!(b.might_contain_substr("ab"));
}

#[test]
fn encode_roundtrip() {
    let mut b = BloomFilter::with_capacity(200, LINE_BITS_PER_ITEM);
    b.insert_str_trigrams("loggytracy bloom filter test");
    let bytes = b.encode();
    let b2 = match BloomFilter::decode(&bytes) {
        Ok(filter) => filter,
        Err(message) => panic!("{}", message),
    };
    assert_eq!(b.num_bits(), b2.num_bits());
    assert_eq!(b.k(), b2.k());
    assert!(b2.might_contain_substr("bloom filter"));
}

#[test]
fn trigrams_basic() {
    let t = trigrams("abcd");
    assert_eq!(t, vec![*b"abc", *b"bcd"]);
    assert!(trigrams("ab").is_empty());
}

#[test]
fn trigrams_lowercase() {
    let t = trigrams("ABC");
    assert_eq!(t, vec![*b"abc"]);
}

/// A set of trigrams in a tree, to hold the bitmap against.
fn reference(lines: &[&str]) -> BloomFilter {
    let mut unique: BTreeSet<[u8; 3]> = BTreeSet::new();
    for line in lines {
        for trigram in trigrams(line) {
            unique.insert(trigram);
        }
    }
    let mut bloom = BloomFilter::with_capacity(unique.len().max(1), LINE_BITS_PER_ITEM);
    for trigram in &unique {
        bloom.insert(trigram);
    }
    bloom
}

fn corpus() -> Vec<&'static str> {
    vec![
        "GET /api/v1/query_range status=200 duration=13ms",
        "get /api/v1/query_range status=500 duration=1300ms",
        "GET /api/v1/query_range status=200 duration=13ms",
        "İstanbul ÅNGSTRÖM 三文字以上のログ行",
        "ab",
        "",
        "\u{0}\u{1}\u{2}\u{7f}\u{80}",
    ]
}

#[test]
fn the_bitmap_and_a_tree_of_the_same_lines_build_the_same_filter() {
    let lines = corpus();
    let bitmap = line_bloom(&lines);
    assert_eq!(bitmap.encode(), reference(&lines).encode());
}

#[test]
fn the_two_agree_over_a_whole_row_group_of_generated_lines() {
    for shape in [Shape::Plain, Shape::Json, Shape::Logfmt] {
        let corpus = generate(&CorpusSpec::default().rows(4_000).streams(16).only(shape));
        let lines = corpus.lines();
        let bitmap = line_bloom(&lines);
        let tree = reference(&lines);
        assert_eq!(bitmap.encode(), tree.encode(), "{:?}", shape);
        assert!(bitmap.num_bits() > 8192, "{:?}", shape);
    }
}

#[test]
fn the_distinct_count_is_the_filter_size_and_repeats_do_not_grow_it() {
    let mut once = TrigramSet::new();
    once.add_line("abcabc");
    let mut twice = TrigramSet::new();
    twice.add_line("abcabc");
    twice.add_line("abcabc");
    assert_eq!(once.len(), 3);
    assert_eq!(twice.len(), 3);
    assert_eq!(once.finish().num_bits(), twice.finish().num_bits());
}

#[test]
fn a_line_shorter_than_a_trigram_adds_nothing() {
    let mut set = TrigramSet::new();
    set.add_line("ab");
    set.add_line("");
    assert!(set.is_empty());
}

#[test]
fn every_trigram_index_round_trips_through_the_bitmap() {
    for trigram in [[0u8, 0, 0], [255, 255, 255], [0, 255, 0], [1, 2, 3]] {
        assert_eq!(trigram_of(trigram_index(trigram)), trigram);
    }
}

#[test]
fn the_sizing_is_that_of_one_false_positive_in_a_hundred() {
    for items in [1usize, 2, 107, 1000, 4096, 65_537, 1_000_003] {
        let exact = (-(items as f64) * 0.01f64.ln() / std::f64::consts::LN_2.powi(2)).ceil() as usize;
        let bits = (exact.max(1024) + 7) / 8 * 8;
        let k = ((bits as f64 / items as f64) * std::f64::consts::LN_2).round() as u32;
        let filter = BloomFilter::with_capacity(items, LINE_BITS_PER_ITEM);
        assert_eq!(filter.num_bits(), bits);
        assert_eq!(filter.k(), k.clamp(1, 16));
        assert_eq!(filter.resident_bytes() * 8, bits);
    }
    for rate in [0.5f64, 0.1, 0.001, 1e-9] {
        let per_item = -rate.ln() / std::f64::consts::LN_2.powi(2);
        let filter =
            BloomFilter::with_capacity(5000, (per_item * 72_057_594_037_927_936.0).round() as u64);
        let exact = (5000.0 * per_item).ceil() as usize;
        let bits = (exact.max(1024) + 7) / 8 * 8;
        let k = ((bits as f64 / 5000.0) * std::f64::consts::LN_2).round() as u32;
        assert_eq!((filter.num_bits(), filter.k()), (bits, k.clamp(1, 16)));
    }
    assert_eq!(BloomFilter::with_capacity(5000, 0).num_bits(), 1024, "a rate of one");
    let none = BloomFilter::with_capacity(0, LINE_BITS_PER_ITEM);
    assert_eq!((none.num_bits(), none.k()), (8192, 4));
}

#[test]
fn an_encoded_filter_has_its_header_in_front() {
    let filter = BloomFilter::new(16, 3);
    assert_eq!(
        filter.encode(),
        vec![0x42, 0x4c, 0x4d, 0x31, 16, 0, 0, 0, 3, 0, 0, 0, 0, 0]
    );
}

fn decode_error(buf: &[u8]) -> String {
    match BloomFilter::decode(buf) {
        Ok(_) => panic!("decoded"),
        Err(message) => message,
    }
}

#[test]
fn what_is_no_filter_is_refused_with_its_reason() {
    let good = BloomFilter::new(16, 3).encode();
    assert_eq!(decode_error(&good[..11]), "bloom buffer too short");
    let mut other = good.clone();
    other[0] = b'X';
    assert_eq!(decode_error(&other), "bloom magic mismatch");
    let mut odd = good.clone();
    odd[4] = 15;
    assert_eq!(decode_error(&odd), "invalid bloom num_bits 15");
    let mut long = good.clone();
    long.push(0);
    assert_eq!(decode_error(&long), "bloom length mismatch: expected 14 got 15");
}

#[test]
fn adding_never_makes_the_filter_forget() {
    let mut filter = BloomFilter::new(256, 5);
    filter.insert(b"first");
    for n in 0u32..200 {
        filter.insert(&n.to_le_bytes());
        assert!(filter.contains(b"first"));
    }
}

#[test]
fn a_group_filter_finds_every_line_it_was_built_of() {
    let lines = corpus();
    let filter = line_bloom(&lines);
    for line in &lines {
        assert!(filter.might_contain_substr(line));
    }
    assert!(filter.might_contain_substr("QUERY_RANGE"));
    assert!(filter.might_contain_substr("ångström"));
}
