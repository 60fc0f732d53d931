use md5::{Digest, Md5};
use md5_calculator::digest::{format_digest, to_hex, truncate_hex};
use md5_calculator::incremental;
use md5_calculator::parallel::{self, calculate_md5_single_async, digest_slice, SlotTable};
use md5_calculator::plan::plan_slices;
use md5_calculator::stream::{digest_in_chunks, stream_chunk_size, CooperativeHasher};

const ABC_MD5: &str = "900150983cd24fb0d6963f7d28e17f72";

fn reference_hex(data: &[u8]) -> String {
    to_hex(&Md5::digest(data))
}

fn sample(len: usize) -> Vec<u8> {
    (0..len).map(|i| (i * 31 + 7) as u8).collect()
}

#[test]
fn abc_full_digest() {
    let calc = incremental::Md5Calculator::new();
    assert_eq!(calc.calculate_md5_async(&[0x61, 0x62, 0x63], 32), ABC_MD5);
    assert_eq!(calculate_md5_single_async(b"abc", 32, false), ABC_MD5);
}

#[test]
fn abc_truncated_to_sixteen() {
    let calc = incremental::Md5Calculator::new();
    assert_eq!(calc.calculate_md5_async(b"abc", 16), "900150983cd24fb0");
    assert_eq!(calculate_md5_single_async(b"abc", 16, true), "900150983cd24fb0");
}

#[test]
fn truncation_lengths() {
    let calc = incremental::Md5Calculator::new();
    assert_eq!(calc.calculate_md5_async(b"abc", 32).len(), 32);
    assert_eq!(calc.calculate_md5_async(b"abc", 100), ABC_MD5);
    assert_eq!(calc.calculate_md5_async(b"abc", 5), "90015");
    assert_eq!(calc.calculate_md5_async(b"abc", 0), "");
    assert_eq!(truncate_hex(ABC_MD5, 16), "900150983cd24fb0");
    assert_eq!(truncate_hex(ABC_MD5, 32), ABC_MD5);
    assert_eq!(truncate_hex(ABC_MD5, 100), ABC_MD5);
}

#[test]
fn empty_input_gives_empty_string() {
    let streamed = incremental::Md5Calculator::new();
    let par = parallel::Md5Calculator::new(4);
    assert_eq!(streamed.calculate_md5_async(&[], 32), "");
    assert_eq!(par.calculate_md5_async(&[], 32), "");
    assert_eq!(calculate_md5_single_async(&[], 32, false), "");
}

#[test]
fn hex_encoding() {
    assert_eq!(to_hex(&[0x00, 0xff, 0x1a, 0x09]), "00ff1a09");
    assert_eq!(to_hex(&[]), "");
    assert_eq!(format_digest(&[0xab, 0xcd, 0xef], 4), "abcd");
}

#[test]
fn streamed_matches_single_pass_for_every_chunk_size() {
    let data = sample(1000);
    let expected = Md5::digest(&data).to_vec();
    for chunk in [1usize, 7, 64, 999, 1000, 5000] {
        assert_eq!(digest_in_chunks(&data, chunk), expected);
    }
}

#[test]
fn streamed_medium_and_large_inputs() {
    let calc = incremental::Md5Calculator::new();
    for len in [524_288usize, 524_289, 3_000_000, 10_485_761] {
        let data = sample(len);
        assert_eq!(calc.calculate_md5_async(&data, 32), reference_hex(&data));
    }
}

#[test]
fn chunk_size_policy() {
    assert_eq!(stream_chunk_size(1), 1);
    assert_eq!(stream_chunk_size(524_288), 524_288);
    assert_eq!(stream_chunk_size(524_289), 131_072);
    assert_eq!(stream_chunk_size(10_485_760), 131_072);
    assert_eq!(stream_chunk_size(10_485_761), 262_144);
}

#[test]
fn hasher_yields_every_two_mebibytes() {
    let data = sample(4_194_304 + 10);
    let mut h = CooperativeHasher::new(data.len());
    let mut yields = Vec::new();
    let mut steps = 0usize;
    while !h.is_done(&data) {
        steps += 1;
        if h.step(&data) {
            yields.push(steps);
        }
    }
    assert_eq!(yields, vec![16, 32]);
    assert_eq!(steps, 33);
    assert_eq!(h.finish(), Md5::digest(&data).to_vec());
}

#[test]
fn parallel_single_task_hashes_the_digest() {
    let par = parallel::Md5Calculator::new(1);
    let inner = Md5::digest(b"abc");
    let expected = reference_hex(&inner);
    assert_eq!(par.calculate_md5_async(b"abc", 32), expected);
    assert_ne!(par.calculate_md5_async(b"abc", 32), ABC_MD5);
}

#[test]
fn parallel_two_tasks_concatenate_in_order() {
    let par = parallel::Md5Calculator::new(2);
    let mut joined = Md5::digest(b"ab").to_vec();
    joined.extend_from_slice(&Md5::digest(b"cde"));
    assert_eq!(par.calculate_md5_async(b"abcde", 32), reference_hex(&joined));
    assert_eq!(par.calculate_md5_async(b"abcde", 16), reference_hex(&joined)[..16]);
}

#[test]
fn parallel_is_deterministic_for_fixed_task_count() {
    let data = sample(10_000);
    let a = parallel::Md5Calculator::new(3).calculate_md5_async(&data, 32);
    let b = parallel::Md5Calculator::new(3).calculate_md5_async(&data, 32);
    assert_eq!(a, b);
    assert_ne!(a, parallel::Md5Calculator::new(4).calculate_md5_async(&data, 32));
}

#[test]
fn parallel_clamps_tasks_to_input_length() {
    let data = b"xy";
    let par = parallel::Md5Calculator::new(8);
    let mut joined = Md5::digest(b"x").to_vec();
    joined.extend_from_slice(&Md5::digest(b"y"));
    assert_eq!(par.calculate_md5_async(data, 32), reference_hex(&joined));
}

#[test]
fn slot_table_ignores_completion_order() {
    let data = sample(100);
    let slices = plan_slices(data.len(), 3);
    let mut forward = SlotTable::new(slices.len());
    let mut backward = SlotTable::new(slices.len());
    assert!(forward.combined_digest().is_none());
    for s in slices.iter() {
        forward.record(s.index, digest_slice(&data, *s));
    }
    for s in slices.iter().rev() {
        backward.record(s.index, digest_slice(&data, *s));
        if s.index > 0 {
            assert!(!backward.is_complete());
        }
    }
    assert!(forward.is_complete());
    assert_eq!(forward.len(), 3);
    let digest = forward.combined_digest().unwrap();
    assert_eq!(Some(digest.clone()), backward.combined_digest());
    let expected = parallel::Md5Calculator::new(3).calculate_md5_async(&data, 32);
    assert_eq!(to_hex(&digest), expected);
}

#[test]
fn digest_slice_covers_its_range() {
    let data = b"hello world";
    let s = plan_slices(data.len(), 2)[1];
    assert_eq!(digest_slice(data, s), Md5::digest(b" world").to_vec());
}
