use wavesynth::cleanup::{bounded_trimmed_len, fully_trimmed_len, trimmed_len, ChannelBank};
use wavesynth::explore::{
    candidate_pairs, combinable, compatible, parameter_tuples, prefers_low_bit_depth, WaveInfo,
};
use wavesynth::identity::{
    accepts, identity_bytes, identity_hash, output_file, plan, shard_dir, synthesis_needed, Mode,
    Params,
};
use wavesynth::noise::{backward_diff, signature_bytes};
use wavesynth::ratio::{default_factors, output_cap, ratio_pairs, triple_admissible, RatioPair};
use wavesynth::resample::{align, resample, stretch};

fn rp(x: usize, s: usize) -> RatioPair {
    RatioPair::new(x, s)
}

fn params(a: RatioPair, b: RatioPair, out: RatioPair, mode: Mode, ia: bool, ib: bool) -> Params {
    Params { a, b, out, mode, invert_a: ia, invert_b: ib }
}

#[test]
fn neutral_ratio_is_identity() {
    let v = vec![3, 1, 4, 1, 5, 9, 2, 6];
    assert_eq!(resample(&v, 1, 1), v);
}

#[test]
fn stretch_then_stride_round_trips() {
    let v = vec![7u8, 0, 255, 3, 3];
    for x in 1..6 {
        let up = resample(&v, x, 1);
        assert_eq!(up.len(), v.len() * x);
        assert_eq!(resample(&up, 1, x), v);
    }
}

#[test]
fn rational_resampling_holds_samples() {
    // repeated: 1 1 2 2 3 3; every third kept
    assert_eq!(resample(&vec![1, 2, 3], 2, 3), vec![1, 2]);
    assert_eq!(resample(&vec![1, 2, 3], 3, 2), vec![1, 1, 2, 3, 3]);
    assert_eq!(resample(&Vec::<i32>::new(), 5, 1), Vec::<i32>::new());
}

#[test]
fn align_cycles_the_shorter_stream() {
    let a = vec![1, 2, 3];
    let b = vec![10, 20];
    assert_eq!(align(&a, &b), vec![(1, 10), (2, 20), (3, 10)]);
    assert_eq!(align(&a, &Vec::<i32>::new()), Vec::<(i32, i32)>::new());
}

#[test]
fn align_in_other_order_swaps_pairs() {
    let a = vec![1.5f32, -0.25, 0.75];
    let b = vec![0.5f32, 2.0];
    let ab = align(&a, &b);
    let ba = align(&b, &a);
    let swapped: Vec<(f32, f32)> = ab.iter().map(|p| (p.1, p.0)).collect();
    assert_eq!(ba, swapped);
    let prod_ab: Vec<f32> = stretch(&ab, 2, 3, 7).iter().map(|p| p.0 * p.1).collect();
    let prod_ba: Vec<f32> = stretch(&ba, 2, 3, 7).iter().map(|p| p.0 * p.1).collect();
    assert_eq!(prod_ab, prod_ba);
}

#[test]
fn stretch_cycles_to_the_cap() {
    assert_eq!(stretch(&vec![1, 2], 1, 1, 5), vec![1, 2, 1, 2, 1]);
    assert_eq!(stretch(&vec![1, 2], 2, 3, 4), vec![1, 2, 2, 1]);
    assert_eq!(stretch(&Vec::<u8>::new(), 1, 1, 4), Vec::<u8>::new());
}

#[test]
fn impulse_product_under_neutral_ratios() {
    let mut a = vec![0.0f32; 8];
    a[3] = 1.0;
    let b = a.clone();
    let n = rp(1, 1);
    let cap = output_cap(a.len(), b.len(), n, n, n);
    assert_eq!(cap, 8);
    let ra = resample(&a, 1, 1);
    let rb = resample(&b, 1, 1);
    let prod: Vec<f32> = align(&ra, &rb).iter().map(|p| p.0 * p.1).collect();
    let out = stretch(&prod, 1, 1, cap);
    let expected: Vec<f32> = a.iter().zip(b.iter()).map(|(x, y)| x * y).collect();
    assert_eq!(out.len(), 8);
    assert_eq!(out, expected);
    assert_eq!(out.iter().filter(|v| **v != 0.0).count(), 1);
}

#[test]
fn default_ratio_pairs() {
    let f = default_factors();
    assert_eq!(f, vec![1, 2, 3, 5]);
    let pairs = ratio_pairs(&f);
    assert_eq!(pairs.len(), 13);
    assert_eq!(pairs[0], rp(1, 1));
    assert_eq!(pairs[1], rp(1, 2));
    assert!(!pairs.contains(&rp(2, 2)));
    assert!(!pairs.contains(&rp(5, 5)));
    assert!(pairs.contains(&rp(5, 3)));
}

#[test]
fn pruning_rejects_two_crushed_or_two_stretched() {
    assert!(!triple_admissible(rp(1, 2), rp(1, 3), rp(1, 1)));
    assert!(!triple_admissible(rp(2, 1), rp(1, 1), rp(5, 2)));
    assert!(!triple_admissible(rp(1, 5), rp(1, 2), rp(1, 3)));
    assert!(triple_admissible(rp(1, 2), rp(1, 1), rp(2, 1)));
    assert!(triple_admissible(rp(1, 1), rp(1, 1), rp(1, 1)));
    assert!(triple_admissible(rp(2, 3), rp(3, 2), rp(1, 3)));
}

#[test]
fn output_cap_counts_at_most_three() {
    assert_eq!(output_cap(100, 80, rp(5, 1), rp(1, 1), rp(1, 1)), 240);
    assert_eq!(output_cap(100, 80, rp(1, 2), rp(1, 1), rp(1, 1)), 160);
    assert_eq!(output_cap(10, 80, rp(1, 1), rp(1, 1), rp(1, 1)), 10);
}

#[test]
fn identity_hash_known_value() {
    let p = params(rp(2, 1), rp(1, 1), rp(1, 1), Mode::ArctanSum, true, false);
    let h = identity_hash(&b"a.wav".to_vec(), &b"b.wav".to_vec(), &p);
    assert_eq!(
        String::from_utf8(h).unwrap(),
        "f037b9fe532e574a91217c6b12fe2610f0850d3a57a964509c00ee9748974613"
    );
    let n = rp(1, 1);
    let q = params(n, n, n, Mode::Multiply, false, false);
    let h = identity_hash(&b"a.wav".to_vec(), &b"b.wav".to_vec(), &q);
    assert_eq!(
        String::from_utf8(h).unwrap(),
        "c75554d71faabc06e440baeccbe4d4e54cd4002c8be4c70c66abadb8224cf619"
    );
}

#[test]
fn neutral_components_leave_no_bytes() {
    let n = rp(1, 1);
    let p = params(n, n, n, Mode::Divide, false, true);
    let bytes = identity_bytes(&b"x".to_vec(), &b"yz".to_vec(), &p);
    assert_eq!(bytes, b"xyzdivbom".to_vec());
    let q = params(rp(1, 3), n, n, Mode::Multiply, false, false);
    let bytes = identity_bytes(&b"x".to_vec(), &b"y".to_vec(), &q);
    let mut expected = b"xy".to_vec();
    expected.extend_from_slice(&1u64.to_le_bytes());
    expected.extend_from_slice(&3u64.to_le_bytes());
    assert_eq!(bytes, expected);
}

#[test]
fn identity_hash_sensitive_to_value_and_index() {
    let n = rp(1, 1);
    let pa = b"left.wav".to_vec();
    let pb = b"right.wav".to_vec();
    let base = identity_hash(&pa, &pb, &params(rp(2, 1), n, n, Mode::Multiply, false, false));
    let other_value = identity_hash(&pa, &pb, &params(rp(3, 1), n, n, Mode::Multiply, false, false));
    let other_index = identity_hash(&pa, &pb, &params(n, rp(2, 1), n, Mode::Multiply, false, false));
    assert_ne!(base, other_value);
    assert_ne!(base, other_index);
    assert_ne!(other_value, other_index);
}

#[test]
fn prefix_gate() {
    let h = b"abcdef".to_vec();
    assert!(accepts(&h, &Vec::new()));
    assert!(accepts(&h, &b"abc".to_vec()));
    assert!(!accepts(&h, &b"abd".to_vec()));
    assert!(!accepts(&h, &b"abcdefg".to_vec()));
}

#[test]
fn sharded_paths() {
    let h = b"0123abcd".to_vec();
    assert_eq!(shard_dir(&b"out".to_vec(), &h), b"out/0123".to_vec());
    assert_eq!(output_file(&b"out".to_vec(), &h), b"out/0123/0123abcd.wav".to_vec());
}

#[test]
fn plan_follows_prefix() {
    let n = rp(1, 1);
    let p = params(n, n, n, Mode::Multiply, false, false);
    let pa = b"a.wav".to_vec();
    let pb = b"b.wav".to_vec();
    let o = plan(&b"root".to_vec(), &b"c755".to_vec(), &pa, &pb, &p).unwrap();
    let h = "c75554d71faabc06e440baeccbe4d4e54cd4002c8be4c70c66abadb8224cf619";
    assert_eq!(o.hash, h.as_bytes().to_vec());
    assert_eq!(o.shard_dir, b"root/c755".to_vec());
    assert_eq!(o.file, format!("root/c755/{h}.wav").into_bytes());
    assert!(plan(&b"root".to_vec(), &b"c756".to_vec(), &pa, &pb, &p).is_none());
}

#[test]
fn existing_output_skips_synthesis() {
    assert!(synthesis_needed(true, false));
    assert!(!synthesis_needed(true, true));
    assert!(!synthesis_needed(false, false));
    assert!(!synthesis_needed(false, true));
}

#[test]
fn differing_sample_rates_are_never_paired() {
    let infos = vec![
        WaveInfo { channels: 1, sample_rate: 8000, len: 10 },
        WaveInfo { channels: 1, sample_rate: 44100, len: 10 },
        WaveInfo { channels: 1, sample_rate: 8000, len: 20 },
        WaveInfo { channels: 2, sample_rate: 8000, len: 20 },
    ];
    let pairs = candidate_pairs(&infos);
    assert_eq!(pairs, vec![(0, 0), (0, 2), (1, 1), (2, 0), (2, 2), (3, 3)]);
    assert!(!compatible(&infos[0], &infos[1]));
    let n = rp(1, 1);
    for mode in [Mode::Multiply, Mode::Divide, Mode::ArctanSum, Mode::FreqMultiply, Mode::FreqDivideNormalized] {
        let p = params(n, n, n, mode, false, false);
        assert!(!combinable(&infos[0], &infos[1], &p));
        assert!(combinable(&infos[0], &infos[2], &p));
    }
}

#[test]
fn parameter_space_size() {
    let pairs = ratio_pairs(&default_factors());
    let tuples = parameter_tuples(&pairs);
    assert_eq!(tuples.len(), 24100);
    assert_eq!(tuples[0], params(rp(1, 1), rp(1, 1), rp(1, 1), Mode::Multiply, true, true));
    assert_eq!(tuples[3], params(rp(1, 1), rp(1, 1), rp(1, 1), Mode::Multiply, false, false));
    assert_eq!(tuples[4], params(rp(1, 1), rp(1, 1), rp(1, 1), Mode::ArctanSum, true, true));
    assert_eq!(tuples[19], params(rp(1, 1), rp(1, 1), rp(1, 1), Mode::FreqDivideNormalized, false, false));
    assert_eq!(tuples[20].a, rp(1, 2));
    assert!(tuples.iter().all(|p| triple_admissible(p.a, p.b, p.out)));
}

#[test]
fn backward_difference_wraps() {
    assert_eq!(backward_diff(&vec![5, 3, 10]), vec![251, 2, 249]);
    assert_eq!(backward_diff(&Vec::new()), Vec::<u8>::new());
}

#[test]
fn signature_of_constant_stream() {
    // zipped differences: 4-1=3 each; first pass 253,0,0; second 3,253,0
    assert_eq!(signature_bytes(&vec![4, 4, 4], &vec![1, 1, 1, 9]), vec![3, 253, 0]);
}

#[test]
fn trimming_quiet_tails() {
    let loud = vec![true, false, true, false, false, false];
    assert_eq!(trimmed_len(&loud, 2), 4);
    assert_eq!(trimmed_len(&loud, 10), 3);
    assert_eq!(fully_trimmed_len(&loud), 3);
    assert_eq!(bounded_trimmed_len(&loud), 4);
    assert_eq!(fully_trimmed_len(&vec![false, false]), 0);
    assert_eq!(fully_trimmed_len(&vec![false, true]), 2);
}

#[test]
fn channel_lengths_are_reconciled() {
    let mut bank = ChannelBank::new();
    bank.push_channel(vec![1, 2, 3]);
    bank.push_channel(vec![9]);
    assert_eq!(bank.channel(1), &vec![9, 2, 3]);
    bank.push_channel(vec![4, 5, 6, 7, 8]);
    assert_eq!(bank.channel_count(), 3);
    assert_eq!(bank.len(), 5);
    assert_eq!(
        bank.into_channels(),
        vec![vec![1, 2, 3, 7, 8], vec![9, 2, 3, 7, 8], vec![4, 5, 6, 7, 8]]
    );
}

#[test]
fn bit_depth_follows_duration() {
    assert!(prefers_low_bit_depth(15, 10, 10));
    assert!(!prefers_low_bit_depth(14, 10, 10));
    assert!(!prefers_low_bit_depth(15, 10, 11));
}
