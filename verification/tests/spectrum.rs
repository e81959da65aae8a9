use rustalizer::equalizer::dsp::fft::{bit_reverse, butterfly_pass, fft, prepare_data, to_bins};
use rustalizer::equalizer::dsp::{bin_count, process_frame, received, worker_step, Message};

type Twiddle = (f32, f32, f32, f32);

fn hann(sample: f32, idx: usize, size: usize) -> f32 {
    let mult: f32 =
        0.5 * (1. - ((2. * std::f32::consts::PI * idx as f32 / size as f32) as f32).cos());
    sample * mult
}

fn twiddle_start(span: usize) -> Twiddle {
    let theta = 2.0 * std::f32::consts::PI / span as f32;
    let wtemp = (theta * 0.5).sin();
    (1.0, 0.0, -2.0 * wtemp * wtemp, theta.sin())
}

fn twiddle_next(w: Twiddle) -> Twiddle {
    let (wr, wi, wpr, wpi) = w;
    (wr * wpr - wi * wpi + wr, wi * wpr + wr * wpi + wi, wpr, wpi)
}

fn butterfly(w: Twiddle, a_re: f32, a_im: f32, b_re: f32, b_im: f32) -> (f32, f32, f32, f32) {
    let (wr, wi, _, _) = w;
    let tempr = wr * b_re - wi * b_im;
    let tempi = wr * b_im + wi * b_re;
    (a_re + tempr, a_im + tempi, a_re - tempr, a_im - tempi)
}

fn accumulate(sum: f32, re: f32, im: f32) -> f32 {
    sum + (re * re + im * im)
}

fn truncate(sum: f32) -> usize {
    sum as usize
}

fn transform(data: Vec<f32>) -> Vec<f32> {
    fft(data, twiddle_start, twiddle_next, butterfly)
}

fn snapshot(frame: &[f32], bins: usize) -> Vec<usize> {
    process_frame(
        frame,
        bins,
        hann,
        twiddle_start,
        twiddle_next,
        butterfly,
        0.0f32,
        accumulate,
        truncate,
    )
}

// rotation by the positive angle, as the passes do
fn reference_transform(data: &[f64]) -> Vec<f64> {
    let points = data.len() / 2;
    let mut out = vec![0.0f64; data.len()];
    for k in 0..points {
        let mut re = 0.0f64;
        let mut im = 0.0f64;
        for n in 0..points {
            let angle = 2.0 * std::f64::consts::PI * (k * n) as f64 / points as f64;
            let (s, c) = angle.sin_cos();
            re += data[2 * n] * c - data[2 * n + 1] * s;
            im += data[2 * n] * s + data[2 * n + 1] * c;
        }
        out[2 * k] = re;
        out[2 * k + 1] = im;
    }
    out
}

#[test]
fn proper_size() {
    let capacity: usize = 1024;
    let mut vec = Vec::with_capacity(capacity);
    for i in 0..capacity / 2 {
        vec.push(i as f32);
        vec.push(0.0);
    }
    let vec_len = vec.len();
    let transformed = transform(vec);
    assert_eq!(vec_len, transformed.len());
}

#[test]
fn non_zero() {
    let capacity: usize = 1024;
    let mut vec = Vec::with_capacity(capacity);
    for i in 0..capacity / 2 {
        vec.push(i as f32);
        vec.push(0.0);
    }
    let transformed = transform(vec);

    let mut only_zeroes: bool = true;
    for i in transformed.into_iter() {
        println!("{:?}", i);
        if i != 0.0 {
            only_zeroes = false;
        }
    }

    assert_eq!(only_zeroes, false);
}

#[test]
fn transform_keeps_every_power_of_two_length() {
    let mut length: usize = 1;
    while length <= 4096 {
        let data = vec![1.0f32; length];
        assert_eq!(transform(data).len(), length);
        length *= 2;
    }
}

#[test]
fn transform_of_short_buffers_is_the_input() {
    assert_eq!(transform(vec![3.0]), vec![3.0]);
    assert_eq!(transform(vec![3.0, -4.0]), vec![3.0, -4.0]);
}

#[test]
fn transform_of_two_points() {
    // X0 = a + b, X1 = a - b
    let out = transform(vec![1.0, 2.0, 10.0, 20.0]);
    assert_eq!(out, vec![11.0, 22.0, -9.0, -18.0]);
}

#[test]
fn transform_of_an_impulse_is_flat() {
    let mut data = vec![0.0f32; 64];
    data[0] = 1.0;
    let out = transform(data);
    for k in 0..32 {
        assert!((out[2 * k] - 1.0).abs() < 1e-5);
        assert!(out[2 * k + 1].abs() < 1e-5);
    }
}

#[test]
fn transform_of_a_constant_is_at_zero_frequency() {
    let mut data = vec![0.0f32; 128];
    for n in 0..64 {
        data[2 * n] = 1.0;
    }
    let out = transform(data);
    assert!((out[0] - 64.0).abs() < 1e-3);
    assert!(out[1].abs() < 1e-3);
    for slot in 2..128 {
        assert!(out[slot].abs() < 1e-3, "slot {} holds {}", slot, out[slot]);
    }
}

#[test]
fn transform_agrees_with_the_defining_sum() {
    for &points in [2usize, 4, 8, 16, 64, 256].iter() {
        let mut data = Vec::with_capacity(2 * points);
        let mut seed: u32 = 12345;
        for _ in 0..2 * points {
            seed = seed.wrapping_mul(1664525).wrapping_add(1013904223);
            data.push(((seed >> 8) % 2000) as f32 / 1000.0 - 1.0);
        }
        let wide: Vec<f64> = data.iter().map(|&x| x as f64).collect();
        let expected = reference_transform(&wide);
        let out = transform(data);
        assert_eq!(out.len(), 2 * points);
        for slot in 0..2 * points {
            assert!(
                (out[slot] as f64 - expected[slot]).abs() < 1e-3 * points as f64,
                "{} points, slot {}: {} against {}",
                points,
                slot,
                out[slot],
                expected[slot]
            );
        }
    }
}

#[test]
fn bit_reverse_of_eight_pairs() {
    let mut data: Vec<u32> = Vec::new();
    for pair in 0..8u32 {
        data.push(10 * pair);
        data.push(10 * pair + 1);
    }
    bit_reverse(&mut data);
    // 0 4 2 6 1 5 3 7
    assert_eq!(
        data,
        vec![0, 1, 40, 41, 20, 21, 60, 61, 10, 11, 50, 51, 30, 31, 70, 71]
    );
}

#[test]
fn bit_reverse_of_sixteen_pairs_trades_the_tail_too() {
    let mut data: Vec<usize> = Vec::new();
    for pair in 0..16usize {
        data.push(pair);
        data.push(100 + pair);
    }
    bit_reverse(&mut data);
    let order = [0usize, 8, 4, 12, 2, 10, 6, 14, 1, 9, 5, 13, 3, 11, 7, 15];
    for pair in 0..16 {
        assert_eq!(data[2 * pair], order[pair]);
        assert_eq!(data[2 * pair + 1], 100 + order[pair]);
    }
}

#[test]
fn bit_reverse_twice_is_the_input() {
    let mut length: usize = 1;
    while length <= 512 {
        let initial: Vec<usize> = (0..length).collect();
        let mut data = initial.clone();
        bit_reverse(&mut data);
        bit_reverse(&mut data);
        assert_eq!(data, initial);
        length *= 2;
    }
}

#[test]
fn butterfly_pass_meets_each_pair_once() {
    // a rotation that counts the turns, a butterfly that records who met whom
    let start = |_span: usize| 0u32;
    let next = |turn: u32| turn + 1;
    let meet = |turn: u32, a_re: u32, _a_im: u32, b_re: u32, _b_im: u32| {
        (1000 * b_re + a_re, turn, 1000 * a_re + b_re, turn)
    };
    let mut data: Vec<u32> = Vec::new();
    for pair in 0..8u32 {
        data.push(pair + 1);
        data.push(0);
    }
    butterfly_pass(&mut data, 4, &start, &next, &meet);
    // span 4: blocks of four pairs, pair t meets pair t + 2 under turn t
    assert_eq!(
        data,
        vec![3001, 0, 4002, 1, 1003, 0, 2004, 1, 7005, 0, 8006, 1, 5007, 0, 6008, 1]
    );
}

#[test]
fn prepared_length_is_the_smallest_power_of_two() {
    let keep = |sample: i32, _i: usize, _n: usize| sample;
    let cases = [
        (0usize, 1usize),
        (1, 2),
        (2, 4),
        (3, 8),
        (4, 8),
        (5, 16),
        (8, 16),
        (9, 32),
        (512, 1024),
        (513, 2048),
        (1024, 2048),
    ];
    for &(frame, expected) in cases.iter() {
        let data = vec![7i32; frame];
        let out = prepare_data(&data, frame, keep);
        assert_eq!(out.len(), expected, "frame of {}", frame);
        assert!(out.len().is_power_of_two());
        assert!(out.len() >= 2 * frame);
    }
}

#[test]
fn prepared_buffer_interleaves_and_pads() {
    let weigh = |sample: i32, index: usize, length: usize| sample * (index as i32) + length as i32;
    let data = vec![5, 6, 7, 8, 9];
    let out = prepare_data(&data, 3, weigh);
    assert_eq!(out, vec![3, 0, 9, 0, 17, 0, 0, 0]);
}

#[test]
fn bins_of_a_buffer_over_the_ceiling_are_none() {
    let add = |sum: u64, re: u64, im: u64| sum + re * re + im * im;
    let whole = |sum: u64| sum as usize;
    assert_eq!(to_bins(vec![9u64; 44101], 31, 0u64, add, whole), Vec::<usize>::new());
    assert_eq!(to_bins(vec![9u64; 65536], 31, 0u64, add, whole).len(), 0);
    assert_eq!(to_bins(vec![9u64; 44100], 31, 0u64, add, whole).len(), 31);
}

#[test]
fn bins_are_as_many_as_asked_for() {
    let add = |sum: u64, re: u64, im: u64| sum + re * re + im * im;
    let whole = |sum: u64| sum as usize;
    for &length in [0usize, 1, 2, 3, 4, 8, 100, 1024, 2048, 32768].iter() {
        for &bins in [0usize, 1, 2, 7, 31, 32, 600, 20000].iter() {
            let out = to_bins(vec![1u64; length], bins, 0u64, add, whole);
            assert_eq!(out.len(), bins, "length {} bins {}", length, bins);
        }
    }
}

#[test]
fn bins_sum_the_first_quarter_without_the_first_pair() {
    // 32 slots: 16 pairs, the first 8 are looked at; 3 bins of width 3
    let add = |sum: u64, re: u64, im: u64| sum + re * re + im * im;
    let whole = |sum: u64| sum as usize;
    let mut data: Vec<u64> = Vec::new();
    for pair in 0..16u64 {
        data.push(pair + 1);
        data.push(2);
    }
    let out = to_bins(data, 3, 0u64, add, whole);
    // pair p holds (p + 1, 2): magnitude (p + 1)^2 + 4
    // bin 0: pairs 1, 2        -> 8 + 13 = 21 -> 7
    // bin 1: pairs 3, 4, 5     -> 20 + 29 + 40 = 89 -> 29
    // bin 2: pairs 6, 7        -> 53 + 68 = 121 -> 40
    assert_eq!(out, vec![7, 29, 40]);
}

#[test]
fn bins_of_a_buffer_without_a_quarter_are_zero() {
    let add = |sum: u64, re: u64, im: u64| sum + re * re + im * im;
    let whole = |sum: u64| sum as usize + 5;
    assert_eq!(to_bins(vec![3u64; 2], 4, 0u64, add, whole), vec![0, 0, 0, 0]);
}

#[test]
fn silence_gives_thirty_one_zero_bins() {
    let frame = vec![0.0f32; 512];
    let out = snapshot(&frame, 31);
    assert_eq!(out, vec![0usize; 31]);
}

#[test]
fn sinusoid_peaks_in_its_bin() {
    let cycles = 100.0f32;
    let mut frame = Vec::with_capacity(1024);
    for n in 0..1024 {
        frame.push((2.0 * std::f32::consts::PI * cycles * n as f32 / 1024.0).sin());
    }
    let out = snapshot(&frame, 31);
    assert_eq!(out.len(), 31);
    // 2048 slots, a quarter of 512 pairs, 17 pairs to a bin: pair 100 counts for bin 5
    let peak = 5;
    assert!(out[peak] > 0);
    for bin in 0..31 {
        if bin != peak {
            assert!(out[bin] < out[peak], "bin {} holds {}, the peak {}", bin, out[bin], out[peak]);
        }
    }
}

#[test]
fn oversized_frame_is_thrown_away() {
    let frame = vec![0.5f32; 30000];
    assert_eq!(snapshot(&frame, 31), Vec::<usize>::new());
}

#[test]
fn worker_answers_a_frame_and_stops_on_anything_else() {
    let reply = worker_step(
        Message::Raw(vec![0.0f32; 512]),
        31,
        hann,
        twiddle_start,
        twiddle_next,
        butterfly,
        0.0f32,
        accumulate,
        truncate,
    );
    match reply {
        Some(Message::Processed(payload)) => assert_eq!(payload, vec![0usize; 31]),
        _ => panic!("a frame must be answered with a snapshot"),
    }
    let stop = worker_step(
        Message::<f32>::Terminate,
        31,
        hann,
        twiddle_start,
        twiddle_next,
        butterfly,
        0.0f32,
        accumulate,
        truncate,
    );
    assert!(stop.is_none());
    let stray = worker_step(
        Message::<f32>::Processed(vec![1, 2, 3]),
        31,
        hann,
        twiddle_start,
        twiddle_next,
        butterfly,
        0.0f32,
        accumulate,
        truncate,
    );
    assert!(stray.is_none());
}

#[test]
fn owner_takes_only_snapshots_with_entries() {
    assert_eq!(received(Message::<f32>::Processed(vec![4, 5])), Some(vec![4, 5]));
    assert_eq!(received(Message::<f32>::Processed(Vec::new())), None);
    assert_eq!(received(Message::<f32>::Terminate), None);
    assert_eq!(received(Message::Raw(vec![1.0f32])), None);
}

#[test]
fn bin_count_defaults_to_thirty_one() {
    assert_eq!(bin_count(None), 31);
    assert_eq!(bin_count(Some(12)), 12);
}
