use boop::mixer::{mix_into, Mixer};
use boop::rechanneler::{remap, Rechanneler};
use boop::render::fill_from;
use boop::resampler::{interpolate, Resampler};
use boop::source::{Sample, Source};
use boop::Player;

fn player(channels: u16, rate: u32, samples: Vec<Sample>) -> Player {
    Player::new(channels, rate, samples.into_boxed_slice())
}

#[test]
fn player_writes_in_chunks_then_zero() {
    let mut p = player(1, 44100, vec![1, 2, 3, 4, 5, 6, 7]);
    let mut buf = [0i16; 3];
    assert_eq!(p.write_samples(&mut buf), 3);
    assert_eq!(buf, [1, 2, 3]);
    assert_eq!(p.write_samples(&mut buf), 3);
    assert_eq!(buf, [4, 5, 6]);
    assert_eq!(p.write_samples(&mut buf), 1);
    assert_eq!(buf[0], 7);
    let mut after = [9i16; 3];
    assert_eq!(p.write_samples(&mut after), 0);
    assert_eq!(after, [9, 9, 9]);
}

#[test]
fn player_total_equals_sample_count() {
    for n in 0..12usize {
        for l in 1..6usize {
            let samples: Vec<Sample> = (0..n as i16).collect();
            let mut p = player(1, 8000, samples.clone());
            let mut seen: Vec<Sample> = Vec::new();
            let mut left = n;
            loop {
                let mut buf = vec![0i16; l];
                let w = p.write_samples(&mut buf);
                assert_eq!(w, left.min(l));
                seen.extend_from_slice(&buf[..w]);
                left -= w;
                if w < l {
                    break;
                }
            }
            assert_eq!(seen, samples);
        }
    }
}

#[test]
fn exhausted_source_keeps_returning_zero() {
    let mut p = player(2, 48000, vec![1, 2]);
    let mut buf = [0i16; 4];
    assert_eq!(p.write_samples(&mut buf), 2);
    for _ in 0..5 {
        let mut b = [3i16; 4];
        assert_eq!(p.write_samples(&mut b), 0);
        assert_eq!(b, [3, 3, 3, 3]);
    }
}

#[test]
fn player_reports_format() {
    let p = player(2, 22050, vec![]);
    assert_eq!(p.channel_count(), 2);
    assert_eq!(p.sample_rate(), 22050);
}

#[test]
fn mixer_lengths_five_three_eight_request_ten() {
    let mut m: Mixer<Player> = Mixer::new(1, 100);
    for n in [5usize, 3, 8] {
        assert!(m.add(player(1, 100, vec![1; n])).is_ok());
    }
    assert_eq!(m.len(), 3);
    let mut buf = [0i16; 10];
    assert_eq!(m.write_samples(&mut buf), 8);
    assert_eq!(buf, [3, 3, 3, 2, 2, 1, 1, 1, 0, 0]);
    assert_eq!(m.len(), 0);
    let mut again = [0i16; 10];
    assert_eq!(m.write_samples(&mut again), 0);
}

#[test]
fn mixer_drops_sources_as_they_end() {
    let mut m: Mixer<Player> = Mixer::new(1, 100);
    for n in [5usize, 3, 8] {
        assert!(m.add(player(1, 100, vec![1; n])).is_ok());
    }
    let mut buf = [0i16; 2];
    assert_eq!(m.write_samples(&mut buf), 2);
    assert_eq!(buf, [3, 3]);
    assert_eq!(m.len(), 3);
    assert_eq!(m.write_samples(&mut buf), 2);
    assert_eq!(buf, [3, 2]);
    assert_eq!(m.len(), 2);
    assert_eq!(m.write_samples(&mut buf), 2);
    assert_eq!(buf, [2, 1]);
    assert_eq!(m.len(), 1);
    assert_eq!(m.write_samples(&mut buf), 2);
    assert_eq!(buf, [1, 1]);
    assert_eq!(m.len(), 1);
    assert_eq!(m.write_samples(&mut buf), 0);
    assert_eq!(m.len(), 0);
}

#[test]
fn mixer_rejects_mismatched_source() {
    let mut m: Mixer<Player> = Mixer::new(2, 48000);
    assert!(m.add(player(1, 48000, vec![1])).is_err());
    assert!(m.add(player(2, 44100, vec![1])).is_err());
    assert!(m.add(player(2, 48000, vec![1])).is_ok());
    assert_eq!(m.len(), 1);
}

#[test]
fn mix_clips_to_sample_range() {
    let mut acc = [30000i16, -30000, 5];
    mix_into(&mut acc, &[10000, -10000, 5], 2);
    assert_eq!(acc, [32767, -32768, 5]);
}

#[test]
fn rechanneler_mono_stereo_round_trip() {
    let signal: Vec<Sample> = vec![1, -3, 5, 32767, -32768];
    let up = remap(&signal, 1, 2);
    assert_eq!(up, vec![1, 1, -3, -3, 5, 5, 32767, 32767, -32768, -32768]);
    assert_eq!(remap(&up, 2, 1), signal);

    let stereo = Rechanneler::new(player(1, 8000, signal.clone()), 2);
    let mut mono = Rechanneler::new(stereo, 1);
    assert_eq!(mono.channel_count(), 1);
    assert_eq!(mono.sample_rate(), 8000);
    let mut buf = [0i16; 5];
    assert_eq!(mono.write_samples(&mut buf), 5);
    assert_eq!(buf.to_vec(), signal);
    let mut more = [0i16; 5];
    assert_eq!(mono.write_samples(&mut more), 0);
}

#[test]
fn remap_averages_and_replicates() {
    assert_eq!(remap(&[1, 2, -1, -2], 2, 1), vec![1, -2]);
    assert_eq!(remap(&[1, 2], 2, 3), vec![1, 2, 1]);
    assert_eq!(remap(&[1, 2, 3], 3, 2), vec![2, 2]);
    assert_eq!(remap(&[1, 2, 3], 2, 1), vec![1]);
}

#[test]
fn rechanneler_ends_with_inner_source() {
    let mut r = Rechanneler::new(player(1, 100, vec![4, 5, 6]), 2);
    let mut buf = [0i16; 4];
    assert_eq!(r.write_samples(&mut buf), 4);
    assert_eq!(buf, [4, 4, 5, 5]);
    assert_eq!(r.write_samples(&mut buf), 2);
    assert_eq!(&buf[..2], &[6, 6]);
    assert_eq!(r.write_samples(&mut buf), 0);
}

fn drain(src: &mut impl Source, chunk: usize) -> Vec<Sample> {
    let mut out = Vec::new();
    loop {
        let mut buf = vec![0i16; chunk];
        let w = src.write_samples(&mut buf);
        out.extend_from_slice(&buf[..w]);
        if w < chunk {
            return out;
        }
    }
}

#[test]
fn resampler_constant_signal_stays_constant() {
    for (n, from, to) in [(10usize, 1000u32, 1500u32), (10, 1000, 300), (7, 44100, 48000), (5, 3, 7)] {
        let mut r = Resampler::new(player(1, from, vec![100; n]), to);
        assert_eq!(r.sample_rate(), to);
        let out = drain(&mut r, 4);
        let expect = (n as u64 * to as u64 + from as u64 - 1) / from as u64;
        assert_eq!(out.len() as u64, expect);
        assert!(out.iter().all(|&x| x == 100));
    }
}

#[test]
fn resampler_interpolates_linearly() {
    let mut r = Resampler::new(player(1, 1, vec![0, 100]), 2);
    assert_eq!(drain(&mut r, 3), vec![0, 50, 100, 100]);
}

#[test]
fn resampler_keeps_phase_across_calls() {
    let mut a = Resampler::new(player(1, 3, vec![0, 30, 60, 90]), 5);
    let mut b = Resampler::new(player(1, 3, vec![0, 30, 60, 90]), 5);
    assert_eq!(drain(&mut a, 1), drain(&mut b, 64));
}

#[test]
fn resampler_stereo_keeps_channels() {
    let mut r = Resampler::new(player(2, 1, vec![0, 10, 100, 110]), 2);
    assert_eq!(r.channel_count(), 2);
    assert_eq!(drain(&mut r, 4), vec![0, 10, 50, 60, 100, 110, 100, 110]);
}

#[test]
fn interpolate_rounds_down() {
    assert_eq!(interpolate(0, 100, 1, 2), 50);
    assert_eq!(interpolate(-1, 0, 1, 2), -1);
    assert_eq!(interpolate(7, 7, 3, 4), 7);
    assert_eq!(interpolate(-32768, 32767, 0, 9), -32768);
}

#[test]
fn fill_zero_pads_and_counts_frames() {
    let mut p = player(2, 48000, vec![5, 6, 7]);
    let mut buf = [9i16; 6];
    assert_eq!(fill_from(&mut p, &mut buf, 2), 2);
    assert_eq!(buf, [5, 6, 7, 0, 0, 0]);
    let mut again = [9i16; 4];
    assert_eq!(fill_from(&mut p, &mut again, 2), 0);
    assert_eq!(again, [0, 0, 0, 0]);
}
