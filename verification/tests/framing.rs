use pitch_core::framer::{count_frames, windows_of, Framer, Window};
use pitch_core::{pesto, praat, pyin};

fn ramp(lo: u32, hi: u32) -> Vec<u32> {
    (lo..hi).collect()
}

fn windows_as_pairs(ws: Vec<Window<u32>>) -> Vec<(u64, Vec<u32>)> {
    ws.into_iter().map(|w| (w.index, w.samples)).collect()
}

#[test]
fn framer_hands_out_sliding_windows() {
    let mut f: Framer<u32> = Framer::new(4, 2);
    assert!(f.push(&[0, 1, 2]).is_empty());
    let out = windows_as_pairs(f.push(&[3, 4, 5, 6]));
    assert_eq!(out, vec![(0, vec![0, 1, 2, 3]), (1, vec![2, 3, 4, 5])]);
    assert_eq!(f.next_index(), 2);
    assert_eq!(f.buffered(), 3);
    let out = windows_as_pairs(f.push(&[7]));
    assert_eq!(out, vec![(2, vec![4, 5, 6, 7])]);
}

#[test]
fn framer_output_does_not_depend_on_chunking() {
    let audio = ramp(0, 5000);
    let mut whole: Framer<u32> = Framer::new(2048, 960);
    let expected = windows_as_pairs(whole.push(&audio));
    assert_eq!(expected.len(), 4);
    for chunk in [1usize, 7, 960, 1000, 2047, 4999] {
        let mut f: Framer<u32> = Framer::new(2048, 960);
        let mut got = Vec::new();
        for piece in audio.chunks(chunk) {
            got.extend(windows_as_pairs(f.push(piece)));
        }
        assert_eq!(got, expected, "chunk size {}", chunk);
        assert_eq!(f.next_index(), whole.next_index());
        assert_eq!(f.buffered(), whole.buffered());
    }
    // Window k is stream samples [960 k, 960 k + 2048).
    for (k, samples) in &expected {
        let start = (*k as u32) * 960;
        assert_eq!(samples, &ramp(start, start + 2048));
    }
}

#[test]
fn framer_reset_restarts_numbering() {
    let mut f: Framer<u32> = Framer::new(3, 3);
    let _ = f.push(&[1, 2, 3, 4]);
    assert_eq!(f.next_index(), 1);
    f.reset();
    assert_eq!(f.next_index(), 0);
    assert_eq!(f.buffered(), 0);
    let out = windows_as_pairs(f.push(&[9, 8, 7]));
    assert_eq!(out, vec![(0, vec![9, 8, 7])]);
}

#[test]
fn framer_quiet_until_first_window() {
    let mut f: Framer<f32> = praat::praat_framer();
    assert!(f.push(&vec![0.5f32; 2047]).is_empty());
    let out = f.push(&[0.25f32]);
    assert_eq!(out.len(), 1);
    assert_eq!(out[0].index, 0);
    assert_eq!(out[0].samples.len(), 2048);
    assert_eq!(out[0].samples[2047], 0.25f32);
    assert_eq!(f.buffered(), 2048 - 960);
}

#[test]
fn frame_counts() {
    assert_eq!(count_frames(0, 4, 2), 0);
    assert_eq!(count_frames(3, 4, 2), 0);
    assert_eq!(count_frames(4, 4, 2), 1);
    assert_eq!(count_frames(5, 4, 2), 1);
    assert_eq!(count_frames(6, 4, 2), 2);
    assert_eq!(count_frames(5000, 2048, 960), 4);
}

#[test]
fn windows_of_buffer() {
    let buf: Vec<u32> = ramp(0, 7);
    let ws = windows_of(&buf, 3, 2);
    assert_eq!(ws, vec![vec![0, 1, 2], vec![2, 3, 4], vec![4, 5, 6]]);
    assert!(windows_of(&ramp(0, 2), 3, 2).is_empty());
}

#[test]
fn praat_lag_bounds() {
    assert_eq!(praat::lag_range(), (44, 738));
    assert!(!praat::can_refine(44, 44, 738));
    assert!(praat::can_refine(45, 44, 738));
    assert!(praat::can_refine(737, 44, 738));
    assert!(!praat::can_refine(738, 44, 738));
}

#[test]
fn pyin_batches_and_frame_numbers() {
    let mut f: Framer<f64> = pyin::batch_framer();
    assert!(f.push(&vec![0.0f64; 15999]).is_empty());
    let out = f.push(&vec![1.0f64; 16001]);
    assert_eq!(out.len(), 2);
    assert_eq!(out[1].index, 1);
    assert_eq!(f.buffered(), 0);
    assert_eq!(pyin::batch_first_sample(0), 0);
    assert_eq!(pyin::batch_first_sample(3), 48000);
    // Each centred batch yields 17 frames; numbering runs on across batches.
    let mut numbers = pyin::FrameNumbering::new();
    assert_eq!(numbers.take(17), 0);
    assert_eq!(numbers.take(17), 17);
    assert_eq!(numbers.take(17), 34);
    assert_eq!(numbers.next_index(), 51);
    numbers.reset();
    assert_eq!(numbers.next_index(), 0);
    assert_eq!(numbers.take(0), 0);
    assert_eq!(numbers.take(3), 0);
    assert_eq!(numbers.next_index(), 3);
}

#[test]
fn pesto_chunks() {
    let mut f: Framer<u32> = pesto::chunk_framer();
    let out = f.push(&ramp(0, 2000));
    assert_eq!(out.len(), 2);
    assert_eq!(out[1].samples, ramp(960, 1920));
    assert_eq!(f.buffered(), 80);
}

#[test]
fn framer_takes_windows_one_at_a_time() {
    let mut f: Framer<u32> = Framer::new(4, 2);
    f.append(&ramp(0, 7));
    let w = f.take_window().expect("a whole window");
    assert_eq!((w.index, w.samples), (0, ramp(0, 4)));
    // An interrupted caller finds the remaining windows still buffered.
    assert_eq!(f.buffered(), 5);
    f.append(&ramp(7, 9));
    let mut rest = Vec::new();
    while let Some(w) = f.take_window() {
        rest.push((w.index, w.samples));
    }
    assert_eq!(rest, vec![(1, ramp(2, 6)), (2, ramp(4, 8))]);
    assert_eq!(f.buffered(), 3);
    assert_eq!(f.next_index(), 3);
    // Pushing the same audio in one call hands out the same windows.
    let mut g: Framer<u32> = Framer::new(4, 2);
    let all: Vec<(u64, Vec<u32>)> =
        g.push(&ramp(0, 9)).into_iter().map(|w| (w.index, w.samples)).collect();
    assert_eq!(all.len(), 3);
    assert_eq!(all[1..].to_vec(), rest);
}
