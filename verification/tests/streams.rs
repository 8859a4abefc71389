use pitch_core::crepe::CrepeStream;
use pitch_core::decode::decoder_window;
use pitch_core::fcpe::FcpeStream;
use pitch_core::rmvpe::{layout_frames, padded_frames, RmvpePlan, RmvpeStream};
use pitch_core::samples::FrameSlot;
use pitch_core::swiftf0::{Mode, SwiftF0Config, SwiftF0Stream};

fn slot(frame_index: u64, position: usize, is_preliminary: bool) -> FrameSlot {
    FrameSlot { frame_index, position, is_preliminary }
}

fn ramp(lo: u32, hi: u32) -> Vec<u32> {
    (lo..hi).collect()
}

#[test]
fn swiftf0_balanced_runs_on_aligned_prefix() {
    let mut s: SwiftF0Stream<u32> = SwiftF0Stream::new(SwiftF0Config::from_mode(Mode::Balanced));
    assert!(s.begin(&ramp(0, 1000)).is_none());
    let input = s.begin(&ramp(1000, 1100)).expect("enough fresh audio");
    assert_eq!(input, ramp(0, 1024));
    let slots = s.finish(4);
    assert_eq!(slots, (0..4).map(|i| slot(i as u64, i, false)).collect::<Vec<_>>());
    assert_eq!(s.next_frame_index(), 4);
    assert_eq!(s.context_frames(), 4);
    assert!(s.begin(&ramp(1100, 2000)).is_none());
    let input = s.begin(&ramp(2000, 2048)).expect("enough fresh audio");
    assert_eq!(input, ramp(0, 2048));
    let slots = s.finish(8);
    assert_eq!(slots, (4..8).map(|i| slot(i as u64, i, false)).collect::<Vec<_>>());
    assert_eq!(s.next_frame_index(), 8);
    // The last 1024 samples stay as context.
    let input = s.begin(&ramp(2048, 3072)).expect("enough fresh audio");
    assert_eq!(input, ramp(1024, 3072));
}

#[test]
fn swiftf0_progressive_reemits_settled_frames() {
    let mut s: SwiftF0Stream<u32> =
        SwiftF0Stream::new(SwiftF0Config::from_mode(Mode::Progressive));
    let mut all = Vec::new();
    for call in 0..9u32 {
        let input = s.begin(&ramp(call * 256, call * 256 + 256)).expect("one hop is enough");
        let total = input.len() / 256;
        all.push(s.finish(total));
    }
    assert_eq!(all[0], vec![slot(0, 0, true)]);
    assert_eq!(all[1], vec![slot(1, 1, true)]);
    assert_eq!(all[2], vec![slot(2, 2, true)]);
    // Frame 0 has three frames of right context once frame 3 exists.
    assert_eq!(all[3], vec![slot(0, 0, false), slot(3, 3, true)]);
    assert_eq!(all[4], vec![slot(1, 1, false), slot(4, 4, true)]);
    assert_eq!(all[5], vec![slot(2, 2, false), slot(5, 5, true)]);
    assert_eq!(all[7], vec![slot(4, 4, false), slot(7, 7, true)]);
    // The context is full (7 hops): the buffer now starts at frame 1.
    assert_eq!(all[8], vec![slot(5, 4, false), slot(8, 7, true)]);
}

#[test]
fn swiftf0_progressive_settles_after_a_long_run() {
    let mut s: SwiftF0Stream<u32> =
        SwiftF0Stream::new(SwiftF0Config::from_mode(Mode::Progressive));
    let input = s.begin(&ramp(0, 1280)).unwrap();
    let first = s.finish(input.len() / 256);
    assert_eq!(
        first,
        vec![slot(0, 0, false), slot(1, 1, false), slot(2, 2, false), slot(3, 3, false), slot(4, 4, true)]
    );
    let input = s.begin(&ramp(1280, 2560)).unwrap();
    assert_eq!(input, ramp(0, 2560));
    let second = s.finish(input.len() / 256);
    assert_eq!(
        second,
        vec![
            slot(4, 4, false),
            slot(5, 5, false),
            slot(6, 6, false),
            slot(7, 7, false),
            slot(8, 8, false),
            slot(9, 9, true),
        ]
    );
}

#[test]
fn swiftf0_progressive_never_resettles() {
    let mut s: SwiftF0Stream<u32> =
        SwiftF0Stream::new(SwiftF0Config::from_mode(Mode::Progressive));
    let input = s.begin(&ramp(0, 1280)).unwrap();
    let _ = s.finish(input.len() / 256);
    let input = s.begin(&ramp(1280, 1536)).unwrap();
    // Frame 4 has one frame of right context: nothing is settled yet, and
    // frame 1, never preliminary, is not emitted again.
    assert_eq!(s.finish(input.len() / 256), vec![slot(5, 5, true)]);
}

#[test]
fn swiftf0_progressive_repeats_only_as_settlements() {
    let sizes = [341usize, 342, 341, 1000, 17, 256, 512, 3, 700, 341, 342];
    let mut s: SwiftF0Stream<u32> =
        SwiftF0Stream::new(SwiftF0Config::from_mode(Mode::Progressive));
    let mut emitted: Vec<FrameSlot> = Vec::new();
    let mut pos = 0u32;
    for round in 0..60 {
        let n = sizes[round % sizes.len()];
        let audio = ramp(pos, pos + n as u32);
        pos += n as u32;
        if let Some(input) = s.begin(&audio) {
            assert_eq!(input[0] % 256, 0);
            let total = input.len() / 256;
            for sl in s.finish(total) {
                // The row read holds the hop that starts at stream sample 256 * index.
                assert_eq!(input[sl.position * 256], sl.frame_index as u32 * 256);
                emitted.push(sl);
            }
        }
    }
    let next = s.next_frame_index();
    for j in 0..next {
        let seen: Vec<&FrameSlot> = emitted.iter().filter(|x| x.frame_index == j).collect();
        assert!(!seen.is_empty());
        assert!(seen.len() <= 2);
        if seen.len() == 2 {
            assert!(seen[0].is_preliminary && !seen[1].is_preliminary);
        } else if seen[0].is_preliminary {
            // Still owed: fewer than three newer frames exist.
            assert!(next < j + 4);
        }
    }
}

#[test]
fn swiftf0_never_preliminary_outside_progressive() {
    let mut s: SwiftF0Stream<u32> =
        SwiftF0Stream::new(SwiftF0Config::from_mode(Mode::LowLatency));
    for call in 0..10u32 {
        let input = s.begin(&ramp(call * 256, call * 256 + 256)).unwrap();
        for sl in s.finish(input.len() / 256) {
            assert!(!sl.is_preliminary);
        }
    }
    assert_eq!(s.next_frame_index(), 10);
    s.reset();
    assert_eq!(s.next_frame_index(), 0);
    assert!(s.begin(&ramp(0, 255)).is_none());
}

#[test]
fn fcpe_emits_only_fresh_frames() {
    let mut s: FcpeStream<u32> = FcpeStream::new();
    assert!(s.begin(&ramp(0, 5119)).is_none());
    let input = s.begin(&[5119]).expect("32 hops of new audio");
    assert_eq!(input, ramp(0, 5120));
    assert_eq!(s.frames_needed(), 32);
    let slots = s.finish(33);
    assert_eq!(slots, (0..32).map(|i| slot(i as u64, i, false)).collect::<Vec<_>>());
    let input = s.begin(&ramp(5120, 10240)).expect("32 hops of new audio");
    assert_eq!(input, ramp(0, 10240));
    assert_eq!(s.frames_needed(), 64);
    let slots = s.finish(65);
    assert_eq!(slots, (32..64).map(|i| slot(i as u64, i, false)).collect::<Vec<_>>());
    assert_eq!(s.next_frame_index(), 64);
    let input = s.begin(&ramp(10240, 15360)).unwrap();
    assert_eq!(input, ramp(5120, 15360));
}

#[test]
fn rmvpe_waits_for_context_and_fresh_frames() {
    let mut s: RmvpeStream<u32> = RmvpeStream::new();
    assert!(s.begin(&ramp(0, 5983)).is_none());
    let plan = s.begin(&[5983]).expect("32 frames");
    assert_eq!(plan, RmvpePlan { total_frames: 32, context_frames: 0, padded_frames: 32 });
    let windows = s.frame_windows();
    assert_eq!(windows.len(), 32);
    assert_eq!(windows[31], ramp(31 * 160, 31 * 160 + 1024));
    let slots = s.finish();
    assert_eq!(slots, (0..32).map(|i| slot(i as u64, i, false)).collect::<Vec<_>>());
    assert!(s.begin(&ramp(5984, 11103)).is_none());
    let plan = s.begin(&[11103]).expect("32 more frames");
    assert_eq!(plan, RmvpePlan { total_frames: 64, context_frames: 32, padded_frames: 64 });
    let slots = s.finish();
    assert_eq!(slots, (32..64).map(|i| slot(i as u64, i, false)).collect::<Vec<_>>());
    assert_eq!(s.next_frame_index(), 64);
    s.reset();
    assert_eq!(s.next_frame_index(), 0);
}

#[test]
fn fcpe_keeps_the_frame_grid() {
    let mut s: FcpeStream<u32> = FcpeStream::new();
    let input = s.begin(&ramp(0, 5200)).expect("32 hops of new audio");
    assert_eq!(input, ramp(0, 5200));
    assert_eq!(s.frames_needed(), 32);
    let slots = s.finish(33);
    assert_eq!(slots, (0..32).map(|i| slot(i as u64, i, false)).collect::<Vec<_>>());
    let input = s.begin(&ramp(5200, 10320)).expect("32 hops of new audio");
    assert_eq!(input, ramp(0, 10320));
    let slots = s.finish(s.frames_needed() + 1);
    assert_eq!(slots, (32..64).map(|i| slot(i as u64, i, false)).collect::<Vec<_>>());
    // The next input starts at stream sample 5120 = 160 * 32, where frame 32 is centred.
    let input = s.begin(&ramp(10320, 15440)).expect("32 hops of new audio");
    assert_eq!(input[0], 5120);
    let slots = s.finish(s.frames_needed() + 1);
    assert_eq!(slots[0], slot(64, 32, false));
    assert_eq!(input[32 * 160], 64 * 160);
}

#[test]
fn rmvpe_keeps_the_frame_grid() {
    let mut s: RmvpeStream<u32> = RmvpeStream::new();
    let plan = s.begin(&ramp(0, 6000)).expect("32 frames");
    assert_eq!(plan.total_frames, 32);
    let _ = s.finish();
    let plan = s.begin(&ramp(6000, 11120)).expect("32 more frames");
    assert_eq!(plan, RmvpePlan { total_frames: 64, context_frames: 32, padded_frames: 64 });
    let windows = s.frame_windows();
    assert_eq!(windows[32], ramp(5120, 6144));
    let slots = s.finish();
    assert_eq!(slots[0], slot(32, 32, false));
    let plan = s.begin(&ramp(11120, 16240)).expect("32 more frames");
    assert_eq!(plan.context_frames, 32);
    let windows = s.frame_windows();
    // Frame 32 is context now; frame 64 reads stream samples 10240 .. 11264.
    assert_eq!(windows[0], ramp(5120, 6144));
    assert_eq!(windows[32], ramp(10240, 11264));
    assert_eq!(s.finish()[0], slot(64, 32, false));
}

#[test]
fn rmvpe_padding_and_layout() {
    assert_eq!(padded_frames(0), 0);
    assert_eq!(padded_frames(1), 32);
    assert_eq!(padded_frames(32), 32);
    assert_eq!(padded_frames(33), 64);
    assert_eq!(padded_frames(70), 96);
    let cols: Vec<Vec<u32>> = vec![vec![1, 2], vec![3, 4], vec![5, 6]];
    assert_eq!(layout_frames(&cols, 2, 4, 0), vec![1, 3, 5, 0, 2, 4, 6, 0]);
}

#[test]
fn crepe_windows_follow_the_stream() {
    let mut s: CrepeStream<u32> = CrepeStream::new();
    assert!(s.take_windows(&ramp(0, 1023)).is_empty());
    let w = s.take_windows(&[1023]);
    assert_eq!(w.len(), 1);
    assert_eq!((w[0].index, w[0].samples.clone()), (0, ramp(0, 1024)));
    s.trim();
    let w = s.take_windows(&ramp(1024, 1344));
    assert_eq!(w.iter().map(|x| x.index).collect::<Vec<_>>(), vec![1, 2]);
    assert_eq!(w[1].samples, ramp(320, 1344));
    s.trim();
    let w = s.take_windows(&ramp(1344, 2344));
    assert_eq!(w.iter().map(|x| x.index).collect::<Vec<_>>(), vec![3, 4, 5, 6, 7, 8]);
    assert_eq!(w[5].samples, ramp(1280, 2304));
    assert_eq!(s.next_frame_index(), 9);
    s.trim();
    assert_eq!(s.stream_len(), 2344);
    // The next window starts at 1440: trimming keeps it and the 864 samples before.
    let w = s.take_windows(&ramp(2344, 2624));
    assert_eq!(w.len(), 2);
    assert_eq!(w[0].samples, ramp(1440, 2464));
    assert_eq!(w[1].samples, ramp(1600, 2624));
}

#[test]
fn crepe_reset_starts_over() {
    let mut s: CrepeStream<u32> = CrepeStream::new();
    let _ = s.take_windows(&ramp(0, 3000));
    s.trim();
    s.reset();
    assert_eq!(s.next_frame_index(), 0);
    assert_eq!(s.stream_len(), 0);
    let w = s.take_windows(&ramp(7, 1031));
    assert_eq!(w.len(), 1);
    assert_eq!(w[0].samples, ramp(7, 1031));
}

#[test]
fn decoder_window_clips_to_bins() {
    assert_eq!(decoder_window(0, 4, 360), (0, 4));
    assert_eq!(decoder_window(3, 4, 360), (0, 7));
    assert_eq!(decoder_window(100, 4, 360), (96, 104));
    assert_eq!(decoder_window(358, 4, 360), (354, 359));
    assert_eq!(decoder_window(359, 4, 360), (355, 359));
}

#[test]
fn streams_keep_bounded_memory() {
    let sizes = [1usize, 300, 17, 4096, 255, 1000, 7, 2048, 513];
    let mut sw: SwiftF0Stream<u32> =
        SwiftF0Stream::new(SwiftF0Config::from_mode(Mode::LowLatency));
    let mut fc: FcpeStream<u32> = FcpeStream::new();
    let mut rm: RmvpeStream<u32> = RmvpeStream::new();
    let mut cr: CrepeStream<u32> = CrepeStream::new();
    let mut pos = 0u32;
    for round in 0..40 {
        let n = sizes[round % sizes.len()];
        let audio = ramp(pos, pos + n as u32);
        pos += n as u32;
        match sw.begin(&audio) {
            None => assert!(sw.buffered() < 1792 + 256),
            Some(input) => {
                let _ = sw.finish(input.len() / 256);
                assert!(sw.buffered() < 1792 + 256);
            }
        }
        match fc.begin(&audio) {
            None => assert!(fc.buffered() < 10240),
            Some(_) => {
                let needed = fc.frames_needed();
                let _ = fc.finish(needed + 1);
                assert!(fc.buffered() < 5120 + 160);
            }
        }
        match rm.begin(&audio) {
            None => assert!(rm.buffered() < 1024 + 63 * 160),
            Some(_) => {
                let _ = rm.finish();
                assert!(rm.buffered() < 1024 + 5120);
            }
        }
        let windows = cr.take_windows(&audio);
        if !windows.is_empty() {
            cr.trim();
            assert!(cr.buffered() < 864 + 1024);
        }
    }
    assert_eq!(cr.stream_len(), pos as u64);
    assert_eq!(cr.next_frame_index(), ((pos as u64) - 1024) / 160 + 1);
}

#[test]
fn crepe_split_does_not_matter() {
    let all = ramp(0, 3000);
    let mut one: CrepeStream<u32> = CrepeStream::new();
    let whole: Vec<(u64, Vec<u32>)> =
        one.take_windows(&all).into_iter().map(|w| (w.index, w.samples)).collect();
    let mut two: CrepeStream<u32> = CrepeStream::new();
    let mut parts: Vec<(u64, Vec<u32>)> = Vec::new();
    for (lo, hi) in [(0usize, 1100usize), (1100, 1101), (1101, 2500), (2500, 3000)] {
        parts.extend(two.take_windows(&all[lo..hi]).into_iter().map(|w| (w.index, w.samples)));
        two.trim();
    }
    assert_eq!(whole.len(), 13);
    assert_eq!(parts, whole);
}

#[test]
fn swiftf0_emits_every_row_past_the_context() {
    let mut s: SwiftF0Stream<u32> = SwiftF0Stream::new(SwiftF0Config::from_mode(Mode::Balanced));
    let input = s.begin(&ramp(0, 1100)).expect("enough fresh audio");
    assert_eq!(input, ramp(0, 1024));
    // One row more than the input has hops: every row is a fresh frame.
    let slots = s.finish(5);
    assert_eq!(slots, (0..5).map(|i| slot(i as u64, i, false)).collect::<Vec<_>>());
    assert_eq!(s.next_frame_index(), 5);
    // The last 1024 aligned samples stay as context, then the tail.
    assert_eq!(s.context_frames(), 4);
    assert_eq!(s.buffered(), 1100);
    let input = s.begin(&ramp(1100, 2048)).expect("enough fresh audio");
    assert_eq!(input, ramp(0, 2048));
    let slots = s.finish(8);
    assert_eq!(slots, (5..9).map(|i| slot(i as u64, i - 1, false)).collect::<Vec<_>>());
}
