use voicecore::activity::{Hangover, HANGOVER_FRAMES};
use voicecore::ffi_state::{
    profile_status, OutputQueue, ProfileCache, VC_ERR_BUFFER, VC_ERR_STATE, VC_OK,
};
use voicecore::framing::{frame_count, FrameSchedule, RescorePlan, RescoreSchedule};

#[test]
fn mel_frame_count() {
    assert_eq!(frame_count(16_000, 400, 160), 98);
    assert_eq!(frame_count(100, 400, 160), 0);
    assert_eq!(frame_count(400, 400, 160), 1);
}

#[test]
fn stft_schedule_hops_half_frames() {
    let mut s = FrameSchedule::new(512, 256);
    assert_eq!(s.push(511), 0);
    assert_eq!(s.push(1), 1);
    assert_eq!(s.push(256), 1);
    assert_eq!(s.push(1024), 4);
}

#[test]
fn streaming_chunks_match_single_shot() {
    let mut one = FrameSchedule::new(512, 256);
    let total = one.push(20_000);
    let mut many = FrameSchedule::new(512, 256);
    let mut sum = 0;
    for _ in 0..(20_000 / 101) {
        sum += many.push(101);
    }
    sum += many.push(20_000 % 101);
    assert_eq!(sum, total);
    assert_eq!(one.push(300), many.push(300));
}

#[test]
fn hop_only_schedule_consumes_whole_hops() {
    let mut s = FrameSchedule::new(256, 256);
    assert_eq!(s.push(101), 0);
    assert_eq!(s.push(300), 1);
    assert_eq!(s.push(111), 1);
}

#[test]
fn presence_schedule_needs_reference() {
    let mut s = RescoreSchedule::new(16_000, 4_000);
    assert_eq!(s.push(8_000), RescorePlan::Ignore);
    s.set_reference();
    assert_eq!(s.push(3_000), RescorePlan::Keep { drop: 0, rescore: false });
    assert_eq!(s.push(1_000), RescorePlan::Keep { drop: 0, rescore: true });
    assert_eq!(s.push(13_000), RescorePlan::Keep { drop: 1_000, rescore: true });
    assert_eq!(s.push(100), RescorePlan::Keep { drop: 100, rescore: false });
}

#[test]
fn hangover_holds_speech_then_adapts() {
    let mut h = Hangover::new(HANGOVER_FRAMES);
    let d = h.step(false);
    assert!(!d.speech && d.adapt_noise_floor);
    let d = h.step(true);
    assert!(d.speech && !d.adapt_noise_floor);
    for _ in 0..7 {
        let d = h.step(false);
        assert!(d.speech && !d.adapt_noise_floor);
    }
    let d = h.step(false);
    assert!(!d.speech && !d.adapt_noise_floor);
    let d = h.step(false);
    assert!(!d.speech && d.adapt_noise_floor);
}

#[test]
fn ffi_statuses() {
    assert_eq!(profile_status(true), VC_OK);
    assert_eq!(profile_status(false), VC_ERR_STATE);
}

#[test]
fn finish_size_query_then_fetch() {
    let mut c = ProfileCache::new();
    let r = c.finish(None, true, 0);
    assert_eq!(r.status, VC_ERR_STATE);
    assert_eq!(r.len, None);
    let r = c.finish(Some(vec![1, 2, 3, 4]), true, 0);
    assert_eq!((r.status, r.len, r.copy), (VC_OK, Some(4), false));
    let r = c.finish(None, false, 4);
    assert_eq!((r.status, r.len, r.copy), (VC_OK, Some(4), true));
    assert_eq!(c.bytes().unwrap(), &vec![1, 2, 3, 4]);
    let r = c.finish(None, false, 3);
    assert_eq!((r.status, r.copy), (VC_ERR_BUFFER, false));
}

#[test]
fn no_score_without_reference() {
    let mut scorer = RescoreSchedule::new(16_000, 4_000);
    assert_eq!(scorer.push(8_000), RescorePlan::Ignore);
}

#[test]
fn erb_hop_schedule_handles_arbitrary_chunks() {
    let mut e = FrameSchedule::new(256, 256);
    let len = 20_000usize;
    let mut total = 0usize;
    let mut left = len;
    while left > 0 {
        let chunk = left.min(101);
        total += e.push(chunk) * 256;
        left -= chunk;
    }
    assert!(total > 0 && total <= len);
}

#[test]
fn mel_short_input_has_no_frames() {
    let frames = frame_count(100, 400, 160);
    assert_eq!(frames, 0);
    assert_eq!(frames * 80, 0);
}

#[test]
fn mel_frame_count_formula() {
    let frames = frame_count(16_000, 400, 160);
    assert_eq!(frames, (16_000 - 400) / 160 + 1);
}

#[test]
fn output_buffer_of_input_length_always_suffices() {
    // 511 samples complete no frame; the 512th completes one of 256 output
    // samples, which a 1-sample buffer must still accept.
    let mut q = OutputQueue::new();
    let d = q.deliver(Vec::new(), 511, 511);
    assert_eq!(d.status, VC_OK);
    assert!(d.samples.is_empty());
    let produced: Vec<u32> = (0..256).collect();
    let d = q.deliver(produced, 1, 1);
    assert_eq!(d.status, VC_OK);
    assert_eq!(d.samples, vec![0]);
    assert_eq!(q.pending_len(), 255);
    // The rest arrives in order on later calls.
    let d = q.deliver(Vec::new(), 300, 300);
    assert_eq!(d.status, VC_OK);
    assert_eq!(d.samples, (1..256).collect::<Vec<u32>>());
    assert_eq!(q.pending_len(), 0);
}

#[test]
fn output_too_small_buffer_drops_that_calls_output() {
    let mut q = OutputQueue::new();
    let d = q.deliver(vec![1, 2, 3], 2, 2);
    assert_eq!(d.status, VC_OK);
    assert_eq!(d.samples, vec![1, 2]);
    // Too small for this call's output and shorter than its input: the new
    // output is dropped, the waiting sample stays.
    let d = q.deliver(vec![7, 8, 9], 10, 2);
    assert_eq!(d.status, VC_ERR_BUFFER);
    assert!(d.samples.is_empty());
    assert_eq!(q.pending_len(), 1);
    let d = q.deliver(vec![10], 1, 4);
    assert_eq!(d.status, VC_OK);
    assert_eq!(d.samples, vec![3, 10]);
}

#[test]
fn any_chunking_yields_the_single_shot_frames() {
    let chunks = [0usize, 1, 511, 1, 1000, 255, 256, 257, 3, 4096];
    let total: usize = chunks.iter().sum();
    let mut s = FrameSchedule::new(512, 256);
    let frames: usize = chunks.iter().map(|&n| s.push(n)).sum();
    assert_eq!(frames, frame_count(total, 512, 256));
    assert_eq!(frames, (total - 512) / 256 + 1);
}

#[test]
fn speech_holds_for_hangover_window_after_last_voiced_frame() {
    // Voiced at frames 2 and 5; speech through frame 5 + 7 = 12.
    let voiced: Vec<bool> = (0..20).map(|i| i == 2 || i == 5).collect();
    let mut h = Hangover::new(HANGOVER_FRAMES);
    for (t, &v) in voiced.iter().enumerate() {
        let d = h.step(v);
        let expected = (0..=t).any(|i| voiced[i] && t - i < HANGOVER_FRAMES as usize);
        assert_eq!(d.speech, expected, "frame {t}");
        assert_eq!(d.speech, (2..=12).contains(&t), "frame {t}");
    }
}
