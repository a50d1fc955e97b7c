use audio_bridge::config::{AudioConfig, PlaybackParams};
use audio_bridge::jitter::{get_next_frame_batch, receive_samples_update, JitterBuffer};
use audio_bridge::packets::AudioPacket;

fn params_48k_stereo() -> PlaybackParams {
    let config = AudioConfig {
        batch_ms: 10,
        average_buffering_ms: 30,
    };
    let p = PlaybackParams::new(2, 48000, &config).unwrap();
    assert_eq!(p.channels, 2);
    assert_eq!(p.batch_frames, 480);
    assert_eq!(p.avg_frames, 1440);
    p
}

fn packet(frames: usize, channels: usize, value: i16) -> Vec<i16> {
    vec![value; frames * channels]
}

/// Priming from empty: packets accumulate silently in the scratch until
/// it holds strictly more than avg + batch frames; then the buffer
/// fills at once with the first batch linearly ramped from silence.
#[test]
fn e1_priming_from_empty() {
    let params = params_48k_stereo();
    let mut jb = JitterBuffer::new(params);
    for _ in 0..4 {
        jb.receive_packet(&packet(480, 2, 1000), false);
        // 480..1920 frames pending: not strictly above 1920, renderer
        // still sees silence.
        assert_eq!(jb.buffered_frames(), 0);
    }
    jb.receive_packet(&packet(480, 2, 1000), false);
    assert_eq!(jb.buffered_frames(), 2400);

    let mut out = Vec::new();
    jb.render_batch(&mut out);
    assert_eq!(out.len(), 960);
    // Linear fade-in: frame f is scaled by f / 480.
    assert_eq!(out[0], 0); // frame 0
    assert_eq!(out[1], 0);
    assert_eq!(out[480], 500); // frame 240: 1000 * 240 / 480
    assert_eq!(out[958], 997); // frame 479: 1000 * 479 / 480, truncated
    // The second batch is past the ramp and untouched.
    jb.render_batch(&mut out);
    assert_eq!(out[0], 1000);
    assert_eq!(out[959], 1000);
    assert_eq!(jb.buffered_frames(), 1440);
}

/// A healthy buffer (no loss, at least one batch) grows by exactly the
/// packet, with the existing samples untouched.
#[test]
fn e2_healthy_append() {
    let params = params_48k_stereo();
    let mut jb = JitterBuffer::new(params);
    for _ in 0..5 {
        jb.receive_packet(&packet(480, 2, 1000), false);
    }
    let mut out = Vec::new();
    jb.render_batch(&mut out); // drop the ramped batch
    assert_eq!(jb.buffered_frames(), 1920);

    jb.receive_packet(&packet(480, 2, 2000), false);
    assert_eq!(jb.buffered_frames(), 2400);
    for _ in 0..4 {
        jb.render_batch(&mut out);
        assert_eq!(out[0], 1000);
    }
    jb.render_batch(&mut out);
    assert_eq!(out[0], 2000);
    assert_eq!(out[959], 2000);
    assert_eq!(jb.buffered_frames(), 0);
}

/// On loss with a buffer of at least one batch, the buffer keeps
/// exactly one batch as the anchor and the packet waits in the scratch:
/// too little to re-prime, so no new samples reach the renderer yet.
#[test]
fn e3_loss_keeps_anchor() {
    let params = params_48k_stereo();
    let mut jb = JitterBuffer::new(params);
    for _ in 0..5 {
        jb.receive_packet(&packet(480, 2, 1000), false);
    }
    let mut out = Vec::new();
    jb.render_batch(&mut out);
    assert_eq!(jb.buffered_frames(), 1920);

    jb.receive_packet(&packet(480, 2, 2000), true);
    // Anchor retained; the 480 packet frames are pending in the scratch.
    assert_eq!(jb.buffered_frames(), 480);

    // While the anchor holds one batch, a further packet without loss
    // takes the healthy path and joins the buffer directly.
    jb.receive_packet(&packet(480, 2, 3000), false);
    assert_eq!(jb.buffered_frames(), 960);

    jb.render_batch(&mut out);
    assert_eq!(out[0], 1000);
    jb.render_batch(&mut out);
    assert_eq!(out[0], 3000);
    assert_eq!(jb.buffered_frames(), 0);
}

/// On loss with a buffer below one batch, the remnant is cleared: it
/// cannot anchor a cross-fade. The packet alone is below the priming
/// threshold, so the renderer keeps producing silence.
#[test]
fn e4_loss_below_batch_clears() {
    let params = params_48k_stereo();
    let mut jb = JitterBuffer::new(params);
    jb.receive_packet(&packet(2000, 2, 1000), false);
    assert_eq!(jb.buffered_frames(), 2000);
    let mut out = Vec::new();
    for _ in 0..4 {
        jb.render_batch(&mut out);
    }
    assert_eq!(jb.buffered_frames(), 80);

    jb.receive_packet(&packet(1440, 2, 2000), true);
    assert_eq!(jb.buffered_frames(), 0);
    jb.render_batch(&mut out);
    assert_eq!(out, vec![0i16; 960]);
}

/// Overrun: a buffer past 2*avg + batch frames is trimmed to the target
/// occupancy, and the old front cross-fades out against the newly
/// exposed content.
#[test]
fn e5_overrun_trim_crossfade() {
    let params = params_48k_stereo();
    // 4000 frames: the first 480 hold the old front (1000), the last
    // 1440 hold fresh content (2000).
    let mut buffer = vec![500i16; 4000 * 2];
    for s in buffer.iter_mut().take(480 * 2) {
        *s = 1000;
    }
    for s in buffer.iter_mut().skip(2560 * 2) {
        *s = 2000;
    }
    let mut scratch = Vec::new();
    let empty_packet = Vec::new();
    receive_samples_update(&mut buffer, &mut scratch, &empty_packet, false, params);

    assert_eq!(buffer.len(), 1440 * 2);
    // Frame f of the ramp: (2000 * f + 1000 * (480 - f)) / 480.
    assert_eq!(buffer[0], 1000); // frame 0
    assert_eq!(buffer[48 * 2], 1100); // frame 48
    assert_eq!(buffer[240 * 2], 1500); // frame 240
    assert_eq!(buffer[479 * 2], 1997); // frame 479
    assert_eq!(buffer[480 * 2], 2000); // past the ramp
    assert_eq!(buffer[1439 * 2 + 1], 2000);
}

/// A render pull on a buffer below one batch emits exactly one batch of
/// zeros and leaves the buffer untouched.
#[test]
fn e6_render_underrun_is_silence() {
    let mut buffer = vec![700i16; 479 * 2];
    let mut out = Vec::new();
    get_next_frame_batch(&mut buffer, 2, 480, &mut out);
    assert_eq!(out, vec![0i16; 960]);
    assert_eq!(buffer.len(), 479 * 2);
    assert_eq!(buffer[0], 700);
}

/// A render pull on a buffer holding at least one batch drains exactly
/// that batch from the front.
#[test]
fn render_drains_one_batch() {
    let mut buffer: Vec<i16> = (0..1000i16).collect();
    let mut out = Vec::new();
    get_next_frame_batch(&mut buffer, 2, 100, &mut out);
    assert_eq!(out.len(), 200);
    assert_eq!(out[0], 0);
    assert_eq!(out[199], 199);
    assert_eq!(buffer.len(), 800);
    assert_eq!(buffer[0], 200);
}

/// An empty packet without a loss flag changes nothing.
#[test]
fn p7_empty_packet_unchanged() {
    let params = params_48k_stereo();
    let mut jb = JitterBuffer::new(params);
    for _ in 0..5 {
        jb.receive_packet(&packet(480, 2, 1000), false);
    }
    assert_eq!(jb.buffered_frames(), 2400);
    jb.receive_packet(&Vec::new(), false);
    assert_eq!(jb.buffered_frames(), 2400);
    // Also from empty.
    let mut jb2 = JitterBuffer::new(params);
    jb2.receive_packet(&Vec::new(), false);
    assert_eq!(jb2.buffered_frames(), 0);
}

/// Loss with exactly one batch buffered and a packet large enough to
/// re-prime: the cross-fade path runs, and every ramp frame is the
/// convex combination of the anchor fading out and the packet fading
/// in.
#[test]
fn p8_loss_crossfade_convex() {
    let params = params_48k_stereo();
    let mut jb = JitterBuffer::new(params);
    jb.receive_packet(&packet(2400, 2, 1000), false);
    let mut out = Vec::new();
    for _ in 0..4 {
        jb.render_batch(&mut out);
    }
    assert_eq!(jb.buffered_frames(), 480);

    jb.receive_packet(&packet(2000, 2, 3000), true);
    assert_eq!(jb.buffered_frames(), 2000);
    jb.render_batch(&mut out);
    // Frame f: (3000 * f + 1000 * (480 - f)) / 480.
    assert_eq!(out[0], 1000);
    assert_eq!(out[240 * 2], 2000);
    assert_eq!(out[479 * 2], 2995);
    jb.render_batch(&mut out);
    assert_eq!(out[0], 3000);
}

/// Wire packets enter through their byte payload: the decoded samples
/// feed the same update, and a torn payload is refused untouched.
#[test]
fn wire_packet_entry() {
    let config = AudioConfig {
        batch_ms: 2,
        average_buffering_ms: 2,
    };
    let params = PlaybackParams::new(1, 1000, &config).unwrap();
    let mut jb = JitterBuffer::new(params);
    // Five mono frames of value 256 (0x0100 little-endian): above the
    // threshold of four, so the buffer primes.
    let packet = AudioPacket {
        payload: vec![0x00, 0x01, 0x00, 0x01, 0x00, 0x01, 0x00, 0x01, 0x00, 0x01],
        had_packet_loss: false,
    };
    assert!(jb.receive_wire(&packet));
    assert_eq!(jb.buffered_frames(), 5);
    let mut out = Vec::new();
    jb.render_batch(&mut out);
    // Ramp over two frames: 256 * 0 / 2 and 256 * 1 / 2.
    assert_eq!(out, vec![0, 128]);

    // A stereo stream refuses a payload with a dangling half-frame.
    let stereo = PlaybackParams::new(2, 1000, &config).unwrap();
    let mut jb2 = JitterBuffer::new(stereo);
    let torn = AudioPacket {
        payload: vec![0x00, 0x01],
        had_packet_loss: false,
    };
    assert!(!jb2.receive_wire(&torn));
    assert_eq!(jb2.buffered_frames(), 0);
}

/// The fade arithmetic never leaves the s16 range, even on the most
/// negative sample.
#[test]
fn fade_extremes_stay_in_range() {
    let config = AudioConfig {
        batch_ms: 2,
        average_buffering_ms: 2,
    };
    // 1000 Hz mono: batch = avg = 2 frames.
    let params = PlaybackParams::new(1, 1000, &config).unwrap();
    let mut buffer: Vec<i16> = Vec::new();
    let mut scratch: Vec<i16> = Vec::new();
    // 5 frames > avg + batch = 4: primes at once.
    let p = vec![i16::MIN; 5];
    receive_samples_update(&mut buffer, &mut scratch, &p, false, params);
    assert_eq!(buffer, vec![0, -16384, i16::MIN, i16::MIN, i16::MIN]);
    assert!(scratch.is_empty());
}

/// After every receive update the buffer is a whole number of frames
/// (never a torn frame) and is either empty or holds at least one
/// batch.
#[test]
fn p1_p2_buffer_never_partial() {
    let params = params_48k_stereo();
    let mut jb = JitterBuffer::new(params);
    let sizes = [100usize, 480, 7, 1000, 333, 480, 2000, 1];
    let losses = [false, true, false, false, true, false, false, true];
    let mut out = Vec::new();
    for k in 0..sizes.len() {
        jb.receive_packet(&packet(sizes[k], 2, 123), losses[k]);
        let frames = jb.buffered_frames();
        assert!(frames == 0 || frames >= 480);
        jb.render_batch(&mut out);
        assert_eq!(out.len(), 960);
    }
}
