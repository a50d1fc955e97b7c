use audio_bridge::build_opts::{batch_arch_str, AlxBuildFlags, AndroidFlavor, UWPArch};
use audio_bridge::config::{AudioConfig, PlaybackParams, StreamError};
use audio_bridge::emitter::RecycleRing;
use audio_bridge::packets::{AudioPacket, ServerHandshakePacket, VideoFrameHeaderPacket};

/// The derived frame counts at the usual stream settings.
#[test]
fn playback_params_derivation() {
    let config = AudioConfig {
        batch_ms: 10,
        average_buffering_ms: 30,
    };
    let p = PlaybackParams::new(2, 48000, &config).unwrap();
    assert_eq!(p.channels, 2);
    assert_eq!(p.batch_frames, 480);
    assert_eq!(p.avg_frames, 1440);

    let q = PlaybackParams::new(1, 44100, &config).unwrap();
    assert_eq!(q.channels, 1);
    assert_eq!(q.batch_frames, 441);
    assert_eq!(q.avg_frames, 1323);
}

/// Inputs the engine cannot run on are refused at construction.
#[test]
fn playback_params_refusals() {
    let config = AudioConfig {
        batch_ms: 10,
        average_buffering_ms: 30,
    };
    // Channel counts outside 1..=2.
    assert!(PlaybackParams::new(0, 48000, &config).is_none());
    assert!(PlaybackParams::new(3, 48000, &config).is_none());
    // A batch that rounds down to zero frames.
    let tiny = AudioConfig {
        batch_ms: 0,
        average_buffering_ms: 30,
    };
    assert!(PlaybackParams::new(2, 48000, &tiny).is_none());
    // A target occupancy below the batch.
    let inverted = AudioConfig {
        batch_ms: 30,
        average_buffering_ms: 10,
    };
    assert!(PlaybackParams::new(2, 48000, &inverted).is_none());
}

/// The engine's frame-count ceiling is a hard boundary: exactly at it
/// the parameters are accepted, one past it they are refused.
#[test]
fn playback_params_frame_ceiling() {
    let at_limit = AudioConfig {
        batch_ms: 1000,
        average_buffering_ms: 1000,
    };
    let p = PlaybackParams::new(2, 0x0800_0000, &at_limit).unwrap();
    assert_eq!(p.batch_frames, 0x0800_0000);
    assert_eq!(p.avg_frames, 0x0800_0000);

    let past_limit = AudioConfig {
        batch_ms: 1000,
        average_buffering_ms: 1001,
    };
    assert!(PlaybackParams::new(2, 0x0800_0000, &past_limit).is_none());
}

/// The recycle ring hands out empty buffers and never stores more than
/// its bound.
#[test]
fn recycle_ring_is_bounded() {
    let mut ring = RecycleRing::new(2);
    assert_eq!(ring.stored_count(), 0);

    // Popping an empty ring allocates a fresh empty buffer.
    let b = ring.pop();
    assert!(b.is_empty());

    ring.push(vec![1, 2, 3]);
    ring.push(vec![4]);
    assert_eq!(ring.stored_count(), 2);
    // The ring is full: a third buffer is dropped.
    ring.push(vec![5, 6]);
    assert_eq!(ring.stored_count(), 2);

    // Recycled buffers come back empty, ready to fill.
    let b = ring.pop();
    assert!(b.is_empty());
    assert_eq!(ring.stored_count(), 1);
    let b = ring.pop();
    assert!(b.is_empty());
    assert_eq!(ring.stored_count(), 0);
}

/// A received packet decodes its s16 little-endian payload; the loss
/// flag rides alongside, never inside the samples.
#[test]
fn audio_packet_decodes() {
    let packet = AudioPacket {
        payload: vec![0xe8, 0x03, 0x18, 0xfc],
        had_packet_loss: true,
    };
    assert_eq!(packet.decode(), vec![1000, -1000]);
    assert!(packet.had_packet_loss);
}

/// The handshake replies and the legacy video header carry over.
#[test]
fn packet_types_hold_their_fields() {
    assert_ne!(
        ServerHandshakePacket::ClientUntrusted,
        ServerHandshakePacket::IncompatibleVersions
    );
    let header = VideoFrameHeaderPacket {
        packet_counter: 7,
        tracking_frame_index: 100,
        video_frame_index: 101,
        sent_time: 123456789,
        frame_byte_size: 4096,
        fec_index: 3,
        fec_percentage: 5,
    };
    let copy = header;
    assert_eq!(copy, header);
    assert_eq!(header.frame_byte_size, 4096);
    assert_eq!(header.fec_percentage, 5);
}

/// The default build switches and the string they render to.
#[test]
fn build_string_default() {
    let flags = AlxBuildFlags::default();
    assert_eq!(
        flags.make_build_string(),
        "--release --offline --locked --features bundled-ffmpeg"
    );
}

/// Every section of the build string appears exactly when its switch
/// says so.
#[test]
fn build_string_combinations() {
    let none = AlxBuildFlags {
        is_release: false,
        reproducible: false,
        no_nvidia: true,
        bundle_ffmpeg: false,
        fetch_crates: false,
    };
    assert_eq!(none.make_build_string(), "");

    let only_features = AlxBuildFlags {
        is_release: false,
        reproducible: false,
        no_nvidia: false,
        bundle_ffmpeg: true,
        fetch_crates: false,
    };
    assert_eq!(
        only_features.make_build_string(),
        "--features bundled-ffmpeg,cuda-interop"
    );

    let release_cuda = AlxBuildFlags {
        is_release: true,
        reproducible: false,
        no_nvidia: false,
        bundle_ffmpeg: false,
        fetch_crates: false,
    };
    assert_eq!(
        release_cuda.make_build_string(),
        "--release --features cuda-interop"
    );

    let repro_only = AlxBuildFlags {
        is_release: false,
        reproducible: true,
        no_nvidia: true,
        bundle_ffmpeg: false,
        fetch_crates: false,
    };
    assert_eq!(repro_only.make_build_string(), "--offline --locked");
}

/// Architecture names as targets and packaging scripts spell them.
#[test]
fn arch_names() {
    assert_eq!(batch_arch_str(UWPArch::X86_64), "x64");
    assert_eq!(batch_arch_str(UWPArch::Aarch64), "arm64");
    assert_eq!(UWPArch::X86_64.target_name(), "x86_64");
    assert_eq!(UWPArch::Aarch64.target_name(), "aarch64");
    // The Android flavors are plain tags.
    let flavors = [
        AndroidFlavor::Generic,
        AndroidFlavor::OculusQuest,
        AndroidFlavor::Pico,
        AndroidFlavor::PicoV4,
    ];
    assert_eq!(format!("{:?}", flavors[1]), "OculusQuest");
}

/// Each error kind names a distinct failure.
#[test]
fn error_kinds_distinct() {
    let kinds = [
        StreamError::ConfigUnsupported,
        StreamError::DeviceFailed,
        StreamError::TransportFailed,
        StreamError::Cancelled,
    ];
    for i in 0..kinds.len() {
        for j in 0..kinds.len() {
            assert_eq!(i == j, kinds[i] == kinds[j]);
        }
    }
}
