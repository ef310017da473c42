use quest_scrcpy::audio;
use quest_scrcpy::audio::AudioStart;
use quest_scrcpy::audioplay::mf;
use quest_scrcpy::audioplay::mf::{AacFormat, MfPlayer};
use quest_scrcpy::audioplay::queue::{SampleQueue, SampleReader, MAX_QUEUED_SAMPLES};
use quest_scrcpy::audioplay::{AacPlayer, FeedAction};
use quest_scrcpy::server;
use quest_scrcpy::server::AudioMeta;

#[test]
fn starts_audio_by_codec() {
    let start = |codec_id| audio::start(&AudioMeta { codec_id });
    assert!(matches!(start(server::CODEC_ID_AAC), AudioStart::Play));
    assert!(matches!(start(server::AUDIO_DISABLED), AudioStart::VideoOnly));
    match start(server::AUDIO_CONFIG_ERROR) {
        AudioStart::Fail(e) => assert_eq!(e, "device reported an audio configuration error"),
        _ => panic!("no error"),
    }
    match start(server::CODEC_ID_OPUS) {
        AudioStart::Fail(e) => {
            assert_eq!(e, "unexpected audio codec 0x6f707573 (expected AAC)")
        }
        _ => panic!("no error"),
    }
}

#[test]
fn plays_through_ffmpeg() {
    let mut p = match AacPlayer::new(true, true, 48_000, 2).unwrap() {
        AacPlayer::Ffmpeg(p) => p,
        AacPlayer::Mf(_) => panic!("wrong stack"),
    };
    assert_eq!(
        p.decoder_args(),
        vec!["-f", "aac", "-i", "pipe:0", "-f", "f32le", "-ar", "48000", "-ac", "2", "pipe:1"]
    );
    assert!(matches!(p.feed(&[1], false), FeedAction::Skip));
    assert!(matches!(p.feed(&[0x11, 0x90], true), FeedAction::Respawn));
    assert!(matches!(p.feed(&[1], false), FeedAction::Skip));
    p.on_spawned(true);
    match p.feed(&[1, 2, 3], false) {
        FeedAction::Write(b) => {
            assert_eq!(b, vec![0xff, 0xf1, 0x4c, 0x80, 0x01, 0x5f, 0xfc, 1, 2, 3])
        }
        _ => panic!("nothing written"),
    }
    p.on_write_failed();
    assert!(matches!(p.feed(&[1], false), FeedAction::Skip));
}

#[test]
fn plays_through_media_foundation() {
    let mut p = AacPlayer::new(false, true, 48_000, 2).unwrap();
    assert!(matches!(p.feed(&[1], false), FeedAction::Skip));
    assert!(matches!(p.feed(&[0x11, 0x90], true), FeedAction::Rebuild));
    let mut p = MfPlayer::new();
    p.on_built();
    assert!(matches!(p.feed(false), FeedAction::Decode));
}

#[test]
fn needs_an_audio_stack() {
    assert_eq!(
        AacPlayer::new(false, false, 48_000, 2).err(),
        Some("no audio backend — install ffmpeg and make sure it is on your PATH")
    );
}

#[test]
fn reads_audio_formats() {
    assert_eq!(mf::parse_asc(&[]), AacFormat { sample_rate: 48_000, channels: 2 });
    assert_eq!(mf::parse_asc(&[0x11, 0x90]), AacFormat { sample_rate: 48_000, channels: 2 });
    assert_eq!(mf::parse_asc(&[0x12, 0x08]), AacFormat { sample_rate: 44_100, channels: 1 });
    assert_eq!(mf::parse_asc(&[0x17, 0xf8]), AacFormat { sample_rate: 48_000, channels: 8 });
    assert_eq!(mf::parse_asc(&[0x10, 0x00]), AacFormat { sample_rate: 96_000, channels: 1 });
    let f = AacFormat { sample_rate: 48_000, channels: 2 };
    assert_eq!(f.block_alignment(), 4);
    assert_eq!(f.bytes_per_second(), 192_000);
    assert_eq!(f.buffer_size(0), 24_000);
    assert_eq!(f.buffer_size(30_000), 30_000);
    assert_eq!(AacFormat { sample_rate: 8_000, channels: 1 }.buffer_size(0), 8192);
}

#[test]
fn writes_decoder_user_data() {
    assert_eq!(
        mf::user_data(&[0x11, 0x90]),
        vec![0, 0, 0xfe, 0, 0, 0, 0, 0, 0, 0, 0, 0, 0x11, 0x90]
    );
}

#[test]
fn reads_pcm() {
    assert_eq!(
        mf::read_pcm(&[1, 0, 0xff, 0xff, 0, 0x80, 0xff, 0x7f, 9]),
        vec![1, -1, i16::MIN, i16::MAX]
    );
}

fn bytes_of(samples: &[f32]) -> Vec<u8> {
    samples.iter().flat_map(|s| s.to_le_bytes()).collect()
}

#[test]
fn cuts_samples_out_of_pieces() {
    let all = bytes_of(&[0.5, -1.0, 0.25]);
    let mut reader = SampleReader::new();
    let mut found = Vec::new();
    for piece in [&all[..1], &all[1..6], &all[6..6], &all[6..]] {
        found.extend(reader.read(piece));
    }
    let whole = SampleReader::new().read(&all);
    assert_eq!(found, whole);
    assert_eq!(found.iter().map(|b| f32::from_bits(*b)).collect::<Vec<_>>(), [0.5, -1.0, 0.25]);
}

#[test]
fn queues_samples_in_order() {
    let mut q = SampleQueue::new();
    q.push(&[1, 2, 3]);
    q.push(&[4]);
    assert_eq!(q.fill(2), vec![1, 2]);
    assert_eq!(q.fill(4), vec![3, 4, 0, 0]);
    assert_eq!(q.fill(1), vec![0]);
    assert_eq!(f32::from_bits(0), 0.0);
}

#[test]
fn drops_backlog() {
    assert_eq!(MAX_QUEUED_SAMPLES, (48_000 * 2 * 150) / 1000);
    let mut q = SampleQueue::new();
    q.push(&vec![1; MAX_QUEUED_SAMPLES]);
    q.push(&[2]);
    assert_eq!(q.fill(1), vec![1]);
    q.push(&[3]);
    q.push(&[4]);
    // More than the limit waited before the last sample came.
    assert_eq!(q.fill(2), vec![4, 0]);
}

#[test]
fn partial_samples_leave_queue_alone() {
    let mut q = SampleQueue::new();
    let mut r = SampleReader::new();
    q.push(&vec![1; MAX_QUEUED_SAMPLES + 1]);
    q.push_read(&mut r, &[0, 0]);
    assert_eq!(q.fill(1), vec![1]);
    q.push(&[]);
    q.push_read(&mut r, &[0x80, 0x3f]);
    let all = q.fill(MAX_QUEUED_SAMPLES + 1);
    assert_eq!(all[MAX_QUEUED_SAMPLES], 1.0f32.to_bits());
}
