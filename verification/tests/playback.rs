//! Decoding and playback of a track.

use oscilloscope_me::file::{
    choose_track, decode_step, finish_track, split_frames, ChosenTrack, ChunkEnd, DecodeStep,
    FileCommand, PacketOutcome, Playback, PlaybackStep, TrackInfo, CHUNK_FRAMES,
};

#[test]
fn interleaved_stereo_split() {
    let samples = [1.0f32, 2.0, 3.0, 4.0];
    let mut left = Vec::new();
    let mut right = Vec::new();
    split_frames(&samples, 2, &mut left, &mut right);
    assert_eq!(left, vec![1.0, 3.0]);
    assert_eq!(right, vec![2.0, 4.0]);
}

#[test]
fn single_channel_goes_to_both_sides() {
    let mut left = vec![9];
    let mut right = Vec::new();
    split_frames(&[1, 2, 3], 1, &mut left, &mut right);
    assert_eq!(left, vec![9, 1, 2, 3]);
    assert_eq!(right, vec![1, 2, 3]);
}

#[test]
fn further_channels_are_ignored() {
    let mut left = Vec::new();
    let mut right = Vec::new();
    split_frames(&[1, 2, 3, 4, 5, 6, 7, 8], 3, &mut left, &mut right);
    assert_eq!(left, vec![1, 4, 7]);
    assert_eq!(right, vec![2, 5, 8]);
}

fn track(id: u32, coded: bool, sample_rate: Option<u32>, channels: Option<usize>) -> TrackInfo {
    TrackInfo {
        id,
        coded,
        sample_rate,
        channels,
    }
}

#[test]
fn first_coded_track_is_chosen() {
    let tracks = vec![
        track(1, false, None, None),
        track(5, true, Some(44_100), Some(2)),
        track(6, true, Some(48_000), Some(1)),
    ];
    let chosen = ChosenTrack {
        index: 1,
        id: 5,
        sample_rate: 44_100,
        channels: 2,
    };
    assert_eq!(choose_track(&tracks), Ok(chosen));
}

#[test]
fn incomplete_tracks_are_refused() {
    assert_eq!(choose_track(&vec![]), Err("No audio track found".to_string()));
    assert_eq!(
        choose_track(&vec![track(1, false, Some(1), Some(1))]),
        Err("No audio track found".to_string())
    );
    assert_eq!(
        choose_track(&vec![track(1, true, None, None)]),
        Err("Missing sample rate in file".to_string())
    );
    assert_eq!(
        choose_track(&vec![track(1, true, Some(8000), None), track(2, true, Some(1), Some(1))]),
        Err("Missing channel layout in file".to_string())
    );
}

#[test]
fn packets_are_decided_on() {
    assert!(matches!(decode_step(3, PacketOutcome::Packet(3)), DecodeStep::Decode));
    assert!(matches!(decode_step(3, PacketOutcome::Packet(4)), DecodeStep::Skip));
    assert!(matches!(decode_step(3, PacketOutcome::ResetRequired), DecodeStep::Reset));
    assert!(matches!(decode_step(3, PacketOutcome::EndOfFile), DecodeStep::Finish));
    match decode_step(3, PacketOutcome::Failed("bad header".to_string())) {
        DecodeStep::Fail(message) => assert_eq!(message, "Decode error: bad header"),
        _ => panic!("expected a failure"),
    }
}

#[test]
fn empty_track_is_refused() {
    let r = finish_track(Vec::<i32>::new(), Vec::new(), 44_100);
    assert_eq!(r.err(), Some("File contains no audio samples".to_string()));
    let t = finish_track(vec![1], vec![2], 44_100).expect("one frame");
    assert_eq!((t.left, t.right, t.sample_rate), (vec![1], vec![2], 44_100));
}

#[test]
fn playback_covers_the_track() {
    let total = 2 * CHUNK_FRAMES + 5;
    let mut p = Playback::new(total, false);
    let mut at = 0;
    for expected in [CHUNK_FRAMES, 2 * CHUNK_FRAMES] {
        assert_eq!(p.next_step(), PlaybackStep::Play { start: at, end: expected });
        assert_eq!(p.chunk_played(expected), ChunkEnd::Continue);
        at = expected;
    }
    assert_eq!(p.next_step(), PlaybackStep::Play { start: at, end: total });
    assert_eq!(p.chunk_played(total), ChunkEnd::Finished);
}

#[test]
fn looped_playback_starts_again() {
    let mut p = Playback::new(10, true);
    assert_eq!(p.chunk_played(10), ChunkEnd::Rewind);
    assert_eq!(p.next_step(), PlaybackStep::Play { start: 0, end: 10 });
    assert!(!p.command(FileCommand::SetLoop(false)));
    assert_eq!(p.chunk_played(10), ChunkEnd::Finished);
}

#[test]
fn paused_playback_waits() {
    let mut p = Playback::new(10, false);
    assert!(!p.command(FileCommand::SetPaused(true)));
    assert_eq!(p.next_step(), PlaybackStep::Idle);
    assert!(p.command(FileCommand::SeekTo(4)));
    assert_eq!(p.next_step(), PlaybackStep::Play { start: 4, end: 10 });
    assert!(!p.command(FileCommand::SetPaused(true)));
    assert!(p.command(FileCommand::Restart));
    assert_eq!(p.next_step(), PlaybackStep::Play { start: 0, end: 10 });
}

#[test]
fn seeking_stays_within_the_track() {
    let mut p = Playback::new(10, false);
    p.command(FileCommand::SeekTo(10));
    assert_eq!(p.pos, 9);
    let mut empty = Playback::new(0, false);
    empty.command(FileCommand::SeekTo(3));
    assert_eq!(empty.pos, 0);
}

#[test]
fn seek_during_a_chunk_is_given_up() {
    let mut p = Playback::new(3 * CHUNK_FRAMES, false);
    p.command(FileCommand::SeekTo(7));
    assert_eq!(p.chunk_played(CHUNK_FRAMES), ChunkEnd::Continue);
    assert_eq!(p.pos, CHUNK_FRAMES);
}
