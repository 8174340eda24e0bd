use espeak_provider::translator::{
    translate_block, BoundaryKind, EngineEvent, EngineEventKind, Frame, StreamState,
};

fn event(kind: EngineEventKind, text_position: u32, length: u32, audio_position: u32) -> EngineEvent {
    EngineEvent { kind, text_position, length, audio_position }
}

fn flushed_bytes(wav: &[u8], frames: &[Frame]) -> Vec<u8> {
    let mut out = Vec::new();
    for f in frames {
        if let Frame::Audio { start, end } = f {
            out.extend_from_slice(&wav[*start..*end]);
        }
    }
    out
}

#[test]
fn block_without_events_is_flushed_whole() {
    let mut state = StreamState::new();
    let wav = vec![1u8; 10];
    let frames = translate_block(&mut state, &wav, &[], 22050);
    assert_eq!(frames, vec![Frame::Audio { start: 0, end: 10 }]);
    assert_eq!(state.bytes_sent, 10);
}

#[test]
fn empty_block_writes_nothing() {
    let mut state = StreamState { bytes_sent: 7 };
    let frames = translate_block(&mut state, &[], &[], 22050);
    assert!(frames.is_empty());
    assert_eq!(state.bytes_sent, 7);
}

#[test]
fn word_event_splits_audio_at_its_offset() {
    // 1 ms at 22050 Hz: 22 samples, 44 bytes.
    let mut state = StreamState::new();
    let wav = vec![0u8; 100];
    let events = [event(EngineEventKind::Word, 3, 4, 1)];
    let frames = translate_block(&mut state, &wav, &events, 22050);
    assert_eq!(
        frames,
        vec![
            Frame::Audio { start: 0, end: 44 },
            Frame::Event { kind: BoundaryKind::Word, text_start: 2, text_end: 6 },
            Frame::Audio { start: 44, end: 100 },
        ]
    );
    assert_eq!(state.bytes_sent, 100);
}

#[test]
fn event_offset_counts_from_bytes_already_flushed() {
    // 10 ms at 22050 Hz is byte 440; 400 bytes are already out.
    let mut state = StreamState { bytes_sent: 400 };
    let wav = vec![0u8; 100];
    let events = [event(EngineEventKind::Sentence, 1, 9, 10)];
    let frames = translate_block(&mut state, &wav, &events, 22050);
    assert_eq!(
        frames,
        vec![
            Frame::Audio { start: 0, end: 40 },
            Frame::Event { kind: BoundaryKind::Sentence, text_start: 0, text_end: 9 },
            Frame::Audio { start: 40, end: 100 },
        ]
    );
    assert_eq!(state.bytes_sent, 500);
}

#[test]
fn lagging_event_is_clamped_to_current_position() {
    let mut state = StreamState { bytes_sent: 1000 };
    let wav = vec![0u8; 50];
    let events = [event(EngineEventKind::Word, 5, 2, 1)];
    let frames = translate_block(&mut state, &wav, &events, 22050);
    assert_eq!(
        frames,
        vec![
            Frame::Event { kind: BoundaryKind::Word, text_start: 4, text_end: 6 },
            Frame::Audio { start: 0, end: 50 },
        ]
    );
    assert_eq!(state.bytes_sent, 1050);
}

#[test]
fn event_past_block_end_flushes_whole_block_first() {
    let mut state = StreamState::new();
    let wav = vec![0u8; 20];
    let events = [event(EngineEventKind::Word, 1, 1, 100)];
    let frames = translate_block(&mut state, &wav, &events, 22050);
    assert_eq!(
        frames,
        vec![
            Frame::Audio { start: 0, end: 20 },
            Frame::Event { kind: BoundaryKind::Word, text_start: 0, text_end: 1 },
        ]
    );
    assert_eq!(state.bytes_sent, 20);
}

#[test]
fn auxiliary_rate_suppresses_events() {
    let mut state = StreamState::new();
    let wav = vec![0u8; 64];
    let events = [
        event(EngineEventKind::Sentence, 1, 5, 0),
        event(EngineEventKind::Word, 1, 5, 1),
        event(EngineEventKind::Word, 7, 3, 2),
    ];
    let frames = translate_block(&mut state, &wav, &events, 16000);
    assert_eq!(frames, vec![Frame::Audio { start: 0, end: 64 }]);
    assert_eq!(state.bytes_sent, 64);
}

#[test]
fn other_event_kinds_are_ignored() {
    let mut state = StreamState::new();
    let wav = vec![0u8; 30];
    let events = [event(EngineEventKind::Other, 2, 2, 0)];
    let frames = translate_block(&mut state, &wav, &events, 22050);
    assert_eq!(frames, vec![Frame::Audio { start: 0, end: 30 }]);
}

#[test]
fn text_range_shift_saturates_at_zero() {
    let mut state = StreamState::new();
    let events = [event(EngineEventKind::Word, 0, 0, 0)];
    let frames = translate_block(&mut state, &[0u8; 4], &events, 22050);
    assert_eq!(
        frames,
        vec![
            Frame::Event { kind: BoundaryKind::Word, text_start: 0, text_end: 0 },
            Frame::Audio { start: 0, end: 4 },
        ]
    );
}

#[test]
fn session_flushes_every_byte_once_in_order() {
    let mut state = StreamState::new();
    let blocks: Vec<(Vec<u8>, Vec<EngineEvent>)> = vec![
        ((0..90u8).collect(), vec![event(EngineEventKind::Word, 1, 3, 1)]),
        (
            (90..200u8).collect(),
            vec![event(EngineEventKind::Word, 1, 3, 1), event(EngineEventKind::Sentence, 5, 3, 3)],
        ),
        ((200..=255u8).collect(), vec![event(EngineEventKind::Word, 9, 2, 50)]),
    ];
    let mut all = Vec::new();
    let mut expected = Vec::new();
    for (wav, events) in &blocks {
        let frames = translate_block(&mut state, wav, events, 22050);
        all.extend(flushed_bytes(wav, &frames));
        expected.extend_from_slice(wav);
    }
    assert_eq!(all, expected);
    assert_eq!(state.bytes_sent, 256);
}

#[test]
fn two_word_utterance_yields_two_words_and_a_sentence() {
    let utterance = "hey there";
    let mut state = StreamState::new();
    let wav = vec![0u8; 1000];
    let events = [
        event(EngineEventKind::Sentence, 1, 9, 0),
        event(EngineEventKind::Word, 1, 3, 0),
        event(EngineEventKind::Word, 5, 5, 10),
        event(EngineEventKind::Other, 10, 0, 20),
    ];
    let frames = translate_block(&mut state, &wav, &events, 22050);
    let mut words = 0;
    let mut sentences = 0;
    let mut last_start = 0u64;
    for f in &frames {
        if let Frame::Event { kind, text_start, text_end } = f {
            match kind {
                BoundaryKind::Word => words += 1,
                BoundaryKind::Sentence => sentences += 1,
            }
            assert!(*text_start >= last_start);
            assert!(text_start <= text_end);
            assert!(*text_end as usize <= utterance.len());
            last_start = *text_start;
        }
    }
    assert_eq!(words, 2);
    assert_eq!(sentences, 1);
    assert_eq!(
        frames,
        vec![
            Frame::Event { kind: BoundaryKind::Sentence, text_start: 0, text_end: 9 },
            Frame::Event { kind: BoundaryKind::Word, text_start: 0, text_end: 3 },
            Frame::Audio { start: 0, end: 440 },
            Frame::Event { kind: BoundaryKind::Word, text_start: 4, text_end: 9 },
            Frame::Audio { start: 440, end: 1000 },
        ]
    );
    assert_eq!(flushed_bytes(&wav, &frames), wav);
}
