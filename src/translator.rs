//! Turns the engine's callback blocks (a run of 16-bit samples plus the
//! events that refer to them) into one ordered stream of audio and boundary
//! frames.
use vstd::prelude::*;

verus! {

/// Sample rate of the fixed-rate voice family, whose event timing cannot be
/// tied to audio offsets.
pub const AUXILIARY_SAMPLE_RATE: u32 = 16000;

/// Kind of an event as the engine reports it.
#[derive(Clone, Copy, Debug, PartialEq, Eq, Structural)]
pub enum EngineEventKind {
    Word,
    Sentence,
    Other,
}

/// Kind of a boundary event written to the sink.
#[derive(Clone, Copy, Debug, PartialEq, Eq, Structural)]
pub enum BoundaryKind {
    Word,
    Sentence,
}

/// One event of a callback block, with the engine's own offsets: text
/// offsets one past the true position, audio offset in milliseconds from the
/// start of the session.
#[derive(Clone, Copy, Debug, PartialEq, Eq, Structural)]
pub struct EngineEvent {
    pub kind: EngineEventKind,
    pub text_position: u32,
    pub length: u32,
    pub audio_position: u32,
}

/// One write to the sink. `Audio` is the byte range `start..end` of the
/// block being translated; `Event` is a boundary over the text range
/// `text_start..text_end` of the utterance.
#[derive(Clone, Copy, Debug, PartialEq, Eq, Structural)]
pub enum Frame {
    Audio { start: usize, end: usize },
    Event { kind: BoundaryKind, text_start: u64, text_end: u64 },
}

/// Per-session state: the number of audio bytes flushed so far.
#[derive(Clone, Copy, Debug, PartialEq, Eq, Structural)]
pub struct StreamState {
    pub bytes_sent: u64,
}

impl StreamState {
    /// The state of a session that has flushed nothing yet.
    pub fn new() -> (r: StreamState)
        ensures
            r.bytes_sent == 0,
    {
        StreamState { bytes_sent: 0 }
    }
}

/// Where the work on a block stands: the frames written, the first
/// byte of the block not yet flushed, and the session's flushed byte count.
pub struct BlockStep {
    pub frames: Seq<Frame>,
    pub cursor: int,
    pub sent: int,
}

pub open spec fn boundary_kind(k: EngineEventKind) -> Option<BoundaryKind> {
    match k {
        EngineEventKind::Word => Some(BoundaryKind::Word),
        EngineEventKind::Sentence => Some(BoundaryKind::Sentence),
        EngineEventKind::Other => None,
    }
}

/// Byte offset of an event from the start of the session: milliseconds
/// times samples per millisecond, two bytes per sample.
pub open spec fn raw_offset(e: EngineEvent, rate: u32) -> int {
    ((e.audio_position as int * rate as int) / 1000) * 2
}

/// The engine's text offsets are one past the true ones.
pub open spec fn shifted(p: int) -> int {
    if p > 0 {
        p - 1
    } else {
        0
    }
}

/// Offset of an event past what is already flushed, clamped at zero.
pub open spec fn pending_offset(e: EngineEvent, rate: u32, sent: int) -> int {
    if raw_offset(e, rate) > sent {
        raw_offset(e, rate) - sent
    } else {
        0
    }
}

/// Flush the block up to `cut` (when that is past the cursor).
pub open spec fn flush_to(st: BlockStep, cut: int) -> BlockStep {
    if cut > st.cursor {
        BlockStep {
            frames: st.frames.push(Frame::Audio { start: st.cursor as usize, end: cut as usize }),
            cursor: cut,
            sent: st.sent + (cut - st.cursor),
        }
    } else {
        st
    }
}

/// One event of a block of `len` bytes.
pub open spec fn event_step(st: BlockStep, e: EngineEvent, rate: u32, len: int) -> BlockStep {
    match boundary_kind(e.kind) {
        None => st,
        Some(k) => if rate == AUXILIARY_SAMPLE_RATE {
            st
        } else {
            let want = st.cursor + pending_offset(e, rate, st.sent);
            let cut = if want < len {
                want
            } else {
                len
            };
            let st1 = flush_to(st, cut);
            BlockStep {
                frames: st1.frames.push(
                    Frame::Event {
                        kind: k,
                        text_start: shifted(e.text_position as int) as u64,
                        text_end: shifted(e.text_position as int + e.length as int) as u64,
                    },
                ),
                cursor: st1.cursor,
                sent: st1.sent,
            }
        },
    }
}

/// The events of a block, in arrival order.
pub open spec fn events_run(events: Seq<EngineEvent>, rate: u32, len: int, sent: int) -> BlockStep
    decreases events.len(),
{
    if events.len() == 0 {
        BlockStep { frames: Seq::empty(), cursor: 0, sent }
    } else {
        event_step(events_run(events.drop_last(), rate, len, sent), events.last(), rate, len)
    }
}

/// A whole block: its events, then the unflushed tail of its audio.
pub open spec fn block_result(events: Seq<EngineEvent>, rate: u32, len: int, sent: int) -> BlockStep {
    flush_to(events_run(events, rate, len, sent), len)
}

/// The bytes of `wav` that the audio frames of `frames` cover, in order.
pub open spec fn audio_bytes(wav: Seq<u8>, frames: Seq<Frame>) -> Seq<u8>
    decreases frames.len(),
{
    if frames.len() == 0 {
        Seq::empty()
    } else {
        let rest = audio_bytes(wav, frames.drop_last());
        match frames.last() {
            Frame::Audio { start, end } => rest + wav.subrange(start as int, end as int),
            Frame::Event { .. } => rest,
        }
    }
}

/// The audio a session flushes when fed `blocks` (samples and events of
/// each) from a state that has flushed `sent` bytes.
pub open spec fn session_audio(blocks: Seq<(Seq<u8>, Seq<EngineEvent>)>, rate: u32, sent: int) -> Seq<u8>
    decreases blocks.len(),
{
    if blocks.len() == 0 {
        Seq::empty()
    } else {
        let r = block_result(blocks[0].1, rate, blocks[0].0.len() as int, sent);
        audio_bytes(blocks[0].0, r.frames) + session_audio(blocks.drop_first(), rate, r.sent)
    }
}

/// The samples of `blocks`, one block after the other.
pub open spec fn all_samples(blocks: Seq<(Seq<u8>, Seq<EngineEvent>)>) -> Seq<u8>
    decreases blocks.len(),
{
    if blocks.len() == 0 {
        Seq::empty()
    } else {
        blocks[0].0 + all_samples(blocks.drop_first())
    }
}

proof fn lemma_events_run_tiles(wav: Seq<u8>, events: Seq<EngineEvent>, rate: u32, sent: int)
    requires
        wav.len() <= usize::MAX,
    ensures
        ({
            let st = events_run(events, rate, wav.len() as int, sent);
            &&& 0 <= st.cursor <= wav.len()
            &&& st.sent == sent + st.cursor
            &&& audio_bytes(wav, st.frames) == wav.subrange(0, st.cursor)
        }),
    decreases events.len(),
{
    let len = wav.len() as int;
    if events.len() == 0 {
        assert(wav.subrange(0, 0) =~= Seq::<u8>::empty());
    } else {
        let prev = events_run(events.drop_last(), rate, len, sent);
        lemma_events_run_tiles(wav, events.drop_last(), rate, sent);
        let e = events.last();
        if boundary_kind(e.kind) is Some && rate != AUXILIARY_SAMPLE_RATE {
            let want = prev.cursor + pending_offset(e, rate, prev.sent);
            let cut = if want < len {
                want
            } else {
                len
            };
            let st1 = flush_to(prev, cut);
            if cut > prev.cursor {
                assert(wav.subrange(0, prev.cursor) + wav.subrange(prev.cursor, cut) =~= wav.subrange(
                    0,
                    cut,
                ));
                assert(st1.frames.drop_last() =~= prev.frames);
            }
            assert(prev.cursor <= cut <= len);
            assert(st1.sent == sent + st1.cursor);
            assert(audio_bytes(wav, st1.frames) == wav.subrange(0, st1.cursor));
            let st = events_run(events, rate, len, sent);
            assert(st.frames.drop_last() =~= st1.frames);
            assert(st.frames.last() is Event);
            assert(audio_bytes(wav, st.frames) == audio_bytes(wav, st1.frames));
        }
    }
}

/// Every byte of a block is flushed exactly once and in order, and the
/// flushed count grows by the block's length.
pub proof fn lemma_block_flushes_all(wav: Seq<u8>, events: Seq<EngineEvent>, rate: u32, sent: int)
    requires
        wav.len() <= usize::MAX,
    ensures
        audio_bytes(wav, block_result(events, rate, wav.len() as int, sent).frames) == wav,
        block_result(events, rate, wav.len() as int, sent).sent == sent + wav.len(),
{
    let len = wav.len() as int;
    let st = events_run(events, rate, len, sent);
    lemma_events_run_tiles(wav, events, rate, sent);
    if len > st.cursor {
        let r = block_result(events, rate, len, sent);
        assert(r.frames.drop_last() =~= st.frames);
        assert(wav.subrange(0, st.cursor) + wav.subrange(st.cursor, len) =~= wav);
    } else {
        assert(wav.subrange(0, len) =~= wav);
    }
}

/// Over any run of blocks, the concatenation of the flushed audio is the
/// concatenation of the blocks' samples: no byte repeated, none dropped,
/// none reordered.
pub proof fn lemma_session_flushes_all(blocks: Seq<(Seq<u8>, Seq<EngineEvent>)>, rate: u32, sent: int)
    requires
        forall|b: int| 0 <= b < blocks.len() ==> #[trigger] blocks[b].0.len() <= usize::MAX,
    ensures
        session_audio(blocks, rate, sent) == all_samples(blocks),
    decreases blocks.len(),
{
    if blocks.len() > 0 {
        let r = block_result(blocks[0].1, rate, blocks[0].0.len() as int, sent);
        lemma_block_flushes_all(blocks[0].0, blocks[0].1, rate, sent);
        assert forall|b: int| 0 <= b < blocks.drop_first().len() implies #[trigger] blocks.drop_first()[b].0.len() <= usize::MAX by {
            assert(blocks.drop_first()[b] == blocks[b + 1]);
        }
        lemma_session_flushes_all(blocks.drop_first(), rate, r.sent);
    }
}

/// Where a boundary event lands. Let `target` be its offset from the session
/// start, raised to what was flushed when it arrived. Every byte flushed
/// before the event lies below `target`, and when `target` falls within the
/// block the next byte after the event is the one at `target`. An event
/// whose offset lies at or before what was already flushed is written at the
/// current position with no audio before it.
pub proof fn lemma_event_placement(
    events: Seq<EngineEvent>,
    rate: u32,
    len: int,
    sent: int,
    i: int,
)
    requires
        0 <= i < events.len(),
        0 <= len <= usize::MAX,
        boundary_kind(events[i].kind) is Some,
        rate != AUXILIARY_SAMPLE_RATE,
    ensures
        ({
            let before = events_run(events.take(i), rate, len, sent);
            let after = events_run(events.take(i + 1), rate, len, sent);
            let target = if raw_offset(events[i], rate) > before.sent {
                raw_offset(events[i], rate)
            } else {
                before.sent
            };
            &&& after.frames.last() is Event
            &&& before.sent <= after.sent <= target
            &&& target <= sent + len ==> after.sent == target
            &&& raw_offset(events[i], rate) <= before.sent ==> after.frames == before.frames.push(
                after.frames.last(),
            )
        }),
{
    let pre = events.take(i + 1);
    assert(pre.drop_last() =~= events.take(i));
    assert(pre.last() == events[i]);
    let w: Seq<u8> = Seq::new(len as nat, |j: int| 0u8);
    lemma_events_run_tiles(w, events.take(i), rate, sent);
}

proof fn lemma_auxiliary_run_silent(events: Seq<EngineEvent>, len: int, sent: int)
    ensures
        events_run(events, AUXILIARY_SAMPLE_RATE, len, sent).frames.len() == 0,
        events_run(events, AUXILIARY_SAMPLE_RATE, len, sent).cursor == 0,
    decreases events.len(),
{
    if events.len() > 0 {
        lemma_auxiliary_run_silent(events.drop_last(), len, sent);
    }
}

/// Translates one callback block: `wav` holds its samples as bytes, `events`
/// the events the engine reported with it, `sample_rate` the engine's active
/// rate. Returns the frames to write, in order, and advances the flushed
/// count.
pub fn translate_block(
    state: &mut StreamState,
    wav: &[u8],
    events: &[EngineEvent],
    sample_rate: u32,
) -> (frames: Vec<Frame>)
    requires
        old(state).bytes_sent + wav@.len() <= u64::MAX,
    ensures
        frames@ == block_result(events@, sample_rate, wav@.len() as int, old(state).bytes_sent as int).frames,
        final(state).bytes_sent == old(state).bytes_sent + wav@.len(),
        sample_rate == AUXILIARY_SAMPLE_RATE ==> forall|k: int|
            0 <= k < frames@.len() ==> frames@[k] is Audio,
{
    let ghost sent0 = state.bytes_sent as int;
    let ghost len = wav@.len() as int;
    let mut frames: Vec<Frame> = Vec::new();
    let mut cursor: usize = 0;
    let n = events.len();
    let mut i: usize = 0;
    while i < n
        invariant
            n == events@.len(),
            0 <= i <= n,
            len == wav@.len(),
            sent0 + len <= u64::MAX,
            ({
                let st = events_run(events@.take(i as int), sample_rate, len, sent0);
                &&& frames@ == st.frames
                &&& cursor == st.cursor
                &&& state.bytes_sent == st.sent
            }),
            cursor <= len,
            state.bytes_sent == sent0 + cursor,
        decreases n - i,
    {
        let e = events[i];
        let ghost prev = events_run(events@.take(i as int), sample_rate, len, sent0);
        proof {
            assert(events@.take(i + 1).drop_last() =~= events@.take(i as int));
        }
        let kind = match e.kind {
            EngineEventKind::Word => Some(BoundaryKind::Word),
            EngineEventKind::Sentence => Some(BoundaryKind::Sentence),
            EngineEventKind::Other => None,
        };
        if let Some(k) = kind {
            if sample_rate != AUXILIARY_SAMPLE_RATE {
                let pos = e.audio_position as u64;
                let rate = sample_rate as u64;
                assert(pos * rate <= 0xffff_ffff * 0xffff_ffff) by (nonlinear_arith)
                    requires
                        pos <= 0xffff_ffff,
                        rate <= 0xffff_ffff,
                ;
                let raw: u64 = pos * rate / 1000 * 2;
                let delta: u64 = if raw > state.bytes_sent {
                    raw - state.bytes_sent
                } else {
                    0
                };
                let room = wav.len() - cursor;
                let cut: usize = if delta < room as u64 {
                    cursor + delta as usize
                } else {
                    wav.len()
                };
                if cut > cursor {
                    frames.push(Frame::Audio { start: cursor, end: cut });
                    state.bytes_sent = state.bytes_sent + (cut - cursor) as u64;
                    cursor = cut;
                }
                let start: u64 = if e.text_position > 0 {
                    e.text_position as u64 - 1
                } else {
                    0
                };
                let stop: u64 = e.text_position as u64 + e.length as u64;
                let end: u64 = if stop > 0 {
                    stop - 1
                } else {
                    0
                };
                frames.push(Frame::Event { kind: k, text_start: start, text_end: end });
            }
        }
        i = i + 1;
    }
    proof {
        assert(events@.take(n as int) =~= events@);
    }
    if cursor < wav.len() {
        frames.push(Frame::Audio { start: cursor, end: wav.len() });
        state.bytes_sent = state.bytes_sent + (wav.len() - cursor) as u64;
    }
    proof {
        if sample_rate == AUXILIARY_SAMPLE_RATE {
            lemma_auxiliary_run_silent(events@, len, sent0);
        }
    }
    frames
}

} // verus!
