//! Byte framing for ZMK Studio transport frames.
//!
//! A frame is `SOF payload* EOF`, where any payload byte equal to one of the
//! three reserved marker bytes is preceded by the escape marker.

use vstd::prelude::*;

verus! {

/// Start-of-frame marker byte.
pub const FRAMING_SOF: u8 = 0xAB;
/// Escape marker byte: the byte after it is literal payload.
pub const FRAMING_ESC: u8 = 0xAC;
/// End-of-frame marker byte.
pub const FRAMING_EOF: u8 = 0xAD;

/// Errors signalled by the frame decoder. Both reset the decoder to a clean
/// idle state; only the in-progress frame (and the rest of the chunk) is lost.
#[derive(Debug, Clone, Copy, PartialEq, Eq, Structural)]
pub enum FramingError {
    /// A byte other than the start marker arrived while waiting for a frame.
    ExpectedStartOfFrame,
    /// A start marker arrived while a frame was already open.
    UnexpectedStartOfFrameMidFrame,
}

/// Decoder state: waiting for a start marker, inside a frame, or just after
/// an escape marker.
#[derive(Debug, Clone, Copy, PartialEq, Eq, Structural)]
pub enum DecodeState {
    Idle,
    AwaitingData,
    Escaped,
}

/// True of the byte values that must be escaped inside a frame payload.
pub open spec fn is_reserved(b: u8) -> bool {
    b == FRAMING_SOF || b == FRAMING_ESC || b == FRAMING_EOF
}

/// The encoding of a single payload byte: escaped if reserved, literal otherwise.
pub open spec fn encode_byte_spec(b: u8) -> Seq<u8> {
    if is_reserved(b) {
        seq![FRAMING_ESC, b]
    } else {
        seq![b]
    }
}

/// The byte-stuffed body of a frame, before the markers are added.
pub open spec fn encode_payload_spec(payload: Seq<u8>) -> Seq<u8>
    decreases payload.len(),
{
    if payload.len() == 0 {
        Seq::empty()
    } else {
        encode_byte_spec(payload[0]) + encode_payload_spec(payload.skip(1))
    }
}

/// The complete wire form of one frame: markers around the stuffed body.
pub open spec fn encode_frame_spec(payload: Seq<u8>) -> Seq<u8> {
    seq![FRAMING_SOF] + encode_payload_spec(payload) + seq![FRAMING_EOF]
}

/// The decoder's abstract state after processing some bytes: its state
/// machine position, the partial payload it is holding, the complete frames
/// it emitted, and the error that stopped it, if any.
///
/// An erroneous run always has `state == DecodeState::Idle`, empty `data`,
/// and empty `frames`: an error resets the decoder and discards everything
/// the call would have returned.
#[verifier::ext_equal]
pub struct DecodeRun {
    pub state: DecodeState,
    pub data: Seq<u8>,
    pub frames: Seq<Seq<u8>>,
    pub error: Option<FramingError>,
}

/// One step of the decoder state machine on a single input byte.
pub open spec fn step_spec(state: DecodeState, data: Seq<u8>, b: u8) -> DecodeRun {
    match state {
        DecodeState::Idle => {
            if b == FRAMING_SOF {
                DecodeRun { state: DecodeState::AwaitingData, data, frames: seq![], error: None }
            } else {
                DecodeRun {
                    state: DecodeState::Idle,
                    data: Seq::empty(),
                    frames: seq![],
                    error: Some(FramingError::ExpectedStartOfFrame),
                }
            }
        },
        DecodeState::AwaitingData => {
            if b == FRAMING_SOF {
                DecodeRun {
                    state: DecodeState::Idle,
                    data: Seq::empty(),
                    frames: seq![],
                    error: Some(FramingError::UnexpectedStartOfFrameMidFrame),
                }
            } else if b == FRAMING_ESC {
                DecodeRun { state: DecodeState::Escaped, data, frames: seq![], error: None }
            } else if b == FRAMING_EOF {
                DecodeRun {
                    state: DecodeState::Idle,
                    data: Seq::empty(),
                    frames: seq![data],
                    error: None,
                }
            } else {
                DecodeRun {
                    state: DecodeState::AwaitingData,
                    data: data.push(b),
                    frames: seq![],
                    error: None,
                }
            }
        },
        DecodeState::Escaped => {
            DecodeRun {
                state: DecodeState::AwaitingData,
                data: data.push(b),
                frames: seq![],
                error: None,
            }
        },
    }
}

/// The decoder run over a whole chunk, byte by byte from the front.
///
/// An error stops the run: the rest of the chunk is not processed and any
/// frames seen earlier in the same chunk are discarded, exactly as the
/// executable decoder behaves.
pub open spec fn run_spec(state: DecodeState, data: Seq<u8>, chunk: Seq<u8>) -> DecodeRun
    decreases chunk.len(),
{
    if chunk.len() == 0 {
        DecodeRun { state, data, frames: seq![], error: None }
    } else {
        let first = step_spec(state, data, chunk[0]);
        if first.error is Some {
            first
        } else {
            let rest = run_spec(first.state, first.data, chunk.skip(1));
            if rest.error is Some {
                rest
            } else {
                DecodeRun {
                    state: rest.state,
                    data: rest.data,
                    frames: first.frames + rest.frames,
                    error: None,
                }
            }
        }
    }
}

/// Wraps `payload` in start/end markers, escaping every reserved byte.
pub fn encode_frame(payload: &[u8]) -> (out: Vec<u8>)
    ensures
        out@ == encode_frame_spec(payload@),
{
    let mut out: Vec<u8> = Vec::new();
    out.push(FRAMING_SOF);

    let mut i: usize = 0;
    while i < payload.len()
        invariant
            i <= payload.len(),
            out@ == seq![FRAMING_SOF] + encode_payload_spec(payload@.take(i as int)),
        decreases payload.len() - i,
    {
        let b = payload[i];
        if b == FRAMING_SOF || b == FRAMING_ESC || b == FRAMING_EOF {
            out.push(FRAMING_ESC);
        }
        out.push(b);
        proof {
            lemma_encode_payload_snoc(payload@, i as int);
        }
        i = i + 1;
    }

    out.push(FRAMING_EOF);
    proof {
        assert(payload@.take(payload@.len() as int) =~= payload@);
        assert(out@ =~= encode_frame_spec(payload@));
    }
    out
}

/// Splitting one encoded byte off the end of a payload prefix.
proof fn lemma_encode_payload_snoc(payload: Seq<u8>, i: int)
    requires
        0 <= i < payload.len(),
    ensures
        encode_payload_spec(payload.take(i + 1))
            == encode_payload_spec(payload.take(i)) + encode_byte_spec(payload[i]),
    decreases i,
{
    reveal_with_fuel(encode_payload_spec, 2);
    if i == 0 {
        assert(payload.take(1) =~= seq![payload[0]]);
        assert(payload.take(1).skip(1) =~= Seq::<u8>::empty());
        assert(encode_payload_spec(payload.take(0)) =~= Seq::<u8>::empty());
        assert(encode_payload_spec(payload.take(1))
            =~= Seq::<u8>::empty() + encode_byte_spec(payload[0]));
    } else {
        lemma_encode_payload_snoc(payload.skip(1), i - 1);
        assert(payload.take(i + 1).skip(1) =~= payload.skip(1).take(i));
        assert(payload.take(i).skip(1) =~= payload.skip(1).take(i - 1));
        assert(payload.take(i + 1)[0] == payload[0]);
        assert(payload.take(i)[0] == payload[0]);
        assert(payload.skip(1)[i - 1] == payload[i]);
        assert(encode_payload_spec(payload.take(i + 1))
            =~= encode_payload_spec(payload.take(i)) + encode_byte_spec(payload[i]));
    }
}

/// Stateful frame decoder: accepts byte chunks of arbitrary size and emits
/// each complete frame payload exactly once, in order.
#[derive(Debug)]
pub struct FrameDecoder {
    state: DecodeState,
    data: Vec<u8>,
}

impl FrameDecoder {
    /// The decoder's state machine position.
    pub closed spec fn state_spec(&self) -> DecodeState {
        self.state
    }

    /// The partial frame payload buffered so far.
    pub closed spec fn buffered(&self) -> Seq<u8> {
        self.data@
    }

    /// A fresh decoder: idle, with nothing buffered.
    pub fn new() -> (d: Self)
        ensures
            d.state_spec() == DecodeState::Idle,
            d.buffered() == Seq::<u8>::empty(),
    {
        FrameDecoder { state: DecodeState::Idle, data: Vec::new() }
    }

    /// Consumes a chunk and returns the frame payloads completed by it, or
    /// the first framing error. The result and the decoder's new state are
    /// exactly those of [`run_spec`] on the old state and the chunk.
    pub fn push(&mut self, chunk: &[u8]) -> (r: Result<Vec<Vec<u8>>, FramingError>)
        ensures
            ({
                let run = run_spec(old(self).state_spec(), old(self).buffered(), chunk@);
                &&& final(self).state_spec() == run.state
                &&& final(self).buffered() == run.data
                &&& match r {
                    Ok(frames) => run.error is None && frames.deep_view() == run.frames,
                    Err(e) => run.error == Some(e),
                }
            }),
    {
        let ghost orig_state = self.state;
        let ghost orig_data = self.data@;
        let mut frames: Vec<Vec<u8>> = Vec::new();

        let mut i: usize = 0;
        while i < chunk.len()
            invariant
                i <= chunk.len(),
                orig_state == old(self).state_spec(),
                orig_data == old(self).buffered(),
                ({
                    let run = run_spec(orig_state, orig_data, chunk@.take(i as int));
                    &&& run.error is None
                    &&& self.state == run.state
                    &&& self.data@ == run.data
                    &&& frames.deep_view() == run.frames
                }),
            decreases chunk.len() - i,
        {
            let b = chunk[i];
            let ghost pre_state = self.state;
            let ghost pre_data = self.data@;
            let ghost pre_frames = frames.deep_view();

            let mut error: Option<FramingError> = None;
            match self.state {
                DecodeState::Idle => {
                    if b == FRAMING_SOF {
                        self.state = DecodeState::AwaitingData;
                    } else {
                        self.data.clear();
                        self.state = DecodeState::Idle;
                        error = Some(FramingError::ExpectedStartOfFrame);
                    }
                },
                DecodeState::AwaitingData => {
                    if b == FRAMING_SOF {
                        self.data.clear();
                        self.state = DecodeState::Idle;
                        error = Some(FramingError::UnexpectedStartOfFrameMidFrame);
                    } else if b == FRAMING_ESC {
                        self.state = DecodeState::Escaped;
                    } else if b == FRAMING_EOF {
                        let mut complete: Vec<u8> = Vec::new();
                        core::mem::swap(&mut complete, &mut self.data);
                        frames.push(complete);
                        self.state = DecodeState::Idle;
                    } else {
                        self.data.push(b);
                    }
                },
                DecodeState::Escaped => {
                    self.data.push(b);
                    self.state = DecodeState::AwaitingData;
                },
            }

            proof {
                reveal_with_fuel(run_spec, 2);
                let b = chunk@[i as int];
                let prev = chunk@.take(i as int);
                let stepped = step_spec(pre_state, pre_data, b);
                assert(chunk@.take(i + 1) =~= prev + seq![b]);
                lemma_run_append(orig_state, orig_data, prev, seq![b]);
                assert(seq![b].skip(1) =~= Seq::<u8>::empty());
                let single = run_spec(pre_state, pre_data, seq![b]);
                if stepped.error is None {
                    assert(stepped.frames + Seq::<Seq<u8>>::empty() =~= stepped.frames);
                    assert(single =~= stepped);
                    let run_next = run_spec(orig_state, orig_data, chunk@.take(i + 1));
                    assert(run_next.frames == pre_frames + stepped.frames);
                    if stepped.frames.len() == 0 {
                        assert(pre_frames + stepped.frames =~= pre_frames);
                        assert(frames.deep_view() == pre_frames);
                    } else {
                        assert(stepped.frames =~= seq![pre_data]);
                        assert(frames@.len() == pre_frames.len() + 1);
                        assert forall|j: int| 0 <= j < frames@.len() implies frames.deep_view()[j]
                            == (pre_frames + stepped.frames)[j] by {
                            if j < pre_frames.len() {
                                assert(frames.deep_view()[j] == frames@[j]@);
                            }
                        }
                        assert(frames.deep_view() =~= pre_frames + stepped.frames);
                    }
                } else {
                    assert(single == stepped);
                }
            }

            if let Some(e) = error {
                proof {
                    reveal_with_fuel(run_spec, 2);
                    let b = chunk@[i as int];
                    let stepped = step_spec(pre_state, pre_data, b);
                    assert(stepped.error == Some(e));
                    assert(run_spec(orig_state, orig_data, chunk@.take(i + 1)) == stepped);
                    assert(chunk@ =~= chunk@.take(i + 1) + chunk@.skip(i + 1));
                    lemma_run_append(orig_state, orig_data, chunk@.take(i + 1), chunk@.skip(i + 1));
                    assert(run_spec(orig_state, orig_data, chunk@) == stepped);
                    assert(self.state == DecodeState::Idle);
                    assert(self.data@ =~= Seq::<u8>::empty());
                }
                return Err(e);
            }

            i = i + 1;
        }

        proof {
            assert(chunk@.take(chunk@.len() as int) =~= chunk@);
        }
        Ok(frames)
    }
}

/// Chunking invariance of the decoder: running on a concatenation is the same
/// as running on the two pieces in turn. Splitting an input stream into
/// arbitrary chunks therefore yields the same frames in the same order, as
/// long as no framing error occurs; an error discards the frames of the chunk
/// it arrives in.
pub proof fn lemma_run_append(state: DecodeState, data: Seq<u8>, c1: Seq<u8>, c2: Seq<u8>)
    ensures
        ({
            let r1 = run_spec(state, data, c1);
            let whole = run_spec(state, data, c1 + c2);
            if r1.error is Some {
                whole == r1
            } else {
                let r2 = run_spec(r1.state, r1.data, c2);
                if r2.error is Some {
                    whole == r2
                } else {
                    whole == DecodeRun {
                        state: r2.state,
                        data: r2.data,
                        frames: r1.frames + r2.frames,
                        error: None,
                    }
                }
            }
        }),
    decreases c1.len(),
{
    let r1 = run_spec(state, data, c1);
    if c1.len() == 0 {
        assert(c1 + c2 =~= c2);
        let r2 = run_spec(state, data, c2);
        if r2.error is None {
            assert(r1.frames + r2.frames =~= r2.frames);
            assert(run_spec(state, data, c1 + c2) =~= DecodeRun {
                state: r2.state,
                data: r2.data,
                frames: r1.frames + r2.frames,
                error: None,
            });
        }
    } else {
        let first = step_spec(state, data, c1[0]);
        assert((c1 + c2)[0] == c1[0]);
        assert((c1 + c2).skip(1) =~= c1.skip(1) + c2);
        if first.error is Some {
            assert(run_spec(state, data, c1 + c2) == first);
        } else {
            lemma_run_append(first.state, first.data, c1.skip(1), c2);
            let rest1 = run_spec(first.state, first.data, c1.skip(1));
            if rest1.error is Some {
                assert(run_spec(state, data, c1 + c2) == rest1);
            } else {
                let r2 = run_spec(rest1.state, rest1.data, c2);
                if r2.error is None {
                    assert(first.frames + (rest1.frames + r2.frames)
                        =~= (first.frames + rest1.frames) + r2.frames);
                    assert(run_spec(state, data, c1 + c2) =~= DecodeRun {
                        state: r2.state,
                        data: r2.data,
                        frames: r1.frames + r2.frames,
                        error: None,
                    });
                }
            }
        }
    }
}

/// Helper for the round-trip law: decoding the stuffed body of `payload`
/// followed by the end marker, starting mid-frame with `acc` already
/// buffered, emits exactly `acc + payload` and returns the decoder to idle.
proof fn lemma_decode_body(acc: Seq<u8>, payload: Seq<u8>)
    ensures
        run_spec(DecodeState::AwaitingData, acc, encode_payload_spec(payload) + seq![FRAMING_EOF])
            == (DecodeRun {
            state: DecodeState::Idle,
            data: Seq::<u8>::empty(),
            frames: seq![acc + payload],
            error: None,
        }),
    decreases payload.len(),
{
    reveal_with_fuel(run_spec, 3);
    if payload.len() == 0 {
        assert(encode_payload_spec(payload) + seq![FRAMING_EOF] =~= seq![FRAMING_EOF]);
        assert(seq![FRAMING_EOF].skip(1) =~= Seq::<u8>::empty());
        assert(acc + payload =~= acc);
        assert(run_spec(DecodeState::AwaitingData, acc, seq![FRAMING_EOF]) =~= DecodeRun {
            state: DecodeState::Idle,
            data: Seq::<u8>::empty(),
            frames: seq![acc + payload],
            error: None,
        });
    } else {
        let b = payload[0];
        let rest = payload.skip(1);
        lemma_decode_body(acc.push(b), rest);
        assert(acc.push(b) + rest =~= acc + payload);
        let tail = encode_payload_spec(rest) + seq![FRAMING_EOF];
        if is_reserved(b) {
            assert(encode_payload_spec(payload) + seq![FRAMING_EOF]
                =~= seq![FRAMING_ESC, b] + tail);
            let c = seq![FRAMING_ESC, b] + tail;
            assert(c[0] == FRAMING_ESC);
            assert(c.skip(1) =~= seq![b] + tail);
            assert((seq![b] + tail)[0] == b);
            assert((seq![b] + tail).skip(1) =~= tail);
        } else {
            assert(encode_payload_spec(payload) + seq![FRAMING_EOF] =~= seq![b] + tail);
            let c = seq![b] + tail;
            assert(c[0] == b);
            assert(c.skip(1) =~= tail);
        }
    }
}

/// Round-trip law: decoding the encoding of any payload, from a clean idle
/// decoder, yields exactly that payload as a single frame and leaves the
/// decoder clean again. This holds for payloads containing any byte values,
/// the reserved markers included.
pub proof fn lemma_encode_decode_round_trip(payload: Seq<u8>)
    ensures
        run_spec(DecodeState::Idle, Seq::<u8>::empty(), encode_frame_spec(payload)) == (DecodeRun {
            state: DecodeState::Idle,
            data: Seq::<u8>::empty(),
            frames: seq![payload],
            error: None,
        }),
{
    lemma_decode_body(Seq::<u8>::empty(), payload);
    let body = encode_payload_spec(payload) + seq![FRAMING_EOF];
    assert(encode_frame_spec(payload) =~= seq![FRAMING_SOF] + body);
    let c = seq![FRAMING_SOF] + body;
    assert(c[0] == FRAMING_SOF);
    assert(c.skip(1) =~= body);
    assert(Seq::<u8>::empty() + payload =~= payload);
}

/// The concatenation of a sequence of byte chunks.
pub open spec fn concat_chunks(chunks: Seq<Seq<u8>>) -> Seq<u8>
    decreases chunks.len(),
{
    if chunks.len() == 0 {
        Seq::empty()
    } else {
        chunks[0] + concat_chunks(chunks.skip(1))
    }
}

/// The decoder run over a sequence of chunks fed one push at a time, with
/// the frames of every push collected in order.
pub open spec fn run_chunks(state: DecodeState, data: Seq<u8>, chunks: Seq<Seq<u8>>) -> DecodeRun
    decreases chunks.len(),
{
    if chunks.len() == 0 {
        DecodeRun { state, data, frames: seq![], error: None }
    } else {
        let first = run_spec(state, data, chunks[0]);
        if first.error is Some {
            first
        } else {
            let rest = run_chunks(first.state, first.data, chunks.skip(1));
            if rest.error is Some {
                rest
            } else {
                DecodeRun {
                    state: rest.state,
                    data: rest.data,
                    frames: first.frames + rest.frames,
                    error: None,
                }
            }
        }
    }
}

/// Chunking-invariance law: feeding a byte stream to the decoder in any
/// chunking yields, as long as no framing error occurs, exactly the frames
/// of the whole stream, in the same order, and the same decoder state.
pub proof fn lemma_chunking_invariance(state: DecodeState, data: Seq<u8>, chunks: Seq<Seq<u8>>)
    ensures
        ({
            let rc = run_chunks(state, data, chunks);
            rc.error is None ==> rc == run_spec(state, data, concat_chunks(chunks))
        }),
    decreases chunks.len(),
{
    let rc = run_chunks(state, data, chunks);
    if chunks.len() == 0 {
        if rc.error is None {
            assert(concat_chunks(chunks) =~= Seq::<u8>::empty());
            assert(rc =~= run_spec(state, data, concat_chunks(chunks)));
        }
    } else {
        let first = run_spec(state, data, chunks[0]);
        if first.error is None {
            lemma_chunking_invariance(first.state, first.data, chunks.skip(1));
            lemma_run_append(state, data, chunks[0], concat_chunks(chunks.skip(1)));
            assert(concat_chunks(chunks) == chunks[0] + concat_chunks(chunks.skip(1)));
        }
    }
}

/// The wire bytes of a sequence of frames, one encoding after the next.
pub open spec fn concat_encodings(payloads: Seq<Seq<u8>>) -> Seq<u8>
    decreases payloads.len(),
{
    if payloads.len() == 0 {
        Seq::empty()
    } else {
        encode_frame_spec(payloads[0]) + concat_encodings(payloads.skip(1))
    }
}

/// Stream round-trip law: decoding the encodings of any sequence of frame
/// payloads, from a clean idle decoder, yields exactly those payloads as
/// frames, in order, and leaves the decoder clean. Together with
/// [`lemma_chunking_invariance`], the same holds however the stream is
/// split into chunks.
pub proof fn lemma_stream_round_trip(payloads: Seq<Seq<u8>>)
    ensures
        run_spec(DecodeState::Idle, Seq::empty(), concat_encodings(payloads)) == (DecodeRun {
            state: DecodeState::Idle,
            data: Seq::empty(),
            frames: payloads,
            error: None,
        }),
    decreases payloads.len(),
{
    if payloads.len() == 0 {
        assert(concat_encodings(payloads) =~= Seq::<u8>::empty());
        assert(run_spec(DecodeState::Idle, Seq::empty(), concat_encodings(payloads))
            =~= (DecodeRun {
            state: DecodeState::Idle,
            data: Seq::empty(),
            frames: payloads,
            error: None,
        }));
    } else {
        lemma_encode_decode_round_trip(payloads[0]);
        lemma_stream_round_trip(payloads.skip(1));
        lemma_run_append(
            DecodeState::Idle,
            Seq::empty(),
            encode_frame_spec(payloads[0]),
            concat_encodings(payloads.skip(1)),
        );
        assert(seq![payloads[0]] + payloads.skip(1) =~= payloads);
    }
}

/// Every erroneous run leaves the decoder idle with nothing buffered.
pub proof fn lemma_error_resets(state: DecodeState, data: Seq<u8>, chunk: Seq<u8>)
    ensures
        ({
            let r = run_spec(state, data, chunk);
            r.error is Some ==> {
                &&& r.state == DecodeState::Idle
                &&& r.data == Seq::<u8>::empty()
                &&& r.frames == Seq::<Seq<u8>>::empty()
            }
        }),
    decreases chunk.len(),
{
    if chunk.len() > 0 {
        let first = step_spec(state, data, chunk[0]);
        if first.error is None {
            lemma_error_resets(first.state, first.data, chunk.skip(1));
        }
    }
}

/// Error-recovery law: after any erroneous chunk, a well-formed frame fed to
/// the decoder is decoded exactly.
pub proof fn lemma_error_recovery(state: DecodeState, data: Seq<u8>, bad: Seq<u8>, payload: Seq<u8>)
    ensures
        ({
            let r = run_spec(state, data, bad);
            r.error is Some ==> run_spec(r.state, r.data, encode_frame_spec(payload))
                == (DecodeRun {
                state: DecodeState::Idle,
                data: Seq::<u8>::empty(),
                frames: seq![payload],
                error: None,
            })
        }),
{
    lemma_error_resets(state, data, bad);
    lemma_encode_decode_round_trip(payload);
}

} // verus!
