//! Streaming wrappers: a writer that encodes one frame per call, and a
//! reader that carries decoder state across calls.

use vstd::prelude::*;

use crate::decode::{process_byte, DecoderState};
use crate::encode::{encode_frame, encode_into_writer};
use crate::io::{ByteSink, ByteSource};
use crate::model::{drun, dstep, encode_spec, lemma_drun_no_new_frame, lemma_drun_snoc,
    mid_state, DecodeState};
use crate::{FrameRemainder, SlipError};

verus! {

/// Writer wrapper that encodes each outgoing payload as one frame and hands
/// it to the wrapped sink.  It holds no state between frames.
pub struct SlipWriter<W> {
    inner: W,
}

impl<W> SlipWriter<W> {
    /// The wrapped sink, for use in contracts.
    pub closed spec fn spec_inner(&self) -> W {
        self.inner
    }

    /// Construct a new writer around the provided sink.
    pub fn new(inner: W) -> (r: Self)
        ensures
            r.spec_inner() == inner,
    {
        SlipWriter { inner }
    }

    /// Retrieve an immutable reference to the underlying sink.
    pub fn get_ref(&self) -> (r: &W)
        ensures
            *r == self.spec_inner(),
    {
        &self.inner
    }

    /// Retrieve a mutable reference to the underlying sink.
    pub fn get_mut(&mut self) -> (r: &mut W)
        ensures
            *r == old(self).spec_inner(),
            final(self).spec_inner() == *final(r),
    {
        &mut self.inner
    }

    /// Consume the wrapper and return the inner sink.
    pub fn into_inner(self) -> (r: W)
        ensures
            r == self.spec_inner(),
    {
        self.inner
    }
}

impl<W: ByteSink> SlipWriter<W> {
    /// Encode `payload` as one frame and hand it to the sink in a single
    /// write.  On success the sink has accepted exactly the encoded frame;
    /// the only error is a sink failure, propagated unchanged.
    pub fn write_frame(&mut self, payload: &[u8]) -> (r: Result<(), SlipError>)
        ensures
            (match r {
                Ok(_) => final(self).spec_inner().sunk() == old(self).spec_inner().sunk()
                    + encode_spec(payload@),
                Err(e) => e matches SlipError::Io(_),
            }),
    {
        let frame = encode_frame(payload);
        match self.inner.put_bytes(frame.as_slice()) {
            Ok(_) => Ok(()),
            Err(e) => Err(SlipError::Io(e)),
        }
    }

    /// Encode `payload` as one frame, handing the bytes to the sink piece by
    /// piece instead of building the frame in memory first.
    pub fn write_frame_iter(&mut self, payload: &[u8]) -> (r: Result<(), SlipError>)
        ensures
            (match r {
                Ok(_) => final(self).spec_inner().sunk() == old(self).spec_inner().sunk()
                    + encode_spec(payload@),
                Err(e) => e matches SlipError::Io(_),
            }),
    {
        encode_into_writer(payload, &mut self.inner)
    }

    /// Flush the underlying sink.
    pub fn flush(&mut self) -> (r: Result<(), SlipError>)
        ensures
            (match r {
                Ok(_) => final(self).spec_inner().sunk() == old(self).spec_inner().sunk(),
                Err(e) => e matches SlipError::Io(_),
            }),
    {
        match self.inner.flush_sink() {
            Ok(_) => Ok(()),
            Err(e) => Err(SlipError::Io(e)),
        }
    }
}

/// Reader wrapper that decodes frames from a byte source, carrying the
/// decoder state and the bytes of a not-yet-terminated frame across calls.
pub struct SlipReader<R> {
    inner: R,
    state: DecoderState,
    pending: Vec<u8>,
    taken: Ghost<Seq<u8>>,
}

impl<R> SlipReader<R> {
    /// The wrapped source, for use in contracts.
    pub closed spec fn spec_inner(&self) -> R {
        self.inner
    }

    /// Bytes already decoded for the frame currently being read.
    pub closed spec fn buffered(&self) -> Seq<u8> {
        self.pending@
    }

    /// Whether the byte consumed last was an escape awaiting its code byte.
    pub closed spec fn esc_pending(&self) -> bool {
        self.state.last_was_esc
    }

    /// The bytes the source yielded during the most recent read call; the
    /// read contracts state their outcome as the decoder state machine's
    /// verdict on exactly these bytes.
    pub closed spec fn last_read(&self) -> Seq<u8> {
        self.taken@
    }

    /// Construct a new reader around the provided source, with empty decoder
    /// state.
    pub fn new(inner: R) -> (r: Self)
        ensures
            r.spec_inner() == inner,
            r.buffered().len() == 0,
            !r.esc_pending(),
    {
        SlipReader {
            inner,
            state: DecoderState { last_was_esc: false },
            pending: Vec::new(),
            taken: Ghost(Seq::empty()),
        }
    }

    /// Borrow the underlying source.
    pub fn get_ref(&self) -> (r: &R)
        ensures
            *r == self.spec_inner(),
    {
        &self.inner
    }

    /// Borrow the underlying source mutably.
    pub fn get_mut(&mut self) -> (r: &mut R)
        ensures
            *r == old(self).spec_inner(),
            final(self).spec_inner() == *final(r),
            final(self).buffered() == old(self).buffered(),
            final(self).esc_pending() == old(self).esc_pending(),
    {
        &mut self.inner
    }

    /// Consume the wrapper and return the inner source, dropping any
    /// buffered remainder.
    pub fn into_inner(self) -> (r: R)
        ensures
            r == self.spec_inner(),
    {
        self.inner
    }

    /// Consume the wrapper and return both the inner source and any buffered
    /// remainder.
    pub fn into_inner_with_remainder(self) -> (r: (R, FrameRemainder))
        ensures
            r.0 == self.spec_inner(),
            r.1.decoded@ == self.buffered(),
            r.1.escape_pending == self.esc_pending(),
    {
        let SlipReader { inner, state, pending, taken: _ } = self;
        (inner, FrameRemainder { decoded: pending, escape_pending: state.last_was_esc })
    }

    /// Take ownership of the buffered remainder, clearing the reader's
    /// decoder state: taking it again without new input yields an empty
    /// remainder.
    pub fn take_remainder(&mut self) -> (r: FrameRemainder)
        ensures
            r.decoded@ == old(self).buffered(),
            r.escape_pending == old(self).esc_pending(),
            final(self).buffered().len() == 0,
            !final(self).esc_pending(),
            final(self).spec_inner() == old(self).spec_inner(),
    {
        let mut decoded: Vec<u8> = Vec::new();
        core::mem::swap(&mut decoded, &mut self.pending);
        let escape_pending = self.state.last_was_esc;
        self.state.last_was_esc = false;
        FrameRemainder { decoded, escape_pending }
    }

    /// Check if an incomplete frame is currently buffered.
    pub fn has_remainder(&self) -> (r: bool)
        ensures
            r == (self.buffered().len() > 0 || self.esc_pending()),
    {
        self.pending.len() > 0 || self.state.last_was_esc
    }
}

/// Decoder state in which a read that failed with `e` leaves the machine:
/// an I/O failure preserves the mid-frame state as it stood, end-of-stream
/// errors pin the escape flag, and an invalid escape freezes the machine
/// with the offending byte.
pub open spec fn err_state(e: SlipError, buffered: Seq<u8>, esc: bool) -> DecodeState {
    match e {
        SlipError::IncompleteEscape => mid_state(buffered, true),
        SlipError::UnexpectedEndOfFrame => mid_state(buffered, false),
        SlipError::InvalidEscape(b) => DecodeState {
            frames: Seq::empty(),
            buffered,
            pending: false,
            failed: true,
            bad: b,
        },
        _ => mid_state(buffered, esc),
    }
}

impl<R: ByteSource> SlipReader<R> {
    /// Read the next frame into `buffer`, replacing its contents, and return
    /// its length.
    ///
    /// Bytes are pulled from the source one at a time and run through the
    /// decoder, continuing a frame left unfinished by an earlier call.  The
    /// contract states the outcome as the decoder state machine's verdict on
    /// the bytes the source yielded (`last_read`): whatever the source does,
    /// the result is exactly what the machine prescribes.  `Ok(None)` is
    /// returned only when the source was exhausted exactly on a frame
    /// boundary; an exhausted source mid-frame fails with
    /// unexpected-end-of-frame or incomplete-escape, and the buffered
    /// remainder stays available through [`SlipReader::take_remainder`].
    pub fn read_frame_into(&mut self, buffer: &mut Vec<u8>) -> (r: Result<Option<usize>, SlipError>)
        ensures
            ({
                let t = drun(
                    mid_state(old(self).buffered(), old(self).esc_pending()),
                    final(self).last_read(),
                );
                match r {
                    Ok(Some(n)) => {
                        &&& n == final(buffer)@.len()
                        &&& final(self).buffered().len() == 0
                        &&& !final(self).esc_pending()
                        &&& t == (DecodeState {
                            frames: seq![final(buffer)@],
                            buffered: Seq::empty(),
                            pending: false,
                            failed: false,
                            bad: 0,
                        })
                    },
                    Ok(None) => {
                        &&& old(self).buffered().len() == 0
                        &&& !old(self).esc_pending()
                        &&& final(self).buffered().len() == 0
                        &&& !final(self).esc_pending()
                        &&& final(buffer)@.len() == 0
                        &&& t == mid_state(Seq::empty(), false)
                    },
                    Err(e) => {
                        &&& final(buffer)@.len() == 0
                        &&& (e is Io || e is IncompleteEscape || e is UnexpectedEndOfFrame
                            || e is InvalidEscape)
                        &&& (e is IncompleteEscape ==> final(self).esc_pending())
                        &&& (e is UnexpectedEndOfFrame ==> !final(self).esc_pending()
                            && final(self).buffered().len() > 0)
                        &&& (e is InvalidEscape ==> !final(self).esc_pending())
                        &&& t == err_state(e, final(self).buffered(), final(self).esc_pending())
                    },
                }
            }),
    {
        buffer.clear();
        let ghost ob = old(self).buffered();
        let ghost oe = old(self).esc_pending();
        let ghost mut consumed: Seq<u8> = Seq::empty();
        let mut out: Result<Option<usize>, SlipError> = Ok(None);
        loop
            invariant_except_break
                ob == old(self).buffered(),
                oe == old(self).esc_pending(),
                drun(mid_state(ob, oe), consumed) == mid_state(
                    self.pending@,
                    self.state.last_was_esc,
                ),
                buffer@.len() == 0,
            ensures
                (match out {
                    Ok(Some(n)) => {
                        &&& n == buffer@.len()
                        &&& self.pending@.len() == 0
                        &&& !self.state.last_was_esc
                        &&& drun(mid_state(ob, oe), consumed) == (DecodeState {
                            frames: seq![buffer@],
                            buffered: Seq::empty(),
                            pending: false,
                            failed: false,
                            bad: 0,
                        })
                    },
                    Ok(None) => {
                        &&& ob.len() == 0
                        &&& !oe
                        &&& self.pending@.len() == 0
                        &&& !self.state.last_was_esc
                        &&& buffer@.len() == 0
                        &&& drun(mid_state(ob, oe), consumed) == mid_state(Seq::empty(), false)
                    },
                    Err(e) => {
                        &&& buffer@.len() == 0
                        &&& (e is Io || e is IncompleteEscape || e is UnexpectedEndOfFrame
                            || e is InvalidEscape)
                        &&& (e is IncompleteEscape ==> self.state.last_was_esc)
                        &&& (e is UnexpectedEndOfFrame ==> !self.state.last_was_esc
                            && self.pending@.len() > 0)
                        &&& (e is InvalidEscape ==> !self.state.last_was_esc)
                        &&& drun(mid_state(ob, oe), consumed) == err_state(
                            e,
                            self.pending@,
                            self.state.last_was_esc,
                        )
                    },
                }),
            decreases self.inner.remaining(),
        {
            match self.inner.next_byte() {
                Ok(Some(byte)) => {
                    let ghost pre_pending = self.pending@;
                    let ghost pre_esc = self.state.last_was_esc;
                    proof {
                        lemma_drun_snoc(mid_state(ob, oe), consumed, byte);
                        consumed = consumed.push(byte);
                    }
                    match process_byte(&mut self.state, byte, &mut self.pending) {
                        Ok(true) => {
                            core::mem::swap(buffer, &mut self.pending);
                            let n = buffer.len();
                            out = Ok(Some(n));
                            break;
                        },
                        Ok(false) => {},
                        Err(e) => {
                            proof {
                                let s1 = dstep(mid_state(pre_pending, pre_esc), byte);
                                assert(drun(mid_state(ob, oe), consumed) == err_state(
                                    e,
                                    self.pending@,
                                    self.state.last_was_esc,
                                ));
                            }
                            out = Err(e);
                            break;
                        },
                    }
                },
                Ok(None) => {
                    if self.state.last_was_esc {
                        proof {
                            assert(drun(mid_state(ob, oe), consumed) == err_state(
                                SlipError::IncompleteEscape,
                                self.pending@,
                                self.state.last_was_esc,
                            ));
                        }
                        out = Err(SlipError::IncompleteEscape);
                        break;
                    }
                    if self.pending.len() > 0 {
                        proof {
                            assert(drun(mid_state(ob, oe), consumed) == err_state(
                                SlipError::UnexpectedEndOfFrame,
                                self.pending@,
                                self.state.last_was_esc,
                            ));
                        }
                        out = Err(SlipError::UnexpectedEndOfFrame);
                        break;
                    }
                    proof {
                        lemma_drun_no_new_frame(mid_state(ob, oe), consumed);
                        assert(drun(mid_state(ob, oe), consumed) =~= mid_state(
                            Seq::empty(),
                            false,
                        ));
                    }
                    out = Ok(None);
                    break;
                },
                Err(e) => {
                    proof {
                        assert(drun(mid_state(ob, oe), consumed) == err_state(
                            SlipError::Io(e),
                            self.pending@,
                            self.state.last_was_esc,
                        ));
                    }
                    out = Err(SlipError::Io(e));
                    break;
                },
            }
        }
        self.taken = Ghost(consumed);
        out
    }

    /// Read the next frame and return it as a freshly allocated vector, with
    /// the same outcome rules as [`SlipReader::read_frame_into`].
    pub fn read_frame(&mut self) -> (r: Result<Option<Vec<u8>>, SlipError>)
        ensures
            ({
                let t = drun(
                    mid_state(old(self).buffered(), old(self).esc_pending()),
                    final(self).last_read(),
                );
                match r {
                    Ok(Some(f)) => {
                        &&& final(self).buffered().len() == 0
                        &&& !final(self).esc_pending()
                        &&& t == (DecodeState {
                            frames: seq![f@],
                            buffered: Seq::empty(),
                            pending: false,
                            failed: false,
                            bad: 0,
                        })
                    },
                    Ok(None) => {
                        &&& old(self).buffered().len() == 0
                        &&& !old(self).esc_pending()
                        &&& final(self).buffered().len() == 0
                        &&& !final(self).esc_pending()
                        &&& t == mid_state(Seq::empty(), false)
                    },
                    Err(e) => {
                        &&& (e is Io || e is IncompleteEscape || e is UnexpectedEndOfFrame
                            || e is InvalidEscape)
                        &&& (e is IncompleteEscape ==> final(self).esc_pending())
                        &&& (e is UnexpectedEndOfFrame ==> !final(self).esc_pending()
                            && final(self).buffered().len() > 0)
                        &&& (e is InvalidEscape ==> !final(self).esc_pending())
                        &&& t == err_state(e, final(self).buffered(), final(self).esc_pending())
                    },
                }
            }),
    {
        let mut frame: Vec<u8> = Vec::new();
        match self.read_frame_into(&mut frame) {
            Ok(Some(_)) => Ok(Some(frame)),
            Ok(None) => Ok(None),
            Err(e) => Err(e),
        }
    }

    /// Read the next frame but return only its decoded length, with the same
    /// outcome rules as [`SlipReader::read_frame_into`].
    pub fn read_frame_length(&mut self) -> (r: Result<Option<usize>, SlipError>)
        ensures
            ({
                let t = drun(
                    mid_state(old(self).buffered(), old(self).esc_pending()),
                    final(self).last_read(),
                );
                match r {
                    Ok(Some(n)) => {
                        &&& final(self).buffered().len() == 0
                        &&& !final(self).esc_pending()
                        &&& !t.failed
                        &&& !t.pending
                        &&& t.buffered.len() == 0
                        &&& t.frames.len() == 1
                        &&& t.frames[0].len() == n
                    },
                    Ok(None) => {
                        &&& old(self).buffered().len() == 0
                        &&& !old(self).esc_pending()
                        &&& final(self).buffered().len() == 0
                        &&& !final(self).esc_pending()
                        &&& t == mid_state(Seq::empty(), false)
                    },
                    Err(e) => {
                        &&& (e is Io || e is IncompleteEscape || e is UnexpectedEndOfFrame
                            || e is InvalidEscape)
                        &&& (e is IncompleteEscape ==> final(self).esc_pending())
                        &&& (e is UnexpectedEndOfFrame ==> !final(self).esc_pending()
                            && final(self).buffered().len() > 0)
                        &&& (e is InvalidEscape ==> !final(self).esc_pending())
                        &&& t == err_state(e, final(self).buffered(), final(self).esc_pending())
                    },
                }
            }),
    {
        let mut scratch: Vec<u8> = Vec::new();
        match self.read_frame_into(&mut scratch) {
            Ok(Some(n)) => Ok(Some(n)),
            Ok(None) => Ok(None),
            Err(e) => Err(e),
        }
    }
}

} // verus!
