//! Chunk-oriented frame codec over `bytes::BytesMut`, for adapters that
//! plug the decoder state machine into a transform-stream framework: encode
//! one payload per call, decode zero or one frame per buffer scan, carrying
//! decoder state across calls.

use vstd::prelude::*;

use crate::decode::{process_byte, DecoderState};
use crate::model::{
    drun, dstep, encode_body, encode_spec, lemma_drun_snoc, lemma_encode_body_append,
    lemma_encode_body_one, mid_state, DecodeState,
};
use crate::stream::err_state;
use crate::{SlipError, END, ESC, ESC_END, ESC_ESC};

verus! {

/// Declares `bytes::BytesMut` so that it can stand in signatures; the
/// wrappers below describe its contents through [`bm_bytes`].
#[verifier::external_type_specification]
#[verifier::external_body]
pub struct ExBytesMut(bytes::BytesMut);

/// The bytes a `BytesMut` currently holds, in order.
pub uninterp spec fn bm_bytes(b: bytes::BytesMut) -> Seq<u8>;

/// Relies on bytes::BytesMut::extend_from_slice: appends the slice's bytes.
#[verifier::external_body]
fn bm_extend(dst: &mut bytes::BytesMut, data: &[u8])
    ensures
        bm_bytes(*final(dst)) == bm_bytes(*old(dst)) + data@,
{
    dst.extend_from_slice(data);
}

/// Relies on bytes::BytesMut::len: the number of bytes held.
#[verifier::external_body]
fn bm_len(b: &bytes::BytesMut) -> (r: usize)
    ensures
        r == bm_bytes(*b).len(),
{
    b.len()
}

/// Relies on bytes::BytesMut::split_to, which removes the first `at` bytes
/// and returns them (here `at` is 1, and the one byte is returned).
#[verifier::external_body]
fn bm_take_byte(b: &mut bytes::BytesMut) -> (r: u8)
    requires
        bm_bytes(*old(b)).len() > 0,
    ensures
        r == bm_bytes(*old(b))[0],
        bm_bytes(*final(b)) == bm_bytes(*old(b)).skip(1),
{
    b.split_to(1)[0]
}

/// Frame codec: resumable decoder state plus the bytes of the frame
/// currently being decoded.
pub struct SlipCodec {
    state: DecoderState,
    buffer: Vec<u8>,
}

impl SlipCodec {
    /// Bytes already decoded for the frame currently being read.
    pub closed spec fn buffered(&self) -> Seq<u8> {
        self.buffer@
    }

    /// Whether the byte consumed last was an escape awaiting its code byte.
    pub closed spec fn esc_pending(&self) -> bool {
        self.state.last_was_esc
    }

    /// Construct a new codec with empty decoder state.
    pub fn new() -> (r: Self)
        ensures
            r.buffered().len() == 0,
            !r.esc_pending(),
    {
        SlipCodec { state: DecoderState { last_was_esc: false }, buffer: Vec::new() }
    }

    /// Encode a payload slice as one frame directly into `dst`, without
    /// building the frame in a separate allocation.  Encoding cannot fail;
    /// the `Result` mirrors the shape expected by framework adapters.
    pub fn encode_slice(&mut self, item: &[u8], dst: &mut bytes::BytesMut) -> (r: Result<
        (),
        SlipError,
    >)
        ensures
            r is Ok,
            bm_bytes(*final(dst)) == bm_bytes(*old(dst)) + encode_spec(item@),
            final(self).buffered() == old(self).buffered(),
            final(self).esc_pending() == old(self).esc_pending(),
    {
        let ghost base = bm_bytes(*old(dst));
        let mut i: usize = 0;
        while i < item.len()
            invariant
                i <= item.len(),
                bm_bytes(*dst) == base + encode_body(item@.take(i as int)),
            decreases item.len() - i,
        {
            let ghost done = item@.take(i as int);
            let ghost mid = bm_bytes(*dst);
            let b = item[i];
            if b == END {
                let pair: [u8; 2] = [ESC, ESC_END];
                bm_extend(dst, pair.as_slice());
            } else if b == ESC {
                let pair: [u8; 2] = [ESC, ESC_ESC];
                bm_extend(dst, pair.as_slice());
            } else {
                let one: [u8; 1] = [b];
                bm_extend(dst, one.as_slice());
            }
            proof {
                assert(done + seq![item@[i as int]] =~= item@.take(i + 1 as int));
                lemma_encode_body_append(done, seq![item@[i as int]]);
                lemma_encode_body_one(item@[i as int]);
                assert(bm_bytes(*dst) =~= mid + crate::model::escape_byte(item@[i as int]));
            }
            i += 1;
        }
        let terminator: [u8; 1] = [END];
        bm_extend(dst, terminator.as_slice());
        proof {
            assert(item@.take(i as int) =~= item@);
            assert(bm_bytes(*dst) =~= base + encode_spec(item@));
        }
        Ok(())
    }

    /// Consume bytes from the front of `src` until a frame completes or the
    /// buffer is exhausted.  `Ok(None)` means every byte of `src` was
    /// consumed without completing a frame: the decoded bytes stay buffered
    /// in the codec for the next call.
    pub fn decode(&mut self, src: &mut bytes::BytesMut) -> (r: Result<Option<Vec<u8>>, SlipError>)
        ensures
            ({
                let cs = bm_bytes(*old(src));
                let rest = bm_bytes(*final(src));
                let k = cs.len() - rest.len();
                let s0 = mid_state(old(self).buffered(), old(self).esc_pending());
                match r {
                    Ok(Some(f)) => {
                        &&& 0 <= k <= cs.len()
                        &&& rest == cs.skip(k as int)
                        &&& drun(s0, cs.take(k as int)) == (DecodeState {
                            frames: seq![f@],
                            buffered: Seq::empty(),
                            pending: false,
                            failed: false,
                            bad: 0,
                        })
                        &&& final(self).buffered().len() == 0
                        &&& !final(self).esc_pending()
                    },
                    Ok(None) => {
                        &&& rest.len() == 0
                        &&& drun(s0, cs) == mid_state(
                            final(self).buffered(),
                            final(self).esc_pending(),
                        )
                    },
                    Err(e) => {
                        &&& e is InvalidEscape
                        &&& 0 <= k <= cs.len()
                        &&& rest == cs.skip(k as int)
                        &&& !final(self).esc_pending()
                        &&& drun(s0, cs.take(k as int)) == err_state(
                            e,
                            final(self).buffered(),
                            final(self).esc_pending(),
                        )
                    },
                }
            }),
    {
        let ghost cs = bm_bytes(*old(src));
        let ghost ob = old(self).buffered();
        let ghost oe = old(self).esc_pending();
        let ghost mut i: int = 0;
        loop
            invariant_except_break
                0 <= i <= cs.len(),
                ob == old(self).buffered(),
                oe == old(self).esc_pending(),
                cs == bm_bytes(*old(src)),
                bm_bytes(*src) == cs.skip(i),
                drun(mid_state(ob, oe), cs.take(i)) == mid_state(
                    self.buffer@,
                    self.state.last_was_esc,
                ),
            ensures
                bm_bytes(*src).len() == 0,
                drun(mid_state(ob, oe), cs) == mid_state(self.buffer@, self.state.last_was_esc),
            decreases cs.len() - i,
        {
            if bm_len(src) == 0 {
                proof {
                    assert(cs.take(i) =~= cs);
                }
                break;
            }
            let byte = bm_take_byte(src);
            proof {
                assert(cs.skip(i)[0] == cs[i]);
                assert(cs.skip(i).skip(1) =~= cs.skip(i + 1));
                assert(cs.take(i).push(cs[i]) =~= cs.take(i + 1));
                lemma_drun_snoc(mid_state(ob, oe), cs.take(i), byte);
            }
            let ghost pre_buffer = self.buffer@;
            let ghost pre_esc = self.state.last_was_esc;
            match process_byte(&mut self.state, byte, &mut self.buffer) {
                Ok(true) => {
                    let mut frame: Vec<u8> = Vec::new();
                    core::mem::swap(&mut frame, &mut self.buffer);
                    proof {
                        i = i + 1;
                        assert(bm_bytes(*src) == cs.skip(cs.len() - bm_bytes(*src).len()));
                    }
                    return Ok(Some(frame));
                },
                Ok(false) => {},
                Err(e) => {
                    proof {
                        i = i + 1;
                        let s1 = dstep(mid_state(pre_buffer, pre_esc), byte);
                        assert(drun(mid_state(ob, oe), cs.take(i)) == err_state(
                            e,
                            self.buffer@,
                            self.state.last_was_esc,
                        ));
                        assert(bm_bytes(*src) == cs.skip(cs.len() - bm_bytes(*src).len()));
                    }
                    return Err(e);
                },
            }
            proof {
                i = i + 1;
            }
        }
        Ok(None)
    }

    /// Like [`SlipCodec::decode`], but for the end of the stream: when no
    /// frame completes, leftover decoder state is an error rather than
    /// bytes to keep for later.
    pub fn decode_eof(&mut self, src: &mut bytes::BytesMut) -> (r: Result<
        Option<Vec<u8>>,
        SlipError,
    >)
        ensures
            ({
                let cs = bm_bytes(*old(src));
                let rest = bm_bytes(*final(src));
                let k = cs.len() - rest.len();
                let s0 = mid_state(old(self).buffered(), old(self).esc_pending());
                match r {
                    Ok(Some(f)) => {
                        &&& 0 <= k <= cs.len()
                        &&& rest == cs.skip(k as int)
                        &&& drun(s0, cs.take(k as int)) == (DecodeState {
                            frames: seq![f@],
                            buffered: Seq::empty(),
                            pending: false,
                            failed: false,
                            bad: 0,
                        })
                        &&& final(self).buffered().len() == 0
                        &&& !final(self).esc_pending()
                    },
                    Ok(None) => {
                        &&& rest.len() == 0
                        &&& drun(s0, cs) == mid_state(Seq::empty(), false)
                        &&& final(self).buffered().len() == 0
                        &&& !final(self).esc_pending()
                    },
                    Err(e) => {
                        &&& (e is InvalidEscape || e is IncompleteEscape
                            || e is UnexpectedEndOfFrame)
                        &&& (e is IncompleteEscape ==> final(self).esc_pending() && rest.len()
                            == 0 && drun(s0, cs) == mid_state(final(self).buffered(), true))
                        &&& (e is UnexpectedEndOfFrame ==> !final(self).esc_pending()
                            && final(self).buffered().len() > 0 && rest.len() == 0 && drun(
                            s0,
                            cs,
                        ) == mid_state(final(self).buffered(), false))
                        &&& (e is InvalidEscape ==> !final(self).esc_pending() && 0 <= k
                            <= cs.len() && rest == cs.skip(k as int) && drun(
                            s0,
                            cs.take(k as int),
                        ) == err_state(e, final(self).buffered(), final(self).esc_pending()))
                    },
                }
            }),
    {
        match self.decode(src) {
            Ok(Some(frame)) => Ok(Some(frame)),
            Ok(None) => {
                if self.state.last_was_esc {
                    return Err(SlipError::IncompleteEscape);
                }
                if self.buffer.len() > 0 {
                    return Err(SlipError::UnexpectedEndOfFrame);
                }
                proof {
                    assert(mid_state(self.buffer@, self.state.last_was_esc) =~= mid_state(
                        Seq::empty(),
                        false,
                    ));
                }
                Ok(None)
            },
            Err(e) => Err(e),
        }
    }
}

} // verus!
