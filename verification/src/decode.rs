//! Byte-at-a-time decoder state machine and batch decoding.
//!
//! The byte-wise decoders and the `memchr`-scanning fast paths are verified
//! against the same state machine ([`crate::model::drun`]), which is what
//! makes them interchangeable: for every input they produce identical
//! frames, remainder and errors.

use vstd::prelude::*;

use crate::model::{
    drun, dstep, init_state, lemma_drun_append, lemma_drun_failed, lemma_drun_literal_span,
    lemma_drun_snoc, mid_state, DecodeState,
};
use crate::scan::append_slice;
use crate::{FrameRemainder, SlipError, END, ESC, ESC_END, ESC_ESC};
use vstd::slice::slice_subrange;

verus! {

/// Resumable decoder state: `true` iff the byte consumed last was an [`ESC`]
/// whose paired code byte has not yet arrived.
#[derive(Default)]
pub struct DecoderState {
    /// Whether an escape sequence is waiting for its code byte.
    pub last_was_esc: bool,
}

/// Feed one input byte to the decoder.
///
/// Decoded payload bytes are appended to `buf`.  `Ok(true)` signals that a
/// frame is complete: `buf` then holds its whole payload and the caller is
/// expected to take it.  An invalid escape sequence fails with the offending
/// byte; the buffered bytes stay in `buf`.
pub fn process_byte(state: &mut DecoderState, byte: u8, buf: &mut Vec<u8>) -> (r: Result<
    bool,
    SlipError,
>)
    ensures
        ({
            let s1 = dstep(mid_state(old(buf)@, old(state).last_was_esc), byte);
            match r {
                Ok(completed) => {
                    &&& !s1.failed
                    &&& final(state).last_was_esc == s1.pending
                    &&& completed == (s1.frames.len() == 1)
                    &&& (completed ==> s1.frames == seq![old(buf)@] && final(buf)@ == old(buf)@
                        && s1.buffered.len() == 0)
                    &&& (!completed ==> s1.frames.len() == 0 && final(buf)@ == s1.buffered)
                },
                Err(e) => {
                    &&& s1.failed
                    &&& e == SlipError::InvalidEscape(s1.bad)
                    &&& final(buf)@ == old(buf)@
                    &&& !final(state).last_was_esc
                },
            }
        }),
{
    if state.last_was_esc {
        state.last_was_esc = false;
        if byte == ESC_END {
            buf.push(END);
            Ok(false)
        } else if byte == ESC_ESC {
            buf.push(ESC);
            Ok(false)
        } else {
            Err(SlipError::InvalidEscape(byte))
        }
    } else {
        if byte == END {
            Ok(true)
        } else if byte == ESC {
            state.last_was_esc = true;
            Ok(false)
        } else {
            buf.push(byte);
            Ok(false)
        }
    }
}

/// Decode all frames in `input`, walking it byte by byte, and also return the
/// buffered remainder left when the input ends without a trailing [`END`].
pub fn decode_frames_iter_with_remainder(input: &[u8]) -> (r: Result<
    (Vec<Vec<u8>>, FrameRemainder),
    SlipError,
>)
    ensures
        ({
            let s = drun(init_state(), input@);
            match r {
                Ok(p) => {
                    &&& !s.failed
                    &&& p.0.deep_view() == s.frames
                    &&& p.1.decoded@ == s.buffered
                    &&& p.1.escape_pending == s.pending
                },
                Err(e) => s.failed && e == SlipError::InvalidEscape(s.bad),
            }
        }),
{
    let mut frames: Vec<Vec<u8>> = Vec::new();
    let mut buffer: Vec<u8> = Vec::new();
    let mut state = DecoderState { last_was_esc: false };
    let mut i: usize = 0;
    while i < input.len()
        invariant
            i <= input.len(),
            drun(init_state(), input@.take(i as int)) == (DecodeState {
                frames: frames.deep_view(),
                buffered: buffer@,
                pending: state.last_was_esc,
                failed: false,
                bad: 0,
            }),
        decreases input.len() - i,
    {
        let ghost consumed = input@.take(i as int);
        let ghost prev_frames = frames.deep_view();
        let byte = input[i];
        proof {
            assert(consumed.push(input@[i as int]) =~= input@.take(i + 1 as int));
            lemma_drun_snoc(init_state(), consumed, input@[i as int]);
        }
        match process_byte(&mut state, byte, &mut buffer) {
            Ok(true) => {
                let ghost payload = buffer@;
                frames.push(buffer);
                buffer = Vec::new();
                proof {
                    assert(frames.deep_view() =~~= prev_frames.push(payload));
                }
            },
            Ok(false) => {},
            Err(e) => {
                proof {
                    let s1 = drun(init_state(), input@.take(i + 1 as int));
                    assert(input@.take(i + 1 as int) + input@.skip(i + 1 as int) =~= input@);
                    lemma_drun_append(init_state(), input@.take(i + 1 as int), input@.skip(
                        i + 1 as int,
                    ));
                    lemma_drun_failed(s1, input@.skip(i + 1 as int));
                }
                return Err(e);
            },
        }
        i += 1;
    }
    proof {
        assert(input@.take(i as int) =~= input@);
    }
    Ok((frames, FrameRemainder { decoded: buffer, escape_pending: state.last_was_esc }))
}

/// Decode all frames in `bytes` and also return the buffered remainder left
/// when the input ends without a trailing [`END`].
///
/// Behaves exactly like [`decode_frames_iter_with_remainder`], but scans for
/// the next reserved byte with `memchr` and copies each literal span in one
/// step instead of branching per byte.
pub fn decode_frames_with_remainder(bytes: &[u8]) -> (r: Result<
    (Vec<Vec<u8>>, FrameRemainder),
    SlipError,
>)
    ensures
        ({
            let s = drun(init_state(), bytes@);
            match r {
                Ok(p) => {
                    &&& !s.failed
                    &&& p.0.deep_view() == s.frames
                    &&& p.1.decoded@ == s.buffered
                    &&& p.1.escape_pending == s.pending
                },
                Err(e) => s.failed && e == SlipError::InvalidEscape(s.bad),
            }
        }),
{
    let mut frames: Vec<Vec<u8>> = Vec::new();
    let mut buffer: Vec<u8> = Vec::new();
    let mut escape_pending: bool = false;
    let mut i: usize = 0;
    while i < bytes.len()
        invariant
            i <= bytes.len(),
            drun(init_state(), bytes@.take(i as int)) == (DecodeState {
                frames: frames.deep_view(),
                buffered: buffer@,
                pending: escape_pending,
                failed: false,
                bad: 0,
            }),
        decreases bytes.len() - i,
    {
        let ghost consumed = bytes@.take(i as int);
        if escape_pending {
            let code = bytes[i];
            proof {
                assert(consumed.push(bytes@[i as int]) =~= bytes@.take(i + 1 as int));
                lemma_drun_snoc(init_state(), consumed, bytes@[i as int]);
            }
            if code == ESC_END {
                buffer.push(END);
            } else if code == ESC_ESC {
                buffer.push(ESC);
            } else {
                proof {
                    let s1 = drun(init_state(), bytes@.take(i + 1 as int));
                    assert(bytes@.take(i + 1 as int) + bytes@.skip(i + 1 as int) =~= bytes@);
                    lemma_drun_append(init_state(), bytes@.take(i + 1 as int), bytes@.skip(
                        i + 1 as int,
                    ));
                    lemma_drun_failed(s1, bytes@.skip(i + 1 as int));
                }
                return Err(SlipError::InvalidEscape(code));
            }
            escape_pending = false;
            i += 1;
        } else {
            let rest = slice_subrange(bytes, i, bytes.len());
            match memchr::memchr2(END, ESC, rest) {
                Some(rel) => {
                    let pos = i + rel;
                    let ghost pre = DecodeState {
                        frames: frames.deep_view(),
                        buffered: buffer@,
                        pending: false,
                        failed: false,
                        bad: 0,
                    };
                    let span = slice_subrange(bytes, i, pos);
                    append_slice(&mut buffer, span);
                    proof {
                        assert(consumed + bytes@.subrange(i as int, pos as int) =~= bytes@.take(
                            pos as int,
                        ));
                        lemma_drun_append(init_state(), consumed, bytes@.subrange(
                            i as int,
                            pos as int,
                        ));
                        lemma_drun_literal_span(pre, bytes@.subrange(i as int, pos as int));
                        assert(bytes@.take(pos as int).push(bytes@[pos as int]) =~= bytes@.take(
                            pos + 1 as int,
                        ));
                        lemma_drun_snoc(init_state(), bytes@.take(pos as int), bytes@[pos as int]);
                    }
                    let b = bytes[pos];
                    if b == END {
                        let ghost payload = buffer@;
                        let ghost prev_frames = frames.deep_view();
                        frames.push(buffer);
                        buffer = Vec::new();
                        proof {
                            assert(frames.deep_view() =~~= prev_frames.push(payload));
                        }
                    } else {
                        escape_pending = true;
                    }
                    i = pos + 1;
                },
                None => {
                    let ghost pre = DecodeState {
                        frames: frames.deep_view(),
                        buffered: buffer@,
                        pending: false,
                        failed: false,
                        bad: 0,
                    };
                    let span = slice_subrange(bytes, i, bytes.len());
                    append_slice(&mut buffer, span);
                    proof {
                        assert(consumed + bytes@.subrange(i as int, bytes@.len() as int)
                            =~= bytes@.take(bytes@.len() as int));
                        lemma_drun_append(init_state(), consumed, bytes@.subrange(
                            i as int,
                            bytes@.len() as int,
                        ));
                        lemma_drun_literal_span(pre, bytes@.subrange(i as int, bytes@.len() as int));
                    }
                    i = bytes.len();
                },
            }
        }
    }
    proof {
        assert(bytes@.take(i as int) =~= bytes@);
    }
    Ok((frames, FrameRemainder { decoded: buffer, escape_pending }))
}

/// Decode all frames in `bytes`, treating a non-empty remainder as an error:
/// the input must end exactly on a frame boundary.
pub fn decode_frames(bytes: &[u8]) -> (r: Result<Vec<Vec<u8>>, SlipError>)
    ensures
        ({
            let s = drun(init_state(), bytes@);
            match r {
                Ok(frames) => {
                    &&& !s.failed
                    &&& !s.pending
                    &&& s.buffered.len() == 0
                    &&& frames.deep_view() == s.frames
                },
                Err(e) => match e {
                    SlipError::InvalidEscape(b) => s.failed && b == s.bad,
                    SlipError::IncompleteEscape => !s.failed && s.pending,
                    SlipError::UnexpectedEndOfFrame => !s.failed && !s.pending && s.buffered.len()
                        > 0,
                    _ => false,
                },
            }
        }),
{
    let (frames, remainder) = match decode_frames_with_remainder(bytes) {
        Ok(p) => p,
        Err(e) => {
            return Err(e);
        },
    };
    if remainder.escape_pending {
        return Err(SlipError::IncompleteEscape);
    }
    if remainder.decoded.len() > 0 {
        return Err(SlipError::UnexpectedEndOfFrame);
    }
    Ok(frames)
}

/// Decode exactly one frame from `bytes`.
///
/// Fails with [`SlipError::MissingFrame`] when the input holds no complete
/// frame, and with [`SlipError::MultipleFrames`] when it holds more than one.
pub fn decode_frame(bytes: &[u8]) -> (r: Result<Vec<u8>, SlipError>)
    ensures
        ({
            let s = drun(init_state(), bytes@);
            let clean = !s.failed && !s.pending && s.buffered.len() == 0;
            match r {
                Ok(f) => clean && s.frames.len() == 1 && f@ == s.frames[0],
                Err(e) => match e {
                    SlipError::MissingFrame => clean && s.frames.len() == 0,
                    SlipError::MultipleFrames(n) => clean && s.frames.len() == n && n >= 2,
                    SlipError::InvalidEscape(b) => s.failed && b == s.bad,
                    SlipError::IncompleteEscape => !s.failed && s.pending,
                    SlipError::UnexpectedEndOfFrame => !s.failed && !s.pending && s.buffered.len()
                        > 0,
                    _ => false,
                },
            }
        }),
{
    let mut frames = match decode_frames(bytes) {
        Ok(f) => f,
        Err(e) => {
            return Err(e);
        },
    };
    if frames.len() == 0 {
        Err(SlipError::MissingFrame)
    } else if frames.len() == 1 {
        Ok(frames.remove(0))
    } else {
        Err(SlipError::MultipleFrames(frames.len()))
    }
}

/// Decode all frames in `input` byte by byte, treating a non-empty remainder
/// as an error: the input must end exactly on a frame boundary.
pub fn decode_frames_iter(input: &[u8]) -> (r: Result<Vec<Vec<u8>>, SlipError>)
    ensures
        ({
            let s = drun(init_state(), input@);
            match r {
                Ok(frames) => {
                    &&& !s.failed
                    &&& !s.pending
                    &&& s.buffered.len() == 0
                    &&& frames.deep_view() == s.frames
                },
                Err(e) => match e {
                    SlipError::InvalidEscape(b) => s.failed && b == s.bad,
                    SlipError::IncompleteEscape => !s.failed && s.pending,
                    SlipError::UnexpectedEndOfFrame => !s.failed && !s.pending && s.buffered.len()
                        > 0,
                    _ => false,
                },
            }
        }),
{
    let (frames, remainder) = match decode_frames_iter_with_remainder(input) {
        Ok(p) => p,
        Err(e) => {
            return Err(e);
        },
    };
    if remainder.escape_pending {
        return Err(SlipError::IncompleteEscape);
    }
    if remainder.decoded.len() > 0 {
        return Err(SlipError::UnexpectedEndOfFrame);
    }
    Ok(frames)
}

/// Determine the decoded length of each frame in `bytes` without
/// materialising the payloads, scanning with `memchr` like
/// [`decode_frames_with_remainder`].  The same error conditions apply: an
/// invalid escape fails immediately, and the input must end exactly on a
/// frame boundary.
pub fn decoded_lengths(bytes: &[u8]) -> (r: Result<Vec<usize>, SlipError>)
    ensures
        ({
            let s = drun(init_state(), bytes@);
            match r {
                Ok(lens) => {
                    &&& !s.failed
                    &&& !s.pending
                    &&& s.buffered.len() == 0
                    &&& lens@.len() == s.frames.len()
                    &&& (forall|k: int| 0 <= k < s.frames.len() ==> lens@[k] == s.frames[k].len())
                },
                Err(e) => match e {
                    SlipError::InvalidEscape(b) => s.failed && b == s.bad,
                    SlipError::IncompleteEscape => !s.failed && s.pending,
                    SlipError::UnexpectedEndOfFrame => !s.failed && !s.pending && s.buffered.len()
                        > 0,
                    _ => false,
                },
            }
        }),
{
    let mut lengths: Vec<usize> = Vec::new();
    let mut current: usize = 0;
    let mut escape_pending: bool = false;
    let mut i: usize = 0;
    let ghost mut gframes: Seq<Seq<u8>> = Seq::empty();
    let ghost mut gbuf: Seq<u8> = Seq::empty();
    while i < bytes.len()
        invariant
            i <= bytes.len(),
            drun(init_state(), bytes@.take(i as int)) == (DecodeState {
                frames: gframes,
                buffered: gbuf,
                pending: escape_pending,
                failed: false,
                bad: 0,
            }),
            lengths@.len() == gframes.len(),
            forall|k: int| 0 <= k < gframes.len() ==> lengths@[k] == gframes[k].len(),
            current == gbuf.len(),
            current <= i,
        decreases bytes.len() - i,
    {
        let ghost consumed = bytes@.take(i as int);
        if escape_pending {
            let code = bytes[i];
            proof {
                assert(consumed.push(bytes@[i as int]) =~= bytes@.take(i + 1 as int));
                lemma_drun_snoc(init_state(), consumed, bytes@[i as int]);
            }
            if code == ESC_END {
                current += 1;
                proof {
                    gbuf = gbuf.push(END);
                }
            } else if code == ESC_ESC {
                current += 1;
                proof {
                    gbuf = gbuf.push(ESC);
                }
            } else {
                proof {
                    let s1 = drun(init_state(), bytes@.take(i + 1 as int));
                    assert(bytes@.take(i + 1 as int) + bytes@.skip(i + 1 as int) =~= bytes@);
                    lemma_drun_append(init_state(), bytes@.take(i + 1 as int), bytes@.skip(
                        i + 1 as int,
                    ));
                    lemma_drun_failed(s1, bytes@.skip(i + 1 as int));
                }
                return Err(SlipError::InvalidEscape(code));
            }
            escape_pending = false;
            i += 1;
        } else {
            let rest = slice_subrange(bytes, i, bytes.len());
            match memchr::memchr2(END, ESC, rest) {
                Some(rel) => {
                    let pos = i + rel;
                    let ghost pre = DecodeState {
                        frames: gframes,
                        buffered: gbuf,
                        pending: false,
                        failed: false,
                        bad: 0,
                    };
                    current += pos - i;
                    proof {
                        gbuf = gbuf + bytes@.subrange(i as int, pos as int);
                        assert(consumed + bytes@.subrange(i as int, pos as int) =~= bytes@.take(
                            pos as int,
                        ));
                        lemma_drun_append(init_state(), consumed, bytes@.subrange(
                            i as int,
                            pos as int,
                        ));
                        lemma_drun_literal_span(pre, bytes@.subrange(i as int, pos as int));
                        assert(bytes@.take(pos as int).push(bytes@[pos as int]) =~= bytes@.take(
                            pos + 1 as int,
                        ));
                        lemma_drun_snoc(init_state(), bytes@.take(pos as int), bytes@[pos as int]);
                    }
                    let b = bytes[pos];
                    if b == END {
                        lengths.push(current);
                        current = 0;
                        proof {
                            gframes = gframes.push(gbuf);
                            gbuf = Seq::empty();
                        }
                    } else {
                        escape_pending = true;
                    }
                    i = pos + 1;
                },
                None => {
                    let ghost pre = DecodeState {
                        frames: gframes,
                        buffered: gbuf,
                        pending: false,
                        failed: false,
                        bad: 0,
                    };
                    current += bytes.len() - i;
                    proof {
                        gbuf = gbuf + bytes@.subrange(i as int, bytes@.len() as int);
                        assert(consumed + bytes@.subrange(i as int, bytes@.len() as int)
                            =~= bytes@.take(bytes@.len() as int));
                        lemma_drun_append(init_state(), consumed, bytes@.subrange(
                            i as int,
                            bytes@.len() as int,
                        ));
                        lemma_drun_literal_span(pre, bytes@.subrange(i as int, bytes@.len() as int));
                    }
                    i = bytes.len();
                },
            }
        }
    }
    proof {
        assert(bytes@.take(i as int) =~= bytes@);
    }
    if escape_pending {
        return Err(SlipError::IncompleteEscape);
    }
    if current != 0 {
        return Err(SlipError::UnexpectedEndOfFrame);
    }
    Ok(lengths)
}

/// Determine the decoded length of each frame in `input`, walking it byte by
/// byte, with the same error conditions as [`decoded_lengths`].
pub fn decoded_lengths_iter(input: &[u8]) -> (r: Result<Vec<usize>, SlipError>)
    ensures
        ({
            let s = drun(init_state(), input@);
            match r {
                Ok(lens) => {
                    &&& !s.failed
                    &&& !s.pending
                    &&& s.buffered.len() == 0
                    &&& lens@.len() == s.frames.len()
                    &&& (forall|k: int| 0 <= k < s.frames.len() ==> lens@[k] == s.frames[k].len())
                },
                Err(e) => match e {
                    SlipError::InvalidEscape(b) => s.failed && b == s.bad,
                    SlipError::IncompleteEscape => !s.failed && s.pending,
                    SlipError::UnexpectedEndOfFrame => !s.failed && !s.pending && s.buffered.len()
                        > 0,
                    _ => false,
                },
            }
        }),
{
    let mut lengths: Vec<usize> = Vec::new();
    let mut current: usize = 0;
    let mut escape_pending: bool = false;
    let mut i: usize = 0;
    let ghost mut gframes: Seq<Seq<u8>> = Seq::empty();
    let ghost mut gbuf: Seq<u8> = Seq::empty();
    while i < input.len()
        invariant
            i <= input.len(),
            drun(init_state(), input@.take(i as int)) == (DecodeState {
                frames: gframes,
                buffered: gbuf,
                pending: escape_pending,
                failed: false,
                bad: 0,
            }),
            lengths@.len() == gframes.len(),
            forall|k: int| 0 <= k < gframes.len() ==> lengths@[k] == gframes[k].len(),
            current == gbuf.len(),
            current <= i,
        decreases input.len() - i,
    {
        let ghost consumed = input@.take(i as int);
        let byte = input[i];
        proof {
            assert(consumed.push(input@[i as int]) =~= input@.take(i + 1 as int));
            lemma_drun_snoc(init_state(), consumed, input@[i as int]);
        }
        if escape_pending {
            if byte == ESC_END {
                current += 1;
                proof {
                    gbuf = gbuf.push(END);
                }
            } else if byte == ESC_ESC {
                current += 1;
                proof {
                    gbuf = gbuf.push(ESC);
                }
            } else {
                proof {
                    let s1 = drun(init_state(), input@.take(i + 1 as int));
                    assert(input@.take(i + 1 as int) + input@.skip(i + 1 as int) =~= input@);
                    lemma_drun_append(init_state(), input@.take(i + 1 as int), input@.skip(
                        i + 1 as int,
                    ));
                    lemma_drun_failed(s1, input@.skip(i + 1 as int));
                }
                return Err(SlipError::InvalidEscape(byte));
            }
            escape_pending = false;
        } else {
            if byte == END {
                lengths.push(current);
                current = 0;
                proof {
                    gframes = gframes.push(gbuf);
                    gbuf = Seq::empty();
                }
            } else if byte == ESC {
                escape_pending = true;
            } else {
                current += 1;
                proof {
                    gbuf = gbuf.push(byte);
                }
            }
        }
        i += 1;
    }
    proof {
        assert(input@.take(i as int) =~= input@);
    }
    if escape_pending {
        return Err(SlipError::IncompleteEscape);
    }
    if current != 0 {
        return Err(SlipError::UnexpectedEndOfFrame);
    }
    Ok(lengths)
}

} // verus!
