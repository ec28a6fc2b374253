//! Mathematical model of the framing rules.
//!
//! The encoder is modelled by [`encode_spec`], the byte-at-a-time decoder by
//! the state machine [`DecodeState`] / [`dstep`] / [`drun`].  Every executable
//! function of the crate states its contract in terms of these definitions,
//! and the laws at the end of this module relate the two directions.

use vstd::prelude::*;

use crate::{END, ESC, ESC_END, ESC_ESC};

verus! {

/// Wire form of a single payload byte: reserved bytes become a two-byte
/// escape sequence, every other byte stands for itself.
pub open spec fn escape_byte(b: u8) -> Seq<u8> {
    if b == END {
        seq![ESC, ESC_END]
    } else if b == ESC {
        seq![ESC, ESC_ESC]
    } else {
        seq![b]
    }
}

/// Wire form of a whole payload, without the trailing terminator.
pub open spec fn encode_body(p: Seq<u8>) -> Seq<u8>
    decreases p.len(),
{
    if p.len() == 0 {
        Seq::empty()
    } else {
        escape_byte(p.first()) + encode_body(p.skip(1))
    }
}

/// Wire form of a complete frame: the escaped payload followed by one
/// terminator byte.
pub open spec fn encode_spec(p: Seq<u8>) -> Seq<u8> {
    encode_body(p) + seq![END]
}

/// Number of payload bytes that need escaping.
pub open spec fn special_count(p: Seq<u8>) -> nat
    decreases p.len(),
{
    if p.len() == 0 {
        0
    } else {
        (if p.first() == END || p.first() == ESC {
            1nat
        } else {
            0nat
        }) + special_count(p.skip(1))
    }
}

/// Complete state of a batch decode: the frames already completed, the bytes
/// decoded since the last terminator, whether an escape byte is awaiting its
/// code byte, and whether an invalid escape sequence was hit (`bad` holds the
/// offending byte in that case, and the rest of the state is frozen).
#[verifier::ext_equal]
pub struct DecodeState {
    pub frames: Seq<Seq<u8>>,
    pub buffered: Seq<u8>,
    pub pending: bool,
    pub failed: bool,
    pub bad: u8,
}

/// Decoder state at the start of a stream.
pub open spec fn init_state() -> DecodeState {
    DecodeState {
        frames: Seq::empty(),
        buffered: Seq::empty(),
        pending: false,
        failed: false,
        bad: 0,
    }
}

/// A mid-frame decoder state with no completed frames: `buffered` bytes
/// already decoded and an optionally pending escape.
pub open spec fn mid_state(buffered: Seq<u8>, pending: bool) -> DecodeState {
    DecodeState { frames: Seq::empty(), buffered, pending, failed: false, bad: 0 }
}

/// One transition of the decoder state machine on input byte `b`.
pub open spec fn dstep(s: DecodeState, b: u8) -> DecodeState {
    if s.failed {
        s
    } else if s.pending {
        if b == ESC_END {
            DecodeState { buffered: s.buffered.push(END), pending: false, ..s }
        } else if b == ESC_ESC {
            DecodeState { buffered: s.buffered.push(ESC), pending: false, ..s }
        } else {
            DecodeState { pending: false, failed: true, bad: b, ..s }
        }
    } else {
        if b == END {
            DecodeState { frames: s.frames.push(s.buffered), buffered: Seq::empty(), ..s }
        } else if b == ESC {
            DecodeState { pending: true, ..s }
        } else {
            DecodeState { buffered: s.buffered.push(b), ..s }
        }
    }
}

/// The decoder state machine run over a whole input, byte by byte.
pub open spec fn drun(s: DecodeState, input: Seq<u8>) -> DecodeState
    decreases input.len(),
{
    if input.len() == 0 {
        s
    } else {
        drun(dstep(s, input.first()), input.skip(1))
    }
}

/// Running the decoder over `a + b` is running it over `a`, then over `b`.
pub proof fn lemma_drun_append(s: DecodeState, a: Seq<u8>, b: Seq<u8>)
    ensures
        drun(s, a + b) == drun(drun(s, a), b),
    decreases a.len(),
{
    if a.len() == 0 {
        assert(a + b =~= b);
    } else {
        assert((a + b).skip(1) =~= a.skip(1) + b);
        lemma_drun_append(dstep(s, a.first()), a.skip(1), b);
    }
}

/// Running the decoder over one more byte is one more transition.
pub proof fn lemma_drun_snoc(s: DecodeState, a: Seq<u8>, b: u8)
    ensures
        drun(s, a.push(b)) == dstep(drun(s, a), b),
{
    lemma_drun_append(s, a, seq![b]);
    assert(a.push(b) =~= a + seq![b]);
    let s2 = drun(s, a);
    assert(seq![b].skip(1) =~= Seq::<u8>::empty());
    assert(drun(s2, seq![b]) == drun(dstep(s2, b), Seq::<u8>::empty()));
    assert(drun(dstep(s2, b), Seq::<u8>::empty()) == dstep(s2, b));
}

/// The encoded body of a concatenation is the concatenation of the encoded
/// bodies.
pub proof fn lemma_encode_body_append(a: Seq<u8>, b: Seq<u8>)
    ensures
        encode_body(a + b) == encode_body(a) + encode_body(b),
    decreases a.len(),
{
    if a.len() == 0 {
        assert(a + b =~= b);
        assert(encode_body(a) + encode_body(b) =~= encode_body(b));
    } else {
        assert((a + b).skip(1) =~= a.skip(1) + b);
        lemma_encode_body_append(a.skip(1), b);
        assert(escape_byte(a.first()) + (encode_body(a.skip(1)) + encode_body(b)) =~= (
        escape_byte(a.first()) + encode_body(a.skip(1))) + encode_body(b));
    }
}

/// The encoded body of one byte is its escape form.
pub proof fn lemma_encode_body_one(b: u8)
    ensures
        encode_body(seq![b]) == escape_byte(b),
{
    assert(seq![b].skip(1) =~= Seq::<u8>::empty());
    assert(escape_byte(b) + encode_body(Seq::<u8>::empty()) =~= escape_byte(b));
}

/// A span without reserved bytes encodes to itself.
pub proof fn lemma_encode_body_literal(p: Seq<u8>)
    requires
        forall|j: int| 0 <= j < p.len() ==> p[j] != END && p[j] != ESC,
    ensures
        encode_body(p) == p,
    decreases p.len(),
{
    if p.len() == 0 {
    } else {
        lemma_encode_body_literal(p.skip(1));
        assert(escape_byte(p.first()) + p.skip(1) =~= p);
    }
}

/// `special_count` distributes over concatenation.
pub proof fn lemma_special_count_append(a: Seq<u8>, b: Seq<u8>)
    ensures
        special_count(a + b) == special_count(a) + special_count(b),
    decreases a.len(),
{
    if a.len() == 0 {
        assert(a + b =~= b);
    } else {
        assert((a + b).skip(1) =~= a.skip(1) + b);
        lemma_special_count_append(a.skip(1), b);
    }
}

/// Length of the encoded body: one byte per payload byte, one more for each
/// reserved byte.
pub proof fn lemma_encode_body_len(p: Seq<u8>)
    ensures
        encode_body(p).len() == p.len() + special_count(p),
    decreases p.len(),
{
    if p.len() == 0 {
    } else {
        lemma_encode_body_len(p.skip(1));
    }
}

/// Decoding the escape form of one byte appends exactly that byte.
pub proof fn lemma_escape_byte_decodes(s: DecodeState, b: u8)
    requires
        !s.failed,
        !s.pending,
    ensures
        drun(s, escape_byte(b)) == (DecodeState { buffered: s.buffered.push(b), ..s }),
{
    if b == END || b == ESC {
        let code = if b == END {
            ESC_END
        } else {
            ESC_ESC
        };
        assert(escape_byte(b) =~= seq![ESC, code]);
        assert(escape_byte(b).skip(1) =~= seq![code]);
        let s1 = dstep(s, ESC);
        assert(drun(s, escape_byte(b)) == drun(s1, seq![code]));
        assert(seq![code].skip(1) =~= Seq::<u8>::empty());
        let s2 = dstep(s1, code);
        assert(drun(s1, seq![code]) == drun(s2, Seq::<u8>::empty()));
        assert(s2 =~= (DecodeState { buffered: s.buffered.push(b), ..s }));
    } else {
        assert(escape_byte(b).skip(1) =~= Seq::<u8>::empty());
        let s1 = dstep(s, b);
        assert(drun(s, escape_byte(b)) == drun(s1, Seq::<u8>::empty()));
    }
}

/// Decoding an encoded body (no terminator yet) appends the payload to the
/// buffered bytes and completes no frame.
pub proof fn lemma_drun_encode_body(s: DecodeState, p: Seq<u8>)
    requires
        !s.failed,
        !s.pending,
    ensures
        drun(s, encode_body(p)) == (DecodeState { buffered: s.buffered + p, ..s }),
    decreases p.len(),
{
    if p.len() == 0 {
        assert(s.buffered + p =~= s.buffered);
        assert(DecodeState { buffered: s.buffered + p, ..s } =~= s);
    } else {
        lemma_drun_append(s, escape_byte(p.first()), encode_body(p.skip(1)));
        lemma_escape_byte_decodes(s, p.first());
        let s1 = DecodeState { buffered: s.buffered.push(p.first()), ..s };
        lemma_drun_encode_body(s1, p.skip(1));
        assert(s.buffered.push(p.first()) + p.skip(1) =~= s.buffered + p);
    }
}

/// Decoding a complete encoded frame completes exactly one more frame, whose
/// payload is the buffered bytes followed by the frame's payload, and leaves
/// the decoder at a frame boundary.
pub proof fn lemma_drun_encode_frame(s: DecodeState, p: Seq<u8>)
    requires
        !s.failed,
        !s.pending,
    ensures
        drun(s, encode_spec(p)) == (DecodeState {
            frames: s.frames.push(s.buffered + p),
            buffered: Seq::empty(),
            ..s
        }),
{
    lemma_drun_append(s, encode_body(p), seq![END]);
    lemma_drun_encode_body(s, p);
    let s1 = DecodeState { buffered: s.buffered + p, ..s };
    lemma_drun_snoc(s1, Seq::empty(), END);
    assert(Seq::<u8>::empty().push(END) =~= seq![END]);
}

/// Law: decoding the encoding of any payload yields exactly that payload,
/// as one completed frame, with nothing buffered and no escape pending.
pub proof fn lemma_round_trip(p: Seq<u8>)
    ensures
        drun(init_state(), encode_spec(p)) == (DecodeState {
            frames: seq![p],
            buffered: Seq::empty(),
            pending: false,
            failed: false,
            bad: 0,
        }),
{
    lemma_drun_encode_frame(init_state(), p);
    assert(Seq::<u8>::empty() + p =~= p);
    assert(Seq::<Seq<u8>>::empty().push(p) =~= seq![p]);
}

/// Law: the encoded frame is as long as the payload, plus one byte per
/// reserved payload byte, plus the terminator.
pub proof fn lemma_encoded_length(p: Seq<u8>)
    ensures
        encode_spec(p).len() == p.len() + special_count(p) + 1,
{
    lemma_encode_body_len(p);
}

/// Law: encoding two payloads one after the other and decoding the
/// concatenation yields the two payloads as frames, in order, with a clean
/// frame boundary at the end.
pub proof fn lemma_frames_in_order(p1: Seq<u8>, p2: Seq<u8>)
    ensures
        drun(init_state(), encode_spec(p1) + encode_spec(p2)) == (DecodeState {
            frames: seq![p1, p2],
            buffered: Seq::empty(),
            pending: false,
            failed: false,
            bad: 0,
        }),
{
    lemma_drun_append(init_state(), encode_spec(p1), encode_spec(p2));
    lemma_round_trip(p1);
    let s1 = DecodeState {
        frames: seq![p1],
        buffered: Seq::empty(),
        pending: false,
        failed: false,
        bad: 0,
    };
    lemma_drun_encode_frame(s1, p2);
    assert(Seq::<u8>::empty() + p2 =~= p2);
    assert(seq![p1].push(p2) =~= seq![p1, p2]);
}

/// Law: decoding an encoded frame whose trailing terminator was removed
/// completes no frame and leaves exactly the payload buffered, with no
/// escape pending.
pub proof fn lemma_truncated_remainder(p: Seq<u8>)
    ensures
        drun(init_state(), encode_spec(p).drop_last()) == mid_state(p, false),
{
    assert(encode_spec(p).drop_last() =~= encode_body(p));
    lemma_drun_encode_body(init_state(), p);
    assert(Seq::<u8>::empty() + p =~= p);
    assert(drun(init_state(), encode_body(p)) =~= mid_state(p, false));
}

/// Law: an input that ends right after an escape byte decodes to no frames,
/// with the bytes before the escape buffered and the escape still pending.
/// (A reserved byte before the escape would itself be encoded, so the law is
/// stated for an ordinary byte.)
pub proof fn lemma_escape_pending_remainder(x: u8)
    requires
        x != END,
        x != ESC,
    ensures
        drun(init_state(), seq![x, ESC]) == mid_state(seq![x], true),
{
    assert(seq![x, ESC].skip(1) =~= seq![ESC]);
    let s1 = dstep(init_state(), x);
    assert(drun(init_state(), seq![x, ESC]) == drun(s1, seq![ESC]));
    assert(seq![ESC].skip(1) =~= Seq::<u8>::empty());
    let s2 = dstep(s1, ESC);
    assert(drun(s1, seq![ESC]) == drun(s2, Seq::<u8>::empty()));
    assert(Seq::<u8>::empty().push(x) =~= seq![x]);
    assert(s2 =~= mid_state(seq![x], true));
}

/// Decoding a span without reserved bytes appends it to the buffer unchanged.
pub proof fn lemma_drun_literal_span(s: DecodeState, span: Seq<u8>)
    requires
        !s.failed,
        !s.pending,
        forall|j: int| 0 <= j < span.len() ==> span[j] != END && span[j] != ESC,
    ensures
        drun(s, span) == (DecodeState { buffered: s.buffered + span, ..s }),
    decreases span.len(),
{
    if span.len() == 0 {
        assert(s.buffered + span =~= s.buffered);
        assert(DecodeState { buffered: s.buffered + span, ..s } =~= s);
    } else {
        let s1 = dstep(s, span.first());
        lemma_drun_literal_span(s1, span.skip(1));
        assert(s.buffered.push(span.first()) + span.skip(1) =~= s.buffered + span);
    }
}

/// A failed decode is final: further input changes nothing.
pub proof fn lemma_drun_failed(s: DecodeState, input: Seq<u8>)
    requires
        s.failed,
    ensures
        drun(s, input) == s,
    decreases input.len(),
{
    if input.len() == 0 {
    } else {
        lemma_drun_failed(s, input.skip(1));
    }
}

/// As long as no frame completes and no escape fails, the decoder's buffer
/// only grows, and a pending escape either consumes a byte or stays pending.
pub proof fn lemma_drun_no_new_frame(s: DecodeState, bs: Seq<u8>)
    requires
        !s.failed,
    ensures
        ({
            let t = drun(s, bs);
            &&& (!t.failed ==> t.frames.len() >= s.frames.len())
            &&& ((!t.failed && t.frames == s.frames) ==> t.buffered.len() >= s.buffered.len() && (
            s.pending ==> t.buffered.len() > s.buffered.len() || t.pending))
        }),
    decreases bs.len(),
{
    if bs.len() == 0 {
    } else {
        let s1 = dstep(s, bs.first());
        if s1.failed {
            lemma_drun_failed(s1, bs.skip(1));
        } else {
            lemma_drun_no_new_frame(s1, bs.skip(1));
        }
    }
}

} // verus!
