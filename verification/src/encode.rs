//! One-shot frame encoding.

use vstd::prelude::*;

use crate::io::ByteSink;
use crate::model::{
    encode_body, encode_spec, lemma_encode_body_append, lemma_encode_body_literal,
    lemma_encode_body_one, lemma_encoded_length, lemma_special_count_append, special_count,
};
use crate::scan::append_slice;
use crate::{SlipError, END, ESC, ESC_END, ESC_ESC};
use vstd::slice::slice_subrange;

verus! {

/// Encode a payload as one complete frame: every reserved byte is replaced
/// by its two-byte escape sequence and a single [`END`] terminator follows.
///
/// Scans for the next reserved byte with `memchr` and copies each literal
/// span in one step; the result is byte-identical to [`encode_iter`].
pub fn encode_frame(data: &[u8]) -> (r: Vec<u8>)
    ensures
        r@ == encode_spec(data@),
{
    let mut out: Vec<u8> = Vec::new();
    let mut i: usize = 0;
    while i < data.len()
        invariant
            i <= data.len(),
            out@ == encode_body(data@.take(i as int)),
        decreases data.len() - i,
    {
        let ghost done = data@.take(i as int);
        let rest = slice_subrange(data, i, data.len());
        match memchr::memchr2(END, ESC, rest) {
            Some(rel) => {
                let pos = i + rel;
                let span = slice_subrange(data, i, pos);
                append_slice(&mut out, span);
                proof {
                    assert(done + data@.subrange(i as int, pos as int) =~= data@.take(pos as int));
                    lemma_encode_body_append(done, data@.subrange(i as int, pos as int));
                    lemma_encode_body_literal(data@.subrange(i as int, pos as int));
                }
                let ghost mid = out@;
                let b = data[pos];
                if b == END {
                    out.push(ESC);
                    out.push(ESC_END);
                } else {
                    out.push(ESC);
                    out.push(ESC_ESC);
                }
                proof {
                    assert(data@.take(pos as int) + seq![data@[pos as int]] =~= data@.take(
                        pos + 1 as int,
                    ));
                    lemma_encode_body_append(data@.take(pos as int), seq![data@[pos as int]]);
                    lemma_encode_body_one(data@[pos as int]);
                    assert(out@ =~= mid + escape_byte_of(data@[pos as int]));
                }
                i = pos + 1;
            },
            None => {
                let span = slice_subrange(data, i, data.len());
                append_slice(&mut out, span);
                proof {
                    assert(done + data@.subrange(i as int, data@.len() as int) =~= data@.take(
                        data@.len() as int,
                    ));
                    lemma_encode_body_append(done, data@.subrange(i as int, data@.len() as int));
                    lemma_encode_body_literal(data@.subrange(i as int, data@.len() as int));
                }
                i = data.len();
            },
        }
    }
    out.push(END);
    proof {
        assert(data@.take(i as int) =~= data@);
        assert(out@ =~= encode_body(data@) + seq![END]);
    }
    out
}

/// Encode a payload as one complete frame, walking it byte by byte.
pub fn encode_iter(data: &[u8]) -> (r: Vec<u8>)
    ensures
        r@ == encode_spec(data@),
{
    let mut out: Vec<u8> = Vec::new();
    let mut i: usize = 0;
    while i < data.len()
        invariant
            i <= data.len(),
            out@ == encode_body(data@.take(i as int)),
        decreases data.len() - i,
    {
        let ghost done = data@.take(i as int);
        let ghost mid = out@;
        let b = data[i];
        if b == END {
            out.push(ESC);
            out.push(ESC_END);
        } else if b == ESC {
            out.push(ESC);
            out.push(ESC_ESC);
        } else {
            out.push(b);
        }
        proof {
            assert(done + seq![data@[i as int]] =~= data@.take(i + 1 as int));
            lemma_encode_body_append(done, seq![data@[i as int]]);
            lemma_encode_body_one(data@[i as int]);
            assert(out@ =~= mid + escape_byte_of(data@[i as int]));
        }
        i += 1;
    }
    out.push(END);
    proof {
        assert(data@.take(i as int) =~= data@);
        assert(out@ =~= encode_body(data@) + seq![END]);
    }
    out
}

/// Wire form of one byte; used only to abbreviate the loop proofs above.
spec fn escape_byte_of(b: u8) -> Seq<u8> {
    crate::model::escape_byte(b)
}

/// Compute the encoded length of a payload, including the trailing [`END`]
/// delimiter, without materialising the encoding.
///
/// The precondition only rules out payloads whose encoded length would not
/// fit in `usize`.
pub fn encoded_len(data: &[u8]) -> (r: usize)
    requires
        data@.len() + special_count(data@) < usize::MAX,
    ensures
        r == data@.len() + special_count(data@) + 1,
        r == encode_spec(data@).len(),
{
    let mut len: usize = 1;
    let mut i: usize = 0;
    while i < data.len()
        invariant
            i <= data.len(),
            data@.len() + special_count(data@) < usize::MAX,
            len == 1 + i + special_count(data@.take(i as int)),
        decreases data.len() - i,
    {
        proof {
            assert(data@.take(i as int) + seq![data@[i as int]] =~= data@.take(i + 1 as int));
            lemma_special_count_append(data@.take(i as int), seq![data@[i as int]]);
            assert(seq![data@[i as int]].skip(1) =~= Seq::<u8>::empty());
            assert(special_count(Seq::<u8>::empty()) == 0);
            assert(data@.take(i + 1 as int) + data@.skip(i + 1 as int) =~= data@);
            lemma_special_count_append(data@.take(i + 1 as int), data@.skip(i + 1 as int));
        }
        let b = data[i];
        if b == END || b == ESC {
            len += 2;
        } else {
            len += 1;
        }
        i += 1;
    }
    proof {
        assert(data@.take(i as int) =~= data@);
        lemma_encoded_length(data@);
    }
    len
}

/// Encode a payload and hand the frame to `writer` piece by piece, without
/// building the whole encoding in memory.
///
/// On success the sink has accepted exactly the encoded frame.  The only
/// error is a sink failure, propagated unchanged; whatever the sink accepted
/// before the failure is kept (not rolled back).
pub fn encode_into_writer<W: ByteSink>(data: &[u8], writer: &mut W) -> (r: Result<(), SlipError>)
    ensures
        (match r {
            Ok(_) => final(writer).sunk() == old(writer).sunk() + encode_spec(data@),
            Err(e) => e matches SlipError::Io(_),
        }),
{
    let ghost base = old(writer).sunk();
    let mut i: usize = 0;
    while i < data.len()
        invariant
            i <= data.len(),
            writer.sunk() == base + encode_body(data@.take(i as int)),
        decreases data.len() - i,
    {
        let ghost done = data@.take(i as int);
        let ghost mid = writer.sunk();
        let b = data[i];
        let outcome: Result<(), std::io::Error> = if b == END {
            let pair: [u8; 2] = [ESC, ESC_END];
            writer.put_bytes(pair.as_slice())
        } else if b == ESC {
            let pair: [u8; 2] = [ESC, ESC_ESC];
            writer.put_bytes(pair.as_slice())
        } else {
            let one: [u8; 1] = [b];
            writer.put_bytes(one.as_slice())
        };
        match outcome {
            Ok(_) => {},
            Err(e) => {
                return Err(SlipError::Io(e));
            },
        }
        proof {
            assert(done + seq![data@[i as int]] =~= data@.take(i + 1 as int));
            lemma_encode_body_append(done, seq![data@[i as int]]);
            lemma_encode_body_one(data@[i as int]);
            assert(writer.sunk() =~= mid + escape_byte_of(data@[i as int]));
        }
        i += 1;
    }
    let terminator: [u8; 1] = [END];
    match writer.put_bytes(terminator.as_slice()) {
        Ok(_) => {
            proof {
                assert(data@.take(i as int) =~= data@);
                assert(writer.sunk() =~= base + encode_spec(data@));
            }
            Ok(())
        },
        Err(e) => Err(SlipError::Io(e)),
    }
}

} // verus!
