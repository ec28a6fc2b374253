//! Byte-stuffing framing in the style of the SLIP line protocol.
//!
//! A frame is an arbitrary byte payload.  On the wire every payload byte equal
//! to one of the two reserved control bytes is replaced by a two-byte escape
//! sequence, and each frame ends with a single terminator byte.  The crate
//! offers one-shot encoding, batch decoding with an explicit remainder, and
//! streaming reader/writer wrappers that carry decoder state across calls.

use vstd::prelude::*;

pub mod codec;
pub mod decode;
pub mod encode;
pub mod io;
pub mod model;
pub mod scan;
pub mod stream;

pub use encode::{encode_frame, encode_into_writer, encode_iter, encoded_len};
pub use io::{ByteSink, ByteSource, MemSource, VecSink};
pub use codec::SlipCodec;
pub use stream::{SlipReader, SlipWriter};

pub use decode::{
    decode_frame, decode_frames, decode_frames_iter, decode_frames_iter_with_remainder,
    decode_frames_with_remainder, decoded_lengths, decoded_lengths_iter, process_byte, DecoderState,
};

verus! {

/// Frame terminator byte: marks the end of each encoded frame.
pub const END: u8 = 0xC0;
/// Escape byte: introduces a two-byte coded sequence.
pub const ESC: u8 = 0xDB;
/// Code byte that, after [`ESC`], stands for a literal [`END`] payload byte.
pub const ESC_END: u8 = 0xDC;
/// Code byte that, after [`ESC`], stands for a literal [`ESC`] payload byte.
pub const ESC_ESC: u8 = 0xDD;

/// Declares `std::io::Error` so that it can stand in fields and signatures;
/// the crate never looks inside a value of it.
#[verifier::external_type_specification]
#[verifier::external_body]
pub struct ExIoError(std::io::Error);

/// Error type for encoding and decoding operations.
#[derive(Debug)]
#[non_exhaustive]
pub enum SlipError {
    /// Failure of the underlying byte source or sink, propagated unchanged.
    Io(std::io::Error),
    /// The input ended with decoded bytes that no [`END`] delimiter closed.
    UnexpectedEndOfFrame,
    /// The input ended right after an [`ESC`] byte, before its code byte.
    IncompleteEscape,
    /// A byte following [`ESC`] was neither [`ESC_END`] nor [`ESC_ESC`];
    /// carries the offending byte.
    InvalidEscape(u8),
    /// No complete frame was present in the input while one was expected.
    MissingFrame,
    /// More frames than expected were present in the input.
    MultipleFrames(usize),
}

impl From<std::io::Error> for SlipError {
    fn from(value: std::io::Error) -> (r: Self)
        ensures
            r == SlipError::Io(value),
    {
        SlipError::Io(value)
    }
}

impl vstd::std_specs::convert::FromSpecImpl<std::io::Error> for SlipError {
    open spec fn obeys_from_spec() -> bool {
        true
    }

    open spec fn from_spec(value: std::io::Error) -> Self {
        SlipError::Io(value)
    }
}

/// Decoded bytes that were buffered when a stream ended without a
/// terminating [`END`] byte, together with the escape-pending flag at the
/// point decoding stopped.
#[derive(Debug, Default, Clone, PartialEq, Eq)]
pub struct FrameRemainder {
    /// Decoded payload bytes collected before the unexpected end of stream.
    pub decoded: Vec<u8>,
    /// `true` if the decoder ended while waiting for the second byte of an
    /// escape sequence.
    pub escape_pending: bool,
}

/// Hexadecimal digit character for a nibble.
pub open spec fn hex_char(n: u8) -> char {
    if n == 0 {
        '0'
    } else if n == 1 {
        '1'
    } else if n == 2 {
        '2'
    } else if n == 3 {
        '3'
    } else if n == 4 {
        '4'
    } else if n == 5 {
        '5'
    } else if n == 6 {
        '6'
    } else if n == 7 {
        '7'
    } else if n == 8 {
        '8'
    } else if n == 9 {
        '9'
    } else if n == 10 {
        'A'
    } else if n == 11 {
        'B'
    } else if n == 12 {
        'C'
    } else if n == 13 {
        'D'
    } else if n == 14 {
        'E'
    } else {
        'F'
    }
}

fn hex_str(n: u8) -> (r: &'static str)
    requires
        n < 16,
    ensures
        r@ == seq![hex_char(n)],
{
    if n == 0 {
        proof {
            reveal_strlit("0");
        }
        "0"
    } else if n == 1 {
        proof {
            reveal_strlit("1");
        }
        "1"
    } else if n == 2 {
        proof {
            reveal_strlit("2");
        }
        "2"
    } else if n == 3 {
        proof {
            reveal_strlit("3");
        }
        "3"
    } else if n == 4 {
        proof {
            reveal_strlit("4");
        }
        "4"
    } else if n == 5 {
        proof {
            reveal_strlit("5");
        }
        "5"
    } else if n == 6 {
        proof {
            reveal_strlit("6");
        }
        "6"
    } else if n == 7 {
        proof {
            reveal_strlit("7");
        }
        "7"
    } else if n == 8 {
        proof {
            reveal_strlit("8");
        }
        "8"
    } else if n == 9 {
        proof {
            reveal_strlit("9");
        }
        "9"
    } else if n == 10 {
        proof {
            reveal_strlit("A");
        }
        "A"
    } else if n == 11 {
        proof {
            reveal_strlit("B");
        }
        "B"
    } else if n == 12 {
        proof {
            reveal_strlit("C");
        }
        "C"
    } else if n == 13 {
        proof {
            reveal_strlit("D");
        }
        "D"
    } else if n == 14 {
        proof {
            reveal_strlit("E");
        }
        "E"
    } else {
        proof {
            reveal_strlit("F");
        }
        "F"
    }
}

impl SlipError {
    /// The text that [`SlipError::message`] returns for each variant.
    pub open spec fn message_spec(&self) -> Seq<char> {
        match self {
            SlipError::Io(_) => "I/O error in the underlying reader or writer"@,
            SlipError::UnexpectedEndOfFrame => "encountered unexpected end of frame"@,
            SlipError::IncompleteEscape => "encountered incomplete escape sequence"@,
            SlipError::InvalidEscape(code) => "encountered invalid escape sequence 0x"@ + seq![
                hex_char(*code >> 4),
                hex_char(*code & 0x0F),
            ],
            SlipError::MissingFrame => "no complete SLIP frame found in input"@,
            SlipError::MultipleFrames(_) => "expected a single frame but found more"@,
        }
    }

    /// A human-readable description of the error, with the offending byte of
    /// an invalid escape sequence rendered in hexadecimal.
    pub fn message(&self) -> (r: String)
        ensures
            r@ == self.message_spec(),
    {
        match self {
            SlipError::Io(_) => String::from_str("I/O error in the underlying reader or writer"),
            SlipError::UnexpectedEndOfFrame => String::from_str(
                "encountered unexpected end of frame",
            ),
            SlipError::IncompleteEscape => String::from_str(
                "encountered incomplete escape sequence",
            ),
            SlipError::InvalidEscape(code) => {
                let mut text = String::from_str("encountered invalid escape sequence 0x");
                proof {
                    assert(*code >> 4 < 16) by (bit_vector);
                    assert(*code & 0x0F < 16) by (bit_vector);
                }
                text.append(hex_str(*code >> 4));
                text.append(hex_str(*code & 0x0F));
                proof {
                    assert(text@ =~= self.message_spec());
                }
                text
            },
            SlipError::MissingFrame => String::from_str("no complete SLIP frame found in input"),
            SlipError::MultipleFrames(_) => String::from_str(
                "expected a single frame but found more",
            ),
        }
    }
}

impl FrameRemainder {
    /// Returns the number of decoded bytes that were buffered.
    pub fn len(&self) -> (r: usize)
        ensures
            r == self.decoded@.len(),
    {
        self.decoded.len()
    }

    /// Returns `true` when there is no buffered payload and no pending
    /// escape sequence.
    pub fn is_empty(&self) -> (r: bool)
        ensures
            r == (self.decoded@.len() == 0 && !self.escape_pending),
    {
        self.decoded.is_empty() && !self.escape_pending
    }
}

} // verus!
