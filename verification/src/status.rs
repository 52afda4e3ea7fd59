//! Tagged error statuses returned by the stub CAS.
//!
//! Every failing call resolves to exactly one `Status`, which carries the
//! offending values of the request; `code` maps it onto the coarse RPC
//! status kind that a transport would send.

use vstd::arithmetic::div_mod::lemma_div_decreases;
use vstd::prelude::*;

use crate::fingerprint::Fingerprint;

verus! {

/// The text of one decimal digit.
fn dec_digit_text(d: u64) -> &'static str
    requires
        d < 10,
{
    match d {
        0 => "0",
        1 => "1",
        2 => "2",
        3 => "3",
        4 => "4",
        5 => "5",
        6 => "6",
        7 => "7",
        8 => "8",
        _ => "9",
    }
}

/// The text of one hex digit.
fn hex_digit_text(d: u64) -> &'static str
    requires
        d < 16,
{
    match d {
        0 => "0",
        1 => "1",
        2 => "2",
        3 => "3",
        4 => "4",
        5 => "5",
        6 => "6",
        7 => "7",
        8 => "8",
        9 => "9",
        10 => "a",
        11 => "b",
        12 => "c",
        13 => "d",
        14 => "e",
        _ => "f",
    }
}

/// Appends the decimal text of `n`.
fn append_u64(out: &mut String, n: u64)
    decreases n,
{
    if n >= 10 {
        proof {
            lemma_div_decreases(n as int, 10);
        }
        append_u64(out, n / 10);
    }
    out.append(dec_digit_text(n % 10));
}

/// Appends the decimal text of `n`, sign included.
fn append_i64(out: &mut String, n: i64) {
    if n >= 0 {
        append_u64(out, n as u64);
    } else {
        out.append("-");
        let magnitude: u64 = if n == i64::MIN {
            9223372036854775808u64
        } else {
            (-n) as u64
        };
        append_u64(out, magnitude);
    }
}

/// Appends one 64-bit word as 16 hex digits, most significant first.
fn append_word_hex(out: &mut String, w: u64) {
    let mut i: u64 = 0;
    while i < 16
        invariant
            i <= 16,
        decreases 16 - i,
    {
        let sh: u64 = 60 - 4 * i;
        let nib: u64 = (w >> sh) & 0xf;
        proof {
            assert(((w >> sh) & 0xf) < 16) by (bit_vector);
        }
        out.append(hex_digit_text(nib));
        i = i + 1;
    }
}

/// The coarse RPC status kind of a failure.
#[derive(Clone, Copy, Debug, PartialEq, Eq, Structural)]
pub enum StatusCode {
    InvalidArgument,
    NotFound,
    Internal,
    Unimplemented,
}

/// One terminal failure of a call, naming the offending value(s).
#[derive(Debug)]
pub enum Status {
    /// A read resource name that does not have the shape
    /// `/blobs/<hex-fingerprint>/<size>`.
    BadReadResourceName { resource_name: String },
    /// A read resource name whose fingerprint segment is not a valid
    /// hex-encoded fingerprint.
    BadReadDigest { digest: String },
    /// A write stream chunk that names a different resource than the first
    /// chunk of the stream.
    MismatchedResourceName { got: String, original: String },
    /// A write stream chunk whose declared offset is not the running total
    /// of the bytes seen so far.
    MissingChunk { expected_offset: i64, got_offset: i64 },
    /// A write stream that carried no messages at all.
    EmptyWriteStream,
    /// A write resource name that does not have the shape
    /// `<prefix>/uploads/<id>/blobs/<hex-fingerprint>/<size>`.
    BadWriteResourceName { resource_name: String },
    /// A write resource name whose fingerprint segment is not a valid
    /// hex-encoded fingerprint.
    BadWriteDigest { digest: String },
    /// A write resource name whose size segment is not a non-negative
    /// integer.
    BadWriteSize { size_text: String },
    /// A write whose declared size differs from the accumulated byte count.
    WrongSize { declared_size: usize, actual_size: usize },
    /// A read of a fingerprint that is not in the store.
    DigestNotFound { fingerprint: Fingerprint },
    /// The stub is configured to fail every read and write.
    AlwaysFailing,
    /// The operation is a deliberate non-goal of the stub.
    NotImplemented,
}

impl Status {
    /// The status kind of this failure.
    pub open spec fn spec_code(&self) -> StatusCode {
        match self {
            Status::BadReadResourceName { .. } => StatusCode::InvalidArgument,
            Status::BadReadDigest { .. } => StatusCode::InvalidArgument,
            Status::MismatchedResourceName { .. } => StatusCode::InvalidArgument,
            Status::MissingChunk { .. } => StatusCode::InvalidArgument,
            Status::EmptyWriteStream => StatusCode::InvalidArgument,
            Status::BadWriteResourceName { .. } => StatusCode::InvalidArgument,
            Status::BadWriteDigest { .. } => StatusCode::InvalidArgument,
            Status::BadWriteSize { .. } => StatusCode::InvalidArgument,
            Status::WrongSize { .. } => StatusCode::InvalidArgument,
            Status::DigestNotFound { .. } => StatusCode::NotFound,
            Status::AlwaysFailing => StatusCode::Internal,
            Status::NotImplemented => StatusCode::Unimplemented,
        }
    }

    /// The status kind of this failure.
    #[verifier::when_used_as_spec(spec_code)]
    pub fn code(&self) -> (c: StatusCode)
        ensures
            c == self.spec_code(),
    {
        match self {
            Status::BadReadResourceName { .. } => StatusCode::InvalidArgument,
            Status::BadReadDigest { .. } => StatusCode::InvalidArgument,
            Status::MismatchedResourceName { .. } => StatusCode::InvalidArgument,
            Status::MissingChunk { .. } => StatusCode::InvalidArgument,
            Status::EmptyWriteStream => StatusCode::InvalidArgument,
            Status::BadWriteResourceName { .. } => StatusCode::InvalidArgument,
            Status::BadWriteSize { .. } => StatusCode::InvalidArgument,
            Status::BadWriteDigest { .. } => StatusCode::InvalidArgument,
            Status::WrongSize { .. } => StatusCode::InvalidArgument,
            Status::DigestNotFound { .. } => StatusCode::NotFound,
            Status::AlwaysFailing => StatusCode::Internal,
            Status::NotImplemented => StatusCode::Unimplemented,
        }
    }

    /// Descriptive text naming the offending value(s), as a transport
    /// would send it beside the status kind. The text is for humans; the
    /// fields of the variant itself are the values the contracts speak of.
    pub fn message(&self) -> String {
        let mut out = String::new();
        match self {
            Status::BadReadResourceName { resource_name } => {
                out.append("Bad resource name format ");
                out.append(resource_name.as_str());
                out.append(" - want /blobs/some-sha256/size");
            },
            Status::BadReadDigest { digest } => {
                out.append("Bad digest ");
                out.append(digest.as_str());
            },
            Status::MismatchedResourceName { got, original } => {
                out.append("All resource names in stream must be the same. Got ");
                out.append(got.as_str());
                out.append(" but earlier saw ");
                out.append(original.as_str());
            },
            Status::MissingChunk { expected_offset, got_offset } => {
                out.append("Missing chunk. Expected next offset ");
                append_i64(&mut out, *expected_offset);
                out.append(", got next offset: ");
                append_i64(&mut out, *got_offset);
            },
            Status::EmptyWriteStream => {
                out.append("Stream saw no messages");
            },
            Status::BadWriteResourceName { resource_name } => {
                out.append("Bad resource name: ");
                out.append(resource_name.as_str());
            },
            Status::BadWriteDigest { digest } => {
                out.append("Bad fingerprint in resource name: ");
                out.append(digest.as_str());
            },
            Status::BadWriteSize { size_text } => {
                out.append("Bad size in resource name: ");
                out.append(size_text.as_str());
            },
            Status::WrongSize { declared_size, actual_size } => {
                out.append("Size was incorrect: resource name said size=");
                append_u64(&mut out, *declared_size as u64);
                out.append(" but got ");
                append_u64(&mut out, *actual_size as u64);
            },
            Status::DigestNotFound { fingerprint } => {
                out.append("Did not find digest ");
                append_word_hex(&mut out, fingerprint.w0);
                append_word_hex(&mut out, fingerprint.w1);
                append_word_hex(&mut out, fingerprint.w2);
                append_word_hex(&mut out, fingerprint.w3);
            },
            Status::AlwaysFailing => {
                out.append("StubCAS is configured to always fail");
            },
            Status::NotImplemented => {
                out.append("Unimplemented");
            },
        }
        out
    }
}

} // verus!
