//! The range-bounded random-number service: parse a range request,
//! draw entropy, reduce it into the requested inclusive range, and
//! serialize the response.

use vstd::prelude::*;

verus! {

use vstd::arithmetic::div_mod::lemma_mod_bound;

use crate::codec::{
    parse_range_request, serialize_random_response, spec_parse_range_request,
    spec_random_response_json,
};

/// The failures of the random-number service, each reported across the
/// sandbox boundary as a distinct negative status code.
#[derive(Clone, Copy, Debug, PartialEq, Eq, Structural)]
pub enum RngError {
    /// The input buffer did not hold a well-formed range request.
    MalformedInput,
    /// The host's entropy source failed to produce bytes.
    EntropyUnavailable,
    /// The response could not be serialized.
    SerializationFailed,
    /// The output buffer could not be allocated.
    AllocationFailed,
}

/// The status code a failure is reported as at the sandbox boundary.
pub open spec fn spec_status_code(e: RngError) -> i32 {
    match e {
        RngError::MalformedInput => -1i32,
        RngError::EntropyUnavailable => -2i32,
        RngError::SerializationFailed => -3i32,
        RngError::AllocationFailed => -4i32,
    }
}

impl RngError {
    /// The negative status code for this failure.
    pub fn status_code(&self) -> (code: i32)
        ensures
            code == spec_status_code(*self),
    {
        match self {
            RngError::MalformedInput => -1,
            RngError::EntropyUnavailable => -2,
            RngError::SerializationFailed => -3,
            RngError::AllocationFailed => -4,
        }
    }
}

/// The reduction of a raw draw into `[min, max]`: the draw modulo the
/// width of the range, offset by `min`, when `max > min`; `min` alone
/// when the range is degenerate or inverted.
pub open spec fn spec_map_to_range(min: u32, max: u32, entropy: u32) -> u32 {
    if max > min {
        (min + (entropy as int) % (max - min + 1)) as u32
    } else {
        min
    }
}

/// Reduces a raw entropy draw into the inclusive range `[min, max]`:
/// the result lies in the range whenever `min <= max`, and an inverted
/// range collapses to `min`.
pub fn map_to_range(min: u32, max: u32, entropy: u32) -> (r: u32)
    ensures
        r == spec_map_to_range(min, max, entropy),
        min <= max ==> min <= r <= max,
        max < min ==> r == min,
        max == min ==> r == min,
{
    if max > min {
        let span: u64 = (max - min) as u64 + 1;
        let off: u64 = (entropy as u64) % span;
        proof {
            lemma_mod_bound(entropy as int, span as int);
        }
        (min as u64 + off) as u32
    } else {
        min
    }
}

/// Relies on getrandom::getrandom: on success the four-byte buffer is
/// filled from the host's entropy source (read here as a little-endian
/// unsigned 32-bit integer); on failure the source produced nothing.
/// Nothing is assumed about the value drawn.
#[verifier::external_body]
fn draw_entropy() -> (r: Option<u32>) {
    let mut buf = [0u8; 4];
    match getrandom::getrandom(&mut buf) {
        Ok(()) => Some(u32::from_le_bytes(buf)),
        Err(_) => None,
    }
}

/// The response owed to `input` once the entropy source hands back the
/// draw `e`: the serialized reduction of `e` into the requested range.
pub open spec fn spec_response_for(input: Seq<u8>, out: Seq<u8>, e: u32) -> bool {
    match spec_parse_range_request(input) {
        Some(p) => out == spec_random_response_json(spec_map_to_range(p.0, p.1, e)),
        None => false,
    }
}

/// Whether `out` is a response the service may owe to `input`: the
/// serialized reduction of some entropy draw into the requested range.
pub open spec fn spec_ok_response(input: Seq<u8>, out: Seq<u8>) -> bool {
    exists|e: u32| spec_response_for(input, out, e)
}

/// The whole service: parses a range request from `input`, draws
/// entropy, reduces it into the range, and serializes the response.
///
/// Malformed input is rejected exactly when the request grammar rejects
/// it; with a well-formed request the call fails only if the entropy
/// source does. Serialization and allocation failures are left to the
/// sandbox boundary, which owns the output buffer: they never arise
/// here.
pub fn execute(input: &[u8]) -> (r: Result<Vec<u8>, RngError>)
    ensures
        r == Err::<Vec<u8>, RngError>(RngError::MalformedInput) <==> spec_parse_range_request(
            input@,
        ) is None,
        r matches Ok(out) ==> spec_ok_response(input@, out@),
        r matches Err(err) ==> err == RngError::MalformedInput || err
            == RngError::EntropyUnavailable,
{
    match parse_range_request(input) {
        None => Err(RngError::MalformedInput),
        Some(req) => match draw_entropy() {
            None => Err(RngError::EntropyUnavailable),
            Some(e) => {
                let n = map_to_range(req.min, req.max, e);
                let out = serialize_random_response(n);
                proof {
                    assert(spec_parse_range_request(input@) == Some((req.min, req.max)));
                    assert(spec_ok_response(input@, out@)) by {
                        assert(spec_response_for(input@, out@, e));
                    }
                }
                Ok(out)
            },
        },
    }
}

/// The little-endian four-byte rendering of a 32-bit length.
pub open spec fn spec_le32(n: u32) -> Seq<u8> {
    seq![
        (n % 256) as u8,
        ((n / 256) % 256) as u8,
        ((n / 65536) % 256) as u8,
        ((n / 16777216) % 256) as u8,
    ]
}

/// Builds the length-prefixed output buffer handed across the sandbox
/// boundary: four little-endian length bytes, then the payload.
pub fn frame_output(payload: &Vec<u8>) -> (out: Vec<u8>)
    requires
        payload@.len() <= u32::MAX,
    ensures
        out@ == spec_le32(payload@.len() as u32) + payload@,
{
    let n: u32 = payload.len() as u32;
    let mut out: Vec<u8> = Vec::new();
    out.push((n % 256) as u8);
    out.push(((n / 256) % 256) as u8);
    out.push(((n / 65536) % 256) as u8);
    out.push(((n / 16777216) % 256) as u8);
    let mut k: usize = 0;
    while k < payload.len()
        invariant
            k <= payload@.len(),
            out@ == spec_le32(payload@.len() as u32) + payload@.subrange(0, k as int),
        decreases payload@.len() - k,
    {
        out.push(payload[k]);
        proof {
            assert(payload@.subrange(0, k + 1 as int) =~= payload@.subrange(0, k as int)
                + seq![payload@[k as int]]);
        }
        k = k + 1;
    }
    proof {
        assert(payload@.subrange(0, payload@.len() as int) =~= payload@);
    }
    out
}

} // verus!
