//! What the host decides while it runs one guest module: how many bytes it
//! asks `allocate` for, where it writes the input, where the result lies
//! once `process` has answered, and how the result bytes become text.
use vstd::prelude::*;
use vstd::utf8::*;
use crate::abi::{packed_bits, packed_len, packed_ptr, unpack_result, lemma_unpack_pack};

verus! {

broadcast use {vstd::utf8::encode_utf8_valid_utf8, vstd::utf8::encode_utf8_decode_utf8};

/// The export that allocates guest memory for the input.
pub const ALLOCATE_EXPORT: &'static str = "allocate";

/// The export that turns the input into the result.
pub const PROCESS_EXPORT: &'static str = "process";

/// The exported linear memory that holds the input and the result.
pub const MEMORY_EXPORT: &'static str = "memory";

/// Why one guest module could not turn its input into text.
#[derive(Debug, Clone, Copy, PartialEq, Eq, Structural)]
pub enum ModuleError {
    /// `allocate` returned no value.
    AllocateNoValue,
    /// `process` returned no value.
    ProcessNoValue,
    /// The bytes that `process` pointed at are not UTF-8.
    InvalidUtf8,
}

/// Where the text that `process` produced lies in the guest's memory.
#[derive(Debug, Clone, Copy, PartialEq, Eq, Structural)]
pub enum OutputRegion {
    /// The guest reported a length of zero: the result is the empty text.
    Empty,
    /// `len` bytes starting at address `ptr`.
    Bytes { ptr: u32, len: u32 },
}

/// The number of bytes that the host asks `allocate` for: the UTF-8 length
/// of the input (a `usize`), cast to `i32` as the guest's signature takes it.
pub open spec fn spec_input_len(input: Seq<char>) -> i32 {
    (encode_utf8(input).len() as usize) as i32
}

/// The region that a packed `process` result describes.
pub open spec fn spec_output_region(packed: i64) -> OutputRegion {
    if packed_len(packed) == 0 {
        OutputRegion::Empty
    } else {
        OutputRegion::Bytes { ptr: packed_ptr(packed), len: packed_len(packed) }
    }
}

/// The argument of the guest's `allocate` call for `input`.
pub fn input_len(input: &str) -> (n: i32)
    ensures
        n == spec_input_len(input@),
{
    #[verifier::truncate]
    (input.len() as i32)
}

/// The bytes that the host writes into the guest's memory: the UTF-8
/// encoding of the input.
pub fn input_bytes(input: &str) -> (bytes: &[u8])
    ensures
        bytes@ == encode_utf8(input@),
{
    input.as_bytes()
}

/// The address at which the host writes the input: the first value that
/// `allocate` returned, read as an unsigned address. No value is an error.
pub fn input_address(allocated: Option<i32>) -> (r: Result<u32, ModuleError>)
    ensures
        allocated is None <==> r == Err::<u32, ModuleError>(ModuleError::AllocateNoValue),
        allocated matches Some(p) ==> r == Ok::<u32, ModuleError>(p as u32),
{
    match allocated {
        Some(p) => Ok(p as u32),
        None => Err(ModuleError::AllocateNoValue),
    }
}

/// Where the result lies, given the first value that `process` returned.
/// No value is an error; a packed length of zero means the empty text.
pub fn output_region(processed: Option<i64>) -> (r: Result<OutputRegion, ModuleError>)
    ensures
        processed is None <==> r == Err::<OutputRegion, ModuleError>(ModuleError::ProcessNoValue),
        processed matches Some(packed) ==> r == Ok::<OutputRegion, ModuleError>(
            spec_output_region(packed),
        ),
{
    match processed {
        None => Err(ModuleError::ProcessNoValue),
        Some(packed) => {
            let (ptr, len) = unpack_result(packed);
            if len == 0 {
                Ok(OutputRegion::Empty)
            } else {
                Ok(OutputRegion::Bytes { ptr, len })
            }
        },
    }
}

/// `std::string::String::from_utf8`: the bytes as text when they are valid
/// UTF-8, and nothing otherwise. The contract claims that it succeeds exactly
/// on valid UTF-8 and that the text's characters are the decoded bytes.
#[verifier::external_body]
fn string_from_utf8(bytes: Vec<u8>) -> (r: Option<String>)
    ensures
        r is Some <==> valid_utf8(bytes@),
        r matches Some(s) ==> s@ == decode_utf8(bytes@),
{
    String::from_utf8(bytes).ok()
}

/// The text that the result bytes spell, or `InvalidUtf8`.
pub fn decode_output(bytes: Vec<u8>) -> (r: Result<String, ModuleError>)
    ensures
        r is Ok <==> valid_utf8(bytes@),
        r matches Ok(s) ==> s@ == decode_utf8(bytes@),
        r matches Err(e) ==> e == ModuleError::InvalidUtf8,
{
    match string_from_utf8(bytes) {
        Some(s) => Ok(s),
        None => Err(ModuleError::InvalidUtf8),
    }
}

/// A module that answers with the bytes it was given hands the host its
/// input back: the region it reports is the empty one exactly when the input
/// is empty, and the bytes of a non-empty input decode to the input itself.
pub proof fn lemma_echo_round_trip(input: Seq<char>, result_ptr: u32)
    requires
        encode_utf8(input).len() <= i32::MAX,
    ensures
        spec_input_len(input) >= 0,
        ({
            let packed = packed_bits(result_ptr, spec_input_len(input) as u32) as i64;
            &&& input.len() == 0 ==> spec_output_region(packed) == OutputRegion::Empty
            &&& input.len() != 0 ==> spec_output_region(packed) == (OutputRegion::Bytes {
                ptr: result_ptr,
                len: encode_utf8(input).len() as u32,
            })
        }),
        valid_utf8(encode_utf8(input)),
        decode_utf8(encode_utf8(input)) == input,
{
    let n = encode_utf8(input).len();
    lemma_unpack_pack(result_ptr, n as u32);
    if input.len() != 0 {
        vstd::utf8::encode_utf8_first_scalar(input);
    } else {
        assert(encode_utf8(input) =~= Seq::<u8>::empty());
    }
}

} // verus!
