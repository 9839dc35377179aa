//! Compression stage: level `0` stores an asset's bytes unchanged; a positive
//! level passes them through the selected block codec. The emitter never
//! decompresses; `decompress` is offered to the consuming program, which is
//! responsible for decoding payloads at run time.

use vstd::prelude::*;

verus! {

/// The codecs a declared map may select for its payloads.
#[derive(Clone, Copy, Debug, PartialEq, Eq, Structural)]
pub enum Algorithm {
    Lz4,
    Zstd,
}

/// A codec stream fault: the selected codec could not produce or read a block.
#[derive(Clone, Copy, Debug, PartialEq, Eq, Structural)]
pub struct CodecError;

/// The bytes minilz4's encoder emits for `data` at `level`.
pub uninterp spec fn lz4_of(data: Seq<u8>, level: u32) -> Seq<u8>;

/// The bytes zstd's encoder emits for `data` at `level`.
pub uninterp spec fn zstd_of(data: Seq<u8>, level: u32) -> Seq<u8>;

/// The payload stored for raw bytes `data`: the bytes themselves at level
/// `0`, otherwise the selected codec's block for them.
pub open spec fn payload_of(data: Seq<u8>, level: u32, algorithm: Algorithm) -> Seq<u8> {
    if level == 0 {
        data
    } else if algorithm == Algorithm::Lz4 {
        lz4_of(data, level)
    } else {
        zstd_of(data, level)
    }
}

/// Relies on minilz4's `EncoderBuilder::encode` (linked 64 KB blocks, no
/// auto-flush): the emitted frame depends on the input bytes and the level
/// alone.
#[verifier::external_body]
fn lz4_block(data: &Vec<u8>, level: u32) -> (r: Result<Vec<u8>, CodecError>)
    ensures
        r is Ok ==> r->Ok_0@ == lz4_of(data@, level),
{
    minilz4::EncoderBuilder::new()
        .auto_flush(false)
        .level(level)
        .block_mode(minilz4::BlockMode::Linked)
        .block_size(minilz4::BlockSize::Max64KB)
        .encode(&mut data.as_slice())
        .map_err(|_| CodecError)
}

/// Relies on minilz4's `Decoder`: the codec is lossless, so decoding a frame
/// the encoder produced succeeds and yields the encoder's input, whatever
/// level it was encoded at.
#[verifier::external_body]
fn lz4_unblock(block: &Vec<u8>) -> (r: Result<Vec<u8>, CodecError>)
    ensures
        forall|d: Seq<u8>, l: u32| block@ == #[trigger] lz4_of(d, l) ==> r is Ok && r->Ok_0@ == d,
{
    match minilz4::Decoder::new(block.as_slice()) {
        Ok(decoder) => decoder.decode().map_err(|_| CodecError),
        Err(_) => Err(CodecError),
    }
}

/// Relies on zstd's `stream::encode_all`: the emitted frame depends on the
/// input bytes and the level alone.
#[verifier::external_body]
fn zstd_block(data: &Vec<u8>, level: u32) -> (r: Result<Vec<u8>, CodecError>)
    ensures
        r is Ok ==> r->Ok_0@ == zstd_of(data@, level),
{
    zstd::stream::encode_all(data.as_slice(), level as i32).map_err(|_| CodecError)
}

/// Relies on zstd's `stream::decode_all`: the codec is lossless, so decoding
/// a frame the encoder produced succeeds and yields the encoder's input,
/// whatever level it was encoded at.
#[verifier::external_body]
fn zstd_unblock(block: &Vec<u8>) -> (r: Result<Vec<u8>, CodecError>)
    ensures
        forall|d: Seq<u8>, l: u32| block@ == #[trigger] zstd_of(d, l) ==> r is Ok && r->Ok_0@ == d,
{
    zstd::stream::decode_all(block.as_slice()).map_err(|_| CodecError)
}

/// Compression stage for one asset: level `0` always succeeds and stores the
/// bytes unchanged; a positive level yields the selected codec's block.
pub fn compress(data: &Vec<u8>, level: u32, algorithm: Algorithm) -> (r: Result<
    Vec<u8>,
    CodecError,
>)
    ensures
        r is Ok ==> r->Ok_0@ == payload_of(data@, level, algorithm),
        level == 0 ==> r is Ok,
{
    if level == 0 {
        let copy = data.clone();
        proof {
            assert(copy@ =~= data@);
        }
        Ok(copy)
    } else {
        match algorithm {
            Algorithm::Lz4 => lz4_block(data, level),
            Algorithm::Zstd => zstd_block(data, level),
        }
    }
}

/// Decoding with the matching codec inverts compression: for any raw bytes
/// and positive level whose payload under `algorithm` equals `block`,
/// decompression succeeds and returns exactly those raw bytes.
pub fn decompress(block: &Vec<u8>, algorithm: Algorithm) -> (r: Result<Vec<u8>, CodecError>)
    ensures
        forall|d: Seq<u8>, l: u32|
            l > 0 && block@ == #[trigger] payload_of(d, l, algorithm) ==> r is Ok && r->Ok_0@ == d,
{
    match algorithm {
        Algorithm::Lz4 => lz4_unblock(block),
        Algorithm::Zstd => zstd_unblock(block),
    }
}

} // verus!
