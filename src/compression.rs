use vstd::prelude::*;
use crate::config::CompressionConfig;
use crate::error::{AppError, AppResult};
use crate::wire::{encode_message, wire_bytes, FrameHeader};

verus! {

#[verifier::external_type_specification]
#[verifier::external_body]
pub struct ExIoError(std::io::Error);

/// The zstd frame that compresses `data` at `level`.
pub uninterp spec fn zstd_compressed(data: Seq<u8>, level: int) -> Seq<u8>;

/// The bytes that the zstd frames in `data` decompress to.
pub uninterp spec fn zstd_decompressed(data: Seq<u8>) -> Seq<u8>;

/// Relies on zstd::encode_all: on success, the compressed form of `data` at
/// `level`, which depends on the two alone.
#[verifier::external_body]
fn zstd_encode(data: &[u8], level: i32) -> (r: Result<Vec<u8>, std::io::Error>)
    ensures
        r matches Ok(v) ==> v@ == zstd_compressed(data@, level as int),
{
    zstd::encode_all(data, level)
}

/// Relies on zstd::decode_all: on success, what the frames in `data`
/// decompress to.
#[verifier::external_body]
fn zstd_decode(data: &[u8]) -> (r: Result<Vec<u8>, std::io::Error>)
    ensures
        r matches Ok(v) ==> v@ == zstd_decompressed(data@),
{
    zstd::decode_all(data)
}

/// Relies on std::io::Error's Display: a readable account of the failure.
#[verifier::external_body]
fn io_error_text(e: &std::io::Error) -> String {
    e.to_string()
}

/// Relies on std::time::SystemTime::now: the wall clock, in milliseconds since
/// the Unix epoch; nothing for a clock set before it.
#[verifier::external_body]
fn wall_clock_millis() -> (r: Option<u128>) {
    match std::time::SystemTime::now().duration_since(std::time::UNIX_EPOCH) {
        Ok(d) => Some(d.as_millis()),
        Err(_) => None,
    }
}

/// The payload that goes on the wire for `data` under `config`.
pub open spec fn payload_for(config: CompressionConfig, data: Seq<u8>) -> Seq<u8> {
    if config.enabled {
        zstd_compressed(data, config.level as int)
    } else {
        data
    }
}

/// The message for a frame of `data`, with the given id and time stamp.
pub open spec fn message_of(
    config: CompressionConfig,
    frame_id: u64,
    timestamp: u64,
    width: u32,
    height: u32,
    data: Seq<u8>,
) -> Seq<u8> {
    wire_bytes(
        FrameHeader { width, height, compressed: config.enabled, timestamp, frame_id },
        payload_for(config, data),
    )
}

/// The frame id that follows `id`; the count starts over past the top of the
/// range.
pub open spec fn next_frame_id(id: u64) -> u64 {
    if id < u64::MAX {
        (id + 1) as u64
    } else {
        0
    }
}

/// Turns raw frames into wire messages: compresses them when configured to,
/// and numbers them in the order they are built.
pub struct Compressor {
    config: CompressionConfig,
    frame_counter: u64,
}

impl Compressor {
    pub closed spec fn config(&self) -> CompressionConfig {
        self.config
    }

    /// The id that the next message will carry.
    pub closed spec fn frame_counter(&self) -> u64 {
        self.frame_counter
    }

    pub fn new(config: CompressionConfig) -> (r: Compressor)
        ensures
            r.config() == config,
            r.frame_counter() == 0,
    {
        Compressor { config, frame_counter: 0 }
    }

    /// The payload for `data`: a copy when compression is off, else its zstd
    /// form; a compression failure is reported, never papered over.
    pub fn compress(&self, data: &[u8]) -> (r: AppResult<Vec<u8>>)
        ensures
            r matches Ok(v) ==> v@ == payload_for(self.config(), data@),
            !self.config().enabled ==> r is Ok,
            r matches Err(e) ==> e is CompressionError,
    {
        if !self.config.enabled {
            let mut out: Vec<u8> = Vec::new();
            crate::wire::push_bytes(&mut out, data);
            return Ok(out);
        }
        match zstd_encode(data, self.config.level) {
            Ok(v) => Ok(v),
            Err(e) => Err(AppError::CompressionError(io_error_text(&e))),
        }
    }

    /// Builds the wire message for one frame: takes the next frame id, makes
    /// the payload, and stamps the header with the wall clock. The header's
    /// `compressed` flag always tells what the payload holds.
    pub fn create_frame_message(&mut self, data: Vec<u8>, width: u32, height: u32) -> (r: AppResult<Vec<u8>>)
        ensures
            final(self).config() == old(self).config(),
            final(self).frame_counter() == next_frame_id(old(self).frame_counter()),
            r matches Ok(m) ==> exists|ts: u64|
                m@ == #[trigger] message_of(old(self).config(), old(self).frame_counter(), ts, width, height, data@),
            !old(self).config().enabled ==> r is Ok,
            r matches Err(e) ==> e is CompressionError,
    {
        let frame_id = self.frame_counter;
        self.frame_counter = if frame_id < u64::MAX {
            frame_id + 1
        } else {
            0
        };
        let payload = match self.compress(data.as_slice()) {
            Ok(p) => p,
            Err(e) => {
                return Err(e);
            },
        };
        let timestamp: u64 = match wall_clock_millis() {
            Some(ms) => if ms > u64::MAX as u128 {
                u64::MAX
            } else {
                ms as u64
            },
            None => 0,
        };
        let header = FrameHeader { width, height, compressed: self.config.enabled, timestamp, frame_id };
        let message = encode_message(&header, payload.as_slice());
        assert(frame_id == old(self).frame_counter());
        assert(message@ == message_of(old(self).config(), old(self).frame_counter(), timestamp, width, height, data@));
        Ok(message)
    }
}

/// Undoes zstd compression.
pub fn decompress(data: &[u8]) -> (r: AppResult<Vec<u8>>)
    ensures
        r matches Ok(v) ==> v@ == zstd_decompressed(data@),
        r matches Err(e) ==> e is CompressionError,
{
    match zstd_decode(data) {
        Ok(v) => Ok(v),
        Err(e) => Err(AppError::CompressionError(io_error_text(&e))),
    }
}

} // verus!
