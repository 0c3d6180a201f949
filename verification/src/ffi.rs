//! The decisions of the C boundary (ABI version 1): which byte slices the
//! host hands over can be read, what `ingest` answers, which configurations
//! `create` accepts, and the buffer that a query hands back.
//!
//! The host's slices and buffers are raw memory; the library sees a slice as
//! its address and length, and a buffer as the bytes it holds.
use vstd::prelude::*;
use crate::json::{json_check, json_error};

verus! {

/// The version of the plugin ABI.
pub const ABI_VERSION: u32 = 1;

/// The capabilities that the plugin announces (none).
pub const CAPABILITIES: u64 = 0;

/// A byte slice handed over by the host: the address of its first byte
/// (zero for a null pointer) and its length.
#[derive(PartialEq, Eq, Structural, Debug, Clone, Copy)]
pub struct ByteSlice {
    pub address: usize,
    pub len: usize,
}

/// A buffer handed back to the host: the bytes it holds, or `None` for the
/// null buffer (null pointer, length zero) that reports a failure.
#[derive(Debug)]
pub struct ByteBuffer {
    pub contents: Option<Vec<u8>>,
}

impl ByteBuffer {
    /// The null buffer.
    pub fn null() -> (res: Self)
        ensures
            res.contents is None,
    {
        ByteBuffer { contents: None }
    }

    /// The length that the host sees.
    pub fn len(&self) -> (res: usize)
        ensures
            res == match self.contents {
                Some(bytes) => bytes@.len(),
                None => 0,
            },
    {
        match &self.contents {
            Some(bytes) => bytes.len(),
            None => 0,
        }
    }
}

/// How many bytes of `input` can be read: none for an empty slice (whatever
/// its address), an error for a null pointer with a length, else its length.
pub fn input_bytes(input: ByteSlice) -> (res: Result<usize, String>)
    ensures
        input.len == 0 ==> res == Ok::<usize, String>(0),
        input.len != 0 && input.address == 0 ==> (res matches Err(e) && e@ == "null byte slice"@),
        input.len != 0 && input.address != 0 ==> res == Ok::<usize, String>(input.len),
{
    if input.len == 0 {
        return Ok(0);
    }
    if input.address == 0 {
        return Err(String::from_str("null byte slice"));
    }
    Ok(input.len)
}

/// What `ingest` answers: `0` for a plugin handle and a readable event,
/// `-1` otherwise. Events are not otherwise used.
pub fn ingest_status(handle_is_null: bool, event: ByteSlice) -> (res: i32)
    ensures
        res == (if !handle_is_null && (event.len == 0 || event.address != 0) {
            0i32
        } else {
            -1i32
        }),
{
    if handle_is_null {
        return -1;
    }
    match input_bytes(event) {
        Ok(_) => 0,
        Err(_) => -1,
    }
}

/// Whether `create` accepts a configuration: an empty one, or one that
/// parses as JSON (its content is not used). A refusal carries serde_json's
/// message.
pub fn validate_config(config: &[u8]) -> (res: Result<(), String>)
    ensures
        config@.len() == 0 ==> res is Ok,
        config@.len() != 0 ==> match json_error(config@) {
            Some(message) => res matches Err(e) && e@ == message,
            None => res is Ok,
        },
{
    if config.len() == 0 {
        return Ok(());
    }
    json_check(config)
}

/// The buffer that hands `bytes` to the host.
pub fn buffer_from_bytes(bytes: Vec<u8>) -> (res: ByteBuffer)
    ensures
        res.contents == Some(bytes),
{
    ByteBuffer { contents: Some(bytes) }
}

/// The buffer that answers a query: the reply's bytes, or the null buffer
/// when the query failed.
pub fn query_buffer(reply: Result<Vec<u8>, String>) -> (res: ByteBuffer)
    ensures
        match reply {
            Ok(bytes) => res.contents == Some(bytes),
            Err(_) => res.contents is None,
        },
{
    match reply {
        Ok(bytes) => buffer_from_bytes(bytes),
        Err(_) => ByteBuffer::null(),
    }
}

} // verus!
