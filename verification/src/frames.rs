//! HTTP/2 frames: the frame vocabulary and the byte-exact serialization
//! of the frames the library can write.
use vstd::prelude::*;

use crate::readers::ByteReader;

verus! {

/// A stream identifier: a 31-bit stream number.
#[derive(Clone, Copy, Debug, PartialEq, Eq, Structural)]
pub struct StreamIdentifier(pub u32);

/// Represents an error code in HTTP/2.
#[derive(Clone, Copy, Debug, PartialEq, Eq, Structural)]
pub enum ErrorCode {
    NoError,
    ProtocolError,
    InternalError,
    FlowControlError,
    SettingsTimeout,
    StreamClosed,
    FrameSizeError,
    RefusedStream,
    Cancel,
    CompressionError,
    ConnectError,
    EnhanceYourCalm,
    InadequateSecurity,
}

impl ErrorCode {
    /// The code's number on the wire.
    pub fn code(&self) -> (r: u32)
        ensures
            r == spec_error_code(*self),
    {
        match *self {
            ErrorCode::NoError => 0x0,
            ErrorCode::ProtocolError => 0x1,
            ErrorCode::InternalError => 0x2,
            ErrorCode::FlowControlError => 0x3,
            ErrorCode::SettingsTimeout => 0x4,
            ErrorCode::StreamClosed => 0x5,
            ErrorCode::FrameSizeError => 0x6,
            ErrorCode::RefusedStream => 0x7,
            ErrorCode::Cancel => 0x8,
            ErrorCode::CompressionError => 0x9,
            ErrorCode::ConnectError => 0xa,
            ErrorCode::EnhanceYourCalm => 0xb,
            ErrorCode::InadequateSecurity => 0xc,
        }
    }
}

/// The number an error code stands for.
pub open spec fn spec_error_code(c: ErrorCode) -> u32 {
    match c {
        ErrorCode::NoError => 0x0,
        ErrorCode::ProtocolError => 0x1,
        ErrorCode::InternalError => 0x2,
        ErrorCode::FlowControlError => 0x3,
        ErrorCode::SettingsTimeout => 0x4,
        ErrorCode::StreamClosed => 0x5,
        ErrorCode::FrameSizeError => 0x6,
        ErrorCode::RefusedStream => 0x7,
        ErrorCode::Cancel => 0x8,
        ErrorCode::CompressionError => 0x9,
        ErrorCode::ConnectError => 0xa,
        ErrorCode::EnhanceYourCalm => 0xb,
        ErrorCode::InadequateSecurity => 0xc,
    }
}

/// A setting in HTTP/2.
#[derive(Clone, Copy, Debug, PartialEq, Eq, Structural)]
pub enum SettingID {
    HeaderTableSize,
    EnablePush,
    MaxConcurrentStreams,
    InitialWindowSize,
    MaxFrameSize,
    MaxHeaderListSize,
}

impl SettingID {
    /// The setting's number on the wire.
    pub fn code(&self) -> (r: u32)
        ensures
            r == spec_setting_id(*self),
    {
        match *self {
            SettingID::HeaderTableSize => 0x1,
            SettingID::EnablePush => 0x2,
            SettingID::MaxConcurrentStreams => 0x3,
            SettingID::InitialWindowSize => 0x4,
            SettingID::MaxFrameSize => 0x5,
            SettingID::MaxHeaderListSize => 0x6,
        }
    }
}

/// The number a setting stands for.
pub open spec fn spec_setting_id(s: SettingID) -> u32 {
    match s {
        SettingID::HeaderTableSize => 0x1,
        SettingID::EnablePush => 0x2,
        SettingID::MaxConcurrentStreams => 0x3,
        SettingID::InitialWindowSize => 0x4,
        SettingID::MaxFrameSize => 0x5,
        SettingID::MaxHeaderListSize => 0x6,
    }
}

/// One HTTP/2 frame.
pub enum Frame {
    /// Stream, an `end_stream` flag, the data and its length.
    Data(StreamIdentifier, bool, Vec<u8>, usize),
    Headers,
    Priority,
    RstStream(ErrorCode),
    /// A setting and its value.
    Settings(SettingID, u32),
    PushPromise,
    /// The `ack` flag and the payload.
    Ping(bool, u64),
    GoAway,
    WindowUpdate(u32),
    Continuation,
    /// An invalid frame; it cannot be written.
    Invalid,
}

/// The nine bytes of a frame header: a 24-bit length, the type, the
/// flags, and a 31-bit identifier, all big endian.
pub open spec fn spec_frame_header(length: u32, frame_type: u8, flags: u8, identifier: u32) -> Seq<
    u8,
> {
    seq![
        (length >> 16) as u8,
        (length >> 8) as u8,
        length as u8,
        frame_type,
        flags,
        (identifier >> 24) as u8,
        (identifier >> 16) as u8,
        (identifier >> 8) as u8,
        identifier as u8,
    ]
}

/// The eight big-endian bytes of a ping payload.
pub open spec fn spec_be_u64(v: u64) -> Seq<u8> {
    seq![
        (v >> 56) as u8,
        (v >> 48) as u8,
        (v >> 40) as u8,
        (v >> 32) as u8,
        (v >> 24) as u8,
        (v >> 16) as u8,
        (v >> 8) as u8,
        v as u8,
    ]
}

/// Writes a frame header: the length must fit 24 bits and the
/// identifier must leave its top bit clear.
pub fn write_header(
    writer: &mut Vec<u8>,
    length: u32,
    frame_type: u8,
    flags: u8,
    identifier: u32,
)
    requires
        length < 0x1000000,
        identifier & 0x80000000u32 == 0,
    ensures
        final(writer)@ == old(writer)@ + spec_frame_header(length, frame_type, flags, identifier),
{
    writer.push((length >> 16) as u8);
    writer.push((length >> 8) as u8);
    writer.push(length as u8);
    writer.push(frame_type);
    writer.push(flags);
    writer.push((identifier >> 24) as u8);
    writer.push((identifier >> 16) as u8);
    writer.push((identifier >> 8) as u8);
    writer.push(identifier as u8);
    assert(writer@ =~= old(writer)@ + spec_frame_header(length, frame_type, flags, identifier));
}

impl Frame {
    /// Writes this frame; only a ping can be written so far, and an
    /// invalid frame never.
    pub fn write(self, writer: &mut Vec<u8>) -> (r: Result<(), ()>)
        requires
            self is Ping,
        ensures
            match self {
                Frame::Ping(ack, payload) => r is Ok && final(writer)@ == old(writer)@
                    + spec_frame_header(
                    8,
                    0x6,
                    if ack {
                        0x1
                    } else {
                        0x0
                    },
                    0x0,
                ) + spec_be_u64(payload),
                _ => true,
            },
    {
        match self {
            Frame::Ping(ack, payload) => {
                let flags: u8 = if ack {
                    0x1
                } else {
                    0x0
                };
                assert(0u32 & 0x80000000u32 == 0) by (bit_vector);
                write_header(writer, 8, 0x6, flags, 0x0);
                writer.push((payload >> 56) as u8);
                writer.push((payload >> 48) as u8);
                writer.push((payload >> 40) as u8);
                writer.push((payload >> 32) as u8);
                writer.push((payload >> 24) as u8);
                writer.push((payload >> 16) as u8);
                writer.push((payload >> 8) as u8);
                writer.push(payload as u8);
                proof {
                    let f: u8 = if ack {
                        0x1
                    } else {
                        0x0
                    };
                    assert(writer@ =~= old(writer)@ + spec_frame_header(8, 0x6, f, 0x0)
                        + spec_be_u64(payload));
                }
                Ok(())
            },
            _ => {
                Err(())
            },
        }
    }
}

/// Reads HTTP/2 frames from a byte source; only construction stands so
/// far.
pub struct Parser {
    pub reader: ByteReader,
}

impl Parser {
    /// A parser over `reader`.
    pub fn new(reader: ByteReader) -> (r: Parser)
        ensures
            r.reader == reader,
    {
        Parser { reader }
    }
}

} // verus!
