//! Motion sample protocol v1: version, packet kind and the integer/text part
//! of sample validation.

use vstd::prelude::*;
use crate::text::{decimal, push_decimal, string_of};

verus! {

pub const PROTOCOL_VERSION: u8 = 1;
pub const MAX_DATAGRAM_BYTES: usize = 1024;
pub const MAX_SESSION_ELAPSED_US: u64 = 9_007_199_254_740_991;
pub const SESSION_ID_MIN_LEN: usize = 1;
pub const SESSION_ID_MAX_LEN: usize = 64;

/// The only supported protocol version, v1.
#[derive(Debug, Clone, Copy, PartialEq, Eq, Structural)]
pub struct ProtocolVersion;

impl ProtocolVersion {
    pub const V1: ProtocolVersion = ProtocolVersion;
}

/// Kind of datagram carried by the protocol.
#[derive(Debug, Clone, Copy, PartialEq, Eq, Structural)]
pub enum PacketKind {
    MotionSample,
}

/// Validation failures that the protocol reports for the integer and text
/// fields of a motion sample (session id, elapsed clock, version).
#[allow(inconsistent_fields)]
#[derive(Debug, Clone, PartialEq, Eq, Structural)]
pub enum ProtocolValidationError {
    UnsupportedProtocolVersion(u8),
    SessionIdLength { actual: usize },
    SessionElapsedUsOutOfRange { actual: u64 },
}

pub open spec fn spec_version_from_u8(value: u8) -> Result<ProtocolVersion, ProtocolValidationError> {
    if value == PROTOCOL_VERSION {
        Ok(ProtocolVersion::V1)
    } else {
        Err(ProtocolValidationError::UnsupportedProtocolVersion(value))
    }
}

impl TryFrom<u8> for ProtocolVersion {
    type Error = ProtocolValidationError;

    fn try_from(value: u8) -> (r: Result<ProtocolVersion, ProtocolValidationError>) {
        if value == PROTOCOL_VERSION {
            Ok(ProtocolVersion::V1)
        } else {
            Err(ProtocolValidationError::UnsupportedProtocolVersion(value))
        }
    }
}

impl vstd::std_specs::convert::TryFromSpecImpl<u8> for ProtocolVersion {
    open spec fn obeys_try_from_spec() -> bool {
        true
    }

    open spec fn try_from_spec(v: u8) -> Result<ProtocolVersion, ProtocolValidationError> {
        spec_version_from_u8(v)
    }
}

impl From<ProtocolVersion> for u8 {
    fn from(v: ProtocolVersion) -> (r: u8) {
        PROTOCOL_VERSION
    }
}

impl vstd::std_specs::convert::FromSpecImpl<ProtocolVersion> for u8 {
    open spec fn obeys_from_spec() -> bool {
        true
    }

    open spec fn from_spec(v: ProtocolVersion) -> u8 {
        PROTOCOL_VERSION
    }
}

/// The integer and text fields of a `MotionSampleV1` that the receiver and
/// the dataset analyzer reason about.
#[derive(Debug, Clone, PartialEq, Eq)]
pub struct SampleHeader {
    pub session_id: String,
    pub sequence: u32,
    pub session_elapsed_us: u64,
}

/// The outcome of validating the session id length (in characters) and the
/// session clock, in the order the protocol checks them.
pub open spec fn spec_validate_header(session_id_len: nat, session_elapsed_us: u64) -> Result<
    (),
    ProtocolValidationError,
> {
    if !(SESSION_ID_MIN_LEN <= session_id_len <= SESSION_ID_MAX_LEN) {
        Err(ProtocolValidationError::SessionIdLength { actual: session_id_len as usize })
    } else if session_elapsed_us > MAX_SESSION_ELAPSED_US {
        Err(ProtocolValidationError::SessionElapsedUsOutOfRange { actual: session_elapsed_us })
    } else {
        Ok(())
    }
}

impl SampleHeader {
    /// Checks the session id length and the session clock range.
    pub fn validate(&self) -> (r: Result<(), ProtocolValidationError>)
        ensures
            r == spec_validate_header(self.session_id@.len(), self.session_elapsed_us),
    {
        validate_session_fields(self.session_id.as_str(), self.session_elapsed_us)
    }
}

/// Checks the session id length (counted in characters) and the session clock range.
pub fn validate_session_fields(session_id: &str, session_elapsed_us: u64) -> (r: Result<
    (),
    ProtocolValidationError,
>)
    ensures
        r == spec_validate_header(session_id@.len(), session_elapsed_us),
{
    let session_id_len = session_id.unicode_len();
    if !(SESSION_ID_MIN_LEN <= session_id_len && session_id_len <= SESSION_ID_MAX_LEN) {
        return Err(ProtocolValidationError::SessionIdLength { actual: session_id_len });
    }
    if session_elapsed_us > MAX_SESSION_ELAPSED_US {
        return Err(ProtocolValidationError::SessionElapsedUsOutOfRange { actual: session_elapsed_us });
    }
    Ok(())
}

/// The human-readable text of a protocol validation error.
pub open spec fn protocol_error_text(e: ProtocolValidationError) -> Seq<char> {
    match e {
        ProtocolValidationError::UnsupportedProtocolVersion(v) => "unsupported protocolVersion: "@
            + decimal(v as nat),
        ProtocolValidationError::SessionIdLength { actual } =>
            "sessionId length must be between 1 and 64 characters, got "@ + decimal(actual as nat),
        ProtocolValidationError::SessionElapsedUsOutOfRange { actual } =>
            "sessionElapsedUs must be between 0 and 9007199254740991, got "@ + decimal(actual as nat),
    }
}

impl ProtocolValidationError {
    /// The human-readable description of this error.
    pub fn message(&self) -> (s: String)
        ensures
            s@ == protocol_error_text(*self),
    {
        match self {
            ProtocolValidationError::UnsupportedProtocolVersion(v) => {
                let mut s = string_of("unsupported protocolVersion: ");
                push_decimal(&mut s, *v as u64);
                s
            },
            ProtocolValidationError::SessionIdLength { actual } => {
                let mut s = string_of("sessionId length must be between 1 and 64 characters, got ");
                push_decimal(&mut s, *actual as u64);
                s
            },
            ProtocolValidationError::SessionElapsedUsOutOfRange { actual } => {
                let mut s = string_of("sessionElapsedUs must be between 0 and 9007199254740991, got ");
                push_decimal(&mut s, *actual);
                s
            },
        }
    }
}

} // verus!
