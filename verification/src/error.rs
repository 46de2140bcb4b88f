use vstd::prelude::*;

verus! {

/// Error codes of the p2p frame.
#[derive(Clone, Copy, Debug, PartialEq, Eq, Structural)]
pub enum P2pErrorCode {
    Success,
    Failed,
    InvalidParam,
    InvalidData,
    OutOfLimit,
    Unmatch,
    NotFound,
    AlreadyExists,
    Conflict,
    Expired,
    UnSupport,
    NetworkError,
    UserCanceled,
    PortNotListen,
    IoError,
    PermissionDenied,
    NotSupport,
    ConnectFailed,
    TlsError,
    CertError,
    RawCodecError,
    Interrupted,
    ErrorState,
    TargetNotFound,
    StreamPortAlreadyListen,
    QuicError,
    AddrNotAvailable,
    AddrInUse,
    Aborted,
}

/// Wire value of an error code.
pub open spec fn spec_error_code_value(code: P2pErrorCode) -> u8 {
    match code {
        P2pErrorCode::Success => 0,
        P2pErrorCode::Failed => 1,
        P2pErrorCode::InvalidParam => 2,
        P2pErrorCode::InvalidData => 3,
        P2pErrorCode::OutOfLimit => 4,
        P2pErrorCode::Unmatch => 5,
        P2pErrorCode::NotFound => 6,
        P2pErrorCode::AlreadyExists => 7,
        P2pErrorCode::Conflict => 8,
        P2pErrorCode::Expired => 9,
        P2pErrorCode::UnSupport => 10,
        P2pErrorCode::NetworkError => 11,
        P2pErrorCode::UserCanceled => 12,
        P2pErrorCode::PortNotListen => 13,
        P2pErrorCode::IoError => 14,
        P2pErrorCode::PermissionDenied => 15,
        P2pErrorCode::NotSupport => 16,
        P2pErrorCode::ConnectFailed => 17,
        P2pErrorCode::TlsError => 18,
        P2pErrorCode::CertError => 19,
        P2pErrorCode::RawCodecError => 20,
        P2pErrorCode::Interrupted => 21,
        P2pErrorCode::ErrorState => 22,
        P2pErrorCode::TargetNotFound => 23,
        P2pErrorCode::StreamPortAlreadyListen => 24,
        P2pErrorCode::QuicError => 25,
        P2pErrorCode::AddrNotAvailable => 26,
        P2pErrorCode::AddrInUse => 27,
        P2pErrorCode::Aborted => 28,
    }
}

impl P2pErrorCode {
    pub fn value(&self) -> (r: u8)
        ensures
            r == spec_error_code_value(*self),
    {
        match self {
            P2pErrorCode::Success => 0,
            P2pErrorCode::Failed => 1,
            P2pErrorCode::InvalidParam => 2,
            P2pErrorCode::InvalidData => 3,
            P2pErrorCode::OutOfLimit => 4,
            P2pErrorCode::Unmatch => 5,
            P2pErrorCode::NotFound => 6,
            P2pErrorCode::AlreadyExists => 7,
            P2pErrorCode::Conflict => 8,
            P2pErrorCode::Expired => 9,
            P2pErrorCode::UnSupport => 10,
            P2pErrorCode::NetworkError => 11,
            P2pErrorCode::UserCanceled => 12,
            P2pErrorCode::PortNotListen => 13,
            P2pErrorCode::IoError => 14,
            P2pErrorCode::PermissionDenied => 15,
            P2pErrorCode::NotSupport => 16,
            P2pErrorCode::ConnectFailed => 17,
            P2pErrorCode::TlsError => 18,
            P2pErrorCode::CertError => 19,
            P2pErrorCode::RawCodecError => 20,
            P2pErrorCode::Interrupted => 21,
            P2pErrorCode::ErrorState => 22,
            P2pErrorCode::TargetNotFound => 23,
            P2pErrorCode::StreamPortAlreadyListen => 24,
            P2pErrorCode::QuicError => 25,
            P2pErrorCode::AddrNotAvailable => 26,
            P2pErrorCode::AddrInUse => 27,
            P2pErrorCode::Aborted => 28,
        }
    }
}

/// An error of the p2p frame, identified by its code.
#[derive(Clone, Copy, Debug, PartialEq, Eq, Structural)]
pub struct P2pError {
    pub code: P2pErrorCode,
}

impl P2pError {
    pub fn new(code: P2pErrorCode) -> (r: P2pError)
        ensures
            r.code == code,
    {
        P2pError { code }
    }

    pub fn code(&self) -> (r: P2pErrorCode)
        ensures
            r == self.code,
    {
        self.code
    }
}

pub type P2pResult<T> = Result<T, P2pError>;

} // verus!
