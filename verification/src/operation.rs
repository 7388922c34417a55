//! Operation and status codes that this library knows by name. The header
//! carries the code as a plain number, so a code without a name here can
//! still be sent and received.
use vstd::prelude::*;

verus! {

/// The operation that a request asks for.
#[derive(Clone, Copy, Debug, PartialEq, Eq, Structural)]
pub enum Operation {
    PrintJob,
    PrintUri,
    ValidateJob,
    CreateJob,
    SendDocument,
    SendUri,
    CancelJob,
    GetJobAttributes,
    GetJobs,
    GetPrinterAttributes,
    HoldJob,
    ReleaseJob,
    RestartJob,
    PausePrinter,
    ResumePrinter,
    PurgeJobs,
    CupsGetDefault,
    CupsGetPrinters,
    CupsAddModifyPrinter,
    CupsDeletePrinter,
}

impl Operation {
    /// The code of this operation in a request header.
    pub open spec fn spec_code(self) -> u16 {
        match self {
            Operation::PrintJob => 0x0002,
            Operation::PrintUri => 0x0003,
            Operation::ValidateJob => 0x0004,
            Operation::CreateJob => 0x0005,
            Operation::SendDocument => 0x0006,
            Operation::SendUri => 0x0007,
            Operation::CancelJob => 0x0008,
            Operation::GetJobAttributes => 0x0009,
            Operation::GetJobs => 0x000a,
            Operation::GetPrinterAttributes => 0x000b,
            Operation::HoldJob => 0x000c,
            Operation::ReleaseJob => 0x000d,
            Operation::RestartJob => 0x000e,
            Operation::PausePrinter => 0x0010,
            Operation::ResumePrinter => 0x0011,
            Operation::PurgeJobs => 0x0012,
            Operation::CupsGetDefault => 0x4001,
            Operation::CupsGetPrinters => 0x4002,
            Operation::CupsAddModifyPrinter => 0x4003,
            Operation::CupsDeletePrinter => 0x4004,
        }
    }

    #[verifier::when_used_as_spec(spec_code)]
    pub fn code(self) -> (c: u16)
        ensures
            c == self.spec_code(),
    {
        match self {
            Operation::PrintJob => 0x0002,
            Operation::PrintUri => 0x0003,
            Operation::ValidateJob => 0x0004,
            Operation::CreateJob => 0x0005,
            Operation::SendDocument => 0x0006,
            Operation::SendUri => 0x0007,
            Operation::CancelJob => 0x0008,
            Operation::GetJobAttributes => 0x0009,
            Operation::GetJobs => 0x000a,
            Operation::GetPrinterAttributes => 0x000b,
            Operation::HoldJob => 0x000c,
            Operation::ReleaseJob => 0x000d,
            Operation::RestartJob => 0x000e,
            Operation::PausePrinter => 0x0010,
            Operation::ResumePrinter => 0x0011,
            Operation::PurgeJobs => 0x0012,
            Operation::CupsGetDefault => 0x4001,
            Operation::CupsGetPrinters => 0x4002,
            Operation::CupsAddModifyPrinter => 0x4003,
            Operation::CupsDeletePrinter => 0x4004,
        }
    }
}

/// The outcome that a response reports.
#[derive(Clone, Copy, Debug, PartialEq, Eq, Structural)]
pub enum StatusCode {
    SuccessfulOk,
    SuccessfulOkIgnoredOrSubstitutedAttributes,
    SuccessfulOkConflictingAttributes,
    ClientErrorBadRequest,
    ClientErrorForbidden,
    ClientErrorNotAuthenticated,
    ClientErrorNotAuthorized,
    ClientErrorNotPossible,
    ClientErrorTimeout,
    ClientErrorNotFound,
    ClientErrorGone,
    ClientErrorRequestEntityTooLarge,
    ClientErrorRequestValueTooLong,
    ClientErrorDocumentFormatNotSupported,
    ClientErrorAttributesOrValuesNotSupported,
    ClientErrorUriSchemeNotSupported,
    ClientErrorCharsetNotSupported,
    ClientErrorConflictingAttributes,
    ServerErrorInternalError,
    ServerErrorOperationNotSupported,
    ServerErrorServiceUnavailable,
    ServerErrorVersionNotSupported,
    ServerErrorDeviceError,
    ServerErrorTemporaryError,
    ServerErrorNotAcceptingJobs,
    ServerErrorBusy,
    ServerErrorJobCanceled,
}

impl StatusCode {
    /// The code of this status in a response header.
    pub open spec fn spec_code(self) -> u16 {
        match self {
            StatusCode::SuccessfulOk => 0x0000,
            StatusCode::SuccessfulOkIgnoredOrSubstitutedAttributes => 0x0001,
            StatusCode::SuccessfulOkConflictingAttributes => 0x0002,
            StatusCode::ClientErrorBadRequest => 0x0400,
            StatusCode::ClientErrorForbidden => 0x0401,
            StatusCode::ClientErrorNotAuthenticated => 0x0402,
            StatusCode::ClientErrorNotAuthorized => 0x0403,
            StatusCode::ClientErrorNotPossible => 0x0404,
            StatusCode::ClientErrorTimeout => 0x0405,
            StatusCode::ClientErrorNotFound => 0x0406,
            StatusCode::ClientErrorGone => 0x0407,
            StatusCode::ClientErrorRequestEntityTooLarge => 0x0408,
            StatusCode::ClientErrorRequestValueTooLong => 0x0409,
            StatusCode::ClientErrorDocumentFormatNotSupported => 0x040a,
            StatusCode::ClientErrorAttributesOrValuesNotSupported => 0x040b,
            StatusCode::ClientErrorUriSchemeNotSupported => 0x040c,
            StatusCode::ClientErrorCharsetNotSupported => 0x040d,
            StatusCode::ClientErrorConflictingAttributes => 0x040e,
            StatusCode::ServerErrorInternalError => 0x0500,
            StatusCode::ServerErrorOperationNotSupported => 0x0501,
            StatusCode::ServerErrorServiceUnavailable => 0x0502,
            StatusCode::ServerErrorVersionNotSupported => 0x0503,
            StatusCode::ServerErrorDeviceError => 0x0504,
            StatusCode::ServerErrorTemporaryError => 0x0505,
            StatusCode::ServerErrorNotAcceptingJobs => 0x0506,
            StatusCode::ServerErrorBusy => 0x0507,
            StatusCode::ServerErrorJobCanceled => 0x0508,
        }
    }

    #[verifier::when_used_as_spec(spec_code)]
    pub fn code(self) -> (c: u16)
        ensures
            c == self.spec_code(),
    {
        match self {
            StatusCode::SuccessfulOk => 0x0000,
            StatusCode::SuccessfulOkIgnoredOrSubstitutedAttributes => 0x0001,
            StatusCode::SuccessfulOkConflictingAttributes => 0x0002,
            StatusCode::ClientErrorBadRequest => 0x0400,
            StatusCode::ClientErrorForbidden => 0x0401,
            StatusCode::ClientErrorNotAuthenticated => 0x0402,
            StatusCode::ClientErrorNotAuthorized => 0x0403,
            StatusCode::ClientErrorNotPossible => 0x0404,
            StatusCode::ClientErrorTimeout => 0x0405,
            StatusCode::ClientErrorNotFound => 0x0406,
            StatusCode::ClientErrorGone => 0x0407,
            StatusCode::ClientErrorRequestEntityTooLarge => 0x0408,
            StatusCode::ClientErrorRequestValueTooLong => 0x0409,
            StatusCode::ClientErrorDocumentFormatNotSupported => 0x040a,
            StatusCode::ClientErrorAttributesOrValuesNotSupported => 0x040b,
            StatusCode::ClientErrorUriSchemeNotSupported => 0x040c,
            StatusCode::ClientErrorCharsetNotSupported => 0x040d,
            StatusCode::ClientErrorConflictingAttributes => 0x040e,
            StatusCode::ServerErrorInternalError => 0x0500,
            StatusCode::ServerErrorOperationNotSupported => 0x0501,
            StatusCode::ServerErrorServiceUnavailable => 0x0502,
            StatusCode::ServerErrorVersionNotSupported => 0x0503,
            StatusCode::ServerErrorDeviceError => 0x0504,
            StatusCode::ServerErrorTemporaryError => 0x0505,
            StatusCode::ServerErrorNotAcceptingJobs => 0x0506,
            StatusCode::ServerErrorBusy => 0x0507,
            StatusCode::ServerErrorJobCanceled => 0x0508,
        }
    }
}

} // verus!
