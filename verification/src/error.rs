//! The errors that the services answer with.
use vstd::prelude::*;

verus! {

/// A refused request, with the text that the service answers.
#[derive(Debug, Clone, Copy, PartialEq, Eq, Structural)]
pub enum ServiceError {
    /// A replication payload line with an unknown command word.
    UnrecognizedAofRequest,
    /// An append-only file line with an unknown command word.
    UnrecognizedAofLine,
    /// A write sent to a slave.
    SetOnSlave,
    /// A delete sent to a slave.
    DelOnSlave,
    /// A transaction request sent to a master or a slave.
    NotImplemented,
    /// A registration without the slave's address.
    EmptyRegister,
    /// A logout without the slave's address.
    EmptyLogout,
    /// A transaction whose watched key was written before it ran.
    WatchViolated,
    /// A transaction that was never opened.
    NoResult,
    /// A forwarded request that the backend did not answer.
    Failed,
    /// Full-snapshot synchronisation, which no node offers.
    RdbSyncUnsupported,
}

/// The text of an error.
pub open spec fn error_text(e: ServiceError) -> Seq<char> {
    match e {
        ServiceError::UnrecognizedAofRequest => "Unrecognized AOF request"@,
        ServiceError::UnrecognizedAofLine => "Unrecognized request in AOF"@,
        ServiceError::SetOnSlave => "Can only send SET to master"@,
        ServiceError::DelOnSlave => "Can only send DEL to master"@,
        ServiceError::NotImplemented => "NOT IMPLEMENTED"@,
        ServiceError::EmptyRegister => "Empty register request"@,
        ServiceError::EmptyLogout => "Empty logout request"@,
        ServiceError::WatchViolated => "Watch vialated"@,
        ServiceError::NoResult => "NO Result"@,
        ServiceError::Failed => "failed"@,
        ServiceError::RdbSyncUnsupported => "TODO"@,
    }
}

impl ServiceError {
    /// The text that the service answers with.
    pub fn message(&self) -> (r: String)
        ensures
            r@ == error_text(*self),
    {
        match self {
            ServiceError::UnrecognizedAofRequest => "Unrecognized AOF request".to_owned(),
            ServiceError::UnrecognizedAofLine => "Unrecognized request in AOF".to_owned(),
            ServiceError::SetOnSlave => "Can only send SET to master".to_owned(),
            ServiceError::DelOnSlave => "Can only send DEL to master".to_owned(),
            ServiceError::NotImplemented => "NOT IMPLEMENTED".to_owned(),
            ServiceError::EmptyRegister => "Empty register request".to_owned(),
            ServiceError::EmptyLogout => "Empty logout request".to_owned(),
            ServiceError::WatchViolated => "Watch vialated".to_owned(),
            ServiceError::NoResult => "NO Result".to_owned(),
            ServiceError::Failed => "failed".to_owned(),
            ServiceError::RdbSyncUnsupported => "TODO".to_owned(),
        }
    }
}

} // verus!
