//! A slave's service for the proxy: it serves reads from its replica of
//! the table and refuses writes, which go to the master.
use vstd::prelude::*;
use crate::error::ServiceError;
use crate::ping::{ping, ping_reply, opt_view};
use crate::store::Db;

verus! {

/// A slave's handler for the proxy's requests; the table it reads is
/// handed to each call.
pub struct Proxy2SlaveService {}

impl Proxy2SlaveService {
    /// A handler.
    pub fn new() -> (r: Proxy2SlaveService) {
        Proxy2SlaveService {}
    }

    /// Answers a ping with its payload, or `PONG`.
    pub fn ping(&self, payload: Option<String>) -> (r: String)
        ensures
            r@ == ping_reply(opt_view(payload)),
    {
        ping(payload)
    }

    /// A write, which a slave refuses.
    pub fn set(&self) -> (r: Result<String, ServiceError>)
        ensures
            r == Err::<String, ServiceError>(ServiceError::SetOnSlave),
    {
        Err(ServiceError::SetOnSlave)
    }

    /// The value stored under `key`, if any.
    pub fn get(&self, db: &Db, key: &str) -> (r: Option<String>)
        ensures
            match r {
                Some(v) => db@.contains_key(key@) && v@ == db@[key@],
                None => !db@.contains_key(key@),
            },
    {
        db.get(key)
    }

    /// A delete, which a slave refuses.
    pub fn del(&self) -> (r: Result<i64, ServiceError>)
        ensures
            r == Err::<i64, ServiceError>(ServiceError::DelOnSlave),
    {
        Err(ServiceError::DelOnSlave)
    }

    /// A transactional write, which a slave refuses.
    pub fn set_trans(&self) -> (r: Result<String, ServiceError>)
        ensures
            r == Err::<String, ServiceError>(ServiceError::NotImplemented),
    {
        Err(ServiceError::NotImplemented)
    }

    /// A transactional read, which a slave refuses.
    pub fn get_trans(&self) -> (r: Result<String, ServiceError>)
        ensures
            r == Err::<String, ServiceError>(ServiceError::NotImplemented),
    {
        Err(ServiceError::NotImplemented)
    }

    /// Opening a transaction, which a slave refuses.
    pub fn multi(&self) -> (r: Result<i64, ServiceError>)
        ensures
            r == Err::<i64, ServiceError>(ServiceError::NotImplemented),
    {
        Err(ServiceError::NotImplemented)
    }

    /// Running a transaction, which a slave refuses.
    pub fn exec(&self) -> (r: Result<Vec<String>, ServiceError>)
        ensures
            r is Err && r->Err_0 == ServiceError::NotImplemented,
    {
        Err(ServiceError::NotImplemented)
    }

    /// Watching a key, which a slave refuses.
    pub fn watch(&self) -> (r: Result<String, ServiceError>)
        ensures
            r == Err::<String, ServiceError>(ServiceError::NotImplemented),
    {
        Err(ServiceError::NotImplemented)
    }
}

} // verus!
