//! The master's service for the proxy: it serves reads and writes on its
//! table and, for each write, gives the record that its slaves must
//! apply.
use vstd::prelude::*;
use crate::error::ServiceError;
use crate::ping::{ping, ping_reply, opt_view};
use crate::records::{set_record, del_record, set_record_text, del_record_text};
use crate::store::{Db, remove_each, removed_count, keys_view};

verus! {

/// The master's handler for the proxy's requests; the table it acts on is
/// handed to each call.
pub struct Proxy2MasterService {}

impl Proxy2MasterService {
    /// A handler.
    pub fn new() -> (r: Proxy2MasterService) {
        Proxy2MasterService {}
    }

    /// Answers a ping with its payload, or `PONG`.
    pub fn ping(&self, payload: Option<String>) -> (r: String)
        ensures
            r@ == ping_reply(opt_view(payload)),
    {
        ping(payload)
    }

    /// Stores `value` under `key`. Answers `OK`, and gives the record
    /// `set key value` for the slaves and the append-only file.
    pub fn set(&self, db: &mut Db, key: String, value: String) -> (r: (String, String))
        ensures
            final(db)@ == old(db)@.insert(key@, value@),
            r.0@ == "OK"@,
            r.1@ == set_record(key@, value@),
    {
        let record = set_record_text(key.as_str(), value.as_str());
        db.set(key, value);
        ("OK".to_owned(), record)
    }

    /// The value stored under `key`, if any.
    pub fn get(&self, db: &Db, key: &str) -> (r: Option<String>)
        ensures
            match r {
                Some(v) => db@.contains_key(key@) && v@ == db@[key@],
                None => !db@.contains_key(key@),
            },
    {
        db.get(key)
    }

    /// Removes the keys in turn. Answers how many removals found their
    /// key, and gives the record `del key...` for the slaves and the
    /// append-only file.
    pub fn del(&self, db: &mut Db, keys: &Vec<String>) -> (r: (i64, String))
        requires
            keys@.len() <= i64::MAX,
        ensures
            final(db)@ == remove_each(old(db)@, keys_view(keys@)),
            r.0 == removed_count(old(db)@, keys_view(keys@)),
            r.1@ == del_record(keys_view(keys@)),
    {
        let num = db.del(keys);
        let record = del_record_text(keys);
        (num, record)
    }

    /// A transactional write, which a master refuses.
    pub fn set_trans(&self) -> (r: Result<String, ServiceError>)
        ensures
            r == Err::<String, ServiceError>(ServiceError::NotImplemented),
    {
        Err(ServiceError::NotImplemented)
    }

    /// A transactional read, which a master refuses.
    pub fn get_trans(&self) -> (r: Result<String, ServiceError>)
        ensures
            r == Err::<String, ServiceError>(ServiceError::NotImplemented),
    {
        Err(ServiceError::NotImplemented)
    }

    /// Opening a transaction, which a master refuses.
    pub fn multi(&self) -> (r: Result<i64, ServiceError>)
        ensures
            r == Err::<i64, ServiceError>(ServiceError::NotImplemented),
    {
        Err(ServiceError::NotImplemented)
    }

    /// Running a transaction, which a master refuses.
    pub fn exec(&self) -> (r: Result<Vec<String>, ServiceError>)
        ensures
            r is Err && r->Err_0 == ServiceError::NotImplemented,
    {
        Err(ServiceError::NotImplemented)
    }

    /// Watching a key, which a master refuses.
    pub fn watch(&self) -> (r: Result<String, ServiceError>)
        ensures
            r == Err::<String, ServiceError>(ServiceError::NotImplemented),
    {
        Err(ServiceError::NotImplemented)
    }
}

} // verus!
