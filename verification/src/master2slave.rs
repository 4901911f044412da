//! The slave's side of replication: the master sends each write as a
//! payload of records, and the slave applies them to its table.
use vstd::prelude::*;
use crate::error::ServiceError;
use crate::records::{
    sync_run, sync_panics, sync_step, word_is, remove_pieces, word_set,
    word_del,
};
use crate::store::{Db, Table};
use crate::text::{views, split_char, split_on, chars_of, string_of, lemma_split_char_len};

verus! {

/// The handler for the requests that a master sends to a slave.
pub struct Master2SlaveService {}

impl Master2SlaveService {
    /// A handler; the table it acts on is handed to each call.
    pub fn new() -> (r: Master2SlaveService) {
        Master2SlaveService {}
    }

    /// Whether applying `payload` would meet a `set` line without key or
    /// value before any unrecognized line (a request that is not served).
    pub fn payload_is_malformed(payload: &str) -> (r: bool)
        ensures
            r == sync_panics(split_char(payload@, '\n')),
    {
        let text = chars_of(payload);
        let lines = split_on(&text, '\n');
        let n = lines.len();
        let ghost ls = views(lines@);
        assert(ls.skip(0) =~= ls);
        for i in 0..n
            invariant
                n == lines@.len(),
                ls == views(lines@),
                ls == split_char(payload@, '\n'),
                sync_panics(ls) == sync_panics(ls.skip(i as int)),
        {
            assert(ls.skip(i as int).drop_first() =~= ls.skip(i + 1));
            assert(ls.skip(i as int)[0] == lines@[i as int]@);
            let parts = split_on(&lines[i], ' ');
            proof {
                lemma_split_char_len(lines@[i as int]@, ' ');
            }
            if word_is(&parts[0], 's', 'e', 't') {
                if parts.len() < 3 {
                    return true;
                }
            } else if !word_is(&parts[0], 'd', 'e', 'l') {
                return false;
            }
        }
        assert(ls.skip(n as int) =~= Seq::<Seq<char>>::empty());
        false
    }

    /// Applies a replication payload: each line `set key value` stores
    /// the value, each line `del key...` removes the keys, in order; a
    /// line with another command word stops the work and is refused,
    /// with the lines before it applied.
    pub fn aofsync(&self, db: &mut Db, payload: &str) -> (r: Result<String, ServiceError>)
        requires
            !sync_panics(split_char(payload@, '\n')),
        ensures
            final(db)@ == sync_run(old(db)@, split_char(payload@, '\n')).0,
            match r {
                Ok(s) => sync_run(old(db)@, split_char(payload@, '\n')).1 && s@
                    == "aofsync finish"@,
                Err(e) => !sync_run(old(db)@, split_char(payload@, '\n')).1 && e
                    == ServiceError::UnrecognizedAofRequest,
            },
    {
        let text = chars_of(payload);
        let lines = split_on(&text, '\n');
        let n = lines.len();
        let ghost ls = views(lines@);
        assert(ls.skip(0) =~= ls);
        for i in 0..n
            invariant
                n == lines@.len(),
                ls == views(lines@),
                ls == split_char(payload@, '\n'),
                sync_run(old(db)@, ls) == sync_run(db@, ls.skip(i as int)),
                !sync_panics(ls.skip(i as int)),
        {
            let ghost rest = ls.skip(i as int);
            assert(rest.drop_first() =~= ls.skip(i + 1));
            assert(rest[0] == lines@[i as int]@);
            let parts = split_on(&lines[i], ' ');
            proof {
                lemma_split_char_len(lines@[i as int]@, ' ');
            }
            if word_is(&parts[0], 's', 'e', 't') {
                let key = string_of(parts[1].as_slice());
                let value = string_of(parts[2].as_slice());
                db.set(key, value);
            } else if word_is(&parts[0], 'd', 'e', 'l') {
                remove_pieces(db, &parts, 1);
            } else {
                return Err(ServiceError::UnrecognizedAofRequest);
            }
        }
        assert(ls.skip(n as int) =~= Seq::<Seq<char>>::empty());
        Ok("aofsync finish".to_owned())
    }

    /// Full-snapshot synchronisation, which is refused.
    pub fn rdbsync(&self) -> (r: Result<String, ServiceError>)
        ensures
            r == Err::<String, ServiceError>(ServiceError::RdbSyncUnsupported),
    {
        Err(ServiceError::RdbSyncUnsupported)
    }
}

} // verus!

verus! {

/// Replication of a write: a slave that held what the master held before
/// `set key value` holds what the master holds after it, once it applies
/// the payload of that write — when neither key nor value holds a space
/// or a newline.
pub proof fn lemma_set_payload_replicates(m: Table, key: Seq<char>, value: Seq<char>)
    requires
        crate::text::lacks(key, ' '),
        crate::text::lacks(key, '\n'),
        crate::text::lacks(value, ' '),
        crate::text::lacks(value, '\n'),
    ensures
        !sync_panics(split_char(crate::records::set_record(key, value), '\n')),
        sync_run(m, split_char(crate::records::set_record(key, value), '\n')) == (
            m.insert(key, value),
            true,
        ),
{
    let rec = crate::records::set_record(key, value);
    crate::records::lemma_set_record_one_line(key, value);
    crate::text::lemma_split_char_none(rec, '\n');
    crate::records::lemma_set_record_pieces(key, value);
    let lines = seq![rec];
    assert(lines.drop_first() =~= Seq::<Seq<char>>::empty());
    reveal_with_fuel(sync_run, 2);
    reveal_with_fuel(sync_panics, 2);
    assert(sync_step(m, rec) == Some(m.insert(key, value)));
    assert(sync_step(Table::empty(), rec) is Some);
}

/// Replication of a delete: a slave that held what the master held
/// before `del key...` holds what the master holds after it, once it
/// applies the payload of that delete — when no key holds a space or a
/// newline.
pub proof fn lemma_del_payload_replicates(m: Table, keys: Seq<Seq<char>>)
    requires
        crate::records::all_lack(keys, ' '),
        crate::records::all_lack(keys, '\n'),
    ensures
        !sync_panics(split_char(crate::records::del_record(keys), '\n')),
        sync_run(m, split_char(crate::records::del_record(keys), '\n')) == (
            crate::store::remove_each(m, keys),
            true,
        ),
{
    let rec = crate::records::del_record(keys);
    crate::records::lemma_del_record_one_line(keys);
    crate::text::lemma_split_char_none(rec, '\n');
    crate::records::lemma_del_record_pieces(keys);
    let p = split_char(rec, ' ');
    assert(p[0] == word_del());
    assert(word_del() != word_set()) by {
        assert(word_del()[0] != word_set()[0]);
    }
    assert(p.skip(1) =~= keys);
    let lines = seq![rec];
    assert(lines.drop_first() =~= Seq::<Seq<char>>::empty());
    reveal_with_fuel(sync_run, 2);
    reveal_with_fuel(sync_panics, 2);
    assert(sync_step(m, rec) == Some(crate::store::remove_each(m, keys)));
    assert(sync_step(Table::empty(), rec) is Some);
}

} // verus!
