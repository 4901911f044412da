//! The proxy between clients and the cluster: it routes reads to slaves
//! by the hash of the key, sends writes to the master, and keeps the
//! clients' transactions: queued commands, watched keys, and whether a
//! watched key was written before the transaction ran.
use vstd::prelude::*;
use std::collections::HashMap;
use std::collections::hash_map::DefaultHasher;
use std::hash::{Hash, Hasher};
use crate::assoc::{AssocList, drop_value};
use crate::error::ServiceError;
use crate::ping::{ping, ping_reply, opt_view};
use crate::records::{word_get, word_is};
use crate::text::{
    string_views, words, split_words, chars_of, string_of, push_all,
};
use vstd::std_specs::hash::DefaultHasherAdditionalSpecFns;

verus! {

broadcast use vstd::std_specs::hash::group_hash_axioms;

/// What `Hash::hash` feeds a hasher for the text `s`: the writes that a
/// `DefaultHasher` receives, in order.
pub uninterp spec fn str_hash_writes(s: Seq<char>) -> Seq<Seq<u8>>;

/// Feeds `input` to `state` with `<str as Hash>::hash`. The contract
/// claims only that the writes the hasher receives are a function of the
/// text alone, `str_hash_writes(input)`.
#[verifier::external_body]
fn hash_str(input: &str, state: &mut DefaultHasher)
    ensures
        final(state)@ == old(state)@ + str_hash_writes(input@),
{
    input.hash(state)
}

/// The hash of a key: `DefaultHasher` fed the key and finished.
pub open spec fn key_hash(key: Seq<char>) -> u64 {
    DefaultHasher::spec_finish(Seq::<Seq<u8>>::empty() + str_hash_writes(key))
}

/// The slave that serves reads of `key`, among `n`.
pub open spec fn slave_for(key: Seq<char>, n: usize) -> usize {
    ((key_hash(key) as usize) % n) as usize
}

/// A transaction: its queued commands, and whether no watched key was
/// written since it was opened.
pub struct Txn {
    pub commands: Vec<String>,
    pub clean: bool,
}

/// The view of a transaction.
pub open spec fn txn_view(t: Txn) -> (Seq<Seq<char>>, bool) {
    (string_views(t.commands@), t.clean)
}

/// The proxy's transaction state: each open transaction with its queued
/// commands and cleanliness, and each watched key with its transaction.
pub struct ProxyView {
    pub trans: Map<i64, (Seq<Seq<char>>, bool)>,
    pub watch: Map<Seq<char>, i64>,
}

/// A step of a transaction, for the proxy to run in order.
#[derive(Debug, PartialEq, Eq)]
pub enum TxnStep {
    /// Read the key from its slave; its value, if any, goes in the answer.
    Read(String),
    /// Write the value under the key through the master.
    Write(String, String),
}

/// The queued command of a transactional write.
pub open spec fn write_command(key: Seq<char>, value: Seq<char>) -> Seq<char> {
    key + seq![' '] + value
}

/// The queued command of a transactional read.
pub open spec fn read_command(key: Seq<char>) -> Seq<char> {
    key + seq![' '] + word_get()
}

/// A queued command can be run: it has at least two words.
pub open spec fn command_runnable(cmd: Seq<char>) -> bool {
    words(cmd).len() >= 2
}

/// The step that a queued command stands for: its first word is the
/// key; a second word `get` makes it a read, any other second word is the
/// value to write.
pub open spec fn step_of(step: TxnStep, cmd: Seq<char>) -> bool {
    let w = words(cmd);
    if w[1] == word_get() {
        step matches TxnStep::Read(k) && k@ == w[0]
    } else {
        step matches TxnStep::Write(k, v) && k@ == w[0] && v@ == w[1]
    }
}

/// The state after a write to `key` outside any transaction: the
/// transaction watching `key`, if any, is no longer clean (and is opened,
/// empty, if it was not).
pub open spec fn note_write_spec(v: ProxyView, key: Seq<char>) -> ProxyView {
    if v.watch.contains_key(key) {
        let id = v.watch[key];
        let cmds = if v.trans.contains_key(id) {
            v.trans[id].0
        } else {
            Seq::<Seq<char>>::empty()
        };
        ProxyView { trans: v.trans.insert(id, (cmds, false)), watch: v.watch }
    } else {
        v
    }
}

/// The state after queueing `cmd` in transaction `id`: appended when the
/// transaction is clean, dropped when it is not, and the transaction
/// opened with it when it was not open.
pub open spec fn queue_spec(v: ProxyView, id: i64, cmd: Seq<char>) -> ProxyView {
    if v.trans.contains_key(id) {
        if v.trans[id].1 {
            ProxyView { trans: v.trans.insert(id, (v.trans[id].0.push(cmd), true)), watch: v.watch }
        } else {
            v
        }
    } else {
        ProxyView { trans: v.trans.insert(id, (seq![cmd], true)), watch: v.watch }
    }
}

/// The state after `key` is watched for transaction `id`.
pub open spec fn watch_spec(v: ProxyView, id: i64, key: Seq<char>) -> ProxyView {
    ProxyView { trans: v.trans, watch: v.watch.insert(key, id) }
}

/// The state after transaction `id` ends: it is closed and its watches
/// are dropped.
pub open spec fn finish_spec(v: ProxyView, id: i64) -> ProxyView {
    ProxyView { trans: v.trans.remove(id), watch: drop_value(v.watch, id) }
}

/// Transaction `id` is open and a key watched for it was written: running
/// it is refused.
pub open spec fn watch_violated(v: ProxyView, id: i64) -> bool {
    v.trans.contains_key(id) && !v.trans[id].1
}

/// The proxy: the number of slaves that share the reads, and the
/// transaction state.
pub struct Client2ProxyService {
    n_slaves: usize,
    trans: HashMap<i64, Txn>,
    watch: AssocList<i64>,
}

impl Client2ProxyService {
    /// The transaction state.
    pub closed spec fn view(&self) -> ProxyView {
        ProxyView {
            trans: self.trans@.map_values(|t: Txn| txn_view(t)),
            watch: self.watch.view(),
        }
    }

    /// The number of slaves.
    pub closed spec fn slave_count(&self) -> usize {
        self.n_slaves
    }

    /// The state is well formed.
    pub closed spec fn wf(&self) -> bool {
        self.watch.wf()
    }

    /// A proxy in front of `n_slaves` slaves, with no transaction.
    pub fn new(n_slaves: usize) -> (r: Client2ProxyService)
        ensures
            r.wf(),
            r.slave_count() == n_slaves,
            r.view().trans == Map::<i64, (Seq<Seq<char>>, bool)>::empty(),
            r.view().watch == Map::<Seq<char>, i64>::empty(),
    {
        let r = Client2ProxyService { n_slaves, trans: HashMap::new(), watch: AssocList::new() };
        assert(r.view().trans =~= Map::<i64, (Seq<Seq<char>>, bool)>::empty());
        r
    }

    /// The slave that serves reads of `input`: the key's hash modulo the
    /// number of slaves.
    pub fn my_hash(&self, input: &str) -> (r: usize)
        requires
            self.slave_count() > 0,
        ensures
            r == slave_for(input@, self.slave_count()),
            r < self.slave_count(),
    {
        let mut hasher = DefaultHasher::new();
        hash_str(input, &mut hasher);
        let h = hasher.finish();
        (h as usize) % self.n_slaves
    }

    /// Answers a ping with its payload, or `PONG`.
    pub fn ping(&self, payload: Option<String>) -> (r: String)
        ensures
            r@ == ping_reply(opt_view(payload)),
    {
        ping(payload)
    }

    /// Records a write to `key` that goes to the master: the transaction
    /// that watches `key`, if any, will refuse to run.
    pub fn set(&mut self, key: &str)
        requires
            old(self).wf(),
        ensures
            final(self).wf(),
            final(self).slave_count() == old(self).slave_count(),
            final(self).view() == note_write_spec(old(self).view(), key@),
    {
        let id = match self.watch.get(key) {
            Some(id) => *id,
            None => {
                return;
            },
        };
        let ghost before = self.trans@;
        match self.trans.remove(&id) {
            Some(t) => {
                assert(before.contains_key(id) && before[id] == t);
                assert(self.trans@ == before.remove(id));
                let t2 = Txn { commands: t.commands, clean: false };
                self.trans.insert(id, t2);
                assert(self.trans@ == before.insert(id, t2));
                assert(old(self).view().trans[id] == txn_view(t));
                assert(txn_view(t2) == (old(self).view().trans[id].0, false));
            },
            None => {
                let t2 = Txn { commands: Vec::new(), clean: false };
                self.trans.insert(id, t2);
                assert(string_views(t2.commands@) =~= Seq::<Seq<char>>::empty());
                assert(self.trans@ == before.insert(id, t2));
            },
        }
        assert(self.view().trans =~= note_write_spec(old(self).view(), key@).trans);
    }

    /// Queues `cmd` in transaction `id`.
    fn queue(&mut self, id: i64, cmd: String)
        requires
            old(self).wf(),
        ensures
            final(self).wf(),
            final(self).slave_count() == old(self).slave_count(),
            final(self).view() == queue_spec(old(self).view(), id, cmd@),
    {
        match self.trans.remove(&id) {
            Some(t) => {
                let mut t2 = t;
                let ghost c0 = t2.commands@;
                if t2.clean {
                    t2.commands.push(cmd);
                    assert(string_views(t2.commands@) =~= string_views(c0).push(cmd@));
                }
                self.trans.insert(id, t2);
                assert(old(self).view().trans[id] == txn_view(t));
                assert(self.view().trans =~= queue_spec(old(self).view(), id, cmd@).trans);
            },
            None => {
                let mut c: Vec<String> = Vec::new();
                c.push(cmd);
                assert(string_views(c@) =~= seq![cmd@]);
                self.trans.insert(id, Txn { commands: c, clean: true });
                assert(self.view().trans =~= queue_spec(old(self).view(), id, cmd@).trans);
            },
        }
    }

    /// Queues the write `key value` in transaction `id`; answers `set`.
    pub fn set_trans(&mut self, id: i64, key: &str, value: &str) -> (r: String)
        requires
            old(self).wf(),
        ensures
            final(self).wf(),
            final(self).slave_count() == old(self).slave_count(),
            final(self).view() == queue_spec(old(self).view(), id, write_command(key@, value@)),
            r@ == "set"@,
    {
        let mut c = chars_of(key);
        c.push(' ');
        let vc = chars_of(value);
        push_all(&mut c, vc.as_slice());
        assert(c@ =~= write_command(key@, value@));
        self.queue(id, string_of(c.as_slice()));
        "set".to_owned()
    }

    /// Queues the read `key get` in transaction `id`; answers `get`.
    pub fn get_trans(&mut self, id: i64, key: &str) -> (r: String)
        requires
            old(self).wf(),
        ensures
            final(self).wf(),
            final(self).slave_count() == old(self).slave_count(),
            final(self).view() == queue_spec(old(self).view(), id, read_command(key@)),
            r@ == "get"@,
    {
        let mut c = chars_of(key);
        c.push(' ');
        c.push('g');
        c.push('e');
        c.push('t');
        assert(c@ =~= read_command(key@));
        self.queue(id, string_of(c.as_slice()));
        "get".to_owned()
    }

    /// The identifier for a new transaction: the number of transactions
    /// the proxy holds.
    pub fn multi(&self) -> (r: i64)
        ensures
            r == self.view().trans.len() as i64,
    {
        let n = self.trans.len();
        assert(self.view().trans.dom() =~= self.trans@.dom());
        n as i64
    }

    /// Watches `key` for transaction `id`; answers `Success`.
    pub fn watch(&mut self, id: i64, key: &str) -> (r: String)
        requires
            old(self).wf(),
        ensures
            final(self).wf(),
            final(self).slave_count() == old(self).slave_count(),
            final(self).view() == watch_spec(old(self).view(), id, key@),
            r@ == "Success"@,
    {
        self.watch.insert(key.to_owned(), id);
        "Success".to_owned()
    }

    /// Whether transaction `id` can be run: every command it would run
    /// has at least two words.
    pub fn exec_is_runnable(&self, id: i64) -> (r: bool)
        ensures
            r == (self.view().trans.contains_key(id) && self.view().trans[id].1 ==> forall|i: int|
                0 <= i < self.view().trans[id].0.len() ==> command_runnable(
                    #[trigger] self.view().trans[id].0[i],
                )),
    {
        match self.trans.get(&id) {
            Some(t) => {
                if !t.clean {
                    return true;
                }
                let n = t.commands.len();
                assert(self.view().trans.contains_key(id));
                assert(self.view().trans[id] == txn_view(*t));
                for i in 0..n
                    invariant
                        n == t.commands@.len(),
                        self.view().trans.contains_key(id),
                        self.view().trans[id] == txn_view(*t),
                        t.clean,
                        forall|j: int| 0 <= j < i ==> command_runnable(t.commands@[j]@),
                {
                    let c = chars_of(t.commands[i].as_str());
                    let w = split_words(&c);
                    if w.len() < 2 {
                        assert(self.view().trans[id] == txn_view(*t));
                        assert(self.view().trans[id].0[i as int] == t.commands@[i as int]@);
                        assert(crate::text::views(w@).len() == w@.len());
                        assert(!command_runnable(self.view().trans[id].0[i as int]));
                        return false;
                    }
                }
                assert(self.view().trans[id] == txn_view(*t));
                true
            },
            None => true,
        }
    }

    /// Ends transaction `id`: it is closed and no key is watched for it
    /// any more. The proxy calls this once every step of a clean
    /// transaction has run.
    pub fn finish(&mut self, id: i64)
        requires
            old(self).wf(),
        ensures
            final(self).wf(),
            final(self).slave_count() == old(self).slave_count(),
            final(self).view() == finish_spec(old(self).view(), id),
    {
        let _ = self.trans.remove(&id);
        self.watch.remove_value(id);
        assert(self.view().trans =~= old(self).view().trans.remove(id));
    }

    /// Runs transaction `id`. When it is open and clean, answers its
    /// commands as steps, in the order they were queued, and leaves it open
    /// until the proxy has run them and calls `finish`. When a watched key
    /// was written since it was opened, refuses it, and it is closed and
    /// its watches dropped. Refuses a transaction that is not open, with
    /// nothing changed.
    pub fn exec(&mut self, id: i64) -> (r: Result<Vec<TxnStep>, ServiceError>)
        requires
            old(self).wf(),
            old(self).view().trans.contains_key(id) && old(self).view().trans[id].1 ==> forall|
                i: int,
            |
                0 <= i < old(self).view().trans[id].0.len() ==> command_runnable(
                    #[trigger] old(self).view().trans[id].0[i],
                ),
        ensures
            final(self).wf(),
            final(self).slave_count() == old(self).slave_count(),
            !old(self).view().trans.contains_key(id) ==> final(self).view() == old(self).view()
                && r == Err::<Vec<TxnStep>, ServiceError>(ServiceError::NoResult),
            watch_violated(old(self).view(), id) ==> final(self).view() == finish_spec(old(self).view(), id) && r == Err::<
                Vec<TxnStep>,
                ServiceError,
            >(ServiceError::WatchViolated),
            old(self).view().trans.contains_key(id) && old(self).view().trans[id].1 ==> final(self).view() == old(self).view() && r is Ok && r->Ok_0@.len() == old(self).view().trans[id].0.len() && forall|i: int|
                0 <= i < r->Ok_0@.len() ==> step_of(
                    #[trigger] r->Ok_0@[i],
                    old(self).view().trans[id].0[i],
                ),
    {
        let clean = match self.trans.get(&id) {
            Some(t) => {
                assert(old(self).view().trans[id] == txn_view(*t));
                t.clean
            },
            None => {
                return Err(ServiceError::NoResult);
            },
        };
        if !clean {
            self.finish(id);
            return Err(ServiceError::WatchViolated);
        }
        let t = match self.trans.get(&id) {
            Some(t) => t,
            None => {
                return Err(ServiceError::NoResult);
            },
        };
        let mut steps: Vec<TxnStep> = Vec::new();
        let n = t.commands.len();
        let ghost cmds = string_views(t.commands@);
        assert(old(self).view().trans[id] == txn_view(*t));
        assert(cmds == old(self).view().trans[id].0);
        assert forall|j: int| 0 <= j < n implies command_runnable(#[trigger] cmds[j]) by {
            assert(command_runnable(old(self).view().trans[id].0[j]));
        }
        for i in 0..n
            invariant
                n == t.commands@.len(),
                cmds == string_views(t.commands@),
                forall|j: int| 0 <= j < n ==> command_runnable(#[trigger] cmds[j]),
                steps@.len() == i,
                forall|j: int| 0 <= j < i ==> step_of(#[trigger] steps@[j], cmds[j]),
        {
            let c = chars_of(t.commands[i].as_str());
            assert(command_runnable(cmds[i as int]));
            let w = split_words(&c);
            let key = string_of(w[0].as_slice());
            if word_is(&w[1], 'g', 'e', 't') {
                steps.push(TxnStep::Read(key));
            } else {
                let value = string_of(w[1].as_slice());
                steps.push(TxnStep::Write(key, value));
            }
        }
        Ok(steps)
    }
}

/// The values that a transaction answers: the value of each read that
/// found one, in order.
pub open spec fn read_values(reads: Seq<Option<String>>) -> Seq<Seq<char>>
    decreases reads.len(),
{
    if reads.len() == 0 {
        Seq::<Seq<char>>::empty()
    } else {
        match reads.last() {
            Some(v) => read_values(reads.drop_last()).push(v@),
            None => read_values(reads.drop_last()),
        }
    }
}

/// Collects the answer of a transaction from the results of its reads,
/// in order: the values found, the misses left out.
pub fn exec_values(reads: Vec<Option<String>>) -> (r: Vec<String>)
    ensures
        string_views(r@) == read_values(reads@),
{
    let n = reads.len();
    let mut out: Vec<String> = Vec::new();
    assert(reads@.take(0) =~= Seq::<Option<String>>::empty());
    for i in 0..n
        invariant
            n == reads@.len(),
            string_views(out@) == read_values(reads@.take(i as int)),
    {
        assert(reads@.take(i + 1).drop_last() =~= reads@.take(i as int));
        assert(reads@.take(i + 1).last() == reads@[i as int]);
        let ghost before = out@;
        match &reads[i] {
            Some(v) => {
                out.push(v.clone());
                assert(string_views(out@) =~= string_views(before).push(v@));
            },
            None => {},
        }
    }
    assert(reads@.take(n as int) =~= reads@);
    out
}

/// The answer of reads taken in two runs is the answer of the first run
/// followed by that of the second: no value found depends on the values
/// found before it.
pub proof fn lemma_read_values_concat(a: Seq<Option<String>>, b: Seq<Option<String>>)
    ensures
        read_values(a + b) == read_values(a) + read_values(b),
    decreases b.len(),
{
    if b.len() == 0 {
        assert(a + b =~= a);
        assert(read_values(a) + read_values(b) =~= read_values(a));
    } else {
        let b0 = b.drop_last();
        lemma_read_values_concat(a, b0);
        assert((a + b).drop_last() =~= a + b0);
        assert((a + b).last() == b.last());
        match b.last() {
            Some(v) => {
                assert(read_values(a) + read_values(b0).push(v@) =~= (read_values(a) + read_values(
                    b0,
                )).push(v@));
            },
            None => {},
        }
    }
}

/// A read that found a value answers that value; a read that found none
/// answers nothing.
pub proof fn lemma_read_values_single(x: Option<String>)
    ensures
        x matches Some(v) ==> read_values(seq![x]) == seq![v@],
        x is None ==> read_values(seq![x]).len() == 0,
{
    let s = seq![x];
    let e = Seq::<Option<String>>::empty();
    assert(s.drop_last() =~= e);
    assert(read_values(e).len() == 0);
    assert(read_values(s.drop_last()).len() == 0);
    assert(s.last() == x);
    match x {
        Some(v) => {
            assert(read_values(s) == read_values(s.drop_last()).push(v@));
            assert(read_values(s) =~= seq![v@]);
        },
        None => {
            assert(read_values(s) == read_values(s.drop_last()));
        },
    }
}

/// When every read found a value, the answer is exactly those values, one
/// per read, in order.
pub proof fn lemma_read_values_all_found(reads: Seq<Option<String>>)
    requires
        forall|i: int| 0 <= i < reads.len() ==> (#[trigger] reads[i]) is Some,
    ensures
        read_values(reads).len() == reads.len(),
        forall|i: int| 0 <= i < reads.len() ==> read_values(reads)[i] == (#[trigger] reads[i])->Some_0@,
    decreases reads.len(),
{
    if reads.len() > 0 {
        let r0 = reads.drop_last();
        assert forall|i: int| 0 <= i < r0.len() implies (#[trigger] r0[i]) is Some by {
            assert(r0[i] == reads[i]);
        }
        lemma_read_values_all_found(r0);
        assert(reads[reads.len() - 1] is Some);
        assert forall|i: int| 0 <= i < reads.len() implies read_values(reads)[i] == (
        #[trigger] reads[i])->Some_0@ by {
            if i < reads.len() - 1 {
                assert(r0[i] == reads[i]);
            }
        }
    }
}

} // verus!

verus! {

/// The state after queueing each of `cmds`, in order, in transaction
/// `id`.
pub open spec fn queue_all(v: ProxyView, id: i64, cmds: Seq<Seq<char>>) -> ProxyView
    decreases cmds.len(),
{
    if cmds.len() == 0 {
        v
    } else {
        queue_spec(queue_all(v, id, cmds.drop_last()), id, cmds.last())
    }
}

/// Queued commands keep their order: queueing commands in a transaction
/// that was not open leaves it open, clean, with exactly those commands
/// in the order they were queued; other transactions and the watches are
/// left as they were.
pub proof fn lemma_queue_in_order(v: ProxyView, id: i64, cmds: Seq<Seq<char>>)
    requires
        !v.trans.contains_key(id),
        cmds.len() > 0,
    ensures
        queue_all(v, id, cmds).trans.contains_key(id),
        queue_all(v, id, cmds).trans[id] == (cmds, true),
        queue_all(v, id, cmds).trans.remove(id) == v.trans.remove(id),
        queue_all(v, id, cmds).watch == v.watch,
    decreases cmds.len(),
{
    let front = cmds.drop_last();
    let c = cmds.last();
    assert(queue_all(v, id, cmds) == queue_spec(queue_all(v, id, front), id, c));
    if cmds.len() == 1 {
        assert(front.len() == 0);
        assert(queue_all(v, id, front) == v);
        assert(seq![c] =~= cmds);
        let q = queue_spec(v, id, c);
        assert(q.trans == v.trans.insert(id, (seq![c], true)));
        assert(q.watch == v.watch);
        assert(q.trans.remove(id) =~= v.trans.remove(id));
    } else {
        lemma_queue_in_order(v, id, front);
        let w = queue_all(v, id, front);
        assert(w.trans.contains_key(id) && w.trans[id] == (front, true));
        let q = queue_spec(w, id, c);
        assert(q.trans == w.trans.insert(id, (front.push(c), true)));
        assert(front.push(c) =~= cmds);
        assert(q.watch == w.watch);
        assert(q.trans.remove(id) =~= w.trans.remove(id));
    }
}

/// Watching guards a transaction: a write to a watched key, made after
/// the watch, leaves the transaction open but no longer clean, so that
/// running it is refused; and commands queued after that are dropped.
pub proof fn lemma_watched_write_refuses(v: ProxyView, id: i64, key: Seq<char>, cmd: Seq<char>)
    ensures
        note_write_spec(watch_spec(v, id, key), key).trans.contains_key(id),
        !note_write_spec(watch_spec(v, id, key), key).trans[id].1,
        queue_spec(note_write_spec(watch_spec(v, id, key), key), id, cmd) == note_write_spec(
            watch_spec(v, id, key),
            key,
        ),
{
}

/// Running a transaction ends it: it is no longer open and no key is
/// watched for it; other transactions are left as they were.
pub proof fn lemma_finish_forgets(v: ProxyView, id: i64)
    ensures
        !finish_spec(v, id).trans.contains_key(id),
        forall|k: Seq<char>| #[trigger] finish_spec(v, id).watch.contains_key(k) ==> finish_spec(
            v,
            id,
        ).watch[k] != id,
        forall|other: i64| other != id ==> #[trigger] finish_spec(v, id).trans.contains_key(other)
            == v.trans.contains_key(other),
{
}

/// A queued write runs as that write: the command for key `k` and value
/// `v` — both non-empty and free of whitespace, `v` other than `get` —
/// can be run, and its step writes `v` under `k`.
pub proof fn lemma_write_command_step(k: Seq<char>, v: Seq<char>, step: TxnStep)
    requires
        k.len() > 0,
        v.len() > 0,
        crate::text::no_ws(k),
        crate::text::no_ws(v),
        v != word_get(),
    ensures
        command_runnable(write_command(k, v)),
        step_of(step, write_command(k, v)) <==> (step matches TxnStep::Write(a, b) && a@ == k
            && b@ == v),
{
    assert(crate::text::is_ws(' '));
    crate::text::lemma_words_append(k, ' ', v);
    crate::text::lemma_words_single(k);
    crate::text::lemma_words_single(v);
    assert(seq![k] + seq![v] =~= seq![k, v]);
}

/// A queued read runs as that read: the command for key `k` — non-empty
/// and free of whitespace — can be run, and its step reads `k`.
pub proof fn lemma_read_command_step(k: Seq<char>, step: TxnStep)
    requires
        k.len() > 0,
        crate::text::no_ws(k),
    ensures
        command_runnable(read_command(k)),
        step_of(step, read_command(k)) <==> (step matches TxnStep::Read(a) && a@ == k),
{
    assert(crate::text::is_ws(' '));
    crate::text::lemma_words_append(k, ' ', word_get());
    crate::text::lemma_words_single(k);
    assert(crate::text::no_ws(word_get()));
    crate::text::lemma_words_single(word_get());
    assert(seq![k] + seq![word_get()] =~= seq![k, word_get()]);
}

} // verus!

verus! {

/// A request that changes the proxy's transaction state.
pub enum ProxyOp {
    /// A write to the key, sent through the proxy (`set`).
    Write(Seq<char>),
    /// A command queued in a transaction (`set_trans`, `get_trans`).
    Queue(i64, Seq<char>),
    /// A key watched for a transaction (`watch`).
    Watch(i64, Seq<char>),
    /// A transaction that ends (`exec` refusing it, or `finish`).
    End(i64),
}

/// The state after one request.
pub open spec fn apply_op(v: ProxyView, op: ProxyOp) -> ProxyView {
    match op {
        ProxyOp::Write(k) => note_write_spec(v, k),
        ProxyOp::Queue(id, cmd) => queue_spec(v, id, cmd),
        ProxyOp::Watch(id, k) => watch_spec(v, id, k),
        ProxyOp::End(id) => finish_spec(v, id),
    }
}

/// The state after the requests, in order.
pub open spec fn apply_ops(v: ProxyView, ops: Seq<ProxyOp>) -> ProxyView
    decreases ops.len(),
{
    if ops.len() == 0 {
        v
    } else {
        apply_ops(apply_op(v, ops[0]), ops.drop_first())
    }
}

/// The request neither ends transaction `id` nor hands the watch of `k`
/// to another transaction.
pub open spec fn keeps_watch(op: ProxyOp, id: i64, k: Seq<char>) -> bool {
    match op {
        ProxyOp::End(j) => j != id,
        ProxyOp::Watch(j, k2) => k2 != k || j == id,
        _ => true,
    }
}

/// The request does not end transaction `id`.
pub open spec fn keeps_txn(op: ProxyOp, id: i64) -> bool {
    match op {
        ProxyOp::End(j) => j != id,
        _ => true,
    }
}

/// Watching a key changes no transaction: every open transaction keeps
/// its queued commands and its cleanliness; the key is now watched for
/// `id`, and every other key keeps its watch.
pub proof fn lemma_watch_keeps_transactions(v: ProxyView, id: i64, k: Seq<char>)
    ensures
        watch_spec(v, id, k).trans == v.trans,
        watch_spec(v, id, k).watch.contains_key(k),
        watch_spec(v, id, k).watch[k] == id,
        forall|k2: Seq<char>|
            k2 != k ==> (#[trigger] watch_spec(v, id, k).watch.contains_key(k2) == v.watch.contains_key(
                k2,
            ) && (v.watch.contains_key(k2) ==> watch_spec(v, id, k).watch[k2] == v.watch[k2])),
{
}

/// A watch lasts until its transaction ends or another transaction
/// watches the key.
pub proof fn lemma_watch_kept(v: ProxyView, id: i64, k: Seq<char>, ops: Seq<ProxyOp>)
    requires
        v.watch.contains_key(k),
        v.watch[k] == id,
        forall|i: int| 0 <= i < ops.len() ==> keeps_watch(#[trigger] ops[i], id, k),
    ensures
        apply_ops(v, ops).watch.contains_key(k),
        apply_ops(v, ops).watch[k] == id,
    decreases ops.len(),
{
    if ops.len() > 0 {
        let v1 = apply_op(v, ops[0]);
        assert(keeps_watch(ops[0], id, k));
        assert(v1.watch.contains_key(k) && v1.watch[k] == id);
        let rest = ops.drop_first();
        assert forall|i: int| 0 <= i < rest.len() implies keeps_watch(#[trigger] rest[i], id, k) by {
            assert(rest[i] == ops[i + 1]);
        }
        lemma_watch_kept(v1, id, k, rest);
    }
}

/// A transaction that is no longer clean stays so, open, until it ends.
pub proof fn lemma_dirty_kept(v: ProxyView, id: i64, ops: Seq<ProxyOp>)
    requires
        v.trans.contains_key(id),
        !v.trans[id].1,
        forall|i: int| 0 <= i < ops.len() ==> keeps_txn(#[trigger] ops[i], id),
    ensures
        apply_ops(v, ops).trans.contains_key(id),
        !apply_ops(v, ops).trans[id].1,
    decreases ops.len(),
{
    if ops.len() > 0 {
        let v1 = apply_op(v, ops[0]);
        assert(keeps_txn(ops[0], id));
        assert(v1.trans.contains_key(id) && !v1.trans[id].1);
        let rest = ops.drop_first();
        assert forall|i: int| 0 <= i < rest.len() implies keeps_txn(#[trigger] rest[i], id) by {
            assert(rest[i] == ops[i + 1]);
        }
        lemma_dirty_kept(v1, id, rest);
    }
}

/// Watching guards a transaction: once `k` is watched for transaction
/// `id`, a write to `k` — after any requests that neither end `id` nor
/// hand the watch of `k` to another transaction — leaves `id` open but
/// not clean through any later requests that do not end it; so running
/// it is refused and none of its commands, queued before or after the
/// write, is run.
pub proof fn lemma_watch_guards(
    v: ProxyView,
    id: i64,
    k: Seq<char>,
    before: Seq<ProxyOp>,
    after: Seq<ProxyOp>,
)
    requires
        forall|i: int| 0 <= i < before.len() ==> keeps_watch(#[trigger] before[i], id, k),
        forall|i: int| 0 <= i < after.len() ==> keeps_txn(#[trigger] after[i], id),
    ensures
        watch_violated(apply_ops(note_write_spec(apply_ops(watch_spec(v, id, k), before), k), after), id),
{
    let w = watch_spec(v, id, k);
    lemma_watch_kept(w, id, k, before);
    let v1 = apply_ops(w, before);
    let v2 = note_write_spec(v1, k);
    assert(v2.trans.contains_key(id) && !v2.trans[id].1);
    lemma_dirty_kept(v2, id, after);
}

} // verus!
