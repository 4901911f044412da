//! The append-only file: the master turns each write request into a
//! record line, buffers the lines, hands them out to be written, and on
//! start-up replays the file into its table.
use vstd::prelude::*;
use crate::error::ServiceError;
use crate::records::{
    del_record, set_record, get_record, word_set, word_get, word_is, remove_pieces, replay_run,
    replay_panics, replay_step, ReplayStep, word_del,
};
use crate::regex_api::{regex_captures, regex_captures_of, captures_view};
use crate::store::{Db, Table};
use crate::text::{
    views, split_char, split_on, split_on_seq, split_sep, split_words, words, chars_of, string_of,
    push_all, prepend_first,
};

verus! {

/// The pattern that finds the request in its debug text.
pub const REQUEST_PATTERN: &'static str = "(DelRequest|SetRequest|GetRequest) \\{[^}]*\\}";

/// The pattern that finds the keys of a delete request.
pub const DEL_PATTERN: &'static str = "keys:\\s*\\[([^\\]]+)\\]";

/// The pattern that finds the key and value of a set request.
pub const SET_PATTERN: &'static str = "key: ([^,]+), value: ([^\\ ]+)";

/// The pattern that finds the key of a get request.
pub const GET_PATTERN: &'static str = "key: ([^\\ ]+)";

/// The kind of request that a debug text holds.
#[derive(Debug, Clone, Copy, PartialEq, Eq, Structural)]
pub enum RequestKind {
    DelRequest,
    SetRequest,
    GetRequest,
}

/// The kind named by the first three characters of a request's text.
pub open spec fn request_kind(req: Seq<char>) -> Option<RequestKind> {
    if req.len() >= 3 && req.take(3) == seq!['D', 'e', 'l'] {
        Some(RequestKind::DelRequest)
    } else if req.len() >= 3 && req.take(3) == seq!['S', 'e', 't'] {
        Some(RequestKind::SetRequest)
    } else if req.len() >= 3 && req.take(3) == seq!['G', 'e', 't'] {
        Some(RequestKind::GetRequest)
    } else {
        None
    }
}

/// The pattern used to read the arguments of a request of kind `k`.
pub open spec fn kind_pattern(k: RequestKind) -> Seq<char> {
    match k {
        RequestKind::DelRequest => DEL_PATTERN@,
        RequestKind::SetRequest => SET_PATTERN@,
        RequestKind::GetRequest => GET_PATTERN@,
    }
}

/// The text of group `i` of the captures `caps`, if it matched.
pub open spec fn group_text(caps: Option<Seq<Option<Seq<char>>>>, i: int) -> Option<Seq<char>> {
    match caps {
        Some(g) => if 0 <= i < g.len() {
            g[i]
        } else {
            None
        },
        None => None,
    }
}

/// Dropping the first and last byte of `s` cuts it at character
/// boundaries and leaves a well-formed range: `s` has at least two
/// characters and both its first and last are one-byte characters.
pub open spec fn unquote_ok(s: Seq<char>) -> bool {
    s.len() >= 2 && (s[0] as u32) < 0x80 && (s[s.len() - 1] as u32) < 0x80
}

/// `s` without its first and last character.
pub open spec fn unquote(s: Seq<char>) -> Seq<char> {
    s.subrange(1, s.len() - 1)
}

/// The separator between the quoted keys of a delete request: `", "`.
pub open spec fn key_separator() -> Seq<char> {
    seq!['"', ',', ' ', '"']
}

/// The record line can be made from the captures: each group it reads
/// took part in the match and can be unquoted.
pub open spec fn log_line_defined(k: RequestKind, caps: Option<Seq<Option<Seq<char>>>>) -> bool {
    match k {
        RequestKind::DelRequest => caps is None || (group_text(caps, 1) matches Some(raw)
            && unquote_ok(raw)),
        RequestKind::SetRequest => caps is None || (group_text(caps, 1) matches Some(key)
            && group_text(caps, 2) matches Some(value) && unquote_ok(key) && unquote_ok(value)),
        RequestKind::GetRequest => caps is None || (group_text(caps, 1) matches Some(key) && unquote_ok(
            key,
        )),
    }
}

/// The record line for a request of kind `k` whose arguments matched as
/// `caps`: the keys of a delete are its quoted list with the outer quotes
/// dropped, split at `", "`; a request whose pattern did not match (such
/// as a delete of no key) gives the bare command word.
pub open spec fn log_line_of(k: RequestKind, caps: Option<Seq<Option<Seq<char>>>>) -> Seq<char> {
    match k {
        RequestKind::DelRequest => if caps is None {
            word_del()
        } else {
            del_record(split_sep(unquote(group_text(caps, 1).unwrap()), key_separator()))
        },
        RequestKind::SetRequest => if caps is None {
            word_set()
        } else {
            set_record(unquote(group_text(caps, 1).unwrap()), unquote(group_text(caps, 2).unwrap()))
        },
        RequestKind::GetRequest => if caps is None {
            word_get()
        } else {
            get_record(unquote(group_text(caps, 1).unwrap()))
        },
    }
}

/// The record line for the debug text of a request, or `None` where no
/// line can be made: no request is found in the text, or the groups the
/// line needs cannot be read.
pub open spec fn parse_spec(text: Seq<char>) -> Option<Seq<char>> {
    match group_text(regex_captures_of(REQUEST_PATTERN@, text), 0) {
        Some(req) => match request_kind(req) {
            Some(k) => {
                let caps = regex_captures_of(kind_pattern(k), req);
                if log_line_defined(k, caps) {
                    Some(log_line_of(k, caps))
                } else {
                    None
                }
            },
            None => None,
        },
        None => None,
    }
}

/// Group `i` of `caps`, if it matched.
fn group_at(caps: &Option<Vec<Option<String>>>, i: usize) -> (r: Option<String>)
    ensures
        match r {
            Some(s) => group_text(captures_view(*caps), i as int) == Some(s@),
            None => group_text(captures_view(*caps), i as int) is None,
        },
{
    match caps {
        Some(v) => {
            if i < v.len() {
                match &v[i] {
                    Some(s) => Some(s.clone()),
                    None => None,
                }
            } else {
                None
            }
        },
        None => None,
    }
}

/// Whether `s` can be unquoted.
fn can_unquote(s: &Vec<char>) -> (r: bool)
    ensures
        r == unquote_ok(s@),
{
    let n = s.len();
    n >= 2 && (s[0] as u32) < 0x80 && (s[n - 1] as u32) < 0x80
}

/// `s` without its first and last character.
fn unquote_chars(s: &Vec<char>) -> (r: Vec<char>)
    requires
        unquote_ok(s@),
    ensures
        r@ == unquote(s@),
{
    let n = s.len();
    let mut out: Vec<char> = Vec::new();
    for i in 1..n - 1
        invariant
            n == s@.len(),
            n >= 2,
            out@ == s@.subrange(1, i as int),
    {
        out.push(s[i]);
        assert(s@.subrange(1, i + 1) =~= s@.subrange(1, i as int).push(s@[i as int]));
    }
    out
}

/// The kind of request named by the start of `req`.
pub fn request_kind_of(req: &Vec<char>) -> (r: Option<RequestKind>)
    ensures
        r == request_kind(req@),
{
    if req.len() >= 3 {
        let ghost p = req@.take(3);
        if req[0] == 'D' && req[1] == 'e' && req[2] == 'l' {
            assert(p =~= seq!['D', 'e', 'l']);
            return Some(RequestKind::DelRequest);
        }
        if req[0] == 'S' && req[1] == 'e' && req[2] == 't' {
            assert(p =~= seq!['S', 'e', 't']);
            assert(p != seq!['D', 'e', 'l']);
            return Some(RequestKind::SetRequest);
        }
        if req[0] == 'G' && req[1] == 'e' && req[2] == 't' {
            assert(p =~= seq!['G', 'e', 't']);
            assert(p != seq!['D', 'e', 'l']);
            assert(p != seq!['S', 'e', 't']);
            return Some(RequestKind::GetRequest);
        }
        assert(p[0] == req@[0] && p[1] == req@[1] && p[2] == req@[2]);
    }
    None
}

/// The record line for the captures, when it can be made.
pub fn try_log_line(k: RequestKind, caps: &Option<Vec<Option<String>>>) -> (r: Option<String>)
    ensures
        match r {
            Some(s) => log_line_defined(k, captures_view(*caps)) && s@ == log_line_of(
                k,
                captures_view(*caps),
            ),
            None => !log_line_defined(k, captures_view(*caps)),
        },
{
    let ghost cv = captures_view(*caps);
    match k {
        RequestKind::DelRequest => {
            if caps.is_none() {
                let mut v: Vec<char> = Vec::new();
                v.push('d');
                v.push('e');
                v.push('l');
                assert(v@ =~= word_del());
                return Some(string_of(v.as_slice()));
            }
            match group_at(caps, 1) {
                Some(raw) => {
                    let rc = chars_of(raw.as_str());
                    if !can_unquote(&rc) {
                        return None;
                    }
                    let inner = unquote_chars(&rc);
                    let mut sep: Vec<char> = Vec::new();
                    sep.push('"');
                    sep.push(',');
                    sep.push(' ');
                    sep.push('"');
                    assert(sep@ =~= key_separator());
                    let keys = split_on_seq(&inner, &sep);
                    Some(del_line(&keys))
                },
                None => None,
            }
        },
        RequestKind::SetRequest => {
            if caps.is_none() {
                let mut v: Vec<char> = Vec::new();
                v.push('s');
                v.push('e');
                v.push('t');
                assert(v@ =~= word_set());
                return Some(string_of(v.as_slice()));
            }
            let g1 = group_at(caps, 1);
            let g2 = group_at(caps, 2);
            match (g1, g2) {
                (Some(a), Some(b)) => {
                    let ac = chars_of(a.as_str());
                    let bc = chars_of(b.as_str());
                    if !can_unquote(&ac) || !can_unquote(&bc) {
                        return None;
                    }
                    let key = unquote_chars(&ac);
                    let value = unquote_chars(&bc);
                    let mut v: Vec<char> = Vec::new();
                    v.push('s');
                    v.push('e');
                    v.push('t');
                    v.push(' ');
                    push_all(&mut v, key.as_slice());
                    v.push(' ');
                    push_all(&mut v, value.as_slice());
                    assert(v@ =~= set_record(key@, value@));
                    Some(string_of(v.as_slice()))
                },
                _ => None,
            }
        },
        RequestKind::GetRequest => {
            if caps.is_none() {
                let mut v: Vec<char> = Vec::new();
                v.push('g');
                v.push('e');
                v.push('t');
                assert(v@ =~= word_get());
                return Some(string_of(v.as_slice()));
            }
            match group_at(caps, 1) {
                Some(a) => {
                    let ac = chars_of(a.as_str());
                    if !can_unquote(&ac) {
                        return None;
                    }
                    let key = unquote_chars(&ac);
                    let mut v: Vec<char> = Vec::new();
                    v.push('g');
                    v.push('e');
                    v.push('t');
                    v.push(' ');
                    push_all(&mut v, key.as_slice());
                    assert(v@ =~= get_record(key@));
                    Some(string_of(v.as_slice()))
                },
                None => None,
            }
        },
    }
}

/// The record `del` followed by ` <key>` for each key.
fn del_line(keys: &Vec<Vec<char>>) -> (r: String)
    ensures
        r@ == del_record(views(keys@)),
{
    let mut v: Vec<char> = Vec::new();
    v.push('d');
    v.push('e');
    v.push('l');
    let ghost ks = views(keys@);
    assert(ks.take(0) =~= Seq::<Seq<char>>::empty());
    assert(v@ =~= word_del());
    let n = keys.len();
    for i in 0..n
        invariant
            n == keys@.len(),
            ks == views(keys@),
            v@ == del_record(ks.take(i as int)),
    {
        v.push(' ');
        push_all(&mut v, keys[i].as_slice());
        assert(ks.take(i + 1).drop_last() =~= ks.take(i as int));
        assert(ks.take(i + 1).last() == keys@[i as int]@);
    }
    assert(ks.take(n as int) =~= ks);
    string_of(v.as_slice())
}

/// The append-only file of a master: where it lies, and the record lines
/// not yet handed out to be written.
pub struct AOFManager {
    file_name: String,
    buffer: Vec<char>,
}

impl AOFManager {
    /// Where the file lies.
    pub closed spec fn path(&self) -> Seq<char> {
        self.file_name@
    }

    /// The buffered text: each record line followed by a newline.
    pub closed spec fn buffered(&self) -> Seq<char> {
        self.buffer@
    }

    /// A manager for the file `file_name` in the directory `base`, with
    /// nothing buffered.
    pub fn new(base: &str, file_name: &str) -> (r: AOFManager)
        ensures
            r.path() == base@ + seq!['/'] + file_name@,
            r.buffered() == Seq::<char>::empty(),
    {
        let mut p = chars_of(base);
        p.push('/');
        let f = chars_of(file_name);
        push_all(&mut p, f.as_slice());
        assert(p@ =~= base@ + seq!['/'] + file_name@);
        AOFManager { file_name: string_of(p.as_slice()), buffer: Vec::new() }
    }

    /// Where the file lies.
    pub fn file_name(&self) -> (r: &str)
        ensures
            r@ == self.path(),
    {
        self.file_name.as_str()
    }

    /// The buffered text.
    pub fn pending(&self) -> (r: String)
        ensures
            r@ == self.buffered(),
    {
        string_of(self.buffer.as_slice())
    }

    /// The record line for the debug text of a request (such as
    /// `SetRequest { key: "k", value: "v" }`): `set k v`, `del k1 k2`,
    /// `get k`. `Err` where no line can be made.
    pub fn parse(req_str: &str) -> (r: Result<String, ()>)
        ensures
            match r {
                Ok(s) => parse_spec(req_str@) == Some(s@),
                Err(_) => parse_spec(req_str@) is None,
            },
    {
        let outer = regex_captures(REQUEST_PATTERN, req_str);
        let req = match group_at(&outer, 0) {
            Some(r) => r,
            None => return Err(()),
        };
        let rc = chars_of(req.as_str());
        let kind = match request_kind_of(&rc) {
            Some(k) => k,
            None => return Err(()),
        };
        let pattern = match kind {
            RequestKind::DelRequest => DEL_PATTERN,
            RequestKind::SetRequest => SET_PATTERN,
            RequestKind::GetRequest => GET_PATTERN,
        };
        let caps = regex_captures(pattern, req.as_str());
        match try_log_line(kind, &caps) {
            Some(line) => Ok(line),
            None => Err(()),
        }
    }

    /// The record line for a request of kind `k` whose arguments matched
    /// as `caps` (the groups of its kind's pattern).
    pub fn log_line(k: RequestKind, caps: &Option<Vec<Option<String>>>) -> (r: String)
        requires
            log_line_defined(k, captures_view(*caps)),
        ensures
            r@ == log_line_of(k, captures_view(*caps)),
    {
        match try_log_line(k, caps) {
            Some(s) => s,
            None => {
                assert(false);
                String::new()
            },
        }
    }

    /// Buffers the record line of a request, followed by a newline;
    /// `Err`, with nothing buffered, where no line can be made.
    pub fn append(&mut self, request_text: &str) -> (r: Result<(), ()>)
        ensures
            final(self).path() == old(self).path(),
            match parse_spec(request_text@) {
                Some(line) => r is Ok && final(self).buffered() == old(self).buffered() + line
                    + seq!['\n'],
                None => r is Err && final(self).buffered() == old(self).buffered(),
            },
    {
        match Self::parse(request_text) {
            Ok(line) => {
                let lc = chars_of(line.as_str());
                push_all(&mut self.buffer, lc.as_slice());
                self.buffer.push('\n');
                Ok(())
            },
            Err(_) => Err(()),
        }
    }

    /// Hands out the buffered text to be written, and empties the buffer.
    pub fn flush(&mut self) -> (r: String)
        ensures
            r@ == old(self).buffered(),
            final(self).buffered() == Seq::<char>::empty(),
            final(self).path() == old(self).path(),
    {
        let out = string_of(self.buffer.as_slice());
        self.buffer = Vec::new();
        out
    }

    /// Whether replaying `contents` would meet a `set` line without key or
    /// value before it stops (a file that is not served).
    pub fn contents_is_malformed(contents: &str) -> (r: bool)
        ensures
            r == replay_panics(split_char(contents@, '\n')),
    {
        let text = chars_of(contents);
        let lines = split_on(&text, '\n');
        let n = lines.len();
        let ghost ls = views(lines@);
        assert(ls.skip(0) =~= ls);
        for i in 0..n
            invariant
                n == lines@.len(),
                ls == views(lines@),
                ls == split_char(contents@, '\n'),
                replay_panics(ls) == replay_panics(ls.skip(i as int)),
        {
            assert(ls.skip(i as int).drop_first() =~= ls.skip(i + 1));
            assert(ls.skip(i as int)[0] == lines@[i as int]@);
            let w = split_words(&lines[i]);
            if w.len() == 0 {
                return false;
            }
            if word_is(&w[0], 's', 'e', 't') {
                if w.len() < 3 {
                    return true;
                }
            } else if !word_is(&w[0], 'd', 'e', 'l') {
                return false;
            }
        }
        assert(ls.skip(n as int) =~= Seq::<Seq<char>>::empty());
        false
    }

    /// Replays the contents of the file into `db`, line by line: `set key
    /// value` stores, `del key...` removes; a blank line ends the replay
    /// with success; a line with another command word ends it with an
    /// error, the lines before it applied.
    pub fn init_db(&self, contents: &str, db: &mut Db) -> (r: Result<(), ServiceError>)
        requires
            !replay_panics(split_char(contents@, '\n')),
        ensures
            final(db)@ == replay_run(old(db)@, split_char(contents@, '\n')).0,
            match r {
                Ok(_) => replay_run(old(db)@, split_char(contents@, '\n')).1,
                Err(e) => !replay_run(old(db)@, split_char(contents@, '\n')).1 && e
                    == ServiceError::UnrecognizedAofLine,
            },
    {
        let text = chars_of(contents);
        let lines = split_on(&text, '\n');
        let n = lines.len();
        let ghost ls = views(lines@);
        assert(ls.skip(0) =~= ls);
        for i in 0..n
            invariant
                n == lines@.len(),
                ls == views(lines@),
                ls == split_char(contents@, '\n'),
                replay_run(old(db)@, ls) == replay_run(db@, ls.skip(i as int)),
                !replay_panics(ls.skip(i as int)),
        {
            let ghost rest = ls.skip(i as int);
            assert(rest.drop_first() =~= ls.skip(i + 1));
            assert(rest[0] == lines@[i as int]@);
            let w = split_words(&lines[i]);
            if w.len() == 0 {
                return Ok(());
            }
            if word_is(&w[0], 's', 'e', 't') {
                let key = string_of(w[1].as_slice());
                let value = string_of(w[2].as_slice());
                db.set(key, value);
            } else if word_is(&w[0], 'd', 'e', 'l') {
                remove_pieces(db, &w, 1);
            } else {
                return Err(ServiceError::UnrecognizedAofLine);
            }
        }
        assert(ls.skip(n as int) =~= Seq::<Seq<char>>::empty());
        Ok(())
    }
}

} // verus!

verus! {

/// A write that the master logs.
pub enum LoggedWrite {
    /// `set key value`.
    Put(Seq<char>, Seq<char>),
    /// `del key...`.
    Remove(Seq<Seq<char>>),
}

/// The record line of a logged write.
pub open spec fn write_record(w: LoggedWrite) -> Seq<char> {
    match w {
        LoggedWrite::Put(k, v) => set_record(k, v),
        LoggedWrite::Remove(ks) => del_record(ks),
    }
}

/// The table after a write.
pub open spec fn apply_write(m: Table, w: LoggedWrite) -> Table {
    match w {
        LoggedWrite::Put(k, v) => m.insert(k, v),
        LoggedWrite::Remove(ks) => crate::store::remove_each(m, ks),
    }
}

/// The table after the writes, in order.
pub open spec fn apply_writes(m: Table, ws: Seq<LoggedWrite>) -> Table
    decreases ws.len(),
{
    if ws.len() == 0 {
        m
    } else {
        apply_writes(apply_write(m, ws[0]), ws.drop_first())
    }
}

/// The file text that logging the writes in order produces: each record
/// line followed by a newline.
pub open spec fn log_of(ws: Seq<LoggedWrite>) -> Seq<char>
    decreases ws.len(),
{
    if ws.len() == 0 {
        Seq::<char>::empty()
    } else {
        write_record(ws[0]) + seq!['\n'] + log_of(ws.drop_first())
    }
}

/// Every key and value of the write is non-empty and free of whitespace.
pub open spec fn write_plain(w: LoggedWrite) -> bool {
    match w {
        LoggedWrite::Put(k, v) => k.len() > 0 && v.len() > 0 && crate::text::no_ws(k)
            && crate::text::no_ws(v),
        LoggedWrite::Remove(ks) => crate::records::all_plain(ks),
    }
}

/// Logging one more write appends its line to the text.
pub proof fn lemma_log_of_push(ws: Seq<LoggedWrite>, w: LoggedWrite)
    ensures
        log_of(ws.push(w)) == log_of(ws) + write_record(w) + seq!['\n'],
    decreases ws.len(),
{
    if ws.len() == 0 {
        assert(ws.push(w).drop_first() =~= Seq::<LoggedWrite>::empty());
        assert(log_of(ws.push(w).drop_first()) == Seq::<char>::empty());
        assert(ws.push(w)[0] == w);
        assert(log_of(ws) == Seq::<char>::empty());
        assert(log_of(ws.push(w)) =~= log_of(ws) + write_record(w) + seq!['\n']);
    } else {
        lemma_log_of_push(ws.drop_first(), w);
        assert(ws.push(w).drop_first() =~= ws.drop_first().push(w));
        assert(ws.push(w)[0] == ws[0]);
        assert(log_of(ws.push(w)) =~= log_of(ws) + write_record(w) + seq!['\n']);
    }
}

proof fn lemma_no_ws_lacks_newline(s: Seq<char>)
    requires
        crate::text::no_ws(s),
    ensures
        crate::text::lacks(s, '\n'),
{
    assert forall|i: int| 0 <= i < s.len() implies #[trigger] s[i] != '\n' by {
        assert(!crate::text::is_ws(s[i]));
    }
}

/// The lines of the log: one record per write, then an empty line.
proof fn lemma_log_lines(ws: Seq<LoggedWrite>)
    requires
        forall|i: int| 0 <= i < ws.len() ==> write_plain(#[trigger] ws[i]),
    ensures
        split_char(log_of(ws), '\n') == ws.map_values(|w: LoggedWrite| write_record(w)) + seq![
            Seq::<char>::empty(),
        ],
    decreases ws.len(),
{
    if ws.len() == 0 {
        assert(ws.map_values(|w: LoggedWrite| write_record(w)) + seq![Seq::<char>::empty()]
            =~= seq![Seq::<char>::empty()]);
    } else {
        let rest = ws.drop_first();
        assert forall|i: int| 0 <= i < rest.len() implies write_plain(#[trigger] rest[i]) by {
            assert(rest[i] == ws[i + 1]);
        }
        lemma_log_lines(rest);
        let w = ws[0];
        assert(write_plain(ws[0]));
        match w {
            LoggedWrite::Put(k, v) => {
                lemma_no_ws_lacks_newline(k);
                lemma_no_ws_lacks_newline(v);
                crate::records::lemma_set_record_one_line(k, v);
            },
            LoggedWrite::Remove(ks) => {
                assert(crate::records::all_lack(ks, '\n')) by {
                    assert forall|i: int| 0 <= i < ks.len() implies crate::text::lacks(
                        #[trigger] ks[i],
                        '\n',
                    ) by {
                        lemma_no_ws_lacks_newline(ks[i]);
                    }
                }
                crate::records::lemma_del_record_one_line(ks);
            },
        }
        crate::text::lemma_split_char_append(write_record(w), log_of(rest), '\n');
        crate::text::lemma_split_char_none(write_record(w), '\n');
        assert(ws.map_values(|w: LoggedWrite| write_record(w)) + seq![Seq::<char>::empty()]
            =~= seq![write_record(w)] + (rest.map_values(|w: LoggedWrite| write_record(w))
            + seq![Seq::<char>::empty()]));
    }
}

/// Replaying lines made of the records of plain writes and a final empty
/// line applies the writes, in order, and succeeds.
proof fn lemma_replay_records(m: Table, ws: Seq<LoggedWrite>)
    requires
        forall|i: int| 0 <= i < ws.len() ==> write_plain(#[trigger] ws[i]),
    ensures
        !replay_panics(
            ws.map_values(|w: LoggedWrite| write_record(w)) + seq![Seq::<char>::empty()],
        ),
        replay_run(m, ws.map_values(|w: LoggedWrite| write_record(w)) + seq![Seq::<char>::empty()])
            == (apply_writes(m, ws), true),
    decreases ws.len(),
{
    let lines = ws.map_values(|w: LoggedWrite| write_record(w)) + seq![Seq::<char>::empty()];
    if ws.len() == 0 {
        assert(lines[0] =~= Seq::<char>::empty());
        assert(words(lines[0]) =~= Seq::<Seq<char>>::empty());
    } else {
        let rest = ws.drop_first();
        assert forall|i: int| 0 <= i < rest.len() implies write_plain(#[trigger] rest[i]) by {
            assert(rest[i] == ws[i + 1]);
        }
        lemma_replay_records(apply_write(m, ws[0]), rest);
        assert(lines.drop_first() =~= rest.map_values(|w: LoggedWrite| write_record(w)) + seq![
            Seq::<char>::empty(),
        ]);
        assert(lines[0] == write_record(ws[0]));
        assert(write_plain(ws[0]));
        assert(word_del() != word_set()) by {
            assert(word_del()[0] != word_set()[0]);
        }
        match ws[0] {
            LoggedWrite::Put(k, v) => {
                crate::records::lemma_set_record_words(k, v);
                assert(replay_step(m, lines[0]) == ReplayStep::Apply(m.insert(k, v)));
                assert(replay_step(Table::empty(), lines[0]) is Apply);
            },
            LoggedWrite::Remove(ks) => {
                crate::records::lemma_del_record_words(ks);
                let w = words(lines[0]);
                assert(w.skip(1) =~= ks);
                assert(replay_step(m, lines[0]) == ReplayStep::Apply(
                    crate::store::remove_each(m, ks),
                ));
                assert(replay_step(Table::empty(), lines[0]) is Apply);
            },
        }
    }
}

/// Recovery from the append-only file: replaying the text that logging a
/// sequence of writes produces — each key and value non-empty and free of
/// whitespace — rebuilds, from the table the log started from, the table
/// that the writes produced, and succeeds.
pub proof fn lemma_replay_restores(m: Table, ws: Seq<LoggedWrite>)
    requires
        forall|i: int| 0 <= i < ws.len() ==> write_plain(#[trigger] ws[i]),
    ensures
        !replay_panics(split_char(log_of(ws), '\n')),
        replay_run(m, split_char(log_of(ws), '\n')) == (apply_writes(m, ws), true),
{
    lemma_log_lines(ws);
    lemma_replay_records(m, ws);
}

/// `s` between double quotes, as a debug text shows a string without
/// characters to escape.
pub open spec fn quoted(s: Seq<char>) -> Seq<char> {
    seq!['"'] + s + seq!['"']
}

/// The record line of a set request whose key and value were read, quoted,
/// by its pattern is `set key value`.
pub proof fn lemma_set_request_line(whole: Seq<char>, key: Seq<char>, value: Seq<char>)
    ensures
        log_line_defined(
            RequestKind::SetRequest,
            Some(seq![Some(whole), Some(quoted(key)), Some(quoted(value))]),
        ),
        log_line_of(
            RequestKind::SetRequest,
            Some(seq![Some(whole), Some(quoted(key)), Some(quoted(value))]),
        ) == set_record(key, value),
{
    assert(unquote(quoted(key)) =~= key);
    assert(unquote(quoted(value)) =~= value);
    assert(quoted(key)[quoted(key).len() - 1] == '"');
    assert(quoted(value)[quoted(value).len() - 1] == '"');
}

/// The record line of a get request whose key was read, quoted, by its
/// pattern is `get key`.
pub proof fn lemma_get_request_line(whole: Seq<char>, key: Seq<char>)
    ensures
        log_line_defined(RequestKind::GetRequest, Some(seq![Some(whole), Some(quoted(key))])),
        log_line_of(RequestKind::GetRequest, Some(seq![Some(whole), Some(quoted(key))]))
            == get_record(key),
{
    assert(unquote(quoted(key)) =~= key);
    assert(quoted(key)[quoted(key).len() - 1] == '"');
}

} // verus!

verus! {

/// The keys joined with the separator `", "` between them.
pub open spec fn joined_keys(keys: Seq<Seq<char>>) -> Seq<char>
    decreases keys.len(),
{
    if keys.len() <= 1 {
        if keys.len() == 0 {
            Seq::<char>::empty()
        } else {
            keys[0]
        }
    } else {
        keys[0] + key_separator() + joined_keys(keys.drop_first())
    }
}

proof fn lemma_split_sep_plain(s: Seq<char>)
    requires
        crate::text::lacks(s, '"'),
    ensures
        split_sep(s, key_separator()) == seq![s],
    decreases s.len(),
{
    let sep = key_separator();
    if s.len() >= sep.len() {
        assert(s.take(4)[0] != sep[0]);
        let t = s.drop_first();
        assert(crate::text::lacks(t, '"')) by {
            assert forall|i: int| 0 <= i < t.len() implies #[trigger] t[i] != '"' by {
                assert(t[i] == s[i + 1]);
            }
        }
        lemma_split_sep_plain(t);
        assert(seq![s[0]] + t =~= s);
        assert(prepend_first(seq![s[0]], seq![t]) =~= seq![s]);
    }
}

proof fn lemma_split_sep_head(s: Seq<char>, t: Seq<char>)
    requires
        crate::text::lacks(s, '"'),
    ensures
        split_sep(s + key_separator() + t, key_separator()) == seq![s] + split_sep(
            t,
            key_separator(),
        ),
    decreases s.len(),
{
    let sep = key_separator();
    let x = s + sep + t;
    if s.len() == 0 {
        assert(x.take(4) =~= sep);
        assert(x.skip(4) =~= t);
        assert(s =~= Seq::<char>::empty());
    } else {
        assert(x.take(4)[0] == s[0]);
        assert(x.take(4) != sep);
        let s2 = s.drop_first();
        assert(crate::text::lacks(s2, '"')) by {
            assert forall|i: int| 0 <= i < s2.len() implies #[trigger] s2[i] != '"' by {
                assert(s2[i] == s[i + 1]);
            }
        }
        lemma_split_sep_head(s2, t);
        assert(x.drop_first() =~= s2 + sep + t);
        assert(x[0] == s[0]);
        assert(seq![s[0]] + s2 =~= s);
        assert(prepend_first(seq![s[0]], seq![s2] + split_sep(t, sep)) =~= seq![s] + split_sep(
            t,
            sep,
        ));
    }
}

/// Splitting the joined keys at `", "` gives the keys back, when no key
/// holds a double quote.
proof fn lemma_split_joined(keys: Seq<Seq<char>>)
    requires
        keys.len() > 0,
        forall|i: int| 0 <= i < keys.len() ==> crate::text::lacks(#[trigger] keys[i], '"'),
    ensures
        split_sep(joined_keys(keys), key_separator()) == keys,
    decreases keys.len(),
{
    if keys.len() == 1 {
        lemma_split_sep_plain(keys[0]);
        assert(seq![keys[0]] =~= keys);
    } else {
        let rest = keys.drop_first();
        assert forall|i: int| 0 <= i < rest.len() implies crate::text::lacks(
            #[trigger] rest[i],
            '"',
        ) by {
            assert(rest[i] == keys[i + 1]);
        }
        lemma_split_joined(rest);
        assert(crate::text::lacks(keys[0], '"'));
        lemma_split_sep_head(keys[0], joined_keys(rest));
        assert(seq![keys[0]] + rest =~= keys);
    }
}

/// The record line of a delete request whose quoted key list was read by
/// its pattern is `del` followed by the keys, when there is at least one
/// key and no key holds a double quote.
pub proof fn lemma_del_request_line(whole: Seq<char>, keys: Seq<Seq<char>>)
    requires
        keys.len() > 0,
        forall|i: int| 0 <= i < keys.len() ==> crate::text::lacks(#[trigger] keys[i], '"'),
    ensures
        log_line_defined(
            RequestKind::DelRequest,
            Some(seq![Some(whole), Some(quoted(joined_keys(keys)))]),
        ),
        log_line_of(RequestKind::DelRequest, Some(seq![Some(whole), Some(quoted(joined_keys(keys)))]))
            == del_record(keys),
{
    let q = quoted(joined_keys(keys));
    assert(unquote(q) =~= joined_keys(keys));
    assert(q[q.len() - 1] == '"');
    lemma_split_joined(keys);
}

} // verus!
