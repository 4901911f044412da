//! The text records that carry writes: the lines of the append-only file
//! and the payloads that a master sends to its slaves. Each record is a
//! command word followed by its arguments, `set key value` or
//! `del key...`.
use vstd::prelude::*;
use crate::store::{Db, Table, remove_each, keys_view};
use crate::text::{views, split_char, words, chars_of, push_all, string_of};

verus! {

/// The command word `set`.
pub open spec fn word_set() -> Seq<char> {
    seq!['s', 'e', 't']
}

/// The command word `del`.
pub open spec fn word_del() -> Seq<char> {
    seq!['d', 'e', 'l']
}

/// The command word `get`.
pub open spec fn word_get() -> Seq<char> {
    seq!['g', 'e', 't']
}

/// The record `set <key> <value>`.
pub open spec fn set_record(key: Seq<char>, value: Seq<char>) -> Seq<char> {
    word_set() + seq![' '] + key + seq![' '] + value
}

/// The record `del` followed by ` <key>` for each key, in order.
pub open spec fn del_record(keys: Seq<Seq<char>>) -> Seq<char>
    decreases keys.len(),
{
    if keys.len() == 0 {
        word_del()
    } else {
        del_record(keys.drop_last()) + seq![' '] + keys.last()
    }
}

/// The record `get <key>`.
pub open spec fn get_record(key: Seq<char>) -> Seq<char> {
    word_get() + seq![' '] + key
}

/// Whether `p` is the three characters `a`, `b`, `c`.
pub fn word_is(p: &Vec<char>, a: char, b: char, c: char) -> (r: bool)
    ensures
        r == (p@ == seq![a, b, c]),
{
    if p.len() == 3 && p[0] == a && p[1] == b && p[2] == c {
        assert(p@ =~= seq![a, b, c]);
        true
    } else {
        false
    }
}

/// The text of `set_record(key, value)`.
pub fn set_record_text(key: &str, value: &str) -> (r: String)
    ensures
        r@ == set_record(key@, value@),
{
    let mut v: Vec<char> = Vec::new();
    v.push('s');
    v.push('e');
    v.push('t');
    v.push(' ');
    let k = chars_of(key);
    push_all(&mut v, k.as_slice());
    v.push(' ');
    let w = chars_of(value);
    push_all(&mut v, w.as_slice());
    assert(v@ =~= set_record(key@, value@));
    string_of(v.as_slice())
}

/// The text of `del_record` for the given keys.
pub fn del_record_text(keys: &Vec<String>) -> (r: String)
    ensures
        r@ == del_record(keys_view(keys@)),
{
    let mut v: Vec<char> = Vec::new();
    v.push('d');
    v.push('e');
    v.push('l');
    let ghost ks = keys_view(keys@);
    assert(ks.take(0) =~= Seq::<Seq<char>>::empty());
    assert(v@ =~= word_del());
    let n = keys.len();
    for i in 0..n
        invariant
            n == keys@.len(),
            ks == keys_view(keys@),
            v@ == del_record(ks.take(i as int)),
    {
        v.push(' ');
        let k = chars_of(keys[i].as_str());
        push_all(&mut v, k.as_slice());
        assert(ks.take(i + 1).drop_last() =~= ks.take(i as int));
        assert(ks.take(i + 1).last() == keys@[i as int]@);
    }
    assert(ks.take(n as int) =~= ks);
    string_of(v.as_slice())
}

/// Removes from `db`, in turn, each piece of `pieces` from index `from`.
pub fn remove_pieces(db: &mut Db, pieces: &Vec<Vec<char>>, from: usize)
    requires
        from <= pieces@.len(),
    ensures
        final(db)@ == remove_each(old(db)@, views(pieces@).skip(from as int)),
{
    let n = pieces.len();
    let ghost ps = views(pieces@);
    assert(ps.skip(from as int).take(0) =~= Seq::<Seq<char>>::empty());
    for j in from..n
        invariant
            n == pieces@.len(),
            from <= n,
            ps == views(pieces@),
            db@ == remove_each(old(db)@, ps.skip(from as int).take(j - from)),
    {
        let key = string_of(pieces[j].as_slice());
        db.remove(key.as_str());
        let ghost t = ps.skip(from as int);
        assert(t.take(j + 1 - from).drop_last() =~= t.take(j - from));
        assert(t.take(j + 1 - from).last() == pieces@[j as int]@);
    }
    assert(ps.skip(from as int).take(n - from) =~= ps.skip(from as int));
}

// ---------------------------------------------------------------------
// Replication payloads: lines split on '\n', each line split on ' '.
// ---------------------------------------------------------------------

/// A payload line that starts with `set` but lacks its key or value.
pub open spec fn sync_line_panics(line: Seq<char>) -> bool {
    let p = split_char(line, ' ');
    p[0] == word_set() && p.len() < 3
}

/// The table after one payload line, or `None` for a line whose command
/// word is neither `set` nor `del`.
pub open spec fn sync_step(m: Table, line: Seq<char>) -> Option<Table> {
    let p = split_char(line, ' ');
    if p[0] == word_set() {
        Some(m.insert(p[1], p[2]))
    } else if p[0] == word_del() {
        Some(remove_each(m, p.skip(1)))
    } else {
        None
    }
}

/// The table after the payload lines, applied in order up to the first
/// unrecognized line, and whether every line was recognized.
pub open spec fn sync_run(m: Table, lines: Seq<Seq<char>>) -> (Table, bool)
    decreases lines.len(),
{
    if lines.len() == 0 {
        (m, true)
    } else {
        match sync_step(m, lines[0]) {
            Some(m2) => sync_run(m2, lines.drop_first()),
            None => (m, false),
        }
    }
}

/// Some line, reached before any unrecognized line, is a `set` line
/// without key or value.
pub open spec fn sync_panics(lines: Seq<Seq<char>>) -> bool
    decreases lines.len(),
{
    if lines.len() == 0 {
        false
    } else if sync_line_panics(lines[0]) {
        true
    } else if sync_step(Table::empty(), lines[0]) is None {
        false
    } else {
        sync_panics(lines.drop_first())
    }
}

// ---------------------------------------------------------------------
// Append-only file: lines split on '\n', each line split on whitespace.
// ---------------------------------------------------------------------

/// The outcome of replaying one line of the append-only file.
pub enum ReplayStep {
    /// A blank line: replay stops there and succeeds.
    Stop,
    /// A `set` or `del` line, and the table after it.
    Apply(Table),
    /// A line with another command word.
    Bad,
}

/// A file line that starts with `set` but lacks its key or value.
pub open spec fn replay_line_panics(line: Seq<char>) -> bool {
    let w = words(line);
    w.len() > 0 && w[0] == word_set() && w.len() < 3
}

/// Replaying one line of the append-only file on `m`.
pub open spec fn replay_step(m: Table, line: Seq<char>) -> ReplayStep {
    let w = words(line);
    if w.len() == 0 {
        ReplayStep::Stop
    } else if w[0] == word_set() {
        ReplayStep::Apply(m.insert(w[1], w[2]))
    } else if w[0] == word_del() {
        ReplayStep::Apply(remove_each(m, w.skip(1)))
    } else {
        ReplayStep::Bad
    }
}

/// The table after replaying the lines in order, up to the first blank
/// line or unrecognized line, and whether no unrecognized line was met.
pub open spec fn replay_run(m: Table, lines: Seq<Seq<char>>) -> (Table, bool)
    decreases lines.len(),
{
    if lines.len() == 0 {
        (m, true)
    } else {
        match replay_step(m, lines[0]) {
            ReplayStep::Stop => (m, true),
            ReplayStep::Apply(m2) => replay_run(m2, lines.drop_first()),
            ReplayStep::Bad => (m, false),
        }
    }
}

/// Some line, reached before replay stops, is a `set` line without key
/// or value.
pub open spec fn replay_panics(lines: Seq<Seq<char>>) -> bool
    decreases lines.len(),
{
    if lines.len() == 0 {
        false
    } else if replay_line_panics(lines[0]) {
        true
    } else {
        match replay_step(Table::empty(), lines[0]) {
            ReplayStep::Apply(_) => replay_panics(lines.drop_first()),
            _ => false,
        }
    }
}

} // verus!

verus! {

/// Each text of `s` lacks the character `c`.
pub open spec fn all_lack(s: Seq<Seq<char>>, c: char) -> bool {
    forall|i: int| 0 <= i < s.len() ==> crate::text::lacks(#[trigger] s[i], c)
}

/// Each text of `s` is non-empty and free of whitespace.
pub open spec fn all_plain(s: Seq<Seq<char>>) -> bool {
    forall|i: int| 0 <= i < s.len() ==> #[trigger] s[i].len() > 0 && crate::text::no_ws(s[i])
}

/// Joining texts that lack `c` with a separator other than `c`, after a
/// head that lacks `c`, gives a text that lacks `c`.
proof fn lemma_lacks_concat(a: Seq<char>, b: Seq<char>, c: char)
    requires
        crate::text::lacks(a, c),
        crate::text::lacks(b, c),
    ensures
        crate::text::lacks(a + b, c),
{
    assert forall|i: int| 0 <= i < (a + b).len() implies #[trigger] (a + b)[i] != c by {
        if i < a.len() {
            assert((a + b)[i] == a[i]);
        } else {
            assert((a + b)[i] == b[i - a.len()]);
        }
    }
}

/// A `set` record splits at spaces into `set`, the key and the value,
/// when neither holds a space.
pub proof fn lemma_set_record_pieces(key: Seq<char>, value: Seq<char>)
    requires
        crate::text::lacks(key, ' '),
        crate::text::lacks(value, ' '),
    ensures
        split_char(set_record(key, value), ' ') == seq![word_set(), key, value],
{
    let tail = key + seq![' '] + value;
    assert(set_record(key, value) =~= word_set() + seq![' '] + tail);
    crate::text::lemma_split_char_append(word_set(), tail, ' ');
    crate::text::lemma_split_char_append(key, value, ' ');
    assert(crate::text::lacks(word_set(), ' '));
    crate::text::lemma_split_char_none(word_set(), ' ');
    crate::text::lemma_split_char_none(key, ' ');
    crate::text::lemma_split_char_none(value, ' ');
    assert(seq![word_set()] + (seq![key] + seq![value]) =~= seq![word_set(), key, value]);
}

/// A `del` record splits at spaces into `del` and the keys, when no key
/// holds a space.
pub proof fn lemma_del_record_pieces(keys: Seq<Seq<char>>)
    requires
        all_lack(keys, ' '),
    ensures
        split_char(del_record(keys), ' ') == seq![word_del()] + keys,
    decreases keys.len(),
{
    if keys.len() == 0 {
        assert(crate::text::lacks(word_del(), ' '));
        crate::text::lemma_split_char_none(word_del(), ' ');
        assert(seq![word_del()] + keys =~= seq![word_del()]);
    } else {
        let f = keys.drop_last();
        assert(all_lack(f, ' ')) by {
            assert forall|i: int| 0 <= i < f.len() implies crate::text::lacks(#[trigger] f[i], ' ') by {
                assert(f[i] == keys[i]);
            }
        }
        lemma_del_record_pieces(f);
        assert(crate::text::lacks(keys[keys.len() - 1], ' '));
        crate::text::lemma_split_char_append(del_record(f), keys.last(), ' ');
        crate::text::lemma_split_char_none(keys.last(), ' ');
        assert(seq![word_del()] + f + seq![keys.last()] =~= seq![word_del()] + keys);
    }
}

/// A `set` record holds no newline when its key and value hold none.
pub proof fn lemma_set_record_one_line(key: Seq<char>, value: Seq<char>)
    requires
        crate::text::lacks(key, '\n'),
        crate::text::lacks(value, '\n'),
    ensures
        crate::text::lacks(set_record(key, value), '\n'),
{
    assert(crate::text::lacks(word_set() + seq![' '], '\n'));
    assert(crate::text::lacks(seq![' '], '\n'));
    lemma_lacks_concat(word_set() + seq![' '], key, '\n');
    lemma_lacks_concat(word_set() + seq![' '] + key, seq![' '], '\n');
    lemma_lacks_concat(word_set() + seq![' '] + key + seq![' '], value, '\n');
}

/// A `del` record holds no newline when its keys hold none.
pub proof fn lemma_del_record_one_line(keys: Seq<Seq<char>>)
    requires
        all_lack(keys, '\n'),
    ensures
        crate::text::lacks(del_record(keys), '\n'),
    decreases keys.len(),
{
    if keys.len() == 0 {
        assert(crate::text::lacks(word_del(), '\n'));
    } else {
        let f = keys.drop_last();
        assert(all_lack(f, '\n')) by {
            assert forall|i: int| 0 <= i < f.len() implies crate::text::lacks(#[trigger] f[i], '\n') by {
                assert(f[i] == keys[i]);
            }
        }
        lemma_del_record_one_line(f);
        assert(crate::text::lacks(keys[keys.len() - 1], '\n'));
        assert(crate::text::lacks(seq![' '], '\n'));
        lemma_lacks_concat(del_record(f), seq![' '], '\n');
        lemma_lacks_concat(del_record(f) + seq![' '], keys.last(), '\n');
    }
}

/// The words of a `set` record are `set`, the key and the value, when
/// both are non-empty and free of whitespace.
pub proof fn lemma_set_record_words(key: Seq<char>, value: Seq<char>)
    requires
        key.len() > 0,
        value.len() > 0,
        crate::text::no_ws(key),
        crate::text::no_ws(value),
    ensures
        words(set_record(key, value)) == seq![word_set(), key, value],
{
    let tail = key + seq![' '] + value;
    assert(set_record(key, value) =~= word_set() + seq![' '] + tail);
    assert(crate::text::is_ws(' '));
    crate::text::lemma_words_append(word_set(), ' ', tail);
    crate::text::lemma_words_append(key, ' ', value);
    assert(crate::text::no_ws(word_set()));
    crate::text::lemma_words_single(word_set());
    crate::text::lemma_words_single(key);
    crate::text::lemma_words_single(value);
    assert(seq![word_set()] + (seq![key] + seq![value]) =~= seq![word_set(), key, value]);
}

/// The words of a `del` record are `del` and the keys, when each key is
/// non-empty and free of whitespace.
pub proof fn lemma_del_record_words(keys: Seq<Seq<char>>)
    requires
        all_plain(keys),
    ensures
        words(del_record(keys)) == seq![word_del()] + keys,
    decreases keys.len(),
{
    assert(crate::text::no_ws(word_del()));
    crate::text::lemma_words_single(word_del());
    if keys.len() == 0 {
        assert(seq![word_del()] + keys =~= seq![word_del()]);
    } else {
        let f = keys.drop_last();
        assert(all_plain(f)) by {
            assert forall|i: int| 0 <= i < f.len() implies #[trigger] f[i].len() > 0
                && crate::text::no_ws(f[i]) by {
                assert(f[i] == keys[i]);
            }
        }
        lemma_del_record_words(f);
        assert(keys[keys.len() - 1].len() > 0 && crate::text::no_ws(keys[keys.len() - 1]));
        assert(crate::text::is_ws(' '));
        crate::text::lemma_words_append(del_record(f), ' ', keys.last());
        crate::text::lemma_words_single(keys.last());
        assert(seq![word_del()] + f + seq![keys.last()] =~= seq![word_del()] + keys);
    }
}

} // verus!
