//! Character-level text helpers: splitting on a character, on a
//! separator sequence, and on Unicode whitespace, with the specification
//! of each as a function on `Seq<char>`.
use vstd::prelude::*;

verus! {

/// The view of a list of character vectors.
pub open spec fn views(v: Seq<Vec<char>>) -> Seq<Seq<char>> {
    v.map_values(|p: Vec<char>| p@)
}

/// The view of a list of strings.
pub open spec fn string_views(v: Seq<String>) -> Seq<Seq<char>> {
    v.map_values(|p: String| p@)
}

/// Unicode `White_Space`, the set that `char::is_whitespace` tests.
pub open spec fn is_ws(c: char) -> bool {
    let u = c as u32;
    (0x9 <= u && u <= 0xd) || u == 0x20 || u == 0x85 || u == 0xa0 || u == 0x1680
        || (0x2000 <= u && u <= 0x200a) || u == 0x2028 || u == 0x2029 || u == 0x202f
        || u == 0x205f || u == 0x3000
}

/// `s` holds no whitespace character.
pub open spec fn no_ws(s: Seq<char>) -> bool {
    forall|i: int| 0 <= i < s.len() ==> !is_ws(#[trigger] s[i])
}

/// `s` does not hold the character `c`.
pub open spec fn lacks(s: Seq<char>, c: char) -> bool {
    forall|i: int| 0 <= i < s.len() ==> #[trigger] s[i] != c
}

/// Whether `c` is a whitespace character (`char::is_whitespace`).
pub fn is_whitespace(c: char) -> (r: bool)
    ensures
        r == is_ws(c),
{
    let u = c as u32;
    (0x9 <= u && u <= 0xd) || u == 0x20 || u == 0x85 || u == 0xa0 || u == 0x1680
        || (0x2000 <= u && u <= 0x200a) || u == 0x2028 || u == 0x2029 || u == 0x202f
        || u == 0x205f || u == 0x3000
}

/// The characters of `s`, in order.
pub fn chars_of(s: &str) -> (r: Vec<char>)
    ensures
        r@ == s@,
{
    let mut out: Vec<char> = Vec::new();
    for c in it: s.chars()
        invariant
            out@ == it.seq().take(it.index() as int),
            it.seq() == s@,
    {
        out.push(c);
    }
    out
}

/// The string made of the characters of `v`
/// (`Iterator::collect` into a `String`).
#[verifier::external_body]
pub fn string_of(v: &[char]) -> (r: String)
    ensures
        r@ == v@,
{
    v.iter().collect()
}

/// Appends the characters of `src` to `dst`.
pub fn push_all(dst: &mut Vec<char>, src: &[char])
    ensures
        final(dst)@ == old(dst)@ + src@,
{
    let n = src.len();
    for i in 0..n
        invariant
            n == src@.len(),
            dst@ == old(dst)@ + src@.take(i as int),
    {
        dst.push(src[i]);
        assert(src@.take(i + 1) =~= src@.take(i as int).push(src@[i as int]));
    }
    assert(src@.take(n as int) =~= src@);
}

/// The pieces of `s` between occurrences of `sep`, as `str::split` with a
/// character pattern gives them: there is always at least one piece, and
/// empty pieces are kept.
pub open spec fn split_char(s: Seq<char>, sep: char) -> Seq<Seq<char>>
    decreases s.len(),
{
    if s.len() == 0 {
        seq![Seq::<char>::empty()]
    } else {
        let r = split_char(s.drop_last(), sep);
        if s.last() == sep {
            r.push(Seq::<char>::empty())
        } else {
            r.update(r.len() - 1, r.last().push(s.last()))
        }
    }
}

/// `split_char` gives at least one piece.
pub proof fn lemma_split_char_len(s: Seq<char>, sep: char)
    ensures
        split_char(s, sep).len() >= 1,
    decreases s.len(),
{
    if s.len() > 0 {
        lemma_split_char_len(s.drop_last(), sep);
    }
}

/// A text without `sep` is one piece.
pub proof fn lemma_split_char_none(s: Seq<char>, sep: char)
    requires
        lacks(s, sep),
    ensures
        split_char(s, sep) == seq![s],
    decreases s.len(),
{
    if s.len() > 0 {
        lemma_split_char_none(s.drop_last(), sep);
        assert(s.drop_last().push(s.last()) =~= s);
    } else {
        assert(s =~= Seq::<char>::empty());
    }
}

/// Splitting `a + [sep] + b` splits `a` and `b` apart.
pub proof fn lemma_split_char_append(a: Seq<char>, b: Seq<char>, sep: char)
    ensures
        split_char(a + seq![sep] + b, sep) == split_char(a, sep) + split_char(b, sep),
    decreases b.len(),
{
    let ab = a + seq![sep] + b;
    lemma_split_char_len(a, sep);
    lemma_split_char_len(b, sep);
    if b.len() == 0 {
        assert(ab.drop_last() =~= a);
        assert(split_char(b, sep) =~= seq![Seq::<char>::empty()]);
        assert(split_char(a, sep).push(Seq::<char>::empty()) =~= split_char(a, sep) + split_char(b, sep));
    } else {
        lemma_split_char_append(a, b.drop_last(), sep);
        assert(ab.drop_last() =~= a + seq![sep] + b.drop_last());
        assert(ab.last() == b.last());
        lemma_split_char_len(b.drop_last(), sep);
        let ra = split_char(a, sep);
        let rb = split_char(b.drop_last(), sep);
        if b.last() == sep {
            assert((ra + rb).push(Seq::<char>::empty()) =~= ra + rb.push(Seq::<char>::empty()));
        } else {
            assert((ra + rb).update((ra + rb).len() - 1, (ra + rb).last().push(b.last())) =~= ra
                + rb.update(rb.len() - 1, rb.last().push(b.last())));
        }
    }
}

/// Splits `s` at each occurrence of `sep` (`str::split` with a character).
pub fn split_on(s: &Vec<char>, sep: char) -> (r: Vec<Vec<char>>)
    ensures
        views(r@) == split_char(s@, sep),
{
    let n = s.len();
    let mut out: Vec<Vec<char>> = Vec::new();
    let mut cur: Vec<char> = Vec::new();
    assert(s@.take(0) =~= Seq::<char>::empty());
    for i in 0..n
        invariant
            n == s@.len(),
            split_char(s@.take(i as int), sep) == views(out@).push(cur@),
    {
        let c = s[i];
        let ghost prev = views(out@);
        let ghost pcur = cur@;
        assert(s@.take(i + 1).drop_last() =~= s@.take(i as int));
        assert(s@.take(i + 1).last() == c);
        if c == sep {
            out.push(cur);
            cur = Vec::new();
            assert(views(out@) =~= prev.push(pcur));
        } else {
            cur.push(c);
            assert(views(out@) =~= prev);
            assert(prev.push(pcur).update(prev.len() as int, pcur.push(c)) =~= prev.push(cur@));
        }
    }
    assert(s@.take(n as int) =~= s@);
    let ghost prev = views(out@);
    out.push(cur);
    assert(views(out@) =~= prev.push(out@.last()@));
    out
}

/// The whitespace-separated words of `s`, as `str::split_whitespace`
/// gives them: no empty word, no whitespace inside a word.
pub open spec fn words(s: Seq<char>) -> Seq<Seq<char>>
    decreases s.len(),
{
    if s.len() == 0 {
        Seq::<Seq<char>>::empty()
    } else {
        let r = words(s.drop_last());
        let c = s.last();
        if is_ws(c) {
            r
        } else if s.len() >= 2 && !is_ws(s[s.len() - 2]) {
            r.update(r.len() - 1, r.last().push(c))
        } else {
            r.push(seq![c])
        }
    }
}

/// A text that ends inside a word has at least one word.
pub proof fn lemma_words_nonempty(s: Seq<char>)
    requires
        s.len() > 0,
        !is_ws(s.last()),
    ensures
        words(s).len() >= 1,
    decreases s.len(),
{
    let r = words(s.drop_last());
    if s.len() >= 2 && !is_ws(s[s.len() - 2]) {
        assert(s.drop_last().last() == s[s.len() - 2]);
        lemma_words_nonempty(s.drop_last());
    }
}

/// Splits `s` into its whitespace-separated words (`str::split_whitespace`).
pub fn split_words(s: &Vec<char>) -> (r: Vec<Vec<char>>)
    ensures
        views(r@) == words(s@),
{
    let n = s.len();
    let mut out: Vec<Vec<char>> = Vec::new();
    let mut cur: Vec<char> = Vec::new();
    let mut in_word = false;
    assert(s@.take(0) =~= Seq::<char>::empty());
    for i in 0..n
        invariant
            n == s@.len(),
            in_word == (i > 0 && !is_ws(s@[i - 1])),
            in_word ==> words(s@.take(i as int)) == views(out@).push(cur@),
            !in_word ==> words(s@.take(i as int)) == views(out@) && cur@.len() == 0,
    {
        let c = s[i];
        let ghost prev = views(out@);
        let ghost pcur = cur@;
        let ghost t = s@.take(i + 1);
        assert(t.drop_last() =~= s@.take(i as int));
        assert(t.last() == c);
        if i > 0 {
            assert(t[t.len() - 2] == s@[i - 1]);
        }
        if is_whitespace(c) {
            if in_word {
                out.push(cur);
                cur = Vec::new();
                assert(views(out@) =~= prev.push(pcur));
            }
            in_word = false;
        } else {
            cur.push(c);
            if in_word {
                assert(prev.push(pcur).update(prev.len() as int, pcur.push(c)) =~= prev.push(cur@));
            } else {
                assert(cur@ =~= seq![c]);
            }
            in_word = true;
        }
    }
    assert(s@.take(n as int) =~= s@);
    if in_word {
        let ghost prev = views(out@);
        out.push(cur);
        assert(views(out@) =~= prev.push(out@.last()@));
    }
    out
}

/// `s` with `p` put in front of its first element.
pub open spec fn prepend_first(p: Seq<char>, r: Seq<Seq<char>>) -> Seq<Seq<char>> {
    r.update(0, p + r[0])
}

/// The pieces of `s` between non-overlapping occurrences of the
/// non-empty `sep`, leftmost first, as `str::split` with a string pattern
/// gives them.
pub open spec fn split_sep(s: Seq<char>, sep: Seq<char>) -> Seq<Seq<char>>
    decreases s.len(),
{
    if sep.len() == 0 || s.len() < sep.len() {
        seq![s]
    } else if s.take(sep.len() as int) == sep {
        seq![Seq::<char>::empty()] + split_sep(s.skip(sep.len() as int), sep)
    } else {
        prepend_first(seq![s[0]], split_sep(s.drop_first(), sep))
    }
}

/// `split_sep` gives at least one piece.
pub proof fn lemma_split_sep_len(s: Seq<char>, sep: Seq<char>)
    ensures
        split_sep(s, sep).len() >= 1,
    decreases s.len(),
{
    if sep.len() == 0 || s.len() < sep.len() {
    } else if s.take(sep.len() as int) == sep {
        lemma_split_sep_len(s.skip(sep.len() as int), sep);
    } else {
        lemma_split_sep_len(s.drop_first(), sep);
    }
}

/// Whether `sep` occurs in `s` at position `i`.
fn occurs_at(s: &Vec<char>, sep: &Vec<char>, i: usize) -> (r: bool)
    requires
        i + sep.len() <= s.len(),
    ensures
        r == (s@.skip(i as int).take(sep@.len() as int) == sep@),
{
    let m = sep.len();
    let mut j: usize = 0;
    while j < m
        invariant
            m == sep@.len(),
            i + m <= s.len(),
            j <= m,
            forall|k: int| 0 <= k < j ==> s@[i + k] == sep@[k],
        decreases m - j,
    {
        if s[i + j] != sep[j] {
            assert(s@.skip(i as int).take(m as int)[j as int] != sep@[j as int]);
            return false;
        }
        j = j + 1;
    }
    assert(s@.skip(i as int).take(m as int) =~= sep@);
    true
}

/// Splits `s` at each occurrence of the non-empty `sep`
/// (`str::split` with a string pattern).
pub fn split_on_seq(s: &Vec<char>, sep: &Vec<char>) -> (r: Vec<Vec<char>>)
    requires
        sep@.len() > 0,
    ensures
        views(r@) == split_sep(s@, sep@),
{
    let n = s.len();
    let m = sep.len();
    let mut out: Vec<Vec<char>> = Vec::new();
    let mut cur: Vec<char> = Vec::new();
    let mut i: usize = 0;
    proof { lemma_split_sep_len(s@, sep@); }
    assert(s@.skip(0) =~= s@);
    assert(prepend_first(Seq::<char>::empty(), split_sep(s@, sep@)) =~= split_sep(s@, sep@));
    while i < n && m <= n - i
        invariant
            n == s@.len(),
            m == sep@.len(),
            m > 0,
            i <= n,
            split_sep(s@, sep@) == views(out@) + prepend_first(
                cur@,
                split_sep(s@.skip(i as int), sep@),
            ),
        decreases n - i,
    {
        let ghost rest = s@.skip(i as int);
        let ghost prev = views(out@);
        let ghost pcur = cur@;
        if occurs_at(s, sep, i) {
            let ghost tail = split_sep(s@.skip(i + m), sep@);
            assert(rest.skip(m as int) =~= s@.skip(i + m));
            proof { lemma_split_sep_len(s@.skip(i + m), sep@); }
            out.push(cur);
            cur = Vec::new();
            i = i + m;
            assert(prepend_first(pcur, seq![Seq::<char>::empty()] + tail) =~= seq![pcur] + tail);
            assert(prepend_first(Seq::<char>::empty(), tail) =~= tail);
            assert(views(out@) =~= prev.push(pcur));
            assert(prev + (seq![pcur] + tail) =~= prev.push(pcur) + tail);
        } else {
            let c = s[i];
            let ghost tail = split_sep(s@.skip(i + 1), sep@);
            assert(rest.drop_first() =~= s@.skip(i + 1));
            proof { lemma_split_sep_len(s@.skip(i + 1), sep@); }
            cur.push(c);
            i = i + 1;
            assert(pcur + (seq![c] + tail[0]) =~= pcur.push(c) + tail[0]);
            assert(prepend_first(pcur, prepend_first(seq![c], tail)) =~= prepend_first(
                pcur.push(c),
                tail,
            ));
        }
    }
    let ghost rest = s@.skip(i as int);
    assert(split_sep(rest, sep@) == seq![rest]);
    let ghost pcur = cur@;
    let ghost prev = views(out@);
    let mut k = i;
    while k < n
        invariant
            n == s@.len(),
            i <= k <= n,
            cur@ == pcur + s@.subrange(i as int, k as int),
        decreases n - k,
    {
        cur.push(s[k]);
        assert(s@.subrange(i as int, k + 1) =~= s@.subrange(i as int, k as int).push(s@[k as int]));
        k = k + 1;
    }
    assert(s@.subrange(i as int, n as int) =~= rest);
    out.push(cur);
    assert(views(out@) =~= prev.push(pcur + rest));
    assert(prepend_first(pcur, seq![rest]) =~= seq![pcur + rest]);
    out
}

} // verus!

verus! {

/// A whitespace character between two texts separates their words.
pub proof fn lemma_words_append(a: Seq<char>, c: char, b: Seq<char>)
    requires
        is_ws(c),
    ensures
        words(a + seq![c] + b) == words(a) + words(b),
    decreases b.len(),
{
    let s = a + seq![c] + b;
    if b.len() == 0 {
        assert(s.drop_last() =~= a);
        assert(words(b) =~= Seq::<Seq<char>>::empty());
        assert(words(a) + words(b) =~= words(a));
    } else {
        let bf = b.drop_last();
        lemma_words_append(a, c, bf);
        assert(s.drop_last() =~= a + seq![c] + bf);
        assert(s.last() == b.last());
        let x = b.last();
        if !is_ws(x) {
            if b.len() >= 2 {
                assert(s[s.len() - 2] == b[b.len() - 2]);
                if !is_ws(b[b.len() - 2]) {
                    assert(bf.last() == b[b.len() - 2]);
                    lemma_words_nonempty(bf);
                    assert((words(a) + words(bf)).update(
                        (words(a) + words(bf)).len() - 1,
                        (words(a) + words(bf)).last().push(x),
                    ) =~= words(a) + words(bf).update(words(bf).len() - 1, words(bf).last().push(x)));
                } else {
                    assert((words(a) + words(bf)).push(seq![x]) =~= words(a) + words(bf).push(
                        seq![x],
                    ));
                }
            } else {
                assert(s[s.len() - 2] == c);
                assert(bf =~= Seq::<char>::empty());
                assert(b.drop_last() =~= bf);
                assert((words(a) + words(bf)).push(seq![x]) =~= words(a) + words(bf).push(seq![x]));
            }
        }
    }
}

/// A non-empty text without whitespace is a single word.
pub proof fn lemma_words_single(w: Seq<char>)
    requires
        w.len() > 0,
        no_ws(w),
    ensures
        words(w) == seq![w],
    decreases w.len(),
{
    assert(!is_ws(w[w.len() - 1]));
    if w.len() == 1 {
        assert(w.drop_last().len() == 0);
        assert(words(w.drop_last()) == Seq::<Seq<char>>::empty());
        assert(seq![w.last()] =~= w);
        assert(words(w) == Seq::<Seq<char>>::empty().push(seq![w.last()]));
        assert(Seq::<Seq<char>>::empty().push(seq![w.last()]) =~= seq![w]);
    } else {
        let f = w.drop_last();
        assert(no_ws(f)) by {
            assert forall|i: int| 0 <= i < f.len() implies !is_ws(#[trigger] f[i]) by {
                assert(f[i] == w[i]);
            }
        }
        lemma_words_single(f);
        assert(!is_ws(w[w.len() - 2]));
        assert(w[w.len() - 2] == f.last());
        assert(f.push(w.last()) =~= w);
        assert(seq![f].update(0, f.push(w.last())) =~= seq![w]);
        assert(words(w) == words(f).update(words(f).len() - 1, words(f).last().push(w.last())));
    }
}

} // verus!
