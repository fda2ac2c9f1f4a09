//! Text utilities on character sequences: whitespace, lines, words,
//! substring search, trimming and joining, each stated over `Seq<char>`.
use vstd::prelude::*;

verus! {

/// Unicode `White_Space`, the set that `char::is_whitespace` tests.
pub open spec fn is_whitespace(c: char) -> bool {
    ||| ('\t' <= c && c <= '\r')
    ||| c == ' '
    ||| c == '\u{85}'
    ||| c == '\u{a0}'
    ||| c == '\u{1680}'
    ||| ('\u{2000}' <= c && c <= '\u{200a}')
    ||| c == '\u{2028}'
    ||| c == '\u{2029}'
    ||| c == '\u{202f}'
    ||| c == '\u{205f}'
    ||| c == '\u{3000}'
}

pub open spec fn is_newline(c: char) -> bool {
    c == '\n'
}

/// Length of the longest prefix of `s` in which no character satisfies `stop`.
pub open spec fn run_len(s: Seq<char>, stop: spec_fn(char) -> bool) -> nat
    decreases s.len(),
{
    if s.len() == 0 || stop(s[0]) {
        0
    } else {
        1 + run_len(s.drop_first(), stop)
    }
}

pub proof fn lemma_run_len_bound(s: Seq<char>, stop: spec_fn(char) -> bool)
    ensures
        run_len(s, stop) <= s.len(),
        s.len() > 0 && !stop(s[0]) ==> run_len(s, stop) >= 1,
    decreases s.len(),
{
    if s.len() > 0 && !stop(s[0]) {
        lemma_run_len_bound(s.drop_first(), stop);
    }
}

/// The run ends at `k` when no character before `k` stops it and `k` is the end or a stop.
pub proof fn lemma_run_len_is(s: Seq<char>, stop: spec_fn(char) -> bool, k: int)
    requires
        0 <= k <= s.len(),
        forall|m: int| 0 <= m < k ==> !stop(#[trigger] s[m]),
        k == s.len() || stop(s[k]),
    ensures
        run_len(s, stop) == k,
    decreases k,
{
    if k > 0 {
        let t = s.drop_first();
        assert forall|m: int| 0 <= m < k - 1 implies !stop(#[trigger] t[m]) by {
            assert(t[m] == s[m + 1]);
        }
        if k - 1 < t.len() {
            assert(t[k - 1] == s[k]);
        }
        lemma_run_len_is(t, stop, k - 1);
    }
}

/// Drops one trailing carriage return.
pub open spec fn strip_cr(l: Seq<char>) -> Seq<char> {
    if l.len() > 0 && l.last() == '\r' {
        l.drop_last()
    } else {
        l
    }
}

/// The lines of `s` as `str::lines` yields them: split after each `'\n'`,
/// a `"\r\n"` ending counts as one line ending, and a final line ending
/// opens no empty line.
pub open spec fn lines(s: Seq<char>) -> Seq<Seq<char>>
    decreases s.len(),
{
    if s.len() == 0 {
        seq![]
    } else {
        let k = run_len(s, |c: char| is_newline(c)) as int;
        proof {
            lemma_run_len_bound(s, |c: char| is_newline(c));
        }
        if k < s.len() {
            seq![strip_cr(s.take(k))] + lines(s.skip(k + 1))
        } else {
            seq![s]
        }
    }
}

/// The words of `s` as `str::split_whitespace` yields them: the maximal
/// runs of characters that are not whitespace, in order.
pub open spec fn words(s: Seq<char>) -> Seq<Seq<char>>
    decreases s.len(),
{
    if s.len() == 0 {
        seq![]
    } else if is_whitespace(s[0]) {
        words(s.drop_first())
    } else {
        let k = run_len(s, |c: char| is_whitespace(c)) as int;
        proof {
            lemma_run_len_bound(s, |c: char| is_whitespace(c));
        }
        seq![s.take(k)] + words(s.skip(k))
    }
}

pub open spec fn trim_start(s: Seq<char>) -> Seq<char>
    decreases s.len(),
{
    if s.len() > 0 && is_whitespace(s[0]) {
        trim_start(s.drop_first())
    } else {
        s
    }
}

pub open spec fn trim_end(s: Seq<char>) -> Seq<char>
    decreases s.len(),
{
    if s.len() > 0 && is_whitespace(s.last()) {
        trim_end(s.drop_last())
    } else {
        s
    }
}

/// `s` without leading and trailing whitespace, as `str::trim` gives it.
pub open spec fn trim(s: Seq<char>) -> Seq<char> {
    trim_end(trim_start(s))
}

/// `pat` occurs in `hay` at some position.
pub open spec fn contains(hay: Seq<char>, pat: Seq<char>) -> bool {
    exists|i: int| 0 <= i && i + pat.len() <= hay.len() && #[trigger] hay.subrange(i, i + pat.len()) == pat
}

/// The pieces of `list` with `sep` between each two neighbours.
pub open spec fn join(list: Seq<Seq<char>>, sep: Seq<char>) -> Seq<char>
    decreases list.len(),
{
    if list.len() == 0 {
        seq![]
    } else if list.len() == 1 {
        list[0]
    } else {
        join(list.drop_last(), sep) + sep + list.last()
    }
}

/// The views of a sequence of strings.
pub open spec fn views(v: Seq<String>) -> Seq<Seq<char>> {
    v.map_values(|s: String| s@)
}

pub proof fn lemma_views_push(v: Seq<String>, s: String)
    ensures
        views(v.push(s)) == views(v).push(s@),
{
    assert(views(v.push(s)) =~= views(v).push(s@));
}

pub proof fn lemma_trim_start_is(s: Seq<char>, a: int)
    requires
        0 <= a <= s.len(),
        forall|m: int| 0 <= m < a ==> is_whitespace(#[trigger] s[m]),
        a == s.len() || !is_whitespace(s[a]),
    ensures
        trim_start(s) == s.skip(a),
    decreases a,
{
    if a == 0 {
        assert(s.skip(0) =~= s);
    } else {
        let t = s.drop_first();
        assert forall|m: int| 0 <= m < a - 1 implies is_whitespace(#[trigger] t[m]) by {
            assert(t[m] == s[m + 1]);
        }
        if a - 1 < t.len() {
            assert(t[a - 1] == s[a]);
        }
        lemma_trim_start_is(t, a - 1);
        assert(t.skip(a - 1) =~= s.skip(a));
    }
}

pub proof fn lemma_trim_end_is(s: Seq<char>, b: int)
    requires
        0 <= b <= s.len(),
        forall|m: int| b <= m < s.len() ==> is_whitespace(#[trigger] s[m]),
        b == 0 || !is_whitespace(s[b - 1]),
    ensures
        trim_end(s) == s.take(b),
    decreases s.len() - b,
{
    if b == s.len() {
        assert(s.take(b) =~= s);
    } else {
        let t = s.drop_last();
        assert forall|m: int| b <= m < t.len() implies is_whitespace(#[trigger] t[m]) by {
            assert(t[m] == s[m]);
        }
        if b > 0 {
            assert(t[b - 1] == s[b - 1]);
        }
        lemma_trim_end_is(t, b);
        assert(t.take(b) =~= s.take(b));
    }
}

/// A run without whitespace, followed by whitespace or the end, is a word.
pub proof fn lemma_words_word_first(t: Seq<char>, rest: Seq<char>)
    requires
        t.len() > 0,
        forall|m: int| 0 <= m < t.len() ==> !is_whitespace(#[trigger] t[m]),
        rest.len() == 0 || is_whitespace(rest[0]),
    ensures
        words(t + rest) == seq![t] + words(rest),
{
    let s = t + rest;
    let stop = |c: char| is_whitespace(c);
    assert forall|m: int| 0 <= m < t.len() implies !stop(#[trigger] s[m]) by {
        assert(s[m] == t[m]);
    }
    if t.len() < s.len() {
        assert(s[t.len() as int] == rest[0]);
    }
    lemma_run_len_is(s, stop, t.len() as int);
    assert(s.take(t.len() as int) =~= t);
    assert(s.skip(t.len() as int) =~= rest);
}

/// Leading whitespace separates no word.
pub proof fn lemma_words_space_first(c: char, rest: Seq<char>)
    requires
        is_whitespace(c),
    ensures
        words(seq![c] + rest) == words(rest),
{
    assert((seq![c] + rest).drop_first() =~= rest);
}

/// The characters of `s`, in order.
pub fn chars_of(s: &str) -> (res: Vec<char>)
    ensures
        res@ == s@,
{
    let mut res: Vec<char> = Vec::new();
    for c in it: s.chars()
        invariant
            res@ == it.seq().take(it.index() as int),
            it.seq() == s@,
    {
        res.push(c);
    }
    res
}

/// Appends `c` to the end of `s` (`String::push`).
#[verifier::external_body]
fn push_char(s: &mut String, c: char)
    ensures
        final(s)@ == old(s)@.push(c),
{
    s.push(c);
}

/// A string holding the characters of `cs`, in order.
pub fn string_of(cs: &[char]) -> (res: String)
    ensures
        res@ == cs@,
{
    let mut res = String::new();
    for i in 0..cs.len()
        invariant
            res@ == cs@.take(i as int),
    {
        push_char(&mut res, cs[i]);
        assert(cs@.take(i + 1) == cs@.take(i as int).push(cs@[i as int]));
    }
    assert(cs@.take(cs@.len() as int) == cs@);
    res
}

/// Whether `c` is whitespace, as `char::is_whitespace` says.
pub fn char_is_whitespace(c: char) -> (res: bool)
    ensures
        res == is_whitespace(c),
{
    ('\t' <= c && c <= '\r') || c == ' ' || c == '\u{85}' || c == '\u{a0}' || c == '\u{1680}'
        || ('\u{2000}' <= c && c <= '\u{200a}') || c == '\u{2028}' || c == '\u{2029}'
        || c == '\u{202f}' || c == '\u{205f}' || c == '\u{3000}'
}

/// Whether two character sequences are equal.
pub fn chars_eq(a: &[char], b: &[char]) -> (res: bool)
    ensures
        res == (a@ == b@),
{
    if a.len() != b.len() {
        return false;
    }
    let mut i: usize = 0;
    while i < a.len()
        invariant
            a@.len() == b@.len(),
            0 <= i <= a@.len(),
            forall|m: int| 0 <= m < i ==> a@[m] == b@[m],
        decreases a@.len() - i,
    {
        if a[i] != b[i] {
            return false;
        }
        i = i + 1;
    }
    assert(a@ =~= b@);
    true
}

/// Whether two strings are equal.
pub fn str_eq(a: &str, b: &str) -> (res: bool)
    ensures
        res == (a@ == b@),
{
    let x = chars_of(a);
    let y = chars_of(b);
    chars_eq(x.as_slice(), y.as_slice())
}

/// `p` is a prefix of `s`.
pub open spec fn has_prefix(s: Seq<char>, p: Seq<char>) -> bool {
    p.len() <= s.len() && s.take(p.len() as int) == p
}

/// Whether `s` begins with `p` (`str::starts_with` with a string pattern).
pub fn str_starts_with(s: &str, p: &str) -> (res: bool)
    ensures
        res == has_prefix(s@, p@),
{
    let a = chars_of(s);
    let b = chars_of(p);
    if b.len() > a.len() {
        return false;
    }
    let mut i: usize = 0;
    while i < b.len()
        invariant
            a@ == s@,
            b@ == p@,
            b@.len() <= a@.len(),
            0 <= i <= b@.len(),
            forall|m: int| 0 <= m < i ==> a@[m] == b@[m],
        decreases b@.len() - i,
    {
        if a[i] != b[i] {
            assert(a@.take(b@.len() as int)[i as int] != b@[i as int]);
            return false;
        }
        i = i + 1;
    }
    assert(a@.take(b@.len() as int) =~= b@);
    true
}

/// Whether `pat` occurs in `hay` (`str::contains` with a string pattern).
pub fn contains_chars(hay: &[char], pat: &[char]) -> (res: bool)
    ensures
        res == contains(hay@, pat@),
{
    if pat.len() > hay.len() {
        return false;
    }
    let last = hay.len() - pat.len();
    let mut i: usize = 0;
    loop
        invariant_except_break
            last == hay@.len() - pat@.len(),
            pat@.len() <= hay@.len(),
            0 <= i <= last,
            forall|k: int| 0 <= k < i ==> #[trigger] hay@.subrange(k, k + pat@.len()) != pat@,
        ensures
            forall|k: int| 0 <= k <= last ==> #[trigger] hay@.subrange(k, k + pat@.len()) != pat@,
        decreases last - i,
    {
        let mut j: usize = 0;
        let mut ok = true;
        while j < pat.len()
            invariant
                i <= last,
                last == hay@.len() - pat@.len(),
                0 <= j <= pat@.len(),
                ok ==> forall|m: int| 0 <= m < j ==> hay@[i + m] == pat@[m],
                !ok ==> hay@.subrange(i as int, i + pat@.len()) != pat@,
                pat@.len() <= hay@.len(),
            decreases pat@.len() - j,
        {
            assert(i + j < hay.len());
            if hay[i + j] != pat[j] {
                ok = false;
                assert(hay@.subrange(i as int, i + pat@.len())[j as int] == hay@[i + j]);
            }
            j = j + 1;
        }
        if ok {
            assert(hay@.subrange(i as int, i + pat@.len()) =~= pat@);
            return true;
        }
        if i == last {
            break;
        }
        i = i + 1;
    }
    assert forall|k: int| 0 <= k && k + pat@.len() <= hay@.len() implies #[trigger] hay@.subrange(
        k,
        k + pat@.len(),
    ) != pat@ by {}
    false
}

/// Whether `pat` occurs in `hay`.
pub fn str_contains(hay: &str, pat: &str) -> (res: bool)
    ensures
        res == contains(hay@, pat@),
{
    let h = chars_of(hay);
    let p = chars_of(pat);
    contains_chars(h.as_slice(), p.as_slice())
}

/// The lines of `s` (`str::lines`).
pub fn lines_of(s: &str) -> (res: Vec<String>)
    ensures
        views(res@) == lines(s@),
{
    let cs = chars_of(s);
    let n = cs.len();
    let mut out: Vec<String> = Vec::new();
    let mut i: usize = 0;
    assert(cs@.skip(0) =~= cs@);
    while i < n
        invariant
            n == cs@.len(),
            0 <= i <= n,
            lines(cs@) == views(out@) + lines(cs@.skip(i as int)),
        decreases n - i,
    {
        let ghost rest = cs@.skip(i as int);
        let mut line: Vec<char> = Vec::new();
        let mut j: usize = i;
        while j < n && cs[j] != '\n'
            invariant
                n == cs@.len(),
                i <= j <= n,
                line@ == cs@.subrange(i as int, j as int),
                forall|m: int| i <= m < j ==> cs@[m] != '\n',
            decreases n - j,
        {
            line.push(cs[j]);
            j = j + 1;
            assert(line@ =~= cs@.subrange(i as int, j as int));
        }
        proof {
            let stop = |c: char| is_newline(c);
            assert forall|m: int| 0 <= m < j - i implies !stop(#[trigger] rest[m]) by {
                assert(rest[m] == cs@[i + m]);
            }
            if j < n {
                assert(rest[j - i] == cs@[j as int]);
            }
            lemma_run_len_is(rest, stop, j - i);
            assert(rest.take(j - i) =~= line@);
        }
        if j < n {
            let ghost before = line@;
            let len = line.len();
            if len > 0 && line[len - 1] == '\r' {
                line.pop();
                assert(line@ =~= before.drop_last());
            }
            let piece = string_of(line.as_slice());
            proof {
                assert(rest.skip(j - i + 1) =~= cs@.skip(j + 1));
                lemma_views_push(out@, piece);
            }
            out.push(piece);
            i = j + 1;
            assert(lines(cs@) =~= views(out@) + lines(cs@.skip(i as int)));
        } else {
            let piece = string_of(line.as_slice());
            proof {
                assert(rest =~= line@);
                lemma_views_push(out@, piece);
                assert(cs@.skip(n as int) =~= Seq::<char>::empty());
            }
            out.push(piece);
            i = n;
            assert(lines(cs@) =~= views(out@) + lines(cs@.skip(i as int)));
        }
    }
    assert(cs@.skip(n as int) =~= Seq::<char>::empty());
    assert(views(out@) + lines(cs@.skip(n as int)) =~= views(out@));
    out
}

/// The words of `s` (`str::split_whitespace`).
pub fn words_of(s: &str) -> (res: Vec<String>)
    ensures
        views(res@) == words(s@),
{
    let cs = chars_of(s);
    let n = cs.len();
    let mut out: Vec<String> = Vec::new();
    let mut i: usize = 0;
    assert(cs@.skip(0) =~= cs@);
    while i < n
        invariant
            n == cs@.len(),
            0 <= i <= n,
            words(cs@) == views(out@) + words(cs@.skip(i as int)),
        decreases n - i,
    {
        let ghost rest = cs@.skip(i as int);
        if char_is_whitespace(cs[i]) {
            assert(rest.drop_first() =~= cs@.skip(i + 1));
            i = i + 1;
        } else {
            let mut word: Vec<char> = Vec::new();
            let mut j: usize = i;
            while j < n && !char_is_whitespace(cs[j])
                invariant
                    n == cs@.len(),
                    i <= j <= n,
                    word@ == cs@.subrange(i as int, j as int),
                    forall|m: int| i <= m < j ==> !is_whitespace(#[trigger] cs@[m]),
                decreases n - j,
            {
                word.push(cs[j]);
                j = j + 1;
                assert(word@ =~= cs@.subrange(i as int, j as int));
            }
            proof {
                let stop = |c: char| is_whitespace(c);
                assert forall|m: int| 0 <= m < j - i implies !stop(#[trigger] rest[m]) by {
                    assert(rest[m] == cs@[i + m]);
                }
                if j < n {
                    assert(rest[j - i] == cs@[j as int]);
                }
                lemma_run_len_is(rest, stop, j - i);
                assert(rest.take(j - i) =~= word@);
                assert(rest.skip(j - i) =~= cs@.skip(j as int));
            }
            let piece = string_of(word.as_slice());
            proof {
                lemma_views_push(out@, piece);
            }
            out.push(piece);
            i = j;
            assert(words(cs@) =~= views(out@) + words(cs@.skip(i as int)));
        }
    }
    assert(cs@.skip(n as int) =~= Seq::<char>::empty());
    assert(views(out@) + words(cs@.skip(n as int)) =~= views(out@));
    out
}

/// `s` without leading and trailing whitespace (`str::trim`).
pub fn trim_of(s: &str) -> (res: String)
    ensures
        res@ == trim(s@),
{
    let cs = chars_of(s);
    let n = cs.len();
    let mut a: usize = 0;
    while a < n && char_is_whitespace(cs[a])
        invariant
            n == cs@.len(),
            0 <= a <= n,
            forall|m: int| 0 <= m < a ==> is_whitespace(#[trigger] cs@[m]),
        decreases n - a,
    {
        a = a + 1;
    }
    proof {
        lemma_trim_start_is(cs@, a as int);
    }
    let mut b: usize = n;
    while b > a && char_is_whitespace(cs[b - 1])
        invariant
            n == cs@.len(),
            0 <= a <= b <= n,
            forall|m: int| b <= m < n ==> is_whitespace(#[trigger] cs@[m]),
        decreases b,
    {
        b = b - 1;
    }
    let ghost t = cs@.skip(a as int);
    proof {
        assert forall|m: int| b - a <= m < t.len() implies is_whitespace(#[trigger] t[m]) by {
            assert(t[m] == cs@[a + m]);
        }
        if b > a {
            assert(t[b - a - 1] == cs@[b - 1]);
        }
        lemma_trim_end_is(t, b - a);
    }
    let mut piece: Vec<char> = Vec::new();
    let mut k: usize = a;
    while k < b
        invariant
            n == cs@.len(),
            a <= k <= b <= n,
            piece@ == cs@.subrange(a as int, k as int),
        decreases b - k,
    {
        piece.push(cs[k]);
        k = k + 1;
        assert(piece@ =~= cs@.subrange(a as int, k as int));
    }
    assert(t.take(b - a) =~= piece@);
    string_of(piece.as_slice())
}

/// The pieces of `list` with `sep` between neighbours (`join` on a slice of strings).
pub fn join_with(list: &Vec<String>, sep: &str) -> (res: String)
    ensures
        res@ == join(views(list@), sep@),
{
    let mut res = String::new();
    let ghost vs = views(list@);
    for i in 0..list.len()
        invariant
            vs == views(list@),
            res@ == join(vs.take(i as int), sep@),
    {
        if i != 0 {
            res.append(sep);
        }
        res.append(list[i].as_str());
        proof {
            assert(vs.take(i + 1).drop_last() =~= vs.take(i as int));
            if i == 0 {
                assert(res@ =~= vs.take(1)[0]);
            }
        }
    }
    assert(vs.take(list.len() as int) =~= vs);
    res
}

} // verus!
