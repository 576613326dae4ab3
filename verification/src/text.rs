//! Character-level text operations used by the template format.

use vstd::prelude::*;

verus! {

/// `String::push` appends one character at the end of the string.
pub assume_specification[ String::push ](s: &mut String, ch: char)
    ensures
        final(s)@ == old(s)@.push(ch),
;

/// The characters of `s`, in order.
pub fn chars_of(s: &str) -> (r: Vec<char>)
    ensures
        r@ == s@,
{
    let mut out: Vec<char> = Vec::new();
    for c in it: s.chars()
        invariant
            out@ == it.seq().take(it.index()),
    {
        out.push(c);
    }
    out
}

/// Whether two character vectors hold the same characters.
pub fn same_chars(a: &Vec<char>, b: &Vec<char>) -> (r: bool)
    ensures
        r == (a@ == b@),
{
    if a.len() != b.len() {
        return false;
    }
    let mut i: usize = 0;
    while i < a.len()
        invariant
            a.len() == b.len(),
            i <= a.len(),
            forall|k: int| 0 <= k < i ==> a@[k] == b@[k],
        decreases a.len() - i,
    {
        if a[i] != b[i] {
            return false;
        }
        i = i + 1;
    }
    assert(a@ =~= b@);
    true
}


/// `i` is the position of the first `c` in `s`.
pub open spec fn is_first(s: Seq<char>, c: char, i: int) -> bool {
    &&& 0 <= i < s.len()
    &&& s[i] == c
    &&& forall|k: int| 0 <= k < i ==> s[k] != c
}

/// The position of the first `c` in `s`, if there is one.
pub open spec fn first_index(s: Seq<char>, c: char) -> Option<int> {
    if exists|i: int| is_first(s, c, i) {
        Some(choose|i: int| is_first(s, c, i))
    } else {
        None
    }
}

/// The first occurrence is unique.
pub proof fn lemma_first_index(s: Seq<char>, c: char, i: int)
    requires
        is_first(s, c, i),
    ensures
        first_index(s, c) == Some(i),
{
    let j = choose|j: int| is_first(s, c, j);
    assert(is_first(s, c, j));
    if j < i {
        assert(s[j] != c);
    }
    if i < j {
        assert(s[i] != c);
    }
}

/// Without any `c`, there is no first one.
pub proof fn lemma_first_index_none(s: Seq<char>, c: char)
    requires
        forall|k: int| 0 <= k < s.len() ==> s[k] != c,
    ensures
        first_index(s, c) is None,
{
}

/// A line without the carriage return that ended it.
pub open spec fn strip_cr(line: Seq<char>) -> Seq<char> {
    if line.len() > 0 && line.last() == '\r' {
        line.drop_last()
    } else {
        line
    }
}

/// The lines of a text: split at each line feed, where a carriage return just
/// before the line feed belongs to the line ending; a final line ending is
/// optional, and an empty text has no lines.
pub open spec fn text_lines(s: Seq<char>) -> Seq<Seq<char>>
    decreases s.len(),
{
    if s.len() == 0 {
        Seq::empty()
    } else {
        match first_index(s, '\n') {
            Some(i) => seq![strip_cr(s.take(i))] + text_lines(s.skip(i + 1)),
            None => seq![s],
        }
    }
}

/// The characters of `v` from `start` up to `end`, as a string.
pub fn string_of(v: &Vec<char>, start: usize, end: usize) -> (r: String)
    requires
        start <= end <= v@.len(),
    ensures
        r@ == v@.subrange(start as int, end as int),
{
    let mut r = String::new();
    let mut i = start;
    while i < end
        invariant
            start <= i <= end <= v@.len(),
            r@ == v@.subrange(start as int, i as int),
        decreases end - i,
    {
        r.push(v[i]);
        assert(v@.subrange(start as int, i + 1) =~= v@.subrange(start as int, i as int).push(v@[i as int]));
        i = i + 1;
    }
    r
}

/// The characters of `v` from `start` up to `end`.
pub fn chars_between(v: &Vec<char>, start: usize, end: usize) -> (r: Vec<char>)
    requires
        start <= end <= v@.len(),
    ensures
        r@ == v@.subrange(start as int, end as int),
{
    let mut r: Vec<char> = Vec::new();
    let mut i = start;
    while i < end
        invariant
            start <= i <= end <= v@.len(),
            r@ == v@.subrange(start as int, i as int),
        decreases end - i,
    {
        r.push(v[i]);
        assert(v@.subrange(start as int, i + 1) =~= v@.subrange(start as int, i as int).push(v@[i as int]));
        i = i + 1;
    }
    r
}

/// The line of `v` from `start` up to a line feed at `end`, without a
/// carriage return just before the line feed.
fn line_before(v: &Vec<char>, start: usize, end: usize) -> (r: Vec<char>)
    requires
        start <= end <= v@.len(),
    ensures
        r@ == strip_cr(v@.subrange(start as int, end as int)),
{
    if end > start && v[end - 1] == '\r' {
        let r = chars_between(v, start, end - 1);
        assert(v@.subrange(start as int, end as int).drop_last() =~= v@.subrange(start as int, end - 1));
        r
    } else {
        chars_between(v, start, end)
    }
}

/// The views of a vector of character vectors.
pub open spec fn views(v: Seq<Vec<char>>) -> Seq<Seq<char>> {
    v.map_values(|l: Vec<char>| l@)
}

/// Splits a text into its lines.
pub fn split_lines(s: &Vec<char>) -> (r: Vec<Vec<char>>)
    ensures
        views(r@) == text_lines(s@),
{
    let mut out: Vec<Vec<char>> = Vec::new();
    let mut start: usize = 0;
    let mut i: usize = 0;
    assert(s@.skip(0) =~= s@);
    assert(views(out@) + text_lines(s@) =~= text_lines(s@));
    while i < s.len()
        invariant
            start <= i <= s@.len(),
            forall|k: int| start <= k < i ==> s@[k] != '\n',
            text_lines(s@) == views(out@) + text_lines(s@.skip(start as int)),
        decreases s@.len() - i,
    {
        if s[i] == '\n' {
            let line = line_before(s, start, i);
            proof {
                let rest = s@.skip(start as int);
                let j = i - start;
                assert(is_first(rest, '\n', j as int));
                lemma_first_index(rest, '\n', j as int);
                assert(rest.take(j as int) =~= s@.subrange(start as int, i as int));
                assert(rest.skip(j + 1) =~= s@.skip(i + 1));
                assert(views(out@.push(line)) =~= views(out@).push(line@));
                assert(text_lines(rest) == seq![line@] + text_lines(s@.skip(i + 1)));
                assert(views(out@).push(line@) + text_lines(s@.skip(i + 1)) =~= views(out@) + (
                seq![line@] + text_lines(s@.skip(i + 1))));
            }
            out.push(line);
            start = i + 1;
        }
        i = i + 1;
    }
    if start < s.len() {
        let line = chars_between(s, start, s.len());
        proof {
            let rest = s@.skip(start as int);
            assert forall|k: int| 0 <= k < rest.len() implies rest[k] != '\n' by {
                assert(rest[k] == s@[start + k]);
            }
            lemma_first_index_none(rest, '\n');
            assert(rest =~= line@);
            assert(views(out@.push(line)) =~= views(out@).push(line@));
            assert(views(out@) + text_lines(rest) =~= views(out@).push(line@));
        }
        out.push(line);
    } else {
        assert(s@.skip(start as int).len() == 0);
        assert(views(out@) + text_lines(s@.skip(start as int)) =~= views(out@));
    }
    out
}


/// The characters with the Unicode `White_Space` property.
pub open spec fn is_whitespace(c: char) -> bool {
    ||| ('\t' <= c && c <= '\r')
    ||| c == ' '
    ||| c == '\u{85}'
    ||| c == '\u{a0}'
    ||| c == '\u{1680}'
    ||| ('\u{2000}' <= c && c <= '\u{200a}')
    ||| c == '\u{2028}'
    ||| c == '\u{2029}'
    ||| c == '\u{202f}'
    ||| c == '\u{205f}'
    ||| c == '\u{3000}'
}

/// Whether `c` is a whitespace character.
pub fn whitespace(c: char) -> (r: bool)
    ensures
        r == is_whitespace(c),
{
    ('\t' <= c && c <= '\r') || c == ' ' || c == '\u{85}' || c == '\u{a0}' || c == '\u{1680}' || (
    '\u{2000}' <= c && c <= '\u{200a}') || c == '\u{2028}' || c == '\u{2029}' || c == '\u{202f}'
        || c == '\u{205f}' || c == '\u{3000}'
}

/// `s` without its leading whitespace.
pub open spec fn trim_start(s: Seq<char>) -> Seq<char>
    decreases s.len(),
{
    if s.len() > 0 && is_whitespace(s[0]) {
        trim_start(s.drop_first())
    } else {
        s
    }
}

/// `s` without its trailing whitespace.
pub open spec fn trim_end(s: Seq<char>) -> Seq<char>
    decreases s.len(),
{
    if s.len() > 0 && is_whitespace(s.last()) {
        trim_end(s.drop_last())
    } else {
        s
    }
}

/// `s` without leading and trailing whitespace.
pub open spec fn trim(s: Seq<char>) -> Seq<char> {
    trim_end(trim_start(s))
}

proof fn lemma_trim_start(s: Seq<char>, k: int)
    requires
        0 <= k <= s.len(),
        forall|j: int| 0 <= j < k ==> is_whitespace(s[j]),
        k == s.len() || !is_whitespace(s[k]),
    ensures
        trim_start(s) == s.skip(k),
    decreases k,
{
    if k > 0 {
        let t = s.drop_first();
        assert forall|j: int| 0 <= j < k - 1 implies is_whitespace(t[j]) by {
            assert(t[j] == s[j + 1]);
        }
        if k < s.len() {
            assert(t[k - 1] == s[k]);
        }
        lemma_trim_start(t, k - 1);
        assert(t.skip(k - 1) =~= s.skip(k));
    } else {
        assert(s.skip(0) =~= s);
    }
}

proof fn lemma_trim_end(s: Seq<char>, m: int)
    requires
        0 <= m <= s.len(),
        forall|j: int| m <= j < s.len() ==> is_whitespace(s[j]),
        m == 0 || !is_whitespace(s[m - 1]),
    ensures
        trim_end(s) == s.take(m),
    decreases s.len() - m,
{
    if m < s.len() {
        let t = s.drop_last();
        assert forall|j: int| m <= j < t.len() implies is_whitespace(t[j]) by {
            assert(t[j] == s[j]);
        }
        if m > 0 {
            assert(t[m - 1] == s[m - 1]);
        }
        lemma_trim_end(t, m);
        assert(t.take(m) =~= s.take(m));
    } else {
        assert(s.take(m) =~= s);
    }
}

/// The bounds of `v[start..end]` without leading and trailing whitespace.
pub fn trim_range(v: &Vec<char>, start: usize, end: usize) -> (r: (usize, usize))
    requires
        start <= end <= v@.len(),
    ensures
        start <= r.0 <= r.1 <= end,
        v@.subrange(r.0 as int, r.1 as int) == trim(v@.subrange(start as int, end as int)),
{
    let mut a = start;
    while a < end && whitespace(v[a])
        invariant
            start <= a <= end <= v@.len(),
            forall|j: int| start <= j < a ==> is_whitespace(v@[j]),
        decreases end - a,
    {
        a = a + 1;
    }
    let mut b = end;
    while b > a && whitespace(v[b - 1])
        invariant
            start <= a <= b <= end <= v@.len(),
            forall|j: int| b <= j < end ==> is_whitespace(v@[j]),
        decreases b - a,
    {
        b = b - 1;
    }
    proof {
        let sub = v@.subrange(start as int, end as int);
        lemma_trim_start(sub, a - start);
        assert(sub.skip(a - start) =~= v@.subrange(a as int, end as int));
        let rest = v@.subrange(a as int, end as int);
        lemma_trim_end(rest, b - a);
        assert(rest.take(b - a) =~= v@.subrange(a as int, b as int));
    }
    (a, b)
}

/// `s` with each doubled `c` written once, pairs taken from the left.
pub open spec fn collapse_doubled(s: Seq<char>, c: char) -> Seq<char>
    decreases s.len(),
{
    if s.len() == 0 {
        s
    } else if s.len() >= 2 && s[0] == c && s[1] == c {
        seq![c] + collapse_doubled(s.skip(2), c)
    } else {
        seq![s[0]] + collapse_doubled(s.skip(1), c)
    }
}

/// Writes each doubled `c` of `v[start..end]` once.
pub fn collapse(v: &Vec<char>, start: usize, end: usize, c: char) -> (r: Vec<char>)
    requires
        start <= end <= v@.len(),
    ensures
        r@ == collapse_doubled(v@.subrange(start as int, end as int), c),
{
    let ghost s = v@.subrange(start as int, end as int);
    let mut out: Vec<char> = Vec::new();
    let mut i = start;
    assert(s.skip(0) =~= s);
    assert(out@ + collapse_doubled(s, c) =~= collapse_doubled(s, c));
    while i < end
        invariant
            start <= i <= end <= v@.len(),
            s == v@.subrange(start as int, end as int),
            collapse_doubled(s, c) == out@ + collapse_doubled(s.skip(i - start), c),
        decreases end - i,
    {
        let ghost rest = s.skip(i - start);
        assert(rest[0] == v@[i as int]);
        if i + 1 < end && v[i] == c && v[i + 1] == c {
            assert(rest[1] == v@[i + 1]);
            assert(rest.skip(2) =~= s.skip(i + 2 - start));
            out.push(c);
            assert(collapse_doubled(s, c) =~= out@ + collapse_doubled(s.skip(i + 2 - start), c));
            i = i + 2;
        } else {
            assert(rest.skip(1) =~= s.skip(i + 1 - start));
            out.push(v[i]);
            assert(collapse_doubled(s, c) =~= out@ + collapse_doubled(s.skip(i + 1 - start), c));
            i = i + 1;
        }
    }
    assert(s.skip(end - start) =~= Seq::<char>::empty());
    assert(out@ + Seq::<char>::empty() =~= out@);
    out
}

/// The position of the first `c` in `v[start..end]`, counted from `start`.
pub fn find_char(v: &Vec<char>, start: usize, end: usize, c: char) -> (r: Option<usize>)
    requires
        start <= end <= v@.len(),
    ensures
        match r {
            Some(i) => start <= i < end && first_index(v@.subrange(start as int, end as int), c)
                == Some(i - start),
            None => first_index(v@.subrange(start as int, end as int), c) is None,
        },
{
    let ghost s = v@.subrange(start as int, end as int);
    let mut i = start;
    while i < end
        invariant
            start <= i <= end <= v@.len(),
            s == v@.subrange(start as int, end as int),
            forall|k: int| start <= k < i ==> v@[k] != c,
        decreases end - i,
    {
        if v[i] == c {
            proof {
                assert forall|k: int| 0 <= k < i - start implies s[k] != c by {
                    assert(s[k] == v@[start + k]);
                }
                lemma_first_index(s, c, i - start);
            }
            return Some(i);
        }
        i = i + 1;
    }
    proof {
        assert forall|k: int| 0 <= k < s.len() implies s[k] != c by {
            assert(s[k] == v@[start + k]);
        }
        lemma_first_index_none(s, c);
    }
    None
}

/// Whether `v[start..end]` holds exactly the characters of `word`.
pub fn range_is(v: &Vec<char>, start: usize, end: usize, word: &Vec<char>) -> (r: bool)
    requires
        start <= end <= v@.len(),
    ensures
        r == (v@.subrange(start as int, end as int) == word@),
{
    if end - start != word.len() {
        return false;
    }
    let mut i: usize = 0;
    while i < word.len()
        invariant
            end - start == word@.len(),
            start <= end <= v@.len(),
            i <= word@.len(),
            forall|k: int| 0 <= k < i ==> v@[start + k] == word@[k],
        decreases word@.len() - i,
    {
        if v[start + i] != word[i] {
            return false;
        }
        i = i + 1;
    }
    assert(v@.subrange(start as int, end as int) =~= word@);
    true
}

/// The lines of `s` followed by `ending` are the lines of `s`, when `ending`
/// is a line ending that `s` does not already end with.
proof fn lemma_line_ending_at_end(s: Seq<char>, ending: Seq<char>)
    requires
        s.len() > 0,
        s.last() != '\n',
        ending == seq!['\n'] || (ending == seq!['\r', '\n']),
        ending == seq!['\n'] ==> s.last() != '\r',
    ensures
        text_lines(s + ending) == text_lines(s),
    decreases s.len(),
{
    let t = s + ending;
    let nl = (t.len() - 1) as int;
    match first_index(s, '\n') {
        Some(i) => {
            assert(is_first(s, '\n', i));
            assert(is_first(t, '\n', i)) by {
                assert forall|k: int| 0 <= k < i implies t[k] != '\n' by {
                    assert(t[k] == s[k]);
                }
                assert(t[i] == s[i]);
            }
            lemma_first_index(t, '\n', i);
            assert(t.take(i) =~= s.take(i));
            let rest = s.skip(i + 1);
            assert(i + 1 < s.len());
            assert(t.skip(i + 1) =~= rest + ending);
            assert(rest.last() == s.last());
            lemma_line_ending_at_end(rest, ending);
        },
        None => {
            lemma_last_line_ending(s, ending);
        },
    }
}

/// The last line of a text: it holds no line feed.
proof fn lemma_last_line_ending(s: Seq<char>, ending: Seq<char>)
    requires
        s.len() > 0,
        first_index(s, '\n') is None,
        ending == seq!['\n'] || (ending == seq!['\r', '\n']),
        ending == seq!['\n'] ==> s.last() != '\r',
    ensures
        text_lines(s + ending) == text_lines(s),
{
    let t = s + ending;
    let nl = (t.len() - 1) as int;
    assert forall|k: int| 0 <= k < s.len() implies s[k] != '\n' by {
        if s[k] == '\n' {
            lemma_some_first(s, '\n', k);
        }
    }
    assert(is_first(t, '\n', nl)) by {
        assert forall|k: int| 0 <= k < nl implies t[k] != '\n' by {
            if k < s.len() {
                assert(t[k] == s[k]);
            } else {
                assert(t[k] == '\r');
            }
        }
    }
    lemma_first_index(t, '\n', nl);
    let empty = t.skip(nl + 1);
    assert(empty.len() == 0);
    assert(text_lines(empty) == Seq::<Seq<char>>::empty());
    assert(strip_cr(t.take(nl)) =~= s);
    assert(text_lines(t) == seq![strip_cr(t.take(nl))] + text_lines(empty));
    assert(text_lines(t) =~= seq![s]);
    assert(text_lines(s) == seq![s]);
}

/// Where there is a `c`, there is a first one.
proof fn lemma_some_first(s: Seq<char>, c: char, k: int)
    requires
        0 <= k < s.len(),
        s[k] == c,
    ensures
        first_index(s, c) is Some,
    decreases k,
{
    if forall|j: int| 0 <= j < k ==> s[j] != c {
        assert(is_first(s, c, k));
    } else {
        let j = choose|j: int| 0 <= j < k && s[j] == c;
        lemma_some_first(s, c, j);
    }
}

/// A final line feed does not change the lines of a text (one that does not
/// already end with a line ending, nor with a carriage return).
pub proof fn lemma_final_line_feed(s: Seq<char>)
    requires
        s.len() > 0,
        s.last() != '\n',
        s.last() != '\r',
    ensures
        text_lines(s.push('\n')) == text_lines(s),
{
    assert(s.push('\n') =~= s + seq!['\n']);
    lemma_line_ending_at_end(s, seq!['\n']);
}

/// A final carriage return and line feed do not change the lines of a text
/// (one that does not already end with a line feed).
pub proof fn lemma_final_crlf(s: Seq<char>)
    requires
        s.len() > 0,
        s.last() != '\n',
    ensures
        text_lines(s + seq!['\r', '\n']) == text_lines(s),
{
    lemma_line_ending_at_end(s, seq!['\r', '\n']);
}

/// `i` is the position of the last `c` in `s`.
pub open spec fn is_last(s: Seq<char>, c: char, i: int) -> bool {
    &&& 0 <= i < s.len()
    &&& s[i] == c
    &&& forall|k: int| i < k < s.len() ==> s[k] != c
}

/// The stem of a file name: the part before its last `.`; the whole name
/// when it holds no `.`, or when its only `.` is its first character.
pub open spec fn stem_of(name: Seq<char>) -> Seq<char> {
    if exists|i: int| 0 < i && is_last(name, '.', i) {
        name.take(choose|i: int| 0 < i && is_last(name, '.', i))
    } else {
        name
    }
}

/// The stem of the file name `name`.
pub fn file_stem(name: &str) -> (r: String)
    ensures
        r@ == stem_of(name@),
{
    let cs = chars_of(name);
    let mut i = cs.len();
    while i > 0
        invariant
            i <= cs@.len(),
            cs@ == name@,
            forall|k: int| i <= k < cs@.len() ==> cs@[k] != '.',
        decreases i,
    {
        if cs[i - 1] == '.' {
            let dot = i - 1;
            proof {
                assert(is_last(cs@, '.', dot as int));
                if exists|j: int| 0 < j && is_last(cs@, '.', j) {
                    let j = choose|j: int| 0 < j && is_last(cs@, '.', j);
                    if j < dot {
                        assert(cs@[dot as int] != '.');
                    }
                    if dot < j {
                        assert(cs@[j] != '.');
                    }
                }
            }
            if dot == 0 {
                return string_of(&cs, 0, cs.len());
            }
            proof {
                assert(cs@.subrange(0, dot as int) =~= cs@.take(dot as int));
            }
            return string_of(&cs, 0, dot);
        }
        i = i - 1;
    }
    assert(cs@.subrange(0, cs@.len() as int) =~= cs@);
    string_of(&cs, 0, cs.len())
}

} // verus!
