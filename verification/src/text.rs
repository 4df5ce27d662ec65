//! Character-level helpers: strings are handled as sequences of `char`
//! so that every transformation has a precise meaning in the contracts.
use vstd::prelude::*;

verus! {

/// Unicode `White_Space`, the property that `str::trim` strips.
pub open spec fn is_ws(c: char) -> bool {
    let u = c as u32;
    ||| 9 <= u <= 13
    ||| u == 32
    ||| u == 0x85
    ||| u == 0xA0
    ||| u == 0x1680
    ||| 0x2000 <= u <= 0x200A
    ||| u == 0x2028
    ||| u == 0x2029
    ||| u == 0x202F
    ||| u == 0x205F
    ||| u == 0x3000
}

pub open spec fn is_digit(c: char) -> bool {
    '0' <= c <= '9'
}

pub open spec fn is_ascii_alnum(c: char) -> bool {
    ||| '0' <= c <= '9'
    ||| 'a' <= c <= 'z'
    ||| 'A' <= c <= 'Z'
}

/// Removes leading whitespace.
pub open spec fn trim_start(s: Seq<char>) -> Seq<char>
    decreases s.len(),
{
    if s.len() > 0 && is_ws(s[0]) {
        trim_start(s.subrange(1, s.len() as int))
    } else {
        s
    }
}

/// Removes trailing whitespace.
pub open spec fn trim_end(s: Seq<char>) -> Seq<char>
    decreases s.len(),
{
    if s.len() > 0 && is_ws(s.last()) {
        trim_end(s.drop_last())
    } else {
        s
    }
}

/// Removes whitespace at both ends.
pub open spec fn trim(s: Seq<char>) -> Seq<char> {
    trim_end(trim_start(s))
}

/// Whether the trimmed text is empty, i.e. every character is whitespace.
pub open spec fn is_blank(s: Seq<char>) -> bool {
    trim(s).len() == 0
}

pub open spec fn starts_with(s: Seq<char>, p: Seq<char>) -> bool {
    p.len() <= s.len() && s.subrange(0, p.len() as int) == p
}

pub open spec fn ends_with(s: Seq<char>, p: Seq<char>) -> bool {
    p.len() <= s.len() && s.subrange(s.len() - p.len(), s.len() as int) == p
}

/// `p` occurs in `s` starting at index `i`.
pub open spec fn occurs_at(s: Seq<char>, p: Seq<char>, i: int) -> bool {
    0 <= i && i + p.len() <= s.len() && s.subrange(i, i + p.len()) == p
}

pub open spec fn contains_seq(s: Seq<char>, p: Seq<char>) -> bool {
    exists|i: int| occurs_at(s, p, i)
}

pub proof fn lemma_trim_start_all_ws(s: Seq<char>)
    ensures
        (forall|i: int| 0 <= i < s.len() ==> is_ws(#[trigger] s[i])) ==> trim_start(s).len() == 0,
    decreases s.len(),
{
    if s.len() > 0 && is_ws(s[0]) {
        let t = s.subrange(1, s.len() as int);
        assert forall|i: int| (forall|j: int| 0 <= j < s.len() ==> is_ws(#[trigger] s[j])) && 0 <= i < t.len() implies is_ws(#[trigger] t[i]) by {
            assert(t[i] == s[i + 1]);
        }
        lemma_trim_start_all_ws(t);
    }
}

pub proof fn lemma_trim_end_len(s: Seq<char>)
    ensures
        trim_end(s).len() <= s.len(),
        trim_end(s) == s.subrange(0, trim_end(s).len() as int),
        trim_end(s).len() > 0 ==> !is_ws(trim_end(s).last()),
    decreases s.len(),
{
    if s.len() > 0 && is_ws(s.last()) {
        lemma_trim_end_len(s.drop_last());
        assert(s.drop_last().subrange(0, trim_end(s).len() as int) =~= s.subrange(0, trim_end(s).len() as int));
    } else {
        assert(s.subrange(0, s.len() as int) =~= s);
    }
}

pub proof fn lemma_trim_start_shape(s: Seq<char>)
    ensures
        trim_start(s).len() <= s.len(),
        trim_start(s) == s.subrange(s.len() - trim_start(s).len(), s.len() as int),
        trim_start(s).len() > 0 ==> !is_ws(trim_start(s)[0]),
    decreases s.len(),
{
    if s.len() > 0 && is_ws(s[0]) {
        let t = s.subrange(1, s.len() as int);
        lemma_trim_start_shape(t);
        assert(t.subrange(t.len() - trim_start(t).len(), t.len() as int) =~= s.subrange(s.len() - trim_start(s).len(), s.len() as int));
    } else {
        assert(s.subrange(0, s.len() as int) =~= s);
    }
}

/// Whitespace test with the meaning of `char::is_whitespace`.
pub fn is_whitespace(c: char) -> (b: bool)
    ensures
        b == is_ws(c),
{
    let u = c as u32;
    (9 <= u && u <= 13) || u == 32 || u == 0x85 || u == 0xA0 || u == 0x1680 || (0x2000 <= u && u
        <= 0x200A) || u == 0x2028 || u == 0x2029 || u == 0x202F || u == 0x205F || u == 0x3000
}

pub fn is_ascii_digit(c: char) -> (b: bool)
    ensures
        b == is_digit(c),
{
    '0' <= c && c <= '9'
}

/// The characters of a string, in order.
pub fn chars_of(s: &str) -> (v: Vec<char>)
    ensures
        v@ == s@,
{
    let mut v: Vec<char> = Vec::new();
    for c in it: s.chars()
        invariant
            v@ == it.seq().subrange(0, it.index() as int),
    {
        v.push(c);
    }
    v
}

/// Appends one character to a `String` (std's `String::push`).
#[verifier::external_body]
fn push_char(s: &mut String, c: char)
    ensures
        final(s)@ == old(s)@.push(c),
{
    s.push(c);
}

/// The string made of the given characters.
pub fn string_of(v: &[char]) -> (s: String)
    ensures
        s@ == v@,
{
    let mut s = String::new();
    let mut i: usize = 0;
    while i < v.len()
        invariant
            i <= v@.len(),
            s@ == v@.subrange(0, i as int),
        decreases v@.len() - i,
    {
        push_char(&mut s, v[i]);
        i = i + 1;
        assert(s@ =~= v@.subrange(0, i as int));
    }
    assert(s@ =~= v@);
    s
}

/// The characters `v[lo..hi]` as a new vector.
pub fn copy_range(v: &[char], lo: usize, hi: usize) -> (r: Vec<char>)
    requires
        lo <= hi <= v@.len(),
    ensures
        r@ == v@.subrange(lo as int, hi as int),
{
    let mut r: Vec<char> = Vec::new();
    let mut i = lo;
    while i < hi
        invariant
            lo <= i <= hi <= v@.len(),
            r@ == v@.subrange(lo as int, i as int),
        decreases hi - i,
    {
        r.push(v[i]);
        i = i + 1;
        assert(r@ =~= v@.subrange(lo as int, i as int));
    }
    r
}

/// Index of the first non-whitespace character (or the length).
pub fn trim_start_index(v: &[char]) -> (i: usize)
    ensures
        i <= v@.len(),
        trim_start(v@) == v@.subrange(i as int, v@.len() as int),
{
    let mut i: usize = 0;
    assert(v@.subrange(0, v@.len() as int) =~= v@);
    while i < v.len() && is_whitespace(v[i])
        invariant
            i <= v@.len(),
            trim_start(v@) == trim_start(v@.subrange(i as int, v@.len() as int)),
        decreases v@.len() - i,
    {
        let ghost t = v@.subrange(i as int, v@.len() as int);
        assert(t.subrange(1, t.len() as int) =~= v@.subrange(i + 1, v@.len() as int));
        i = i + 1;
    }
    let ghost t = v@.subrange(i as int, v@.len() as int);
    assert(trim_start(t) == t);
    i
}

/// Index just past the last non-whitespace character of `v[..hi]`.
pub fn trim_end_index(v: &[char], hi: usize) -> (j: usize)
    requires
        hi <= v@.len(),
    ensures
        j <= hi,
        trim_end(v@.subrange(0, hi as int)) == v@.subrange(0, j as int),
{
    let mut j = hi;
    while j > 0 && is_whitespace(v[j - 1])
        invariant
            j <= hi <= v@.len(),
            trim_end(v@.subrange(0, hi as int)) == trim_end(v@.subrange(0, j as int)),
        decreases j,
    {
        assert(v@.subrange(0, j as int).drop_last() =~= v@.subrange(0, j - 1));
        j = j - 1;
    }
    j
}

/// `trim` on a character vector.
pub fn trim_chars(v: &[char]) -> (r: Vec<char>)
    ensures
        r@ == trim(v@),
{
    let i = trim_start_index(v);
    let n = v.len();
    let j = trim_end_index(v, n);
    assert(v@.subrange(0, n as int) =~= v@);
    // trim(v) = trim_end(v[i..n]); relate it to v[..j]
    let ghost s = v@.subrange(i as int, n as int);
    proof {
        lemma_trim_end_len(s);
        lemma_trim_end_len(v@);
        lemma_trim_start_shape(v@);
        lemma_trim_end_of_suffix(v@, i as int);
    }
    if j <= i {
        let r: Vec<char> = Vec::new();
        assert(r@ =~= trim(v@));
        r
    } else {
        let r = copy_range(v, i, j);
        assert(r@ =~= trim(v@));
        r
    }
}

/// Trimming the end of a suffix `s[i..]` gives `s[i..j]` where `s[..j]` is the
/// end-trimmed whole, when that reaches past `i`; otherwise nothing is left.
pub proof fn lemma_trim_end_of_suffix(s: Seq<char>, i: int)
    requires
        0 <= i <= s.len(),
    ensures
        ({
            let j = trim_end(s).len() as int;
            if j <= i {
                trim_end(s.subrange(i, s.len() as int)).len() == 0
            } else {
                trim_end(s.subrange(i, s.len() as int)) == s.subrange(i, j)
            }
        }),
    decreases s.len(),
{
    let t = s.subrange(i, s.len() as int);
    lemma_trim_end_len(s);
    if s.len() > 0 && is_ws(s.last()) {
        if i == s.len() {
            assert(t.len() == 0);
        } else {
            lemma_trim_end_len(s.drop_last());
            lemma_trim_end_of_suffix(s.drop_last(), i);
            let j = trim_end(s).len() as int;
            if j > i {
                assert(s.drop_last().subrange(i, j) =~= s.subrange(i, j));
            }
            assert(t.drop_last() =~= s.drop_last().subrange(i, s.len() - 1));
            assert(t.last() == s.last());
        }
    } else {
        if i == s.len() {
            assert(t.len() == 0);
        } else {
            assert(t.last() == s.last());
        }
    }
}

/// `starts_with` on character slices.
pub fn has_prefix(s: &[char], p: &[char]) -> (b: bool)
    ensures
        b == starts_with(s@, p@),
{
    if p.len() > s.len() {
        return false;
    }
    let mut i: usize = 0;
    while i < p.len()
        invariant
            p@.len() <= s@.len(),
            i <= p@.len(),
            forall|k: int| 0 <= k < i ==> s@[k] == p@[k],
        decreases p@.len() - i,
    {
        if s[i] != p[i] {
            assert(s@.subrange(0, p@.len() as int)[i as int] != p@[i as int]);
            return false;
        }
        i = i + 1;
    }
    assert(s@.subrange(0, p@.len() as int) =~= p@);
    true
}

/// `ends_with` on character slices.
pub fn has_suffix(s: &[char], p: &[char]) -> (b: bool)
    ensures
        b == ends_with(s@, p@),
{
    if p.len() > s.len() {
        return false;
    }
    let off = s.len() - p.len();
    let sl = s.len();
    let mut i: usize = 0;
    while i < p.len()
        invariant
            sl == s@.len(),
            p@.len() <= s@.len(),
            off == s@.len() - p@.len(),
            off + p@.len() == s@.len(),
            i <= p@.len(),
            forall|k: int| 0 <= k < i ==> s@[off + k] == p@[k],
        decreases p@.len() - i,
    {
        if s[off + i] != p[i] {
            assert(s@.subrange(off as int, s@.len() as int)[i as int] != p@[i as int]);
            return false;
        }
        i = i + 1;
    }
    assert(s@.subrange(off as int, s@.len() as int) =~= p@);
    true
}

/// Whether `p` occurs in `s` at position `at`.
pub fn matches_at(s: &[char], p: &[char], at: usize) -> (b: bool)
    ensures
        b == occurs_at(s@, p@, at as int),
{
    if at > s.len() || p.len() > s.len() - at {
        return false;
    }
    let sl = s.len();
    let mut i: usize = 0;
    while i < p.len()
        invariant
            sl == s@.len(),
            at + p@.len() <= s@.len(),
            i <= p@.len(),
            forall|k: int| 0 <= k < i ==> s@[at + k] == p@[k],
        decreases p@.len() - i,
    {
        if s[at + i] != p[i] {
            assert(s@.subrange(at as int, at + p@.len())[i as int] != p@[i as int]);
            return false;
        }
        i = i + 1;
    }
    assert(s@.subrange(at as int, at + p@.len()) =~= p@);
    true
}

/// First position at which `p` occurs in `s`.
pub fn find_seq(s: &[char], p: &[char]) -> (r: Option<usize>)
    ensures
        match r {
            Some(i) => occurs_at(s@, p@, i as int) && forall|k: int|
                0 <= k < i ==> !occurs_at(s@, p@, k),
            None => !contains_seq(s@, p@),
        },
{
    let mut i: usize = 0;
    while i <= s.len()
        invariant
            i <= s@.len() + 1,
            forall|k: int| 0 <= k < i ==> !occurs_at(s@, p@, k),
        decreases s@.len() + 1 - i,
    {
        if matches_at(s, p, i) {
            return Some(i);
        }
        if i == s.len() {
            assert forall|k: int| !occurs_at(s@, p@, k) by {
                if k > s@.len() {
                    assert(!occurs_at(s@, p@, k));
                }
            }
            return None;
        }
        i = i + 1;
    }
    None
}

/// Removes every trailing `c`.
pub open spec fn trim_end_char(s: Seq<char>, c: char) -> Seq<char>
    decreases s.len(),
{
    if s.len() > 0 && s.last() == c {
        trim_end_char(s.drop_last(), c)
    } else {
        s
    }
}

/// Removes every leading `c`.
pub open spec fn trim_start_char(s: Seq<char>, c: char) -> Seq<char>
    decreases s.len(),
{
    if s.len() > 0 && s[0] == c {
        trim_start_char(s.subrange(1, s.len() as int), c)
    } else {
        s
    }
}

/// `s` cut at every `c` (always at least one piece).
pub open spec fn split_on(s: Seq<char>, c: char) -> Seq<Seq<char>>
    decreases s.len(),
{
    if s.len() == 0 {
        seq![Seq::<char>::empty()]
    } else {
        let p = split_on(s.drop_last(), c);
        if s.last() == c {
            p.push(Seq::<char>::empty())
        } else {
            p.update(p.len() - 1, p.last().push(s.last()))
        }
    }
}

/// One `'\r'` removed from the end, if there is one.
pub open spec fn strip_cr(s: Seq<char>) -> Seq<char> {
    if s.len() > 0 && s.last() == '\r' {
        s.drop_last()
    } else {
        s
    }
}

/// The lines of `s` as `str::lines` gives them: split at `'\n'`, a line
/// ended by `"\r\n"` loses its `'\r'`, and a last empty piece is dropped.
pub open spec fn lines(s: Seq<char>) -> Seq<Seq<char>> {
    let p = split_on(s, '\n');
    let ended = p.drop_last().map_values(|l: Seq<char>| strip_cr(l));
    if p.last().len() == 0 {
        ended
    } else {
        ended.push(p.last())
    }
}

/// The pieces joined with `sep` between them.
pub open spec fn join(parts: Seq<Seq<char>>, sep: Seq<char>) -> Seq<char>
    decreases parts.len(),
{
    if parts.len() == 0 {
        Seq::<char>::empty()
    } else if parts.len() == 1 {
        parts[0]
    } else {
        join(parts.drop_last(), sep) + sep + parts.last()
    }
}

/// ASCII letters lowered, other characters kept (`to_ascii_lowercase`).
pub open spec fn ascii_lower_char(c: char) -> char {
    if 'A' <= c <= 'Z' {
        ((c as u32) + 32) as char
    } else {
        c
    }
}

pub open spec fn ascii_lower(s: Seq<char>) -> Seq<char> {
    s.map_values(|c: char| ascii_lower_char(c))
}

/// Index from which only `c` follows in `v`.
pub fn trim_end_char_index(v: &[char], c: char) -> (j: usize)
    ensures
        j <= v@.len(),
        trim_end_char(v@, c) == v@.subrange(0, j as int),
{
    let mut j = v.len();
    assert(v@.subrange(0, j as int) =~= v@);
    while j > 0 && v[j - 1] == c
        invariant
            j <= v@.len(),
            trim_end_char(v@, c) == trim_end_char(v@.subrange(0, j as int), c),
        decreases j,
    {
        assert(v@.subrange(0, j as int).drop_last() =~= v@.subrange(0, j - 1));
        j = j - 1;
    }
    j
}

/// Number of leading `c` in `v`.
pub fn trim_start_char_index(v: &[char], c: char) -> (i: usize)
    ensures
        i <= v@.len(),
        trim_start_char(v@, c) == v@.subrange(i as int, v@.len() as int),
{
    let mut i: usize = 0;
    assert(v@.subrange(0, v@.len() as int) =~= v@);
    while i < v.len() && v[i] == c
        invariant
            i <= v@.len(),
            trim_start_char(v@, c) == trim_start_char(v@.subrange(i as int, v@.len() as int), c),
        decreases v@.len() - i,
    {
        let ghost t = v@.subrange(i as int, v@.len() as int);
        assert(t.subrange(1, t.len() as int) =~= v@.subrange(i + 1, v@.len() as int));
        i = i + 1;
    }
    i
}

/// The lines of `v` (see `lines`).
pub fn split_lines(v: &[char]) -> (r: Vec<Vec<char>>)
    ensures
        r@.map_values(|l: Vec<char>| l@) == lines(v@),
{
    // pieces split at '\n', the last one still open
    let mut done: Vec<Vec<char>> = Vec::new();
    let mut cur: Vec<char> = Vec::new();
    let mut i: usize = 0;
    assert(split_on(v@.subrange(0, 0), '\n') =~= seq![Seq::<char>::empty()]);
    while i < v.len()
        invariant
            i <= v@.len(),
            split_on(v@.subrange(0, i as int), '\n') == done@.map_values(|l: Vec<char>| l@).push(
                cur@,
            ),
        decreases v@.len() - i,
    {
        let ghost pre = v@.subrange(0, i as int);
        assert(v@.subrange(0, i + 1).drop_last() =~= pre);
        let ch = v[i];
        if ch == '\n' {
            done.push(cur);
            cur = Vec::new();
            assert(done@.map_values(|l: Vec<char>| l@).push(cur@) =~= split_on(pre, '\n').push(
                Seq::<char>::empty(),
            ));
        } else {
            let ghost before = cur@;
            cur.push(ch);
            assert(done@.map_values(|l: Vec<char>| l@).push(cur@) =~= split_on(pre, '\n').update(
                split_on(pre, '\n').len() - 1,
                before.push(ch),
            ));
        }
        i = i + 1;
    }
    assert(v@.subrange(0, v@.len() as int) =~= v@);
    let ghost p = split_on(v@, '\n');
    let ghost d = done@.map_values(|l: Vec<char>| l@);
    assert(p.drop_last() =~= d);
    assert(p.last() == cur@);
    // strip one '\r' from every ended line
    let mut r: Vec<Vec<char>> = Vec::new();
    let mut k: usize = 0;
    while k < done.len()
        invariant
            k <= done@.len(),
            d == done@.map_values(|l: Vec<char>| l@),
            r@.len() == k,
            forall|j: int| 0 <= j < k ==> #[trigger] r@[j]@ == strip_cr(d[j]),
        decreases done@.len() - k,
    {
        let line = &done[k];
        let n = line.len();
        let stripped = if n > 0 && line[n - 1] == '\r' {
            copy_range(line.as_slice(), 0, n - 1)
        } else {
            copy_range(line.as_slice(), 0, n)
        };
        assert(line@.subrange(0, n as int) =~= line@);
        assert(line@.drop_last() =~= line@.subrange(0, n - 1)) by {
            if n > 0 {
                assert(line@.drop_last() =~= line@.subrange(0, n - 1));
            }
        }
        r.push(stripped);
        k = k + 1;
    }
    let ghost ended = p.drop_last().map_values(|l: Seq<char>| strip_cr(l));
    assert(r@.map_values(|l: Vec<char>| l@) =~= ended);
    if cur.len() > 0 {
        r.push(cur);
        assert(r@.map_values(|l: Vec<char>| l@) =~= ended.push(p.last()));
    }
    r
}

/// `v` cut at every `c`, as `str::split` cuts it.
pub fn split_at_char(v: &[char], c: char) -> (r: Vec<Vec<char>>)
    ensures
        r@.map_values(|l: Vec<char>| l@) == split_on(v@, c),
{
    let mut done: Vec<Vec<char>> = Vec::new();
    let mut cur: Vec<char> = Vec::new();
    let mut i: usize = 0;
    assert(split_on(v@.subrange(0, 0), c) =~= seq![Seq::<char>::empty()]);
    while i < v.len()
        invariant
            i <= v@.len(),
            split_on(v@.subrange(0, i as int), c) == done@.map_values(|l: Vec<char>| l@).push(
                cur@,
            ),
        decreases v@.len() - i,
    {
        let ghost pre = v@.subrange(0, i as int);
        assert(v@.subrange(0, i + 1).drop_last() =~= pre);
        let ch = v[i];
        if ch == c {
            done.push(cur);
            cur = Vec::new();
            assert(done@.map_values(|l: Vec<char>| l@).push(cur@) =~= split_on(pre, c).push(
                Seq::<char>::empty(),
            ));
        } else {
            let ghost before = cur@;
            cur.push(ch);
            assert(done@.map_values(|l: Vec<char>| l@).push(cur@) =~= split_on(pre, c).update(
                split_on(pre, c).len() - 1,
                before.push(ch),
            ));
        }
        i = i + 1;
    }
    assert(v@.subrange(0, v@.len() as int) =~= v@);
    done.push(cur);
    done
}

/// The pieces joined with `sep` between them.
pub fn join_parts(parts: &Vec<Vec<char>>, sep: &[char]) -> (r: Vec<char>)
    ensures
        r@ == join(parts@.map_values(|l: Vec<char>| l@), sep@),
{
    let ghost ps = parts@.map_values(|l: Vec<char>| l@);
    let mut r: Vec<char> = Vec::new();
    let mut i: usize = 0;
    while i < parts.len()
        invariant
            i <= parts@.len(),
            ps == parts@.map_values(|l: Vec<char>| l@),
            r@ == join(ps.subrange(0, i as int), sep@),
        decreases parts@.len() - i,
    {
        let ghost before = r@;
        assert(ps.subrange(0, i + 1).drop_last() =~= ps.subrange(0, i as int));
        if i > 0 {
            append_chars(&mut r, sep);
        }
        append_chars(&mut r, parts[i].as_slice());
        i = i + 1;
        if i == 1 {
            assert(r@ =~= join(ps.subrange(0, i as int), sep@));
        } else {
            assert(r@ =~= join(ps.subrange(0, i as int), sep@));
        }
    }
    assert(ps.subrange(0, ps.len() as int) =~= ps);
    r
}

/// Appends the characters of `s`.
pub fn append_chars(v: &mut Vec<char>, s: &[char])
    ensures
        final(v)@ == old(v)@ + s@,
{
    let mut i: usize = 0;
    while i < s.len()
        invariant
            i <= s@.len(),
            v@ == old(v)@ + s@.subrange(0, i as int),
        decreases s@.len() - i,
    {
        v.push(s[i]);
        i = i + 1;
        assert(v@ =~= old(v)@ + s@.subrange(0, i as int));
    }
    assert(s@.subrange(0, s@.len() as int) =~= s@);
}

/// ASCII letters lowered.
pub fn to_ascii_lower(v: &[char]) -> (r: Vec<char>)
    ensures
        r@ == ascii_lower(v@),
{
    let mut r: Vec<char> = Vec::new();
    let mut i: usize = 0;
    while i < v.len()
        invariant
            i <= v@.len(),
            r@ == ascii_lower(v@.subrange(0, i as int)),
        decreases v@.len() - i,
    {
        let c = v[i];
        let l = if 'A' <= c && c <= 'Z' {
            char_from_u32((c as u32) + 32)
        } else {
            c
        };
        r.push(l);
        i = i + 1;
        assert(r@ =~= ascii_lower(v@.subrange(0, i as int)));
    }
    assert(v@.subrange(0, v@.len() as int) =~= v@);
    r
}

/// The character of an ASCII code point.
fn char_from_u32(u: u32) -> (c: char)
    requires
        u < 128,
    ensures
        c as u32 == u,
        c == u as char,
{
    let b = u as u8;
    b as char
}

/// The first `n` characters (all of them if there are fewer).
pub open spec fn take_chars(s: Seq<char>, n: int) -> Seq<char> {
    if s.len() <= n {
        s
    } else {
        s.subrange(0, n)
    }
}

/// The first `n` characters of `v`.
pub fn prefix_chars(v: &[char], n: usize) -> (r: Vec<char>)
    ensures
        r@ == take_chars(v@, n as int),
{
    if v.len() <= n {
        copy_range(v, 0, v.len())
    } else {
        copy_range(v, 0, n)
    }
}

/// Whether the text is empty after trimming.
pub fn blank(s: &str) -> (b: bool)
    ensures
        b == is_blank(s@),
{
    let v = chars_of(s);
    let t = trim_chars(v.as_slice());
    t.len() == 0
}

/// The trimmed text as a `String`.
pub fn trimmed(s: &str) -> (r: String)
    ensures
        r@ == trim(s@),
{
    let v = chars_of(s);
    let t = trim_chars(v.as_slice());
    string_of(t.as_slice())
}

/// Concatenation of two strings.
pub fn concat2(a: &str, b: &str) -> (r: String)
    ensures
        r@ == a@ + b@,
{
    let mut v = chars_of(a);
    let vb = chars_of(b);
    append_chars(&mut v, vb.as_slice());
    string_of(v.as_slice())
}

/// Concatenation of three strings.
pub fn concat3(a: &str, b: &str, c: &str) -> (r: String)
    ensures
        r@ == a@ + b@ + c@,
{
    let mut v = chars_of(a);
    let vb = chars_of(b);
    let vc = chars_of(c);
    append_chars(&mut v, vb.as_slice());
    append_chars(&mut v, vc.as_slice());
    string_of(v.as_slice())
}

/// Lower case as `str::to_lowercase` gives it (Unicode case mapping).
pub uninterp spec fn lowercase(s: Seq<char>) -> Seq<char>;

/// `str::to_lowercase`; the result is the named lower-case form of the text.
#[verifier::external_body]
pub(crate) fn to_lowercase(s: &str) -> (r: String)
    ensures
        r@ == lowercase(s@),
{
    s.to_lowercase()
}

/// Equality of character slices.
pub fn chars_eq(a: &[char], b: &[char]) -> (r: bool)
    ensures
        r == (a@ == b@),
{
    if a.len() != b.len() {
        return false;
    }
    let mut i: usize = 0;
    while i < a.len()
        invariant
            a@.len() == b@.len(),
            i <= a@.len(),
            forall|k: int| 0 <= k < i ==> a@[k] == b@[k],
        decreases a@.len() - i,
    {
        if a[i] != b[i] {
            return false;
        }
        i = i + 1;
    }
    assert(a@ =~= b@);
    true
}

/// Equality of strings, character by character.
pub fn str_eq(a: &str, b: &str) -> (r: bool)
    ensures
        r == (a@ == b@),
{
    let x = chars_of(a);
    let y = chars_of(b);
    chars_eq(x.as_slice(), y.as_slice())
}

/// Whether `c` occurs in `s`.
pub fn has_char(s: &[char], c: char) -> (b: bool)
    ensures
        b == s@.contains(c),
{
    let mut i: usize = 0;
    while i < s.len()
        invariant
            i <= s@.len(),
            forall|k: int| 0 <= k < i ==> s@[k] != c,
        decreases s@.len() - i,
    {
        if s[i] == c {
            return true;
        }
        i = i + 1;
    }
    false
}

} // verus!
