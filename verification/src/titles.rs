//! Extracting titles from a model's reply: numbered or bulleted lines,
//! quotes, code fences and JSON lists are all accepted.
use crate::ai::fails_with;
use crate::error::AppError;
use crate::json::{as_str, get, json_value_of, read_json, JsonValue};
use crate::text::{lowercase, to_lowercase};
use crate::text::{
    chars_of, has_prefix, is_digit, is_ws, lines, starts_with, string_of, take_chars, trim,
    trim_chars, trim_start, trim_start_index,
};
use vstd::prelude::*;

verus! {

/// The two ends of `s` are a pair of quotes: `"…"`, `“…”` or `「…」`.
pub open spec fn quoted(s: Seq<char>) -> bool {
    s.len() >= 2 && ((s[0] == '"' && s.last() == '"') || (s[0] == '“' && s.last() == '”') || (
    s[0] == '「' && s.last() == '」'))
}

pub proof fn lemma_trim_len(s: Seq<char>)
    ensures
        trim(s).len() <= s.len(),
{
    crate::text::lemma_trim_start_shape(s);
    crate::text::lemma_trim_end_len(trim_start(s));
}

/// Quote pairs removed from the ends, trimming inside each time.
pub open spec fn unquote(s: Seq<char>) -> Seq<char>
    decreases s.len(),
{
    if quoted(s) {
        proof {
            lemma_trim_len(s.subrange(1, s.len() - 1));
        }
        unquote(trim(s.subrange(1, s.len() - 1)))
    } else {
        s
    }
}

/// Markers that may start a list line.
pub open spec fn is_bullet(c: char) -> bool {
    c == '-' || c == '*' || c == '•' || c == '·' || c == '●'
}

pub open spec fn is_close_paren(c: char) -> bool {
    c == ')' || c == '）'
}

/// Characters that may follow the digits of a number marker.
pub open spec fn is_number_end(c: char) -> bool {
    c == '.' || c == '、' || c == ')' || c == '）' || c == ':' || c == '：'
}

/// Number of leading ASCII digits.
pub open spec fn digit_run(s: Seq<char>) -> nat
    decreases s.len(),
{
    if s.len() > 0 && is_digit(s[0]) {
        1 + digit_run(s.subrange(1, s.len() as int))
    } else {
        0
    }
}

/// Index of the first closing parenthesis at or after `i`.
pub open spec fn close_from(s: Seq<char>, i: int) -> Option<int>
    decreases s.len() - i,
{
    if i < 0 || i >= s.len() {
        None
    } else if is_close_paren(s[i]) {
        Some(i)
    } else {
        close_from(s, i + 1)
    }
}

/// Index of the first closing parenthesis after the first character.
pub open spec fn first_close(s: Seq<char>) -> Option<int> {
    close_from(s, 1)
}

pub proof fn lemma_close_from(s: Seq<char>, i: int)
    requires
        0 <= i,
    ensures
        match close_from(s, i) {
            Some(j) => i <= j < s.len() && is_close_paren(s[j]) && forall|k: int|
                i <= k < j ==> !#[trigger] is_close_paren(s[k]),
            None => forall|k: int| i <= k < s.len() ==> !#[trigger] is_close_paren(s[k]),
        },
    decreases s.len() - i,
{
    if i < s.len() && !is_close_paren(s[i]) {
        lemma_close_from(s, i + 1);
    }
}

pub open spec fn all_digits(s: Seq<char>) -> bool {
    forall|i: int| 0 <= i < s.len() ==> #[trigger] is_digit(s[i])
}

/// How stripping list markers ends.
pub enum Strip {
    /// Nothing but markers and whitespace: no title.
    Gone,
    /// No more markers; the text from here on.
    Stop(Seq<char>),
}

/// Removes leading list markers: `-`, `*`, `•`, `·`, `●`, numbers such as
/// `1.`, `2、`, `3)`, `4：`, and numbers in half- or full-width parentheses
/// such as `(1)`, `（2）` or `(3）`.
pub open spec fn strip_markers(rest: Seq<char>) -> Strip
    decreases rest.len(),
{
    let t = trim_start(rest);
    proof {
        crate::text::lemma_trim_start_shape(rest);
    }
    if t.len() == 0 {
        Strip::Gone
    } else {
        let c = t[0];
        if is_bullet(c) {
            proof {
                crate::text::lemma_trim_start_shape(t.subrange(1, t.len() as int));
            }
            strip_markers(trim_start(t.subrange(1, t.len() as int)))
        } else if c == '(' || c == '（' {
            proof {
                lemma_close_from(t, 1);
            }
            match first_close(t) {
                None => Strip::Stop(t),
                Some(j) => if all_digits(trim(t.subrange(1, j))) {
                    proof {
                        crate::text::lemma_trim_start_shape(t.subrange(j + 1, t.len() as int));
                    }
                    strip_markers(trim_start(t.subrange(j + 1, t.len() as int)))
                } else {
                    Strip::Stop(t)
                },
            }
        } else if is_digit(c) {
            let d = digit_run(t) as int;
            proof {
                lemma_digit_run_len(t);
            }
            if d < t.len() && is_number_end(t[d]) {
                proof {
                    crate::text::lemma_trim_start_shape(t.subrange(d + 1, t.len() as int));
                }
                strip_markers(trim_start(t.subrange(d + 1, t.len() as int)))
            } else {
                Strip::Stop(t)
            }
        } else {
            Strip::Stop(t)
        }
    }
}

/// Where stripping stops, the text is no longer than what it started from
/// and starts with neither whitespace nor a bullet.
pub proof fn lemma_strip_stop(rest: Seq<char>)
    ensures
        strip_markers(rest) matches Strip::Stop(r) ==> 0 < r.len() <= rest.len() && !is_ws(r[0])
            && !is_bullet(r[0]),
    decreases rest.len(),
{
    let t = trim_start(rest);
    crate::text::lemma_trim_start_shape(rest);
    if t.len() > 0 {
        let c = t[0];
        if is_bullet(c) {
            crate::text::lemma_trim_start_shape(t.subrange(1, t.len() as int));
            lemma_strip_stop(trim_start(t.subrange(1, t.len() as int)));
        } else if c == '(' || c == '（' {
            lemma_close_from(t, 1);
            match first_close(t) {
                Some(j) => {
                    if all_digits(trim(t.subrange(1, j))) {
                        crate::text::lemma_trim_start_shape(t.subrange(j + 1, t.len() as int));
                        lemma_strip_stop(trim_start(t.subrange(j + 1, t.len() as int)));
                    }
                },
                None => {},
            }
        } else if is_digit(c) {
            lemma_digit_run_len(t);
            let d = digit_run(t) as int;
            if d < t.len() && is_number_end(t[d]) {
                crate::text::lemma_trim_start_shape(t.subrange(d + 1, t.len() as int));
                lemma_strip_stop(trim_start(t.subrange(d + 1, t.len() as int)));
            }
        }
    }
}

pub proof fn lemma_digit_run_len(s: Seq<char>)
    ensures
        digit_run(s) <= s.len(),
        forall|i: int| 0 <= i < digit_run(s) ==> #[trigger] is_digit(s[i]),
        digit_run(s) < s.len() ==> !is_digit(s[digit_run(s) as int]),
    decreases s.len(),
{
    if s.len() > 0 && is_digit(s[0]) {
        let t = s.subrange(1, s.len() as int);
        lemma_digit_run_len(t);
        assert forall|i: int| 0 <= i < digit_run(s) implies #[trigger] is_digit(s[i]) by {
            if i > 0 {
                assert(s[i] == t[i - 1]);
            }
        }
    }
}

/// Lines that introduce a list rather than being a title.
pub open spec fn is_boilerplate(s: Seq<char>) -> bool {
    ||| starts_with(s, "以下"@)
    ||| starts_with(s, "下面是"@)
    ||| starts_with(s, "为您生成"@)
    ||| starts_with(s, "为你生成"@)
    ||| starts_with(s, "希望这"@)
    ||| starts_with(s, "好的"@)
    ||| starts_with(s, "收到"@)
    ||| starts_with(s, "请选择"@)
}

pub open spec fn is_end_punct(c: char) -> bool {
    c == '。' || c == '！' || c == '，' || c == '；'
}

/// Trailing Chinese sentence punctuation removed.
pub open spec fn trim_end_punct(s: Seq<char>) -> Seq<char>
    decreases s.len(),
{
    if s.len() > 0 && is_end_punct(s.last()) {
        trim_end_punct(s.drop_last())
    } else {
        s
    }
}

/// A line without backticks around it: `s` itself unless it starts with
/// one, else trimmed of backticks at both ends and of whitespace.
pub open spec fn unfence(s: Seq<char>) -> Seq<char> {
    if s.len() > 0 && s[0] == '`' {
        trim(crate::text::trim_end_char(crate::text::trim_start_char(s, '`'), '`'))
    } else {
        s
    }
}

/// Index of the first `c` at or after `i`.
pub open spec fn char_from(s: Seq<char>, i: int, c: char) -> Option<int>
    decreases s.len() - i,
{
    if i < 0 || i >= s.len() {
        None
    } else if s[i] == c {
        Some(i)
    } else {
        char_from(s, i + 1, c)
    }
}

pub proof fn lemma_char_from(s: Seq<char>, i: int, c: char)
    requires
        0 <= i,
    ensures
        match char_from(s, i, c) {
            Some(j) => i <= j < s.len() && s[j] == c && forall|k: int| i <= k < j ==> #[trigger] s[k] != c,
            None => forall|k: int| i <= k < s.len() ==> #[trigger] s[k] != c,
        },
    decreases s.len() - i,
{
    if 0 <= i < s.len() && s[i] != c {
        lemma_char_from(s, i + 1, c);
    }
}

pub proof fn lemma_unquote_len(s: Seq<char>)
    ensures
        unquote(s).len() <= s.len(),
    decreases s.len(),
{
    if quoted(s) {
        let inner = s.subrange(1, s.len() - 1);
        lemma_trim_len(inner);
        lemma_unquote_len(trim(inner));
    }
}

proof fn lemma_trim_char_len(s: Seq<char>, c: char)
    ensures
        crate::text::trim_start_char(s, c).len() <= s.len(),
        crate::text::trim_end_char(s, c).len() <= s.len(),
    decreases s.len(),
{
    if s.len() > 0 {
        lemma_trim_char_len(s.subrange(1, s.len() as int), c);
        lemma_trim_char_len(s.drop_last(), c);
    }
}

pub proof fn lemma_unfence_len(s: Seq<char>)
    ensures
        unfence(s).len() <= s.len(),
{
    let a = crate::text::trim_start_char(s, '`');
    lemma_trim_char_len(s, '`');
    lemma_trim_char_len(a, '`');
    lemma_trim_len(crate::text::trim_end_char(a, '`'));
}

/// What a line says once trimmed, freed of backticks and quotes, and
/// stripped of list markers; `None` when nothing is left.
pub open spec fn line_text(line: Seq<char>) -> Option<Seq<char>> {
    let s0 = trim(line);
    if s0.len() == 0 {
        None
    } else {
        let s = unquote(unfence(s0));
        if s.len() == 0 {
            None
        } else {
            match strip_markers(trim_start(s)) {
                Strip::Gone => None,
                Strip::Stop(rest) => if trim(rest).len() == 0 {
                    None
                } else {
                    Some(trim(rest))
                },
            }
        }
    }
}

pub proof fn lemma_line_text(line: Seq<char>)
    ensures
        line_text(line) matches Some(r) ==> 0 < r.len() <= line.len() && !is_ws(r[0]) && !is_bullet(
            r[0],
        ),
{
    let s0 = trim(line);
    lemma_trim_len(line);
    if s0.len() > 0 {
        let s = unquote(unfence(s0));
        lemma_unfence_len(s0);
        lemma_unquote_len(unfence(s0));
        crate::text::lemma_trim_start_shape(s);
        lemma_strip_stop(trim_start(s));
        match strip_markers(trim_start(s)) {
            Strip::Stop(rest) => {
                assert(trim_start(rest) == rest);
                crate::text::lemma_trim_end_len(rest);
            },
            Strip::Gone => {},
        }
    }
}

/// The title in one line of a reply; `None`: the line is no title. A line
/// that introduces a list is read after its first `：`, when it has one.
pub open spec fn title_of(line: Seq<char>) -> Option<Seq<char>>
    decreases line.len(),
{
    match line_text(line) {
        None => None,
        Some(result) => if is_boilerplate(result) {
            match char_from(result, 0, '：') {
                None => None,
                Some(k) => {
                    proof {
                        lemma_line_text(line);
                        lemma_char_from(result, 0, '：');
                    }
                    title_of(result.subrange(k + 1, result.len() as int))
                },
            }
        } else {
            let title = take_chars(trim_end_punct(result), 80);
            if title.len() == 0 {
                None
            } else {
                Some(title)
            }
        },
    }
}

pub proof fn lemma_trim_end_punct_prefix(s: Seq<char>)
    ensures
        trim_end_punct(s).len() <= s.len(),
        trim_end_punct(s) == s.subrange(0, trim_end_punct(s).len() as int),
    decreases s.len(),
{
    if s.len() > 0 && is_end_punct(s.last()) {
        lemma_trim_end_punct_prefix(s.drop_last());
        assert(s.drop_last().subrange(0, trim_end_punct(s).len() as int) =~= s.subrange(
            0,
            trim_end_punct(s).len() as int,
        ));
    } else {
        assert(s.subrange(0, s.len() as int) =~= s);
    }
}

} // verus!

verus! {

/// Executable counterpart of `Strip`.
pub enum StripResult {
    Gone,
    Stop(Vec<char>),
}

pub open spec fn strip_view(r: StripResult) -> Strip {
    match r {
        StripResult::Gone => Strip::Gone,
        StripResult::Stop(v) => Strip::Stop(v@),
    }
}

fn is_quoted(s: &Vec<char>) -> (b: bool)
    ensures
        b == quoted(s@),
{
    let n = s.len();
    if n < 2 {
        return false;
    }
    let a = s[0];
    let z = s[n - 1];
    (a == '"' && z == '"') || (a == '“' && z == '”') || (a == '「' && z == '」')
}

fn unquote_exec(s: Vec<char>) -> (r: Vec<char>)
    ensures
        r@ == unquote(s@),
{
    let mut cur = s;
    while is_quoted(&cur)
        invariant
            unquote(s@) == unquote(cur@),
        decreases cur@.len(),
    {
        let n = cur.len();
        let inner = crate::text::copy_range(cur.as_slice(), 1, n - 1);
        let next = trim_chars(inner.as_slice());
        proof {
            lemma_trim_len(inner@);
        }
        cur = next;
    }
    cur
}

fn digit_run_exec(s: &[char]) -> (d: usize)
    ensures
        d == digit_run(s@),
{
    proof {
        lemma_digit_run_len(s@);
    }
    let mut i: usize = 0;
    assert(s@.subrange(0, s@.len() as int) =~= s@);
    while i < s.len() && crate::text::is_ascii_digit(s[i])
        invariant
            i <= s@.len(),
            forall|k: int| 0 <= k < i ==> is_digit(s@[k]),
            digit_run(s@) == i + digit_run(s@.subrange(i as int, s@.len() as int)),
        decreases s@.len() - i,
    {
        let ghost t = s@.subrange(i as int, s@.len() as int);
        assert(t.subrange(1, t.len() as int) =~= s@.subrange(i + 1, s@.len() as int));
        i = i + 1;
    }
    i
}

fn first_close_exec(s: &[char]) -> (r: Option<usize>)
    ensures
        match r {
            Some(j) => first_close(s@) == Some(j as int),
            None => first_close(s@) is None,
        },
{
    let mut i: usize = 1;
    if s.len() == 0 {
        return None;
    }
    while i < s.len()
        invariant
            1 <= i <= s@.len(),
            close_from(s@, 1) == close_from(s@, i as int),
        decreases s@.len() - i,
    {
        if s[i] == ')' || s[i] == '）' {
            return Some(i);
        }
        i = i + 1;
    }
    None
}

fn all_digits_exec(s: &[char]) -> (b: bool)
    ensures
        b == all_digits(s@),
{
    let mut i: usize = 0;
    while i < s.len()
        invariant
            i <= s@.len(),
            forall|k: int| 0 <= k < i ==> is_digit(#[trigger] s@[k]),
        decreases s@.len() - i,
    {
        if !crate::text::is_ascii_digit(s[i]) {
            return false;
        }
        i = i + 1;
    }
    true
}

fn strip_markers_exec(rest: &[char]) -> (r: StripResult)
    ensures
        strip_view(r) == strip_markers(rest@),
{
    let mut cur: Vec<char> = crate::text::copy_range(rest, 0, rest.len());
    assert(rest@.subrange(0, rest@.len() as int) =~= rest@);
    loop
        invariant
            strip_markers(rest@) == strip_markers(cur@),
        decreases cur@.len(),
    {
        let i = trim_start_index(cur.as_slice());
        let t = crate::text::copy_range(cur.as_slice(), i, cur.len());
        proof {
            crate::text::lemma_trim_start_shape(cur@);
        }
        if t.len() == 0 {
            return StripResult::Gone;
        }
        let c = t[0];
        let n = t.len();
        if c == '-' || c == '*' || c == '•' || c == '·' || c == '●' {
            let after = crate::text::copy_range(t.as_slice(), 1, n);
            let k = trim_start_index(after.as_slice());
            cur = crate::text::copy_range(after.as_slice(), k, after.len());
        } else if c == '(' || c == '（' {
            proof {
                lemma_close_from(t@, 1);
            }
            match first_close_exec(t.as_slice()) {
                None => {
                    return StripResult::Stop(t);
                },
                Some(j) => {
                    let inner = crate::text::copy_range(t.as_slice(), 1, j);
                    let ti = trim_chars(inner.as_slice());
                    if !all_digits_exec(ti.as_slice()) {
                        return StripResult::Stop(t);
                    }
                    let after = crate::text::copy_range(t.as_slice(), j + 1, n);
                    let k = trim_start_index(after.as_slice());
                    cur = crate::text::copy_range(after.as_slice(), k, after.len());
                },
            }
        } else if crate::text::is_ascii_digit(c) {
            let d = digit_run_exec(t.as_slice());
            proof {
                lemma_digit_run_len(t@);
            }
            if d < n && (t[d] == '.' || t[d] == '、' || t[d] == ')' || t[d] == '）' || t[d] == ':'
                || t[d] == '：') {
                let after = crate::text::copy_range(t.as_slice(), d + 1, n);
                let k = trim_start_index(after.as_slice());
                cur = crate::text::copy_range(after.as_slice(), k, after.len());
            } else {
                return StripResult::Stop(t);
            }
        } else {
            return StripResult::Stop(t);
        }
    }
}

fn starts_with_lit(s: &[char], lit: &str) -> (b: bool)
    ensures
        b == starts_with(s@, lit@),
{
    let p = chars_of(lit);
    has_prefix(s, p.as_slice())
}

fn is_boilerplate_exec(s: &[char]) -> (b: bool)
    ensures
        b == is_boilerplate(s@),
{
    starts_with_lit(s, "以下") || starts_with_lit(s, "下面是") || starts_with_lit(s, "为您生成")
        || starts_with_lit(s, "为你生成") || starts_with_lit(s, "希望这") || starts_with_lit(
        s,
        "好的",
    ) || starts_with_lit(s, "收到") || starts_with_lit(s, "请选择")
}

fn trim_end_punct_exec(s: &[char]) -> (r: Vec<char>)
    ensures
        r@ == trim_end_punct(s@),
{
    let mut j = s.len();
    assert(s@.subrange(0, j as int) =~= s@);
    while j > 0 && (s[j - 1] == '。' || s[j - 1] == '！' || s[j - 1] == '，' || s[j - 1] == '；')
        invariant
            j <= s@.len(),
            trim_end_punct(s@) == trim_end_punct(s@.subrange(0, j as int)),
        decreases j,
    {
        assert(s@.subrange(0, j as int).drop_last() =~= s@.subrange(0, j - 1));
        j = j - 1;
    }
    crate::text::copy_range(s, 0, j)
}

fn unfence_exec(s: &[char]) -> (r: Vec<char>)
    ensures
        r@ == unfence(s@),
{
    if s.len() > 0 && s[0] == '`' {
        let i = crate::text::trim_start_char_index(s, '`');
        let a = crate::text::copy_range(s, i, s.len());
        let j = crate::text::trim_end_char_index(a.as_slice(), '`');
        let b = crate::text::copy_range(a.as_slice(), 0, j);
        trim_chars(b.as_slice())
    } else {
        crate::text::copy_range(s, 0, s.len())
    }
}

/// Index of the first `c` in `s`.
fn char_index(s: &[char], c: char) -> (r: Option<usize>)
    ensures
        match r {
            Some(k) => char_from(s@, 0, c) == Some(k as int),
            None => char_from(s@, 0, c) is None,
        },
{
    let mut i: usize = 0;
    while i < s.len()
        invariant
            i <= s@.len(),
            char_from(s@, 0, c) == char_from(s@, i as int, c),
        decreases s@.len() - i,
    {
        if s[i] == c {
            return Some(i);
        }
        i = i + 1;
    }
    None
}

fn line_text_exec(line: &[char]) -> (r: Option<Vec<char>>)
    ensures
        match r {
            Some(v) => line_text(line@) == Some(v@),
            None => line_text(line@) is None,
        },
{
    let s0 = trim_chars(line);
    if s0.len() == 0 {
        return None;
    }
    let s = unquote_exec(unfence_exec(s0.as_slice()));
    if s.len() == 0 {
        return None;
    }
    let i = trim_start_index(s.as_slice());
    let st = crate::text::copy_range(s.as_slice(), i, s.len());
    match strip_markers_exec(st.as_slice()) {
        StripResult::Gone => None,
        StripResult::Stop(rest) => {
            let result = trim_chars(rest.as_slice());
            if result.len() == 0 {
                None
            } else {
                Some(result)
            }
        },
    }
}

/// `title_of` on characters.
pub fn title_of_chars(line: &[char]) -> (r: Option<Vec<char>>)
    ensures
        match r {
            Some(t) => title_of(line@) == Some(t@),
            None => title_of(line@) is None,
        },
    decreases line@.len(),
{
    match line_text_exec(line) {
        None => None,
        Some(result) => {
            if is_boilerplate_exec(result.as_slice()) {
                let rs = result.as_slice();
                let n = rs.len();
                match char_index(rs, '：') {
                    None => None,
                    Some(k) => {
                        proof {
                            lemma_line_text(line@);
                            lemma_char_from(rs@, 0, '：');
                            assert(char_from(rs@, 0, '：') == Some(k as int));
                        }
                        let after = crate::text::copy_range(rs, k + 1, n);
                        title_of_chars(after.as_slice())
                    },
                }
            } else {
                let p = trim_end_punct_exec(result.as_slice());
                let title = crate::text::prefix_chars(p.as_slice(), 80);
                if title.len() == 0 {
                    None
                } else {
                    Some(title)
                }
            }
        },
    }
}

/// The title in one line of a reply, without numbering, bullets, quotes or
/// trailing punctuation, at most 80 characters; `None` for an empty line
/// or a line that introduces a list (unless a title follows its `：`).
pub fn normalize_title(line: &str) -> (r: Option<String>)
    ensures
        match r {
            Some(t) => title_of(line@) == Some(t@),
            None => title_of(line@) is None,
        },
{
    let v = chars_of(line);
    match title_of_chars(v.as_slice()) {
        Some(t) => Some(string_of(t.as_slice())),
        None => None,
    }
}

} // verus!

verus! {

/// Lines of a fenced block that are not fence lines (starting, after
/// whitespace, with a backtick).
pub open spec fn non_fence_lines(ls: Seq<Seq<char>>) -> Seq<Seq<char>>
    decreases ls.len(),
{
    if ls.len() == 0 {
        ls
    } else {
        let rest = non_fence_lines(ls.drop_last());
        if starts_with(trim_start(ls.last()), seq!['`']) {
            rest
        } else {
            rest.push(ls.last())
        }
    }
}

/// The text after the first line break (nothing when there is none).
pub open spec fn after_first_line(t: Seq<char>) -> Seq<char> {
    match char_from(t, 0, '\n') {
        Some(k) => t.subrange(k + 1, t.len() as int),
        None => Seq::<char>::empty(),
    }
}

/// A reply trimmed, and without its code fences when it starts with one:
/// the opening fence line, language tag included, is dropped, and so is
/// every later line that starts (after whitespace) with a backtick.
pub open spec fn cleaned_text(raw: Seq<char>) -> Seq<char> {
    let t = trim(raw);
    if starts_with(t, seq!['`', '`', '`']) {
        crate::text::join(non_fence_lines(lines(after_first_line(t))), seq!['\n'])
    } else {
        t
    }
}

/// The title of one JSON list item: the item itself if it is a string,
/// else its `title` member if that is a string.
pub open spec fn json_item_title(item: JsonValue) -> Option<Seq<char>> {
    if as_str(Some(item)) is Some {
        as_str(Some(item))
    } else {
        as_str(get(Some(item), "title"@))
    }
}

pub open spec fn json_item_titles(items: Seq<JsonValue>) -> Seq<Seq<char>>
    decreases items.len(),
{
    if items.len() == 0 {
        Seq::<Seq<char>>::empty()
    } else {
        let rest = json_item_titles(items.drop_last());
        match json_item_title(items.last()) {
            Some(s) => rest.push(s),
            None => rest,
        }
    }
}

/// Items of a member that is an array.
pub open spec fn array_member(m: Seq<(String, JsonValue)>, key: Seq<char>) -> Option<
    Seq<JsonValue>,
> {
    match crate::json::member(m, key) {
        Some(JsonValue::Array(a)) => Some(a@),
        _ => None,
    }
}

/// The list of candidate titles of a JSON reply: an array, or the array
/// under `titles`, `标题` or `data` of an object.
pub open spec fn json_titles(parsed: Option<JsonValue>) -> Option<Seq<Seq<char>>> {
    match parsed {
        Some(JsonValue::Array(items)) => Some(json_item_titles(items@)),
        Some(JsonValue::Object(m)) => if array_member(m@, "titles"@) is Some {
            Some(json_item_titles(array_member(m@, "titles"@)->0))
        } else if array_member(m@, "标题"@) is Some {
            Some(json_item_titles(array_member(m@, "标题"@)->0))
        } else if array_member(m@, "data"@) is Some {
            Some(json_item_titles(array_member(m@, "data"@)->0))
        } else {
            None
        },
        _ => None,
    }
}

/// The lines a title is looked for in. `parsed` is the JSON reading of the
/// cleaned reply, when it reads as JSON.
pub open spec fn candidates(raw: Seq<char>, parsed: Option<JsonValue>) -> Seq<Seq<char>> {
    if trim(raw).len() == 0 {
        Seq::<Seq<char>>::empty()
    } else {
        match json_titles(parsed) {
            Some(l) => l,
            None => lines(cleaned_text(raw)),
        }
    }
}

/// The titles found in candidate lines, in order.
pub open spec fn titles_in(ls: Seq<Seq<char>>) -> Seq<Seq<char>>
    decreases ls.len(),
{
    if ls.len() == 0 {
        Seq::<Seq<char>>::empty()
    } else {
        let rest = titles_in(ls.drop_last());
        match title_of(ls.last()) {
            Some(t) => rest.push(t),
            None => rest,
        }
    }
}

/// Keeps the first of titles that are equal ignoring case.
pub open spec fn dedupe_lower(s: Seq<Seq<char>>) -> Seq<Seq<char>>
    decreases s.len(),
{
    if s.len() == 0 {
        s
    } else {
        let r = dedupe_lower(s.drop_last());
        if r.map_values(|x: Seq<char>| lowercase(x)).contains(lowercase(s.last())) {
            r
        } else {
            r.push(s.last())
        }
    }
}

/// The titles of a reply, without repetitions (ignoring case).
pub open spec fn reply_titles(raw: Seq<char>, parsed: Option<JsonValue>) -> Seq<Seq<char>> {
    dedupe_lower(titles_in(candidates(raw, parsed)))
}

fn contains_chars(v: &Vec<Vec<char>>, x: &Vec<char>) -> (b: bool)
    ensures
        b == v@.map_values(|l: Vec<char>| l@).contains(x@),
{
    let ghost vs = v@.map_values(|l: Vec<char>| l@);
    let mut i: usize = 0;
    while i < v.len()
        invariant
            i <= v@.len(),
            vs == v@.map_values(|l: Vec<char>| l@),
            forall|k: int| 0 <= k < i ==> vs[k] != x@,
        decreases v@.len() - i,
    {
        if crate::text::chars_eq(v[i].as_slice(), x.as_slice()) {
            assert(vs[i as int] == x@);
            return true;
        }
        i = i + 1;
    }
    false
}

/// Removes titles equal to an earlier one ignoring case.
pub fn dedupe_titles(titles: Vec<String>) -> (r: Vec<String>)
    ensures
        r@.map_values(|s: String| s@) == dedupe_lower(titles@.map_values(|s: String| s@)),
{
    let ghost ts = titles@.map_values(|s: String| s@);
    let mut keys: Vec<Vec<char>> = Vec::new();
    let mut result: Vec<String> = Vec::new();
    let mut i: usize = 0;
    while i < titles.len()
        invariant
            i <= titles@.len(),
            ts == titles@.map_values(|s: String| s@),
            result@.map_values(|s: String| s@) == dedupe_lower(ts.subrange(0, i as int)),
            keys@.map_values(|l: Vec<char>| l@) == dedupe_lower(ts.subrange(0, i as int)).map_values(
                |x: Seq<char>| lowercase(x),
            ),
        decreases titles@.len() - i,
    {
        assert(ts.subrange(0, i + 1).drop_last() =~= ts.subrange(0, i as int));
        assert(ts.subrange(0, i + 1).last() == titles@[i as int]@);
        let key = chars_of(to_lowercase(titles[i].as_str()).as_str());
        if !contains_chars(&keys, &key) {
            let ghost before_r = result@.map_values(|s: String| s@);
            let ghost before_k = keys@.map_values(|l: Vec<char>| l@);
            let ghost kept = dedupe_lower(ts.subrange(0, i as int));
            result.push(titles[i].clone());
            keys.push(key);
            assert(result@.map_values(|s: String| s@) =~= before_r.push(titles@[i as int]@));
            assert(keys@.map_values(|l: Vec<char>| l@) =~= before_k.push(lowercase(titles@[i as int]@)));
            assert(kept.push(titles@[i as int]@).map_values(|x: Seq<char>| lowercase(x)) =~= kept.map_values(
                |x: Seq<char>| lowercase(x),
            ).push(lowercase(titles@[i as int]@)));
        }
        i = i + 1;
    }
    assert(ts.subrange(0, ts.len() as int) =~= ts);
    result
}

/// The reply trimmed, and without code fences when it starts with one; the
/// text whose JSON reading `parse_titles` takes.
pub fn clean_title_text(raw: &str) -> (r: String)
    ensures
        r@ == cleaned_text(raw@),
{
    let v = chars_of(raw);
    let t = trim_chars(v.as_slice());
    let fence = chars_of("```");
    proof {
        reveal_strlit("```");
        assert(fence@ =~= seq!['`', '`', '`']);
    }
    if !has_prefix(t.as_slice(), fence.as_slice()) {
        return string_of(t.as_slice());
    }
    let ts = t.as_slice();
    let n = ts.len();
    let body = match char_index(ts, '\n') {
        Some(k) => {
            proof {
                lemma_char_from(ts@, 0, '\n');
                assert(char_from(ts@, 0, '\n') == Some(k as int));
            }
            crate::text::copy_range(ts, k + 1, n)
        },
        None => Vec::new(),
    };
    let ls = crate::text::split_lines(body.as_slice());
    let ghost lsv = ls@.map_values(|l: Vec<char>| l@);
    let tick = chars_of("`");
    proof {
        reveal_strlit("`");
        assert(tick@ =~= seq!['`']);
    }
    let mut kept: Vec<Vec<char>> = Vec::new();
    let mut k: usize = 0;
    while k < ls.len()
        invariant
            k <= ls@.len(),
            lsv == ls@.map_values(|l: Vec<char>| l@),
            tick@ == seq!['`'],
            kept@.map_values(|l: Vec<char>| l@) == non_fence_lines(lsv.subrange(0, k as int)),
        decreases ls@.len() - k,
    {
        assert(lsv.subrange(0, k + 1).drop_last() =~= lsv.subrange(0, k as int));
        let line = &ls[k];
        let j = trim_start_index(line.as_slice());
        let ts = crate::text::copy_range(line.as_slice(), j, line.len());
        if !has_prefix(ts.as_slice(), tick.as_slice()) {
            let ghost before = kept@.map_values(|l: Vec<char>| l@);
            kept.push(crate::text::copy_range(line.as_slice(), 0, line.len()));
            assert(line@.subrange(0, line@.len() as int) =~= line@);
            assert(kept@.map_values(|l: Vec<char>| l@) =~= before.push(lsv[k as int]));
        }
        k = k + 1;
    }
    assert(lsv.subrange(0, lsv.len() as int) =~= lsv);
    let nl = chars_of("\n");
    proof {
        reveal_strlit("\n");
        assert(nl@ =~= seq!['\n']);
    }
    let joined = crate::text::join_parts(&kept, nl.as_slice());
    string_of(joined.as_slice())
}

} // verus!

verus! {

fn json_item_titles_exec(items: &Vec<JsonValue>) -> (r: Vec<Vec<char>>)
    ensures
        r@.map_values(|l: Vec<char>| l@) == json_item_titles(items@),
{
    let mut r: Vec<Vec<char>> = Vec::new();
    let mut i: usize = 0;
    while i < items.len()
        invariant
            i <= items@.len(),
            r@.map_values(|l: Vec<char>| l@) == json_item_titles(items@.subrange(0, i as int)),
        decreases items@.len() - i,
    {
        assert(items@.subrange(0, i + 1).drop_last() =~= items@.subrange(0, i as int));
        let ghost before = r@.map_values(|l: Vec<char>| l@);
        let item = &items[i];
        let t: Option<&String> = match item {
            JsonValue::Str(s) => Some(s),
            _ => match crate::json::get_member(item, "title") {
                Some(JsonValue::Str(s)) => Some(s),
                _ => None,
            },
        };
        match t {
            Some(s) => {
                r.push(chars_of(s.as_str()));
                assert(r@.map_values(|l: Vec<char>| l@) =~= before.push(s@));
            },
            None => {},
        }
        i = i + 1;
    }
    assert(items@.subrange(0, items@.len() as int) =~= items@);
    r
}

fn array_member_exec<'a>(m: &'a JsonValue, key: &str) -> (r: Option<&'a Vec<JsonValue>>)
    requires
        m is Object,
    ensures
        match r {
            Some(a) => array_member(m->Object_0@, key@) == Some(a@),
            None => array_member(m->Object_0@, key@) is None,
        },
{
    match crate::json::get_member(m, key) {
        Some(JsonValue::Array(a)) => Some(a),
        _ => None,
    }
}

fn json_titles_exec(parsed: Option<&JsonValue>) -> (r: Option<Vec<Vec<char>>>)
    ensures
        match r {
            Some(l) => json_titles(crate::json::opt_val(parsed)) == Some(
                l@.map_values(|x: Vec<char>| x@),
            ),
            None => json_titles(crate::json::opt_val(parsed)) is None,
        },
{
    match parsed {
        Some(JsonValue::Array(items)) => Some(json_item_titles_exec(items)),
        Some(v) => match v {
            JsonValue::Object(_) => {
                match array_member_exec(v, "titles") {
                    Some(a) => {
                        return Some(json_item_titles_exec(a));
                    },
                    None => {},
                }
                match array_member_exec(v, "标题") {
                    Some(a) => {
                        return Some(json_item_titles_exec(a));
                    },
                    None => {},
                }
                match array_member_exec(v, "data") {
                    Some(a) => Some(json_item_titles_exec(a)),
                    None => None,
                }
            },
            _ => None,
        },
        None => None,
    }
}

fn candidate_lines(raw: &str, parsed: Option<&JsonValue>) -> (r: Vec<Vec<char>>)
    ensures
        r@.map_values(|l: Vec<char>| l@) == candidates(raw@, crate::json::opt_val(parsed)),
{
    if crate::text::blank(raw) {
        let r: Vec<Vec<char>> = Vec::new();
        assert(r@.map_values(|l: Vec<char>| l@) =~= Seq::<Seq<char>>::empty());
        return r;
    }
    match json_titles_exec(parsed) {
        Some(l) => l,
        None => {
            let cleaned = clean_title_text(raw);
            let v = chars_of(cleaned.as_str());
            crate::text::split_lines(v.as_slice())
        },
    }
}

/// The titles in a model's reply given its JSON reading: in order, without
/// repetitions (ignoring case). `parsed` stands for the JSON reading of
/// `clean_title_text(raw)`, if it reads as JSON (see `parse_titles`).
pub fn titles_from_reading(raw: &str, parsed: Option<&JsonValue>) -> (r: Vec<String>)
    ensures
        r@.map_values(|s: String| s@) == reply_titles(raw@, crate::json::opt_val(parsed)),
{
    let cands = candidate_lines(raw, parsed);
    let ghost cs = cands@.map_values(|l: Vec<char>| l@);
    let mut titles: Vec<String> = Vec::new();
    let mut i: usize = 0;
    while i < cands.len()
        invariant
            i <= cands@.len(),
            cs == cands@.map_values(|l: Vec<char>| l@),
            cs == candidates(raw@, crate::json::opt_val(parsed)),
            titles@.map_values(|s: String| s@) == titles_in(cs.subrange(0, i as int)),
        decreases cands@.len() - i,
    {
        assert(cs.subrange(0, i + 1).drop_last() =~= cs.subrange(0, i as int));
        assert(cs.subrange(0, i + 1).last() == cs[i as int]);
        let ghost before = titles@.map_values(|s: String| s@);
        match title_of_chars(cands[i].as_slice()) {
            Some(t) => {
                titles.push(string_of(t.as_slice()));
                assert(titles@.map_values(|s: String| s@) =~= before.push(t@));
            },
            None => {},
        }
        i = i + 1;
    }
    assert(cs.subrange(0, cs.len() as int) =~= cs);
    dedupe_titles(titles)
}

pub open spec fn no_title_message(content: Seq<char>) -> Seq<char> {
    "标题生成模型未返回有效标题，原始回复: "@ + take_chars(content, 300)
}

/// The first title of a model's reply given its JSON reading (see
/// `titles_from_reading`), or an error quoting the first 300 characters of
/// the reply.
pub fn first_title_from_reading(content: &str, parsed: Option<&JsonValue>) -> (r: Result<String, AppError>)
    ensures
        ({
            let ts = reply_titles(content@, crate::json::opt_val(parsed));
            if ts.len() > 0 && ts[0].len() > 0 {
                r matches Ok(t) && t@ == ts[0]
            } else {
                fails_with(r, no_title_message(content@))
            }
        }),
{
    let titles = titles_from_reading(content, parsed);
    if titles.len() > 0 && titles[0].unicode_len() > 0 {
        assert(titles@.map_values(|s: String| s@)[0] == titles@[0]@);
        return Ok(titles[0].clone());
    }
    proof {
        if titles@.len() > 0 {
            assert(titles@.map_values(|s: String| s@)[0] == titles@[0]@);
        }
    }
    let v = chars_of(content);
    let brief = string_of(crate::text::prefix_chars(v.as_slice(), 300).as_slice());
    Err(AppError::Custom(crate::text::concat2("标题生成模型未返回有效标题，原始回复: ", brief.as_str())))
}

/// The titles of a reply: those of `reply_titles` with the cleaned reply's
/// own JSON reading.
pub open spec fn titles_of_reply(raw: Seq<char>) -> Seq<Seq<char>> {
    reply_titles(raw, json_value_of(cleaned_text(raw)))
}

/// The titles in a model's reply, in order, without repetitions (ignoring
/// case): read from a JSON list when the cleaned reply reads as one (see
/// `json_titles`), else line by line.
pub fn parse_titles(raw: &str) -> (r: Vec<String>)
    ensures
        r@.map_values(|s: String| s@) == titles_of_reply(raw@),
{
    let cleaned = clean_title_text(raw);
    match read_json(cleaned.as_str()) {
        Ok(v) => titles_from_reading(raw, Some(&v)),
        Err(_) => titles_from_reading(raw, None),
    }
}

/// The first title of a model's reply, or an error quoting the first 300
/// characters of the reply.
pub fn pick_first_title(content: &str) -> (r: Result<String, AppError>)
    ensures
        ({
            let ts = titles_of_reply(content@);
            if ts.len() > 0 && ts[0].len() > 0 {
                r matches Ok(t) && t@ == ts[0]
            } else {
                fails_with(r, no_title_message(content@))
            }
        }),
{
    let cleaned = clean_title_text(content);
    match read_json(cleaned.as_str()) {
        Ok(v) => first_title_from_reading(content, Some(&v)),
        Err(_) => first_title_from_reading(content, None),
    }
}

pub open spec fn lowered(s: Seq<Seq<char>>) -> Seq<Seq<char>> {
    s.map_values(|x: Seq<char>| lowercase(x))
}

/// After repetitions are removed, no two titles are equal ignoring case,
/// and every title is represented by one equal to it ignoring case.
pub proof fn law_dedupe_distinct(s: Seq<Seq<char>>)
    ensures
        lowered(dedupe_lower(s)).no_duplicates(),
        forall|i: int| 0 <= i < s.len() ==> lowered(dedupe_lower(s)).contains(lowercase(#[trigger] s[i])),
    decreases s.len(),
{
    if s.len() > 0 {
        let d = s.drop_last();
        law_dedupe_distinct(d);
        let r = dedupe_lower(d);
        let x = s.last();
        if !lowered(r).contains(lowercase(x)) {
            assert(lowered(r.push(x)) =~= lowered(r).push(lowercase(x)));
            crate::named_map::lemma_push_distinct(lowered(r), lowercase(x));
            assert(lowered(r.push(x))[r.len() as int] == lowercase(x));
        }
        assert forall|i: int| 0 <= i < s.len() implies lowered(dedupe_lower(s)).contains(
            lowercase(#[trigger] s[i]),
        ) by {
            if i < d.len() {
                assert(d[i] == s[i]);
                assert(lowered(r).contains(lowercase(d[i])));
                if !lowered(r).contains(lowercase(x)) {
                    let j = choose|j: int| 0 <= j < lowered(r).len() && lowered(r)[j] == lowercase(d[i]);
                    assert(lowered(r.push(x))[j] == lowercase(d[i]));
                }
            } else if !lowered(r).contains(lowercase(x)) {
                assert(lowered(r.push(x))[r.len() as int] == lowercase(x));
            }
        }
    }
}

/// Titles that are already distinct ignoring case are kept as they are.
proof fn lemma_dedupe_keeps_distinct(s: Seq<Seq<char>>)
    requires
        lowered(s).no_duplicates(),
    ensures
        dedupe_lower(s) == s,
    decreases s.len(),
{
    if s.len() > 0 {
        let d = s.drop_last();
        assert(lowered(d).no_duplicates()) by {
            assert forall|i: int, j: int|
                0 <= i < lowered(d).len() && 0 <= j < lowered(d).len() && i != j implies lowered(
                d,
            )[i] != lowered(d)[j] by {
                assert(lowered(d)[i] == lowered(s)[i] && lowered(d)[j] == lowered(s)[j]);
            }
        }
        lemma_dedupe_keeps_distinct(d);
        if lowered(d).contains(lowercase(s.last())) {
            let j = choose|j: int| 0 <= j < lowered(d).len() && lowered(d)[j] == lowercase(s.last());
            assert(lowered(s)[j] == lowered(s)[s.len() - 1]);
        }
        assert(d.push(s.last()) =~= s);
    }
}

/// Removing repetitions a second time changes nothing.
pub proof fn law_dedupe_idempotent(s: Seq<Seq<char>>)
    ensures
        dedupe_lower(dedupe_lower(s)) == dedupe_lower(s),
{
    law_dedupe_distinct(s);
    lemma_dedupe_keeps_distinct(dedupe_lower(s));
}

/// A title read from a line is never empty, has at most 80 characters,
/// and starts with neither whitespace, a list bullet, nor the opening words
/// of a list introduction.
pub proof fn law_title_shape(line: Seq<char>)
    ensures
        title_of(line) matches Some(t) ==> {
            &&& 0 < t.len() <= 80
            &&& !is_ws(t[0])
            &&& !is_bullet(t[0])
            &&& t[0] != '-' && t[0] != '*' && t[0] != '•' && t[0] != '·' && t[0] != '●'
            &&& !is_boilerplate(t)
            &&& !starts_with(t, "以下"@) && !starts_with(t, "下面是"@)
            &&& !starts_with(t, "为您生成"@) && !starts_with(t, "为你生成"@)
            &&& !starts_with(t, "希望这"@) && !starts_with(t, "好的"@)
            &&& !starts_with(t, "收到"@) && !starts_with(t, "请选择"@)
        },
    decreases line.len(),
{
    lemma_line_text(line);
    match line_text(line) {
        None => {},
        Some(result) => {
            if is_boilerplate(result) {
                lemma_char_from(result, 0, '：');
                match char_from(result, 0, '：') {
                    None => {},
                    Some(k) => {
                        law_title_shape(result.subrange(k + 1, result.len() as int));
                    },
                }
            } else {
                lemma_trim_end_punct_prefix(result);
                let title = take_chars(trim_end_punct(result), 80);
                if title.len() > 0 {
                    assert(title =~= result.subrange(0, title.len() as int));
                    assert forall|q: Seq<char>| starts_with(title, q) implies starts_with(
                        result,
                        q,
                    ) by {
                        assert(result.subrange(0, q.len() as int) =~= title.subrange(
                            0,
                            q.len() as int,
                        ));
                    }
                }
            }
        },
    }
}

/// Every item of `xs` is a string.
pub open spec fn all_strings(xs: Seq<JsonValue>) -> bool {
    forall|i: int| 0 <= i < xs.len() ==> #[trigger] xs[i] is Str
}

/// `v` is an array of the items `xs`.
pub open spec fn is_list(v: Option<JsonValue>, xs: Seq<JsonValue>) -> bool {
    v matches Some(JsonValue::Array(a)) && a@ == xs
}

/// The texts of string items.
pub open spec fn texts(xs: Seq<JsonValue>) -> Seq<Seq<char>> {
    xs.map_values(|x: JsonValue| x->Str_0@)
}

proof fn lemma_item_titles_of_strings(xs: Seq<JsonValue>)
    requires
        all_strings(xs),
    ensures
        json_item_titles(xs) == texts(xs),
    decreases xs.len(),
{
    if xs.len() > 0 {
        let d = xs.drop_last();
        assert forall|i: int| 0 <= i < d.len() implies #[trigger] d[i] is Str by {
            assert(d[i] == xs[i]);
        }
        lemma_item_titles_of_strings(d);
        assert(xs[xs.len() - 1] is Str);
        assert(texts(xs) =~= texts(d).push(xs.last()->Str_0@));
    }
}

/// A reply that reads as a JSON list of strings is taken item by item: the
/// lines titles are looked for in are exactly its strings, in order. The
/// list is the reply itself when it is an array, else the array under
/// `titles`, else under `标题`, else under `data` of an object.
pub proof fn law_json_title_lists(raw: Seq<char>, parsed: JsonValue, xs: Seq<JsonValue>)
    requires
        trim(raw).len() > 0,
        all_strings(xs),
    ensures
        is_list(Some(parsed), xs) ==> candidates(raw, Some(parsed)) == texts(xs),
        parsed is Object && is_list(crate::json::member(parsed->Object_0@, "titles"@), xs)
            ==> candidates(raw, Some(parsed)) == texts(xs),
        parsed is Object && array_member(parsed->Object_0@, "titles"@) is None && is_list(
            crate::json::member(parsed->Object_0@, "标题"@),
            xs,
        ) ==> candidates(raw, Some(parsed)) == texts(xs),
        parsed is Object && array_member(parsed->Object_0@, "titles"@) is None && array_member(
            parsed->Object_0@,
            "标题"@,
        ) is None && is_list(crate::json::member(parsed->Object_0@, "data"@), xs) ==> candidates(
            raw,
            Some(parsed),
        ) == texts(xs),
{
    lemma_item_titles_of_strings(xs);
}

proof fn lemma_trim_end_after(p: Seq<char>, t: Seq<char>)
    requires
        t.len() > 0,
        !is_ws(t[0]),
    ensures
        crate::text::trim_end(p + t) == p + crate::text::trim_end(t),
        crate::text::trim_end(t).len() > 0,
        crate::text::trim_end(t)[0] == t[0],
    decreases t.len(),
{
    if t.len() > 1 && is_ws(t.last()) {
        lemma_trim_end_after(p, t.drop_last());
        assert((p + t).drop_last() =~= p + t.drop_last());
        assert((p + t).last() == t.last());
    } else {
        assert((p + t).last() == t.last());
    }
}

/// A title line that starts with a list bullet (`-`, `*`, `•`, `·` or `●`)
/// and a space reads as the text after them: for any text `t` that starts
/// with neither whitespace, a backtick nor an opening quote, the line
/// `b + " " + t` gives the title of `t`.
pub proof fn law_bullet_is_stripped(b: char, t: Seq<char>)
    requires
        b == '-' || b == '*' || b == '•' || b == '·' || b == '●',
        t.len() > 0,
        !is_ws(t[0]),
        t[0] != '`' && t[0] != '"' && t[0] != '“' && t[0] != '「',
    ensures
        title_of(seq![b, ' '] + t) == title_of(t),
{
    let line = seq![b, ' '] + t;
    let te = crate::text::trim_end(t);
    lemma_trim_end_after(seq![b, ' '], t);
    assert(line[0] == b);
    assert(trim_start(line) == line);
    assert(trim_start(t) == t);
    let s0 = seq![b, ' '] + te;
    assert(trim(line) == s0);
    assert(s0[0] == b);
    assert(unfence(s0) == s0);
    assert(!quoted(s0));
    assert(unquote(s0) == s0);
    assert(trim_start(s0) == s0);
    let after = s0.subrange(1, s0.len() as int);
    assert(after =~= seq![' '] + te);
    assert(after.subrange(1, after.len() as int) =~= te);
    assert(trim_start(te) == te);
    assert(trim_start(after) == te);
    assert(strip_markers(s0) == strip_markers(te));
    assert(trim(t) == te);
    assert(te[0] == t[0]);
    assert(unfence(te) == te);
    assert(!quoted(te));
    assert(unquote(te) == te);
    assert(line_text(line) == line_text(t));
}

} // verus!
