//! Comparing dotted release versions such as `1.2.10`.
use crate::error::AppError;
use crate::text::{chars_of, is_digit, split_at_char, split_on};
use vstd::prelude::*;

verus! {

/// The number written by the decimal digits `s`.
pub open spec fn digits_value(s: Seq<char>) -> int
    decreases s.len(),
{
    if s.len() == 0 {
        0
    } else {
        digits_value(s.drop_last()) * 10 + (s.last() as int - '0' as int)
    }
}

pub open spec fn all_digits(s: Seq<char>) -> bool {
    forall|i: int| 0 <= i < s.len() ==> is_digit(#[trigger] s[i])
}

/// The digits of a number text: a leading `+` is allowed.
pub open spec fn unsigned_digits(p: Seq<char>) -> Seq<char> {
    if p.len() > 0 && p[0] == '+' {
        p.subrange(1, p.len() as int)
    } else {
        p
    }
}

/// `str::parse::<u32>`: an optional `+`, then one or more decimal digits
/// whose value fits in a `u32`.
pub open spec fn parse_u32(p: Seq<char>) -> Option<u32> {
    let d = unsigned_digits(p);
    if d.len() > 0 && all_digits(d) && digits_value(d) <= u32::MAX {
        Some(digits_value(d) as u32)
    } else {
        None
    }
}

/// Every piece parsed as a `u32`, or nothing when one of them is not a number.
pub open spec fn parse_parts(ps: Seq<Seq<char>>) -> Option<Seq<u32>>
    decreases ps.len(),
{
    if ps.len() == 0 {
        Some(Seq::<u32>::empty())
    } else {
        match (parse_parts(ps.drop_last()), parse_u32(ps.last())) {
            (Some(a), Some(x)) => Some(a.push(x)),
            _ => None,
        }
    }
}

/// The numbers of a version text such as `1.2.10`.
pub open spec fn parse_version(v: Seq<char>) -> Option<Seq<u32>> {
    parse_parts(split_on(v, '.'))
}

/// `latest` is a newer version than `current`: at the first position where
/// they differ it has the larger number, and when one is a prefix of the
/// other, the longer one is newer.
pub open spec fn is_newer(latest: Seq<u32>, current: Seq<u32>) -> bool
    decreases latest.len(),
{
    if latest.len() == 0 || current.len() == 0 {
        latest.len() > current.len()
    } else if latest[0] > current[0] {
        true
    } else if latest[0] < current[0] {
        false
    } else {
        is_newer(latest.drop_first(), current.drop_first())
    }
}

pub open spec fn version_error_message() -> Seq<char> {
    "版本号格式错误"@
}

pub proof fn lemma_digits_value_nonneg(s: Seq<char>)
    requires
        all_digits(s),
    ensures
        digits_value(s) >= 0,
    decreases s.len(),
{
    if s.len() > 0 {
        assert(is_digit(s[s.len() - 1]));
        lemma_digits_value_nonneg(s.drop_last());
    }
}

/// A longer run of digits is worth at least as much as its prefix.
pub proof fn lemma_digits_value_prefix(s: Seq<char>, k: int)
    requires
        all_digits(s),
        0 <= k <= s.len(),
    ensures
        digits_value(s.subrange(0, k)) <= digits_value(s),
    decreases s.len(),
{
    if k == s.len() {
        assert(s.subrange(0, k) =~= s);
    } else {
        let t = s.drop_last();
        assert(is_digit(s[s.len() - 1]));
        assert(all_digits(t));
        lemma_digits_value_prefix(t, k);
        assert(t.subrange(0, k) =~= s.subrange(0, k));
        lemma_digits_value_nonneg(t);
    }
}

/// `str::parse::<u32>` on a character slice (see `parse_u32`).
pub fn parse_u32_chars(p: &[char]) -> (r: Option<u32>)
    ensures
        r == parse_u32(p@),
{
    let start: usize = if p.len() > 0 && p[0] == '+' {
        1
    } else {
        0
    };
    let ghost d = unsigned_digits(p@);
    assert(d =~= p@.subrange(start as int, p@.len() as int));
    if start == p.len() {
        return None;
    }
    let mut acc: u64 = 0;
    let mut i: usize = start;
    while i < p.len()
        invariant
            start <= i <= p@.len(),
            d == unsigned_digits(p@),
            d == p@.subrange(start as int, p@.len() as int),
            acc <= u32::MAX,
            all_digits(d.subrange(0, i - start)),
            acc == digits_value(d.subrange(0, i - start)),
        decreases p@.len() - i,
    {
        let ghost pre = d.subrange(0, i - start);
        let ghost next = d.subrange(0, i - start + 1);
        assert(next.drop_last() =~= pre);
        let c = p[i];
        if !('0' <= c && c <= '9') {
            assert(d[i - start] == c);
            assert(!is_digit(d[i - start]));
            assert(!all_digits(d));
            return None;
        }
        let digit = (c as u32 - '0' as u32) as u64;
        acc = acc * 10 + digit;
        if acc > 4294967295u64 {
            proof {
                if all_digits(d) {
                    lemma_digits_value_prefix(d, i - start + 1);
                }
            }
            return None;
        }
        i = i + 1;
    }
    assert(d.subrange(0, d.len() as int) =~= d);
    Some(acc as u32)
}

/// The numbers of a version text (see `parse_version`).
pub fn parse_version_chars(v: &[char]) -> (r: Option<Vec<u32>>)
    ensures
        match r {
            Some(x) => parse_version(v@) == Some(x@),
            None => parse_version(v@) is None,
        },
{
    let parts = split_at_char(v, '.');
    let ghost ps = parts@.map_values(|l: Vec<char>| l@);
    let mut out: Vec<u32> = Vec::new();
    let mut i: usize = 0;
    while i < parts.len()
        invariant
            i <= parts@.len(),
            ps == parts@.map_values(|l: Vec<char>| l@),
            ps == split_on(v@, '.'),
            parse_parts(ps.subrange(0, i as int)) == Some(out@),
        decreases parts@.len() - i,
    {
        assert(ps.subrange(0, i + 1).drop_last() =~= ps.subrange(0, i as int));
        match parse_u32_chars(parts[i].as_slice()) {
            Some(x) => {
                out.push(x);
            },
            None => {
                proof {
                    assert(ps.subrange(0, i + 1).last() == parts@[i as int]@);
                    assert(parse_parts(ps.subrange(0, i + 1)) is None);
                    lemma_parse_parts_none(ps, i as int + 1);
                }
                return None;
            },
        }
        i = i + 1;
    }
    assert(ps.subrange(0, ps.len() as int) =~= ps);
    Some(out)
}

/// Once a prefix of the pieces fails to parse, so do all of them.
pub proof fn lemma_parse_parts_none(ps: Seq<Seq<char>>, k: int)
    requires
        0 <= k <= ps.len(),
        parse_parts(ps.subrange(0, k)) is None,
    ensures
        parse_parts(ps) is None,
    decreases ps.len() - k,
{
    if k < ps.len() {
        assert(ps.subrange(0, k + 1).drop_last() =~= ps.subrange(0, k));
        lemma_parse_parts_none(ps, k + 1);
    } else {
        assert(ps.subrange(0, k) =~= ps);
    }
}

/// Whether the release `latest` is newer than `current` (see `is_newer`);
/// a version with a piece that is not a `u32` number is an error.
pub fn is_newer_version(latest: &str, current: &str) -> (r: Result<bool, AppError>)
    ensures
        match r {
            Ok(b) => parse_version(latest@) is Some && parse_version(current@) is Some && b
                == is_newer(parse_version(latest@)->0, parse_version(current@)->0),
            Err(e) => (parse_version(latest@) is None || parse_version(current@) is None) && (
            e matches AppError::Internal(m) && m@ == version_error_message()),
        },
{
    proof {
        reveal_strlit("版本号格式错误");
    }
    let lv = chars_of(latest);
    let latest_parts = match parse_version_chars(lv.as_slice()) {
        Some(x) => x,
        None => {
            return Err(AppError::Internal("版本号格式错误".to_string()));
        },
    };
    let cv = chars_of(current);
    let current_parts = match parse_version_chars(cv.as_slice()) {
        Some(x) => x,
        None => {
            return Err(AppError::Internal("版本号格式错误".to_string()));
        },
    };
    let ghost l = latest_parts@;
    let ghost c = current_parts@;
    assert(l.subrange(0, l.len() as int) =~= l);
    assert(c.subrange(0, c.len() as int) =~= c);
    let mut i: usize = 0;
    while i < latest_parts.len() && i < current_parts.len()
        invariant
            l == latest_parts@,
            c == current_parts@,
            parse_version(latest@) == Some(l),
            parse_version(current@) == Some(c),
            i <= l.len(),
            i <= c.len(),
            is_newer(l, c) == is_newer(l.subrange(i as int, l.len() as int), c.subrange(i as int, c.len() as int)),
        decreases l.len() - i,
    {
        let ghost ls = l.subrange(i as int, l.len() as int);
        let ghost cs = c.subrange(i as int, c.len() as int);
        assert(ls[0] == l[i as int]);
        assert(cs[0] == c[i as int]);
        if latest_parts[i] > current_parts[i] {
            return Ok(true);
        } else if latest_parts[i] < current_parts[i] {
            return Ok(false);
        }
        assert(ls.drop_first() =~= l.subrange(i + 1, l.len() as int));
        assert(cs.drop_first() =~= c.subrange(i + 1, c.len() as int));
        i = i + 1;
    }
    Ok(latest_parts.len() > current_parts.len())
}

/// No version is newer than itself.
pub proof fn law_newer_irreflexive(v: Seq<u32>)
    ensures
        !is_newer(v, v),
    decreases v.len(),
{
    if v.len() > 0 {
        law_newer_irreflexive(v.drop_first());
    }
}

/// Of two versions, at most one is newer than the other.
pub proof fn law_newer_asymmetric(a: Seq<u32>, b: Seq<u32>)
    ensures
        is_newer(a, b) ==> !is_newer(b, a),
    decreases a.len(),
{
    if a.len() > 0 && b.len() > 0 && a[0] == b[0] {
        law_newer_asymmetric(a.drop_first(), b.drop_first());
    }
}

/// Being newer is transitive.
pub proof fn law_newer_transitive(a: Seq<u32>, b: Seq<u32>, c: Seq<u32>)
    requires
        is_newer(a, b),
        is_newer(b, c),
    ensures
        is_newer(a, c),
    decreases a.len(),
{
    if a.len() > 0 && b.len() > 0 && c.len() > 0 && a[0] == b[0] && b[0] == c[0] {
        law_newer_transitive(a.drop_first(), b.drop_first(), c.drop_first());
    }
}

/// The version of a release tag `app-v<version>`.
pub open spec fn tag_version(tag: Seq<char>) -> Option<Seq<char>> {
    if tag.len() >= 5 && tag.subrange(0, 5) == "app-v"@ {
        Some(tag.subrange(5, tag.len() as int))
    } else {
        None
    }
}

/// The latest release's tag when it names a newer version than `current`:
/// no tag, a tag not of the form `app-v<version>`, or a malformed version
/// is an error.
pub fn newer_release(tag: Option<&str>, current: &str) -> (r: Result<Option<String>, AppError>)
    ensures
        match tag {
            None => r matches Err(e) && e matches AppError::Custom(m) && m@ == "无法获取最新版本标签"@,
            Some(t) => match tag_version(t@) {
                None => r matches Err(e) && e matches AppError::Custom(m) && m@ == "版本标签格式错误"@,
                Some(v) => match r {
                    Ok(Some(x)) => x@ == t@ && parse_version(v) is Some && parse_version(current@) is Some
                        && is_newer(parse_version(v)->0, parse_version(current@)->0),
                    Ok(None) => parse_version(v) is Some && parse_version(current@) is Some && !is_newer(
                        parse_version(v)->0,
                        parse_version(current@)->0,
                    ),
                    Err(e) => (parse_version(v) is None || parse_version(current@) is None) && (
                    e matches AppError::Internal(m) && m@ == version_error_message()),
                },
            },
        },
{
    proof {
        reveal_strlit("app-v");
    }
    let t = match tag {
        Some(t) => t,
        None => {
            return Err(AppError::Custom("无法获取最新版本标签".to_string()));
        },
    };
    let v = chars_of(t);
    let prefix = chars_of("app-v");
    if !crate::text::has_prefix(v.as_slice(), prefix.as_slice()) {
        return Err(AppError::Custom("版本标签格式错误".to_string()));
    }
    let rest = crate::text::string_of(crate::text::copy_range(v.as_slice(), 5, v.len()).as_slice());
    match is_newer_version(rest.as_str(), current) {
        Ok(true) => Ok(Some(crate::text::string_of(v.as_slice()))),
        Ok(false) => Ok(None),
        Err(e) => Err(e),
    }
}

} // verus!
