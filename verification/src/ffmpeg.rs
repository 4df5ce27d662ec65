//! Reading what ffmpeg prints: the duration of a video and the reason a
//! frame could not be captured; where ffmpeg is looked for.
use crate::error::AppError;
use crate::json::opt_text;
use crate::media::{before_first, first_pos};
use crate::text::{
    ascii_lower, chars_of, concat2, find_seq, lines, occurs_at, split_at_char, split_lines,
    split_on, string_of, to_ascii_lower, trim, trim_chars, trimmed,
};
use vstd::prelude::*;

verus! {

/// `p` occurs at `i` in `s` and nowhere before.
pub open spec fn is_first_occurrence(s: Seq<char>, p: Seq<char>, i: int) -> bool {
    occurs_at(s, p, i) && forall|k: int| 0 <= k < i ==> !occurs_at(s, p, k)
}

/// Where `p` first occurs in `s`.
pub open spec fn first_occurrence(s: Seq<char>, p: Seq<char>) -> Option<int> {
    if exists|i: int| is_first_occurrence(s, p, i) {
        Some(choose|i: int| is_first_occurrence(s, p, i))
    } else {
        None
    }
}

proof fn lemma_first_occurrence(s: Seq<char>, p: Seq<char>, i: int)
    requires
        is_first_occurrence(s, p, i),
    ensures
        first_occurrence(s, p) == Some(i),
{
    let j = choose|j: int| is_first_occurrence(s, p, j);
    assert(is_first_occurrence(s, p, j));
    if j < i {
        assert(!occurs_at(s, p, j));
    }
    if i < j {
        assert(!occurs_at(s, p, i));
    }
}

/// The marker before the duration in ffmpeg's report.
pub open spec fn duration_marker() -> Seq<char> {
    "Duration: "@
}

/// The text of the duration that ffmpeg reports (`Duration: HH:MM:SS.xx,`):
/// after the first marker, up to the next comma, trimmed; nothing when it
/// is missing, empty or `N/A` (in any case).
pub open spec fn duration_token(stderr: Seq<char>) -> Option<Seq<char>> {
    match first_occurrence(stderr, duration_marker()) {
        Some(pos) => {
            let rest = stderr.subrange(pos + 10, stderr.len() as int);
            let token = trim(before_first(rest, ','));
            if token.len() == 0 || ascii_lower(token) == "n/a"@ {
                None
            } else {
                Some(token)
            }
        },
        None => None,
    }
}

/// The hours, minutes and seconds texts of the reported duration, each
/// trimmed: the token must have exactly three `:`-separated fields.
pub open spec fn duration_fields_of(stderr: Seq<char>) -> Option<(Seq<char>, Seq<char>, Seq<char>)> {
    match duration_token(stderr) {
        Some(token) => {
            let parts = split_on(token, ':');
            if parts.len() == 3 {
                Some((trim(parts[0]), trim(parts[1]), trim(parts[2])))
            } else {
                None
            }
        },
        None => None,
    }
}

/// The three fields of the duration in ffmpeg's report (see
/// `duration_fields_of`); the caller reads them as numbers.
pub fn duration_fields(stderr: &str) -> (r: Option<(String, String, String)>)
    ensures
        match r {
            Some((h, m, s)) => duration_fields_of(stderr@) == Some((h@, m@, s@)),
            None => duration_fields_of(stderr@) is None,
        },
{
    proof {
        reveal_strlit("Duration: ");
        reveal_strlit("n/a");
    }
    let text = chars_of(stderr);
    let marker = chars_of("Duration: ");
    let pos = match find_seq(text.as_slice(), marker.as_slice()) {
        Some(p) => p,
        None => {
            return None;
        },
    };
    proof {
        lemma_first_occurrence(text@, marker@, pos as int);
    }
    assert(marker@.len() == 10);
    assert(occurs_at(text@, marker@, pos as int));
    let n = text.len();
    assert(pos + 10 <= n);
    let start: usize = pos + 10;
    let rest = crate::text::copy_range(text.as_slice(), start, n);
    let mut k: usize = 0;
    assert(rest@.subrange(0, rest@.len() as int) =~= rest@);
    while k < rest.len() && rest[k] != ','
        invariant
            k <= rest@.len(),
            first_pos(rest@, ',') == k + first_pos(rest@.subrange(k as int, rest@.len() as int), ','),
        decreases rest@.len() - k,
    {
        let ghost t = rest@.subrange(k as int, rest@.len() as int);
        assert(t.subrange(1, t.len() as int) =~= rest@.subrange(k + 1, rest@.len() as int));
        k = k + 1;
    }
    let head = crate::text::copy_range(rest.as_slice(), 0, k);
    let token = trim_chars(head.as_slice());
    let lower = to_ascii_lower(token.as_slice());
    let na = chars_of("n/a");
    if token.len() == 0 || crate::text::chars_eq(lower.as_slice(), na.as_slice()) {
        return None;
    }
    let parts = split_at_char(token.as_slice(), ':');
    assert(parts@.len() == split_on(token@, ':').len());
    if parts.len() != 3 {
        return None;
    }
    let ghost ps = parts@.map_values(|l: Vec<char>| l@);
    assert(ps[0] == parts@[0]@ && ps[1] == parts@[1]@ && ps[2] == parts@[2]@);
    let h = string_of(trim_chars(parts[0].as_slice()).as_slice());
    let m = string_of(trim_chars(parts[1].as_slice()).as_slice());
    let s = string_of(trim_chars(parts[2].as_slice()).as_slice());
    Some((h, m, s))
}

/// The last line of ffmpeg's report, or `未知错误` when it printed nothing.
pub open spec fn last_line(stderr: Seq<char>) -> Seq<char> {
    if lines(stderr).len() > 0 {
        lines(stderr).last()
    } else {
        "未知错误"@
    }
}

/// The failure of a frame capture that gave no image: seeking from the
/// end (`from_end`) or to a time; the message ends with the report's last
/// line.
pub fn frame_failure(from_end: bool, stderr: &str) -> (e: AppError)
    ensures
        e matches AppError::Custom(m) && m@ == (if from_end {
            "sseof 截帧无输出: "@
        } else {
            "截取视频画面失败: "@
        }) + last_line(stderr@),
{
    proof {
        reveal_strlit("未知错误");
        reveal_strlit("sseof 截帧无输出: ");
        reveal_strlit("截取视频画面失败: ");
    }
    let v = chars_of(stderr);
    let ls = split_lines(v.as_slice());
    let last = if ls.len() > 0 {
        string_of(ls[ls.len() - 1].as_slice())
    } else {
        "未知错误".to_string()
    };
    let prefix = if from_end {
        "sseof 截帧无输出: "
    } else {
        "截取视频画面失败: "
    };
    AppError::Custom(concat2(prefix, last.as_str()))
}

/// The configured ffmpeg path, trimmed, when one is configured.
pub fn configured_ffmpeg(configured: &str) -> (r: Option<String>)
    ensures
        match r {
            Some(p) => p@ == trim(configured@) && p@.len() > 0,
            None => trim(configured@).len() == 0,
        },
{
    let t = trimmed(configured);
    if t.unicode_len() > 0 {
        Some(t)
    } else {
        None
    }
}

/// The usual install places of ffmpeg on macOS and Linux, in the order in
/// which they are tried (after the configured path and the `PATH`).
pub fn unix_ffmpeg_locations() -> (r: Vec<String>)
    ensures
        r@.map_values(|s: String| s@) == seq![
            "/usr/bin/ffmpeg"@,
            "/usr/local/bin/ffmpeg"@,
            "/opt/homebrew/bin/ffmpeg"@,
            "/snap/bin/ffmpeg"@,
        ],
{
    let r = vec![
        "/usr/bin/ffmpeg".to_string(),
        "/usr/local/bin/ffmpeg".to_string(),
        "/opt/homebrew/bin/ffmpeg".to_string(),
        "/snap/bin/ffmpeg".to_string(),
    ];
    assert(r@.map_values(|s: String| s@) =~= seq![
        "/usr/bin/ffmpeg"@,
        "/usr/local/bin/ffmpeg"@,
        "/opt/homebrew/bin/ffmpeg"@,
        "/snap/bin/ffmpeg"@,
    ]);
    r
}

} // verus!
