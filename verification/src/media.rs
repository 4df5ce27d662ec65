//! Helpers for what the user interface shows: avatar file names, avatar
//! addresses, and the structured description of a video.
use crate::config::{Credit, CreditView};
use crate::json::opt_text;
use crate::text::{
    chars_of, concat2, contains_seq, find_seq, has_prefix, is_ascii_alnum, lowercase, str_eq,
    string_of, to_lowercase, trim, trim_chars,
};
use vstd::prelude::*;

verus! {

/// Index of the first `c` in `s`, or the length when there is none.
pub open spec fn first_pos(s: Seq<char>, c: char) -> int
    decreases s.len(),
{
    if s.len() == 0 {
        0
    } else if s[0] == c {
        0
    } else {
        1 + first_pos(s.subrange(1, s.len() as int), c)
    }
}

/// Index just past the last `c` in `s`, or 0 when there is none.
pub open spec fn last_pos(s: Seq<char>, c: char) -> int
    decreases s.len(),
{
    if s.len() == 0 {
        0
    } else if s.last() == c {
        s.len() as int
    } else {
        last_pos(s.drop_last(), c)
    }
}

/// What `s.split(c).next()` gives: the text before the first `c`.
pub open spec fn before_first(s: Seq<char>, c: char) -> Seq<char> {
    s.subrange(0, first_pos(s, c))
}

/// What `s.rsplit(c).next()` gives: the text after the last `c`.
pub open spec fn after_last(s: Seq<char>, c: char) -> Seq<char> {
    s.subrange(last_pos(s, c), s.len() as int)
}

pub proof fn lemma_first_pos(s: Seq<char>, c: char)
    ensures
        0 <= first_pos(s, c) <= s.len(),
    decreases s.len(),
{
    if s.len() > 0 && s[0] != c {
        lemma_first_pos(s.subrange(1, s.len() as int), c);
    }
}

pub proof fn lemma_last_pos(s: Seq<char>, c: char)
    ensures
        0 <= last_pos(s, c) <= s.len(),
    decreases s.len(),
{
    if s.len() > 0 && s.last() != c {
        lemma_last_pos(s.drop_last(), c);
    }
}

fn first_index(v: &[char], c: char) -> (k: usize)
    ensures
        k as int == first_pos(v@, c),
        k <= v@.len(),
{
    let mut i: usize = 0;
    assert(v@.subrange(0, v@.len() as int) =~= v@);
    while i < v.len() && v[i] != c
        invariant
            i <= v@.len(),
            first_pos(v@, c) == i + first_pos(v@.subrange(i as int, v@.len() as int), c),
        decreases v@.len() - i,
    {
        let ghost t = v@.subrange(i as int, v@.len() as int);
        assert(t.subrange(1, t.len() as int) =~= v@.subrange(i + 1, v@.len() as int));
        i = i + 1;
    }
    i
}

fn last_index(v: &[char], c: char) -> (k: usize)
    ensures
        k as int == last_pos(v@, c),
        k <= v@.len(),
{
    let mut j = v.len();
    assert(v@.subrange(0, j as int) =~= v@);
    while j > 0 && v[j - 1] != c
        invariant
            j <= v@.len(),
            last_pos(v@, c) == last_pos(v@.subrange(0, j as int), c),
        decreases j,
    {
        assert(v@.subrange(0, j as int).drop_last() =~= v@.subrange(0, j - 1));
        j = j - 1;
    }
    j
}

/// Characters allowed in a cached avatar's file name.
pub open spec fn is_safe_name_char(c: char) -> bool {
    is_ascii_alnum(c) || c == '.' || c == '_' || c == '-'
}

/// `s` with every character that is not allowed in a file name left out.
pub open spec fn safe_chars(s: Seq<char>) -> Seq<char>
    decreases s.len(),
{
    if s.len() == 0 {
        s
    } else if is_safe_name_char(s.last()) {
        safe_chars(s.drop_last()).push(s.last())
    } else {
        safe_chars(s.drop_last())
    }
}

/// The file name under which the avatar at `face_url` is cached: the last
/// path segment of the address without its query, trimmed, reduced to
/// ASCII letters, digits, `.`, `_` and `-`; `"<uid>.jpg"` when nothing is
/// left.
pub open spec fn avatar_filename(face_url: Seq<char>, uid: Seq<char>) -> Seq<char> {
    let safe = safe_chars(trim(after_last(before_first(face_url, '?'), '/')));
    if safe.len() == 0 {
        uid + seq!['.', 'j', 'p', 'g']
    } else {
        safe
    }
}

fn is_safe_char(c: char) -> (b: bool)
    ensures
        b == is_safe_name_char(c),
{
    ('a' <= c && c <= 'z') || ('A' <= c && c <= 'Z') || ('0' <= c && c <= '9') || c == '.' || c
        == '_' || c == '-'
}

fn keep_safe(v: &[char]) -> (r: Vec<char>)
    ensures
        r@ == safe_chars(v@),
{
    let mut r: Vec<char> = Vec::new();
    let mut i: usize = 0;
    while i < v.len()
        invariant
            i <= v@.len(),
            r@ == safe_chars(v@.subrange(0, i as int)),
        decreases v@.len() - i,
    {
        assert(v@.subrange(0, i + 1).drop_last() =~= v@.subrange(0, i as int));
        if is_safe_char(v[i]) {
            r.push(v[i]);
        }
        i = i + 1;
    }
    assert(v@.subrange(0, v@.len() as int) =~= v@);
    r
}

/// The cached file name of an avatar (see `avatar_filename`).
pub fn extract_avatar_filename(face_url: &str, uid: &str) -> (r: String)
    ensures
        r@ == avatar_filename(face_url@, uid@),
{
    let v = chars_of(face_url);
    let q = first_index(v.as_slice(), '?');
    let head = crate::text::copy_range(v.as_slice(), 0, q);
    let s = last_index(head.as_slice(), '/');
    let seg = crate::text::copy_range(head.as_slice(), s, head.len());
    let raw = trim_chars(seg.as_slice());
    proof {
        reveal_strlit(".jpg");
    }
    if raw.len() == 0 {
        assert(safe_chars(raw@).len() == 0);
        return concat2(uid, ".jpg");
    }
    let safe = keep_safe(raw.as_slice());
    if safe.len() == 0 {
        concat2(uid, ".jpg")
    } else {
        string_of(safe.as_slice())
    }
}

/// The avatar address as it is fetched: a scheme-relative `//...` address
/// gets `https:` in front, an `http://` address becomes `https://`.
pub open spec fn face_url_normalized(face_url: Seq<char>) -> Seq<char> {
    if face_url.len() >= 2 && face_url.subrange(0, 2) == seq!['/', '/'] {
        seq!['h', 't', 't', 'p', 's', ':'] + face_url
    } else if face_url.len() >= 7 && face_url.subrange(0, 7) == seq![
        'h',
        't',
        't',
        'p',
        ':',
        '/',
        '/',
    ] {
        seq!['h', 't', 't', 'p', 's', ':', '/', '/'] + face_url.subrange(7, face_url.len() as int)
    } else {
        face_url
    }
}

/// The avatar address with an explicit `https` scheme (see
/// `face_url_normalized`).
pub fn normalize_face_url(face_url: &str) -> (r: String)
    ensures
        r@ == face_url_normalized(face_url@),
{
    let v = chars_of(face_url);
    let slashes = chars_of("//");
    let http = chars_of("http://");
    proof {
        reveal_strlit("//");
        reveal_strlit("http://");
        reveal_strlit("https:");
        reveal_strlit("https://");
    }
    assert(slashes@ =~= seq!['/', '/']);
    assert(http@ =~= seq!['h', 't', 't', 'p', ':', '/', '/']);
    if has_prefix(v.as_slice(), slashes.as_slice()) {
        let r = concat2("https:", face_url);
        assert(r@ =~= face_url_normalized(face_url@));
        r
    } else if has_prefix(v.as_slice(), http.as_slice()) {
        let rest = crate::text::copy_range(v.as_slice(), 7, v.len());
        let tail = string_of(rest.as_slice());
        let r = concat2("https://", tail.as_str());
        assert(r@ =~= face_url_normalized(face_url@));
        r
    } else {
        string_of(v.as_slice())
    }
}

/// A description token with `raw` as its text.
pub open spec fn with_text(c: CreditView, raw: Seq<char>) -> CreditView {
    CreditView {
        credit_type: c.credit_type,
        raw_text: raw,
        biz_id: c.biz_id,
        sub_type: c.sub_type,
        sub_biz_id: c.sub_biz_id,
    }
}

/// Adjacent plain-text tokens (type 1) joined into one: a plain-text token
/// that follows one is appended to its text.
pub open spec fn merge_text_runs(s: Seq<CreditView>) -> Seq<CreditView>
    decreases s.len(),
{
    if s.len() == 0 {
        Seq::<CreditView>::empty()
    } else {
        let p = merge_text_runs(s.drop_last());
        let t = s.last();
        if p.len() > 0 && p.last().credit_type == 1 && t.credit_type == 1 {
            p.update(p.len() - 1, with_text(p.last(), p.last().raw_text + t.raw_text))
        } else {
            p.push(t)
        }
    }
}

pub open spec fn credit_views(v: Seq<Credit>) -> Seq<CreditView> {
    v.map_values(|c: Credit| c@)
}

/// The description tokens with adjacent plain-text tokens merged.
pub fn normalize_desc_v2_tokens(tokens: Vec<Credit>) -> (r: Vec<Credit>)
    ensures
        credit_views(r@) == merge_text_runs(credit_views(tokens@)),
{
    let mut normalized: Vec<Credit> = Vec::new();
    let mut i: usize = 0;
    while i < tokens.len()
        invariant
            i <= tokens@.len(),
            credit_views(normalized@) == merge_text_runs(
                credit_views(tokens@.subrange(0, i as int)),
            ),
        decreases tokens@.len() - i,
    {
        let ghost before = credit_views(normalized@);
        assert(credit_views(tokens@.subrange(0, i + 1)).drop_last() =~= credit_views(
            tokens@.subrange(0, i as int),
        ));
        let token = &tokens[i];
        let n = normalized.len();
        if n > 0 && normalized[n - 1].credit_type == 1 && token.credit_type == 1 {
            let mut last = normalized.pop().unwrap();
            last.raw_text = concat2(last.raw_text.as_str(), token.raw_text.as_str());
            normalized.push(last);
            assert(credit_views(normalized@) =~= before.update(
                before.len() - 1,
                with_text(before.last(), before.last().raw_text + token@.raw_text),
            ));
        } else {
            normalized.push(token.copy());
            assert(credit_views(normalized@) =~= before.push(token@));
        }
        i = i + 1;
    }
    assert(tokens@.subrange(0, tokens@.len() as int) =~= tokens@);
    normalized
}

/// No two neighbouring tokens are both plain text.
pub open spec fn no_adjacent_text(s: Seq<CreditView>) -> bool {
    forall|i: int|
        0 <= i < s.len() - 1 ==> !(#[trigger] s[i].credit_type == 1 && s[i + 1].credit_type == 1)
}

/// The texts of all tokens, one after another.
pub open spec fn all_text(s: Seq<CreditView>) -> Seq<char>
    decreases s.len(),
{
    if s.len() == 0 {
        Seq::<char>::empty()
    } else {
        all_text(s.drop_last()) + s.last().raw_text
    }
}

/// After merging, no two neighbouring tokens are both plain text.
pub proof fn law_merged_has_no_adjacent_text(s: Seq<CreditView>)
    ensures
        no_adjacent_text(merge_text_runs(s)),
    decreases s.len(),
{
    if s.len() > 0 {
        law_merged_has_no_adjacent_text(s.drop_last());
        let p = merge_text_runs(s.drop_last());
        let r = merge_text_runs(s);
        assert forall|i: int| 0 <= i < r.len() - 1 implies !(#[trigger] r[i].credit_type == 1 && r[i
            + 1].credit_type == 1) by {
            if i + 1 < p.len() {
                assert(r[i] == p[i]);
                assert(p[i].credit_type == 1 ==> p[i + 1].credit_type != 1);
            }
        }
    }
}

/// Merging keeps the whole text of the description.
pub proof fn law_merge_keeps_text(s: Seq<CreditView>)
    ensures
        all_text(merge_text_runs(s)) == all_text(s),
    decreases s.len(),
{
    if s.len() > 0 {
        law_merge_keeps_text(s.drop_last());
        let p = merge_text_runs(s.drop_last());
        let t = s.last();
        if p.len() > 0 && p.last().credit_type == 1 && t.credit_type == 1 {
            let q = p.update(p.len() - 1, with_text(p.last(), p.last().raw_text + t.raw_text));
            assert(q.drop_last() =~= p.drop_last());
            assert(all_text(q) =~= all_text(p) + t.raw_text);
        } else {
            assert(p.push(t).drop_last() =~= p);
        }
    }
}

/// A description without neighbouring plain-text tokens is left as it is.
pub proof fn law_merge_keeps_merged(s: Seq<CreditView>)
    requires
        no_adjacent_text(s),
    ensures
        merge_text_runs(s) == s,
    decreases s.len(),
{
    if s.len() > 0 {
        let d = s.drop_last();
        assert(no_adjacent_text(d)) by {
            assert forall|i: int| 0 <= i < d.len() - 1 implies !(#[trigger] d[i].credit_type == 1
                && d[i + 1].credit_type == 1) by {
                assert(d[i] == s[i] && d[i + 1] == s[i + 1]);
            }
        }
        law_merge_keeps_merged(d);
        if d.len() > 0 {
            assert(d.last() == s[s.len() - 2]);
            assert(!(s[s.len() - 2].credit_type == 1 && s[s.len() - 1].credit_type == 1));
        }
        assert(d.push(s.last()) =~= s);
    }
}

/// Merging a second time changes nothing.
pub proof fn law_merge_idempotent(s: Seq<CreditView>)
    ensures
        merge_text_runs(merge_text_runs(s)) == merge_text_runs(s),
{
    law_merged_has_no_adjacent_text(s);
    law_merge_keeps_merged(merge_text_runs(s));
}

/// The Base64 digit of a 6-bit value (standard alphabet).
pub open spec fn b64_digit(v: int) -> char {
    if v < 26 {
        ('A' as int + v) as char
    } else if v < 52 {
        ('a' as int + (v - 26)) as char
    } else if v < 62 {
        ('0' as int + (v - 52)) as char
    } else if v == 62 {
        '+'
    } else {
        '/'
    }
}

/// Standard Base64 with `=` padding: every three bytes become four digits.
pub open spec fn base64(b: Seq<u8>) -> Seq<char>
    decreases b.len(),
{
    if b.len() == 0 {
        Seq::<char>::empty()
    } else if b.len() == 1 {
        seq![b64_digit((b[0] as int) / 4), b64_digit(((b[0] as int) % 4) * 16), '=', '=']
    } else if b.len() == 2 {
        seq![
            b64_digit((b[0] as int) / 4),
            b64_digit(((b[0] as int) % 4) * 16 + (b[1] as int) / 16),
            b64_digit(((b[1] as int) % 16) * 4),
            '=',
        ]
    } else {
        seq![
            b64_digit((b[0] as int) / 4),
            b64_digit(((b[0] as int) % 4) * 16 + (b[1] as int) / 16),
            b64_digit(((b[1] as int) % 16) * 4 + (b[2] as int) / 64),
            b64_digit((b[2] as int) % 64),
        ] + base64(b.subrange(3, b.len() as int))
    }
}

fn digit(v: u32) -> (c: char)
    requires
        v < 64,
    ensures
        c == b64_digit(v as int),
{
    let u: u32 = if v < 26 {
        65 + v
    } else if v < 52 {
        97 + (v - 26)
    } else if v < 62 {
        48 + (v - 52)
    } else if v == 62 {
        43
    } else {
        47
    };
    let c = (u as u8) as char;
    assert(c == b64_digit(v as int)) by {
        assert(c as int == u as int);
    }
    c
}

/// Base64 of the bytes (see `base64`).
pub fn encode_base64(bytes: &[u8]) -> (r: String)
    ensures
        r@ == base64(bytes@),
{
    let n = bytes.len();
    let mut out: Vec<char> = Vec::new();
    let mut i: usize = 0;
    assert(bytes@.subrange(0, n as int) =~= bytes@);
    while n - i >= 3
        invariant
            n == bytes@.len(),
            i <= n,
            base64(bytes@) == out@ + base64(bytes@.subrange(i as int, n as int)),
        decreases n - i,
    {
        let b0 = bytes[i] as u32;
        let b1 = bytes[i + 1] as u32;
        let b2 = bytes[i + 2] as u32;
        let ghost rest = bytes@.subrange(i as int, n as int);
        assert(rest.subrange(3, rest.len() as int) =~= bytes@.subrange(i + 3, n as int));
        let ghost before = out@;
        out.push(digit(b0 / 4));
        out.push(digit((b0 % 4) * 16 + b1 / 16));
        out.push(digit((b1 % 16) * 4 + b2 / 64));
        out.push(digit(b2 % 64));
        assert(out@ =~= before + seq![
            b64_digit((rest[0] as int) / 4),
            b64_digit(((rest[0] as int) % 4) * 16 + (rest[1] as int) / 16),
            b64_digit(((rest[1] as int) % 16) * 4 + (rest[2] as int) / 64),
            b64_digit((rest[2] as int) % 64),
        ]);
        i = i + 3;
    }
    let ghost rest = bytes@.subrange(i as int, n as int);
    let ghost before = out@;
    if n - i == 1 {
        let b0 = bytes[i] as u32;
        out.push(digit(b0 / 4));
        out.push(digit((b0 % 4) * 16));
        out.push('=');
        out.push('=');
        assert(out@ =~= before + base64(rest));
    } else if n - i == 2 {
        let b0 = bytes[i] as u32;
        let b1 = bytes[i + 1] as u32;
        out.push(digit(b0 / 4));
        out.push(digit((b0 % 4) * 16 + b1 / 16));
        out.push(digit((b1 % 16) * 4));
        out.push('=');
        assert(out@ =~= before + base64(rest));
    } else {
        assert(out@ =~= before + base64(rest));
    }
    string_of(out.as_slice())
}

/// The extension of a file name as `Path::extension` gives it.
pub uninterp spec fn file_extension(name: Seq<char>) -> Option<Seq<char>>;

/// Index of the last `.` in `s`.
pub open spec fn last_dot(s: Seq<char>) -> Option<int>
    decreases s.len(),
{
    if s.len() == 0 {
        None
    } else if s.last() == '.' {
        Some(s.len() - 1)
    } else {
        last_dot(s.drop_last())
    }
}

/// A bare file name, read the same way under every platform's path rules:
/// no `/` or `\\` separator and no drive prefix (a `:` second).
pub open spec fn plain_file_name(name: Seq<char>) -> bool {
    &&& !name.contains('/')
    &&& !name.contains('\\')
    &&& !(name.len() >= 2 && name[1] == ':')
}

/// The extension of a bare file name by the rule `Path::extension`
/// documents: the text after the last `.`; none without a `.`, when the
/// only `.` starts the name, or for `..` (which names no file).
pub open spec fn name_extension(name: Seq<char>) -> Option<Seq<char>> {
    if name == ".."@ {
        None
    } else {
        match last_dot(name) {
            None => None,
            Some(i) => if i == 0 {
                None
            } else {
                Some(name.subrange(i + 1, name.len() as int))
            },
        }
    }
}

/// `Path::extension` of a file name, as text (the extension of a path made
/// of just this name is valid UTF-8, so the conversion always succeeds).
/// For a bare file name the result is the documented rule `name_extension`;
/// for a name with separators or a drive prefix it depends on the
/// platform's path rules, and only the name `file_extension` is given.
#[verifier::external_body]
fn path_extension(name: &str) -> (r: Option<String>)
    ensures
        opt_text(r) == file_extension(name@),
        plain_file_name(name@) ==> opt_text(r) == name_extension(name@),
{
    std::path::Path::new(name).extension().and_then(|e| e.to_str()).map(|e| e.to_string())
}

/// The image type of a lower-case file extension, for the image formats
/// offered as covers.
pub open spec fn image_mime(ext: Seq<char>) -> Option<Seq<char>> {
    if ext == "jpg"@ || ext == "jpeg"@ {
        Some("image/jpeg"@)
    } else if ext == "png"@ {
        Some("image/png"@)
    } else if ext == "gif"@ {
        Some("image/gif"@)
    } else if ext == "webp"@ {
        Some("image/webp"@)
    } else if ext == "bmp"@ {
        Some("image/bmp"@)
    } else {
        None
    }
}

fn image_mime_of(ext: &str) -> (r: Option<String>)
    ensures
        opt_text(r) == image_mime(ext@),
{
    if str_eq(ext, "jpg") || str_eq(ext, "jpeg") {
        Some("image/jpeg".to_string())
    } else if str_eq(ext, "png") {
        Some("image/png".to_string())
    } else if str_eq(ext, "gif") {
        Some("image/gif".to_string())
    } else if str_eq(ext, "webp") {
        Some("image/webp".to_string())
    } else if str_eq(ext, "bmp") {
        Some("image/bmp".to_string())
    } else {
        None
    }
}

/// Some non-empty keyword occurs in the name, both lower-cased.
pub open spec fn matches_keyword(name: Seq<char>, keywords: Seq<String>) -> bool {
    exists|i: int|
        0 <= i < keywords.len() && (#[trigger] keywords[i])@.len() > 0 && contains_seq(
            lowercase(name),
            lowercase(keywords[i]@),
        )
}

/// The image type of a file offered as a cover: its lower-cased extension
/// names an image format and its name contains a keyword.
pub open spec fn cover_mime(name: Seq<char>, keywords: Seq<String>) -> Option<Seq<char>> {
    cover_mime_with(file_extension(name), name, keywords)
}

/// The image type of a file named `name` with extension `ext` offered as a
/// cover (see `cover_mime`).
pub open spec fn cover_mime_with(ext: Option<Seq<char>>, name: Seq<char>, keywords: Seq<String>) -> Option<Seq<char>> {
    match ext {
        Some(e) => if image_mime(lowercase(e)) is Some && matches_keyword(name, keywords) {
            image_mime(lowercase(e))
        } else {
            None
        },
        None => None,
    }
}

/// Whether the name contains one of the keywords (see `matches_keyword`).
pub fn has_keyword(name: &str, keywords: &Vec<String>) -> (b: bool)
    ensures
        b == matches_keyword(name@, keywords@),
{
    let lower_name = chars_of(to_lowercase(name).as_str());
    let mut i: usize = 0;
    while i < keywords.len()
        invariant
            i <= keywords@.len(),
            lower_name@ == lowercase(name@),
            forall|j: int|
                0 <= j < i ==> !((#[trigger] keywords@[j])@.len() > 0 && contains_seq(
                    lowercase(name@),
                    lowercase(keywords@[j]@),
                )),
        decreases keywords@.len() - i,
    {
        let kw = &keywords[i];
        if kw.unicode_len() > 0 {
            let lower_kw = chars_of(to_lowercase(kw.as_str()).as_str());
            if find_seq(lower_name.as_slice(), lower_kw.as_slice()).is_some() {
                return true;
            }
        }
        i = i + 1;
    }
    false
}

/// The image type under which a file is offered as a cover, if it is (see
/// `cover_mime`).
pub fn cover_candidate(name: &str, keywords: &Vec<String>) -> (r: Option<String>)
    ensures
        opt_text(r) == cover_mime(name@, keywords@),
        plain_file_name(name@) ==> opt_text(r) == cover_mime_with(name_extension(name@), name@, keywords@),
{
    let ext = match path_extension(name) {
        Some(e) => e,
        None => {
            return None;
        },
    };
    let lower = to_lowercase(ext.as_str());
    let mime = image_mime_of(lower.as_str());
    if mime.is_none() {
        return None;
    }
    if !has_keyword(name, keywords) {
        return None;
    }
    mime
}

/// A cover image offered to the user, with a data URL for its preview.
#[derive(Debug)]
pub struct CoverImageItem {
    pub name: String,
    pub path: String,
    pub data_url: String,
}

/// The largest cover file that is previewed: 8 MiB.
pub const COVER_MAX_BYTES: usize = 8388608;

/// The data URL of an image: `data:<mime>;base64,<Base64 of the bytes>`.
pub open spec fn data_url(mime: Seq<char>, bytes: Seq<u8>) -> Seq<char> {
    "data:"@ + mime + ";base64,"@ + base64(bytes)
}

/// The preview of a cover file with image type `mime` and contents
/// `bytes`: none for an empty file or one over 8 MiB.
pub fn cover_item(name: &str, path: &str, mime: &str, bytes: &[u8]) -> (r: Option<CoverImageItem>)
    ensures
        match r {
            Some(item) => 0 < bytes@.len() <= COVER_MAX_BYTES && item.name@ == name@ && item.path@
                == path@ && item.data_url@ == data_url(mime@, bytes@),
            None => bytes@.len() == 0 || bytes@.len() > COVER_MAX_BYTES,
        },
{
    if bytes.len() == 0 || bytes.len() > COVER_MAX_BYTES {
        return None;
    }
    proof {
        reveal_strlit("data:");
        reveal_strlit(";base64,");
    }
    let head = crate::text::concat3("data:", mime, ";base64,");
    let body = encode_base64(bytes);
    let url = concat2(head.as_str(), body.as_str());
    Some(
        CoverImageItem {
            name: string_of(chars_of(name).as_slice()),
            path: string_of(chars_of(path).as_slice()),
            data_url: url,
        },
    )
}

/// Base64 makes four digits of every three bytes, the last group padded.
pub proof fn law_base64_len(b: Seq<u8>)
    ensures
        base64(b).len() == 4 * ((b.len() + 2) / 3),
    decreases b.len(),
{
    if b.len() >= 3 {
        law_base64_len(b.subrange(3, b.len() as int));
    }
}

/// Only file-name characters survive the filter.
proof fn lemma_safe_chars(s: Seq<char>)
    ensures
        forall|i: int| 0 <= i < safe_chars(s).len() ==> is_safe_name_char(#[trigger] safe_chars(s)[i]),
    decreases s.len(),
{
    if s.len() > 0 {
        let p = safe_chars(s.drop_last());
        lemma_safe_chars(s.drop_last());
        assert forall|i: int| 0 <= i < safe_chars(s).len() implies is_safe_name_char(
            #[trigger] safe_chars(s)[i],
        ) by {
            if i < p.len() {
                assert(safe_chars(s)[i] == p[i]);
            }
        }
    }
}

/// A cached avatar's file name holds only ASCII letters, digits, `.`, `_`
/// and `-` (so it cannot lead out of the cache directory), provided the
/// user id does.
pub proof fn law_avatar_name_safe(face_url: Seq<char>, uid: Seq<char>)
    requires
        forall|i: int| 0 <= i < uid.len() ==> is_safe_name_char(#[trigger] uid[i]),
    ensures
        forall|i: int|
            0 <= i < avatar_filename(face_url, uid).len() ==> is_safe_name_char(
                #[trigger] avatar_filename(face_url, uid)[i],
            ),
{
    let safe = safe_chars(trim(after_last(before_first(face_url, '?'), '/')));
    lemma_safe_chars(trim(after_last(before_first(face_url, '?'), '/')));
    if safe.len() == 0 {
        let r = uid + seq!['.', 'j', 'p', 'g'];
        assert forall|i: int| 0 <= i < r.len() implies is_safe_name_char(#[trigger] r[i]) by {
            if i < uid.len() {
                assert(r[i] == uid[i]);
            }
        }
    }
}

/// An avatar address is never fetched scheme-relative (`//...`) or over
/// plain `http://`.
pub proof fn law_face_url_secure(face_url: Seq<char>)
    ensures
        !(face_url_normalized(face_url).len() >= 2 && face_url_normalized(face_url).subrange(0, 2)
            == seq!['/', '/']),
        !(face_url_normalized(face_url).len() >= 7 && face_url_normalized(face_url).subrange(0, 7)
            == seq!['h', 't', 't', 'p', ':', '/', '/']),
{
    let r = face_url_normalized(face_url);
    if face_url.len() >= 2 && face_url.subrange(0, 2) == seq!['/', '/'] {
        assert(r[0] == 'h' && r[4] == 's');
        if r.len() >= 2 && r.subrange(0, 2) == seq!['/', '/'] {
            assert(r.subrange(0, 2)[0] == r[0]);
        }
        if r.len() >= 7 && r.subrange(0, 7) == seq!['h', 't', 't', 'p', ':', '/', '/'] {
            assert(r.subrange(0, 7)[4] == r[4]);
        }
    } else if face_url.len() >= 7 && face_url.subrange(0, 7) == seq!['h', 't', 't', 'p', ':', '/', '/'] {
        assert(r[0] == 'h' && r[4] == 's');
        if r.len() >= 2 && r.subrange(0, 2) == seq!['/', '/'] {
            assert(r.subrange(0, 2)[0] == r[0]);
        }
        if r.len() >= 7 && r.subrange(0, 7) == seq!['h', 't', 't', 'p', ':', '/', '/'] {
            assert(r.subrange(0, 7)[4] == r[4]);
        }
    }
}

} // verus!
