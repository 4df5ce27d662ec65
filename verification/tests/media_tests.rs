use biliup_app::config::Credit;
use biliup_app::media::{
    cover_candidate, cover_item, encode_base64, extract_avatar_filename, has_keyword,
    normalize_desc_v2_tokens, normalize_face_url,
};

fn credit(t: u8, raw: &str, biz: &str) -> Credit {
    Credit {
        credit_type: t,
        raw_text: raw.to_string(),
        biz_id: biz.to_string(),
        sub_type: 0,
        sub_biz_id: String::new(),
    }
}

fn keywords(v: &[&str]) -> Vec<String> {
    v.iter().map(|s| s.to_string()).collect()
}

#[test]
fn avatar_name_is_the_last_segment_without_query() {
    assert_eq!(
        extract_avatar_filename("https://i0.hdslb.com/bfs/face/abc123.jpg?x=1", "42"),
        "abc123.jpg"
    );
    assert_eq!(extract_avatar_filename("https://h/a/b/c.webp", "42"), "c.webp");
}

#[test]
fn avatar_name_drops_unsafe_characters() {
    assert_eq!(extract_avatar_filename("https://h/..%2F..%2Fx y.png", "1"), "..2F..2Fxy.png");
    assert_eq!(extract_avatar_filename("https://h/头像.jpg", "1"), ".jpg");
}

#[test]
fn avatar_name_falls_back_to_uid() {
    assert_eq!(extract_avatar_filename("https://h/dir/", "42"), "42.jpg");
    assert_eq!(extract_avatar_filename("", "7"), "7.jpg");
    assert_eq!(extract_avatar_filename("https://h/头像", "9"), "9.jpg");
}

#[test]
fn avatar_name_holds_only_safe_characters() {
    let name = extract_avatar_filename("//h/a b/../c?d=/e", "12");
    assert!(name.chars().all(|c| c.is_ascii_alphanumeric() || c == '.' || c == '_' || c == '-'));
}

#[test]
fn face_url_gets_https() {
    assert_eq!(normalize_face_url("//i0.hdslb.com/a.jpg"), "https://i0.hdslb.com/a.jpg");
    assert_eq!(normalize_face_url("http://i0.hdslb.com/a.jpg"), "https://i0.hdslb.com/a.jpg");
    assert_eq!(normalize_face_url("https://x/a.jpg"), "https://x/a.jpg");
    assert_eq!(normalize_face_url(""), "");
}

#[test]
fn face_url_is_never_plain_http() {
    for u in ["//a", "http://a", "http://http://a", "///a"] {
        let n = normalize_face_url(u);
        assert!(!n.starts_with("//") && !n.starts_with("http://"));
    }
}

#[test]
fn adjacent_text_tokens_are_merged() {
    let tokens = vec![
        credit(1, "前", ""),
        credit(1, "后", ""),
        credit(2, "@u", "123"),
        credit(1, "尾", ""),
        credit(1, "巴", "x"),
    ];
    let r = normalize_desc_v2_tokens(tokens);
    assert_eq!(r.len(), 3);
    assert_eq!(r[0].raw_text, "前后");
    assert_eq!(r[1].raw_text, "@u");
    assert_eq!(r[1].biz_id, "123");
    assert_eq!(r[2].raw_text, "尾巴");
    assert_eq!(r[2].biz_id, "");
}

#[test]
fn merging_keeps_the_text_and_is_stable() {
    let tokens = vec![credit(1, "a", ""), credit(1, "b", ""), credit(2, "c", ""), credit(1, "d", "")];
    let all: String = tokens.iter().map(|c| c.raw_text.clone()).collect();
    let once = normalize_desc_v2_tokens(tokens);
    let merged: String = once.iter().map(|c| c.raw_text.clone()).collect();
    assert_eq!(merged, all);
    let texts: Vec<String> = once.iter().map(|c| c.raw_text.clone()).collect();
    let twice = normalize_desc_v2_tokens(once);
    let texts2: Vec<String> = twice.iter().map(|c| c.raw_text.clone()).collect();
    assert_eq!(texts, texts2);
    assert!(normalize_desc_v2_tokens(Vec::new()).is_empty());
}

#[test]
fn base64_standard_alphabet_with_padding() {
    assert_eq!(encode_base64(b""), "");
    assert_eq!(encode_base64(b"f"), "Zg==");
    assert_eq!(encode_base64(b"fo"), "Zm8=");
    assert_eq!(encode_base64(b"foo"), "Zm9v");
    assert_eq!(encode_base64(b"foobar"), "Zm9vYmFy");
    assert_eq!(encode_base64(&[0xfb, 0xff, 0xbf]), "+/+/");
}

#[test]
fn base64_length_is_four_per_three_bytes() {
    for n in 0..20usize {
        let bytes: Vec<u8> = (0..n as u8).collect();
        assert_eq!(encode_base64(&bytes).len(), 4 * ((n + 2) / 3));
    }
}

#[test]
fn cover_file_needs_image_extension_and_keyword() {
    let kw = keywords(&["", "Cover"]);
    assert_eq!(cover_candidate("my_COVER.PNG", &kw), Some("image/png".to_string()));
    assert_eq!(cover_candidate("cover.jpeg", &kw), Some("image/jpeg".to_string()));
    assert_eq!(cover_candidate("cover.JPG", &kw), Some("image/jpeg".to_string()));
    assert_eq!(cover_candidate("cover.webp", &kw), Some("image/webp".to_string()));
    assert_eq!(cover_candidate("cover.bmp", &kw), Some("image/bmp".to_string()));
    assert_eq!(cover_candidate("cover.gif", &kw), Some("image/gif".to_string()));
    assert_eq!(cover_candidate("cover.txt", &kw), None);
    assert_eq!(cover_candidate("cover", &kw), None);
    assert_eq!(cover_candidate("photo.png", &kw), None);
    assert_eq!(cover_candidate(".png", &keywords(&["png"])), None);
}

#[test]
fn cover_extension_is_the_text_after_the_last_dot() {
    let kw = keywords(&["cover"]);
    assert_eq!(cover_candidate("cover.txt.png", &kw), Some("image/png".to_string()));
    assert_eq!(cover_candidate("cover.png.txt", &kw), None);
    assert_eq!(cover_candidate("cover.", &kw), None);
    assert_eq!(cover_candidate(".cover.gif", &kw), Some("image/gif".to_string()));
}

#[test]
fn empty_keywords_match_nothing() {
    assert!(!has_keyword("anything.png", &keywords(&["", ""])));
    assert!(has_keyword("ÄBC", &keywords(&["äb"])));
}

#[test]
fn cover_preview_is_a_data_url() {
    let item = cover_item("c.png", "/d/c.png", "image/png", b"foo").unwrap();
    assert_eq!(item.name, "c.png");
    assert_eq!(item.path, "/d/c.png");
    assert_eq!(item.data_url, "data:image/png;base64,Zm9v");
    assert!(cover_item("c.png", "/d/c.png", "image/png", b"").is_none());
    let big = vec![0u8; 8 * 1024 * 1024 + 1];
    assert!(cover_item("c.png", "/d/c.png", "image/png", &big).is_none());
    let max = vec![0u8; 8 * 1024 * 1024];
    assert!(cover_item("c.png", "/d/c.png", "image/png", &max).is_some());
}
