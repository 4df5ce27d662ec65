use biliup_app::error::AppError;
use biliup_app::json::{JsonNumber, JsonValue};
use biliup_app::titles::{
    clean_title_text, dedupe_titles, first_title_from_reading, normalize_title, parse_titles,
    pick_first_title, titles_from_reading,
};

fn text(s: &str) -> JsonValue {
    JsonValue::Str(s.to_string())
}

fn object(members: Vec<(&str, JsonValue)>) -> JsonValue {
    JsonValue::Object(members.into_iter().map(|(k, v)| (k.to_string(), v)).collect())
}

fn strings(v: &[&str]) -> Vec<String> {
    v.iter().map(|s| s.to_string()).collect()
}

#[test]
fn numbered_line_loses_number_and_final_stop() {
    assert_eq!(normalize_title("1. 好标题。"), Some("好标题".to_string()));
    assert_eq!(normalize_title("2、第二个标题！"), Some("第二个标题".to_string()));
    assert_eq!(normalize_title("3) 第三个"), Some("第三个".to_string()));
}

#[test]
fn bullet_and_parenthesised_number_are_removed() {
    assert_eq!(normalize_title("- 列表标题"), Some("列表标题".to_string()));
    assert_eq!(normalize_title("• 圆点标题"), Some("圆点标题".to_string()));
    assert_eq!(normalize_title("(1) 括号编号"), Some("括号编号".to_string()));
}

#[test]
fn quotes_around_the_whole_line_are_removed() {
    assert_eq!(normalize_title("\"引号标题\""), Some("引号标题".to_string()));
    assert_eq!(normalize_title("「角括号」"), Some("角括号".to_string()));
    // quotes are only removed around the whole line, before list markers
    assert_eq!(normalize_title("- “标题一”"), Some("“标题一”".to_string()));
}

#[test]
fn empty_and_introduction_lines_are_no_titles() {
    assert_eq!(normalize_title(""), None);
    assert_eq!(normalize_title("   "), None);
    assert_eq!(normalize_title("以下是为您生成的标题"), None);
    assert_eq!(normalize_title("好的"), None);
    assert_eq!(normalize_title("- "), None);
}

#[test]
fn digits_without_separator_stay() {
    assert_eq!(normalize_title("12abc"), Some("12abc".to_string()));
}

#[test]
fn long_title_is_cut_to_eighty_characters() {
    let long: String = std::iter::repeat('长').take(100).collect();
    let t = normalize_title(&long).unwrap();
    assert_eq!(t.chars().count(), 80);
}

#[test]
fn dedupe_ignores_case_and_keeps_first() {
    let r = dedupe_titles(strings(&["Title", "other", "TITLE", "Other", "new"]));
    assert_eq!(r, strings(&["Title", "other", "new"]));
}

#[test]
fn dedupe_twice_changes_nothing() {
    let once = dedupe_titles(strings(&["a", "A", "b", "B", "c"]));
    let twice = dedupe_titles(once.clone());
    assert_eq!(once, twice);
}

#[test]
fn lines_are_parsed_without_repetitions() {
    let raw = "1. 标题A\n2. 标题B\n3. 标题a";
    assert_eq!(parse_titles(raw), strings(&["标题A", "标题B"]));
}

#[test]
fn json_array_takes_precedence_over_lines() {
    let raw = "[\"第一\", {\"title\": \"第二\"}, 3]";
    let parsed = JsonValue::Array(vec![
        text("第一"),
        object(vec![("title", text("第二"))]),
        JsonValue::Number(JsonNumber { as_u64: Some(3), as_i64: Some(3), other: None }),
    ]);
    assert_eq!(titles_from_reading(raw, Some(&parsed)), strings(&["第一", "第二"]));
}

#[test]
fn json_object_titles_key_is_read() {
    let raw = "{\"titles\": [\"甲\", \"乙\"]}";
    let parsed = object(vec![("titles", JsonValue::Array(vec![text("甲"), text("乙")]))]);
    assert_eq!(titles_from_reading(raw, Some(&parsed)), strings(&["甲", "乙"]));
}

#[test]
fn fences_are_removed_before_reading() {
    let raw = "```json\n[\"a\"]\n```";
    assert_eq!(clean_title_text(raw), "[\"a\"]");
    let raw2 = "```\n1. 标题\n```";
    assert_eq!(clean_title_text(raw2), "1. 标题");
    assert_eq!(parse_titles(raw2), strings(&["标题"]));
    assert_eq!(clean_title_text("```json"), "");
    assert_eq!(clean_title_text("  plain  "), "plain");
}

#[test]
fn fenced_json_array_is_read_as_json() {
    let raw = "```json\n[\"A\", \"B\"]\n```";
    assert_eq!(clean_title_text(raw), "[\"A\", \"B\"]");
    let parsed = JsonValue::Array(vec![text("A"), text("B")]);
    assert_eq!(titles_from_reading(raw, Some(&parsed)), strings(&["A", "B"]));
}

#[test]
fn first_title_is_picked() {
    assert_eq!(
        pick_first_title("好的，以下是标题：\n1. 第一个标题\n2. 第二个").unwrap(),
        "第一个标题"
    );
    assert_eq!(first_title_from_reading("1. 第一个标题\n2. 第二个", None).unwrap(), "第一个标题");
}

#[test]
fn full_width_numbering_is_stripped() {
    assert_eq!(normalize_title("（1）标题"), Some("标题".to_string()));
    assert_eq!(normalize_title("(2）标题"), Some("标题".to_string()));
    assert_eq!(normalize_title("（3)标题"), Some("标题".to_string()));
    assert_eq!(normalize_title("（ 12 ） 标题"), Some("标题".to_string()));
    assert_eq!(normalize_title("（注）标题"), Some("（注）标题".to_string()));
}

#[test]
fn list_introduction_is_read_after_its_colon() {
    assert_eq!(normalize_title("以下是标题：绝地翻盘"), Some("绝地翻盘".to_string()));
    assert_eq!(normalize_title("好的：1. 绝地翻盘"), Some("绝地翻盘".to_string()));
    assert_eq!(normalize_title("好的：以下：标题"), Some("标题".to_string()));
    assert_eq!(normalize_title("以下是标题："), None);
}

#[test]
fn normalized_titles_have_the_stated_shape() {
    for line in ["  - 1. “好标题”。", "（1）● 标题", "以下：   - x", "收到：2、 很长的标题！！"] {
        let t = normalize_title(line).unwrap();
        let n = t.chars().count();
        assert!(n > 0 && n <= 80);
        assert!(!t.starts_with(char::is_whitespace));
        assert!(!t.starts_with(['-', '*', '•', '·', '●']));
        for p in ["以下", "下面是", "为您生成", "为你生成", "希望这", "好的", "收到", "请选择"] {
            assert!(!t.starts_with(p));
        }
    }
}

#[test]
fn no_title_is_an_error_quoting_the_reply() {
    match pick_first_title("   ") {
        Err(AppError::Custom(m)) => {
            assert_eq!(m, format!("标题生成模型未返回有效标题，原始回复: {}", "   "));
        }
        other => panic!("unexpected {other:?}"),
    }
}

#[test]
fn replies_are_read_as_json_by_the_library() {
    assert_eq!(parse_titles("[\"第一\", {\"title\": \"第二\"}, 3]"), strings(&["第一", "第二"]));
    assert_eq!(parse_titles("{\"titles\": [\"甲\", \"乙\"]}"), strings(&["甲", "乙"]));
    assert_eq!(parse_titles("```json\n[\"A\", \"B\"]\n```"), strings(&["A", "B"]));
    // an object without a title list is read line by line
    assert_eq!(parse_titles("{\"x\": 1}"), strings(&["{\"x\": 1}"]));
    assert_eq!(pick_first_title("{\"标题\": [\"绝地翻盘\"]}").unwrap(), "绝地翻盘");
}
