use biliup_app::bili::{
    apply_archive_view, archive_desc_v2, archive_pre_with_types, archive_query, mention_keyword,
    parse_mention_reply, topic_list, topic_search_result,
};
use biliup_app::config::{Credit, TemplateConfig, VideoInfo};
use biliup_app::error::AppError;
use biliup_app::json::{JsonNumber, JsonValue};
use biliup_app::season::{
    files_to_delete, parse_season_list, reply_code_ok, season_request, submit_outcome, video_season_id, SeasonAction, SeasonSync,
};

fn text(s: &str) -> JsonValue {
    JsonValue::Str(s.to_string())
}

fn num(n: i64) -> JsonValue {
    JsonValue::Number(JsonNumber {
        as_u64: if n >= 0 { Some(n as u64) } else { None },
        as_i64: Some(n),
        other: None,
    })
}

fn object(members: Vec<(&str, JsonValue)>) -> JsonValue {
    JsonValue::Object(members.into_iter().map(|(k, v)| (k.to_string(), v)).collect())
}

fn array(v: Vec<JsonValue>) -> JsonValue {
    JsonValue::Array(v)
}

fn get<'a>(v: &'a JsonValue, key: &str) -> Option<&'a JsonValue> {
    match v {
        JsonValue::Object(m) => m.iter().find(|(k, _)| k == key).map(|(_, v)| v),
        _ => None,
    }
}

fn keys(v: &JsonValue) -> Vec<String> {
    match v {
        JsonValue::Object(m) => m.iter().map(|(k, _)| k.clone()).collect(),
        _ => Vec::new(),
    }
}

fn number_of(v: Option<&JsonValue>) -> Option<u64> {
    match v {
        Some(JsonValue::Number(n)) => n.as_u64,
        _ => None,
    }
}

fn credit(t: u8, raw: &str) -> Credit {
    Credit {
        credit_type: t,
        raw_text: raw.to_string(),
        biz_id: String::new(),
        sub_type: 0,
        sub_biz_id: String::new(),
    }
}

#[test]
fn archive_view_updates_the_template() {
    let mut t = TemplateConfig::default();
    t.desc = "old".to_string();
    t.dynamic = "old dyn".to_string();
    t.is_360 = 1;
    let res = object(vec![(
        "data",
        object(vec![
            (
                "archive",
                object(vec![
                    ("desc", text("新简介")),
                    ("human_type2", object(vec![("id", num(2042))])),
                    ("state", num(-30)),
                    ("desc_v2", array(vec![])),
                    ("dynamic", text("")),
                    ("mission_id", num(7)),
                    ("topic_id", num(4294967297)),
                    ("topic_name", text("")),
                ]),
            ),
            ("state_desc", text("审核中")),
            ("topic_name", text("话题")),
            ("rights", object(vec![])),
            (
                "staffs",
                array(vec![
                    object(vec![("apply_title", text("剪辑")), ("apply_staff_mid", num(11))]),
                    object(vec![("title", text("配音")), ("mid", num(12))]),
                    object(vec![("title", text("")), ("mid", num(13))]),
                    object(vec![("title", text("无人")), ("mid", num(0))]),
                ]),
            ),
        ]),
    )]);
    assert!(archive_desc_v2(&res).is_some());
    apply_archive_view(&mut t, &res, Some(vec![credit(1, "a"), credit(1, "b")]));
    assert_eq!(t.desc, "新简介");
    assert_eq!(t.tid_v2, 2042);
    assert_eq!(t.state, Some(-30));
    assert_eq!(t.state_desc.as_deref(), Some("审核中"));
    assert_eq!(t.dynamic, "old dyn");
    assert_eq!(t.mission_id, Some(7));
    // ids are cut to 32 bits
    assert_eq!(t.topic_id, Some(1));
    // an empty archive topic name does not fall back to the data's
    assert_eq!(t.topic_name, None);
    assert_eq!(t.is_360, -1);
    let staff = t.staff.unwrap();
    assert_eq!(staff.len(), 2);
    assert_eq!((staff[0].title.as_str(), staff[0].mid, staff[0].is_del), ("剪辑", 11, 0));
    assert_eq!((staff[1].title.as_str(), staff[1].mid), ("配音", 12));
    let d = t.desc_v2.unwrap();
    assert_eq!(d.len(), 1);
    assert_eq!(d[0].raw_text, "ab");
}

#[test]
fn archive_view_without_data_changes_nothing() {
    let mut t = TemplateConfig::default();
    t.title = "keep".to_string();
    apply_archive_view(&mut t, &object(vec![("code", num(0))]), None);
    assert_eq!(t.title, "keep");
    assert_eq!(t.state, None);
    assert_eq!(t.is_360, -1);
}

#[test]
fn archive_view_with_null_data_clears_the_state() {
    let mut t = TemplateConfig::default();
    t.state = Some(1);
    t.state_desc = Some("x".to_string());
    apply_archive_view(&mut t, &object(vec![("data", JsonValue::Null)]), None);
    assert_eq!(t.state, None);
    assert_eq!(t.state_desc, None);
}

#[test]
fn null_structured_description_is_not_parsed() {
    let res = object(vec![("data", object(vec![("desc_v2", JsonValue::Null)]))]);
    assert!(archive_desc_v2(&res).is_none());
    let mut t = TemplateConfig::default();
    apply_archive_view(&mut t, &res, Some(vec![credit(1, "x")]));
    assert!(t.desc_v2.is_none());
}

#[test]
fn mention_reply_is_read() {
    let res = object(vec![
        ("code", num(0)),
        (
            "data",
            object(vec![(
                "groups",
                array(vec![
                    object(vec![
                        ("group_name", text("我的关注")),
                        ("group_type", num(2)),
                        (
                            "items",
                            array(vec![
                                object(vec![
                                    ("uid", text("100")),
                                    ("face", text("http://i0.hdslb.com/bfs/face/a.jpg")),
                                    ("fans", num(5)),
                                    ("name", text("甲")),
                                    ("official_verify_type", num(1)),
                                ]),
                                object(vec![("name", text("乙"))]),
                            ]),
                        ),
                    ]),
                    object(vec![]),
                ]),
            )]),
        ),
    ]);
    let (groups, jobs) = parse_mention_reply(&res).unwrap();
    assert_eq!(groups.len(), 2);
    assert_eq!(groups[0].group_name, "我的关注");
    assert_eq!(groups[0].group_type, 2);
    let a = &groups[0].items[0];
    assert_eq!((a.uid.as_str(), a.face.as_str(), a.fans, a.name.as_str()), ("100", "a.jpg", 5, "甲"));
    assert_eq!(a.official_verify_type, 1);
    let b = &groups[0].items[1];
    assert_eq!((b.uid.as_str(), b.face.as_str(), b.fans), ("0", "0.jpg", 0));
    assert_eq!(b.official_verify_type, -1);
    assert_eq!(groups[1].group_name, "其他");
    assert_eq!(groups[1].group_type, 0);
    assert!(groups[1].items.is_empty());
    assert_eq!(jobs, vec![("https://i0.hdslb.com/bfs/face/a.jpg".to_string(), "a.jpg".to_string())]);
}

#[test]
fn refused_mention_search() {
    match parse_mention_reply(&object(vec![("code", num(-101)), ("message", text("账号未登录"))])) {
        Err(AppError::Biliup(m)) => assert_eq!(m, "账号未登录"),
        other => panic!("unexpected {other:?}"),
    }
    match parse_mention_reply(&object(vec![])) {
        Err(AppError::Biliup(m)) => assert_eq!(m, "搜索用户失败"),
        other => panic!("unexpected {other:?}"),
    }
}

#[test]
fn mention_keyword_is_trimmed() {
    assert_eq!(mention_keyword(Some("  名字 ".to_string())), Some("名字".to_string()));
    assert_eq!(mention_keyword(Some("   ".to_string())), None);
    assert_eq!(mention_keyword(None), None);
}

#[test]
fn season_list_is_shaped() {
    let res = object(vec![(
        "data",
        object(vec![(
            "seasons",
            array(vec![
                object(vec![
                    ("season", object(vec![("id", num(9)), ("title", text("合集"))])),
                    (
                        "sections",
                        object(vec![(
                            "sections",
                            array(vec![
                                object(vec![("id", num(0)), ("title", text("默认"))]),
                                object(vec![("id", num(31))]),
                            ]),
                        )]),
                    ),
                ]),
                object(vec![("season", object(vec![("title", text("空"))]))]),
            ]),
        )]),
    )]);
    let list = parse_season_list(&res);
    assert_eq!(list.len(), 2);
    assert_eq!(list[0].season_id, Some(9));
    assert_eq!(list[0].title, "合集");
    assert_eq!(list[0].sections.len(), 2);
    assert_eq!(list[0].sections[0].section_id, None);
    assert_eq!(list[0].sections[0].title, "默认");
    assert_eq!(list[0].sections[1].section_id, Some(31));
    assert_eq!(list[0].sections[1].title, "合集");
    assert_eq!(list[0].section_id, None);
    assert_eq!(list[1].season_id, None);
    assert!(list[1].sections.is_empty());
    assert_eq!(list[1].section_id, None);
    assert!(parse_season_list(&object(vec![])).is_empty());
}

#[test]
fn video_season_and_reply_code() {
    assert_eq!(video_season_id(&object(vec![("data", object(vec![("id", num(77))]))])), 77);
    assert_eq!(video_season_id(&object(vec![])), 0);
    assert!(reply_code_ok(&object(vec![("code", num(0))])));
    assert!(!reply_code_ok(&object(vec![("code", num(1))])));
    assert!(!reply_code_ok(&object(vec![])));
}

#[test]
fn season_requests() {
    let (url, body) = season_request(1, 2, 3, 4, "标题", true, "tok");
    assert_eq!(url, "https://member.bilibili.com/x2/creative/web/season/section/episodes/add");
    assert_eq!(keys(&body), vec!["episodes", "sectionId", "csrf"]);
    assert_eq!(number_of(get(&body, "sectionId")), Some(4));
    match get(&body, "episodes") {
        Some(JsonValue::Array(eps)) => {
            assert_eq!(eps.len(), 1);
            assert_eq!(keys(&eps[0]), vec!["title", "aid", "cid"]);
            assert_eq!(number_of(get(&eps[0], "aid")), Some(1));
            assert_eq!(number_of(get(&eps[0], "cid")), Some(2));
        }
        other => panic!("unexpected {other:?}"),
    }
    let (url, body) = season_request(1, 2, 0, 4, "标题", false, "tok");
    assert_eq!(url, "https://member.bilibili.com/x2/creative/web/season/switch");
    assert_eq!(keys(&body), vec!["season_id", "section_id", "title", "aid", "cid", "csrf"]);
    assert!(matches!(get(&body, "season_id"), Some(JsonValue::Null)));
    assert_eq!(number_of(get(&body, "section_id")), Some(4));
    assert!(matches!(get(&body, "csrf"), Some(JsonValue::Str(s)) if s == "tok"));
}

fn form(aid: Option<u64>, season: Option<u64>, cid: u64) -> TemplateConfig {
    let mut t = TemplateConfig::default();
    t.aid = aid;
    t.season_id = season;
    t.section_id = Some(5);
    t.title = "合集视频".to_string();
    if cid > 0 {
        t.videos.push(VideoInfo {
            id: String::new(),
            cid,
            title: String::new(),
            filename: String::new(),
            desc: String::new(),
            path: String::new(),
            finished_at: 0,
            encoding_status: 0,
            status_desc: String::new(),
        });
    }
    t
}

#[test]
fn new_video_without_season_is_left_alone() {
    let (s, a) = SeasonSync::start(&form(None, None, 0), &object(vec![("aid", num(9))]));
    assert_eq!(a, SeasonAction::Finish);
    assert!(!s.outcome.attempted);
    assert!(s.outcome.ok);
    let (s, a) = SeasonSync::start(&form(Some(1), None, 0), &JsonValue::Null);
    assert_eq!(a, SeasonAction::LookUpSeason { aid: 1 });
    assert!(s.outcome.attempted);
    let (_, a) = SeasonSync::start(&form(None, Some(3), 0), &JsonValue::Null);
    assert_eq!(a, SeasonAction::Finish);
}

#[test]
fn video_moves_into_its_season() {
    let (s, a) = SeasonSync::start(&form(None, Some(3), 0), &object(vec![("aid", num(9))]));
    assert_eq!(a, SeasonAction::LookUpSeason { aid: 9 });
    assert_eq!(s.outcome.new_season_id, 3);
    let (s, a) = s.after_season_lookup(Ok(0));
    assert_eq!(a, SeasonAction::LookUpCid { aid: 9 });
    let (s, a) = s.after_cid_lookup(Ok(44));
    assert_eq!(
        a,
        SeasonAction::Switch {
            aid: 9,
            cid: 44,
            season_id: 3,
            section_id: 5,
            title: "合集视频".to_string(),
            add: true
        }
    );
    let o = s.after_switch(Ok(()));
    assert!(o.attempted && o.ok);
    assert_eq!(o.old_season_id, 0);
}

#[test]
fn saved_cid_skips_the_lookup_and_same_season_is_done() {
    let (s, _) = SeasonSync::start(&form(Some(1), Some(3), 8), &JsonValue::Null);
    let (_, a) = s.after_season_lookup(Ok(2));
    assert_eq!(
        a,
        SeasonAction::Switch {
            aid: 1,
            cid: 8,
            season_id: 3,
            section_id: 5,
            title: "合集视频".to_string(),
            add: false
        }
    );
    let (s, _) = SeasonSync::start(&form(Some(1), Some(3), 8), &JsonValue::Null);
    let (s, a) = s.after_season_lookup(Ok(3));
    assert_eq!(a, SeasonAction::Finish);
    assert!(s.outcome.ok);
    assert_eq!(s.outcome.old_season_id, 3);
}

#[test]
fn season_failures_are_reported() {
    let (s, _) = SeasonSync::start(&form(Some(1), Some(3), 0), &JsonValue::Null);
    let (f, a) = s.after_season_lookup(Err("网络错误".to_string()));
    assert_eq!(a, SeasonAction::Finish);
    assert!(!f.outcome.ok);
    assert_eq!(f.outcome.message, "查询稿件当前合集失败: 网络错误");
    let (s, _) = SeasonSync::start(&form(Some(1), Some(3), 0), &JsonValue::Null);
    let (s, _) = s.after_season_lookup(Ok(0));
    let (f, a) = s.after_cid_lookup(Ok(0));
    assert_eq!(a, SeasonAction::Finish);
    assert_eq!(f.outcome.message, "加入合集失败：未能获取稿件 cid");
    let (s, _) = SeasonSync::start(&form(Some(1), Some(3), 8), &JsonValue::Null);
    let (s, _) = s.after_season_lookup(Ok(0));
    let o = s.after_switch(Err("拒绝".to_string()));
    assert!(!o.ok);
    assert_eq!(o.message, "设置合集失败: 拒绝");
}

#[test]
fn archive_query_defaults() {
    assert_eq!(archive_query(None, None), ("pubed".to_string(), 1));
    assert_eq!(archive_query(Some("not_pubed".to_string()), Some(3)), ("not_pubed".to_string(), 3));
}

#[test]
fn category_list_is_added_when_the_reply_is_ok() {
    let pre = object(vec![("data", object(vec![("typelist", array(vec![])), ("type_list_v2", num(0))]))]);
    let types = object(vec![("code", num(0)), ("data", object(vec![("type_list", array(vec![num(1)]))]))]);
    let r = archive_pre_with_types(pre, Some(types));
    assert_eq!(keys(&r), vec!["typelist", "type_list_v2"]);
    assert!(matches!(get(&r, "type_list_v2"), Some(JsonValue::Array(a)) if a.len() == 1));
    let pre = object(vec![]);
    let r = archive_pre_with_types(pre, Some(object(vec![("code", num(0))])));
    assert_eq!(keys(&r), vec!["type_list_v2"]);
    assert!(matches!(get(&r, "type_list_v2"), Some(JsonValue::Null)));
    let pre = object(vec![("data", object(vec![("a", num(1))]))]);
    let r = archive_pre_with_types(pre, Some(object(vec![("code", num(5))])));
    assert_eq!(keys(&r), vec!["a"]);
    let r = archive_pre_with_types(object(vec![]), None);
    assert!(matches!(r, JsonValue::Null));
}

#[test]
fn topics_are_taken_from_their_paths() {
    let res = object(vec![("data", object(vec![("topics", array(vec![num(1), num(2)]))]))]);
    assert!(matches!(topic_list(res), JsonValue::Array(a) if a.len() == 2));
    assert!(matches!(topic_list(object(vec![("data", num(1))])), JsonValue::Null));
    let res = object(vec![(
        "data",
        object(vec![("result", object(vec![("topics", array(vec![text("t")]))]))]),
    )]);
    assert!(matches!(topic_search_result(res), JsonValue::Array(a) if a.len() == 1));
    assert!(matches!(topic_search_result(object(vec![])), JsonValue::Null));
}

#[test]
fn submission_outcome_lists_only_deleted_files() {
    let paths = vec![" /v/a.mp4 ".to_string(), "  ".to_string(), "/v/b.mp4".to_string(), "/v/c.mp4".to_string()];
    let targets = files_to_delete(&paths);
    assert_eq!(targets, vec!["/v/a.mp4".to_string(), "/v/b.mp4".to_string(), "/v/c.mp4".to_string()]);
    let deletions = vec![
        (targets[0].clone(), Ok(true)),
        (targets[1].clone(), Ok(false)),
        (targets[2].clone(), Err("busy".to_string())),
    ];
    let (s, _) = SeasonSync::start(&form(None, None, 0), &JsonValue::Null);
    let out = submit_outcome(object(vec![("aid", num(9))]), &deletions, s.outcome);
    assert_eq!(out.deleted_file_paths, vec!["/v/a.mp4".to_string()]);
    assert!(out.season.ok && !out.season.attempted);
}
