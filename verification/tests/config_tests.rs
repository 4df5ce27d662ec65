use biliup_app::config::{
    current_timestamp, default_log_level, ConfigError, ConfigRoot, LoginCookie, TemplateConfig, UserConfig, UserInfo,
};
use biliup_app::named_map::NamedMap;

fn cookie() -> LoginCookie {
    LoginCookie { json: "{}".to_string() }
}

fn template(title: &str) -> TemplateConfig {
    let mut t = TemplateConfig::default();
    t.title = title.to_string();
    t
}

fn root_with_user(uid: u64) -> ConfigRoot {
    let mut root = ConfigRoot::default();
    root.new_user_config(uid, "tester".to_string(), cookie(), None);
    root
}

fn order(root: &ConfigRoot, uid: u64) -> Vec<String> {
    root.get_user_template_order(uid).to_vec()
}

#[test]
fn default_configuration() {
    let root = ConfigRoot::default();
    assert_eq!(root.max_curr, 1);
    assert!(root.auto_start);
    assert!(root.auto_upload);
    assert_eq!(root.log_level, "info");
    assert_eq!(default_log_level(), "info");
    assert!(root.user_order.is_empty());
    assert!(root.config.is_empty());
}

#[test]
fn default_template_is_self_made() {
    let t = TemplateConfig::default();
    assert_eq!(t.copyright, 1);
    assert_eq!(t.is_360, -1);
    assert!(t.videos.is_empty());
    assert!(t.desc_v2.is_none());
}

#[test]
fn new_user_is_listed_once() {
    let mut root = root_with_user(7);
    root.new_user_config(7, "again".to_string(), cookie(), Some("proxy".to_string()));
    assert_eq!(root.user_order, vec![7]);
    assert_eq!(root.config[&7].user.name, "again");
    assert_eq!(root.config[&7].proxy.as_deref(), Some("proxy"));
}

#[test]
fn stored_template_is_read_back() {
    let mut root = root_with_user(1);
    let r = root.add_user_template(1, "游戏", template("标题"), 42);
    assert_eq!(r.title, "标题");
    let user = &root.config[&1];
    assert_eq!(user.templates.get("游戏").unwrap().title, "标题");
    assert_eq!(*user.template_updated_at.get("游戏").unwrap(), 42);
    assert_eq!(order(&root, 1), vec!["游戏".to_string()]);
}

#[test]
fn storing_again_keeps_the_order() {
    let mut root = root_with_user(1);
    root.add_user_template(1, "a", template("1"), 1);
    root.add_user_template(1, "b", template("2"), 2);
    root.add_user_template(1, "a", template("3"), 3);
    assert_eq!(order(&root, 1), vec!["a".to_string(), "b".to_string()]);
    assert_eq!(root.config[&1].templates.get("a").unwrap().title, "3");
    assert_eq!(*root.config[&1].template_updated_at.get("a").unwrap(), 3);
}

#[test]
fn template_for_unknown_user_is_returned_unchanged() {
    let mut root = root_with_user(1);
    let r = root.add_user_template(2, "x", template("t"), 5);
    assert_eq!(r.title, "t");
    assert!(!root.config.contains_key(&2));
}

#[test]
fn store_then_delete_restores() {
    let mut root = root_with_user(1);
    root.add_user_template(1, "keep", template("k"), 1);
    let before = order(&root, 1);
    root.add_user_template(1, "tmp", template("t"), 2);
    let removed = root.delete_user_template(1, "tmp");
    assert_eq!(removed.unwrap().title, "t");
    assert_eq!(order(&root, 1), before);
    assert!(root.config[&1].templates.get("tmp").is_none());
    assert!(root.config[&1].template_updated_at.get("tmp").is_none());
}

#[test]
fn deleting_unknown_template_gives_nothing() {
    let mut root = root_with_user(1);
    assert!(root.delete_user_template(1, "none").is_none());
    assert!(root.delete_user_template(9, "none").is_none());
}

#[test]
fn rename_moves_template_stamp_and_place() {
    let mut root = root_with_user(1);
    root.add_user_template(1, "a", template("A"), 10);
    root.add_user_template(1, "b", template("B"), 20);
    assert!(root.rename_user_template(1, "a", "c").is_ok());
    assert_eq!(order(&root, 1), vec!["c".to_string(), "b".to_string()]);
    assert_eq!(root.config[&1].templates.get("c").unwrap().title, "A");
    assert_eq!(*root.config[&1].template_updated_at.get("c").unwrap(), 10);
    assert!(root.config[&1].templates.get("a").is_none());
}

#[test]
fn rename_there_and_back_restores() {
    let mut root = root_with_user(1);
    root.add_user_template(1, "a", template("A"), 10);
    root.add_user_template(1, "b", template("B"), 20);
    let before = order(&root, 1);
    assert!(root.rename_user_template(1, "a", "z").is_ok());
    assert!(root.rename_user_template(1, "z", "a").is_ok());
    assert_eq!(order(&root, 1), before);
    assert_eq!(*root.config[&1].template_updated_at.get("a").unwrap(), 10);
}

#[test]
fn rename_errors() {
    let mut root = root_with_user(1);
    root.add_user_template(1, "a", template("A"), 1);
    root.add_user_template(1, "b", template("B"), 1);
    assert!(matches!(root.rename_user_template(2, "a", "c"), Err(ConfigError::UserNotFound)));
    assert!(matches!(root.rename_user_template(1, "x", "c"), Err(ConfigError::TemplateNotFound)));
    assert!(matches!(root.rename_user_template(1, "a", "b"), Err(ConfigError::TemplateExists)));
    assert!(matches!(root.rename_user_template(1, "a", "a"), Err(ConfigError::TemplateExists)));
    assert_eq!(ConfigError::UserNotFound.message(), "用户配置不存在");
    assert_eq!(ConfigError::TemplateNotFound.message(), "原模板不存在");
    assert_eq!(ConfigError::TemplateExists.message(), "该名称的模板已存在");
}

#[test]
fn saved_template_order_is_normalized() {
    let mut root = root_with_user(1);
    root.add_user_template(1, "a", template("A"), 1);
    root.add_user_template(1, "b", template("B"), 1);
    root.add_user_template(1, "c", template("C"), 1);
    let wanted = vec!["c".to_string(), "x".to_string(), "c".to_string(), "a".to_string()];
    assert!(root.save_template_order(1, wanted).is_ok());
    assert_eq!(order(&root, 1), vec!["c".to_string(), "a".to_string(), "b".to_string()]);
    assert!(matches!(root.save_template_order(5, Vec::new()), Err(ConfigError::UserNotFound)));
    assert!(root.get_user_template_order(5).is_empty());
}

#[test]
fn user_settings_are_saved() {
    let mut root = root_with_user(1);
    assert!(root.save_user_config(1, Some("bda2".to_string()), None, 3, 1, 1).is_ok());
    let u = &root.config[&1];
    assert_eq!(u.line.as_deref(), Some("bda2"));
    assert_eq!(u.limit, 3);
    assert_eq!(u.watermark, 1);
    assert_eq!(u.auto_edit, 1);
    assert!(matches!(
        root.save_user_config(2, None, None, 0, 0, 0),
        Err(ConfigError::UserNotFound)
    ));
}

#[test]
fn global_settings_are_saved() {
    let mut root = ConfigRoot::default();
    root.save_global_config(4, false, false, "debug".to_string(), "/covers".to_string());
    assert_eq!(root.max_curr, 4);
    assert!(!root.auto_start);
    assert!(!root.auto_upload);
    assert_eq!(root.log_level, "debug");
    assert_eq!(root.cover_match_path, "/covers");
}

#[test]
fn user_order_lists_each_user_once() {
    let mut root = root_with_user(5);
    root.new_user_config(3, "b".to_string(), cookie(), None);
    root.new_user_config(9, "c".to_string(), cookie(), None);
    assert!(root.save_user_order(vec![9, 42, 9]).is_ok());
    // known users first in the given order, the others in increasing order
    assert_eq!(root.user_order, vec![9, 3, 5]);
}

#[test]
fn removed_user_leaves_the_order() {
    let mut root = root_with_user(5);
    root.new_user_config(3, "b".to_string(), cookie(), None);
    assert!(root.remove_user_config(5).is_ok());
    assert_eq!(root.user_order, vec![3]);
    assert!(!root.config.contains_key(&5));
    assert!(matches!(root.remove_user_config(5), Err(ConfigError::UserNotFound)));
}

#[test]
fn added_user_config_is_normalized() {
    let mut templates = NamedMap::new();
    templates.insert("b".to_string(), template("B"));
    templates.insert("a".to_string(), template("A"));
    let mut stamps = NamedMap::new();
    stamps.insert("gone".to_string(), 9);
    stamps.insert("a".to_string(), 4);
    let config = UserConfig {
        user: UserInfo { uid: 8, name: "n".to_string(), cookie: cookie() },
        line: None,
        proxy: None,
        limit: 0,
        watermark: 0,
        auto_edit: 0,
        templates,
        template_order: vec!["a".to_string(), "zz".to_string(), "a".to_string()],
        template_updated_at: stamps,
    };
    let mut root = ConfigRoot::default();
    root.add_user_config(config);
    let u = &root.config[&8];
    assert_eq!(u.template_order, vec!["a".to_string(), "b".to_string()]);
    assert_eq!(*u.template_updated_at.get("a").unwrap(), 4);
    assert_eq!(*u.template_updated_at.get("b").unwrap(), 0);
    assert!(u.template_updated_at.get("gone").is_none());
    assert_eq!(root.user_order, vec![8]);
}

#[test]
fn normalizing_twice_changes_nothing() {
    let mut root = root_with_user(1);
    root.add_user_template(1, "a", template("A"), 1);
    root.normalize_template_metadata();
    let once = order(&root, 1);
    root.normalize_template_metadata();
    assert_eq!(order(&root, 1), once);
}

#[test]
fn named_map_keeps_names_distinct() {
    let mut m: NamedMap<u64> = NamedMap::new();
    assert_eq!(m.insert("x".to_string(), 1), None);
    assert_eq!(m.insert("y".to_string(), 2), None);
    assert_eq!(m.insert("x".to_string(), 3), Some(1));
    assert_eq!(m.len(), 2);
    assert_eq!(m.name_list(), vec!["x".to_string(), "y".to_string()]);
    assert_eq!(m.remove("x"), Some(3));
    assert!(!m.contains_key("x"));
    assert_eq!(m.len(), 1);
}

#[test]
fn stored_template_is_stamped_with_the_clock_reading() {
    let mut root = root_with_user(1);
    root.add_user_template(1, "now", template("t"), current_timestamp(1_700_000_123));
    let stamp = *root.config[&1].template_updated_at.get("now").unwrap();
    assert_eq!(stamp, 1_700_000_123);
}

#[test]
fn clock_readings_before_the_epoch_stamp_zero() {
    assert_eq!(current_timestamp(-5), 0);
    assert_eq!(current_timestamp(0), 0);
    assert_eq!(current_timestamp(i64::MAX), i64::MAX as u64);
}
