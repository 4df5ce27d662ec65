use biliup_app::chunk::ChunkedBuffer;
use biliup_app::compat::{
    CompatibilityConverter, LegacyConfig, LegacyStreamerConfig, LegacyUser, LegacyUserAccount,
    LegacyVideoInfo,
};
use biliup_app::config::{ConfigRoot, LoginCookie, Subtitle, UserInfo, VideoInfo};
use biliup_app::error::AppError;
use biliup_app::ffmpeg::{configured_ffmpeg, duration_fields, frame_failure, unix_ffmpeg_locations};
use biliup_app::named_map::NamedMap;
use biliup_app::queue::UploadQueue;
use biliup_app::service::UploadService;
use biliup_app::upload::{
    finish_upload, piece_len, probe_for_line, select_line, start_task, tasks_to_start,
    upload_settings, LineProbe, PauseStep, TaskStatus, UploadRun,
};
use biliup_app::version::is_newer_version;

#[test]
fn first_attempt_uses_the_configured_line() {
    assert_eq!(select_line(Some("txa"), 0), "txa");
    assert_eq!(select_line(Some("txa"), 1), "bda2");
    assert_eq!(select_line(Some("txa"), 9), "bda2");
    assert_eq!(select_line(None, 0), "auto");
    assert_eq!(select_line(None, 7), "atbd");
    assert_eq!(select_line(None, 10), "bldsa");
}

#[test]
fn lines_are_reached_by_their_probe() {
    assert_eq!(probe_for_line("bda2"), LineProbe::Bda2);
    assert_eq!(probe_for_line("bda"), LineProbe::Bda2);
    assert_eq!(probe_for_line("bldsa"), LineProbe::Bldsa);
    assert_eq!(probe_for_line("tx"), LineProbe::Tx);
    assert_eq!(probe_for_line("txa"), LineProbe::Txa);
    assert_eq!(probe_for_line("alia"), LineProbe::Alia);
    assert_eq!(probe_for_line("auto"), LineProbe::Probe);
    assert_eq!(probe_for_line("cnbd"), LineProbe::Probe);
}

#[test]
fn pieces_are_at_most_one_mebibyte() {
    assert_eq!(piece_len(0), 0);
    assert_eq!(piece_len(10), 10);
    assert_eq!(piece_len(1048575), 1048575);
    assert_eq!(piece_len(1048576), 1048576);
    assert_eq!(piece_len(5_000_000), 1048576);
}

#[test]
fn pieces_cover_a_chunk() {
    let mut left = 3 * 1048576 + 5;
    let mut count = 0;
    loop {
        let n = piece_len(left);
        if n == 0 {
            break;
        }
        left -= n;
        count += 1;
    }
    assert_eq!(count, 4);
}

#[test]
fn waiting_tasks_start_within_the_limit() {
    let pending = vec![true, false, true, true, true];
    let running = vec![false, false, true, false, false];
    assert_eq!(tasks_to_start(&pending, &running, 1, 3), vec![0, 3]);
    assert_eq!(tasks_to_start(&pending, &running, 0, 10), vec![0, 3, 4]);
    assert!(tasks_to_start(&pending, &running, 3, 3).is_empty());
    assert!(tasks_to_start(&pending, &running, 5, 3).is_empty());
}

#[test]
fn start_requests() {
    for (from, queued, to) in [
        (TaskStatus::Paused, true, TaskStatus::Pending),
        (TaskStatus::Failed, true, TaskStatus::Pending),
        (TaskStatus::Waiting, true, TaskStatus::Pending),
        (TaskStatus::Running, false, TaskStatus::Running),
        (TaskStatus::Completed, false, TaskStatus::Completed),
        (TaskStatus::Pending, false, TaskStatus::Pending),
        (TaskStatus::Cancelled, false, TaskStatus::Cancelled),
    ] {
        let mut s = from;
        assert_eq!(start_task(&mut s), queued);
        assert_eq!(s, to);
    }
}

#[test]
fn queue_keeps_creation_order_and_refuses_repeats() {
    let mut q = UploadQueue::new();
    assert!(q.create_task("a".to_string(), 1));
    assert!(q.create_task("b".to_string(), 2));
    assert!(!q.create_task("a".to_string(), 3));
    assert_eq!(q.len(), 2);
    assert_eq!(q.task("a").unwrap(), 1);
    assert_eq!(q.list(), vec![("a".to_string(), 1), ("b".to_string(), 2)]);
}

#[test]
fn removed_task_is_gone_and_unknown_ids_fail() {
    let mut q = UploadQueue::new();
    q.create_task("a".to_string(), 1);
    q.create_task("b".to_string(), 2);
    q.create_task("c".to_string(), 3);
    assert_eq!(q.remove_task("b").unwrap(), 2);
    assert_eq!(q.list(), vec![("a".to_string(), 1), ("c".to_string(), 3)]);
    match q.task("b") {
        Err(AppError::Internal(m)) => assert_eq!(m, "任务ID不存在: b"),
        other => panic!("unexpected {other:?}"),
    }
    assert!(matches!(q.remove_task("zz"), Err(AppError::Internal(_))));
}

#[test]
fn version_comparison() {
    assert!(is_newer_version("1.2.10", "1.2.9").unwrap());
    assert!(!is_newer_version("1.2.9", "1.2.10").unwrap());
    assert!(!is_newer_version("1.2.0", "1.2.0").unwrap());
    assert!(is_newer_version("1.2.0.1", "1.2.0").unwrap());
    assert!(!is_newer_version("1.2", "1.2.0").unwrap());
    assert!(is_newer_version("+2.0", "1.9").unwrap());
}

#[test]
fn version_order_is_strict() {
    let vs = ["0.9", "1.0", "1.0.1", "1.1", "10.0"];
    for a in vs {
        assert!(!is_newer_version(a, a).unwrap());
        for b in vs {
            let ab = is_newer_version(a, b).unwrap();
            let ba = is_newer_version(b, a).unwrap();
            assert!(!(ab && ba));
        }
    }
}

#[test]
fn malformed_versions_are_errors() {
    for (l, c) in [("1.x", "1.0"), ("1.0", ""), ("1..2", "1.0"), ("-1", "1"), ("4294967296", "1"), ("1.+", "1")] {
        match is_newer_version(l, c) {
            Err(AppError::Internal(m)) => assert_eq!(m, "版本号格式错误"),
            other => panic!("unexpected {other:?} for {l} {c}"),
        }
    }
    assert!(is_newer_version("4294967295", "1").unwrap());
}

#[test]
fn old_configuration_is_converted_only_without_new_one() {
    assert!(CompatibilityConverter::should_convert_old_config(false, true));
    assert!(!CompatibilityConverter::should_convert_old_config(true, true));
    assert!(!CompatibilityConverter::should_convert_old_config(false, false));
    assert!(!CompatibilityConverter::should_convert_old_config(true, false));
}

fn streamer(title: &str) -> LegacyStreamerConfig {
    LegacyStreamerConfig {
        copyright: 2,
        source: "src".to_string(),
        tid: 171,
        cover: String::new(),
        title: title.to_string(),
        desc_format_id: 0,
        desc: "d".to_string(),
        desc_v2: Some("ignored".to_string()),
        dynamic: String::new(),
        subtitle: Subtitle { open: 1, lan: "zh".to_string() },
        tag: "a,b".to_string(),
        videos: vec![LegacyVideoInfo {
            title: "P1".to_string(),
            filename: "n1".to_string(),
            desc: String::new(),
        }],
        dtime: None,
        open_subtitle: true,
        interactive: 0,
        mission_id: Some(3),
        dolby: 1,
        lossless_music: 0,
        no_reprint: 1,
        open_elec: 0,
        aid: None,
        up_selection_reply: true,
        up_close_reply: false,
        up_close_danmu: true,
        atomic_int: 0,
        changed: None,
    }
}

#[test]
fn old_configuration_becomes_templates() {
    let mut streamers = NamedMap::new();
    streamers.insert("乙主播".to_string(), streamer("二"));
    streamers.insert("Alpha".to_string(), streamer("一"));
    streamers.insert("beta".to_string(), streamer("三"));
    let legacy = LegacyConfig {
        user: LegacyUser {
            account: LegacyUserAccount { username: "u".to_string(), password: "p".to_string() },
        },
        line: Some("bda2".to_string()),
        limit: 3,
        streamers,
    };
    let user = UserInfo { uid: 99, name: "名".to_string(), cookie: LoginCookie { json: "{}".to_string() } };
    let root = CompatibilityConverter::convert_legacy_to_user_config(legacy, user);
    assert_eq!(root.user_order, vec![99]);
    let c = &root.config[&99];
    assert_eq!(c.template_order, vec!["Alpha".to_string(), "beta".to_string(), "乙主播".to_string()]);
    assert_eq!(c.line.as_deref(), Some("bda2"));
    assert_eq!(c.limit, 3);
    assert!(c.proxy.is_none());
    let t = c.templates.get("Alpha").unwrap();
    assert_eq!(t.title, "一");
    assert_eq!((t.copyright, t.tid, t.up_selection_reply, t.up_close_reply, t.up_close_danmu), (2, 171, 1, 0, 1));
    assert_eq!(t.is_360, -1);
    assert!(t.desc_v2.is_none());
    assert_eq!(t.videos.len(), 1);
    assert_eq!((t.videos[0].id.as_str(), t.videos[0].filename.as_str(), t.videos[0].cid), ("n1", "n1", 0));
    assert_eq!(*c.template_updated_at.get("beta").unwrap(), 0);
    assert_eq!(root.max_curr, 1);
}

#[test]
fn ffmpeg_duration_fields() {
    let out = "Input #0\n  Duration: 00:01:02.50, start: 0.000000, bitrate: 1 kb/s\n";
    assert_eq!(
        duration_fields(out),
        Some(("00".to_string(), "01".to_string(), "02.50".to_string()))
    );
    assert_eq!(duration_fields("Duration: N/A, start"), None);
    assert_eq!(duration_fields("Duration: n/a"), None);
    assert_eq!(duration_fields("Duration: , x"), None);
    assert_eq!(duration_fields("Duration: 1:2, x"), None);
    assert_eq!(duration_fields("no marker"), None);
    assert_eq!(
        duration_fields("Duration:  1 : 2 : 3 "),
        Some(("1".to_string(), "2".to_string(), "3".to_string()))
    );
}

#[test]
fn frame_failure_quotes_the_last_line() {
    match frame_failure(false, "a\nlast line\n") {
        AppError::Custom(m) => assert_eq!(m, "截取视频画面失败: last line"),
        other => panic!("unexpected {other:?}"),
    }
    match frame_failure(true, "") {
        AppError::Custom(m) => assert_eq!(m, "sseof 截帧无输出: 未知错误"),
        other => panic!("unexpected {other:?}"),
    }
}

#[test]
fn ffmpeg_lookup_order() {
    assert_eq!(configured_ffmpeg("  /opt/ffmpeg "), Some("/opt/ffmpeg".to_string()));
    assert_eq!(configured_ffmpeg("  "), None);
    assert_eq!(unix_ffmpeg_locations()[0], "/usr/bin/ffmpeg");
    assert_eq!(unix_ffmpeg_locations().len(), 4);
}

#[test]
fn queue_create_then_remove_restores() {
    let mut q = UploadQueue::new();
    q.create_task("a".to_string(), 1);
    let before = q.list();
    q.create_task("b".to_string(), 2);
    assert_eq!(q.remove_task("b").unwrap(), 2);
    assert_eq!(q.list(), before);
}

#[test]
fn chunk_pieces_join_up_to_the_chunk() {
    let data: Vec<u8> = (0..(2 * 1048576 + 300)).map(|i| (i % 251) as u8).collect();
    let mut buf = ChunkedBuffer::new(bytes::Bytes::from(data.clone()));
    assert_eq!(buf.remaining(), data.len());
    let mut sizes = Vec::new();
    let mut joined: Vec<u8> = Vec::new();
    loop {
        let n = buf.next_len();
        match buf.take_piece() {
            Some(p) => {
                assert_eq!(p.len(), n);
                sizes.push(p.len());
                joined.extend_from_slice(&p);
            }
            None => {
                assert_eq!(n, 0);
                break;
            }
        }
    }
    assert_eq!(sizes, vec![1048576, 1048576, 300]);
    assert_eq!(joined, data);
    assert_eq!(buf.remaining(), 0);
    assert!(buf.take_piece().is_none());
}

#[test]
fn empty_and_small_chunks() {
    let mut empty = ChunkedBuffer::new(bytes::Bytes::new());
    assert_eq!(empty.next_len(), 0);
    assert!(empty.take_piece().is_none());
    let mut small = ChunkedBuffer::new(bytes::Bytes::from(vec![1u8, 2, 3]));
    assert_eq!(small.next_len(), 3);
    assert_eq!(small.take_piece().unwrap().as_ref(), &[1u8, 2, 3]);
    assert!(small.take_piece().is_none());
}

#[test]
fn paused_upload_waits_then_resumes_or_stops() {
    let mut run = UploadRun::new();
    let mut st = TaskStatus::Running;
    assert!(matches!(run.check(&mut st), PauseStep::Go));
    st = TaskStatus::Paused;
    assert!(matches!(run.check(&mut st), PauseStep::Wait));
    assert!(matches!(run.check(&mut st), PauseStep::Wait));
    st = TaskStatus::Pending;
    assert!(matches!(run.check(&mut st), PauseStep::Resume));
    assert_eq!(st, TaskStatus::Running);
    assert!(matches!(run.check(&mut st), PauseStep::Go));
    st = TaskStatus::Paused;
    assert!(matches!(run.check(&mut st), PauseStep::Wait));
    st = TaskStatus::Cancelled;
    assert!(matches!(run.check(&mut st), PauseStep::Stop));
    assert_eq!(st, TaskStatus::Cancelled);
}

fn video() -> VideoInfo {
    VideoInfo {
        id: "v".to_string(),
        cid: 7,
        title: "P1".to_string(),
        filename: String::new(),
        desc: String::new(),
        path: "/tmp/a.mp4".to_string(),
        finished_at: 0,
        encoding_status: 0,
        status_desc: String::new(),
    }
}

#[test]
fn finished_upload_keeps_the_file_name() {
    let mut v = video();
    let mut st = TaskStatus::Running;
    assert!(finish_upload(&mut v, &mut st, Ok("n123".to_string())).is_ok());
    assert_eq!(v.filename, "n123");
    assert_eq!(v.path, "");
    assert_eq!(v.title, "P1");
    assert_eq!(st, TaskStatus::Completed);
    let mut v = video();
    let mut st = TaskStatus::Running;
    match finish_upload(&mut v, &mut st, Err("超时".to_string())) {
        Err(AppError::Custom(m)) => assert_eq!(m, "上传任务失败: 超时"),
        other => panic!("unexpected {other:?}"),
    }
    assert_eq!(v.path, "/tmp/a.mp4");
    assert_eq!(st, TaskStatus::Running);
}

#[test]
fn upload_needs_a_logged_in_user() {
    let mut root = ConfigRoot::default();
    match upload_settings(&root, 5) {
        Err(AppError::Custom(m)) => assert_eq!(m, "用户未登录或不存在"),
        other => panic!("unexpected {other:?}"),
    }
    root.new_user_config(5, "u".to_string(), LoginCookie { json: "{}".to_string() }, None);
    root.save_user_config(5, Some("txa".to_string()), None, 4, 0, 0).unwrap();
    let (line, proxy, limit) = upload_settings(&root, 5).unwrap();
    assert_eq!(line, Some("txa".to_string()));
    assert_eq!(proxy, None);
    assert_eq!(limit, 4);
}

#[test]
fn service_starts_pending_tasks_within_the_limit() {
    let mut s = UploadService::new(1);
    assert!(s.create_task("a", "A"));
    assert!(s.create_task("b", "B"));
    assert!(!s.create_task("a", "again"));
    // nothing waits for a slot yet
    assert!(s.tick().is_empty());
    assert_eq!(s.start_upload("a").unwrap(), true);
    assert_eq!(s.start_upload("b").unwrap(), true);
    assert_eq!(s.tick(), vec!["a".to_string()]);
    // the one slot is taken
    assert!(s.tick().is_empty());
    let snap = s.queue_snapshot();
    assert_eq!(snap[0], ("a".to_string(), "A".to_string(), TaskStatus::Running));
    assert_eq!(snap[1], ("b".to_string(), "B".to_string(), TaskStatus::Pending));
    // a running task is not started again
    assert_eq!(s.start_upload("a").unwrap(), false);
    s.set_max_concurrent(2);
    assert_eq!(s.tick(), vec!["b".to_string()]);
}

#[test]
fn service_pause_cancel_and_retry() {
    let mut s = UploadService::new(2);
    s.create_task("a", "A");
    s.create_task("b", "B");
    s.start_upload("a").unwrap();
    assert_eq!(s.tick(), vec!["a".to_string()]);
    assert!(s.pause_upload("a").unwrap());
    assert_eq!(s.queue_snapshot()[0].2, TaskStatus::Paused);
    assert!(s.cancel_upload("a").unwrap());
    let snap = s.queue_snapshot();
    assert_eq!(snap.len(), 1);
    assert_eq!(snap[0].0, "b");
    match s.pause_upload("a") {
        Err(AppError::Internal(m)) => assert_eq!(m, "任务ID不存在: a"),
        other => panic!("unexpected {other:?}"),
    }
    assert!(s.retry_upload("b").unwrap());
    assert_eq!(s.queue_snapshot()[0].2, TaskStatus::Pending);
    assert_eq!(s.tick(), vec!["b".to_string()]);
    assert!(s.retry_upload("b").unwrap());
    // retrying let go of the slot, so the task starts again
    assert_eq!(s.tick(), vec!["b".to_string()]);
}
