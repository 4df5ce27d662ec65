//! Taking over the configuration of the previous release (`config.yaml`):
//! each streamer there becomes a template of the one logged-in user.
use crate::config::{ConfigRoot, Subtitle, TemplateConfig, UserConfig, UserInfo, VideoInfo};
use crate::named_map::NamedMap;
use crate::order::{
    lemma_normal_stamps_id, lemma_normal_template_order_id, lists_exactly, sort_strings,
    sorted_names,
};
use vstd::prelude::*;

verus! {

/// The account of the previous release's configuration.
pub struct LegacyUserAccount {
    pub username: String,
    pub password: String,
}

pub struct LegacyUser {
    pub account: LegacyUserAccount,
}

/// A video part of a previous-release streamer.
pub struct LegacyVideoInfo {
    pub title: String,
    pub filename: String,
    pub desc: String,
}

/// The submission settings of one streamer in the previous release.
pub struct LegacyStreamerConfig {
    pub copyright: u8,
    pub source: String,
    pub tid: u32,
    pub cover: String,
    pub title: String,
    pub desc_format_id: u32,
    pub desc: String,
    pub desc_v2: Option<String>,
    pub dynamic: String,
    pub subtitle: Subtitle,
    pub tag: String,
    pub videos: Vec<LegacyVideoInfo>,
    pub dtime: Option<u32>,
    pub open_subtitle: bool,
    pub interactive: u8,
    pub mission_id: Option<u32>,
    pub dolby: u8,
    pub lossless_music: u8,
    pub no_reprint: u8,
    pub open_elec: u8,
    pub aid: Option<u64>,
    pub up_selection_reply: bool,
    pub up_close_reply: bool,
    pub up_close_danmu: bool,
    pub atomic_int: u32,
    pub changed: Option<bool>,
}

/// The previous release's configuration; streamers are keyed by name.
pub struct LegacyConfig {
    pub user: LegacyUser,
    pub line: Option<String>,
    pub limit: u32,
    pub streamers: NamedMap<LegacyStreamerConfig>,
}

/// Converts the previous release's configuration.
pub struct CompatibilityConverter;

/// `v` is the part `l` carried over: the file name also serves as id, and
/// what the old format did not have is empty or zero.
pub open spec fn video_from_legacy(v: VideoInfo, l: LegacyVideoInfo) -> bool {
    &&& v.title == l.title
    &&& v.id == l.filename
    &&& v.cid == 0
    &&& v.filename == l.filename
    &&& v.desc == l.desc
    &&& v.path@ == Seq::<char>::empty()
    &&& v.finished_at == 0
    &&& v.encoding_status == 0
    &&& v.status_desc@ == Seq::<char>::empty()
}

pub open spec fn flag(b: bool) -> u8 {
    if b {
        1
    } else {
        0
    }
}

/// `t` is the template made from the streamer settings `s`: the shared
/// fields are copied, the reply and danmaku switches become 0/1, and every
/// field the old format lacked takes its neutral value (no 360 video: -1).
pub open spec fn template_from_legacy(t: TemplateConfig, s: LegacyStreamerConfig) -> bool {
    &&& t.copyright == s.copyright
    &&& t.source == s.source
    &&& t.tid == s.tid
    &&& t.tid_v2 == 0
    &&& t.cover == s.cover
    &&& t.title == s.title
    &&& t.desc == s.desc
    &&& t.desc_v2 is None
    &&& t.dynamic == s.dynamic
    &&& t.subtitle == s.subtitle
    &&& t.tag == s.tag
    &&& t.videos@.len() == s.videos@.len()
    &&& forall|i: int|
        0 <= i < t.videos@.len() ==> video_from_legacy(#[trigger] t.videos@[i], s.videos@[i])
    &&& t.dtime == s.dtime
    &&& t.open_subtitle == s.open_subtitle
    &&& t.interactive == s.interactive
    &&& t.mission_id == s.mission_id
    &&& t.topic_id is None
    &&& t.topic_name is None
    &&& t.season_id is None
    &&& t.section_id is None
    &&& t.is_only_self == 0
    &&& t.dolby == s.dolby
    &&& t.lossless_music == s.lossless_music
    &&& t.no_reprint == s.no_reprint
    &&& t.open_elec == s.open_elec
    &&& t.no_disturbance == 0
    &&& t.aid == s.aid
    &&& t.up_selection_reply == flag(s.up_selection_reply)
    &&& t.up_close_reply == flag(s.up_close_reply)
    &&& t.up_close_danmu == flag(s.up_close_danmu)
    &&& t.atomic_int == s.atomic_int
    &&& t.watermark == 0
    &&& t.is_360 == -1
    &&& t.staff is None
    &&& t.state is None
    &&& t.state_desc is None
}

fn flag_of(b: bool) -> (r: u8)
    ensures
        r == flag(b),
{
    if b {
        1
    } else {
        0
    }
}

impl CompatibilityConverter {
    /// The old configuration is taken over only when there is no
    /// `config.json` yet but a `config.yaml` exists.
    pub fn should_convert_old_config(json_exists: bool, yaml_exists: bool) -> (r: bool)
        ensures
            r == (!json_exists && yaml_exists),
    {
        !json_exists && yaml_exists
    }

    /// The video part made from an old one (see `video_from_legacy`).
    pub fn legacy_video(l: &LegacyVideoInfo) -> (v: VideoInfo)
        ensures
            video_from_legacy(v, *l),
    {
        VideoInfo {
            title: l.title.clone(),
            id: l.filename.clone(),
            cid: 0,
            filename: l.filename.clone(),
            desc: l.desc.clone(),
            path: String::new(),
            finished_at: 0,
            encoding_status: 0,
            status_desc: String::new(),
        }
    }

    /// The template made from a streamer's settings (see
    /// `template_from_legacy`).
    pub fn legacy_template(s: &LegacyStreamerConfig) -> (t: TemplateConfig)
        ensures
            template_from_legacy(t, *s),
    {
        let mut videos: Vec<VideoInfo> = Vec::new();
        let mut i: usize = 0;
        while i < s.videos.len()
            invariant
                i <= s.videos@.len(),
                videos@.len() == i,
                forall|j: int|
                    0 <= j < i ==> video_from_legacy(#[trigger] videos@[j], s.videos@[j]),
            decreases s.videos@.len() - i,
        {
            videos.push(Self::legacy_video(&s.videos[i]));
            i = i + 1;
        }
        TemplateConfig {
            copyright: s.copyright,
            source: s.source.clone(),
            tid: s.tid,
            tid_v2: 0,
            cover: s.cover.clone(),
            title: s.title.clone(),
            desc: s.desc.clone(),
            desc_v2: None,
            dynamic: s.dynamic.clone(),
            subtitle: s.subtitle.copy(),
            tag: s.tag.clone(),
            videos,
            dtime: s.dtime,
            open_subtitle: s.open_subtitle,
            interactive: s.interactive,
            mission_id: s.mission_id,
            topic_id: None,
            topic_name: None,
            season_id: None,
            section_id: None,
            dolby: s.dolby,
            lossless_music: s.lossless_music,
            no_reprint: s.no_reprint,
            open_elec: s.open_elec,
            no_disturbance: 0,
            aid: s.aid,
            up_selection_reply: flag_of(s.up_selection_reply),
            up_close_reply: flag_of(s.up_close_reply),
            up_close_danmu: flag_of(s.up_close_danmu),
            atomic_int: s.atomic_int,
            is_only_self: 0,
            watermark: 0,
            is_360: -1,
            staff: None,
            state: None,
            state_desc: None,
        }
    }

    /// The configuration that replaces the old one, for the user whose
    /// saved login was validated (`user`): one template per streamer, under
    /// the streamer's name; the template order lists the names sorted; every
    /// template has update stamp 0; the user's line and limit are kept, with
    /// no proxy; everything else has its default, and the user is the only
    /// one in the user order.
    pub fn convert_legacy_to_user_config(legacy: LegacyConfig, user: UserInfo) -> (r: ConfigRoot)
        ensures
            r.max_curr == 1,
            r.auto_start,
            r.auto_upload,
            r.log_level@ == seq!['i', 'n', 'f', 'o'],
            r.cover_match_path@ == Seq::<char>::empty(),
            r.user_order@ == seq![user.uid],
            r.config@.dom() == set![user.uid],
            r.config@[user.uid].user == user,
            r.config@[user.uid].line == legacy.line,
            r.config@[user.uid].proxy is None,
            r.config@[user.uid].limit == legacy.limit,
            r.config@[user.uid].watermark == 0,
            r.config@[user.uid].auto_edit == 0,
            r.config@[user.uid].templates.contents().dom() == legacy.streamers.contents().dom(),
            forall|k: Seq<char>|
                #[trigger] r.config@[user.uid].templates.contents().contains_key(k)
                    ==> template_from_legacy(
                    r.config@[user.uid].templates.contents()[k],
                    legacy.streamers.contents()[k],
                ),
            sorted_names(r.config@[user.uid].order_names()),
            lists_exactly(r.config@[user.uid].order_names(), legacy.streamers.contents().dom()),
            r.config@[user.uid].template_updated_at.contents() == Map::new(
                |k: Seq<char>| legacy.streamers.contents().contains_key(k),
                |k: Seq<char>| 0u64,
            ),
    {
        let streamers = &legacy.streamers;
        streamers.assert_wf();
        proof {
            streamers.lemma_names();
        }
        let n = streamers.len();
        let ghost names = streamers.names();
        let mut templates: NamedMap<TemplateConfig> = NamedMap::new();
        let mut stamps: NamedMap<u64> = NamedMap::new();
        let mut i: usize = 0;
        while i < n
            invariant
                n == names.len(),
                names == streamers.names(),
                names.no_duplicates(),
                forall|k: Seq<char>|
                    #[trigger] streamers.contents().contains_key(k) <==> names.contains(k),
                i <= n,
                templates.names() == names.subrange(0, i as int),
                templates.contents().dom() == names.subrange(0, i as int).to_set(),
                forall|k: Seq<char>|
                    #[trigger] templates.contents().contains_key(k) ==> template_from_legacy(
                        templates.contents()[k],
                        streamers.contents()[k],
                    ),
                stamps.contents() == Map::new(
                    |k: Seq<char>| names.subrange(0, i as int).contains(k),
                    |k: Seq<char>| 0u64,
                ),
            decreases n - i,
        {
            let (name, s) = streamers.entry_at(i);
            let ghost pre = names.subrange(0, i as int);
            assert(names.subrange(0, i + 1) =~= pre.push(name@));
            assert(!pre.contains(name@)) by {
                if pre.contains(name@) {
                    let j = choose|j: int| 0 <= j < pre.len() && pre[j] == name@;
                    assert(names[j] == names[i as int]);
                }
            }
            assert(!templates.contents().contains_key(name@)) by {
                assert(!pre.to_set().contains(name@));
            }
            let t = Self::legacy_template(s);
            templates.insert(name.clone(), t);
            stamps.insert(name.clone(), 0);
            proof {
                pre.lemma_push_to_set_commute(name@);
            }
            assert(stamps.contents() =~= Map::new(
                |k: Seq<char>| names.subrange(0, i + 1).contains(k),
                |k: Seq<char>| 0u64,
            )) by {
                assert forall|k: Seq<char>| names.subrange(0, i + 1).contains(k) <==> (pre.contains(k) || k == name@) by {
                    assert(names.subrange(0, i + 1).to_set().contains(k) == pre.to_set().insert(name@).contains(k));
                }
            }
            i = i + 1;
        }
        assert(names.subrange(0, n as int) =~= names);
        let listed = templates.name_list();
        templates.assert_wf();
        proof {
            templates.lemma_names();
        }
        let order = sort_strings(&listed);
        assert(names.to_set() =~= streamers.contents().dom());
        let ghost dom = streamers.contents().dom();
        assert(stamps.contents() =~= Map::new(
            |k: Seq<char>| streamers.contents().contains_key(k),
            |k: Seq<char>| 0u64,
        ));
        let uid = user.uid;
        let config = UserConfig {
            user,
            line: legacy.line,
            proxy: None,
            limit: legacy.limit,
            watermark: 0,
            auto_edit: 0,
            templates,
            template_order: order,
            template_updated_at: stamps,
        };
        proof {
            lemma_normal_template_order_id(config.order_names(), config.templates.names());
            lemma_normal_stamps_id(
                config.template_updated_at.contents(),
                config.templates.contents().dom(),
            );
        }
        let mut root = ConfigRoot::default();
        root.add_user_config(config);
        root.user_order = vec![uid];
        assert(root.config@.dom() =~= set![uid]);
        root
    }
}

} // verus!
