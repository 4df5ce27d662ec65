//! The persisted configuration: users, their upload templates, the order in
//! which templates and users are listed, and global settings.
use crate::named_map::NamedMap;
use crate::order::{
    absent_from, is_normal_user_order, lemma_filter_push, lemma_normal_template_order,
    lemma_retain_first, lists_exactly, normal_stamps, normal_template_order, retain_first,
    sorted_strict,
};
use std::collections::HashMap;
use vstd::std_specs::iter::IteratorSpec;
use vstd::prelude::*;

verus! {

broadcast use vstd::std_specs::hash::group_hash_axioms;

/// Subtitle settings of a template.
#[derive(Debug)]
pub struct Subtitle {
    pub open: u8,
    pub lan: String,
}

/// One token of the structured description (`desc_v2`): plain text, or a
/// mention. `credit_type` is the token's `type` (1 is plain text).
#[derive(Debug)]
pub struct Credit {
    pub credit_type: u8,
    pub raw_text: String,
    pub biz_id: String,
    pub sub_type: u8,
    pub sub_biz_id: String,
}

/// A description token by its plain values.
pub struct CreditView {
    pub credit_type: u8,
    pub raw_text: Seq<char>,
    pub biz_id: Seq<char>,
    pub sub_type: u8,
    pub sub_biz_id: Seq<char>,
}

impl View for Credit {
    type V = CreditView;

    open spec fn view(&self) -> CreditView {
        CreditView {
            credit_type: self.credit_type,
            raw_text: self.raw_text@,
            biz_id: self.biz_id@,
            sub_type: self.sub_type,
            sub_biz_id: self.sub_biz_id@,
        }
    }
}

/// A co-creator of a video.
#[derive(Debug)]
pub struct Staff {
    pub title: String,
    pub mid: u64,
    pub is_del: u8,
}

/// One uploaded (or to be uploaded) part of a submission.
#[derive(Debug)]
pub struct VideoInfo {
    pub id: String,
    pub cid: u64,
    pub title: String,
    pub filename: String,
    pub desc: String,
    pub path: String,
    pub finished_at: u64,
    pub encoding_status: i64,
    pub status_desc: String,
}

/// A submission template.
#[derive(Debug)]
pub struct TemplateConfig {
    pub copyright: u8,
    pub source: String,
    pub tid: u32,
    pub tid_v2: u32,
    pub cover: String,
    pub title: String,
    pub desc: String,
    pub desc_v2: Option<Vec<Credit>>,
    pub dynamic: String,
    pub subtitle: Subtitle,
    pub tag: String,
    pub videos: Vec<VideoInfo>,
    pub dtime: Option<u32>,
    pub open_subtitle: bool,
    pub interactive: u8,
    pub mission_id: Option<u32>,
    pub topic_id: Option<u32>,
    pub topic_name: Option<String>,
    pub season_id: Option<u64>,
    pub section_id: Option<u64>,
    pub dolby: u8,
    pub lossless_music: u8,
    pub no_reprint: u8,
    pub open_elec: u8,
    pub no_disturbance: u8,
    pub aid: Option<u64>,
    pub up_selection_reply: u8,
    pub up_close_reply: u8,
    pub up_close_danmu: u8,
    pub atomic_int: u32,
    pub is_only_self: u8,
    pub watermark: u8,
    pub is_360: i64,
    pub staff: Option<Vec<Staff>>,
    pub state: Option<i64>,
    pub state_desc: Option<String>,
}

/// The login credentials of a user, kept as the JSON text they are stored as.
#[derive(Debug)]
pub struct LoginCookie {
    pub json: String,
}

#[derive(Debug)]
pub struct UserInfo {
    pub uid: u64,
    pub name: String,
    pub cookie: LoginCookie,
}

/// Settings and templates of one user.
pub struct UserConfig {
    pub user: UserInfo,
    pub line: Option<String>,
    pub proxy: Option<String>,
    pub limit: u32,
    pub watermark: u8,
    pub auto_edit: u8,
    pub templates: NamedMap<TemplateConfig>,
    pub template_order: Vec<String>,
    pub template_updated_at: NamedMap<u64>,
}

/// The whole configuration file.
pub struct ConfigRoot {
    pub max_curr: u32,
    pub auto_upload: bool,
    pub auto_start: bool,
    pub log_level: String,
    pub cover_match_path: String,
    pub user_order: Vec<u64>,
    pub config: HashMap<u64, UserConfig>,
}

/// Why a configuration change was refused.
#[derive(Debug)]
pub enum ConfigError {
    /// No configuration for this user.
    UserNotFound,
    /// The template to rename does not exist.
    TemplateNotFound,
    /// A template with the new name already exists.
    TemplateExists,
}

/// The text shown for a refused configuration change.
pub open spec fn config_error_text(e: ConfigError) -> Seq<char> {
    match e {
        ConfigError::UserNotFound => "用户配置不存在"@,
        ConfigError::TemplateNotFound => "原模板不存在"@,
        ConfigError::TemplateExists => "该名称的模板已存在"@,
    }
}

impl ConfigError {
    /// The text shown for the error (see `config_error_text`).
    pub fn message(&self) -> (s: String)
        ensures
            s@ == config_error_text(*self),
    {
        match self {
            ConfigError::UserNotFound => "用户配置不存在".to_string(),
            ConfigError::TemplateNotFound => "原模板不存在".to_string(),
            ConfigError::TemplateExists => "该名称的模板已存在".to_string(),
        }
    }
}

/// The names of a list of strings.
pub open spec fn names_of(v: Seq<String>) -> Seq<Seq<char>> {
    v.map_values(|s: String| s@)
}

pub fn copy_opt_string(s: &Option<String>) -> (r: Option<String>)
    ensures
        r == *s,
{
    match s {
        Some(x) => Some(x.clone()),
        None => None,
    }
}

pub fn copy_strings(v: &Vec<String>) -> (r: Vec<String>)
    ensures
        r@ == v@,
{
    let mut r: Vec<String> = Vec::new();
    let mut i: usize = 0;
    while i < v.len()
        invariant
            i <= v@.len(),
            r@ == v@.subrange(0, i as int),
        decreases v@.len() - i,
    {
        r.push(v[i].clone());
        i = i + 1;
        assert(r@ =~= v@.subrange(0, i as int));
    }
    assert(r@ =~= v@);
    r
}

impl Subtitle {
    pub fn copy(&self) -> (r: Self)
        ensures
            r == *self,
    {
        Subtitle { open: self.open, lan: self.lan.clone() }
    }
}

impl Credit {
    pub fn copy(&self) -> (r: Self)
        ensures
            r == *self,
    {
        Credit {
            credit_type: self.credit_type,
            raw_text: self.raw_text.clone(),
            biz_id: self.biz_id.clone(),
            sub_type: self.sub_type,
            sub_biz_id: self.sub_biz_id.clone(),
        }
    }
}

impl Staff {
    pub fn copy(&self) -> (r: Self)
        ensures
            r == *self,
    {
        Staff { title: self.title.clone(), mid: self.mid, is_del: self.is_del }
    }
}

impl VideoInfo {
    pub fn copy(&self) -> (r: Self)
        ensures
            r == *self,
    {
        VideoInfo {
            id: self.id.clone(),
            cid: self.cid,
            title: self.title.clone(),
            filename: self.filename.clone(),
            desc: self.desc.clone(),
            path: self.path.clone(),
            finished_at: self.finished_at,
            encoding_status: self.encoding_status,
            status_desc: self.status_desc.clone(),
        }
    }
}

pub fn copy_credits(v: &Vec<Credit>) -> (r: Vec<Credit>)
    ensures
        r@ == v@,
{
    let mut r: Vec<Credit> = Vec::new();
    let mut i: usize = 0;
    while i < v.len()
        invariant
            i <= v@.len(),
            r@ == v@.subrange(0, i as int),
        decreases v@.len() - i,
    {
        r.push(v[i].copy());
        i = i + 1;
        assert(r@ =~= v@.subrange(0, i as int));
    }
    assert(r@ =~= v@);
    r
}

pub fn copy_staff(v: &Vec<Staff>) -> (r: Vec<Staff>)
    ensures
        r@ == v@,
{
    let mut r: Vec<Staff> = Vec::new();
    let mut i: usize = 0;
    while i < v.len()
        invariant
            i <= v@.len(),
            r@ == v@.subrange(0, i as int),
        decreases v@.len() - i,
    {
        r.push(v[i].copy());
        i = i + 1;
        assert(r@ =~= v@.subrange(0, i as int));
    }
    assert(r@ =~= v@);
    r
}

pub fn copy_videos(v: &Vec<VideoInfo>) -> (r: Vec<VideoInfo>)
    ensures
        r@ == v@,
{
    let mut r: Vec<VideoInfo> = Vec::new();
    let mut i: usize = 0;
    while i < v.len()
        invariant
            i <= v@.len(),
            r@ == v@.subrange(0, i as int),
        decreases v@.len() - i,
    {
        r.push(v[i].copy());
        i = i + 1;
        assert(r@ =~= v@.subrange(0, i as int));
    }
    assert(r@ =~= v@);
    r
}

impl TemplateConfig {
    /// Equal field by field, lists compared by their contents.
    pub open spec fn same_as(&self, other: &TemplateConfig) -> bool {
        &&& self.copyright == other.copyright
        &&& self.source == other.source
        &&& self.tid == other.tid
        &&& self.tid_v2 == other.tid_v2
        &&& self.cover == other.cover
        &&& self.title == other.title
        &&& self.desc == other.desc
        &&& match (self.desc_v2, other.desc_v2) {
            (Some(a), Some(b)) => a@ == b@,
            (None, None) => true,
            _ => false,
        }
        &&& self.dynamic == other.dynamic
        &&& self.subtitle == other.subtitle
        &&& self.tag == other.tag
        &&& self.videos@ == other.videos@
        &&& self.dtime == other.dtime
        &&& self.open_subtitle == other.open_subtitle
        &&& self.interactive == other.interactive
        &&& self.mission_id == other.mission_id
        &&& self.topic_id == other.topic_id
        &&& self.topic_name == other.topic_name
        &&& self.season_id == other.season_id
        &&& self.section_id == other.section_id
        &&& self.dolby == other.dolby
        &&& self.lossless_music == other.lossless_music
        &&& self.no_reprint == other.no_reprint
        &&& self.open_elec == other.open_elec
        &&& self.no_disturbance == other.no_disturbance
        &&& self.aid == other.aid
        &&& self.up_selection_reply == other.up_selection_reply
        &&& self.up_close_reply == other.up_close_reply
        &&& self.up_close_danmu == other.up_close_danmu
        &&& self.atomic_int == other.atomic_int
        &&& self.is_only_self == other.is_only_self
        &&& self.watermark == other.watermark
        &&& self.is_360 == other.is_360
        &&& match (self.staff, other.staff) {
            (Some(a), Some(b)) => a@ == b@,
            (None, None) => true,
            _ => false,
        }
        &&& self.state == other.state
        &&& self.state_desc == other.state_desc
    }

    /// A copy of the template.
    pub fn copy(&self) -> (r: Self)
        ensures
            r.same_as(self),
    {
        TemplateConfig {
            copyright: self.copyright,
            source: self.source.clone(),
            tid: self.tid,
            tid_v2: self.tid_v2,
            cover: self.cover.clone(),
            title: self.title.clone(),
            desc: self.desc.clone(),
            desc_v2: match &self.desc_v2 {
                Some(v) => Some(copy_credits(v)),
                None => None,
            },
            dynamic: self.dynamic.clone(),
            subtitle: self.subtitle.copy(),
            tag: self.tag.clone(),
            videos: copy_videos(&self.videos),
            dtime: self.dtime,
            open_subtitle: self.open_subtitle,
            interactive: self.interactive,
            mission_id: self.mission_id,
            topic_id: self.topic_id,
            topic_name: copy_opt_string(&self.topic_name),
            season_id: self.season_id,
            section_id: self.section_id,
            dolby: self.dolby,
            lossless_music: self.lossless_music,
            no_reprint: self.no_reprint,
            open_elec: self.open_elec,
            no_disturbance: self.no_disturbance,
            aid: self.aid,
            up_selection_reply: self.up_selection_reply,
            up_close_reply: self.up_close_reply,
            up_close_danmu: self.up_close_danmu,
            atomic_int: self.atomic_int,
            is_only_self: self.is_only_self,
            watermark: self.watermark,
            is_360: self.is_360,
            staff: match &self.staff {
                Some(v) => Some(copy_staff(v)),
                None => None,
            },
            state: self.state,
            state_desc: copy_opt_string(&self.state_desc),
        }
    }
}

impl Default for Subtitle {
    fn default() -> (r: Self)
        ensures
            r.open == 0,
            r.lan@ == Seq::<char>::empty(),
    {
        Subtitle { open: 0, lan: String::new() }
    }
}

impl Default for TemplateConfig {
    /// A self-made (copyright 1), otherwise empty template.
    fn default() -> (r: Self)
        ensures
            r.copyright == 1,
            r.source@ == Seq::<char>::empty(),
            r.tid == 0,
            r.tid_v2 == 0,
            r.cover@ == Seq::<char>::empty(),
            r.title@ == Seq::<char>::empty(),
            r.desc@ == Seq::<char>::empty(),
            r.desc_v2.is_none(),
            r.dynamic@ == Seq::<char>::empty(),
            r.subtitle.open == 0,
            r.subtitle.lan@ == Seq::<char>::empty(),
            r.tag@ == Seq::<char>::empty(),
            r.videos@.len() == 0,
            r.dtime.is_none(),
            !r.open_subtitle,
            r.interactive == 0,
            r.mission_id.is_none(),
            r.topic_id.is_none(),
            r.topic_name.is_none(),
            r.season_id.is_none(),
            r.section_id.is_none(),
            r.dolby == 0,
            r.lossless_music == 0,
            r.no_reprint == 0,
            r.open_elec == 0,
            r.no_disturbance == 0,
            r.aid.is_none(),
            r.up_selection_reply == 0,
            r.up_close_reply == 0,
            r.up_close_danmu == 0,
            r.atomic_int == 0,
            r.is_only_self == 0,
            r.watermark == 0,
            r.is_360 == -1,
            r.staff.is_none(),
            r.state.is_none(),
            r.state_desc.is_none(),
    {
        TemplateConfig {
            copyright: 1,
            source: String::new(),
            tid: 0,
            tid_v2: 0,
            cover: String::new(),
            title: String::new(),
            desc: String::new(),
            desc_v2: None,
            dynamic: String::new(),
            subtitle: Subtitle::default(),
            tag: String::new(),
            videos: Vec::new(),
            dtime: None,
            open_subtitle: false,
            interactive: 0,
            mission_id: None,
            topic_id: None,
            topic_name: None,
            season_id: None,
            section_id: None,
            dolby: 0,
            lossless_music: 0,
            no_reprint: 0,
            open_elec: 0,
            no_disturbance: 0,
            aid: None,
            up_selection_reply: 0,
            up_close_reply: 0,
            up_close_danmu: 0,
            atomic_int: 0,
            is_only_self: 0,
            watermark: 0,
            is_360: -1,
            staff: None,
            state: None,
            state_desc: None,
        }
    }
}

/// Whether the first `upto` names of `v` contain `n`.
fn contains_name(v: &Vec<String>, upto: usize, n: &str) -> (b: bool)
    requires
        upto <= v@.len(),
    ensures
        b == names_of(v@).subrange(0, upto as int).contains(n@),
{
    let mut i: usize = 0;
    while i < upto
        invariant
            upto <= v@.len(),
            i <= upto,
            forall|j: int| 0 <= j < i ==> v@[j]@ != n@,
        decreases upto - i,
    {
        if crate::text::str_eq(v[i].as_str(), n) {
            assert(names_of(v@).subrange(0, upto as int)[i as int] == n@);
            return true;
        }
        i = i + 1;
    }
    proof {
        let s = names_of(v@).subrange(0, upto as int);
        if s.contains(n@) {
            let j = s.index_of(n@);
            assert(v@[j]@ == n@);
        }
    }
    false
}

impl UserConfig {
    /// The template order as names.
    pub open spec fn order_names(&self) -> Seq<Seq<char>> {
        names_of(self.template_order@)
    }

    /// Template order and update stamps agree with the templates: every
    /// template is listed once in the order, and has exactly one stamp.
    pub open spec fn is_normalized(&self) -> bool {
        &&& lists_exactly(self.order_names(), self.templates.contents().dom())
        &&& self.template_updated_at.contents().dom() == self.templates.contents().dom()
    }

    /// The same user configuration except possibly for templates, template
    /// order and stamps.
    pub open spec fn same_settings(&self, other: &UserConfig) -> bool {
        &&& self.user == other.user
        &&& self.line == other.line
        &&& self.proxy == other.proxy
        &&& self.limit == other.limit
        &&& self.watermark == other.watermark
        &&& self.auto_edit == other.auto_edit
    }

    /// Makes the template order list each template exactly once (dropping
    /// unknown and repeated names, appending missing ones), and gives each
    /// template exactly one update stamp (0 where it had none).
    pub fn normalize_template_metadata(&mut self)
        ensures
            final(self).same_settings(old(self)),
            final(self).templates == old(self).templates,
            final(self).order_names() == normal_template_order(
                old(self).order_names(),
                old(self).templates.names(),
            ),
            final(self).template_updated_at.contents() == normal_stamps(
                old(self).template_updated_at.contents(),
                old(self).templates.contents().dom(),
            ),
            final(self).is_normalized(),
    {
        self.templates.assert_wf();
        proof {
            self.templates.lemma_names();
        }
        let ghost order0 = self.order_names();
        let ghost names = self.templates.names();
        let ghost keep = names.to_set();
        // 1. keep the first occurrence of each known name
        let mut order: Vec<String> = Vec::new();
        let mut i: usize = 0;
        while i < self.template_order.len()
            invariant
                i <= self.template_order@.len(),
                order0 == self.order_names(),
                names == self.templates.names(),
                keep == names.to_set(),
                self.templates.wf(),
                keep == self.templates.contents().dom(),
                names_of(order@) == retain_first(order0.subrange(0, i as int), keep),
            decreases self.template_order@.len() - i,
        {
            let name = &self.template_order[i];
            let ghost prefix = order0.subrange(0, i as int);
            assert(order0.subrange(0, i + 1).drop_last() =~= prefix);
            assert(order0.subrange(0, i + 1).last() == name@);
            let known = self.templates.contains_key(name.as_str());
            let ol = order.len();
            if known && !contains_name(&order, ol, name.as_str()) {
                assert(names_of(order@).subrange(0, ol as int) =~= names_of(order@));
                order.push(name.clone());
                assert(names_of(order@) =~= retain_first(prefix, keep).push(name@));
            } else {
                assert(names_of(order@).subrange(0, ol as int) =~= names_of(order@));
            }
            i = i + 1;
        }
        assert(order0.subrange(0, order0.len() as int) =~= order0);
        let ghost r = names_of(order@);
        let rl = order.len();
        // 2. append the template names that are not listed yet
        let all = self.templates.name_list();
        let mut j: usize = 0;
        while j < all.len()
            invariant
                j <= all@.len(),
                names_of(all@) == names,
                rl <= order@.len(),
                r == names_of(order@).subrange(0, rl as int),
                names_of(order@) == r + names.subrange(0, j as int).filter(absent_from(r)),
            decreases all@.len() - j,
        {
            let name = &all[j];
            assert(names[j as int] == name@);
            assert(names.subrange(0, j + 1) =~= names.subrange(0, j as int).push(name@));
            proof {
                lemma_filter_push(names.subrange(0, j as int), name@, absent_from(r));
            }
            if !contains_name(&order, rl, name.as_str()) {
                let ghost before = names_of(order@);
                assert(absent_from(r)(name@));
                order.push(name.clone());
                assert(names_of(order@) =~= before.push(name@));
                assert(names_of(order@) =~= r + names.subrange(0, j + 1).filter(absent_from(r)));
                assert(names_of(order@).subrange(0, rl as int) =~= r);
            } else {
                assert(names_of(order@) =~= r + names.subrange(0, j + 1).filter(absent_from(r)));
            }
            j = j + 1;
        }
        assert(names.subrange(0, names.len() as int) =~= names);
        self.template_order = order;
        // 3. one stamp per template
        let ghost stamps0 = self.template_updated_at.contents();
        let mut stamps: NamedMap<u64> = NamedMap::new();
        let mut k: usize = 0;
        while k < all.len()
            invariant
                k <= all@.len(),
                names_of(all@) == names,
                names.no_duplicates(),
                stamps0 == self.template_updated_at.contents(),
                stamps.contents() == normal_stamps(stamps0, names.subrange(0, k as int).to_set()),
            decreases all@.len() - k,
        {
            let name = &all[k];
            assert(names[k as int] == name@);
            let value: u64 = match self.template_updated_at.get(name.as_str()) {
                Some(v) => *v,
                None => 0,
            };
            stamps.insert(name.clone(), value);
            proof {
                names.subrange(0, k as int).lemma_push_to_set_commute(name@);
                assert(names.subrange(0, k + 1) =~= names.subrange(0, k as int).push(name@));
            }
            assert(stamps.contents() =~= normal_stamps(
                stamps0,
                names.subrange(0, k + 1).to_set(),
            ));
            k = k + 1;
        }
        self.template_updated_at = stamps;
        proof {
            lemma_normal_template_order(order0, names);
            assert(names.subrange(0, names.len() as int) =~= names);
            assert(normal_stamps(stamps0, keep).dom() =~= keep);
        }
    }
}

} // verus!

verus! {

/// Whether `x` occurs in `v`.
pub fn contains_u64(v: &Vec<u64>, x: u64) -> (b: bool)
    ensures
        b == v@.contains(x),
{
    let mut i: usize = 0;
    while i < v.len()
        invariant
            i <= v@.len(),
            forall|j: int| 0 <= j < i ==> v@[j] != x,
        decreases v@.len() - i,
    {
        if v[i] == x {
            return true;
        }
        i = i + 1;
    }
    false
}

/// Inserts `x` into a strictly increasing vector, keeping it so.
pub fn insert_sorted(v: &mut Vec<u64>, x: u64)
    requires
        sorted_strict(old(v)@),
        !old(v)@.contains(x),
    ensures
        sorted_strict(final(v)@),
        final(v)@.to_set() == old(v)@.to_set().insert(x),
{
    let mut i: usize = 0;
    while i < v.len() && v[i] < x
        invariant
            i <= v@.len(),
            forall|j: int| 0 <= j < i ==> v@[j] < x,
        decreases v@.len() - i,
    {
        i = i + 1;
    }
    let ghost before = v@;
    v.insert(i, x);
    assert forall|a: int, b: int| 0 <= a < b < v@.len() implies v@[a] < v@[b] by {
        if a < i && b == i {
        } else if a < i && b > i {
            assert(v@[b] == before[b - 1]);
            assert(before[a] < x || before[a] == x || before[a] > x);
            assert(before[i as int] >= x);
            if b - 1 > i {
                assert(before[i as int] < before[b - 1]);
            }
        } else if a == i {
            assert(v@[b] == before[b - 1]);
            assert(before[b - 1] != x) by {
                assert(before.contains(before[b - 1]));
            }
            if b - 1 > i {
                assert(before[i as int] < before[b - 1]);
            }
        } else if a > i {
            assert(v@[a] == before[a - 1] && v@[b] == before[b - 1]);
        }
    }
    assert(v@.to_set() =~= before.to_set().insert(x)) by {
        assert forall|y: u64| v@.to_set().contains(y) <==> before.to_set().insert(x).contains(y) by {
            if v@.contains(y) {
                let k = v@.index_of(y);
                if k < i {
                    assert(before[k] == y);
                } else if k > i {
                    assert(before[k - 1] == y);
                }
            }
            if before.contains(y) {
                let k = before.index_of(y);
                if k < i {
                    assert(v@[k] == y);
                } else {
                    assert(v@[k + 1] == y);
                }
            }
            if y == x {
                assert(v@[i as int] == x);
            }
        }
    }
}

/// All keys of a user map, each once.
pub fn user_ids(m: &HashMap<u64, UserConfig>) -> (r: Vec<u64>)
    ensures
        r@.to_set() == m@.dom(),
        r@.no_duplicates(),
{
    let ghost all = vstd::std_specs::hash::spec_keys_iter(m).remaining();
    let mut r: Vec<u64> = Vec::new();
    for k in it: m.keys()
        invariant
            it.seq() == all,
            r@ == all.take(it.index() as int).map_values(|x: &u64| *x),
    {
        r.push(*k);
        assert(r@ =~= all.take(it.index() as int + 1).map_values(|x: &u64| *x));
    }
    proof {
        assert(all.take(all.len() as int) =~= all);
        assert(r@ =~= all.unref());
    }
    r
}

impl UserConfig {
    /// `self` is `old` after `normalize_template_metadata`.
    pub open spec fn normalized_from(&self, old: &UserConfig) -> bool {
        &&& self.same_settings(old)
        &&& self.templates == old.templates
        &&& self.order_names() == normal_template_order(old.order_names(), old.templates.names())
        &&& self.template_updated_at.contents() == normal_stamps(
            old.template_updated_at.contents(),
            old.templates.contents().dom(),
        )
    }
}

impl ConfigRoot {
    /// The global settings are those of `other`.
    pub open spec fn same_globals(&self, other: &ConfigRoot) -> bool {
        &&& self.max_curr == other.max_curr
        &&& self.auto_upload == other.auto_upload
        &&& self.auto_start == other.auto_start
        &&& self.log_level == other.log_level
        &&& self.cover_match_path == other.cover_match_path
    }

    /// The configured users.
    pub open spec fn users(&self) -> Set<u64> {
        self.config@.dom()
    }

    /// Makes the user order list each configured user exactly once: known
    /// users keep their first position, the others follow in increasing order.
    fn normalize_user_order(&mut self)
        ensures
            final(self).config == old(self).config,
            final(self).same_globals(old(self)),
            is_normal_user_order(final(self).user_order@, old(self).user_order@, old(self).users()),
    {
        let ghost order0 = self.user_order@;
        let ghost users = self.config@.dom();
        let mut kept: Vec<u64> = Vec::new();
        let mut i: usize = 0;
        while i < self.user_order.len()
            invariant
                i <= self.user_order@.len(),
                order0 == self.user_order@,
                users == self.config@.dom(),
                kept@ == retain_first(order0.subrange(0, i as int), users),
            decreases self.user_order@.len() - i,
        {
            let uid = self.user_order[i];
            assert(order0.subrange(0, i + 1).drop_last() =~= order0.subrange(0, i as int));
            if self.config.contains_key(&uid) && !contains_u64(&kept, uid) {
                kept.push(uid);
            }
            i = i + 1;
        }
        assert(order0.subrange(0, order0.len() as int) =~= order0);
        let ghost r = kept@;
        proof {
            lemma_retain_first(order0, users);
        }
        let ids = user_ids(&self.config);
        let mut missing: Vec<u64> = Vec::new();
        let mut j: usize = 0;
        while j < ids.len()
            invariant
                j <= ids@.len(),
                ids@.to_set() == users,
                ids@.no_duplicates(),
                kept@ == r,
                sorted_strict(missing@),
                missing@.to_set() == ids@.subrange(0, j as int).to_set().difference(r.to_set()),
            decreases ids@.len() - j,
        {
            let id = ids[j];
            proof {
                ids@.subrange(0, j as int).lemma_push_to_set_commute(id);
                assert(ids@.subrange(0, j + 1) =~= ids@.subrange(0, j as int).push(id));
            }
            if !contains_u64(&kept, id) {
                assert(!missing@.contains(id)) by {
                    if missing@.contains(id) {
                        assert(missing@.to_set().contains(id));
                        let k = ids@.subrange(0, j as int).index_of(id);
                        assert(ids@[k] == ids@[j as int]);
                    }
                }
                insert_sorted(&mut missing, id);
                assert(missing@.to_set() =~= ids@.subrange(0, j + 1).to_set().difference(r.to_set()));
            } else {
                assert(missing@.to_set() =~= ids@.subrange(0, j + 1).to_set().difference(r.to_set()));
            }
            j = j + 1;
        }
        assert(ids@.subrange(0, ids@.len() as int) =~= ids@);
        let ghost m = missing@;
        let mut result = kept;
        let rl = result.len();
        let mut k: usize = 0;
        while k < missing.len()
            invariant
                k <= missing@.len(),
                missing@ == m,
                rl == r.len(),
                result@ == r + m.subrange(0, k as int),
            decreases missing@.len() - k,
        {
            result.push(missing[k]);
            k = k + 1;
            assert(result@ =~= r + m.subrange(0, k as int));
        }
        assert(m.subrange(0, m.len() as int) =~= m);
        assert(result@.subrange(0, r.len() as int) =~= r);
        assert(result@.subrange(r.len() as int, result@.len() as int) =~= m);
        self.user_order = result;
    }

    /// Normalizes the user order and every user's template metadata.
    pub fn normalize_template_metadata(&mut self)
        ensures
            final(self).same_globals(old(self)),
            is_normal_user_order(final(self).user_order@, old(self).user_order@, old(self).users()),
            final(self).users() == old(self).users(),
            forall|uid: u64| #[trigger]
                final(self).config@.contains_key(uid) ==> final(self).config@[uid].normalized_from(
                    &old(self).config@[uid],
                ) && final(self).config@[uid].is_normalized(),
    {
        self.normalize_user_order();
        let ghost c0 = self.config@;
        let ghost g = *self;
        let ids = user_ids(&self.config);
        let mut i: usize = 0;
        while i < ids.len()
            invariant
                i <= ids@.len(),
                ids@.to_set() == c0.dom(),
                ids@.no_duplicates(),
                self.config@.dom() == c0.dom(),
                self.same_globals(&g),
                self.user_order == g.user_order,
                forall|uid: u64| #[trigger]
                    self.config@.contains_key(uid) ==> if ids@.subrange(0, i as int).contains(uid) {
                        self.config@[uid].normalized_from(&c0[uid])
                            && self.config@[uid].is_normalized()
                    } else {
                        self.config@[uid] == c0[uid]
                    },
            decreases ids@.len() - i,
        {
            let uid = ids[i];
            let ghost before = self.config@;
            let ghost done = ids@.subrange(0, i as int);
            assert(ids@.to_set().contains(uid));
            proof {
                assert(ids@.subrange(0, i + 1) =~= done.push(uid));
                assert(!done.contains(uid)) by {
                    if done.contains(uid) {
                        let k = done.index_of(uid);
                        assert(ids@[k] == ids@[i as int]);
                    }
                }
                assert(before[uid] == c0[uid]);
                assert forall|x: u64| #[trigger] done.push(uid).contains(x) <==> (done.contains(x)
                    || x == uid) by {
                    if done.push(uid).contains(x) {
                        let k = done.push(uid).index_of(x);
                        if k < done.len() {
                            assert(done[k] == x);
                        }
                    }
                    if done.contains(x) {
                        let k = done.index_of(x);
                        assert(done.push(uid)[k] == x);
                    }
                    if x == uid {
                        assert(done.push(uid)[done.len() as int] == x);
                    }
                }
            }
            match self.config.remove(&uid) {
                Some(mut uc) => {
                    uc.normalize_template_metadata();
                    self.config.insert(uid, uc);
                },
                None => {},
            }
            assert(self.config@.dom() =~= c0.dom());
            i = i + 1;
        }
        assert(ids@.subrange(0, ids@.len() as int) =~= ids@);
    }
}

} // verus!

verus! {

/// The predicate "is not `name`".
pub open spec fn other_than(name: Seq<char>) -> spec_fn(Seq<char>) -> bool {
    |n: Seq<char>| n != name
}

/// Replaces `from` by `to`, leaves other names alone.
pub open spec fn renamer(from: Seq<char>, to: Seq<char>) -> spec_fn(Seq<char>) -> Seq<char> {
    |n: Seq<char>|
        if n == from {
            to
        } else {
            n
        }
}

/// `new` is `old` after storing template `t` under `name` at time `now`.
pub open spec fn template_put(
    new: &UserConfig,
    old: &UserConfig,
    name: Seq<char>,
    t: TemplateConfig,
    now: u64,
) -> bool {
    let existed = old.templates.contents().contains_key(name);
    let names = if existed {
        old.templates.names()
    } else {
        old.templates.names().push(name)
    };
    let order = if existed {
        old.order_names()
    } else {
        old.order_names().push(name)
    };
    &&& new.same_settings(old)
    &&& new.templates.contents() == old.templates.contents().insert(name, t)
    &&& new.templates.names() == names
    &&& new.order_names() == normal_template_order(order, names)
    &&& new.template_updated_at.contents() == normal_stamps(
        old.template_updated_at.contents().insert(name, now),
        new.templates.contents().dom(),
    )
    &&& new.is_normalized()
}

/// `new` is `old` after deleting the template `name` (if there was one).
pub open spec fn template_removed(new: &UserConfig, old: &UserConfig, name: Seq<char>) -> bool {
    let existed = old.templates.contents().contains_key(name);
    let names = if existed {
        old.templates.names().remove(old.templates.names().index_of(name))
    } else {
        old.templates.names()
    };
    let order = if existed {
        old.order_names().filter(other_than(name))
    } else {
        old.order_names()
    };
    let stamps = if existed {
        old.template_updated_at.contents().remove(name)
    } else {
        old.template_updated_at.contents()
    };
    &&& new.same_settings(old)
    &&& new.templates.contents() == old.templates.contents().remove(name)
    &&& new.templates.names() == names
    &&& new.order_names() == normal_template_order(order, names)
    &&& new.template_updated_at.contents() == normal_stamps(stamps, new.templates.contents().dom())
    &&& new.is_normalized()
}

/// `new` is `old` after renaming template `from` to `to`.
pub open spec fn template_renamed(
    new: &UserConfig,
    old: &UserConfig,
    from: Seq<char>,
    to: Seq<char>,
) -> bool {
    let t = old.templates.contents()[from];
    let names = old.templates.names().remove(old.templates.names().index_of(from)).push(to);
    let st = old.template_updated_at.contents();
    let stamps = if st.contains_key(from) {
        st.remove(from).insert(to, st[from])
    } else {
        st
    };
    &&& new.same_settings(old)
    &&& new.templates.contents() == old.templates.contents().remove(from).insert(to, t)
    &&& new.templates.names() == names
    &&& new.order_names() == normal_template_order(old.order_names().map_values(renamer(from, to)), names)
    &&& new.template_updated_at.contents() == normal_stamps(stamps, new.templates.contents().dom())
    &&& new.is_normalized()
}

/// `new` is `old` with the template order set to `order`, then normalized.
pub open spec fn template_order_set(new: &UserConfig, old: &UserConfig, order: Seq<Seq<char>>) -> bool {
    &&& new.same_settings(old)
    &&& new.templates == old.templates
    &&& new.order_names() == normal_template_order(order, old.templates.names())
    &&& new.template_updated_at.contents() == normal_stamps(
        old.template_updated_at.contents(),
        old.templates.contents().dom(),
    )
    &&& new.is_normalized()
}

/// The names of `v` other than `name`, in order.
fn without_name(v: &Vec<String>, name: &str) -> (r: Vec<String>)
    ensures
        names_of(r@) == names_of(v@).filter(other_than(name@)),
{
    let mut r: Vec<String> = Vec::new();
    let mut i: usize = 0;
    while i < v.len()
        invariant
            i <= v@.len(),
            names_of(r@) == names_of(v@).subrange(0, i as int).filter(other_than(name@)),
        decreases v@.len() - i,
    {
        proof {
            assert(names_of(v@).subrange(0, i + 1) =~= names_of(v@).subrange(0, i as int).push(
                v@[i as int]@,
            ));
            lemma_filter_push(
                names_of(v@).subrange(0, i as int),
                v@[i as int]@,
                other_than(name@),
            );
        }
        let ghost before = names_of(r@);
        if !crate::text::str_eq(v[i].as_str(), name) {
            r.push(v[i].clone());
            assert(names_of(r@) =~= before.push(v@[i as int]@));
        }
        i = i + 1;
    }
    assert(names_of(v@).subrange(0, v@.len() as int) =~= names_of(v@));
    r
}

/// Every occurrence of `from` replaced by `to`.
fn with_renamed(v: &Vec<String>, from: &str, to: &str) -> (r: Vec<String>)
    ensures
        names_of(r@) == names_of(v@).map_values(renamer(from@, to@)),
{
    let mut r: Vec<String> = Vec::new();
    let mut i: usize = 0;
    while i < v.len()
        invariant
            i <= v@.len(),
            r@.len() == i,
            forall|j: int| 0 <= j < i ==> #[trigger] r@[j]@ == renamer(from@, to@)(v@[j]@),
        decreases v@.len() - i,
    {
        if crate::text::str_eq(v[i].as_str(), from) {
            r.push(to.to_owned());
        } else {
            r.push(v[i].clone());
        }
        i = i + 1;
    }
    assert(names_of(r@) =~= names_of(v@).map_values(renamer(from@, to@)));
    r
}

/// The elements of `v` other than `x`, in order.
fn without_u64(v: &Vec<u64>, x: u64) -> (r: Vec<u64>)
    ensures
        r@ == v@.filter(|y: u64| y != x),
{
    let mut r: Vec<u64> = Vec::new();
    let mut i: usize = 0;
    while i < v.len()
        invariant
            i <= v@.len(),
            r@ == v@.subrange(0, i as int).filter(|y: u64| y != x),
        decreases v@.len() - i,
    {
        proof {
            assert(v@.subrange(0, i + 1) =~= v@.subrange(0, i as int).push(v@[i as int]));
            lemma_filter_push(v@.subrange(0, i as int), v@[i as int], |y: u64| y != x);
        }
        if v[i] != x {
            r.push(v[i]);
        }
        i = i + 1;
    }
    assert(v@.subrange(0, v@.len() as int) =~= v@);
    r
}

} // verus!

verus! {

/// A stamp in seconds from a reading of the clock: the signed seconds since
/// the Unix epoch, clamped at 0.
pub fn current_timestamp(clock_secs: i64) -> (r: u64)
    ensures
        r == (if clock_secs < 0 {
            0
        } else {
            clock_secs as u64
        }),
{
    if clock_secs < 0 {
        0
    } else {
        clock_secs as u64
    }
}

impl ConfigRoot {
    /// Everything but the entry of user `uid` is as in `old`.
    pub open spec fn others_unchanged(&self, old: &ConfigRoot, uid: u64) -> bool {
        &&& self.same_globals(old)
        &&& self.user_order == old.user_order
        &&& self.config@.dom() == old.config@.dom()
        &&& forall|u: u64|
            u != uid && #[trigger] old.config@.contains_key(u) ==> self.config@[u]
                == old.config@[u]
    }

    /// Registers a (new or re-logged-in) user with empty settings; the user is
    /// appended to the user order unless already listed.
    pub fn new_user_config(
        &mut self,
        uid: u64,
        username: String,
        cookie: LoginCookie,
        proxy: Option<String>,
    ) -> (r: &Self)
        ensures
            final(self).same_globals(old(self)),
            final(self).config@.dom() == old(self).config@.dom().insert(uid),
            forall|u: u64|
                u != uid && #[trigger] old(self).config@.contains_key(u) ==> final(self).config@[u]
                    == old(self).config@[u],
            ({
                let c = final(self).config@[uid];
                &&& c.user == (UserInfo { uid, name: username, cookie })
                &&& c.line.is_none()
                &&& c.proxy == proxy
                &&& c.limit == 0
                &&& c.watermark == 0
                &&& c.auto_edit == 0
                &&& c.templates.contents() == Map::<Seq<char>, TemplateConfig>::empty()
                &&& c.templates.names().len() == 0
                &&& c.template_order@.len() == 0
                &&& c.template_updated_at.contents() == Map::<Seq<char>, u64>::empty()
            }),
            final(self).user_order@ == if old(self).user_order@.contains(uid) {
                old(self).user_order@
            } else {
                old(self).user_order@.push(uid)
            },
    {
        let user_config = UserConfig {
            user: UserInfo { uid, name: username, cookie },
            line: None,
            proxy,
            limit: 0,
            watermark: 0,
            auto_edit: 0,
            templates: NamedMap::new(),
            template_order: Vec::new(),
            template_updated_at: NamedMap::new(),
        };
        self.config.insert(uid, user_config);
        if !contains_u64(&self.user_order, uid) {
            self.user_order.push(uid);
        }
        self
    }

    /// Adds a user configuration (normalized first); the user is appended to
    /// the user order unless already listed.
    pub fn add_user_config(&mut self, config: UserConfig) -> (r: &Self)
        ensures
            final(self).same_globals(old(self)),
            final(self).config@.dom() == old(self).config@.dom().insert(config.user.uid),
            forall|u: u64|
                u != config.user.uid && #[trigger] old(self).config@.contains_key(u)
                    ==> final(self).config@[u] == old(self).config@[u],
            final(self).config@[config.user.uid].normalized_from(&config),
            final(self).config@[config.user.uid].is_normalized(),
            final(self).user_order@ == if old(self).user_order@.contains(config.user.uid) {
                old(self).user_order@
            } else {
                old(self).user_order@.push(config.user.uid)
            },
    {
        let uid = config.user.uid;
        let mut config = config;
        config.normalize_template_metadata();
        self.config.insert(uid, config);
        if !contains_u64(&self.user_order, uid) {
            self.user_order.push(uid);
        }
        self
    }

    /// Removes a user and its place in the user order.
    pub fn remove_user_config(&mut self, uid: u64) -> (r: Result<&Self, ConfigError>)
        ensures
            r is Ok <==> old(self).config@.contains_key(uid),
            r is Err ==> r == Err::<&Self, ConfigError>(ConfigError::UserNotFound) && *final(self)
                == *old(self),
            r is Ok ==> {
                &&& final(self).same_globals(old(self))
                &&& final(self).config@ == old(self).config@.remove(uid)
                &&& final(self).user_order@ == old(self).user_order@.filter(|y: u64| y != uid)
            },
    {
        if self.config.contains_key(&uid) {
            self.config.remove(&uid);
            let order = without_u64(&self.user_order, uid);
            self.user_order = order;
            Ok(self)
        } else {
            Err(ConfigError::UserNotFound)
        }
    }

    /// Replaces the user order, then normalizes it against the configured
    /// users. Never fails.
    pub fn save_user_order(&mut self, user_order: Vec<u64>) -> (r: Result<&Self, ConfigError>)
        ensures
            r is Ok,
            final(self).config == old(self).config,
            final(self).same_globals(old(self)),
            is_normal_user_order(final(self).user_order@, user_order@, old(self).users()),
    {
        self.user_order = user_order;
        self.normalize_user_order();
        Ok(self)
    }

    /// Updates the upload settings of one user.
    pub fn save_user_config(
        &mut self,
        uid: u64,
        line: Option<String>,
        proxy: Option<String>,
        limit: u32,
        watermark: u8,
        auto_edit: u8,
    ) -> (r: Result<&Self, ConfigError>)
        ensures
            r is Ok <==> old(self).config@.contains_key(uid),
            r is Err ==> r == Err::<&Self, ConfigError>(ConfigError::UserNotFound) && *final(self)
                == *old(self),
            r is Ok ==> {
                let (o, n) = (old(self).config@[uid], final(self).config@[uid]);
                &&& final(self).others_unchanged(old(self), uid)
                &&& n.user == o.user
                &&& n.line == line
                &&& n.proxy == proxy
                &&& n.limit == limit
                &&& n.watermark == watermark
                &&& n.auto_edit == auto_edit
                &&& n.templates == o.templates
                &&& n.template_order == o.template_order
                &&& n.template_updated_at == o.template_updated_at
            },
    {
        if !self.config.contains_key(&uid) {
            return Err(ConfigError::UserNotFound);
        }
        match self.config.remove(&uid) {
            Some(mut user_config) => {
                user_config.line = line;
                user_config.proxy = proxy;
                user_config.limit = limit;
                user_config.watermark = watermark;
                user_config.auto_edit = auto_edit;
                self.config.insert(uid, user_config);
                assert(self.config@.dom() =~= old(self).config@.dom());
                Ok(self)
            },
            None => Err(ConfigError::UserNotFound),
        }
    }

    /// Sets the global settings.
    pub fn save_global_config(
        &mut self,
        max_curr: u32,
        auto_start: bool,
        auto_upload: bool,
        log_level: String,
        cover_match_path: String,
    ) -> (r: &Self)
        ensures
            final(self).max_curr == max_curr,
            final(self).auto_start == auto_start,
            final(self).auto_upload == auto_upload,
            final(self).log_level == log_level,
            final(self).cover_match_path == cover_match_path,
            final(self).user_order == old(self).user_order,
            final(self).config == old(self).config,
    {
        self.max_curr = max_curr;
        self.auto_start = auto_start;
        self.auto_upload = auto_upload;
        self.log_level = log_level;
        self.cover_match_path = cover_match_path;
        self
    }
}

} // verus!

verus! {

impl UserConfig {
    /// Stores `template` under `name` with update stamp `now`; a new name is
    /// appended to the template order.
    pub fn put_template(&mut self, name: &str, template: TemplateConfig, now: u64)
        ensures
            template_put(final(self), old(self), name@, template, now),
    {
        let existed = self.templates.contains_key(name);
        self.templates.insert(name.to_owned(), template);
        if !existed {
            let ghost before = self.order_names();
            self.template_order.push(name.to_owned());
            assert(self.order_names() =~= before.push(name@));
        }
        self.template_updated_at.insert(name.to_owned(), now);
        self.normalize_template_metadata();
    }

    /// Deletes the template `name`, if present, with its place in the order
    /// and its stamp.
    pub fn delete_template(&mut self, name: &str) -> (r: Option<TemplateConfig>)
        ensures
            template_removed(final(self), old(self), name@),
            r == if old(self).templates.contents().contains_key(name@) {
                Some(old(self).templates.contents()[name@])
            } else {
                None::<TemplateConfig>
            },
    {
        let removed = self.templates.remove(name);
        if removed.is_some() {
            let order = without_name(&self.template_order, name);
            self.template_order = order;
            self.template_updated_at.remove(name);
        }
        self.normalize_template_metadata();
        removed
    }

    /// Replaces the template order, then normalizes it.
    pub fn set_template_order(&mut self, template_order: Vec<String>)
        ensures
            template_order_set(final(self), old(self), names_of(template_order@)),
    {
        self.template_order = template_order;
        self.normalize_template_metadata();
    }

    /// Renames template `from` to `to`, moving its stamp and its places in
    /// the order.
    pub fn rename_template(&mut self, from: &str, to: &str)
        requires
            old(self).templates.contents().contains_key(from@),
            !old(self).templates.contents().contains_key(to@),
        ensures
            template_renamed(final(self), old(self), from@, to@),
    {
        match self.templates.remove(from) {
            Some(template) => {
                self.templates.insert(to.to_owned(), template);
            },
            None => {},
        }
        let ghost st = self.template_updated_at.contents();
        match self.template_updated_at.remove(from) {
            Some(stamp) => {
                self.template_updated_at.insert(to.to_owned(), stamp);
            },
            None => {
                assert(st.remove(from@) =~= st);
            },
        }
        let order = with_renamed(&self.template_order, from, to);
        self.template_order = order;
        self.normalize_template_metadata();
    }
}

impl ConfigRoot {
    /// Stores a template for user `uid` with update stamp `now` (nothing
    /// happens for an unknown user); returns a copy of the template.
    pub fn add_user_template(
        &mut self,
        uid: u64,
        template_name: &str,
        template: TemplateConfig,
        now: u64,
    ) -> (r: TemplateConfig)
        ensures
            r.same_as(&template),
            old(self).config@.contains_key(uid) ==> {
                &&& final(self).others_unchanged(old(self), uid)
                &&& template_put(
                    &final(self).config@[uid],
                    &old(self).config@[uid],
                    template_name@,
                    template,
                    now,
                )
            },
            !old(self).config@.contains_key(uid) ==> *final(self) == *old(self),
    {
        let copy = template.copy();
        if self.config.contains_key(&uid) {
            match self.config.remove(&uid) {
                Some(mut user_config) => {
                    user_config.put_template(template_name, template, now);
                    self.config.insert(uid, user_config);
                    assert(self.config@.dom() =~= old(self).config@.dom());
                },
                None => {},
            }
        }
        copy
    }

    /// Deletes a template of user `uid`; returns it if it existed.
    pub fn delete_user_template(&mut self, uid: u64, template_name: &str) -> (r: Option<
        TemplateConfig,
    >)
        ensures
            old(self).config@.contains_key(uid) ==> {
                &&& final(self).others_unchanged(old(self), uid)
                &&& template_removed(
                    &final(self).config@[uid],
                    &old(self).config@[uid],
                    template_name@,
                )
                &&& r == if old(self).config@[uid].templates.contents().contains_key(
                    template_name@,
                ) {
                    Some(old(self).config@[uid].templates.contents()[template_name@])
                } else {
                    None::<TemplateConfig>
                }
            },
            !old(self).config@.contains_key(uid) ==> r.is_none() && *final(self) == *old(self),
    {
        if !self.config.contains_key(&uid) {
            return None;
        }
        match self.config.remove(&uid) {
            Some(mut user_config) => {
                let removed = user_config.delete_template(template_name);
                self.config.insert(uid, user_config);
                assert(self.config@.dom() =~= old(self).config@.dom());
                removed
            },
            None => None,
        }
    }

    /// The template order of user `uid` (empty for an unknown user).
    pub fn get_user_template_order(&self, uid: u64) -> (r: &[String])
        ensures
            r@ == if self.config@.contains_key(uid) {
                self.config@[uid].template_order@
            } else {
                Seq::<String>::empty()
            },
    {
        match self.config.get(&uid) {
            Some(user_config) => user_config.template_order.as_slice(),
            None => &[],
        }
    }

    /// Replaces the template order of user `uid`, then normalizes it.
    pub fn save_template_order(&mut self, uid: u64, template_order: Vec<String>) -> (r: Result<
        &Self,
        ConfigError,
    >)
        ensures
            r is Ok <==> old(self).config@.contains_key(uid),
            r is Err ==> r == Err::<&Self, ConfigError>(ConfigError::UserNotFound) && *final(self)
                == *old(self),
            r is Ok ==> {
                &&& final(self).others_unchanged(old(self), uid)
                &&& template_order_set(
                    &final(self).config@[uid],
                    &old(self).config@[uid],
                    names_of(template_order@),
                )
            },
    {
        if !self.config.contains_key(&uid) {
            return Err(ConfigError::UserNotFound);
        }
        match self.config.remove(&uid) {
            Some(mut user_config) => {
                user_config.set_template_order(template_order);
                self.config.insert(uid, user_config);
                assert(self.config@.dom() =~= old(self).config@.dom());
                Ok(self)
            },
            None => Err(ConfigError::UserNotFound),
        }
    }

    /// Renames a template of user `uid`. Fails for an unknown user, a missing
    /// template `old_name`, or an existing template `new_name` (also when the
    /// two names are equal).
    pub fn rename_user_template(&mut self, uid: u64, old_name: &str, new_name: &str) -> (r: Result<
        &Self,
        ConfigError,
    >)
        ensures
            !old(self).config@.contains_key(uid) ==> r == Err::<&Self, ConfigError>(
                ConfigError::UserNotFound,
            ),
            old(self).config@.contains_key(uid) && !old(self).config@[uid].templates.contents().contains_key(old_name@) ==> r == Err::<&Self, ConfigError>(ConfigError::TemplateNotFound),
            old(self).config@.contains_key(uid) && old(self).config@[uid].templates.contents().contains_key(old_name@)
                && old(self).config@[uid].templates.contents().contains_key(new_name@) ==> r
                == Err::<&Self, ConfigError>(ConfigError::TemplateExists),
            r is Ok <==> {
                &&& old(self).config@.contains_key(uid)
                &&& old(self).config@[uid].templates.contents().contains_key(old_name@)
                &&& !old(self).config@[uid].templates.contents().contains_key(new_name@)
            },
            r is Err ==> *final(self) == *old(self),
            r is Ok ==> {
                &&& final(self).others_unchanged(old(self), uid)
                &&& template_renamed(
                    &final(self).config@[uid],
                    &old(self).config@[uid],
                    old_name@,
                    new_name@,
                )
            },
    {
        match self.config.get(&uid) {
            None => {
                return Err(ConfigError::UserNotFound);
            },
            Some(user_config) => {
                if !user_config.templates.contains_key(old_name) {
                    return Err(ConfigError::TemplateNotFound);
                }
                if user_config.templates.contains_key(new_name) {
                    return Err(ConfigError::TemplateExists);
                }
            },
        }
        match self.config.remove(&uid) {
            Some(mut user_config) => {
                user_config.rename_template(old_name, new_name);
                self.config.insert(uid, user_config);
                assert(self.config@.dom() =~= old(self).config@.dom());
                Ok(self)
            },
            None => Err(ConfigError::UserNotFound),
        }
    }
}

} // verus!

verus! {

/// The log level used when the configuration names none: `"info"`.
pub fn default_log_level() -> (s: String)
    ensures
        s@ == seq!['i', 'n', 'f', 'o'],
{
    proof {
        reveal_strlit("info");
    }
    crate::text::string_of(crate::text::chars_of("info").as_slice())
}

impl Default for ConfigRoot {
    /// One upload at a time, auto start and auto upload on, log level
    /// `info`, no users.
    fn default() -> (r: Self)
        ensures
            r.max_curr == 1,
            r.auto_start,
            r.auto_upload,
            r.log_level@ == seq!['i', 'n', 'f', 'o'],
            r.cover_match_path@ == Seq::<char>::empty(),
            r.user_order@ == Seq::<u64>::empty(),
            r.config@ == Map::<u64, UserConfig>::empty(),
    {
        ConfigRoot {
            max_curr: 1,
            auto_start: true,
            auto_upload: true,
            log_level: default_log_level(),
            cover_match_path: String::new(),
            user_order: Vec::new(),
            config: HashMap::new(),
        }
    }
}

} // verus!
