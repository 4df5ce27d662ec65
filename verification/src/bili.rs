//! Reading the video platform's replies: a video's editing view, the
//! mention search, the season (collection) list, and what the season
//! calls send.
use crate::config::{Credit, CreditView, Staff, TemplateConfig};
use crate::json::{
    array_of, as_array, as_i64, as_str, as_u64, get, i64_of, member_of, opt_text, opt_val, str_of,
    u64_of, JsonValue,
};
use crate::error::AppError;
use crate::media::{
    avatar_filename, credit_views, extract_avatar_filename, face_url_normalized, merge_text_runs,
    normalize_desc_v2_tokens, normalize_face_url,
};
use crate::text::{trim, trimmed};
use vstd::prelude::*;

verus! {

/// The first of two options that is present.
pub open spec fn first_some<T>(a: Option<T>, b: Option<T>) -> Option<T> {
    if a is Some {
        a
    } else {
        b
    }
}

/// A text that is present and not empty.
pub open spec fn non_empty(s: Option<Seq<char>>) -> Option<Seq<char>> {
    match s {
        Some(x) => if x.len() > 0 {
            Some(x)
        } else {
            None
        },
        None => None,
    }
}

/// The archive part of a view: `data.archive`, else `data` itself.
pub open spec fn archive_of(data: JsonValue) -> JsonValue {
    match get(Some(data), "archive"@) {
        Some(a) => a,
        None => data,
    }
}

/// Where the co-creators are listed: `data.staffs`, else `archive.staffs`,
/// else `data.staff`.
pub open spec fn staff_source(data: JsonValue) -> Option<JsonValue> {
    first_some(
        first_some(get(Some(data), "staffs"@), get(Some(archive_of(data)), "staffs"@)),
        get(Some(data), "staff"@),
    )
}

/// A co-creator's role: `apply_title`, else `title`, else empty.
pub open spec fn staff_title(item: JsonValue) -> Seq<char> {
    match first_some(as_str(get(Some(item), "apply_title"@)), as_str(get(Some(item), "title"@))) {
        Some(t) => t,
        None => Seq::<char>::empty(),
    }
}

/// A co-creator's id: `apply_staff_mid`, else `mid`, else 0.
pub open spec fn staff_mid(item: JsonValue) -> u64 {
    match first_some(as_u64(get(Some(item), "apply_staff_mid"@)), as_u64(get(Some(item), "mid"@))) {
        Some(m) => m,
        None => 0,
    }
}

/// The co-creators with a role and an id, in order.
pub open spec fn staff_entries(items: Seq<JsonValue>) -> Seq<(Seq<char>, u64)>
    decreases items.len(),
{
    if items.len() == 0 {
        Seq::<(Seq<char>, u64)>::empty()
    } else {
        let p = staff_entries(items.drop_last());
        let it = items.last();
        if staff_title(it).len() > 0 && staff_mid(it) != 0 {
            p.push((staff_title(it), staff_mid(it)))
        } else {
            p
        }
    }
}

/// `v` lists exactly the co-creators `e`, none marked deleted.
pub open spec fn staff_as(v: Seq<Staff>, e: Seq<(Seq<char>, u64)>) -> bool {
    &&& v.len() == e.len()
    &&& forall|i: int|
        0 <= i < v.len() ==> (#[trigger] v[i]).title@ == e[i].0 && v[i].mid == e[i].1
            && v[i].is_del == 0
}

/// The structured description of a view, when there is one (not null).
pub open spec fn desc_v2_source(res: JsonValue) -> Option<JsonValue> {
    match get(Some(res), "data"@) {
        Some(data) => match get(Some(archive_of(data)), "desc_v2"@) {
            Some(JsonValue::Null) => None,
            other => other,
        },
        None => None,
    }
}

/// The description: `archive.desc` when not empty.
pub open spec fn view_desc(a: JsonValue, old: Seq<char>) -> Seq<char> {
    match non_empty(as_str(get(Some(a), "desc"@))) {
        Some(d) => d,
        None => old,
    }
}

/// The new-style category: `archive.human_type2.id`, cut to 32 bits.
pub open spec fn view_tid_v2(a: JsonValue, old: u32) -> u32 {
    match get(Some(a), "human_type2"@) {
        Some(h) => match as_u64(get(Some(h), "id"@)) {
            Some(id) => id as u32,
            None => old,
        },
        None => old,
    }
}

/// The moderation state text: `archive.state_desc`, else `data.state_desc`.
pub open spec fn view_state_desc(data: JsonValue) -> Option<Seq<char>> {
    first_some(
        as_str(get(Some(archive_of(data)), "state_desc"@)),
        as_str(get(Some(data), "state_desc"@)),
    )
}

/// The dynamic text: `archive.dynamic` when not empty.
pub open spec fn view_dynamic(a: JsonValue, old: Seq<char>) -> Seq<char> {
    match non_empty(as_str(get(Some(a), "dynamic"@))) {
        Some(d) => d,
        None => old,
    }
}

/// A numeric id of the archive, cut to 32 bits.
pub open spec fn view_id32(a: JsonValue, key: Seq<char>, old: Option<u32>) -> Option<u32> {
    match as_u64(get(Some(a), key)) {
        Some(m) => Some(m as u32),
        None => old,
    }
}

/// The topic name: `archive.topic_name`, else `data.topic_name`, when not
/// empty.
pub open spec fn view_topic_name(data: JsonValue) -> Option<Seq<char>> {
    non_empty(
        first_some(
            as_str(get(Some(archive_of(data)), "topic_name"@)),
            as_str(get(Some(data), "topic_name"@)),
        ),
    )
}

/// The 360-degree flag: from `archive.rights` (else `data.rights`), -1 when
/// the rights do not say.
pub open spec fn view_is_360(data: JsonValue, old: i64) -> i64 {
    match first_some(get(Some(archive_of(data)), "rights"@), get(Some(data), "rights"@)) {
        Some(r) => match as_i64(get(Some(r), "is_360"@)) {
            Some(x) => x,
            None => -1i64,
        },
        None => old,
    }
}

/// The co-creators of the view.
pub open spec fn view_staff(data: JsonValue) -> Seq<(Seq<char>, u64)> {
    match as_array(staff_source(data)) {
        Some(items) => staff_entries(items),
        None => Seq::<(Seq<char>, u64)>::empty(),
    }
}

/// The merged structured description, when the view has one and it parsed.
pub open spec fn view_desc_v2(res: JsonValue, credits: Option<Seq<CreditView>>) -> Seq<CreditView> {
    match credits {
        Some(c) => if desc_v2_source(res) is Some {
            merge_text_runs(c)
        } else {
            Seq::<CreditView>::empty()
        },
        None => Seq::<CreditView>::empty(),
    }
}

/// The fields that the editing view does not touch are those of `old`.
pub open spec fn view_keeps(new: TemplateConfig, old: TemplateConfig) -> bool {
    &&& new.copyright == old.copyright
    &&& new.source == old.source
    &&& new.tid == old.tid
    &&& new.cover == old.cover
    &&& new.title == old.title
    &&& new.subtitle == old.subtitle
    &&& new.tag == old.tag
    &&& new.videos == old.videos
    &&& new.dtime == old.dtime
    &&& new.open_subtitle == old.open_subtitle
    &&& new.interactive == old.interactive
    &&& new.season_id == old.season_id
    &&& new.section_id == old.section_id
    &&& new.dolby == old.dolby
    &&& new.lossless_music == old.lossless_music
    &&& new.no_reprint == old.no_reprint
    &&& new.open_elec == old.open_elec
    &&& new.no_disturbance == old.no_disturbance
    &&& new.aid == old.aid
    &&& new.up_selection_reply == old.up_selection_reply
    &&& new.up_close_reply == old.up_close_reply
    &&& new.up_close_danmu == old.up_close_danmu
    &&& new.atomic_int == old.atomic_int
    &&& new.is_only_self == old.is_only_self
    &&& new.watermark == old.watermark
}

/// `new` is `old` updated from the editing view `res` of the platform's web
/// interface; `credits` is the view's structured description as parsed,
/// when it parsed. Where the view says nothing, the field is kept.
pub open spec fn archive_view_applied(
    new: TemplateConfig,
    old: TemplateConfig,
    res: JsonValue,
    credits: Option<Seq<CreditView>>,
) -> bool {
    match get(Some(res), "data"@) {
        None => new == old,
        Some(data) => {
            let a = archive_of(data);
            &&& new.desc@ == view_desc(a, old.desc@)
            &&& new.tid_v2 == view_tid_v2(a, old.tid_v2)
            &&& new.state == as_i64(get(Some(a), "state"@))
            &&& opt_text(new.state_desc) == view_state_desc(data)
            &&& (if view_desc_v2(res, credits).len() > 0 {
                new.desc_v2 matches Some(v) && credit_views(v@) == view_desc_v2(res, credits)
            } else {
                new.desc_v2 == old.desc_v2
            })
            &&& new.dynamic@ == view_dynamic(a, old.dynamic@)
            &&& new.mission_id == view_id32(a, "mission_id"@, old.mission_id)
            &&& new.topic_id == view_id32(a, "topic_id"@, old.topic_id)
            &&& (if view_topic_name(data) is Some {
                opt_text(new.topic_name) == view_topic_name(data)
            } else {
                new.topic_name == old.topic_name
            })
            &&& new.is_360 == view_is_360(data, old.is_360)
            &&& (if view_staff(data).len() > 0 {
                new.staff matches Some(v) && staff_as(v@, view_staff(data))
            } else {
                new.staff == old.staff
            })
            &&& view_keeps(new, old)
        },
    }
}

/// Loading an editing view takes the video's dynamic text when the view
/// has a non-empty one (in `data.archive`, or in `data` when there is no
/// archive part), and keeps the template's own otherwise.
pub proof fn law_view_loads_dynamic(
    new: TemplateConfig,
    old: TemplateConfig,
    res: JsonValue,
    credits: Option<Seq<CreditView>>,
    data: JsonValue,
    a: JsonValue,
)
    requires
        archive_view_applied(new, old, res, credits),
        get(Some(res), "data"@) == Some(data),
        get(Some(data), "archive"@) == Some(a) || (get(Some(data), "archive"@) is None && a == data),
    ensures
        match as_str(get(Some(a), "dynamic"@)) {
            Some(d) => if d.len() > 0 {
                new.dynamic@ == d
            } else {
                new.dynamic@ == old.dynamic@
            },
            None => new.dynamic@ == old.dynamic@,
        },
{
}

fn first_some_ref<'a>(a: Option<&'a JsonValue>, b: Option<&'a JsonValue>) -> (r: Option<
    &'a JsonValue,
>)
    ensures
        opt_val(r) == first_some(opt_val(a), opt_val(b)),
{
    match a {
        Some(x) => Some(x),
        None => b,
    }
}

fn archive_ref(data: &JsonValue) -> (r: &JsonValue)
    ensures
        *r == archive_of(*data),
{
    match member_of(Some(data), "archive") {
        Some(a) => a,
        None => data,
    }
}

fn non_empty_text(s: Option<String>) -> (r: Option<String>)
    ensures
        opt_text(r) == non_empty(opt_text(s)),
{
    match s {
        Some(x) => if x.unicode_len() > 0 {
            Some(x)
        } else {
            None
        },
        None => None,
    }
}

/// The structured description of an editing view, when it is not null
/// (what is to be parsed as a list of description tokens).
pub fn archive_desc_v2(res: &JsonValue) -> (r: Option<&JsonValue>)
    ensures
        opt_val(r) == desc_v2_source(*res),
{
    match member_of(Some(res), "data") {
        Some(data) => {
            let a = archive_ref(data);
            match member_of(Some(a), "desc_v2") {
                Some(JsonValue::Null) => None,
                other => other,
            }
        },
        None => None,
    }
}

/// The co-creators listed in `items` (see `staff_entries`).
pub fn parse_staff(items: &Vec<JsonValue>) -> (r: Vec<Staff>)
    ensures
        staff_as(r@, staff_entries(items@)),
{
    let mut r: Vec<Staff> = Vec::new();
    let mut i: usize = 0;
    while i < items.len()
        invariant
            i <= items@.len(),
            staff_as(r@, staff_entries(items@.subrange(0, i as int))),
        decreases items@.len() - i,
    {
        assert(items@.subrange(0, i + 1).drop_last() =~= items@.subrange(0, i as int));
        let item = &items[i];
        let title = match member_of(Some(item), "apply_title") {
            Some(JsonValue::Str(s)) => s.clone(),
            _ => match member_of(Some(item), "title") {
                Some(JsonValue::Str(s)) => s.clone(),
                _ => String::new(),
            },
        };
        let mid = match u64_of(member_of(Some(item), "apply_staff_mid")) {
            Some(m) => m,
            None => match u64_of(member_of(Some(item), "mid")) {
                Some(m) => m,
                None => 0,
            },
        };
        assert(title@ == staff_title(*item));
        assert(mid == staff_mid(*item));
        let ghost before = r@;
        if title.unicode_len() > 0 && mid != 0 {
            r.push(Staff { title, mid, is_del: 0 });
            assert(r@ == before.push(r@.last()));
        }
        i = i + 1;
    }
    assert(items@.subrange(0, items@.len() as int) =~= items@);
    r
}

fn desc_field(a: &JsonValue, old: String) -> (r: String)
    ensures
        r@ == view_desc(*a, old@),
{
    match non_empty_text(str_of(member_of(Some(a), "desc"))) {
        Some(d) => d,
        None => old,
    }
}

fn tid_v2_field(a: &JsonValue, old: u32) -> (r: u32)
    ensures
        r == view_tid_v2(*a, old),
{
    match member_of(Some(a), "human_type2") {
        Some(h) => match u64_of(member_of(Some(h), "id")) {
            Some(id) => id as u32,
            None => old,
        },
        None => old,
    }
}

fn dynamic_field(a: &JsonValue, old: String) -> (r: String)
    ensures
        r@ == view_dynamic(*a, old@),
{
    match non_empty_text(str_of(member_of(Some(a), "dynamic"))) {
        Some(d) => d,
        None => old,
    }
}

fn id32_field(a: &JsonValue, key: &str, old: Option<u32>) -> (r: Option<u32>)
    ensures
        r == view_id32(*a, key@, old),
{
    match u64_of(member_of(Some(a), key)) {
        Some(m) => Some(m as u32),
        None => old,
    }
}

fn is_360_field(data: &JsonValue, old: i64) -> (r: i64)
    ensures
        r == view_is_360(*data, old),
{
    let a = archive_ref(data);
    match first_some_ref(member_of(Some(a), "rights"), member_of(Some(data), "rights")) {
        Some(rights) => match i64_of(member_of(Some(rights), "is_360")) {
            Some(x) => x,
            None => -1,
        },
        None => old,
    }
}

fn staff_field(data: &JsonValue) -> (r: Vec<Staff>)
    ensures
        staff_as(r@, view_staff(*data)),
{
    let a = archive_ref(data);
    let source = first_some_ref(
        first_some_ref(member_of(Some(data), "staffs"), member_of(Some(a), "staffs")),
        member_of(Some(data), "staff"),
    );
    match array_of(source) {
        Some(items) => parse_staff(items),
        None => Vec::new(),
    }
}

fn state_desc_field(data: &JsonValue) -> (r: Option<String>)
    ensures
        opt_text(r) == view_state_desc(*data),
{
    let a = archive_ref(data);
    match str_of(member_of(Some(a), "state_desc")) {
        Some(s) => Some(s),
        None => str_of(member_of(Some(data), "state_desc")),
    }
}

fn topic_name_field(data: &JsonValue) -> (r: Option<String>)
    ensures
        opt_text(r) == view_topic_name(*data),
{
    let a = archive_ref(data);
    let name = match str_of(member_of(Some(a), "topic_name")) {
        Some(s) => Some(s),
        None => str_of(member_of(Some(data), "topic_name")),
    };
    non_empty_text(name)
}

fn desc_v2_field(res: &JsonValue, credits: Option<Vec<Credit>>) -> (r: Vec<Credit>)
    ensures
        credit_views(r@) == view_desc_v2(
            *res,
            match credits {
                Some(c) => Some(credit_views(c@)),
                None => None,
            },
        ),
{
    if archive_desc_v2(res).is_some() {
        if let Some(c) = credits {
            return normalize_desc_v2_tokens(c);
        }
    }
    let r: Vec<Credit> = Vec::new();
    assert(credit_views(r@) =~= Seq::<CreditView>::empty());
    r
}

/// Updates a template from the editing view `res` of the platform's web
/// interface (see `archive_view_applied`); `credits` is the structured
/// description (`archive_desc_v2`) as parsed, when it parsed.
#[verifier::rlimit(50)]
pub fn apply_archive_view(
    template: &mut TemplateConfig,
    res: &JsonValue,
    credits: Option<Vec<Credit>>,
)
    ensures
        archive_view_applied(
            *final(template),
            *old(template),
            *res,
            match credits {
                Some(c) => Some(credit_views(c@)),
                None => None,
            },
        ),
{
    let data = match member_of(Some(res), "data") {
        Some(d) => d,
        None => {
            return ;
        },
    };
    let a = archive_ref(data);
    template.desc = desc_field(a, template.desc.clone());
    template.tid_v2 = tid_v2_field(a, template.tid_v2);
    template.state = i64_of(member_of(Some(a), "state"));
    template.state_desc = state_desc_field(data);
    let merged = desc_v2_field(res, credits);
    if merged.len() > 0 {
        template.desc_v2 = Some(merged);
    }
    template.dynamic = dynamic_field(a, template.dynamic.clone());
    template.mission_id = id32_field(a, "mission_id", template.mission_id);
    template.topic_id = id32_field(a, "topic_id", template.topic_id);
    if let Some(name) = topic_name_field(data) {
        template.topic_name = Some(name);
    }
    template.is_360 = is_360_field(data, template.is_360);
    let staff = staff_field(data);
    if staff.len() > 0 {
        template.staff = Some(staff);
    }
    proof {
        reveal_strlit("mission_id");
        reveal_strlit("topic_id");
    }
}

/// A user offered for an @-mention.
#[derive(Debug)]
pub struct MentionUserItem {
    /// The cached avatar's file name.
    pub face: String,
    pub fans: u64,
    pub name: String,
    pub official_verify_type: i64,
    pub uid: String,
}

/// A group of users offered for an @-mention.
#[derive(Debug)]
pub struct MentionUserGroup {
    pub group_name: String,
    pub group_type: i64,
    pub items: Vec<MentionUserItem>,
}

/// The search keyword sent: the trimmed keyword, when not empty.
pub open spec fn mention_query(keyword: Option<Seq<char>>) -> Option<Seq<char>> {
    match keyword {
        Some(k) => non_empty(Some(trim(k))),
        None => None,
    }
}

/// The keyword to send with a mention search (see `mention_query`).
pub fn mention_keyword(keyword: Option<String>) -> (r: Option<String>)
    ensures
        opt_text(r) == mention_query(opt_text(keyword)),
{
    match keyword {
        Some(k) => non_empty_text(Some(trimmed(k.as_str()))),
        None => None,
    }
}

/// The text of `v[key]`, or `default`.
pub open spec fn str_or(v: JsonValue, key: Seq<char>, default: Seq<char>) -> Seq<char> {
    match as_str(get(Some(v), key)) {
        Some(s) => s,
        None => default,
    }
}

/// The user id of a search hit (`"0"` when missing).
pub open spec fn hit_uid(item: JsonValue) -> Seq<char> {
    str_or(item, "uid"@, seq!['0'])
}

/// The avatar address of a search hit, with an explicit `https` scheme.
pub open spec fn hit_face_url(item: JsonValue) -> Seq<char> {
    face_url_normalized(str_or(item, "face"@, Seq::<char>::empty()))
}

/// `u` is the user offered for the search hit `item`.
pub open spec fn mention_item_from(u: MentionUserItem, item: JsonValue) -> bool {
    &&& u.uid@ == hit_uid(item)
    &&& u.face@ == avatar_filename(hit_face_url(item), hit_uid(item))
    &&& u.fans == (match as_u64(get(Some(item), "fans"@)) {
        Some(n) => n,
        None => 0,
    })
    &&& u.name@ == str_or(item, "name"@, Seq::<char>::empty())
    &&& u.official_verify_type == (match as_i64(get(Some(item), "official_verify_type"@)) {
        Some(n) => n,
        None => -1i64,
    })
}

/// The hits of a group (none when missing).
pub open spec fn group_hits(group: JsonValue) -> Seq<JsonValue> {
    match as_array(get(Some(group), "items"@)) {
        Some(a) => a,
        None => Seq::<JsonValue>::empty(),
    }
}

/// `g` is the group made of the JSON group `group`.
pub open spec fn mention_group_from(g: MentionUserGroup, group: JsonValue) -> bool {
    &&& g.group_name@ == str_or(group, "group_name"@, "其他"@)
    &&& g.group_type == (match as_i64(get(Some(group), "group_type"@)) {
        Some(n) => n,
        None => 0i64,
    })
    &&& g.items@.len() == group_hits(group).len()
    &&& forall|j: int|
        0 <= j < g.items@.len() ==> mention_item_from(#[trigger] g.items@[j], group_hits(group)[j])
}

/// The groups of a search reply (none when missing).
pub open spec fn reply_groups(res: JsonValue) -> Seq<JsonValue> {
    match as_array(get(get(Some(res), "data"@), "groups"@)) {
        Some(a) => a,
        None => Seq::<JsonValue>::empty(),
    }
}

/// Avatars to fetch for a list of hits: address and cached file name of
/// each hit with an address.
pub open spec fn hit_jobs(items: Seq<JsonValue>) -> Seq<(Seq<char>, Seq<char>)>
    decreases items.len(),
{
    if items.len() == 0 {
        Seq::<(Seq<char>, Seq<char>)>::empty()
    } else {
        let p = hit_jobs(items.drop_last());
        let it = items.last();
        if hit_face_url(it).len() > 0 {
            p.push((hit_face_url(it), avatar_filename(hit_face_url(it), hit_uid(it))))
        } else {
            p
        }
    }
}

/// Avatars to fetch for all groups, group after group.
pub open spec fn group_jobs(groups: Seq<JsonValue>) -> Seq<(Seq<char>, Seq<char>)>
    decreases groups.len(),
{
    if groups.len() == 0 {
        Seq::<(Seq<char>, Seq<char>)>::empty()
    } else {
        group_jobs(groups.drop_last()) + hit_jobs(group_hits(groups.last()))
    }
}

pub open spec fn job_views(v: Seq<(String, String)>) -> Seq<(Seq<char>, Seq<char>)> {
    v.map_values(|p: (String, String)| (p.0@, p.1@))
}

/// The search succeeded: its `code` is 0.
pub open spec fn mention_ok(res: JsonValue) -> bool {
    as_i64(get(Some(res), "code"@)) == Some(0i64)
}

fn mention_item(item: &JsonValue, jobs: &mut Vec<(String, String)>) -> (u: MentionUserItem)
    ensures
        mention_item_from(u, *item),
        job_views(final(jobs)@) == job_views(old(jobs)@) + (if hit_face_url(*item).len() > 0 {
            seq![(hit_face_url(*item), avatar_filename(hit_face_url(*item), hit_uid(*item)))]
        } else {
            Seq::<(Seq<char>, Seq<char>)>::empty()
        }),
{
    proof {
        reveal_strlit("0");
    }
    let uid = match str_of(member_of(Some(item), "uid")) {
        Some(s) => s,
        None => "0".to_string(),
    };
    let raw_face = match str_of(member_of(Some(item), "face")) {
        Some(s) => s,
        None => String::new(),
    };
    assert(uid@ == hit_uid(*item));
    assert(raw_face@ == str_or(*item, "face"@, Seq::<char>::empty()));
    let face_url = normalize_face_url(raw_face.as_str());
    let face = extract_avatar_filename(face_url.as_str(), uid.as_str());
    assert(face_url@ == hit_face_url(*item));
    let ghost before = job_views(jobs@);
    if face_url.unicode_len() > 0 {
        jobs.push((face_url, face.clone()));
        assert(job_views(jobs@) =~= before + seq![(hit_face_url(*item), face@)]);
    } else {
        assert(job_views(jobs@) =~= before + Seq::<(Seq<char>, Seq<char>)>::empty());
    }
    MentionUserItem {
        face,
        fans: match u64_of(member_of(Some(item), "fans")) {
            Some(n) => n,
            None => 0,
        },
        name: match str_of(member_of(Some(item), "name")) {
            Some(s) => s,
            None => String::new(),
        },
        official_verify_type: match i64_of(member_of(Some(item), "official_verify_type")) {
            Some(n) => n,
            None => -1,
        },
        uid,
    }
}

fn mention_group(group: &JsonValue, jobs: &mut Vec<(String, String)>) -> (g: MentionUserGroup)
    ensures
        mention_group_from(g, *group),
        job_views(final(jobs)@) == job_views(old(jobs)@) + hit_jobs(group_hits(*group)),
{
    proof {
        reveal_strlit("其他");
    }
    let empty: Vec<JsonValue> = Vec::new();
    let hits = match array_of(member_of(Some(group), "items")) {
        Some(a) => a,
        None => &empty,
    };
    assert(hits@ == group_hits(*group));
    let mut items: Vec<MentionUserItem> = Vec::new();
    let mut j: usize = 0;
    while j < hits.len()
        invariant
            j <= hits@.len(),
            hits@ == group_hits(*group),
            items@.len() == j,
            forall|k: int| 0 <= k < j ==> mention_item_from(#[trigger] items@[k], hits@[k]),
            job_views(jobs@) == job_views(old(jobs)@) + hit_jobs(hits@.subrange(0, j as int)),
        decreases hits@.len() - j,
    {
        assert(hits@.subrange(0, j + 1).drop_last() =~= hits@.subrange(0, j as int));
        let u = mention_item(&hits[j], jobs);
        items.push(u);
        j = j + 1;
    }
    assert(hits@.subrange(0, hits@.len() as int) =~= hits@);
    MentionUserGroup {
        group_name: match str_of(member_of(Some(group), "group_name")) {
            Some(s) => s,
            None => "其他".to_string(),
        },
        group_type: match i64_of(member_of(Some(group), "group_type")) {
            Some(n) => n,
            None => 0,
        },
        items,
    }
}

pub open spec fn mention_error_message(res: JsonValue) -> Seq<char> {
    str_or(res, "message"@, "搜索用户失败"@)
}

/// The groups of a mention-search reply, and the avatars to fetch
/// (address, cached file name); a reply whose `code` is not 0 is the
/// platform's refusal, with its message.
pub fn parse_mention_reply(res: &JsonValue) -> (r: Result<
    (Vec<MentionUserGroup>, Vec<(String, String)>),
    AppError,
>)
    ensures
        match r {
            Ok((groups, jobs)) => {
                &&& mention_ok(*res)
                &&& groups@.len() == reply_groups(*res).len()
                &&& forall|i: int|
                    0 <= i < groups@.len() ==> mention_group_from(
                        #[trigger] groups@[i],
                        reply_groups(*res)[i],
                    )
                &&& job_views(jobs@) == group_jobs(reply_groups(*res))
            },
            Err(e) => !mention_ok(*res) && (e matches AppError::Biliup(m) && m@
                == mention_error_message(*res)),
        },
{
    proof {
        reveal_strlit("搜索用户失败");
    }
    let code = match i64_of(member_of(Some(res), "code")) {
        Some(c) => c,
        None => -1,
    };
    if code != 0 {
        let msg = match str_of(member_of(Some(res), "message")) {
            Some(s) => s,
            None => "搜索用户失败".to_string(),
        };
        return Err(AppError::Biliup(msg));
    }
    let empty: Vec<JsonValue> = Vec::new();
    let gs = match array_of(member_of(member_of(Some(res), "data"), "groups")) {
        Some(a) => a,
        None => &empty,
    };
    assert(gs@ == reply_groups(*res));
    let mut groups: Vec<MentionUserGroup> = Vec::new();
    let mut jobs: Vec<(String, String)> = Vec::new();
    let mut i: usize = 0;
    assert(job_views(jobs@) =~= Seq::<(Seq<char>, Seq<char>)>::empty());
    while i < gs.len()
        invariant
            i <= gs@.len(),
            gs@ == reply_groups(*res),
            groups@.len() == i,
            forall|k: int| 0 <= k < i ==> mention_group_from(#[trigger] groups@[k], gs@[k]),
            job_views(jobs@) == group_jobs(gs@.subrange(0, i as int)),
        decreases gs@.len() - i,
    {
        assert(gs@.subrange(0, i + 1).drop_last() =~= gs@.subrange(0, i as int));
        let g = mention_group(&gs[i], &mut jobs);
        groups.push(g);
        i = i + 1;
    }
    assert(gs@.subrange(0, gs@.len() as int) =~= gs@);
    Ok((groups, jobs))
}

/// A video of the user's, as listed (with its publication times).
#[derive(Debug)]
pub struct ArchiveListItem {
    pub aid: u64,
    pub bvid: String,
    pub title: String,
    pub state: i16,
    pub state_desc: String,
    pub dtime: u64,
    pub ptime: u64,
}

/// The archive list query: the states asked for (by default the published
/// ones, "pubed") and the first page (by default 1).
pub fn archive_query(status: Option<String>, from_page: Option<u32>) -> (r: (String, u32))
    ensures
        r.0@ == (match status {
            Some(s) => s@,
            None => "pubed"@,
        }),
        r.1 == (match from_page {
            Some(p) => p,
            None => 1,
        }),
{
    let s = match status {
        Some(s) => s,
        None => "pubed".to_string(),
    };
    let p = match from_page {
        Some(p) => p,
        None => 1,
    };
    (s, p)
}

/// The category data of the submission page: the `data` of the first reply
/// (null when missing), with `type_list_v2` set to the second reply's
/// `data.type_list` (null when missing) when that reply's `code` is 0.
pub open spec fn archive_pre_result(pre: JsonValue, types: Option<JsonValue>, r: JsonValue) -> bool {
    let data = match get(Some(pre), "data"@) {
        Some(d) => d,
        None => JsonValue::Null,
    };
    let list = match get(get(types, "data"@), "type_list"@) {
        Some(l) => l,
        None => JsonValue::Null,
    };
    if types is Some && as_i64(get(types, "code"@)) == Some(0i64) {
        &&& r is Object
        &&& get(Some(r), "type_list_v2"@) == Some(list)
        &&& forall|k: Seq<char>| k != "type_list_v2"@ ==> get(Some(r), k) == get(Some(data), k)
    } else {
        r == data
    }
}

/// The category data of the submission page (see `archive_pre_result`);
/// `types` is the reply of the new-style category list, when it came and
/// parsed.
pub fn archive_pre_with_types(pre: JsonValue, types: Option<JsonValue>) -> (r: JsonValue)
    requires
        types matches Some(t) && as_i64(get(Some(t), "code"@)) == Some(0i64) ==> (match get(
            Some(pre),
            "data"@,
        ) {
            Some(d) => d is Null || d is Object,
            None => true,
        }),
    ensures
        archive_pre_result(pre, types, r),
{
    let ghost pre0 = pre;
    let ghost types0 = types;
    let data = match crate::json::into_member(pre, "data") {
        Some(d) => d,
        None => JsonValue::Null,
    };
    let t = match types {
        Some(t) => t,
        None => {
            return data;
        },
    };
    if !crate::season::reply_code_ok(&t) {
        return data;
    }
    let list = match crate::json::into_member(t, "data") {
        Some(d) => match crate::json::into_member(d, "type_list") {
            Some(l) => l,
            None => JsonValue::Null,
        },
        None => JsonValue::Null,
    };
    let ghost d0 = data;
    let mut members: Vec<(String, JsonValue)> = match data {
        JsonValue::Object(m) => m,
        _ => Vec::new(),
    };
    let ghost before = members@;
    crate::json::set_member(&mut members, "type_list_v2", list);
    let r = JsonValue::Object(members);
    proof {
        assert forall|k: Seq<char>| k != "type_list_v2"@ implies get(Some(r), k) == get(
            Some(d0),
            k,
        ) by {
            if d0 is Null {
                crate::json::lemma_member_absent(before, k);
            }
        }
    }
    r
}

/// The value at a path of keys (null when a step is missing).
pub open spec fn value_at(v: JsonValue, path: Seq<Seq<char>>) -> JsonValue
    decreases path.len(),
{
    if path.len() == 0 {
        v
    } else {
        match get(Some(v), path[0]) {
            Some(x) => value_at(x, path.subrange(1, path.len() as int)),
            None => JsonValue::Null,
        }
    }
}

/// The topics of the topic-list reply: `data.topics`.
pub fn topic_list(res: JsonValue) -> (r: JsonValue)
    ensures
        r == value_at(res, seq!["data"@, "topics"@]),
{
    proof {
        reveal_with_fuel(value_at, 3);
    }
    let ghost path = seq!["data"@, "topics"@];
    assert(path.subrange(1, 2) =~= seq!["topics"@]);
    assert(seq!["topics"@].subrange(1, 1) =~= Seq::<Seq<char>>::empty());
    match crate::json::into_member(res, "data") {
        Some(d) => match crate::json::into_member(d, "topics") {
            Some(t) => t,
            None => JsonValue::Null,
        },
        None => JsonValue::Null,
    }
}

/// The topics of a topic search reply: `data.result.topics`.
pub fn topic_search_result(res: JsonValue) -> (r: JsonValue)
    ensures
        r == value_at(res, seq!["data"@, "result"@, "topics"@]),
{
    proof {
        reveal_with_fuel(value_at, 4);
    }
    let ghost path = seq!["data"@, "result"@, "topics"@];
    assert(path.subrange(1, 3) =~= seq!["result"@, "topics"@]);
    assert(seq!["result"@, "topics"@].subrange(1, 2) =~= seq!["topics"@]);
    assert(seq!["topics"@].subrange(1, 1) =~= Seq::<Seq<char>>::empty());
    match crate::json::into_member(res, "data") {
        Some(d) => match crate::json::into_member(d, "result") {
            Some(x) => match crate::json::into_member(x, "topics") {
                Some(t) => t,
                None => JsonValue::Null,
            },
            None => JsonValue::Null,
        },
        None => JsonValue::Null,
    }
}

} // verus!
