//! Seasons (collections of videos): the list offered to the user, the
//! requests that add a video to one, and the steps taken after a submission
//! to put the video into the season its template names.
use crate::config::TemplateConfig;
use crate::error::AppError;
use crate::json::{
    array_of, as_array, as_i64, as_str, as_u64, get, lemma_member_at, member_of, number_u64,
    opt_val, str_of, u64_of, JsonValue,
};
use crate::text::concat2;
use vstd::prelude::*;

verus! {

/// A section of a season, as offered to the user.
#[derive(Debug)]
pub struct SeasonSection {
    /// The section's id; none when the platform gave 0 or nothing.
    pub section_id: Option<u64>,
    pub title: String,
}

/// A season, as offered to the user.
#[derive(Debug)]
pub struct SeasonEntry {
    pub season_id: Option<u64>,
    /// The first section's id: where a video goes by default.
    pub section_id: Option<u64>,
    pub title: String,
    pub sections: Vec<SeasonSection>,
}

/// An id, where 0 means none.
pub open spec fn nonzero(x: u64) -> Option<u64> {
    if x != 0 {
        Some(x)
    } else {
        None
    }
}

fn nonzero_id(x: u64) -> (r: Option<u64>)
    ensures
        r == nonzero(x),
{
    if x != 0 {
        Some(x)
    } else {
        None
    }
}

pub open spec fn u64_or_zero(v: Option<JsonValue>) -> u64 {
    match as_u64(v) {
        Some(x) => x,
        None => 0,
    }
}

pub open spec fn array_or_empty(v: Option<JsonValue>) -> Seq<JsonValue> {
    match as_array(v) {
        Some(a) => a,
        None => Seq::<JsonValue>::empty(),
    }
}

/// The title of a season entry of the reply (empty when missing).
pub open spec fn season_title(season: JsonValue) -> Seq<char> {
    match as_str(get(get(Some(season), "season"@), "title"@)) {
        Some(t) => t,
        None => Seq::<char>::empty(),
    }
}

/// The sections of a season entry of the reply.
pub open spec fn season_sections(season: JsonValue) -> Seq<JsonValue> {
    array_or_empty(get(get(Some(season), "sections"@), "sections"@))
}

/// `s` is the section made of `section`; a section without a title takes
/// the season's.
pub open spec fn section_from(s: SeasonSection, section: JsonValue, season_title: Seq<char>) -> bool {
    &&& s.section_id == nonzero(u64_or_zero(get(Some(section), "id"@)))
    &&& s.title@ == (match as_str(get(Some(section), "title"@)) {
        Some(t) => t,
        None => season_title,
    })
}

/// `e` is the season made of the reply entry `season`.
pub open spec fn season_from(e: SeasonEntry, season: JsonValue) -> bool {
    let secs = season_sections(season);
    &&& e.season_id == nonzero(u64_or_zero(get(get(Some(season), "season"@), "id"@)))
    &&& e.title@ == season_title(season)
    &&& e.sections@.len() == secs.len()
    &&& forall|j: int|
        0 <= j < secs.len() ==> section_from(#[trigger] e.sections@[j], secs[j], season_title(season))
    &&& e.section_id == (if secs.len() > 0 {
        e.sections@[0].section_id
    } else {
        None
    })
}

/// The seasons of a season-list reply (none when missing).
pub open spec fn reply_seasons(res: JsonValue) -> Seq<JsonValue> {
    array_or_empty(get(get(Some(res), "data"@), "seasons"@))
}

fn season_entry(season: &JsonValue) -> (e: SeasonEntry)
    ensures
        season_from(e, *season),
{
    let info = member_of(Some(season), "season");
    let title = match str_of(member_of(info, "title")) {
        Some(t) => t,
        None => String::new(),
    };
    let season_id = match u64_of(member_of(info, "id")) {
        Some(x) => x,
        None => 0,
    };
    let empty: Vec<JsonValue> = Vec::new();
    let secs = match array_of(member_of(member_of(Some(season), "sections"), "sections")) {
        Some(a) => a,
        None => &empty,
    };
    assert(secs@ == season_sections(*season));
    let mut sections: Vec<SeasonSection> = Vec::new();
    let mut j: usize = 0;
    while j < secs.len()
        invariant
            j <= secs@.len(),
            secs@ == season_sections(*season),
            title@ == season_title(*season),
            sections@.len() == j,
            forall|k: int|
                0 <= k < j ==> section_from(#[trigger] sections@[k], secs@[k], season_title(*season)),
        decreases secs@.len() - j,
    {
        let sec = &secs[j];
        let id = match u64_of(member_of(Some(sec), "id")) {
            Some(x) => x,
            None => 0,
        };
        let sec_title = match str_of(member_of(Some(sec), "title")) {
            Some(t) => t,
            None => title.clone(),
        };
        sections.push(SeasonSection { section_id: nonzero_id(id), title: sec_title });
        j = j + 1;
    }
    let section_id = if sections.len() > 0 {
        sections[0].section_id
    } else {
        None
    };
    SeasonEntry { season_id: nonzero_id(season_id), section_id, title, sections }
}

/// The seasons of a season-list reply, each with its sections.
pub fn parse_season_list(res: &JsonValue) -> (r: Vec<SeasonEntry>)
    ensures
        r@.len() == reply_seasons(*res).len(),
        forall|i: int| 0 <= i < r@.len() ==> season_from(#[trigger] r@[i], reply_seasons(*res)[i]),
{
    let empty: Vec<JsonValue> = Vec::new();
    let seasons = match array_of(member_of(member_of(Some(res), "data"), "seasons")) {
        Some(a) => a,
        None => &empty,
    };
    assert(seasons@ == reply_seasons(*res));
    let mut r: Vec<SeasonEntry> = Vec::new();
    let mut i: usize = 0;
    while i < seasons.len()
        invariant
            i <= seasons@.len(),
            seasons@ == reply_seasons(*res),
            r@.len() == i,
            forall|k: int| 0 <= k < i ==> season_from(#[trigger] r@[k], seasons@[k]),
        decreases seasons@.len() - i,
    {
        r.push(season_entry(&seasons[i]));
        i = i + 1;
    }
    r
}

/// The season a video is in, from the platform's reply: `data.id`, 0 when
/// it is in none.
pub fn video_season_id(res: &JsonValue) -> (r: u64)
    ensures
        r == u64_or_zero(get(get(Some(*res), "data"@), "id"@)),
{
    match u64_of(member_of(member_of(Some(res), "data"), "id")) {
        Some(x) => x,
        None => 0,
    }
}

/// A platform reply reports success: its `code` is 0.
pub open spec fn reply_ok(res: JsonValue) -> bool {
    as_i64(get(Some(res), "code"@)) == Some(0i64)
}

/// Whether a platform reply reports success (see `reply_ok`).
pub fn reply_code_ok(res: &JsonValue) -> (b: bool)
    ensures
        b == reply_ok(*res),
{
    match crate::json::i64_of(member_of(Some(res), "code")) {
        Some(c) => c == 0,
        None => false,
    }
}

/// The JSON number `n`.
pub open spec fn num(n: u64) -> JsonValue {
    JsonValue::Number(
        crate::json::JsonNumber {
            as_u64: Some(n),
            as_i64: if n <= i64::MAX as u64 {
                Some(n as i64)
            } else {
                None
            },
            other: None,
        },
    )
}

/// The JSON form of an optional id: the number, or null.
pub open spec fn id_or_null(x: Option<u64>) -> JsonValue {
    match x {
        Some(n) => num(n),
        None => JsonValue::Null,
    }
}

/// The address of a season request (without its query).
pub open spec fn season_endpoint(add: bool) -> Seq<char> {
    if add {
        "https://member.bilibili.com/x2/creative/web/season/section/episodes/add"@
    } else {
        "https://member.bilibili.com/x2/creative/web/season/switch"@
    }
}

fn string_value(s: &str) -> (r: JsonValue)
    ensures
        r matches JsonValue::Str(x) && x@ == s@,
{
    JsonValue::Str(s.to_string())
}

fn id_value(x: u64) -> (r: JsonValue)
    ensures
        r == id_or_null(nonzero(x)),
{
    if x != 0 {
        number_u64(x)
    } else {
        JsonValue::Null
    }
}

/// The keys of a JSON object, in order.
pub open spec fn object_keys(v: JsonValue) -> Seq<Seq<char>> {
    match v {
        JsonValue::Object(m) => m@.map_values(|p: (String, JsonValue)| p.0@),
        _ => Seq::<Seq<char>>::empty(),
    }
}

/// `ep` is the episode entry of `title`, `aid` and `cid`.
pub open spec fn is_episode(ep: JsonValue, title: Seq<char>, aid: u64, cid: u64) -> bool {
    &&& object_keys(ep) == seq!["title"@, "aid"@, "cid"@]
    &&& as_str(get(Some(ep), "title"@)) == Some(title)
    &&& get(Some(ep), "aid"@) == Some(num(aid))
    &&& get(Some(ep), "cid"@) == Some(num(cid))
}

/// `body` is the body of a season request: when `add`, the video is added
/// as an episode (title and ids) to section `section_id`; otherwise it is
/// moved to season `season_id`, section `section_id`, a 0 id sent as null.
/// Both carry the CSRF token.
pub open spec fn is_season_body(
    body: JsonValue,
    aid: u64,
    cid: u64,
    season_id: u64,
    section_id: u64,
    title: Seq<char>,
    add: bool,
    csrf: Seq<char>,
) -> bool {
    if add {
        &&& object_keys(body) == seq!["episodes"@, "sectionId"@, "csrf"@]
        &&& as_array(get(Some(body), "episodes"@)) matches Some(eps) && eps.len() == 1
            && is_episode(eps[0], title, aid, cid)
        &&& get(Some(body), "sectionId"@) == Some(num(section_id))
        &&& as_str(get(Some(body), "csrf"@)) == Some(csrf)
    } else {
        &&& object_keys(body) == seq![
            "season_id"@,
            "section_id"@,
            "title"@,
            "aid"@,
            "cid"@,
            "csrf"@,
        ]
        &&& get(Some(body), "season_id"@) == Some(id_or_null(nonzero(season_id)))
        &&& get(Some(body), "section_id"@) == Some(id_or_null(nonzero(section_id)))
        &&& as_str(get(Some(body), "title"@)) == Some(title)
        &&& get(Some(body), "aid"@) == Some(num(aid))
        &&& get(Some(body), "cid"@) == Some(num(cid))
        &&& as_str(get(Some(body), "csrf"@)) == Some(csrf)
    }
}

/// The request that puts a video (`aid`, part `cid`) into a season (see
/// `is_season_body`): its address (without the query) and JSON body.
pub fn season_request(
    aid: u64,
    cid: u64,
    season_id: u64,
    section_id: u64,
    title: &str,
    add: bool,
    csrf: &str,
) -> (r: (String, JsonValue))
    ensures
        r.0@ == season_endpoint(add),
        is_season_body(r.1, aid, cid, season_id, section_id, title@, add, csrf@),
{
    proof {
        reveal_strlit("https://member.bilibili.com/x2/creative/web/season/section/episodes/add");
        reveal_strlit("https://member.bilibili.com/x2/creative/web/season/switch");
        reveal_strlit("title");
        reveal_strlit("aid");
        reveal_strlit("cid");
        reveal_strlit("episodes");
        reveal_strlit("sectionId");
        reveal_strlit("csrf");
        reveal_strlit("season_id");
        reveal_strlit("section_id");
    }
    if add {
        let episode = JsonValue::Object(
            vec![
                ("title".to_string(), string_value(title)),
                ("aid".to_string(), number_u64(aid)),
                ("cid".to_string(), number_u64(cid)),
            ],
        );
        assert(object_keys(episode) =~= seq!["title"@, "aid"@, "cid"@]);
        proof {
            let m = crate::json::members_of(episode);
            lemma_member_at(m, "title"@, 0);
            assert("title"@.len() == 5 && "aid"@.len() == 3 && "cid"@.len() == 3);
            assert("aid"@[0] != "cid"@[0]);
            lemma_member_at(m, "aid"@, 1);
            lemma_member_at(m, "cid"@, 2);
        }
        let body = JsonValue::Object(
            vec![
                ("episodes".to_string(), JsonValue::Array(vec![episode])),
                ("sectionId".to_string(), number_u64(section_id)),
                ("csrf".to_string(), string_value(csrf)),
            ],
        );
        assert(object_keys(body) =~= seq!["episodes"@, "sectionId"@, "csrf"@]);
        proof {
            let m = crate::json::members_of(body);
            assert("episodes"@.len() == 8 && "sectionId"@.len() == 9 && "csrf"@.len() == 4);
            lemma_member_at(m, "episodes"@, 0);
            lemma_member_at(m, "sectionId"@, 1);
            lemma_member_at(m, "csrf"@, 2);
        }
        (
            "https://member.bilibili.com/x2/creative/web/season/section/episodes/add".to_string(),
            body,
        )
    } else {
        let body = JsonValue::Object(
            vec![
                ("season_id".to_string(), id_value(season_id)),
                ("section_id".to_string(), id_value(section_id)),
                ("title".to_string(), string_value(title)),
                ("aid".to_string(), number_u64(aid)),
                ("cid".to_string(), number_u64(cid)),
                ("csrf".to_string(), string_value(csrf)),
            ],
        );
        assert(object_keys(body) =~= seq![
            "season_id"@,
            "section_id"@,
            "title"@,
            "aid"@,
            "cid"@,
            "csrf"@,
        ]);
        proof {
            let m = crate::json::members_of(body);
            lemma_member_at(m, "season_id"@, 0);
            assert("season_id"@.len() == 9 && "section_id"@.len() == 10 && "title"@.len() == 5);
            assert("aid"@.len() == 3 && "cid"@.len() == 3 && "csrf"@.len() == 4);
            assert("aid"@[0] != "cid"@[0]);
            lemma_member_at(m, "section_id"@, 1);
            lemma_member_at(m, "title"@, 2);
            lemma_member_at(m, "aid"@, 3);
            lemma_member_at(m, "cid"@, 4);
            lemma_member_at(m, "csrf"@, 5);
        }
        ("https://member.bilibili.com/x2/creative/web/season/switch".to_string(), body)
    }
}

/// What became of putting a submitted video into its season.
#[derive(Debug)]
pub struct SeasonOutcome {
    /// Whether anything was tried.
    pub attempted: bool,
    /// Whether it worked (a failure does not fail the submission).
    pub ok: bool,
    /// Why it failed.
    pub message: String,
    /// The season the video was in (0: none).
    pub old_season_id: u64,
    /// The season the template names.
    pub new_season_id: u64,
}

impl Default for SeasonOutcome {
    /// Nothing attempted, nothing failed.
    fn default() -> (r: Self)
        ensures
            !r.attempted,
            r.ok,
            r.message@ == Seq::<char>::empty(),
            r.old_season_id == 0,
            r.new_season_id == 0,
    {
        SeasonOutcome {
            attempted: false,
            ok: true,
            message: String::new(),
            old_season_id: 0,
            new_season_id: 0,
        }
    }
}

/// The next thing to do for the season of a submitted video.
#[derive(Debug, PartialEq, Eq)]
pub enum SeasonAction {
    /// Nothing more: the outcome is final.
    Finish,
    /// Ask the platform which season the video `aid` is in now.
    LookUpSeason { aid: u64 },
    /// Ask the platform for the first part id (cid) of the video `aid`.
    LookUpCid { aid: u64 },
    /// Put the video into the season: add it as a new episode titled
    /// `title` (`add`, when it was in no season) or move it.
    Switch { aid: u64, cid: u64, season_id: u64, section_id: u64, title: String, add: bool },
}

/// Where the work on a submitted video's season stands.
pub struct SeasonSync {
    pub outcome: SeasonOutcome,
    /// The video.
    pub aid: u64,
    /// The season and section the template names (0: none).
    pub season_id: u64,
    pub section_id: u64,
    /// The first part's id as the template saved it (0: unknown).
    pub saved_cid: u64,
    /// The video's title, as the template gives it.
    pub title: String,
}

impl SeasonSync {
    /// A failed step always says why, and nothing fails unless something
    /// was attempted.
    pub open spec fn consistent(&self) -> bool {
        &&& !self.outcome.ok ==> self.outcome.message@.len() > 0 && self.outcome.attempted
        &&& !self.outcome.attempted ==> self.outcome.ok
    }

    /// The first step after a submission of `form` whose reply data is
    /// `data`: the video is `form.aid`, else the reply's `aid`. Without a
    /// video, or for a new video whose template names no season, nothing is
    /// attempted; otherwise the video's current season is looked up.
    pub fn start(form: &TemplateConfig, data: &JsonValue) -> (r: (SeasonSync, SeasonAction))
        ensures
            r.0.consistent(),
            r.0.outcome.new_season_id == (match form.season_id {
                Some(x) => x,
                None => 0,
            }),
            r.0.outcome.old_season_id == 0,
            r.0.outcome.ok,
            r.0.season_id == r.0.outcome.new_season_id,
            r.0.section_id == (match form.section_id {
                Some(x) => x,
                None => 0,
            }),
            r.0.saved_cid == (if form.videos@.len() > 0 {
                form.videos@[0].cid
            } else {
                0
            }),
            r.0.title == form.title,
            ({
                let aid = first_some_u64(form.aid, as_u64(get(Some(*data), "aid"@)));
                if aid is None || (form.aid is None && r.0.season_id == 0) {
                    !r.0.outcome.attempted && r.0.outcome.message@ == Seq::<char>::empty() && r.1 is Finish
                } else {
                    r.0.outcome.attempted && r.0.aid == aid->0 && r.1 == (SeasonAction::LookUpSeason {
                        aid: aid->0,
                    })
                }
            }),
    {
        let season_id = match form.season_id {
            Some(x) => x,
            None => 0,
        };
        let section_id = match form.section_id {
            Some(x) => x,
            None => 0,
        };
        let saved_cid = if form.videos.len() > 0 {
            form.videos[0].cid
        } else {
            0
        };
        let title = form.title.clone();
        let mut outcome = SeasonOutcome::default();
        outcome.new_season_id = season_id;
        let aid = match form.aid {
            Some(a) => Some(a),
            None => u64_of(member_of(Some(data), "aid")),
        };
        match aid {
            None => (SeasonSync { outcome, aid: 0, season_id, section_id, saved_cid, title }, SeasonAction::Finish),
            Some(a) => {
                if form.aid.is_none() && season_id == 0 {
                    (
                        SeasonSync { outcome, aid: a, season_id, section_id, saved_cid, title },
                        SeasonAction::Finish,
                    )
                } else {
                    outcome.attempted = true;
                    (
                        SeasonSync { outcome, aid: a, season_id, section_id, saved_cid, title },
                        SeasonAction::LookUpSeason { aid: a },
                    )
                }
            },
        }
    }

    /// After the look-up of the video's current season (`lookup`: the
    /// season id, or the failure's text). A failed look-up fails the step;
    /// a video already in the season is done; otherwise it is switched,
    /// with the saved part id when there is one, else after looking it up.
    pub fn after_season_lookup(self, lookup: Result<u64, String>) -> (r: (SeasonSync, SeasonAction))
        requires
            self.consistent(),
            self.outcome.attempted,
        ensures
            r.0.consistent(),
            r.0.aid == self.aid,
            r.0.season_id == self.season_id,
            r.0.section_id == self.section_id,
            r.0.saved_cid == self.saved_cid,
            r.0.title == self.title,
            r.0.outcome.attempted,
            r.0.outcome.new_season_id == self.outcome.new_season_id,
            match lookup {
                Err(e) => !r.0.outcome.ok && r.0.outcome.message@ == season_lookup_failed(e@)
                    && r.0.outcome.old_season_id == self.outcome.old_season_id && r.1 is Finish,
                Ok(old) => {
                    &&& r.0.outcome.old_season_id == old
                    &&& r.0.outcome.ok == self.outcome.ok
                    &&& r.0.outcome.message == self.outcome.message
                    &&& if old == self.season_id {
                        r.1 is Finish
                    } else if self.saved_cid > 0 {
                        r.1 == (SeasonAction::Switch {
                            aid: self.aid,
                            cid: self.saved_cid,
                            season_id: self.season_id,
                            section_id: self.section_id,
                            title: self.title,
                            add: old == 0,
                        })
                    } else {
                        r.1 == (SeasonAction::LookUpCid { aid: self.aid })
                    }
                },
            },
    {
        proof {
            reveal_strlit("查询稿件当前合集失败: ");
        }
        let mut s = self;
        match lookup {
            Err(e) => {
                s.outcome.ok = false;
                s.outcome.message = concat2("查询稿件当前合集失败: ", e.as_str());
                (s, SeasonAction::Finish)
            },
            Ok(old) => {
                s.outcome.old_season_id = old;
                if old == s.season_id {
                    (s, SeasonAction::Finish)
                } else if s.saved_cid > 0 {
                    let action = SeasonAction::Switch {
                        aid: s.aid,
                        cid: s.saved_cid,
                        season_id: s.season_id,
                        section_id: s.section_id,
                        title: s.title.clone(),
                        add: old == 0,
                    };
                    (s, action)
                } else {
                    let aid = s.aid;
                    (s, SeasonAction::LookUpCid { aid })
                }
            },
        }
    }

    /// After the look-up of the video's part id (`lookup`: the id, or the
    /// failure's text): a positive id leads to the switch, anything else
    /// fails the step.
    pub fn after_cid_lookup(self, lookup: Result<u64, String>) -> (r: (SeasonSync, SeasonAction))
        requires
            self.consistent(),
            self.outcome.attempted,
        ensures
            r.0.consistent(),
            r.0.aid == self.aid,
            r.0.season_id == self.season_id,
            r.0.section_id == self.section_id,
            r.0.saved_cid == self.saved_cid,
            r.0.title == self.title,
            r.0.outcome.attempted,
            r.0.outcome.old_season_id == self.outcome.old_season_id,
            r.0.outcome.new_season_id == self.outcome.new_season_id,
            match lookup {
                Ok(c) if c > 0 => r.0.outcome.ok == self.outcome.ok && r.0.outcome.message
                    == self.outcome.message && r.1 == (SeasonAction::Switch {
                    aid: self.aid,
                    cid: c,
                    season_id: self.season_id,
                    section_id: self.section_id,
                    title: self.title,
                    add: self.outcome.old_season_id == 0,
                }),
                _ => !r.0.outcome.ok && r.0.outcome.message@ == no_cid_message() && r.1 is Finish,
            },
    {
        proof {
            reveal_strlit("加入合集失败：未能获取稿件 cid");
        }
        let mut s = self;
        match lookup {
            Ok(c) if c > 0 => {
                let action = SeasonAction::Switch {
                    aid: s.aid,
                    cid: c,
                    season_id: s.season_id,
                    section_id: s.section_id,
                    title: s.title.clone(),
                    add: s.outcome.old_season_id == 0,
                };
                (s, action)
            },
            _ => {
                s.outcome.ok = false;
                s.outcome.message = "加入合集失败：未能获取稿件 cid".to_string();
                (s, SeasonAction::Finish)
            },
        }
    }

    /// After the switch (`result`: done, or the failure's text): the final
    /// outcome.
    pub fn after_switch(self, result: Result<(), String>) -> (r: SeasonOutcome)
        requires
            self.consistent(),
            self.outcome.attempted,
        ensures
            r.attempted,
            r.old_season_id == self.outcome.old_season_id,
            r.new_season_id == self.outcome.new_season_id,
            match result {
                Ok(()) => r.ok && r.message == self.outcome.message,
                Err(e) => !r.ok && r.message@ == season_switch_failed(e@),
            },
    {
        proof {
            reveal_strlit("设置合集失败: ");
        }
        let mut o = self.outcome;
        match result {
            Ok(()) => {
                o.ok = true;
            },
            Err(e) => {
                o.ok = false;
                o.message = concat2("设置合集失败: ", e.as_str());
            },
        }
        o
    }
}

pub open spec fn first_some_u64(a: Option<u64>, b: Option<u64>) -> Option<u64> {
    if a is Some {
        a
    } else {
        b
    }
}

pub open spec fn season_lookup_failed(e: Seq<char>) -> Seq<char> {
    "查询稿件当前合集失败: "@ + e
}

pub open spec fn season_switch_failed(e: Seq<char>) -> Seq<char> {
    "设置合集失败: "@ + e
}

pub open spec fn no_cid_message() -> Seq<char> {
    "加入合集失败：未能获取稿件 cid"@
}

/// What a submission gives back: the platform's reply data, the local
/// source files deleted after it, and what became of its season. Neither a
/// failed deletion nor a failed season step fails the submission.
#[derive(Debug)]
pub struct SubmitOutcome {
    pub data: JsonValue,
    pub deleted_file_paths: Vec<String>,
    pub season: SeasonOutcome,
}

/// The paths, trimmed, without the blank ones.
pub open spec fn delete_targets(paths: Seq<Seq<char>>) -> Seq<Seq<char>>
    decreases paths.len(),
{
    if paths.len() == 0 {
        Seq::<Seq<char>>::empty()
    } else {
        let rest = delete_targets(paths.drop_last());
        if crate::text::trim(paths.last()).len() == 0 {
            rest
        } else {
            rest.push(crate::text::trim(paths.last()))
        }
    }
}

/// The paths whose deletion happened (`Ok(true)`); skipped and failed ones
/// are left out.
pub open spec fn deleted_paths(results: Seq<(String, Result<bool, String>)>) -> Seq<Seq<char>>
    decreases results.len(),
{
    if results.len() == 0 {
        Seq::<Seq<char>>::empty()
    } else {
        let rest = deleted_paths(results.drop_last());
        if results.last().1 == Ok::<bool, String>(true) {
            rest.push(results.last().0@)
        } else {
            rest
        }
    }
}

/// The local source files to delete after a submission, from the original
/// file paths of its videos: each trimmed, blank ones skipped.
pub fn files_to_delete(paths: &Vec<String>) -> (r: Vec<String>)
    ensures
        r@.map_values(|s: String| s@) == delete_targets(paths@.map_values(|s: String| s@)),
{
    let ghost ps = paths@.map_values(|s: String| s@);
    let mut r: Vec<String> = Vec::new();
    let mut i: usize = 0;
    while i < paths.len()
        invariant
            i <= paths@.len(),
            ps == paths@.map_values(|s: String| s@),
            r@.map_values(|s: String| s@) == delete_targets(ps.subrange(0, i as int)),
        decreases paths@.len() - i,
    {
        assert(ps.subrange(0, i + 1).drop_last() =~= ps.subrange(0, i as int));
        assert(ps.subrange(0, i + 1).last() == paths@[i as int]@);
        let t = crate::text::trimmed(paths[i].as_str());
        if t.unicode_len() > 0 {
            let ghost before = r@.map_values(|s: String| s@);
            r.push(t);
            assert(r@.map_values(|s: String| s@) =~= before.push(crate::text::trim(paths@[i as int]@)));
        }
        i = i + 1;
    }
    assert(ps.subrange(0, ps.len() as int) =~= ps);
    r
}

/// The outcome of a submission whose reply data is `data`, given how each
/// deletion went (`Ok(true)`: deleted, `Ok(false)`: skipped, `Err`: failed)
/// and the season outcome: always an outcome, never an error.
pub fn submit_outcome(
    data: JsonValue,
    deletions: &Vec<(String, Result<bool, String>)>,
    season: SeasonOutcome,
) -> (r: SubmitOutcome)
    ensures
        r.data == data,
        r.season == season,
        r.deleted_file_paths@.map_values(|s: String| s@) == deleted_paths(deletions@),
{
    let mut paths: Vec<String> = Vec::new();
    let mut i: usize = 0;
    while i < deletions.len()
        invariant
            i <= deletions@.len(),
            paths@.map_values(|s: String| s@) == deleted_paths(deletions@.subrange(0, i as int)),
        decreases deletions@.len() - i,
    {
        assert(deletions@.subrange(0, i + 1).drop_last() =~= deletions@.subrange(0, i as int));
        assert(deletions@.subrange(0, i + 1).last() == deletions@[i as int]);
        let done = match &deletions[i].1 {
            Ok(b) => *b,
            Err(_) => false,
        };
        if done {
            let ghost before = paths@.map_values(|s: String| s@);
            paths.push(deletions[i].0.clone());
            assert(paths@.map_values(|s: String| s@) =~= before.push(deletions@[i as int].0@));
        }
        i = i + 1;
    }
    assert(deletions@.subrange(0, deletions@.len() as int) =~= deletions@);
    SubmitOutcome { data, deleted_file_paths: paths, season }
}

} // verus!
