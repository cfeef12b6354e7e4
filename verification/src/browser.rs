//! The scan of browsers: which directories and databases belong to a profile,
//! and what is offered of them.
use crate::application;
use crate::disk;
use crate::disk::{FileName, NameView, PathKind, PathSurvey, SurveyView};
use crate::item;
use crate::item::{
    ActionView, BrowserDbKind, ModuleKind, RiskLevel, ScannedItem, ScannedView,
};
use crate::offer;
use crate::offer::Label;
use crate::text;
use vstd::prelude::*;

verus! {

// ---------------------------------------------------------------------------
// Where browsers keep their data

/// A browser of the Chromium family: where its profiles are and which
/// processes hold them.
#[derive(Debug)]
pub struct BrowserRule {
    pub name: String,
    pub base: String,
    pub process_names: Vec<String>,
}

/// The contents of a [`BrowserRule`].
pub struct BrowserRuleView {
    pub name: Seq<char>,
    pub base: Seq<char>,
    pub process_names: Seq<Seq<char>>,
}

impl View for BrowserRule {
    type V = BrowserRuleView;

    open spec fn view(&self) -> BrowserRuleView {
        BrowserRuleView {
            name: self.name@,
            base: self.base@,
            process_names: text::views(self.process_names@),
        }
    }
}

/// The browsers of the Chromium family that are cleaned, in order.
pub open spec fn chromium_rules_of(local: Seq<char>) -> Seq<BrowserRuleView> {
    seq![
        BrowserRuleView {
            name: "Chrome"@,
            base: application::below3(local, "Google"@, "Chrome"@, "User Data"@),
            process_names: seq!["chrome.exe"@],
        },
        BrowserRuleView {
            name: "Edge"@,
            base: application::below3(local, "Microsoft"@, "Edge"@, "User Data"@),
            process_names: seq!["msedge.exe"@],
        },
        BrowserRuleView {
            name: "Chromium"@,
            base: application::below2(local, "Chromium"@, "User Data"@),
            process_names: seq!["chromium.exe"@, "chrome.exe"@],
        },
        BrowserRuleView {
            name: "Brave"@,
            base: application::below3(local, "BraveSoftware"@, "Brave-Browser"@, "User Data"@),
            process_names: seq!["brave.exe"@],
        },
    ]
}

/// Lists the browsers of the Chromium family that are cleaned, in order.
pub fn chromium_rules(local: &str) -> (r: Vec<BrowserRule>)
    ensures
        text::views(r@) == chromium_rules_of(local@),
{
    let chrome = BrowserRule {
        name: "Chrome".to_owned(),
        base: disk::join_path3(local, "Google", "Chrome", "User Data"),
        process_names: vec!["chrome.exe".to_owned()],
    };
    let edge = BrowserRule {
        name: "Edge".to_owned(),
        base: disk::join_path3(local, "Microsoft", "Edge", "User Data"),
        process_names: vec!["msedge.exe".to_owned()],
    };
    let chromium = BrowserRule {
        name: "Chromium".to_owned(),
        base: disk::join_path2(local, "Chromium", "User Data"),
        process_names: vec!["chromium.exe".to_owned(), "chrome.exe".to_owned()],
    };
    let brave = BrowserRule {
        name: "Brave".to_owned(),
        base: disk::join_path3(local, "BraveSoftware", "Brave-Browser", "User Data"),
        process_names: vec!["brave.exe".to_owned()],
    };
    proof {
        let want = chromium_rules_of(local@);
        assert(chrome@.process_names =~= want[0].process_names);
        assert(edge@.process_names =~= want[1].process_names);
        assert(chromium@.process_names =~= want[2].process_names);
        assert(brave@.process_names =~= want[3].process_names);
    }
    let r = vec![chrome, edge, chromium, brave];
    assert(text::views(r@) =~= chromium_rules_of(local@));
    r
}

/// A directory that can hold a profile.
#[derive(Debug)]
pub struct ProfileDir {
    pub path: String,
    pub name: FileName,
}

/// The contents of a [`ProfileDir`].
pub struct ProfileDirView {
    pub path: Seq<char>,
    pub name: NameView,
}

impl View for ProfileDir {
    type V = ProfileDirView;

    open spec fn view(&self) -> ProfileDirView {
        ProfileDirView { path: self.path@, name: self.name@ }
    }
}

/// The name under which a profile is shown.
pub open spec fn profile_name(name: NameView) -> Seq<char> {
    if name.exact {
        name.text
    } else {
        "Profile"@
    }
}

/// Says under which name a profile is shown.
pub fn shown_profile_name(name: &FileName) -> (r: String)
    ensures
        r@ == profile_name(name@),
{
    if name.exact {
        name.text.clone()
    } else {
        "Profile".to_owned()
    }
}

/// Whether a directory of that name is a profile of a Chromium browser.
pub open spec fn is_profile(name: NameView) -> bool {
    name.exact && (name.text == "Default"@ || text::starts_with(name.text, "Profile "@)
        || name.text == "Guest Profile"@)
}

/// Decides [`is_profile`].
pub fn is_profile_name(name: &FileName) -> (r: bool)
    ensures
        r == is_profile(name@),
{
    if !name.exact {
        return false;
    }
    let cs = text::chars_of(name.text.as_str());
    text::same_text(name.text.as_str(), "Default") || text::begins_with(cs.as_slice(), "Profile ")
        || text::same_text(name.text.as_str(), "Guest Profile")
}

/// The profiles among the directories of a browser; where there are none, the
/// directory of the browser itself, if it holds a history.
pub open spec fn profiles_among(
    base: ProfileDirView,
    children: Seq<ProfileDirView>,
    base_has_history: bool,
) -> Seq<ProfileDirView> {
    let found = children.filter(|d: ProfileDirView| is_profile(d.name));
    if found.len() == 0 && base_has_history {
        seq![base]
    } else {
        found
    }
}

/// Picks the profiles of a browser from its directories.
pub fn chromium_profiles(
    base: ProfileDir,
    children: Vec<ProfileDir>,
    base_has_history: bool,
) -> (r: Vec<ProfileDir>)
    ensures
        text::views(r@) == profiles_among(base@, text::views(children@), base_has_history),
{
    let ghost keep = |d: ProfileDirView| is_profile(d.name);
    let ghost all = text::views(children@);
    let mut r: Vec<ProfileDir> = Vec::new();
    proof {
        reveal(Seq::filter);
        assert(all.take(0).filter(keep) =~= Seq::empty());
    }
    for d in it: children
        invariant
            keep == (|d: ProfileDirView| is_profile(d.name)),
            all == text::views(it.seq()),
            text::views(r@) == all.take(it.index() as int).filter(keep),
    {
        let ghost before = r@;
        proof {
            reveal(Seq::filter);
            let next = all.take(it.index() + 1);
            assert(next.drop_last() =~= all.take(it.index() as int));
            assert(next.last() == d@);
        }
        if is_profile_name(&d.name) {
            r.push(d);
            proof {
                text::lemma_views_push(before, d);
            }
        }
    }
    assert(all.take(all.len() as int) =~= all);
    assert(text::views(r@).len() == r@.len());
    if r.len() == 0 && base_has_history {
        let ghost before = r@;
        r.push(base);
        proof {
            text::lemma_views_push(before, base);
            assert(text::views(r@) =~= seq![base@]);
        }
    }
    r
}

/// The cache directories that a Chromium profile can have.
pub open spec fn profile_cache_paths(profile: Seq<char>) -> Seq<Seq<char>> {
    seq![
        disk::joined(profile, "Cache"@),
        disk::joined(profile, "Code Cache"@),
        disk::joined(profile, "GPUCache"@),
        application::below2(profile, "Service Worker"@, "CacheStorage"@),
    ]
}

/// The cache directories that the profiles can have, profile after profile.
pub open spec fn profiles_cache_paths(profiles: Seq<ProfileDirView>) -> Seq<Seq<char>>
    decreases profiles.len(),
{
    if profiles.len() == 0 {
        Seq::empty()
    } else {
        profiles_cache_paths(profiles.drop_last()) + profile_cache_paths(profiles.last().path)
    }
}

/// The cache directories that a Chromium browser can have: those of its
/// profiles and the one that they share.
pub open spec fn cache_paths(base: Seq<char>, profiles: Seq<ProfileDirView>) -> Seq<Seq<char>> {
    profiles_cache_paths(profiles).push(disk::joined(base, "ShaderCache"@))
}

/// Lists the cache directories that a Chromium browser can have.
pub fn chromium_cache_paths(base: &str, profiles: &Vec<ProfileDir>) -> (r: Vec<String>)
    ensures
        text::views(r@) == cache_paths(base@, text::views(profiles@)),
{
    let mut r: Vec<String> = Vec::new();
    let ghost all = text::views(profiles@);
    assert(text::views(r@) =~= profiles_cache_paths(all.take(0)));
    for i in 0..profiles.len()
        invariant
            all == text::views(profiles@),
            text::views(r@) == profiles_cache_paths(all.take(i as int)),
    {
        let ghost before = r@;
        let p = profiles[i].path.as_str();
        r.push(disk::join_path(p, "Cache"));
        r.push(disk::join_path(p, "Code Cache"));
        r.push(disk::join_path(p, "GPUCache"));
        r.push(disk::join_path2(p, "Service Worker", "CacheStorage"));
        proof {
            assert(all.take(i + 1).drop_last() =~= all.take(i as int));
            assert(text::views(r@) =~= text::views(before) + profile_cache_paths(p@));
        }
    }
    assert(all.take(all.len() as int) =~= all);
    let ghost before = r@;
    let shared = disk::join_path(base, "ShaderCache");
    r.push(shared);
    proof {
        text::lemma_views_push(before, shared);
    }
    r
}

/// The paths of a Chromium profile that are looked at besides its caches.
#[derive(Debug)]
pub struct ProfilePlan {
    pub history: String,
    pub cookies: Vec<String>,
    pub session_dirs: Vec<String>,
}

/// The contents of a [`ProfilePlan`].
pub struct ProfilePlanView {
    pub history: Seq<char>,
    pub cookies: Seq<Seq<char>>,
    pub session_dirs: Seq<Seq<char>>,
}

impl View for ProfilePlan {
    type V = ProfilePlanView;

    open spec fn view(&self) -> ProfilePlanView {
        ProfilePlanView {
            history: self.history@,
            cookies: text::views(self.cookies@),
            session_dirs: text::views(self.session_dirs@),
        }
    }
}

/// The paths of a Chromium profile that are looked at besides its caches.
pub open spec fn profile_plan_of(profile: Seq<char>) -> ProfilePlanView {
    ProfilePlanView {
        history: disk::joined(profile, "History"@),
        cookies: seq![
            application::below2(profile, "Network"@, "Cookies"@),
            disk::joined(profile, "Cookies"@),
        ],
        session_dirs: seq![
            disk::joined(profile, "Sessions"@),
            disk::joined(profile, "Session Storage"@),
            application::below2(profile, "Local Storage"@, "leveldb"@),
        ],
    }
}

/// Says which paths of a Chromium profile are looked at besides its caches.
pub fn chromium_profile_plan(profile: &str) -> (r: ProfilePlan)
    ensures
        r@ == profile_plan_of(profile@),
{
    let r = ProfilePlan {
        history: disk::join_path(profile, "History"),
        cookies: vec![
            disk::join_path2(profile, "Network", "Cookies"),
            disk::join_path(profile, "Cookies"),
        ],
        session_dirs: vec![
            disk::join_path(profile, "Sessions"),
            disk::join_path(profile, "Session Storage"),
            disk::join_path2(profile, "Local Storage", "leveldb"),
        ],
    };
    assert(r@.cookies =~= profile_plan_of(profile@).cookies);
    assert(r@.session_dirs =~= profile_plan_of(profile@).session_dirs);
    r
}

// ---------------------------------------------------------------------------
// Chromium: the offers

/// What is known of the paths of a [`ProfilePlan`].
#[derive(Debug)]
pub struct ProfileSurvey {
    pub name: FileName,
    pub history: PathSurvey,
    pub cookies: Vec<PathSurvey>,
    pub session_dirs: Vec<PathSurvey>,
}

/// The contents of a [`ProfileSurvey`].
pub struct ProfileView {
    pub name: NameView,
    pub history: SurveyView,
    pub cookies: Seq<SurveyView>,
    pub session_dirs: Seq<SurveyView>,
}

impl View for ProfileSurvey {
    type V = ProfileView;

    open spec fn view(&self) -> ProfileView {
        ProfileView {
            name: self.name@,
            history: self.history@,
            cookies: text::views(self.cookies@),
            session_dirs: text::views(self.session_dirs@),
        }
    }
}

/// What is known of a Chromium browser: whether its directory exists, its
/// cache directories and its profiles.
#[derive(Debug)]
pub struct BrowserSurvey {
    pub present: bool,
    pub cache_dirs: Vec<PathSurvey>,
    pub profiles: Vec<ProfileSurvey>,
}

/// The contents of a [`BrowserSurvey`].
pub struct BrowserView {
    pub present: bool,
    pub cache_dirs: Seq<SurveyView>,
    pub profiles: Seq<ProfileView>,
}

impl View for BrowserSurvey {
    type V = BrowserView;

    open spec fn view(&self) -> BrowserView {
        BrowserView {
            present: self.present,
            cache_dirs: text::views(self.cache_dirs@),
            profiles: text::views(self.profiles@),
        }
    }
}

/// The name of an offer for one profile: `browser what (profile)`.
pub open spec fn profile_title(browser: Seq<char>, what: Seq<char>, profile: Seq<char>) -> Seq<
    char,
> {
    browser + what + profile + ")"@
}

/// The offer to empty the caches of a Chromium browser.
pub open spec fn cache_drafts(
    browser: Seq<char>,
    process_names: Seq<Seq<char>>,
    dirs: Seq<SurveyView>,
) -> Seq<ScannedView> {
    offer::directory_drafts(
        offer::label(
            ModuleKind::Browser,
            browser,
            browser + " 缓存"@,
            "清理浏览器渲染、脚本与网络缓存。"@,
            RiskLevel::Safe,
            true,
        ),
        process_names,
        disk::directories(dirs),
        160,
        false,
    )
}

/// The offers to clear the history and the list of downloads, which are in one
/// database.
pub open spec fn history_drafts(
    browser: Seq<char>,
    process_names: Seq<Seq<char>>,
    profile: Seq<char>,
    history: SurveyView,
) -> Seq<ScannedView> {
    if history.kind == PathKind::Missing {
        Seq::empty()
    } else {
        seq![
            offer::database_draft(
                offer::label(
                    ModuleKind::Browser,
                    browser,
                    profile_title(browser, " 历史记录 ("@, profile),
                    "清理网址访问记录。"@,
                    RiskLevel::Medium,
                    true,
                ),
                process_names,
                history.path,
                history.size_bytes,
                BrowserDbKind::ChromiumHistory,
            ),
            offer::database_draft(
                offer::label(
                    ModuleKind::Browser,
                    browser,
                    profile_title(browser, " 下载历史 ("@, profile),
                    "清理下载记录，不删除已下载文件。"@,
                    RiskLevel::Safe,
                    true,
                ),
                process_names,
                history.path,
                history.size_bytes,
                BrowserDbKind::ChromiumDownloads,
            ),
        ]
    }
}

/// The first of the paths that exists.
pub open spec fn first_present(s: Seq<SurveyView>) -> Option<SurveyView>
    decreases s.len(),
{
    if s.len() == 0 {
        None
    } else if s[0].kind != PathKind::Missing {
        Some(s[0])
    } else {
        first_present(s.skip(1))
    }
}

/// The offer to clear cookies.
pub open spec fn cookie_drafts(
    browser: Seq<char>,
    process_names: Seq<Seq<char>>,
    profile: Seq<char>,
    cookies: Option<SurveyView>,
    kind: BrowserDbKind,
) -> Seq<ScannedView> {
    match cookies {
        Some(c) => seq![
            offer::database_draft(
                offer::label(
                    ModuleKind::Browser,
                    browser,
                    profile_title(browser, " Cookie ("@, profile),
                    "支持按域名白名单保留 Cookie。"@,
                    RiskLevel::Medium,
                    true,
                ),
                process_names,
                c.path,
                c.size_bytes,
                kind,
            ),
        ],
        None => Seq::empty(),
    }
}

/// The offer to empty the session directories of a Chromium profile.
pub open spec fn session_drafts(
    browser: Seq<char>,
    process_names: Seq<Seq<char>>,
    profile: Seq<char>,
    dirs: Seq<SurveyView>,
) -> Seq<ScannedView> {
    offer::directory_drafts(
        offer::label(
            ModuleKind::Browser,
            browser,
            profile_title(browser, " Session 数据 ("@, profile),
            "清理会话恢复与本地会话数据。"@,
            RiskLevel::High,
            false,
        ),
        process_names,
        disk::directories(dirs),
        100,
        false,
    )
}

/// Everything that is offered of one Chromium profile besides its caches.
pub open spec fn profile_drafts(
    browser: Seq<char>,
    process_names: Seq<Seq<char>>,
    p: ProfileView,
) -> Seq<ScannedView> {
    let profile = profile_name(p.name);
    history_drafts(browser, process_names, profile, p.history) + cookie_drafts(
        browser,
        process_names,
        profile,
        first_present(p.cookies),
        BrowserDbKind::ChromiumCookies,
    ) + session_drafts(browser, process_names, profile, p.session_dirs)
}

/// The offers of the profiles, one list for each.
pub open spec fn profile_lists(
    browser: Seq<char>,
    process_names: Seq<Seq<char>>,
    profiles: Seq<ProfileView>,
) -> Seq<Seq<ScannedView>> {
    profiles.map_values(|p: ProfileView| profile_drafts(browser, process_names, p))
}

/// Everything that is offered of one Chromium browser, in order.
pub open spec fn chromium_drafts(
    browser: Seq<char>,
    process_names: Seq<Seq<char>>,
    s: BrowserView,
) -> Seq<ScannedView> {
    if s.present {
        cache_drafts(browser, process_names, s.cache_dirs) + offer::chain(
            profile_lists(browser, process_names, s.profiles),
        )
    } else {
        Seq::empty()
    }
}

/// Finds the first of the paths that exists.
fn find_present(v: &Vec<PathSurvey>) -> (r: Option<&PathSurvey>)
    ensures
        match r {
            Some(p) => first_present(text::views(v@)) == Some(p@),
            None => first_present(text::views(v@)) is None,
        },
{
    let ghost all = text::views(v@);
    assert(all.skip(0) =~= all);
    for i in 0..v.len()
        invariant
            all == text::views(v@),
            first_present(all.skip(i as int)) == first_present(all),
    {
        if v[i].is_present() {
            assert(all.skip(i as int)[0] == v@[i as int]@);
            return Some(&v[i]);
        }
        assert(all.skip(i as int).skip(1) =~= all.skip(i + 1));
    }
    None
}

/// Offers to clear the history and the downloads of a profile.
fn offer_history(
    items: &mut Vec<ScannedItem>,
    counter: &mut usize,
    browser: &str,
    process_names: &Vec<String>,
    profile: &str,
    history: &PathSurvey,
)
    requires
        item::has_room(
            *old(counter),
            old(items)@.len(),
            history_drafts(browser@, text::views(process_names@), profile@, history@).len(),
        ),
    ensures
        item::extends(
            text::views(old(items)@),
            *old(counter) as int,
            text::views(final(items)@),
            *final(counter) as int,
            history_drafts(browser@, text::views(process_names@), profile@, history@),
        ),
        final(items)@.len() - old(items)@.len() == *final(counter) - *old(counter),
{
    let ghost v0 = text::views(items@);
    let ghost c0 = *counter as int;
    if !history.is_present() {
        proof {
            item::lemma_extends_nothing(v0, c0);
        }
        return;
    }
    let ghost want = history_drafts(browser@, text::views(process_names@), profile@, history@);
    let visits = text::concat4(browser, " 历史记录 (", profile, ")");
    offer::offer_database(
        items,
        counter,
        &Label {
            module: ModuleKind::Browser,
            category: browser,
            name: visits.as_str(),
            detail: "清理网址访问记录。",
            risk: RiskLevel::Medium,
            selected: true,
        },
        text::copy_strings(process_names),
        history,
        BrowserDbKind::ChromiumHistory,
    );
    let ghost v1 = text::views(items@);
    let ghost c1 = *counter as int;
    let downloads = text::concat4(browser, " 下载历史 (", profile, ")");
    offer::offer_database(
        items,
        counter,
        &Label {
            module: ModuleKind::Browser,
            category: browser,
            name: downloads.as_str(),
            detail: "清理下载记录，不删除已下载文件。",
            risk: RiskLevel::Safe,
            selected: true,
        },
        text::copy_strings(process_names),
        history,
        BrowserDbKind::ChromiumDownloads,
    );
    proof {
        item::lemma_extends_twice(
            v0,
            c0,
            v1,
            c1,
            text::views(items@),
            *counter as int,
            seq![want[0]],
            seq![want[1]],
        );
        assert(seq![want[0]] + seq![want[1]] =~= want);
    }
}

/// Offers to clear the cookies of a profile, where it has a database of them.
pub(crate) fn offer_cookies(
    items: &mut Vec<ScannedItem>,
    counter: &mut usize,
    browser: &str,
    process_names: &Vec<String>,
    profile: &str,
    cookies: Option<&PathSurvey>,
    kind: BrowserDbKind,
    Ghost(c): Ghost<Option<SurveyView>>,
)
    requires
        c == match cookies {
            Some(p) => Some(p@),
            None => None,
        },
        item::has_room(
            *old(counter),
            old(items)@.len(),
            cookie_drafts(browser@, text::views(process_names@), profile@, c, kind).len(),
        ),
    ensures
        item::extends(
            text::views(old(items)@),
            *old(counter) as int,
            text::views(final(items)@),
            *final(counter) as int,
            cookie_drafts(browser@, text::views(process_names@), profile@, c, kind),
        ),
        final(items)@.len() - old(items)@.len() == *final(counter) - *old(counter),
{
    match cookies {
        Some(database) => {
            let title = text::concat4(browser, " Cookie (", profile, ")");
            offer::offer_database(
                items,
                counter,
                &Label {
                    module: ModuleKind::Browser,
                    category: browser,
                    name: title.as_str(),
                    detail: "支持按域名白名单保留 Cookie。",
                    risk: RiskLevel::Medium,
                    selected: true,
                },
                text::copy_strings(process_names),
                database,
                kind,
            );
        },
        None => {
            proof {
                item::lemma_extends_nothing(text::views(items@), *counter as int);
            }
        },
    }
}

/// Offers what there is of one profile.
fn offer_profile(
    items: &mut Vec<ScannedItem>,
    counter: &mut usize,
    browser: &str,
    process_names: &Vec<String>,
    p: ProfileSurvey,
)
    requires
        item::has_room(
            *old(counter),
            old(items)@.len(),
            profile_drafts(browser@, text::views(process_names@), p@).len(),
        ),
    ensures
        item::extends(
            text::views(old(items)@),
            *old(counter) as int,
            text::views(final(items)@),
            *final(counter) as int,
            profile_drafts(browser@, text::views(process_names@), p@),
        ),
        final(items)@.len() - old(items)@.len() == *final(counter) - *old(counter),
{
    let ghost v0 = text::views(items@);
    let ghost c0 = *counter as int;
    let ghost names = text::views(process_names@);
    let name = shown_profile_name(&p.name);
    let profile = name.as_str();

    offer_history(items, counter, browser, process_names, profile, &p.history);
    let ghost d1 = history_drafts(browser@, names, profile@, p@.history);
    let ghost v1 = text::views(items@);
    let ghost c1 = *counter as int;

    let cookies = find_present(&p.cookies);
    let ghost e2 = cookie_drafts(
        browser@,
        names,
        profile@,
        first_present(p@.cookies),
        BrowserDbKind::ChromiumCookies,
    );
    offer_cookies(
        items,
        counter,
        browser,
        process_names,
        profile,
        cookies,
        BrowserDbKind::ChromiumCookies,
        Ghost(first_present(p@.cookies)),
    );
    let ghost v2 = text::views(items@);
    let ghost c2 = *counter as int;
    proof {
        item::lemma_extends_twice(v0, c0, v1, c1, v2, c2, d1, e2);
    }

    let title = text::concat4(browser, " Session 数据 (", profile, ")");
    let ghost e3 = session_drafts(browser@, names, profile@, p@.session_dirs);
    let dirs = disk::existing_dirs(p.session_dirs);
    offer::offer_directories(
        items,
        counter,
        &Label {
            module: ModuleKind::Browser,
            category: browser,
            name: title.as_str(),
            detail: "清理会话恢复与本地会话数据。",
            risk: RiskLevel::High,
            selected: false,
        },
        text::copy_strings(process_names),
        &dirs,
        100,
        false,
    );
    proof {
        item::lemma_extends_twice(
            v0,
            c0,
            v2,
            c2,
            text::views(items@),
            *counter as int,
            d1 + e2,
            e3,
        );
    }
}

/// Offers what is known of a Chromium browser: its caches together, and the
/// records of each profile.
pub fn add_chromium_browser(
    items: &mut Vec<ScannedItem>,
    counter: &mut usize,
    browser_name: &str,
    survey: BrowserSurvey,
    process_names: &Vec<String>,
)
    requires
        item::has_room(
            *old(counter),
            old(items)@.len(),
            chromium_drafts(browser_name@, text::views(process_names@), survey@).len(),
        ),
    ensures
        item::extends(
            text::views(old(items)@),
            *old(counter) as int,
            text::views(final(items)@),
            *final(counter) as int,
            chromium_drafts(browser_name@, text::views(process_names@), survey@),
        ),
        final(items)@.len() - old(items)@.len() == *final(counter) - *old(counter),
{
    let ghost v0 = text::views(items@);
    let ghost c0 = *counter;
    let ghost n0 = items@.len();
    let ghost names = text::views(process_names@);
    let ghost s = survey@;
    if !survey.present {
        proof {
            item::lemma_extends_nothing(v0, c0 as int);
        }
        return;
    }
    let ghost parts = profile_lists(browser_name@, names, s.profiles);
    let ghost first = cache_drafts(browser_name@, names, s.cache_dirs);
    let ghost total = chromium_drafts(browser_name@, names, s).len();
    let title = text::concat2(browser_name, " 缓存");
    let cache_dirs = disk::existing_dirs(survey.cache_dirs);
    offer::offer_directories(
        items,
        counter,
        &Label {
            module: ModuleKind::Browser,
            category: browser_name,
            name: title.as_str(),
            detail: "清理浏览器渲染、脚本与网络缓存。",
            risk: RiskLevel::Safe,
            selected: true,
        },
        text::copy_strings(process_names),
        &cache_dirs,
        160,
        false,
    );
    proof {
        assert(parts.take(0) =~= Seq::empty());
        assert(first + offer::chain(parts.take(0)) =~= first);
    }
    for p in it: survey.profiles
        invariant
            names == text::views(process_names@),
            s.profiles == text::views(it.seq()),
            parts == profile_lists(browser_name@, names, s.profiles),
            item::has_room(c0, n0, total),
            total == first.len() + offer::chain(parts).len(),
            items@.len() - n0 == *counter - c0,
            item::extends(
                v0,
                c0 as int,
                text::views(items@),
                *counter as int,
                first + offer::chain(parts.take(it.index() as int)),
            ),
    {
        let ghost i = it.index() as int;
        let ghost v1 = text::views(items@);
        let ghost c1 = *counter as int;
        proof {
            offer::lemma_chain_step(parts, i);
            assert(parts[i] == profile_drafts(browser_name@, names, p@));
        }
        offer_profile(items, counter, browser_name, process_names, p);
        proof {
            item::lemma_extends_twice(
                v0,
                c0 as int,
                v1,
                c1,
                text::views(items@),
                *counter as int,
                first + offer::chain(parts.take(i)),
                parts[i],
            );
            assert(first + offer::chain(parts.take(i)) + parts[i] =~= first + offer::chain(
                parts.take(i + 1),
            ));
        }
    }
    assert(parts.take(parts.len() as int) =~= parts);
}

// ---------------------------------------------------------------------------
// Keeping to the plan

/// The paths of a plan, in order.
pub open spec fn plan_paths(plan: ProfilePlanView) -> Seq<Seq<char>> {
    seq![plan.history] + plan.cookies + plan.session_dirs
}

/// The surveys of the paths of a plan, in the same order.
pub open spec fn profile_surveys(p: ProfileView) -> Seq<SurveyView> {
    seq![p.history] + p.cookies + p.session_dirs
}

/// The paths that are planned for a Chromium browser with the given profiles;
/// none where the browser is not there.
pub open spec fn planned_paths(
    present: bool,
    base: Seq<char>,
    profiles: Seq<ProfileDirView>,
) -> Seq<Seq<char>> {
    if present {
        cache_paths(base, profiles) + profiles.map_values(
            |d: ProfileDirView| plan_paths(profile_plan_of(d.path)),
        ).flatten()
    } else {
        Seq::empty()
    }
}

/// The surveys of the paths of a Chromium browser, in the same order.
pub open spec fn browser_surveys(s: BrowserView) -> Seq<SurveyView> {
    if s.present {
        s.cache_dirs + s.profiles.map_values(|p: ProfileView| profile_surveys(p)).flatten()
    } else {
        Seq::empty()
    }
}

/// The first path that exists is one of the paths.
proof fn lemma_first_present_holds(s: Seq<SurveyView>)
    ensures
        first_present(s) matches Some(p) ==> s.contains(p),
    decreases s.len(),
{
    if s.len() > 0 {
        if s[0].kind == PathKind::Missing {
            lemma_first_present_holds(s.skip(1));
            if let Some(p) = first_present(s.skip(1)) {
                let k = choose|k: int| 0 <= k < s.skip(1).len() && s.skip(1)[k] == p;
                assert(s[k + 1] == p);
            }
        } else {
            assert(s.contains(s[0]));
        }
    }
}

/// The offers of one profile act on nothing that was not surveyed.
proof fn lemma_profile_within(
    browser: Seq<char>,
    process_names: Seq<Seq<char>>,
    p: ProfileView,
)
    ensures
        offer::within(profile_surveys(p), profile_drafts(browser, process_names, p)),
{
    let all = profile_surveys(p);
    let profile = profile_name(p.name);
    let first = seq![p.history];
    disk::lemma_among_sum(first + p.cookies, p.session_dirs);
    disk::lemma_among_sum(first, p.cookies);
    disk::lemma_among_transitive(first, first + p.cookies, all);
    disk::lemma_among_transitive(p.cookies, first + p.cookies, all);
    assert(first[0] == p.history);
    assert(all.contains(p.history));
    let history = history_drafts(browser, process_names, profile, p.history);
    offer::lemma_databases_within(all, p.history, history);
    let found = first_present(p.cookies);
    let cookies = cookie_drafts(
        browser,
        process_names,
        profile,
        found,
        BrowserDbKind::ChromiumCookies,
    );
    lemma_first_present_holds(p.cookies);
    if let Some(c) = found {
        let k = choose|k: int| 0 <= k < p.cookies.len() && p.cookies[k] == c;
        assert(all.contains(p.cookies[k]));
        offer::lemma_databases_within(all, c, cookies);
    }
    disk::lemma_filter_among(p.session_dirs, |d: SurveyView| d.kind == PathKind::Directory);
    disk::lemma_among_transitive(disk::directories(p.session_dirs), p.session_dirs, all);
    let sessions = session_drafts(browser, process_names, profile, p.session_dirs);
    offer::lemma_directories_within(
        all,
        offer::label(
            ModuleKind::Browser,
            browser,
            profile_title(browser, " Session 数据 ("@, profile),
            "清理会话恢复与本地会话数据。"@,
            RiskLevel::High,
            false,
        ),
        process_names,
        disk::directories(p.session_dirs),
        100,
        false,
    );
    offer::lemma_within_add(all, history, cookies);
    offer::lemma_within_add(all, history + cookies, sessions);
}

/// The offers of a Chromium browser act on nothing that was not surveyed.
pub proof fn lemma_chromium_within(
    browser: Seq<char>,
    process_names: Seq<Seq<char>>,
    s: BrowserView,
)
    ensures
        offer::within(browser_surveys(s), chromium_drafts(browser, process_names, s)),
{
    if s.present {
        let all = browser_surveys(s);
        let lists = s.profiles.map_values(|p: ProfileView| profile_surveys(p));
        let parts = profile_lists(browser, process_names, s.profiles);
        let caches = cache_drafts(browser, process_names, s.cache_dirs);
        disk::lemma_among_sum(s.cache_dirs, lists.flatten());
        disk::lemma_filter_among(s.cache_dirs, |d: SurveyView| d.kind == PathKind::Directory);
        disk::lemma_among_transitive(disk::directories(s.cache_dirs), s.cache_dirs, all);
        offer::lemma_directories_within(
            all,
            offer::label(
                ModuleKind::Browser,
                browser,
                browser + " 缓存"@,
                "清理浏览器渲染、脚本与网络缓存。"@,
                RiskLevel::Safe,
                true,
            ),
            process_names,
            disk::directories(s.cache_dirs),
            160,
            false,
        );
        assert forall|i: int| 0 <= i < parts.len() implies offer::within(
            all,
            #[trigger] parts[i],
        ) by {
            lemma_profile_within(browser, process_names, s.profiles[i]);
            assert(lists[i] == profile_surveys(s.profiles[i]));
            disk::lemma_among_flatten(lists, i);
            disk::lemma_among_transitive(lists[i], lists.flatten(), all);
            offer::lemma_within_more(lists[i], all, parts[i]);
        }
        offer::lemma_within_chain(all, parts);
        offer::lemma_within_add(all, caches, offer::chain(parts));
    }
}

/// Where the surveyed paths are those planned for a browser and its profiles,
/// the offers act on planned paths and on files below them, and on nothing
/// else.
pub proof fn law_chromium_scan_keeps_to_its_plan(
    browser: Seq<char>,
    process_names: Seq<Seq<char>>,
    base: Seq<char>,
    profiles: Seq<ProfileDirView>,
    s: BrowserView,
)
    requires
        disk::paths_of(browser_surveys(s)) == planned_paths(s.present, base, profiles),
    ensures
        offer::keeps_to_plan(
            planned_paths(s.present, base, profiles),
            browser_surveys(s),
            chromium_drafts(browser, process_names, s),
        ),
{
    lemma_chromium_within(browser, process_names, s);
    offer::lemma_keeps_to_plan(
        planned_paths(s.present, base, profiles),
        browser_surveys(s),
        chromium_drafts(browser, process_names, s),
    );
}

// ---------------------------------------------------------------------------
// What is offered of a browser

/// Of several paths the first that exists is taken, whatever follows it; where
/// none exists, none is.
pub proof fn law_first_existing_path_is_taken(
    missing: Seq<SurveyView>,
    found: SurveyView,
    rest: Seq<SurveyView>,
)
    requires
        forall|i: int| 0 <= i < missing.len() ==> (#[trigger] missing[i]).kind == PathKind::Missing,
        found.kind != PathKind::Missing,
    ensures
        first_present(missing + seq![found] + rest) == Some(found),
        first_present(missing) is None,
    decreases missing.len(),
{
    let all = missing + seq![found] + rest;
    if missing.len() > 0 {
        let fewer = missing.skip(1);
        assert(missing[0].kind == PathKind::Missing);
        assert(all.skip(1) =~= fewer + seq![found] + rest);
        assert forall|i: int| 0 <= i < fewer.len() implies (#[trigger] fewer[i]).kind
            == PathKind::Missing by {
            assert(missing[i + 1].kind == PathKind::Missing);
        }
        law_first_existing_path_is_taken(fewer, found, rest);
    }
}

/// The caches of every profile are looked at, and the one that profiles share.
pub proof fn law_caches_of_every_profile_are_looked_at(
    base: Seq<char>,
    profiles: Seq<ProfileDirView>,
    i: int,
)
    requires
        0 <= i < profiles.len(),
    ensures
        cache_paths(base, profiles).contains(disk::joined(profiles[i].path, "Cache"@)),
        cache_paths(base, profiles).contains(disk::joined(profiles[i].path, "Code Cache"@)),
        cache_paths(base, profiles).contains(disk::joined(profiles[i].path, "GPUCache"@)),
        cache_paths(base, profiles).contains(
            disk::joined(disk::joined(profiles[i].path, "Service Worker"@), "CacheStorage"@),
        ),
        cache_paths(base, profiles).contains(disk::joined(base, "ShaderCache"@)),
        cache_paths(base, profiles).len() == 4 * profiles.len() + 1,
{
    let caches = profiles_cache_paths(profiles);
    let all = cache_paths(base, profiles);
    lemma_profile_caches_at(profiles, i);
    assert(all[caches.len() as int] == disk::joined(base, "ShaderCache"@));
    assert(all[4 * i] == caches[4 * i]);
    assert(all[4 * i + 1] == caches[4 * i + 1]);
    assert(all[4 * i + 2] == caches[4 * i + 2]);
    assert(all[4 * i + 3] == caches[4 * i + 3]);
}

/// Where the caches of one profile stand.
proof fn lemma_profile_caches_at(profiles: Seq<ProfileDirView>, i: int)
    requires
        0 <= i < profiles.len(),
    ensures
        profiles_cache_paths(profiles).len() == 4 * profiles.len(),
        profiles_cache_paths(profiles)[4 * i] == disk::joined(profiles[i].path, "Cache"@),
        profiles_cache_paths(profiles)[4 * i + 1] == disk::joined(profiles[i].path, "Code Cache"@),
        profiles_cache_paths(profiles)[4 * i + 2] == disk::joined(profiles[i].path, "GPUCache"@),
        profiles_cache_paths(profiles)[4 * i + 3] == disk::joined(
            disk::joined(profiles[i].path, "Service Worker"@),
            "CacheStorage"@,
        ),
    decreases profiles.len(),
{
    let shorter = profiles.drop_last();
    if shorter.len() > 0 {
        lemma_profile_caches_at(
            shorter,
            if i < shorter.len() {
                i
            } else {
                0
            },
        );
    } else {
        assert(profiles_cache_paths(shorter).len() == 0);
    }
}

/// The profiles of a browser are those of its directories that are named
/// `Default`, `Guest Profile` or `Profile` and more, in order; the directory of
/// the browser itself stands in only where there are none and it holds a
/// history.
pub proof fn law_profiles_go_by_their_names(
    base: ProfileDirView,
    children: Seq<ProfileDirView>,
    more: Seq<ProfileDirView>,
    child: ProfileDirView,
    rest: Seq<char>,
)
    ensures
        child.name.exact && (child.name.text == "Default"@ || child.name.text == "Guest Profile"@
            || child.name.text == "Profile "@ + rest) ==> profiles_among(base, seq![child], true)
            == seq![child] && profiles_among(base, seq![child], false) == seq![child],
        !child.name.exact || (child.name.text != "Default"@ && child.name.text != "Guest Profile"@
            && (forall|r: Seq<char>| child.name.text != #[trigger] ("Profile "@ + r)))
            ==> profiles_among(base, seq![child], false).len() == 0 && profiles_among(
            base,
            seq![child],
            true,
        ) == seq![base],
        profiles_among(base, children + more, false) == profiles_among(base, children, false)
            + profiles_among(base, more, false),
        profiles_among(base, children, false).len() > 0 ==> profiles_among(base, children, true)
            == profiles_among(base, children, false),
        profiles_among(base, Seq::empty(), true) == seq![base],
{
    reveal(Seq::filter);
    let keep = |d: ProfileDirView| is_profile(d.name);
    text::law_containing_is_having_as_a_middle(child.name.text, "Profile "@);
    assert(seq![child].drop_last() =~= Seq::empty());
    assert(Seq::<ProfileDirView>::empty().filter(keep) =~= Seq::empty());
    if is_profile(child.name) {
        assert(seq![child].filter(keep) =~= seq![child]);
    } else {
        assert(seq![child].filter(keep) =~= Seq::empty());
    }
    Seq::filter_distributes_over_add(children, more, keep);
}

/// A Chromium browser that is there offers everything of every profile, and its
/// caches; one that is not there offers nothing.
pub proof fn law_every_profile_is_offered(
    browser: Seq<char>,
    process_names: Seq<Seq<char>>,
    s: BrowserView,
    i: int,
)
    requires
        0 <= i < s.profiles.len(),
    ensures
        s.present ==> offer::includes_all(
            chromium_drafts(browser, process_names, s),
            profile_drafts(browser, process_names, s.profiles[i]),
        ),
        s.present ==> offer::includes_all(
            chromium_drafts(browser, process_names, s),
            cache_drafts(browser, process_names, s.cache_dirs),
        ),
        !s.present ==> chromium_drafts(browser, process_names, s).len() == 0,
{
    if s.present {
        let parts = profile_lists(browser, process_names, s.profiles);
        let caches = cache_drafts(browser, process_names, s.cache_dirs);
        let all = caches + offer::chain(parts);
        offer::lemma_includes_sum(caches, offer::chain(parts));
        offer::lemma_includes_chain(parts, i);
        assert(parts[i] == profile_drafts(browser, process_names, s.profiles[i]));
        offer::lemma_includes_transitive(all, offer::chain(parts), parts[i]);
    }
}

/// Of a profile with a history, clearing the history and clearing the downloads
/// are both offered on that database, each under its name; of one with cookies,
/// clearing them is offered on the first database of cookies that exists; and
/// no other database is offered.
pub proof fn law_profile_offers_match_their_databases(
    browser: Seq<char>,
    process_names: Seq<Seq<char>>,
    p: ProfileView,
)
    ensures
        ({
            let all = profile_drafts(browser, process_names, p);
            let shown = profile_name(p.name);
            &&& p.history.kind != PathKind::Missing ==> exists|i: int|
                0 <= i < all.len() && (#[trigger] all[i]).action == (ActionView::BrowserSql {
                    db_path: p.history.path,
                    kind: BrowserDbKind::ChromiumHistory,
                }) && all[i].public.name == browser + " 历史记录 ("@ + shown + ")"@
            &&& p.history.kind != PathKind::Missing ==> exists|i: int|
                0 <= i < all.len() && (#[trigger] all[i]).action == (ActionView::BrowserSql {
                    db_path: p.history.path,
                    kind: BrowserDbKind::ChromiumDownloads,
                }) && all[i].public.name == browser + " 下载历史 ("@ + shown + ")"@
            &&& first_present(p.cookies) matches Some(c) ==> exists|i: int|
                0 <= i < all.len() && (#[trigger] all[i]).action == (ActionView::BrowserSql {
                    db_path: c.path,
                    kind: BrowserDbKind::ChromiumCookies,
                }) && all[i].public.name == browser + " Cookie ("@ + shown + ")"@
            &&& forall|i: int|
                0 <= i < all.len() ==> match (#[trigger] all[i]).action {
                    ActionView::BrowserSql { db_path, kind } => {
                        ||| kind == BrowserDbKind::ChromiumHistory && db_path == p.history.path
                            && p.history.kind != PathKind::Missing
                        ||| kind == BrowserDbKind::ChromiumDownloads && db_path == p.history.path
                            && p.history.kind != PathKind::Missing
                        ||| kind == BrowserDbKind::ChromiumCookies && (first_present(
                            p.cookies,
                        ) matches Some(c) && db_path == c.path)
                    },
                    ActionView::DeleteDirectoryContents(dirs) => dirs == disk::paths_of(
                        disk::directories(p.session_dirs),
                    ) && all[i].public.risk == RiskLevel::High,
                    _ => false,
                }
        }),
{
    let shown = profile_name(p.name);
    let history = history_drafts(browser, process_names, shown, p.history);
    let cookies = cookie_drafts(
        browser,
        process_names,
        shown,
        first_present(p.cookies),
        BrowserDbKind::ChromiumCookies,
    );
    let sessions = session_drafts(browser, process_names, shown, p.session_dirs);
    let all = profile_drafts(browser, process_names, p);
    assert(all =~= history + cookies + sessions);
    if p.history.kind != PathKind::Missing {
        assert(all[0] == history[0]);
        assert(all[1] == history[1]);
    }
    if first_present(p.cookies) is Some {
        assert(all[history.len() as int] == cookies[0]);
    }
    assert forall|i: int| 0 <= i < all.len() implies match (#[trigger] all[i]).action {
        ActionView::BrowserSql { db_path, kind } => {
            ||| kind == BrowserDbKind::ChromiumHistory && db_path == p.history.path
                && p.history.kind != PathKind::Missing
            ||| kind == BrowserDbKind::ChromiumDownloads && db_path == p.history.path
                && p.history.kind != PathKind::Missing
            ||| kind == BrowserDbKind::ChromiumCookies && (first_present(
                p.cookies,
            ) matches Some(c) && db_path == c.path)
        },
        ActionView::DeleteDirectoryContents(dirs) => dirs == disk::paths_of(
            disk::directories(p.session_dirs),
        ) && all[i].public.risk == RiskLevel::High,
        _ => false,
    } by {
        if i < history.len() {
            assert(all[i] == history[i]);
        } else if i < history.len() + cookies.len() {
            assert(all[i] == cookies[i - history.len()]);
        } else {
            assert(all[i] == sessions[i - history.len() - cookies.len()]);
        }
    }
}

/// The offers to empty caches and sessions are made where one of the surveyed
/// paths is a directory, and act on all of those.
pub proof fn law_directories_are_offered_where_they_exist(
    browser: Seq<char>,
    process_names: Seq<Seq<char>>,
    profile: Seq<char>,
    dirs: Seq<SurveyView>,
    i: int,
)
    requires
        0 <= i < dirs.len(),
        dirs[i].kind == PathKind::Directory,
    ensures
        ({
            let caches = cache_drafts(browser, process_names, dirs);
            let sessions = session_drafts(browser, process_names, profile, dirs);
            &&& caches.len() == 1 && (caches[0].action matches ActionView::DeleteDirectoryContents(
                paths,
            ) && paths.contains(dirs[i].path))
            &&& sessions.len() == 1 && (
            sessions[0].action matches ActionView::DeleteDirectoryContents(paths)
                && paths.contains(dirs[i].path))
        }),
{
    let keep = |p: SurveyView| p.kind == PathKind::Directory;
    let kept = disk::directories(dirs);
    dirs.lemma_filter_contains(keep, i);
    let k = choose|k: int| 0 <= k < kept.len() && kept[k] == dirs[i];
    assert(disk::paths_of(kept)[k] == dirs[i].path);
}

/// Histories and cookies are at medium risk and selected, downloads and caches
/// are safe and selected, sessions are at high risk and not.
pub proof fn law_browser_offers_have_their_risk(
    browser: Seq<char>,
    process_names: Seq<Seq<char>>,
    profile: Seq<char>,
    s: SurveyView,
    dirs: Seq<SurveyView>,
    kind: BrowserDbKind,
)
    requires
        s.kind != PathKind::Missing,
    ensures
        ({
            let history = history_drafts(browser, process_names, profile, s);
            let cookies = cookie_drafts(browser, process_names, profile, Some(s), kind);
            let caches = cache_drafts(browser, process_names, dirs);
            let sessions = session_drafts(browser, process_names, profile, dirs);
            &&& history[0].public.risk == RiskLevel::Medium && history[0].public.selected_by_default
            &&& history[1].public.risk == RiskLevel::Safe && history[1].public.selected_by_default
            &&& history[0].public.size_bytes == s.size_bytes && history[1].public.size_bytes
                == s.size_bytes
            &&& cookies[0].public.risk == RiskLevel::Medium && cookies[0].public.selected_by_default
            &&& cookies[0].public.size_bytes == s.size_bytes
            &&& caches.len() > 0 ==> caches[0].public.risk == RiskLevel::Safe
                && caches[0].public.selected_by_default && caches[0].public.name == browser
                + " 缓存"@
            &&& sessions.len() > 0 ==> sessions[0].public.risk == RiskLevel::High
                && !sessions[0].public.selected_by_default
        }),
{
}

/// Caches are previewed up to 160 files and sessions up to 100, and are sized
/// by all files below them.
pub proof fn law_browser_previews_have_their_length(
    browser: Seq<char>,
    process_names: Seq<Seq<char>>,
    profile: Seq<char>,
    dirs: Seq<SurveyView>,
)
    ensures
        ({
            let files = disk::files_below(disk::directories(dirs));
            let caches = cache_drafts(browser, process_names, dirs);
            let sessions = session_drafts(browser, process_names, profile, dirs);
            &&& caches.len() > 0 ==> caches[0].public.children.len() == if files.len() <= 160 {
                files.len() as int
            } else {
                160
            }
            &&& sessions.len() > 0 ==> sessions[0].public.children.len() == if files.len() <= 100 {
                files.len() as int
            } else {
                100
            }
            &&& caches.len() > 0 && disk::total_size(files) <= u64::MAX
                ==> caches[0].public.size_bytes == disk::total_size(files)
        }),
{
}

/// The data of each browser is looked for in a place of its own below the local
/// data directory.
pub proof fn law_browsers_keep_their_data_in_their_places(local: Seq<char>, i: int)
    requires
        disk::is_plain(local),
        0 <= i < chromium_rules_of(local).len(),
    ensures
        chromium_rules_of(local)[i].name == "Chrome"@ ==> chromium_rules_of(local)[i].base == local
            + "\\Google\\Chrome\\User Data"@,
        chromium_rules_of(local)[i].name == "Edge"@ ==> chromium_rules_of(local)[i].base == local
            + "\\Microsoft\\Edge\\User Data"@,
        chromium_rules_of(local)[i].name == "Chromium"@ ==> chromium_rules_of(local)[i].base
            == local + "\\Chromium\\User Data"@,
        chromium_rules_of(local)[i].name == "Brave"@ ==> chromium_rules_of(local)[i].base == local
            + "\\BraveSoftware\\Brave-Browser\\User Data"@,
        seq!["Chrome"@, "Edge"@, "Chromium"@, "Brave"@].contains(chromium_rules_of(local)[i].name),
{
    let names = seq!["Chrome"@, "Edge"@, "Chromium"@, "Brave"@];
    assert(names[i] == chromium_rules_of(local)[i].name);
    reveal_strlit("Chrome");
    reveal_strlit("Edge");
    reveal_strlit("Chromium");
    reveal_strlit("Brave");
    assert("Brave"@[0] == 'B');
    assert("Chrome"@[0] == 'C');
    assert("Chromium"@[0] == 'C');
    assert("Edge"@[0] == 'E');
    reveal_strlit("Google");
    reveal_strlit("Microsoft");
    reveal_strlit("BraveSoftware");
    reveal_strlit("Brave-Browser");
    reveal_strlit("User Data");
    reveal_strlit("\\");
    lemma_user_data(local, "Google"@, "Chrome"@);
    lemma_user_data(local, "Microsoft"@, "Edge"@);
    lemma_user_data(local, "BraveSoftware"@, "Brave-Browser"@);
    disk::lemma_joined_plain(local, "Chromium"@);
    disk::lemma_joined_plain(disk::joined(local, "Chromium"@), "User Data"@);
    reveal_strlit("\\Google\\Chrome\\User Data");
    reveal_strlit("\\Microsoft\\Edge\\User Data");
    reveal_strlit("\\Chromium\\User Data");
    reveal_strlit("\\BraveSoftware\\Brave-Browser\\User Data");
    assert("\\"@ + "Google"@ + "\\"@ + "Chrome"@ + "\\"@ + "User Data"@
        =~= "\\Google\\Chrome\\User Data"@);
    assert("\\"@ + "Microsoft"@ + "\\"@ + "Edge"@ + "\\"@ + "User Data"@
        =~= "\\Microsoft\\Edge\\User Data"@);
    assert("\\"@ + "BraveSoftware"@ + "\\"@ + "Brave-Browser"@ + "\\"@ + "User Data"@
        =~= "\\BraveSoftware\\Brave-Browser\\User Data"@);
    assert(local + "\\"@ + "Chromium"@ + "\\"@ + "User Data"@ =~= local + ("\\"@ + "Chromium"@
        + "\\"@ + "User Data"@));
    assert("\\"@ + "Chromium"@ + "\\"@ + "User Data"@ =~= "\\Chromium\\User Data"@);
}

/// The user data two names below a plain path.
proof fn lemma_user_data(local: Seq<char>, a: Seq<char>, b: Seq<char>)
    requires
        disk::is_plain(local),
        a.len() > 0 && a.last() != '\\' && a.last() != '/',
        b.len() > 0 && b.last() != '\\' && b.last() != '/',
    ensures
        application::below3(local, a, b, "User Data"@) == local + ("\\"@ + a + "\\"@ + b + "\\"@
            + "User Data"@),
{
    reveal_strlit("User Data");
    disk::lemma_joined_plain(local, a);
    disk::lemma_joined_plain(disk::joined(local, a), b);
    disk::lemma_joined_plain(disk::joined(disk::joined(local, a), b), "User Data"@);
    assert(local + "\\"@ + a + "\\"@ + b + "\\"@ + "User Data"@ =~= local + ("\\"@ + a + "\\"@ + b
        + "\\"@ + "User Data"@));
}

/// The history of a profile is the file `History` in it; its cookies are looked
/// for among the network data before the profile itself, and its sessions in
/// three directories.
pub proof fn law_profile_data_is_looked_for_in_its_profile(profile: Seq<char>)
    requires
        disk::is_plain(profile),
    ensures
        profile_plan_of(profile).history == profile + "\\History"@,
        profile_plan_of(profile).cookies == seq![
            profile + "\\Network\\Cookies"@,
            profile + "\\Cookies"@,
        ],
        profile_plan_of(profile).session_dirs == seq![
            profile + "\\Sessions"@,
            profile + "\\Session Storage"@,
            profile + "\\Local Storage\\leveldb"@,
        ],
{
    reveal_strlit("\\");
    reveal_strlit("History");
    reveal_strlit("Network");
    reveal_strlit("Cookies");
    reveal_strlit("Sessions");
    reveal_strlit("Session Storage");
    reveal_strlit("Local Storage");
    reveal_strlit("leveldb");
    disk::lemma_joined_plain(profile, "History"@);
    disk::lemma_joined_plain(profile, "Network"@);
    disk::lemma_joined_plain(disk::joined(profile, "Network"@), "Cookies"@);
    disk::lemma_joined_plain(profile, "Cookies"@);
    disk::lemma_joined_plain(profile, "Sessions"@);
    disk::lemma_joined_plain(profile, "Session Storage"@);
    disk::lemma_joined_plain(profile, "Local Storage"@);
    disk::lemma_joined_plain(disk::joined(profile, "Local Storage"@), "leveldb"@);
    reveal_strlit("\\History");
    reveal_strlit("\\Network\\Cookies");
    reveal_strlit("\\Cookies");
    reveal_strlit("\\Sessions");
    reveal_strlit("\\Session Storage");
    reveal_strlit("\\Local Storage\\leveldb");
    assert(profile_plan_of(profile).history =~= profile + "\\History"@);
    assert(profile_plan_of(profile).cookies[0] =~= profile + "\\Network\\Cookies"@);
    assert(profile_plan_of(profile).cookies[1] =~= profile + "\\Cookies"@);
    assert(profile_plan_of(profile).session_dirs[0] =~= profile + "\\Sessions"@);
    assert(profile_plan_of(profile).session_dirs[1] =~= profile + "\\Session Storage"@);
    assert(profile_plan_of(profile).session_dirs[2] =~= profile + "\\Local Storage\\leveldb"@);
}

/// The offers of a profile are shown under the browser, its name and the paths
/// that they act on.
pub proof fn law_browser_offers_are_shown_by_profile(
    browser: Seq<char>,
    process_names: Seq<Seq<char>>,
    profile: Seq<char>,
    s: SurveyView,
    dirs: Seq<SurveyView>,
    kind: BrowserDbKind,
)
    requires
        s.kind != PathKind::Missing,
    ensures
        ({
            let history = history_drafts(browser, process_names, profile, s);
            let cookies = cookie_drafts(browser, process_names, profile, Some(s), kind);
            let caches = cache_drafts(browser, process_names, dirs);
            let sessions = session_drafts(browser, process_names, profile, dirs);
            &&& history[0].public.name == browser + " 历史记录 ("@ + profile + ")"@
            &&& history[1].public.name == browser + " 下载历史 ("@ + profile + ")"@
            &&& history[0].public.path == s.path && history[1].public.path == s.path
            &&& history[0].public.category == browser && history[1].public.category == browser
            &&& cookies[0].public.name == browser + " Cookie ("@ + profile + ")"@
            &&& cookies[0].public.path == s.path && cookies[0].public.category == browser
            &&& caches.len() > 0 ==> caches[0].public.category == browser && caches[0].public.path
                == disk::path_list(disk::paths_of(disk::directories(dirs)))
            &&& sessions.len() > 0 ==> sessions[0].public.name == browser + " Session 数据 ("@
                + profile + ")"@ && sessions[0].public.category == browser
        }),
{
}

} // verus!
