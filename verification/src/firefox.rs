//! The scan of Firefox, whose profiles are laid out in its own way, and the
//! scan of all browsers together.
use crate::application;
use crate::browser;
use crate::browser::{BrowserSurvey, BrowserView, ProfileDir, ProfileDirView};
use crate::disk;
use crate::disk::{
    FileCollection, FileFilter, FileName, FileView, NameView, PathKind, PathSurvey, SurveyView,
};
use crate::item;
use crate::item::{
    ActionView, BrowserDbKind, CleanAction, ModuleKind, RiskLevel, ScannedItem, ScannedView,
};
use crate::offer;
use crate::offer::Label;
use crate::process;
use crate::system;
use crate::text;
use vstd::prelude::*;

verus! {

// ---------------------------------------------------------------------------
// Where Firefox keeps its data

/// The directory that holds the profiles below a data directory.
pub open spec fn profiles_path(data: Seq<char>) -> Seq<char> {
    application::below3(data, "Mozilla"@, "Firefox"@, "Profiles"@)
}

/// Says where the profiles are; nowhere without a data directory.
pub fn firefox_profiles_dir(app_data: &Option<String>) -> (r: Option<String>)
    ensures
        item::opt_text(r) == match *app_data {
            Some(d) => Some(profiles_path(d@)),
            None => None,
        },
{
    match app_data {
        Some(d) => Some(disk::join_path3(d.as_str(), "Mozilla", "Firefox", "Profiles")),
        None => None,
    }
}

/// The paths of a Firefox profile that are looked at.
#[derive(Debug)]
pub struct FirefoxPlan {
    pub cache_dirs: Vec<String>,
    pub places: String,
    pub cookies: String,
    pub session_dirs: Vec<String>,
    pub session_files: Vec<String>,
}

/// The contents of a [`FirefoxPlan`].
pub struct FirefoxPlanView {
    pub cache_dirs: Seq<Seq<char>>,
    pub places: Seq<char>,
    pub cookies: Seq<char>,
    pub session_dirs: Seq<Seq<char>>,
    pub session_files: Seq<Seq<char>>,
}

impl View for FirefoxPlan {
    type V = FirefoxPlanView;

    open spec fn view(&self) -> FirefoxPlanView {
        FirefoxPlanView {
            cache_dirs: text::views(self.cache_dirs@),
            places: self.places@,
            cookies: self.cookies@,
            session_dirs: text::views(self.session_dirs@),
            session_files: text::views(self.session_files@),
        }
    }
}

/// The paths of a Firefox profile that are looked at: its caches are in the
/// local data directory under the name of the profile, the rest is in the
/// profile itself.
pub open spec fn firefox_plan_of(local: Option<Seq<char>>, profile: ProfileDirView) -> FirefoxPlanView {
    let cached = disk::joined(
        profiles_path(system::or_empty(local)),
        browser::profile_name(profile.name),
    );
    FirefoxPlanView {
        cache_dirs: seq![
            disk::joined(cached, "cache2"@),
            disk::joined(cached, "startupCache"@),
            disk::joined(cached, "thumbnails"@),
        ],
        places: disk::joined(profile.path, "places.sqlite"@),
        cookies: disk::joined(profile.path, "cookies.sqlite"@),
        session_dirs: seq![disk::joined(profile.path, "sessionstore-backups"@)],
        session_files: seq![
            disk::joined(profile.path, "recovery.jsonlz4"@),
            disk::joined(profile.path, "previous.jsonlz4"@),
            disk::joined(profile.path, "sessionstore.jsonlz4"@),
        ],
    }
}

/// Says which paths of a Firefox profile are looked at.
pub fn firefox_profile_plan(local_app_data: &Option<String>, profile: &ProfileDir) -> (r:
    FirefoxPlan)
    ensures
        r@ == firefox_plan_of(item::opt_text(*local_app_data), profile@),
{
    let local = system::text_or_empty(local_app_data);
    let name = browser::shown_profile_name(&profile.name);
    let all = disk::join_path3(local.as_str(), "Mozilla", "Firefox", "Profiles");
    let cached = disk::join_path(all.as_str(), name.as_str());
    let own = profile.path.as_str();
    let r = FirefoxPlan {
        cache_dirs: vec![
            disk::join_path(cached.as_str(), "cache2"),
            disk::join_path(cached.as_str(), "startupCache"),
            disk::join_path(cached.as_str(), "thumbnails"),
        ],
        places: disk::join_path(own, "places.sqlite"),
        cookies: disk::join_path(own, "cookies.sqlite"),
        session_dirs: vec![disk::join_path(own, "sessionstore-backups")],
        session_files: vec![
            disk::join_path(own, "recovery.jsonlz4"),
            disk::join_path(own, "previous.jsonlz4"),
            disk::join_path(own, "sessionstore.jsonlz4"),
        ],
    };
    proof {
        let want = firefox_plan_of(item::opt_text(*local_app_data), profile@);
        assert(r@.cache_dirs =~= want.cache_dirs);
        assert(r@.session_dirs =~= want.session_dirs);
        assert(r@.session_files =~= want.session_files);
    }
    r
}

/// What is known of the paths of a [`FirefoxPlan`].
#[derive(Debug)]
pub struct FirefoxProfileSurvey {
    pub name: FileName,
    pub cache_dirs: Vec<PathSurvey>,
    pub places: PathSurvey,
    pub cookies: PathSurvey,
    pub session_dirs: Vec<PathSurvey>,
    pub session_files: Vec<PathSurvey>,
}

/// The contents of a [`FirefoxProfileSurvey`].
pub struct FirefoxProfileView {
    pub name: NameView,
    pub cache_dirs: Seq<SurveyView>,
    pub places: SurveyView,
    pub cookies: SurveyView,
    pub session_dirs: Seq<SurveyView>,
    pub session_files: Seq<SurveyView>,
}

impl View for FirefoxProfileSurvey {
    type V = FirefoxProfileView;

    open spec fn view(&self) -> FirefoxProfileView {
        FirefoxProfileView {
            name: self.name@,
            cache_dirs: text::views(self.cache_dirs@),
            places: self.places@,
            cookies: self.cookies@,
            session_dirs: text::views(self.session_dirs@),
            session_files: text::views(self.session_files@),
        }
    }
}

/// What is known of Firefox: whether there is a directory of profiles, and its
/// profiles.
#[derive(Debug)]
pub struct FirefoxSurvey {
    pub present: bool,
    pub profiles: Vec<FirefoxProfileSurvey>,
}

/// The contents of a [`FirefoxSurvey`].
pub struct FirefoxView {
    pub present: bool,
    pub profiles: Seq<FirefoxProfileView>,
}

impl View for FirefoxSurvey {
    type V = FirefoxView;

    open spec fn view(&self) -> FirefoxView {
        FirefoxView { present: self.present, profiles: text::views(self.profiles@) }
    }
}

// ---------------------------------------------------------------------------
// The offers

/// The processes that hold the files of Firefox.
pub open spec fn firefox_processes() -> Seq<Seq<char>> {
    seq!["firefox.exe"@]
}

/// The offer to empty the caches of a profile.
pub open spec fn firefox_cache_drafts(p: FirefoxProfileView) -> Seq<ScannedView> {
    offer::directory_drafts(
        offer::label(
            ModuleKind::Browser,
            "Firefox"@,
            browser::profile_title("Firefox"@, " 缓存 ("@, browser::profile_name(p.name)),
            "清理 Firefox 网络与启动缓存。"@,
            RiskLevel::Safe,
            true,
        ),
        firefox_processes(),
        disk::directories(p.cache_dirs),
        160,
        false,
    )
}

/// The offers to clear the history and the list of downloads of a profile.
pub open spec fn places_drafts(p: FirefoxProfileView) -> Seq<ScannedView> {
    let profile = browser::profile_name(p.name);
    if p.places.kind == PathKind::Missing {
        Seq::empty()
    } else {
        seq![
            offer::database_draft(
                offer::label(
                    ModuleKind::Browser,
                    "Firefox"@,
                    browser::profile_title("Firefox"@, " 历史记录 ("@, profile),
                    "清理访问历史并保留书签。"@,
                    RiskLevel::Medium,
                    true,
                ),
                firefox_processes(),
                p.places.path,
                p.places.size_bytes,
                BrowserDbKind::FirefoxHistory,
            ),
            offer::database_draft(
                offer::label(
                    ModuleKind::Browser,
                    "Firefox"@,
                    browser::profile_title("Firefox"@, " 下载历史 ("@, profile),
                    "清理下载记录，不删除已下载文件。"@,
                    RiskLevel::Safe,
                    true,
                ),
                firefox_processes(),
                p.places.path,
                p.places.size_bytes,
                BrowserDbKind::FirefoxDownloads,
            ),
        ]
    }
}

/// The offer to clear the cookies of a profile.
pub open spec fn firefox_cookie_drafts(p: FirefoxProfileView) -> Seq<ScannedView> {
    browser::cookie_drafts(
        "Firefox"@,
        firefox_processes(),
        browser::profile_name(p.name),
        if p.cookies.kind == PathKind::Missing {
            None
        } else {
            Some(p.cookies)
        },
        BrowserDbKind::FirefoxCookies,
    )
}

/// The session directories of a profile that exist.
pub open spec fn session_dirs_of(p: FirefoxProfileView) -> Seq<SurveyView> {
    disk::directories(p.session_dirs)
}

/// The session files of a profile.
pub open spec fn session_files_of(p: FirefoxProfileView) -> Seq<FileView> {
    disk::wanted_files(p.session_files, FileFilter::Any)
}

/// The size of the session data of a profile.
pub open spec fn session_bytes(p: FirefoxProfileView) -> int {
    disk::capped(disk::total_size(disk::files_below(session_dirs_of(p)))) + disk::capped(
        disk::total_size(session_files_of(p)),
    )
}

/// The session data of a profile: its files first, then its directories.
pub open spec fn session_paths(p: FirefoxProfileView) -> Seq<Seq<char>> {
    offer::file_paths(session_files_of(p)) + disk::paths_of(session_dirs_of(p))
}

/// The offer to delete the session data of a profile.
pub open spec fn firefox_session_drafts(p: FirefoxProfileView) -> Seq<ScannedView> {
    if session_dirs_of(p).len() == 0 && session_files_of(p).len() == 0 {
        Seq::empty()
    } else {
        seq![
            offer::draft(
                offer::label(
                    ModuleKind::Browser,
                    "Firefox"@,
                    browser::profile_title(
                        "Firefox"@,
                        " Session 数据 ("@,
                        browser::profile_name(p.name),
                    ),
                    "清理会话恢复数据。"@,
                    RiskLevel::High,
                    false,
                ),
                disk::path_list(session_paths(p)),
                session_bytes(p) as u64,
                firefox_processes(),
                disk::previews(disk::files_below(session_dirs_of(p)), 80) + disk::previews(
                    session_files_of(p),
                    disk::COLLECTION_PREVIEW as int,
                ),
                ActionView::DeletePaths(session_paths(p)),
            ),
        ]
    }
}

/// Everything that is offered of one Firefox profile, in order.
pub open spec fn firefox_profile_drafts(p: FirefoxProfileView) -> Seq<ScannedView> {
    firefox_cache_drafts(p) + places_drafts(p) + firefox_cookie_drafts(p)
        + firefox_session_drafts(p)
}

/// The offers of the profiles, one list for each.
pub open spec fn firefox_lists(profiles: Seq<FirefoxProfileView>) -> Seq<Seq<ScannedView>> {
    profiles.map_values(|p: FirefoxProfileView| firefox_profile_drafts(p))
}

/// Everything that is offered of Firefox, in order.
pub open spec fn firefox_drafts(s: FirefoxView) -> Seq<ScannedView> {
    if s.present {
        offer::chain(firefox_lists(s.profiles))
    } else {
        Seq::empty()
    }
}

/// The sizes of the session data fit in 64 bits.
pub open spec fn sessions_fit(s: FirefoxView) -> bool {
    forall|i: int|
        0 <= i < s.profiles.len() ==> session_bytes(#[trigger] s.profiles[i]) <= u64::MAX
}

/// Decides whether the sizes of the session data fit in 64 bits.
pub fn session_sizes_fit(survey: &FirefoxSurvey) -> (r: bool)
    ensures
        r == sessions_fit(survey@),
{
    let ghost all = text::views(survey.profiles@);
    for i in 0..survey.profiles.len()
        invariant
            all == text::views(survey.profiles@),
            forall|k: int| 0 <= k < i ==> session_bytes(#[trigger] all[k]) <= u64::MAX,
    {
        let p = &survey.profiles[i];
        let dir_size = disk::directories_size(&p.session_dirs);
        let found = disk::collect_existing_files(&p.session_files);
        assert(all[i as int] == p@);
        if dir_size.checked_add(found.size).is_none() {
            assert(session_bytes(survey@.profiles[i as int]) > u64::MAX);
            return false;
        }
    }
    true
}

/// Lists the programs that hold the files of Firefox.
fn firefox_process_names() -> (r: Vec<String>)
    ensures
        text::views(r@) == firefox_processes(),
{
    let r = vec!["firefox.exe".to_owned()];
    assert(text::views(r@) =~= firefox_processes());
    r
}

/// Offers to empty the caches of a profile.
fn offer_caches(items: &mut Vec<ScannedItem>, counter: &mut usize, profile: &str, cache_dirs: Vec<
    PathSurvey,
>, Ghost(p): Ghost<FirefoxProfileView>)
    requires
        profile@ == browser::profile_name(p.name),
        text::views(cache_dirs@) == p.cache_dirs,
        item::has_room(*old(counter), old(items)@.len(), firefox_cache_drafts(p).len()),
    ensures
        item::extends(
            text::views(old(items)@),
            *old(counter) as int,
            text::views(final(items)@),
            *final(counter) as int,
            firefox_cache_drafts(p),
        ),
        final(items)@.len() - old(items)@.len() == *final(counter) - *old(counter),
{
    let title = text::concat4("Firefox", " 缓存 (", profile, ")");
    let dirs = disk::existing_dirs(cache_dirs);
    offer::offer_directories(
        items,
        counter,
        &Label {
            module: ModuleKind::Browser,
            category: "Firefox",
            name: title.as_str(),
            detail: "清理 Firefox 网络与启动缓存。",
            risk: RiskLevel::Safe,
            selected: true,
        },
        firefox_process_names(),
        &dirs,
        160,
        false,
    );
}

/// Offers to clear the history and the downloads of a profile.
fn offer_places(items: &mut Vec<ScannedItem>, counter: &mut usize, profile: &str, places:
    &PathSurvey, Ghost(p): Ghost<FirefoxProfileView>)
    requires
        profile@ == browser::profile_name(p.name),
        places@ == p.places,
        item::has_room(*old(counter), old(items)@.len(), places_drafts(p).len()),
    ensures
        item::extends(
            text::views(old(items)@),
            *old(counter) as int,
            text::views(final(items)@),
            *final(counter) as int,
            places_drafts(p),
        ),
        final(items)@.len() - old(items)@.len() == *final(counter) - *old(counter),
{
    let ghost v0 = text::views(items@);
    let ghost c0 = *counter as int;
    if !places.is_present() {
        proof {
            item::lemma_extends_nothing(v0, c0);
        }
        return;
    }
    let ghost want = places_drafts(p);
    let visits = text::concat4("Firefox", " 历史记录 (", profile, ")");
    offer::offer_database(
        items,
        counter,
        &Label {
            module: ModuleKind::Browser,
            category: "Firefox",
            name: visits.as_str(),
            detail: "清理访问历史并保留书签。",
            risk: RiskLevel::Medium,
            selected: true,
        },
        firefox_process_names(),
        places,
        BrowserDbKind::FirefoxHistory,
    );
    let ghost v1 = text::views(items@);
    let ghost c1 = *counter as int;
    let downloads = text::concat4("Firefox", " 下载历史 (", profile, ")");
    offer::offer_database(
        items,
        counter,
        &Label {
            module: ModuleKind::Browser,
            category: "Firefox",
            name: downloads.as_str(),
            detail: "清理下载记录，不删除已下载文件。",
            risk: RiskLevel::Safe,
            selected: true,
        },
        firefox_process_names(),
        places,
        BrowserDbKind::FirefoxDownloads,
    );
    proof {
        item::lemma_extends_twice(
            v0,
            c0,
            v1,
            c1,
            text::views(items@),
            *counter as int,
            seq![want[0]],
            seq![want[1]],
        );
        assert(seq![want[0]] + seq![want[1]] =~= want);
    }
}

/// Offers to delete the session data of a profile.
fn offer_sessions(items: &mut Vec<ScannedItem>, counter: &mut usize, profile: &str, session_dirs:
    Vec<PathSurvey>, session_files: &Vec<PathSurvey>, Ghost(p): Ghost<FirefoxProfileView>)
    requires
        profile@ == browser::profile_name(p.name),
        text::views(session_dirs@) == p.session_dirs,
        text::views(session_files@) == p.session_files,
        session_bytes(p) <= u64::MAX,
        item::has_room(*old(counter), old(items)@.len(), firefox_session_drafts(p).len()),
    ensures
        item::extends(
            text::views(old(items)@),
            *old(counter) as int,
            text::views(final(items)@),
            *final(counter) as int,
            firefox_session_drafts(p),
        ),
        final(items)@.len() - old(items)@.len() == *final(counter) - *old(counter),
{
    let dirs = disk::existing_dirs(session_dirs);
    let found = disk::collect_existing_files(session_files);
    assert(text::views(dirs@).len() == dirs@.len());
    assert(text::views(found.files@).len() == found.files@.len());
    if dirs.len() == 0 && found.files.len() == 0 {
        proof {
            item::lemma_extends_nothing(text::views(items@), *counter as int);
        }
        return;
    }
    let (dir_size, mut children) = disk::dirs_size_preview(&dirs, 80);
    let FileCollection { size: file_size, preview, files } = found;
    let mut preview = preview;
    let mut paths = files;
    let mut dir_paths = disk::survey_paths(&dirs);
    proof {
        text::lemma_views_add(children@, preview@);
        text::lemma_views_add(paths@, dir_paths@);
    }
    children.append(&mut preview);
    paths.append(&mut dir_paths);
    let shown = disk::join_paths(&paths);
    let title = text::concat4("Firefox", " Session 数据 (", profile, ")");
    let public = item::make_item(
        ModuleKind::Browser,
        "Firefox",
        title.as_str(),
        shown,
        "清理会话恢复数据。",
        dir_size + file_size,
        RiskLevel::High,
        false,
        firefox_process_names(),
        children,
    );
    item::push_item(items, counter, public, CleanAction::DeletePaths(paths));
}

/// Offers what there is of one profile.
fn offer_firefox_profile(
    items: &mut Vec<ScannedItem>,
    counter: &mut usize,
    p: FirefoxProfileSurvey,
)
    requires
        session_bytes(p@) <= u64::MAX,
        item::has_room(*old(counter), old(items)@.len(), firefox_profile_drafts(p@).len()),
    ensures
        item::extends(
            text::views(old(items)@),
            *old(counter) as int,
            text::views(final(items)@),
            *final(counter) as int,
            firefox_profile_drafts(p@),
        ),
        final(items)@.len() - old(items)@.len() == *final(counter) - *old(counter),
{
    let ghost v0 = text::views(items@);
    let ghost c0 = *counter as int;
    let ghost pv = p@;
    let name = browser::shown_profile_name(&p.name);
    let profile = name.as_str();

    offer_caches(items, counter, profile, p.cache_dirs, Ghost(pv));
    let ghost d1 = firefox_cache_drafts(pv);
    let ghost v1 = text::views(items@);
    let ghost c1 = *counter as int;

    offer_places(items, counter, profile, &p.places, Ghost(pv));
    let ghost d2 = d1 + places_drafts(pv);
    let ghost v2 = text::views(items@);
    let ghost c2 = *counter as int;
    proof {
        item::lemma_extends_twice(v0, c0, v1, c1, v2, c2, d1, places_drafts(pv));
    }

    let cookies = if p.cookies.is_present() {
        Some(&p.cookies)
    } else {
        None
    };
    let names = firefox_process_names();
    browser::offer_cookies(
        items,
        counter,
        "Firefox",
        &names,
        profile,
        cookies,
        BrowserDbKind::FirefoxCookies,
        Ghost(
            if pv.cookies.kind == PathKind::Missing {
                None
            } else {
                Some(pv.cookies)
            },
        ),
    );
    let ghost d3 = d2 + firefox_cookie_drafts(pv);
    let ghost v3 = text::views(items@);
    let ghost c3 = *counter as int;
    proof {
        item::lemma_extends_twice(v0, c0, v2, c2, v3, c3, d2, firefox_cookie_drafts(pv));
    }

    offer_sessions(items, counter, profile, p.session_dirs, &p.session_files, Ghost(pv));
    proof {
        item::lemma_extends_twice(
            v0,
            c0,
            v3,
            c3,
            text::views(items@),
            *counter as int,
            d3,
            firefox_session_drafts(pv),
        );
    }
}

/// Offers what is known of Firefox, profile after profile.
pub fn add_firefox_browser(
    items: &mut Vec<ScannedItem>,
    counter: &mut usize,
    survey: FirefoxSurvey,
)
    requires
        sessions_fit(survey@),
        item::has_room(*old(counter), old(items)@.len(), firefox_drafts(survey@).len()),
    ensures
        item::extends(
            text::views(old(items)@),
            *old(counter) as int,
            text::views(final(items)@),
            *final(counter) as int,
            firefox_drafts(survey@),
        ),
        final(items)@.len() - old(items)@.len() == *final(counter) - *old(counter),
{
    let ghost v0 = text::views(items@);
    let ghost c0 = *counter;
    let ghost n0 = items@.len();
    let ghost s = survey@;
    proof {
        item::lemma_extends_nothing(v0, c0 as int);
    }
    if !survey.present {
        return;
    }
    let ghost parts = firefox_lists(s.profiles);
    let ghost total = offer::chain(parts).len();
    assert(parts.take(0) =~= Seq::empty());
    for p in it: survey.profiles
        invariant
            sessions_fit(s),
            s.profiles == text::views(it.seq()),
            parts == firefox_lists(s.profiles),
            item::has_room(c0, n0, total),
            total == offer::chain(parts).len(),
            items@.len() - n0 == *counter - c0,
            item::extends(
                v0,
                c0 as int,
                text::views(items@),
                *counter as int,
                offer::chain(parts.take(it.index() as int)),
            ),
    {
        let ghost i = it.index() as int;
        let ghost v1 = text::views(items@);
        let ghost c1 = *counter as int;
        proof {
            offer::lemma_chain_step(parts, i);
            assert(s.profiles[i] == p@);
            assert(parts[i] == firefox_profile_drafts(p@));
        }
        offer_firefox_profile(items, counter, p);
        proof {
            item::lemma_extends_twice(
                v0,
                c0 as int,
                v1,
                c1,
                text::views(items@),
                *counter as int,
                offer::chain(parts.take(i)),
                parts[i],
            );
        }
    }
    assert(parts.take(parts.len() as int) =~= parts);
}

// ---------------------------------------------------------------------------
// All browsers

/// The offers of the Chromium browsers, one list for each.
pub open spec fn chromium_lists(local: Seq<char>, surveys: Seq<BrowserView>) -> Seq<
    Seq<ScannedView>,
> {
    let rules = browser::chromium_rules_of(local);
    Seq::new(
        rules.len(),
        |i: int| browser::chromium_drafts(rules[i].name, rules[i].process_names, surveys[i]),
    )
}

/// Everything that a scan of the browsers offers, in order. Without a local
/// data directory there are no Chromium browsers.
pub open spec fn browser_drafts(
    local: Option<Seq<char>>,
    surveys: Seq<BrowserView>,
    firefox: FirefoxView,
) -> Seq<ScannedView> {
    match local {
        Some(l) => offer::chain(chromium_lists(l, surveys)) + firefox_drafts(firefox),
        None => firefox_drafts(firefox),
    }
}

/// Scans the browsers. `surveys` holds what is known of each browser of
/// [`browser::chromium_rules`], where there is a local data directory.
pub fn scan_browser_items(
    items: &mut Vec<ScannedItem>,
    counter: &mut usize,
    local_app_data: &Option<String>,
    surveys: Vec<BrowserSurvey>,
    firefox: FirefoxSurvey,
)
    requires
        local_app_data is Some ==> surveys@.len() == 4,
        sessions_fit(firefox@),
        item::has_room(
            *old(counter),
            old(items)@.len(),
            browser_drafts(
                item::opt_text(*local_app_data),
                text::views(surveys@),
                firefox@,
            ).len(),
        ),
    ensures
        item::extends(
            text::views(old(items)@),
            *old(counter) as int,
            text::views(final(items)@),
            *final(counter) as int,
            browser_drafts(item::opt_text(*local_app_data), text::views(surveys@), firefox@),
        ),
        final(items)@.len() - old(items)@.len() == *final(counter) - *old(counter),
{
    let ghost v0 = text::views(items@);
    let ghost c0 = *counter;
    let ghost n0 = items@.len();
    let ghost known = text::views(surveys@);
    proof {
        item::lemma_extends_nothing(v0, c0 as int);
    }
    match local_app_data {
        Some(local) => {
            let rules = browser::chromium_rules(local.as_str());
            let ghost rv = text::views(rules@);
            let ghost parts = chromium_lists(local@, known);
            let ghost total = offer::chain(parts).len() + firefox_drafts(firefox@).len();
            assert(parts.take(0) =~= Seq::empty());
            let mut i: usize = 0;
            for s in it: surveys
                invariant
                    i == it.index(),
                    it.seq().len() == 4,
                    rules@.len() == 4,
                    rv == text::views(rules@),
                    rv == browser::chromium_rules_of(local@),
                    known == text::views(it.seq()),
                    parts == chromium_lists(local@, known),
                    item::has_room(c0, n0, total),
                    offer::chain(parts).len() <= total,
                    items@.len() - n0 == *counter - c0,
                    item::extends(
                        v0,
                        c0 as int,
                        text::views(items@),
                        *counter as int,
                        offer::chain(parts.take(i as int)),
                    ),
            {
                let rule = &rules[i];
                let ghost v1 = text::views(items@);
                let ghost c1 = *counter as int;
                proof {
                    offer::lemma_chain_step(parts, i as int);
                    assert(known[i as int] == s@);
                    assert(rv[i as int] == rule@);
                }
                browser::add_chromium_browser(
                    items,
                    counter,
                    rule.name.as_str(),
                    s,
                    &rule.process_names,
                );
                proof {
                    item::lemma_extends_twice(
                        v0,
                        c0 as int,
                        v1,
                        c1,
                        text::views(items@),
                        *counter as int,
                        offer::chain(parts.take(i as int)),
                        parts[i as int],
                    );
                }
                i = i + 1;
            }
            assert(parts.take(4) =~= parts);
            let ghost v2 = text::views(items@);
            let ghost c2 = *counter as int;
            add_firefox_browser(items, counter, firefox);
            proof {
                item::lemma_extends_twice(
                    v0,
                    c0 as int,
                    v2,
                    c2,
                    text::views(items@),
                    *counter as int,
                    offer::chain(parts),
                    firefox_drafts(firefox@),
                );
            }
        },
        None => {
            add_firefox_browser(items, counter, firefox);
        },
    }
}

/// Everything offered of one Chromium browser is selected as its risk decides.
proof fn lemma_chromium_defaults(
    name: Seq<char>,
    process_names: Seq<Seq<char>>,
    s: BrowserView,
)
    ensures
        offer::defaults_follow_risk(browser::chromium_drafts(name, process_names, s)),
{
    let lists = browser::profile_lists(name, process_names, s.profiles);
    assert forall|i: int| 0 <= i < lists.len() implies offer::defaults_follow_risk(#[trigger] lists[i]) by {
        assert(lists[i] == browser::profile_drafts(name, process_names, s.profiles[i]));
    }
    offer::lemma_defaults_chain(lists);
    offer::lemma_defaults_add(
        browser::cache_drafts(name, process_names, s.cache_dirs),
        offer::chain(lists),
    );
}

/// A scan of the browsers selects what is safe and nothing at high risk.
pub proof fn law_browser_defaults_follow_risk(
    local: Option<Seq<char>>,
    surveys: Seq<BrowserView>,
    firefox: FirefoxView,
)
    ensures
        offer::defaults_follow_risk(browser_drafts(local, surveys, firefox)),
{
    let lists = firefox_lists(firefox.profiles);
    assert forall|i: int| 0 <= i < lists.len() implies offer::defaults_follow_risk(#[trigger] lists[i]) by {
        assert(lists[i] == firefox_profile_drafts(firefox.profiles[i]));
    }
    offer::lemma_defaults_chain(lists);
    if let Some(l) = local {
        let parts = chromium_lists(l, surveys);
        let rules = browser::chromium_rules_of(l);
        assert forall|i: int| 0 <= i < parts.len() implies offer::defaults_follow_risk(#[trigger] parts[i]) by {
            lemma_chromium_defaults(rules[i].name, rules[i].process_names, surveys[i]);
        }
        offer::lemma_defaults_chain(parts);
        offer::lemma_defaults_add(offer::chain(parts), firefox_drafts(firefox));
    }
}

/// Every offer of a browser names the programs that hold its files, so that
/// cleaning can ask about them.
pub proof fn law_browser_offers_name_their_programs(
    local: Option<Seq<char>>,
    surveys: Seq<BrowserView>,
    firefox: FirefoxView,
)
    ensures
        offer::names_programs(browser_drafts(local, surveys, firefox)),
{
    let lists = firefox_lists(firefox.profiles);
    assert forall|i: int| 0 <= i < lists.len() implies offer::names_programs(
        #[trigger] lists[i],
    ) by {
        assert(lists[i] == firefox_profile_drafts(firefox.profiles[i]));
    }
    offer::lemma_names_programs_chain(lists);
    if let Some(l) = local {
        let parts = chromium_lists(l, surveys);
        let rules = browser::chromium_rules_of(l);
        assert forall|i: int| 0 <= i < parts.len() implies offer::names_programs(
            #[trigger] parts[i],
        ) by {
            let name = rules[i].name;
            let programs = rules[i].process_names;
            let s = surveys[i];
            let profiles = browser::profile_lists(name, programs, s.profiles);
            assert(programs.len() > 0);
            assert forall|k: int| 0 <= k < profiles.len() implies offer::names_programs(
                #[trigger] profiles[k],
            ) by {
                assert(profiles[k] == browser::profile_drafts(name, programs, s.profiles[k]));
            }
            offer::lemma_names_programs_chain(profiles);
        }
        offer::lemma_names_programs_chain(parts);
    }
}

// ---------------------------------------------------------------------------
// Keeping to the plan

/// The paths of a plan, in order.
pub open spec fn plan_paths(plan: FirefoxPlanView) -> Seq<Seq<char>> {
    plan.cache_dirs + seq![plan.places, plan.cookies] + plan.session_dirs + plan.session_files
}

/// The surveys of the paths of a plan, in the same order.
pub open spec fn profile_surveys(p: FirefoxProfileView) -> Seq<SurveyView> {
    p.cache_dirs + seq![p.places, p.cookies] + p.session_dirs + p.session_files
}

/// The paths that are planned for Firefox with the given profiles; none where
/// there is no directory of profiles.
pub open spec fn planned_paths(
    present: bool,
    local: Option<Seq<char>>,
    profiles: Seq<ProfileDirView>,
) -> Seq<Seq<char>> {
    if present {
        profiles.map_values(
            |d: ProfileDirView| plan_paths(firefox_plan_of(local, d)),
        ).flatten()
    } else {
        Seq::empty()
    }
}

/// The surveys of the paths of Firefox, in the same order.
pub open spec fn firefox_surveys(s: FirefoxView) -> Seq<SurveyView> {
    if s.present {
        s.profiles.map_values(|p: FirefoxProfileView| profile_surveys(p)).flatten()
    } else {
        Seq::empty()
    }
}

/// The offer on the session data of a profile acts on nothing that was not
/// surveyed.
proof fn lemma_sessions_within(all: Seq<SurveyView>, p: FirefoxProfileView)
    requires
        disk::among(p.session_dirs, all),
        disk::among(p.session_files, all),
    ensures
        offer::within(all, firefox_session_drafts(p)),
{
    let drafts = firefox_session_drafts(p);
    let files = offer::file_paths(session_files_of(p));
    let dirs = disk::paths_of(session_dirs_of(p));
    disk::lemma_filter_among(p.session_dirs, |d: SurveyView| d.kind == PathKind::Directory);
    disk::lemma_among_transitive(session_dirs_of(p), p.session_dirs, all);
    assert forall|i: int, path: Seq<char>|
        0 <= i < drafts.len() && #[trigger] offer::action_paths(drafts[i].action).contains(
            path,
        ) implies disk::covered(all, path) by {
        let paths = session_paths(p);
        let k = choose|k: int| 0 <= k < paths.len() && paths[k] == path;
        if k < files.len() {
            assert(files[k] == path);
            offer::lemma_file_paths_covered(p.session_files, FileFilter::Any, path);
            disk::lemma_covered_among(p.session_files, all, path);
        } else {
            let n = k - files.len();
            assert(dirs[n] == path);
            assert(disk::reaches(session_dirs_of(p)[n], path));
            disk::lemma_covered_among(session_dirs_of(p), all, path);
        }
    }
}

/// The offers of one profile act on nothing that was not surveyed.
proof fn lemma_profile_within(p: FirefoxProfileView)
    ensures
        offer::within(profile_surveys(p), firefox_profile_drafts(p)),
{
    let all = profile_surveys(p);
    let databases = seq![p.places, p.cookies];
    let first2 = p.cache_dirs + databases;
    let first3 = first2 + p.session_dirs;
    disk::lemma_among_sum(first3, p.session_files);
    disk::lemma_among_sum(first2, p.session_dirs);
    disk::lemma_among_sum(p.cache_dirs, databases);
    disk::lemma_among_transitive(first2, first3, all);
    disk::lemma_among_transitive(p.session_dirs, first3, all);
    disk::lemma_among_transitive(p.cache_dirs, first2, all);
    disk::lemma_among_transitive(databases, first2, all);
    assert(databases[0] == p.places && databases[1] == p.cookies);
    assert(all.contains(p.places) && all.contains(p.cookies));
    disk::lemma_filter_among(p.cache_dirs, |d: SurveyView| d.kind == PathKind::Directory);
    disk::lemma_among_transitive(disk::directories(p.cache_dirs), p.cache_dirs, all);
    offer::lemma_directories_within(
        all,
        offer::label(
            ModuleKind::Browser,
            "Firefox"@,
            browser::profile_title("Firefox"@, " 缓存 ("@, browser::profile_name(p.name)),
            "清理 Firefox 网络与启动缓存。"@,
            RiskLevel::Safe,
            true,
        ),
        firefox_processes(),
        disk::directories(p.cache_dirs),
        160,
        false,
    );
    offer::lemma_databases_within(all, p.places, places_drafts(p));
    offer::lemma_databases_within(all, p.cookies, firefox_cookie_drafts(p));
    lemma_sessions_within(all, p);
    let d1 = firefox_cache_drafts(p);
    let d2 = d1 + places_drafts(p);
    let d3 = d2 + firefox_cookie_drafts(p);
    offer::lemma_within_add(all, d1, places_drafts(p));
    offer::lemma_within_add(all, d2, firefox_cookie_drafts(p));
    offer::lemma_within_add(all, d3, firefox_session_drafts(p));
}

/// The offers of Firefox act on nothing that was not surveyed.
pub proof fn lemma_firefox_within(s: FirefoxView)
    ensures
        offer::within(firefox_surveys(s), firefox_drafts(s)),
{
    if s.present {
        let all = firefox_surveys(s);
        let lists = s.profiles.map_values(|p: FirefoxProfileView| profile_surveys(p));
        let parts = firefox_lists(s.profiles);
        assert forall|i: int| 0 <= i < parts.len() implies offer::within(
            all,
            #[trigger] parts[i],
        ) by {
            lemma_profile_within(s.profiles[i]);
            assert(lists[i] == profile_surveys(s.profiles[i]));
            disk::lemma_among_flatten(lists, i);
            offer::lemma_within_more(lists[i], all, parts[i]);
        }
        offer::lemma_within_chain(all, parts);
    }
}

/// Where the surveyed paths are those planned for the profiles of Firefox, the
/// offers act on planned paths and on files below them, and on nothing else.
pub proof fn law_firefox_scan_keeps_to_its_plan(
    local: Option<Seq<char>>,
    profiles: Seq<ProfileDirView>,
    s: FirefoxView,
)
    requires
        disk::paths_of(firefox_surveys(s)) == planned_paths(s.present, local, profiles),
    ensures
        offer::keeps_to_plan(
            planned_paths(s.present, local, profiles),
            firefox_surveys(s),
            firefox_drafts(s),
        ),
{
    lemma_firefox_within(s);
    offer::lemma_keeps_to_plan(
        planned_paths(s.present, local, profiles),
        firefox_surveys(s),
        firefox_drafts(s),
    );
}

/// The surveys of the paths of all browsers, in the order of the scan.
pub open spec fn all_surveys(
    local: Option<Seq<char>>,
    surveys: Seq<BrowserView>,
    firefox: FirefoxView,
) -> Seq<SurveyView> {
    match local {
        Some(_) => surveys.map_values(
            |s: BrowserView| browser::browser_surveys(s),
        ).flatten() + firefox_surveys(firefox),
        None => firefox_surveys(firefox),
    }
}

/// The paths that are planned for all browsers, in the order of the scan.
/// `profiles` holds the profiles of each Chromium browser.
pub open spec fn all_planned_paths(
    local: Option<Seq<char>>,
    surveys: Seq<BrowserView>,
    firefox: FirefoxView,
    profiles: Seq<Seq<ProfileDirView>>,
    firefox_profiles: Seq<ProfileDirView>,
) -> Seq<Seq<char>> {
    let own = planned_paths(firefox.present, local, firefox_profiles);
    match local {
        Some(l) => {
            let rules = browser::chromium_rules_of(l);
            Seq::new(
                rules.len(),
                |i: int| browser::planned_paths(surveys[i].present, rules[i].base, profiles[i]),
            ).flatten() + own
        },
        None => own,
    }
}

/// A scan of the browsers acts on nothing that was not surveyed.
pub proof fn lemma_browsers_within(
    local: Option<Seq<char>>,
    surveys: Seq<BrowserView>,
    firefox: FirefoxView,
)
    requires
        local is Some ==> surveys.len() == 4,
    ensures
        offer::within(
            all_surveys(local, surveys, firefox),
            browser_drafts(local, surveys, firefox),
        ),
{
    let all = all_surveys(local, surveys, firefox);
    lemma_firefox_within(firefox);
    if let Some(l) = local {
        let rules = browser::chromium_rules_of(l);
        let lists = surveys.map_values(|s: BrowserView| browser::browser_surveys(s));
        let parts = chromium_lists(l, surveys);
        disk::lemma_among_sum(lists.flatten(), firefox_surveys(firefox));
        offer::lemma_within_more(firefox_surveys(firefox), all, firefox_drafts(firefox));
        assert forall|i: int| 0 <= i < parts.len() implies offer::within(
            all,
            #[trigger] parts[i],
        ) by {
            browser::lemma_chromium_within(rules[i].name, rules[i].process_names, surveys[i]);
            assert(lists[i] == browser::browser_surveys(surveys[i]));
            disk::lemma_among_flatten(lists, i);
            disk::lemma_among_transitive(lists[i], lists.flatten(), all);
            offer::lemma_within_more(lists[i], all, parts[i]);
        }
        offer::lemma_within_chain(all, parts);
        offer::lemma_within_add(all, offer::chain(parts), firefox_drafts(firefox));
    }
}

/// Where the surveyed paths are those planned for the browsers of an
/// environment and their profiles, a scan of the browsers acts on planned paths
/// and on files below them, and on nothing else.
pub proof fn law_browser_scan_keeps_to_its_plan(
    local: Option<Seq<char>>,
    surveys: Seq<BrowserView>,
    firefox: FirefoxView,
    profiles: Seq<Seq<ProfileDirView>>,
    firefox_profiles: Seq<ProfileDirView>,
)
    requires
        local is Some ==> surveys.len() == 4,
        disk::paths_of(all_surveys(local, surveys, firefox)) == all_planned_paths(
            local,
            surveys,
            firefox,
            profiles,
            firefox_profiles,
        ),
    ensures
        offer::keeps_to_plan(
            all_planned_paths(local, surveys, firefox, profiles, firefox_profiles),
            all_surveys(local, surveys, firefox),
            browser_drafts(local, surveys, firefox),
        ),
{
    lemma_browsers_within(local, surveys, firefox);
    offer::lemma_keeps_to_plan(
        all_planned_paths(local, surveys, firefox, profiles, firefox_profiles),
        all_surveys(local, surveys, firefox),
        browser_drafts(local, surveys, firefox),
    );
}

// ---------------------------------------------------------------------------
// Running browsers

/// Whether every offer is of one browser and names its programs.
spec fn is_of(drafts: Seq<ScannedView>, browser: Seq<char>, programs: Seq<Seq<char>>) -> bool {
    forall|i: int|
        0 <= i < drafts.len() ==> (#[trigger] drafts[i]).public.category == browser
            && drafts[i].public.process_names == programs
}

/// Lists of offers of one browser are offers of that browser together.
proof fn lemma_is_of_chain(
    parts: Seq<Seq<ScannedView>>,
    browser: Seq<char>,
    programs: Seq<Seq<char>>,
)
    requires
        forall|i: int| 0 <= i < parts.len() ==> is_of(#[trigger] parts[i], browser, programs),
    ensures
        is_of(offer::chain(parts), browser, programs),
{
    let all = offer::chain(parts);
    assert forall|n: int| 0 <= n < all.len() implies (#[trigger] all[n]).public.category == browser
        && all[n].public.process_names == programs by {
        offer::lemma_chain_at(parts, n);
        let (i, j) = choose|i: int, j: int|
            0 <= i < parts.len() && 0 <= j < parts[i].len() && all[n] == #[trigger] parts[i][j];
        assert(is_of(parts[i], browser, programs));
    }
}

/// Offers of one browser one after the other are offers of that browser.
proof fn lemma_is_of_add(
    a: Seq<ScannedView>,
    b: Seq<ScannedView>,
    browser: Seq<char>,
    programs: Seq<Seq<char>>,
)
    requires
        is_of(a, browser, programs),
        is_of(b, browser, programs),
    ensures
        is_of(a + b, browser, programs),
{
    assert forall|i: int| 0 <= i < (a + b).len() implies (#[trigger] (a + b)[i]).public.category
        == browser && (a + b)[i].public.process_names == programs by {
        if i < a.len() {
            assert((a + b)[i] == a[i]);
        } else {
            assert((a + b)[i] == b[i - a.len()]);
        }
    }
}

/// The offers of a Chromium browser are of that browser.
proof fn lemma_chromium_is_of(name: Seq<char>, programs: Seq<Seq<char>>, s: BrowserView)
    ensures
        is_of(browser::chromium_drafts(name, programs, s), name, programs),
{
    let parts = browser::profile_lists(name, programs, s.profiles);
    let caches = browser::cache_drafts(name, programs, s.cache_dirs);
    assert forall|k: int| 0 <= k < parts.len() implies is_of(
        #[trigger] parts[k],
        name,
        programs,
    ) by {
        let p = s.profiles[k];
        let profile = browser::profile_name(p.name);
        let history = browser::history_drafts(name, programs, profile, p.history);
        let cookies = browser::cookie_drafts(
            name,
            programs,
            profile,
            browser::first_present(p.cookies),
            BrowserDbKind::ChromiumCookies,
        );
        let sessions = browser::session_drafts(name, programs, profile, p.session_dirs);
        assert(is_of(history, name, programs));
        assert(is_of(cookies, name, programs));
        assert(is_of(sessions, name, programs));
        lemma_is_of_add(history, cookies, name, programs);
        lemma_is_of_add(history + cookies, sessions, name, programs);
        assert(parts[k] == history + cookies + sessions);
    }
    lemma_is_of_chain(parts, name, programs);
    assert(is_of(caches, name, programs));
    lemma_is_of_add(caches, offer::chain(parts), name, programs);
}

/// The offers of Firefox are of Firefox.
proof fn lemma_firefox_is_of(s: FirefoxView)
    ensures
        is_of(firefox_drafts(s), "Firefox"@, firefox_processes()),
{
    let name = "Firefox"@;
    let programs = firefox_processes();
    let parts = firefox_lists(s.profiles);
    assert forall|k: int| 0 <= k < parts.len() implies is_of(
        #[trigger] parts[k],
        name,
        programs,
    ) by {
        let p = s.profiles[k];
        let d1 = firefox_cache_drafts(p);
        let d2 = places_drafts(p);
        let d3 = firefox_cookie_drafts(p);
        let d4 = firefox_session_drafts(p);
        assert(is_of(d1, name, programs));
        assert(is_of(d2, name, programs));
        assert(is_of(d3, name, programs));
        assert(is_of(d4, name, programs));
        lemma_is_of_add(d1, d2, name, programs);
        lemma_is_of_add(d1 + d2, d3, name, programs);
        lemma_is_of_add(d1 + d2 + d3, d4, name, programs);
        assert(parts[k] == d1 + d2 + d3 + d4);
    }
    lemma_is_of_chain(parts, name, programs);
}

/// Every offer of a scan of the browsers belongs to one of them.
proof fn lemma_offer_has_a_browser(
    local: Option<Seq<char>>,
    surveys: Seq<BrowserView>,
    firefox: FirefoxView,
    n: int,
)
    requires
        0 <= n < browser_drafts(local, surveys, firefox).len(),
    ensures
        ({
            let d = browser_drafts(local, surveys, firefox)[n];
            ||| d.public.category == "Firefox"@ && d.public.process_names == seq!["firefox.exe"@]
            ||| d.public.category == "Chrome"@ && d.public.process_names == seq!["chrome.exe"@]
            ||| d.public.category == "Edge"@ && d.public.process_names == seq!["msedge.exe"@]
            ||| d.public.category == "Chromium"@ && d.public.process_names == seq![
                "chromium.exe"@,
                "chrome.exe"@,
            ]
            ||| d.public.category == "Brave"@ && d.public.process_names == seq!["brave.exe"@]
        }),
{
    let d = browser_drafts(local, surveys, firefox)[n];
    lemma_firefox_is_of(firefox);
    if let Some(l) = local {
        let parts = chromium_lists(l, surveys);
        let rules = browser::chromium_rules_of(l);
        let first = offer::chain(parts);
        if n < first.len() {
            offer::lemma_chain_at(parts, n);
            let (i, j) = choose|i: int, j: int|
                0 <= i < parts.len() && 0 <= j < parts[i].len() && first[n]
                    == #[trigger] parts[i][j];
            lemma_chromium_is_of(rules[i].name, rules[i].process_names, surveys[i]);
            assert(d == parts[i][j]);
        } else {
            assert(d == firefox_drafts(firefox)[n - first.len()]);
        }
    }
}

/// While a browser runs, that is, while its own executable stands on a line of
/// the process list, in whatever case and whatever else is listed, every offer
/// of that browser is in conflict, and without a decision about it nothing is
/// cleaned.
pub proof fn law_running_browser_holds_its_offers(
    local: Option<Seq<char>>,
    surveys: Seq<BrowserView>,
    firefox: FirefoxView,
    n: int,
    program: Seq<char>,
    items: Seq<ScannedView>,
    running: Seq<Seq<Seq<char>>>,
    decisions: Seq<process::DecisionView>,
    i: int,
    number: int,
    lines: Seq<Seq<char>>,
    j: int,
    name: Seq<char>,
    rest: Seq<char>,
)
    requires
        0 <= n < browser_drafts(local, surveys, firefox).len(),
        ({
            let browser = browser_drafts(local, surveys, firefox)[n].public.category;
            ||| browser == "Chrome"@ && program == "chrome.exe"@
            ||| browser == "Edge"@ && program == "msedge.exe"@
            ||| browser == "Chromium"@ && program == "chromium.exe"@
            ||| browser == "Brave"@ && program == "brave.exe"@
            ||| browser == "Firefox"@ && program == "firefox.exe"@
        }),
        items.len() == running.len(),
        0 <= i < items.len(),
        items[i] == item::with_number(browser_drafts(local, surveys, firefox)[n], number),
        running[i] == process::running_list(items[i].public.process_names, lines),
        0 <= j < lines.len(),
        lines[j] == "\""@ + name + "\""@ + rest,
        forall|m: int| 0 <= m < name.len() ==> name[m] != '"',
        text::lower(name) == program,
    ensures
        exists|c: process::ConflictView| #[trigger]
            process::conflicts_of(items, running).contains(c) && c.item_id == items[i].public.id
                && c.running_processes.contains(name),
        process::decision_of(decisions, items[i].public.id) is None ==> !process::all_decided(
            process::conflicts_of(items, running),
            decisions,
        ),
{
    reveal_strlit("Chrome");
    reveal_strlit("Edge");
    reveal_strlit("Chromium");
    reveal_strlit("Brave");
    reveal_strlit("Firefox");
    reveal_strlit("chrome.exe");
    reveal_strlit("msedge.exe");
    reveal_strlit("chromium.exe");
    reveal_strlit("brave.exe");
    reveal_strlit("firefox.exe");
    lemma_offer_has_a_browser(local, surveys, firefox, n);
    let programs = items[i].public.process_names;
    let browser = browser_drafts(local, surveys, firefox)[n].public.category;
    assert("Chrome"@.len() == 6 && "Edge"@.len() == 4 && "Chromium"@.len() == 8 && "Brave"@.len()
        == 5 && "Firefox"@.len() == 7);
    assert(programs[0] == program);
    assert(text::lower(program) =~= program);
    process::law_listed_program_holds_its_items(
        items,
        running,
        decisions,
        i,
        lines,
        j,
        name,
        rest,
        0,
    );
}

// ---------------------------------------------------------------------------
// What is offered of the browsers

/// Every Chromium browser and Firefox are offered with all that there is of
/// them; without a local data directory there is Firefox alone.
pub proof fn law_every_browser_is_offered(
    local: Option<Seq<char>>,
    surveys: Seq<BrowserView>,
    firefox: FirefoxView,
    i: int,
)
    requires
        0 <= i < 4,
    ensures
        offer::includes_all(browser_drafts(local, surveys, firefox), firefox_drafts(firefox)),
        local matches Some(l) ==> offer::includes_all(
            browser_drafts(local, surveys, firefox),
            browser::chromium_drafts(
                browser::chromium_rules_of(l)[i].name,
                browser::chromium_rules_of(l)[i].process_names,
                surveys[i],
            ),
        ),
        local matches Some(l) ==> browser::chromium_rules_of(l)[0].name == "Chrome"@
            && browser::chromium_rules_of(l)[1].name == "Edge"@ && browser::chromium_rules_of(
            l,
        )[2].name == "Chromium"@ && browser::chromium_rules_of(l)[3].name == "Brave"@,
        local is None ==> browser_drafts(local, surveys, firefox) == firefox_drafts(firefox),
{
    if let Some(l) = local {
        let parts = chromium_lists(l, surveys);
        offer::lemma_includes_sum(offer::chain(parts), firefox_drafts(firefox));
        offer::lemma_includes_chain(parts, i);
        offer::lemma_includes_transitive(
            browser_drafts(local, surveys, firefox),
            offer::chain(parts),
            parts[i],
        );
    } else {
        offer::lemma_includes_sum(Seq::empty(), firefox_drafts(firefox));
        assert(Seq::<ScannedView>::empty() + firefox_drafts(firefox) =~= firefox_drafts(firefox));
    }
}

/// Firefox offers everything of every profile where it has a directory of
/// profiles, and else nothing.
pub proof fn law_every_firefox_profile_is_offered(s: FirefoxView, i: int)
    requires
        0 <= i < s.profiles.len(),
    ensures
        s.present ==> offer::includes_all(
            firefox_drafts(s),
            firefox_profile_drafts(s.profiles[i]),
        ),
        !s.present ==> firefox_drafts(s).len() == 0,
{
    let parts = firefox_lists(s.profiles);
    offer::lemma_includes_chain(parts, i);
    assert(parts[i] == firefox_profile_drafts(s.profiles[i]));
}

/// Of a Firefox profile with a database of places, clearing the history and
/// clearing the downloads are both offered on that database, each under its
/// name; of one with a database of cookies, clearing them is offered on that;
/// and no other database is offered. Session data is at high risk.
pub proof fn law_firefox_offers_match_their_databases(p: FirefoxProfileView)
    ensures
        ({
            let all = firefox_profile_drafts(p);
            let shown = browser::profile_name(p.name);
            &&& p.places.kind != PathKind::Missing ==> exists|i: int|
                0 <= i < all.len() && (#[trigger] all[i]).action == (ActionView::BrowserSql {
                    db_path: p.places.path,
                    kind: BrowserDbKind::FirefoxHistory,
                }) && all[i].public.name == "Firefox"@ + " 历史记录 ("@ + shown + ")"@
            &&& p.places.kind != PathKind::Missing ==> exists|i: int|
                0 <= i < all.len() && (#[trigger] all[i]).action == (ActionView::BrowserSql {
                    db_path: p.places.path,
                    kind: BrowserDbKind::FirefoxDownloads,
                }) && all[i].public.name == "Firefox"@ + " 下载历史 ("@ + shown + ")"@
            &&& p.cookies.kind != PathKind::Missing ==> exists|i: int|
                0 <= i < all.len() && (#[trigger] all[i]).action == (ActionView::BrowserSql {
                    db_path: p.cookies.path,
                    kind: BrowserDbKind::FirefoxCookies,
                }) && all[i].public.name == "Firefox"@ + " Cookie ("@ + shown + ")"@
            &&& forall|i: int|
                0 <= i < all.len() ==> match (#[trigger] all[i]).action {
                    ActionView::BrowserSql { db_path, kind } => {
                        ||| kind == BrowserDbKind::FirefoxHistory && db_path == p.places.path
                            && p.places.kind != PathKind::Missing
                        ||| kind == BrowserDbKind::FirefoxDownloads && db_path == p.places.path
                            && p.places.kind != PathKind::Missing
                        ||| kind == BrowserDbKind::FirefoxCookies && db_path == p.cookies.path
                            && p.cookies.kind != PathKind::Missing
                    },
                    ActionView::DeleteDirectoryContents(dirs) => dirs == disk::paths_of(
                        disk::directories(p.cache_dirs),
                    ),
                    ActionView::DeletePaths(paths) => all[i].public.risk == RiskLevel::High
                        && paths == offer::file_paths(
                        disk::wanted_files(p.session_files, FileFilter::Any),
                    ) + disk::paths_of(disk::directories(p.session_dirs)),
                    _ => false,
                }
        }),
{
    let d1 = firefox_cache_drafts(p);
    let d2 = places_drafts(p);
    let d3 = firefox_cookie_drafts(p);
    let d4 = firefox_session_drafts(p);
    let all = firefox_profile_drafts(p);
    assert(all =~= d1 + d2 + d3 + d4);
    if p.places.kind != PathKind::Missing {
        assert(all[d1.len() as int] == d2[0]);
        assert(all[d1.len() as int + 1] == d2[1]);
    }
    if p.cookies.kind != PathKind::Missing {
        assert(all[(d1.len() + d2.len()) as int] == d3[0]);
    }
    assert forall|i: int| 0 <= i < all.len() implies match (#[trigger] all[i]).action {
        ActionView::BrowserSql { db_path, kind } => {
            ||| kind == BrowserDbKind::FirefoxHistory && db_path == p.places.path && p.places.kind
                != PathKind::Missing
            ||| kind == BrowserDbKind::FirefoxDownloads && db_path == p.places.path && p.places.kind
                != PathKind::Missing
            ||| kind == BrowserDbKind::FirefoxCookies && db_path == p.cookies.path && p.cookies.kind
                != PathKind::Missing
        },
        ActionView::DeleteDirectoryContents(dirs) => dirs == disk::paths_of(
            disk::directories(p.cache_dirs),
        ),
        ActionView::DeletePaths(paths) => all[i].public.risk == RiskLevel::High && paths
            == offer::file_paths(disk::wanted_files(p.session_files, FileFilter::Any))
            + disk::paths_of(disk::directories(p.session_dirs)),
        _ => false,
    } by {
        if i < d1.len() {
            assert(all[i] == d1[i]);
        } else if i < d1.len() + d2.len() {
            assert(all[i] == d2[i - d1.len()]);
        } else if i < d1.len() + d2.len() + d3.len() {
            assert(all[i] == d3[i - d1.len() - d2.len()]);
        } else {
            assert(all[i] == d4[i - d1.len() - d2.len() - d3.len()]);
        }
    }
}

/// The history, the cookies and the sessions of a Firefox profile are looked
/// for in the profile itself, its caches below the local data directory under
/// the profile's own name.
pub proof fn law_firefox_data_is_looked_for_in_its_profile(
    local: Seq<char>,
    profile: ProfileDirView,
)
    requires
        profile.name.exact,
    ensures
        ({
            let plan = firefox_plan_of(Some(local), profile);
            let roots = disk::joined(
                disk::joined(disk::joined(local, "Mozilla"@), "Firefox"@),
                "Profiles"@,
            );
            let own = disk::joined(roots, profile.name.text);
            &&& plan.places == disk::joined(profile.path, "places.sqlite"@)
            &&& plan.cookies == disk::joined(profile.path, "cookies.sqlite"@)
            &&& plan.session_dirs.contains(disk::joined(profile.path, "sessionstore-backups"@))
            &&& plan.session_files.contains(disk::joined(profile.path, "recovery.jsonlz4"@))
            &&& plan.session_files.contains(disk::joined(profile.path, "previous.jsonlz4"@))
            &&& plan.session_files.contains(disk::joined(profile.path, "sessionstore.jsonlz4"@))
            &&& plan.cache_dirs.contains(disk::joined(own, "cache2"@))
            &&& plan.cache_dirs.contains(disk::joined(own, "startupCache"@))
            &&& plan.cache_dirs.contains(disk::joined(own, "thumbnails"@))
            &&& plan.session_files.len() == 3 && plan.session_dirs.len() == 1
                && plan.cache_dirs.len() == 3
        }),
{
    let plan = firefox_plan_of(Some(local), profile);
    assert(plan.session_dirs[0] == disk::joined(profile.path, "sessionstore-backups"@));
    assert(plan.session_files[0] == disk::joined(profile.path, "recovery.jsonlz4"@));
    assert(plan.session_files[1] == disk::joined(profile.path, "previous.jsonlz4"@));
    assert(plan.session_files[2] == disk::joined(profile.path, "sessionstore.jsonlz4"@));
    let c = plan.cache_dirs;
    assert(c.contains(c[0]) && c.contains(c[1]) && c.contains(c[2]));
}

/// Histories and cookies of Firefox are at medium risk and selected, downloads
/// and caches are safe and selected.
pub proof fn law_firefox_offers_have_their_risk(p: FirefoxProfileView)
    ensures
        p.places.kind != PathKind::Missing ==> {
            let places = places_drafts(p);
            &&& places[0].public.risk == RiskLevel::Medium && places[0].public.selected_by_default
            &&& places[1].public.risk == RiskLevel::Safe && places[1].public.selected_by_default
            &&& places[0].public.size_bytes == p.places.size_bytes && places[1].public.size_bytes
                == p.places.size_bytes
        },
        p.cookies.kind != PathKind::Missing ==> {
            let cookies = firefox_cookie_drafts(p);
            &&& cookies[0].public.risk == RiskLevel::Medium && cookies[0].public.selected_by_default
            &&& cookies[0].public.size_bytes == p.cookies.size_bytes
        },
        ({
            let caches = firefox_cache_drafts(p);
            let files = disk::files_below(disk::directories(p.cache_dirs));
            caches.len() > 0 ==> caches[0].public.risk == RiskLevel::Safe
                && caches[0].public.selected_by_default && caches[0].public.children.len()
                == if files.len() <= 160 {
                files.len() as int
            } else {
                160
            }
        }),
{
}

/// Session data of Firefox is offered exactly where a session directory or a
/// session file exists. What is deleted are those files and directories, the
/// size is that of both together, and the offer is at high risk and not
/// selected.
pub proof fn law_firefox_sessions_are_deleted_whole(p: FirefoxProfileView)
    ensures
        ({
            let dirs = disk::directories(p.session_dirs);
            let files = disk::wanted_files(p.session_files, FileFilter::Any);
            let offers = firefox_session_drafts(p);
            &&& offers.len() == if dirs.len() + files.len() > 0 {
                1int
            } else {
                0
            }
            &&& offers.len() > 0 ==> {
                &&& offers[0].public.risk == RiskLevel::High
                &&& !offers[0].public.selected_by_default
                &&& offers[0].public.process_names == seq!["firefox.exe"@]
                &&& offers[0].action == ActionView::DeletePaths(
                    offer::file_paths(files) + disk::paths_of(dirs),
                )
                &&& disk::total_size(disk::files_below(dirs)) + disk::total_size(files) <= u64::MAX
                    ==> offers[0].public.size_bytes == disk::total_size(disk::files_below(dirs))
                    + disk::total_size(files)
                &&& offers[0].public.children.len() <= 80 + 180
                &&& files.len() == 0 && disk::files_below(dirs).len() >= 80
                    ==> offers[0].public.children.len() == 80
                &&& disk::files_below(dirs).len() == 0 && files.len() >= 180
                    ==> offers[0].public.children.len() == 180
            }
        }),
{
}

/// The profiles of Firefox are looked for in one place below the data
/// directory, and caches in the same place below the local one; there a profile
/// whose name is no text goes by a general name.
pub proof fn law_firefox_profiles_are_in_their_place(data: Seq<char>, profile: ProfileDirView)
    requires
        disk::is_plain(data),
    ensures
        profiles_path(data) == data + "\\Mozilla\\Firefox\\Profiles"@,
        !profile.name.exact ==> firefox_plan_of(Some(data), profile).cache_dirs == seq![
            data + "\\Mozilla\\Firefox\\Profiles\\Profile\\cache2"@,
            data + "\\Mozilla\\Firefox\\Profiles\\Profile\\startupCache"@,
            data + "\\Mozilla\\Firefox\\Profiles\\Profile\\thumbnails"@,
        ],
{
    reveal_strlit("\\");
    reveal_strlit("Mozilla");
    reveal_strlit("Firefox");
    reveal_strlit("Profiles");
    reveal_strlit("Profile");
    reveal_strlit("cache2");
    reveal_strlit("startupCache");
    reveal_strlit("thumbnails");
    reveal_strlit("\\Mozilla\\Firefox\\Profiles");
    reveal_strlit("\\Mozilla\\Firefox\\Profiles\\Profile\\cache2");
    reveal_strlit("\\Mozilla\\Firefox\\Profiles\\Profile\\startupCache");
    reveal_strlit("\\Mozilla\\Firefox\\Profiles\\Profile\\thumbnails");
    let d1 = disk::joined(data, "Mozilla"@);
    let d2 = disk::joined(d1, "Firefox"@);
    let d3 = disk::joined(d2, "Profiles"@);
    let d4 = disk::joined(d3, "Profile"@);
    disk::lemma_joined_plain(data, "Mozilla"@);
    disk::lemma_joined_plain(d1, "Firefox"@);
    disk::lemma_joined_plain(d2, "Profiles"@);
    disk::lemma_joined_plain(d3, "Profile"@);
    disk::lemma_joined_plain(d4, "cache2"@);
    disk::lemma_joined_plain(d4, "startupCache"@);
    disk::lemma_joined_plain(d4, "thumbnails"@);
    assert(d3 =~= data + "\\Mozilla\\Firefox\\Profiles"@);
    if !profile.name.exact {
        let c = firefox_plan_of(Some(data), profile).cache_dirs;
        assert(c[0] =~= data + "\\Mozilla\\Firefox\\Profiles\\Profile\\cache2"@);
        assert(c[1] =~= data + "\\Mozilla\\Firefox\\Profiles\\Profile\\startupCache"@);
        assert(c[2] =~= data + "\\Mozilla\\Firefox\\Profiles\\Profile\\thumbnails"@);
    }
}

/// The offers of a Firefox profile are shown under its name and the paths that
/// they act on.
pub proof fn law_firefox_offers_are_shown_by_profile(p: FirefoxProfileView)
    requires
        p.name.exact,
    ensures
        p.places.kind != PathKind::Missing ==> {
            let places = places_drafts(p);
            &&& places[0].public.name == "Firefox"@ + " 历史记录 ("@ + p.name.text + ")"@
            &&& places[1].public.name == "Firefox"@ + " 下载历史 ("@ + p.name.text + ")"@
            &&& places[0].public.path == p.places.path && places[1].public.path == p.places.path
            &&& places[0].public.category == "Firefox"@ && places[1].public.category == "Firefox"@
        },
        p.cookies.kind != PathKind::Missing ==> {
            let cookies = firefox_cookie_drafts(p);
            &&& cookies[0].public.name == "Firefox"@ + " Cookie ("@ + p.name.text + ")"@
            &&& cookies[0].public.path == p.cookies.path
            &&& cookies[0].public.category == "Firefox"@
        },
        ({
            let caches = firefox_cache_drafts(p);
            let sessions = firefox_session_drafts(p);
            &&& caches.len() > 0 ==> caches[0].public.name == "Firefox"@ + " 缓存 ("@ + p.name.text
                + ")"@ && caches[0].public.category == "Firefox"@
            &&& sessions.len() > 0 ==> sessions[0].public.name == "Firefox"@ + " Session 数据 ("@
                + p.name.text + ")"@ && sessions[0].public.category == "Firefox"@
        }),
{
}

} // verus!
