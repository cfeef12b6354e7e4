//! The scan as a whole: its parts one after the other, and what is shown of it.
use crate::application;
use crate::browser::{BrowserSurvey, ProfileDirView};
use crate::disk;
use crate::disk::{PathSurvey, SurveyView};
use crate::firefox;
use crate::firefox::FirefoxSurvey;
use crate::item;
use crate::item::{CleanerItem, ItemView, ScannedItem, ScannedView};
use crate::offer;
use crate::registry;
use crate::registry::RegistrySurvey;
use crate::system;
use crate::system::{SystemEnv, SystemSurvey};
use crate::text;
use vstd::prelude::*;

verus! {

/// What is known of the browsers.
#[derive(Debug)]
pub struct BrowserInput {
    pub local_app_data: Option<String>,
    pub chromium: Vec<BrowserSurvey>,
    pub firefox: FirefoxSurvey,
}

/// What is known of the applications.
#[derive(Debug)]
pub struct ApplicationInput {
    pub app_data: Option<String>,
    pub local_app_data: Option<String>,
    pub rules: Vec<Vec<PathSurvey>>,
    pub temp: Option<PathSurvey>,
}

/// What is known of the parts of the system that are scanned; `None` where a
/// part is left out.
#[derive(Debug)]
pub struct ScanSurvey {
    pub system: Option<SystemSurvey>,
    pub browsers: Option<BrowserInput>,
    pub applications: Option<ApplicationInput>,
    pub registry: Option<RegistrySurvey>,
}

/// What the scan of the system offers.
pub open spec fn system_part(s: Option<SystemSurvey>) -> Seq<ScannedView> {
    match s {
        Some(v) => system::system_drafts(v@),
        None => Seq::empty(),
    }
}

/// What the scan of the browsers offers.
pub open spec fn browser_part(b: Option<BrowserInput>) -> Seq<ScannedView> {
    match b {
        Some(v) => firefox::browser_drafts(
            item::opt_text(v.local_app_data),
            text::views(v.chromium@),
            v.firefox@,
        ),
        None => Seq::empty(),
    }
}

/// What the scan of the applications offers.
pub open spec fn application_part(a: Option<ApplicationInput>) -> Seq<ScannedView> {
    match a {
        Some(v) => application::all_application_drafts(
            application::rules_of(
                item::opt_text(v.app_data),
                item::opt_text(v.local_app_data),
            ),
            application::survey_lists(v.rules@),
            disk::opt_survey(v.temp),
        ),
        None => Seq::empty(),
    }
}

/// What the scan of the registry offers.
pub open spec fn registry_part(r: Option<RegistrySurvey>) -> Seq<ScannedView> {
    match r {
        Some(v) => registry::registry_drafts(v@),
        None => Seq::empty(),
    }
}

/// Everything that a scan offers, in order.
pub open spec fn scan_drafts(s: ScanSurvey) -> Seq<ScannedView> {
    system_part(s.system) + browser_part(s.browsers) + application_part(s.applications)
        + registry_part(s.registry)
}

/// Whether the survey answers for everything that is looked at: each browser,
/// each application and each key has its entry, and sizes fit in 64 bits.
pub open spec fn is_complete(s: ScanSurvey) -> bool {
    &&& s.browsers matches Some(b) ==> {
        &&& b.local_app_data is Some ==> b.chromium@.len() == 4
        &&& firefox::sessions_fit(b.firefox@)
    }
    &&& s.applications matches Some(a) ==> a.rules@.len() == 6
    &&& s.registry matches Some(r) ==> registry::covers_targets(r@)
}

/// Decides whether the survey answers for everything that is looked at.
pub fn check_survey(s: &ScanSurvey) -> (r: bool)
    ensures
        r == is_complete(*s),
{
    let browsers = match &s.browsers {
        Some(b) => (b.local_app_data.is_none() || b.chromium.len() == 4)
            && firefox::session_sizes_fit(&b.firefox),
        None => true,
    };
    let applications = match &s.applications {
        Some(a) => a.rules.len() == 6,
        None => true,
    };
    let keys = match &s.registry {
        Some(v) => v.shared_dlls.len() == 2 && v.startup.len() == 4 && v.app_paths.len() == 2
            && v.fonts.len() == 2 && v.uninstall.len() == 3,
        None => true,
    };
    browsers && applications && keys
}

/// Scans everything that the survey covers, and numbers what is offered from 1
/// on.
pub fn scan_all(survey: ScanSurvey) -> (r: Vec<ScannedItem>)
    requires
        is_complete(survey),
    ensures
        text::views(r@) == item::numbered(scan_drafts(survey), 0),
{
    let ghost part1 = system_part(survey.system);
    let ghost part2 = browser_part(survey.browsers);
    let ghost part3 = application_part(survey.applications);
    let ghost part4 = registry_part(survey.registry);
    let ghost empty = Seq::<ScannedView>::empty();
    let mut items: Vec<ScannedItem> = Vec::new();
    let mut counter: usize = 0;
    assert(text::views(items@) =~= empty);
    match survey.system {
        Some(s) => {
            system::scan_system_items(&mut items, &mut counter, s);
        },
        None => {
            proof {
                item::lemma_extends_nothing(empty, 0);
            }
        },
    }
    let ghost v1 = text::views(items@);
    let ghost c1 = counter as int;
    assert(items@.len() == counter);
    match survey.browsers {
        Some(b) => {
            firefox::scan_browser_items(
                &mut items,
                &mut counter,
                &b.local_app_data,
                b.chromium,
                b.firefox,
            );
        },
        None => {
            proof {
                item::lemma_extends_nothing(v1, c1);
            }
        },
    }
    let ghost v2 = text::views(items@);
    let ghost c2 = counter as int;
    assert(items@.len() == counter);
    match survey.applications {
        Some(a) => {
            application::scan_application_items(
                &mut items,
                &mut counter,
                &a.app_data,
                &a.local_app_data,
                a.rules,
                a.temp,
            );
        },
        None => {
            proof {
                item::lemma_extends_nothing(v2, c2);
            }
        },
    }
    let ghost v3 = text::views(items@);
    let ghost c3 = counter as int;
    assert(items@.len() == counter);
    match survey.registry {
        Some(s) => {
            registry::scan_registry_items(&mut items, &mut counter, &s);
        },
        None => {
            proof {
                item::lemma_extends_nothing(v3, c3);
            }
        },
    }
    proof {
        let v4 = text::views(items@);
        let c4 = counter as int;
        item::lemma_extends_twice(empty, 0, v1, c1, v2, c2, part1, part2);
        item::lemma_extends_twice(empty, 0, v2, c2, v3, c3, part1 + part2, part3);
        item::lemma_extends_twice(empty, 0, v3, c3, v4, c4, part1 + part2 + part3, part4);
        assert(v4 =~= item::numbered(scan_drafts(survey), 0));
    }
    items
}

// ---------------------------------------------------------------------------
// What is shown

/// What the user sees of a scan.
#[derive(Debug)]
pub struct ScanResponse {
    pub is_admin: bool,
    pub items: Vec<CleanerItem>,
    pub total_size_bytes: u64,
    pub warnings: Vec<String>,
}

/// The sum of the sizes of the items.
pub open spec fn item_sizes(items: Seq<ScannedView>) -> nat
    decreases items.len(),
{
    if items.len() == 0 {
        0
    } else {
        item_sizes(items.drop_last()) + items.last().public.size_bytes as nat
    }
}

/// The items as the user sees them.
pub open spec fn public_items(items: Seq<ScannedView>) -> Seq<ItemView> {
    items.map_values(|it: ScannedView| it.public)
}

/// The sizes of the first items do not exceed those of all.
proof fn lemma_item_sizes_grow(items: Seq<ScannedView>, i: int)
    requires
        0 <= i <= items.len(),
    ensures
        item_sizes(items.take(i)) <= item_sizes(items),
    decreases items.len(),
{
    if i == items.len() {
        assert(items.take(i) =~= items);
    } else {
        lemma_item_sizes_grow(items.drop_last(), i);
        assert(items.drop_last().take(i) =~= items.take(i));
    }
}

/// Shows a scan: every item in order without its action, and the sum of their
/// sizes. There is no answer where the sum does not fit in 64 bits.
pub fn scan_response(items: &Vec<ScannedItem>, is_admin: bool) -> (r: Option<ScanResponse>)
    ensures
        match r {
            Some(shown) => {
                &&& shown.is_admin == is_admin
                &&& text::views(shown.items@) == public_items(text::views(items@))
                &&& shown.total_size_bytes == item_sizes(text::views(items@))
                &&& shown.warnings@.len() == 0
            },
            None => item_sizes(text::views(items@)) > u64::MAX,
        },
{
    let ghost all = text::views(items@);
    let mut total: u64 = 0;
    let mut public: Vec<CleanerItem> = Vec::new();
    assert(all.take(0) =~= Seq::empty());
    assert(text::views(public@) =~= public_items(all.take(0)));
    for i in 0..items.len()
        invariant
            all == text::views(items@),
            total == item_sizes(all.take(i as int)),
            text::views(public@) == public_items(all.take(i as int)),
    {
        let ghost before = public@;
        proof {
            assert(all.take(i + 1).drop_last() =~= all.take(i as int));
            assert(all.take(i + 1).last() == items@[i as int]@);
            lemma_item_sizes_grow(all, i + 1);
        }
        match total.checked_add(items[i].public.size_bytes) {
            Some(sum) => {
                total = sum;
            },
            None => {
                return None;
            },
        }
        let one = items[i].public.clone();
        public.push(one);
        proof {
            text::lemma_views_push(before, one);
            assert(text::views(public@) =~= public_items(all.take(i + 1)));
        }
    }
    assert(all.take(items@.len() as int) =~= all);
    Some(
        ScanResponse {
            is_admin,
            items: public,
            total_size_bytes: total,
            warnings: Vec::new(),
        },
    )
}

// ---------------------------------------------------------------------------
// What holds of every scan

/// A scan selects what is safe, but for the clipboard, and nothing at high
/// risk.
pub proof fn law_scan_defaults_follow_risk(s: ScanSurvey)
    ensures
        offer::defaults_follow_risk(item::numbered(scan_drafts(s), 0)),
{
    let part1 = system_part(s.system);
    let part2 = browser_part(s.browsers);
    let part3 = application_part(s.applications);
    let part4 = registry_part(s.registry);
    if let Some(v) = s.system {
        system::law_system_defaults_follow_risk(v@);
    }
    if let Some(b) = s.browsers {
        firefox::law_browser_defaults_follow_risk(
            item::opt_text(b.local_app_data),
            text::views(b.chromium@),
            b.firefox@,
        );
    }
    if let Some(a) = s.applications {
        application::law_application_defaults_follow_risk(
            item::opt_text(a.app_data),
            item::opt_text(a.local_app_data),
            application::survey_lists(a.rules@),
            disk::opt_survey(a.temp),
        );
    }
    if let Some(v) = s.registry {
        registry::law_registry_defaults_follow_risk(v@);
    }
    offer::lemma_defaults_add(part1, part2);
    offer::lemma_defaults_add(part1 + part2, part3);
    offer::lemma_defaults_add(part1 + part2 + part3, part4);
    offer::lemma_defaults_numbered(scan_drafts(s), 0);
}

/// A filter that only one element passes leaves that element.
proof fn lemma_filter_one(s: Seq<ScannedView>, keep: spec_fn(ScannedView) -> bool, i: int)
    requires
        0 <= i < s.len(),
        keep(s[i]),
        forall|j: int| 0 <= j < s.len() && j != i ==> !keep(#[trigger] s[j]),
    ensures
        s.filter(keep) == seq![s[i]],
    decreases s.len(),
{
    reveal(Seq::filter);
    let shorter = s.drop_last();
    if i == s.len() - 1 {
        item::lemma_filter_none(shorter, keep);
        assert(s.filter(keep) =~= seq![s[i]]);
    } else {
        assert(!keep(s[s.len() - 1]));
        lemma_filter_one(shorter, keep, i);
    }
}

/// The id of an item of a scan picks that item, with its action, and no other.
pub proof fn law_id_picks_its_item(s: ScanSurvey, i: int)
    requires
        0 <= i < scan_drafts(s).len(),
    ensures
        ({
            let items = item::numbered(scan_drafts(s), 0);
            item::selected(items, seq![items[i].public.id]) == seq![items[i]]
        }),
{
    let items = item::numbered(scan_drafts(s), 0);
    let ids = seq![items[i].public.id];
    let keep = |it: ScannedView| ids.contains(it.public.id);
    item::law_ids_are_distinct(scan_drafts(s), 0);
    assert(ids[0] == items[i].public.id);
    assert forall|j: int| 0 <= j < items.len() && j != i implies !keep(#[trigger] items[j]) by {
        if keep(items[j]) {
            let k = choose|k: int| 0 <= k < ids.len() && ids[k] == items[j].public.id;
            assert(items[j].public.id == items[i].public.id);
        }
    }
    assert(keep(items[i]));
    lemma_filter_one(items, keep, i);
}

/// The surveys of all paths that a scan looks at, in order.
pub open spec fn scan_surveys(s: ScanSurvey) -> Seq<SurveyView> {
    (match s.system {
        Some(v) => system::system_surveys(v@),
        None => Seq::empty(),
    }) + (match s.browsers {
        Some(b) => firefox::all_surveys(
            item::opt_text(b.local_app_data),
            text::views(b.chromium@),
            b.firefox@,
        ),
        None => Seq::empty(),
    }) + (match s.applications {
        Some(a) => application::application_surveys(
            application::survey_lists(a.rules@),
            disk::opt_survey(a.temp),
        ),
        None => Seq::empty(),
    })
}

/// The paths that are planned for the parts of a scan in an environment, in
/// order. `profiles` holds the profiles of each Chromium browser.
pub open spec fn scan_paths(
    s: ScanSurvey,
    env: SystemEnv,
    profiles: Seq<Seq<ProfileDirView>>,
    firefox_profiles: Seq<ProfileDirView>,
) -> Seq<Seq<char>> {
    (match s.system {
        Some(_) => system::planned_paths(system::plan_of(env)),
        None => Seq::empty(),
    }) + (match s.browsers {
        Some(b) => firefox::all_planned_paths(
            item::opt_text(b.local_app_data),
            text::views(b.chromium@),
            b.firefox@,
            profiles,
            firefox_profiles,
        ),
        None => Seq::empty(),
    }) + (match s.applications {
        Some(a) => application::planned_paths(
            application::rules_of(item::opt_text(a.app_data), item::opt_text(a.local_app_data)),
            item::opt_text(env.temp),
        ),
        None => Seq::empty(),
    })
}

/// Where the surveyed paths are those planned for an environment and the
/// profiles of its browsers, every path that an offer of the scan acts on is a
/// planned path or a file below one.
pub proof fn law_scan_keeps_to_its_plan(
    s: ScanSurvey,
    env: SystemEnv,
    profiles: Seq<Seq<ProfileDirView>>,
    firefox_profiles: Seq<ProfileDirView>,
)
    requires
        is_complete(s),
        disk::paths_of(scan_surveys(s)) == scan_paths(s, env, profiles, firefox_profiles),
    ensures
        offer::keeps_to_plan(
            scan_paths(s, env, profiles, firefox_profiles),
            scan_surveys(s),
            item::numbered(scan_drafts(s), 0),
        ),
{
    let all = scan_surveys(s);
    let none = Seq::<SurveyView>::empty();
    let part1 = system_part(s.system);
    let part2 = browser_part(s.browsers);
    let part3 = application_part(s.applications);
    let part4 = registry_part(s.registry);
    let known1 = match s.system {
        Some(v) => system::system_surveys(v@),
        None => none,
    };
    let known2 = match s.browsers {
        Some(b) => firefox::all_surveys(
            item::opt_text(b.local_app_data),
            text::views(b.chromium@),
            b.firefox@,
        ),
        None => none,
    };
    let known3 = match s.applications {
        Some(a) => application::application_surveys(
            application::survey_lists(a.rules@),
            disk::opt_survey(a.temp),
        ),
        None => none,
    };
    disk::lemma_among_sum(known1 + known2, known3);
    disk::lemma_among_sum(known1, known2);
    disk::lemma_among_transitive(known1, known1 + known2, all);
    disk::lemma_among_transitive(known2, known1 + known2, all);
    if let Some(v) = s.system {
        system::lemma_system_within(v@);
    }
    if let Some(b) = s.browsers {
        firefox::lemma_browsers_within(
            item::opt_text(b.local_app_data),
            text::views(b.chromium@),
            b.firefox@,
        );
    }
    if let Some(a) = s.applications {
        application::lemma_application_within(
            application::rules_of(item::opt_text(a.app_data), item::opt_text(a.local_app_data)),
            application::survey_lists(a.rules@),
            disk::opt_survey(a.temp),
        );
    }
    if let Some(r) = s.registry {
        registry::lemma_registry_touches_no_path(r@);
    }
    offer::lemma_within_more(known1, all, part1);
    offer::lemma_within_more(known2, all, part2);
    offer::lemma_within_more(known3, all, part3);
    offer::lemma_within_more(none, all, part4);
    offer::lemma_within_add(all, part1, part2);
    offer::lemma_within_add(all, part1 + part2, part3);
    offer::lemma_within_add(all, part1 + part2 + part3, part4);
    let drafts = scan_drafts(s);
    let items = item::numbered(drafts, 0);
    assert forall|i: int, path: Seq<char>|
        0 <= i < items.len() && #[trigger] offer::action_paths(items[i].action).contains(
            path,
        ) implies disk::covered(all, path) by {
        assert(offer::action_paths(drafts[i].action).contains(path));
    }
    offer::lemma_keeps_to_plan(scan_paths(s, env, profiles, firefox_profiles), all, items);
}

/// A scan offers what each of its parts finds, and nothing else.
pub proof fn law_scan_offers_what_its_parts_find(s: ScanSurvey)
    ensures
        offer::includes_all(scan_drafts(s), system_part(s.system)),
        offer::includes_all(scan_drafts(s), browser_part(s.browsers)),
        offer::includes_all(scan_drafts(s), application_part(s.applications)),
        offer::includes_all(scan_drafts(s), registry_part(s.registry)),
        scan_drafts(s).len() == system_part(s.system).len() + browser_part(s.browsers).len()
            + application_part(s.applications).len() + registry_part(s.registry).len(),
        s.system matches Some(v) ==> system_part(s.system) == system::system_drafts(v@),
        s.registry matches Some(v) ==> registry_part(s.registry) == registry::registry_drafts(v@),
        s.system is None ==> system_part(s.system).len() == 0,
        s.browsers is None ==> browser_part(s.browsers).len() == 0,
        s.applications is None ==> application_part(s.applications).len() == 0,
        s.registry is None ==> registry_part(s.registry).len() == 0,
{
    let d1 = system_part(s.system);
    let d2 = d1 + browser_part(s.browsers);
    let d3 = d2 + application_part(s.applications);
    let all = d3 + registry_part(s.registry);
    offer::lemma_includes_sum(d3, registry_part(s.registry));
    offer::lemma_includes_sum(d2, application_part(s.applications));
    offer::lemma_includes_sum(d1, browser_part(s.browsers));
    offer::lemma_includes_transitive(all, d3, d2);
    offer::lemma_includes_transitive(all, d3, application_part(s.applications));
    offer::lemma_includes_transitive(all, d2, d1);
    offer::lemma_includes_transitive(all, d2, browser_part(s.browsers));
}

/// The sizes that are shown together are those of all items: they add up over
/// two lists, and one item counts with its size.
pub proof fn law_sizes_of_items_add_up(
    items: Seq<ScannedView>,
    more: Seq<ScannedView>,
    one: ScannedView,
)
    ensures
        item_sizes(items + more) == item_sizes(items) + item_sizes(more),
        item_sizes(seq![one]) == one.public.size_bytes,
        item_sizes(Seq::empty()) == 0,
    decreases more.len(),
{
    reveal_with_fuel(item_sizes, 3);
    if more.len() == 0 {
        assert(items + more =~= items);
    } else {
        assert((items + more).drop_last() =~= items + more.drop_last());
        law_sizes_of_items_add_up(items, more.drop_last(), one);
    }
}

} // verus!
