//! The scan of third-party applications: their caches and logs, and what
//! archivers left in the temporary directory.
use crate::disk;
use crate::disk::{FileFilter, FileView, PathSurvey, SurveyView};
use crate::item;
use crate::item::{ActionView, ModuleKind, RiskLevel, ScannedItem, ScannedView};
use crate::offer;
use crate::offer::Label;
use crate::process;
use crate::system;
use crate::text;
use vstd::prelude::*;

verus! {

/// What is cleaned of one application: the directories that can exist, and the
/// processes that hold them.
#[derive(Debug)]
pub struct ApplicationRule {
    pub name: String,
    pub paths: Vec<String>,
    pub process_names: Vec<String>,
    pub risk: RiskLevel,
    pub selected: bool,
}

/// The contents of an [`ApplicationRule`].
pub struct RuleView {
    pub name: Seq<char>,
    pub paths: Seq<Seq<char>>,
    pub process_names: Seq<Seq<char>>,
    pub risk: RiskLevel,
    pub selected: bool,
}

impl View for ApplicationRule {
    type V = RuleView;

    open spec fn view(&self) -> RuleView {
        RuleView {
            name: self.name@,
            paths: text::views(self.paths@),
            process_names: text::views(self.process_names@),
            risk: self.risk,
            selected: self.selected,
        }
    }
}

/// The path below `base` along two names.
pub open spec fn below2(base: Seq<char>, a: Seq<char>, b: Seq<char>) -> Seq<char> {
    disk::joined(disk::joined(base, a), b)
}

/// The path below `base` along three names.
pub open spec fn below3(base: Seq<char>, a: Seq<char>, b: Seq<char>, c: Seq<char>) -> Seq<char> {
    disk::joined(below2(base, a, b), c)
}

/// The caches and logs of Visual Studio Code.
pub open spec fn code_rule(appdata: Seq<char>) -> RuleView {
    RuleView {
        name: "Visual Studio Code 缓存"@,
        paths: seq![
            below2(appdata, "Code"@, "Cache"@),
            below2(appdata, "Code"@, "CachedData"@),
            below2(appdata, "Code"@, "Code Cache"@),
            below2(appdata, "Code"@, "GPUCache"@),
            below2(appdata, "Code"@, "logs"@),
        ],
        process_names: seq!["Code.exe"@],
        risk: RiskLevel::Safe,
        selected: true,
    }
}

/// The caches and logs of Slack.
pub open spec fn slack_rule(appdata: Seq<char>) -> RuleView {
    RuleView {
        name: "Slack 缓存"@,
        paths: seq![
            below2(appdata, "Slack"@, "Cache"@),
            below2(appdata, "Slack"@, "Code Cache"@),
            below2(appdata, "Slack"@, "GPUCache"@),
            below2(appdata, "Slack"@, "logs"@),
        ],
        process_names: seq!["slack.exe"@],
        risk: RiskLevel::Safe,
        selected: true,
    }
}

/// The caches of Discord.
pub open spec fn discord_rule(appdata: Seq<char>) -> RuleView {
    RuleView {
        name: "Discord 缓存"@,
        paths: seq![
            below2(appdata, "discord"@, "Cache"@),
            below2(appdata, "discord"@, "Code Cache"@),
            below2(appdata, "discord"@, "GPUCache"@),
        ],
        process_names: seq!["Discord.exe"@],
        risk: RiskLevel::Safe,
        selected: true,
    }
}

/// The caches of Microsoft Teams.
pub open spec fn teams_rule(appdata: Seq<char>) -> RuleView {
    RuleView {
        name: "Microsoft Teams 缓存"@,
        paths: seq![
            below3(appdata, "Microsoft"@, "Teams"@, "Cache"@),
            below3(appdata, "Microsoft"@, "Teams"@, "Code Cache"@),
            below3(appdata, "Microsoft"@, "Teams"@, "GPUCache"@),
        ],
        process_names: seq!["Teams.exe"@, "ms-teams.exe"@],
        risk: RiskLevel::Safe,
        selected: true,
    }
}

/// The media cache of VLC.
pub open spec fn vlc_rule(appdata: Seq<char>) -> RuleView {
    RuleView {
        name: "VLC 媒体缓存"@,
        paths: seq![below2(appdata, "vlc"@, "art"@)],
        process_names: seq!["vlc.exe"@],
        risk: RiskLevel::Medium,
        selected: true,
    }
}

/// The cache of npm.
pub open spec fn npm_rule(local: Seq<char>) -> RuleView {
    RuleView {
        name: "npm 缓存"@,
        paths: seq![disk::joined(local, "npm-cache"@)],
        process_names: Seq::empty(),
        risk: RiskLevel::Safe,
        selected: true,
    }
}

/// The applications that are cleaned, in order.
pub open spec fn rules_of(app_data: Option<Seq<char>>, local_app_data: Option<Seq<char>>) -> Seq<
    RuleView,
> {
    let appdata = system::or_empty(app_data);
    let local = system::or_empty(local_app_data);
    seq![
        code_rule(appdata),
        slack_rule(appdata),
        discord_rule(appdata),
        teams_rule(appdata),
        vlc_rule(appdata),
        npm_rule(local),
    ]
}

/// Builds the rule for Visual Studio Code.
fn code(appdata: &str) -> (r: ApplicationRule)
    ensures
        r@ == code_rule(appdata@),
{
    let r = ApplicationRule {
        name: "Visual Studio Code 缓存".to_owned(),
        paths: vec![
            disk::join_path2(appdata, "Code", "Cache"),
            disk::join_path2(appdata, "Code", "CachedData"),
            disk::join_path2(appdata, "Code", "Code Cache"),
            disk::join_path2(appdata, "Code", "GPUCache"),
            disk::join_path2(appdata, "Code", "logs"),
        ],
        process_names: vec!["Code.exe".to_owned()],
        risk: RiskLevel::Safe,
        selected: true,
    };
    assert(r@.paths =~= code_rule(appdata@).paths);
    assert(r@.process_names =~= code_rule(appdata@).process_names);
    r
}

/// Builds the rule for Slack.
fn slack(appdata: &str) -> (r: ApplicationRule)
    ensures
        r@ == slack_rule(appdata@),
{
    let r = ApplicationRule {
        name: "Slack 缓存".to_owned(),
        paths: vec![
            disk::join_path2(appdata, "Slack", "Cache"),
            disk::join_path2(appdata, "Slack", "Code Cache"),
            disk::join_path2(appdata, "Slack", "GPUCache"),
            disk::join_path2(appdata, "Slack", "logs"),
        ],
        process_names: vec!["slack.exe".to_owned()],
        risk: RiskLevel::Safe,
        selected: true,
    };
    assert(r@.paths =~= slack_rule(appdata@).paths);
    assert(r@.process_names =~= slack_rule(appdata@).process_names);
    r
}

/// Builds the rule for Discord.
fn discord(appdata: &str) -> (r: ApplicationRule)
    ensures
        r@ == discord_rule(appdata@),
{
    let r = ApplicationRule {
        name: "Discord 缓存".to_owned(),
        paths: vec![
            disk::join_path2(appdata, "discord", "Cache"),
            disk::join_path2(appdata, "discord", "Code Cache"),
            disk::join_path2(appdata, "discord", "GPUCache"),
        ],
        process_names: vec!["Discord.exe".to_owned()],
        risk: RiskLevel::Safe,
        selected: true,
    };
    assert(r@.paths =~= discord_rule(appdata@).paths);
    assert(r@.process_names =~= discord_rule(appdata@).process_names);
    r
}

/// Builds the rule for Microsoft Teams.
fn teams(appdata: &str) -> (r: ApplicationRule)
    ensures
        r@ == teams_rule(appdata@),
{
    let r = ApplicationRule {
        name: "Microsoft Teams 缓存".to_owned(),
        paths: vec![
            disk::join_path3(appdata, "Microsoft", "Teams", "Cache"),
            disk::join_path3(appdata, "Microsoft", "Teams", "Code Cache"),
            disk::join_path3(appdata, "Microsoft", "Teams", "GPUCache"),
        ],
        process_names: vec!["Teams.exe".to_owned(), "ms-teams.exe".to_owned()],
        risk: RiskLevel::Safe,
        selected: true,
    };
    assert(r@.paths =~= teams_rule(appdata@).paths);
    assert(r@.process_names =~= teams_rule(appdata@).process_names);
    r
}

/// Builds the rule for VLC.
fn vlc(appdata: &str) -> (r: ApplicationRule)
    ensures
        r@ == vlc_rule(appdata@),
{
    let r = ApplicationRule {
        name: "VLC 媒体缓存".to_owned(),
        paths: vec![disk::join_path2(appdata, "vlc", "art")],
        process_names: vec!["vlc.exe".to_owned()],
        risk: RiskLevel::Medium,
        selected: true,
    };
    assert(r@.paths =~= vlc_rule(appdata@).paths);
    assert(r@.process_names =~= vlc_rule(appdata@).process_names);
    r
}

/// Builds the rule for npm.
fn npm(local: &str) -> (r: ApplicationRule)
    ensures
        r@ == npm_rule(local@),
{
    let r = ApplicationRule {
        name: "npm 缓存".to_owned(),
        paths: vec![disk::join_path(local, "npm-cache")],
        process_names: Vec::new(),
        risk: RiskLevel::Safe,
        selected: true,
    };
    assert(r@.paths =~= npm_rule(local@).paths);
    assert(r@.process_names =~= npm_rule(local@).process_names);
    r
}

/// Lists the applications that are cleaned, in order.
pub fn application_rules(app_data: &Option<String>, local_app_data: &Option<String>) -> (r: Vec<
    ApplicationRule,
>)
    ensures
        text::views(r@) == rules_of(item::opt_text(*app_data), item::opt_text(*local_app_data)),
{
    let appdata_text = system::text_or_empty(app_data);
    let appdata = appdata_text.as_str();
    let local = system::text_or_empty(local_app_data);
    let r = vec![
        code(appdata),
        slack(appdata),
        discord(appdata),
        teams(appdata),
        vlc(appdata),
        npm(local.as_str()),
    ];
    assert(text::views(r@) =~= rules_of(item::opt_text(*app_data), item::opt_text(*local_app_data)));
    r
}

// ---------------------------------------------------------------------------
// The offers

/// The offer to empty the directories of one application.
pub open spec fn application_drafts(
    name: Seq<char>,
    paths: Seq<SurveyView>,
    process_names: Seq<Seq<char>>,
    risk: RiskLevel,
    selected: bool,
) -> Seq<ScannedView> {
    offer::directory_drafts(
        offer::label(
            ModuleKind::Application,
            "第三方应用"@,
            name,
            "清理应用日志、缓存与历史生成文件。"@,
            risk,
            selected,
        ),
        process_names,
        disk::directories(paths),
        140,
        false,
    )
}

/// Offers to empty the directories of an application that exist.
pub fn add_application_dirs(
    items: &mut Vec<ScannedItem>,
    counter: &mut usize,
    name: &str,
    paths: Vec<PathSurvey>,
    process_names: Vec<String>,
    risk: RiskLevel,
    selected_by_default: bool,
)
    requires
        item::has_room(
            *old(counter),
            old(items)@.len(),
            application_drafts(
                name@,
                text::views(paths@),
                text::views(process_names@),
                risk,
                selected_by_default,
            ).len(),
        ),
    ensures
        item::extends(
            text::views(old(items)@),
            *old(counter) as int,
            text::views(final(items)@),
            *final(counter) as int,
            application_drafts(
                name@,
                text::views(paths@),
                text::views(process_names@),
                risk,
                selected_by_default,
            ),
        ),
        final(items)@.len() - old(items)@.len() == *final(counter) - *old(counter),
{
    let dirs = disk::existing_dirs(paths);
    offer::offer_directories(
        items,
        counter,
        &Label {
            module: ModuleKind::Application,
            category: "第三方应用",
            name,
            detail: "清理应用日志、缓存与历史生成文件。",
            risk,
            selected: selected_by_default,
        },
        process_names,
        &dirs,
        140,
        false,
    );
}

/// The surveys of the paths of every rule.
pub open spec fn survey_lists(s: Seq<Vec<PathSurvey>>) -> Seq<Seq<SurveyView>> {
    s.map_values(|v: Vec<PathSurvey>| text::views(v@))
}

/// The offers of the rules, one list for each.
pub open spec fn rule_drafts(rules: Seq<RuleView>, surveys: Seq<Seq<SurveyView>>) -> Seq<
    Seq<ScannedView>,
> {
    Seq::new(
        rules.len(),
        |i: int|
            application_drafts(
                rules[i].name,
                surveys[i],
                rules[i].process_names,
                rules[i].risk,
                rules[i].selected,
            ),
    )
}

/// The offer to delete what archivers left in the temporary directory.
pub open spec fn archive_drafts(temp: Option<SurveyView>) -> Seq<ScannedView> {
    match temp {
        Some(t) => {
            let files = disk::wanted_files(seq![t], FileFilter::ArchiveLeftovers);
            offer::file_drafts(
                offer::label(
                    ModuleKind::Application,
                    "解压缩软件"@,
                    "解压缩临时文件"@,
                    "清理 WinRAR、7-Zip 等工具遗留在临时目录中的文件。"@,
                    RiskLevel::Safe,
                    true,
                ),
                disk::path_list(offer::file_paths(files)),
                files,
            )
        },
        None => Seq::empty(),
    }
}

/// Everything that a scan of the applications offers, in order.
pub open spec fn all_application_drafts(
    rules: Seq<RuleView>,
    surveys: Seq<Seq<SurveyView>>,
    temp: Option<SurveyView>,
) -> Seq<ScannedView> {
    offer::chain(rule_drafts(rules, surveys)) + archive_drafts(temp)
}

/// Scans the applications. `surveys` holds what is known of the paths of each
/// rule of [`application_rules`], and `temp` what is known of the temporary
/// directory.
pub fn scan_application_items(
    items: &mut Vec<ScannedItem>,
    counter: &mut usize,
    app_data: &Option<String>,
    local_app_data: &Option<String>,
    surveys: Vec<Vec<PathSurvey>>,
    temp: Option<PathSurvey>,
)
    requires
        surveys@.len() == 6,
        item::has_room(
            *old(counter),
            old(items)@.len(),
            all_application_drafts(
                rules_of(item::opt_text(*app_data), item::opt_text(*local_app_data)),
                survey_lists(surveys@),
                disk::opt_survey(temp),
            ).len(),
        ),
    ensures
        item::extends(
            text::views(old(items)@),
            *old(counter) as int,
            text::views(final(items)@),
            *final(counter) as int,
            all_application_drafts(
                rules_of(item::opt_text(*app_data), item::opt_text(*local_app_data)),
                survey_lists(surveys@),
                disk::opt_survey(temp),
            ),
        ),
        final(items)@.len() - old(items)@.len() == *final(counter) - *old(counter),
{
    let ghost v0 = text::views(items@);
    let ghost c0 = *counter;
    let ghost n0 = items@.len();
    let ghost known = survey_lists(surveys@);
    let rules = application_rules(app_data, local_app_data);
    let ghost rv = text::views(rules@);
    let ghost parts = rule_drafts(rv, known);
    let ghost total = all_application_drafts(rv, known, disk::opt_survey(temp)).len();
    proof {
        assert(parts.take(0) =~= Seq::empty());
        item::lemma_extends_nothing(v0, c0 as int);
    }
    let mut i: usize = 0;
    for paths in it: surveys
        invariant
            i == it.index(),
            it.seq().len() == 6,
            rules@.len() == 6,
            rv == text::views(rules@),
            known == survey_lists(it.seq()),
            parts == rule_drafts(rv, known),
            item::has_room(c0, n0, total),
            offer::chain(parts).len() <= total,
            items@.len() - n0 == *counter - c0,
            item::extends(
                v0,
                c0 as int,
                text::views(items@),
                *counter as int,
                offer::chain(parts.take(i as int)),
            ),
    {
        let rule = &rules[i];
        let ghost v1 = text::views(items@);
        let ghost c1 = *counter as int;
        proof {
            offer::lemma_chain_step(parts, i as int);
            assert(known[i as int] == text::views(paths@));
            assert(rv[i as int] == rule@);
        }
        add_application_dirs(
            items,
            counter,
            rule.name.as_str(),
            paths,
            text::copy_strings(&rule.process_names),
            rule.risk,
            rule.selected,
        );
        proof {
            item::lemma_extends_twice(
                v0,
                c0 as int,
                v1,
                c1,
                text::views(items@),
                *counter as int,
                offer::chain(parts.take(i as int)),
                parts[i as int],
            );
        }
        i = i + 1;
    }
    assert(parts.take(6) =~= parts);
    let ghost v2 = text::views(items@);
    let ghost c2 = *counter as int;
    match temp {
        Some(t) => {
            let ghost tv = t@;
            let dirs = vec![t];
            assert(text::views(dirs@) =~= seq![tv]);
            let found = disk::collect_files_matching(&dirs, FileFilter::ArchiveLeftovers);
            let shown = disk::join_paths(&found.files);
            offer::offer_files(
                items,
                counter,
                &Label {
                    module: ModuleKind::Application,
                    category: "解压缩软件",
                    name: "解压缩临时文件",
                    detail: "清理 WinRAR、7-Zip 等工具遗留在临时目录中的文件。",
                    risk: RiskLevel::Safe,
                    selected: true,
                },
                shown,
                found,
                Ghost(disk::wanted_files(seq![tv], FileFilter::ArchiveLeftovers)),
            );
        },
        None => {
            proof {
                item::lemma_extends_nothing(v2, c2);
            }
        },
    }
    proof {
        item::lemma_extends_twice(
            v0,
            c0 as int,
            v2,
            c2,
            text::views(items@),
            *counter as int,
            offer::chain(parts),
            archive_drafts(disk::opt_survey(temp)),
        );
    }
}

/// A scan of the applications selects what is safe and nothing at high risk.
pub proof fn law_application_defaults_follow_risk(
    app_data: Option<Seq<char>>,
    local_app_data: Option<Seq<char>>,
    surveys: Seq<Seq<SurveyView>>,
    temp: Option<SurveyView>,
)
    ensures
        offer::defaults_follow_risk(
            all_application_drafts(rules_of(app_data, local_app_data), surveys, temp),
        ),
{
    let parts = rule_drafts(rules_of(app_data, local_app_data), surveys);
    assert forall|i: int| 0 <= i < parts.len() implies offer::defaults_follow_risk(#[trigger] parts[i]) by {}
    offer::lemma_defaults_chain(parts);
    offer::lemma_defaults_add(offer::chain(parts), archive_drafts(temp));
}

/// Every offer of an application names the programs that hold its files, but
/// for the cache of npm, which no program holds.
pub proof fn law_application_offers_name_their_programs(
    app_data: Option<Seq<char>>,
    local_app_data: Option<Seq<char>>,
    surveys: Seq<Seq<SurveyView>>,
    i: int,
)
    requires
        0 <= i < rules_of(app_data, local_app_data).len(),
        rules_of(app_data, local_app_data)[i].name != "npm 缓存"@,
    ensures
        offer::names_programs(rule_drafts(rules_of(app_data, local_app_data), surveys)[i]),
{
    let rules = rules_of(app_data, local_app_data);
    assert(rules[i].process_names.len() > 0);
}

/// The paths of the rules, and the temporary directory.
pub open spec fn planned_paths(rules: Seq<RuleView>, temp: Option<Seq<char>>) -> Seq<Seq<char>> {
    rules.map_values(|r: RuleView| r.paths).flatten() + text::given(seq![temp])
}

/// The surveys of the paths of the rules and of the temporary directory, in
/// the same order.
pub open spec fn application_surveys(
    surveys: Seq<Seq<SurveyView>>,
    temp: Option<SurveyView>,
) -> Seq<SurveyView> {
    surveys.flatten() + text::given(seq![temp])
}

/// A scan of the applications acts on nothing that was not surveyed.
pub proof fn lemma_application_within(
    rules: Seq<RuleView>,
    surveys: Seq<Seq<SurveyView>>,
    temp: Option<SurveyView>,
)
    requires
        rules.len() == surveys.len(),
    ensures
        offer::within(
            application_surveys(surveys, temp),
            all_application_drafts(rules, surveys, temp),
        ),
{
    let all = application_surveys(surveys, temp);
    let parts = rule_drafts(rules, surveys);
    disk::lemma_among_sum(surveys.flatten(), text::given(seq![temp]));
    assert forall|i: int| 0 <= i < parts.len() implies offer::within(
        all,
        #[trigger] parts[i],
    ) by {
        disk::lemma_among_flatten(surveys, i);
        disk::lemma_among_transitive(surveys[i], surveys.flatten(), all);
        disk::lemma_filter_among(surveys[i], |p: SurveyView| p.kind == disk::PathKind::Directory);
        disk::lemma_among_transitive(disk::directories(surveys[i]), surveys[i], all);
        offer::lemma_directories_within(
            all,
            offer::label(
                ModuleKind::Application,
                "第三方应用"@,
                rules[i].name,
                "清理应用日志、缓存与历史生成文件。"@,
                rules[i].risk,
                rules[i].selected,
            ),
            rules[i].process_names,
            disk::directories(surveys[i]),
            140,
            false,
        );
    }
    offer::lemma_within_chain(all, parts);
    if let Some(t) = temp {
        text::lemma_given_holds(seq![temp], 0);
        assert(disk::among(seq![t], text::given(seq![temp])));
        disk::lemma_among_transitive(seq![t], text::given(seq![temp]), all);
        let files = disk::wanted_files(seq![t], FileFilter::ArchiveLeftovers);
        offer::lemma_files_within(
            all,
            offer::label(
                ModuleKind::Application,
                "解压缩软件"@,
                "解压缩临时文件"@,
                "清理 WinRAR、7-Zip 等工具遗留在临时目录中的文件。"@,
                RiskLevel::Safe,
                true,
            ),
            disk::path_list(offer::file_paths(files)),
            seq![t],
            FileFilter::ArchiveLeftovers,
        );
    }
    offer::lemma_within_add(all, offer::chain(parts), archive_drafts(temp));
}

/// Where the surveyed paths are those of the rules for an environment, a scan
/// of the applications acts on those paths and on files below them, and on
/// nothing else.
pub proof fn law_application_scan_keeps_to_its_plan(
    app_data: Option<Seq<char>>,
    local_app_data: Option<Seq<char>>,
    temp_dir: Option<Seq<char>>,
    surveys: Seq<Seq<SurveyView>>,
    temp: Option<SurveyView>,
)
    requires
        surveys.len() == rules_of(app_data, local_app_data).len(),
        disk::paths_of(application_surveys(surveys, temp)) == planned_paths(
            rules_of(app_data, local_app_data),
            temp_dir,
        ),
    ensures
        offer::keeps_to_plan(
            planned_paths(rules_of(app_data, local_app_data), temp_dir),
            application_surveys(surveys, temp),
            all_application_drafts(rules_of(app_data, local_app_data), surveys, temp),
        ),
{
    let rules = rules_of(app_data, local_app_data);
    lemma_application_within(rules, surveys, temp);
    offer::lemma_keeps_to_plan(
        planned_paths(rules, temp_dir),
        application_surveys(surveys, temp),
        all_application_drafts(rules, surveys, temp),
    );
}

/// While an application runs, that is, while its own executable stands on a
/// line of the process list, in whatever case and whatever else is listed,
/// every offer of that application is in conflict, and without a decision about
/// it nothing is cleaned.
pub proof fn law_running_application_holds_its_offers(
    app_data: Option<Seq<char>>,
    local_app_data: Option<Seq<char>>,
    surveys: Seq<Seq<SurveyView>>,
    temp: Option<SurveyView>,
    n: int,
    program: Seq<char>,
    items: Seq<ScannedView>,
    running: Seq<Seq<Seq<char>>>,
    decisions: Seq<process::DecisionView>,
    i: int,
    number: int,
    lines: Seq<Seq<char>>,
    j: int,
    name: Seq<char>,
    rest: Seq<char>,
)
    requires
        0 <= n < all_application_drafts(
            rules_of(app_data, local_app_data),
            surveys,
            temp,
        ).len(),
        ({
            let rules = rules_of(app_data, local_app_data);
            let offered = all_application_drafts(rules, surveys, temp)[n].public.name;
            ||| offered == "Visual Studio Code 缓存"@ && program == "code.exe"@
            ||| offered == "Slack 缓存"@ && program == "slack.exe"@
            ||| offered == "Discord 缓存"@ && program == "discord.exe"@
            ||| offered == "Microsoft Teams 缓存"@ && (program == "teams.exe"@ || program
                == "ms-teams.exe"@)
            ||| offered == "VLC 媒体缓存"@ && program == "vlc.exe"@
        }),
        items.len() == running.len(),
        0 <= i < items.len(),
        items[i] == item::with_number(
            all_application_drafts(rules_of(app_data, local_app_data), surveys, temp)[n],
            number,
        ),
        running[i] == process::running_list(items[i].public.process_names, lines),
        0 <= j < lines.len(),
        lines[j] == "\""@ + name + "\""@ + rest,
        forall|m: int| 0 <= m < name.len() ==> name[m] != '"',
        text::lower(name) == program,
    ensures
        exists|c: process::ConflictView| #[trigger]
            process::conflicts_of(items, running).contains(c) && c.item_id == items[i].public.id
                && c.running_processes.contains(name),
        process::decision_of(decisions, items[i].public.id) is None ==> !process::all_decided(
            process::conflicts_of(items, running),
            decisions,
        ),
{
    reveal_strlit("Visual Studio Code 缓存");
    reveal_strlit("Slack 缓存");
    reveal_strlit("Discord 缓存");
    reveal_strlit("Microsoft Teams 缓存");
    reveal_strlit("VLC 媒体缓存");
    reveal_strlit("npm 缓存");
    reveal_strlit("解压缩临时文件");
    reveal_strlit("Code.exe");
    reveal_strlit("code.exe");
    reveal_strlit("slack.exe");
    reveal_strlit("Discord.exe");
    reveal_strlit("discord.exe");
    reveal_strlit("Teams.exe");
    reveal_strlit("teams.exe");
    reveal_strlit("ms-teams.exe");
    reveal_strlit("vlc.exe");
    let rules = rules_of(app_data, local_app_data);
    let parts = rule_drafts(rules, surveys);
    let first = offer::chain(parts);
    let all = all_application_drafts(rules, surveys, temp);
    if n < first.len() {
        offer::lemma_chain_at(parts, n);
        let (a, b) = choose|a: int, b: int|
            0 <= a < parts.len() && 0 <= b < parts[a].len() && first[n] == #[trigger] parts[a][b];
        assert(all[n] == parts[a][b]);
        assert(all[n].public.name == rules[a].name);
        assert(all[n].public.process_names == rules[a].process_names);
        assert("Visual Studio Code 缓存"@.len() == 21);
        assert("Slack 缓存"@.len() == 8);
        assert("Discord 缓存"@.len() == 10);
        assert("Microsoft Teams 缓存"@.len() == 18);
        assert("VLC 媒体缓存"@[0] == 'V');
        assert("VLC 媒体缓存"@.len() == 8);
        assert("npm 缓存"@.len() == 6);
    } else {
        assert(all[n] == archive_drafts(temp)[n - first.len()]);
        assert("解压缩临时文件"@.len() == 7);
        assert(false);
    }
    let programs = items[i].public.process_names;
    assert(text::lower("Code.exe"@) =~= "code.exe"@);
    assert(text::lower("slack.exe"@) =~= "slack.exe"@);
    assert(text::lower("Discord.exe"@) =~= "discord.exe"@);
    assert(text::lower("Teams.exe"@) =~= "teams.exe"@);
    assert(text::lower("ms-teams.exe"@) =~= "ms-teams.exe"@);
    assert(text::lower("vlc.exe"@) =~= "vlc.exe"@);
    let k: int = if program == "ms-teams.exe"@ {
        1
    } else {
        0
    };
    assert(text::lower(programs[k]) == program);
    process::law_listed_program_holds_its_items(
        items,
        running,
        decisions,
        i,
        lines,
        j,
        name,
        rest,
        k,
    );
}

/// Every application whose directories exist is offered, and so is what
/// archivers left behind.
pub proof fn law_every_application_is_offered(
    rules: Seq<RuleView>,
    surveys: Seq<Seq<SurveyView>>,
    temp: Option<SurveyView>,
    i: int,
    k: int,
)
    requires
        0 <= i < rules.len(),
        rules.len() == surveys.len(),
        0 <= k < surveys[i].len(),
        surveys[i][k].kind == disk::PathKind::Directory,
    ensures
        exists|d: ScannedView| {
            &&& #[trigger] all_application_drafts(rules, surveys, temp).contains(d)
            &&& d.public.name == rules[i].name
            &&& d.public.process_names == rules[i].process_names
            &&& (d.action matches item::ActionView::DeleteDirectoryContents(dirs)
                && dirs.contains(surveys[i][k].path))
        },
        offer::includes_all(all_application_drafts(rules, surveys, temp), archive_drafts(temp)),
{
    let all = all_application_drafts(rules, surveys, temp);
    let parts = rule_drafts(rules, surveys);
    let keep = |p: SurveyView| p.kind == disk::PathKind::Directory;
    let kept = disk::directories(surveys[i]);
    surveys[i].lemma_filter_contains(keep, k);
    let m = choose|m: int| 0 <= m < kept.len() && kept[m] == surveys[i][k];
    assert(disk::paths_of(kept)[m] == surveys[i][k].path);
    offer::lemma_includes_sum(offer::chain(parts), archive_drafts(temp));
    offer::lemma_includes_chain(parts, i);
    offer::lemma_includes_transitive(all, offer::chain(parts), parts[i]);
    assert(parts[i].len() == 1);
    assert(all.contains(parts[i][0]));
}

/// Each application is cleaned in its own directory: its caches, and its logs
/// where it keeps them there.
pub proof fn law_applications_are_cleaned_in_their_own_directories(
    app_data: Seq<char>,
    local: Seq<char>,
)
    ensures
        ({
            let rules = rules_of(Some(app_data), Some(local));
            let code = disk::joined(app_data, "Code"@);
            let slack = disk::joined(app_data, "Slack"@);
            let discord = disk::joined(app_data, "discord"@);
            let teams = disk::joined(disk::joined(app_data, "Microsoft"@), "Teams"@);
            &&& rules.len() == 6
            &&& rules[0].name == "Visual Studio Code 缓存"@ && rules[0].paths == seq![
                disk::joined(code, "Cache"@),
                disk::joined(code, "CachedData"@),
                disk::joined(code, "Code Cache"@),
                disk::joined(code, "GPUCache"@),
                disk::joined(code, "logs"@),
            ]
            &&& rules[1].name == "Slack 缓存"@ && rules[1].paths == seq![
                disk::joined(slack, "Cache"@),
                disk::joined(slack, "Code Cache"@),
                disk::joined(slack, "GPUCache"@),
                disk::joined(slack, "logs"@),
            ]
            &&& rules[2].name == "Discord 缓存"@ && rules[2].paths == seq![
                disk::joined(discord, "Cache"@),
                disk::joined(discord, "Code Cache"@),
                disk::joined(discord, "GPUCache"@),
            ]
            &&& rules[3].name == "Microsoft Teams 缓存"@ && rules[3].paths == seq![
                disk::joined(teams, "Cache"@),
                disk::joined(teams, "Code Cache"@),
                disk::joined(teams, "GPUCache"@),
            ]
            &&& rules[4].name == "VLC 媒体缓存"@ && rules[4].paths == seq![
                disk::joined(disk::joined(app_data, "vlc"@), "art"@),
            ]
            &&& rules[5].name == "npm 缓存"@ && rules[5].paths == seq![
                disk::joined(local, "npm-cache"@),
            ]
        }),
{
}

/// Every application is selected from the start, at no risk but for the media
/// cache of VLC, which is at medium risk; its preview shows up to 140 files.
pub proof fn law_application_offers_have_their_risk(
    app_data: Option<Seq<char>>,
    local_app_data: Option<Seq<char>>,
    surveys: Seq<Seq<SurveyView>>,
    i: int,
)
    requires
        0 <= i < 6,
    ensures
        ({
            let rules = rules_of(app_data, local_app_data);
            let drafts = rule_drafts(rules, surveys)[i];
            let files = disk::files_below(disk::directories(surveys[i]));
            drafts.len() > 0 ==> {
                &&& drafts[0].public.selected_by_default
                &&& drafts[0].public.risk == if i == 4 {
                    RiskLevel::Medium
                } else {
                    RiskLevel::Safe
                }
                &&& drafts[0].public.category == "第三方应用"@
                &&& drafts[0].public.children.len() == if files.len() <= 140 {
                    files.len() as int
                } else {
                    140
                }
            }
        }),
{
}

/// What archivers left behind is offered exactly where there is some, and every
/// file of it is deleted, whatever programs are running.
pub proof fn law_archive_leftovers_are_deleted(t: SurveyView)
    ensures
        archive_drafts(None).len() == 0,
        ({
            let files = disk::wanted_files(seq![t], FileFilter::ArchiveLeftovers);
            let offers = archive_drafts(Some(t));
            &&& offers.len() == if files.len() > 0 {
                1int
            } else {
                0
            }
            &&& offers.len() > 0 ==> {
                &&& offers[0].action == ActionView::DeletePaths(
                    files.map_values(|f: FileView| f.path),
                )
                &&& offers[0].public.process_names.len() == 0
                &&& offers[0].public.risk == RiskLevel::Safe
                &&& offers[0].public.selected_by_default
                &&& disk::total_size(files) <= u64::MAX ==> offers[0].public.size_bytes
                    == disk::total_size(files)
            }
        }),
{
    let files = disk::wanted_files(seq![t], FileFilter::ArchiveLeftovers);
    assert(offer::file_paths(files) =~= files.map_values(|f: FileView| f.path));
}

} // verus!
