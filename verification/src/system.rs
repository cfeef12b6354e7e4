//! The scan of the system itself: temporary files, the recycle bin, the
//! clipboard, memory dumps, logs, the resolver cache and prefetch files.
use crate::disk;
use crate::disk::{FileFilter, PathKind, PathSurvey, SurveyView};
use crate::item;
use crate::item::{ActionView, CleanAction, ModuleKind, RiskLevel, ScannedItem, ScannedView};
use crate::offer;
use crate::offer::Label;
use crate::text;
use vstd::prelude::*;

verus! {

/// The environment variables that say where system files are.
#[derive(Debug)]
pub struct SystemEnv {
    pub system_root: Option<String>,
    pub temp: Option<String>,
    pub tmp: Option<String>,
    pub local_app_data: Option<String>,
}

/// The paths that a system scan looks at.
#[derive(Debug)]
pub struct SystemPlan {
    pub temp_dirs: Vec<Option<String>>,
    pub recycle_bins: Vec<String>,
    pub dumps: Vec<String>,
    pub logs: String,
    pub prefetch: String,
}

/// The contents of a [`SystemPlan`].
pub struct PlanView {
    pub temp_dirs: Seq<Option<Seq<char>>>,
    pub recycle_bins: Seq<Seq<char>>,
    pub dumps: Seq<Seq<char>>,
    pub logs: Seq<char>,
    pub prefetch: Seq<char>,
}

/// The texts inside, where there are any.
pub open spec fn opt_texts(s: Seq<Option<String>>) -> Seq<Option<Seq<char>>> {
    s.map_values(|t: Option<String>| item::opt_text(t))
}

impl View for SystemPlan {
    type V = PlanView;

    open spec fn view(&self) -> PlanView {
        PlanView {
            temp_dirs: opt_texts(self.temp_dirs@),
            recycle_bins: text::views(self.recycle_bins@),
            dumps: text::views(self.dumps@),
            logs: self.logs@,
            prefetch: self.prefetch@,
        }
    }
}

/// The text, or the empty text where there is none.
pub open spec fn or_empty(s: Option<Seq<char>>) -> Seq<char> {
    match s {
        Some(t) => t,
        None => Seq::empty(),
    }
}

/// The text, or the empty text where there is none.
pub fn text_or_empty(s: &Option<String>) -> (r: String)
    ensures
        r@ == or_empty(item::opt_text(*s)),
{
    match s {
        Some(t) => t.clone(),
        None => String::new(),
    }
}

/// The paths that a system scan looks at in the given environment.
pub open spec fn plan_of(env: SystemEnv) -> PlanView {
    let windows = disk::windows_path(item::opt_text(env.system_root));
    PlanView {
        temp_dirs: seq![
            item::opt_text(env.temp),
            item::opt_text(env.tmp),
            Some(disk::joined(windows, "Temp"@)),
        ],
        recycle_bins: disk::recycle_bins(),
        dumps: seq![
            disk::joined(windows, "MEMORY.DMP"@),
            disk::joined(windows, "Minidump"@),
            disk::joined(or_empty(item::opt_text(env.local_app_data)), "CrashDumps"@),
        ],
        logs: disk::joined(windows, "Logs"@),
        prefetch: disk::joined(windows, "Prefetch"@),
    }
}

/// Says which paths a system scan looks at.
pub fn system_plan(env: &SystemEnv) -> (r: SystemPlan)
    ensures
        r@ == plan_of(*env),
{
    let windows_text = disk::windows_dir(&env.system_root);
    let windows = windows_text.as_str();
    let local = text_or_empty(&env.local_app_data);
    let r = SystemPlan {
        temp_dirs: vec![
            item::copy_opt(&env.temp),
            item::copy_opt(&env.tmp),
            Some(disk::join_path(windows, "Temp")),
        ],
        recycle_bins: disk::recycle_bin_candidates(),
        dumps: vec![
            disk::join_path(windows, "MEMORY.DMP"),
            disk::join_path(windows, "Minidump"),
            disk::join_path(local.as_str(), "CrashDumps"),
        ],
        logs: disk::join_path(windows, "Logs"),
        prefetch: disk::join_path(windows, "Prefetch"),
    };
    assert(r@.temp_dirs =~= plan_of(*env).temp_dirs);
    assert(r@.dumps =~= plan_of(*env).dumps);
    r
}

/// What is known of the paths of a [`SystemPlan`].
#[derive(Debug)]
pub struct SystemSurvey {
    pub temp_dirs: Vec<Option<PathSurvey>>,
    pub recycle_bins: Vec<PathSurvey>,
    pub dumps: Vec<PathSurvey>,
    pub logs: PathSurvey,
    pub prefetch: PathSurvey,
}

/// The contents of a [`SystemSurvey`].
pub struct SystemView {
    pub temp_dirs: Seq<Option<SurveyView>>,
    pub recycle_bins: Seq<SurveyView>,
    pub dumps: Seq<SurveyView>,
    pub logs: SurveyView,
    pub prefetch: SurveyView,
}

impl View for SystemSurvey {
    type V = SystemView;

    open spec fn view(&self) -> SystemView {
        SystemView {
            temp_dirs: disk::opt_surveys(self.temp_dirs@),
            recycle_bins: text::views(self.recycle_bins@),
            dumps: text::views(self.dumps@),
            logs: self.logs@,
            prefetch: self.prefetch@,
        }
    }
}

// ---------------------------------------------------------------------------
// The offers

/// The offer to empty the temporary directories.
pub open spec fn temp_drafts(s: SystemView) -> Seq<ScannedView> {
    offer::directory_drafts(
        offer::label(
            ModuleKind::System,
            "系统临时文件"@,
            "系统临时文件"@,
            "清理用户与 Windows 临时目录中可删除的缓存文件。"@,
            RiskLevel::Safe,
            true,
        ),
        Seq::empty(),
        disk::distinct_directories(s.temp_dirs),
        180,
        false,
    )
}

/// The offer to empty the recycle bin.
pub open spec fn recycle_drafts(s: SystemView) -> Seq<ScannedView> {
    offer::directory_drafts(
        offer::label(
            ModuleKind::System,
            "回收站"@,
            "回收站内容"@,
            "允许展开查看回收站中的文件预览。"@,
            RiskLevel::Safe,
            true,
        ),
        Seq::empty(),
        disk::present(s.recycle_bins),
        260,
        true,
    )
}

/// The offer to empty the clipboard.
pub open spec fn clipboard_draft() -> ScannedView {
    offer::plain_draft(
        offer::label(
            ModuleKind::System,
            "剪贴板"@,
            "剪贴板内容"@,
            "清空当前剪贴板内容。"@,
            RiskLevel::Safe,
            false,
        ),
        "Windows 剪贴板"@,
        ActionView::ClearClipboard,
    )
}

/// The offer to delete memory dumps.
pub open spec fn dump_drafts(s: SystemView) -> Seq<ScannedView> {
    let files = disk::wanted_files(s.dumps, FileFilter::Any);
    offer::file_drafts(
        offer::label(
            ModuleKind::System,
            "内存转储"@,
            "内存转储文件"@,
            "删除崩溃诊断生成的转储文件。"@,
            RiskLevel::Safe,
            true,
        ),
        disk::path_list(offer::file_paths(files)),
        files,
    )
}

/// The offer to delete log files.
pub open spec fn log_drafts(s: SystemView) -> Seq<ScannedView> {
    offer::file_drafts(
        offer::label(
            ModuleKind::System,
            "Windows 日志"@,
            "Windows 日志文件"@,
            "删除 Windows 日志目录中的普通日志文件，不直接清空事件日志。"@,
            RiskLevel::Medium,
            true,
        ),
        s.logs.path,
        disk::wanted_files(seq![s.logs], FileFilter::Logs),
    )
}

/// The offer to flush the resolver cache.
pub open spec fn dns_draft() -> ScannedView {
    offer::plain_draft(
        offer::label(
            ModuleKind::System,
            "DNS 缓存"@,
            "DNS 解析缓存"@,
            "刷新本机 DNS 解析缓存。"@,
            RiskLevel::Safe,
            true,
        ),
        "ipconfig /flushdns"@,
        ActionView::FlushDns,
    )
}

/// The offer to empty the prefetch directory.
pub open spec fn prefetch_drafts(s: SystemView) -> Seq<ScannedView> {
    offer::directory_drafts(
        offer::label(
            ModuleKind::System,
            "系统预读"@,
            "系统预读文件"@,
            "删除预读缓存，系统会按需重建。"@,
            RiskLevel::Medium,
            false,
        ),
        Seq::empty(),
        if s.prefetch.kind != PathKind::Missing {
            seq![s.prefetch]
        } else {
            Seq::empty()
        },
        160,
        false,
    )
}

/// Everything that a system scan offers, in order.
pub open spec fn system_drafts(s: SystemView) -> Seq<ScannedView> {
    temp_drafts(s) + recycle_drafts(s) + seq![clipboard_draft()] + dump_drafts(s) + log_drafts(s)
        + seq![dns_draft()] + prefetch_drafts(s)
}

/// Scans the system: appends its offers with the numbers that follow the
/// counter.
pub fn scan_system_items(
    items: &mut Vec<ScannedItem>,
    counter: &mut usize,
    survey: SystemSurvey,
)
    requires
        item::has_room(*old(counter), old(items)@.len(), system_drafts(survey@).len()),
    ensures
        item::extends(
            text::views(old(items)@),
            *old(counter) as int,
            text::views(final(items)@),
            *final(counter) as int,
            system_drafts(survey@),
        ),
        final(items)@.len() - old(items)@.len() == *final(counter) - *old(counter),
{
    let ghost s = survey@;
    let ghost v0 = text::views(items@);
    let ghost c0 = *counter as int;

    let temp_dirs = disk::unique_existing_dirs(survey.temp_dirs);
    offer::offer_directories(
        items,
        counter,
        &Label {
            module: ModuleKind::System,
            category: "系统临时文件",
            name: "系统临时文件",
            detail: "清理用户与 Windows 临时目录中可删除的缓存文件。",
            risk: RiskLevel::Safe,
            selected: true,
        },
        Vec::new(),
        &temp_dirs,
        180,
        false,
    );
    let ghost d1 = temp_drafts(s);
    let ghost v1 = text::views(items@);
    let ghost c1 = *counter as int;

    let recycle_roots = disk::recycle_bin_roots(survey.recycle_bins);
    offer::offer_directories(
        items,
        counter,
        &Label {
            module: ModuleKind::System,
            category: "回收站",
            name: "回收站内容",
            detail: "允许展开查看回收站中的文件预览。",
            risk: RiskLevel::Safe,
            selected: true,
        },
        Vec::new(),
        &recycle_roots,
        260,
        true,
    );
    let ghost d2 = d1 + recycle_drafts(s);
    let ghost v2 = text::views(items@);
    let ghost c2 = *counter as int;
    proof {
        assert(text::views(Seq::<String>::empty()) =~= Seq::empty());
        assert(item::extends(v0, c0, v1, c1, d1));
        item::lemma_extends_twice(v0, c0, v1, c1, v2, c2, d1, recycle_drafts(s));
    }

    offer::offer_plain(
        items,
        counter,
        &Label {
            module: ModuleKind::System,
            category: "剪贴板",
            name: "剪贴板内容",
            detail: "清空当前剪贴板内容。",
            risk: RiskLevel::Safe,
            selected: false,
        },
        "Windows 剪贴板".to_owned(),
        CleanAction::ClearClipboard,
    );
    let ghost d3 = d2 + seq![clipboard_draft()];
    let ghost v3 = text::views(items@);
    let ghost c3 = *counter as int;
    proof {
        item::lemma_extends_twice(v0, c0, v2, c2, v3, c3, d2, seq![clipboard_draft()]);
    }

    let dumps = disk::collect_existing_files(&survey.dumps);
    let shown = disk::join_paths(&dumps.files);
    offer::offer_files(
        items,
        counter,
        &Label {
            module: ModuleKind::System,
            category: "内存转储",
            name: "内存转储文件",
            detail: "删除崩溃诊断生成的转储文件。",
            risk: RiskLevel::Safe,
            selected: true,
        },
        shown,
        dumps,
        Ghost(disk::wanted_files(s.dumps, FileFilter::Any)),
    );
    let ghost d4 = d3 + dump_drafts(s);
    let ghost v4 = text::views(items@);
    let ghost c4 = *counter as int;
    proof {
        item::lemma_extends_twice(v0, c0, v3, c3, v4, c4, d3, dump_drafts(s));
    }

    let logs_path = survey.logs.path.clone();
    let log_dirs = vec![survey.logs];
    let logs = disk::collect_files_matching(&log_dirs, FileFilter::Logs);
    assert(text::views(log_dirs@) =~= seq![s.logs]);
    offer::offer_files(
        items,
        counter,
        &Label {
            module: ModuleKind::System,
            category: "Windows 日志",
            name: "Windows 日志文件",
            detail: "删除 Windows 日志目录中的普通日志文件，不直接清空事件日志。",
            risk: RiskLevel::Medium,
            selected: true,
        },
        logs_path,
        logs,
        Ghost(disk::wanted_files(seq![s.logs], FileFilter::Logs)),
    );
    let ghost d5 = d4 + log_drafts(s);
    let ghost v5 = text::views(items@);
    let ghost c5 = *counter as int;
    proof {
        item::lemma_extends_twice(v0, c0, v4, c4, v5, c5, d4, log_drafts(s));
    }

    offer::offer_plain(
        items,
        counter,
        &Label {
            module: ModuleKind::System,
            category: "DNS 缓存",
            name: "DNS 解析缓存",
            detail: "刷新本机 DNS 解析缓存。",
            risk: RiskLevel::Safe,
            selected: true,
        },
        "ipconfig /flushdns".to_owned(),
        CleanAction::FlushDns,
    );
    let ghost d6 = d5 + seq![dns_draft()];
    let ghost v6 = text::views(items@);
    let ghost c6 = *counter as int;
    proof {
        item::lemma_extends_twice(v0, c0, v5, c5, v6, c6, d5, seq![dns_draft()]);
    }

    let prefetch_dirs = if survey.prefetch.is_present() {
        vec![survey.prefetch]
    } else {
        Vec::new()
    };
    proof {
        if s.prefetch.kind != PathKind::Missing {
            assert(text::views(prefetch_dirs@) =~= seq![s.prefetch]);
        } else {
            assert(text::views(prefetch_dirs@) =~= Seq::empty());
        }
    }
    offer::offer_directories(
        items,
        counter,
        &Label {
            module: ModuleKind::System,
            category: "系统预读",
            name: "系统预读文件",
            detail: "删除预读缓存，系统会按需重建。",
            risk: RiskLevel::Medium,
            selected: false,
        },
        Vec::new(),
        &prefetch_dirs,
        160,
        false,
    );
    proof {
        item::lemma_extends_twice(
            v0,
            c0,
            v6,
            c6,
            text::views(items@),
            *counter as int,
            d6,
            prefetch_drafts(s),
        );
    }
}

/// A system scan selects what is safe, but for the clipboard, and nothing at
/// high risk.
pub proof fn law_system_defaults_follow_risk(s: SystemView)
    ensures
        offer::defaults_follow_risk(system_drafts(s)),
{
}

/// The paths of a plan, in order.
pub open spec fn planned_paths(plan: PlanView) -> Seq<Seq<char>> {
    text::given(plan.temp_dirs) + plan.recycle_bins + plan.dumps + seq![plan.logs, plan.prefetch]
}

/// The surveys of the paths of a plan, in the same order.
pub open spec fn system_surveys(s: SystemView) -> Seq<SurveyView> {
    text::given(s.temp_dirs) + s.recycle_bins + s.dumps + seq![s.logs, s.prefetch]
}

/// A system scan acts on nothing that was not surveyed.
pub proof fn lemma_system_within(s: SystemView)
    ensures
        offer::within(system_surveys(s), system_drafts(s)),
{
    let all = system_surveys(s);
    let temp = text::given(s.temp_dirs);
    let rest = seq![s.logs, s.prefetch];
    let first2 = temp + s.recycle_bins;
    let first3 = first2 + s.dumps;
    disk::lemma_among_sum(first3, rest);
    disk::lemma_among_sum(first2, s.dumps);
    disk::lemma_among_sum(temp, s.recycle_bins);
    disk::lemma_among_transitive(first2, first3, all);
    disk::lemma_among_transitive(temp, first2, all);
    disk::lemma_among_transitive(s.recycle_bins, first2, all);
    disk::lemma_among_transitive(s.dumps, first3, all);
    assert(rest[0] == s.logs && rest[1] == s.prefetch);
    assert(all.contains(s.logs) && all.contains(s.prefetch));

    disk::lemma_distinct_among(s.temp_dirs);
    disk::lemma_among_transitive(disk::distinct_directories(s.temp_dirs), temp, all);
    let bins = disk::present(s.recycle_bins);
    disk::lemma_filter_among(s.recycle_bins, |p: SurveyView| p.kind != PathKind::Missing);
    disk::lemma_among_transitive(bins, s.recycle_bins, all);
    offer::lemma_directories_within(
        all,
        offer::label(
            ModuleKind::System,
            "系统临时文件"@,
            "系统临时文件"@,
            "清理用户与 Windows 临时目录中可删除的缓存文件。"@,
            RiskLevel::Safe,
            true,
        ),
        Seq::empty(),
        disk::distinct_directories(s.temp_dirs),
        180,
        false,
    );
    offer::lemma_directories_within(
        all,
        offer::label(
            ModuleKind::System,
            "回收站"@,
            "回收站内容"@,
            "允许展开查看回收站中的文件预览。"@,
            RiskLevel::Safe,
            true,
        ),
        Seq::empty(),
        bins,
        260,
        true,
    );
    let dumps = disk::wanted_files(s.dumps, FileFilter::Any);
    offer::lemma_files_within(
        all,
        offer::label(
            ModuleKind::System,
            "内存转储"@,
            "内存转储文件"@,
            "删除崩溃诊断生成的转储文件。"@,
            RiskLevel::Safe,
            true,
        ),
        disk::path_list(offer::file_paths(dumps)),
        s.dumps,
        FileFilter::Any,
    );
    offer::lemma_files_within(
        all,
        offer::label(
            ModuleKind::System,
            "Windows 日志"@,
            "Windows 日志文件"@,
            "删除 Windows 日志目录中的普通日志文件，不直接清空事件日志。"@,
            RiskLevel::Medium,
            true,
        ),
        s.logs.path,
        seq![s.logs],
        FileFilter::Logs,
    );
    let prefetch = if s.prefetch.kind != PathKind::Missing {
        seq![s.prefetch]
    } else {
        Seq::empty()
    };
    offer::lemma_directories_within(
        all,
        offer::label(
            ModuleKind::System,
            "系统预读"@,
            "系统预读文件"@,
            "删除预读缓存，系统会按需重建。"@,
            RiskLevel::Medium,
            false,
        ),
        Seq::empty(),
        prefetch,
        160,
        false,
    );
    let clipboard = seq![clipboard_draft()];
    let dns = seq![dns_draft()];
    let d1 = temp_drafts(s);
    let d2 = d1 + recycle_drafts(s);
    let d3 = d2 + clipboard;
    let d4 = d3 + dump_drafts(s);
    let d5 = d4 + log_drafts(s);
    let d6 = d5 + dns;
    offer::lemma_within_add(all, d1, recycle_drafts(s));
    offer::lemma_within_add(all, d2, clipboard);
    offer::lemma_within_add(all, d3, dump_drafts(s));
    offer::lemma_within_add(all, d4, log_drafts(s));
    offer::lemma_within_add(all, d5, dns);
    offer::lemma_within_add(all, d6, prefetch_drafts(s));
}

/// Where the surveyed paths are those of the plan for an environment, a system
/// scan acts on planned paths and on files below them, and on nothing else.
pub proof fn law_system_scan_keeps_to_its_plan(env: SystemEnv, s: SystemView)
    requires
        disk::paths_of(system_surveys(s)) == planned_paths(plan_of(env)),
    ensures
        offer::keeps_to_plan(planned_paths(plan_of(env)), system_surveys(s), system_drafts(s)),
{
    lemma_system_within(s);
    offer::lemma_keeps_to_plan(planned_paths(plan_of(env)), system_surveys(s), system_drafts(s));
}

// ---------------------------------------------------------------------------
// What is offered of the system

/// The clipboard and the resolver cache are always offered, the clipboard not
/// selected.
pub proof fn law_clipboard_and_names_are_always_offered(s: SystemView)
    ensures
        exists|d: ScannedView| #[trigger]
            system_drafts(s).contains(d) && d.action == ActionView::ClearClipboard
                && !d.public.selected_by_default,
        exists|d: ScannedView| #[trigger]
            system_drafts(s).contains(d) && d.action == ActionView::FlushDns
                && d.public.selected_by_default,
{
    lemma_system_parts(s);
    let clipboard = seq![clipboard_draft()];
    let dns = seq![dns_draft()];
    assert(system_drafts(s).contains(clipboard[0]));
    assert(system_drafts(s).contains(dns[0]));
}

/// The parts of a system scan are all in it.
proof fn lemma_system_parts(s: SystemView)
    ensures
        offer::includes_all(system_drafts(s), temp_drafts(s)),
        offer::includes_all(system_drafts(s), recycle_drafts(s)),
        offer::includes_all(system_drafts(s), seq![clipboard_draft()]),
        offer::includes_all(system_drafts(s), dump_drafts(s)),
        offer::includes_all(system_drafts(s), log_drafts(s)),
        offer::includes_all(system_drafts(s), seq![dns_draft()]),
        offer::includes_all(system_drafts(s), prefetch_drafts(s)),
{
    let d1 = temp_drafts(s);
    let d2 = d1 + recycle_drafts(s);
    let d3 = d2 + seq![clipboard_draft()];
    let d4 = d3 + dump_drafts(s);
    let d5 = d4 + log_drafts(s);
    let d6 = d5 + seq![dns_draft()];
    let all = d6 + prefetch_drafts(s);
    offer::lemma_includes_sum(d6, prefetch_drafts(s));
    offer::lemma_includes_sum(d5, seq![dns_draft()]);
    offer::lemma_includes_sum(d4, log_drafts(s));
    offer::lemma_includes_sum(d3, dump_drafts(s));
    offer::lemma_includes_sum(d2, seq![clipboard_draft()]);
    offer::lemma_includes_sum(d1, recycle_drafts(s));
    offer::lemma_includes_transitive(all, d6, d5);
    offer::lemma_includes_transitive(all, d6, seq![dns_draft()]);
    offer::lemma_includes_transitive(all, d5, d4);
    offer::lemma_includes_transitive(all, d5, log_drafts(s));
    offer::lemma_includes_transitive(all, d4, d3);
    offer::lemma_includes_transitive(all, d4, dump_drafts(s));
    offer::lemma_includes_transitive(all, d3, d2);
    offer::lemma_includes_transitive(all, d3, seq![clipboard_draft()]);
    offer::lemma_includes_transitive(all, d2, d1);
    offer::lemma_includes_transitive(all, d2, recycle_drafts(s));
}

/// A temporary directory that exists is emptied, under one of the ways in which
/// its path is written; a recycle bin that exists is emptied as a recycle bin;
/// a prefetch directory that exists is emptied, unselected.
pub proof fn law_directories_that_exist_are_offered(s: SystemView, i: int)
    ensures
        0 <= i < s.temp_dirs.len() ==> (s.temp_dirs[i] matches Some(t) ==> t.kind
            == PathKind::Directory ==> exists|d: ScannedView, path: Seq<char>| #[trigger]
            system_drafts(s).contains(d) && d.action is DeleteDirectoryContents
                && #[trigger] offer::action_paths(d.action).contains(path) && text::lower(path)
                == text::lower(t.path)),
        0 <= i < s.recycle_bins.len() && s.recycle_bins[i].kind != PathKind::Missing ==> exists|
            d: ScannedView,
        | #[trigger]
            system_drafts(s).contains(d) && (d.action matches ActionView::ClearRecycleBin(roots)
                && roots.contains(s.recycle_bins[i].path)),
        s.prefetch.kind != PathKind::Missing ==> exists|d: ScannedView| #[trigger]
            system_drafts(s).contains(d) && d.action == ActionView::DeleteDirectoryContents(
                seq![s.prefetch.path],
            ) && !d.public.selected_by_default,
{
    lemma_system_parts(s);
    if 0 <= i < s.temp_dirs.len() {
        if let Some(t) = s.temp_dirs[i] {
            if t.kind == PathKind::Directory {
                disk::law_directories_are_distinct(s.temp_dirs);
                let all = disk::distinct_directories(s.temp_dirs);
                assert(s.temp_dirs[i] == Some(t));
                assert(disk::listed(all, t.path));
                let k = choose|k: int|
                    0 <= k < all.len() && text::lower(#[trigger] all[k].path) == text::lower(
                        t.path,
                    );
                let paths = disk::paths_of(all);
                assert(paths[k] == all[k].path);
                let d = temp_drafts(s)[0];
                assert(system_drafts(s).contains(temp_drafts(s)[0]));
                assert(d.action == ActionView::DeleteDirectoryContents(paths));
                assert(offer::action_paths(d.action).contains(all[k].path));
            }
        }
    }
    if 0 <= i < s.recycle_bins.len() && s.recycle_bins[i].kind != PathKind::Missing {
        let keep = |p: SurveyView| p.kind != PathKind::Missing;
        let kept = disk::present(s.recycle_bins);
        s.recycle_bins.lemma_filter_contains(keep, i);
        let k = choose|k: int| 0 <= k < kept.len() && kept[k] == s.recycle_bins[i];
        assert(disk::paths_of(kept)[k] == s.recycle_bins[i].path);
        assert(system_drafts(s).contains(recycle_drafts(s)[0]));
    }
    if s.prefetch.kind != PathKind::Missing {
        let d = prefetch_drafts(s)[0];
        assert(system_drafts(s).contains(prefetch_drafts(s)[0]));
        assert(disk::paths_of(seq![s.prefetch]) =~= seq![s.prefetch.path]);
    }
}

/// Every dump that exists, and every log file below the logs, is deleted by an
/// offer of its own kind.
pub proof fn law_files_that_exist_are_offered(s: SystemView, dump: int, log: int)
    ensures
        0 <= dump < s.dumps.len() && s.dumps[dump].kind == PathKind::File ==> exists|
            d: ScannedView,
        | #[trigger]
            system_drafts(s).contains(d) && d.public.name == "内存转储文件"@ && (
            d.action matches ActionView::DeletePaths(paths) && paths.contains(s.dumps[dump].path)),
        s.logs.kind == PathKind::Directory && 0 <= log < s.logs.files.len() && disk::wanted(
            FileFilter::Logs,
            s.logs.files[log].name,
        ) ==> exists|d: ScannedView| #[trigger]
            system_drafts(s).contains(d) && d.public.name == "Windows 日志文件"@ && (
            d.action matches ActionView::DeletePaths(paths) && paths.contains(
                s.logs.files[log].path,
            )),
{
    lemma_system_parts(s);
    if 0 <= dump < s.dumps.len() && s.dumps[dump].kind == PathKind::File {
        let one = s.dumps[dump];
        let files = disk::wanted_files(s.dumps, FileFilter::Any);
        let before = s.dumps.take(dump);
        let after = s.dumps.skip(dump + 1);
        disk::law_wanted_files_follow_their_paths(before, seq![one], one, FileFilter::Any);
        disk::law_wanted_files_follow_their_paths(
            before + seq![one],
            after,
            one,
            FileFilter::Any,
        );
        assert(before + seq![one] + after =~= s.dumps);
        let k = disk::wanted_files(before, FileFilter::Any).len() as int;
        assert(disk::wanted_files(seq![one], FileFilter::Any)[0].path == one.path);
        assert(files[k].path == one.path);
        assert(offer::file_paths(files)[k] == one.path);
        assert(system_drafts(s).contains(dump_drafts(s)[0]));
    }
    if s.logs.kind == PathKind::Directory && 0 <= log < s.logs.files.len() && disk::wanted(
        FileFilter::Logs,
        s.logs.files[log].name,
    ) {
        let f = s.logs.files[log];
        let files = disk::wanted_files(seq![s.logs], FileFilter::Logs);
        disk::law_wanted_files_follow_their_paths(
            Seq::empty(),
            Seq::empty(),
            s.logs,
            FileFilter::Logs,
        );
        assert(s.logs.files.contains(f));
        assert(files.contains(f));
        let k = choose|k: int| 0 <= k < files.len() && files[k] == f;
        assert(offer::file_paths(files)[k] == f.path);
        assert(system_drafts(s).contains(log_drafts(s)[0]));
    }
}

/// Temporary files, the recycle bin, dumps and the resolver cache are safe and
/// selected, logs are at medium risk and selected, prefetch files are at medium
/// risk and not selected. Each preview shows files up to its own length.
pub proof fn law_system_offers_have_their_risk(s: SystemView)
    ensures
        temp_drafts(s).len() > 0 ==> temp_drafts(s)[0].public.risk == RiskLevel::Safe
            && temp_drafts(s)[0].public.selected_by_default && temp_drafts(
            s,
        )[0].public.children.len() <= 180,
        recycle_drafts(s).len() > 0 ==> recycle_drafts(s)[0].public.risk == RiskLevel::Safe
            && recycle_drafts(s)[0].public.selected_by_default && recycle_drafts(
            s,
        )[0].public.children.len() <= 260,
        dump_drafts(s).len() > 0 ==> dump_drafts(s)[0].public.risk == RiskLevel::Safe
            && dump_drafts(s)[0].public.selected_by_default,
        log_drafts(s).len() > 0 ==> log_drafts(s)[0].public.risk == RiskLevel::Medium
            && log_drafts(s)[0].public.selected_by_default && log_drafts(s)[0].public.path
            == s.logs.path,
        dns_draft().public.risk == RiskLevel::Safe && dns_draft().public.selected_by_default,
        prefetch_drafts(s).len() > 0 ==> prefetch_drafts(s)[0].public.risk == RiskLevel::Medium
            && !prefetch_drafts(s)[0].public.selected_by_default,
        ({
            let files = disk::files_below(disk::distinct_directories(s.temp_dirs));
            temp_drafts(s).len() > 0 && files.len() >= 180 ==> temp_drafts(
                s,
            )[0].public.children.len() == 180
        }),
        ({
            let files = disk::files_below(disk::present(s.recycle_bins));
            recycle_drafts(s).len() > 0 && files.len() >= 260 ==> recycle_drafts(
                s,
            )[0].public.children.len() == 260
        }),
        prefetch_drafts(s).len() > 0 && s.prefetch.files.len() >= 160 ==> prefetch_drafts(
            s,
        )[0].public.children.len() == 160,
{
    reveal_with_fuel(disk::files_below, 3);
    assert(disk::files_below(seq![s.prefetch]) =~= s.prefetch.files);
}

/// The paths of a system scan stand in the Windows directory, the temporary
/// directories of the environment and the local data directory.
pub proof fn law_system_files_are_looked_for_in_their_places(env: SystemEnv)
    ensures
        ({
            let plan = plan_of(env);
            let windows = match env.system_root {
                Some(root) => root@,
                None => "C:\\Windows"@,
            };
            &&& plan.temp_dirs == seq![
                item::opt_text(env.temp),
                item::opt_text(env.tmp),
                Some(disk::joined(windows, "Temp"@)),
            ]
            &&& plan.dumps.contains(disk::joined(windows, "MEMORY.DMP"@))
            &&& plan.dumps.contains(disk::joined(windows, "Minidump"@))
            &&& env.local_app_data matches Some(local) ==> plan.dumps.contains(
                disk::joined(local@, "CrashDumps"@),
            )
            &&& plan.dumps.len() == 3
            &&& plan.logs == disk::joined(windows, "Logs"@)
            &&& plan.prefetch == disk::joined(windows, "Prefetch"@)
        }),
{
    let d = plan_of(env).dumps;
    assert(d.contains(d[0]) && d.contains(d[1]) && d.contains(d[2]));
}

} // verus!
