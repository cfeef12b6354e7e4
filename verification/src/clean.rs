//! Cleaning: what an action consists of, what it came to, and the run through
//! the selected items.
use crate::backup;
use crate::command;
use crate::command::{CommandLine, LineView, Run};
use crate::database;
use crate::database::{DatabaseRun, RunView};
use crate::disk;
use crate::disk::{PathSurvey, SurveyView};
use crate::item;
use crate::item::{ActionView, CleanAction, ScannedItem, ScannedView};
use crate::process;
use crate::process::{ConflictDecision, ConflictPlan, Decision, DecisionView};
use crate::text;
use vstd::prelude::*;

verus! {

// ---------------------------------------------------------------------------
// Deleting

/// What cleaning freed, and what went wrong on the way.
#[derive(Debug)]
pub struct ActionOutcome {
    pub freed_bytes: u64,
    pub errors: Vec<String>,
}

/// The contents of an [`ActionOutcome`].
pub struct OutcomeView {
    pub freed_bytes: u64,
    pub errors: Seq<Seq<char>>,
}

impl View for ActionOutcome {
    type V = OutcomeView;

    open spec fn view(&self) -> OutcomeView {
        OutcomeView { freed_bytes: self.freed_bytes, errors: text::views(self.errors@) }
    }
}

/// An outcome without errors.
pub open spec fn freed(bytes: u64) -> OutcomeView {
    OutcomeView { freed_bytes: bytes, errors: Seq::empty() }
}

/// Builds an outcome without errors.
fn freed_outcome(bytes: u64) -> (r: ActionOutcome)
    ensures
        r@ == freed(bytes),
{
    let errors: Vec<String> = Vec::new();
    assert(text::views(errors@) =~= Seq::empty());
    ActionOutcome { freed_bytes: bytes, errors }
}

/// What became of a path that was to be removed.
#[derive(Debug)]
pub enum Attempt {
    /// Nothing was there.
    Missing,
    /// It was removed; it had held this many bytes.
    Removed(u64),
    /// It was not removed, for this reason.
    Failed(String),
}

/// The contents of an [`Attempt`].
pub enum AttemptView {
    Missing,
    Removed(u64),
    Failed(Seq<char>),
}

impl View for Attempt {
    type V = AttemptView;

    open spec fn view(&self) -> AttemptView {
        match *self {
            Attempt::Missing => AttemptView::Missing,
            Attempt::Removed(n) => AttemptView::Removed(n),
            Attempt::Failed(e) => AttemptView::Failed(e@),
        }
    }
}

/// A path and what became of it.
#[derive(Debug)]
pub struct PathAttempt {
    pub path: String,
    pub attempt: Attempt,
}

/// The contents of a [`PathAttempt`].
pub struct TryView {
    pub path: Seq<char>,
    pub attempt: AttemptView,
}

impl View for PathAttempt {
    type V = TryView;

    open spec fn view(&self) -> TryView {
        TryView { path: self.path@, attempt: self.attempt@ }
    }
}

/// The bytes that the attempts freed.
pub open spec fn bytes_freed(tries: Seq<TryView>) -> nat
    decreases tries.len(),
{
    if tries.len() == 0 {
        0
    } else {
        bytes_freed(tries.drop_last()) + match tries.last().attempt {
            AttemptView::Removed(n) => n as nat,
            _ => 0,
        }
    }
}

/// The errors of the attempts, in order, each after its path.
pub open spec fn errors_of(tries: Seq<TryView>) -> Seq<Seq<char>>
    decreases tries.len(),
{
    if tries.len() == 0 {
        Seq::empty()
    } else {
        let before = errors_of(tries.drop_last());
        match tries.last().attempt {
            AttemptView::Failed(e) => before.push(tries.last().path + ": "@ + e),
            _ => before,
        }
    }
}

/// What the attempts came to.
pub open spec fn outcome_of(tries: Seq<TryView>) -> OutcomeView {
    OutcomeView {
        freed_bytes: disk::capped(bytes_freed(tries)),
        errors: errors_of(tries),
    }
}

/// Adds one attempt to an outcome.
fn add_attempt(outcome: &mut ActionOutcome, path: &str, attempt: &Attempt, Ghost(tries): Ghost<
    Seq<TryView>,
>)
    requires
        old(outcome)@ == outcome_of(tries),
    ensures
        final(outcome)@ == outcome_of(
            tries.push(TryView { path: path@, attempt: attempt@ }),
        ),
{
    let ghost one = TryView { path: path@, attempt: attempt@ };
    let ghost before = outcome.errors@;
    assert(tries.push(one).drop_last() =~= tries);
    assert(tries.push(one).last() == one);
    match attempt {
        Attempt::Missing => {},
        Attempt::Removed(n) => {
            outcome.freed_bytes = outcome.freed_bytes.saturating_add(*n);
        },
        Attempt::Failed(e) => {
            let message = text::concat3(path, ": ", e.as_str());
            outcome.errors.push(message);
            proof {
                text::lemma_views_push(before, message);
            }
        },
    }
}

/// The attempts on the paths, one on each.
pub open spec fn tries_on(paths: Seq<Seq<char>>, attempts: Seq<AttemptView>) -> Seq<TryView> {
    Seq::new(paths.len(), |i: int| TryView { path: paths[i], attempt: attempts[i] })
}

/// Sums up the removal of the paths. `attempts` says what became of each;
/// those at which nothing was count for nothing.
pub fn delete_paths(paths: &Vec<String>, attempts: &Vec<Attempt>) -> (r: ActionOutcome)
    requires
        attempts@.len() == paths@.len(),
    ensures
        r@ == outcome_of(tries_on(text::views(paths@), text::views(attempts@))),
{
    let ghost all = tries_on(text::views(paths@), text::views(attempts@));
    let mut outcome = freed_outcome(0);
    assert(all.take(0) =~= Seq::empty());
    assert(outcome@.errors =~= outcome_of(all.take(0)).errors);
    for i in 0..paths.len()
        invariant
            attempts@.len() == paths@.len(),
            all == tries_on(text::views(paths@), text::views(attempts@)),
            outcome@ == outcome_of(all.take(i as int)),
    {
        add_attempt(&mut outcome, paths[i].as_str(), &attempts[i], Ghost(all.take(i as int)));
        assert(all.take(i + 1) =~= all.take(i as int).push(all[i as int]));
    }
    assert(all.take(paths@.len() as int) =~= all);
    outcome
}

/// What became of a directory that was to be emptied: what became of each of
/// its entries, or why they could not be listed and whether it is there.
#[derive(Debug)]
pub enum Listing {
    Entries(Vec<PathAttempt>),
    Unreadable { error: String, present: bool },
}

/// The contents of a [`Listing`].
pub enum ListingView {
    Entries(Seq<TryView>),
    Unreadable { error: Seq<char>, present: bool },
}

impl View for Listing {
    type V = ListingView;

    open spec fn view(&self) -> ListingView {
        match *self {
            Listing::Entries(v) => ListingView::Entries(text::views(v@)),
            Listing::Unreadable { error, present } => ListingView::Unreadable {
                error: error@,
                present,
            },
        }
    }
}

/// The attempts for one directory. One that is there and cannot be listed
/// counts as a failure of its own; one that is not there counts for nothing.
pub open spec fn tries_in(dir: Seq<char>, listing: ListingView) -> Seq<TryView> {
    match listing {
        ListingView::Entries(tries) => tries,
        ListingView::Unreadable { error, present } => if present {
            seq![TryView { path: dir, attempt: AttemptView::Failed(error) }]
        } else {
            Seq::empty()
        },
    }
}

/// The attempts for all directories, in order.
pub open spec fn all_tries(dirs: Seq<Seq<char>>, listings: Seq<ListingView>) -> Seq<TryView>
    decreases dirs.len(),
{
    if dirs.len() == 0 {
        Seq::empty()
    } else {
        all_tries(dirs.drop_last(), listings.drop_last()) + tries_in(dirs.last(), listings.last())
    }
}

/// Sums up the emptying of the directories. `listings` says what became of the
/// entries of each.
pub fn delete_directory_contents(dirs: &Vec<String>, listings: &Vec<Listing>) -> (r: ActionOutcome)
    requires
        listings@.len() == dirs@.len(),
    ensures
        r@ == outcome_of(all_tries(text::views(dirs@), text::views(listings@))),
{
    let ghost names = text::views(dirs@);
    let ghost lists = text::views(listings@);
    let mut outcome = freed_outcome(0);
    assert(names.take(0) =~= Seq::empty());
    assert(outcome@.errors =~= outcome_of(all_tries(names.take(0), lists.take(0))).errors);
    for i in 0..dirs.len()
        invariant
            listings@.len() == dirs@.len(),
            names == text::views(dirs@),
            lists == text::views(listings@),
            outcome@ == outcome_of(all_tries(names.take(i as int), lists.take(i as int))),
    {
        let ghost before = all_tries(names.take(i as int), lists.take(i as int));
        let ghost here = tries_in(names[i as int], lists[i as int]);
        proof {
            assert(names.take(i + 1).drop_last() =~= names.take(i as int));
            assert(lists.take(i + 1).drop_last() =~= lists.take(i as int));
            assert(names.take(i + 1).last() == dirs@[i as int]@);
            assert(lists.take(i + 1).last() == listings@[i as int]@);
        }
        match &listings[i] {
            Listing::Entries(tries) => {
                let ghost tv = text::views(tries@);
                assert(before + tv.take(0) =~= before);
                for k in 0..tries.len()
                    invariant
                        tv == text::views(tries@),
                        outcome@ == outcome_of(before + tv.take(k as int)),
                {
                    add_attempt(
                        &mut outcome,
                        tries[k].path.as_str(),
                        &tries[k].attempt,
                        Ghost(before + tv.take(k as int)),
                    );
                    assert((before + tv.take(k as int)).push(tries@[k as int]@) =~= before
                        + tv.take(k + 1));
                }
                assert(tv.take(tries@.len() as int) =~= tv);
            },
            Listing::Unreadable { error, present } => {
                if *present {
                    let failed = Attempt::Failed(error.clone());
                    add_attempt(&mut outcome, dirs[i].as_str(), &failed, Ghost(before));
                    assert(before.push(TryView { path: names[i as int], attempt: failed@ })
                        =~= before + here);
                } else {
                    assert(before + here =~= before);
                }
            },
        }
    }
    assert(names.take(dirs@.len() as int) =~= names);
    assert(lists.take(dirs@.len() as int) =~= lists);
    outcome
}

// ---------------------------------------------------------------------------
// Other actions

/// What running a command came to: nothing freed, or the failure.
pub fn command_outcome(label: &str, run: &Run) -> (r: Result<ActionOutcome, String>)
    ensures
        match r {
            Ok(outcome) => command::run_failure(label@, *run) is None && outcome@ == freed(0),
            Err(message) => command::run_failure(label@, *run) == Some(message@),
        },
{
    match command::run_simple_command(label, run) {
        Ok(()) => Ok(freed_outcome(0)),
        Err(message) => Err(message),
    }
}

/// The size of what stands at all the paths.
pub open spec fn sizes_at(paths: Seq<SurveyView>) -> nat
    decreases paths.len(),
{
    if paths.len() == 0 {
        0
    } else {
        sizes_at(paths.drop_last()) + disk::size_at(paths.last())
    }
}

/// The sizes of the first paths do not exceed those of all.
proof fn lemma_sizes_grow(paths: Seq<SurveyView>, i: int)
    requires
        0 <= i <= paths.len(),
    ensures
        sizes_at(paths.take(i)) <= sizes_at(paths),
    decreases paths.len(),
{
    if i == paths.len() {
        assert(paths.take(i) =~= paths);
    } else {
        lemma_sizes_grow(paths.drop_last(), i);
        assert(paths.drop_last().take(i) =~= paths.take(i));
    }
}

/// Measures what stands at all the paths. There is no answer where the sum
/// does not fit in 64 bits.
pub fn paths_size(paths: &Vec<PathSurvey>) -> (r: Option<u64>)
    ensures
        r == if sizes_at(text::views(paths@)) <= u64::MAX {
            Some(sizes_at(text::views(paths@)) as u64)
        } else {
            None
        },
{
    let ghost all = text::views(paths@);
    let mut sum: u64 = 0;
    assert(all.take(0) =~= Seq::empty());
    for i in 0..paths.len()
        invariant
            all == text::views(paths@),
            sum == sizes_at(all.take(i as int)),
    {
        proof {
            assert(all.take(i + 1).drop_last() =~= all.take(i as int));
            assert(all.take(i + 1).last() == paths@[i as int]@);
            lemma_sizes_grow(all, i + 1);
        }
        match disk::path_size(&paths[i]) {
            Some(n) => match sum.checked_add(n) {
                Some(m) => {
                    sum = m;
                },
                None => {
                    return None;
                },
            },
            None => {
                return None;
            },
        }
    }
    assert(all.take(paths@.len() as int) =~= all);
    Some(sum)
}

/// Whether the recycle bin is to be emptied entry by entry: its command ran
/// and failed.
pub open spec fn falls_back(run: Run) -> bool {
    match run {
        Ok(output) => !output.success,
        Err(_) => false,
    }
}

/// Decides whether the recycle bin is to be emptied entry by entry.
pub fn needs_fallback(run: &Run) -> (r: bool)
    ensures
        r == falls_back(*run),
{
    match run {
        Ok(output) => !output.success,
        Err(_) => false,
    }
}

/// The attempts of the fallback, where there was one.
pub open spec fn fallback_tries(
    roots: Seq<Seq<char>>,
    fallback: Option<Vec<Listing>>,
) -> Seq<TryView> {
    match fallback {
        Some(listings) => all_tries(roots, text::views(listings@)),
        None => Seq::empty(),
    }
}

/// What emptying the recycle bin came to. `size_before` is what it held, `run`
/// how [`command::clear_recycle_bin_command`] ended, and `fallback` what became
/// of the entries of its directories where they were then emptied one by one.
/// An error there brings back the failure of the command.
pub fn clear_recycle_bin(
    roots: &Vec<String>,
    size_before: u64,
    run: &Run,
    fallback: &Option<Vec<Listing>>,
) -> (r: Result<ActionOutcome, String>)
    requires
        falls_back(*run) ==> fallback is Some,
        fallback matches Some(listings) ==> listings@.len() == roots@.len(),
    ensures
        match r {
            Ok(outcome) => if falls_back(*run) {
                &&& outcome@ == outcome_of(fallback_tries(text::views(roots@), *fallback))
                &&& outcome@.errors.len() == 0
            } else {
                run is Ok && outcome@ == freed(size_before)
            },
            Err(message) => {
                &&& command::run_failure("Clear-RecycleBin"@, *run) == Some(message@)
                &&& falls_back(*run) ==> errors_of(
                    fallback_tries(text::views(roots@), *fallback),
                ).len() > 0
            },
        },
{
    match run {
        Err(message) => Err(message.clone()),
        Ok(output) => {
            if output.success {
                return Ok(freed_outcome(size_before));
            }
            match fallback {
                Some(listings) => {
                    let outcome = delete_directory_contents(roots, listings);
                    assert(outcome@.errors.len() == outcome.errors@.len());
                    if outcome.errors.len() == 0 {
                        Ok(outcome)
                    } else {
                        Err(command::command_error("Clear-RecycleBin", output))
                    }
                },
                None => Err(command::command_error("Clear-RecycleBin", output)),
            }
        },
    }
}

/// How the clearing of a database went.
#[derive(Debug)]
pub enum DatabaseEnd {
    /// There is no database.
    Missing,
    /// It could not be opened, for this reason.
    NotOpened(String),
    /// The statements were run, up to the first that failed.
    Ran { size_before: u64, run: DatabaseRun },
}

/// What clearing a database came to: the size that it had before, nothing
/// where there is none, or the failure.
pub fn clean_browser_database(end: &DatabaseEnd) -> (r: Result<ActionOutcome, String>)
    requires
        end matches DatabaseEnd::Ran { run, .. } ==> !database::goes_on(run@),
    ensures
        match *end {
            DatabaseEnd::Missing => r matches Ok(outcome) && outcome@ == freed(0),
            DatabaseEnd::NotOpened(error) => r matches Err(message) && message@ == error@,
            DatabaseEnd::Ran { size_before, run } => match run@.failed {
                None => r matches Ok(outcome) && outcome@ == freed(size_before),
                Some(failure) => r matches Err(message) && message@ == failure,
            },
        },
{
    match end {
        DatabaseEnd::Missing => Ok(freed_outcome(0)),
        DatabaseEnd::NotOpened(error) => Err(error.clone()),
        DatabaseEnd::Ran { size_before, run } => match run.outcome(*size_before) {
            Ok(bytes) => Ok(freed_outcome(bytes)),
            Err(message) => Err(message),
        },
    }
}

/// What an action consists of.
#[derive(Debug)]
pub enum Work {
    /// Remove every entry of the directories.
    EmptyDirectories(Vec<String>),
    /// Remove the paths.
    RemovePaths(Vec<String>),
    /// Run a command, which goes by the label where it fails.
    RunCommand { command: CommandLine, label: String },
    /// Run a command, and empty the directories where it fails.
    EmptyRecycleBin { command: CommandLine, roots: Vec<String> },
    /// Run statements on the database at a path.
    ClearDatabase { db_path: String, run: DatabaseRun },
}

/// The contents of a [`Work`].
pub enum WorkView {
    EmptyDirectories(Seq<Seq<char>>),
    RemovePaths(Seq<Seq<char>>),
    RunCommand { command: LineView, label: Seq<char> },
    EmptyRecycleBin { command: LineView, roots: Seq<Seq<char>> },
    ClearDatabase { db_path: Seq<char>, run: RunView },
}

impl View for Work {
    type V = WorkView;

    open spec fn view(&self) -> WorkView {
        match *self {
            Work::EmptyDirectories(dirs) => WorkView::EmptyDirectories(text::views(dirs@)),
            Work::RemovePaths(paths) => WorkView::RemovePaths(text::views(paths@)),
            Work::RunCommand { command, label } => WorkView::RunCommand {
                command: command@,
                label: label@,
            },
            Work::EmptyRecycleBin { command, roots } => WorkView::EmptyRecycleBin {
                command: command@,
                roots: text::views(roots@),
            },
            Work::ClearDatabase { db_path, run } => WorkView::ClearDatabase {
                db_path: db_path@,
                run: run@,
            },
        }
    }
}

/// What an action consists of, with the given whitelist of cookies.
pub open spec fn work_of(action: ActionView, whitelist: Seq<Seq<char>>) -> WorkView {
    match action {
        ActionView::DeleteDirectoryContents(dirs) => WorkView::EmptyDirectories(dirs),
        ActionView::DeletePaths(paths) => WorkView::RemovePaths(paths),
        ActionView::FlushDns => WorkView::RunCommand {
            command: command::flush_dns_line(),
            label: "ipconfig"@,
        },
        ActionView::ClearClipboard => WorkView::RunCommand {
            command: command::clear_clipboard_line(),
            label: "cmd"@,
        },
        ActionView::ClearRecycleBin(roots) => WorkView::EmptyRecycleBin {
            command: command::clear_recycle_bin_line(),
            roots,
        },
        ActionView::BrowserSql { db_path, kind } => WorkView::ClearDatabase {
            db_path,
            run: database::run_start(kind, whitelist),
        },
        ActionView::RegistryDelete { key_path, value_name, delete_key } => WorkView::RunCommand {
            command: command::registry_delete_line(key_path, value_name, delete_key),
            label: "reg delete"@,
        },
    }
}

/// Says what an action consists of.
pub fn execute_action(action: &CleanAction, cookie_whitelist: &Vec<String>) -> (r: Work)
    ensures
        r@ == work_of(action@, text::views(cookie_whitelist@)),
{
    match action {
        CleanAction::DeleteDirectoryContents(dirs) => Work::EmptyDirectories(
            text::copy_strings(dirs),
        ),
        CleanAction::DeletePaths(paths) => Work::RemovePaths(text::copy_strings(paths)),
        CleanAction::FlushDns => Work::RunCommand {
            command: command::flush_dns_command(),
            label: "ipconfig".to_owned(),
        },
        CleanAction::ClearClipboard => Work::RunCommand {
            command: command::clear_clipboard_command(),
            label: "cmd".to_owned(),
        },
        CleanAction::ClearRecycleBin(roots) => Work::EmptyRecycleBin {
            command: command::clear_recycle_bin_command(),
            roots: text::copy_strings(roots),
        },
        CleanAction::BrowserSql { db_path, kind } => Work::ClearDatabase {
            db_path: db_path.clone(),
            run: DatabaseRun::new(*kind, cookie_whitelist),
        },
        CleanAction::RegistryDelete { key_path, value_name, delete_key } => Work::RunCommand {
            command: command::registry_delete_command(key_path.as_str(), value_name, *delete_key),
            label: "reg delete".to_owned(),
        },
    }
}

// ---------------------------------------------------------------------------
// Before the run

/// Prepares to clean the selected items: finds the programs to end first, or
/// the reason for which nothing is cleaned. There must be something to clean,
/// and something decided about every item whose programs are running.
pub fn prepare_clean(
    items: &Vec<ScannedItem>,
    runs: &Vec<Option<Run>>,
    decisions: &Vec<Decision>,
) -> (r: ConflictPlan)
    requires
        runs@.len() == items@.len(),
    ensures
        ({
            let found = process::conflicts_of(
                text::views(items@),
                process::running_for(text::views(items@), runs@),
            );
            let decided = text::views(decisions@);
            &&& text::views(r.kills@) == process::kills_of(
                found.take(process::first_undecided(found, decided)),
                decided,
            )
            &&& item::opt_text(r.error) == if items@.len() == 0 {
                Some("没有可执行的清理项目"@)
            } else if process::all_decided(found, decided) {
                None
            } else {
                Some("PROCESS_CONFLICT"@)
            }
        }),
{
    let conflicts = process::conflicts_for_items(items, runs);
    let plan = process::resolve_conflicts(&conflicts, decisions);
    if items.len() == 0 {
        return ConflictPlan {
            kills: plan.kills,
            error: Some("没有可执行的清理项目".to_owned()),
        };
    }
    plan
}

// ---------------------------------------------------------------------------
// The run

/// How far cleaning has come, for the user to see.
#[derive(Debug)]
pub struct CleanProgress {
    pub total: usize,
    pub completed: usize,
    pub current: String,
    pub status: String,
    pub freed_bytes: u64,
    pub errors: Vec<String>,
}

/// The contents of a [`CleanProgress`].
pub struct ProgressView {
    pub total: int,
    pub completed: int,
    pub current: Seq<char>,
    pub status: Seq<char>,
    pub freed_bytes: u64,
    pub errors: Seq<Seq<char>>,
}

impl View for CleanProgress {
    type V = ProgressView;

    open spec fn view(&self) -> ProgressView {
        ProgressView {
            total: self.total as int,
            completed: self.completed as int,
            current: self.current@,
            status: self.status@,
            freed_bytes: self.freed_bytes,
            errors: text::views(self.errors@),
        }
    }
}

/// What cleaning came to.
#[derive(Debug)]
pub struct CleanSummary {
    pub requested_count: usize,
    pub cleaned_count: usize,
    pub skipped_count: usize,
    pub freed_bytes: u64,
    pub backup_created: Option<String>,
    pub errors: Vec<String>,
}

/// The contents of a [`CleanSummary`].
pub struct SummaryView {
    pub requested_count: int,
    pub cleaned_count: int,
    pub skipped_count: int,
    pub freed_bytes: u64,
    pub backup_created: Option<Seq<char>>,
    pub errors: Seq<Seq<char>>,
}

impl View for CleanSummary {
    type V = SummaryView;

    open spec fn view(&self) -> SummaryView {
        SummaryView {
            requested_count: self.requested_count as int,
            cleaned_count: self.cleaned_count as int,
            skipped_count: self.skipped_count as int,
            freed_bytes: self.freed_bytes,
            backup_created: item::opt_text(self.backup_created),
            errors: text::views(self.errors@),
        }
    }
}

/// The run through the selected items.
#[derive(Debug)]
pub struct CleanRun {
    items: Vec<ScannedItem>,
    decisions: Vec<Decision>,
    backup: Option<String>,
    index: usize,
    cleaned: usize,
    skipped: usize,
    freed_bytes: u64,
    errors: Vec<String>,
}

/// The contents of a [`CleanRun`].
pub struct CleanView {
    pub items: Seq<ScannedView>,
    pub decisions: Seq<DecisionView>,
    pub backup: Option<Seq<char>>,
    pub index: int,
    pub cleaned: int,
    pub skipped: int,
    pub freed_bytes: u64,
    pub errors: Seq<Seq<char>>,
}

impl View for CleanRun {
    type V = CleanView;

    closed spec fn view(&self) -> CleanView {
        CleanView {
            items: text::views(self.items@),
            decisions: text::views(self.decisions@),
            backup: item::opt_text(self.backup),
            index: self.index as int,
            cleaned: self.cleaned as int,
            skipped: self.skipped as int,
            freed_bytes: self.freed_bytes,
            errors: text::views(self.errors@),
        }
    }
}

/// The state at the beginning.
pub open spec fn clean_start(
    items: Seq<ScannedView>,
    decisions: Seq<DecisionView>,
    backup: Option<Seq<char>>,
) -> CleanView {
    CleanView {
        items,
        decisions,
        backup,
        index: 0,
        cleaned: 0,
        skipped: 0,
        freed_bytes: 0,
        errors: Seq::empty(),
    }
}

/// Whether it was decided to leave the item out.
pub open spec fn is_skipped(decisions: Seq<DecisionView>, d: ScannedView) -> bool {
    process::decision_of(decisions, d.public.id) == Some(ConflictDecision::Skip)
}

/// Whether the item at hand is left out.
pub open spec fn at_skipped(v: CleanView) -> bool {
    v.index < v.items.len() && is_skipped(v.decisions, v.items[v.index])
}

/// The state with all items passed over that are left out at this point.
pub open spec fn settled(v: CleanView) -> CleanView
    decreases v.items.len() - v.index,
{
    if at_skipped(v) {
        settled(CleanView { index: v.index + 1, skipped: v.skipped + 1, ..v })
    } else {
        v
    }
}

/// How an action ended.
pub type Ended = Result<ActionOutcome, String>;

/// The state after the item at hand was cleaned, or was not.
pub open spec fn after_item(v: CleanView, ended: Ended) -> CleanView {
    match ended {
        Ok(outcome) => CleanView {
            index: v.index + 1,
            cleaned: v.cleaned + 1,
            freed_bytes: disk::capped((v.freed_bytes + outcome.freed_bytes) as nat),
            errors: v.errors + text::views(outcome.errors@),
            ..v
        },
        Err(message) => CleanView {
            index: v.index + 1,
            errors: v.errors.push(v.items[v.index].public.name + ": "@ + message@),
            ..v
        },
    }
}

/// What the user sees before the item at hand is cleaned.
pub open spec fn running_progress(v: CleanView) -> ProgressView {
    ProgressView {
        total: v.items.len() as int,
        completed: v.index,
        current: v.items[v.index].public.name,
        status: "running"@,
        freed_bytes: v.freed_bytes,
        errors: v.errors,
    }
}

/// What the user sees at the end.
pub open spec fn final_progress(v: CleanView) -> ProgressView {
    ProgressView {
        total: v.items.len() as int,
        completed: v.items.len() as int,
        current: "完成"@,
        status: "done"@,
        freed_bytes: v.freed_bytes,
        errors: v.errors,
    }
}

/// The summary at the end.
pub open spec fn summary_of(v: CleanView) -> SummaryView {
    SummaryView {
        requested_count: v.items.len() as int,
        cleaned_count: v.cleaned,
        skipped_count: v.skipped,
        freed_bytes: v.freed_bytes,
        backup_created: v.backup,
        errors: v.errors,
    }
}

impl CleanRun {
    /// Every item is counted once at most, and there is a backup exactly where
    /// something is deleted from the registry.
    #[verifier::type_invariant]
    spec fn is_sound(self) -> bool {
        &&& self.cleaned + self.skipped <= self.index <= self.items@.len()
        &&& self.backup is Some <==> backup::keys_of(text::views(self.items@)).len() > 0
    }

    /// Begins to clean the items. A backup stands where something is deleted
    /// from the registry; where it failed, nothing is cleaned.
    pub fn new(
        items: Vec<ScannedItem>,
        decisions: Vec<Decision>,
        backup: Result<Option<String>, String>,
    ) -> (r: Result<CleanRun, String>)
        requires
            backup matches Ok(file) ==> (file is Some <==> backup::keys_of(
                text::views(items@),
            ).len() > 0),
        ensures
            match r {
                Ok(run) => backup matches Ok(file) && run@ == clean_start(
                    text::views(items@),
                    text::views(decisions@),
                    item::opt_text(file),
                ),
                Err(message) => backup matches Err(failure) && message@ == failure@,
            },
    {
        match backup {
            Err(failure) => Err(failure),
            Ok(file) => {
                let errors: Vec<String> = Vec::new();
                assert(text::views(errors@) =~= Seq::empty());
                Ok(
                    CleanRun {
                        items,
                        decisions,
                        backup: file,
                        index: 0,
                        cleaned: 0,
                        skipped: 0,
                        freed_bytes: 0,
                        errors,
                    },
                )
            },
        }
    }

    /// Moves on to the next item that is not left out, and gives the progress
    /// to show for it; none where no item is left.
    pub fn next_item(&mut self) -> (r: Option<CleanProgress>)
        ensures
            final(self)@ == settled(old(self)@),
            r is Some == (final(self)@.index < final(self)@.items.len()),
            r matches Some(p) ==> {
                &&& p@ == running_progress(final(self)@)
                &&& !is_skipped(
                    final(self)@.decisions,
                    final(self)@.items[final(self)@.index],
                )
            },
    {
        proof {
            use_type_invariant(&*self);
        }
        let mut index: usize = self.index;
        let mut skipped: usize = self.skipped;
        let n = self.items.len();
        let ghost v0 = self@;
        while index < n && self.skips(index)
            invariant
                n == self.items@.len(),
                index <= n,
                skipped + self.cleaned <= index,
                self@ == v0,
                settled(CleanView { index: index as int, skipped: skipped as int, ..v0 })
                    == settled(v0),
            decreases n - index,
        {
            index = index + 1;
            skipped = skipped + 1;
        }
        self.set_position(index, skipped);
        if index < n {
            Some(
                CleanProgress {
                    total: n,
                    completed: index,
                    current: self.items[index].public.name.clone(),
                    status: "running".to_owned(),
                    freed_bytes: self.freed_bytes,
                    errors: text::copy_strings(&self.errors),
                },
            )
        } else {
            None
        }
    }

    /// Whether it was decided to leave out the item at `i`.
    fn skips(&self, i: usize) -> (r: bool)
        requires
            i < self@.items.len(),
        ensures
            r == is_skipped(self@.decisions, self@.items[i as int]),
    {
        match process::find_decision(&self.decisions, self.items[i].public.id.as_str()) {
            Some(ConflictDecision::Skip) => true,
            _ => false,
        }
    }

    /// Moves to an item.
    fn set_position(&mut self, index: usize, skipped: usize)
        requires
            old(self)@.cleaned + skipped <= index <= old(self)@.items.len(),
        ensures
            final(self)@ == (CleanView {
                index: index as int,
                skipped: skipped as int,
                ..old(self)@
            }),
    {
        proof {
            use_type_invariant(&*self);
        }
        self.skipped = 0;
        self.index = index;
        self.skipped = skipped;
    }

    /// The action of the item at hand. Where it deletes from the registry,
    /// there is a backup, and the key is among those that were backed up.
    pub fn action(&self) -> (r: &CleanAction)
        requires
            self@.index < self@.items.len(),
        ensures
            r@ == self@.items[self@.index].action,
            r@ is RegistryDelete ==> self@.backup is Some && backup::keys_of(
                self@.items,
            ).contains(r@->RegistryDelete_key_path),
    {
        proof {
            use_type_invariant(self);
            if self@.items[self@.index].action is RegistryDelete {
                law_no_deletion_without_backup(self@.items, self@.backup, self@.index);
            }
        }
        &self.items[self.index].action
    }

    /// Takes note of how the action of the item at hand ended.
    pub fn record(&mut self, ended: Ended)
        requires
            old(self)@.index < old(self)@.items.len(),
        ensures
            final(self)@ == after_item(old(self)@, ended),
    {
        proof {
            use_type_invariant(&*self);
        }
        let n = self.items.len();
        assert(self.index < n);
        let mut errors = text::copy_strings(&self.errors);
        let ghost before = errors@;
        match ended {
            Ok(outcome) => {
                let mut more = outcome.errors;
                let ghost added = more@;
                errors.append(&mut more);
                proof {
                    assert(errors@ =~= before + added);
                    text::lemma_views_add(before, added);
                }
                self.freed_bytes = self.freed_bytes.saturating_add(outcome.freed_bytes);
                self.index = self.index + 1;
                self.cleaned = self.cleaned + 1;
            },
            Err(message) => {
                let line = text::concat3(
                    self.items[self.index].public.name.as_str(),
                    ": ",
                    message.as_str(),
                );
                errors.push(line);
                proof {
                    text::lemma_views_push(before, line);
                }
                self.index = self.index + 1;
            },
        }
        self.errors = errors;
    }

    /// The progress to show at the end.
    pub fn last_progress(&self) -> (r: CleanProgress)
        ensures
            r@ == final_progress(self@),
    {
        CleanProgress {
            total: self.items.len(),
            completed: self.items.len(),
            current: "完成".to_owned(),
            status: "done".to_owned(),
            freed_bytes: self.freed_bytes,
            errors: text::copy_strings(&self.errors),
        }
    }

    /// Sums up the run.
    pub fn summary(&self) -> (r: CleanSummary)
        ensures
            r@ == summary_of(self@),
    {
        CleanSummary {
            requested_count: self.items.len(),
            cleaned_count: self.cleaned,
            skipped_count: self.skipped,
            freed_bytes: self.freed_bytes,
            backup_created: item::copy_opt(&self.backup),
            errors: text::copy_strings(&self.errors),
        }
    }
}

// ---------------------------------------------------------------------------
// The run as a whole

/// How many of the items are left out.
pub open spec fn count_skipped(decisions: Seq<DecisionView>, items: Seq<ScannedView>) -> nat
    decreases items.len(),
{
    if items.len() == 0 {
        0
    } else {
        count_skipped(decisions, items.drop_last()) + if is_skipped(decisions, items.last()) {
            1nat
        } else {
            0
        }
    }
}

/// How many actions ended well.
pub open spec fn count_done(ends: Seq<Ended>) -> nat
    decreases ends.len(),
{
    if ends.len() == 0 {
        0
    } else {
        count_done(ends.drop_last()) + if ends.last() is Ok {
            1nat
        } else {
            0
        }
    }
}

/// How many actions failed.
pub open spec fn count_failed(ends: Seq<Ended>) -> nat
    decreases ends.len(),
{
    if ends.len() == 0 {
        0
    } else {
        count_failed(ends.drop_last()) + if ends.last() is Err {
            1nat
        } else {
            0
        }
    }
}

/// The bytes that all actions freed.
pub open spec fn total_freed(ends: Seq<Ended>) -> nat
    decreases ends.len(),
{
    if ends.len() == 0 {
        0
    } else {
        total_freed(ends.drop_last()) + match ends.last() {
            Ok(outcome) => outcome.freed_bytes as nat,
            Err(_) => 0,
        }
    }
}

/// The items that are not left out, in order.
pub open spec fn to_clean(decisions: Seq<DecisionView>, items: Seq<ScannedView>) -> Seq<
    ScannedView,
> {
    items.filter(|d: ScannedView| !is_skipped(decisions, d))
}

/// What the action of an item adds to the errors: its own errors, or the
/// failure after the item's name.
pub open spec fn item_errors(d: ScannedView, ended: Ended) -> Seq<Seq<char>> {
    match ended {
        Ok(outcome) => text::views(outcome.errors@),
        Err(message) => seq![d.public.name + ": "@ + message@],
    }
}

/// The errors of the actions of the items, item after item.
pub open spec fn run_errors(items: Seq<ScannedView>, ends: Seq<Ended>) -> Seq<Seq<char>>
    decreases ends.len(),
{
    if ends.len() == 0 {
        Seq::empty()
    } else {
        run_errors(items.drop_last(), ends.drop_last()) + item_errors(items.last(), ends.last())
    }
}

/// The state after actions that ended as given, with the items passed over that
/// are left out.
pub open spec fn after_all(v: CleanView, ends: Seq<Ended>) -> CleanView
    decreases ends.len(),
{
    if ends.len() == 0 {
        settled(v)
    } else {
        settled(after_item(after_all(v, ends.drop_last()), ends.last()))
    }
}

/// Whether the items that are left out have been counted up to here.
spec fn counts_skipped(v: CleanView) -> bool {
    &&& 0 <= v.index <= v.items.len()
    &&& v.skipped == count_skipped(v.decisions, v.items.take(v.index))
}

/// Passing over items counts them and changes nothing else.
proof fn lemma_settled(v: CleanView)
    requires
        counts_skipped(v),
    ensures
        counts_skipped(settled(v)),
        !at_skipped(settled(v)),
        settled(v) == (CleanView {
            index: settled(v).index,
            skipped: settled(v).skipped,
            ..v
        }),
        settled(v).index - settled(v).skipped == v.index - v.skipped,
    decreases v.items.len() - v.index,
{
    if at_skipped(v) {
        assert(v.items.take(v.index + 1).drop_last() =~= v.items.take(v.index));
        lemma_settled(CleanView { index: v.index + 1, skipped: v.skipped + 1, ..v });
    }
}

/// The first items have no more left out, nor more to clean, than all.
proof fn lemma_count_skipped_part(decisions: Seq<DecisionView>, items: Seq<ScannedView>, i: int)
    requires
        0 <= i <= items.len(),
    ensures
        count_skipped(decisions, items.take(i)) <= count_skipped(decisions, items),
        i - count_skipped(decisions, items.take(i)) <= items.len() - count_skipped(
            decisions,
            items,
        ),
    decreases items.len(),
{
    if i == items.len() {
        assert(items.take(i) =~= items);
    } else {
        lemma_count_skipped_part(decisions, items.drop_last(), i);
        assert(items.drop_last().take(i) =~= items.take(i));
    }
}

/// What is to clean of the first items comes first in what is to clean of all.
proof fn lemma_to_clean_part(decisions: Seq<DecisionView>, items: Seq<ScannedView>, i: int)
    requires
        0 <= i <= items.len(),
    ensures
        to_clean(decisions, items).len() == items.len() - count_skipped(decisions, items),
        to_clean(decisions, items.take(i)).len() == i - count_skipped(decisions, items.take(i)),
        to_clean(decisions, items.take(i)).len() <= to_clean(decisions, items).len(),
        to_clean(decisions, items.take(i)) == to_clean(decisions, items).take(
            to_clean(decisions, items.take(i)).len() as int,
        ),
    decreases items.len(),
{
    reveal(Seq::filter);
    let all = to_clean(decisions, items);
    if items.len() == 0 {
        assert(items.take(i) =~= items);
        assert(all.take(0) =~= all);
    } else {
        let shorter = items.drop_last();
        let before = to_clean(decisions, shorter);
        lemma_to_clean_part(
            decisions,
            shorter,
            if i < items.len() {
                i
            } else {
                shorter.len() as int
            },
        );
        if i < items.len() {
            assert(shorter.take(i) =~= items.take(i));
            let n = to_clean(decisions, items.take(i)).len() as int;
            assert(all.take(n) =~= before.take(n));
        } else {
            assert(items.take(i) =~= items);
            assert(all.take(all.len() as int) =~= all);
        }
    }
}

/// An item that is not left out stands in what is to clean after those before
/// it.
proof fn lemma_to_clean_at(decisions: Seq<DecisionView>, items: Seq<ScannedView>, i: int)
    requires
        0 <= i < items.len(),
        !is_skipped(decisions, items[i]),
    ensures
        0 <= i - count_skipped(decisions, items.take(i)) < to_clean(decisions, items).len(),
        to_clean(decisions, items)[i - count_skipped(decisions, items.take(i))] == items[i],
{
    reveal(Seq::filter);
    let all = to_clean(decisions, items);
    let first = items.take(i + 1);
    lemma_to_clean_part(decisions, items, i);
    lemma_to_clean_part(decisions, items, i + 1);
    assert(first.drop_last() =~= items.take(i));
    assert(first.last() == items[i]);
    let upto = to_clean(decisions, first);
    assert(upto =~= to_clean(decisions, items.take(i)).push(items[i]));
    assert(all.take(upto.len() as int)[upto.len() - 1] == items[i]);
}

/// What holds at every point of a run.
proof fn lemma_after_all(
    items: Seq<ScannedView>,
    decisions: Seq<DecisionView>,
    backup: Option<Seq<char>>,
    ends: Seq<Ended>,
)
    requires
        ends.len() + count_skipped(decisions, items) <= items.len(),
    ensures
        ({
            let v = after_all(clean_start(items, decisions, backup), ends);
            &&& counts_skipped(v)
            &&& !at_skipped(v)
            &&& v.items == items && v.decisions == decisions && v.backup == backup
            &&& v.index - v.skipped == ends.len()
            &&& v.cleaned == count_done(ends)
            &&& v.freed_bytes == disk::capped(total_freed(ends))
            &&& v.errors == run_errors(
                to_clean(decisions, items).take(ends.len() as int),
                ends,
            )
            &&& count_done(ends) + count_failed(ends) == ends.len()
        }),
    decreases ends.len(),
{
    let start = clean_start(items, decisions, backup);
    if ends.len() == 0 {
        assert(items.take(0) =~= Seq::empty());
        lemma_settled(start);
    } else {
        let shorter = ends.drop_last();
        lemma_after_all(items, decisions, backup, shorter);
        let v = after_all(start, shorter);
        lemma_count_skipped_part(decisions, items, v.index);
        if v.index == items.len() {
            assert(items.take(v.index) =~= items);
        }
        let next = after_item(v, ends.last());
        assert(items.take(v.index + 1).drop_last() =~= items.take(v.index));
        lemma_settled(next);
        lemma_to_clean_at(decisions, items, v.index);
        let all = to_clean(decisions, items);
        let n = ends.len() as int;
        assert(all.take(n).drop_last() =~= all.take(n - 1));
        assert(all.take(n).last() == items[v.index]);
        assert(next.errors =~= v.errors + item_errors(items[v.index], ends.last()));
    }
}

/// At no point of a run is an item at hand that is left out.
pub proof fn law_skipped_items_are_not_cleaned(
    items: Seq<ScannedView>,
    decisions: Seq<DecisionView>,
    backup: Option<Seq<char>>,
    ends: Seq<Ended>,
)
    requires
        ends.len() + count_skipped(decisions, items) <= items.len(),
    ensures
        !at_skipped(after_all(clean_start(items, decisions, backup), ends)),
{
    lemma_after_all(items, decisions, backup, ends);
}

/// The actions of a run are those of the items that are not left out, one
/// after the other. At the end every requested item is accounted for once: it
/// was cleaned, it was left out, or its action failed. The bytes freed are
/// those of all actions, up to the largest number that fits, and the errors
/// are those of all actions, in the order of the items.
pub proof fn law_run_accounts_for_every_item(
    items: Seq<ScannedView>,
    decisions: Seq<DecisionView>,
    backup: Option<Seq<char>>,
    ends: Seq<Ended>,
)
    requires
        ends.len() + count_skipped(decisions, items) == items.len(),
    ensures
        ({
            let v = after_all(clean_start(items, decisions, backup), ends);
            let s = summary_of(v);
            &&& v.index == items.len()
            &&& s.requested_count == items.len()
            &&& s.cleaned_count == count_done(ends)
            &&& s.skipped_count == count_skipped(decisions, items)
            &&& s.cleaned_count + s.skipped_count + count_failed(ends) == s.requested_count
            &&& s.freed_bytes == disk::capped(total_freed(ends))
            &&& s.errors == run_errors(to_clean(decisions, items), ends)
            &&& s.backup_created == backup
        }),
        to_clean(decisions, items).len() == ends.len(),
        forall|n: int|
            0 <= n < ends.len() ==> {
                let v = #[trigger] after_all(
                    clean_start(items, decisions, backup),
                    ends.take(n),
                );
                &&& v.index < items.len()
                &&& items[v.index] == to_clean(decisions, items)[n]
            },
{
    lemma_after_all(items, decisions, backup, ends);
    lemma_to_clean_part(decisions, items, items.len() as int);
    let all = to_clean(decisions, items);
    assert(all.take(ends.len() as int) =~= all);
    assert forall|n: int| 0 <= n < ends.len() implies {
        let v = #[trigger] after_all(clean_start(items, decisions, backup), ends.take(n));
        &&& v.index < items.len()
        &&& items[v.index] == to_clean(decisions, items)[n]
    } by {
        lemma_after_all(items, decisions, backup, ends.take(n));
        let v = after_all(clean_start(items, decisions, backup), ends.take(n));
        if v.index == items.len() {
            assert(items.take(v.index) =~= items);
        }
        lemma_to_clean_at(decisions, items, v.index);
    }
    let v = after_all(clean_start(items, decisions, backup), ends);
    if v.index < items.len() {
        lemma_count_skipped_part(decisions, items, v.index + 1);
        assert(items.take(v.index + 1).drop_last() =~= items.take(v.index));
    }
    assert(items.take(items.len() as int) =~= items);
}

/// No run deletes from the registry without a backup: where an item does, the
/// run was begun with one.
pub proof fn law_no_deletion_without_backup(
    items: Seq<ScannedView>,
    backup: Option<Seq<char>>,
    i: int,
)
    requires
        backup is Some <==> backup::keys_of(items).len() > 0,
        0 <= i < items.len(),
        items[i].action is RegistryDelete,
    ensures
        backup is Some,
        backup::keys_of(items).contains(items[i].action->RegistryDelete_key_path),
{
    backup::law_backup_covers_deletions(items);
    let key = items[i].action->RegistryDelete_key_path;
    assert(backup::key_of(items[i].action) == Some(key));
    assert(backup::keys_of(items).contains(key));
}

// ---------------------------------------------------------------------------
// Outcomes of several attempts

/// Two sums that are capped add up to the capped sum.
proof fn lemma_capped_sum(a: nat, b: nat)
    ensures
        disk::capped(a + b) == disk::capped((disk::capped(a) + disk::capped(b)) as nat),
{
}

/// The bytes and the errors of two lists of attempts follow each other.
proof fn lemma_outcome_add(a: Seq<TryView>, b: Seq<TryView>)
    ensures
        bytes_freed(a + b) == bytes_freed(a) + bytes_freed(b),
        errors_of(a + b) == errors_of(a) + errors_of(b),
    decreases b.len(),
{
    if b.len() == 0 {
        assert(a + b =~= a);
        assert(errors_of(a) + errors_of(b) =~= errors_of(a));
    } else {
        assert((a + b).drop_last() =~= a + b.drop_last());
        lemma_outcome_add(a, b.drop_last());
        assert(errors_of(a + b) =~= errors_of(a) + errors_of(b));
    }
}

/// The attempts on two lists of directories follow each other.
proof fn lemma_all_tries_add(
    dirs: Seq<Seq<char>>,
    listings: Seq<ListingView>,
    more: Seq<Seq<char>>,
    others: Seq<ListingView>,
)
    requires
        dirs.len() == listings.len(),
        more.len() == others.len(),
    ensures
        all_tries(dirs + more, listings + others) == all_tries(dirs, listings) + all_tries(
            more,
            others,
        ),
    decreases more.len(),
{
    if more.len() == 0 {
        assert(dirs + more =~= dirs);
        assert(listings + others =~= listings);
        assert(all_tries(dirs, listings) + all_tries(more, others) =~= all_tries(dirs, listings));
    } else {
        assert((dirs + more).drop_last() =~= dirs + more.drop_last());
        assert((listings + others).drop_last() =~= listings + others.drop_last());
        lemma_all_tries_add(dirs, listings, more.drop_last(), others.drop_last());
        assert(all_tries(dirs + more, listings + others) =~= all_tries(dirs, listings) + all_tries(
            more,
            others,
        ));
    }
}

/// Emptying two lists of directories frees what emptying each frees, up to the
/// largest number that fits, and brings the errors of the first and then those
/// of the second.
pub proof fn law_directories_add_up(
    dirs: Seq<Seq<char>>,
    listings: Seq<ListingView>,
    more: Seq<Seq<char>>,
    others: Seq<ListingView>,
)
    requires
        dirs.len() == listings.len(),
        more.len() == others.len(),
    ensures
        ({
            let first = outcome_of(all_tries(dirs, listings));
            let second = outcome_of(all_tries(more, others));
            let both = outcome_of(all_tries(dirs + more, listings + others));
            &&& both.errors == first.errors + second.errors
            &&& both.freed_bytes == if first.freed_bytes + second.freed_bytes <= u64::MAX {
                (first.freed_bytes + second.freed_bytes) as u64
            } else {
                u64::MAX
            }
        }),
{
    lemma_all_tries_add(dirs, listings, more, others);
    lemma_outcome_add(all_tries(dirs, listings), all_tries(more, others));
    lemma_capped_sum(
        bytes_freed(all_tries(dirs, listings)),
        bytes_freed(all_tries(more, others)),
    );
}

/// Removing two lists of paths frees what removing each frees, up to the
/// largest number that fits, and brings the errors of the first and then those
/// of the second.
pub proof fn law_paths_add_up(
    paths: Seq<Seq<char>>,
    attempts: Seq<AttemptView>,
    more: Seq<Seq<char>>,
    others: Seq<AttemptView>,
)
    requires
        paths.len() == attempts.len(),
        more.len() == others.len(),
    ensures
        ({
            let first = outcome_of(tries_on(paths, attempts));
            let second = outcome_of(tries_on(more, others));
            let both = outcome_of(tries_on(paths + more, attempts + others));
            &&& both.errors == first.errors + second.errors
            &&& both.freed_bytes == if first.freed_bytes + second.freed_bytes <= u64::MAX {
                (first.freed_bytes + second.freed_bytes) as u64
            } else {
                u64::MAX
            }
        }),
{
    assert(tries_on(paths + more, attempts + others) =~= tries_on(paths, attempts) + tries_on(
        more,
        others,
    ));
    lemma_outcome_add(tries_on(paths, attempts), tries_on(more, others));
    lemma_capped_sum(bytes_freed(tries_on(paths, attempts)), bytes_freed(tries_on(more, others)));
}

/// One path: what was removed counts with its size, what failed is an error
/// that begins with the path, and what was not there counts for nothing.
pub proof fn law_one_path_counts_for_itself(path: Seq<char>, size: u64, error: Seq<char>)
    ensures
        outcome_of(tries_on(seq![path], seq![AttemptView::Removed(size)])).freed_bytes == size,
        outcome_of(tries_on(seq![path], seq![AttemptView::Removed(size)])).errors.len() == 0,
        outcome_of(tries_on(seq![path], seq![AttemptView::Failed(error)])).freed_bytes == 0,
        outcome_of(tries_on(seq![path], seq![AttemptView::Failed(error)])).errors == seq![
            path + ": "@ + error,
        ],
        outcome_of(tries_on(seq![path], seq![AttemptView::Missing])).freed_bytes == 0,
        outcome_of(tries_on(seq![path], seq![AttemptView::Missing])).errors.len() == 0,
        outcome_of(tries_on(Seq::empty(), Seq::empty())).freed_bytes == 0,
        outcome_of(tries_on(Seq::empty(), Seq::empty())).errors.len() == 0,
{
    reveal_with_fuel(bytes_freed, 3);
    reveal_with_fuel(errors_of, 3);
    assert(outcome_of(tries_on(seq![path], seq![AttemptView::Failed(error)])).errors =~= seq![
        path + ": "@ + error,
    ]);
}

/// One directory: its entries count as paths of their own. One that cannot be
/// listed is an error that begins with its path where it is there, and counts
/// for nothing where it is not.
pub proof fn law_one_directory_counts_for_its_entries(
    dir: Seq<char>,
    paths: Seq<Seq<char>>,
    attempts: Seq<AttemptView>,
    error: Seq<char>,
)
    requires
        paths.len() == attempts.len(),
    ensures
        ({
            let entries = Seq::new(
                paths.len(),
                |i: int| TryView { path: paths[i], attempt: attempts[i] },
            );
            outcome_of(all_tries(seq![dir], seq![ListingView::Entries(entries)])) == outcome_of(
                tries_on(paths, attempts),
            )
        }),
        outcome_of(
            all_tries(seq![dir], seq![ListingView::Unreadable { error, present: true }]),
        ).errors == seq![dir + ": "@ + error],
        outcome_of(
            all_tries(seq![dir], seq![ListingView::Unreadable { error, present: true }]),
        ).freed_bytes == 0,
        outcome_of(
            all_tries(seq![dir], seq![ListingView::Unreadable { error, present: false }]),
        ).errors.len() == 0,
        outcome_of(
            all_tries(seq![dir], seq![ListingView::Unreadable { error, present: false }]),
        ).freed_bytes == 0,
        outcome_of(all_tries(Seq::empty(), Seq::empty())).errors.len() == 0,
        outcome_of(all_tries(Seq::empty(), Seq::empty())).freed_bytes == 0,
{
    reveal_with_fuel(all_tries, 3);
    reveal_with_fuel(bytes_freed, 3);
    reveal_with_fuel(errors_of, 3);
    let entries = tries_on(paths, attempts);
    assert(all_tries(seq![dir], seq![ListingView::Entries(entries)]) =~= entries);
    let failed = seq![TryView { path: dir, attempt: AttemptView::Failed(error) }];
    assert(all_tries(seq![dir], seq![ListingView::Unreadable { error, present: true }])
        =~= failed);
    assert(errors_of(failed) =~= seq![dir + ": "@ + error]);
    assert(all_tries(seq![dir], seq![ListingView::Unreadable { error, present: false }])
        =~= Seq::empty());
}

/// The sizes of two lists of paths add up, and one path counts with its size.
pub proof fn law_sizes_of_paths_add_up(
    paths: Seq<SurveyView>,
    more: Seq<SurveyView>,
    one: SurveyView,
)
    ensures
        sizes_at(paths + more) == sizes_at(paths) + sizes_at(more),
        sizes_at(seq![one]) == disk::size_at(one),
        sizes_at(Seq::empty()) == 0,
    decreases more.len(),
{
    reveal_with_fuel(sizes_at, 3);
    if more.len() == 0 {
        assert(paths + more =~= paths);
    } else {
        assert((paths + more).drop_last() =~= paths + more.drop_last());
        law_sizes_of_paths_add_up(paths, more.drop_last(), one);
    }
}

/// Each action is done on what it names: on no other directory, path, database
/// or key, and deleting goes to the disk only where the action is about paths.
pub proof fn law_actions_act_on_what_they_name(action: ActionView, whitelist: Seq<Seq<char>>)
    ensures
        action matches ActionView::DeleteDirectoryContents(dirs) ==> work_of(action, whitelist)
            == WorkView::EmptyDirectories(dirs),
        action matches ActionView::DeletePaths(paths) ==> work_of(action, whitelist)
            == WorkView::RemovePaths(paths),
        action matches ActionView::ClearRecycleBin(bins) ==> (work_of(
            action,
            whitelist,
        ) matches WorkView::EmptyRecycleBin { command, roots } && roots == bins && command.program
            == "powershell"@),
        action matches ActionView::BrowserSql { db_path, kind } ==> (work_of(
            action,
            whitelist,
        ) matches WorkView::ClearDatabase { db_path: at, run } && at == db_path && run
            == database::run_start(kind, whitelist)),
        action is FlushDns ==> (work_of(action, whitelist) matches WorkView::RunCommand {
            command,
            label,
        } && command.program == "ipconfig"@ && command.args == seq!["/flushdns"@] && label
            == "ipconfig"@),
        action is ClearClipboard ==> (work_of(action, whitelist) matches WorkView::RunCommand {
            command,
            label,
        } && command.program == "cmd"@ && label == "cmd"@),
        action matches ActionView::RegistryDelete { key_path, value_name, delete_key } ==> (work_of(
            action,
            whitelist,
        ) matches WorkView::RunCommand { command, label } && command.program == "reg"@
            && command.args[0] == "delete"@ && command.args[1] == key_path && label
            == "reg delete"@),
{
    if let ActionView::RegistryDelete { key_path, value_name, delete_key } = action {
        command::law_registry_deletions_name_their_target(key_path, value_name, delete_key);
    }
}

/// An item that ends well is counted and adds what it freed and its errors; one
/// that fails is not counted and adds one error after its name. Either way the
/// run goes on with the next item.
pub proof fn law_every_end_is_recorded(v: CleanView, ended: Ended)
    requires
        0 <= v.index < v.items.len(),
    ensures
        after_item(v, ended).index == v.index + 1,
        after_item(v, ended).skipped == v.skipped,
        ended matches Ok(outcome) ==> {
            &&& after_item(v, ended).cleaned == v.cleaned + 1
            &&& v.freed_bytes + outcome.freed_bytes <= u64::MAX ==> after_item(v, ended).freed_bytes
                == v.freed_bytes + outcome.freed_bytes
            &&& after_item(v, ended).errors == v.errors + text::views(outcome.errors@)
        },
        ended matches Err(message) ==> {
            &&& after_item(v, ended).cleaned == v.cleaned
            &&& after_item(v, ended).freed_bytes == v.freed_bytes
            &&& after_item(v, ended).errors == v.errors.push(
                v.items[v.index].public.name + ": "@ + message@,
            )
        },
        running_progress(v).completed == v.index && running_progress(v).total == v.items.len()
            && running_progress(v).current == v.items[v.index].public.name,
{
}

} // verus!
