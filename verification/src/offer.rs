//! The shapes of offer that the scans have in common: directories to empty,
//! files to delete, a database to clear, a command to run.
use crate::disk;
use crate::disk::{FileCollection, FileView, PathSurvey, SurveyView};
use crate::item;
use crate::item::{
    ActionView, BrowserDbKind, CleanAction, ModuleKind, RiskLevel, ScannedItem, ScannedView,
};
use crate::text;
use vstd::prelude::*;

verus! {

/// How an offer is presented.
pub struct Label<'a> {
    pub module: ModuleKind,
    pub category: &'a str,
    pub name: &'a str,
    pub detail: &'a str,
    pub risk: RiskLevel,
    pub selected: bool,
}

/// The contents of a [`Label`].
pub struct LabelView {
    pub module: ModuleKind,
    pub category: Seq<char>,
    pub name: Seq<char>,
    pub detail: Seq<char>,
    pub risk: RiskLevel,
    pub selected: bool,
}

impl<'a> View for Label<'a> {
    type V = LabelView;

    open spec fn view(&self) -> LabelView {
        LabelView {
            module: self.module,
            category: self.category@,
            name: self.name@,
            detail: self.detail@,
            risk: self.risk,
            selected: self.selected,
        }
    }
}

/// A label as a spec value.
pub open spec fn label(
    module: ModuleKind,
    category: Seq<char>,
    name: Seq<char>,
    detail: Seq<char>,
    risk: RiskLevel,
    selected: bool,
) -> LabelView {
    LabelView { module, category, name, detail, risk, selected }
}

/// An offer with the given label.
pub open spec fn draft(
    l: LabelView,
    path: Seq<char>,
    size_bytes: u64,
    process_names: Seq<Seq<char>>,
    children: Seq<item::PreviewView>,
    action: ActionView,
) -> ScannedView {
    ScannedView {
        public: item::item_of(
            l.module,
            l.category,
            l.name,
            path,
            l.detail,
            size_bytes,
            l.risk,
            l.selected,
            process_names,
            children,
        ),
        action,
    }
}

/// Whether the risk of an offer decides if it is selected from the start: not
/// at high risk, and always where it is safe. What the user has on the
/// clipboard is left for the user to select.
pub open spec fn default_follows_risk(d: ScannedView) -> bool {
    &&& d.public.risk == RiskLevel::High ==> !d.public.selected_by_default
    &&& d.public.risk == RiskLevel::Safe ==> d.public.selected_by_default || d.action
        == ActionView::ClearClipboard
}

/// Every offer is selected from the start as its risk decides.
pub open spec fn defaults_follow_risk(drafts: Seq<ScannedView>) -> bool {
    forall|i: int| 0 <= i < drafts.len() ==> default_follows_risk(#[trigger] drafts[i])
}

/// What holds of the defaults of two lists holds of them together.
pub proof fn lemma_defaults_add(a: Seq<ScannedView>, b: Seq<ScannedView>)
    requires
        defaults_follow_risk(a),
        defaults_follow_risk(b),
    ensures
        defaults_follow_risk(a + b),
{
    assert forall|i: int| 0 <= i < (a + b).len() implies default_follows_risk(
        #[trigger] (a + b)[i],
    ) by {
        if i < a.len() {
            assert((a + b)[i] == a[i]);
        } else {
            assert((a + b)[i] == b[i - a.len()]);
        }
    }
}

/// Numbering keeps risk and selection as they are.
pub proof fn lemma_defaults_numbered(drafts: Seq<ScannedView>, count: int)
    requires
        defaults_follow_risk(drafts),
    ensures
        defaults_follow_risk(item::numbered(drafts, count)),
{
    assert forall|i: int| 0 <= i < drafts.len() implies default_follows_risk(
        #[trigger] item::numbered(drafts, count)[i],
    ) by {
        assert(default_follows_risk(drafts[i]));
    }
}

/// Lists of offers one after the other.
pub open spec fn chain(parts: Seq<Seq<ScannedView>>) -> Seq<ScannedView>
    decreases parts.len(),
{
    if parts.len() == 0 {
        Seq::empty()
    } else {
        chain(parts.drop_last()) + parts.last()
    }
}

/// One list more.
pub proof fn lemma_chain_step(parts: Seq<Seq<ScannedView>>, i: int)
    requires
        0 <= i < parts.len(),
    ensures
        chain(parts.take(i + 1)) == chain(parts.take(i)) + parts[i],
        chain(parts.take(i)).len() + parts[i].len() <= chain(parts).len(),
    decreases parts.len(),
{
    assert(parts.take(i + 1).drop_last() =~= parts.take(i));
    if i + 1 == parts.len() {
        assert(parts.take(i + 1) =~= parts);
    } else {
        lemma_chain_step(parts.drop_last(), i);
        assert(parts.drop_last().take(i) =~= parts.take(i));
    }
}

/// What holds of the defaults of some lists holds of them together.
pub proof fn lemma_defaults_chain(parts: Seq<Seq<ScannedView>>)
    requires
        forall|i: int| 0 <= i < parts.len() ==> defaults_follow_risk(#[trigger] parts[i]),
    ensures
        defaults_follow_risk(chain(parts)),
    decreases parts.len(),
{
    if parts.len() > 0 {
        assert forall|i: int| 0 <= i < parts.len() - 1 implies defaults_follow_risk(
            #[trigger] parts.drop_last()[i],
        ) by {
            assert(defaults_follow_risk(parts[i]));
        }
        lemma_defaults_chain(parts.drop_last());
        assert(defaults_follow_risk(parts[parts.len() - 1]));
        lemma_defaults_add(chain(parts.drop_last()), parts.last());
    }
}

/// Every offer names programs that hold its files.
pub open spec fn names_programs(drafts: Seq<ScannedView>) -> bool {
    forall|i: int|
        0 <= i < drafts.len() ==> (#[trigger] drafts[i]).public.process_names.len() > 0
}

/// Lists in which every offer names programs are such a list together.
pub proof fn lemma_names_programs_chain(parts: Seq<Seq<ScannedView>>)
    requires
        forall|i: int| 0 <= i < parts.len() ==> names_programs(#[trigger] parts[i]),
    ensures
        names_programs(chain(parts)),
    decreases parts.len(),
{
    if parts.len() > 0 {
        let shorter = parts.drop_last();
        assert forall|i: int| 0 <= i < shorter.len() implies names_programs(
            #[trigger] shorter[i],
        ) by {
            assert(names_programs(parts[i]));
        }
        lemma_names_programs_chain(shorter);
        assert(names_programs(parts[parts.len() - 1]));
    }
}

/// What is done with directories: the recycle bin is emptied as a whole, other
/// directories entry by entry.
pub open spec fn directory_action(dirs: Seq<SurveyView>, recycle_bin: bool) -> ActionView {
    if recycle_bin {
        ActionView::ClearRecycleBin(disk::paths_of(dirs))
    } else {
        ActionView::DeleteDirectoryContents(disk::paths_of(dirs))
    }
}

/// The offer to empty directories; none where there are no directories.
pub open spec fn directory_drafts(
    l: LabelView,
    process_names: Seq<Seq<char>>,
    dirs: Seq<SurveyView>,
    limit: int,
    recycle_bin: bool,
) -> Seq<ScannedView> {
    if dirs.len() == 0 {
        Seq::empty()
    } else {
        seq![
            draft(
                l,
                disk::path_list(disk::paths_of(dirs)),
                disk::capped(disk::total_size(disk::files_below(dirs))),
                process_names,
                disk::previews(disk::files_below(dirs), limit),
                directory_action(dirs, recycle_bin),
            ),
        ]
    }
}

/// Offers to empty the directories, if there are any.
pub fn offer_directories(
    items: &mut Vec<ScannedItem>,
    counter: &mut usize,
    l: &Label,
    process_names: Vec<String>,
    dirs: &Vec<PathSurvey>,
    limit: usize,
    recycle_bin: bool,
)
    requires
        item::has_room(
            *old(counter),
            old(items)@.len(),
            directory_drafts(
                l@,
                text::views(process_names@),
                text::views(dirs@),
                limit as int,
                recycle_bin,
            ).len(),
        ),
    ensures
        item::extends(
            text::views(old(items)@),
            *old(counter) as int,
            text::views(final(items)@),
            *final(counter) as int,
            directory_drafts(
                l@,
                text::views(process_names@),
                text::views(dirs@),
                limit as int,
                recycle_bin,
            ),
        ),
        final(items)@.len() - old(items)@.len() == *final(counter) - *old(counter),
{
    if dirs.len() == 0 {
        proof {
            item::lemma_extends_nothing(text::views(items@), *counter as int);
        }
        return;
    }
    let (size, children) = disk::dirs_size_preview(dirs, limit);
    let paths = disk::survey_paths(dirs);
    let shown = disk::join_paths(&paths);
    let public = item::make_item(
        l.module,
        l.category,
        l.name,
        shown,
        l.detail,
        size,
        l.risk,
        l.selected,
        process_names,
        children,
    );
    let action = if recycle_bin {
        CleanAction::ClearRecycleBin(paths)
    } else {
        CleanAction::DeleteDirectoryContents(paths)
    };
    item::push_item(items, counter, public, action);
}

/// The paths of the files.
pub open spec fn file_paths(files: Seq<FileView>) -> Seq<Seq<char>> {
    files.map_values(|f: FileView| f.path)
}

/// The offer to delete files; none where there are no files.
pub open spec fn file_drafts(l: LabelView, path: Seq<char>, files: Seq<FileView>) -> Seq<
    ScannedView,
> {
    if files.len() == 0 {
        Seq::empty()
    } else {
        seq![
            draft(
                l,
                path,
                disk::capped(disk::total_size(files)),
                Seq::empty(),
                disk::previews(files, disk::COLLECTION_PREVIEW as int),
                ActionView::DeletePaths(file_paths(files)),
            ),
        ]
    }
}

/// Offers to delete the collected files, if there are any.
pub(crate) fn offer_files(
    items: &mut Vec<ScannedItem>,
    counter: &mut usize,
    l: &Label,
    path: String,
    found: FileCollection,
    Ghost(files): Ghost<Seq<FileView>>,
)
    requires
        item::has_room(*old(counter), old(items)@.len(), file_drafts(l@, path@, files).len()),
        found.collects(files),
    ensures
        item::extends(
            text::views(old(items)@),
            *old(counter) as int,
            text::views(final(items)@),
            *final(counter) as int,
            file_drafts(l@, path@, files),
        ),
        final(items)@.len() - old(items)@.len() == *final(counter) - *old(counter),
{
    assert(text::views(found.files@).len() == files.len());
    if found.files.len() == 0 {
        proof {
            item::lemma_extends_nothing(text::views(items@), *counter as int);
        }
        return;
    }
    let none: Vec<String> = Vec::new();
    assert(text::views(none@) =~= Seq::empty());
    let public = item::make_item(
        l.module,
        l.category,
        l.name,
        path,
        l.detail,
        found.size,
        l.risk,
        l.selected,
        none,
        found.preview,
    );
    item::push_item(items, counter, public, CleanAction::DeletePaths(found.files));
}

/// The offer to clear records of a browser database.
pub open spec fn database_draft(
    l: LabelView,
    process_names: Seq<Seq<char>>,
    db_path: Seq<char>,
    size_bytes: u64,
    kind: BrowserDbKind,
) -> ScannedView {
    draft(
        l,
        db_path,
        size_bytes,
        process_names,
        Seq::empty(),
        ActionView::BrowserSql { db_path, kind },
    )
}

/// Offers to clear records of the browser database at the surveyed path.
pub fn offer_database(
    items: &mut Vec<ScannedItem>,
    counter: &mut usize,
    l: &Label,
    process_names: Vec<String>,
    database: &PathSurvey,
    kind: BrowserDbKind,
)
    requires
        item::has_room(*old(counter), old(items)@.len(), 1),
    ensures
        item::extends(
            text::views(old(items)@),
            *old(counter) as int,
            text::views(final(items)@),
            *final(counter) as int,
            seq![
                database_draft(
                    l@,
                    text::views(process_names@),
                    database@.path,
                    database@.size_bytes,
                    kind,
                ),
            ],
        ),
        final(items)@.len() == old(items)@.len() + 1,
{
    let none: Vec<item::FilePreview> = Vec::new();
    assert(text::views(none@) =~= Seq::empty());
    let public = item::make_item(
        l.module,
        l.category,
        l.name,
        database.path.clone(),
        l.detail,
        database.size_bytes,
        l.risk,
        l.selected,
        process_names,
        none,
    );
    item::push_item(
        items,
        counter,
        public,
        CleanAction::BrowserSql { db_path: database.path.clone(), kind },
    );
}

/// An offer without a size and without a preview.
pub open spec fn plain_draft(l: LabelView, path: Seq<char>, action: ActionView) -> ScannedView {
    draft(l, path, 0, Seq::empty(), Seq::empty(), action)
}

/// Makes an offer without a size and without a preview.
pub fn offer_plain(
    items: &mut Vec<ScannedItem>,
    counter: &mut usize,
    l: &Label,
    path: String,
    action: CleanAction,
)
    requires
        item::has_room(*old(counter), old(items)@.len(), 1),
    ensures
        item::extends(
            text::views(old(items)@),
            *old(counter) as int,
            text::views(final(items)@),
            *final(counter) as int,
            seq![plain_draft(l@, path@, action@)],
        ),
        final(items)@.len() == old(items)@.len() + 1,
{
    let no_names: Vec<String> = Vec::new();
    let no_files: Vec<item::FilePreview> = Vec::new();
    assert(text::views(no_names@) =~= Seq::empty());
    assert(text::views(no_files@) =~= Seq::empty());
    let public = item::make_item(
        l.module,
        l.category,
        l.name,
        path,
        l.detail,
        0,
        l.risk,
        l.selected,
        no_names,
        no_files,
    );
    item::push_item(items, counter, public, action);
}

// ---------------------------------------------------------------------------
// Paths that offers act on

/// The paths that an action touches.
pub open spec fn action_paths(action: ActionView) -> Seq<Seq<char>> {
    match action {
        ActionView::DeleteDirectoryContents(dirs) => dirs,
        ActionView::DeletePaths(paths) => paths,
        ActionView::ClearRecycleBin(roots) => roots,
        ActionView::BrowserSql { db_path, .. } => seq![db_path],
        _ => Seq::empty(),
    }
}

/// Whether the surveys reach every path that the offers act on.
pub open spec fn within(surveys: Seq<SurveyView>, drafts: Seq<ScannedView>) -> bool {
    forall|i: int, path: Seq<char>|
        0 <= i < drafts.len() && #[trigger] action_paths(drafts[i].action).contains(path)
            ==> disk::covered(surveys, path)
}

/// Whether every path that the offers act on is a planned path, or a file that
/// the survey of a planned path came across below it.
pub open spec fn keeps_to_plan(
    planned: Seq<Seq<char>>,
    surveys: Seq<SurveyView>,
    drafts: Seq<ScannedView>,
) -> bool {
    forall|i: int, path: Seq<char>|
        0 <= i < drafts.len() && #[trigger] action_paths(drafts[i].action).contains(path)
            ==> exists|k: int|
            0 <= k < planned.len() && k < surveys.len() && planned[k] == (
            #[trigger] surveys[k]).path && disk::reaches(surveys[k], path)
}

/// Offers within surveys of planned paths keep to the plan.
pub proof fn lemma_keeps_to_plan(
    planned: Seq<Seq<char>>,
    surveys: Seq<SurveyView>,
    drafts: Seq<ScannedView>,
)
    requires
        disk::paths_of(surveys) == planned,
        within(surveys, drafts),
    ensures
        keeps_to_plan(planned, surveys, drafts),
{
    assert forall|i: int, path: Seq<char>|
        0 <= i < drafts.len() && #[trigger] action_paths(drafts[i].action).contains(
            path,
        ) implies exists|k: int|
        0 <= k < planned.len() && k < surveys.len() && planned[k] == (#[trigger] surveys[k]).path
            && disk::reaches(surveys[k], path) by {
        assert(disk::covered(surveys, path));
        let k = choose|k: int|
            0 <= k < surveys.len() && disk::reaches(#[trigger] surveys[k], path);
        assert(disk::paths_of(surveys)[k] == surveys[k].path);
    }
}

/// More surveys reach as much.
pub proof fn lemma_within_more(
    part: Seq<SurveyView>,
    all: Seq<SurveyView>,
    drafts: Seq<ScannedView>,
)
    requires
        disk::among(part, all),
        within(part, drafts),
    ensures
        within(all, drafts),
{
    assert forall|i: int, path: Seq<char>|
        0 <= i < drafts.len() && #[trigger] action_paths(drafts[i].action).contains(
            path,
        ) implies disk::covered(all, path) by {
        disk::lemma_covered_among(part, all, path);
    }
}

/// What holds of two lists of offers holds of them together.
pub proof fn lemma_within_add(
    surveys: Seq<SurveyView>,
    a: Seq<ScannedView>,
    b: Seq<ScannedView>,
)
    requires
        within(surveys, a),
        within(surveys, b),
    ensures
        within(surveys, a + b),
{
    assert forall|i: int, path: Seq<char>|
        0 <= i < (a + b).len() && #[trigger] action_paths((a + b)[i].action).contains(
            path,
        ) implies disk::covered(surveys, path) by {
        if i < a.len() {
            assert(action_paths(a[i].action).contains(path));
        } else {
            assert(action_paths(b[i - a.len()].action).contains(path));
        }
    }
}

/// What holds of some lists of offers holds of them together.
pub proof fn lemma_within_chain(surveys: Seq<SurveyView>, parts: Seq<Seq<ScannedView>>)
    requires
        forall|i: int| 0 <= i < parts.len() ==> within(surveys, #[trigger] parts[i]),
    ensures
        within(surveys, chain(parts)),
    decreases parts.len(),
{
    if parts.len() > 0 {
        let shorter = parts.drop_last();
        assert forall|i: int| 0 <= i < shorter.len() implies within(
            surveys,
            #[trigger] shorter[i],
        ) by {
            assert(within(surveys, parts[i]));
        }
        lemma_within_chain(surveys, shorter);
        assert(within(surveys, parts[parts.len() - 1]));
        lemma_within_add(surveys, chain(shorter), parts.last());
    }
}

/// An offer to empty directories acts on those directories.
pub proof fn lemma_directories_within(
    surveys: Seq<SurveyView>,
    l: LabelView,
    process_names: Seq<Seq<char>>,
    dirs: Seq<SurveyView>,
    limit: int,
    recycle_bin: bool,
)
    requires
        disk::among(dirs, surveys),
    ensures
        within(surveys, directory_drafts(l, process_names, dirs, limit, recycle_bin)),
{
    let drafts = directory_drafts(l, process_names, dirs, limit, recycle_bin);
    assert forall|i: int, path: Seq<char>|
        0 <= i < drafts.len() && #[trigger] action_paths(drafts[i].action).contains(
            path,
        ) implies disk::covered(dirs, path) by {
        let all = disk::paths_of(dirs);
        let k = choose|k: int| 0 <= k < all.len() && all[k] == path;
        assert(disk::reaches(dirs[k], path));
    }
    lemma_within_more(dirs, surveys, drafts);
}

/// Files that are wanted at some paths are reached by their surveys.
pub proof fn lemma_file_paths_covered(
    paths: Seq<SurveyView>,
    filter: disk::FileFilter,
    path: Seq<char>,
)
    requires
        file_paths(disk::wanted_files(paths, filter)).contains(path),
    ensures
        disk::covered(paths, path),
{
    let all = file_paths(disk::wanted_files(paths, filter));
    let k = choose|k: int| 0 <= k < all.len() && all[k] == path;
    disk::lemma_wanted_covered(paths, filter, k);
}

/// An offer to delete the wanted files of some paths acts on those paths and
/// below them.
pub proof fn lemma_files_within(
    surveys: Seq<SurveyView>,
    l: LabelView,
    shown: Seq<char>,
    paths: Seq<SurveyView>,
    filter: disk::FileFilter,
)
    requires
        disk::among(paths, surveys),
    ensures
        within(surveys, file_drafts(l, shown, disk::wanted_files(paths, filter))),
{
    let drafts = file_drafts(l, shown, disk::wanted_files(paths, filter));
    assert forall|i: int, path: Seq<char>|
        0 <= i < drafts.len() && #[trigger] action_paths(drafts[i].action).contains(
            path,
        ) implies disk::covered(paths, path) by {
        lemma_file_paths_covered(paths, filter, path);
    }
    lemma_within_more(paths, surveys, drafts);
}

/// Offers on one database act on that database.
pub proof fn lemma_databases_within(
    surveys: Seq<SurveyView>,
    database: SurveyView,
    drafts: Seq<ScannedView>,
)
    requires
        surveys.contains(database),
        forall|i: int|
            0 <= i < drafts.len() ==> action_paths((#[trigger] drafts[i]).action) == seq![
                database.path,
            ],
    ensures
        within(surveys, drafts),
{
    let n = choose|n: int| 0 <= n < surveys.len() && surveys[n] == database;
    assert(disk::reaches(surveys[n], database.path));
}

/// An offer of lists one after the other is an offer of one of them.
pub proof fn lemma_chain_at(parts: Seq<Seq<ScannedView>>, n: int)
    requires
        0 <= n < chain(parts).len(),
    ensures
        exists|i: int, j: int|
            0 <= i < parts.len() && 0 <= j < parts[i].len() && chain(parts)[n]
                == #[trigger] parts[i][j],
    decreases parts.len(),
{
    let shorter = parts.drop_last();
    let before = chain(shorter);
    let last = parts.len() - 1;
    if n < before.len() {
        lemma_chain_at(shorter, n);
        let (i, j) = choose|i: int, j: int|
            0 <= i < shorter.len() && 0 <= j < shorter[i].len() && before[n]
                == #[trigger] shorter[i][j];
        assert(parts[i][j] == shorter[i][j]);
    } else {
        assert(chain(parts)[n] == parts[last][n - before.len()]);
    }
}

// ---------------------------------------------------------------------------
// Offers that are not lost

/// Whether every offer of the second list is in the first.
pub open spec fn includes_all(all: Seq<ScannedView>, part: Seq<ScannedView>) -> bool {
    forall|i: int| 0 <= i < part.len() ==> all.contains(#[trigger] part[i])
}

/// Lists one after the other hold the offers of both.
pub proof fn lemma_includes_sum(a: Seq<ScannedView>, b: Seq<ScannedView>)
    ensures
        includes_all(a + b, a),
        includes_all(a + b, b),
{
    assert forall|i: int| 0 <= i < a.len() implies (a + b).contains(#[trigger] a[i]) by {
        assert((a + b)[i] == a[i]);
    }
    assert forall|i: int| 0 <= i < b.len() implies (a + b).contains(#[trigger] b[i]) by {
        assert((a + b)[a.len() + i] == b[i]);
    }
}

/// What a part holds, the whole holds.
pub proof fn lemma_includes_transitive(
    all: Seq<ScannedView>,
    part: Seq<ScannedView>,
    piece: Seq<ScannedView>,
)
    requires
        includes_all(all, part),
        includes_all(part, piece),
    ensures
        includes_all(all, piece),
{
    assert forall|i: int| 0 <= i < piece.len() implies all.contains(#[trigger] piece[i]) by {
        assert(part.contains(piece[i]));
        let k = choose|k: int| 0 <= k < part.len() && part[k] == piece[i];
        assert(all.contains(part[k]));
    }
}

/// Some lists one after the other hold the offers of each.
pub proof fn lemma_includes_chain(parts: Seq<Seq<ScannedView>>, i: int)
    requires
        0 <= i < parts.len(),
    ensures
        includes_all(chain(parts), parts[i]),
    decreases parts.len(),
{
    let shorter = parts.drop_last();
    lemma_includes_sum(chain(shorter), parts.last());
    if i < shorter.len() {
        lemma_includes_chain(shorter, i);
        lemma_includes_transitive(chain(parts), chain(shorter), parts[i]);
    }
}

} // verus!
