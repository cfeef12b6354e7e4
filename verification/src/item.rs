//! What a scan offers: the items that are shown, the action that stands behind
//! each of them, and how items are numbered and picked again by number.
use crate::text;
use vstd::prelude::*;

verus! {

/// The page that an item belongs to.
#[derive(Clone, Copy, Debug, PartialEq, Eq, Structural)]
pub enum ModuleKind {
    System,
    Browser,
    Application,
    Registry,
}

/// How much is at stake when an item is cleaned.
#[derive(Clone, Copy, Debug, PartialEq, Eq, Structural)]
pub enum RiskLevel {
    Safe,
    Medium,
    High,
}

/// One file in the preview of an item.
#[derive(Debug)]
pub struct FilePreview {
    pub path: String,
    pub size_bytes: u64,
}

/// The contents of a [`FilePreview`].
pub struct PreviewView {
    pub path: Seq<char>,
    pub size_bytes: u64,
}

impl View for FilePreview {
    type V = PreviewView;

    open spec fn view(&self) -> PreviewView {
        PreviewView { path: self.path@, size_bytes: self.size_bytes }
    }
}

/// What the user sees of an item.
#[derive(Debug)]
pub struct CleanerItem {
    pub id: String,
    pub module: ModuleKind,
    pub category: String,
    pub name: String,
    pub path: String,
    pub detail: String,
    pub size_bytes: u64,
    pub risk: RiskLevel,
    pub selected_by_default: bool,
    pub process_names: Vec<String>,
    pub children: Vec<FilePreview>,
}

/// The contents of a [`CleanerItem`].
pub struct ItemView {
    pub id: Seq<char>,
    pub module: ModuleKind,
    pub category: Seq<char>,
    pub name: Seq<char>,
    pub path: Seq<char>,
    pub detail: Seq<char>,
    pub size_bytes: u64,
    pub risk: RiskLevel,
    pub selected_by_default: bool,
    pub process_names: Seq<Seq<char>>,
    pub children: Seq<PreviewView>,
}

impl View for CleanerItem {
    type V = ItemView;

    open spec fn view(&self) -> ItemView {
        ItemView {
            id: self.id@,
            module: self.module,
            category: self.category@,
            name: self.name@,
            path: self.path@,
            detail: self.detail@,
            size_bytes: self.size_bytes,
            risk: self.risk,
            selected_by_default: self.selected_by_default,
            process_names: text::views(self.process_names@),
            children: text::views(self.children@),
        }
    }
}

/// Which records of which browser database are cleared.
#[derive(Clone, Copy, Debug, PartialEq, Eq, Structural)]
pub enum BrowserDbKind {
    ChromiumCookies,
    ChromiumHistory,
    ChromiumDownloads,
    FirefoxCookies,
    FirefoxHistory,
    FirefoxDownloads,
}

/// What cleaning an item does.
#[derive(Debug)]
pub enum CleanAction {
    DeleteDirectoryContents(Vec<String>),
    DeletePaths(Vec<String>),
    FlushDns,
    ClearClipboard,
    ClearRecycleBin(Vec<String>),
    BrowserSql { db_path: String, kind: BrowserDbKind },
    RegistryDelete { key_path: String, value_name: Option<String>, delete_key: bool },
}

/// The contents of a [`CleanAction`].
pub enum ActionView {
    DeleteDirectoryContents(Seq<Seq<char>>),
    DeletePaths(Seq<Seq<char>>),
    FlushDns,
    ClearClipboard,
    ClearRecycleBin(Seq<Seq<char>>),
    BrowserSql { db_path: Seq<char>, kind: BrowserDbKind },
    RegistryDelete { key_path: Seq<char>, value_name: Option<Seq<char>>, delete_key: bool },
}

/// The text inside, where there is one.
pub open spec fn opt_text(s: Option<String>) -> Option<Seq<char>> {
    match s {
        Some(t) => Some(t@),
        None => None,
    }
}

impl View for CleanAction {
    type V = ActionView;

    open spec fn view(&self) -> ActionView {
        match *self {
            CleanAction::DeleteDirectoryContents(v) => ActionView::DeleteDirectoryContents(
                text::views(v@),
            ),
            CleanAction::DeletePaths(v) => ActionView::DeletePaths(text::views(v@)),
            CleanAction::FlushDns => ActionView::FlushDns,
            CleanAction::ClearClipboard => ActionView::ClearClipboard,
            CleanAction::ClearRecycleBin(v) => ActionView::ClearRecycleBin(text::views(v@)),
            CleanAction::BrowserSql { db_path, kind } => ActionView::BrowserSql {
                db_path: db_path@,
                kind,
            },
            CleanAction::RegistryDelete { key_path, value_name, delete_key } =>
                ActionView::RegistryDelete {
                key_path: key_path@,
                value_name: opt_text(value_name),
                delete_key,
            },
        }
    }
}

/// An item together with its action.
#[derive(Debug)]
pub struct ScannedItem {
    pub public: CleanerItem,
    pub action: CleanAction,
}

/// The contents of a [`ScannedItem`].
pub struct ScannedView {
    pub public: ItemView,
    pub action: ActionView,
}

impl View for ScannedItem {
    type V = ScannedView;

    open spec fn view(&self) -> ScannedView {
        ScannedView { public: self.public@, action: self.action@ }
    }
}

// ---------------------------------------------------------------------------
// Copies

impl Clone for FilePreview {
    fn clone(&self) -> (r: Self)
        ensures
            r@ == self@,
    {
        FilePreview { path: self.path.clone(), size_bytes: self.size_bytes }
    }
}

/// A list of previews with the same contents.
pub fn copy_previews(v: &Vec<FilePreview>) -> (r: Vec<FilePreview>)
    ensures
        text::views(r@) == text::views(v@),
{
    let mut r: Vec<FilePreview> = Vec::new();
    for i in 0..v.len()
        invariant
            text::views(r@) == text::views(v@).take(i as int),
    {
        let ghost before = r@;
        let p = v[i].clone();
        r.push(p);
        proof {
            text::lemma_views_push(before, p);
            assert(text::views(v@).take(i + 1) =~= text::views(v@).take(i as int).push(v@[i as int]@));
        }
    }
    assert(text::views(v@).take(v@.len() as int) =~= text::views(v@));
    r
}

impl Clone for CleanerItem {
    fn clone(&self) -> (r: Self)
        ensures
            r@ == self@,
    {
        CleanerItem {
            id: self.id.clone(),
            module: self.module,
            category: self.category.clone(),
            name: self.name.clone(),
            path: self.path.clone(),
            detail: self.detail.clone(),
            size_bytes: self.size_bytes,
            risk: self.risk,
            selected_by_default: self.selected_by_default,
            process_names: text::copy_strings(&self.process_names),
            children: copy_previews(&self.children),
        }
    }
}

/// The same text, where there is one.
pub fn copy_opt(s: &Option<String>) -> (r: Option<String>)
    ensures
        opt_text(r) == opt_text(*s),
{
    match s {
        Some(t) => Some(t.clone()),
        None => None,
    }
}

impl Clone for CleanAction {
    fn clone(&self) -> (r: Self)
        ensures
            r@ == self@,
    {
        match self {
            CleanAction::DeleteDirectoryContents(v) => CleanAction::DeleteDirectoryContents(
                text::copy_strings(v),
            ),
            CleanAction::DeletePaths(v) => CleanAction::DeletePaths(text::copy_strings(v)),
            CleanAction::FlushDns => CleanAction::FlushDns,
            CleanAction::ClearClipboard => CleanAction::ClearClipboard,
            CleanAction::ClearRecycleBin(v) => CleanAction::ClearRecycleBin(text::copy_strings(v)),
            CleanAction::BrowserSql { db_path, kind } => CleanAction::BrowserSql {
                db_path: db_path.clone(),
                kind: *kind,
            },
            CleanAction::RegistryDelete { key_path, value_name, delete_key } =>
                CleanAction::RegistryDelete {
                key_path: key_path.clone(),
                value_name: copy_opt(value_name),
                delete_key: *delete_key,
            },
        }
    }
}

impl Clone for ScannedItem {
    fn clone(&self) -> (r: Self)
        ensures
            r@ == self@,
    {
        ScannedItem { public: self.public.clone(), action: self.action.clone() }
    }
}

// ---------------------------------------------------------------------------
// Numbering

/// An item before it has a number.
pub open spec fn item_of(
    module: ModuleKind,
    category: Seq<char>,
    name: Seq<char>,
    path: Seq<char>,
    detail: Seq<char>,
    size_bytes: u64,
    risk: RiskLevel,
    selected_by_default: bool,
    process_names: Seq<Seq<char>>,
    children: Seq<PreviewView>,
) -> ItemView {
    ItemView {
        id: Seq::empty(),
        module,
        category,
        name,
        path,
        detail,
        size_bytes,
        risk,
        selected_by_default,
        process_names,
        children,
    }
}

/// The id of the item with the given number.
pub open spec fn item_id(n: int) -> Seq<char> {
    "item-"@ + text::decimal(n as nat)
}

/// An item with its number filled in.
pub open spec fn with_number(d: ScannedView, n: int) -> ScannedView {
    ScannedView { public: ItemView { id: item_id(n), ..d.public }, action: d.action }
}

/// Items with consecutive numbers, the first one after `count`.
pub open spec fn numbered(drafts: Seq<ScannedView>, count: int) -> Seq<ScannedView> {
    Seq::new(drafts.len(), |i: int| with_number(drafts[i], count + 1 + i))
}

/// The step from one list and counter to the next: the drafts are appended
/// with the numbers that follow the counter, and nothing else changes.
pub open spec fn extends(
    before: Seq<ScannedView>,
    count: int,
    after: Seq<ScannedView>,
    new_count: int,
    drafts: Seq<ScannedView>,
) -> bool {
    &&& new_count == count + drafts.len()
    &&& after == before + numbered(drafts, count)
}

/// The counter can be raised `n` times while `n` items are appended: it does
/// not run ahead of the list, or there is room up to the largest number.
pub open spec fn has_room(count: usize, len: nat, n: nat) -> bool {
    count <= len || count + n <= usize::MAX
}

/// A list extended by nothing.
pub proof fn lemma_extends_nothing(before: Seq<ScannedView>, count: int)
    ensures
        extends(before, count, before, count, Seq::empty()),
{
    assert(before + numbered(Seq::empty(), count) =~= before);
}

/// Two extensions one after the other are one by both lists of drafts.
pub proof fn lemma_extends_twice(
    a: Seq<ScannedView>,
    ca: int,
    b: Seq<ScannedView>,
    cb: int,
    c: Seq<ScannedView>,
    cc: int,
    first: Seq<ScannedView>,
    second: Seq<ScannedView>,
)
    requires
        extends(a, ca, b, cb, first),
        extends(b, cb, c, cc, second),
    ensures
        extends(a, ca, c, cc, first + second),
{
    assert(a + numbered(first, ca) + numbered(second, cb) =~= a + numbered(first + second, ca));
}

/// Builds an item that has no number yet.
pub fn make_item(
    module: ModuleKind,
    category: &str,
    name: &str,
    path: String,
    detail: &str,
    size_bytes: u64,
    risk: RiskLevel,
    selected_by_default: bool,
    process_names: Vec<String>,
    children: Vec<FilePreview>,
) -> (r: CleanerItem)
    ensures
        r@ == item_of(
            module,
            category@,
            name@,
            path@,
            detail@,
            size_bytes,
            risk,
            selected_by_default,
            text::views(process_names@),
            text::views(children@),
        ),
{
    CleanerItem {
        id: String::new(),
        module,
        category: category.to_owned(),
        name: name.to_owned(),
        path,
        detail: detail.to_owned(),
        size_bytes,
        risk,
        selected_by_default,
        process_names,
        children,
    }
}

/// Raises the counter, gives the item that number and appends it.
pub fn push_item(
    items: &mut Vec<ScannedItem>,
    counter: &mut usize,
    public: CleanerItem,
    action: CleanAction,
)
    requires
        has_room(*old(counter), old(items)@.len(), 1),
    ensures
        extends(
            text::views(old(items)@),
            *old(counter) as int,
            text::views(final(items)@),
            *final(counter) as int,
            seq![(ScannedView { public: public@, action: action@ })],
        ),
        final(items)@.len() == old(items)@.len() + 1,
{
    let ghost before = items@;
    let ghost draft = ScannedView { public: public@, action: action@ };
    let number: u128 = (*counter as u128) + 1;
    let digits = text::decimal_string(number);
    let mut public = public;
    public.id = text::concat2("item-", digits.as_str());
    let item = ScannedItem { public, action };
    items.push(item);
    let len = items.len();
    assert(len == before.len() + 1);
    *counter = *counter + 1;
    proof {
        text::lemma_views_push(before, item);
        assert(item@ == with_number(draft, *old(counter) + 1));
        assert(text::views(items@) =~= text::views(before) + numbered(seq![draft], *old(counter) as int));
    }
}

/// Different numbers give different ids.
pub proof fn lemma_item_id_injective(a: int, b: int)
    requires
        0 <= a,
        0 <= b,
        item_id(a) == item_id(b),
    ensures
        a == b,
{
    let p = "item-"@;
    assert(item_id(a).skip(p.len() as int) =~= text::decimal(a as nat));
    assert(item_id(b).skip(p.len() as int) =~= text::decimal(b as nat));
    text::lemma_decimal_injective(a as nat, b as nat);
}

/// No two items of one scan have the same id.
pub proof fn law_ids_are_distinct(drafts: Seq<ScannedView>, count: int)
    requires
        0 <= count,
    ensures
        forall|i: int, j: int|
            0 <= i < j < drafts.len() ==> numbered(drafts, count)[i].public.id != numbered(
                drafts,
                count,
            )[j].public.id,
{
    assert forall|i: int, j: int| 0 <= i < j < drafts.len() implies numbered(
        drafts,
        count,
    )[i].public.id != numbered(drafts, count)[j].public.id by {
        if item_id(count + 1 + i) == item_id(count + 1 + j) {
            lemma_item_id_injective(count + 1 + i, count + 1 + j);
        }
    }
}

// ---------------------------------------------------------------------------
// Picking items again

/// The items whose id is asked for, in the order of the scan.
pub open spec fn selected(items: Seq<ScannedView>, ids: Seq<Seq<char>>) -> Seq<ScannedView> {
    items.filter(|it: ScannedView| ids.contains(it.public.id))
}

/// Copies the items whose id is asked for, in the order of the scan.
pub fn selected_scanned_items(items: &Vec<ScannedItem>, item_ids: &Vec<String>) -> (r: Vec<
    ScannedItem,
>)
    ensures
        text::views(r@) == selected(text::views(items@), text::views(item_ids@)),
{
    let ghost wanted = |it: ScannedView| text::views(item_ids@).contains(it.public.id);
    let mut r: Vec<ScannedItem> = Vec::new();
    proof {
        reveal(Seq::filter);
        assert(text::views(items@).take(0).filter(wanted) =~= Seq::empty());
    }
    for i in 0..items.len()
        invariant
            wanted == (|it: ScannedView| text::views(item_ids@).contains(it.public.id)),
            text::views(r@) == text::views(items@).take(i as int).filter(wanted),
    {
        let ghost before = r@;
        proof {
            reveal(Seq::filter);
            let next = text::views(items@).take(i + 1);
            assert(next.drop_last() =~= text::views(items@).take(i as int));
            assert(next.last() == items@[i as int]@);
        }
        if text::holds_text(item_ids, items[i].public.id.as_str()) {
            let it = items[i].clone();
            r.push(it);
            proof {
                text::lemma_views_push(before, it);
            }
        }
    }
    assert(text::views(items@).take(items@.len() as int) =~= text::views(items@));
    r
}

/// A filter that nothing passes leaves nothing.
pub proof fn lemma_filter_none<T>(s: Seq<T>, keep: spec_fn(T) -> bool)
    requires
        forall|j: int| 0 <= j < s.len() ==> !keep(#[trigger] s[j]),
    ensures
        s.filter(keep) == Seq::<T>::empty(),
    decreases s.len(),
{
    reveal(Seq::filter);
    if s.len() > 0 {
        assert(!keep(s[s.len() - 1]));
        lemma_filter_none(s.drop_last(), keep);
    }
}

/// A selection holds nothing but scanned items: the ids of a request pick
/// among what the scan found and cannot bring in an action of their own.
pub proof fn law_selection_comes_from_the_scan(items: Seq<ScannedView>, ids: Seq<Seq<char>>)
    ensures
        forall|it: ScannedView| #[trigger]
            selected(items, ids).contains(it) <==> items.contains(it) && ids.contains(
                it.public.id,
            ),
{
    let wanted = |it: ScannedView| ids.contains(it.public.id);
    assert forall|it: ScannedView| #[trigger]
        selected(items, ids).contains(it) <==> items.contains(it) && ids.contains(
            it.public.id,
        ) by {
        if selected(items, ids).contains(it) {
            let k = choose|k: int|
                0 <= k < selected(items, ids).len() && selected(items, ids)[k] == it;
            items.lemma_filter_pred(wanted, k);
            items.lemma_filter_contains_rev(wanted, it);
        }
        if items.contains(it) && ids.contains(it.public.id) {
            let k = choose|k: int| 0 <= k < items.len() && items[k] == it;
            assert(wanted(it));
            items.lemma_filter_contains(wanted, k);
        }
    }
}

/// A selection keeps the order of the scan: what is picked of two lists one
/// after the other is what is picked of each. Of one item it is that item or
/// nothing.
pub proof fn law_selection_keeps_the_order(
    items: Seq<ScannedView>,
    more: Seq<ScannedView>,
    ids: Seq<Seq<char>>,
    one: ScannedView,
)
    ensures
        selected(items + more, ids) == selected(items, ids) + selected(more, ids),
        selected(seq![one], ids) == if ids.contains(one.public.id) {
            seq![one]
        } else {
            Seq::empty()
        },
        selected(Seq::empty(), ids).len() == 0,
{
    reveal(Seq::filter);
    let wanted = |it: ScannedView| ids.contains(it.public.id);
    Seq::filter_distributes_over_add(items, more, wanted);
    let none = Seq::<ScannedView>::empty();
    assert(seq![one].drop_last() =~= none);
    assert(none.filter(wanted) =~= none);
    assert(none.push(one) =~= seq![one]);
}

/// Items are numbered one after the other from the number that follows the
/// counter, and numbering changes nothing else about them.
pub proof fn law_numbering_sets_only_the_id(drafts: Seq<ScannedView>, count: nat, i: int)
    requires
        0 <= i < drafts.len(),
    ensures
        numbered(drafts, count as int).len() == drafts.len(),
        numbered(drafts, count as int)[i].public.id == "item-"@ + text::decimal(
            (count + 1 + i) as nat,
        ),
        numbered(drafts, count as int)[i].action == drafts[i].action,
        ({
            let before = drafts[i].public;
            let after = numbered(drafts, count as int)[i].public;
            &&& after.module == before.module
            &&& after.category == before.category
            &&& after.name == before.name
            &&& after.path == before.path
            &&& after.detail == before.detail
            &&& after.size_bytes == before.size_bytes
            &&& after.risk == before.risk
            &&& after.selected_by_default == before.selected_by_default
            &&& after.process_names == before.process_names
            &&& after.children == before.children
        }),
{
}

} // verus!
