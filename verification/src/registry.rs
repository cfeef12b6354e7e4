//! The scan of the registry: records that point at files, programs or classes
//! that are no longer there.
use crate::disk;
use crate::item;
use crate::item::{
    ActionView, CleanAction, ModuleKind, RiskLevel, ScannedItem, ScannedView,
};
use crate::launch;
use crate::offer;
use crate::system;
use crate::text;
use vstd::prelude::*;

verus! {

// ---------------------------------------------------------------------------
// Where to look

/// A root of the registry.
#[derive(Clone, Copy, Debug, PartialEq, Eq, Structural)]
pub enum RegistryRoot {
    LocalMachine,
    CurrentUser,
    ClassesRoot,
}

/// The short name of a root, as it begins a key path.
pub open spec fn root_name(root: RegistryRoot) -> Seq<char> {
    match root {
        RegistryRoot::LocalMachine => "HKLM"@,
        RegistryRoot::CurrentUser => "HKCU"@,
        RegistryRoot::ClassesRoot => "HKCR"@,
    }
}

/// Gives the short name of a root.
pub fn root_label(root: RegistryRoot) -> (r: &'static str)
    ensures
        r@ == root_name(root),
{
    match root {
        RegistryRoot::LocalMachine => "HKLM",
        RegistryRoot::CurrentUser => "HKCU",
        RegistryRoot::ClassesRoot => "HKCR",
    }
}

/// A key whose records are looked at. An empty `subkey` is the root itself.
#[derive(Clone, Copy, Debug)]
pub struct KeyTarget {
    pub root: RegistryRoot,
    pub subkey: &'static str,
}

/// The contents of a [`KeyTarget`].
pub struct TargetView {
    pub root: RegistryRoot,
    pub subkey: Seq<char>,
}

impl View for KeyTarget {
    type V = TargetView;

    open spec fn view(&self) -> TargetView {
        TargetView { root: self.root, subkey: self.subkey@ }
    }
}

/// What is wrong with a record.
#[derive(Clone, Copy, Debug, PartialEq, Eq, Structural)]
pub enum IssueKind {
    SharedDll,
    Startup,
    AppPath,
    Font,
    Uninstall,
    FileExtension,
}

/// A target as a spec value.
pub open spec fn target(root: RegistryRoot, subkey: Seq<char>) -> TargetView {
    TargetView { root, subkey }
}

/// The keys in which an issue can be found, in the order of the scan.
pub open spec fn targets_of(kind: IssueKind) -> Seq<TargetView> {
    let machine = RegistryRoot::LocalMachine;
    let user = RegistryRoot::CurrentUser;
    match kind {
        IssueKind::SharedDll => seq![
            target(machine, "SOFTWARE\\Microsoft\\Windows\\CurrentVersion\\SharedDLLs"@),
            target(user, "SOFTWARE\\Microsoft\\Windows\\CurrentVersion\\SharedDLLs"@),
        ],
        IssueKind::Startup => seq![
            target(machine, "SOFTWARE\\Microsoft\\Windows\\CurrentVersion\\Run"@),
            target(machine, "SOFTWARE\\Microsoft\\Windows\\CurrentVersion\\RunOnce"@),
            target(user, "SOFTWARE\\Microsoft\\Windows\\CurrentVersion\\Run"@),
            target(user, "SOFTWARE\\Microsoft\\Windows\\CurrentVersion\\RunOnce"@),
        ],
        IssueKind::AppPath => seq![
            target(machine, "SOFTWARE\\Microsoft\\Windows\\CurrentVersion\\App Paths"@),
            target(user, "SOFTWARE\\Microsoft\\Windows\\CurrentVersion\\App Paths"@),
        ],
        IssueKind::Font => seq![
            target(machine, "SOFTWARE\\Microsoft\\Windows NT\\CurrentVersion\\Fonts"@),
            target(user, "SOFTWARE\\Microsoft\\Windows NT\\CurrentVersion\\Fonts"@),
        ],
        IssueKind::Uninstall => seq![
            target(machine, "SOFTWARE\\Microsoft\\Windows\\CurrentVersion\\Uninstall"@),
            target(
                machine,
                "SOFTWARE\\WOW6432Node\\Microsoft\\Windows\\CurrentVersion\\Uninstall"@,
            ),
            target(user, "SOFTWARE\\Microsoft\\Windows\\CurrentVersion\\Uninstall"@),
        ],
        IssueKind::FileExtension => seq![target(RegistryRoot::ClassesRoot, ""@)],
    }
}

/// Lists the keys in which an issue can be found.
pub fn registry_targets(kind: IssueKind) -> (r: Vec<KeyTarget>)
    ensures
        text::views(r@) == targets_of(kind),
{
    let machine = RegistryRoot::LocalMachine;
    let user = RegistryRoot::CurrentUser;
    let r = match kind {
        IssueKind::SharedDll => vec![
            KeyTarget {
                root: machine,
                subkey: "SOFTWARE\\Microsoft\\Windows\\CurrentVersion\\SharedDLLs",
            },
            KeyTarget {
                root: user,
                subkey: "SOFTWARE\\Microsoft\\Windows\\CurrentVersion\\SharedDLLs",
            },
        ],
        IssueKind::Startup => vec![
            KeyTarget {
                root: machine,
                subkey: "SOFTWARE\\Microsoft\\Windows\\CurrentVersion\\Run",
            },
            KeyTarget {
                root: machine,
                subkey: "SOFTWARE\\Microsoft\\Windows\\CurrentVersion\\RunOnce",
            },
            KeyTarget { root: user, subkey: "SOFTWARE\\Microsoft\\Windows\\CurrentVersion\\Run" },
            KeyTarget {
                root: user,
                subkey: "SOFTWARE\\Microsoft\\Windows\\CurrentVersion\\RunOnce",
            },
        ],
        IssueKind::AppPath => vec![
            KeyTarget {
                root: machine,
                subkey: "SOFTWARE\\Microsoft\\Windows\\CurrentVersion\\App Paths",
            },
            KeyTarget {
                root: user,
                subkey: "SOFTWARE\\Microsoft\\Windows\\CurrentVersion\\App Paths",
            },
        ],
        IssueKind::Font => vec![
            KeyTarget {
                root: machine,
                subkey: "SOFTWARE\\Microsoft\\Windows NT\\CurrentVersion\\Fonts",
            },
            KeyTarget {
                root: user,
                subkey: "SOFTWARE\\Microsoft\\Windows NT\\CurrentVersion\\Fonts",
            },
        ],
        IssueKind::Uninstall => vec![
            KeyTarget {
                root: machine,
                subkey: "SOFTWARE\\Microsoft\\Windows\\CurrentVersion\\Uninstall",
            },
            KeyTarget {
                root: machine,
                subkey: "SOFTWARE\\WOW6432Node\\Microsoft\\Windows\\CurrentVersion\\Uninstall",
            },
            KeyTarget {
                root: user,
                subkey: "SOFTWARE\\Microsoft\\Windows\\CurrentVersion\\Uninstall",
            },
        ],
        IssueKind::FileExtension => vec![
            KeyTarget { root: RegistryRoot::ClassesRoot, subkey: "" },
        ],
    };
    assert(text::views(r@) =~= targets_of(kind));
    r
}

/// The path of a key, with the root's short name in front.
pub open spec fn target_path(t: TargetView) -> Seq<char> {
    if t.subkey.len() == 0 {
        root_name(t.root)
    } else {
        root_name(t.root) + "\\"@ + t.subkey
    }
}

/// Builds the path of a key.
pub fn target_key_path(t: &KeyTarget) -> (r: String)
    ensures
        r@ == target_path(t@),
{
    if t.subkey.is_empty() {
        root_label(t.root).to_owned()
    } else {
        text::concat3(root_label(t.root), "\\", t.subkey)
    }
}

// ---------------------------------------------------------------------------
// What stands there

/// A text that points at a file, the values of the variables in it, and
/// whether the file is there.
#[derive(Debug)]
pub struct Pointer {
    pub text: String,
    pub values: Vec<Option<String>>,
    pub present: bool,
}

/// The contents of a [`Pointer`].
pub struct PointerView {
    pub text: Seq<char>,
    pub values: Seq<Option<Seq<char>>>,
    pub present: bool,
}

impl View for Pointer {
    type V = PointerView;

    open spec fn view(&self) -> PointerView {
        PointerView {
            text: self.text@,
            values: system::opt_texts(self.values@),
            present: self.present,
        }
    }
}

/// The pointer inside, where there is one.
pub open spec fn opt_pointer(p: Option<Pointer>) -> Option<PointerView> {
    match p {
        Some(q) => Some(q@),
        None => None,
    }
}

/// The text of a pointer with its variables filled in.
pub open spec fn pointed(p: PointerView) -> Seq<char> {
    launch::expanded(p.text, p.values)
}

/// Whether the pointer is a command whose program is not there.
pub open spec fn command_missing(p: PointerView) -> bool {
    launch::command_target(pointed(p)) is Some && !p.present
}

/// A record of a key. For a shared library `data` is the path that the name
/// holds; for a startup entry it is the command, for an application path the
/// default value, for a font the font file. It is `None` where it is no text
/// or cannot be read.
#[derive(Debug)]
pub struct ValueRecord {
    pub name: String,
    pub data: Option<Pointer>,
}

/// The contents of a [`ValueRecord`].
pub struct ValueView {
    pub name: Seq<char>,
    pub data: Option<PointerView>,
}

impl View for ValueRecord {
    type V = ValueView;

    open spec fn view(&self) -> ValueView {
        ValueView { name: self.name@, data: opt_pointer(self.data) }
    }
}

/// Whether a record names a file that is not there.
pub open spec fn value_stale(kind: IssueKind, v: ValueView) -> bool {
    match v.data {
        Some(p) => if kind == IssueKind::Startup || kind == IssueKind::AppPath {
            command_missing(p)
        } else {
            !p.present
        },
        None => false,
    }
}

/// Decides whether a record names a file that is not there.
pub fn is_value_stale(kind: IssueKind, v: &ValueRecord) -> (r: bool)
    ensures
        r == value_stale(kind, v@),
{
    match &v.data {
        Some(p) => if kind == IssueKind::Startup || kind == IssueKind::AppPath {
            launch::registry_command_path_missing(p.text.as_str(), &p.values, p.present)
        } else {
            !p.present
        },
        None => false,
    }
}

/// An entry of the list of installed programs.
#[derive(Debug)]
pub struct UninstallRecord {
    pub name: String,
    pub display_name: Option<String>,
    pub install_location: Option<Pointer>,
    pub uninstall: Option<Pointer>,
}

/// The contents of an [`UninstallRecord`].
pub struct UninstallView {
    pub name: Seq<char>,
    pub display_name: Option<Seq<char>>,
    pub install_location: Option<PointerView>,
    pub uninstall: Option<PointerView>,
}

impl View for UninstallRecord {
    type V = UninstallView;

    open spec fn view(&self) -> UninstallView {
        UninstallView {
            name: self.name@,
            display_name: item::opt_text(self.display_name),
            install_location: opt_pointer(self.install_location),
            uninstall: opt_pointer(self.uninstall),
        }
    }
}

/// Whether an entry shows a name.
pub open spec fn has_display_name(u: UninstallView) -> bool {
    match u.display_name {
        Some(n) => text::trim(n).len() > 0,
        None => false,
    }
}

/// Whether the directory of a program is named and not there.
pub open spec fn install_missing(u: UninstallView) -> bool {
    match u.install_location {
        Some(p) => pointed(p).len() > 0 && !p.present,
        None => false,
    }
}

/// Whether the program that would uninstall is not there. Commands that
/// mention `msiexec` are never counted.
pub open spec fn uninstaller_missing(u: UninstallView) -> bool {
    match u.uninstall {
        Some(p) => !text::contains(text::lower(p.text), "msiexec"@) && command_missing(p),
        None => false,
    }
}

/// Whether an entry is left over: it shows a name, and both the directory and
/// the uninstaller are gone.
pub open spec fn uninstall_stale(u: UninstallView) -> bool {
    has_display_name(u) && install_missing(u) && uninstaller_missing(u)
}

/// Decides whether an entry is left over.
pub fn is_uninstall_stale(u: &UninstallRecord) -> (r: bool)
    ensures
        r == uninstall_stale(u@),
{
    let named = match &u.display_name {
        Some(n) => {
            let cs = text::chars_of(n.as_str());
            text::trimmed(cs.as_slice()).len() > 0
        },
        None => false,
    };
    if !named {
        return false;
    }
    let missing_install = match &u.install_location {
        Some(p) => {
            let path = launch::expand_env_vars(p.text.as_str(), &p.values);
            let cs = text::chars_of(path.as_str());
            cs.len() > 0 && !p.present
        },
        None => false,
    };
    let missing_uninstall = match &u.uninstall {
        Some(p) => {
            let cs = text::chars_of(p.text.as_str());
            let low = text::lowered(cs.as_slice());
            !text::has_text(low.as_slice(), "msiexec") && launch::registry_command_path_missing(
                p.text.as_str(),
                &p.values,
                p.present,
            )
        },
        None => false,
    };
    missing_install && missing_uninstall
}

/// A subkey of the classes: its name, the class that its default value names,
/// and whether that class is there.
#[derive(Debug)]
pub struct ExtensionRecord {
    pub name: String,
    pub class_name: Option<String>,
    pub class_present: bool,
}

/// The contents of an [`ExtensionRecord`].
pub struct ExtensionView {
    pub name: Seq<char>,
    pub class_name: Option<Seq<char>>,
    pub class_present: bool,
}

impl View for ExtensionRecord {
    type V = ExtensionView;

    open spec fn view(&self) -> ExtensionView {
        ExtensionView {
            name: self.name@,
            class_name: item::opt_text(self.class_name),
            class_present: self.class_present,
        }
    }
}

/// Whether the name of a subkey is a file extension.
pub open spec fn is_extension(name: Seq<char>) -> bool {
    name.len() > 0 && name[0] == '.'
}

/// Decides whether the name of a subkey is a file extension.
pub fn is_extension_name(name: &str) -> (r: bool)
    ensures
        r == is_extension(name@),
{
    let cs = text::chars_of(name);
    cs.len() > 0 && cs[0] == '.'
}

/// Whether a subkey is a file extension whose class is named and not there.
pub open spec fn extension_stale(e: ExtensionView) -> bool {
    &&& is_extension(e.name)
    &&& match e.class_name {
        Some(c) => text::trim(c).len() > 0 && !e.class_present,
        None => false,
    }
}

/// Decides whether a subkey is a file extension whose class is not there.
pub fn is_extension_stale(e: &ExtensionRecord) -> (r: bool)
    ensures
        r == extension_stale(e@),
{
    if !is_extension_name(e.name.as_str()) {
        return false;
    }
    match &e.class_name {
        Some(c) => {
            let cs = text::chars_of(c.as_str());
            text::trimmed(cs.as_slice()).len() > 0 && !e.class_present
        },
        None => false,
    }
}

// ---------------------------------------------------------------------------
// Where a font is

/// Whether the path begins with a server and a share.
pub open spec fn on_network(s: Seq<char>) -> bool {
    &&& s.len() >= 2 && disk::is_separator(s[0]) && disk::is_separator(s[1])
    &&& exists|k: int| #[trigger] ends_server(s, k) && !disk::is_separator(s[k + 1])
}

/// Whether the server's name, which is not empty, ends at `k` and something
/// follows.
pub open spec fn ends_server(s: Seq<char>, k: int) -> bool {
    &&& 3 <= k < s.len() - 1
    &&& disk::is_separator(s[k])
    &&& forall|i: int| 2 <= i < k ==> !disk::is_separator(#[trigger] s[i])
}

/// Whether the path begins with the mark of a device or of a path that is
/// taken as it stands.
pub open spec fn is_special(s: Seq<char>) -> bool {
    ||| text::starts_with(s, "\\\\?\\"@)
    ||| s.len() >= 4 && disk::is_separator(s[0]) && disk::is_separator(s[1]) && s[2] == '.' && disk::is_separator(
        s[3],
    )
}

/// Whether a path is absolute: it begins with a drive and a separator, with a
/// share, or with a special mark.
pub open spec fn absolute(s: Seq<char>) -> bool {
    ||| s.len() >= 3 && disk::is_drive(s.take(2)) && disk::is_separator(s[2])
    ||| on_network(s)
    ||| is_special(s)
}

/// Decides [`on_network`].
fn names_share(s: &[char]) -> (r: bool)
    ensures
        r == on_network(s@),
{
    let n = s.len();
    assert(n == s@.len());
    if n < 2 || !disk::separates(s[0]) || !disk::separates(s[1]) {
        return false;
    }
    let mut k: usize = 2;
    while k < n && !disk::separates(s[k])
        invariant
            n == s@.len(),
            2 <= k <= n,
            forall|i: int| 2 <= i < k ==> !disk::is_separator(#[trigger] s@[i]),
        decreases n - k,
    {
        k = k + 1;
    }
    let r = k > 2 && k < n - 1 && !disk::separates(s[k + 1]);
    proof {
        if r {
            assert(ends_server(s@, k as int));
        }
        if on_network(s@) {
            let j = choose|j: int| #[trigger] ends_server(s@, j) && !disk::is_separator(s@[j + 1]);
            assert(!(j < k)) by {
                if j < k {
                    assert(!disk::is_separator(s@[j]));
                }
            }
            assert(!(k < j)) by {
                if k < j {
                    assert(!disk::is_separator(s@[k as int]));
                }
            }
        }
    }
    r
}

/// Decides whether a path is absolute.
pub fn is_absolute_path(path: &str) -> (r: bool)
    ensures
        r == absolute(path@),
{
    let cs = text::chars_of(path);
    let s = cs.as_slice();
    let n = s.len();
    assert(n == s@.len());
    if n >= 3 && (('A' <= s[0] && s[0] <= 'Z') || ('a' <= s[0] && s[0] <= 'z')) && s[1] == ':'
        && disk::separates(s[2]) {
        assert(disk::is_drive(s@.take(2)));
        return true;
    }
    if names_share(s) || text::begins_with(s, "\\\\?\\") {
        return true;
    }
    n >= 4 && disk::separates(s[0]) && disk::separates(s[1]) && s[2] == '.' && disk::separates(s[3])
}

/// The path at which a font file is looked for.
#[derive(Debug)]
pub enum FontPlace {
    /// At the path itself.
    Given(String),
    /// Relative to the directory of fonts.
    Below { fonts: String, file: String },
}

/// A place on the disk at which a file is looked for.
pub enum PlaceView {
    Given(Seq<char>),
    Below { fonts: Seq<char>, file: Seq<char> },
}

impl View for FontPlace {
    type V = PlaceView;

    open spec fn view(&self) -> PlaceView {
        match *self {
            FontPlace::Given(path) => PlaceView::Given(path@),
            FontPlace::Below { fonts, file } => PlaceView::Below { fonts: fonts@, file: file@ },
        }
    }
}

/// Where a font file is looked for: at its own path where that is absolute,
/// else in the fonts of the Windows directory.
pub open spec fn font_place_of(windows: Seq<char>, file: Seq<char>) -> PlaceView {
    if absolute(file) {
        PlaceView::Given(file)
    } else {
        PlaceView::Below { fonts: disk::joined(windows, "Fonts"@), file }
    }
}

/// Says where a font file is looked for, after its variables are filled in with
/// the given values.
pub fn font_place(windows: &str, file: &str, values: &Vec<Option<String>>) -> (r: FontPlace)
    ensures
        r@ == font_place_of(windows@, launch::expanded(file@, system::opt_texts(values@))),
{
    let path = launch::expand_env_vars(file, values);
    if is_absolute_path(path.as_str()) {
        FontPlace::Given(path)
    } else {
        FontPlace::Below { fonts: disk::join_path(windows, "Fonts"), file: path }
    }
}

// ---------------------------------------------------------------------------
// What is offered

/// The offer to delete a value of a key, or the key.
pub open spec fn registry_draft(
    name: Seq<char>,
    suggestion: Seq<char>,
    key_path: Seq<char>,
    value_name: Option<Seq<char>>,
    delete_key: bool,
    risk: RiskLevel,
    selected: bool,
) -> ScannedView {
    offer::draft(
        offer::label(ModuleKind::Registry, "注册表"@, name, suggestion, risk, selected),
        match value_name {
            Some(v) => key_path + "\\"@ + v,
            None => key_path,
        },
        0,
        Seq::empty(),
        Seq::empty(),
        ActionView::RegistryDelete { key_path, value_name, delete_key },
    )
}

/// Offers to delete a value of a key, or the key.
pub fn add_registry_issue(
    items: &mut Vec<ScannedItem>,
    counter: &mut usize,
    name: &str,
    suggestion: &str,
    key_path: &str,
    value_name: Option<String>,
    delete_key: bool,
    risk: RiskLevel,
    selected_by_default: bool,
)
    requires
        item::has_room(*old(counter), old(items)@.len(), 1),
    ensures
        item::extends(
            text::views(old(items)@),
            *old(counter) as int,
            text::views(final(items)@),
            *final(counter) as int,
            seq![
                registry_draft(
                    name@,
                    suggestion@,
                    key_path@,
                    item::opt_text(value_name),
                    delete_key,
                    risk,
                    selected_by_default,
                ),
            ],
        ),
        final(items)@.len() == old(items)@.len() + 1,
{
    let target = match &value_name {
        Some(value) => text::concat3(key_path, "\\", value.as_str()),
        None => key_path.to_owned(),
    };
    let none: Vec<String> = Vec::new();
    let no_files: Vec<item::FilePreview> = Vec::new();
    assert(text::views(none@) =~= Seq::empty());
    assert(text::views(no_files@) =~= Seq::empty());
    let public = item::make_item(
        ModuleKind::Registry,
        "注册表",
        name,
        target,
        suggestion,
        0,
        risk,
        selected_by_default,
        none,
        no_files,
    );
    let action = CleanAction::RegistryDelete {
        key_path: key_path.to_owned(),
        value_name,
        delete_key,
    };
    item::push_item(items, counter, public, action);
}

/// Whether the whole key goes, not one value of it.
pub open spec fn takes_key(kind: IssueKind) -> bool {
    kind == IssueKind::AppPath || kind == IssueKind::Uninstall || kind == IssueKind::FileExtension
}

/// The title of an issue.
pub open spec fn issue_name(kind: IssueKind) -> Seq<char> {
    match kind {
        IssueKind::SharedDll => "缺失的共享 DLL"@,
        IssueKind::Startup => "失效的开机启动项"@,
        IssueKind::AppPath => "无效的应用路径"@,
        IssueKind::Font => "无效的字体记录"@,
        IssueKind::Uninstall => "卸载软件残留路径"@,
        IssueKind::FileExtension => "未使用的文件扩展名"@,
    }
}

/// What is suggested for an issue.
pub open spec fn issue_suggestion(kind: IssueKind) -> Seq<char> {
    match kind {
        IssueKind::SharedDll => "删除指向不存在 DLL 的计数记录。"@,
        IssueKind::Startup => "删除指向不存在程序的启动项。"@,
        IssueKind::AppPath => "删除 App Paths 中指向不存在程序的子键。"@,
        IssueKind::Font => "删除指向不存在字体文件的记录。"@,
        IssueKind::Uninstall => "删除卸载列表中路径已失效的软件残留项。"@,
        IssueKind::FileExtension => "删除指向不存在文件类型类名的扩展名记录。"@,
    }
}

/// The risk of an issue: high where a whole key goes.
pub open spec fn issue_risk(kind: IssueKind) -> RiskLevel {
    if takes_key(kind) {
        RiskLevel::High
    } else {
        RiskLevel::Medium
    }
}

/// Whether an issue is selected from the start.
pub open spec fn issue_selected(kind: IssueKind) -> bool {
    kind == IssueKind::SharedDll || kind == IssueKind::Startup
}

/// The offer for one record with an issue. `parent` is the path of the key
/// that was looked at, `name` that of the value or subkey.
pub open spec fn issue_draft(kind: IssueKind, parent: Seq<char>, name: Seq<char>) -> ScannedView {
    registry_draft(
        issue_name(kind),
        issue_suggestion(kind),
        if takes_key(kind) {
            parent + "\\"@ + name
        } else {
            parent
        },
        if takes_key(kind) {
            None
        } else {
            Some(name)
        },
        takes_key(kind),
        issue_risk(kind),
        issue_selected(kind),
    )
}

/// The offers for the records of one key, in order.
pub open spec fn issue_drafts(
    kind: IssueKind,
    parent: Seq<char>,
    names: Seq<Seq<char>>,
) -> Seq<ScannedView> {
    names.map_values(|name: Seq<char>| issue_draft(kind, parent, name))
}

/// Offers what is to be done about one record.
fn add_issue(
    items: &mut Vec<ScannedItem>,
    counter: &mut usize,
    kind: IssueKind,
    parent: &str,
    name: &str,
)
    requires
        item::has_room(*old(counter), old(items)@.len(), 1),
    ensures
        item::extends(
            text::views(old(items)@),
            *old(counter) as int,
            text::views(final(items)@),
            *final(counter) as int,
            seq![issue_draft(kind, parent@, name@)],
        ),
        final(items)@.len() == old(items)@.len() + 1,
{
    let key = text::concat3(parent, "\\", name);
    match kind {
        IssueKind::SharedDll => add_registry_issue(
            items,
            counter,
            "缺失的共享 DLL",
            "删除指向不存在 DLL 的计数记录。",
            parent,
            Some(name.to_owned()),
            false,
            RiskLevel::Medium,
            true,
        ),
        IssueKind::Startup => add_registry_issue(
            items,
            counter,
            "失效的开机启动项",
            "删除指向不存在程序的启动项。",
            parent,
            Some(name.to_owned()),
            false,
            RiskLevel::Medium,
            true,
        ),
        IssueKind::AppPath => add_registry_issue(
            items,
            counter,
            "无效的应用路径",
            "删除 App Paths 中指向不存在程序的子键。",
            key.as_str(),
            None,
            true,
            RiskLevel::High,
            false,
        ),
        IssueKind::Font => add_registry_issue(
            items,
            counter,
            "无效的字体记录",
            "删除指向不存在字体文件的记录。",
            parent,
            Some(name.to_owned()),
            false,
            RiskLevel::Medium,
            false,
        ),
        IssueKind::Uninstall => add_registry_issue(
            items,
            counter,
            "卸载软件残留路径",
            "删除卸载列表中路径已失效的软件残留项。",
            key.as_str(),
            None,
            true,
            RiskLevel::High,
            false,
        ),
        IssueKind::FileExtension => add_registry_issue(
            items,
            counter,
            "未使用的文件扩展名",
            "删除指向不存在文件类型类名的扩展名记录。",
            key.as_str(),
            None,
            true,
            RiskLevel::High,
            false,
        ),
    }
}

/// Offers what is to be done about the records of one key.
fn add_issues(
    items: &mut Vec<ScannedItem>,
    counter: &mut usize,
    kind: IssueKind,
    parent: &str,
    names: &Vec<String>,
)
    requires
        item::has_room(*old(counter), old(items)@.len(), names@.len()),
    ensures
        item::extends(
            text::views(old(items)@),
            *old(counter) as int,
            text::views(final(items)@),
            *final(counter) as int,
            issue_drafts(kind, parent@, text::views(names@)),
        ),
        final(items)@.len() - old(items)@.len() == *final(counter) - *old(counter),
{
    let ghost v0 = text::views(items@);
    let ghost c0 = *counter;
    let ghost n0 = items@.len();
    let ghost all = issue_drafts(kind, parent@, text::views(names@));
    proof {
        assert(all.take(0) =~= Seq::empty());
        item::lemma_extends_nothing(v0, c0 as int);
    }
    for i in 0..names.len()
        invariant
            all == issue_drafts(kind, parent@, text::views(names@)),
            item::has_room(c0, n0, names@.len()),
            items@.len() - n0 == *counter - c0,
            item::extends(
                v0,
                c0 as int,
                text::views(items@),
                *counter as int,
                all.take(i as int),
            ),
    {
        let ghost v1 = text::views(items@);
        let ghost c1 = *counter as int;
        add_issue(items, counter, kind, parent, names[i].as_str());
        proof {
            let one = seq![issue_draft(kind, parent@, names@[i as int]@)];
            item::lemma_extends_twice(
                v0,
                c0 as int,
                v1,
                c1,
                text::views(items@),
                *counter as int,
                all.take(i as int),
                one,
            );
            assert(all.take(i + 1) =~= all.take(i as int) + one);
        }
    }
    assert(all.take(names@.len() as int) =~= all);
}

/// The offers for what was found in each key of an issue.
pub open spec fn issue_parts(kind: IssueKind, found: Seq<Seq<Seq<char>>>) -> Seq<
    Seq<ScannedView>,
> {
    Seq::new(
        targets_of(kind).len(),
        |i: int| issue_drafts(kind, target_path(targets_of(kind)[i]), found[i]),
    )
}

/// All offers for an issue, in order.
pub open spec fn found_drafts(kind: IssueKind, found: Seq<Seq<Seq<char>>>) -> Seq<ScannedView> {
    offer::chain(issue_parts(kind, found))
}

/// Lists of texts as spec values.
pub open spec fn name_lists(v: Seq<Vec<String>>) -> Seq<Seq<Seq<char>>> {
    v.map_values(|l: Vec<String>| text::views(l@))
}

/// Offers what is to be done about what was found in each key of an issue.
fn add_found(
    items: &mut Vec<ScannedItem>,
    counter: &mut usize,
    kind: IssueKind,
    found: &Vec<Vec<String>>,
)
    requires
        found@.len() == targets_of(kind).len(),
        item::has_room(
            *old(counter),
            old(items)@.len(),
            found_drafts(kind, name_lists(found@)).len(),
        ),
    ensures
        item::extends(
            text::views(old(items)@),
            *old(counter) as int,
            text::views(final(items)@),
            *final(counter) as int,
            found_drafts(kind, name_lists(found@)),
        ),
        final(items)@.len() - old(items)@.len() == *final(counter) - *old(counter),
{
    let ghost v0 = text::views(items@);
    let ghost c0 = *counter;
    let ghost n0 = items@.len();
    let targets = registry_targets(kind);
    let ghost parts = issue_parts(kind, name_lists(found@));
    let ghost total = offer::chain(parts).len();
    proof {
        assert(parts.take(0) =~= Seq::empty());
        item::lemma_extends_nothing(v0, c0 as int);
        assert(text::views(targets@).len() == targets@.len());
    }
    for i in 0..found.len()
        invariant
            found@.len() == targets@.len(),
            text::views(targets@) == targets_of(kind),
            parts == issue_parts(kind, name_lists(found@)),
            total == offer::chain(parts).len(),
            item::has_room(c0, n0, total),
            items@.len() - n0 == *counter - c0,
            item::extends(
                v0,
                c0 as int,
                text::views(items@),
                *counter as int,
                offer::chain(parts.take(i as int)),
            ),
    {
        let ghost v1 = text::views(items@);
        let ghost c1 = *counter as int;
        proof {
            assert(text::views(targets@).len() == targets@.len());
            offer::lemma_chain_step(parts, i as int);
            assert(text::views(targets@)[i as int] == targets@[i as int]@);
            assert(name_lists(found@)[i as int] == text::views(found@[i as int]@));
        }
        let parent = target_key_path(&targets[i]);
        add_issues(items, counter, kind, parent.as_str(), &found[i]);
        proof {
            item::lemma_extends_twice(
                v0,
                c0 as int,
                v1,
                c1,
                text::views(items@),
                *counter as int,
                offer::chain(parts.take(i as int)),
                parts[i as int],
            );
        }
    }
    assert(parts.take(found@.len() as int) =~= parts);
}

// ---------------------------------------------------------------------------
// The scan

/// The names of the records of a key that name a file that is not there.
pub open spec fn stale_values(kind: IssueKind, records: Seq<ValueView>) -> Seq<Seq<char>> {
    records.filter(|v: ValueView| value_stale(kind, v)).map_values(|v: ValueView| v.name)
}

/// The records of each key, where the key could be opened.
pub open spec fn value_surveys(s: Seq<Option<Vec<ValueRecord>>>) -> Seq<Option<Seq<ValueView>>> {
    s.map_values(
        |o: Option<Vec<ValueRecord>>|
            match o {
                Some(v) => Some(text::views(v@)),
                None => None,
            },
    )
}

/// The names of the stale records in each key; none where the key could not be
/// opened.
pub open spec fn value_finds(kind: IssueKind, survey: Seq<Option<Seq<ValueView>>>) -> Seq<
    Seq<Seq<char>>,
> {
    survey.map_values(
        |o: Option<Seq<ValueView>>|
            match o {
                Some(v) => stale_values(kind, v),
                None => Seq::empty(),
            },
    )
}

/// The offers for the stale records of each key.
pub open spec fn value_drafts(kind: IssueKind, survey: Seq<Option<Seq<ValueView>>>) -> Seq<
    ScannedView,
> {
    found_drafts(kind, value_finds(kind, survey))
}

/// Lists the names of the stale records of a key.
fn stale_value_names(kind: IssueKind, records: &Vec<ValueRecord>) -> (r: Vec<String>)
    ensures
        text::views(r@) == stale_values(kind, text::views(records@)),
{
    let ghost keep = |v: ValueView| value_stale(kind, v);
    let ghost name = |v: ValueView| v.name;
    let ghost all = text::views(records@);
    let mut r: Vec<String> = Vec::new();
    proof {
        reveal(Seq::filter);
        assert(all.take(0).filter(keep).map_values(name) =~= Seq::empty());
    }
    for i in 0..records.len()
        invariant
            keep == (|v: ValueView| value_stale(kind, v)),
            name == (|v: ValueView| v.name),
            all == text::views(records@),
            text::views(r@) == all.take(i as int).filter(keep).map_values(name),
    {
        let ghost before = r@;
        proof {
            reveal(Seq::filter);
            assert(all.take(i + 1).drop_last() =~= all.take(i as int));
            assert(all.take(i + 1).last() == records@[i as int]@);
        }
        if is_value_stale(kind, &records[i]) {
            let n = records[i].name.clone();
            r.push(n);
            proof {
                text::lemma_views_push(before, n);
                assert(text::views(r@) =~= all.take(i + 1).filter(keep).map_values(name));
            }
        }
    }
    assert(all.take(records@.len() as int) =~= all);
    r
}

/// Lists the names of the stale records of each key.
fn stale_value_lists(kind: IssueKind, survey: &Vec<Option<Vec<ValueRecord>>>) -> (r: Vec<
    Vec<String>,
>)
    ensures
        name_lists(r@) == value_finds(kind, value_surveys(survey@)),
        r@.len() == survey@.len(),
{
    let ghost all = value_finds(kind, value_surveys(survey@));
    let mut r: Vec<Vec<String>> = Vec::new();
    for i in 0..survey.len()
        invariant
            all == value_finds(kind, value_surveys(survey@)),
            r@.len() == i,
            name_lists(r@) == all.take(i as int),
    {
        let ghost before = r@;
        let names = match &survey[i] {
            Some(records) => stale_value_names(kind, records),
            None => Vec::new(),
        };
        assert(text::views(names@) =~= all[i as int]);
        r.push(names);
        assert(name_lists(r@) =~= name_lists(before).push(text::views(names@)));
        assert(all.take(i + 1) =~= all.take(i as int).push(all[i as int]));
    }
    assert(all.take(survey@.len() as int) =~= all);
    r
}

/// Looks for libraries that are counted as shared and are not there.
pub fn scan_registry_shared_dlls(
    items: &mut Vec<ScannedItem>,
    counter: &mut usize,
    survey: &Vec<Option<Vec<ValueRecord>>>,
)
    requires
        survey@.len() == targets_of(IssueKind::SharedDll).len(),
        item::has_room(
            *old(counter),
            old(items)@.len(),
            value_drafts(IssueKind::SharedDll, value_surveys(survey@)).len(),
        ),
    ensures
        item::extends(
            text::views(old(items)@),
            *old(counter) as int,
            text::views(final(items)@),
            *final(counter) as int,
            value_drafts(IssueKind::SharedDll, value_surveys(survey@)),
        ),
        final(items)@.len() - old(items)@.len() == *final(counter) - *old(counter),
{
    let found = stale_value_lists(IssueKind::SharedDll, survey);
    add_found(items, counter, IssueKind::SharedDll, &found);
}

/// Looks for startup entries whose program is not there.
pub fn scan_registry_startup(
    items: &mut Vec<ScannedItem>,
    counter: &mut usize,
    survey: &Vec<Option<Vec<ValueRecord>>>,
)
    requires
        survey@.len() == targets_of(IssueKind::Startup).len(),
        item::has_room(
            *old(counter),
            old(items)@.len(),
            value_drafts(IssueKind::Startup, value_surveys(survey@)).len(),
        ),
    ensures
        item::extends(
            text::views(old(items)@),
            *old(counter) as int,
            text::views(final(items)@),
            *final(counter) as int,
            value_drafts(IssueKind::Startup, value_surveys(survey@)),
        ),
        final(items)@.len() - old(items)@.len() == *final(counter) - *old(counter),
{
    let found = stale_value_lists(IssueKind::Startup, survey);
    add_found(items, counter, IssueKind::Startup, &found);
}

/// Looks for application paths whose program is not there.
pub fn scan_registry_app_paths(
    items: &mut Vec<ScannedItem>,
    counter: &mut usize,
    survey: &Vec<Option<Vec<ValueRecord>>>,
)
    requires
        survey@.len() == targets_of(IssueKind::AppPath).len(),
        item::has_room(
            *old(counter),
            old(items)@.len(),
            value_drafts(IssueKind::AppPath, value_surveys(survey@)).len(),
        ),
    ensures
        item::extends(
            text::views(old(items)@),
            *old(counter) as int,
            text::views(final(items)@),
            *final(counter) as int,
            value_drafts(IssueKind::AppPath, value_surveys(survey@)),
        ),
        final(items)@.len() - old(items)@.len() == *final(counter) - *old(counter),
{
    let found = stale_value_lists(IssueKind::AppPath, survey);
    add_found(items, counter, IssueKind::AppPath, &found);
}

/// Looks for fonts whose file is not there.
pub fn scan_registry_fonts(
    items: &mut Vec<ScannedItem>,
    counter: &mut usize,
    survey: &Vec<Option<Vec<ValueRecord>>>,
)
    requires
        survey@.len() == targets_of(IssueKind::Font).len(),
        item::has_room(
            *old(counter),
            old(items)@.len(),
            value_drafts(IssueKind::Font, value_surveys(survey@)).len(),
        ),
    ensures
        item::extends(
            text::views(old(items)@),
            *old(counter) as int,
            text::views(final(items)@),
            *final(counter) as int,
            value_drafts(IssueKind::Font, value_surveys(survey@)),
        ),
        final(items)@.len() - old(items)@.len() == *final(counter) - *old(counter),
{
    let found = stale_value_lists(IssueKind::Font, survey);
    add_found(items, counter, IssueKind::Font, &found);
}

/// The names of the entries of a key that are left over.
pub open spec fn stale_uninstalls(records: Seq<UninstallView>) -> Seq<Seq<char>> {
    records.filter(|u: UninstallView| uninstall_stale(u)).map_values(|u: UninstallView| u.name)
}

/// The entries of each key, where the key could be opened.
pub open spec fn uninstall_surveys(s: Seq<Option<Vec<UninstallRecord>>>) -> Seq<
    Option<Seq<UninstallView>>,
> {
    s.map_values(
        |o: Option<Vec<UninstallRecord>>|
            match o {
                Some(v) => Some(text::views(v@)),
                None => None,
            },
    )
}

/// The names of the entries in each key that are left over; none where the key
/// could not be opened.
pub open spec fn uninstall_finds(survey: Seq<Option<Seq<UninstallView>>>) -> Seq<Seq<Seq<char>>> {
    survey.map_values(
        |o: Option<Seq<UninstallView>>|
            match o {
                Some(v) => stale_uninstalls(v),
                None => Seq::empty(),
            },
    )
}

/// The offers for the entries that are left over.
pub open spec fn uninstall_drafts(survey: Seq<Option<Seq<UninstallView>>>) -> Seq<ScannedView> {
    found_drafts(IssueKind::Uninstall, uninstall_finds(survey))
}

/// Lists the names of the entries that are left over.
fn stale_uninstall_names(records: &Vec<UninstallRecord>) -> (r: Vec<String>)
    ensures
        text::views(r@) == stale_uninstalls(text::views(records@)),
{
    let ghost keep = |u: UninstallView| uninstall_stale(u);
    let ghost name = |u: UninstallView| u.name;
    let ghost all = text::views(records@);
    let mut r: Vec<String> = Vec::new();
    proof {
        reveal(Seq::filter);
        assert(all.take(0).filter(keep).map_values(name) =~= Seq::empty());
    }
    for i in 0..records.len()
        invariant
            keep == (|u: UninstallView| uninstall_stale(u)),
            name == (|u: UninstallView| u.name),
            all == text::views(records@),
            text::views(r@) == all.take(i as int).filter(keep).map_values(name),
    {
        let ghost before = r@;
        proof {
            reveal(Seq::filter);
            assert(all.take(i + 1).drop_last() =~= all.take(i as int));
            assert(all.take(i + 1).last() == records@[i as int]@);
        }
        if is_uninstall_stale(&records[i]) {
            let n = records[i].name.clone();
            r.push(n);
            proof {
                text::lemma_views_push(before, n);
                assert(text::views(r@) =~= all.take(i + 1).filter(keep).map_values(name));
            }
        }
    }
    assert(all.take(records@.len() as int) =~= all);
    r
}

/// Looks for entries of the list of installed programs that are left over.
pub fn scan_registry_uninstall(
    items: &mut Vec<ScannedItem>,
    counter: &mut usize,
    survey: &Vec<Option<Vec<UninstallRecord>>>,
)
    requires
        survey@.len() == targets_of(IssueKind::Uninstall).len(),
        item::has_room(
            *old(counter),
            old(items)@.len(),
            uninstall_drafts(uninstall_surveys(survey@)).len(),
        ),
    ensures
        item::extends(
            text::views(old(items)@),
            *old(counter) as int,
            text::views(final(items)@),
            *final(counter) as int,
            uninstall_drafts(uninstall_surveys(survey@)),
        ),
        final(items)@.len() - old(items)@.len() == *final(counter) - *old(counter),
{
    let ghost all = uninstall_finds(uninstall_surveys(survey@));
    let mut found: Vec<Vec<String>> = Vec::new();
    for i in 0..survey.len()
        invariant
            all == uninstall_finds(uninstall_surveys(survey@)),
            found@.len() == i,
            name_lists(found@) == all.take(i as int),
    {
        let ghost before = found@;
        let names = match &survey[i] {
            Some(records) => stale_uninstall_names(records),
            None => Vec::new(),
        };
        assert(text::views(names@) =~= all[i as int]);
        found.push(names);
        assert(name_lists(found@) =~= name_lists(before).push(text::views(names@)));
        assert(all.take(i + 1) =~= all.take(i as int).push(all[i as int]));
    }
    assert(all.take(survey@.len() as int) =~= all);
    add_found(items, counter, IssueKind::Uninstall, &found);
}

/// The names of the file extensions whose class is not there.
pub open spec fn stale_extensions(records: Seq<ExtensionView>) -> Seq<Seq<char>> {
    records.filter(|e: ExtensionView| extension_stale(e)).map_values(|e: ExtensionView| e.name)
}

/// The offers for the file extensions whose class is not there.
pub open spec fn extension_drafts(records: Seq<ExtensionView>) -> Seq<ScannedView> {
    found_drafts(IssueKind::FileExtension, seq![stale_extensions(records)])
}

/// Looks for file extensions whose class is not there.
pub fn scan_registry_file_extensions(
    items: &mut Vec<ScannedItem>,
    counter: &mut usize,
    records: &Vec<ExtensionRecord>,
)
    requires
        item::has_room(
            *old(counter),
            old(items)@.len(),
            extension_drafts(text::views(records@)).len(),
        ),
    ensures
        item::extends(
            text::views(old(items)@),
            *old(counter) as int,
            text::views(final(items)@),
            *final(counter) as int,
            extension_drafts(text::views(records@)),
        ),
        final(items)@.len() - old(items)@.len() == *final(counter) - *old(counter),
{
    let ghost keep = |e: ExtensionView| extension_stale(e);
    let ghost name = |e: ExtensionView| e.name;
    let ghost all = text::views(records@);
    let mut names: Vec<String> = Vec::new();
    proof {
        reveal(Seq::filter);
        assert(all.take(0).filter(keep).map_values(name) =~= Seq::empty());
    }
    for i in 0..records.len()
        invariant
            keep == (|e: ExtensionView| extension_stale(e)),
            name == (|e: ExtensionView| e.name),
            all == text::views(records@),
            text::views(names@) == all.take(i as int).filter(keep).map_values(name),
    {
        let ghost before = names@;
        proof {
            reveal(Seq::filter);
            assert(all.take(i + 1).drop_last() =~= all.take(i as int));
            assert(all.take(i + 1).last() == records@[i as int]@);
        }
        if is_extension_stale(&records[i]) {
            let n = records[i].name.clone();
            names.push(n);
            proof {
                text::lemma_views_push(before, n);
                assert(text::views(names@) =~= all.take(i + 1).filter(keep).map_values(name));
            }
        }
    }
    assert(all.take(records@.len() as int) =~= all);
    let found = vec![names];
    assert(name_lists(found@) =~= seq![stale_extensions(all)]);
    add_found(items, counter, IssueKind::FileExtension, &found);
}

/// What is known of the registry. Each list of keys has one entry for each key
/// of [`registry_targets`], `None` where the key could not be opened.
#[derive(Debug)]
pub struct RegistrySurvey {
    pub shared_dlls: Vec<Option<Vec<ValueRecord>>>,
    pub startup: Vec<Option<Vec<ValueRecord>>>,
    pub app_paths: Vec<Option<Vec<ValueRecord>>>,
    pub fonts: Vec<Option<Vec<ValueRecord>>>,
    pub uninstall: Vec<Option<Vec<UninstallRecord>>>,
    pub extensions: Vec<ExtensionRecord>,
}

/// The contents of a [`RegistrySurvey`].
pub struct RegistryView {
    pub shared_dlls: Seq<Option<Seq<ValueView>>>,
    pub startup: Seq<Option<Seq<ValueView>>>,
    pub app_paths: Seq<Option<Seq<ValueView>>>,
    pub fonts: Seq<Option<Seq<ValueView>>>,
    pub uninstall: Seq<Option<Seq<UninstallView>>>,
    pub extensions: Seq<ExtensionView>,
}

impl View for RegistrySurvey {
    type V = RegistryView;

    open spec fn view(&self) -> RegistryView {
        RegistryView {
            shared_dlls: value_surveys(self.shared_dlls@),
            startup: value_surveys(self.startup@),
            app_paths: value_surveys(self.app_paths@),
            fonts: value_surveys(self.fonts@),
            uninstall: uninstall_surveys(self.uninstall@),
            extensions: text::views(self.extensions@),
        }
    }
}

/// Whether every key has its entry.
pub open spec fn covers_targets(r: RegistryView) -> bool {
    &&& r.shared_dlls.len() == targets_of(IssueKind::SharedDll).len()
    &&& r.startup.len() == targets_of(IssueKind::Startup).len()
    &&& r.app_paths.len() == targets_of(IssueKind::AppPath).len()
    &&& r.fonts.len() == targets_of(IssueKind::Font).len()
    &&& r.uninstall.len() == targets_of(IssueKind::Uninstall).len()
}

/// Everything that a scan of the registry offers, in order.
pub open spec fn registry_drafts(r: RegistryView) -> Seq<ScannedView> {
    value_drafts(IssueKind::SharedDll, r.shared_dlls) + value_drafts(IssueKind::Startup, r.startup)
        + value_drafts(IssueKind::AppPath, r.app_paths) + value_drafts(IssueKind::Font, r.fonts)
        + uninstall_drafts(r.uninstall) + extension_drafts(r.extensions)
}

/// Scans the registry.
pub fn scan_registry_items(
    items: &mut Vec<ScannedItem>,
    counter: &mut usize,
    survey: &RegistrySurvey,
)
    requires
        covers_targets(survey@),
        item::has_room(*old(counter), old(items)@.len(), registry_drafts(survey@).len()),
    ensures
        item::extends(
            text::views(old(items)@),
            *old(counter) as int,
            text::views(final(items)@),
            *final(counter) as int,
            registry_drafts(survey@),
        ),
        final(items)@.len() - old(items)@.len() == *final(counter) - *old(counter),
{
    let ghost v0 = text::views(items@);
    let ghost c0 = *counter as int;
    let ghost dlls = value_drafts(IssueKind::SharedDll, survey@.shared_dlls);
    let ghost startup = value_drafts(IssueKind::Startup, survey@.startup);
    let ghost paths = value_drafts(IssueKind::AppPath, survey@.app_paths);
    let ghost fonts = value_drafts(IssueKind::Font, survey@.fonts);
    let ghost programs = uninstall_drafts(survey@.uninstall);
    let ghost extensions = extension_drafts(survey@.extensions);
    scan_registry_shared_dlls(items, counter, &survey.shared_dlls);
    let ghost v1 = text::views(items@);
    let ghost c1 = *counter as int;
    scan_registry_startup(items, counter, &survey.startup);
    let ghost v2 = text::views(items@);
    let ghost c2 = *counter as int;
    scan_registry_app_paths(items, counter, &survey.app_paths);
    let ghost v3 = text::views(items@);
    let ghost c3 = *counter as int;
    scan_registry_fonts(items, counter, &survey.fonts);
    let ghost v4 = text::views(items@);
    let ghost c4 = *counter as int;
    scan_registry_uninstall(items, counter, &survey.uninstall);
    let ghost v5 = text::views(items@);
    let ghost c5 = *counter as int;
    scan_registry_file_extensions(items, counter, &survey.extensions);
    proof {
        let v6 = text::views(items@);
        let c6 = *counter as int;
        item::lemma_extends_twice(v0, c0, v1, c1, v2, c2, dlls, startup);
        item::lemma_extends_twice(v0, c0, v2, c2, v3, c3, dlls + startup, paths);
        item::lemma_extends_twice(v0, c0, v3, c3, v4, c4, dlls + startup + paths, fonts);
        item::lemma_extends_twice(
            v0,
            c0,
            v4,
            c4,
            v5,
            c5,
            dlls + startup + paths + fonts,
            programs,
        );
        item::lemma_extends_twice(
            v0,
            c0,
            v5,
            c5,
            v6,
            c6,
            dlls + startup + paths + fonts + programs,
            extensions,
        );
    }
}

/// The offers for an issue select nothing at high risk from the start.
proof fn lemma_found_defaults(kind: IssueKind, found: Seq<Seq<Seq<char>>>)
    ensures
        offer::defaults_follow_risk(found_drafts(kind, found)),
{
    let parts = issue_parts(kind, found);
    assert forall|i: int| 0 <= i < parts.len() implies offer::defaults_follow_risk(#[trigger] parts[i]) by {}
    offer::lemma_defaults_chain(parts);
}

/// A scan of the registry selects what is safe and nothing at high risk.
pub proof fn law_registry_defaults_follow_risk(r: RegistryView)
    ensures
        offer::defaults_follow_risk(registry_drafts(r)),
{
    let dlls = value_drafts(IssueKind::SharedDll, r.shared_dlls);
    let startup = value_drafts(IssueKind::Startup, r.startup);
    let paths = value_drafts(IssueKind::AppPath, r.app_paths);
    let fonts = value_drafts(IssueKind::Font, r.fonts);
    let programs = uninstall_drafts(r.uninstall);
    let extensions = extension_drafts(r.extensions);
    lemma_found_defaults(IssueKind::SharedDll, value_finds(IssueKind::SharedDll, r.shared_dlls));
    lemma_found_defaults(IssueKind::Startup, value_finds(IssueKind::Startup, r.startup));
    lemma_found_defaults(IssueKind::AppPath, value_finds(IssueKind::AppPath, r.app_paths));
    lemma_found_defaults(IssueKind::Font, value_finds(IssueKind::Font, r.fonts));
    lemma_found_defaults(IssueKind::Uninstall, uninstall_finds(r.uninstall));
    lemma_found_defaults(IssueKind::FileExtension, seq![stale_extensions(r.extensions)]);
    offer::lemma_defaults_add(dlls, startup);
    offer::lemma_defaults_add(dlls + startup, paths);
    offer::lemma_defaults_add(dlls + startup + paths, fonts);
    offer::lemma_defaults_add(dlls + startup + paths + fonts, programs);
    offer::lemma_defaults_add(dlls + startup + paths + fonts + programs, extensions);
}

/// Whether no record names a file that is not there.
pub open spec fn values_intact(kind: IssueKind, survey: Seq<Option<Seq<ValueView>>>) -> bool {
    forall|i: int, j: int|
        0 <= i < survey.len() && survey[i] is Some && 0 <= j < survey[i]->Some_0.len()
            ==> !value_stale(kind, #[trigger] survey[i]->Some_0[j])
}

/// Whether nothing in the registry points at what is not there.
pub open spec fn is_intact(r: RegistryView) -> bool {
    &&& values_intact(IssueKind::SharedDll, r.shared_dlls)
    &&& values_intact(IssueKind::Startup, r.startup)
    &&& values_intact(IssueKind::AppPath, r.app_paths)
    &&& values_intact(IssueKind::Font, r.fonts)
    &&& forall|i: int, j: int|
        0 <= i < r.uninstall.len() && r.uninstall[i] is Some && 0 <= j
            < r.uninstall[i]->Some_0.len() ==> !uninstall_stale(
            #[trigger] r.uninstall[i]->Some_0[j],
        )
    &&& forall|j: int|
        0 <= j < r.extensions.len() ==> !extension_stale(#[trigger] r.extensions[j])
}

/// Lists without an offer are none together.
proof fn lemma_chain_nothing(parts: Seq<Seq<ScannedView>>)
    requires
        forall|i: int| 0 <= i < parts.len() ==> (#[trigger] parts[i]).len() == 0,
    ensures
        offer::chain(parts).len() == 0,
    decreases parts.len(),
{
    if parts.len() > 0 {
        assert(parts[parts.len() - 1].len() == 0);
        lemma_chain_nothing(parts.drop_last());
    }
}

/// Keys without a stale record lead to no offer.
proof fn lemma_values_intact(kind: IssueKind, survey: Seq<Option<Seq<ValueView>>>)
    requires
        survey.len() == targets_of(kind).len(),
        values_intact(kind, survey),
    ensures
        value_drafts(kind, survey).len() == 0,
{
    let parts = issue_parts(kind, value_finds(kind, survey));
    let keep = |v: ValueView| value_stale(kind, v);
    assert forall|i: int| 0 <= i < parts.len() implies (#[trigger] parts[i]).len() == 0 by {
        if let Some(records) = survey[i] {
            assert forall|j: int| 0 <= j < records.len() implies !keep(#[trigger] records[j]) by {
                assert(!value_stale(kind, survey[i]->Some_0[j]));
            }
            item::lemma_filter_none(records, keep);
        }
    }
    lemma_chain_nothing(parts);
}

/// A scan of a registry in which nothing points at what is not there offers to
/// delete nothing.
pub proof fn law_intact_registry_is_left_alone(r: RegistryView)
    requires
        covers_targets(r),
        is_intact(r),
    ensures
        registry_drafts(r).len() == 0,
{
    lemma_values_intact(IssueKind::SharedDll, r.shared_dlls);
    lemma_values_intact(IssueKind::Startup, r.startup);
    lemma_values_intact(IssueKind::AppPath, r.app_paths);
    lemma_values_intact(IssueKind::Font, r.fonts);
    let parts = issue_parts(IssueKind::Uninstall, uninstall_finds(r.uninstall));
    let keep = |u: UninstallView| uninstall_stale(u);
    assert forall|i: int| 0 <= i < parts.len() implies (#[trigger] parts[i]).len() == 0 by {
        if let Some(records) = r.uninstall[i] {
            assert forall|j: int| 0 <= j < records.len() implies !keep(#[trigger] records[j]) by {
                assert(!uninstall_stale(r.uninstall[i]->Some_0[j]));
            }
            item::lemma_filter_none(records, keep);
        }
    }
    lemma_chain_nothing(parts);
    let names = seq![stale_extensions(r.extensions)];
    let last = issue_parts(IssueKind::FileExtension, names);
    item::lemma_filter_none(r.extensions, |e: ExtensionView| extension_stale(e));
    assert forall|i: int| 0 <= i < last.len() implies (#[trigger] last[i]).len() == 0 by {
        assert(names[i] == stale_extensions(r.extensions));
    }
    lemma_chain_nothing(last);
}

// ---------------------------------------------------------------------------
// Offers and what they stand for

/// Every offer of an issue stands for a name that was found in one of its keys.
proof fn lemma_found_at(kind: IssueKind, found: Seq<Seq<Seq<char>>>, n: int)
    requires
        0 <= n < found_drafts(kind, found).len(),
    ensures
        exists|i: int, j: int|
            0 <= i < targets_of(kind).len() && 0 <= j < found[i].len() && found_drafts(
                kind,
                found,
            )[n] == issue_draft(kind, target_path(targets_of(kind)[i]), #[trigger] found[i][j]),
{
    let parts = issue_parts(kind, found);
    offer::lemma_chain_at(parts, n);
    let (i, j) = choose|i: int, j: int|
        0 <= i < parts.len() && 0 <= j < parts[i].len() && offer::chain(parts)[n]
            == #[trigger] parts[i][j];
    assert(parts[i][j] == issue_draft(kind, target_path(targets_of(kind)[i]), found[i][j]));
}

/// Whether an offer stands for a stale record of the key at `i`.
pub open spec fn stands_for_value(
    kind: IssueKind,
    survey: Seq<Option<Seq<ValueView>>>,
    i: int,
    record: ValueView,
    d: ScannedView,
) -> bool {
    &&& 0 <= i < targets_of(kind).len()
    &&& survey[i] matches Some(records) && records.contains(record)
    &&& value_stale(kind, record)
    &&& d == issue_draft(kind, target_path(targets_of(kind)[i]), record.name)
}

/// Every offer about a shared library, a startup entry, an application path or
/// a font deletes a stale record that was found in one of the keys of its kind,
/// and nothing else.
pub proof fn law_value_offers_stand_for_stale_records(
    kind: IssueKind,
    survey: Seq<Option<Seq<ValueView>>>,
    n: int,
)
    requires
        survey.len() == targets_of(kind).len(),
        0 <= n < value_drafts(kind, survey).len(),
    ensures
        exists|i: int, record: ValueView|
            stands_for_value(kind, survey, i, record, value_drafts(kind, survey)[n]),
{
    let found = value_finds(kind, survey);
    lemma_found_at(kind, found, n);
    let d = value_drafts(kind, survey)[n];
    let (i, j) = choose|i: int, j: int|
        0 <= i < targets_of(kind).len() && 0 <= j < found[i].len() && d == issue_draft(
            kind,
            target_path(targets_of(kind)[i]),
            #[trigger] found[i][j],
        );
    if let Some(records) = survey[i] {
        let keep = |v: ValueView| value_stale(kind, v);
        let kept = records.filter(keep);
        let record = kept[j];
        assert(kept.contains(record));
        records.lemma_filter_pred(keep, j);
        records.lemma_filter_contains_rev(keep, record);
        assert(found[i][j] == record.name);
        assert(stands_for_value(kind, survey, i, record, d));
    }
}

/// Whether an offer stands for an entry of the key at `i` that is left over.
pub open spec fn stands_for_program(
    survey: Seq<Option<Seq<UninstallView>>>,
    i: int,
    record: UninstallView,
    d: ScannedView,
) -> bool {
    &&& 0 <= i < targets_of(IssueKind::Uninstall).len()
    &&& survey[i] matches Some(records) && records.contains(record)
    &&& uninstall_stale(record)
    &&& d == issue_draft(
        IssueKind::Uninstall,
        target_path(targets_of(IssueKind::Uninstall)[i]),
        record.name,
    )
}

/// Every offer about installed programs deletes an entry that is left over in
/// one of their keys, and nothing else.
pub proof fn law_uninstall_offers_stand_for_stale_entries(
    survey: Seq<Option<Seq<UninstallView>>>,
    n: int,
)
    requires
        survey.len() == targets_of(IssueKind::Uninstall).len(),
        0 <= n < uninstall_drafts(survey).len(),
    ensures
        exists|i: int, record: UninstallView|
            stands_for_program(survey, i, record, uninstall_drafts(survey)[n]),
{
    let found = uninstall_finds(survey);
    lemma_found_at(IssueKind::Uninstall, found, n);
    let d = uninstall_drafts(survey)[n];
    let (i, j) = choose|i: int, j: int|
        0 <= i < targets_of(IssueKind::Uninstall).len() && 0 <= j < found[i].len() && d
            == issue_draft(
            IssueKind::Uninstall,
            target_path(targets_of(IssueKind::Uninstall)[i]),
            #[trigger] found[i][j],
        );
    if let Some(records) = survey[i] {
        let keep = |u: UninstallView| uninstall_stale(u);
        let kept = records.filter(keep);
        let record = kept[j];
        assert(kept.contains(record));
        records.lemma_filter_pred(keep, j);
        records.lemma_filter_contains_rev(keep, record);
        assert(found[i][j] == record.name);
        assert(stands_for_program(survey, i, record, d));
    }
}

/// Every offer about file extensions deletes an extension whose class is not
/// there, and nothing else.
pub proof fn law_extension_offers_stand_for_stale_extensions(
    records: Seq<ExtensionView>,
    n: int,
)
    requires
        0 <= n < extension_drafts(records).len(),
    ensures
        exists|record: ExtensionView| #[trigger]
            records.contains(record) && extension_stale(record) && extension_drafts(records)[n]
                == issue_draft(
                IssueKind::FileExtension,
                target_path(targets_of(IssueKind::FileExtension)[0]),
                record.name,
            ),
{
    let found = seq![stale_extensions(records)];
    lemma_found_at(IssueKind::FileExtension, found, n);
    let d = extension_drafts(records)[n];
    let (i, j) = choose|i: int, j: int|
        0 <= i < targets_of(IssueKind::FileExtension).len() && 0 <= j < found[i].len() && d
            == issue_draft(
            IssueKind::FileExtension,
            target_path(targets_of(IssueKind::FileExtension)[i]),
            #[trigger] found[i][j],
        );
    let keep = |e: ExtensionView| extension_stale(e);
    let kept = records.filter(keep);
    let record = kept[j];
    assert(kept.contains(record));
    records.lemma_filter_pred(keep, j);
    records.lemma_filter_contains_rev(keep, record);
    assert(found[i][j] == record.name);
}

/// The place at which the file of a pointer is looked for; none where the
/// pointer is a command that names no file.
pub open spec fn place_of(kind: IssueKind, windows: Seq<char>, p: PointerView) -> Option<
    PlaceView,
> {
    match kind {
        IssueKind::Startup => command_place(p),
        IssueKind::AppPath => command_place(p),
        IssueKind::Font => Some(font_place_of(windows, pointed(p))),
        _ => Some(PlaceView::Given(pointed(p))),
    }
}

/// The place at which the program of a command is looked for.
pub open spec fn command_place(p: PointerView) -> Option<PlaceView> {
    match launch::command_target(pointed(p)) {
        Some(path) => Some(PlaceView::Given(path)),
        None => None,
    }
}

/// Whether the pointer tells of the planned place what is so on the disk.
pub open spec fn tells_truth(
    place: Option<PlaceView>,
    p: PointerView,
    on_disk: spec_fn(PlaceView) -> bool,
) -> bool {
    place matches Some(at) ==> p.present == on_disk(at)
}

/// Where a survey looked at the planned places, a record is stale exactly where
/// there is a planned place and nothing on the disk at it.
pub proof fn law_stale_records_point_at_nothing(
    kind: IssueKind,
    windows: Seq<char>,
    v: ValueView,
    on_disk: spec_fn(PlaceView) -> bool,
)
    requires
        v.data matches Some(p) ==> tells_truth(place_of(kind, windows, p), p, on_disk),
    ensures
        value_stale(kind, v) <==> (v.data matches Some(p) && (place_of(
            kind,
            windows,
            p,
        ) matches Some(at) && !on_disk(at))),
{
}

/// Where a survey looked at the planned places, an entry is left over exactly
/// where it shows a name, names a directory that is not on the disk, and is
/// uninstalled by a program that is not on the disk, the installer service
/// aside.
pub proof fn law_stale_entries_point_at_nothing(
    u: UninstallView,
    on_disk: spec_fn(PlaceView) -> bool,
)
    requires
        u.install_location matches Some(p) ==> tells_truth(
            Some(PlaceView::Given(pointed(p))),
            p,
            on_disk,
        ),
        u.uninstall matches Some(p) ==> tells_truth(command_place(p), p, on_disk),
    ensures
        uninstall_stale(u) <==> {
            &&& has_display_name(u)
            &&& u.install_location matches Some(p) && pointed(p).len() > 0 && !on_disk(
                PlaceView::Given(pointed(p)),
            )
            &&& u.uninstall matches Some(q) && !text::contains(text::lower(q.text), "msiexec"@) && (
            command_place(q) matches Some(at) && !on_disk(at))
        },
{
}

/// A scan of the registry acts on no path of the disk.
pub proof fn lemma_registry_touches_no_path(r: RegistryView)
    ensures
        offer::within(Seq::empty(), registry_drafts(r)),
{
    let none = Seq::empty();
    let dlls = value_drafts(IssueKind::SharedDll, r.shared_dlls);
    let startup = value_drafts(IssueKind::Startup, r.startup);
    let paths = value_drafts(IssueKind::AppPath, r.app_paths);
    let fonts = value_drafts(IssueKind::Font, r.fonts);
    let programs = uninstall_drafts(r.uninstall);
    let extensions = extension_drafts(r.extensions);
    lemma_found_touches_no_path(
        IssueKind::SharedDll,
        value_finds(IssueKind::SharedDll, r.shared_dlls),
    );
    lemma_found_touches_no_path(IssueKind::Startup, value_finds(IssueKind::Startup, r.startup));
    lemma_found_touches_no_path(IssueKind::AppPath, value_finds(IssueKind::AppPath, r.app_paths));
    lemma_found_touches_no_path(IssueKind::Font, value_finds(IssueKind::Font, r.fonts));
    lemma_found_touches_no_path(IssueKind::Uninstall, uninstall_finds(r.uninstall));
    lemma_found_touches_no_path(IssueKind::FileExtension, seq![stale_extensions(r.extensions)]);
    offer::lemma_within_add(none, dlls, startup);
    offer::lemma_within_add(none, dlls + startup, paths);
    offer::lemma_within_add(none, dlls + startup + paths, fonts);
    offer::lemma_within_add(none, dlls + startup + paths + fonts, programs);
    offer::lemma_within_add(none, dlls + startup + paths + fonts + programs, extensions);
}

/// The offers for an issue act on no path of the disk.
proof fn lemma_found_touches_no_path(kind: IssueKind, found: Seq<Seq<Seq<char>>>)
    ensures
        offer::within(Seq::empty(), found_drafts(kind, found)),
{
    let parts = issue_parts(kind, found);
    assert forall|i: int| 0 <= i < parts.len() implies offer::within(
        Seq::empty(),
        #[trigger] parts[i],
    ) by {}
    offer::lemma_within_chain(Seq::empty(), parts);
}

// ---------------------------------------------------------------------------
// What the scan finds and what it does about it

/// What was found in any key of an issue is offered.
proof fn lemma_found_is_offered(kind: IssueKind, found: Seq<Seq<Seq<char>>>, i: int, j: int)
    requires
        0 <= i < targets_of(kind).len(),
        0 <= j < found[i].len(),
    ensures
        found_drafts(kind, found).contains(
            issue_draft(kind, target_path(targets_of(kind)[i]), found[i][j]),
        ),
{
    let parts = issue_parts(kind, found);
    offer::lemma_includes_chain(parts, i);
    assert(parts[i][j] == issue_draft(kind, target_path(targets_of(kind)[i]), found[i][j]));
}

/// Every stale record of every key of its kind is offered.
pub proof fn law_every_stale_record_is_offered(
    kind: IssueKind,
    survey: Seq<Option<Seq<ValueView>>>,
    i: int,
    j: int,
)
    requires
        survey.len() == targets_of(kind).len(),
        0 <= i < survey.len(),
        survey[i] is Some,
        0 <= j < survey[i]->Some_0.len(),
        value_stale(kind, survey[i]->Some_0[j]),
    ensures
        value_drafts(kind, survey).contains(
            issue_draft(kind, target_path(targets_of(kind)[i]), survey[i]->Some_0[j].name),
        ),
{
    let records = survey[i]->Some_0;
    let keep = |v: ValueView| value_stale(kind, v);
    let kept = records.filter(keep);
    records.lemma_filter_contains(keep, j);
    let m = choose|m: int| 0 <= m < kept.len() && kept[m] == records[j];
    let found = value_finds(kind, survey);
    assert(found[i][m] == records[j].name);
    lemma_found_is_offered(kind, found, i, m);
}

/// Every entry of the list of installed programs that is left over is offered.
pub proof fn law_every_stale_entry_is_offered(
    survey: Seq<Option<Seq<UninstallView>>>,
    i: int,
    j: int,
)
    requires
        survey.len() == targets_of(IssueKind::Uninstall).len(),
        0 <= i < survey.len(),
        survey[i] is Some,
        0 <= j < survey[i]->Some_0.len(),
        uninstall_stale(survey[i]->Some_0[j]),
    ensures
        uninstall_drafts(survey).contains(
            issue_draft(
                IssueKind::Uninstall,
                target_path(targets_of(IssueKind::Uninstall)[i]),
                survey[i]->Some_0[j].name,
            ),
        ),
{
    let records = survey[i]->Some_0;
    let keep = |u: UninstallView| uninstall_stale(u);
    let kept = records.filter(keep);
    records.lemma_filter_contains(keep, j);
    let m = choose|m: int| 0 <= m < kept.len() && kept[m] == records[j];
    let found = uninstall_finds(survey);
    assert(found[i][m] == records[j].name);
    lemma_found_is_offered(IssueKind::Uninstall, found, i, m);
}

/// Every file extension whose class is not there is offered.
pub proof fn law_every_stale_extension_is_offered(records: Seq<ExtensionView>, j: int)
    requires
        0 <= j < records.len(),
        extension_stale(records[j]),
    ensures
        extension_drafts(records).contains(
            issue_draft(
                IssueKind::FileExtension,
                target_path(targets_of(IssueKind::FileExtension)[0]),
                records[j].name,
            ),
        ),
{
    let keep = |e: ExtensionView| extension_stale(e);
    let kept = records.filter(keep);
    records.lemma_filter_contains(keep, j);
    let m = choose|m: int| 0 <= m < kept.len() && kept[m] == records[j];
    let found = seq![stale_extensions(records)];
    assert(found[0][m] == records[j].name);
    lemma_found_is_offered(IssueKind::FileExtension, found, 0, m);
}

/// A scan of the registry offers what it finds of every kind.
pub proof fn law_every_kind_of_issue_is_offered(r: RegistryView)
    ensures
        offer::includes_all(
            registry_drafts(r),
            value_drafts(IssueKind::SharedDll, r.shared_dlls),
        ),
        offer::includes_all(registry_drafts(r), value_drafts(IssueKind::Startup, r.startup)),
        offer::includes_all(registry_drafts(r), value_drafts(IssueKind::AppPath, r.app_paths)),
        offer::includes_all(registry_drafts(r), value_drafts(IssueKind::Font, r.fonts)),
        offer::includes_all(registry_drafts(r), uninstall_drafts(r.uninstall)),
        offer::includes_all(registry_drafts(r), extension_drafts(r.extensions)),
        registry_drafts(r).len() == value_drafts(IssueKind::SharedDll, r.shared_dlls).len()
            + value_drafts(IssueKind::Startup, r.startup).len() + value_drafts(
            IssueKind::AppPath,
            r.app_paths,
        ).len() + value_drafts(IssueKind::Font, r.fonts).len() + uninstall_drafts(
            r.uninstall,
        ).len() + extension_drafts(r.extensions).len(),
{
    let d1 = value_drafts(IssueKind::SharedDll, r.shared_dlls);
    let d2 = value_drafts(IssueKind::Startup, r.startup);
    let d3 = value_drafts(IssueKind::AppPath, r.app_paths);
    let d4 = value_drafts(IssueKind::Font, r.fonts);
    let d5 = uninstall_drafts(r.uninstall);
    let d6 = extension_drafts(r.extensions);
    let s2 = d1 + d2;
    let s3 = s2 + d3;
    let s4 = s3 + d4;
    let s5 = s4 + d5;
    let all = s5 + d6;
    offer::lemma_includes_sum(s5, d6);
    offer::lemma_includes_sum(s4, d5);
    offer::lemma_includes_sum(s3, d4);
    offer::lemma_includes_sum(s2, d3);
    offer::lemma_includes_sum(d1, d2);
    offer::lemma_includes_transitive(all, s5, s4);
    offer::lemma_includes_transitive(all, s5, d5);
    offer::lemma_includes_transitive(all, s4, s3);
    offer::lemma_includes_transitive(all, s4, d4);
    offer::lemma_includes_transitive(all, s3, s2);
    offer::lemma_includes_transitive(all, s3, d3);
    offer::lemma_includes_transitive(all, s2, d1);
    offer::lemma_includes_transitive(all, s2, d2);
}

/// The paths of the keys in which an issue is looked for.
pub open spec fn target_paths(kind: IssueKind) -> Seq<Seq<char>> {
    targets_of(kind).map_values(|t: TargetView| target_path(t))
}

/// Shared libraries, startup entries, application paths, fonts and installed
/// programs are looked for both for the machine and for the user, each in the
/// keys in which the system keeps them, and file extensions among the classes.
pub proof fn law_records_are_looked_for_in_their_keys()
    ensures
        target_paths(IssueKind::SharedDll) == seq![
            "HKLM\\SOFTWARE\\Microsoft\\Windows\\CurrentVersion\\SharedDLLs"@,
            "HKCU\\SOFTWARE\\Microsoft\\Windows\\CurrentVersion\\SharedDLLs"@,
        ],
        target_paths(IssueKind::Startup) == seq![
            "HKLM\\SOFTWARE\\Microsoft\\Windows\\CurrentVersion\\Run"@,
            "HKLM\\SOFTWARE\\Microsoft\\Windows\\CurrentVersion\\RunOnce"@,
            "HKCU\\SOFTWARE\\Microsoft\\Windows\\CurrentVersion\\Run"@,
            "HKCU\\SOFTWARE\\Microsoft\\Windows\\CurrentVersion\\RunOnce"@,
        ],
        target_paths(IssueKind::AppPath) == seq![
            "HKLM\\SOFTWARE\\Microsoft\\Windows\\CurrentVersion\\App Paths"@,
            "HKCU\\SOFTWARE\\Microsoft\\Windows\\CurrentVersion\\App Paths"@,
        ],
        target_paths(IssueKind::Font) == seq![
            "HKLM\\SOFTWARE\\Microsoft\\Windows NT\\CurrentVersion\\Fonts"@,
            "HKCU\\SOFTWARE\\Microsoft\\Windows NT\\CurrentVersion\\Fonts"@,
        ],
        target_paths(IssueKind::Uninstall) == seq![
            "HKLM\\SOFTWARE\\Microsoft\\Windows\\CurrentVersion\\Uninstall"@,
            "HKLM\\SOFTWARE\\WOW6432Node\\Microsoft\\Windows\\CurrentVersion\\Uninstall"@,
            "HKCU\\SOFTWARE\\Microsoft\\Windows\\CurrentVersion\\Uninstall"@,
        ],
        target_paths(IssueKind::FileExtension) == seq!["HKCR"@],
        forall|kind: IssueKind, i: int|
            0 <= i < targets_of(kind).len() ==> match (#[trigger] targets_of(kind)[i]).root {
                RegistryRoot::LocalMachine => text::starts_with(target_paths(kind)[i], "HKLM"@),
                RegistryRoot::CurrentUser => text::starts_with(target_paths(kind)[i], "HKCU"@),
                RegistryRoot::ClassesRoot => text::starts_with(target_paths(kind)[i], "HKCR"@),
            },
{
    reveal_strlit("HKLM");
    reveal_strlit("HKCU");
    reveal_strlit("HKCR");
    reveal_strlit("\\");
    reveal_strlit("");
    lemma_shared_dll_paths();
    lemma_startup_paths();
    lemma_other_paths();
    lemma_uninstall_paths();
    assert(target_paths(IssueKind::FileExtension) =~= seq!["HKCR"@]);
    assert forall|kind: IssueKind, i: int| 0 <= i < targets_of(kind).len() implies match (
    #[trigger] targets_of(kind)[i]).root {
        RegistryRoot::LocalMachine => text::starts_with(target_paths(kind)[i], "HKLM"@),
        RegistryRoot::CurrentUser => text::starts_with(target_paths(kind)[i], "HKCU"@),
        RegistryRoot::ClassesRoot => text::starts_with(target_paths(kind)[i], "HKCR"@),
    } by {
        let t = targets_of(kind)[i];
        let path = target_path(t);
        assert(target_paths(kind)[i] == path);
        assert(path.subrange(0, 4) =~= root_name(t.root));
    }
}

/// The keys of shared libraries.
proof fn lemma_shared_dll_paths()
    ensures
        target_paths(IssueKind::SharedDll) == seq![
            "HKLM\\SOFTWARE\\Microsoft\\Windows\\CurrentVersion\\SharedDLLs"@,
            "HKCU\\SOFTWARE\\Microsoft\\Windows\\CurrentVersion\\SharedDLLs"@,
        ],
{
    reveal_strlit("HKLM");
    reveal_strlit("HKCU");
    reveal_strlit("\\");
    reveal_strlit("SOFTWARE\\Microsoft\\Windows\\CurrentVersion\\SharedDLLs");
    reveal_strlit("HKLM\\SOFTWARE\\Microsoft\\Windows\\CurrentVersion\\SharedDLLs");
    reveal_strlit("HKCU\\SOFTWARE\\Microsoft\\Windows\\CurrentVersion\\SharedDLLs");
    let t = targets_of(IssueKind::SharedDll);
    assert(target_path(t[0])
        =~= "HKLM\\SOFTWARE\\Microsoft\\Windows\\CurrentVersion\\SharedDLLs"@);
    assert(target_path(t[1])
        =~= "HKCU\\SOFTWARE\\Microsoft\\Windows\\CurrentVersion\\SharedDLLs"@);
    assert(target_paths(IssueKind::SharedDll) =~= seq![target_path(t[0]), target_path(t[1])]);
}

/// The keys of startup entries.
proof fn lemma_startup_paths()
    ensures
        target_paths(IssueKind::Startup) == seq![
            "HKLM\\SOFTWARE\\Microsoft\\Windows\\CurrentVersion\\Run"@,
            "HKLM\\SOFTWARE\\Microsoft\\Windows\\CurrentVersion\\RunOnce"@,
            "HKCU\\SOFTWARE\\Microsoft\\Windows\\CurrentVersion\\Run"@,
            "HKCU\\SOFTWARE\\Microsoft\\Windows\\CurrentVersion\\RunOnce"@,
        ],
{
    reveal_strlit("HKLM");
    reveal_strlit("HKCU");
    reveal_strlit("\\");
    reveal_strlit("SOFTWARE\\Microsoft\\Windows\\CurrentVersion\\Run");
    reveal_strlit("SOFTWARE\\Microsoft\\Windows\\CurrentVersion\\RunOnce");
    reveal_strlit("HKLM\\SOFTWARE\\Microsoft\\Windows\\CurrentVersion\\Run");
    reveal_strlit("HKLM\\SOFTWARE\\Microsoft\\Windows\\CurrentVersion\\RunOnce");
    reveal_strlit("HKCU\\SOFTWARE\\Microsoft\\Windows\\CurrentVersion\\Run");
    reveal_strlit("HKCU\\SOFTWARE\\Microsoft\\Windows\\CurrentVersion\\RunOnce");
    let t = targets_of(IssueKind::Startup);
    assert(target_path(t[0]) =~= "HKLM\\SOFTWARE\\Microsoft\\Windows\\CurrentVersion\\Run"@);
    assert(target_path(t[1]) =~= "HKLM\\SOFTWARE\\Microsoft\\Windows\\CurrentVersion\\RunOnce"@);
    assert(target_path(t[2]) =~= "HKCU\\SOFTWARE\\Microsoft\\Windows\\CurrentVersion\\Run"@);
    assert(target_path(t[3]) =~= "HKCU\\SOFTWARE\\Microsoft\\Windows\\CurrentVersion\\RunOnce"@);
    assert(target_paths(IssueKind::Startup) =~= seq![
        target_path(t[0]),
        target_path(t[1]),
        target_path(t[2]),
        target_path(t[3]),
    ]);
}

/// The keys of application paths and of fonts.
proof fn lemma_other_paths()
    ensures
        target_paths(IssueKind::AppPath) == seq![
            "HKLM\\SOFTWARE\\Microsoft\\Windows\\CurrentVersion\\App Paths"@,
            "HKCU\\SOFTWARE\\Microsoft\\Windows\\CurrentVersion\\App Paths"@,
        ],
        target_paths(IssueKind::Font) == seq![
            "HKLM\\SOFTWARE\\Microsoft\\Windows NT\\CurrentVersion\\Fonts"@,
            "HKCU\\SOFTWARE\\Microsoft\\Windows NT\\CurrentVersion\\Fonts"@,
        ],
{
    reveal_strlit("HKLM");
    reveal_strlit("HKCU");
    reveal_strlit("\\");
    reveal_strlit("SOFTWARE\\Microsoft\\Windows\\CurrentVersion\\App Paths");
    reveal_strlit("HKLM\\SOFTWARE\\Microsoft\\Windows\\CurrentVersion\\App Paths");
    reveal_strlit("HKCU\\SOFTWARE\\Microsoft\\Windows\\CurrentVersion\\App Paths");
    reveal_strlit("SOFTWARE\\Microsoft\\Windows NT\\CurrentVersion\\Fonts");
    reveal_strlit("HKLM\\SOFTWARE\\Microsoft\\Windows NT\\CurrentVersion\\Fonts");
    reveal_strlit("HKCU\\SOFTWARE\\Microsoft\\Windows NT\\CurrentVersion\\Fonts");
    let t = targets_of(IssueKind::AppPath);
    assert(target_path(t[0]) =~= "HKLM\\SOFTWARE\\Microsoft\\Windows\\CurrentVersion\\App Paths"@);
    assert(target_path(t[1]) =~= "HKCU\\SOFTWARE\\Microsoft\\Windows\\CurrentVersion\\App Paths"@);
    assert(target_paths(IssueKind::AppPath) =~= seq![target_path(t[0]), target_path(t[1])]);
    let f = targets_of(IssueKind::Font);
    assert(target_path(f[0]) =~= "HKLM\\SOFTWARE\\Microsoft\\Windows NT\\CurrentVersion\\Fonts"@);
    assert(target_path(f[1]) =~= "HKCU\\SOFTWARE\\Microsoft\\Windows NT\\CurrentVersion\\Fonts"@);
    assert(target_paths(IssueKind::Font) =~= seq![target_path(f[0]), target_path(f[1])]);
}

/// The keys of installed programs.
proof fn lemma_uninstall_paths()
    ensures
        target_paths(IssueKind::Uninstall) == seq![
            "HKLM\\SOFTWARE\\Microsoft\\Windows\\CurrentVersion\\Uninstall"@,
            "HKLM\\SOFTWARE\\WOW6432Node\\Microsoft\\Windows\\CurrentVersion\\Uninstall"@,
            "HKCU\\SOFTWARE\\Microsoft\\Windows\\CurrentVersion\\Uninstall"@,
        ],
{
    reveal_strlit("HKLM");
    reveal_strlit("HKCU");
    reveal_strlit("\\");
    reveal_strlit("SOFTWARE\\Microsoft\\Windows\\CurrentVersion\\Uninstall");
    reveal_strlit("SOFTWARE\\WOW6432Node\\Microsoft\\Windows\\CurrentVersion\\Uninstall");
    reveal_strlit("HKLM\\SOFTWARE\\Microsoft\\Windows\\CurrentVersion\\Uninstall");
    reveal_strlit("HKLM\\SOFTWARE\\WOW6432Node\\Microsoft\\Windows\\CurrentVersion\\Uninstall");
    reveal_strlit("HKCU\\SOFTWARE\\Microsoft\\Windows\\CurrentVersion\\Uninstall");
    let t = targets_of(IssueKind::Uninstall);
    assert(target_path(t[0]) =~= "HKLM\\SOFTWARE\\Microsoft\\Windows\\CurrentVersion\\Uninstall"@);
    assert(target_path(t[1])
        =~= "HKLM\\SOFTWARE\\WOW6432Node\\Microsoft\\Windows\\CurrentVersion\\Uninstall"@);
    assert(target_path(t[2]) =~= "HKCU\\SOFTWARE\\Microsoft\\Windows\\CurrentVersion\\Uninstall"@);
    assert(target_paths(IssueKind::Uninstall) =~= seq![
        target_path(t[0]),
        target_path(t[1]),
        target_path(t[2]),
    ]);
}

/// About a shared library, a startup entry or a font, one value of the key is
/// deleted, and the key stays. About an application path, an installed program
/// or a file extension, the subkey of that name is deleted, at high risk.
pub proof fn law_issues_delete_what_they_name(
    kind: IssueKind,
    parent: Seq<char>,
    name: Seq<char>,
)
    ensures
        issue_draft(kind, parent, name).public.path == parent + "\\"@ + name,
        kind == IssueKind::SharedDll || kind == IssueKind::Startup || kind == IssueKind::Font
            ==> issue_draft(kind, parent, name).action == (ActionView::RegistryDelete {
            key_path: parent,
            value_name: Some(name),
            delete_key: false,
        }) && issue_draft(kind, parent, name).public.risk == RiskLevel::Medium && issue_draft(
            kind,
            parent,
            name,
        ).public.selected_by_default == (kind != IssueKind::Font),
        kind == IssueKind::AppPath || kind == IssueKind::Uninstall || kind
            == IssueKind::FileExtension ==> issue_draft(kind, parent, name).action == (
        ActionView::RegistryDelete {
            key_path: parent + "\\"@ + name,
            value_name: None,
            delete_key: true,
        }) && issue_draft(kind, parent, name).public.risk == RiskLevel::High
            && !issue_draft(kind, parent, name).public.selected_by_default,
        issue_draft(kind, parent, name).public.module == ModuleKind::Registry,
        issue_draft(kind, parent, name).public.size_bytes == 0,
{
}

/// A subkey of the classes is stale exactly where it begins with a dot, names a
/// class in more than white space, and the class is not there.
pub proof fn law_extensions_go_by_their_class(
    rest: Seq<char>,
    class: Seq<char>,
    space: Seq<char>,
    class_present: bool,
)
    requires
        class.len() > 0,
        !text::is_white(class[0]) && !text::is_white(class.last()),
        forall|i: int| 0 <= i < space.len() ==> text::is_white(#[trigger] space[i]),
    ensures
        extension_stale(
            ExtensionView {
                name: "."@ + rest,
                class_name: Some(space + class + space),
                class_present,
            },
        ) == !class_present,
        !extension_stale(
            ExtensionView { name: "."@ + rest, class_name: Some(space), class_present },
        ),
        !extension_stale(ExtensionView { name: "."@ + rest, class_name: None, class_present }),
        rest.len() == 0 || rest[0] != '.' ==> !extension_stale(
            ExtensionView { name: rest, class_name: Some(class), class_present },
        ),
{
    reveal_strlit(".");
    let none = Seq::<char>::empty();
    text::law_stripping_takes_off_the_ends(space, class, space, text::CharSet::Whitespace);
    text::law_stripping_takes_off_the_ends(space, none, none, text::CharSet::Whitespace);
    assert(space + none + none =~= space);
}

/// An entry without a name, or with one of white space only, is never left
/// over.
pub proof fn law_nameless_entries_are_kept(u: UninstallView, space: Seq<char>)
    requires
        forall|i: int| 0 <= i < space.len() ==> text::is_white(#[trigger] space[i]),
        u.display_name is None || u.display_name == Some(space),
    ensures
        !uninstall_stale(u),
{
    let none = Seq::<char>::empty();
    text::law_stripping_takes_off_the_ends(space, none, none, text::CharSet::Whitespace);
    assert(space + none + none =~= space);
}

/// An entry that the installer service removes, however its name is written, is
/// kept. So is one that names no directory, and one whose directory or
/// uninstaller is there.
pub proof fn law_installed_programs_are_kept(
    u: UninstallView,
    p: PointerView,
    before: Seq<char>,
    service: Seq<char>,
    after: Seq<char>,
)
    ensures
        u.uninstall == Some(p) && p.text == before + service + after && text::lower(service)
            == "msiexec"@ ==> !uninstall_stale(u),
        u.uninstall is None || u.install_location is None || u.display_name is None
            ==> !uninstall_stale(u),
        u.install_location == Some(p) && p.present ==> !uninstall_stale(u),
        u.install_location == Some(p) && launch::expanded(p.text, p.values).len() == 0
            ==> !uninstall_stale(u),
        u.uninstall == Some(p) && p.present ==> !uninstall_stale(u),
{
    if p.text == before + service + after && text::lower(service) == "msiexec"@ {
        let low = text::lower(p.text);
        assert(low =~= text::lower(before) + text::lower(service) + text::lower(after));
        text::law_containing_is_having_as_a_middle(low, "msiexec"@);
        assert(low == #[trigger] (text::lower(before) + "msiexec"@ + text::lower(after)));
    }
}

/// A record whose file is there is kept, and so is one without text. One whose
/// file is not there is stale; where it is a command, only if that names a
/// program.
pub proof fn law_records_with_their_files_are_kept(kind: IssueKind, name: Seq<char>, p: PointerView)
    ensures
        p.present ==> !value_stale(kind, ValueView { name, data: Some(p) }),
        !value_stale(kind, ValueView { name, data: None }),
        !p.present && (kind == IssueKind::SharedDll || kind == IssueKind::Font) ==> value_stale(
            kind,
            ValueView { name, data: Some(p) },
        ),
        !p.present && (kind == IssueKind::Startup || kind == IssueKind::AppPath) ==> (value_stale(
            kind,
            ValueView { name, data: Some(p) },
        ) <==> launch::command_target(launch::expanded(p.text, p.values)) is Some),
{
}

/// A path with a drive is absolute exactly where a separator follows it. One
/// that begins with a single separator, or with neither, is not.
pub proof fn law_paths_from_a_drive_are_absolute(c: char, mark: char, rest: Seq<char>)
    ensures
        ('a' <= c <= 'z' || 'A' <= c <= 'Z') && (mark == '\\' || mark == '/') ==> absolute(
            seq![c, ':', mark] + rest,
        ),
        ('a' <= c <= 'z' || 'A' <= c <= 'Z') && mark != '\\' && mark != '/' ==> !absolute(
            seq![c, ':', mark] + rest,
        ),
        c != '\\' && c != '/' && mark != ':' ==> !absolute(seq![c, mark] + rest),
        mark != '\\' && mark != '/' && c != ':' && mark != ':' ==> !absolute(
            seq![c, mark] + rest,
        ),
{
    reveal_strlit("\\\\?\\");
    let s = seq![c, ':', mark] + rest;
    assert(s.take(2)[0] == c && s.take(2)[1] == ':');
    assert(s[0] == c && s[1] == ':' && s[2] == mark);
    assert(s.take(4)[0] == s[0] || s.len() < 4);
    let t = seq![c, mark] + rest;
    assert(t[0] == c && t[1] == mark);
    assert(t.len() >= 4 ==> t.take(4)[0] == c && t.take(4)[1] == mark);
    assert(t.take(2)[1] == mark);
    assert(s.len() >= 4 ==> s.take(4)[1] == ':');
    assert("\\\\?\\"@[0] == '\\' && "\\\\?\\"@[1] == '\\');
}

/// A path that begins with a server and a share is absolute, and so is one that
/// is taken as it stands.
pub proof fn law_paths_from_a_share_are_absolute(server: Seq<char>, share: Seq<char>)
    requires
        server.len() > 0 && share.len() > 0,
        forall|i: int| 0 <= i < server.len() ==> #[trigger] server[i] != '\\' && server[i] != '/',
        share[0] != '\\' && share[0] != '/',
    ensures
        absolute("\\\\"@ + server + "\\"@ + share),
        absolute("\\\\?\\"@ + share),
{
    reveal_strlit("\\\\");
    reveal_strlit("\\");
    reveal_strlit("\\\\?\\");
    let s = "\\\\"@ + server + "\\"@ + share;
    let k = 2 + server.len() as int;
    assert forall|i: int| 2 <= i < k implies !disk::is_separator(#[trigger] s[i]) by {
        assert(s[i] == server[i - 2]);
    }
    assert(s[k] == '\\');
    assert(s[k + 1] == share[0]);
    assert(ends_server(s, k));
    let v = "\\\\?\\"@ + share;
    assert(v.take(4) =~= "\\\\?\\"@);
}

/// A font that is named by its file alone is looked for among the fonts of the
/// Windows directory, and one with a drive where it says.
pub proof fn law_fonts_are_looked_for(windows: Seq<char>, c: char, rest: Seq<char>)
    requires
        'a' <= c <= 'z' || 'A' <= c <= 'Z',
    ensures
        font_place_of(windows, seq![c, ':', '\\'] + rest) == PlaceView::Given(
            seq![c, ':', '\\'] + rest,
        ),
        rest.len() > 1 && rest[0] != '\\' && rest[0] != '/' && rest[1] != ':' ==> font_place_of(
            windows,
            rest,
        ) == (PlaceView::Below { fonts: disk::joined(windows, "Fonts"@), file: rest }),
{
    law_paths_from_a_drive_are_absolute(c, '\\', rest);
    if rest.len() > 1 {
        law_paths_from_a_drive_are_absolute(rest[0], rest[1], rest.skip(2));
        assert(seq![rest[0], rest[1]] + rest.skip(2) =~= rest);
    }
}

} // verus!
