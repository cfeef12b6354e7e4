//! What the disk holds at a path, as plain values, and the rules that pick,
//! measure and preview files.
use crate::item;
use crate::item::{FilePreview, PreviewView};
use crate::text;
use vstd::prelude::*;
use vstd::slice::slice_subrange;

verus! {

// ---------------------------------------------------------------------------
// Path texts

/// Whether the text is a drive and nothing else, such as `C:`.
pub open spec fn is_drive(s: Seq<char>) -> bool {
    &&& s.len() == 2
    &&& ('A' <= s[0] <= 'Z' || 'a' <= s[0] <= 'z')
    &&& s[1] == ':'
}

/// Whether a name can follow the text without a separator between them.
pub open spec fn takes_name(base: Seq<char>) -> bool {
    base.len() == 0 || base.last() == '\\' || base.last() == '/' || is_drive(base)
}

/// Whether the character separates the parts of a path.
pub open spec fn is_separator(c: char) -> bool {
    c == '\\' || c == '/'
}

/// Decides [`is_separator`].
pub fn separates(c: char) -> (r: bool)
    ensures
        r == is_separator(c),
{
    c == '\\' || c == '/'
}

/// Whether the path is marked to be taken as it stands, with the backslash as
/// its only separator.
pub open spec fn is_verbatim(s: Seq<char>) -> bool {
    text::starts_with(s, "\\\\?\\"@)
}

/// What follows the first backslash; nothing where there is none.
pub open spec fn after_backslash(s: Seq<char>) -> Seq<char> {
    let k = text::first_of(s, '\\');
    if k < s.len() {
        s.skip(k + 1)
    } else {
        Seq::empty()
    }
}

/// The length of a server and a share at the start of a text. A share that is
/// empty does not belong to them.
pub open spec fn share_len(s: Seq<char>) -> int {
    let share = text::first_of(after_backslash(s), '\\');
    text::first_of(s, '\\') + if share > 0 {
        1 + share
    } else {
        0
    }
}

/// The length of what a verbatim path begins with: its mark, and a server and
/// share, a drive, or else everything up to the next backslash.
pub open spec fn verbatim_prefix_len(s: Seq<char>) -> int {
    let t = s.skip(4);
    if t.len() >= 4 && t.take(3) == "UNC"@ && is_separator(t[3]) {
        8 + share_len(t.skip(4))
    } else if t.len() >= 2 && is_drive(t.take(2)) && (t.len() == 2 || is_separator(t[2])) {
        6
    } else {
        4 + text::first_of(t, '\\')
    }
}

/// The parts between backslashes that are not empty, in order.
pub open spec fn parts(s: Seq<char>) -> Seq<Seq<char>>
    decreases s.len(),
    via parts_decreases
{
    if s.len() == 0 {
        Seq::empty()
    } else {
        let k = text::first_of(s, '\\');
        if k == 0 {
            parts(after_backslash(s))
        } else {
            seq![s.take(k)] + parts(after_backslash(s))
        }
    }
}

/// What follows a backslash is shorter.
#[via_fn]
proof fn parts_decreases(s: Seq<char>) {
    text::lemma_first_of(s, '\\');
}

/// The text without a separator at its start.
pub open spec fn without_root(s: Seq<char>) -> Seq<char> {
    if s.len() > 0 && is_separator(s[0]) {
        s.skip(1)
    } else {
        s
    }
}

/// A name below a verbatim path: the path is put together again from what it
/// begins with and its parts, and the name follows as one part more.
pub open spec fn verbatim_joined(base: Seq<char>, name: Seq<char>) -> Seq<char> {
    let n = verbatim_prefix_len(base);
    base.take(n) + "\\"@ + text::join(parts(without_root(base.skip(n))).push(name), "\\"@)
}

/// The path of the entry with the given name below `base`.
pub open spec fn joined(base: Seq<char>, name: Seq<char>) -> Seq<char> {
    if is_verbatim(base) && name.len() > 0 {
        verbatim_joined(base, name)
    } else if takes_name(base) {
        base + name
    } else {
        base + "\\"@ + name
    }
}

/// Finds where the server and the share end that begin at `from`.
fn share_end(s: &[char], from: usize) -> (r: usize)
    requires
        from <= s@.len(),
    ensures
        r == from + share_len(s@.skip(from as int)),
        from <= r <= s@.len(),
{
    let ghost rest = s@.skip(from as int);
    let k = text::position_from(s, '\\', from);
    if k < s.len() {
        let m = text::position_from(s, '\\', k + 1);
        assert(after_backslash(rest) =~= s@.skip(k + 1));
        if m > k + 1 {
            m
        } else {
            k
        }
    } else {
        assert(after_backslash(rest) =~= Seq::empty());
        k
    }
}

/// Finds where what a verbatim path begins with ends.
fn verbatim_prefix_end(s: &[char]) -> (r: usize)
    requires
        s@.len() >= 4,
    ensures
        r == verbatim_prefix_len(s@),
        4 <= r <= s@.len(),
{
    let n = s.len();
    let ghost t = s@.skip(4);
    assert(n == s@.len());
    proof {
        reveal_strlit("UNC");
    }
    if n >= 8 && s[4] == 'U' && s[5] == 'N' && s[6] == 'C' && separates(s[7]) {
        assert(t.take(3) =~= "UNC"@);
        assert(t.skip(4) =~= s@.skip(8));
        return share_end(s, 8);
    }
    proof {
        if t.len() >= 4 && t.take(3) == "UNC"@ {
            assert(t.take(3)[0] == s@[4] && t.take(3)[1] == s@[5] && t.take(3)[2] == s@[6]);
        }
    }
    if n >= 6 && (('A' <= s[4] && s[4] <= 'Z') || ('a' <= s[4] && s[4] <= 'z')) && s[5] == ':' && (n
        == 6 || separates(s[6])) {
        assert(is_drive(t.take(2)));
        return 6;
    }
    text::position_from(s, '\\', 4)
}

/// Lists the parts between backslashes that are not empty, from `from` on.
fn parts_from(s: &[char], from: usize) -> (r: Vec<String>)
    requires
        from <= s@.len(),
    ensures
        text::views(r@) == parts(s@.skip(from as int)),
{
    let n = s.len();
    let ghost all = s@.skip(from as int);
    let mut r: Vec<String> = Vec::new();
    let mut i: usize = from;
    assert(text::views(r@) + parts(all) =~= parts(all));
    while i < n
        invariant
            n == s@.len(),
            i <= n,
            text::views(r@) + parts(s@.skip(i as int)) == parts(all),
        decreases n - i,
    {
        let ghost rest = s@.skip(i as int);
        let ghost before = r@;
        let k = text::position_from(s, '\\', i);
        let next: usize = if k < n {
            k + 1
        } else {
            n
        };
        assert(after_backslash(rest) =~= s@.skip(next as int));
        if k > i {
            let part = text::string_of(slice_subrange(s, i, k));
            r.push(part);
            proof {
                text::lemma_views_push(before, part);
                assert(part@ =~= rest.take(k - i));
                assert(text::views(r@) + parts(s@.skip(next as int)) =~= text::views(before)
                    + parts(rest));
            }
        }
        i = next;
    }
    assert(s@.skip(n as int) =~= Seq::empty());
    assert(text::views(r@) + parts(s@.skip(n as int)) =~= text::views(r@));
    r
}

/// Appends a plain name to a verbatim path.
fn join_verbatim(base: &[char], name: &str) -> (r: String)
    requires
        base@.len() >= 4,
    ensures
        r@ == verbatim_joined(base@, name@),
{
    let n = base.len();
    let k = verbatim_prefix_end(base);
    let ghost rest = base@.skip(k as int);
    let start: usize = if k < n && separates(base[k]) {
        k + 1
    } else {
        k
    };
    assert(without_root(rest) =~= base@.skip(start as int));
    let mut names = parts_from(base, start);
    let ghost before = names@;
    let last = name.to_owned();
    names.push(last);
    proof {
        text::lemma_views_push(before, last);
        assert(base@.subrange(0, k as int) =~= base@.take(k as int));
    }
    let head = text::string_of(slice_subrange(base, 0, k));
    let tail = text::join_strings(&names, "\\");
    text::concat3(head.as_str(), "\\", tail.as_str())
}

/// Appends a plain name to a path.
pub fn join_path(base: &str, name: &str) -> (r: String)
    ensures
        r@ == joined(base@, name@),
{
    let b = text::chars_of(base);
    let n = b.len();
    if text::begins_with(b.as_slice(), "\\\\?\\") && !name.is_empty() {
        proof {
            reveal_strlit("\\\\?\\");
        }
        return join_verbatim(b.as_slice(), name);
    }
    let open = n == 0 || b[n - 1] == '\\' || b[n - 1] == '/' || (n == 2 && (('A' <= b[0] && b[0]
        <= 'Z') || ('a' <= b[0] && b[0] <= 'z')) && b[1] == ':');
    if open {
        text::concat2(base, name)
    } else {
        text::concat3(base, "\\", name)
    }
}

/// Appends two plain names to a path.
pub fn join_path2(base: &str, a: &str, b: &str) -> (r: String)
    ensures
        r@ == joined(joined(base@, a@), b@),
{
    let p = join_path(base, a);
    join_path(p.as_str(), b)
}

/// Appends three plain names to a path.
pub fn join_path3(base: &str, a: &str, b: &str, c: &str) -> (r: String)
    ensures
        r@ == joined(joined(joined(base@, a@), b@), c@),
{
    let p = join_path2(base, a, b);
    join_path(p.as_str(), c)
}

/// The position of the last `c`, or -1 where there is none.
pub open spec fn last_of(s: Seq<char>, c: char) -> int
    decreases s.len(),
{
    if s.len() == 0 {
        -1
    } else if s.last() == c {
        s.len() - 1
    } else {
        last_of(s.drop_last(), c)
    }
}

/// The extension of a file name: what follows its last dot, unless that dot
/// begins the name or the name is `..`.
pub open spec fn extension(name: Seq<char>) -> Option<Seq<char>> {
    let k = last_of(name, '.');
    if k <= 0 || name == ".."@ {
        None
    } else {
        Some(name.skip(k + 1))
    }
}

/// Finds the extension of a file name.
pub fn extension_of(name: &str) -> (r: Option<String>)
    ensures
        item::opt_text(r) == extension(name@),
{
    let cs = text::chars_of(name);
    let s = cs.as_slice();
    let mut n: usize = s.len();
    assert(s@.take(n as int) =~= s@);
    while n > 0 && s[n - 1] != '.'
        invariant
            n <= s@.len(),
            last_of(s@.take(n as int), '.') == last_of(s@, '.'),
        decreases n,
    {
        assert(s@.take(n as int).drop_last() =~= s@.take(n - 1));
        n = n - 1;
    }
    assert(n > 0 ==> s@.take(n as int).last() == '.');
    if n <= 1 || text::same_text(name, "..") {
        None
    } else {
        assert(s@.skip(n as int) =~= s@.subrange(n as int, s@.len() as int));
        Some(text::string_of(slice_subrange(s, n, s.len())))
    }
}

// ---------------------------------------------------------------------------
// What stands at a path

/// The last part of a path. Where it is not valid Unicode, `text` holds it
/// with replacement characters and `exact` is false.
#[derive(Debug)]
pub struct FileName {
    pub text: String,
    pub exact: bool,
}

/// The contents of a [`FileName`].
pub struct NameView {
    pub text: Seq<char>,
    pub exact: bool,
}

impl View for FileName {
    type V = NameView;

    open spec fn view(&self) -> NameView {
        NameView { text: self.text@, exact: self.exact }
    }
}

/// What a path names.
#[derive(Clone, Copy, Debug, PartialEq, Eq, Structural)]
pub enum PathKind {
    Missing,
    File,
    Directory,
    Other,
}

/// One file that a walk came across.
#[derive(Debug)]
pub struct FileRecord {
    pub path: String,
    pub name: FileName,
    pub size_bytes: u64,
}

/// The contents of a [`FileRecord`].
pub struct FileView {
    pub path: Seq<char>,
    pub name: NameView,
    pub size_bytes: u64,
}

impl View for FileRecord {
    type V = FileView;

    open spec fn view(&self) -> FileView {
        FileView { path: self.path@, name: self.name@, size_bytes: self.size_bytes }
    }
}

/// What is known of one path: what it names, its own size, and the files that
/// a walk from it comes across, in the order of the walk.
#[derive(Debug)]
pub struct PathSurvey {
    pub path: String,
    pub name: FileName,
    pub kind: PathKind,
    pub size_bytes: u64,
    pub files: Vec<FileRecord>,
}

/// The contents of a [`PathSurvey`].
pub struct SurveyView {
    pub path: Seq<char>,
    pub name: NameView,
    pub kind: PathKind,
    pub size_bytes: u64,
    pub files: Seq<FileView>,
}

impl View for PathSurvey {
    type V = SurveyView;

    open spec fn view(&self) -> SurveyView {
        SurveyView {
            path: self.path@,
            name: self.name@,
            kind: self.kind,
            size_bytes: self.size_bytes,
            files: text::views(self.files@),
        }
    }
}

impl PathSurvey {
    /// Whether something stands at the path.
    pub fn is_present(&self) -> (r: bool)
        ensures
            r == (self@.kind != PathKind::Missing),
    {
        self.kind != PathKind::Missing
    }
}

/// The paths of the surveys.
pub open spec fn paths_of(s: Seq<SurveyView>) -> Seq<Seq<char>> {
    s.map_values(|p: SurveyView| p.path)
}

/// Copies the paths of the surveys.
pub fn survey_paths(v: &Vec<PathSurvey>) -> (r: Vec<String>)
    ensures
        text::views(r@) == paths_of(text::views(v@)),
{
    let mut r: Vec<String> = Vec::new();
    for i in 0..v.len()
        invariant
            text::views(r@) == paths_of(text::views(v@)).take(i as int),
    {
        let ghost before = r@;
        let p = v[i].path.clone();
        r.push(p);
        proof {
            text::lemma_views_push(before, p);
            assert(paths_of(text::views(v@)).take(i + 1) =~= paths_of(text::views(v@)).take(
                i as int,
            ).push(p@));
        }
    }
    assert(paths_of(text::views(v@)).take(v@.len() as int) =~= paths_of(text::views(v@)));
    r
}

/// The surveys of directories, in order.
pub open spec fn directories(s: Seq<SurveyView>) -> Seq<SurveyView> {
    s.filter(|p: SurveyView| p.kind == PathKind::Directory)
}

/// Keeps the paths that name directories, in order.
pub fn existing_dirs(paths: Vec<PathSurvey>) -> (r: Vec<PathSurvey>)
    ensures
        text::views(r@) == directories(text::views(paths@)),
{
    let ghost keep = |p: SurveyView| p.kind == PathKind::Directory;
    let mut r: Vec<PathSurvey> = Vec::new();
    proof {
        reveal(Seq::filter);
        assert(text::views(paths@).take(0).filter(keep) =~= Seq::empty());
    }
    let ghost all = text::views(paths@);
    for p in it: paths
        invariant
            keep == (|p: SurveyView| p.kind == PathKind::Directory),
            all == text::views(it.seq()),
            text::views(r@) == all.take(it.index() as int).filter(keep),
    {
        let ghost before = r@;
        proof {
            reveal(Seq::filter);
            let next = all.take(it.index() + 1);
            assert(next.drop_last() =~= all.take(it.index() as int));
            assert(next.last() == p@);
        }
        if p.kind == PathKind::Directory {
            r.push(p);
            proof {
                text::lemma_views_push(before, p);
            }
        }
    }
    assert(all.take(all.len() as int) =~= all);
    r
}

/// The surveys of what exists, in order.
pub open spec fn present(s: Seq<SurveyView>) -> Seq<SurveyView> {
    s.filter(|p: SurveyView| p.kind != PathKind::Missing)
}

/// The recycle bin folders that can exist, one for each drive letter.
pub open spec fn recycle_bins() -> Seq<Seq<char>> {
    Seq::new(26, |i: int| seq![('A' as u32 + i) as char] + ":\\$Recycle.Bin"@)
}

/// Lists the recycle bin folders that can exist, one for each drive letter.
pub fn recycle_bin_candidates() -> (r: Vec<String>)
    ensures
        text::views(r@) == recycle_bins(),
{
    let mut r: Vec<String> = Vec::new();
    for i in 0..26u8
        invariant
            text::views(r@) == recycle_bins().take(i as int),
    {
        let ghost before = r@;
        let mut p = String::new();
        p.push((65 + i) as char);
        p.append(":\\$Recycle.Bin");
        r.push(p);
        proof {
            text::lemma_views_push(before, p);
            assert(p@ =~= recycle_bins()[i as int]);
            assert(recycle_bins().take(i + 1) =~= recycle_bins().take(i as int).push(p@));
        }
    }
    assert(recycle_bins().take(26) =~= recycle_bins());
    r
}

/// Keeps the recycle bin folders that exist, in order.
pub fn recycle_bin_roots(candidates: Vec<PathSurvey>) -> (r: Vec<PathSurvey>)
    ensures
        text::views(r@) == present(text::views(candidates@)),
{
    let ghost keep = |p: SurveyView| p.kind != PathKind::Missing;
    let mut r: Vec<PathSurvey> = Vec::new();
    let ghost all = text::views(candidates@);
    proof {
        reveal(Seq::filter);
        assert(all.take(0).filter(keep) =~= Seq::empty());
    }
    for p in it: candidates
        invariant
            keep == (|p: SurveyView| p.kind != PathKind::Missing),
            all == text::views(it.seq()),
            text::views(r@) == all.take(it.index() as int).filter(keep),
    {
        let ghost before = r@;
        proof {
            reveal(Seq::filter);
            let next = all.take(it.index() + 1);
            assert(next.drop_last() =~= all.take(it.index() as int));
            assert(next.last() == p@);
        }
        if p.is_present() {
            r.push(p);
            proof {
                text::lemma_views_push(before, p);
            }
        }
    }
    assert(all.take(all.len() as int) =~= all);
    r
}

/// The survey inside, where there is one.
pub open spec fn opt_survey(p: Option<PathSurvey>) -> Option<SurveyView> {
    match p {
        Some(s) => Some(s@),
        None => None,
    }
}

/// The surveys inside, where there are any.
pub open spec fn opt_surveys(s: Seq<Option<PathSurvey>>) -> Seq<Option<SurveyView>> {
    s.map_values(|p: Option<PathSurvey>| opt_survey(p))
}

/// Whether one of the paths is the given one, ASCII capitals aside.
pub open spec fn listed(s: Seq<SurveyView>, path: Seq<char>) -> bool {
    exists|i: int| 0 <= i < s.len() && text::lower(#[trigger] s[i].path) == text::lower(path)
}

/// The directories, each only the first time that its path comes up, ASCII
/// capitals aside.
pub open spec fn distinct_directories(s: Seq<Option<SurveyView>>) -> Seq<SurveyView>
    decreases s.len(),
{
    if s.len() == 0 {
        Seq::empty()
    } else {
        let rest = distinct_directories(s.drop_last());
        match s.last() {
            Some(p) => if p.kind == PathKind::Directory && !listed(rest, p.path) {
                rest.push(p)
            } else {
                rest
            },
            None => rest,
        }
    }
}

/// Decides [`listed`].
fn is_listed(v: &Vec<PathSurvey>, path: &str) -> (r: bool)
    ensures
        r == listed(text::views(v@), path@),
{
    let key = text::lower_string(path);
    for i in 0..v.len()
        invariant
            key@ == text::lower(path@),
            forall|j: int|
                0 <= j < i ==> text::lower(#[trigger] text::views(v@)[j].path) != text::lower(
                    path@,
                ),
    {
        let other = text::lower_string(v[i].path.as_str());
        if text::same_text(other.as_str(), key.as_str()) {
            assert(text::lower(text::views(v@)[i as int].path) == text::lower(path@));
            return true;
        }
    }
    false
}

/// Keeps the paths that name directories, each only once, ASCII capitals aside.
pub fn unique_existing_dirs(paths: Vec<Option<PathSurvey>>) -> (r: Vec<PathSurvey>)
    ensures
        text::views(r@) == distinct_directories(opt_surveys(paths@)),
{
    let mut r: Vec<PathSurvey> = Vec::new();
    let ghost all = opt_surveys(paths@);
    assert(text::views(r@) =~= distinct_directories(all.take(0)));
    for o in it: paths
        invariant
            all == opt_surveys(it.seq()),
            text::views(r@) == distinct_directories(all.take(it.index() as int)),
    {
        let ghost before = r@;
        proof {
            let next = all.take(it.index() + 1);
            assert(next.drop_last() =~= all.take(it.index() as int));
            assert(next.last() == opt_survey(o));
        }
        match o {
            Some(p) => {
                if p.kind == PathKind::Directory && !is_listed(&r, p.path.as_str()) {
                    r.push(p);
                    proof {
                        text::lemma_views_push(before, p);
                    }
                }
            },
            None => {},
        }
    }
    assert(all.take(all.len() as int) =~= all);
    r
}

/// Every directory is represented, and no two paths of the result are the
/// same, ASCII capitals aside.
pub proof fn law_directories_are_distinct(s: Seq<Option<SurveyView>>)
    ensures
        forall|i: int, j: int|
            0 <= i < j < distinct_directories(s).len() ==> text::lower(
                #[trigger] distinct_directories(s)[i].path,
            ) != text::lower(#[trigger] distinct_directories(s)[j].path),
        forall|k: int|
            0 <= k < s.len() ==> (#[trigger] s[k] matches Some(p) ==> p.kind
                == PathKind::Directory ==> listed(distinct_directories(s), p.path)),
        forall|i: int|
            0 <= i < distinct_directories(s).len() ==> {
                &&& #[trigger] distinct_directories(s)[i].kind == PathKind::Directory
                &&& s.contains(Some(distinct_directories(s)[i]))
            },
    decreases s.len(),
{
    if s.len() > 0 {
        let init = s.drop_last();
        let rest = distinct_directories(init);
        let d = distinct_directories(s);
        law_directories_are_distinct(init);
        assert forall|k: int| 0 <= k < s.len() implies (#[trigger] s[k] matches Some(p) ==> p.kind
            == PathKind::Directory ==> listed(d, p.path)) by {
            if let Some(p) = s[k] {
                if p.kind == PathKind::Directory {
                    if k < s.len() - 1 {
                        assert(init[k] == s[k]);
                        assert(listed(rest, p.path));
                    }
                    if listed(rest, p.path) {
                        let i = choose|i: int|
                            0 <= i < rest.len() && text::lower(#[trigger] rest[i].path)
                                == text::lower(p.path);
                        assert(d[i] == rest[i]);
                    } else {
                        assert(d[rest.len() as int] == p);
                    }
                }
            }
        }
        assert forall|i: int| 0 <= i < d.len() implies {
            &&& #[trigger] d[i].kind == PathKind::Directory
            &&& s.contains(Some(d[i]))
        } by {
            if i < rest.len() {
                assert(rest[i] == d[i]);
                let k = choose|k: int| 0 <= k < init.len() && init[k] == Some(rest[i]);
                assert(s[k] == Some(d[i]));
            } else {
                assert(s[s.len() - 1] == Some(d[i]));
            }
        }
        assert forall|i: int, j: int| 0 <= i < j < d.len() implies text::lower(
            #[trigger] d[i].path,
        ) != text::lower(#[trigger] d[j].path) by {
            assert(rest[i] == d[i]);
            if j < rest.len() {
                assert(rest[j] == d[j]);
            }
        }
    }
}

/// The Windows directory: where the system says it is, else its usual place.
pub open spec fn windows_path(system_root: Option<Seq<char>>) -> Seq<char> {
    match system_root {
        Some(p) => p,
        None => "C:\\Windows"@,
    }
}

/// Finds the Windows directory from the system's own statement of it.
pub fn windows_dir(system_root: &Option<String>) -> (r: String)
    ensures
        r@ == windows_path(item::opt_text(*system_root)),
{
    match system_root {
        Some(p) => p.clone(),
        None => "C:\\Windows".to_owned(),
    }
}

// ---------------------------------------------------------------------------
// Sizes and previews

/// The sum of the sizes.
pub open spec fn total_size(files: Seq<FileView>) -> nat
    decreases files.len(),
{
    if files.len() == 0 {
        0
    } else {
        total_size(files.drop_last()) + files.last().size_bytes as nat
    }
}

/// A number, or the largest that fits where it does not.
pub open spec fn capped(n: nat) -> u64 {
    if n <= u64::MAX {
        n as u64
    } else {
        u64::MAX
    }
}

/// The sizes of two lists add up.
pub proof fn lemma_total_size_add(a: Seq<FileView>, b: Seq<FileView>)
    ensures
        total_size(a + b) == total_size(a) + total_size(b),
    decreases b.len(),
{
    if b.len() == 0 {
        assert(a + b =~= a);
    } else {
        assert((a + b).drop_last() =~= a + b.drop_last());
        lemma_total_size_add(a, b.drop_last());
    }
}

/// One file more.
pub proof fn lemma_total_size_push(a: Seq<FileView>, f: FileView)
    ensures
        total_size(a.push(f)) == total_size(a) + f.size_bytes,
{
    assert(a.push(f).drop_last() =~= a);
}

/// The preview of a file.
pub open spec fn preview_of(f: FileView) -> PreviewView {
    PreviewView { path: f.path, size_bytes: f.size_bytes }
}

/// The previews of the first `limit` files.
pub open spec fn previews(files: Seq<FileView>, limit: int) -> Seq<PreviewView> {
    files.take(
        if files.len() <= limit {
            files.len() as int
        } else {
            limit
        },
    ).map_values(|f: FileView| preview_of(f))
}

/// One file more: it is previewed while there is room.
proof fn lemma_previews_push(files: Seq<FileView>, limit: int, f: FileView)
    requires
        0 <= limit,
    ensures
        previews(files.push(f), limit) == if files.len() < limit {
            previews(files, limit).push(preview_of(f))
        } else {
            previews(files, limit)
        },
        previews(files, limit).len() == if files.len() <= limit {
            files.len() as int
        } else {
            limit
        },
{
    if files.len() < limit {
        assert(previews(files.push(f), limit) =~= previews(files, limit).push(preview_of(f)));
    } else {
        assert(previews(files.push(f), limit) =~= previews(files, limit));
    }
}

/// The files below the given paths, walk after walk.
pub open spec fn files_below(dirs: Seq<SurveyView>) -> Seq<FileView>
    decreases dirs.len(),
{
    if dirs.len() == 0 {
        Seq::empty()
    } else {
        files_below(dirs.drop_last()) + dirs.last().files
    }
}

/// Adds up the files below those of the paths that are directories. A sum that
/// does not fit is given as the largest number.
pub fn directories_size(paths: &Vec<PathSurvey>) -> (r: u64)
    ensures
        r == capped(total_size(files_below(directories(text::views(paths@))))),
{
    let ghost all = text::views(paths@);
    let mut sum: u64 = 0;
    proof {
        reveal(Seq::filter);
        assert(directories(all.take(0)) =~= Seq::empty());
    }
    for i in 0..paths.len()
        invariant
            all == text::views(paths@),
            sum == capped(total_size(files_below(directories(all.take(i as int))))),
    {
        let ghost before = directories(all.take(i as int));
        proof {
            reveal(Seq::filter);
            assert(all.take(i + 1).drop_last() =~= all.take(i as int));
            assert(all.take(i + 1).last() == paths@[i as int]@);
        }
        if paths[i].kind == PathKind::Directory {
            proof {
                let one = paths@[i as int]@;
                assert(directories(all.take(i + 1)) =~= before.push(one));
                assert(before.push(one).drop_last() =~= before);
                lemma_total_size_add(files_below(before), one.files);
            }
            let size: u64 = match path_size(&paths[i]) {
                Some(n) => n,
                None => u64::MAX,
            };
            sum = sum.saturating_add(size);
        }
    }
    assert(all.take(paths@.len() as int) =~= all);
    sum
}

/// What is gathered while files are counted: their size, a preview of the
/// first ones, and their number.
struct Tally {
    size: u64,
    preview: Vec<FilePreview>,
}

impl Tally {
    /// The tally is that of the given files.
    spec fn counts(self, files: Seq<FileView>, limit: int) -> bool {
        &&& self.size == capped(total_size(files))
        &&& text::views(self.preview@) == previews(files, limit)
    }

    /// Counts one file more.
    fn add_file(&mut self, path: &str, size_bytes: u64, limit: usize, Ghost(files): Ghost<
        Seq<FileView>,
    >, Ghost(f): Ghost<FileView>)
        requires
            old(self).counts(files, limit as int),
            f.path == path@,
            f.size_bytes == size_bytes,
        ensures
            final(self).counts(files.push(f), limit as int),
    {
        proof {
            lemma_total_size_push(files, f);
            lemma_previews_push(files, limit as int, f);
        }
        self.size = self.size.saturating_add(size_bytes);
        assert(text::views(self.preview@).len() == self.preview@.len());
        if self.preview.len() < limit {
            let ghost before = self.preview@;
            let p = FilePreview { path: path.to_owned(), size_bytes };
            self.preview.push(p);
            proof {
                text::lemma_views_push(before, p);
            }
        }
    }
}

/// Adds up the files below the paths and previews the first `limit` of them.
/// A sum that does not fit is given as the largest number.
pub fn dirs_size_preview(dirs: &Vec<PathSurvey>, limit: usize) -> (r: (u64, Vec<FilePreview>))
    ensures
        r.0 == capped(total_size(files_below(text::views(dirs@)))),
        text::views(r.1@) == previews(files_below(text::views(dirs@)), limit as int),
{
    let mut t = Tally { size: 0, preview: Vec::new() };
    let ghost all = text::views(dirs@);
    proof {
        assert(text::views(t.preview@) =~= previews(files_below(all.take(0)), limit as int));
    }
    for i in 0..dirs.len()
        invariant
            all == text::views(dirs@),
            t.counts(files_below(all.take(i as int)), limit as int),
    {
        let ghost done = files_below(all.take(i as int));
        let files = &dirs[i].files;
        let ghost here = text::views(files@);
        assert(done + here.take(0) =~= done);
        for j in 0..files.len()
            invariant
                here == text::views(files@),
                t.counts(done + here.take(j as int), limit as int),
        {
            let f = &files[j];
            t.add_file(
                f.path.as_str(),
                f.size_bytes,
                limit,
                Ghost(done + here.take(j as int)),
                Ghost(f@),
            );
            assert(done + here.take(j + 1) =~= (done + here.take(j as int)).push(f@));
        }
        proof {
            assert(here.take(files@.len() as int) =~= here);
            assert(all.take(i + 1).drop_last() =~= all.take(i as int));
            assert(all.take(i + 1).last() == dirs@[i as int]@);
        }
    }
    assert(all.take(all.len() as int) =~= all);
    (t.size, t.preview)
}

/// A preview is never longer than its limit, and the size does not depend on
/// the limit: it counts the files that are not shown as well.
pub proof fn law_preview_is_bounded(files: Seq<FileView>, limit: int)
    requires
        0 <= limit,
    ensures
        previews(files, limit).len() <= limit,
        previews(files, limit).len() <= files.len(),
        forall|i: int|
            0 <= i < previews(files, limit).len() ==> #[trigger] previews(files, limit)[i]
                == preview_of(files[i]),
{
}

/// Which files of a walk are wanted.
#[derive(Clone, Copy, Debug, PartialEq, Eq, Structural)]
pub enum FileFilter {
    /// Every file.
    Any,
    /// Plain log files.
    Logs,
    /// What archivers leave behind while they unpack.
    ArchiveLeftovers,
}

/// Whether the filter wants a file of that name.
pub open spec fn wanted(filter: FileFilter, name: NameView) -> bool {
    match filter {
        FileFilter::Any => true,
        FileFilter::Logs => match extension(name.text) {
            Some(e) => {
                let low = text::lower(e);
                low == "log"@ || low == "old"@ || low == "etl"@ || low == "tmp"@
            },
            None => false,
        },
        FileFilter::ArchiveLeftovers => name.exact && {
            let low = text::lower(name.text);
            text::starts_with(low, "rar$"@) || text::starts_with(low, "7z"@) || text::starts_with(
                low,
                "winrar"@,
            )
        },
    }
}

/// Decides [`wanted`].
pub fn is_wanted(filter: FileFilter, name: &FileName) -> (r: bool)
    ensures
        r == wanted(filter, name@),
{
    match filter {
        FileFilter::Any => true,
        FileFilter::Logs => {
            match extension_of(name.text.as_str()) {
                Some(e) => {
                    let low = text::lower_string(e.as_str());
                    let l = low.as_str();
                    text::same_text(l, "log") || text::same_text(l, "old") || text::same_text(
                        l,
                        "etl",
                    ) || text::same_text(l, "tmp")
                },
                None => false,
            }
        },
        FileFilter::ArchiveLeftovers => {
            if !name.exact {
                return false;
            }
            let cs = text::chars_of(name.text.as_str());
            let low = text::lowered(cs.as_slice());
            let l = low.as_slice();
            text::begins_with(l, "rar$") || text::begins_with(l, "7z") || text::begins_with(
                l,
                "winrar",
            )
        },
    }
}

/// The wanted files of one path: the path itself where it is a file, the files
/// below it where it is a directory.
pub open spec fn wanted_at(p: SurveyView, filter: FileFilter) -> Seq<FileView> {
    if p.kind == PathKind::File {
        if wanted(filter, p.name) {
            seq![(FileView { path: p.path, name: p.name, size_bytes: p.size_bytes })]
        } else {
            Seq::empty()
        }
    } else if p.kind == PathKind::Directory {
        p.files.filter(|f: FileView| wanted(filter, f.name))
    } else {
        Seq::empty()
    }
}

/// The wanted files of the paths, in order.
pub open spec fn wanted_files(paths: Seq<SurveyView>, filter: FileFilter) -> Seq<FileView>
    decreases paths.len(),
{
    if paths.len() == 0 {
        Seq::empty()
    } else {
        wanted_files(paths.drop_last(), filter) + wanted_at(paths.last(), filter)
    }
}

/// Files that were collected, with their size and a preview.
#[derive(Debug)]
pub struct FileCollection {
    pub size: u64,
    pub preview: Vec<FilePreview>,
    pub files: Vec<String>,
}

/// The longest preview of collected files.
pub const COLLECTION_PREVIEW: usize = 180;

impl FileCollection {
    /// The collection is that of the given files.
    pub open spec fn collects(self, files: Seq<FileView>) -> bool {
        &&& self.size == capped(total_size(files))
        &&& text::views(self.preview@) == previews(files, COLLECTION_PREVIEW as int)
        &&& text::views(self.files@) == files.map_values(|f: FileView| f.path)
    }
}

/// Collects the wanted files: paths that are files themselves and the files
/// below paths that are directories.
pub fn collect_files_matching(paths: &Vec<PathSurvey>, filter: FileFilter) -> (r: FileCollection)
    ensures
        r.collects(wanted_files(text::views(paths@), filter)),
{
    let mut t = Tally { size: 0, preview: Vec::new() };
    let mut files: Vec<String> = Vec::new();
    let ghost all = text::views(paths@);
    let ghost to_path = |f: FileView| f.path;
    let ghost keep = |f: FileView| wanted(filter, f.name);
    proof {
        assert(text::views(t.preview@) =~= previews(wanted_files(all.take(0), filter), 180));
        assert(text::views(files@) =~= wanted_files(all.take(0), filter).map_values(to_path));
    }
    for i in 0..paths.len()
        invariant
            all == text::views(paths@),
            to_path == (|f: FileView| f.path),
            keep == (|f: FileView| wanted(filter, f.name)),
            t.counts(wanted_files(all.take(i as int), filter), COLLECTION_PREVIEW as int),
            text::views(files@) == wanted_files(all.take(i as int), filter).map_values(to_path),
    {
        let ghost done = wanted_files(all.take(i as int), filter);
        let p = &paths[i];
        proof {
            assert(all.take(i + 1).drop_last() =~= all.take(i as int));
            assert(all.take(i + 1).last() == p@);
        }
        if p.kind == PathKind::File {
            if is_wanted(filter, &p.name) {
                let ghost f = FileView { path: p@.path, name: p@.name, size_bytes: p@.size_bytes };
                let ghost before = files@;
                t.add_file(
                    p.path.as_str(),
                    p.size_bytes,
                    COLLECTION_PREVIEW,
                    Ghost(done),
                    Ghost(f),
                );
                let path = p.path.clone();
                files.push(path);
                proof {
                    text::lemma_views_push(before, path);
                    assert(done + seq![f] =~= done.push(f));
                    assert(done.push(f).map_values(to_path) =~= done.map_values(to_path).push(
                        f.path,
                    ));
                }
            } else {
                assert(done + Seq::<FileView>::empty() =~= done);
            }
        } else if p.kind == PathKind::Directory {
            let below = &p.files;
            let ghost here = text::views(below@);
            proof {
                reveal(Seq::filter);
                assert(done + here.take(0).filter(keep) =~= done);
            }
            for j in 0..below.len()
                invariant
                    here == text::views(below@),
                    to_path == (|f: FileView| f.path),
                    keep == (|f: FileView| wanted(filter, f.name)),
                    t.counts(done + here.take(j as int).filter(keep), COLLECTION_PREVIEW as int),
                    text::views(files@) == (done + here.take(j as int).filter(keep)).map_values(
                        to_path,
                    ),
            {
                let ghost so_far = done + here.take(j as int).filter(keep);
                let f = &below[j];
                proof {
                    reveal(Seq::filter);
                    assert(here.take(j + 1).drop_last() =~= here.take(j as int));
                    assert(here.take(j + 1).last() == f@);
                }
                if is_wanted(filter, &f.name) {
                    let ghost before = files@;
                    t.add_file(
                        f.path.as_str(),
                        f.size_bytes,
                        COLLECTION_PREVIEW,
                        Ghost(so_far),
                        Ghost(f@),
                    );
                    let path = f.path.clone();
                    files.push(path);
                    proof {
                        text::lemma_views_push(before, path);
                        assert(done + here.take(j + 1).filter(keep) =~= so_far.push(f@));
                        assert(so_far.push(f@).map_values(to_path) =~= so_far.map_values(
                            to_path,
                        ).push(f@.path));
                    }
                } else {
                    assert(done + here.take(j + 1).filter(keep) =~= so_far);
                }
            }
            assert(here.take(below@.len() as int) =~= here);
        } else {
            assert(done + Seq::<FileView>::empty() =~= done);
        }
    }
    assert(all.take(all.len() as int) =~= all);
    FileCollection { size: t.size, preview: t.preview, files }
}

/// Collects every file: paths that are files themselves and the files below
/// paths that are directories.
pub fn collect_existing_files(paths: &Vec<PathSurvey>) -> (r: FileCollection)
    ensures
        r.collects(wanted_files(text::views(paths@), FileFilter::Any)),
{
    collect_files_matching(paths, FileFilter::Any)
}

/// The size of what stands at a path: that of the file, or of the files below
/// the directory.
pub open spec fn size_at(p: SurveyView) -> nat {
    if p.kind == PathKind::File {
        p.size_bytes as nat
    } else if p.kind == PathKind::Directory {
        total_size(p.files)
    } else {
        0
    }
}

/// Measures what stands at a path. There is no answer where the sum does not
/// fit in 64 bits.
pub fn path_size(p: &PathSurvey) -> (r: Option<u64>)
    ensures
        r == if size_at(p@) <= u64::MAX {
            Some(size_at(p@) as u64)
        } else {
            None
        },
{
    if p.kind == PathKind::File {
        return Some(p.size_bytes);
    }
    if p.kind != PathKind::Directory {
        return Some(0);
    }
    let ghost files = text::views(p.files@);
    let mut sum: u128 = 0;
    let n = p.files.len();
    for i in 0..n
        invariant
            n == p.files@.len(),
            files == text::views(p.files@),
            sum == total_size(files.take(i as int)),
            sum <= i * 0xffff_ffff_ffff_ffff,
    {
        proof {
            assert(files.take(i + 1).drop_last() =~= files.take(i as int));
            assert(i * 0xffff_ffff_ffff_ffff <= 0xffff_ffff_ffff_ffff * 0xffff_ffff_ffff_ffff)
                by (nonlinear_arith)
                requires
                    0 <= i <= 0xffff_ffff_ffff_ffff,
            ;
        }
        sum = sum + p.files[i].size_bytes as u128;
    }
    assert(files.take(n as int) =~= files);
    if sum <= 0xffff_ffff_ffff_ffff {
        Some(sum as u64)
    } else {
        None
    }
}

/// The first four paths with a semicolon and a space between any two of them.
pub open spec fn path_list(paths: Seq<Seq<char>>) -> Seq<char> {
    text::join(
        paths.take(
            if paths.len() <= 4 {
                paths.len() as int
            } else {
                4
            },
        ),
        "; "@,
    )
}

/// Shows the first four paths in one line.
pub fn join_paths(paths: &Vec<String>) -> (r: String)
    ensures
        r@ == path_list(text::views(paths@)),
{
    let mut first: Vec<String> = Vec::new();
    let n = if paths.len() <= 4 {
        paths.len()
    } else {
        4
    };
    for i in 0..n
        invariant
            n <= paths@.len(),
            text::views(first@) == text::views(paths@).take(i as int),
    {
        let ghost before = first@;
        let p = paths[i].clone();
        first.push(p);
        proof {
            text::lemma_views_push(before, p);
            assert(text::views(paths@).take(i + 1) =~= text::views(paths@).take(i as int).push(p@));
        }
    }
    text::join_strings(&first, "; ")
}

// ---------------------------------------------------------------------------
// Paths that a survey reaches

/// Whether a walk from the surveyed path came across a file.
pub open spec fn lists(s: SurveyView, path: Seq<char>) -> bool {
    exists|j: int| 0 <= j < s.files.len() && (#[trigger] s.files[j]).path == path
}

/// Whether the path is the surveyed one or a file below it.
pub open spec fn reaches(s: SurveyView, path: Seq<char>) -> bool {
    path == s.path || lists(s, path)
}

/// Whether one of the surveys reaches the path.
pub open spec fn covered(surveys: Seq<SurveyView>, path: Seq<char>) -> bool {
    exists|k: int| 0 <= k < surveys.len() && reaches(#[trigger] surveys[k], path)
}

/// Whether every survey of the first list is in the second.
pub open spec fn among(part: Seq<SurveyView>, all: Seq<SurveyView>) -> bool {
    forall|k: int| 0 <= k < part.len() ==> all.contains(#[trigger] part[k])
}

/// What a part of the surveys reaches, all of them reach.
pub proof fn lemma_covered_among(part: Seq<SurveyView>, all: Seq<SurveyView>, path: Seq<char>)
    requires
        among(part, all),
        covered(part, path),
    ensures
        covered(all, path),
{
    let k = choose|k: int| 0 <= k < part.len() && reaches(#[trigger] part[k], path);
    assert(all.contains(part[k]));
    let n = choose|n: int| 0 <= n < all.len() && all[n] == part[k];
    assert(reaches(all[n], path));
}

/// A filter keeps surveys of the list.
pub proof fn lemma_filter_among(s: Seq<SurveyView>, keep: spec_fn(SurveyView) -> bool)
    ensures
        among(s.filter(keep), s),
{
    let part = s.filter(keep);
    assert forall|k: int| 0 <= k < part.len() implies s.contains(#[trigger] part[k]) by {
        assert(part.contains(part[k]));
        s.lemma_filter_contains_rev(keep, part[k]);
    }
}

/// The surveys of two lists are among both together.
pub proof fn lemma_among_sum(a: Seq<SurveyView>, b: Seq<SurveyView>)
    ensures
        among(a, a + b),
        among(b, a + b),
{
    assert forall|k: int| 0 <= k < a.len() implies (a + b).contains(#[trigger] a[k]) by {
        assert((a + b)[k] == a[k]);
    }
    assert forall|k: int| 0 <= k < b.len() implies (a + b).contains(#[trigger] b[k]) by {
        assert((a + b)[a.len() + k] == b[k]);
    }
}

/// What is among a part is among all.
pub proof fn lemma_among_transitive(a: Seq<SurveyView>, b: Seq<SurveyView>, c: Seq<SurveyView>)
    requires
        among(a, b),
        among(b, c),
    ensures
        among(a, c),
{
    assert forall|k: int| 0 <= k < a.len() implies c.contains(#[trigger] a[k]) by {
        assert(b.contains(a[k]));
        let n = choose|n: int| 0 <= n < b.len() && b[n] == a[k];
        assert(c.contains(b[n]));
    }
}

/// Each of several lists is among all of them one after the other.
pub proof fn lemma_among_flatten(lists: Seq<Seq<SurveyView>>, i: int)
    requires
        0 <= i < lists.len(),
    ensures
        among(lists[i], lists.flatten()),
    decreases lists.len(),
{
    let rest = lists.drop_first();
    lemma_among_sum(lists.first(), rest.flatten());
    if i > 0 {
        lemma_among_flatten(rest, i - 1);
        lemma_among_transitive(lists[i], rest.flatten(), lists.flatten());
    }
}

/// The distinct directories are among the surveys that there are.
pub proof fn lemma_distinct_among(s: Seq<Option<SurveyView>>)
    ensures
        among(distinct_directories(s), text::given(s)),
{
    law_directories_are_distinct(s);
    let d = distinct_directories(s);
    assert forall|k: int| 0 <= k < d.len() implies text::given(s).contains(#[trigger] d[k]) by {
        assert(d[k].kind == PathKind::Directory);
        assert(s.contains(Some(d[k])));
        let n = choose|n: int| 0 <= n < s.len() && s[n] == Some(d[k]);
        text::lemma_given_holds(s, n);
    }
}

/// Every wanted file is one of the paths or below one of them.
pub proof fn lemma_wanted_covered(paths: Seq<SurveyView>, filter: FileFilter, i: int)
    requires
        0 <= i < wanted_files(paths, filter).len(),
    ensures
        covered(paths, wanted_files(paths, filter)[i].path),
    decreases paths.len(),
{
    let shorter = paths.drop_last();
    let before = wanted_files(shorter, filter);
    let path = wanted_files(paths, filter)[i].path;
    if i < before.len() {
        lemma_wanted_covered(shorter, filter, i);
        assert forall|k: int| 0 <= k < shorter.len() implies paths.contains(
            #[trigger] shorter[k],
        ) by {
            assert(paths[k] == shorter[k]);
        }
        lemma_covered_among(shorter, paths, path);
    } else {
        let last = paths[paths.len() - 1];
        let here = wanted_at(last, filter);
        let f = here[i - before.len()];
        if last.kind == PathKind::Directory {
            let keep = |f: FileView| wanted(filter, f.name);
            assert(here.contains(f));
            last.files.lemma_filter_contains_rev(keep, f);
            let j = choose|j: int| 0 <= j < last.files.len() && last.files[j] == f;
            assert(last.files[j].path == path);
        }
        assert(reaches(last, path));
    }
}

// ---------------------------------------------------------------------------
// What the rules on files mean

/// A plain name below a plain directory follows it after one separator, and
/// below a drive's root or an empty path directly.
pub proof fn law_names_follow_after_one_separator(base: Seq<char>, name: Seq<char>)
    requires
        !is_verbatim(base),
    ensures
        base.len() > 2 && base.last() != '\\' && base.last() != '/' ==> joined(base, name) == base
            + "\\"@ + name,
        base.len() > 0 && (base.last() == '\\' || base.last() == '/') ==> joined(base, name)
            == base + name,
        base.len() == 0 ==> joined(base, name) == name,
{
    if base.len() == 0 {
        assert(base + name =~= name);
    }
}

/// The extension of a name is what follows its last dot; a name without a dot,
/// and one whose only dot begins it, has none.
pub proof fn law_extension_follows_the_last_dot(stem: Seq<char>, ext: Seq<char>)
    requires
        forall|i: int| 0 <= i < ext.len() ==> ext[i] != '.',
    ensures
        stem.len() > 0 && !(stem == "."@ && ext.len() == 0) ==> extension(stem + "."@ + ext)
            == Some(ext),
        extension(ext) is None,
        extension("."@ + ext) is None,
{
    reveal_strlit(".");
    reveal_strlit("..");
    let all = stem + "."@ + ext;
    lemma_last_of_is(all, stem.len() as int, '.');
    assert(all.skip(stem.len() as int + 1) =~= ext);
    if all == ".."@ {
        assert(all.len() == 2);
        assert(all[0] == '.' && all[1] == '.');
        if stem.len() > 0 {
            assert(stem =~= "."@);
        }
    }
    lemma_last_of_none(ext, '.');
    lemma_last_of_is("."@ + ext, 0, '.');
}

/// The last place is where the character stands and none after it.
proof fn lemma_last_of_is(s: Seq<char>, k: int, c: char)
    requires
        0 <= k < s.len(),
        s[k] == c,
        forall|j: int| k < j < s.len() ==> s[j] != c,
    ensures
        last_of(s, c) == k,
    decreases s.len(),
{
    if k < s.len() - 1 {
        lemma_last_of_is(s.drop_last(), k, c);
    }
}

/// There is no place where the character does not stand.
proof fn lemma_last_of_none(s: Seq<char>, c: char)
    requires
        forall|j: int| 0 <= j < s.len() ==> s[j] != c,
    ensures
        last_of(s, c) == -1,
    decreases s.len(),
{
    if s.len() > 0 {
        lemma_last_of_none(s.drop_last(), c);
    }
}

/// A log file is one whose extension is `log`, `old`, `etl` or `tmp`, in
/// whatever case.
pub proof fn law_logs_go_by_their_extension(stem: Seq<char>, ext: Seq<char>, exact: bool)
    requires
        forall|i: int| 0 <= i < ext.len() ==> ext[i] != '.',
    ensures
        stem.len() > 0 && ext.len() > 0 ==> (wanted(
            FileFilter::Logs,
            NameView { text: stem + "."@ + ext, exact },
        ) <==> (text::lower(ext) == "log"@ || text::lower(ext) == "old"@ || text::lower(ext)
            == "etl"@ || text::lower(ext) == "tmp"@)),
        !wanted(FileFilter::Logs, NameView { text: ext, exact }),
        !wanted(FileFilter::Logs, NameView { text: "."@ + ext, exact }),
{
    law_extension_follows_the_last_dot(stem, ext);
}

/// What archivers leave behind begins with `rar$`, `7z` or `winrar`, in
/// whatever case; every file is wanted where all are.
pub proof fn law_leftovers_go_by_their_beginning(name: NameView)
    ensures
        wanted(FileFilter::ArchiveLeftovers, name) <==> name.exact && exists|rest: Seq<char>|
            text::lower(name.text) == #[trigger] ("rar$"@ + rest) || text::lower(name.text)
                == "7z"@ + rest || text::lower(name.text) == "winrar"@ + rest,
        wanted(FileFilter::Any, name),
{
    let low = text::lower(name.text);
    text::law_containing_is_having_as_a_middle(low, "rar$"@);
    text::law_containing_is_having_as_a_middle(low, "7z"@);
    text::law_containing_is_having_as_a_middle(low, "winrar"@);
    if text::starts_with(low, "rar$"@) {
        let rest = choose|rest: Seq<char>| low == #[trigger] ("rar$"@ + rest);
        assert(low == "rar$"@ + rest);
    }
    if text::starts_with(low, "7z"@) {
        let rest = choose|rest: Seq<char>| low == #[trigger] ("7z"@ + rest);
        let other = "rar$"@ + rest;
        assert(low == "7z"@ + rest);
    }
    if text::starts_with(low, "winrar"@) {
        let rest = choose|rest: Seq<char>| low == #[trigger] ("winrar"@ + rest);
        let other = "rar$"@ + rest;
        assert(low == "winrar"@ + rest);
    }
}

/// The files wanted at several paths are those wanted at each, in order. At a
/// file that is the file, in a directory the files below it, and elsewhere
/// nothing.
pub proof fn law_wanted_files_follow_their_paths(
    paths: Seq<SurveyView>,
    more: Seq<SurveyView>,
    one: SurveyView,
    filter: FileFilter,
)
    ensures
        wanted_files(paths + more, filter) == wanted_files(paths, filter) + wanted_files(
            more,
            filter,
        ),
        one.kind == PathKind::File && wanted(filter, one.name) ==> wanted_files(
            seq![one],
            filter,
        ) == seq![(FileView { path: one.path, name: one.name, size_bytes: one.size_bytes })],
        one.kind == PathKind::File && !wanted(filter, one.name) ==> wanted_files(
            seq![one],
            filter,
        ).len() == 0,
        one.kind == PathKind::Missing || one.kind == PathKind::Other ==> wanted_files(
            seq![one],
            filter,
        ).len() == 0,
        one.kind == PathKind::Directory ==> forall|f: FileView| #[trigger]
            wanted_files(seq![one], filter).contains(f) <==> one.files.contains(f) && wanted(
                filter,
                f.name,
            ),
    decreases more.len(),
{
    if more.len() == 0 {
        assert(paths + more =~= paths);
        assert(wanted_files(paths, filter) + wanted_files(more, filter) =~= wanted_files(
            paths,
            filter,
        ));
    } else {
        assert((paths + more).drop_last() =~= paths + more.drop_last());
        law_wanted_files_follow_their_paths(paths, more.drop_last(), one, filter);
        assert(wanted_files(paths + more, filter) =~= wanted_files(paths, filter) + wanted_files(
            more,
            filter,
        ));
    }
    let here = wanted_files(seq![one], filter);
    assert(seq![one].drop_last() =~= Seq::empty());
    assert(wanted_files(Seq::empty(), filter) =~= Seq::empty());
    assert(here =~= wanted_at(one, filter));
    if one.kind == PathKind::Directory {
        let keep = |f: FileView| wanted(filter, f.name);
        assert forall|f: FileView| #[trigger] here.contains(f) <==> one.files.contains(f) && wanted(
            filter,
            f.name,
        ) by {
            if here.contains(f) {
                let k = choose|k: int| 0 <= k < here.len() && here[k] == f;
                one.files.lemma_filter_pred(keep, k);
                one.files.lemma_filter_contains_rev(keep, f);
            }
            if one.files.contains(f) && wanted(filter, f.name) {
                let k = choose|k: int| 0 <= k < one.files.len() && one.files[k] == f;
                assert(keep(f));
                one.files.lemma_filter_contains(keep, k);
            }
        }
    }
}

/// Directories, and paths that exist, are picked in order, and from several
/// lists as from each.
pub proof fn law_paths_are_picked_in_order(
    paths: Seq<SurveyView>,
    more: Seq<SurveyView>,
    one: SurveyView,
)
    ensures
        directories(paths + more) == directories(paths) + directories(more),
        present(paths + more) == present(paths) + present(more),
        directories(seq![one]) == if one.kind == PathKind::Directory {
            seq![one]
        } else {
            Seq::empty()
        },
        present(seq![one]) == if one.kind == PathKind::Missing {
            Seq::empty()
        } else {
            seq![one]
        },
{
    reveal(Seq::filter);
    let is_dir = |p: SurveyView| p.kind == PathKind::Directory;
    let is_there = |p: SurveyView| p.kind != PathKind::Missing;
    Seq::filter_distributes_over_add(paths, more, is_dir);
    Seq::filter_distributes_over_add(paths, more, is_there);
    let none = Seq::<SurveyView>::empty();
    assert(seq![one].drop_last() =~= none);
    assert(none.filter(is_dir) =~= none);
    assert(none.filter(is_there) =~= none);
    assert(none.push(one) =~= seq![one]);
}

/// Of directories that are the same, ASCII capitals aside, the first counts,
/// and later paths change nothing about earlier ones.
pub proof fn law_earlier_directories_count(
    s: Seq<Option<SurveyView>>,
    more: Seq<Option<SurveyView>>,
)
    ensures
        distinct_directories(s).len() <= distinct_directories(s + more).len(),
        distinct_directories(s + more).take(distinct_directories(s).len() as int)
            == distinct_directories(s),
    decreases more.len(),
{
    let first = distinct_directories(s);
    if more.len() == 0 {
        assert(s + more =~= s);
        assert(first.take(first.len() as int) =~= first);
    } else {
        assert((s + more).drop_last() =~= s + more.drop_last());
        law_earlier_directories_count(s, more.drop_last());
        let before = distinct_directories(s + more.drop_last());
        let all = distinct_directories(s + more);
        assert(all.take(first.len() as int) =~= before.take(first.len() as int));
    }
}

/// There is a recycle bin to look at for every drive letter, and no other.
pub proof fn law_every_drive_has_a_recycle_bin(c: char)
    ensures
        recycle_bins().len() == 26,
        'A' <= c <= 'Z' ==> recycle_bins().contains(seq![c] + ":\\$Recycle.Bin"@),
{
    if 'A' <= c <= 'Z' {
        let i = c as int - 'A' as int;
        assert(recycle_bins()[i] =~= seq![c] + ":\\$Recycle.Bin"@);
    }
}

/// The first four paths are shown with a mark between any two, and no more.
pub proof fn law_four_paths_are_shown(paths: Seq<Seq<char>>, more: Seq<Seq<char>>)
    ensures
        paths.len() <= 4 ==> path_list(paths) == text::join(paths, "; "@),
        paths.len() == 4 ==> path_list(paths + more) == path_list(paths),
{
    if paths.len() <= 4 {
        assert(paths.take(paths.len() as int) =~= paths);
    }
    if paths.len() == 4 {
        assert((paths + more).take(4) =~= paths);
    }
}

/// A preview shows the first files, each with its path and size, up to the
/// limit.
pub proof fn law_preview_shows_the_first_files(
    files: Seq<FileView>,
    more: Seq<FileView>,
    limit: int,
    i: int,
)
    requires
        0 <= i < files.len(),
        0 <= limit,
    ensures
        files.len() <= limit ==> previews(files, limit).len() == files.len() && previews(
            files,
            limit,
        )[i].path == files[i].path && previews(files, limit)[i].size_bytes == files[i].size_bytes,
        files.len() == limit ==> previews(files + more, limit) == previews(files, limit),
{
    if files.len() == limit {
        assert((files + more).take(limit) =~= files);
        assert(files.take(limit) =~= files);
        assert(previews(files + more, limit) =~= previews(files, limit));
    }
}

/// The files below several paths are those below each, in order, and their
/// sizes add up; a size that does not fit is given as the largest number.
pub proof fn law_sizes_below_add_up(dirs: Seq<SurveyView>, more: Seq<SurveyView>, one: SurveyView)
    ensures
        files_below(dirs + more) == files_below(dirs) + files_below(more),
        files_below(seq![one]) == one.files,
        total_size(files_below(dirs + more)) == total_size(files_below(dirs)) + total_size(
            files_below(more),
        ),
        capped(total_size(files_below(dirs))) <= u64::MAX,
        total_size(files_below(dirs)) <= u64::MAX ==> capped(total_size(files_below(dirs)))
            == total_size(files_below(dirs)),
        total_size(files_below(dirs)) > u64::MAX ==> capped(total_size(files_below(dirs)))
            == u64::MAX,
    decreases more.len(),
{
    reveal_with_fuel(files_below, 3);
    assert(files_below(seq![one]) =~= one.files);
    if more.len() == 0 {
        assert(dirs + more =~= dirs);
        assert(files_below(dirs) + files_below(more) =~= files_below(dirs));
    } else {
        assert((dirs + more).drop_last() =~= dirs + more.drop_last());
        law_sizes_below_add_up(dirs, more.drop_last(), one);
        assert(files_below(dirs + more) =~= files_below(dirs) + files_below(more));
    }
    lemma_total_size_add(files_below(dirs), files_below(more));
}

/// What stands at a path has its own size where it is a file, the size of all
/// files below it where it is a directory, and else none.
pub proof fn law_size_at_a_path(p: SurveyView, f: FileView)
    ensures
        p.kind == PathKind::File ==> size_at(p) == p.size_bytes,
        p.kind == PathKind::Directory ==> size_at(p) == total_size(p.files),
        p.kind == PathKind::Missing || p.kind == PathKind::Other ==> size_at(p) == 0,
        total_size(p.files.push(f)) == total_size(p.files) + f.size_bytes,
        total_size(Seq::empty()) == 0,
{
    lemma_total_size_push(p.files, f);
}

/// A name follows a drive directly, and any other text of two characters or
/// fewer after a separator, unless it ends with one.
pub proof fn law_names_follow_a_drive(c: char, d: char, name: Seq<char>)
    ensures
        ('a' <= c <= 'z' || 'A' <= c <= 'Z') ==> joined(seq![c, ':'], name) == seq![c, ':'] + name,
        !('a' <= c <= 'z' || 'A' <= c <= 'Z') ==> joined(seq![c, ':'], name) == seq![c, ':', '\\']
            + name,
        d != ':' && d != '\\' && d != '/' ==> joined(seq![c, d], name) == seq![c, d, '\\'] + name,
        c != '\\' && c != '/' ==> joined(seq![c], name) == seq![c, '\\'] + name,
{
    reveal_strlit("\\");
    reveal_strlit("\\\\?\\");
    assert(seq![c, ':'] + "\\"@ + name =~= seq![c, ':', '\\'] + name);
    assert(seq![c, d] + "\\"@ + name =~= seq![c, d, '\\'] + name);
    assert(seq![c] + "\\"@ + name =~= seq![c, '\\'] + name);
}

/// Whether the text is a path below which names follow after a backslash.
pub open spec fn is_plain(base: Seq<char>) -> bool {
    base.len() > 3 && !is_verbatim(base) && base.last() != '\\' && base.last() != '/'
}

/// A name follows a plain path after a backslash, and the path stays plain.
pub proof fn lemma_joined_plain(base: Seq<char>, name: Seq<char>)
    requires
        is_plain(base),
        name.len() > 0,
        name.last() != '\\' && name.last() != '/',
    ensures
        joined(base, name) == base + "\\"@ + name,
        is_plain(joined(base, name)),
{
    reveal_strlit("\\");
    reveal_strlit("\\\\?\\");
    let all = base + "\\"@ + name;
    assert(all.last() == name.last());
    if is_verbatim(all) {
        assert(all.take(4) =~= "\\\\?\\"@);
        assert forall|i: int| 0 <= i < 4 implies base[i] == "\\\\?\\"@[i] by {
            assert(all.take(4)[i] == base[i]);
        }
        assert(base.take(4) =~= "\\\\?\\"@);
    }
}

/// The parts of a text that joins parts without backslashes are those parts.
proof fn lemma_parts_of_join(list: Seq<Seq<char>>)
    requires
        forall|i: int|
            0 <= i < list.len() ==> (#[trigger] list[i]).len() > 0 && !list[i].contains('\\'),
    ensures
        parts(text::join(list, "\\"@)) == list,
    decreases list.len(),
{
    reveal_strlit("\\");
    let s = text::join(list, "\\"@);
    if list.len() == 0 {
        assert(s =~= Seq::empty());
        assert(parts(s) =~= list);
    } else {
        let first = list[0];
        let rest = list.skip(1);
        lemma_parts_of_join(rest);
        assert(!first.contains('\\'));
        assert forall|j: int| 0 <= j < first.len() implies first[j] != '\\' by {
            if first[j] == '\\' {
                assert(first.contains('\\'));
            }
        }
        if rest.len() == 0 {
            assert(s =~= first);
            text::lemma_first_of(s, '\\');
            assert(text::first_of(s, '\\') == s.len());
            assert(s.take(s.len() as int) =~= first);
            assert(after_backslash(s) =~= Seq::empty());
            assert(parts(after_backslash(s)) =~= Seq::empty());
            assert(parts(s) =~= list);
        } else {
            let more = text::join(rest, "\\"@);
            text::lemma_join_front(list, "\\"@);
            assert(s =~= first + "\\"@ + more);
            text::lemma_first_of_is(s, '\\', first.len() as int);
            assert(s.take(first.len() as int) =~= first);
            assert(after_backslash(s) =~= more);
            assert(seq![first] + rest =~= list);
        }
    }
}

/// Below a path on a drive that is to be taken as it stands, a name follows as
/// one part more.
pub proof fn law_names_follow_a_verbatim_drive(
    c: char,
    list: Seq<Seq<char>>,
    name: Seq<char>,
)
    requires
        'a' <= c <= 'z' || 'A' <= c <= 'Z',
        name.len() > 0,
        list.len() > 0,
        forall|i: int|
            0 <= i < list.len() ==> (#[trigger] list[i]).len() > 0 && !list[i].contains('\\')
                && !list[i].contains('/'),
    ensures
        joined("\\\\?\\"@ + seq![c] + ":\\"@ + text::join(list, "\\"@), name) == "\\\\?\\"@ + seq![c]
            + ":\\"@ + text::join(list, "\\"@) + "\\"@ + name,
{
    reveal_strlit("\\\\?\\");
    reveal_strlit(":\\");
    reveal_strlit("\\");
    reveal_strlit("UNC");
    let tail = text::join(list, "\\"@);
    let base = "\\\\?\\"@ + seq![c] + ":\\"@ + tail;
    let t = base.skip(4);
    assert(base.take(4) =~= "\\\\?\\"@);
    assert(t[0] == c && t[1] == ':' && t[2] == '\\');
    assert(t.take(3)[1] == ':');
    assert("UNC"@[1] == 'N');
    assert(t.take(2)[0] == c && t.take(2)[1] == ':');
    assert(verbatim_prefix_len(base) == 6);
    assert(base.skip(6) =~= "\\"@ + tail);
    assert(without_root(base.skip(6)) =~= tail);
    lemma_parts_of_join(list);
    assert(list.push(name).drop_last() =~= list);
    assert(text::join(list.push(name), "\\"@) =~= tail + "\\"@ + name);
    assert(joined(base, name) =~= base.take(6) + "\\"@ + (tail + "\\"@ + name));
    assert(base.take(6) + "\\"@ =~= "\\\\?\\"@ + seq![c] + ":\\"@);
    assert(joined(base, name) =~= base + "\\"@ + name);
}

/// The Windows directory is where the system says, whatever it says, and else
/// on the drive `C:`.
pub proof fn law_windows_is_where_the_system_says(root: Seq<char>)
    ensures
        windows_path(Some(root)) == root,
        windows_path(None) == "C:\\Windows"@,
{
}

} // verus!
