//! Backups of the registry: which keys are exported before anything is deleted,
//! how the exports become one file, and how backups are listed and restored.
use crate::clock;
use crate::clock::Moment;
use crate::command;
use crate::command::Run;
use crate::disk;
use crate::disk::{FileName, NameView};
use crate::item;
use crate::item::{ActionView, CleanAction, ScannedItem, ScannedView};
use crate::text;
use crate::utf16;
use vstd::prelude::*;

verus! {

// ---------------------------------------------------------------------------
// Which keys

/// The key that an action deletes from, if it deletes from the registry.
pub open spec fn key_of(action: ActionView) -> Option<Seq<char>> {
    match action {
        ActionView::RegistryDelete { key_path, .. } => Some(key_path),
        _ => None,
    }
}

/// The keys from which the items delete, each once, in the order in which they
/// come up.
pub open spec fn keys_of(items: Seq<ScannedView>) -> Seq<Seq<char>>
    decreases items.len(),
{
    if items.len() == 0 {
        Seq::empty()
    } else {
        let before = keys_of(items.drop_last());
        match key_of(items.last().action) {
            Some(k) => if before.contains(k) {
                before
            } else {
                before.push(k)
            },
            None => before,
        }
    }
}

/// Lists the keys from which the items delete, each once.
pub fn registry_keys(items: &Vec<ScannedItem>) -> (r: Vec<String>)
    ensures
        text::views(r@) == keys_of(text::views(items@)),
{
    let ghost all = text::views(items@);
    let mut r: Vec<String> = Vec::new();
    assert(all.take(0) =~= Seq::empty());
    assert(text::views(r@) =~= Seq::empty());
    for i in 0..items.len()
        invariant
            all == text::views(items@),
            text::views(r@) == keys_of(all.take(i as int)),
    {
        let ghost before = r@;
        proof {
            assert(all.take(i + 1).drop_last() =~= all.take(i as int));
            assert(all.take(i + 1).last() == items@[i as int]@);
        }
        match &items[i].action {
            CleanAction::RegistryDelete { key_path, .. } => {
                if !text::holds_text(&r, key_path.as_str()) {
                    let key = key_path.clone();
                    r.push(key);
                    proof {
                        text::lemma_views_push(before, key);
                    }
                }
            },
            _ => {},
        }
    }
    assert(all.take(items@.len() as int) =~= all);
    r
}

/// Every key from which something is deleted is backed up, once, and no other
/// key is.
pub proof fn law_backup_covers_deletions(items: Seq<ScannedView>)
    ensures
        keys_of(items).no_duplicates(),
        forall|k: Seq<char>| #[trigger]
            keys_of(items).contains(k) <==> exists|i: int|
                0 <= i < items.len() && key_of((#[trigger] items[i]).action) == Some(k),
    decreases items.len(),
{
    let keys = keys_of(items);
    if items.len() > 0 {
        let shorter = items.drop_last();
        law_backup_covers_deletions(shorter);
        let before = keys_of(shorter);
        let last = items.len() - 1;
        assert forall|k: Seq<char>| #[trigger] keys.contains(k) <==> exists|i: int|
            0 <= i < items.len() && key_of((#[trigger] items[i]).action) == Some(k) by {
            if keys.contains(k) {
                if before.contains(k) {
                    let i = choose|i: int|
                        0 <= i < shorter.len() && key_of((#[trigger] shorter[i]).action) == Some(
                            k,
                        );
                    assert(items[i] == shorter[i]);
                } else {
                    let n = choose|n: int| 0 <= n < keys.len() && keys[n] == k;
                    if n < before.len() {
                        assert(before[n] == k);
                    }
                    assert(key_of(items[last].action) == Some(k));
                }
            }
            if exists|i: int|
                0 <= i < items.len() && key_of((#[trigger] items[i]).action) == Some(k) {
                let i = choose|i: int|
                    0 <= i < items.len() && key_of((#[trigger] items[i]).action) == Some(k);
                if i < last {
                    assert(key_of(shorter[i].action) == Some(k));
                    assert(before.contains(k));
                    let n = choose|n: int| 0 <= n < before.len() && before[n] == k;
                    assert(keys[n] == k);
                } else if !before.contains(k) {
                    assert(keys[keys.len() - 1] == k);
                }
            }
        }
    }
}

// ---------------------------------------------------------------------------
// Names

/// The name that the files of one backup begin with.
pub open spec fn backup_stem(timestamp: u64) -> Seq<char> {
    "registry_backup_"@ + text::decimal(timestamp as nat)
}

/// The name of a backup.
pub open spec fn backup_name(timestamp: u64) -> Seq<char> {
    backup_stem(timestamp) + ".reg"@
}

/// The name of the export of one key.
pub open spec fn part_name(timestamp: u64, index: int) -> Seq<char> {
    backup_stem(timestamp) + "_part_"@ + text::decimal(index as nat) + ".reg"@
}

/// Builds the name of a backup.
pub fn backup_file_name(timestamp: u64) -> (r: String)
    ensures
        r@ == backup_name(timestamp),
{
    let digits = text::decimal_string(timestamp as u128);
    text::concat3("registry_backup_", digits.as_str(), ".reg")
}

/// Builds the name of the export of one key.
pub fn part_file_name(timestamp: u64, index: usize) -> (r: String)
    ensures
        r@ == part_name(timestamp, index as int),
{
    let digits = text::decimal_string(timestamp as u128);
    let number = text::decimal_string(index as u128);
    text::concat5("registry_backup_", digits.as_str(), "_part_", number.as_str(), ".reg")
}

/// No export of a key has the name of another or of the backup itself.
pub proof fn law_part_names_are_distinct(timestamp: u64, i: int, j: int)
    requires
        0 <= i,
        0 <= j,
    ensures
        part_name(timestamp, i) == part_name(timestamp, j) ==> i == j,
        part_name(timestamp, i) != backup_name(timestamp),
{
    let start = backup_stem(timestamp) + "_part_"@;
    let n = start.len() as int;
    let end = ".reg"@;
    let a = part_name(timestamp, i);
    let b = part_name(timestamp, j);
    assert(a.subrange(n, a.len() - end.len()) =~= text::decimal(i as nat));
    assert(b.subrange(n, b.len() - end.len()) =~= text::decimal(j as nat));
    if a == b {
        text::lemma_decimal_injective(i as nat, j as nat);
    }
    reveal_strlit("_part_");
    assert(a.len() > backup_name(timestamp).len());
}

// ---------------------------------------------------------------------------
// Contents

/// The lines without blank ones at the start.
pub open spec fn skip_blank(lines: Seq<Seq<char>>) -> Seq<Seq<char>>
    decreases lines.len(),
{
    if lines.len() > 0 && text::trim(lines[0]).len() == 0 {
        skip_blank(lines.skip(1))
    } else {
        lines
    }
}

/// The lines after the first one that is not blank.
pub open spec fn after_header(lines: Seq<Seq<char>>) -> Seq<Seq<char>> {
    let rest = skip_blank(lines);
    if rest.len() == 0 {
        rest
    } else {
        rest.skip(1)
    }
}

/// What an export holds besides its header line.
pub open spec fn export_body(s: Seq<char>) -> Seq<char> {
    text::join(after_header(text::lines(s)), "\r\n"@)
}

/// Takes the header line off an export.
pub fn body_of_export(s: &str) -> (r: String)
    ensures
        r@ == export_body(s@),
{
    let cs = text::chars_of(s);
    let lines = text::split_lines(cs.as_slice());
    let ghost all = text::lines(s@);
    let n = lines.len();
    let mut i: usize = 0;
    assert(all.skip(0) =~= all);
    while i < n
        invariant_except_break
            i <= n,
            n == lines@.len(),
            all == text::views(lines@),
            skip_blank(all.skip(i as int)) == skip_blank(all),
        ensures
            i <= n,
            all.skip(i as int) == skip_blank(all),
        decreases n - i,
    {
        let line = text::chars_of(lines[i].as_str());
        assert(all.skip(i as int)[0] == lines@[i as int]@);
        assert(all.skip(i as int).skip(1) =~= all.skip(i + 1));
        if text::trimmed(line.as_slice()).len() > 0 {
            break;
        }
        i = i + 1;
        if i == n {
            assert(all.skip(i as int) =~= Seq::empty());
        }
    }
    let mut body: Vec<String> = Vec::new();
    let start: usize = if i < n {
        i + 1
    } else {
        n
    };
    assert(all.skip(start as int) =~= after_header(all));
    assert(text::views(body@) =~= all.skip(start as int).take(0));
    for k in start..n
        invariant
            start <= n,
            n == lines@.len(),
            all == text::views(lines@),
            text::views(body@) == all.skip(start as int).take(k - start),
    {
        let ghost before = body@;
        let line = lines[k].clone();
        body.push(line);
        proof {
            text::lemma_views_push(before, line);
            assert(text::views(body@) =~= all.skip(start as int).take(k + 1 - start));
        }
    }
    assert(all.skip(start as int).take(n - start) =~= all.skip(start as int));
    text::join_strings(&body, "\r\n")
}

/// The text of a registry file: UTF-16 where it begins with the mark, else
/// UTF-8.
pub open spec fn reg_text(bytes: Seq<u8>) -> Seq<char> {
    if utf16::has_mark(bytes) {
        utf16::marked_text(bytes)
    } else {
        command::lossy(bytes)
    }
}

/// Reads the text of a registry file.
pub fn read_reg_file(bytes: &Vec<u8>) -> (r: String)
    ensures
        r@ == reg_text(bytes@),
{
    if bytes.len() >= 2 && bytes[0] == 0xff && bytes[1] == 0xfe {
        utf16::read_marked(bytes)
    } else {
        command::lossy_text(bytes.as_slice())
    }
}

/// The beginning of every backup.
pub open spec fn backup_header() -> Seq<char> {
    "Windows Registry Editor Version 5.00\r\n\r\n"@
}

/// What one export adds to a backup.
pub open spec fn section(export: Seq<char>) -> Seq<char> {
    export_body(export) + "\r\n\r\n"@
}

/// The text of a backup made of the given exports.
pub open spec fn backup_text(exports: Seq<Seq<char>>) -> Seq<char>
    decreases exports.len(),
{
    if exports.len() == 0 {
        backup_header()
    } else {
        backup_text(exports.drop_last()) + section(exports.last())
    }
}

/// A written backup is read back as the text that it was made of.
pub proof fn law_backup_is_read_back(exports: Seq<Seq<char>>)
    ensures
        reg_text(utf16::file_bytes(backup_text(exports))) == backup_text(exports),
{
    utf16::law_file_gives_back_the_text(backup_text(exports));
}

/// Every export stands in the backup, whole but for its header line.
pub proof fn law_backup_holds_every_export(exports: Seq<Seq<char>>, i: int)
    requires
        0 <= i < exports.len(),
    ensures
        text::contains(backup_text(exports), export_body(exports[i])),
    decreases exports.len(),
{
    let before = backup_text(exports.drop_last());
    let all = backup_text(exports);
    let body = export_body(exports[i]);
    if i == exports.len() - 1 {
        assert(all.subrange(before.len() as int, (before.len() + body.len()) as int) =~= body);
        assert(text::occurs_at(all, body, before.len() as int));
    } else {
        law_backup_holds_every_export(exports.drop_last(), i);
        let k = choose|k: int| text::occurs_at(before, body, k);
        assert(all.subrange(k, k + body.len()) =~= before.subrange(k, k + body.len()));
        assert(text::occurs_at(all, body, k));
    }
}

// ---------------------------------------------------------------------------
// Making a backup

/// A backup that is being made: the keys, how many of them have been exported,
/// the text so far, and the failure that ended it.
#[derive(Debug)]
pub struct BackupRun {
    dir: String,
    timestamp: u64,
    keys: Vec<String>,
    done: usize,
    combined: String,
    failed: Option<String>,
}

/// The contents of a [`BackupRun`].
pub struct BackupView {
    pub dir: Seq<char>,
    pub timestamp: u64,
    pub keys: Seq<Seq<char>>,
    pub done: int,
    pub combined: Seq<char>,
    pub failed: Option<Seq<char>>,
}

impl View for BackupRun {
    type V = BackupView;

    closed spec fn view(&self) -> BackupView {
        BackupView {
            dir: self.dir@,
            timestamp: self.timestamp,
            keys: text::views(self.keys@),
            done: self.done as int,
            combined: self.combined@,
            failed: item::opt_text(self.failed),
        }
    }
}

/// A key to export, and the file to export it to.
#[derive(Debug)]
pub struct Export {
    pub key: String,
    pub file: String,
}

/// What was read of an exported file, or the reason for which it was not.
pub type Part = Result<Vec<u8>, String>;

/// The state at the beginning.
pub open spec fn backup_start(
    keys: Seq<Seq<char>>,
    dir: Seq<char>,
    timestamp: u64,
) -> BackupView {
    BackupView {
        dir,
        timestamp,
        keys,
        done: 0,
        combined: backup_header(),
        failed: None,
    }
}

/// Whether a key is left to export.
pub open spec fn exports_more(v: BackupView) -> bool {
    v.failed is None && v.done < v.keys.len()
}

/// The failure of one export, if it is one.
pub open spec fn export_failure(run: Run, part: Part) -> Option<Seq<char>> {
    match command::run_failure("reg export"@, run) {
        Some(message) => Some(message),
        None => match part {
            Ok(_) => None,
            Err(message) => Some(message@),
        },
    }
}

/// The state after the next key was exported, or was not.
pub open spec fn after_export(v: BackupView, run: Run, part: Part) -> BackupView {
    match export_failure(run, part) {
        Some(message) => BackupView { failed: Some(message), ..v },
        None => BackupView {
            done: v.done + 1,
            combined: v.combined + section(reg_text(part->Ok_0@)),
            ..v
        },
    }
}

/// Whether the exported file is removed: after it was read, and where the
/// export ran and failed.
pub open spec fn removes_part(run: Run, part: Part) -> bool {
    match run {
        Ok(output) => !output.success || part is Ok,
        Err(_) => false,
    }
}

impl BackupRun {
    /// No more keys have been exported than there are.
    #[verifier::type_invariant]
    spec fn in_bounds(self) -> bool {
        self.done <= self.keys@.len()
    }

    /// Begins a backup of the keys from which the items delete. Where they
    /// delete from none, there is no backup.
    pub fn new(items: &Vec<ScannedItem>, dir: &str, timestamp: u64) -> (r: Option<BackupRun>)
        ensures
            match r {
                Some(run) => keys_of(text::views(items@)).len() > 0 && run@ == backup_start(
                    keys_of(text::views(items@)),
                    dir@,
                    timestamp,
                ),
                None => keys_of(text::views(items@)).len() == 0,
            },
    {
        let keys = registry_keys(items);
        assert(text::views(keys@).len() == keys@.len());
        if keys.len() == 0 {
            return None;
        }
        Some(
            BackupRun {
                dir: dir.to_owned(),
                timestamp,
                keys,
                done: 0,
                combined: "Windows Registry Editor Version 5.00\r\n\r\n".to_owned(),
                failed: None,
            },
        )
    }

    /// The key to export next; none where all have been exported or one has
    /// failed.
    pub fn next_export(&self) -> (r: Option<Export>)
        ensures
            r is Some == exports_more(self@),
            r matches Some(e) ==> {
                &&& e.key@ == self@.keys[self@.done]
                &&& e.file@ == disk::joined(self@.dir, part_name(self@.timestamp, self@.done))
            },
    {
        if self.failed.is_none() && self.done < self.keys.len() {
            let name = part_file_name(self.timestamp, self.done);
            Some(
                Export {
                    key: self.keys[self.done].clone(),
                    file: disk::join_path(self.dir.as_str(), name.as_str()),
                },
            )
        } else {
            None
        }
    }

    /// Takes note of how the next export ended. `part` is what was read of the
    /// file, and counts only where the export succeeded. Says whether the file
    /// is to be removed.
    pub fn record(&mut self, run: &Run, part: &Part) -> (r: bool)
        requires
            exports_more(old(self)@),
        ensures
            final(self)@ == after_export(old(self)@, *run, *part),
            r == removes_part(*run, *part),
    {
        proof {
            use_type_invariant(&*self);
        }
        let count = self.keys.len();
        assert(self.done < count);
        let removes = match run {
            Ok(output) => !output.success || part.is_ok(),
            Err(_) => false,
        };
        match command::run_simple_command("reg export", run) {
            Err(message) => {
                self.failed = Some(message);
            },
            Ok(()) => match part {
                Err(message) => {
                    self.failed = Some(message.clone());
                },
                Ok(bytes) => {
                    let export = read_reg_file(bytes);
                    let body = body_of_export(export.as_str());
                    self.combined = text::concat3(
                        self.combined.as_str(),
                        body.as_str(),
                        "\r\n\r\n",
                    );
                    self.done = self.done + 1;
                    assert(self@.combined =~= old(self)@.combined + section(export@));
                },
            },
        }
        removes
    }

    /// The backup and the bytes to write to it, or the failure that ended it.
    pub fn finish(&self) -> (r: Result<(String, Vec<u8>), String>)
        requires
            !exports_more(self@),
        ensures
            match r {
                Ok((file, bytes)) => {
                    &&& self@.failed is None
                    &&& file@ == disk::joined(self@.dir, backup_name(self@.timestamp))
                    &&& bytes@ == utf16::file_bytes(self@.combined)
                },
                Err(message) => self@.failed == Some(message@),
            },
    {
        match &self.failed {
            Some(message) => Err(message.clone()),
            None => {
                let name = backup_file_name(self.timestamp);
                Ok(
                    (
                        disk::join_path(self.dir.as_str(), name.as_str()),
                        utf16::utf16le_with_bom(self.combined.as_str()),
                    ),
                )
            },
        }
    }
}

/// The state after the first keys were exported with the given results.
pub open spec fn after_exports(v: BackupView, events: Seq<(Run, Part)>) -> BackupView
    decreases events.len(),
{
    if events.len() == 0 {
        v
    } else {
        let before = after_exports(v, events.drop_last());
        after_export(before, events.last().0, events.last().1)
    }
}

/// Where every key was exported and read, the backup holds the exports in the
/// order of the keys, and nothing failed.
pub proof fn law_backup_is_complete(
    keys: Seq<Seq<char>>,
    dir: Seq<char>,
    timestamp: u64,
    events: Seq<(Run, Part)>,
)
    requires
        events.len() <= keys.len(),
        forall|i: int|
            0 <= i < events.len() ==> export_failure(
                (#[trigger] events[i]).0,
                events[i].1,
            ) is None,
    ensures
        after_exports(backup_start(keys, dir, timestamp), events) == (BackupView {
            done: events.len() as int,
            combined: backup_text(
                Seq::new(events.len(), |i: int| reg_text(events[i].1->Ok_0@)),
            ),
            ..backup_start(keys, dir, timestamp)
        }),
    decreases events.len(),
{
    let exports = Seq::new(events.len(), |i: int| reg_text(events[i].1->Ok_0@));
    if events.len() > 0 {
        let shorter = events.drop_last();
        assert forall|i: int| 0 <= i < shorter.len() implies export_failure(
            (#[trigger] shorter[i]).0,
            shorter[i].1,
        ) is None by {
            assert(shorter[i] == events[i]);
        }
        law_backup_is_complete(keys, dir, timestamp, shorter);
        assert(export_failure(events[events.len() - 1].0, events[events.len() - 1].1) is None);
        assert(exports.drop_last() =~= Seq::new(
            shorter.len(),
            |i: int| reg_text(shorter[i].1->Ok_0@),
        ));
    }
}

// ---------------------------------------------------------------------------
// Listing backups

/// A file in the directory of backups.
#[derive(Debug)]
pub struct BackupRecord {
    pub name: FileName,
    pub path: String,
    pub size_bytes: u64,
    pub modified: Option<Moment>,
}

/// The contents of a [`BackupRecord`].
pub struct RecordView {
    pub name: NameView,
    pub path: Seq<char>,
    pub size_bytes: u64,
    pub modified: Option<Moment>,
}

impl View for BackupRecord {
    type V = RecordView;

    open spec fn view(&self) -> RecordView {
        RecordView {
            name: self.name@,
            path: self.path@,
            size_bytes: self.size_bytes,
            modified: self.modified,
        }
    }
}

/// What the user sees of a backup.
#[derive(Debug)]
pub struct BackupEntry {
    pub name: String,
    pub path: String,
    pub size_bytes: u64,
    pub created_at: String,
}

/// The contents of a [`BackupEntry`].
pub struct EntryView {
    pub name: Seq<char>,
    pub path: Seq<char>,
    pub size_bytes: u64,
    pub created_at: Seq<char>,
}

impl View for BackupEntry {
    type V = EntryView;

    open spec fn view(&self) -> EntryView {
        EntryView {
            name: self.name@,
            path: self.path@,
            size_bytes: self.size_bytes,
            created_at: self.created_at@,
        }
    }
}

/// Whether a file is a backup by its name.
pub open spec fn is_backup_name(name: NameView) -> bool {
    disk::extension(name.text) == Some("reg"@)
}

/// Decides whether a file is a backup by its name.
pub fn has_backup_extension(name: &FileName) -> (r: bool)
    ensures
        r == is_backup_name(name@),
{
    match disk::extension_of(name.text.as_str()) {
        Some(e) => text::same_text(e.as_str(), "reg"),
        None => false,
    }
}

/// The time of a backup as it is shown: the seconds since the beginning of
/// 1970, or a dash where they are not known.
pub open spec fn shown_time(modified: Option<Moment>) -> Seq<char> {
    match modified {
        Some(m) => match clock::seconds_since(m) {
            Some(n) => text::decimal(n as nat),
            None => "-"@,
        },
        None => "-"@,
    }
}

/// The entry for a file.
pub open spec fn entry_of(r: RecordView) -> EntryView {
    EntryView {
        name: if r.name.exact {
            r.name.text
        } else {
            "registry_backup.reg"@
        },
        path: r.path,
        size_bytes: r.size_bytes,
        created_at: shown_time(r.modified),
    }
}

/// Builds the entry for a file.
fn make_entry(record: &BackupRecord) -> (r: BackupEntry)
    ensures
        r@ == entry_of(record@),
{
    let name = if record.name.exact {
        record.name.text.clone()
    } else {
        "registry_backup.reg".to_owned()
    };
    let seconds = match record.modified {
        Some(m) => clock::system_time_to_seconds(m),
        None => None,
    };
    let created_at = match seconds {
        Some(n) => text::decimal_string(n as u128),
        None => "-".to_owned(),
    };
    BackupEntry { name, path: record.path.clone(), size_bytes: record.size_bytes, created_at }
}

/// The list with the entry put in its place: after all that are shown with the
/// same or a greater time.
pub open spec fn placed(list: Seq<EntryView>, e: EntryView) -> Seq<EntryView>
    decreases list.len(),
{
    if list.len() > 0 && text::text_less(list.last().created_at, e.created_at) {
        placed(list.drop_last(), e).push(list.last())
    } else {
        list.push(e)
    }
}

/// The backups among the files, in falling order of the time as it is shown;
/// those with the same time stay in the order of the files.
pub open spec fn backups_among(files: Seq<RecordView>) -> Seq<EntryView>
    decreases files.len(),
{
    if files.len() == 0 {
        Seq::empty()
    } else {
        let before = backups_among(files.drop_last());
        if is_backup_name(files.last().name) {
            placed(before, entry_of(files.last()))
        } else {
            before
        }
    }
}

/// Puts an entry in its place.
fn place(list: &mut Vec<BackupEntry>, e: BackupEntry)
    ensures
        text::views(final(list)@) == placed(text::views(old(list)@), e@),
{
    let ghost all = text::views(list@);
    let ghost ev = e@;
    let mut k: usize = list.len();
    assert(all.take(k as int) =~= all);
    assert(placed(all, ev) =~= placed(all.take(k as int), ev) + all.skip(k as int));
    while k > 0 && text::is_less(list[k - 1].created_at.as_str(), e.created_at.as_str())
        invariant
            k <= list@.len(),
            all == text::views(list@),
            ev == e@,
            placed(all, ev) == placed(all.take(k as int), ev) + all.skip(k as int),
        decreases k,
    {
        proof {
            let part = all.take(k as int);
            assert(part.last() == list@[k - 1]@);
            assert(part.drop_last() =~= all.take(k - 1));
            assert(placed(all.take(k - 1), ev) + all.skip(k - 1) =~= placed(part, ev) + all.skip(
                k as int,
            ));
        }
        k = k - 1;
    }
    let ghost part = all.take(k as int);
    proof {
        if k > 0 {
            assert(part.last() == list@[k - 1]@);
        }
        assert(placed(part, ev) =~= part.push(ev));
    }
    let ghost before = list@;
    let ghost entry = e;
    list.insert(k, e);
    assert(list@ =~= before.insert(k as int, entry));
    assert(text::views(list@) =~= part.push(ev) + all.skip(k as int));
}

/// Lists the backups among the files of the directory of backups.
pub fn list_backups(files: &Vec<BackupRecord>) -> (r: Vec<BackupEntry>)
    ensures
        text::views(r@) == backups_among(text::views(files@)),
{
    let ghost all = text::views(files@);
    let mut r: Vec<BackupEntry> = Vec::new();
    assert(all.take(0) =~= Seq::empty());
    assert(text::views(r@) =~= Seq::empty());
    for i in 0..files.len()
        invariant
            all == text::views(files@),
            text::views(r@) == backups_among(all.take(i as int)),
    {
        proof {
            assert(all.take(i + 1).drop_last() =~= all.take(i as int));
            assert(all.take(i + 1).last() == files@[i as int]@);
        }
        if has_backup_extension(&files[i].name) {
            let e = make_entry(&files[i]);
            place(&mut r, e);
        }
    }
    assert(all.take(files@.len() as int) =~= all);
    r
}

/// Whether no entry is shown with a greater time than one before it.
pub open spec fn falling(list: Seq<EntryView>) -> bool {
    forall|i: int, j: int|
        0 <= i < j < list.len() ==> !text::text_less(
            (#[trigger] list[i]).created_at,
            (#[trigger] list[j]).created_at,
        )
}

/// Placing keeps the order and adds one entry.
proof fn lemma_placed(list: Seq<EntryView>, e: EntryView)
    requires
        falling(list),
    ensures
        falling(placed(list, e)),
        placed(list, e).to_multiset() == list.to_multiset().insert(e),
    decreases list.len(),
{
    broadcast use vstd::seq_lib::group_to_multiset_ensures;

    let new = placed(list, e);
    if list.len() > 0 && text::text_less(list.last().created_at, e.created_at) {
        let shorter = list.drop_last();
        assert forall|i: int, j: int| 0 <= i < j < shorter.len() implies !text::text_less(
            (#[trigger] shorter[i]).created_at,
            (#[trigger] shorter[j]).created_at,
        ) by {
            assert(!text::text_less(list[i].created_at, list[j].created_at));
        }
        lemma_placed(shorter, e);
        let part = placed(shorter, e);
        assert forall|i: int, j: int| 0 <= i < j < new.len() implies !text::text_less(
            (#[trigger] new[i]).created_at,
            (#[trigger] new[j]).created_at,
        ) by {
            if j < part.len() {
                assert(!text::text_less(part[i].created_at, part[j].created_at));
            } else {
                lemma_placed_members(shorter, e, i);
                if part[i] == e {
                    if text::text_less(e.created_at, list.last().created_at) {
                        text::lemma_text_less_transitive(
                            e.created_at,
                            list.last().created_at,
                            e.created_at,
                        );
                        text::lemma_text_less_irreflexive(e.created_at);
                    }
                } else {
                    let m = choose|m: int| 0 <= m < shorter.len() && shorter[m] == part[i];
                    assert(!text::text_less(list[m].created_at, list[list.len() - 1].created_at));
                }
            }
        }
        assert(shorter.push(list.last()) =~= list);
        assert(new.to_multiset() =~= list.to_multiset().insert(e));
    } else {
        assert forall|i: int, j: int| 0 <= i < j < new.len() implies !text::text_less(
            (#[trigger] new[i]).created_at,
            (#[trigger] new[j]).created_at,
        ) by {
            if j < list.len() {
                assert(!text::text_less(list[i].created_at, list[j].created_at));
            } else if i < list.len() - 1 {
                lemma_not_less_transitive(
                    list[i].created_at,
                    list.last().created_at,
                    e.created_at,
                );
            }
        }
    }
}

/// Where neither step rises, the two together do not.
proof fn lemma_not_less_transitive(a: Seq<char>, b: Seq<char>, c: Seq<char>)
    requires
        !text::text_less(a, b),
        !text::text_less(b, c),
    ensures
        !text::text_less(a, c),
{
    if text::text_less(a, c) {
        if text::text_less(b, a) {
            text::lemma_text_less_transitive(b, a, c);
        } else {
            text::lemma_text_less_total(a, b);
        }
    }
}

/// A placed list holds the new entry and the old ones.
proof fn lemma_placed_members(list: Seq<EntryView>, e: EntryView, i: int)
    requires
        0 <= i < placed(list, e).len(),
    ensures
        placed(list, e)[i] == e || list.contains(placed(list, e)[i]),
    decreases list.len(),
{
    let new = placed(list, e);
    if list.len() > 0 && text::text_less(list.last().created_at, e.created_at) {
        let shorter = list.drop_last();
        let part = placed(shorter, e);
        if i < part.len() {
            lemma_placed_members(shorter, e, i);
            if new[i] != e {
                let m = choose|m: int| 0 <= m < shorter.len() && shorter[m] == part[i];
                assert(list[m] == new[i]);
            }
        } else {
            assert(list[list.len() - 1] == new[i]);
        }
    } else if i < list.len() {
        assert(list[i] == new[i]);
    }
}

/// The entries of the backups in the order of the files.
pub open spec fn entries_among(files: Seq<RecordView>) -> Seq<EntryView> {
    files.filter(|r: RecordView| is_backup_name(r.name)).map_values(|r: RecordView| entry_of(r))
}

/// The list of backups shows every backup among the files, nothing else, and
/// the greatest time first.
pub proof fn law_backups_are_listed_in_order(files: Seq<RecordView>)
    ensures
        falling(backups_among(files)),
        backups_among(files).to_multiset() == entries_among(files).to_multiset(),
    decreases files.len(),
{
    broadcast use vstd::seq_lib::group_to_multiset_ensures;

    reveal(Seq::filter);
    let keep = |r: RecordView| is_backup_name(r.name);
    let entry = |r: RecordView| entry_of(r);
    if files.len() == 0 {
        assert(entries_among(files) =~= Seq::empty());
    } else {
        let shorter = files.drop_last();
        law_backups_are_listed_in_order(shorter);
        if is_backup_name(files.last().name) {
            lemma_placed(backups_among(shorter), entry_of(files.last()));
            assert(entries_among(files) =~= entries_among(shorter).push(entry_of(files.last())));
        } else {
            assert(entries_among(files) =~= entries_among(shorter));
        }
    }
}

// ---------------------------------------------------------------------------
// Restoring a backup

/// Whether a file can be restored: it is there and has the extension of a
/// backup.
pub fn restorable(name: &Option<FileName>, present: bool) -> (r: Result<(), String>)
    ensures
        match r {
            Ok(()) => present && name is Some && is_backup_name(name->Some_0@),
            Err(message) => message@ == "备份文件不存在或格式不正确"@ && !(present
                && name is Some && is_backup_name(name->Some_0@)),
        },
{
    let named = match name {
        Some(n) => has_backup_extension(n),
        None => false,
    };
    if named && present {
        Ok(())
    } else {
        Err("备份文件不存在或格式不正确".to_owned())
    }
}

/// What restoring a backup came to.
#[derive(Debug)]
pub struct RestoreResult {
    pub success: bool,
    pub message: String,
}

/// Judges the run of [`command::registry_import_command`].
pub fn restore_outcome(run: &Run) -> (r: Result<RestoreResult, String>)
    ensures
        match r {
            Ok(result) => {
                &&& command::run_failure("reg import"@, *run) is None
                &&& result.success
                &&& result.message@ == "注册表备份已导入。"@
            },
            Err(message) => command::run_failure("reg import"@, *run) == Some(message@),
        },
{
    match command::run_simple_command("reg import", run) {
        Ok(()) => Ok(
            RestoreResult { success: true, message: "注册表备份已导入。".to_owned() },
        ),
        Err(message) => Err(message),
    }
}

// ---------------------------------------------------------------------------
// What a backup holds

/// Blank lines at the start are passed over.
proof fn lemma_skip_blank_is(blank: Seq<Seq<char>>, rest: Seq<Seq<char>>)
    requires
        forall|i: int| 0 <= i < blank.len() ==> text::trim(#[trigger] blank[i]).len() == 0,
        rest.len() > 0 ==> text::trim(rest[0]).len() > 0,
    ensures
        skip_blank(blank + rest) == rest,
    decreases blank.len(),
{
    let all = blank + rest;
    if blank.len() == 0 {
        assert(all =~= rest);
    } else {
        assert(text::trim(blank[0]).len() == 0);
        let fewer = blank.skip(1);
        assert forall|i: int| 0 <= i < fewer.len() implies text::trim(
            #[trigger] fewer[i],
        ).len() == 0 by {
            assert(text::trim(blank[i + 1]).len() == 0);
        }
        assert(all.skip(1) =~= fewer + rest);
        lemma_skip_blank_is(fewer, rest);
    }
}

/// Lines one after the other, each with what ends it.
pub open spec fn ended_lines(lines: Seq<Seq<char>>) -> Seq<char>
    decreases lines.len(),
{
    if lines.len() == 0 {
        Seq::empty()
    } else {
        lines[0] + "\r\n"@ + ended_lines(lines.skip(1))
    }
}

/// The text of ended lines has those lines.
proof fn lemma_ended_lines(lines: Seq<Seq<char>>)
    requires
        forall|i: int, j: int|
            0 <= i < lines.len() && 0 <= j < lines[i].len() ==> #[trigger] lines[i][j] != '\n',
    ensures
        text::lines(ended_lines(lines)) == lines,
    decreases lines.len(),
{
    if lines.len() == 0 {
        text::law_lines_end_at_line_feeds(Seq::empty(), Seq::empty());
        assert(text::lines(Seq::empty()) =~= lines);
    } else {
        let rest = lines.skip(1);
        assert forall|i: int, j: int| 0 <= i < rest.len() && 0 <= j < rest[i].len() implies
            #[trigger] rest[i][j] != '\n' by {
            assert(lines[i + 1][j] != '\n');
        }
        assert forall|j: int| 0 <= j < lines[0].len() implies lines[0][j] != '\n' by {
            assert(lines[0][j] != '\n');
        }
        lemma_ended_lines(rest);
        text::law_lines_end_at_line_feeds(lines[0], ended_lines(rest));
        assert(seq![lines[0]] + rest =~= lines);
    }
}

/// The body of an export is everything after its first line that is not blank:
/// all lines that follow, in order, with a line break between any two. Of an
/// export with nothing but blank lines there is no body.
pub proof fn law_export_loses_only_its_header(
    blank: Seq<Seq<char>>,
    header: Seq<char>,
    body: Seq<Seq<char>>,
    export: Seq<char>,
)
    requires
        forall|i: int| 0 <= i < blank.len() ==> text::trim(#[trigger] blank[i]).len() == 0,
        text::trim(header).len() > 0,
    ensures
        text::lines(export) == blank + seq![header] + body ==> export_body(export) == text::join(
            body,
            "\r\n"@,
        ),
        text::lines(export) == blank ==> export_body(export).len() == 0,
{
    let rest = seq![header] + body;
    assert(blank + seq![header] + body =~= blank + rest);
    lemma_skip_blank_is(blank, rest);
    assert(rest.skip(1) =~= body);
    lemma_skip_blank_is(blank, Seq::empty());
    assert(blank + Seq::<Seq<char>>::empty() =~= blank);
}

/// An export written out line by line comes back as the lines after its header,
/// whatever they hold.
pub proof fn law_written_export_comes_back(header: Seq<char>, body: Seq<Seq<char>>)
    requires
        text::trim(header).len() > 0,
        forall|j: int| 0 <= j < header.len() ==> header[j] != '\n',
        forall|i: int, j: int|
            0 <= i < body.len() && 0 <= j < body[i].len() ==> #[trigger] body[i][j] != '\n',
    ensures
        export_body(ended_lines(seq![header] + body)) == text::join(body, "\r\n"@),
{
    let all = seq![header] + body;
    assert forall|i: int, j: int| 0 <= i < all.len() && 0 <= j < all[i].len() implies
        #[trigger] all[i][j] != '\n' by {
        if i > 0 {
            assert(body[i - 1][j] != '\n');
        }
    }
    lemma_ended_lines(all);
    let none = Seq::<Seq<char>>::empty();
    assert(none + seq![header] + body =~= all);
    law_export_loses_only_its_header(none, header, body, ended_lines(all));
}

/// A backup begins with the header of the format; each export adds its body and
/// an empty line at the end, and what was there stays.
pub proof fn law_backup_grows_export_by_export(exports: Seq<Seq<char>>, export: Seq<char>)
    ensures
        backup_text(Seq::empty()) == "Windows Registry Editor Version 5.00\r\n\r\n"@,
        backup_text(exports.push(export)) == backup_text(exports) + export_body(export)
            + "\r\n\r\n"@,
{
    assert(exports.push(export).drop_last() =~= exports);
    assert(backup_text(exports.push(export)) =~= backup_text(exports) + export_body(export)
        + "\r\n\r\n"@);
}

/// A registry file that does not begin with the mark of UTF-16 is read as
/// UTF-8; a mark and little-endian units are read as their text.
pub proof fn law_registry_files_are_read_by_their_mark(text: Seq<char>, bytes: Seq<u8>)
    ensures
        reg_text(seq![0xffu8, 0xfeu8] + utf16::bytes_of(utf16::encoded(text))) == text,
        !(bytes.len() >= 2 && bytes[0] == 0xff && bytes[1] == 0xfe) ==> reg_text(bytes)
            == command::lossy(bytes),
{
    utf16::law_file_gives_back_the_text(text);
}

/// An export that did not start, failed or cannot be read ends the backup with
/// that failure, and nothing is added to it.
pub proof fn law_failed_export_ends_the_backup(v: BackupView, run: Run, part: Part)
    ensures
        run matches Err(message) ==> after_export(v, run, part).failed == Some(message@),
        run matches Ok(output) ==> !output.success ==> after_export(v, run, part).failed == Some(
            command::failure(
                "reg export"@,
                command::lossy(output.stderr@),
                command::lossy(output.stdout@),
            ),
        ),
        run matches Ok(output) ==> output.success ==> (part matches Err(message) ==> after_export(
            v,
            run,
            part,
        ).failed == Some(message@)),
        after_export(v, run, part).failed is Some && v.failed is None ==> !exports_more(
            after_export(v, run, part),
        ) && after_export(v, run, part).combined == v.combined && after_export(v, run, part).done
            == v.done,
        run matches Ok(output) ==> output.success ==> (part matches Ok(bytes) ==> after_export(
            v,
            run,
            part,
        ).combined == v.combined + export_body(reg_text(bytes@)) + "\r\n\r\n"@ && after_export(
            v,
            run,
            part,
        ).done == v.done + 1 && after_export(v, run, part).failed == v.failed),
{
    if let Ok(bytes) = part {
        let s = section(reg_text(bytes@));
        assert(v.combined + s =~= v.combined + export_body(reg_text(bytes@)) + "\r\n\r\n"@);
    }
}

/// A file is a backup by its name exactly where its extension is `reg`, as it
/// is written.
pub proof fn law_backups_go_by_their_extension(stem: Seq<char>, ext: Seq<char>, exact: bool)
    requires
        stem.len() > 0,
        ext.len() > 0,
        forall|i: int| 0 <= i < ext.len() ==> ext[i] != '.',
    ensures
        is_backup_name(NameView { text: stem + "."@ + ext, exact }) <==> ext == "reg"@,
        !is_backup_name(NameView { text: ext, exact }),
        !is_backup_name(NameView { text: "."@ + ext, exact }),
{
    disk::law_extension_follows_the_last_dot(stem, ext);
}

/// A backup is listed under its name, or a general one where the name is no
/// text, with its path and size, and with the seconds since the beginning of
/// 1970 or a dash.
pub proof fn law_entries_show_their_files(r: RecordView, seconds: u64)
    ensures
        entry_of(r).path == r.path,
        entry_of(r).size_bytes == r.size_bytes,
        r.name.exact ==> entry_of(r).name == r.name.text,
        !r.name.exact ==> entry_of(r).name == "registry_backup.reg"@,
        r.modified is None ==> entry_of(r).created_at == "-"@,
        r.modified == Some(Moment { before_epoch: false, seconds }) ==> entry_of(r).created_at
            == text::decimal(seconds as nat),
        r.modified == Some(Moment { before_epoch: true, seconds }) ==> entry_of(r).created_at
            == "-"@,
{
}

/// A backup and its parts are named by the time at which it was made.
pub proof fn law_backups_are_named_by_their_time(timestamp: u64, index: nat)
    ensures
        backup_name(timestamp) == "registry_backup_"@ + text::decimal(timestamp as nat) + ".reg"@,
        part_name(timestamp, index as int) == "registry_backup_"@ + text::decimal(
            timestamp as nat,
        ) + "_part_"@ + text::decimal(index) + ".reg"@,
{
}

/// The keys of a backup come in the order of the items, each where it first
/// comes up; items that delete nothing from the registry add none.
pub proof fn law_keys_come_in_the_order_of_the_items(items: Seq<ScannedView>, d: ScannedView)
    ensures
        d.action matches ActionView::RegistryDelete { key_path, .. } ==> keys_of(items.push(d))
            == if keys_of(items).contains(key_path) {
            keys_of(items)
        } else {
            keys_of(items).push(key_path)
        },
        !(d.action is RegistryDelete) ==> keys_of(items.push(d)) == keys_of(items),
        keys_of(Seq::empty()).len() == 0,
{
    assert(items.push(d).drop_last() =~= items);
}

/// The file of an export is kept only where the export did not start, or where
/// it went well and cannot be read.
pub proof fn law_parts_are_removed_after_use(run: Run, part: Part)
    ensures
        run is Err ==> !removes_part(run, part),
        run matches Ok(output) ==> !output.success ==> removes_part(run, part),
        run matches Ok(output) ==> output.success ==> (removes_part(run, part) <==> part is Ok),
{
}

} // verus!
