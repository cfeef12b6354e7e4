//! Running programs: which of the programs that hold an item's files are
//! running, and what was decided about them.
use crate::command;
use crate::command::Run;
use crate::item;
use crate::item::{ItemView, ScannedItem, ScannedView};
use crate::text;
use vstd::prelude::*;
use vstd::slice::slice_subrange;

verus! {

// ---------------------------------------------------------------------------
// The list of processes

/// The name of the process on a line of the list: what stands between the
/// first quotes, or before the first comma where the line begins without one.
/// A quote that is not closed gives no name.
pub open spec fn tasklist_name(line: Seq<char>) -> Option<Seq<char>> {
    let t = text::trim(line);
    if t.len() > 0 && t[0] == '"' {
        let k = text::first_of(t.skip(1), '"');
        if k < t.len() - 1 {
            Some(t.skip(1).take(k))
        } else {
            None
        }
    } else {
        Some(t.take(text::first_of(t, ',')))
    }
}

/// Reads the name of the process on a line of the list.
pub fn parse_tasklist_name(line: &str) -> (r: Option<String>)
    ensures
        item::opt_text(r) == tasklist_name(line@),
{
    let cs = text::chars_of(line);
    let t = text::trimmed(cs.as_slice());
    if t.len() > 0 && t[0] == '"' {
        let k = text::position_from(t, '"', 1);
        if k < t.len() {
            assert(t@.subrange(1, k as int) =~= t@.skip(1).take(k - 1));
            Some(text::string_of(slice_subrange(t, 1, k)))
        } else {
            None
        }
    } else {
        assert(t@.skip(0) =~= t@);
        let k = text::position_from(t, ',', 0);
        assert(t@.subrange(0, k as int) =~= t@.take(k as int));
        Some(text::string_of(slice_subrange(t, 0, k)))
    }
}

/// Whether a name is among the wanted ones, without regard to ASCII case.
pub open spec fn is_wanted(wanted: Seq<Seq<char>>, name: Seq<char>) -> bool {
    exists|i: int|
        0 <= i < wanted.len() && text::lower(#[trigger] wanted[i]) == text::lower(name)
}

/// Decides whether a name is among the wanted ones.
fn wants(wanted: &Vec<String>, name: &str) -> (r: bool)
    ensures
        r == is_wanted(text::views(wanted@), name@),
{
    let low = text::lower_string(name);
    for i in 0..wanted.len()
        invariant
            low@ == text::lower(name@),
            forall|j: int|
                0 <= j < i ==> text::lower(#[trigger] text::views(wanted@)[j]) != text::lower(
                    name@,
                ),
    {
        let one = text::lower_string(wanted[i].as_str());
        if text::same_text(one.as_str(), low.as_str()) {
            assert(text::lower(text::views(wanted@)[i as int]) == text::lower(name@));
            return true;
        }
    }
    false
}

/// The sorted list with the name put in its place, unless it is there already.
pub open spec fn inserted(list: Seq<Seq<char>>, name: Seq<char>) -> Seq<Seq<char>>
    decreases list.len(),
{
    if list.len() == 0 {
        seq![name]
    } else if list.last() == name {
        list
    } else if text::text_less(name, list.last()) {
        inserted(list.drop_last(), name).push(list.last())
    } else {
        list.push(name)
    }
}

/// Puts a name in its place in a sorted list, unless it is there already.
fn insert_name(list: &mut Vec<String>, name: String)
    ensures
        text::views(final(list)@) == inserted(text::views(old(list)@), name@),
{
    let ghost all = text::views(list@);
    let mut k: usize = list.len();
    assert(inserted(all, name@) =~= inserted(all.take(k as int), name@) + all.skip(k as int)) by {
        assert(all.take(k as int) =~= all);
        assert(all.skip(k as int) =~= Seq::empty());
    }
    while k > 0 && text::is_less(name.as_str(), list[k - 1].as_str())
        invariant
            k <= list@.len(),
            all == text::views(list@),
            inserted(all, name@) == inserted(all.take(k as int), name@) + all.skip(k as int),
        decreases k,
    {
        proof {
            let part = all.take(k as int);
            assert(part.last() == list@[k - 1]@);
            assert(part.drop_last() =~= all.take(k - 1));
            if part.last() == name@ {
                text::lemma_text_less_irreflexive(name@);
            }
            assert(inserted(all.take(k - 1), name@) + all.skip(k - 1) =~= inserted(part, name@)
                + all.skip(k as int));
        }
        k = k - 1;
    }
    let ghost part = all.take(k as int);
    assert(part + all.skip(k as int) =~= all);
    if k > 0 && text::same_text(list[k - 1].as_str(), name.as_str()) {
        assert(part.last() == name@);
        return;
    }
    proof {
        if k > 0 {
            assert(part.last() == list@[k - 1]@);
        }
        assert(inserted(part, name@) =~= part.push(name@));
    }
    let ghost before = list@;
    let ghost nv = name;
    list.insert(k, name);
    assert(list@ =~= before.insert(k as int, nv));
    assert(text::views(list@) =~= part.push(nv@) + all.skip(k as int));
}

/// The name on a line, if it is a wanted one.
pub open spec fn wanted_name(wanted: Seq<Seq<char>>, line: Seq<char>) -> Option<Seq<char>> {
    match tasklist_name(line) {
        Some(n) => if is_wanted(wanted, n) {
            Some(n)
        } else {
            None
        },
        None => None,
    }
}

/// The wanted names on the lines: each once, sorted.
pub open spec fn running_list(wanted: Seq<Seq<char>>, lines: Seq<Seq<char>>) -> Seq<Seq<char>>
    decreases lines.len(),
{
    if lines.len() == 0 {
        Seq::empty()
    } else {
        let before = running_list(wanted, lines.drop_last());
        match wanted_name(wanted, lines.last()) {
            Some(n) => inserted(before, n),
            None => before,
        }
    }
}

/// Finds the wanted names in the text of a list of processes.
pub fn running_in_listing(process_names: &Vec<String>, listing: &str) -> (r: Vec<String>)
    ensures
        text::views(r@) == running_list(text::views(process_names@), text::lines(listing@)),
{
    let cs = text::chars_of(listing);
    let lines = text::split_lines(cs.as_slice());
    let ghost all = text::lines(listing@);
    let ghost wanted = text::views(process_names@);
    let mut r: Vec<String> = Vec::new();
    assert(all.take(0) =~= Seq::empty());
    assert(text::views(r@) =~= Seq::empty());
    for i in 0..lines.len()
        invariant
            all == text::views(lines@),
            wanted == text::views(process_names@),
            text::views(r@) == running_list(wanted, all.take(i as int)),
    {
        proof {
            assert(all.take(i + 1).drop_last() =~= all.take(i as int));
            assert(all.take(i + 1).last() == lines@[i as int]@);
        }
        match parse_tasklist_name(lines[i].as_str()) {
            Some(name) => {
                if wants(process_names, name.as_str()) {
                    insert_name(&mut r, name);
                }
            },
            None => {},
        }
    }
    assert(all.take(lines@.len() as int) =~= all);
    r
}

/// Whether the names are in order and each stands once.
pub open spec fn strictly_sorted(list: Seq<Seq<char>>) -> bool {
    forall|i: int, j: int|
        0 <= i < j < list.len() ==> text::text_less(#[trigger] list[i], #[trigger] list[j])
}

/// Inserting keeps the order and adds one name.
proof fn lemma_inserted(list: Seq<Seq<char>>, name: Seq<char>)
    requires
        strictly_sorted(list),
    ensures
        strictly_sorted(inserted(list, name)),
        forall|n: Seq<char>| #[trigger]
            inserted(list, name).contains(n) <==> list.contains(n) || n == name,
    decreases list.len(),
{
    let new = inserted(list, name);
    if list.len() == 0 {
        assert(new[0] == name);
    } else if list.last() == name {
        assert(list[list.len() - 1] == name);
    } else if text::text_less(name, list.last()) {
        let shorter = list.drop_last();
        assert forall|i: int, j: int| 0 <= i < j < shorter.len() implies text::text_less(
            #[trigger] shorter[i],
            #[trigger] shorter[j],
        ) by {
            assert(text::text_less(list[i], list[j]));
        }
        lemma_inserted(shorter, name);
        let part = inserted(shorter, name);
        assert(new =~= part.push(list.last()));
        assert forall|i: int, j: int| 0 <= i < j < new.len() implies text::text_less(
            #[trigger] new[i],
            #[trigger] new[j],
        ) by {
            if j < part.len() {
                assert(text::text_less(part[i], part[j]));
            } else {
                assert(part.contains(part[i]));
                if part[i] != name {
                    let k = choose|k: int| 0 <= k < shorter.len() && shorter[k] == part[i];
                    assert(text::text_less(list[k], list[list.len() - 1]));
                }
            }
        }
        assert forall|n: Seq<char>| #[trigger] new.contains(n) <==> list.contains(n) || n
            == name by {
            if new.contains(n) {
                let k = choose|k: int| 0 <= k < new.len() && new[k] == n;
                if k < part.len() {
                    assert(part[k] == n);
                    assert(part.contains(n));
                    if n != name {
                        let m = choose|m: int| 0 <= m < shorter.len() && shorter[m] == n;
                        assert(list[m] == n);
                    }
                } else {
                    assert(list[list.len() - 1] == n);
                }
            }
            if list.contains(n) || n == name {
                if n == list.last() && n != name {
                    assert(new[new.len() - 1] == n);
                } else {
                    if n != name {
                        let m = choose|m: int| 0 <= m < list.len() && list[m] == n;
                        assert(shorter[m] == n);
                    }
                    assert(part.contains(n));
                    let k = choose|k: int| 0 <= k < part.len() && part[k] == n;
                    assert(new[k] == n);
                }
            }
        }
    } else {
        if !text::text_less(list.last(), name) {
            text::lemma_text_less_total(name, list.last());
        }
        assert forall|i: int, j: int| 0 <= i < j < new.len() implies text::text_less(
            #[trigger] new[i],
            #[trigger] new[j],
        ) by {
            if j < list.len() {
                assert(text::text_less(list[i], list[j]));
            } else if i < list.len() - 1 {
                assert(text::text_less(list[i], list[list.len() - 1]));
                text::lemma_text_less_transitive(list[i], list.last(), name);
            }
        }
        assert forall|n: Seq<char>| #[trigger] new.contains(n) <==> list.contains(n) || n
            == name by {
            if new.contains(n) {
                let k = choose|k: int| 0 <= k < new.len() && new[k] == n;
                if k < list.len() {
                    assert(list[k] == n);
                }
            }
            if list.contains(n) {
                let k = choose|k: int| 0 <= k < list.len() && list[k] == n;
                assert(new[k] == n);
            }
            assert(new[list.len() as int] == name);
        }
    }
}

/// The running programs are listed in order, each once: those that are wanted
/// and stand on a line of the list, and no others.
pub proof fn law_running_list_is_exact(wanted: Seq<Seq<char>>, lines: Seq<Seq<char>>)
    ensures
        strictly_sorted(running_list(wanted, lines)),
        forall|n: Seq<char>| #[trigger]
            running_list(wanted, lines).contains(n) <==> is_wanted(wanted, n) && exists|i: int|
                0 <= i < lines.len() && tasklist_name(#[trigger] lines[i]) == Some(n),
    decreases lines.len(),
{
    let list = running_list(wanted, lines);
    if lines.len() > 0 {
        let shorter = lines.drop_last();
        law_running_list_is_exact(wanted, shorter);
        let before = running_list(wanted, shorter);
        match wanted_name(wanted, lines.last()) {
            Some(n) => {
                lemma_inserted(before, n);
            },
            None => {},
        }
        assert forall|n: Seq<char>| #[trigger] list.contains(n) <==> is_wanted(wanted, n)
            && exists|i: int|
            0 <= i < lines.len() && tasklist_name(#[trigger] lines[i]) == Some(n) by {
            if list.contains(n) {
                if before.contains(n) {
                    let i = choose|i: int|
                        0 <= i < shorter.len() && tasklist_name(#[trigger] shorter[i]) == Some(n);
                    assert(lines[i] == shorter[i]);
                } else {
                    assert(tasklist_name(lines[lines.len() - 1]) == Some(n));
                }
            }
            if is_wanted(wanted, n) && exists|i: int|
                0 <= i < lines.len() && tasklist_name(#[trigger] lines[i]) == Some(n) {
                let i = choose|i: int|
                    0 <= i < lines.len() && tasklist_name(#[trigger] lines[i]) == Some(n);
                if i < shorter.len() {
                    assert(tasklist_name(shorter[i]) == Some(n));
                    assert(before.contains(n));
                }
            }
        }
    }
}

/// The text of the list of processes; empty where none was made.
pub open spec fn listing_text(run: Option<Run>) -> Seq<char> {
    match run {
        Some(Ok(output)) => if output.success {
            command::lossy(output.stdout@)
        } else {
            Seq::empty()
        },
        _ => Seq::empty(),
    }
}

/// The wanted programs that a run of the process list shows.
pub open spec fn running_of(wanted: Seq<Seq<char>>, run: Option<Run>) -> Seq<Seq<char>> {
    running_list(wanted, text::lines(listing_text(run)))
}

/// Finds the wanted programs that are running. `run` is how
/// [`command::process_list_command`] ended; a list that could not be made
/// shows nothing.
pub fn running_processes(process_names: &Vec<String>, run: &Option<Run>) -> (r: Vec<String>)
    ensures
        text::views(r@) == running_of(text::views(process_names@), *run),
{
    match run {
        Some(Ok(output)) => {
            if output.success {
                let listing = command::lossy_text(output.stdout.as_slice());
                return running_in_listing(process_names, listing.as_str());
            }
        },
        _ => {},
    }
    let listing = String::new();
    running_in_listing(process_names, listing.as_str())
}

// ---------------------------------------------------------------------------
// Conflicts

/// An item whose files are held by running programs.
#[derive(Debug)]
pub struct ProcessConflict {
    pub item_id: String,
    pub app_name: String,
    pub process_names: Vec<String>,
    pub running_processes: Vec<String>,
    pub message: String,
}

/// The contents of a [`ProcessConflict`].
pub struct ConflictView {
    pub item_id: Seq<char>,
    pub app_name: Seq<char>,
    pub process_names: Seq<Seq<char>>,
    pub running_processes: Seq<Seq<char>>,
    pub message: Seq<char>,
}

impl View for ProcessConflict {
    type V = ConflictView;

    open spec fn view(&self) -> ConflictView {
        ConflictView {
            item_id: self.item_id@,
            app_name: self.app_name@,
            process_names: text::views(self.process_names@),
            running_processes: text::views(self.running_processes@),
            message: self.message@,
        }
    }
}

/// What the user is asked about running programs.
pub open spec fn conflict_message(running: Seq<Seq<char>>) -> Seq<char> {
    "检测到 "@ + text::join(running, ", "@)
        + " 正在运行，清理需要关闭该程序。是否立即结束该进程？"@
}

/// The conflict of an item with running programs, if there is one.
pub open spec fn conflict_of(public: ItemView, running: Seq<Seq<char>>) -> Option<ConflictView> {
    if public.process_names.len() == 0 || running.len() == 0 {
        None
    } else {
        Some(
            ConflictView {
                item_id: public.id,
                app_name: public.name,
                process_names: public.process_names,
                running_processes: running,
                message: conflict_message(running),
            },
        )
    }
}

/// The conflict inside, where there is one.
pub open spec fn opt_conflict(c: Option<ProcessConflict>) -> Option<ConflictView> {
    match c {
        Some(v) => Some(v@),
        None => None,
    }
}

/// Builds the conflict of an item with running programs.
pub fn conflict_for_item(item: &ScannedItem, running: Vec<String>) -> (r: Option<ProcessConflict>)
    ensures
        opt_conflict(r) == conflict_of(item@.public, text::views(running@)),
{
    if item.public.process_names.len() == 0 || running.len() == 0 {
        return None;
    }
    let shown = text::join_strings(&running, ", ");
    let message = text::concat3(
        "检测到 ",
        shown.as_str(),
        " 正在运行，清理需要关闭该程序。是否立即结束该进程？",
    );
    Some(
        ProcessConflict {
            item_id: item.public.id.clone(),
            app_name: item.public.name.clone(),
            process_names: text::copy_strings(&item.public.process_names),
            running_processes: running,
            message,
        },
    )
}

/// The conflicts of the items, in order. `running` holds, for each item, those
/// of its programs that are running.
pub open spec fn conflicts_of(items: Seq<ScannedView>, running: Seq<Seq<Seq<char>>>) -> Seq<
    ConflictView,
>
    decreases items.len(),
{
    if items.len() == 0 {
        Seq::empty()
    } else {
        let before = conflicts_of(items.drop_last(), running.drop_last());
        match conflict_of(items.last().public, running.last()) {
            Some(c) => before.push(c),
            None => before,
        }
    }
}

/// For each item, those of its programs that its list of processes shows.
pub open spec fn running_for(items: Seq<ScannedView>, runs: Seq<Option<Run>>) -> Seq<
    Seq<Seq<char>>,
> {
    Seq::new(items.len(), |i: int| running_of(items[i].public.process_names, runs[i]))
}

/// Finds the conflicts of the items, in order. `runs` holds, for each item with
/// programs, how [`command::process_list_command`] ended; for an item without
/// programs no list is needed.
pub fn conflicts_for_items(items: &Vec<ScannedItem>, runs: &Vec<Option<Run>>) -> (r: Vec<
    ProcessConflict,
>)
    requires
        runs@.len() == items@.len(),
    ensures
        text::views(r@) == conflicts_of(
            text::views(items@),
            running_for(text::views(items@), runs@),
        ),
{
    let ghost all = text::views(items@);
    let ghost running = running_for(all, runs@);
    let mut r: Vec<ProcessConflict> = Vec::new();
    assert(all.take(0) =~= Seq::empty());
    assert(text::views(r@) =~= Seq::empty());
    for i in 0..items.len()
        invariant
            runs@.len() == items@.len(),
            all == text::views(items@),
            running == running_for(all, runs@),
            text::views(r@) == conflicts_of(all.take(i as int), running.take(i as int)),
    {
        let ghost before = r@;
        proof {
            assert(all.take(i + 1).drop_last() =~= all.take(i as int));
            assert(running.take(i + 1).drop_last() =~= running.take(i as int));
            assert(all.take(i + 1).last() == items@[i as int]@);
            assert(running.take(i + 1).last() == running[i as int]);
        }
        let names = running_processes(&items[i].public.process_names, &runs[i]);
        match conflict_for_item(&items[i], names) {
            Some(c) => {
                r.push(c);
                proof {
                    text::lemma_views_push(before, c);
                }
            },
            None => {},
        }
    }
    assert(all.take(items@.len() as int) =~= all);
    assert(running.take(items@.len() as int) =~= running);
    r
}

/// Whether an item's programs are to be asked for.
pub fn needs_process_list(item: &ScannedItem) -> (r: bool)
    ensures
        r == (item@.public.process_names.len() > 0),
{
    item.public.process_names.len() > 0
}

/// An item is in conflict exactly where one of its programs is running.
pub proof fn law_conflicts_are_exact(items: Seq<ScannedView>, running: Seq<Seq<Seq<char>>>)
    requires
        items.len() == running.len(),
    ensures
        forall|c: ConflictView| #[trigger]
            conflicts_of(items, running).contains(c) <==> exists|i: int|
                0 <= i < items.len() && conflict_of((#[trigger] items[i]).public, running[i])
                    == Some(c),
    decreases items.len(),
{
    let list = conflicts_of(items, running);
    if items.len() > 0 {
        let shorter = items.drop_last();
        let fewer = running.drop_last();
        law_conflicts_are_exact(shorter, fewer);
        let before = conflicts_of(shorter, fewer);
        let last = items.len() - 1;
        assert forall|c: ConflictView| #[trigger] list.contains(c) <==> exists|i: int|
            0 <= i < items.len() && conflict_of((#[trigger] items[i]).public, running[i])
                == Some(c) by {
            if list.contains(c) {
                let k = choose|k: int| 0 <= k < list.len() && list[k] == c;
                if k < before.len() {
                    assert(before[k] == c);
                    assert(before.contains(c));
                    let i = choose|i: int|
                        0 <= i < shorter.len() && conflict_of(
                            (#[trigger] shorter[i]).public,
                            fewer[i],
                        ) == Some(c);
                    assert(items[i] == shorter[i]);
                } else {
                    assert(conflict_of(items[last].public, running[last]) == Some(c));
                }
            }
            if exists|i: int|
                0 <= i < items.len() && conflict_of((#[trigger] items[i]).public, running[i])
                    == Some(c) {
                let i = choose|i: int|
                    0 <= i < items.len() && conflict_of((#[trigger] items[i]).public, running[i])
                        == Some(c);
                if i < last {
                    assert(shorter[i] == items[i]);
                    assert(before.contains(c));
                    let k = choose|k: int| 0 <= k < before.len() && before[k] == c;
                    assert(list[k] == c);
                } else {
                    assert(list[list.len() - 1] == c);
                }
            }
        }
    }
}

// ---------------------------------------------------------------------------
// Decisions

/// What to do about running programs: end them, or leave the item out.
#[derive(Clone, Copy, Debug, PartialEq, Eq, Structural)]
pub enum ConflictDecision {
    Kill,
    Skip,
}

/// What was decided for an item.
#[derive(Debug)]
pub struct Decision {
    pub item_id: String,
    pub choice: ConflictDecision,
}

/// The contents of a [`Decision`].
pub struct DecisionView {
    pub item_id: Seq<char>,
    pub choice: ConflictDecision,
}

impl View for Decision {
    type V = DecisionView;

    open spec fn view(&self) -> DecisionView {
        DecisionView { item_id: self.item_id@, choice: self.choice }
    }
}

/// What was decided for the item with the given id: the first decision that
/// names it.
pub open spec fn decision_of(decisions: Seq<DecisionView>, id: Seq<char>) -> Option<
    ConflictDecision,
>
    decreases decisions.len(),
{
    if decisions.len() == 0 {
        None
    } else if decisions[0].item_id == id {
        Some(decisions[0].choice)
    } else {
        decision_of(decisions.skip(1), id)
    }
}

/// Finds what was decided for an item.
pub fn find_decision(decisions: &Vec<Decision>, id: &str) -> (r: Option<ConflictDecision>)
    ensures
        r == decision_of(text::views(decisions@), id@),
{
    let ghost all = text::views(decisions@);
    assert(all.skip(0) =~= all);
    for i in 0..decisions.len()
        invariant
            all == text::views(decisions@),
            decision_of(all, id@) == decision_of(all.skip(i as int), id@),
    {
        assert(all.skip(i as int)[0] == decisions@[i as int]@);
        assert(all.skip(i as int).skip(1) =~= all.skip(i + 1));
        if text::same_text(decisions[i].item_id.as_str(), id) {
            return Some(decisions[i].choice);
        }
    }
    assert(all.skip(decisions@.len() as int) =~= Seq::empty());
    None
}

/// The position of the first conflict about which nothing was decided, or the
/// number of conflicts.
pub open spec fn first_undecided(conflicts: Seq<ConflictView>, decisions: Seq<DecisionView>) -> int
    decreases conflicts.len(),
{
    if conflicts.len() == 0 || decision_of(decisions, conflicts[0].item_id) is None {
        0
    } else {
        1 + first_undecided(conflicts.skip(1), decisions)
    }
}

/// The programs to end: those of the conflicts for which that was decided, in
/// order.
pub open spec fn kills_of(conflicts: Seq<ConflictView>, decisions: Seq<DecisionView>) -> Seq<
    Seq<char>,
>
    decreases conflicts.len(),
{
    if conflicts.len() == 0 {
        Seq::empty()
    } else {
        let before = kills_of(conflicts.drop_last(), decisions);
        if decision_of(decisions, conflicts.last().item_id) == Some(ConflictDecision::Kill) {
            before + conflicts.last().process_names
        } else {
            before
        }
    }
}

/// What the conflicts lead to: the programs to end first, and the reason for
/// which nothing is cleaned, if there is one.
#[derive(Debug)]
pub struct ConflictPlan {
    pub kills: Vec<String>,
    pub error: Option<String>,
}

/// Whether something was decided about every conflict.
pub open spec fn all_decided(conflicts: Seq<ConflictView>, decisions: Seq<DecisionView>) -> bool {
    forall|i: int|
        0 <= i < conflicts.len() ==> decision_of(decisions, (#[trigger] conflicts[i]).item_id)
            is Some
}

/// The first undecided conflict is the only one that counts.
proof fn lemma_first_undecided(conflicts: Seq<ConflictView>, decisions: Seq<DecisionView>)
    ensures
        0 <= first_undecided(conflicts, decisions) <= conflicts.len(),
        all_decided(conflicts, decisions) <==> first_undecided(conflicts, decisions)
            == conflicts.len(),
    decreases conflicts.len(),
{
    if conflicts.len() > 0 {
        let rest = conflicts.skip(1);
        lemma_first_undecided(rest, decisions);
        if decision_of(decisions, conflicts[0].item_id) is Some {
            if all_decided(conflicts, decisions) {
                assert forall|i: int| 0 <= i < rest.len() implies decision_of(
                    decisions,
                    (#[trigger] rest[i]).item_id,
                ) is Some by {
                    assert(rest[i] == conflicts[i + 1]);
                }
            }
            if all_decided(rest, decisions) {
                assert forall|i: int| 0 <= i < conflicts.len() implies decision_of(
                    decisions,
                    (#[trigger] conflicts[i]).item_id,
                ) is Some by {
                    if i > 0 {
                        assert(rest[i - 1] == conflicts[i]);
                    }
                }
            }
        }
    }
}

/// Goes through the conflicts in order and collects the programs to end. At
/// the first conflict about which nothing was decided it stops, and nothing is
/// cleaned.
pub fn resolve_conflicts(conflicts: &Vec<ProcessConflict>, decisions: &Vec<Decision>) -> (r:
    ConflictPlan)
    ensures
        text::views(r.kills@) == kills_of(
            text::views(conflicts@).take(
                first_undecided(text::views(conflicts@), text::views(decisions@)),
            ),
            text::views(decisions@),
        ),
        item::opt_text(r.error) == if all_decided(
            text::views(conflicts@),
            text::views(decisions@),
        ) {
            None
        } else {
            Some("PROCESS_CONFLICT"@)
        },
{
    let ghost all = text::views(conflicts@);
    let ghost ds = text::views(decisions@);
    let mut kills: Vec<String> = Vec::new();
    proof {
        assert(all.skip(0) =~= all);
        assert(all.take(0) =~= Seq::empty());
        assert(text::views(kills@) =~= Seq::empty());
        lemma_first_undecided(all, ds);
    }
    for i in 0..conflicts.len()
        invariant
            all == text::views(conflicts@),
            ds == text::views(decisions@),
            first_undecided(all, ds) == i + first_undecided(all.skip(i as int), ds),
            0 <= first_undecided(all, ds) <= all.len(),
            all_decided(all, ds) <==> first_undecided(all, ds) == all.len(),
            text::views(kills@) == kills_of(all.take(i as int), ds),
    {
        let ghost before = kills@;
        proof {
            assert(all.skip(i as int)[0] == conflicts@[i as int]@);
            assert(all.skip(i as int).skip(1) =~= all.skip(i + 1));
            assert(all.take(i + 1).drop_last() =~= all.take(i as int));
            assert(all.take(i + 1).last() == conflicts@[i as int]@);
        }
        match find_decision(decisions, conflicts[i].item_id.as_str()) {
            Some(ConflictDecision::Kill) => {
                let mut names = text::copy_strings(&conflicts[i].process_names);
                let ghost added = names@;
                kills.append(&mut names);
                proof {
                    text::lemma_views_add(before, added);
                    assert(kills@ =~= before + added);
                }
            },
            Some(ConflictDecision::Skip) => {},
            None => {
                return ConflictPlan { kills, error: Some("PROCESS_CONFLICT".to_owned()) };
            },
        }
    }
    proof {
        assert(all.skip(conflicts@.len() as int) =~= Seq::empty());
        assert(all.take(conflicts@.len() as int) =~= all);
    }
    ConflictPlan { kills, error: None }
}

/// Where a program of an item is running and nothing was decided about the
/// item, nothing is cleaned.
pub proof fn law_running_program_needs_a_decision(
    items: Seq<ScannedView>,
    running: Seq<Seq<Seq<char>>>,
    decisions: Seq<DecisionView>,
    i: int,
)
    requires
        items.len() == running.len(),
        0 <= i < items.len(),
        items[i].public.process_names.len() > 0,
        running[i].len() > 0,
        decision_of(decisions, items[i].public.id) is None,
    ensures
        !all_decided(conflicts_of(items, running), decisions),
{
    law_conflicts_are_exact(items, running);
    let all = conflicts_of(items, running);
    let c = conflict_of(items[i].public, running[i])->Some_0;
    assert(all.contains(c));
    let k = choose|k: int| 0 <= k < all.len() && all[k] == c;
    assert(decision_of(decisions, all[k].item_id) is None);
}

/// Only programs are ended that an item names for which that was decided.
pub proof fn law_only_chosen_programs_are_ended(
    conflicts: Seq<ConflictView>,
    decisions: Seq<DecisionView>,
    name: Seq<char>,
)
    requires
        kills_of(conflicts, decisions).contains(name),
    ensures
        exists|i: int|
            0 <= i < conflicts.len() && decision_of(decisions, (#[trigger] conflicts[i]).item_id)
                == Some(ConflictDecision::Kill) && conflicts[i].process_names.contains(name),
    decreases conflicts.len(),
{
    let all = kills_of(conflicts, decisions);
    let k = choose|k: int| 0 <= k < all.len() && all[k] == name;
    let shorter = conflicts.drop_last();
    let before = kills_of(shorter, decisions);
    let last = conflicts.len() - 1;
    if k < before.len() {
        assert(before[k] == name);
        law_only_chosen_programs_are_ended(shorter, decisions, name);
        let i = choose|i: int|
            0 <= i < shorter.len() && decision_of(decisions, (#[trigger] shorter[i]).item_id)
                == Some(ConflictDecision::Kill) && shorter[i].process_names.contains(name);
        assert(conflicts[i] == shorter[i]);
    } else {
        assert(conflicts[last].process_names[k - before.len()] == name);
    }
}

// ---------------------------------------------------------------------------
// What a list of processes shows

/// A quoted name at the start of a line is read whole, whatever follows it and
/// whatever white space stands around the line.
pub proof fn law_quoted_name_is_read(before: Seq<char>, name: Seq<char>, rest: Seq<char>)
    requires
        forall|i: int| 0 <= i < before.len() ==> text::is_white(#[trigger] before[i]),
        forall|i: int| 0 <= i < name.len() ==> name[i] != '"',
    ensures
        tasklist_name(before + "\""@ + name + "\""@ + rest) == Some(name),
{
    reveal_strlit("\"");
    let a = "\""@ + name + "\""@;
    let white = text::CharSet::Whitespace;
    assert(before + "\""@ + name + "\""@ + rest =~= before + (a + rest));
    text::lemma_strip_start_padding(before, a + rest, white);
    text::lemma_strip_end_keeps(a, rest, white);
    let tail = text::strip_end(rest, white);
    assert(text::strip_start(a + rest, white) == a + rest);
    let t = a + tail;
    let inner = t.skip(1);
    assert forall|j: int| 0 <= j < name.len() implies inner[j] != '"' by {
        assert(inner[j] == name[j]);
    }
    text::lemma_first_of_is(inner, '"', name.len() as int);
    assert(inner.take(name.len() as int) =~= name);
}

/// A name without quotes is what stands before the first comma, or the whole
/// line.
pub proof fn law_plain_name_is_read(name: Seq<char>, rest: Seq<char>)
    requires
        name.len() > 0,
        forall|i: int| 0 <= i < name.len() ==> name[i] != ',',
        name[0] != '"' && !text::is_white(name[0]),
        !text::is_white(name.last()),
    ensures
        tasklist_name(name + ","@ + rest) == Some(name),
        tasklist_name(name) == Some(name),
{
    reveal_strlit(",");
    let white = text::CharSet::Whitespace;
    let a = name + ","@;
    text::lemma_strip_end_keeps(a, rest, white);
    let t = a + text::strip_end(rest, white);
    text::lemma_first_of_is(t, ',', name.len() as int);
    assert(t.take(name.len() as int) =~= name);
    let none = Seq::<char>::empty();
    assert(none + name + none =~= name);
    text::law_stripping_takes_off_the_ends(none, name, none, white);
    text::lemma_first_of_is(name, ',', name.len() as int);
    assert(name.take(name.len() as int) =~= name);
}

/// A line with the name of one of an item's programs, in whatever case and
/// whatever else is listed, puts the item in conflict, and without a decision
/// about it nothing is cleaned.
pub proof fn law_listed_program_holds_its_items(
    items: Seq<ScannedView>,
    running: Seq<Seq<Seq<char>>>,
    decisions: Seq<DecisionView>,
    i: int,
    lines: Seq<Seq<char>>,
    j: int,
    name: Seq<char>,
    rest: Seq<char>,
    k: int,
)
    requires
        items.len() == running.len(),
        0 <= i < items.len(),
        running[i] == running_list(items[i].public.process_names, lines),
        0 <= j < lines.len(),
        lines[j] == "\""@ + name + "\""@ + rest,
        forall|m: int| 0 <= m < name.len() ==> name[m] != '"',
        0 <= k < items[i].public.process_names.len(),
        text::lower(name) == text::lower(items[i].public.process_names[k]),
    ensures
        running[i].contains(name),
        exists|c: ConflictView| #[trigger]
            conflicts_of(items, running).contains(c) && c.item_id == items[i].public.id
                && c.running_processes.contains(name),
        decision_of(decisions, items[i].public.id) is None ==> !all_decided(
            conflicts_of(items, running),
            decisions,
        ),
{
    let wanted = items[i].public.process_names;
    let none = Seq::<char>::empty();
    assert(none + "\""@ + name + "\""@ + rest =~= "\""@ + name + "\""@ + rest);
    law_quoted_name_is_read(none, name, rest);
    assert(text::lower(wanted[k]) == text::lower(name));
    assert(is_wanted(wanted, name));
    law_running_list_is_exact(wanted, lines);
    assert(tasklist_name(lines[j]) == Some(name));
    assert(running_list(wanted, lines).contains(name));
    let c = conflict_of(items[i].public, running[i])->Some_0;
    law_conflicts_are_exact(items, running);
    assert(conflicts_of(items, running).contains(c));
    if decision_of(decisions, items[i].public.id) is None {
        law_running_program_needs_a_decision(items, running, decisions, i);
    }
}

/// Every program of a conflict for which that was decided is ended.
pub proof fn law_every_chosen_program_is_ended(
    conflicts: Seq<ConflictView>,
    decisions: Seq<DecisionView>,
    i: int,
    name: Seq<char>,
)
    requires
        0 <= i < conflicts.len(),
        decision_of(decisions, conflicts[i].item_id) == Some(ConflictDecision::Kill),
        conflicts[i].process_names.contains(name),
    ensures
        kills_of(conflicts, decisions).contains(name),
    decreases conflicts.len(),
{
    let all = kills_of(conflicts, decisions);
    let shorter = conflicts.drop_last();
    let before = kills_of(shorter, decisions);
    if i < shorter.len() {
        law_every_chosen_program_is_ended(shorter, decisions, i, name);
        let k = choose|k: int| 0 <= k < before.len() && before[k] == name;
        assert(all[k] == name);
    } else {
        let names = conflicts[i].process_names;
        let k = choose|k: int| 0 <= k < names.len() && names[k] == name;
        assert(all[before.len() + k] == name);
    }
}

/// The first decision that names an item counts for it, and decisions about
/// other items make no difference.
pub proof fn law_decisions_are_found_by_id(
    decisions: Seq<DecisionView>,
    first: DecisionView,
    id: Seq<char>,
)
    ensures
        decision_of(seq![first] + decisions, first.item_id) == Some(first.choice),
        id != first.item_id ==> decision_of(seq![first] + decisions, id) == decision_of(
            decisions,
            id,
        ),
        decision_of(Seq::empty(), id) is None,
{
    assert((seq![first] + decisions).skip(1) =~= decisions);
}

/// A list of processes that could not be made, or that failed, shows no program.
pub proof fn law_failed_listing_shows_no_program(wanted: Seq<Seq<char>>, run: Option<Run>)
    requires
        run matches Some(Ok(output)) ==> !output.success,
    ensures
        running_of(wanted, run).len() == 0,
{
    assert(text::lines(Seq::empty()) =~= Seq::empty());
    assert(running_list(wanted, Seq::empty()) =~= Seq::empty());
}

/// A conflict is about an item that names programs while some of them run. It
/// says which item it is, which programs it names and which of them run, and
/// asks about those.
pub proof fn law_conflicts_speak_of_their_item(public: ItemView, running: Seq<Seq<char>>)
    ensures
        conflict_of(public, running) is Some <==> public.process_names.len() > 0 && running.len()
            > 0,
        conflict_of(public, running) matches Some(c) ==> {
            &&& c.item_id == public.id
            &&& c.app_name == public.name
            &&& c.process_names == public.process_names
            &&& c.running_processes == running
            &&& c.message == "检测到 "@ + text::join(running, ", "@)
                + " 正在运行，清理需要关闭该程序。是否立即结束该进程？"@
        },
{
}

/// The first conflict without a decision is preceded by conflicts that have
/// one, and what comes after it is of no account.
pub proof fn law_first_open_conflict_stops(
    decided: Seq<ConflictView>,
    open: ConflictView,
    rest: Seq<ConflictView>,
    decisions: Seq<DecisionView>,
)
    requires
        all_decided(decided, decisions),
        decision_of(decisions, open.item_id) is None,
    ensures
        first_undecided(decided + seq![open] + rest, decisions) == decided.len(),
        first_undecided(decided, decisions) == decided.len(),
    decreases decided.len(),
{
    let all = decided + seq![open] + rest;
    lemma_first_undecided(decided, decisions);
    if decided.len() > 0 {
        let fewer = decided.skip(1);
        assert forall|i: int| 0 <= i < fewer.len() implies decision_of(
            decisions,
            (#[trigger] fewer[i]).item_id,
        ) is Some by {
            assert(fewer[i] == decided[i + 1]);
        }
        law_first_open_conflict_stops(fewer, open, rest, decisions);
        assert(all.skip(1) =~= fewer + seq![open] + rest);
        assert(all[0] == decided[0]);
    } else {
        assert(all[0] == open);
    }
}

} // verus!
