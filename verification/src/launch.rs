//! Command texts as the registry holds them: how variables in them are filled
//! in, and which program file a command starts.
use crate::item;
use crate::system;
use crate::text;
use crate::text::CharSet;
use vstd::prelude::*;
use vstd::slice::slice_subrange;

verus! {

// ---------------------------------------------------------------------------
// Variables

/// The text after a percent sign that begins it, up to the next one or the end.
pub open spec fn variable(s: Seq<char>) -> Seq<char> {
    s.skip(1).take(text::first_of(s.skip(1), '%'))
}

/// What follows the variable and its closing percent sign.
pub open spec fn after_variable(s: Seq<char>) -> Seq<char> {
    let k = text::first_of(s.skip(1), '%');
    if k + 2 <= s.len() {
        s.skip(k + 2)
    } else {
        Seq::empty()
    }
}

/// The names of the variables that a text refers to, in order. Two percent
/// signs next to each other name none.
pub open spec fn references(s: Seq<char>) -> Seq<Seq<char>>
    decreases s.len(),
    via references_decreases
{
    if s.len() == 0 {
        Seq::empty()
    } else if s[0] != '%' {
        references(s.skip(1))
    } else if variable(s).len() == 0 {
        references(after_variable(s))
    } else {
        seq![variable(s)] + references(after_variable(s))
    }
}

/// What follows a variable is shorter.
#[via_fn]
proof fn references_decreases(s: Seq<char>) {
    text::lemma_first_of(s.skip(1), '%');
}

/// The value of the next reference, if it has one.
pub open spec fn next_value(values: Seq<Option<Seq<char>>>) -> Option<Seq<char>> {
    if values.len() == 0 {
        None
    } else {
        values[0]
    }
}

/// The values of the references after the next one.
pub open spec fn later_values(values: Seq<Option<Seq<char>>>) -> Seq<Option<Seq<char>>> {
    if values.len() == 0 {
        values
    } else {
        values.skip(1)
    }
}

/// The text with its variables filled in. `values` holds the value of each
/// reference in order; a variable without a value stays, between percent
/// signs. Two percent signs next to each other stand for one.
pub open spec fn expanded(s: Seq<char>, values: Seq<Option<Seq<char>>>) -> Seq<char>
    decreases s.len(),
    via expanded_decreases
{
    if s.len() == 0 {
        Seq::empty()
    } else if s[0] != '%' {
        seq![s[0]] + expanded(s.skip(1), values)
    } else if variable(s).len() == 0 {
        "%"@ + expanded(after_variable(s), values)
    } else {
        (match next_value(values) {
            Some(v) => v,
            None => "%"@ + variable(s) + "%"@,
        }) + expanded(after_variable(s), later_values(values))
    }
}

/// What follows a variable is shorter.
#[via_fn]
proof fn expanded_decreases(s: Seq<char>, values: Seq<Option<Seq<char>>>) {
    text::lemma_first_of(s.skip(1), '%');
}

/// One step of reading a text: where the variable that begins at `i` ends.
fn variable_end(s: &[char], i: usize) -> (r: usize)
    requires
        i < s@.len(),
        s@[i as int] == '%',
    ensures
        i < r <= s@.len(),
        s@.subrange(i + 1, r as int) == variable(s@.skip(i as int)),
        after_variable(s@.skip(i as int)) == if r < s@.len() {
            s@.skip(r + 1)
        } else {
            Seq::empty()
        },
{
    let n = s.len();
    assert(n == s@.len());
    let k = text::position_from(s, '%', i + 1);
    proof {
        let rest = s@.skip(i as int);
        assert(rest.skip(1) =~= s@.skip(i + 1));
        text::lemma_first_of(rest.skip(1), '%');
        assert(s@.subrange(i + 1, k as int) =~= variable(rest));
        if k < s@.len() {
            assert(after_variable(rest) =~= s@.skip(k + 1));
        } else {
            assert(after_variable(rest) =~= Seq::empty());
        }
    }
    k
}

/// Lists the variables that a text refers to, in order.
pub fn env_references(input: &str) -> (r: Vec<String>)
    ensures
        text::views(r@) == references(input@),
{
    let cs = text::chars_of(input);
    let s = cs.as_slice();
    let n = s.len();
    let mut r: Vec<String> = Vec::new();
    let mut i: usize = 0;
    assert(s@.skip(0) =~= s@);
    assert(text::views(r@) + references(s@) =~= references(s@));
    while i < n
        invariant
            n == s@.len(),
            i <= n,
            text::views(r@) + references(s@.skip(i as int)) == references(s@),
        decreases n - i,
    {
        let ghost rest = s@.skip(i as int);
        if s[i] != '%' {
            assert(rest.skip(1) =~= s@.skip(i + 1));
            i = i + 1;
        } else {
            let end = variable_end(s, i);
            let ghost before = r@;
            if end > i + 1 {
                let name = text::string_of(slice_subrange(s, i + 1, end));
                r.push(name);
                proof {
                    text::lemma_views_push(before, name);
                }
            }
            proof {
                let next = after_variable(rest);
                assert(s@.skip(n as int) =~= Seq::empty());
                assert(text::views(r@) + references(next) =~= text::views(before) + references(
                    rest,
                ));
            }
            i = if end < n {
                end + 1
            } else {
                n
            };
        }
    }
    assert(s@.skip(n as int) =~= Seq::empty());
    assert(text::views(r@) + references(s@.skip(n as int)) =~= text::views(r@));
    r
}

/// Fills in the variables of a text. `values` holds the value of each
/// reference of [`env_references`], where it has one.
pub fn expand_env_vars(input: &str, values: &Vec<Option<String>>) -> (r: String)
    ensures
        r@ == expanded(input@, system::opt_texts(values@)),
{
    let cs = text::chars_of(input);
    let s = cs.as_slice();
    let n = s.len();
    let m = values.len();
    let ghost vals = system::opt_texts(values@);
    let mut r = String::new();
    let mut i: usize = 0;
    let mut j: usize = 0;
    assert(s@.skip(0) =~= s@);
    assert(vals.skip(0) =~= vals);
    assert(r@ + expanded(s@, vals) =~= expanded(s@, vals));
    while i < n
        invariant
            n == s@.len(),
            i <= n,
            m == values@.len(),
            vals == system::opt_texts(values@),
            j <= m,
            r@ + expanded(s@.skip(i as int), vals.skip(j as int)) == expanded(s@, vals),
        decreases n - i,
    {
        let ghost rest = s@.skip(i as int);
        let ghost left = vals.skip(j as int);
        let ghost before = r@;
        if s[i] != '%' {
            let c = s[i];
            r.push(c);
            proof {
                assert(rest.skip(1) =~= s@.skip(i + 1));
                assert(r@ + expanded(rest.skip(1), left) =~= before + expanded(rest, left));
            }
            i = i + 1;
        } else {
            let end = variable_end(s, i);
            let ghost next = after_variable(rest);
            assert(s@.skip(n as int) =~= Seq::empty());
            if end == i + 1 {
                r.append("%");
                assert(r@ + expanded(next, left) =~= before + expanded(rest, left));
            } else {
                let mut value: Option<&String> = None;
                if j < m {
                    assert(left.skip(1) =~= vals.skip(j + 1));
                    assert(left[0] == item::opt_text(values@[j as int]));
                    value = values[j].as_ref();
                    j = j + 1;
                }
                match value {
                    Some(v) => {
                        r.append(v.as_str());
                    },
                    None => {
                        let name = text::string_of(slice_subrange(s, i + 1, end));
                        r.append("%");
                        r.append(name.as_str());
                        r.append("%");
                        assert(r@ =~= before + ("%"@ + name@ + "%"@));
                    },
                }
                assert(r@ + expanded(next, later_values(left)) =~= before + expanded(rest, left));
            }
            i = if end < n {
                end + 1
            } else {
                n
            };
        }
    }
    assert(s@.skip(n as int) =~= Seq::empty());
    assert(r@ + expanded(s@.skip(n as int), vals.skip(j as int)) =~= r@);
    r
}

/// A text without a percent sign refers to nothing and stays as it is.
pub proof fn law_plain_text_is_kept(s: Seq<char>, values: Seq<Option<Seq<char>>>)
    requires
        forall|i: int| 0 <= i < s.len() ==> s[i] != '%',
    ensures
        references(s).len() == 0,
        expanded(s, values) == s,
    decreases s.len(),
{
    if s.len() > 0 {
        let rest = s.skip(1);
        assert forall|i: int| 0 <= i < rest.len() implies rest[i] != '%' by {
            assert(rest[i] == s[i + 1]);
        }
        law_plain_text_is_kept(rest, values);
        assert(seq![s[0]] + rest =~= s);
    }
}

/// The first variable of a text is replaced by its value, or stays where it
/// has none; what stands before it is kept, and what follows is filled in with
/// the values that are left.
pub proof fn law_variable_is_replaced(
    before: Seq<char>,
    name: Seq<char>,
    after: Seq<char>,
    value: Option<Seq<char>>,
    values: Seq<Option<Seq<char>>>,
)
    requires
        forall|i: int| 0 <= i < before.len() ==> before[i] != '%',
        forall|i: int| 0 <= i < name.len() ==> name[i] != '%',
        name.len() > 0,
    ensures
        references(before + "%"@ + name + "%"@ + after) == seq![name] + references(after),
        expanded(before + "%"@ + name + "%"@ + after, seq![value] + values) == before + (
        match value {
            Some(v) => v,
            None => "%"@ + name + "%"@,
        }) + expanded(after, values),
    decreases before.len(),
{
    reveal_strlit("%");
    let all = before + "%"@ + name + "%"@ + after;
    let given = seq![value] + values;
    if before.len() == 0 {
        assert(all.skip(1) =~= name + "%"@ + after);
        text::lemma_first_of_is(all.skip(1), '%', name.len() as int);
        assert(variable(all) =~= name);
        assert(after_variable(all) =~= after);
        assert(given.skip(1) =~= values);
        assert(expanded(all, given) =~= before + (match value {
            Some(v) => v,
            None => "%"@ + name + "%"@,
        }) + expanded(after, values));
    } else {
        let rest = before.skip(1);
        assert(all.skip(1) =~= rest + "%"@ + name + "%"@ + after);
        assert forall|i: int| 0 <= i < rest.len() implies rest[i] != '%' by {
            assert(rest[i] == before[i + 1]);
        }
        law_variable_is_replaced(rest, name, after, value, values);
        assert(expanded(all, given) =~= before + (match value {
            Some(v) => v,
            None => "%"@ + name + "%"@,
        }) + expanded(after, values));
    }
}

// ---------------------------------------------------------------------------
// The program of a command

/// Whether a program file name ends where this text goes on after an
/// extension.
pub open spec fn at_extension(low: Seq<char>) -> bool {
    ||| text::starts_with(low, ".exe"@)
    ||| text::starts_with(low, ".bat"@)
    ||| text::starts_with(low, ".cmd"@)
    ||| text::starts_with(low, ".com"@)
    ||| text::starts_with(low, ".dll"@)
}

/// The position of the first program extension, or the length where there is
/// none.
pub open spec fn first_extension(low: Seq<char>) -> int
    decreases low.len(),
{
    if low.len() == 0 || at_extension(low) {
        0
    } else {
        1 + first_extension(low.skip(1))
    }
}

/// The position of the first white space, or the length where there is none.
pub open spec fn first_white(s: Seq<char>) -> int
    decreases s.len(),
{
    if s.len() == 0 || text::is_white(s[0]) {
        0
    } else {
        1 + first_white(s.skip(1))
    }
}

/// The part of a command that names its program: what is between quotes, else
/// everything up to the first program extension, else the first word. A quote
/// that is not closed names nothing.
pub open spec fn program_part(value: Seq<char>) -> Option<Seq<char>> {
    if value.len() > 0 && value[0] == '"' {
        let rest = value.skip(1);
        let k = text::first_of(rest, '"');
        if k < rest.len() {
            Some(rest.take(k))
        } else {
            None
        }
    } else {
        let k = first_extension(text::lower(value));
        if k < value.len() {
            Some(value.take(k + 4))
        } else {
            Some(value.take(first_white(value)))
        }
    }
}

/// A command without the white space and null characters around it.
pub open spec fn bare_command(s: Seq<char>) -> Seq<char> {
    text::trim(text::strip(text::trim(s), CharSet::Only('\0')))
}

/// The program file that a command starts. Commands of `rundll32` and those
/// that mention `msiexec` name none.
pub open spec fn command_target(s: Seq<char>) -> Option<Seq<char>> {
    let value = bare_command(s);
    let low = text::lower(value);
    if value.len() == 0 || text::starts_with(low, "rundll32"@) || text::contains(low, "msiexec"@) {
        None
    } else {
        match program_part(value) {
            Some(part) => {
                let path = text::strip(
                    text::strip(text::trim(part), CharSet::Only('"')),
                    CharSet::Only('\''),
                );
                if path.len() == 0 {
                    None
                } else {
                    Some(path)
                }
            },
            None => None,
        }
    }
}

/// Decides [`at_extension`] at a position.
fn extension_at(low: &[char], i: usize) -> (r: bool)
    requires
        i <= low@.len(),
    ensures
        r == at_extension(low@.skip(i as int)),
{
    let rest = slice_subrange(low, i, low.len());
    assert(rest@ =~= low@.skip(i as int));
    text::begins_with(rest, ".exe") || text::begins_with(rest, ".bat") || text::begins_with(
        rest,
        ".cmd",
    ) || text::begins_with(rest, ".com") || text::begins_with(rest, ".dll")
}

/// An extension has four characters.
proof fn lemma_extension_len(low: Seq<char>)
    ensures
        at_extension(low) ==> low.len() >= 4,
{
    reveal_strlit(".exe");
    reveal_strlit(".bat");
    reveal_strlit(".cmd");
    reveal_strlit(".com");
    reveal_strlit(".dll");
}

/// Finds the first program extension.
fn find_extension(low: &[char]) -> (r: usize)
    ensures
        r == first_extension(low@),
        r <= low@.len(),
        r < low@.len() ==> r + 4 <= low@.len(),
{
    let mut i: usize = 0;
    assert(low@.skip(0) =~= low@);
    while i < low.len() && !extension_at(low, i)
        invariant
            i <= low@.len(),
            i + first_extension(low@.skip(i as int)) == first_extension(low@),
        decreases low@.len() - i,
    {
        assert(low@.skip(i as int).skip(1) =~= low@.skip(i + 1));
        i = i + 1;
    }
    proof {
        lemma_extension_len(low@.skip(i as int));
    }
    i
}

/// Finds the first white space.
fn find_white(s: &[char]) -> (r: usize)
    ensures
        r == first_white(s@),
        r <= s@.len(),
{
    let mut i: usize = 0;
    assert(s@.skip(0) =~= s@);
    while i < s.len() && !text::is_whitespace(s[i])
        invariant
            i <= s@.len(),
            i + first_white(s@.skip(i as int)) == first_white(s@),
        decreases s@.len() - i,
    {
        assert(s@.skip(i as int).skip(1) =~= s@.skip(i + 1));
        i = i + 1;
    }
    i
}

/// Finds the part of a command that names its program.
fn find_program<'a>(value: &'a [char], low: &[char]) -> (r: Option<&'a [char]>)
    requires
        low@ == text::lower(value@),
    ensures
        match r {
            Some(p) => program_part(value@) == Some(p@),
            None => program_part(value@) is None,
        },
{
    if value.len() > 0 && value[0] == '"' {
        let k = text::position_from(value, '"', 1);
        if k < value.len() {
            let part = slice_subrange(value, 1, k);
            assert(part@ =~= value@.skip(1).take(k - 1));
            Some(part)
        } else {
            None
        }
    } else {
        let k = find_extension(low);
        if k < value.len() {
            assert(value@.subrange(0, k + 4) =~= value@.take(k + 4));
            Some(slice_subrange(value, 0, k + 4))
        } else {
            let w = find_white(value);
            assert(value@.subrange(0, w as int) =~= value@.take(w as int));
            Some(slice_subrange(value, 0, w))
        }
    }
}

/// Finds the program file of a command whose variables are filled in.
pub fn program_of_command(command: &str) -> (r: Option<String>)
    ensures
        item::opt_text(r) == command_target(command@),
{
    let cs = text::chars_of(command);
    let value = text::trimmed(text::stripped(text::trimmed(cs.as_slice()), CharSet::Only('\0')));
    if value.len() == 0 {
        return None;
    }
    let low_chars = text::lowered(value);
    let low = low_chars.as_slice();
    if text::begins_with(low, "rundll32") || text::has_text(low, "msiexec") {
        return None;
    }
    match find_program(value, low) {
        Some(part) => {
            let path = text::stripped(
                text::stripped(text::trimmed(part), CharSet::Only('"')),
                CharSet::Only('\''),
            );
            if path.len() == 0 {
                None
            } else {
                Some(text::string_of(path))
            }
        },
        None => None,
    }
}

/// Finds the program file that a command starts, after its variables are
/// filled in with the given values.
pub fn executable_path_from_command(command: &str, values: &Vec<Option<String>>) -> (r: Option<
    String,
>)
    ensures
        item::opt_text(r) == command_target(expanded(command@, system::opt_texts(values@))),
{
    let filled = expand_env_vars(command, values);
    program_of_command(filled.as_str())
}

/// Whether a command starts a program file that is not there. `target_exists`
/// says whether the file of [`executable_path_from_command`] exists; a command
/// that names no file misses none.
pub fn registry_command_path_missing(
    command: &str,
    values: &Vec<Option<String>>,
    target_exists: bool,
) -> (r: bool)
    ensures
        r == (command_target(expanded(command@, system::opt_texts(values@))) is Some
            && !target_exists),
{
    match executable_path_from_command(command, values) {
        Some(_) => !target_exists,
        None => false,
    }
}

// ---------------------------------------------------------------------------
// What a command starts

/// Two percent signs next to each other stand for one, whatever follows.
pub proof fn law_two_percent_signs_stand_for_one(
    before: Seq<char>,
    after: Seq<char>,
    values: Seq<Option<Seq<char>>>,
)
    requires
        forall|i: int| 0 <= i < before.len() ==> before[i] != '%',
    ensures
        references(before + "%%"@ + after) == references(after),
        expanded(before + "%%"@ + after, values) == before + "%"@ + expanded(after, values),
    decreases before.len(),
{
    reveal_strlit("%");
    reveal_strlit("%%");
    let all = before + "%%"@ + after;
    if before.len() == 0 {
        text::lemma_first_of_is(all.skip(1), '%', 0);
        assert(after_variable(all) =~= after);
        assert(expanded(all, values) =~= before + "%"@ + expanded(after, values));
    } else {
        let rest = before.skip(1);
        assert(all.skip(1) =~= rest + "%%"@ + after);
        assert forall|i: int| 0 <= i < rest.len() implies rest[i] != '%' by {
            assert(rest[i] == before[i + 1]);
        }
        law_two_percent_signs_stand_for_one(rest, after, values);
        assert(expanded(all, values) =~= before + "%"@ + expanded(after, values));
    }
}

/// A variable that is not closed goes to the end of the text: it is replaced by
/// its value, or closed where it has none. A percent sign at the end stays.
pub proof fn law_open_variable_goes_to_the_end(
    before: Seq<char>,
    name: Seq<char>,
    value: Option<Seq<char>>,
)
    requires
        forall|i: int| 0 <= i < before.len() ==> before[i] != '%',
        forall|i: int| 0 <= i < name.len() ==> name[i] != '%',
    ensures
        name.len() == 0 ==> expanded(before + "%"@ + name, seq![value]) == before + "%"@,
        name.len() > 0 ==> references(before + "%"@ + name) == seq![name] && expanded(
            before + "%"@ + name,
            seq![value],
        ) == before + (match value {
            Some(v) => v,
            None => "%"@ + name + "%"@,
        }),
    decreases before.len(),
{
    reveal_strlit("%");
    let all = before + "%"@ + name;
    let given = seq![value];
    let want = if name.len() == 0 {
        before + "%"@
    } else {
        before + (match value {
            Some(v) => v,
            None => "%"@ + name + "%"@,
        })
    };
    if before.len() == 0 {
        assert(all.skip(1) =~= name);
        text::lemma_first_of_is(all.skip(1), '%', name.len() as int);
        assert(variable(all) =~= name);
        assert(after_variable(all) =~= Seq::empty());
        assert(expanded(Seq::empty(), given) =~= Seq::empty());
        assert(expanded(Seq::empty(), later_values(given)) =~= Seq::empty());
        assert(references(Seq::empty()) =~= Seq::empty());
        assert(expanded(all, given) =~= want);
        if name.len() > 0 {
            assert(references(all) =~= seq![name]);
        }
    } else {
        let rest = before.skip(1);
        assert(all.skip(1) =~= rest + "%"@ + name);
        assert forall|i: int| 0 <= i < rest.len() implies rest[i] != '%' by {
            assert(rest[i] == before[i + 1]);
        }
        law_open_variable_goes_to_the_end(rest, name, value);
        assert(expanded(all, given) =~= want);
    }
}

/// Whether the character can neither begin nor end what is cut off around a
/// command.
spec fn is_solid(c: char) -> bool {
    !text::is_white(c) && c != '\0'
}

/// Around a command only its end can be cut, and not before a character that is
/// no white space.
proof fn lemma_bare_command(a: Seq<char>, b: Seq<char>) -> (n: int)
    requires
        a.len() > 0,
        is_solid(a[0]),
        is_solid(a.last()),
    ensures
        a.len() <= n <= a.len() + b.len(),
        bare_command(a + b) == (a + b).take(n),
{
    let white = CharSet::Whitespace;
    let null = CharSet::Only('\0');
    text::lemma_strip_end_keeps(a, b, white);
    let b1 = text::strip_end(b, white);
    assert(text::strip_start(a + b, white) == a + b);
    assert(text::trim(a + b) == a + b1);
    text::lemma_strip_end_keeps(a, b1, null);
    let b2 = text::strip_end(b1, null);
    assert(text::strip_start(a + b1, null) == a + b1);
    assert(text::strip(a + b1, null) == a + b2);
    text::lemma_strip_end_keeps(a, b2, white);
    let b3 = text::strip_end(b2, white);
    assert(text::strip_start(a + b2, white) == a + b2);
    assert(bare_command(a + b) == a + b3);
    let n = (a.len() + b3.len()) as int;
    assert(b3 =~= b.take(b3.len() as int));
    assert(a + b3 =~= (a + b).take(n));
    n
}

/// The beginning of a text is made small as in the text.
proof fn lemma_lower_beginning(s: Seq<char>, n: int)
    requires
        0 <= n <= s.len(),
    ensures
        text::lower(s.take(n)) == text::lower(s).take(n),
{
    assert(text::lower(s.take(n)) =~= text::lower(s).take(n));
}

/// A path without white space or quotes at its ends is left as it is.
proof fn lemma_plain_path_is_kept(p: Seq<char>)
    requires
        p.len() > 0,
        !text::is_white(p[0]) && !text::is_white(p.last()),
        p[0] != '"' && p.last() != '"',
        p[0] != '\'' && p.last() != '\'',
    ensures
        text::strip(
            text::strip(text::trim(p), CharSet::Only('"')),
            CharSet::Only('\''),
        ) == p,
{
    let none = Seq::<char>::empty();
    assert(none + p + none =~= p);
    text::law_stripping_takes_off_the_ends(none, p, none, CharSet::Whitespace);
    text::law_stripping_takes_off_the_ends(none, p, none, CharSet::Only('"'));
    text::law_stripping_takes_off_the_ends(none, p, none, CharSet::Only('\''));
}

/// The program of a command that begins with a quoted path is that path,
/// whatever follows it.
pub proof fn law_quoted_path_is_the_program(p: Seq<char>, rest: Seq<char>)
    requires
        p.len() > 0,
        forall|i: int| 0 <= i < p.len() ==> p[i] != '"',
        !text::is_white(p[0]) && !text::is_white(p.last()),
        p[0] != '\'' && p.last() != '\'',
        !text::contains(text::lower("\""@ + p + "\""@ + rest), "msiexec"@),
    ensures
        command_target("\""@ + p + "\""@ + rest) == Some(p),
{
    reveal_strlit("\"");
    reveal_strlit("rundll32");
    let a = "\""@ + p + "\""@;
    let s = a + rest;
    let n = lemma_bare_command(a, rest);
    let value = s.take(n);
    lemma_lower_beginning(s, n);
    if text::contains(text::lower(value), "msiexec"@) {
        text::lemma_contains_in_beginning(text::lower(s), n, "msiexec"@);
    }
    let low = text::lower(value);
    if text::starts_with(low, "rundll32"@) {
        assert(low.subrange(0, "rundll32"@.len() as int)[0] == "rundll32"@[0]);
        assert(low[0] == text::lower_char(value[0]));
    }
    let tail = value.skip(1);
    assert forall|j: int| 0 <= j < p.len() implies tail[j] != '"' by {
        assert(tail[j] == p[j]);
    }
    assert(tail[p.len() as int] == '"');
    text::lemma_first_of_is(tail, '"', p.len() as int);
    assert(tail.take(p.len() as int) =~= p);
    lemma_plain_path_is_kept(p);
}

/// The first extension is where one stands and none before it.
proof fn lemma_first_extension_is(low: Seq<char>, k: int)
    requires
        0 <= k <= low.len(),
        k < low.len() ==> at_extension(low.skip(k)),
        forall|j: int| 0 <= j < k ==> !at_extension(#[trigger] low.skip(j)),
    ensures
        first_extension(low) == k,
    decreases low.len(),
{
    assert(low.skip(0) =~= low);
    if k > 0 {
        let rest = low.skip(1);
        assert(!at_extension(low.skip(0)));
        assert(rest.skip(k - 1) =~= low.skip(k));
        assert forall|j: int| 0 <= j < k - 1 implies !at_extension(#[trigger] rest.skip(j)) by {
            assert(rest.skip(j) =~= low.skip(j + 1));
        }
        lemma_first_extension_is(rest, k - 1);
    }
}

/// The program of a command that does not begin with a quote is everything up
/// to and with its first program extension, whatever follows it.
pub proof fn law_program_ends_with_its_extension(
    path: Seq<char>,
    extension: Seq<char>,
    rest: Seq<char>,
)
    requires
        ({
            let low = text::lower(extension);
            low == ".exe"@ || low == ".bat"@ || low == ".cmd"@ || low == ".com"@ || low == ".dll"@
        }),
        ({
            let first = (path + extension)[0];
            !text::is_white(first) && first != '\0' && first != '"' && first != '\''
        }),
        forall|j: int|
            0 <= j < path.len() ==> {
                let low = #[trigger] text::lower(path + extension + rest).skip(j);
                &&& !text::starts_with(low, ".exe"@)
                &&& !text::starts_with(low, ".bat"@)
                &&& !text::starts_with(low, ".cmd"@)
                &&& !text::starts_with(low, ".com"@)
                &&& !text::starts_with(low, ".dll"@)
            },
        !text::starts_with(text::lower(path + extension + rest), "rundll32"@),
        !text::contains(text::lower(path + extension + rest), "msiexec"@),
    ensures
        command_target(path + extension + rest) == Some(path + extension),
{
    reveal_strlit(".exe");
    reveal_strlit(".bat");
    reveal_strlit(".cmd");
    reveal_strlit(".com");
    reveal_strlit(".dll");
    reveal_strlit("rundll32");
    let a = path + extension;
    let s = a + rest;
    let k = path.len() as int;
    let low_e = text::lower(extension);
    assert(extension.len() == 4) by {
        assert(low_e.len() == extension.len());
    }
    assert(low_e[3] == text::lower_char(extension[3]));
    assert(a.last() == extension[3]);
    assert(is_solid(a.last()));
    let n = lemma_bare_command(a, rest);
    let value = s.take(n);
    let low = text::lower(value);
    lemma_lower_beginning(s, n);
    if text::contains(low, "msiexec"@) {
        text::lemma_contains_in_beginning(text::lower(s), n, "msiexec"@);
    }
    if text::starts_with(low, "rundll32"@) {
        assert(low.subrange(0, "rundll32"@.len() as int) =~= text::lower(s).subrange(
            0,
            "rundll32"@.len() as int,
        ));
    }
    assert(low.skip(k).subrange(0, 4) =~= low_e);
    assert(at_extension(low.skip(k)));
    assert forall|j: int| 0 <= j < k implies !at_extension(#[trigger] low.skip(j)) by {
        let whole = text::lower(s).skip(j);
        assert(!text::starts_with(whole, ".exe"@));
        if at_extension(low.skip(j)) {
            assert(low.skip(j).subrange(0, 4) =~= whole.subrange(0, 4));
        }
    }
    lemma_first_extension_is(low, k);
    assert(value.take(k + 4) =~= a);
    lemma_plain_path_is_kept(a);
}

/// The program of a command without a quote at its start and without a program
/// extension is its first word.
pub proof fn law_first_word_is_the_program(word: Seq<char>, rest: Seq<char>)
    requires
        word.len() > 0,
        forall|i: int| 0 <= i < word.len() ==> !text::is_white(#[trigger] word[i]),
        rest.len() > 0 ==> text::is_white(rest[0]),
        word[0] != '\0' && word[0] != '"' && word[0] != '\'',
        word.last() != '\0' && word.last() != '"' && word.last() != '\'',
        forall|j: int|
            0 <= j < (word + rest).len() ==> {
                let low = #[trigger] text::lower(word + rest).skip(j);
                &&& !text::starts_with(low, ".exe"@)
                &&& !text::starts_with(low, ".bat"@)
                &&& !text::starts_with(low, ".cmd"@)
                &&& !text::starts_with(low, ".com"@)
                &&& !text::starts_with(low, ".dll"@)
            },
        !text::starts_with(text::lower(word + rest), "rundll32"@),
        !text::contains(text::lower(word + rest), "msiexec"@),
    ensures
        command_target(word + rest) == Some(word),
{
    reveal_strlit(".exe");
    reveal_strlit(".bat");
    reveal_strlit(".cmd");
    reveal_strlit(".com");
    reveal_strlit(".dll");
    reveal_strlit("rundll32");
    let s = word + rest;
    let n = lemma_bare_command(word, rest);
    let value = s.take(n);
    let low = text::lower(value);
    lemma_lower_beginning(s, n);
    if text::contains(low, "msiexec"@) {
        text::lemma_contains_in_beginning(text::lower(s), n, "msiexec"@);
    }
    if text::starts_with(low, "rundll32"@) {
        assert(low.subrange(0, "rundll32"@.len() as int) =~= text::lower(s).subrange(
            0,
            "rundll32"@.len() as int,
        ));
    }
    assert forall|j: int| 0 <= j < low.len() implies !at_extension(#[trigger] low.skip(j)) by {
        let whole = text::lower(s).skip(j);
        assert(!text::starts_with(whole, ".exe"@));
        if at_extension(low.skip(j)) {
            assert(low.skip(j).subrange(0, 4) =~= whole.subrange(0, 4));
        }
    }
    lemma_first_extension_is(low, low.len() as int);
    lemma_first_white_is(value, word.len() as int);
    assert(value.take(word.len() as int) =~= word);
    lemma_plain_path_is_kept(word);
}

/// The first white space is where one stands and none before it.
proof fn lemma_first_white_is(s: Seq<char>, k: int)
    requires
        0 <= k <= s.len(),
        k < s.len() ==> text::is_white(s[k]),
        forall|j: int| 0 <= j < k ==> !text::is_white(#[trigger] s[j]),
    ensures
        first_white(s) == k,
    decreases s.len(),
{
    if k > 0 {
        assert(!text::is_white(s[0]));
        let rest = s.skip(1);
        assert forall|j: int| 0 <= j < k - 1 implies !text::is_white(#[trigger] rest[j]) by {
            assert(rest[j] == s[j + 1]);
        }
        lemma_first_white_is(rest, k - 1);
    }
}

/// Commands that begin with `rundll32`, and those that hold `msiexec` anywhere,
/// name no program, in whatever case they are written.
pub proof fn law_service_commands_name_no_program(
    before: Seq<char>,
    word: Seq<char>,
    after: Seq<char>,
)
    requires
        ({
            let low = text::lower(word);
            low == "msiexec"@ || (low == "rundll32"@ && before.len() == 0)
        }),
        ({
            let first = (before + word)[0];
            !text::is_white(first) && first != '\0'
        }),
    ensures
        command_target(before + word + after) is None,
{
    reveal_strlit("msiexec");
    reveal_strlit("rundll32");
    let a = before + word;
    let s = a + after;
    let low_w = text::lower(word);
    assert(low_w.len() == word.len());
    assert(low_w[low_w.len() - 1] == text::lower_char(word[word.len() - 1]));
    assert(a.last() == word[word.len() - 1]);
    assert(is_solid(a.last()));
    let n = lemma_bare_command(a, after);
    let low = text::lower(s.take(n));
    let k = before.len() as int;
    assert(low.subrange(k, k + low_w.len()) =~= low_w);
    assert(text::occurs_at(low, low_w, k));
}

/// White space around a command makes no difference to its program.
pub proof fn law_space_around_a_command_is_ignored(
    before: Seq<char>,
    s: Seq<char>,
    after: Seq<char>,
)
    requires
        forall|i: int| 0 <= i < before.len() ==> text::is_white(#[trigger] before[i]),
        forall|i: int| 0 <= i < after.len() ==> text::is_white(#[trigger] after[i]),
    ensures
        command_target(before + s + after) == command_target(s),
{
    text::lemma_strip_padding(before, s, after, CharSet::Whitespace);
}

/// A quote at the start that is not closed names no program.
pub proof fn law_unclosed_quote_names_no_program(rest: Seq<char>)
    requires
        forall|i: int| 0 <= i < rest.len() ==> rest[i] != '"',
    ensures
        command_target("\""@ + rest) is None,
{
    reveal_strlit("\"");
    let s = "\""@ + rest;
    let n = lemma_bare_command("\""@, rest);
    let tail = s.take(n).skip(1);
    assert forall|j: int| 0 <= j < tail.len() implies tail[j] != '"' by {
        assert(tail[j] == rest[j]);
    }
    text::lemma_first_of_is(tail, '"', tail.len() as int);
}

/// Null characters around a command make no difference to its program.
pub proof fn law_nulls_around_a_command_are_ignored(
    before: Seq<char>,
    s: Seq<char>,
    after: Seq<char>,
)
    requires
        forall|i: int| 0 <= i < before.len() ==> #[trigger] before[i] == '\0',
        forall|i: int| 0 <= i < after.len() ==> #[trigger] after[i] == '\0',
        s.len() > 0,
        !text::is_white(s[0]) && s[0] != '\0',
        !text::is_white(s.last()) && s.last() != '\0',
    ensures
        command_target(before + s + after) == command_target(s),
{
    let none = Seq::<char>::empty();
    let all = before + s + after;
    assert(none + all + none =~= all);
    assert(none + s + none =~= s);
    assert(all[0] == if before.len() > 0 {
        before[0]
    } else {
        s[0]
    });
    assert(all.last() == if after.len() > 0 {
        after[after.len() - 1]
    } else {
        s.last()
    });
    text::law_stripping_takes_off_the_ends(none, all, none, CharSet::Whitespace);
    text::law_stripping_takes_off_the_ends(before, s, after, CharSet::Only('\0'));
    text::law_stripping_takes_off_the_ends(none, s, none, CharSet::Whitespace);
    text::law_stripping_takes_off_the_ends(none, s, none, CharSet::Only('\0'));
}

} // verus!
