//! The programs that are run: their command lines, and what is made of their
//! output.
use crate::item;
use crate::text;
use vstd::prelude::*;
use vstd::utf8;

verus! {

/// A program and its arguments.
#[derive(Debug)]
pub struct CommandLine {
    pub program: String,
    pub args: Vec<String>,
}

/// The contents of a [`CommandLine`].
pub struct LineView {
    pub program: Seq<char>,
    pub args: Seq<Seq<char>>,
}

impl View for CommandLine {
    type V = LineView;

    open spec fn view(&self) -> LineView {
        LineView { program: self.program@, args: text::views(self.args@) }
    }
}

/// A command line as a spec value.
pub open spec fn line(program: Seq<char>, args: Seq<Seq<char>>) -> LineView {
    LineView { program, args }
}

/// What a program left when it ended.
#[derive(Debug)]
pub struct CommandOutput {
    pub success: bool,
    pub stdout: Vec<u8>,
    pub stderr: Vec<u8>,
}

/// How the attempt to run a program ended: with its output, or with the reason
/// for which it did not start.
pub type Run = Result<CommandOutput, String>;

// ---------------------------------------------------------------------------
// Output as text

/// The text that bytes hold, with replacement characters for what is not UTF-8.
pub uninterp spec fn lossy(bytes: Seq<u8>) -> Seq<char>;

/// Reads bytes as text with `String::from_utf8_lossy`. The result depends on
/// the bytes alone, and valid UTF-8 comes out as the text that it encodes.
/// What stands in the place of invalid bytes is not stated.
#[verifier::external_body]
pub(crate) fn lossy_text(bytes: &[u8]) -> (r: String)
    ensures
        r@ == lossy(bytes@),
        utf8::valid_utf8(bytes@) ==> r@ == utf8::decode_utf8(bytes@),
{
    String::from_utf8_lossy(bytes).to_string()
}

/// What a failed command says of itself: its error output, or else its
/// ordinary output.
pub open spec fn complaint(err: Seq<char>, out: Seq<char>) -> Seq<char> {
    if text::trim(err).len() > 0 {
        text::trim(err)
    } else {
        text::trim(out)
    }
}

/// The message for a failed command.
pub open spec fn failure(command: Seq<char>, err: Seq<char>, out: Seq<char>) -> Seq<char> {
    if complaint(err, out).len() == 0 {
        command + " 执行失败"@
    } else {
        command + " 执行失败: "@ + complaint(err, out)
    }
}

/// Builds the message for a failed command from what it printed.
pub fn failure_message(command: &str, stderr: &str, stdout: &str) -> (r: String)
    ensures
        r@ == failure(command@, stderr@, stdout@),
{
    let err = text::chars_of(stderr);
    let out = text::chars_of(stdout);
    let trimmed_err = text::trimmed(err.as_slice());
    let message = if trimmed_err.len() > 0 {
        trimmed_err
    } else {
        text::trimmed(out.as_slice())
    };
    if message.len() == 0 {
        text::concat2(command, " 执行失败")
    } else {
        let shown = text::string_of(message);
        text::concat3(command, " 执行失败: ", shown.as_str())
    }
}

/// The message for a failed command with the given output.
pub open spec fn failure_of(command: Seq<char>, output: CommandOutput) -> Seq<char> {
    failure(command, lossy(output.stderr@), lossy(output.stdout@))
}

/// Builds the message for a failed command.
pub fn command_error(command: &str, output: &CommandOutput) -> (r: String)
    ensures
        r@ == failure_of(command@, *output),
{
    let stderr = lossy_text(output.stderr.as_slice());
    let stdout = lossy_text(output.stdout.as_slice());
    failure_message(command, stderr.as_str(), stdout.as_str())
}

/// The reason for which a run did not succeed, where it did not.
pub open spec fn run_failure(command: Seq<char>, run: Run) -> Option<Seq<char>> {
    match run {
        Err(error) => Some(error@),
        Ok(output) => if output.success {
            None
        } else {
            Some(failure_of(command, output))
        },
    }
}

/// Judges a run: it succeeded, or it failed for the reason that is returned.
pub fn run_simple_command(command: &str, run: &Run) -> (r: Result<(), String>)
    ensures
        match r {
            Ok(()) => run_failure(command@, *run) is None,
            Err(error) => run_failure(command@, *run) == Some(error@),
        },
{
    match run {
        Err(error) => Err(error.clone()),
        Ok(output) => if output.success {
            Ok(())
        } else {
            Err(command_error(command, output))
        },
    }
}

// ---------------------------------------------------------------------------
// Command lines

/// Flushes the cache of resolved names.
pub open spec fn flush_dns_line() -> LineView {
    line("ipconfig"@, seq!["/flushdns"@])
}

/// Builds the command that flushes the cache of resolved names.
pub fn flush_dns_command() -> (r: CommandLine)
    ensures
        r@ == flush_dns_line(),
{
    let args = vec!["/flushdns".to_owned()];
    assert(text::views(args@) =~= flush_dns_line().args);
    CommandLine { program: "ipconfig".to_owned(), args }
}

/// Empties the clipboard.
pub open spec fn clear_clipboard_line() -> LineView {
    line("cmd"@, seq!["/C"@, "type nul | clip"@])
}

/// Builds the command that empties the clipboard.
pub fn clear_clipboard_command() -> (r: CommandLine)
    ensures
        r@ == clear_clipboard_line(),
{
    let args = vec!["/C".to_owned(), "type nul | clip".to_owned()];
    assert(text::views(args@) =~= clear_clipboard_line().args);
    CommandLine { program: "cmd".to_owned(), args }
}

/// Runs a script in the shell.
pub open spec fn shell_line(script: Seq<char>) -> LineView {
    line(
        "powershell"@,
        seq!["-NoProfile"@, "-ExecutionPolicy"@, "Bypass"@, "-Command"@, script],
    )
}

/// Builds the command that runs a script in the shell.
pub fn shell_command(script: String) -> (r: CommandLine)
    ensures
        r@ == shell_line(script@),
{
    let ghost sv = script@;
    let args = vec![
        "-NoProfile".to_owned(),
        "-ExecutionPolicy".to_owned(),
        "Bypass".to_owned(),
        "-Command".to_owned(),
        script,
    ];
    assert(text::views(args@) =~= shell_line(sv).args);
    CommandLine { program: "powershell".to_owned(), args }
}

/// Empties the recycle bin.
pub open spec fn clear_recycle_bin_line() -> LineView {
    shell_line("Clear-RecycleBin -Force -ErrorAction SilentlyContinue"@)
}

/// Builds the command that empties the recycle bin.
pub fn clear_recycle_bin_command() -> (r: CommandLine)
    ensures
        r@ == clear_recycle_bin_line(),
{
    shell_command("Clear-RecycleBin -Force -ErrorAction SilentlyContinue".to_owned())
}

/// What follows the key when something is deleted from the registry. Where
/// neither the key nor a value is to go, nothing follows.
pub open spec fn delete_options(value_name: Option<Seq<char>>, delete_key: bool) -> Seq<Seq<char>> {
    if delete_key {
        seq!["/f"@]
    } else {
        match value_name {
            Some(v) => if v.len() == 0 {
                seq!["/ve"@, "/f"@]
            } else {
                seq!["/v"@, v, "/f"@]
            },
            None => Seq::empty(),
        }
    }
}

/// Deletes a key, or a value of it, from the registry.
pub open spec fn registry_delete_line(
    key_path: Seq<char>,
    value_name: Option<Seq<char>>,
    delete_key: bool,
) -> LineView {
    line("reg"@, seq!["delete"@, key_path] + delete_options(value_name, delete_key))
}

/// Builds the command that deletes a key, or a value of it, from the registry.
pub fn registry_delete_command(key_path: &str, value_name: &Option<String>, delete_key: bool) -> (r:
    CommandLine)
    ensures
        r@ == registry_delete_line(key_path@, item::opt_text(*value_name), delete_key),
{
    let mut args = vec!["delete".to_owned(), key_path.to_owned()];
    if delete_key {
        args.push("/f".to_owned());
    } else {
        match value_name {
            Some(value) => {
                if value.as_str().is_empty() {
                    args.push("/ve".to_owned());
                    args.push("/f".to_owned());
                } else {
                    args.push("/v".to_owned());
                    args.push(value.clone());
                    args.push("/f".to_owned());
                }
            },
            None => {},
        }
    }
    assert(text::views(args@) =~= registry_delete_line(
        key_path@,
        item::opt_text(*value_name),
        delete_key,
    ).args);
    CommandLine { program: "reg".to_owned(), args }
}

/// Exports a key of the registry to a file.
pub open spec fn registry_export_line(key: Seq<char>, file: Seq<char>) -> LineView {
    line("reg"@, seq!["export"@, key, file, "/y"@])
}

/// Builds the command that exports a key of the registry to a file.
pub fn registry_export_command(key: &str, file: &str) -> (r: CommandLine)
    ensures
        r@ == registry_export_line(key@, file@),
{
    let args = vec!["export".to_owned(), key.to_owned(), file.to_owned(), "/y".to_owned()];
    assert(text::views(args@) =~= registry_export_line(key@, file@).args);
    CommandLine { program: "reg".to_owned(), args }
}

/// Imports a file into the registry.
pub open spec fn registry_import_line(file: Seq<char>) -> LineView {
    line("reg"@, seq!["import"@, file])
}

/// Builds the command that imports a file into the registry.
pub fn registry_import_command(file: &str) -> (r: CommandLine)
    ensures
        r@ == registry_import_line(file@),
{
    let args = vec!["import".to_owned(), file.to_owned()];
    assert(text::views(args@) =~= registry_import_line(file@).args);
    CommandLine { program: "reg".to_owned(), args }
}

/// Lists the processes.
pub open spec fn process_list_line() -> LineView {
    line("tasklist"@, seq!["/FO"@, "CSV"@, "/NH"@])
}

/// Builds the command that lists the processes.
pub fn process_list_command() -> (r: CommandLine)
    ensures
        r@ == process_list_line(),
{
    let args = vec!["/FO".to_owned(), "CSV".to_owned(), "/NH".to_owned()];
    assert(text::views(args@) =~= process_list_line().args);
    CommandLine { program: "tasklist".to_owned(), args }
}

/// Ends the processes of a program.
pub open spec fn kill_line(process_name: Seq<char>) -> LineView {
    line("taskkill"@, seq!["/F"@, "/T"@, "/IM"@, process_name])
}

/// Builds the command that ends the processes of a program.
pub fn kill_process_command(process_name: &str) -> (r: CommandLine)
    ensures
        r@ == kill_line(process_name@),
{
    let args = vec![
        "/F".to_owned(),
        "/T".to_owned(),
        "/IM".to_owned(),
        process_name.to_owned(),
    ];
    assert(text::views(args@) =~= kill_line(process_name@).args);
    CommandLine { program: "taskkill".to_owned(), args }
}

// ---------------------------------------------------------------------------
// Starting again with more rights

/// The text with every single quote doubled, as a quoted text of the shell
/// holds it.
pub open spec fn doubled(s: Seq<char>) -> Seq<char>
    decreases s.len(),
{
    if s.len() == 0 {
        Seq::empty()
    } else if s.last() == '\'' {
        doubled(s.drop_last()) + "''"@
    } else {
        doubled(s.drop_last()).push(s.last())
    }
}

/// Doubles every single quote.
pub fn double_quotes(s: &str) -> (r: String)
    ensures
        r@ == doubled(s@),
{
    let cs = text::chars_of(s);
    let mut r = String::new();
    assert(s@.take(0) =~= Seq::empty());
    for i in 0..cs.len()
        invariant
            cs@ == s@,
            r@ == doubled(s@.take(i as int)),
    {
        assert(s@.take(i + 1).drop_last() =~= s@.take(i as int));
        let c = cs[i];
        if c == '\'' {
            r.append("''");
        } else {
            r.push(c);
        }
    }
    assert(s@.take(s@.len() as int) =~= s@);
    r
}

/// How the shell reads a quoted text after its opening quote: two quotes next
/// to each other stand for one, and a quote alone ends the text. Gives the
/// text and what follows the closing quote.
pub open spec fn read_quoted(s: Seq<char>) -> (Seq<char>, Seq<char>)
    decreases s.len(),
{
    if s.len() == 0 {
        (Seq::empty(), Seq::empty())
    } else if s[0] != '\'' {
        let (inner, rest) = read_quoted(s.skip(1));
        (seq![s[0]] + inner, rest)
    } else if s.len() >= 2 && s[1] == '\'' {
        let (inner, rest) = read_quoted(s.skip(2));
        (seq!['\''] + inner, rest)
    } else {
        (Seq::empty(), s.skip(1))
    }
}

/// Doubling from the front.
proof fn lemma_doubled_front(c: char, s: Seq<char>)
    ensures
        doubled(seq![c] + s) == doubled(seq![c]) + doubled(s),
    decreases s.len(),
{
    let all = seq![c] + s;
    if s.len() == 0 {
        assert(all =~= seq![c]);
        assert(doubled(seq![c]) + doubled(s) =~= doubled(seq![c]));
    } else {
        assert(all.drop_last() =~= seq![c] + s.drop_last());
        lemma_doubled_front(c, s.drop_last());
        assert(doubled(all) =~= doubled(seq![c]) + doubled(s));
    }
}

/// A text with its quotes doubled is read back as it was, and none of it
/// stands outside the quotes.
pub proof fn law_quoted_text_is_read_back(s: Seq<char>, rest: Seq<char>)
    requires
        rest.len() > 0 ==> rest[0] != '\'',
    ensures
        read_quoted(doubled(s) + "'"@ + rest) == (s, rest),
    decreases s.len(),
{
    reveal_strlit("'");
    reveal_strlit("''");
    let all = doubled(s) + "'"@ + rest;
    if s.len() == 0 {
        assert(all.skip(1) =~= rest);
        assert(read_quoted(all).0 =~= s);
    } else {
        let c = s[0];
        let tail = s.skip(1);
        assert(seq![c] + tail =~= s);
        lemma_doubled_front(c, tail);
        law_quoted_text_is_read_back(tail, rest);
        let after = doubled(tail) + "'"@ + rest;
        let one = seq![c];
        assert(one.drop_last() =~= Seq::empty());
        assert(doubled(Seq::<char>::empty()) =~= Seq::empty());
        if c == '\'' {
            assert(doubled(one) =~= "''"@);
            assert(all.skip(2) =~= after);
        } else {
            assert(doubled(one) =~= one);
            assert(all.skip(1) =~= after);
        }
        assert(read_quoted(all).0 =~= s);
    }
}

/// Starts a program again with the rights of an administrator.
pub open spec fn relaunch_line(exe: Seq<char>) -> LineView {
    shell_line("Start-Process -FilePath '"@ + doubled(exe) + "' -Verb RunAs"@)
}

/// Builds the command that starts a program again with the rights of an
/// administrator.
pub fn relaunch_command(exe: &str) -> (r: CommandLine)
    ensures
        r@ == relaunch_line(exe@),
{
    let escaped = double_quotes(exe);
    shell_command(text::concat3("Start-Process -FilePath '", escaped.as_str(), "' -Verb RunAs"))
}

/// The script that starts a program again names the program whole, whatever
/// quotes its path holds, and asks for more rights after it.
pub proof fn law_relaunch_names_the_program(exe: Seq<char>)
    ensures
        relaunch_line(exe).args[4].take("Start-Process -FilePath '"@.len() as int)
            == "Start-Process -FilePath '"@,
        read_quoted(
            relaunch_line(exe).args[4].skip("Start-Process -FilePath '"@.len() as int),
        ) == (exe, " -Verb RunAs"@),
{
    let start = "Start-Process -FilePath '"@;
    let script = relaunch_line(exe).args[4];
    reveal_strlit("'");
    reveal_strlit(" -Verb RunAs");
    reveal_strlit("' -Verb RunAs");
    assert("' -Verb RunAs"@ =~= "'"@ + " -Verb RunAs"@);
    assert(script.take(start.len() as int) =~= start);
    assert(script.skip(start.len() as int) =~= doubled(exe) + "'"@ + " -Verb RunAs"@);
    law_quoted_text_is_read_back(exe, " -Verb RunAs"@);
}

/// Judges the run of [`relaunch_command`].
pub fn relaunch_outcome(run: &Run) -> (r: Result<(), String>)
    ensures
        match r {
            Ok(()) => run_failure("Start-Process -Verb RunAs"@, *run) is None,
            Err(error) => run_failure("Start-Process -Verb RunAs"@, *run) == Some(error@),
        },
{
    run_simple_command("Start-Process -Verb RunAs", run)
}

/// A failed command is reported with what it printed as errors, without white
/// space around it; where that is blank, with what it printed otherwise; and
/// where that is blank too, without more.
pub proof fn law_failures_show_what_was_printed(
    command: Seq<char>,
    space: Seq<char>,
    shown: Seq<char>,
    out: Seq<char>,
)
    requires
        forall|i: int| 0 <= i < space.len() ==> text::is_white(#[trigger] space[i]),
        shown.len() > 0,
        !text::is_white(shown[0]) && !text::is_white(shown.last()),
    ensures
        failure(command, space + shown + space, out) == command + " 执行失败: "@ + shown,
        failure(command, space, space + shown + space) == command + " 执行失败: "@ + shown,
        failure(command, space, space) == command + " 执行失败"@,
{
    let none = Seq::<char>::empty();
    text::law_stripping_takes_off_the_ends(space, shown, space, text::CharSet::Whitespace);
    text::law_stripping_takes_off_the_ends(space, none, none, text::CharSet::Whitespace);
    assert(space + none + none =~= space);
}

/// A run is a failure exactly where the program did not start or did not
/// succeed; that it printed errors alone is none.
pub proof fn law_runs_are_judged_by_their_success(command: Seq<char>, run: Run)
    ensures
        run matches Err(message) ==> run_failure(command, run) == Some(message@),
        run matches Ok(output) ==> output.success ==> run_failure(command, run) is None,
        run matches Ok(output) ==> !output.success ==> run_failure(command, run) == Some(
            failure(command, lossy(output.stderr@), lossy(output.stdout@)),
        ),
{
}

/// Deleting from the registry always names the key. It takes the whole key
/// exactly where that is asked for, and else the named value, or the unnamed one
/// where the name is empty; and it never asks back where there is something to
/// delete.
pub proof fn law_registry_deletions_name_their_target(
    key_path: Seq<char>,
    value_name: Option<Seq<char>>,
    delete_key: bool,
)
    ensures
        ({
            let line = registry_delete_line(key_path, value_name, delete_key);
            &&& line.program == "reg"@
            &&& line.args[0] == "delete"@ && line.args[1] == key_path
            &&& delete_key ==> line.args.len() == 3
            &&& !delete_key ==> (value_name matches Some(v) ==> v.len() > 0 ==> line.args.len() == 5
                && line.args[2] == "/v"@ && line.args[3] == v)
            &&& !delete_key ==> (value_name matches Some(v) ==> v.len() == 0 ==> line.args.len()
                == 4 && line.args[2] == "/ve"@)
            &&& delete_key || value_name is Some ==> line.args.last() == "/f"@
        }),
{
}

/// Each command names the program, and what it acts on comes last or before the
/// switches.
pub proof fn law_commands_act_on_what_they_name(key: Seq<char>, file: Seq<char>, program: Seq<char>)
    ensures
        registry_export_line(key, file).program == "reg"@ && registry_export_line(key, file).args
            == seq!["export"@, key, file, "/y"@],
        registry_import_line(file).program == "reg"@ && registry_import_line(file).args == seq![
            "import"@,
            file,
        ],
        kill_line(program).program == "taskkill"@ && kill_line(program).args.last() == program
            && kill_line(program).args.drop_last() == seq!["/F"@, "/T"@, "/IM"@],
        process_list_line().program == "tasklist"@ && process_list_line().args == seq![
            "/FO"@,
            "CSV"@,
            "/NH"@,
        ],
{
    assert(kill_line(program).args.drop_last() =~= seq!["/F"@, "/T"@, "/IM"@]);
}

/// Only quotes are doubled, each where it stands.
pub proof fn law_only_quotes_are_doubled(s: Seq<char>, c: char)
    ensures
        c == '\'' ==> doubled(s.push(c)) == doubled(s).push('\'').push('\''),
        c != '\'' ==> doubled(s.push(c)) == doubled(s).push(c),
        doubled(Seq::empty()).len() == 0,
{
    reveal_strlit("''");
    assert(s.push(c).drop_last() =~= s);
    if c == '\'' {
        assert(doubled(s.push(c)) =~= doubled(s).push('\'').push('\''));
    } else {
        assert(doubled(s.push(c)) =~= doubled(s).push(c));
    }
}

} // verus!
