//! Clearing a browser database: the statements that are run, and which of
//! their failures count.
use crate::item;
use crate::item::BrowserDbKind;
use crate::text;
use crate::text::CharSet;
use vstd::prelude::*;

verus! {

// ---------------------------------------------------------------------------
// Statements

/// A statement with the values of its parameters. Where it is optional, a
/// missing table or column is no failure.
#[derive(Debug)]
pub struct Statement {
    pub sql: String,
    pub params: Vec<String>,
    pub optional: bool,
}

/// The contents of a [`Statement`].
pub struct StatementView {
    pub sql: Seq<char>,
    pub params: Seq<Seq<char>>,
    pub optional: bool,
}

impl View for Statement {
    type V = StatementView;

    open spec fn view(&self) -> StatementView {
        StatementView {
            sql: self.sql@,
            params: text::views(self.params@),
            optional: self.optional,
        }
    }
}

/// An optional statement without parameters.
pub open spec fn plain(sql: Seq<char>) -> StatementView {
    StatementView { sql, params: Seq::empty(), optional: true }
}

/// The condition that a cookie's host is one domain of the whitelist or below
/// it.
pub open spec fn host_condition(column: Seq<char>) -> Seq<char> {
    "LOWER("@ + column + ") = ? OR LOWER("@ + column + ") LIKE ?"@
}

/// The condition that a cookie's host is in the whitelist.
pub open spec fn host_conditions(column: Seq<char>, count: nat) -> Seq<char> {
    text::join(Seq::new(count, |i: int| host_condition(column)), " OR "@)
}

/// The domain below which a whitelist entry protects cookies: leading dots and
/// capitals of ASCII make no difference.
pub open spec fn bare_domain(domain: Seq<char>) -> Seq<char> {
    text::strip_start(text::lower(domain), CharSet::Only('.'))
}

/// The host that a whitelist entry names: the domain without leading dots. An
/// entry of dots only names itself.
pub open spec fn named_host(domain: Seq<char>) -> Seq<char> {
    if bare_domain(domain).len() == 0 {
        text::lower(domain)
    } else {
        bare_domain(domain)
    }
}

/// The two parameters that stand for one domain of the whitelist: the domain
/// itself, and the pattern of everything below it.
pub open spec fn domain_params(domain: Seq<char>) -> Seq<Seq<char>> {
    seq![named_host(domain), "%."@ + bare_domain(domain)]
}

/// The parameters that stand for the whitelist.
pub open spec fn whitelist_params(whitelist: Seq<Seq<char>>) -> Seq<Seq<char>>
    decreases whitelist.len(),
{
    if whitelist.len() == 0 {
        Seq::empty()
    } else {
        whitelist_params(whitelist.drop_last()) + domain_params(whitelist.last())
    }
}

/// The statement that deletes cookies: all of them, or those that the whitelist
/// does not protect.
pub open spec fn cookie_delete(
    table: Seq<char>,
    column: Seq<char>,
    whitelist: Seq<Seq<char>>,
) -> StatementView {
    if whitelist.len() == 0 {
        plain("DELETE FROM "@ + table)
    } else {
        StatementView {
            sql: "DELETE FROM "@ + table + " WHERE NOT ("@ + host_conditions(
                column,
                whitelist.len(),
            ) + ")"@,
            params: whitelist_params(whitelist),
            optional: false,
        }
    }
}

/// The statements that clear a database, in order.
pub open spec fn statements_of(kind: BrowserDbKind, whitelist: Seq<Seq<char>>) -> Seq<
    StatementView,
> {
    match kind {
        BrowserDbKind::ChromiumCookies => seq![
            cookie_delete("cookies"@, "host_key"@, whitelist),
        ],
        BrowserDbKind::FirefoxCookies => seq![cookie_delete("moz_cookies"@, "host"@, whitelist)],
        BrowserDbKind::ChromiumHistory => seq![
            plain("DELETE FROM keyword_search_terms"@),
            plain("DELETE FROM visit_source"@),
            plain("DELETE FROM visits"@),
            plain("DELETE FROM urls"@),
        ],
        BrowserDbKind::ChromiumDownloads => seq![
            plain("DELETE FROM downloads_url_chains"@),
            plain("DELETE FROM downloads_slices"@),
            plain("DELETE FROM downloads"@),
        ],
        BrowserDbKind::FirefoxHistory => seq![
            plain("DELETE FROM moz_historyvisits"@),
            plain("UPDATE moz_places SET visit_count = 0, last_visit_date = NULL"@),
        ],
        BrowserDbKind::FirefoxDownloads => seq![
            plain(
                "DELETE FROM moz_annos WHERE anno_attribute_id IN (SELECT id FROM moz_anno_attributes WHERE name LIKE '%downloads%')"@,
            ),
        ],
    }
}

/// Builds an optional statement without parameters.
fn plain_statement(sql: &str) -> (r: Statement)
    ensures
        r@ == plain(sql@),
{
    let params: Vec<String> = Vec::new();
    assert(text::views(params@) =~= Seq::empty());
    Statement { sql: sql.to_owned(), params, optional: true }
}

/// Builds the condition that a cookie's host is in a whitelist of `count`
/// domains.
fn conditions_text(column: &str, count: usize) -> (r: String)
    ensures
        r@ == host_conditions(column@, count as nat),
{
    let mut parts: Vec<String> = Vec::new();
    for i in 0..count
        invariant
            text::views(parts@) == Seq::new(i as nat, |k: int| host_condition(column@)),
    {
        let ghost before = parts@;
        let one = text::concat5("LOWER(", column, ") = ? OR LOWER(", column, ") LIKE ?");
        parts.push(one);
        proof {
            text::lemma_views_push(before, one);
            assert(text::views(parts@) =~= Seq::new(
                (i + 1) as nat,
                |k: int| host_condition(column@),
            ));
        }
    }
    text::join_strings(&parts, " OR ")
}

/// Builds the parameters that stand for the whitelist.
fn params_texts(whitelist: &Vec<String>) -> (r: Vec<String>)
    ensures
        text::views(r@) == whitelist_params(text::views(whitelist@)),
{
    let ghost all = text::views(whitelist@);
    let mut r: Vec<String> = Vec::new();
    assert(all.take(0) =~= Seq::empty());
    assert(text::views(r@) =~= Seq::empty());
    for i in 0..whitelist.len()
        invariant
            all == text::views(whitelist@),
            text::views(r@) == whitelist_params(all.take(i as int)),
    {
        let ghost before = r@;
        let domain = text::lower_string(whitelist[i].as_str());
        let cs = text::chars_of(domain.as_str());
        let stripped = text::stripped_start(cs.as_slice(), CharSet::Only('.'));
        let bare = text::string_of(stripped);
        let pattern = text::concat2("%.", bare.as_str());
        let host = if stripped.len() == 0 {
            domain
        } else {
            bare
        };
        r.push(host);
        let ghost middle = r@;
        r.push(pattern);
        proof {
            assert(all.take(i + 1).drop_last() =~= all.take(i as int));
            assert(all.take(i + 1).last() == whitelist@[i as int]@);
            text::lemma_views_push(before, host);
            text::lemma_views_push(middle, pattern);
            assert(text::views(r@) =~= text::views(before) + domain_params(
                whitelist@[i as int]@,
            ));
        }
    }
    assert(all.take(whitelist@.len() as int) =~= all);
    r
}

/// Builds the statement that deletes cookies.
pub fn cookie_delete_statement(table: &str, host_column: &str, whitelist: &Vec<String>) -> (r:
    Statement)
    ensures
        r@ == cookie_delete(table@, host_column@, text::views(whitelist@)),
{
    if whitelist.len() == 0 {
        let sql = text::concat2("DELETE FROM ", table);
        return plain_statement(sql.as_str());
    }
    let conditions = conditions_text(host_column, whitelist.len());
    let sql = text::concat5("DELETE FROM ", table, " WHERE NOT (", conditions.as_str(), ")");
    Statement { sql, params: params_texts(whitelist), optional: false }
}

/// Builds the statements that clear a database, in order.
pub fn database_statements(kind: BrowserDbKind, cookie_whitelist: &Vec<String>) -> (r: Vec<
    Statement,
>)
    ensures
        text::views(r@) == statements_of(kind, text::views(cookie_whitelist@)),
{
    let r = match kind {
        BrowserDbKind::ChromiumCookies => vec![
            cookie_delete_statement("cookies", "host_key", cookie_whitelist),
        ],
        BrowserDbKind::FirefoxCookies => vec![
            cookie_delete_statement("moz_cookies", "host", cookie_whitelist),
        ],
        BrowserDbKind::ChromiumHistory => vec![
            plain_statement("DELETE FROM keyword_search_terms"),
            plain_statement("DELETE FROM visit_source"),
            plain_statement("DELETE FROM visits"),
            plain_statement("DELETE FROM urls"),
        ],
        BrowserDbKind::ChromiumDownloads => vec![
            plain_statement("DELETE FROM downloads_url_chains"),
            plain_statement("DELETE FROM downloads_slices"),
            plain_statement("DELETE FROM downloads"),
        ],
        BrowserDbKind::FirefoxHistory => vec![
            plain_statement("DELETE FROM moz_historyvisits"),
            plain_statement("UPDATE moz_places SET visit_count = 0, last_visit_date = NULL"),
        ],
        BrowserDbKind::FirefoxDownloads => vec![
            plain_statement(
                "DELETE FROM moz_annos WHERE anno_attribute_id IN (SELECT id FROM moz_anno_attributes WHERE name LIKE '%downloads%')",
            ),
        ],
    };
    assert(text::views(r@) =~= statements_of(kind, text::views(cookie_whitelist@)));
    r
}

// ---------------------------------------------------------------------------
// Failures

/// Whether the message says that a table or a column is missing.
pub open spec fn is_missing(message: Seq<char>) -> bool {
    text::contains(message, "no such table"@) || text::contains(message, "no such column"@)
}

/// How running a statement ended: well, or with a message.
pub type Ran = Result<(), String>;

/// The failure that running a statement is, if it is one.
pub open spec fn statement_failure(optional: bool, ran: Ran) -> Option<Seq<char>> {
    match ran {
        Ok(()) => None,
        Err(message) => if optional && is_missing(message@) {
            None
        } else {
            Some(message@)
        },
    }
}

/// Judges how an optional statement ended: that a table or a column is missing
/// counts as success.
pub fn judge_optional(ran: Ran) -> (r: Ran)
    ensures
        match r {
            Ok(()) => statement_failure(true, ran) is None,
            Err(message) => statement_failure(true, ran) == Some(message@),
        },
{
    match ran {
        Ok(()) => Ok(()),
        Err(message) => {
            let cs = text::chars_of(message.as_str());
            if text::has_text(cs.as_slice(), "no such table") || text::has_text(
                cs.as_slice(),
                "no such column",
            ) {
                Ok(())
            } else {
                Err(message)
            }
        },
    }
}

// ---------------------------------------------------------------------------
// The run

/// The clearing of one database: its statements, how many of them have been
/// run, and the failure that ended it.
#[derive(Debug)]
pub struct DatabaseRun {
    statements: Vec<Statement>,
    done: usize,
    failed: Option<String>,
}

/// The contents of a [`DatabaseRun`].
pub struct RunView {
    pub statements: Seq<StatementView>,
    pub done: int,
    pub failed: Option<Seq<char>>,
}

impl View for DatabaseRun {
    type V = RunView;

    closed spec fn view(&self) -> RunView {
        RunView {
            statements: text::views(self.statements@),
            done: self.done as int,
            failed: item::opt_text(self.failed),
        }
    }
}

/// Whether a statement is left to run.
pub open spec fn goes_on(v: RunView) -> bool {
    v.failed is None && v.done < v.statements.len()
}

/// Whether every statement has been run and none has failed.
pub open spec fn is_cleared(v: RunView) -> bool {
    !goes_on(v) && v.failed is None
}

/// The state after the next statement has ended.
pub open spec fn after_statement(v: RunView, ran: Ran) -> RunView {
    match statement_failure(v.statements[v.done].optional, ran) {
        None => RunView { done: v.done + 1, ..v },
        Some(message) => RunView { failed: Some(message), ..v },
    }
}

impl DatabaseRun {
    /// No more statements have been run than there are.
    #[verifier::type_invariant]
    spec fn in_bounds(self) -> bool {
        self.done <= self.statements@.len()
    }

    /// Begins to clear a database.
    pub fn new(kind: BrowserDbKind, cookie_whitelist: &Vec<String>) -> (r: DatabaseRun)
        ensures
            r@ == run_start(kind, text::views(cookie_whitelist@)),
    {
        DatabaseRun {
            statements: database_statements(kind, cookie_whitelist),
            done: 0,
            failed: None,
        }
    }

    /// The statement to run next; none where all have been run or one has
    /// failed.
    pub fn next_statement(&self) -> (r: Option<&Statement>)
        ensures
            r is Some == goes_on(self@),
            r matches Some(s) ==> s@ == self@.statements[self@.done],
    {
        if self.failed.is_none() && self.done < self.statements.len() {
            Some(&self.statements[self.done])
        } else {
            None
        }
    }

    /// Takes note of how the next statement ended.
    pub fn record(&mut self, ran: Ran)
        requires
            goes_on(old(self)@),
        ensures
            final(self)@ == after_statement(old(self)@, ran),
    {
        proof {
            use_type_invariant(&*self);
        }
        let count = self.statements.len();
        assert(self.done < count);
        let optional = self.statements[self.done].optional;
        let judged = if optional {
            judge_optional(ran)
        } else {
            ran
        };
        match judged {
            Ok(()) => {
                self.done = self.done + 1;
            },
            Err(message) => {
                self.failed = Some(message);
            },
        }
    }

    /// Whether every statement has been run and none has failed.
    pub fn succeeded(&self) -> (r: bool)
        ensures
            r == is_cleared(self@),
    {
        self.failed.is_none() && self.done >= self.statements.len()
    }

    /// What clearing the database came to, once no statement is left to run:
    /// the size that it had before, or the failure.
    pub fn outcome(&self, size_before: u64) -> (r: Result<u64, String>)
        requires
            !goes_on(self@),
        ensures
            match r {
                Ok(freed) => self@.failed is None && freed == size_before,
                Err(message) => self@.failed == Some(message@),
            },
    {
        match &self.failed {
            None => Ok(size_before),
            Some(message) => Err(message.clone()),
        }
    }
}

/// What is run after the last statement. It is run only where no statement
/// failed; its own failure is ignored.
pub fn closing_statements() -> (r: &'static str)
    ensures
        r@ == "PRAGMA wal_checkpoint(TRUNCATE); VACUUM;"@,
{
    "PRAGMA wal_checkpoint(TRUNCATE); VACUUM;"
}

/// The state at the beginning.
pub open spec fn run_start(kind: BrowserDbKind, whitelist: Seq<Seq<char>>) -> RunView {
    RunView { statements: statements_of(kind, whitelist), done: 0, failed: None }
}

/// The state after statements that ended as given.
pub open spec fn after_statements(v: RunView, rans: Seq<Ran>) -> RunView
    decreases rans.len(),
{
    if rans.len() == 0 {
        v
    } else {
        after_statement(after_statements(v, rans.drop_last()), rans.last())
    }
}

/// Whether the statement at `i` failed when it ended as given.
pub open spec fn failed_at(statements: Seq<StatementView>, rans: Seq<Ran>, i: int) -> bool {
    statement_failure(statements[i].optional, rans[i]) is Some
}

/// Whether the statements can have ended as given, one after the other: there
/// are so many, and none but the last failed.
pub open spec fn is_course(statements: Seq<StatementView>, rans: Seq<Ran>) -> bool {
    &&& rans.len() <= statements.len()
    &&& forall|i: int| 0 <= i < rans.len() - 1 ==> !#[trigger] failed_at(statements, rans, i)
}

/// The statements of a run are run in order up to the first that fails. The run
/// ends in success exactly where every statement was run and none failed, and
/// else, when it ends, with the failure of the last one run.
pub proof fn law_database_run_is_complete(
    kind: BrowserDbKind,
    whitelist: Seq<Seq<char>>,
    rans: Seq<Ran>,
)
    requires
        is_course(statements_of(kind, whitelist), rans),
    ensures
        ({
            let all = statements_of(kind, whitelist);
            let v = after_statements(run_start(kind, whitelist), rans);
            let n = rans.len() as int;
            &&& v.statements == all
            &&& n > 0 && failed_at(all, rans, n - 1) ==> {
                &&& !goes_on(v)
                &&& v.done == n - 1
                &&& v.failed == statement_failure(all[n - 1].optional, rans[n - 1])
            }
            &&& !(n > 0 && failed_at(all, rans, n - 1)) ==> {
                &&& v.failed is None
                &&& v.done == n
                &&& goes_on(v) <==> n < all.len()
            }
            &&& is_cleared(v) <==> n == all.len() && (forall|i: int|
                0 <= i < n ==> !#[trigger] failed_at(all, rans, i))
        }),
    decreases rans.len(),
{
    let all = statements_of(kind, whitelist);
    let n = rans.len() as int;
    if n > 0 {
        let shorter = rans.drop_last();
        assert forall|i: int| 0 <= i < shorter.len() implies !#[trigger] failed_at(
            all,
            shorter,
            i,
        ) by {
            assert(!failed_at(all, rans, i));
        }
        law_database_run_is_complete(kind, whitelist, shorter);
        let before = after_statements(run_start(kind, whitelist), shorter);
        if n > 1 {
            assert(!failed_at(all, shorter, n - 2));
        }
        assert(before.done == n - 1);
        assert(failed_at(all, rans, n - 1) == (statement_failure(
            all[n - 1].optional,
            rans[n - 1],
        ) is Some));
    } else {
        assert(all.len() > 0);
    }
}

/// The files that the database engine leaves beside a database.
pub open spec fn sidecars(db_path: Seq<char>) -> Seq<Seq<char>> {
    seq![db_path + "-wal"@, db_path + "-shm"@, db_path + "-journal"@]
}

/// Lists the files that are removed together with what a database held.
pub fn sqlite_sidecars(db_path: &str) -> (r: Vec<String>)
    ensures
        text::views(r@) == sidecars(db_path@),
{
    let r = vec![
        text::concat2(db_path, "-wal"),
        text::concat2(db_path, "-shm"),
        text::concat2(db_path, "-journal"),
    ];
    assert(text::views(r@) =~= sidecars(db_path@));
    r
}

// ---------------------------------------------------------------------------
// What the whitelist protects

/// Whether the database takes a text to match a `LIKE` pattern: a percent sign
/// stands for any characters, an underscore for one, and ASCII letters match
/// without regard to case.
pub open spec fn like(pattern: Seq<char>, s: Seq<char>) -> bool
    decreases pattern.len(), s.len(),
{
    if pattern.len() == 0 {
        s.len() == 0
    } else if pattern[0] == '%' {
        like(pattern.skip(1), s) || (s.len() > 0 && like(pattern, s.skip(1)))
    } else {
        s.len() > 0 && (pattern[0] == '_' || text::lower_char(pattern[0]) == text::lower_char(s[0]))
            && like(pattern.skip(1), s.skip(1))
    }
}

/// Whether the parameters at `i` and after it keep a cookie of the host.
pub open spec fn pair_keeps(params: Seq<Seq<char>>, i: int, host: Seq<char>) -> bool {
    params[i] == text::lower(host) || like(params[i + 1], text::lower(host))
}

/// Whether [`host_conditions`] holds of a host, with the given parameters.
pub open spec fn keeps(params: Seq<Seq<char>>, host: Seq<char>) -> bool {
    exists|k: int| 0 <= 2 * k < params.len() - 1 && #[trigger] pair_keeps(params, 2 * k, host)
}

/// Whether the host is the domain that an entry names, or below it.
pub open spec fn in_domain(domain: Seq<char>, host: Seq<char>) -> bool {
    let h = text::lower(host);
    let below = "."@ + bare_domain(domain);
    ||| h == named_host(domain)
    ||| h.len() >= below.len() && h.skip(h.len() - below.len()) == below
}

/// A text matches itself as a pattern.
proof fn lemma_like_self(s: Seq<char>)
    ensures
        like(s, s),
    decreases s.len(),
{
    if s.len() > 0 {
        lemma_like_self(s.skip(1));
        if s[0] == '%' {
            assert(like(s, s.skip(1)));
        }
    }
}

/// A percent sign takes in anything that stands before a match.
proof fn lemma_like_suffix(pattern: Seq<char>, s: Seq<char>, k: int)
    requires
        0 <= k <= s.len(),
        like(pattern, s.skip(k)),
    ensures
        like(seq!['%'] + pattern, s),
    decreases k,
{
    let p = seq!['%'] + pattern;
    assert(p.skip(1) =~= pattern);
    if k == 0 {
        assert(s.skip(0) =~= s);
    } else {
        assert(s.skip(1).skip(k - 1) =~= s.skip(k));
        lemma_like_suffix(pattern, s.skip(1), k - 1);
    }
}

/// Whether a pattern has neither a percent sign nor an underscore.
pub open spec fn is_literal(s: Seq<char>) -> bool {
    forall|i: int| 0 <= i < s.len() ==> #[trigger] s[i] != '%' && s[i] != '_'
}

/// Whether a text has no capital letter of ASCII.
pub open spec fn is_low(s: Seq<char>) -> bool {
    text::lower(s) == s
}

/// A lower-case pattern without marks is matched by no other lower-case text.
proof fn lemma_like_literal(pattern: Seq<char>, s: Seq<char>)
    requires
        is_literal(pattern),
        is_low(pattern),
        is_low(s),
        like(pattern, s),
    ensures
        pattern == s,
    decreases pattern.len(),
{
    if pattern.len() == 0 {
        assert(pattern =~= s);
    } else {
        assert(pattern[0] != '%' && pattern[0] != '_');
        let p1 = pattern.skip(1);
        let s1 = s.skip(1);
        assert forall|i: int| 0 <= i < p1.len() implies #[trigger] p1[i] != '%' && p1[i]
            != '_' by {
            assert(p1[i] == pattern[i + 1]);
        }
        assert(text::lower(pattern)[0] == pattern[0]);
        assert(text::lower(s)[0] == s[0]);
        assert forall|i: int| 0 <= i < p1.len() implies text::lower(p1)[i] == p1[i] by {
            assert(text::lower(pattern)[i + 1] == pattern[i + 1]);
        }
        assert(text::lower(p1) =~= p1);
        assert forall|i: int| 0 <= i < s1.len() implies text::lower(s1)[i] == s1[i] by {
            assert(text::lower(s)[i + 1] == s[i + 1]);
        }
        assert(text::lower(s1) =~= s1);
        lemma_like_literal(p1, s1);
        assert(pattern =~= seq![pattern[0]] + p1);
        assert(s =~= seq![s[0]] + s1);
    }
}

/// A percent sign and a lower-case text without marks is matched only by what
/// ends with that text.
proof fn lemma_like_ends(pattern: Seq<char>, s: Seq<char>)
    requires
        is_literal(pattern),
        is_low(pattern),
        is_low(s),
        like(seq!['%'] + pattern, s),
    ensures
        s.len() >= pattern.len(),
        s.skip(s.len() - pattern.len()) == pattern,
    decreases s.len(),
{
    let p = seq!['%'] + pattern;
    assert(p.skip(1) =~= pattern);
    if like(pattern, s) {
        lemma_like_literal(pattern, s);
        assert(s.skip(0) =~= s);
    } else {
        let s1 = s.skip(1);
        assert forall|i: int| 0 <= i < s1.len() implies text::lower(s1)[i] == s1[i] by {
            assert(text::lower(s)[i + 1] == s[i + 1]);
        }
        assert(text::lower(s1) =~= s1);
        lemma_like_ends(pattern, s1);
        assert(s.skip(s.len() - pattern.len()) =~= s1.skip(s1.len() - pattern.len()));
    }
}

/// Where the parameters of one domain stand.
proof fn lemma_params_at(whitelist: Seq<Seq<char>>, k: int)
    requires
        0 <= k < whitelist.len(),
    ensures
        whitelist_params(whitelist).len() == 2 * whitelist.len(),
        whitelist_params(whitelist)[2 * k] == named_host(whitelist[k]),
        whitelist_params(whitelist)[2 * k + 1] == "%."@ + bare_domain(whitelist[k]),
    decreases whitelist.len(),
{
    let shorter = whitelist.drop_last();
    if shorter.len() > 0 {
        lemma_params_at(shorter, if k < shorter.len() { k } else { 0 });
    } else {
        assert(whitelist_params(shorter) =~= Seq::empty());
    }
}

/// Cookies of a domain of the whitelist, and of every domain below it, are
/// kept.
pub proof fn law_whitelist_protects(whitelist: Seq<Seq<char>>, k: int, host: Seq<char>)
    requires
        0 <= k < whitelist.len(),
        in_domain(whitelist[k], host),
    ensures
        keeps(whitelist_params(whitelist), host),
{
    let params = whitelist_params(whitelist);
    let h = text::lower(host);
    let below = "."@ + bare_domain(whitelist[k]);
    lemma_params_at(whitelist, k);
    reveal_strlit("%.");
    reveal_strlit(".");
    assert("%."@ + bare_domain(whitelist[k]) =~= seq!['%'] + below);
    if h != named_host(whitelist[k]) {
        lemma_like_self(below);
        lemma_like_suffix(below, h, h.len() - below.len());
    }
    assert(pair_keeps(params, 2 * k, host));
}

/// Where no domain of the whitelist holds a mark of a pattern, the cookies that
/// are kept are those of its domains and below them, and no others.
pub proof fn law_whitelist_is_exact(whitelist: Seq<Seq<char>>, host: Seq<char>)
    requires
        forall|k: int| 0 <= k < whitelist.len() ==> is_literal(#[trigger] whitelist[k]),
    ensures
        keeps(whitelist_params(whitelist), host) <==> exists|k: int|
            0 <= k < whitelist.len() && in_domain(#[trigger] whitelist[k], host),
{
    let params = whitelist_params(whitelist);
    let h = text::lower(host);
    text::lemma_lower_idempotent(host);
    if keeps(params, host) {
        let k = choose|k: int|
            0 <= 2 * k < params.len() - 1 && #[trigger] pair_keeps(params, 2 * k, host);
        if whitelist.len() == 0 {
            assert(params.len() == 0);
        }
        lemma_params_at(whitelist, 0);
        lemma_params_at(whitelist, k);
        let domain = whitelist[k];
        let bare = bare_domain(domain);
        let below = "."@ + bare;
        reveal_strlit("%.");
        reveal_strlit(".");
        assert("%."@ + bare =~= seq!['%'] + below);
        if params[2 * k] != h {
            lemma_bare_domain(domain);
            assert(is_literal(below)) by {
                assert forall|i: int| 0 <= i < below.len() implies #[trigger] below[i] != '%'
                    && below[i] != '_' by {
                    if i > 0 {
                        assert(below[i] == bare[i - 1]);
                    }
                }
            }
            assert(is_low(below)) by {
                assert forall|i: int| 0 <= i < below.len() implies text::lower(below)[i]
                    == below[i] by {
                    if i > 0 {
                        assert(below[i] == bare[i - 1]);
                        assert(text::lower(bare)[i - 1] == bare[i - 1]);
                    }
                }
                assert(text::lower(below) =~= below);
            }
            lemma_like_ends(below, h);
        }
        assert(in_domain(whitelist[k], host));
    }
    if exists|k: int| 0 <= k < whitelist.len() && in_domain(#[trigger] whitelist[k], host) {
        let k = choose|k: int| 0 <= k < whitelist.len() && in_domain(#[trigger] whitelist[k], host);
        law_whitelist_protects(whitelist, k, host);
    }
}

/// Leading dots come off without changing the rest.
proof fn lemma_strip_start(s: Seq<char>, set: CharSet)
    ensures
        exists|n: int| 0 <= n <= s.len() && text::strip_start(s, set) == #[trigger] s.skip(n),
    decreases s.len(),
{
    if s.len() > 0 && set.has_char(s[0]) {
        lemma_strip_start(s.skip(1), set);
        let n = choose|n: int|
            0 <= n <= s.len() - 1 && text::strip_start(s.skip(1), set) == #[trigger] s.skip(1).skip(
                n,
            );
        assert(s.skip(1).skip(n) =~= s.skip(n + 1));
    } else {
        assert(s.skip(0) =~= s);
    }
}

/// A domain without marks stays so, and in lower case, when its leading dots
/// are taken off.
proof fn lemma_bare_domain(domain: Seq<char>)
    requires
        is_literal(domain),
    ensures
        is_literal(bare_domain(domain)),
        is_low(bare_domain(domain)),
{
    let low = text::lower(domain);
    let bare = bare_domain(domain);
    lemma_strip_start(low, CharSet::Only('.'));
    let n = choose|n: int| 0 <= n <= low.len() && bare == #[trigger] low.skip(n);
    text::lemma_lower_idempotent(domain);
    assert forall|i: int| 0 <= i < bare.len() implies #[trigger] bare[i] != '%' && bare[i]
        != '_' by {
        assert(bare[i] == low[n + i]);
        assert(low[n + i] == text::lower_char(domain[n + i]));
        assert(domain[n + i] != '%' && domain[n + i] != '_');
    }
    assert forall|i: int| 0 <= i < bare.len() implies text::lower(bare)[i] == bare[i] by {
        assert(bare[i] == low[n + i]);
        assert(text::lower(low)[n + i] == low[n + i]);
    }
    assert(text::lower(bare) =~= bare);
}

// ---------------------------------------------------------------------------
// What the statements do to the rows of a table

/// Whether a condition holds of a row: tests of columns with `OR` between them,
/// each with one parameter, for equality or for a pattern.
pub open spec fn holds_of(
    condition: Seq<char>,
    params: Seq<Seq<char>>,
    row: Map<Seq<char>, Seq<char>>,
) -> bool
    decreases condition.len(),
    via holds_of_decreases
{
    let inner = condition.skip("LOWER("@.len() as int);
    let k = text::first_of(inner, ')');
    let value = text::lower(row[inner.take(k)]);
    let after = inner.skip(k);
    let equals = after.skip(") = ?"@.len() as int);
    let matching = after.skip(") LIKE ?"@.len() as int);
    if !text::starts_with(condition, "LOWER("@) || params.len() == 0 {
        false
    } else if text::starts_with(after, ") = ?"@) {
        value == params[0] || (text::starts_with(equals, " OR "@) && holds_of(
            equals.skip(" OR "@.len() as int),
            params.skip(1),
            row,
        ))
    } else if text::starts_with(after, ") LIKE ?"@) {
        like(params[0], value) || (text::starts_with(matching, " OR "@) && holds_of(
            matching.skip(" OR "@.len() as int),
            params.skip(1),
            row,
        ))
    } else {
        false
    }
}

/// What follows a test is shorter.
#[via_fn]
proof fn holds_of_decreases(
    condition: Seq<char>,
    params: Seq<Seq<char>>,
    row: Map<Seq<char>, Seq<char>>,
) {
    reveal_strlit("LOWER(");
    reveal_strlit(") = ?");
    reveal_strlit(") LIKE ?");
    reveal_strlit(" OR ");
    text::lemma_first_of(condition.skip("LOWER("@.len() as int), ')');
}

/// Whether a statement deletes a row of a table: it deletes from that table,
/// without a condition, or with one that does not spare the row.
pub open spec fn deletes(
    s: StatementView,
    table: Seq<char>,
    row: Map<Seq<char>, Seq<char>>,
) -> bool {
    let all = "DELETE FROM "@ + table;
    let head = all + " WHERE NOT ("@;
    ||| s.sql == all
    ||| {
        &&& text::starts_with(s.sql, head)
        &&& s.sql.len() > head.len()
        &&& s.sql.last() == ')'
        &&& !holds_of(s.sql.subrange(head.len() as int, s.sql.len() - 1), s.params, row)
    }
}

/// Whether one entry of the whitelist keeps a host.
spec fn entry_keeps(domain: Seq<char>, host: Seq<char>) -> bool {
    named_host(domain) == text::lower(host) || like("%."@ + bare_domain(domain), text::lower(host))
}

/// The parameters of a whitelist from the front.
proof fn lemma_params_front(whitelist: Seq<Seq<char>>)
    requires
        whitelist.len() > 0,
    ensures
        whitelist_params(whitelist) == domain_params(whitelist[0]) + whitelist_params(
            whitelist.skip(1),
        ),
    decreases whitelist.len(),
{
    let rest = whitelist.skip(1);
    if whitelist.len() == 1 {
        assert(whitelist.drop_last() =~= Seq::empty());
        assert(rest =~= Seq::empty());
        assert(whitelist_params(whitelist) =~= domain_params(whitelist[0]) + whitelist_params(
            rest,
        ));
    } else {
        lemma_params_front(whitelist.drop_last());
        assert(whitelist.drop_last().skip(1) =~= rest.drop_last());
        assert(whitelist_params(whitelist) =~= domain_params(whitelist[0]) + whitelist_params(
            rest,
        ));
    }
}

/// One test at the start of a condition.
proof fn lemma_test_holds(
    column: Seq<char>,
    is_pattern: bool,
    rest: Seq<char>,
    params: Seq<Seq<char>>,
    row: Map<Seq<char>, Seq<char>>,
)
    requires
        forall|i: int| 0 <= i < column.len() ==> column[i] != ')',
        params.len() > 0,
    ensures
        ({
            let op = if is_pattern {
                ") LIKE ?"@
            } else {
                ") = ?"@
            };
            let value = text::lower(row[column]);
            let here = if is_pattern {
                like(params[0], value)
            } else {
                value == params[0]
            };
            &&& holds_of("LOWER("@ + column + op, params, row) == here
            &&& holds_of("LOWER("@ + column + op + " OR "@ + rest, params, row) == (here
                || holds_of(rest, params.skip(1), row))
        }),
{
    reveal_strlit("LOWER(");
    reveal_strlit(") = ?");
    reveal_strlit(") LIKE ?");
    reveal_strlit(" OR ");
    let op = if is_pattern {
        ") LIKE ?"@
    } else {
        ") = ?"@
    };
    lemma_test_parts(column, op, Seq::empty());
    lemma_test_parts(column, op, " OR "@ + rest);
    let one = "LOWER("@ + column + op;
    let more = "LOWER("@ + column + op + (" OR "@ + rest);
    assert(one + Seq::<char>::empty() =~= one);
    assert("LOWER("@ + column + op + " OR "@ + rest =~= more);
    assert((" OR "@ + rest).skip(4) =~= rest);
    assert((" OR "@ + rest).subrange(0, 4) =~= " OR "@);
    let none = Seq::<char>::empty();
    let after_one = one.skip(6).skip(column.len() as int);
    let after_more = more.skip(6).skip(column.len() as int);
    if is_pattern {
        assert(after_one.skip(8) =~= none);
        assert(after_more.skip(8) =~= " OR "@ + rest);
        assert(after_one.subrange(0, 5)[1] == ' ' && after_one.subrange(0, 5)[2] == 'L');
        assert(after_more.subrange(0, 5)[1] == ' ' && after_more.subrange(0, 5)[2] == 'L');
    } else {
        assert(after_one.skip(5) =~= none);
        assert(after_more.skip(5) =~= " OR "@ + rest);
    }
}

/// How a condition that begins with a test is taken apart.
proof fn lemma_test_parts(column: Seq<char>, op: Seq<char>, rest: Seq<char>)
    requires
        forall|i: int| 0 <= i < column.len() ==> column[i] != ')',
        op == ") = ?"@ || op == ") LIKE ?"@,
    ensures
        ({
            let condition = "LOWER("@ + column + op + rest;
            let inner = condition.skip("LOWER("@.len() as int);
            &&& text::starts_with(condition, "LOWER("@)
            &&& text::first_of(inner, ')') == column.len()
            &&& inner.take(column.len() as int) == column
            &&& inner.skip(column.len() as int) == op + rest
            &&& text::starts_with(inner.skip(column.len() as int), op)
        }),
{
    reveal_strlit("LOWER(");
    reveal_strlit(") = ?");
    reveal_strlit(") LIKE ?");
    let condition = "LOWER("@ + column + op + rest;
    let inner = condition.skip(6);
    assert(condition.subrange(0, 6) =~= "LOWER("@);
    assert forall|j: int| 0 <= j < column.len() implies inner[j] != ')' by {
        assert(inner[j] == column[j]);
    }
    text::lemma_first_of_is(inner, ')', column.len() as int);
    assert(inner.take(column.len() as int) =~= column);
    assert(inner.skip(column.len() as int) =~= op + rest);
    assert((op + rest).subrange(0, op.len() as int) =~= op);
}

/// The condition that a host is in a whitelist holds where an entry keeps it.
proof fn lemma_conditions_hold(
    column: Seq<char>,
    whitelist: Seq<Seq<char>>,
    row: Map<Seq<char>, Seq<char>>,
)
    requires
        whitelist.len() > 0,
        forall|i: int| 0 <= i < column.len() ==> column[i] != ')',
    ensures
        holds_of(host_conditions(column, whitelist.len()), whitelist_params(whitelist), row)
            <==> exists|k: int|
            0 <= k < whitelist.len() && entry_keeps(#[trigger] whitelist[k], row[column]),
    decreases whitelist.len(),
{
    let n = whitelist.len();
    let host = row[column];
    let params = whitelist_params(whitelist);
    let rest = whitelist.skip(1);
    let parts = Seq::new(n, |i: int| host_condition(column));
    let equal = "LOWER("@ + column + ") = ?"@;
    let alike = "LOWER("@ + column + ") LIKE ?"@;
    reveal_strlit(") = ?");
    reveal_strlit(" OR ");
    reveal_strlit("LOWER(");
    reveal_strlit(") = ? OR LOWER(");
    assert(") = ? OR LOWER("@ =~= ") = ?"@ + " OR "@ + "LOWER("@);
    assert(host_condition(column) =~= equal + " OR "@ + alike);
    lemma_params_front(whitelist);
    assert(params.skip(1)[0] == "%."@ + bare_domain(whitelist[0]));
    if n == 1 {
        assert(parts =~= seq![host_condition(column)]);
        assert(rest =~= Seq::empty());
        lemma_test_holds(column, false, alike, params, row);
        lemma_test_holds(column, true, Seq::empty(), params.skip(1), row);
        if exists|k: int| 0 <= k < whitelist.len() && entry_keeps(#[trigger] whitelist[k], host) {
            assert(entry_keeps(whitelist[0], host));
        }
    } else {
        let others = Seq::new((n - 1) as nat, |i: int| host_condition(column));
        let tail = text::join(others, " OR "@);
        text::lemma_join_front(parts, " OR "@);
        assert(parts.skip(1) =~= others);
        assert(host_conditions(column, n) =~= equal + " OR "@ + (alike + " OR "@ + tail));
        lemma_test_holds(column, false, alike + " OR "@ + tail, params, row);
        lemma_test_holds(column, true, tail, params.skip(1), row);
        assert(params.skip(1).skip(1) =~= whitelist_params(rest));
        lemma_conditions_hold(column, rest, row);
        if exists|k: int| 0 <= k < whitelist.len() && entry_keeps(#[trigger] whitelist[k], host) {
            let k = choose|k: int|
                0 <= k < whitelist.len() && entry_keeps(#[trigger] whitelist[k], host);
            if k > 0 {
                assert(entry_keeps(rest[k - 1], host));
            }
        }
        if exists|k: int| 0 <= k < rest.len() && entry_keeps(#[trigger] rest[k], host) {
            let k = choose|k: int| 0 <= k < rest.len() && entry_keeps(#[trigger] rest[k], host);
            assert(entry_keeps(whitelist[k + 1], host));
        }
        if entry_keeps(whitelist[0], host) {
            assert(0 <= 0 < whitelist.len());
        }
    }
}

/// An entry keeps the hosts that its parameters keep.
proof fn lemma_entries_keep(whitelist: Seq<Seq<char>>, host: Seq<char>)
    ensures
        keeps(whitelist_params(whitelist), host) <==> exists|k: int|
            0 <= k < whitelist.len() && entry_keeps(#[trigger] whitelist[k], host),
{
    let params = whitelist_params(whitelist);
    if whitelist.len() == 0 {
        assert(params.len() == 0);
    } else {
        lemma_params_at(whitelist, 0);
    }
    if keeps(params, host) {
        let k = choose|k: int|
            0 <= 2 * k < params.len() - 1 && #[trigger] pair_keeps(params, 2 * k, host);
        lemma_params_at(whitelist, k);
        assert(entry_keeps(whitelist[k], host));
    }
    if exists|k: int| 0 <= k < whitelist.len() && entry_keeps(#[trigger] whitelist[k], host) {
        let k = choose|k: int|
            0 <= k < whitelist.len() && entry_keeps(#[trigger] whitelist[k], host);
        lemma_params_at(whitelist, k);
        assert(pair_keeps(params, 2 * k, host));
    }
}

/// The statement for cookies deletes a row exactly where the whitelist does not
/// keep its host.
proof fn lemma_cookie_delete(
    table: Seq<char>,
    column: Seq<char>,
    whitelist: Seq<Seq<char>>,
    row: Map<Seq<char>, Seq<char>>,
)
    requires
        forall|i: int| 0 <= i < column.len() ==> column[i] != ')',
    ensures
        deletes(cookie_delete(table, column, whitelist), table, row) <==> !(whitelist.len() > 0
            && keeps(whitelist_params(whitelist), row[column])),
{
    let s = cookie_delete(table, column, whitelist);
    let all = "DELETE FROM "@ + table;
    let head = all + " WHERE NOT ("@;
    reveal_strlit(")");
    reveal_strlit(" WHERE NOT (");
    if whitelist.len() > 0 {
        let condition = host_conditions(column, whitelist.len());
        assert(s.sql =~= head + condition + ")"@);
        assert(s.sql.subrange(0, head.len() as int) =~= head);
        assert(s.sql.subrange(head.len() as int, s.sql.len() - 1) =~= condition);
        assert(s.sql.len() > all.len());
        lemma_conditions_hold(column, whitelist, row);
        lemma_entries_keep(whitelist, row[column]);
    }
}

/// The domain that an entry names once its leading dots are taken off.
proof fn lemma_named_domain(dots: Seq<char>, domain: Seq<char>)
    requires
        forall|i: int| 0 <= i < dots.len() ==> #[trigger] dots[i] == '.',
        domain.len() > 0,
        domain[0] != '.',
    ensures
        bare_domain(dots + domain) == text::lower(domain),
        named_host(dots + domain) == text::lower(domain),
{
    let low_dots = text::lower(dots);
    let low = text::lower(domain);
    assert(text::lower(dots + domain) =~= low_dots + low);
    assert forall|i: int| 0 <= i < low_dots.len() implies CharSet::Only('.').has_char(
        #[trigger] low_dots[i],
    ) by {
        assert(dots[i] == '.');
    }
    text::lemma_strip_start_padding(low_dots, low, CharSet::Only('.'));
    assert(low[0] == text::lower_char(domain[0]));
}

/// Clearing the cookies of a browser spares every cookie whose host, in the
/// column in which that browser keeps it, is a domain of the whitelist or below
/// one, in whatever case it is written and with however many dots the entry
/// begins.
pub proof fn law_whitelisted_cookies_survive(
    kind: BrowserDbKind,
    table: Seq<char>,
    column: Seq<char>,
    whitelist: Seq<Seq<char>>,
    k: int,
    dots: Seq<char>,
    domain: Seq<char>,
    row: Map<Seq<char>, Seq<char>>,
)
    requires
        (kind == BrowserDbKind::ChromiumCookies && table == "cookies"@ && column == "host_key"@)
            || (kind == BrowserDbKind::FirefoxCookies && table == "moz_cookies"@ && column
            == "host"@),
        0 <= k < whitelist.len(),
        whitelist[k] == dots + domain,
        forall|i: int| 0 <= i < dots.len() ==> #[trigger] dots[i] == '.',
        domain.len() > 0,
        domain[0] != '.',
        text::lower(row[column]) == text::lower(domain) || exists|sub: Seq<char>|
            text::lower(row[column]) == #[trigger] (sub + "."@ + text::lower(domain)),
    ensures
        forall|i: int|
            0 <= i < statements_of(kind, whitelist).len() ==> !deletes(
                #[trigger] statements_of(kind, whitelist)[i],
                table,
                row,
            ),
{
    reveal_strlit("host_key");
    reveal_strlit("host");
    let h = text::lower(row[column]);
    lemma_named_domain(dots, domain);
    if h != text::lower(domain) {
        let sub = choose|sub: Seq<char>| h == #[trigger] (sub + "."@ + text::lower(domain));
        let below = "."@ + text::lower(domain);
        assert(h.skip(h.len() - below.len()) =~= below);
    }
    assert(in_domain(whitelist[k], row[column]));
    law_whitelist_protects(whitelist, k, row[column]);
    lemma_cookie_delete(table, column, whitelist, row);
}

/// Clearing the cookies of a browser deletes every cookie whose host, in the
/// column in which that browser keeps it, is no domain of the whitelist and
/// below none; without a whitelist it deletes every cookie. Entries with the
/// marks of a pattern, which can spare more, and entries of dots only are left
/// aside.
pub proof fn law_other_cookies_are_deleted(
    kind: BrowserDbKind,
    table: Seq<char>,
    column: Seq<char>,
    whitelist: Seq<Seq<char>>,
    dots: Seq<Seq<char>>,
    domains: Seq<Seq<char>>,
    row: Map<Seq<char>, Seq<char>>,
)
    requires
        (kind == BrowserDbKind::ChromiumCookies && table == "cookies"@ && column == "host_key"@)
            || (kind == BrowserDbKind::FirefoxCookies && table == "moz_cookies"@ && column
            == "host"@),
        dots.len() == whitelist.len(),
        domains.len() == whitelist.len(),
        forall|k: int|
            0 <= k < whitelist.len() ==> {
                &&& #[trigger] whitelist[k] == dots[k] + domains[k]
                &&& domains[k].len() > 0 && domains[k][0] != '.'
                &&& forall|i: int| 0 <= i < dots[k].len() ==> #[trigger] dots[k][i] == '.'
                &&& forall|i: int|
                    0 <= i < domains[k].len() ==> #[trigger] domains[k][i] != '%' && domains[k][i]
                        != '_'
                &&& text::lower(row[column]) != text::lower(domains[k])
                &&& forall|sub: Seq<char>|
                    text::lower(row[column]) != #[trigger] (sub + "."@ + text::lower(domains[k]))
            },
    ensures
        exists|i: int|
            0 <= i < statements_of(kind, whitelist).len() && deletes(
                #[trigger] statements_of(kind, whitelist)[i],
                table,
                row,
            ),
{
    reveal_strlit("host_key");
    reveal_strlit("host");
    reveal_strlit(".");
    let host = row[column];
    let h = text::lower(host);
    assert forall|k: int| 0 <= k < whitelist.len() implies is_literal(
        #[trigger] whitelist[k],
    ) by {
        let d = dots[k];
        let name = domains[k];
        assert(whitelist[k] == d + name);
        assert forall|i: int| 0 <= i < whitelist[k].len() implies #[trigger] whitelist[k][i] != '%'
            && whitelist[k][i] != '_' by {
            if i < d.len() {
                assert(d[i] == '.');
            } else {
                assert(name[i - d.len()] != '%' && name[i - d.len()] != '_');
            }
        }
    }
    assert forall|k: int| 0 <= k < whitelist.len() implies !in_domain(
        #[trigger] whitelist[k],
        host,
    ) by {
        assert(whitelist[k] == dots[k] + domains[k]);
        lemma_named_domain(dots[k], domains[k]);
        let below = "."@ + text::lower(domains[k]);
        if h.len() >= below.len() && h.skip(h.len() - below.len()) == below {
            let n = h.len() - below.len();
            let sub = h.take(n);
            assert(h =~= h.take(n) + h.skip(n));
            assert(sub + below =~= sub + "."@ + text::lower(domains[k]));
            assert(h == sub + "."@ + text::lower(domains[k]));
        }
    }
    law_whitelist_is_exact(whitelist, host);
    lemma_cookie_delete(table, column, whitelist, row);
    assert(deletes(statements_of(kind, whitelist)[0], table, row));
}

/// Whether a statement empties a table.
pub open spec fn empties(s: StatementView, table: Seq<char>) -> bool {
    s.sql == "DELETE FROM "@ + table
}

/// A statement on a table empties that table and no other.
proof fn lemma_empties_only(sql: Seq<char>, name: Seq<char>)
    requires
        sql == "DELETE FROM "@ + name,
    ensures
        forall|table: Seq<char>| #[trigger] empties(plain(sql), table) <==> table == name,
{
    assert forall|table: Seq<char>| #[trigger] empties(plain(sql), table) <==> table == name by {
        let head = "DELETE FROM "@;
        if sql == head + table {
            assert(sql.skip(head.len() as int) =~= name);
            assert(sql.skip(head.len() as int) =~= table);
        }
    }
}

/// Whether one of the statements empties a table.
pub open spec fn empties_any(statements: Seq<StatementView>, table: Seq<char>) -> bool {
    exists|i: int| 0 <= i < statements.len() && empties(#[trigger] statements[i], table)
}

/// Clearing the history of a Chromium browser empties its visits and addresses
/// and what hangs on them, clearing its downloads empties the downloads and what
/// hangs on them, and neither touches what the other is for. Clearing the
/// history of Firefox empties the visits and forgets counts and times, but
/// deletes no address, so that bookmarks stay.
pub proof fn law_records_are_cleared_by_kind(whitelist: Seq<Seq<char>>, table: Seq<char>)
    ensures
        empties_any(statements_of(BrowserDbKind::ChromiumHistory, whitelist), table) <==> (table
            == "urls"@ || table == "visits"@ || table == "visit_source"@ || table
            == "keyword_search_terms"@),
        empties_any(statements_of(BrowserDbKind::ChromiumDownloads, whitelist), table) <==> (table
            == "downloads"@ || table == "downloads_slices"@ || table == "downloads_url_chains"@),
        empties_any(statements_of(BrowserDbKind::FirefoxHistory, whitelist), table) <==> table
            == "moz_historyvisits"@,
        (forall|i: int| 0 <= i < table.len() ==> table[i] != ' ') ==> !empties_any(
            statements_of(BrowserDbKind::FirefoxDownloads, whitelist),
            table,
        ),
        statements_of(BrowserDbKind::FirefoxHistory, whitelist).len() == 2,
        statements_of(BrowserDbKind::FirefoxHistory, whitelist)[1].sql
            == "UPDATE moz_places SET visit_count = 0, last_visit_date = NULL"@,
{
    let history = statements_of(BrowserDbKind::ChromiumHistory, whitelist);
    let downloads = statements_of(BrowserDbKind::ChromiumDownloads, whitelist);
    let places = statements_of(BrowserDbKind::FirefoxHistory, whitelist);
    let annos = statements_of(BrowserDbKind::FirefoxDownloads, whitelist);
    reveal_strlit("DELETE FROM ");
    reveal_strlit("DELETE FROM keyword_search_terms");
    reveal_strlit("keyword_search_terms");
    reveal_strlit("DELETE FROM visit_source");
    reveal_strlit("visit_source");
    reveal_strlit("DELETE FROM visits");
    reveal_strlit("visits");
    reveal_strlit("DELETE FROM urls");
    reveal_strlit("urls");
    reveal_strlit("DELETE FROM downloads_url_chains");
    reveal_strlit("downloads_url_chains");
    reveal_strlit("DELETE FROM downloads_slices");
    reveal_strlit("downloads_slices");
    reveal_strlit("DELETE FROM downloads");
    reveal_strlit("downloads");
    reveal_strlit("DELETE FROM moz_historyvisits");
    reveal_strlit("moz_historyvisits");
    reveal_strlit("UPDATE moz_places SET visit_count = 0, last_visit_date = NULL");
    assert("DELETE FROM keyword_search_terms"@ =~= "DELETE FROM "@ + "keyword_search_terms"@);
    assert("DELETE FROM visit_source"@ =~= "DELETE FROM "@ + "visit_source"@);
    assert("DELETE FROM visits"@ =~= "DELETE FROM "@ + "visits"@);
    assert("DELETE FROM urls"@ =~= "DELETE FROM "@ + "urls"@);
    assert("DELETE FROM downloads_url_chains"@ =~= "DELETE FROM "@ + "downloads_url_chains"@);
    assert("DELETE FROM downloads_slices"@ =~= "DELETE FROM "@ + "downloads_slices"@);
    assert("DELETE FROM downloads"@ =~= "DELETE FROM "@ + "downloads"@);
    assert("DELETE FROM moz_historyvisits"@ =~= "DELETE FROM "@ + "moz_historyvisits"@);
    lemma_empties_only("DELETE FROM keyword_search_terms"@, "keyword_search_terms"@);
    lemma_empties_only("DELETE FROM visit_source"@, "visit_source"@);
    lemma_empties_only("DELETE FROM visits"@, "visits"@);
    lemma_empties_only("DELETE FROM urls"@, "urls"@);
    lemma_empties_only("DELETE FROM downloads_url_chains"@, "downloads_url_chains"@);
    lemma_empties_only("DELETE FROM downloads_slices"@, "downloads_slices"@);
    lemma_empties_only("DELETE FROM downloads"@, "downloads"@);
    lemma_empties_only("DELETE FROM moz_historyvisits"@, "moz_historyvisits"@);
    assert(empties(history[0], table) <==> table == "keyword_search_terms"@);
    assert(empties(history[1], table) <==> table == "visit_source"@);
    assert(empties(history[2], table) <==> table == "visits"@);
    assert(empties(history[3], table) <==> table == "urls"@);
    assert(empties(downloads[0], table) <==> table == "downloads_url_chains"@);
    assert(empties(downloads[1], table) <==> table == "downloads_slices"@);
    assert(empties(downloads[2], table) <==> table == "downloads"@);
    assert(empties(places[0], table) <==> table == "moz_historyvisits"@);
    let forget = "UPDATE moz_places SET visit_count = 0, last_visit_date = NULL"@;
    let delete = "DELETE FROM "@;
    assert(forget[0] == 'U' && delete[0] == 'D');
    assert(!empties(places[1], table)) by {
        assert((delete + table)[0] == 'D');
    }
    reveal_strlit(
        "DELETE FROM moz_annos WHERE anno_attribute_id IN (SELECT id FROM moz_anno_attributes WHERE name LIKE '%downloads%')",
    );
    if empties_any(annos, table) {
        assert(empties(annos[0], table));
        assert(annos[0].sql.len() > 30);
        assert(annos[0].sql == delete + table);
        assert(delete.len() == 12);
        assert(annos[0].sql[21] == ' ');
        assert((delete + table)[21] == table[9]);
    }
}

/// A missing table or column is forgiven exactly in optional statements, and
/// every other message is the failure itself.
pub proof fn law_only_missing_parts_are_forgiven(before: Seq<char>, after: Seq<char>, ran: Ran)
    ensures
        is_missing(before + "no such table"@ + after),
        is_missing(before + "no such column"@ + after),
        ran matches Err(message) ==> {
            &&& statement_failure(false, ran) == Some(message@)
            &&& (forall|a: Seq<char>, b: Seq<char>| message@ != #[trigger] (a + "no such table"@ + b))
                && (forall|a: Seq<char>, b: Seq<char>|
                message@ != #[trigger] (a + "no such column"@ + b)) ==> statement_failure(true, ran)
                == Some(message@)
            &&& (exists|a: Seq<char>, b: Seq<char>|
                message@ == #[trigger] (a + "no such table"@ + b)) || (exists|
                a: Seq<char>,
                b: Seq<char>,
            | message@ == #[trigger] (a + "no such column"@ + b)) ==> statement_failure(true, ran)
                is None
        },
        ran is Ok ==> statement_failure(true, ran) is None && statement_failure(false, ran) is None,
{
    let one = before + "no such table"@ + after;
    let other = before + "no such column"@ + after;
    text::law_containing_is_having_as_a_middle(one, "no such table"@);
    text::law_containing_is_having_as_a_middle(other, "no such column"@);
    if let Err(message) = ran {
        text::law_containing_is_having_as_a_middle(message@, "no such table"@);
        text::law_containing_is_having_as_a_middle(message@, "no such column"@);
    }
}

/// The write-ahead log, the shared memory and the journal of a database stand
/// beside it under its own name.
pub proof fn law_sidecars_bear_the_name_of_their_database(db_path: Seq<char>, other: Seq<char>)
    ensures
        sidecars(db_path).contains(other) <==> other == db_path + "-wal"@ || other == db_path
            + "-shm"@ || other == db_path + "-journal"@,
{
    let all = sidecars(db_path);
    assert(all.contains(all[0]) && all.contains(all[1]) && all.contains(all[2]));
}

/// Every statement may find its table missing, but for the one that spares the
/// cookies of a whitelist; that one alone has parameters. Downloads of Firefox
/// are the annotations that speak of downloads.
pub proof fn law_only_sparing_cookies_is_demanded(
    kind: BrowserDbKind,
    whitelist: Seq<Seq<char>>,
    i: int,
)
    requires
        0 <= i < statements_of(kind, whitelist).len(),
    ensures
        ({
            let statement = statements_of(kind, whitelist)[i];
            let sparing = whitelist.len() > 0 && (kind == BrowserDbKind::ChromiumCookies || kind
                == BrowserDbKind::FirefoxCookies);
            &&& statement.optional == !sparing
            &&& !sparing ==> statement.params.len() == 0
            &&& kind == BrowserDbKind::FirefoxDownloads ==> statement.sql
                == "DELETE FROM moz_annos WHERE anno_attribute_id IN (SELECT id FROM moz_anno_attributes WHERE name LIKE '%downloads%')"@
        }),
{
}

/// An entry of the whitelist is handed to the database without its leading
/// dots and in small letters, once as it is and once for everything below it.
/// Of an entry of dots only the dots themselves are handed over.
pub proof fn law_entries_are_handed_over_bare(
    whitelist: Seq<Seq<char>>,
    k: int,
    dots: Seq<char>,
    domain: Seq<char>,
)
    requires
        0 <= k < whitelist.len(),
        whitelist[k] == dots + domain,
        forall|i: int| 0 <= i < dots.len() ==> #[trigger] dots[i] == '.',
        domain.len() > 0 ==> domain[0] != '.',
    ensures
        whitelist_params(whitelist).len() == 2 * whitelist.len(),
        domain.len() > 0 ==> whitelist_params(whitelist)[2 * k] == text::lower(domain),
        domain.len() == 0 ==> whitelist_params(whitelist)[2 * k] == dots,
        whitelist_params(whitelist)[2 * k + 1] == "%."@ + text::lower(domain),
{
    lemma_params_at(whitelist, k);
    if domain.len() > 0 {
        lemma_named_domain(dots, domain);
    } else {
        let low = text::lower(dots);
        assert(dots + domain =~= dots);
        assert forall|i: int| 0 <= i < dots.len() implies low[i] == dots[i] by {
            assert(dots[i] == '.');
        }
        assert(low =~= dots);
        text::lemma_strip_start_padding(dots, domain, CharSet::Only('.'));
        assert(text::lower(domain) =~= domain);
    }
}

} // verus!
