//! Text as a sequence of characters: the few string operations that the rest
//! of the library is stated over, each with its meaning as a spec function.
use vstd::prelude::*;
use vstd::slice::slice_subrange;

verus! {

/// `String::push`: the character goes to the end, the rest stays.
pub assume_specification[ String::push ](s: &mut String, c: char)
    ensures
        final(s)@ == old(s)@.push(c),
;

/// The views of the elements of a sequence, in order.
pub open spec fn views<T: View>(s: Seq<T>) -> Seq<T::V> {
    s.map_values(|t: T| t@)
}

/// The views after one more element.
pub proof fn lemma_views_push<T: View>(s: Seq<T>, t: T)
    ensures
        views(s.push(t)) == views(s).push(t@),
{
    assert(views(s.push(t)) =~= views(s).push(t@));
}

/// The views of two sequences one after the other.
pub proof fn lemma_views_add<T: View>(s: Seq<T>, t: Seq<T>)
    ensures
        views(s + t) == views(s) + views(t),
{
    assert(views(s + t) =~= views(s) + views(t));
}

/// The characters of a string.
pub fn chars_of(s: &str) -> (r: Vec<char>)
    ensures
        r@ == s@,
{
    let mut r: Vec<char> = Vec::new();
    for c in it: s.chars()
        invariant
            it.seq() == s@,
            r@ == s@.take(it.index() as int),
    {
        assert(s@.take(it.index() + 1) =~= s@.take(it.index() as int).push(c));
        r.push(c);
    }
    assert(s@.take(s@.len() as int) =~= s@);
    r
}

/// The string made of the given characters.
pub fn string_of(s: &[char]) -> (r: String)
    ensures
        r@ == s@,
{
    let mut r = String::new();
    for i in 0..s.len()
        invariant
            r@ == s@.take(i as int),
    {
        assert(s@.take(i + 1) =~= s@.take(i as int).push(s@[i as int]));
        r.push(s[i]);
    }
    assert(s@.take(s@.len() as int) =~= s@);
    r
}

// ---------------------------------------------------------------------------
// Characters

/// Whether `c` has the Unicode property `White_Space`.
pub open spec fn is_white(c: char) -> bool {
    ||| '\u{9}' <= c <= '\u{d}'
    ||| c == ' '
    ||| c == '\u{85}'
    ||| c == '\u{a0}'
    ||| c == '\u{1680}'
    ||| '\u{2000}' <= c <= '\u{200a}'
    ||| c == '\u{2028}'
    ||| c == '\u{2029}'
    ||| c == '\u{202f}'
    ||| c == '\u{205f}'
    ||| c == '\u{3000}'
}

/// Decides [`is_white`].
pub fn is_whitespace(c: char) -> (r: bool)
    ensures
        r == is_white(c),
{
    ('\u{9}' <= c && c <= '\u{d}') || c == ' ' || c == '\u{85}' || c == '\u{a0}' || c == '\u{1680}'
        || ('\u{2000}' <= c && c <= '\u{200a}') || c == '\u{2028}' || c == '\u{2029}'
        || c == '\u{202f}' || c == '\u{205f}' || c == '\u{3000}'
}

/// An ASCII capital becomes the small letter; every other character stays.
pub open spec fn lower_char(c: char) -> char {
    if 'A' <= c <= 'Z' {
        (c as u32 + 32) as char
    } else {
        c
    }
}

/// [`lower_char`] on every character.
pub open spec fn lower(s: Seq<char>) -> Seq<char> {
    s.map_values(|c: char| lower_char(c))
}

/// The text with its ASCII capitals made small.
pub fn lowered(s: &[char]) -> (r: Vec<char>)
    ensures
        r@ == lower(s@),
{
    let mut r: Vec<char> = Vec::new();
    for i in 0..s.len()
        invariant
            r@ == lower(s@.take(i as int)),
    {
        let c = s[i];
        let d = if 'A' <= c && c <= 'Z' {
            ((c as u8) + 32) as char
        } else {
            c
        };
        assert(lower(s@.take(i + 1)) =~= lower(s@.take(i as int)).push(lower_char(s@[i as int])));
        r.push(d);
    }
    assert(s@.take(s@.len() as int) =~= s@);
    r
}

/// A string with its ASCII capitals made small.
pub fn lower_string(s: &str) -> (r: String)
    ensures
        r@ == lower(s@),
{
    let cs = chars_of(s);
    let low = lowered(cs.as_slice());
    string_of(low.as_slice())
}

/// Making capitals small twice changes nothing more.
pub proof fn lemma_lower_idempotent(s: Seq<char>)
    ensures
        lower(lower(s)) == lower(s),
{
    assert(lower(lower(s)) =~= lower(s));
}

// ---------------------------------------------------------------------------
// Building strings

/// The two texts one after the other.
pub fn concat2(a: &str, b: &str) -> (r: String)
    ensures
        r@ == a@ + b@,
{
    let mut r = a.to_owned();
    r.append(b);
    r
}

/// The three texts one after the other.
pub fn concat3(a: &str, b: &str, c: &str) -> (r: String)
    ensures
        r@ == a@ + b@ + c@,
{
    let mut r = concat2(a, b);
    r.append(c);
    r
}

/// The four texts one after the other.
pub fn concat4(a: &str, b: &str, c: &str, d: &str) -> (r: String)
    ensures
        r@ == a@ + b@ + c@ + d@,
{
    let mut r = concat3(a, b, c);
    r.append(d);
    r
}

/// The five texts one after the other.
pub fn concat5(a: &str, b: &str, c: &str, d: &str, e: &str) -> (r: String)
    ensures
        r@ == a@ + b@ + c@ + d@ + e@,
{
    let mut r = concat4(a, b, c, d);
    r.append(e);
    r
}

/// A list of strings with the same texts.
pub fn copy_strings(v: &Vec<String>) -> (r: Vec<String>)
    ensures
        views(r@) == views(v@),
{
    let mut r: Vec<String> = Vec::new();
    for i in 0..v.len()
        invariant
            views(r@) == views(v@).take(i as int),
    {
        let ghost before = r@;
        let s = v[i].clone();
        r.push(s);
        proof {
            lemma_views_push(before, s);
            assert(views(v@).take(i + 1) =~= views(v@).take(i as int).push(v@[i as int]@));
        }
    }
    assert(views(v@).take(v@.len() as int) =~= views(v@));
    r
}

/// The parts with the separator between any two of them.
pub open spec fn join(parts: Seq<Seq<char>>, sep: Seq<char>) -> Seq<char>
    decreases parts.len(),
{
    if parts.len() == 0 {
        Seq::empty()
    } else if parts.len() == 1 {
        parts[0]
    } else {
        join(parts.drop_last(), sep) + sep + parts.last()
    }
}

/// Joins the strings with the separator between any two of them.
pub fn join_strings(parts: &Vec<String>, sep: &str) -> (r: String)
    ensures
        r@ == join(views(parts@), sep@),
{
    let mut r = String::new();
    for i in 0..parts.len()
        invariant
            r@ == join(views(parts@).take(i as int), sep@),
    {
        if i > 0 {
            r.append(sep);
        }
        r.append(parts[i].as_str());
        proof {
            let next = views(parts@).take(i + 1);
            assert(next.drop_last() =~= views(parts@).take(i as int));
            assert(next.last() == parts@[i as int]@);
            if i == 0 {
                assert(r@ =~= next[0]);
            }
        }
    }
    assert(views(parts@).take(parts@.len() as int) =~= views(parts@));
    r
}

/// The digit character of a value below ten.
pub open spec fn digit(d: nat) -> char {
    ('0' as u32 + d) as char
}

/// The decimal digits of a number, without leading zeros.
pub open spec fn decimal(n: nat) -> Seq<char>
    decreases n,
{
    if n < 10 {
        seq![digit(n)]
    } else {
        decimal(n / 10).push(digit(n % 10))
    }
}

/// Writes a number in decimal.
pub fn decimal_string(n: u128) -> (r: String)
    ensures
        r@ == decimal(n as nat),
    decreases n,
{
    if n < 10 {
        let mut r = String::new();
        r.push((48 + n as u8) as char);
        assert(r@ =~= decimal(n as nat));
        r
    } else {
        let mut r = decimal_string(n / 10);
        r.push((48 + (n % 10) as u8) as char);
        r
    }
}

/// Different numbers have different decimal digits.
pub proof fn lemma_decimal_injective(a: nat, b: nat)
    requires
        decimal(a) == decimal(b),
    ensures
        a == b,
    decreases a,
{
    let x = decimal(a);
    let y = decimal(b);
    assert(x.last() == digit(a % 10));
    assert(y.last() == digit(b % 10));
    assert(a % 10 == b % 10);
    lemma_decimal_len(a);
    lemma_decimal_len(b);
    if a >= 10 && b >= 10 {
        assert(x.drop_last() =~= decimal(a / 10));
        assert(y.drop_last() =~= decimal(b / 10));
        lemma_decimal_injective(a / 10, b / 10);
    }
}

/// One digit exactly for the numbers below ten.
pub proof fn lemma_decimal_len(n: nat)
    ensures
        decimal(n).len() >= 1,
        n >= 10 ==> decimal(n).len() >= 2,
    decreases n,
{
    if n >= 10 {
        lemma_decimal_len(n / 10);
    }
}

// ---------------------------------------------------------------------------
// Taking strings apart

/// A set of characters that can be trimmed off the ends of a text.
#[derive(Clone, Copy)]
pub enum CharSet {
    /// Every white-space character.
    Whitespace,
    /// One character.
    Only(char),
}

impl CharSet {
    /// Whether the character belongs to the set.
    pub open spec fn has_char(self, c: char) -> bool {
        match self {
            CharSet::Whitespace => is_white(c),
            CharSet::Only(x) => c == x,
        }
    }

    /// Decides [`CharSet::has_char`].
    pub fn matches(self, c: char) -> (r: bool)
        ensures
            r == self.has_char(c),
    {
        match self {
            CharSet::Whitespace => is_whitespace(c),
            CharSet::Only(x) => c == x,
        }
    }
}

/// The text without the characters of the set at its start.
pub open spec fn strip_start(s: Seq<char>, set: CharSet) -> Seq<char>
    decreases s.len(),
{
    if s.len() > 0 && set.has_char(s[0]) {
        strip_start(s.skip(1), set)
    } else {
        s
    }
}

/// The text without the characters of the set at its end.
pub open spec fn strip_end(s: Seq<char>, set: CharSet) -> Seq<char>
    decreases s.len(),
{
    if s.len() > 0 && set.has_char(s.last()) {
        strip_end(s.drop_last(), set)
    } else {
        s
    }
}

/// The text without the characters of the set at either end.
pub open spec fn strip(s: Seq<char>, set: CharSet) -> Seq<char> {
    strip_end(strip_start(s, set), set)
}

/// The text without the white space at either end.
pub open spec fn trim(s: Seq<char>) -> Seq<char> {
    strip(s, CharSet::Whitespace)
}

/// Drops the characters of the set from the start.
pub fn stripped_start(s: &[char], set: CharSet) -> (r: &[char])
    ensures
        r@ == strip_start(s@, set),
{
    let mut i: usize = 0;
    assert(s@.skip(0) =~= s@);
    while i < s.len() && set.matches(s[i])
        invariant
            i <= s@.len(),
            strip_start(s@.skip(i as int), set) == strip_start(s@, set),
        decreases s@.len() - i,
    {
        assert(s@.skip(i as int).skip(1) =~= s@.skip(i + 1));
        i = i + 1;
    }
    assert(s@.skip(i as int) =~= s@.subrange(i as int, s@.len() as int));
    slice_subrange(s, i, s.len())
}

/// Drops the characters of the set from both ends.
pub fn stripped(s: &[char], set: CharSet) -> (r: &[char])
    ensures
        r@ == strip(s@, set),
{
    let t = stripped_start(s, set);
    let mut n: usize = t.len();
    assert(t@.take(n as int) =~= t@);
    while n > 0 && set.matches(t[n - 1])
        invariant
            n <= t@.len(),
            strip_end(t@.take(n as int), set) == strip_end(t@, set),
        decreases n,
    {
        assert(t@.take(n as int).drop_last() =~= t@.take(n - 1));
        n = n - 1;
    }
    assert(t@.take(n as int) =~= t@.subrange(0, n as int));
    slice_subrange(t, 0, n)
}

/// Drops the white space from both ends.
pub fn trimmed(s: &[char]) -> (r: &[char])
    ensures
        r@ == trim(s@),
{
    stripped(s, CharSet::Whitespace)
}

/// Whether the needle stands in the text at position `i`.
pub open spec fn occurs_at(s: Seq<char>, needle: Seq<char>, i: int) -> bool {
    &&& 0 <= i
    &&& i + needle.len() <= s.len()
    &&& s.subrange(i, i + needle.len()) == needle
}

/// Whether the needle stands somewhere in the text.
pub open spec fn contains(s: Seq<char>, needle: Seq<char>) -> bool {
    exists|i: int| occurs_at(s, needle, i)
}

/// Whether the text begins with the prefix.
pub open spec fn starts_with(s: Seq<char>, prefix: Seq<char>) -> bool {
    occurs_at(s, prefix, 0)
}

/// Decides [`occurs_at`].
pub fn stands_at(s: &[char], needle: &[char], i: usize) -> (r: bool)
    ensures
        r == occurs_at(s@, needle@, i as int),
{
    let n = s.len();
    if i > n || needle.len() > n - i {
        return false;
    }
    let mut k: usize = 0;
    while k < needle.len()
        invariant
            n == s@.len(),
            k <= needle@.len(),
            i + needle@.len() <= n,
            forall|j: int| 0 <= j < k ==> s@[i + j] == needle@[j],
        decreases needle@.len() - k,
    {
        if s[i + k] != needle[k] {
            assert(s@.subrange(i as int, i + needle@.len())[k as int] != needle@[k as int]);
            return false;
        }
        k = k + 1;
    }
    assert(s@.subrange(i as int, i + needle@.len()) =~= needle@);
    true
}

/// Finds the first position of the needle.
pub fn find(s: &[char], needle: &[char]) -> (r: Option<usize>)
    ensures
        match r {
            Some(i) => occurs_at(s@, needle@, i as int) && forall|j: int|
                j < i ==> !occurs_at(s@, needle@, j),
            None => !contains(s@, needle@),
        },
{
    let mut i: usize = 0;
    while i < s.len()
        invariant
            i <= s@.len(),
            forall|j: int| j < i ==> !occurs_at(s@, needle@, j),
        decreases s@.len() - i,
    {
        if stands_at(s, needle, i) {
            return Some(i);
        }
        i = i + 1;
    }
    if stands_at(s, needle, i) {
        return Some(i);
    }
    None
}

/// Whether the text begins with the prefix.
pub fn begins_with(s: &[char], prefix: &str) -> (r: bool)
    ensures
        r == starts_with(s@, prefix@),
{
    let p = chars_of(prefix);
    stands_at(s, p.as_slice(), 0)
}

/// Whether the needle stands somewhere in the text.
pub fn has_text(s: &[char], needle: &str) -> (r: bool)
    ensures
        r == contains(s@, needle@),
{
    let n = chars_of(needle);
    find(s, n.as_slice()).is_some()
}

/// Whether the two texts are the same.
pub fn same_text(a: &str, b: &str) -> (r: bool)
    ensures
        r == (a@ == b@),
{
    let x = a.to_owned();
    let y = b.to_owned();
    x == y
}

/// Whether the list holds the text.
pub fn holds_text(list: &Vec<String>, s: &str) -> (r: bool)
    ensures
        r == views(list@).contains(s@),
{
    for i in 0..list.len()
        invariant
            forall|j: int| 0 <= j < i ==> views(list@)[j] != s@,
    {
        if same_text(list[i].as_str(), s) {
            assert(views(list@)[i as int] == s@);
            return true;
        }
    }
    false
}

/// The position of the first `c`, or the length where there is none.
pub open spec fn first_of(s: Seq<char>, c: char) -> int
    decreases s.len(),
{
    if s.len() == 0 || s[0] == c {
        0
    } else {
        1 + first_of(s.skip(1), c)
    }
}

/// Bounds [`first_of`] and says what stands before and at it.
pub proof fn lemma_first_of(s: Seq<char>, c: char)
    ensures
        0 <= first_of(s, c) <= s.len(),
        first_of(s, c) < s.len() ==> s[first_of(s, c)] == c,
        forall|j: int| 0 <= j < first_of(s, c) ==> s[j] != c,
    decreases s.len(),
{
    if s.len() > 0 && s[0] != c {
        lemma_first_of(s.skip(1), c);
        assert forall|j: int| 0 <= j < first_of(s, c) implies s[j] != c by {
            if j > 0 {
                assert(s.skip(1)[j - 1] == s[j]);
            }
        }
    }
}

/// A position with `c` and none before it is [`first_of`].
pub proof fn lemma_first_of_is(s: Seq<char>, c: char, k: int)
    requires
        0 <= k <= s.len(),
        k < s.len() ==> s[k] == c,
        forall|j: int| 0 <= j < k ==> s[j] != c,
    ensures
        first_of(s, c) == k,
{
    lemma_first_of(s, c);
    let f = first_of(s, c);
    if f < k {
        assert(s[f] != c);
    } else if k < f {
        assert(s[k] != c);
    }
}

/// Finds the first `c` at or after `from`; the length where there is none.
pub fn position_from(s: &[char], c: char, from: usize) -> (r: usize)
    requires
        from <= s@.len(),
    ensures
        r == from + first_of(s@.skip(from as int), c),
        from <= r <= s@.len(),
{
    let mut i = from;
    while i < s.len() && s[i] != c
        invariant
            from <= i <= s@.len(),
            forall|j: int| from <= j < i ==> s@[j] != c,
        decreases s@.len() - i,
    {
        i = i + 1;
    }
    proof {
        lemma_first_of_is(s@.skip(from as int), c, i - from);
    }
    i
}

/// A line that ended in a line feed, without a carriage return at its end.
pub open spec fn strip_cr(line: Seq<char>) -> Seq<char> {
    if line.len() > 0 && line.last() == '\r' {
        line.drop_last()
    } else {
        line
    }
}

/// The lines of a text. A line ends at a line feed, or at a carriage return
/// and a line feed, which do not belong to it; a last line needs no ending.
pub open spec fn lines(s: Seq<char>) -> Seq<Seq<char>>
    decreases s.len(),
    via lines_decreases
{
    if s.len() == 0 {
        Seq::empty()
    } else {
        let k = first_of(s, '\n');
        if k >= s.len() {
            seq![s]
        } else {
            seq![strip_cr(s.take(k))] + lines(s.skip(k + 1))
        }
    }
}

/// What follows a line is shorter.
#[via_fn]
proof fn lines_decreases(s: Seq<char>) {
    lemma_first_of(s, '\n');
}

/// Splits a text into its lines.
pub fn split_lines(s: &[char]) -> (r: Vec<String>)
    ensures
        views(r@) == lines(s@),
{
    let mut r: Vec<String> = Vec::new();
    let mut i: usize = 0;
    assert(s@.skip(0) =~= s@);
    assert(views(r@) + lines(s@) =~= lines(s@));
    while i < s.len()
        invariant
            i <= s@.len(),
            views(r@) + lines(s@.skip(i as int)) == lines(s@),
        decreases s@.len() - i,
    {
        let ghost rest = s@.skip(i as int);
        let k = position_from(s, '\n', i);
        let mut end = k;
        if k < s.len() && k > i && s[k - 1] == '\r' {
            end = k - 1;
        }
        let line = string_of(slice_subrange(s, i, end));
        let ghost before = views(r@);
        r.push(line);
        proof {
            lemma_first_of(rest, '\n');
            assert(views(r@) =~= before.push(line@));
            if k >= s@.len() {
                assert(line@ =~= rest);
                assert(lines(rest) == seq![rest]);
                assert(lines(s@.skip(s@.len() as int)) =~= Seq::empty());
                assert(views(r@) + lines(s@.skip(s@.len() as int)) =~= before + lines(rest));
            } else {
                let cut = rest.take(k - i);
                assert(line@ =~= strip_cr(cut));
                assert(rest.skip(k - i + 1) =~= s@.skip(k + 1));
                assert(views(r@) + lines(s@.skip(k + 1)) =~= before + lines(rest));
            }
        }
        i = if k < s.len() {
            k + 1
        } else {
            k
        };
    }
    assert(lines(s@.skip(i as int)) =~= Seq::empty());
    assert(views(r@) + lines(s@.skip(i as int)) =~= views(r@));
    r
}

// ---------------------------------------------------------------------------
// Order

/// The order of texts by their characters, the first difference deciding; a
/// text comes after its own beginnings.
pub open spec fn text_less(a: Seq<char>, b: Seq<char>) -> bool
    decreases a.len(),
{
    if b.len() == 0 {
        false
    } else if a.len() == 0 {
        true
    } else if a[0] != b[0] {
        a[0] < b[0]
    } else {
        text_less(a.skip(1), b.skip(1))
    }
}

/// No text is less than itself.
pub proof fn lemma_text_less_irreflexive(a: Seq<char>)
    ensures
        !text_less(a, a),
    decreases a.len(),
{
    if a.len() > 0 {
        lemma_text_less_irreflexive(a.skip(1));
    }
}

/// The order of texts is transitive.
pub proof fn lemma_text_less_transitive(a: Seq<char>, b: Seq<char>, c: Seq<char>)
    requires
        text_less(a, b),
        text_less(b, c),
    ensures
        text_less(a, c),
    decreases a.len(),
{
    if a.len() > 0 && b.len() > 0 && c.len() > 0 && a[0] == b[0] && b[0] == c[0] {
        lemma_text_less_transitive(a.skip(1), b.skip(1), c.skip(1));
    }
}

/// Of two different texts one is less than the other.
pub proof fn lemma_text_less_total(a: Seq<char>, b: Seq<char>)
    requires
        !text_less(a, b),
        !text_less(b, a),
    ensures
        a == b,
    decreases a.len(),
{
    if a.len() > 0 && b.len() > 0 {
        lemma_text_less_total(a.skip(1), b.skip(1));
        assert(a =~= seq![a[0]] + a.skip(1));
        assert(b =~= seq![b[0]] + b.skip(1));
    } else {
        assert(a =~= b);
    }
}

/// Decides [`text_less`].
pub fn is_less(a: &str, b: &str) -> (r: bool)
    ensures
        r == text_less(a@, b@),
{
    let x = chars_of(a);
    let y = chars_of(b);
    let mut i: usize = 0;
    assert(x@.skip(0) =~= x@);
    assert(y@.skip(0) =~= y@);
    while i < x.len() && i < y.len() && x[i] == y[i]
        invariant
            i <= x@.len(),
            i <= y@.len(),
            text_less(x@.skip(i as int), y@.skip(i as int)) == text_less(x@, y@),
        decreases x@.len() - i,
    {
        assert(x@.skip(i as int).skip(1) =~= x@.skip(i + 1));
        assert(y@.skip(i as int).skip(1) =~= y@.skip(i + 1));
        i = i + 1;
    }
    if i >= y.len() {
        false
    } else if i >= x.len() {
        true
    } else {
        x[i] < y[i]
    }
}

// ---------------------------------------------------------------------------
// Lists with gaps

/// What there is in a list with gaps, in order.
pub open spec fn given<T>(s: Seq<Option<T>>) -> Seq<T>
    decreases s.len(),
{
    if s.len() == 0 {
        Seq::empty()
    } else {
        match s.last() {
            Some(t) => given(s.drop_last()).push(t),
            None => given(s.drop_last()),
        }
    }
}

/// What stands in the list is not lost.
pub proof fn lemma_given_holds<T>(s: Seq<Option<T>>, i: int)
    requires
        0 <= i < s.len(),
        s[i] is Some,
    ensures
        given(s).contains(s[i]->Some_0),
    decreases s.len(),
{
    let before = given(s.drop_last());
    let all = given(s);
    if i < s.len() - 1 {
        lemma_given_holds(s.drop_last(), i);
        let k = choose|k: int| 0 <= k < before.len() && before[k] == s[i]->Some_0;
        assert(all[k] == s[i]->Some_0);
    } else {
        assert(all[all.len() - 1] == s[i]->Some_0);
    }
}

// ---------------------------------------------------------------------------
// What the operations on texts do

/// Whether every character belongs to the set.
pub open spec fn all_in(s: Seq<char>, set: CharSet) -> bool {
    forall|i: int| 0 <= i < s.len() ==> set.has_char(#[trigger] s[i])
}

/// Characters of the set at the start make no difference to what is left.
pub proof fn lemma_strip_start_padding(w: Seq<char>, s: Seq<char>, set: CharSet)
    requires
        all_in(w, set),
    ensures
        strip_start(w + s, set) == strip_start(s, set),
    decreases w.len(),
{
    if w.len() == 0 {
        assert(w + s =~= s);
    } else {
        assert(set.has_char(w[0]));
        assert((w + s).skip(1) =~= w.skip(1) + s);
        assert forall|i: int| 0 <= i < w.skip(1).len() implies set.has_char(
            #[trigger] w.skip(1)[i],
        ) by {
            assert(set.has_char(w[i + 1]));
        }
        lemma_strip_start_padding(w.skip(1), s, set);
    }
}

/// Characters of the set at the end make no difference to what is left.
pub proof fn lemma_strip_end_padding(s: Seq<char>, w: Seq<char>, set: CharSet)
    requires
        all_in(w, set),
    ensures
        strip_end(s + w, set) == strip_end(s, set),
    decreases w.len(),
{
    if w.len() == 0 {
        assert(s + w =~= s);
    } else {
        assert(set.has_char(w[w.len() - 1]));
        assert((s + w).drop_last() =~= s + w.drop_last());
        assert forall|i: int| 0 <= i < w.drop_last().len() implies set.has_char(
            #[trigger] w.drop_last()[i],
        ) by {
            assert(set.has_char(w[i]));
        }
        lemma_strip_end_padding(s, w.drop_last(), set);
    }
}

/// What stands up to a character outside the set stays when the end is
/// stripped.
pub proof fn lemma_strip_end_keeps(a: Seq<char>, b: Seq<char>, set: CharSet)
    requires
        a.len() > 0,
        !set.has_char(a.last()),
    ensures
        strip_end(a + b, set) == a + strip_end(b, set),
        strip_end(b, set).len() <= b.len(),
        strip_end(b, set) == b.take(strip_end(b, set).len() as int),
    decreases b.len(),
{
    if b.len() == 0 {
        assert(a + b =~= a);
        assert(b.take(0) =~= b);
    } else if set.has_char(b.last()) {
        assert((a + b).drop_last() =~= a + b.drop_last());
        lemma_strip_end_keeps(a, b.drop_last(), set);
        let n = strip_end(b.drop_last(), set).len() as int;
        assert(b.take(n) =~= b.drop_last().take(n));
    } else {
        assert((a + b).last() == b.last());
        assert(b.take(b.len() as int) =~= b);
    }
}

/// Stripping takes off all characters of the set at either end, and nothing
/// else.
pub proof fn law_stripping_takes_off_the_ends(
    before: Seq<char>,
    s: Seq<char>,
    after: Seq<char>,
    set: CharSet,
)
    requires
        all_in(before, set),
        all_in(after, set),
        s.len() > 0 ==> !set.has_char(s[0]) && !set.has_char(s.last()),
    ensures
        strip(before + s + after, set) == s,
{
    lemma_strip_start_padding(before, s + after, set);
    assert(before + s + after =~= before + (s + after));
    if s.len() > 0 {
        assert(strip_start(s + after, set) == s + after);
        lemma_strip_end_padding(s, after, set);
    } else {
        assert(s + after =~= after);
        lemma_strip_start_padding(after, Seq::empty(), set);
        assert(after + Seq::<char>::empty() =~= after);
        assert(strip_start(after, set) =~= Seq::empty());
        assert(s =~= Seq::empty());
    }
}

/// Characters of the set around a text make no difference to what is left of
/// it.
pub proof fn lemma_strip_padding(
    before: Seq<char>,
    s: Seq<char>,
    after: Seq<char>,
    set: CharSet,
)
    requires
        all_in(before, set),
        all_in(after, set),
    ensures
        strip(before + s + after, set) == strip(s, set),
{
    lemma_strip_start_padding(before, s + after, set);
    assert(before + s + after =~= before + (s + after));
    lemma_strip_start_tail(s, after, set);
    if all_in(s, set) {
        lemma_strip_start_padding(s, after, set);
        lemma_strip_start_padding(after, Seq::empty(), set);
        lemma_strip_start_padding(s, Seq::empty(), set);
        assert(after + Seq::<char>::empty() =~= after);
        assert(s + Seq::<char>::empty() =~= s);
    } else {
        lemma_strip_end_padding(strip_start(s, set), after, set);
    }
}

/// Where something stays, stripping the start leaves the tail alone.
proof fn lemma_strip_start_tail(s: Seq<char>, tail: Seq<char>, set: CharSet)
    ensures
        !all_in(s, set) ==> strip_start(s + tail, set) == strip_start(s, set) + tail,
    decreases s.len(),
{
    if !all_in(s, set) {
        assert(s.len() > 0);
        if set.has_char(s[0]) {
            assert((s + tail).skip(1) =~= s.skip(1) + tail);
            if all_in(s.skip(1), set) {
                assert forall|i: int| 0 <= i < s.len() implies set.has_char(#[trigger] s[i]) by {
                    if i > 0 {
                        assert(set.has_char(s.skip(1)[i - 1]));
                    }
                }
            }
            lemma_strip_start_tail(s.skip(1), tail, set);
        }
    }
}

/// A line ends at a line feed, with or without a carriage return before it,
/// which do not belong to it; what follows is read as from the start. A text
/// without a line feed is one line, unless it is empty.
pub proof fn law_lines_end_at_line_feeds(line: Seq<char>, rest: Seq<char>)
    requires
        forall|i: int| 0 <= i < line.len() ==> line[i] != '\n',
    ensures
        lines(line + "\r\n"@ + rest) == seq![line] + lines(rest),
        line.len() == 0 || line.last() != '\r' ==> lines(line + "\n"@ + rest) == seq![line] + lines(
            rest,
        ),
        line.len() > 0 ==> lines(line) == seq![line],
        lines(Seq::empty()).len() == 0,
{
    reveal_strlit("\r\n");
    reveal_strlit("\n");
    let one = line + "\r\n"@ + rest;
    let k = line.len() as int;
    lemma_first_of_is(one, '\n', k + 1);
    assert(one.take(k + 1) =~= line.push('\r'));
    assert(line.push('\r').drop_last() =~= line);
    assert(one.skip(k + 2) =~= rest);
    let other = line + "\n"@ + rest;
    lemma_first_of_is(other, '\n', k);
    assert(other.take(k) =~= line);
    assert(other.skip(k + 1) =~= rest);
    lemma_first_of_is(line, '\n', k);
}

/// Joined parts stand one after the other with the separator between any two.
pub proof fn law_joining_puts_separators_between(
    parts: Seq<Seq<char>>,
    last: Seq<char>,
    sep: Seq<char>,
)
    ensures
        join(Seq::empty(), sep).len() == 0,
        join(seq![last], sep) == last,
        parts.len() > 0 ==> join(parts.push(last), sep) == join(parts, sep) + sep + last,
{
    assert(parts.push(last).drop_last() =~= parts);
}

/// Only the capitals of ASCII are made small, each to its own small letter.
pub proof fn law_only_ascii_capitals_are_made_small(s: Seq<char>)
    ensures
        lower(s).len() == s.len(),
        forall|i: int|
            0 <= i < s.len() && !('A' <= s[i] <= 'Z') ==> #[trigger] lower(s)[i] == s[i],
        forall|i: int|
            0 <= i < s.len() && 'A' <= s[i] <= 'Z' ==> #[trigger] lower(s)[i] as int == s[i] as int
                + 32,
{
}

/// A text holds another exactly where it can be cut before and after it.
pub proof fn law_containing_is_having_as_a_middle(s: Seq<char>, needle: Seq<char>)
    ensures
        contains(s, needle) <==> exists|a: Seq<char>, b: Seq<char>|
            s == #[trigger] (a + needle + b),
        starts_with(s, needle) <==> exists|b: Seq<char>| s == #[trigger] (needle + b),
{
    if contains(s, needle) {
        let i = choose|i: int| occurs_at(s, needle, i);
        let a = s.take(i);
        let b = s.skip(i + needle.len());
        assert(s.subrange(i, i + needle.len()) == needle);
        assert(s =~= a + needle + b);
    }
    if exists|a: Seq<char>, b: Seq<char>| s == #[trigger] (a + needle + b) {
        let (a, b) = choose|a: Seq<char>, b: Seq<char>| s == #[trigger] (a + needle + b);
        assert(s.subrange(a.len() as int, (a.len() + needle.len()) as int) =~= needle);
        assert(occurs_at(s, needle, a.len() as int));
    }
    if starts_with(s, needle) {
        assert(s.subrange(0, needle.len() as int) == needle);
        assert(s =~= needle + s.skip(needle.len() as int));
    }
    if exists|b: Seq<char>| s == #[trigger] (needle + b) {
        let b = choose|b: Seq<char>| s == #[trigger] (needle + b);
        assert(s.subrange(0, needle.len() as int) =~= needle);
    }
}

/// What the beginning of a text holds, the text holds.
pub proof fn lemma_contains_in_beginning(s: Seq<char>, n: int, needle: Seq<char>)
    requires
        0 <= n <= s.len(),
        contains(s.take(n), needle),
    ensures
        contains(s, needle),
{
    let i = choose|i: int| occurs_at(s.take(n), needle, i);
    assert(s.take(n).subrange(i, i + needle.len()) =~= s.subrange(i, i + needle.len()));
    assert(occurs_at(s, needle, i));
}

/// Joining from the front.
pub proof fn lemma_join_front(parts: Seq<Seq<char>>, sep: Seq<char>)
    requires
        parts.len() >= 2,
    ensures
        join(parts, sep) == parts[0] + sep + join(parts.skip(1), sep),
    decreases parts.len(),
{
    let rest = parts.skip(1);
    if parts.len() == 2 {
        assert(parts.drop_last() =~= seq![parts[0]]);
        assert(rest =~= seq![parts[1]]);
        assert(join(seq![parts[0]], sep) == parts[0]);
        assert(join(seq![parts[1]], sep) == parts[1]);
    } else {
        let shorter = parts.drop_last();
        lemma_join_front(shorter, sep);
        assert(shorter.skip(1) =~= rest.drop_last());
        assert(join(parts, sep) =~= parts[0] + sep + join(rest, sep));
    }
}

/// A number is written with its digits, the last one standing for the rest of a
/// division by ten.
pub proof fn law_numbers_are_written_digit_by_digit(n: nat, d: nat)
    requires
        d < 10,
    ensures
        decimal(d) == seq![('0' as int + d) as char],
        n > 0 ==> decimal(10 * n + d) == decimal(n).push(('0' as int + d) as char),
{
    assert(decimal(d) =~= seq![('0' as int + d) as char]);
    if n > 0 {
        assert((10 * n + d) / 10 == n);
        assert((10 * n + d) % 10 == d);
        assert(decimal(10 * n + d) =~= decimal(n).push(('0' as int + d) as char));
    }
}

/// White space is made of twenty-five characters.
pub proof fn law_white_space_is_listed(c: char)
    ensures
        is_white(c) <==> seq![
            0x9u32, 0xa, 0xb, 0xc, 0xd, 0x20, 0x85, 0xa0, 0x1680, 0x2000, 0x2001, 0x2002, 0x2003,
            0x2004, 0x2005, 0x2006, 0x2007, 0x2008, 0x2009, 0x200a, 0x2028, 0x2029, 0x202f, 0x205f,
            0x3000,
        ].contains(c as u32),
{
    let all = seq![
        0x9u32, 0xa, 0xb, 0xc, 0xd, 0x20, 0x85, 0xa0, 0x1680, 0x2000, 0x2001, 0x2002, 0x2003,
        0x2004, 0x2005, 0x2006, 0x2007, 0x2008, 0x2009, 0x200a, 0x2028, 0x2029, 0x202f, 0x205f,
        0x3000,
    ];
    let n = c as u32;
    if is_white(c) {
        let i: int = if n <= 0xd {
            n - 9
        } else if n == 0x20 {
            5
        } else if n == 0x85 {
            6
        } else if n == 0xa0 {
            7
        } else if n == 0x1680 {
            8
        } else if n <= 0x200a {
            9 + (n - 0x2000)
        } else if n == 0x2028 {
            20
        } else if n == 0x2029 {
            21
        } else if n == 0x202f {
            22
        } else if n == 0x205f {
            23
        } else {
            24
        };
        assert(all[i] == n);
    }
}

/// Texts are ordered by the first character in which they differ, and a text
/// comes after its own beginnings.
pub proof fn law_first_difference_decides(
    common: Seq<char>,
    c: char,
    d: char,
    a: Seq<char>,
    b: Seq<char>,
)
    requires
        c != d,
    ensures
        text_less(common + seq![c] + a, common + seq![d] + b) <==> c < d,
        text_less(common, common + seq![d] + b),
        !text_less(common + seq![d] + b, common),
        !text_less(common, common),
    decreases common.len(),
{
    let x = common + seq![c] + a;
    let y = common + seq![d] + b;
    if common.len() > 0 {
        let rest = common.skip(1);
        law_first_difference_decides(rest, c, d, a, b);
        assert(x.skip(1) =~= rest + seq![c] + a);
        assert(y.skip(1) =~= rest + seq![d] + b);
        assert(x[0] == common[0] && y[0] == common[0]);
    } else {
        assert(x[0] == c && y[0] == d);
    }
}

} // verus!
