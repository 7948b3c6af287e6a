//! Updating the `.TH` title line of a man page with a new version and date.

use vstd::prelude::*;
use crate::text::{chars_of, string_of, extend_chars};
use crate::version::{Version, pieces, split_on, is_digit};
use crate::date::{Date, iso_text, month_year_text, month_name};
use crate::tags::placeholder;

verus! {

/// The shell-style words of a line, or `None` where its quoting is broken.
pub uninterp spec fn shell_words(line: Seq<char>) -> Option<Seq<Seq<char>>>;

/// The words joined by single spaces, each quoted as a shell needs it.
pub uninterp spec fn shell_join(words: Seq<Seq<char>>) -> Seq<char>;

pub open spec fn strings_view(ws: Seq<String>) -> Seq<Seq<char>> {
    ws.map_values(|s: String| s@)
}

/// Relies on `shlex::split`: splits a line into words as a POSIX shell
/// would, or gives `None` where the quoting is unbalanced.
#[verifier::external_body]
fn split_words(line: &str) -> (r: Option<Vec<String>>)
    ensures
        match r {
            Some(w) => shell_words(line@) == Some(strings_view(w@)),
            None => shell_words(line@) is None,
        },
{
    shlex::split(line)
}

/// Relies on `shlex::join`: joins words with single spaces, quoting each
/// where a shell needs it.
#[verifier::external_body]
#[allow(deprecated)]
fn join_words(words: &Vec<String>) -> (r: String)
    ensures
        r@ == shell_join(strings_view(words@)),
{
    shlex::join(words.iter().map(|w| w.as_str()))
}

/// Why a man page cannot be updated.
#[derive(Clone, Copy, Debug, PartialEq, Eq, Structural)]
pub enum Error {
    /// No `.TH` line that can take a version was found.
    NoMatches,
}

/// A `YYYY-MM-DD` date of this century's form.
pub open spec fn is_iso_date(f: Seq<char>) -> bool {
    &&& f.len() == 10
    &&& f[0] == '2' && f[1] == '0' && is_digit(f[2]) && is_digit(f[3])
    &&& f[4] == '-' && '0' <= f[5] <= '1' && is_digit(f[6])
    &&& f[7] == '-' && '0' <= f[8] <= '3' && is_digit(f[9])
}

pub open spec fn is_letter(c: char) -> bool {
    ('a' <= c <= 'z') || ('A' <= c <= 'Z')
}

/// A word of letters, a space and a four-digit year, as in `January 2020`.
pub open spec fn is_month_year(f: Seq<char>) -> bool {
    &&& f.len() >= 6
    &&& f[f.len() - 5] == ' '
    &&& forall|i: int| 0 <= i < f.len() - 5 ==> is_letter(#[trigger] f[i])
    &&& forall|i: int| f.len() - 4 <= i < f.len() ==> is_digit(#[trigger] f[i])
}

/// The date field rewritten to `d`, in the form that it already has.
pub open spec fn rewrite_date(f: Seq<char>, d: Date) -> Seq<char> {
    if is_iso_date(f) {
        iso_text(d)
    } else if is_month_year(f) {
        month_year_text(d)
    } else {
        f
    }
}

pub open spec fn in_version_class(c: char) -> bool {
    is_digit(c) || ('a' <= c <= 'z') || c == '.'
}

/// The position of the first space in `f` at or after `p`, or its length.
pub open spec fn next_space(f: Seq<char>, p: int) -> int
    decreases f.len() - p,
{
    if p < 0 || p >= f.len() {
        f.len() as int
    } else if f[p] == ' ' {
        p
    } else {
        next_space(f, p + 1)
    }
}

/// Whether a name token starts at `p`, followed by a space and a character
/// that can begin a version.
pub open spec fn name_version_at(f: Seq<char>, p: int) -> bool {
    &&& 0 <= p < f.len()
    &&& f[p] != ' '
    &&& next_space(f, p) + 1 < f.len()
    &&& in_version_class(f[next_space(f, p) + 1])
}

/// The first position at or after `p` where a name token and a version start.
pub open spec fn first_name_version(f: Seq<char>, p: int) -> Option<int>
    decreases f.len() - p,
{
    if p < 0 || p >= f.len() {
        None
    } else if name_version_at(f, p) {
        Some(p)
    } else {
        first_name_version(f, p + 1)
    }
}

/// The end of the run of version characters in `f` that starts at `i`.
pub open spec fn version_run_end(f: Seq<char>, i: int) -> int
    decreases f.len() - i,
{
    if i < 0 || i >= f.len() {
        f.len() as int
    } else if in_version_class(f[i]) {
        version_run_end(f, i + 1)
    } else {
        i
    }
}

/// The version field with the version token after its first name token
/// replaced by `v`; the text before and after that token is kept.
pub open spec fn rewrite_version(f: Seq<char>, v: Seq<char>) -> Seq<char> {
    match first_name_version(f, 0) {
        Some(p) => {
            let q = next_space(f, p);
            f.take(q) + seq![' '] + v + f.skip(version_run_end(f, q + 1))
        },
        None => f,
    }
}

/// The fields of a `.TH` line with its date and version fields rewritten.
pub open spec fn th_fields(args: Seq<Seq<char>>, v: Seq<char>, d: Date) -> Seq<Seq<char>> {
    args.update(3, rewrite_date(args[3], d)).update(4, rewrite_version(args[4], v))
}

pub open spec fn is_th_line(l: Seq<char>) -> bool {
    l.len() >= 4 && l.take(4) == seq!['.', 'T', 'H', ' ']
}

/// A `.TH` line whose words can be read and which has a version field.
pub open spec fn qualifies(l: Seq<char>) -> bool {
    is_th_line(l) && shell_words(l) is Some && shell_words(l)->0.len() >= 5
}

/// A qualifying `.TH` line whose version field is the placeholder.
pub open spec fn updateable_line(l: Seq<char>) -> bool {
    qualifies(l) && shell_words(l)->0[4] == placeholder()
}

pub open spec fn first_qualifying(ls: Seq<Seq<char>>, i: int) -> Option<int>
    decreases ls.len() - i,
{
    if i < 0 || i >= ls.len() {
        None
    } else if qualifies(ls[i]) {
        Some(i)
    } else {
        first_qualifying(ls, i + 1)
    }
}

/// The lines joined with newlines.
pub open spec fn join_lines(ls: Seq<Seq<char>>) -> Seq<char>
    decreases ls.len(),
{
    if ls.len() == 0 {
        Seq::empty()
    } else if ls.len() == 1 {
        ls[0]
    } else {
        join_lines(ls.drop_last()) + seq!['\n'] + ls.last()
    }
}

/// The page with its first qualifying `.TH` line updated, if it has one.
pub open spec fn updated_manpage(content: Seq<char>, v: Seq<char>, d: Date) -> Option<Seq<char>> {
    let ls = pieces(content, '\n');
    match first_qualifying(ls, 0) {
        None => None,
        Some(i) => Some(join_lines(ls.update(i, shell_join(th_fields(shell_words(ls[i])->0, v, d))))),
    }
}

fn is_digit_char(c: char) -> (r: bool)
    ensures
        r == is_digit(c),
{
    '0' <= c && c <= '9'
}

fn is_iso_date_field(f: &Vec<char>) -> (r: bool)
    ensures
        r == is_iso_date(f@),
{
    f.len() == 10 && f[0] == '2' && f[1] == '0' && is_digit_char(f[2]) && is_digit_char(f[3])
        && f[4] == '-' && '0' <= f[5] && f[5] <= '1' && is_digit_char(f[6]) && f[7] == '-'
        && '0' <= f[8] && f[8] <= '3' && is_digit_char(f[9])
}

fn is_month_year_field(f: &Vec<char>) -> (r: bool)
    ensures
        r == is_month_year(f@),
{
    let n = f.len();
    if n < 6 || f[n - 5] != ' ' {
        return false;
    }
    let mut i: usize = 0;
    while i < n - 5
        invariant
            n == f@.len(),
            n >= 6,
            i <= n - 5,
            forall|j: int| 0 <= j < i ==> is_letter(#[trigger] f@[j]),
        decreases n - 5 - i,
    {
        let c = f[i];
        if !(('a' <= c && c <= 'z') || ('A' <= c && c <= 'Z')) {
            return false;
        }
        i = i + 1;
    }
    let mut i: usize = n - 4;
    while i < n
        invariant
            n == f@.len(),
            n >= 6,
            n - 4 <= i <= n,
            forall|j: int| 0 <= j < n - 5 ==> is_letter(#[trigger] f@[j]),
            forall|j: int| n - 4 <= j < i ==> is_digit(#[trigger] f@[j]),
        decreases n - i,
    {
        if !is_digit_char(f[i]) {
            return false;
        }
        i = i + 1;
    }
    true
}

/// Rewrites a date field to `d`, keeping the form that it has.
pub fn rewrite_date_field(f: &Vec<char>, d: &Date) -> (r: Vec<char>)
    requires
        d.wf(),
    ensures
        r@ == rewrite_date(f@, *d),
{
    if is_iso_date_field(f) {
        d.iso_chars()
    } else if is_month_year_field(f) {
        d.month_year_chars()
    } else {
        f.clone()
    }
}

fn next_space_from(f: &Vec<char>, p: usize) -> (r: usize)
    requires
        p < f@.len(),
    ensures
        r == next_space(f@, p as int),
        p <= r <= f@.len(),
{
    let mut q: usize = p;
    while q < f.len() && f[q] != ' '
        invariant
            p <= q <= f@.len(),
            next_space(f@, p as int) == next_space(f@, q as int),
        decreases f.len() - q,
    {
        q = q + 1;
    }
    q
}

fn version_run_end_from(f: &Vec<char>, i: usize) -> (r: usize)
    requires
        i <= f@.len(),
    ensures
        r == version_run_end(f@, i as int),
        i <= r <= f@.len(),
{
    let mut e: usize = i;
    while e < f.len() && (is_digit_char(f[e]) || ('a' <= f[e] && f[e] <= 'z') || f[e] == '.')
        invariant
            i <= e <= f@.len(),
            version_run_end(f@, i as int) == version_run_end(f@, e as int),
        decreases f.len() - e,
    {
        e = e + 1;
    }
    e
}

/// Replaces the version token that follows the first name token of a
/// version field by `v`, keeping the rest of the field.
pub fn rewrite_version_field(f: &Vec<char>, v: &Vec<char>) -> (r: Vec<char>)
    ensures
        r@ == rewrite_version(f@, v@),
{
    let mut p: usize = 0;
    while p < f.len()
        invariant
            p <= f@.len(),
            first_name_version(f@, 0) == first_name_version(f@, p as int),
        decreases f.len() - p,
    {
        if f[p] != ' ' {
            let q = next_space_from(f, p);
            if q < f.len() && q + 1 < f.len() {
                let c = f[q + 1];
                if is_digit_char(c) || ('a' <= c && c <= 'z') || c == '.' {
                    let e = version_run_end_from(f, q + 1);
                    let mut out: Vec<char> = Vec::new();
                    let mut k: usize = 0;
                    while k < q
                        invariant
                            k <= q,
                            q < f@.len(),
                            out@ == f@.take(k as int),
                        decreases q - k,
                    {
                        out.push(f[k]);
                        k = k + 1;
                        assert(out@ =~= f@.take(k as int));
                    }
                    out.push(' ');
                    extend_chars(&mut out, v);
                    let ghost mid = out@;
                    let mut k: usize = e;
                    while k < f.len()
                        invariant
                            e <= k <= f@.len(),
                            out@ == mid + f@.subrange(e as int, k as int),
                        decreases f.len() - k,
                    {
                        out.push(f[k]);
                        k = k + 1;
                        assert(out@ =~= mid + f@.subrange(e as int, k as int));
                    }
                    assert(name_version_at(f@, p as int));
                    assert(f@.subrange(e as int, f@.len() as int) =~= f@.skip(e as int));
                    return out;
                }
            }
        }
        p = p + 1;
    }
    f.clone()
}

/// The fields of a `.TH` line with the date field (the fourth) set to
/// `release_date` in its present form and, in the version field (the
/// fifth), the version token after the name token set to `new_version`.
pub fn update_th_fields(args: &Vec<String>, new_version: &Version, release_date: &Date) -> (r: Vec<String>)
    requires
        args@.len() >= 5,
        release_date.wf(),
    ensures
        strings_view(r@) == th_fields(strings_view(args@), new_version.text(), *release_date),
{
    let vt = chars_of(new_version.to_string().as_str());
    let mut out: Vec<String> = Vec::new();
    let mut j: usize = 0;
    let ghost want = th_fields(strings_view(args@), new_version.text(), *release_date);
    while j < args.len()
        invariant
            j <= args@.len(),
            args@.len() >= 5,
            release_date.wf(),
            vt@ == new_version.text(),
            want == th_fields(strings_view(args@), new_version.text(), *release_date),
            out@.len() == j,
            forall|k: int| 0 <= k < j ==> (#[trigger] out@[k])@ == want[k],
        decreases args.len() - j,
    {
        let f = chars_of(args[j].as_str());
        let nf = if j == 3 {
            rewrite_date_field(&f, release_date)
        } else if j == 4 {
            rewrite_version_field(&f, &vt)
        } else {
            f
        };
        out.push(string_of(&nf));
        j = j + 1;
    }
    assert(strings_view(out@) =~= want);
    out
}

fn starts_th(l: &Vec<char>) -> (r: bool)
    ensures
        r == is_th_line(l@),
{
    let r = l.len() >= 4 && l[0] == '.' && l[1] == 'T' && l[2] == 'H' && l[3] == ' ';
    if l.len() >= 4 {
        assert(r == (l@.take(4) =~= seq!['.', 'T', 'H', ' ']));
    }
    r
}

fn join_all(ls: &Vec<Vec<char>>) -> (r: Vec<char>)
    ensures
        r@ == join_lines(ls@.map_values(|l: Vec<char>| l@)),
{
    let ghost vs = ls@.map_values(|l: Vec<char>| l@);
    let mut out: Vec<char> = Vec::new();
    let mut i: usize = 0;
    while i < ls.len()
        invariant
            i <= ls@.len(),
            vs == ls@.map_values(|l: Vec<char>| l@),
            out@ == join_lines(vs.take(i as int)),
        decreases ls.len() - i,
    {
        if i > 0 {
            out.push('\n');
        }
        extend_chars(&mut out, &ls[i]);
        i = i + 1;
        assert(vs.take(i as int).drop_last() =~= vs.take(i - 1));
    }
    assert(vs.take(ls@.len() as int) =~= vs);
    out
}

/// Checks that some `.TH` line of the page carries the version placeholder
/// as its version field, so that the page can be updated later.
pub fn validate_manpage_updateable(content: &str) -> (r: Result<(), Error>)
    ensures
        r is Ok <==> exists|i: int| 0 <= i < pieces(content@, '\n').len()
            && updateable_line(#[trigger] pieces(content@, '\n')[i]),
        r is Err ==> r == Err::<(), Error>(Error::NoMatches),
{
    let t = chars_of(content);
    let ls = split_on(&t, '\n');
    let ghost ps = pieces(content@, '\n');
    let ph = chars_of("$VERSION");
    proof { reveal_strlit("$VERSION"); }
    assert(ph@ =~= placeholder());
    let mut i: usize = 0;
    while i < ls.len()
        invariant
            i <= ls@.len(),
            ph@ == placeholder(),
            ps == pieces(content@, '\n'),
            ls@.len() == ps.len(),
            forall|k: int| 0 <= k < ls@.len() ==> (#[trigger] ls@[k])@ == ps[k],
            forall|k: int| 0 <= k < i ==> !updateable_line(#[trigger] ps[k]),
        decreases ls.len() - i,
    {
        if starts_th(&ls[i]) {
            let line = string_of(&ls[i]);
            match split_words(line.as_str()) {
                None => {},
                Some(words) => {
                    if words.len() >= 5 {
                        let w4 = chars_of(words[4].as_str());
                        if w4.len() == ph.len() {
                            let mut k: usize = 0;
                            let mut same = true;
                            while k < ph.len()
                                invariant
                                    w4@.len() == ph@.len(),
                                    k <= ph@.len(),
                                    same == (forall|j: int| 0 <= j < k ==> w4@[j] == ph@[j]),
                                decreases ph.len() - k,
                            {
                                if w4[k] != ph[k] {
                                    same = false;
                                }
                                k = k + 1;
                            }
                            if same {
                                assert(w4@ =~= ph@);
                                assert(updateable_line(ps[i as int]));
                                return Ok(());
                            }
                        }
                    }
                },
            }
        }
        i = i + 1;
    }
    Err(Error::NoMatches)
}

/// Updates the first `.TH` line that has a version field: its date field
/// takes `release_date` in the form it had and its version field takes
/// `new_version` after the name token. All other lines stay as they are.
pub fn update_version_in_manpage(content: &str, new_version: &Version, release_date: &Date) -> (r: Result<String, Error>)
    requires
        release_date.wf(),
    ensures
        match updated_manpage(content@, new_version.text(), *release_date) {
            Some(t) => (r matches Ok(s) && s@ == t),
            None => r == Err::<String, Error>(Error::NoMatches),
        },
{
    let t = chars_of(content);
    let mut ls = split_on(&t, '\n');
    let ghost ps = pieces(content@, '\n');
    let mut i: usize = 0;
    while i < ls.len()
        invariant
            i <= ls@.len(),
            release_date.wf(),
            ps == pieces(content@, '\n'),
            ls@.len() == ps.len(),
            forall|k: int| 0 <= k < ls@.len() ==> (#[trigger] ls@[k])@ == ps[k],
            first_qualifying(ps, 0) == first_qualifying(ps, i as int),
        decreases ls.len() - i,
    {
        if starts_th(&ls[i]) {
            let line = string_of(&ls[i]);
            match split_words(line.as_str()) {
                None => {},
                Some(words) => {
                    if words.len() >= 5 {
                        assert(qualifies(ps[i as int]));
                        let nw = update_th_fields(&words, new_version, release_date);
                        let joined = join_words(&nw);
                        let nl = chars_of(joined.as_str());
                        ls.set(i, nl);
                        let out = join_all(&ls);
                        let ghost want = ps.update(i as int, shell_join(th_fields(shell_words(ps[i as int])->0, new_version.text(), *release_date)));
                        assert(ls@.map_values(|l: Vec<char>| l@) =~= want);
                        return Ok(string_of(&out));
                    }
                },
            }
        }
        i = i + 1;
    }
    Err(Error::NoMatches)
}

/// Law: rewriting a date field twice with the same date gives the same
/// field as rewriting it once; the form of the field is kept.
pub proof fn lemma_rewrite_date_idempotent(f: Seq<char>, d: Date)
    requires
        d.wf(),
    ensures
        rewrite_date(rewrite_date(f, d), d) == rewrite_date(f, d),
{
    let t = iso_text(d);
    assert(t[5] != ' ');
    assert(!is_month_year(t));
    let m = month_year_text(d);
    let name = month_name(d.month);
    assert(name.len() >= 3 && name[0] != '2');
    assert(forall|i: int| 0 <= i < name.len() ==> is_letter(#[trigger] name[i]));
    assert(m.len() == name.len() + 5);
    assert forall|i: int| 0 <= i < m.len() - 5 implies is_letter(#[trigger] m[i]) by {
        assert(m[i] == name[i]);
    }
    assert(is_month_year(m));
    assert(!is_iso_date(m));
}

proof fn lemma_next_space_facts(f: Seq<char>, j: int)
    requires
        0 <= j <= f.len(),
    ensures
        j <= next_space(f, j) <= f.len(),
        forall|k: int| j <= k < next_space(f, j) ==> f[k] != ' ',
        next_space(f, j) < f.len() ==> f[next_space(f, j)] == ' ',
    decreases f.len() - j,
{
    if j < f.len() && f[j] != ' ' {
        lemma_next_space_facts(f, j + 1);
    }
}

proof fn lemma_next_space_at(f: Seq<char>, j: int, s: int)
    requires
        0 <= j <= s < f.len(),
        f[s] == ' ',
        forall|k: int| j <= k < s ==> f[k] != ' ',
    ensures
        next_space(f, j) == s,
    decreases s - j,
{
    if j < s {
        lemma_next_space_at(f, j + 1, s);
    }
}

proof fn lemma_first_facts(f: Seq<char>, i: int)
    requires
        0 <= i,
        first_name_version(f, i) is Some,
    ensures
        i <= first_name_version(f, i)->0,
        name_version_at(f, first_name_version(f, i)->0),
        forall|j: int| i <= j < first_name_version(f, i)->0 ==> !name_version_at(f, j),
    decreases f.len() - i,
{
    if i < f.len() && !name_version_at(f, i) {
        lemma_first_facts(f, i + 1);
    }
}

proof fn lemma_first_at(f: Seq<char>, i: int, p: int)
    requires
        0 <= i <= p,
        name_version_at(f, p),
        forall|j: int| i <= j < p ==> !name_version_at(f, j),
    ensures
        first_name_version(f, i) == Some(p),
    decreases p - i,
{
    if i < p {
        lemma_first_at(f, i + 1, p);
    }
}

proof fn lemma_run_end_facts(f: Seq<char>, i: int)
    requires
        0 <= i <= f.len(),
    ensures
        i <= version_run_end(f, i) <= f.len(),
        version_run_end(f, i) < f.len() ==> !in_version_class(f[version_run_end(f, i)]),
    decreases f.len() - i,
{
    if i < f.len() && in_version_class(f[i]) {
        lemma_run_end_facts(f, i + 1);
    }
}

proof fn lemma_run_end_at(f: Seq<char>, i: int, e: int)
    requires
        0 <= i <= e <= f.len(),
        forall|k: int| i <= k < e ==> in_version_class(#[trigger] f[k]),
        e < f.len() ==> !in_version_class(f[e]),
    ensures
        version_run_end(f, i) == e,
    decreases e - i,
{
    if i < e {
        lemma_run_end_at(f, i + 1, e);
    }
}

/// Law: rewriting a version field twice with the same version text gives
/// the same field as rewriting it once, where that text is made of version
/// characters only (digits, lower-case letters and dots).
pub proof fn lemma_rewrite_version_idempotent(f: Seq<char>, v: Seq<char>)
    requires
        v.len() > 0,
        forall|i: int| 0 <= i < v.len() ==> in_version_class(#[trigger] v[i]),
    ensures
        rewrite_version(rewrite_version(f, v), v) == rewrite_version(f, v),
{
    if let Some(p) = first_name_version(f, 0) {
        lemma_first_facts(f, 0);
        let q = next_space(f, p);
        lemma_next_space_facts(f, p);
        lemma_run_end_facts(f, q + 1);
        let e = version_run_end(f, q + 1);
        let g = f.take(q) + seq![' '] + v + f.skip(e);
        assert(g[q] == ' ');
        assert forall|k: int| 0 <= k < q implies g[k] == f[k] by {}
        assert forall|j: int| 0 <= j < p implies !name_version_at(g, j) by {
            assert(!name_version_at(f, j));
            assert(g[j] == f[j]);
            if g[j] != ' ' {
                lemma_next_space_facts(f, j);
                let s = next_space(f, j);
                if s > q {
                    assert(f[q] == ' ');
                    assert(false);
                }
                if s == q {
                    lemma_next_space_at(g, j, q);
                    assert(name_version_at(f, j));
                } else {
                    assert(g[s] == ' ');
                    lemma_next_space_at(g, j, s);
                    if s + 1 < q {
                        assert(g[s + 1] == f[s + 1]);
                    } else {
                        assert(g[s + 1] == ' ');
                        assert(f[s + 1] == ' ');
                    }
                }
            }
        }
        lemma_next_space_at(g, p, q);
        assert(g[q + 1] == v[0]);
        assert(name_version_at(g, p));
        lemma_first_at(g, 0, p);
        let e2 = q + 1 + v.len();
        assert forall|k: int| q + 1 <= k < e2 implies in_version_class(#[trigger] g[k]) by {
            assert(g[k] == v[k - q - 1]);
        }
        if e2 < g.len() {
            assert(g[e2] == f[e]);
        }
        lemma_run_end_at(g, q + 1, e2);
        assert(g.take(q) =~= f.take(q));
        assert(g.skip(e2) =~= f.skip(e));
        assert(g.take(q) + seq![' '] + v + g.skip(e2) =~= g);
    }
}

/// Law: updating the fields of a `.TH` line twice with the same version
/// text and date gives the same fields as updating them once, where the
/// version text is made of version characters only.
pub proof fn lemma_th_fields_idempotent(args: Seq<Seq<char>>, v: Seq<char>, d: Date)
    requires
        args.len() >= 5,
        v.len() > 0,
        forall|i: int| 0 <= i < v.len() ==> in_version_class(#[trigger] v[i]),
        d.wf(),
    ensures
        th_fields(th_fields(args, v, d), v, d) == th_fields(args, v, d),
{
    lemma_rewrite_version_idempotent(args[4], v);
    lemma_rewrite_date_idempotent(args[3], d);
    assert(th_fields(th_fields(args, v, d), v, d) =~= th_fields(args, v, d));
}

} // verus!
