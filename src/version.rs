//! Version identifiers: parsing, ordering, incrementing and tag names.

use vstd::prelude::*;
use core::cmp::Ordering;
use crate::text::{chars_of, string_of, extend_chars};

verus! {

/// A version: a sequence of numeric components, most significant first,
/// and an optional pre-release suffix (the text after a `-`).
#[derive(Clone, Debug)]
pub struct Version {
    pub components: Vec<u64>,
    pub pre: Option<String>,
}

impl Version {
    /// The components and the pre-release suffix.
    pub open spec fn full(&self) -> (Seq<u64>, Option<Seq<char>>) {
        (self.components@, match self.pre {
            Some(p) => Some(p@),
            None => None,
        })
    }

    /// The version's text.
    pub open spec fn text(&self) -> Seq<char> {
        full_text(self.full())
    }
}

impl View for Version {
    type V = Seq<u64>;

    open spec fn view(&self) -> Seq<u64> {
        self.components@
    }
}

/// Why a version could not be produced.
#[derive(Clone, Copy, Debug, PartialEq, Eq, Structural)]
pub enum VersionError {
    /// The text is not a well-formed version.
    Malformed,
    /// Decrementing would take a component below zero.
    NoPriorVersion,
}

/// How tolerant parsing is of decorations around the numbers.
#[derive(Clone, Copy, Debug, PartialEq, Eq, Structural)]
pub enum Dialect {
    /// Dot-separated numbers as found in package manifests.
    Manifest,
    /// As `Manifest`, but a single leading `v` is allowed and dropped.
    Tag,
}

pub open spec fn is_digit(c: char) -> bool {
    '0' <= c && c <= '9'
}

pub open spec fn digit_value(c: char) -> nat {
    (c as u32 - '0' as u32) as nat
}

/// The number written in decimal by the digits `d`.
pub open spec fn digits_value(d: Seq<char>) -> nat
    decreases d.len(),
{
    if d.len() == 0 {
        0
    } else {
        digits_value(d.drop_last()) * 10 + digit_value(d.last())
    }
}

/// The pieces of `t` between occurrences of `sep` (always at least one,
/// possibly empty).
pub open spec fn pieces(t: Seq<char>, sep: char) -> Seq<Seq<char>>
    decreases t.len(),
{
    if t.len() == 0 {
        seq![Seq::<char>::empty()]
    } else {
        let f = pieces(t.drop_last(), sep);
        if t.last() == sep {
            f.push(Seq::<char>::empty())
        } else {
            f.update(f.len() - 1, f.last().push(t.last()))
        }
    }
}

/// A field is a non-empty run of digits whose value fits in 64 bits.
pub open spec fn valid_field(f: Seq<char>) -> bool {
    &&& f.len() > 0
    &&& forall|i: int| 0 <= i < f.len() ==> is_digit(#[trigger] f[i])
    &&& digits_value(f) <= u64::MAX
}

/// The text with the decoration that the dialect allows removed.
pub open spec fn undecorated(t: Seq<char>, dialect: Dialect) -> Seq<char> {
    if dialect == Dialect::Tag && t.len() > 0 && t[0] == 'v' {
        t.skip(1)
    } else {
        t
    }
}

/// The components that the dot-separated numbers `t` denote.
pub open spec fn numbers_spec(t: Seq<char>) -> Option<Seq<u64>> {
    let fs = pieces(t, '.');
    if forall|i: int| 0 <= i < fs.len() ==> valid_field(#[trigger] fs[i]) {
        Some(fs.map_values(|f: Seq<char>| digits_value(f) as u64))
    } else {
        None
    }
}

/// The position of the first `-` in `t` at or after `i`.
pub open spec fn first_dash(t: Seq<char>, i: int) -> Option<int>
    decreases t.len() - i,
{
    if i < 0 || i >= t.len() {
        None
    } else if t[i] == '-' {
        Some(i)
    } else {
        first_dash(t, i + 1)
    }
}

/// A character that a pre-release suffix may hold.
pub open spec fn is_suffix_char(c: char) -> bool {
    is_digit(c) || ('a' <= c <= 'z') || ('A' <= c <= 'Z') || c == '.' || c == '-'
}

pub open spec fn valid_suffix(p: Seq<char>) -> bool {
    p.len() > 0 && forall|i: int| 0 <= i < p.len() ==> is_suffix_char(#[trigger] p[i])
}

/// The components and pre-release suffix that `t` denotes, if it is a
/// well-formed version: numbers separated by dots, optionally followed by
/// a `-` and a non-empty suffix.
pub open spec fn parse_spec(t: Seq<char>, dialect: Dialect) -> Option<(Seq<u64>, Option<Seq<char>>)> {
    let u = undecorated(t, dialect);
    match first_dash(u, 0) {
        None => match numbers_spec(u) {
            Some(c) => Some((c, None)),
            None => None,
        },
        Some(i) => match numbers_spec(u.take(i)) {
            Some(c) => if valid_suffix(u.skip(i + 1)) { Some((c, Some(u.skip(i + 1)))) } else { None },
            None => None,
        },
    }
}

/// The text of a version with its pre-release suffix, if any.
pub open spec fn full_text(v: (Seq<u64>, Option<Seq<char>>)) -> Seq<char> {
    match v.1 {
        Some(p) => version_text(v.0) + seq!['-'] + p,
        None => version_text(v.0),
    }
}

/// Lexicographic order of two suffixes from position `k` on.
pub open spec fn lex_from(a: Seq<char>, b: Seq<char>, k: nat) -> Ordering
    decreases (if a.len() > b.len() { a.len() } else { b.len() }) - k,
{
    if k >= a.len() && k >= b.len() {
        Ordering::Equal
    } else if k >= a.len() {
        Ordering::Less
    } else if k >= b.len() {
        Ordering::Greater
    } else if a[k as int] < b[k as int] {
        Ordering::Less
    } else if a[k as int] > b[k as int] {
        Ordering::Greater
    } else {
        lex_from(a, b, k + 1)
    }
}

/// Order of pre-release suffixes: a pre-release comes before the release.
pub open spec fn pre_order(a: Option<Seq<char>>, b: Option<Seq<char>>) -> Ordering {
    match (a, b) {
        (None, None) => Ordering::Equal,
        (None, Some(_)) => Ordering::Greater,
        (Some(_), None) => Ordering::Less,
        (Some(x), Some(y)) => lex_from(x, y, 0),
    }
}

/// Order of versions: by components, then by pre-release suffix.
pub open spec fn compare_full(a: (Seq<u64>, Option<Seq<char>>), b: (Seq<u64>, Option<Seq<char>>)) -> Ordering {
    match compare_spec(a.0, b.0) {
        Ordering::Equal => pre_order(a.1, b.1),
        o => o,
    }
}

/// The decimal digits of `n`, without leading zeros.
pub open spec fn decimal(n: nat) -> Seq<char>
    decreases n,
{
    let d = (('0' as u32) + (n % 10) as u32) as char;
    if n < 10 {
        seq![d]
    } else {
        decimal(n / 10).push(d)
    }
}

/// The text of a version: its components in decimal, separated by dots.
pub open spec fn version_text(v: Seq<u64>) -> Seq<char>
    decreases v.len(),
{
    if v.len() == 0 {
        Seq::empty()
    } else if v.len() == 1 {
        decimal(v[0] as nat)
    } else {
        version_text(v.drop_last()).push('.') + decimal(v.last() as nat)
    }
}

/// Component `i` of `v`, where missing components count as zero.
pub open spec fn component(v: Seq<u64>, i: int) -> u64 {
    if 0 <= i < v.len() {
        v[i]
    } else {
        0
    }
}

/// The opposite ordering.
pub open spec fn flip(o: Ordering) -> Ordering {
    match o {
        Ordering::Less => Ordering::Greater,
        Ordering::Equal => Ordering::Equal,
        Ordering::Greater => Ordering::Less,
    }
}

/// Comparison of `a` and `b` from component `k` on.
pub open spec fn compare_from(a: Seq<u64>, b: Seq<u64>, k: nat) -> Ordering
    decreases (if a.len() > b.len() { a.len() } else { b.len() }) - k,
{
    if k >= a.len() && k >= b.len() {
        Ordering::Equal
    } else if component(a, k as int) < component(b, k as int) {
        Ordering::Less
    } else if component(a, k as int) > component(b, k as int) {
        Ordering::Greater
    } else {
        compare_from(a, b, k + 1)
    }
}

/// Componentwise order, the shorter version padded with zeros.
pub open spec fn compare_spec(a: Seq<u64>, b: Seq<u64>) -> Ordering {
    compare_from(a, b, 0)
}

/// `v` with `delta` added at `index`; when `delta` is positive the later
/// components restart at zero.
pub open spec fn increment_spec(v: Seq<u64>, index: int, delta: int) -> Seq<u64> {
    Seq::new(
        v.len(),
        |j: int|
            if j < index {
                v[j]
            } else if j == index {
                (v[j] + delta) as u64
            } else if delta > 0 {
                0u64
            } else {
                v[j]
            },
    )
}

/// Splits `t` at each occurrence of `sep`.
pub fn split_on(t: &Vec<char>, sep: char) -> (r: Vec<Vec<char>>)
    ensures
        r@.len() == pieces(t@, sep).len(),
        forall|i: int| 0 <= i < r@.len() ==> (#[trigger] r@[i])@ == pieces(t@, sep)[i],
{
    let mut r: Vec<Vec<char>> = Vec::new();
    r.push(Vec::new());
    let mut i: usize = 0;
    assert(t@.take(0) =~= Seq::<char>::empty());
    while i < t.len()
        invariant
            i <= t.len(),
            r@.len() == pieces(t@.take(i as int), sep).len(),
            r@.len() > 0,
            forall|k: int| 0 <= k < r@.len() ==> (#[trigger] r@[k])@ == pieces(t@.take(i as int), sep)[k],
        decreases t.len() - i,
    {
        let c = t[i];
        let ghost prev = t@.take(i as int);
        assert(t@.take(i + 1).drop_last() =~= prev);
        if c == sep {
            r.push(Vec::new());
        } else {
            let last = r.len() - 1;
            let mut f = r.pop().unwrap();
            f.push(c);
            r.push(f);
            assert(r@.len() - 1 == last);
        }
        i = i + 1;
    }
    assert(t@.take(t@.len() as int) =~= t@);
    r
}

proof fn lemma_digits_monotone(f: Seq<char>, i: int, j: int)
    requires
        0 <= i <= j <= f.len(),
    ensures
        digits_value(f.take(i)) <= digits_value(f.take(j)),
    decreases j - i,
{
    if i < j {
        lemma_digits_monotone(f, i, j - 1);
        assert(f.take(j).drop_last() =~= f.take(j - 1));
    }
}

/// The value of a field, if it is a valid one.
fn field_value(f: &Vec<char>) -> (r: Option<u64>)
    ensures
        r == (if valid_field(f@) { Some(digits_value(f@) as u64) } else { None::<u64> }),
{
    if f.len() == 0 {
        return None;
    }
    let mut v: u64 = 0;
    let mut i: usize = 0;
    while i < f.len()
        invariant
            i <= f.len(),
            v as nat == digits_value(f@.take(i as int)),
            forall|k: int| 0 <= k < i ==> is_digit(#[trigger] f@[k]),
        decreases f.len() - i,
    {
        let c = f[i];
        assert(f@.take(i + 1).drop_last() =~= f@.take(i as int));
        if !('0' <= c && c <= '9') {
            return None;
        }
        let d = (c as u32 - '0' as u32) as u64;
        if v > (u64::MAX - d) / 10 {
            proof {
                lemma_digits_monotone(f@, i + 1, f@.len() as int);
                assert(f@.take(f@.len() as int) =~= f@);
            }
            return None;
        }
        v = v * 10 + d;
        i = i + 1;
    }
    assert(f@.take(f@.len() as int) =~= f@);
    Some(v)
}

/// The components that the dot-separated numbers `t` denote.
fn parse_numbers(t: &Vec<char>) -> (r: Option<Vec<u64>>)
    ensures
        match numbers_spec(t@) {
            Some(c) => (r matches Some(v) && v@ == c),
            None => r is None,
        },
{
    let fs = split_on(&t, '.');
    let mut comps: Vec<u64> = Vec::new();
    let mut k: usize = 0;
    while k < fs.len()
        invariant
            k <= fs@.len(),
            fs@.len() == pieces(t@, '.').len(),
            forall|i: int| 0 <= i < fs@.len() ==> (#[trigger] fs@[i])@ == pieces(t@, '.')[i],
            comps@.len() == k,
            forall|i: int| 0 <= i < k ==> valid_field(#[trigger] pieces(t@, '.')[i]),
            forall|i: int| 0 <= i < k ==> comps@[i] == digits_value(#[trigger] pieces(t@, '.')[i]) as u64,
        decreases fs.len() - k,
    {
        match field_value(&fs[k]) {
            Some(v) => comps.push(v),
            None => {
                assert(!valid_field(pieces(t@, '.')[k as int]));
                return None;
            }
        }
        k = k + 1;
    }
    let ghost want = pieces(t@, '.').map_values(|f: Seq<char>| digits_value(f) as u64);
    assert(comps@ =~= want);
    Some(comps)
}

/// Parses a version: dot-separated numbers, optionally followed by a `-`
/// and a pre-release suffix.
#[verifier::loop_isolation(false)]
pub fn parse(s: &str, dialect: Dialect) -> (r: Result<Version, VersionError>)
    ensures
        match parse_spec(s@, dialect) {
            Some(c) => (r matches Ok(v) && v.full() == c),
            None => r == Err::<Version, VersionError>(VersionError::Malformed),
        },
{
    let all = chars_of(s);
    let mut t: Vec<char> = Vec::new();
    let mut start: usize = 0;
    if dialect == Dialect::Tag && all.len() > 0 && all[0] == 'v' {
        start = 1;
    }
    let mut i: usize = start;
    while i < all.len()
        invariant
            start <= i <= all.len(),
            t@ == all@.subrange(start as int, i as int),
        decreases all.len() - i,
    {
        t.push(all[i]);
        i = i + 1;
        assert(t@ =~= all@.subrange(start as int, i as int));
    }
    assert(t@ =~= undecorated(s@, dialect));
    let mut d: usize = 0;
    while d < t.len() && t[d] != '-'
        invariant
            d <= t@.len(),
            first_dash(t@, 0) == first_dash(t@, d as int),
        decreases t.len() - d,
    {
        d = d + 1;
    }
    let mut num: Vec<char> = Vec::new();
    let mut k: usize = 0;
    while k < d
        invariant
            k <= d <= t@.len(),
            num@ == t@.take(k as int),
        decreases d - k,
    {
        num.push(t[k]);
        k = k + 1;
        assert(num@ =~= t@.take(k as int));
    }
    if d == t.len() {
        assert(num@ =~= t@);
    }
    let comps = match parse_numbers(&num) {
        Some(c) => c,
        None => {
            return Err(VersionError::Malformed);
        },
    };
    if d == t.len() {
        return Ok(Version { components: comps, pre: None });
    }
    let mut suf: Vec<char> = Vec::new();
    let mut k: usize = d + 1;
    while k < t.len()
        invariant
            d < t@.len(),
            d + 1 <= k <= t@.len(),
            suf@ == t@.subrange(d + 1, k as int),
            forall|j: int| 0 <= j < suf@.len() ==> is_suffix_char(#[trigger] suf@[j]),
        decreases t.len() - k,
    {
        let c = t[k];
        if !(('0' <= c && c <= '9') || ('a' <= c && c <= 'z') || ('A' <= c && c <= 'Z') || c == '.' || c == '-') {
            assert(t@.skip(d + 1)[k - (d + 1)] == c);
            assert(!is_suffix_char(c));
            assert(first_dash(t@, 0) == Some(d as int));
            return Err(VersionError::Malformed);
        }
        suf.push(c);
        k = k + 1;
        assert(suf@ =~= t@.subrange(d + 1, k as int));
    }
    assert(suf@ =~= t@.skip(d + 1));
    if suf.len() == 0 {
        return Err(VersionError::Malformed);
    }
    Ok(Version { components: comps, pre: Some(string_of(&suf)) })
}

/// The decimal digits of `n`.
fn decimal_chars(n: u64) -> (r: Vec<char>)
    ensures
        r@ == decimal(n as nat),
    decreases n,
{
    let d = (('0' as u32) + (n % 10) as u32) as u8 as char;
    assert(d == (('0' as u32) + ((n as nat) % 10) as u32) as char);
    if n < 10 {
        vec![d]
    } else {
        let mut r = decimal_chars(n / 10);
        r.push(d);
        r
    }
}

impl Version {
    /// The version's text: its components in decimal, separated by dots.
    pub fn to_string(&self) -> (r: String)
        ensures
            r@ == self.text(),
    {
        let mut out: Vec<char> = Vec::new();
        let mut i: usize = 0;
        while i < self.components.len()
            invariant
                i <= self@.len(),
                out@ == version_text(self@.take(i as int)),
            decreases self@.len() - i,
        {
            let d = decimal_chars(self.components[i]);
            if i > 0 {
                out.push('.');
            }
            extend_chars(&mut out, &d);
            i = i + 1;
            assert(self@.take(i as int).drop_last() =~= self@.take(i - 1));
        }
        assert(self@.take(self@.len() as int) =~= self@);
        match &self.pre {
            Some(p) => {
                out.push('-');
                let pc = chars_of(p.as_str());
                extend_chars(&mut out, &pc);
                assert(out@ =~= self.text());
            },
            None => {},
        }
        string_of(&out)
    }
}

proof fn lemma_compare_from_start(a: Seq<u64>, b: Seq<u64>, k: nat)
    requires
        forall|j: int| 0 <= j < k ==> component(a, j) == component(b, j),
    ensures
        compare_from(a, b, 0) == compare_from(a, b, k),
    decreases k,
{
    if k > 0 {
        lemma_compare_from_start(a, b, (k - 1) as nat);
        assert(component(a, k - 1) == component(b, k - 1));
    }
}

/// Compares the components of two versions; missing ones count as zero.
pub fn compare_components(a: &Version, b: &Version) -> (r: Ordering)
    ensures
        r == compare_spec(a@, b@),
{
    let n = if a.components.len() > b.components.len() {
        a.components.len()
    } else {
        b.components.len()
    };
    let mut k: usize = 0;
    while k < n
        invariant
            n == (if a@.len() > b@.len() { a@.len() } else { b@.len() }),
            k <= n,
            forall|j: int| 0 <= j < k ==> component(a@, j) == component(b@, j),
        decreases n - k,
    {
        let x = if k < a.components.len() { a.components[k] } else { 0 };
        let y = if k < b.components.len() { b.components[k] } else { 0 };
        if x < y {
            proof { lemma_compare_from_start(a@, b@, k as nat); }
            return Ordering::Less;
        }
        if x > y {
            proof { lemma_compare_from_start(a@, b@, k as nat); }
            return Ordering::Greater;
        }
        k = k + 1;
    }
    proof { lemma_compare_from_start(a@, b@, k as nat); }
    Ordering::Equal
}

fn lex_compare(a: &Vec<char>, b: &Vec<char>) -> (r: Ordering)
    ensures
        r == lex_from(a@, b@, 0),
{
    let mut k: usize = 0;
    while k < a.len() && k < b.len() && a[k] == b[k]
        invariant
            k <= a@.len() && k <= b@.len(),
            lex_from(a@, b@, 0) == lex_from(a@, b@, k as nat),
        decreases a.len() - k,
    {
        k = k + 1;
    }
    if k >= a.len() && k >= b.len() {
        Ordering::Equal
    } else if k >= a.len() {
        Ordering::Less
    } else if k >= b.len() {
        Ordering::Greater
    } else if a[k] < b[k] {
        Ordering::Less
    } else {
        Ordering::Greater
    }
}

/// Compares two versions: by components, missing ones counting as zero,
/// then by pre-release suffix, a pre-release coming before the release.
pub fn compare(a: &Version, b: &Version) -> (r: Ordering)
    ensures
        r == compare_full(a.full(), b.full()),
{
    match compare_components(a, b) {
        Ordering::Less => Ordering::Less,
        Ordering::Greater => Ordering::Greater,
        Ordering::Equal => match (&a.pre, &b.pre) {
            (None, None) => Ordering::Equal,
            (None, Some(_)) => Ordering::Greater,
            (Some(_), None) => Ordering::Less,
            (Some(x), Some(y)) => lex_compare(&chars_of(x.as_str()), &chars_of(y.as_str())),
        },
    }
}

/// Adds `delta` to the component at `index`. A positive `delta` resets the
/// later components to zero; a result below zero is `NoPriorVersion`.
pub fn increment(v: &Version, index: usize, delta: i64) -> (r: Result<Version, VersionError>)
    requires
        index < v@.len(),
        v@[index as int] + delta <= u64::MAX,
    ensures
        v@[index as int] + delta < 0 ==> r == Err::<Version, VersionError>(VersionError::NoPriorVersion),
        v@[index as int] + delta >= 0 ==> (r matches Ok(w) && w@ == increment_spec(v@, index as int, delta as int) && w.pre is None),
{
    let c = v.components[index];
    let nc: u64;
    if delta < 0 {
        let dec: u64 = if delta == i64::MIN { 0x8000_0000_0000_0000u64 } else { (-delta) as u64 };
        if c < dec {
            return Err(VersionError::NoPriorVersion);
        }
        nc = c - dec;
    } else {
        nc = c + delta as u64;
    }
    let mut out: Vec<u64> = Vec::new();
    let mut j: usize = 0;
    while j < v.components.len()
        invariant
            j <= v@.len(),
            index < v@.len(),
            nc == v@[index as int] + delta,
            out@ =~= increment_spec(v@, index as int, delta as int).take(j as int),
        decreases v@.len() - j,
    {
        let x = if j < index {
            v.components[j]
        } else if j == index {
            nc
        } else if delta > 0 {
            0
        } else {
            v.components[j]
        };
        out.push(x);
        j = j + 1;
    }
    Ok(Version { components: out, pre: None })
}

/// Law: a version is strictly below every increment of it by one.
pub proof fn lemma_increment_is_greater(v: Seq<u64>, pre: Option<Seq<char>>, i: int)
    requires
        0 <= i < v.len(),
        v[i] < u64::MAX,
    ensures
        compare_full((v, pre), (increment_spec(v, i, 1), None)) == Ordering::Less,
{
    let w = increment_spec(v, i, 1);
    assert forall|j: int| 0 <= j < i implies component(v, j) == component(w, j) by {}
    lemma_compare_from_start(v, w, i as nat);
}

/// Law: decrementing and then incrementing the same component gives back
/// the version, except that the later components restart at zero; at the
/// last component it gives back the version itself.
pub proof fn lemma_decrement_then_increment(v: Seq<u64>, i: int)
    requires
        0 <= i < v.len(),
        v[i] >= 1,
    ensures
        increment_spec(increment_spec(v, i, -1), i, 1)
            == Seq::new(v.len(), |j: int| if j <= i { v[j] } else { 0u64 }),
        i == v.len() - 1 ==> increment_spec(increment_spec(v, i, -1), i, 1) == v,
{
    let w = increment_spec(increment_spec(v, i, -1), i, 1);
    assert(w =~= Seq::new(v.len(), |j: int| if j <= i { v[j] } else { 0u64 }));
    if i == v.len() - 1 {
        assert(w =~= v);
    }
}

proof fn lemma_compare_reverse(a: Seq<u64>, b: Seq<u64>, k: nat)
    ensures
        compare_from(a, b, k) == flip(compare_from(b, a, k)),
    decreases (if a.len() > b.len() { a.len() } else { b.len() }) - k,
{
    if !(k >= a.len() && k >= b.len()) && component(a, k as int) == component(b, k as int) {
        lemma_compare_reverse(a, b, k + 1);
    }
}

proof fn lemma_compare_trans(a: Seq<u64>, b: Seq<u64>, c: Seq<u64>, k: nat, o: Ordering)
    requires
        o != Ordering::Equal,
        compare_from(a, b, k) == o,
        compare_from(b, c, k) == o,
    ensures
        compare_from(a, c, k) == o,
    decreases (if a.len() > b.len() { a.len() } else { b.len() }) - k,
{
    if component(a, k as int) == component(b, k as int) && component(b, k as int) == component(c, k as int) {
        lemma_compare_trans(a, b, c, k + 1, o);
    }
}

proof fn lemma_compare_equal_trans(a: Seq<u64>, b: Seq<u64>, c: Seq<u64>, k: nat)
    requires
        compare_from(a, b, k) == Ordering::Equal,
        compare_from(b, c, k) == Ordering::Equal,
    ensures
        compare_from(a, c, k) == Ordering::Equal,
    decreases a.len() + b.len() + c.len() - k,
{
    if !(k >= a.len() && k >= b.len() && k >= c.len()) {
        lemma_compare_equal_trans(a, b, c, k + 1);
    }
}

proof fn lemma_components_order(a: Seq<u64>, b: Seq<u64>, c: Seq<u64>)
    ensures
        compare_spec(a, a) == Ordering::Equal,
        compare_spec(a, b) == flip(compare_spec(b, a)),
        compare_spec(a, b) == Ordering::Less && compare_spec(b, c) == Ordering::Less
            ==> compare_spec(a, c) == Ordering::Less,
        compare_spec(a, b) == Ordering::Equal && compare_spec(b, c) == Ordering::Equal
            ==> compare_spec(a, c) == Ordering::Equal,
        compare_spec(a, b) != Ordering::Greater && compare_spec(b, c) == Ordering::Less
            ==> compare_spec(a, c) == Ordering::Less,
{
    if compare_spec(a, b) != Ordering::Greater && compare_spec(b, c) == Ordering::Less {
        lemma_compare_le_lt(a, b, c, 0);
    }
    lemma_compare_self(a, 0);
    lemma_compare_reverse(a, b, 0);
    if compare_spec(a, b) == Ordering::Less && compare_spec(b, c) == Ordering::Less {
        lemma_compare_trans(a, b, c, 0, Ordering::Less);
    }
    if compare_spec(a, b) == Ordering::Equal && compare_spec(b, c) == Ordering::Equal {
        lemma_compare_equal_trans(a, b, c, 0);
    }
}

proof fn lemma_compare_le_lt(a: Seq<u64>, b: Seq<u64>, c: Seq<u64>, k: nat)
    requires
        compare_from(a, b, k) != Ordering::Greater,
        compare_from(b, c, k) == Ordering::Less,
    ensures
        compare_from(a, c, k) == Ordering::Less,
    decreases a.len() + b.len() + c.len() - k,
{
    if component(a, k as int) == component(b, k as int) && component(b, k as int) == component(c, k as int) {
        lemma_compare_le_lt(a, b, c, k + 1);
    }
}

proof fn lemma_compare_self(a: Seq<u64>, k: nat)
    ensures
        compare_from(a, a, k) == Ordering::Equal,
    decreases a.len() - k,
{
    if k < a.len() {
        lemma_compare_self(a, k + 1);
    }
}

proof fn lemma_pieces_without_sep(b: Seq<char>, sep: char)
    requires
        forall|i: int| 0 <= i < b.len() ==> b[i] != sep,
    ensures
        pieces(b, sep) == seq![b],
    decreases b.len(),
{
    if b.len() > 0 {
        lemma_pieces_without_sep(b.drop_last(), sep);
        assert(b.drop_last().push(b.last()) =~= b);
        assert(b[b.len() - 1] != sep);
        assert(seq![b.drop_last()].update(0, b.drop_last().push(b.last())) =~= seq![b]);
    } else {
        assert(b =~= Seq::<char>::empty());
    }
}

proof fn lemma_pieces_append(a: Seq<char>, b: Seq<char>, sep: char)
    requires
        forall|i: int| 0 <= i < b.len() ==> b[i] != sep,
    ensures
        pieces(a.push(sep) + b, sep) == pieces(a, sep).push(b),
    decreases b.len(),
{
    if b.len() == 0 {
        assert(a.push(sep) + b =~= a.push(sep));
        assert((a.push(sep)).drop_last() =~= a);
        assert(b =~= Seq::<char>::empty());
    } else {
        lemma_pieces_append(a, b.drop_last(), sep);
        assert(b[b.len() - 1] != sep);
        assert((a.push(sep) + b).last() == b.last());
        assert((a.push(sep) + b).drop_last() =~= a.push(sep) + b.drop_last());
        assert(b.drop_last().push(b.last()) =~= b);
        assert(pieces(a, sep).push(b.drop_last()).update(pieces(a, sep).len() as int, b) =~= pieces(a, sep).push(b));
    }
}

proof fn lemma_decimal_digits(n: nat)
    ensures
        decimal(n).len() > 0,
        forall|i: int| 0 <= i < decimal(n).len() ==> is_digit(#[trigger] decimal(n)[i]),
        digits_value(decimal(n)) == n,
    decreases n,
{
    let d = (('0' as u32) + (n % 10) as u32) as char;
    assert(digit_value(d) == n % 10);
    if n >= 10 {
        lemma_decimal_digits(n / 10);
        assert(decimal(n).drop_last() =~= decimal(n / 10));
        assert(decimal(n).last() == d);
        assert(digits_value(decimal(n)) == digits_value(decimal(n / 10)) * 10 + digit_value(d));
        assert(n == (n / 10) * 10 + n % 10);
    } else {
        assert(decimal(n).drop_last() =~= Seq::<char>::empty());
        assert(decimal(n).last() == d);
        assert(digits_value(decimal(n)) == digits_value(Seq::<char>::empty()) * 10 + digit_value(d));
    }
}

proof fn lemma_pieces_of_version_text(v: Seq<u64>)
    requires
        v.len() > 0,
    ensures
        pieces(version_text(v), '.') == v.map_values(|x: u64| decimal(x as nat)),
    decreases v.len(),
{
    if v.len() == 1 {
        lemma_decimal_digits(v[0] as nat);
        lemma_pieces_without_sep(decimal(v[0] as nat), '.');
        assert(v.map_values(|x: u64| decimal(x as nat)) =~= seq![decimal(v[0] as nat)]);
    } else {
        lemma_pieces_of_version_text(v.drop_last());
        lemma_decimal_digits(v.last() as nat);
        lemma_pieces_append(version_text(v.drop_last()), decimal(v.last() as nat), '.');
        assert(v.drop_last().map_values(|x: u64| decimal(x as nat)).push(decimal(v.last() as nat))
            =~= v.map_values(|x: u64| decimal(x as nat)));
    }
}

proof fn lemma_version_text_chars(v: Seq<u64>)
    requires
        v.len() > 0,
    ensures
        forall|i: int| 0 <= i < version_text(v).len() ==> (#[trigger] version_text(v)[i]) != '-',
    decreases v.len(),
{
    lemma_decimal_digits(v.last() as nat);
    if v.len() == 1 {
        lemma_decimal_digits(v[0] as nat);
    } else {
        lemma_version_text_chars(v.drop_last());
        let t = version_text(v);
        let a = version_text(v.drop_last());
        let d = decimal(v.last() as nat);
        assert forall|i: int| 0 <= i < t.len() implies (#[trigger] t[i]) != '-' by {
            if i < a.len() {
                assert(t[i] == a[i]);
            } else if i > a.len() {
                assert(t[i] == d[i - a.len() - 1]);
            }
        }
    }
}

proof fn lemma_no_dash(t: Seq<char>, i: int)
    requires
        0 <= i,
        forall|j: int| 0 <= j < t.len() ==> t[j] != '-',
    ensures
        first_dash(t, i) is None,
    decreases t.len() - i,
{
    if i < t.len() {
        lemma_no_dash(t, i + 1);
    }
}

/// Law: the text of a version without a pre-release suffix parses back to
/// that version.
pub proof fn lemma_parse_version_text(v: Seq<u64>)
    requires
        v.len() > 0,
    ensures
        parse_spec(version_text(v), Dialect::Manifest) == Some((v, None::<Seq<char>>)),
{
    lemma_version_text_chars(v);
    lemma_no_dash(version_text(v), 0);
    lemma_pieces_of_version_text(v);
    let fs = pieces(version_text(v), '.');
    assert forall|i: int| 0 <= i < fs.len() implies valid_field(#[trigger] fs[i]) by {
        lemma_decimal_digits(v[i] as nat);
    }
    assert forall|i: int| 0 <= i < fs.len() implies (digits_value(#[trigger] fs[i]) as u64) == v[i] by {
        lemma_decimal_digits(v[i] as nat);
    }
    assert(fs.map_values(|f: Seq<char>| digits_value(f) as u64) =~= v);
}

proof fn lemma_lex_order(a: Seq<char>, b: Seq<char>, c: Seq<char>, k: nat)
    ensures
        lex_from(a, a, k) == Ordering::Equal,
        lex_from(a, b, k) == flip(lex_from(b, a, k)),
        lex_from(a, b, k) == Ordering::Equal && lex_from(b, c, k) == Ordering::Equal
            ==> lex_from(a, c, k) == Ordering::Equal,
        lex_from(a, b, k) != Ordering::Greater && lex_from(b, c, k) == Ordering::Less
            ==> lex_from(a, c, k) == Ordering::Less,
        lex_from(a, b, k) == Ordering::Less && lex_from(b, c, k) != Ordering::Greater
            ==> lex_from(a, c, k) == Ordering::Less,
    decreases a.len() + b.len() + c.len() - k,
{
    if k < a.len() || k < b.len() || k < c.len() {
        lemma_lex_order(a, b, c, k + 1);
    }
}

/// Law: the comparison is a total order on versions: a version equals
/// itself, it is antisymmetric, and it is transitive.
pub proof fn lemma_compare_total_order(
    a: (Seq<u64>, Option<Seq<char>>),
    b: (Seq<u64>, Option<Seq<char>>),
    c: (Seq<u64>, Option<Seq<char>>),
)
    ensures
        compare_full(a, a) == Ordering::Equal,
        compare_full(a, b) == flip(compare_full(b, a)),
        compare_full(a, b) == Ordering::Less && compare_full(b, c) == Ordering::Less
            ==> compare_full(a, c) == Ordering::Less,
        compare_full(a, b) == Ordering::Equal && compare_full(b, c) == Ordering::Equal
            ==> compare_full(a, c) == Ordering::Equal,
        compare_full(a, b) != Ordering::Greater && compare_full(b, c) == Ordering::Less
            ==> compare_full(a, c) == Ordering::Less,
{
    lemma_components_order(a.0, b.0, c.0);
    lemma_components_order(b.0, c.0, a.0);
    lemma_components_order(a.0, c.0, b.0);
    lemma_components_order(b.0, a.0, c.0);
    lemma_components_order(c.0, b.0, a.0);
    lemma_components_order(c.0, a.0, b.0);
    if a.1 is Some && b.1 is Some && c.1 is Some {
        lemma_lex_order(a.1->0, b.1->0, c.1->0, 0);
    } else if a.1 is Some && b.1 is Some {
        lemma_lex_order(a.1->0, b.1->0, a.1->0, 0);
    } else if a.1 is Some {
        lemma_lex_order(a.1->0, a.1->0, a.1->0, 0);
    }
}

} // verus!
