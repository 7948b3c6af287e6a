//! Tag names: expanding a template with a version, and reading versions
//! back out of existing tags.

use vstd::prelude::*;
use core::cmp::Ordering;
use crate::text::{chars_of, string_of, extend_chars};
use crate::version::{
    Version, Dialect, parse, compare, parse_spec, compare_full,
};

verus! {

/// The token in a tag template that stands for the version.
pub open spec fn placeholder() -> Seq<char> {
    seq!['$', 'V', 'E', 'R', 'S', 'I', 'O', 'N']
}

/// Whether the placeholder starts at position `i` of `t`.
pub open spec fn placeholder_at(t: Seq<char>, i: int) -> bool {
    0 <= i && i + 8 <= t.len() && t.subrange(i, i + 8) == placeholder()
}

/// `t` from position `i` on, with each placeholder replaced by `rep`.
pub open spec fn replace_from(t: Seq<char>, i: int, rep: Seq<char>) -> Seq<char>
    decreases t.len() - i,
{
    if i < 0 || i >= t.len() {
        Seq::empty()
    } else if placeholder_at(t, i) {
        rep + replace_from(t, i + 8, rep)
    } else {
        seq![t[i]] + replace_from(t, i + 1, rep)
    }
}

/// How many placeholders `t` holds from position `i` on.
pub open spec fn count_from(t: Seq<char>, i: int) -> nat
    decreases t.len() - i,
{
    if i < 0 || i >= t.len() {
        0
    } else if placeholder_at(t, i) {
        1 + count_from(t, i + 8)
    } else {
        count_from(t, i + 1)
    }
}

/// The position of the first placeholder in `t` at or after `i`.
pub open spec fn first_from(t: Seq<char>, i: int) -> Option<int>
    decreases t.len() - i,
{
    if i < 0 || i >= t.len() {
        None
    } else if placeholder_at(t, i) {
        Some(i)
    } else {
        first_from(t, i + 1)
    }
}

/// The version that `tag` names under `template`: the text between the
/// parts of the template before and after its first placeholder.
pub open spec fn version_in_tag(template: Seq<char>, tag: Seq<char>) -> Option<(Seq<u64>, Option<Seq<char>>)> {
    match first_from(template, 0) {
        None => None,
        Some(p) => {
            let pre = template.take(p);
            let suf = template.skip(p + 8);
            if tag.len() >= pre.len() + suf.len() && tag.take(pre.len() as int) == pre
                && tag.skip(tag.len() - suf.len()) == suf {
                parse_spec(tag.subrange(pre.len() as int, tag.len() - suf.len()), Dialect::Manifest)
            } else {
                None
            }
        },
    }
}

/// Why a tag template cannot be used.
#[derive(Clone, Copy, Debug, PartialEq, Eq, Structural)]
pub enum TemplateError {
    /// The template holds no version placeholder.
    MissingPlaceholder,
    /// The template holds the placeholder more than once.
    RepeatedPlaceholder,
}

fn placeholder_chars() -> (r: Vec<char>)
    ensures
        r@ == placeholder(),
{
    let r = vec!['$', 'V', 'E', 'R', 'S', 'I', 'O', 'N'];
    assert(r@ =~= placeholder());
    r
}

/// Whether `pat` occurs in `t` at position `i`.
#[verifier::loop_isolation(false)]
pub fn occurs_at(t: &Vec<char>, i: usize, pat: &Vec<char>) -> (r: bool)
    ensures
        r == (i + pat@.len() <= t@.len() && t@.subrange(i as int, i + pat@.len()) == pat@),
{
    if i > t.len() || pat.len() > t.len() - i {
        return false;
    }
    let mut k: usize = 0;
    while k < pat.len()
        invariant
            i + pat@.len() <= t@.len(),
            k <= pat@.len(),
            forall|j: int| 0 <= j < k ==> t@[i + j] == pat@[j],
        decreases pat.len() - k,
    {
        if t[i + k] != pat[k] {
            assert(t@.subrange(i as int, i + pat@.len())[k as int] != pat@[k as int]);
            return false;
        }
        k = k + 1;
    }
    assert(t@.subrange(i as int, i + pat@.len()) =~= pat@);
    true
}

/// Substitutes the text of `version` for every placeholder in `template`.
pub fn expand_tag(template: &str, version: &Version) -> (r: String)
    ensures
        r@ == replace_from(template@, 0, version.text()),
{
    let t = chars_of(template);
    let ph = placeholder_chars();
    let rep = chars_of(version.to_string().as_str());
    let mut out: Vec<char> = Vec::new();
    let mut i: usize = 0;
    while i < t.len()
        invariant
            i <= t@.len() + 8,
            ph@ == placeholder(),
            rep@ == version.text(),
            out@ + replace_from(t@, i as int, rep@) == replace_from(t@, 0, rep@),
        decreases t.len() - i,
    {
        if occurs_at(&t, i, &ph) {
            extend_chars(&mut out, &rep);
            i = i + 8;
        } else {
            out.push(t[i]);
            i = i + 1;
        }
        assert(out@ + replace_from(t@, i as int, rep@) =~= replace_from(t@, 0, rep@));
    }
    assert(out@ =~= replace_from(t@, 0, rep@));
    string_of(&out)
}

/// Checks that a tag template holds the version placeholder exactly once.
pub fn validate_tag_template(template: &str) -> (r: Result<(), TemplateError>)
    ensures
        count_from(template@, 0) == 0 <==> r == Err::<(), TemplateError>(TemplateError::MissingPlaceholder),
        count_from(template@, 0) > 1 <==> r == Err::<(), TemplateError>(TemplateError::RepeatedPlaceholder),
        count_from(template@, 0) == 1 <==> r is Ok,
{
    let t = chars_of(template);
    let ph = placeholder_chars();
    let mut n: usize = 0;
    let mut i: usize = 0;
    while i < t.len()
        invariant
            i <= t@.len() + 8,
            ph@ == placeholder(),
            n <= i,
            n + count_from(t@, i as int) == count_from(t@, 0),
        decreases t.len() - i,
    {
        if occurs_at(&t, i, &ph) {
            n = n + 1;
            i = i + 8;
        } else {
            i = i + 1;
        }
    }
    if n == 0 {
        Err(TemplateError::MissingPlaceholder)
    } else if n > 1 {
        Err(TemplateError::RepeatedPlaceholder)
    } else {
        Ok(())
    }
}

/// The position of the first placeholder in `t`.
fn find_placeholder(t: &Vec<char>) -> (r: Option<usize>)
    ensures
        r is None ==> first_from(t@, 0) is None,
        r matches Some(p) ==> first_from(t@, 0) == Some(p as int) && p + 8 <= t@.len(),
{
    let ph = placeholder_chars();
    let mut i: usize = 0;
    while i < t.len()
        invariant
            ph@ == placeholder(),
            i <= t@.len(),
            first_from(t@, 0) == first_from(t@, i as int),
        decreases t.len() - i,
    {
        if occurs_at(t, i, &ph) {
            assert(placeholder_at(t@, i as int));
            return Some(i);
        }
        i = i + 1;
    }
    None
}

/// The version that `tag` names under `template`, if any.
#[verifier::loop_isolation(false)]
pub fn tag_version(template: &str, tag: &str) -> (r: Option<Version>)
    ensures
        match version_in_tag(template@, tag@) {
            Some(c) => (r matches Some(v) && v.full() == c),
            None => r is None,
        },
{
    let t = chars_of(template);
    let g = chars_of(tag);
    let ph = placeholder_chars();
    let p = match find_placeholder(&t) {
        None => {
            return None;
        },
        Some(p) => p,
    };
    let pre_len = p;
    let suf_len = t.len() - (p + 8);
    if g.len() < pre_len + suf_len {
        return None;
    }
    let mut k: usize = 0;
    while k < pre_len
        invariant
            pre_len + suf_len <= g@.len(),
            pre_len + 8 + suf_len == t@.len(),
            k <= pre_len,
            forall|j: int| 0 <= j < k ==> g@[j] == t@[j],
        decreases pre_len - k,
    {
        if g[k] != t[k] {
            assert(g@.take(pre_len as int)[k as int] != t@.take(pre_len as int)[k as int]);
            return None;
        }
        k = k + 1;
    }
    assert(g@.take(pre_len as int) =~= t@.take(pre_len as int));
    let mut k: usize = 0;
    let gs = g.len() - suf_len;
    let so = pre_len + 8;
    while k < suf_len
        invariant
            pre_len + suf_len <= g@.len(),
            pre_len + 8 + suf_len == t@.len(),
            gs == g@.len() - suf_len,
            so == pre_len + 8,
            gs + suf_len == g.len(),
            so + suf_len == t.len(),
            k <= suf_len,
            forall|j: int| 0 <= j < k ==> g@.skip(gs as int)[j] == #[trigger] t@.skip(pre_len + 8)[j],
        decreases suf_len - k,
    {
        if g[gs + k] != t[so + k] {
            assert(g@.skip(gs as int)[k as int] != t@.skip(pre_len + 8)[k as int]);
            return None;
        }
        k = k + 1;
    }
    assert(g@.skip(gs as int) =~= t@.skip(pre_len + 8));
    let mut mid: Vec<char> = Vec::new();
    let mut k: usize = pre_len;
    while k < gs
        invariant
            pre_len <= k <= gs <= g@.len(),
            mid@ == g@.subrange(pre_len as int, k as int),
        decreases gs - k,
    {
        mid.push(g[k]);
        k = k + 1;
        assert(mid@ =~= g@.subrange(pre_len as int, k as int));
    }
    let ms = string_of(&mid);
    match parse(ms.as_str(), Dialect::Manifest) {
        Ok(v) => Some(v),
        Err(_) => None,
    }
}

/// Among the tags that name a version under `template`, a highest version;
/// `None` where no tag names one.
pub fn last_version_in_tags(template: &str, tags: &Vec<String>) -> (r: Option<Version>)
    ensures
        r is None <==> forall|i: int| 0 <= i < tags@.len() ==> version_in_tag(template@, (#[trigger] tags@[i])@) is None,
        r matches Some(v) ==> exists|i: int| 0 <= i < tags@.len() && version_in_tag(template@, (#[trigger] tags@[i])@) == Some(v.full()),
        r matches Some(v) ==> forall|i: int| 0 <= i < tags@.len() && (#[trigger] version_in_tag(template@, tags@[i]@)) is Some
            ==> compare_full(version_in_tag(template@, tags@[i]@)->0, v.full()) != Ordering::Greater,
{
    let mut best: Option<Version> = None;
    let mut i: usize = 0;
    while i < tags.len()
        invariant
            i <= tags@.len(),
            best is None <==> forall|j: int| 0 <= j < i ==> version_in_tag(template@, (#[trigger] tags@[j])@) is None,
            best matches Some(v) ==> exists|j: int| 0 <= j < i && version_in_tag(template@, (#[trigger] tags@[j])@) == Some(v.full()),
            best matches Some(v) ==> forall|j: int| 0 <= j < i && (#[trigger] version_in_tag(template@, tags@[j]@)) is Some
                ==> compare_full(version_in_tag(template@, tags@[j]@)->0, v.full()) != Ordering::Greater,
        decreases tags.len() - i,
    {
        match tag_version(template, tags[i].as_str()) {
            None => {},
            Some(v) => {
                let replace = match &best {
                    None => true,
                    Some(b) => matches!(compare(&v, b), Ordering::Greater),
                };
                if replace {
                    proof {
                        if best is Some {
                            let b = best->0;
                            assert forall|j: int| 0 <= j < i && (#[trigger] version_in_tag(template@, tags@[j]@)) is Some
                                implies compare_full(version_in_tag(template@, tags@[j]@)->0, v.full()) != Ordering::Greater by {
                                let x = version_in_tag(template@, tags@[j]@)->0;
                                crate::version::lemma_compare_total_order(x, b.full(), v.full());
                                crate::version::lemma_compare_total_order(b.full(), v.full(), x);
                                crate::version::lemma_compare_total_order(x, v.full(), b.full());
                            }
                        }
                    }
                    proof {
                        crate::version::lemma_compare_total_order(v.full(), v.full(), v.full());
                    }
                    best = Some(v);
                } else {
                    proof {
                        let b = best->0;
                        crate::version::lemma_compare_total_order(v.full(), b.full(), v.full());
                    }
                }
            },
        }
        i = i + 1;
    }
    best
}

} // verus!
