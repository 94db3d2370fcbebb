//! Directive tags and update classes.
//!
//! Node identifiers are opaque strings that may encode zero or more
//! whitespace/hash-delimited directive tags. The pipeline recognizes the
//! `dynamic` tag (mint a new transform slot) and the `dynamicText` tag
//! (the node's own class is Static); every other tag is ignored here and
//! left to external collaborators.

use vstd::prelude::*;

verus! {

/// An update-class partition. `Static` content is tessellated once and never
/// individually addressed; `Dynamic` content is individually addressable and
/// replaceable at runtime. The ranking is Static < Dynamic.
#[derive(Clone, Copy, Debug, PartialEq, Eq, Structural)]
pub enum UpdateClass {
    Static,
    Dynamic,
}

/// The maximum of two classes under the Static < Dynamic ranking.
pub open spec fn class_max(a: UpdateClass, b: UpdateClass) -> UpdateClass {
    if a is Dynamic || b is Dynamic {
        UpdateClass::Dynamic
    } else {
        UpdateClass::Static
    }
}

/// Combines a parent's inherited class with a node's own tag-derived class.
/// Classification can only escalate going down the tree, never de-escalate.
pub fn combine_class(a: UpdateClass, b: UpdateClass) -> (r: UpdateClass)
    ensures
        r == class_max(a, b),
{
    match a {
        UpdateClass::Dynamic => UpdateClass::Dynamic,
        UpdateClass::Static => b,
    }
}

/// Update-class of a node is never Static if the inherited class is Dynamic,
/// and combining never goes below either operand: classification is monotone
/// along every root-to-node path.
pub proof fn lemma_monotonic_class_escalation(parent: UpdateClass, own: UpdateClass)
    ensures
        parent is Dynamic ==> class_max(parent, own) is Dynamic,
        own is Dynamic ==> class_max(parent, own) is Dynamic,
        class_max(parent, own) is Static ==> parent is Static && own is Static,
{
}

/// True for the characters that delimit directive tags inside an id string.
pub open spec fn is_tag_delim(c: char) -> bool {
    c == ' ' || c == '#'
}

/// The tag `t` occurs in `s` starting at position `i`, delimited on both
/// sides by a delimiter character or by the ends of the string.
pub open spec fn token_at(s: Seq<char>, t: Seq<char>, i: int) -> bool {
    &&& 0 <= i
    &&& i + t.len() <= s.len()
    &&& s.subrange(i, i + t.len() as int) == t
    &&& (i == 0 || is_tag_delim(s[i - 1]))
    &&& (i + t.len() == s.len() || is_tag_delim(s[i + t.len()]))
}

/// The id string `s` carries the directive tag `t`.
pub open spec fn has_token(s: Seq<char>, t: Seq<char>) -> bool {
    exists|i: int| token_at(s, t, i)
}

/// Decides whether the id string carries the given directive tag as a
/// whitespace/hash-delimited token.
pub fn matches_directive(id: &str, tag: &str) -> (r: bool)
    ensures
        r == has_token(id@, tag@),
{
    let n = id.unicode_len();
    let m = tag.unicode_len();
    if m > n {
        assert(!has_token(id@, tag@)) by {
            assert(forall|i: int| !token_at(id@, tag@, i));
        }
        return false;
    }
    if m == 0 {
        assert(tag@ =~= Seq::<char>::empty());
        return empty_token_somewhere(id);
    }
    let mut i: usize = 0;
    while i <= n - m
        invariant
            1 <= m <= n,
            n == id@.len(),
            m == tag@.len(),
            i <= n - m + 1,
            forall|ii: int| 0 <= ii < i ==> !token_at(id@, tag@, ii),
        decreases n - m - i + 1,
    {
        if token_match_at(id, tag, i) {
            return true;
        }
        i = i + 1;
    }
    assert(forall|ii: int| !token_at(id@, tag@, ii)) by {
        assert(forall|ii: int| ii + tag@.len() > id@.len() ==> !token_at(id@, tag@, ii));
    }
    false
}

/// Decides whether the empty tag occurs delimited anywhere in `id`: at the
/// string's ends or between two delimiter characters.
fn empty_token_somewhere(id: &str) -> (r: bool)
    ensures
        r == has_token(id@, Seq::<char>::empty()),
{
    let ghost t = Seq::<char>::empty();
    let n = id.unicode_len();
    assert(forall|i: int| #[trigger] token_at(id@, t, i) ==> id@.subrange(i, i) =~= t);
    let mut i: usize = 0;
    while i <= n
        invariant
            t == Seq::<char>::empty(),
            n == id@.len(),
            i <= n + 1,
            n < usize::MAX ==> i <= n,
            forall|ii: int| 0 <= ii < i ==> !token_at(id@, t, ii),
        decreases n - i + 1,
    {
        let left_ok = if i == 0 {
            true
        } else {
            let c = id.get_char(i - 1);
            c == ' ' || c == '#'
        };
        let right_ok = if i == n {
            true
        } else {
            let c = id.get_char(i);
            c == ' ' || c == '#'
        };
        if left_ok && right_ok {
            assert(i <= id@.len());
            assert(id@.subrange(i as int, i as int).len() == 0);
            assert(id@.subrange(i as int, i as int) =~= t);
            assert(token_at(id@, t, i as int));
            return true;
        }
        if i == n {
            assert(forall|ii: int| ii > n ==> !token_at(id@, t, ii));
            assert(forall|ii: int| !token_at(id@, t, ii));
            return false;
        }
        i = i + 1;
    }
    assert(forall|ii: int| ii > id@.len() ==> !token_at(id@, t, ii));
    false
}

/// Checks one candidate position for a delimited occurrence of `tag`.
fn token_match_at(id: &str, tag: &str, i: usize) -> (r: bool)
    requires
        i + tag@.len() <= id@.len(),
    ensures
        r == token_at(id@, tag@, i as int),
{
    let n = id.unicode_len();
    let m = tag.unicode_len();
    if i > 0 {
        let before = id.get_char(i - 1);
        if !(before == ' ' || before == '#') {
            return false;
        }
    }
    if i + m < n {
        let after = id.get_char(i + m);
        if !(after == ' ' || after == '#') {
            return false;
        }
    }
    let mut k: usize = 0;
    while k < m
        invariant
            i + m <= id@.len(),
            n == id@.len(),
            m == tag@.len(),
            k <= m,
            i == 0 || is_tag_delim(id@[i - 1]),
            i + m == id@.len() || is_tag_delim(id@[i + m]),
            forall|kk: int| 0 <= kk < k ==> id@[i + kk] == tag@[kk],
        decreases m - k,
    {
        if id.get_char(i + k) != tag.get_char(k) {
            assert(!token_at(id@, tag@, i as int)) by {
                assert(id@.subrange(i as int, i + tag@.len() as int) != tag@) by {
                    assert(id@.subrange(i as int, i + tag@.len() as int)[k as int] != tag@[k as int]);
                }
            }
            return false;
        }
        k = k + 1;
    }
    assert(id@.subrange(i as int, i + tag@.len() as int) =~= tag@);
    true
}

/// Compares two string slices character by character.
pub fn str_eq(a: &str, b: &str) -> (r: bool)
    ensures
        r == (a@ == b@),
{
    let n = a.unicode_len();
    let m = b.unicode_len();
    if n != m {
        assert(a@ != b@) by {
            assert(a@.len() != b@.len());
        }
        return false;
    }
    let mut k: usize = 0;
    while k < n
        invariant
            n == a@.len(),
            n == b@.len(),
            k <= n,
            forall|kk: int| 0 <= kk < k ==> a@[kk] == b@[kk],
        decreases n - k,
    {
        if a.get_char(k) != b.get_char(k) {
            assert(a@ != b@);
            return false;
        }
        k = k + 1;
    }
    assert(a@ =~= b@);
    true
}

/// A named directive pattern, paired with the position at which it was
/// registered.
#[derive(Clone, Debug)]
pub struct RegexPattern {
    pub regex_pattern: String,
    pub index: usize,
}

/// An ordered collection of directive patterns.
#[derive(Clone, Debug)]
pub struct RegexPatterns {
    pub inner: Vec<RegexPattern>,
}

impl RegexPatterns {
    /// An empty pattern collection.
    pub fn new() -> (r: RegexPatterns)
        ensures
            r.inner@.len() == 0,
    {
        RegexPatterns { inner: Vec::new() }
    }

    /// Registers a pattern and returns it together with the index it was
    /// assigned; indices are consecutive registration positions.
    pub fn add(&mut self, regex_pattern: &str) -> (r: RegexPattern)
        ensures
            final(self).inner@.len() == old(self).inner@.len() + 1,
            forall|j: int|
                0 <= j < old(self).inner@.len() ==> final(self).inner@[j] == old(self).inner@[j],
            final(self).inner@.last().regex_pattern@ == regex_pattern@,
            final(self).inner@.last().index == old(self).inner@.len(),
            r.regex_pattern@ == regex_pattern@,
            r.index == old(self).inner@.len(),
    {
        let idx = self.inner.len();
        self.inner.push(
            RegexPattern { regex_pattern: regex_pattern.to_owned(), index: idx },
        );
        RegexPattern { regex_pattern: regex_pattern.to_owned(), index: idx }
    }
}

/// The directive tags this pipeline and its standard collaborators react to,
/// in their fixed registration order: click detection, transform-slot
/// minting, and static text content.
pub fn default_directives() -> (r: RegexPatterns)
    ensures
        r.inner@.len() == 3,
        r.inner@[0].regex_pattern@ == "clickable"@,
        r.inner@[1].regex_pattern@ == "dynamic"@,
        r.inner@[2].regex_pattern@ == "dynamicText"@,
        forall|j: int| 0 <= j < 3 ==> #[trigger] r.inner@[j].index == j,
    {
    let mut patterns = RegexPatterns::new();
    let _clickable = patterns.add("clickable");
    let _dynamic = patterns.add("dynamic");
    let _dynamic_text = patterns.add("dynamicText");
    patterns
}

/// The node's own tag-derived class: `dynamicText` forces the node's own
/// class to Static, every other id defaults to Dynamic.
pub open spec fn own_class_of(id: Seq<char>) -> UpdateClass {
    if has_token(id, "dynamicText"@) {
        UpdateClass::Static
    } else {
        UpdateClass::Dynamic
    }
}

/// Whether a node's id marks it as transform-bearing: such a node mints a
/// fresh transform slot before descending into its children.
pub open spec fn mints_slot(id: Seq<char>) -> bool {
    has_token(id, "dynamic"@)
}

/// Computes the node's own tag-derived class from its id string.
pub fn own_class(id: &str) -> (r: UpdateClass)
    ensures
        r == own_class_of(id@),
{
    if matches_directive(id, "dynamicText") {
        UpdateClass::Static
    } else {
        UpdateClass::Dynamic
    }
}

} // verus!
