//! Include and exclude rules for the walk.
//!
//! A path is excluded when it contains one of the exclude fragments; an
//! excluded directory is not descended into. A file is accepted when it is
//! not excluded and, if any include suffixes are configured, ends with one
//! of them. Patterns and paths are compared as bytes.

use vstd::prelude::*;

verus! {

/// `text` ends with `suffix`.
pub open spec fn ends_with(text: Seq<u8>, suffix: Seq<u8>) -> bool {
    suffix.len() <= text.len() && text.subrange(text.len() - suffix.len(), text.len() as int)
        == suffix
}

/// `fragment` occurs in `text` at offset `at`.
pub open spec fn occurs_at(text: Seq<u8>, fragment: Seq<u8>, at: int) -> bool {
    0 <= at && at + fragment.len() <= text.len() && text.subrange(at, at + fragment.len())
        == fragment
}

/// `fragment` occurs somewhere in `text`.
pub open spec fn contains_fragment(text: Seq<u8>, fragment: Seq<u8>) -> bool {
    exists|at: int| occurs_at(text, fragment, at)
}

/// Some pattern of `suffixes` ends `path`.
pub open spec fn any_suffix(suffixes: Seq<Seq<u8>>, path: Seq<u8>) -> bool {
    exists|i: int| 0 <= i < suffixes.len() && ends_with(path, #[trigger] suffixes[i])
}

/// Some pattern of `fragments` occurs in `path`.
pub open spec fn any_fragment(fragments: Seq<Seq<u8>>, path: Seq<u8>) -> bool {
    exists|i: int| 0 <= i < fragments.len() && contains_fragment(path, #[trigger] fragments[i])
}

/// The rules as plain values.
pub struct RulesModel {
    pub suffixes: Seq<Seq<u8>>,
    pub fragments: Seq<Seq<u8>>,
}

impl RulesModel {
    /// The path is ruled out, whether it names a file or a directory.
    pub open spec fn excludes(self, path: Seq<u8>) -> bool {
        any_fragment(self.fragments, path)
    }

    /// A file at this path is to be indexed.
    pub open spec fn accepts(self, path: Seq<u8>) -> bool {
        !self.excludes(path) && (self.suffixes.len() == 0 || any_suffix(self.suffixes, path))
    }
}

/// The configured include suffixes and exclude fragments.
pub struct Rules {
    suffixes: Vec<Vec<u8>>,
    fragments: Vec<Vec<u8>>,
}

/// The byte strings of a list of patterns.
pub open spec fn patterns(list: Seq<Vec<u8>>) -> Seq<Seq<u8>> {
    Seq::new(list.len(), |i: int| list[i]@)
}

/// Compares `text[at..at + pattern.len()]` with `pattern`.
fn equals_at(text: &[u8], pattern: &[u8], at: usize) -> (same: bool)
    requires
        at + pattern@.len() <= text@.len(),
    ensures
        same == (text@.subrange(at as int, at + pattern@.len()) == pattern@),
{
    let n: usize = text.len();
    let m: usize = pattern.len();
    let mut j: usize = 0;
    while j < m
        invariant
            n == text@.len(),
            m == pattern@.len(),
            at + m <= n,
            j <= m,
            forall|k: int| 0 <= k < j ==> text@[at + k] == #[trigger] pattern@[k],
        decreases m - j,
    {
        if text[at + j] != pattern[j] {
            return false;
        }
        j = j + 1;
    }
    assert(text@.subrange(at as int, at + m) =~= pattern@);
    true
}

/// Whether `text` ends with `suffix`.
pub fn has_suffix(text: &[u8], suffix: &[u8]) -> (r: bool)
    ensures
        r == ends_with(text@, suffix@),
{
    if suffix.len() > text.len() {
        return false;
    }
    equals_at(text, suffix, text.len() - suffix.len())
}

/// Whether `fragment` occurs in `text`.
pub fn has_fragment(text: &[u8], fragment: &[u8]) -> (r: bool)
    ensures
        r == contains_fragment(text@, fragment@),
{
    let n: usize = text.len();
    let m: usize = fragment.len();
    if m > n {
        assert forall|at: int| !occurs_at(text@, fragment@, at) by {}
        return false;
    }
    let last: usize = n - m;
    let mut at: usize = 0;
    loop
        invariant
            n == text@.len(),
            m == fragment@.len(),
            m <= n,
            last == n - m,
            at <= last,
            forall|k: int| 0 <= k < at ==> !occurs_at(text@, fragment@, k),
        decreases last - at,
    {
        if equals_at(text, fragment, at) {
            assert(occurs_at(text@, fragment@, at as int));
            return true;
        }
        if at == last {
            assert forall|k: int| !occurs_at(text@, fragment@, k) by {}
            return false;
        }
        at = at + 1;
    }
}

impl Rules {
    /// The rules as plain values.
    pub closed spec fn view(&self) -> RulesModel {
        RulesModel { suffixes: patterns(self.suffixes@), fragments: patterns(self.fragments@) }
    }

    /// Rules with the given include suffixes and exclude fragments.
    pub fn new(suffixes: Vec<Vec<u8>>, fragments: Vec<Vec<u8>>) -> (rules: Self)
        ensures
            rules@.suffixes == patterns(suffixes@),
            rules@.fragments == patterns(fragments@),
    {
        Rules { suffixes, fragments }
    }

    /// Rules that accept every file and descend into every directory.
    pub fn everything() -> (rules: Self)
        ensures
            rules@.suffixes.len() == 0,
            rules@.fragments.len() == 0,
    {
        Rules { suffixes: Vec::new(), fragments: Vec::new() }
    }

    /// Whether `path` is ruled out by an exclude fragment.
    pub fn excludes(&self, path: &[u8]) -> (r: bool)
        ensures
            r == self@.excludes(path@),
    {
        let mut i: usize = 0;
        while i < self.fragments.len()
            invariant
                i <= self.fragments@.len(),
                forall|k: int|
                    0 <= k < i ==> !contains_fragment(path@, #[trigger] patterns(self.fragments@)[k]),
            decreases self.fragments@.len() - i,
        {
            if has_fragment(path, self.fragments[i].as_slice()) {
                assert(contains_fragment(path@, patterns(self.fragments@)[i as int]));
                return true;
            }
            i = i + 1;
        }
        false
    }

    /// Whether a file at `path` is to be indexed.
    pub fn accepts(&self, path: &[u8]) -> (r: bool)
        ensures
            r == self@.accepts(path@),
    {
        if self.excludes(path) {
            return false;
        }
        if self.suffixes.len() == 0 {
            return true;
        }
        let mut i: usize = 0;
        while i < self.suffixes.len()
            invariant
                !self@.excludes(path@),
                i <= self.suffixes@.len(),
                forall|k: int| 0 <= k < i ==> !ends_with(path@, #[trigger] patterns(self.suffixes@)[k]),
            decreases self.suffixes@.len() - i,
        {
            if has_suffix(path, self.suffixes[i].as_slice()) {
                assert(ends_with(path@, patterns(self.suffixes@)[i as int]));
                return true;
            }
            i = i + 1;
        }
        false
    }
}

} // verus!
