//! Languages and their comment syntax.

use crate::text::same_text;
use vstd::prelude::*;

verus! {

/// A language: its name, the file extensions it goes by, and how its
/// comments are written.
#[derive(Debug, Clone, Copy)]
pub struct Language {
    /// Display name; totals are kept per name.
    pub name: &'static str,
    /// File extensions, without the dot.
    pub extension: &'static [&'static str],
    /// Markers that turn the line they begin into a comment, in the order
    /// they are tried.
    pub single: &'static [&'static str],
    /// Opening and closing token of each kind of block comment, in the order
    /// they are tried.
    pub multi: &'static [(&'static str, &'static str)],
}

/// The comment syntax of a language as plain sequences of characters.
pub struct Syntax {
    pub single: Seq<Seq<char>>,
    pub multi: Seq<(Seq<char>, Seq<char>)>,
}

impl Language {
    /// The extensions as sequences of characters.
    pub open spec fn extensions(&self) -> Seq<Seq<char>> {
        Seq::new(self.extension@.len(), |i: int| self.extension@[i]@)
    }

    /// The comment syntax as sequences of characters.
    pub open spec fn syntax(&self) -> Syntax {
        Syntax {
            single: Seq::new(self.single@.len(), |i: int| self.single@[i]@),
            multi: Seq::new(self.multi@.len(), |i: int| (self.multi@[i].0@, self.multi@[i].1@)),
        }
    }

    /// Whether `extension` is one of this language's.
    pub open spec fn has_extension(&self, extension: Seq<char>) -> bool {
        exists|i: int| 0 <= i < self.extension@.len() && #[trigger] self.extension@[i]@ == extension
    }

    /// Whether files ending in `extension` are written in this language.
    pub fn claims(&self, extension: &str) -> (r: bool)
        ensures
            r == self.has_extension(extension@),
    {
        let mut i: usize = 0;
        while i < self.extension.len()
            invariant
                i <= self.extension@.len(),
                forall|j: int| 0 <= j < i ==> #[trigger] self.extension@[j]@ != extension@,
            decreases self.extension@.len() - i,
        {
            if same_text(self.extension[i], extension) {
                return true;
            }
            i += 1;
        }
        false
    }
}

/// The table of known languages.
#[derive(Debug, Clone, Copy)]
pub struct Config(pub &'static [Language]);

impl Config {
    /// Whether entry `i` has `extension` and no earlier entry does.
    pub open spec fn first_with(&self, extension: Seq<char>, i: int) -> bool {
        &&& 0 <= i < self.0@.len()
        &&& self.0@[i].has_extension(extension)
        &&& forall|j: int| 0 <= j < i ==> !(#[trigger] self.0@[j]).has_extension(extension)
    }

    /// The first language of the table that has `extension`, if there is
    /// one.
    pub open spec fn lookup(&self, extension: Seq<char>) -> Option<Language> {
        if exists|i: int| self.first_with(extension, i) {
            Some(self.0@[choose|i: int| self.first_with(extension, i)])
        } else {
            None
        }
    }

    /// Every language of the table, in table order.
    pub fn all_language(&self) -> (all: &'static [Language])
        ensures
            all == self.0,
    {
        self.0
    }

    /// The language that files ending in `extension` are written in: the
    /// first of the table that lists it.
    pub fn get(&self, extension: &str) -> (found: Option<&Language>)
        ensures
            match found {
                Some(language) => self.lookup(extension@) == Some(*language) && exists|i: int|
                    self.first_with(extension@, i) && *language == self.0@[i],
                None => self.lookup(extension@) is None && forall|i: int|
                    0 <= i < self.0@.len() ==> !(#[trigger] self.0@[i]).has_extension(extension@),
            },
    {
        let mut i: usize = 0;
        while i < self.0.len()
            invariant
                i <= self.0@.len(),
                forall|j: int| 0 <= j < i ==> !(#[trigger] self.0@[j]).has_extension(extension@),
            decreases self.0@.len() - i,
        {
            if self.0[i].claims(extension) {
                proof {
                    assert(self.first_with(extension@, i as int));
                    let k = choose|k: int| self.first_with(extension@, k);
                    assert(k == i);
                }
                return Some(&self.0[i]);
            }
            i += 1;
        }
        proof {
            assert forall|k: int| !self.first_with(extension@, k) by {
                if 0 <= k < self.0@.len() {
                    assert(!self.0@[k].has_extension(extension@));
                }
            }
        }
        None
    }
}

} // verus!
