use vstd::prelude::*;
use crate::bitmap::Bitmap;
use crate::scene::{CompositeMode, PropKind};

verus! {

/// A decoded, render-ready prop: one or more same-sized sprites (a
/// spritesheet, a decoded frame sequence, or a single colour fill), with the
/// kind and composite mode carried over from the definition. Never mutated
/// after loading.
#[derive(Debug)]
pub struct LoadedProp {
    pub id: String,
    pub kind: PropKind,
    pub mode: CompositeMode,
    pub sprites: Vec<Bitmap>,
    pub width: u32,
    pub height: u32,
}

impl LoadedProp {
    /// At least one sprite, and every sprite is a well-formed bitmap of the
    /// prop's resolved size.
    pub open spec fn wf(&self) -> bool {
        &&& self.sprites@.len() >= 1
        &&& forall|i: int| 0 <= i < self.sprites@.len() ==> {
            &&& (#[trigger] self.sprites@[i]).wf()
            &&& self.sprites@[i].width == self.width
            &&& self.sprites@[i].height == self.height
        }
    }
}

/// The loaded-prop mapping of one render, shared read-only by every frame.
#[derive(Debug)]
pub struct PropTable {
    pub entries: Vec<LoadedProp>,
}

impl PropTable {
    /// Every entry is a well-formed loaded prop, and no two entries share
    /// an identifier.
    pub open spec fn wf(&self) -> bool {
        &&& forall|i: int| 0 <= i < self.entries@.len() ==> (#[trigger] self.entries@[i]).wf()
        &&& forall|i: int, j: int| 0 <= i < j < self.entries@.len()
            ==> (#[trigger] self.entries@[i]).id@ != (#[trigger] self.entries@[j]).id@
    }
}

/// Index of the first entry whose identifier is `id`, if any: directions
/// resolve their prop reference to the earliest entry under that name.
pub open spec fn find_loaded(t: Seq<LoadedProp>, id: Seq<char>) -> Option<int>
    decreases t.len(),
{
    if t.len() == 0 {
        None
    } else if t[0].id@ == id {
        Some(0int)
    } else {
        match find_loaded(t.skip(1), id) {
            None => None,
            Some(j) => Some(j + 1),
        }
    }
}

/// What `find_loaded` returns: the first matching index, or nothing when no
/// entry matches.
pub proof fn lemma_find_loaded(t: Seq<LoadedProp>, id: Seq<char>)
    ensures
        match find_loaded(t, id) {
            Some(j) => 0 <= j < t.len() && t[j].id@ == id
                && forall|k: int| 0 <= k < j ==> (#[trigger] t[k]).id@ != id,
            None => forall|k: int| 0 <= k < t.len() ==> (#[trigger] t[k]).id@ != id,
        },
    decreases t.len(),
{
    if t.len() > 0 && t[0].id@ != id {
        let s = t.skip(1);
        lemma_find_loaded(s, id);
        match find_loaded(s, id) {
            Some(j) => {
                assert(t[j + 1] == s[j]);
                assert forall|k: int| 0 <= k < j + 1 implies (#[trigger] t[k]).id@ != id by {
                    if k >= 1 {
                        assert(t[k] == s[k - 1]);
                    }
                }
            },
            None => {
                assert forall|k: int| 0 <= k < t.len() implies (#[trigger] t[k]).id@ != id by {
                    if k >= 1 {
                        assert(t[k] == s[k - 1]);
                    }
                }
            },
        }
    }
}

impl PropTable {
    /// Resolves a prop reference to the index of its first entry.
    pub fn find(&self, id: &String) -> (r: Option<usize>)
        ensures
            match r {
                Some(j) => find_loaded(self.entries@, id@) == Some(j as int),
                None => find_loaded(self.entries@, id@) is None,
            },
    {
        let n = self.entries.len();
        let mut i: usize = 0;
        while i < n
            invariant
                i <= n,
                n == self.entries@.len(),
                forall|k: int| 0 <= k < i ==> (#[trigger] self.entries@[k]).id@ != id@,
            decreases n - i,
        {
            let p = &self.entries[i];
            if p.id == *id {
                proof {
                    lemma_find_loaded(self.entries@, id@);
                }
                return Some(i);
            }
            i = i + 1;
        }
        proof {
            lemma_find_loaded(self.entries@, id@);
        }
        None
    }
}

} // verus!
