//! The category directory and its single-flight cache.
//!
//! The selectable category records are fetched from the directory at
//! most once per run.  Whatever the fetch's outcome, the cache is
//! populated — a failed fetch caches an empty directory — and is
//! never refreshed afterwards.

use vstd::prelude::*;

use crate::text::str_eq;
use crate::text::strings_view;

verus! {

/// One selectable category record: its identifier and its display
/// title, if it has one.
pub struct Category {
    pub id: String,
    pub title: Option<String>,
}

/// The label a category record is shown under: its title, or
/// "Untitled" when it has none.
pub open spec fn spec_label(c: Category) -> Seq<char> {
    match c.title {
        Some(t) => t@,
        None => "Untitled"@,
    }
}

/// The labels of a category directory, in order.
pub open spec fn labels_of(cs: Seq<Category>) -> Seq<Seq<char>> {
    Seq::new(cs.len(), |i: int| spec_label(cs[i]))
}

impl Category {
    /// The display label: the title, or "Untitled" without one.
    pub fn label(&self) -> (r: String)
        ensures
            r@ == spec_label(*self),
    {
        match &self.title {
            Some(t) => t.clone(),
            None => "Untitled".to_owned(),
        }
    }
}

/// The display labels of the directory, in order.
pub fn labels(cats: &Vec<Category>) -> (r: Vec<String>)
    ensures
        strings_view(r@) == labels_of(cats@),
{
    let mut r: Vec<String> = Vec::new();
    let mut i: usize = 0;
    while i < cats.len()
        invariant
            i <= cats@.len(),
            strings_view(r@) =~= labels_of(cats@).take(i as int),
        decreases cats@.len() - i,
    {
        let ghost before = r@;
        let l = cats[i].label();
        r.push(l);
        proof {
            assert(strings_view(before).len() == i);
            assert(before.len() == i);
            assert(r@[i as int]@ == spec_label(cats@[i as int]));
            assert(strings_view(r@) =~= labels_of(cats@).take(i as int + 1));
        }
        i = i + 1;
    }
    proof {
        assert(labels_of(cats@).take(cats@.len() as int) =~= labels_of(cats@));
    }
    r
}

/// Where the selection cursor starts: the first directory entry whose
/// label equals the preselection hint exactly, if both exist.
pub fn preselect_position(cats: &Vec<Category>, preselect: &Option<String>) -> (r: Option<usize>)
    ensures
        match r {
            Some(i) => i < cats@.len() && (match *preselect {
                Some(p) => spec_label(cats@[i as int]) == p@ && (forall|j: int|
                    0 <= j < i ==> #[trigger] spec_label(cats@[j]) != p@),
                None => false,
            }),
            None => match *preselect {
                Some(p) => forall|j: int|
                    0 <= j < cats@.len() ==> #[trigger] spec_label(cats@[j]) != p@,
                None => true,
            },
        },
{
    match preselect.as_ref() {
        None => None,
        Some(p) => {
            let mut i: usize = 0;
            while i < cats.len()
                invariant
                    i <= cats@.len(),
                    *preselect is Some,
                    (*preselect)->0 == *p,
                    forall|j: int| 0 <= j < i ==> #[trigger] spec_label(cats@[j]) != p@,
                decreases cats@.len() - i,
            {
                let l = cats[i].label();
                if str_eq(l.as_str(), p.as_str()) {
                    return Some(i);
                }
                i = i + 1;
            }
            None
        },
    }
}

/// The abstract cache state: whether the one fetch happened yet, and
/// what it yielded.
pub ghost struct CacheView {
    pub loaded: bool,
    pub entries: Seq<Category>,
}

/// The single-flight cache for the category directory.
pub struct CategoryCache {
    loaded: bool,
    entries: Vec<Category>,
}

impl View for CategoryCache {
    type V = CacheView;

    closed spec fn view(&self) -> CacheView {
        CacheView { loaded: self.loaded, entries: self.entries@ }
    }
}

impl CategoryCache {
    /// An empty cache: nothing fetched yet.
    pub fn new() -> (r: CategoryCache)
        ensures
            !r@.loaded,
            r@.entries == Seq::<Category>::empty(),
    {
        CategoryCache { loaded: false, entries: Vec::new() }
    }

    /// Whether the one fetch is still owed.
    pub fn needs_fetch(&self) -> (r: bool)
        ensures
            r == !self@.loaded,
    {
        !self.loaded
    }

    /// Store the fetch's outcome, success or failure alike: a failed
    /// fetch caches an empty directory.  Allowed only once.
    pub fn store(&mut self, fetched: Option<Vec<Category>>)
        requires
            !old(self)@.loaded,
        ensures
            final(self)@.loaded,
            final(self)@.entries == (match fetched {
                Some(v) => v@,
                None => Seq::<Category>::empty(),
            }),
    {
        match fetched {
            Some(v) => {
                self.entries = v;
            },
            None => {
                self.entries = Vec::new();
            },
        }
        self.loaded = true;
    }

    /// The cached directory, possibly empty.
    pub fn entries(&self) -> (r: &Vec<Category>)
        ensures
            r@ == self@.entries,
    {
        &self.entries
    }
}

/// How many fetches a run of ensure-loaded rounds performs: a round
/// fetches exactly when nothing is cached yet, and from then on the
/// cache stays loaded.
pub open spec fn spec_rounds_fetches(loaded: bool, rounds: nat) -> nat
    decreases rounds,
{
    if rounds == 0 {
        0
    } else {
        (if loaded {
            0nat
        } else {
            1nat
        }) + spec_rounds_fetches(true, (rounds - 1) as nat)
    }
}

proof fn lemma_loaded_never_fetches(rounds: nat)
    ensures
        spec_rounds_fetches(true, rounds) == 0,
    decreases rounds,
{
    if rounds > 0 {
        lemma_loaded_never_fetches((rounds - 1) as nat);
    }
}

/// However many category steps a session runs, the fetch collaborator
/// is consulted at most once.
pub proof fn lemma_single_flight(loaded: bool, rounds: nat)
    ensures
        spec_rounds_fetches(loaded, rounds) <= 1,
{
    if rounds > 0 {
        lemma_loaded_never_fetches((rounds - 1) as nat);
    }
}

} // verus!
