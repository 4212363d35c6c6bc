//! Name history index: what was entered before, and under which
//! category.
//!
//! The index is built once from a configuration mapping of category
//! label to the entry names seen under it.  It folds every name to
//! lower case for a case-insensitive category lookup (on duplicate
//! names the last write wins), and keeps the original-case names
//! once each, in first-seen order, for autocompletion.

use vstd::prelude::*;

use crate::text::lower_of;
use crate::text::lowercase;
use crate::text::strings_view;

verus! {

/// The abstract index: a category per case-folded name, and the
/// original-case names in first-seen order.
pub ghost struct IndexView {
    pub categories: Map<Seq<char>, Seq<char>>,
    pub names: Seq<Seq<char>>,
}

/// One name folds into the index: its category keyed by the folded
/// name (replacing an earlier entry), and the original spelling
/// appended only on first sight.
pub open spec fn index_insert(m: IndexView, label: Seq<char>, name: Seq<char>) -> IndexView {
    IndexView {
        categories: m.categories.insert(lower_of(name), label),
        names: if m.names.contains(name) {
            m.names
        } else {
            m.names.push(name)
        },
    }
}

/// The first `j` names of one configuration entry, folded in.
pub open spec fn index_add_names(
    m: IndexView,
    label: Seq<char>,
    names: Seq<Seq<char>>,
    j: int,
) -> IndexView
    decreases j,
{
    if j <= 0 {
        m
    } else {
        index_insert(index_add_names(m, label, names, j - 1), label, names[j - 1])
    }
}

/// The empty index.
pub open spec fn index_empty() -> IndexView {
    IndexView { categories: Map::empty(), names: Seq::empty() }
}

/// The first `i` configuration entries, folded in.
pub open spec fn index_of_entries(es: Seq<(Seq<char>, Seq<Seq<char>>)>, i: int) -> IndexView
    decreases i,
{
    if i <= 0 {
        index_empty()
    } else {
        let prev = index_of_entries(es, i - 1);
        index_add_names(prev, es[i - 1].0, es[i - 1].1, es[i - 1].1.len() as int)
    }
}

/// The views of a configuration: each entry a category label and the
/// names listed under it.
pub open spec fn entries_view(es: Seq<(String, Vec<String>)>) -> Seq<(Seq<char>, Seq<Seq<char>>)> {
    Seq::new(es.len(), |i: int| (es[i].0@, strings_view(es[i].1@)))
}

/// The index a configuration builds.
pub open spec fn spec_index(es: Seq<(String, Vec<String>)>) -> IndexView {
    index_of_entries(entries_view(es), es.len() as int)
}

/// The key/category pairs, read as a map in which a later pair for
/// the same key replaces an earlier one.
pub open spec fn pairs_map(ps: Seq<(String, String)>) -> Map<Seq<char>, Seq<char>>
    decreases ps.len(),
{
    if ps.len() == 0 {
        Map::empty()
    } else {
        pairs_map(ps.drop_last()).insert(ps.last().0@, ps.last().1@)
    }
}

/// Pairs beyond `i` whose key is not `k` do not affect the lookup of
/// `k`.
proof fn lemma_pairs_map_skip(ps: Seq<(String, String)>, i: int, k: Seq<char>)
    requires
        0 <= i <= ps.len(),
        forall|j: int| i <= j < ps.len() ==> (#[trigger] ps[j].0)@ != k,
    ensures
        pairs_map(ps).contains_key(k) == pairs_map(ps.take(i)).contains_key(k),
        pairs_map(ps).contains_key(k) ==> pairs_map(ps)[k] == pairs_map(ps.take(i))[k],
    decreases ps.len() - i,
{
    if i == ps.len() {
        assert(ps.take(i) =~= ps);
    } else {
        let t1 = ps.take(i + 1);
        assert(t1.drop_last() =~= ps.take(i));
        assert(t1.last() == ps[i]);
        assert(pairs_map(t1) == pairs_map(ps.take(i)).insert(ps[i].0@, ps[i].1@));
        lemma_pairs_map_skip(ps, i + 1, k);
    }
}

/// The normalized name index.
pub struct NameHistoryIndex {
    categories: Vec<(String, String)>,
    names: Vec<String>,
}

impl View for NameHistoryIndex {
    type V = IndexView;

    closed spec fn view(&self) -> IndexView {
        IndexView { categories: pairs_map(self.categories@), names: strings_view(self.names@) }
    }
}

impl NameHistoryIndex {
    /// Build the index from configuration entries, in order: within
    /// an entry its names in order, so that on duplicate names the
    /// last write wins for the category while the first occurrence
    /// keeps its place in the name list.
    pub fn from_entries(entries: &Vec<(String, Vec<String>)>) -> (r: NameHistoryIndex)
        ensures
            r@ == spec_index(entries@),
    {
        let mut idx = NameHistoryIndex { categories: Vec::new(), names: Vec::new() };
        proof {
            assert(pairs_map(idx.categories@) =~= index_empty().categories);
            assert(strings_view(idx.names@) =~= index_empty().names);
        }
        let mut i: usize = 0;
        while i < entries.len()
            invariant
                i <= entries@.len(),
                idx@ == index_of_entries(entries_view(entries@), i as int),
            decreases entries@.len() - i,
        {
            let ghost entry_start = idx@;
            let label = &entries[i].0;
            let names = &entries[i].1;
            let mut j: usize = 0;
            while j < names.len()
                invariant
                    j <= names@.len(),
                    label@ == entries@[i as int].0@,
                    names@ == entries@[i as int].1@,
                    i < entries@.len(),
                    idx@ == index_add_names(
                        entry_start,
                        label@,
                        strings_view(names@),
                        j as int,
                    ),
                decreases names@.len() - j,
            {
                let name = &names[j];
                let folded = lowercase(name.as_str());
                let ghost cats_before = idx.categories@;
                idx.categories.push((folded, label.clone()));
                proof {
                    assert(idx.categories@.drop_last() =~= cats_before);
                    assert(pairs_map(idx.categories@) == pairs_map(cats_before).insert(
                        lower_of(name@),
                        label@,
                    ));
                }
                let mut seen = false;
                let mut k: usize = 0;
                while k < idx.names.len()
                    invariant
                        k <= idx.names@.len(),
                        name@ == entries@[i as int].1@[j as int]@,
                        seen == exists|q: int|
                            0 <= q < k && (#[trigger] idx.names@[q])@ == name@,
                    decreases idx.names@.len() - k,
                {
                    if idx.names[k] == *name {
                        seen = true;
                    }
                    k = k + 1;
                }
                let ghost names_before = idx.names@;
                proof {
                    assert(seen == strings_view(names_before).contains(name@)) by {
                        if seen {
                            let q = choose|q: int|
                                0 <= q < names_before.len() && (#[trigger] names_before[q])@
                                    == name@;
                            assert(strings_view(names_before)[q] == name@);
                        } else {
                            if strings_view(names_before).contains(name@) {
                                let q = choose|q: int|
                                    0 <= q < names_before.len() && strings_view(
                                        names_before,
                                    )[q] == name@;
                                assert(names_before[q]@ == name@);
                            }
                        }
                    };
                }
                if !seen {
                    idx.names.push(name.clone());
                    proof {
                        assert(strings_view(idx.names@) =~= strings_view(names_before).push(
                            name@,
                        ));
                    }
                }
                proof {
                    assert(strings_view(names@)[j as int] == name@);
                    assert(idx@ == index_insert(
                        index_add_names(entry_start, label@, strings_view(names@), j as int),
                        label@,
                        name@,
                    ));
                }
                j = j + 1;
            }
            proof {
                assert(strings_view(names@) == entries_view(entries@)[i as int].1);
                assert(idx@ == index_of_entries(entries_view(entries@), i as int + 1));
            }
            i = i + 1;
        }
        idx
    }

    /// The category label recorded for a name, looked up without
    /// regard to case.
    pub fn get(&self, key: &str) -> (r: Option<String>)
        ensures
            match r {
                Some(v) => self@.categories.contains_key(lower_of(key@)) && v@
                    == self@.categories[lower_of(key@)],
                None => !self@.categories.contains_key(lower_of(key@)),
            },
    {
        let folded = lowercase(key);
        let mut idx = self.categories.len();
        while idx > 0
            invariant
                idx <= self.categories@.len(),
                folded@ == lower_of(key@),
                forall|j: int|
                    idx <= j < self.categories@.len() ==> (#[trigger] self.categories@[j].0)@
                        != folded@,
            decreases idx,
        {
            idx = idx - 1;
            let pair = &self.categories[idx];
            if pair.0 == folded {
                proof {
                    lemma_pairs_map_skip(self.categories@, idx as int + 1, folded@);
                    let t1 = self.categories@.take(idx as int + 1);
                    assert(t1.drop_last() =~= self.categories@.take(idx as int));
                    assert(t1.last() == self.categories@[idx as int]);
                }
                return Some(pair.1.clone());
            }
        }
        proof {
            lemma_pairs_map_skip(self.categories@, 0, folded@);
            assert(self.categories@.take(0) =~= Seq::<(String, String)>::empty());
        }
        None
    }

    /// The known entry names, original case, first-seen order.
    pub fn list(&self) -> (r: Vec<String>)
        ensures
            strings_view(r@) == self@.names,
    {
        let mut r: Vec<String> = Vec::new();
        let mut i: usize = 0;
        while i < self.names.len()
            invariant
                i <= self.names@.len(),
                strings_view(r@) =~= strings_view(self.names@).take(i as int),
            decreases self.names@.len() - i,
        {
            let ghost before = r@;
            r.push(self.names[i].clone());
            proof {
                assert(strings_view(before).len() == i);
                assert(before.len() == i);
                assert(r@[i as int]@ == self.names@[i as int]@);
                assert(strings_view(r@) =~= strings_view(self.names@).take(i as int + 1));
            }
            i = i + 1;
        }
        proof {
            assert(strings_view(self.names@).take(self.names@.len() as int) =~= strings_view(
                self.names@,
            ));
        }
        r
    }
}

/// Category lookup is case-insensitive by construction: a name just
/// recorded is found under any spelling whose case folding agrees
/// with the recorded name's.
pub proof fn lemma_lookup_case_insensitive(
    m: IndexView,
    label: Seq<char>,
    name: Seq<char>,
    query: Seq<char>,
)
    requires
        lower_of(query) == lower_of(name),
    ensures
        index_insert(m, label, name).categories.contains_key(lower_of(query)),
        index_insert(m, label, name).categories[lower_of(query)] == label,
{
}

} // verus!
