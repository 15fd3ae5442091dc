//! Which configured directory applies to the working directory.
//!
//! Of the configured directories that are the working directory or above
//! it, the first in the sorting order of paths is taken; of two that sort
//! alike, the one that stands first in the configuration.

use vstd::prelude::*;
use crate::error::{Error, ErrorText};
use crate::parser::{Entries, Entry, Tables};
use crate::path::{
    components, components_of, is_ancestor, is_prefix, lemma_order_among_ancestors, parts_view,
    path_le,
};

verus! {

/// Whether the directory at `i` is the working directory or above it.
pub open spec fn applies(tables: Tables, cwd: Seq<char>, i: int) -> bool {
    0 <= i < tables.len() && is_ancestor(tables[i].0, cwd)
}

/// Whether the directory at `i` is the one that resolution takes.
pub open spec fn is_selected(tables: Tables, cwd: Seq<char>, i: int) -> bool {
    &&& applies(tables, cwd, i)
    &&& forall|j: int| #[trigger]
        applies(tables, cwd, j) ==> path_le(tables[i].0, tables[j].0) && (j < i ==> !path_le(
            tables[j].0,
            tables[i].0,
        ))
}

/// The position that resolution takes, where a directory applies.
pub open spec fn selected(tables: Tables, cwd: Seq<char>) -> int {
    choose|i: int| is_selected(tables, cwd, i)
}

/// Resolution takes at most one directory.
pub proof fn lemma_selected_once(tables: Tables, cwd: Seq<char>, i: int, j: int)
    requires
        is_selected(tables, cwd, i),
        is_selected(tables, cwd, j),
    ensures
        i == j,
        selected(tables, cwd) == i,
{
    assert(applies(tables, cwd, i));
    assert(applies(tables, cwd, j));
    let k = selected(tables, cwd);
    assert(applies(tables, cwd, k));
}

/// The directory that resolution takes is the outermost that applies: none
/// that applies has fewer components, and none that stands before it has as
/// few.
pub proof fn lemma_selected_outermost(tables: Tables, cwd: Seq<char>, i: int, j: int)
    requires
        is_selected(tables, cwd, i),
        applies(tables, cwd, j),
    ensures
        components(tables[i].0).len() <= components(tables[j].0).len(),
        j < i ==> components(tables[i].0).len() < components(tables[j].0).len(),
{
    lemma_order_among_ancestors(tables[i].0, tables[j].0, cwd);
    lemma_order_among_ancestors(tables[j].0, tables[i].0, cwd);
}

/// Among the first `n` directories, one that resolution would take of them.
proof fn lemma_best_among(tables: Tables, cwd: Seq<char>, n: int) -> (best: int)
    requires
        0 <= n <= tables.len(),
        exists|j: int| j < n && applies(tables, cwd, j),
    ensures
        best < n,
        applies(tables, cwd, best),
        forall|j: int| #[trigger]
            applies(tables, cwd, j) && j < n ==> components(tables[best].0).len() <= components(
                tables[j].0,
            ).len() && (j < best ==> components(tables[best].0).len() < components(
                tables[j].0,
            ).len()),
    decreases n,
{
    let last = n - 1;
    if exists|j: int| j < last && applies(tables, cwd, j) {
        let before = lemma_best_among(tables, cwd, last);
        if applies(tables, cwd, last) && components(tables[last].0).len() < components(
            tables[before].0,
        ).len() {
            last
        } else {
            before
        }
    } else {
        let w = choose|j: int| j < n && applies(tables, cwd, j);
        assert(w == last);
        last
    }
}

/// Where a directory applies, resolution takes exactly one; where none
/// does, it takes none.
pub proof fn lemma_resolution(tables: Tables, cwd: Seq<char>)
    ensures
        (exists|j: int| applies(tables, cwd, j)) ==> is_selected(
            tables,
            cwd,
            selected(tables, cwd),
        ),
        (forall|j: int| !applies(tables, cwd, j)) ==> forall|i: int| !is_selected(tables, cwd, i),
{
    if exists|j: int| applies(tables, cwd, j) {
        let w = choose|j: int| applies(tables, cwd, j);
        assert(w < tables.len() && applies(tables, cwd, w));
        let best = lemma_best_among(tables, cwd, tables.len() as int);
        assert forall|j: int| #[trigger] applies(tables, cwd, j) implies path_le(
            tables[best].0,
            tables[j].0,
        ) && (j < best ==> !path_le(tables[j].0, tables[best].0)) by {
            lemma_order_among_ancestors(tables[best].0, tables[j].0, cwd);
            lemma_order_among_ancestors(tables[j].0, tables[best].0, cwd);
        }
        assert(is_selected(tables, cwd, best));
    }
}

/// The position of the directory that applies to `cwd`, if one does.
pub fn select(entries: &Entries, cwd: &str) -> (found: Option<usize>)
    ensures
        match found {
            Some(i) => is_selected(entries@, cwd@, i as int) && selected(entries@, cwd@) == i,
            None => forall|j: int| !applies(entries@, cwd@, j),
        },
{
    let target = components_of(cwd);
    let mut found: Option<usize> = None;
    let mut depth: usize = 0;
    let mut n: usize = 0;
    while n < entries.len()
        invariant
            n <= entries@.len(),
            parts_view(target@) == components(cwd@),
            found is None ==> forall|j: int| j < n ==> !applies(entries@, cwd@, j),
            found matches Some(b) ==> {
                &&& b < n
                &&& applies(entries@, cwd@, b as int)
                &&& depth == components(entries@[b as int].0).len()
                &&& forall|j: int| #[trigger]
                    applies(entries@, cwd@, j) && j < n ==> depth <= components(
                        entries@[j].0,
                    ).len() && (j < b ==> depth < components(entries@[j].0).len())
            },
        decreases entries@.len() - n,
    {
        let here = components_of(entries.path_at(n).as_str());
        if is_prefix(&here, &target) {
            assert(applies(entries@, cwd@, n as int));
            assert(here@.len() == parts_view(here@).len());
            let better = match found {
                Some(_) => here.len() < depth,
                None => true,
            };
            if better {
                found = Some(n);
                depth = here.len();
            }
        }
        n += 1;
    }
    proof {
        if let Some(b) = found {
            assert forall|j: int| #[trigger] applies(entries@, cwd@, j) implies path_le(
                entries@[b as int].0,
                entries@[j].0,
            ) && (j < b ==> !path_le(entries@[j].0, entries@[b as int].0)) by {
                lemma_order_among_ancestors(entries@[b as int].0, entries@[j].0, cwd@);
                lemma_order_among_ancestors(entries@[j].0, entries@[b as int].0, cwd@);
            }
            lemma_selected_once(entries@, cwd@, b as int, b as int);
        }
    }
    found
}

/// The directory that applies to `cwd`, with its table.
pub fn resolve<'a>(entries: &'a Entries, cwd: &str) -> (found: Result<(&'a String, &'a Entry), Error>)
    ensures
        found is Ok <==> exists|j: int| applies(entries@, cwd@, j),
        found matches Ok((path, entry)) ==> {
            &&& is_selected(entries@, cwd@, selected(entries@, cwd@))
            &&& path@ == entries@[selected(entries@, cwd@)].0
            &&& entry@ == entries@[selected(entries@, cwd@)].1
            &&& (entries.wf() ==> entry.wf())
        },
        found matches Err(error) ==> error@ == ErrorText::NoConfigForPath(cwd@),
{
    match select(entries, cwd) {
        Some(i) => {
            assert(applies(entries@, cwd@, i as int));
            Ok((entries.path_at(i), entries.entry_at(i)))
        },
        None => Err(Error::NoConfigForPath(cwd.to_owned())),
    }
}

} // verus!
