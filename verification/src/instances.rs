//! Index of the live scene: instance identifiers grouped by asset file
//! name.
//!
//! The caller queries the remote service for the scene's item instances and
//! hands the listing here. Grouping preserves discovery order within each
//! group and first-appearance order across groups, and the index is a full
//! replacement on every snapshot: equal listings yield equal indexes.

use vstd::prelude::*;

use crate::text;

verus! {

/// One live occurrence of an asset in the current scene.
#[derive(Debug)]
pub struct SceneInstance {
    pub asset_file_name: String,
    pub instance_id: String,
}

/// Specification-level reading of an instance listing.
pub open spec fn instances_view(items: Seq<SceneInstance>) -> Seq<(Seq<char>, Seq<char>)> {
    items.map_values(|it: SceneInstance| (it.asset_file_name@, it.instance_id@))
}

/// Specification-level reading of one group's identifier list.
pub open spec fn ids_view(v: Seq<String>) -> Seq<Seq<char>> {
    v.map_values(|s: String| s@)
}

/// Specification-level reading of a built index.
pub open spec fn index_view(gs: Seq<(String, Vec<String>)>) -> Seq<(Seq<char>, Seq<Seq<char>>)> {
    gs.map_values(|g: (String, Vec<String>)| (g.0@, ids_view(g.1@)))
}

/// Index of the first group named `name`.
pub open spec fn find_group(gs: Seq<(Seq<char>, Seq<Seq<char>>)>, name: Seq<char>) -> Option<int>
    decreases gs.len(),
{
    if gs.len() == 0 {
        None
    } else if gs[0].0 == name {
        Some(0int)
    } else {
        match find_group(gs.drop_first(), name) {
            Some(i) => Some(i + 1),
            None => None,
        }
    }
}

pub proof fn lemma_find_group(gs: Seq<(Seq<char>, Seq<Seq<char>>)>, name: Seq<char>)
    ensures
        (match find_group(gs, name) {
            Some(i) => 0 <= i < gs.len() && (#[trigger] gs[i]).0 == name && (forall|j: int|
                0 <= j < i ==> (#[trigger] gs[j]).0 != name),
            None => forall|j: int| 0 <= j < gs.len() ==> (#[trigger] gs[j]).0 != name,
        }),
    decreases gs.len(),
{
    if gs.len() > 0 {
        let rest = gs.drop_first();
        lemma_find_group(rest, name);
        assert(forall|k: int| 0 <= k < rest.len() ==> #[trigger] rest[k] == gs[k + 1]);
        if gs[0].0 != name {
            match find_group(rest, name) {
                Some(i) => {
                    assert(rest[i] == gs[i + 1]);
                    assert forall|j: int| 0 <= j < i + 1 implies (#[trigger] gs[j]).0 != name by {
                        if j > 0 {
                            assert(rest[j - 1] == gs[j]);
                        }
                    }
                },
                None => {
                    assert forall|j: int| 0 <= j < gs.len() implies (#[trigger] gs[j]).0
                        != name by {
                        if j > 0 {
                            assert(rest[j - 1] == gs[j]);
                        }
                    }
                },
            }
        }
    }
}

/// Adds one `(name, id)` observation to an index: the id joins the first
/// group of that name, or opens a new group at the end.
pub open spec fn add_item(
    gs: Seq<(Seq<char>, Seq<Seq<char>>)>,
    name: Seq<char>,
    id: Seq<char>,
) -> Seq<(Seq<char>, Seq<Seq<char>>)> {
    match find_group(gs, name) {
        Some(g) => gs.update(g, (gs[g].0, gs[g].1.push(id))),
        None => gs.push((name, seq![id])),
    }
}

/// The index of an instance listing, built by adding each observation in
/// discovery order.
pub open spec fn spec_group(items: Seq<(Seq<char>, Seq<char>)>) -> Seq<
    (Seq<char>, Seq<Seq<char>>),
>
    decreases items.len(),
{
    if items.len() == 0 {
        Seq::<(Seq<char>, Seq<Seq<char>>)>::empty()
    } else {
        add_item(spec_group(items.drop_last()), items.last().0, items.last().1)
    }
}

/// First group named `name`, as [`find_group`] does.
fn find_group_ix(gs: &Vec<(String, Vec<String>)>, name: &str) -> (r: Option<usize>)
    ensures
        (match r {
            Some(g) => find_group(index_view(gs@), name@) == Some(g as int),
            None => find_group(index_view(gs@), name@) is None,
        }),
{
    let ghost view = index_view(gs@);
    let mut j: usize = 0;
    while j < gs.len()
        invariant
            j <= gs@.len(),
            view == index_view(gs@),
            forall|l: int| 0 <= l < j ==> (#[trigger] view[l]).0 != name@,
        decreases gs@.len() - j,
    {
        if text::str_eq_str(gs[j].0.as_str(), name) {
            proof {
                lemma_find_group(view, name@);
                match find_group(view, name@) {
                    Some(i) => {
                        if i < j as int {
                            assert(view[i].0 != name@);
                        }
                        if i > j as int {
                            assert(view[j as int].0 != name@);
                        }
                    },
                    None => {
                        assert(view[j as int].0 != name@);
                    },
                }
            }
            return Some(j);
        }
        j = j + 1;
    }
    proof {
        lemma_find_group(view, name@);
        match find_group(view, name@) {
            Some(i) => {
                assert(view[i].0 != name@);
            },
            None => {},
        }
    }
    None
}

/// Groups an instance listing by asset file name, preserving discovery order
/// within each group; the result is exactly [`spec_group`] of the listing.
pub fn group_instances(items: &Vec<SceneInstance>) -> (r: Vec<(String, Vec<String>)>)
    ensures
        index_view(r@) == spec_group(instances_view(items@)),
{
    let ghost whole = instances_view(items@);
    let mut gs: Vec<(String, Vec<String>)> = Vec::new();
    let mut k: usize = 0;
    proof {
        assert(whole.subrange(0, 0) =~= Seq::<(Seq<char>, Seq<char>)>::empty());
        assert(index_view(gs@) =~= Seq::<(Seq<char>, Seq<Seq<char>>)>::empty());
    }
    while k < items.len()
        invariant
            k <= items@.len(),
            whole == instances_view(items@),
            index_view(gs@) == spec_group(whole.subrange(0, k as int)),
        decreases items@.len() - k,
    {
        let ghost pre = whole.subrange(0, k as int);
        let ghost post = whole.subrange(0, k as int + 1);
        proof {
            assert(post.drop_last() =~= pre);
            assert(post.last() == whole[k as int]);
        }
        let it = &items[k];
        let ghost name = it.asset_file_name@;
        let ghost id = it.instance_id@;
        match find_group_ix(&gs, it.asset_file_name.as_str()) {
            Some(g) => {
                let ghost gs_snap = index_view(gs@);
                proof {
                    lemma_find_group(gs_snap, name);
                }
                let mut pair = gs.remove(g);
                pair.1.push(it.instance_id.clone());
                let ghost new_ids = pair.1@;
                gs.insert(g, pair);
                proof {
                    assert(ids_view(new_ids) =~= gs_snap[g as int].1.push(id));
                    assert(index_view(gs@) =~= gs_snap.update(
                        g as int,
                        (gs_snap[g as int].0, gs_snap[g as int].1.push(id)),
                    ));
                    assert(index_view(gs@) == add_item(gs_snap, name, id));
                }
            },
            None => {
                let ghost gs_snap = index_view(gs@);
                let mut ids: Vec<String> = Vec::new();
                ids.push(it.instance_id.clone());
                proof {
                    assert(ids_view(ids@) =~= seq![id]);
                }
                gs.push((it.asset_file_name.clone(), ids));
                proof {
                    assert(index_view(gs@) =~= gs_snap.push((name, seq![id])));
                    assert(index_view(gs@) == add_item(gs_snap, name, id));
                }
            },
        }
        k = k + 1;
    }
    proof {
        assert(whole.subrange(0, items@.len() as int) =~= whole);
    }
    gs
}

/// Identifier list of the group named `name`, when the index has one.
pub fn lookup_instances<'a>(gs: &'a Vec<(String, Vec<String>)>, name: &str) -> (r: Option<
    &'a Vec<String>,
>)
    ensures
        (match r {
            Some(ids) => (find_group(index_view(gs@), name@) matches Some(g) && ids_view(ids@)
                == index_view(gs@)[g].1),
            None => find_group(index_view(gs@), name@) is None,
        }),
{
    match find_group_ix(gs, name) {
        Some(g) => {
            proof {
                lemma_find_group(index_view(gs@), name@);
            }
            Some(&gs[g].1)
        },
        None => None,
    }
}

/// Rebuilding the index from an unchanged listing yields an equal index: the
/// index is a function of the listing alone.
pub proof fn lemma_snapshot_idempotent(
    first: Seq<(Seq<char>, Seq<char>)>,
    second: Seq<(Seq<char>, Seq<char>)>,
)
    requires
        first == second,
    ensures
        spec_group(first) == spec_group(second),
{
}

} // verus!
