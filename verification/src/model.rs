//! Carrying out a plan, seen from the base directory. A place is the list of
//! names that leads to it. The model knows one thing of a file system: which
//! places exist. Visiting a place makes it if it is missing and leaves it
//! alone if it is there; nothing is ever removed.

use crate::action::{spec_action, target_of, Action, Target};
use crate::plan::TreePlanView;
use vstd::prelude::*;

verus! {

/// The places of a plan in the order in which they are visited: the root,
/// then each entry.
pub open spec fn places(plan: TreePlanView) -> Seq<Seq<Seq<char>>> {
    seq![seq![plan.root]] + Seq::new(plan.entries.len(), |i: int| plan.entries[i].path())
}

/// What stands at each place of a plan.
pub open spec fn targets(plan: TreePlanView) -> Seq<Target> {
    seq![Target::Root] + Seq::new(plan.entries.len(), |i: int| target_of(plan.entries[i].kind))
}

/// The places that exist after `visited` have been visited in order,
/// starting from `existing`.
pub open spec fn existing_after(
    existing: Set<Seq<Seq<char>>>,
    visited: Seq<Seq<Seq<char>>>,
) -> Set<Seq<Seq<char>>>
    decreases visited.len(),
{
    if visited.len() == 0 {
        existing
    } else {
        existing_after(existing, visited.drop_last()).insert(visited.last())
    }
}

/// The action taken at place `i` of a plan that is carried out from
/// `existing`: the place is made if nothing before made it and it was not
/// there at the start.
pub open spec fn action_at(existing: Set<Seq<Seq<char>>>, plan: TreePlanView, i: int) -> Action {
    spec_action(
        targets(plan)[i],
        existing_after(existing, places(plan).take(i)).contains(places(plan)[i]),
    )
}

/// After a visit of `visited`, exactly the places exist that existed before
/// or were visited.
pub proof fn lemma_existing_after(
    existing: Set<Seq<Seq<char>>>,
    visited: Seq<Seq<Seq<char>>>,
    place: Seq<Seq<char>>,
)
    ensures
        existing_after(existing, visited).contains(place) <==> existing.contains(place)
            || visited.contains(place),
    decreases visited.len(),
{
    if visited.len() > 0 {
        let front = visited.drop_last();
        lemma_existing_after(existing, front, place);
        if front.contains(place) {
            let k = choose|k: int| 0 <= k < front.len() && front[k] == place;
            assert(visited[k] == place);
        }
        if visited.contains(place) {
            let k = choose|k: int| 0 <= k < visited.len() && visited[k] == place;
            if k < visited.len() - 1 {
                assert(front[k] == place);
            }
        }
        assert(visited[visited.len() - 1] == visited.last());
    }
}

/// Carrying out a plan a second time changes nothing: the same places exist
/// after the second run as after the first, and the second run finds every
/// place of the plan there and makes none.
pub proof fn lemma_second_run_changes_nothing(existing: Set<Seq<Seq<char>>>, plan: TreePlanView)
    ensures
        ({
            let after = existing_after(existing, places(plan));
            &&& existing_after(after, places(plan)) == after
            &&& forall|i: int|
                0 <= i < places(plan).len() ==> !(#[trigger] action_at(after, plan, i)).create
        }),
{
    let all = places(plan);
    let after = existing_after(existing, all);
    assert forall|p: Seq<Seq<char>>| existing_after(after, all).contains(p) == after.contains(
        p,
    ) by {
        lemma_existing_after(after, all, p);
        lemma_existing_after(existing, all, p);
    }
    assert(existing_after(after, all) =~= after);
    assert forall|i: int| 0 <= i < all.len() implies !(#[trigger] action_at(after, plan, i)).create by {
        assert(all.contains(all[i]));
        lemma_existing_after(existing, all, all[i]);
        lemma_existing_after(after, all.take(i), all[i]);
    }
}

/// Carrying out a plan where some of its places exist already keeps all that
/// existed, ends with every place of the plan there, and makes a place only
/// if it was missing at the start.
pub proof fn lemma_existing_places_are_kept(existing: Set<Seq<Seq<char>>>, plan: TreePlanView)
    ensures
        existing.subset_of(existing_after(existing, places(plan))),
        forall|i: int|
            0 <= i < places(plan).len() ==> existing_after(existing, places(plan)).contains(
                #[trigger] places(plan)[i],
            ),
        forall|i: int|
            0 <= i < places(plan).len() && (#[trigger] action_at(existing, plan, i)).create
                ==> !existing.contains(places(plan)[i]),
{
    let all = places(plan);
    assert forall|p: Seq<Seq<char>>| existing.contains(p) implies existing_after(
        existing,
        all,
    ).contains(p) by {
        lemma_existing_after(existing, all, p);
    }
    assert forall|i: int| 0 <= i < all.len() implies existing_after(existing, all).contains(
        #[trigger] all[i],
    ) by {
        assert(all.contains(all[i]));
        lemma_existing_after(existing, all, all[i]);
    }
    assert forall|i: int|
        0 <= i < all.len() && (#[trigger] action_at(existing, plan, i)).create
            implies !existing.contains(all[i]) by {
        lemma_existing_after(existing, all.take(i), all[i]);
    }
}

} // verus!
