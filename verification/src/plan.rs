//! A bot's plan: the steps it puts on its feature's work list.
//!
//! Titles are the identity here: applying the same plan twice adds nothing
//! the second time, whatever the case it was typed in.
use vstd::prelude::*;
use crate::text::{eq_ci, eq_ci_str, copy_str, numbered, next_free, str_views};
use crate::deck::{WorkItem, WorkItemV, work_view};
use crate::bots::{tidy, tidy_names, work_ids, next_work_id};

verus! {

/// The steps as given, trimmed, the blank ones dropped; a plan with none
/// left is refused.
pub fn plan_steps(steps: &Vec<String>) -> (r: Result<Vec<String>, String>)
    ensures
        ({
            let t = tidy_names(str_views(steps@));
            if t.len() == 0 {
                r matches Err(e) && e@ == "A plan needs at least one step."@
            } else {
                r matches Ok(v) && str_views(v@) == t
            }
        }),
{
    let t = tidy(steps);
    if t.len() == 0 {
        return Err(copy_str("A plan needs at least one step."));
    }
    Ok(t)
}

/// Whether a step with this title, in any case, is already on the list.
pub open spec fn has_title(items: Seq<WorkItemV>, title: Seq<char>) -> bool {
    exists|i: int| 0 <= i < items.len() && eq_ci(#[trigger] items[i].title, title)
}

/// A new step: the next free `w<n>` id, unclaimed, with no one on it.
pub open spec fn new_step(items: Seq<WorkItemV>, title: Seq<char>) -> WorkItemV {
    WorkItemV {
        id: numbered("w"@, next_free(work_ids(items), "w"@)),
        title,
        status: "unclaimed"@,
        assignee: None,
        areas: seq![],
    }
}

/// The list with each step added in turn, unless its title is there already.
pub open spec fn with_steps(items: Seq<WorkItemV>, steps: Seq<Seq<char>>) -> Seq<WorkItemV>
    decreases steps.len(),
{
    if steps.len() == 0 {
        items
    } else {
        let before = with_steps(items, steps.drop_last());
        if has_title(before, steps.last()) {
            before
        } else {
            before.push(new_step(before, steps.last()))
        }
    }
}

proof fn lemma_with_steps_len(items: Seq<WorkItemV>, steps: Seq<Seq<char>>)
    ensures
        items.len() <= with_steps(items, steps).len() <= items.len() + steps.len(),
    decreases steps.len(),
{
    if steps.len() > 0 {
        lemma_with_steps_len(items, steps.drop_last());
    }
}

fn title_taken(items: &Vec<WorkItem>, title: &str) -> (r: bool)
    ensures
        r == has_title(work_view(items@), title@),
{
    let ghost w = work_view(items@);
    let mut i: usize = 0;
    while i < items.len()
        invariant
            i <= items.len(),
            w == work_view(items@),
            forall|j: int| 0 <= j < i ==> !eq_ci(#[trigger] w[j].title, title@),
        decreases items.len() - i,
    {
        if eq_ci_str(items[i].title.as_str(), title) {
            assert(eq_ci(w[i as int].title, title@));
            return true;
        }
        i = i + 1;
    }
    false
}

/// Add each step that is not on the list yet, and say how many were added.
pub fn add_steps(items: &mut Vec<WorkItem>, steps: &Vec<String>) -> (added: usize)
    requires
        old(items).len() + steps.len() < usize::MAX / 2,
    ensures
        work_view(final(items)@) == with_steps(work_view(old(items)@), str_views(steps@)),
        added == final(items).len() - old(items).len(),
{
    let ghost start = work_view(items@);
    let ghost s = str_views(steps@);
    let mut added: usize = 0;
    let mut i: usize = 0;
    while i < steps.len()
        invariant
            i <= steps.len(),
            s == str_views(steps@),
            work_view(items@) == with_steps(start, s.take(i as int)),
            items.len() == start.len() + added,
            start.len() + steps.len() < usize::MAX / 2,
            added <= i,
        decreases steps.len() - i,
    {
        proof {
            assert(s.take(i + 1).drop_last() =~= s.take(i as int));
            assert(s.take(i + 1).last() == steps@[i as int]@);
            lemma_with_steps_len(start, s.take(i as int));
        }
        let title = steps[i].as_str();
        if !title_taken(items, title) {
            let id = next_work_id(items.as_slice());
            let ghost before = work_view(items@);
            items.push(WorkItem {
                id,
                title: copy_str(title),
                status: copy_str("unclaimed"),
                assignee: None,
                areas: Vec::new(),
            });
            proof {
                let last = items@.last();
                assert(last@.areas =~= Seq::<Seq<char>>::empty());
                assert(work_view(items@) =~= before.push(new_step(before, title@)));
            }
            added = added + 1;
        }
        i = i + 1;
    }
    assert(s.take(steps.len() as int) =~= s);
    added
}

proof fn lemma_has_title_push(items: Seq<WorkItemV>, x: WorkItemV, t: Seq<char>)
    requires
        has_title(items, t),
    ensures
        has_title(items.push(x), t),
{
    let i = choose|i: int| 0 <= i < items.len() && eq_ci(#[trigger] items[i].title, t);
    assert(items.push(x)[i] == items[i]);
}

proof fn lemma_prefix_kept(items: Seq<WorkItemV>, steps: Seq<Seq<char>>)
    ensures
        with_steps(items, steps).take(items.len() as int) == items,
        items.len() <= with_steps(items, steps).len(),
    decreases steps.len(),
{
    if steps.len() == 0 {
        assert(items.take(items.len() as int) =~= items);
    } else {
        let before = with_steps(items, steps.drop_last());
        lemma_prefix_kept(items, steps.drop_last());
        if !has_title(before, steps.last()) {
            let after = before.push(new_step(before, steps.last()));
            assert(after.take(items.len() as int) =~= before.take(items.len() as int));
        }
    }
}

proof fn lemma_every_step_there(items: Seq<WorkItemV>, steps: Seq<Seq<char>>, k: int)
    requires
        0 <= k < steps.len(),
    ensures
        has_title(with_steps(items, steps), steps[k]),
    decreases steps.len(),
{
    let before = with_steps(items, steps.drop_last());
    let t = steps.last();
    if k < steps.len() - 1 {
        lemma_every_step_there(items, steps.drop_last(), k);
        assert(steps.drop_last()[k] == steps[k]);
        if !has_title(before, t) {
            lemma_has_title_push(before, new_step(before, t), steps[k]);
        }
    } else if !has_title(before, t) {
        let after = before.push(new_step(before, t));
        assert(after[before.len() as int].title == t);
        assert(eq_ci(after[before.len() as int].title, t));
    }
}

proof fn lemma_nothing_new(items: Seq<WorkItemV>, steps: Seq<Seq<char>>)
    requires
        forall|k: int| 0 <= k < steps.len() ==> has_title(items, #[trigger] steps[k]),
    ensures
        with_steps(items, steps) == items,
    decreases steps.len(),
{
    if steps.len() > 0 {
        assert forall|k: int| 0 <= k < steps.drop_last().len() implies has_title(items, #[trigger] steps.drop_last()[k]) by {
            assert(steps.drop_last()[k] == steps[k]);
        }
        lemma_nothing_new(items, steps.drop_last());
        assert(has_title(items, steps[steps.len() - 1]));
    }
}

/// Adding steps keeps every step that was there, as it was, in its place.
pub proof fn law_adding_steps_keeps_the_list(items: Seq<WorkItemV>, steps: Seq<Seq<char>>)
    ensures
        with_steps(items, steps).take(items.len() as int) == items,
        items.len() <= with_steps(items, steps).len(),
{
    lemma_prefix_kept(items, steps);
}

/// Applying the same plan twice adds nothing the second time.
pub proof fn law_a_plan_applied_twice_adds_nothing(items: Seq<WorkItemV>, steps: Seq<Seq<char>>)
    ensures
        with_steps(with_steps(items, steps), steps) == with_steps(items, steps),
{
    let a = with_steps(items, steps);
    assert forall|k: int| 0 <= k < steps.len() implies has_title(a, #[trigger] steps[k]) by {
        lemma_every_step_there(items, steps, k);
    }
    lemma_nothing_new(a, steps);
}

} // verus!
