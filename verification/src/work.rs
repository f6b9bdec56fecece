//! A bot's steps as its page shows and edits them.
use vstd::prelude::*;
use crate::text::{copy_str, push_str, str_eq, trim, trim_str, is_blank, numbered, next_free};
use crate::deck::{WorkItem, WorkItemV, work_view};
use crate::bots::{next_work_id, work_ids};
use crate::runtime::{find_item, first_item};
use crate::text::copy_strings;

verus! {

/// One step, with the feature it belongs to.
#[derive(Debug)]
pub struct WorkRow {
    pub id: String,
    pub title: String,
    /// unclaimed | claimed | in-progress | blocked | done
    pub status: String,
    pub assignee: Option<String>,
    pub feature: String,
}

pub ghost struct WorkRowV {
    pub id: Seq<char>,
    pub title: Seq<char>,
    pub status: Seq<char>,
    pub assignee: Option<Seq<char>>,
    pub feature: Seq<char>,
}

impl View for WorkRow {
    type V = WorkRowV;

    open spec fn view(&self) -> WorkRowV {
        WorkRowV {
            id: self.id@,
            title: self.title@,
            status: self.status@,
            assignee: match self.assignee {
                Some(a) => Some(a@),
                None => None,
            },
            feature: self.feature@,
        }
    }
}

pub open spec fn rows_view(v: Seq<WorkRow>) -> Seq<WorkRowV> {
    v.map_values(|r: WorkRow| r@)
}

/// A step as the page lists it: with no status it is unclaimed.
pub open spec fn row_of(w: WorkItemV, feature: Seq<char>) -> WorkRowV {
    WorkRowV {
        id: w.id,
        title: w.title,
        status: if w.status.len() == 0 {
            "unclaimed"@
        } else {
            w.status
        },
        assignee: w.assignee,
        feature,
    }
}

fn copy_opt(a: &Option<String>) -> (r: Option<String>)
    ensures
        match (r, *a) {
            (Some(x), Some(y)) => x@ == y@,
            (None, None) => true,
            _ => false,
        },
{
    match a {
        Some(x) => Some(copy_str(x.as_str())),
        None => None,
    }
}

/// A feature's steps, in order, as rows.
pub fn work_rows(items: &Vec<WorkItem>, feature: &str) -> (r: Vec<WorkRow>)
    ensures
        rows_view(r@) == work_view(items@).map_values(|w: WorkItemV| row_of(w, feature@)),
{
    let ghost want = work_view(items@).map_values(|w: WorkItemV| row_of(w, feature@));
    let mut r: Vec<WorkRow> = Vec::new();
    let mut i: usize = 0;
    while i < items.len()
        invariant
            i <= items.len(),
            want == work_view(items@).map_values(|w: WorkItemV| row_of(w, feature@)),
            rows_view(r@) == want.take(i as int),
        decreases items.len() - i,
    {
        let it = &items[i];
        let status = if it.status.as_str().is_empty() {
            copy_str("unclaimed")
        } else {
            copy_str(it.status.as_str())
        };
        let row = WorkRow {
            id: copy_str(it.id.as_str()),
            title: copy_str(it.title.as_str()),
            status,
            assignee: copy_opt(&it.assignee),
            feature: copy_str(feature),
        };
        let ghost before = r@;
        r.push(row);
        proof {
            assert(items@[i as int]@ == work_view(items@)[i as int]);
            assert(rows_view(r@) =~= rows_view(before).push(want[i as int]));
            assert(want.take(i + 1) =~= want.take(i as int).push(want[i as int]));
        }
        i = i + 1;
    }
    assert(want.take(items.len() as int) =~= want);
    r
}

/// The states a step can be in.
pub open spec fn is_status(s: Seq<char>) -> bool {
    s == "unclaimed"@ || s == "claimed"@ || s == "in-progress"@ || s == "blocked"@ || s == "done"@
}

pub fn is_status_exec(s: &str) -> (r: bool)
    ensures
        r == is_status(s@),
{
    str_eq(s, "unclaimed") || str_eq(s, "claimed") || str_eq(s, "in-progress") || str_eq(s, "blocked")
        || str_eq(s, "done")
}

/// What a step from the page is checked for before anything is read: a
/// title, and a status a step can be in. The title comes back trimmed.
pub fn check_step(title: &str, status: &str) -> (r: Result<String, String>)
    ensures
        trim(title@).len() == 0 ==> (r matches Err(e) && e@ == "A step needs a title."@),
        trim(title@).len() > 0 && !is_status(status@) ==> (r matches Err(e) && e@ == status@
            + " is not a status a step can be in."@),
        trim(title@).len() > 0 && is_status(status@) ==> (r matches Ok(t) && t@ == trim(title@)),
{
    if is_blank(title) {
        return Err(copy_str("A step needs a title."));
    }
    if !is_status_exec(status) {
        let mut e = copy_str(status);
        push_str(&mut e, " is not a status a step can be in.");
        return Err(e);
    }
    Ok(trim_str(title))
}

/// An assignee who is only whitespace is no one.
pub open spec fn someone(a: Option<Seq<char>>) -> Option<Seq<char>> {
    match a {
        Some(x) => if trim(x).len() > 0 {
            Some(x)
        } else {
            None
        },
        None => None,
    }
}

/// The list with the step saved: the first step with this id takes the
/// title, status and assignee; with none, a new step is added, under this
/// id or, when it is blank, the next free one.
pub open spec fn saved_step(
    items: Seq<WorkItemV>,
    id: Seq<char>,
    title: Seq<char>,
    status: Seq<char>,
    assignee: Option<Seq<char>>,
) -> Seq<WorkItemV> {
    if exists|k: int| first_item(items, id, k) {
        let k = choose|k: int| first_item(items, id, k);
        items.update(k, WorkItemV { title, status, assignee: someone(assignee), ..items[k] })
    } else {
        items.push(
            WorkItemV {
                id: if trim(id).len() == 0 {
                    numbered("w"@, next_free(work_ids(items), "w"@))
                } else {
                    id
                },
                title,
                status,
                assignee: someone(assignee),
                areas: seq![],
            },
        )
    }
}

/// Add or change one step.
pub fn save_step(items: &mut Vec<WorkItem>, id: &str, title: String, status: String, assignee: Option<String>)
    requires
        old(items).len() < usize::MAX / 2,
    ensures
        work_view(final(items)@) == saved_step(
            work_view(old(items)@),
            id@,
            title@,
            status@,
            match assignee {
                Some(a) => Some(a@),
                None => None,
            },
        ),
{
    let ghost w = work_view(items@);
    let who = match assignee {
        Some(a) => if is_blank(a.as_str()) {
            None
        } else {
            Some(a)
        },
        None => None,
    };
    match find_item(items, id) {
        Some(k) => {
            let updated = WorkItem {
                id: copy_str(items[k].id.as_str()),
                title,
                status,
                assignee: who,
                areas: copy_strings(&items[k].areas),
            };
            let ghost nv = updated@;
            items.set(k, updated);
            proof {
                assert forall|k2: int| first_item(w, id@, k2) implies k2 == k by {
                    if k2 < k {
                        assert(w[k2].id != id@);
                    } else if k2 > k {
                        assert(w[k as int].id != id@);
                    }
                }
                let c = choose|k2: int| first_item(w, id@, k2);
                assert(c == k);
                assert(work_view(items@) =~= w.update(k as int, nv));
            }
        },
        None => {
            proof {
                assert forall|k2: int| !first_item(w, id@, k2) by {
                    if 0 <= k2 < w.len() {
                        assert(w[k2] == old(items)@[k2]@);
                    }
                }
            }
            let new_id = if is_blank(id) {
                next_work_id(items.as_slice())
            } else {
                copy_str(id)
            };
            items.push(WorkItem { id: new_id, title, status, assignee: who, areas: Vec::new() });
            proof {
                assert(items@.last()@.areas =~= Seq::<Seq<char>>::empty());
                assert(work_view(items@) =~= w.push(items@.last()@));
            }
        },
    }
}

/// The list without the steps with this id.
pub open spec fn without_id(items: Seq<WorkItemV>, id: Seq<char>) -> Seq<WorkItemV> {
    items.filter(|w: WorkItemV| w.id != id)
}

/// Remove every step with this id; the others keep their order.
pub fn remove_step(items: &mut Vec<WorkItem>, id: &str)
    ensures
        work_view(final(items)@) == without_id(work_view(old(items)@), id@),
{
    let ghost w = work_view(items@);
    let mut kept: Vec<WorkItem> = Vec::new();
    let mut all: Vec<WorkItem> = Vec::new();
    std::mem::swap(&mut all, items);
    assert(work_view(all@) == w);
    let mut i: usize = 0;
    let n = all.len();
    while i < n
        invariant
            n == all.len(),
            i <= n,
            work_view(all@) == w,
            work_view(kept@) == without_id(w.take(i as int), id@),
        decreases n - i,
    {
        proof {
            assert(w.take(i + 1) =~= w.take(i as int).push(w[i as int]));
            w.take(i as int).lemma_filter_push(w[i as int], |x: WorkItemV| x.id != id@);
        }
        if !str_eq(all[i].id.as_str(), id) {
            let it = WorkItem {
                id: copy_str(all[i].id.as_str()),
                title: copy_str(all[i].title.as_str()),
                status: copy_str(all[i].status.as_str()),
                assignee: copy_opt(&all[i].assignee),
                areas: copy_strings(&all[i].areas),
            };
            let ghost before = kept@;
            kept.push(it);
            proof {
                assert(all@[i as int]@ == w[i as int]);
                assert(work_view(kept@) =~= work_view(before).push(w[i as int]));
            }
        }
        i = i + 1;
    }
    assert(w.take(n as int) =~= w);
    *items = kept;
}

} // verus!
