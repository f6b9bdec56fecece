//! Work items: the steps a bot manages, each with a state and an assignee.
use vstd::prelude::*;
use crate::text::str_views;

verus! {

/// One step of a feature. `status` is one of
/// `unclaimed | claimed | in-progress | blocked | done`.
#[derive(Debug)]
pub struct WorkItem {
    pub id: String,
    pub title: String,
    pub status: String,
    pub assignee: Option<String>,
    pub areas: Vec<String>,
}

pub ghost struct WorkItemV {
    pub id: Seq<char>,
    pub title: Seq<char>,
    pub status: Seq<char>,
    pub assignee: Option<Seq<char>>,
    pub areas: Seq<Seq<char>>,
}

impl View for WorkItem {
    type V = WorkItemV;

    open spec fn view(&self) -> WorkItemV {
        WorkItemV {
            id: self.id@,
            title: self.title@,
            status: self.status@,
            assignee: match self.assignee {
                Some(a) => Some(a@),
                None => None,
            },
            areas: str_views(self.areas@),
        }
    }
}

pub open spec fn work_view(v: Seq<WorkItem>) -> Seq<WorkItemV> {
    v.map_values(|w: WorkItem| w@)
}

} // verus!
