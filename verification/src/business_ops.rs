//! What the business screens decide: how a business is summed up in the
//! list, what a new one starts as, what saving the screen keeps, and which
//! agreed products and services still need a folder of their own.
use vstd::prelude::*;
use crate::text::{copy_str, eq_ci, eq_ci_str, is_blank, str_eq, trim, trim_str};
use crate::business::{
    BusinessMeta, BusinessSummary, Director, FolderRef, Suggestion, SuggestionV, agreed_for, counts_as_agreed,
    folder_name, folder_name_spec, items_view,
};

verus! {

/// How many things of this kind the business agreed it has.
pub open spec fn agreed_count(items: Seq<SuggestionV>, field: Seq<char>) -> nat {
    agreed_for(items, field).len()
}

proof fn lemma_agreed_count_le(items: Seq<SuggestionV>, field: Seq<char>)
    ensures
        agreed_count(items, field) <= items.len(),
    decreases items.len(),
{
    if items.len() > 0 {
        lemma_agreed_count_le(items.drop_last(), field);
    }
}

fn count_agreed(items: &Vec<Suggestion>, field: &str) -> (r: usize)
    ensures
        r == agreed_count(items_view(items@), field@),
{
    let ghost v = items_view(items@);
    let mut n: usize = 0;
    let mut i: usize = 0;
    while i < items.len()
        invariant
            i <= items.len(),
            v == items_view(items@),
            n == agreed_count(v.take(i as int), field@),
        decreases items.len() - i,
    {
        proof {
            assert(v.take(i + 1).drop_last() =~= v.take(i as int));
            assert(v.take(i + 1).last() == items@[i as int]@);
            lemma_agreed_count_le(v.take(i as int), field@);
        }
        let s = &items[i];
        let agreed = str_eq(s.state.as_str(), "agreed") || (str_eq(s.kind.as_str(), "you") && !str_eq(
            s.state.as_str(),
            "declined",
        ));
        if str_eq(s.field.as_str(), field) && agreed {
            n = n + 1;
        }
        i = i + 1;
    }
    assert(v.take(items.len() as int) =~= v);
    n
}

/// A business as the list shows it: with its record, what it agreed and
/// who runs it; without one, only that it is not set up yet.
pub fn summarize(node_id: i64, name: String, meta: Option<&BusinessMeta>, mailboxes: i64) -> (r: BusinessSummary)
    ensures
        r.node_id == node_id,
        r.name == name,
        r.mailboxes == mailboxes,
        match meta {
            Some(m) => {
                &&& r.set_up
                &&& r.website@ == m.website@
                &&& r.step@ == m.step@
                &&& r.made == m.made
                &&& r.products == agreed_count(items_view(m.items@), "product"@)
                &&& r.services == agreed_count(items_view(m.items@), "service"@)
                &&& r.directors == m.directors.len()
            },
            None => {
                &&& !r.set_up
                &&& r.website@.len() == 0
                &&& r.step@.len() == 0
                &&& !r.made
                &&& r.products == 0
                &&& r.services == 0
                &&& r.directors == 0
            },
        },
{
    match meta {
        Some(m) => BusinessSummary {
            node_id,
            name,
            website: copy_str(m.website.as_str()),
            set_up: true,
            step: copy_str(m.step.as_str()),
            made: m.made,
            products: count_agreed(&m.items, "product"),
            services: count_agreed(&m.items, "service"),
            mailboxes,
            directors: m.directors.len(),
        },
        None => BusinessSummary {
            node_id,
            name,
            website: String::new(),
            set_up: false,
            step: String::new(),
            made: false,
            products: 0,
            services: 0,
            mailboxes,
            directors: 0,
        },
    }
}

/// A new business's record: its name, its site, you as its one director,
/// and the first step.
pub fn new_business(name: &str, website: &str) -> (r: BusinessMeta)
    ensures
        r.name@ == name@,
        r.website@ == trim(website@),
        r.directors@.len() == 1,
        r.directors@[0].name@ == "You"@,
        r.directors@[0].email@.len() == 0,
        r.directors@[0].you,
        r.items@.len() == 0,
        r.site_how@.len() == 0,
        r.site_read_at@.len() == 0,
        r.site_chars == 0,
        r.site_pages@.len() == 0,
        r.step@ == "business"@,
        !r.made,
{
    let mut directors: Vec<Director> = Vec::new();
    directors.push(Director { name: copy_str("You"), email: String::new(), you: true });
    BusinessMeta {
        name: copy_str(name),
        website: trim_str(website),
        directors,
        items: Vec::new(),
        site_how: String::new(),
        site_read_at: String::new(),
        site_chars: 0,
        site_pages: Vec::new(),
        step: copy_str("business"),
        made: false,
    }
}

pub ghost struct DirectorV {
    pub name: Seq<char>,
    pub email: Seq<char>,
    pub you: bool,
}

impl View for Director {
    type V = DirectorV;

    open spec fn view(&self) -> DirectorV {
        DirectorV { name: self.name@, email: self.email@, you: self.you }
    }
}

pub open spec fn directors_view(v: Seq<Director>) -> Seq<DirectorV> {
    v.map_values(|d: Director| d@)
}

/// The directors worth keeping: you, and anyone with a name.
pub open spec fn kept_directors(ds: Seq<DirectorV>) -> Seq<DirectorV> {
    ds.filter(|d: DirectorV| d.you || trim(d.name).len() > 0)
}

/// An item as saved: with an id (`fresh` when it had none), its text
/// trimmed, and a state (agreed, for one you typed; open otherwise).
pub open spec fn saved_item(s: SuggestionV, fresh: Seq<char>) -> SuggestionV {
    SuggestionV {
        id: if s.id.len() == 0 {
            fresh
        } else {
            s.id
        },
        text: trim(s.text),
        state: if s.state.len() == 0 {
            if s.kind == "you"@ {
                "agreed"@
            } else {
                "open"@
            }
        } else {
            s.state
        },
        ..s
    }
}

/// The items as saved, in order, those left with no text dropped. The item
/// at each place takes the fresh id at the same place, should it need one.
pub open spec fn saved_items(items: Seq<SuggestionV>, fresh: Seq<Seq<char>>) -> Seq<SuggestionV>
    decreases items.len(),
{
    if items.len() == 0 {
        seq![]
    } else {
        let rest = saved_items(items.drop_last(), fresh);
        let x = saved_item(items.last(), fresh[items.len() - 1]);
        if x.text.len() > 0 {
            rest.push(x)
        } else {
            rest
        }
    }
}

/// What saving the business screen keeps: the name stays the folder's
/// (`prior_name`), the site is trimmed, directors with no name go unless one
/// is you, and every item is tidied. `fresh` holds a new id for each item.
pub fn save_meta(prior_name: &str, meta: BusinessMeta, fresh: &Vec<String>) -> (r: BusinessMeta)
    requires
        fresh.len() >= meta.items.len(),
    ensures
        r.name@ == prior_name@,
        r.website@ == trim(meta.website@),
        directors_view(r.directors@) == kept_directors(directors_view(meta.directors@)),
        items_view(r.items@) == saved_items(items_view(meta.items@), crate::text::str_views(fresh@)),
        r.site_how@ == meta.site_how@,
        r.site_read_at@ == meta.site_read_at@,
        r.site_chars == meta.site_chars,
        crate::text::str_views(r.site_pages@) == crate::text::str_views(meta.site_pages@),
        r.step@ == meta.step@,
        r.made == meta.made,
{
    let ghost dv = directors_view(meta.directors@);
    let mut directors: Vec<Director> = Vec::new();
    let mut i: usize = 0;
    while i < meta.directors.len()
        invariant
            i <= meta.directors.len(),
            dv == directors_view(meta.directors@),
            directors_view(directors@) == kept_directors(dv.take(i as int)),
        decreases meta.directors.len() - i,
    {
        proof {
            assert(dv.take(i + 1) =~= dv.take(i as int).push(dv[i as int]));
            dv.take(i as int).lemma_filter_push(dv[i as int], |d: DirectorV| d.you || trim(d.name).len() > 0);
            assert(dv[i as int] == meta.directors@[i as int]@);
        }
        let d = &meta.directors[i];
        if d.you || !is_blank(d.name.as_str()) {
            let ghost before = directors@;
            directors.push(Director { name: copy_str(d.name.as_str()), email: copy_str(d.email.as_str()), you: d.you });
            assert(directors_view(directors@) =~= directors_view(before).push(dv[i as int]));
        }
        i = i + 1;
    }
    assert(dv.take(meta.directors.len() as int) =~= dv);
    let ghost iv = items_view(meta.items@);
    let ghost fv = crate::text::str_views(fresh@);
    let mut items: Vec<Suggestion> = Vec::new();
    let mut k: usize = 0;
    while k < meta.items.len()
        invariant
            k <= meta.items.len(),
            fresh.len() >= meta.items.len(),
            iv == items_view(meta.items@),
            fv == crate::text::str_views(fresh@),
            items_view(items@) == saved_items(iv.take(k as int), fv),
        decreases meta.items.len() - k,
    {
        proof {
            assert(iv.take(k + 1).drop_last() =~= iv.take(k as int));
            assert(iv.take(k + 1).last() == meta.items@[k as int]@);
        }
        let s = &meta.items[k];
        let text = trim_str(s.text.as_str());
        if !text.as_str().is_empty() {
            let id = if s.id.as_str().is_empty() {
                copy_str(fresh[k].as_str())
            } else {
                copy_str(s.id.as_str())
            };
            let state = if s.state.as_str().is_empty() {
                if str_eq(s.kind.as_str(), "you") {
                    copy_str("agreed")
                } else {
                    copy_str("open")
                }
            } else {
                copy_str(s.state.as_str())
            };
            let ghost before = items@;
            items.push(
                Suggestion {
                    id,
                    field: copy_str(s.field.as_str()),
                    text,
                    kind: copy_str(s.kind.as_str()),
                    source: copy_str(s.source.as_str()),
                    state,
                    node_id: s.node_id,
                },
            );
            assert(items_view(items@) =~= items_view(before).push(saved_item(iv[k as int], fv[k as int])));
        }
        k = k + 1;
    }
    assert(iv.take(meta.items.len() as int) =~= iv);
    BusinessMeta {
        name: copy_str(prior_name),
        website: trim_str(meta.website.as_str()),
        directors,
        items,
        site_how: meta.site_how,
        site_read_at: meta.site_read_at,
        site_chars: meta.site_chars,
        site_pages: meta.site_pages,
        step: meta.step,
        made: meta.made,
    }
}

/// An agreed product or service that still needs a folder: the item's
/// place, the folder it goes under, the label the folder gets, and its name.
#[derive(Debug)]
pub struct CommitTarget {
    pub index: usize,
    pub folder: String,
    pub label: String,
    pub name: String,
}

pub ghost struct CommitTargetV {
    pub index: int,
    pub folder: Seq<char>,
    pub label: Seq<char>,
    pub name: Seq<char>,
}

impl View for CommitTarget {
    type V = CommitTargetV;

    open spec fn view(&self) -> CommitTargetV {
        CommitTargetV { index: self.index as int, folder: self.folder@, label: self.label@, name: self.name@ }
    }
}

pub open spec fn targets_view(v: Seq<CommitTarget>) -> Seq<CommitTargetV> {
    v.map_values(|t: CommitTarget| t@)
}

/// Each agreed product or service with no folder yet and a name a folder
/// can have, in order: products under Products, services under Services.
pub open spec fn commit_targets_spec(items: Seq<SuggestionV>) -> Seq<CommitTargetV>
    decreases items.len(),
{
    if items.len() == 0 {
        seq![]
    } else {
        let rest = commit_targets_spec(items.drop_last());
        let s = items.last();
        let name = folder_name_spec(s.text);
        if (s.field == "product"@ || s.field == "service"@) && counts_as_agreed(s) && s.node_id <= 0 && name.len()
            > 0 {
            rest.push(
                CommitTargetV {
                    index: items.len() - 1,
                    folder: if s.field == "product"@ {
                        "Products"@
                    } else {
                        "Services"@
                    },
                    label: if s.field == "product"@ {
                        "Product"@
                    } else {
                        "Service"@
                    },
                    name,
                },
            )
        } else {
            rest
        }
    }
}

pub fn commit_targets(items: &Vec<Suggestion>) -> (r: Vec<CommitTarget>)
    ensures
        targets_view(r@) == commit_targets_spec(items_view(items@)),
{
    let ghost v = items_view(items@);
    let mut r: Vec<CommitTarget> = Vec::new();
    let mut i: usize = 0;
    while i < items.len()
        invariant
            i <= items.len(),
            v == items_view(items@),
            targets_view(r@) == commit_targets_spec(v.take(i as int)),
        decreases items.len() - i,
    {
        proof {
            assert(v.take(i + 1).drop_last() =~= v.take(i as int));
            assert(v.take(i + 1).last() == items@[i as int]@);
        }
        let s = &items[i];
        let is_product = str_eq(s.field.as_str(), "product");
        let is_service = str_eq(s.field.as_str(), "service");
        let agreed = str_eq(s.state.as_str(), "agreed") || (str_eq(s.kind.as_str(), "you") && !str_eq(
            s.state.as_str(),
            "declined",
        ));
        if (is_product || is_service) && agreed && s.node_id <= 0 {
            let name = folder_name(s.text.as_str());
            if !name.as_str().is_empty() {
                let ghost before = r@;
                r.push(
                    CommitTarget {
                        index: i,
                        folder: if is_product {
                            copy_str("Products")
                        } else {
                            copy_str("Services")
                        },
                        label: if is_product {
                            copy_str("Product")
                        } else {
                            copy_str("Service")
                        },
                        name,
                    },
                );
                assert(targets_view(r@) =~= targets_view(before).push(r@.last()@));
            }
        }
        i = i + 1;
    }
    assert(v.take(items.len() as int) =~= v);
    r
}

/// The first folder with this name, whatever its case.
pub open spec fn folder_named(fs: Seq<(int, Seq<char>)>, name: Seq<char>) -> Option<int>
    decreases fs.len(),
{
    if fs.len() == 0 {
        None
    } else if eq_ci(fs[0].1, name) {
        Some(fs[0].0)
    } else {
        folder_named(fs.drop_first(), name)
    }
}

pub open spec fn folders_view(v: Seq<FolderRef>) -> Seq<(int, Seq<char>)> {
    v.map_values(|f: FolderRef| (f.node_id as int, f.name@))
}

/// The folder with this name, whatever its case: where a product goes, and
/// whether it is there already.
pub fn find_folder(folders: &Vec<FolderRef>, name: &str) -> (r: Option<i64>)
    ensures
        match folder_named(folders_view(folders@), name@) {
            Some(id) => r == Some(id as i64),
            None => r is None,
        },
{
    let ghost fv = folders_view(folders@);
    let mut i: usize = 0;
    assert(fv.subrange(0, fv.len() as int) =~= fv);
    while i < folders.len()
        invariant
            i <= folders.len(),
            fv == folders_view(folders@),
            folder_named(fv, name@) == folder_named(fv.subrange(i as int, fv.len() as int), name@),
        decreases folders.len() - i,
    {
        let ghost rest = fv.subrange(i as int, fv.len() as int);
        assert(rest[0] == (folders@[i as int].node_id as int, folders@[i as int].name@));
        if eq_ci_str(folders[i].name.as_str(), name) {
            return Some(folders[i].node_id);
        }
        assert(rest.drop_first() =~= fv.subrange(i + 1, fv.len() as int));
        i = i + 1;
    }
    None
}

} // verus!
