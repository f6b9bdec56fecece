//! Clearing a business space: what would go, and the one thing that never
//! does — a code repository.
use vstd::prelude::*;
use crate::text::{chars_of, from_chars, i64_to_string, lower, lower_vec, push_str, signed_decimal, join, starts_with, trim, trim_str, seq_eq, starts_with_vec};
use crate::business::strip_end;
use crate::text::{copy_str, eq_ci, eq_ci_str, str_eq, decimal, usize_to_string};

verus! {

#[derive(Debug, Default)]
pub struct ClearProject {
    pub node_id: i64,
    pub name: String,
    /// Where the code is. Never deleted.
    pub repo: String,
}

#[derive(Debug, Default)]
pub struct ClearSpace {
    pub node_id: i64,
    pub name: String,
    pub label: String,
    /// Tagged Business: ticked by default. Anything else is offered unticked.
    pub suggested: bool,
    pub folders: usize,
    pub projects: Vec<ClearProject>,
    pub managers: Vec<String>,
    pub services: i64,
    pub commands: i64,
    pub reminders: i64,
    /// The space's folder in the vault, which is what gets removed.
    pub vault_dir: String,
    /// Why this one cannot be cleared, when it cannot.
    pub blocked: String,
}

#[derive(Debug, Default)]
pub struct ClearPreview {
    pub spaces: Vec<ClearSpace>,
}

pub open spec fn forward_slashes(s: Seq<char>) -> Seq<char> {
    s.map_values(|c: char| if c == '\\' {
        '/'
    } else {
        c
    })
}

/// A path as compared: trimmed, forward slashes, no trailing slash, ASCII
/// lowercase.
pub open spec fn norm_path(s: Seq<char>) -> Seq<char> {
    lower(strip_end(forward_slashes(trim(s)), '/'))
}

fn norm_path_exec(s: &str) -> (r: Vec<char>)
    ensures
        r@ == norm_path(s@),
{
    let t = trim_str(s);
    let v = chars_of(t.as_str());
    let mut f: Vec<char> = Vec::new();
    let mut i: usize = 0;
    while i < v.len()
        invariant
            i <= v.len(),
            v@ == trim(s@),
            f@ == forward_slashes(v@.take(i as int)),
        decreases v.len() - i,
    {
        let c = if v[i] == '\\' {
            '/'
        } else {
            v[i]
        };
        f.push(c);
        i = i + 1;
        assert(f@ =~= forward_slashes(v@.take(i as int)));
    }
    assert(v@.take(v.len() as int) =~= v@);
    let mut k = f.len();
    assert(f@.take(k as int) =~= f@);
    while k > 0 && f[k - 1] == '/'
        invariant
            k <= f.len(),
            strip_end(f@, '/') == strip_end(f@.take(k as int), '/'),
        decreases k,
    {
        assert(f@.take(k as int).drop_last() =~= f@.take(k - 1));
        k = k - 1;
    }
    proof {
        if k > 0 {
            assert(f@.take(k as int).last() == f@[k - 1]);
        }
    }
    let g = crate::text::sub_vec(&f, 0, k);
    lower_vec(&g)
}

/// Whether a repository is inside the folder about to be removed: the same
/// path, or one under it, compared without regard to ASCII case or to which
/// slash is used — never a mere prefix of a name.
pub open spec fn repo_inside_spec(vault_dir: Seq<char>, repo: Seq<char>) -> bool {
    let v = norm_path(vault_dir);
    let r = norm_path(repo);
    v.len() > 0 && r.len() > 0 && (r == v || starts_with(r, v.push('/')))
}

pub fn repo_inside(vault_dir: &str, repo: &str) -> (r: bool)
    ensures
        r == repo_inside_spec(vault_dir@, repo@),
{
    let v = norm_path_exec(vault_dir);
    let r = norm_path_exec(repo);
    if v.len() == 0 || r.len() == 0 {
        return false;
    }
    let mut vs = crate::text::sub_vec(&v, 0, v.len());
    vs.push('/');
    assert(vs@ =~= v@.push('/'));
    seq_eq(&r, &v) || starts_with_vec(&r, &vs)
}

pub open spec fn decimals(ids: Seq<i64>) -> Seq<Seq<char>> {
    ids.map_values(|i: i64| signed_decimal(i as int))
}

/// The ids as an SQL list: decimal, separated by commas.
pub fn in_list(ids: &[i64]) -> (r: String)
    ensures
        r@ == join(decimals(ids@), ","@),
{
    let mut parts: Vec<String> = Vec::new();
    let mut i: usize = 0;
    while i < ids.len()
        invariant
            i <= ids.len(),
            crate::text::str_views(parts@) == decimals(ids@).take(i as int),
        decreases ids.len() - i,
    {
        let s = i64_to_string(ids[i]);
        let ghost before = parts@;
        parts.push(s);
        i = i + 1;
        assert(crate::text::str_views(parts@) =~= crate::text::str_views(before).push(s@));
        assert(decimals(ids@).take(i as int) =~= decimals(ids@).take(i - 1).push(signed_decimal(ids@[i - 1] as int)));
    }
    assert(decimals(ids@).take(i as int) =~= decimals(ids@));
    crate::text::join_strings(&parts, ",")
}

pub ghost struct ClearProjectV {
    pub node_id: int,
    pub name: Seq<char>,
    pub repo: Seq<char>,
}

impl View for ClearProject {
    type V = ClearProjectV;

    open spec fn view(&self) -> ClearProjectV {
        ClearProjectV { node_id: self.node_id as int, name: self.name@, repo: self.repo@ }
    }
}

pub open spec fn projects_view(v: Seq<ClearProject>) -> Seq<ClearProjectV> {
    v.map_values(|p: ClearProject| p@)
}

/// The first project whose code is inside this folder.
pub open spec fn first_inside(ps: Seq<ClearProjectV>, vault_dir: Seq<char>) -> Option<ClearProjectV>
    decreases ps.len(),
{
    if ps.len() == 0 {
        None
    } else if repo_inside_spec(vault_dir, ps[0].repo) {
        Some(ps[0])
    } else {
        first_inside(ps.drop_first(), vault_dir)
    }
}

/// Why a space cannot be cleared: code inside its folder, which clearing
/// would delete; or a business made through the steps. Empty when it can.
pub open spec fn blocked_spec(ps: Seq<ClearProjectV>, vault_dir: Seq<char>, has_record: bool) -> Seq<char> {
    match first_inside(ps, vault_dir) {
        Some(p) => "The code for "@ + p.name + " is inside this folder, at "@ + p.repo
            + ". Clearing it would delete the code, so it is left alone."@,
        None => if has_record {
            "This business was set up through the business steps, and is not cleared from here."@
        } else {
            seq![]
        },
    }
}

pub fn blocked_reason(projects: &Vec<ClearProject>, vault_dir: &str, has_record: bool) -> (r: String)
    ensures
        r@ == blocked_spec(projects_view(projects@), vault_dir@, has_record),
{
    let ghost pv = projects_view(projects@);
    let mut i: usize = 0;
    assert(pv.subrange(0, pv.len() as int) =~= pv);
    while i < projects.len()
        invariant
            i <= projects.len(),
            pv == projects_view(projects@),
            first_inside(pv, vault_dir@) == first_inside(pv.subrange(i as int, pv.len() as int), vault_dir@),
        decreases projects.len() - i,
    {
        let ghost rest = pv.subrange(i as int, pv.len() as int);
        assert(rest[0] == projects@[i as int]@);
        if repo_inside(vault_dir, projects[i].repo.as_str()) {
            let mut m = copy_str("The code for ");
            push_str(&mut m, projects[i].name.as_str());
            push_str(&mut m, " is inside this folder, at ");
            push_str(&mut m, projects[i].repo.as_str());
            push_str(&mut m, ". Clearing it would delete the code, so it is left alone.");
            return m;
        }
        assert(rest.drop_first() =~= pv.subrange(i + 1, pv.len() as int));
        i = i + 1;
    }
    if has_record {
        copy_str("This business was set up through the business steps, and is not cleared from here.")
    } else {
        String::new()
    }
}

/// A space tagged Personal: never offered, never cleared.
pub open spec fn is_personal(label: Option<Seq<char>>) -> bool {
    match label {
        Some(l) => eq_ci(l, "Personal"@),
        None => false,
    }
}

/// A space tagged Business is offered ticked.
pub open spec fn is_suggested(label: Option<Seq<char>>) -> bool {
    match label {
        Some(l) => eq_ci(l, crate::business::LABEL@),
        None => false,
    }
}

pub fn personal(label: Option<&str>) -> (r: bool)
    ensures
        r == is_personal(match label {
            Some(l) => Some(l@),
            None => None,
        }),
{
    match label {
        Some(l) => eq_ci_str(l, "Personal"),
        None => false,
    }
}

pub fn suggested(label: Option<&str>) -> (r: bool)
    ensures
        r == is_suggested(match label {
            Some(l) => Some(l@),
            None => None,
        }),
{
    match label {
        Some(l) => eq_ci_str(l, crate::business::LABEL),
        None => false,
    }
}

/// A clear goes ahead only when it was confirmed with the word `clear`.
pub fn confirm_clear(confirm: &str) -> (r: Result<(), String>)
    ensures
        confirm@ == "clear"@ ==> r is Ok,
        confirm@ != "clear"@ ==> (r matches Err(e) && e@ == "Nothing was cleared: the clear was not confirmed."@),
{
    if str_eq(confirm, "clear") {
        Ok(())
    } else {
        Err(copy_str("Nothing was cleared: the clear was not confirmed."))
    }
}

/// A space that may be cleared from here: not Personal, and not a business
/// made through the steps.
pub fn may_clear(name: &str, label: Option<&str>, has_record: bool) -> (r: Result<(), String>)
    ensures
        is_personal(match label {
            Some(l) => Some(l@),
            None => None,
        }) ==> (r matches Err(e) && e@ == name@ + " is Personal and is never cleared from here."@),
        !is_personal(match label {
            Some(l) => Some(l@),
            None => None,
        }) && has_record ==> (r matches Err(e) && e@ == name@
            + " was set up as a business and is not cleared from here."@),
        !is_personal(match label {
            Some(l) => Some(l@),
            None => None,
        }) && !has_record ==> r is Ok,
{
    if personal(label) {
        let mut e = copy_str(name);
        push_str(&mut e, " is Personal and is never cleared from here.");
        return Err(e);
    }
    if has_record {
        let mut e = copy_str(name);
        push_str(&mut e, " was set up as a business and is not cleared from here.");
        return Err(e);
    }
    Ok(())
}

/// `n thing`, or `n things`.
pub open spec fn counted(n: nat, thing: Seq<char>) -> Seq<char> {
    decimal(n) + " "@ + thing + if n == 1 {
        ""@
    } else {
        "s"@
    }
}

pub(crate) fn counted_exec(n: usize, thing: &str) -> (r: String)
    ensures
        r@ == counted(n as nat, thing@),
{
    let mut r = usize_to_string(n);
    push_str(&mut r, " ");
    push_str(&mut r, thing);
    if n != 1 {
        push_str(&mut r, "s");
    }
    proof {
        reveal_strlit("");
        if n == 1 {
            assert(r@ =~= counted(n as nat, thing@));
        }
    }
    r
}

/// What a space's line in the report says once it is cleared.
pub fn cleared_line(name: &str, folders: usize, projects: usize, managers: usize) -> (r: String)
    ensures
        r@ == name@ + ": cleared. "@ + counted(folders as nat, "folder"@) + ", "@ + counted(projects as nat, "project"@)
            + ", "@ + counted(managers as nat, "manager"@) + "."@,
{
    let mut r = copy_str(name);
    push_str(&mut r, ": cleared. ");
    push_str(&mut r, counted_exec(folders, "folder").as_str());
    push_str(&mut r, ", ");
    push_str(&mut r, counted_exec(projects, "project").as_str());
    push_str(&mut r, ", ");
    push_str(&mut r, counted_exec(managers, "manager").as_str());
    push_str(&mut r, ".");
    r
}

/// What a space's line says when it is left alone, and why.
pub fn not_cleared_line(name: &str, blocked: &str) -> (r: String)
    ensures
        r@ == name@ + ": not cleared. "@ + blocked@,
{
    let mut r = copy_str(name);
    push_str(&mut r, ": not cleared. ");
    push_str(&mut r, blocked);
    r
}

/// What a space's line says when its folder is not in the vault.
pub fn outside_vault_line(name: &str) -> (r: String)
    ensures
        r@ == name@ + ": not cleared, its folder is outside the vault."@,
{
    let mut r = copy_str(name);
    push_str(&mut r, ": not cleared, its folder is outside the vault.");
    r
}

/// The spaces with those offered ticked first, each group in the order it
/// came: the ones the owner asked to clear lead.
pub fn suggested_first(spaces: Vec<ClearSpace>) -> (r: Vec<ClearSpace>)
    ensures
        r@ == spaces@.filter(|s: ClearSpace| s.suggested) + spaces@.filter(|s: ClearSpace| !s.suggested),
{
    let ghost sv = spaces@;
    let mut yes: Vec<ClearSpace> = Vec::new();
    let mut no: Vec<ClearSpace> = Vec::new();
    let mut rest = spaces;
    let mut i: usize = 0;
    let n = rest.len();
    assert(sv.skip(0) =~= sv);
    while rest.len() > 0
        invariant
            n == sv.len(),
            rest.len() + i == n,
            rest@ == sv.skip(i as int),
            yes@ == sv.take(i as int).filter(|s: ClearSpace| s.suggested),
            no@ == sv.take(i as int).filter(|s: ClearSpace| !s.suggested),
        decreases rest.len(),
    {
        let s = rest.remove(0);
        proof {
            assert(s == sv[i as int]);
            assert(rest@ =~= sv.skip(i + 1));
            assert(sv.take(i + 1) =~= sv.take(i as int).push(sv[i as int]));
            sv.take(i as int).lemma_filter_push(sv[i as int], |s: ClearSpace| s.suggested);
            sv.take(i as int).lemma_filter_push(sv[i as int], |s: ClearSpace| !s.suggested);
        }
        if s.suggested {
            yes.push(s);
        } else {
            no.push(s);
        }
        i = i + 1;
    }
    assert(sv.take(n as int) =~= sv);
    yes.append(&mut no);
    yes
}

} // verus!
