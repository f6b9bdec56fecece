//! A business's code: repositories to link into its products, and the one
//! name every address GitHub hands out for the same repository.
use vstd::prelude::*;
use crate::text::{chars_of, copy_str, from_chars, lower, lower_vec, is_blank, ends_with, occurs_at, is_first_at, trim, trim_str};
use crate::business::strip_end;
use crate::json::{Json, JsonV, get_v, get_str, str_v, bool_v, arr_v};

verus! {

#[derive(Debug, Default)]
pub struct Repo {
    pub full_name: String,
    pub name: String,
    pub owner: String,
    pub description: String,
    pub private: bool,
    pub updated_at: String,
    pub language: String,
    pub clone_url: String,
    pub html_url: String,
}

#[derive(Debug, Default)]
pub struct RepoList {
    /// github | example
    pub source: String,
    pub login: String,
    pub signed_in: bool,
    pub repos: Vec<Repo>,
    pub note: String,
}

#[derive(Debug, Default)]
pub struct LinkRequest {
    /// The business space.
    pub business: i64,
    /// The folder the project goes in: a product, or Marketing.
    pub parent: i64,
    pub repo: Repo,
    pub clone_into: String,
}

#[derive(Debug, Default)]
pub struct Linked {
    pub node_id: i64,
    pub name: String,
    pub path: String,
    /// Already on this machine: used where it was, not cloned.
    pub reused: bool,
    pub commands: usize,
    pub services: usize,
}

/// The text without any run of `:` or `/` at its start.
pub open spec fn strip_lead_separators(s: Seq<char>) -> Seq<char>
    decreases s.len(),
{
    if s.len() > 0 && (s[0] == ':' || s[0] == '/') {
        strip_lead_separators(s.drop_first())
    } else {
        s
    }
}

/// Where "github.com" first occurs, if it does.
pub open spec fn github_at(u: Seq<char>) -> Option<int> {
    if exists|i: int| is_first_at(u, "github.com"@, 0, i) {
        Some(choose|i: int| is_first_at(u, "github.com"@, 0, i))
    } else {
        None
    }
}

/// The name a repository goes by, whatever address it was given as:
/// `owner/name`, ASCII lowercase, with no `.git`, no trailing slash and no
/// host.
pub open spec fn repo_key_spec(url: Seq<char>) -> Seq<char> {
    let u0 = strip_end(trim(url), '/');
    let u = if ends_with(u0, ".git"@) {
        u0.take(u0.len() - 4)
    } else {
        u0
    };
    let tail = match github_at(u) {
        Some(i) => u.skip(i + 10),
        None => u,
    };
    lower(strip_lead_separators(tail))
}

pub fn repo_key(url: &str) -> (r: String)
    ensures
        r@ == repo_key_spec(url@),
{
    proof {
        reveal_strlit(".git");
        reveal_strlit("github.com");
    }
    let t = trim_str(url);
    let v = chars_of(t.as_str());
    let mut k = v.len();
    assert(v@.take(k as int) =~= v@);
    while k > 0 && v[k - 1] == '/'
        invariant
            k <= v.len(),
            v@ == trim(url@),
            strip_end(v@, '/') == strip_end(v@.take(k as int), '/'),
        decreases k,
    {
        assert(v@.take(k as int).drop_last() =~= v@.take(k - 1));
        k = k - 1;
    }
    proof {
        if k > 0 {
            assert(v@.take(k as int).last() == v@[k - 1]);
        }
    }
    let u0 = crate::text::sub_vec(&v, 0, k);
    assert(u0@ =~= v@.take(k as int));
    assert(u0@ == strip_end(trim(url@), '/'));
    let git: Vec<char> = chars_of(".git");
    let u = if crate::text::ends_with_vec(&u0, &git) {
        crate::text::sub_vec(&u0, 0, u0.len() - 4)
    } else {
        crate::text::sub_vec(&u0, 0, u0.len())
    };
    proof {
        if !ends_with(u0@, ".git"@) {
            assert(u@ =~= u0@);
        } else {
            assert(u@ =~= u0@.take(u0@.len() - 4));
        }
    }
    let host: Vec<char> = chars_of("github.com");
    let start: usize = match crate::text::find_from(&u, &host, 0) {
        Some(i) => {
            proof {
                assert(is_first_at(u@, "github.com"@, 0, i as int));
                let c = choose|j: int| is_first_at(u@, "github.com"@, 0, j);
                if c < i {
                    assert(!occurs_at(u@, "github.com"@, c));
                } else if c > i {
                    assert(!occurs_at(u@, "github.com"@, i as int));
                }
            }
            i + 10
        },
        None => {
            proof {
                assert(!exists|j: int| is_first_at(u@, "github.com"@, 0, j));
            }
            0
        },
    };
    assert(u@.skip(start as int) == (match github_at(u@) {
        Some(i) => u@.skip(i + 10),
        None => u@,
    })) by {
        if start == 0 {
            assert(u@.skip(0) =~= u@);
        }
    }
    let mut a = start;
    assert(u@.skip(start as int).skip(0) =~= u@.skip(start as int));
    while a < u.len() && (u[a] == ':' || u[a] == '/')
        invariant
            start <= a <= u.len(),
            strip_lead_separators(u@.skip(start as int)) == strip_lead_separators(u@.skip(a as int)),
        decreases u.len() - a,
    {
        assert(u@.skip(a as int).drop_first() =~= u@.skip(a + 1));
        a = a + 1;
    }
    proof {
        if a < u.len() {
            assert(u@.skip(a as int)[0] == u@[a as int]);
        }
    }
    let rest = crate::text::sub_vec(&u, a, u.len());
    assert(rest@ =~= u@.skip(a as int));
    let low = lower_vec(&rest);
    from_chars(&low)
}

/// The address a repository is linked by: its clone address, or its page
/// when it has none. A repository with no address or no name cannot be
/// linked.
pub fn link_key(repo: &Repo) -> (r: Result<String, String>)
    ensures
        ({
            let key = repo_key_spec(if repo.clone_url@.len() == 0 {
                repo.html_url@
            } else {
                repo.clone_url@
            });
            if key.len() == 0 || trim(repo.name@).len() == 0 {
                r matches Err(e) && e@ == "That repository has no address to link."@
            } else {
                r matches Ok(k) && k@ == key
            }
        }),
{
    let key = if chars_of(repo.clone_url.as_str()).len() == 0 {
        repo_key(repo.html_url.as_str())
    } else {
        repo_key(repo.clone_url.as_str())
    };
    if chars_of(key.as_str()).len() == 0 || is_blank(repo.name.as_str()) {
        return Err(copy_str("That repository has no address to link."));
    }
    Ok(key)
}

/// What GitHub's refusal is told as.
pub open spec fn refusal_spec(status: u16) -> Seq<char> {
    if status == 401 {
        "GitHub rejected the stored token. Paste a new one."@
    } else if status == 403 {
        "GitHub refused (403). An organisation may need SSO authorising for this token."@
    } else {
        "GitHub answered "@ + crate::text::decimal(status as nat)
    }
}

/// What a refusal from GitHub with this status is told as.
pub fn github_refusal(status: u16) -> (r: String)
    ensures
        r@ == refusal_spec(status),
{
    if status == 401 {
        copy_str("GitHub rejected the stored token. Paste a new one.")
    } else if status == 403 {
        copy_str("GitHub refused (403). An organisation may need SSO authorising for this token.")
    } else {
        let mut r = copy_str("GitHub answered ");
        crate::text::push_str(&mut r, crate::text::u64_to_string(status as u64).as_str());
        r
    }
}

pub ghost struct RepoV {
    pub full_name: Seq<char>,
    pub name: Seq<char>,
    pub owner: Seq<char>,
    pub description: Seq<char>,
    pub private: bool,
    pub updated_at: Seq<char>,
    pub language: Seq<char>,
    pub clone_url: Seq<char>,
    pub html_url: Seq<char>,
}

impl View for Repo {
    type V = RepoV;

    open spec fn view(&self) -> RepoV {
        RepoV {
            full_name: self.full_name@,
            name: self.name@,
            owner: self.owner@,
            description: self.description@,
            private: self.private,
            updated_at: self.updated_at@,
            language: self.language@,
            clone_url: self.clone_url@,
            html_url: self.html_url@,
        }
    }
}

pub open spec fn repos_view(v: Seq<Repo>) -> Seq<RepoV> {
    v.map_values(|r: Repo| r@)
}

/// A member's text, or nothing.
pub open spec fn text_or_empty(j: JsonV, key: Seq<char>) -> Seq<char> {
    match get_str(j, key) {
        Some(s) => s,
        None => seq![],
    }
}

/// A repository as GitHub lists it: what is missing is empty, and a
/// repository not said to be private is not.
pub open spec fn repo_of_spec(r: JsonV) -> RepoV {
    RepoV {
        full_name: text_or_empty(r, "full_name"@),
        name: text_or_empty(r, "name"@),
        owner: match get_v(r, "owner"@) {
            Some(o) => text_or_empty(o, "login"@),
            None => seq![],
        },
        description: text_or_empty(r, "description"@),
        private: match get_v(r, "private"@) {
            Some(p) => match bool_v(p) {
                Some(b) => b,
                None => false,
            },
            None => false,
        },
        updated_at: text_or_empty(r, "updated_at"@),
        language: text_or_empty(r, "language"@),
        clone_url: text_or_empty(r, "clone_url"@),
        html_url: text_or_empty(r, "html_url"@),
    }
}

fn text_field(j: &Json, key: &str) -> (r: String)
    ensures
        r@ == text_or_empty(j@, key@),
{
    match j.get(key) {
        Some(v) => match v.as_str() {
            Some(s) => copy_str(s),
            None => String::new(),
        },
        None => String::new(),
    }
}

pub fn repo_of(r: &Json) -> (out: Repo)
    ensures
        out@ == repo_of_spec(r@),
{
    let owner = match r.get("owner") {
        Some(o) => text_field(o, "login"),
        None => String::new(),
    };
    let private = match r.get("private") {
        Some(p) => match p.as_bool() {
            Some(b) => b,
            None => false,
        },
        None => false,
    };
    Repo {
        full_name: text_field(r, "full_name"),
        name: text_field(r, "name"),
        owner,
        description: text_field(r, "description"),
        private,
        updated_at: text_field(r, "updated_at"),
        language: text_field(r, "language"),
        clone_url: text_field(r, "clone_url"),
        html_url: text_field(r, "html_url"),
    }
}

/// One page of GitHub's listing: its repositories, in order; nothing when
/// the page is not a list.
pub fn repos_page(page: &Json) -> (r: Option<Vec<Repo>>)
    ensures
        match arr_v(page@) {
            None => r is None,
            Some(xs) => r matches Some(v) && repos_view(v@) == xs.map_values(|x: JsonV| repo_of_spec(x)),
        },
{
    match page.as_array() {
        None => None,
        Some(items) => {
            let ghost xs = crate::json::jsons_view(items@);
            let mut out: Vec<Repo> = Vec::new();
            let mut i: usize = 0;
            while i < items.len()
                invariant
                    i <= items.len(),
                    xs == crate::json::jsons_view(items@),
                    repos_view(out@) == xs.take(i as int).map_values(|x: JsonV| repo_of_spec(x)),
                decreases items.len() - i,
            {
                let r = repo_of(&items[i]);
                let ghost before = out@;
                out.push(r);
                proof {
                    assert(xs[i as int] == items@[i as int]@);
                    assert(xs.take(i + 1) =~= xs.take(i as int).push(xs[i as int]));
                    assert(repos_view(out@) =~= repos_view(before).push(repo_of_spec(xs[i as int])));
                }
                i = i + 1;
            }
            assert(xs.take(items.len() as int) =~= xs);
            proof {
                if let JsonV::Arr(a) = page@ {
                    assert(a =~= xs);
                }
            }
            Some(out)
        },
    }
}

/// Whether to ask for the page after this one: only after a full page of a
/// hundred, and never past the fifth.
pub fn wants_next_page(page: u32, count: usize) -> (r: bool)
    ensures
        r == (count >= 100 && page < 5),
{
    count >= 100 && page < 5
}

/// What signing in gave back: the login, or nothing.
pub fn login_of(me: &Json) -> (r: String)
    ensures
        r@ == text_or_empty(me@, "login"@),
{
    text_field(me, "login")
}

/// The listing as GitHub gave it.
pub fn github_list(login: String, repos: Vec<Repo>) -> (r: RepoList)
    ensures
        r.source@ == "github"@,
        r.login == login,
        r.signed_in,
        r.repos == repos,
        r.note@.len() == 0,
{
    RepoList { source: copy_str("github"), login, signed_in: true, repos, note: String::new() }
}

/// The listing before a token has been given.
pub fn signed_out() -> (r: RepoList)
    ensures
        r.source@ == "github"@,
        r.login@.len() == 0,
        !r.signed_in,
        r.repos@.len() == 0,
        r.note@ == "Paste a GitHub token to list your repositories."@,
{
    RepoList {
        source: copy_str("github"),
        login: String::new(),
        signed_in: false,
        repos: Vec::new(),
        note: copy_str("Paste a GitHub token to list your repositories."),
    }
}

/// A made-up repository for a run that is not connected to GitHub, last
/// updated `days` ago; it says it is an example.
pub struct ExampleRepo {
    pub repo: Repo,
    pub days: i64,
}

fn example(owner: &str, name: &str, desc: &str, private: bool, days: i64, lang: &str) -> (r: ExampleRepo)
    ensures
        r.repo@ == (RepoV {
            full_name: owner@ + "/"@ + name@,
            name: name@,
            owner: owner@,
            description: desc@ + " An example repository."@,
            private,
            updated_at: seq![],
            language: lang@,
            clone_url: "https://github.com/"@ + owner@ + "/"@ + name@ + ".git"@,
            html_url: "https://github.com/"@ + owner@ + "/"@ + name@,
        }),
        r.days == days,
{
    let mut full = copy_str(owner);
    crate::text::push_str(&mut full, "/");
    crate::text::push_str(&mut full, name);
    let mut d = copy_str(desc);
    crate::text::push_str(&mut d, " An example repository.");
    let mut html = copy_str("https://github.com/");
    crate::text::push_str(&mut html, owner);
    crate::text::push_str(&mut html, "/");
    crate::text::push_str(&mut html, name);
    let mut clone = copy_str(html.as_str());
    crate::text::push_str(&mut clone, ".git");
    ExampleRepo {
        repo: Repo {
            full_name: full,
            name: copy_str(name),
            owner: copy_str(owner),
            description: d,
            private,
            updated_at: String::new(),
            language: copy_str(lang),
            clone_url: clone,
            html_url: html,
        },
        days,
    }
}

/// What a test run lists: made up, and each one says so. When each was
/// last updated is told in days ago, for the caller to turn into a time.
pub fn example_repos() -> (r: Vec<ExampleRepo>)
    ensures
        r@.len() == 6,
        r@[0].repo@.full_name == "innotrack/asset-tracker-api"@,
        r@[0].days == 2,
        r@[3].repo@.full_name == "innotrack/mobile-scanner"@,
        r@[3].days == 170,
        r@[4].repo@.private == false,
        r@[5].repo@.full_name == "you/dotfiles"@,
{
    let mut v: Vec<ExampleRepo> = Vec::new();
    v.push(example("innotrack", "asset-tracker-api", "The API behind asset tracking.", true, 2, "C#"));
    v.push(example("innotrack", "asset-tracker-web", "The web app for asset tracking.", true, 2, "TypeScript"));
    v.push(example("innotrack", "rfid-gateway", "Reads the fixed RFID readers on site.", true, 8, "Go"));
    v.push(example("innotrack", "mobile-scanner", "A handheld scanning app that uses the asset tracker API.", true, 170, "Kotlin"));
    v.push(example("innotrack", "website", "The site at innotrack.co.za.", false, 140, "HTML"));
    v.push(example("you", "dotfiles", "Your own settings.", false, 30, "Shell"));
    proof {
        reveal_strlit("innotrack");
        reveal_strlit("/");
        reveal_strlit("asset-tracker-api");
        reveal_strlit("innotrack/asset-tracker-api");
        reveal_strlit("mobile-scanner");
        reveal_strlit("innotrack/mobile-scanner");
        reveal_strlit("you");
        reveal_strlit("dotfiles");
        reveal_strlit("you/dotfiles");
    }
    v
}

/// Where a linked repository's project is to live.
#[derive(Debug, PartialEq, Eq)]
pub enum LinkStep {
    /// A project already has this clone: use it where it is.
    UseKnown(String),
    /// The folder it would be cloned to already holds it: use that.
    UseTarget,
    /// Clone it into the folder chosen for it.
    Clone,
}

/// What linking a repository decides before anything is cloned or made: a
/// repository with no address (`key`) or no name cannot be linked; a clone
/// some project already has (`known`) is used where it is, and so is one
/// already at the target folder (`target_matches`); otherwise it is cloned,
/// which needs a folder to clone into.
pub fn link_plan(key: &str, name: &str, known: Option<String>, target_matches: bool, clone_into: &str) -> (r: Result<
    LinkStep,
    String,
>)
    ensures
        (key@.len() == 0 || trim(name@).len() == 0) ==> (r matches Err(e) && e@
            == "That repository has no address to link."@),
        key@.len() > 0 && trim(name@).len() > 0 ==> match known {
            Some(p) => r matches Ok(LinkStep::UseKnown(q)) && q@ == p@,
            None => if target_matches {
                r matches Ok(LinkStep::UseTarget)
            } else if trim(clone_into@).len() == 0 {
                r matches Err(e) && e@ == "Choose a folder to clone into."@
            } else {
                r matches Ok(LinkStep::Clone)
            },
        },
{
    if key.is_empty() || is_blank(name) {
        return Err(copy_str("That repository has no address to link."));
    }
    match known {
        Some(p) => Ok(LinkStep::UseKnown(p)),
        None => {
            if target_matches {
                Ok(LinkStep::UseTarget)
            } else if is_blank(clone_into) {
                Err(copy_str("Choose a folder to clone into."))
            } else {
                Ok(LinkStep::Clone)
            }
        },
    }
}

/// What the activity feed says of a link.
pub fn linked_note(reused: bool, commands: usize, services: usize) -> (r: String)
    ensures
        r@ == (if reused {
            "used where it already was"@
        } else {
            "cloned"@
        }) + " · "@ + crate::business_clear::counted(commands as nat, "command"@) + ", "@
            + crate::business_clear::counted(services as nat, "service"@),
{
    let mut r = if reused {
        copy_str("used where it already was")
    } else {
        copy_str("cloned")
    };
    crate::text::push_str(&mut r, " · ");
    crate::text::push_str(&mut r, crate::business_clear::counted_exec(commands, "command").as_str());
    crate::text::push_str(&mut r, ", ");
    crate::text::push_str(&mut r, crate::business_clear::counted_exec(services, "service").as_str());
    r
}

} // verus!
