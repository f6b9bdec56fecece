//! `_bot.md`: a bot's definition as a file.
//!
//! Frontmatter between `---` lines holds its name, goal, routine and lists;
//! everything after is what the bot is for, in its owner's words. A
//! malformed file is still a bot, the same forgiveness `_devdeck.md` gets:
//! someone editing it by hand should not lose it to a typo. What goes in
//! comes back out: the file is the truth, and the clock only follows it.
use vstd::prelude::*;
use crate::text::{chars_of, copy_str, from_chars, join, join_strings, push_str, str_eq, str_views, sub_vec, trim, trim_str, trim_vec};
use crate::bots::{Bot, first_colon, find_colon, fmt_at, fmt_at_spec, parse_at, parse_at_spec};
use crate::provider::{lines_from, nl_from, drop_cr};
use crate::site::{find_spec, index_from, strip_quotes, strip_quotes_start};

verus! {

/// What the file carries of a bot.
pub ghost struct BotFileV {
    pub name: Seq<char>,
    pub goal: Seq<char>,
    pub every: Seq<char>,
    pub at_min: int,
    pub days: Seq<char>,
    pub template: Seq<char>,
    pub feature: Seq<char>,
    pub skills: Seq<Seq<char>>,
    pub agent: Seq<char>,
    pub team: Seq<Seq<char>>,
    pub wake_intent: Seq<char>,
    pub stop_at: Seq<Seq<char>>,
    pub body: Seq<char>,
}

pub open spec fn file_of(b: Bot) -> BotFileV {
    BotFileV {
        name: b.name@,
        goal: b.goal@,
        every: b.every@,
        at_min: b.at_min as int,
        days: b.days@,
        template: b.template@,
        feature: b.feature@,
        skills: str_views(b.skills@),
        agent: b.agent@,
        team: str_views(b.team@),
        wake_intent: b.wake_intent@,
        stop_at: str_views(b.stop_at@),
        body: b.body@,
    }
}

// ---------------------------------------------------------------------------
// Writing
// ---------------------------------------------------------------------------

pub open spec fn opt_line(cond: bool, l: Seq<char>) -> Seq<Seq<char>> {
    if cond {
        seq![l]
    } else {
        seq![]
    }
}

/// A list as the file writes it: `[a, b]`.
pub open spec fn list_text(xs: Seq<Seq<char>>) -> Seq<char> {
    "["@ + join(xs, ", "@) + "]"@
}

/// The frontmatter's lines: the name always; the rest only when there is
/// something to say. The time is written only with a routine, and the days
/// only for a weekly one.
pub open spec fn front_lines(b: BotFileV) -> Seq<Seq<char>> {
    seq!["name: "@ + trim(b.name)] + opt_line(trim(b.goal).len() > 0, "goal: "@ + trim(b.goal))
        + routine_lines(b) + tail_lines(b)
}

/// Each line followed by a newline.
pub open spec fn unlines(ls: Seq<Seq<char>>) -> Seq<char>
    decreases ls.len(),
{
    if ls.len() == 0 {
        seq![]
    } else {
        ls[0] + "\n"@ + unlines(ls.drop_first())
    }
}

/// The whole file.
pub open spec fn render_v(b: BotFileV) -> Seq<char> {
    "---\n"@ + unlines(front_lines(b)) + "---\n"@ + if trim(b.body).len() > 0 {
        "\n"@ + trim(b.body) + "\n"@
    } else {
        seq![]
    }
}

proof fn lemma_unlines_append(a: Seq<Seq<char>>, b: Seq<Seq<char>>)
    ensures
        unlines(a + b) == unlines(a) + unlines(b),
    decreases a.len(),
{
    if a.len() == 0 {
        assert(a + b =~= b);
        assert(unlines(a) =~= Seq::<char>::empty());
        assert(unlines(a) + unlines(b) =~= unlines(b));
    } else {
        assert((a + b)[0] == a[0]);
        assert((a + b).drop_first() =~= a.drop_first() + b);
        lemma_unlines_append(a.drop_first(), b);
        assert(unlines(a) + unlines(b) =~= a[0] + "\n"@ + (unlines(a.drop_first()) + unlines(b)));
    }
}

proof fn lemma_unlines_one(l: Seq<char>)
    ensures
        unlines(seq![l]) == l + "\n"@,
{
    assert(seq![l].drop_first() =~= Seq::<Seq<char>>::empty());
    assert(unlines(Seq::<Seq<char>>::empty()) =~= Seq::<char>::empty());
    assert(unlines(seq![l]) =~= l + "\n"@);
}

/// A line of the frontmatter, or nothing.
fn line_if(cond: bool, key: &str, value: &str) -> (r: String)
    ensures
        r@ == unlines(opt_line(cond, key@ + value@)),
{
    proof {
        lemma_unlines_one(key@ + value@);
        assert(unlines(Seq::<Seq<char>>::empty()) =~= Seq::<char>::empty());
    }
    if cond {
        let mut r = copy_str(key);
        push_str(&mut r, value);
        push_str(&mut r, "\n");
        assert(r@ =~= (key@ + value@) + "\n"@);
        r
    } else {
        let r = String::new();
        assert(opt_line(cond, key@ + value@) =~= Seq::<Seq<char>>::empty());
        r
    }
}

fn list_exec(xs: &Vec<String>) -> (r: String)
    ensures
        r@ == list_text(str_views(xs@)),
{
    let mut r = copy_str("[");
    push_str(&mut r, join_strings(xs, ", ").as_str());
    push_str(&mut r, "]");
    r
}

pub open spec fn routine_lines(b: BotFileV) -> Seq<Seq<char>> {
    if trim(b.every).len() > 0 {
        seq!["every: "@ + trim(b.every), "at: \""@ + fmt_at_spec(b.at_min) + "\""@] + opt_line(
            b.every == "weekly"@ && trim(b.days).len() > 0,
            "days: "@ + trim(b.days),
        )
    } else {
        seq![]
    }
}

fn routine_exec(b: &Bot) -> (r: String)
    ensures
        r@ == unlines(routine_lines(file_of(*b))),
{
    let ghost f = file_of(*b);
    let every = trim_str(b.every.as_str());
    if every.as_str().is_empty() {
        assert(unlines(Seq::<Seq<char>>::empty()) =~= Seq::<char>::empty());
        return String::new();
    }
    let mut r = line_if(true, "every: ", every.as_str());
    let mut at = copy_str("\"");
    push_str(&mut at, fmt_at(b.at_min).as_str());
    push_str(&mut at, "\"");
    let at_line = line_if(true, "at: ", at.as_str());
    push_str(&mut r, at_line.as_str());
    let days = trim_str(b.days.as_str());
    let d = line_if(str_eq(b.every.as_str(), "weekly") && !days.as_str().is_empty(), "days: ", days.as_str());
    push_str(&mut r, d.as_str());
    proof {
        reveal_strlit("at: ");
        reveal_strlit("\"");
        reveal_strlit("at: \"");
        let l1 = "every: "@ + trim(f.every);
        let l2 = "at: \""@ + fmt_at_spec(f.at_min) + "\""@;
        assert(("at: "@ + at@) =~= l2);
        let o = opt_line(f.every == "weekly"@ && trim(f.days).len() > 0, "days: "@ + trim(f.days));
        lemma_unlines_append(seq![l1], seq![l2]);
        assert(seq![l1] + seq![l2] =~= seq![l1, l2]);
        lemma_unlines_append(seq![l1, l2], o);
        assert(r@ =~= unlines(seq![l1, l2] + o));
    }
    r
}

pub open spec fn tail_lines(b: BotFileV) -> Seq<Seq<char>> {
    opt_line(trim(b.template).len() > 0, "template: "@ + trim(b.template)) + opt_line(
        trim(b.feature).len() > 0,
        "feature: "@ + trim(b.feature),
    ) + opt_line(b.skills.len() > 0, "skills: "@ + list_text(b.skills)) + opt_line(
        trim(b.agent).len() > 0,
        "agent: "@ + trim(b.agent),
    ) + opt_line(b.team.len() > 0, "team: "@ + list_text(b.team)) + opt_line(
        trim(b.wake_intent).len() > 0,
        "wake_intent: "@ + trim(b.wake_intent),
    ) + opt_line(b.stop_at.len() > 0, "stop_at: "@ + list_text(b.stop_at))
}

#[verifier::rlimit(40)]
fn tail_exec(b: &Bot) -> (r: String)
    ensures
        r@ == unlines(tail_lines(file_of(*b))),
{
    let ghost f = file_of(*b);
    let template = trim_str(b.template.as_str());
    let p1 = line_if(!template.as_str().is_empty(), "template: ", template.as_str());
    let feature = trim_str(b.feature.as_str());
    let p2 = line_if(!feature.as_str().is_empty(), "feature: ", feature.as_str());
    let p3 = line_if(b.skills.len() > 0, "skills: ", list_exec(&b.skills).as_str());
    let agent = trim_str(b.agent.as_str());
    let p4 = line_if(!agent.as_str().is_empty(), "agent: ", agent.as_str());
    let p5 = line_if(b.team.len() > 0, "team: ", list_exec(&b.team).as_str());
    let wake = trim_str(b.wake_intent.as_str());
    let p6 = line_if(!wake.as_str().is_empty(), "wake_intent: ", wake.as_str());
    let p7 = line_if(b.stop_at.len() > 0, "stop_at: ", list_exec(&b.stop_at).as_str());
    let mut r = p1;
    push_str(&mut r, p2.as_str());
    push_str(&mut r, p3.as_str());
    push_str(&mut r, p4.as_str());
    push_str(&mut r, p5.as_str());
    push_str(&mut r, p6.as_str());
    push_str(&mut r, p7.as_str());
    proof {
        let o1 = opt_line(trim(f.template).len() > 0, "template: "@ + trim(f.template));
        let o2 = opt_line(trim(f.feature).len() > 0, "feature: "@ + trim(f.feature));
        let o3 = opt_line(f.skills.len() > 0, "skills: "@ + list_text(f.skills));
        let o4 = opt_line(trim(f.agent).len() > 0, "agent: "@ + trim(f.agent));
        let o5 = opt_line(f.team.len() > 0, "team: "@ + list_text(f.team));
        let o6 = opt_line(trim(f.wake_intent).len() > 0, "wake_intent: "@ + trim(f.wake_intent));
        let o7 = opt_line(f.stop_at.len() > 0, "stop_at: "@ + list_text(f.stop_at));
        lemma_unlines_append(o1, o2);
        lemma_unlines_append(o1 + o2, o3);
        lemma_unlines_append(o1 + o2 + o3, o4);
        lemma_unlines_append(o1 + o2 + o3 + o4, o5);
        lemma_unlines_append(o1 + o2 + o3 + o4 + o5, o6);
        lemma_unlines_append(o1 + o2 + o3 + o4 + o5 + o6, o7);
        assert(r@ =~= unlines(o1 + o2 + o3 + o4 + o5 + o6 + o7));
    }
    r
}

/// The text of `_bot.md` for a bot.
pub fn render_bot_file(b: &Bot) -> (r: String)
    ensures
        r@ == render_v(file_of(*b)),
{
    let ghost f = file_of(*b);
    let mut out = copy_str("---\n");
    let name = trim_str(b.name.as_str());
    let p0 = line_if(true, "name: ", name.as_str());
    let goal = trim_str(b.goal.as_str());
    let p1 = line_if(!goal.as_str().is_empty(), "goal: ", goal.as_str());
    let p2 = routine_exec(b);
    let p3 = tail_exec(b);
    push_str(&mut out, p0.as_str());
    push_str(&mut out, p1.as_str());
    push_str(&mut out, p2.as_str());
    push_str(&mut out, p3.as_str());
    proof {
        let a0 = opt_line(true, "name: "@ + trim(f.name));
        let a1 = opt_line(trim(f.goal).len() > 0, "goal: "@ + trim(f.goal));
        assert(a0 =~= seq!["name: "@ + trim(f.name)]);
        lemma_unlines_append(a0, a1);
        lemma_unlines_append(a0 + a1, routine_lines(f));
        lemma_unlines_append(a0 + a1 + routine_lines(f), tail_lines(f));
        assert(front_lines(f) =~= a0 + a1 + routine_lines(f) + tail_lines(f));
    }
    push_str(&mut out, "---\n");
    let body = trim_str(b.body.as_str());
    if !body.as_str().is_empty() {
        push_str(&mut out, "\n");
        push_str(&mut out, body.as_str());
        push_str(&mut out, "\n");
    }
    assert(out@ =~= render_v(f));
    out
}

// ---------------------------------------------------------------------------
// Reading
// ---------------------------------------------------------------------------

/// A bot the file says nothing about: no name, no routine, waking at 07:00.
pub open spec fn fresh_file() -> BotFileV {
    BotFileV {
        name: seq![],
        goal: seq![],
        every: seq![],
        at_min: 420,
        days: seq![],
        template: seq![],
        feature: seq![],
        skills: seq![],
        agent: seq![],
        team: seq![],
        wake_intent: seq![],
        stop_at: seq![],
        body: seq![],
    }
}

/// The pieces of `s` between the `c`s: always at least one.
pub open spec fn split_on(s: Seq<char>, c: char) -> Seq<Seq<char>>
    decreases s.len(),
{
    let e = index_from(s, c, 0);
    if 0 <= e < s.len() {
        seq![s.take(e)] + split_on(s.skip(e + 1), c)
    } else {
        seq![s]
    }
}

pub open spec fn is_bracket(c: char) -> bool {
    c == '[' || c == ']'
}

pub open spec fn strip_brackets_start(s: Seq<char>) -> Seq<char>
    decreases s.len(),
{
    if s.len() > 0 && is_bracket(s[0]) {
        strip_brackets_start(s.drop_first())
    } else {
        s
    }
}

pub open spec fn strip_brackets_end(s: Seq<char>) -> Seq<char>
    decreases s.len(),
{
    if s.len() > 0 && is_bracket(s.last()) {
        strip_brackets_end(s.drop_last())
    } else {
        s
    }
}

/// Without the brackets it starts and ends with.
pub open spec fn strip_brackets(s: Seq<char>) -> Seq<char> {
    strip_brackets_end(strip_brackets_start(s))
}

/// The pieces of a list, each trimmed and unquoted, the empty ones dropped.
pub open spec fn tidy_items(ps: Seq<Seq<char>>) -> Seq<Seq<char>>
    decreases ps.len(),
{
    if ps.len() == 0 {
        seq![]
    } else {
        let rest = tidy_items(ps.drop_last());
        let x = strip_quotes(trim(ps.last()));
        if x.len() > 0 {
            rest.push(x)
        } else {
            rest
        }
    }
}

/// A list as the file holds it: `[a, b]`, or `a, b`.
pub open spec fn list_of(v: Seq<char>) -> Seq<Seq<char>> {
    tidy_items(split_on(strip_brackets(v), ','))
}

/// One field set from the file: by its key, the value trimmed and unquoted
/// already; a key nobody knows changes nothing.
pub open spec fn set_field(b: BotFileV, key: Seq<char>, v: Seq<char>) -> BotFileV {
    if key == "name"@ {
        BotFileV { name: v, ..b }
    } else if key == "goal"@ {
        BotFileV { goal: v, ..b }
    } else if key == "every"@ {
        BotFileV { every: v, ..b }
    } else if key == "at"@ {
        BotFileV { at_min: parse_at_spec(v), ..b }
    } else if key == "days"@ {
        BotFileV { days: v, ..b }
    } else if key == "template"@ {
        BotFileV { template: v, ..b }
    } else if key == "agent"@ {
        BotFileV { agent: v, ..b }
    } else if key == "team"@ {
        BotFileV { team: list_of(v), ..b }
    } else if key == "wake_intent"@ {
        BotFileV { wake_intent: v, ..b }
    } else if key == "stop_at"@ {
        BotFileV { stop_at: list_of(v), ..b }
    } else if key == "feature"@ {
        BotFileV { feature: v, ..b }
    } else if key == "skills"@ {
        BotFileV { skills: list_of(v), ..b }
    } else {
        b
    }
}

/// One frontmatter line read into the bot: `key: value`, the value trimmed
/// and unquoted; a line with no colon changes nothing.
pub open spec fn apply_line(b: BotFileV, line: Seq<char>) -> BotFileV {
    match first_colon(line) {
        None => b,
        Some(p) => set_field(b, trim(line.take(p)), strip_quotes(trim(line.skip(p + 1)))),
    }
}

pub open spec fn apply_lines(b: BotFileV, ls: Seq<Seq<char>>) -> BotFileV
    decreases ls.len(),
{
    if ls.len() == 0 {
        b
    } else {
        apply_lines(apply_line(b, ls[0]), ls.drop_first())
    }
}

/// What a file says: the frontmatter, when the file opens with `---` and a
/// later line closes it, and the rest, trimmed, as the body; otherwise the
/// whole file is the body.
pub open spec fn parse_v(raw: Seq<char>) -> BotFileV {
    if crate::text::starts_with(raw, "---"@) {
        let after = raw.skip(3);
        match find_spec(after, "\n---"@, 0) {
            Some(end) => BotFileV {
                body: trim(after.skip(end + 4)),
                ..apply_lines(fresh_file(), lines_from(after.take(end), 0))
            },
            None => BotFileV { body: trim(raw), ..fresh_file() },
        }
    } else {
        BotFileV { body: trim(raw), ..fresh_file() }
    }
}

fn index_of(v: &Vec<char>, c: char, from: usize) -> (r: usize)
    requires
        from <= v.len(),
    ensures
        from <= r <= v.len(),
        forall|j: int| from <= j < r ==> v@[j] != c,
        r < v.len() ==> v@[r as int] == c,
{
    let mut e = from;
    while e < v.len() && v[e] != c
        invariant
            from <= e <= v.len(),
            forall|j: int| from <= j < e ==> v@[j] != c,
        decreases v.len() - e,
    {
        e = e + 1;
    }
    e
}

proof fn lemma_index_from_zero(s: Seq<char>, c: char, e: int)
    requires
        0 <= e <= s.len(),
        forall|j: int| 0 <= j < e ==> s[j] != c,
        e < s.len() ==> s[e] == c,
    ensures
        index_from(s, c, 0) == e,
{
    lemma_index_from_at(s, c, 0, e);
}

proof fn lemma_index_from_at(s: Seq<char>, c: char, i: int, e: int)
    requires
        0 <= i <= e <= s.len(),
        forall|j: int| i <= j < e ==> s[j] != c,
        e < s.len() ==> s[e] == c,
    ensures
        index_from(s, c, i) == e,
    decreases e - i,
{
    if i < e {
        lemma_index_from_at(s, c, i + 1, e);
    }
}

/// The pieces of `v` between the `c`s.
fn split_on_exec(v: &Vec<char>, c: char) -> (r: Vec<Vec<char>>)
    ensures
        r@.map_values(|x: Vec<char>| x@) == split_on(v@, c),
{
    let mut out: Vec<Vec<char>> = Vec::new();
    let mut start: usize = 0;
    assert(v@.skip(0) =~= v@);
    assert(out@.map_values(|x: Vec<char>| x@) + split_on(v@.skip(0), c) =~= split_on(v@, c));
    loop
        invariant
            start <= v.len(),
            out@.map_values(|x: Vec<char>| x@) + split_on(v@.skip(start as int), c) == split_on(v@, c),
        decreases v.len() - start,
    {
        let e = index_of(v, c, start);
        let ghost rest = v@.skip(start as int);
        proof {
            lemma_index_from_zero(rest, c, e - start);
        }
        let piece = sub_vec(v, start, e);
        assert(piece@ =~= rest.take(e - start));
        let ghost before = out@.map_values(|x: Vec<char>| x@);
        out.push(piece);
        assert(out@.map_values(|x: Vec<char>| x@) =~= before.push(rest.take(e - start)));
        if e < v.len() {
            assert(rest.skip(e - start + 1) =~= v@.skip(e + 1));
            assert(split_on(rest, c) == seq![rest.take(e - start)] + split_on(v@.skip(e + 1), c));
            assert(out@.map_values(|x: Vec<char>| x@) + split_on(v@.skip(e + 1), c) =~= before + split_on(rest, c));
            start = e + 1;
        } else {
            assert(split_on(rest, c) == seq![rest]);
            assert(rest.take(e - start) =~= rest);
            assert(out@.map_values(|x: Vec<char>| x@) =~= before + split_on(rest, c));
            return out;
        }
    }
}

fn strip_brackets_exec(v: &Vec<char>) -> (r: Vec<char>)
    ensures
        r@ == strip_brackets(v@),
{
    let mut a: usize = 0;
    assert(v@.skip(0) =~= v@);
    while a < v.len() && (v[a] == '[' || v[a] == ']')
        invariant
            a <= v.len(),
            strip_brackets_start(v@) == strip_brackets_start(v@.skip(a as int)),
        decreases v.len() - a,
    {
        assert(v@.skip(a as int).drop_first() =~= v@.skip(a + 1));
        a = a + 1;
    }
    let ghost t = v@.skip(a as int);
    assert(strip_brackets_start(v@) == t);
    let mut e = v.len();
    assert(t =~= v@.subrange(a as int, e as int));
    while e > a && (v[e - 1] == '[' || v[e - 1] == ']')
        invariant
            a <= e <= v.len(),
            t == v@.skip(a as int),
            strip_brackets_end(t) == strip_brackets_end(v@.subrange(a as int, e as int)),
        decreases e,
    {
        assert(v@.subrange(a as int, e as int).drop_last() =~= v@.subrange(a as int, e - 1));
        e = e - 1;
    }
    sub_vec(v, a, e)
}

fn list_of_exec(v: &Vec<char>) -> (r: Vec<String>)
    ensures
        str_views(r@) == list_of(v@),
{
    let inner = strip_brackets_exec(v);
    let pieces = split_on_exec(&inner, ',');
    let ghost pv = pieces@.map_values(|x: Vec<char>| x@);
    let mut out: Vec<String> = Vec::new();
    let mut i: usize = 0;
    assert(str_views(out@) =~= tidy_items(pv.take(0)));
    while i < pieces.len()
        invariant
            i <= pieces.len(),
            pv == pieces@.map_values(|x: Vec<char>| x@),
            str_views(out@) == tidy_items(pv.take(i as int)),
        decreases pieces.len() - i,
    {
        let t = trim_vec(&pieces[i]);
        let x = crate::site::strip_quotes_exec(&t);
        assert(pv.take(i + 1).drop_last() =~= pv.take(i as int));
        assert(pv.take(i + 1).last() == pieces@[i as int]@);
        if x.len() > 0 {
            let ghost before = str_views(out@);
            let s = from_chars(&x);
            out.push(s);
            assert(str_views(out@) =~= before.push(x@));
        }
        i = i + 1;
    }
    assert(pv.take(pieces.len() as int) =~= pv);
    out
}

fn apply_line_exec(b: &mut Bot, line: &Vec<char>)
    ensures
        file_of(*final(b)) == apply_line(file_of(*old(b)), line@),
        final(b).handle == old(b).handle,
        final(b).node_id == old(b).node_id,
        final(b).node_name == old(b).node_name,
        final(b).dir == old(b).dir,
        final(b).portfolio == old(b).portfolio,
        final(b).schedule_id == old(b).schedule_id,
        final(b).last_woke == old(b).last_woke,
{
    let p = match find_colon(line) {
        Some(p) => p,
        None => return ,
    };
    let kraw = sub_vec(line, 0, p);
    let k = trim_vec(&kraw);
    let vraw = sub_vec(line, p + 1, line.len());
    let vt = trim_vec(&vraw);
    let vv = crate::site::strip_quotes_exec(&vt);
    assert(vraw@ =~= line@.skip(p + 1));
    assert(kraw@ =~= line@.take(p as int));
    let key = from_chars(&k);
    let ks = key.as_str();
    if str_eq(ks, "name") {
        b.name = from_chars(&vv);
    } else if str_eq(ks, "goal") {
        b.goal = from_chars(&vv);
    } else if str_eq(ks, "every") {
        b.every = from_chars(&vv);
    } else if str_eq(ks, "at") {
        b.at_min = parse_at(from_chars(&vv).as_str());
    } else if str_eq(ks, "days") {
        b.days = from_chars(&vv);
    } else if str_eq(ks, "template") {
        b.template = from_chars(&vv);
    } else if str_eq(ks, "agent") {
        b.agent = from_chars(&vv);
    } else if str_eq(ks, "team") {
        b.team = list_of_exec(&vv);
    } else if str_eq(ks, "wake_intent") {
        b.wake_intent = from_chars(&vv);
    } else if str_eq(ks, "stop_at") {
        b.stop_at = list_of_exec(&vv);
    } else if str_eq(ks, "feature") {
        b.feature = from_chars(&vv);
    } else if str_eq(ks, "skills") {
        b.skills = list_of_exec(&vv);
    }
}

/// A bot with nothing set, waking at 07:00 when a routine is given.
fn fresh_bot() -> (r: Bot)
    ensures
        file_of(r) == fresh_file(),
        r.handle@.len() == 0,
        r.node_id == 0,
        r.node_name@.len() == 0,
        r.dir@.len() == 0,
        r.portfolio@.len() == 0,
        r.schedule_id is None,
        r.last_woke is None,
{
    let r = Bot {
        handle: String::new(),
        node_id: 0,
        node_name: String::new(),
        dir: String::new(),
        name: String::new(),
        goal: String::new(),
        every: String::new(),
        at_min: 420,
        days: String::new(),
        body: String::new(),
        skills: Vec::new(),
        template: String::new(),
        feature: String::new(),
        portfolio: Vec::new(),
        agent: String::new(),
        team: Vec::new(),
        wake_intent: String::new(),
        stop_at: Vec::new(),
        schedule_id: None,
        last_woke: None,
    };
    assert(str_views(r.skills@) =~= Seq::<Seq<char>>::empty());
    assert(str_views(r.team@) =~= Seq::<Seq<char>>::empty());
    assert(str_views(r.stop_at@) =~= Seq::<Seq<char>>::empty());
    assert(file_of(r) == fresh_file());
    r
}

/// Read the text of `_bot.md`. A file that does not parse is still a bot:
/// what cannot be read as frontmatter is kept as its body.
#[verifier::rlimit(40)]
#[verifier::spinoff_prover]
pub fn parse_bot_file(raw: &str) -> (r: Bot)
    ensures
        file_of(r) == parse_v(raw@),
        r.handle@.len() == 0,
        r.node_id == 0,
        r.node_name@.len() == 0,
        r.dir@.len() == 0,
        r.portfolio@.len() == 0,
        r.schedule_id is None,
        r.last_woke is None,
{
    let mut b = fresh_bot();
    let v = chars_of(raw);
    let dashes = chars_of("---");
    proof {
        reveal_strlit("---");
        reveal_strlit("\n---");
    }
    if crate::text::starts_with_vec(&v, &dashes) {
        let after = sub_vec(&v, 3, v.len());
        assert(after@ =~= raw@.skip(3));
        let close = chars_of("\n---");
        match crate::site::find_exec(&after, &close, 0) {
            Some(end) => {
                let fm = sub_vec(&after, 0, end);
                assert(fm@ =~= after@.take(end as int));
                let mut start: usize = 0;
                let ghost f0 = file_of(b);
                while start < fm.len()
                    invariant
                        start <= fm.len(),
                        fm@ == after@.take(end as int),
                        apply_lines(file_of(b), lines_from(fm@, start as int)) == apply_lines(f0, lines_from(fm@, 0)),
                        b.handle@.len() == 0,
                        b.node_id == 0,
                        b.node_name@.len() == 0,
                        b.dir@.len() == 0,
                        b.portfolio@.len() == 0,
                        b.schedule_id is None,
                        b.last_woke is None,
                    decreases fm.len() - start,
                {
                    let (e, next) = crate::provider::next_line(&fm, start);
                    let ghost ls = lines_from(fm@, start as int);
                    proof {
                        crate::provider::lemma_nl_from(fm@, start as int, e as int);
                        assert(ls[0] == drop_cr(fm@.subrange(start as int, e as int)));
                        assert(ls.drop_first() =~= lines_from(fm@, next as int));
                    }
                    let line = crate::provider::drop_cr_exec(&fm, start, e);
                    apply_line_exec(&mut b, &line);
                    start = next;
                }
                assert(lines_from(fm@, start as int) =~= Seq::<Seq<char>>::empty());
                let rest = sub_vec(&after, end + 4, after.len());
                assert(rest@ =~= after@.skip(end + 4));
                b.body = from_chars(&trim_vec(&rest));
            },
            None => {
                b.body = trim_str(raw);
            },
        }
    } else {
        b.body = trim_str(raw);
    }
    b
}

// ---------------------------------------------------------------------------
// What goes in comes back out
// ---------------------------------------------------------------------------

/// A value the file can carry as it is: no surrounding whitespace, on one
/// line, and not wrapped in quotes.
pub open spec fn clean(v: Seq<char>) -> bool {
    &&& trim(v) == v
    &&& forall|j: int| 0 <= j < v.len() ==> v[j] != '\n'
    &&& (v.len() > 0 ==> v[0] != '"' && v.last() != '"')
}

/// A list item the file can carry: something, trimmed, with none of the
/// characters that delimit a list.
pub open spec fn item_ok(x: Seq<char>) -> bool {
    &&& x.len() > 0
    &&& trim(x) == x
    &&& forall|j: int|
        0 <= j < x.len() ==> x[j] != ',' && x[j] != '"' && x[j] != '[' && x[j] != ']' && x[j] != '\n'
}

pub open spec fn items_ok(xs: Seq<Seq<char>>) -> bool {
    forall|k: int| 0 <= k < xs.len() ==> item_ok(#[trigger] xs[k])
}

/// A bot every part of which the file can carry.
pub open spec fn writable(b: BotFileV) -> bool {
    &&& clean(b.name)
    &&& clean(b.goal)
    &&& clean(b.every)
    &&& clean(b.days)
    &&& clean(b.template)
    &&& clean(b.feature)
    &&& clean(b.agent)
    &&& clean(b.wake_intent)
    &&& items_ok(b.skills)
    &&& items_ok(b.team)
    &&& items_ok(b.stop_at)
    &&& 0 <= b.at_min < 1440
}

/// What a written bot reads back as: everything it carried, except a time
/// with no routine to keep it, which comes back as 07:00, days with no
/// weekly routine, which are not written, and the body, which comes back
/// trimmed.
pub open spec fn carried(b: BotFileV) -> BotFileV {
    BotFileV {
        at_min: if b.every.len() > 0 {
            b.at_min
        } else {
            420
        },
        days: if b.every == "weekly"@ && b.days.len() > 0 {
            b.days
        } else {
            seq![]
        },
        body: trim(b.body),
        ..b
    }
}

proof fn lemma_trim_start_ws_prefix(w: Seq<char>, x: Seq<char>)
    requires
        forall|j: int| 0 <= j < w.len() ==> crate::text::is_ws(w[j]),
    ensures
        crate::text::trim_start(w + x) == crate::text::trim_start(x),
    decreases w.len(),
{
    if w.len() > 0 {
        assert((w + x)[0] == w[0]);
        assert((w + x).drop_first() =~= w.drop_first() + x);
        lemma_trim_start_ws_prefix(w.drop_first(), x);
    } else {
        assert(w + x =~= x);
    }
}

proof fn lemma_trim_end_ws_suffix(x: Seq<char>, w: Seq<char>)
    requires
        forall|j: int| 0 <= j < w.len() ==> crate::text::is_ws(w[j]),
    ensures
        crate::text::trim_end(x + w) == crate::text::trim_end(x),
    decreases w.len(),
{
    if w.len() > 0 {
        assert((x + w).last() == w.last());
        assert((x + w).drop_last() =~= x + w.drop_last());
        lemma_trim_end_ws_suffix(x, w.drop_last());
    } else {
        assert(x + w =~= x);
    }
}

/// A text whose ends are not whitespace is its own trim.
proof fn lemma_trim_noop(x: Seq<char>)
    requires
        x.len() > 0 ==> !crate::text::is_ws(x[0]) && !crate::text::is_ws(x.last()),
    ensures
        trim(x) == x,
{
}

/// A trimmed text that is not empty has no whitespace at its ends.
proof fn lemma_trimmed_ends(x: Seq<char>)
    requires
        trim(x) == x,
        x.len() > 0,
    ensures
        !crate::text::is_ws(x[0]),
        !crate::text::is_ws(x.last()),
{
    lemma_trim_start_first(x);
    lemma_trim_end_last(crate::text::trim_start(x));
}

proof fn lemma_trim_start_first(x: Seq<char>)
    ensures
        crate::text::trim_start(x).len() > 0 ==> !crate::text::is_ws(crate::text::trim_start(x)[0]),
        crate::text::trim_start(x).len() <= x.len(),
    decreases x.len(),
{
    if x.len() > 0 && crate::text::is_ws(x[0]) {
        lemma_trim_start_first(x.drop_first());
    }
}

proof fn lemma_trim_end_last(x: Seq<char>)
    ensures
        crate::text::trim_end(x).len() > 0 ==> !crate::text::is_ws(crate::text::trim_end(x).last())
            && crate::text::trim_end(x)[0] == x[0],
        crate::text::trim_end(x).len() <= x.len(),
        crate::text::trim_end(x) == x.take(crate::text::trim_end(x).len() as int),
    decreases x.len(),
{
    if x.len() > 0 && crate::text::is_ws(x.last()) {
        lemma_trim_end_last(x.drop_last());
        assert(x.drop_last().take(crate::text::trim_end(x).len() as int) =~= x.take(crate::text::trim_end(x).len() as int));
    } else {
        assert(x.take(x.len() as int) =~= x);
    }
}

/// `trim` of a space and then a trimmed text is that text.
proof fn lemma_trim_after_space(v: Seq<char>)
    requires
        trim(v) == v,
    ensures
        trim(" "@ + v) == v,
{
    reveal_strlit(" ");
    lemma_trim_start_ws_prefix(" "@, v);
    if v.len() > 0 {
        lemma_trimmed_ends(v);
    }
    lemma_trim_noop(v);
}

proof fn lemma_nl_bounds(s: Seq<char>, i: int)
    requires
        0 <= i <= s.len(),
    ensures
        i <= nl_from(s, i) <= s.len(),
    decreases s.len() - i,
{
    if i < s.len() && s[i] != '\n' {
        lemma_nl_bounds(s, i + 1);
    }
}

proof fn lemma_nl_shift(p: Seq<char>, y: Seq<char>, i: int)
    requires
        0 <= i,
    ensures
        nl_from(p + y, p.len() + i) == p.len() + nl_from(y, i),
    decreases y.len() - i,
{
    if i < y.len() {
        assert((p + y)[p.len() + i] == y[i]);
        if y[i] != '\n' {
            lemma_nl_shift(p, y, i + 1);
        }
    }
}

proof fn lemma_lines_shift(p: Seq<char>, y: Seq<char>, i: int)
    requires
        0 <= i,
    ensures
        lines_from(p + y, p.len() + i) == lines_from(y, i),
    decreases y.len() - i,
{
    if i < y.len() {
        lemma_nl_shift(p, y, i);
        lemma_nl_bounds(y, i);
        let e = nl_from(y, i);
        assert((p + y).subrange(p.len() + i, p.len() + e) =~= y.subrange(i, e));
        if e < y.len() {
            lemma_lines_shift(p, y, e + 1);
        } else {
            assert((p + y).subrange(p.len() + i, (p + y).len() as int) =~= y.subrange(i, y.len() as int));
        }
    }
}

/// Lines not to be cut or trimmed by `str::lines`: something in each, no
/// newline, no carriage return at the end.
pub open spec fn plain_line(l: Seq<char>) -> bool {
    &&& l.len() > 0
    &&& forall|j: int| 0 <= j < l.len() ==> l[j] != '\n'
    &&& l.last() != '\r'
}

proof fn lemma_lines_cons(x: Seq<char>, z: Seq<char>)
    requires
        forall|j: int| 0 <= j < x.len() ==> x[j] != '\n',
    ensures
        lines_from(x + "\n"@ + z, 0) == seq![drop_cr(x)] + lines_from(z, 0),
{
    reveal_strlit("\n");
    let s = x + "\n"@ + z;
    assert(s[x.len() as int] == '\n');
    crate::provider::lemma_nl_from(s, 0, x.len() as int);
    assert(s.subrange(0, x.len() as int) =~= x);
    assert(s =~= (x + "\n"@) + z);
    lemma_lines_shift(x + "\n"@, z, 0);
}

proof fn lemma_lines_single(x: Seq<char>)
    requires
        plain_line(x),
    ensures
        lines_from(x, 0) == seq![x],
{
    crate::provider::lemma_nl_from(x, 0, x.len() as int);
    assert(x.subrange(0, x.len() as int) =~= x);
}

/// `str::lines` of lines written with `unlines` gives them back.
proof fn lemma_lines_of_unlines(ls: Seq<Seq<char>>, z: Seq<char>)
    requires
        forall|k: int| 0 <= k < ls.len() ==> plain_line(#[trigger] ls[k]),
    ensures
        lines_from(unlines(ls) + z, 0) == ls + lines_from(z, 0),
    decreases ls.len(),
{
    if ls.len() == 0 {
        assert(unlines(ls) + z =~= z);
        assert(ls + lines_from(z, 0) =~= lines_from(z, 0));
    } else {
        let l = ls[0];
        assert(plain_line(l));
        assert(unlines(ls) + z =~= l + "\n"@ + (unlines(ls.drop_first()) + z));
        lemma_lines_cons(l, unlines(ls.drop_first()) + z);
        assert(drop_cr(l) == l);
        assert forall|k: int| 0 <= k < ls.drop_first().len() implies plain_line(#[trigger] ls.drop_first()[k]) by {
            assert(ls.drop_first()[k] == ls[k + 1]);
        }
        lemma_lines_of_unlines(ls.drop_first(), z);
        assert(seq![l] + (ls.drop_first() + lines_from(z, 0)) =~= ls + lines_from(z, 0));
    }
}

/// No newline in the text is followed by a dash, but perhaps the last.
pub open spec fn dash_free(s: Seq<char>) -> bool {
    forall|j: int| 0 <= j < s.len() - 1 && #[trigger] s[j] == '\n' ==> s[j + 1] != '-'
}

proof fn lemma_dash_free_unlines(ls: Seq<Seq<char>>)
    requires
        forall|k: int| 0 <= k < ls.len() ==> plain_line(#[trigger] ls[k]) && ls[k][0] != '-',
    ensures
        dash_free("\n"@ + unlines(ls)),
    decreases ls.len(),
{
    reveal_strlit("\n");
    let s = "\n"@ + unlines(ls);
    if ls.len() > 0 {
        let l = ls[0];
        assert(plain_line(l) && l[0] != '-');
        let rest = "\n"@ + unlines(ls.drop_first());
        assert(s =~= "\n"@ + l + rest);
        assert forall|k: int| 0 <= k < ls.drop_first().len() implies plain_line(#[trigger] ls.drop_first()[k])
            && ls.drop_first()[k][0] != '-' by {
            assert(ls.drop_first()[k] == ls[k + 1]);
        }
        lemma_dash_free_unlines(ls.drop_first());
        assert forall|j: int| 0 <= j < s.len() - 1 && #[trigger] s[j] == '\n' implies s[j + 1] != '-' by {
            if j == 0 {
                assert(s[1] == l[0]);
            } else if j <= l.len() {
                assert(s[j] == l[j - 1]);
            } else {
                assert(s[j] == rest[j - 1 - l.len()]);
                assert(s[j + 1] == rest[j - l.len()]);
            }
        }
    }
}

/// Where the frontmatter of a written file closes, and what it holds.
proof fn lemma_close_found(ls: Seq<Seq<char>>, tail: Seq<char>)
    requires
        ls.len() > 0,
        forall|k: int| 0 <= k < ls.len() ==> plain_line(#[trigger] ls[k]) && ls[k][0] != '-',
    ensures
        ({
            let after = "\n"@ + unlines(ls) + "---\n"@ + tail;
            let end = unlines(ls).len() as int;
            &&& find_spec(after, "\n---"@, 0) == Some(end)
            &&& after.take(end) == "\n"@ + unlines(ls.drop_last()) + ls.last()
            &&& after.skip(end + 4) == "\n"@ + tail
        }),
{
    reveal_strlit("\n");
    reveal_strlit("---\n");
    reveal_strlit("\n---");
    let p = "\n"@ + unlines(ls);
    let after = p + "---\n"@ + tail;
    let end = unlines(ls).len() as int;
    assert(ls =~= ls.drop_last() + seq![ls.last()]);
    lemma_unlines_append(ls.drop_last(), seq![ls.last()]);
    lemma_unlines_one(ls.last());
    assert(unlines(ls) == unlines(ls.drop_last()) + ls.last() + "\n"@);
    assert(p.len() == end + 1);
    assert(p[end] == '\n');
    lemma_dash_free_unlines(ls);
    assert(crate::text::occurs_at(after, "\n---"@, end)) by {
        assert(after.subrange(end, end + 4) =~= "\n---"@);
    }
    assert forall|j: int| 0 <= j < end implies !crate::text::occurs_at(after, "\n---"@, j) by {
        if crate::text::occurs_at(after, "\n---"@, j) {
            assert(after.subrange(j, j + 4)[0] == after[j]);
            assert(after.subrange(j, j + 4)[1] == after[j + 1]);
            assert(after[j] == p[j]);
            assert(after[j + 1] == p[j + 1]);
        }
    }
    crate::site::lemma_find_is(after, "\n---"@, 0, end);
    assert(after.take(end) =~= "\n"@ + unlines(ls.drop_last()) + ls.last());
    assert(after.skip(end + 4) =~= "\n"@ + tail);
}

proof fn lemma_apply_lines_append(b: BotFileV, x: Seq<Seq<char>>, y: Seq<Seq<char>>)
    ensures
        apply_lines(b, x + y) == apply_lines(apply_lines(b, x), y),
    decreases x.len(),
{
    if x.len() == 0 {
        assert(x + y =~= y);
    } else {
        assert((x + y)[0] == x[0]);
        assert((x + y).drop_first() =~= x.drop_first() + y);
        lemma_apply_lines_append(apply_line(b, x[0]), x.drop_first(), y);
    }
}

proof fn lemma_apply_one(b: BotFileV, l: Seq<char>)
    ensures
        apply_lines(b, seq![l]) == apply_line(b, l),
{
    assert(seq![l].drop_first() =~= Seq::<Seq<char>>::empty());
    assert(seq![l][0] == l);
    assert(apply_lines(apply_line(b, l), Seq::<Seq<char>>::empty()) == apply_line(b, l));
}

/// A key as the file writes it: letters and underscores, no colon, no
/// whitespace.
pub open spec fn key_ok(key: Seq<char>) -> bool {
    &&& key.len() > 0
    &&& forall|j: int| 0 <= j < key.len() ==> key[j] != ':' && !crate::text::is_ws(#[trigger] key[j])
}

/// How a `key: value` line splits: at the key's colon, the key its own
/// trim, the value trimmed back to itself.
proof fn lemma_field_line(kl: Seq<char>, key: Seq<char>, v: Seq<char>)
    requires
        kl == key + ": "@,
        key_ok(key),
        trim(v) == v,
    ensures
        first_colon(kl + v) == Some(key.len() as int),
        trim((kl + v).take(key.len() as int)) == key,
        trim((kl + v).skip(key.len() as int + 1)) == v,
{
    reveal_strlit(": ");
    reveal_strlit(" ");
    let l = kl + v;
    let n = key.len() as int;
    assert(l[n] == ':');
    assert(forall|j: int| 0 <= j < n ==> l[j] == key[j]);
    let c = choose|i: int| 0 <= i < l.len() && l[i] == ':' && forall|j: int| 0 <= j < i ==> l[j] != ':';
    assert(0 <= n < l.len() && l[n] == ':' && forall|j: int| 0 <= j < n ==> l[j] != ':');
    assert(c == n) by {
        if c < n {
            assert(l[c] == key[c]);
        } else if c > n {
            assert(l[n] != ':');
        }
    }
    assert(l.take(n) =~= key);
    lemma_trim_noop(key);
    assert(l.skip(n + 1) =~= " "@ + v);
    lemma_trim_after_space(v);
}

/// Without quotes at either end, `strip_quotes` changes nothing.
proof fn lemma_strip_quotes_noop(v: Seq<char>)
    requires
        v.len() > 0 ==> v[0] != '"' && v.last() != '"',
    ensures
        strip_quotes(v) == v,
{
}

/// A field written as `key: value` reads back as that value.
proof fn lemma_field_value(kl: Seq<char>, key: Seq<char>, v: Seq<char>)
    requires
        kl == key + ": "@,
        key_ok(key),
        clean(v),
    ensures
        first_colon(kl + v) == Some(key.len() as int),
        trim((kl + v).take(key.len() as int)) == key,
        strip_quotes(trim((kl + v).skip(key.len() as int + 1))) == v,
{
    lemma_field_line(kl, key, v);
    lemma_strip_quotes_noop(v);
}

proof fn lemma_index_from_general(s: Seq<char>, c: char, i: int)
    requires
        0 <= i <= s.len(),
    ensures
        i <= index_from(s, c, i) <= s.len(),
        forall|j: int| i <= j < index_from(s, c, i) ==> s[j] != c,
        index_from(s, c, i) < s.len() ==> s[index_from(s, c, i)] == c,
    decreases s.len() - i,
{
    if i < s.len() && s[i] != c {
        lemma_index_from_general(s, c, i + 1);
    }
}

proof fn lemma_split_no_sep(a: Seq<char>, c: char)
    requires
        forall|j: int| 0 <= j < a.len() ==> a[j] != c,
    ensures
        split_on(a, c) == seq![a],
{
    lemma_index_from_zero(a, c, a.len() as int);
}

proof fn lemma_split_concat(a: Seq<char>, b: Seq<char>, c: char)
    ensures
        split_on(a + seq![c] + b, c) == split_on(a, c) + split_on(b, c),
    decreases a.len(),
{
    let s = a + seq![c] + b;
    lemma_index_from_general(a, c, 0);
    let e = index_from(a, c, 0);
    if e < a.len() {
        assert forall|j: int| 0 <= j < e implies s[j] != c by {
            assert(s[j] == a[j]);
        }
        assert(s[e] == a[e]);
        lemma_index_from_zero(s, c, e);
        assert(s.take(e) =~= a.take(e));
        assert(s.skip(e + 1) =~= a.skip(e + 1) + seq![c] + b);
        lemma_split_concat(a.skip(e + 1), b, c);
        assert(split_on(s, c) =~= seq![a.take(e)] + (split_on(a.skip(e + 1), c) + split_on(b, c)));
    } else {
        assert forall|j: int| 0 <= j < a.len() implies s[j] != c by {
            assert(s[j] == a[j]);
        }
        assert(s[a.len() as int] == c);
        lemma_index_from_zero(s, c, a.len() as int);
        assert(s.take(a.len() as int) =~= a);
        assert(s.skip(a.len() as int + 1) =~= b);
        lemma_split_no_sep(a, c);
    }
}

/// The pieces of a written list between its commas: the first item, then
/// each other one after the space that follows its comma.
pub open spec fn pieces(xs: Seq<Seq<char>>) -> Seq<Seq<char>> {
    seq![xs[0]] + xs.drop_first().map_values(|x: Seq<char>| " "@ + x)
}

proof fn lemma_items_prefix(xs: Seq<Seq<char>>)
    requires
        items_ok(xs),
        xs.len() > 0,
    ensures
        items_ok(xs.drop_last()),
        item_ok(xs.last()),
{
    assert forall|k: int| 0 <= k < xs.drop_last().len() implies item_ok(#[trigger] xs.drop_last()[k]) by {
        assert(xs.drop_last()[k] == xs[k]);
    }
    assert(item_ok(xs[xs.len() - 1]));
}

proof fn lemma_split_join(xs: Seq<Seq<char>>)
    requires
        xs.len() > 0,
        items_ok(xs),
    ensures
        split_on(join(xs, ", "@), ',') == pieces(xs),
    decreases xs.len(),
{
    reveal_strlit(", ");
    reveal_strlit(" ");
    assert(item_ok(xs[0]));
    if xs.len() == 1 {
        lemma_split_no_sep(xs[0], ',');
        assert(pieces(xs) =~= seq![xs[0]]);
    } else {
        let ys = xs.drop_last();
        let last = xs.last();
        lemma_items_prefix(xs);
        lemma_split_join(ys);
        assert(join(xs, ", "@) =~= join(ys, ", "@) + seq![','] + (" "@ + last));
        lemma_split_concat(join(ys, ", "@), " "@ + last, ',');
        lemma_split_no_sep(" "@ + last, ',');
        assert(pieces(xs) =~= pieces(ys) + seq![" "@ + last]);
    }
}

proof fn lemma_tidy_pieces(xs: Seq<Seq<char>>)
    requires
        xs.len() > 0,
        items_ok(xs),
    ensures
        tidy_items(pieces(xs)) == xs,
    decreases xs.len(),
{
    assert(item_ok(xs[0]));
    if xs.len() == 1 {
        let ps = pieces(xs);
        assert(ps =~= seq![xs[0]]);
        assert(ps.drop_last() =~= Seq::<Seq<char>>::empty());
        lemma_strip_quotes_noop(xs[0]);
        assert(tidy_items(Seq::<Seq<char>>::empty()) =~= Seq::<Seq<char>>::empty());
        assert(ps.last() == xs[0]);
        assert(tidy_items(ps) =~= xs);
    } else {
        let ys = xs.drop_last();
        let last = xs.last();
        lemma_items_prefix(xs);
        lemma_tidy_pieces(ys);
        let ps = pieces(xs);
        assert(ps =~= pieces(ys) + seq![" "@ + last]);
        assert(ps.drop_last() =~= pieces(ys));
        assert(ps.last() == " "@ + last);
        lemma_trim_after_space(last);
        lemma_strip_quotes_noop(last);
        assert(tidy_items(ps) =~= ys.push(last));
        assert(ys.push(last) =~= xs);
    }
}

/// A written list joins items with ", ": it is not empty when they are
/// not, starts as the first starts and ends as the last ends, and holds
/// no character that none of them holds, but for the comma and the space.
proof fn lemma_join_shape(xs: Seq<Seq<char>>)
    requires
        xs.len() > 0,
        items_ok(xs),
    ensures
        join(xs, ", "@).len() > 0,
        join(xs, ", "@)[0] == xs[0][0],
        join(xs, ", "@).last() == xs.last().last(),
        forall|j: int|
            0 <= j < join(xs, ", "@).len() ==> join(xs, ", "@)[j] != '\n' && join(xs, ", "@)[j] != '"'
                && join(xs, ", "@)[j] != '[' && join(xs, ", "@)[j] != ']',
    decreases xs.len(),
{
    reveal_strlit(", ");
    assert(item_ok(xs[0]));
    if xs.len() > 1 {
        let ys = xs.drop_last();
        lemma_items_prefix(xs);
        lemma_join_shape(ys);
        let j = join(xs, ", "@);
        let jy = join(ys, ", "@);
        assert(j == jy + ", "@ + xs.last());
        assert(j[0] == jy[0]);
        assert(ys[0] == xs[0]);
        assert forall|k: int| 0 <= k < j.len() implies j[k] != '\n' && j[k] != '"' && j[k] != '[' && j[k] != ']' by {
            if k < jy.len() {
                assert(j[k] == jy[k]);
            } else if k < jy.len() + 2 {
            } else {
                assert(j[k] == xs.last()[k - jy.len() - 2]);
            }
        }
    }
}

/// A list written as `[a, b]` reads back as the same items.
proof fn lemma_list_round_trip(xs: Seq<Seq<char>>)
    requires
        xs.len() > 0,
        items_ok(xs),
    ensures
        list_of(list_text(xs)) == xs,
        clean(list_text(xs)),
{
    reveal_strlit("[");
    reveal_strlit("]");
    let j = join(xs, ", "@);
    lemma_join_shape(xs);
    assert(item_ok(xs[0]));
    assert(item_ok(xs[xs.len() - 1]));
    let t = list_text(xs);
    assert(t =~= seq!['['] + j + seq![']']);
    assert(strip_brackets_start(t) == strip_brackets_start(j + seq![']'])) by {
        assert(t.drop_first() =~= j + seq![']']);
    }
    assert((j + seq![']'])[0] == j[0]);
    assert(!is_bracket(j[0]));
    assert(strip_brackets_start(j + seq![']']) == j + seq![']']);
    assert((j + seq![']']).drop_last() =~= j);
    assert((j + seq![']']).last() == ']');
    assert(strip_brackets_end(j + seq![']']) == strip_brackets_end(j));
    assert(!is_bracket(j.last()));
    assert(strip_brackets_end(j) == j);
    assert(strip_brackets(t) == j);
    lemma_split_join(xs);
    lemma_tidy_pieces(xs);
    lemma_trim_noop(t);
}

/// A `key: value` line is one `str::lines` keeps whole, and it does not
/// start with a dash.
proof fn lemma_line_plain(kl: Seq<char>, key: Seq<char>, v: Seq<char>)
    requires
        kl == key + ": "@,
        key_ok(key),
        key[0] != '-',
        trim(v) == v,
        forall|j: int| 0 <= j < v.len() ==> v[j] != '\n',
    ensures
        plain_line(kl + v),
        (kl + v)[0] != '-',
{
    reveal_strlit(": ");
    let l = kl + v;
    assert(l[0] == key[0]);
    assert forall|j: int| 0 <= j < l.len() implies l[j] != '\n' by {
        if j < key.len() {
            assert(l[j] == key[j]);
            assert(!crate::text::is_ws(key[j]));
        } else if j < kl.len() {
        } else {
            assert(l[j] == v[j - kl.len()]);
        }
    }
    if v.len() > 0 {
        lemma_trimmed_ends(v);
        assert(l.last() == v.last());
    } else {
        assert(l.last() == ' ');
    }
}


proof fn lemma_set_name(st: BotFileV, v: Seq<char>)
    ensures
        set_field(st, "name"@, v) == (BotFileV { name: v, ..st }),
{
    reveal_strlit("name");

}

proof fn lemma_set_goal(st: BotFileV, v: Seq<char>)
    ensures
        set_field(st, "goal"@, v) == (BotFileV { goal: v, ..st }),
{
    reveal_strlit("goal");
    reveal_strlit("name");
    assert("goal"@[0] != "name"@[0]);
}

proof fn lemma_set_every(st: BotFileV, v: Seq<char>)
    ensures
        set_field(st, "every"@, v) == (BotFileV { every: v, ..st }),
{
    reveal_strlit("every");
    reveal_strlit("name");
    reveal_strlit("goal");
    assert("every"@.len() != "name"@.len());
    assert("every"@.len() != "goal"@.len());
}

proof fn lemma_set_at(st: BotFileV, v: Seq<char>)
    ensures
        set_field(st, "at"@, v) == (BotFileV { at_min: parse_at_spec(v), ..st }),
{
    reveal_strlit("at");
    reveal_strlit("name");
    reveal_strlit("goal");
    reveal_strlit("every");
    assert("at"@.len() != "name"@.len());
    assert("at"@.len() != "goal"@.len());
    assert("at"@.len() != "every"@.len());
}

proof fn lemma_set_days(st: BotFileV, v: Seq<char>)
    ensures
        set_field(st, "days"@, v) == (BotFileV { days: v, ..st }),
{
    reveal_strlit("days");
    reveal_strlit("name");
    reveal_strlit("goal");
    reveal_strlit("every");
    reveal_strlit("at");
    assert("days"@[0] != "name"@[0]);
    assert("days"@[0] != "goal"@[0]);
    assert("days"@.len() != "every"@.len());
    assert("days"@.len() != "at"@.len());
}

proof fn lemma_set_template(st: BotFileV, v: Seq<char>)
    ensures
        set_field(st, "template"@, v) == (BotFileV { template: v, ..st }),
{
    reveal_strlit("template");
    reveal_strlit("name");
    reveal_strlit("goal");
    reveal_strlit("every");
    reveal_strlit("at");
    reveal_strlit("days");
    assert("template"@.len() != "name"@.len());
    assert("template"@.len() != "goal"@.len());
    assert("template"@.len() != "every"@.len());
    assert("template"@.len() != "at"@.len());
    assert("template"@.len() != "days"@.len());
}

proof fn lemma_set_agent(st: BotFileV, v: Seq<char>)
    ensures
        set_field(st, "agent"@, v) == (BotFileV { agent: v, ..st }),
{
    reveal_strlit("agent");
    reveal_strlit("name");
    reveal_strlit("goal");
    reveal_strlit("every");
    reveal_strlit("at");
    reveal_strlit("days");
    reveal_strlit("template");
    assert("agent"@.len() != "name"@.len());
    assert("agent"@.len() != "goal"@.len());
    assert("agent"@[0] != "every"@[0]);
    assert("agent"@.len() != "at"@.len());
    assert("agent"@.len() != "days"@.len());
    assert("agent"@.len() != "template"@.len());
}

proof fn lemma_set_team(st: BotFileV, v: Seq<char>)
    ensures
        set_field(st, "team"@, v) == (BotFileV { team: list_of(v), ..st }),
{
    reveal_strlit("team");
    reveal_strlit("name");
    reveal_strlit("goal");
    reveal_strlit("every");
    reveal_strlit("at");
    reveal_strlit("days");
    reveal_strlit("template");
    reveal_strlit("agent");
    assert("team"@[0] != "name"@[0]);
    assert("team"@[0] != "goal"@[0]);
    assert("team"@.len() != "every"@.len());
    assert("team"@.len() != "at"@.len());
    assert("team"@[0] != "days"@[0]);
    assert("team"@.len() != "template"@.len());
    assert("team"@.len() != "agent"@.len());
}

proof fn lemma_set_wake_intent(st: BotFileV, v: Seq<char>)
    ensures
        set_field(st, "wake_intent"@, v) == (BotFileV { wake_intent: v, ..st }),
{
    reveal_strlit("wake_intent");
    reveal_strlit("name");
    reveal_strlit("goal");
    reveal_strlit("every");
    reveal_strlit("at");
    reveal_strlit("days");
    reveal_strlit("template");
    reveal_strlit("agent");
    reveal_strlit("team");
    assert("wake_intent"@.len() != "name"@.len());
    assert("wake_intent"@.len() != "goal"@.len());
    assert("wake_intent"@.len() != "every"@.len());
    assert("wake_intent"@.len() != "at"@.len());
    assert("wake_intent"@.len() != "days"@.len());
    assert("wake_intent"@.len() != "template"@.len());
    assert("wake_intent"@.len() != "agent"@.len());
    assert("wake_intent"@.len() != "team"@.len());
}

proof fn lemma_set_stop_at(st: BotFileV, v: Seq<char>)
    ensures
        set_field(st, "stop_at"@, v) == (BotFileV { stop_at: list_of(v), ..st }),
{
    reveal_strlit("stop_at");
    reveal_strlit("name");
    reveal_strlit("goal");
    reveal_strlit("every");
    reveal_strlit("at");
    reveal_strlit("days");
    reveal_strlit("template");
    reveal_strlit("agent");
    reveal_strlit("team");
    reveal_strlit("wake_intent");
    assert("stop_at"@.len() != "name"@.len());
    assert("stop_at"@.len() != "goal"@.len());
    assert("stop_at"@.len() != "every"@.len());
    assert("stop_at"@.len() != "at"@.len());
    assert("stop_at"@.len() != "days"@.len());
    assert("stop_at"@.len() != "template"@.len());
    assert("stop_at"@.len() != "agent"@.len());
    assert("stop_at"@.len() != "team"@.len());
    assert("stop_at"@.len() != "wake_intent"@.len());
}

proof fn lemma_set_feature(st: BotFileV, v: Seq<char>)
    ensures
        set_field(st, "feature"@, v) == (BotFileV { feature: v, ..st }),
{
    reveal_strlit("feature");
    reveal_strlit("name");
    reveal_strlit("goal");
    reveal_strlit("every");
    reveal_strlit("at");
    reveal_strlit("days");
    reveal_strlit("template");
    reveal_strlit("agent");
    reveal_strlit("team");
    reveal_strlit("wake_intent");
    reveal_strlit("stop_at");
    assert("feature"@.len() != "name"@.len());
    assert("feature"@.len() != "goal"@.len());
    assert("feature"@.len() != "every"@.len());
    assert("feature"@.len() != "at"@.len());
    assert("feature"@.len() != "days"@.len());
    assert("feature"@.len() != "template"@.len());
    assert("feature"@.len() != "agent"@.len());
    assert("feature"@.len() != "team"@.len());
    assert("feature"@.len() != "wake_intent"@.len());
    assert("feature"@[0] != "stop_at"@[0]);
}

proof fn lemma_set_skills(st: BotFileV, v: Seq<char>)
    ensures
        set_field(st, "skills"@, v) == (BotFileV { skills: list_of(v), ..st }),
{
    reveal_strlit("skills");
    reveal_strlit("name");
    reveal_strlit("goal");
    reveal_strlit("every");
    reveal_strlit("at");
    reveal_strlit("days");
    reveal_strlit("template");
    reveal_strlit("agent");
    reveal_strlit("team");
    reveal_strlit("wake_intent");
    reveal_strlit("stop_at");
    reveal_strlit("feature");
    assert("skills"@.len() != "name"@.len());
    assert("skills"@.len() != "goal"@.len());
    assert("skills"@.len() != "every"@.len());
    assert("skills"@.len() != "at"@.len());
    assert("skills"@.len() != "days"@.len());
    assert("skills"@.len() != "template"@.len());
    assert("skills"@.len() != "agent"@.len());
    assert("skills"@.len() != "team"@.len());
    assert("skills"@.len() != "wake_intent"@.len());
    assert("skills"@.len() != "stop_at"@.len());
    assert("skills"@.len() != "feature"@.len());
}

proof fn lemma_line_name(st: BotFileV, v: Seq<char>)
    requires
        clean(v),
    ensures
        apply_line(st, "name: "@ + v) == (BotFileV { name: v, ..st }),
        plain_line("name: "@ + v),
        ("name: "@ + v)[0] != '-',
{
    reveal_strlit("name");
    reveal_strlit("name: ");
    reveal_strlit(": ");
    assert("name: "@ =~= "name"@ + ": "@);
    assert(key_ok("name"@));
    lemma_field_value("name: "@, "name"@, v);
    lemma_set_name(st, v);
    lemma_line_plain("name: "@, "name"@, v);
}

proof fn lemma_line_goal(st: BotFileV, v: Seq<char>)
    requires
        clean(v),
    ensures
        apply_line(st, "goal: "@ + v) == (BotFileV { goal: v, ..st }),
        plain_line("goal: "@ + v),
        ("goal: "@ + v)[0] != '-',
{
    reveal_strlit("goal");
    reveal_strlit("goal: ");
    reveal_strlit(": ");
    assert("goal: "@ =~= "goal"@ + ": "@);
    assert(key_ok("goal"@));
    lemma_field_value("goal: "@, "goal"@, v);
    lemma_set_goal(st, v);
    lemma_line_plain("goal: "@, "goal"@, v);
}

proof fn lemma_line_every(st: BotFileV, v: Seq<char>)
    requires
        clean(v),
    ensures
        apply_line(st, "every: "@ + v) == (BotFileV { every: v, ..st }),
        plain_line("every: "@ + v),
        ("every: "@ + v)[0] != '-',
{
    reveal_strlit("every");
    reveal_strlit("every: ");
    reveal_strlit(": ");
    assert("every: "@ =~= "every"@ + ": "@);
    assert(key_ok("every"@));
    lemma_field_value("every: "@, "every"@, v);
    lemma_set_every(st, v);
    lemma_line_plain("every: "@, "every"@, v);
}

proof fn lemma_line_days(st: BotFileV, v: Seq<char>)
    requires
        clean(v),
    ensures
        apply_line(st, "days: "@ + v) == (BotFileV { days: v, ..st }),
        plain_line("days: "@ + v),
        ("days: "@ + v)[0] != '-',
{
    reveal_strlit("days");
    reveal_strlit("days: ");
    reveal_strlit(": ");
    assert("days: "@ =~= "days"@ + ": "@);
    assert(key_ok("days"@));
    lemma_field_value("days: "@, "days"@, v);
    lemma_set_days(st, v);
    lemma_line_plain("days: "@, "days"@, v);
}

proof fn lemma_line_template(st: BotFileV, v: Seq<char>)
    requires
        clean(v),
    ensures
        apply_line(st, "template: "@ + v) == (BotFileV { template: v, ..st }),
        plain_line("template: "@ + v),
        ("template: "@ + v)[0] != '-',
{
    reveal_strlit("template");
    reveal_strlit("template: ");
    reveal_strlit(": ");
    assert("template: "@ =~= "template"@ + ": "@);
    assert(key_ok("template"@));
    lemma_field_value("template: "@, "template"@, v);
    lemma_set_template(st, v);
    lemma_line_plain("template: "@, "template"@, v);
}

proof fn lemma_line_agent(st: BotFileV, v: Seq<char>)
    requires
        clean(v),
    ensures
        apply_line(st, "agent: "@ + v) == (BotFileV { agent: v, ..st }),
        plain_line("agent: "@ + v),
        ("agent: "@ + v)[0] != '-',
{
    reveal_strlit("agent");
    reveal_strlit("agent: ");
    reveal_strlit(": ");
    assert("agent: "@ =~= "agent"@ + ": "@);
    assert(key_ok("agent"@));
    lemma_field_value("agent: "@, "agent"@, v);
    lemma_set_agent(st, v);
    lemma_line_plain("agent: "@, "agent"@, v);
}

proof fn lemma_line_wake_intent(st: BotFileV, v: Seq<char>)
    requires
        clean(v),
    ensures
        apply_line(st, "wake_intent: "@ + v) == (BotFileV { wake_intent: v, ..st }),
        plain_line("wake_intent: "@ + v),
        ("wake_intent: "@ + v)[0] != '-',
{
    reveal_strlit("wake_intent");
    reveal_strlit("wake_intent: ");
    reveal_strlit(": ");
    assert("wake_intent: "@ =~= "wake_intent"@ + ": "@);
    assert(key_ok("wake_intent"@));
    lemma_field_value("wake_intent: "@, "wake_intent"@, v);
    lemma_set_wake_intent(st, v);
    lemma_line_plain("wake_intent: "@, "wake_intent"@, v);
}

proof fn lemma_line_feature(st: BotFileV, v: Seq<char>)
    requires
        clean(v),
    ensures
        apply_line(st, "feature: "@ + v) == (BotFileV { feature: v, ..st }),
        plain_line("feature: "@ + v),
        ("feature: "@ + v)[0] != '-',
{
    reveal_strlit("feature");
    reveal_strlit("feature: ");
    reveal_strlit(": ");
    assert("feature: "@ =~= "feature"@ + ": "@);
    assert(key_ok("feature"@));
    lemma_field_value("feature: "@, "feature"@, v);
    lemma_set_feature(st, v);
    lemma_line_plain("feature: "@, "feature"@, v);
}

proof fn lemma_line_team(st: BotFileV, xs: Seq<Seq<char>>)
    requires
        xs.len() > 0,
        items_ok(xs),
    ensures
        apply_line(st, "team: "@ + list_text(xs)) == (BotFileV { team: xs, ..st }),
        plain_line("team: "@ + list_text(xs)),
        ("team: "@ + list_text(xs))[0] != '-',
{
    reveal_strlit("team");
    reveal_strlit("team: ");
    reveal_strlit(": ");
    assert("team: "@ =~= "team"@ + ": "@);
    assert(key_ok("team"@));
    lemma_list_round_trip(xs);
    lemma_field_value("team: "@, "team"@, list_text(xs));
    lemma_set_team(st, list_text(xs));
    lemma_line_plain("team: "@, "team"@, list_text(xs));
}

proof fn lemma_line_stop_at(st: BotFileV, xs: Seq<Seq<char>>)
    requires
        xs.len() > 0,
        items_ok(xs),
    ensures
        apply_line(st, "stop_at: "@ + list_text(xs)) == (BotFileV { stop_at: xs, ..st }),
        plain_line("stop_at: "@ + list_text(xs)),
        ("stop_at: "@ + list_text(xs))[0] != '-',
{
    reveal_strlit("stop_at");
    reveal_strlit("stop_at: ");
    reveal_strlit(": ");
    assert("stop_at: "@ =~= "stop_at"@ + ": "@);
    assert(key_ok("stop_at"@));
    lemma_list_round_trip(xs);
    lemma_field_value("stop_at: "@, "stop_at"@, list_text(xs));
    lemma_set_stop_at(st, list_text(xs));
    lemma_line_plain("stop_at: "@, "stop_at"@, list_text(xs));
}

proof fn lemma_line_skills(st: BotFileV, xs: Seq<Seq<char>>)
    requires
        xs.len() > 0,
        items_ok(xs),
    ensures
        apply_line(st, "skills: "@ + list_text(xs)) == (BotFileV { skills: xs, ..st }),
        plain_line("skills: "@ + list_text(xs)),
        ("skills: "@ + list_text(xs))[0] != '-',
{
    reveal_strlit("skills");
    reveal_strlit("skills: ");
    reveal_strlit(": ");
    assert("skills: "@ =~= "skills"@ + ": "@);
    assert(key_ok("skills"@));
    lemma_list_round_trip(xs);
    lemma_field_value("skills: "@, "skills"@, list_text(xs));
    lemma_set_skills(st, list_text(xs));
    lemma_line_plain("skills: "@, "skills"@, list_text(xs));
}
#[verifier::rlimit(30)]
proof fn lemma_line_at(st: BotFileV, m: int)
    requires
        0 <= m < 1440,
    ensures
        apply_line(st, "at: \""@ + fmt_at_spec(m) + "\""@) == (BotFileV { at_min: m, ..st }),
        plain_line("at: \""@ + fmt_at_spec(m) + "\""@),
        ("at: \""@ + fmt_at_spec(m) + "\""@)[0] != '-',
{
    reveal_strlit("at: \"");
    reveal_strlit("at: ");
    reveal_strlit("at");
    reveal_strlit(": ");
    reveal_strlit("\"");
    reveal_strlit(":");
    let f = fmt_at_spec(m);
    let q = crate::bots::div_toward_zero(m, 60);
    assert(q == m / 60);
    assert(0 <= q < 24);
    assert(0 <= m - q * 60 < 60);
    crate::bots::lemma_two_digits(q);
    crate::bots::lemma_two_digits(m - q * 60);
    let a = crate::bots::pad2(q);
    let b = crate::bots::pad2(m - q * 60);
    assert(f == a + ":"@ + b);
    assert(f.len() > 0);
    assert(crate::text::is_digit(a[0]));
    assert(f[0] == a[0]);
    assert(f.last() == b.last());
    assert(crate::text::is_digit(b[b.len() - 1]));
    assert forall|j: int| 0 <= j < f.len() implies f[j] != '\n' && f[j] != '"' by {
        if j < a.len() {
            assert(crate::text::is_digit(a[j]));
        } else if j == a.len() {
        } else {
            assert(f[j] == b[j - a.len() - 1]);
            assert(crate::text::is_digit(b[j - a.len() - 1]));
        }
    }
    let v = "\""@ + f + "\""@;
    assert("at: \""@ + f + "\""@ =~= "at: "@ + v);
    assert("at: "@ =~= "at"@ + ": "@);
    assert(key_ok("at"@));
    lemma_trim_noop(v);
    lemma_field_line("at: "@, "at"@, v);
    assert(strip_quotes_start(v) == strip_quotes_start(f + "\""@)) by {
        assert(v.drop_first() =~= f + "\""@);
    }
    assert(strip_quotes_start(f + "\""@) == f + "\""@);
    assert(crate::site::strip_quotes_end(f + "\""@) == crate::site::strip_quotes_end(f)) by {
        assert((f + "\""@).drop_last() =~= f);
    }
    assert(strip_quotes(v) == f);
    crate::bots::law_times_survive_both_ways(m);
    lemma_set_at(st, f);
    assert forall|j: int| 0 <= j < v.len() implies v[j] != '\n' by {
        if 0 < j < v.len() - 1 {
            assert(v[j] == f[j - 1]);
        }
    }
    lemma_line_plain("at: "@, "at"@, v);
}

/// Lines `str::lines` keeps whole, none starting with a dash.
pub open spec fn good_lines(ls: Seq<Seq<char>>) -> bool {
    forall|k: int| 0 <= k < ls.len() ==> plain_line(#[trigger] ls[k]) && ls[k][0] != '-'
}

proof fn lemma_good_append(a: Seq<Seq<char>>, b: Seq<Seq<char>>)
    requires
        good_lines(a),
        good_lines(b),
    ensures
        good_lines(a + b),
{
    assert forall|k: int| 0 <= k < (a + b).len() implies plain_line(#[trigger] (a + b)[k]) && (a + b)[k][0] != '-' by {
        if k < a.len() {
            assert((a + b)[k] == a[k]);
        } else {
            assert((a + b)[k] == b[k - a.len()]);
        }
    }
}

proof fn lemma_clean_empty(v: Seq<char>)
    requires
        clean(v),
        trim(v).len() == 0,
    ensures
        v == Seq::<char>::empty(),
{
    assert(v.len() == 0);
}

proof fn lemma_opt_goal(st: BotFileV, v: Seq<char>)
    requires
        clean(v),
        st.goal == Seq::<char>::empty(),
    ensures
        apply_lines(st, opt_line(trim(v).len() > 0, "goal: "@ + trim(v))) == (BotFileV { goal: v, ..st }),
        good_lines(opt_line(trim(v).len() > 0, "goal: "@ + trim(v))),
{
    if trim(v).len() > 0 {
        lemma_line_goal(st, v);
        lemma_apply_one(st, "goal: "@ + v);
    } else {
        lemma_clean_empty(v);
        assert(opt_line(trim(v).len() > 0, "goal: "@ + trim(v)) =~= Seq::<Seq<char>>::empty());
        assert(st =~~= (BotFileV { goal: v, ..st }));
    }
}

proof fn lemma_opt_template(st: BotFileV, v: Seq<char>)
    requires
        clean(v),
        st.template == Seq::<char>::empty(),
    ensures
        apply_lines(st, opt_line(trim(v).len() > 0, "template: "@ + trim(v))) == (BotFileV { template: v, ..st }),
        good_lines(opt_line(trim(v).len() > 0, "template: "@ + trim(v))),
{
    if trim(v).len() > 0 {
        lemma_line_template(st, v);
        lemma_apply_one(st, "template: "@ + v);
    } else {
        lemma_clean_empty(v);
        assert(opt_line(trim(v).len() > 0, "template: "@ + trim(v)) =~= Seq::<Seq<char>>::empty());
        assert(st =~~= (BotFileV { template: v, ..st }));
    }
}

proof fn lemma_opt_feature(st: BotFileV, v: Seq<char>)
    requires
        clean(v),
        st.feature == Seq::<char>::empty(),
    ensures
        apply_lines(st, opt_line(trim(v).len() > 0, "feature: "@ + trim(v))) == (BotFileV { feature: v, ..st }),
        good_lines(opt_line(trim(v).len() > 0, "feature: "@ + trim(v))),
{
    if trim(v).len() > 0 {
        lemma_line_feature(st, v);
        lemma_apply_one(st, "feature: "@ + v);
    } else {
        lemma_clean_empty(v);
        assert(opt_line(trim(v).len() > 0, "feature: "@ + trim(v)) =~= Seq::<Seq<char>>::empty());
        assert(st =~~= (BotFileV { feature: v, ..st }));
    }
}

proof fn lemma_opt_agent(st: BotFileV, v: Seq<char>)
    requires
        clean(v),
        st.agent == Seq::<char>::empty(),
    ensures
        apply_lines(st, opt_line(trim(v).len() > 0, "agent: "@ + trim(v))) == (BotFileV { agent: v, ..st }),
        good_lines(opt_line(trim(v).len() > 0, "agent: "@ + trim(v))),
{
    if trim(v).len() > 0 {
        lemma_line_agent(st, v);
        lemma_apply_one(st, "agent: "@ + v);
    } else {
        lemma_clean_empty(v);
        assert(opt_line(trim(v).len() > 0, "agent: "@ + trim(v)) =~= Seq::<Seq<char>>::empty());
        assert(st =~~= (BotFileV { agent: v, ..st }));
    }
}

proof fn lemma_opt_wake_intent(st: BotFileV, v: Seq<char>)
    requires
        clean(v),
        st.wake_intent == Seq::<char>::empty(),
    ensures
        apply_lines(st, opt_line(trim(v).len() > 0, "wake_intent: "@ + trim(v))) == (BotFileV { wake_intent: v, ..st }),
        good_lines(opt_line(trim(v).len() > 0, "wake_intent: "@ + trim(v))),
{
    if trim(v).len() > 0 {
        lemma_line_wake_intent(st, v);
        lemma_apply_one(st, "wake_intent: "@ + v);
    } else {
        lemma_clean_empty(v);
        assert(opt_line(trim(v).len() > 0, "wake_intent: "@ + trim(v)) =~= Seq::<Seq<char>>::empty());
        assert(st =~~= (BotFileV { wake_intent: v, ..st }));
    }
}

proof fn lemma_opt_skills(st: BotFileV, xs: Seq<Seq<char>>)
    requires
        items_ok(xs),
        st.skills == Seq::<Seq<char>>::empty(),
    ensures
        apply_lines(st, opt_line(xs.len() > 0, "skills: "@ + list_text(xs))) == (BotFileV { skills: xs, ..st }),
        good_lines(opt_line(xs.len() > 0, "skills: "@ + list_text(xs))),
{
    if xs.len() > 0 {
        lemma_line_skills(st, xs);
        lemma_apply_one(st, "skills: "@ + list_text(xs));
    } else {
        assert(opt_line(xs.len() > 0, "skills: "@ + list_text(xs)) =~= Seq::<Seq<char>>::empty());
        assert(xs =~= Seq::<Seq<char>>::empty());
        assert(st =~~= (BotFileV { skills: xs, ..st }));
    }
}

proof fn lemma_opt_team(st: BotFileV, xs: Seq<Seq<char>>)
    requires
        items_ok(xs),
        st.team == Seq::<Seq<char>>::empty(),
    ensures
        apply_lines(st, opt_line(xs.len() > 0, "team: "@ + list_text(xs))) == (BotFileV { team: xs, ..st }),
        good_lines(opt_line(xs.len() > 0, "team: "@ + list_text(xs))),
{
    if xs.len() > 0 {
        lemma_line_team(st, xs);
        lemma_apply_one(st, "team: "@ + list_text(xs));
    } else {
        assert(opt_line(xs.len() > 0, "team: "@ + list_text(xs)) =~= Seq::<Seq<char>>::empty());
        assert(xs =~= Seq::<Seq<char>>::empty());
        assert(st =~~= (BotFileV { team: xs, ..st }));
    }
}

proof fn lemma_opt_stop_at(st: BotFileV, xs: Seq<Seq<char>>)
    requires
        items_ok(xs),
        st.stop_at == Seq::<Seq<char>>::empty(),
    ensures
        apply_lines(st, opt_line(xs.len() > 0, "stop_at: "@ + list_text(xs))) == (BotFileV { stop_at: xs, ..st }),
        good_lines(opt_line(xs.len() > 0, "stop_at: "@ + list_text(xs))),
{
    if xs.len() > 0 {
        lemma_line_stop_at(st, xs);
        lemma_apply_one(st, "stop_at: "@ + list_text(xs));
    } else {
        assert(opt_line(xs.len() > 0, "stop_at: "@ + list_text(xs)) =~= Seq::<Seq<char>>::empty());
        assert(xs =~= Seq::<Seq<char>>::empty());
        assert(st =~~= (BotFileV { stop_at: xs, ..st }));
    }
}

/// The routine: written only with one, read back whole; without one the
/// time is 07:00 and there are no days.
proof fn lemma_routine(st: BotFileV, b: BotFileV)
    requires
        writable(b),
        st.every == Seq::<char>::empty(),
        st.at_min == 420,
        st.days == Seq::<char>::empty(),
    ensures
        apply_lines(st, routine_lines(b)) == (BotFileV { every: b.every, at_min: carried(b).at_min, days: carried(b).days, ..st }),
        good_lines(routine_lines(b)),
{
    reveal_strlit("weekly");
    if trim(b.every).len() > 0 {
        let e = "every: "@ + trim(b.every);
        let at = "at: \""@ + fmt_at_spec(b.at_min) + "\""@;
        let d = opt_line(b.every == "weekly"@ && trim(b.days).len() > 0, "days: "@ + trim(b.days));
        assert(routine_lines(b) == seq![e, at] + d);
        assert(seq![e, at] =~= seq![e] + seq![at]);
        lemma_apply_lines_append(st, seq![e] + seq![at], d);
        lemma_apply_lines_append(st, seq![e], seq![at]);
        lemma_line_every(st, b.every);
        lemma_apply_one(st, e);
        let s1 = BotFileV { every: b.every, ..st };
        lemma_line_at(s1, b.at_min);
        lemma_apply_one(s1, at);
        let s2 = BotFileV { at_min: b.at_min, ..s1 };
        if b.every == "weekly"@ && trim(b.days).len() > 0 {
            lemma_line_days(s2, b.days);
            lemma_apply_one(s2, "days: "@ + b.days);
        } else {
            assert(d =~= Seq::<Seq<char>>::empty());
            if b.every == "weekly"@ {
                lemma_clean_empty(b.days);
            }
        }
        assert(good_lines(seq![e, at])) by {
            assert(seq![e, at][0] == e);
            assert(seq![e, at][1] == at);
        }
        if b.every == "weekly"@ && trim(b.days).len() > 0 {
            assert(d == seq!["days: "@ + b.days]);
        }
        lemma_good_append(seq![e, at], d);
    } else {
        lemma_clean_empty(b.every);
        assert(routine_lines(b) =~= Seq::<Seq<char>>::empty());
        assert(b.every != "weekly"@) by {
            reveal_strlit("weekly");
        }
    }
}

/// The template, feature and skills lines read back as written.
proof fn lemma_tail_first(st: BotFileV, b: BotFileV)
    requires
        writable(b),
        st.template == Seq::<char>::empty(),
        st.feature == Seq::<char>::empty(),
        st.skills == Seq::<Seq<char>>::empty(),
    ensures
        ({
            let t = opt_line(trim(b.template).len() > 0, "template: "@ + trim(b.template)) + opt_line(
                trim(b.feature).len() > 0,
                "feature: "@ + trim(b.feature),
            ) + opt_line(b.skills.len() > 0, "skills: "@ + list_text(b.skills));
            &&& apply_lines(st, t) == (BotFileV { template: b.template, feature: b.feature, skills: b.skills, ..st })
            &&& good_lines(t)
        }),
{
    let t1 = opt_line(trim(b.template).len() > 0, "template: "@ + trim(b.template));
    let t2 = opt_line(trim(b.feature).len() > 0, "feature: "@ + trim(b.feature));
    let t3 = opt_line(b.skills.len() > 0, "skills: "@ + list_text(b.skills));
    lemma_opt_template(st, b.template);
    let s1 = BotFileV { template: b.template, ..st };
    lemma_opt_feature(s1, b.feature);
    let s2 = BotFileV { feature: b.feature, ..s1 };
    lemma_opt_skills(s2, b.skills);
    lemma_apply_lines_append(st, t1, t2);
    lemma_apply_lines_append(st, t1 + t2, t3);
    lemma_good_append(t1, t2);
    lemma_good_append(t1 + t2, t3);
}

/// The agent, team, wake intent and stop lines read back as written.
proof fn lemma_tail_second(st: BotFileV, b: BotFileV)
    requires
        writable(b),
        st.agent == Seq::<char>::empty(),
        st.team == Seq::<Seq<char>>::empty(),
        st.wake_intent == Seq::<char>::empty(),
        st.stop_at == Seq::<Seq<char>>::empty(),
    ensures
        ({
            let t = opt_line(trim(b.agent).len() > 0, "agent: "@ + trim(b.agent)) + opt_line(
                b.team.len() > 0,
                "team: "@ + list_text(b.team),
            ) + opt_line(trim(b.wake_intent).len() > 0, "wake_intent: "@ + trim(b.wake_intent))
                + opt_line(b.stop_at.len() > 0, "stop_at: "@ + list_text(b.stop_at));
            &&& apply_lines(st, t) == (BotFileV {
                agent: b.agent,
                team: b.team,
                wake_intent: b.wake_intent,
                stop_at: b.stop_at,
                ..st
            })
            &&& good_lines(t)
        }),
{
    let t4 = opt_line(trim(b.agent).len() > 0, "agent: "@ + trim(b.agent));
    let t5 = opt_line(b.team.len() > 0, "team: "@ + list_text(b.team));
    let t6 = opt_line(trim(b.wake_intent).len() > 0, "wake_intent: "@ + trim(b.wake_intent));
    let t7 = opt_line(b.stop_at.len() > 0, "stop_at: "@ + list_text(b.stop_at));
    lemma_opt_agent(st, b.agent);
    let s1 = BotFileV { agent: b.agent, ..st };
    lemma_opt_team(s1, b.team);
    let s2 = BotFileV { team: b.team, ..s1 };
    lemma_opt_wake_intent(s2, b.wake_intent);
    let s3 = BotFileV { wake_intent: b.wake_intent, ..s2 };
    lemma_opt_stop_at(s3, b.stop_at);
    lemma_apply_lines_append(st, t4, t5);
    lemma_apply_lines_append(st, t4 + t5, t6);
    lemma_apply_lines_append(st, t4 + t5 + t6, t7);
    lemma_good_append(t4, t5);
    lemma_good_append(t4 + t5, t6);
    lemma_good_append(t4 + t5 + t6, t7);
}

/// Everything after the routine reads back as written.
#[verifier::rlimit(40)]
proof fn lemma_tail(st: BotFileV, b: BotFileV)
    requires
        writable(b),
        st.template == Seq::<char>::empty(),
        st.feature == Seq::<char>::empty(),
        st.skills == Seq::<Seq<char>>::empty(),
        st.agent == Seq::<char>::empty(),
        st.team == Seq::<Seq<char>>::empty(),
        st.wake_intent == Seq::<char>::empty(),
        st.stop_at == Seq::<Seq<char>>::empty(),
    ensures
        apply_lines(st, tail_lines(b)) == (BotFileV {
            template: b.template,
            feature: b.feature,
            skills: b.skills,
            agent: b.agent,
            team: b.team,
            wake_intent: b.wake_intent,
            stop_at: b.stop_at,
            ..st
        }),
        good_lines(tail_lines(b)),
{
    let a = opt_line(trim(b.template).len() > 0, "template: "@ + trim(b.template)) + opt_line(
        trim(b.feature).len() > 0,
        "feature: "@ + trim(b.feature),
    ) + opt_line(b.skills.len() > 0, "skills: "@ + list_text(b.skills));
    let c = opt_line(trim(b.agent).len() > 0, "agent: "@ + trim(b.agent)) + opt_line(
        b.team.len() > 0,
        "team: "@ + list_text(b.team),
    ) + opt_line(trim(b.wake_intent).len() > 0, "wake_intent: "@ + trim(b.wake_intent))
        + opt_line(b.stop_at.len() > 0, "stop_at: "@ + list_text(b.stop_at));
    assert(tail_lines(b) =~= a + c);
    lemma_tail_first(st, b);
    let s1 = BotFileV { template: b.template, feature: b.feature, skills: b.skills, ..st };
    assert(apply_lines(st, a) == s1);
    lemma_tail_second(s1, b);
    let s2 = BotFileV { agent: b.agent, team: b.team, wake_intent: b.wake_intent, stop_at: b.stop_at, ..s1 };
    assert(apply_lines(s1, c) == s2);
    lemma_apply_lines_append(st, a, c);
    assert(apply_lines(st, a + c) == s2);
    lemma_good_append(a, c);
}

/// The name, goal and routine lines read back as written.
proof fn lemma_head(b: BotFileV)
    requires
        writable(b),
    ensures
        ({
            let h = seq!["name: "@ + trim(b.name)] + opt_line(trim(b.goal).len() > 0, "goal: "@ + trim(b.goal))
                + routine_lines(b);
            &&& apply_lines(fresh_file(), h) == (BotFileV {
                name: b.name,
                goal: b.goal,
                every: b.every,
                at_min: carried(b).at_min,
                days: carried(b).days,
                ..fresh_file()
            })
            &&& good_lines(h)
            &&& h.len() > 0
        }),
{
    let st0 = fresh_file();
    let n = seq!["name: "@ + trim(b.name)];
    let g = opt_line(trim(b.goal).len() > 0, "goal: "@ + trim(b.goal));
    let r = routine_lines(b);
    lemma_line_name(st0, b.name);
    lemma_apply_one(st0, "name: "@ + b.name);
    let s1 = BotFileV { name: b.name, ..st0 };
    lemma_opt_goal(s1, b.goal);
    let s2 = BotFileV { goal: b.goal, ..s1 };
    lemma_routine(s2, b);
    lemma_apply_lines_append(st0, n, g);
    lemma_apply_lines_append(st0, n + g, r);
    assert(good_lines(n)) by {
        assert(n[0] == "name: "@ + b.name);
    }
    lemma_good_append(n, g);
    lemma_good_append(n + g, r);
}

/// The frontmatter of a writable bot reads back as what it carries.
proof fn lemma_front(b: BotFileV)
    requires
        writable(b),
    ensures
        apply_lines(fresh_file(), front_lines(b)) == (BotFileV { body: seq![], ..carried(b) }),
        good_lines(front_lines(b)),
        front_lines(b).len() > 0,
{
    let h = seq!["name: "@ + trim(b.name)] + opt_line(trim(b.goal).len() > 0, "goal: "@ + trim(b.goal))
        + routine_lines(b);
    assert(front_lines(b) == h + tail_lines(b));
    lemma_head(b);
    let s = BotFileV {
        name: b.name,
        goal: b.goal,
        every: b.every,
        at_min: carried(b).at_min,
        days: carried(b).days,
        ..fresh_file()
    };
    lemma_tail(s, b);
    lemma_apply_lines_append(fresh_file(), h, tail_lines(b));
    lemma_good_append(h, tail_lines(b));
    assert(apply_lines(fresh_file(), front_lines(b)) =~~= (BotFileV { body: seq![], ..carried(b) }));
}

/// Trimming twice is trimming once.
proof fn lemma_trim_idempotent(x: Seq<char>)
    ensures
        trim(trim(x)) == trim(x),
{
    let t = trim(x);
    lemma_trim_start_first(x);
    lemma_trim_end_last(crate::text::trim_start(x));
    lemma_trim_noop(t);
}

/// What follows the frontmatter reads back as the body.
proof fn lemma_body_back(body: Seq<char>)
    requires
        trim(body) == body,
    ensures
        trim("\n"@ + if body.len() > 0 {
            "\n"@ + body + "\n"@
        } else {
            seq![]
        }) == body,
{
    reveal_strlit("\n");
    let nl = "\n"@;
    assert(crate::text::is_ws(nl[0]));
    if body.len() > 0 {
        lemma_trimmed_ends(body);
        let w = nl + nl;
        assert(forall|j: int| 0 <= j < w.len() ==> crate::text::is_ws(#[trigger] w[j])) by {
            assert(w[0] == '\n' && w[1] == '\n');
        }
        assert(nl + (nl + body + nl) =~= w + (body + nl));
        lemma_trim_start_ws_prefix(w, body + nl);
        assert(crate::text::trim_start(body + nl) == body + nl) by {
            assert((body + nl)[0] == body[0]);
        }
        lemma_trim_end_ws_suffix(body, nl);
        assert(crate::text::trim_start(body) == body) by {
            lemma_trim_start_first(body);
        }
        lemma_trim_noop(body);
    } else {
        assert(nl + Seq::<char>::empty() =~= nl + Seq::<char>::empty());
        lemma_trim_start_ws_prefix(nl, Seq::<char>::empty());
        assert(nl + Seq::<char>::empty() =~= nl);
    }
}

/// A bot written to `_bot.md` and read back is the bot it was, for every
/// bot whose parts the file can carry; only a time kept without a routine,
/// and days kept without a weekly one, come back as a fresh bot has them,
/// and the body comes back trimmed.
pub proof fn law_bot_file_round_trips(b: BotFileV)
    requires
        writable(b),
    ensures
        parse_v(render_v(b)) == carried(b),
{
    reveal_strlit("---");
    reveal_strlit("---\n");
    reveal_strlit("\n");
    let f = front_lines(b);
    let tail = if trim(b.body).len() > 0 {
        "\n"@ + trim(b.body) + "\n"@
    } else {
        seq![]
    };
    let raw = render_v(b);
    lemma_front(b);
    assert(raw =~= "---"@ + ("\n"@ + unlines(f) + "---\n"@ + tail));
    assert(crate::text::starts_with(raw, "---"@)) by {
        assert(raw.take(3) =~= "---"@);
    }
    let after = raw.skip(3);
    assert(after =~= "\n"@ + unlines(f) + "---\n"@ + tail);
    lemma_close_found(f, tail);
    let end = unlines(f).len() as int;
    // The frontmatter's lines: an empty one, then those written.
    let inner = unlines(f.drop_last()) + f.last();
    assert(after.take(end) =~= Seq::<char>::empty() + "\n"@ + inner);
    lemma_lines_cons(Seq::<char>::empty(), inner);
    assert(forall|k: int| 0 <= k < f.drop_last().len() ==> plain_line(#[trigger] f.drop_last()[k])) by {
        assert forall|k: int| 0 <= k < f.drop_last().len() implies plain_line(#[trigger] f.drop_last()[k]) by {
            assert(f.drop_last()[k] == f[k]);
        }
    }
    lemma_lines_of_unlines(f.drop_last(), f.last());
    assert(plain_line(f[f.len() - 1]));
    lemma_lines_single(f.last());
    assert(f.drop_last() + seq![f.last()] =~= f);
    let ls = lines_from(after.take(end), 0);
    assert(ls == seq![drop_cr(Seq::<char>::empty())] + f);
    assert(drop_cr(Seq::<char>::empty()) =~= Seq::<char>::empty());
    assert(first_colon(Seq::<char>::empty()) is None);
    lemma_apply_lines_append(fresh_file(), seq![Seq::<char>::empty()], f);
    lemma_apply_one(fresh_file(), Seq::<char>::empty());
    // The body.
    lemma_trim_idempotent(b.body);
    lemma_body_back(trim(b.body));
    assert(parse_v(raw) =~~= carried(b));
}

} // verus!
