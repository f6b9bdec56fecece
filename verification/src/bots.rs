//! A bot is a file in a folder: `_bot.md`, beside the folder's own
//! `_devdeck.md`, says what the space is trying to do and when the bot wakes.
//!
//! What the bot is lives in that file; what it knows about you lives in the
//! personal store (see `botmind`). Waking reads the space, and runs an agent
//! only if one is named, and only an agent on the bot's team.
use vstd::prelude::*;
use crate::text::{
    all_digits, chars_of, copy_str, decimal, digit, digits_value, is_blank, is_digit, is_ws,
    parse_i64, parse_i64_spec, push_str, signed_decimal, str_eq, str_views, trim, trim_start, trim_end,
    trim_str, has_sign, unsigned_part, signed_value, i64_to_string, join, join_strings, usize_to_string,
};
use crate::deck::{WorkItem, WorkItemV, work_view};

verus! {

/// The file a bot lives in.
pub const FILE: &'static str = "_bot.md";

/// One thing a manager owns: a feature, and the space it lives in.
#[derive(Debug, Default)]
pub struct Owned {
    pub node_id: i64,
    pub node_name: String,
    pub feature: String,
}

#[derive(Debug, Default)]
pub struct Bot {
    /// What people type after the `@`, and the identity.
    pub handle: String,
    /// Where its memory is filed; 0 for a manager with no home yet.
    pub node_id: i64,
    pub node_name: String,
    pub dir: String,
    pub name: String,
    /// The sentence the whole bot is about.
    pub goal: String,
    /// daily | weekdays | weekly | hourly, or empty for no heartbeat.
    pub every: String,
    /// Minutes past midnight, local.
    pub at_min: i64,
    /// For 'weekly': comma-separated 0-6, Sunday first.
    pub days: String,
    /// Everything after the frontmatter.
    pub body: String,
    pub skills: Vec<String>,
    /// Which starter it came from, or empty when it was made by hand.
    pub template: String,
    /// The first feature it owns.
    pub feature: String,
    /// Everything it owns, across every space.
    pub portfolio: Vec<Owned>,
    /// The agent its heartbeat wakes, or empty for a heartbeat that only
    /// reads and reports.
    pub agent: String,
    /// Every agent this bot may put work on, its lead included.
    pub team: Vec<String>,
    /// What to ask it when it wakes. Empty means the goal.
    pub wake_intent: String,
    /// Where it must stop and ask, whatever its permissions say.
    pub stop_at: Vec<String>,
    pub schedule_id: Option<i64>,
    pub last_woke: Option<i64>,
}

// ---------------------------------------------------------------------------
// Times of day
// ---------------------------------------------------------------------------

/// Where the first `:` is.
pub open spec fn first_colon(v: Seq<char>) -> Option<int> {
    if exists|i: int| 0 <= i < v.len() && v[i] == ':' {
        Some(choose|i: int| 0 <= i < v.len() && v[i] == ':' && forall|j: int| 0 <= j < i ==> v[j] != ':')
    } else {
        None
    }
}

pub open spec fn clamp(x: int, lo: int, hi: int) -> int {
    if x < lo {
        lo
    } else if x > hi {
        hi
    } else {
        x
    }
}

/// "HH:MM" as minutes past midnight. An hour that will not parse is 7, a
/// minute that will not parse is 0, and each is clamped to the clock.
pub open spec fn parse_at_spec(v: Seq<char>) -> int {
    let h = match first_colon(v) {
        Some(p) => v.take(p),
        None => v,
    };
    let m = match first_colon(v) {
        Some(p) => v.skip(p + 1),
        None => "0"@,
    };
    let hv = match parse_i64_spec(trim(h)) {
        Some(x) => x,
        None => 7,
    };
    let mv = match parse_i64_spec(trim(m)) {
        Some(x) => x,
        None => 0,
    };
    clamp(clamp(hv, 0, 23) * 60 + clamp(mv, 0, 59), 0, 1439)
}

pub(crate) fn find_colon(v: &Vec<char>) -> (r: Option<usize>)
    ensures
        match r {
            Some(p) => p < v.len() && first_colon(v@) == Some(p as int),
            None => first_colon(v@) is None,
        },
{
    let mut i: usize = 0;
    while i < v.len()
        invariant
            i <= v.len(),
            forall|j: int| 0 <= j < i ==> v@[j] != ':',
        decreases v.len() - i,
    {
        if v[i] == ':' {
            let ghost c = choose|k: int| 0 <= k < v@.len() && v@[k] == ':' && forall|j: int|
                0 <= j < k ==> v@[j] != ':';
            assert(0 <= i < v@.len() && v@[i as int] == ':' && forall|j: int| 0 <= j < i ==> v@[j] != ':');
            assert(c == i) by {
                if c < i {
                } else if c > i {
                    assert(v@[i as int] != ':');
                }
            }
            return Some(i);
        }
        i = i + 1;
    }
    None
}

fn clamp_i64(x: i64, lo: i64, hi: i64) -> (r: i64)
    requires
        lo <= hi,
    ensures
        r == clamp(x as int, lo as int, hi as int),
{
    if x < lo {
        lo
    } else if x > hi {
        hi
    } else {
        x
    }
}

/// Minutes past midnight from "HH:MM".
pub fn parse_at(v: &str) -> (r: i64)
    ensures
        r == parse_at_spec(v@),
{
    let chars = chars_of(v);
    let (h, m) = match find_colon(&chars) {
        Some(p) => (
            crate::text::from_sub(&chars, 0, p),
            crate::text::from_sub(&chars, p + 1, chars.len()),
        ),
        None => (copy_str(v), copy_str("0")),
    };
    proof {
        if let Some(p) = first_colon(v@) {
            assert(0 <= p < v@.len());
            assert(v@.take(p) =~= v@.subrange(0, p));
            assert(v@.skip(p + 1) =~= v@.subrange(p + 1, v@.len() as int));
        }
    }
    let h = trim_str(h.as_str());
    let m = trim_str(m.as_str());
    let hv = match parse_i64(h.as_str()) {
        Some(x) => x,
        None => 7,
    };
    let mv = match parse_i64(m.as_str()) {
        Some(x) => x,
        None => 0,
    };
    let total = clamp_i64(hv, 0, 23) * 60 + clamp_i64(mv, 0, 59);
    clamp_i64(total, 0, 1439)
}

/// `{:02}`: at least two characters, zero-padded.
pub open spec fn pad2(n: int) -> Seq<char> {
    if 0 <= n < 10 {
        seq!['0'] + decimal(n as nat)
    } else {
        signed_decimal(n)
    }
}

pub open spec fn div_toward_zero(a: int, d: int) -> int {
    if a >= 0 {
        a / d
    } else {
        -((-a) / d)
    }
}

/// "HH:MM" from minutes past midnight, with `i64` division and remainder.
pub open spec fn fmt_at_spec(at_min: int) -> Seq<char> {
    let q = div_toward_zero(at_min, 60);
    pad2(q) + ":"@ + pad2(at_min - q * 60)
}

fn pad2_exec(n: i64) -> (r: String)
    ensures
        r@ == pad2(n as int),
{
    if 0 <= n && n < 10 {
        let mut r = copy_str("0");
        let d = i64_to_string(n);
        push_str(&mut r, d.as_str());
        proof {
            reveal_strlit("0");
            assert(r@ =~= seq!['0'] + decimal(n as nat));
        }
        r
    } else {
        i64_to_string(n)
    }
}

/// "HH:MM" from minutes past midnight.
pub fn fmt_at(at_min: i64) -> (r: String)
    ensures
        r@ == fmt_at_spec(at_min as int),
{
    let mag: u64 = if at_min >= 0 {
        at_min as u64
    } else {
        (-(at_min as i128)) as u64
    };
    let q_mag = mag / 60;
    let q: i64 = if at_min >= 0 {
        q_mag as i64
    } else {
        -(q_mag as i64)
    };
    let rem: i64 = at_min - q * 60;
    let mut r = pad2_exec(q);
    push_str(&mut r, ":");
    let tail = pad2_exec(rem);
    push_str(&mut r, tail.as_str());
    r
}


proof fn lemma_decimal_digits(n: nat)
    ensures
        all_digits(decimal(n)),
        digits_value(decimal(n)) == n,
        decimal(n).len() >= 1,
    decreases n,
{
    if n < 10 {
        assert(decimal(n) == seq![digit(n)]);
        assert(digit(n) as u32 == 48 + n);
        assert(decimal(n).drop_last() =~= Seq::<char>::empty());
        assert(digits_value(decimal(n).drop_last()) == 0);
        assert(('0' as int) == 48);
        assert(decimal(n).last() == digit(n));
    } else {
        lemma_decimal_digits(n / 10);
        let d = decimal(n);
        assert(d == decimal(n / 10).push(digit(n % 10)));
        assert(digit(n % 10) as u32 == 48 + n % 10);
        assert(d.drop_last() =~= decimal(n / 10));
        assert(('0' as int) == 48);
        assert(d.last() == digit(n % 10));
        assert(digits_value(d) == (n / 10) * 10 + n % 10);
        assert forall|i: int| 0 <= i < d.len() implies #[trigger] is_digit(d[i]) by {
            if i < d.len() - 1 {
                assert(d[i] == decimal(n / 10)[i]);
            }
        }
    }
}

pub(crate) proof fn lemma_two_digits(k: int)
    requires
        0 <= k < 60,
    ensures
        all_digits(pad2(k)),
        digits_value(pad2(k)) == k,
        pad2(k).len() >= 1,
        parse_i64_spec(pad2(k)) == Some(k),
        trim(pad2(k)) == pad2(k),
        forall|i: int| 0 <= i < pad2(k).len() ==> pad2(k)[i] != ':',
{
    let p = pad2(k);
    lemma_decimal_digits(k as nat);
    if k < 10 {
        assert(p.drop_last() =~= seq!['0']);
        assert(p.last() == decimal(k as nat)[0]);
        assert(decimal(k as nat) == seq![digit(k as nat)]);
        assert(seq!['0'].drop_last() =~= Seq::<char>::empty());
        assert(seq!['0'].drop_last() =~= Seq::<char>::empty());
        assert(digits_value(seq!['0'].drop_last()) == 0);
        assert(('0' as int) == 48);
        assert(digits_value(seq!['0']) == 0);
        assert forall|i: int| 0 <= i < p.len() implies #[trigger] is_digit(p[i]) by {
            if i == 1 {
                assert(p[1] == decimal(k as nat)[0]);
            }
        }
    } else {
        assert(p == decimal(k as nat));
    }
    assert(is_digit(p[0]));
    assert(!has_sign(p));
    assert(unsigned_part(p) == p);
    assert(is_digit(p.last()));
    assert(!is_ws(p[0]));
    assert(!is_ws(p.last()));
    assert(trim_start(p) == p);
    assert(trim_end(p) == p);
    assert forall|i: int| 0 <= i < p.len() implies p[i] != ':' by {
        assert(is_digit(p[i]));
    }
}

/// A time of day survives being written and read back: every minute of the
/// day reads back as itself.
pub proof fn law_times_survive_both_ways(m: int)
    requires
        0 <= m < 1440,
    ensures
        parse_at_spec(fmt_at_spec(m)) == m,
{
    let q = div_toward_zero(m, 60);
    let r = m - q * 60;
    assert(q == m / 60);
    assert(0 <= q < 24);
    assert(0 <= r < 60);
    lemma_two_digits(q);
    lemma_two_digits(r);
    let s = fmt_at_spec(m);
    let a = pad2(q);
    let b = pad2(r);
    assert(s == a + ":"@ + b);
    reveal_strlit(":");
    assert(s =~= a + seq![':'] + b);
    let p = a.len() as int;
    assert(s[p] == ':');
    assert(forall|j: int| 0 <= j < p ==> s[j] == a[j]);
    assert(first_colon(s) == Some(p)) by {
        let c = choose|i: int| 0 <= i < s.len() && s[i] == ':' && forall|j: int| 0 <= j < i ==> s[j] != ':';
        assert(0 <= p < s.len() && s[p] == ':' && forall|j: int| 0 <= j < p ==> s[j] != ':');
        if c < p {
            assert(s[c] == a[c]);
        } else if c > p {
            assert(s[p] != ':');
        }
    }
    assert(s.take(p) =~= a);
    assert(s.skip(p + 1) =~= b);
}


// ---------------------------------------------------------------------------
// The team
// ---------------------------------------------------------------------------

/// The names, trimmed, with the blank ones dropped.
pub open spec fn tidy_names(s: Seq<Seq<char>>) -> Seq<Seq<char>>
    decreases s.len(),
{
    if s.len() == 0 {
        seq![]
    } else if trim(s.last()).len() == 0 {
        tidy_names(s.drop_last())
    } else {
        tidy_names(s.drop_last()).push(trim(s.last()))
    }
}

pub(crate) fn tidy(team: &Vec<String>) -> (r: Vec<String>)
    ensures
        str_views(r@) == tidy_names(str_views(team@)),
{
    let ghost s = str_views(team@);
    let mut r: Vec<String> = Vec::new();
    let mut i: usize = 0;
    while i < team.len()
        invariant
            i <= team.len(),
            s == str_views(team@),
            str_views(r@) == tidy_names(s.take(i as int)),
        decreases team.len() - i,
    {
        assert(s.take(i + 1).drop_last() =~= s.take(i as int));
        assert(s.take(i + 1).last() == team@[i as int]@);
        let t = trim_str(team[i].as_str());
        if !is_blank(team[i].as_str()) {
            let ghost before = r@;
            r.push(t);
            assert(str_views(r@) =~= str_views(before).push(t@));
        }
        i = i + 1;
    }
    assert(s.take(team.len() as int) =~= s);
    r
}

/// Tidy a team and refuse a lead who is not on it: the team is who the bot
/// may put work on, so its lead has to be on it.
pub fn vet_team(name: &str, agent: &str, team: Vec<String>) -> (r: Result<Vec<String>, String>)
    ensures
        ({
            let t = tidy_names(str_views(team@));
            if trim(agent@).len() > 0 && !t.contains(trim(agent@)) {
                r matches Err(e) && e@ == trim(agent@) + " is not on "@ + name@
                    + "'s team, so it cannot be the one it wakes. Add it to the team first."@
            } else {
                r matches Ok(v) && str_views(v@) == t
            }
        }),
{
    let t = tidy(&team);
    let lead = trim_str(agent);
    if !is_blank(agent) && !crate::text::is_taken(&t, lead.as_str()) {
        let mut e = lead;
        push_str(&mut e, " is not on ");
        push_str(&mut e, name);
        push_str(&mut e, "'s team, so it cannot be the one it wakes. Add it to the team first.");
        return Err(e);
    }
    Ok(t)
}

/// What `str::to_lowercase` gives for a text: its Unicode lowercase form,
/// which for a final capital sigma depends on the characters around it.
pub uninterp spec fn lowercase(s: Seq<char>) -> Seq<char>;

/// `str::to_lowercase`. Claimed: the result is the named mapping of the text.
#[verifier::external_body]
pub(crate) fn to_lowercase(s: &str) -> (r: String)
    ensures
        r@ == lowercase(s@),
{
    s.to_lowercase()
}

/// Spaces as hyphens.
pub open spec fn hyphenate(s: Seq<char>) -> Seq<char> {
    s.map_values(|c: char| if c == ' ' {
        '-'
    } else {
        c
    })
}

/// A name as people type it after the `@`: trimmed, lowercase, hyphenated.
pub open spec fn slug(s: Seq<char>) -> Seq<char> {
    hyphenate(lowercase(trim(s)))
}

/// Where the first whitespace at or after `i` is, or the end.
pub open spec fn word_end(s: Seq<char>, i: int) -> int
    decreases s.len() - i,
{
    if i >= s.len() || is_ws(s[i]) {
        i
    } else {
        word_end(s, i + 1)
    }
}

/// The first whitespace-separated word, or nothing.
pub open spec fn first_word(s: Seq<char>) -> Seq<char> {
    let t = trim_start(s);
    t.take(word_end(t, 0))
}

/// The first word of a name, as people type it.
pub open spec fn first_of(s: Seq<char>) -> Seq<char> {
    first_word(lowercase(trim(s)))
}

fn slug_exec(s: &str) -> (r: String)
    ensures
        r@ == slug(s@),
{
    let t = trim_str(s);
    let l = to_lowercase(t.as_str());
    let v = chars_of(l.as_str());
    let mut out: Vec<char> = Vec::new();
    let mut i: usize = 0;
    while i < v.len()
        invariant
            i <= v.len(),
            v@ == lowercase(trim(s@)),
            out@ == hyphenate(v@.take(i as int)),
        decreases v.len() - i,
    {
        let c = if v[i] == ' ' {
            '-'
        } else {
            v[i]
        };
        out.push(c);
        i = i + 1;
        assert(out@ =~= hyphenate(v@.take(i as int)));
    }
    assert(v@.take(v.len() as int) =~= v@);
    crate::text::from_chars(&out)
}

proof fn lemma_word_end_bounds(s: Seq<char>, i: int)
    requires
        0 <= i <= s.len(),
    ensures
        i <= word_end(s, i) <= s.len(),
    decreases s.len() - i,
{
    if i < s.len() && !is_ws(s[i]) {
        lemma_word_end_bounds(s, i + 1);
    }
}

fn first_of_exec(s: &str) -> (r: String)
    ensures
        r@ == first_of(s@),
{
    let t = trim_str(s);
    let l = to_lowercase(t.as_str());
    let v = chars_of(l.as_str());
    let mut a: usize = 0;
    while a < v.len() && crate::text::is_ws_char(v[a])
        invariant
            a <= v.len(),
            forall|j: int| 0 <= j < a ==> is_ws(#[trigger] v@[j]),
        decreases v.len() - a,
    {
        a = a + 1;
    }
    let ghost u = v@.subrange(a as int, v.len() as int);
    proof {
        crate::text::lemma_trim_start_skip(v@, a as int);
        if u.len() > 0 {
            assert(u[0] == v@[a as int]);
        }
        assert(trim_start(u) == u);
    }
    let mut e = a;
    while e < v.len() && !crate::text::is_ws_char(v[e])
        invariant
            a <= e <= v.len(),
            u == v@.subrange(a as int, v.len() as int),
            word_end(u, 0) == word_end(u, e - a),
        decreases v.len() - e,
    {
        assert(u[e - a] == v@[e as int]);
        e = e + 1;
    }
    proof {
        if e < v.len() {
            assert(u[e - a] == v@[e as int]);
        }
        assert(word_end(u, e - a) == e - a);
        assert(u.take(e - a) =~= v@.subrange(a as int, e as int));
    }
    crate::text::from_sub(&v, a, e)
}

/// Whether a mention reaches this bot: the node's name, the bot's name with
/// spaces hyphenated, the node's name with "-bot", or the first word of
/// either name — and never a bare prefix of something longer.
pub open spec fn answers_to_spec(node_name: Seq<char>, name: Seq<char>, mention: Seq<char>) -> bool {
    let m = lowercase(trim(mention));
    m.len() > 0 && (slug(node_name) == m || slug(name) == m || slug(node_name) + "-bot"@ == m
        || first_of(node_name) == m || first_of(name) == m)
}

pub fn answers_to(b: &Bot, mention: &str) -> (r: bool)
    ensures
        r == answers_to_spec(b.node_name@, b.name@, mention@),
{
    let t = trim_str(mention);
    let m = to_lowercase(t.as_str());
    if chars_of(m.as_str()).len() == 0 {
        return false;
    }
    let node = slug_exec(b.node_name.as_str());
    let mut node_bot = slug_exec(b.node_name.as_str());
    push_str(&mut node_bot, "-bot");
    str_eq(node.as_str(), m.as_str()) || str_eq(slug_exec(b.name.as_str()).as_str(), m.as_str())
        || str_eq(node_bot.as_str(), m.as_str()) || str_eq(
        first_of_exec(b.node_name.as_str()).as_str(),
        m.as_str(),
    ) || str_eq(first_of_exec(b.name.as_str()).as_str(), m.as_str())
}

/// What people type after the `@` to reach this bot: the node's name when it
/// has one, else the bot's.
pub fn handle_of(b: &Bot) -> (r: String)
    ensures
        r@ == handle_v(b.node_name@, b.name@),
{
    if !is_blank(b.node_name.as_str()) {
        slug_exec(b.node_name.as_str())
    } else {
        slug_exec(b.name.as_str())
    }
}

/// Who an `@mention` reaches. Trimmed and lowercased, a mention reaches a
/// bot when it is the node's name or the bot's name as people type it
/// (lowercase, spaces as hyphens), the node's name with `-bot` after it, or
/// the first word of either name; nothing else reaches it, and an empty
/// mention reaches no bot.
pub proof fn law_a_mention_reaches_the_bot_it_names(node_name: Seq<char>, name: Seq<char>, mention: Seq<char>)
    ensures
        ({
            let m = lowercase(trim(mention));
            &&& m.len() == 0 ==> !answers_to_spec(node_name, name, mention)
            &&& m.len() > 0 && m == hyphenate(lowercase(trim(node_name))) ==> answers_to_spec(node_name, name, mention)
            &&& m.len() > 0 && m == hyphenate(lowercase(trim(name))) ==> answers_to_spec(node_name, name, mention)
            &&& m.len() > 0 && m == hyphenate(lowercase(trim(node_name))) + "-bot"@ ==> answers_to_spec(
                node_name,
                name,
                mention,
            )
            &&& m.len() > 0 && m == first_word(lowercase(trim(node_name))) ==> answers_to_spec(node_name, name, mention)
            &&& m.len() > 0 && m == first_word(lowercase(trim(name))) ==> answers_to_spec(node_name, name, mention)
            &&& answers_to_spec(node_name, name, mention) ==> m.len() > 0 && (m == hyphenate(lowercase(trim(node_name)))
                || m == hyphenate(lowercase(trim(name))) || m == hyphenate(lowercase(trim(node_name))) + "-bot"@
                || m == first_word(lowercase(trim(node_name))) || m == first_word(lowercase(trim(name))))
        }),
{
}

/// A name as people type it keeps every character but a space, which
/// becomes a hyphen; the first word of a text is where its leading
/// whitespace ends, up to the next whitespace or the end.
pub proof fn law_spaces_become_hyphens_and_a_word_ends_at_whitespace(s: Seq<char>)
    ensures
        hyphenate(s).len() == s.len(),
        forall|i: int| 0 <= i < s.len() ==> #[trigger] hyphenate(s)[i] == if s[i] == ' ' {
            '-'
        } else {
            s[i]
        },
        ({
            let t = crate::text::trim_start(s);
            let w = first_word(s);
            &&& w.len() <= t.len()
            &&& w == t.take(w.len() as int)
            &&& forall|i: int| 0 <= i < w.len() ==> !crate::text::is_ws(#[trigger] w[i])
            &&& w.len() < t.len() ==> crate::text::is_ws(t[w.len() as int])
        }),
{
    let t = crate::text::trim_start(s);
    lemma_word_end_bounds(t, 0);
    lemma_word_end_parts(t, 0);
}

proof fn lemma_word_end_parts(s: Seq<char>, i: int)
    requires
        0 <= i <= s.len(),
    ensures
        forall|k: int| i <= k < word_end(s, i) ==> !crate::text::is_ws(#[trigger] s[k]),
        word_end(s, i) < s.len() ==> crate::text::is_ws(s[word_end(s, i)]),
    decreases s.len() - i,
{
    if i < s.len() && !crate::text::is_ws(s[i]) {
        lemma_word_end_parts(s, i + 1);
    }
}

/// The handle `handle_of` gives.
pub open spec fn handle_v(node_name: Seq<char>, name: Seq<char>) -> Seq<char> {
    if trim(node_name).len() > 0 {
        slug(node_name)
    } else {
        slug(name)
    }
}

/// A bot answers to its own handle, whenever the handle is not empty and
/// trimming and lowercasing leave it as it is (so for every handle of
/// ASCII letters, digits and hyphens).
pub proof fn law_a_bot_answers_to_its_own_handle(node_name: Seq<char>, name: Seq<char>)
    requires
        handle_v(node_name, name).len() > 0,
        trim(handle_v(node_name, name)) == handle_v(node_name, name),
        lowercase(handle_v(node_name, name)) == handle_v(node_name, name),
    ensures
        answers_to_spec(node_name, name, handle_v(node_name, name)),
{
}

pub open spec fn work_ids(items: Seq<WorkItemV>) -> Seq<Seq<char>> {
    items.map_values(|w: WorkItemV| w.id)
}

/// The id for a new step: `w<n>`, from one past the count up, the first
/// that is free.
pub fn next_work_id(items: &[WorkItem]) -> (r: String)
    requires
        items.len() < usize::MAX / 2,
    ensures
        r@ == crate::text::numbered(
            "w"@,
            crate::text::next_free(work_ids(work_view(items@)), "w"@),
        ),
{
    let ghost w = work_ids(work_view(items@));
    let mut ids: Vec<String> = Vec::new();
    let mut i: usize = 0;
    while i < items.len()
        invariant
            i <= items.len(),
            w == work_ids(work_view(items@)),
            str_views(ids@) == w.take(i as int),
        decreases items.len() - i,
    {
        let id = copy_str(items[i].id.as_str());
        let ghost before = ids@;
        ids.push(id);
        i = i + 1;
        assert(str_views(ids@) =~= str_views(before).push(id@));
        assert(w.take(i as int) =~= w.take(i - 1).push(items@[i - 1]@.id));
    }
    assert(w.take(i as int) =~= w);
    let n = crate::text::first_free_number("w", &ids);
    let mut r = copy_str("w");
    let d = usize_to_string(n);
    push_str(&mut r, d.as_str());
    r
}

/// Someone in the thread joins the team when they are an agent the
/// workspace knows, not another bot, and not already on it.
pub open spec fn joined(team: Seq<Seq<char>>, participants: Seq<Seq<char>>, agents: Seq<Seq<char>>) -> Seq<
    Seq<char>,
>
    decreases participants.len(),
{
    if participants.len() == 0 {
        team
    } else {
        let t = joined(team, participants.drop_last(), agents);
        let p = participants.last();
        if crate::text::starts_with(p, "bot:"@) || t.contains(p) || !agents.contains(p) {
            t
        } else {
            t.push(p)
        }
    }
}

/// The team a bot actually has: the file's list, plus every agent someone
/// pulled into its thread.
pub fn effective_team(bot: &Bot, participants: &Vec<String>, agents: &Vec<String>) -> (r: Vec<String>)
    ensures
        str_views(r@) == joined(str_views(bot.team@), str_views(participants@), str_views(agents@)),
{
    let ghost ps = str_views(participants@);
    let mut team: Vec<String> = Vec::new();
    let mut k: usize = 0;
    while k < bot.team.len()
        invariant
            k <= bot.team.len(),
            str_views(team@) == str_views(bot.team@).take(k as int),
        decreases bot.team.len() - k,
    {
        let t = copy_str(bot.team[k].as_str());
        let ghost before = team@;
        team.push(t);
        k = k + 1;
        assert(str_views(team@) =~= str_views(before).push(t@));
        assert(str_views(bot.team@).take(k as int) =~= str_views(bot.team@).take(k - 1).push(
            bot.team@[k - 1]@,
        ));
    }
    assert(str_views(bot.team@).take(k as int) =~= str_views(bot.team@));
    assert(ps.take(0) =~= Seq::<Seq<char>>::empty());
    let mut i: usize = 0;
    while i < participants.len()
        invariant
            i <= participants.len(),
            ps == str_views(participants@),
            str_views(team@) == joined(str_views(bot.team@), ps.take(i as int), str_views(agents@)),
        decreases participants.len() - i,
    {
        assert(ps.take(i + 1).drop_last() =~= ps.take(i as int));
        assert(ps.take(i + 1).last() == participants@[i as int]@);
        let p = participants[i].as_str();
        if !crate::text::starts_with_str(p, "bot:") && !crate::text::is_taken(&team, p)
            && crate::text::is_taken(agents, p) {
            let c = copy_str(p);
            let ghost before = team@;
            team.push(c);
            assert(str_views(team@) =~= str_views(before).push(c@));
        }
        i = i + 1;
    }
    assert(ps.take(participants.len() as int) =~= ps);
    team
}

// ---------------------------------------------------------------------------
// Counting the work
// ---------------------------------------------------------------------------

pub open spec fn is_unclaimed(status: Seq<char>) -> bool {
    status == "unclaimed"@ || status.len() == 0
}

/// How many items have a status the predicate accepts.
pub open spec fn count_where(items: Seq<WorkItemV>, p: spec_fn(Seq<char>) -> bool) -> nat
    decreases items.len(),
{
    if items.len() == 0 {
        0
    } else {
        count_where(items.drop_last(), p) + (if p(items.last().status) {
            1nat
        } else {
            0nat
        })
    }
}

pub open spec fn unclaimed_pred() -> spec_fn(Seq<char>) -> bool {
    |s: Seq<char>| is_unclaimed(s)
}

pub open spec fn status_pred(want: Seq<char>) -> spec_fn(Seq<char>) -> bool {
    |s: Seq<char>| s == want
}

proof fn lemma_count_le(items: Seq<WorkItemV>, p: spec_fn(Seq<char>) -> bool)
    ensures
        count_where(items, p) <= items.len(),
    decreases items.len(),
{
    if items.len() > 0 {
        lemma_count_le(items.drop_last(), p);
    }
}

/// How many items are done, blocked and waiting to be picked up.
pub fn count_work(items: &[WorkItem]) -> (r: (usize, usize, usize))
    ensures
        r.0 == count_where(work_view(items@), status_pred("done"@)),
        r.1 == count_where(work_view(items@), status_pred("blocked"@)),
        r.2 == count_where(work_view(items@), unclaimed_pred()),
{
    let ghost w = work_view(items@);
    let mut done: usize = 0;
    let mut blocked: usize = 0;
    let mut unclaimed: usize = 0;
    let mut i: usize = 0;
    while i < items.len()
        invariant
            i <= items.len(),
            w == work_view(items@),
            done == count_where(w.take(i as int), status_pred("done"@)),
            blocked == count_where(w.take(i as int), status_pred("blocked"@)),
            unclaimed == count_where(w.take(i as int), unclaimed_pred()),
        decreases items.len() - i,
    {
        assert(w.take(i + 1).drop_last() =~= w.take(i as int));
        assert(w.take(i + 1).last() == items@[i as int]@);
        proof {
            lemma_count_le(w.take(i as int), status_pred("done"@));
            lemma_count_le(w.take(i as int), status_pred("blocked"@));
            lemma_count_le(w.take(i as int), unclaimed_pred());
        }
        let s = items[i].status.as_str();
        if str_eq(s, "done") {
            done = done + 1;
        } else if str_eq(s, "blocked") {
            blocked = blocked + 1;
        } else if str_eq(s, "unclaimed") || chars_of(s).len() == 0 {
            unclaimed = unclaimed + 1;
        }
        proof {
            reveal_strlit("done");
            reveal_strlit("blocked");
            reveal_strlit("unclaimed");
            assert("done"@[0] != "blocked"@[0]);
            assert("done"@[0] != "unclaimed"@[0]);
            assert("blocked"@[0] != "unclaimed"@[0]);
        }
        i = i + 1;
    }
    assert(w.take(items.len() as int) =~= w);
    (done, blocked, unclaimed)
}

/// The line a heartbeat writes, or nothing when there is nothing to say.
pub open spec fn wake_report_spec(blocked: nat, unclaimed: nat) -> Option<Seq<char>> {
    if blocked == 0 && unclaimed == 0 {
        None
    } else if unclaimed == 0 {
        Some(decimal(blocked) + " blocked"@)
    } else if blocked == 0 {
        Some(decimal(unclaimed) + " waiting to be picked up"@)
    } else {
        Some(decimal(blocked) + " blocked, "@ + decimal(unclaimed) + " waiting to be picked up"@)
    }
}

/// What a heartbeat has to say about the space's work: how much is blocked
/// and how much is waiting, or nothing when neither. Silence is the common
/// case and the correct one.
pub fn wake_report(items: &[WorkItem]) -> (r: Option<String>)
    ensures
        match r {
            Some(s) => wake_report_spec(
                count_where(work_view(items@), status_pred("blocked"@)),
                count_where(work_view(items@), unclaimed_pred()),
            ) == Some(s@),
            None => wake_report_spec(
                count_where(work_view(items@), status_pred("blocked"@)),
                count_where(work_view(items@), unclaimed_pred()),
            ) is None,
        },
{
    let (_done, blocked, unclaimed) = count_work(items);
    if blocked == 0 && unclaimed == 0 {
        return None;
    }
    let mut out = String::new();
    if blocked > 0 {
        let b = usize_to_string(blocked);
        push_str(&mut out, b.as_str());
        push_str(&mut out, " blocked");
    }
    if blocked > 0 && unclaimed > 0 {
        push_str(&mut out, ", ");
    }
    if unclaimed > 0 {
        let u = usize_to_string(unclaimed);
        push_str(&mut out, u.as_str());
        push_str(&mut out, " waiting to be picked up");
    }
    proof {
        reveal_strlit(" blocked");
        reveal_strlit(", ");
        reveal_strlit(" blocked, ");
        if blocked > 0 && unclaimed > 0 {
            assert(out@ =~= decimal(blocked as nat) + " blocked, "@ + decimal(unclaimed as nat)
                + " waiting to be picked up"@);
        } else if blocked > 0 {
            assert(out@ =~= decimal(blocked as nat) + " blocked"@);
        } else {
            assert(out@ =~= decimal(unclaimed as nat) + " waiting to be picked up"@);
        }
    }
    Some(out)
}

/// How one manager stands: counts only, no prose.
#[derive(Debug, Default)]
pub struct BotStanding {
    pub handle: String,
    pub node_id: i64,
    pub done: usize,
    pub total: usize,
    pub blocked: usize,
    pub unclaimed: usize,
    pub feature: String,
    pub spaces: usize,
    pub features: usize,
}

/// Add one feature's items to a standing.
pub fn tally(out: &mut BotStanding, items: &[WorkItem])
    requires
        old(out).total + items.len() <= usize::MAX,
        old(out).done + items.len() <= usize::MAX,
        old(out).blocked + items.len() <= usize::MAX,
        old(out).unclaimed + items.len() <= usize::MAX,
    ensures
        final(out).total == old(out).total + items.len(),
        final(out).done == old(out).done + count_where(work_view(items@), status_pred("done"@)),
        final(out).blocked == old(out).blocked + count_where(work_view(items@), status_pred("blocked"@)),
        final(out).unclaimed == old(out).unclaimed + count_where(work_view(items@), unclaimed_pred()),
        final(out).handle == old(out).handle,
        final(out).node_id == old(out).node_id,
        final(out).feature == old(out).feature,
        final(out).spaces == old(out).spaces,
        final(out).features == old(out).features,
{
    let (done, blocked, unclaimed) = count_work(items);
    proof {
        lemma_count_le(work_view(items@), status_pred("done"@));
        lemma_count_le(work_view(items@), status_pred("blocked"@));
        lemma_count_le(work_view(items@), unclaimed_pred());
    }
    out.total = out.total + items.len();
    out.done = out.done + done;
    out.blocked = out.blocked + blocked;
    out.unclaimed = out.unclaimed + unclaimed;
}


// ---------------------------------------------------------------------------
// Waking
// ---------------------------------------------------------------------------

/// What a heartbeat does with the agent a bot names.
#[derive(Debug)]
pub enum WakeStep {
    /// It names no agent: nothing to run, nothing to say.
    Quiet,
    /// Its agent is not on its team; the line says so.
    NotOnTeam(String),
    /// It has no plan for an agent to work in; the line says so.
    NoPlan(String),
    /// Run the agent, asking it this.
    Run(String),
}

/// Which step a wake takes, given the team the bot actually has.
pub open spec fn wake_step_spec(
    name: Seq<char>,
    agent: Seq<char>,
    feature: Seq<char>,
    goal: Seq<char>,
    wake_intent: Seq<char>,
    team: Seq<Seq<char>>,
) -> (int, Seq<char>) {
    if trim(agent).len() == 0 {
        (0, seq![])
    } else if !team.contains(trim(agent)) {
        (1, if team.len() == 0 {
            name + " has no team, so there is nobody it may put work on. Add "@ + agent
                + " to its team on the bot's page."@
        } else {
            agent + " is not on "@ + name + "'s team ("@ + join(team, ", "@)
                + "), so it was not woken."@
        })
    } else if trim(feature).len() == 0 {
        (2, name + " names "@ + agent
            + " but has no plan yet — an agent needs steps to work on. Give it some                  on the bot's Plan tab."@)
    } else {
        (3, if trim(wake_intent).len() == 0 {
            goal
        } else {
            wake_intent
        })
    }
}

pub open spec fn step_of(w: WakeStep) -> (int, Seq<char>) {
    match w {
        WakeStep::Quiet => (0, seq![]),
        WakeStep::NotOnTeam(s) => (1, s@),
        WakeStep::NoPlan(s) => (2, s@),
        WakeStep::Run(s) => (3, s@),
    }
}

/// Decide a wake: an agent that is not on the team is not woken, and an
/// agent with no plan to work in is not handed an empty one.
pub fn wake_check(bot: &Bot, team: &Vec<String>) -> (r: WakeStep)
    ensures
        step_of(r) == wake_step_spec(
            bot.name@,
            bot.agent@,
            bot.feature@,
            bot.goal@,
            bot.wake_intent@,
            str_views(team@),
        ),
{
    if is_blank(bot.agent.as_str()) {
        return WakeStep::Quiet;
    }
    let lead = trim_str(bot.agent.as_str());
    if !crate::text::is_taken(team, lead.as_str()) {
        if team.len() == 0 {
            let mut s = copy_str(bot.name.as_str());
            push_str(&mut s, " has no team, so there is nobody it may put work on. Add ");
            push_str(&mut s, bot.agent.as_str());
            push_str(&mut s, " to its team on the bot's page.");
            return WakeStep::NotOnTeam(s);
        }
        let mut s = copy_str(bot.agent.as_str());
        push_str(&mut s, " is not on ");
        push_str(&mut s, bot.name.as_str());
        push_str(&mut s, "'s team (");
        let names = join_strings(team, ", ");
        push_str(&mut s, names.as_str());
        push_str(&mut s, "), so it was not woken.");
        return WakeStep::NotOnTeam(s);
    }
    if is_blank(bot.feature.as_str()) {
        let mut s = copy_str(bot.name.as_str());
        push_str(&mut s, " names ");
        push_str(&mut s, bot.agent.as_str());
        push_str(
            &mut s,
            " but has no plan yet — an agent needs steps to work on. Give it some                  on the bot's Plan tab.",
        );
        return WakeStep::NoPlan(s);
    }
    if is_blank(bot.wake_intent.as_str()) {
        WakeStep::Run(copy_str(bot.goal.as_str()))
    } else {
        WakeStep::Run(copy_str(bot.wake_intent.as_str()))
    }
}

pub open spec fn plural(n: nat) -> Seq<char> {
    if n == 1 {
        seq![]
    } else {
        "s"@
    }
}

/// The inbox line for a run that finished: what ran and how much, and —
/// when calls were refused — that it is not good news.
pub open spec fn wake_done_spec(
    name: Seq<char>,
    agent_name: Seq<char>,
    turns: nat,
    files: nat,
    refused: nat,
    summary: Seq<char>,
    status: Seq<char>,
) -> (bool, Seq<char>) {
    let did = name + " ran "@ + agent_name + " — "@ + decimal(turns) + " turn"@ + plural(turns) + ", "@
        + decimal(files) + " file"@ + plural(files) + " touched"@;
    if refused > 0 {
        (false, did + ". "@ + decimal(refused) + " call"@ + plural(refused) + " refused — nothing is granted for "@
            + agent_name
            + " to do unattended. Give it a standing grant for what it should be allowed to do."@)
    } else if trim(summary).len() == 0 {
        (true, did + ". "@ + status)
    } else {
        (true, did + ". "@ + summary)
    }
}

fn push_plural(s: &mut String, n: usize)
    ensures
        final(s)@ == old(s)@ + plural(n as nat),
{
    if n != 1 {
        push_str(s, "s");
    } else {
        assert(s@ =~= s@ + seq![]);
    }
}

pub fn wake_done(
    name: &str,
    agent_name: &str,
    turns: usize,
    files: usize,
    refused: usize,
    summary: &str,
    status: &str,
) -> (r: (bool, String))
    ensures
        (r.0, r.1@) == wake_done_spec(
            name@,
            agent_name@,
            turns as nat,
            files as nat,
            refused as nat,
            summary@,
            status@,
        ),
{
    let mut did = copy_str(name);
    push_str(&mut did, " ran ");
    push_str(&mut did, agent_name);
    push_str(&mut did, " — ");
    push_str(&mut did, usize_to_string(turns).as_str());
    push_str(&mut did, " turn");
    push_plural(&mut did, turns);
    push_str(&mut did, ", ");
    push_str(&mut did, usize_to_string(files).as_str());
    push_str(&mut did, " file");
    push_plural(&mut did, files);
    push_str(&mut did, " touched");
    push_str(&mut did, ". ");
    if refused > 0 {
        push_str(&mut did, usize_to_string(refused).as_str());
        push_str(&mut did, " call");
        push_plural(&mut did, refused);
        push_str(&mut did, " refused — nothing is granted for ");
        push_str(&mut did, agent_name);
        push_str(
            &mut did,
            " to do unattended. Give it a standing grant for what it should be allowed to do.",
        );
        (false, did)
    } else if is_blank(summary) {
        push_str(&mut did, status);
        (true, did)
    } else {
        push_str(&mut did, summary);
        (true, did)
    }
}

/// The inbox line for a run that could not start.
pub fn wake_failed(name: &str, agent_name: &str, e: &str) -> (r: (bool, String))
    ensures
        !r.0,
        r.1@ == name@ + " could not run "@ + agent_name@ + ": "@ + e@,
{
    let mut s = copy_str(name);
    push_str(&mut s, " could not run ");
    push_str(&mut s, agent_name);
    push_str(&mut s, ": ");
    push_str(&mut s, e);
    (false, s)
}


// ---------------------------------------------------------------------------
// The voice a bot speaks in
// ---------------------------------------------------------------------------

/// Another manager a bot may pass an item to.
#[derive(Debug)]
pub struct Colleague {
    pub handle: String,
    pub name: String,
    pub node_id: i64,
    pub project_id: String,
    pub plan: Option<String>,
}

/// Who a bot is when it speaks: its permissions, its voice, its limits.
#[derive(Debug)]
pub struct Persona {
    pub hand_on_to: Vec<Colleague>,
    pub manages_with: Vec<String>,
    pub agent_id: String,
    pub runs_as: String,
    pub name: String,
    pub system: String,
    pub may_delegate_to: Option<Vec<String>>,
    pub plan: Option<String>,
    pub talk_only: bool,
}

pub open spec fn persona_intro(name: Seq<char>, node_name: Seq<char>) -> Seq<char> {
    "You are "@ + name + ", the bot managing "@ + node_name
        + ". You run this space: you read it, keep its plan, and get its work done — mostly by putting other people on it, and sometimes by doing it yourself. Be brief and concrete. Say plainly what you did, what you did not, and what needs a person.\n\nThe receipts in the thread are the record. A line such as \"claimed by @dev-a\" means work moved; a line such as \"could not take it\" or \"nothing moved\" means it did not, whatever you intended. Never say a claim moved, an item was assigned, or work is in progress unless a receipt in this thread says so. If a handover was refused, say it was refused and why."@
}

pub open spec fn persona_means() -> Seq<char> {
    "\n\nWhat you can actually do, and how:\n- Put someone on an item: write @name take \"title\" in your reply. That starts them in a session and posts a receipt here.\n- Keep the plan: work.add to put something on it, work.done when a receipt shows it finished, work.drop to let go of one nobody is doing. work.list to see it."@
}

pub open spec fn persona_hands(acts: bool, agent: Seq<char>) -> Seq<char> {
    if acts {
        "\n         - Do it yourself: @"@ + trim(agent)
            + " take \"title\", or @me take \"title\". You run as that agent, in a real session, with a receipt like anyone else's. Prefer handing work to your team when there is someone for it; take it yourself when there is not, or when it is small."@
    } else {
        "\n         - You name no agent, so you cannot run tools on the machine or a session yourself. You can still plan, and put your team on things. If something needs hands and nobody has them, say so — someone will name an agent for you under Settings."@
    }
}

/// The instructions a bot is given: who it is, its goal and its own words,
/// its team, and what it can and cannot do.
pub open spec fn persona_system(
    name: Seq<char>,
    node_name: Seq<char>,
    goal: Seq<char>,
    body: Seq<char>,
    team: Seq<Seq<char>>,
    agent: Seq<char>,
) -> Seq<char> {
    persona_intro(name, node_name) + (if trim(goal).len() > 0 {
        "\n\nYour goal: "@ + trim(goal)
    } else {
        seq![]
    }) + (if trim(body).len() > 0 {
        "\n\n"@ + trim(body)
    } else {
        seq![]
    }) + (if team.len() > 0 {
        "\n\nYour team — the agents you may put work on: "@ + join(team, ", "@)
            + ". Anyone the person pulls into your thread with @ joins it."@
    } else {
        seq![]
    }) + persona_means() + persona_hands(trim(agent).len() > 0, agent)
}

/// The voice a bot speaks in, built from its file every time.
///
/// Permissions are the named agent's, when there is one. A bot with no agent
/// is given the id `bot:<node>`, which no permission row matches, and talks
/// through the assistant (`assistant_id`). It may always keep its own plan
/// (`work_tool`).
pub fn persona(bot: &Bot, assistant_id: &str, work_tool: &str) -> (p: Persona)
    ensures
        p.hand_on_to@.len() == 0,
        str_views(p.manages_with@) == seq![work_tool@],
        p.agent_id@ == (if trim(bot.agent@).len() > 0 {
            trim(bot.agent@)
        } else {
            "bot:"@ + signed_decimal(bot.node_id as int)
        }),
        p.runs_as@ == (if trim(bot.agent@).len() > 0 {
            trim(bot.agent@)
        } else {
            assistant_id@
        }),
        p.name@ == bot.name@,
        p.system@ == persona_system(
            bot.name@,
            bot.node_name@,
            bot.goal@,
            bot.body@,
            str_views(bot.team@),
            bot.agent@,
        ),
        p.may_delegate_to matches Some(t) && str_views(t@) == str_views(bot.team@),
        match p.plan {
            Some(f) => trim(bot.feature@).len() > 0 && f@ == trim(bot.feature@),
            None => trim(bot.feature@).len() == 0,
        },
        !p.talk_only,
{
    let acts = !is_blank(bot.agent.as_str());
    let mut system = copy_str("You are ");
    push_str(&mut system, bot.name.as_str());
    push_str(&mut system, ", the bot managing ");
    push_str(&mut system, bot.node_name.as_str());
    push_str(
        &mut system,
        ". You run this space: you read it, keep its plan, and get its work done — mostly by putting other people on it, and sometimes by doing it yourself. Be brief and concrete. Say plainly what you did, what you did not, and what needs a person.\n\nThe receipts in the thread are the record. A line such as \"claimed by @dev-a\" means work moved; a line such as \"could not take it\" or \"nothing moved\" means it did not, whatever you intended. Never say a claim moved, an item was assigned, or work is in progress unless a receipt in this thread says so. If a handover was refused, say it was refused and why.",
    );
    let ghost intro = system@;
    if !is_blank(bot.goal.as_str()) {
        push_str(&mut system, "\n\nYour goal: ");
        push_str(&mut system, trim_str(bot.goal.as_str()).as_str());
    }
    let ghost with_goal = system@;
    if !is_blank(bot.body.as_str()) {
        push_str(&mut system, "\n\n");
        push_str(&mut system, trim_str(bot.body.as_str()).as_str());
    }
    let ghost with_body = system@;
    if bot.team.len() > 0 {
        push_str(&mut system, "\n\nYour team — the agents you may put work on: ");
        push_str(&mut system, join_strings(&bot.team, ", ").as_str());
        push_str(&mut system, ". Anyone the person pulls into your thread with @ joins it.");
    }
    let ghost with_team = system@;
    push_str(
        &mut system,
        "\n\nWhat you can actually do, and how:\n- Put someone on an item: write @name take \"title\" in your reply. That starts them in a session and posts a receipt here.\n- Keep the plan: work.add to put something on it, work.done when a receipt shows it finished, work.drop to let go of one nobody is doing. work.list to see it.",
    );
    if acts {
        push_str(&mut system, "\n         - Do it yourself: @");
        push_str(&mut system, trim_str(bot.agent.as_str()).as_str());
        push_str(
            &mut system,
            " take \"title\", or @me take \"title\". You run as that agent, in a real session, with a receipt like anyone else's. Prefer handing work to your team when there is someone for it; take it yourself when there is not, or when it is small.",
        );
    } else {
        push_str(
            &mut system,
            "\n         - You name no agent, so you cannot run tools on the machine or a session yourself. You can still plan, and put your team on things. If something needs hands and nobody has them, say so — someone will name an agent for you under Settings.",
        );
    }
    proof {
        let g = if trim(bot.goal@).len() > 0 {
            "\n\nYour goal: "@ + trim(bot.goal@)
        } else {
            seq![]
        };
        let b = if trim(bot.body@).len() > 0 {
            "\n\n"@ + trim(bot.body@)
        } else {
            seq![]
        };
        let t = if bot.team@.len() > 0 {
            "\n\nYour team — the agents you may put work on: "@ + join(str_views(bot.team@), ", "@)
                + ". Anyone the person pulls into your thread with @ joins it."@
        } else {
            seq![]
        };
        assert(with_goal =~= intro + g);
        assert(with_body =~= intro + g + b);
        assert(with_team =~= intro + g + b + t);
        assert(system@ =~= persona_system(
            bot.name@,
            bot.node_name@,
            bot.goal@,
            bot.body@,
            str_views(bot.team@),
            bot.agent@,
        ));
    }
    let mut manages_with: Vec<String> = Vec::new();
    manages_with.push(copy_str(work_tool));
    assert(str_views(manages_with@) =~= seq![work_tool@]);
    let agent_id = if acts {
        trim_str(bot.agent.as_str())
    } else {
        let mut id = copy_str("bot:");
        push_str(&mut id, i64_to_string(bot.node_id).as_str());
        id
    };
    let runs_as = if acts {
        trim_str(bot.agent.as_str())
    } else {
        copy_str(assistant_id)
    };
    let plan = if is_blank(bot.feature.as_str()) {
        None
    } else {
        Some(trim_str(bot.feature.as_str()))
    };
    Persona {
        hand_on_to: Vec::new(),
        manages_with,
        agent_id,
        runs_as,
        name: copy_str(bot.name.as_str()),
        system,
        may_delegate_to: Some(crate::text::copy_strings(&bot.team)),
        plan,
        talk_only: false,
    }
}

/// The voice, with the team it actually has: the file's list plus every
/// agent someone pulled into its thread.
pub fn persona_for(
    bot: &Bot,
    assistant_id: &str,
    work_tool: &str,
    participants: &Vec<String>,
    agents: &Vec<String>,
) -> (p: Persona)
    ensures
        p.agent_id@ == (if trim(bot.agent@).len() > 0 {
            trim(bot.agent@)
        } else {
            "bot:"@ + signed_decimal(bot.node_id as int)
        }),
        p.system@ == persona_system(
            bot.name@,
            bot.node_name@,
            bot.goal@,
            bot.body@,
            str_views(bot.team@),
            bot.agent@,
        ),
        p.may_delegate_to matches Some(t) && str_views(t@) == joined(
            str_views(bot.team@),
            str_views(participants@),
            str_views(agents@),
        ),
{
    let mut p = persona(bot, assistant_id, work_tool);
    p.may_delegate_to = Some(effective_team(bot, participants, agents));
    p
}

} // verus!
