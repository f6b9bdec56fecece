//! What a bot knows about you: the interview, the beliefs it holds, the
//! decisions you have already made, and the suggestions it derives.
//!
//! Beliefs carry a source and a cost: whether you said it, it watched it, or
//! you corrected it; how many times it has been used; and when it last was.
//! Nothing you said is ever dropped automatically, only what it worked out on
//! its own.
//!
//! Suggestions are derived, not generated: every one comes from a signal that
//! can be named, so a suggestion can always answer why it is on screen.
use vstd::prelude::*;
use crate::text::{
    chars_of, copy_str, decimal, is_blank, join, push_str, str_eq, str_views, trim, trim_str,
    usize_to_string,
};
use crate::deck::{WorkItem, WorkItemV, work_view};
use crate::botcatalog::{ToolOffer, ToolOfferV, offers_view};
use crate::order::str_lt;

verus! {

/// How many questions the interview has.
pub const SCRIPT_LEN: usize = 6;

/// The interview script, in order.
pub open spec fn script_v() -> Seq<Seq<char>> {
    seq![
        "What is this space for?"@,
        "What does good look like in three months?"@,
        "What already happens without me?"@,
        "When should I speak up, and when should I stay quiet?"@,
        "What would you rather I never touch?"@,
        "Anything else I should know before I start?"@,
    ]
}

/// One question of the script.
pub fn script_question(step: usize) -> (r: &'static str)
    requires
        step < SCRIPT_LEN,
    ensures
        r@ == script_v()[step as int],
{
    match step {
        0 => "What is this space for?",
        1 => "What does good look like in three months?",
        2 => "What already happens without me?",
        3 => "When should I speak up, and when should I stay quiet?",
        4 => "What would you rather I never touch?",
        _ => "Anything else I should know before I start?",
    }
}

/// The whole script, as owned strings.
pub fn script() -> (r: Vec<String>)
    ensures
        str_views(r@) == script_v(),
{
    let mut r: Vec<String> = Vec::new();
    let mut i: usize = 0;
    while i < SCRIPT_LEN
        invariant
            i <= SCRIPT_LEN,
            str_views(r@) == script_v().take(i as int),
        decreases SCRIPT_LEN - i,
    {
        let q = copy_str(script_question(i));
        let ghost before = r@;
        r.push(q);
        i = i + 1;
        assert(str_views(r@) =~= str_views(before).push(q@));
        assert(script_v().take(i as int) =~= script_v().take(i - 1).push(script_v()[i - 1]));
    }
    r
}

#[derive(Debug, Default)]
pub struct Answer {
    pub step: usize,
    pub question: String,
    pub answer: String,
    pub at: String,
    /// A question you chose not to answer. Kept so the bot does not ask it
    /// again, and so "why don't you know that" has an answer.
    pub skipped: bool,
}

#[derive(Debug, Default)]
pub struct Belief {
    pub id: String,
    pub text: String,
    /// you | watched | corrected
    pub source: String,
    /// What it used to say, when you corrected it.
    pub was: String,
    pub created_at: String,
    pub last_used: String,
    pub uses: i64,
    /// Pinned lines are never offered for ageing, whatever their source.
    pub pinned: bool,
}

#[derive(Debug, Default)]
pub struct ToolDecision {
    pub id: String,
    /// added | declined
    pub response: String,
    pub at: String,
}

#[derive(Debug, Default)]
pub struct SuggestionAnswer {
    pub id: String,
    /// done | snoozed | wrong
    pub response: String,
    pub why: String,
    pub at: String,
    /// Snoozes expire; `wrong` never does.
    pub until: i64,
}

#[derive(Debug, Default)]
pub struct MindMeta {
    pub node_id: i64,
    pub interview_done: bool,
    pub answers: Vec<Answer>,
    pub beliefs: Vec<Belief>,
    pub tools: Vec<ToolDecision>,
    pub suggestions: Vec<SuggestionAnswer>,
}

pub ghost struct AnswerV {
    pub step: int,
    pub question: Seq<char>,
    pub answer: Seq<char>,
    pub at: Seq<char>,
    pub skipped: bool,
}

pub ghost struct BeliefV {
    pub id: Seq<char>,
    pub text: Seq<char>,
    pub source: Seq<char>,
    pub was: Seq<char>,
    pub created_at: Seq<char>,
    pub last_used: Seq<char>,
    pub uses: int,
    pub pinned: bool,
}

pub ghost struct ToolDecisionV {
    pub id: Seq<char>,
    pub response: Seq<char>,
    pub at: Seq<char>,
}

pub ghost struct SuggestionAnswerV {
    pub id: Seq<char>,
    pub response: Seq<char>,
    pub why: Seq<char>,
    pub at: Seq<char>,
    pub until: int,
}

pub ghost struct MindMetaV {
    pub node_id: int,
    pub interview_done: bool,
    pub answers: Seq<AnswerV>,
    pub beliefs: Seq<BeliefV>,
    pub tools: Seq<ToolDecisionV>,
    pub suggestions: Seq<SuggestionAnswerV>,
}

impl View for Answer {
    type V = AnswerV;

    open spec fn view(&self) -> AnswerV {
        AnswerV {
            step: self.step as int,
            question: self.question@,
            answer: self.answer@,
            at: self.at@,
            skipped: self.skipped,
        }
    }
}

impl View for Belief {
    type V = BeliefV;

    open spec fn view(&self) -> BeliefV {
        BeliefV {
            id: self.id@,
            text: self.text@,
            source: self.source@,
            was: self.was@,
            created_at: self.created_at@,
            last_used: self.last_used@,
            uses: self.uses as int,
            pinned: self.pinned,
        }
    }
}

impl View for ToolDecision {
    type V = ToolDecisionV;

    open spec fn view(&self) -> ToolDecisionV {
        ToolDecisionV { id: self.id@, response: self.response@, at: self.at@ }
    }
}

impl View for SuggestionAnswer {
    type V = SuggestionAnswerV;

    open spec fn view(&self) -> SuggestionAnswerV {
        SuggestionAnswerV {
            id: self.id@,
            response: self.response@,
            why: self.why@,
            at: self.at@,
            until: self.until as int,
        }
    }
}

pub open spec fn answers_view(v: Seq<Answer>) -> Seq<AnswerV> {
    v.map_values(|a: Answer| a@)
}

pub open spec fn beliefs_view(v: Seq<Belief>) -> Seq<BeliefV> {
    v.map_values(|b: Belief| b@)
}

pub open spec fn decisions_view(v: Seq<ToolDecision>) -> Seq<ToolDecisionV> {
    v.map_values(|d: ToolDecision| d@)
}

pub open spec fn replies_view(v: Seq<SuggestionAnswer>) -> Seq<SuggestionAnswerV> {
    v.map_values(|a: SuggestionAnswer| a@)
}

impl View for MindMeta {
    type V = MindMetaV;

    open spec fn view(&self) -> MindMetaV {
        MindMetaV {
            node_id: self.node_id as int,
            interview_done: self.interview_done,
            answers: answers_view(self.answers@),
            beliefs: beliefs_view(self.beliefs@),
            tools: decisions_view(self.tools@),
            suggestions: replies_view(self.suggestions@),
        }
    }
}

pub fn copy_answer(a: &Answer) -> (r: Answer)
    ensures
        r@ == a@,
{
    Answer {
        step: a.step,
        question: copy_str(a.question.as_str()),
        answer: copy_str(a.answer.as_str()),
        at: copy_str(a.at.as_str()),
        skipped: a.skipped,
    }
}

pub fn copy_belief(b: &Belief) -> (r: Belief)
    ensures
        r@ == b@,
{
    Belief {
        id: copy_str(b.id.as_str()),
        text: copy_str(b.text.as_str()),
        source: copy_str(b.source.as_str()),
        was: copy_str(b.was.as_str()),
        created_at: copy_str(b.created_at.as_str()),
        last_used: copy_str(b.last_used.as_str()),
        uses: b.uses,
        pinned: b.pinned,
    }
}

pub fn copy_answers(v: &Vec<Answer>) -> (r: Vec<Answer>)
    ensures
        answers_view(r@) == answers_view(v@),
{
    let mut r: Vec<Answer> = Vec::new();
    let mut i: usize = 0;
    while i < v.len()
        invariant
            i <= v.len(),
            answers_view(r@) == answers_view(v@).take(i as int),
        decreases v.len() - i,
    {
        let a = copy_answer(&v[i]);
        let ghost before = r@;
        r.push(a);
        i = i + 1;
        assert(answers_view(r@) =~= answers_view(before).push(a@));
        assert(answers_view(v@).take(i as int) =~= answers_view(v@).take(i - 1).push(v@[i - 1]@));
    }
    assert(answers_view(v@).take(v.len() as int) =~= answers_view(v@));
    r
}

// ---------------------------------------------------------------------------
// Ageing
// ---------------------------------------------------------------------------

/// What `chrono::DateTime::parse_from_rfc3339` reads from the text, as
/// milliseconds since the epoch; `None` where it refuses the text.
pub uninterp spec fn rfc3339_millis(s: Seq<char>) -> Option<int>;

/// `chrono::DateTime::parse_from_rfc3339` followed by `timestamp_millis`.
/// Claimed: the result is the named reading of the text, and nothing more.
#[verifier::external_body]
fn parse_rfc3339_millis(s: &str) -> (r: Option<i64>)
    ensures
        r matches Some(m) ==> rfc3339_millis(s@) == Some(m as int),
        r is None ==> rfc3339_millis(s@) is None,
{
    match chrono::DateTime::parse_from_rfc3339(s) {
        Ok(t) => Some(t.timestamp_millis()),
        Err(_) => None,
    }
}

pub const DAY_MS: i64 = 86_400_000;

/// Division that rounds toward zero, as `i64` division does.
pub open spec fn div_toward_zero(a: int, d: int) -> int {
    if a >= 0 {
        a / d
    } else {
        -((-a) / d)
    }
}

pub open spec fn clamp_uses(u: int) -> int {
    if u < 0 {
        0
    } else if u > 20 {
        20
    } else {
        u
    }
}

/// Days of disuse a belief is allowed before ageing offers to drop it: six
/// weeks, and two more weeks for each use up to twenty.
pub open spec fn allowance(uses: int) -> int {
    42 + clamp_uses(uses) * 14
}

/// The time a belief is aged from: when it was last used, or when it was
/// made if it never was.
pub open spec fn aged_from(b: BeliefV) -> Seq<char> {
    if b.last_used.len() == 0 {
        b.created_at
    } else {
        b.last_used
    }
}

/// Whether ageing would offer to drop a belief.
pub open spec fn stale_spec(b: BeliefV, now_ms: int) -> bool {
    if b.pinned || b.source == "you"@ || b.source == "corrected"@ {
        false
    } else {
        match rfc3339_millis(aged_from(b)) {
            None => false,
            Some(t) => div_toward_zero(now_ms - t, DAY_MS as int) > allowance(b.uses),
        }
    }
}

/// Whether a belief is a candidate for dropping.
///
/// Nothing you said or corrected is ever a candidate, whatever its age; only
/// what it worked out or watched ages, and only after it has gone unused.
pub fn stale(b: &Belief, now_ms: i64) -> (r: bool)
    ensures
        r == stale_spec(b@, now_ms as int),
{
    if b.pinned || str_eq(b.source.as_str(), "you") || str_eq(b.source.as_str(), "corrected") {
        return false;
    }
    let created = if chars_of(b.last_used.as_str()).len() == 0 {
        b.created_at.as_str()
    } else {
        b.last_used.as_str()
    };
    let t = match parse_rfc3339_millis(created) {
        Some(t) => t,
        None => {
            return false;
        },
    };
    let diff: i128 = now_ms as i128 - t as i128;
    let age_days: i128 = if diff >= 0 {
        ((diff as u128) / (DAY_MS as u128)) as i128
    } else {
        -((((-diff) as u128) / (DAY_MS as u128)) as i128)
    };
    let uses: i128 = if b.uses < 0 {
        0
    } else if b.uses > 20 {
        20
    } else {
        b.uses as i128
    };
    age_days > 42 + uses * 14
}


// ---------------------------------------------------------------------------
// Suggestions
// ---------------------------------------------------------------------------

/// One thing the bot thinks you should do, and the signal it read.
#[derive(Debug)]
pub struct Suggestion {
    /// Stable across restarts, so a "not now" still applies tomorrow.
    pub id: String,
    pub title: String,
    /// Why this is on screen. Never optional.
    pub evidence: String,
    /// interview | heartbeat | work | tool | goal
    pub kind: String,
    /// Which tool it is about, when it is about one.
    pub tool_id: String,
}

pub ghost struct SuggestionV {
    pub id: Seq<char>,
    pub title: Seq<char>,
    pub evidence: Seq<char>,
    pub kind: Seq<char>,
    pub tool_id: Seq<char>,
}

impl View for Suggestion {
    type V = SuggestionV;

    open spec fn view(&self) -> SuggestionV {
        SuggestionV {
            id: self.id@,
            title: self.title@,
            evidence: self.evidence@,
            kind: self.kind@,
            tool_id: self.tool_id@,
        }
    }
}

pub open spec fn suggestions_view(v: Seq<Suggestion>) -> Seq<SuggestionV> {
    v.map_values(|s: Suggestion| s@)
}

#[derive(Debug)]
/// Everything a suggestion needs to know, passed in rather than fetched.
pub struct Signals<'a> {
    pub goal: String,
    pub every: String,
    pub last_woke: Option<i64>,
    pub work: &'a [WorkItem],
    pub answered: usize,
    pub skipped: usize,
    pub offers: &'a [ToolOffer],
    pub decided: &'a [ToolDecision],
    pub now_ms: i64,
}

pub open spec fn suggestion_v(
    id: Seq<char>,
    title: Seq<char>,
    evidence: Seq<char>,
    kind: Seq<char>,
    tool_id: Seq<char>,
) -> SuggestionV {
    SuggestionV { id, title, evidence, kind, tool_id }
}

/// An interview that stopped halfway.
pub open spec fn interview_nudge(answered: int, skipped: int) -> Seq<SuggestionV> {
    let seen = answered + skipped;
    if seen < SCRIPT_LEN {
        seq![
            suggestion_v(
                "interview"@,
                "Finish telling it about this space — "@ + decimal((SCRIPT_LEN - seen) as nat)
                    + " left"@,
                "It has "@ + decimal(answered as nat)
                    + " of 6 answers. Until it has them it is guessing at when to speak up."@,
                "interview"@,
                seq![],
            ),
        ]
    } else {
        seq![]
    }
}

/// A routine that never runs.
pub open spec fn heartbeat_nudge(every: Seq<char>) -> Seq<SuggestionV> {
    if trim(every).len() == 0 {
        seq![
            suggestion_v(
                "heartbeat"@,
                "Give it a heartbeat"@,
                "It has no routine, so it only ever looks at this space when you open it."@,
                "heartbeat"@,
                seq![],
            ),
        ]
    } else {
        seq![]
    }
}

/// A goal with no steps.
pub open spec fn plan_nudge(work: Seq<WorkItemV>, goal: Seq<char>) -> Seq<SuggestionV> {
    if work.len() == 0 && trim(goal).len() > 0 {
        seq![
            suggestion_v(
                "plan"@,
                "Turn the goal into steps"@,
                "“"@ + trim(goal)
                    + "” has nothing under it, so there is nothing to hand to an agent or to watch finish."@,
                "work"@,
                seq![],
            ),
        ]
    } else {
        seq![]
    }
}

/// The titles of the blocked steps, in order.
pub open spec fn blocked_titles(work: Seq<WorkItemV>) -> Seq<Seq<char>>
    decreases work.len(),
{
    if work.len() == 0 {
        seq![]
    } else if work.last().status == "blocked"@ {
        blocked_titles(work.drop_last()).push(work.last().title)
    } else {
        blocked_titles(work.drop_last())
    }
}

/// Work that is stuck, named rather than counted: the first three titles.
pub open spec fn blocked_nudge(work: Seq<WorkItemV>) -> Seq<SuggestionV> {
    let b = blocked_titles(work);
    if b.len() > 0 {
        let shown = if b.len() < 3 {
            b
        } else {
            b.take(3)
        };
        seq![
            suggestion_v(
                "blocked"@,
                decimal(b.len()) + " step"@ + (if b.len() == 1 {
                    seq![]
                } else {
                    "s"@
                }) + " blocked"@,
                join(shown, ", "@) + ". Nothing behind them moves until one of these does."@,
                "work"@,
                seq![],
            ),
        ]
    } else {
        seq![]
    }
}

pub open spec fn all_done(work: Seq<WorkItemV>) -> bool {
    forall|i: int| 0 <= i < work.len() ==> #[trigger] work[i].status == "done"@
}

/// Everything done, said once.
pub open spec fn finished_nudge(work: Seq<WorkItemV>) -> Seq<SuggestionV> {
    if work.len() > 0 && all_done(work) {
        seq![
            suggestion_v(
                "finished"@,
                "Every step is done"@,
                "All "@ + decimal(work.len()) + " of them. Time for a new goal, or a rest."@,
                "goal"@,
                seq![],
            ),
        ]
    } else {
        seq![]
    }
}

pub open spec fn is_decided(decided: Seq<ToolDecisionV>, id: Seq<char>) -> bool {
    exists|j: int| 0 <= j < decided.len() && #[trigger] decided[j].id == id
}

/// The offers you have neither accepted nor refused, in order.
pub open spec fn undecided(offers: Seq<ToolOfferV>, decided: Seq<ToolDecisionV>) -> Seq<ToolOfferV>
    decreases offers.len(),
{
    if offers.len() == 0 {
        seq![]
    } else if is_decided(decided, offers.last().id) {
        undecided(offers.drop_last(), decided)
    } else {
        undecided(offers.drop_last(), decided).push(offers.last())
    }
}

/// The rung of a tool's kind: skill, agent, software, then anything else.
pub open spec fn rung(kind: Seq<char>) -> int {
    if kind == "skill"@ {
        0
    } else if kind == "agent"@ {
        1
    } else if kind == "software"@ {
        2
    } else {
        3
    }
}

pub open spec fn first_at_rung(os: Seq<ToolOfferV>, r: int) -> Option<ToolOfferV>
    decreases os.len(),
{
    if os.len() == 0 {
        None
    } else if rung(os[0].kind) == r {
        Some(os[0])
    } else {
        first_at_rung(os.drop_first(), r)
    }
}

/// The cheapest offer: the first on the lowest rung any offer sits on.
pub open spec fn cheapest(os: Seq<ToolOfferV>) -> Option<ToolOfferV> {
    if first_at_rung(os, 0) is Some {
        first_at_rung(os, 0)
    } else if first_at_rung(os, 1) is Some {
        first_at_rung(os, 1)
    } else if first_at_rung(os, 2) is Some {
        first_at_rung(os, 2)
    } else {
        first_at_rung(os, 3)
    }
}

/// One tool it has not been given and you have not refused, cheapest first.
pub open spec fn tool_nudge(offers: Seq<ToolOfferV>, decided: Seq<ToolDecisionV>) -> Seq<SuggestionV> {
    match cheapest(undecided(offers, decided)) {
        Some(o) => seq![
            suggestion_v("tool:"@ + o.id, "It could use "@ + o.name, o.because, "tool"@, o.id),
        ],
        None => seq![],
    }
}

/// The rules, in order.
pub open spec fn derive_spec(
    goal: Seq<char>,
    every: Seq<char>,
    work: Seq<WorkItemV>,
    answered: int,
    skipped: int,
    offers: Seq<ToolOfferV>,
    decided: Seq<ToolDecisionV>,
) -> Seq<SuggestionV> {
    interview_nudge(answered, skipped) + heartbeat_nudge(every) + plan_nudge(work, goal)
        + blocked_nudge(work) + finished_nudge(work) + tool_nudge(offers, decided)
}

fn new_suggestion(id: &str, title: String, evidence: String, kind: &str, tool_id: String) -> (r: Suggestion)
    ensures
        r@ == suggestion_v(id@, title@, evidence@, kind@, tool_id@),
{
    Suggestion { id: copy_str(id), title, evidence, kind: copy_str(kind), tool_id }
}

fn nudge_interview(answered: usize, skipped: usize, out: &mut Vec<Suggestion>)
    requires
        answered + skipped <= usize::MAX,
    ensures
        suggestions_view(final(out)@) == suggestions_view(old(out)@) + interview_nudge(
            answered as int,
            skipped as int,
        ),
{
    let seen = answered + skipped;
    if seen < SCRIPT_LEN {
        let mut title = copy_str("Finish telling it about this space — ");
        let left = usize_to_string(SCRIPT_LEN - seen);
        push_str(&mut title, left.as_str());
        push_str(&mut title, " left");
        let mut evidence = copy_str("It has ");
        let n = usize_to_string(answered);
        push_str(&mut evidence, n.as_str());
        push_str(&mut evidence, " of 6 answers. Until it has them it is guessing at when to speak up.");
        let s = new_suggestion("interview", title, evidence, "interview", String::new());
        let ghost before = out@;
        out.push(s);
        assert(suggestions_view(out@) =~= suggestions_view(before) + interview_nudge(
            answered as int,
            skipped as int,
        ));
    } else {
        assert(interview_nudge(answered as int, skipped as int) =~= seq![]);
        assert(suggestions_view(out@) =~= suggestions_view(out@) + seq![]);
    }
}

fn push_one(out: &mut Vec<Suggestion>, s: Suggestion)
    ensures
        suggestions_view(final(out)@) == suggestions_view(old(out)@) + seq![s@],
{
    let ghost before = out@;
    out.push(s);
    assert(suggestions_view(out@) =~= suggestions_view(before) + seq![s@]);
}

proof fn lemma_append_nothing(v: Seq<SuggestionV>)
    ensures
        v + Seq::<SuggestionV>::empty() == v,
{
    assert(v + Seq::<SuggestionV>::empty() =~= v);
}

fn nudge_heartbeat(every: &str, out: &mut Vec<Suggestion>)
    ensures
        suggestions_view(final(out)@) == suggestions_view(old(out)@) + heartbeat_nudge(every@),
{
    if is_blank(every) {
        let s = new_suggestion(
            "heartbeat",
            copy_str("Give it a heartbeat"),
            copy_str("It has no routine, so it only ever looks at this space when you open it."),
            "heartbeat",
            String::new(),
        );
        push_one(out, s);
    } else {
        proof {
            lemma_append_nothing(suggestions_view(out@));
        }
    }
}

fn nudge_plan(work: &[WorkItem], goal: &str, out: &mut Vec<Suggestion>)
    ensures
        suggestions_view(final(out)@) == suggestions_view(old(out)@) + plan_nudge(
            work_view(work@),
            goal@,
        ),
{
    if work.len() == 0 && !is_blank(goal) {
        let mut evidence = copy_str("“");
        let g = trim_str(goal);
        push_str(&mut evidence, g.as_str());
        push_str(
            &mut evidence,
            "” has nothing under it, so there is nothing to hand to an agent or to watch finish.",
        );
        let s = new_suggestion(
            "plan",
            copy_str("Turn the goal into steps"),
            evidence,
            "work",
            String::new(),
        );
        push_one(out, s);
    } else {
        proof {
            lemma_append_nothing(suggestions_view(out@));
        }
    }
}

fn nudge_blocked(work: &[WorkItem], out: &mut Vec<Suggestion>)
    ensures
        suggestions_view(final(out)@) == suggestions_view(old(out)@) + blocked_nudge(
            work_view(work@),
        ),
{
    let ghost w = work_view(work@);
    let mut titles: Vec<String> = Vec::new();
    let mut i: usize = 0;
    while i < work.len()
        invariant
            i <= work.len(),
            w == work_view(work@),
            str_views(titles@) == blocked_titles(w.take(i as int)),
        decreases work.len() - i,
    {
        assert(w.take(i + 1).drop_last() =~= w.take(i as int));
        assert(w.take(i + 1).last() == work@[i as int]@);
        if str_eq(work[i].status.as_str(), "blocked") {
            let t = copy_str(work[i].title.as_str());
            let ghost before = titles@;
            titles.push(t);
            assert(str_views(titles@) =~= str_views(before).push(t@));
        }
        i = i + 1;
    }
    assert(w.take(work.len() as int) =~= w);
    let n = titles.len();
    if n > 0 {
        let mut shown: Vec<String> = Vec::new();
        let mut k: usize = 0;
        while k < n && k < 3
            invariant
                k <= n,
                k <= 3,
                n == titles.len(),
                str_views(shown@) == str_views(titles@).take(k as int),
            decreases 3 - k,
        {
            let t = copy_str(titles[k].as_str());
            let ghost before = shown@;
            shown.push(t);
            k = k + 1;
            assert(str_views(shown@) =~= str_views(before).push(t@));
            assert(str_views(titles@).take(k as int) =~= str_views(titles@).take(k - 1).push(
                titles@[k - 1]@,
            ));
        }
        proof {
            if n < 3 {
                assert(str_views(titles@).take(n as int) =~= str_views(titles@));
            }
        }
        let mut title = usize_to_string(n);
        push_str(&mut title, " step");
        if n != 1 {
            push_str(&mut title, "s");
        } else {
            assert(title@ =~= title@ + seq![]);
        }
        push_str(&mut title, " blocked");
        let mut evidence = crate::text::join_strings(&shown, ", ");
        push_str(&mut evidence, ". Nothing behind them moves until one of these does.");
        let s = new_suggestion("blocked", title, evidence, "work", String::new());
        push_one(out, s);
    } else {
        proof {
            lemma_append_nothing(suggestions_view(out@));
        }
    }
}

fn nudge_finished(work: &[WorkItem], out: &mut Vec<Suggestion>)
    ensures
        suggestions_view(final(out)@) == suggestions_view(old(out)@) + finished_nudge(
            work_view(work@),
        ),
{
    let ghost w = work_view(work@);
    let mut done = true;
    let mut i: usize = 0;
    while i < work.len()
        invariant
            i <= work.len(),
            w == work_view(work@),
            done == (forall|j: int| 0 <= j < i ==> #[trigger] w[j].status == "done"@),
        decreases work.len() - i,
    {
        assert(w[i as int] == work@[i as int]@);
        let ghost was = done;
        if !str_eq(work[i].status.as_str(), "done") {
            done = false;
        }
        proof {
            if done {
                assert forall|j: int| 0 <= j < i + 1 implies #[trigger] w[j].status == "done"@ by {
                    if j < i {
                        assert(was);
                    }
                }
            } else if was {
                assert(w[i as int].status != "done"@);
            }
        }
        i = i + 1;
    }
    if work.len() > 0 && done {
        let mut evidence = copy_str("All ");
        let n = usize_to_string(work.len());
        push_str(&mut evidence, n.as_str());
        push_str(&mut evidence, " of them. Time for a new goal, or a rest.");
        let s = new_suggestion(
            "finished",
            copy_str("Every step is done"),
            evidence,
            "goal",
            String::new(),
        );
        push_one(out, s);
    } else {
        proof {
            lemma_append_nothing(suggestions_view(out@));
        }
    }
}

fn rung_of(kind: &str) -> (r: u8)
    ensures
        r as int == rung(kind@),
{
    if str_eq(kind, "skill") {
        0
    } else if str_eq(kind, "agent") {
        1
    } else if str_eq(kind, "software") {
        2
    } else {
        3
    }
}

fn decided_exec(decided: &[ToolDecision], id: &str) -> (r: bool)
    ensures
        r == is_decided(decisions_view(decided@), id@),
{
    let ghost d = decisions_view(decided@);
    let mut j: usize = 0;
    while j < decided.len()
        invariant
            j <= decided.len(),
            d == decisions_view(decided@),
            forall|k: int| 0 <= k < j ==> #[trigger] d[k].id != id@,
        decreases decided.len() - j,
    {
        assert(d[j as int] == decided@[j as int]@);
        if str_eq(decided[j].id.as_str(), id) {
            assert(d[j as int].id == id@);
            return true;
        }
        j = j + 1;
    }
    false
}

proof fn lemma_first_at_rung_prefix(os: Seq<ToolOfferV>, r: int, i: int)
    requires
        0 <= i < os.len(),
        forall|k: int| 0 <= k < i ==> rung(#[trigger] os[k].kind) != r,
    ensures
        first_at_rung(os, r) == first_at_rung(os.subrange(i, os.len() as int), r),
    decreases i,
{
    if i > 0 {
        let rest = os.drop_first();
        assert forall|k: int| 0 <= k < i - 1 implies rung(#[trigger] rest[k].kind) != r by {
            assert(rest[k] == os[k + 1]);
        }
        lemma_first_at_rung_prefix(rest, r, i - 1);
        assert(rest.subrange(i - 1, rest.len() as int) =~= os.subrange(i, os.len() as int));
    } else {
        assert(os.subrange(0, os.len() as int) =~= os);
    }
}

proof fn lemma_first_at_rung_none(os: Seq<ToolOfferV>, r: int)
    requires
        forall|k: int| 0 <= k < os.len() ==> rung(#[trigger] os[k].kind) != r,
    ensures
        first_at_rung(os, r) is None,
    decreases os.len(),
{
    if os.len() > 0 {
        let rest = os.drop_first();
        assert forall|k: int| 0 <= k < rest.len() implies rung(#[trigger] rest[k].kind) != r by {
            assert(rest[k] == os[k + 1]);
        }
        lemma_first_at_rung_none(rest, r);
    }
}

fn nudge_tool(offers: &[ToolOffer], decided: &[ToolDecision], out: &mut Vec<Suggestion>)
    ensures
        suggestions_view(final(out)@) == suggestions_view(old(out)@) + tool_nudge(
            offers_view(offers@),
            decisions_view(decided@),
        ),
{
    let ghost os = offers_view(offers@);
    let ghost d = decisions_view(decided@);
    // The undecided offers, as positions, in order.
    let mut open: Vec<usize> = Vec::new();
    let mut i: usize = 0;
    while i < offers.len()
        invariant
            i <= offers.len(),
            os == offers_view(offers@),
            d == decisions_view(decided@),
            forall|k: int| 0 <= k < open.len() ==> #[trigger] open@[k] < offers.len(),
            open@.map_values(|p: usize| os[p as int]) == undecided(os.take(i as int), d),
        decreases offers.len() - i,
    {
        assert(os.take(i + 1).drop_last() =~= os.take(i as int));
        assert(os.take(i + 1).last() == os[i as int]);
        assert(os[i as int] == offers@[i as int]@);
        let ghost before = open@;
        if !decided_exec(decided, offers[i].id.as_str()) {
            open.push(i);
            assert(open@.map_values(|p: usize| os[p as int]) =~= before.map_values(
                |p: usize| os[p as int],
            ).push(os[i as int]));
        }
        i = i + 1;
    }
    assert(os.take(offers.len() as int) =~= os);
    let ghost u = undecided(os, d);
    assert(u.len() == open.len());
    assert forall|k: int| 0 <= k < open.len() implies #[trigger] u[k] == os[open@[k] as int] by {
        assert(open@.map_values(|p: usize| os[p as int])[k] == os[open@[k] as int]);
    }
    // The lowest rung that any open offer sits on, and the first offer on it.
    let mut best: Option<usize> = None;
    let mut r: u8 = 0;
    while r < 4 && best.is_none()
        invariant
            r <= 4,
            u == undecided(os, d),
            u.len() == open.len(),
            os == offers_view(offers@),
            forall|k: int| 0 <= k < open.len() ==> #[trigger] open@[k] < offers.len(),
            forall|k: int| 0 <= k < open.len() ==> #[trigger] u[k] == os[open@[k] as int],
            best is None ==> forall|q: int| 0 <= q < r ==> first_at_rung(u, q) is None,
            best matches Some(k) ==> k < open.len() && r >= 1 && cheapest(u) == Some(u[k as int])
                && forall|q: int| 0 <= q < r - 1 ==> first_at_rung(u, q) is None,
        decreases 4 - r,
    {
        let mut k: usize = 0;
        while k < open.len() && best.is_none()
            invariant
                k <= open.len(),
                r < 4,
                u == undecided(os, d),
                u.len() == open.len(),
                os == offers_view(offers@),
                forall|k2: int| 0 <= k2 < open.len() ==> #[trigger] open@[k2] < offers.len(),
                forall|k2: int| 0 <= k2 < open.len() ==> #[trigger] u[k2] == os[open@[k2] as int],
                forall|q: int| 0 <= q < r ==> first_at_rung(u, q) is None,
                best is None ==> forall|j: int| 0 <= j < k ==> rung(#[trigger] u[j].kind) != r,
                best matches Some(b) ==> b < open.len() && first_at_rung(u, r as int) == Some(
                    u[b as int],
                ),
            decreases open.len() - k + (if best is None {
                1int
            } else {
                0int
            }),
        {
            let p = open[k];
            assert(os[p as int] == offers@[p as int]@);
            if rung_of(offers[p].kind.as_str()) == r {
                proof {
                    lemma_first_at_rung_prefix(u, r as int, k as int);
                    let rest = u.subrange(k as int, u.len() as int);
                    assert(rest[0] == u[k as int]);
                }
                best = Some(k);
            } else {
                k = k + 1;
            }
        }
        proof {
            if best is None {
                lemma_first_at_rung_none(u, r as int);
            } else {
                assert(forall|q: int| 0 <= q < r ==> first_at_rung(u, q) is None);
            }
        }
        r = r + 1;
    }
    match best {
        Some(k) => {
            let o = &offers[open[k]];
            let mut id = copy_str("tool:");
            push_str(&mut id, o.id.as_str());
            let mut title = copy_str("It could use ");
            push_str(&mut title, o.name.as_str());
            let s = Suggestion {
                id,
                title,
                evidence: copy_str(o.because.as_str()),
                kind: copy_str("tool"),
                tool_id: copy_str(o.id.as_str()),
            };
            push_one(out, s);
        },
        None => {
            proof {
                assert(cheapest(u) is None);
                lemma_append_nothing(suggestions_view(out@));
            }
        },
    }
}

/// The rules. Each one reads a signal it can name, and none of them involve a
/// model.
pub fn derive(sig: &Signals) -> (r: Vec<Suggestion>)
    requires
        sig.answered + sig.skipped <= usize::MAX,
    ensures
        suggestions_view(r@) == derive_spec(
            sig.goal@,
            sig.every@,
            work_view(sig.work@),
            sig.answered as int,
            sig.skipped as int,
            offers_view(sig.offers@),
            decisions_view(sig.decided@),
        ),
{
    let mut out: Vec<Suggestion> = Vec::new();
    assert(suggestions_view(out@) =~= Seq::<SuggestionV>::empty());
    nudge_interview(sig.answered, sig.skipped, &mut out);
    nudge_heartbeat(sig.every.as_str(), &mut out);
    nudge_plan(sig.work, sig.goal.as_str(), &mut out);
    nudge_blocked(sig.work, &mut out);
    nudge_finished(sig.work, &mut out);
    nudge_tool(sig.offers, sig.decided, &mut out);
    out
}

/// The first answer given to a suggestion with this id.
pub open spec fn reply_for(answers: Seq<SuggestionAnswerV>, id: Seq<char>) -> Option<SuggestionAnswerV>
    decreases answers.len(),
{
    if answers.len() == 0 {
        None
    } else if answers[0].id == id {
        Some(answers[0])
    } else {
        reply_for(answers.drop_first(), id)
    }
}

/// Whether a suggestion is still shown: "wrong" never comes back, a snooze
/// comes back once it runs out, and "done" is not permanent.
pub open spec fn still_shown(answers: Seq<SuggestionAnswerV>, id: Seq<char>, now_ms: int) -> bool {
    match reply_for(answers, id) {
        None => true,
        Some(a) => if a.response == "wrong"@ {
            false
        } else if a.response == "snoozed"@ {
            now_ms >= a.until
        } else {
            true
        },
    }
}

pub open spec fn shown(all: Seq<SuggestionV>, answers: Seq<SuggestionAnswerV>, now_ms: int) -> Seq<SuggestionV>
    decreases all.len(),
{
    if all.len() == 0 {
        seq![]
    } else if still_shown(answers, all.last().id, now_ms) {
        shown(all.drop_last(), answers, now_ms).push(all.last())
    } else {
        shown(all.drop_last(), answers, now_ms)
    }
}

fn reply_for_exec(answers: &[SuggestionAnswer], id: &str) -> (r: Option<usize>)
    ensures
        match r {
            Some(i) => i < answers.len() && reply_for(replies_view(answers@), id@) == Some(
                answers@[i as int]@,
            ),
            None => reply_for(replies_view(answers@), id@) is None,
        },
{
    let ghost a = replies_view(answers@);
    let mut i: usize = 0;
    assert(a.subrange(0, a.len() as int) =~= a);
    while i < answers.len()
        invariant
            i <= answers.len(),
            a == replies_view(answers@),
            reply_for(a, id@) == reply_for(a.subrange(i as int, a.len() as int), id@),
        decreases answers.len() - i,
    {
        let ghost rest = a.subrange(i as int, a.len() as int);
        assert(rest[0] == answers@[i as int]@);
        if str_eq(answers[i].id.as_str(), id) {
            return Some(i);
        }
        assert(rest.drop_first() =~= a.subrange(i + 1, a.len() as int));
        i = i + 1;
    }
    None
}

/// Drop what you have already answered.
pub fn filter_answered(all: Vec<Suggestion>, answers: &[SuggestionAnswer], now_ms: i64) -> (r: Vec<
    Suggestion,
>)
    ensures
        suggestions_view(r@) == shown(suggestions_view(all@), replies_view(answers@), now_ms as int),
{
    let ghost s = suggestions_view(all@);
    let ghost a = replies_view(answers@);
    let mut all = all;
    let mut kept: Vec<Suggestion> = Vec::new();
    let ghost mut taken: int = 0;
    let mut i: usize = 0;
    let n = all.len();
    while i < n
        invariant
            i <= n,
            n == s.len(),
            a == replies_view(answers@),
            suggestions_view(all@) == s,
            suggestions_view(kept@) == shown(s.take(i as int), a, now_ms as int),
        decreases n - i,
    {
        assert(s.take(i + 1).drop_last() =~= s.take(i as int));
        assert(s.take(i + 1).last() == all@[i as int]@);
        let keep = match reply_for_exec(answers, all[i].id.as_str()) {
            None => true,
            Some(j) => if str_eq(answers[j].response.as_str(), "wrong") {
                false
            } else if str_eq(answers[j].response.as_str(), "snoozed") {
                now_ms >= answers[j].until
            } else {
                true
            },
        };
        if keep {
            let c = Suggestion {
                id: copy_str(all[i].id.as_str()),
                title: copy_str(all[i].title.as_str()),
                evidence: copy_str(all[i].evidence.as_str()),
                kind: copy_str(all[i].kind.as_str()),
                tool_id: copy_str(all[i].tool_id.as_str()),
            };
            let ghost before = kept@;
            kept.push(c);
            assert(suggestions_view(kept@) =~= suggestions_view(before).push(c@));
        }
        i = i + 1;
    }
    assert(s.take(n as int) =~= s);
    kept
}


// ---------------------------------------------------------------------------
// The interview, as it stands
// ---------------------------------------------------------------------------

/// The view the UI needs to draw the interview.
#[derive(Debug)]
pub struct InterviewView {
    pub script: Vec<String>,
    pub answers: Vec<Answer>,
    pub step: usize,
    pub done: bool,
}

pub open spec fn has_step(answers: Seq<AnswerV>, i: int) -> bool {
    exists|k: int| 0 <= k < answers.len() && #[trigger] answers[k].step == i
}

/// The first question from `i` on that has no answer, or the script's length
/// when every one has.
pub open spec fn first_open_step(answers: Seq<AnswerV>, i: int) -> int
    decreases SCRIPT_LEN - i,
{
    if i >= SCRIPT_LEN {
        SCRIPT_LEN as int
    } else if !has_step(answers, i) {
        i
    } else {
        first_open_step(answers, i + 1)
    }
}

/// Where the interview stands: the next question with no answer, and done
/// once every question has one (or the file says so).
pub fn interview(meta: &MindMeta) -> (v: InterviewView)
    ensures
        str_views(v.script@) == script_v(),
        answers_view(v.answers@) == meta@.answers,
        v.step == first_open_step(meta@.answers, 0),
        v.done == (meta.interview_done || v.step >= SCRIPT_LEN),
{
    let ghost a = meta@.answers;
    let mut step: usize = 0;
    let mut open = false;
    while step < SCRIPT_LEN && !open
        invariant
            step <= SCRIPT_LEN,
            a == meta@.answers,
            first_open_step(a, 0) == first_open_step(a, step as int),
            open ==> step < SCRIPT_LEN && !has_step(a, step as int),
        decreases SCRIPT_LEN - step + (if open {
            0int
        } else {
            1int
        }),
    {
        let mut seen = false;
        let mut k: usize = 0;
        while k < meta.answers.len()
            invariant
                k <= meta.answers.len(),
                a == meta@.answers,
                seen == (exists|j: int| 0 <= j < k && #[trigger] a[j].step == step),
            decreases meta.answers.len() - k,
        {
            assert(a[k as int] == meta.answers@[k as int]@);
            if meta.answers[k].step == step {
                seen = true;
                assert(a[k as int].step == step);
            }
            k = k + 1;
        }
        if seen {
            step = step + 1;
        } else {
            open = true;
        }
    }
    InterviewView {
        script: script(),
        answers: copy_answers(&meta.answers),
        step,
        done: meta.interview_done || step >= SCRIPT_LEN,
    }
}

// ---------------------------------------------------------------------------
// Answers, kept in step order
// ---------------------------------------------------------------------------

/// `a` placed after every answer whose step is not greater than its own.
pub open spec fn insert_by_step(s: Seq<AnswerV>, a: AnswerV) -> Seq<AnswerV>
    decreases s.len(),
{
    if s.len() == 0 {
        seq![a]
    } else if s.last().step <= a.step {
        s.push(a)
    } else {
        insert_by_step(s.drop_last(), a).push(s.last())
    }
}

/// What a stable sort by step gives.
pub open spec fn sort_by_step(s: Seq<AnswerV>) -> Seq<AnswerV>
    decreases s.len(),
{
    if s.len() == 0 {
        s
    } else {
        insert_by_step(sort_by_step(s.drop_last()), s.last())
    }
}

proof fn lemma_insert_by_step_at(s: Seq<AnswerV>, a: AnswerV, p: int)
    requires
        0 <= p <= s.len(),
        forall|j: int| p <= j < s.len() ==> #[trigger] s[j].step > a.step,
        p > 0 ==> s[p - 1].step <= a.step,
    ensures
        insert_by_step(s, a) == s.take(p).push(a) + s.skip(p),
    decreases s.len(),
{
    if s.len() == 0 {
        assert(s.take(p).push(a) + s.skip(p) =~= seq![a]);
    } else if p == s.len() {
        assert(s.take(p).push(a) + s.skip(p) =~= s.push(a));
    } else {
        let d = s.drop_last();
        assert(s.last() == s[s.len() - 1]);
        lemma_insert_by_step_at(d, a, p);
        assert(d.take(p) =~= s.take(p));
        assert(d.skip(p).push(s.last()) =~= s.skip(p));
        assert((d.take(p).push(a) + d.skip(p)).push(s.last()) =~= s.take(p).push(a) + s.skip(p));
    }
}

fn insert_answer(v: &mut Vec<Answer>, a: Answer)
    ensures
        answers_view(final(v)@) == insert_by_step(answers_view(old(v)@), a@),
{
    let ghost s = answers_view(v@);
    let mut p = v.len();
    while p > 0 && v[p - 1].step > a.step
        invariant
            p <= v.len(),
            s == answers_view(v@),
            forall|j: int| p <= j < v.len() ==> #[trigger] s[j].step > a.step,
        decreases p,
    {
        assert(s[p - 1] == v@[p - 1]@);
        p = p - 1;
    }
    proof {
        if p > 0 {
            assert(s[p - 1] == v@[p - 1]@);
        }
        lemma_insert_by_step_at(s, a@, p as int);
    }
    let ghost av = a@;
    v.insert(p, a);
    assert(answers_view(v@) =~= s.take(p as int).push(av) + s.skip(p as int));
}

fn sort_answers(v: Vec<Answer>) -> (r: Vec<Answer>)
    ensures
        answers_view(r@) == sort_by_step(answers_view(v@)),
{
    let ghost s = answers_view(v@);
    let mut r: Vec<Answer> = Vec::new();
    let mut i: usize = 0;
    while i < v.len()
        invariant
            i <= v.len(),
            s == answers_view(v@),
            answers_view(r@) == sort_by_step(s.take(i as int)),
        decreases v.len() - i,
    {
        assert(s.take(i + 1).drop_last() =~= s.take(i as int));
        assert(s.take(i + 1).last() == v@[i as int]@);
        let a = copy_answer(&v[i]);
        insert_answer(&mut r, a);
        i = i + 1;
    }
    assert(s.take(v.len() as int) =~= s);
    r
}

/// The answers without any for this step.
pub open spec fn without_step(s: Seq<AnswerV>, step: int) -> Seq<AnswerV>
    decreases s.len(),
{
    if s.len() == 0 {
        seq![]
    } else if s.last().step == step {
        without_step(s.drop_last(), step)
    } else {
        without_step(s.drop_last(), step).push(s.last())
    }
}

fn answers_without_step(v: &Vec<Answer>, step: usize) -> (r: Vec<Answer>)
    ensures
        answers_view(r@) == without_step(answers_view(v@), step as int),
{
    let ghost s = answers_view(v@);
    let mut r: Vec<Answer> = Vec::new();
    let mut i: usize = 0;
    while i < v.len()
        invariant
            i <= v.len(),
            s == answers_view(v@),
            answers_view(r@) == without_step(s.take(i as int), step as int),
        decreases v.len() - i,
    {
        assert(s.take(i + 1).drop_last() =~= s.take(i as int));
        assert(s.take(i + 1).last() == v@[i as int]@);
        if v[i].step != step {
            let a = copy_answer(&v[i]);
            let ghost before = r@;
            r.push(a);
            assert(answers_view(r@) =~= answers_view(before).push(a@));
        }
        i = i + 1;
    }
    assert(s.take(v.len() as int) =~= s);
    r
}

// ---------------------------------------------------------------------------
// Beliefs
// ---------------------------------------------------------------------------

/// The beliefs without any with this id.
pub open spec fn without_id(s: Seq<BeliefV>, id: Seq<char>) -> Seq<BeliefV>
    decreases s.len(),
{
    if s.len() == 0 {
        seq![]
    } else if s.last().id == id {
        without_id(s.drop_last(), id)
    } else {
        without_id(s.drop_last(), id).push(s.last())
    }
}

fn beliefs_without_id(v: &Vec<Belief>, id: &str) -> (r: Vec<Belief>)
    ensures
        beliefs_view(r@) == without_id(beliefs_view(v@), id@),
{
    let ghost s = beliefs_view(v@);
    let mut r: Vec<Belief> = Vec::new();
    let mut i: usize = 0;
    while i < v.len()
        invariant
            i <= v.len(),
            s == beliefs_view(v@),
            beliefs_view(r@) == without_id(s.take(i as int), id@),
        decreases v.len() - i,
    {
        assert(s.take(i + 1).drop_last() =~= s.take(i as int));
        assert(s.take(i + 1).last() == v@[i as int]@);
        if !str_eq(v[i].id.as_str(), id) {
            let b = copy_belief(&v[i]);
            let ghost before = r@;
            r.push(b);
            assert(beliefs_view(r@) =~= beliefs_view(before).push(b@));
        }
        i = i + 1;
    }
    assert(s.take(v.len() as int) =~= s);
    r
}

/// A belief you stated just now.
pub open spec fn stated_v(id: Seq<char>, text: Seq<char>, source: Seq<char>, now_iso: Seq<char>) -> BeliefV {
    BeliefV {
        id,
        text,
        source,
        was: seq![],
        created_at: now_iso,
        last_used: seq![],
        uses: 0,
        pinned: false,
    }
}

fn stated(id: String, text: String, source: &str, now_iso: &str) -> (r: Belief)
    ensures
        r@ == stated_v(id@, text@, source@, now_iso@),
{
    Belief {
        id,
        text,
        source: copy_str(source),
        was: String::new(),
        created_at: copy_str(now_iso),
        last_used: String::new(),
        uses: 0,
        pinned: false,
    }
}

/// The id of the belief an answer to this question becomes.
pub open spec fn answer_belief_id(step: int) -> Seq<char> {
    "a"@ + decimal(step as nat)
}

fn answer_id(step: usize) -> (r: String)
    ensures
        r@ == answer_belief_id(step as int),
{
    let mut r = copy_str("a");
    let d = usize_to_string(step);
    push_str(&mut r, d.as_str());
    r
}

/// The mind after an answer (or a skip) to one question: the answer replaces
/// any earlier one for that question, the answers stay in step order, and an
/// answer (never a skip) becomes a belief of yours under the question's id.
pub open spec fn answered(
    m: MindMetaV,
    step: int,
    answer: Seq<char>,
    skipped: bool,
    now_iso: Seq<char>,
) -> MindMetaV {
    let answers = sort_by_step(
        without_step(m.answers, step).push(
            AnswerV { step, question: script_v()[step], answer: trim(answer), at: now_iso, skipped },
        ),
    );
    let kept = without_id(m.beliefs, answer_belief_id(step));
    MindMetaV {
        answers,
        beliefs: if skipped {
            kept
        } else {
            kept.push(stated_v(answer_belief_id(step), trim(answer), "you"@, now_iso))
        },
        interview_done: answers.len() >= SCRIPT_LEN,
        ..m
    }
}

/// Answer one question, or skip it, on the mind `read` gave back. Either way
/// the bot stops asking, and either way you can see afterwards which it was.
pub fn answer_question(
    read: Result<MindMeta, String>,
    step: usize,
    answer: &str,
    skipped: bool,
    now_iso: &str,
) -> (r: Result<MindMeta, String>)
    ensures
        step >= SCRIPT_LEN ==> (r matches Err(e) && e@ == "There is no such question."@),
        step < SCRIPT_LEN && !skipped && trim(answer@).len() == 0 ==> (r matches Err(e) && e@
            == "Say something, or skip it."@),
        step < SCRIPT_LEN && (skipped || trim(answer@).len() > 0) ==> match read {
            Err(e) => (r matches Err(e2) && e2@ == e@),
            Ok(m) => (r matches Ok(m2) && m2@ == answered(m@, step as int, answer@, skipped, now_iso@)),
        },
{
    if step >= SCRIPT_LEN {
        return Err(copy_str("There is no such question."));
    }
    if !skipped && is_blank(answer) {
        return Err(copy_str("Say something, or skip it."));
    }
    let mut meta = match read {
        Ok(m) => m,
        Err(e) => {
            return Err(e);
        },
    };
    let ghost m0 = meta@;
    let mut answers = answers_without_step(&meta.answers, step);
    let entry = Answer {
        step,
        question: copy_str(script_question(step)),
        answer: trim_str(answer),
        at: copy_str(now_iso),
        skipped,
    };
    let ghost entry_v = entry@;
    let ghost pre = answers_view(answers@);
    answers.push(entry);
    assert(answers_view(answers@) =~= pre.push(entry_v));
    let answers = sort_answers(answers);
    let mut beliefs = beliefs_without_id(&meta.beliefs, answer_id(step).as_str());
    if !skipped {
        let b = stated(answer_id(step), trim_str(answer), "you", now_iso);
        let ghost before = beliefs@;
        beliefs.push(b);
        assert(beliefs_view(beliefs@) =~= beliefs_view(before).push(b@));
    }
    meta.interview_done = answers.len() >= SCRIPT_LEN;
    meta.answers = answers;
    meta.beliefs = beliefs;
    assert(meta@ =~= answered(m0, step as int, answer@, skipped, now_iso@));
    Ok(meta)
}

/// The ids of the beliefs an interview's answers became.
pub open spec fn interview_belief_ids(answers: Seq<AnswerV>) -> Seq<Seq<char>> {
    answers.map_values(|a: AnswerV| answer_belief_id(a.step))
}

/// The beliefs whose id is not among `ids`.
pub open spec fn without_ids(s: Seq<BeliefV>, ids: Seq<Seq<char>>) -> Seq<BeliefV>
    decreases s.len(),
{
    if s.len() == 0 {
        seq![]
    } else if ids.contains(s.last().id) {
        without_ids(s.drop_last(), ids)
    } else {
        without_ids(s.drop_last(), ids).push(s.last())
    }
}

/// The mind with the interview started again: its answers, and the beliefs
/// the answers became, are gone; anything learned another way stays.
pub open spec fn interview_reset(m: MindMetaV) -> MindMetaV {
    MindMetaV {
        answers: seq![],
        interview_done: false,
        beliefs: without_ids(m.beliefs, interview_belief_ids(m.answers)),
        ..m
    }
}

/// Start the script again, dropping what the last run took.
pub fn reset_interview(meta: &mut MindMeta)
    ensures
        final(meta)@ == interview_reset(old(meta)@),
{
    let ghost m0 = meta@;
    let mut ids: Vec<String> = Vec::new();
    let mut i: usize = 0;
    while i < meta.answers.len()
        invariant
            i <= meta.answers.len(),
            m0 == meta@,
            str_views(ids@) == interview_belief_ids(m0.answers).take(i as int),
        decreases meta.answers.len() - i,
    {
        let id = answer_id(meta.answers[i].step);
        let ghost before = ids@;
        ids.push(id);
        i = i + 1;
        assert(str_views(ids@) =~= str_views(before).push(id@));
        assert(interview_belief_ids(m0.answers).take(i as int) =~= interview_belief_ids(m0.answers).take(
            i - 1,
        ).push(answer_belief_id(m0.answers[i - 1].step)));
    }
    assert(interview_belief_ids(m0.answers).take(i as int) =~= interview_belief_ids(m0.answers));
    let ghost s = m0.beliefs;
    let ghost idv = str_views(ids@);
    let mut kept: Vec<Belief> = Vec::new();
    let mut j: usize = 0;
    while j < meta.beliefs.len()
        invariant
            j <= meta.beliefs.len(),
            m0 == meta@,
            s == m0.beliefs,
            idv == str_views(ids@),
            beliefs_view(kept@) == without_ids(s.take(j as int), idv),
        decreases meta.beliefs.len() - j,
    {
        assert(s.take(j + 1).drop_last() =~= s.take(j as int));
        assert(s.take(j + 1).last() == meta.beliefs@[j as int]@);
        if !crate::text::is_taken(&ids, meta.beliefs[j].id.as_str()) {
            let b = copy_belief(&meta.beliefs[j]);
            let ghost before = kept@;
            kept.push(b);
            assert(beliefs_view(kept@) =~= beliefs_view(before).push(b@));
        }
        j = j + 1;
    }
    assert(s.take(meta.beliefs.len() as int) =~= s);
    meta.beliefs = kept;
    meta.answers = Vec::new();
    meta.interview_done = false;
    assert(answers_view(meta.answers@) =~= Seq::<AnswerV>::empty());
    assert(meta@ =~= interview_reset(m0));
}


/// One line of what it knows, plus whether ageing would offer to drop it.
#[derive(Debug)]
pub struct BeliefView {
    pub belief: Belief,
    pub stale: bool,
}

pub ghost struct BeliefViewV {
    pub belief: BeliefV,
    pub stale: bool,
}

impl View for BeliefView {
    type V = BeliefViewV;

    open spec fn view(&self) -> BeliefViewV {
        BeliefViewV { belief: self.belief@, stale: self.stale }
    }
}

pub open spec fn belief_views_view(v: Seq<BeliefView>) -> Seq<BeliefViewV> {
    v.map_values(|b: BeliefView| b@)
}

/// What you said first, then what you corrected, then what it worked out.
pub open spec fn source_rank(source: Seq<char>) -> int {
    if source == "you"@ {
        0
    } else if source == "corrected"@ {
        1
    } else {
        2
    }
}

/// `a` may be listed before `b`: a lower rank, or the same rank and an id
/// that does not sort after `b`'s.
pub open spec fn listed_no_later(a: BeliefV, b: BeliefV) -> bool {
    source_rank(a.source) < source_rank(b.source) || (source_rank(a.source) == source_rank(b.source)
        && !str_lt(b.id, a.id))
}

pub open spec fn insert_listed(s: Seq<BeliefViewV>, x: BeliefViewV) -> Seq<BeliefViewV>
    decreases s.len(),
{
    if s.len() == 0 {
        seq![x]
    } else if listed_no_later(s.last().belief, x.belief) {
        s.push(x)
    } else {
        insert_listed(s.drop_last(), x).push(s.last())
    }
}

/// What a stable sort by (rank, id) gives.
pub open spec fn sort_listed(s: Seq<BeliefViewV>) -> Seq<BeliefViewV>
    decreases s.len(),
{
    if s.len() == 0 {
        s
    } else {
        insert_listed(sort_listed(s.drop_last()), s.last())
    }
}

pub open spec fn with_staleness(bs: Seq<BeliefV>, now_ms: int) -> Seq<BeliefViewV> {
    bs.map_values(|b: BeliefV| BeliefViewV { belief: b, stale: stale_spec(b, now_ms) })
}

proof fn lemma_insert_listed_at(s: Seq<BeliefViewV>, x: BeliefViewV, p: int)
    requires
        0 <= p <= s.len(),
        forall|j: int| p <= j < s.len() ==> !listed_no_later(#[trigger] s[j].belief, x.belief),
        p > 0 ==> listed_no_later(s[p - 1].belief, x.belief),
    ensures
        insert_listed(s, x) == s.take(p).push(x) + s.skip(p),
    decreases s.len(),
{
    if s.len() == 0 {
        assert(s.take(p).push(x) + s.skip(p) =~= seq![x]);
    } else if p == s.len() {
        assert(s.take(p).push(x) + s.skip(p) =~= s.push(x));
    } else {
        let d = s.drop_last();
        assert(s.last() == s[s.len() - 1]);
        lemma_insert_listed_at(d, x, p);
        assert(d.take(p) =~= s.take(p));
        assert(d.skip(p).push(s.last()) =~= s.skip(p));
        assert((d.take(p).push(x) + d.skip(p)).push(s.last()) =~= s.take(p).push(x) + s.skip(p));
    }
}

fn rank_of(source: &str) -> (r: u8)
    ensures
        r as int == source_rank(source@),
{
    if str_eq(source, "you") {
        0
    } else if str_eq(source, "corrected") {
        1
    } else {
        2
    }
}

fn listed_no_later_exec(a: &Belief, b: &Belief) -> (r: bool)
    ensures
        r == listed_no_later(a@, b@),
{
    let ra = rank_of(a.source.as_str());
    let rb = rank_of(b.source.as_str());
    if ra != rb {
        ra < rb
    } else {
        let ia = chars_of(a.id.as_str());
        let ib = chars_of(b.id.as_str());
        !crate::order::str_lt_exec(&ib, &ia)
    }
}

fn insert_view(v: &mut Vec<BeliefView>, x: BeliefView)
    ensures
        belief_views_view(final(v)@) == insert_listed(belief_views_view(old(v)@), x@),
{
    let ghost s = belief_views_view(v@);
    let mut p = v.len();
    while p > 0 && !listed_no_later_exec(&v[p - 1].belief, &x.belief)
        invariant
            p <= v.len(),
            s == belief_views_view(v@),
            forall|j: int| p <= j < v.len() ==> !listed_no_later(#[trigger] s[j].belief, x@.belief),
        decreases p,
    {
        assert(s[p - 1] == v@[p - 1]@);
        p = p - 1;
    }
    proof {
        if p > 0 {
            assert(s[p - 1] == v@[p - 1]@);
        }
        lemma_insert_listed_at(s, x@, p as int);
    }
    let ghost xv = x@;
    v.insert(p, x);
    assert(belief_views_view(v@) =~= s.take(p as int).push(xv) + s.skip(p as int));
}

/// Everything this bot knows about you, in the order it is shown, each line
/// marked with whether ageing would offer to drop it.
pub fn beliefs(meta: &MindMeta, now_ms: i64) -> (r: Vec<BeliefView>)
    ensures
        belief_views_view(r@) == sort_listed(with_staleness(meta@.beliefs, now_ms as int)),
{
    let ghost s = with_staleness(meta@.beliefs, now_ms as int);
    let mut r: Vec<BeliefView> = Vec::new();
    let mut i: usize = 0;
    while i < meta.beliefs.len()
        invariant
            i <= meta.beliefs.len(),
            s == with_staleness(meta@.beliefs, now_ms as int),
            belief_views_view(r@) == sort_listed(s.take(i as int)),
        decreases meta.beliefs.len() - i,
    {
        assert(s.take(i + 1).drop_last() =~= s.take(i as int));
        assert(s.take(i + 1).last() == s[i as int]);
        let st = stale(&meta.beliefs[i], now_ms);
        let x = BeliefView { belief: copy_belief(&meta.beliefs[i]), stale: st };
        assert(x@ == s[i as int]);
        insert_view(&mut r, x);
        i = i + 1;
    }
    assert(s.take(meta.beliefs.len() as int) =~= s);
    r
}

pub open spec fn belief_ids(s: Seq<BeliefV>) -> Seq<Seq<char>> {
    s.map_values(|b: BeliefV| b.id)
}

/// The mind with one more belief of yours, under the first free `b<n>` id.
pub open spec fn remembered(m: MindMetaV, text: Seq<char>, now_iso: Seq<char>) -> MindMetaV {
    let id = crate::text::numbered("b"@, crate::text::next_free(belief_ids(m.beliefs), "b"@));
    MindMetaV { beliefs: m.beliefs.push(stated_v(id, trim(text), "you"@, now_iso)), ..m }
}

/// Remember something you said, on the mind `read` gave back.
pub fn add_belief(read: Result<MindMeta, String>, text: &str, now_iso: &str) -> (r: Result<
    MindMeta,
    String,
>)
    requires
        read matches Ok(m) ==> m.beliefs.len() < usize::MAX / 2,
    ensures
        trim(text@).len() == 0 ==> (r matches Err(e) && e@ == "Nothing to remember."@),
        trim(text@).len() > 0 ==> match read {
            Err(e) => (r matches Err(e2) && e2@ == e@),
            Ok(m) => (r matches Ok(m2) && m2@ == remembered(m@, text@, now_iso@)),
        },
{
    if is_blank(text) {
        return Err(copy_str("Nothing to remember."));
    }
    let mut meta = match read {
        Ok(m) => m,
        Err(e) => {
            return Err(e);
        },
    };
    let ghost m0 = meta@;
    let mut ids: Vec<String> = Vec::new();
    let mut i: usize = 0;
    while i < meta.beliefs.len()
        invariant
            i <= meta.beliefs.len(),
            m0 == meta@,
            str_views(ids@) == belief_ids(m0.beliefs).take(i as int),
        decreases meta.beliefs.len() - i,
    {
        let id = copy_str(meta.beliefs[i].id.as_str());
        let ghost before = ids@;
        ids.push(id);
        i = i + 1;
        assert(str_views(ids@) =~= str_views(before).push(id@));
        assert(belief_ids(m0.beliefs).take(i as int) =~= belief_ids(m0.beliefs).take(i - 1).push(
            m0.beliefs[i - 1].id,
        ));
    }
    assert(belief_ids(m0.beliefs).take(i as int) =~= belief_ids(m0.beliefs));
    let n = crate::text::first_free_number("b", &ids);
    let mut id = copy_str("b");
    let digits = usize_to_string(n);
    push_str(&mut id, digits.as_str());
    let b = stated(id, trim_str(text), "you", now_iso);
    let ghost before = meta.beliefs@;
    meta.beliefs.push(b);
    assert(beliefs_view(meta.beliefs@) =~= beliefs_view(before).push(b@));
    assert(meta@ =~= remembered(m0, text@, now_iso@));
    Ok(meta)
}

/// `k` is where the first belief with this id stands.
pub open spec fn is_first_with_id(s: Seq<BeliefV>, id: Seq<char>, k: int) -> bool {
    &&& 0 <= k < s.len()
    &&& s[k].id == id
    &&& forall|j: int| 0 <= j < k ==> #[trigger] s[j].id != id
}

pub open spec fn has_id(s: Seq<BeliefV>, id: Seq<char>) -> bool {
    exists|k: int| 0 <= k < s.len() && #[trigger] s[k].id == id
}

fn find_belief(v: &Vec<Belief>, id: &str) -> (r: Option<usize>)
    ensures
        match r {
            Some(k) => is_first_with_id(beliefs_view(v@), id@, k as int),
            None => !has_id(beliefs_view(v@), id@),
        },
{
    let ghost s = beliefs_view(v@);
    let mut i: usize = 0;
    while i < v.len()
        invariant
            i <= v.len(),
            s == beliefs_view(v@),
            forall|j: int| 0 <= j < i ==> #[trigger] s[j].id != id@,
        decreases v.len() - i,
    {
        assert(s[i as int] == v@[i as int]@);
        if str_eq(v[i].id.as_str(), id) {
            return Some(i);
        }
        i = i + 1;
    }
    None
}

/// A belief after you corrected it: the first text it held is kept in `was`.
pub open spec fn corrected_v(b: BeliefV, text: Seq<char>) -> BeliefV {
    BeliefV {
        was: if b.was.len() == 0 {
            b.text
        } else {
            b.was
        },
        text: trim(text),
        source: "corrected"@,
        ..b
    }
}

/// Correct a line. The old text is kept rather than overwritten, so "why did
/// you think that" still has an answer.
pub fn correct_belief(read: Result<MindMeta, String>, id: &str, text: &str) -> (r: Result<
    MindMeta,
    String,
>)
    ensures
        trim(text@).len() == 0 ==> (r matches Err(e) && e@ == "Say what it should be instead."@),
        trim(text@).len() > 0 ==> match read {
            Err(e) => (r matches Err(e2) && e2@ == e@),
            Ok(m) => if !has_id(m@.beliefs, id@) {
                (r matches Err(e) && e@ == "It does not believe that any more."@)
            } else {
                (r matches Ok(m2) && exists|k: int|
                    is_first_with_id(m@.beliefs, id@, k) && #[trigger] m2@.beliefs == m@.beliefs.update(
                        k,
                        corrected_v(m@.beliefs[k], text@),
                    ) && m2@ == (MindMetaV { beliefs: m2@.beliefs, ..m@ }))
            },
        },
{
    if is_blank(text) {
        return Err(copy_str("Say what it should be instead."));
    }
    let mut meta = match read {
        Ok(m) => m,
        Err(e) => {
            return Err(e);
        },
    };
    let ghost m0 = meta@;
    match find_belief(&meta.beliefs, id) {
        None => Err(copy_str("It does not believe that any more.")),
        Some(k) => {
            let old_b = &meta.beliefs[k];
            let was = if chars_of(old_b.was.as_str()).len() == 0 {
                copy_str(old_b.text.as_str())
            } else {
                copy_str(old_b.was.as_str())
            };
            let b = Belief {
                id: copy_str(old_b.id.as_str()),
                text: trim_str(text),
                source: copy_str("corrected"),
                was,
                created_at: copy_str(old_b.created_at.as_str()),
                last_used: copy_str(old_b.last_used.as_str()),
                uses: old_b.uses,
                pinned: old_b.pinned,
            };
            assert(b@ == corrected_v(m0.beliefs[k as int], text@));
            meta.beliefs.set(k, b);
            assert(beliefs_view(meta.beliefs@) =~= m0.beliefs.update(
                k as int,
                corrected_v(m0.beliefs[k as int], text@),
            ));
            Ok(meta)
        },
    }
}

/// Pin or unpin the first belief with this id; nothing changes if there is
/// none.
pub fn pin_belief(meta: &mut MindMeta, id: &str, pinned: bool)
    ensures
        !has_id(old(meta)@.beliefs, id@) ==> final(meta)@ == old(meta)@,
        has_id(old(meta)@.beliefs, id@) ==> exists|k: int|
            is_first_with_id(old(meta)@.beliefs, id@, k) && #[trigger] final(meta)@.beliefs
                == old(meta)@.beliefs.update(k, BeliefV { pinned, ..old(meta)@.beliefs[k] })
                && final(meta)@ == (MindMetaV { beliefs: final(meta)@.beliefs, ..old(meta)@ }),
{
    let ghost m0 = meta@;
    if let Some(k) = find_belief(&meta.beliefs, id) {
        let mut b = copy_belief(&meta.beliefs[k]);
        b.pinned = pinned;
        meta.beliefs.set(k, b);
        assert(beliefs_view(meta.beliefs@) =~= m0.beliefs.update(
            k as int,
            BeliefV { pinned, ..m0.beliefs[k as int] },
        ));
    }
}

/// Forget every belief with this id.
pub fn drop_belief(meta: &mut MindMeta, id: &str)
    ensures
        final(meta)@ == (MindMetaV { beliefs: without_id(old(meta)@.beliefs, id@), ..old(meta)@ }),
{
    let kept = beliefs_without_id(&meta.beliefs, id);
    meta.beliefs = kept;
}

/// The beliefs ageing would not offer to drop.
pub open spec fn not_stale(s: Seq<BeliefV>, now_ms: int) -> Seq<BeliefV>
    decreases s.len(),
{
    if s.len() == 0 {
        seq![]
    } else if stale_spec(s.last(), now_ms) {
        not_stale(s.drop_last(), now_ms)
    } else {
        not_stale(s.drop_last(), now_ms).push(s.last())
    }
}

proof fn lemma_not_stale_len(s: Seq<BeliefV>, now_ms: int)
    ensures
        not_stale(s, now_ms).len() <= s.len(),
    decreases s.len(),
{
    if s.len() > 0 {
        lemma_not_stale_len(s.drop_last(), now_ms);
    }
}

/// Drop what ageing offers to drop, and say how many went.
pub fn drop_stale(meta: &mut MindMeta, now_ms: i64) -> (gone: usize)
    ensures
        final(meta)@ == (MindMetaV { beliefs: not_stale(old(meta)@.beliefs, now_ms as int), ..old(meta)@ }),
        gone == old(meta)@.beliefs.len() - final(meta)@.beliefs.len(),
{
    let ghost s = meta@.beliefs;
    let mut kept: Vec<Belief> = Vec::new();
    let mut i: usize = 0;
    while i < meta.beliefs.len()
        invariant
            i <= meta.beliefs.len(),
            s == meta@.beliefs,
            beliefs_view(kept@) == not_stale(s.take(i as int), now_ms as int),
        decreases meta.beliefs.len() - i,
    {
        assert(s.take(i + 1).drop_last() =~= s.take(i as int));
        assert(s.take(i + 1).last() == meta.beliefs@[i as int]@);
        if !stale(&meta.beliefs[i], now_ms) {
            let b = copy_belief(&meta.beliefs[i]);
            let ghost before = kept@;
            kept.push(b);
            assert(beliefs_view(kept@) =~= beliefs_view(before).push(b@));
        }
        i = i + 1;
    }
    assert(s.take(meta.beliefs.len() as int) =~= s);
    proof {
        lemma_not_stale_len(s, now_ms as int);
    }
    let before = meta.beliefs.len();
    let after = kept.len();
    meta.beliefs = kept;
    before - after
}

/// The decisions without any about this tool.
pub open spec fn decisions_without(s: Seq<ToolDecisionV>, id: Seq<char>) -> Seq<ToolDecisionV>
    decreases s.len(),
{
    if s.len() == 0 {
        seq![]
    } else if s.last().id == id {
        decisions_without(s.drop_last(), id)
    } else {
        decisions_without(s.drop_last(), id).push(s.last())
    }
}

/// The mind with a decision about a tool; a later decision replaces an
/// earlier one.
pub open spec fn decided_tool(
    m: MindMetaV,
    id: Seq<char>,
    response: Seq<char>,
    now_iso: Seq<char>,
) -> MindMetaV {
    MindMetaV {
        tools: decisions_without(m.tools, id).push(ToolDecisionV { id, response, at: now_iso }),
        ..m
    }
}

/// Record that you added or declined a tool.
pub fn record_tool(read: Result<MindMeta, String>, id: &str, response: &str, now_iso: &str) -> (r:
    Result<MindMeta, String>)
    ensures
        response@ != "added"@ && response@ != "declined"@ ==> (r matches Err(e) && e@
            == "A tool is either added or declined."@),
        response@ == "added"@ || response@ == "declined"@ ==> match read {
            Err(e) => (r matches Err(e2) && e2@ == e@),
            Ok(m) => (r matches Ok(m2) && m2@ == decided_tool(m@, id@, response@, now_iso@)),
        },
{
    if !str_eq(response, "added") && !str_eq(response, "declined") {
        return Err(copy_str("A tool is either added or declined."));
    }
    let mut meta = match read {
        Ok(m) => m,
        Err(e) => {
            return Err(e);
        },
    };
    let ghost m0 = meta@;
    let ghost s = m0.tools;
    let mut kept: Vec<ToolDecision> = Vec::new();
    let mut i: usize = 0;
    while i < meta.tools.len()
        invariant
            i <= meta.tools.len(),
            m0 == meta@,
            s == m0.tools,
            decisions_view(kept@) == decisions_without(s.take(i as int), id@),
        decreases meta.tools.len() - i,
    {
        assert(s.take(i + 1).drop_last() =~= s.take(i as int));
        assert(s.take(i + 1).last() == meta.tools@[i as int]@);
        if !str_eq(meta.tools[i].id.as_str(), id) {
            let d = ToolDecision {
                id: copy_str(meta.tools[i].id.as_str()),
                response: copy_str(meta.tools[i].response.as_str()),
                at: copy_str(meta.tools[i].at.as_str()),
            };
            let ghost before = kept@;
            kept.push(d);
            assert(decisions_view(kept@) =~= decisions_view(before).push(d@));
        }
        i = i + 1;
    }
    assert(s.take(meta.tools.len() as int) =~= s);
    let d = ToolDecision { id: copy_str(id), response: copy_str(response), at: copy_str(now_iso) };
    let ghost before = kept@;
    kept.push(d);
    assert(decisions_view(kept@) =~= decisions_view(before).push(d@));
    meta.tools = kept;
    assert(meta@ =~= decided_tool(m0, id@, response@, now_iso@));
    Ok(meta)
}

/// A week, in milliseconds: how long "not now" lasts.
pub const WEEK_MS: i64 = 604_800_000;

/// The answers without any to this suggestion.
pub open spec fn replies_without(s: Seq<SuggestionAnswerV>, id: Seq<char>) -> Seq<SuggestionAnswerV>
    decreases s.len(),
{
    if s.len() == 0 {
        seq![]
    } else if s.last().id == id {
        replies_without(s.drop_last(), id)
    } else {
        replies_without(s.drop_last(), id).push(s.last())
    }
}

/// The id of the belief a "wrong" with a reason becomes.
pub open spec fn refusal_belief_id(id: Seq<char>) -> Seq<char> {
    "w-"@ + id
}

/// The mind after you answered a suggestion: the answer replaces any earlier
/// one; "not now" lasts a week; "wrong" with a reason becomes a correction it
/// holds.
pub open spec fn replied(
    m: MindMetaV,
    id: Seq<char>,
    response: Seq<char>,
    why: Seq<char>,
    now_ms: int,
    now_iso: Seq<char>,
) -> MindMetaV {
    MindMetaV {
        suggestions: replies_without(m.suggestions, id).push(
            SuggestionAnswerV {
                id,
                response,
                why: trim(why),
                at: now_iso,
                until: if response == "snoozed"@ {
                    now_ms + WEEK_MS
                } else {
                    0
                },
            },
        ),
        beliefs: if response == "wrong"@ && trim(why).len() > 0 {
            without_id(m.beliefs, refusal_belief_id(id)).push(
                stated_v(refusal_belief_id(id), trim(why), "corrected"@, now_iso),
            )
        } else {
            m.beliefs
        },
        ..m
    }
}

pub open spec fn is_reply(response: Seq<char>) -> bool {
    response == "done"@ || response == "snoozed"@ || response == "wrong"@
}

/// Answer a suggestion: done, not now, or wrong.
pub fn answer_suggestion(
    read: Result<MindMeta, String>,
    id: &str,
    response: &str,
    why: &str,
    now_ms: i64,
    now_iso: &str,
) -> (r: Result<MindMeta, String>)
    requires
        read is Ok && response@ == "snoozed"@ ==> now_ms + WEEK_MS <= i64::MAX,
    ensures
        !is_reply(response@) ==> (r matches Err(e) && e@
            == "A suggestion is done, put off, or wrong."@),
        is_reply(response@) ==> match read {
            Err(e) => (r matches Err(e2) && e2@ == e@),
            Ok(m) => (r matches Ok(m2) && m2@ == replied(
                m@,
                id@,
                response@,
                why@,
                now_ms as int,
                now_iso@,
            )),
        },
{
    if !str_eq(response, "done") && !str_eq(response, "snoozed") && !str_eq(response, "wrong") {
        return Err(copy_str("A suggestion is done, put off, or wrong."));
    }
    let mut meta = match read {
        Ok(m) => m,
        Err(e) => {
            return Err(e);
        },
    };
    let ghost m0 = meta@;
    let ghost s = m0.suggestions;
    let mut kept: Vec<SuggestionAnswer> = Vec::new();
    let mut i: usize = 0;
    while i < meta.suggestions.len()
        invariant
            i <= meta.suggestions.len(),
            m0 == meta@,
            s == m0.suggestions,
            replies_view(kept@) == replies_without(s.take(i as int), id@),
        decreases meta.suggestions.len() - i,
    {
        assert(s.take(i + 1).drop_last() =~= s.take(i as int));
        assert(s.take(i + 1).last() == meta.suggestions@[i as int]@);
        if !str_eq(meta.suggestions[i].id.as_str(), id) {
            let a = SuggestionAnswer {
                id: copy_str(meta.suggestions[i].id.as_str()),
                response: copy_str(meta.suggestions[i].response.as_str()),
                why: copy_str(meta.suggestions[i].why.as_str()),
                at: copy_str(meta.suggestions[i].at.as_str()),
                until: meta.suggestions[i].until,
            };
            let ghost before = kept@;
            kept.push(a);
            assert(replies_view(kept@) =~= replies_view(before).push(a@));
        }
        i = i + 1;
    }
    assert(s.take(meta.suggestions.len() as int) =~= s);
    let snoozed = str_eq(response, "snoozed");
    let reply = SuggestionAnswer {
        id: copy_str(id),
        response: copy_str(response),
        why: trim_str(why),
        at: copy_str(now_iso),
        until: if snoozed {
            now_ms + WEEK_MS
        } else {
            0
        },
    };
    let ghost before = kept@;
    kept.push(reply);
    assert(replies_view(kept@) =~= replies_view(before).push(reply@));
    meta.suggestions = kept;
    if str_eq(response, "wrong") && !is_blank(why) {
        let mut bid = copy_str("w-");
        push_str(&mut bid, id);
        let mut beliefs = beliefs_without_id(&meta.beliefs, bid.as_str());
        let b = stated(bid, trim_str(why), "corrected", now_iso);
        let ghost before_b = beliefs@;
        beliefs.push(b);
        assert(beliefs_view(beliefs@) =~= beliefs_view(before_b).push(b@));
        meta.beliefs = beliefs;
    }
    assert(meta@ =~= replied(m0, id@, response@, why@, now_ms as int, now_iso@));
    Ok(meta)
}

/// What reading the mind file gave: the mind and the notes below it, no
/// file at all, or why the file could not be read. A missing file is an
/// empty mind with no notes; a file that will not parse is an error, never
/// an empty mind that the next write would put over it.
pub fn settle_read(path: &str, node_id: i64, found: Result<Option<(MindMeta, String)>, String>) -> (r: Result<
    (MindMeta, String),
    String,
>)
    ensures
        match found {
            Ok(Some((m, body))) => (r matches Ok((m2, b2)) && m2@ == (MindMetaV { node_id: node_id as int, ..m@ })
                && b2 == body),
            Ok(None) => (r matches Ok((m2, b2)) && m2@ == MindMetaV {
                node_id: node_id as int,
                interview_done: false,
                answers: seq![],
                beliefs: seq![],
                tools: seq![],
                suggestions: seq![],
            } && b2@.len() == 0),
            Err(e) => (r matches Err(e2) && e2@ == path@
                + " could not be read. Nothing it knows is being shown, and nothing will be written over it until this is fixed: "@
                + e@),
        },
{
    match found {
        Ok(Some((mut m, body))) => {
            m.node_id = node_id;
            Ok((m, body))
        },
        Ok(None) => {
            let m = MindMeta {
                node_id,
                interview_done: false,
                answers: Vec::new(),
                beliefs: Vec::new(),
                tools: Vec::new(),
                suggestions: Vec::new(),
            };
            assert(answers_view(m.answers@) =~= seq![]);
            assert(beliefs_view(m.beliefs@) =~= seq![]);
            assert(decisions_view(m.tools@) =~= seq![]);
            assert(replies_view(m.suggestions@) =~= seq![]);
            assert(m@ =~= MindMetaV {
                node_id: node_id as int,
                interview_done: false,
                answers: seq![],
                beliefs: seq![],
                tools: seq![],
                suggestions: seq![],
            });
            Ok((m, String::new()))
        },
        Err(e) => {
            let mut msg = copy_str(path);
            push_str(
                &mut msg,
                " could not be read. Nothing it knows is being shown, and nothing will be written over it until this is fixed: ",
            );
            push_str(&mut msg, e.as_str());
            Err(msg)
        },
    }
}


// ---------------------------------------------------------------------------
// What holds across the operations
// ---------------------------------------------------------------------------

proof fn lemma_replies_without_has_none(s: Seq<SuggestionAnswerV>, id: Seq<char>)
    ensures
        forall|k: int| 0 <= k < replies_without(s, id).len() ==> #[trigger] replies_without(s, id)[k].id != id,
    decreases s.len(),
{
    if s.len() > 0 {
        lemma_replies_without_has_none(s.drop_last(), id);
        let r = replies_without(s.drop_last(), id);
        assert forall|k: int| 0 <= k < replies_without(s, id).len() implies #[trigger] replies_without(s, id)[k].id != id by {
            if k < r.len() {
                assert(replies_without(s, id)[k] == r[k]);
            }
        }
    }
}

proof fn lemma_reply_for_last(s: Seq<SuggestionAnswerV>, x: SuggestionAnswerV)
    requires
        forall|k: int| 0 <= k < s.len() ==> #[trigger] s[k].id != x.id,
    ensures
        reply_for(s.push(x), x.id) == Some(x),
    decreases s.len(),
{
    if s.len() == 0 {
    } else {
        assert(s.push(x)[0] == s[0]);
        assert(s.push(x).drop_first() =~= s.drop_first().push(x));
        lemma_reply_for_last(s.drop_first(), x);
    }
}

/// "Wrong" is forever and "not now" is a week: once a suggestion has been
/// answered, it is never shown again if the answer was "wrong", shown again
/// from a week after a "not now", and shown whenever it comes back after
/// "done".
pub proof fn law_wrong_is_forever_and_not_now_is_a_week(
    m: MindMetaV,
    id: Seq<char>,
    response: Seq<char>,
    why: Seq<char>,
    now_ms: int,
    now_iso: Seq<char>,
    later_ms: int,
)
    requires
        is_reply(response),
    ensures
        ({
            let after = replied(m, id, response, why, now_ms, now_iso).suggestions;
            &&& response == "wrong"@ ==> !still_shown(after, id, later_ms)
            &&& response == "snoozed"@ ==> (still_shown(after, id, later_ms) <==> later_ms >= now_ms
                + WEEK_MS)
            &&& response == "done"@ ==> still_shown(after, id, later_ms)
        }),
{
    lemma_replies_without_has_none(m.suggestions, id);
    let x = replied(m, id, response, why, now_ms, now_iso).suggestions.last();
    lemma_reply_for_last(replies_without(m.suggestions, id), x);
    {
        reveal_strlit("wrong");
        reveal_strlit("snoozed");
        reveal_strlit("done");
        assert("wrong"@[0] != "snoozed"@[0]);
        assert("done"@[0] != "snoozed"@[0]);
        assert("done"@[0] != "wrong"@[0]);
    }
}

/// Ageing never touches what you said: nothing you said, nothing you
/// corrected and nothing pinned is ever stale, whatever its age.
pub proof fn law_ageing_never_touches_what_you_said(b: BeliefV, now_ms: int)
    requires
        b.source == "you"@ || b.source == "corrected"@ || b.pinned,
    ensures
        !stale_spec(b, now_ms),
{
}

proof fn lemma_not_stale_keeps(s: Seq<BeliefV>, now_ms: int, k: int)
    requires
        0 <= k < s.len(),
        !stale_spec(s[k], now_ms),
    ensures
        not_stale(s, now_ms).contains(s[k]),
    decreases s.len(),
{
    if k == s.len() - 1 {
        assert(not_stale(s, now_ms).last() == s[k]);
    } else {
        lemma_not_stale_keeps(s.drop_last(), now_ms, k);
        let r = not_stale(s.drop_last(), now_ms);
        let j = choose|j: int| 0 <= j < r.len() && r[j] == s[k];
        if !stale_spec(s.last(), now_ms) {
            assert(not_stale(s, now_ms)[j] == s[k]);
        }
    }
}

/// Dropping what ageing offers never drops anything you said.
pub proof fn law_dropping_stale_keeps_what_you_said(s: Seq<BeliefV>, now_ms: int, k: int)
    requires
        0 <= k < s.len(),
        s[k].source == "you"@ || s[k].source == "corrected"@ || s[k].pinned,
    ensures
        not_stale(s, now_ms).contains(s[k]),
{
    lemma_not_stale_keeps(s, now_ms, k);
}

/// A belief it leans on is kept longer: if a belief used `more` times is
/// stale, the same belief used fewer times is stale too.
pub proof fn law_a_belief_it_leans_on_is_kept_longer(b: BeliefV, fewer: int, more: int, now_ms: int)
    requires
        fewer <= more,
        stale_spec(BeliefV { uses: more, ..b }, now_ms),
    ensures
        stale_spec(BeliefV { uses: fewer, ..b }, now_ms),
{
    assert(allowance(fewer) <= allowance(more));
}

/// An interview with every question answered or skipped is never nagged
/// about: no suggestion with the id `interview` comes out.
pub proof fn law_a_settled_interview_is_not_nagged_about(
    goal: Seq<char>,
    every: Seq<char>,
    work: Seq<WorkItemV>,
    answered: int,
    skipped: int,
    offers: Seq<ToolOfferV>,
    decided: Seq<ToolDecisionV>,
    k: int,
)
    requires
        answered + skipped >= SCRIPT_LEN,
        0 <= k < derive_spec(goal, every, work, answered, skipped, offers, decided).len(),
    ensures
        derive_spec(goal, every, work, answered, skipped, offers, decided)[k].id != "interview"@,
{
    let out = derive_spec(goal, every, work, answered, skipped, offers, decided);
    reveal_strlit("interview");
    reveal_strlit("heartbeat");
    reveal_strlit("plan");
    reveal_strlit("blocked");
    reveal_strlit("finished");
    reveal_strlit("tool:");
    assert(interview_nudge(answered, skipped) =~= seq![]);
    let id = out[k].id;
    assert(id == "heartbeat"@ || id == "plan"@ || id == "blocked"@ || id == "finished"@ || (id.len()
        >= 5 && id[0] == 't'));
    assert("heartbeat"@[0] != "interview"@[0]);
    assert("plan"@[0] != "interview"@[0]);
    assert("blocked"@[0] != "interview"@[0]);
    assert("finished"@[0] != "interview"@[0]);
}

/// Correcting a line keeps what it first said: a second correction does not
/// overwrite the text the first one kept.
pub proof fn law_correcting_keeps_what_it_used_to_say(b: BeliefV, first: Seq<char>, second: Seq<char>)
    requires
        b.was.len() > 0 || b.text.len() > 0,
    ensures
        corrected_v(corrected_v(b, first), second).was == (if b.was.len() == 0 {
            b.text
        } else {
            b.was
        }),
{
}

proof fn lemma_without_id_has_none(s: Seq<BeliefV>, id: Seq<char>)
    ensures
        forall|k: int| 0 <= k < without_id(s, id).len() ==> #[trigger] without_id(s, id)[k].id != id,
    decreases s.len(),
{
    if s.len() > 0 {
        lemma_without_id_has_none(s.drop_last(), id);
        let r = without_id(s.drop_last(), id);
        assert forall|k: int| 0 <= k < without_id(s, id).len() implies #[trigger] without_id(s, id)[k].id != id by {
            if k < r.len() {
                assert(without_id(s, id)[k] == r[k]);
            }
        }
    }
}

/// Changing an answer replaces the belief rather than adding one: after an
/// answer, exactly one belief carries the question's id, and it is the
/// answer just given.
pub proof fn law_an_answer_replaces_its_belief(
    m: MindMetaV,
    step: int,
    answer: Seq<char>,
    now_iso: Seq<char>,
    k: int,
)
    requires
        0 <= step < SCRIPT_LEN,
        0 <= k < answered(m, step, answer, false, now_iso).beliefs.len(),
    ensures
        ({
            let bs = answered(m, step, answer, false, now_iso).beliefs;
            &&& bs.last().id == answer_belief_id(step)
            &&& bs.last().text == trim(answer)
            &&& bs.last().source == "you"@
            &&& k < bs.len() - 1 ==> bs[k].id != answer_belief_id(step)
        }),
{
    lemma_without_id_has_none(m.beliefs, answer_belief_id(step));
}

proof fn lemma_without_ids_keeps(s: Seq<BeliefV>, ids: Seq<Seq<char>>, k: int)
    requires
        0 <= k < s.len(),
        !ids.contains(s[k].id),
    ensures
        without_ids(s, ids).contains(s[k]),
    decreases s.len(),
{
    if k == s.len() - 1 {
        assert(without_ids(s, ids).last() == s[k]);
    } else {
        lemma_without_ids_keeps(s.drop_last(), ids, k);
        let r = without_ids(s.drop_last(), ids);
        let j = choose|j: int| 0 <= j < r.len() && r[j] == s[k];
        if !ids.contains(s.last().id) {
            assert(without_ids(s, ids)[j] == s[k]);
        }
    }
}

/// Asking again forgets only what the interview took: after a reset, every
/// belief whose id no answer gave is still there, and no answer remains.
pub proof fn law_asking_again_forgets_only_what_the_interview_took(m: MindMetaV, k: int)
    requires
        0 <= k < m.beliefs.len(),
        !interview_belief_ids(m.answers).contains(m.beliefs[k].id),
    ensures
        interview_reset(m).beliefs.contains(m.beliefs[k]),
        interview_reset(m).answers.len() == 0,
        !interview_reset(m).interview_done,
{
    lemma_without_ids_keeps(m.beliefs, interview_belief_ids(m.answers), k);
}

/// How many of these answers are to question `step`.
pub open spec fn answers_to_step(s: Seq<AnswerV>, step: int) -> nat
    decreases s.len(),
{
    if s.len() == 0 {
        0
    } else {
        answers_to_step(s.drop_last(), step) + if s.last().step == step {
            1nat
        } else {
            0nat
        }
    }
}

/// Answers in step order.
pub open spec fn in_step_order(s: Seq<AnswerV>) -> bool {
    forall|i: int, j: int| 0 <= i < j < s.len() ==> #[trigger] s[i].step <= #[trigger] s[j].step
}

proof fn lemma_insert_by_step_parts(s: Seq<AnswerV>, a: AnswerV, st: int)
    ensures
        answers_to_step(insert_by_step(s, a), st) == answers_to_step(s, st) + if a.step == st {
            1nat
        } else {
            0nat
        },
        insert_by_step(s, a).len() == s.len() + 1,
        forall|k: int|
            0 <= k < insert_by_step(s, a).len() ==> s.contains(#[trigger] insert_by_step(s, a)[k])
                || insert_by_step(s, a)[k] == a,
        insert_by_step(s, a).contains(a),
        in_step_order(s) ==> in_step_order(insert_by_step(s, a)),
    decreases s.len(),
{
    let r = insert_by_step(s, a);
    if s.len() == 0 {
        assert(r.drop_last() =~= s);
        assert(r[0] == a);
    } else if s.last().step <= a.step {
        assert(r.drop_last() =~= s);
        assert(r[s.len() as int] == a);
        assert forall|k: int| 0 <= k < r.len() implies s.contains(#[trigger] r[k]) || r[k] == a by {
            if k < s.len() {
                assert(r[k] == s[k]);
            }
        }
        if in_step_order(s) {
            assert forall|i: int, j: int| 0 <= i < j < r.len() implies #[trigger] r[i].step
                <= #[trigger] r[j].step by {
                assert(r[i] == s[i]);
                if j < s.len() {
                    assert(r[j] == s[j]);
                } else {
                    assert(s[i].step <= s[s.len() - 1].step);
                }
            }
        }
    } else {
        let d = s.drop_last();
        let l = s.last();
        lemma_insert_by_step_parts(d, a, st);
        let q = insert_by_step(d, a);
        assert(r == q.push(l));
        assert(r.drop_last() =~= q);
        assert(r[q.len() as int] == l);
        assert(s.contains(l)) by {
            assert(s[s.len() - 1] == l);
        }
        assert forall|k: int| 0 <= k < r.len() implies s.contains(#[trigger] r[k]) || r[k] == a by {
            if k < q.len() {
                assert(r[k] == q[k]);
                if d.contains(q[k]) {
                    let w = choose|w: int| 0 <= w < d.len() && d[w] == q[k];
                    assert(s[w] == q[k]);
                }
            }
        }
        let w = choose|w: int| 0 <= w < q.len() && q[w] == a;
        assert(r[w] == a);
        if in_step_order(s) {
            assert(in_step_order(d)) by {
                assert forall|i: int, j: int| 0 <= i < j < d.len() implies #[trigger] d[i].step
                    <= #[trigger] d[j].step by {
                    assert(d[i] == s[i] && d[j] == s[j]);
                }
            }
            assert forall|i: int, j: int| 0 <= i < j < r.len() implies #[trigger] r[i].step
                <= #[trigger] r[j].step by {
                assert(r[i] == q[i]);
                if j < q.len() {
                    assert(r[j] == q[j]);
                } else {
                    if q[i] != a {
                        let v = choose|v: int| 0 <= v < d.len() && d[v] == q[i];
                        assert(s[v] == q[i]);
                        assert(s[v].step <= s[s.len() - 1].step);
                    }
                }
            }
        }
    }
}

proof fn lemma_sort_by_step_parts(s: Seq<AnswerV>, st: int)
    ensures
        answers_to_step(sort_by_step(s), st) == answers_to_step(s, st),
        sort_by_step(s).len() == s.len(),
        forall|k: int| 0 <= k < sort_by_step(s).len() ==> s.contains(#[trigger] sort_by_step(s)[k]),
        forall|k: int| 0 <= k < s.len() ==> sort_by_step(s).contains(#[trigger] s[k]),
        in_step_order(sort_by_step(s)),
    decreases s.len(),
{
    if s.len() > 0 {
        let d = s.drop_last();
        lemma_sort_by_step_parts(d, st);
        let q = sort_by_step(d);
        lemma_insert_by_step_parts(q, s.last(), st);
        let r = sort_by_step(s);
        assert forall|k: int| 0 <= k < r.len() implies s.contains(#[trigger] r[k]) by {
            if r[k] == s.last() {
                assert(s[s.len() - 1] == r[k]);
            } else {
                let v = choose|v: int| 0 <= v < q.len() && q[v] == r[k];
                let u = choose|u: int| 0 <= u < d.len() && d[u] == q[v];
                assert(s[u] == r[k]);
            }
        }
        assert forall|k: int| 0 <= k < s.len() implies r.contains(#[trigger] s[k]) by {
            if k < s.len() - 1 {
                assert(d[k] == s[k]);
                let v = choose|v: int| 0 <= v < q.len() && q[v] == d[k];
                lemma_insert_keeps(q, s.last(), v);
            }
        }
    }
}

proof fn lemma_insert_keeps(s: Seq<AnswerV>, a: AnswerV, v: int)
    requires
        0 <= v < s.len(),
    ensures
        insert_by_step(s, a).contains(s[v]),
    decreases s.len(),
{
    let r = insert_by_step(s, a);
    if s.last().step <= a.step {
        assert(r[v] == s[v]);
    } else if v == s.len() - 1 {
        assert(r[r.len() - 1] == s[v]);
    } else {
        let d = s.drop_last();
        assert(d[v] == s[v]);
        lemma_insert_keeps(d, a, v);
        let w = choose|w: int| 0 <= w < insert_by_step(d, a).len() && insert_by_step(d, a)[w] == s[v];
        assert(r[w] == s[v]);
    }
}

proof fn lemma_without_step_parts(s: Seq<AnswerV>, step: int)
    ensures
        answers_to_step(without_step(s, step), step) == 0,
        forall|k: int|
            0 <= k < without_step(s, step).len() ==> #[trigger] without_step(s, step)[k].step != step,
    decreases s.len(),
{
    if s.len() > 0 {
        lemma_without_step_parts(s.drop_last(), step);
        let q = without_step(s.drop_last(), step);
        if s.last().step != step {
            let r = q.push(s.last());
            assert(r.drop_last() =~= q);
            assert forall|k: int| 0 <= k < r.len() implies #[trigger] r[k].step != step by {
                if k < q.len() {
                    assert(r[k] == q[k]);
                }
            }
        }
    }
}

/// Answering a question again replaces the earlier answer, never adds one:
/// afterwards exactly one stored answer is to that question, it is the one
/// just given, the answers are in step order, and the interview is done once
/// every question has an answer or a skip.
pub proof fn law_an_answer_replaces_the_earlier_one(
    m: MindMetaV,
    step: int,
    answer: Seq<char>,
    skipped: bool,
    now_iso: Seq<char>,
)
    requires
        0 <= step < SCRIPT_LEN,
    ensures
        ({
            let after = answered(m, step, answer, skipped, now_iso);
            let given = AnswerV {
                step,
                question: script_v()[step],
                answer: trim(answer),
                at: now_iso,
                skipped,
            };
            &&& answers_to_step(after.answers, step) == 1
            &&& after.answers.contains(given)
            &&& forall|k: int|
                0 <= k < after.answers.len() && #[trigger] after.answers[k].step == step
                    ==> after.answers[k] == given
            &&& in_step_order(after.answers)
            &&& after.interview_done == (after.answers.len() >= SCRIPT_LEN)
        }),
{
    let given = AnswerV { step, question: script_v()[step], answer: trim(answer), at: now_iso, skipped };
    let w = without_step(m.answers, step);
    lemma_without_step_parts(m.answers, step);
    let pushed = w.push(given);
    assert(pushed.drop_last() =~= w);
    assert(answers_to_step(pushed, step) == 1);
    lemma_sort_by_step_parts(pushed, step);
    let after = sort_by_step(pushed);
    assert(pushed[w.len() as int] == given);
    assert(after.contains(given));
    assert forall|k: int| 0 <= k < after.len() && #[trigger] after[k].step == step implies after[k]
        == given by {
        let v = choose|v: int| 0 <= v < pushed.len() && pushed[v] == after[k];
        if v < w.len() {
            assert(pushed[v] == w[v]);
        }
    }
}

/// A kind of tool that costs less to give than another: a skill before an
/// agent, an agent before software, software before anything else.
pub open spec fn cheaper_kind(a: Seq<char>, b: Seq<char>) -> bool {
    ||| a == "skill"@ && b != "skill"@
    ||| a == "agent"@ && b != "skill"@ && b != "agent"@
    ||| a == "software"@ && b != "skill"@ && b != "agent"@ && b != "software"@
}

proof fn lemma_rung_orders_kinds(a: Seq<char>, b: Seq<char>)
    ensures
        cheaper_kind(a, b) <==> rung(a) < rung(b),
        0 <= rung(a) <= 3,
{
    reveal_strlit("skill");
    reveal_strlit("agent");
    reveal_strlit("software");
    assert("skill"@ != "agent"@) by {
        assert("skill"@[0] != "agent"@[0]);
    }
    assert("skill"@.len() != "software"@.len());
    assert("agent"@.len() != "software"@.len());
}

proof fn lemma_first_at_rung_found(os: Seq<ToolOfferV>, r: int)
    ensures
        first_at_rung(os, r) matches Some(o) ==> exists|i: int|
            0 <= i < os.len() && os[i] == o && rung(o.kind) == r && forall|j: int|
                0 <= j < i ==> rung(#[trigger] os[j].kind) != r,
        first_at_rung(os, r) is None ==> forall|j: int| 0 <= j < os.len() ==> rung(#[trigger] os[j].kind) != r,
    decreases os.len(),
{
    if os.len() > 0 && rung(os[0].kind) != r {
        let d = os.drop_first();
        lemma_first_at_rung_found(d, r);
        if let Some(o) = first_at_rung(d, r) {
            let i = choose|i: int|
                0 <= i < d.len() && d[i] == o && rung(o.kind) == r && forall|j: int|
                    0 <= j < i ==> rung(#[trigger] d[j].kind) != r;
            assert(os[i + 1] == o);
            assert forall|j: int| 0 <= j < i + 1 implies rung(#[trigger] os[j].kind) != r by {
                if j > 0 {
                    assert(os[j] == d[j - 1]);
                }
            }
        } else {
            assert forall|j: int| 0 <= j < os.len() implies rung(#[trigger] os[j].kind) != r by {
                if j > 0 {
                    assert(os[j] == d[j - 1]);
                }
            }
        }
    } else if os.len() > 0 {
        assert(os[0] == os[0]);
    }
}

/// The tool offered is the cheapest to give: some offer is chosen whenever
/// there is one; no offer is of a cheaper kind than it; and every offer
/// before it is of a costlier kind, so among offers of its kind it is the
/// first.
pub proof fn law_the_tool_offered_is_the_cheapest(os: Seq<ToolOfferV>)
    ensures
        (cheapest(os) is Some) <==> os.len() > 0,
        cheapest(os) matches Some(o) ==> exists|i: int|
            0 <= i < os.len() && os[i] == o && (forall|j: int|
                0 <= j < os.len() ==> !cheaper_kind(#[trigger] os[j].kind, o.kind)) && (forall|j: int|
                0 <= j < i ==> cheaper_kind(o.kind, #[trigger] os[j].kind)),
{
    lemma_first_at_rung_found(os, 0);
    lemma_first_at_rung_found(os, 1);
    lemma_first_at_rung_found(os, 2);
    lemma_first_at_rung_found(os, 3);
    assert forall|j: int| 0 <= j < os.len() implies 0 <= rung(#[trigger] os[j].kind) <= 3 by {
        lemma_rung_orders_kinds(os[j].kind, os[j].kind);
    }
    if os.len() > 0 {
        lemma_rung_orders_kinds(os[0].kind, os[0].kind);
        assert(rung(os[0].kind) == 0 || rung(os[0].kind) == 1 || rung(os[0].kind) == 2 || rung(os[0].kind) == 3);
    }
    if let Some(o) = cheapest(os) {
        let r = rung(o.kind);
        let i = choose|i: int|
            0 <= i < os.len() && os[i] == o && rung(o.kind) == r && forall|j: int|
                0 <= j < i ==> rung(#[trigger] os[j].kind) != r;
        assert forall|j: int| 0 <= j < os.len() implies !cheaper_kind(#[trigger] os[j].kind, o.kind) by {
            lemma_rung_orders_kinds(os[j].kind, o.kind);
        }
        assert forall|j: int| 0 <= j < i implies cheaper_kind(o.kind, #[trigger] os[j].kind) by {
            lemma_rung_orders_kinds(o.kind, os[j].kind);
            lemma_rung_orders_kinds(os[j].kind, o.kind);
        }
    }
}

/// The offers still open are exactly those whose id no decision names, in
/// the order they were offered; and the tool suggested is one of them, the
/// cheapest, under its own id, or none when every offer is decided.
pub proof fn law_only_undecided_tools_are_suggested(offers: Seq<ToolOfferV>, decided: Seq<ToolDecisionV>)
    ensures
        undecided(offers, decided) == offers.filter(|o: ToolOfferV| !is_decided(decided, o.id)),
        tool_nudge(offers, decided).len() == 0 <==> forall|k: int|
            0 <= k < offers.len() ==> is_decided(decided, #[trigger] offers[k].id),
        tool_nudge(offers, decided).len() > 0 ==> tool_nudge(offers, decided).len() == 1 && exists|k: int|
            0 <= k < offers.len() && !is_decided(decided, offers[k].id) && Some(offers[k]) == cheapest(
                undecided(offers, decided),
            ) && tool_nudge(offers, decided)[0].tool_id == offers[k].id && tool_nudge(offers, decided)[0].kind
                == "tool"@,
    decreases offers.len(),
{
    reveal(Seq::filter);
    let p = |o: ToolOfferV| !is_decided(decided, o.id);
    let u = undecided(offers, decided);
    if offers.len() > 0 {
        let d = offers.drop_last();
        law_only_undecided_tools_are_suggested(d, decided);
        assert(offers.filter(p) == if p(offers.last()) {
            d.filter(p).push(offers.last())
        } else {
            d.filter(p)
        });
    }
    assert(u == offers.filter(p));
    law_the_tool_offered_is_the_cheapest(u);
    assert forall|i: int| 0 <= i < u.len() implies offers.contains(#[trigger] u[i]) && p(u[i]) by {
        offers.lemma_filter_contains_rev(p, u[i]);
        offers.lemma_filter_pred(p, i);
    }
    if forall|k: int| 0 <= k < offers.len() ==> is_decided(decided, #[trigger] offers[k].id) {
        if u.len() > 0 {
            assert(offers.contains(u[0]));
            let k = choose|k: int| 0 <= k < offers.len() && offers[k] == u[0];
            assert(is_decided(decided, offers[k].id));
        }
    } else {
        let k = choose|k: int| 0 <= k < offers.len() && !is_decided(decided, #[trigger] offers[k].id);
        offers.lemma_filter_contains(p, k);
    }
    if let Some(o) = cheapest(u) {
        let i = choose|i: int| 0 <= i < u.len() && u[i] == o;
        assert(offers.contains(u[i]));
        let k = choose|k: int| 0 <= k < offers.len() && offers[k] == u[i];
        assert(!is_decided(decided, offers[k].id));
    }
}

proof fn lemma_blocked_titles_some(work: Seq<WorkItemV>)
    ensures
        blocked_titles(work).len() > 0 <==> exists|i: int| 0 <= i < work.len() && #[trigger] work[i].status == "blocked"@,
    decreases work.len(),
{
    if work.len() > 0 {
        let d = work.drop_last();
        lemma_blocked_titles_some(d);
        assert forall|i: int| 0 <= i < d.len() implies #[trigger] d[i] == work[i] by {}
        if work.last().status == "blocked"@ {
            assert(work[work.len() - 1].status == "blocked"@);
        } else if exists|i: int| 0 <= i < work.len() && #[trigger] work[i].status == "blocked"@ {
            let i = choose|i: int| 0 <= i < work.len() && #[trigger] work[i].status == "blocked"@;
            assert(i < d.len());
            assert(d[i].status == "blocked"@);
        }
    }
}

/// One id, or none.
pub open spec fn id_if(c: bool, id: Seq<char>) -> Seq<Seq<char>> {
    if c {
        seq![id]
    } else {
        seq![]
    }
}

/// Which suggestions a bot makes, and in what order, by what they are
/// about: finishing the interview while fewer than six questions are
/// answered or skipped; a heartbeat when it has no routine; a plan when it
/// has a goal and no steps; the blocked steps when any step is blocked; a
/// new goal when there are steps and all are done; and, last, the cheapest
/// tool you have not decided on, when there is one.
pub proof fn law_which_suggestions_a_bot_makes(
    goal: Seq<char>,
    every: Seq<char>,
    work: Seq<WorkItemV>,
    answered: int,
    skipped: int,
    offers: Seq<ToolOfferV>,
    decided: Seq<ToolDecisionV>,
)
    ensures
        derive_spec(goal, every, work, answered, skipped, offers, decided).map_values(|s: SuggestionV| s.id)
            == id_if(answered + skipped < SCRIPT_LEN, "interview"@) + id_if(trim(every).len() == 0, "heartbeat"@)
            + id_if(work.len() == 0 && trim(goal).len() > 0, "plan"@) + id_if(
            exists|i: int| 0 <= i < work.len() && #[trigger] work[i].status == "blocked"@,
            "blocked"@,
        ) + id_if(work.len() > 0 && forall|i: int| 0 <= i < work.len() ==> #[trigger] work[i].status == "done"@, "finished"@)
            + (if exists|k: int| 0 <= k < offers.len() && !is_decided(decided, #[trigger] offers[k].id) {
            seq!["tool:"@ + cheapest(undecided(offers, decided))->0.id]
        } else {
            seq![]
        }),
{
    lemma_blocked_titles_some(work);
    law_only_undecided_tools_are_suggested(offers, decided);
    let f = |s: SuggestionV| s.id;
    let a = interview_nudge(answered, skipped);
    let b = heartbeat_nudge(every);
    let c = plan_nudge(work, goal);
    let d = blocked_nudge(work);
    let e = finished_nudge(work);
    let t = tool_nudge(offers, decided);
    assert(a.map_values(f) =~= id_if(answered + skipped < SCRIPT_LEN, "interview"@));
    assert(b.map_values(f) =~= id_if(trim(every).len() == 0, "heartbeat"@));
    assert(c.map_values(f) =~= id_if(work.len() == 0 && trim(goal).len() > 0, "plan"@));
    assert(d.map_values(f) =~= id_if(
        exists|i: int| 0 <= i < work.len() && #[trigger] work[i].status == "blocked"@,
        "blocked"@,
    ));
    assert(e.map_values(f) =~= id_if(work.len() > 0 && all_done(work), "finished"@));
    if exists|k: int| 0 <= k < offers.len() && !is_decided(decided, #[trigger] offers[k].id) {
        assert(t.len() > 0);
        let o = cheapest(undecided(offers, decided))->0;
        assert(t =~= seq![suggestion_v("tool:"@ + o.id, "It could use "@ + o.name, o.because, "tool"@, o.id)]);
        assert(t.map_values(f) =~= seq!["tool:"@ + o.id]);
    } else {
        assert(t.len() == 0);
        assert(t.map_values(f) =~= Seq::<Seq<char>>::empty());
    }
    assert((a + b + c + d + e + t).map_values(f) =~= a.map_values(f) + b.map_values(f) + c.map_values(f)
        + d.map_values(f) + e.map_values(f) + t.map_values(f));
}

} // verus!
