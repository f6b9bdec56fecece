//! Model providers: what a provider says about itself, the models it offers,
//! and where a configured one points.
use vstd::prelude::*;
use crate::text::{words_from, split_words, chars_of, copy_str, from_chars, from_sub, is_ws, is_ws_char, join, push_str, str_eq, str_views, trim, trim_str, starts_with};
use crate::business::strip_end;
use crate::json::{Json, JsonV};
use crate::tools::{ToolCall, ToolCallV, ToolDefinition, DefinitionV};

verus! {

#[derive(Debug, Default)]
pub struct ModelInfo {
    pub id: String,
    pub name: String,
    pub context_window: Option<u32>,
}

pub ghost struct ModelInfoV {
    pub id: Seq<char>,
    pub name: Seq<char>,
    pub context_window: Option<u32>,
}

impl View for ModelInfo {
    type V = ModelInfoV;

    open spec fn view(&self) -> ModelInfoV {
        ModelInfoV { id: self.id@, name: self.name@, context_window: self.context_window }
    }
}

pub open spec fn models_view(v: Seq<ModelInfo>) -> Seq<ModelInfoV> {
    v.map_values(|m: ModelInfo| m@)
}

#[derive(Debug, Default)]
pub struct ProviderHealth {
    pub ok: bool,
    pub detail: String,
    /// False when the provider needs something it hasn't got. An
    /// unconfigured provider must never look like a working one.
    pub configured: bool,
}

#[derive(Debug, Default)]
pub struct ChatTurn {
    /// "user" or "assistant".
    pub role: String,
    pub content: String,
}

pub ghost struct ChatTurnV {
    pub role: Seq<char>,
    pub content: Seq<char>,
}

impl View for ChatTurn {
    type V = ChatTurnV;

    open spec fn view(&self) -> ChatTurnV {
        ChatTurnV { role: self.role@, content: self.content@ }
    }
}

/// The result of one tool call, as the next turn sees it.
#[derive(Debug)]
pub struct Observation {
    /// The provider's id for the call this answers; empty where there was
    /// no wire call to answer.
    pub call_id: String,
    pub tool: String,
    pub action: String,
    /// The arguments the call was made with.
    pub args: Json,
    pub ok: bool,
    pub output: String,
}

pub ghost struct ObservationV {
    pub call_id: Seq<char>,
    pub tool: Seq<char>,
    pub action: Seq<char>,
    pub args: JsonV,
    pub ok: bool,
    pub output: Seq<char>,
}

impl View for Observation {
    type V = ObservationV;

    open spec fn view(&self) -> ObservationV {
        ObservationV {
            call_id: self.call_id@,
            tool: self.tool@,
            action: self.action@,
            args: self.args@,
            ok: self.ok,
            output: self.output@,
        }
    }
}

/// What a result says to the model: its output, or the error, marked.
pub open spec fn obs_text(o: ObservationV) -> Seq<char> {
    if o.ok {
        o.output
    } else {
        "ERROR: "@ + o.output
    }
}

impl Observation {
    pub fn text(&self) -> (r: String)
        ensures
            r@ == obs_text(self@),
    {
        if self.ok {
            copy_str(self.output.as_str())
        } else {
            let mut r = copy_str("ERROR: ");
            push_str(&mut r, self.output.as_str());
            r
        }
    }
}

/// What the runtime asks a provider to do in one turn.
#[derive(Debug)]
pub struct AgentRequest {
    pub agent_id: String,
    pub role: String,
    pub model: String,
    pub system: String,
    /// The assembled, already narrowed context.
    pub context: String,
    /// The immediate objective, usually the work item's title.
    pub goal: String,
    /// The callables this agent may use, already filtered by permission.
    pub tools: Vec<ToolDefinition>,
    /// Results of the calls made so far, each with the call it answers.
    pub observations: Vec<Observation>,
    /// Which turn of the loop this is, from 0.
    pub turn: u32,
    /// Earlier messages in this conversation, oldest first.
    pub history: Vec<ChatTurn>,
}

pub ghost struct RequestV {
    pub agent_id: Seq<char>,
    pub role: Seq<char>,
    pub model: Seq<char>,
    pub system: Seq<char>,
    pub context: Seq<char>,
    pub goal: Seq<char>,
    pub tools: Seq<DefinitionV>,
    pub observations: Seq<ObservationV>,
    pub turn: u32,
    pub history: Seq<ChatTurnV>,
}

impl View for AgentRequest {
    type V = RequestV;

    open spec fn view(&self) -> RequestV {
        RequestV {
            agent_id: self.agent_id@,
            role: self.role@,
            model: self.model@,
            system: self.system@,
            context: self.context@,
            goal: self.goal@,
            tools: self.tools@.map_values(|d: ToolDefinition| d@),
            observations: self.observations@.map_values(|o: Observation| o@),
            turn: self.turn,
            history: self.history@.map_values(|t: ChatTurn| t@),
        }
    }
}

/// A step the provider wants taken.
#[derive(Debug)]
pub enum AgentAction {
    /// Run a tool.
    Tool(ToolCall),
    /// Record a decision.
    Decision {
        id: String,
        title: String,
        body: String,
        impacts: Vec<String>,
        supersedes: Option<String>,
    },
    /// Rewrite the feature's context body.
    UpdateContext { body: String },
    /// Declare that a named interface changed: what makes other agents stale.
    SymbolChanged { symbol: String },
    /// Nothing further; the turn is done.
    Done { summary: String },
}

pub ghost enum AgentActionV {
    Tool(ToolCallV),
    Decision {
        id: Seq<char>,
        title: Seq<char>,
        body: Seq<char>,
        impacts: Seq<Seq<char>>,
        supersedes: Option<Seq<char>>,
    },
    UpdateContext { body: Seq<char> },
    SymbolChanged { symbol: Seq<char> },
    Done { summary: Seq<char> },
}

pub open spec fn opt_view(o: Option<String>) -> Option<Seq<char>> {
    match o {
        Some(s) => Some(s@),
        None => None,
    }
}

impl View for AgentAction {
    type V = AgentActionV;

    open spec fn view(&self) -> AgentActionV {
        match self {
            AgentAction::Tool(c) => AgentActionV::Tool(c@),
            AgentAction::Decision { id, title, body, impacts, supersedes } => AgentActionV::Decision {
                id: id@,
                title: title@,
                body: body@,
                impacts: str_views(impacts@),
                supersedes: opt_view(*supersedes),
            },
            AgentAction::UpdateContext { body } => AgentActionV::UpdateContext { body: body@ },
            AgentAction::SymbolChanged { symbol } => AgentActionV::SymbolChanged { symbol: symbol@ },
            AgentAction::Done { summary } => AgentActionV::Done { summary: summary@ },
        }
    }
}

pub open spec fn actions_view(v: Seq<AgentAction>) -> Seq<AgentActionV> {
    v.map_values(|a: AgentAction| a@)
}

/// One turn's answer.
#[derive(Debug)]
pub struct AgentResponse {
    /// Free-text reasoning, shown in the session transcript.
    pub message: String,
    pub actions: Vec<AgentAction>,
    /// True when the provider considers the work finished.
    pub complete: bool,
}

pub ghost struct ResponseV {
    pub message: Seq<char>,
    pub actions: Seq<AgentActionV>,
    pub complete: bool,
}

impl View for AgentResponse {
    type V = ResponseV;

    open spec fn view(&self) -> ResponseV {
        ResponseV { message: self.message@, actions: actions_view(self.actions@), complete: self.complete }
    }
}

/// The models a provider offers, and whether they were actually fetched.
#[derive(Debug, Default)]
pub struct ModelCatalog {
    pub models: Vec<ModelInfo>,
    /// True only when these came back from the provider just now.
    pub live: bool,
    /// Why they did not, when they did not.
    pub note: String,
}

impl ModelCatalog {
    /// Models that came back from the provider just now.
    pub fn live(models: Vec<ModelInfo>) -> (r: Self)
        ensures
            r.models == models,
            r.live,
            r.note@.len() == 0,
    {
        ModelCatalog { models, live: true, note: String::new() }
    }

    /// The built-in list, and why the provider's own could not be had.
    pub fn fallback(models: Vec<ModelInfo>, why: String) -> (r: Self)
        ensures
            r.models == models,
            !r.live,
            r.note@ == why@,
    {
        ModelCatalog { models, live: false, note: why }
    }
}

#[derive(Debug)]
/// The scripted provider: no network, no key.
pub struct MockProvider;

impl MockProvider {
    pub const ID: &'static str = "mock";

    pub fn id(&self) -> (r: &'static str)
        ensures
            r@ == "mock"@,
    {
        "mock"
    }

    pub fn name(&self) -> (r: &'static str)
        ensures
            r@ == "Mock (no AI)"@,
    {
        "Mock (no AI)"
    }

    /// The built-in list: one scripted model.
    pub fn list_models(&self) -> (r: Vec<ModelInfo>)
        ensures
            r@.len() == 1,
            r@[0].id@ == "mock-1"@,
            r@[0].name@ == "Scripted replies"@,
            r@[0].context_window == Some(12_000u32),
    {
        let mut r: Vec<ModelInfo> = Vec::new();
        r.push(ModelInfo { id: copy_str("mock-1"), name: copy_str("Scripted replies"), context_window: Some(12_000) });
        r
    }

    /// There is no directory to ask, and it says so rather than handing back
    /// the built-in list and calling it a lookup.
    pub fn fetch_models(&self) -> (r: Result<Vec<ModelInfo>, String>)
        ensures
            r matches Err(e) && e@ == "this provider does not publish a model list"@,
    {
        Err(copy_str("this provider does not publish a model list"))
    }

    pub fn health(&self) -> (r: ProviderHealth)
        ensures
            r.ok,
            r.configured,
            r.detail@ == "Deterministic mock; no network, no key required."@,
    {
        ProviderHealth {
            ok: true,
            detail: copy_str("Deterministic mock; no network, no key required."),
            configured: true,
        }
    }
}

// ---------------------------------------------------------------------------
// Reading an assembled context
// ---------------------------------------------------------------------------

/// Where the first `\n` at or after `i` is, or the end.
pub open spec fn nl_from(s: Seq<char>, i: int) -> int
    decreases s.len() - i,
{
    if i >= s.len() || i < 0 {
        s.len() as int
    } else if s[i] == '\n' {
        i
    } else {
        nl_from(s, i + 1)
    }
}

/// `str::lines` from `i` on: split at each `\n`, no empty last line for a
/// trailing `\n`, and one `\r` before each `\n` dropped.
pub open spec fn lines_from(s: Seq<char>, i: int) -> Seq<Seq<char>>
    decreases s.len() - i,
{
    if i >= s.len() || i < 0 {
        seq![]
    } else {
        let e = nl_from(s, i);
        if i <= e < s.len() {
            seq![drop_cr(s.subrange(i, e))] + lines_from(s, e + 1)
        } else {
            seq![drop_cr(s.subrange(i, s.len() as int))]
        }
    }
}

pub open spec fn drop_cr(l: Seq<char>) -> Seq<char> {
    if l.len() > 0 && l.last() == '\r' {
        l.drop_last()
    } else {
        l
    }
}

/// What follows the line "Features:" (trimmed) in an assembled context:
/// the slug on the next line, when that line is "- slug".
pub open spec fn feature_after(ls: Seq<Seq<char>>, in_features: bool) -> Option<Seq<char>>
    decreases ls.len(),
{
    if ls.len() == 0 {
        None
    } else if trim(ls[0]) == "Features:"@ {
        feature_after(ls.drop_first(), true)
    } else if in_features {
        let t = trim(ls[0]);
        if starts_with(t, "- "@) && t.len() > 2 {
            Some(t.skip(2))
        } else {
            None
        }
    } else {
        feature_after(ls.drop_first(), false)
    }
}

pub(crate) proof fn lemma_nl_from(s: Seq<char>, i: int, e: int)
    requires
        0 <= i <= e <= s.len(),
        forall|j: int| i <= j < e ==> s[j] != '\n',
        e < s.len() ==> s[e] == '\n',
    ensures
        nl_from(s, i) == e,
    decreases e - i,
{
    if i < e {
        lemma_nl_from(s, i + 1, e);
    }
}

/// The next line of `v` from `start`: where it ends (before `\n` or at the
/// end) and where the following one starts.
pub(crate) fn next_line(v: &Vec<char>, start: usize) -> (r: (usize, usize))
    requires
        start < v.len(),
    ensures
        start <= r.0 <= v.len(),
        r.1 == (if r.0 < v.len() {
            r.0 + 1
        } else {
            r.0 as int
        }),
        r.0 < v.len() ==> v@[r.0 as int] == '\n',
        forall|j: int| start <= j < r.0 ==> v@[j] != '\n',
{
    let mut e = start;
    while e < v.len() && v[e] != '\n'
        invariant
            start <= e <= v.len(),
            forall|j: int| start <= j < e ==> v@[j] != '\n',
        decreases v.len() - e,
    {
        e = e + 1;
    }
    if e < v.len() {
        (e, e + 1)
    } else {
        (e, e)
    }
}

pub(crate) fn drop_cr_exec(v: &Vec<char>, a: usize, b: usize) -> (r: Vec<char>)
    requires
        a <= b <= v.len(),
    ensures
        r@ == drop_cr(v@.subrange(a as int, b as int)),
{
    if b > a && v[b - 1] == '\r' {
        let r = crate::text::sub_vec(v, a, b - 1);
        assert(r@ =~= v@.subrange(a as int, b as int).drop_last());
        r
    } else {
        crate::text::sub_vec(v, a, b)
    }
}

/// The first feature slug listed in an assembled context, if any.
pub fn first_feature(context: &str) -> (r: Option<String>)
    ensures
        match r {
            Some(s) => feature_after(lines_from(context@, 0), false) == Some(s@),
            None => feature_after(lines_from(context@, 0), false) is None,
        },
{
    let v = chars_of(context);
    let mut start: usize = 0;
    let mut in_features = false;
    while start < v.len()
        invariant
            start <= v.len(),
            v@ == context@,
            feature_after(lines_from(context@, 0), false) == feature_after(lines_from(v@, start as int), in_features),
        decreases v.len() - start,
    {
        let (e, next) = next_line(&v, start);
        proof {
            lemma_nl_from(v@, start as int, e as int);
            let ls = lines_from(v@, start as int);
            assert(ls[0] == drop_cr(v@.subrange(start as int, e as int)));
            assert(ls.drop_first() =~= lines_from(v@, next as int));
        }
        let line = drop_cr_exec(&v, start, e);
        let t = crate::text::trim_vec(&line);
        let marker: Vec<char> = chars_of("Features:");
        if crate::text::seq_eq(&t, &marker) {
            in_features = true;
            start = next;
            continue;
        }
        if in_features {
            let dash: Vec<char> = chars_of("- ");
            proof {
                reveal_strlit("- ");
            }
            if crate::text::starts_with_vec(&t, &dash) && t.len() > 2 {
                return Some(from_sub(&t, 2, t.len()));
            }
            return None;
        }
        start = next;
    }
    proof {
        assert(lines_from(v@, start as int) =~= Seq::<Seq<char>>::empty());
    }
    None
}

/// The first `n` whitespace-separated words, joined by single spaces.
pub fn truncate_words(s: &str, n: usize) -> (r: String)
    ensures
        r@ == join(
            if words_from(s@, 0).len() <= n {
                words_from(s@, 0)
            } else {
                words_from(s@, 0).take(n as int)
            },
            " "@,
        ),
{
    let all = split_words(s);
    let mut words: Vec<String> = Vec::new();
    let mut i: usize = 0;
    while i < all.len() && i < n
        invariant
            i <= all.len(),
            i <= n,
            str_views(all@) == words_from(s@, 0),
            str_views(words@) == str_views(all@).take(i as int),
        decreases all.len() - i,
    {
        let w = copy_str(all[i].as_str());
        let ghost before = words@;
        words.push(w);
        i = i + 1;
        assert(str_views(words@) =~= str_views(before).push(w@));
        assert(str_views(all@).take(i as int) =~= str_views(all@).take(i - 1).push(all@[i - 1]@));
    }
    proof {
        if all.len() <= n {
            assert(i == all.len());
            assert(str_views(all@).take(i as int) =~= str_views(all@));
            assert(str_views(words@) == words_from(s@, 0));
        } else {
            assert(i == n);
            assert(str_views(words@) == words_from(s@, 0).take(n as int));
        }
    }
    crate::text::join_strings(&words, " ")
}

/// Text capped at `n` characters, a cut marked with an ellipsis.
pub open spec fn truncate_v(s: Seq<char>, n: nat) -> Seq<char> {
    if s.len() <= n {
        s
    } else {
        s.take(n as int) + "…"@
    }
}

/// Cap text at `n` characters, marking a cut with an ellipsis.
pub fn truncate(s: &str, n: usize) -> (r: String)
    ensures
        r@ == truncate_v(s@, n as nat),
{
    let v = chars_of(s);
    if v.len() <= n {
        copy_str(s)
    } else {
        let mut r = from_sub(&v, 0, n);
        push_str(&mut r, "…");
        assert(v@.subrange(0, n as int) =~= s@.take(n as int));
        r
    }
}

/// Where a provider's key lives in the credential store: the target to look
/// it up by, never the key itself.
pub fn key_target(provider_id: &str) -> (r: String)
    ensures
        r@ == "devdeck:aiw:"@ + provider_id@,
{
    let mut r = copy_str("devdeck:aiw:");
    push_str(&mut r, provider_id);
    r
}

#[derive(Debug, Default)]
pub struct AnthropicConfig {
    /// Credential store target, not the key.
    pub key_target: String,
    pub model: String,
}

#[derive(Debug)]
pub struct AnthropicProvider {
    pub config: AnthropicConfig,
}

impl AnthropicProvider {
    pub const ID: &'static str = "anthropic";

    pub fn new(config: AnthropicConfig) -> (r: Self)
        ensures
            r.config == config,
    {
        AnthropicProvider { config }
    }

    pub fn id(&self) -> (r: &'static str)
        ensures
            r@ == "anthropic"@,
    {
        "anthropic"
    }

    pub fn name(&self) -> (r: &'static str)
        ensures
            r@ == "Anthropic"@,
    {
        "Anthropic"
    }

    /// Configured needs a saved key (`key_saved`) and a model; configured is
    /// as much as can be claimed without a round trip.
    pub fn health(&self, key_saved: bool) -> (r: ProviderHealth)
        ensures
            r.configured == (key_saved && self.config.model@.len() > 0),
            r.ok == r.configured,
            r.detail@ == (if !key_saved {
                "No API key configured."@
            } else if self.config.model@.len() == 0 {
                "Key saved, but no model chosen."@
            } else {
                "Key saved, using "@ + self.config.model@ + "."@
            }),
    {
        let has_model = !self.config.model.as_str().is_empty();
        let configured = key_saved && has_model;
        let detail = if !key_saved {
            copy_str("No API key configured.")
        } else if !has_model {
            copy_str("Key saved, but no model chosen.")
        } else {
            let mut d = copy_str("Key saved, using ");
            push_str(&mut d, self.config.model.as_str());
            push_str(&mut d, ".");
            d
        };
        ProviderHealth { ok: configured, detail, configured }
    }
}

/// What a test round trip says: who answered, and what, cut to 120
/// characters, when it said anything.
pub open spec fn probe_report_v(model: Seq<char>, reply: Seq<char>) -> Seq<char> {
    if trim(reply).len() == 0 {
        model + " answered."@
    } else {
        model + " answered: "@ + truncate_v(trim(reply), 120)
    }
}

pub fn probe_report(model: &str, reply: &str) -> (r: String)
    ensures
        r@ == probe_report_v(model@, reply@),
{
    let t = trim_str(reply);
    let mut r = copy_str(model);
    if t.as_str().is_empty() {
        push_str(&mut r, " answered.");
    } else {
        push_str(&mut r, " answered: ");
        push_str(&mut r, truncate(t.as_str(), 120).as_str());
    }
    r
}

/// The text without the copies of `c` it ends with.
fn strip_end_exec(s: &str, c: char) -> (r: String)
    ensures
        r@ == strip_end(s@, c),
{
    let v = chars_of(s);
    let mut k = v.len();
    assert(v@.take(k as int) =~= v@);
    while k > 0 && v[k - 1] == c
        invariant
            k <= v.len(),
            v@ == s@,
            strip_end(v@, c) == strip_end(v@.take(k as int), c),
        decreases k,
    {
        assert(v@.take(k as int).drop_last() =~= v@.take(k - 1));
        k = k - 1;
    }
    proof {
        if k > 0 {
            assert(v@.take(k as int).last() == v@[k - 1]);
        }
    }
    let r = from_sub(&v, 0, k);
    assert(v@.subrange(0, k as int) =~= v@.take(k as int));
    r
}

/// Anything that speaks the OpenAI chat-completions shape.
#[derive(Debug, Default)]
pub struct OpenAICompatibleConfig {
    pub name: String,
    pub base_url: String,
    /// Credential store target, not the key. See `key_target`.
    pub key_target: String,
    pub model: String,
    pub headers: Vec<(String, String)>,
    pub timeout_secs: Option<u64>,
}

impl OpenAICompatibleConfig {
    /// `{base_url}/chat/completions`, tolerating trailing slashes.
    pub fn endpoint(&self) -> (r: String)
        ensures
            r@ == strip_end(self.base_url@, '/') + "/chat/completions"@,
    {
        let mut r = strip_end_exec(self.base_url.as_str(), '/');
        push_str(&mut r, "/chat/completions");
        r
    }
}

#[derive(Debug)]
pub struct OpenAICompatibleProvider {
    pub config: OpenAICompatibleConfig,
}

impl OpenAICompatibleProvider {
    pub const ID: &'static str = "openai-compatible";

    pub fn new(config: OpenAICompatibleConfig) -> (r: Self)
        ensures
            r.config == config,
    {
        OpenAICompatibleProvider { config }
    }

    pub fn id(&self) -> (r: &'static str)
        ensures
            r@ == "openai-compatible"@,
    {
        "openai-compatible"
    }

    pub fn name(&self) -> (r: String)
        ensures
            r@ == (if self.config.name@.len() == 0 {
                "OpenAI-compatible"@
            } else {
                self.config.name@
            }),
    {
        if chars_of(self.config.name.as_str()).len() == 0 {
            copy_str("OpenAI-compatible")
        } else {
            copy_str(self.config.name.as_str())
        }
    }

    /// What a turn needs before anything is sent: a base URL, then a model.
    pub fn ready(&self) -> (r: Result<(), String>)
        ensures
            self.config.base_url@.len() == 0 ==> (r matches Err(e) && e@ == "OpenAI-compatible provider has no base URL configured"@),
            self.config.base_url@.len() > 0 && self.config.model@.len() == 0 ==> (r matches Err(e) && e@
                == "OpenAI-compatible provider has no model configured"@),
            self.config.base_url@.len() > 0 && self.config.model@.len() > 0 ==> r is Ok,
    {
        if self.config.base_url.as_str().is_empty() {
            return Err(copy_str("OpenAI-compatible provider has no base URL configured"));
        }
        if self.config.model.as_str().is_empty() {
            return Err(copy_str("OpenAI-compatible provider has no model configured"));
        }
        Ok(())
    }

    /// Where the model directory is: `{base_url}/models`, trailing slashes
    /// dropped; none without a base URL.
    pub fn models_url(&self) -> (r: Result<String, String>)
        ensures
            trim(self.config.base_url@).len() == 0 ==> (r matches Err(e) && e@ == "no base URL configured"@),
            trim(self.config.base_url@).len() > 0 ==> (r matches Ok(u) && u@ == strip_end(self.config.base_url@, '/') + "/models"@),
    {
        if crate::text::is_blank(self.config.base_url.as_str()) {
            return Err(copy_str("no base URL configured"));
        }
        let mut u = strip_end_exec(self.config.base_url.as_str(), '/');
        push_str(&mut u, "/models");
        Ok(u)
    }

    /// The built-in list: the configured model, if there is one.
    pub fn list_models(&self) -> (r: Vec<ModelInfo>)
        ensures
            self.config.model@.len() == 0 ==> r@.len() == 0,
            self.config.model@.len() > 0 ==> r@.len() == 1 && r@[0].id@ == self.config.model@
                && r@[0].name@ == self.config.model@ && r@[0].context_window is None,
    {
        let mut r: Vec<ModelInfo> = Vec::new();
        if chars_of(self.config.model.as_str()).len() > 0 {
            r.push(ModelInfo {
                id: copy_str(self.config.model.as_str()),
                name: copy_str(self.config.model.as_str()),
                context_window: None,
            });
        }
        r
    }

    /// Configured is as much as can be claimed without a round trip: a base
    /// URL and a model. A key is optional, and whether one is saved
    /// (`key_saved`) is reported rather than implied.
    pub fn health(&self, key_saved: bool) -> (r: ProviderHealth)
        ensures
            r.configured == (self.config.base_url@.len() > 0 && self.config.model@.len() > 0),
            r.ok == r.configured,
            r.configured ==> r.detail@ == self.config.model@ + " at "@ + self.config.base_url@ + " — "@
                + (if key_saved {
                "key saved"@
            } else {
                "no key (fine for a local server)"@
            }),
            !r.configured ==> r.detail@ == "Base URL and model are required."@,
    {
        let configured = chars_of(self.config.base_url.as_str()).len() > 0 && chars_of(
            self.config.model.as_str(),
        ).len() > 0;
        let detail = if configured {
            let mut d = copy_str(self.config.model.as_str());
            push_str(&mut d, " at ");
            push_str(&mut d, self.config.base_url.as_str());
            push_str(&mut d, " — ");
            if key_saved {
                push_str(&mut d, "key saved");
            } else {
                push_str(&mut d, "no key (fine for a local server)");
            }
            d
        } else {
            copy_str("Base URL and model are required.")
        };
        ProviderHealth { ok: configured, detail, configured }
    }
}

} // verus!
