//! Streamed replies, put back together.
//!
//! Text arrives in pieces, and a tool call arrives as fragments keyed by an
//! index: its id and name once, its arguments as text split at arbitrary
//! points. So fragments are kept by index, argument text is appended as it
//! comes, and it is read as JSON only at the end.
use vstd::prelude::*;
use crate::text::{copy_str, push_str, str_eq, trim, trim_str};
use crate::json::{Json, JsonV, get_v, get_str, get_arr, get_u64};
use crate::wire::{RawToolCall, RawCallV, raws_view, empty_obj};

verus! {

/// What has arrived for one call.
#[derive(Debug)]
pub struct Slot {
    pub index: u64,
    pub id: String,
    pub name: String,
    /// The argument text so far.
    pub raw: String,
}

pub ghost struct SlotV {
    pub index: u64,
    pub id: Seq<char>,
    pub name: Seq<char>,
    pub raw: Seq<char>,
}

impl View for Slot {
    type V = SlotV;

    open spec fn view(&self) -> SlotV {
        SlotV { index: self.index, id: self.id@, name: self.name@, raw: self.raw@ }
    }
}

pub open spec fn slots_view(v: Seq<Slot>) -> Seq<SlotV> {
    v.map_values(|s: Slot| s@)
}

/// Slots kept in order of their index, each index once.
pub open spec fn sorted_slots(s: Seq<SlotV>) -> bool {
    forall|i: int, j: int| 0 <= i < j < s.len() ==> s[i].index < s[j].index
}

/// The slot for `idx`, or a fresh one.
pub open spec fn slot_at(s: Seq<SlotV>, idx: u64) -> SlotV
    decreases s.len(),
{
    if s.len() == 0 {
        SlotV { index: idx, id: seq![], name: seq![], raw: seq![] }
    } else if s[0].index == idx {
        s[0]
    } else {
        slot_at(s.drop_first(), idx)
    }
}

/// `x` in its place: replacing the slot with its index, or inserted where
/// its index sorts.
pub open spec fn put(s: Seq<SlotV>, x: SlotV) -> Seq<SlotV>
    decreases s.len(),
{
    if s.len() == 0 {
        seq![x]
    } else if s[0].index == x.index {
        seq![x] + s.drop_first()
    } else if s[0].index > x.index {
        seq![x] + s
    } else {
        seq![s[0]] + put(s.drop_first(), x)
    }
}

proof fn lemma_slot_at_absent(s: Seq<SlotV>, idx: u64)
    requires
        forall|k: int| 0 <= k < s.len() ==> s[k].index != idx,
    ensures
        slot_at(s, idx) == (SlotV { index: idx, id: seq![], name: seq![], raw: seq![] }),
    decreases s.len(),
{
    if s.len() > 0 {
        assert forall|k: int| 0 <= k < s.drop_first().len() implies s.drop_first()[k].index != idx by {
            assert(s.drop_first()[k] == s[k + 1]);
        }
        lemma_slot_at_absent(s.drop_first(), idx);
    }
}

proof fn lemma_slot_at_index(s: Seq<SlotV>, idx: u64)
    ensures
        slot_at(s, idx).index == idx,
    decreases s.len(),
{
    if s.len() > 0 && s[0].index != idx {
        lemma_slot_at_index(s.drop_first(), idx);
    }
}

proof fn lemma_put_at(s: Seq<SlotV>, x: SlotV, p: int)
    requires
        sorted_slots(s),
        0 <= p <= s.len(),
        forall|k: int| 0 <= k < p ==> s[k].index < x.index,
        p < s.len() ==> s[p].index >= x.index,
    ensures
        put(s, x) == if p < s.len() && s[p].index == x.index {
            s.update(p, x)
        } else {
            s.insert(p, x)
        },
        slot_at(s, x.index) == if p < s.len() && s[p].index == x.index {
            s[p]
        } else {
            SlotV { index: x.index, id: seq![], name: seq![], raw: seq![] }
        },
    decreases p,
{
    if p == 0 {
        if s.len() > 0 && s[0].index == x.index {
            assert(seq![x] + s.drop_first() =~= s.update(0, x));
        } else {
            assert(seq![x] + s =~= s.insert(0, x));
            assert forall|k: int| 0 <= k < s.len() implies s[k].index != x.index by {
                if k > 0 {
                    assert(s[0].index < s[k].index);
                }
            }
            lemma_slot_at_absent(s, x.index);
        }
    } else {
        let t = s.drop_first();
        assert(sorted_slots(t)) by {
            assert forall|i: int, j: int| 0 <= i < j < t.len() implies t[i].index < t[j].index by {
                assert(t[i] == s[i + 1]);
                assert(t[j] == s[j + 1]);
            }
        }
        assert forall|k: int| 0 <= k < p - 1 implies t[k].index < x.index by {
            assert(t[k] == s[k + 1]);
        }
        if p - 1 < t.len() {
            assert(t[p - 1] == s[p]);
        }
        lemma_put_at(t, x, p - 1);
        if p < s.len() && s[p].index == x.index {
            assert(seq![s[0]] + t.update(p - 1, x) =~= s.update(p, x));
        } else {
            assert(seq![s[0]] + t.insert(p - 1, x) =~= s.insert(p, x));
        }
    }
}

/// Where `idx` goes: the first slot whose index is not below it.
fn position(v: &Vec<Slot>, idx: u64) -> (p: usize)
    requires
        sorted_slots(slots_view(v@)),
    ensures
        p <= v.len(),
        forall|k: int| 0 <= k < p ==> v@[k].index < idx,
        p < v.len() ==> v@[p as int].index >= idx,
{
    let mut p: usize = 0;
    while p < v.len() && v[p].index < idx
        invariant
            p <= v.len(),
            forall|k: int| 0 <= k < p ==> v@[k].index < idx,
        decreases v.len() - p,
    {
        p = p + 1;
    }
    p
}

fn slot_copy(s: &Slot) -> (r: Slot)
    ensures
        r@ == s@,
{
    Slot { index: s.index, id: copy_str(s.id.as_str()), name: copy_str(s.name.as_str()), raw: copy_str(s.raw.as_str()) }
}

/// The slot for `idx` as it stands, or a fresh one.
fn slot_at_exec(v: &Vec<Slot>, idx: u64) -> (r: Slot)
    requires
        sorted_slots(slots_view(v@)),
    ensures
        r@ == slot_at(slots_view(v@), idx),
{
    let p = position(v, idx);
    let ghost x = SlotV { index: idx, id: seq![], name: seq![], raw: seq![] };
    proof {
        lemma_put_at(slots_view(v@), x, p as int);
    }
    if p < v.len() && v[p].index == idx {
        slot_copy(&v[p])
    } else {
        Slot { index: idx, id: String::new(), name: String::new(), raw: String::new() }
    }
}

fn put_exec(v: &mut Vec<Slot>, x: Slot)
    requires
        sorted_slots(slots_view(old(v)@)),
    ensures
        slots_view(final(v)@) == put(slots_view(old(v)@), x@),
        sorted_slots(slots_view(final(v)@)),
{
    let ghost s = slots_view(v@);
    let ghost xv = x@;
    let p = position(v, x.index);
    proof {
        lemma_put_at(s, xv, p as int);
    }
    if p < v.len() && v[p].index == x.index {
        v.set(p, x);
        assert(slots_view(v@) =~= s.update(p as int, xv));
    } else {
        v.insert(p, x);
        assert(slots_view(v@) =~= s.insert(p as int, xv));
    }
    proof {
        let n = slots_view(v@);
        assert forall|i: int, j: int| 0 <= i < j < n.len() implies n[i].index < n[j].index by {
            if n.len() == s.len() {
                if i == p {
                    assert(s[i].index == xv.index);
                } else if j == p {
                    assert(s[j].index == xv.index);
                }
            } else {
                if j < p {
                } else if i < p && j == p {
                } else if i < p && j > p {
                    assert(n[j] == s[j - 1]);
                } else if i == p {
                    assert(n[j] == s[j - 1]);
                    assert(s[p as int].index >= xv.index);
                    assert(s[p as int].index != xv.index);
                } else {
                    assert(n[i] == s[i - 1]);
                    assert(n[j] == s[j - 1]);
                }
            }
        }
    }
}

/// What one streamed reply has said so far.
pub ghost struct StreamV {
    pub text: Seq<char>,
    pub slots: Seq<SlotV>,
    pub done: bool,
}

// ---------------------------------------------------------------------------
// OpenAI-style streams
// ---------------------------------------------------------------------------

/// One entry of a delta's `tool_calls` applied: its index (0 when absent)
/// picks the slot; an id or a name that is not empty replaces the slot's;
/// argument text is appended.
pub open spec fn openai_step(slots: Seq<SlotV>, c: JsonV) -> Seq<SlotV> {
    let idx = match get_u64(c, "index"@) {
        Some(i) => i,
        None => 0u64,
    };
    let old = slot_at(slots, idx);
    let id = match get_str(c, "id"@) {
        Some(x) => if x.len() > 0 {
            x
        } else {
            old.id
        },
        None => old.id,
    };
    let name = match get_v(c, "function"@) {
        Some(f) => match get_str(f, "name"@) {
            Some(n) => if n.len() > 0 {
                n
            } else {
                old.name
            },
            None => old.name,
        },
        None => old.name,
    };
    let raw = match get_v(c, "function"@) {
        Some(f) => match get_str(f, "arguments"@) {
            Some(a) => old.raw + a,
            None => old.raw,
        },
        None => old.raw,
    };
    put(slots, SlotV { index: idx, id, name, raw })
}

pub open spec fn openai_steps(slots: Seq<SlotV>, list: Seq<JsonV>) -> Seq<SlotV>
    decreases list.len(),
{
    if list.len() == 0 {
        slots
    } else {
        openai_step(openai_steps(slots, list.drop_last()), list.last())
    }
}

/// The delta of a chunk: its first choice's.
pub open spec fn openai_delta(chunk: JsonV) -> Option<JsonV> {
    match get_arr(chunk, "choices"@) {
        Some(cs) => if cs.len() > 0 {
            get_v(cs[0], "delta"@)
        } else {
            None
        },
        None => None,
    }
}

/// Text that arrived in a delta, when there is some.
pub open spec fn fresh_text(d: JsonV) -> Option<Seq<char>> {
    match get_str(d, "content"@) {
        Some(t) => if t.len() > 0 {
            Some(t)
        } else {
            None
        },
        None => None,
    }
}

/// A chunk applied: a chunk with no delta changes nothing.
pub open spec fn openai_chunk(st: StreamV, chunk: JsonV) -> StreamV {
    match openai_delta(chunk) {
        None => st,
        Some(d) => StreamV {
            text: match fresh_text(d) {
                Some(t) => st.text + t,
                None => st.text,
            },
            slots: match get_arr(d, "tool_calls"@) {
                Some(list) => openai_steps(st.slots, list),
                None => st.slots,
            },
            done: st.done,
        },
    }
}

/// The data of a server-sent event line: what follows `data:`, trimmed.
/// Comments, blank lines and `event:` lines carry none.
pub open spec fn data_payload_v(line: Seq<char>) -> Option<Seq<char>> {
    let t = trim(line);
    if crate::text::starts_with(t, "data:"@) {
        Some(trim(t.skip(5)))
    } else {
        None
    }
}

pub fn data_payload(line: &str) -> (r: Option<String>)
    ensures
        crate::provider::opt_view(r) == data_payload_v(line@),
{
    let t = crate::text::chars_of(line);
    let t = crate::text::trim_vec(&t);
    let mark = crate::text::chars_of("data:");
    proof {
        reveal_strlit("data:");
    }
    if crate::text::starts_with_vec(&t, &mark) {
        let rest = crate::text::sub_vec(&t, 5, t.len());
        assert(rest@ =~= t@.skip(5));
        let p = crate::text::trim_vec(&rest);
        Some(crate::text::from_chars(&p))
    } else {
        None
    }
}

/// Accumulates an OpenAI-style stream into a finished reply.
#[derive(Debug)]
pub struct StreamAccumulator {
    text: String,
    calls: Vec<Slot>,
    done: bool,
}

impl View for StreamAccumulator {
    type V = StreamV;

    closed spec fn view(&self) -> StreamV {
        StreamV { text: self.text@, slots: slots_view(self.calls@), done: self.done }
    }
}

fn apply_call(calls: &mut Vec<Slot>, c: &Json)
    requires
        sorted_slots(slots_view(old(calls)@)),
    ensures
        sorted_slots(slots_view(final(calls)@)),
        slots_view(final(calls)@) == openai_step(slots_view(old(calls)@), c@),
{
    let idx = match c.get("index") {
        Some(i) => match i.as_u64() {
            Some(n) => n,
            None => 0,
        },
        None => 0,
    };
    let mut slot = slot_at_exec(calls, idx);
    match c.get("id") {
        Some(i) => match i.as_str() {
            Some(x) => if !x.is_empty() {
                slot.id = copy_str(x);
            },
            None => {},
        },
        None => {},
    }
    match c.get("function") {
        Some(f) => {
            match f.get("name") {
                Some(n) => match n.as_str() {
                    Some(x) => if !x.is_empty() {
                        slot.name = copy_str(x);
                    },
                    None => {},
                },
                None => {},
            }
            match f.get("arguments") {
                Some(a) => match a.as_str() {
                    Some(x) => push_str(&mut slot.raw, x),
                    None => {},
                },
                None => {},
            }
        },
        None => {},
    }
    let ghost old_s = slot_at(slots_view(calls@), idx);
    proof {
        lemma_slot_at_index(slots_view(calls@), idx);
    }
    assert(slot@.index == idx);
    assert(slot@.id == match get_str(c@, "id"@) {
        Some(x) => if x.len() > 0 {
            x
        } else {
            old_s.id
        },
        None => old_s.id,
    });
    assert(slot@.name == match get_v(c@, "function"@) {
        Some(f) => match get_str(f, "name"@) {
            Some(n) => if n.len() > 0 {
                n
            } else {
                old_s.name
            },
            None => old_s.name,
        },
        None => old_s.name,
    });
    assert(slot@.raw == match get_v(c@, "function"@) {
        Some(f) => match get_str(f, "arguments"@) {
            Some(a) => old_s.raw + a,
            None => old_s.raw,
        },
        None => old_s.raw,
    });
    put_exec(calls, slot);
}

impl StreamAccumulator {
    /// The slots stay in index order, each index once.
    #[verifier::type_invariant]
    spec fn slots_in_order(self) -> bool {
        sorted_slots(slots_view(self.calls@))
    }

    pub fn new() -> (r: Self)
        ensures
            r@ == (StreamV { text: seq![], slots: seq![], done: false }),
    {
        let r = StreamAccumulator { text: String::new(), calls: Vec::new(), done: false };
        assert(r@.slots =~= Seq::<SlotV>::empty());
        r
    }

    pub fn finished(&self) -> (r: bool)
        ensures
            r == self@.done,
    {
        self.done
    }

    /// Feed one chunk. Returns the text that just arrived, so a caller can
    /// pass it on without diffing the whole buffer.
    pub fn push_chunk(&mut self, chunk: &Json) -> (r: Option<String>)
        ensures
            final(self)@ == openai_chunk(old(self)@, chunk@),
            crate::provider::opt_view(r) == match openai_delta(chunk@) {
                Some(d) => fresh_text(d),
                None => None,
            },
    {
        proof {
            use_type_invariant(&*self);
        }
        let delta = match chunk.get("choices") {
            Some(c) => match c.as_array() {
                Some(cs) => if cs.len() > 0 {
                    assert(cs@.map_values(|x: Json| x@)[0] == cs@[0]@);
                    cs[0].get("delta")
                } else {
                    None
                },
                None => None,
            },
            None => None,
        };
        let d = match delta {
            Some(d) => d,
            None => return None,
        };
        let mut fresh: Option<String> = None;
        match d.get("content") {
            Some(c) => match c.as_str() {
                Some(t) => if !t.is_empty() {
                    let mut text = String::new();
                    std::mem::swap(&mut text, &mut self.text);
                    push_str(&mut text, t);
                    self.text = text;
                    fresh = Some(copy_str(t));
                },
                None => {},
            },
            None => {},
        }
        match d.get("tool_calls") {
            Some(tc) => match tc.as_array() {
                Some(list) => {
                    let ghost lv = list@.map_values(|x: Json| x@);
                    let mut calls: Vec<Slot> = Vec::new();
                    std::mem::swap(&mut calls, &mut self.calls);
                    let ghost start = slots_view(calls@);
                    let mut i: usize = 0;
                    assert(lv.take(0) =~= Seq::<JsonV>::empty());
                    while i < list.len()
                        invariant
                            i <= list.len(),
                            lv == list@.map_values(|x: Json| x@),
                            sorted_slots(slots_view(calls@)),
                            slots_view(calls@) == openai_steps(start, lv.take(i as int)),
                        decreases list.len() - i,
                    {
                        apply_call(&mut calls, &list[i]);
                        assert(lv.take(i + 1).drop_last() =~= lv.take(i as int));
                        assert(lv.take(i + 1).last() == list@[i as int]@);
                        i = i + 1;
                    }
                    assert(lv.take(list.len() as int) =~= lv);
                    self.calls = calls;
                },
                None => {},
            },
            None => {},
        }
        fresh
    }

    /// Feed the data of one event line. `[DONE]` ends the stream; other
    /// data is the chunk the JSON library read from it, when it read.
    pub fn push_payload(&mut self, payload: &str, chunk: Option<Json>) -> (r: Option<String>)
        ensures
            payload@ == "[DONE]"@ ==> final(self)@ == (StreamV { done: true, ..old(self)@ }) && r is None,
            payload@ != "[DONE]"@ ==> match chunk {
                Some(c) => final(self)@ == openai_chunk(old(self)@, c@) && crate::provider::opt_view(r)
                    == match openai_delta(c@) {
                    Some(d) => fresh_text(d),
                    None => None,
                },
                None => final(self)@ == old(self)@ && r is None,
            },
    {
        proof {
            use_type_invariant(&*self);
        }
        if str_eq(payload, "[DONE]") {
            self.done = true;
            return None;
        }
        match chunk {
            Some(c) => self.push_chunk(&c),
            None => None,
        }
    }

    /// The argument text of each slot, trimmed, in index order: what is to
    /// be read as JSON before `finish`.
    pub fn pending_args(&self) -> (r: Vec<String>)
        ensures
            r@.len() == self@.slots.len(),
            forall|k: int| 0 <= k < r@.len() ==> (#[trigger] r@[k])@ == trim(self@.slots[k].raw),
    {
        pending_of(&self.calls)
    }

    /// The text, the calls whose arguments read, and the names of those
    /// whose arguments did not: a half-written call is not a call. `parsed`
    /// holds, per slot in index order, what reading its argument text gave.
    pub fn finish(self, parsed: &Vec<Option<Json>>) -> (r: (String, Vec<RawToolCall>, Vec<String>))
        ensures
            r.0@ == self@.text,
            raws_view(r.1@) == finish_calls(self@.slots, opt_jsons(parsed@)),
            crate::text::str_views(r.2@) == finish_dropped(self@.slots, opt_jsons(parsed@)),
    {
        let (calls, dropped) = finish_slots(&self.calls, parsed);
        (self.text, calls, dropped)
    }
}

pub open spec fn opt_jsons(v: Seq<Option<Json>>) -> Seq<Option<JsonV>> {
    v.map_values(|o: Option<Json>| crate::wire::opt_json_view(o))
}

/// How one slot ends: skipped when it has no name; a call with no arguments
/// when its text is blank; a call with what its text read as; or dropped.
pub open spec fn slot_end(s: SlotV, parsed: Option<JsonV>) -> Option<Result<RawCallV, Seq<char>>> {
    if s.name.len() == 0 {
        None
    } else if trim(s.raw).len() == 0 {
        Some(Ok(RawCallV { id: s.id, name: s.name, input: empty_obj() }))
    } else {
        match parsed {
            Some(j) => Some(Ok(RawCallV { id: s.id, name: s.name, input: j })),
            None => Some(Err(s.name)),
        }
    }
}

pub open spec fn parsed_at(parsed: Seq<Option<JsonV>>, k: int) -> Option<JsonV> {
    if 0 <= k < parsed.len() {
        parsed[k]
    } else {
        None
    }
}

pub open spec fn finish_calls(slots: Seq<SlotV>, parsed: Seq<Option<JsonV>>) -> Seq<RawCallV>
    decreases slots.len(),
{
    if slots.len() == 0 {
        seq![]
    } else {
        let rest = finish_calls(slots.drop_last(), parsed);
        match slot_end(slots.last(), parsed_at(parsed, slots.len() - 1)) {
            Some(Ok(c)) => rest.push(c),
            _ => rest,
        }
    }
}

pub open spec fn finish_dropped(slots: Seq<SlotV>, parsed: Seq<Option<JsonV>>) -> Seq<Seq<char>>
    decreases slots.len(),
{
    if slots.len() == 0 {
        seq![]
    } else {
        let rest = finish_dropped(slots.drop_last(), parsed);
        match slot_end(slots.last(), parsed_at(parsed, slots.len() - 1)) {
            Some(Err(n)) => rest.push(n),
            _ => rest,
        }
    }
}

fn pending_of(calls: &Vec<Slot>) -> (r: Vec<String>)
    ensures
        r@.len() == calls@.len(),
        forall|k: int| 0 <= k < r@.len() ==> (#[trigger] r@[k])@ == trim(calls@[k].raw@),
{
    let mut out: Vec<String> = Vec::new();
    let mut i: usize = 0;
    while i < calls.len()
        invariant
            i <= calls.len(),
            out@.len() == i,
            forall|k: int| 0 <= k < i ==> (#[trigger] out@[k])@ == trim(calls@[k].raw@),
        decreases calls.len() - i,
    {
        out.push(trim_str(calls[i].raw.as_str()));
        i = i + 1;
    }
    out
}

fn finish_slots(calls: &Vec<Slot>, parsed: &Vec<Option<Json>>) -> (r: (Vec<RawToolCall>, Vec<String>))
    ensures
        raws_view(r.0@) == finish_calls(slots_view(calls@), opt_jsons(parsed@)),
        crate::text::str_views(r.1@) == finish_dropped(slots_view(calls@), opt_jsons(parsed@)),
{
    let ghost sv = slots_view(calls@);
    let ghost pv = opt_jsons(parsed@);
    let mut out: Vec<RawToolCall> = Vec::new();
    let mut dropped: Vec<String> = Vec::new();
    let mut i: usize = 0;
    assert(sv.take(0) =~= Seq::<SlotV>::empty());
    while i < calls.len()
        invariant
            i <= calls.len(),
            sv == slots_view(calls@),
            pv == opt_jsons(parsed@),
            raws_view(out@) == finish_calls(sv.take(i as int), pv),
            crate::text::str_views(dropped@) == finish_dropped(sv.take(i as int), pv),
        decreases calls.len() - i,
    {
        let s = &calls[i];
        assert(sv.take(i + 1).drop_last() =~= sv.take(i as int));
        assert(sv.take(i + 1).last() == s@);
        assert(sv.take(i + 1).len() - 1 == i);
        if !s.name.as_str().is_empty() {
            let t = trim_str(s.raw.as_str());
            if t.as_str().is_empty() {
                let c = RawToolCall { id: copy_str(s.id.as_str()), name: copy_str(s.name.as_str()), input: empty_obj_json() };
                let ghost before = out@;
                out.push(c);
                assert(raws_view(out@) =~= raws_view(before).push(c@));
            } else {
                let got = if i < parsed.len() {
                    match &parsed[i] {
                        Some(j) => Some(j.copy()),
                        None => None,
                    }
                } else {
                    None
                };
                assert(crate::wire::opt_json_view(got) == parsed_at(pv, i as int));
                match got {
                    Some(j) => {
                        let c = RawToolCall { id: copy_str(s.id.as_str()), name: copy_str(s.name.as_str()), input: j };
                        let ghost before = out@;
                        out.push(c);
                        assert(raws_view(out@) =~= raws_view(before).push(c@));
                    },
                    None => {
                        let n = copy_str(s.name.as_str());
                        let ghost before = dropped@;
                        dropped.push(n);
                        assert(crate::text::str_views(dropped@) =~= crate::text::str_views(before).push(n@));
                    },
                }
            }
        }
        i = i + 1;
    }
    assert(sv.take(calls.len() as int) =~= sv);
    (out, dropped)
}

fn empty_obj_json() -> (r: Json)
    ensures
        r@ == empty_obj(),
{
    let r = Json::Obj(Vec::new());
    proof {
        if let JsonV::Obj(a) = r@ {
            assert(a =~= Seq::<(Seq<char>, JsonV)>::empty());
        }
    }
    r
}

// ---------------------------------------------------------------------------
// Anthropic streams
// ---------------------------------------------------------------------------

pub open spec fn chunk_index(chunk: JsonV) -> u64 {
    match get_u64(chunk, "index"@) {
        Some(i) => i,
        None => 0u64,
    }
}

/// One Anthropic event applied. Content comes as indexed blocks: a
/// `tool_use` block's id and name arrive when it starts, its arguments as
/// `input_json_delta` pieces, text as `text_delta`. `message_stop` ends the
/// stream, and so does `error`: a cut-off answer is not a complete one.
pub open spec fn anthropic_chunk(st: StreamV, chunk: JsonV) -> StreamV {
    let idx = chunk_index(chunk);
    match get_str(chunk, "type"@) {
        None => st,
        Some(kind) => if kind == "content_block_start"@ {
            match get_v(chunk, "content_block"@) {
                Some(b) => if get_str(b, "type"@) == Some("tool_use"@) {
                    let old = slot_at(st.slots, idx);
                    StreamV {
                        slots: put(
                            st.slots,
                            SlotV {
                                index: idx,
                                id: crate::wire::or_empty(get_str(b, "id"@)),
                                name: crate::wire::or_empty(get_str(b, "name"@)),
                                raw: old.raw,
                            },
                        ),
                        ..st
                    }
                } else {
                    st
                },
                None => st,
            }
        } else if kind == "content_block_delta"@ {
            match get_v(chunk, "delta"@) {
                Some(d) => if get_str(d, "type"@) == Some("text_delta"@) {
                    match get_str(d, "text"@) {
                        Some(t) => StreamV { text: st.text + t, ..st },
                        None => st,
                    }
                } else if get_str(d, "type"@) == Some("input_json_delta"@) {
                    match get_str(d, "partial_json"@) {
                        Some(p) => {
                            let old = slot_at(st.slots, idx);
                            StreamV { slots: put(st.slots, SlotV { raw: old.raw + p, ..old }), ..st }
                        },
                        None => st,
                    }
                } else {
                    st
                },
                None => st,
            }
        } else if kind == "message_stop"@ || kind == "error"@ {
            StreamV { done: true, ..st }
        } else {
            st
        },
    }
}

/// The text an Anthropic event brings, when it brings some.
pub open spec fn anthropic_fresh(chunk: JsonV) -> Option<Seq<char>> {
    if get_str(chunk, "type"@) == Some("content_block_delta"@) {
        match get_v(chunk, "delta"@) {
            Some(d) => if get_str(d, "type"@) == Some("text_delta"@) {
                match get_str(d, "text"@) {
                    Some(t) => if t.len() > 0 {
                        Some(t)
                    } else {
                        None
                    },
                    None => None,
                }
            } else {
                None
            },
            None => None,
        }
    } else {
        None
    }
}

/// Accumulates an Anthropic stream: a protocol of its own, not a variant
/// of OpenAI's.
#[derive(Debug)]
pub struct AnthropicStreamAccumulator {
    text: String,
    blocks: Vec<Slot>,
    done: bool,
}

impl View for AnthropicStreamAccumulator {
    type V = StreamV;

    closed spec fn view(&self) -> StreamV {
        StreamV { text: self.text@, slots: slots_view(self.blocks@), done: self.done }
    }
}

fn str_of(j: Option<&Json>) -> (r: Option<String>)
    ensures
        crate::provider::opt_view(r) == match j {
            Some(v) => crate::json::str_v(v@),
            None => None,
        },
{
    match j {
        Some(v) => match v.as_str() {
            Some(t) => Some(copy_str(t)),
            None => None,
        },
        None => None,
    }
}

impl AnthropicStreamAccumulator {
    /// The blocks stay in index order, each index once.
    #[verifier::type_invariant]
    spec fn blocks_in_order(self) -> bool {
        sorted_slots(slots_view(self.blocks@))
    }

    pub fn new() -> (r: Self)
        ensures
            r@ == (StreamV { text: seq![], slots: seq![], done: false }),
    {
        let r = AnthropicStreamAccumulator { text: String::new(), blocks: Vec::new(), done: false };
        assert(r@.slots =~= Seq::<SlotV>::empty());
        r
    }

    pub fn finished(&self) -> (r: bool)
        ensures
            r == self@.done,
    {
        self.done
    }

    /// Feed one event. Returns the text that just arrived.
    pub fn push_chunk(&mut self, chunk: &Json) -> (r: Option<String>)
        ensures
            final(self)@ == anthropic_chunk(old(self)@, chunk@),
            crate::provider::opt_view(r) == anthropic_fresh(chunk@),
    {
        proof {
            use_type_invariant(&*self);
        }
        let kind = match str_of(chunk.get("type")) {
            Some(k) => k,
            None => return None,
        };
        let idx = match chunk.get("index") {
            Some(i) => match i.as_u64() {
                Some(n) => n,
                None => 0,
            },
            None => 0,
        };
        proof {
            reveal_strlit("content_block_start");
            reveal_strlit("content_block_delta");
            reveal_strlit("message_stop");
            reveal_strlit("error");
            reveal_strlit("text_delta");
            reveal_strlit("input_json_delta");
            lemma_slot_at_index(slots_view(self.blocks@), idx);
            assert("content_block_start"@[14] != "content_block_delta"@[14]);
            assert("content_block_start"@ != "content_block_delta"@);
        }
        if str_eq(kind.as_str(), "content_block_start") {
            match chunk.get("content_block") {
                Some(b) => {
                    let is_use = match str_of(b.get("type")) {
                        Some(t) => str_eq(t.as_str(), "tool_use"),
                        None => false,
                    };
                    if is_use {
                        let mut slot = slot_at_exec(&self.blocks, idx);
                        slot.id = match str_of(b.get("id")) {
                            Some(x) => x,
                            None => String::new(),
                        };
                        slot.name = match str_of(b.get("name")) {
                            Some(x) => x,
                            None => String::new(),
                        };
                        let mut blocks: Vec<Slot> = Vec::new();
                        std::mem::swap(&mut blocks, &mut self.blocks);
                        put_exec(&mut blocks, slot);
                        self.blocks = blocks;
                    }
                },
                None => {},
            }
            None
        } else if str_eq(kind.as_str(), "content_block_delta") {
            let d = match chunk.get("delta") {
                Some(d) => d,
                None => return None,
            };
            let dt = str_of(d.get("type"));
            let is_text = match &dt {
                Some(t) => str_eq(t.as_str(), "text_delta"),
                None => false,
            };
            let is_json = match &dt {
                Some(t) => str_eq(t.as_str(), "input_json_delta"),
                None => false,
            };
            if is_text {
                let t = match str_of(d.get("text")) {
                    Some(t) => t,
                    None => return None,
                };
                if t.as_str().is_empty() {
                    assert(self.text@ + t@ =~= self.text@);
                    return None;
                }
                let mut text = String::new();
                std::mem::swap(&mut text, &mut self.text);
                push_str(&mut text, t.as_str());
                self.text = text;
                Some(t)
            } else if is_json {
                match str_of(d.get("partial_json")) {
                    Some(p) => {
                        let mut slot = slot_at_exec(&self.blocks, idx);
                        push_str(&mut slot.raw, p.as_str());
                        let mut blocks: Vec<Slot> = Vec::new();
                        std::mem::swap(&mut blocks, &mut self.blocks);
                        put_exec(&mut blocks, slot);
                        self.blocks = blocks;
                    },
                    None => {},
                }
                None
            } else {
                None
            }
        } else if str_eq(kind.as_str(), "message_stop") || str_eq(kind.as_str(), "error") {
            self.done = true;
            None
        } else {
            None
        }
    }

    /// The argument text of each block, trimmed, in index order.
    pub fn pending_args(&self) -> (r: Vec<String>)
        ensures
            r@.len() == self@.slots.len(),
            forall|k: int| 0 <= k < r@.len() ==> (#[trigger] r@[k])@ == trim(self@.slots[k].raw),
    {
        pending_of(&self.blocks)
    }

    /// The text, the calls whose arguments read, and the names of those
    /// whose arguments did not.
    pub fn finish(self, parsed: &Vec<Option<Json>>) -> (r: (String, Vec<RawToolCall>, Vec<String>))
        ensures
            r.0@ == self@.text,
            raws_view(r.1@) == finish_calls(self@.slots, opt_jsons(parsed@)),
            crate::text::str_views(r.2@) == finish_dropped(self@.slots, opt_jsons(parsed@)),
    {
        let (calls, dropped) = finish_slots(&self.blocks, parsed);
        (self.text, calls, dropped)
    }
}

// ---------------------------------------------------------------------------
// Whole streams
// ---------------------------------------------------------------------------

proof fn lemma_slot_at_put(s: Seq<SlotV>, x: SlotV, idx: u64)
    ensures
        slot_at(put(s, x), idx) == if x.index == idx {
            x
        } else {
            slot_at(s, idx)
        },
    decreases s.len(),
{
    if s.len() == 0 {
        assert(put(s, x) == seq![x]);
        assert(seq![x][0] == x);
        assert(seq![x].drop_first() =~= s);
        if x.index != idx {
            assert(slot_at(seq![x], idx) == slot_at(seq![x].drop_first(), idx));
        }
    } else if s[0].index == x.index {
        let r = seq![x] + s.drop_first();
        assert(put(s, x) == r);
        assert(r[0] == x);
        assert(r.drop_first() =~= s.drop_first());
        if x.index != idx {
            assert(slot_at(r, idx) == slot_at(r.drop_first(), idx));
            assert(slot_at(s, idx) == slot_at(s.drop_first(), idx));
        }
    } else if s[0].index > x.index {
        let r = seq![x] + s;
        assert(put(s, x) == r);
        assert(r[0] == x);
        assert(r.drop_first() =~= s);
        if x.index != idx {
            assert(slot_at(r, idx) == slot_at(r.drop_first(), idx));
        }
    } else {
        let r = seq![s[0]] + put(s.drop_first(), x);
        assert(r[0] == s[0]);
        assert(r.drop_first() =~= put(s.drop_first(), x));
        lemma_slot_at_put(s.drop_first(), x, idx);
    }
}

/// An OpenAI stream after these chunks, one by one.
pub open spec fn openai_run(st: StreamV, chunks: Seq<JsonV>) -> StreamV
    decreases chunks.len(),
{
    if chunks.len() == 0 {
        st
    } else {
        openai_chunk(openai_run(st, chunks.drop_last()), chunks.last())
    }
}

/// The slot a `tool_calls` entry is for: its index, 0 when absent.
pub open spec fn call_index(c: JsonV) -> u64 {
    match get_u64(c, "index"@) {
        Some(i) => i,
        None => 0u64,
    }
}

/// The argument text a `tool_calls` entry brings for slot `idx`.
pub open spec fn call_args(c: JsonV, idx: u64) -> Seq<char> {
    if call_index(c) != idx {
        seq![]
    } else {
        match get_v(c, "function"@) {
            Some(f) => match get_str(f, "arguments"@) {
                Some(a) => a,
                None => seq![],
            },
            None => seq![],
        }
    }
}

/// The argument text a list of `tool_calls` entries brings for slot `idx`.
pub open spec fn calls_args(list: Seq<JsonV>, idx: u64) -> Seq<char>
    decreases list.len(),
{
    if list.len() == 0 {
        seq![]
    } else {
        calls_args(list.drop_last(), idx) + call_args(list.last(), idx)
    }
}

/// The argument text one chunk brings for slot `idx`.
pub open spec fn chunk_args(chunk: JsonV, idx: u64) -> Seq<char> {
    match openai_delta(chunk) {
        Some(d) => match get_arr(d, "tool_calls"@) {
            Some(list) => calls_args(list, idx),
            None => seq![],
        },
        None => seq![],
    }
}

/// The text one chunk brings.
pub open spec fn chunk_text(chunk: JsonV) -> Seq<char> {
    match openai_delta(chunk) {
        Some(d) => match fresh_text(d) {
            Some(t) => t,
            None => seq![],
        },
        None => seq![],
    }
}

/// All the argument text these chunks bring for slot `idx`, in order.
pub open spec fn stream_args(chunks: Seq<JsonV>, idx: u64) -> Seq<char>
    decreases chunks.len(),
{
    if chunks.len() == 0 {
        seq![]
    } else {
        stream_args(chunks.drop_last(), idx) + chunk_args(chunks.last(), idx)
    }
}

/// All the text these chunks bring, in order.
pub open spec fn stream_text(chunks: Seq<JsonV>) -> Seq<char>
    decreases chunks.len(),
{
    if chunks.len() == 0 {
        seq![]
    } else {
        stream_text(chunks.drop_last()) + chunk_text(chunks.last())
    }
}

proof fn lemma_openai_steps_args(slots: Seq<SlotV>, list: Seq<JsonV>, idx: u64)
    ensures
        slot_at(openai_steps(slots, list), idx).raw == slot_at(slots, idx).raw + calls_args(list, idx),
    decreases list.len(),
{
    if list.len() == 0 {
        assert(slot_at(slots, idx).raw + Seq::<char>::empty() =~= slot_at(slots, idx).raw);
    } else {
        let d = list.drop_last();
        let c = list.last();
        lemma_openai_steps_args(slots, d, idx);
        let before = openai_steps(slots, d);
        let ci = call_index(c);
        let old = slot_at(before, ci);
        let raw = match get_v(c, "function"@) {
            Some(f) => match get_str(f, "arguments"@) {
                Some(a) => old.raw + a,
                None => old.raw,
            },
            None => old.raw,
        };
        assert(raw =~= old.raw + call_args(c, ci));
        let x = SlotV {
            index: ci,
            id: match get_str(c, "id"@) {
                Some(v) => if v.len() > 0 {
                    v
                } else {
                    old.id
                },
                None => old.id,
            },
            name: match get_v(c, "function"@) {
                Some(f) => match get_str(f, "name"@) {
                    Some(n) => if n.len() > 0 {
                        n
                    } else {
                        old.name
                    },
                    None => old.name,
                },
                None => old.name,
            },
            raw,
        };
        assert(openai_steps(slots, list) == put(before, x));
        lemma_slot_at_put(before, x, idx);
        if ci == idx {
            assert(slot_at(slots, idx).raw + calls_args(list, idx) =~= slot_at(slots, idx).raw
                + calls_args(d, idx) + call_args(c, idx));
        } else {
            assert(call_args(c, idx) =~= Seq::<char>::empty());
            assert(calls_args(list, idx) =~= calls_args(d, idx));
        }
    }
}

/// A stream puts its pieces back together: after any run of chunks the text
/// is all the text they brought, in order, and each call's argument text is
/// every fragment sent for its index, in order, however it was split.
pub proof fn law_fragments_are_joined_in_order(st: StreamV, chunks: Seq<JsonV>, idx: u64)
    ensures
        openai_run(st, chunks).text == st.text + stream_text(chunks),
        slot_at(openai_run(st, chunks).slots, idx).raw == slot_at(st.slots, idx).raw + stream_args(
            chunks,
            idx,
        ),
        openai_run(st, chunks).done == st.done,
    decreases chunks.len(),
{
    if chunks.len() == 0 {
        assert(st.text + Seq::<char>::empty() =~= st.text);
        assert(slot_at(st.slots, idx).raw + Seq::<char>::empty() =~= slot_at(st.slots, idx).raw);
    } else {
        let d = chunks.drop_last();
        let c = chunks.last();
        law_fragments_are_joined_in_order(st, d, idx);
        let mid = openai_run(st, d);
        match openai_delta(c) {
            None => {
                assert(chunk_text(c) =~= Seq::<char>::empty());
                assert(chunk_args(c, idx) =~= Seq::<char>::empty());
                assert(stream_text(chunks) =~= stream_text(d));
                assert(stream_args(chunks, idx) =~= stream_args(d, idx));
            },
            Some(dl) => {
                match fresh_text(dl) {
                    Some(t) => {
                        assert(st.text + stream_text(chunks) =~= st.text + stream_text(d) + t);
                    },
                    None => {
                        assert(stream_text(chunks) =~= stream_text(d));
                    },
                }
                match get_arr(dl, "tool_calls"@) {
                    Some(list) => {
                        lemma_openai_steps_args(mid.slots, list, idx);
                        assert(slot_at(st.slots, idx).raw + stream_args(chunks, idx) =~= slot_at(
                            st.slots,
                            idx,
                        ).raw + stream_args(d, idx) + calls_args(list, idx));
                    },
                    None => {
                        assert(stream_args(chunks, idx) =~= stream_args(d, idx));
                    },
                }
            },
        }
    }
}

/// An Anthropic stream after these events, one by one.
pub open spec fn anthropic_run(st: StreamV, chunks: Seq<JsonV>) -> StreamV
    decreases chunks.len(),
{
    if chunks.len() == 0 {
        st
    } else {
        anthropic_chunk(anthropic_run(st, chunks.drop_last()), chunks.last())
    }
}

/// An event that ends an Anthropic stream: `message_stop`, or `error`.
pub open spec fn ends_stream(chunk: JsonV) -> bool {
    get_str(chunk, "type"@) == Some("message_stop"@) || get_str(chunk, "type"@) == Some("error"@)
}

proof fn lemma_anthropic_chunk_done(st: StreamV, c: JsonV)
    ensures
        anthropic_chunk(st, c).done == (st.done || ends_stream(c)),
        ends_stream(c) ==> anthropic_chunk(st, c) == (StreamV { done: true, ..st }),
{
    reveal_strlit("content_block_start");
    reveal_strlit("content_block_delta");
    reveal_strlit("message_stop");
    reveal_strlit("error");
    assert("content_block_start"@.len() == 19);
    assert("content_block_delta"@.len() == 19);
    assert("message_stop"@.len() == 12);
    assert("error"@.len() == 5);
}

/// An Anthropic stream is finished exactly when some event so far was a
/// `message_stop` or an `error`, and stays finished; such an event changes
/// nothing else, so the text received before an error is kept and a call
/// whose arguments were cut short stays as it was, to be dropped at the end.
pub proof fn law_a_stop_or_an_error_ends_the_stream(st: StreamV, chunks: Seq<JsonV>)
    ensures
        anthropic_run(st, chunks).done == (st.done || exists|k: int|
            0 <= k < chunks.len() && #[trigger] ends_stream(chunks[k])),
        chunks.len() > 0 && ends_stream(chunks.last()) ==> anthropic_run(st, chunks) == (StreamV {
            done: true,
            ..anthropic_run(st, chunks.drop_last())
        }),
    decreases chunks.len(),
{
    if chunks.len() > 0 {
        let d = chunks.drop_last();
        law_a_stop_or_an_error_ends_the_stream(st, d);
        lemma_anthropic_chunk_done(anthropic_run(st, d), chunks.last());
        if exists|k: int| 0 <= k < d.len() && #[trigger] ends_stream(d[k]) {
            let k = choose|k: int| 0 <= k < d.len() && #[trigger] ends_stream(d[k]);
            assert(chunks[k] == d[k]);
        }
        if exists|k: int| 0 <= k < chunks.len() && #[trigger] ends_stream(chunks[k]) {
            let k = choose|k: int| 0 <= k < chunks.len() && #[trigger] ends_stream(chunks[k]);
            if k < d.len() {
                assert(d[k] == chunks[k]);
            }
        }
        if ends_stream(chunks.last()) {
            assert(ends_stream(chunks[chunks.len() - 1]));
        }
    }
}

} // verus!
