//! The other managers a bot may pass an item to: the bots on the nodes under
//! its own, since a parent manages what is beneath it, and any bot someone
//! pulled into its thread. Never every bot on the machine.
use vstd::prelude::*;
use crate::text::{copy_str, push_str, str_views, trim, trim_str, is_blank, signed_decimal, i64_to_string};
use crate::bots::{Bot, Colleague, Persona, handle_of, slug};

verus! {

/// `c` is a child of `p`: some node is `c` with `p` as its parent.
pub open spec fn is_child(nodes: Seq<(i64, Option<i64>)>, p: i64, c: i64) -> bool {
    exists|i: int| 0 <= i < nodes.len() && #[trigger] nodes[i] == (c, Some(p))
}

/// The nodes at most `k` parent links below `root`.
pub open spec fn within(nodes: Seq<(i64, Option<i64>)>, root: i64, k: nat) -> Set<i64>
    decreases k,
{
    if k == 0 {
        Set::empty()
    } else {
        let w = within(nodes, root, (k - 1) as nat);
        w.union(Set::new(|c: i64| is_child(nodes, root, c) || exists|p: i64| w.contains(p) && is_child(nodes, p, c)))
    }
}

/// `x` is under `root`, however deep.
pub open spec fn is_under(nodes: Seq<(i64, Option<i64>)>, root: i64, x: i64) -> bool {
    exists|k: nat| #[trigger] within(nodes, root, k).contains(x)
}

pub open spec fn node_ids(nodes: Seq<(i64, Option<i64>)>) -> Set<i64> {
    nodes.map_values(|n: (i64, Option<i64>)| n.0).to_set()
}

proof fn lemma_within_mono(nodes: Seq<(i64, Option<i64>)>, root: i64, i: nat, j: nat)
    requires
        i <= j,
    ensures
        within(nodes, root, i).subset_of(within(nodes, root, j)),
    decreases j - i,
{
    if i < j {
        lemma_within_mono(nodes, root, i, (j - 1) as nat);
    }
}

proof fn lemma_within_ids(nodes: Seq<(i64, Option<i64>)>, root: i64, k: nat)
    ensures
        within(nodes, root, k).subset_of(node_ids(nodes)),
    decreases k,
{
    if k > 0 {
        lemma_within_ids(nodes, root, (k - 1) as nat);
        let ids = nodes.map_values(|n: (i64, Option<i64>)| n.0);
        assert forall|c: i64| #[trigger] within(nodes, root, k).contains(c) implies node_ids(nodes).contains(c) by {
            if !within(nodes, root, (k - 1) as nat).contains(c) {
                let i = if is_child(nodes, root, c) {
                    choose|i: int| 0 <= i < nodes.len() && #[trigger] nodes[i] == (c, Some(root))
                } else {
                    let p = choose|p: i64|
                        within(nodes, root, (k - 1) as nat).contains(p) && is_child(nodes, p, c);
                    choose|i: int| 0 <= i < nodes.len() && #[trigger] nodes[i] == (c, Some(p))
                };
                assert(ids[i] == c);
            }
        }
    }
}

proof fn lemma_within_fix(nodes: Seq<(i64, Option<i64>)>, root: i64, k: nat, j: nat)
    requires
        within(nodes, root, k + 1) == within(nodes, root, k),
        k <= j,
    ensures
        within(nodes, root, j) == within(nodes, root, k),
    decreases j - k,
{
    if j > k {
        lemma_within_fix(nodes, root, k, (j - 1) as nat);
        let a = within(nodes, root, (j - 1) as nat);
        assert(a == within(nodes, root, k));
        if j - 1 > k {
        }
        assert(within(nodes, root, j) =~= a.union(
            Set::new(|c: i64| is_child(nodes, root, c) || exists|p: i64| a.contains(p) && is_child(nodes, p, c)),
        ));
        assert(within(nodes, root, k + 1) =~= within(nodes, root, k).union(
            Set::new(
                |c: i64|
                    is_child(nodes, root, c) || exists|p: i64| within(nodes, root, k).contains(p) && is_child(nodes, p, c),
            ),
        ));
        assert(within(nodes, root, j) =~= within(nodes, root, k + 1));
    }
}

proof fn lemma_within_grows(nodes: Seq<(i64, Option<i64>)>, root: i64, k: nat)
    requires
        forall|j: nat| j < k ==> within(nodes, root, j + 1) != #[trigger] within(nodes, root, j),
    ensures
        within(nodes, root, k).len() >= k,
        within(nodes, root, k).finite(),
    decreases k,
{
    lemma_within_ids(nodes, root, k);
    vstd::seq_lib::seq_to_set_is_finite(nodes.map_values(|n: (i64, Option<i64>)| n.0));
    vstd::set_lib::lemma_len_subset(within(nodes, root, k), node_ids(nodes));
    if k > 0 {
        let k1 = (k - 1) as nat;
        lemma_within_grows(nodes, root, k1);
        lemma_within_mono(nodes, root, k1, k);
        let a = within(nodes, root, k1);
        let b = within(nodes, root, k);
        assert(b != a);
        let x = choose|x: i64| b.contains(x) && !a.contains(x);
        assert(exists|x: i64| b.contains(x) && !a.contains(x)) by {
            if !(exists|x: i64| b.contains(x) && !a.contains(x)) {
                assert(b =~= a);
            }
        }
        a.lemma_subset_not_in_lt(b, x);
    }
}

/// Past as many levels as there are nodes, nothing new is under `root`.
proof fn lemma_within_settles(nodes: Seq<(i64, Option<i64>)>, root: i64, k: nat)
    ensures
        within(nodes, root, k).subset_of(within(nodes, root, nodes.len() + 1)),
{
    let n = nodes.len();
    if k <= n + 1 {
        lemma_within_mono(nodes, root, k, n + 1);
    } else {
        if exists|j: nat| j < n + 1 && within(nodes, root, j + 1) == #[trigger] within(nodes, root, j) {
            let j = choose|j: nat| j < n + 1 && within(nodes, root, j + 1) == #[trigger] within(nodes, root, j);
            lemma_within_fix(nodes, root, j, k);
            lemma_within_fix(nodes, root, j, n + 1);
        } else {
            lemma_within_grows(nodes, root, n + 1);
            lemma_within_ids(nodes, root, n + 1);
            let ids = nodes.map_values(|n: (i64, Option<i64>)| n.0);
            ids.lemma_cardinality_of_set();
            vstd::seq_lib::seq_to_set_is_finite(ids);
            vstd::set_lib::lemma_len_subset(within(nodes, root, n + 1), node_ids(nodes));
        }
    }
}

proof fn lemma_under_is_within(nodes: Seq<(i64, Option<i64>)>, root: i64, x: i64)
    ensures
        is_under(nodes, root, x) <==> within(nodes, root, nodes.len() + 1).contains(x),
{
    if is_under(nodes, root, x) {
        let k = choose|k: nat| #[trigger] within(nodes, root, k).contains(x);
        lemma_within_settles(nodes, root, k);
    }
    if within(nodes, root, nodes.len() + 1).contains(x) {
        assert(within(nodes, root, (nodes.len() + 1) as nat).contains(x));
    }
}

fn holds_id(v: &Vec<i64>, x: i64) -> (r: bool)
    ensures
        r == v@.contains(x),
{
    let mut i: usize = 0;
    while i < v.len()
        invariant
            i <= v.len(),
            forall|j: int| 0 <= j < i ==> v@[j] != x,
        decreases v.len() - i,
    {
        if v[i] == x {
            assert(v@[i as int] == x);
            return true;
        }
        i = i + 1;
    }
    false
}

/// One more level: what is there, and every child of `root` or of
/// something there.
fn next_level(nodes: &Vec<(i64, Option<i64>)>, root: i64, found: &Vec<i64>, Ghost(k): Ghost<nat>) -> (r: Vec<i64>)
    requires
        found@.to_set() == within(nodes@, root, k),
    ensures
        r@.to_set() == within(nodes@, root, k + 1),
{
    let ghost w = within(nodes@, root, k);
    let ghost step = Set::new(|c: i64| is_child(nodes@, root, c) || exists|p: i64| w.contains(p) && is_child(nodes@, p, c));
    let mut next: Vec<i64> = Vec::new();
    let mut i: usize = 0;
    while i < found.len()
        invariant
            i <= found.len(),
            next@ == found@.take(i as int),
        decreases found.len() - i,
    {
        next.push(found[i]);
        i = i + 1;
        assert(next@ =~= found@.take(i as int));
    }
    assert(found@.take(found.len() as int) =~= found@);
    let mut j: usize = 0;
    while j < nodes.len()
        invariant
            j <= nodes.len(),
            found@.to_set() == w,
            w == within(nodes@, root, k),
            step == Set::new(
                |c: i64| is_child(nodes@, root, c) || exists|p: i64| w.contains(p) && is_child(nodes@, p, c),
            ),
            forall|x: i64| #[trigger] next@.contains(x) ==> w.contains(x) || step.contains(x),
            forall|x: i64| #[trigger] w.contains(x) ==> next@.contains(x),
            forall|i2: int|
                0 <= i2 < j ==> match #[trigger] nodes@[i2].1 {
                    Some(p) => (p == root || w.contains(p)) ==> next@.contains(nodes@[i2].0),
                    None => true,
                },
        decreases nodes.len() - j,
    {
        let (c, parent) = nodes[j];
        match parent {
            Some(p) => {
                if p == root || holds_id(found, p) {
                    proof {
                        assert(nodes@[j as int] == (c, Some(p)));
                        if p == root {
                            assert(is_child(nodes@, root, c));
                        } else {
                            assert(found@.contains(p));
                            assert(found@.to_set().contains(p));
                            assert(w.contains(p));
                            assert(is_child(nodes@, p, c));
                            assert(exists|q: i64| w.contains(q) && is_child(nodes@, q, c));
                        }
                        assert(step.contains(c));
                    }
                    if !holds_id(&next, c) {
                        let ghost before = next@;
                        next.push(c);
                        proof {
                            assert forall|x: i64| before.contains(x) implies #[trigger] next@.contains(x) by {
                                let i2 = choose|i2: int| 0 <= i2 < before.len() && before[i2] == x;
                                assert(next@[i2] == x);
                            }
                            assert forall|x: i64| #[trigger] next@.contains(x) implies before.contains(x) || x == c by {
                                let i2 = choose|i2: int| 0 <= i2 < next@.len() && next@[i2] == x;
                                if i2 < before.len() {
                                    assert(before[i2] == x);
                                }
                            }
                            assert(next@[before.len() as int] == c);
                        }
                    }
                }
            },
            None => {},
        }
        j = j + 1;
    }
    proof {
        let r = within(nodes@, root, k + 1);
        assert(r == w.union(step));
        assert forall|x: i64| #[trigger] next@.to_set().contains(x) == r.contains(x) by {
            if next@.contains(x) {
            }
            if step.contains(x) && !w.contains(x) {
                let pr = if is_child(nodes@, root, x) {
                    root
                } else {
                    choose|p: i64| w.contains(p) && is_child(nodes@, p, x)
                };
                let i2 = choose|i2: int| 0 <= i2 < nodes.len() && #[trigger] nodes@[i2] == (x, Some(pr));
                assert(nodes@[i2].1 == Some(pr));
            }
        }
        assert(next@.to_set() =~= r);
    }
    next
}

/// Every node under `root`, however deep.
pub fn descendants(nodes: &Vec<(i64, Option<i64>)>, root: i64) -> (r: Vec<i64>)
    requires
        nodes.len() < usize::MAX,
    ensures
        forall|x: i64| r@.contains(x) <==> is_under(nodes@, root, x),
{
    let mut found: Vec<i64> = Vec::new();
    assert(found@.to_set() =~= within(nodes@, root, 0));
    let mut round: usize = 0;
    while round <= nodes.len()
        invariant
            round <= nodes.len() + 1,
            nodes.len() < usize::MAX,
            found@.to_set() == within(nodes@, root, round as nat),
        decreases nodes.len() + 1 - round,
    {
        found = next_level(nodes, root, &found, Ghost(round as nat));
        round = round + 1;
    }
    proof {
        assert forall|x: i64| found@.contains(x) <==> is_under(nodes@, root, x) by {
            lemma_under_is_within(nodes@, root, x);
            assert(found@.contains(x) <==> found@.to_set().contains(x));
        }
    }
    found
}

/// The node a participant of the thread stands for, when it is a bot:
/// `bot:<node>`.
pub open spec fn bot_node(p: Seq<char>) -> Option<int> {
    if crate::text::starts_with(p, "bot:"@) {
        crate::text::parse_i64_spec(p.skip(4))
    } else {
        None
    }
}

/// The nodes under a bot, widened by every bot in its thread but itself,
/// each once.
pub open spec fn with_room(under: Seq<i64>, participants: Seq<Seq<char>>, own: i64) -> Seq<i64>
    decreases participants.len(),
{
    if participants.len() == 0 {
        under
    } else {
        let before = with_room(under, participants.drop_last(), own);
        match bot_node(participants.last()) {
            Some(id) => if id != own && !before.contains(id as i64) {
                before.push(id as i64)
            } else {
                before
            },
            None => before,
        }
    }
}

/// Widen the nodes under a bot with the bots in its thread.
pub fn add_room(under: &mut Vec<i64>, participants: &Vec<String>, own: i64)
    ensures
        final(under)@ == with_room(old(under)@, str_views(participants@), own),
{
    let ghost start = under@;
    let ghost ps = str_views(participants@);
    let mut i: usize = 0;
    while i < participants.len()
        invariant
            i <= participants.len(),
            ps == str_views(participants@),
            under@ == with_room(start, ps.take(i as int), own),
        decreases participants.len() - i,
    {
        proof {
            assert(ps.take(i + 1).drop_last() =~= ps.take(i as int));
            assert(ps.take(i + 1).last() == participants@[i as int]@);
        }
        let p = participants[i].as_str();
        if crate::text::starts_with_str(p, "bot:") {
            proof {
                reveal_strlit("bot:");
            }
            let cs = crate::text::chars_of(p);
            let rest = crate::text::from_sub(&cs, 4, cs.len());
            assert(rest@ =~= p@.skip(4));
            match crate::text::parse_i64(rest.as_str()) {
                Some(id) => {
                    if id != own && !holds_id(under, id) {
                        under.push(id);
                    }
                },
                None => {},
            }
        }
        i = i + 1;
    }
    assert(ps.take(participants.len() as int) =~= ps);
}

/// What a colleague is known by: the handle to write, its name, its node
/// (which is also its project), and its plan when it has one.
pub open spec fn colleague_ok(c: Colleague, b: Bot) -> bool {
    &&& c.handle@ == (if trim(b.node_name@).len() > 0 {
        slug(b.node_name@)
    } else {
        slug(b.name@)
    })
    &&& c.name@ == b.name@
    &&& c.node_id == b.node_id
    &&& c.project_id@ == signed_decimal(b.node_id as int)
    &&& match c.plan {
        Some(f) => trim(b.feature@).len() > 0 && f@ == trim(b.feature@),
        None => trim(b.feature@).len() == 0,
    }
}

/// The bots on these nodes, in the order given, as colleagues.
pub fn colleagues_of(bots: &Vec<Bot>, under: &Vec<i64>) -> (r: Vec<Colleague>)
    ensures
        r@.len() == bots@.filter(|b: Bot| under@.contains(b.node_id)).len(),
        forall|i: int|
            0 <= i < r@.len() ==> colleague_ok(
                #[trigger] r@[i],
                bots@.filter(|b: Bot| under@.contains(b.node_id))[i],
            ),
{
    let ghost f = |b: Bot| under@.contains(b.node_id);
    let mut r: Vec<Colleague> = Vec::new();
    let mut i: usize = 0;
    while i < bots.len()
        invariant
            i <= bots.len(),
            f == (|b: Bot| under@.contains(b.node_id)),
            r@.len() == bots@.take(i as int).filter(f).len(),
            forall|j: int| 0 <= j < r@.len() ==> colleague_ok(#[trigger] r@[j], bots@.take(i as int).filter(f)[j]),
        decreases bots.len() - i,
    {
        proof {
            assert(bots@.take(i + 1) =~= bots@.take(i as int).push(bots@[i as int]));
            bots@.take(i as int).lemma_filter_push(bots@[i as int], f);
        }
        let b = &bots[i];
        if holds_id(under, b.node_id) {
            let feature = trim_str(b.feature.as_str());
            let plan = if feature.as_str().is_empty() {
                None
            } else {
                Some(feature)
            };
            r.push(
                Colleague {
                    handle: handle_of(b),
                    name: copy_str(b.name.as_str()),
                    node_id: b.node_id,
                    project_id: i64_to_string(b.node_id),
                    plan,
                },
            );
        }
        i = i + 1;
    }
    assert(bots@.take(bots.len() as int) =~= bots@);
    r
}

/// A colleague as the voice names it: `@handle (name)`.
pub open spec fn mention(c: Colleague) -> Seq<char> {
    "@"@ + c.handle@ + " ("@ + c.name@ + ")"@
}

pub open spec fn mentions(cs: Seq<Colleague>) -> Seq<Seq<char>> {
    cs.map_values(|c: Colleague| mention(c))
}

/// What the voice is told of the managers it may pass an item to.
pub open spec fn hand_on_text(cs: Seq<Colleague>) -> Seq<char> {
    "\n\nThe managers you may pass an item to, when it belongs to them rather than to you: "@ + crate::text::join(
        mentions(cs),
        ", "@,
    ) + ". Write @handle take \"title\" and it goes onto their plan and is announced in their thread — it does not start anyone, because they decide who does it."@
}

/// The voice, with the managers it may pass work to, and told of them when
/// there are any.
pub fn hand_on(p: &mut Persona, colleagues: Vec<Colleague>)
    ensures
        final(p).hand_on_to@ == colleagues@,
        final(p).system@ == old(p).system@ + if colleagues@.len() > 0 {
            hand_on_text(colleagues@)
        } else {
            seq![]
        },
        final(p).manages_with == old(p).manages_with,
        final(p).agent_id == old(p).agent_id,
        final(p).runs_as == old(p).runs_as,
        final(p).name == old(p).name,
        final(p).may_delegate_to == old(p).may_delegate_to,
        final(p).plan == old(p).plan,
        final(p).talk_only == old(p).talk_only,
{
    if colleagues.len() > 0 {
        let mut parts: Vec<String> = Vec::new();
        let mut i: usize = 0;
        while i < colleagues.len()
            invariant
                i <= colleagues.len(),
                str_views(parts@) == mentions(colleagues@).take(i as int),
            decreases colleagues.len() - i,
        {
            let mut m = copy_str("@");
            push_str(&mut m, colleagues[i].handle.as_str());
            push_str(&mut m, " (");
            push_str(&mut m, colleagues[i].name.as_str());
            push_str(&mut m, ")");
            let ghost before = parts@;
            parts.push(m);
            proof {
                assert(str_views(parts@) =~= str_views(before).push(m@));
                assert(mentions(colleagues@).take(i + 1) =~= mentions(colleagues@).take(i as int).push(
                    mention(colleagues@[i as int]),
                ));
            }
            i = i + 1;
        }
        assert(mentions(colleagues@).take(colleagues.len() as int) =~= mentions(colleagues@));
        push_str(&mut p.system, "\n\nThe managers you may pass an item to, when it belongs to them rather than to you: ");
        push_str(&mut p.system, crate::text::join_strings(&parts, ", ").as_str());
        push_str(
            &mut p.system,
            ". Write @handle take \"title\" and it goes onto their plan and is announced in their thread — it does not start anyone, because they decide who does it.",
        );
    } else {
        assert(old(p).system@ + Seq::<char>::empty() =~= old(p).system@);
    }
    p.hand_on_to = colleagues;
}

} // verus!
