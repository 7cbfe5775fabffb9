//! The broadcast node: a state machine that stores every integer value it is
//! told about, answers reads with the set so far, and disseminates values to
//! its peers through delta gossip with per-peer confirmation views.
//!
//! Each handler is a pure function from the current state and one inbound
//! envelope to the next state and the ordered list of outbound envelopes;
//! the contracts pin both down exactly.

use vstd::prelude::*;

use crate::protocol::InitPayload;
use crate::protocol::Message;
use crate::protocol::MessageBuilder;
use crate::protocol::Node;
use crate::protocol::NodeError;
use crate::protocol::Payload;
use crate::valset::add_all;
use crate::valset::add_all_present;
use crate::valset::clone_strings;
use crate::valset::clone_usizes;
use crate::valset::compute_delta;
use crate::valset::contains_val;
use crate::valset::delta_seq;
use crate::valset::insert_new;
use crate::valset::insert_seq;
use crate::valset::lemma_delta_set;
use crate::valset::lemma_insert_seq_set;
use crate::valset::lemma_union_app_no_dups;
use crate::valset::lemma_union_app_set;
use crate::valset::lemma_union_present_no_dups;
use crate::valset::lemma_union_present_set;
use crate::valset::no_dups;
use crate::valset::union_app;
use crate::valset::union_present;

verus! {

/// The payload union of the broadcast protocol. `Gossip` carries a batch of
/// values between peers; `Share` carries a snapshot of the sender's
/// confirmation table so knowledge of who has what propagates transitively;
/// `TriggerGossip` is the synthetic self-addressed envelope the periodic
/// ticker enqueues.
pub enum BroadcastPayload {
    TriggerGossip,
    Gossip { messages: Vec<usize> },
    Share { known: Vec<(String, Vec<usize>)> },
    Broadcast { message: usize },
    BroadcastOk,
    Read,
    ReadOk { messages: Vec<usize> },
    Topology { topology: Vec<(String, Vec<String>)> },
    TopologyOk,
}

impl Payload for BroadcastPayload {
}

/// The broadcast node's state. `values` is the set of values observed so
/// far, duplicate-free, in first-insertion order. `peers` is the neighbour
/// list assigned by the most recent topology, and `views[i]` is the set of
/// values known to have reached `peers[i]`, by local reckoning.
pub struct BroadcastNode {
    pub id: String,
    pub msg_id: usize,
    pub values: Vec<usize>,
    pub peers: Vec<String>,
    pub views: Vec<Vec<usize>>,
}

impl BroadcastNode {
    /// Structural well-formedness: one view per peer, no duplicates anywhere.
    pub open spec fn wf(self) -> bool {
        &&& self.views@.len() == self.peers@.len()
        &&& no_dups(self.values@)
        &&& forall|i: int| 0 <= i < self.views@.len() ==> no_dups((#[trigger] self.views@[i])@)
    }

    /// The value set as a set.
    pub open spec fn values_set(self) -> Set<usize> {
        self.values@.to_set()
    }

    /// What this node believes peer `i` has, as a set.
    pub open spec fn view_set(self, i: int) -> Set<usize> {
        self.views@[i]@.to_set()
    }
}

/// The envelope `out` is a reply derived from `input` carrying sequence
/// number `id`: source and destination swapped relative to `input` unless
/// redirected, correlation number copied from `input`.
pub open spec fn reply_header(
    out: Message<BroadcastPayload>,
    input: Message<BroadcastPayload>,
    id: int,
) -> bool {
    &&& out.src == input.dest
    &&& (out.body.msg_id matches Some(n) && n == id)
    &&& out.body.in_reply_to == input.body.msg_id
}

/// The envelope `out` is a gossip emitted in reaction to `input`, addressed
/// to `target` and carrying exactly the values `vals`.
pub open spec fn gossip_to(
    out: Message<BroadcastPayload>,
    input: Message<BroadcastPayload>,
    id: int,
    target: String,
    vals: Seq<usize>,
) -> bool {
    &&& reply_header(out, input, id)
    &&& out.dest == target
    &&& (out.body.payload matches BroadcastPayload::Gossip { messages } && messages@ == vals)
}

/// The indices `j < i` of peers whose view does not contain `m`, in order:
/// the peers a fresh value must be fanned out to.
pub open spec fn missing_upto(views: Seq<Vec<usize>>, m: usize, i: int) -> Seq<int>
    decreases i,
{
    if i <= 0 {
        Seq::empty()
    } else if views[i - 1]@.contains(m) {
        missing_upto(views, m, i - 1)
    } else {
        missing_upto(views, m, i - 1).push(i - 1)
    }
}

/// Every index listed by `missing_upto` lies below its bound.
pub proof fn lemma_missing_upto_bounds(views: Seq<Vec<usize>>, m: usize, i: int)
    ensures
        forall|j: int|
            0 <= j < missing_upto(views, m, i).len() ==> 0 <= #[trigger] missing_upto(
                views,
                m,
                i,
            )[j] < i,
    decreases i,
{
    if i > 0 {
        lemma_missing_upto_bounds(views, m, i - 1);
        let p = missing_upto(views, m, i - 1);
        let c = missing_upto(views, m, i);
        assert forall|j: int| 0 <= j < c.len() implies 0 <= #[trigger] c[j] < i by {
            if !views[i - 1]@.contains(m) && j == p.len() {
                assert(c[j] == i - 1);
            } else {
                assert(c[j] == p[j]);
            }
        }
    }
}

/// At most one fan-out target per peer looked at.
pub proof fn lemma_missing_upto_len(views: Seq<Vec<usize>>, m: usize, i: int)
    ensures
        missing_upto(views, m, i).len() <= (if i <= 0 {
            0
        } else {
            i
        }),
    decreases i,
{
    if i > 0 {
        lemma_missing_upto_len(views, m, i - 1);
    }
}

/// How `reply` answers a client `broadcast`: the value is inserted, the
/// acknowledgement is the first envelope out, and one single-value gossip
/// follows for each peer not yet known to hold the value, in peer order,
/// consuming consecutive sequence numbers.
pub open spec fn broadcast_post(
    pre: BroadcastNode,
    input: Message<BroadcastPayload>,
    post: BroadcastNode,
    out: Seq<Message<BroadcastPayload>>,
) -> bool {
    let m = input.body.payload->message;
    let miss = missing_upto(pre.views@, m, pre.peers@.len() as int);
    &&& post.id == pre.id
    &&& post.peers == pre.peers
    &&& post.views == pre.views
    &&& post.values@ == insert_seq(pre.values@, m)
    &&& post.msg_id == pre.msg_id + 1 + miss.len()
    &&& out.len() == 1 + miss.len()
    &&& reply_header(out[0], input, pre.msg_id as int)
    &&& out[0].dest == input.src
    &&& out[0].body.payload is BroadcastOk
    &&& forall|k: int|
        1 <= k < out.len() ==> gossip_to(
            #[trigger] out[k],
            input,
            pre.msg_id + k,
            pre.peers@[miss[k - 1]],
            seq![m],
        )
}

/// How `reply` answers a client `read`: one `read_ok` carrying a snapshot of
/// the value set, nothing else, state unchanged but for the counter.
pub open spec fn read_post(
    pre: BroadcastNode,
    input: Message<BroadcastPayload>,
    post: BroadcastNode,
    out: Seq<Message<BroadcastPayload>>,
) -> bool {
    &&& post.id == pre.id
    &&& post.values == pre.values
    &&& post.peers == pre.peers
    &&& post.views == pre.views
    &&& post.msg_id == pre.msg_id + 1
    &&& out.len() == 1
    &&& reply_header(out[0], input, pre.msg_id as int)
    &&& out[0].dest == input.src
    &&& (out[0].body.payload matches BroadcastPayload::ReadOk { messages } && messages@
        == pre.values@)
}

/// The indices `j < i` of peers whose address differs from `src`, in order:
/// the peers a value arriving from `src` is forwarded to.
pub open spec fn others_upto(peers: Seq<String>, src: Seq<char>, i: int) -> Seq<int>
    decreases i,
{
    if i <= 0 {
        Seq::empty()
    } else if peers[i - 1]@ == src {
        others_upto(peers, src, i - 1)
    } else {
        others_upto(peers, src, i - 1).push(i - 1)
    }
}

/// Every index listed by `others_upto` lies below its bound.
pub proof fn lemma_others_upto_bounds(peers: Seq<String>, src: Seq<char>, i: int)
    ensures
        forall|j: int|
            0 <= j < others_upto(peers, src, i).len() ==> 0 <= #[trigger] others_upto(
                peers,
                src,
                i,
            )[j] < i,
    decreases i,
{
    if i > 0 {
        lemma_others_upto_bounds(peers, src, i - 1);
        let p = others_upto(peers, src, i - 1);
        let c = others_upto(peers, src, i);
        assert forall|j: int| 0 <= j < c.len() implies 0 <= #[trigger] c[j] < i by {
            if peers[i - 1]@ != src && j == p.len() {
                assert(c[j] == i - 1);
            } else {
                assert(c[j] == p[j]);
            }
        }
    }
}

/// At most one forwarding target per peer looked at.
pub proof fn lemma_others_upto_len(peers: Seq<String>, src: Seq<char>, i: int)
    ensures
        others_upto(peers, src, i).len() <= (if i <= 0 {
            0
        } else {
            i
        }),
    decreases i,
{
    if i > 0 {
        lemma_others_upto_len(peers, src, i - 1);
    }
}

/// No peer is forgotten: every peer index other than the sender's is listed.
pub proof fn lemma_others_upto_complete(peers: Seq<String>, src: Seq<char>, i: int, j: int)
    requires
        0 <= j < i,
        peers[j]@ != src,
    ensures
        exists|q: int|
            0 <= q < others_upto(peers, src, i).len() && #[trigger] others_upto(peers, src, i)[q]
                == j,
    decreases i,
{
    let c = others_upto(peers, src, i);
    if j == i - 1 {
        assert(c[c.len() - 1] == j);
    } else {
        lemma_others_upto_complete(peers, src, i - 1, j);
        let p = others_upto(peers, src, i - 1);
        let q = choose|q: int| 0 <= q < p.len() && p[q] == j;
        assert(c[q] == j);
    }
}

/// Every peer listed is indeed not the sender.
pub proof fn lemma_others_upto_excludes(peers: Seq<String>, src: Seq<char>, i: int)
    ensures
        forall|q: int|
            0 <= q < others_upto(peers, src, i).len() ==> peers[#[trigger] others_upto(
                peers,
                src,
                i,
            )[q]]@ != src,
    decreases i,
{
    if i > 0 {
        lemma_others_upto_excludes(peers, src, i - 1);
        lemma_others_upto_bounds(peers, src, i - 1);
        let p = others_upto(peers, src, i - 1);
        let c = others_upto(peers, src, i);
        assert forall|q: int| 0 <= q < c.len() implies peers[#[trigger] c[q]]@ != src by {
            if peers[i - 1]@ != src && q == p.len() {
                assert(c[q] == i - 1);
            } else {
                assert(c[q] == p[q]);
            }
        }
    }
}

/// No peer is forgotten: every peer whose view misses the value is listed.
pub proof fn lemma_missing_upto_complete(views: Seq<Vec<usize>>, m: usize, i: int, j: int)
    requires
        0 <= j < i,
        !views[j]@.contains(m),
    ensures
        exists|q: int|
            0 <= q < missing_upto(views, m, i).len() && #[trigger] missing_upto(views, m, i)[q]
                == j,
    decreases i,
{
    let c = missing_upto(views, m, i);
    if j == i - 1 {
        assert(c[c.len() - 1] == j);
    } else {
        lemma_missing_upto_complete(views, m, i - 1, j);
        let p = missing_upto(views, m, i - 1);
        let q = choose|q: int| 0 <= q < p.len() && p[q] == j;
        assert(c[q] == j);
    }
}

/// One (message index, peer index) pair for each envelope the fan-out of a
/// gossip batch emits, in emission order: message-major, and only for values
/// that are fresh at the position they occupy in the batch.
pub open spec fn gossip_plan(
    vals: Seq<usize>,
    peers: Seq<String>,
    src: Seq<char>,
    xs: Seq<usize>,
    a: int,
) -> Seq<(int, int)>
    decreases a,
{
    if a <= 0 {
        Seq::empty()
    } else {
        let rest = gossip_plan(vals, peers, src, xs, a - 1);
        if !union_app(vals, xs.take(a - 1)).contains(xs[a - 1]) {
            let others = others_upto(peers, src, peers.len() as int);
            rest + Seq::new(others.len(), |q: int| ((a - 1) as int, others[q]))
        } else {
            rest
        }
    }
}

/// The fan-out never emits more than one envelope per value and peer.
pub proof fn lemma_gossip_plan_len(
    vals: Seq<usize>,
    peers: Seq<String>,
    src: Seq<char>,
    xs: Seq<usize>,
    a: int,
)
    ensures
        gossip_plan(vals, peers, src, xs, a).len() <= (if a <= 0 {
            0
        } else {
            a * peers.len()
        }),
    decreases a,
{
    if a > 0 {
        lemma_gossip_plan_len(vals, peers, src, xs, a - 1);
        lemma_others_upto_len(peers, src, peers.len() as int);
        let p = peers.len() as int;
        assert((a - 1) * p + p == a * p) by (nonlinear_arith);
        if a - 1 > 0 {
        } else {
            assert(gossip_plan(vals, peers, src, xs, a - 1).len() == 0);
        }
    }
}

/// Every pair listed by the plan names a position in the batch and a peer.
pub proof fn lemma_gossip_plan_bounds(
    vals: Seq<usize>,
    peers: Seq<String>,
    src: Seq<char>,
    xs: Seq<usize>,
    a: int,
)
    ensures
        forall|k: int|
            0 <= k < gossip_plan(vals, peers, src, xs, a).len() ==> {
                let pair = #[trigger] gossip_plan(vals, peers, src, xs, a)[k];
                0 <= pair.0 < a && 0 <= pair.1 < peers.len()
            },
    decreases a,
{
    if a > 0 {
        lemma_gossip_plan_bounds(vals, peers, src, xs, a - 1);
        lemma_others_upto_bounds(peers, src, peers.len() as int);
        let rest = gossip_plan(vals, peers, src, xs, a - 1);
        let c = gossip_plan(vals, peers, src, xs, a);
        assert forall|k: int| 0 <= k < c.len() implies {
            let pair = #[trigger] c[k];
            0 <= pair.0 < a && 0 <= pair.1 < peers.len()
        } by {
            if k < rest.len() {
                assert(c[k] == rest[k]);
            }
        }
    }
}

/// Extending the fan-out plan over more of the batch only appends: every
/// pair planned for the first `a` positions stands unchanged, at the same
/// place, in the plan for the first `b`.
pub proof fn lemma_gossip_plan_prefix(
    vals: Seq<usize>,
    peers: Seq<String>,
    src: Seq<char>,
    xs: Seq<usize>,
    a: int,
    b: int,
)
    requires
        0 <= a <= b,
    ensures
        gossip_plan(vals, peers, src, xs, a).len() <= gossip_plan(vals, peers, src, xs, b).len(),
        forall|k: int|
            0 <= k < gossip_plan(vals, peers, src, xs, a).len() ==> #[trigger] gossip_plan(
                vals,
                peers,
                src,
                xs,
                b,
            )[k] == gossip_plan(vals, peers, src, xs, a)[k],
    decreases b - a,
{
    if a < b {
        lemma_gossip_plan_prefix(vals, peers, src, xs, a, b - 1);
        let p = gossip_plan(vals, peers, src, xs, b - 1);
        let c = gossip_plan(vals, peers, src, xs, b);
        assert forall|k: int| 0 <= k < gossip_plan(vals, peers, src, xs, a).len() implies #[trigger] c[k]
            == gossip_plan(vals, peers, src, xs, a)[k] by {
            assert(c[k] == p[k]);
        }
    }
}

/// The fan-out plan never names the sender as a target.
pub proof fn lemma_gossip_plan_excludes_sender(
    vals: Seq<usize>,
    peers: Seq<String>,
    src: Seq<char>,
    xs: Seq<usize>,
    a: int,
)
    ensures
        forall|k: int|
            0 <= k < gossip_plan(vals, peers, src, xs, a).len() ==> peers[(#[trigger] gossip_plan(
                vals,
                peers,
                src,
                xs,
                a,
            )[k]).1]@ != src,
    decreases a,
{
    if a > 0 {
        lemma_gossip_plan_excludes_sender(vals, peers, src, xs, a - 1);
        lemma_others_upto_excludes(peers, src, peers.len() as int);
        let rest = gossip_plan(vals, peers, src, xs, a - 1);
        let c = gossip_plan(vals, peers, src, xs, a);
        let others = others_upto(peers, src, peers.len() as int);
        assert forall|k: int| 0 <= k < c.len() implies peers[(#[trigger] c[k]).1]@ != src by {
            if k < rest.len() {
                assert(c[k] == rest[k]);
            } else {
                assert(c[k] == ((a - 1) as int, others[k - rest.len()]));
            }
        }
    }
}

/// How `reply` reacts to a peer's `gossip`: the sender is credited with
/// every carried value, each value fresh to this node is appended to the
/// value set and forwarded to every peer but the sender, and no reply goes
/// back to the sender.
pub open spec fn gossip_post(
    pre: BroadcastNode,
    input: Message<BroadcastPayload>,
    post: BroadcastNode,
    out: Seq<Message<BroadcastPayload>>,
) -> bool {
    let xs = input.body.payload->Gossip_messages;
    let plan = gossip_plan(pre.values@, pre.peers@, input.src@, xs@, xs@.len() as int);
    &&& post.id == pre.id
    &&& post.peers == pre.peers
    &&& post.msg_id == pre.msg_id + plan.len()
    &&& post.values@ == union_app(pre.values@, xs@)
    &&& post.views@.len() == pre.views@.len()
    &&& forall|i: int|
        0 <= i < pre.views@.len() ==> (#[trigger] post.views@[i])@ == (if pre.peers@[i]@
            == input.src@ {
            union_app(pre.views@[i]@, xs@)
        } else {
            pre.views@[i]@
        })
    &&& out.len() == plan.len()
    &&& forall|k: int|
        0 <= k < out.len() ==> gossip_to(
            #[trigger] out[k],
            input,
            pre.msg_id + k,
            pre.peers@[plan[k].1],
            seq![xs@[plan[k].0]],
        )
}

/// The confirmation views after the first `e` entries of a peer's `share`
/// snapshot have been applied: each entry credits every peer bearing the
/// entry's name with the entry's values — but only with those this node
/// holds itself (`vals`), so a view never claims a value the node lacks.
pub open spec fn share_upto(
    pre_views: Seq<Vec<usize>>,
    peers: Seq<String>,
    vals: Seq<usize>,
    known: Seq<(String, Vec<usize>)>,
    e: int,
) -> Seq<Seq<usize>>
    decreases e,
{
    if e <= 0 {
        Seq::new(pre_views.len(), |i: int| pre_views[i]@)
    } else {
        let v = share_upto(pre_views, peers, vals, known, e - 1);
        Seq::new(
            v.len(),
            |i: int|
                if peers[i]@ == known[e - 1].0@ {
                    union_present(v[i], known[e - 1].1@, vals)
                } else {
                    v[i]
                },
        )
    }
}

/// Applying a share snapshot touches no view's position: one view per peer
/// throughout.
pub proof fn lemma_share_upto_len(
    pre_views: Seq<Vec<usize>>,
    peers: Seq<String>,
    vals: Seq<usize>,
    known: Seq<(String, Vec<usize>)>,
    e: int,
)
    ensures
        share_upto(pre_views, peers, vals, known, e).len() == pre_views.len(),
    decreases e,
{
    if e > 0 {
        lemma_share_upto_len(pre_views, peers, vals, known, e - 1);
    }
}

/// Applying a share snapshot keeps every view duplicate-free.
pub proof fn lemma_share_upto_no_dups(
    pre_views: Seq<Vec<usize>>,
    peers: Seq<String>,
    vals: Seq<usize>,
    known: Seq<(String, Vec<usize>)>,
    e: int,
)
    requires
        forall|i: int| 0 <= i < pre_views.len() ==> no_dups((#[trigger] pre_views[i])@),
    ensures
        forall|i: int|
            0 <= i < share_upto(pre_views, peers, vals, known, e).len() ==> no_dups(
                #[trigger] share_upto(pre_views, peers, vals, known, e)[i],
            ),
    decreases e,
{
    if e > 0 {
        lemma_share_upto_no_dups(pre_views, peers, vals, known, e - 1);
        let v = share_upto(pre_views, peers, vals, known, e - 1);
        let c = share_upto(pre_views, peers, vals, known, e);
        assert forall|i: int| 0 <= i < c.len() implies no_dups(#[trigger] c[i]) by {
            if peers[i]@ == known[e - 1].0@ {
                lemma_union_present_no_dups(v[i], known[e - 1].1@, vals);
                assert(c[i] == union_present(v[i], known[e - 1].1@, vals));
            } else {
                assert(c[i] == v[i]);
            }
        }
    }
}

/// Applying a share snapshot keeps every view inside the value set: each
/// step only adds values that are in `vals`.
pub proof fn lemma_share_upto_bounded(
    pre_views: Seq<Vec<usize>>,
    peers: Seq<String>,
    vals: Seq<usize>,
    known: Seq<(String, Vec<usize>)>,
    e: int,
)
    requires
        forall|i: int|
            0 <= i < pre_views.len() ==> (#[trigger] pre_views[i])@.to_set().subset_of(
                vals.to_set(),
            ),
    ensures
        forall|i: int|
            0 <= i < share_upto(pre_views, peers, vals, known, e).len() ==> (
            #[trigger] share_upto(pre_views, peers, vals, known, e)[i]).to_set().subset_of(
                vals.to_set(),
            ),
    decreases e,
{
    if e > 0 {
        lemma_share_upto_bounded(pre_views, peers, vals, known, e - 1);
        let v = share_upto(pre_views, peers, vals, known, e - 1);
        let c = share_upto(pre_views, peers, vals, known, e);
        assert forall|i: int| 0 <= i < c.len() implies (#[trigger] c[i]).to_set().subset_of(
            vals.to_set(),
        ) by {
            if peers[i]@ == known[e - 1].0@ {
                lemma_union_present_set(v[i], known[e - 1].1@, vals);
                assert(c[i] == union_present(v[i], known[e - 1].1@, vals));
            } else {
                assert(c[i] == v[i]);
            }
        }
    }
}

/// How `reply` reacts to a peer's `share` snapshot: the confirmation views
/// absorb it entry by entry — crediting each named peer only with carried
/// values this node holds itself — nothing is emitted, nothing else changes.
pub open spec fn share_post(
    pre: BroadcastNode,
    input: Message<BroadcastPayload>,
    post: BroadcastNode,
    out: Seq<Message<BroadcastPayload>>,
) -> bool {
    let known = input.body.payload->known;
    &&& post.id == pre.id
    &&& post.msg_id == pre.msg_id
    &&& post.values == pre.values
    &&& post.peers == pre.peers
    &&& post.views@.len() == pre.views@.len()
    &&& forall|i: int|
        0 <= i < post.views@.len() ==> (#[trigger] post.views@[i])@ == share_upto(
            pre.views@,
            pre.peers@,
            pre.values@,
            known@,
            known@.len() as int,
        )[i]
    &&& out.len() == 0
}

/// The emission schedule of one gossip tick, over the first `i` peers: for
/// each peer in order, a gossip pair (index, true) when the delta owed to
/// that peer is non-empty, then always a share pair (index, false).
pub open spec fn tick_plan_upto(n: BroadcastNode, i: int) -> Seq<(int, bool)>
    decreases i,
{
    if i <= 0 {
        Seq::empty()
    } else {
        let rest = tick_plan_upto(n, i - 1);
        if delta_seq(n.values@, n.views@[i - 1]@).len() == 0 {
            rest.push((i - 1, false))
        } else {
            rest.push((i - 1, true)).push((i - 1, false))
        }
    }
}

/// A tick emits at least one and at most two envelopes per peer.
pub proof fn lemma_tick_plan_len(n: BroadcastNode, i: int)
    ensures
        tick_plan_upto(n, i).len() <= (if i <= 0 {
            0
        } else {
            2 * i
        }),
        i >= 0 ==> tick_plan_upto(n, i).len() >= i,
    decreases i,
{
    if i > 0 {
        lemma_tick_plan_len(n, i - 1);
    }
}

/// Every pair in the tick schedule names a peer.
pub proof fn lemma_tick_plan_bounds(n: BroadcastNode, i: int)
    ensures
        forall|k: int|
            0 <= k < tick_plan_upto(n, i).len() ==> 0 <= (#[trigger] tick_plan_upto(n, i)[k]).0
                < i,
    decreases i,
{
    if i > 0 {
        lemma_tick_plan_bounds(n, i - 1);
        let p = tick_plan_upto(n, i - 1);
        let c = tick_plan_upto(n, i);
        assert forall|k: int| 0 <= k < c.len() implies 0 <= (#[trigger] c[k]).0 < i by {
            if k < p.len() {
                assert(c[k] == p[k]);
            }
        }
    }
}

/// `known` is a snapshot of the node's confirmation table: one entry per
/// peer, in peer order, carrying that peer's view.
pub open spec fn known_snapshot(known: Seq<(String, Vec<usize>)>, n: BroadcastNode) -> bool {
    &&& known.len() == n.peers@.len()
    &&& forall|i: int|
        0 <= i < known.len() ==> (#[trigger] known[i]).0 == n.peers@[i] && known[i].1@
            == n.views@[i]@
}

/// The envelope `out` is what a tick emits for the schedule entry `item`:
/// self-sourced, numbered `id`, correlating to nothing, addressed to the
/// entry's peer; a gossip carrying exactly the delta owed to that peer, or a
/// share carrying the snapshot of the whole confirmation table.
pub open spec fn tick_msg_ok(
    out: Message<BroadcastPayload>,
    n: BroadcastNode,
    id: int,
    item: (int, bool),
) -> bool {
    &&& out.src == n.id
    &&& out.dest == n.peers@[item.0]
    &&& (out.body.msg_id matches Some(x) && x == id)
    &&& out.body.in_reply_to is None
    &&& (if item.1 {
        out.body.payload matches BroadcastPayload::Gossip { messages } && messages@ == delta_seq(
            n.values@,
            n.views@[item.0]@,
        )
    } else {
        out.body.payload matches BroadcastPayload::Share { known } && known_snapshot(known@, n)
    })
}

/// How `reply` reacts to the ticker's synthetic `trigger_gossip`: for each
/// peer in order it emits the non-empty delta still owed to that peer as a
/// gossip, then a share snapshot of the confirmation table, on consecutive
/// sequence numbers; the state is unchanged but for the counter.
pub open spec fn tick_post(
    pre: BroadcastNode,
    post: BroadcastNode,
    out: Seq<Message<BroadcastPayload>>,
) -> bool {
    let plan = tick_plan_upto(pre, pre.peers@.len() as int);
    &&& post.id == pre.id
    &&& post.values == pre.values
    &&& post.peers == pre.peers
    &&& post.views == pre.views
    &&& post.msg_id == pre.msg_id + plan.len()
    &&& out.len() == plan.len()
    &&& forall|k: int|
        0 <= k < out.len() ==> tick_msg_ok(#[trigger] out[k], pre, pre.msg_id + k, plan[k])
}

/// The first index at or after `i` whose key reads `id`, or -1.
pub open spec fn find_entry(t: Seq<(String, Vec<String>)>, id: Seq<char>, i: int) -> int
    decreases t.len() - i,
{
    if i < 0 || i >= t.len() {
        -1
    } else if t[i].0@ == id {
        i
    } else {
        find_entry(t, id, i + 1)
    }
}

/// How `reply` answers a `topology`: if the mapping has no entry for this
/// node the message is refused and nothing changes; otherwise the peer list
/// is replaced by the entry's list, every view is reset to empty — entries
/// for peers no longer present are forgotten — and a `topology_ok` goes
/// back. The acknowledgement carries no sequence number: numbered replies
/// start at 1 with the first broadcast or read answer.
pub open spec fn topology_post(
    pre: BroadcastNode,
    input: Message<BroadcastPayload>,
    post: BroadcastNode,
    r: Result<Vec<Message<BroadcastPayload>>, NodeError>,
) -> bool {
    let t = input.body.payload->topology;
    let e = find_entry(t@, pre.id@, 0);
    if e < 0 {
        &&& (r matches Err(err) && err == NodeError::SelfNotInTopology)
        &&& post == pre
    } else {
        &&& post.id == pre.id
        &&& post.values == pre.values
        &&& post.msg_id == pre.msg_id
        &&& post.peers@ == t@[e].1@
        &&& post.views@.len() == post.peers@.len()
        &&& forall|i: int|
            0 <= i < post.views@.len() ==> (#[trigger] post.views@[i])@ == Seq::<usize>::empty()
        &&& (r matches Ok(out) && {
            &&& out@.len() == 1
            &&& out@[0].src == input.dest
            &&& out@[0].dest == input.src
            &&& out@[0].body.msg_id is None
            &&& out@[0].body.in_reply_to == input.body.msg_id
            &&& out@[0].body.payload is TopologyOk
        })
    }
}

/// Finds the topology entry whose key is this node's own id.
fn find_self_entry(t: &Vec<(String, Vec<String>)>, id: &String) -> (r: Option<usize>)
    ensures
        match r {
            Some(e) => e < t@.len() && find_entry(t@, id@, 0) == e,
            None => find_entry(t@, id@, 0) == -1,
        },
{
    let mut e: usize = 0;
    while e < t.len()
        invariant
            e <= t@.len(),
            find_entry(t@, id@, 0) == find_entry(t@, id@, e as int),
        decreases t@.len() - e,
    {
        if t[e].0.eq(id) {
            return Some(e);
        }
        e = e + 1;
    }
    None
}

impl BroadcastNode {
    /// Handles a client `broadcast` of the value `m`.
    fn handle_broadcast(&mut self, input: &Message<BroadcastPayload>, m: usize) -> (out: Vec<
        Message<BroadcastPayload>,
    >)
        requires
            old(self).wf(),
            (input.body.payload matches BroadcastPayload::Broadcast { message } && message == m),
            old(self).msg_id + 1 + old(self).peers@.len() <= usize::MAX,
        ensures
            final(self).wf(),
            broadcast_post(*old(self), *input, *final(self), out@),
    {
        let mut out: Vec<Message<BroadcastPayload>> = Vec::new();
        insert_new(&mut self.values, m);
        out.push(input.into_reply(Some(self.msg_id), BroadcastPayload::BroadcastOk).build());
        self.msg_id = self.msg_id + 1;
        let ghost pre = *old(self);
        let mut i: usize = 0;
        while i < self.peers.len()
            invariant
                self.id == pre.id,
                self.peers == pre.peers,
                self.views == pre.views,
                self.values@ == insert_seq(pre.values@, m),
                no_dups(self.values@),
                pre.wf(),
                i <= pre.peers@.len(),
                pre.msg_id + 1 + pre.peers@.len() <= usize::MAX,
                self.msg_id == pre.msg_id + 1 + missing_upto(pre.views@, m, i as int).len(),
                out@.len() == 1 + missing_upto(pre.views@, m, i as int).len(),
                reply_header(out@[0], *input, pre.msg_id as int),
                out@[0].dest == input.src,
                out@[0].body.payload is BroadcastOk,
                forall|k: int|
                    1 <= k < out@.len() ==> gossip_to(
                        #[trigger] out@[k],
                        *input,
                        pre.msg_id + k,
                        pre.peers@[missing_upto(pre.views@, m, i as int)[k - 1]],
                        seq![m],
                    ),
            decreases pre.peers@.len() - i,
        {
            proof {
                lemma_missing_upto_bounds(pre.views@, m, i as int);
                lemma_missing_upto_bounds(pre.views@, m, i as int + 1);
                lemma_missing_upto_len(pre.views@, m, i as int);
                lemma_missing_upto_len(pre.views@, m, i as int + 1);
            }
            if !contains_val(&self.views[i], m) {
                let mut messages: Vec<usize> = Vec::new();
                messages.push(m);
                out.push(
                    input.into_reply(
                        Some(self.msg_id),
                        BroadcastPayload::Gossip { messages },
                    ).send_to(self.peers[i].clone()).build(),
                );
                self.msg_id = self.msg_id + 1;
            }
            i = i + 1;
        }
        out
    }

    /// Handles a client `read`.
    fn handle_read(&mut self, input: &Message<BroadcastPayload>) -> (out: Vec<
        Message<BroadcastPayload>,
    >)
        requires
            old(self).wf(),
            input.body.payload is Read,
            old(self).msg_id < usize::MAX,
        ensures
            final(self).wf(),
            read_post(*old(self), *input, *final(self), out@),
    {
        let mut out: Vec<Message<BroadcastPayload>> = Vec::new();
        let messages = clone_usizes(&self.values);
        out.push(
            input.into_reply(Some(self.msg_id), BroadcastPayload::ReadOk { messages }).build(),
        );
        self.msg_id = self.msg_id + 1;
        out
    }

    /// Handles a `topology` assignment.
    fn handle_topology(
        &mut self,
        input: &Message<BroadcastPayload>,
        t: &Vec<(String, Vec<String>)>,
    ) -> (r: Result<Vec<Message<BroadcastPayload>>, NodeError>)
        requires
            old(self).wf(),
            (input.body.payload matches BroadcastPayload::Topology { topology } && topology == t),
        ensures
            final(self).wf(),
            topology_post(*old(self), *input, *final(self), r),
    {
        let found = find_self_entry(t, &self.id);
        if found.is_none() {
            return Err(NodeError::SelfNotInTopology);
        }
        let e = found.unwrap();
        let peers = clone_strings(&t[e].1);
        let mut views: Vec<Vec<usize>> = Vec::new();
        while views.len() < peers.len()
            invariant
                views@.len() <= peers@.len(),
                forall|i: int|
                    0 <= i < views@.len() ==> (#[trigger] views@[i])@ == Seq::<usize>::empty(),
            decreases peers@.len() - views@.len(),
        {
            let empty_view: Vec<usize> = Vec::new();
            views.push(empty_view);
        }
        self.peers = peers;
        self.views = views;
        let mut out: Vec<Message<BroadcastPayload>> = Vec::new();
        out.push(input.into_reply(None, BroadcastPayload::TopologyOk).build());
        Ok(out)
    }

    /// Handles a peer's `gossip` batch.
    fn handle_gossip(&mut self, input: &Message<BroadcastPayload>, xs: &Vec<usize>) -> (out: Vec<
        Message<BroadcastPayload>,
    >)
        requires
            old(self).wf(),
            (input.body.payload matches BroadcastPayload::Gossip { messages } && messages == xs),
            old(self).msg_id + xs@.len() * old(self).peers@.len() <= usize::MAX,
        ensures
            final(self).wf(),
            gossip_post(*old(self), *input, *final(self), out@),
    {
        let ghost pre = *old(self);
        let mut i: usize = 0;
        while i < self.peers.len()
            invariant
                pre.wf(),
                self.id == pre.id,
                self.msg_id == pre.msg_id,
                self.values == pre.values,
                self.peers == pre.peers,
                i <= pre.peers@.len(),
                self.views@.len() == pre.views@.len(),
                forall|j: int|
                    0 <= j < pre.views@.len() ==> (#[trigger] self.views@[j])@ == (if j < i
                        && pre.peers@[j]@ == input.src@ {
                        union_app(pre.views@[j]@, xs@)
                    } else {
                        pre.views@[j]@
                    }),
                forall|j: int| 0 <= j < self.views@.len() ==> no_dups((#[trigger] self.views@[j])@),
            decreases pre.peers@.len() - i,
        {
            if self.peers[i].eq(&input.src) {
                proof {
                    lemma_union_app_no_dups(self.views@[i as int]@, xs@);
                }
                add_all(&mut self.views[i], xs);
            }
            i = i + 1;
        }
        let ghost mid_views = self.views@;
        let mut out: Vec<Message<BroadcastPayload>> = Vec::new();
        let mut a: usize = 0;
        while a < xs.len()
            invariant
                pre.wf(),
                self.id == pre.id,
                self.peers == pre.peers,
                self.views@ == mid_views,
                a <= xs@.len(),
                pre.msg_id + xs@.len() * pre.peers@.len() <= usize::MAX,
                self.values@ == union_app(pre.values@, xs@.take(a as int)),
                no_dups(self.values@),
                self.msg_id == pre.msg_id + gossip_plan(
                    pre.values@,
                    pre.peers@,
                    input.src@,
                    xs@,
                    a as int,
                ).len(),
                out@.len() == gossip_plan(pre.values@, pre.peers@, input.src@, xs@, a as int).len(),
                forall|k: int|
                    0 <= k < out@.len() ==> gossip_to(
                        #[trigger] out@[k],
                        *input,
                        pre.msg_id + k,
                        pre.peers@[gossip_plan(pre.values@, pre.peers@, input.src@, xs@, a as int)[k].1],
                        seq![xs@[gossip_plan(pre.values@, pre.peers@, input.src@, xs@, a as int)[k].0]],
                    ),
            decreases xs@.len() - a,
        {
            let ghost plan_a = gossip_plan(pre.values@, pre.peers@, input.src@, xs@, a as int);
            proof {
                assert(xs@.take(a as int + 1).drop_last() =~= xs@.take(a as int));
                assert(xs@.take(a as int + 1).last() == xs@[a as int]);
                lemma_gossip_plan_len(pre.values@, pre.peers@, input.src@, xs@, a as int);
                lemma_gossip_plan_bounds(pre.values@, pre.peers@, input.src@, xs@, a as int);
            }
            let fresh = insert_new(&mut self.values, xs[a]);
            if fresh {
                let ghost others = others_upto(pre.peers@, input.src@, pre.peers@.len() as int);
                let mut p: usize = 0;
                while p < self.peers.len()
                    invariant
                        pre.wf(),
                        self.id == pre.id,
                        self.peers == pre.peers,
                        self.views@ == mid_views,
                        a < xs@.len(),
                        p <= pre.peers@.len(),
                        pre.msg_id + xs@.len() * pre.peers@.len() <= usize::MAX,
                        self.values@ == union_app(pre.values@, xs@.take(a as int + 1)),
                        no_dups(self.values@),
                        plan_a == gossip_plan(pre.values@, pre.peers@, input.src@, xs@, a as int),
                        plan_a.len() <= a as int * pre.peers@.len(),
                        self.msg_id == pre.msg_id + plan_a.len() + others_upto(
                            pre.peers@,
                            input.src@,
                            p as int,
                        ).len(),
                        out@.len() == plan_a.len() + others_upto(
                            pre.peers@,
                            input.src@,
                            p as int,
                        ).len(),
                        forall|k: int|
                            0 <= k < out@.len() ==> gossip_to(
                                #[trigger] out@[k],
                                *input,
                                pre.msg_id + k,
                                pre.peers@[(if k < plan_a.len() {
                                    plan_a[k].1
                                } else {
                                    others_upto(pre.peers@, input.src@, p as int)[k - plan_a.len()]
                                })],
                                seq![
                                    xs@[(if k < plan_a.len() {
                                        plan_a[k].0
                                    } else {
                                        a as int
                                    })],
                                ],
                            ),
                    decreases pre.peers@.len() - p,
                {
                    proof {
                        lemma_others_upto_bounds(pre.peers@, input.src@, p as int);
                        lemma_others_upto_bounds(pre.peers@, input.src@, p as int + 1);
                        lemma_others_upto_len(pre.peers@, input.src@, p as int);
                        lemma_others_upto_len(pre.peers@, input.src@, p as int + 1);
                        assert((a as int + 1) * pre.peers@.len() <= xs@.len() * pre.peers@.len())
                            by (nonlinear_arith)
                            requires
                                a as int + 1 <= xs@.len(),
                                pre.peers@.len() >= 0,
                        ;
                        assert(a as int * pre.peers@.len() + pre.peers@.len() == (a as int + 1)
                            * pre.peers@.len()) by (nonlinear_arith);
                    }
                    if !self.peers[p].eq(&input.src) {
                        let mut messages: Vec<usize> = Vec::new();
                        messages.push(xs[a]);
                        out.push(
                            input.into_reply(
                                Some(self.msg_id),
                                BroadcastPayload::Gossip { messages },
                            ).send_to(self.peers[p].clone()).build(),
                        );
                        self.msg_id = self.msg_id + 1;
                    }
                    p = p + 1;
                }
                proof {
                    let plan_next = gossip_plan(
                        pre.values@,
                        pre.peers@,
                        input.src@,
                        xs@,
                        a as int + 1,
                    );
                    assert(plan_next.len() == plan_a.len() + others.len());
                    assert forall|k: int| 0 <= k < out@.len() implies gossip_to(
                        #[trigger] out@[k],
                        *input,
                        pre.msg_id + k,
                        pre.peers@[plan_next[k].1],
                        seq![xs@[plan_next[k].0]],
                    ) by {
                        if k < plan_a.len() {
                            assert(plan_next[k] == plan_a[k]);
                        } else {
                            assert(plan_next[k] == (a as int, others[k - plan_a.len()]));
                        }
                    }
                }
            } else {
                proof {
                    assert(gossip_plan(pre.values@, pre.peers@, input.src@, xs@, a as int + 1)
                        == plan_a);
                }
            }
            a = a + 1;
        }
        proof {
            assert(xs@.take(xs@.len() as int) =~= xs@);
        }
        out
    }

    /// Handles a peer's `share` snapshot.
    fn handle_share(
        &mut self,
        input: &Message<BroadcastPayload>,
        known: &Vec<(String, Vec<usize>)>,
    ) -> (out: Vec<Message<BroadcastPayload>>)
        requires
            old(self).wf(),
            (input.body.payload matches BroadcastPayload::Share { known: k } && k == known),
        ensures
            final(self).wf(),
            share_post(*old(self), *input, *final(self), out@),
    {
        let ghost pre = *old(self);
        let mut e: usize = 0;
        while e < known.len()
            invariant
                pre.wf(),
                self.id == pre.id,
                self.msg_id == pre.msg_id,
                self.values == pre.values,
                self.peers == pre.peers,
                e <= known@.len(),
                self.views@.len() == pre.views@.len(),
                forall|i: int|
                    0 <= i < self.views@.len() ==> (#[trigger] self.views@[i])@ == share_upto(
                        pre.views@,
                        pre.peers@,
                        pre.values@,
                        known@,
                        e as int,
                    )[i],
                forall|i: int| 0 <= i < self.views@.len() ==> no_dups((#[trigger] self.views@[i])@),
            decreases known@.len() - e,
        {
            let ghost mid = share_upto(pre.views@, pre.peers@, pre.values@, known@, e as int);
            proof {
                lemma_share_upto_len(pre.views@, pre.peers@, pre.values@, known@, e as int);
                lemma_share_upto_len(pre.views@, pre.peers@, pre.values@, known@, e as int + 1);
            }
            let mut i: usize = 0;
            while i < self.peers.len()
                invariant
                    pre.wf(),
                    self.id == pre.id,
                    self.msg_id == pre.msg_id,
                    self.values == pre.values,
                    self.peers == pre.peers,
                    e < known@.len(),
                    i <= pre.peers@.len(),
                    self.views@.len() == pre.views@.len(),
                    mid == share_upto(pre.views@, pre.peers@, pre.values@, known@, e as int),
                    mid.len() == pre.views@.len(),
                    self.values == pre.values,
                    forall|j: int|
                        0 <= j < self.views@.len() ==> (#[trigger] self.views@[j])@ == (if j < i
                            && pre.peers@[j]@ == known@[e as int].0@ {
                            union_present(mid[j], known@[e as int].1@, pre.values@)
                        } else {
                            mid[j]
                        }),
                    forall|j: int|
                        0 <= j < self.views@.len() ==> no_dups((#[trigger] self.views@[j])@),
                decreases pre.peers@.len() - i,
            {
                if self.peers[i].eq(&known[e].0) {
                    proof {
                        lemma_union_present_no_dups(
                            self.views@[i as int]@,
                            known@[e as int].1@,
                            pre.values@,
                        );
                    }
                    add_all_present(&mut self.views[i], &known[e].1, &self.values);
                }
                i = i + 1;
            }
            e = e + 1;
        }
        Vec::new()
    }

    /// A snapshot of the confirmation table, one entry per peer.
    fn snapshot_known(&self) -> (r: Vec<(String, Vec<usize>)>)
        requires
            self.views@.len() == self.peers@.len(),
        ensures
            known_snapshot(r@, *self),
    {
        let mut r: Vec<(String, Vec<usize>)> = Vec::new();
        let mut i: usize = 0;
        while i < self.peers.len()
            invariant
                self.views@.len() == self.peers@.len(),
                i <= self.peers@.len(),
                r@.len() == i,
                forall|j: int|
                    0 <= j < i ==> (#[trigger] r@[j]).0 == self.peers@[j] && r@[j].1@
                        == self.views@[j]@,
            decreases self.peers@.len() - i,
        {
            r.push((self.peers[i].clone(), clone_usizes(&self.views[i])));
            i = i + 1;
        }
        r
    }

    /// Handles the ticker's synthetic `trigger_gossip`.
    fn handle_tick(&mut self) -> (out: Vec<Message<BroadcastPayload>>)
        requires
            old(self).wf(),
            old(self).msg_id + 2 * old(self).peers@.len() <= usize::MAX,
        ensures
            final(self).wf(),
            tick_post(*old(self), *final(self), out@),
    {
        let ghost pre = *old(self);
        let mut out: Vec<Message<BroadcastPayload>> = Vec::new();
        let mut i: usize = 0;
        while i < self.peers.len()
            invariant
                pre.wf(),
                self.id == pre.id,
                self.values == pre.values,
                self.peers == pre.peers,
                self.views == pre.views,
                i <= pre.peers@.len(),
                pre.msg_id + 2 * pre.peers@.len() <= usize::MAX,
                self.msg_id == pre.msg_id + tick_plan_upto(pre, i as int).len(),
                out@.len() == tick_plan_upto(pre, i as int).len(),
                forall|k: int|
                    0 <= k < out@.len() ==> tick_msg_ok(
                        #[trigger] out@[k],
                        pre,
                        pre.msg_id + k,
                        tick_plan_upto(pre, i as int)[k],
                    ),
            decreases pre.peers@.len() - i,
        {
            proof {
                lemma_tick_plan_len(pre, i as int);
                lemma_tick_plan_len(pre, i as int + 1);
                lemma_tick_plan_bounds(pre, i as int);
                lemma_tick_plan_bounds(pre, i as int + 1);
            }
            let d = compute_delta(&self.values, &self.views[i]);
            if d.len() > 0 {
                out.push(
                    MessageBuilder::empty().send_to(self.peers[i].clone()).src(
                        self.id.clone(),
                    ).with_body(
                        Some(self.msg_id),
                        None,
                        BroadcastPayload::Gossip { messages: d },
                    ).build(),
                );
                self.msg_id = self.msg_id + 1;
            }
            let known = self.snapshot_known();
            out.push(
                MessageBuilder::empty().send_to(self.peers[i].clone()).src(
                    self.id.clone(),
                ).with_body(Some(self.msg_id), None, BroadcastPayload::Share { known }).build(),
            );
            self.msg_id = self.msg_id + 1;
            i = i + 1;
        }
        out
    }
}

/// Set monotonicity: across any single `reply` step, whatever the payload
/// and whatever the outcome, no value ever leaves the node's value set.
pub proof fn lemma_values_monotonic(
    pre: BroadcastNode,
    input: Message<BroadcastPayload>,
    post: BroadcastNode,
    r: Result<Vec<Message<BroadcastPayload>>, NodeError>,
)
    requires
        BroadcastNode::reply_ens(pre, input, post, r),
    ensures
        pre.values_set().subset_of(post.values_set()),
{
    match input.body.payload {
        BroadcastPayload::Broadcast { message } => {
            lemma_insert_seq_set(pre.values@, message);
        },
        BroadcastPayload::Gossip { messages } => {
            lemma_union_app_set(pre.values@, messages@);
        },
        _ => {},
    }
}

/// Acknowledgement ordering: the `broadcast_ok` is the very first envelope
/// a `broadcast` provokes, and nothing else emitted while handling it is a
/// `read_ok` — so on the node's output stream the acknowledgement precedes
/// every read answer that includes the value.
pub proof fn lemma_ack_precedes_reads(
    pre: BroadcastNode,
    input: Message<BroadcastPayload>,
    post: BroadcastNode,
    out: Seq<Message<BroadcastPayload>>,
)
    requires
        input.body.payload is Broadcast,
        broadcast_post(pre, input, post, out),
    ensures
        out.len() >= 1,
        reply_header(out[0], input, pre.msg_id as int),
        out[0].dest == input.src,
        out[0].body.payload is BroadcastOk,
        forall|k: int| 0 <= k < out.len() ==> !((#[trigger] out[k]).body.payload is ReadOk),
{
    assert forall|k: int| 0 <= k < out.len() implies !((#[trigger] out[k]).body.payload
        is ReadOk) by {
        if k >= 1 {
            let m = input.body.payload->message;
            let miss = missing_upto(pre.views@, m, pre.peers@.len() as int);
            assert(gossip_to(out[k], input, pre.msg_id + k, pre.peers@[miss[k - 1]], seq![m]));
        }
    }
}

/// Gossip suppression: a value already recorded in the view of peer `i` is
/// never part of the delta a tick would send to that peer, so once evidence
/// of receipt is in, retransmission of that value stops.
pub proof fn lemma_gossip_suppression(n: BroadcastNode, i: int, v: usize)
    requires
        0 <= i < n.views@.len(),
        n.view_set(i).contains(v),
    ensures
        !delta_seq(n.values@, n.views@[i]@).contains(v),
{
    lemma_delta_set(n.values@, n.views@[i]@);
    if delta_seq(n.values@, n.views@[i]@).contains(v) {
        assert(delta_seq(n.values@, n.views@[i]@).to_set().contains(v));
    }
}

/// Retransmission: every value the node holds that the view of peer `i`
/// lacks is part of the delta of every tick, for as long as no evidence of
/// receipt arrives.
pub proof fn lemma_tick_retransmits(n: BroadcastNode, i: int, v: usize)
    requires
        0 <= i < n.views@.len(),
        n.values_set().contains(v),
        !n.view_set(i).contains(v),
    ensures
        delta_seq(n.values@, n.views@[i]@).contains(v),
{
    lemma_delta_set(n.values@, n.views@[i]@);
    assert(delta_seq(n.values@, n.views@[i]@).to_set().contains(v));
}

/// View soundness: every confirmation view stays inside the value set
/// across any `reply` step — a peer is only ever credited with values this
/// node holds itself, a `share` snapshot included.
pub proof fn lemma_views_stay_bounded(
    pre: BroadcastNode,
    input: Message<BroadcastPayload>,
    post: BroadcastNode,
    r: Result<Vec<Message<BroadcastPayload>>, NodeError>,
)
    requires
        BroadcastNode::reply_ens(pre, input, post, r),
        forall|i: int| 0 <= i < pre.views@.len() ==> #[trigger] pre.view_set(i).subset_of(
            pre.values_set(),
        ),
    ensures
        forall|i: int| 0 <= i < post.views@.len() ==> #[trigger] post.view_set(i).subset_of(
            post.values_set(),
        ),
{
    if input.body.payload matches BroadcastPayload::Share { .. } {
        let known = input.body.payload->known;
        assert forall|i: int| 0 <= i < pre.views@.len() implies (
        #[trigger] pre.views@[i])@.to_set().subset_of(pre.values@.to_set()) by {
            assert(pre.view_set(i).subset_of(pre.values_set()));
        }
        lemma_share_upto_len(pre.views@, pre.peers@, pre.values@, known@, known@.len() as int);
        lemma_share_upto_bounded(pre.views@, pre.peers@, pre.values@, known@, known@.len() as int);
    }
    assert forall|i: int| 0 <= i < post.views@.len() implies #[trigger] post.view_set(i).subset_of(
        post.values_set(),
    ) by {
        match input.body.payload {
            BroadcastPayload::Broadcast { message } => {
                lemma_insert_seq_set(pre.values@, message);
                assert(pre.view_set(i).subset_of(pre.values_set()));
                assert(post.view_set(i) == pre.view_set(i));
            },
            BroadcastPayload::Gossip { messages } => {
                lemma_union_app_set(pre.values@, messages@);
                lemma_union_app_set(pre.views@[i]@, messages@);
                assert(pre.view_set(i).subset_of(pre.values_set()));
            },
            BroadcastPayload::Topology { .. } => {
                let t = input.body.payload->topology;
                if find_entry(t@, pre.id@, 0) >= 0 {
                    assert(post.views@[i]@ == Seq::<usize>::empty());
                    assert(forall|v: usize| !post.views@[i]@.contains(v));
                } else {
                    assert(pre.view_set(i).subset_of(pre.values_set()));
                }
            },
            BroadcastPayload::Share { .. } => {
                let known = input.body.payload->known;
                assert(post.views@[i]@ == share_upto(
                    pre.views@,
                    pre.peers@,
                    pre.values@,
                    known@,
                    known@.len() as int,
                )[i]);
            },
            _ => {
                assert(pre.view_set(i).subset_of(pre.values_set()));
                assert(post.view_set(i) == pre.view_set(i));
            },
        }
    }
}

/// Sequence-number freshness: every numbered envelope one `reply` step
/// emits carries a number taken from the counter's interval for that step,
/// no two of them share a number, and the counter moves past all of them —
/// so numbers are unique over the node's whole lifetime.
pub proof fn lemma_msg_ids_fresh_and_distinct(
    pre: BroadcastNode,
    input: Message<BroadcastPayload>,
    post: BroadcastNode,
    out: Vec<Message<BroadcastPayload>>,
)
    requires
        BroadcastNode::reply_ens(pre, input, post, Ok(out)),
    ensures
        post.msg_id >= pre.msg_id,
        forall|k: int|
            0 <= k < out@.len() ==> ((#[trigger] out@[k]).body.msg_id matches Some(n)
                ==> pre.msg_id <= n < post.msg_id),
        forall|k1: int, k2: int|
            0 <= k1 < k2 < out@.len() && (#[trigger] out@[k1]).body.msg_id is Some && (
            #[trigger] out@[k2]).body.msg_id is Some ==> out@[k1].body.msg_id
                != out@[k2].body.msg_id,
{
    match input.body.payload {
        BroadcastPayload::Topology { .. } => {
            let t = input.body.payload->topology;
            if find_entry(t@, pre.id@, 0) >= 0 {
                assert(out@[0].body.msg_id is None);
            }
        },
        _ => {},
    }
}

/// Extending the tick schedule over more peers only appends: every entry
/// planned for the first `i` peers stands unchanged, at the same place, in
/// the schedule for the first `j`.
pub proof fn lemma_tick_plan_prefix(n: BroadcastNode, i: int, j: int)
    requires
        0 <= i <= j,
    ensures
        tick_plan_upto(n, i).len() <= tick_plan_upto(n, j).len(),
        forall|k: int|
            0 <= k < tick_plan_upto(n, i).len() ==> #[trigger] tick_plan_upto(n, j)[k]
                == tick_plan_upto(n, i)[k],
    decreases j - i,
{
    if i < j {
        lemma_tick_plan_prefix(n, i, j - 1);
        let p = tick_plan_upto(n, j - 1);
        let c = tick_plan_upto(n, j);
        assert forall|k: int| 0 <= k < tick_plan_upto(n, i).len() implies #[trigger] c[k]
            == tick_plan_upto(n, i)[k] by {
            assert(c[k] == p[k]);
        }
    }
}

/// Retransmission on the wire: as long as the view of peer `i` misses
/// anything the node holds, every tick emits a gossip to that peer carrying
/// exactly the outstanding delta.
pub proof fn lemma_tick_emits_delta(
    pre: BroadcastNode,
    post: BroadcastNode,
    out: Seq<Message<BroadcastPayload>>,
    i: int,
)
    requires
        tick_post(pre, post, out),
        0 <= i < pre.peers@.len(),
        delta_seq(pre.values@, pre.views@[i]@).len() != 0,
    ensures
        exists|k: int|
            0 <= k < out.len() && (#[trigger] out[k]).dest == pre.peers@[i]
                && (out[k].body.payload matches BroadcastPayload::Gossip { messages } && messages@
                == delta_seq(pre.values@, pre.views@[i]@)),
{
    let k = tick_plan_upto(pre, i).len() as int;
    lemma_tick_plan_len(pre, i);
    lemma_tick_plan_len(pre, i + 1);
    lemma_tick_plan_prefix(pre, i + 1, pre.peers@.len() as int);
    assert(tick_plan_upto(pre, i + 1)[k] == (i, true));
    assert(tick_plan_upto(pre, pre.peers@.len() as int)[k] == (i, true));
    assert(tick_msg_ok(out[k], pre, pre.msg_id + k, (i, true)));
}

/// Fan-out completeness: a `broadcast` of a value provokes a gossip
/// carrying it to every peer not yet known to hold it.
pub proof fn lemma_broadcast_reaches_missing(
    pre: BroadcastNode,
    input: Message<BroadcastPayload>,
    post: BroadcastNode,
    out: Seq<Message<BroadcastPayload>>,
    i: int,
)
    requires
        pre.wf(),
        (input.body.payload matches BroadcastPayload::Broadcast { message }),
        broadcast_post(pre, input, post, out),
        0 <= i < pre.peers@.len(),
        !pre.view_set(i).contains(input.body.payload->message),
    ensures
        exists|k: int|
            1 <= k < out.len() && (#[trigger] out[k]).dest == pre.peers@[i]
                && (out[k].body.payload matches BroadcastPayload::Gossip { messages } && messages@
                == seq![input.body.payload->message]),
{
    let m = input.body.payload->message;
    let miss = missing_upto(pre.views@, m, pre.peers@.len() as int);
    lemma_missing_upto_complete(pre.views@, m, pre.peers@.len() as int, i);
    let q = choose|q: int| 0 <= q < miss.len() && miss[q] == i;
    assert(gossip_to(out[q + 1], input, pre.msg_id + q + 1, pre.peers@[miss[q]], seq![m]));
}

/// Forwarding completeness: a value fresh at its position in a gossip batch
/// is forwarded to every peer other than the sender.
pub proof fn lemma_gossip_forwards_fresh(
    pre: BroadcastNode,
    input: Message<BroadcastPayload>,
    post: BroadcastNode,
    out: Seq<Message<BroadcastPayload>>,
    a: int,
    j: int,
)
    requires
        pre.wf(),
        (input.body.payload matches BroadcastPayload::Gossip { messages }),
        gossip_post(pre, input, post, out),
        0 <= a < input.body.payload->Gossip_messages@.len(),
        !union_app(pre.values@, input.body.payload->Gossip_messages@.take(a)).contains(
            input.body.payload->Gossip_messages@[a],
        ),
        0 <= j < pre.peers@.len(),
        pre.peers@[j]@ != input.src@,
    ensures
        exists|k: int|
            0 <= k < out.len() && (#[trigger] out[k]).dest == pre.peers@[j]
                && (out[k].body.payload matches BroadcastPayload::Gossip { messages } && messages@
                == seq![input.body.payload->Gossip_messages@[a]]),
{
    let xs = input.body.payload->Gossip_messages;
    let peers_len = pre.peers@.len() as int;
    let others = others_upto(pre.peers@, input.src@, peers_len);
    let plan_a = gossip_plan(pre.values@, pre.peers@, input.src@, xs@, a);
    let plan_next = gossip_plan(pre.values@, pre.peers@, input.src@, xs@, a + 1);
    let plan = gossip_plan(pre.values@, pre.peers@, input.src@, xs@, xs@.len() as int);
    lemma_others_upto_complete(pre.peers@, input.src@, peers_len, j);
    let q = choose|q: int| 0 <= q < others.len() && others[q] == j;
    let k = plan_a.len() + q;
    assert(plan_next[k] == (a, j));
    lemma_gossip_plan_prefix(pre.values@, pre.peers@, input.src@, xs@, a + 1, xs@.len() as int);
    assert(plan[k] == (a, j));
    assert(gossip_to(out[k], input, pre.msg_id + k, pre.peers@[j], seq![xs@[a]]));
}

/// Nothing is echoed: no envelope a gossip provokes is addressed back to
/// its sender.
pub proof fn lemma_gossip_skips_sender(
    pre: BroadcastNode,
    input: Message<BroadcastPayload>,
    post: BroadcastNode,
    out: Seq<Message<BroadcastPayload>>,
)
    requires
        (input.body.payload matches BroadcastPayload::Gossip { messages }),
        gossip_post(pre, input, post, out),
    ensures
        forall|k: int| 0 <= k < out.len() ==> (#[trigger] out[k]).dest@ != input.src@,
{
    let xs = input.body.payload->Gossip_messages;
    let plan = gossip_plan(pre.values@, pre.peers@, input.src@, xs@, xs@.len() as int);
    lemma_gossip_plan_excludes_sender(pre.values@, pre.peers@, input.src@, xs@, xs@.len() as int);
    assert forall|k: int| 0 <= k < out.len() implies (#[trigger] out[k]).dest@ != input.src@ by {
        assert(gossip_to(out[k], input, pre.msg_id + k, pre.peers@[plan[k].1], seq![xs@[plan[k].0]]));
    }
}

/// One successful delta-gossip round at the level of sets: when the record
/// `v` of what the receiver holds is sound (`v ⊆ b`), sending `a \ v` closes
/// the gap exactly — the receiver ends up with the union of both sets.
pub proof fn lemma_gossip_round_union(a: Set<usize>, b: Set<usize>, v: Set<usize>)
    requires
        v.subset_of(b),
    ensures
        b.union(a.difference(v)) == a.union(b),
{
    assert(b.union(a.difference(v)) =~= a.union(b));
}

/// Convergence step: a tick's delta for peer `i`, delivered as a gossip to
/// a node whose value set covers everything the view credited it with,
/// leaves the receiver holding exactly the union of both nodes' sets. With
/// every view sound, repeating such rounds over a connected topology drives
/// every node's set to the union of all broadcasts.
pub proof fn lemma_convergence_step(
    sender: BroadcastNode,
    i: int,
    pre: BroadcastNode,
    input: Message<BroadcastPayload>,
    post: BroadcastNode,
    r: Result<Vec<Message<BroadcastPayload>>, NodeError>,
)
    requires
        0 <= i < sender.views@.len(),
        (input.body.payload matches BroadcastPayload::Gossip { messages } && messages@ == delta_seq(
            sender.values@,
            sender.views@[i]@,
        )),
        sender.view_set(i).subset_of(pre.values_set()),
        BroadcastNode::reply_ens(pre, input, post, r),
    ensures
        post.values_set() == sender.values_set().union(pre.values_set()),
{
    let xs = input.body.payload->Gossip_messages;
    lemma_union_app_set(pre.values@, xs@);
    lemma_delta_set(sender.values@, sender.views@[i]@);
    lemma_gossip_round_union(sender.values_set(), pre.values_set(), sender.view_set(i));
}

impl Node for BroadcastNode {
    type Payload = BroadcastPayload;

    /// A well-formed `init` yields the empty node — no values, no peers, the
    /// counter at 1 — together with the `init_ok` reply numbered 0; anything
    /// else is refused.
    open spec fn new_ens(
        msg: Message<InitPayload>,
        r: Result<(Self, Message<InitPayload>), NodeError>,
    ) -> bool {
        match msg.body.payload {
            InitPayload::Init { node_id, node_ids } => r matches Ok((n, init_ok)) && {
                &&& n.id == node_id
                &&& n.msg_id == 1
                &&& n.values@ == Seq::<usize>::empty()
                &&& n.peers@ == Seq::<String>::empty()
                &&& n.views@ == Seq::<Vec<usize>>::empty()
                &&& n.wf()
                &&& init_ok.src == msg.dest
                &&& init_ok.dest == msg.src
                &&& (init_ok.body.msg_id matches Some(z) && z == 0)
                &&& init_ok.body.in_reply_to == msg.body.msg_id
                &&& init_ok.body.payload is InitOk
            },
            _ => (r matches Err(e) && e == NodeError::NotInit),
        }
    }

    /// Well-formed state, and room in the sequence-number counter for the
    /// envelopes this envelope can provoke at most.
    open spec fn reply_req(&self, input: Message<BroadcastPayload>) -> bool {
        &&& self.wf()
        &&& match input.body.payload {
            BroadcastPayload::Broadcast { .. } => self.msg_id + 1 + self.peers@.len()
                <= usize::MAX,
            BroadcastPayload::Read => self.msg_id < usize::MAX,
            BroadcastPayload::Gossip { messages } => self.msg_id + messages@.len()
                * self.peers@.len() <= usize::MAX,
            BroadcastPayload::TriggerGossip => self.msg_id + 2 * self.peers@.len() <= usize::MAX,
            _ => true,
        }
    }

    /// Dispatch on the payload: each inbound kind has its exact postcondition,
    /// and only a `topology` that omits this node can be refused. Inbound
    /// acknowledgements are ignored.
    open spec fn reply_ens(
        pre: Self,
        input: Message<BroadcastPayload>,
        post: Self,
        r: Result<Vec<Message<BroadcastPayload>>, NodeError>,
    ) -> bool {
        &&& post.wf()
        &&& match input.body.payload {
            BroadcastPayload::Broadcast { .. } => r matches Ok(out) && broadcast_post(
                pre,
                input,
                post,
                out@,
            ),
            BroadcastPayload::Read => r matches Ok(out) && read_post(pre, input, post, out@),
            BroadcastPayload::Topology { .. } => topology_post(pre, input, post, r),
            BroadcastPayload::Gossip { .. } => r matches Ok(out) && gossip_post(
                pre,
                input,
                post,
                out@,
            ),
            BroadcastPayload::Share { .. } => r matches Ok(out) && share_post(
                pre,
                input,
                post,
                out@,
            ),
            BroadcastPayload::TriggerGossip => r matches Ok(out) && tick_post(pre, post, out@),
            _ => (r matches Ok(out) && out@.len() == 0 && post == pre),
        }
    }

    fn new(msg: Message<InitPayload>) -> (r: Result<(Self, Message<InitPayload>), NodeError>) {
        match &msg.body.payload {
            InitPayload::Init { node_id, .. } => {
                let id = node_id.clone();
                let init_ok = msg.into_reply(Some(0), InitPayload::InitOk).build();
                let node = BroadcastNode {
                    id,
                    msg_id: 1,
                    values: Vec::new(),
                    peers: Vec::new(),
                    views: Vec::new(),
                };
                Ok((node, init_ok))
            },
            _ => Err(NodeError::NotInit),
        }
    }

    fn reply(&mut self, input: Message<BroadcastPayload>) -> (r: Result<
        Vec<Message<BroadcastPayload>>,
        NodeError,
    >) {
        match &input.body.payload {
            BroadcastPayload::Broadcast { message } => {
                let m = *message;
                Ok(self.handle_broadcast(&input, m))
            },
            BroadcastPayload::Read => Ok(self.handle_read(&input)),
            BroadcastPayload::Topology { topology } => self.handle_topology(&input, topology),
            BroadcastPayload::Gossip { messages } => Ok(self.handle_gossip(&input, messages)),
            BroadcastPayload::Share { known } => Ok(self.handle_share(&input, known)),
            BroadcastPayload::TriggerGossip => Ok(self.handle_tick()),
            _ => Ok(Vec::new()),
        }
    }
}

} // verus!
