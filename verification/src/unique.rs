//! The unique-id node: answers every `generate` with a fresh id made of the
//! node's own address followed by the decimal rendering of a counter that
//! never repeats.

use vstd::prelude::*;
use vstd::string::StringExecFns;

use crate::protocol::InitPayload;
use crate::protocol::Message;
use crate::protocol::Node;
use crate::protocol::NodeError;
use crate::protocol::Payload;

verus! {

/// The payload union of the unique-id protocol.
pub enum UniquePayload {
    Generate,
    GenerateOk { id: String },
}

impl Payload for UniquePayload {
}

/// The decimal digit `d` as a character.
pub open spec fn digit_char(d: nat) -> char {
    if d == 0 {
        '0'
    } else if d == 1 {
        '1'
    } else if d == 2 {
        '2'
    } else if d == 3 {
        '3'
    } else if d == 4 {
        '4'
    } else if d == 5 {
        '5'
    } else if d == 6 {
        '6'
    } else if d == 7 {
        '7'
    } else if d == 8 {
        '8'
    } else {
        '9'
    }
}

/// The decimal rendering of `n`, most significant digit first, without
/// leading zeroes (a single zero for 0).
pub open spec fn dec_rep(n: nat) -> Seq<char>
    decreases n,
{
    if n < 10 {
        seq![digit_char(n)]
    } else {
        dec_rep(n / 10).push(digit_char(n % 10))
    }
}

/// A decimal rendering has at least one digit, and at least two from 10 up.
pub proof fn lemma_dec_rep_len(n: nat)
    ensures
        dec_rep(n).len() >= 1,
        n >= 10 ==> dec_rep(n).len() >= 2,
    decreases n,
{
    if n >= 10 {
        lemma_dec_rep_len(n / 10);
    }
}

/// Distinct digits render as distinct characters.
pub proof fn lemma_digit_char_injective(a: nat, b: nat)
    requires
        a < 10,
        b < 10,
        digit_char(a) == digit_char(b),
    ensures
        a == b,
{
}

/// Distinct numbers render as distinct digit strings.
pub proof fn lemma_dec_rep_injective(a: nat, b: nat)
    requires
        dec_rep(a) == dec_rep(b),
    ensures
        a == b,
    decreases a,
{
    lemma_dec_rep_len(a);
    lemma_dec_rep_len(b);
    if a < 10 && b < 10 {
        assert(seq![digit_char(a)][0] == digit_char(a));
        assert(seq![digit_char(b)][0] == digit_char(b));
        assert(dec_rep(a)[0] == dec_rep(b)[0]);
        lemma_digit_char_injective(a, b);
    } else if a < 10 || b < 10 {
        assert(dec_rep(a).len() == dec_rep(b).len());
        assert(false);
    } else {
        assert(dec_rep(a / 10).push(digit_char(a % 10)).last() == digit_char(a % 10));
        assert(dec_rep(b / 10).push(digit_char(b % 10)).last() == digit_char(b % 10));
        assert(dec_rep(a).last() == dec_rep(b).last());
        lemma_digit_char_injective(a % 10, b % 10);
        assert(dec_rep(a).drop_last() =~= dec_rep(a / 10)) by {
            assert(dec_rep(a) == dec_rep(a / 10).push(digit_char(a % 10)));
        }
        assert(dec_rep(b).drop_last() =~= dec_rep(b / 10));
        lemma_dec_rep_injective(a / 10, b / 10);
    }
}

/// On one node, distinct counter values give distinct generated ids.
pub proof fn lemma_same_node_ids_distinct(node: Seq<char>, i: nat, j: nat)
    requires
        i != j,
    ensures
        node + dec_rep(i) != node + dec_rep(j),
{
    if node + dec_rep(i) == node + dec_rep(j) {
        assert(dec_rep(i) =~= dec_rep(j)) by {
            assert((node + dec_rep(i)).len() == (node + dec_rep(j)).len());
            assert forall|k: int| 0 <= k < dec_rep(i).len() implies dec_rep(i)[k] == dec_rep(
                j,
            )[k] by {
                assert((node + dec_rep(i))[node.len() + k] == dec_rep(i)[k]);
                assert((node + dec_rep(j))[node.len() + k] == dec_rep(j)[k]);
            }
        }
        lemma_dec_rep_injective(i, j);
    }
}

/// Across nodes, as long as neither node's address is a prefix of the
/// other's, generated ids never collide, whatever the two counters hold.
pub proof fn lemma_cross_node_ids_distinct(a: Seq<char>, b: Seq<char>, i: nat, j: nat)
    requires
        !a.is_prefix_of(b),
        !b.is_prefix_of(a),
    ensures
        a + dec_rep(i) != b + dec_rep(j),
{
    if a + dec_rep(i) == b + dec_rep(j) {
        if a.len() <= b.len() {
            assert(a =~= b.subrange(0, a.len() as int)) by {
                assert forall|k: int| 0 <= k < a.len() implies a[k] == b[k] by {
                    assert((a + dec_rep(i))[k] == a[k]);
                    assert((b + dec_rep(j))[k] == b[k]);
                }
            }
        } else {
            assert(b =~= a.subrange(0, b.len() as int)) by {
                assert forall|k: int| 0 <= k < b.len() implies b[k] == a[k] by {
                    assert((a + dec_rep(i))[k] == a[k]);
                    assert((b + dec_rep(j))[k] == b[k]);
                }
            }
        }
    }
}

/// One decimal digit as a string slice.
fn digit_str(d: usize) -> (r: &'static str)
    requires
        d < 10,
    ensures
        r@ == seq![digit_char(d as nat)],
{
    if d == 0 {
        proof {
            reveal_strlit("0");
            assert("0"@ =~= seq![digit_char(0)]);
        }
        "0"
    } else if d == 1 {
        proof {
            reveal_strlit("1");
            assert("1"@ =~= seq![digit_char(1)]);
        }
        "1"
    } else if d == 2 {
        proof {
            reveal_strlit("2");
            assert("2"@ =~= seq![digit_char(2)]);
        }
        "2"
    } else if d == 3 {
        proof {
            reveal_strlit("3");
            assert("3"@ =~= seq![digit_char(3)]);
        }
        "3"
    } else if d == 4 {
        proof {
            reveal_strlit("4");
            assert("4"@ =~= seq![digit_char(4)]);
        }
        "4"
    } else if d == 5 {
        proof {
            reveal_strlit("5");
            assert("5"@ =~= seq![digit_char(5)]);
        }
        "5"
    } else if d == 6 {
        proof {
            reveal_strlit("6");
            assert("6"@ =~= seq![digit_char(6)]);
        }
        "6"
    } else if d == 7 {
        proof {
            reveal_strlit("7");
            assert("7"@ =~= seq![digit_char(7)]);
        }
        "7"
    } else if d == 8 {
        proof {
            reveal_strlit("8");
            assert("8"@ =~= seq![digit_char(8)]);
        }
        "8"
    } else {
        proof {
            reveal_strlit("9");
            assert("9"@ =~= seq![digit_char(9)]);
        }
        "9"
    }
}

/// The decimal rendering of `n` as a string.
pub fn u_to_string(n: usize) -> (r: String)
    ensures
        r@ == dec_rep(n as nat),
    decreases n,
{
    if n < 10 {
        String::from_str(digit_str(n))
    } else {
        let mut s = u_to_string(n / 10);
        s.append(digit_str(n % 10));
        proof {
            assert(dec_rep((n / 10) as nat) + seq![digit_char((n % 10) as nat)] =~= dec_rep(
                (n / 10) as nat,
            ).push(digit_char((n % 10) as nat)));
            assert((n / 10) as nat == n as nat / 10);
            assert((n % 10) as nat == n as nat % 10);
        }
        s
    }
}

/// The unique-id node's state: its own address and the counter.
pub struct UniqueNode {
    pub id: String,
    pub msg_id: usize,
}

impl Node for UniqueNode {
    type Payload = UniquePayload;

    /// A well-formed `init` yields the node with its address and the counter
    /// at 1, together with the `init_ok` reply numbered 0; anything else is
    /// refused.
    open spec fn new_ens(
        msg: Message<InitPayload>,
        r: Result<(Self, Message<InitPayload>), NodeError>,
    ) -> bool {
        match msg.body.payload {
            InitPayload::Init { node_id, node_ids } => r matches Ok((n, init_ok)) && {
                &&& n.id == node_id
                &&& n.msg_id == 1
                &&& init_ok.src == msg.dest
                &&& init_ok.dest == msg.src
                &&& (init_ok.body.msg_id matches Some(z) && z == 0)
                &&& init_ok.body.in_reply_to == msg.body.msg_id
                &&& init_ok.body.payload is InitOk
            },
            _ => (r matches Err(e) && e == NodeError::NotInit),
        }
    }

    /// Room in the counter for one more id.
    open spec fn reply_req(&self, input: Message<UniquePayload>) -> bool {
        input.body.payload is Generate ==> self.msg_id < usize::MAX
    }

    /// A `generate` provokes exactly one `generate_ok` whose id is the
    /// node's address followed by the decimal rendering of the counter;
    /// anything else is ignored.
    open spec fn reply_ens(
        pre: Self,
        input: Message<UniquePayload>,
        post: Self,
        r: Result<Vec<Message<UniquePayload>>, NodeError>,
    ) -> bool {
        match input.body.payload {
            UniquePayload::Generate => r matches Ok(out) && {
                &&& post.id == pre.id
                &&& post.msg_id == pre.msg_id + 1
                &&& out@.len() == 1
                &&& out@[0].src == input.dest
                &&& out@[0].dest == input.src
                &&& (out@[0].body.msg_id matches Some(n) && n == pre.msg_id)
                &&& out@[0].body.in_reply_to == input.body.msg_id
                &&& (out@[0].body.payload matches UniquePayload::GenerateOk { id } && id@ == pre.id@
                    + dec_rep(pre.msg_id as nat))
            },
            _ => (r matches Ok(out) && out@.len() == 0 && post == pre),
        }
    }

    fn new(msg: Message<InitPayload>) -> (r: Result<(Self, Message<InitPayload>), NodeError>) {
        match &msg.body.payload {
            InitPayload::Init { node_id, .. } => {
                let id = node_id.clone();
                let init_ok = msg.into_reply(Some(0), InitPayload::InitOk).build();
                Ok((UniqueNode { id, msg_id: 1 }, init_ok))
            },
            _ => Err(NodeError::NotInit),
        }
    }

    fn reply(&mut self, input: Message<UniquePayload>) -> (r: Result<
        Vec<Message<UniquePayload>>,
        NodeError,
    >) {
        match &input.body.payload {
            UniquePayload::Generate => {
                let fresh_id = self.id.clone().concat(u_to_string(self.msg_id).as_str());
                let mut out: Vec<Message<UniquePayload>> = Vec::new();
                out.push(
                    input.into_reply(
                        Some(self.msg_id),
                        UniquePayload::GenerateOk { id: fresh_id },
                    ).build(),
                );
                self.msg_id = self.msg_id + 1;
                Ok(out)
            },
            _ => Ok(Vec::new()),
        }
    }
}

} // verus!
