//! The order in which RPC request nodes are visited when stitching: by
//! process, connection and request id, one node per request, a later report
//! of a request replacing an earlier one.

use vstd::prelude::*;
use crate::text::{
    chars_lt, chars_of, lemma_seq_lt_irreflexive, lemma_seq_lt_total, lemma_seq_lt_transitive,
    seq_lt,
};
use crate::wait_edges::{copy_info, RpcNode};

verus! {

/// Two nodes stand for the same request: same process, connection and id.
pub open spec fn same_key(a: RpcNode, b: RpcNode) -> bool {
    a.info.pid == b.info.pid && a.connection@ == b.connection@ && a.info.request_id
        == b.info.request_id
}

/// `a` comes before `b`: by process, then connection, then request id.
pub open spec fn key_lt(a: RpcNode, b: RpcNode) -> bool {
    a.info.pid < b.info.pid || (a.info.pid == b.info.pid && (seq_lt(a.connection@, b.connection@)
        || (a.connection@ == b.connection@ && a.info.request_id < b.info.request_id)))
}

/// No node comes before itself.
pub proof fn lemma_key_lt_irreflexive(a: RpcNode)
    ensures
        !key_lt(a, a),
{
    lemma_seq_lt_irreflexive(a.connection@);
}

/// The key order is transitive.
pub proof fn lemma_key_lt_transitive(a: RpcNode, b: RpcNode, c: RpcNode)
    requires
        key_lt(a, b),
        key_lt(b, c),
    ensures
        key_lt(a, c),
{
    if a.info.pid == b.info.pid && b.info.pid == c.info.pid {
        if seq_lt(a.connection@, b.connection@) && seq_lt(b.connection@, c.connection@) {
            lemma_seq_lt_transitive(a.connection@, b.connection@, c.connection@);
        }
    }
}

/// Of two nodes for different requests, one comes before the other; of two
/// nodes in order, neither stands for the other's request nor comes after it.
pub proof fn lemma_key_lt_total(a: RpcNode, b: RpcNode)
    ensures
        !same_key(a, b) ==> key_lt(a, b) || key_lt(b, a),
        key_lt(a, b) ==> !same_key(a, b) && !key_lt(b, a),
{
    lemma_key_lt_irreflexive(a);
    lemma_key_lt_irreflexive(b);
    if a.connection@ != b.connection@ {
        lemma_seq_lt_total(a.connection@, b.connection@);
    }
    if key_lt(a, b) && key_lt(b, a) {
        lemma_key_lt_transitive(a, b, a);
    }
}

/// The last node reported for `n`'s request.
pub open spec fn last_with_key(cands: Seq<RpcNode>, n: RpcNode) -> Option<RpcNode>
    decreases cands.len(),
{
    if cands.len() == 0 {
        None
    } else if same_key(cands.last(), n) {
        Some(cands.last())
    } else {
        last_with_key(cands.drop_last(), n)
    }
}

/// Some node of `out` stands for `n`'s request.
pub open spec fn has_key(out: Seq<RpcNode>, n: RpcNode) -> bool {
    exists|k: int| 0 <= k < out.len() && same_key(#[trigger] out[k], n)
}

/// The nodes are in strictly increasing key order.
pub open spec fn sorted_by_key(out: Seq<RpcNode>) -> bool {
    forall|i: int, j: int| 0 <= i < j < out.len() ==> key_lt(#[trigger] out[i], #[trigger] out[j])
}

/// `out` visits the requests of `cands` in key order, one node per request,
/// each the last reported for its request.
pub open spec fn node_order(cands: Seq<RpcNode>, out: Seq<RpcNode>) -> bool {
    &&& sorted_by_key(out)
    &&& forall|k: int| 0 <= k < out.len() ==> last_with_key(cands, #[trigger] out[k]) == Some(out[k])
    &&& forall|m: int| 0 <= m < cands.len() ==> has_key(out, #[trigger] cands[m])
}

proof fn lemma_last_unchanged(prefix: Seq<RpcNode>, x: RpcNode, n: RpcNode)
    requires
        !same_key(x, n),
    ensures
        last_with_key(prefix.push(x), n) == last_with_key(prefix, n),
{
    assert(prefix.push(x).drop_last() =~= prefix);
}

proof fn lemma_last_pushed(prefix: Seq<RpcNode>, x: RpcNode)
    ensures
        last_with_key(prefix.push(x), x) == Some(x),
{
}

proof fn lemma_order_replace(prefix: Seq<RpcNode>, out: Seq<RpcNode>, x: RpcNode, p: int)
    requires
        node_order(prefix, out),
        0 <= p < out.len(),
        same_key(out[p], x),
    ensures
        node_order(prefix.push(x), out.update(p, x)),
{
    let cands = prefix.push(x);
    let o2 = out.update(p, x);
    assert forall|i: int, j: int| 0 <= i < j < o2.len() implies key_lt(
        #[trigger] o2[i],
        #[trigger] o2[j],
    ) by {
        assert(key_lt(out[i], out[j]));
    }
    assert forall|k: int| 0 <= k < o2.len() implies last_with_key(cands, #[trigger] o2[k]) == Some(
        o2[k],
    ) by {
        if k == p {
            lemma_last_pushed(prefix, x);
        } else {
            if k < p {
                lemma_key_lt_total(out[k], out[p]);
            } else {
                lemma_key_lt_total(out[p], out[k]);
            }
            assert(last_with_key(prefix, out[k]) == Some(out[k]));
            lemma_last_unchanged(prefix, x, out[k]);
        }
    }
    assert forall|m: int| 0 <= m < cands.len() implies has_key(o2, #[trigger] cands[m]) by {
        if m == prefix.len() {
            assert(same_key(o2[p], cands[m]));
        } else {
            assert(cands[m] == prefix[m]);
            assert(has_key(out, prefix[m]));
            let k = choose|k: int| 0 <= k < out.len() && same_key(#[trigger] out[k], prefix[m]);
            assert(same_key(o2[k], cands[m]));
        }
    }
}

proof fn lemma_order_insert(prefix: Seq<RpcNode>, out: Seq<RpcNode>, x: RpcNode, p: int)
    requires
        node_order(prefix, out),
        0 <= p <= out.len(),
        forall|k: int| 0 <= k < p ==> key_lt(#[trigger] out[k], x),
        p < out.len() ==> key_lt(x, out[p]),
    ensures
        node_order(prefix.push(x), out.insert(p, x)),
{
    let cands = prefix.push(x);
    let o2 = out.insert(p, x);
    assert forall|k: int| 0 <= k < out.len() implies !same_key(#[trigger] out[k], x) by {
        if k < p {
            lemma_key_lt_total(out[k], x);
        } else {
            if k > p {
                assert(key_lt(out[p], out[k]));
                lemma_key_lt_transitive(x, out[p], out[k]);
            }
            lemma_key_lt_total(x, out[k]);
        }
    }
    assert forall|i: int, j: int| 0 <= i < j < o2.len() implies key_lt(
        #[trigger] o2[i],
        #[trigger] o2[j],
    ) by {
        if j < p {
            assert(key_lt(out[i], out[j]));
        } else if j == p {
            assert(key_lt(out[i], x));
        } else if i < p {
            assert(o2[j] == out[j - 1]);
            if j - 1 > p {
                assert(key_lt(out[p], out[j - 1]));
                lemma_key_lt_transitive(x, out[p], out[j - 1]);
            }
            lemma_key_lt_transitive(out[i], x, out[j - 1]);
        } else if i == p {
            if j - 1 > p {
                assert(key_lt(out[p], out[j - 1]));
                lemma_key_lt_transitive(x, out[p], out[j - 1]);
            }
        } else {
            assert(key_lt(out[i - 1], out[j - 1]));
        }
    }
    assert forall|k: int| 0 <= k < o2.len() implies last_with_key(cands, #[trigger] o2[k]) == Some(
        o2[k],
    ) by {
        if k == p {
            lemma_last_pushed(prefix, x);
        } else {
            let q = if k < p {
                k
            } else {
                k - 1
            };
            assert(o2[k] == out[q]);
            assert(last_with_key(prefix, out[q]) == Some(out[q]));
            assert(!same_key(out[q], x));
            lemma_last_unchanged(prefix, x, out[q]);
        }
    }
    assert forall|m: int| 0 <= m < cands.len() implies has_key(o2, #[trigger] cands[m]) by {
        if m == prefix.len() {
            assert(same_key(o2[p], cands[m]));
        } else {
            assert(cands[m] == prefix[m]);
            assert(has_key(out, prefix[m]));
            let k = choose|k: int| 0 <= k < out.len() && same_key(#[trigger] out[k], prefix[m]);
            if k < p {
                assert(same_key(o2[k], cands[m]));
            } else {
                assert(o2[k + 1] == out[k]);
                assert(same_key(o2[k + 1], cands[m]));
            }
        }
    }
}

fn str_lt(a: &String, b: &String) -> (r: bool)
    ensures
        r == seq_lt(a@, b@),
{
    let va = chars_of(a.as_str());
    let vb = chars_of(b.as_str());
    chars_lt(&va, &vb)
}

fn node_key_lt(a: &RpcNode, b: &RpcNode) -> (r: bool)
    ensures
        r == key_lt(*a, *b),
{
    if a.info.pid != b.info.pid {
        a.info.pid < b.info.pid
    } else if !(a.connection == b.connection) {
        str_lt(&a.connection, &b.connection)
    } else {
        proof {
            lemma_seq_lt_irreflexive(a.connection@);
        }
        a.info.request_id < b.info.request_id
    }
}

fn node_same_key(a: &RpcNode, b: &RpcNode) -> (r: bool)
    ensures
        r == same_key(*a, *b),
{
    a.info.pid == b.info.pid && a.connection == b.connection && a.info.request_id
        == b.info.request_id
}

fn copy_node(n: &RpcNode) -> (r: RpcNode)
    ensures
        r == *n,
{
    RpcNode { connection: n.connection.clone(), info: copy_info(&n.info) }
}

/// The nodes of `cands` in key order, one per request: when a request is
/// reported more than once, the last report stands.
pub fn order_rpc_nodes(cands: &Vec<RpcNode>) -> (out: Vec<RpcNode>)
    ensures
        node_order(cands@, out@),
{
    let mut out: Vec<RpcNode> = Vec::new();
    let mut i: usize = 0;
    assert(cands@.subrange(0, 0) =~= Seq::<RpcNode>::empty());
    while i < cands.len()
        invariant
            i <= cands.len(),
            node_order(cands@.subrange(0, i as int), out@),
        decreases cands.len() - i,
    {
        let x = copy_node(&cands[i]);
        let ghost prefix = cands@.subrange(0, i as int);
        assert(cands@.subrange(0, i + 1) =~= prefix.push(x));
        let mut p: usize = 0;
        while p < out.len() && node_key_lt(&out[p], &x)
            invariant
                p <= out.len(),
                forall|k: int| 0 <= k < p ==> key_lt(#[trigger] out@[k], x),
            decreases out.len() - p,
        {
            p = p + 1;
        }
        if p < out.len() && node_same_key(&out[p], &x) {
            proof {
                lemma_order_replace(prefix, out@, x, p as int);
            }
            out.set(p, x);
        } else {
            proof {
                if p < out.len() {
                    lemma_key_lt_total(out@[p as int], x);
                }
                lemma_order_insert(prefix, out@, x, p as int);
            }
            out.insert(p, x);
        }
        i = i + 1;
    }
    assert(cands@.subrange(0, i as int) =~= cands@);
    out
}

} // verus!
