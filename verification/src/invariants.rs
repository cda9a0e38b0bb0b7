//! The system-wide laws, stated and proved over the state model: quota and
//! port-uniqueness hold in every well-formed state; the ports granted by
//! `POST /edge` stay inside the listener manager's map, and a deleted
//! tunnel's port leaves both; creating and then deleting a tunnel restores
//! the secret's observable state.

use vstd::prelude::*;
use crate::api::{keeps_target, lemma_filter_elem_membership};
use crate::manager::{map_contains, PortMap};
use crate::state::{
    has_secret, port_used, sec_index_of, secrets_updated_at, seq_ports_disjoint,
    seq_ports_distinct, seq_targets_distinct, state_wf, tokens_unique, Secret, State, Tunnel,
};

verus! {

/// Two states agree on everything a client can observe: the worker port
/// and, secret by secret, the token, the quota, the tunnels and the pool.
pub open spec fn observably_equal(a: State, b: State) -> bool {
    &&& a.worker_port == b.worker_port
    &&& a.secrets@.len() == b.secrets@.len()
    &&& forall|k: int|
        0 <= k < a.secrets@.len() ==> sec_observably_equal(
            #[trigger] a.secrets@[k],
            #[trigger] b.secrets@[k],
        )
}

/// Two secret records agree on token, quota, tunnels and worker pool.
pub open spec fn sec_observably_equal(x: Secret, y: Secret) -> bool {
    &&& x.secret@ == y.secret@
    &&& x.max_tunnels == y.max_tunnels
    &&& x.active_tunnels@ == y.active_tunnels@
    &&& x.workers@ == y.workers@
}

/// Every port of every active tunnel is in the manager's map.
pub open spec fn ports_covered(st: State, m: PortMap) -> bool {
    forall|p: u16| #[trigger] port_used(st, p) ==> map_contains(m, p)
}

/// In a well-formed state, every secret's tunnel count is within its quota.
pub proof fn lemma_quota_within(st: State, i: int)
    requires
        state_wf(st),
        0 <= i < st.secrets@.len(),
    ensures
        st.secrets@[i].active_tunnels@.len() <= st.secrets@[i].max_tunnels,
{
}

/// In a well-formed state, a secret holds at most one tunnel per target:
/// two distinct tunnels of one secret name different targets.
pub proof fn lemma_one_tunnel_per_target(st: State, i: int, j1: int, j2: int)
    requires
        state_wf(st),
        0 <= i < st.secrets@.len(),
        0 <= j1 < st.secrets@[i].active_tunnels@.len(),
        0 <= j2 < st.secrets@[i].active_tunnels@.len(),
        j1 != j2,
    ensures
        st.secrets@[i].active_tunnels@[j1].target@ != st.secrets@[i].active_tunnels@[j2].target@,
{
    assert(seq_targets_distinct(st.secrets@[i].active_tunnels@));
}

/// In a well-formed state, no two distinct active tunnels, whatever their
/// secrets, hold the same public port.
pub proof fn lemma_no_shared_port(st: State, i1: int, j1: int, i2: int, j2: int)
    requires
        state_wf(st),
        0 <= i1 < st.secrets@.len(),
        0 <= j1 < st.secrets@[i1].active_tunnels@.len(),
        0 <= i2 < st.secrets@.len(),
        0 <= j2 < st.secrets@[i2].active_tunnels@.len(),
        i1 != i2 || j1 != j2,
    ensures
        st.secrets@[i1].active_tunnels@[j1].port != st.secrets@[i2].active_tunnels@[j2].port,
{
    if i1 == i2 {
        assert(seq_ports_distinct(st.secrets@[i1].active_tunnels@));
    } else if i1 < i2 {
        assert(seq_ports_disjoint(
            st.secrets@[i1].active_tunnels@,
            st.secrets@[i2].active_tunnels@,
        ));
    } else {
        assert(seq_ports_disjoint(
            st.secrets@[i2].active_tunnels@,
            st.secrets@[i1].active_tunnels@,
        ));
    }
}

/// Recording a granted tunnel keeps every used port inside the manager's
/// map, provided the grant itself was recorded there.
pub proof fn lemma_create_keeps_coverage(
    st0: State,
    st1: State,
    m0: PortMap,
    m1: PortMap,
    tok: Seq<char>,
    p: u16,
)
    requires
        state_wf(st0),
        has_secret(st0, tok),
        ports_covered(st0, m0),
        m1.ports@ == m0.ports@.push(p),
        ({
            let i = sec_index_of(st0, tok);
            let s0 = st0.secrets@[i];
            let s1 = st1.secrets@[i];
            &&& secrets_updated_at(st0.secrets@, st1.secrets@, i)
            &&& s1.active_tunnels@.len() == s0.active_tunnels@.len() + 1
            &&& s1.active_tunnels@.drop_last() == s0.active_tunnels@
            &&& s1.active_tunnels@.last().port == p
        }),
    ensures
        ports_covered(st1, m1),
        map_contains(m1, p),
{
    let i = sec_index_of(st0, tok);
    assert(m1.ports@[m1.ports@.len() - 1] == p);
    assert(map_contains(m1, p));
    assert forall|q: u16| #[trigger] port_used(st1, q) implies map_contains(m1, q) by {
        let (x, y): (int, int) = choose|x: int, y: int|
            0 <= x < st1.secrets@.len() && 0 <= y < st1.secrets@[x].active_tunnels@.len()
                && st1.secrets@[x].active_tunnels@[y].port == q;
        if x == i && y == st1.secrets@[x].active_tunnels@.len() - 1 {
            assert(q == p);
        } else {
            if x == i {
                assert(st1.secrets@[i].active_tunnels@.drop_last()[y]
                    == st1.secrets@[i].active_tunnels@[y]);
                assert(st0.secrets@[x].active_tunnels@[y].port == q);
            } else {
                assert(st1.secrets@[x] == st0.secrets@[x]);
            }
            assert(port_used(st0, q));
            assert(map_contains(m0, q));
            let a = choose|a: int| 0 <= a < m0.ports@.len() && m0.ports@[a] == q;
            assert(m1.ports@[a] == q);
        }
    }
}

/// After deleting a tunnel and stopping its listener, the port is gone
/// from the state and from the map, and every remaining port is still
/// covered.
pub proof fn lemma_delete_then_stop_uncovers(
    st0: State,
    st1: State,
    m0: PortMap,
    m1: PortMap,
    tok: Seq<char>,
    target: Seq<char>,
    p: u16,
)
    requires
        state_wf(st0),
        has_secret(st0, tok),
        ports_covered(st0, m0),
        ({
            let i = sec_index_of(st0, tok);
            let s0 = st0.secrets@[i];
            let s1 = st1.secrets@[i];
            &&& secrets_updated_at(st0.secrets@, st1.secrets@, i)
            &&& s1.active_tunnels@ == s0.active_tunnels@.filter(keeps_target(target))
            &&& exists|j: int|
                0 <= j < s0.active_tunnels@.len() && (#[trigger] s0.active_tunnels@[j]).target@
                    == target && p == s0.active_tunnels@[j].port
        }),
        !map_contains(m1, p),
        forall|q: u16| q != p ==> (#[trigger] map_contains(m1, q) <==> map_contains(m0, q)),
    ensures
        !port_used(st1, p),
        !map_contains(m1, p),
        ports_covered(st1, m1),
{
    let i = sec_index_of(st0, tok);
    let s0 = st0.secrets@[i];
    let s1 = st1.secrets@[i];
    let pred = keeps_target(target);
    let j = choose|j: int|
        0 <= j < s0.active_tunnels@.len() && (#[trigger] s0.active_tunnels@[j]).target@ == target
            && p == s0.active_tunnels@[j].port;
    broadcast use vstd::seq_lib::group_filter_ensures;

    assert(!port_used(st1, p)) by {
        if port_used(st1, p) {
            let (x, y): (int, int) = choose|x: int, y: int|
                0 <= x < st1.secrets@.len() && 0 <= y < st1.secrets@[x].active_tunnels@.len()
                    && st1.secrets@[x].active_tunnels@[y].port == p;
            if x == i {
                lemma_filter_elem_membership(s0.active_tunnels@, pred, y);
                let k = choose|k: int|
                    0 <= k < s0.active_tunnels@.len() && s0.active_tunnels@[k]
                        == s0.active_tunnels@.filter(pred)[y];
                assert(pred(s1.active_tunnels@[y]));
                assert(s0.active_tunnels@[k].port == p);
                if k != j {
                    lemma_no_shared_port(st0, i, k, i, j);
                } else {
                    assert(s0.active_tunnels@[k].target@ == target);
                    assert(!pred(s0.active_tunnels@[k]));
                }
            } else {
                assert(st1.secrets@[x] == st0.secrets@[x]);
                lemma_no_shared_port(st0, x, y, i, j);
            }
        }
    }
    assert forall|q: u16| #[trigger] port_used(st1, q) implies map_contains(m1, q) by {
        let (x, y): (int, int) = choose|x: int, y: int|
            0 <= x < st1.secrets@.len() && 0 <= y < st1.secrets@[x].active_tunnels@.len()
                && st1.secrets@[x].active_tunnels@[y].port == q;
        assert(q != p);
        if x == i {
            lemma_filter_elem_membership(s0.active_tunnels@, pred, y);
            let k = choose|k: int|
                0 <= k < s0.active_tunnels@.len() && s0.active_tunnels@[k]
                    == s0.active_tunnels@.filter(pred)[y];
            assert(s0.active_tunnels@[k].port == q);
            assert(port_used(st0, q));
        } else {
            assert(st1.secrets@[x] == st0.secrets@[x]);
            assert(port_used(st0, q));
        }
        assert(map_contains(m0, q));
    }
}

/// Filtering keeps a sequence whose every element passes the predicate.
proof fn lemma_filter_all_true(ts: Seq<Tunnel>, pred: spec_fn(Tunnel) -> bool)
    requires
        forall|k: int| 0 <= k < ts.len() ==> pred(#[trigger] ts[k]),
    ensures
        ts.filter(pred) == ts,
    decreases ts.len(),
{
    reveal(Seq::filter);
    if ts.len() == 0 {
        assert(ts.filter(pred) =~= ts);
    } else {
        let dl = ts.drop_last();
        assert(forall|k: int| 0 <= k < dl.len() ==> pred(#[trigger] dl[k])) by {
            assert(forall|k: int| 0 <= k < dl.len() ==> dl[k] == #[trigger] ts[k]);
        }
        lemma_filter_all_true(dl, pred);
        assert(pred(ts.last()));
        assert(ts.filter(pred) == dl.filter(pred).push(ts.last()));
        assert(dl.push(ts.last()) =~= ts);
    }
}

/// Creating a tunnel and then deleting the same target leaves the secret's
/// observable state exactly as it was: the new tunnel is the only one
/// removed, because no tunnel for that target existed before — which the
/// admission step guarantees by refusing a duplicate target.
pub proof fn lemma_create_then_delete_restores(
    st0: State,
    st1: State,
    st2: State,
    tok: Seq<char>,
    target: Seq<char>,
)
    requires
        state_wf(st0),
        has_secret(st0, tok),
        tokens_unique(st1),
        st0.worker_port == st1.worker_port,
        st1.worker_port == st2.worker_port,
        ({
            let i = sec_index_of(st0, tok);
            let s0 = st0.secrets@[i];
            let s1 = st1.secrets@[i];
            // No tunnel for this target beforehand.
            &&& forall|k: int|
                0 <= k < s0.active_tunnels@.len() ==> (#[trigger] s0.active_tunnels@[k]).target@
                    != target
            // The recording step appended one tunnel for this target.
            &&& secrets_updated_at(st0.secrets@, st1.secrets@, i)
            &&& s1.secret@ == s0.secret@
            &&& s1.max_tunnels == s0.max_tunnels
            &&& s1.workers@ == s0.workers@
            &&& s1.active_tunnels@.len() == s0.active_tunnels@.len() + 1
            &&& s1.active_tunnels@.drop_last() == s0.active_tunnels@
            &&& s1.active_tunnels@.last().target@ == target
            // The deletion step filtered that target out again.
            &&& secrets_updated_at(st1.secrets@, st2.secrets@, sec_index_of(st1, tok))
            &&& st2.secrets@[sec_index_of(st1, tok)].secret@ == s1.secret@
            &&& st2.secrets@[sec_index_of(st1, tok)].max_tunnels == s1.max_tunnels
            &&& st2.secrets@[sec_index_of(st1, tok)].workers@ == s1.workers@
            &&& st2.secrets@[sec_index_of(st1, tok)].active_tunnels@ == s1.active_tunnels@.filter(
                keeps_target(target),
            )
        }),
    ensures
        observably_equal(st2, st0),
{
    let i = sec_index_of(st0, tok);
    let s0 = st0.secrets@[i];
    let s1 = st1.secrets@[i];
    let pred = keeps_target(target);
    assert(0 <= i < st0.secrets@.len() && st0.secrets@[i].secret@ == tok);
    assert(st1.secrets@[i].secret@ == tok);
    crate::state::lemma_sec_index_unique(st1, tok, i);
    assert(sec_index_of(st1, tok) == i);
    let s2 = st2.secrets@[i];
    let t = s1.active_tunnels@.last();
    assert(s1.active_tunnels@ =~= s0.active_tunnels@ + seq![t]) by {
        assert(forall|k: int|
            0 <= k < s0.active_tunnels@.len() ==> s1.active_tunnels@.drop_last()[k]
                == #[trigger] s1.active_tunnels@[k]);
    }
    Seq::<Tunnel>::filter_distributes_over_add(s0.active_tunnels@, seq![t], pred);
    reveal(Seq::filter);
    assert(seq![t].drop_last() =~= Seq::<Tunnel>::empty());
    assert(Seq::<Tunnel>::empty().filter(pred) =~= Seq::<Tunnel>::empty());
    assert(!pred(t));
    assert(seq![t].filter(pred) =~= Seq::<Tunnel>::empty());
    lemma_filter_all_true(s0.active_tunnels@, pred);
    assert(s2.active_tunnels@ =~= s0.active_tunnels@);
    assert forall|k: int|
        0 <= k < st0.secrets@.len() implies sec_observably_equal(
        #[trigger] st2.secrets@[k],
        #[trigger] st0.secrets@[k],
    ) by {
        if k != i {
            assert(st1.secrets@[k] == st0.secrets@[k]);
            assert(st2.secrets@[k] == st1.secrets@[k]);
        }
    }
}

} // verus!
