//! The control-plane endpoints as state transitions. Each endpoint is a
//! function from the shared state and the request's plain values to the new
//! state, the ports whose listeners must stop, and the HTTP answer, with the
//! exact JSON body pinned down character by character.

use vstd::prelude::*;
use crate::state::{
    find_secret, has_room, has_secret, lemma_sec_index_unique, port_used, quota_ok, sec_has_target,
    sec_index_of, sec_of, secrets_updated_at, same_sec_identity, seq_ports_disjoint,
    seq_ports_distinct, seq_targets_distinct, state_wf, tokens_unique, Secret, State, Tunnel,
    Worker,
};
use crate::proxy::{Mode, Protocol};
use crate::text::{dec_rep, dec_u16};

verus! {

/// The form body of `POST /edge`.
pub struct CreateRequestData {
    pub name: String,
    pub target: String,
    pub protocol: Protocol,
    pub mode: Mode,
}

/// The form body of `DELETE /edge`.
pub struct DeleteRequestData {
    pub target: String,
}

/// The error answers of the control plane, by kind.
#[derive(Clone, Copy, PartialEq, Eq, Structural, Debug)]
pub enum ApiError {
    /// Unknown bearer secret.
    Forbidden,
    /// The secret's quota is exhausted.
    TooManyTunnels,
    /// `DELETE /edge` named a target with no tunnel.
    NoSuchTunnel,
    /// `POST /edge` named a target the secret already tunnels to; at most
    /// one tunnel per (secret, target) pair exists.
    DuplicateTunnel,
    /// The listener manager answered that it could not bind a port.
    PortReservationFailed,
    /// The listener manager's channel is closed.
    ChannelClosed,
    /// The manager dropped the reply channel.
    TunnelCreationFailed,
}

/// An HTTP answer: status code and JSON body.
pub struct ApiResponse {
    pub code: u16,
    pub body: String,
}

/// `{"status":"ok"}`
pub open spec fn ok_body() -> Seq<char> {
    "{\"status\":\"ok\"}"@
}

/// `{"status":"ok","port":<p>}`
pub open spec fn ok_port_body(p: u16) -> Seq<char> {
    "{\"status\":\"ok\",\"port\":"@ + dec_rep(p as nat) + "}"@
}

/// `{"status":"ok","worker":<p>}`, or `null` while no worker server is up.
pub open spec fn ok_worker_body(w: Option<u16>) -> Seq<char> {
    match w {
        Some(p) => "{\"status\":\"ok\",\"worker\":"@ + dec_rep(p as nat) + "}"@,
        None => "{\"status\":\"ok\",\"worker\":null}"@,
    }
}

/// The status code of an error answer.
pub open spec fn spec_error_code(e: ApiError) -> u16 {
    match e {
        ApiError::Forbidden => 403,
        ApiError::TooManyTunnels => 429,
        _ => 400,
    }
}

/// The JSON body of an error answer.
pub open spec fn spec_error_body(e: ApiError) -> Seq<char> {
    match e {
        ApiError::Forbidden => "{\"status\":\"forbidden\"}"@,
        ApiError::TooManyTunnels => "{\"status\":\"too many tunnels\"}"@,
        ApiError::NoSuchTunnel => "{\"status\":\"no such tunnel\"}"@,
        ApiError::DuplicateTunnel => "{\"status\":\"tunnel already exists\"}"@,
        ApiError::PortReservationFailed => "{\"status\":\"failed to reserve port\"}"@,
        ApiError::ChannelClosed => "{\"status\":\"failed to request tunnel creation\"}"@,
        ApiError::TunnelCreationFailed => "{\"status\":\"failed to create tunnel\"}"@,
    }
}

/// The ports of a tunnel list, in order.
pub open spec fn tunnel_ports(ts: Seq<Tunnel>) -> Seq<u16> {
    ts.map_values(|t: Tunnel| t.port)
}

/// Keeps the tunnels whose target differs from the given one.
pub open spec fn keeps_target(target: Seq<char>) -> spec_fn(Tunnel) -> bool {
    |t: Tunnel| t.target@ != target
}

impl ApiError {
    /// The HTTP status code of this error.
    pub fn code(&self) -> (r: u16)
        ensures
            r == spec_error_code(*self),
    {
        match self {
            ApiError::Forbidden => 403,
            ApiError::TooManyTunnels => 429,
            _ => 400,
        }
    }

    /// The JSON body of this error.
    pub fn body(&self) -> (r: String)
        ensures
            r@ == spec_error_body(*self),
    {
        match self {
            ApiError::Forbidden => String::from_str("{\"status\":\"forbidden\"}"),
            ApiError::TooManyTunnels => String::from_str("{\"status\":\"too many tunnels\"}"),
            ApiError::NoSuchTunnel => String::from_str("{\"status\":\"no such tunnel\"}"),
            ApiError::DuplicateTunnel => String::from_str("{\"status\":\"tunnel already exists\"}"),
            ApiError::PortReservationFailed => String::from_str(
                "{\"status\":\"failed to reserve port\"}",
            ),
            ApiError::ChannelClosed => String::from_str(
                "{\"status\":\"failed to request tunnel creation\"}",
            ),
            ApiError::TunnelCreationFailed => String::from_str(
                "{\"status\":\"failed to create tunnel\"}",
            ),
        }
    }

    /// The full HTTP answer for this error.
    pub fn response(&self) -> (r: ApiResponse)
        ensures
            r.code == spec_error_code(*self),
            r.body@ == spec_error_body(*self),
    {
        ApiResponse { code: self.code(), body: self.body() }
    }
}

/// The plain success answer of the endpoints that return no value.
pub fn ok_response() -> (r: ApiResponse)
    ensures
        r.code == 200,
        r.body@ == ok_body(),
{
    ApiResponse { code: 200, body: String::from_str("{\"status\":\"ok\"}") }
}

/// The success answer of `POST /edge`, carrying the granted public port.
pub fn ok_port_response(p: u16) -> (r: ApiResponse)
    ensures
        r.code == 200,
        r.body@ == ok_port_body(p),
{
    let mut body = String::from_str("{\"status\":\"ok\",\"port\":");
    body.append(dec_u16(p).as_str());
    body.append("}");
    ApiResponse { code: 200, body }
}

/// `GET /health`: always `200 {"status":"ok"}`, no authentication.
pub fn health() -> (r: ApiResponse)
    ensures
        r.code == 200,
        r.body@ == ok_body(),
{
    ApiResponse { code: 200, body: String::from_str("{\"status\":\"ok\"}") }
}

/// `GET /check_authorization`: `200` for a known bearer secret, else `403`.
pub fn check_authorization(st: &State, token: &String) -> (r: ApiResponse)
    ensures
        has_secret(*st, token@) ==> r.code == 200 && r.body@ == ok_body(),
        !has_secret(*st, token@) ==> r.code == 403 && r.body@ == spec_error_body(
            ApiError::Forbidden,
        ),
{
    match find_secret(st, token) {
        Some(_) => ApiResponse { code: 200, body: String::from_str("{\"status\":\"ok\"}") },
        None => ApiError::Forbidden.response(),
    }
}

/// `GET /connect`: for a known secret, `200` with the worker-server port.
pub fn connect(st: &State, token: &String) -> (r: ApiResponse)
    ensures
        has_secret(*st, token@) ==> r.code == 200 && r.body@ == ok_worker_body(st.worker_port),
        !has_secret(*st, token@) ==> r.code == 403 && r.body@ == spec_error_body(
            ApiError::Forbidden,
        ),
{
    if find_secret(st, token).is_none() {
        return ApiError::Forbidden.response();
    }
    let mut body = String::from_str("{\"status\":\"ok\",\"worker\":");
    match st.worker_port {
        Some(p) => {
            body.append(dec_u16(p).as_str());
            body.append("}");
        },
        None => {
            body.append("null}");
        },
    }
    proof {
        reveal_strlit("{\"status\":\"ok\",\"worker\":");
        reveal_strlit("{\"status\":\"ok\",\"worker\":null}");
        reveal_strlit("null}");
        reveal_strlit("}");
        assert(body@ =~= ok_worker_body(st.worker_port));
    }
    ApiResponse { code: 200, body }
}

/// The admission step of `POST /edge`: authentication, quota, and the
/// one-tunnel-per-target rule, decided before the listener manager is asked
/// for a port. No state changes.
pub fn create_edge_check(st: &State, token: &String, target: &String) -> (r: Result<(), ApiError>)
    requires
        state_wf(*st),
    ensures
        r == Err::<(), ApiError>(ApiError::Forbidden) <==> !has_secret(*st, token@),
        r == Err::<(), ApiError>(ApiError::TooManyTunnels) <==> has_secret(*st, token@)
            && !has_room(sec_of(*st, token@)),
        r == Err::<(), ApiError>(ApiError::DuplicateTunnel) <==> has_secret(*st, token@)
            && has_room(sec_of(*st, token@)) && sec_has_target(sec_of(*st, token@), target@),
        r is Ok <==> has_secret(*st, token@) && has_room(sec_of(*st, token@)) && !sec_has_target(
            sec_of(*st, token@),
            target@,
        ),
{
    let idx = match find_secret(st, token) {
        None => {
            return Err(ApiError::Forbidden);
        },
        Some(i) => i,
    };
    proof {
        lemma_sec_index_unique(*st, token@, idx as int);
    }
    let sec = &st.secrets[idx];
    if sec.max_tunnels <= sec.active_tunnels.len() {
        Err(ApiError::TooManyTunnels)
    } else if first_target_port(&sec.active_tunnels, target).is_some() {
        Err(ApiError::DuplicateTunnel)
    } else {
        Ok(())
    }
}

/// Records the tunnel granted by the listener manager under its secret.
/// The port comes fresh from a bind, so it is not in use by any tunnel;
/// the admission step has refused a target the secret already tunnels to.
pub fn record_tunnel(st: &mut State, token: &String, name: String, target: String, port: u16)
    requires
        state_wf(*old(st)),
        has_secret(*old(st), token@),
        has_room(sec_of(*old(st), token@)),
        !sec_has_target(sec_of(*old(st), token@), target@),
        !port_used(*old(st), port),
    ensures
        state_wf(*final(st)),
        final(st).worker_port == old(st).worker_port,
        ({
            let i = sec_index_of(*old(st), token@);
            let s0 = old(st).secrets@[i];
            let s1 = final(st).secrets@[i];
            &&& secrets_updated_at(old(st).secrets@, final(st).secrets@, i)
            &&& same_sec_identity(s0, s1)
            &&& s1.workers@ == s0.workers@
            &&& s1.active_tunnels@ == s0.active_tunnels@.push(
                (Tunnel { name, target, port }),
            )
        }),
{
    let idx = match find_secret(st, token) {
        None => {
            proof {
                assert(false);
            }
            return ;
        },
        Some(i) => i,
    };
    proof {
        lemma_sec_index_unique(*st, token@, idx as int);
    }
    let ghost st0 = *st;
    let sec = &mut st.secrets[idx];
    sec.active_tunnels.push(Tunnel { name, target, port });
    proof {
        let i = idx as int;
        let s0 = st0.secrets@[i];
        let s1 = st.secrets@[i];
        assert(s1.active_tunnels@ == s0.active_tunnels@.push(s1.active_tunnels@.last()));
        assert forall|k: int|
            0 <= k < st.secrets@.len() implies quota_ok(#[trigger] st.secrets@[k]) by {
            assert(st0.secrets@[k] == if k == i {
                s0
            } else {
                st.secrets@[k]
            });
        }
        assert(seq_targets_distinct(s1.active_tunnels@)) by {
            assert forall|a: int, b: int|
                0 <= a < b < s1.active_tunnels@.len() implies (#[trigger] s1.active_tunnels@[a]).target@
                != (#[trigger] s1.active_tunnels@[b]).target@ by {
                if b == s1.active_tunnels@.len() - 1 {
                    assert(s1.active_tunnels@[a] == s0.active_tunnels@[a]);
                    assert(!(exists|j: int|
                        0 <= j < s0.active_tunnels@.len() && s0.active_tunnels@[j].target@
                            == target@));
                } else {
                    assert(s1.active_tunnels@[a] == s0.active_tunnels@[a]);
                    assert(s1.active_tunnels@[b] == s0.active_tunnels@[b]);
                }
            }
        }
        assert forall|x: int|
            0 <= x < st.secrets@.len() implies seq_targets_distinct(
            (#[trigger] st.secrets@[x]).active_tunnels@,
        ) by {
            if x != i {
                assert(st.secrets@[x] == st0.secrets@[x]);
                assert(seq_targets_distinct(st0.secrets@[x].active_tunnels@));
            }
        }
        assert(seq_ports_distinct(s1.active_tunnels@)) by {
            assert forall|a: int, b: int|
                0 <= a < b < s1.active_tunnels@.len() implies (#[trigger] s1.active_tunnels@[a]).port
                != (#[trigger] s1.active_tunnels@[b]).port by {
                if b == s1.active_tunnels@.len() - 1 {
                    assert(s1.active_tunnels@[a] == s0.active_tunnels@[a]);
                    assert(!(0 <= i < st0.secrets@.len() && 0 <= a
                        < st0.secrets@[i].active_tunnels@.len()
                        && st0.secrets@[i].active_tunnels@[a].port == port));
                } else {
                    assert(s1.active_tunnels@[a] == s0.active_tunnels@[a]);
                    assert(s1.active_tunnels@[b] == s0.active_tunnels@[b]);
                }
            }
        }
        assert forall|x: int, y: int|
            0 <= x < y < st.secrets@.len() implies seq_ports_disjoint(
            (#[trigger] st.secrets@[x]).active_tunnels@,
            (#[trigger] st.secrets@[y]).active_tunnels@,
        ) by {
            let tx = st.secrets@[x].active_tunnels@;
            let ty = st.secrets@[y].active_tunnels@;
            assert forall|a: int, b: int|
                0 <= a < tx.len() && 0 <= b < ty.len() implies (#[trigger] tx[a]).port
                != (#[trigger] ty[b]).port by {
                if x == i && a == tx.len() - 1 {
                    assert(tx[a].port == port);
                    assert(ty[b] == st0.secrets@[y].active_tunnels@[b]);
                    assert(!(0 <= y < st0.secrets@.len() && 0 <= b
                        < st0.secrets@[y].active_tunnels@.len()
                        && st0.secrets@[y].active_tunnels@[b].port == port));
                } else if y == i && b == ty.len() - 1 {
                    assert(ty[b].port == port);
                    assert(tx[a] == st0.secrets@[x].active_tunnels@[a]);
                    assert(!(0 <= x < st0.secrets@.len() && 0 <= a
                        < st0.secrets@[x].active_tunnels@.len()
                        && st0.secrets@[x].active_tunnels@[a].port == port));
                } else {
                    assert(tx[a] == st0.secrets@[x].active_tunnels@[a]);
                    assert(ty[b] == st0.secrets@[y].active_tunnels@[b]);
                }
            }
        }
    }
}

/// `DELETE /edge`: removes every tunnel of the secret for the given target
/// and reports the public port of the first one, so its listener can be
/// stopped. Unknown secrets and unknown targets change nothing.
pub fn delete_edge(st: &mut State, token: &String, target: &String) -> (r: Result<u16, ApiError>)
    requires
        state_wf(*old(st)),
    ensures
        state_wf(*final(st)),
        final(st).worker_port == old(st).worker_port,
        r == Err::<u16, ApiError>(ApiError::Forbidden) <==> !has_secret(*old(st), token@),
        r is Err ==> *final(st) == *old(st) && (r == Err::<u16, ApiError>(ApiError::Forbidden) || r
            == Err::<u16, ApiError>(ApiError::NoSuchTunnel)),
        r == Err::<u16, ApiError>(ApiError::NoSuchTunnel) <==> has_secret(*old(st), token@)
            && !sec_has_target(sec_of(*old(st), token@), target@),
        r matches Ok(p) ==> {
            let i = sec_index_of(*old(st), token@);
            let s0 = old(st).secrets@[i];
            let s1 = final(st).secrets@[i];
            &&& has_secret(*old(st), token@)
            &&& secrets_updated_at(old(st).secrets@, final(st).secrets@, i)
            &&& same_sec_identity(s0, s1)
            &&& s1.workers@ == s0.workers@
            &&& s1.active_tunnels@ == s0.active_tunnels@.filter(keeps_target(target@))
            &&& exists|j: int|
                0 <= j < s0.active_tunnels@.len() && (#[trigger] s0.active_tunnels@[j]).target@
                    == target@ && p == s0.active_tunnels@[j].port && forall|k: int|
                    0 <= k < j ==> (#[trigger] s0.active_tunnels@[k]).target@ != target@
        },
{
    let idx = match find_secret(st, token) {
        None => {
            return Err(ApiError::Forbidden);
        },
        Some(i) => i,
    };
    proof {
        lemma_sec_index_unique(*st, token@, idx as int);
    }
    let ghost st0 = *st;

    // First pass: find the first tunnel for this target.
    let p = match first_target_port(&st.secrets[idx].active_tunnels, target) {
        None => {
            proof {
                assert(!sec_has_target(sec_of(st0, token@), target@));
            }
            return Err(ApiError::NoSuchTunnel);
        },
        Some(p) => p,
    };

    // Second pass: keep only the tunnels whose target differs.
    let ghost pred = keeps_target(target@);
    let sec = &mut st.secrets[idx];
    let ghost all = sec.active_tunnels@;
    let mut rest = sec.active_tunnels.split_off(0);
    let mut kept: Vec<Tunnel> = Vec::new();
    proof {
        assert(all.subrange(0, 0) =~= Seq::<Tunnel>::empty());
        assert(Seq::<Tunnel>::empty().filter(pred) =~= Seq::<Tunnel>::empty()) by {
            reveal(Seq::filter);
        }
    }
    while rest.len() > 0
        invariant
            rest@.len() <= all.len(),
            rest@ == all.subrange(all.len() - rest@.len(), all.len() as int),
            kept@ == all.subrange(0, all.len() - rest@.len()).filter(pred),
            pred == keeps_target(target@),
        decreases rest@.len(),
    {
        let ghost rest0 = rest@;
        let ghost pos = all.len() - rest0.len();
        proof {
            assert(rest0 == all.subrange(pos, all.len() as int));
            assert(rest0[0] == all.subrange(pos, all.len() as int)[0]);
            assert(rest0[0] == all[pos]);
        }
        let t = rest.remove(0);
        proof {
            assert(t == rest0[0]);
            assert(t == all[pos]);
            assert(rest@ == rest0.remove(0));
            assert forall|k: int| 0 <= k < rest@.len() implies rest@[k] == all[pos + 1 + k] by {
                assert(rest0.remove(0)[k] == rest0[k + 1]);
                assert(rest0[k + 1] == all.subrange(pos, all.len() as int)[k + 1]);
            }
            assert(rest@ =~= all.subrange(pos + 1, all.len() as int));
            let pre0 = all.subrange(0, pos);
            let pre1 = all.subrange(0, pos + 1);
            assert(pre1 =~= pre0 + seq![t]);
            Seq::<Tunnel>::filter_distributes_over_add(pre0, seq![t], pred);
            reveal(Seq::filter);
            assert(seq![t].drop_last() =~= Seq::<Tunnel>::empty());
            assert(Seq::<Tunnel>::empty().filter(pred) =~= Seq::<Tunnel>::empty());
            if pred(t) {
                assert(seq![t].filter(pred) =~= seq![t]);
            } else {
                assert(seq![t].filter(pred) =~= Seq::<Tunnel>::empty());
            }
        }
        if t.target == *target {
            // dropped
            proof {
                assert(!pred(t));
                assert(kept@ == all.subrange(0, all.len() - rest@.len()).filter(pred));
            }
        } else {
            kept.push(t);
            proof {
                assert(pred(t));
                assert(kept@ =~= all.subrange(0, all.len() - rest@.len()).filter(pred));
            }
        }
    }
    proof {
        assert(all.subrange(0, all.len() as int) =~= all);
    }
    sec.active_tunnels = kept;
    proof {
        lemma_state_wf_after_filter(st0, *st, idx as int, target@);
    }
    Ok(p)
}

/// The public port of the first tunnel in the list for the given target.
fn first_target_port(ts: &Vec<Tunnel>, target: &String) -> (r: Option<u16>)
    ensures
        r matches Some(p) ==> exists|j: int|
            0 <= j < ts@.len() && (#[trigger] ts@[j]).target@ == target@ && p == ts@[j].port
                && forall|k: int| 0 <= k < j ==> (#[trigger] ts@[k]).target@ != target@,
        r is None <==> forall|k: int| 0 <= k < ts@.len() ==> (#[trigger] ts@[k]).target@ != target@,
{
    let mut j: usize = 0;
    while j < ts.len()
        invariant
            j <= ts@.len(),
            forall|k: int| 0 <= k < j ==> (#[trigger] ts@[k]).target@ != target@,
        decreases ts@.len() - j,
    {
        if ts[j].target == *target {
            return Some(ts[j].port);
        }
        j = j + 1;
    }
    None
}

/// Every element of a filtered sequence occurs in the unfiltered one.
pub(crate) proof fn lemma_filter_elem_membership(ts: Seq<Tunnel>, pred: spec_fn(Tunnel) -> bool, j: int)
    requires
        0 <= j < ts.filter(pred).len(),
    ensures
        exists|k: int| 0 <= k < ts.len() && ts[k] == ts.filter(pred)[j],
    decreases ts.len(),
{
    reveal(Seq::filter);
    if ts.len() > 0 {
        let dl = ts.drop_last();
        if pred(ts.last()) && j == ts.filter(pred).len() - 1 {
            assert(ts[ts.len() - 1] == ts.filter(pred)[j]);
        } else {
            lemma_filter_elem_membership(dl, pred, j);
            let k = choose|k: int| 0 <= k < dl.len() && dl[k] == dl.filter(pred)[j];
            assert(ts[k] == ts.filter(pred)[j]);
        }
    }
}

/// Filtering a tunnel list keeps its ports pairwise distinct.
proof fn lemma_filter_ports_distinct(ts: Seq<Tunnel>, pred: spec_fn(Tunnel) -> bool)
    requires
        seq_ports_distinct(ts),
    ensures
        seq_ports_distinct(ts.filter(pred)),
    decreases ts.len(),
{
    reveal(Seq::filter);
    if ts.len() > 0 {
        let dl = ts.drop_last();
        assert(seq_ports_distinct(dl)) by {
            assert(forall|a: int| 0 <= a < dl.len() ==> dl[a] == #[trigger] ts[a]);
        }
        lemma_filter_ports_distinct(dl, pred);
        let f = ts.filter(pred);
        if pred(ts.last()) {
            assert(f == dl.filter(pred).push(ts.last()));
            assert forall|a: int, b: int|
                0 <= a < b < f.len() implies (#[trigger] f[a]).port != (#[trigger] f[b]).port by {
                if b == f.len() - 1 {
                    lemma_filter_elem_membership(dl, pred, a);
                    let k = choose|k: int| 0 <= k < dl.len() && dl[k] == dl.filter(pred)[a];
                    assert(ts[k] == f[a]);
                    assert(ts[k].port != ts[ts.len() - 1].port);
                } else {
                    assert(f[a] == dl.filter(pred)[a] && f[b] == dl.filter(pred)[b]);
                }
            }
        }
    }
}

/// Filtering a tunnel list keeps its targets pairwise distinct.
proof fn lemma_filter_targets_distinct(ts: Seq<Tunnel>, pred: spec_fn(Tunnel) -> bool)
    requires
        seq_targets_distinct(ts),
    ensures
        seq_targets_distinct(ts.filter(pred)),
    decreases ts.len(),
{
    reveal(Seq::filter);
    if ts.len() > 0 {
        let dl = ts.drop_last();
        assert(seq_targets_distinct(dl)) by {
            assert(forall|a: int| 0 <= a < dl.len() ==> dl[a] == #[trigger] ts[a]);
        }
        lemma_filter_targets_distinct(dl, pred);
        let f = ts.filter(pred);
        if pred(ts.last()) {
            assert(f == dl.filter(pred).push(ts.last()));
            assert forall|a: int, b: int|
                0 <= a < b < f.len() implies (#[trigger] f[a]).target@ != (#[trigger] f[b]).target@ by {
                if b == f.len() - 1 {
                    lemma_filter_elem_membership(dl, pred, a);
                    let k = choose|k: int| 0 <= k < dl.len() && dl[k] == dl.filter(pred)[a];
                    assert(ts[k] == f[a]);
                    assert(ts[k].target@ != ts[ts.len() - 1].target@);
                } else {
                    assert(f[a] == dl.filter(pred)[a] && f[b] == dl.filter(pred)[b]);
                }
            }
        }
    }
}

/// Well-formedness survives replacing one secret's tunnels by a filtered
/// subsequence of them.
proof fn lemma_state_wf_after_filter(st0: State, st1: State, i: int, target: Seq<char>)
    requires
        state_wf(st0),
        0 <= i < st0.secrets@.len(),
        st1.secrets@.len() == st0.secrets@.len(),
        forall|k: int| 0 <= k < st0.secrets@.len() && k != i ==> st1.secrets@[k] == #[trigger] st0.secrets@[k],
        st1.secrets@[i].secret@ == st0.secrets@[i].secret@,
        st1.secrets@[i].max_tunnels == st0.secrets@[i].max_tunnels,
        st1.secrets@[i].active_tunnels@ == st0.secrets@[i].active_tunnels@.filter(
            keeps_target(target),
        ),
    ensures
        state_wf(st1),
{
    let pred = keeps_target(target);
    let t0 = st0.secrets@[i].active_tunnels@;
    let t1 = st1.secrets@[i].active_tunnels@;
    assert(tokens_unique(st1)) by {
        assert forall|x: int, y: int|
            0 <= x < y < st1.secrets@.len() implies (#[trigger] st1.secrets@[x]).secret@
            != (#[trigger] st1.secrets@[y]).secret@ by {
            assert(st1.secrets@[x].secret@ == st0.secrets@[x].secret@);
            assert(st1.secrets@[y].secret@ == st0.secrets@[y].secret@);
        }
    }
    t0.lemma_filter_len(pred);
    assert forall|k: int| 0 <= k < st1.secrets@.len() implies quota_ok(#[trigger] st1.secrets@[k]) by {
        assert(quota_ok(st0.secrets@[k]));
    }
    lemma_filter_targets_distinct(t0, pred);
    assert forall|x: int|
        0 <= x < st1.secrets@.len() implies seq_targets_distinct(
        (#[trigger] st1.secrets@[x]).active_tunnels@,
    ) by {
        if x != i {
            assert(st1.secrets@[x] == st0.secrets@[x]);
            assert(seq_targets_distinct(st0.secrets@[x].active_tunnels@));
        }
    }
    lemma_filter_ports_distinct(t0, pred);
    assert forall|x: int|
        0 <= x < st1.secrets@.len() implies seq_ports_distinct(
        (#[trigger] st1.secrets@[x]).active_tunnels@,
    ) by {
        if x != i {
            assert(st1.secrets@[x] == st0.secrets@[x]);
        }
    }
    assert forall|x: int, y: int|
        0 <= x < y < st1.secrets@.len() implies seq_ports_disjoint(
        (#[trigger] st1.secrets@[x]).active_tunnels@,
        (#[trigger] st1.secrets@[y]).active_tunnels@,
    ) by {
        let tx = st1.secrets@[x].active_tunnels@;
        let ty = st1.secrets@[y].active_tunnels@;
        assert(seq_ports_disjoint(
            st0.secrets@[x].active_tunnels@,
            st0.secrets@[y].active_tunnels@,
        ));
        assert forall|a: int, b: int|
            0 <= a < tx.len() && 0 <= b < ty.len() implies (#[trigger] tx[a]).port
            != (#[trigger] ty[b]).port by {
            if x == i {
                lemma_filter_elem_membership(t0, pred, a);
                let k = choose|k: int| 0 <= k < t0.len() && t0[k] == t0.filter(pred)[a];
                assert(st0.secrets@[y].active_tunnels@[b] == ty[b]);
                assert(t0[k].port != ty[b].port);
            } else if y == i {
                lemma_filter_elem_membership(t0, pred, b);
                let k = choose|k: int| 0 <= k < t0.len() && t0[k] == t0.filter(pred)[b];
                assert(st0.secrets@[x].active_tunnels@[a] == tx[a]);
                assert(tx[a].port != t0[k].port);
            } else {
                assert(tx[a] == st0.secrets@[x].active_tunnels@[a]);
                assert(ty[b] == st0.secrets@[y].active_tunnels@[b]);
            }
        }
    }
}

/// `DELETE /edge/all`: drops every tunnel of the secret and returns their
/// public ports so each listener can be stopped.
pub fn delete_edges(st: &mut State, token: &String) -> (r: Result<Vec<u16>, ApiError>)
    requires
        state_wf(*old(st)),
    ensures
        state_wf(*final(st)),
        final(st).worker_port == old(st).worker_port,
        r is Err <==> !has_secret(*old(st), token@),
        r is Err ==> *final(st) == *old(st) && r == Err::<Vec<u16>, ApiError>(ApiError::Forbidden),
        r matches Ok(ports) ==> {
            let i = sec_index_of(*old(st), token@);
            let s0 = old(st).secrets@[i];
            let s1 = final(st).secrets@[i];
            &&& secrets_updated_at(old(st).secrets@, final(st).secrets@, i)
            &&& same_sec_identity(s0, s1)
            &&& s1.workers@ == s0.workers@
            &&& s1.active_tunnels@.len() == 0
            &&& ports@ == tunnel_ports(s0.active_tunnels@)
        },
{
    let idx = match find_secret(st, token) {
        None => {
            return Err(ApiError::Forbidden);
        },
        Some(i) => i,
    };
    proof {
        lemma_sec_index_unique(*st, token@, idx as int);
    }
    let ghost st0 = *st;
    let sec = &mut st.secrets[idx];
    let drained = sec.active_tunnels.split_off(0);
    let ports = ports_of(&drained);
    proof {
        lemma_wf_after_drain(st0, *st, idx as int);
    }
    Ok(ports)
}

/// Collects the public ports of a tunnel list, in order.
fn ports_of(ts: &Vec<Tunnel>) -> (r: Vec<u16>)
    ensures
        r@ == tunnel_ports(ts@),
{
    let mut r: Vec<u16> = Vec::new();
    let mut k: usize = 0;
    while k < ts.len()
        invariant
            k <= ts@.len(),
            r@ == tunnel_ports(ts@.subrange(0, k as int)),
        decreases ts@.len() - k,
    {
        r.push(ts[k].port);
        proof {
            let f = |t: Tunnel| t.port;
            assert(ts@.subrange(0, k + 1) =~= ts@.subrange(0, k as int).push(ts@[k as int]));
            assert(ts@.subrange(0, k + 1).map_values(f) =~= ts@.subrange(0, k as int).map_values(f).push(
                f(ts@[k as int]),
            ));
        }
        k = k + 1;
    }
    proof {
        assert(ts@.subrange(0, ts@.len() as int) =~= ts@);
    }
    r
}

/// Well-formedness survives emptying one secret's tunnel list.
proof fn lemma_wf_after_drain(st0: State, st1: State, i: int)
    requires
        state_wf(st0),
        0 <= i < st0.secrets@.len(),
        st1.secrets@.len() == st0.secrets@.len(),
        forall|k: int| 0 <= k < st0.secrets@.len() && k != i ==> st1.secrets@[k] == #[trigger] st0.secrets@[k],
        st1.secrets@[i].secret@ == st0.secrets@[i].secret@,
        st1.secrets@[i].max_tunnels == st0.secrets@[i].max_tunnels,
        st1.secrets@[i].active_tunnels@.len() == 0,
    ensures
        state_wf(st1),
{
    assert forall|x: int, y: int|
        0 <= x < y < st1.secrets@.len() implies (#[trigger] st1.secrets@[x]).secret@
        != (#[trigger] st1.secrets@[y]).secret@ by {
        assert(st1.secrets@[x].secret@ == st0.secrets@[x].secret@);
        assert(st1.secrets@[y].secret@ == st0.secrets@[y].secret@);
    }
    assert forall|k: int| 0 <= k < st1.secrets@.len() implies quota_ok(#[trigger] st1.secrets@[k]) by {
        assert(quota_ok(st0.secrets@[k]));
    }
    assert forall|x: int|
        0 <= x < st1.secrets@.len() implies seq_targets_distinct(
        (#[trigger] st1.secrets@[x]).active_tunnels@,
    ) by {
        if x != i {
            assert(st1.secrets@[x] == st0.secrets@[x]);
            assert(seq_targets_distinct(st0.secrets@[x].active_tunnels@));
        }
    }
    assert forall|x: int|
        0 <= x < st1.secrets@.len() implies seq_ports_distinct(
        (#[trigger] st1.secrets@[x]).active_tunnels@,
    ) by {
        if x != i {
            assert(st1.secrets@[x] == st0.secrets@[x]);
        }
    }
    assert forall|x: int, y: int|
        0 <= x < y < st1.secrets@.len() implies seq_ports_disjoint(
        (#[trigger] st1.secrets@[x]).active_tunnels@,
        (#[trigger] st1.secrets@[y]).active_tunnels@,
    ) by {
        if x != i && y != i {
            assert(st1.secrets@[x] == st0.secrets@[x]);
            assert(st1.secrets@[y] == st0.secrets@[y]);
        }
    }
}

/// `GET /goodbye`: drains the secret's tunnels and its worker pool,
/// returning the ports to stop and the workers to close.
pub fn goodbye(st: &mut State, token: &String) -> (r: Result<(Vec<u16>, Vec<Worker>), ApiError>)
    requires
        state_wf(*old(st)),
    ensures
        state_wf(*final(st)),
        final(st).worker_port == old(st).worker_port,
        r is Err <==> !has_secret(*old(st), token@),
        r is Err ==> *final(st) == *old(st) && r == Err::<(Vec<u16>, Vec<Worker>), ApiError>(
            ApiError::Forbidden,
        ),
        r matches Ok(out) ==> {
            let i = sec_index_of(*old(st), token@);
            let s0 = old(st).secrets@[i];
            let s1 = final(st).secrets@[i];
            &&& secrets_updated_at(old(st).secrets@, final(st).secrets@, i)
            &&& same_sec_identity(s0, s1)
            &&& s1.active_tunnels@.len() == 0
            &&& s1.workers@.len() == 0
            &&& out.0@ == tunnel_ports(s0.active_tunnels@)
            &&& out.1@ == s0.workers@
        },
{
    let idx = match find_secret(st, token) {
        None => {
            return Err(ApiError::Forbidden);
        },
        Some(i) => i,
    };
    proof {
        lemma_sec_index_unique(*st, token@, idx as int);
    }
    let ghost st0 = *st;
    let sec = &mut st.secrets[idx];
    let drained = sec.active_tunnels.split_off(0);
    let ports = ports_of(&drained);
    let ws = sec.workers.split_off(0);
    proof {
        lemma_wf_after_drain(st0, *st, idx as int);
    }
    Ok((ports, ws))
}

} // verus!
