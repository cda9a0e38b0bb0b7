//! In-memory edge state: per-secret quota, active tunnels and the worker
//! pool, with the process-wide invariants on it — quota respected, bearer
//! tokens distinct, and no two tunnels sharing a public port.

use vstd::prelude::*;
use vstd::string::StrSliceExecFns;

verus! {

/// One active tunnel owned by a secret: its name, its private target
/// (`host:port`, already resolved), and the public listener port.
pub struct Tunnel {
    pub name: String,
    pub target: String,
    pub port: u16,
}

/// One parked client connection awaiting work. The channels that carry the
/// handoff live with the I/O layer and are addressed by `worker_id`.
pub struct Worker {
    pub client_addr: String,
    pub worker_id: u64,
}

/// Everything the edge holds for one bearer secret.
pub struct Secret {
    pub secret: String,
    pub max_tunnels: usize,
    pub active_tunnels: Vec<Tunnel>,
    pub workers: Vec<Worker>,
}

/// The shared edge state: the worker-server port once bound, and the
/// per-secret records.
pub struct State {
    pub worker_port: Option<u16>,
    pub secrets: Vec<Secret>,
}

/// A secret's tunnel count respects its quota.
pub open spec fn quota_ok(s: Secret) -> bool {
    s.active_tunnels@.len() <= s.max_tunnels
}

/// A secret has room for one more tunnel.
pub open spec fn has_room(s: Secret) -> bool {
    s.active_tunnels@.len() < s.max_tunnels
}

/// Some secret is registered under this bearer token.
pub open spec fn has_secret(st: State, tok: Seq<char>) -> bool {
    exists|i: int| 0 <= i < st.secrets@.len() && st.secrets@[i].secret@ == tok
}

/// The index of the secret registered under this token.
pub open spec fn sec_index_of(st: State, tok: Seq<char>) -> int {
    choose|i: int| 0 <= i < st.secrets@.len() && st.secrets@[i].secret@ == tok
}

/// The secret registered under this token.
pub open spec fn sec_of(st: State, tok: Seq<char>) -> Secret {
    st.secrets@[sec_index_of(st, tok)]
}

/// A secret owns a tunnel for this target.
pub open spec fn sec_has_target(s: Secret, target: Seq<char>) -> bool {
    exists|j: int| 0 <= j < s.active_tunnels@.len() && s.active_tunnels@[j].target@ == target
}

/// Some tunnel of some secret holds this public port.
pub open spec fn port_used(st: State, p: u16) -> bool {
    exists|i: int, j: int|
        0 <= i < st.secrets@.len() && 0 <= j < st.secrets@[i].active_tunnels@.len()
            && st.secrets@[i].active_tunnels@[j].port == p
}

/// No two registered secrets share a bearer token.
pub open spec fn tokens_unique(st: State) -> bool {
    forall|i: int, j: int|
        0 <= i < j < st.secrets@.len() ==> #[trigger] st.secrets@[i].secret@ != #[trigger] st.secrets@[j].secret@
}

/// The tunnels of one secret hold pairwise distinct public ports.
pub open spec fn seq_ports_distinct(ts: Seq<Tunnel>) -> bool {
    forall|a: int, b: int|
        0 <= a < b < ts.len() ==> (#[trigger] ts[a]).port != (#[trigger] ts[b]).port
}

/// No port appears in both tunnel lists.
pub open spec fn seq_ports_disjoint(x: Seq<Tunnel>, y: Seq<Tunnel>) -> bool {
    forall|a: int, b: int|
        0 <= a < x.len() && 0 <= b < y.len() ==> (#[trigger] x[a]).port != (#[trigger] y[b]).port
}

/// The tunnels of one secret name pairwise distinct targets: at most one
/// tunnel per (secret, target) pair.
pub open spec fn seq_targets_distinct(ts: Seq<Tunnel>) -> bool {
    forall|a: int, b: int|
        0 <= a < b < ts.len() ==> (#[trigger] ts[a]).target@ != (#[trigger] ts[b]).target@
}

/// Every secret holds at most one tunnel per target.
pub open spec fn targets_unique(st: State) -> bool {
    forall|i: int|
        0 <= i < st.secrets@.len() ==> seq_targets_distinct(
            (#[trigger] st.secrets@[i]).active_tunnels@,
        )
}

/// No two active tunnels, across all secrets, hold the same public port.
pub open spec fn ports_unique(st: State) -> bool {
    &&& forall|i: int|
        0 <= i < st.secrets@.len() ==> seq_ports_distinct(
            (#[trigger] st.secrets@[i]).active_tunnels@,
        )
    &&& forall|i: int, j: int|
        0 <= i < j < st.secrets@.len() ==> seq_ports_disjoint(
            (#[trigger] st.secrets@[i]).active_tunnels@,
            (#[trigger] st.secrets@[j]).active_tunnels@,
        )
}

/// Well-formedness of the whole edge state: distinct tokens, quota
/// respected everywhere, at most one tunnel per (secret, target) pair, and
/// port uniqueness across all secrets.
pub open spec fn state_wf(st: State) -> bool {
    &&& tokens_unique(st)
    &&& forall|i: int| 0 <= i < st.secrets@.len() ==> quota_ok(#[trigger] st.secrets@[i])
    &&& targets_unique(st)
    &&& ports_unique(st)
}

/// The secret list changed at most at index `i`.
pub open spec fn secrets_updated_at(old_s: Seq<Secret>, new_s: Seq<Secret>, i: int) -> bool {
    new_s.len() == old_s.len() && forall|k: int|
        0 <= k < old_s.len() && k != i ==> new_s[k] == #[trigger] old_s[k]
}

/// Two secret records carry the same token and quota.
pub open spec fn same_sec_identity(a: Secret, b: Secret) -> bool {
    a.secret@ == b.secret@ && a.max_tunnels == b.max_tunnels
}

/// Finds the secret registered under `token`.
pub fn find_secret(st: &State, token: &String) -> (r: Option<usize>)
    ensures
        r matches Some(i) ==> i < st.secrets@.len() && st.secrets@[i as int].secret@ == token@,
        r is None <==> !has_secret(*st, token@),
{
    let n = st.secrets.len();
    let mut i: usize = 0;
    while i < n
        invariant
            n == st.secrets@.len(),
            i <= n,
            forall|k: int| 0 <= k < i ==> #[trigger] st.secrets@[k].secret@ != token@,
        decreases n - i,
    {
        if st.secrets[i].secret == *token {
            return Some(i);
        }
        i = i + 1;
    }
    None
}

/// With distinct tokens, any index matching a token is the registered one.
pub proof fn lemma_sec_index_unique(st: State, tok: Seq<char>, i: int)
    requires
        tokens_unique(st),
        0 <= i < st.secrets@.len(),
        st.secrets@[i].secret@ == tok,
    ensures
        sec_index_of(st, tok) == i,
        has_secret(st, tok),
{
    assert(has_secret(st, tok));
    let j = sec_index_of(st, tok);
    assert(0 <= j < st.secrets@.len() && st.secrets@[j].secret@ == tok);
    if i < j {
        assert(st.secrets@[i].secret@ != st.secrets@[j].secret@);
    } else if j < i {
        assert(st.secrets@[j].secret@ != st.secrets@[i].secret@);
    }
}

/// The whitespace-trimmed form of a string, as the platform's trimming
/// gives it.
pub uninterp spec fn trim_of(s: Seq<char>) -> Seq<char>;

/// Relies on str::trim: the result depends on the characters alone.
#[verifier::external_body]
fn trim_str(s: &str) -> (r: String)
    ensures
        r@ == trim_of(s@),
{
    s.trim().to_string()
}

/// Normalizes the first line a worker connection sends: the line terminator
/// comes off, then surrounding whitespace; what is left is the bearer
/// secret.
pub fn worker_auth_secret(line: &str) -> (r: String)
    ensures
        line@.len() > 0 ==> r@ == trim_of(line@.subrange(0, line@.len() - 1)),
        line@.len() == 0 ==> r@ == trim_of(line@),
{
    let n = line.unicode_len();
    if n == 0 {
        trim_str(line)
    } else {
        let head = line.substring_char(0, n - 1);
        trim_str(head)
    }
}

/// Failure of a worker-pool operation: the bearer token names no secret.
#[derive(Clone, Copy, PartialEq, Eq, Structural, Debug)]
pub enum PoolError {
    UnknownSecret,
}

/// Relies on rand::random_range over `0..n`: the result is uniform in the
/// half-open range, so strictly below `n`.
#[verifier::external_body]
fn random_below(n: usize) -> (r: usize)
    requires
        n > 0,
    ensures
        r < n,
{
    rand::random_range(0..n)
}

/// Builds the boot-time edge state from the persisted user records: one
/// secret per distinct key, with no tunnels and no workers yet. Where two
/// records share a key, one of them provides the quota.
pub fn init_secrets(entries: &Vec<(String, crate::users::Secret)>, worker_port: Option<u16>) -> (st:
    State)
    ensures
        state_wf(st),
        st.worker_port == worker_port,
        forall|k: int|
            0 <= k < entries@.len() ==> has_secret(st, (#[trigger] entries@[k]).1.key@),
        forall|j: int|
            0 <= j < st.secrets@.len() ==> {
                let s = #[trigger] st.secrets@[j];
                &&& s.active_tunnels@.len() == 0
                &&& s.workers@.len() == 0
                &&& exists|k: int|
                    0 <= k < entries@.len() && (#[trigger] entries@[k]).1.key@ == s.secret@
                        && entries@[k].1.max_tunnels == s.max_tunnels
            },
{
    let mut st = State { worker_port, secrets: Vec::new() };
    let mut k: usize = 0;
    while k < entries.len()
        invariant
            k <= entries@.len(),
            st.worker_port == worker_port,
            state_wf(st),
            forall|x: int|
                0 <= x < k ==> has_secret(st, (#[trigger] entries@[x]).1.key@),
            forall|j: int|
                0 <= j < st.secrets@.len() ==> {
                    let s = #[trigger] st.secrets@[j];
                    &&& s.active_tunnels@.len() == 0
                    &&& s.workers@.len() == 0
                    &&& exists|x: int|
                        0 <= x < entries@.len() && (#[trigger] entries@[x]).1.key@ == s.secret@
                            && entries@[x].1.max_tunnels == s.max_tunnels
                },
        decreases entries@.len() - k,
    {
        let key = entries[k].1.key.clone();
        let max = entries[k].1.max_tunnels;
        match find_secret(&st, &key) {
            Some(i) => {
                proof {
                    lemma_sec_index_unique(st, key@, i as int);
                }
                let ghost st_before = st;
                let sec = &mut st.secrets[i];
                sec.max_tunnels = max;
                proof {
                    assert(st.secrets@[i as int].secret@ == key@);
                    assert forall|x: int|
                        0 <= x < k + 1 implies has_secret(
                        st,
                        (#[trigger] entries@[x]).1.key@,
                    ) by {
                        if x < k {
                            let w = choose|w: int|
                                0 <= w < st_before.secrets@.len()
                                    && st_before.secrets@[w].secret@ == entries@[x].1.key@;
                            assert(st.secrets@[w].secret@ == entries@[x].1.key@);
                        } else {
                            assert(st.secrets@[i as int].secret@ == entries@[x].1.key@);
                        }
                    }
                }
            },
            None => {
                let ghost st_before = st;
                st.secrets.push(
                    Secret { secret: key, max_tunnels: max, active_tunnels: Vec::new(), workers: Vec::new() },
                );
                proof {
                    assert(st.secrets@.last().secret@ == entries@[k as int].1.key@);
                    assert forall|x: int, y: int|
                        0 <= x < y < st.secrets@.len() implies (#[trigger] st.secrets@[x]).secret@
                        != (#[trigger] st.secrets@[y]).secret@ by {
                        if y == st.secrets@.len() - 1 {
                            assert(st.secrets@[x] == st_before.secrets@[x]);
                            assert(!has_secret(st_before, key@));
                        } else {
                            assert(st.secrets@[x] == st_before.secrets@[x]);
                            assert(st.secrets@[y] == st_before.secrets@[y]);
                        }
                    }
                    assert forall|x: int|
                        0 <= x < k + 1 implies has_secret(
                        st,
                        (#[trigger] entries@[x]).1.key@,
                    ) by {
                        if x < k {
                            let w = choose|w: int|
                                0 <= w < st_before.secrets@.len()
                                    && st_before.secrets@[w].secret@ == entries@[x].1.key@;
                            assert(st.secrets@[w].secret@ == entries@[x].1.key@);
                        } else {
                            assert(st.secrets@.last().secret@ == entries@[x].1.key@);
                        }
                    }
                }
            },
        }
        k = k + 1;
    }
    st
}

/// Parks an authenticated worker connection in its secret's pool; an
/// unknown token is refused and nothing changes.
pub fn park_worker(st: &mut State, token: &String, w: Worker) -> (r: bool)
    requires
        state_wf(*old(st)),
    ensures
        state_wf(*final(st)),
        r <==> has_secret(*old(st), token@),
        !r ==> *final(st) == *old(st),
        r ==> {
            let i = sec_index_of(*old(st), token@);
            let s0 = old(st).secrets@[i];
            let s1 = final(st).secrets@[i];
            &&& secrets_updated_at(old(st).secrets@, final(st).secrets@, i)
            &&& same_sec_identity(s0, s1)
            &&& s1.active_tunnels@ == s0.active_tunnels@
            &&& s1.workers@ == s0.workers@.push(w)
        },
        final(st).worker_port == old(st).worker_port,
{
    let idx = match find_secret(st, token) {
        None => {
            return false;
        },
        Some(i) => i,
    };
    proof {
        lemma_sec_index_unique(*st, token@, idx as int);
    }
    let sec = &mut st.secrets[idx];
    sec.workers.push(w);
    proof {
        assert(state_wf(*st));
    }
    true
}

/// Takes a uniformly chosen worker out of the secret's pool for a HolePunch
/// handoff. An unknown token is refused; an empty pool yields no worker and
/// leaves the state unchanged, so the tunnel stays usable.
pub fn take_worker(st: &mut State, token: &String) -> (r: Result<Option<Worker>, PoolError>)
    requires
        state_wf(*old(st)),
    ensures
        state_wf(*final(st)),
        r is Err <==> !has_secret(*old(st), token@),
        r is Err ==> *final(st) == *old(st),
        r matches Ok(o) ==> {
            let i = sec_index_of(*old(st), token@);
            let s0 = old(st).secrets@[i];
            let s1 = final(st).secrets@[i];
            match o {
                None => s0.workers@.len() == 0 && *final(st) == *old(st),
                Some(w) => {
                    &&& secrets_updated_at(old(st).secrets@, final(st).secrets@, i)
                    &&& same_sec_identity(s0, s1)
                    &&& s1.active_tunnels@ == s0.active_tunnels@
                    &&& exists|k: int|
                        0 <= k < s0.workers@.len() && w == s0.workers@[k] && s1.workers@
                            == s0.workers@.remove(k)
                },
            }
        },
        final(st).worker_port == old(st).worker_port,
{
    let idx = match find_secret(st, token) {
        None => {
            return Err(PoolError::UnknownSecret);
        },
        Some(i) => i,
    };
    proof {
        lemma_sec_index_unique(*st, token@, idx as int);
    }
    let n = st.secrets[idx].workers.len();
    if n == 0 {
        return Ok(None);
    }
    let k = random_below(n);
    let sec = &mut st.secrets[idx];
    let w = sec.workers.remove(k);
    proof {
        assert(state_wf(*st));
    }
    Ok(Some(w))
}

} // verus!
