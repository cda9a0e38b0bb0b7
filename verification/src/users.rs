//! The persisted edge configuration and its user management: adding a user
//! mints a fresh 32-byte key rendered as lowercase hex; deleting accepts the
//! lowercased name, or an exact name as a fallback.

use vstd::prelude::*;

verus! {

/// One persisted user record: quota and bearer key.
pub struct Secret {
    pub max_tunnels: usize,
    pub key: String,
}

/// The edge's persisted configuration: the HTTP port and the users, each a
/// name with its record.
pub struct Configuration {
    pub port: u16,
    pub secrets: Vec<(String, Secret)>,
}

/// User management failures.
#[derive(Clone, Copy, PartialEq, Eq, Structural, Debug)]
pub enum UserError {
    DuplicateUser,
    UserNotFound,
}

/// A user of this name exists.
pub open spec fn cfg_has_name(c: Configuration, name: Seq<char>) -> bool {
    exists|i: int| 0 <= i < c.secrets@.len() && (#[trigger] c.secrets@[i]).0@ == name
}

/// The lowercase form of a string, as the platform's case folding gives it.
pub uninterp spec fn lower_of(s: Seq<char>) -> Seq<char>;

/// Relies on str::to_lowercase: the result depends on the characters alone.
#[verifier::external_body]
fn lowercase(s: &str) -> (r: String)
    ensures
        r@ == lower_of(s@),
{
    s.to_lowercase()
}

/// Relies on rand::random for 32 unpredictable bytes; only the length is
/// assumed, nothing about the values.
#[verifier::external_body]
fn random_key_bytes() -> (r: Vec<u8>)
    ensures
        r@.len() == 32,
{
    rand::random::<[u8; 32]>().to_vec()
}

/// A lowercase hexadecimal digit.
pub open spec fn is_hex_lower(c: char) -> bool {
    ('0' <= c && c <= '9') || ('a' <= c && c <= 'f')
}

/// The lowercase hex digit for a value below sixteen.
pub open spec fn hex_digit(d: nat) -> char
    recommends
        d < 16,
{
    if d < 10 {
        crate::text::dec_digit(d)
    } else if d == 10 {
        'a'
    } else if d == 11 {
        'b'
    } else if d == 12 {
        'c'
    } else if d == 13 {
        'd'
    } else if d == 14 {
        'e'
    } else {
        'f'
    }
}

/// The lowercase hex rendering of a byte string, two digits per byte.
pub open spec fn hex_rep(b: Seq<u8>) -> Seq<char>
    decreases b.len(),
{
    if b.len() == 0 {
        Seq::empty()
    } else {
        hex_rep(b.drop_last()) + seq![
            hex_digit((b.last() >> 4) as nat),
            hex_digit((b.last() & 0xf) as nat),
        ]
    }
}

/// One lowercase hex digit as a string slice.
fn hex_digit_str(d: u8) -> (r: &'static str)
    requires
        d < 16,
    ensures
        r@ == seq![hex_digit(d as nat)],
{
    if d < 10 {
        crate::text::digit_str(d)
    } else {
        proof {
            reveal_strlit("a");
            reveal_strlit("b");
            reveal_strlit("c");
            reveal_strlit("d");
            reveal_strlit("e");
            reveal_strlit("f");
        }
        let r = match d {
            10 => "a",
            11 => "b",
            12 => "c",
            13 => "d",
            14 => "e",
            _ => "f",
        };
        proof {
            assert(r@ =~= seq![hex_digit(d as nat)]);
        }
        r
    }
}

/// Renders a byte string as lowercase hex.
pub fn to_hex_lower(b: &Vec<u8>) -> (r: String)
    ensures
        r@ == hex_rep(b@),
{
    let mut s = String::new();
    let mut i: usize = 0;
    while i < b.len()
        invariant
            i <= b@.len(),
            s@ == hex_rep(b@.subrange(0, i as int)),
        decreases b@.len() - i,
    {
        let x: u8 = b[i];
        let hi: u8 = x >> 4;
        let lo: u8 = x & 0xf;
        proof {
            assert(x >> 4 < 16 && x & 0xf < 16) by (bit_vector);
        }
        s.append(hex_digit_str(hi));
        s.append(hex_digit_str(lo));
        proof {
            let pre1 = b@.subrange(0, i + 1);
            assert(pre1.drop_last() =~= b@.subrange(0, i as int));
            assert(pre1.last() == b@[i as int]);
            assert(s@ =~= hex_rep(pre1));
        }
        i = i + 1;
    }
    proof {
        assert(b@.subrange(0, b@.len() as int) =~= b@);
    }
    s
}

/// Every character of a hex rendering is a lowercase hex digit, and each
/// byte yields two of them.
pub proof fn lemma_hex_rep_shape(b: Seq<u8>)
    ensures
        hex_rep(b).len() == 2 * b.len(),
        forall|i: int| 0 <= i < hex_rep(b).len() ==> is_hex_lower(#[trigger] hex_rep(b)[i]),
    decreases b.len(),
{
    if b.len() > 0 {
        lemma_hex_rep_shape(b.drop_last());
        assert(is_hex_lower(hex_digit((b.last() >> 4) as nat)));
        assert(is_hex_lower(hex_digit((b.last() & 0xf) as nat)));
    }
}

/// Mints a fresh bearer key: 32 random bytes as 64 lowercase hex digits.
pub fn generate_key() -> (r: String)
    ensures
        r@.len() == 64,
        forall|i: int| 0 <= i < r@.len() ==> is_hex_lower(#[trigger] r@[i]),
{
    let bytes = random_key_bytes();
    let s = to_hex_lower(&bytes);
    proof {
        lemma_hex_rep_shape(bytes@);
    }
    s
}

/// Finds the first user entry with this exact name.
fn find_name(cfg: &Configuration, name: &String) -> (r: Option<usize>)
    ensures
        r matches Some(i) ==> i < cfg.secrets@.len() && cfg.secrets@[i as int].0@ == name@
            && forall|k: int| 0 <= k < i ==> (#[trigger] cfg.secrets@[k]).0@ != name@,
        r is None <==> !cfg_has_name(*cfg, name@),
{
    let mut i: usize = 0;
    while i < cfg.secrets.len()
        invariant
            i <= cfg.secrets@.len(),
            forall|k: int| 0 <= k < i ==> (#[trigger] cfg.secrets@[k]).0@ != name@,
        decreases cfg.secrets@.len() - i,
    {
        if cfg.secrets[i].0 == *name {
            return Some(i);
        }
        i = i + 1;
    }
    None
}

/// The requested quota, or the default of five tunnels.
pub open spec fn spec_quota(max_tunnels: Option<usize>) -> usize {
    match max_tunnels {
        Some(m) => m,
        None => 5,
    }
}

/// Adds a user under the lowercased name with a fresh key; an existing
/// name is refused and nothing changes.
pub fn add_user(cfg: &mut Configuration, name: String, max_tunnels: Option<usize>) -> (r: Result<
    (),
    UserError,
>)
    ensures
        r == Err::<(), UserError>(UserError::DuplicateUser) <==> cfg_has_name(
            *old(cfg),
            lower_of(name@),
        ),
        r is Ok <==> !cfg_has_name(*old(cfg), lower_of(name@)),
        r is Err ==> *final(cfg) == *old(cfg),
        final(cfg).port == old(cfg).port,
        r is Ok ==> {
            &&& final(cfg).secrets@.len() == old(cfg).secrets@.len() + 1
            &&& final(cfg).secrets@.drop_last() == old(cfg).secrets@
            &&& final(cfg).secrets@.last().0@ == lower_of(name@)
            &&& final(cfg).secrets@.last().1.max_tunnels == spec_quota(max_tunnels)
            &&& final(cfg).secrets@.last().1.key@.len() == 64
            &&& forall|i: int|
                0 <= i < 64 ==> is_hex_lower(#[trigger] final(cfg).secrets@.last().1.key@[i])
        },
{
    let lower = lowercase(name.as_str());
    if find_name(cfg, &lower).is_some() {
        return Err(UserError::DuplicateUser);
    }
    let max: usize = match max_tunnels {
        Some(m) => m,
        None => 5,
    };
    let key = generate_key();
    cfg.secrets.push((lower, Secret { max_tunnels: max, key }));
    proof {
        assert(cfg.secrets@.drop_last() =~= old(cfg).secrets@);
    }
    Ok(())
}

/// Deletes a user: by lowercased name first, then by exact name; an unknown
/// user is reported and nothing changes.
pub fn delete_user(cfg: &mut Configuration, name_or_key: String) -> (r: Result<(), UserError>)
    ensures
        final(cfg).port == old(cfg).port,
        r is Err <==> !cfg_has_name(*old(cfg), lower_of(name_or_key@)) && !cfg_has_name(
            *old(cfg),
            name_or_key@,
        ),
        r is Err ==> *final(cfg) == *old(cfg) && r == Err::<(), UserError>(UserError::UserNotFound),
        // The lowercased name decides first; only when it matches nothing is
        // the exact name tried. Either way the first matching entry goes.
        r is Ok ==> exists|j: int|
            0 <= j < old(cfg).secrets@.len() && final(cfg).secrets@ == old(cfg).secrets@.remove(j)
                && (if cfg_has_name(*old(cfg), lower_of(name_or_key@)) {
                (#[trigger] old(cfg).secrets@[j]).0@ == lower_of(name_or_key@) && forall|k: int|
                    0 <= k < j ==> (#[trigger] old(cfg).secrets@[k]).0@ != lower_of(name_or_key@)
            } else {
                (#[trigger] old(cfg).secrets@[j]).0@ == name_or_key@ && forall|k: int|
                    0 <= k < j ==> (#[trigger] old(cfg).secrets@[k]).0@ != name_or_key@
            }),
{
    let lower = lowercase(name_or_key.as_str());
    let idx = match find_name(cfg, &lower) {
        Some(i) => i,
        None => {
            match find_name(cfg, &name_or_key) {
                Some(i) => i,
                None => {
                    return Err(UserError::UserNotFound);
                },
            }
        },
    };
    cfg.secrets.remove(idx);
    Ok(())
}

} // verus!
