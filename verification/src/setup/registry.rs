//! The user's environment in the Windows registry.
use crate::text;
use vstd::prelude::*;

verus! {

/// The values that are managed in the user's environment.
pub const HTTPS_PROXY: &'static str = "HTTPS_PROXY";

pub const HTTP_PROXY: &'static str = "HTTP_PROXY";

pub const CA_CERTS: &'static str = "NODE_EXTRA_CA_CERTS";

/// The names of the managed values, in the order in which they are set and deleted.
pub open spec fn managed_names() -> Seq<Seq<char>> {
    seq![HTTPS_PROXY@, HTTP_PROXY@, CA_CERTS@]
}

/// The names of the managed values.
pub fn env_keys() -> (r: Vec<&'static str>)
    ensures
        r@.map_values(|k: &'static str| k@) == managed_names(),
{
    let mut keys: Vec<&'static str> = Vec::new();
    keys.push(HTTPS_PROXY);
    keys.push(HTTP_PROXY);
    keys.push(CA_CERTS);
    assert(keys@.map_values(|k: &'static str| k@) =~= managed_names());
    keys
}

/// A value to set: its name and its content.
pub type EnvPair = (Seq<char>, Seq<char>);

/// Names and contents as sequences of characters.
pub open spec fn pairs_view(v: Seq<(String, String)>) -> Seq<EnvPair> {
    v.map_values(|p: (String, String)| (p.0@, p.1@))
}

/// The values to set: both proxies point to the interceptor, and the CA is trusted.
pub open spec fn managed_values(proxy: Seq<char>, ca: Seq<char>) -> Seq<EnvPair> {
    seq![(HTTPS_PROXY@, proxy), (HTTP_PROXY@, proxy), (CA_CERTS@, ca)]
}

/// The values to set, in order.
pub fn set_user_env(proxy: &str, ca: &str) -> (r: Vec<(String, String)>)
    ensures
        pairs_view(r@) == managed_values(proxy@, ca@),
{
    let mut pairs: Vec<(String, String)> = Vec::new();
    pairs.push((HTTPS_PROXY.to_owned(), proxy.to_owned()));
    pairs.push((HTTP_PROXY.to_owned(), proxy.to_owned()));
    pairs.push((CA_CERTS.to_owned(), ca.to_owned()));
    assert(pairs_view(pairs@) =~= managed_values(proxy@, ca@));
    pairs
}

/// How the deletion of one value went.
#[derive(Debug, Clone, Copy, PartialEq, Eq, Structural)]
pub enum Deletion {
    Deleted,
    Missing,
    Failed,
}

/// Whether some value was deleted, or the first one whose deletion failed. A missing value is no
/// failure.
pub open spec fn cleared(ds: Seq<Deletion>) -> Result<bool, nat>
    decreases ds.len(),
{
    if ds.len() == 0 {
        Ok(false)
    } else {
        match cleared(ds.drop_last()) {
            Err(i) => Err(i),
            Ok(any) => match ds.last() {
                Deletion::Deleted => Ok(true),
                Deletion::Missing => Ok(any),
                Deletion::Failed => Err((ds.len() - 1) as nat),
            },
        }
    }
}

/// Whether some value was deleted, or which deletion failed first, given how each went. Deletions
/// after one that failed are not looked at.
pub fn clear_user_env(deletions: &[Deletion]) -> (r: Result<bool, usize>)
    ensures
        match r {
            Ok(any) => cleared(deletions@) == Ok::<bool, nat>(any),
            Err(i) => cleared(deletions@) == Err::<bool, nat>(i as nat),
        },
{
    let mut any = false;
    let mut i: usize = 0;
    assert(deletions@.take(0) =~= Seq::<Deletion>::empty());
    while i < deletions.len()
        invariant
            i <= deletions@.len(),
            cleared(deletions@.take(i as int)) == Ok::<bool, nat>(any),
        decreases deletions@.len() - i,
    {
        assert(deletions@.take(i + 1).drop_last() =~= deletions@.take(i as int));
        match deletions[i] {
            Deletion::Deleted => {
                any = true;
            },
            Deletion::Missing => {},
            Deletion::Failed => {
                proof {
                    lemma_failure_stays(deletions@, i as int);
                }
                return Err(i);
            },
        }
        i = i + 1;
    }
    assert(deletions@.take(deletions@.len() as int) =~= deletions@);
    Ok(any)
}

proof fn lemma_failure_stays(ds: Seq<Deletion>, i: int)
    requires
        0 <= i < ds.len(),
        cleared(ds.take(i + 1)) == Err::<bool, nat>(i as nat),
    ensures
        cleared(ds) == Err::<bool, nat>(i as nat),
    decreases ds.len(),
{
    if i == ds.len() - 1 {
        assert(ds.take(i + 1) =~= ds);
    } else {
        assert(ds.drop_last().take(i + 1) =~= ds.take(i + 1));
        lemma_failure_stays(ds.drop_last(), i);
    }
}

/// Whether the value of `HTTPS_PROXY`, where it has one, points to a local interceptor.
pub open spec fn points_here(value: Option<Seq<char>>) -> bool {
    value is Some && text::contains(value->0, "127.0.0.1"@)
}

/// Whether the value of `HTTPS_PROXY`, where it has one, points to a local interceptor.
pub fn user_env_has_proxy(value: Option<&str>) -> (r: bool)
    ensures
        r == points_here(text::given(value)),
{
    match value {
        Some(v) => text::has_text(v, "127.0.0.1"),
        None => false,
    }
}

} // verus!
