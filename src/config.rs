//! Reading the connection descriptor: the account and the kind of credential.
use vstd::prelude::*;
use vstd::string::StrSliceExecFns;

verus! {

/// The storage account: the first label of the host name.
pub fn account_from_domain(domain: &str) -> (r: String)
    ensures
        r@.len() <= domain@.len(),
        r@ == domain@.take(r@.len() as int),
        forall|j: int| 0 <= j < r@.len() ==> r@[j] != '.',
        r@.len() < domain@.len() ==> domain@[r@.len() as int] == '.',
{
    let n = domain.unicode_len();
    let mut i: usize = 0;
    let mut found = false;
    while i < n && !found
        invariant
            n == domain@.len(),
            i <= n,
            found ==> i < n && domain@[i as int] == '.',
            forall|j: int| 0 <= j < i ==> domain@[j] != '.',
        decreases n - i + (if found { 0int } else { 1int }),
    {
        if domain.get_char(i) == '.' {
            found = true;
        } else {
            i = i + 1;
        }
    }
    let r = String::from_str(domain.substring_char(0, i));
    r
}

/// Whether the query carries a `sig` parameter, which marks a pre-signed
/// (shared access signature) credential.
pub fn is_sas(query_keys: &Vec<String>) -> (r: bool)
    ensures
        r == exists|i: int| 0 <= i < query_keys@.len() && query_keys@[i]@ == seq!['s', 'i', 'g'],
{
    let sig = String::from_str("sig");
    proof {
        reveal_strlit("sig");
    }
    let mut i: usize = 0;
    while i < query_keys.len()
        invariant
            sig@ == seq!['s', 'i', 'g'],
            i <= query_keys@.len(),
            forall|j: int| 0 <= j < i ==> query_keys@[j]@ != seq!['s', 'i', 'g'],
        decreases query_keys@.len() - i,
    {
        if query_keys[i] == sig {
            return true;
        }
        i = i + 1;
    }
    false
}

} // verus!
