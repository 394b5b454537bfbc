//! Building the storage client from a connection descriptor (a pre-signed URL).
use vstd::prelude::*;
use azure_storage::StorageCredentials;
use azure_storage_blobs::prelude::ClientBuilder;
use crate::config::{account_from_domain, is_sas};

verus! {

#[verifier::external_type_specification]
#[verifier::external_body]
pub struct ExStorageCredentials(StorageCredentials);

#[verifier::external_type_specification]
#[verifier::external_body]
pub struct ExClientBuilder(ClientBuilder);

#[verifier::external_type_specification]
#[verifier::external_body]
pub struct ExAzureError(azure_core::Error);

/// Why a connection descriptor cannot be used.
#[derive(Debug, Clone, Copy, PartialEq, Eq, Structural)]
pub enum ConfigError {
    /// The URL's host is not a domain name.
    UnsupportedUrl,
    /// The URL carries no pre-signed signature; other credentials are not handled.
    Unimplemented,
    /// The signature parameters could not be read.
    BadCredential,
}

/// Whether the store's client accepts a query as pre-signed credentials; this
/// depends on the query text alone.
pub uninterp spec fn sas_token_ok(q: Seq<char>) -> bool;

/// Relies on `azure_storage::StorageCredentials::sas_token`: credentials from
/// the query of a pre-signed URL; it only parses its argument.
#[verifier::external_body]
fn sas_credentials(query: &str) -> (r: Result<StorageCredentials, azure_core::Error>)
    ensures
        r is Ok == sas_token_ok(query@),
{
    StorageCredentials::sas_token(query)
}

/// Relies on `azure_storage_blobs::prelude::ClientBuilder::new`.
#[verifier::external_body]
fn client_builder(account: String, creds: StorageCredentials) -> ClientBuilder {
    ClientBuilder::new(account, creds)
}

/// Whether one of the query parameter names is `sig`.
pub open spec fn has_sig(keys: Seq<String>) -> bool {
    exists|i: int| 0 <= i < keys.len() && keys[i]@ == seq!['s', 'i', 'g']
}

/// A client builder for the account named by the host and the pre-signed
/// credentials in the query. Fails when the host is no domain name, when the
/// query names no `sig` parameter, or when the store's client rejects the query.
pub fn builder_from_parts(domain: Option<String>, query_keys: &Vec<String>, query: Option<String>) -> (r: Result<ClientBuilder, ConfigError>)
    ensures
        domain is None ==> r == Err::<ClientBuilder, ConfigError>(ConfigError::UnsupportedUrl),
        domain is Some && !has_sig(query_keys@)
            ==> r == Err::<ClientBuilder, ConfigError>(ConfigError::Unimplemented),
        domain is Some && has_sig(query_keys@) && query is None
            ==> r == Err::<ClientBuilder, ConfigError>(ConfigError::BadCredential),
        domain is Some && has_sig(query_keys@) && query is Some && sas_token_ok(query->Some_0@)
            ==> r is Ok,
        domain is Some && has_sig(query_keys@) && query is Some && !sas_token_ok(query->Some_0@)
            ==> r == Err::<ClientBuilder, ConfigError>(ConfigError::BadCredential),
{
    let account = match domain {
        Some(d) => account_from_domain(d.as_str()),
        None => return Err(ConfigError::UnsupportedUrl),
    };
    if !is_sas(query_keys) {
        return Err(ConfigError::Unimplemented);
    }
    let q = match query {
        Some(q) => q,
        None => return Err(ConfigError::BadCredential),
    };
    match sas_credentials(q.as_str()) {
        Ok(creds) => Ok(client_builder(account, creds)),
        Err(_) => Err(ConfigError::BadCredential),
    }
}

} // verus!
