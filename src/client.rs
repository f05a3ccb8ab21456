//! The API client of the key-value store that holds the active pointer.

use cloudflare::framework::auth::Credentials;
use cloudflare::framework::client::async_api::Client;
use cloudflare::framework::Error;
use std::sync::Arc;
use vstd::prelude::*;

verus! {

#[verifier::external_type_specification]
#[verifier::external_body]
pub struct ExClient(Client);

#[verifier::external_type_specification]
#[verifier::external_body]
pub struct ExCredentials(Credentials);

#[verifier::external_type_specification]
#[verifier::external_body]
pub struct ExError(Error);

/// The API client could not be built; the cause is kept.
#[derive(Debug)]
pub enum ClientError {
    Build(Error),
}

/// Relies on `Client::new` with the default configuration and the production
/// endpoint; it fails when the HTTP client cannot be built.
#[verifier::external_body]
fn build_production_client(credentials: Credentials) -> Result<Client, Error> {
    Client::new(
        credentials,
        cloudflare::framework::client::ClientConfig::default(),
        cloudflare::framework::Environment::Production,
    )
}

/// Wraps the outcome of building a client: the client, shared, or the cause
/// of the failure.
pub fn shared_client(built: Result<Client, Error>) -> (r: Result<Arc<Client>, ClientError>)
    ensures
        r is Ok <==> built is Ok,
        built matches Ok(c) ==> r matches Ok(a) && *a == c,
        built matches Err(e) ==> r matches Err(ClientError::Build(f)) && f == e,
{
    match built {
        Ok(c) => Ok(Arc::new(c)),
        Err(e) => Err(ClientError::Build(e)),
    }
}

/// A client of the production API that authenticates with `credentials`.
pub fn new_client(credentials: Credentials) -> (r: Result<Arc<Client>, ClientError>) {
    shared_client(build_production_client(credentials))
}

} // verus!
