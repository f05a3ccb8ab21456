use cloudflare::framework::auth::Credentials;
use uploader::{client::shared_client, new_client, Args};

fn args(blue: Option<&str>, green: Option<&str>) -> Args {
    Args {
        path: "/data".to_string(),
        dedup_hashset_file: "/tmp/dedup".to_string(),
        token: "t".to_string(),
        account_id: "acct".to_string(),
        blue_db_id: blue.map(str::to_string),
        green_db_id: green.map(str::to_string),
    }
}

#[test]
fn both_databases_are_needed_for_uploads() {
    assert_eq!(args(Some("b"), Some("g")).database_ids(), Some(("b".to_string(), "g".to_string())));
    assert_eq!(args(Some("b"), None).database_ids(), None);
    assert_eq!(args(None, Some("g")).database_ids(), None);
    assert_eq!(args(None, None).database_ids(), None);
}

#[test]
fn client_is_built_from_a_token() {
    let client = new_client(Credentials::UserAuthToken { token: "SECRET-REDACTED".to_string() });
    assert!(client.is_ok());
}

#[test]
fn built_client_is_shared() {
    let built = cloudflare::framework::client::async_api::Client::new(
        Credentials::UserAuthToken { token: "x".to_string() },
        cloudflare::framework::client::ClientConfig::default(),
        cloudflare::framework::Environment::Production,
    );
    assert!(shared_client(built).is_ok());
}
