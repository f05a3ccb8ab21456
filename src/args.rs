//! The options of a run.

use vstd::prelude::*;

verus! {

/// What a run works on: where the sources and the checkpoint are, how to
/// reach the account, and the two databases if uploads are wanted.
#[derive(Clone, Debug)]
pub struct Args {
    /// The directory holding the source files.
    pub path: String,
    /// The checkpoint file.
    pub dedup_hashset_file: String,
    /// The API token.
    pub token: String,
    /// The account identifier.
    pub account_id: String,
    /// The blue database identifier.
    pub blue_db_id: Option<String>,
    /// The green database identifier.
    pub green_db_id: Option<String>,
}

impl Args {
    /// The blue and green database identifiers when both are given; without
    /// them a run only merges and persists the checkpoint.
    pub fn database_ids(&self) -> (r: Option<(String, String)>)
        ensures
            r is Some <==> self.blue_db_id is Some && self.green_db_id is Some,
            r matches Some((b, g)) ==> b@ == self.blue_db_id->Some_0@ && g@ == self.green_db_id->Some_0@,
    {
        match (&self.blue_db_id, &self.green_db_id) {
            (Some(b), Some(g)) => Some((b.clone(), g.clone())),
            _ => None,
        }
    }
}

} // verus!
