//! The persisted Steam sign-in: the account name and the tokens of a
//! completed sign-in. Whether it is present is what "signed in" means.

use vstd::prelude::*;

verus! {

/// A stored Steam sign-in.
#[derive(Debug, Clone)]
pub struct Session {
    pub account_name: String,
    pub refresh_token: String,
    pub access_token: String,
}

} // verus!
