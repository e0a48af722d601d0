//! The Steam Workshop fetcher's decisions: which DepotDownloader to run and
//! for which account, where it works, and what its output says went wrong.

use vstd::prelude::*;
use crate::steam::session::Session;
use crate::text::{concat2, contains_str, has_substring, is_blank, trim};

verus! {

/// The characters of `text` in lower case, as `str::to_lowercase` maps them.
pub uninterp spec fn lowercase(text: Seq<char>) -> Seq<char>;

/// Trusted: `str::to_lowercase`. The Unicode case mapping it applies is
/// left to the name `lowercase`.
#[verifier::external_body]
fn to_lowercase(text: &str) -> (r: String)
    ensures
        r@ == lowercase(text@),
{
    text.to_lowercase()
}

/// Whether lower-cased DepotDownloader output asks for a password or a
/// Steam Guard code: it cannot sign in on its own.
pub open spec fn asks_for_auth(l: Seq<char>) -> bool {
    ||| has_substring(l, "steam guard"@)
    ||| has_substring(l, "two-factor"@)
    ||| has_substring(l, "please enter"@)
    ||| has_substring(l, "enter your"@)
    ||| has_substring(l, "password:"@)
    ||| has_substring(l, "account password"@)
    ||| has_substring(l, "logon requires"@)
}

/// Why a DepotDownloader run failed.
#[derive(Debug, Clone, Copy, PartialEq, Eq, Structural)]
pub enum FetchFailure {
    /// The Steam sign-in is missing or expired.
    SignInNeeded,
    /// The account does not own Wallpaper Engine.
    NotOwned,
    /// Anything else.
    Failed,
}

/// What lower-cased DepotDownloader output says went wrong.
pub open spec fn failure_kind(l: Seq<char>) -> FetchFailure {
    if asks_for_auth(l) || has_substring(l, "invalidpassword"@) || has_substring(
        l,
        "login failure"@,
    ) {
        FetchFailure::SignInNeeded
    } else if has_substring(l, "not available"@) || has_substring(l, "no license"@)
        || has_substring(l, "access is denied"@) || has_substring(l, "does not have"@) {
        FetchFailure::NotOwned
    } else {
        FetchFailure::Failed
    }
}

/// Whether already lower-cased output asks for credentials.
pub fn needs_auth_lower(l: &str) -> (r: bool)
    ensures
        r == asks_for_auth(l@),
{
    contains_str(l, "steam guard") || contains_str(l, "two-factor") || contains_str(
        l,
        "please enter",
    ) || contains_str(l, "enter your") || contains_str(l, "password:") || contains_str(
        l,
        "account password",
    ) || contains_str(l, "logon requires")
}

/// Whether DepotDownloader's output asks for credentials, in any case.
pub fn needs_auth(out: &str) -> (r: bool)
    ensures
        r == asks_for_auth(lowercase(out@)),
{
    let l = to_lowercase(out);
    needs_auth_lower(l.as_str())
}

/// What already lower-cased output says went wrong.
pub fn classify_lower(l: &str) -> (r: FetchFailure)
    ensures
        r == failure_kind(l@),
{
    if needs_auth_lower(l) || contains_str(l, "invalidpassword") || contains_str(
        l,
        "login failure",
    ) {
        FetchFailure::SignInNeeded
    } else if contains_str(l, "not available") || contains_str(l, "no license") || contains_str(
        l,
        "access is denied",
    ) || contains_str(l, "does not have") {
        FetchFailure::NotOwned
    } else {
        FetchFailure::Failed
    }
}

/// What DepotDownloader's output says went wrong, in any case.
pub fn classify(out: &str) -> (r: FetchFailure)
    ensures
        r == failure_kind(lowercase(out@)),
{
    let l = to_lowercase(out);
    classify_lower(l.as_str())
}

/// The message of a failed workshop item download.
pub open spec fn item_failure_message(f: FetchFailure) -> Seq<char> {
    match f {
        FetchFailure::SignInNeeded => "Steam sign-in needed or expired. Open the Steam Workshop settings and use Sign in to Steam, then try again."@,
        FetchFailure::NotOwned => "this Steam account does not own Wallpaper Engine"@,
        FetchFailure::Failed => "DepotDownloader failed; see daemon logs"@,
    }
}

/// The message of a failed download of the shared assets.
pub open spec fn assets_failure_message(f: FetchFailure) -> Seq<char> {
    match f {
        FetchFailure::SignInNeeded => "Steam sign-in needed or expired to fetch Wallpaper Engine assets. Open the Steam Workshop settings and use Sign in to Steam, then try again."@,
        FetchFailure::NotOwned => "this Steam account does not own Wallpaper Engine"@,
        FetchFailure::Failed => "failed to fetch Wallpaper Engine assets; see daemon logs"@,
    }
}

impl FetchFailure {
    /// The message for a failed workshop item download.
    pub fn item_message(self) -> (r: &'static str)
        ensures
            r@ == item_failure_message(self),
    {
        match self {
            FetchFailure::SignInNeeded => "Steam sign-in needed or expired. Open the Steam Workshop settings and use Sign in to Steam, then try again.",
            FetchFailure::NotOwned => "this Steam account does not own Wallpaper Engine",
            FetchFailure::Failed => "DepotDownloader failed; see daemon logs",
        }
    }

    /// The message for a failed download of the shared assets.
    pub fn assets_message(self) -> (r: &'static str)
        ensures
            r@ == assets_failure_message(self),
    {
        match self {
            FetchFailure::SignInNeeded => "Steam sign-in needed or expired to fetch Wallpaper Engine assets. Open the Steam Workshop settings and use Sign in to Steam, then try again.",
            FetchFailure::NotOwned => "this Steam account does not own Wallpaper Engine",
            FetchFailure::Failed => "failed to fetch Wallpaper Engine assets; see daemon logs",
        }
    }
}

/// The message when no account is known to download with.
pub open spec fn sign_in_required_message() -> Seq<char> {
    "sign in to Steam from the Steam Workshop settings with an account that owns Wallpaper Engine"@
}

/// Refuses a download without an account name.
pub fn require_username(username: &str) -> (r: Result<(), String>)
    ensures
        r is Ok <==> trim(username@).len() > 0,
        r matches Err(m) ==> m@ == sign_in_required_message(),
{
    if is_blank(username) {
        Err(
            String::from_str(
                "sign in to Steam from the Steam Workshop settings with an account that owns Wallpaper Engine",
            ),
        )
    } else {
        Ok(())
    }
}

/// The DepotDownloader to run: the one the environment names, else the
/// configured one, else `DepotDownloader` from the search path.
pub fn resolve_bin(env_override: Option<String>, configured: String) -> (r: String)
    ensures
        match env_override {
            Some(e) => r@ == e@,
            None => if trim(configured@).len() == 0 {
                r@ == "DepotDownloader"@
            } else {
                r@ == configured@
            },
        },
{
    if let Some(bin) = env_override {
        return bin;
    }
    if is_blank(configured.as_str()) {
        String::from_str("DepotDownloader")
    } else {
        configured
    }
}

/// The account to download an item with, and the refresh token to hand
/// DepotDownloader: those of the stored sign-in when its account name is not
/// blank, else the configured user name without a token.
pub fn item_credentials(stored: Option<Session>, configured_username: String) -> (r: (
    String,
    Option<String>,
))
    ensures
        match stored {
            Some(s) if trim(s.account_name@).len() > 0 => r.0@ == s.account_name@ && (r.1 matches Some(
                t,
            ) && t@ == s.refresh_token@),
            _ => r.0@ == configured_username@ && r.1 is None,
        },
{
    match stored {
        Some(s) => {
            if is_blank(s.account_name.as_str()) {
                (configured_username, None)
            } else {
                (s.account_name, Some(s.refresh_token))
            }
        },
        None => (configured_username, None),
    }
}

/// The account to download the shared assets with: the stored sign-in's
/// account when it is not blank, else the configured user name.
pub fn assets_username(stored: Option<Session>, configured_username: String) -> (r: String)
    ensures
        match stored {
            Some(s) if trim(s.account_name@).len() > 0 => r@ == s.account_name@,
            _ => r@ == configured_username@,
        },
{
    match stored {
        Some(s) => {
            if is_blank(s.account_name.as_str()) {
                configured_username
            } else {
                s.account_name
            }
        },
        None => configured_username,
    }
}

/// The glob pattern of DepotDownloader's `AssemFiles` directories under its
/// isolated storage root.
pub fn assemfiles_pattern(root: &str) -> (r: String)
    ensures
        r@ == root@ + "/*/*/Url.*/AssemFiles"@,
{
    concat2(root, "/*/*/Url.*/AssemFiles")
}

/// The name of the directory an item is downloaded into before it is
/// moved into place.
pub fn staging_dir_name(id: &str) -> (r: String)
    ensures
        r@ == ".staging-"@ + id@,
{
    concat2(".staging-", id)
}

} // verus!
