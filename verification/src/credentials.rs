//! The OAuth credential that the assistant's CLI keeps in its own store, read only.
//!
//! The store is a JSON document whose `claudeAiOauth` member (or the document itself,
//! when that member is missing) holds `accessToken` and, in milliseconds since the
//! Unix epoch, `expiresAt`.

use vstd::prelude::*;
use vstd::string::*;
use vstd::utf8::encode_utf8;
use crate::json::{Json, member, text_of, number_of, json_document, parse_json_text};
use crate::number::{scaled_number, read_scaled};
use crate::text::{decimal, decimal_text};

verus! {

/// An expiry time written `text`, in whole milliseconds: the fraction dropped, a
/// negative time taken as the epoch and a time past `u64::MAX` as `u64::MAX`;
/// nothing when `text` is not a number.
pub open spec fn expiry_millis(text: Seq<char>) -> Option<int> {
    match scaled_number(text, 0, u64::MAX as int) {
        Some((negative, v)) => Some(if negative { 0 } else { v }),
        None => None,
    }
}

/// Whether an `expiresAt` value says that the token has expired at `now`: a numeric
/// expiry at or before `now`. A missing or non-numeric expiry does not.
pub open spec fn expired_at(e: Option<Json>, now: u64) -> bool {
    match number_of(e) {
        Some(t) => match expiry_millis(t@) {
            Some(ms) => ms <= now,
            None => false,
        },
        None => false,
    }
}

/// The part of the store that holds the token: `claudeAiOauth` when present, else
/// the whole document.
pub open spec fn oauth_block(v: Json) -> Json {
    match member(v, "claudeAiOauth"@) {
        Some(o) => o,
        None => v,
    }
}

/// The credential that the store `v` holds at `now`: a non-empty token, and whether
/// it has expired.
pub open spec fn credential_of(v: Json, now: u64) -> Option<(Seq<char>, bool)> {
    let o = oauth_block(v);
    match text_of(member(o, "accessToken"@)) {
        Some(t) => if t@.len() == 0 {
            None
        } else {
            Some((t@, expired_at(member(o, "expiresAt"@), now)))
        },
        None => None,
    }
}

/// Whether the expiry `e` has passed at `now`.
fn is_expired(e: Option<&Json>, now: u64) -> (r: bool)
    ensures
        r == expired_at(
            match e {
                Some(x) => Some(*x),
                None => None,
            },
            now,
        ),
{
    let t = match e {
        Some(x) => match x.as_number() {
            Some(t) => t,
            None => return false,
        },
        None => return false,
    };
    let ms: u128 = match read_scaled(t.as_str(), 0, u64::MAX as u128) {
        Some((negative, v)) => if negative { 0 } else { v },
        None => return false,
    };
    ms <= now as u128
}

/// The token and its expiry hint from the store `v`, read at `now`.
pub fn parse_credentials_value(v: &Json, now: u64) -> (r: Option<(String, bool)>)
    ensures
        r matches Some((t, e)) ==> credential_of(*v, now) == Some((t@, e)),
        r is None ==> credential_of(*v, now) is None,
{
    let oauth = match v.get("claudeAiOauth") {
        Some(o) => o,
        None => v,
    };
    assert(*oauth == oauth_block(*v));
    let tok = match oauth.get("accessToken") {
        Some(t) => match t.as_text() {
            Some(t) => t,
            None => return None,
        },
        None => return None,
    };
    if tok.as_str().is_empty() {
        return None;
    }
    let expired = is_expired(oauth.get("expiresAt"), now);
    Some((tok.clone(), expired))
}

/// The credential in the store's text `text`, read at `now`: nothing when the text is
/// not JSON or holds no credential.
pub fn credentials_from_text(text: &str, now: u64) -> (r: Option<(String, bool)>)
    ensures
        r matches Some((t, e)) ==> (json_document(text@) matches Ok(v) && credential_of(v, now) == Some((t@, e))),
        r is None ==> (json_document(text@) matches Ok(v) ==> credential_of(v, now) is None),
{
    match parse_json_text(text) {
        Ok(v) => parse_credentials_value(&v, now),
        Err(_) => None,
    }
}

/// The names under which the assistant whose usage is tracked appears in what the
/// panel tells the user.
pub struct CliNames {
    /// The CLI that keeps the credential, as a product name.
    pub cli: String,
    /// The CLI's command, which also names its directory in the home directory.
    pub command: String,
    /// The assistant, as one chats with it.
    pub assistant: String,
}

/// The report line on a credential read, with no secret in it.
pub open spec fn probe_report(creds: Option<(Seq<char>, bool)>, names: CliNames) -> Seq<char> {
    match creds {
        Some((t, expired)) => "credential: found (token "@ + decimal_text(encode_utf8(t).len())
            + " chars, "@ + (if expired {
            "expired — "@ + names.cli@ + " refreshes it on its next use"@
        } else {
            "valid"@
        }) + ")"@,
        None => "credential: ~/."@ + names.command@
            + "/.credentials.json not found (needsAuth; the desktop app may use another store — signing in once with the "@
            + names.cli@ + " CLI creates it)"@,
    }
}

/// The report on a credential read (`read` is what was read), for diagnostics: whether
/// a credential was found, its token's length in bytes and whether it has expired.
pub fn probe_credentials(read: Option<(String, bool)>, names: &CliNames) -> (r: String)
    ensures
        r@ == probe_report(
            match read {
                Some((t, e)) => Some((t@, e)),
                None => None,
            },
            *names,
        ),
{
    match read {
        Some((tok, expired)) => {
            let mut out = String::from_str("credential: found (token ");
            let len = tok.as_str().as_bytes().len();
            out.append(decimal(len as u64).as_str());
            out.append(" chars, ");
            if expired {
                out.append("expired — ");
                out.append(names.cli.as_str());
                out.append(" refreshes it on its next use");
            } else {
                out.append("valid");
            }
            out.append(")");
            out
        },
        None => {
            let mut out = String::from_str("credential: ~/.");
            out.append(names.command.as_str());
            out.append(
                "/.credentials.json not found (needsAuth; the desktop app may use another store — signing in once with the ",
            );
            out.append(names.cli.as_str());
            out.append(" CLI creates it)");
            out
        },
    }
}

/// A credential is found only with a non-empty token.
pub proof fn law_found_token_not_empty(v: Json, now: u64)
    ensures
        credential_of(v, now) matches Some((t, _)) ==> t.len() > 0,
{
}

/// A token once expired stays expired: what has expired at `now` has expired at any
/// later time.
pub proof fn law_expiry_is_lasting(v: Json, now: u64, later: u64)
    requires
        now <= later,
        credential_of(v, now) matches Some((_, e)) && e,
    ensures
        credential_of(v, later) matches Some((_, e)) && e,
{
}

} // verus!
