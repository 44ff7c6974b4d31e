//! Asking the desktop's Background portal to start the service at login.

use vstd::prelude::*;
use vstd::string::*;

use crate::decimal::{numeral, write_number};
use crate::text::{chars_of, text_of};

verus! {

/// `s` without the colons at its start.
pub open spec fn without_colons(s: Seq<char>) -> Seq<char>
    decreases s.len(),
{
    if s.len() > 0 && s[0] == ':' {
        without_colons(s.drop_first())
    } else {
        s
    }
}

/// The part of a request's path that stands for the sender: its unique bus name
/// without the colon, with underscores for dots.
pub open spec fn sender_part(unique: Seq<char>) -> Seq<char> {
    let s = without_colons(unique);
    Seq::new(
        s.len(),
        |i: int|
            if s[i] == '.' {
                '_'
            } else {
                s[i]
            },
    )
}

/// The token by which the service's request is known.
pub open spec fn token_of(pid: u32) -> Seq<char> {
    "adtune_"@ + numeral(pid as nat)
}

/// The token by which the service's request is known.
pub fn request_token(pid: u32) -> (r: String)
    ensures
        r@ == token_of(pid),
{
    "adtune_".to_owned().concat(&write_number(pid as u64))
}

/// The path of the object on which the portal answers a request.
pub fn request_path(unique: &str, pid: u32) -> (r: String)
    ensures
        r@ == "/org/freedesktop/portal/desktop/request/"@ + sender_part(unique@) + "/"@ + token_of(
            pid,
        ),
{
    let v: Vec<char> = chars_of(unique);
    let mut from: usize = 0;
    assert(v@.skip(0) =~= v@);
    while from < v.len() && v[from] == ':'
        invariant
            from <= v@.len(),
            without_colons(v@) == without_colons(v@.skip(from as int)),
        decreases v@.len() - from,
    {
        assert(v@.skip(from as int).drop_first() =~= v@.skip(from + 1));
        from = from + 1;
    }
    let ghost s = v@.skip(from as int);
    let mut part: Vec<char> = Vec::new();
    for i in from..v.len()
        invariant
            from <= v@.len(),
            s == v@.skip(from as int),
            s == without_colons(v@),
            part@ =~= sender_part(v@).take(i - from),
    {
        part.push(
            if v[i] == '.' {
                '_'
            } else {
                v[i]
            },
        );
    }
    assert(part@ =~= sender_part(v@));
    "/org/freedesktop/portal/desktop/request/".to_owned().concat(&text_of(&part)).concat(
        "/",
    ).concat(&request_token(pid))
}

/// How long the portal has to answer, in nanoseconds.
pub const PORTAL_TIMEOUT: u64 = 5_000_000_000;

/// Whether to go on waiting for the portal, this many nanoseconds after the request; an
/// error where the time is up.
pub fn await_portal(waited: u64) -> (r: Result<(), String>)
    ensures
        r is Ok <==> waited < PORTAL_TIMEOUT,
        r matches Err(e) ==> e@ == "timed out waiting for the background portal"@,
{
    if waited < PORTAL_TIMEOUT {
        Ok(())
    } else {
        Err("timed out waiting for the background portal".to_owned())
    }
}

/// Whether the portal has granted the request: it answered with code 0, and where it
/// says whether the service will be started at login, it says that it will.
pub fn background_granted(code: u32, autostart: Option<bool>) -> (r: bool)
    ensures
        r == (code == 0 && autostart != Some(false)),
{
    match autostart {
        Some(granted) => code == 0 && granted,
        None => code == 0,
    }
}

} // verus!
