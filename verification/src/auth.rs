//! How the authentication commands present remaining waits and tokens.
use vstd::prelude::*;

use crate::text::{chars_equal, chars_of, copy_range, decimal, push_decimal, string_of};

verus! {

/// `"<n>s"`, or `"now"` when nothing remains.
pub open spec fn simple_remaining_spec(value: Option<u64>) -> Seq<char> {
    match value {
        Some(secs) => decimal(secs as nat) + "s"@,
        None => "now"@,
    }
}

/// A remaining wait: `"<n>s"`, or `"now"` when there is none.
pub fn format_simple_remaining(value: Option<u64>) -> (s: String)
    ensures
        s@ == simple_remaining_spec(value),
{
    match value {
        Some(secs) => {
            let mut s = String::new();
            push_decimal(&mut s, secs);
            s.append("s");
            s
        },
        None => String::from_str("now"),
    }
}

/// `"<n>s (until <time>)"`, `"<n>s"` without a time, or `"none"` without a
/// remaining wait.
pub open spec fn remaining_spec(remaining_secs: Option<u64>, until: Option<Seq<char>>) -> Seq<
    char,
> {
    match (remaining_secs, until) {
        (Some(secs), Some(u)) => decimal(secs as nat) + "s (until "@ + u + ")"@,
        (Some(secs), None) => decimal(secs as nat) + "s"@,
        _ => "none"@,
    }
}

/// The view of an optional string slice.
pub open spec fn opt_str_view(s: Option<&str>) -> Option<Seq<char>> {
    match s {
        Some(t) => Some(t@),
        None => None,
    }
}

/// A cooldown: `"<n>s (until <time>)"`, `"<n>s"` when the end time is
/// unknown, or `"none"` when there is no cooldown.
pub fn format_remaining(remaining_secs: Option<u64>, until: Option<&str>) -> (s: String)
    ensures
        s@ == remaining_spec(remaining_secs, opt_str_view(until)),
{
    match (remaining_secs, until) {
        (Some(secs), Some(u)) => {
            let mut s = String::new();
            push_decimal(&mut s, secs);
            s.append("s (until ");
            s.append(u);
            s.append(")");
            s
        },
        (Some(secs), None) => {
            let mut s = String::new();
            push_decimal(&mut s, secs);
            s.append("s");
            s
        },
        _ => String::from_str("none"),
    }
}

/// The first eight characters of `token` (all of it when shorter), the part
/// of a token that is shown.
pub open spec fn token_prefix_spec(token: Seq<char>) -> Seq<char> {
    if token.len() <= 8 {
        token
    } else {
        token.take(8)
    }
}

/// The part of a token that may be shown: its first eight characters.
pub fn token_prefix(token: &str) -> (p: String)
    ensures
        p@ == token_prefix_spec(token@),
{
    let c = chars_of(token);
    let n = if c.len() < 8 {
        c.len()
    } else {
        8
    };
    let head = copy_range(c.as_slice(), 0, n);
    proof {
        if c@.len() <= 8 {
            assert(head@ =~= token@);
        } else {
            assert(head@ =~= token@.take(8));
        }
    }
    string_of(head.as_slice())
}

/// Whether a LOCO login answer means the connection works: status 0 and a
/// positive user id.
pub fn loco_login_succeeded(status: i64, user_id: i64) -> (ok: bool)
    ensures
        ok == (status == 0 && user_id > 0),
{
    status == 0 && user_id > 0
}

// ---------------------------------------------------------------------------
// Watching the cache for fresh tokens
// ---------------------------------------------------------------------------

/// The tokens last seen while watching the app's cache for fresh ones.
#[derive(Debug, Clone)]
pub struct CacheWatch {
    pub last_refresh_token: String,
    pub last_oauth_token: String,
}

/// What one look at the cache found new.
#[derive(Debug, Clone)]
pub struct WatchRound {
    /// A refresh token different from the last one seen (to renew with).
    pub new_refresh_token: Option<String>,
    /// An access token different from the last one seen.
    pub new_oauth_token: Option<String>,
}

/// `seen` is news when it is present and differs from `last`.
pub open spec fn is_news(seen: Option<String>, last: Seq<char>) -> bool {
    match seen {
        Some(t) => t@ != last,
        None => false,
    }
}

/// The token remembered after seeing `seen` when `last` was remembered.
pub open spec fn next_last(seen: Option<String>, last: Seq<char>) -> Seq<char> {
    if is_news(seen, last) {
        seen.unwrap()@
    } else {
        last
    }
}

fn differs(seen: &Option<String>, last: &String) -> (b: bool)
    ensures
        b == is_news(*seen, last@),
{
    match seen {
        Some(t) => {
            let a = chars_of(t.as_str());
            let b = chars_of(last.as_str());
            !chars_equal(a.as_slice(), b.as_slice())
        },
        None => false,
    }
}

impl CacheWatch {
    /// Starts watching from the tokens present now (none counts as empty).
    pub fn new(refresh_token: Option<String>, oauth_token: Option<String>) -> (w: CacheWatch)
        ensures
            w.last_refresh_token@ == crate::local_db::text_or_empty(refresh_token),
            w.last_oauth_token@ == crate::local_db::text_or_empty(oauth_token),
    {
        let r = match refresh_token {
            Some(t) => t,
            None => String::new(),
        };
        let o = match oauth_token {
            Some(t) => t,
            None => String::new(),
        };
        CacheWatch { last_refresh_token: r, last_oauth_token: o }
    }

    /// Takes in the tokens that one look at the cache found (`None` when
    /// none could be read): reports each one that differs from the last one
    /// seen, and remembers it.
    pub fn observe(&mut self, refresh_token: Option<String>, oauth_token: Option<String>) -> (round:
        WatchRound)
        ensures
            round.new_refresh_token == (if is_news(refresh_token, old(self).last_refresh_token@) {
                refresh_token
            } else {
                None
            }),
            final(self).last_refresh_token@ == next_last(refresh_token, old(self).last_refresh_token@),
            round.new_oauth_token == (if is_news(oauth_token, old(self).last_oauth_token@) {
                oauth_token
            } else {
                None
            }),
            final(self).last_oauth_token@ == next_last(oauth_token, old(self).last_oauth_token@),
    {
        let new_refresh = if differs(&refresh_token, &self.last_refresh_token) {
            let t = refresh_token.unwrap();
            self.last_refresh_token = t.clone();
            Some(t)
        } else {
            None
        };
        let new_oauth = if differs(&oauth_token, &self.last_oauth_token) {
            let t = oauth_token.unwrap();
            self.last_oauth_token = t.clone();
            Some(t)
        } else {
            None
        };
        WatchRound { new_refresh_token: new_refresh, new_oauth_token: new_oauth }
    }
}

/// A fresh token is reported once: after seeing a token, seeing the same
/// token again is no news.
pub proof fn lemma_watch_reports_once(seen: Option<String>, last: Seq<char>)
    ensures
        !is_news(seen, next_last(seen, last)),
{
}

} // verus!
