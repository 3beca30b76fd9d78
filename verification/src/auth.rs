//! Credentials: the stored tokens, and the token that the login tool prints.
use vstd::prelude::*;

use crate::text::{chars_of, has_prefix, lines, lines_chars, prefix_at, string_of, trim, trim_chars,
    views};

verus! {

/// OAuth tokens as the credentials file stores them.
pub struct OAuthTokens {
    pub access_token: String,
    pub refresh_token: Option<String>,
    pub expires_at: Option<u64>,
}

/// How a long-lived setup token begins.
pub const SETUP_TOKEN_PREFIX: &'static str = "sk-ant-oat01-";

/// The first line at or after `k` that, trimmed, starts with the token prefix.
pub open spec fn token_line(ls: Seq<Seq<char>>, k: int) -> Option<Seq<char>>
    decreases ls.len() - k,
{
    if k < 0 || k >= ls.len() {
        None
    } else if has_prefix(trim(ls[k]), SETUP_TOKEN_PREFIX@) {
        Some(trim(ls[k]))
    } else {
        token_line(ls, k + 1)
    }
}

/// The setup token in the login tool's output: the first line that, trimmed,
/// starts with the token prefix, trimmed.
pub fn find_setup_token(output: &str) -> (r: Option<String>)
    ensures
        match r {
            Some(t) => token_line(lines(output@), 0) == Some(t@),
            None => token_line(lines(output@), 0) is None,
        },
{
    let ls = lines_chars(&chars_of(output));
    let ghost lv = views(ls@);
    let prefix = chars_of(SETUP_TOKEN_PREFIX);
    let mut k: usize = 0;
    while k < ls.len()
        invariant
            k <= ls.len(),
            lv == views(ls@),
            lv == lines(output@),
            prefix@ == SETUP_TOKEN_PREFIX@,
            token_line(lv, 0) == token_line(lv, k as int),
        decreases ls.len() - k,
    {
        let t = trim_chars(&ls[k]);
        assert(t@ == trim(lv[k as int]));
        assert(t@.skip(0) =~= t@);
        if prefix_at(&t, 0, &prefix) {
            return Some(string_of(&t));
        }
        k += 1;
    }
    None
}

} // verus!
