//! Reading the browser's answer to the sign-in redirect: a parameter of the
//! request line's query string.
use vstd::prelude::*;
use crate::text::{chars_of, is_ws, is_ws_char, slice_chars, string_of};
use crate::trusted::{url_decode, url_decoded_of, url_encode, url_encoded_of};
use crate::types::opt_view;

verus! {

/// First position of `c` in `s`.
pub open spec fn char_pos(s: Seq<char>, c: char) -> Option<int>
    decreases s.len(),
{
    if s.len() == 0 {
        None
    } else if s[0] == c {
        Some(0)
    } else {
        match char_pos(s.drop_first(), c) {
            Some(i) => Some(i + 1),
            None => None,
        }
    }
}

/// Length of the leading run of characters satisfying `ws` (when `ws`) or not.
pub open spec fn run_len(s: Seq<char>, ws: bool) -> nat
    decreases s.len(),
{
    if s.len() > 0 && is_ws(s[0]) == ws {
        1 + run_len(s.drop_first(), ws)
    } else {
        0
    }
}

/// `s` without its leading whitespace and then its first word.
pub open spec fn after_first_token(s: Seq<char>) -> Seq<char> {
    let a = s.skip(run_len(s, true) as int);
    a.skip(run_len(a, false) as int)
}

/// The second whitespace-separated token of `s` (`split_whitespace().nth(1)`).
pub open spec fn second_token(s: Seq<char>) -> Option<Seq<char>> {
    let b = after_first_token(s);
    let c = b.skip(run_len(b, true) as int);
    if c.len() == 0 {
        None
    } else {
        Some(c.take(run_len(c, false) as int))
    }
}

/// The raw value of `key` in a query string: the pairs are read in order, and
/// a pair without `=` before the key is found ends the search with nothing.
pub open spec fn raw_param(q: Seq<char>, key: Seq<char>) -> Option<Seq<char>>
    decreases q.len(),
{
    let (pair, rest) = match char_pos(q, '&') {
        Some(i) => (q.take(i), Some(q.skip(i + 1))),
        None => (q, None::<Seq<char>>),
    };
    match char_pos(pair, '=') {
        None => None,
        Some(j) => if pair.take(j) == key {
            Some(pair.skip(j + 1))
        } else {
            match rest {
                Some(r) => if r.len() < q.len() {
                    raw_param(r, key)
                } else {
                    None
                },
                None => None,
            }
        },
    }
}

/// The value of query parameter `key` in an HTTP request line
/// (`GET /?code=...&state=... HTTP/1.1`), percent-decoded.
pub open spec fn query_param(request_line: Seq<char>, key: Seq<char>) -> Option<Seq<char>> {
    match second_token(request_line) {
        None => None,
        Some(path) => match char_pos(path, '?') {
            None => None,
            Some(i) => match raw_param(path.skip(i + 1), key) {
                None => None,
                Some(raw) => url_decoded_of(raw),
            },
        },
    }
}

pub proof fn lemma_char_pos(s: Seq<char>, c: char)
    ensures
        match char_pos(s, c) {
            Some(i) => 0 <= i < s.len() && s[i] == c && forall|k: int| 0 <= k < i ==> s[k] != c,
            None => forall|k: int| 0 <= k < s.len() ==> s[k] != c,
        },
    decreases s.len(),
{
    if s.len() > 0 && s[0] != c {
        lemma_char_pos(s.drop_first(), c);
        assert forall|k: int| 0 < k < s.len() implies s[k] == s.drop_first()[k - 1] by {}
    }
}

proof fn lemma_char_pos_found(s: Seq<char>, c: char, i: int)
    requires
        0 <= i < s.len(),
        s[i] == c,
        forall|k: int| 0 <= k < i ==> s[k] != c,
    ensures
        char_pos(s, c) == Some(i),
{
    lemma_char_pos(s, c);
    match char_pos(s, c) {
        Some(j) => {
            if j < i {
            } else if j > i {
            }
        },
        None => {},
    }
}

proof fn lemma_char_pos_absent(s: Seq<char>, c: char)
    requires
        forall|k: int| 0 <= k < s.len() ==> s[k] != c,
    ensures
        char_pos(s, c) is None,
{
    lemma_char_pos(s, c);
    if char_pos(s, c) is Some {
        let j = char_pos(s, c).unwrap();
        assert(s[j] == c);
    }
}

/// First position of `c` in `v[lo..]`, as a position of `v`.
fn find_char_from(v: &Vec<char>, lo: usize, c: char) -> (r: Option<usize>)
    requires
        lo <= v.len(),
    ensures
        match r {
            Some(i) => lo <= i < v.len() && char_pos(v@.skip(lo as int), c) == Some(i - lo),
            None => char_pos(v@.skip(lo as int), c) is None,
        },
{
    let ghost t = v@.skip(lo as int);
    let mut i = lo;
    while i < v.len()
        invariant
            lo <= i <= v.len(),
            t == v@.skip(lo as int),
            forall|k: int| 0 <= k < i - lo ==> t[k] != c,
        decreases v.len() - i,
    {
        if v[i] == c {
            proof {
                lemma_char_pos_found(t, c, i - lo);
            }
            return Some(i);
        }
        i += 1;
    }
    proof {
        lemma_char_pos_absent(t, c);
    }
    None
}

proof fn lemma_run_len(s: Seq<char>, ws: bool)
    ensures
        run_len(s, ws) <= s.len(),
        forall|k: int| 0 <= k < run_len(s, ws) ==> is_ws(s[k]) == ws,
        run_len(s, ws) < s.len() ==> is_ws(s[run_len(s, ws) as int]) != ws,
    decreases s.len(),
{
    if s.len() > 0 && is_ws(s[0]) == ws {
        lemma_run_len(s.drop_first(), ws);
        assert forall|k: int| 0 < k < s.len() implies s[k] == s.drop_first()[k - 1] by {}
    }
}

proof fn lemma_run_len_exact(s: Seq<char>, ws: bool, n: int)
    requires
        0 <= n <= s.len(),
        forall|k: int| 0 <= k < n ==> is_ws(s[k]) == ws,
        n < s.len() ==> is_ws(s[n]) != ws,
    ensures
        run_len(s, ws) == n,
    decreases n,
{
    if n > 0 {
        lemma_run_len_exact(s.drop_first(), ws, n - 1);
    }
}

/// The end of the run of characters (whitespace when `ws`) that starts at `lo`.
fn run_end(v: &Vec<char>, lo: usize, ws: bool) -> (r: usize)
    requires
        lo <= v.len(),
    ensures
        r == lo + run_len(v@.skip(lo as int), ws),
        lo <= r <= v.len(),
{
    let mut i = lo;
    while i < v.len() && is_ws_char(v[i]) == ws
        invariant
            lo <= i <= v.len(),
            forall|k: int| lo <= k < i ==> is_ws(v@[k]) == ws,
        decreases v.len() - i,
    {
        i += 1;
    }
    proof {
        let t = v@.skip(lo as int);
        assert forall|k: int| 0 <= k < i - lo implies is_ws(t[k]) == ws by {
            assert(t[k] == v@[lo + k]);
        }
        if i < v.len() {
            assert(t[i - lo] == v@[i as int]);
        }
        lemma_run_len_exact(t, ws, i - lo);
    }
    i
}

/// The value of query parameter `key` in the request line of the sign-in
/// redirect, percent-decoded; `None` when it is absent or does not decode.
pub fn extract_query_param(request_line: &str, key: &str) -> (r: Option<String>)
    ensures
        opt_view(r) == query_param(request_line@, key@),
{
    let v = chars_of(request_line);
    let ghost s = v@;
    // The second whitespace-separated token.
    let a0 = run_end(&v, 0, true);
    let a1 = run_end(&v, a0, false);
    let b0 = run_end(&v, a1, true);
    proof {
        assert(s.skip(0) =~= s);
        assert(s.skip(a0 as int).skip(run_len(s.skip(a0 as int), false) as int) =~= s.skip(a1 as int));
        assert(after_first_token(s) =~= s.skip(a1 as int));
        assert(s.skip(a1 as int).skip(run_len(s.skip(a1 as int), true) as int) =~= s.skip(b0 as int));
    }
    if b0 == v.len() {
        return None;
    }
    let b1 = run_end(&v, b0, false);
    let path = slice_chars(&v, b0, b1);
    proof {
        assert(path@ =~= s.skip(b0 as int).take(run_len(s.skip(b0 as int), false) as int));
        assert(second_token(s) == Some(path@));
    }
    let q0 = match find_char_from(&path, 0, '?') {
        Some(i) => i + 1,
        None => {
            proof {
                assert(path@.skip(0) =~= path@);
            }
            return None;
        },
    };
    proof {
        assert(path@.skip(0) =~= path@);
    }
    let ghost query = path@.skip(q0 as int);
    // Read the pairs in order.
    let mut start: usize = q0;
    loop
        invariant
            q0 <= start <= path.len(),
            query == path@.skip(q0 as int),
            raw_param(query, key@) == raw_param(path@.skip(start as int), key@),
            second_token(s) == Some(path@),
            char_pos(path@, '?') == Some(q0 - 1),
            s == request_line@,
        decreases path.len() - start,
    {
        let ghost q = path@.skip(start as int);
        let amp = find_char_from(&path, start, '&');
        let pair_end: usize = match amp {
            Some(i) => i,
            None => path.len(),
        };
        let pair = slice_chars(&path, start, pair_end);
        proof {
            match amp {
                Some(i) => assert(pair@ =~= q.take(i - start)),
                None => assert(pair@ =~= q),
            }
        }
        let eq = match find_char_from(&pair, 0, '=') {
            Some(j) => j,
            None => {
                proof {
                    assert(pair@.skip(0) =~= pair@);
                }
                return None;
            },
        };
        proof {
            assert(pair@.skip(0) =~= pair@);
        }
        let name = slice_chars(&pair, 0, eq);
        let keyv = chars_of(key);
        if crate::text::chars_eq(&name, &keyv) {
            let raw = slice_chars(&pair, eq + 1, pair.len());
            proof {
                assert(name@ =~= pair@.take(eq as int));
                assert(raw@ =~= pair@.skip(eq + 1));
            }
            let raw_text = string_of(&raw);
            return url_decode(raw_text.as_str());
        }
        proof {
            assert(name@ =~= pair@.take(eq as int));
        }
        match amp {
            Some(i) => {
                proof {
                    assert(q.skip(i - start + 1) =~= path@.skip(i + 1));
                }
                start = i + 1;
            },
            None => {
                return None;
            },
        }
    }
}

// ---------------------------------------------------------------------------
// The sign-in redirect and the choice of token
// ---------------------------------------------------------------------------

/// What the sign-in redirect's request line answers, given the `state` the
/// sign-in was started with: the provider's error first, then a state that
/// does not match, then a missing code; otherwise the authorization code.
pub open spec fn callback_outcome(request_line: Seq<char>, state: Seq<char>) -> Result<Seq<char>, Seq<char>> {
    match query_param(request_line, "error"@) {
        Some(e) => Err("OAuth provider returned error="@ + e + " "@ + match query_param(
            request_line,
            "error_description"@,
        ) {
            Some(d) => d,
            None => Seq::empty(),
        }),
        None => {
            let returned = match query_param(request_line, "state"@) {
                Some(s) => s,
                None => Seq::empty(),
            };
            if returned != state {
                Err("OAuth callback state mismatch (possible CSRF). Try --login again."@)
            } else {
                match query_param(request_line, "code"@) {
                    Some(c) => Ok(c),
                    None => Err("OAuth callback missing code"@),
                }
            }
        },
    }
}

/// The authorization code the sign-in redirect carries, or the message that
/// says why the sign-in failed (`callback_outcome`).
pub fn callback_code(request_line: &str, state: &str) -> (r: Result<String, String>)
    ensures
        match r {
            Ok(c) => callback_outcome(request_line@, state@) == Ok::<Seq<char>, Seq<char>>(c@),
            Err(m) => callback_outcome(request_line@, state@) == Err::<Seq<char>, Seq<char>>(m@),
        },
{
    if let Some(e) = extract_query_param(request_line, "error") {
        let mut m = chars_of("OAuth provider returned error=");
        crate::text::extend_str(&mut m, e.as_str());
        crate::text::extend_str(&mut m, " ");
        match extract_query_param(request_line, "error_description") {
            Some(d) => crate::text::extend_str(&mut m, d.as_str()),
            None => {},
        }
        proof {
            reveal_strlit("");
        }
        return Err(string_of(&m));
    }
    let returned = match extract_query_param(request_line, "state") {
        Some(s) => s,
        None => String::new(),
    };
    if !crate::text::str_eq(returned.as_str(), state) {
        return Err(crate::text::owned("OAuth callback state mismatch (possible CSRF). Try --login again."));
    }
    match extract_query_param(request_line, "code") {
        Some(c) => Ok(c),
        None => Err(crate::text::owned("OAuth callback missing code")),
    }
}

/// Whether a cached token counts as expired at `now_ms`: from one minute
/// before its expiry on (times in milliseconds); a token with no readable
/// expiry never does.
pub fn token_expired(now_ms: i64, expiry_ms: Option<i64>) -> (r: bool)
    ensures
        r == match expiry_ms {
            Some(e) => now_ms >= e - 60_000,
            None => false,
        },
{
    match expiry_ms {
        Some(e) => (now_ms as i128) >= (e as i128) - 60_000,
        None => false,
    }
}

/// A token cached from an earlier sign-in.
#[derive(Debug, Clone, Copy, PartialEq, Eq, Structural)]
pub struct CachedToken {
    /// Past its expiry (`token_expired`).
    pub expired: bool,
    /// The access token is empty.
    pub empty: bool,
    /// A non-empty refresh token came with it.
    pub refreshable: bool,
}

/// Where a bearer token for writes comes from.
#[derive(Debug, Clone, Copy, PartialEq, Eq, Structural)]
pub enum TokenSource {
    /// Sign in as the service account.
    ServiceAccount,
    /// Use the cached token as it is.
    Cached,
    /// Refresh the cached token.
    Refresh,
    /// Sign in through the browser.
    Login,
    /// No credentials file to sign in with.
    NoCredentials,
    /// Signing in needs the browser, which this run may not open.
    NotLoggedIn,
}

/// The order in which a token is sought: a service account, then a cached
/// token that is still good, then one that can be refreshed, then a browser
/// sign-in with the OAuth client's credentials when the run allows it.
pub open spec fn token_choice(
    service_account: bool,
    cached: Option<CachedToken>,
    credentials: bool,
    interactive: bool,
) -> TokenSource {
    if service_account {
        TokenSource::ServiceAccount
    } else if cached matches Some(c) && !c.expired && !c.empty {
        TokenSource::Cached
    } else if cached matches Some(c) && c.refreshable {
        TokenSource::Refresh
    } else if !credentials {
        TokenSource::NoCredentials
    } else if !interactive {
        TokenSource::NotLoggedIn
    } else {
        TokenSource::Login
    }
}

/// Where to get a token from (`token_choice`).
pub fn token_source(
    service_account: bool,
    cached: Option<CachedToken>,
    credentials: bool,
    interactive: bool,
) -> (r: TokenSource)
    ensures
        r == token_choice(service_account, cached, credentials, interactive),
{
    if service_account {
        return TokenSource::ServiceAccount;
    }
    match cached {
        Some(c) => {
            if !c.expired && !c.empty {
                return TokenSource::Cached;
            }
            if c.refreshable {
                return TokenSource::Refresh;
            }
        },
        None => {},
    }
    if !credentials {
        TokenSource::NoCredentials
    } else if !interactive {
        TokenSource::NotLoggedIn
    } else {
        TokenSource::Login
    }
}

// ---------------------------------------------------------------------------
// What a token source answers, and a refreshed token
// ---------------------------------------------------------------------------

/// The failure a token source stands for: no credentials to sign in with, or
/// a browser sign-in this run may not open. The other sources go on to fetch or
/// hand back a token.
pub open spec fn source_message(s: TokenSource) -> Option<Seq<char>> {
    match s {
        TokenSource::NoCredentials => Some(
            "No credentials found. Place OAuth client JSON as credentials.json (or service_account.json shared on the sheet), then run: awards-tui --login"@,
        ),
        TokenSource::NotLoggedIn => Some("Not logged in. Run: awards-tui --login"@),
        _ => None,
    }
}

/// The error message of a token source that cannot give a token
/// (`source_message`).
pub fn token_source_message(s: TokenSource) -> (r: Option<String>)
    ensures
        opt_view(r) == source_message(s),
{
    match s {
        TokenSource::NoCredentials => Some(crate::text::owned(
            "No credentials found. Place OAuth client JSON as credentials.json (or service_account.json shared on the sheet), then run: awards-tui --login",
        )),
        TokenSource::NotLoggedIn => Some(crate::text::owned("Not logged in. Run: awards-tui --login")),
        _ => None,
    }
}

/// Why refreshing the cached token failed: no refresh token, or the token
/// server's error `detail`.
pub open spec fn refresh_failed_text(detail: Option<Seq<char>>) -> Seq<char> {
    match detail {
        None => "Token refresh failed. Run: awards-tui --login"@,
        Some(d) => "Token refresh failed. Run: awards-tui --login ("@ + d + ")"@,
    }
}

/// The message of a failed refresh (`refresh_failed_text`).
pub fn refresh_failed_message(detail: Option<&str>) -> (r: String)
    ensures
        r@ == refresh_failed_text(match detail {
            Some(d) => Some(d@),
            None => None,
        }),
{
    match detail {
        None => crate::text::owned("Token refresh failed. Run: awards-tui --login"),
        Some(d) => {
            let mut m = chars_of("Token refresh failed. Run: awards-tui --login (");
            crate::text::extend_str(&mut m, d);
            crate::text::extend_str(&mut m, ")");
            string_of(&m)
        },
    }
}

/// The scopes a token may be used for.
pub open spec fn default_scopes() -> Seq<Seq<char>> {
    seq!["https://www.googleapis.com/auth/spreadsheets"@, "https://www.googleapis.com/auth/drive.readonly"@]
}

/// The words of a space-separated scope list.
pub open spec fn scope_words(s: Seq<char>) -> Seq<Seq<char>> {
    crate::text::split_nonempty(s, |c: char| is_ws(c))
}

fn split_words(s: &str) -> (r: Vec<String>)
    ensures
        crate::text::strings_view(r@) == scope_words(s@),
{
    let v = chars_of(s);
    let ghost sep = |c: char| is_ws(c);
    let mut done: Vec<String> = Vec::new();
    let mut cur: Vec<char> = Vec::new();
    let mut i: usize = 0;
    assert(crate::text::strings_view(done@) =~= Seq::<Seq<char>>::empty());
    assert(cur@ =~= Seq::<char>::empty());
    while i < v.len()
        invariant
            i <= v.len(),
            v@ == s@,
            sep == (|c: char| is_ws(c)),
            (crate::text::strings_view(done@), cur@) == crate::text::split_state(v@.subrange(0, i as int), sep),
        decreases v.len() - i,
    {
        let c = v[i];
        assert(v@.subrange(0, i + 1).drop_last() =~= v@.subrange(0, i as int));
        assert(v@.subrange(0, i + 1).last() == c);
        if is_ws_char(c) {
            if cur.len() > 0 {
                let ghost prev = done@;
                let w = string_of(&cur);
                done.push(w);
                assert(crate::text::strings_view(done@) =~= crate::text::strings_view(prev).push(cur@));
                cur = Vec::new();
                assert(cur@ =~= Seq::<char>::empty());
            }
        } else {
            cur.push(c);
        }
        i += 1;
    }
    assert(v@.subrange(0, v.len() as int) =~= v@);
    if cur.len() > 0 {
        let ghost prev = done@;
        let w = string_of(&cur);
        done.push(w);
        assert(crate::text::strings_view(done@) =~= crate::text::strings_view(prev).push(cur@));
    }
    done
}

/// The parts of a cached token that a token-server reply changes.
#[derive(Debug, Clone)]
pub struct TokenRecord {
    pub token: String,
    pub refresh_token: Option<String>,
    pub scopes: Vec<String>,
    pub universe_domain: Option<String>,
}

/// A cached token after the token server's reply: the new access token; a new
/// refresh token only when one came back non-empty; the scopes the reply
/// lists, else the ones kept, else the default ones; and the default universe
/// when none was set.
pub open spec fn token_after_reply(
    token: Seq<char>,
    refresh_token: Option<Seq<char>>,
    scopes: Seq<Seq<char>>,
    universe_domain: Option<Seq<char>>,
    access_token: Seq<char>,
    new_refresh: Option<Seq<char>>,
    scope: Option<Seq<char>>,
) -> (Seq<char>, Option<Seq<char>>, Seq<Seq<char>>, Option<Seq<char>>) {
    let refresh = match new_refresh {
        Some(r) => if r.len() > 0 {
            Some(r)
        } else {
            refresh_token
        },
        None => refresh_token,
    };
    let listed = match scope {
        Some(s) => scope_words(s),
        None => scopes,
    };
    (
        access_token,
        refresh,
        if listed.len() == 0 {
            default_scopes()
        } else {
            listed
        },
        match universe_domain {
            Some(u) => Some(u),
            None => Some("googleapis.com"@),
        },
    )
}

/// Take the token server's reply into the cached token (`token_after_reply`);
/// the new expiry is set by the caller, which reads the clock.
pub fn apply_token_reply(
    rec: &mut TokenRecord,
    access_token: String,
    new_refresh: Option<String>,
    scope: Option<String>,
)
    ensures
        (final(rec).token@, opt_view(final(rec).refresh_token), crate::text::strings_view(final(rec).scopes@), opt_view(
            final(rec).universe_domain,
        )) == token_after_reply(
            old(rec).token@,
            opt_view(old(rec).refresh_token),
            crate::text::strings_view(old(rec).scopes@),
            opt_view(old(rec).universe_domain),
            access_token@,
            opt_view(new_refresh),
            opt_view(scope),
        ),
{
    rec.token = access_token;
    match new_refresh {
        Some(r) => {
            if !r.as_str().is_empty() {
                rec.refresh_token = Some(r);
            }
        },
        None => {},
    }
    match scope {
        Some(sc) => {
            rec.scopes = split_words(sc.as_str());
        },
        None => {},
    }
    if rec.scopes.len() == 0 {
        let mut d: Vec<String> = Vec::new();
        d.push(crate::text::owned("https://www.googleapis.com/auth/spreadsheets"));
        d.push(crate::text::owned("https://www.googleapis.com/auth/drive.readonly"));
        assert(crate::text::strings_view(d@) =~= default_scopes());
        rec.scopes = d;
    }
    if rec.universe_domain.is_none() {
        rec.universe_domain = Some(crate::text::owned("googleapis.com"));
    }
}

/// The instant a cached token's expiry text names: RFC 3339 first, then the
/// two fixed layouts the token file has been written in.
pub open spec fn expiry_millis(text: Seq<char>) -> Option<i64> {
    match crate::trusted::rfc3339_millis_of(text) {
        Some(t) => Some(t),
        None => match crate::trusted::formatted_millis_of(text, "%Y-%m-%dT%H:%M:%S%.fZ"@) {
            Some(t) => Some(t),
            None => crate::trusted::formatted_millis_of(text, "%Y-%m-%dT%H:%M:%SZ"@),
        },
    }
}

/// The instant a cached token's expiry text names (`expiry_millis`).
pub fn parse_expiry(text: &str) -> (r: Option<i64>)
    ensures
        r == expiry_millis(text@),
{
    match crate::trusted::rfc3339_millis(text) {
        Some(t) => Some(t),
        None => match crate::trusted::formatted_millis(text, "%Y-%m-%dT%H:%M:%S%.fZ") {
            Some(t) => Some(t),
            None => crate::trusted::formatted_millis(text, "%Y-%m-%dT%H:%M:%SZ"),
        },
    }
}

/// Whether a cached token with expiry text `expiry` counts as expired at
/// `now_ms`: from one minute before the instant it names on; a token with no
/// expiry, or one that does not parse, never does.
pub fn cached_token_expired(now_ms: i64, expiry: Option<&str>) -> (r: bool)
    ensures
        r == match expiry {
            Some(t) => match expiry_millis(t@) {
                Some(e) => now_ms >= e - 60_000,
                None => false,
            },
            None => false,
        },
{
    match expiry {
        Some(t) => token_expired(now_ms, parse_expiry(t)),
        None => false,
    }
}

// ---------------------------------------------------------------------------
// Addresses and claims of a sign-in
// ---------------------------------------------------------------------------

/// Where the browser sign-in starts when the OAuth client file names no
/// address.
pub open spec fn default_auth_uri() -> Seq<char> {
    "https://accounts.google.com/o/oauth2/auth"@
}

/// Where tokens are fetched when the credentials name no address.
pub open spec fn default_token_uri() -> Seq<char> {
    "https://oauth2.googleapis.com/token"@
}

/// The address configured, else `default`.
pub open spec fn or_default(configured: Option<Seq<char>>, default: Seq<char>) -> Seq<char> {
    match configured {
        Some(u) => u,
        None => default,
    }
}

/// The browser sign-in address, from the OAuth client file's `auth_uri`.
pub fn auth_endpoint(configured: Option<&str>) -> (r: String)
    ensures
        r@ == or_default(
            match configured {
                Some(u) => Some(u@),
                None => None,
            },
            default_auth_uri(),
        ),
{
    match configured {
        Some(u) => crate::text::owned(u),
        None => crate::text::owned("https://accounts.google.com/o/oauth2/auth"),
    }
}

/// The token address, from the credentials' `token_uri`.
pub fn token_endpoint(configured: Option<&str>) -> (r: String)
    ensures
        r@ == or_default(
            match configured {
                Some(u) => Some(u@),
                None => None,
            },
            default_token_uri(),
        ),
{
    match configured {
        Some(u) => crate::text::owned(u),
        None => crate::text::owned("https://oauth2.googleapis.com/token"),
    }
}

/// The scopes asked for, space-separated.
pub open spec fn scope_text() -> Seq<char> {
    crate::text::join(default_scopes(), " "@)
}

/// The scopes asked for, space-separated (`scope_text`).
pub fn scope_list() -> (r: String)
    ensures
        r@ == scope_text(),
{
    let mut v: Vec<String> = Vec::new();
    v.push(crate::text::owned("https://www.googleapis.com/auth/spreadsheets"));
    v.push(crate::text::owned("https://www.googleapis.com/auth/drive.readonly"));
    assert(crate::text::strings_view(v@) =~= default_scopes());
    crate::text::join_strings(&v, " ")
}

/// Where the browser is sent back to: the local listener on `port`.
pub open spec fn redirect_text(port: u16) -> Seq<char> {
    "http://127.0.0.1:"@ + crate::text::decimal(port as int) + "/"@
}

/// The address the browser is sent back to (`redirect_text`).
pub fn redirect_address(port: u16) -> (r: String)
    ensures
        r@ == redirect_text(port),
{
    let mut m = chars_of("http://127.0.0.1:");
    crate::text::extend_chars(&mut m, &crate::text::u64_decimal(port as u64));
    crate::text::extend_str(&mut m, "/");
    string_of(&m)
}

/// The browser sign-in address: the client, the redirect, the scopes and the
/// state, each percent-encoded, asking for an offline code after consent.
pub open spec fn authorization_text(
    auth_uri: Seq<char>,
    client_id: Seq<char>,
    redirect: Seq<char>,
    scope: Seq<char>,
    state: Seq<char>,
) -> Seq<char> {
    auth_uri + "?client_id="@ + url_encoded_of(client_id) + "&redirect_uri="@ + url_encoded_of(redirect)
        + "&response_type=code&scope="@ + url_encoded_of(scope) + "&state="@ + url_encoded_of(state)
        + "&access_type=offline&prompt=consent"@
}

/// The browser sign-in address (`authorization_text`).
pub fn authorization_url(auth_uri: &str, client_id: &str, redirect: &str, scope: &str, state: &str) -> (r: String)
    ensures
        r@ == authorization_text(auth_uri@, client_id@, redirect@, scope@, state@),
{
    let mut m = chars_of(auth_uri);
    crate::text::extend_str(&mut m, "?client_id=");
    crate::text::extend_str(&mut m, url_encode(client_id).as_str());
    crate::text::extend_str(&mut m, "&redirect_uri=");
    crate::text::extend_str(&mut m, url_encode(redirect).as_str());
    crate::text::extend_str(&mut m, "&response_type=code&scope=");
    crate::text::extend_str(&mut m, url_encode(scope).as_str());
    crate::text::extend_str(&mut m, "&state=");
    crate::text::extend_str(&mut m, url_encode(state).as_str());
    crate::text::extend_str(&mut m, "&access_type=offline&prompt=consent");
    string_of(&m)
}

/// The sign-in address for an OAuth client with `auth_uri` (if its file
/// names one) and `client_id`, sending the browser back to `port` with `state`.
pub fn sign_in_url(auth_uri: Option<&str>, client_id: &str, port: u16, state: &str) -> (r: String)
    ensures
        r@ == authorization_text(
            or_default(
                match auth_uri {
                    Some(u) => Some(u@),
                    None => None,
                },
                default_auth_uri(),
            ),
            client_id@,
            redirect_text(port),
            scope_text(),
            state@,
        ),
{
    let endpoint = auth_endpoint(auth_uri);
    let redirect = redirect_address(port);
    let scope = scope_list();
    authorization_url(endpoint.as_str(), client_id, redirect.as_str(), scope.as_str(), state)
}

/// What a service account asserts to get a token: who it is, the scopes, the
/// token address it is for, and a lifetime of one hour from `iat`.
#[derive(Debug, Clone)]
pub struct ServiceClaims {
    pub iss: String,
    pub scope: String,
    pub aud: String,
    pub iat: i64,
    pub exp: i64,
}

/// The claims of a service account `client_email` at time `now` (seconds),
/// for the token address of its key file (else the default one).
pub fn service_account_claims(client_email: &str, token_uri: Option<&str>, now: i64) -> (r: ServiceClaims)
    requires
        now <= i64::MAX - 3600,
    ensures
        r.iss@ == client_email@,
        r.scope@ == scope_text(),
        r.aud@ == or_default(
            match token_uri {
                Some(u) => Some(u@),
                None => None,
            },
            default_token_uri(),
        ),
        r.iat == now,
        r.exp == now + 3600,
{
    ServiceClaims {
        iss: crate::text::owned(client_email),
        scope: scope_list(),
        aud: token_endpoint(token_uri),
        iat: now,
        exp: now + 3600,
    }
}

} // verus!
