//! The sign-in flow's pure steps: the PKCE verifier and challenge, the
//! authorization URL, the exchanged token, and the identity of a new account.
use vstd::prelude::*;
use vstd::string::StringExecFns;
use vstd::string::StringSliceAdditionalSpecFns;
use vstd::utf8::*;

use crate::codec::{b64_url_nopad_encode, b64_url_nopad_encoded, sha256, sha256_of, url_safe_b64_char};
use crate::text::push_char;

verus! {

/// Bytes that percent-encoding leaves as they are: ASCII letters, digits and `-_.~`.
pub open spec fn unreserved(b: u8) -> bool {
    (65 <= b <= 90) || (97 <= b <= 122) || (48 <= b <= 57) || b == 45 || b == 95 || b == 46 || b == 126
}

/// An upper-case hexadecimal digit.
pub open spec fn hex_upper(d: int) -> char {
    if d < 10 {
        (48 + d) as char
    } else {
        (55 + d) as char
    }
}

/// A lower-case digit in base 10 or 16.
pub open spec fn digit_lower(d: int) -> char {
    if d < 10 {
        (48 + d) as char
    } else {
        (87 + d) as char
    }
}

/// The percent-encoding of one byte.
pub open spec fn pct_byte(b: u8) -> Seq<char> {
    if unreserved(b) {
        seq![b as char]
    } else {
        seq!['%', hex_upper((b / 16) as int), hex_upper((b % 16) as int)]
    }
}

/// Percent-encoding of a byte string: each byte in turn.
pub open spec fn pct_spec(bytes: Seq<u8>) -> Seq<char>
    decreases bytes.len(),
{
    if bytes.len() == 0 {
        Seq::empty()
    } else {
        pct_spec(bytes.drop_last()) + pct_byte(bytes.last())
    }
}

fn hex_upper_char(d: u8) -> (c: char)
    requires
        d < 16,
    ensures
        c == hex_upper(d as int),
{
    if d < 10 {
        (48 + d) as char
    } else {
        (55 + d) as char
    }
}

fn digit_lower_char(d: u8) -> (c: char)
    requires
        d < 16,
    ensures
        c == digit_lower(d as int),
{
    if d < 10 {
        (48 + d) as char
    } else {
        (87 + d) as char
    }
}

/// Percent-encodes the UTF-8 bytes of `s`, keeping ASCII letters, digits and
/// `-_.~` and writing every other byte as `%` and two upper-case hex digits.
pub fn pct_encode(s: &str) -> (r: String)
    ensures
        r@ == pct_spec(s.spec_bytes()),
{
    let bytes = s.as_bytes();
    let mut out = String::new();
    let mut i: usize = 0;
    proof {
        assert(bytes@.take(0) =~= Seq::<u8>::empty());
    }
    while i < bytes.len()
        invariant
            i <= bytes@.len(),
            out@ == pct_spec(bytes@.take(i as int)),
        decreases bytes.len() - i,
    {
        let b = bytes[i];
        proof {
            assert(bytes@.take(i + 1).drop_last() =~= bytes@.take(i as int));
        }
        let ghost before = out@;
        if (65 <= b && b <= 90) || (97 <= b && b <= 122) || (48 <= b && b <= 57) || b == 45 || b == 95
            || b == 46 || b == 126 {
            push_char(&mut out, b as char);
        } else {
            push_char(&mut out, '%');
            push_char(&mut out, hex_upper_char(b / 16));
            push_char(&mut out, hex_upper_char(b % 16));
        }
        assert(out@ =~= before + pct_byte(b));
        i = i + 1;
    }
    assert(bytes@.take(bytes@.len() as int) =~= bytes@);
    out
}

/// The digits of `n` in base `base` (10 or 16), most significant first, lower case.
pub open spec fn radix_digits(n: nat, base: nat) -> Seq<char>
    decreases n,
{
    if base < 2 || n < base {
        seq![digit_lower(n as int)]
    } else {
        proof {
            vstd::arithmetic::div_mod::lemma_div_decreases(n as int, base as int);
        }
        radix_digits(n / base, base).push(digit_lower((n % base) as int))
    }
}

/// The value of a digit character: `0`-`9` as 0 to 9, `a`-`f` as 10 to 15
/// (-1 for any other character).
pub open spec fn char_digit(c: char) -> int {
    if '0' <= c <= '9' {
        c as int - '0' as int
    } else if 'a' <= c <= 'f' {
        c as int - 'a' as int + 10
    } else {
        -1
    }
}

/// The number that the digit characters `s` denote in base `b`, most significant first.
pub open spec fn read_digits(s: Seq<char>, b: int) -> int
    decreases s.len(),
{
    if s.len() == 0 {
        0
    } else {
        read_digits(s.drop_last(), b) * b + char_digit(s.last())
    }
}

/// The digits written for `n` in base 10 or 16 are one or more digit
/// characters of that base, and read back as `n`.
pub proof fn law_radix_digits_read_back(n: nat, b: nat)
    requires
        b == 10 || b == 16,
    ensures
        radix_digits(n, b).len() >= 1,
        forall|i: int| 0 <= i < radix_digits(n, b).len() ==> 0 <= #[trigger] char_digit(radix_digits(n, b)[i]) < b,
        read_digits(radix_digits(n, b), b as int) == n,
    decreases n,
{
    if n < b {
        assert(radix_digits(n, b) == seq![digit_lower(n as int)]);
        assert(seq![digit_lower(n as int)].drop_last() =~= Seq::<char>::empty());
        assert(char_digit(digit_lower(n as int)) == n);
        assert(read_digits(Seq::<char>::empty(), b as int) == 0);
    } else {
        vstd::arithmetic::div_mod::lemma_div_decreases(n as int, b as int);
        let q = n / b;
        let r = n % b;
        law_radix_digits_read_back(q, b);
        vstd::arithmetic::div_mod::lemma_fundamental_div_mod(n as int, b as int);
        let s = radix_digits(n, b);
        assert(s == radix_digits(q, b).push(digit_lower(r as int)));
        assert(s.drop_last() =~= radix_digits(q, b));
        assert(char_digit(digit_lower(r as int)) == r);
        assert(read_digits(s, b as int) == read_digits(radix_digits(q, b), b as int) * b + r);
        assert(q * b == b * q) by (nonlinear_arith);
        assert forall|i: int| 0 <= i < s.len() implies 0 <= #[trigger] char_digit(s[i]) < b by {
            if i < s.len() - 1 {
                assert(s[i] == radix_digits(q, b)[i]);
            }
        }
    }
}

fn format_radix(n: u128, base: u128) -> (r: String)
    requires
        base == 10 || base == 16,
    ensures
        r@ == radix_digits(n as nat, base as nat),
{
    let mut m = n;
    let mut digits: Vec<char> = Vec::new();
    while m >= base
        invariant
            base == 10 || base == 16,
            radix_digits(n as nat, base as nat) == radix_digits(m as nat, base as nat) + digits@,
        decreases m,
    {
        let d = (m % base) as u8;
        let ghost before = digits@;
        digits.insert(0, digit_lower_char(d));
        assert(radix_digits(m as nat, base as nat) == radix_digits((m / base) as nat, base as nat).push(
            digit_lower((m % base) as int),
        ));
        assert(radix_digits((m / base) as nat, base as nat).push(digit_lower((m % base) as int)) + before
            =~= radix_digits((m / base) as nat, base as nat) + digits@);
        m = m / base;
    }
    let ghost before = digits@;
    digits.insert(0, digit_lower_char(m as u8));
    assert(radix_digits(m as nat, base as nat) + before =~= digits@);
    let mut out = String::new();
    let mut i: usize = 0;
    while i < digits.len()
        invariant
            i <= digits@.len(),
            out@ == digits@.take(i as int),
        decreases digits.len() - i,
    {
        push_char(&mut out, digits[i]);
        assert(out@ =~= digits@.take(i + 1));
        i = i + 1;
    }
    assert(digits@.take(digits@.len() as int) =~= digits@);
    out
}

/// `n` in lower-case hexadecimal, as `format!("{:x}", n)` writes it.
pub fn lower_hex(n: u128) -> (r: String)
    ensures
        r@ == radix_digits(n as nat, 16),
{
    format_radix(n, 16)
}

/// `n` in decimal, as `format!("{}", n)` writes it.
pub fn decimal(n: u128) -> (r: String)
    ensures
        r@ == radix_digits(n as nat, 10),
{
    format_radix(n, 10)
}

/// The PKCE code verifier: 48 random bytes in unpadded URL-safe base64.
pub fn pkce_verifier(raw: &[u8; 48]) -> (r: String)
    ensures
        r@ == b64_url_nopad_encoded(raw@),
        r@.len() == 64,
        forall|i: int| 0 <= i < r@.len() ==> url_safe_b64_char(#[trigger] r@[i]),
{
    b64_url_nopad_encode(raw.as_slice())
}

/// The PKCE S256 challenge of a verifier: the SHA-256 of its bytes in unpadded
/// URL-safe base64.
pub fn pkce_challenge(verifier: &str) -> (r: String)
    ensures
        r@ == b64_url_nopad_encoded(sha256_of(verifier.spec_bytes())),
        r@.len() == 43,
        forall|i: int| 0 <= i < r@.len() ==> url_safe_b64_char(#[trigger] r@[i]),
{
    let digest = sha256(verifier.as_bytes());
    b64_url_nopad_encode(digest.as_slice())
}

/// The loopback address that receives the browser's redirect.
pub open spec fn callback_uri_spec(port: u16) -> Seq<char> {
    "http://127.0.0.1:"@ + radix_digits(port as nat, 10) + "/callback"@
}

/// `http://127.0.0.1:{port}/callback`.
pub fn callback_uri(port: u16) -> (r: String)
    ensures
        r@ == callback_uri_spec(port),
{
    let mut s = String::new();
    s.append("http://127.0.0.1:");
    let p = decimal(port as u128);
    s.append(p.as_str());
    s.append("/callback");
    assert(s@ =~= callback_uri_spec(port));
    s
}

/// The authorization page's address. With a redirect address (loopback
/// mode) the percent-encoded redirect comes first; without one (paste-code
/// mode) it is left out.
pub open spec fn authorize_url_spec(state: Seq<char>, challenge: Seq<char>, redirect: Option<Seq<char>>) -> Seq<char> {
    let tail = "&prompt=select_account&code_challenge="@ + challenge
        + "&code_challenge_method=S256&cli_pkce_marker=1"@;
    match redirect {
        None => "https://app.devin.ai/auth/cli/continue?state="@ + state + tail,
        Some(r) => "https://app.devin.ai/auth/cli/continue?redirect_uri="@ + pct_spec(encode_utf8(r))
            + "&state="@ + state + tail,
    }
}

/// The authorization page's address (see [`authorize_url_spec`]).
pub fn authorize_url(state: &str, challenge: &str, redirect: Option<&str>) -> (r: String)
    ensures
        r@ == authorize_url_spec(
            state@,
            challenge@,
            match redirect {
                Some(x) => Some(x@),
                None => None,
            },
        ),
{
    let mut s = String::new();
    match redirect {
        None => {
            s.append("https://app.devin.ai/auth/cli/continue?state=");
        },
        Some(r) => {
            s.append("https://app.devin.ai/auth/cli/continue?redirect_uri=");
            let enc = pct_encode(r);
            s.append(enc.as_str());
            s.append("&state=");
        },
    }
    s.append(state);
    s.append("&prompt=select_account&code_challenge=");
    s.append(challenge);
    s.append("&code_challenge_method=S256&cli_pkce_marker=1");
    proof {
        match redirect {
            Some(r) => {
                assert(r.spec_bytes() == encode_utf8(r@));
            },
            None => {},
        }
    }
    assert(s@ =~= authorize_url_spec(
        state@,
        challenge@,
        match redirect {
            Some(x) => Some(x@),
            None => None,
        },
    ));
    s
}

/// What starting a sign-in produces.
pub struct AuthStart {
    /// The state parameter: the start time in nanoseconds, in hexadecimal.
    pub state: String,
    /// The PKCE code verifier, kept until the code is exchanged.
    pub verifier: String,
    /// The address to open in the browser.
    pub url: String,
    /// Paste-code mode: there is no loopback listener.
    pub manual: bool,
}

/// Starts a sign-in: the verifier from 48 random bytes, its challenge, the
/// state from the time in nanoseconds, and the authorization address, which
/// redirects to the loopback listener when one listens on `callback_port`.
pub fn auth_start(verifier_raw: &[u8; 48], now_nanos: u128, callback_port: Option<u16>) -> (r: AuthStart)
    ensures
        r.verifier@ == b64_url_nopad_encoded(verifier_raw@),
        r.state@ == radix_digits(now_nanos as nat, 16),
        r.manual == callback_port is None,
        r.url@ == authorize_url_spec(
            r.state@,
            b64_url_nopad_encoded(sha256_of(encode_utf8(r.verifier@))),
            match callback_port {
                Some(p) => Some(callback_uri_spec(p)),
                None => None,
            },
        ),
{
    let verifier = pkce_verifier(verifier_raw);
    let challenge = pkce_challenge(verifier.as_str());
    let state = lower_hex(now_nanos);
    let url = match callback_port {
        Some(p) => {
            let redirect = callback_uri(p);
            authorize_url(state.as_str(), challenge.as_str(), Some(redirect.as_str()))
        },
        None => authorize_url(state.as_str(), challenge.as_str(), None),
    };
    AuthStart { state, verifier, url, manual: callback_port.is_none() }
}

/// Whether `t` starts with `eyJ`, the start of a JSON web token.
pub open spec fn looks_like_jwt(t: Seq<char>) -> bool {
    t.len() >= 3 && t[0] == 'e' && t[1] == 'y' && t[2] == 'J'
}

/// The stored form of an exchanged token: a bare JSON web token gets the
/// `devin-session-token$` prefix that Devin uses; any other token stays as it is.
pub open spec fn normalized_token(t: Seq<char>) -> Seq<char> {
    if looks_like_jwt(t) {
        "devin-session-token$"@ + t
    } else {
        t
    }
}

/// Normalizes an exchanged token (see [`normalized_token`]).
pub fn normalize_token(token: String) -> (r: String)
    ensures
        r@ == normalized_token(token@),
{
    let t = token.as_str();
    let jwt = t.unicode_len() >= 3 && t.get_char(0) == 'e' && t.get_char(1) == 'y' && t.get_char(2) == 'J';
    if jwt {
        let mut s = String::new();
        s.append("devin-session-token$");
        s.append(t);
        s
    } else {
        token
    }
}

/// Why a sign-in code could not be exchanged.
pub enum ExchangeError {
    /// Neither exchange endpoint returned a token.
    NoToken,
}

/// The exchanged token: the primary endpoint's `token`; failing that, the
/// first of the fallback endpoint's `sessionToken`, `session_token`, `apiKey`,
/// `token` that is a string (each given here when it is a string).
pub fn exchange_token(
    primary: Option<String>,
    session_token: Option<String>,
    session_token_snake: Option<String>,
    api_key: Option<String>,
    token: Option<String>,
) -> (r: Result<String, ExchangeError>)
    ensures
        primary matches Some(t) ==> (r matches Ok(x) && x@ == t@),
        primary is None ==> (match (session_token, session_token_snake, api_key, token) {
            (Some(t), _, _, _) => r matches Ok(x) && x@ == t@,
            (None, Some(t), _, _) => r matches Ok(x) && x@ == t@,
            (None, None, Some(t), _) => r matches Ok(x) && x@ == t@,
            (None, None, None, Some(t)) => r matches Ok(x) && x@ == t@,
            (None, None, None, None) => r is Err,
        }),
{
    if let Some(t) = primary {
        return Ok(t);
    }
    if let Some(t) = session_token {
        return Ok(t);
    }
    if let Some(t) = session_token_snake {
        return Ok(t);
    }
    if let Some(t) = api_key {
        return Ok(t);
    }
    if let Some(t) = token {
        return Ok(t);
    }
    Err(ExchangeError::NoToken)
}

/// What the caller learned last while exchanging a code for a token.
pub enum ExchangeEvent {
    /// The exchange begins.
    Start,
    /// The primary endpoint answered; its `token` when that is a string.
    Primary(Option<String>),
    /// The fallback endpoint answered; its `sessionToken`, `session_token`,
    /// `apiKey` and `token`, each when it is a string.
    Fallback(Option<String>, Option<String>, Option<String>, Option<String>),
}

/// What the caller must do next in the exchange.
pub enum ExchangeStep {
    /// Ask the primary endpoint.
    CallPrimary,
    /// Ask the fallback endpoint.
    CallFallback,
    /// The exchange is over, with this result.
    Done(Result<String, ExchangeError>),
}

/// One step of the exchange: the primary endpoint first; the fallback only
/// when the primary gave no token; then the first token found (see
/// [`exchange_token`]).
pub fn exchange_step(event: ExchangeEvent) -> (r: ExchangeStep)
    ensures
        event is Start ==> r is CallPrimary,
        event matches ExchangeEvent::Primary(p) ==> (match p {
            Some(t) => r matches ExchangeStep::Done(Ok(x)) && x@ == t@,
            None => r is CallFallback,
        }),
        event matches ExchangeEvent::Fallback(a, b, c, d) ==> (match (a, b, c, d) {
            (Some(t), _, _, _) => r matches ExchangeStep::Done(Ok(x)) && x@ == t@,
            (None, Some(t), _, _) => r matches ExchangeStep::Done(Ok(x)) && x@ == t@,
            (None, None, Some(t), _) => r matches ExchangeStep::Done(Ok(x)) && x@ == t@,
            (None, None, None, Some(t)) => r matches ExchangeStep::Done(Ok(x)) && x@ == t@,
            (None, None, None, None) => r matches ExchangeStep::Done(Err(ExchangeError::NoToken)),
        }),
{
    match event {
        ExchangeEvent::Start => ExchangeStep::CallPrimary,
        ExchangeEvent::Primary(Some(t)) => ExchangeStep::Done(Ok(t)),
        ExchangeEvent::Primary(None) => ExchangeStep::CallFallback,
        ExchangeEvent::Fallback(a, b, c, d) => ExchangeStep::Done(exchange_token(None, a, b, c, d)),
    }
}

/// Who a newly signed-in account is.
pub struct Identity {
    pub label: String,
    pub email: String,
    pub user_id: String,
}

pub open spec fn nonempty_or(a: Option<Seq<char>>, b: Option<Seq<char>>) -> Option<Seq<char>> {
    match a {
        Some(x) if x.len() > 0 => Some(x),
        _ => b,
    }
}

pub open spec fn text_or(a: Option<Seq<char>>, d: Seq<char>) -> Seq<char> {
    match a {
        Some(x) => x,
        None => d,
    }
}

pub open spec fn opt_text(a: Option<String>) -> Option<Seq<char>> {
    match a {
        Some(x) => Some(x@),
        None => None,
    }
}

fn nonempty_or_exec(a: Option<String>, b: Option<String>) -> (r: Option<String>)
    ensures
        opt_text(r) == nonempty_or(opt_text(a), opt_text(b)),
{
    match a {
        Some(x) => {
            if x.as_str().unicode_len() > 0 {
                Some(x)
            } else {
                b
            }
        },
        None => b,
    }
}

/// The identity of a new account: the label is the profile's non-empty
/// `user_name`, else the status's `name`, else `account`; the email is the
/// status's `email`, else empty; the user id is the profile's non-empty
/// `user_id`, else the status's `userId`, else empty.
pub fn account_identity(
    profile_name: Option<String>,
    profile_id: Option<String>,
    status_name: Option<String>,
    status_email: Option<String>,
    status_user_id: Option<String>,
) -> (r: Identity)
    ensures
        r.label@ == text_or(nonempty_or(opt_text(profile_name), opt_text(status_name)), "account"@),
        r.email@ == text_or(opt_text(status_email), Seq::empty()),
        r.user_id@ == text_or(nonempty_or(opt_text(profile_id), opt_text(status_user_id)), Seq::empty()),
{
    let label = match nonempty_or_exec(profile_name, status_name) {
        Some(l) => l,
        None => String::from_str("account"),
    };
    let email = match status_email {
        Some(e) => e,
        None => String::new(),
    };
    let user_id = match nonempty_or_exec(profile_id, status_user_id) {
        Some(u) => u,
        None => String::new(),
    };
    Identity { label, email, user_id }
}

/// The id of a new account: `acc-` and the time in milliseconds modulo
/// `0xFFFFFFFF`, in hexadecimal.
pub fn account_id(now_millis: u128) -> (r: String)
    ensures
        r@ == "acc-"@ + radix_digits((now_millis % 0xFFFF_FFFF) as nat, 16),
{
    let mut s = String::new();
    s.append("acc-");
    let h = lower_hex(now_millis % 0xFFFF_FFFF);
    s.append(h.as_str());
    s
}

} // verus!
