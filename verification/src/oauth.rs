//! ChatGPT sign-in: the sign-in callback request, the token responses and
//! their claims, the token's freshness, and the pages and messages shown
//! along the way.

use vstd::prelude::*;
use crate::json::{JsonValue, json_get, json_path, json_str, json_i64, opt_str, get, as_str, as_i64};
use crate::network::{parse_url, parsed_url};
use crate::responses::{lines, split_lines};
use crate::text::{
    chars_eq, chars_of, concat2, concat3, decimal, decimal_string, decode_utf8_bytes, first_occurrence,
    replace, replace_str, str_eq, string_of, take_chars, text_result, words, split_whitespace_chars,
    char_seqs, opt_chars, contains,
};

verus! {

/// The OAuth client of the sign-in.
pub const CLIENT_ID: &'static str = "app_EMoamEEZ73f0CkXaXp7hrann";

/// The authorization endpoint.
pub const AUTHORIZE_URL: &'static str = "https://auth.openai.com/oauth/authorize";

/// The token endpoint.
pub const TOKEN_URL: &'static str = "https://auth.openai.com/oauth/token";

/// Where the browser returns after sign-in.
pub const REDIRECT_URI: &'static str = "http://localhost:1455/auth/callback";

/// The scopes asked for.
pub const SCOPE: &'static str = "openid profile email offline_access api.connectors.read api.connectors.invoke";

/// The claim that holds the account claims.
pub const ACCOUNT_CLAIM_CONTAINER: &'static str = "https://api.openai.com/auth";

/// The claim that holds the account ID.
pub const ACCOUNT_CLAIM: &'static str = "chatgpt_account_id";

/// A token is refreshed when it expires within this many milliseconds.
pub const MIN_TOKEN_TTL_MS: i64 = 60000;

/// A saved sign-in.
#[derive(Debug)]
pub struct OAuthToken {
    pub access_token: String,
    pub refresh_token: String,
    pub expires_at_ms: i64,
    pub account_id: String,
}

/// A saved sign-in as character sequences.
pub struct OAuthTokenView {
    pub access_token: Seq<char>,
    pub refresh_token: Seq<char>,
    pub expires_at_ms: i64,
    pub account_id: Seq<char>,
}

impl View for OAuthToken {
    type V = OAuthTokenView;

    open spec fn view(&self) -> OAuthTokenView {
        OAuthTokenView {
            access_token: self.access_token@,
            refresh_token: self.refresh_token@,
            expires_at_ms: self.expires_at_ms,
            account_id: self.account_id@,
        }
    }
}

/// The start of a sign-in: the page that the browser opens.
#[derive(Debug)]
pub struct AuthStart {
    pub authorization_url: String,
}

/// The sign-in status shown to the user.
#[derive(Debug)]
pub enum AuthStatus {
    SignedOut,
    Connected { expires_at_ms: i64 },
    Error { message: String },
}

/// The status for what loading the saved sign-in gave: connected with its
/// expiry, signed out when there is none, the load's error otherwise.
pub fn status(loaded: Result<Option<OAuthToken>, String>) -> (r: Result<AuthStatus, String>)
    ensures
        match loaded {
            Ok(Some(t)) => r == Ok::<AuthStatus, String>(
                AuthStatus::Connected { expires_at_ms: t.expires_at_ms },
            ),
            Ok(None) => r == Ok::<AuthStatus, String>(AuthStatus::SignedOut),
            Err(e) => r matches Err(m) && m@ == e@,
        },
{
    match loaded {
        Ok(Some(t)) => Ok(AuthStatus::Connected { expires_at_ms: t.expires_at_ms }),
        Ok(None) => Ok(AuthStatus::SignedOut),
        Err(e) => Err(e),
    }
}

/// The page shown in the browser when sign-in succeeded.
pub const SUCCESS_HTML: &'static str = r#"<!doctype html><html lang="en"><head><meta charset="utf-8"><meta name="viewport" content="width=device-width,initial-scale=1"><title>Connected to Gloss</title><style>html{font-family:"Segoe UI Variable",Segoe UI,sans-serif;color:#18201d;background:#f5f7f4}body{min-height:100vh;margin:0;display:grid;place-items:center}.card{width:min(360px,calc(100vw - 48px));padding:36px;border-radius:28px;background:#fff;box-shadow:0 24px 70px rgba(32,43,38,.14);text-align:center}.mark{width:52px;height:52px;margin:auto;display:grid;place-items:center;border-radius:18px;background:#dff4e7;color:#126b40;font-size:26px}h1{font-size:22px;margin:20px 0 8px}p{color:#5e6863;line-height:1.55;margin:0}</style></head><body><main class="card"><div class="mark">✓</div><h1>Connected to Gloss</h1><p>You can close this tab and return to your reading.</p></main></body></html>"#;

/// The page shown in the browser when sign-in failed, with a title and a
/// message to fill in.
pub const CALLBACK_PAGE: &'static str = r#"<!doctype html><html lang="en"><head><meta charset="utf-8"><meta name="viewport" content="width=device-width,initial-scale=1"><title>{{title}}</title><style>html{font-family:"Segoe UI Variable",Segoe UI,sans-serif;color:#231d1d;background:#f8f5f4}body{min-height:100vh;margin:0;display:grid;place-items:center}.card{width:min(360px,calc(100vw - 48px));padding:36px;border-radius:28px;background:#fff;box-shadow:0 24px 70px rgba(56,35,35,.14);text-align:center}.mark{width:52px;height:52px;margin:auto;display:grid;place-items:center;border-radius:18px;background:#fae6e3;color:#a23d34;font-size:25px;font-weight:700}h1{font-size:22px;margin:20px 0 8px}p{color:#73615f;line-height:1.55;margin:0}</style></head><body><main class="card"><div class="mark">!</div><h1>{{title}}</h1><p>{{message}}</p></main></body></html>"#;

/// The text with `&`, `<` and `>` written as HTML entities.
pub open spec fn escape_html(s: Seq<char>) -> Seq<char> {
    replace(replace(replace(s, "&"@, "&amp;"@), "<"@, "&lt;"@), ">"@, "&gt;"@)
}

/// The failure page for a message.
pub open spec fn error_page(message: Seq<char>) -> Seq<char> {
    replace(
        replace(CALLBACK_PAGE@, "{{title}}"@, "Sign-in failed"@),
        "{{message}}"@,
        escape_html(message) + " Return to Gloss and try again."@,
    )
}

/// The failure page shown in the browser, with the message escaped.
pub fn error_html(message: &str) -> (r: String)
    ensures
        r@ == error_page(message@),
{
    proof {
        reveal_strlit("&");
        reveal_strlit("<");
        reveal_strlit(">");
        reveal_strlit("{{title}}");
        reveal_strlit("{{message}}");
    }
    let a = replace_str(message, "&", "&amp;");
    let b = replace_str(a.as_str(), "<", "&lt;");
    let safe = replace_str(b.as_str(), ">", "&gt;");
    let titled = replace_str(CALLBACK_PAGE, "{{title}}", "Sign-in failed");
    let text = concat2(safe.as_str(), " Return to Gloss and try again.");
    replace_str(titled.as_str(), "{{message}}", text.as_str())
}

/// The reason phrase of the callback's HTTP response.
pub open spec fn reason_phrase(status: u16) -> Seq<char> {
    if status == 200 {
        "OK"@
    } else {
        "Bad Request"@
    }
}

/// The HTTP response that answers the browser's callback request.
pub open spec fn callback_response_text(status: u16, body: Seq<char>) -> Seq<char> {
    "HTTP/1.1 "@ + decimal(status as nat) + " "@ + reason_phrase(status)
        + "\r\nContent-Type: text/html; charset=utf-8\r\nContent-Length: "@ + decimal(
        vstd::utf8::encode_utf8(body).len(),
    ) + "\r\nConnection: close\r\n\r\n"@ + body
}

/// The HTTP response to the callback request: the status line, the headers
/// (the body's length in bytes) and the page.
pub fn callback_response(status: u16, body: &str) -> (r: String)
    ensures
        r@ == callback_response_text(status, body@),
{
    let reason = if status == 200 {
        "OK"
    } else {
        "Bad Request"
    };
    let mut r = concat3("HTTP/1.1 ", decimal_string(status as u64).as_str(), " ");
    crate::text::append_str(&mut r, reason);
    crate::text::append_str(&mut r, "\r\nContent-Type: text/html; charset=utf-8\r\nContent-Length: ");
    let n = body.as_bytes().len();
    crate::text::append_str(&mut r, decimal_string(n as u64).as_str());
    crate::text::append_str(&mut r, "\r\nConnection: close\r\n\r\n");
    crate::text::append_str(&mut r, body);
    r
}

/// The most a callback request may hold before its headers end, in bytes.
pub const MAX_CALLBACK_REQUEST_BYTES: usize = 16384;

/// What to do after a read of the callback request.
#[derive(Debug)]
pub enum ReadStep {
    /// Read more.
    Continue,
    /// The request is complete: the peer closed or the headers ended.
    Done,
    /// The request is too large.
    TooLarge,
}

/// Do the bytes hold the blank line that ends the headers?
pub open spec fn headers_ended(data: Seq<u8>) -> bool {
    exists|i: int| 0 <= i && i + 4 <= data.len() && #[trigger] data.subrange(i, i + 4) == seq![13u8, 10u8, 13u8, 10u8]
}

/// The next step after a read that gave `count` bytes, with `data` all bytes
/// read so far.
pub open spec fn read_step(data: Seq<u8>, count: nat) -> ReadStep {
    if count == 0 {
        ReadStep::Done
    } else if headers_ended(data) {
        ReadStep::Done
    } else if data.len() > MAX_CALLBACK_REQUEST_BYTES {
        ReadStep::TooLarge
    } else {
        ReadStep::Continue
    }
}

/// Decides whether to read more of the callback request.
pub fn after_read(data: &[u8], count: usize) -> (r: ReadStep)
    ensures
        r == read_step(data@, count as nat),
{
    if count == 0 {
        return ReadStep::Done;
    }
    let n = data.len();
    let mut i: usize = 0;
    while i < n && n - i >= 4
        invariant
            n == data@.len(),
            i <= n,
            forall|k: int| 0 <= k < i && k + 4 <= n ==> #[trigger] data@.subrange(k, k + 4) != seq![13u8, 10u8, 13u8, 10u8],
        decreases n - i,
    {
        if data[i] == 13 && data[i + 1] == 10 && data[i + 2] == 13 && data[i + 3] == 10 {
            assert(data@.subrange(i as int, i + 4) =~= seq![13u8, 10u8, 13u8, 10u8]);
            return ReadStep::Done;
        }
        assert(data@.subrange(i as int, i + 4)[0] == data@[i as int]);
        assert(data@.subrange(i as int, i + 4)[1] == data@[i + 1]);
        assert(data@.subrange(i as int, i + 4)[2] == data@[i + 2]);
        assert(data@.subrange(i as int, i + 4)[3] == data@[i + 3]);
        i = i + 1;
    }
    assert(!headers_ended(data@));
    if n > MAX_CALLBACK_REQUEST_BYTES {
        ReadStep::TooLarge
    } else {
        ReadStep::Continue
    }
}

/// The callback request's text: the bytes as UTF-8.
pub fn request_text(data: &[u8]) -> (r: Result<String, String>)
    ensures
        match r {
            Ok(s) => vstd::utf8::valid_utf8(data@) && s@ == vstd::utf8::decode_utf8(data@),
            Err(m) => !vstd::utf8::valid_utf8(data@) && m@
                == "The ChatGPT sign-in callback was invalid."@,
        },
{
    match decode_utf8_bytes(data) {
        Some(s) => Ok(s),
        None => Err("The ChatGPT sign-in callback was invalid.".to_owned()),
    }
}

/// The value of the last pair named `key`, as a map built from the pairs in
/// order keeps it.
pub open spec fn last_value(pairs: Seq<(Seq<char>, Seq<char>)>, key: Seq<char>) -> Option<Seq<char>>
    decreases pairs.len(),
{
    if pairs.len() == 0 {
        None
    } else if pairs.last().0 == key {
        Some(pairs.last().1)
    } else {
        last_value(pairs.drop_last(), key)
    }
}

/// The value of the last pair named `key`.
pub fn last_pair_value(pairs: &Vec<(String, String)>, key: &str) -> (r: Option<String>)
    ensures
        opt_string_view(r) == last_value(crate::network::string_pairs(pairs@), key@),
{
    let mut i: usize = pairs.len();
    assert(pairs@.take(i as int) == pairs@);
    while i > 0
        invariant
            i <= pairs@.len(),
            last_value(crate::network::string_pairs(pairs@), key@) == last_value(
                crate::network::string_pairs(pairs@.take(i as int)),
                key@,
            ),
        decreases i,
    {
        let ghost sp = crate::network::string_pairs(pairs@.take(i as int));
        assert(sp.last() == (pairs@[i - 1].0@, pairs@[i - 1].1@));
        assert(sp.drop_last() == crate::network::string_pairs(pairs@.take(i - 1)));
        if str_eq(pairs[i - 1].0.as_str(), key) {
            return Some(pairs[i - 1].1.clone());
        }
        i = i - 1;
    }
    assert(crate::network::string_pairs(pairs@.take(0)) =~= Seq::<(Seq<char>, Seq<char>)>::empty());
    None
}

/// The characters of an optional owned string.
pub open spec fn opt_string_view(o: Option<String>) -> Option<Seq<char>> {
    crate::network::opt_string(o)
}

/// The authorization code that a sign-in callback request carries, or why it
/// is refused: it must be a `GET` of `/auth/callback` whose `state` matches
/// the expected one, with no `error` and a non-empty `code` (the last value
/// of each parameter counts).
pub open spec fn callback_code(request: Seq<char>, expected_state: Seq<char>) -> Result<Seq<char>, Seq<char>> {
    let ls = lines(request);
    if ls.len() == 0 {
        Err("The ChatGPT sign-in callback was empty."@)
    } else {
        let parts = words(ls[0]);
        if parts.len() == 0 || parts[0] != "GET"@ {
            Err("The ChatGPT sign-in callback used an unsupported method."@)
        } else if parts.len() < 2 {
            Err("The ChatGPT sign-in callback had no URL."@)
        } else {
            match parsed_url("http://localhost"@ + parts[1]) {
                None => Err("The ChatGPT sign-in callback URL was invalid."@),
                Some(u) => if u.path != "/auth/callback"@ {
                    Err("The ChatGPT sign-in callback path was invalid."@)
                } else {
                    match last_value(u.query_pairs, "state"@) {
                        None => Err("The ChatGPT sign-in callback had no state."@),
                        Some(st) => if st != expected_state {
                            Err("The ChatGPT sign-in state did not match. Start again."@)
                        } else {
                            match last_value(u.query_pairs, "error"@) {
                                Some(e) => Err("ChatGPT sign-in was not completed ("@ + e + ")."@),
                                None => match last_value(u.query_pairs, "code"@) {
                                    Some(c) => if c.len() > 0 {
                                        Ok(c)
                                    } else {
                                        Err("The ChatGPT sign-in callback had no authorization code."@)
                                    },
                                    None => Err("The ChatGPT sign-in callback had no authorization code."@),
                                },
                            }
                        },
                    }
                },
            }
        }
    }
}

/// Reads the authorization code from the browser's callback request.
pub fn parse_callback_request(request: &str, expected_state: &str) -> (r: Result<String, String>)
    ensures
        text_result(r) == callback_code(request@, expected_state@),
{
    let rc = chars_of(request);
    let ls = split_lines(&rc);
    proof {
        assert(char_seqs(ls@) == lines(request@));
    }
    if ls.len() == 0 {
        return Err("The ChatGPT sign-in callback was empty.".to_owned());
    }
    assert(char_seqs(ls@)[0] == ls@[0]@);
    let parts = split_whitespace_chars(&ls[0]);
    let get_chars = chars_of("GET");
    if parts.len() == 0 || !chars_eq(&parts[0], &get_chars) {
        proof {
            if parts@.len() > 0 {
                assert(char_seqs(parts@)[0] == parts@[0]@);
            }
        }
        return Err("The ChatGPT sign-in callback used an unsupported method.".to_owned());
    }
    assert(char_seqs(parts@)[0] == parts@[0]@);
    if parts.len() < 2 {
        return Err("The ChatGPT sign-in callback had no URL.".to_owned());
    }
    assert(char_seqs(parts@)[1] == parts@[1]@);
    let target = string_of(&parts[1]);
    let address = concat2("http://localhost", target.as_str());
    let url = match parse_url(address.as_str()) {
        Some(u) => u,
        None => return Err("The ChatGPT sign-in callback URL was invalid.".to_owned()),
    };
    if !str_eq(url.path.as_str(), "/auth/callback") {
        return Err("The ChatGPT sign-in callback path was invalid.".to_owned());
    }
    let state = match last_pair_value(&url.query_pairs, "state") {
        Some(s) => s,
        None => return Err("The ChatGPT sign-in callback had no state.".to_owned()),
    };
    if !str_eq(state.as_str(), expected_state) {
        return Err("The ChatGPT sign-in state did not match. Start again.".to_owned());
    }
    match last_pair_value(&url.query_pairs, "error") {
        Some(e) => {
            return Err(concat3("ChatGPT sign-in was not completed (", e.as_str(), ")."));
        },
        None => {},
    }
    match last_pair_value(&url.query_pairs, "code") {
        Some(c) => {
            if c.as_str().is_empty() {
                Err("The ChatGPT sign-in callback had no authorization code.".to_owned())
            } else {
                Ok(c)
            }
        },
        None => Err("The ChatGPT sign-in callback had no authorization code.".to_owned()),
    }
}

/// The message for a token whose claims cannot be read.
pub open spec fn invalid_token_message() -> Seq<char> {
    "ChatGPT returned an invalid token."@
}

/// The second `.`-separated segment of a token (`split('.').nth(1)`): the
/// claims of a JSON Web Token.
pub open spec fn claims_segment_of(token: Seq<char>) -> Option<Seq<char>> {
    match first_occurrence(token, seq!['.']) {
        None => None,
        Some(i) => {
            let rest = token.skip(i + 1);
            match first_occurrence(rest, seq!['.']) {
                Some(j) => Some(rest.take(j)),
                None => Some(rest),
            }
        },
    }
}

/// The claims segment of a token.
pub fn claims_segment(token: &str) -> (r: Option<String>)
    ensures
        opt_string_view(r) == claims_segment_of(token@),
{
    let t = chars_of(token);
    let i = match crate::text::find_char(&t, '.') {
        Some(i) => i,
        None => return None,
    };
    proof {
        crate::text::lemma_first_occurrence_is_first(t@, seq!['.']);
        assert(seq!['.'].len() == 1);
    }
    assert(i < t.len());
    let rest = crate::text::subrange_chars(&t, i + 1, t.len());
    assert(rest@ == token@.skip(i + 1));
    match crate::text::find_char(&rest, '.') {
        Some(j) => {
            proof {
                crate::text::lemma_first_occurrence_is_first(rest@, seq!['.']);
            }
            let seg = crate::text::subrange_chars(&rest, 0, j);
            assert(seg@ == rest@.take(j as int));
            Some(string_of(&seg))
        },
        None => Some(string_of(&rest)),
    }
}

/// What the URL-safe base64 engine without padding decodes a text to.
pub uninterp spec fn url_safe_no_pad_decoded(text: Seq<char>) -> Option<Seq<u8>>;

/// What the URL-safe base64 engine with padding decodes a text to.
pub uninterp spec fn url_safe_decoded(text: Seq<char>) -> Option<Seq<u8>>;

/// `base64::engine::general_purpose::URL_SAFE_NO_PAD.decode`. The contract
/// names the result; it claims nothing else of it.
#[verifier::external_body]
fn decode_url_safe_no_pad(text: &str) -> (r: Option<Vec<u8>>)
    ensures
        match r {
            Some(b) => url_safe_no_pad_decoded(text@) == Some(b@),
            None => url_safe_no_pad_decoded(text@) is None,
        },
{
    base64::Engine::decode(&base64::engine::general_purpose::URL_SAFE_NO_PAD, text).ok()
}

/// `base64::engine::general_purpose::URL_SAFE.decode`. The contract names
/// the result; it claims nothing else of it.
#[verifier::external_body]
fn decode_url_safe(text: &str) -> (r: Option<Vec<u8>>)
    ensures
        match r {
            Some(b) => url_safe_decoded(text@) == Some(b@),
            None => url_safe_decoded(text@) is None,
        },
{
    base64::Engine::decode(&base64::engine::general_purpose::URL_SAFE, text).ok()
}

/// The JSON bytes of a token's claims: its claims segment, decoded as
/// URL-safe base64 without padding or, failing that, with padding.
pub open spec fn claims_bytes_of(token: Seq<char>) -> Result<Seq<u8>, Seq<char>> {
    match claims_segment_of(token) {
        None => Err(invalid_token_message()),
        Some(seg) => match url_safe_no_pad_decoded(seg) {
            Some(b) => Ok(b),
            None => match url_safe_decoded(seg) {
                Some(b) => Ok(b),
                None => Err(invalid_token_message()),
            },
        },
    }
}

/// The JSON bytes of a token's claims.
pub fn claims_bytes(token: &str) -> (r: Result<Vec<u8>, String>)
    ensures
        match r {
            Ok(b) => claims_bytes_of(token@) == Ok::<Seq<u8>, Seq<char>>(b@),
            Err(m) => claims_bytes_of(token@) == Err::<Seq<u8>, Seq<char>>(m@),
        },
{
    let seg = match claims_segment(token) {
        Some(s) => s,
        None => return Err("ChatGPT returned an invalid token.".to_owned()),
    };
    match decode_url_safe_no_pad(seg.as_str()) {
        Some(b) => Ok(b),
        None => match decode_url_safe(seg.as_str()) {
            Some(b) => Ok(b),
            None => Err("ChatGPT returned an invalid token.".to_owned()),
        },
    }
}

/// The account ID that a token's claims hold: the non-empty string at
/// `https://api.openai.com/auth` / `chatgpt_account_id`. `None` stands for
/// claims that could not be read.
pub open spec fn account_id_of(claims: Option<JsonValue>) -> Result<Seq<char>, Seq<char>> {
    match claims {
        None => Err(invalid_token_message()),
        Some(v) => match opt_str(json_path(v, seq![ACCOUNT_CLAIM_CONTAINER@, ACCOUNT_CLAIM@])) {
            Some(a) => if a.len() > 0 {
                Ok(a)
            } else {
                Err("The ChatGPT account ID was missing from the token."@)
            },
            None => Err("The ChatGPT account ID was missing from the token."@),
        },
    }
}

/// The expiry, in milliseconds, that a token's claims hold: a positive `exp`
/// in seconds whose value in milliseconds fits in `i64`.
pub open spec fn expiry_ms_of(claims: Option<JsonValue>) -> Result<i64, Seq<char>> {
    match claims {
        None => Err(invalid_token_message()),
        Some(v) => {
            let exp = match json_get(v, "exp"@) {
                Some(e) => json_i64(e),
                None => None,
            };
            match exp {
                Some(x) => if x > 0 && x * 1000 <= i64::MAX {
                    Ok((x * 1000) as i64)
                } else {
                    Err("The ChatGPT token had no valid expiration time."@)
                },
                None => Err("The ChatGPT token had no valid expiration time."@),
            }
        },
    }
}

/// The account ID of a token's claims.
pub fn account_id_from_claims(claims: Option<&JsonValue>) -> (r: Result<String, String>)
    ensures
        text_result(r) == account_id_of(match claims {
            Some(v) => Some(*v),
            None => None,
        }),
{
    proof {
        let path = seq![ACCOUNT_CLAIM_CONTAINER@, ACCOUNT_CLAIM@];
        assert(path.drop_first() =~= seq![ACCOUNT_CLAIM@]);
        assert(path.drop_first().drop_first() =~= Seq::<Seq<char>>::empty());
        reveal_with_fuel(json_path, 3);
    }
    let v = match claims {
        Some(v) => v,
        None => return Err("ChatGPT returned an invalid token.".to_owned()),
    };
    let inner = match get(v, ACCOUNT_CLAIM_CONTAINER) {
        Some(i) => i,
        None => return Err("The ChatGPT account ID was missing from the token.".to_owned()),
    };
    let id = match get(inner, ACCOUNT_CLAIM) {
        Some(i) => i,
        None => return Err("The ChatGPT account ID was missing from the token.".to_owned()),
    };
    match as_str(id) {
        Some(s) => if s.as_str().is_empty() {
            Err("The ChatGPT account ID was missing from the token.".to_owned())
        } else {
            Ok(s.clone())
        },
        None => Err("The ChatGPT account ID was missing from the token.".to_owned()),
    }
}

/// The expiry, in milliseconds, of a token's claims.
pub fn expiry_ms_from_claims(claims: Option<&JsonValue>) -> (r: Result<i64, String>)
    ensures
        match r {
            Ok(x) => expiry_ms_of(match claims {
                Some(v) => Some(*v),
                None => None,
            }) == Ok::<i64, Seq<char>>(x),
            Err(m) => expiry_ms_of(match claims {
                Some(v) => Some(*v),
                None => None,
            }) == Err::<i64, Seq<char>>(m@),
        },
{
    let v = match claims {
        Some(v) => v,
        None => return Err("ChatGPT returned an invalid token.".to_owned()),
    };
    let exp = match get(v, "exp") {
        Some(e) => as_i64(e),
        None => None,
    };
    match exp {
        Some(x) => if x > 0 {
            match x.checked_mul(1000) {
                Some(ms) => Ok(ms),
                None => Err("The ChatGPT token had no valid expiration time.".to_owned()),
            }
        } else {
            Err("The ChatGPT token had no valid expiration time.".to_owned())
        },
        None => Err("The ChatGPT token had no valid expiration time.".to_owned()),
    }
}

/// The token response to an authorization-code exchange.
#[derive(Debug)]
pub struct TokenExchangePayload {
    pub id_token: String,
    pub access_token: String,
    pub refresh_token: String,
}

/// The token response to a refresh; each token may be left out.
#[derive(Debug)]
pub struct TokenRefreshPayload {
    pub id_token: Option<String>,
    pub access_token: Option<String>,
    pub refresh_token: Option<String>,
}

/// The claims of a token as the library reads them: `None` when they could
/// not be decoded.
pub open spec fn deref_claims(claims: Option<&JsonValue>) -> Option<JsonValue> {
    match claims {
        Some(v) => Some(*v),
        None => None,
    }
}

/// The sign-in an exchange gives: all three tokens must be non-empty; the
/// account ID comes from the ID token's claims or else the access token's,
/// the expiry from the access token's claims or else the ID token's.
pub open spec fn exchanged_token(
    id_token: Seq<char>,
    access_token: Seq<char>,
    refresh_token: Seq<char>,
    id_claims: Option<JsonValue>,
    access_claims: Option<JsonValue>,
) -> Result<OAuthTokenView, Seq<char>> {
    if id_token.len() == 0 || access_token.len() == 0 || refresh_token.len() == 0 {
        Err("ChatGPT returned an incomplete token response."@)
    } else {
        let account = match account_id_of(id_claims) {
            Ok(a) => Ok(a),
            Err(_) => account_id_of(access_claims),
        };
        let expiry = match expiry_ms_of(access_claims) {
            Ok(x) => Ok(x),
            Err(_) => expiry_ms_of(id_claims),
        };
        match account {
            Err(m) => Err(m),
            Ok(a) => match expiry {
                Err(m) => Err(m),
                Ok(x) => Ok(
                    OAuthTokenView {
                        access_token,
                        refresh_token,
                        expires_at_ms: x,
                        account_id: a,
                    },
                ),
            },
        }
    }
}

/// The view of a token result.
pub open spec fn token_result(r: Result<OAuthToken, String>) -> Result<OAuthTokenView, Seq<char>> {
    match r {
        Ok(t) => Ok(t@),
        Err(m) => Err(m@),
    }
}

/// The sign-in that an authorization-code exchange gives, from the response
/// and the claims of its ID token and of its access token.
pub fn token_from_exchange(
    payload: TokenExchangePayload,
    id_claims: Option<&JsonValue>,
    access_claims: Option<&JsonValue>,
) -> (r: Result<OAuthToken, String>)
    ensures
        token_result(r) == exchanged_token(
            payload.id_token@,
            payload.access_token@,
            payload.refresh_token@,
            deref_claims(id_claims),
            deref_claims(access_claims),
        ),
{
    if payload.id_token.as_str().is_empty() || payload.access_token.as_str().is_empty()
        || payload.refresh_token.as_str().is_empty() {
        return Err("ChatGPT returned an incomplete token response.".to_owned());
    }
    let account_id = match account_id_from_claims(id_claims) {
        Ok(a) => a,
        Err(_) => match account_id_from_claims(access_claims) {
            Ok(a) => a,
            Err(m) => return Err(m),
        },
    };
    let expires_at_ms = match expiry_ms_from_claims(access_claims) {
        Ok(x) => x,
        Err(_) => match expiry_ms_from_claims(id_claims) {
            Ok(x) => x,
            Err(m) => return Err(m),
        },
    };
    Ok(OAuthToken {
        access_token: payload.access_token,
        refresh_token: payload.refresh_token,
        expires_at_ms,
        account_id,
    })
}

/// A refreshed token when the response holds a non-empty one, else the old.
pub open spec fn kept_or_new(new: Option<Seq<char>>, old: Seq<char>) -> Seq<char> {
    match new {
        Some(t) => if t.len() > 0 {
            t
        } else {
            old
        },
        None => old,
    }
}

/// The access token that a refresh leaves in use.
pub fn refreshed_access_token(payload: &TokenRefreshPayload, old: &OAuthToken) -> (r: String)
    ensures
        r@ == kept_or_new(opt_string_view(payload.access_token), old.access_token@),
{
    match &payload.access_token {
        Some(t) => if t.as_str().is_empty() {
            old.access_token.clone()
        } else {
            t.clone()
        },
        None => old.access_token.clone(),
    }
}

/// The sign-in that a refresh gives: each token the response leaves out or
/// empty stays as it was; the account ID comes from the new ID token's claims,
/// else the access token's, else stays; the expiry must come from the access
/// token's claims.
pub open spec fn refreshed_token(
    id_token: Option<Seq<char>>,
    access_token: Option<Seq<char>>,
    refresh_token: Option<Seq<char>>,
    old: OAuthTokenView,
    id_claims: Option<JsonValue>,
    access_claims: Option<JsonValue>,
) -> Result<OAuthTokenView, Seq<char>> {
    let account = if id_token is Some && account_id_of(id_claims) is Ok {
        account_id_of(id_claims)->Ok_0
    } else if account_id_of(access_claims) is Ok {
        account_id_of(access_claims)->Ok_0
    } else {
        old.account_id
    };
    match expiry_ms_of(access_claims) {
        Err(m) => Err(m),
        Ok(x) => Ok(
            OAuthTokenView {
                access_token: kept_or_new(access_token, old.access_token),
                refresh_token: kept_or_new(refresh_token, old.refresh_token),
                expires_at_ms: x,
                account_id: account,
            },
        ),
    }
}

/// The sign-in that a refresh gives, from the response, the old sign-in, the
/// claims of the response's ID token (consulted only when it has one) and
/// the claims of the access token left in use.
pub fn token_from_refresh(
    payload: TokenRefreshPayload,
    old: &OAuthToken,
    id_claims: Option<&JsonValue>,
    access_claims: Option<&JsonValue>,
) -> (r: Result<OAuthToken, String>)
    ensures
        token_result(r) == refreshed_token(
            opt_string_view(payload.id_token),
            opt_string_view(payload.access_token),
            opt_string_view(payload.refresh_token),
            old@,
            deref_claims(id_claims),
            deref_claims(access_claims),
        ),
{
    let access_token = refreshed_access_token(&payload, old);
    let refresh_token = match payload.refresh_token {
        Some(t) => if t.as_str().is_empty() {
            old.refresh_token.clone()
        } else {
            t
        },
        None => old.refresh_token.clone(),
    };
    let from_id = if payload.id_token.is_some() {
        match account_id_from_claims(id_claims) {
            Ok(a) => Some(a),
            Err(_) => None,
        }
    } else {
        None
    };
    let account_id = match from_id {
        Some(a) => a,
        None => match account_id_from_claims(access_claims) {
            Ok(a) => a,
            Err(_) => old.account_id.clone(),
        },
    };
    let expires_at_ms = match expiry_ms_from_claims(access_claims) {
        Ok(x) => x,
        Err(m) => return Err(m),
    };
    Ok(OAuthToken { access_token, refresh_token, expires_at_ms, account_id })
}

/// Is the saved token used without a refresh? Only when no refresh is forced
/// and it expires more than a minute from now.
pub open spec fn token_still_fresh(expires_at_ms: i64, now_ms: i64, force_refresh: bool) -> bool {
    !force_refresh && expires_at_ms - now_ms > MIN_TOKEN_TTL_MS
}

/// Is the saved token used without a refresh?
pub fn token_is_fresh(expires_at_ms: i64, now_ms: i64, force_refresh: bool) -> (r: bool)
    ensures
        r == token_still_fresh(expires_at_ms, now_ms, force_refresh),
{
    !force_refresh && (expires_at_ms as i128) - (now_ms as i128) > MIN_TOKEN_TTL_MS as i128
}

/// The sign-in in use after a refresh attempt: the refreshed one; when the
/// refresh failed, the old one if it has not expired and no refresh was
/// forced, else the refresh's error.
pub fn after_refresh(refreshed: Result<OAuthToken, String>, old: OAuthToken, now_ms: i64, force_refresh: bool) -> (r:
    Result<OAuthToken, String>)
    ensures
        match refreshed {
            Ok(t) => token_result(r) == Ok::<OAuthTokenView, Seq<char>>(t@),
            Err(m) => if !force_refresh && old.expires_at_ms > now_ms {
                token_result(r) == Ok::<OAuthTokenView, Seq<char>>(old@)
            } else {
                token_result(r) == Err::<OAuthTokenView, Seq<char>>(m@)
            },
        },
{
    match refreshed {
        Ok(t) => Ok(t),
        Err(m) => if !force_refresh && old.expires_at_ms > now_ms {
            Ok(old)
        } else {
            Err(m)
        },
    }
}

/// The form of the authorization-code exchange.
pub fn exchange_form(code: &str, verifier: &str) -> (r: Vec<(String, String)>)
    ensures
        crate::network::string_pairs(r@) == seq![
            ("grant_type"@, "authorization_code"@),
            ("client_id"@, CLIENT_ID@),
            ("code"@, code@),
            ("code_verifier"@, verifier@),
            ("redirect_uri"@, REDIRECT_URI@),
        ],
{
    let mut r: Vec<(String, String)> = Vec::new();
    r.push(("grant_type".to_owned(), "authorization_code".to_owned()));
    r.push(("client_id".to_owned(), CLIENT_ID.to_owned()));
    r.push(("code".to_owned(), code.to_owned()));
    r.push(("code_verifier".to_owned(), verifier.to_owned()));
    r.push(("redirect_uri".to_owned(), REDIRECT_URI.to_owned()));
    assert(crate::network::string_pairs(r@) =~= seq![
        ("grant_type"@, "authorization_code"@),
        ("client_id"@, CLIENT_ID@),
        ("code"@, code@),
        ("code_verifier"@, verifier@),
        ("redirect_uri"@, REDIRECT_URI@),
    ]);
    r
}

/// A JSON string value.
fn json_text(s: &str) -> (r: JsonValue)
    ensures
        json_str(r) == Some(s@),
{
    JsonValue::String(s.to_owned())
}

/// The JSON body of a token refresh: `grant_type`, `refresh_token` and
/// `client_id`.
pub fn refresh_request_body(old: &OAuthToken) -> (r: JsonValue)
    ensures
        r matches JsonValue::Object(entries) && entries@.len() == 3
            && entries@[0].0@ == "grant_type"@ && json_str(entries@[0].1) == Some("refresh_token"@)
            && entries@[1].0@ == "refresh_token"@ && json_str(entries@[1].1) == Some(old.refresh_token@)
            && entries@[2].0@ == "client_id"@ && json_str(entries@[2].1) == Some(CLIENT_ID@),
{
    let mut entries: Vec<(String, JsonValue)> = Vec::new();
    entries.push(("grant_type".to_owned(), json_text("refresh_token")));
    entries.push(("refresh_token".to_owned(), json_text(old.refresh_token.as_str())));
    entries.push(("client_id".to_owned(), json_text(CLIENT_ID)));
    JsonValue::Object(entries)
}

/// The message for a token request that the server refused.
pub open spec fn token_http_error_text(refresh: bool, status: u16, detail: Option<Seq<char>>) -> Seq<char> {
    let d = match detail {
        Some(m) => ": "@ + m,
        None => seq![],
    };
    if refresh {
        "ChatGPT token refresh failed with HTTP "@ + decimal(status as nat) + d + ". Sign in again."@
    } else {
        "ChatGPT token exchange failed with HTTP "@ + decimal(status as nat) + d + "."@
    }
}

/// The message for a refused exchange (or, with `refresh`, a refused
/// refresh), with the server's detail when it gave one.
pub fn token_http_error(refresh: bool, status: u16, detail: Option<&str>) -> (r: String)
    ensures
        r@ == token_http_error_text(refresh, status, opt_chars(detail)),
{
    let mut r = if refresh {
        "ChatGPT token refresh failed with HTTP ".to_owned()
    } else {
        "ChatGPT token exchange failed with HTTP ".to_owned()
    };
    crate::text::append_str(&mut r, decimal_string(status as u64).as_str());
    match detail {
        Some(m) => {
            crate::text::append_str(&mut r, ": ");
            crate::text::append_str(&mut r, m);
        },
        None => {},
    }
    if refresh {
        crate::text::append_str(&mut r, ". Sign in again.");
    } else {
        crate::text::append_str(&mut r, ".");
    }
    r
}

/// `char::is_control`: the Unicode control characters (general category
/// `Cc`).
pub open spec fn is_control_char(c: char) -> bool {
    (c as u32) <= 0x1F || (0x7F <= (c as u32) && (c as u32) <= 0x9F)
}

/// The text without its control characters.
pub open spec fn without_controls(s: Seq<char>) -> Seq<char>
    decreases s.len(),
{
    if s.len() == 0 {
        seq![]
    } else if is_control_char(s.last()) {
        without_controls(s.drop_last())
    } else {
        without_controls(s.drop_last()).push(s.last())
    }
}

/// A server's error message as shown: control characters removed, at most
/// 240 characters, nothing when empty.
pub open spec fn cleaned_detail(message: Seq<char>) -> Option<Seq<char>> {
    let c = take_chars(without_controls(message), 240);
    if c.len() > 0 {
        Some(c)
    } else {
        None
    }
}

/// Cleans a server's error message for display.
pub fn clean_error_detail(message: &str) -> (r: Option<String>)
    ensures
        opt_string_view(r) == cleaned_detail(message@),
{
    let m = chars_of(message);
    let mut kept: Vec<char> = Vec::new();
    let mut i: usize = 0;
    while i < m.len()
        invariant
            i <= m@.len(),
            kept@ == without_controls(m@.take(i as int)),
        decreases m@.len() - i,
    {
        let c = m[i];
        assert(m@.take(i + 1).drop_last() == m@.take(i as int));
        let u = c as u32;
        if !(u <= 0x1F || (0x7F <= u && u <= 0x9F)) {
            kept.push(c);
        }
        i = i + 1;
    }
    assert(m@.take(m@.len() as int) == m@);
    let mut out: Vec<char> = Vec::new();
    let mut k: usize = 0;
    while k < kept.len() && k < 240
        invariant
            k <= kept@.len(),
            k <= 240,
            out@ == kept@.take(k as int),
        decreases kept@.len() - k,
    {
        out.push(kept[k]);
        k = k + 1;
        assert(kept@.take(k as int) == kept@.take(k - 1 as int).push(kept@[k - 1]));
    }
    if k == kept.len() {
        assert(kept@.take(k as int) == kept@);
    }
    if out.len() > 0 {
        Some(string_of(&out))
    } else {
        None
    }
}

/// The error message that a token endpoint's JSON body carries:
/// `error.message`, else `error_description`, else `error`, each only when it
/// is a string.
pub open spec fn body_error_message(body: JsonValue) -> Option<Seq<char>> {
    match opt_str(json_path(body, seq!["error"@, "message"@])) {
        Some(m) => Some(m),
        None => match crate::json::json_get_str(body, "error_description"@) {
            Some(m) => Some(m),
            None => crate::json::json_get_str(body, "error"@),
        },
    }
}

/// The detail shown for a refused token request, from its body when that is
/// JSON.
pub fn oauth_error_detail(body: Option<&JsonValue>) -> (r: Option<String>)
    ensures
        opt_string_view(r) == match deref_claims(body) {
            Some(v) => match body_error_message(v) {
                Some(m) => cleaned_detail(m),
                None => None,
            },
            None => None,
        },
{
    let v = match body {
        Some(v) => v,
        None => return None,
    };
    proof {
        let path = seq!["error"@, "message"@];
        assert(path.drop_first() =~= seq!["message"@]);
        assert(path.drop_first().drop_first() =~= Seq::<Seq<char>>::empty());
        reveal_with_fuel(json_path, 3);
    }
    let nested = match get(v, "error") {
        Some(e) => match get(e, "message") {
            Some(m) => as_str(m),
            None => None,
        },
        None => None,
    };
    let message = match nested {
        Some(m) => m,
        None => match crate::json::get_str(v, "error_description") {
            Some(m) => m,
            None => match crate::json::get_str(v, "error") {
                Some(m) => m,
                None => return None,
            },
        },
    };
    clean_error_detail(message.as_str())
}

/// The SHA-256 digest of the bytes.
pub uninterp spec fn sha256_digest(bytes: Seq<u8>) -> Seq<u8>;

/// `sha2::Sha256::digest`: the SHA-256 digest, which is 32 bytes long. The
/// contract names the digest and states its length.
#[verifier::external_body]
fn sha256(bytes: &[u8]) -> (r: Vec<u8>)
    ensures
        r@ == sha256_digest(bytes@),
        r@.len() == 32,
{
    <sha2::Sha256 as sha2::Digest>::digest(bytes).to_vec()
}

/// The URL-safe base64 text, without padding, of the bytes.
pub uninterp spec fn url_safe_no_pad_encoded(bytes: Seq<u8>) -> Seq<char>;

/// `base64::engine::general_purpose::URL_SAFE_NO_PAD.encode`. The contract
/// names the text; it claims nothing else of it.
#[verifier::external_body]
fn encode_url_safe_no_pad(bytes: &[u8]) -> (r: String)
    ensures
        r@ == url_safe_no_pad_encoded(bytes@),
{
    base64::Engine::encode(&base64::engine::general_purpose::URL_SAFE_NO_PAD, bytes)
}

/// `rand::rng().fill_bytes`: `n` random bytes. Nothing is claimed of their
/// values, which come from the thread's random generator.
#[verifier::external_body]
fn random_bytes(n: usize) -> (r: Vec<u8>)
    ensures
        r@.len() == n,
{
    let mut bytes = vec![0u8; n];
    rand::RngCore::fill_bytes(&mut rand::rng(), &mut bytes);
    bytes
}

/// The PKCE challenge of a verifier: the URL-safe base64 text, without
/// padding, of the SHA-256 digest of its UTF-8 bytes.
pub open spec fn challenge_of(verifier: Seq<char>) -> Seq<char> {
    url_safe_no_pad_encoded(sha256_digest(vstd::utf8::encode_utf8(verifier)))
}

/// The PKCE challenge of a verifier.
pub fn pkce_challenge(verifier: &str) -> (r: String)
    ensures
        r@ == challenge_of(verifier@),
{
    let digest = sha256(verifier.as_bytes());
    encode_url_safe_no_pad(&digest)
}

/// A random URL-safe text: `byte_count` random bytes in URL-safe base64
/// without padding.
pub fn random_urlsafe(byte_count: usize) -> (r: String)
    ensures
        exists|b: Seq<u8>| b.len() == byte_count && r@ == url_safe_no_pad_encoded(b),
{
    let bytes = random_bytes(byte_count);
    let r = encode_url_safe_no_pad(&bytes);
    assert(bytes@.len() == byte_count && r@ == url_safe_no_pad_encoded(bytes@));
    r
}

/// The URL that the url crate serialises for `base` with the pairs appended
/// to its query, when `base` parses.
pub uninterp spec fn url_with_query(base: Seq<char>, pairs: Seq<(Seq<char>, Seq<char>)>) -> Option<Seq<char>>;

/// `url::Url::parse` of `base`, then `query_pairs_mut().append_pair` for each
/// pair in order, then the serialised URL. The contract names the result; it
/// claims nothing else of it.
#[verifier::external_body]
fn append_query_pairs(base: &str, pairs: &Vec<(String, String)>) -> (r: Option<String>)
    ensures
        match r {
            Some(u) => url_with_query(base@, crate::network::string_pairs(pairs@)) == Some(u@),
            None => url_with_query(base@, crate::network::string_pairs(pairs@)) is None,
        },
{
    let mut url = url::Url::parse(base).ok()?;
    {
        let mut query = url.query_pairs_mut();
        for (name, value) in pairs {
            query.append_pair(name, value);
        }
    }
    Some(url.into())
}

/// The query of the authorization page.
pub open spec fn authorization_pairs(challenge: Seq<char>, state: Seq<char>) -> Seq<(Seq<char>, Seq<char>)> {
    seq![
        ("response_type"@, "code"@),
        ("client_id"@, CLIENT_ID@),
        ("redirect_uri"@, REDIRECT_URI@),
        ("scope"@, SCOPE@),
        ("code_challenge"@, challenge),
        ("code_challenge_method"@, "S256"@),
        ("state"@, state),
        ("id_token_add_organizations"@, "true"@),
        ("codex_cli_simplified_flow"@, "true"@),
        ("originator"@, "gloss"@),
    ]
}

/// The query of the authorization page for a challenge and a state.
pub fn authorization_query(challenge: &str, state: &str) -> (r: Vec<(String, String)>)
    ensures
        crate::network::string_pairs(r@) == authorization_pairs(challenge@, state@),
{
    let mut r: Vec<(String, String)> = Vec::new();
    r.push(("response_type".to_owned(), "code".to_owned()));
    r.push(("client_id".to_owned(), CLIENT_ID.to_owned()));
    r.push(("redirect_uri".to_owned(), REDIRECT_URI.to_owned()));
    r.push(("scope".to_owned(), SCOPE.to_owned()));
    r.push(("code_challenge".to_owned(), challenge.to_owned()));
    r.push(("code_challenge_method".to_owned(), "S256".to_owned()));
    r.push(("state".to_owned(), state.to_owned()));
    r.push(("id_token_add_organizations".to_owned(), "true".to_owned()));
    r.push(("codex_cli_simplified_flow".to_owned(), "true".to_owned()));
    r.push(("originator".to_owned(), "gloss".to_owned()));
    assert(crate::network::string_pairs(r@) =~= authorization_pairs(challenge@, state@));
    r
}

/// What a sign-in needs before the browser opens: the PKCE verifier, the
/// state that the callback must carry, and the authorization page.
#[derive(Debug)]
pub struct LoginRequest {
    pub verifier: String,
    pub state: String,
    pub start: AuthStart,
}

/// The authorization page for a PKCE challenge and a state.
pub fn authorization_start(challenge: &str, state: &str) -> (r: Result<AuthStart, String>)
    ensures
        match r {
            Ok(s) => url_with_query(AUTHORIZE_URL@, authorization_pairs(challenge@, state@)) == Some(
                s.authorization_url@,
            ),
            Err(m) => url_with_query(AUTHORIZE_URL@, authorization_pairs(challenge@, state@)) is None
                && m@ == "The sign-in URL is invalid."@,
        },
{
    let query = authorization_query(challenge, state);
    match append_query_pairs(AUTHORIZE_URL, &query) {
        Some(u) => Ok(AuthStart { authorization_url: u }),
        None => Err("The sign-in URL is invalid.".to_owned()),
    }
}

/// Prepares a sign-in: a random verifier of 32 bytes and a random state of
/// 16 bytes, each in URL-safe base64, and the authorization page for the
/// verifier's challenge and the state.
pub fn prepare_login() -> (r: Result<LoginRequest, String>)
    ensures
        match r {
            Ok(l) => {
                &&& exists|b: Seq<u8>| b.len() == 32 && l.verifier@ == url_safe_no_pad_encoded(b)
                &&& exists|b: Seq<u8>| b.len() == 16 && l.state@ == url_safe_no_pad_encoded(b)
                &&& url_with_query(
                    AUTHORIZE_URL@,
                    authorization_pairs(challenge_of(l.verifier@), l.state@),
                ) == Some(l.start.authorization_url@)
            },
            Err(m) => {
                &&& m@ == "The sign-in URL is invalid."@
                &&& exists|v: Seq<char>, s: Seq<char>|
                    {
                        &&& exists|b: Seq<u8>| b.len() == 32 && v == url_safe_no_pad_encoded(b)
                        &&& exists|b: Seq<u8>| b.len() == 16 && s == url_safe_no_pad_encoded(b)
                        &&& url_with_query(AUTHORIZE_URL@, authorization_pairs(challenge_of(v), s))
                            is None
                    }
            },
        },
{
    let verifier = random_urlsafe(32);
    let challenge = pkce_challenge(verifier.as_str());
    let state = random_urlsafe(16);
    match authorization_start(challenge.as_str(), state.as_str()) {
        Ok(start) => Ok(LoginRequest { verifier, state, start }),
        Err(m) => {
            assert(url_with_query(
                AUTHORIZE_URL@,
                authorization_pairs(challenge_of(verifier@), state@),
            ) is None);
            Err(m)
        },
    }
}

/// A sign-in callback is only accepted when its last `state` is the
/// expected one and it carries no `error`; the code returned is its last,
/// non-empty `code`.
pub proof fn lemma_callback_needs_matching_state(request: Seq<char>, expected_state: Seq<char>)
    requires
        callback_code(request, expected_state) is Ok,
    ensures
        ({
            let ls = lines(request);
            let parts = words(ls[0]);
            &&& ls.len() > 0
            &&& parts.len() >= 2 && parts[0] == "GET"@
            &&& parsed_url("http://localhost"@ + parts[1]) matches Some(u) && u.path
                == "/auth/callback"@ && last_value(u.query_pairs, "state"@) == Some(expected_state)
                && last_value(u.query_pairs, "error"@) is None && last_value(u.query_pairs, "code"@)
                == Some(callback_code(request, expected_state)->Ok_0)
            &&& callback_code(request, expected_state)->Ok_0.len() > 0
        }),
{
}

/// The detail shown of a server's error message is at most 240 characters
/// long and holds no control character.
pub proof fn lemma_cleaned_detail_bounds(message: Seq<char>)
    requires
        cleaned_detail(message) is Some,
    ensures
        0 < cleaned_detail(message)->0.len() <= 240,
        forall|i: int|
            0 <= i < cleaned_detail(message)->0.len() ==> !is_control_char(
                #[trigger] cleaned_detail(message)->0[i],
            ),
{
    lemma_without_controls(message);
}

proof fn lemma_without_controls(s: Seq<char>)
    ensures
        forall|i: int| 0 <= i < without_controls(s).len() ==> !is_control_char(#[trigger] without_controls(s)[i]),
    decreases s.len(),
{
    if s.len() > 0 {
        lemma_without_controls(s.drop_last());
        let prev = without_controls(s.drop_last());
        if !is_control_char(s.last()) {
            assert forall|i: int| 0 <= i < without_controls(s).len() implies !is_control_char(
                #[trigger] without_controls(s)[i],
            ) by {
                if i < prev.len() {
                    assert(without_controls(s)[i] == prev[i]);
                }
            }
        }
    }
}

/// The escaped message holds no `<` and no `>`: a message cannot add markup
/// to the failure page.
pub proof fn lemma_escaped_message_has_no_markup(message: Seq<char>)
    ensures
        crate::text::lacks(escape_html(message), '<'),
        crate::text::lacks(escape_html(message), '>'),
{
    reveal_strlit("<");
    reveal_strlit(">");
    reveal_strlit("&lt;");
    reveal_strlit("&gt;");
    let a = replace(message, "&"@, "&amp;"@);
    let b = replace(a, "<"@, "&lt;"@);
    assert("<"@ == seq!['<']);
    assert(">"@ == seq!['>']);
    crate::text::lemma_replace_removes(a, '<', "&lt;"@);
    crate::text::lemma_replace_removes(b, '>', "&gt;"@);
    crate::text::lemma_replace_keeps_lacking(b, ">"@, "&gt;"@, '<');
}

/// A refresh rotates the tokens it is given: when the response carries a
/// non-empty refresh token (or access token), the refreshed sign-in holds
/// that token; only an absent or empty one keeps the old. The expiry always
/// comes from the access token's claims.
pub proof fn lemma_refresh_rotates_tokens(
    id_token: Option<Seq<char>>,
    access_token: Option<Seq<char>>,
    refresh_token: Option<Seq<char>>,
    old: OAuthTokenView,
    id_claims: Option<JsonValue>,
    access_claims: Option<JsonValue>,
)
    requires
        refreshed_token(id_token, access_token, refresh_token, old, id_claims, access_claims) is Ok,
    ensures
        ({
            let t = refreshed_token(id_token, access_token, refresh_token, old, id_claims, access_claims)->Ok_0;
            &&& (refresh_token matches Some(r) && r.len() > 0) ==> t.refresh_token == refresh_token->0
            &&& (refresh_token is None || refresh_token == Some(Seq::<char>::empty()))
                ==> t.refresh_token == old.refresh_token
            &&& (access_token matches Some(a) && a.len() > 0) ==> t.access_token == access_token->0
            &&& (access_token is None || access_token == Some(Seq::<char>::empty()))
                ==> t.access_token == old.access_token
            &&& expiry_ms_of(access_claims) == Ok::<i64, Seq<char>>(t.expires_at_ms)
        }),
{
}

} // verus!
