//! birbir.uz client: token handling, session cookies and feed paging.
use vstd::prelude::*;
use crate::json::{json_parse, parse_json, JsonValue};
use crate::text::{
    chars_of, char_pos, contains_char, eq_ignore_ascii_case, find_char, has_prefix, lines,
    lines_of, lower, lower_chars, split, split_chars, starts_with, string_of, take_chars,
    trim, trim_chars, skip_chars,
};

verus! {

// ── Base64 (standard and URL-safe alphabets, padding ignored) ──────────

/// The 6-bit value of a base64 character; `+`/`-` and `/`/`_` are both accepted.
pub open spec fn b64_sextet(c: char) -> Option<u8> {
    let n = c as u32;
    if 65 <= n && n <= 90 {
        Some((n - 65) as u8)
    } else if 97 <= n && n <= 122 {
        Some((n - 97 + 26) as u8)
    } else if 48 <= n && n <= 57 {
        Some((n - 48 + 52) as u8)
    } else if c == '+' || c == '-' {
        Some(62u8)
    } else if c == '/' || c == '_' {
        Some(63u8)
    } else {
        None
    }
}

/// The 6-bit values of a text with every `=` dropped; `None` when any other
/// character is outside the alphabet.
pub open spec fn b64_values(s: Seq<char>) -> Option<Seq<u8>>
    decreases s.len(),
{
    if s.len() == 0 {
        Some(Seq::empty())
    } else {
        match b64_values(s.drop_last()) {
            None => None,
            Some(prefix) => if s.last() == '=' {
                Some(prefix)
            } else {
                match b64_sextet(s.last()) {
                    Some(v) => Some(prefix.push(v)),
                    None => None,
                }
            },
        }
    }
}

/// Byte `k` of the bit stream formed by 6-bit values: each group of four
/// values gives three bytes.
pub open spec fn b64_byte(v: Seq<u8>, k: int) -> u8 {
    let g = k / 3;
    let r = k % 3;
    if r == 0 {
        (v[4 * g] * 4 + v[4 * g + 1] / 16) as u8
    } else if r == 1 {
        ((v[4 * g + 1] % 16) * 16 + v[4 * g + 2] / 4) as u8
    } else {
        ((v[4 * g + 2] % 4) * 64 + v[4 * g + 3]) as u8
    }
}

/// All whole bytes of the bit stream formed by 6-bit values; trailing bits
/// that do not fill a byte are dropped.
pub open spec fn b64_bytes(v: Seq<u8>) -> Seq<u8> {
    Seq::new(((6 * v.len()) / 8) as nat, |k: int| b64_byte(v, k))
}

/// What `simple_b64_decode` gives for a text.
pub open spec fn b64_decoded(s: Seq<char>) -> Option<Seq<u8>> {
    match b64_values(s) {
        Some(v) => Some(b64_bytes(v)),
        None => None,
    }
}

proof fn lemma_b64_values_none_extends(s: Seq<char>, i: int)
    requires
        0 <= i <= s.len(),
        b64_values(s.take(i)) is None,
    ensures
        b64_values(s) is None,
    decreases s.len() - i,
{
    if i == s.len() {
        assert(s.take(i) =~= s);
    } else {
        assert(s.take(i + 1).drop_last() =~= s.take(i));
        lemma_b64_values_none_extends(s, i + 1);
    }
}

fn b64_sextet_exec(c: char) -> (r: Option<u8>)
    ensures
        r == b64_sextet(c),
{
    let n = c as u32;
    if 65 <= n && n <= 90 {
        Some((n - 65) as u8)
    } else if 97 <= n && n <= 122 {
        Some((n - 97 + 26) as u8)
    } else if 48 <= n && n <= 57 {
        Some((n - 48 + 52) as u8)
    } else if c == '+' || c == '-' {
        Some(62u8)
    } else if c == '/' || c == '_' {
        Some(63u8)
    } else {
        None
    }
}

/// Minimal base64 decode (standard alphabet, handles padding).
pub fn simple_b64_decode(input: &str) -> (r: Option<Vec<u8>>)
    ensures
        match r {
            Some(bytes) => b64_decoded(input@) == Some(bytes@),
            None => b64_decoded(input@) is None,
        },
{
    let chars = chars_of(input);
    let mut vals: Vec<u8> = Vec::new();
    let mut i: usize = 0;
    assert(chars@.take(0) =~= Seq::<char>::empty());
    while i < chars.len()
        invariant
            0 <= i <= chars@.len(),
            chars@ == input@,
            b64_values(chars@.take(i as int)) == Some(vals@),
            forall|j: int| 0 <= j < vals@.len() ==> vals@[j] < 64,
        decreases chars@.len() - i,
    {
        let c = chars[i];
        assert(chars@.take(i + 1).drop_last() =~= chars@.take(i as int));
        assert(chars@.take(i + 1).last() == c);
        if c != '=' {
            match b64_sextet_exec(c) {
                Some(v) => {
                    vals.push(v);
                },
                None => {
                    proof {
                        lemma_b64_values_none_extends(chars@, i + 1);
                    }
                    return None;
                },
            }
        }
        i = i + 1;
    }
    assert(chars@.take(chars@.len() as int) =~= chars@);

    let mut out: Vec<u8> = Vec::new();
    let mut buf: u32 = 0;
    let mut bits: u8 = 0;
    let mut j: usize = 0;
    while j < vals.len()
        invariant
            0 <= j <= vals@.len(),
            forall|m: int| 0 <= m < vals@.len() ==> vals@[m] < 64,
            bits as int == (6 * j) % 8,
            out@.len() == (6 * j) / 8,
            forall|k: int| 0 <= k < out@.len() ==> out@[k] == b64_byte(vals@, k),
            j % 4 == 0 ==> buf == 0,
            j % 4 == 1 ==> buf == vals@[j - 1],
            j % 4 == 2 ==> buf == vals@[j - 1] % 16,
            j % 4 == 3 ==> buf == vals@[j - 1] % 4,
        decreases vals@.len() - j,
    {
        let v = vals[j];
        let ghost old_buf = buf;
        let ghost old_len = out@.len();
        buf = (buf << 6u32) | (v as u32);
        bits = bits + 6;
        if bits >= 8 {
            bits = bits - 8;
            proof {
                let b = bits as u32;
                assert(b <= 4 ==> (1u32 << b) >= 1) by (bit_vector);
                assert(b == 4 ==> (1u32 << b) - 1 == 15u32) by (bit_vector);
                assert(b == 2 ==> (1u32 << b) - 1 == 3u32) by (bit_vector);
                assert(b == 0 ==> (1u32 << b) - 1 == 0u32) by (bit_vector);
                if j % 4 == 1 {
                    assert(old_buf < 64);
                    assert(((old_buf << 6u32) | (v as u32)) >> 4u32 == old_buf * 4 + (v as u32) / 16
                        && ((old_buf << 6u32) | (v as u32)) & 15u32 == (v as u32) % 16) by (bit_vector)
                        requires old_buf < 64, v < 64;
                } else if j % 4 == 2 {
                    assert(old_buf < 16);
                    assert(((old_buf << 6u32) | (v as u32)) >> 2u32 == old_buf * 16 + (v as u32) / 4
                        && ((old_buf << 6u32) | (v as u32)) & 3u32 == (v as u32) % 4) by (bit_vector)
                        requires old_buf < 16, v < 64;
                } else {
                    assert(j % 4 == 3);
                    assert(old_buf < 4);
                    assert(((old_buf << 6u32) | (v as u32)) >> 0u32 == old_buf * 64 + (v as u32)
                        && ((old_buf << 6u32) | (v as u32)) & 0u32 == 0) by (bit_vector)
                        requires old_buf < 4, v < 64;
                }
            }
            out.push((buf >> (bits as u32)) as u8);
            buf = buf & ((1u32 << (bits as u32)) - 1);
            proof {
                let k = old_len as int;
                let g = j as int / 4;
                if j % 4 == 1 {
                    assert(k == 3 * g);
                    assert(k / 3 == g && k % 3 == 0);
                } else if j % 4 == 2 {
                    assert(k == 3 * g + 1);
                    assert(k / 3 == g && k % 3 == 1);
                } else {
                    assert(k == 3 * g + 2);
                    assert(k / 3 == g && k % 3 == 2);
                }
            }
        } else {
            proof {
                assert(j % 4 == 0);
                assert(((0u32 << 6u32) | (v as u32)) == v as u32) by (bit_vector);
            }
        }
        j = j + 1;
    }
    proof {
        assert(out@ =~= b64_bytes(vals@));
    }
    Some(out)
}

} // verus!

verus! {

// ── URL decoding (only %XX and `+`) ────────────────────────────────────

/// `char::to_digit(16)`: the value of a hexadecimal digit of either case.
pub open spec fn hex_digit(c: char) -> Option<u32> {
    let n = c as u32;
    if 48 <= n && n <= 57 {
        Some((n - 48) as u32)
    } else if 97 <= n && n <= 102 {
        Some((n - 97 + 10) as u32)
    } else if 65 <= n && n <= 70 {
        Some((n - 65 + 10) as u32)
    } else {
        None
    }
}

/// The digit at position `i` of `s`, or 0 where there is no character or it
/// is not a hexadecimal digit.
pub open spec fn hex_or_zero(s: Seq<char>, i: int) -> u32 {
    if i < s.len() {
        match hex_digit(s[i]) {
            Some(d) => d,
            None => 0,
        }
    } else {
        0
    }
}

/// What `url_decode` gives: `%` and the (up to) two characters after it
/// become the character whose code is their hexadecimal value (a missing or
/// non-hex digit counts as 0), `+` becomes a space, anything else stays.
pub open spec fn url_decoded(s: Seq<char>) -> Seq<char>
    decreases s.len(),
{
    if s.len() == 0 {
        Seq::empty()
    } else if s[0] == '%' {
        let code = hex_or_zero(s, 1) * 16 + hex_or_zero(s, 2);
        let used = if s.len() < 3 { s.len() as int } else { 3 };
        seq![(code as u8) as char] + url_decoded(s.skip(used))
    } else if s[0] == '+' {
        seq![' '] + url_decoded(s.skip(1))
    } else {
        seq![s[0]] + url_decoded(s.skip(1))
    }
}

fn hex_digit_exec(c: char) -> (r: Option<u32>)
    ensures
        r == hex_digit(c),
{
    let n = c as u32;
    if 48 <= n && n <= 57 {
        Some(n - 48)
    } else if 97 <= n && n <= 102 {
        Some(n - 97 + 10)
    } else if 65 <= n && n <= 70 {
        Some(n - 65 + 10)
    } else {
        None
    }
}

/// Minimal URL-decode (only handles %XX and + → space).
pub fn url_decode(s: &str) -> (r: String)
    ensures
        r@ == url_decoded(s@),
{
    let cs = chars_of(s);
    let mut out = String::new();
    let mut i: usize = 0;
    assert(cs@.skip(0) =~= cs@);
    while i < cs.len()
        invariant
            0 <= i <= cs@.len(),
            cs@ == s@,
            url_decoded(s@) == out@ + url_decoded(cs@.skip(i as int)),
        decreases cs@.len() - i,
    {
        let ghost rest = cs@.skip(i as int);
        let ch = cs[i];
        assert(rest[0] == ch);
        if ch == '%' {
            let mut hi: u32 = 0;
            let mut lo: u32 = 0;
            let mut used: usize = 1;
            if i + 1 < cs.len() {
                used = 2;
                match hex_digit_exec(cs[i + 1]) {
                    Some(d) => { hi = d; },
                    None => {},
                }
                if i + 2 < cs.len() {
                    used = 3;
                    match hex_digit_exec(cs[i + 2]) {
                        Some(d) => { lo = d; },
                        None => {},
                    }
                }
            }
            proof {
                assert(hi == hex_or_zero(rest, 1));
                assert(lo == hex_or_zero(rest, 2));
                assert(rest.skip(used as int) =~= cs@.skip(i + used));
            }
            crate::text::push_char(&mut out, ((hi * 16 + lo) as u8) as char);
            i = i + used;
        } else if ch == '+' {
            assert(rest.skip(1) =~= cs@.skip(i + 1));
            crate::text::push_char(&mut out, ' ');
            i = i + 1;
        } else {
            assert(rest.skip(1) =~= cs@.skip(i + 1));
            crate::text::push_char(&mut out, ch);
            i = i + 1;
        }
    }
    assert(cs@.skip(cs@.len() as int) =~= Seq::<char>::empty());
    assert(out@ + Seq::<char>::empty() =~= out@);
    out
}

} // verus!

verus! {

// ── Session cookie and JWT ─────────────────────────────────────────────

/// The text after `j:` read as JSON, and its member `accessToken` when that
/// is a string.
pub open spec fn access_token_of_json(decoded: Seq<char>) -> Option<Seq<char>> {
    if has_prefix(decoded, "j:"@) {
        match json_parse(decoded.skip("j:"@.len() as int)) {
            Some(v) => v.spec_str_at("accessToken"@),
            None => None,
        }
    } else {
        None
    }
}

/// What `parse_session_token` gives: the cookie URL-decoded when it holds a
/// `%`, then `j:` and a JSON object whose `accessToken` is the token.
pub open spec fn session_token(raw: Seq<char>) -> Option<Seq<char>> {
    let decoded = if has_prefix(raw, "j%3A"@) || raw.contains('%') {
        url_decoded(raw)
    } else {
        raw
    };
    access_token_of_json(decoded)
}

/// `accessToken` of the JSON text after a `j:` prefix (shared by both session parsers).
pub fn access_token_after_j(decoded: &[char]) -> (r: Option<String>)
    ensures
        match r {
            Some(t) => access_token_of_json(decoded@) == Some(t@),
            None => access_token_of_json(decoded@) is None,
        },
{
    let prefix = chars_of("j:");
    match crate::text::strip_prefix(decoded, prefix.as_slice()) {
        None => None,
        Some(rest) => {
            let text = string_of(rest.as_slice());
            match parse_json(text.as_str()) {
                None => None,
                Some(data) => match data.get("accessToken") {
                    None => None,
                    Some(v) => match v.as_str() {
                        None => None,
                        Some(s) => Some(s.to_owned()),
                    },
                },
            }
        },
    }
}

/// Parse the session cookie value into an access token.
///
/// The cookie is URL-encoded JSON with a `j:` prefix.
pub fn parse_session_token(raw: &str) -> (r: Option<String>)
    ensures
        match r {
            Some(t) => session_token(raw@) == Some(t@),
            None => session_token(raw@) is None,
        },
{
    let cs = chars_of(raw);
    let p = chars_of("j%3A");
    let decoded = if starts_with(cs.as_slice(), p.as_slice()) || contains_char(cs.as_slice(), '%') {
        chars_of(url_decode(raw).as_str())
    } else {
        cs
    };
    access_token_after_j(decoded.as_slice())
}

/// The second `.`-separated part of a JWT, when there are at least two parts.
pub open spec fn jwt_payload(token: Seq<char>) -> Option<Seq<char>> {
    let parts = split(token, '.');
    if parts.len() < 2 {
        None
    } else {
        Some(parts[1])
    }
}

/// The `exp` claim of a decoded payload, or 0 when it is missing or not a
/// non-negative integer; `None` when the payload is not UTF-8 JSON.
pub open spec fn exp_claim(payload: Seq<u8>) -> Option<u64> {
    if vstd::utf8::valid_utf8(payload) {
        match json_parse(vstd::utf8::decode_utf8(payload)) {
            Some(v) => match v.spec_u64_at("exp"@) {
                Some(e) => Some(e),
                None => Some(0),
            },
            None => None,
        }
    } else {
        None
    }
}

/// A token is expired at `now` when it cannot be read, or when its `exp`
/// claim is at most 60 seconds after `now`.
pub open spec fn expired_with(exp: Option<u64>, now: u64) -> bool {
    match exp {
        None => true,
        Some(e) => e <= now + 60,
    }
}

/// What `token_expired_at` gives, with `simple_b64_decode` reading the payload.
pub open spec fn token_expired(token: Seq<char>, now: u64) -> bool {
    match jwt_payload(token) {
        None => true,
        Some(p) => match b64_decoded(p) {
            None => true,
            Some(bytes) => expired_with(exp_claim(bytes), now),
        },
    }
}

/// The second part of a JWT (`token.split('.')`, then `parts[1]`).
pub fn jwt_payload_part(token: &str) -> (r: Option<String>)
    ensures
        match r {
            Some(p) => jwt_payload(token@) == Some(p@),
            None => jwt_payload(token@) is None,
        },
{
    let cs = chars_of(token);
    let parts = split_chars(cs.as_slice(), '.');
    if parts.len() < 2 {
        None
    } else {
        assert(crate::text::views(parts@)[1] == parts@[1]@);
        Some(string_of(parts[1].as_slice()))
    }
}

/// Reads the `exp` claim of decoded payload bytes.
pub fn read_exp_claim(payload: Vec<u8>) -> (r: Option<u64>)
    ensures
        r == exp_claim(payload@),
{
    let ghost bytes = payload@;
    match crate::text::utf8_to_string(payload) {
        None => None,
        Some(json_str) => match parse_json(json_str.as_str()) {
            None => None,
            Some(val) => match val.u64_at("exp") {
                Some(e) => Some(e),
                None => Some(0),
            },
        },
    }
}

/// `exp <= now + 60`, without overflow.
pub fn expired_with_exec(exp: Option<u64>, now: u64) -> (r: bool)
    ensures
        r == expired_with(exp, now),
{
    match exp {
        None => true,
        Some(e) => e <= now || e - now <= 60,
    }
}

/// Whether a JWT is expired or about to expire (within 60s) at time `now`.
pub fn token_expired_at(token: &str, now: u64) -> (r: bool)
    ensures
        r == token_expired(token@, now),
{
    let payload_b64 = match jwt_payload_part(token) {
        Some(p) => p,
        None => return true,
    };
    let bytes = match simple_b64_decode(payload_b64.as_str()) {
        Some(b) => b,
        None => return true,
    };
    let exp = read_exp_claim(bytes);
    expired_with_exec(exp, now)
}

/// Check if a JWT token is expired or about to expire (within 60s).
pub fn is_token_expired(token: &str) -> (r: bool)
    ensures
        exists|now: u64| r == token_expired(token@, now),
{
    let now = crate::clock::unix_time_secs();
    token_expired_at(token, now)
}

} // verus!

verus! {

// ── agent-browser cookie list ──────────────────────────────────────────

/// A string member of a JSON value, or the empty text when absent.
pub open spec fn str_at_or_empty(v: JsonValue, key: Seq<char>) -> Seq<char> {
    match v.spec_str_at(key) {
        Some(s) => s,
        None => Seq::empty(),
    }
}

/// What `parse_cookie_json` finds in a list of cookies: the first cookie
/// named `session` in any case decides (its `value` must be a string); a
/// cookie named `session` or with an empty name whose value starts with `j:`
/// decides too; other cookies are passed over.
pub open spec fn cookie_list_token(cookies: Seq<JsonValue>) -> Option<Seq<char>>
    decreases cookies.len(),
{
    if cookies.len() == 0 {
        None
    } else {
        let c = cookies[0];
        let name = str_at_or_empty(c, "name"@);
        if lower(name) == lower("session"@) {
            match c.spec_str_at("value"@) {
                Some(v) => session_token(v),
                None => None,
            }
        } else if (name == "session"@ || name.len() == 0) && (match c.spec_str_at("value"@) {
            Some(v) => has_prefix(v, "j:"@),
            None => false,
        }) {
            session_token(c.spec_str_at("value"@).unwrap())
        } else {
            cookie_list_token(cookies.drop_first())
        }
    }
}

/// What `parse_cookie_json` gives for agent-browser's output.
pub open spec fn cookie_json_token(json_str: Seq<char>) -> Option<Seq<char>> {
    match json_parse(json_str) {
        Some(JsonValue::Array(cookies)) => cookie_list_token(cookies@),
        _ => None,
    }
}

/// The string member `key` of a JSON value, or the empty string.
fn str_member_or_empty(v: &JsonValue, key: &str) -> (r: Vec<char>)
    ensures
        r@ == str_at_or_empty(*v, key@),
{
    match v.get(key) {
        Some(m) => match m.as_str() {
            Some(s) => chars_of(s),
            None => Vec::new(),
        },
        None => Vec::new(),
    }
}

/// Parse agent-browser's cookie JSON output and extract the session cookie.
pub fn parse_cookie_json(json_str: &str) -> (r: Option<String>)
    ensures
        match r {
            Some(t) => cookie_json_token(json_str@) == Some(t@),
            None => cookie_json_token(json_str@) is None,
        },
{
    let parsed = parse_json(json_str);
    let cookies = match &parsed {
        Some(JsonValue::Array(c)) => c,
        _ => return None,
    };
    let session = chars_of("session");
    let j_prefix = chars_of("j:");
    let mut i: usize = 0;
    assert(cookies@.skip(0) =~= cookies@);
    while i < cookies.len()
        invariant
            0 <= i <= cookies@.len(),
            session@ == "session"@,
            j_prefix@ == "j:"@,
            cookie_json_token(json_str@) == cookie_list_token(cookies@.skip(i as int)),
        decreases cookies@.len() - i,
    {
        let cookie = &cookies[i];
        let ghost rest = cookies@.skip(i as int);
        assert(rest[0] == *cookie);
        assert(rest.drop_first() =~= cookies@.skip(i + 1));
        let name = str_member_or_empty(cookie, "name");
        if eq_ignore_ascii_case(name.as_slice(), session.as_slice()) {
            let val = match cookie.get("value") {
                Some(m) => match m.as_str() {
                    Some(s) => s,
                    None => return None,
                },
                None => return None,
            };
            return parse_session_token(val);
        }
        let is_session = name.len() == session.len() && starts_with(name.as_slice(), session.as_slice());
        assert(is_session == (name@ == "session"@)) by {
            if name@.len() == session@.len() && has_prefix(name@, session@) {
                assert(name@.take(session@.len() as int) =~= name@);
            }
        }
        if is_session || name.len() == 0 {
            match cookie.get("value") {
                Some(m) => match m.as_str() {
                    Some(val) => {
                        let vc = chars_of(val);
                        if starts_with(vc.as_slice(), j_prefix.as_slice()) {
                            return parse_session_token(val);
                        }
                    },
                    None => {},
                },
                None => {},
            }
        }
        i = i + 1;
    }
    None
}

// ── Set-Cookie headers from a direct fetch ─────────────────────────────

/// `s.trim_start_matches(c)`: `s` without its leading run of `c`.
pub open spec fn drop_leading(s: Seq<char>, c: char) -> Seq<char>
    decreases s.len(),
{
    if s.len() > 0 && s[0] == c {
        drop_leading(s.drop_first(), c)
    } else {
        s
    }
}

/// A `Set-Cookie: session=...` header line, read as the direct fetch reads
/// it: the value of the `session` cookie up to the first `;`.
pub open spec fn session_cookie_of_line(line: Seq<char>) -> Option<Seq<char>> {
    if has_prefix(trim(lower(line)), "set-cookie:"@) {
        let rest = trim(drop_leading(line.skip(char_pos(line, ':')), ':'));
        if has_prefix(rest, "session="@) {
            let cookie_val = rest.skip("session="@.len() as int);
            Some(cookie_val.take(char_pos(cookie_val, ';')))
        } else {
            None
        }
    } else {
        None
    }
}

/// What `token_from_set_cookie_lines` gives: the first `session` cookie that
/// starts with `j%3A` or `j:` and whose URL-decoded form yields a token.
pub open spec fn set_cookie_token(ls: Seq<Seq<char>>) -> Option<Seq<char>>
    decreases ls.len(),
{
    if ls.len() == 0 {
        None
    } else {
        let next = set_cookie_token(ls.drop_first());
        match session_cookie_of_line(ls[0]) {
            Some(val) => if has_prefix(val, "j%3A"@) || has_prefix(val, "j:"@) {
                match session_token(url_decoded(val)) {
                    Some(t) => Some(t),
                    None => next,
                }
            } else {
                next
            },
            None => next,
        }
    }
}

/// A header line `<name>: session=<v>;<rest>` is read as a session cookie
/// with value `v` for every spelling of `<name>` that lowercases to
/// `set-cookie`, whatever follows the `;`.
pub proof fn lemma_set_cookie_line_any_case(name: Seq<char>, v: Seq<char>, rest: Seq<char>)
    requires
        lower(name) == "set-cookie"@,
        !v.contains(';'),
    ensures
        session_cookie_of_line(name + seq![':', ' '] + "session="@ + v + seq![';'] + rest) == Some(v),
{
    reveal_strlit("set-cookie");
    reveal_strlit("set-cookie:");
    reveal_strlit("session=");
    let sess = "session="@;
    let tail = v + seq![';'] + rest;
    let y = sess + tail;
    let line = name + seq![':', ' '] + y;
    assert(name + seq![':', ' '] + "session="@ + v + seq![';'] + rest =~= line);
    assert(lower(name).len() == name.len());
    assert("set-cookie"@.len() == 10);
    assert(name.len() == 10);
    let low = lower(line);
    assert forall|i: int| 0 <= i < 10 implies low[i] == "set-cookie:"@[i] by {
        assert(line[i] == name[i]);
        assert(lower(name)[i] == crate::text::ascii_lower(name[i]));
    }
    assert(low[10] == ':');
    let semi: int = 20 + v.len() as int;
    assert(line[semi] == ';') by {
        assert(tail[v.len() as int] == ';');
        assert(y[8 + v.len() as int] == ';');
    }
    assert(low[semi] == ';');
    assert(low[0] == 's');
    crate::text::lemma_trim_start_nonblank(low);
    crate::text::lemma_trim_end_keeps(low, semi);
    assert(trim(low).take(11) =~= "set-cookie:"@);
    assert(!name.contains(':')) by {
        if name.contains(':') {
            let j = choose|j: int| 0 <= j < name.len() && name[j] == ':';
            assert(lower(name)[j] == ':');
            assert("set-cookie"@[j] != ':');
        }
    }
    crate::text::lemma_char_pos_append(name, seq![':', ' '] + y, ':');
    assert((seq![':', ' '] + y)[0] == ':');
    assert(char_pos(seq![':', ' '] + y, ':') == 0);
    assert(line =~= name + (seq![':', ' '] + y));
    assert(char_pos(line, ':') == 10);
    let from_colon = line.skip(10);
    assert(from_colon =~= seq![':', ' '] + y);
    let after = seq![' '] + y;
    assert(drop_leading(from_colon, ':') == drop_leading(after, ':')) by {
        assert(from_colon.drop_first() =~= after);
    }
    assert(drop_leading(after, ':') == after);
    assert(crate::text::trim_start(after) == crate::text::trim_start(y)) by {
        assert(crate::text::is_ws(after[0]));
        assert(after.drop_first() =~= y);
    }
    assert(y[0] == 's');
    crate::text::lemma_trim_start_nonblank(y);
    assert(y[8 + v.len() as int] == ';') by {
        assert(tail[v.len() as int] == ';');
    }
    crate::text::lemma_trim_end_keeps(y, 8 + v.len() as int);
    let r = trim(after);
    assert(r == crate::text::trim_end(y));
    assert(r.take(8) =~= sess);
    let cookie_val = r.skip(8);
    assert(cookie_val =~= v + (seq![';'] + rest).take(r.len() - 8 - v.len()));
    crate::text::lemma_char_pos_append(v, (seq![';'] + rest).take(r.len() - 8 - v.len()), ';');
    assert(((seq![';'] + rest).take(r.len() - 8 - v.len()))[0] == ';');
    assert(cookie_val.take(v.len() as int) =~= v);
}

/// A header block whose first line is `<name>: session=<v>;<rest>`, with
/// `<name>` any spelling of `set-cookie`, `v` starting with `j%3A` or `j:`
/// and its URL-decoded form holding a token, gives that token.
pub proof fn lemma_set_cookie_lines_any_case(
    name: Seq<char>,
    v: Seq<char>,
    rest: Seq<char>,
    more: Seq<Seq<char>>,
)
    requires
        lower(name) == "set-cookie"@,
        !v.contains(';'),
        has_prefix(v, "j%3A"@) || has_prefix(v, "j:"@),
        session_token(url_decoded(v)) is Some,
    ensures
        set_cookie_token(seq![name + seq![':', ' '] + "session="@ + v + seq![';'] + rest] + more)
            == session_token(url_decoded(v)),
{
    let line = name + seq![':', ' '] + "session="@ + v + seq![';'] + rest;
    lemma_set_cookie_line_any_case(name, v, rest);
    let ls = seq![line] + more;
    assert(ls[0] == line);
}

proof fn lemma_drop_leading_skip(s: Seq<char>, c: char, i: int)
    requires
        0 <= i <= s.len(),
        forall|j: int| 0 <= j < i ==> s[j] == c,
    ensures
        drop_leading(s, c) == drop_leading(s.skip(i), c),
    decreases i,
{
    if i > 0 {
        assert(s.drop_first().skip(i - 1) =~= s.skip(i));
        assert forall|j: int| 0 <= j < i - 1 implies s.drop_first()[j] == c by {
            assert(s.drop_first()[j] == s[j + 1]);
        }
        lemma_drop_leading_skip(s.drop_first(), c, i - 1);
    } else {
        assert(s.skip(0) =~= s);
    }
}

/// `s.trim_start_matches(c)`.
fn drop_leading_chars(s: &[char], c: char) -> (r: Vec<char>)
    ensures
        r@ == drop_leading(s@, c),
{
    let mut i: usize = 0;
    while i < s.len() && s[i] == c
        invariant
            0 <= i <= s@.len(),
            forall|j: int| 0 <= j < i ==> s@[j] == c,
        decreases s@.len() - i,
    {
        i = i + 1;
    }
    proof { lemma_drop_leading_skip(s@, c, i as int); }
    skip_chars(s, i)
}

/// Reads one header line as the direct fetch does.
pub fn session_cookie_in_line(line: &[char]) -> (r: Option<Vec<char>>)
    ensures
        match r {
            Some(v) => session_cookie_of_line(line@) == Some(v@),
            None => session_cookie_of_line(line@) is None,
        },
{
    let lowered = lower_chars(line);
    let lower_trimmed = trim_chars(lowered.as_slice());
    let marker = chars_of("set-cookie:");
    if !starts_with(lower_trimmed.as_slice(), marker.as_slice()) {
        return None;
    }
    let colon = find_char(line, ':');
    let from_colon = skip_chars(line, colon);
    let after = drop_leading_chars(from_colon.as_slice(), ':');
    let rest = trim_chars(after.as_slice());
    let key = chars_of("session=");
    match crate::text::strip_prefix(rest.as_slice(), key.as_slice()) {
        None => None,
        Some(cookie_val) => {
            let end = find_char(cookie_val.as_slice(), ';');
            Some(take_chars(cookie_val.as_slice(), end))
        },
    }
}

/// The session token among `Set-Cookie` header lines (the scan of a direct fetch).
pub fn token_from_set_cookie_lines(headers: &str) -> (r: Option<String>)
    ensures
        match r {
            Some(t) => set_cookie_token(lines(headers@)) == Some(t@),
            None => set_cookie_token(lines(headers@)) is None,
        },
{
    let cs = chars_of(headers);
    let ls = lines_of(cs.as_slice());
    let p1 = chars_of("j%3A");
    let p2 = chars_of("j:");
    let ghost all = crate::text::views(ls@);
    let mut i: usize = 0;
    assert(all.skip(0) =~= all);
    while i < ls.len()
        invariant
            0 <= i <= ls@.len(),
            all == crate::text::views(ls@),
            all == lines(headers@),
            p1@ == "j%3A"@,
            p2@ == "j:"@,
            set_cookie_token(all) == set_cookie_token(all.skip(i as int)),
        decreases ls@.len() - i,
    {
        let ghost rest = all.skip(i as int);
        assert(rest[0] == ls@[i as int]@);
        assert(rest.drop_first() =~= all.skip(i + 1));
        match session_cookie_in_line(ls[i].as_slice()) {
            Some(val) => {
                if starts_with(val.as_slice(), p1.as_slice()) || starts_with(val.as_slice(), p2.as_slice()) {
                    let vs = string_of(val.as_slice());
                    let decoded = url_decode(vs.as_str());
                    match parse_session_token(decoded.as_str()) {
                        Some(token) => return Some(token),
                        None => {},
                    }
                }
            },
            None => {},
        }
        i = i + 1;
    }
    None
}

/// A cached token file's contents, trimmed; nothing when that is empty.
pub open spec fn cached_token(contents: Seq<char>) -> Option<Seq<char>> {
    if trim(contents).len() == 0 {
        None
    } else {
        Some(trim(contents))
    }
}

/// The token held by a cache file's contents (`read_cached_token` after the read).
pub fn cached_token_of(contents: &str) -> (r: Option<String>)
    ensures
        match r {
            Some(t) => cached_token(contents@) == Some(t@),
            None => cached_token(contents@) is None,
        },
{
    let cs = chars_of(contents);
    let t = trim_chars(cs.as_slice());
    if t.len() == 0 {
        None
    } else {
        Some(string_of(t.as_slice()))
    }
}

} // verus!

verus! {

// ── Feed types and offers ──────────────────────────────────────────────

/// Paging block of a feed response.
#[derive(Debug, Clone, Copy, PartialEq, Eq, Structural)]
pub struct Paginator {
    pub step: u64,
    pub current: u64,
    pub next_page_exists: bool,
}

/// Response wrapper for the feed endpoint.
#[derive(Debug)]
pub struct FeedResponse {
    pub content: Option<FeedContent>,
}

/// Body of a feed response.
#[derive(Debug)]
pub struct FeedContent {
    pub items: Option<Vec<JsonValue>>,
    pub paginator: Option<Paginator>,
}

/// Extract the numeric ID from an offer.
pub fn extract_id(offer: &JsonValue) -> (r: Option<u64>)
    ensures
        r == offer.spec_u64_at("id"@),
{
    offer.u64_at("id")
}

} // verus!

verus! {

/// Text without `%` and `+` is left as it is by URL decoding.
pub proof fn lemma_url_decode_plain(s: Seq<char>)
    requires
        !s.contains('%'),
        !s.contains('+'),
    ensures
        url_decoded(s) == s,
    decreases s.len(),
{
    if s.len() > 0 {
        assert(s[0] != '%' && s[0] != '+') by {
            assert(s.contains(s[0]));
        }
        let rest = s.skip(1);
        assert(!rest.contains('%') && !rest.contains('+')) by {
            if rest.contains('%') {
                let j = choose|j: int| 0 <= j < rest.len() && rest[j] == '%';
                assert(s[j + 1] == '%');
            }
            if rest.contains('+') {
                let j = choose|j: int| 0 <= j < rest.len() && rest[j] == '+';
                assert(s[j + 1] == '+');
            }
        }
        lemma_url_decode_plain(rest);
        assert(seq![s[0]] + rest =~= s);
    }
}

/// A token without a `.` has no payload and counts as expired, whatever the time.
pub proof fn lemma_token_without_dot_is_expired(token: Seq<char>, now: u64)
    requires
        !token.contains('.'),
    ensures
        token_expired(token, now),
{
    lemma_split_without_separator(token, '.', Seq::empty());
    assert(Seq::<char>::empty() + token =~= token);
}

/// Splitting text without the separator gives one piece.
proof fn lemma_split_without_separator(s: Seq<char>, c: char, cur: Seq<char>)
    requires
        !s.contains(c),
    ensures
        crate::text::split_from(s, c, cur) == seq![cur + s],
    decreases s.len(),
{
    if s.len() == 0 {
        assert(cur + s =~= cur);
    } else {
        assert(s[0] != c) by {
            assert(s.contains(s[0]));
        }
        let rest = s.drop_first();
        assert(!rest.contains(c)) by {
            if rest.contains(c) {
                let j = choose|j: int| 0 <= j < rest.len() && rest[j] == c;
                assert(s[j + 1] == c);
            }
        }
        lemma_split_without_separator(rest, c, cur.push(s[0]));
        assert(cur.push(s[0]) + rest =~= cur + s);
    }
}

} // verus!

verus! {

// ── Base64 laws ────────────────────────────────────────────────────────

/// A text with every `=` taken out.
pub open spec fn without_pad(s: Seq<char>) -> Seq<char>
    decreases s.len(),
{
    if s.len() == 0 {
        s
    } else if s.last() == '=' {
        without_pad(s.drop_last())
    } else {
        without_pad(s.drop_last()).push(s.last())
    }
}

proof fn lemma_values_without_pad(s: Seq<char>)
    ensures
        b64_values(s) == b64_values(without_pad(s)),
    decreases s.len(),
{
    if s.len() > 0 {
        lemma_values_without_pad(s.drop_last());
        if s.last() != '=' {
            let w = without_pad(s.drop_last()).push(s.last());
            assert(w.drop_last() =~= without_pad(s.drop_last()));
        }
    }
}

/// Inserting or deleting `=` anywhere does not change what
/// `simple_b64_decode` gives.
pub proof fn lemma_b64_padding_is_ignored(s1: Seq<char>, s2: Seq<char>)
    requires
        without_pad(s1) == without_pad(s2),
    ensures
        b64_decoded(s1) == b64_decoded(s2),
{
    lemma_values_without_pad(s1);
    lemma_values_without_pad(s2);
}

/// The byte at `i`, or 0 past the end.
pub open spec fn byte_or_zero(b: Seq<u8>, i: int) -> int {
    if 0 <= i < b.len() { b[i] as int } else { 0 }
}

/// The 6-bit value `i` of the standard base64 encoding of `b` (missing bytes
/// of the last group count as 0).
pub open spec fn encoded_sextet(b: Seq<u8>, i: int) -> u8 {
    let g = i / 4;
    let r = i % 4;
    let b0 = byte_or_zero(b, 3 * g);
    let b1 = byte_or_zero(b, 3 * g + 1);
    let b2 = byte_or_zero(b, 3 * g + 2);
    (if r == 0 {
        b0 / 4
    } else if r == 1 {
        (b0 % 4) * 16 + b1 / 16
    } else if r == 2 {
        (b1 % 16) * 4 + b2 / 64
    } else {
        b2 % 64
    }) as u8
}

/// The number of symbols of the unpadded standard encoding of `n` bytes.
pub open spec fn encoded_len(n: nat) -> nat {
    if n % 3 == 0 { 4 * (n / 3) } else { 4 * (n / 3) + n % 3 + 1 }
}

/// The standard base64 symbol of a 6-bit value.
pub open spec fn b64_symbol(v: u8) -> char {
    if v < 26 {
        ((65 + v) as u32) as char
    } else if v < 52 {
        ((97 + v - 26) as u32) as char
    } else if v < 62 {
        ((48 + v - 52) as u32) as char
    } else if v == 62 {
        '+'
    } else {
        '/'
    }
}

/// The standard base64 encoding of `b`, without padding.
pub open spec fn b64_encoded(b: Seq<u8>) -> Seq<char> {
    Seq::new(encoded_len(b.len()), |i: int| b64_symbol(encoded_sextet(b, i)))
}

proof fn lemma_symbol_round_trip(v: u8)
    requires
        v < 64,
    ensures
        b64_sextet(b64_symbol(v)) == Some(v),
        b64_symbol(v) != '=',
{
}

proof fn lemma_sextet_small(b: Seq<u8>, i: int)
    ensures
        encoded_sextet(b, i) < 64,
{
    let g = i / 4;
    let b0 = byte_or_zero(b, 3 * g);
    let b1 = byte_or_zero(b, 3 * g + 1);
    let b2 = byte_or_zero(b, 3 * g + 2);
    assert(0 <= b0 < 256 && 0 <= b1 < 256 && 0 <= b2 < 256);
    assert((b0 % 4) * 16 + b1 / 16 < 64) by (nonlinear_arith)
        requires 0 <= b0 < 256, 0 <= b1 < 256;
    assert((b1 % 16) * 4 + b2 / 64 < 64) by (nonlinear_arith)
        requires 0 <= b1 < 256, 0 <= b2 < 256;
}

proof fn lemma_values_of_symbols(s: Seq<char>, w: Seq<u8>)
    requires
        s.len() == w.len(),
        forall|i: int| 0 <= i < s.len() ==> #[trigger] s[i] != '=' && b64_sextet(s[i]) == Some(w[i]),
    ensures
        b64_values(s) == Some(w),
    decreases s.len(),
{
    if s.len() > 0 {
        assert forall|i: int| 0 <= i < s.drop_last().len() implies #[trigger] s.drop_last()[i] != '='
            && b64_sextet(s.drop_last()[i]) == Some(w.drop_last()[i]) by {
            assert(s.drop_last()[i] == s[i] && w.drop_last()[i] == w[i]);
            assert(s[i] != '=' && b64_sextet(s[i]) == Some(w[i]));
        }
        lemma_values_of_symbols(s.drop_last(), w.drop_last());
        assert(w.drop_last().push(w.last()) =~= w);
        assert(s.last() == s[s.len() - 1]);
    }
}

proof fn lemma_values_ignore_trailing_pad(s: Seq<char>, pad: Seq<char>)
    requires
        forall|i: int| 0 <= i < pad.len() ==> pad[i] == '=',
    ensures
        b64_values(s + pad) == b64_values(s),
    decreases pad.len(),
{
    if pad.len() == 0 {
        assert(s + pad =~= s);
    } else {
        assert((s + pad).drop_last() =~= s + pad.drop_last());
        assert((s + pad).last() == pad[pad.len() - 1]);
        lemma_values_ignore_trailing_pad(s, pad.drop_last());
    }
}

/// The three bytes of a group come back from its four 6-bit values.
proof fn lemma_group_round_trip(b0: int, b1: int, b2: int)
    requires
        0 <= b0 < 256,
        0 <= b1 < 256,
        0 <= b2 < 256,
    ensures
        (b0 / 4) * 4 + ((b0 % 4) * 16 + b1 / 16) / 16 == b0,
        (((b0 % 4) * 16 + b1 / 16) % 16) * 16 + ((b1 % 16) * 4 + b2 / 64) / 4 == b1,
        (((b1 % 16) * 4 + b2 / 64) % 4) * 64 + b2 % 64 == b2,
{
    let x0 = b0 as u32;
    let x1 = b1 as u32;
    let x2 = b2 as u32;
    assert((x0 / 4) * 4 + ((x0 % 4) * 16 + x1 / 16) / 16 == x0
        && (((x0 % 4) * 16 + x1 / 16) % 16) * 16 + ((x1 % 16) * 4 + x2 / 64) / 4 == x1
        && (((x1 % 16) * 4 + x2 / 64) % 4) * 64 + x2 % 64 == x2) by (bit_vector)
        requires x0 < 256, x1 < 256, x2 < 256;
}

/// Decoding the standard base64 encoding of any bytes, with any `=`
/// padding after it or none, gives those bytes back.
pub proof fn lemma_b64_round_trip(b: Seq<u8>, pad: Seq<char>)
    requires
        forall|i: int| 0 <= i < pad.len() ==> pad[i] == '=',
    ensures
        b64_decoded(b64_encoded(b) + pad) == Some(b),
{
    let enc = b64_encoded(b);
    let n = b.len();
    let k = encoded_len(n);
    let w = Seq::new(k, |i: int| encoded_sextet(b, i));
    assert forall|i: int| 0 <= i < enc.len() implies #[trigger] enc[i] != '=' && b64_sextet(enc[i]) == Some(w[i]) by {
        lemma_sextet_small(b, i);
        lemma_symbol_round_trip(encoded_sextet(b, i));
    }
    lemma_values_of_symbols(enc, w);
    lemma_values_ignore_trailing_pad(enc, pad);
    assert((6 * k) / 8 == n) by {
        let g = n / 3;
        if n % 3 == 0 {
            assert(6 * (4 * g) == 24 * g);
        } else if n % 3 == 1 {
            assert(6 * (4 * g + 2) == 24 * g + 12);
        } else {
            assert(6 * (4 * g + 3) == 24 * g + 18);
        }
    }
    assert forall|j: int| 0 <= j < n implies #[trigger] b64_byte(w, j) == b[j] by {
        let g = j / 3;
        let r = j % 3;
        assert(4 * g + 3 < k || (r == 0 && 4 * g + 1 < k) || (r == 1 && 4 * g + 2 < k)) by {
            assert(3 * g + r == j);
            let q = n / 3;
            assert(g <= q);
            if g == q {
                assert(n % 3 > r);
            }
        }
        let b0 = byte_or_zero(b, 3 * g);
        let b1 = byte_or_zero(b, 3 * g + 1);
        let b2 = byte_or_zero(b, 3 * g + 2);
        lemma_group_round_trip(b0, b1, b2);
        assert(w[4 * g] == encoded_sextet(b, 4 * g));
        assert((4 * g) / 4 == g && (4 * g) % 4 == 0);
        assert((4 * g + 1) / 4 == g && (4 * g + 1) % 4 == 1);
        assert((4 * g + 2) / 4 == g && (4 * g + 2) % 4 == 2);
        assert((4 * g + 3) / 4 == g && (4 * g + 3) % 4 == 3);
        if r == 0 {
            assert(b0 == b[j]);
        } else if r == 1 {
            assert(b1 == b[j]);
        } else {
            assert(b2 == b[j]);
        }
    }
    assert(b64_bytes(w) =~= b);
}

} // verus!
