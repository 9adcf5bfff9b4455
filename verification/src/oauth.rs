//! The authorization flow's verified decisions: discovery URLs, the
//! www-authenticate challenge, the client acquisition policy, the
//! authorization URL, callback parsing with its mandatory CSRF check, the
//! token-exchange form bodies, and the metadata payload shapes. The
//! network, the loopback listener and the browser live in the unverified
//! shell.

use vstd::prelude::*;
use vstd::string::*;
use crate::json::{Json, JsonV, jv, jv_seq, jv_members, lemma_jv_seq, lemma_jv_members,
    is_hex_digit, hex_val};
use crate::rpc::obj_lookup;
use crate::text::{has_prefix, dec_digits, dec_val, all_digits};
use crate::transport::trim_spec;
use crate::pkce::is_unreserved;

verus! {

/// The percent-encoding of a string. The encoding depends on the
/// characters alone.
pub uninterp spec fn url_encoded_of(s: Seq<char>) -> Seq<char>;

/// Relies on urlencoding::encode: percent-encodes every byte except
/// alphanumerics and `-`, `_`, `.`, `~`; a string of such characters is
/// returned unchanged.
#[verifier::external_body]
pub(crate) fn url_encode(s: &str) -> (r: String)
    ensures
        r@ == url_encoded_of(s@),
        (forall|i: int| 0 <= i < s@.len() ==> is_unreserved(#[trigger] s@[i])) ==> r@ == s@,
{
    urlencoding::encode(s).into_owned()
}

/// ASCII percent-decoding: `%XX` pairs below 0x80 become their character;
/// anything else passes through unchanged.
pub open spec fn pct_decode(s: Seq<char>) -> Seq<char>
    decreases s.len(),
{
    if s.len() == 0 {
        Seq::empty()
    } else if s[0] == '%' && s.len() >= 3 && is_hex_digit(s[1]) && is_hex_digit(s[2]) && hex_val(
        s[1],
    ) * 16 + hex_val(s[2]) < 0x80 {
        seq![((hex_val(s[1]) * 16 + hex_val(s[2])) as u8) as char] + pct_decode(s.skip(3))
    } else {
        seq![s[0]] + pct_decode(s.skip(1))
    }
}

/// Percent-decodes ASCII escapes.
pub fn pct_decode_exec(s: &Vec<char>, i: usize) -> (r: Vec<char>)
    requires
        i <= s@.len(),
    ensures
        r@ == pct_decode(s@.skip(i as int)),
    decreases s@.len() - i,
{
    if i >= s.len() {
        let r: Vec<char> = Vec::new();
        proof {
            assert(s@.skip(i as int) =~= Seq::<char>::empty());
        }
        r
    } else {
        let ghost suff = s@.skip(i as int);
        proof {
            assert(suff[0] == s@[i as int]);
            assert(suff.skip(1) =~= s@.skip(i as int + 1));
            if suff.len() >= 3 {
                assert(suff[1] == s@[i as int + 1]);
                assert(suff[2] == s@[i as int + 2]);
                assert(suff.skip(3) =~= s@.skip(i as int + 3));
            }
        }
        if s[i] == '%' && s.len() - i >= 3 && is_hex_exec(s[i + 1]) && is_hex_exec(s[i + 2]) {
            let v: u32 = hex_val_u32(s[i + 1]) * 16 + hex_val_u32(s[i + 2]);
            if v < 0x80 {
                let mut rest = pct_decode_exec(s, i + 3);
                rest.insert(0, (v as u8) as char);
                proof {
                    assert(rest@ =~= seq![((v as u8) as char)] + rest@.drop_first());
                }
                return rest;
            }
            let mut rest = pct_decode_exec(s, i + 1);
            rest.insert(0, s[i]);
            proof {
                assert(rest@ =~= seq![s@[i as int]] + rest@.drop_first());
            }
            rest
        } else {
            let mut rest = pct_decode_exec(s, i + 1);
            rest.insert(0, s[i]);
            proof {
                assert(rest@ =~= seq![s@[i as int]] + rest@.drop_first());
            }
            rest
        }
    }
}

fn is_hex_exec(c: char) -> (r: bool)
    ensures
        r == is_hex_digit(c),
{
    ('0' <= c && c <= '9') || ('a' <= c && c <= 'f') || ('A' <= c && c <= 'F')
}

fn hex_val_u32(c: char) -> (r: u32)
    requires
        is_hex_digit(c),
    ensures
        r == hex_val(c),
        r < 16,
{
    if '0' <= c && c <= '9' {
        (c as u32) - ('0' as u32)
    } else if 'a' <= c && c <= 'f' {
        (c as u32) - ('a' as u32) + 10
    } else {
        (c as u32) - ('A' as u32) + 10
    }
}

/// The ASCII lower-case form of a character.
pub open spec fn ascii_lower(c: char) -> char {
    if 'A' <= c && c <= 'Z' {
        ((c as u8) + 32) as char
    } else {
        c
    }
}

/// Whether the header opens with `Bearer`, case-insensitively.
pub open spec fn bearer_prefixed(h: Seq<char>) -> bool {
    h.len() >= 6 && Seq::new(6, |i: int| ascii_lower(h[i])) == "bearer"@
}

/// The first position at or after `i` that holds a comma, or the end.
pub open spec fn comma_end(s: Seq<char>, i: int) -> int
    decreases s.len() - i,
{
    if 0 <= i < s.len() && s[i] != ',' {
        comma_end(s, i + 1)
    } else {
        i
    }
}

/// A part with all surrounding double quotes removed.
pub open spec fn trim_quotes(s: Seq<char>) -> Seq<char>
    decreases s.len(),
{
    if s.len() > 0 && s[0] == '"' {
        trim_quotes(s.drop_first())
    } else if s.len() > 0 && s.last() == '"' {
        trim_quotes(s.drop_last())
    } else {
        s
    }
}

/// The metadata URL of the first comma-separated part, at or after `i`,
/// that begins with `resource_metadata=`, with quotes stripped.
pub open spec fn www_auth_url_from(h: Seq<char>, i: int) -> Option<Seq<char>>
    decreases h.len() - i,
{
    if !(0 <= i <= h.len()) {
        None
    } else {
        let e = comma_end(h, i);
        if !(i <= e <= h.len()) {
            None
        } else {
            let part = trim_spec(h.subrange(i, e));
            if has_prefix(part, "resource_metadata="@) {
                Some(trim_quotes(part.skip(18)))
            } else if e + 1 > h.len() {
                None
            } else {
                www_auth_url_from(h, e + 1)
            }
        }
    }
}

/// The resource-metadata URL carried by a `WWW-Authenticate` challenge: a
/// header not opening with `Bearer` (case-insensitive) carries none.
pub open spec fn www_auth_url(h: Seq<char>) -> Option<Seq<char>> {
    if bearer_prefixed(h) {
        www_auth_url_from(h, 0)
    } else {
        None
    }
}

/// The ASCII lower-case form of a character.
pub fn lower_char(c: char) -> (r: char)
    ensures
        r == ascii_lower(c),
{
    if 'A' <= c && c <= 'Z' {
        (((c as u32) + 32) as u8) as char
    } else {
        c
    }
}

fn find_comma(s: &Vec<char>, i: usize) -> (r: usize)
    requires
        i <= s@.len(),
    ensures
        r == comma_end(s@, i as int),
        i <= r <= s@.len(),
{
    let mut j = i;
    while j < s.len() && s[j] != ','
        invariant
            i <= j <= s@.len(),
            comma_end(s@, i as int) == comma_end(s@, j as int),
        decreases s@.len() - j,
    {
        j += 1;
    }
    j
}

fn do_trim_quotes(s: Vec<char>) -> (r: Vec<char>)
    ensures
        r@ == trim_quotes(s@),
    decreases s@.len(),
{
    let ghost orig = s@;
    let mut s = s;
    if s.len() > 0 && s[0] == '"' {
        s.remove(0);
        proof {
            assert(s@ =~= orig.drop_first());
        }
        do_trim_quotes(s)
    } else if s.len() > 0 && s[s.len() - 1] == '"' {
        s.pop();
        proof {
            assert(s@ =~= orig.drop_last());
        }
        do_trim_quotes(s)
    } else {
        s
    }
}

fn www_auth_scan(h: &Vec<char>, i: usize) -> (r: Option<Vec<char>>)
    requires
        i <= h@.len(),
    ensures
        match r {
            Some(u) => www_auth_url_from(h@, i as int) == Some(u@),
            None => www_auth_url_from(h@, i as int) is None,
        },
    decreases h@.len() - i,
{
    let e = find_comma(h, i);
    let raw = crate::transport::copy_range(h, i, e);
    let part = crate::transport::do_trim(&raw);
    let is_meta = meta_prefixed(&part);
    if is_meta {
        proof {
            reveal_strlit("resource_metadata=");
        }
        let tail = crate::transport::copy_range(&part, 18, part.len());
        proof {
            assert(tail@ =~= part@.skip(18));
        }
        Some(do_trim_quotes(tail))
    } else if e >= h.len() {
        None
    } else {
        www_auth_scan(h, e + 1)
    }
}

/// Whether the part begins with `resource_metadata=`.
fn meta_prefixed(l: &Vec<char>) -> (r: bool)
    ensures
        r == has_prefix(l@, "resource_metadata="@),
{
    proof {
        reveal_strlit("resource_metadata=");
    }
    if l.len() < 18 {
        return false;
    }
    let p = "resource_metadata=";
    let pc = crate::text::chars_of(p);
    let mut k: usize = 0;
    while k < 18
        invariant
            pc@ == "resource_metadata="@,
            pc@.len() == 18,
            l@.len() >= 18,
            k <= 18,
            forall|j: int| 0 <= j < k ==> l@[j] == pc@[j],
        decreases 18 - k,
    {
        if l[k] != pc[k] {
            proof {
                if has_prefix(l@, "resource_metadata="@) {
                    assert(l@.subrange(0, 18)[k as int] == pc@[k as int]);
                }
            }
            return false;
        }
        k += 1;
    }
    proof {
        assert(l@.subrange(0, 18) =~= pc@);
    }
    true
}

/// Extracts the resource-metadata URL from a `WWW-Authenticate` header, if
/// the challenge is a Bearer challenge that names one.
pub fn parse_www_authenticate(header: &str) -> (r: Option<String>)
    ensures
        match r {
            Some(u) => www_auth_url(header@) == Some(u@),
            None => www_auth_url(header@) is None,
        },
{
    let h = crate::text::chars_of(header);
    if h.len() < 6 {
        proof {
            reveal_strlit("bearer");
        }
        return None;
    }
    let l0 = lower_char(h[0]);
    let l1 = lower_char(h[1]);
    let l2 = lower_char(h[2]);
    let l3 = lower_char(h[3]);
    let l4 = lower_char(h[4]);
    let l5 = lower_char(h[5]);
    let ok = l0 == 'b' && l1 == 'e' && l2 == 'a' && l3 == 'r' && l4 == 'e' && l5 == 'r';
    proof {
        reveal_strlit("bearer");
        if ok {
            assert(Seq::new(6, |i: int| ascii_lower(h@[i])) =~= "bearer"@);
        } else {
            if bearer_prefixed(h@) {
                let lw = Seq::new(6, |i: int| ascii_lower(h@[i]));
                assert(lw[0] == 'b' && lw[1] == 'e' && lw[2] == 'a' && lw[3] == 'r' && lw[4] == 'e'
                    && lw[5] == 'r');
            }
        }
    }
    if !ok {
        return None;
    }
    match www_auth_scan(&h, 0) {
        Some(u) => Some(crate::text::string_of(&u)),
        None => None,
    }
}

/// The first position at or after `i` that holds the given character, or
/// the end.
pub open spec fn char_end(s: Seq<char>, i: int, c: char) -> int
    decreases s.len() - i,
{
    if 0 <= i < s.len() && s[i] != c {
        char_end(s, i + 1, c)
    } else {
        i
    }
}

fn find_char(s: &Vec<char>, i: usize, c: char) -> (r: usize)
    requires
        i <= s@.len(),
    ensures
        r == char_end(s@, i as int, c),
        i <= r <= s@.len(),
        r < s@.len() ==> s@[r as int] == c,
{
    let mut j = i;
    while j < s.len() && s[j] != c
        invariant
            i <= j <= s@.len(),
            char_end(s@, i as int, c) == char_end(s@, j as int, c),
        decreases s@.len() - j,
    {
        j += 1;
    }
    j
}

/// The port named by a loopback redirect URI such as
/// `http://localhost:12345/callback`: the decimal digits between the colon
/// after the host and the next slash (or the end), when they fit a `u16`.
pub open spec fn uri_port(s: Seq<char>) -> Option<u16> {
    let k = scheme_sep(s, 0);
    if k < 0 {
        None
    } else {
        let rest = s.skip(k + 3);
        let c = char_end(rest, 0, ':');
        if c >= rest.len() {
            None
        } else {
            let after = rest.skip(c + 1);
            let e = char_end(after, 0, '/');
            let port = after.take(e);
            if all_digits(port) && port.len() > 0 && dec_val(port) <= 65535 {
                Some(dec_val(port) as u16)
            } else {
                None
            }
        }
    }
}

/// The start of the first `://` at or after `i`, or `-1`.
pub open spec fn scheme_sep(s: Seq<char>, i: int) -> int
    decreases s.len() - i,
{
    if i < 0 {
        -1
    } else if i + 3 > s.len() {
        -1
    } else if s[i] == ':' && s[i + 1] == '/' && s[i + 2] == '/' {
        i
    } else {
        scheme_sep(s, i + 1)
    }
}

fn find_scheme_sep(s: &Vec<char>, i: usize) -> (r: Option<usize>)
    requires
        i <= s@.len(),
    ensures
        match r {
            Some(k) => scheme_sep(s@, i as int) == k as int && i <= k && k + 3 <= s@.len(),
            None => scheme_sep(s@, i as int) == -1,
        },
    decreases s@.len() - i,
{
    if s.len() - i < 3 {
        return None;
    }
    if s[i] == ':' && s[i + 1] == '/' && s[i + 2] == '/' {
        return Some(i);
    }
    find_scheme_sep(s, i + 1)
}

/// Extracts the port from a redirect URI.
pub fn extract_port_from_uri(uri: &str) -> (r: Option<u16>)
    ensures
        r == uri_port(uri@),
{
    let s = crate::text::chars_of(uri);
    let n = s.len();
    let k = match find_scheme_sep(&s, 0) {
        Some(k) => k,
        None => {
            return None;
        },
    };
    assert(k + 3 <= n);
    let rest = crate::transport::copy_range(&s, k + 3, n);
    proof {
        assert(rest@ =~= s@.skip(k as int + 3));
    }
    let c = find_char(&rest, 0, ':');
    if c >= rest.len() {
        return None;
    }
    let after = crate::transport::copy_range(&rest, c + 1, rest.len());
    proof {
        assert(after@ =~= rest@.skip(c as int + 1));
    }
    let e = find_char(&after, 0, '/');
    let port = crate::transport::copy_range(&after, 0, e);
    proof {
        assert(port@ =~= after@.take(e as int));
    }
    match crate::text::parse_u64_digits(&port) {
        Some(n) => {
            if n <= 65535 {
                Some(n as u16)
            } else {
                None
            }
        },
        None => {
            proof {
                if all_digits(port@) && port@.len() > 0 && dec_val(port@) <= 65535 {
                    assert(dec_val(port@) <= u64::MAX);
                }
            }
            None
        },
    }
}

/// The origin of a URL: scheme and host, with any path and trailing
/// slashes removed.
pub open spec fn origin_spec(url: Seq<char>) -> Seq<char> {
    let base = rstrip_slashes(url);
    let k = scheme_sep(base, 0);
    if k < 0 {
        base
    } else {
        let p = char_end(base, k + 3, '/');
        if p < base.len() {
            base.take(p)
        } else {
            base
        }
    }
}

/// The text with all trailing slashes removed.
pub open spec fn rstrip_slashes(s: Seq<char>) -> Seq<char>
    decreases s.len(),
{
    if s.len() > 0 && s.last() == '/' {
        rstrip_slashes(s.drop_last())
    } else {
        s
    }
}

fn do_rstrip_slashes(s: Vec<char>) -> (r: Vec<char>)
    ensures
        r@ == rstrip_slashes(s@),
    decreases s@.len(),
{
    let ghost orig = s@;
    let mut s = s;
    if s.len() > 0 && s[s.len() - 1] == '/' {
        s.pop();
        proof {
            assert(s@ =~= orig.drop_last());
        }
        do_rstrip_slashes(s)
    } else {
        s
    }
}

/// The origin of a URL.
pub fn origin_of(url: &str) -> (r: String)
    ensures
        r@ == origin_spec(url@),
{
    let cs = crate::text::chars_of(url);
    let base = do_rstrip_slashes(cs);
    let n = base.len();
    match find_scheme_sep(&base, 0) {
        Some(k) => {
            assert(k + 3 <= n);
            let p = find_char(&base, k + 3, '/');
            if p < base.len() {
                let head = crate::transport::copy_range(&base, 0, p);
                proof {
                    assert(head@ =~= base@.take(p as int));
                }
                crate::text::string_of(&head)
            } else {
                crate::text::string_of(&base)
            }
        },
        None => crate::text::string_of(&base),
    }
}

/// The OpenID-style discovery URL of an authorization server.
pub fn oidc_discovery_url(auth_server: &str) -> (r: String)
    ensures
        r@ == auth_server@ + "/.well-known/openid-configuration"@,
{
    let mut r = auth_server.to_owned();
    r.append("/.well-known/openid-configuration");
    r
}

/// The plain OAuth discovery URL of an authorization server.
pub fn oauth_discovery_url(auth_server: &str) -> (r: String)
    ensures
        r@ == auth_server@ + "/.well-known/oauth-authorization-server"@,
{
    let mut r = auth_server.to_owned();
    r.append("/.well-known/oauth-authorization-server");
    r
}

/// The protected-resource metadata URL of an origin.
pub fn resource_discovery_url(origin: &str) -> (r: String)
    ensures
        r@ == origin@ + "/.well-known/oauth-protected-resource"@,
{
    let mut r = origin.to_owned();
    r.append("/.well-known/oauth-protected-resource");
    r
}

/// Protected-resource metadata: the candidate authorization servers and
/// the scopes the resource advertises.
pub struct ProtectedResourceMetadata {
    pub resource: String,
    pub authorization_servers: Vec<String>,
    pub scopes_supported: Vec<String>,
}

/// Authorization-server metadata: the endpoints of the flow.
pub struct AuthServerMetadata {
    pub issuer: String,
    pub authorization_endpoint: String,
    pub token_endpoint: String,
    pub registration_endpoint: Option<String>,
}

/// A dynamic client registration's result.
pub struct ClientRegistrationResponse {
    pub client_id: String,
    pub client_secret: Option<String>,
}

/// A token endpoint's successful answer.
pub struct TokenResponse {
    pub access_token: String,
    pub token_type: String,
    pub expires_in: Option<u64>,
    pub refresh_token: Option<String>,
}

/// An OAuth-shaped error body.
pub struct OAuthError {
    pub error: String,
    pub error_description: Option<String>,
}

/// The views of a sequence of strings.
pub open spec fn str_views(s: Seq<String>) -> Seq<Seq<char>> {
    Seq::new(s.len(), |i: int| s[i]@)
}

/// The strings of a JSON array, each of which must be a string.
pub open spec fn str_seq_of(items: Seq<JsonV>) -> Option<Seq<Seq<char>>>
    decreases items.len(),
{
    if items.len() == 0 {
        Some(Seq::empty())
    } else {
        match items[0] {
            JsonV::Str(s) => match str_seq_of(items.drop_first()) {
                Some(rest) => Some(seq![s] + rest),
                None => None,
            },
            _ => None,
        }
    }
}

fn parse_str_array(items: &Vec<Json>) -> (r: Option<Vec<String>>)
    ensures
        match r {
            Some(v) => str_seq_of(jv_seq(items@)) == Some(str_views(v@)),
            None => str_seq_of(jv_seq(items@)) is None,
        },
{
    let mut out: Vec<String> = Vec::new();
    let mut k: usize = 0;
    proof {
        lemma_jv_seq(items@);
        assert(jv_seq(items@).skip(0) =~= jv_seq(items@));
        assert(str_views(out@) =~= Seq::<Seq<char>>::empty());
        match str_seq_of(jv_seq(items@)) {
            Some(all) => {
                assert(str_views(out@) + all =~= all);
            },
            None => {},
        }
    }
    while k < items.len()
        invariant
            k <= items@.len(),
            jv_seq(items@).len() == items@.len(),
            forall|i: int| 0 <= i < items@.len() ==> jv_seq(items@)[i] == jv(#[trigger] items@[i]),
            out@.len() == k,
            str_seq_of(jv_seq(items@).skip(k as int)) is Some ==> (str_seq_of(jv_seq(items@))
                matches Some(all) && all == str_views(out@) + str_seq_of(
                jv_seq(items@).skip(k as int),
            )->0),
            str_seq_of(jv_seq(items@).skip(k as int)) is None ==> str_seq_of(
                jv_seq(items@),
            ) is None,
        decreases items@.len() - k,
    {
        proof {
            lemma_jv_seq(items@);
            assert(jv_seq(items@).skip(k as int)[0] == jv(items@[k as int]));
            assert(jv_seq(items@).skip(k as int).drop_first() =~= jv_seq(items@).skip(
                k as int + 1,
            ));
        }
        let s = match &items[k] {
            Json::Str(s) => s.clone(),
            _ => {
                return None;
            },
        };
        let ghost pre = out@;
        out.push(s);
        proof {
            assert forall|i: int| 0 <= i < out@.len() implies #[trigger] str_views(out@)[i]
                == (str_views(pre).push(out@[pre.len() as int]@))[i] by {
                if i < pre.len() {
                    assert(out@[i] == pre[i]);
                }
            }
            assert(str_views(out@) =~= str_views(pre).push(out@[pre.len() as int]@));
            match str_seq_of(jv_seq(items@).skip(k as int + 1)) {
                Some(sub) => {
                    assert(str_views(pre) + (seq![out@[pre.len() as int]@] + sub) =~= str_views(
                        pre,
                    ).push(out@[pre.len() as int]@) + sub);
                },
                None => {},
            }
        }
        k += 1;
    }
    proof {
        assert(jv_seq(items@).skip(items@.len() as int) =~= Seq::<JsonV>::empty());
        assert(str_seq_of(Seq::<JsonV>::empty()) == Some(Seq::<Seq<char>>::empty()));
        assert(str_views(out@) + Seq::<Seq<char>>::empty() =~= str_views(out@));
    }
    Some(out)
}

/// The protected-resource metadata a JSON value stands for: a required
/// string `resource`, a required array of strings `authorization_servers`,
/// and `scopes_supported` defaulting to none.
pub open spec fn resource_metadata_of_jsonv(v: JsonV) -> Option<
    (Seq<char>, Seq<Seq<char>>, Seq<Seq<char>>),
> {
    match v {
        JsonV::Obj(ms) => match crate::protocol::req_str_member(ms, "resource"@) {
            Some(res) => match obj_lookup(ms, "authorization_servers"@) {
                Some(JsonV::Arr(items)) => match str_seq_of(items) {
                    Some(servers) => match obj_lookup(ms, "scopes_supported"@) {
                        None => Some((res, servers, Seq::empty())),
                        Some(JsonV::Arr(sitems)) => match str_seq_of(sitems) {
                            Some(scopes) => Some((res, servers, scopes)),
                            None => None,
                        },
                        Some(_) => None,
                    },
                    None => None,
                },
                _ => None,
            },
            None => None,
        },
        _ => None,
    }
}

/// Parses protected-resource metadata.
pub fn parse_resource_metadata(v: &Json) -> (r: Option<ProtectedResourceMetadata>)
    ensures
        match r {
            Some(m) => resource_metadata_of_jsonv(jv(*v)) == Some(
                (m.resource@, str_views(m.authorization_servers@), str_views(m.scopes_supported@)),
            ),
            None => resource_metadata_of_jsonv(jv(*v)) is None,
        },
{
    let ms = match v {
        Json::Obj(ms) => ms,
        _ => {
            return None;
        },
    };
    let resource = match crate::rpc::obj_get(ms, "resource") {
        Some(a) => match a {
            Json::Str(s) => s.clone(),
            _ => {
                return None;
            },
        },
        None => {
            return None;
        },
    };
    let servers = match crate::rpc::obj_get(ms, "authorization_servers") {
        Some(a) => match a {
            Json::Arr(items) => match parse_str_array(items) {
                Some(v2) => v2,
                None => {
                    return None;
                },
            },
            _ => {
                return None;
            },
        },
        None => {
            return None;
        },
    };
    let scopes = match crate::rpc::obj_get(ms, "scopes_supported") {
        Some(a) => match a {
            Json::Arr(items) => match parse_str_array(items) {
                Some(v2) => v2,
                None => {
                    return None;
                },
            },
            _ => {
                return None;
            },
        },
        None => Vec::new(),
    };
    proof {
        assert(str_views(Seq::<String>::empty()) =~= Seq::<Seq<char>>::empty());
    }
    Some(ProtectedResourceMetadata {
        resource,
        authorization_servers: servers,
        scopes_supported: scopes,
    })
}

/// The authorization-server metadata a JSON value stands for.
pub open spec fn auth_server_metadata_of_jsonv(v: JsonV) -> Option<
    (Seq<char>, Seq<char>, Seq<char>, Option<Seq<char>>),
> {
    match v {
        JsonV::Obj(ms) => match crate::protocol::req_str_member(ms, "issuer"@) {
            Some(iss) => match crate::protocol::req_str_member(ms, "authorization_endpoint"@) {
                Some(ae) => match crate::protocol::req_str_member(ms, "token_endpoint"@) {
                    Some(te) => match crate::protocol::opt_str_member(
                        ms,
                        "registration_endpoint"@,
                    ) {
                        Some(re) => Some((iss, ae, te, re)),
                        None => None,
                    },
                    None => None,
                },
                None => None,
            },
            None => None,
        },
        _ => None,
    }
}

/// Parses authorization-server metadata.
pub fn parse_auth_server_metadata(v: &Json) -> (r: Option<AuthServerMetadata>)
    ensures
        match r {
            Some(m) => auth_server_metadata_of_jsonv(jv(*v)) == Some(
                (m.issuer@, m.authorization_endpoint@, m.token_endpoint@, match m
                    .registration_endpoint {
                    Some(e) => Some(e@),
                    None => None,
                }),
            ),
            None => auth_server_metadata_of_jsonv(jv(*v)) is None,
        },
{
    let ms = match v {
        Json::Obj(ms) => ms,
        _ => {
            return None;
        },
    };
    let issuer = match crate::rpc::obj_get(ms, "issuer") {
        Some(a) => match a {
            Json::Str(s) => s.clone(),
            _ => {
                return None;
            },
        },
        None => {
            return None;
        },
    };
    let authorization_endpoint = match crate::rpc::obj_get(ms, "authorization_endpoint") {
        Some(a) => match a {
            Json::Str(s) => s.clone(),
            _ => {
                return None;
            },
        },
        None => {
            return None;
        },
    };
    let token_endpoint = match crate::rpc::obj_get(ms, "token_endpoint") {
        Some(a) => match a {
            Json::Str(s) => s.clone(),
            _ => {
                return None;
            },
        },
        None => {
            return None;
        },
    };
    let registration_endpoint = match crate::rpc::obj_get(ms, "registration_endpoint") {
        Some(a) => match a {
            Json::Str(s) => Some(s.clone()),
            Json::Null => None,
            _ => {
                return None;
            },
        },
        None => None,
    };
    Some(AuthServerMetadata { issuer, authorization_endpoint, token_endpoint, registration_endpoint })
}

/// The registration response a JSON value stands for.
pub open spec fn registration_of_jsonv(v: JsonV) -> Option<(Seq<char>, Option<Seq<char>>)> {
    match v {
        JsonV::Obj(ms) => match crate::protocol::req_str_member(ms, "client_id"@) {
            Some(ci) => match crate::protocol::opt_str_member(ms, "client_secret"@) {
                Some(cs) => Some((ci, cs)),
                None => None,
            },
            None => None,
        },
        _ => None,
    }
}

/// Parses a dynamic client registration response.
pub fn parse_registration_response(v: &Json) -> (r: Option<ClientRegistrationResponse>)
    ensures
        match r {
            Some(m) => registration_of_jsonv(jv(*v)) == Some(
                (m.client_id@, match m.client_secret {
                    Some(s) => Some(s@),
                    None => None,
                }),
            ),
            None => registration_of_jsonv(jv(*v)) is None,
        },
{
    let ms = match v {
        Json::Obj(ms) => ms,
        _ => {
            return None;
        },
    };
    let client_id = match crate::rpc::obj_get(ms, "client_id") {
        Some(a) => match a {
            Json::Str(s) => s.clone(),
            _ => {
                return None;
            },
        },
        None => {
            return None;
        },
    };
    let client_secret = match crate::rpc::obj_get(ms, "client_secret") {
        Some(a) => match a {
            Json::Str(s) => Some(s.clone()),
            Json::Null => None,
            _ => {
                return None;
            },
        },
        None => None,
    };
    Some(ClientRegistrationResponse { client_id, client_secret })
}

/// The token response a JSON value stands for.
pub open spec fn token_response_of_jsonv(v: JsonV) -> Option<
    (Seq<char>, Seq<char>, Option<u64>, Option<Seq<char>>),
> {
    match v {
        JsonV::Obj(ms) => match crate::protocol::req_str_member(ms, "access_token"@) {
            Some(at) => match crate::protocol::req_str_member(ms, "token_type"@) {
                Some(tt) => match crate::store::opt_u64_member(ms, "expires_in"@) {
                    Some(ei) => match crate::protocol::opt_str_member(ms, "refresh_token"@) {
                        Some(rt) => Some((at, tt, ei, rt)),
                        None => None,
                    },
                    None => None,
                },
                None => None,
            },
            None => None,
        },
        _ => None,
    }
}

/// Parses a token endpoint's successful answer.
pub fn parse_token_response(v: &Json) -> (r: Option<TokenResponse>)
    ensures
        match r {
            Some(m) => token_response_of_jsonv(jv(*v)) == Some(
                (m.access_token@, m.token_type@, m.expires_in, match m.refresh_token {
                    Some(s) => Some(s@),
                    None => None,
                }),
            ),
            None => token_response_of_jsonv(jv(*v)) is None,
        },
{
    let ms = match v {
        Json::Obj(ms) => ms,
        _ => {
            return None;
        },
    };
    let access_token = match crate::rpc::obj_get(ms, "access_token") {
        Some(a) => match a {
            Json::Str(s) => s.clone(),
            _ => {
                return None;
            },
        },
        None => {
            return None;
        },
    };
    let token_type = match crate::rpc::obj_get(ms, "token_type") {
        Some(a) => match a {
            Json::Str(s) => s.clone(),
            _ => {
                return None;
            },
        },
        None => {
            return None;
        },
    };
    let expires_in = match crate::rpc::obj_get(ms, "expires_in") {
        Some(a) => match a {
            Json::Num(lex) => match crate::text::parse_u64_digits(lex) {
                Some(n) => Some(n),
                None => {
                    return None;
                },
            },
            Json::Null => None,
            _ => {
                return None;
            },
        },
        None => None,
    };
    let refresh_token = match crate::rpc::obj_get(ms, "refresh_token") {
        Some(a) => match a {
            Json::Str(s) => Some(s.clone()),
            Json::Null => None,
            _ => {
                return None;
            },
        },
        None => None,
    };
    Some(TokenResponse { access_token, token_type, expires_in, refresh_token })
}

/// The OAuth error a JSON value stands for.
pub open spec fn oauth_error_of_jsonv(v: JsonV) -> Option<(Seq<char>, Option<Seq<char>>)> {
    match v {
        JsonV::Obj(ms) => match crate::protocol::req_str_member(ms, "error"@) {
            Some(e) => match crate::protocol::opt_str_member(ms, "error_description"@) {
                Some(d) => Some((e, d)),
                None => None,
            },
            None => None,
        },
        _ => None,
    }
}

/// Parses an OAuth-shaped error body.
pub fn parse_oauth_error(v: &Json) -> (r: Option<OAuthError>)
    ensures
        match r {
            Some(m) => oauth_error_of_jsonv(jv(*v)) == Some(
                (m.error@, match m.error_description {
                    Some(s) => Some(s@),
                    None => None,
                }),
            ),
            None => oauth_error_of_jsonv(jv(*v)) is None,
        },
{
    let ms = match v {
        Json::Obj(ms) => ms,
        _ => {
            return None;
        },
    };
    let error = match crate::rpc::obj_get(ms, "error") {
        Some(a) => match a {
            Json::Str(s) => s.clone(),
            _ => {
                return None;
            },
        },
        None => {
            return None;
        },
    };
    let error_description = match crate::rpc::obj_get(ms, "error_description") {
        Some(a) => match a {
            Json::Str(s) => Some(s.clone()),
            Json::Null => None,
            _ => {
                return None;
            },
        },
        None => None,
    };
    Some(OAuthError { error, error_description })
}

/// The space-joined scope list, from index `i` on.
pub open spec fn join_scopes_from(s: Seq<Seq<char>>, i: int) -> Seq<char>
    decreases s.len() - i,
{
    if !(0 <= i < s.len()) {
        Seq::empty()
    } else if i == s.len() - 1 {
        s[i]
    } else {
        s[i] + seq![' '] + join_scopes_from(s, i + 1)
    }
}

/// The scope parameter: the advertised scopes joined by spaces, or the
/// default `read write` when the resource advertised none.
pub open spec fn scope_param(scopes: Seq<Seq<char>>) -> Seq<char> {
    if scopes.len() == 0 {
        "read write"@
    } else {
        join_scopes_from(scopes, 0)
    }
}

fn join_scopes_exec(scopes: &Vec<String>, i: usize) -> (r: String)
    requires
        i <= scopes@.len(),
    ensures
        r@ == join_scopes_from(str_views(scopes@), i as int),
    decreases scopes@.len() - i,
{
    if i >= scopes.len() {
        String::new()
    } else if i == scopes.len() - 1 {
        proof {
            assert(str_views(scopes@)[i as int] == scopes@[i as int]@);
        }
        scopes[i].clone()
    } else {
        let mut r = scopes[i].clone();
        r.append(" ");
        let rest = join_scopes_exec(scopes, i + 1);
        r.append(rest.as_str());
        proof {
            reveal_strlit(" ");
            assert(" "@ =~= seq![' ']);
            assert(str_views(scopes@)[i as int] == scopes@[i as int]@);
            assert(r@ =~= str_views(scopes@)[i as int] + seq![' '] + join_scopes_from(
                str_views(scopes@),
                i as int + 1,
            ));
        }
        r
    }
}

/// Builds the scope parameter.
pub fn build_scope_param(scopes: &Vec<String>) -> (r: String)
    ensures
        r@ == scope_param(str_views(scopes@)),
{
    if scopes.len() == 0 {
        "read write".to_owned()
    } else {
        join_scopes_exec(scopes, 0)
    }
}

/// Builds the authorization URL, with a scope parameter.
pub fn build_authorize_url_with_scope(
    endpoint: &str,
    client_id: &str,
    redirect_uri: &str,
    scopes: &str,
    state: &str,
    challenge: &str,
) -> (r: String)
    ensures
        r@ == endpoint@ + "?client_id="@ + url_encoded_of(client_id@) + "&redirect_uri="@
            + url_encoded_of(redirect_uri@) + "&response_type=code&scope="@ + url_encoded_of(
            scopes@,
        ) + "&state="@ + url_encoded_of(state@) + "&code_challenge="@ + url_encoded_of(challenge@)
            + "&code_challenge_method=S256"@,
{
    let mut r = endpoint.to_owned();
    r.append("?client_id=");
    let e1 = url_encode(client_id);
    r.append(e1.as_str());
    r.append("&redirect_uri=");
    let e2 = url_encode(redirect_uri);
    r.append(e2.as_str());
    r.append("&response_type=code&scope=");
    let e3 = url_encode(scopes);
    r.append(e3.as_str());
    r.append("&state=");
    let e4 = url_encode(state);
    r.append(e4.as_str());
    r.append("&code_challenge=");
    let e5 = url_encode(challenge);
    r.append(e5.as_str());
    r.append("&code_challenge_method=S256");
    r
}

/// Builds the authorization URL, without a scope parameter (the
/// direct-metadata entry point).
pub fn build_authorize_url(
    endpoint: &str,
    client_id: &str,
    redirect_uri: &str,
    state: &str,
    challenge: &str,
) -> (r: String)
    ensures
        r@ == endpoint@ + "?client_id="@ + url_encoded_of(client_id@) + "&redirect_uri="@
            + url_encoded_of(redirect_uri@) + "&response_type=code&state="@ + url_encoded_of(
            state@,
        ) + "&code_challenge="@ + url_encoded_of(challenge@) + "&code_challenge_method=S256"@,
{
    let mut r = endpoint.to_owned();
    r.append("?client_id=");
    let e1 = url_encode(client_id);
    r.append(e1.as_str());
    r.append("&redirect_uri=");
    let e2 = url_encode(redirect_uri);
    r.append(e2.as_str());
    r.append("&response_type=code&state=");
    let e3 = url_encode(state);
    r.append(e3.as_str());
    r.append("&code_challenge=");
    let e4 = url_encode(challenge);
    r.append(e4.as_str());
    r.append("&code_challenge_method=S256");
    r
}

/// The JSON body of a dynamic client registration request.
pub open spec fn registration_body_jsonv(redirect_uri: Seq<char>) -> JsonV {
    JsonV::Obj(
        seq![
            ("client_name"@, JsonV::Str("relay"@)),
            ("redirect_uris"@, JsonV::Arr(seq![JsonV::Str(redirect_uri)])),
            ("grant_types"@, JsonV::Arr(
                seq![JsonV::Str("authorization_code"@), JsonV::Str("refresh_token"@)],
            )),
            ("response_types"@, JsonV::Arr(seq![JsonV::Str("code"@)])),
        ],
    )
}

/// Builds the registration request body.
pub fn registration_body(redirect_uri: &str) -> (r: Json)
    ensures
        jv(r) == registration_body_jsonv(redirect_uri@),
{
    let mut uris: Vec<Json> = Vec::new();
    uris.push(Json::Str(redirect_uri.to_owned()));
    let mut grants: Vec<Json> = Vec::new();
    grants.push(Json::Str("authorization_code".to_owned()));
    grants.push(Json::Str("refresh_token".to_owned()));
    let mut rts: Vec<Json> = Vec::new();
    rts.push(Json::Str("code".to_owned()));
    let mut ms: Vec<(String, Json)> = Vec::new();
    ms.push(("client_name".to_owned(), Json::Str("relay".to_owned())));
    ms.push(("redirect_uris".to_owned(), Json::Arr(uris)));
    ms.push(("grant_types".to_owned(), Json::Arr(grants)));
    ms.push(("response_types".to_owned(), Json::Arr(rts)));
    let obj = Json::Obj(ms);
    proof {
        lemma_jv_members(obj->Obj_0@);
        let target = registration_body_jsonv(redirect_uri@);
        assert(jv_members(obj->Obj_0@)[0] == ((obj->Obj_0@[0]).0@, jv(obj->Obj_0@[0].1)));
        assert(jv_members(obj->Obj_0@)[1] == ((obj->Obj_0@[1]).0@, jv(obj->Obj_0@[1].1)));
        assert(jv_members(obj->Obj_0@)[2] == ((obj->Obj_0@[2]).0@, jv(obj->Obj_0@[2].1)));
        assert(jv_members(obj->Obj_0@)[3] == ((obj->Obj_0@[3]).0@, jv(obj->Obj_0@[3].1)));
        lemma_jv_seq((obj->Obj_0@[1].1)->Arr_0@);
        lemma_jv_seq((obj->Obj_0@[2].1)->Arr_0@);
        lemma_jv_seq((obj->Obj_0@[3].1)->Arr_0@);
        assert(jv_seq((obj->Obj_0@[1].1)->Arr_0@)[0] == jv((obj->Obj_0@[1].1)->Arr_0@[0]));
        assert(jv_seq((obj->Obj_0@[2].1)->Arr_0@)[0] == jv((obj->Obj_0@[2].1)->Arr_0@[0]));
        assert(jv_seq((obj->Obj_0@[2].1)->Arr_0@)[1] == jv((obj->Obj_0@[2].1)->Arr_0@[1]));
        assert(jv_seq((obj->Obj_0@[3].1)->Arr_0@)[0] == jv((obj->Obj_0@[3].1)->Arr_0@[0]));
        assert(jv_seq((obj->Obj_0@[1].1)->Arr_0@) =~= (target->Obj_0[1].1)->Arr_0);
        assert(jv_seq((obj->Obj_0@[2].1)->Arr_0@) =~= (target->Obj_0[2].1)->Arr_0);
        assert(jv_seq((obj->Obj_0@[3].1)->Arr_0@) =~= (target->Obj_0[3].1)->Arr_0);
        assert(jv_members(obj->Obj_0@) =~= target->Obj_0);
    }
    obj
}

/// The form body of the authorization-code exchange.
pub fn exchange_code_form(
    code: &str,
    client_id: &str,
    redirect_uri: &str,
    code_verifier: &str,
    client_secret: Option<&str>,
) -> (r: String)
    ensures
        r@ == "grant_type=authorization_code&code="@ + url_encoded_of(code@) + "&client_id="@
            + url_encoded_of(client_id@) + "&redirect_uri="@ + url_encoded_of(redirect_uri@)
            + "&code_verifier="@ + url_encoded_of(code_verifier@) + (match client_secret {
            Some(s) => "&client_secret="@ + url_encoded_of(s@),
            None => Seq::<char>::empty(),
        }),
{
    let mut r = "grant_type=authorization_code&code=".to_owned();
    let e1 = url_encode(code);
    r.append(e1.as_str());
    r.append("&client_id=");
    let e2 = url_encode(client_id);
    r.append(e2.as_str());
    r.append("&redirect_uri=");
    let e3 = url_encode(redirect_uri);
    r.append(e3.as_str());
    r.append("&code_verifier=");
    let e4 = url_encode(code_verifier);
    r.append(e4.as_str());
    match client_secret {
        Some(s) => {
            r.append("&client_secret=");
            let e5 = url_encode(s);
            r.append(e5.as_str());
            assert(r@ =~= "grant_type=authorization_code&code="@ + url_encoded_of(code@)
                + "&client_id="@ + url_encoded_of(client_id@) + "&redirect_uri="@ + url_encoded_of(
                redirect_uri@,
            ) + "&code_verifier="@ + url_encoded_of(code_verifier@) + ("&client_secret="@
                + url_encoded_of(s@)));
        },
        None => {
            assert(r@ =~= "grant_type=authorization_code&code="@ + url_encoded_of(code@)
                + "&client_id="@ + url_encoded_of(client_id@) + "&redirect_uri="@ + url_encoded_of(
                redirect_uri@,
            ) + "&code_verifier="@ + url_encoded_of(code_verifier@) + Seq::<char>::empty());
        },
    }
    r
}

/// The form body of a token refresh.
pub fn refresh_form(refresh_token: &str, client_id: &str, client_secret: Option<&str>) -> (r:
    String)
    ensures
        r@ == "grant_type=refresh_token&refresh_token="@ + url_encoded_of(refresh_token@)
            + "&client_id="@ + url_encoded_of(client_id@) + (match client_secret {
            Some(s) => "&client_secret="@ + url_encoded_of(s@),
            None => Seq::<char>::empty(),
        }),
{
    let mut r = "grant_type=refresh_token&refresh_token=".to_owned();
    let e1 = url_encode(refresh_token);
    r.append(e1.as_str());
    r.append("&client_id=");
    let e2 = url_encode(client_id);
    r.append(e2.as_str());
    match client_secret {
        Some(s) => {
            r.append("&client_secret=");
            let e3 = url_encode(s);
            r.append(e3.as_str());
            assert(r@ =~= "grant_type=refresh_token&refresh_token="@ + url_encoded_of(
                refresh_token@,
            ) + "&client_id="@ + url_encoded_of(client_id@) + ("&client_secret="@ + url_encoded_of(
                s@,
            )));
        },
        None => {
            assert(r@ =~= "grant_type=refresh_token&refresh_token="@ + url_encoded_of(
                refresh_token@,
            ) + "&client_id="@ + url_encoded_of(client_id@) + Seq::<char>::empty());
        },
    }
    r
}

/// How to obtain a registered client: reuse the stored registration on its
/// recorded port, or register anew.
pub enum AcquisitionPlan {
    /// Bind the recorded port and reuse the stored client unchanged; a
    /// bind failure discards the registration and registers anew.
    ReusePort { port: u16, redirect_uri: String, client: crate::store::StoredClient },
    /// No stored client, or no usable recorded redirect URI: register with
    /// a freshly bound ephemeral port.
    Register,
}

/// The client acquisition policy: a stored client whose recorded redirect
/// URI names a port is reused on that exact port; a missing client, a
/// missing redirect URI, or one without a port forces re-registration.
pub fn plan_client_acquisition(stored: Option<&crate::store::StoredClient>) -> (r:
    AcquisitionPlan)
    ensures
        match stored {
            Some(c) => match c.redirect_uri {
                Some(uri) => match uri_port(uri@) {
                    Some(p) => r matches AcquisitionPlan::ReusePort {
                        port,
                        redirect_uri,
                        client,
                    } && port == p && redirect_uri@ == uri@ && client@ == c@,
                    None => r is Register,
                },
                None => r is Register,
            },
            None => r is Register,
        },
{
    match stored {
        Some(c) => match &c.redirect_uri {
            Some(uri) => match extract_port_from_uri(uri.as_str()) {
                Some(p) => AcquisitionPlan::ReusePort {
                    port: p,
                    redirect_uri: uri.clone(),
                    client: crate::store::StoredClient {
                        client_id: c.client_id.clone(),
                        client_secret: match &c.client_secret {
                            Some(s) => Some(s.clone()),
                            None => None,
                        },
                        redirect_uri: Some(uri.clone()),
                    },
                },
                None => AcquisitionPlan::Register,
            },
            None => AcquisitionPlan::Register,
        },
        None => AcquisitionPlan::Register,
    }
}

/// Why callback parsing failed.
#[derive(Debug)]
pub enum CallbackError {
    /// The request line holds no path.
    MissingPath,
    /// The path carries no query string.
    NoQuery,
    /// The authorization server reported an error.
    Denied { error: String, description: String },
    /// No state came back: treated as a CSRF mismatch.
    MissingState,
    /// The state does not match the one this flow issued: CSRF.
    StateMismatch,
    /// No authorization code came back.
    MissingCode,
}

/// The first position at or after `i` that holds `&`, or the end.
pub open spec fn amp_end(s: Seq<char>, i: int) -> int {
    char_end(s, i, '&')
}

/// The raw (undecoded) value of the last occurrence of `key` among the
/// `&`-separated `key=value` parameters at or after `i`.
pub open spec fn last_param_from(q: Seq<char>, i: int, key: Seq<char>) -> Option<Seq<char>>
    decreases q.len() - i,
{
    if !(0 <= i <= q.len()) {
        None
    } else {
        let e = amp_end(q, i);
        if !(i <= e <= q.len()) {
            None
        } else {
            let part = q.subrange(i, e);
            let ke = char_end(part, 0, '=');
            let cur: Option<Seq<char>> = if part.take(ke) == key {
                if ke < part.len() {
                    Some(part.skip(ke + 1))
                } else {
                    Some(Seq::empty())
                }
            } else {
                None
            };
            if e + 1 > q.len() {
                cur
            } else {
                match last_param_from(q, e + 1, key) {
                    Some(v) => Some(v),
                    None => cur,
                }
            }
        }
    }
}

fn last_param_exec(q: &Vec<char>, i: usize, key: &str) -> (r: Option<Vec<char>>)
    requires
        i <= q@.len(),
    ensures
        match r {
            Some(v) => last_param_from(q@, i as int, key@) == Some(v@),
            None => last_param_from(q@, i as int, key@) is None,
        },
    decreases q@.len() - i,
{
    let e = find_char(q, i, '&');
    let part = crate::transport::copy_range(q, i, e);
    proof {
        assert(part@ =~= q@.subrange(i as int, e as int));
    }
    let ke = find_char(&part, 0, '=');
    let key_part = crate::transport::copy_range(&part, 0, ke);
    proof {
        assert(key_part@ =~= part@.take(ke as int));
    }
    let key_text = crate::text::string_of(&key_part);
    let cur: Option<Vec<char>> = if crate::text::str_eq(key_text.as_str(), key) {
        if ke < part.len() {
            let v = crate::transport::copy_range(&part, ke + 1, part.len());
            proof {
                assert(v@ =~= part@.skip(ke as int + 1));
            }
            Some(v)
        } else {
            Some(Vec::new())
        }
    } else {
        None
    };
    if e >= q.len() {
        proof {
            match cur {
                Some(ref v) => {
                    assert(v@ =~= (match last_param_from(q@, i as int, key@) {
                        Some(x) => x,
                        None => Seq::<char>::empty(),
                    }));
                },
                None => {},
            }
        }
        cur
    } else {
        match last_param_exec(q, e + 1, key) {
            Some(v) => Some(v),
            None => cur,
        }
    }
}

/// The decoded last value of `key`, or nothing.
pub open spec fn decoded_param(q: Seq<char>, key: Seq<char>) -> Option<Seq<char>> {
    match last_param_from(q, 0, key) {
        Some(v) => Some(pct_decode(v)),
        None => None,
    }
}

fn decoded_param_exec(q: &Vec<char>, key: &str) -> (r: Option<String>)
    ensures
        match r {
            Some(v) => decoded_param(q@, key@) == Some(v@),
            None => decoded_param(q@, key@) is None,
        },
{
    match last_param_exec(q, 0, key) {
        Some(raw) => {
            let decoded = pct_decode_exec(&raw, 0);
            proof {
                assert(raw@.skip(0) =~= raw@);
            }
            Some(crate::text::string_of(&decoded))
        },
        None => None,
    }
}

/// Parses the authorization callback's request line against the expected
/// state. An `error` parameter aborts with the server's reason; a missing
/// or mismatching `state` aborts as a CSRF mismatch, before the code is
/// looked at; otherwise the authorization code is returned.
pub fn parse_callback(request_line: &str, expected_state: &str) -> (r: Result<
    String,
    CallbackError,
>)
    ensures
        ({
            let toks = crate::transport::stdio::command_tokens(request_line@);
            if toks.len() < 2 {
                r matches Err(CallbackError::MissingPath)
            } else {
                let path = toks[1];
                let qpos = char_end(path, 0, '?');
                if qpos >= path.len() {
                    r matches Err(CallbackError::NoQuery)
                } else {
                    let q = path.skip(qpos + 1);
                    match decoded_param(q, "error"@) {
                        Some(ev) => r matches Err(CallbackError::Denied { error, description })
                            && error@ == ev && description@ == (match decoded_param(
                            q,
                            "error_description"@,
                        ) {
                            Some(d) => d,
                            None => Seq::<char>::empty(),
                        }),
                        None => match decoded_param(q, "state"@) {
                            None => r matches Err(CallbackError::MissingState),
                            Some(sv) => if sv != expected_state@ {
                                r matches Err(CallbackError::StateMismatch)
                            } else {
                                match decoded_param(q, "code"@) {
                                    Some(cv) => r matches Ok(code) && code@ == cv,
                                    None => r matches Err(CallbackError::MissingCode),
                                }
                            },
                        },
                    }
                }
            }
        }),
{
    let line = crate::text::chars_of(request_line);
    let toks = tokens_of_line(&line);
    if toks.len() < 2 {
        return Err(CallbackError::MissingPath);
    }
    let path = crate::text::chars_of(toks[1].as_str());
    let qpos = find_char(&path, 0, '?');
    if qpos >= path.len() {
        return Err(CallbackError::NoQuery);
    }
    let q = crate::transport::copy_range(&path, qpos + 1, path.len());
    proof {
        assert(q@ =~= path@.skip(qpos as int + 1));
    }
    match decoded_param_exec(&q, "error") {
        Some(error) => {
            let description = match decoded_param_exec(&q, "error_description") {
                Some(d) => d,
                None => String::new(),
            };
            return Err(CallbackError::Denied { error, description });
        },
        None => {},
    }
    let state = match decoded_param_exec(&q, "state") {
        Some(s) => s,
        None => {
            return Err(CallbackError::MissingState);
        },
    };
    if !crate::text::str_eq(state.as_str(), expected_state) {
        return Err(CallbackError::StateMismatch);
    }
    match decoded_param_exec(&q, "code") {
        Some(code) => Ok(code),
        None => Err(CallbackError::MissingCode),
    }
}

fn tokens_of_line(line: &Vec<char>) -> (r: Vec<String>)
    ensures
        r@.len() == crate::transport::stdio::command_tokens(line@).len(),
        forall|k: int|
            0 <= k < r@.len() ==> (#[trigger] r@[k])@ == crate::transport::stdio::command_tokens(
                line@,
            )[k],
{
    let text = crate::text::string_of(line);
    match crate::transport::stdio::parse_command(text.as_str()) {
        Some((prog, args)) => {
            let mut out: Vec<String> = Vec::new();
            out.push(prog);
            let mut k: usize = 0;
            let ghost tv = crate::transport::stdio::command_tokens(line@);
            while k < args.len()
                invariant
                    k <= args@.len(),
                    tv == crate::transport::stdio::command_tokens(line@),
                    args@.len() + 1 == tv.len(),
                    forall|i: int| 0 <= i < args@.len() ==> (#[trigger] args@[i])@ == tv[i + 1],
                    out@.len() == k + 1,
                    forall|i: int| 0 <= i < out@.len() ==> (#[trigger] out@[i])@ == tv[i],
                decreases args@.len() - k,
            {
                out.push(args[k].clone());
                k += 1;
            }
            out
        },
        None => Vec::new(),
    }
}

/// The token as persisted after a successful exchange: the expiry, when
/// the server gave one, is the clock reading plus the granted lifetime
/// (saturating at the maximum).
pub fn stored_token_from_response(tr: &TokenResponse, now: u64) -> (r: crate::store::StoredToken)
    ensures
        r.access_token@ == tr.access_token@,
        r.token_type@ == tr.token_type@,
        (match (r.refresh_token, tr.refresh_token) {
            (Some(a), Some(b)) => a@ == b@,
            (None, None) => true,
            _ => false,
        }),
        r.expires_at == (match tr.expires_in {
            Some(e) => Some(
                if now as int + e as int <= u64::MAX as int {
                    (now + e) as u64
                } else {
                    u64::MAX
                },
            ),
            None => None,
        }),
{
    let expires_at = match tr.expires_in {
        Some(e) => {
            if e <= u64::MAX - now {
                Some(now + e)
            } else {
                Some(u64::MAX)
            }
        },
        None => None,
    };
    crate::store::StoredToken {
        access_token: tr.access_token.clone(),
        refresh_token: match &tr.refresh_token {
            Some(t) => Some(t.clone()),
            None => None,
        },
        expires_at,
        token_type: tr.token_type.clone(),
    }
}

/// The redirect URI registered for a loopback port.
pub fn make_redirect_uri(port: u16) -> (r: String)
    ensures
        r@ == "http://localhost:"@ + dec_digits(port as nat) + "/callback"@,
{
    let digits = crate::text::dec_u64(port as u64);
    let text = crate::text::string_of(&digits);
    let mut r = String::new();
    r.append("http://localhost:");
    r.append(text.as_str());
    r.append("/callback");
    assert(r@ =~= "http://localhost:"@ + dec_digits(port as nat) + "/callback"@);
    r
}

} // verus!
