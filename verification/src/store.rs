//! The credential store: tokens keyed by server name and registered
//! clients keyed by authorization-server identity, with the exact JSON
//! layout they persist in. Reading and writing the file is left to the
//! unverified shell; absence of the file yields the empty store.

use vstd::prelude::*;
use vstd::string::*;
use crate::assoc::{assoc_lookup, assoc_wf, assoc_get, assoc_set, assoc_remove};
use crate::json::{Json, JsonV, jv, jv_members, lemma_jv_members};
use crate::rpc::obj_lookup;
use crate::text::{dec_digits, dec_val, all_digits, lemma_dec_digits};

verus! {

/// A bearer token stored for one server.
pub struct StoredToken {
    pub access_token: String,
    pub refresh_token: Option<String>,
    pub expires_at: Option<u64>,
    pub token_type: String,
}

/// A dynamic client registration stored for one authorization server. The
/// recorded redirect URI must be reusable verbatim for the registration to
/// remain valid.
pub struct StoredClient {
    pub client_id: String,
    pub client_secret: Option<String>,
    pub redirect_uri: Option<String>,
}

pub struct StoredTokenV {
    pub access_token: Seq<char>,
    pub refresh_token: Option<Seq<char>>,
    pub expires_at: Option<u64>,
    pub token_type: Seq<char>,
}

pub struct StoredClientV {
    pub client_id: Seq<char>,
    pub client_secret: Option<Seq<char>>,
    pub redirect_uri: Option<Seq<char>>,
}

impl View for StoredToken {
    type V = StoredTokenV;

    open spec fn view(&self) -> StoredTokenV {
        StoredTokenV {
            access_token: self.access_token@,
            refresh_token: match self.refresh_token {
                Some(r) => Some(r@),
                None => None,
            },
            expires_at: self.expires_at,
            token_type: self.token_type@,
        }
    }
}

impl View for StoredClient {
    type V = StoredClientV;

    open spec fn view(&self) -> StoredClientV {
        StoredClientV {
            client_id: self.client_id@,
            client_secret: match self.client_secret {
                Some(s) => Some(s@),
                None => None,
            },
            redirect_uri: match self.redirect_uri {
                Some(u) => Some(u@),
                None => None,
            },
        }
    }
}

/// The whole credential store: token and client bindings, unique by key.
pub struct AuthStore {
    pub tokens: Vec<(String, StoredToken)>,
    pub clients: Vec<(String, StoredClient)>,
}

impl AuthStore {
    /// Unique keys in both maps.
    pub open spec fn wf(&self) -> bool {
        assoc_wf(self.tokens@) && assoc_wf(self.clients@)
    }

    /// The empty store: what loading a missing file yields.
    pub fn new() -> (r: AuthStore)
        ensures
            r.tokens@.len() == 0,
            r.clients@.len() == 0,
            r.wf(),
    {
        AuthStore { tokens: Vec::new(), clients: Vec::new() }
    }

    /// The token stored for a server, if any.
    pub fn get_token(&self, server_name: &str) -> (r: Option<&StoredToken>)
        ensures
            match r {
                Some(t) => assoc_lookup(self.tokens@, server_name@) == Some(t@),
                None => assoc_lookup(self.tokens@, server_name@) is None,
            },
    {
        assoc_get(&self.tokens, server_name)
    }

    /// Stores a token for a server, replacing any previous one.
    pub fn set_token(&mut self, server_name: String, token: StoredToken)
        requires
            old(self).wf(),
        ensures
            final(self).wf(),
            final(self).clients == old(self).clients,
            forall|k: Seq<char>|
                #[trigger] assoc_lookup(final(self).tokens@, k) == (if k == server_name@ {
                    Some(token@)
                } else {
                    assoc_lookup(old(self).tokens@, k)
                }),
    {
        assoc_set(&mut self.tokens, server_name, token);
    }

    /// Removes a server's token, if any.
    pub fn remove_token(&mut self, server_name: &str)
        requires
            old(self).wf(),
        ensures
            final(self).wf(),
            final(self).clients == old(self).clients,
            forall|k: Seq<char>|
                #[trigger] assoc_lookup(final(self).tokens@, k) == (if k == server_name@ {
                    None
                } else {
                    assoc_lookup(old(self).tokens@, k)
                }),
    {
        assoc_remove(&mut self.tokens, server_name);
    }

    /// The client registered for an authorization server, if any.
    pub fn get_client(&self, auth_server: &str) -> (r: Option<&StoredClient>)
        ensures
            match r {
                Some(c) => assoc_lookup(self.clients@, auth_server@) == Some(c@),
                None => assoc_lookup(self.clients@, auth_server@) is None,
            },
    {
        assoc_get(&self.clients, auth_server)
    }

    /// Stores a client registration, replacing any previous one.
    pub fn set_client(&mut self, auth_server: String, client: StoredClient)
        requires
            old(self).wf(),
        ensures
            final(self).wf(),
            final(self).tokens == old(self).tokens,
            forall|k: Seq<char>|
                #[trigger] assoc_lookup(final(self).clients@, k) == (if k == auth_server@ {
                    Some(client@)
                } else {
                    assoc_lookup(old(self).clients@, k)
                }),
    {
        assoc_set(&mut self.clients, auth_server, client);
    }

    /// Removes an authorization server's registration, if any.
    pub fn remove_client(&mut self, auth_server: &str)
        requires
            old(self).wf(),
        ensures
            final(self).wf(),
            final(self).tokens == old(self).tokens,
            forall|k: Seq<char>|
                #[trigger] assoc_lookup(final(self).clients@, k) == (if k == auth_server@ {
                    None
                } else {
                    assoc_lookup(old(self).clients@, k)
                }),
    {
        assoc_remove(&mut self.clients, auth_server);
    }

    /// Whether a server's token is expired or within five minutes of it,
    /// at the clock's current reading. The reading itself is outside
    /// knowledge, so only this much is promised: a token can only report
    /// expired when one with an expiry is stored.
    pub fn is_token_expired(&self, server_name: &str) -> (r: bool)
        ensures
            r ==> (match assoc_lookup(self.tokens@, server_name@) {
                Some(t) => t.expires_at is Some,
                None => false,
            }),
    {
        let now = crate::pkce::now_unix_seconds();
        self.is_token_expired_at(server_name, now)
    }

    /// Whether a server's token is expired or within five minutes of it,
    /// at the given clock reading. A token without an expiry never is.
    pub fn is_token_expired_at(&self, server_name: &str, now: u64) -> (r: bool)
        ensures
            r == (match assoc_lookup(self.tokens@, server_name@) {
                Some(t) => match t.expires_at {
                    Some(e) => now as int + 300 >= e as int,
                    None => false,
                },
                None => false,
            }),
    {
        match self.get_token(server_name) {
            Some(t) => match t.expires_at {
                Some(e) => {
                    if e <= now {
                        true
                    } else {
                        e - now <= 300
                    }
                },
                None => false,
            },
            None => false,
        }
    }
}

impl Default for AuthStore {
    /// The empty store.
    fn default() -> (r: AuthStore)
        ensures
            r.tokens@.len() == 0,
            r.clients@.len() == 0,
            r.wf(),
    {
        AuthStore::new()
    }
}

/// The persisted JSON of a stored token. Absent options persist as null.
pub open spec fn token_jsonv(t: StoredTokenV) -> JsonV {
    JsonV::Obj(
        seq![
            ("access_token"@, JsonV::Str(t.access_token)),
            ("refresh_token"@, match t.refresh_token {
                Some(r) => JsonV::Str(r),
                None => JsonV::Null,
            }),
            ("expires_at"@, match t.expires_at {
                Some(e) => JsonV::Num(dec_digits(e as nat)),
                None => JsonV::Null,
            }),
            ("token_type"@, JsonV::Str(t.token_type)),
        ],
    )
}

/// The persisted JSON of a stored client.
pub open spec fn client_jsonv(c: StoredClientV) -> JsonV {
    JsonV::Obj(
        seq![
            ("client_id"@, JsonV::Str(c.client_id)),
            ("client_secret"@, match c.client_secret {
                Some(s) => JsonV::Str(s),
                None => JsonV::Null,
            }),
            ("redirect_uri"@, match c.redirect_uri {
                Some(u) => JsonV::Str(u),
                None => JsonV::Null,
            }),
        ],
    )
}

/// The stored token a JSON value stands for.
pub open spec fn token_of_jsonv(v: JsonV) -> Option<StoredTokenV> {
    match v {
        JsonV::Obj(ms) => match crate::protocol::req_str_member(ms, "access_token"@) {
            Some(at) => match crate::protocol::opt_str_member(ms, "refresh_token"@) {
                Some(rt) => match opt_u64_member(ms, "expires_at"@) {
                    Some(ea) => match crate::protocol::req_str_member(ms, "token_type"@) {
                        Some(tt) => Some(
                            StoredTokenV {
                                access_token: at,
                                refresh_token: rt,
                                expires_at: ea,
                                token_type: tt,
                            },
                        ),
                        None => None,
                    },
                    None => None,
                },
                None => None,
            },
            None => None,
        },
        _ => None,
    }
}

/// An optional unsigned-integer member: absent or null yields nothing; a
/// plain decimal number that fits yields it; anything else is an error.
pub open spec fn opt_u64_member(ms: Seq<(Seq<char>, JsonV)>, key: Seq<char>) -> Option<
    Option<u64>,
> {
    match obj_lookup(ms, key) {
        None => Some(None),
        Some(JsonV::Null) => Some(None),
        Some(JsonV::Num(lex)) => if all_digits(lex) && lex.len() > 0 && dec_val(lex)
            <= u64::MAX {
            Some(Some(dec_val(lex) as u64))
        } else {
            None
        },
        Some(_) => None,
    }
}

/// The stored client a JSON value stands for.
pub open spec fn client_of_jsonv(v: JsonV) -> Option<StoredClientV> {
    match v {
        JsonV::Obj(ms) => match crate::protocol::req_str_member(ms, "client_id"@) {
            Some(ci) => match crate::protocol::opt_str_member(ms, "client_secret"@) {
                Some(cs) => match crate::protocol::opt_str_member(ms, "redirect_uri"@) {
                    Some(ru) => Some(
                        StoredClientV { client_id: ci, client_secret: cs, redirect_uri: ru },
                    ),
                    None => None,
                },
                None => None,
            },
            None => None,
        },
        _ => None,
    }
}

/// Decoding the persisted JSON of a token yields the token back.
pub proof fn lemma_token_round_trip(t: StoredTokenV)
    ensures
        token_of_jsonv(token_jsonv(t)) == Some(t),
{
    let ms = token_jsonv(t)->Obj_0;
    reveal_strlit("access_token");
    reveal_strlit("refresh_token");
    reveal_strlit("expires_at");
    reveal_strlit("token_type");
    assert("access_token"@.len() == 12);
    assert("refresh_token"@.len() == 13);
    assert("expires_at"@.len() == 10);
    assert("token_type"@.len() == 10);
    assert("expires_at"@[0] == 'e' && "token_type"@[0] == 't');
    assert(ms[0].0 != ms[1].0 && ms[0].0 != ms[2].0 && ms[0].0 != ms[3].0);
    assert(ms[1].0 != ms[2].0 && ms[1].0 != ms[3].0);
    assert(ms[2].0 != ms[3].0);
    crate::rpc::lemma_obj_lookup_at(ms, 0);
    crate::rpc::lemma_obj_lookup_at(ms, 1);
    crate::rpc::lemma_obj_lookup_at(ms, 2);
    crate::rpc::lemma_obj_lookup_at(ms, 3);
    assert(obj_lookup(ms, "access_token"@) == Some(JsonV::Str(t.access_token)));
    assert(obj_lookup(ms, "refresh_token"@) == Some(ms[1].1));
    assert(obj_lookup(ms, "expires_at"@) == Some(ms[2].1));
    assert(obj_lookup(ms, "token_type"@) == Some(JsonV::Str(t.token_type)));
    match t.expires_at {
        Some(e) => {
            lemma_dec_digits(e as nat);
        },
        None => {},
    }
}

/// Decoding the persisted JSON of a client yields the client back.
pub proof fn lemma_client_round_trip(c: StoredClientV)
    ensures
        client_of_jsonv(client_jsonv(c)) == Some(c),
{
    let ms = client_jsonv(c)->Obj_0;
    reveal_strlit("client_id");
    reveal_strlit("client_secret");
    reveal_strlit("redirect_uri");
    assert("client_id"@.len() == 9);
    assert("client_secret"@.len() == 13);
    assert("redirect_uri"@.len() == 12);
    assert("client_id"@ != "client_secret"@);
    assert(ms[0].0 == "client_id"@);
    assert(ms[0].0 != ms[1].0 && ms[0].0 != ms[2].0);
    assert(ms[1].0 != ms[2].0);
    crate::rpc::lemma_obj_lookup_at(ms, 0);
    crate::rpc::lemma_obj_lookup_at(ms, 1);
    crate::rpc::lemma_obj_lookup_at(ms, 2);
    assert(obj_lookup(ms, "client_id"@) == Some(JsonV::Str(c.client_id)));
    assert(obj_lookup(ms, "client_secret"@) == Some(ms[1].1));
    assert(obj_lookup(ms, "redirect_uri"@) == Some(ms[2].1));
}

/// Builds the persisted JSON of a token.
pub fn token_to_json(t: &StoredToken) -> (r: Json)
    ensures
        jv(r) == token_jsonv(t@),
{
    let mut ms: Vec<(String, Json)> = Vec::new();
    ms.push(("access_token".to_owned(), Json::Str(t.access_token.clone())));
    match &t.refresh_token {
        Some(rt) => {
            ms.push(("refresh_token".to_owned(), Json::Str(rt.clone())));
        },
        None => {
            ms.push(("refresh_token".to_owned(), Json::Null));
        },
    }
    match t.expires_at {
        Some(e) => {
            ms.push(("expires_at".to_owned(), Json::Num(crate::text::dec_u64(e))));
        },
        None => {
            ms.push(("expires_at".to_owned(), Json::Null));
        },
    }
    ms.push(("token_type".to_owned(), Json::Str(t.token_type.clone())));
    let obj = Json::Obj(ms);
    proof {
        lemma_jv_members(obj->Obj_0@);
        assert(jv_members(obj->Obj_0@)[0] == ((obj->Obj_0@[0]).0@, jv(obj->Obj_0@[0].1)));
        assert(jv_members(obj->Obj_0@)[1] == ((obj->Obj_0@[1]).0@, jv(obj->Obj_0@[1].1)));
        assert(jv_members(obj->Obj_0@)[2] == ((obj->Obj_0@[2]).0@, jv(obj->Obj_0@[2].1)));
        assert(jv_members(obj->Obj_0@)[3] == ((obj->Obj_0@[3]).0@, jv(obj->Obj_0@[3].1)));
        assert(jv_members(obj->Obj_0@) =~= (token_jsonv(t@))->Obj_0);
    }
    obj
}

/// Builds the persisted JSON of a client.
pub fn client_to_json(c: &StoredClient) -> (r: Json)
    ensures
        jv(r) == client_jsonv(c@),
{
    let mut ms: Vec<(String, Json)> = Vec::new();
    ms.push(("client_id".to_owned(), Json::Str(c.client_id.clone())));
    match &c.client_secret {
        Some(s) => {
            ms.push(("client_secret".to_owned(), Json::Str(s.clone())));
        },
        None => {
            ms.push(("client_secret".to_owned(), Json::Null));
        },
    }
    match &c.redirect_uri {
        Some(u) => {
            ms.push(("redirect_uri".to_owned(), Json::Str(u.clone())));
        },
        None => {
            ms.push(("redirect_uri".to_owned(), Json::Null));
        },
    }
    let obj = Json::Obj(ms);
    proof {
        lemma_jv_members(obj->Obj_0@);
        assert(jv_members(obj->Obj_0@)[0] == ((obj->Obj_0@[0]).0@, jv(obj->Obj_0@[0].1)));
        assert(jv_members(obj->Obj_0@)[1] == ((obj->Obj_0@[1]).0@, jv(obj->Obj_0@[1].1)));
        assert(jv_members(obj->Obj_0@)[2] == ((obj->Obj_0@[2]).0@, jv(obj->Obj_0@[2].1)));
        assert(jv_members(obj->Obj_0@) =~= (client_jsonv(c@))->Obj_0);
    }
    obj
}

/// The persisted members of the token map, in storage order.
pub open spec fn token_members(s: Seq<(String, StoredToken)>) -> Seq<(Seq<char>, JsonV)>
    decreases s.len(),
{
    if s.len() == 0 {
        Seq::empty()
    } else {
        seq![(s[0].0@, token_jsonv(s[0].1@))] + token_members(s.drop_first())
    }
}

/// The persisted members of the client map, in storage order.
pub open spec fn client_members(s: Seq<(String, StoredClient)>) -> Seq<(Seq<char>, JsonV)>
    decreases s.len(),
{
    if s.len() == 0 {
        Seq::empty()
    } else {
        seq![(s[0].0@, client_jsonv(s[0].1@))] + client_members(s.drop_first())
    }
}

/// The persisted JSON of the whole store.
pub open spec fn store_jsonv(
    tokens: Seq<(String, StoredToken)>,
    clients: Seq<(String, StoredClient)>,
) -> JsonV {
    JsonV::Obj(
        seq![
            ("tokens"@, JsonV::Obj(token_members(tokens))),
            ("clients"@, JsonV::Obj(client_members(clients))),
        ],
    )
}

proof fn lemma_token_members_snoc(s: Seq<(String, StoredToken)>, k: int)
    requires
        0 <= k < s.len(),
    ensures
        token_members(s.take(k + 1)) =~= token_members(s.take(k)).push(
            (s[k].0@, token_jsonv(s[k].1@)),
        ),
    decreases k,
{
    if k == 0 {
        assert(s.take(1).len() == 1);
        assert(s.take(1)[0] == s[0]);
        assert(s.take(1).drop_first() =~= Seq::<(String, StoredToken)>::empty());
        assert(s.take(0) =~= Seq::<(String, StoredToken)>::empty());
    } else {
        lemma_token_members_snoc(s.drop_first(), k - 1);
        assert(s.take(k + 1).drop_first() =~= s.drop_first().take(k));
        assert(s.take(k).drop_first() =~= s.drop_first().take(k - 1));
        assert(s.take(k + 1)[0] == s[0]);
        assert(s.take(k)[0] == s[0]);
        assert(s.drop_first()[k - 1] == s[k]);
    }
}

proof fn lemma_client_members_snoc(s: Seq<(String, StoredClient)>, k: int)
    requires
        0 <= k < s.len(),
    ensures
        client_members(s.take(k + 1)) =~= client_members(s.take(k)).push(
            (s[k].0@, client_jsonv(s[k].1@)),
        ),
    decreases k,
{
    if k == 0 {
        assert(s.take(1).len() == 1);
        assert(s.take(1)[0] == s[0]);
        assert(s.take(1).drop_first() =~= Seq::<(String, StoredClient)>::empty());
        assert(s.take(0) =~= Seq::<(String, StoredClient)>::empty());
    } else {
        lemma_client_members_snoc(s.drop_first(), k - 1);
        assert(s.take(k + 1).drop_first() =~= s.drop_first().take(k));
        assert(s.take(k).drop_first() =~= s.drop_first().take(k - 1));
        assert(s.take(k + 1)[0] == s[0]);
        assert(s.take(k)[0] == s[0]);
        assert(s.drop_first()[k - 1] == s[k]);
    }
}

/// Builds the persisted JSON of the whole store.
pub fn store_to_json(store: &AuthStore) -> (r: Json)
    ensures
        jv(r) == store_jsonv(store.tokens@, store.clients@),
{
    let mut tms: Vec<(String, Json)> = Vec::new();
    let mut k: usize = 0;
    while k < store.tokens.len()
        invariant
            k <= store.tokens@.len(),
            jv_members(tms@) =~= token_members(store.tokens@.take(k as int)),
        decreases store.tokens@.len() - k,
    {
        let ghost pre = tms@;
        tms.push((store.tokens[k].0.clone(), token_to_json(&store.tokens[k].1)));
        proof {
            lemma_jv_members(pre);
            lemma_jv_members(tms@);
            assert forall|i: int| 0 <= i < tms@.len() implies #[trigger] jv_members(tms@)[i]
                == token_members(store.tokens@.take(k as int + 1))[i] by {
                lemma_token_members_snoc(store.tokens@, k as int);
                assert(jv_members(tms@)[i] == ((tms@[i]).0@, jv(tms@[i].1)));
                if i < pre.len() {
                    assert(tms@[i] == pre[i]);
                    assert(jv_members(pre)[i] == ((pre[i]).0@, jv(pre[i].1)));
                }
            }
            lemma_token_members_snoc(store.tokens@, k as int);
            assert(jv_members(tms@) =~= token_members(store.tokens@.take(k as int + 1)));
        }
        k += 1;
    }
    proof {
        assert(store.tokens@.take(store.tokens@.len() as int) =~= store.tokens@);
    }
    let mut cms: Vec<(String, Json)> = Vec::new();
    let mut j: usize = 0;
    while j < store.clients.len()
        invariant
            j <= store.clients@.len(),
            jv_members(cms@) =~= client_members(store.clients@.take(j as int)),
        decreases store.clients@.len() - j,
    {
        let ghost pre = cms@;
        cms.push((store.clients[j].0.clone(), client_to_json(&store.clients[j].1)));
        proof {
            lemma_jv_members(pre);
            lemma_jv_members(cms@);
            assert forall|i: int| 0 <= i < cms@.len() implies #[trigger] jv_members(cms@)[i]
                == client_members(store.clients@.take(j as int + 1))[i] by {
                lemma_client_members_snoc(store.clients@, j as int);
                assert(jv_members(cms@)[i] == ((cms@[i]).0@, jv(cms@[i].1)));
                if i < pre.len() {
                    assert(cms@[i] == pre[i]);
                    assert(jv_members(pre)[i] == ((pre[i]).0@, jv(pre[i].1)));
                }
            }
            lemma_client_members_snoc(store.clients@, j as int);
            assert(jv_members(cms@) =~= client_members(store.clients@.take(j as int + 1)));
        }
        j += 1;
    }
    proof {
        assert(store.clients@.take(store.clients@.len() as int) =~= store.clients@);
    }
    let ghost tks = store.tokens@;
    let ghost cls = store.clients@;
    let mut ms: Vec<(String, Json)> = Vec::new();
    ms.push(("tokens".to_owned(), Json::Obj(tms)));
    ms.push(("clients".to_owned(), Json::Obj(cms)));
    let obj = Json::Obj(ms);
    proof {
        lemma_jv_members(obj->Obj_0@);
        assert forall|i: int| 0 <= i < obj->Obj_0@.len() implies #[trigger] jv_members(
            obj->Obj_0@,
        )[i] == (store_jsonv(tks, cls))->Obj_0[i] by {
            assert(jv_members(obj->Obj_0@)[i] == ((obj->Obj_0@[i]).0@, jv(obj->Obj_0@[i].1)));
        }
        assert(jv_members(obj->Obj_0@) =~= (store_jsonv(tks, cls))->Obj_0);
    }
    obj
}

/// The parsed entries of a persisted token map, each of which must be a
/// valid token.
pub open spec fn tokens_of_members(ms: Seq<(Seq<char>, JsonV)>) -> Option<
    Seq<(Seq<char>, StoredTokenV)>,
>
    decreases ms.len(),
{
    if ms.len() == 0 {
        Some(Seq::empty())
    } else {
        match token_of_jsonv(ms[0].1) {
            Some(t) => match tokens_of_members(ms.drop_first()) {
                Some(rest) => Some(seq![(ms[0].0, t)] + rest),
                None => None,
            },
            None => None,
        }
    }
}

/// The parsed entries of a persisted client map.
pub open spec fn clients_of_members(ms: Seq<(Seq<char>, JsonV)>) -> Option<
    Seq<(Seq<char>, StoredClientV)>,
>
    decreases ms.len(),
{
    if ms.len() == 0 {
        Some(Seq::empty())
    } else {
        match client_of_jsonv(ms[0].1) {
            Some(c) => match clients_of_members(ms.drop_first()) {
                Some(rest) => Some(seq![(ms[0].0, c)] + rest),
                None => None,
            },
            None => None,
        }
    }
}

/// The store a JSON value stands for: an object with `tokens` and
/// `clients` objects whose members are all valid.
pub open spec fn store_of_jsonv(v: JsonV) -> Option<
    (Seq<(Seq<char>, StoredTokenV)>, Seq<(Seq<char>, StoredClientV)>),
> {
    match v {
        JsonV::Obj(ms) => match obj_lookup(ms, "tokens"@) {
            Some(JsonV::Obj(tms)) => match tokens_of_members(tms) {
                Some(tks) => match obj_lookup(ms, "clients"@) {
                    Some(JsonV::Obj(cms)) => match clients_of_members(cms) {
                        Some(cls) => Some((tks, cls)),
                        None => None,
                    },
                    _ => None,
                },
                None => None,
            },
            _ => None,
        },
        _ => None,
    }
}

/// The views of token entries.
pub open spec fn token_entry_views(s: Seq<(String, StoredToken)>) -> Seq<
    (Seq<char>, StoredTokenV),
> {
    Seq::new(s.len(), |i: int| (s[i].0@, s[i].1@))
}

/// The views of client entries.
pub open spec fn client_entry_views(s: Seq<(String, StoredClient)>) -> Seq<
    (Seq<char>, StoredClientV),
> {
    Seq::new(s.len(), |i: int| (s[i].0@, s[i].1@))
}

/// Parses the persisted JSON of the whole store, keeping entry order.
pub fn store_from_json(v: &Json) -> (r: Option<AuthStore>)
    ensures
        match r {
            Some(st) => store_of_jsonv(jv(*v)) == Some(
                (token_entry_views(st.tokens@), client_entry_views(st.clients@)),
            ),
            None => store_of_jsonv(jv(*v)) is None,
        },
{
    let ms = match v {
        Json::Obj(ms) => ms,
        _ => {
            return None;
        },
    };
    let tms = match crate::rpc::obj_get(ms, "tokens") {
        Some(t) => match t {
            Json::Obj(tms) => tms,
            _ => {
                return None;
            },
        },
        None => {
            return None;
        },
    };
    let mut tokens: Vec<(String, StoredToken)> = Vec::new();
    let mut k: usize = 0;
    proof {
        lemma_jv_members(tms@);
        assert(jv_members(tms@).skip(0) =~= jv_members(tms@));
        assert(token_entry_views(tokens@) =~= Seq::<(Seq<char>, StoredTokenV)>::empty());
        match tokens_of_members(jv_members(tms@)) {
            Some(all) => {
                assert(token_entry_views(tokens@) + all =~= all);
            },
            None => {},
        }
    }
    while k < tms.len()
        invariant
            k <= tms@.len(),
            jv(*v) == JsonV::Obj(jv_members(ms@)),
            obj_lookup(jv_members(ms@), "tokens"@) == Some(JsonV::Obj(jv_members(tms@))),
            jv_members(tms@).len() == tms@.len(),
            forall|i: int|
                0 <= i < tms@.len() ==> jv_members(tms@)[i] == ((#[trigger] tms@[i]).0@, jv(
                    tms@[i].1,
                )),
            tokens@.len() == k,
            tokens_of_members(jv_members(tms@).skip(k as int)) is Some ==> (tokens_of_members(
                jv_members(tms@),
            ) matches Some(all) && all == token_entry_views(tokens@) + tokens_of_members(
                jv_members(tms@).skip(k as int),
            )->0),
            tokens_of_members(jv_members(tms@).skip(k as int)) is None ==> tokens_of_members(
                jv_members(tms@),
            ) is None,
        decreases tms@.len() - k,
    {
        proof {
            lemma_jv_members(tms@);
            assert(jv_members(tms@).skip(k as int)[0] == jv_members(tms@)[k as int]);
            assert(jv_members(tms@).skip(k as int).drop_first() =~= jv_members(tms@).skip(
                k as int + 1,
            ));
        }
        let t = match token_from_json(&tms[k].1) {
            Some(t) => t,
            None => {
                proof {
                    assert(tokens_of_members(jv_members(tms@).skip(k as int)) is None);
                }
                return None;
            },
        };
        let ghost pre = tokens@;
        tokens.push((tms[k].0.clone(), t));
        proof {
            assert forall|i: int| 0 <= i < tokens@.len() implies #[trigger] token_entry_views(
                tokens@,
            )[i] == (token_entry_views(pre).push(
                (tokens@[pre.len() as int].0@, tokens@[pre.len() as int].1@),
            ))[i] by {
                if i < pre.len() {
                    assert(tokens@[i] == pre[i]);
                }
            }
            assert(token_entry_views(tokens@) =~= token_entry_views(pre).push(
                (tokens@[pre.len() as int].0@, tokens@[pre.len() as int].1@),
            ));
            match tokens_of_members(jv_members(tms@).skip(k as int + 1)) {
                Some(sub) => {
                    assert(token_entry_views(pre) + (seq![
                        (tokens@[pre.len() as int].0@, tokens@[pre.len() as int].1@),
                    ] + sub) =~= token_entry_views(pre).push(
                        (tokens@[pre.len() as int].0@, tokens@[pre.len() as int].1@),
                    ) + sub);
                },
                None => {},
            }
        }
        k += 1;
    }
    proof {
        assert(jv_members(tms@).skip(tms@.len() as int) =~= Seq::<(Seq<char>, JsonV)>::empty());
        assert(tokens_of_members(Seq::<(Seq<char>, JsonV)>::empty()) == Some(
            Seq::<(Seq<char>, StoredTokenV)>::empty(),
        ));
        assert(token_entry_views(tokens@) + Seq::<(Seq<char>, StoredTokenV)>::empty()
            =~= token_entry_views(tokens@));
    }
    let cms = match crate::rpc::obj_get(ms, "clients") {
        Some(t) => match t {
            Json::Obj(cms) => cms,
            _ => {
                return None;
            },
        },
        None => {
            return None;
        },
    };
    let mut clients: Vec<(String, StoredClient)> = Vec::new();
    let mut j: usize = 0;
    proof {
        lemma_jv_members(cms@);
        assert(jv_members(cms@).skip(0) =~= jv_members(cms@));
        assert(client_entry_views(clients@) =~= Seq::<(Seq<char>, StoredClientV)>::empty());
        match clients_of_members(jv_members(cms@)) {
            Some(all) => {
                assert(client_entry_views(clients@) + all =~= all);
            },
            None => {},
        }
    }
    while j < cms.len()
        invariant
            j <= cms@.len(),
            jv(*v) == JsonV::Obj(jv_members(ms@)),
            obj_lookup(jv_members(ms@), "tokens"@) == Some(JsonV::Obj(jv_members(tms@))),
            obj_lookup(jv_members(ms@), "clients"@) == Some(JsonV::Obj(jv_members(cms@))),
            tokens_of_members(jv_members(tms@)) == Some(token_entry_views(tokens@)),
            jv_members(cms@).len() == cms@.len(),
            forall|i: int|
                0 <= i < cms@.len() ==> jv_members(cms@)[i] == ((#[trigger] cms@[i]).0@, jv(
                    cms@[i].1,
                )),
            clients@.len() == j,
            clients_of_members(jv_members(cms@).skip(j as int)) is Some ==> (clients_of_members(
                jv_members(cms@),
            ) matches Some(all) && all == client_entry_views(clients@) + clients_of_members(
                jv_members(cms@).skip(j as int),
            )->0),
            clients_of_members(jv_members(cms@).skip(j as int)) is None ==> clients_of_members(
                jv_members(cms@),
            ) is None,
        decreases cms@.len() - j,
    {
        proof {
            lemma_jv_members(cms@);
            assert(jv_members(cms@).skip(j as int)[0] == jv_members(cms@)[j as int]);
            assert(jv_members(cms@).skip(j as int).drop_first() =~= jv_members(cms@).skip(
                j as int + 1,
            ));
        }
        let c = match client_from_json(&cms[j].1) {
            Some(c) => c,
            None => {
                proof {
                    assert(clients_of_members(jv_members(cms@).skip(j as int)) is None);
                }
                return None;
            },
        };
        let ghost pre = clients@;
        clients.push((cms[j].0.clone(), c));
        proof {
            assert forall|i: int| 0 <= i < clients@.len() implies #[trigger] client_entry_views(
                clients@,
            )[i] == (client_entry_views(pre).push(
                (clients@[pre.len() as int].0@, clients@[pre.len() as int].1@),
            ))[i] by {
                if i < pre.len() {
                    assert(clients@[i] == pre[i]);
                }
            }
            assert(client_entry_views(clients@) =~= client_entry_views(pre).push(
                (clients@[pre.len() as int].0@, clients@[pre.len() as int].1@),
            ));
            match clients_of_members(jv_members(cms@).skip(j as int + 1)) {
                Some(sub) => {
                    assert(client_entry_views(pre) + (seq![
                        (clients@[pre.len() as int].0@, clients@[pre.len() as int].1@),
                    ] + sub) =~= client_entry_views(pre).push(
                        (clients@[pre.len() as int].0@, clients@[pre.len() as int].1@),
                    ) + sub);
                },
                None => {},
            }
        }
        j += 1;
    }
    proof {
        assert(jv_members(cms@).skip(cms@.len() as int) =~= Seq::<(Seq<char>, JsonV)>::empty());
        assert(clients_of_members(Seq::<(Seq<char>, JsonV)>::empty()) == Some(
            Seq::<(Seq<char>, StoredClientV)>::empty(),
        ));
        assert(client_entry_views(clients@) + Seq::<(Seq<char>, StoredClientV)>::empty()
            =~= client_entry_views(clients@));
    }
    Some(AuthStore { tokens, clients })
}

impl AuthStore {
    /// Whether both maps carry unique keys; a freshly parsed store must
    /// pass this before it is operated on.
    pub fn check_wf(&self) -> (r: bool)
        ensures
            r == self.wf(),
    {
        unique_keys_tokens(&self.tokens) && unique_keys_clients(&self.clients)
    }
}

fn unique_keys_tokens(v: &Vec<(String, StoredToken)>) -> (r: bool)
    ensures
        r == assoc_wf(v@),
{
    let n = v.len();
    let mut i: usize = 0;
    while i < n
        invariant
            n == v@.len(),
            i <= n,
            forall|a: int, b: int| 0 <= a < b < v@.len() && a < i ==> (#[trigger] v@[a]).0@ != (
            #[trigger] v@[b]).0@,
        decreases n - i,
    {
        let mut j: usize = i + 1;
        while j < n
            invariant
                n == v@.len(),
                i < j <= n || (i + 1 == j && j > n),
                i < n,
                forall|b: int| i < b < j ==> (#[trigger] v@[b]).0@ != v@[i as int].0@,
            decreases n - j,
        {
            if crate::text::str_eq(v[i].0.as_str(), v[j].0.as_str()) {
                return false;
            }
            j += 1;
        }
        i += 1;
    }
    true
}

fn unique_keys_clients(v: &Vec<(String, StoredClient)>) -> (r: bool)
    ensures
        r == assoc_wf(v@),
{
    let n = v.len();
    let mut i: usize = 0;
    while i < n
        invariant
            n == v@.len(),
            i <= n,
            forall|a: int, b: int| 0 <= a < b < v@.len() && a < i ==> (#[trigger] v@[a]).0@ != (
            #[trigger] v@[b]).0@,
        decreases n - i,
    {
        let mut j: usize = i + 1;
        while j < n
            invariant
                n == v@.len(),
                i < j <= n || (i + 1 == j && j > n),
                i < n,
                forall|b: int| i < b < j ==> (#[trigger] v@[b]).0@ != v@[i as int].0@,
            decreases n - j,
        {
            if crate::text::str_eq(v[i].0.as_str(), v[j].0.as_str()) {
                return false;
            }
            j += 1;
        }
        i += 1;
    }
    true
}

/// Parses the persisted JSON of a token.
pub fn token_from_json(v: &Json) -> (r: Option<StoredToken>)
    ensures
        match r {
            Some(t) => token_of_jsonv(jv(*v)) == Some(t@),
            None => token_of_jsonv(jv(*v)) is None,
        },
{
    let ms = match v {
        Json::Obj(ms) => ms,
        _ => {
            return None;
        },
    };
    let access_token = match crate::rpc::obj_get(ms, "access_token") {
        Some(a) => match a {
            Json::Str(s) => s.clone(),
            _ => {
                return None;
            },
        },
        None => {
            return None;
        },
    };
    let refresh_token = match crate::rpc::obj_get(ms, "refresh_token") {
        Some(a) => match a {
            Json::Str(s) => Some(s.clone()),
            Json::Null => None,
            _ => {
                return None;
            },
        },
        None => None,
    };
    let expires_at = match crate::rpc::obj_get(ms, "expires_at") {
        Some(a) => match a {
            Json::Num(lex) => match crate::text::parse_u64_digits(lex) {
                Some(n) => Some(n),
                None => {
                    return None;
                },
            },
            Json::Null => None,
            _ => {
                return None;
            },
        },
        None => None,
    };
    let token_type = match crate::rpc::obj_get(ms, "token_type") {
        Some(a) => match a {
            Json::Str(s) => s.clone(),
            _ => {
                return None;
            },
        },
        None => {
            return None;
        },
    };
    Some(StoredToken { access_token, refresh_token, expires_at, token_type })
}

/// Parses the persisted JSON of a client.
pub fn client_from_json(v: &Json) -> (r: Option<StoredClient>)
    ensures
        match r {
            Some(c) => client_of_jsonv(jv(*v)) == Some(c@),
            None => client_of_jsonv(jv(*v)) is None,
        },
{
    let ms = match v {
        Json::Obj(ms) => ms,
        _ => {
            return None;
        },
    };
    let client_id = match crate::rpc::obj_get(ms, "client_id") {
        Some(a) => match a {
            Json::Str(s) => s.clone(),
            _ => {
                return None;
            },
        },
        None => {
            return None;
        },
    };
    let client_secret = match crate::rpc::obj_get(ms, "client_secret") {
        Some(a) => match a {
            Json::Str(s) => Some(s.clone()),
            Json::Null => None,
            _ => {
                return None;
            },
        },
        None => None,
    };
    let redirect_uri = match crate::rpc::obj_get(ms, "redirect_uri") {
        Some(a) => match a {
            Json::Str(s) => Some(s.clone()),
            Json::Null => None,
            _ => {
                return None;
            },
        },
        None => None,
    };
    Some(StoredClient { client_id, client_secret, redirect_uri })
}

} // verus!
