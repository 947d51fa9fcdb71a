//! API-key authentication.
//!
//! Clients authenticate by presenting their virtual key as a Bearer token in
//! the `Authorization` header. The gateway resolves the token to a
//! [`KeyIdentity`], which carries the key name and any per-key routing
//! overrides, or rejects the request with a 401 if the key is unknown.
use crate::config::{VirtualKey, VirtualKeyView};
use crate::config::laws;
use crate::config::resolve;
use crate::text;
use crate::text_laws;
use std::sync::Arc;
use vstd::hash_map::StringHashMap;
use vstd::prelude::*;

verus! {

/// Information attached to an authenticated request.
#[derive(Debug)]
pub struct KeyIdentity {
    /// Human-readable key name from config.
    pub name: String,
    /// When true every request from this key is treated as private,
    /// regardless of per-request markers.
    pub enforce_private: bool,
}

pub struct KeyIdentityView {
    pub name: Seq<char>,
    pub enforce_private: bool,
}

impl View for KeyIdentity {
    type V = KeyIdentityView;

    open spec fn view(&self) -> KeyIdentityView {
        KeyIdentityView { name: self.name@, enforce_private: self.enforce_private }
    }
}

impl Clone for KeyIdentity {
    fn clone(&self) -> (r: Self)
        ensures
            r == *self,
    {
        KeyIdentity { name: self.name.clone(), enforce_private: self.enforce_private }
    }
}

/// Who a virtual key stands for.
pub open spec fn identity_of(key: VirtualKeyView) -> KeyIdentityView {
    KeyIdentityView { name: key.name, enforce_private: key.enforce_private }
}

/// The lookup table of the given virtual keys, from secret to identity. Of keys
/// with one secret the last counts.
pub open spec fn key_table(keys: Seq<VirtualKeyView>) -> Map<Seq<char>, KeyIdentityView>
    decreases keys.len(),
{
    if keys.len() == 0 {
        Map::empty()
    } else {
        key_table(keys.drop_last()).insert(keys.last().key, identity_of(keys.last()))
    }
}

/// In-memory lookup table, built once from config at startup.
pub struct KeyStore {
    /// bearer token -> identity
    inner: Arc<StringHashMap<KeyIdentity>>,
}

impl View for KeyStore {
    type V = Map<Seq<char>, KeyIdentityView>;

    closed spec fn view(&self) -> Map<Seq<char>, KeyIdentityView> {
        self.inner@.map_values(|id: KeyIdentity| id@)
    }
}

/// `<Arc<T> as Clone>::clone` makes another pointer to the same value.
#[verifier::external_body]
fn share<T>(pointer: &Arc<T>) -> (r: Arc<T>)
    ensures
        r == *pointer,
{
    pointer.clone()
}

impl Clone for KeyStore {
    /// A store that shares the table of this one.
    fn clone(&self) -> (r: Self)
        ensures
            r@ == self@,
    {
        KeyStore { inner: share(&self.inner) }
    }
}

impl KeyStore {
    /// Build from the resolved virtual-key table.
    pub fn from_virtual_keys(keys: &[VirtualKey]) -> (r: Self)
        ensures
            r@ == key_table(resolve::key_views(keys@)),
    {
        let ghost views = resolve::key_views(keys@);
        let mut inner: StringHashMap<KeyIdentity> = StringHashMap::new();
        assert(inner@.map_values(|id: KeyIdentity| id@) == key_table(views.take(0)));
        for i in 0..keys.len()
            invariant
                views == resolve::key_views(keys@),
                inner@.map_values(|id: KeyIdentity| id@) == key_table(views.take(i as int)),
        {
            let ghost before = inner@.map_values(|id: KeyIdentity| id@);
            let vk = &keys[i];
            let identity = KeyIdentity {
                name: vk.name.clone(),
                enforce_private: vk.enforce_private,
            };
            inner.insert(vk.key.expose().to_owned(), identity);
            assert(views.take(i + 1).drop_last() == views.take(i as int));
            assert(views.take(i + 1).last() == vk@);
            assert(inner@.map_values(|id: KeyIdentity| id@) == before.insert(
                vk@.key,
                identity_of(vk@),
            ));
        }
        assert(views.take(keys@.len() as int) == views);
        KeyStore { inner: Arc::new(inner) }
    }

    /// `true` if the store has no configured virtual keys. In this mode every
    /// request is admitted as a public (non-private) caller, which is useful
    /// for unkeyed development deployments.
    pub fn is_open(&self) -> (r: bool)
        ensures
            r == self@.is_empty(),
    {
        assert(self@.dom() == self.inner@.dom());
        self.inner.is_empty()
    }

    /// Look up a bearer token. Returns `None` if the token is unknown.
    pub fn authenticate(&self, token: &str) -> (r: Option<&KeyIdentity>)
        ensures
            r is Some <==> self@.contains_key(token@),
            r matches Some(id) ==> id@ == self@[token@],
    {
        self.inner.get(token)
    }
}

/// The caller's virtual key, resolved from the `Authorization` header.
///
/// If no virtual keys are configured ([`KeyStore::is_open`]) every request is
/// admitted with a synthetic "anonymous" identity (non-private).
#[derive(Debug)]
pub struct AuthedKey(pub KeyIdentity);

/// Rejection returned when authentication fails.
#[derive(Debug)]
pub struct AuthError(pub &'static str);

/// The answer to a request that was not authenticated. `message`, `kind` and
/// `code` go into the JSON object `{"error": {"message", "type", "code"}}`.
#[derive(Debug)]
pub struct Rejection {
    pub status: u16,
    pub message: &'static str,
    pub kind: &'static str,
    pub code: &'static str,
}

/// Who a request comes from, given the key table and the text of its
/// `Authorization` header, or why it is rejected.
pub open spec fn caller(
    table: Map<Seq<char>, KeyIdentityView>,
    header: Option<Seq<char>>,
) -> Result<KeyIdentityView, Seq<char>> {
    if table.is_empty() {
        Ok(KeyIdentityView { name: "anonymous"@, enforce_private: false })
    } else {
        match header {
            None => Err("missing Authorization header"@),
            Some(text) => if !text::begins_with(text, "Bearer "@) {
                Err("Authorization header must use the Bearer scheme"@)
            } else {
                let token = text.skip("Bearer "@.len() as int);
                if table.contains_key(token) {
                    Ok(table[token])
                } else {
                    Err("invalid API key"@)
                }
            },
        }
    }
}

impl AuthError {
    /// The answer to send.
    pub fn into_response(self) -> (r: Rejection)
        ensures
            r.status == 401,
            r.message@ == self.0@,
            r.kind@ == "invalid_request_error"@,
            r.code@ == "invalid_api_key"@,
    {
        Rejection {
            status: 401,
            message: self.0,
            kind: "invalid_request_error",
            code: "invalid_api_key",
        }
    }
}

impl AuthedKey {
    /// Resolve the caller of a request. `header` is the text of its
    /// `Authorization` header, if it has one and it is text.
    pub fn from_request_parts(store: &KeyStore, header: Option<&str>) -> (r: Result<
        Self,
        AuthError,
    >)
        ensures
            match r {
                Ok(key) => caller(
                    store@,
                    match header {
                        Some(text) => Some(text@),
                        None => None,
                    },
                ) == Ok::<KeyIdentityView, Seq<char>>(key.0@),
                Err(e) => caller(
                    store@,
                    match header {
                        Some(text) => Some(text@),
                        None => None,
                    },
                ) == Err::<KeyIdentityView, Seq<char>>(e.0@),
            },
    {
        if store.is_open() {
            return Ok(
                AuthedKey(KeyIdentity { name: "anonymous".to_owned(), enforce_private: false }),
            );
        }
        let text = match header {
            None => {
                return Err(AuthError("missing Authorization header"));
            },
            Some(text) => text,
        };
        let token = match text::strip_prefix(text, "Bearer ") {
            None => {
                return Err(AuthError("Authorization header must use the Bearer scheme"));
            },
            Some(token) => token,
        };
        match store.authenticate(token.as_str()) {
            Some(id) => Ok(AuthedKey(id.clone())),
            None => Err(AuthError("invalid API key")),
        }
    }
}

/// Key `i` is the last one whose secret is `token`.
pub open spec fn is_last_holder(keys: Seq<VirtualKeyView>, i: int, token: Seq<char>) -> bool {
    &&& 0 <= i < keys.len()
    &&& keys[i].key == token
    &&& forall|j: int| i < j < keys.len() ==> (#[trigger] keys[j]).key != token
}

/// The secret of a key is known, and stands for the last key that has it.
pub proof fn lemma_known_token(keys: Seq<VirtualKeyView>, i: int, token: Seq<char>)
    requires
        is_last_holder(keys, i, token),
    ensures
        key_table(keys).contains_key(token),
        key_table(keys)[token] == identity_of(keys[i]),
    decreases keys.len(),
{
    if i < keys.len() - 1 {
        assert(keys[keys.len() - 1].key != token);
        let earlier = keys.drop_last();
        assert forall|j: int| i < j < earlier.len() implies (#[trigger] earlier[j]).key != token by {
            assert(keys[j].key != token);
        }
        lemma_known_token(earlier, i, token);
    }
}

/// A token that is known is the secret of some key.
pub proof fn lemma_token_has_holder(keys: Seq<VirtualKeyView>, token: Seq<char>) -> (i: int)
    requires
        key_table(keys).contains_key(token),
    ensures
        is_last_holder(keys, i, token),
    decreases keys.len(),
{
    if keys.last().key == token {
        keys.len() - 1
    } else {
        let earlier = keys.drop_last();
        let i = lemma_token_has_holder(earlier, token);
        assert forall|j: int| i < j < keys.len() implies (#[trigger] keys[j]).key != token by {
            if j < earlier.len() {
                assert(earlier[j].key != token);
            }
        }
        i
    }
}

/// Keys are independent: where no two share a secret, as in every configuration
/// that resolves, each key presented as a Bearer token is admitted as itself,
/// its `enforce_private` setting included.
pub proof fn lemma_each_key_is_admitted_as_itself(keys: Seq<VirtualKeyView>, i: int)
    requires
        laws::sound_keys(keys),
        0 <= i < keys.len(),
    ensures
        caller(key_table(keys), Some("Bearer "@ + keys[i].key)) == Ok::<KeyIdentityView, Seq<char>>(
            identity_of(keys[i]),
        ),
{
    let token = keys[i].key;
    assert forall|j: int| i < j < keys.len() implies (#[trigger] keys[j]).key != token by {
        assert(keys[i].key != keys[j].key);
    }
    lemma_known_token(keys, i, token);
    let header = "Bearer "@ + token;
    assert(header.take("Bearer "@.len() as int) == "Bearer "@);
    assert(header.skip("Bearer "@.len() as int) == token);
    assert(key_table(keys).dom().contains(token));
}

/// A gateway with keys admits no one else: a request that gets in carries the
/// secret of one of the keys, behind `Bearer `.
pub proof fn lemma_only_key_holders_get_in(keys: Seq<VirtualKeyView>, header: Option<Seq<char>>)
    requires
        keys.len() > 0,
        caller(key_table(keys), header) is Ok,
    ensures
        exists|i: int|
            0 <= i < keys.len() && header == Some("Bearer "@ + (#[trigger] keys[i]).key)
                && caller(key_table(keys), header)->Ok_0 == identity_of(keys[i]),
{
    lemma_open_without_keys(keys);
    let text = header->0;
    let prefix = "Bearer "@;
    let token = text.skip(prefix.len() as int);
    assert(text == prefix + token) by {
        assert(text == text.take(prefix.len() as int) + token);
    }
    let i = lemma_token_has_holder(keys, token);
    lemma_known_token(keys, i, token);
    assert(keys[i].key == token);
}

/// The store is open exactly if no keys are configured. Every request then gets
/// in, as the anonymous, non-private caller.
pub proof fn lemma_open_without_keys(keys: Seq<VirtualKeyView>)
    ensures
        key_table(keys).is_empty() <==> keys.len() == 0,
        keys.len() == 0 ==> forall|header: Option<Seq<char>>| #[trigger]
            caller(key_table(keys), header) == Ok::<KeyIdentityView, Seq<char>>(
                KeyIdentityView { name: "anonymous"@, enforce_private: false },
            ),
{
    if keys.len() > 0 {
        assert(key_table(keys).dom().contains(keys.last().key));
    }
}

/// A key stands for its own name and its own `enforce_private` setting.
pub proof fn lemma_identity_is_the_keys_own(key: VirtualKeyView, id: KeyIdentity)
    ensures
        identity_of(key).name == key.name,
        identity_of(key).enforce_private == key.enforce_private,
        id@.name == id.name@,
        id@.enforce_private == id.enforce_private,
{
}

/// Why a request is turned away where there are keys: it has no header, its
/// header does not use the Bearer scheme, or its token is the secret of no key.
/// A request whose token is a key's secret is never turned away.
pub proof fn lemma_why_requests_are_turned_away(keys: Seq<VirtualKeyView>, text: Seq<char>)
    requires
        keys.len() > 0,
    ensures
        caller(key_table(keys), None) == Err::<KeyIdentityView, Seq<char>>(
            "missing Authorization header"@,
        ),
        (forall|token: Seq<char>| text != "Bearer "@ + token) ==> caller(
            key_table(keys),
            Some(text),
        ) == Err::<KeyIdentityView, Seq<char>>(
            "Authorization header must use the Bearer scheme"@,
        ),
        (forall|i: int| 0 <= i < keys.len() ==> (#[trigger] keys[i]).key != text) ==> caller(
            key_table(keys),
            Some("Bearer "@ + text),
        ) == Err::<KeyIdentityView, Seq<char>>("invalid API key"@),
        forall|i: int|
            is_last_holder(keys, i, text) ==> caller(
                key_table(keys),
                Some("Bearer "@ + text),
            ) == Ok::<KeyIdentityView, Seq<char>>(
                KeyIdentityView {
                    name: (#[trigger] keys[i]).name,
                    enforce_private: keys[i].enforce_private,
                },
            ),
{
    lemma_open_without_keys(keys);
    let prefix = "Bearer "@;
    if text::begins_with(text, prefix) {
        text_laws::lemma_prefix_splits(text, prefix);
        assert(text == prefix + text.skip(prefix.len() as int));
    }
    let header = prefix + text;
    text_laws::lemma_prefix_then_anything(prefix, text);
    assert(header.skip(prefix.len() as int) == text);
    if forall|i: int| 0 <= i < keys.len() ==> (#[trigger] keys[i]).key != text {
        if key_table(keys).contains_key(text) {
            let i = lemma_token_has_holder(keys, text);
            assert(keys[i].key == text);
        }
    }
    assert forall|i: int| is_last_holder(keys, i, text) implies caller(
        key_table(keys),
        Some(header),
    ) == Ok::<KeyIdentityView, Seq<char>>(
        KeyIdentityView {
            name: (#[trigger] keys[i]).name,
            enforce_private: keys[i].enforce_private,
        },
    ) by {
        lemma_known_token(keys, i, text);
    }
}

}
