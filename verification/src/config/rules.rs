//! The rules of configuration, each stated of all inputs: which names, URLs and
//! lists pass, which sources resolve, and which error the first broken rule
//! gives.
use super::laws;
use super::model;
use super::resolve;
use super::{
    BackendView, ConfigErrorView, GatewayConfigView, PolicySelection, RawBackendView,
    RawConfigView, RawPolicy, RawVirtualKeyView, VirtualKeyView,
};
use crate::binary64_laws;
use crate::text_laws;
use vstd::prelude::*;

verus! {

/// A backend serves every model that it lists, at whatever place, and no other.
pub proof fn lemma_serves_exactly_the_listed(b: BackendView, model: Seq<char>)
    ensures
        forall|i: int| 0 <= i < b.models.len() ==> b.serves(#[trigger] b.models[i]),
        b.serves(model) <==> exists|i: int|
            0 <= i < b.models.len() && #[trigger] b.models[i] == model,
{
}

/// Required tags are checked one by one, in whatever order they come: a list of
/// them is met exactly if each of its parts is, and one tag is met exactly if
/// the backend lists it.
pub proof fn lemma_tags_are_met_one_by_one(
    b: BackendView,
    x: Seq<Seq<char>>,
    y: Seq<Seq<char>>,
    tag: Seq<char>,
)
    ensures
        b.has_tags(Seq::empty()),
        b.has_tags(x + y) <==> b.has_tags(x) && b.has_tags(y),
        b.has_tags(seq![tag]) <==> exists|i: int|
            0 <= i < b.capability_tags.len() && #[trigger] b.capability_tags[i] == tag,
{
    if b.has_tags(x + y) {
        assert forall|i: int| 0 <= i < x.len() implies b.capability_tags.contains(
            #[trigger] x[i],
        ) by {
            assert((x + y)[i] == x[i]);
        }
        assert forall|i: int| 0 <= i < y.len() implies b.capability_tags.contains(
            #[trigger] y[i],
        ) by {
            assert((x + y)[x.len() + i] == y[i]);
        }
    }
    assert(seq![tag][0] == tag);
    if b.has_tags(seq![tag]) {
        assert(b.capability_tags.contains(seq![tag][0]));
    }
}

/// The grammar of variable names, `[A-Za-z_][A-Za-z0-9_]*`: a letter or an
/// underscore is one, and one followed by a letter, an underscore or a digit is
/// one; nothing else is.
pub proof fn lemma_env_name_grammar(name: Seq<char>, c: char)
    ensures
        !model::is_env_name(Seq::empty()),
        model::is_env_name(seq![c]) <==> ('A' <= c <= 'Z' || 'a' <= c <= 'z' || c == '_'),
        name.len() > 0 ==> (model::is_env_name(name.push(c)) <==> model::is_env_name(name) && (
        'A' <= c <= 'Z' || 'a' <= c <= 'z' || c == '_' || '0' <= c <= '9')),
{
    let longer = name.push(c);
    assert(seq![c][0] == c);
    if name.len() > 0 {
        assert(longer[0] == name[0]);
        assert(longer[name.len() as int] == c);
        if model::is_env_name(longer) {
            assert forall|i: int| 0 <= i < name.len() implies model::continues_env_name(
                #[trigger] name[i],
            ) by {
                assert(longer[i] == name[i]);
            }
        }
        if model::is_env_name(name) && model::continues_env_name(c) {
            assert forall|i: int| 0 <= i < longer.len() implies model::continues_env_name(
                #[trigger] longer[i],
            ) by {
                if i < name.len() {
                    assert(longer[i] == name[i]);
                }
            }
        }
    }
}

/// A host as it may stand in a URL: not empty, without `/`, `?`, `#` or `@`, and
/// not beginning with the colon of a port. A port may follow.
pub open spec fn is_host_text(host: Seq<char>) -> bool {
    &&& host.len() > 0
    &&& host[0] != ':'
    &&& forall|i: int|
        0 <= i < host.len() ==> #[trigger] host[i] != '/' && host[i] != '?' && host[i] != '#'
            && host[i] != '@'
}

/// User information as it may stand before a host: nothing, or something without
/// `/`, `?` and `#` that ends in `@`.
pub open spec fn is_user_text(user: Seq<char>) -> bool {
    &&& user.len() > 0 ==> user.last() == '@'
    &&& forall|i: int|
        0 <= i < user.len() ==> #[trigger] user[i] != '/' && user[i] != '?' && user[i] != '#'
}

/// What may follow a host: nothing, or a path, a query or a fragment.
pub open spec fn is_tail_text(tail: Seq<char>) -> bool {
    tail.len() > 0 ==> tail[0] == '/' || tail[0] == '?' || tail[0] == '#'
}

proof fn lemma_has_host(user: Seq<char>, host: Seq<char>, tail: Seq<char>)
    requires
        is_user_text(user),
        is_host_text(host),
        is_tail_text(tail),
    ensures
        model::has_host(user + host + tail),
{
    let rest = user + host + tail;
    let start = user.len() as int;
    let end = start + host.len();
    assert forall|i: int| 0 <= i < end implies !model::ends_authority(#[trigger] rest[i]) by {
        if i < start {
            assert(rest[i] == user[i]);
        } else {
            assert(rest[i] == host[i - start]);
        }
    }
    assert(end < rest.len() ==> rest[end] == tail[0]);
    assert forall|i: int| start <= i < end implies #[trigger] rest[i] != '@' by {
        assert(rest[i] == host[i - start]);
    }
    assert(model::is_authority_end(rest, end));
    assert(model::is_host_start(rest, start, end));
    assert(rest[start] == host[0]);
}

/// Every URL made of `http://` or `https://`, possibly user information, a host
/// and whatever path, query or fragment is accepted.
pub proof fn lemma_urls_with_a_host_pass(user: Seq<char>, host: Seq<char>, tail: Seq<char>)
    requires
        is_user_text(user),
        is_host_text(host),
        is_tail_text(tail),
    ensures
        model::is_http_url("http://"@ + (user + host + tail)),
        model::is_http_url("https://"@ + (user + host + tail)),
{
    let rest = user + host + tail;
    lemma_has_host(user, host, tail);
    text_laws::lemma_prefix_then_anything("http://"@, rest);
    text_laws::lemma_prefix_then_anything("https://"@, rest);
    assert(("http://"@ + rest).skip("http://"@.len() as int) == rest);
    assert(("https://"@ + rest).skip("https://"@.len() as int) == rest);
}

/// Every URL that is accepted is so made.
pub proof fn lemma_accepted_urls_have_a_host(url: Seq<char>)
    requires
        model::is_http_url(url),
    ensures
        exists|user: Seq<char>, host: Seq<char>, tail: Seq<char>| #[trigger]
            is_made_of(url, user, host, tail),
{
    let scheme = if model::is_url_of(url, "http://"@) {
        "http://"@
    } else {
        "https://"@
    };
    let rest = url.skip(scheme.len() as int);
    text_laws::lemma_prefix_splits(url, scheme);
    let (start, end) = choose|start: int, end: int| #[trigger]
        model::is_host_start(rest, start, end) && model::is_authority_end(rest, end) && start < end
            && rest[start] != ':';
    let user = rest.take(start);
    let host = rest.subrange(start, end);
    let tail = rest.skip(end);
    assert(rest == user + host + tail);
    assert forall|i: int| 0 <= i < user.len() implies #[trigger] user[i] != '/' && user[i] != '?'
        && user[i] != '#' by {
        assert(!model::ends_authority(rest[i]));
    }
    assert forall|i: int| 0 <= i < host.len() implies #[trigger] host[i] != '/' && host[i] != '?'
        && host[i] != '#' && host[i] != '@' by {
        assert(!model::ends_authority(rest[start + i]));
        assert(rest[start + i] != '@');
    }
    assert(tail.len() > 0 ==> tail[0] == rest[end]);
    assert(is_made_of(url, user, host, tail));
}

/// The URL is `http://` or `https://`, then user information, a host and a tail.
pub open spec fn is_made_of(
    url: Seq<char>,
    user: Seq<char>,
    host: Seq<char>,
    tail: Seq<char>,
) -> bool {
    &&& is_user_text(user)
    &&& is_host_text(host)
    &&& is_tail_text(tail)
    &&& url == "http://"@ + (user + host + tail) || url == "https://"@ + (user + host + tail)
}

/// A list has an empty entry exactly if the empty text is one of its entries.
pub proof fn lemma_empty_entries(list: Seq<Seq<char>>)
    ensures
        model::has_empty(list) <==> list.contains(Seq::empty()),
{
    if model::has_empty(list) {
        let i = choose|i: int| 0 <= i < list.len() && (#[trigger] list[i]).len() == 0;
        assert(list[i] == Seq::<char>::empty());
    }
    if list.contains(Seq::empty()) {
        let i = choose|i: int| 0 <= i < list.len() && list[i] == Seq::<char>::empty();
        assert(list[i].len() == 0);
    }
}

/// The references of a configuration: entry by entry the base URL and, where it
/// has one, the API key of each backend; then the variable of each virtual key.
pub proof fn lemma_references_in_order(raw: RawConfigView)
    ensures
        ({
            let refs = model::references(raw);
            let n = raw.backends.len() as int;
            let keys = laws::place_of(raw.backends, n);
            &&& laws::place_of(raw.backends, 0) == 0
            &&& forall|i: int|
                0 <= i < n ==> {
                    let at = #[trigger] laws::place_of(raw.backends, i);
                    &&& refs[at] == raw.backends[i].base_url_env
                    &&& raw.backends[i].api_key_env is None ==> laws::place_of(
                        raw.backends,
                        i + 1,
                    ) == at + 1
                    &&& raw.backends[i].api_key_env matches Some(var) ==> refs[at + 1] == var
                        && laws::place_of(raw.backends, i + 1) == at + 2
                }
            &&& refs.len() == keys + raw.virtual_keys.len()
            &&& forall|i: int|
                0 <= i < raw.virtual_keys.len() ==> refs[keys + i] == (
                #[trigger] raw.virtual_keys[i]).key_env
        }),
{
    let refs = model::references(raw);
    let before = model::backend_references(raw.backends);
    let n = raw.backends.len() as int;
    assert(raw.backends.take(n) == raw.backends);
    assert(raw.backends.take(0).len() == 0);
    assert forall|i: int| 0 <= i < n implies {
        let at = #[trigger] laws::place_of(raw.backends, i);
        &&& refs[at] == raw.backends[i].base_url_env
        &&& raw.backends[i].api_key_env is None ==> laws::place_of(raw.backends, i + 1) == at + 1
        &&& raw.backends[i].api_key_env matches Some(var) ==> refs[at + 1] == var
            && laws::place_of(raw.backends, i + 1) == at + 2
    } by {
        laws::lemma_backend_reference_at(raw.backends, i);
        let at = laws::place_of(raw.backends, i);
        assert(refs[at] == before[at]);
        if raw.backends[i].api_key_env is Some {
            assert(refs[at + 1] == before[at + 1]);
        }
    }
    assert forall|i: int| 0 <= i < raw.virtual_keys.len() implies refs[laws::place_of(
        raw.backends,
        n,
    ) + i] == (#[trigger] raw.virtual_keys[i]).key_env by {
        assert(model::key_references(raw.virtual_keys)[i] == raw.virtual_keys[i].key_env);
    }
}

/// Which blending factors pass: those whose pattern stands between that of the
/// least positive number and that of 1.0. The policy that is asked for is the
/// policy that runs, with the same factor.
pub proof fn lemma_policy_is_as_asked(alpha_bits: u64)
    ensures
        model::resolved_policy(RawPolicy::StaticPriority) == Ok::<PolicySelection, ConfigErrorView>(
            PolicySelection::StaticPriority,
        ),
        1 <= alpha_bits <= 0x3FF0_0000_0000_0000 ==> model::resolved_policy(
            RawPolicy::EwmaLatency { alpha_bits },
        ) == Ok::<PolicySelection, ConfigErrorView>(PolicySelection::EwmaLatency { alpha_bits }),
        !(1 <= alpha_bits <= 0x3FF0_0000_0000_0000) ==> model::resolved_policy(
            RawPolicy::EwmaLatency { alpha_bits },
        ) == Err::<PolicySelection, ConfigErrorView>(ConfigErrorView::InvalidAlpha(alpha_bits)),
{
    binary64_laws::lemma_unit_interval_is_a_range(alpha_bits);
}

/// The policy of a configuration that resolves is the one that its source asks
/// for, with the same factor, and a factor is never out of range.
pub proof fn lemma_resolved_policy_is_as_asked(
    raw: RawConfigView,
    listen_error: Option<Seq<char>>,
    answers: Seq<Option<Seq<char>>>,
)
    requires
        model::resolved_config(raw, listen_error, answers) is Ok,
    ensures
        ({
            let policy = model::resolved_config(raw, listen_error, answers)->Ok_0.policy;
            match raw.policy {
                RawPolicy::StaticPriority => policy == PolicySelection::StaticPriority,
                RawPolicy::EwmaLatency { alpha_bits } => policy == (PolicySelection::EwmaLatency {
                    alpha_bits,
                }) && 1 <= alpha_bits <= 0x3FF0_0000_0000_0000,
            }
        }),
{
    if let RawPolicy::EwmaLatency { alpha_bits } = raw.policy {
        lemma_policy_is_as_asked(alpha_bits);
    }
}

/// No entry before `i` bears the name of entry `i`.
pub open spec fn is_first_of_its_name(raws: Seq<RawBackendView>, i: int) -> bool {
    forall|j: int| 0 <= j < i ==> (#[trigger] raws[j]).name != raws[i].name
}

/// Backend entry `i` names itself well and names a valid variable for its URL.
pub open spec fn names_are_good(raws: Seq<RawBackendView>, i: int) -> bool {
    raws[i].name.len() > 0 && is_first_of_its_name(raws, i) && model::is_env_name(
        raws[i].base_url_env,
    )
}

/// The URL of backend entry `i` is set and well-formed.
pub open spec fn url_is_good(
    raws: Seq<RawBackendView>,
    i: int,
    answers: Seq<Option<Seq<char>>>,
) -> bool {
    &&& names_are_good(raws, i)
    &&& answers[laws::place_of(raws, i)] matches Some(url) && model::is_http_url(url)
}

/// The API key of backend entry `i`, if it has one, is set.
pub open spec fn api_key_is_good(
    raws: Seq<RawBackendView>,
    i: int,
    answers: Seq<Option<Seq<char>>>,
) -> bool {
    &&& url_is_good(raws, i, answers)
    &&& raws[i].api_key_env matches Some(var) ==> model::is_env_name(var)
        && answers[laws::place_of(raws, i) + 1] is Some
}

/// Backend entry `i` keeps every rule.
pub open spec fn entry_is_good(
    raws: Seq<RawBackendView>,
    i: int,
    answers: Seq<Option<Seq<char>>>,
) -> bool {
    &&& api_key_is_good(raws, i, answers)
    &&& raws[i].models.len() > 0
    &&& !raws[i].models.contains(Seq::empty())
    &&& !raws[i].capability_tags.contains(Seq::empty())
}

/// The backend entries before `n` keep every rule.
pub open spec fn good_up_to(
    raws: Seq<RawBackendView>,
    n: int,
    answers: Seq<Option<Seq<char>>>,
) -> bool {
    forall|i: int| 0 <= i < n ==> #[trigger] entry_is_good(raws, i, answers)
}

/// What the step at entry `i` does.
proof fn lemma_backend_step(
    raws: Seq<RawBackendView>,
    i: int,
    answers: Seq<Option<Seq<char>>>,
)
    requires
        0 <= i < raws.len(),
        model::resolved_backends(raws.take(i), answers) is Ok,
    ensures
        ({
            let at = laws::place_of(raws, i);
            let step = model::resolved_backend(
                raws[i],
                raws.take(i),
                answers[at],
                answers[at + 1],
            );
            &&& model::resolved_backends(raws.take(i + 1), answers) is Ok <==> step is Ok
            &&& step matches Err(e) ==> model::resolved_backends(raws.take(i + 1), answers)
                == Err::<Seq<BackendView>, ConfigErrorView>(e)
            &&& model::asked_by_backends(raws.take(i + 1), answers) == at
                + model::asked_by_backend(raws[i], raws.take(i), answers[at])
            &&& model::names_backend(raws.take(i), raws[i].name) <==> !is_first_of_its_name(
                raws,
                i,
            )
        }),
{
    let upto = raws.take(i + 1);
    assert(upto.drop_last() == raws.take(i));
    assert(upto.last() == raws[i]);
    laws::lemma_backends_asked(raws.take(i), answers);
    if model::names_backend(raws.take(i), raws[i].name) {
        let j = choose|j: int|
            0 <= j < raws.take(i).len() && (#[trigger] raws.take(i)[j]).name == raws[i].name;
        assert(raws[j].name == raws[i].name);
    }
    if !is_first_of_its_name(raws, i) {
        let j = choose|j: int| 0 <= j < i && (#[trigger] raws[j]).name == raws[i].name;
        assert(raws.take(i)[j].name == raws[i].name);
    }
}

proof fn lemma_good_entries_resolve(
    raws: Seq<RawBackendView>,
    n: int,
    answers: Seq<Option<Seq<char>>>,
)
    requires
        0 <= n <= raws.len(),
    ensures
        model::resolved_backends(raws.take(n), answers) is Ok <==> good_up_to(raws, n, answers),
    decreases n,
{
    if n > 0 {
        let i = n - 1;
        lemma_good_entries_resolve(raws, i, answers);
        assert(raws.take(n).drop_last() == raws.take(i));
        lemma_empty_entries(raws[i].models);
        lemma_empty_entries(raws[i].capability_tags);
        if model::resolved_backends(raws.take(i), answers) is Ok {
            lemma_backend_step(raws, i, answers);
        }
        if good_up_to(raws, n, answers) {
            assert(good_up_to(raws, i, answers));
            assert(entry_is_good(raws, i, answers));
        }
    }
}

/// No entry before `i` has the secret of entry `i`.
pub open spec fn is_fresh_secret(
    i: int,
    answers: Seq<Option<Seq<char>>>,
) -> bool {
    forall|j: int| 0 <= j < i ==> #[trigger] answers[j] != answers[i]
}

/// Virtual-key entry `i` names itself well and names a valid variable.
pub open spec fn key_names_are_good(raws: Seq<RawVirtualKeyView>, i: int) -> bool {
    &&& raws[i].name.len() > 0
    &&& forall|j: int| 0 <= j < i ==> (#[trigger] raws[j]).name != raws[i].name
    &&& model::is_env_name(raws[i].key_env)
}

/// Virtual-key entry `i` keeps every rule; `answers` is what the environment says
/// of the entries, one for one.
pub open spec fn key_is_good(
    raws: Seq<RawVirtualKeyView>,
    i: int,
    answers: Seq<Option<Seq<char>>>,
) -> bool {
    &&& key_names_are_good(raws, i)
    &&& answers[i] matches Some(key) && key.len() > 0
    &&& is_fresh_secret(i, answers)
}

/// The virtual-key entries before `n` keep every rule.
pub open spec fn keys_good_up_to(
    raws: Seq<RawVirtualKeyView>,
    n: int,
    answers: Seq<Option<Seq<char>>>,
) -> bool {
    forall|i: int| 0 <= i < n ==> #[trigger] key_is_good(raws, i, answers)
}

/// The holder of a secret is the last key that has it.
pub proof fn lemma_key_holder_is_the_last(keys: Seq<VirtualKeyView>, i: int, key: Seq<char>)
    requires
        0 <= i < keys.len(),
        keys[i].key == key,
        forall|j: int| i < j < keys.len() ==> (#[trigger] keys[j]).key != key,
    ensures
        model::key_holder(keys, key) == Some(keys[i].name),
    decreases keys.len(),
{
    if i < keys.len() - 1 {
        assert(keys[keys.len() - 1].key != key);
        let earlier = keys.drop_last();
        assert forall|j: int| i < j < earlier.len() implies (#[trigger] earlier[j]).key != key by {
            assert(keys[j].key != key);
        }
        lemma_key_holder_is_the_last(earlier, i, key);
    }
}

/// A secret has no holder if no key has it.
pub proof fn lemma_unheld_secret(keys: Seq<VirtualKeyView>, key: Seq<char>)
    requires
        forall|j: int| 0 <= j < keys.len() ==> (#[trigger] keys[j]).key != key,
    ensures
        model::key_holder(keys, key) is None,
    decreases keys.len(),
{
    if keys.len() > 0 {
        assert(keys[keys.len() - 1].key != key);
        let earlier = keys.drop_last();
        assert forall|j: int| 0 <= j < earlier.len() implies (#[trigger] earlier[j]).key != key by {
            assert(keys[j].key != key);
        }
        lemma_unheld_secret(earlier, key);
    }
}

/// A secret has a holder if a key has it.
pub proof fn lemma_held_secret(keys: Seq<VirtualKeyView>, i: int, key: Seq<char>)
    requires
        0 <= i < keys.len(),
        keys[i].key == key,
    ensures
        model::key_holder(keys, key) is Some,
    decreases keys.len(),
{
    if i < keys.len() - 1 {
        lemma_held_secret(keys.drop_last(), i, key);
    }
}

proof fn lemma_key_step(
    raws: Seq<RawVirtualKeyView>,
    i: int,
    answers: Seq<Option<Seq<char>>>,
)
    requires
        0 <= i < raws.len(),
        model::resolved_keys(raws.take(i), answers) is Ok,
    ensures
        ({
            let done = model::resolved_keys(raws.take(i), answers)->Ok_0;
            let step = model::resolved_key(raws[i], done, answers[i]);
            &&& done.len() == i
            &&& forall|j: int|
                0 <= j < i ==> (#[trigger] done[j]).name == raws[j].name && answers[j] == Some(
                    done[j].key,
                )
            &&& model::resolved_keys(raws.take(i + 1), answers) is Ok <==> step is Ok
            &&& step matches Err(e) ==> model::resolved_keys(raws.take(i + 1), answers) == Err::<
                Seq<VirtualKeyView>,
                ConfigErrorView,
            >(e)
            &&& model::asked_by_keys(raws.take(i + 1), answers) == i + (if model::asks_for_key(
                raws[i],
                done,
            ) {
                1int
            } else {
                0int
            })
            &&& model::names_key(done, raws[i].name) <==> exists|j: int|
                0 <= j < i && (#[trigger] raws[j]).name == raws[i].name
            &&& answers[i] matches Some(key) ==> (model::key_holder(done, key) is None
                <==> is_fresh_secret(i, answers))
        }),
{
    let upto = raws.take(i + 1);
    assert(upto.drop_last() == raws.take(i));
    assert(upto.last() == raws[i]);
    laws::lemma_keys_asked(raws.take(i), answers);
    laws::lemma_keys_resolve(raws.take(i), answers);
    let done = model::resolved_keys(raws.take(i), answers)->Ok_0;
    assert forall|j: int| 0 <= j < i implies (#[trigger] done[j]).name == raws[j].name
        && answers[j] == Some(done[j].key) by {
        assert(laws::key_of(done[j], raws.take(i)[j], answers[j]));
    }
    if model::names_key(done, raws[i].name) {
        let j = choose|j: int| 0 <= j < done.len() && (#[trigger] done[j]).name == raws[i].name;
        assert(raws[j].name == raws[i].name);
    }
    if exists|j: int| 0 <= j < i && (#[trigger] raws[j]).name == raws[i].name {
        let j = choose|j: int| 0 <= j < i && (#[trigger] raws[j]).name == raws[i].name;
        assert(done[j].name == raws[i].name);
    }
    if let Some(key) = answers[i] {
        if is_fresh_secret(i, answers) {
            assert forall|j: int| 0 <= j < done.len() implies (#[trigger] done[j]).key != key by {
                assert(answers[j] != answers[i]);
            }
            lemma_unheld_secret(done, key);
        } else {
            let j = choose|j: int| 0 <= j < i && #[trigger] answers[j] == answers[i];
            assert(done[j].key == key);
            lemma_held_secret(done, j, key);
        }
    }
}

proof fn lemma_good_keys_resolve(
    raws: Seq<RawVirtualKeyView>,
    n: int,
    answers: Seq<Option<Seq<char>>>,
)
    requires
        0 <= n <= raws.len(),
    ensures
        model::resolved_keys(raws.take(n), answers) is Ok <==> keys_good_up_to(raws, n, answers),
    decreases n,
{
    if n > 0 {
        let i = n - 1;
        lemma_good_keys_resolve(raws, i, answers);
        assert(raws.take(n).drop_last() == raws.take(i));
        if model::resolved_keys(raws.take(i), answers) is Ok {
            lemma_key_step(raws, i, answers);
        }
        if keys_good_up_to(raws, n, answers) {
            assert(keys_good_up_to(raws, i, answers));
            assert(key_is_good(raws, i, answers));
        }
    }
}

/// The policy table keeps its rule.
pub open spec fn policy_is_good(policy: RawPolicy) -> bool {
    policy matches RawPolicy::EwmaLatency { alpha_bits } ==> 1 <= alpha_bits
        <= 0x3FF0_0000_0000_0000
}

/// A configuration resolves exactly if it keeps every rule: its listen address
/// is one, it has a backend, and every backend entry, every virtual-key entry
/// and the policy are good.
pub proof fn lemma_resolves_if_and_only_if_good(
    raw: RawConfigView,
    listen_error: Option<Seq<char>>,
    answers: Seq<Option<Seq<char>>>,
)
    ensures
        model::resolved_config(raw, listen_error, answers) is Ok <==> {
            &&& listen_error is None
            &&& raw.backends.len() > 0
            &&& good_up_to(raw.backends, raw.backends.len() as int, answers)
            &&& keys_good_up_to(
                raw.virtual_keys,
                raw.virtual_keys.len() as int,
                answers.skip(laws::place_of(raw.backends, raw.backends.len() as int)),
            )
            &&& policy_is_good(raw.policy)
        },
{
    let n = raw.backends.len() as int;
    let m = raw.virtual_keys.len() as int;
    assert(raw.backends.take(n) == raw.backends);
    assert(raw.virtual_keys.take(m) == raw.virtual_keys);
    lemma_good_entries_resolve(raw.backends, n, answers);
    lemma_good_keys_resolve(raw.virtual_keys, m, model::key_answers(raw, answers));
    if let RawPolicy::EwmaLatency { alpha_bits } = raw.policy {
        lemma_policy_is_as_asked(alpha_bits);
    }
}

/// An error in the listen address comes first, then the lack of backends.
/// Neither asks the environment for anything.
pub proof fn lemma_listen_address_comes_first(
    raw: RawConfigView,
    source: Seq<char>,
    answers: Seq<Option<Seq<char>>>,
)
    ensures
        model::resolved_config(raw, Some(source), answers) == Err::<
            GatewayConfigView,
            ConfigErrorView,
        >(ConfigErrorView::InvalidListen { addr: raw.listen, source }),
        model::asked(raw, Some(source), answers) == 0,
        raw.backends.len() == 0 ==> model::resolved_config(raw, None, answers) == Err::<
            GatewayConfigView,
            ConfigErrorView,
        >(ConfigErrorView::NoBackends) && model::asked(raw, None, answers) == 0,
{
}

/// A configuration is refused with this error, after this many lookups.
pub open spec fn is_refused(
    raw: RawConfigView,
    answers: Seq<Option<Seq<char>>>,
    error: ConfigErrorView,
    lookups: int,
) -> bool {
    &&& model::resolved_config(raw, None, answers) == Err::<GatewayConfigView, ConfigErrorView>(
        error,
    )
    &&& model::asked(raw, None, answers) == lookups
}

/// The first backend entry that breaks a rule decides, by the first rule that it
/// breaks; and after the lookup that showed it, nothing is asked.
pub proof fn lemma_first_bad_backend_decides(
    raw: RawConfigView,
    answers: Seq<Option<Seq<char>>>,
    i: int,
)
    requires
        0 <= i < raw.backends.len(),
        good_up_to(raw.backends, i, answers),
    ensures
        ({
            let raws = raw.backends;
            let b = raws[i];
            let at = laws::place_of(raws, i);
            let name = b.name;
            let done = if b.api_key_env is Some {
                at + 2
            } else {
                at + 1
            };
            &&& name.len() == 0 ==> is_refused(
                raw,
                answers,
                ConfigErrorView::EmptyBackendName,
                at,
            )
            &&& name.len() > 0 && !is_first_of_its_name(raws, i) ==> is_refused(
                raw,
                answers,
                ConfigErrorView::DuplicateBackend(name),
                at,
            )
            &&& name.len() > 0 && is_first_of_its_name(raws, i) && !model::is_env_name(
                b.base_url_env,
            ) ==> is_refused(
                raw,
                answers,
                ConfigErrorView::InvalidEnvName {
                    name,
                    field: "base_url_env"@,
                    value: b.base_url_env,
                },
                at,
            )
            &&& names_are_good(raws, i) && answers[at] is None ==> is_refused(
                raw,
                answers,
                ConfigErrorView::MissingEnv { name, field: "base_url_env"@, var: b.base_url_env },
                at + 1,
            )
            &&& names_are_good(raws, i) && (answers[at] matches Some(url)
                && !model::is_http_url(url)) ==> is_refused(
                raw,
                answers,
                ConfigErrorView::InvalidBaseUrl { name, url: answers[at]->0 },
                at + 1,
            )
            &&& url_is_good(raws, i, answers) && (b.api_key_env matches Some(var)
                && !model::is_env_name(var)) ==> is_refused(
                raw,
                answers,
                ConfigErrorView::InvalidEnvName {
                    name,
                    field: "api_key_env"@,
                    value: b.api_key_env->0,
                },
                at + 1,
            )
            &&& url_is_good(raws, i, answers) && (b.api_key_env matches Some(var)
                && model::is_env_name(var) && answers[at + 1] is None) ==> is_refused(
                raw,
                answers,
                ConfigErrorView::MissingEnv { name, field: "api_key_env"@, var: b.api_key_env->0 },
                at + 2,
            )
            &&& api_key_is_good(raws, i, answers) && b.models.len() == 0 ==> is_refused(
                raw,
                answers,
                ConfigErrorView::NoModels(name),
                done,
            )
            &&& api_key_is_good(raws, i, answers) && b.models.contains(
                Seq::empty(),
            ) ==> is_refused(
                raw,
                answers,
                ConfigErrorView::EmptyEntry { name, field: "models"@ },
                done,
            )
            &&& api_key_is_good(raws, i, answers) && b.models.len() > 0 && !b.models.contains(
                Seq::empty(),
            ) && b.capability_tags.contains(Seq::empty()) ==> is_refused(
                raw,
                answers,
                ConfigErrorView::EmptyEntry { name, field: "capability_tags"@ },
                done,
            )
        }),
{
    let raws = raw.backends;
    lemma_good_entries_resolve(raws, i, answers);
    lemma_backend_step(raws, i, answers);
    lemma_empty_entries(raws[i].models);
    lemma_empty_entries(raws[i].capability_tags);
    if model::resolved_backends(raws.take(i + 1), answers) is Err {
        resolve::lemma_backends_stop(raws, i + 1, answers);
    }
}

/// Once the backends are good, the first virtual-key entry that breaks a rule
/// decides, by the first rule that it breaks; and after the lookup that showed
/// it, nothing is asked.
pub proof fn lemma_first_bad_key_decides(
    raw: RawConfigView,
    answers: Seq<Option<Seq<char>>>,
    i: int,
)
    requires
        raw.backends.len() > 0,
        good_up_to(raw.backends, raw.backends.len() as int, answers),
        0 <= i < raw.virtual_keys.len(),
        keys_good_up_to(
            raw.virtual_keys,
            i,
            answers.skip(laws::place_of(raw.backends, raw.backends.len() as int)),
        ),
    ensures
        ({
            let raws = raw.virtual_keys;
            let before = laws::place_of(raw.backends, raw.backends.len() as int);
            let mine = answers.skip(before);
            let name = raws[i].name;
            let at = before + i;
            &&& name.len() == 0 ==> is_refused(
                raw,
                answers,
                ConfigErrorView::EmptyVirtualKeyName,
                at,
            )
            &&& name.len() > 0 && (exists|j: int|
                0 <= j < i && (#[trigger] raws[j]).name == name) ==> is_refused(
                raw,
                answers,
                ConfigErrorView::DuplicateVirtualKey(name),
                at,
            )
            &&& name.len() > 0 && !(exists|j: int|
                0 <= j < i && (#[trigger] raws[j]).name == name) && !model::is_env_name(
                raws[i].key_env,
            ) ==> is_refused(
                raw,
                answers,
                ConfigErrorView::InvalidKeyEnvName { name, value: raws[i].key_env },
                at,
            )
            &&& key_names_are_good(raws, i) && mine[i] is None ==> is_refused(
                raw,
                answers,
                ConfigErrorView::MissingKeyEnv { name, var: raws[i].key_env },
                at + 1,
            )
            &&& key_names_are_good(raws, i) && mine[i] == Some(Seq::<char>::empty()) ==> is_refused(
                raw,
                answers,
                ConfigErrorView::EmptyVirtualKey(name),
                at + 1,
            )
            &&& forall|j: int|
                0 <= j < i && key_names_are_good(raws, i) && mine[i] is Some && (
                #[trigger] mine[j]) == mine[i] ==> is_refused(
                    raw,
                    answers,
                    ConfigErrorView::DuplicateVirtualKeySecret(raws[j].name, name),
                    at + 1,
                )
        }),
{
    let n = raw.backends.len() as int;
    let raws = raw.virtual_keys;
    let before = laws::place_of(raw.backends, n);
    let mine = answers.skip(before);
    assert(raw.backends.take(n) == raw.backends);
    lemma_good_entries_resolve(raw.backends, n, answers);
    laws::lemma_backends_asked(raw.backends, answers);
    assert(model::key_answers(raw, answers) == mine);
    lemma_good_keys_resolve(raws, i, mine);
    lemma_key_step(raws, i, mine);
    if model::resolved_keys(raws.take(i + 1), mine) is Err {
        resolve::lemma_keys_stop(raws, i + 1, mine);
    }
    let done = model::resolved_keys(raws.take(i), mine)->Ok_0;
    assert forall|j: int|
        0 <= j < i && key_names_are_good(raws, i) && mine[i] is Some && (#[trigger] mine[j])
            == mine[i] implies is_refused(
        raw,
        answers,
        ConfigErrorView::DuplicateVirtualKeySecret(raws[j].name, raws[i].name),
        before + i + 1,
    ) by {
        let key = mine[i]->0;
        assert(done[j].key == key);
        assert(key_is_good(raws, j, mine));
        assert forall|k: int| j < k < done.len() implies (#[trigger] done[k]).key != key by {
            assert(key_is_good(raws, k, mine));
            assert(mine[j] != mine[k]);
        }
        lemma_key_holder_is_the_last(done, j, key);
    }
    if mine[i] == Some(Seq::<char>::empty()) {
        assert(mine[i]->0.len() == 0);
    }
}

/// Once everything else is good, a blending factor out of range is refused, with
/// its pattern, after all lookups.
pub proof fn lemma_bad_policy_decides_last(
    raw: RawConfigView,
    answers: Seq<Option<Seq<char>>>,
)
    requires
        raw.backends.len() > 0,
        good_up_to(raw.backends, raw.backends.len() as int, answers),
        keys_good_up_to(
            raw.virtual_keys,
            raw.virtual_keys.len() as int,
            answers.skip(laws::place_of(raw.backends, raw.backends.len() as int)),
        ),
    ensures
        raw.policy matches RawPolicy::EwmaLatency { alpha_bits } ==> (!(1 <= alpha_bits
            <= 0x3FF0_0000_0000_0000) ==> is_refused(
            raw,
            answers,
            ConfigErrorView::InvalidAlpha(alpha_bits),
            model::references(raw).len() as int,
        )),
{
    let n = raw.backends.len() as int;
    let m = raw.virtual_keys.len() as int;
    assert(raw.backends.take(n) == raw.backends);
    assert(raw.virtual_keys.take(m) == raw.virtual_keys);
    lemma_good_entries_resolve(raw.backends, n, answers);
    lemma_good_keys_resolve(raw.virtual_keys, m, model::key_answers(raw, answers));
    laws::lemma_backends_asked(raw.backends, answers);
    laws::lemma_keys_asked(raw.virtual_keys, model::key_answers(raw, answers));
    if let RawPolicy::EwmaLatency { alpha_bits } = raw.policy {
        lemma_policy_is_as_asked(alpha_bits);
    }
}

/// The base URL of a backend that resolves, with the slashes that were cut put
/// back, is what the environment said of it.
pub proof fn lemma_base_url_is_what_was_set(
    raw: RawConfigView,
    listen_error: Option<Seq<char>>,
    answers: Seq<Option<Seq<char>>>,
    i: int,
)
    requires
        model::resolved_config(raw, listen_error, answers) is Ok,
        0 <= i < raw.backends.len(),
    ensures
        ({
            let url = model::resolved_config(
                raw,
                listen_error,
                answers,
            )->Ok_0.backends[i].base_url;
            &&& url.len() > 0 && url.last() != '/'
            &&& answers[laws::place_of(raw.backends, i)] matches Some(said) && said.len()
                >= url.len() && said == url + Seq::new(
                (said.len() - url.len()) as nat,
                |k: int| '/',
            )
        }),
{
    laws::lemma_resolved_follows_source(raw, listen_error, answers);
    laws::lemma_resolved_is_coherent(raw, listen_error, answers);
    let cfg = model::resolved_config(raw, listen_error, answers)->Ok_0;
    let at = laws::place_of(raw.backends, i);
    assert(laws::backend_of(cfg.backends[i], raw.backends[i], answers[at], answers[at + 1]));
    assert(laws::sound_backend(cfg.backends[i]));
    let said = answers[at]->0;
    let url = cfg.backends[i].base_url;
    text_laws::lemma_trim_end_cuts_a_run(said, '/');
    let n = (said.len() - url.len()) as nat;
    assert(said == url + Seq::new(n, |k: int| '/'));
    assert(url.len() > 0) by {
        if url.len() == 0 {
            assert(model::is_http_url(url));
            reveal_strlit("http://");
            reveal_strlit("https://");
        }
    }
}

}
