//! What holds of every configuration that resolves.
use super::model;
use super::{
    BackendView, GatewayConfigView, PolicySelection, RawBackendView,
    RawConfigView, RawPolicy, RawVirtualKeyView, VirtualKeyView,
};
use crate::binary64;
use crate::text;
use vstd::prelude::*;

verus! {

/// A backend that a gateway can route to: it has a name, lists at least one
/// model, lists no empty string, and its base URL has a scheme that the gateway
/// speaks, a host, and no trailing slash.
pub open spec fn sound_backend(b: BackendView) -> bool {
    &&& b.name.len() > 0
    &&& b.models.len() > 0
    &&& !model::has_empty(b.models)
    &&& !model::has_empty(b.capability_tags)
    &&& model::is_http_url(b.base_url)
    &&& b.base_url.last() != '/'
}

/// Backends are sound and no two share a name.
pub open spec fn sound_backends(backends: Seq<BackendView>) -> bool {
    &&& forall|i: int| 0 <= i < backends.len() ==> sound_backend(#[trigger] backends[i])
    &&& forall|i: int, j: int|
        0 <= i < j < backends.len() ==> (#[trigger] backends[i]).name != (
        #[trigger] backends[j]).name
}

/// Virtual keys have names and secrets, and no two share either.
pub open spec fn sound_keys(keys: Seq<VirtualKeyView>) -> bool {
    &&& forall|i: int|
        0 <= i < keys.len() ==> (#[trigger] keys[i]).name.len() > 0 && keys[i].key.len() > 0
    &&& forall|i: int, j: int|
        0 <= i < j < keys.len() ==> (#[trigger] keys[i]).name != (#[trigger] keys[j]).name
            && keys[i].key != keys[j].key
}

/// A blending factor, where the policy has one, lies in `(0, 1]`.
pub open spec fn sound_policy(policy: PolicySelection) -> bool {
    policy matches PolicySelection::EwmaLatency { alpha_bits } ==> binary64::in_unit_interval(
        alpha_bits,
    )
}

/// A coherent routing table.
pub open spec fn coherent(cfg: GatewayConfigView) -> bool {
    &&& cfg.backends.len() > 0
    &&& sound_backends(cfg.backends)
    &&& sound_keys(cfg.virtual_keys)
    &&& sound_policy(cfg.policy)
}

/// `b` is what `raw` describes: the same lists and placement, the URL and the
/// API key being what the environment said of the variables that `raw` names.
pub open spec fn backend_of(
    b: BackendView,
    raw: RawBackendView,
    url: Option<Seq<char>>,
    key: Option<Seq<char>>,
) -> bool {
    &&& b.name == raw.name
    &&& b.models == raw.models
    &&& b.capability_tags == raw.capability_tags
    &&& b.privacy == raw.privacy
    &&& model::is_env_name(raw.base_url_env)
    &&& url is Some
    &&& model::is_http_url(url->0)
    &&& b.base_url == text::trim_end(url->0, '/')
    &&& match raw.api_key_env {
        None => b.api_key is None,
        Some(var) => model::is_env_name(var) && key is Some && b.api_key == key,
    }
}

/// `k` is what `raw` describes, its secret being what the environment said of
/// the variable that `raw` names.
pub open spec fn key_of(
    k: VirtualKeyView,
    raw: RawVirtualKeyView,
    answer: Option<Seq<char>>,
) -> bool {
    &&& k.name == raw.name
    &&& k.enforce_private == raw.enforce_private
    &&& model::is_env_name(raw.key_env)
    &&& answer == Some(k.key)
}

/// Where among the references of the backends those of entry `i` begin.
pub open spec fn place_of(raws: Seq<RawBackendView>, i: int) -> int {
    model::backend_references(raws.take(i)).len() as int
}

proof fn lemma_trim_end(s: Seq<char>, c: char, k: int)
    requires
        0 <= k < s.len(),
        s[k] != c,
    ensures
        k < text::trim_end(s, c).len() <= s.len(),
        text::trim_end(s, c) == s.take(text::trim_end(s, c).len() as int),
        text::trim_end(s, c).last() != c,
    decreases s.len(),
{
    if s.last() == c {
        let shorter = s.drop_last();
        lemma_trim_end(shorter, c, k);
        let n = text::trim_end(s, c).len() as int;
        assert(shorter.take(n) == s.take(n));
    } else {
        assert(s.take(s.len() as int) == s);
    }
}

/// Cutting trailing slashes keeps the scheme and the host.
proof fn lemma_trimmed_url(url: Seq<char>)
    requires
        model::is_http_url(url),
    ensures
        model::is_http_url(text::trim_end(url, '/')),
        text::trim_end(url, '/').last() != '/',
{
    let scheme = if model::is_url_of(url, "http://"@) {
        "http://"@
    } else {
        "https://"@
    };
    let n = scheme.len() as int;
    let rest = url.skip(n);
    let (start, end) = choose|start: int, end: int| #[trigger]
        model::is_host_start(rest, start, end) && model::is_authority_end(rest, end) && start < end
            && rest[start] != ':';
    let trimmed = text::trim_end(url, '/');
    assert(!model::ends_authority(rest[end - 1]));
    assert(url[n + end - 1] == rest[end - 1]);
    lemma_trim_end(url, '/', n + end - 1);
    let kept = trimmed.skip(n);
    assert(forall|i: int| 0 <= i < kept.len() ==> kept[i] == rest[i]);
    assert(trimmed.take(n) == url.take(n));
    assert(model::is_authority_end(kept, end));
    assert(model::is_host_start(kept, start, end));
    assert(model::is_url_of(trimmed, scheme));
}

/// The references of a backend entry stand at its place.
pub proof fn lemma_backend_reference_at(raws: Seq<RawBackendView>, i: int)
    requires
        0 <= i < raws.len(),
    ensures
        ({
            let refs = model::backend_references(raws);
            let at = place_of(raws, i);
            &&& at < refs.len()
            &&& refs[at] == raws[i].base_url_env
            &&& raws[i].api_key_env matches Some(var) ==> at + 1 < refs.len() && refs[at + 1]
                == var
            &&& place_of(raws, i + 1) == at + (if raws[i].api_key_env is Some {
                2int
            } else {
                1int
            })
            &&& place_of(raws, i + 1) <= refs.len()
        }),
    decreases raws.len(),
{
    let earlier = raws.drop_last();
    assert(raws.take(i + 1).drop_last() == raws.take(i));
    if i < earlier.len() {
        lemma_backend_reference_at(earlier, i);
        assert(earlier.take(i) == raws.take(i));
        assert(earlier.take(i + 1) == raws.take(i + 1));
    } else {
        assert(raws.take(i) == earlier);
        assert(raws.take(i + 1) == raws);
    }
}

/// A backend entry reads what it asks for and nothing else.
pub proof fn lemma_backend_reads_asked(
    raw: RawBackendView,
    earlier: Seq<RawBackendView>,
    url: Option<Seq<char>>,
    key: Option<Seq<char>>,
    other_url: Option<Seq<char>>,
    other_key: Option<Seq<char>>,
)
    requires
        model::asked_by_backend(raw, earlier, url) >= 1 ==> url == other_url,
        model::asked_by_backend(raw, earlier, url) >= 2 ==> key == other_key,
    ensures
        model::resolved_backend(raw, earlier, url, key) == model::resolved_backend(
            raw,
            earlier,
            other_url,
            other_key,
        ),
        model::asked_by_backend(raw, earlier, url) == model::asked_by_backend(
            raw,
            earlier,
            other_url,
        ),
{
}

/// Backend entries that resolve have asked for every one of their references,
/// and others for no more than that.
pub proof fn lemma_backends_asked(raws: Seq<RawBackendView>, answers: Seq<Option<Seq<char>>>)
    ensures
        model::asked_by_backends(raws, answers) <= model::backend_references(raws).len(),
        model::resolved_backends(raws, answers) is Ok ==> model::asked_by_backends(raws, answers)
            == model::backend_references(raws).len(),
    decreases raws.len(),
{
    if raws.len() > 0 {
        lemma_backends_asked(raws.drop_last(), answers);
    }
}

/// Backend entries read what they ask for and nothing else.
pub proof fn lemma_backends_read_asked(
    raws: Seq<RawBackendView>,
    a: Seq<Option<Seq<char>>>,
    b: Seq<Option<Seq<char>>>,
)
    requires
        forall|k: int| 0 <= k < model::asked_by_backends(raws, a) ==> a[k] == b[k],
    ensures
        model::resolved_backends(raws, a) == model::resolved_backends(raws, b),
        model::asked_by_backends(raws, a) == model::asked_by_backends(raws, b),
    decreases raws.len(),
{
    if raws.len() > 0 {
        let earlier = raws.drop_last();
        lemma_backends_read_asked(earlier, a, b);
        lemma_backends_asked(earlier, a);
        let at = model::backend_references(earlier).len() as int;
        if model::resolved_backends(earlier, a) is Ok {
            lemma_backend_reads_asked(raws.last(), earlier, a[at], a[at + 1], b[at], b[at + 1]);
        }
    }
}

/// Virtual-key entries that resolve have each asked for their variable, and
/// others for no more than that.
pub proof fn lemma_keys_asked(raws: Seq<RawVirtualKeyView>, answers: Seq<Option<Seq<char>>>)
    ensures
        model::asked_by_keys(raws, answers) <= raws.len(),
        model::resolved_keys(raws, answers) is Ok ==> model::asked_by_keys(raws, answers)
            == raws.len(),
    decreases raws.len(),
{
    if raws.len() > 0 {
        lemma_keys_asked(raws.drop_last(), answers);
    }
}

/// Virtual-key entries read what they ask for and nothing else.
pub proof fn lemma_keys_read_asked(
    raws: Seq<RawVirtualKeyView>,
    a: Seq<Option<Seq<char>>>,
    b: Seq<Option<Seq<char>>>,
)
    requires
        forall|k: int| 0 <= k < model::asked_by_keys(raws, a) ==> a[k] == b[k],
    ensures
        model::resolved_keys(raws, a) == model::resolved_keys(raws, b),
        model::asked_by_keys(raws, a) == model::asked_by_keys(raws, b),
    decreases raws.len(),
{
    if raws.len() > 0 {
        lemma_keys_read_asked(raws.drop_last(), a, b);
        lemma_keys_asked(raws.drop_last(), a);
    }
}

/// Resolution reads the answers that it asks for and nothing else.
pub proof fn lemma_only_asked_answers_matter(
    raw: RawConfigView,
    listen_error: Option<Seq<char>>,
    a: Seq<Option<Seq<char>>>,
    b: Seq<Option<Seq<char>>>,
)
    requires
        model::asked(raw, listen_error, a) <= a.len(),
        model::asked(raw, listen_error, a) <= b.len(),
        forall|k: int| 0 <= k < model::asked(raw, listen_error, a) ==> a[k] == b[k],
    ensures
        model::resolved_config(raw, listen_error, a) == model::resolved_config(
            raw,
            listen_error,
            b,
        ),
        model::asked(raw, listen_error, a) == model::asked(raw, listen_error, b),
{
    if listen_error is None && raw.backends.len() > 0 {
        lemma_backends_read_asked(raw.backends, a, b);
        lemma_backends_asked(raw.backends, a);
        if model::resolved_backends(raw.backends, a) is Ok {
            let n = model::backend_references(raw.backends).len() as int;
            let x = model::key_answers(raw, a);
            let y = model::key_answers(raw, b);
            assert forall|k: int| 0 <= k < model::asked_by_keys(raw.virtual_keys, x) implies x[k]
                == y[k] by {
                assert(a[n + k] == b[n + k]);
            }
            lemma_keys_read_asked(raw.virtual_keys, x, y);
        }
    }
}

/// The environment is asked for no more than the references of a configuration,
/// and for all of them if it resolves.
pub proof fn lemma_asked_is_bounded(
    raw: RawConfigView,
    listen_error: Option<Seq<char>>,
    answers: Seq<Option<Seq<char>>>,
)
    ensures
        model::asked(raw, listen_error, answers) <= model::references(raw).len(),
        model::resolved_config(raw, listen_error, answers) is Ok ==> model::asked(
            raw,
            listen_error,
            answers,
        ) == model::references(raw).len(),
{
    lemma_backends_asked(raw.backends, answers);
    lemma_keys_asked(raw.virtual_keys, model::key_answers(raw, answers));
}

proof fn lemma_backends_ask_valid(
    raws: Seq<RawBackendView>,
    answers: Seq<Option<Seq<char>>>,
    i: int,
)
    requires
        0 <= i < model::asked_by_backends(raws, answers),
    ensures
        i < model::backend_references(raws).len(),
        model::is_env_name(model::backend_references(raws)[i]),
    decreases raws.len(),
{
    let earlier = raws.drop_last();
    lemma_backends_asked(raws, answers);
    lemma_backends_asked(earlier, answers);
    if i < model::asked_by_backends(earlier, answers) {
        lemma_backends_ask_valid(earlier, answers, i);
    }
}

proof fn lemma_keys_ask_valid(
    raws: Seq<RawVirtualKeyView>,
    answers: Seq<Option<Seq<char>>>,
    i: int,
)
    requires
        0 <= i < model::asked_by_keys(raws, answers),
    ensures
        i < raws.len(),
        model::is_env_name(raws[i].key_env),
    decreases raws.len(),
{
    let earlier = raws.drop_last();
    lemma_keys_asked(raws, answers);
    lemma_keys_asked(earlier, answers);
    if i < model::asked_by_keys(earlier, answers) {
        lemma_keys_ask_valid(earlier, answers, i);
    }
}

/// The environment is asked for valid variable names only.
pub proof fn lemma_lookups_are_valid(
    raw: RawConfigView,
    listen_error: Option<Seq<char>>,
    answers: Seq<Option<Seq<char>>>,
    i: int,
)
    requires
        0 <= i < model::asked(raw, listen_error, answers),
    ensures
        i < model::references(raw).len(),
        model::is_env_name(model::references(raw)[i]),
{
    lemma_backends_asked(raw.backends, answers);
    if i < model::asked_by_backends(raw.backends, answers) {
        lemma_backends_ask_valid(raw.backends, answers, i);
    } else {
        let k = i - model::backend_references(raw.backends).len();
        lemma_keys_ask_valid(raw.virtual_keys, model::key_answers(raw, answers), k);
    }
}

/// Backend entries that resolve are sound, and each is what its source says.
pub proof fn lemma_backends_resolve(raws: Seq<RawBackendView>, answers: Seq<Option<Seq<char>>>)
    requires
        model::resolved_backends(raws, answers) is Ok,
    ensures
        sound_backends(model::resolved_backends(raws, answers)->Ok_0),
        model::resolved_backends(raws, answers)->Ok_0.len() == raws.len(),
        forall|i: int|
            0 <= i < raws.len() ==> backend_of(
                #[trigger] model::resolved_backends(raws, answers)->Ok_0[i],
                raws[i],
                answers[place_of(raws, i)],
                answers[place_of(raws, i) + 1],
            ),
    decreases raws.len(),
{
    if raws.len() > 0 {
        let earlier = raws.drop_last();
        lemma_backends_resolve(earlier, answers);
        let done = model::resolved_backends(earlier, answers)->Ok_0;
        let at = model::backend_references(earlier).len() as int;
        let last = model::resolved_backend(
            raws.last(),
            earlier,
            answers[at],
            answers[at + 1],
        )->Ok_0;
        let all = model::resolved_backends(raws, answers)->Ok_0;
        assert(all == done.push(last));
        lemma_trimmed_url(answers[at]->0);
        assert forall|i: int, j: int| 0 <= i < j < all.len() implies (#[trigger] all[i]).name != (
        #[trigger] all[j]).name by {
            if j == done.len() {
                assert(backend_of(
                    done[i],
                    earlier[i],
                    answers[place_of(earlier, i)],
                    answers[place_of(earlier, i) + 1],
                ));
                assert(earlier[i].name == all[i].name);
            }
        }
        assert forall|i: int| 0 <= i < raws.len() implies backend_of(
            #[trigger] all[i],
            raws[i],
            answers[place_of(raws, i)],
            answers[place_of(raws, i) + 1],
        ) by {
            if i < done.len() {
                assert(earlier.take(i) == raws.take(i));
                assert(backend_of(
                    done[i],
                    earlier[i],
                    answers[place_of(earlier, i)],
                    answers[place_of(earlier, i) + 1],
                ));
            } else {
                assert(raws.take(i) == earlier);
            }
        }
    }
}

proof fn lemma_key_holder(keys: Seq<VirtualKeyView>, i: int)
    requires
        0 <= i < keys.len(),
    ensures
        model::key_holder(keys, keys[i].key) is Some,
    decreases keys.len(),
{
    if i < keys.len() - 1 {
        lemma_key_holder(keys.drop_last(), i);
    }
}

/// Virtual keys that resolve are sound, and each is what its source says.
pub proof fn lemma_keys_resolve(raws: Seq<RawVirtualKeyView>, answers: Seq<Option<Seq<char>>>)
    requires
        model::resolved_keys(raws, answers) is Ok,
    ensures
        sound_keys(model::resolved_keys(raws, answers)->Ok_0),
        model::resolved_keys(raws, answers)->Ok_0.len() == raws.len(),
        forall|i: int|
            0 <= i < raws.len() ==> key_of(
                #[trigger] model::resolved_keys(raws, answers)->Ok_0[i],
                raws[i],
                answers[i],
            ),
    decreases raws.len(),
{
    if raws.len() > 0 {
        lemma_keys_resolve(raws.drop_last(), answers);
        let done = model::resolved_keys(raws.drop_last(), answers)->Ok_0;
        let last = model::resolved_key(raws.last(), done, answers[raws.len() - 1])->Ok_0;
        let all = model::resolved_keys(raws, answers)->Ok_0;
        assert(all == done.push(last));
        assert forall|i: int, j: int| 0 <= i < j < all.len() implies (#[trigger] all[i]).name != (
        #[trigger] all[j]).name && all[i].key != all[j].key by {
            if j == done.len() {
                lemma_key_holder(done, i);
                assert(done[i].name != last.name);
            }
        }
        assert forall|i: int| 0 <= i < raws.len() implies key_of(
            #[trigger] all[i],
            raws[i],
            answers[i],
        ) by {
            if i < done.len() {
                assert(key_of(done[i], raws.drop_last()[i], answers[i]));
            }
        }
    }
}

/// A configuration that resolves is coherent: duplicate names, empty model
/// lists, malformed URLs, empty or shared secrets and bad policy parameters
/// never get through.
pub proof fn lemma_resolved_is_coherent(
    raw: RawConfigView,
    listen_error: Option<Seq<char>>,
    answers: Seq<Option<Seq<char>>>,
)
    requires
        model::resolved_config(raw, listen_error, answers) is Ok,
    ensures
        coherent(model::resolved_config(raw, listen_error, answers)->Ok_0),
{
    lemma_backends_resolve(raw.backends, answers);
    lemma_keys_resolve(raw.virtual_keys, model::key_answers(raw, answers));
}

/// A configuration that resolves holds exactly the entries of its source, in
/// their order, and every URL and secret in it is what the environment said at
/// the very reference that the source makes to it. It listens where the source
/// says and routes by the policy that the source asks for.
pub proof fn lemma_resolved_follows_source(
    raw: RawConfigView,
    listen_error: Option<Seq<char>>,
    answers: Seq<Option<Seq<char>>>,
)
    requires
        model::resolved_config(raw, listen_error, answers) is Ok,
    ensures
        ({
            let cfg = model::resolved_config(raw, listen_error, answers)->Ok_0;
            let keys = model::key_answers(raw, answers);
            &&& cfg.listen == raw.listen
            &&& raw.policy is StaticPriority ==> cfg.policy is StaticPriority
            &&& raw.policy matches RawPolicy::EwmaLatency { alpha_bits } ==> cfg.policy
                == (PolicySelection::EwmaLatency { alpha_bits })
            &&& cfg.backends.len() == raw.backends.len()
            &&& forall|i: int|
                0 <= i < raw.backends.len() ==> backend_of(
                    #[trigger] cfg.backends[i],
                    raw.backends[i],
                    answers[place_of(raw.backends, i)],
                    answers[place_of(raw.backends, i) + 1],
                )
            &&& cfg.virtual_keys.len() == raw.virtual_keys.len()
            &&& forall|i: int|
                0 <= i < raw.virtual_keys.len() ==> key_of(
                    #[trigger] cfg.virtual_keys[i],
                    raw.virtual_keys[i],
                    keys[i],
                )
        }),
{
    lemma_backends_resolve(raw.backends, answers);
    lemma_keys_resolve(raw.virtual_keys, model::key_answers(raw, answers));
}

/// Answers that come from a fixed environment, as many as are asked for, are as
/// good as the whole of it.
pub proof fn lemma_fixed_environment(
    raw: RawConfigView,
    listen_error: Option<Seq<char>>,
    env: Map<Seq<char>, Seq<char>>,
    answers: Seq<Option<Seq<char>>>,
)
    requires
        answers.len() == model::asked(raw, listen_error, answers),
        forall|i: int|
            0 <= i < answers.len() ==> #[trigger] answers[i] == model::value_in(
                env,
                model::references(raw)[i],
            ),
    ensures
        model::resolved_config(raw, listen_error, answers) == model::resolved_in(
            raw,
            listen_error,
            env,
        ),
{
    lemma_asked_is_bounded(raw, listen_error, answers);
    lemma_only_asked_answers_matter(raw, listen_error, answers, model::answers_in(raw, env));
}

/// Two environments say the same of every valid variable name that a
/// configuration refers to.
pub open spec fn agree_on_named(
    env: Map<Seq<char>, Seq<char>>,
    other: Map<Seq<char>, Seq<char>>,
    raw: RawConfigView,
) -> bool {
    forall|i: int|
        0 <= i < model::references(raw).len() && model::is_env_name(
            #[trigger] model::references(raw)[i],
        ) ==> model::value_in(env, model::references(raw)[i]) == model::value_in(
            other,
            model::references(raw)[i],
        )
}

/// Environments that agree on the variables that a configuration names give the
/// same result: no others matter.
pub proof fn lemma_only_named_variables_matter(
    raw: RawConfigView,
    listen_error: Option<Seq<char>>,
    env: Map<Seq<char>, Seq<char>>,
    other: Map<Seq<char>, Seq<char>>,
)
    requires
        agree_on_named(env, other, raw),
    ensures
        model::resolved_in(raw, listen_error, env) == model::resolved_in(raw, listen_error, other),
{
    let a = model::answers_in(raw, env);
    let b = model::answers_in(raw, other);
    lemma_asked_is_bounded(raw, listen_error, a);
    assert forall|k: int| 0 <= k < model::asked(raw, listen_error, a) implies a[k] == b[k] by {
        lemma_lookups_are_valid(raw, listen_error, a, k);
    }
    lemma_only_asked_answers_matter(raw, listen_error, a, b);
}

}
