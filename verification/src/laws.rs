use vstd::prelude::*;

use crate::hub::HubSystem;
use crate::hub::notfound_resp;
use crate::hub::spec_dispatch;
use crate::hub::spec_hub_intercept;
use crate::hub::spec_matching_subs;
use crate::hub::spec_publish;
use crate::hub::spec_remove_first_id;
use crate::hub::spec_resolve;
use crate::hub::stamp_intercepted;
use crate::hub::sub_insert_pos;
use crate::hub::sub_matches;
use crate::hub::subs_ids_ok;
use crate::hub::subs_sorted;
use crate::hub::lemma_fresh_sub_id;
use crate::registry::ApiEntry;
use crate::registry::lemma_lookup_of_last;
use crate::registry::lemma_remove_key_no_match;
use crate::registry::reg_keys;
use crate::registry::reg_registered;
use crate::registry::reg_wf;
use crate::registry::spec_lookup;
use crate::registry::spec_lookup_fallback;
use crate::similarity::spec_find_similar;
use crate::similarity::spec_similarity;
use crate::types::Handler;
use crate::types::MetaMap;
use crate::types::MsgV;
use crate::types::ReqV;
use crate::types::ResponseStatus;
use crate::types::Subscription;
use crate::utils::spec_decimal;

verus! {

/// Law: a path registered on a hub is served by exactly its handler.
/// If the registry moved from `s0` to `s1` by registering `handler`
/// under `path`, and a request for `path` reaches hub `i` (whose
/// registry is `s1`) without any interceptor claiming it, the
/// response is `handler` applied to the request, unchanged.
pub proof fn lemma_register_then_handle(
    sys: HubSystem,
    i: int,
    req: ReqV,
    s0: Seq<(String, ApiEntry)>,
    path: String,
    handler: Handler,
    metadata: MetaMap,
)
    requires
        sys.wf(),
        0 <= i < sys.spec_hub_count(),
        reg_wf(s0),
        path@.len() > 0,
        reg_registered(s0, sys.hubs_seq()[i].reg(), path, handler, metadata),
        req.path == path@,
        spec_hub_intercept(sys.hubs_seq()[i], req) is None,
    ensures
        spec_resolve(sys, i, req) == handler.spec_apply(req),
{
    let s1 = sys.hubs_seq()[i].reg();
    lemma_remove_key_no_match(s0, path@);
    assert(forall|k: int|
        0 <= k < s1.len() - 1 ==> (#[trigger] s1[k]).0@ != path@) by {
        assert(forall|k: int|
            0 <= k < s1.drop_last().len() ==> (#[trigger] s1.drop_last()[k]).0@ != path@);
        assert(forall|k: int| 0 <= k < s1.len() - 1 ==> s1[k] == s1.drop_last()[k]);
    }
    lemma_lookup_of_last(s1, path@);
}

/// Whether no request-path interceptor fires for `req` on hub `i` or
/// any of its ancestors.
pub open spec fn no_intercept_on_chain(sys: HubSystem, i: int, req: ReqV) -> bool
    decreases sys.headroom(i)
        when sys.wf() && 0 <= i < sys.spec_hub_count()
{
    let h = sys.hubs_seq()[i];
    &&& spec_hub_intercept(h, req) is None
    &&& (match h.parent_of() {
        Some(p) => {
            proof {
                assert(sys.hub_wf_at(i));
            }
            no_intercept_on_chain(sys, p as int, req)
        },
        None => true,
    })
}

/// The first hub on the ancestor chain of `i` (itself included) whose
/// registry holds `p`.
pub open spec fn chain_resolver(sys: HubSystem, i: int, p: Seq<char>) -> Option<int>
    decreases sys.headroom(i)
        when sys.wf() && 0 <= i < sys.spec_hub_count()
{
    let h = sys.hubs_seq()[i];
    if spec_lookup(h.reg(), p) is Some {
        Some(i)
    } else {
        match h.parent_of() {
            Some(par) => {
                proof {
                    assert(sys.hub_wf_at(i));
                }
                chain_resolver(sys, par as int, p)
            },
            None => None,
        }
    }
}

/// Law: escalation is transparent. If no interceptor on the chain
/// claims the request and some ancestor `k` (the nearest) has the
/// path registered, resolution at `i` returns exactly what hub `k`'s
/// handler answers, unchanged by the hops between.
pub proof fn lemma_escalation_transparent(sys: HubSystem, i: int, req: ReqV)
    requires
        sys.wf(),
        0 <= i < sys.spec_hub_count(),
        no_intercept_on_chain(sys, i, req),
        chain_resolver(sys, i, req.path) is Some,
    ensures
        0 <= chain_resolver(sys, i, req.path)->0 < sys.spec_hub_count(),
        spec_lookup(
            sys.hubs_seq()[chain_resolver(sys, i, req.path)->0].reg(),
            req.path,
        ) is Some,
        spec_resolve(sys, i, req) == (spec_lookup(
            sys.hubs_seq()[chain_resolver(sys, i, req.path)->0].reg(),
            req.path,
        )->0).handler.spec_apply(req),
    decreases sys.headroom(i),
{
    assert(sys.hub_wf_at(i));
    let h = sys.hubs_seq()[i];
    if spec_lookup(h.reg(), req.path) is Some {
    } else {
        match h.parent_of() {
            Some(p) => {
                lemma_escalation_transparent(sys, p as int, req);
            },
            None => {},
        }
    }
}

/// Law: interception overrides local handlers. If any interceptor on
/// the hub fires for the request, resolution returns its response,
/// tagged `intercepted=true` with status `Intercepted`; no registered
/// handler's answer appears.
pub proof fn lemma_interception_overrides(sys: HubSystem, i: int, req: ReqV)
    requires
        sys.wf(),
        0 <= i < sys.spec_hub_count(),
        spec_hub_intercept(sys.hubs_seq()[i], req) is Some,
    ensures
        spec_resolve(sys, i, req) == stamp_intercepted(
            spec_hub_intercept(sys.hubs_seq()[i], req)->0,
        ),
        spec_resolve(sys, i, req).status == ResponseStatus::Intercepted,
        spec_resolve(sys, i, req).metadata.contains_key("intercepted"@),
        spec_resolve(sys, i, req).metadata["intercepted"@] == "true"@,
{
}

/// A handler that never claims its answer was approximated.
pub open spec fn handler_no_approx(h: Handler) -> bool {
    match h {
        Handler::EchoPayload => true,
        Handler::Fixed(_) => true,
        Handler::Respond(r) => r@.status != ResponseStatus::Approximated,
    }
}

/// No handler registered anywhere in the system claims approximation.
pub open spec fn sys_handlers_no_approx(sys: HubSystem) -> bool {
    forall|i: int, k: int|
        0 <= i < sys.spec_hub_count() && 0 <= k < sys.hubs_seq()[i].reg().len()
            ==> handler_no_approx((#[trigger] sys.hubs_seq()[i].reg()[k]).1.handler)
}

proof fn lemma_find_similar_empty_target(keys: Seq<String>, target: Seq<char>, t: int)
    requires
        target.len() == 0,
        t > 0,
        forall|k: int| 0 <= k < keys.len() ==> (#[trigger] keys[k])@.len() > 0,
    ensures
        spec_find_similar(keys, target, t) is None,
    decreases keys.len(),
{
    if keys.len() > 0 {
        assert(keys[0]@ != target);
        assert(spec_similarity(keys[0]@, target) == 0);
        lemma_find_similar_empty_target(keys.drop_first(), target, t);
    }
}

/// Law: approximation is tagged. If every registered handler is
/// honest about approximation, a response whose status is
/// `Approximated` always carries a non-empty `original_path`
/// annotation naming the path originally asked for.
pub proof fn lemma_approximated_tagged(sys: HubSystem, i: int, req: ReqV)
    requires
        sys.wf(),
        0 <= i < sys.spec_hub_count(),
        sys_handlers_no_approx(sys),
    ensures
        spec_resolve(sys, i, req).status == ResponseStatus::Approximated ==> (spec_resolve(
            sys,
            i,
            req,
        ).metadata.contains_key("original_path"@) && spec_resolve(sys, i, req).metadata[
            "original_path"@
        ].len() > 0),
    decreases sys.headroom(i),
{
    reveal_strlit("original_path");
    reveal_strlit("approximated");
    reveal_strlit("intercepted");
    assert(sys.hub_wf_at(i));
    let h = sys.hubs_seq()[i];
    if spec_hub_intercept(h, req) is Some {
        assert(spec_resolve(sys, i, req).status == ResponseStatus::Intercepted);
    } else if spec_lookup(h.reg(), req.path) is Some {
        crate::registry::lemma_spec_lookup_found(h.reg(), req.path);
        let k = choose|k: int|
            0 <= k < h.reg().len() && (#[trigger] h.reg()[k]).0@ == req.path && h.reg()[k].1
                == spec_lookup(h.reg(), req.path)->0;
        assert(handler_no_approx(h.reg()[k].1.handler));
        assert(spec_resolve(sys, i, req).status != ResponseStatus::Approximated);
    } else if h.parent_of() is Some {
        lemma_approximated_tagged(sys, h.parent_of()->0 as int, req);
    } else if spec_lookup_fallback(h.reg(), req.path) is Some {
        let req2 = crate::hub::retargeted(
            req,
            (spec_lookup_fallback(h.reg(), req.path)->0).0@,
        );
        if spec_hub_intercept(h, req2) is Some {
            assert(spec_dispatch(h, req2).status == ResponseStatus::Intercepted);
        } else if spec_lookup(h.reg(), req2.path) is Some {
            crate::registry::lemma_spec_lookup_found(h.reg(), req2.path);
            let k = choose|k: int|
                0 <= k < h.reg().len() && (#[trigger] h.reg()[k]).0@ == req2.path && h.reg()[
                    k
                ].1 == spec_lookup(h.reg(), req2.path)->0;
            assert(handler_no_approx(h.reg()[k].1.handler));
            assert(spec_dispatch(h, req2).status != ResponseStatus::Approximated);
        } else {
            assert(spec_dispatch(h, req2).status == ResponseStatus::NotFound);
        }
        assert(spec_resolve(sys, i, req).status != ResponseStatus::Approximated);
    } else if spec_find_similar(reg_keys(h.reg()), req.path, 80) is Some {
        if req.path.len() == 0 {
            assert(forall|k: int|
                0 <= k < reg_keys(h.reg()).len() ==> (#[trigger] reg_keys(h.reg())[k])@.len()
                    > 0) by {
                assert(forall|k: int|
                    0 <= k < h.reg().len() ==> (#[trigger] h.reg()[k]).0@.len() > 0);
            }
            lemma_find_similar_empty_target(reg_keys(h.reg()), req.path, 80);
        }
        let target = (spec_find_similar(reg_keys(h.reg()), req.path, 80)->0).0;
        let inner = spec_dispatch(h, crate::hub::retargeted(req, target));
        let out = crate::hub::stamp_approximated(inner, req.path);
        assert("original_path"@.len() == 13);
        assert("approximated"@.len() == 12);
        assert("approximated"@ != "original_path"@);
        assert(out.metadata.contains_key("original_path"@));
        assert(out.metadata["original_path"@] == req.path);
        assert(spec_resolve(sys, i, req) == out);
    }
}

/// Law: priority order among subscriptions. In a well-formed table a
/// subscription of strictly greater priority stands strictly earlier,
/// so it is offered a message first.
pub proof fn lemma_subscription_order(s: Seq<Subscription>, i: int, j: int)
    requires
        subs_sorted(s),
        0 <= i < s.len(),
        0 <= j < s.len(),
        s[i].priority > s[j].priority,
    ensures
        i < j,
{
}

/// Law: subscribing and then withdrawing the new subscription returns
/// the table to its prior membership. The minted identifier is fresh,
/// so the withdrawal removes exactly the entry just inserted.
pub proof fn lemma_subscribe_then_unsubscribe(s: Seq<Subscription>, sub: Subscription, c: nat)
    requires
        subs_ids_ok(s, c),
        sub.id@ == spec_decimal(c),
        0 <= sub_insert_pos(s, sub.priority) <= s.len(),
    ensures
        spec_remove_first_id(s.insert(sub_insert_pos(s, sub.priority), sub), sub.id@) == s,
{
    lemma_fresh_sub_id(s, c);
    let pos = sub_insert_pos(s, sub.priority);
    let s1 = s.insert(pos, sub);
    assert forall|q: int| 0 <= q < pos implies (#[trigger] s1[q]).id@ != sub.id@ by {
        assert(s1[q] == s[q]);
    }
    lemma_remove_first_id_at_public(s1, sub.id@, pos);
    assert(s1.remove(pos) =~= s);
}

proof fn lemma_remove_first_id_at_public(s: Seq<Subscription>, id: Seq<char>, p: int)
    requires
        0 <= p < s.len(),
        s[p].id@ == id,
        forall|q: int| 0 <= q < p ==> (#[trigger] s[q]).id@ != id,
    ensures
        spec_remove_first_id(s, id) == s.remove(p),
    decreases s.len(),
{
    if p == 0 {
        assert(s.drop_first() =~= s.remove(0));
    } else {
        lemma_remove_first_id_at_public(s.drop_first(), id, p - 1);
        assert(seq![s[0]] + s.drop_first().remove(p - 1) =~= s.remove(p));
    }
}

/// No entry anywhere declares an empty alias target.
pub open spec fn sys_no_empty_alias(sys: HubSystem) -> bool {
    forall|i: int, k: int|
        0 <= i < sys.spec_hub_count() && 0 <= k < sys.hubs_seq()[i].reg().len() ==> ((
        #[trigger] sys.hubs_seq()[i].reg()[k]).1.fallback_path matches Some(f) ==> f@.len() > 0)
}

proof fn lemma_lookup_empty_none(s: Seq<(String, ApiEntry)>, p: Seq<char>)
    requires
        p.len() == 0,
        forall|k: int| 0 <= k < s.len() ==> (#[trigger] s[k]).0@.len() > 0,
    ensures
        spec_lookup(s, p) is None,
    decreases s.len(),
{
    if s.len() > 0 {
        lemma_lookup_empty_none(s.drop_first(), p);
    }
}

proof fn lemma_fallback_empty_none(s: Seq<(String, ApiEntry)>, p: Seq<char>)
    requires
        p.len() == 0,
        forall|k: int|
            0 <= k < s.len() ==> ((#[trigger] s[k]).1.fallback_path matches Some(f) ==> f@.len()
                > 0),
    ensures
        spec_lookup_fallback(s, p) is None,
    decreases s.len(),
{
    if s.len() > 0 {
        lemma_fallback_empty_none(s.drop_first(), p);
    }
}

/// Law: a request with an empty path resolves to `NotFound`, provided
/// no interceptor on the chain claims it and no entry declares an
/// empty alias target. Empty paths are never registered and never
/// similar to any registered path.
pub proof fn lemma_empty_path_not_found(sys: HubSystem, i: int, req: ReqV)
    requires
        sys.wf(),
        0 <= i < sys.spec_hub_count(),
        req.path.len() == 0,
        no_intercept_on_chain(sys, i, req),
        sys_no_empty_alias(sys),
    ensures
        spec_resolve(sys, i, req) == notfound_resp(),
    decreases sys.headroom(i),
{
    assert(sys.hub_wf_at(i));
    let h = sys.hubs_seq()[i];
    lemma_lookup_empty_none(h.reg(), req.path);
    match h.parent_of() {
        Some(p) => {
            lemma_empty_path_not_found(sys, p as int, req);
        },
        None => {
            lemma_fallback_empty_none(h.reg(), req.path);
            assert(forall|k: int|
                0 <= k < reg_keys(h.reg()).len() ==> (#[trigger] reg_keys(h.reg())[k])@.len()
                    > 0) by {
                assert(forall|k: int|
                    0 <= k < h.reg().len() ==> (#[trigger] h.reg()[k]).0@.len() > 0);
            }
            lemma_find_similar_empty_target(reg_keys(h.reg()), req.path, 80);
        },
    }
}

proof fn lemma_matching_subs_none(s: Seq<Subscription>, topic: Seq<char>)
    requires
        forall|k: int| 0 <= k < s.len() ==> !sub_matches(#[trigger] s[k], topic),
    ensures
        spec_matching_subs(s, topic) == Seq::<Seq<char>>::empty(),
    decreases s.len(),
{
    if s.len() > 0 {
        lemma_matching_subs_none(s.drop_first(), topic);
    }
}

/// Law: publishing on a root hub where no subscription matches the
/// topic and no topic interceptor fires yields nothing: no value and
/// no offers.
pub proof fn lemma_publish_quiescent(sys: HubSystem, i: int, msg: MsgV)
    requires
        sys.wf(),
        0 <= i < sys.spec_hub_count(),
        sys.hubs_seq()[i].parent_of() is None,
        crate::interceptor::spec_try_intercept_message(
            sys.hubs_seq()[i].mgr().message_table(),
            msg,
        ) is None,
        forall|k: int|
            0 <= k < sys.hubs_seq()[i].subs().len() ==> !sub_matches(
                #[trigger] sys.hubs_seq()[i].subs()[k],
                msg.topic,
            ),
    ensures
        spec_publish(sys, i, msg).0 is None,
        spec_publish(sys, i, msg).1 == Seq::<Seq<char>>::empty(),
{
    lemma_matching_subs_none(sys.hubs_seq()[i].subs(), msg.topic);
}

} // verus!
