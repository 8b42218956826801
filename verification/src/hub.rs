use vstd::prelude::*;
use vstd::std_specs::vec::spec_vec_len;
use vstd::string::*;

use crate::interceptor::InterceptorManager;
use crate::interceptor::pattern_matches;
use crate::interceptor::pattern_table_registered;
use crate::interceptor::wildcard_matches;
use crate::interceptor::spec_try_intercept_api;
use crate::interceptor::spec_try_intercept_message;
use crate::registry::ApiEntry;
use crate::registry::ApiRegistry;
use crate::registry::lemma_spec_lookup_found;
use crate::registry::reg_keys;
use crate::registry::reg_wf;
use crate::registry::reg_registered;
use crate::registry::spec_lookup;
use crate::registry::spec_lookup_fallback;
use crate::similarity::spec_find_similar;
use crate::types::ApiInterceptorRule;
use crate::types::ApiRequest;
use crate::types::ApiResponse;
use crate::types::Handler;
use crate::types::HubScope;
use crate::types::Interceptor;
use crate::types::Message;
use crate::types::MessageRule;
use crate::types::MetaMap;
use crate::types::MethodRule;
use crate::types::MsgV;
use crate::types::Payload;
use crate::types::ReqV;
use crate::types::RespV;
use crate::types::ResponseStatus;
use crate::types::Subscription;
use crate::types::apply_handler;
use crate::types::apply_message_rule;
use crate::utils::current_time_millis;
use crate::utils::decimal_string;
use crate::utils::generate_uuid;
use crate::utils::lemma_decimal_injective;
use crate::utils::spec_decimal;

verus! {

/// An error reported by a wiring call.
#[derive(Debug)]
pub enum HubError {
    /// The requested wiring would break a hierarchy invariant.
    InvalidState(String),
}

/// Subscriptions are kept in descending priority; ties keep
/// subscription order.
pub open spec fn subs_sorted(s: Seq<Subscription>) -> bool {
    forall|i: int, j: int| 0 <= i < j < s.len() ==> s[i].priority >= s[j].priority
}

/// An identifier minted by a counter that has not yet reached `c`.
pub open spec fn id_minted_before(id: Seq<char>, c: nat) -> bool {
    exists|k: nat| k < c && id == spec_decimal(k)
}

/// All subscription identifiers were minted by the hub's counter and
/// are pairwise distinct.
pub open spec fn subs_ids_ok(s: Seq<Subscription>, c: nat) -> bool {
    &&& forall|i: int| 0 <= i < s.len() ==> id_minted_before((#[trigger] s[i]).id@, c)
    &&& forall|i: int, j: int| 0 <= i < j < s.len() ==> s[i].id@ != s[j].id@
}

/// Where a new subscription of priority `p` goes: after every entry
/// of priority at least `p`, before the first strictly smaller.
pub open spec fn sub_insert_pos(s: Seq<Subscription>, p: i32) -> int
    decreases s.len(),
{
    if s.len() == 0 {
        0
    } else if s[0].priority < p {
        0
    } else {
        1 + sub_insert_pos(s.drop_first(), p)
    }
}

/// Whether some subscription carries this identifier.
pub open spec fn subs_have_id(s: Seq<Subscription>, id: Seq<char>) -> bool {
    exists|i: int| 0 <= i < s.len() && (#[trigger] s[i]).id@ == id
}

/// The list with the first subscription carrying `id` removed.
pub open spec fn spec_remove_first_id(s: Seq<Subscription>, id: Seq<char>) -> Seq<Subscription>
    decreases s.len(),
{
    if s.len() == 0 {
        s
    } else if s[0].id@ == id {
        s.drop_first()
    } else {
        seq![s[0]] + spec_remove_first_id(s.drop_first(), id)
    }
}

/// A node of the bus: registry, interceptor tables, subscriptions and
/// the parent/child wiring, which lives in a `HubSystem`.
#[derive(Debug)]
pub struct Hub {
    /// Unique identifier of this hub.
    pub id: String,
    /// Scope level of this hub.
    pub scope: HubScope,
    registry: ApiRegistry,
    interceptors: InterceptorManager,
    subscriptions: Vec<Subscription>,
    next_sub_id: u64,
    parent: Option<usize>,
    children: Vec<usize>,
}

impl Hub {
    /// The hub's scope, as seen by specifications.
    pub closed spec fn spec_scope(self) -> HubScope {
        self.scope
    }

    /// The hub's identifier, as seen by specifications.
    pub closed spec fn spec_id(self) -> String {
        self.id
    }

    /// The hub's registered entries.
    pub closed spec fn reg(self) -> Seq<(String, ApiEntry)> {
        self.registry.entries_seq()
    }

    /// The hub's interceptor manager.
    pub closed spec fn mgr(self) -> InterceptorManager {
        self.interceptors
    }

    /// The hub's subscription list, in offer order.
    pub closed spec fn subs(self) -> Seq<Subscription> {
        self.subscriptions@
    }

    /// How many subscription identifiers this hub has minted.
    pub closed spec fn sub_counter(self) -> u64 {
        self.next_sub_id
    }

    /// The parent hub's index, if attached.
    pub closed spec fn parent_of(self) -> Option<usize> {
        self.parent
    }

    /// The child hubs' indices.
    pub closed spec fn children_of(self) -> Seq<usize> {
        self.children@
    }

    /// Well-formed hub (wiring aside).
    pub open spec fn wf(self) -> bool {
        &&& reg_wf(self.reg())
        &&& self.mgr().wf()
        &&& subs_sorted(self.subs())
        &&& subs_ids_ok(self.subs(), self.sub_counter() as nat)
    }

    /// A fresh, unattached hub of the given scope, with a newly drawn
    /// identifier.
    pub fn new(scope: HubScope) -> (h: Hub)
        ensures
            h.wf(),
            h.spec_scope() == scope,
            h.spec_id()@.len() == 36,
            h.reg().len() == 0,
            h.mgr().api_table().len() == 0,
            h.mgr().message_table().len() == 0,
            h.mgr().method_table().len() == 0,
            h.mgr().counter() == 0,
            h.subs().len() == 0,
            h.sub_counter() == 0,
            h.parent_of() is None,
            h.children_of().len() == 0,
    {
        Hub {
            id: generate_uuid(),
            scope,
            registry: ApiRegistry::new(),
            interceptors: InterceptorManager::new(),
            subscriptions: Vec::new(),
            next_sub_id: 0,
            parent: None,
            children: Vec::new(),
        }
    }
}

/// A response that reports nothing was found.
pub open spec fn notfound_resp() -> RespV {
    RespV {
        data: Payload::Empty,
        metadata: Map::empty(),
        status: ResponseStatus::NotFound,
    }
}

/// An intercepted response is tagged `intercepted=true` and gets
/// status `Intercepted`.
pub open spec fn stamp_intercepted(r: RespV) -> RespV {
    RespV {
        data: r.data,
        metadata: r.metadata.insert("intercepted"@, "true"@),
        status: ResponseStatus::Intercepted,
    }
}

/// A retargeted request keeps everything but its path and records the
/// path it originally asked for.
pub open spec fn retargeted(req: ReqV, path: Seq<char>) -> ReqV {
    ReqV {
        path,
        data: req.data,
        metadata: req.metadata.insert("original_path"@, req.path),
        sender_id: req.sender_id,
    }
}

/// A response to a retargeted request records the original path.
pub open spec fn stamp_original(r: RespV, orig: Seq<char>) -> RespV {
    RespV { data: r.data, metadata: r.metadata.insert("original_path"@, orig), status: r.status }
}

/// An approximated response records the original path, is tagged
/// `approximated=true`, and its status becomes `Approximated` unless
/// the inner resolution still found nothing.
pub open spec fn stamp_approximated(r: RespV, orig: Seq<char>) -> RespV {
    RespV {
        data: r.data,
        metadata: r.metadata.insert("original_path"@, orig).insert("approximated"@, "true"@),
        status: if r.status == ResponseStatus::NotFound {
            ResponseStatus::NotFound
        } else {
            ResponseStatus::Approximated
        },
    }
}

/// What the hub's request-path interceptors make of a request.
pub open spec fn spec_hub_intercept(h: Hub, req: ReqV) -> Option<RespV> {
    spec_try_intercept_api(h.mgr().api_table(), req)
}

/// Resolution of a request whose target path is registered (a
/// retargeted request always is): interception, then the local
/// handler. The not-found arm is unreachable for registered paths.
pub open spec fn spec_dispatch(h: Hub, req: ReqV) -> RespV {
    match spec_hub_intercept(h, req) {
        Some(r) => stamp_intercepted(r),
        None => match spec_lookup(h.reg(), req.path) {
            Some(e) => e.handler.spec_apply(req),
            None => notfound_resp(),
        },
    }
}

/// The federated tree of hubs: hubs are addressed by index, and
/// parent/child references are indices into the same system.
#[derive(Debug)]
pub struct HubSystem {
    hubs: Vec<Hub>,
}

impl HubSystem {
    /// The hubs, by index.
    pub closed spec fn hubs_seq(self) -> Seq<Hub> {
        self.hubs@
    }

    /// How many hubs the system holds.
    pub open spec fn spec_hub_count(self) -> int {
        self.hubs_seq().len() as int
    }

    /// How far above this hub's scope the widest scope lies; parent
    /// edges strictly shrink it, which bounds escalation.
    pub open spec fn headroom(self, i: int) -> int {
        3 - self.hubs_seq()[i].spec_scope().spec_level()
    }

    /// Hub `i` and its wiring are consistent: a parent is a valid
    /// index of strictly greater scope that lists `i` as a child, and
    /// every listed child points back here.
    pub open spec fn hub_wf_at(self, i: int) -> bool {
        let h = self.hubs_seq()[i];
        &&& h.wf()
        &&& (match h.parent_of() {
            Some(p) => {
                &&& (p as int) < self.hubs_seq().len()
                &&& self.hubs_seq()[p as int].spec_scope().spec_level()
                    > h.spec_scope().spec_level()
                &&& self.hubs_seq()[p as int].children_of().contains(i as usize)
            },
            None => true,
        })
        &&& (forall|k: int|
            0 <= k < h.children_of().len() ==> (h.children_of()[k] as int)
                < self.hubs_seq().len() && self.hubs_seq()[h.children_of()[k] as int].parent_of()
                == Some(i as usize))
        &&& (forall|k1: int, k2: int|
            0 <= k1 < k2 < h.children_of().len() ==> h.children_of()[k1] != h.children_of()[k2])
    }

    /// Well-formed system: every hub and its wiring.
    pub open spec fn wf(self) -> bool {
        forall|i: int| 0 <= i < self.hubs_seq().len() ==> #[trigger] self.hub_wf_at(i)
    }

    pub fn new() -> (sys: HubSystem)
        ensures
            sys.wf(),
            sys.spec_hub_count() == 0,
    {
        HubSystem { hubs: Vec::new() }
    }

    /// How many hubs the system holds.
    pub fn hub_count(&self) -> (n: usize)
        ensures
            n as int == self.spec_hub_count(),
    {
        self.hubs.len()
    }

    /// Read access to a hub.
    pub fn hub_at(&self, i: usize) -> (h: &Hub)
        requires
            i < self.spec_hub_count(),
        ensures
            *h == self.hubs_seq()[i as int],
    {
        &self.hubs[i]
    }

    /// Add a fresh, unattached hub of the given scope; its index is
    /// returned.
    pub fn new_hub(&mut self, scope: HubScope) -> (i: usize)
        requires
            old(self).wf(),
        ensures
            final(self).wf(),
            final(self).spec_hub_count() == old(self).spec_hub_count() + 1,
            i as int == old(self).spec_hub_count(),
            final(self).hubs_seq().drop_last() == old(self).hubs_seq(),
            final(self).hubs_seq()[i as int].spec_scope() == scope,
            final(self).hubs_seq()[i as int].wf(),
            final(self).hubs_seq()[i as int].reg().len() == 0,
            final(self).hubs_seq()[i as int].mgr().api_table().len() == 0,
            final(self).hubs_seq()[i as int].mgr().message_table().len() == 0,
            final(self).hubs_seq()[i as int].mgr().method_table().len() == 0,
            final(self).hubs_seq()[i as int].subs().len() == 0,
            final(self).hubs_seq()[i as int].sub_counter() == 0,
            final(self).hubs_seq()[i as int].parent_of() is None,
            final(self).hubs_seq()[i as int].children_of().len() == 0,
            final(self).hubs_seq()[i as int].spec_id()@.len() == 36,
    {
        let i = self.hubs.len();
        let h = Hub::new(scope);
        let ghost s0 = self.hubs@;
        self.hubs.push(h);
        proof {
            assert(self.hubs@.drop_last() =~= s0);
            assert forall|j: int| 0 <= j < self.hubs@.len() implies #[trigger] self.hub_wf_at(
                j,
            ) by {
                if j < s0.len() {
                    assert(old(self).hub_wf_at(j));
                    assert(self.hubs@[j] == s0[j]);
                }
            }
        }
        i
    }

    /// Attach `child` to `parent`. Succeeds exactly when the child is
    /// not yet attached and the parent's scope is strictly greater;
    /// scope monotonicity along parent edges rules out cycles. On
    /// success the child records its parent and the parent lists the
    /// child; on failure nothing changes.
    pub fn connect_to_parent(&mut self, child: usize, parent: usize) -> (r: Result<(), HubError>)
        requires
            old(self).wf(),
            child < old(self).spec_hub_count(),
            parent < old(self).spec_hub_count(),
        ensures
            final(self).wf(),
            r is Ok <==> (old(self).hubs_seq()[child as int].parent_of() is None
                && old(self).hubs_seq()[parent as int].spec_scope().spec_level()
                > old(self).hubs_seq()[child as int].spec_scope().spec_level()),
            r is Err ==> final(self).hubs_seq() == old(self).hubs_seq(),
            r is Ok ==> final(self).hubs_seq().len() == old(self).hubs_seq().len(),
            r is Ok ==> (forall|j: int|
                0 <= j < old(self).hubs_seq().len() && j != child && j != parent
                    ==> final(self).hubs_seq()[j] == old(self).hubs_seq()[j]),
            r is Ok ==> hub_reparented(
                old(self).hubs_seq()[child as int],
                final(self).hubs_seq()[child as int],
                parent,
            ),
            r is Ok ==> hub_child_added(
                old(self).hubs_seq()[parent as int],
                final(self).hubs_seq()[parent as int],
                child,
            ),
    {
        let child_level = self.hubs[child].scope.level();
        let parent_level = self.hubs[parent].scope.level();
        let attached = self.hubs[child].parent.is_some();
        if attached || parent_level <= child_level {
            return Err(
                HubError::InvalidState(
                    String::from_str(
                        "a hub attaches to at most one parent, of strictly greater scope",
                    ),
                ),
            );
        }
        let ghost s0 = self.hubs@;
        let mut c = self.hubs.remove(child);
        c.parent = Some(parent);
        self.hubs.insert(child, c);
        proof {
            assert(self.hubs@ =~= s0.update(child as int, self.hubs@[child as int]));
        }
        let ghost s1 = self.hubs@;
        let mut p = self.hubs.remove(parent);
        p.children.push(child);
        self.hubs.insert(parent, p);
        proof {
            assert(self.hubs@ =~= s1.update(parent as int, self.hubs@[parent as int]));
            let s2 = self.hubs@;
            let ci = child as int;
            let pi = parent as int;
            assert(s2[pi].children_of().last() == child);
            assert(s2[pi].children_of().contains(child));
            assert forall|j: int| 0 <= j < s2.len() implies #[trigger] self.hub_wf_at(j) by {
                assert(old(self).hub_wf_at(j));
                let h0 = s0[j];
                let h2 = s2[j];
                if j == ci {
                    assert(h2.parent_of() == Some(parent));
                    assert(h2.children_of() == h0.children_of());
                    assert forall|k: int|
                        0 <= k < h2.children_of().len() implies (h2.children_of()[k] as int)
                        < s2.len() && s2[h2.children_of()[k] as int].parent_of() == Some(
                        child,
                    ) by {
                        assert(old(self).hub_wf_at(h0.children_of()[k] as int));
                        assert(s0[h0.children_of()[k] as int].parent_of() == Some(child));
                        assert(h0.children_of()[k] as int != ci);
                        assert(h0.children_of()[k] as int != pi) by {
                            if h0.children_of()[k] as int == pi {
                                assert(s0[pi].parent_of() == Some(child));
                                assert(old(self).hub_wf_at(pi));
                                assert(s0[pi].spec_scope().spec_level() < s0[
                                    ci
                                ].spec_scope().spec_level());
                            }
                        }
                        assert(s2[h0.children_of()[k] as int] == s0[h0.children_of()[k] as int]);
                    }
                } else if j == pi {
                    assert(h2.parent_of() == h0.parent_of());
                    assert forall|k1: int, k2: int|
                        0 <= k1 < k2 < h2.children_of().len() implies h2.children_of()[k1]
                        != h2.children_of()[k2] by {
                        if k2 == h0.children_of().len() {
                            assert(h2.children_of()[k2] == child);
                            assert(h2.children_of()[k1] == h0.children_of()[k1]);
                            if h0.children_of()[k1] == child {
                                assert(s0[ci].parent_of() == Some(parent));
                            }
                        }
                    }
                    assert forall|k: int|
                        0 <= k < h2.children_of().len() implies (h2.children_of()[k] as int)
                        < s2.len() && s2[h2.children_of()[k] as int].parent_of() == Some(
                        parent,
                    ) by {
                        if k < h0.children_of().len() {
                            assert(h2.children_of()[k] == h0.children_of()[k]);
                            assert(old(self).hub_wf_at(h0.children_of()[k] as int));
                            assert(s0[h0.children_of()[k] as int].parent_of() == Some(parent));
                            assert(h0.children_of()[k] as int != ci) by {
                                if h0.children_of()[k] as int == ci {
                                    assert(s0[ci].parent_of() == Some(parent));
                                }
                            }
                            if h0.children_of()[k] as int == pi {
                                assert(s2[pi].parent_of() == h0.parent_of());
                                assert(s0[pi].parent_of() == Some(parent));
                            } else {
                                let cidx = h0.children_of()[k] as int;
                                assert(s2[cidx] == s0[cidx]);
                            }
                        } else {
                            assert(h2.children_of()[k] == child);
                            assert(s2[ci].parent_of() == Some(parent));
                        }
                    }
                    match h0.parent_of() {
                        Some(gp) => {
                            assert(s0[gp as int].children_of().contains(parent));
                            if gp as int == ci {
                                assert(old(self).hub_wf_at(ci));
                                assert(s0[pi].parent_of() == Some(child));
                            } else if gp as int == pi {
                                assert(old(self).hub_wf_at(pi));
                                assert(s0[pi].parent_of() == Some(parent));
                            } else {
                                assert(s2[gp as int] == s0[gp as int]);
                            }
                        },
                        None => {},
                    }
                } else {
                    assert(h2 == h0);
                    match h0.parent_of() {
                        Some(q) => {
                            if q as int == ci {
                                assert(s2[ci].children_of() == s0[ci].children_of());
                                assert(s2[ci].spec_scope() == s0[ci].spec_scope());
                            } else if q as int == pi {
                                assert(s2[pi].children_of() == s0[pi].children_of().push(
                                    child,
                                ));
                                assert(s0[pi].children_of().contains(j as usize));
                                let pch = s0[pi].children_of();
                                let kk = choose|kk: int|
                                    0 <= kk < pch.len() && pch[kk] == j as usize;
                                assert(s2[pi].children_of()[kk] == j as usize);
                                assert(s2[pi].children_of().contains(j as usize));
                            } else {
                                assert(s2[q as int] == s0[q as int]);
                            }
                        },
                        None => {},
                    }
                    assert forall|k: int|
                        0 <= k < h2.children_of().len() implies (h2.children_of()[k] as int)
                        < s2.len() && s2[h2.children_of()[k] as int].parent_of() == Some(
                        j as usize,
                    ) by {
                        assert(s0[h0.children_of()[k] as int].parent_of() == Some(j as usize));
                        assert(h0.children_of()[k] as int != ci) by {
                            if h0.children_of()[k] as int == ci {
                                assert(s0[ci].parent_of() == Some(j as usize));
                            }
                        }
                        if h0.children_of()[k] as int == pi {
                            assert(s2[pi].parent_of() == s0[pi].parent_of());
                        } else {
                            let cidx = h0.children_of()[k] as int;
                            assert(s2[cidx] == s0[cidx]);
                        }
                    }
                }
            }
        }
        Ok(())
    }
}

/// The child after attachment: only its parent reference changed.
pub open spec fn hub_reparented(h0: Hub, h1: Hub, parent: usize) -> bool {
    &&& h1.spec_id() == h0.spec_id()
    &&& h1.spec_scope() == h0.spec_scope()
    &&& h1.reg() == h0.reg()
    &&& h1.mgr() == h0.mgr()
    &&& h1.subs() == h0.subs()
    &&& h1.sub_counter() == h0.sub_counter()
    &&& h1.parent_of() == Some(parent)
    &&& h1.children_of() == h0.children_of()
}

/// The parent after attachment: only its child list grew, by the new
/// child's index at the end.
pub open spec fn hub_child_added(h0: Hub, h1: Hub, child: usize) -> bool {
    &&& h1.spec_id() == h0.spec_id()
    &&& h1.spec_scope() == h0.spec_scope()
    &&& h1.reg() == h0.reg()
    &&& h1.mgr() == h0.mgr()
    &&& h1.subs() == h0.subs()
    &&& h1.sub_counter() == h0.sub_counter()
    &&& h1.parent_of() == h0.parent_of()
    &&& h1.children_of() == h0.children_of().push(child)
}


/// The hub's identity and wiring are untouched.
pub open spec fn same_wiring(h0: Hub, h1: Hub) -> bool {
    &&& h1.spec_id() == h0.spec_id()
    &&& h1.spec_scope() == h0.spec_scope()
    &&& h1.parent_of() == h0.parent_of()
    &&& h1.children_of() == h0.children_of()
}

/// Only the hub's registry changed.
pub open spec fn same_except_reg(h0: Hub, h1: Hub) -> bool {
    &&& same_wiring(h0, h1)
    &&& h1.mgr() == h0.mgr()
    &&& h1.subs() == h0.subs()
    &&& h1.sub_counter() == h0.sub_counter()
}

/// Only the hub's interceptor manager changed.
pub open spec fn same_except_mgr(h0: Hub, h1: Hub) -> bool {
    &&& same_wiring(h0, h1)
    &&& h1.reg() == h0.reg()
    &&& h1.subs() == h0.subs()
    &&& h1.sub_counter() == h0.sub_counter()
}

/// Only the hub's subscriptions (and their counter) changed.
pub open spec fn same_except_subs(h0: Hub, h1: Hub) -> bool {
    &&& same_wiring(h0, h1)
    &&& h1.reg() == h0.reg()
    &&& h1.mgr() == h0.mgr()
}

/// A change local to one hub that keeps every wiring reference and
/// the hub's own well-formedness keeps the whole system well-formed.
proof fn lemma_wf_local_change(sys0: HubSystem, sys1: HubSystem, hub: int)
    requires
        sys0.wf(),
        0 <= hub < sys0.hubs_seq().len(),
        sys1.hubs_seq().len() == sys0.hubs_seq().len(),
        forall|j: int|
            0 <= j < sys0.hubs_seq().len() && j != hub ==> sys1.hubs_seq()[j]
                == sys0.hubs_seq()[j],
        same_wiring(sys0.hubs_seq()[hub], sys1.hubs_seq()[hub]),
        sys1.hubs_seq()[hub].wf(),
    ensures
        sys1.wf(),
{
    assert forall|j: int| 0 <= j < sys1.hubs_seq().len() implies #[trigger] sys1.hub_wf_at(
        j,
    ) by {
        assert(sys0.hub_wf_at(j));
        let h0 = sys0.hubs_seq()[j];
        let h1 = sys1.hubs_seq()[j];
        assert(h1.parent_of() == h0.parent_of());
        assert(h1.children_of() == h0.children_of());
        match h0.parent_of() {
            Some(p) => {
                let pp = p as int;
                assert(sys1.hubs_seq()[pp].spec_scope() == sys0.hubs_seq()[pp].spec_scope());
                assert(sys1.hubs_seq()[pp].children_of() == sys0.hubs_seq()[pp].children_of());
            },
            None => {},
        }
        assert forall|k: int|
            0 <= k < h1.children_of().len() implies (h1.children_of()[k] as int)
            < sys1.hubs_seq().len() && sys1.hubs_seq()[h1.children_of()[k] as int].parent_of()
            == Some(j as usize) by {
            let c = h0.children_of()[k] as int;
            assert(sys0.hubs_seq()[c].parent_of() == Some(j as usize));
            assert(sys1.hubs_seq()[c].parent_of() == sys0.hubs_seq()[c].parent_of());
        }
    }
}

/// The resolver. States run in order: interception; local lookup;
/// escalation to the parent, whose answer is final; at the root,
/// alias fallback, then approximate matching, each retargeting the
/// request to a registered path and resolving it locally; otherwise
/// `NotFound`. Escalation terminates because scope strictly grows
/// along parent edges. A retargeted path is always a registered path
/// of the same parentless hub, so a retargeted resolution ends at
/// interception or local dispatch and no chain of retargetings can
/// revisit a path.
pub open spec fn spec_resolve(sys: HubSystem, i: int, req: ReqV) -> RespV
    decreases sys.headroom(i)
        when sys.wf() && 0 <= i < sys.spec_hub_count()
{
    let h = sys.hubs_seq()[i];
    if spec_hub_intercept(h, req) is Some {
        stamp_intercepted(spec_hub_intercept(h, req)->0)
    } else if spec_lookup(h.reg(), req.path) is Some {
        (spec_lookup(h.reg(), req.path)->0).handler.spec_apply(req)
    } else if h.parent_of() is Some {
        proof {
            assert(sys.hub_wf_at(i));
        }
        spec_resolve(sys, h.parent_of()->0 as int, req)
    } else if spec_lookup_fallback(h.reg(), req.path) is Some {
        stamp_original(
            spec_dispatch(h, retargeted(req, (spec_lookup_fallback(h.reg(), req.path)->0).0@)),
            req.path,
        )
    } else if spec_find_similar(reg_keys(h.reg()), req.path, 80) is Some {
        stamp_approximated(
            spec_dispatch(
                h,
                retargeted(req, (spec_find_similar(reg_keys(h.reg()), req.path, 80)->0).0),
            ),
            req.path,
        )
    } else {
        notfound_resp()
    }
}

impl HubSystem {
    /// Register `handler` under `path` on one hub, replacing any
    /// earlier entry for the same path.
    pub fn register_api(&mut self, hub: usize, path: String, handler: Handler, metadata: MetaMap)
        requires
            old(self).wf(),
            hub < old(self).spec_hub_count(),
            metadata.wf(),
            handler.wf(),
        ensures
            final(self).wf(),
            final(self).hubs_seq().len() == old(self).hubs_seq().len(),
            forall|j: int|
                0 <= j < old(self).hubs_seq().len() && j != hub ==> final(self).hubs_seq()[j]
                    == old(self).hubs_seq()[j],
            same_except_reg(old(self).hubs_seq()[hub as int], final(self).hubs_seq()[hub as int]),
            reg_registered(
                old(self).hubs_seq()[hub as int].reg(),
                final(self).hubs_seq()[hub as int].reg(),
                path,
                handler,
                metadata,
            ),
    {
        let ghost sys0 = *self;
        let ghost s0 = self.hubs@;
        proof {
            assert(sys0.hub_wf_at(hub as int));
        }
        let mut h = self.hubs.remove(hub);
        h.registry.register(path, handler, metadata);
        self.hubs.insert(hub, h);
        proof {
            assert(self.hubs@ =~= s0.update(hub as int, self.hubs@[hub as int]));
            lemma_wf_local_change(sys0, *self, hub as int);
        }
    }

    /// Register a topic interceptor on one hub; returns its handle.
    pub fn register_interceptor(
        &mut self,
        hub: usize,
        topic: String,
        handler: MessageRule,
        priority: i32,
    ) -> (id: String)
        requires
            old(self).wf(),
            hub < old(self).spec_hub_count(),
            old(self).hubs_seq()[hub as int].mgr().counter() < u64::MAX,
        ensures
            final(self).wf(),
            final(self).hubs_seq().len() == old(self).hubs_seq().len(),
            forall|j: int|
                0 <= j < old(self).hubs_seq().len() && j != hub ==> final(self).hubs_seq()[j]
                    == old(self).hubs_seq()[j],
            same_except_mgr(old(self).hubs_seq()[hub as int], final(self).hubs_seq()[hub as int]),
            final(self).hubs_seq()[hub as int].mgr().api_table()
                == old(self).hubs_seq()[hub as int].mgr().api_table(),
            final(self).hubs_seq()[hub as int].mgr().method_table()
                == old(self).hubs_seq()[hub as int].mgr().method_table(),
            pattern_table_registered(
                old(self).hubs_seq()[hub as int].mgr().message_table(),
                final(self).hubs_seq()[hub as int].mgr().message_table(),
                topic,
                (Interceptor { id, priority, handler }),
            ),
    {
        let ghost sys0 = *self;
        let ghost s0 = self.hubs@;
        proof {
            assert(sys0.hub_wf_at(hub as int));
        }
        let mut h = self.hubs.remove(hub);
        let id = h.interceptors.register(topic, handler, priority);
        self.hubs.insert(hub, h);
        proof {
            assert(self.hubs@ =~= s0.update(hub as int, self.hubs@[hub as int]));
            lemma_wf_local_change(sys0, *self, hub as int);
        }
        id
    }

    /// Register a request-path interceptor on one hub; returns its
    /// handle.
    pub fn register_api_interceptor(
        &mut self,
        hub: usize,
        path: String,
        handler: ApiInterceptorRule,
        priority: i32,
    ) -> (id: String)
        requires
            old(self).wf(),
            hub < old(self).spec_hub_count(),
            old(self).hubs_seq()[hub as int].mgr().counter() < u64::MAX,
            handler.wf(),
        ensures
            final(self).wf(),
            final(self).hubs_seq().len() == old(self).hubs_seq().len(),
            forall|j: int|
                0 <= j < old(self).hubs_seq().len() && j != hub ==> final(self).hubs_seq()[j]
                    == old(self).hubs_seq()[j],
            same_except_mgr(old(self).hubs_seq()[hub as int], final(self).hubs_seq()[hub as int]),
            final(self).hubs_seq()[hub as int].mgr().message_table()
                == old(self).hubs_seq()[hub as int].mgr().message_table(),
            final(self).hubs_seq()[hub as int].mgr().method_table()
                == old(self).hubs_seq()[hub as int].mgr().method_table(),
            pattern_table_registered(
                old(self).hubs_seq()[hub as int].mgr().api_table(),
                final(self).hubs_seq()[hub as int].mgr().api_table(),
                path,
                (Interceptor { id, priority, handler }),
            ),
    {
        let ghost sys0 = *self;
        let ghost s0 = self.hubs@;
        proof {
            assert(sys0.hub_wf_at(hub as int));
        }
        let mut h = self.hubs.remove(hub);
        let id = h.interceptors.register_api_interceptor(path, handler, priority);
        self.hubs.insert(hub, h);
        proof {
            assert(self.hubs@ =~= s0.update(hub as int, self.hubs@[hub as int]));
            lemma_wf_local_change(sys0, *self, hub as int);
        }
        id
    }

    /// Resolution of a request whose target path is registered here:
    /// interception, then the local handler.
    fn dispatch_local(&self, i: usize, request: &ApiRequest) -> (r: ApiResponse)
        requires
            self.wf(),
            i < self.spec_hub_count(),
            request.wf(),
        ensures
            r@ == spec_dispatch(self.hubs_seq()[i as int], request@),
            r.wf(),
    {
        proof {
            assert(self.hub_wf_at(i as int));
        }
        match self.hubs[i].interceptors.try_intercept_api_request(request) {
            Some(resp) => {
                let mut resp = resp;
                resp.metadata.insert(String::from_str("intercepted"), String::from_str("true"));
                resp.status = ResponseStatus::Intercepted;
                resp
            },
            None => {
                match self.hubs[i].registry.lookup(&request.path) {
                    Some(entry) => {
                        proof {
                            lemma_spec_lookup_found(self.hubs_seq()[i as int].reg(),
                                request.path@);
                        }
                        apply_handler(&entry.handler, request)
                    },
                    None => ApiResponse {
                        data: Payload::Empty,
                        metadata: MetaMap::new(),
                        status: ResponseStatus::NotFound,
                    },
                }
            },
        }
    }

    fn resolve(&self, i: usize, request: ApiRequest) -> (r: ApiResponse)
        requires
            self.wf(),
            i < self.spec_hub_count(),
            request.wf(),
        ensures
            r@ == spec_resolve(*self, i as int, request@),
            r.wf(),
        decreases self.headroom(i as int),
    {
        proof {
            assert(self.hub_wf_at(i as int));
        }
        match self.hubs[i].interceptors.try_intercept_api_request(&request) {
            Some(resp) => {
                let mut resp = resp;
                resp.metadata.insert(String::from_str("intercepted"), String::from_str("true"));
                resp.status = ResponseStatus::Intercepted;
                return resp;
            },
            None => {},
        }
        match self.hubs[i].registry.lookup(&request.path) {
            Some(entry) => {
                proof {
                    lemma_spec_lookup_found(self.hubs_seq()[i as int].reg(), request.path@);
                }
                return apply_handler(&entry.handler, &request);
            },
            None => {},
        }
        match self.hubs[i].parent {
            Some(p) => {
                return self.resolve(p, request);
            },
            None => {},
        }
        // Alias fallback: some entry declares this missing path as the
        // one it answers for; retarget to that entry's own path. The
        // target is a registered path, so it resolves locally.
        let mut alias_target: Option<String> = None;
        match self.hubs[i].registry.lookup_fallback(&request.path) {
            Some(found) => {
                alias_target = Some(found.0.clone());
            },
            None => {},
        }
        match alias_target {
            Some(target) => {
                let ApiRequest { path: orig_path, data, metadata, sender_id } = request;
                let mut meta = metadata;
                meta.insert(String::from_str("original_path"), orig_path.clone());
                let req2 = ApiRequest { path: target, data, metadata: meta, sender_id };
                let mut resp = self.dispatch_local(i, &req2);
                resp.metadata.insert(String::from_str("original_path"), orig_path);
                return resp;
            },
            None => {},
        }
        // Approximate matching: the first registered path similar
        // enough to the missing one serves in its place.
        let mut approx_target: Option<String> = None;
        match self.hubs[i].registry.lookup_similar(&request.path, 80) {
            Some(found) => {
                approx_target = Some(found.0);
            },
            None => {},
        }
        match approx_target {
            Some(target) => {
                let ApiRequest { path: orig_path, data, metadata, sender_id } = request;
                let mut meta = metadata;
                meta.insert(String::from_str("original_path"), orig_path.clone());
                let req2 = ApiRequest { path: target, data, metadata: meta, sender_id };
                let mut resp = self.dispatch_local(i, &req2);
                resp.metadata.insert(String::from_str("original_path"), orig_path);
                resp.metadata.insert(String::from_str("approximated"), String::from_str("true"));
                if resp.status != ResponseStatus::NotFound {
                    resp.status = ResponseStatus::Approximated;
                }
                return resp;
            },
            None => {},
        }
        ApiResponse { data: Payload::Empty, metadata: MetaMap::new(), status: ResponseStatus::NotFound }
    }

    /// Resolve a request arriving at hub `hub`. Resolution always
    /// produces a response and never panics; its value is exactly
    /// `spec_resolve`.
    pub fn handle_request(&self, hub: usize, request: ApiRequest) -> (r: ApiResponse)
        requires
            self.wf(),
            hub < self.spec_hub_count(),
            request.wf(),
        ensures
            r@ == spec_resolve(*self, hub as int, request@),
            r.wf(),
    {
        self.resolve(hub, request)
    }
}


/// Whether a subscription's pattern covers a topic: exact match or a
/// trailing-`*` prefix match.
pub open spec fn sub_matches(sub: Subscription, topic: Seq<char>) -> bool {
    sub.pattern@ == topic || pattern_matches(sub.pattern@, topic)
}

/// The identifiers of the subscriptions covering `topic`, in offer
/// order: descending priority, ties in subscription order.
pub open spec fn spec_matching_subs(s: Seq<Subscription>, topic: Seq<char>) -> Seq<Seq<char>>
    decreases s.len(),
{
    if s.len() == 0 {
        Seq::empty()
    } else if sub_matches(s[0], topic) {
        seq![s[0].id@] + spec_matching_subs(s.drop_first(), topic)
    } else {
        spec_matching_subs(s.drop_first(), topic)
    }
}

/// The message a publish call offers and routes: the sender is the
/// publishing context; the clock-drawn timestamp does not influence
/// routing, so the reference message carries timestamp zero.
pub open spec fn publish_msg(topic: Seq<char>, data: Payload, metadata: Map<Seq<char>, Seq<char>>) -> MsgV {
    MsgV { topic, data, metadata, sender_id: "current-sender"@, timestamp: 0 }
}

/// Publication: all matching subscriptions on this hub are offered
/// the message, in priority order; then the topic interceptor chain
/// runs, and a value from it ends the publish; otherwise the parent
/// hub publishes in turn. The pair holds the interception value, if
/// any, and every offered subscription identifier, in offer order.
pub open spec fn spec_publish(sys: HubSystem, i: int, msg: MsgV) -> (Option<Payload>, Seq<
    Seq<char>,
>)
    decreases sys.headroom(i)
        when sys.wf() && 0 <= i < sys.spec_hub_count()
{
    let h = sys.hubs_seq()[i];
    let offered = spec_matching_subs(h.subs(), msg.topic);
    match spec_try_intercept_message(h.mgr().message_table(), msg) {
        Some(v) => (Some(v), offered),
        None => match h.parent_of() {
            Some(p) => {
                proof {
                    assert(sys.hub_wf_at(i));
                }
                let rec = spec_publish(sys, p as int, msg);
                (rec.0, offered + rec.1)
            },
            None => (None, offered),
        },
    }
}

proof fn lemma_msg_rule_ts(rule: MessageRule, m1: MsgV, m2: MsgV)
    requires
        m1.topic == m2.topic,
        m1.metadata == m2.metadata,
    ensures
        rule.spec_apply(m1) == rule.spec_apply(m2),
{
}

proof fn lemma_msg_chain_ts(c: Seq<Interceptor<MessageRule>>, m1: MsgV, m2: MsgV)
    requires
        m1.topic == m2.topic,
        m1.metadata == m2.metadata,
    ensures
        crate::interceptor::spec_run_msg_chain(c, m1) == crate::interceptor::spec_run_msg_chain(
            c,
            m2,
        ),
    decreases c.len(),
{
    if c.len() > 0 {
        lemma_msg_rule_ts(c[0].handler, m1, m2);
        lemma_msg_chain_ts(c.drop_first(), m1, m2);
    }
}

proof fn lemma_msg_wildcards_ts(
    t: Seq<(String, Vec<Interceptor<MessageRule>>)>,
    m1: MsgV,
    m2: MsgV,
)
    requires
        m1.topic == m2.topic,
        m1.metadata == m2.metadata,
    ensures
        crate::interceptor::spec_run_msg_wildcards(t, m1)
            == crate::interceptor::spec_run_msg_wildcards(t, m2),
    decreases t.len(),
{
    if t.len() > 0 {
        lemma_msg_chain_ts(t[0].1@, m1, m2);
        lemma_msg_wildcards_ts(t.drop_first(), m1, m2);
    }
}

proof fn lemma_try_intercept_message_ts(
    t: Seq<(String, Vec<Interceptor<MessageRule>>)>,
    m1: MsgV,
    m2: MsgV,
)
    requires
        m1.topic == m2.topic,
        m1.metadata == m2.metadata,
    ensures
        spec_try_intercept_message(t, m1) == spec_try_intercept_message(t, m2),
{
    lemma_msg_chain_ts(crate::interceptor::spec_exact_chain(t, m1.topic), m1, m2);
    lemma_msg_wildcards_ts(t, m1, m2);
}

/// Routing of a publish does not depend on the message's timestamp,
/// sender or payload: only topic and metadata decide.
pub proof fn lemma_publish_routing(sys: HubSystem, i: int, m1: MsgV, m2: MsgV)
    requires
        sys.wf(),
        0 <= i < sys.spec_hub_count(),
        m1.topic == m2.topic,
        m1.metadata == m2.metadata,
    ensures
        spec_publish(sys, i, m1) == spec_publish(sys, i, m2),
    decreases sys.headroom(i),
{
    assert(sys.hub_wf_at(i));
    let h = sys.hubs_seq()[i];
    lemma_try_intercept_message_ts(h.mgr().message_table(), m1, m2);
    match h.parent_of() {
        Some(p) => {
            lemma_publish_routing(sys, p as int, m1, m2);
        },
        None => {},
    }
}

proof fn lemma_sub_pos_bounds(s: Seq<Subscription>, p: i32)
    ensures
        0 <= sub_insert_pos(s, p) <= s.len(),
    decreases s.len(),
{
    if s.len() > 0 && s[0].priority >= p {
        lemma_sub_pos_bounds(s.drop_first(), p);
    }
}

proof fn lemma_sub_pos_at(s: Seq<Subscription>, p: i32, k: int)
    requires
        0 <= k <= s.len(),
        forall|j: int| 0 <= j < k ==> (#[trigger] s[j]).priority >= p,
        k == s.len() || s[k].priority < p,
    ensures
        sub_insert_pos(s, p) == k,
    decreases k,
{
    if k > 0 {
        lemma_sub_pos_at(s.drop_first(), p, k - 1);
    }
}

proof fn lemma_sub_pos_ge(s: Seq<Subscription>, p: i32, i: int)
    requires
        0 <= i < sub_insert_pos(s, p),
        sub_insert_pos(s, p) <= s.len(),
    ensures
        s[i].priority >= p,
    decreases s.len(),
{
    if i > 0 {
        lemma_sub_pos_ge(s.drop_first(), p, i - 1);
    }
}

proof fn lemma_sub_pos_elem(s: Seq<Subscription>, p: i32)
    requires
        sub_insert_pos(s, p) < s.len(),
    ensures
        0 <= sub_insert_pos(s, p),
        s[sub_insert_pos(s, p)].priority < p,
    decreases s.len(),
{
    if s.len() > 0 && s[0].priority >= p {
        lemma_sub_pos_bounds(s.drop_first(), p);
        lemma_sub_pos_elem(s.drop_first(), p);
    }
}

proof fn lemma_sub_pos_lt(s: Seq<Subscription>, p: i32, i: int)
    requires
        subs_sorted(s),
        sub_insert_pos(s, p) <= i < s.len(),
    ensures
        s[i].priority < p,
{
    lemma_sub_pos_elem(s, p);
    let pos = sub_insert_pos(s, p);
    if i > pos {
        assert(s[i].priority <= s[pos].priority);
    }
}

/// No identifier the counter has already handed out equals the one it
/// mints next.
pub proof fn lemma_fresh_sub_id(s: Seq<Subscription>, c: nat)
    requires
        subs_ids_ok(s, c),
    ensures
        forall|i: int| 0 <= i < s.len() ==> (#[trigger] s[i]).id@ != spec_decimal(c),
{
    assert forall|i: int| 0 <= i < s.len() implies (#[trigger] s[i]).id@ != spec_decimal(c) by {
        if s[i].id@ == spec_decimal(c) {
            assert(id_minted_before(s[i].id@, c));
            let k = choose|k: nat| k < c && s[i].id@ == spec_decimal(k);
            lemma_decimal_injective(k, c);
        }
    }
}

proof fn lemma_remove_first_id_at(s: Seq<Subscription>, id: Seq<char>, p: int)
    requires
        0 <= p < s.len(),
        s[p].id@ == id,
        forall|q: int| 0 <= q < p ==> (#[trigger] s[q]).id@ != id,
    ensures
        spec_remove_first_id(s, id) == s.remove(p),
    decreases s.len(),
{
    if p == 0 {
        assert(s.drop_first() =~= s.remove(0));
    } else {
        lemma_remove_first_id_at(s.drop_first(), id, p - 1);
        assert(seq![s[0]] + s.drop_first().remove(p - 1) =~= s.remove(p));
    }
}

proof fn lemma_remove_first_id_absent(s: Seq<Subscription>, id: Seq<char>)
    requires
        forall|q: int| 0 <= q < s.len() ==> (#[trigger] s[q]).id@ != id,
    ensures
        spec_remove_first_id(s, id) == s,
    decreases s.len(),
{
    if s.len() > 0 {
        lemma_remove_first_id_absent(s.drop_first(), id);
        assert(seq![s[0]] + s.drop_first() =~= s);
    }
}

fn find_sub_index(subs: &Vec<Subscription>, id: &String) -> (r: Option<usize>)
    ensures
        (match r {
            Some(p) => p < subs@.len() && subs@[p as int].id@ == id@ && (forall|q: int|
                0 <= q < p ==> (#[trigger] subs@[q]).id@ != id@) && subs_have_id(subs@, id@),
            None => forall|q: int| 0 <= q < subs@.len() ==> (#[trigger] subs@[q]).id@ != id@,
        }),
{
    let mut i: usize = 0;
    while i < subs.len()
        invariant
            i <= subs@.len(),
            forall|q: int| 0 <= q < i ==> (#[trigger] subs@[q]).id@ != id@,
        decreases subs@.len() - i,
    {
        if subs[i].id == *id {
            return Some(i);
        }
        i = i + 1;
    }
    None
}

fn sub_position(subs: &Vec<Subscription>, priority: i32) -> (pos: usize)
    ensures
        pos as int == sub_insert_pos(subs@, priority),
        pos <= subs@.len(),
{
    let mut i: usize = 0;
    while i < subs.len()
        invariant
            i <= subs@.len(),
            forall|j: int| 0 <= j < i ==> (#[trigger] subs@[j]).priority >= priority,
        decreases subs@.len() - i,
    {
        if subs[i].priority < priority {
            proof {
                lemma_sub_pos_at(subs@, priority, i as int);
            }
            return i;
        }
        i = i + 1;
    }
    proof {
        lemma_sub_pos_at(subs@, priority, subs@.len() as int);
    }
    subs.len()
}

/// What a publish call reports: the first interceptor value met while
/// escalating, and every subscription identifier the message was
/// offered to, in offer order.
#[derive(Debug)]
pub struct PublishOutcome {
    pub value: Option<Payload>,
    pub offered: Vec<String>,
}

impl HubSystem {
    /// Subscribe to a topic pattern on one hub; returns the
    /// subscription's identifier. The entry is placed after every
    /// subscription of at least its priority.
    pub fn subscribe(
        &mut self,
        hub: usize,
        pattern: String,
        handler: MessageRule,
        priority: i32,
    ) -> (id: String)
        requires
            old(self).wf(),
            hub < old(self).spec_hub_count(),
            old(self).hubs_seq()[hub as int].sub_counter() < u64::MAX,
        ensures
            final(self).wf(),
            final(self).hubs_seq().len() == old(self).hubs_seq().len(),
            forall|j: int|
                0 <= j < old(self).hubs_seq().len() && j != hub ==> final(self).hubs_seq()[j]
                    == old(self).hubs_seq()[j],
            same_except_subs(old(self).hubs_seq()[hub as int], final(self).hubs_seq()[hub as int]),
            id@ == spec_decimal(old(self).hubs_seq()[hub as int].sub_counter() as nat),
            final(self).hubs_seq()[hub as int].sub_counter() == old(self).hubs_seq()[
                hub as int
            ].sub_counter() + 1,
            final(self).hubs_seq()[hub as int].subs() == old(self).hubs_seq()[
                hub as int
            ].subs().insert(
                sub_insert_pos(old(self).hubs_seq()[hub as int].subs(), priority),
                (Subscription { id, priority, pattern, handler }),
            ),
    {
        let ghost sys0 = *self;
        let ghost s0 = self.hubs@;
        proof {
            assert(sys0.hub_wf_at(hub as int));
        }
        let mut h = self.hubs.remove(hub);
        let id = decimal_string(h.next_sub_id);
        let ghost c0 = h.subscriptions@;
        let ghost counter0 = h.next_sub_id;
        let sub = Subscription {
            id: id.clone(),
            priority,
            pattern,
            handler,
        };
        let ghost subg = sub;
        let pos = sub_position(&h.subscriptions, priority);
        h.subscriptions.insert(pos, sub);
        h.next_sub_id = h.next_sub_id + 1;
        proof {
            let c1 = h.subscriptions@;
            assert forall|i: int, j: int|
                0 <= i < j < c1.len() implies c1[i].priority >= c1[j].priority by {
                assert(subs_sorted(c0));
                if i < pos && j < pos {
                    assert(c1[i] == c0[i] && c1[j] == c0[j]);
                } else if i < pos && j == pos {
                    assert(c1[i] == c0[i]);
                    lemma_sub_pos_ge(c0, priority, i);
                } else if i < pos && j > pos {
                    assert(c1[i] == c0[i] && c1[j] == c0[j - 1]);
                } else if i == pos {
                    assert(c1[j] == c0[j - 1]);
                    lemma_sub_pos_lt(c0, priority, j - 1);
                } else {
                    assert(c1[i] == c0[i - 1] && c1[j] == c0[j - 1]);
                }
            }
            lemma_fresh_sub_id(c0, counter0 as nat);
            assert forall|i: int|
                0 <= i < c1.len() implies id_minted_before((#[trigger] c1[i]).id@,
                h.next_sub_id as nat) by {
                if i < pos {
                    assert(c1[i] == c0[i]);
                    let k = choose|k: nat| k < counter0 && c0[i].id@ == spec_decimal(k);
                    assert(k < h.next_sub_id);
                } else if i == pos {
                    assert(c1[i] == subg);
                    assert(subg.id@ == spec_decimal(counter0 as nat));
                    assert((counter0 as nat) < h.next_sub_id as nat);
                } else {
                    assert(c1[i] == c0[i - 1]);
                    let k = choose|k: nat| k < counter0 && c0[i - 1].id@ == spec_decimal(k);
                    assert(k < h.next_sub_id);
                }
            }
            assert forall|i: int, j: int|
                0 <= i < j < c1.len() implies c1[i].id@ != c1[j].id@ by {
                if i < pos && j < pos {
                    assert(c1[i] == c0[i] && c1[j] == c0[j]);
                } else if i < pos && j == pos {
                    assert(c1[i] == c0[i]);
                } else if i < pos && j > pos {
                    assert(c1[i] == c0[i] && c1[j] == c0[j - 1]);
                } else if i == pos {
                    assert(c1[j] == c0[j - 1]);
                } else {
                    assert(c1[i] == c0[i - 1] && c1[j] == c0[j - 1]);
                }
            }
            assert(h.wf());
        }
        self.hubs.insert(hub, h);
        proof {
            assert(self.hubs@ =~= s0.update(hub as int, self.hubs@[hub as int]));
            lemma_wf_local_change(sys0, *self, hub as int);
        }
        id
    }

    /// Withdraw the first subscription carrying `id` on one hub;
    /// reports whether one was found. Dropping the subscription just
    /// added returns the table to its prior state.
    pub fn unsubscribe(&mut self, hub: usize, id: &String) -> (found: bool)
        requires
            old(self).wf(),
            hub < old(self).spec_hub_count(),
        ensures
            final(self).wf(),
            final(self).hubs_seq().len() == old(self).hubs_seq().len(),
            forall|j: int|
                0 <= j < old(self).hubs_seq().len() && j != hub ==> final(self).hubs_seq()[j]
                    == old(self).hubs_seq()[j],
            same_except_subs(old(self).hubs_seq()[hub as int], final(self).hubs_seq()[hub as int]),
            final(self).hubs_seq()[hub as int].sub_counter() == old(self).hubs_seq()[
                hub as int
            ].sub_counter(),
            found == subs_have_id(old(self).hubs_seq()[hub as int].subs(), id@),
            final(self).hubs_seq()[hub as int].subs() == spec_remove_first_id(
                old(self).hubs_seq()[hub as int].subs(),
                id@,
            ),
    {
        let ghost sys0 = *self;
        let ghost s0 = self.hubs@;
        proof {
            assert(sys0.hub_wf_at(hub as int));
        }
        let mut h = self.hubs.remove(hub);
        let ghost c0 = h.subscriptions@;
        let pos_opt = find_sub_index(&h.subscriptions, id);
        let found = pos_opt.is_some();
        if let Some(pos) = pos_opt {
            proof {
                lemma_remove_first_id_at(c0, id@, pos as int);
            }
            h.subscriptions.remove(pos);
            proof {
                let c1 = h.subscriptions@;
                assert forall|i: int, j: int|
                    0 <= i < j < c1.len() implies c1[i].priority >= c1[j].priority && c1[i].id@
                    != c1[j].id@ by {
                    let i0: int = if i < pos { i } else { i + 1 };
                    let j0: int = if j < pos { j } else { j + 1 };
                    assert(c1[i] == c0[i0] && c1[j] == c0[j0]);
                }
                assert forall|i: int|
                    0 <= i < c1.len() implies id_minted_before((#[trigger] c1[i]).id@,
                    h.next_sub_id as nat) by {
                    let i0: int = if i < pos { i } else { i + 1 };
                    assert(c1[i] == c0[i0]);
                }
                assert(h.wf());
            }
        } else {
            proof {
                lemma_remove_first_id_absent(c0, id@);
                assert(!subs_have_id(c0, id@));
            }
        }
        self.hubs.insert(hub, h);
        proof {
            assert(self.hubs@ =~= s0.update(hub as int, self.hubs@[hub as int]));
            lemma_wf_local_change(sys0, *self, hub as int);
        }
        found
    }

    fn publish_inner(&self, i: usize, msg: &Message) -> (out: PublishOutcome)
        requires
            self.wf(),
            i < self.spec_hub_count(),
            msg.wf(),
        ensures
            out.value == spec_publish(*self, i as int, msg@).0,
            out.offered@.map_values(|s: String| s@) == spec_publish(*self, i as int, msg@).1,
        decreases self.headroom(i as int),
    {
        proof {
            assert(self.hub_wf_at(i as int));
        }
        let ghost subs_seq = self.hubs_seq()[i as int].subs();
        let mut offered: Vec<String> = Vec::new();
        let mut j: usize = 0;
        proof {
            assert(subs_seq.skip(0) =~= subs_seq);
            assert(offered@.map_values(|s: String| s@) + spec_matching_subs(subs_seq, msg.topic@)
                =~= spec_matching_subs(subs_seq, msg.topic@));
        }
        while j < self.hubs[i].subscriptions.len()
            invariant
                self.wf(),
                i < self.spec_hub_count(),
                msg.wf(),
                subs_seq == self.hubs_seq()[i as int].subs(),
                j <= subs_seq.len(),
                spec_matching_subs(subs_seq, msg@.topic) == offered@.map_values(|s: String| s@)
                    + spec_matching_subs(subs_seq.skip(j as int), msg@.topic),
            decreases subs_seq.len() - j,
        {
            let ghost rest = subs_seq.skip(j as int);
            proof {
                assert(rest[0] == subs_seq[j as int]);
            }
            let sub = &self.hubs[i].subscriptions[j];
            let is_match = sub.pattern == msg.topic || wildcard_matches(&sub.pattern, &msg.topic);
            if is_match {
                let _ = apply_message_rule(&sub.handler, msg);
                let ghost o0 = offered@;
                offered.push(sub.id.clone());
                proof {
                    assert(offered@.map_values(|s: String| s@) =~= o0.map_values(
                        |s: String| s@,
                    ).push(subs_seq[j as int].id@));
                    assert(rest.drop_first() =~= subs_seq.skip(j + 1));
                    assert(o0.map_values(|s: String| s@).push(subs_seq[j as int].id@)
                        + spec_matching_subs(subs_seq.skip(j + 1), msg@.topic)
                        =~= o0.map_values(|s: String| s@) + spec_matching_subs(rest, msg@.topic));
                }
            } else {
                proof {
                    assert(rest.drop_first() =~= subs_seq.skip(j + 1));
                }
            }
            j = j + 1;
        }
        proof {
            assert(subs_seq.skip(subs_seq.len() as int).len() == 0);
            assert(offered@.map_values(|s: String| s@) + spec_matching_subs(
                subs_seq.skip(subs_seq.len() as int),
                msg@.topic,
            ) =~= offered@.map_values(|s: String| s@));
        }
        match self.hubs[i].interceptors.try_intercept_message(msg) {
            Some(v) => {
                return PublishOutcome { value: Some(v), offered };
            },
            None => {},
        }
        match self.hubs[i].parent {
            Some(p) => {
                let mut rec = self.publish_inner(p, msg);
                let ghost o0 = offered@;
                let ghost r0 = rec.offered@;
                offered.append(&mut rec.offered);
                proof {
                    assert(offered@.map_values(|s: String| s@) =~= o0.map_values(|s: String| s@)
                        + r0.map_values(|s: String| s@));
                }
                PublishOutcome { value: rec.value, offered }
            },
            None => PublishOutcome { value: None, offered },
        }
    }

    /// Publish a payload to a topic at one hub. Matching
    /// subscriptions on the hub are offered the message in priority
    /// order; a topic interceptor may answer and end the publish;
    /// otherwise the parent hub publishes in turn. With no
    /// interception and no parent, the publish yields nothing.
    pub fn publish(
        &self,
        hub: usize,
        topic: String,
        data: Payload,
        metadata: MetaMap,
    ) -> (out: PublishOutcome)
        requires
            self.wf(),
            hub < self.spec_hub_count(),
            metadata.wf(),
        ensures
            out.value == spec_publish(
                *self,
                hub as int,
                publish_msg(topic@, data, metadata@),
            ).0,
            out.offered@.map_values(|s: String| s@) == spec_publish(
                *self,
                hub as int,
                publish_msg(topic@, data, metadata@),
            ).1,
    {
        let ghost datag = data;
        let message = Message {
            topic,
            data,
            metadata,
            sender_id: String::from_str("current-sender"),
            timestamp: current_time_millis(),
        };
        let out = self.publish_inner(hub, &message);
        proof {
            lemma_publish_routing(
                *self,
                hub as int,
                message@,
                publish_msg(message.topic@, datag, message.metadata@),
            );
        }
        out
    }

    /// The value the method interceptors produce for a call on a
    /// value of type `tag`: the local chain first, then each
    /// ancestor's in turn.
    pub open spec fn spec_try_method(
        self,
        i: int,
        tag: Seq<char>,
        method: Seq<char>,
        args: Payload,
    ) -> Option<Payload>
        decreases self.headroom(i)
            when self.wf() && 0 <= i < self.spec_hub_count()
    {
        let h = self.hubs_seq()[i];
        match crate::interceptor::spec_run_method_chain(
            crate::interceptor::spec_method_chain(h.mgr().method_table(), tag, method),
            args,
        ) {
            Some(v) => Some(v),
            None => match h.parent_of() {
                Some(p) => {
                    proof {
                        assert(self.hub_wf_at(i));
                    }
                    self.spec_try_method(p as int, tag, method, args)
                },
                None => None,
            },
        }
    }

    /// Register a method-call interceptor on one hub; returns its
    /// handle.
    pub fn intercept_method(
        &mut self,
        hub: usize,
        type_tag: String,
        method_name: String,
        handler: MethodRule,
        priority: i32,
    ) -> (id: String)
        requires
            old(self).wf(),
            hub < old(self).spec_hub_count(),
            old(self).hubs_seq()[hub as int].mgr().counter() < u64::MAX,
        ensures
            final(self).wf(),
            final(self).hubs_seq().len() == old(self).hubs_seq().len(),
            forall|j: int|
                0 <= j < old(self).hubs_seq().len() && j != hub ==> final(self).hubs_seq()[j]
                    == old(self).hubs_seq()[j],
            same_except_mgr(old(self).hubs_seq()[hub as int], final(self).hubs_seq()[hub as int]),
            final(self).hubs_seq()[hub as int].mgr().api_table()
                == old(self).hubs_seq()[hub as int].mgr().api_table(),
            final(self).hubs_seq()[hub as int].mgr().message_table()
                == old(self).hubs_seq()[hub as int].mgr().message_table(),
            crate::interceptor::spec_method_chain(
                final(self).hubs_seq()[hub as int].mgr().method_table(),
                type_tag@,
                method_name@,
            ) == crate::interceptor::spec_method_chain(
                old(self).hubs_seq()[hub as int].mgr().method_table(),
                type_tag@,
                method_name@,
            ).insert(
                crate::interceptor::chain_insert_pos(
                    crate::interceptor::spec_method_chain(
                        old(self).hubs_seq()[hub as int].mgr().method_table(),
                        type_tag@,
                        method_name@,
                    ),
                    priority,
                ),
                (Interceptor { id, priority, handler }),
            ),
    {
        let ghost sys0 = *self;
        let ghost s0 = self.hubs@;
        proof {
            assert(sys0.hub_wf_at(hub as int));
        }
        let mut h = self.hubs.remove(hub);
        let id = h.interceptors.register_method_interceptor(type_tag, method_name, handler,
            priority);
        self.hubs.insert(hub, h);
        proof {
            assert(self.hubs@ =~= s0.update(hub as int, self.hubs@[hub as int]));
            lemma_wf_local_change(sys0, *self, hub as int);
        }
        id
    }

    /// Offer a method call to the interceptors registered for its
    /// (type tag, method name) pair, here and on every ancestor.
    pub fn try_intercept_method(
        &self,
        hub: usize,
        type_tag: &String,
        method_name: &String,
        args: &Payload,
    ) -> (r: Option<Payload>)
        requires
            self.wf(),
            hub < self.spec_hub_count(),
        ensures
            r == self.spec_try_method(hub as int, type_tag@, method_name@, *args),
        decreases self.headroom(hub as int),
    {
        proof {
            assert(self.hub_wf_at(hub as int));
        }
        match self.hubs[hub].interceptors.try_intercept_method(type_tag, method_name, args) {
            Some(v) => Some(v),
            None => {
                match self.hubs[hub].parent {
                    Some(p) => self.try_intercept_method(p, type_tag, method_name, args),
                    None => None,
                }
            },
        }
    }

    /// Create a hub of the given scope and wire it, through freshly
    /// created intermediate hubs, up to a Network-scope root, as hubs
    /// joining the bus do. The new hub's index is returned; hubs
    /// already in the system are untouched.
    pub fn initialize(&mut self, scope: HubScope) -> (i: usize)
        requires
            old(self).wf(),
        ensures
            final(self).wf(),
            i as int == old(self).spec_hub_count(),
            i < final(self).spec_hub_count(),
            final(self).spec_hub_count() == old(self).spec_hub_count() + 4
                - scope.spec_level(),
            final(self).hubs_seq()[i as int].spec_scope() == scope,
            forall|j: int|
                0 <= j < old(self).hubs_seq().len() ==> final(self).hubs_seq()[j]
                    == old(self).hubs_seq()[j],
            final(self).hubs_seq()[i as int].reg().len() == 0,
            final(self).hubs_seq()[i as int].mgr().api_table().len() == 0,
            final(self).hubs_seq()[i as int].subs().len() == 0,
            (final(self).hubs_seq()[i as int].parent_of() is Some <==> scope
                != HubScope::Network),
    {
        let i = self.new_hub(scope);
        let mut cur = i;
        let mut level = scope.level();
        while level < 3
            invariant
                self.wf(),
                cur < self.spec_hub_count(),
                i < self.spec_hub_count(),
                i <= cur,
                level == self.hubs_seq()[cur as int].spec_scope().spec_level(),
                self.spec_hub_count() == old(self).spec_hub_count() + 1 + level
                    - scope.spec_level(),
                self.hubs_seq()[cur as int].parent_of() is None,
                i as int == old(self).spec_hub_count(),
                forall|j: int|
                    0 <= j < old(self).hubs_seq().len() ==> self.hubs_seq()[j]
                        == old(self).hubs_seq()[j],
                self.hubs_seq()[i as int].spec_scope() == scope,
                self.hubs_seq()[i as int].reg().len() == 0,
                self.hubs_seq()[i as int].mgr().api_table().len() == 0,
                self.hubs_seq()[i as int].subs().len() == 0,
                cur == i ==> self.hubs_seq()[i as int].parent_of() is None,
                cur != i ==> self.hubs_seq()[i as int].parent_of() is Some,
                scope == HubScope::Network ==> cur == i,
            decreases 3 - level,
        {
            let next_scope = if level == 0 {
                HubScope::Process
            } else if level == 1 {
                HubScope::Machine
            } else {
                HubScope::Network
            };
            let p = self.new_hub(next_scope);
            let r = self.connect_to_parent(cur, p);
            proof {
                assert(r is Ok);
            }
            cur = p;
            level = level + 1;
        }
        proof {
            if cur == i {
                assert(self.hubs_seq()[i as int].spec_scope().spec_level() == 3);
                assert(scope == HubScope::Network);
            }
        }
        i
    }
}


impl HubSystem {
    /// Withdraw the interceptor registered under `id` on one hub,
    /// whichever interceptor table holds it; reports whether one was
    /// found.
    pub fn unregister_interceptor(&mut self, hub: usize, id: &String) -> (found: bool)
        requires
            old(self).wf(),
            hub < old(self).spec_hub_count(),
        ensures
            final(self).wf(),
            final(self).hubs_seq().len() == old(self).hubs_seq().len(),
            forall|j: int|
                0 <= j < old(self).hubs_seq().len() && j != hub ==> final(self).hubs_seq()[j]
                    == old(self).hubs_seq()[j],
            same_except_mgr(old(self).hubs_seq()[hub as int], final(self).hubs_seq()[hub as int]),
            final(self).hubs_seq()[hub as int].mgr().counter()
                == old(self).hubs_seq()[hub as int].mgr().counter(),
            found == (crate::interceptor::table_has_id(
                old(self).hubs_seq()[hub as int].mgr().api_table(),
                id@,
            ) || crate::interceptor::table_has_id(
                old(self).hubs_seq()[hub as int].mgr().message_table(),
                id@,
            ) || crate::interceptor::table_has_id(
                old(self).hubs_seq()[hub as int].mgr().method_table(),
                id@,
            )),
            crate::interceptor::table_has_id(
                old(self).hubs_seq()[hub as int].mgr().api_table(),
                id@,
            ) ==> crate::interceptor::table_unregistered(
                old(self).hubs_seq()[hub as int].mgr().api_table(),
                final(self).hubs_seq()[hub as int].mgr().api_table(),
                id@,
            ),
            !crate::interceptor::table_has_id(
                old(self).hubs_seq()[hub as int].mgr().api_table(),
                id@,
            ) && crate::interceptor::table_has_id(
                old(self).hubs_seq()[hub as int].mgr().message_table(),
                id@,
            ) ==> crate::interceptor::table_unregistered(
                old(self).hubs_seq()[hub as int].mgr().message_table(),
                final(self).hubs_seq()[hub as int].mgr().message_table(),
                id@,
            ),
            !found ==> (final(self).hubs_seq()[hub as int].mgr().api_table()
                == old(self).hubs_seq()[hub as int].mgr().api_table()
                && final(self).hubs_seq()[hub as int].mgr().message_table()
                == old(self).hubs_seq()[hub as int].mgr().message_table()
                && final(self).hubs_seq()[hub as int].mgr().method_table()
                == old(self).hubs_seq()[hub as int].mgr().method_table()),
    {
        let ghost sys0 = *self;
        let ghost s0 = self.hubs@;
        proof {
            assert(sys0.hub_wf_at(hub as int));
        }
        let mut h = self.hubs.remove(hub);
        let found = h.interceptors.unregister_interceptor(id);
        self.hubs.insert(hub, h);
        proof {
            assert(self.hubs@ =~= s0.update(hub as int, self.hubs@[hub as int]));
            lemma_wf_local_change(sys0, *self, hub as int);
        }
        found
    }
}


fn find_child_index(children: &Vec<usize>, child: usize) -> (r: Option<usize>)
    ensures
        (match r {
            Some(p) => p < children@.len() && children@[p as int] == child,
            None => forall|q: int| 0 <= q < children@.len() ==> children@[q] != child,
        }),
{
    let mut k: usize = 0;
    while k < children.len()
        invariant
            k <= children@.len(),
            forall|q: int| 0 <= q < k ==> children@[q] != child,
        decreases children@.len() - k,
    {
        if children[k] == child {
            return Some(k);
        }
        k = k + 1;
    }
    None
}

/// The child after detachment: only its parent reference was cleared.
pub open spec fn hub_detached(h0: Hub, h1: Hub) -> bool {
    &&& h1.spec_id() == h0.spec_id()
    &&& h1.spec_scope() == h0.spec_scope()
    &&& h1.reg() == h0.reg()
    &&& h1.mgr() == h0.mgr()
    &&& h1.subs() == h0.subs()
    &&& h1.sub_counter() == h0.sub_counter()
    &&& h1.parent_of() is None
    &&& h1.children_of() == h0.children_of()
}

/// The parent after detachment: only the child's back-link left its
/// child list.
pub open spec fn hub_child_removed(h0: Hub, h1: Hub, child: usize, k: int) -> bool {
    &&& h1.spec_id() == h0.spec_id()
    &&& h1.spec_scope() == h0.spec_scope()
    &&& h1.reg() == h0.reg()
    &&& h1.mgr() == h0.mgr()
    &&& h1.subs() == h0.subs()
    &&& h1.sub_counter() == h0.sub_counter()
    &&& h1.parent_of() == h0.parent_of()
    &&& 0 <= k < h0.children_of().len()
    &&& h0.children_of()[k] == child
    &&& h1.children_of() == h0.children_of().remove(k)
}

impl HubSystem {
    /// Detach `child` from its parent, reversing `connect_to_parent`:
    /// the child's parent reference is cleared and its back-link
    /// leaves the parent's child list. Reports whether the child was
    /// attached; an unattached child is left alone.
    pub fn detach_from_parent(&mut self, child: usize) -> (had: bool)
        requires
            old(self).wf(),
            child < old(self).spec_hub_count(),
        ensures
            final(self).wf(),
            final(self).hubs_seq().len() == old(self).hubs_seq().len(),
            had == (old(self).hubs_seq()[child as int].parent_of() is Some),
            !had ==> final(self).hubs_seq() == old(self).hubs_seq(),
            had ==> (forall|j: int|
                0 <= j < old(self).hubs_seq().len() && j != child && Some(j as usize) != old(
                    self,
                ).hubs_seq()[child as int].parent_of() ==> final(self).hubs_seq()[j]
                    == old(self).hubs_seq()[j]),
            had ==> hub_detached(
                old(self).hubs_seq()[child as int],
                final(self).hubs_seq()[child as int],
            ),
            had ==> (old(self).hubs_seq()[child as int].parent_of() matches Some(p)
                ==> exists|k: int|
                hub_child_removed(
                    old(self).hubs_seq()[p as int],
                    final(self).hubs_seq()[p as int],
                    child,
                    k,
                )),
    {
        let parent = match self.hubs[child].parent {
            Some(p) => p,
            None => {
                return false;
            },
        };
        proof {
            assert(old(self).hub_wf_at(child as int));
        }
        let ghost s0 = self.hubs@;
        let mut c = self.hubs.remove(child);
        c.parent = None;
        self.hubs.insert(child, c);
        proof {
            assert(self.hubs@ =~= s0.update(child as int, self.hubs@[child as int]));
        }
        let ghost s1 = self.hubs@;
        let mut p = self.hubs.remove(parent);
        let ghost pch = p.children@;
        let pos = match find_child_index(&p.children, child) {
            Some(pos) => pos,
            None => {
                proof {
                    assert(s0[child as int].parent_of() == Some(parent));
                    assert(s0[parent as int].children_of().contains(child));
                    let w = choose|w: int|
                        0 <= w < s0[parent as int].children_of().len() && s0[
                            parent as int
                        ].children_of()[w] == child;
                    assert(pch[w] == child);
                    assert(false);
                }
                0
            },
        };
        p.children.remove(pos);
        self.hubs.insert(parent, p);
        proof {
            broadcast use vstd::std_specs::vec::axiom_spec_len;

            assert(spec_vec_len(&old(self).hubs) == s0.len());
            assert(self.hubs@ =~= s1.update(parent as int, self.hubs@[parent as int]));
            let s2 = self.hubs@;
            let ci = child as int;
            let pi = parent as int;
            assert(hub_child_removed(s0[pi], s2[pi], child, pos as int));
            assert forall|j: int| 0 <= j < s2.len() implies #[trigger] self.hub_wf_at(j) by {
                assert(old(self).hub_wf_at(j));
                assert(j < s0.len() <= usize::MAX);
                let h0 = s0[j];
                let h2 = s2[j];
                if j == ci {
                    assert(h2.parent_of() is None);
                    assert(h2.children_of() == h0.children_of());
                    assert forall|kk: int|
                        0 <= kk < h2.children_of().len() implies (h2.children_of()[kk] as int)
                        < s2.len() && s2[h2.children_of()[kk] as int].parent_of() == Some(
                        child,
                    ) by {
                        let cidx = h0.children_of()[kk] as int;
                        assert(s0[cidx].parent_of() == Some(child));
                        assert(cidx != ci);
                        assert(cidx != pi) by {
                            if cidx == pi {
                                assert(s0[pi].parent_of() == Some(child));
                                assert(old(self).hub_wf_at(pi));
                                assert(s0[pi].spec_scope().spec_level() < s0[
                                    ci
                                ].spec_scope().spec_level());
                            }
                        }
                        assert(s2[cidx] == s0[cidx]);
                    }
                } else if j == pi {
                    assert(h2.parent_of() == h0.parent_of());
                    assert forall|kk: int|
                        0 <= kk < h2.children_of().len() implies (h2.children_of()[kk] as int)
                        < s2.len() && s2[h2.children_of()[kk] as int].parent_of() == Some(
                        parent,
                    ) by {
                        let kk0: int = if kk < pos { kk } else { kk + 1 };
                        assert(h2.children_of()[kk] == h0.children_of()[kk0]);
                        let cidx = h0.children_of()[kk0] as int;
                        assert(s0[cidx].parent_of() == Some(parent));
                        assert(cidx != ci) by {
                            if cidx == ci {
                                assert(h0.children_of()[kk0] == child);
                                assert(h0.children_of()[pos as int] == child);
                            }
                        }
                        if cidx == pi {
                            assert(s2[pi].parent_of() == s0[pi].parent_of());
                        } else {
                            assert(s2[cidx] == s0[cidx]);
                        }
                    }
                    assert forall|k1: int, k2: int|
                        0 <= k1 < k2 < h2.children_of().len() implies h2.children_of()[k1]
                        != h2.children_of()[k2] by {
                        let k10: int = if k1 < pos { k1 } else { k1 + 1 };
                        let k20: int = if k2 < pos { k2 } else { k2 + 1 };
                        assert(h2.children_of()[k1] == h0.children_of()[k10]);
                        assert(h2.children_of()[k2] == h0.children_of()[k20]);
                    }
                    match h0.parent_of() {
                        Some(gp) => {
                            assert(s0[gp as int].children_of().contains(parent));
                            if gp as int == ci {
                                assert(s2[ci].children_of() == s0[ci].children_of());
                            } else if gp as int == pi {
                                assert(s0[pi].parent_of() == Some(parent));
                            } else {
                                assert(s2[gp as int] == s0[gp as int]);
                            }
                        },
                        None => {},
                    }
                } else {
                    assert(h2 == h0);
                    match h0.parent_of() {
                        Some(q) => {
                            if q as int == ci {
                                assert(s2[ci].children_of() == s0[ci].children_of());
                                assert(s2[ci].spec_scope() == s0[ci].spec_scope());
                            } else if q as int == pi {
                                assert(q as usize != child);
                                assert(s0[pi].children_of().contains(j as usize));
                                let w = choose|w: int|
                                    0 <= w < s0[pi].children_of().len() && s0[
                                        pi
                                    ].children_of()[w] == j as usize;
                                assert(w != pos) by {
                                    if w == pos {
                                        assert(s0[pi].children_of()[pos as int] == child);
                                        assert(j as usize == child);
                                        assert(j == ci);
                                    }
                                }
                                let w2: int = if w < pos { w } else { w - 1 };
                                assert(s2[pi].children_of()[w2] == s0[pi].children_of()[w]);
                                assert(s2[pi].children_of().contains(j as usize));
                                assert(s2[pi].spec_scope() == s0[pi].spec_scope());
                            } else {
                                assert(s2[q as int] == s0[q as int]);
                            }
                        },
                        None => {},
                    }
                    assert forall|kk: int|
                        0 <= kk < h2.children_of().len() implies (h2.children_of()[kk] as int)
                        < s2.len() && s2[h2.children_of()[kk] as int].parent_of() == Some(
                        j as usize,
                    ) by {
                        let cidx = h0.children_of()[kk] as int;
                        assert(s0[cidx].parent_of() == Some(j as usize));
                        assert(cidx != ci) by {
                            if cidx == ci {
                                assert(s0[ci].parent_of() == Some(j as usize));
                                assert(j == pi);
                            }
                        }
                        if cidx == pi {
                            assert(s2[pi].parent_of() == s0[pi].parent_of());
                        } else {
                            assert(s2[cidx] == s0[cidx]);
                        }
                    }
                }
            }
        }
        true
    }
}

} // verus!
