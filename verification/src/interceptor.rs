use vstd::prelude::*;
use vstd::string::*;

use crate::types::ApiInterceptorRule;
use crate::types::ApiRequest;
use crate::types::ApiResponse;
use crate::types::Interceptor;
use crate::types::Message;
use crate::types::MessageRule;
use crate::types::MethodRule;
use crate::types::MsgV;
use crate::types::Payload;
use crate::types::ReqV;
use crate::types::RespV;
use crate::types::apply_api_rule;
use crate::types::apply_message_rule;
use crate::types::apply_method_rule;
use crate::types::opt_resp_view;
use crate::utils::decimal_string;
use crate::utils::spec_decimal;

verus! {

/// Whether a trailing-`*` pattern matches a path or topic: the
/// pattern's body (everything before the `*`) must be a prefix.
pub open spec fn pattern_matches(pattern: Seq<char>, topic: Seq<char>) -> bool {
    &&& pattern.len() > 0
    &&& pattern.last() == '*'
    &&& topic.len() >= pattern.len() - 1
    &&& topic.take(pattern.len() - 1) == pattern.drop_last()
}

/// A chain is ordered by descending priority; ties keep registration
/// order.
pub open spec fn chain_sorted<H>(c: Seq<Interceptor<H>>) -> bool {
    forall|i: int, j: int| 0 <= i < j < c.len() ==> c[i].priority >= c[j].priority
}

/// A pattern-keyed table: unique keys, ordered by descending pattern
/// length (so longer wildcard prefixes are tried first), non-empty
/// buckets, each chain priority-ordered.
pub open spec fn pattern_table_wf<H>(t: Seq<(String, Vec<Interceptor<H>>)>) -> bool {
    &&& forall|i: int, j: int| 0 <= i < j < t.len() ==> t[i].0@ != t[j].0@
    &&& forall|i: int, j: int|
        0 <= i < j < t.len() ==> (#[trigger] t[i].0)@.len() >= (#[trigger] t[j].0)@.len()
    &&& forall|i: int| 0 <= i < t.len() ==> (#[trigger] t[i].1)@.len() >= 1
    &&& forall|i: int| 0 <= i < t.len() ==> chain_sorted((#[trigger] t[i].1)@)
}

/// All rules stored in an API interceptor table are well-formed.
pub open spec fn api_table_rules_wf(t: Seq<(String, Vec<Interceptor<ApiInterceptorRule>>)>) -> bool {
    forall|i: int, j: int|
        0 <= i < t.len() && 0 <= j < t[i].1@.len() ==> (#[trigger] t[i].1@[j]).handler.wf()
}

/// Where a new entry of priority `p` goes in a chain: after every
/// entry of priority at least `p`, before the first strictly smaller.
pub open spec fn chain_insert_pos<H>(c: Seq<Interceptor<H>>, p: i32) -> int
    decreases c.len(),
{
    if c.len() == 0 {
        0
    } else if c[0].priority < p {
        0
    } else {
        1 + chain_insert_pos(c.drop_first(), p)
    }
}

/// Where a new bucket whose pattern has length `l` goes in a table:
/// after every bucket with a pattern at least as long.
pub open spec fn bucket_insert_pos<H>(t: Seq<(String, Vec<Interceptor<H>>)>, l: nat) -> int
    decreases t.len(),
{
    if t.len() == 0 {
        0
    } else if t[0].0@.len() < l {
        0
    } else {
        1 + bucket_insert_pos(t.drop_first(), l)
    }
}

proof fn lemma_chain_insert_pos_at<H>(c: Seq<Interceptor<H>>, p: i32, k: int)
    requires
        0 <= k <= c.len(),
        forall|j: int| 0 <= j < k ==> (#[trigger] c[j]).priority >= p,
        k == c.len() || c[k].priority < p,
    ensures
        chain_insert_pos(c, p) == k,
    decreases k,
{
    if k > 0 {
        lemma_chain_insert_pos_at(c.drop_first(), p, k - 1);
    }
}

proof fn lemma_bucket_insert_pos_at<H>(t: Seq<(String, Vec<Interceptor<H>>)>, l: nat, k: int)
    requires
        0 <= k <= t.len(),
        forall|j: int| 0 <= j < k ==> (#[trigger] t[j].0)@.len() >= l,
        k == t.len() || t[k].0@.len() < l,
    ensures
        bucket_insert_pos(t, l) == k,
    decreases k,
{
    if k > 0 {
        lemma_bucket_insert_pos_at(t.drop_first(), l, k - 1);
    }
}

/// In a priority-ordered chain, an entry of strictly greater priority
/// stands strictly earlier, so it is offered the request first.
pub proof fn lemma_priority_order<H>(c: Seq<Interceptor<H>>, i: int, j: int)
    requires
        chain_sorted(c),
        0 <= i < c.len(),
        0 <= j < c.len(),
        c[i].priority > c[j].priority,
    ensures
        i < j,
{
}

/// The first response produced by a chain run in order, if any.
pub open spec fn spec_run_api_chain(c: Seq<Interceptor<ApiInterceptorRule>>, req: ReqV) -> Option<
    RespV,
>
    decreases c.len(),
{
    if c.len() == 0 {
        None
    } else {
        match c[0].handler.spec_apply(req) {
            Some(r) => Some(r),
            None => spec_run_api_chain(c.drop_first(), req),
        }
    }
}

/// The chain registered under exactly `path`, or the empty chain.
pub open spec fn spec_exact_chain<H>(t: Seq<(String, Vec<Interceptor<H>>)>, path: Seq<char>) -> Seq<
    Interceptor<H>,
>
    decreases t.len(),
{
    if t.len() == 0 {
        Seq::empty()
    } else if t[0].0@ == path {
        t[0].1@
    } else {
        spec_exact_chain(t.drop_first(), path)
    }
}

/// Run the chains of every wildcard bucket that matches `req.path`,
/// in table order, and keep the first response.
pub open spec fn spec_run_api_wildcards(
    t: Seq<(String, Vec<Interceptor<ApiInterceptorRule>>)>,
    req: ReqV,
) -> Option<RespV>
    decreases t.len(),
{
    if t.len() == 0 {
        None
    } else if pattern_matches(t[0].0@, req.path) {
        match spec_run_api_chain(t[0].1@, req) {
            Some(r) => Some(r),
            None => spec_run_api_wildcards(t.drop_first(), req),
        }
    } else {
        spec_run_api_wildcards(t.drop_first(), req)
    }
}

/// Interception of a request: the exact chain for its path runs
/// first; then each matching wildcard bucket, longest pattern first.
/// The first rule that fires wins.
pub open spec fn spec_try_intercept_api(
    t: Seq<(String, Vec<Interceptor<ApiInterceptorRule>>)>,
    req: ReqV,
) -> Option<RespV> {
    match spec_run_api_chain(spec_exact_chain(t, req.path), req) {
        Some(r) => Some(r),
        None => spec_run_api_wildcards(t, req),
    }
}

/// The first value produced by a message chain run in order, if any.
pub open spec fn spec_run_msg_chain(c: Seq<Interceptor<MessageRule>>, msg: MsgV) -> Option<Payload>
    decreases c.len(),
{
    if c.len() == 0 {
        None
    } else {
        match c[0].handler.spec_apply(msg) {
            Some(r) => Some(r),
            None => spec_run_msg_chain(c.drop_first(), msg),
        }
    }
}

/// Run the chains of every wildcard bucket that matches the topic.
pub open spec fn spec_run_msg_wildcards(
    t: Seq<(String, Vec<Interceptor<MessageRule>>)>,
    msg: MsgV,
) -> Option<Payload>
    decreases t.len(),
{
    if t.len() == 0 {
        None
    } else if pattern_matches(t[0].0@, msg.topic) {
        match spec_run_msg_chain(t[0].1@, msg) {
            Some(r) => Some(r),
            None => spec_run_msg_wildcards(t.drop_first(), msg),
        }
    } else {
        spec_run_msg_wildcards(t.drop_first(), msg)
    }
}

/// Interception of a message: exact chain, then matching wildcard
/// buckets, longest pattern first; the first rule that fires wins.
pub open spec fn spec_try_intercept_message(
    t: Seq<(String, Vec<Interceptor<MessageRule>>)>,
    msg: MsgV,
) -> Option<Payload> {
    match spec_run_msg_chain(spec_exact_chain(t, msg.topic), msg) {
        Some(r) => Some(r),
        None => spec_run_msg_wildcards(t, msg),
    }
}

/// A method-interceptor table: keyed by (type tag, method name).
pub open spec fn method_table_wf(t: Seq<((String, String), Vec<Interceptor<MethodRule>>)>) -> bool {
    &&& forall|i: int, j: int|
        0 <= i < j < t.len() ==> !((#[trigger] t[i].0).0@ == (#[trigger] t[j].0).0@ && t[i].0.1@
            == t[j].0.1@)
    &&& forall|i: int| 0 <= i < t.len() ==> (#[trigger] t[i].1)@.len() >= 1
    &&& forall|i: int| 0 <= i < t.len() ==> chain_sorted((#[trigger] t[i].1)@)
}

/// The chain registered for a (type tag, method name) pair.
pub open spec fn spec_method_chain(
    t: Seq<((String, String), Vec<Interceptor<MethodRule>>)>,
    tag: Seq<char>,
    method: Seq<char>,
) -> Seq<Interceptor<MethodRule>>
    decreases t.len(),
{
    if t.len() == 0 {
        Seq::empty()
    } else if t[0].0.0@ == tag && t[0].0.1@ == method {
        t[0].1@
    } else {
        spec_method_chain(t.drop_first(), tag, method)
    }
}

/// The first value produced by a method chain, if any.
pub open spec fn spec_run_method_chain(c: Seq<Interceptor<MethodRule>>, args: Payload) -> Option<
    Payload,
>
    decreases c.len(),
{
    if c.len() == 0 {
        None
    } else {
        match c[0].handler.spec_apply(args) {
            Some(r) => Some(r),
            None => spec_run_method_chain(c.drop_first(), args),
        }
    }
}

/// How a pattern table changes when `icep` is registered under
/// `pattern`: either the existing bucket gains the entry at its
/// priority position, or a new single-entry bucket appears at the
/// position its pattern length calls for.
pub open spec fn pattern_table_registered<H>(
    t0: Seq<(String, Vec<Interceptor<H>>)>,
    t1: Seq<(String, Vec<Interceptor<H>>)>,
    pattern: String,
    icep: Interceptor<H>,
) -> bool {
    if exists|b: int| 0 <= b < t0.len() && (#[trigger] t0[b].0)@ == pattern@ {
        let b = choose|b: int| 0 <= b < t0.len() && (#[trigger] t0[b].0)@ == pattern@;
        &&& t1.len() == t0.len()
        &&& (forall|i: int| 0 <= i < t0.len() && i != b ==> t1[i] == t0[i])
        &&& t1[b].0 == t0[b].0
        &&& t1[b].1@ == t0[b].1@.insert(chain_insert_pos(t0[b].1@, icep.priority), icep)
    } else {
        let b = bucket_insert_pos(t0, pattern@.len());
        &&& t1.len() == t0.len() + 1
        &&& (forall|i: int| 0 <= i < b ==> t1[i] == t0[i])
        &&& (forall|i: int| b < i < t1.len() ==> t1[i] == t0[i - 1])
        &&& t1[b].0 == pattern
        &&& t1[b].1@ == seq![icep]
    }
}

/// Whether a trailing-`*` pattern matches a path or topic.
pub fn wildcard_matches(pattern: &String, topic: &String) -> (r: bool)
    ensures
        r == pattern_matches(pattern@, topic@),
{
    let pl = pattern.as_str().unicode_len();
    if pl == 0 {
        return false;
    }
    if pattern.as_str().get_char(pl - 1) != '*' {
        return false;
    }
    let tl = topic.as_str().unicode_len();
    if tl < pl - 1 {
        return false;
    }
    let mut i: usize = 0;
    while i < pl - 1
        invariant
            pl == pattern@.len(),
            tl == topic@.len(),
            pl >= 1,
            tl >= pl - 1,
            i <= pl - 1,
            forall|j: int| 0 <= j < i ==> topic@[j] == pattern@[j],
        decreases pl - i,
    {
        if topic.as_str().get_char(i) != pattern.as_str().get_char(i) {
            proof {
                let ii = i as int;
                assert(topic@.take(pattern@.len() - 1)[ii] != pattern@.drop_last()[ii]);
            }
            return false;
        }
        i = i + 1;
    }
    proof {
        assert(topic@.take(pattern@.len() - 1) =~= pattern@.drop_last());
    }
    true
}

fn chain_position<H>(chain: &Vec<Interceptor<H>>, priority: i32) -> (pos: usize)
    ensures
        pos as int == chain_insert_pos(chain@, priority),
        pos <= chain@.len(),
{
    let mut i: usize = 0;
    while i < chain.len()
        invariant
            i <= chain@.len(),
            forall|j: int| 0 <= j < i ==> (#[trigger] chain@[j]).priority >= priority,
        decreases chain@.len() - i,
    {
        if chain[i].priority < priority {
            proof {
                lemma_chain_insert_pos_at(chain@, priority, i as int);
            }
            return i;
        }
        i = i + 1;
    }
    proof {
        lemma_chain_insert_pos_at(chain@, priority, chain@.len() as int);
    }
    chain.len()
}

fn find_bucket<H>(t: &Vec<(String, Vec<Interceptor<H>>)>, pattern: &String) -> (r: Option<usize>)
    ensures
        (match r {
            Some(b) => b < t@.len() && t@[b as int].0@ == pattern@,
            None => forall|i: int| 0 <= i < t@.len() ==> (#[trigger] t@[i].0)@ != pattern@,
        }),
{
    let mut i: usize = 0;
    while i < t.len()
        invariant
            i <= t@.len(),
            forall|j: int| 0 <= j < i ==> (#[trigger] t@[j].0)@ != pattern@,
        decreases t@.len() - i,
    {
        if t[i].0 == *pattern {
            return Some(i);
        }
        i = i + 1;
    }
    None
}

fn insert_into_pattern_table<H>(
    t: &mut Vec<(String, Vec<Interceptor<H>>)>,
    pattern: String,
    icep: Interceptor<H>,
)
    requires
        pattern_table_wf(old(t)@),
    ensures
        pattern_table_wf(final(t)@),
        pattern_table_registered(old(t)@, final(t)@, pattern, icep),
{
    let ghost t0 = t@;
    match find_bucket(t, &pattern) {
        Some(b) => {
            let mut pair = t.remove(b);
            let pos = chain_position(&pair.1, icep.priority);
            let ghost c0 = pair.1@;
            let ghost p = icep.priority;
            pair.1.insert(pos, icep);
            proof {
                assert forall|i: int, j: int|
                    0 <= i < j < pair.1@.len() implies pair.1@[i].priority
                    >= pair.1@[j].priority by {
                    assert(chain_sorted(c0));
                    if i < pos && j < pos {
                        assert(pair.1@[i] == c0[i] && pair.1@[j] == c0[j]);
                    } else if i < pos && j == pos {
                        assert(pair.1@[i] == c0[i]);
                        lemma_chain_pos_ge(c0, p, i);
                    } else if i < pos && j > pos {
                        assert(pair.1@[i] == c0[i] && pair.1@[j] == c0[j - 1]);
                    } else if i == pos {
                        assert(pair.1@[j] == c0[j - 1]);
                        lemma_chain_pos_lt(c0, p, j - 1);
                    } else {
                        assert(pair.1@[i] == c0[i - 1] && pair.1@[j] == c0[j - 1]);
                    }
                }
            }
            t.insert(b, pair);
            proof {
                assert(t@ =~= t0.update(b as int, t@[b as int]));
                assert(forall|i: int| 0 <= i < t0.len() && i != b ==> t@[i] == t0[i]);
                assert(pattern_table_wf(t@));
            }
        },
        None => {
            let ghost l = pattern@.len();
            let b = bucket_position(t, &pattern);
            let mut chain: Vec<Interceptor<H>> = Vec::new();
            chain.push(icep);
            t.insert(b, (pattern, chain));
            proof {
                assert(chain@ =~= seq![icep]);
                assert forall|i: int, j: int|
                    0 <= i < j < t@.len() implies (#[trigger] t@[i].0)@.len()
                    >= (#[trigger] t@[j].0)@.len() by {
                    if i < b && j == b {
                        lemma_bucket_pos_ge(t0, l, i);
                    } else if i == b && j > b {
                        lemma_bucket_pos_lt(t0, l, j - 1);
                    }
                }
                assert forall|i: int, j: int|
                    0 <= i < j < t@.len() implies (#[trigger] t@[i].0)@ != (
                    #[trigger] t@[j].0)@ by {
                    if i == b {
                        assert(t@[j] == t0[j - 1]);
                    } else if j == b {
                        assert(t@[i] == t0[i]);
                    }
                }
                assert(pattern_table_wf(t@));
            }
        },
    }
}

proof fn lemma_chain_pos_ge<H>(c: Seq<Interceptor<H>>, p: i32, i: int)
    requires
        0 <= i < chain_insert_pos(c, p),
        chain_insert_pos(c, p) <= c.len(),
    ensures
        c[i].priority >= p,
    decreases c.len(),
{
    if i > 0 {
        lemma_chain_pos_ge(c.drop_first(), p, i - 1);
    }
}

proof fn lemma_chain_pos_bounds<H>(c: Seq<Interceptor<H>>, p: i32)
    ensures
        0 <= chain_insert_pos(c, p) <= c.len(),
    decreases c.len(),
{
    if c.len() > 0 && c[0].priority >= p {
        lemma_chain_pos_bounds(c.drop_first(), p);
    }
}

proof fn lemma_chain_pos_elem<H>(c: Seq<Interceptor<H>>, p: i32)
    requires
        chain_insert_pos(c, p) < c.len(),
    ensures
        0 <= chain_insert_pos(c, p),
        c[chain_insert_pos(c, p)].priority < p,
    decreases c.len(),
{
    if c.len() > 0 && c[0].priority >= p {
        lemma_chain_pos_bounds(c.drop_first(), p);
        lemma_chain_pos_elem(c.drop_first(), p);
    }
}

proof fn lemma_chain_pos_lt<H>(c: Seq<Interceptor<H>>, p: i32, i: int)
    requires
        chain_sorted(c),
        chain_insert_pos(c, p) <= i < c.len(),
    ensures
        c[i].priority < p,
{
    lemma_chain_pos_elem(c, p);
    let pos = chain_insert_pos(c, p);
    if i > pos {
        assert(c[i].priority <= c[pos].priority);
    }
}

proof fn lemma_bucket_pos_ge<H>(t: Seq<(String, Vec<Interceptor<H>>)>, l: nat, i: int)
    requires
        0 <= i < bucket_insert_pos(t, l),
        bucket_insert_pos(t, l) <= t.len(),
    ensures
        t[i].0@.len() >= l,
    decreases t.len(),
{
    if i > 0 {
        lemma_bucket_pos_ge(t.drop_first(), l, i - 1);
    }
}

proof fn lemma_bucket_pos_bounds<H>(t: Seq<(String, Vec<Interceptor<H>>)>, l: nat)
    ensures
        0 <= bucket_insert_pos(t, l) <= t.len(),
    decreases t.len(),
{
    if t.len() > 0 && t[0].0@.len() >= l {
        lemma_bucket_pos_bounds(t.drop_first(), l);
    }
}

proof fn lemma_bucket_pos_elem<H>(t: Seq<(String, Vec<Interceptor<H>>)>, l: nat)
    requires
        bucket_insert_pos(t, l) < t.len(),
    ensures
        0 <= bucket_insert_pos(t, l),
        t[bucket_insert_pos(t, l)].0@.len() < l,
    decreases t.len(),
{
    if t.len() > 0 && t[0].0@.len() >= l {
        lemma_bucket_pos_bounds(t.drop_first(), l);
        lemma_bucket_pos_elem(t.drop_first(), l);
    }
}

proof fn lemma_bucket_pos_lt<H>(t: Seq<(String, Vec<Interceptor<H>>)>, l: nat, i: int)
    requires
        forall|a: int, b: int|
            0 <= a < b < t.len() ==> (#[trigger] t[a].0)@.len() >= (#[trigger] t[b].0)@.len(),
        bucket_insert_pos(t, l) <= i < t.len(),
    ensures
        t[i].0@.len() < l,
{
    lemma_bucket_pos_elem(t, l);
    let pos = bucket_insert_pos(t, l);
    if i > pos {
        assert(t[i].0@.len() <= t[pos].0@.len());
    }
}

fn bucket_position<H>(t: &Vec<(String, Vec<Interceptor<H>>)>, pattern: &String) -> (pos: usize)
    ensures
        pos as int == bucket_insert_pos(t@, pattern@.len()),
        pos <= t@.len(),
{
    let pl = pattern.as_str().unicode_len();
    let mut i: usize = 0;
    while i < t.len()
        invariant
            pl == pattern@.len(),
            i <= t@.len(),
            forall|j: int| 0 <= j < i ==> (#[trigger] t@[j].0)@.len() >= pl,
        decreases t@.len() - i,
    {
        if t[i].0.as_str().unicode_len() < pl {
            proof {
                lemma_bucket_insert_pos_at(t@, pattern@.len(), i as int);
            }
            return i;
        }
        i = i + 1;
    }
    proof {
        lemma_bucket_insert_pos_at(t@, pattern@.len(), t@.len() as int);
    }
    t.len()
}

/// Manager of the three interceptor tables: request paths, topics and
/// method calls.
#[derive(Debug)]
pub struct InterceptorManager {
    api_interceptors: Vec<(String, Vec<Interceptor<ApiInterceptorRule>>)>,
    message_interceptors: Vec<(String, Vec<Interceptor<MessageRule>>)>,
    method_interceptors: Vec<((String, String), Vec<Interceptor<MethodRule>>)>,
    next_id: u64,
}

impl InterceptorManager {
    /// The request-path interceptor table.
    pub closed spec fn api_table(self) -> Seq<(String, Vec<Interceptor<ApiInterceptorRule>>)> {
        self.api_interceptors@
    }

    /// The topic interceptor table.
    pub closed spec fn message_table(self) -> Seq<(String, Vec<Interceptor<MessageRule>>)> {
        self.message_interceptors@
    }

    /// The method-call interceptor table.
    pub closed spec fn method_table(self) -> Seq<((String, String), Vec<Interceptor<MethodRule>>)> {
        self.method_interceptors@
    }

    /// How many identifiers have been minted.
    pub closed spec fn counter(self) -> u64 {
        self.next_id
    }

    /// Well-formed manager.
    pub open spec fn wf(self) -> bool {
        &&& pattern_table_wf(self.api_table())
        &&& api_table_rules_wf(self.api_table())
        &&& pattern_table_wf(self.message_table())
        &&& method_table_wf(self.method_table())
    }

    pub fn new() -> (r: InterceptorManager)
        ensures
            r.wf(),
            r.api_table().len() == 0,
            r.message_table().len() == 0,
            r.method_table().len() == 0,
            r.counter() == 0,
    {
        InterceptorManager {
            api_interceptors: Vec::new(),
            message_interceptors: Vec::new(),
            method_interceptors: Vec::new(),
            next_id: 0,
        }
    }

    /// Register a topic interceptor; returns its identifier.
    pub fn register(&mut self, topic: String, handler: MessageRule, priority: i32) -> (id: String)
        requires
            old(self).wf(),
            old(self).counter() < u64::MAX,
        ensures
            final(self).wf(),
            id@ == spec_decimal(old(self).counter() as nat),
            final(self).counter() == old(self).counter() + 1,
            final(self).api_table() == old(self).api_table(),
            final(self).method_table() == old(self).method_table(),
            pattern_table_registered(
                old(self).message_table(),
                final(self).message_table(),
                topic,
                (Interceptor { id, priority, handler }),
            ),
    {
        let id = decimal_string(self.next_id);
        self.next_id = self.next_id + 1;
        let icep = Interceptor { id: id.clone(), priority, handler };
        insert_into_pattern_table(&mut self.message_interceptors, topic, icep);
        id
    }

    /// Register a request-path interceptor; returns its identifier.
    pub fn register_api_interceptor(
        &mut self,
        path: String,
        handler: ApiInterceptorRule,
        priority: i32,
    ) -> (id: String)
        requires
            old(self).wf(),
            old(self).counter() < u64::MAX,
            handler.wf(),
        ensures
            final(self).wf(),
            id@ == spec_decimal(old(self).counter() as nat),
            final(self).counter() == old(self).counter() + 1,
            final(self).message_table() == old(self).message_table(),
            final(self).method_table() == old(self).method_table(),
            pattern_table_registered(
                old(self).api_table(),
                final(self).api_table(),
                path,
                (Interceptor { id, priority, handler }),
            ),
    {
        let id = decimal_string(self.next_id);
        self.next_id = self.next_id + 1;
        let icep = Interceptor { id: id.clone(), priority, handler };
        let ghost t0 = self.api_interceptors@;
        let ghost icepg = icep;
        let ghost pathg = path;
        insert_into_pattern_table(&mut self.api_interceptors, path, icep);
        proof {
            let t1 = self.api_interceptors@;
            assert(pattern_table_registered(t0, t1, pathg, icepg));
            assert forall|i: int, j: int|
                0 <= i < t1.len() && 0 <= j < t1[i].1@.len() implies (
            #[trigger] t1[i].1@[j]).handler.wf() by {
                lemma_registered_rules_wf(t0, t1, icepg, i, j);
            }
        }
        id
    }

    /// Register a method-call interceptor for a (type tag, method
    /// name) pair; returns its identifier.
    pub fn register_method_interceptor(
        &mut self,
        type_tag: String,
        method_name: String,
        handler: MethodRule,
        priority: i32,
    ) -> (id: String)
        requires
            old(self).wf(),
            old(self).counter() < u64::MAX,
        ensures
            final(self).wf(),
            id@ == spec_decimal(old(self).counter() as nat),
            final(self).counter() == old(self).counter() + 1,
            final(self).api_table() == old(self).api_table(),
            final(self).message_table() == old(self).message_table(),
            spec_method_chain(final(self).method_table(), type_tag@, method_name@)
                == spec_method_chain(old(self).method_table(), type_tag@, method_name@).insert(
                chain_insert_pos(
                    spec_method_chain(old(self).method_table(), type_tag@, method_name@),
                    priority,
                ),
                (Interceptor { id, priority, handler }),
            ),
    {
        let id = decimal_string(self.next_id);
        self.next_id = self.next_id + 1;
        let icep = Interceptor { id: id.clone(), priority, handler };
        let ghost t0 = self.method_interceptors@;
        let ghost icepg = icep;
        let ghost tagv = type_tag@;
        let ghost methodv = method_name@;
        let b = find_method_bucket(&self.method_interceptors, &type_tag, &method_name);
        match b {
            Some(b) => {
                proof {
                    lemma_method_chain_at(t0, tagv, methodv, b as int);
                }
                let mut pair = self.method_interceptors.remove(b);
                let pos = chain_position(&pair.1, icep.priority);
                let ghost c0 = pair.1@;
                let ghost p = icepg.priority;
                pair.1.insert(pos, icep);
                proof {
                    assert forall|i: int, j: int|
                        0 <= i < j < pair.1@.len() implies pair.1@[i].priority
                        >= pair.1@[j].priority by {
                        assert(chain_sorted(c0));
                        if i < pos && j < pos {
                            assert(pair.1@[i] == c0[i] && pair.1@[j] == c0[j]);
                        } else if i < pos && j == pos {
                            assert(pair.1@[i] == c0[i]);
                            lemma_chain_pos_ge(c0, p, i);
                        } else if i < pos && j > pos {
                            assert(pair.1@[i] == c0[i] && pair.1@[j] == c0[j - 1]);
                        } else if i == pos {
                            assert(pair.1@[j] == c0[j - 1]);
                            lemma_chain_pos_lt(c0, p, j - 1);
                        } else {
                            assert(pair.1@[i] == c0[i - 1] && pair.1@[j] == c0[j - 1]);
                        }
                    }
                }
                let ghost bi = b as int;
                self.method_interceptors.insert(b, pair);
                proof {
                    assert(self.method_interceptors@ =~= t0.update(
                        bi,
                        self.method_interceptors@[bi],
                    ));
                    lemma_method_chain_update(t0, self.method_interceptors@, bi, tagv, methodv);
                    assert(method_table_wf(self.method_interceptors@));
                }
            },
            None => {
                let mut chain: Vec<Interceptor<MethodRule>> = Vec::new();
                chain.push(icep);
                let ghost n0 = t0.len() as int;
                self.method_interceptors.push(((type_tag, method_name), chain));
                proof {
                    let t1 = self.method_interceptors@;
                    assert(t1.drop_last() =~= t0);
                    assert(forall|i: int| 0 <= i < t0.len() ==> t1[i] == t0[i]);
                    lemma_method_chain_absent(t0, tagv, methodv);
                    assert(t1.last().0.0@ == tagv && t1.last().0.1@ == methodv);
                    lemma_method_chain_last(t1, tagv, methodv);
                    assert(chain_insert_pos(Seq::<Interceptor<MethodRule>>::empty(), priority)
                        == 0);
                    assert(t1[n0].1@ =~= Seq::<Interceptor<MethodRule>>::empty().insert(
                        0,
                        icepg,
                    ));
                    assert forall|i: int, j: int|
                        0 <= i < j < t1.len() implies !((#[trigger] t1[i].0).0@ == (
                    #[trigger] t1[j].0).0@ && t1[i].0.1@ == t1[j].0.1@) by {
                        if j < t1.len() - 1 {
                            assert(t1[i] == t0[i] && t1[j] == t0[j]);
                        } else {
                            assert(t1[i] == t0[i]);
                        }
                    }
                    assert(method_table_wf(t1));
                }
            },
        }
        id
    }


    /// Offer `request` to the request-path interceptors: exact chain
    /// first, then matching wildcard buckets, longest pattern first;
    /// within a chain, descending priority. The first rule to fire
    /// supplies the response.
    pub fn try_intercept_api_request(&self, request: &ApiRequest) -> (r: Option<ApiResponse>)
        requires
            self.wf(),
            request.wf(),
        ensures
            opt_resp_view(r) == spec_try_intercept_api(self.api_table(), request@),
            r matches Some(x) ==> x.wf(),
    {
        let ghost t = self.api_interceptors@;
        match find_bucket(&self.api_interceptors, &request.path) {
            Some(b) => {
                proof {
                    lemma_exact_chain_at(t, request.path@, b as int);
                }
                let r = run_api_chain(&self.api_interceptors[b].1, request);
                if r.is_some() {
                    return r;
                }
            },
            None => {
                proof {
                    lemma_exact_chain_absent(t, request.path@);
                }
            },
        }
        let mut i: usize = 0;
        proof {
            assert(t.skip(0) =~= t);
        }
        while i < self.api_interceptors.len()
            invariant
                self.wf(),
                request.wf(),
                t == self.api_interceptors@,
                i <= t.len(),
                spec_run_api_chain(spec_exact_chain(t, request@.path), request@) is None,
                spec_run_api_wildcards(t, request@) == spec_run_api_wildcards(
                    t.skip(i as int),
                    request@,
                ),
            decreases t.len() - i,
        {
            let ghost rest = t.skip(i as int);
            proof {
                assert(rest[0] == t[i as int]);
            }
            if wildcard_matches(&self.api_interceptors[i].0, &request.path) {
                let r = run_api_chain(&self.api_interceptors[i].1, request);
                if r.is_some() {
                    return r;
                }
            }
            proof {
                assert(rest.drop_first() =~= t.skip(i + 1));
            }
            i = i + 1;
        }
        None
    }

    /// Offer `message` to the topic interceptors; same order as for
    /// request paths.
    pub fn try_intercept_message(&self, message: &Message) -> (r: Option<Payload>)
        requires
            self.wf(),
            message.wf(),
        ensures
            r == spec_try_intercept_message(self.message_table(), message@),
    {
        let ghost t = self.message_interceptors@;
        match find_bucket(&self.message_interceptors, &message.topic) {
            Some(b) => {
                proof {
                    lemma_exact_chain_at(t, message.topic@, b as int);
                }
                let r = run_msg_chain(&self.message_interceptors[b].1, message);
                if r.is_some() {
                    return r;
                }
            },
            None => {
                proof {
                    lemma_exact_chain_absent(t, message.topic@);
                }
            },
        }
        let mut i: usize = 0;
        proof {
            assert(t.skip(0) =~= t);
        }
        while i < self.message_interceptors.len()
            invariant
                self.wf(),
                message.wf(),
                t == self.message_interceptors@,
                i <= t.len(),
                spec_run_msg_chain(spec_exact_chain(t, message@.topic), message@) is None,
                spec_run_msg_wildcards(t, message@) == spec_run_msg_wildcards(
                    t.skip(i as int),
                    message@,
                ),
            decreases t.len() - i,
        {
            let ghost rest = t.skip(i as int);
            proof {
                assert(rest[0] == t[i as int]);
            }
            if wildcard_matches(&self.message_interceptors[i].0, &message.topic) {
                let r = run_msg_chain(&self.message_interceptors[i].1, message);
                if r.is_some() {
                    return r;
                }
            }
            proof {
                assert(rest.drop_first() =~= t.skip(i + 1));
            }
            i = i + 1;
        }
        None
    }

    /// Offer a method call to the method interceptors for its
    /// (type tag, method name) pair, in descending priority.
    pub fn try_intercept_method(
        &self,
        type_tag: &String,
        method_name: &String,
        args: &Payload,
    ) -> (r: Option<Payload>)
        requires
            self.wf(),
        ensures
            r == spec_run_method_chain(
                spec_method_chain(self.method_table(), type_tag@, method_name@),
                *args,
            ),
    {
        let ghost t = self.method_interceptors@;
        match find_method_bucket(&self.method_interceptors, type_tag, method_name) {
            Some(b) => {
                proof {
                    lemma_method_chain_at(t, type_tag@, method_name@, b as int);
                }
                run_method_chain(&self.method_interceptors[b].1, args)
            },
            None => {
                proof {
                    lemma_method_chain_absent(t, type_tag@, method_name@);
                }
                None
            },
        }
    }
}

proof fn lemma_exact_chain_at<H>(t: Seq<(String, Vec<Interceptor<H>>)>, p: Seq<char>, b: int)
    requires
        forall|i: int, j: int| 0 <= i < j < t.len() ==> t[i].0@ != t[j].0@,
        0 <= b < t.len(),
        t[b].0@ == p,
    ensures
        spec_exact_chain(t, p) == t[b].1@,
    decreases t.len(),
{
    if b > 0 {
        lemma_exact_chain_at(t.drop_first(), p, b - 1);
    }
}

proof fn lemma_exact_chain_absent<H>(t: Seq<(String, Vec<Interceptor<H>>)>, p: Seq<char>)
    requires
        forall|i: int| 0 <= i < t.len() ==> (#[trigger] t[i].0)@ != p,
    ensures
        spec_exact_chain(t, p) == Seq::<Interceptor<H>>::empty(),
    decreases t.len(),
{
    if t.len() > 0 {
        lemma_exact_chain_absent(t.drop_first(), p);
    }
}

proof fn lemma_method_chain_at(
    t: Seq<((String, String), Vec<Interceptor<MethodRule>>)>,
    tag: Seq<char>,
    method: Seq<char>,
    b: int,
)
    requires
        0 <= b < t.len(),
        t[b].0.0@ == tag,
        t[b].0.1@ == method,
        forall|i: int, j: int|
            0 <= i < j < t.len() ==> !((#[trigger] t[i].0).0@ == (#[trigger] t[j].0).0@ && t[i].0.1@
                == t[j].0.1@),
    ensures
        spec_method_chain(t, tag, method) == t[b].1@,
    decreases t.len(),
{
    if b > 0 {
        lemma_method_chain_at(t.drop_first(), tag, method, b - 1);
    }
}

proof fn lemma_method_chain_absent(
    t: Seq<((String, String), Vec<Interceptor<MethodRule>>)>,
    tag: Seq<char>,
    method: Seq<char>,
)
    requires
        forall|i: int|
            0 <= i < t.len() ==> !((#[trigger] t[i].0).0@ == tag && t[i].0.1@ == method),
    ensures
        spec_method_chain(t, tag, method) == Seq::<Interceptor<MethodRule>>::empty(),
    decreases t.len(),
{
    if t.len() > 0 {
        lemma_method_chain_absent(t.drop_first(), tag, method);
    }
}

proof fn lemma_method_chain_last(
    t: Seq<((String, String), Vec<Interceptor<MethodRule>>)>,
    tag: Seq<char>,
    method: Seq<char>,
)
    requires
        t.len() >= 1,
        t.last().0.0@ == tag,
        t.last().0.1@ == method,
        forall|i: int|
            0 <= i < t.len() - 1 ==> !((#[trigger] t[i].0).0@ == tag && t[i].0.1@ == method),
    ensures
        spec_method_chain(t, tag, method) == t.last().1@,
    decreases t.len(),
{
    if t.len() > 1 {
        lemma_method_chain_last(t.drop_first(), tag, method);
    }
}

proof fn lemma_method_chain_update(
    t0: Seq<((String, String), Vec<Interceptor<MethodRule>>)>,
    t1: Seq<((String, String), Vec<Interceptor<MethodRule>>)>,
    b: int,
    tag: Seq<char>,
    method: Seq<char>,
)
    requires
        method_table_wf(t0),
        0 <= b < t0.len(),
        t0[b].0.0@ == tag,
        t0[b].0.1@ == method,
        t1.len() == t0.len(),
        forall|i: int| 0 <= i < t0.len() && i != b ==> t1[i] == t0[i],
        t1[b].0 == t0[b].0,
    ensures
        spec_method_chain(t1, tag, method) == t1[b].1@,
        forall|i: int, j: int|
            0 <= i < j < t1.len() ==> !((#[trigger] t1[i].0).0@ == (#[trigger] t1[j].0).0@
                && t1[i].0.1@ == t1[j].0.1@),
{
    assert forall|i: int, j: int|
        0 <= i < j < t1.len() implies !((#[trigger] t1[i].0).0@ == (#[trigger] t1[j].0).0@
        && t1[i].0.1@ == t1[j].0.1@) by {
        assert(t1[i].0 == t0[i].0);
        assert(t1[j].0 == t0[j].0);
    }
    lemma_method_chain_at(t1, tag, method, b);
}

proof fn lemma_registered_rules_wf(
    t0: Seq<(String, Vec<Interceptor<ApiInterceptorRule>>)>,
    t1: Seq<(String, Vec<Interceptor<ApiInterceptorRule>>)>,
    icep: Interceptor<ApiInterceptorRule>,
    i: int,
    j: int,
)
    requires
        api_table_rules_wf(t0),
        icep.handler.wf(),
        exists|pattern: String| pattern_table_registered(t0, t1, pattern, icep),
        0 <= i < t1.len(),
        0 <= j < t1[i].1@.len(),
    ensures
        t1[i].1@[j].handler.wf(),
{
    let pattern = choose|pattern: String| pattern_table_registered(t0, t1, pattern, icep);
    if exists|b: int| 0 <= b < t0.len() && (#[trigger] t0[b].0)@ == pattern@ {
        let b = choose|b: int| 0 <= b < t0.len() && (#[trigger] t0[b].0)@ == pattern@;
        if i == b {
            let c0 = t0[b].1@;
            let pos = chain_insert_pos(c0, icep.priority);
            lemma_chain_pos_bounds(c0, icep.priority);
            if j < pos {
                assert(t1[i].1@[j] == c0[j]);
            } else if j == pos {
                assert(t1[i].1@[j] == icep);
            } else {
                assert(t1[i].1@[j] == c0[j - 1]);
            }
        } else {
            assert(t1[i] == t0[i]);
        }
    } else {
        let b = bucket_insert_pos(t0, pattern@.len());
        lemma_bucket_pos_bounds(t0, pattern@.len());
        if i < b {
            assert(t1[i] == t0[i]);
        } else if i == b {
            assert(t1[i].1@ == seq![icep]);
            assert(t1[i].1@[j] == icep);
        } else {
            assert(t1[i] == t0[i - 1]);
        }
    }
}

fn find_method_bucket(
    t: &Vec<((String, String), Vec<Interceptor<MethodRule>>)>,
    tag: &String,
    method: &String,
) -> (r: Option<usize>)
    ensures
        (match r {
            Some(b) => b < t@.len() && t@[b as int].0.0@ == tag@ && t@[b as int].0.1@ == method@,
            None => forall|i: int|
                0 <= i < t@.len() ==> !((#[trigger] t@[i].0).0@ == tag@ && t@[i].0.1@
                    == method@),
        }),
{
    let mut i: usize = 0;
    while i < t.len()
        invariant
            i <= t@.len(),
            forall|j: int|
                0 <= j < i ==> !((#[trigger] t@[j].0).0@ == tag@ && t@[j].0.1@ == method@),
        decreases t@.len() - i,
    {
        if t[i].0.0 == *tag && t[i].0.1 == *method {
            return Some(i);
        }
        i = i + 1;
    }
    None
}

fn run_api_chain(chain: &Vec<Interceptor<ApiInterceptorRule>>, req: &ApiRequest) -> (r: Option<
    ApiResponse,
>)
    requires
        req.wf(),
        forall|j: int| 0 <= j < chain@.len() ==> (#[trigger] chain@[j]).handler.wf(),
    ensures
        opt_resp_view(r) == spec_run_api_chain(chain@, req@),
        r matches Some(x) ==> x.wf(),
{
    let mut i: usize = 0;
    proof {
        assert(chain@.skip(0) =~= chain@);
    }
    while i < chain.len()
        invariant
            req.wf(),
            forall|j: int| 0 <= j < chain@.len() ==> (#[trigger] chain@[j]).handler.wf(),
            i <= chain@.len(),
            spec_run_api_chain(chain@, req@) == spec_run_api_chain(chain@.skip(i as int), req@),
        decreases chain@.len() - i,
    {
        let ghost rest = chain@.skip(i as int);
        proof {
            assert(rest[0] == chain@[i as int]);
        }
        let r = apply_api_rule(&chain[i].handler, req);
        if r.is_some() {
            return r;
        }
        proof {
            assert(rest.drop_first() =~= chain@.skip(i + 1));
        }
        i = i + 1;
    }
    None
}

fn run_msg_chain(chain: &Vec<Interceptor<MessageRule>>, msg: &Message) -> (r: Option<Payload>)
    requires
        msg.wf(),
    ensures
        r == spec_run_msg_chain(chain@, msg@),
{
    let mut i: usize = 0;
    proof {
        assert(chain@.skip(0) =~= chain@);
    }
    while i < chain.len()
        invariant
            msg.wf(),
            i <= chain@.len(),
            spec_run_msg_chain(chain@, msg@) == spec_run_msg_chain(chain@.skip(i as int), msg@),
        decreases chain@.len() - i,
    {
        let ghost rest = chain@.skip(i as int);
        proof {
            assert(rest[0] == chain@[i as int]);
        }
        let r = apply_message_rule(&chain[i].handler, msg);
        if r.is_some() {
            return r;
        }
        proof {
            assert(rest.drop_first() =~= chain@.skip(i + 1));
        }
        i = i + 1;
    }
    None
}

fn run_method_chain(chain: &Vec<Interceptor<MethodRule>>, args: &Payload) -> (r: Option<Payload>)
    ensures
        r == spec_run_method_chain(chain@, *args),
{
    let mut i: usize = 0;
    proof {
        assert(chain@.skip(0) =~= chain@);
    }
    while i < chain.len()
        invariant
            i <= chain@.len(),
            spec_run_method_chain(chain@, *args) == spec_run_method_chain(
                chain@.skip(i as int),
                *args,
            ),
        decreases chain@.len() - i,
    {
        let ghost rest = chain@.skip(i as int);
        proof {
            assert(rest[0] == chain@[i as int]);
        }
        let r = apply_method_rule(&chain[i].handler, args);
        if r.is_some() {
            return r;
        }
        proof {
            assert(rest.drop_first() =~= chain@.skip(i + 1));
        }
        i = i + 1;
    }
    None
}


/// Whether some entry of the chain carries this identifier.
pub open spec fn chain_has_id<H>(c: Seq<Interceptor<H>>, id: Seq<char>) -> bool {
    exists|i: int| 0 <= i < c.len() && (#[trigger] c[i]).id@ == id
}

/// Whether some entry anywhere in the table carries this identifier.
pub open spec fn table_has_id<K, H>(t: Seq<(K, Vec<Interceptor<H>>)>, id: Seq<char>) -> bool {
    exists|b: int| 0 <= b < t.len() && chain_has_id((#[trigger] t[b]).1@, id)
}

/// The table changed by removing the entry at chain position `p` of
/// bucket `b` — the first entry carrying `id` in scan order — with
/// the bucket dropped when it empties.
pub open spec fn table_removed_at<K, H>(
    t0: Seq<(K, Vec<Interceptor<H>>)>,
    t1: Seq<(K, Vec<Interceptor<H>>)>,
    id: Seq<char>,
    b: int,
    p: int,
) -> bool {
    &&& 0 <= b < t0.len()
    &&& 0 <= p < t0[b].1@.len()
    &&& t0[b].1@[p].id@ == id
    &&& (forall|b2: int| 0 <= b2 < b ==> !chain_has_id((#[trigger] t0[b2]).1@, id))
    &&& (forall|p2: int| 0 <= p2 < p ==> (#[trigger] t0[b].1@[p2]).id@ != id)
    &&& (if t0[b].1@.len() == 1 {
        t1 == t0.remove(b)
    } else {
        &&& t1.len() == t0.len()
        &&& (forall|i: int| 0 <= i < t0.len() && i != b ==> t1[i] == t0[i])
        &&& t1[b].0 == t0[b].0
        &&& t1[b].1@ == t0[b].1@.remove(p)
    })
}

/// The first entry carrying `id` was removed.
pub open spec fn table_unregistered<K, H>(
    t0: Seq<(K, Vec<Interceptor<H>>)>,
    t1: Seq<(K, Vec<Interceptor<H>>)>,
    id: Seq<char>,
) -> bool {
    exists|b: int, p: int| table_removed_at(t0, t1, id, b, p)
}

fn find_id_in_chain<H>(c: &Vec<Interceptor<H>>, id: &String) -> (r: Option<usize>)
    ensures
        (match r {
            Some(p) => p < c@.len() && c@[p as int].id@ == id@ && (forall|q: int|
                0 <= q < p ==> (#[trigger] c@[q]).id@ != id@),
            None => !chain_has_id(c@, id@),
        }),
{
    let mut i: usize = 0;
    while i < c.len()
        invariant
            i <= c@.len(),
            forall|q: int| 0 <= q < i ==> (#[trigger] c@[q]).id@ != id@,
        decreases c@.len() - i,
    {
        if c[i].id == *id {
            return Some(i);
        }
        i = i + 1;
    }
    None
}

fn remove_id_from_table<K, H>(t: &mut Vec<(K, Vec<Interceptor<H>>)>, id: &String) -> (found: bool)
    ensures
        found == table_has_id(old(t)@, id@),
        found ==> table_unregistered(old(t)@, final(t)@, id@),
        !found ==> final(t)@ == old(t)@,
{
    let ghost t0 = t@;
    let mut b: usize = 0;
    while b < t.len()
        invariant
            t@ == t0,
            old(t)@ == t0,
            b <= t0.len(),
            forall|b2: int| 0 <= b2 < b ==> !chain_has_id((#[trigger] t0[b2]).1@, id@),
        decreases t0.len() - b,
    {
        match find_id_in_chain(&t[b].1, id) {
            Some(p) => {
                let ghost bi = b as int;
                let ghost pi = p as int;
                if t[b].1.len() == 1 {
                    t.remove(b);
                    proof {
                        assert(table_removed_at(t0, t@, id@, bi, pi));
                        assert(chain_has_id(t0[bi].1@, id@));
                    }
                } else {
                    let mut pair = t.remove(b);
                    pair.1.remove(p);
                    t.insert(b, pair);
                    proof {
                        assert(t@ =~= t0.update(bi, t@[bi]));
                        assert(table_removed_at(t0, t@, id@, bi, pi));
                        assert(chain_has_id(t0[bi].1@, id@));
                    }
                }
                return true;
            },
            None => {},
        }
        b = b + 1;
    }
    proof {
        if table_has_id(t0, id@) {
            let bw = choose|bw: int| 0 <= bw < t0.len() && chain_has_id(t0[bw].1@, id@);
            assert(!chain_has_id(t0[bw].1@, id@));
        }
    }
    false
}

impl InterceptorManager {
    /// Withdraw the interceptor registered under `id`, whichever of
    /// the three tables holds it; reports whether one was found. The
    /// first entry carrying the identifier in scan order leaves its
    /// chain, and an emptied bucket is dropped.
    pub fn unregister_interceptor(&mut self, id: &String) -> (found: bool)
        requires
            old(self).wf(),
        ensures
            final(self).wf(),
            final(self).counter() == old(self).counter(),
            found == (table_has_id(old(self).api_table(), id@) || table_has_id(
                old(self).message_table(),
                id@,
            ) || table_has_id(old(self).method_table(), id@)),
            table_has_id(old(self).api_table(), id@) ==> (table_unregistered(
                old(self).api_table(),
                final(self).api_table(),
                id@,
            ) && final(self).message_table() == old(self).message_table()
                && final(self).method_table() == old(self).method_table()),
            !table_has_id(old(self).api_table(), id@) && table_has_id(
                old(self).message_table(),
                id@,
            ) ==> (final(self).api_table() == old(self).api_table() && table_unregistered(
                old(self).message_table(),
                final(self).message_table(),
                id@,
            ) && final(self).method_table() == old(self).method_table()),
            !table_has_id(old(self).api_table(), id@) && !table_has_id(
                old(self).message_table(),
                id@,
            ) && table_has_id(old(self).method_table(), id@) ==> (final(self).api_table()
                == old(self).api_table() && final(self).message_table()
                == old(self).message_table() && table_unregistered(
                old(self).method_table(),
                final(self).method_table(),
                id@,
            )),
            !found ==> (final(self).api_table() == old(self).api_table()
                && final(self).message_table() == old(self).message_table()
                && final(self).method_table() == old(self).method_table()),
    {
        let ghost api0 = self.api_interceptors@;
        let ghost msg0 = self.message_interceptors@;
        let ghost method0 = self.method_interceptors@;
        if remove_id_from_table(&mut self.api_interceptors, id) {
            proof {
                let t1 = self.api_interceptors@;
                let (b, p) = choose|b: int, p: int| table_removed_at(api0, t1, id@, b, p);
                lemma_pattern_table_still_wf(api0, t1, id@, b, p);
                lemma_api_rules_still_wf(api0, t1, id@, b, p);
            }
            return true;
        }
        if remove_id_from_table(&mut self.message_interceptors, id) {
            proof {
                let t1 = self.message_interceptors@;
                let (b, p) = choose|b: int, p: int| table_removed_at(msg0, t1, id@, b, p);
                lemma_pattern_table_still_wf(msg0, t1, id@, b, p);
            }
            return true;
        }
        if remove_id_from_table(&mut self.method_interceptors, id) {
            proof {
                let t1 = self.method_interceptors@;
                let (b, p) = choose|b: int, p: int| table_removed_at(method0, t1, id@, b, p);
                lemma_method_table_still_wf(method0, t1, id@, b, p);
            }
            return true;
        }
        false
    }
}

proof fn lemma_pattern_table_still_wf<H>(
    t0: Seq<(String, Vec<Interceptor<H>>)>,
    t1: Seq<(String, Vec<Interceptor<H>>)>,
    id: Seq<char>,
    b: int,
    p: int,
)
    requires
        pattern_table_wf(t0),
        table_removed_at(t0, t1, id, b, p),
    ensures
        pattern_table_wf(t1),
{
    if t0[b].1@.len() == 1 {
        assert forall|i: int, j: int| 0 <= i < j < t1.len() implies t1[i].0@ != t1[j].0@ && (
        #[trigger] t1[i].0)@.len() >= (#[trigger] t1[j].0)@.len() by {
            let i0: int = if i < b { i } else { i + 1 };
            let j0: int = if j < b { j } else { j + 1 };
            assert(t1[i] == t0[i0] && t1[j] == t0[j0]);
        }
        assert forall|i: int| 0 <= i < t1.len() implies (#[trigger] t1[i].1)@.len() >= 1
            && chain_sorted(t1[i].1@) by {
            let i0: int = if i < b { i } else { i + 1 };
            assert(t1[i] == t0[i0]);
        }
    } else {
        let c0 = t0[b].1@;
        let c1 = t1[b].1@;
        assert(c1.len() == c0.len() - 1);
        assert forall|i: int, j: int| 0 <= i < j < c1.len() implies c1[i].priority
            >= c1[j].priority by {
            let i0: int = if i < p { i } else { i + 1 };
            let j0: int = if j < p { j } else { j + 1 };
            assert(chain_sorted(c0));
            assert(c1[i] == c0[i0] && c1[j] == c0[j0]);
        }
        assert forall|i: int, j: int| 0 <= i < j < t1.len() implies t1[i].0@ != t1[j].0@ && (
        #[trigger] t1[i].0)@.len() >= (#[trigger] t1[j].0)@.len() by {
            assert(t1[i].0 == t0[i].0 && t1[j].0 == t0[j].0);
        }
        assert forall|i: int| 0 <= i < t1.len() implies (#[trigger] t1[i].1)@.len() >= 1
            && chain_sorted(t1[i].1@) by {
            if i != b {
                assert(t1[i] == t0[i]);
            }
        }
    }
}

proof fn lemma_api_rules_still_wf(
    t0: Seq<(String, Vec<Interceptor<ApiInterceptorRule>>)>,
    t1: Seq<(String, Vec<Interceptor<ApiInterceptorRule>>)>,
    id: Seq<char>,
    b: int,
    p: int,
)
    requires
        api_table_rules_wf(t0),
        table_removed_at(t0, t1, id, b, p),
    ensures
        api_table_rules_wf(t1),
{
    assert forall|i: int, j: int|
        0 <= i < t1.len() && 0 <= j < t1[i].1@.len() implies (
    #[trigger] t1[i].1@[j]).handler.wf() by {
        if t0[b].1@.len() == 1 {
            let i0: int = if i < b { i } else { i + 1 };
            assert(t1[i] == t0[i0]);
            assert(t1[i].1@[j] == t0[i0].1@[j]);
        } else {
            if i != b {
                assert(t1[i] == t0[i]);
                assert(t1[i].1@[j] == t0[i].1@[j]);
            } else {
                let j0: int = if j < p { j } else { j + 1 };
                assert(t1[i].1@[j] == t0[b].1@[j0]);
            }
        }
    }
}

proof fn lemma_method_table_still_wf(
    t0: Seq<((String, String), Vec<Interceptor<MethodRule>>)>,
    t1: Seq<((String, String), Vec<Interceptor<MethodRule>>)>,
    id: Seq<char>,
    b: int,
    p: int,
)
    requires
        method_table_wf(t0),
        table_removed_at(t0, t1, id, b, p),
    ensures
        method_table_wf(t1),
{
    if t0[b].1@.len() == 1 {
        assert forall|i: int, j: int|
            0 <= i < j < t1.len() implies !((#[trigger] t1[i].0).0@ == (#[trigger] t1[j].0).0@
            && t1[i].0.1@ == t1[j].0.1@) by {
            let i0: int = if i < b { i } else { i + 1 };
            let j0: int = if j < b { j } else { j + 1 };
            assert(t1[i] == t0[i0] && t1[j] == t0[j0]);
        }
        assert forall|i: int| 0 <= i < t1.len() implies (#[trigger] t1[i].1)@.len() >= 1
            && chain_sorted(t1[i].1@) by {
            let i0: int = if i < b { i } else { i + 1 };
            assert(t1[i] == t0[i0]);
        }
    } else {
        let c0 = t0[b].1@;
        let c1 = t1[b].1@;
        assert forall|i: int, j: int| 0 <= i < j < c1.len() implies c1[i].priority
            >= c1[j].priority by {
            let i0: int = if i < p { i } else { i + 1 };
            let j0: int = if j < p { j } else { j + 1 };
            assert(chain_sorted(c0));
            assert(c1[i] == c0[i0] && c1[j] == c0[j0]);
        }
        assert forall|i: int, j: int|
            0 <= i < j < t1.len() implies !((#[trigger] t1[i].0).0@ == (#[trigger] t1[j].0).0@
            && t1[i].0.1@ == t1[j].0.1@) by {
            assert(t1[i].0 == t0[i].0 && t1[j].0 == t0[j].0);
        }
        assert forall|i: int| 0 <= i < t1.len() implies (#[trigger] t1[i].1)@.len() >= 1
            && chain_sorted(t1[i].1@) by {
            if i != b {
                assert(t1[i] == t0[i]);
            }
        }
    }
}

} // verus!
