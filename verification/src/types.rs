use vstd::prelude::*;

verus! {

/// Scope level of a hub. Scopes are totally ordered:
/// Thread < Process < Machine < Network. A parent hub always has a
/// strictly greater scope than its children.
#[derive(Clone, Copy, Debug, PartialEq, Eq, Structural)]
pub enum HubScope {
    Thread,
    Process,
    Machine,
    Network,
}

impl HubScope {
    /// Numeric level of the scope; larger means broader.
    pub open spec fn spec_level(self) -> int {
        match self {
            HubScope::Thread => 0,
            HubScope::Process => 1,
            HubScope::Machine => 2,
            HubScope::Network => 3,
        }
    }

    pub fn level(self) -> (l: u8)
        ensures
            l as int == self.spec_level(),
    {
        match self {
            HubScope::Thread => 0,
            HubScope::Process => 1,
            HubScope::Machine => 2,
            HubScope::Network => 3,
        }
    }
}

/// Status of an API response.
#[derive(Clone, Copy, Debug, PartialEq, Eq, Structural)]
pub enum ResponseStatus {
    Success,
    NotFound,
    Error,
    Intercepted,
    Approximated,
}

/// A request or response payload. The bus never interprets a payload;
/// handlers own its meaning. Values that the transport cannot type are
/// carried as text.
#[derive(Debug, PartialEq, Eq)]
pub enum Payload {
    Empty,
    Text(String),
    Flag(bool),
    Number(u64),
}

impl Clone for Payload {
    fn clone(&self) -> (r: Self)
        ensures
            r == *self,
    {
        match self {
            Payload::Empty => Payload::Empty,
            Payload::Text(s) => Payload::Text(s.clone()),
            Payload::Flag(b) => Payload::Flag(*b),
            Payload::Number(n) => Payload::Number(*n),
        }
    }
}

/// String-to-string metadata attached to requests, responses and
/// messages. Keys are unique; inserting an existing key replaces its
/// value. Viewed as a `Map<Seq<char>, Seq<char>>`.
#[derive(Debug)]
pub struct MetaMap {
    pairs: Vec<(String, String)>,
}

/// The map denoted by a sequence of key/value pairs; later pairs win.
pub open spec fn pairs_to_map(s: Seq<(String, String)>) -> Map<Seq<char>, Seq<char>>
    decreases s.len(),
{
    if s.len() == 0 {
        Map::empty()
    } else {
        pairs_to_map(s.drop_last()).insert(s.last().0@, s.last().1@)
    }
}

/// No two pairs share a key.
pub open spec fn unique_keys(s: Seq<(String, String)>) -> bool {
    forall|i: int, j: int| 0 <= i < j < s.len() ==> s[i].0@ != s[j].0@
}

impl View for MetaMap {
    type V = Map<Seq<char>, Seq<char>>;

    closed spec fn view(&self) -> Map<Seq<char>, Seq<char>> {
        pairs_to_map(self.pairs@)
    }
}

proof fn lemma_pairs_to_map_domain(s: Seq<(String, String)>, k: Seq<char>)
    ensures
        pairs_to_map(s).contains_key(k) <==> exists|i: int| 0 <= i < s.len() && s[i].0@ == k,
    decreases s.len(),
{
    if s.len() > 0 {
        lemma_pairs_to_map_domain(s.drop_last(), k);
        if s.last().0@ == k {
            assert(s[s.len() - 1].0@ == k);
        } else if pairs_to_map(s).contains_key(k) {
            let i = choose|i: int| 0 <= i < s.drop_last().len() && s.drop_last()[i].0@ == k;
            assert(s[i].0@ == k);
        } else if exists|i: int| 0 <= i < s.len() && s[i].0@ == k {
            let i = choose|i: int| 0 <= i < s.len() && s[i].0@ == k;
            assert(i < s.len() - 1);
            assert(s.drop_last()[i].0@ == k);
        }
    }
}

proof fn lemma_pairs_to_map_index(s: Seq<(String, String)>, i: int)
    requires
        unique_keys(s),
        0 <= i < s.len(),
    ensures
        pairs_to_map(s).contains_key(s[i].0@),
        pairs_to_map(s)[s[i].0@] == s[i].1@,
    decreases s.len(),
{
    if i < s.len() - 1 {
        lemma_pairs_to_map_index(s.drop_last(), i);
        assert(s.drop_last()[i] == s[i]);
        assert(s.last().0@ != s[i].0@);
    }
}

proof fn lemma_pairs_to_map_remove(s: Seq<(String, String)>, i: int)
    requires
        unique_keys(s),
        0 <= i < s.len(),
    ensures
        pairs_to_map(s.remove(i)) == pairs_to_map(s).remove(s[i].0@),
    decreases s.len(),
{
    lemma_pairs_to_map_domain(s.remove(i), s[i].0@);
    if i == s.len() - 1 {
        assert(s.remove(i) =~= s.drop_last());
        assert forall|k: Seq<char>|
            pairs_to_map(s.drop_last()).contains_key(k) implies pairs_to_map(s).remove(
            s[i].0@,
        ).contains_key(k) && pairs_to_map(s).remove(s[i].0@)[k] == pairs_to_map(s.drop_last())[k] by {
            lemma_pairs_to_map_domain(s.drop_last(), k);
            let j = choose|j: int| 0 <= j < s.drop_last().len() && s.drop_last()[j].0@ == k;
            assert(s[j].0@ == k);
            assert(k != s[i].0@);
        }
        assert(pairs_to_map(s.drop_last()) =~= pairs_to_map(s).remove(s[i].0@));
    } else {
        lemma_pairs_to_map_remove(s.drop_last(), i);
        assert(s.remove(i).drop_last() =~= s.drop_last().remove(i));
        assert(s.remove(i).last() == s.last());
        assert(pairs_to_map(s.remove(i)) == pairs_to_map(s.drop_last().remove(i)).insert(
            s.last().0@,
            s.last().1@,
        ));
        assert(s[i].0@ != s.last().0@);
        assert(pairs_to_map(s.drop_last()).remove(s[i].0@).insert(s.last().0@, s.last().1@)
            =~= pairs_to_map(s.drop_last()).insert(s.last().0@, s.last().1@).remove(s[i].0@));
    }
}

/// The view of a metadata table is the map its stored pairs denote.
pub proof fn lemma_meta_view(m: MetaMap)
    ensures
        m@ == pairs_to_map(m.spec_pairs()),
{
}

impl MetaMap {
    /// The stored pairs, in insertion order.
    pub closed spec fn spec_pairs(self) -> Seq<(String, String)> {
        self.pairs@
    }

    /// Well-formed: no two pairs share a key.
    pub open spec fn wf(self) -> bool {
        unique_keys(self.spec_pairs())
    }

    pub fn new() -> (m: MetaMap)
        ensures
            m.wf(),
            m@ == Map::<Seq<char>, Seq<char>>::empty(),
            m.spec_pairs().len() == 0,
    {
        MetaMap { pairs: Vec::new() }
    }

    fn find_index(&self, k: &String) -> (r: Option<usize>)
        ensures
            (match r {
                Some(i) => i < self.pairs@.len() && self.pairs@[i as int].0@ == k@,
                None => forall|i: int| 0 <= i < self.pairs@.len() ==> self.pairs@[i].0@ != k@,
            }),
    {
        let mut i: usize = 0;
        while i < self.pairs.len()
            invariant
                i <= self.pairs@.len(),
                forall|j: int| 0 <= j < i ==> self.pairs@[j].0@ != k@,
            decreases self.pairs@.len() - i,
        {
            if self.pairs[i].0 == *k {
                return Some(i);
            }
            i = i + 1;
        }
        None
    }

    /// The value stored under `k`, if any.
    pub fn get(&self, k: &String) -> (r: Option<&String>)
        requires
            self.wf(),
        ensures
            r is Some <==> self@.contains_key(k@),
            (match r {
                Some(v) => v@ == self@[k@],
                None => true,
            }),
    {
        proof {
            lemma_pairs_to_map_domain(self.pairs@, k@);
        }
        match self.find_index(k) {
            Some(i) => {
                proof {
                    lemma_pairs_to_map_index(self.pairs@, i as int);
                }
                Some(&self.pairs[i].1)
            },
            None => None,
        }
    }

    /// Whether `k` is present.
    pub fn contains_key(&self, k: &String) -> (r: bool)
        requires
            self.wf(),
        ensures
            r == self@.contains_key(k@),
    {
        self.get(k).is_some()
    }

    /// Bind `k` to `v`, replacing any earlier binding.
    pub fn insert(&mut self, k: String, v: String)
        requires
            old(self).wf(),
        ensures
            final(self).wf(),
            final(self)@ == old(self)@.insert(k@, v@),
    {
        let ghost s0 = self.pairs@;
        let idx = self.find_index(&k);
        match idx {
            Some(i) => {
                self.pairs.remove(i);
                proof {
                    lemma_pairs_to_map_remove(s0, i as int);
                    assert(unique_keys(self.pairs@));
                }
            },
            None => {},
        }
        let ghost s1 = self.pairs@;
        self.pairs.push((k, v));
        proof {
            assert(self.pairs@.drop_last() =~= s1);
            assert(forall|j: int|
                0 <= j < s1.len() ==> #[trigger] s1[j].0@ != k@) by {
                if idx is Some {
                    let i = idx->0 as int;
                    assert(forall|j: int| 0 <= j < s1.len() ==> exists|j0: int|
                        0 <= j0 < s0.len() && j0 != i && #[trigger] s1[j] == s0[j0]) by {
                        assert(forall|j: int| 0 <= j < i ==> s1[j] == s0[j]);
                        assert(forall|j: int| i <= j < s1.len() ==> #[trigger] s1[j] == s0[j + 1]);
                    }
                }
            }
            assert(unique_keys(self.pairs@));
            if idx is Some {
                assert(pairs_to_map(self.pairs@) =~= pairs_to_map(s0).insert(k@, v@));
            } else {
                assert(pairs_to_map(self.pairs@) =~= pairs_to_map(s0).insert(k@, v@));
            }
        }
    }

    /// Whether the map holds no pairs.
    pub fn is_empty(&self) -> (r: bool)
        requires
            self.wf(),
        ensures
            r <==> self@ == Map::<Seq<char>, Seq<char>>::empty(),
    {
        proof {
            if self.pairs@.len() > 0 {
                lemma_pairs_to_map_index(self.pairs@, self.pairs@.len() - 1);
                assert(self@.contains_key(self.pairs@.last().0@));
            } else {
                assert(self@ =~= Map::<Seq<char>, Seq<char>>::empty());
            }
        }
        self.pairs.len() == 0
    }

    /// How many pairs are stored.
    pub fn pair_count(&self) -> (n: usize)
        ensures
            n == self.spec_pairs().len(),
    {
        self.pairs.len()
    }

    /// The pair at position `i`, in insertion order.
    pub fn pair_at(&self, i: usize) -> (p: &(String, String))
        requires
            i < self.spec_pairs().len(),
        ensures
            *p == self.spec_pairs()[i as int],
    {
        &self.pairs[i]
    }
}

impl Clone for MetaMap {
    fn clone(&self) -> (r: Self)
        ensures
            r@ == self@,
            r.spec_pairs() == self.spec_pairs(),
    {
        let mut pairs: Vec<(String, String)> = Vec::new();
        let mut i: usize = 0;
        while i < self.pairs.len()
            invariant
                i <= self.pairs@.len(),
                pairs@ =~= self.pairs@.take(i as int),
            decreases self.pairs@.len() - i,
        {
            pairs.push((self.pairs[i].0.clone(), self.pairs[i].1.clone()));
            i = i + 1;
        }
        proof {
            assert(pairs@ =~= self.pairs@);
        }
        MetaMap { pairs }
    }
}

/// Mathematical image of an `ApiRequest`.
pub struct ReqV {
    pub path: Seq<char>,
    pub data: Payload,
    pub metadata: Map<Seq<char>, Seq<char>>,
    pub sender_id: Seq<char>,
}

/// Mathematical image of an `ApiResponse`.
pub struct RespV {
    pub data: Payload,
    pub metadata: Map<Seq<char>, Seq<char>>,
    pub status: ResponseStatus,
}

/// Mathematical image of a `Message`.
pub struct MsgV {
    pub topic: Seq<char>,
    pub data: Payload,
    pub metadata: Map<Seq<char>, Seq<char>>,
    pub sender_id: Seq<char>,
    pub timestamp: u64,
}

/// A request to an endpoint path.
#[derive(Debug)]
pub struct ApiRequest {
    pub path: String,
    pub data: Payload,
    pub metadata: MetaMap,
    pub sender_id: String,
}

impl ApiRequest {
    /// Well-formed: the metadata map has unique keys.
    pub open spec fn wf(self) -> bool {
        self.metadata.wf()
    }
}

impl View for ApiRequest {
    type V = ReqV;

    open spec fn view(&self) -> ReqV {
        ReqV {
            path: self.path@,
            data: self.data,
            metadata: self.metadata@,
            sender_id: self.sender_id@,
        }
    }
}

impl Clone for ApiRequest {
    fn clone(&self) -> (r: Self)
        ensures
            r@ == self@,
            r.metadata.spec_pairs() == self.metadata.spec_pairs(),
    {
        ApiRequest {
            path: self.path.clone(),
            data: self.data.clone(),
            metadata: self.metadata.clone(),
            sender_id: self.sender_id.clone(),
        }
    }
}

/// A response from an endpoint or interceptor.
#[derive(Debug)]
pub struct ApiResponse {
    pub data: Payload,
    pub metadata: MetaMap,
    pub status: ResponseStatus,
}

impl ApiResponse {
    /// Well-formed: the metadata map has unique keys.
    pub open spec fn wf(self) -> bool {
        self.metadata.wf()
    }
}

impl View for ApiResponse {
    type V = RespV;

    open spec fn view(&self) -> RespV {
        RespV { data: self.data, metadata: self.metadata@, status: self.status }
    }
}

impl Clone for ApiResponse {
    fn clone(&self) -> (r: Self)
        ensures
            r@ == self@,
            r.metadata.spec_pairs() == self.metadata.spec_pairs(),
    {
        ApiResponse {
            data: self.data.clone(),
            metadata: self.metadata.clone(),
            status: self.status,
        }
    }
}

/// A published topic message.
#[derive(Debug)]
pub struct Message {
    pub topic: String,
    pub data: Payload,
    pub metadata: MetaMap,
    pub sender_id: String,
    pub timestamp: u64,
}

impl Message {
    /// Well-formed: the metadata map has unique keys.
    pub open spec fn wf(self) -> bool {
        self.metadata.wf()
    }
}

impl View for Message {
    type V = MsgV;

    open spec fn view(&self) -> MsgV {
        MsgV {
            topic: self.topic@,
            data: self.data,
            metadata: self.metadata@,
            sender_id: self.sender_id@,
            timestamp: self.timestamp,
        }
    }
}

/// What a registered endpoint does with a request. Handlers are plain
/// values, so the bus can be verified against their exact behaviour;
/// effectful work belongs to the caller that interprets the response.
#[derive(Debug)]
pub enum Handler {
    /// Answer with the request's own payload and metadata.
    EchoPayload,
    /// Answer with a fixed payload, empty metadata and `Success`.
    Fixed(Payload),
    /// Answer with a fixed, fully specified response.
    Respond(ApiResponse),
}

impl Handler {
    /// Well-formed: any stored response is well-formed.
    pub open spec fn wf(self) -> bool {
        match self {
            Handler::EchoPayload => true,
            Handler::Fixed(_) => true,
            Handler::Respond(r) => r.wf(),
        }
    }

    /// The response this handler gives to `req`.
    pub open spec fn spec_apply(self, req: ReqV) -> RespV {
        match self {
            Handler::EchoPayload => RespV {
                data: req.data,
                metadata: req.metadata,
                status: ResponseStatus::Success,
            },
            Handler::Fixed(p) => RespV {
                data: p,
                metadata: Map::empty(),
                status: ResponseStatus::Success,
            },
            Handler::Respond(r) => r@,
        }
    }
}

/// Run a handler on a request.
pub fn apply_handler(h: &Handler, req: &ApiRequest) -> (r: ApiResponse)
    ensures
        r@ == h.spec_apply(req@),
        req.wf() && h.wf() ==> r.wf(),
{
    match h {
        Handler::EchoPayload => ApiResponse {
            data: req.data.clone(),
            metadata: req.metadata.clone(),
            status: ResponseStatus::Success,
        },
        Handler::Fixed(p) => ApiResponse {
            data: p.clone(),
            metadata: MetaMap::new(),
            status: ResponseStatus::Success,
        },
        Handler::Respond(resp) => resp.clone(),
    }
}

/// What a request-path interceptor does: yield a replacement response,
/// or pass the request on.
#[derive(Debug)]
pub enum ApiInterceptorRule {
    /// Never intercept.
    Pass,
    /// Always intercept with this response.
    Respond(ApiResponse),
    /// Intercept with `response` when the request metadata binds `key`
    /// to `value`.
    RespondIfMeta { key: String, value: String, response: ApiResponse },
}

impl ApiInterceptorRule {
    /// Well-formed: any stored response is well-formed.
    pub open spec fn wf(self) -> bool {
        match self {
            ApiInterceptorRule::Pass => true,
            ApiInterceptorRule::Respond(r) => r.wf(),
            ApiInterceptorRule::RespondIfMeta { key, value, response } => response.wf(),
        }
    }

    /// The replacement response, if the rule fires on `req`.
    pub open spec fn spec_apply(self, req: ReqV) -> Option<RespV> {
        match self {
            ApiInterceptorRule::Pass => None,
            ApiInterceptorRule::Respond(r) => Some(r@),
            ApiInterceptorRule::RespondIfMeta { key, value, response } => {
                if req.metadata.contains_key(key@) && req.metadata[key@] == value@ {
                    Some(response@)
                } else {
                    None
                }
            },
        }
    }
}

/// The view of an optional response.
pub open spec fn opt_resp_view(r: Option<ApiResponse>) -> Option<RespV> {
    match r {
        Some(x) => Some(x@),
        None => None,
    }
}

/// Run an interceptor rule on a request.
pub fn apply_api_rule(rule: &ApiInterceptorRule, req: &ApiRequest) -> (r: Option<ApiResponse>)
    requires
        req.wf(),
    ensures
        opt_resp_view(r) == rule.spec_apply(req@),
        rule.wf() ==> (r matches Some(x) ==> x.wf()),
{
    match rule {
        ApiInterceptorRule::Pass => None,
        ApiInterceptorRule::Respond(resp) => Some(resp.clone()),
        ApiInterceptorRule::RespondIfMeta { key, value, response } => {
            match req.metadata.get(key) {
                Some(v) => {
                    if *v == *value {
                        Some(response.clone())
                    } else {
                        None
                    }
                },
                None => None,
            }
        },
    }
}

/// What a topic interceptor or subscription handler does with a
/// message: yield a value, or let it pass.
#[derive(Debug)]
pub enum MessageRule {
    /// Never yield.
    Pass,
    /// Always yield this value.
    Produce(Payload),
    /// Yield `result` when the message metadata binds `key` to `value`.
    ProduceIfMeta { key: String, value: String, result: Payload },
}

impl MessageRule {
    /// The value yielded, if the rule fires on `msg`.
    pub open spec fn spec_apply(self, msg: MsgV) -> Option<Payload> {
        match self {
            MessageRule::Pass => None,
            MessageRule::Produce(p) => Some(p),
            MessageRule::ProduceIfMeta { key, value, result } => {
                if msg.metadata.contains_key(key@) && msg.metadata[key@] == value@ {
                    Some(result)
                } else {
                    None
                }
            },
        }
    }
}

/// Run a message rule on a message.
pub fn apply_message_rule(rule: &MessageRule, msg: &Message) -> (r: Option<Payload>)
    requires
        msg.wf(),
    ensures
        r == rule.spec_apply(msg@),
{
    match rule {
        MessageRule::Pass => None,
        MessageRule::Produce(p) => Some(p.clone()),
        MessageRule::ProduceIfMeta { key, value, result } => {
            match msg.metadata.get(key) {
                Some(v) => {
                    if *v == *value {
                        Some(result.clone())
                    } else {
                        None
                    }
                },
                None => None,
            }
        },
    }
}

/// What a method-call interceptor does with a call's arguments.
#[derive(Debug)]
pub enum MethodRule {
    /// Never yield.
    Pass,
    /// Always yield this value.
    Produce(Payload),
}

impl MethodRule {
    /// The value yielded, if the rule fires.
    pub open spec fn spec_apply(self, args: Payload) -> Option<Payload> {
        match self {
            MethodRule::Pass => None,
            MethodRule::Produce(p) => Some(p),
        }
    }
}

/// Run a method rule on a call's arguments.
pub fn apply_method_rule(rule: &MethodRule, args: &Payload) -> (r: Option<Payload>)
    ensures
        r == rule.spec_apply(*args),
{
    match rule {
        MethodRule::Pass => None,
        MethodRule::Produce(p) => Some(p.clone()),
    }
}

/// A registered interceptor: an identifier minted at registration, a
/// priority (larger runs earlier) and the rule to run.
#[derive(Debug)]
pub struct Interceptor<H> {
    pub id: String,
    pub priority: i32,
    pub handler: H,
}

/// A registered subscription to a topic pattern.
#[derive(Debug)]
pub struct Subscription {
    pub id: String,
    pub priority: i32,
    pub pattern: String,
    pub handler: MessageRule,
}

} // verus!
