//! Storage for gRPC responses handed to the policy pipeline by token.

use std::collections::HashMap;
use vstd::prelude::*;

verus! {

broadcast use vstd::std_specs::hash::group_hash_axioms;

/// HTTP reply details captured when the pipeline decides to answer the
/// request itself.
#[derive(Debug, Clone)]
pub struct HttpReply {
    pub status_code: u32,
    pub headers: Vec<(String, String)>,
    pub body: Option<Vec<u8>>,
}

/// An operation that changes a [`GrpcResponseStore`].
pub enum StoreOp {
    /// `store` of a response.
    Store(Seq<u8>),
    /// `get_last`.
    GetLast,
    /// `push_pending` of a token.
    PushPending(u32),
    /// `take_pending_digest`.
    TakePending,
    /// `set_reply`.
    SetReply(HttpReply),
    /// `take_reply`.
    TakeReply,
}

/// Abstract state of a [`GrpcResponseStore`].
pub struct StoreView {
    /// Stored responses, by token.
    pub responses: Map<u32, Seq<u8>>,
    /// The token the next stored response receives.
    pub next_token: u32,
    /// The token of the most recently stored response.
    pub last_token: Option<u32>,
    /// Tokens waiting to be digested, oldest first.
    pub pending: Seq<u32>,
    /// The reply to send, if the pipeline captured one.
    pub reply: Option<HttpReply>,
}

impl StoreView {
    /// The state of a freshly created store.
    pub open spec fn empty() -> StoreView {
        StoreView {
            responses: Map::empty(),
            next_token: 0,
            last_token: None,
            pending: Seq::empty(),
            reply: None,
        }
    }

    /// Every stored token and the last token were handed out before
    /// `next_token`.
    pub open spec fn wf(self) -> bool {
        &&& forall|t: u32| #[trigger] self.responses.contains_key(t) ==> t < self.next_token
        &&& self.last_token matches Some(t) ==> t < self.next_token
    }

    /// The state after storing `response`; it receives token `next_token`.
    pub open spec fn stored(self, response: Seq<u8>) -> StoreView {
        StoreView {
            responses: self.responses.insert(self.next_token, response),
            next_token: (self.next_token + 1) as u32,
            last_token: Some(self.next_token),
            pending: self.pending.push(self.next_token),
            reply: self.reply,
        }
    }

    /// The response that `get_last` hands out: that of the last token, if it
    /// is still stored.
    pub open spec fn last_response(self) -> Option<Seq<u8>> {
        match self.last_token {
            Some(t) => if self.responses.contains_key(t) {
                Some(self.responses[t])
            } else {
                None
            },
            None => None,
        }
    }

    /// The state after `get_last`: the last token's response is removed.
    pub open spec fn last_taken(self) -> StoreView {
        match self.last_token {
            Some(t) => StoreView { responses: self.responses.remove(t), ..self },
            None => self,
        }
    }

    /// The state after operation `op`.
    pub open spec fn after(self, op: StoreOp) -> StoreView {
        match op {
            StoreOp::Store(r) => self.stored(r),
            StoreOp::GetLast => self.last_taken(),
            StoreOp::PushPending(t) => StoreView { pending: self.pending.push(t), ..self },
            StoreOp::TakePending => StoreView { pending: Seq::empty(), ..self },
            StoreOp::SetReply(r) => StoreView { reply: Some(r), ..self },
            StoreOp::TakeReply => StoreView { reply: None, ..self },
        }
    }

    /// The size of the response stored under `token`, if any.
    pub open spec fn response_size(self, token: u32) -> Option<nat> {
        if self.responses.contains_key(token) {
            Some(self.responses[token].len())
        } else {
            None
        }
    }
}

/// Storage for gRPC responses, bridging the synchronous dispatch of the
/// policy pipeline and the asynchronous calls made for it: a response is
/// stored and a token returned; the pipeline later digests pending tokens and
/// fetches the responses.
#[derive(Debug)]
pub struct GrpcResponseStore {
    responses: HashMap<u32, Vec<u8>>,
    next_token: u32,
    last_token: Option<u32>,
    pending_digest: Vec<u32>,
    reply: Option<HttpReply>,
}

impl View for GrpcResponseStore {
    type V = StoreView;

    closed spec fn view(&self) -> StoreView {
        StoreView {
            responses: self.responses@.map_values(|v: Vec<u8>| v@),
            next_token: self.next_token,
            last_token: self.last_token,
            pending: self.pending_digest@,
            reply: self.reply,
        }
    }
}

impl GrpcResponseStore {
    /// Create a new empty store.
    pub fn new() -> (s: Self)
        ensures
            s@ == StoreView::empty(),
    {
        let s = GrpcResponseStore {
            responses: HashMap::new(),
            next_token: 0,
            last_token: None,
            pending_digest: Vec::new(),
            reply: None,
        };
        assert(s@.responses =~= Map::empty());
        s
    }

    /// Store a response and return its token ID.
    pub fn store(&mut self, response: Vec<u8>) -> (token: u32)
        requires
            old(self)@.next_token < u32::MAX,
        ensures
            token == old(self)@.next_token,
            final(self)@ == old(self)@.after(StoreOp::Store(response@)),
    {
        let token = self.next_token;
        self.responses.insert(token, response);
        self.last_token = Some(token);
        self.pending_digest.push(token);
        self.next_token = self.next_token + 1;
        proof {
            assert(self@.responses =~= old(self)@.responses.insert(token, response@));
        }
        token
    }

    /// Get all pending tokens that need to be digested; none stay pending.
    pub fn take_pending_digest(&mut self) -> (tokens: Vec<u32>)
        ensures
            tokens@ == old(self)@.pending,
            final(self)@ == old(self)@.after(StoreOp::TakePending),
    {
        let mut tokens: Vec<u32> = Vec::new();
        std::mem::swap(&mut tokens, &mut self.pending_digest);
        proof {
            assert(self@.responses =~= old(self)@.responses);
        }
        tokens
    }

    /// Get the size of a stored response.
    pub fn get_response_size(&self, token: u32) -> (size: Option<usize>)
        ensures
            match size {
                Some(n) => self@.response_size(token) == Some(n as nat),
                None => self@.response_size(token) is None,
            },
    {
        match self.responses.get(&token) {
            Some(r) => Some(r.len()),
            None => None,
        }
    }

    /// Push a token back into the pending digest queue.
    pub fn push_pending(&mut self, token: u32)
        ensures
            final(self)@ == old(self)@.after(StoreOp::PushPending(token)),
    {
        self.pending_digest.push(token);
        proof {
            assert(self@.responses =~= old(self)@.responses);
        }
    }

    /// Take the HTTP reply, consuming it.
    pub fn take_reply(&mut self) -> (reply: Option<HttpReply>)
        ensures
            reply == old(self)@.reply,
            final(self)@ == old(self)@.after(StoreOp::TakeReply),
    {
        let reply = self.reply.take();
        proof {
            assert(self@.responses =~= old(self)@.responses);
        }
        reply
    }

    /// Record the HTTP reply the pipeline asked to send, replacing any
    /// earlier one.
    pub fn set_reply(&mut self, reply: HttpReply)
        ensures
            final(self)@ == old(self)@.after(StoreOp::SetReply(reply)),
    {
        self.reply = Some(reply);
        proof {
            assert(self@.responses =~= old(self)@.responses);
        }
    }

    /// Get the last stored response, removing it from the store.
    pub fn get_last(&mut self) -> (response: Option<Vec<u8>>)
        ensures
            match response {
                Some(r) => old(self)@.last_response() == Some(r@),
                None => old(self)@.last_response() is None,
            },
            final(self)@ == old(self)@.after(StoreOp::GetLast),
    {
        match self.last_token {
            Some(token) => {
                let r = self.responses.remove(&token);
                proof {
                    assert(self@.responses =~= old(self)@.responses.remove(token));
                }
                r
            },
            None => None,
        }
    }

    /// The token the next stored response will receive.
    pub fn next_token(&self) -> (t: u32)
        ensures
            t == self@.next_token,
    {
        self.next_token
    }
}

/// A fresh store is well formed.
pub proof fn law_empty_store_wf()
    ensures
        StoreView::empty().wf(),
{
}

/// Every operation on the store keeps it well formed: storing (below the last
/// token), taking the last response, queueing or taking pending tokens, and
/// setting or taking the reply.
pub proof fn law_operations_keep_wf(s: StoreView, op: StoreOp)
    requires
        s.wf(),
        op is Store ==> s.next_token < u32::MAX,
    ensures
        s.after(op).wf(),
{
}

/// The reply is what `set_reply` last recorded until `take_reply` takes it;
/// storing, taking responses and queueing tokens leave it alone.
pub proof fn law_reply_set_then_taken(s: StoreView, reply: HttpReply, op: StoreOp)
    ensures
        s.after(StoreOp::SetReply(reply)).reply == Some(reply),
        s.after(StoreOp::TakeReply).reply is None,
        !(op is SetReply) && !(op is TakeReply) ==> s.after(op).reply == s.reply,
{
}

/// Taking the pending tokens empties the queue; queueing a token appends it;
/// neither touches the stored responses or the tokens handed out.
pub proof fn law_pending_queue_ops(s: StoreView, token: u32)
    ensures
        s.after(StoreOp::TakePending).pending.len() == 0,
        s.after(StoreOp::PushPending(token)).pending == s.pending + seq![token],
        s.after(StoreOp::TakePending).responses == s.responses,
        s.after(StoreOp::PushPending(token)).responses == s.responses,
        s.after(StoreOp::TakePending).next_token == s.next_token,
        s.after(StoreOp::PushPending(token)).next_token == s.next_token,
{
    assert(s.pending.push(token) =~= s.pending + seq![token]);
}

/// The state after operations `ops`, in order, on a fresh store.
pub open spec fn replay(ops: Seq<StoreOp>) -> StoreView
    decreases ops.len(),
{
    if ops.len() == 0 {
        StoreView::empty()
    } else {
        replay(ops.drop_last()).after(ops.last())
    }
}

/// How many of `ops` are stores.
pub open spec fn count_stores(ops: Seq<StoreOp>) -> nat
    decreases ops.len(),
{
    if ops.len() == 0 {
        0
    } else {
        count_stores(ops.drop_last()) + if ops.last() is Store {
            1nat
        } else {
            0nat
        }
    }
}

/// Whether no store lies strictly between positions `a` and `b` of `ops`.
pub open spec fn no_store_between(ops: Seq<StoreOp>, a: int, b: int) -> bool {
    forall|m: int| a < m < b ==> !(#[trigger] ops[m] is Store)
}

/// Whether a `get_last` after position `i`, with no store in between, took
/// the response stored at `i`.
pub open spec fn taken_after(ops: Seq<StoreOp>, i: int) -> bool {
    exists|j: int| i < j < ops.len() && #[trigger] ops[j] is GetLast && no_store_between(ops, i, j)
}

/// Counting stores over a prefix only grows, and passes a store.
proof fn lemma_count_prefix(ops: Seq<StoreOp>, i: int, j: int)
    requires
        0 <= i <= j <= ops.len(),
    ensures
        count_stores(ops.take(i)) <= count_stores(ops.take(j)),
        i < j && ops[i] is Store ==> count_stores(ops.take(i)) < count_stores(ops.take(j)),
        count_stores(ops.take(j)) <= count_stores(ops),
    decreases ops.len() - i, if i == j {
        1int
    } else {
        0int
    },
{
    if i < j {
        assert(ops.take(i + 1).drop_last() =~= ops.take(i));
        assert(ops.take(i + 1).last() == ops[i]);
        lemma_count_prefix(ops, i + 1, j);
    } else if j < ops.len() {
        lemma_count_prefix(ops, j, ops.len() as int);
    } else {
        assert(ops.take(j) =~= ops);
    }
}

/// Replaying `ops` from a fresh store gives a well-formed store whose next
/// token is the number of stores.
proof fn lemma_replay_tokens(ops: Seq<StoreOp>)
    requires
        count_stores(ops) < u32::MAX,
    ensures
        replay(ops).next_token == count_stores(ops),
        replay(ops).wf(),
    decreases ops.len(),
{
    if ops.len() > 0 {
        lemma_replay_tokens(ops.drop_last());
        law_operations_keep_wf(replay(ops.drop_last()), ops.last());
    }
}

/// Since creation, the store hands out tokens 0, 1, 2, ... and never reuses
/// one: the store at position `i` of a call history receives the number of
/// stores before it (the next token of the store it is applied to), and a
/// later store receives a larger token.
pub proof fn law_tokens_since_creation(ops: Seq<StoreOp>)
    requires
        count_stores(ops) < u32::MAX,
    ensures
        replay(ops).next_token == count_stores(ops),
        forall|i: int|
            0 <= i <= ops.len() ==> #[trigger] replay(ops.take(i)).next_token == count_stores(
                ops.take(i),
            ),
        forall|i: int, j: int|
            0 <= i < j <= ops.len() && #[trigger] ops[i] is Store ==> count_stores(ops.take(i))
                < #[trigger] count_stores(ops.take(j)),
{
    lemma_replay_tokens(ops);
    assert forall|i: int| 0 <= i <= ops.len() implies #[trigger] replay(ops.take(i)).next_token
        == count_stores(ops.take(i)) by {
        lemma_count_prefix(ops, i, ops.len() as int);
        lemma_replay_tokens(ops.take(i));
    }
    assert forall|i: int, j: int|
        0 <= i < j <= ops.len() && #[trigger] ops[i] is Store implies count_stores(ops.take(i))
        < #[trigger] count_stores(ops.take(j)) by {
        lemma_count_prefix(ops, i, j);
    }
}

/// After stores with no `take_pending_digest` or `push_pending` among the
/// operations since creation, the pending queue is the tokens 0 .. n-1 in
/// the order they were stored.
pub proof fn law_pending_after_stores(ops: Seq<StoreOp>)
    requires
        count_stores(ops) < u32::MAX,
        forall|i: int|
            0 <= i < ops.len() ==> !(#[trigger] ops[i] is TakePending) && !(ops[i] is PushPending),
    ensures
        replay(ops).pending == Seq::new(count_stores(ops), |k: int| k as u32),
    decreases ops.len(),
{
    if ops.len() > 0 {
        let p = ops.drop_last();
        assert forall|i: int| 0 <= i < p.len() implies !(#[trigger] p[i] is TakePending) && !(
        p[i] is PushPending) by {
            assert(p[i] == ops[i]);
        }
        law_pending_after_stores(p);
        lemma_replay_tokens(p);
        assert(!(ops[ops.len() - 1] is TakePending) && !(ops[ops.len() - 1] is PushPending));
        assert(replay(ops).pending =~= Seq::new(count_stores(ops), |k: int| k as u32));
    }
}

/// The last token of a replayed history is that of its last store: the store
/// at `i` where no store follows it, and a larger one where one does.
proof fn lemma_last_token(ops: Seq<StoreOp>, i: int)
    requires
        count_stores(ops) < u32::MAX,
        0 <= i < ops.len(),
        ops[i] is Store,
    ensures
        no_store_between(ops, i, ops.len() as int) ==> replay(ops).last_token == Some(
            count_stores(ops.take(i)) as u32,
        ),
        !no_store_between(ops, i, ops.len() as int) ==> (replay(ops).last_token matches Some(x)
            && x > count_stores(ops.take(i))),
    decreases ops.len(),
{
    let p = ops.drop_last();
    let n = ops.len() - 1;
    lemma_count_prefix(ops, n, ops.len() as int);
    assert(ops.take(n) =~= p);
    lemma_replay_tokens(p);
    if i == n {
        assert(ops.take(i) =~= p);
    } else {
        assert(p.take(i) =~= ops.take(i));
        assert(p[i] == ops[i]);
        lemma_last_token(p, i);
        lemma_count_prefix(p, i, p.len() as int);
        assert(p.take(p.len() as int) =~= p);
        if ops[n] is Store {
            assert(!no_store_between(ops, i, ops.len() as int));
        } else {
            assert(no_store_between(ops, i, ops.len() as int) == no_store_between(p, i, p.len() as int))
                by {
                if no_store_between(p, i, p.len() as int) {
                    assert forall|m: int| i < m < ops.len() implies !(#[trigger] ops[m] is Store) by {
                        if m < n {
                            assert(ops[m] == p[m]);
                        }
                    }
                }
                if no_store_between(ops, i, ops.len() as int) {
                    assert forall|m: int| i < m < p.len() implies !(#[trigger] p[m] is Store) by {
                        assert(ops[m] == p[m]);
                    }
                }
            }
        }
    }
}

/// A token's size since creation: the response stored at position `i` keeps
/// its size under its token until a `get_last` with no store in between
/// takes it, and is gone after; a token not yet handed out has no response.
pub proof fn law_sizes_since_creation(ops: Seq<StoreOp>, i: int, t: u32)
    requires
        count_stores(ops) < u32::MAX,
    ensures
        0 <= i < ops.len() && ops[i] is Store ==> replay(ops).response_size(
            count_stores(ops.take(i)) as u32,
        ) == if taken_after(ops, i) {
            None::<nat>
        } else {
            Some(ops[i]->Store_0.len())
        },
        t >= count_stores(ops) ==> replay(ops).response_size(t) is None,
    decreases ops.len(),
{
    lemma_replay_tokens(ops);
    if 0 <= i < ops.len() && ops[i] is Store {
        lemma_sizes_of_store(ops, i);
    }
}

/// The first part of `law_sizes_since_creation`, by induction on the history.
proof fn lemma_sizes_of_store(ops: Seq<StoreOp>, i: int)
    requires
        count_stores(ops) < u32::MAX,
        0 <= i < ops.len(),
        ops[i] is Store,
    ensures
        replay(ops).response_size(count_stores(ops.take(i)) as u32) == if taken_after(ops, i) {
            None::<nat>
        } else {
            Some(ops[i]->Store_0.len())
        },
    decreases ops.len(),
{
    let p = ops.drop_last();
    let n = ops.len() - 1;
    let t = count_stores(ops.take(i)) as u32;
    lemma_count_prefix(ops, n, ops.len() as int);
    assert(ops.take(n) =~= p);
    lemma_replay_tokens(p);
    let r = ops[i]->Store_0;
    if i == n {
        assert(ops.take(i) =~= p);
        assert(!taken_after(ops, i));
    } else {
        assert(p.take(i) =~= ops.take(i));
        assert(p[i] == ops[i]);
        lemma_sizes_of_store(p, i);
        lemma_count_prefix(p, i, p.len() as int);
        assert(p.take(p.len() as int) =~= p);
        let before = replay(p);
        let last = ops[n];
        // the taken-ness of `i` in `ops` versus `p`
        assert(taken_after(p, i) ==> taken_after(ops, i)) by {
            if taken_after(p, i) {
                let j = choose|j: int| i < j < p.len() && #[trigger] p[j] is GetLast && no_store_between(p, i, j);
                assert(ops[j] == p[j]);
                assert forall|m: int| i < m < j implies !(#[trigger] ops[m] is Store) by {
                    assert(ops[m] == p[m]);
                }
            }
        }
        if last is GetLast && no_store_between(ops, i, n) {
            assert(taken_after(ops, i));
            assert forall|m: int| i < m < ops.len() implies !(#[trigger] ops[m] is Store) by {
                if m < n {
                } else {
                    assert(m == n);
                }
            }
            lemma_last_token(ops, i);
            assert(no_store_between(p, i, p.len() as int)) by {
                assert forall|m: int| i < m < p.len() implies !(#[trigger] p[m] is Store) by {
                    assert(ops[m] == p[m]);
                }
            }
            lemma_last_token(p, i);
            assert(before.last_token == Some(t));
        } else {
            assert(taken_after(ops, i) ==> taken_after(p, i)) by {
                if taken_after(ops, i) {
                    let j = choose|j: int| i < j < ops.len() && #[trigger] ops[j] is GetLast
                        && no_store_between(ops, i, j);
                    if j == n {
                        assert forall|m: int| i < m < n implies !(#[trigger] ops[m] is Store) by {
                            assert(no_store_between(ops, i, j));
                        }
                        assert(false);
                    }
                    assert(p[j] == ops[j]);
                    assert forall|m: int| i < m < j implies !(#[trigger] p[m] is Store) by {
                        assert(ops[m] == p[m]);
                    }
                }
            }
            if last is GetLast {
                // a store after `i` precedes this get_last, so it takes a later token
                assert(!no_store_between(p, i, p.len() as int)) by {
                    let m = choose|m: int| i < m < n && #[trigger] ops[m] is Store;
                    assert(p[m] == ops[m]);
                }
                lemma_last_token(p, i);
            } else if last is Store {
                assert(before.next_token == count_stores(p));
            }
        }
    }
}

/// Storing never overwrites a response: the token it hands out is not in use
/// in a well-formed store.
pub proof fn law_store_token_is_fresh(s: StoreView)
    requires
        s.wf(),
    ensures
        !s.responses.contains_key(s.next_token),
{
}

/// Two stores in a row hand out consecutive tokens.
pub proof fn law_store_tokens_consecutive(s: StoreView, a: Seq<u8>)
    requires
        s.next_token < u32::MAX,
    ensures
        s.stored(a).next_token == s.next_token + 1,
{
}

/// What was stored last is what `get_last` gives back.
pub proof fn law_get_last_returns_stored(s: StoreView, response: Seq<u8>)
    ensures
        s.stored(response).last_response() == Some(response),
{
}

/// `get_last` consumes the response: right after it, `get_last` finds nothing.
pub proof fn law_get_last_consumes(s: StoreView)
    ensures
        s.last_taken().last_response() is None,
{
}

/// A stored response keeps its size under its token while later responses
/// are stored.
pub proof fn law_size_survives_later_stores(s: StoreView, a: Seq<u8>, b: Seq<u8>)
    requires
        s.wf(),
        s.next_token + 1 < u32::MAX,
    ensures
        s.stored(a).response_size(s.next_token) == Some(a.len()),
        s.stored(a).stored(b).response_size(s.next_token) == Some(a.len()),
{
}

/// A stored token is queued for digestion after those already pending.
pub proof fn law_store_queues_token(s: StoreView, response: Seq<u8>)
    ensures
        s.stored(response).pending == s.pending.push(s.next_token),
{
}

impl Default for GrpcResponseStore {
    fn default() -> (s: Self)
        ensures
            s@ == StoreView::empty(),
    {
        GrpcResponseStore::new()
    }
}

} // verus!
