//! Decisions taken while the policy pipeline runs: which upstream a call
//! goes to, which stored reply is digested next, and how the request is
//! answered once the pipeline completes.

use crate::config::{NameMap, UpstreamConfig};
use crate::store::{GrpcResponseStore, HttpReply, StoreView};
use crate::text::{parse_i64, parsed_i64};
use vstd::prelude::*;

verus! {

/// Why a gRPC service call failed.
pub enum ServiceFailure {
    /// The call could not be dispatched.
    Dispatch(String),
    /// The response could not be retrieved.
    Retrieval(String),
}

/// Abstract form of a [`ServiceFailure`].
pub enum ServiceFailureView {
    Dispatch(Seq<char>),
    Retrieval(Seq<char>),
}

impl View for ServiceFailure {
    type V = ServiceFailureView;

    open spec fn view(&self) -> ServiceFailureView {
        match self {
            ServiceFailure::Dispatch(m) => ServiceFailureView::Dispatch(m@),
            ServiceFailure::Retrieval(m) => ServiceFailureView::Retrieval(m@),
        }
    }
}

/// The upstream a gRPC call to `name` goes to.
///
/// # Errors
///
/// `Dispatch("upstream '<name>' not found")` where no upstream has that name.
pub fn upstream_for_call<'a>(upstreams: &'a NameMap<UpstreamConfig>, name: &str) -> (r: Result<
    &'a UpstreamConfig,
    ServiceFailure,
>)
    ensures
        match r {
            Ok(c) => upstreams@.contains_key(name@) && *c == upstreams@[name@],
            Err(f) => !upstreams@.contains_key(name@) && f@ == ServiceFailureView::Dispatch(
                "upstream '"@ + name@ + "' not found"@,
            ),
        },
{
    match upstreams.get(name) {
        Some(c) => Ok(c),
        None => {
            let mut msg = String::from_str("upstream '");
            msg.append(name);
            msg.append("' not found");
            Err(ServiceFailure::Dispatch(msg))
        },
    }
}

/// The response the pipeline asked for: the last stored one, consumed.
///
/// # Errors
///
/// `Retrieval("no response available")` where the last stored response is
/// gone or nothing was stored.
pub fn take_grpc_response(store: &mut GrpcResponseStore) -> (r: Result<Vec<u8>, ServiceFailure>)
    ensures
        match r {
            Ok(v) => old(store)@.last_response() == Some(v@),
            Err(f) => old(store)@.last_response() is None && f@ == ServiceFailureView::Retrieval(
                "no response available"@,
            ),
        },
        final(store)@ == old(store)@.last_taken(),
{
    match store.get_last() {
        Some(v) => Ok(v),
        None => Err(ServiceFailure::Retrieval(String::from_str("no response available"))),
    }
}

/// The gRPC request path of `method` of `service`: `/{service}/{method}`.
pub fn grpc_method_path(service: &str, method: &str) -> (p: String)
    ensures
        p@ == "/"@ + service@ + "/"@ + method@,
{
    let mut p = String::from_str("/");
    p.append(service);
    p.append("/");
    p.append(method);
    p
}

/// How a request the policy denied is answered.
pub struct RejectionPlan {
    pub status: u16,
    pub headers: Vec<(String, String)>,
    pub body: Option<Vec<u8>>,
}

/// The status a denial carries: the captured reply's status code cut to
/// 16 bits, or 403 where no reply was captured.
pub open spec fn rejection_status(reply: Option<HttpReply>) -> u16 {
    match reply {
        Some(r) => r.status_code as u16,
        None => 403u16,
    }
}

/// The answer to a denied request: the captured reply, or a bare 403.
pub fn rejection_for(reply: Option<HttpReply>) -> (plan: RejectionPlan)
    ensures
        plan.status == rejection_status(reply),
        match reply {
            Some(r) => plan.headers == r.headers && plan.body == r.body,
            None => plan.headers@.len() == 0 && plan.body is None,
        },
{
    match reply {
        Some(r) => RejectionPlan { status: r.status_code as u16, headers: r.headers, body: r.body },
        None => RejectionPlan { status: 403, headers: Vec::new(), body: None },
    }
}

/// A denial consumes the captured reply: a later denial without a new reply
/// is a bare 403.
pub proof fn law_denial_consumes_reply(s: StoreView)
    ensures
        rejection_status((StoreView { reply: None, ..s }).reply) == 403,
{
}

/// A captured reply's status code below 65536 is the denial's status; larger
/// codes keep their low 16 bits.
pub proof fn law_rejection_status_of_reply(r: HttpReply)
    ensures
        rejection_status(Some(r)) as int == r.status_code as int % 65536,
        r.status_code < 65536 ==> rejection_status(Some(r)) == r.status_code,
{
    let c = r.status_code;
    assert((c as u16) as int == c as int % 65536) by (bit_vector);
}

/// What the filter does with the request.
pub enum FilterDecision {
    /// Let the request through.
    Continue,
    /// Answer the request as planned.
    Reject(RejectionPlan),
}

/// The decision once the pipeline completes: continue where it says to
/// resume, else reject with the captured reply, which is consumed.
pub fn decide_completion(should_resume: bool, store: &mut GrpcResponseStore) -> (d: FilterDecision)
    ensures
        should_resume ==> d is Continue && final(store)@ == old(store)@,
        !should_resume ==> final(store)@ == (StoreView { reply: None, ..old(store)@ }) && match d {
            FilterDecision::Reject(plan) => {
                &&& plan.status == rejection_status(old(store)@.reply)
                &&& match old(store)@.reply {
                    Some(r) => plan.headers == r.headers && plan.body == r.body,
                    None => plan.headers@.len() == 0 && plan.body is None,
                }
            },
            FilterDecision::Continue => false,
        },
{
    if should_resume {
        FilterDecision::Continue
    } else {
        let reply = store.take_reply();
        FilterDecision::Reject(rejection_for(reply))
    }
}

/// The next stored response for the pipeline to digest.
pub struct DigestStep {
    pub token: u32,
    /// The size of the stored response, 0 where it is gone.
    pub response_size: usize,
}

/// Tokens waiting to be digested in the current batch.
pub struct DigestQueue {
    pending: Vec<u32>,
    refill: bool,
}

/// Abstract form of a [`DigestQueue`].
pub struct DigestQueueView {
    /// The batch being digested; the last token goes first.
    pub pending: Seq<u32>,
    /// Whether an exhausted batch is followed by the tokens stored meanwhile.
    pub refill: bool,
}

impl View for DigestQueue {
    type V = DigestQueueView;

    closed spec fn view(&self) -> DigestQueueView {
        DigestQueueView { pending: self.pending@, refill: self.refill }
    }
}

/// The size `get_response_size` reports for `token`, 0 where none.
pub open spec fn size_or_zero(s: StoreView, token: u32) -> nat {
    match s.response_size(token) {
        Some(n) => n,
        None => 0,
    }
}

/// One digestion step from queue `q` and store `s`: the last token of the
/// batch, after refilling an exhausted batch from the store's pending tokens
/// where the queue refills; `None` where nothing is left.
pub open spec fn next_step(q: DigestQueueView, s: StoreView) -> (DigestQueueView, StoreView, Option<u32>) {
    if q.pending.len() > 0 {
        (DigestQueueView { pending: q.pending.drop_last(), ..q }, s, Some(q.pending.last()))
    } else if !q.refill {
        (q, s, None)
    } else {
        let s2 = StoreView { pending: Seq::empty(), ..s };
        if s.pending.len() == 0 {
            (q, s2, None)
        } else {
            (DigestQueueView { pending: s.pending.drop_last(), ..q }, s2, Some(s.pending.last()))
        }
    }
}

/// The tokens handed out by `k` steps from `q` and `s`, with the queue and
/// store after them.
pub open spec fn run_steps(q: DigestQueueView, s: StoreView, k: nat) -> (DigestQueueView, StoreView, Seq<u32>)
    decreases k,
{
    if k == 0 {
        (q, s, Seq::empty())
    } else {
        let (q1, s1, t) = next_step(q, s);
        let (q2, s2, ts) = run_steps(q1, s1, (k - 1) as nat);
        match t {
            Some(tok) => (q2, s2, seq![tok] + ts),
            None => (q2, s2, ts),
        }
    }
}

/// Digestion stops only when nothing is left: no token in the batch and,
/// for a refilling queue, none pending in the store.
pub proof fn law_digest_stops_only_when_drained(q: DigestQueueView, s: StoreView)
    ensures
        next_step(q, s).2 is None ==> q.pending.len() == 0 && (q.refill ==> s.pending.len() == 0),
{
}

/// A step never changes whether the queue refills, so a refilling queue
/// keeps taking the replies stored meanwhile at every step, not only once:
/// whenever its batch is empty and the store has pending tokens, the step
/// hands out the last of them; it ends only when both are empty.
pub proof fn law_refill_is_kept(q: DigestQueueView, s: StoreView)
    ensures
        next_step(q, s).0.refill == q.refill,
        q.refill && q.pending.len() == 0 && s.pending.len() > 0 ==> next_step(q, s).2 == Some(
            s.pending.last(),
        ) && next_step(q, s).0.pending == s.pending.drop_last() && next_step(q, s).1.pending.len()
            == 0,
        q.refill && next_step(q, s).2 is None ==> q.pending.len() == 0 && s.pending.len() == 0,
{
}

/// Over any number of steps, a queue keeps its refill mode.
pub proof fn law_refill_kept_over_steps(q: DigestQueueView, s: StoreView, k: nat)
    ensures
        run_steps(q, s, k).0.refill == q.refill,
    decreases k,
{
    if k > 0 {
        let (q1, s1, t) = next_step(q, s);
        law_refill_is_kept(q, s);
        law_refill_kept_over_steps(q1, s1, (k - 1) as nat);
    }
}

/// A batch is digested last token first: `k` steps over a batch of at least
/// `k` tokens hand out its last `k` tokens in reverse order, leave the rest of
/// the batch, and leave the store unchanged.
pub proof fn law_batch_digested_last_first(q: DigestQueueView, s: StoreView, k: nat)
    requires
        k <= q.pending.len(),
    ensures
        run_steps(q, s, k).2 == q.pending.subrange(q.pending.len() - k, q.pending.len() as int).reverse(),
        run_steps(q, s, k).0.pending == q.pending.subrange(0, q.pending.len() - k),
        run_steps(q, s, k).1 == s,
    decreases k,
{
    if k > 0 {
        let q1 = DigestQueueView { pending: q.pending.drop_last(), ..q };
        law_batch_digested_last_first(q1, s, (k - 1) as nat);
        let n = q.pending.len();
        assert(q1.pending.subrange(0, q1.pending.len() - (k - 1)) =~= q.pending.subrange(0, n - k));
        assert(q.pending.subrange(n - k, n as int).reverse() =~= seq![q.pending.last()]
            + q1.pending.subrange(q1.pending.len() - (k - 1), q1.pending.len() as int).reverse());
    }
}

/// A digested token's reported size is that of its stored response, or 0
/// where it has none.
pub proof fn law_digest_size(s: StoreView, token: u32)
    ensures
        s.responses.contains_key(token) ==> size_or_zero(s, token) == s.responses[token].len(),
        !s.responses.contains_key(token) ==> size_or_zero(s, token) == 0,
{
}

/// A metadata value asks for exactly one update, of the counter at `path` to
/// the parsed value, where it parses as an `i64`, and for none otherwise.
pub proof fn law_usage_update(raw: Option<Seq<char>>, path: Seq<char>)
    ensures
        match raw {
            Some(t) => match parsed_i64(t) {
                Some(v) => usage_update(raw, path).len() == 1 && usage_update(raw, path)[0] == (path, v),
                None => usage_update(raw, path).len() == 0,
            },
            None => usage_update(raw, path).len() == 0,
        },
{
}

impl DigestQueue {
    /// Start digesting: the store's pending tokens become the first batch.
    /// With `refill`, a batch that runs out is followed by the tokens stored
    /// while it was digested, until none are left.
    pub fn start(store: &mut GrpcResponseStore, refill: bool) -> (q: Self)
        ensures
            q@ == (DigestQueueView { pending: old(store)@.pending, refill }),
            final(store)@ == (StoreView { pending: Seq::empty(), ..old(store)@ }),
    {
        let pending = store.take_pending_digest();
        DigestQueue { pending, refill }
    }

    /// Pop the last token of the batch and report the size of its response.
    fn pop_step(&mut self, store: &GrpcResponseStore) -> (r: DigestStep)
        requires
            old(self)@.pending.len() > 0,
        ensures
            r.token == old(self)@.pending.last(),
            r.response_size == size_or_zero(store@, r.token),
            final(self)@ == (DigestQueueView { pending: old(self)@.pending.drop_last(), ..old(self)@ }),
    {
        let token = self.pending.pop().unwrap();
        let response_size = match store.get_response_size(token) {
            Some(n) => n,
            None => 0,
        };
        DigestStep { token, response_size }
    }

    /// The next token to digest, or `None` when digestion is over.
    pub fn next(&mut self, store: &mut GrpcResponseStore) -> (r: Option<DigestStep>)
        ensures
            final(self)@ == next_step(old(self)@, old(store)@).0,
            final(store)@ == next_step(old(self)@, old(store)@).1,
            match r {
                Some(step) => next_step(old(self)@, old(store)@).2 == Some(step.token)
                    && step.response_size == size_or_zero(old(store)@, step.token),
                None => next_step(old(self)@, old(store)@).2 is None,
            },
    {
        if self.pending.len() > 0 {
            return Some(self.pop_step(store));
        }
        if !self.refill {
            return None;
        }
        let batch = store.take_pending_digest();
        if batch.len() == 0 {
            return None;
        }
        self.pending = batch;
        Some(self.pop_step(store))
    }
}

/// The usage counter update that a metadata value asks for: the counter at
/// `path` set to the value, where it parses as an `i64`.
pub open spec fn usage_update(raw: Option<Seq<char>>, path: Seq<char>) -> Seq<(Seq<char>, i64)> {
    match raw {
        Some(t) => match parsed_i64(t) {
            Some(v) => seq![(path, v)],
            None => Seq::empty(),
        },
        None => Seq::empty(),
    }
}

/// Abstract form of a text.
pub open spec fn opt_text(t: Option<&str>) -> Option<Seq<char>> {
    match t {
        Some(s) => Some(s@),
        None => None,
    }
}

/// Append the update for `raw` at `path` to `out`.
fn push_usage(out: &mut Vec<(String, i64)>, raw: Option<&str>, path: &str)
    ensures
        final(out)@.len() == old(out)@.len() + usage_update(opt_text(raw), path@).len(),
        forall|i: int| 0 <= i < old(out)@.len() ==> #[trigger] final(out)@[i] == old(out)@[i],
        forall|i: int|
            0 <= i < usage_update(opt_text(raw), path@).len() ==> (#[trigger] final(out)@[old(
                out,
            )@.len() + i]).0@ == usage_update(opt_text(raw), path@)[i].0 && final(out)@[old(
                out,
            )@.len() + i].1 == usage_update(opt_text(raw), path@)[i].1,
{
    match raw {
        Some(t) => match parse_i64(t) {
            Some(v) => {
                out.push((String::from_str(path), v));
            },
            None => {},
        },
        None => {},
    }
}

/// The usage counters to set in the pipeline's response body from the
/// token-count metadata: total, input and output tokens, in that order, each
/// where its metadata value parses as an `i64`.
pub fn usage_updates(total: Option<&str>, input: Option<&str>, output: Option<&str>) -> (r: Vec<
    (String, i64),
>)
    ensures
        ({
            let expected = usage_update(opt_text(total), "/usage/total_tokens"@) + usage_update(
                opt_text(input),
                "/usage/input_tokens"@,
            ) + usage_update(opt_text(output), "/usage/output_tokens"@);
            &&& r@.len() == expected.len()
            &&& forall|i: int|
                0 <= i < r@.len() ==> (#[trigger] r@[i]).0@ == expected[i].0 && r@[i].1
                    == expected[i].1
        }),
{
    let mut out: Vec<(String, i64)> = Vec::new();
    push_usage(&mut out, total, "/usage/total_tokens");
    let ghost a = out@;
    push_usage(&mut out, input, "/usage/input_tokens");
    let ghost b = out@;
    push_usage(&mut out, output, "/usage/output_tokens");
    proof {
        let e1 = usage_update(opt_text(total), "/usage/total_tokens"@);
        let e2 = usage_update(opt_text(input), "/usage/input_tokens"@);
        let e3 = usage_update(opt_text(output), "/usage/output_tokens"@);
        let expected = e1 + e2 + e3;
        assert forall|i: int| 0 <= i < out@.len() implies (#[trigger] out@[i]).0@ == expected[i].0
            && out@[i].1 == expected[i].1 by {
            if i < e1.len() {
                assert(out@[i] == b[i]);
                assert(b[i] == a[i]);
                assert(a[0 + i] == a[i]);
            } else if i < e1.len() + e2.len() {
                assert(out@[i] == b[i]);
                assert(b[a.len() + (i - a.len())] == b[i]);
            } else {
                assert(out@[b.len() + (i - b.len())] == out@[i]);
            }
        }
    }
    out
}

} // verus!
