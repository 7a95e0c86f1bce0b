//! Decisions of the device-management worker: the cached device state, how a backend
//! query's statuses read, and how a batch of queued messages is answered, in order.
use vstd::prelude::*;

use crate::error::Error;
use crate::session::DeviceType;

verus! {

/// Identifier of an audio endpoint, as the backend reports it.
pub type EndpointId = u64;

/// Status a native call reports when no default endpoint exists.
pub const E_NOTFOUND: i32 = -2147023728;

/// Status a native call reports when it ran out of memory.
pub const E_OUTOFMEMORY: i32 = -2147024882;

/// Snapshot of the default input and output endpoints and of all endpoints.
pub struct DeviceState {
    pub default_in: Option<EndpointId>,
    pub default_out: Option<EndpointId>,
    pub devices: Vec<EndpointId>,
}

/// The model of a snapshot.
pub struct StateView {
    pub default_in: Option<EndpointId>,
    pub default_out: Option<EndpointId>,
    pub devices: Seq<EndpointId>,
}

impl View for DeviceState {
    type V = StateView;

    open spec fn view(&self) -> StateView {
        StateView { default_in: self.default_in, default_out: self.default_out, devices: self.devices@ }
    }
}

/// What the backend reported for one query: each call's status and what it produced.
pub struct RawQuery {
    pub in_status: i32,
    pub default_in: Option<EndpointId>,
    pub out_status: i32,
    pub default_out: Option<EndpointId>,
    pub enum_status: i32,
    pub devices: Vec<EndpointId>,
}

/// How the status of a native call reads; `missing_ok` when "not found" is no failure.
pub open spec fn status_result(status: i32, missing_ok: bool) -> Result<(), Error> {
    if status >= 0 || (missing_ok && status == E_NOTFOUND) {
        Ok(())
    } else if status == E_OUTOFMEMORY {
        Err(Error::SystemResources)
    } else {
        Err(Error::Unknown)
    }
}

/// Maps a native status to the error taxonomy.
pub fn check_status(status: i32, missing_ok: bool) -> (r: Result<(), Error>)
    ensures
        r == status_result(status, missing_ok),
{
    if status >= 0 || (missing_ok && status == E_NOTFOUND) {
        Ok(())
    } else if status == E_OUTOFMEMORY {
        Err(Error::SystemResources)
    } else {
        Err(Error::Unknown)
    }
}

/// The endpoint a successful lookup reported, or none where it reported "not found".
pub open spec fn found(status: i32, id: Option<EndpointId>) -> Option<EndpointId> {
    if status >= 0 { id } else { None }
}

/// What a query yields: the first failing status in call order, or the snapshot.
pub open spec fn query_result(raw: RawQuery) -> Result<StateView, Error> {
    if status_result(raw.in_status, true) is Err {
        Err(status_result(raw.in_status, true)->Err_0)
    } else if status_result(raw.out_status, true) is Err {
        Err(status_result(raw.out_status, true)->Err_0)
    } else if status_result(raw.enum_status, false) is Err {
        Err(status_result(raw.enum_status, false)->Err_0)
    } else {
        Ok(StateView {
            default_in: found(raw.in_status, raw.default_in),
            default_out: found(raw.out_status, raw.default_out),
            devices: raw.devices@,
        })
    }
}

/// The models of the query outcomes handed to the worker.
pub open spec fn outcomes(qs: Seq<Result<DeviceState, Error>>) -> Seq<Result<StateView, Error>> {
    qs.map_values(|q: Result<DeviceState, Error>| outcome_view(q))
}

/// The model of a query outcome handed to the worker.
pub open spec fn outcome_view(q: Result<DeviceState, Error>) -> Result<StateView, Error> {
    match q {
        Ok(s) => Ok(s@),
        Err(e) => Err(e),
    }
}

impl DeviceState {
    /// Reads what the backend reported for the default capture endpoint, the default render
    /// endpoint and the endpoint collection, in that order.
    pub fn query(raw: RawQuery) -> (r: Result<DeviceState, Error>)
        ensures
            outcome_view(r) == query_result(raw),
    {
        let raw_devices = raw.devices;
        match check_status(raw.in_status, true) {
            Err(e) => return Err(e),
            Ok(()) => {},
        }
        match check_status(raw.out_status, true) {
            Err(e) => return Err(e),
            Ok(()) => {},
        }
        match check_status(raw.enum_status, false) {
            Err(e) => return Err(e),
            Ok(()) => {},
        }
        let default_in = if raw.in_status >= 0 { raw.default_in } else { None };
        let default_out = if raw.out_status >= 0 { raw.default_out } else { None };
        Ok(DeviceState { default_in, default_out, devices: raw_devices })
    }
}

/// A request queued for the worker.
#[derive(Copy, Clone, Debug, PartialEq, Eq, Structural)]
pub enum Message {
    /// Re-query the default endpoints and the endpoint collection.
    Refresh,
    /// Report the cached default endpoint of a direction.
    GetDefault(DeviceType),
    /// Leave the message loop; nothing is answered.
    Kill,
}

/// The worker's answer to one message.
#[derive(Copy, Clone, Debug, PartialEq, Eq)]
pub enum Reply {
    /// Answer to `Refresh`.
    Refreshed(Result<(), Error>),
    /// Answer to `GetDefault`.
    Default(Result<EndpointId, Error>),
}

/// The cached default endpoint of a direction.
pub open spec fn default_of(s: StateView, ty: DeviceType) -> Result<EndpointId, Error> {
    let d = match ty {
        DeviceType::Input => s.default_in,
        DeviceType::Output => s.default_out,
    };
    match d {
        Some(id) => Ok(id),
        None => Err(Error::NoDeviceAvailable),
    }
}

/// Number of fresh queries a batch needs: one per `Refresh` before the first `Kill`.
pub open spec fn refreshes(batch: Seq<Message>) -> nat
    decreases batch.len(),
{
    if batch.len() == 0 {
        0
    } else if batch[0] is Kill {
        0
    } else if batch[0] is Refresh {
        1 + refreshes(batch.drop_first())
    } else {
        refreshes(batch.drop_first())
    }
}

/// Answers a batch in order, taking one query outcome per `Refresh`: the state after it, the
/// replies, and whether a `Kill` ended it. A failed query leaves the state as it was.
pub open spec fn run_batch(s: StateView, batch: Seq<Message>, queries: Seq<Result<StateView, Error>>)
    -> (StateView, Seq<Reply>, bool)
    decreases batch.len(),
{
    if batch.len() == 0 {
        (s, seq![], false)
    } else {
        match batch[0] {
            Message::Kill => (s, seq![], true),
            Message::Refresh => {
                let (s1, reply) = match queries[0] {
                    Ok(fresh) => (fresh, Reply::Refreshed(Ok(()))),
                    Err(e) => (s, Reply::Refreshed(Err(e))),
                };
                let rest = run_batch(s1, batch.drop_first(), queries.drop_first());
                (rest.0, seq![reply] + rest.1, rest.2)
            },
            Message::GetDefault(ty) => {
                let rest = run_batch(s, batch.drop_first(), queries);
                (rest.0, seq![Reply::Default(default_of(s, ty))] + rest.1, rest.2)
            },
        }
    }
}

/// The messages one `default_device` request queues: a refresh, then the lookup.
pub open spec fn default_request(ty: DeviceType) -> Seq<Message> {
    seq![Message::Refresh, Message::GetDefault(ty)]
}

/// No message of the batch is a `Kill`.
pub open spec fn no_kill(batch: Seq<Message>) -> bool {
    forall|i: int| 0 <= i < batch.len() ==> !(#[trigger] batch[i] is Kill)
}

/// The answer a `Refresh` gets from a query outcome.
pub open spec fn refresh_reply(q: Result<StateView, Error>) -> Reply {
    match q {
        Ok(_) => Reply::Refreshed(Ok(())),
        Err(e) => Reply::Refreshed(Err(e)),
    }
}

proof fn lemma_refreshes_concat(a: Seq<Message>, b: Seq<Message>)
    requires
        no_kill(a),
    ensures
        refreshes(a + b) == refreshes(a) + refreshes(b),
    decreases a.len(),
{
    if a.len() == 0 {
        assert(a + b =~= b);
    } else {
        let a1 = a.drop_first();
        assert((a + b).drop_first() =~= a1 + b);
        assert((a + b)[0] == a[0]);
        assert(!(a[0] is Kill));
        assert(no_kill(a1)) by {
            assert forall|i: int| 0 <= i < a1.len() implies !(#[trigger] a1[i] is Kill) by {
                assert(a1[i] == a[i + 1]);
            }
        }
        lemma_refreshes_concat(a1, b);
    }
}

/// Answering `a` then `b` is answering `a + b`, where `a` holds no `Kill`: every message of
/// `a` is answered, in order, and `b` starts from the state `a` left.
pub proof fn lemma_run_concat(
    s: StateView,
    a: Seq<Message>,
    b: Seq<Message>,
    qa: Seq<Result<StateView, Error>>,
    qb: Seq<Result<StateView, Error>>,
)
    requires
        no_kill(a),
        qa.len() == refreshes(a),
    ensures
        refreshes(a + b) == refreshes(a) + refreshes(b),
        run_batch(s, a, qa).1.len() == a.len(),
        !run_batch(s, a, qa).2,
        run_batch(s, a + b, qa + qb) == ({
            let ra = run_batch(s, a, qa);
            let rb = run_batch(ra.0, b, qb);
            (rb.0, ra.1 + rb.1, rb.2)
        }),
    decreases a.len(),
{
    lemma_refreshes_concat(a, b);
    if a.len() == 0 {
        assert(a + b =~= b);
        assert(qa + qb =~= qb);
        assert(seq![] + run_batch(s, b, qb).1 =~= run_batch(s, b, qb).1);
    } else {
        let a1 = a.drop_first();
        assert((a + b).drop_first() =~= a1 + b);
        assert((a + b)[0] == a[0]);
        assert(no_kill(a1)) by {
            assert forall|i: int| 0 <= i < a1.len() implies !(#[trigger] a1[i] is Kill) by {
                assert(a1[i] == a[i + 1]);
            }
        }
        assert(!(a[0] is Kill));
        match a[0] {
            Message::Refresh => {
                assert((qa + qb).drop_first() =~= qa.drop_first() + qb);
                assert((qa + qb)[0] == qa[0]);
                let s1 = match qa[0] {
                    Ok(fresh) => fresh,
                    Err(_) => s,
                };
                lemma_run_concat(s1, a1, b, qa.drop_first(), qb);
                let ra1 = run_batch(s1, a1, qa.drop_first());
                let rb = run_batch(ra1.0, b, qb);
                let reply = refresh_reply(qa[0]);
                assert(seq![reply] + (ra1.1 + rb.1) =~= (seq![reply] + ra1.1) + rb.1);
            },
            Message::GetDefault(ty) => {
                lemma_run_concat(s, a1, b, qa, qb);
                let ra1 = run_batch(s, a1, qa);
                let rb = run_batch(ra1.0, b, qb);
                let reply = Reply::Default(default_of(s, ty));
                assert(seq![reply] + (ra1.1 + rb.1) =~= (seq![reply] + ra1.1) + rb.1);
            },
            Message::Kill => {},
        }
    }
}

/// Messages are answered in the order they were queued: in a batch where the two messages
/// of a `default_device` request follow earlier messages `pre` (none a `Kill`), the refresh
/// is answered first, from the next fresh query, and the lookup then reports the default
/// endpoint of that fresh snapshot; if that query failed, of the snapshot `pre` left.
pub proof fn lemma_fifo_default_request(
    s: StateView,
    pre: Seq<Message>,
    ty: DeviceType,
    post: Seq<Message>,
    queries: Seq<Result<StateView, Error>>,
)
    requires
        no_kill(pre),
        queries.len() == refreshes(pre + default_request(ty) + post),
    ensures
        ({
            let r = run_batch(s, pre + default_request(ty) + post, queries);
            let k = refreshes(pre) as int;
            let left = run_batch(s, pre, queries.take(k)).0;
            &&& r.1.len() >= pre.len() + 2
            &&& r.1[pre.len() as int] == refresh_reply(queries[k])
            &&& r.1[pre.len() + 1int] == Reply::Default(
                match queries[k] {
                    Ok(fresh) => default_of(fresh, ty),
                    Err(_) => default_of(left, ty),
                },
            )
        }),
{
    let k = refreshes(pre) as int;
    let req = default_request(ty);
    let rest = req + post;
    assert(pre + req + post =~= pre + rest);
    lemma_refreshes_concat(pre, rest);
    assert(rest[0] == Message::Refresh);
    assert(rest.drop_first()[0] == Message::GetDefault(ty));
    assert(rest.drop_first().drop_first() =~= post);
    assert(refreshes(rest) == 1 + refreshes(rest.drop_first()));
    lemma_run_concat(s, pre, rest, queries.take(k), queries.skip(k));
    assert(queries.take(k) + queries.skip(k) =~= queries);
    let ra = run_batch(s, pre, queries.take(k));
    let left = ra.0;
    let qs = queries.skip(k);
    assert(qs[0] == queries[k]);
    let s1 = match qs[0] {
        Ok(fresh) => fresh,
        Err(_) => left,
    };
    let r2 = run_batch(s1, rest.drop_first(), qs.drop_first());
    let r3 = run_batch(s1, post, qs.drop_first());
    assert(r2.1 == seq![Reply::Default(default_of(s1, ty))] + r3.1);
    let rb = run_batch(left, rest, qs);
    assert(rb.1 == seq![refresh_reply(qs[0])] + r2.1);
    assert(rb.1[0] == refresh_reply(queries[k]));
    assert(rb.1[1] == Reply::Default(default_of(s1, ty)));
    let whole = run_batch(s, pre + rest, queries);
    assert(whole.1 == ra.1 + rb.1);
    assert(whole.1[pre.len() as int] == rb.1[0]);
    assert(whole.1[pre.len() + 1int] == rb.1[1]);
}

/// A `Kill` ends the loop: every message queued before it is answered, in order, nothing
/// after it is, and a batch without a `Kill` is answered in full and does not end the loop.
pub proof fn lemma_kill_ends(
    s: StateView,
    pre: Seq<Message>,
    post: Seq<Message>,
    queries: Seq<Result<StateView, Error>>,
)
    requires
        no_kill(pre),
        queries.len() == refreshes(pre),
    ensures
        !run_batch(s, pre, queries).2,
        run_batch(s, pre, queries).1.len() == pre.len(),
        run_batch(s, pre + seq![Message::Kill] + post, queries) == ({
            let r = run_batch(s, pre, queries);
            (r.0, r.1, true)
        }),
{
    let tail = seq![Message::Kill] + post;
    assert(pre + seq![Message::Kill] + post =~= pre + tail);
    lemma_run_concat(s, pre, tail, queries, seq![]);
    assert(queries + seq![] =~= queries);
    let r = run_batch(s, pre, queries);
    assert(tail[0] is Kill);
    assert(r.1 + seq![] =~= r.1);
}

/// What a `default_device` request returns from its two replies: the refresh's failure if
/// it failed, else the lookup's answer.
pub open spec fn default_result(refreshed: Result<(), Error>, lookup: Result<EndpointId, Error>)
    -> Result<EndpointId, Error> {
    match refreshed {
        Err(e) => Err(e),
        Ok(()) => lookup,
    }
}

/// The messages one `default_device` request queues, in order.
pub fn request_default(ty: DeviceType) -> (r: Vec<Message>)
    ensures
        r@ == default_request(ty),
{
    let mut v: Vec<Message> = Vec::new();
    v.push(Message::Refresh);
    v.push(Message::GetDefault(ty));
    assert(v@ =~= default_request(ty));
    v
}

/// Combines the replies of a `default_device` request: the refresh must succeed first.
pub fn finish_default(refreshed: Result<(), Error>, lookup: Result<EndpointId, Error>)
    -> (r: Result<EndpointId, Error>)
    ensures
        r == default_result(refreshed, lookup),
{
    match refreshed {
        Err(e) => Err(e),
        Ok(()) => lookup,
    }
}

/// How the worker's start-up reads: the thread's backend initialisation status, whether the
/// device enumerator was created, then the first query.
pub open spec fn startup_result(init_status: i32, enumerator_ok: bool, first: Result<StateView, Error>)
    -> Result<StateView, Error> {
    if init_status < 0 || !enumerator_ok {
        Err(Error::SystemResources)
    } else {
        first
    }
}

/// The state the worker owns: the last snapshot that a query delivered.
pub struct DeviceWorker {
    state: DeviceState,
}

impl View for DeviceWorker {
    type V = StateView;

    closed spec fn view(&self) -> StateView {
        self.state@
    }
}

impl DeviceWorker {
    /// Starts the worker: a failed backend initialisation or a missing device enumerator
    /// is a resource failure, then the first query's failure is the start-up failure.
    pub fn start(init_status: i32, enumerator_ok: bool, first: Result<DeviceState, Error>)
        -> (r: Result<DeviceWorker, Error>)
        ensures
            r is Ok <==> startup_result(init_status, enumerator_ok, outcome_view(first)) is Ok,
            r is Ok ==> r->Ok_0@ == startup_result(init_status, enumerator_ok, outcome_view(first))->Ok_0,
            r is Err ==> r->Err_0 == startup_result(init_status, enumerator_ok, outcome_view(first))->Err_0,
    {
        if init_status < 0 || !enumerator_ok {
            return Err(Error::SystemResources);
        }
        match first {
            Ok(state) => Ok(DeviceWorker { state }),
            Err(e) => Err(e),
        }
    }

    /// The cached default endpoint of a direction.
    pub fn default_endpoint(&self, ty: DeviceType) -> (r: Result<EndpointId, Error>)
        ensures
            r == default_of(self@, ty),
    {
        let d = match ty {
            DeviceType::Input => self.state.default_in,
            DeviceType::Output => self.state.default_out,
        };
        match d {
            Some(id) => Ok(id),
            None => Err(Error::NoDeviceAvailable),
        }
    }

    /// How many query outcomes `handle_batch` needs for `batch`.
    pub fn refreshes_needed(batch: &Vec<Message>) -> (r: usize)
        ensures
            r == refreshes(batch@),
    {
        let n = batch.len();
        let mut i: usize = n;
        let mut count: usize = 0;
        while i > 0
            invariant
                i <= n,
                n == batch@.len(),
                count == refreshes(batch@.subrange(i as int, n as int)),
                count <= n - i,
            decreases i,
        {
            let ghost tail = batch@.subrange(i as int, n as int);
            i = i - 1;
            assert(batch@.subrange(i as int, n as int).drop_first() =~= tail);
            match batch[i] {
                Message::Kill => {
                    count = 0;
                },
                Message::Refresh => {
                    count = count + 1;
                },
                Message::GetDefault(_) => {},
            }
        }
        assert(batch@.subrange(0, n as int) =~= batch@);
        count
    }

    /// Answers the messages of `batch` in order until the first `Kill`, with the outcome of
    /// one fresh query per `Refresh`. Returns the replies and whether a `Kill` was met.
    pub fn handle_batch(&mut self, batch: &Vec<Message>, queries: Vec<Result<DeviceState, Error>>)
        -> (r: (Vec<Reply>, bool))
        requires
            queries@.len() == refreshes(batch@),
        ensures
            (final(self)@, r.0@, r.1) == run_batch(old(self)@, batch@, outcomes(queries@)),
    {
        let ghost whole = run_batch(self@, batch@, outcomes(queries@));
        let n = batch.len();
        let mut rest = queries;
        let mut replies: Vec<Reply> = Vec::new();
        let mut killed = false;
        let mut i: usize = 0;
        assert(batch@.subrange(0, n as int) =~= batch@);
        assert(replies@ + whole.1 =~= whole.1);
        while i < n && !killed
            invariant
                i <= n,
                n == batch@.len(),
                !killed ==> refreshes(batch@.subrange(i as int, n as int)) == rest@.len(),
                !killed ==> whole.0 == run_batch(self@, batch@.subrange(i as int, n as int), outcomes(rest@)).0,
                !killed ==> whole.1 == replies@ + run_batch(self@, batch@.subrange(i as int, n as int), outcomes(rest@)).1,
                !killed ==> whole.2 == run_batch(self@, batch@.subrange(i as int, n as int), outcomes(rest@)).2,
                killed ==> whole == (self@, replies@, true),
            decreases n - i + if killed { 0int } else { 1int },
        {
            let ghost tail = batch@.subrange(i as int, n as int);
            let ghost outs = outcomes(rest@);
            let ghost before = self@;
            assert(tail.drop_first() =~= batch@.subrange(i + 1, n as int));
            assert(tail[0] == batch@[i as int]);
            match batch[i] {
                Message::Kill => {
                    killed = true;
                    assert(replies@ + seq![] =~= replies@);
                },
                Message::Refresh => {
                    let q = rest.remove(0);
                    assert(outs[0] == outcome_view(q));
                    assert(outs.drop_first() =~= outcomes(rest@));
                    match q {
                        Ok(fresh) => {
                            self.state = fresh;
                            replies.push(Reply::Refreshed(Ok(())));
                        },
                        Err(e) => {
                            replies.push(Reply::Refreshed(Err(e)));
                        },
                    }
                    i = i + 1;
                    assert(whole.1 =~= replies@ + run_batch(self@, batch@.subrange(i as int, n as int), outcomes(rest@)).1);
                },
                Message::GetDefault(ty) => {
                    let d = self.default_endpoint(ty);
                    replies.push(Reply::Default(d));
                    i = i + 1;
                    assert(whole.1 =~= replies@ + run_batch(self@, batch@.subrange(i as int, n as int), outcomes(rest@)).1);
                },
            }
        }
        if !killed {
            assert(batch@.subrange(i as int, n as int) =~= Seq::<Message>::empty());
            assert(replies@ + seq![] =~= replies@);
        }
        (replies, killed)
    }
}

} // verus!
