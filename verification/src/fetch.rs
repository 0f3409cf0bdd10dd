//! The fetch of the secrets: one job for each declaration, the jobs in
//! chunks, the chunks one after the other.
//!
//! A job asks for the newer layout first and for the older one if that
//! fails. The two requests are one attempt; a failed attempt is followed by
//! another, after a delay, while retries are left. The jobs of a chunk run at
//! once and end in any order; their results are put back in the order of the
//! declarations.

use vstd::prelude::*;

use crate::error::{Error, ErrorView};
use crate::retry::{Retry, Verdict};
use crate::secrets::{Secret, SecretSpec, SecretSpecView, SecretView};
use crate::vault::{
    reply_read, request_secret, secret_from_reply, secret_in_reply, secret_request, FetchAllOpts,
    Reply, Request, RequestView, Version,
};

verus! {

/// What a job does after a reply.
pub enum FetchStep {
    /// The secret is there.
    Finished(Secret),
    /// The newer layout failed, as the error says: send the job's request
    /// for the older layout at once.
    Fallback(Error),
    /// Both layouts failed, the older one as the error says: wait, then send
    /// the job's request, which is for the newer layout again.
    Retry(Error),
    /// Both layouts failed, the older one as the error says, and no attempt
    /// is left.
    GiveUp(Error),
}

/// Mathematical value of a [`FetchStep`].
pub enum FetchStepView {
    Finished(SecretView),
    Fallback(ErrorView),
    Retry(ErrorView),
    GiveUp(ErrorView),
}

impl View for FetchStep {
    type V = FetchStepView;

    open spec fn view(&self) -> FetchStepView {
        match self {
            FetchStep::Finished(s) => FetchStepView::Finished(s@),
            FetchStep::Fallback(e) => FetchStepView::Fallback(e@),
            FetchStep::Retry(e) => FetchStepView::Retry(e@),
            FetchStep::GiveUp(e) => FetchStepView::GiveUp(e@),
        }
    }
}

impl FetchStep {
    /// What the fetch has come to with this step: the secret, a failure that
    /// ends it, or nothing yet.
    pub open spec fn result(self) -> Option<Result<Secret, Error>> {
        match self {
            FetchStep::Finished(secret) => Some(Ok(secret)),
            FetchStep::GiveUp(_) => Some(Err(Error::MaxRetries)),
            _ => None,
        }
    }
}

/// Whether what a fetch has come to is for the declaration `spec`: a secret
/// is called as the variable of the declaration.
pub open spec fn is_result_for(result: Option<Result<Secret, Error>>, spec: SecretSpecView) -> bool {
    result matches Some(Ok(secret)) ==> secret.name@ == spec.env_name()
}

/// Where a job stands: which layout its next request asks for, and how many
/// attempts may follow a failed one. An attempt is a request for the newer
/// layout and, if that fails, one for the older layout.
pub struct Phase {
    pub version: Version,
    pub left: nat,
}

/// What a job does after a reply that means `outcome`.
pub open spec fn fetch_step(phase: Phase, outcome: Result<SecretView, ErrorView>) -> FetchStepView {
    match outcome {
        Ok(secret) => FetchStepView::Finished(secret),
        Err(e) => match phase.version {
            Version::V2 => FetchStepView::Fallback(e),
            Version::V1 => if phase.left > 0 {
                FetchStepView::Retry(e)
            } else {
                FetchStepView::GiveUp(e)
            },
        },
    }
}

/// Where a job stands after a reply. The fallback to the older layout uses
/// up no attempt.
pub open spec fn phase_after(phase: Phase, succeeded: bool) -> Phase {
    if succeeded {
        phase
    } else {
        match phase.version {
            Version::V2 => Phase { version: Version::V1, left: phase.left },
            Version::V1 => if phase.left > 0 {
                Phase { version: Version::V2, left: (phase.left - 1) as nat }
            } else {
                phase
            },
        }
    }
}

/// The token of a job or of a run, as a value.
pub open spec fn token_value(token: Option<String>) -> Option<Seq<char>> {
    match token {
        Some(t) => Some(t@),
        None => None,
    }
}

/// The fetch of one secret: the newer layout first, the older one if that
/// fails, and the two again after a delay while attempts are left.
pub struct FetchJob {
    /// Address of the store.
    pub host: String,
    /// The token, if there is one.
    pub token: Option<String>,
    /// The declaration of the secret.
    pub spec: SecretSpec,
    /// The layout that the next request asks for.
    pub version: Version,
    /// The attempts that are left.
    pub retry: Retry,
}

impl FetchJob {
    /// Where the job stands.
    pub open spec fn phase(self) -> Phase {
        Phase { version: self.version, left: self.retry.left as nat }
    }

    /// The value of the job's token.
    pub open spec fn token_view(self) -> Option<Seq<char>> {
        token_value(self.token)
    }

    /// The request that the job sends next.
    pub open spec fn request_view(self) -> RequestView {
        secret_request(self.host@, self.token_view(), self.spec@, self.version)
    }

    /// Starts the fetch of the secret that `spec` declares, with `retries`
    /// attempts after the first.
    pub fn new(host: String, token: Option<String>, spec: SecretSpec, retries: usize) -> (job: Self)
        ensures
            job.host == host,
            job.token == token,
            job.spec == spec,
            job.phase() == (Phase { version: Version::V2, left: retries as nat }),
    {
        FetchJob { host, token, spec, version: Version::V2, retry: Retry::new(retries) }
    }

    /// The request to send next.
    pub fn request(&self) -> (r: Request)
        ensures
            r@ == self.request_view(),
    {
        let token: Option<&str> = match &self.token {
            Some(t) => Some(t.as_str()),
            None => None,
        };
        request_secret(self.host.as_str(), token, &self.spec, self.version)
    }

    /// Takes the reply to the request that was sent last and says what to do
    /// next.
    pub fn on_reply(&mut self, reply: &Reply) -> (step: FetchStep)
        ensures
            step@ == fetch_step(
                old(self).phase(),
                secret_in_reply(
                    *reply,
                    reply_read(*reply),
                    old(self).request_view().url,
                    old(self).spec@,
                    old(self).version,
                ),
            ),
            final(self).phase() == phase_after(old(self).phase(), step is Finished),
            is_result_for(step.result(), old(self).spec@),
            final(self).host == old(self).host,
            final(self).token == old(self).token,
            final(self).spec == old(self).spec,
    {
        let request = self.request();
        match secret_from_reply(reply, request.url.as_str(), &self.spec, self.version) {
            Ok(secret) => FetchStep::Finished(secret),
            Err(e) => match self.version {
                Version::V2 => {
                    self.version = Version::V1;
                    FetchStep::Fallback(e)
                },
                Version::V1 => match self.retry.record(false) {
                    Verdict::Again => {
                        self.version = Version::V2;
                        FetchStep::Retry(e)
                    },
                    _ => FetchStep::GiveUp(e),
                },
            },
        }
    }
}

impl FetchStep {
    /// What the fetch came to, once it is over: the secret, or, after the
    /// last attempt, that the retries are used up.
    pub fn outcome(self) -> (r: Option<Result<Secret, Error>>)
        ensures
            r == self.result(),
    {
        match self {
            FetchStep::Finished(secret) => Some(Ok(secret)),
            FetchStep::GiveUp(_) => Some(Err(Error::MaxRetries)),
            _ => None,
        }
    }
}

/// Where a job stands after `failures` replies in a row have failed, with
/// `retries` attempts after the first.
pub open spec fn phase_after_failures(retries: nat, failures: nat) -> Phase
    decreases failures,
{
    if failures == 0 {
        Phase { version: Version::V2, left: retries }
    } else {
        phase_after(phase_after_failures(retries, (failures - 1) as nat), false)
    }
}

/// While replies fail, the layouts take turns and every second failure uses
/// up an attempt.
pub proof fn lemma_phase_after_failures(retries: nat, failures: nat)
    requires
        failures <= 2 * retries + 1,
    ensures
        phase_after_failures(retries, failures) == (Phase {
            version: if failures % 2 == 0 {
                Version::V2
            } else {
                Version::V1
            },
            left: (retries - failures / 2) as nat,
        }),
    decreases failures,
{
    if failures > 0 {
        lemma_phase_after_failures(retries, (failures - 1) as nat);
    }
}

/// When every reply fails, a job makes exactly `retries + 1` attempts, each a
/// request for the newer layout and one for the older: the failure of a
/// newer-layout request is followed by the fallback, the failure of an
/// older-layout request by a retry while attempts are left, and the job gives
/// up at reply `2 * retries + 2` and not before.
pub proof fn law_fetch_gives_up_after_all_attempts(retries: nat, failures: nat, e: ErrorView)
    requires
        failures <= 2 * retries + 1,
    ensures
        fetch_step(phase_after_failures(retries, failures), Err(e)) == if failures % 2 == 0 {
            FetchStepView::Fallback(e)
        } else if failures < 2 * retries + 1 {
            FetchStepView::Retry(e)
        } else {
            FetchStepView::GiveUp(e)
        },
{
    lemma_phase_after_failures(retries, failures);
}

/// When the newer layout fails and the older one then holds the secret, the
/// job ends with that secret after two requests: it falls back at once, the
/// fallback uses up no attempt, and no error is raised.
pub proof fn law_fallback_returns_older_layout(
    retries: nat,
    newer: Result<SecretView, ErrorView>,
    secret: SecretView,
)
    requires
        newer is Err,
    ensures
        fetch_step(phase_after_failures(retries, 0), newer) == FetchStepView::Fallback(newer->Err_0),
        phase_after_failures(retries, 1) == (Phase { version: Version::V1, left: retries }),
        fetch_step(phase_after_failures(retries, 1), Ok(secret)) == FetchStepView::Finished(secret),
{
    assert(phase_after_failures(retries, 1) == phase_after(phase_after_failures(retries, 0), false));
}

/// How many chunks `count` references make when a chunk holds `concurrency`
/// of them.
pub open spec fn chunk_count(count: int, concurrency: int) -> int {
    (count + concurrency - 1) / concurrency
}

/// The chunk at position `i`: from its first reference up to, not including,
/// its last. Each chunk but the last holds `concurrency` references, and the
/// last holds what is left.
pub open spec fn chunk_at(count: int, concurrency: int, i: int) -> (int, int) {
    (
        i * concurrency,
        if (i + 1) * concurrency <= count {
            (i + 1) * concurrency
        } else {
            count
        },
    )
}

/// Divides `count` references, numbered from zero, into the chunks that are
/// fetched one after the other, the references of a chunk at once.
pub fn chunk_ranges(count: usize, concurrency: usize) -> (ranges: Vec<(usize, usize)>)
    requires
        concurrency > 0,
    ensures
        ranges.len() == chunk_count(count as int, concurrency as int),
        forall|i: int|
            0 <= i < ranges.len() ==> ((#[trigger] ranges[i]).0 as int, ranges[i].1 as int)
                == chunk_at(count as int, concurrency as int, i),
{
    let mut ranges: Vec<(usize, usize)> = Vec::new();
    let mut start: usize = 0;
    proof {
        assert(ranges.len() * concurrency == 0) by (nonlinear_arith)
            requires
                ranges.len() == 0,
        ;
    }
    while start < count
        invariant
            concurrency > 0,
            start <= count,
            start < count || count == 0,
            start == ranges.len() * concurrency,
            forall|i: int|
                0 <= i < ranges.len() ==> ((#[trigger] ranges[i]).0 as int, ranges[i].1 as int)
                    == chunk_at(count as int, concurrency as int, i),
        decreases count - start,
    {
        let ghost n = ranges.len() as int;
        let ghost c = concurrency as int;
        proof {
            assert((n + 1) * c == n * c + c) by (nonlinear_arith);
        }
        if count - start <= concurrency {
            ranges.push((start, count));
            proof {
                assert(chunk_count(count as int, c) == n + 1) by (nonlinear_arith)
                    requires
                        n * c < count,
                        count <= (n + 1) * c,
                        c > 0,
                ;
            }
            return ranges;
        }
        let end: usize = start + concurrency;
        ranges.push((start, end));
        start = end;
    }
    proof {
        assert(chunk_count(0, concurrency as int) == 0) by (nonlinear_arith)
            requires
                concurrency > 0,
        ;
        assert(ranges.len() == 0) by (nonlinear_arith)
            requires
                ranges.len() * concurrency == 0,
                ranges.len() >= 0,
                concurrency > 0,
        ;
    }
    ranges
}

/// The chunks follow one another without a gap from the first reference to
/// the last, none is empty, and none holds more than `concurrency`
/// references.
pub proof fn law_chunks_cover_in_order(count: int, concurrency: int, i: int)
    requires
        concurrency > 0,
        0 <= i < chunk_count(count, concurrency),
    ensures
        chunk_at(count, concurrency, 0).0 == 0,
        chunk_at(count, concurrency, i).0 < chunk_at(count, concurrency, i).1,
        chunk_at(count, concurrency, i).1 - chunk_at(count, concurrency, i).0 <= concurrency,
        i + 1 < chunk_count(count, concurrency) ==> chunk_at(count, concurrency, i + 1).0
            == chunk_at(count, concurrency, i).1,
        i + 1 == chunk_count(count, concurrency) ==> chunk_at(count, concurrency, i).1 == count,
{
    let n = chunk_count(count, concurrency);
    assert((n - 1) * concurrency < count && count <= n * concurrency) by (nonlinear_arith)
        requires
            n == (count + concurrency - 1) / concurrency,
            concurrency > 0,
    ;
    assert(i * concurrency < count) by (nonlinear_arith)
        requires
            0 <= i <= n - 1,
            (n - 1) * concurrency < count,
            concurrency > 0,
    ;
    assert((i + 1) * concurrency == i * concurrency + concurrency) by (nonlinear_arith);
    if i + 1 < n {
        assert((i + 1) * concurrency <= count) by (nonlinear_arith)
            requires
                i + 1 <= n - 1,
                (n - 1) * concurrency < count,
                concurrency > 0,
        ;
    } else {
        assert((i + 1) * concurrency >= count);
    }
}

/// The values of the secrets in `secrets`.
pub open spec fn secret_views(secrets: Seq<Secret>) -> Seq<SecretView> {
    Seq::new(secrets.len(), |i: int| secrets[i]@)
}

/// The first position at or after `from` that holds a failure, or the length
/// of `results` if there is none.
pub open spec fn first_failure(results: Seq<Result<Secret, Error>>, from: int) -> int
    decreases results.len() - from,
{
    if 0 <= from < results.len() && results[from] is Ok {
        first_failure(results, from + 1)
    } else {
        from
    }
}

/// The secrets that the first `n` of `results` hold.
pub open spec fn fetched(results: Seq<Result<Secret, Error>>, n: int) -> Seq<SecretView> {
    Seq::new(n as nat, |i: int| results[i]->Ok_0@)
}

/// Adds the results of a chunk, which stand in the order of their
/// references, to the secrets fetched so far: every secret before the first
/// failure, in order. The first failure, if there is one, is returned, and
/// nothing behind it is added.
pub fn collect(secrets: &mut Vec<Secret>, chunk: Vec<Result<Secret, Error>>) -> (r: Result<
    (),
    Error,
>)
    ensures
        secret_views(final(secrets)@) == secret_views(old(secrets)@) + fetched(
            chunk@,
            first_failure(chunk@, 0),
        ),
        match r {
            Ok(_) => first_failure(chunk@, 0) == chunk.len(),
            Err(e) => first_failure(chunk@, 0) < chunk.len() && e@ == chunk[first_failure(
                chunk@,
                0,
            )]->Err_0@,
        },
{
    let ghost before = secret_views(secrets@);
    proof {
        assert(before + fetched(chunk@, 0) == before);
    }
    for result in it: chunk
        invariant
            it.seq() == chunk@,
            before == secret_views(old(secrets)@),
            first_failure(chunk@, 0) == first_failure(chunk@, it.index()),
            secret_views(secrets@) == before + fetched(chunk@, it.index()),
    {
        let ghost so_far = secret_views(secrets@);
        match result {
            Ok(secret) => {
                secrets.push(secret);
                proof {
                    let k = it.index();
                    assert(secret_views(secrets@) == so_far.push(secret@));
                    assert(fetched(chunk@, k + 1) == fetched(chunk@, k).push(secret@));
                }
            },
            Err(e) => {
                return Err(e);
            },
        }
    }
    Ok(())
}

/// The results of a chunk while its fetches run: one place for each
/// reference, filled when its fetch is over, in whatever order the fetches
/// end.
pub struct Batch {
    /// The result of each reference, once it is there.
    pub slots: Vec<Option<Result<Secret, Error>>>,
}

/// The places after the result of the reference at `index` has come in. A
/// result for a place that does not exist or is filled changes nothing.
pub open spec fn completed(
    slots: Seq<Option<Result<Secret, Error>>>,
    index: int,
    result: Result<Secret, Error>,
) -> Seq<Option<Result<Secret, Error>>> {
    if 0 <= index < slots.len() && slots[index] is None {
        slots.update(index, Some(result))
    } else {
        slots
    }
}

impl Batch {
    /// Whether every result is there.
    pub open spec fn is_full(self) -> bool {
        forall|i: int| 0 <= i < self.slots.len() ==> (#[trigger] self.slots[i]) is Some
    }

    /// The places for the results of `count` references, all empty.
    pub fn new(count: usize) -> (batch: Self)
        ensures
            batch.slots.len() == count,
            forall|i: int| 0 <= i < count ==> (#[trigger] batch.slots[i]) is None,
    {
        let mut slots: Vec<Option<Result<Secret, Error>>> = Vec::new();
        let mut i: usize = 0;
        while i < count
            invariant
                i <= count,
                slots.len() == i,
                forall|j: int| 0 <= j < i ==> (#[trigger] slots[j]) is None,
            decreases count - i,
        {
            slots.push(None);
            i += 1;
        }
        Batch { slots }
    }

    /// Puts the result of the reference at `index` in its place. Returns
    /// whether the place was there and empty.
    pub fn complete(&mut self, index: usize, result: Result<Secret, Error>) -> (accepted: bool)
        ensures
            final(self).slots@ == completed(old(self).slots@, index as int, result),
            accepted == (index < old(self).slots.len() && old(self).slots[index as int] is None),
    {
        if index < self.slots.len() && self.slots[index].is_none() {
            self.slots.set(index, Some(result));
            true
        } else {
            false
        }
    }

    /// Decides [`Batch::is_full`].
    pub fn full(&self) -> (b: bool)
        ensures
            b == self.is_full(),
    {
        let mut i: usize = 0;
        while i < self.slots.len()
            invariant
                i <= self.slots.len(),
                forall|j: int| 0 <= j < i ==> (#[trigger] self.slots[j]) is Some,
            decreases self.slots.len() - i,
        {
            if self.slots[i].is_none() {
                return false;
            }
            i += 1;
        }
        true
    }

    /// The results in the order of their references, whatever the order in
    /// which they came in. Nothing, while a result is missing.
    pub fn into_results(self) -> (results: Option<Vec<Result<Secret, Error>>>)
        ensures
            match results {
                Some(r) => {
                    &&& self.is_full()
                    &&& r.len() == self.slots.len()
                    &&& forall|i: int| 0 <= i < r.len() ==> self.slots[i] == Some(#[trigger] r[i])
                },
                None => !self.is_full(),
            },
    {
        let ghost slots = self.slots@;
        let mut results: Vec<Result<Secret, Error>> = Vec::new();
        for slot in it: self.slots
            invariant
                it.seq() == slots,
                results.len() == it.index(),
                forall|i: int| 0 <= i < results.len() ==> slots[i] == Some(#[trigger] results[i]),
        {
            match slot {
                Some(result) => {
                    results.push(result);
                },
                None => {
                    proof {
                        assert(slots[it.index()] is None);
                    }
                    return None;
                },
            }
        }
        proof {
            assert forall|i: int| 0 <= i < slots.len() implies (#[trigger] slots[i]) is Some by {
                assert(slots[i] == Some(results[i]));
            }
        }
        Some(results)
    }
}

/// The order in which the results of two references come in makes no
/// difference to what the batch holds.
pub proof fn law_completion_order_is_irrelevant(
    slots: Seq<Option<Result<Secret, Error>>>,
    i: int,
    a: Result<Secret, Error>,
    j: int,
    b: Result<Secret, Error>,
)
    requires
        i != j,
    ensures
        completed(completed(slots, i, a), j, b) == completed(completed(slots, j, b), i, a),
{
}

/// The fetch of all secrets: chunk after chunk in the order of the
/// declarations, until every secret is there or a chunk holds a failure.
pub struct FetchAll {
    /// Address of the store.
    pub host: String,
    /// The token, if there is one.
    pub token: Option<String>,
    /// The declarations, in order.
    pub specs: Vec<SecretSpec>,
    /// Retries and the size of a chunk.
    pub opts: FetchAllOpts,
    /// The chunks, in order.
    pub ranges: Vec<(usize, usize)>,
    /// How many chunks are over.
    pub next: usize,
    /// The secrets fetched so far, in the order of their declarations.
    pub secrets: Vec<Secret>,
    /// The first failure, once there is one.
    pub failed: Option<Error>,
}

impl FetchAll {
    /// What holds of a run at every moment: its chunks are those of
    /// [`chunk_ranges`] for its declarations.
    pub open spec fn wf(self) -> bool {
        &&& self.opts.concurrency > 0
        &&& self.next <= self.ranges.len()
        &&& self.ranges.len() == chunk_count(
            self.specs.len() as int,
            self.opts.concurrency as int,
        )
        &&& forall|i: int|
            0 <= i < self.ranges.len() ==> ((#[trigger] self.ranges[i]).0 as int, self.ranges[i].1
                as int) == chunk_at(self.specs.len() as int, self.opts.concurrency as int, i)
    }

    /// The chunk to fetch next: none, once a chunk has failed or every chunk
    /// is over.
    pub open spec fn chunk(self) -> Option<(int, int)> {
        if self.failed is Some || self.next >= self.ranges.len() {
            None
        } else {
            Some(chunk_at(self.specs.len() as int, self.opts.concurrency as int, self.next as int))
        }
    }

    /// The position of the first declaration of the chunk to fetch next.
    pub open spec fn chunk_first(self) -> int {
        match self.chunk() {
            Some((first, last)) => first,
            None => 0,
        }
    }

    /// How many declarations the chunks that are over hold.
    pub open spec fn progress(self) -> int {
        if self.next < self.ranges.len() {
            chunk_at(self.specs.len() as int, self.opts.concurrency as int, self.next as int).0
        } else {
            self.specs.len() as int
        }
    }

    /// Whether the secrets fetched so far are those of the first
    /// declarations, one for each and in their order: each is called as the
    /// variable of its declaration, and while nothing has failed there is one
    /// for each declaration of the chunks that are over.
    pub open spec fn in_order(self) -> bool {
        &&& self.secrets.len() <= self.specs.len()
        &&& forall|i: int|
            0 <= i < self.secrets.len() ==> (#[trigger] self.secrets[i]).name@
                == self.specs[i]@.env_name()
        &&& self.failed is None ==> self.secrets.len() == self.progress()
    }

    /// How many declarations the chunk to fetch next holds.
    pub open spec fn chunk_len(self) -> int {
        match self.chunk() {
            Some((first, last)) => last - first,
            None => 0,
        }
    }

    /// Starts the fetch of the secrets that `specs` declares.
    pub fn new(host: String, token: Option<String>, specs: Vec<SecretSpec>, opts: FetchAllOpts) -> (run:
        Self)
        requires
            opts.concurrency > 0,
        ensures
            run.wf(),
            run.host == host,
            run.token == token,
            run.specs == specs,
            run.opts == opts,
            run.secrets@.len() == 0,
            run.next == 0,
            run.failed is None,
            run.in_order(),
    {
        let ranges = chunk_ranges(specs.len(), opts.concurrency);
        proof {
            let count = specs.len() as int;
            let c = opts.concurrency as int;
            assert(chunk_count(count, c) == 0 ==> count == 0) by (nonlinear_arith)
                requires
                    count >= 0,
                    c > 0,
            ;
            assert(0 * c == 0) by (nonlinear_arith);
        }
        FetchAll { host, token, specs, opts, ranges, next: 0, secrets: Vec::new(), failed: None }
    }

    /// The jobs of the chunk to fetch next, one for each of its declarations,
    /// in order: each a fresh fetch of its secret, with the retries of the
    /// run. No job is left when a chunk has failed or every chunk is over.
    pub fn next_chunk(&self) -> (jobs: Vec<FetchJob>)
        requires
            self.wf(),
        ensures
            jobs.len() == self.chunk_len(),
            forall|i: int|
                0 <= i < jobs.len() ==> {
                    &&& (#[trigger] jobs[i]).host@ == self.host@
                    &&& jobs[i].token_view() == token_value(self.token)
                    &&& jobs[i].spec@ == self.specs[self.chunk_first() + i]@
                    &&& jobs[i].phase() == (Phase {
                        version: Version::V2,
                        left: self.opts.retries as nat,
                    })
                },
    {
        let mut jobs: Vec<FetchJob> = Vec::new();
        if self.failed.is_some() || self.next >= self.ranges.len() {
            return jobs;
        }
        let first = self.ranges[self.next].0;
        let last = self.ranges[self.next].1;
        proof {
            law_chunks_cover_in_order(
                self.specs.len() as int,
                self.opts.concurrency as int,
                self.next as int,
            );
        }
        let mut at: usize = first;
        while at < last
            invariant
                first <= at <= last <= self.specs.len(),
                jobs.len() == at - first,
                forall|j: int|
                    0 <= j < jobs.len() ==> {
                        &&& (#[trigger] jobs[j]).host@ == self.host@
                        &&& jobs[j].token_view() == token_value(self.token)
                        &&& jobs[j].spec@ == self.specs[first + j]@
                        &&& jobs[j].phase() == (Phase {
                            version: Version::V2,
                            left: self.opts.retries as nat,
                        })
                    },
            decreases last - at,
        {
            let token = match &self.token {
                Some(t) => Some(t.clone()),
                None => None,
            };
            let job = FetchJob::new(
                self.host.clone(),
                token,
                self.specs[at].duplicate(),
                self.opts.retries,
            );
            jobs.push(job);
            at += 1;
        }
        jobs
    }

    /// Takes the results of the chunk whose jobs were handed out last, in the
    /// order of the jobs. Every secret before the first failure joins the
    /// secrets of the run; a failure ends the run, and without one the chunk
    /// is over.
    pub fn finish_chunk(&mut self, results: Vec<Result<Secret, Error>>)
        requires
            old(self).wf(),
            old(self).chunk() is Some,
            results.len() == old(self).chunk_len(),
        ensures
            final(self).wf(),
            secret_views(final(self).secrets@) == secret_views(old(self).secrets@) + fetched(
                results@,
                first_failure(results@, 0),
            ),
            first_failure(results@, 0) == results.len() ==> final(self).failed is None
                && final(self).next == old(self).next + 1,
            first_failure(results@, 0) < results.len() ==> final(self).next == old(self).next
                && final(self).failed is Some && final(self).failed->0@ == results[first_failure(
                results@,
                0,
            )]->Err_0@,
            final(self).host == old(self).host,
            final(self).token == old(self).token,
            final(self).specs == old(self).specs,
            final(self).opts == old(self).opts,
            final(self).ranges == old(self).ranges,
            old(self).in_order() && (forall|i: int|
                0 <= i < results.len() ==> is_result_for(
                    Some(#[trigger] results[i]),
                    old(self).specs[old(self).chunk_first() + i]@,
                )) ==> final(self).in_order(),
    {
        let ghost before = secret_views(self.secrets@);
        let ghost first = self.chunk_first();
        proof {
            law_chunks_cover_in_order(
                self.specs.len() as int,
                self.opts.concurrency as int,
                self.next as int,
            );
            lemma_first_failure(results@, 0);
        }
        match collect(&mut self.secrets, results) {
            Ok(_) => {
                self.next = self.next + 1;
            },
            Err(e) => {
                self.failed = Some(e);
            },
        }
        proof {
            let k = first_failure(results@, 0);
            assert(secret_views(self.secrets@).len() == self.secrets.len());
            assert(before.len() == old(self).secrets.len());
            if old(self).in_order() && (forall|i: int|
                0 <= i < results.len() ==> is_result_for(
                    Some(#[trigger] results[i]),
                    old(self).specs[first + i]@,
                )) {
                assert forall|i: int| 0 <= i < self.secrets.len() implies (
                #[trigger] self.secrets[i]).name@ == self.specs[i]@.env_name() by {
                    assert(secret_views(self.secrets@)[i] == self.secrets[i]@);
                    if i < before.len() {
                        assert(before[i] == old(self).secrets[i]@);
                        assert(old(self).secrets[i].name@ == old(self).specs[i]@.env_name());
                    } else {
                        let j = i - before.len();
                        assert(fetched(results@, k)[j] == results[j]->Ok_0@);
                        assert(is_result_for(Some(results[j]), old(self).specs[first + j]@));
                    }
                }
            }
        }
    }

    /// Whether the run is over: a chunk has failed, or every chunk is over.
    pub fn is_over(&self) -> (over: bool)
        requires
            self.wf(),
        ensures
            over == (self.chunk() is None),
    {
        self.failed.is_some() || self.next >= self.ranges.len()
    }

    /// What the run came to: the first failure, or else the secrets in the
    /// order of their declarations.
    pub fn into_result(self) -> (r: Result<Vec<Secret>, Error>)
        ensures
            match self.failed {
                Some(e) => r == Err::<Vec<Secret>, Error>(e),
                None => r == Ok::<Vec<Secret>, Error>(self.secrets),
            },
            self.wf() && self.in_order() && self.chunk() is None ==> match r {
                Ok(secrets) => {
                    &&& secrets.len() == self.specs.len()
                    &&& forall|i: int|
                        0 <= i < secrets.len() ==> (#[trigger] secrets[i]).name@
                            == self.specs[i]@.env_name()
                },
                Err(_) => true,
            },
    {
        match self.failed {
            Some(e) => Err(e),
            None => Ok(self.secrets),
        }
    }
}

/// The first failure in results that follow earlier results lies behind
/// them.
proof fn lemma_first_failure_skips(
    a: Seq<Result<Secret, Error>>,
    b: Seq<Result<Secret, Error>>,
    from: int,
)
    requires
        0 <= from <= a.len(),
        forall|i: int| from <= i < a.len() ==> (#[trigger] a[i]) is Ok,
    ensures
        first_failure(a + b, from) == a.len() + first_failure(b, 0),
    decreases a.len() + b.len() - from,
{
    if from < a.len() {
        assert((a + b)[from] == a[from]);
        lemma_first_failure_skips(a, b, from + 1);
    } else {
        lemma_first_failure_shifts(a, b, 0);
    }
}

/// Searching behind earlier results is searching in the later ones.
proof fn lemma_first_failure_shifts(
    a: Seq<Result<Secret, Error>>,
    b: Seq<Result<Secret, Error>>,
    from: int,
)
    requires
        0 <= from <= b.len(),
    ensures
        first_failure(a + b, a.len() + from) == a.len() + first_failure(b, from),
    decreases b.len() - from,
{
    if from < b.len() {
        assert((a + b)[a.len() + from] == b[from]);
        if b[from] is Ok {
            lemma_first_failure_shifts(a, b, from + 1);
        }
    }
}

/// A failure among earlier results is the first failure, whatever follows.
proof fn lemma_first_failure_stays(
    a: Seq<Result<Secret, Error>>,
    b: Seq<Result<Secret, Error>>,
    from: int,
)
    requires
        0 <= from <= a.len(),
        first_failure(a, from) < a.len(),
    ensures
        first_failure(a + b, from) == first_failure(a, from),
    decreases a.len() - from,
{
    assert((a + b)[from] == a[from]);
    if a[from] is Ok {
        lemma_first_failure_stays(a, b, from + 1);
    }
}

/// Where the search for a failure ends: at the first one, behind successes.
pub proof fn lemma_first_failure(results: Seq<Result<Secret, Error>>, from: int)
    requires
        0 <= from <= results.len(),
    ensures
        from <= first_failure(results, from) <= results.len(),
        forall|i: int| from <= i < first_failure(results, from) ==> (#[trigger] results[i]) is Ok,
        first_failure(results, from) < results.len() ==> results[first_failure(results, from)] is Err,
    decreases results.len() - from,
{
    if from < results.len() && results[from] is Ok {
        lemma_first_failure(results, from + 1);
    }
}

/// Fetching in chunks changes nothing of what a run comes to: the results of
/// a chunk, collected behind those of the chunks before it, give what the
/// results of all of them give when collected as one: the secrets up to the
/// first failure, in the order of the declarations. Nothing of a chunk
/// behind a failure is collected.
pub proof fn law_chunks_collect_as_one(
    earlier: Seq<Result<Secret, Error>>,
    chunk: Seq<Result<Secret, Error>>,
)
    ensures
        first_failure(earlier, 0) == earlier.len() ==> {
            &&& first_failure(earlier + chunk, 0) == earlier.len() + first_failure(chunk, 0)
            &&& fetched(earlier + chunk, first_failure(earlier + chunk, 0)) == fetched(
                earlier,
                earlier.len() as int,
            ) + fetched(chunk, first_failure(chunk, 0))
        },
        first_failure(earlier, 0) < earlier.len() ==> {
            &&& first_failure(earlier + chunk, 0) == first_failure(earlier, 0)
            &&& fetched(earlier + chunk, first_failure(earlier + chunk, 0)) == fetched(
                earlier,
                first_failure(earlier, 0),
            )
        },
{
    lemma_first_failure(earlier, 0);
    lemma_first_failure(chunk, 0);
    if first_failure(earlier, 0) == earlier.len() {
        lemma_first_failure_skips(earlier, chunk, 0);
        let k = first_failure(chunk, 0);
        assert(fetched(earlier + chunk, earlier.len() + k) =~= fetched(earlier, earlier.len() as int)
            + fetched(chunk, k));
    } else {
        lemma_first_failure_stays(earlier, chunk, 0);
        let k = first_failure(earlier, 0);
        assert(fetched(earlier + chunk, k) =~= fetched(earlier, k));
    }
}

} // verus!
