use crate::config::{Config, ConfigError};
use crate::pool::{chunk_of, chunks_view, partition, total_len, lemma_partition_covers};
use crate::status::WebsiteStatus;
use vstd::prelude::*;

verus! {

/// The error text of each URL that a worker left unchecked when it stopped
/// abnormally.
pub open spec fn aborted_message() -> Seq<char> {
    "worker aborted"@
}

/// A list of URLs to check and the settings to check them with.
pub struct WebsiteMonitor {
    urls: Vec<String>,
    config: Config,
}

impl WebsiteMonitor {
    /// The URLs, in the order given.
    pub closed spec fn spec_urls(&self) -> Seq<String> {
        self.urls@
    }

    /// The settings of the run.
    pub closed spec fn spec_config(&self) -> Config {
        self.config
    }

    /// Creates a monitor for `urls` under `config`.
    pub fn new(urls: Vec<String>, config: Config) -> (r: Self)
        ensures
            r.spec_urls() == urls@,
            r.spec_config() == config,
    {
        WebsiteMonitor { urls, config }
    }

    /// The URLs, in the order given.
    pub fn urls(&self) -> (r: &Vec<String>)
        ensures
            r@ == self.spec_urls(),
    {
        &self.urls
    }

    /// The settings of the run.
    pub fn config(&self) -> (r: Config)
        ensures
            r == self.spec_config(),
    {
        self.config
    }

    /// Validates the settings and, only if they are valid, shares the URLs
    /// out among `num_threads` workers. On an error no work is handed out,
    /// so no request may be made.
    pub fn plan(&self) -> (r: Result<Vec<Vec<String>>, ConfigError>)
        ensures
            r is Ok <==> self.spec_config().is_valid(),
            match r {
                Ok(chunks) => chunks_view(chunks@) == Seq::new(
                    self.spec_config().num_threads as nat,
                    |i: int|
                        chunk_of(
                            self.spec_urls(),
                            self.spec_config().num_threads as nat,
                            i as nat,
                        ),
                ),
                Err(e) => Err::<(), ConfigError>(e) == self.spec_config().spec_validate(),
            },
    {
        match self.config.validate() {
            Ok(()) => Ok(partition(&self.urls, self.config.num_threads)),
            Err(e) => Err(e),
        }
    }
}

/// The sum of `s`.
pub open spec fn sum(s: Seq<usize>) -> nat
    decreases s.len(),
{
    if s.len() == 0 {
        0
    } else {
        sum(s.drop_last()) + s.last() as nat
    }
}

proof fn lemma_sum_update(s: Seq<usize>, i: int, v: usize)
    requires
        0 <= i < s.len(),
    ensures
        sum(s.update(i, v)) + s[i] == sum(s) + v,
    decreases s.len(),
{
    if i < s.len() - 1 {
        assert(s.update(i, v).drop_last() =~= s.drop_last().update(i, v));
        lemma_sum_update(s.drop_last(), i, v);
    } else {
        assert(s.update(i, v).drop_last() =~= s.drop_last());
    }
}

proof fn lemma_sum_zero(s: Seq<usize>)
    requires
        forall|i: int| 0 <= i < s.len() ==> #[trigger] s[i] == 0,
    ensures
        sum(s) == 0,
    decreases s.len(),
{
    if s.len() > 0 {
        lemma_sum_zero(s.drop_last());
    }
}

/// Gathers the results that the workers of one run send, checks each against
/// the chunk of the worker that sent it, and tells when every URL has been
/// accounted for.
pub struct Collector {
    chunks: Vec<Vec<String>>,
    pending: Vec<usize>,
    results: Vec<WebsiteStatus>,
    origin: Ghost<Seq<(nat, nat)>>,
    expected: Ghost<nat>,
}

impl Collector {
    /// The chunk of each worker.
    pub closed spec fn spec_chunks(&self) -> Seq<Seq<String>> {
        chunks_view(self.chunks@)
    }

    /// How many URLs of each worker's chunk are not accounted for yet: they
    /// are the last ones of the chunk.
    pub closed spec fn spec_pending(&self) -> Seq<usize> {
        self.pending@
    }

    /// The results gathered so far, in order of arrival.
    pub closed spec fn spec_results(&self) -> Seq<WebsiteStatus> {
        self.results@
    }

    /// For each result, the worker and the index within its chunk of the URL
    /// that it reports.
    pub closed spec fn spec_origin(&self) -> Seq<(nat, nat)> {
        self.origin@
    }

    /// The number of URLs in all chunks together.
    pub closed spec fn expected(&self) -> nat {
        self.expected@
    }

    /// Index, within worker `w`'s chunk, of its next URL to be accounted for.
    pub open spec fn next_index(&self, w: int) -> int {
        self.spec_chunks()[w].len() - self.spec_pending()[w]
    }

    /// Some result reports URL `i` of worker `w`'s chunk.
    pub open spec fn reported(&self, w: int, i: int) -> bool {
        exists|t: int|
            0 <= t < self.spec_origin().len() && #[trigger] self.spec_origin()[t] == (
                w as nat,
                i as nat,
            )
    }

    /// Each result reports a distinct URL of some chunk, taken in chunk
    /// order; the URLs of each chunk before its next one are all reported;
    /// the results and the URLs still pending add up to all URLs.
    pub open spec fn wf(&self) -> bool {
        &&& self.spec_pending().len() == self.spec_chunks().len()
        &&& forall|w: int|
            0 <= w < self.spec_pending().len() ==> #[trigger] self.spec_pending()[w]
                <= self.spec_chunks()[w].len()
        &&& self.spec_origin().len() == self.spec_results().len()
        &&& forall|t: int|
            0 <= t < self.spec_origin().len() ==> {
                let o = #[trigger] self.spec_origin()[t];
                &&& o.0 < self.spec_chunks().len()
                &&& o.1 < self.next_index(o.0 as int)
                &&& self.spec_results()[t].url@ == self.spec_chunks()[o.0 as int][o.1 as int]@
            }
        &&& forall|t1: int, t2: int|
            0 <= t1 < self.spec_origin().len() && 0 <= t2 < self.spec_origin().len() && t1 != t2
                ==> #[trigger] self.spec_origin()[t1] != #[trigger] self.spec_origin()[t2]
        &&& forall|w: int, i: int|
            0 <= w < self.spec_chunks().len() && 0 <= i < self.next_index(w) ==> #[trigger] self.reported(
                w,
                i,
            )
        &&& self.spec_results().len() + sum(self.spec_pending()) == self.expected()
    }

    /// Every URL of every chunk has been accounted for.
    pub open spec fn complete(&self) -> bool {
        forall|w: int| 0 <= w < self.spec_pending().len() ==> #[trigger] self.spec_pending()[w] == 0
    }

    /// A collector that awaits every URL of `chunks`.
    pub fn new(chunks: Vec<Vec<String>>) -> (r: Self)
        ensures
            r.wf(),
            r.spec_chunks() == chunks_view(chunks@),
            r.expected() == total_len(chunks_view(chunks@)),
            r.spec_results().len() == 0,
            forall|w: int|
                0 <= w < chunks@.len() ==> #[trigger] r.spec_pending()[w] == chunks@[w]@.len(),
    {
        let ghost parts = chunks_view(chunks@);
        let mut pending: Vec<usize> = Vec::new();
        let mut i: usize = 0;
        while i < chunks.len()
            invariant
                i <= chunks@.len(),
                parts == chunks_view(chunks@),
                pending@.len() == i,
                forall|w: int| 0 <= w < i ==> #[trigger] pending@[w] == chunks@[w]@.len(),
                sum(pending@) == total_len(parts.take(i as int)),
            decreases chunks@.len() - i,
        {
            let len = chunks[i].len();
            let ghost prev = pending@;
            pending.push(len);
            proof {
                assert(pending@.drop_last() =~= prev);
                assert(parts[i as int] == chunks@[i as int]@);
                assert(parts.take(i + 1).last() == parts[i as int]);
                assert(parts.take(i + 1).drop_last() =~= parts.take(i as int));
            }
            i += 1;
        }
        assert(parts.take(chunks@.len() as int) =~= parts);
        let r = Collector {
            chunks,
            pending,
            results: Vec::new(),
            origin: Ghost(Seq::empty()),
            expected: Ghost(total_len(parts)),
        };
        assert forall|w: int, i: int|
            0 <= w < r.spec_chunks().len() && 0 <= i < r.next_index(w) implies #[trigger] r.reported(
            w,
            i,
        ) by {
            assert(r.spec_chunks()[w] == r.chunks@[w]@);
        }
        r
    }

    /// Counts `status` off the next pending URL of `worker`, which it reports.
    fn push_counted(&mut self, worker: usize, status: WebsiteStatus)
        requires
            old(self).wf(),
            worker < old(self).spec_chunks().len(),
            old(self).spec_pending()[worker as int] > 0,
            status.url@ == old(self).spec_chunks()[worker as int][old(self).next_index(
                worker as int,
            )]@,
        ensures
            final(self).wf(),
            final(self).chunks@ == old(self).chunks@,
            final(self).spec_chunks() == old(self).spec_chunks(),
            final(self).expected() == old(self).expected(),
            final(self).spec_results() == old(self).spec_results().push(status),
            final(self).spec_pending() == old(self).spec_pending().update(
                worker as int,
                (old(self).spec_pending()[worker as int] - 1) as usize,
            ),
    {
        let ghost w = worker as int;
        let ghost next = self.next_index(w);
        let ghost o = self.origin@;
        let left = self.pending[worker];
        proof {
            lemma_sum_update(self.pending@, w, (left - 1) as usize);
        }
        self.pending[worker] = left - 1;
        self.results.push(status);
        self.origin = Ghost(o.push((worker as nat, next as nat)));
        let ghost len = o.len() as int;
        assert forall|t: int| 0 <= t < self.spec_origin().len() implies {
            let p = #[trigger] self.spec_origin()[t];
            &&& p.0 < self.spec_chunks().len()
            &&& p.1 < self.next_index(p.0 as int)
            &&& self.spec_results()[t].url@ == self.spec_chunks()[p.0 as int][p.1 as int]@
        } by {
            if t < len {
                assert(self.spec_origin()[t] == old(self).spec_origin()[t]);
                assert(old(self).spec_origin()[t].1 < old(self).next_index(
                    old(self).spec_origin()[t].0 as int,
                ));
            }
        }
        assert forall|t1: int, t2: int|
            0 <= t1 < self.spec_origin().len() && 0 <= t2 < self.spec_origin().len() && t1
                != t2 implies #[trigger] self.spec_origin()[t1] != #[trigger] self.spec_origin()[t2] by {
            if t1 < len && t2 < len {
                assert(old(self).spec_origin()[t1] != old(self).spec_origin()[t2]);
            } else if t1 < len {
                assert(old(self).spec_origin()[t1].1 < old(self).next_index(
                    old(self).spec_origin()[t1].0 as int,
                ));
            } else {
                assert(old(self).spec_origin()[t2].1 < old(self).next_index(
                    old(self).spec_origin()[t2].0 as int,
                ));
            }
        }
        assert forall|v: int, i: int|
            0 <= v < self.spec_chunks().len() && 0 <= i < self.next_index(v) implies #[trigger] self.reported(
            v,
            i,
        ) by {
            if v == w && i == next {
                assert(self.spec_origin()[len] == (v as nat, i as nat));
            } else {
                assert(old(self).reported(v, i));
                let t = choose|t: int|
                    0 <= t < old(self).spec_origin().len() && #[trigger] old(self).spec_origin()[t]
                        == (v as nat, i as nat);
                assert(self.spec_origin()[t] == (v as nat, i as nat));
            }
        }
    }

    /// Takes a result sent by `worker`. It is accepted, and counted off that
    /// worker's chunk, only if `worker` is one of the run's workers with URLs
    /// still pending and the result is for its next URL; otherwise nothing
    /// changes.
    pub fn accept(&mut self, worker: usize, status: WebsiteStatus) -> (accepted: bool)
        requires
            old(self).wf(),
        ensures
            final(self).wf(),
            final(self).spec_chunks() == old(self).spec_chunks(),
            final(self).expected() == old(self).expected(),
            accepted == (worker < old(self).spec_chunks().len() && old(self).spec_pending()[worker as int]
                > 0 && status.url@ == old(self).spec_chunks()[worker as int][old(self).next_index(
                worker as int,
            )]@),
            accepted ==> final(self).spec_results() == old(self).spec_results().push(status)
                && final(self).spec_pending() == old(self).spec_pending().update(
                worker as int,
                (old(self).spec_pending()[worker as int] - 1) as usize,
            ),
            !accepted ==> *final(self) == *old(self),
    {
        if worker >= self.chunks.len() || self.pending[worker] == 0 {
            return false;
        }
        let at = self.chunks[worker].len() - self.pending[worker];
        proof {
            assert(self.chunks@[worker as int]@ == self.spec_chunks()[worker as int]);
        }
        if status.url != self.chunks[worker][at] {
            return false;
        }
        self.push_counted(worker, status);
        true
    }

    /// Records that `worker` stopped abnormally: each URL of its chunk still
    /// pending gets an error result with `aborted_message`, no response time
    /// and the given timestamp, in chunk order. Nothing changes if `worker` is
    /// not one of the run's workers.
    pub fn abort(&mut self, worker: usize, timestamp_ms: i64)
        requires
            old(self).wf(),
        ensures
            final(self).wf(),
            final(self).spec_chunks() == old(self).spec_chunks(),
            final(self).expected() == old(self).expected(),
            worker >= old(self).spec_chunks().len() ==> *final(self) == *old(self),
            worker < old(self).spec_chunks().len() ==> {
                &&& final(self).spec_pending() == old(self).spec_pending().update(worker as int, 0)
                &&& final(self).spec_results().len() == old(self).spec_results().len()
                    + old(self).spec_pending()[worker as int]
                &&& final(self).spec_results().take(old(self).spec_results().len() as int)
                    == old(self).spec_results()
                &&& forall|j: int|
                    0 <= j < old(self).spec_pending()[worker as int] ==> {
                        let r = #[trigger] final(self).spec_results()[old(self).spec_results().len()
                            + j];
                        &&& r.url@ == old(self).spec_chunks()[worker as int][old(self).next_index(
                            worker as int,
                        ) + j]@
                        &&& r.status is Err
                        &&& r.status->Err_0@ == aborted_message()
                        &&& r.response_time_ms == 0
                        &&& r.timestamp_ms == timestamp_ms
                    }
            },
    {
        if worker >= self.chunks.len() {
            return;
        }
        let ghost before = self.results@;
        let ghost w = worker as int;
        let ghost chunk = self.spec_chunks()[w];
        let len = self.chunks[worker].len();
        let start = len - self.pending[worker];
        proof {
            assert(self.chunks@[w]@ == chunk);
        }
        let mut j: usize = start;
        while j < len
            invariant
                worker < self.chunks@.len(),
                w == worker as int,
                old(self).wf(),
                self.wf(),
                self.spec_chunks() == old(self).spec_chunks(),
                self.expected() == old(self).expected(),
                self.chunks@ == old(self).chunks@,
                before == old(self).spec_results(),
                chunk == self.spec_chunks()[w],
                chunk == self.chunks@[w]@,
                len == chunk.len(),
                start == len - old(self).spec_pending()[w],
                start <= j <= len,
                self.spec_pending() == old(self).spec_pending().update(w, (len - j) as usize),
                self.spec_results().len() == before.len() + (j - start),
                self.spec_results().take(before.len() as int) == before,
                forall|t: int|
                    0 <= t < j - start ==> {
                        let r = #[trigger] self.spec_results()[before.len() + t];
                        &&& r.url@ == chunk[start + t]@
                        &&& r.status is Err
                        &&& r.status->Err_0@ == aborted_message()
                        &&& r.response_time_ms == 0
                        &&& r.timestamp_ms == timestamp_ms
                    },
            decreases len - j,
        {
            let url = self.chunks[worker][j].clone();
            let status = WebsiteStatus {
                url,
                status: Err(String::from_str("worker aborted")),
                response_time_ms: 0,
                timestamp_ms,
            };
            let ghost prev = self.spec_results();
            self.push_counted(worker, status);
            proof {
                assert(self.spec_pending() =~= old(self).spec_pending().update(
                    w,
                    (len - (j + 1)) as usize,
                ));
                assert(self.spec_results().take(before.len() as int) =~= prev.take(
                    before.len() as int,
                ));
                assert forall|t: int| 0 <= t < j + 1 - start implies {
                    let r = #[trigger] self.spec_results()[before.len() + t];
                    &&& r.url@ == chunk[start + t]@
                    &&& r.status is Err
                    &&& r.status->Err_0@ == aborted_message()
                    &&& r.response_time_ms == 0
                    &&& r.timestamp_ms == timestamp_ms
                } by {
                    if t < j - start {
                        assert(self.spec_results()[before.len() + t] == prev[before.len() + t]);
                    }
                }
            }
            j += 1;
        }
        assert(self.spec_pending() =~= old(self).spec_pending().update(w, 0));
    }

    /// Whether every URL of every chunk has been accounted for.
    pub fn is_complete(&self) -> (r: bool)
        ensures
            r == self.complete(),
    {
        let mut w: usize = 0;
        while w < self.pending.len()
            invariant
                w <= self.pending@.len(),
                forall|v: int| 0 <= v < w ==> #[trigger] self.pending@[v] == 0,
            decreases self.pending@.len() - w,
        {
            if self.pending[w] != 0 {
                assert(self.spec_pending()[w as int] != 0);
                return false;
            }
            w += 1;
        }
        true
    }

    /// The results, in order of arrival, once every URL has been accounted
    /// for; `None` while some are still pending.
    pub fn finish(self) -> (r: Option<Vec<WebsiteStatus>>)
        requires
            self.wf(),
        ensures
            r is Some <==> self.complete(),
            r matches Some(v) ==> v@ == self.spec_results() && v@.len() == self.expected(),
    {
        if self.is_complete() {
            proof {
                lemma_sum_zero(self.pending@);
            }
            Some(self.results)
        } else {
            None
        }
    }
}

/// No result is lost or duplicated: once a collector built over the partition
/// of `urls` among `k` workers is complete, it holds exactly one result per
/// URL, and each URL of each chunk is reported by one result and no other.
pub proof fn lemma_every_url_reported(urls: Seq<String>, k: nat, c: Collector)
    requires
        k >= 1,
        c.wf(),
        c.spec_chunks() == Seq::new(k, |i: int| chunk_of(urls, k, i as nat)),
        c.expected() == total_len(c.spec_chunks()),
        c.complete(),
    ensures
        c.spec_results().len() == urls.len(),
        forall|w: int, i: int|
            0 <= w < k && 0 <= i < c.spec_chunks()[w].len() ==> #[trigger] c.reported(w, i),
        forall|t1: int, t2: int|
            0 <= t1 < c.spec_results().len() && 0 <= t2 < c.spec_results().len() && t1 != t2
                ==> #[trigger] c.spec_origin()[t1] != #[trigger] c.spec_origin()[t2],
{
    lemma_partition_covers(urls, k);
    lemma_sum_zero(c.spec_pending());
    assert forall|w: int, i: int|
        0 <= w < k && 0 <= i < c.spec_chunks()[w].len() implies #[trigger] c.reported(w, i) by {
        assert(c.spec_pending()[w] == 0);
    }
}

} // verus!
