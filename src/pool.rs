use vstd::prelude::*;

verus! {

/// URLs per worker when `n` URLs are shared among `k >= 1` workers: `n / k`
/// rounded up.
pub open spec fn chunk_len(n: nat, k: nat) -> nat
    recommends
        k >= 1,
{
    if n % k == 0 { n / k } else { n / k + 1 }
}

/// The smaller of two naturals.
pub open spec fn min_nat(a: nat, b: nat) -> nat {
    if a <= b { a } else { b }
}

/// Index of the first URL of worker `i`.
pub open spec fn chunk_start(n: nat, k: nat, i: nat) -> nat {
    min_nat(i * chunk_len(n, k), n)
}

/// The contiguous run of `urls` that worker `i` of `k` checks.
pub open spec fn chunk_of<T>(urls: Seq<T>, k: nat, i: nat) -> Seq<T> {
    urls.subrange(
        chunk_start(urls.len(), k, i) as int,
        chunk_start(urls.len(), k, i + 1) as int,
    )
}

/// The sequences of `parts`, one after another.
pub open spec fn joined<T>(parts: Seq<Seq<T>>) -> Seq<T>
    decreases parts.len(),
{
    if parts.len() == 0 {
        Seq::empty()
    } else {
        joined(parts.drop_last()) + parts.last()
    }
}

/// The total length of `parts`.
pub open spec fn total_len<T>(parts: Seq<Seq<T>>) -> nat
    decreases parts.len(),
{
    if parts.len() == 0 {
        0
    } else {
        total_len(parts.drop_last()) + parts.last().len()
    }
}

/// The views of a list of chunks.
pub open spec fn chunks_view(chunks: Seq<Vec<String>>) -> Seq<Seq<String>> {
    chunks.map_values(|c: Vec<String>| c@)
}

proof fn lemma_chunk_len_covers(n: nat, k: nat)
    requires
        k >= 1,
    ensures
        k * chunk_len(n, k) >= n,
{
    assert(n == k * (n / k) + n % k) by (nonlinear_arith)
        requires
            k >= 1,
    ;
    if n % k != 0 {
        assert(k * (n / k + 1) == k * (n / k) + k) by (nonlinear_arith);
    }
}

proof fn lemma_start_monotonic(n: nat, k: nat, i: nat)
    ensures
        chunk_start(n, k, i) <= chunk_start(n, k, i + 1),
        chunk_start(n, k, i + 1) == min_nat(chunk_start(n, k, i) + chunk_len(n, k), n),
{
    assert((i + 1) * chunk_len(n, k) == i * chunk_len(n, k) + chunk_len(n, k)) by (nonlinear_arith);
}

proof fn lemma_joined_prefix(urls: Seq<String>, k: nat, m: nat)
    requires
        k >= 1,
    ensures
        joined(Seq::new(m, |i: int| chunk_of(urls, k, i as nat))) == urls.subrange(
            0,
            chunk_start(urls.len(), k, m) as int,
        ),
    decreases m,
{
    let parts = Seq::new(m, |i: int| chunk_of(urls, k, i as nat));
    if m == 0 {
        assert(0 * chunk_len(urls.len(), k) == 0) by (nonlinear_arith);
        assert(joined(parts) =~= urls.subrange(0, 0));
    } else {
        let prev = (m - 1) as nat;
        lemma_joined_prefix(urls, k, prev);
        lemma_start_monotonic(urls.len(), k, prev);
        assert(parts.drop_last() =~= Seq::new(prev, |i: int| chunk_of(urls, k, i as nat)));
        assert(joined(parts) =~= urls.subrange(0, chunk_start(urls.len(), k, m) as int));
    }
}

proof fn lemma_total_is_joined_len<T>(parts: Seq<Seq<T>>)
    ensures
        total_len(parts) == joined(parts).len(),
    decreases parts.len(),
{
    if parts.len() > 0 {
        lemma_total_is_joined_len(parts.drop_last());
    }
}

/// Sharing out `urls` among `k >= 1` workers by `chunk_of` hands out every
/// URL exactly once and in order: the chunks, one after another, are the list
/// itself, and their lengths add up to the number of URLs.
pub proof fn lemma_partition_covers(urls: Seq<String>, k: nat)
    requires
        k >= 1,
    ensures
        joined(Seq::new(k, |i: int| chunk_of(urls, k, i as nat))) == urls,
        total_len(Seq::new(k, |i: int| chunk_of(urls, k, i as nat))) == urls.len(),
{
    lemma_joined_prefix(urls, k, k);
    lemma_chunk_len_covers(urls.len(), k);
    assert(k * chunk_len(urls.len(), k) == chunk_len(urls.len(), k) * k) by (nonlinear_arith);
    assert(urls.subrange(0, urls.len() as int) =~= urls);
    lemma_total_is_joined_len(Seq::new(k, |i: int| chunk_of(urls, k, i as nat)));
}

/// Copies `urls[start..end]`.
fn copy_range(urls: &Vec<String>, start: usize, end: usize) -> (r: Vec<String>)
    requires
        start <= end <= urls@.len(),
    ensures
        r@ == urls@.subrange(start as int, end as int),
{
    let mut out: Vec<String> = Vec::new();
    let mut i: usize = start;
    while i < end
        invariant
            start <= i <= end <= urls@.len(),
            out@ == urls@.subrange(start as int, i as int),
        decreases end - i,
    {
        let u = urls[i].clone();
        out.push(u);
        assert(out@ =~= urls@.subrange(start as int, i + 1));
        i += 1;
    }
    out
}

/// Shares `urls` out among `worker_count` workers: exactly `worker_count`
/// contiguous chunks of `chunk_len` URLs each, in order, the last ones shorter
/// or empty where the URLs run out.
pub fn partition(urls: &Vec<String>, worker_count: usize) -> (r: Vec<Vec<String>>)
    requires
        worker_count >= 1,
    ensures
        r@.len() == worker_count,
        forall|i: int|
            0 <= i < worker_count ==> (#[trigger] r@[i])@ == chunk_of(urls@, worker_count as nat, i as nat),
        chunks_view(r@) == Seq::new(worker_count as nat, |i: int| chunk_of(urls@, worker_count as nat, i as nat)),
{
    let n = urls.len();
    let ghost k = worker_count as nat;
    proof {
        if n % worker_count != 0 {
            assert(worker_count >= 2);
            assert(n / worker_count <= n / 2) by (nonlinear_arith)
                requires
                    worker_count >= 2,
            ;
        }
        assert(0 * chunk_len(n as nat, k) == 0) by (nonlinear_arith);
    }
    let size: usize = if n % worker_count == 0 { n / worker_count } else { n / worker_count + 1 };
    let mut chunks: Vec<Vec<String>> = Vec::new();
    let mut start: usize = 0;
    let mut w: usize = 0;
    while w < worker_count
        invariant
            w <= worker_count,
            n == urls@.len(),
            k == worker_count,
            size == chunk_len(n as nat, k),
            start == chunk_start(n as nat, k, w as nat),
            start <= n,
            chunks@.len() == w,
            forall|i: int| 0 <= i < w ==> (#[trigger] chunks@[i])@ == chunk_of(urls@, k, i as nat),
        decreases worker_count - w,
    {
        proof {
            lemma_start_monotonic(n as nat, k, w as nat);
        }
        let end: usize = if n - start < size { n } else { start + size };
        let chunk = copy_range(urls, start, end);
        chunks.push(chunk);
        start = end;
        w += 1;
    }
    assert(chunks_view(chunks@) =~= Seq::new(k, |i: int| chunk_of(urls@, k, i as nat)));
    chunks
}

} // verus!
