use rand::Rng;
use vstd::prelude::*;

use crate::timing::{ceil_div, concurrency_for, Average, Timing};

verus! {

/// The scheme that every node address is given.
pub open spec fn https_scheme() -> Seq<char> {
    seq!['h', 't', 't', 'p', 's', ':', '/', '/']
}

/// `s` begins with `prefix`.
pub open spec fn has_prefix(s: Seq<char>, prefix: Seq<char>) -> bool {
    prefix.len() <= s.len() && s.subrange(0, prefix.len() as int) == prefix
}

/// The address that is queried for a node given on the command line.
pub open spec fn good_url(node: Seq<char>) -> Seq<char> {
    if has_prefix(node, https_scheme()) {
        node
    } else {
        https_scheme() + node
    }
}

/// Tells whether `s` begins with `prefix`, character by character.
pub fn starts_with_str(s: &str, prefix: &str) -> (r: bool)
    ensures
        r == has_prefix(s@, prefix@),
{
    let n = prefix.unicode_len();
    let m = s.unicode_len();
    if n > m {
        return false;
    }
    let mut i: usize = 0;
    while i < n
        invariant
            n == prefix@.len(),
            m == s@.len(),
            n <= m,
            i <= n,
            forall|j: int| 0 <= j < i ==> s@[j] == prefix@[j],
        decreases n - i,
    {
        if s.get_char(i) != prefix.get_char(i) {
            assert(s@.subrange(0, n as int)[i as int] != prefix@[i as int]);
            return false;
        }
        i = i + 1;
    }
    assert(s@.subrange(0, n as int) =~= prefix@);
    true
}

/// Puts the `https://` scheme in front of a node address that lacks it.
pub fn get_good_url(node: &String) -> (url: String)
    ensures
        url@ == good_url(node@),
{
    let scheme = "https://";
    proof {
        reveal_strlit("https://");
    }
    assert(scheme@ == https_scheme());
    if starts_with_str(node.as_str(), scheme) {
        node.clone()
    } else {
        String::from_str(scheme).concat(node.as_str())
    }
}


/// The items `[left, right)` that the `t`-th request of a batch of `batch`
/// items carries, out of `total`.
pub open spec fn batch_range(total: int, batch: int, t: int) -> (int, int) {
    (t * batch, if (t + 1) * batch <= total { (t + 1) * batch } else { total })
}

/// Cuts `total` items into batches of `batch` items, the last one shorter
/// where `batch` does not divide `total`: one range per request sent side by
/// side.
pub fn batch_ranges(total: usize, batch: usize) -> (r: Vec<(usize, usize)>)
    requires
        batch > 0,
        ceil_div(total as int, batch as int) * batch <= usize::MAX,
    ensures
        r@.len() == ceil_div(total as int, batch as int),
        forall|t: int|
            0 <= t < r@.len() ==> (#[trigger] r@[t]).0 == batch_range(total as int, batch as int, t).0
                && r@[t].1 == batch_range(total as int, batch as int, t).1,
{
    let concurrency = concurrency_for(total, batch);
    let mut r: Vec<(usize, usize)> = Vec::new();
    let mut t: usize = 0;
    while t < concurrency
        invariant
            batch > 0,
            concurrency == ceil_div(total as int, batch as int),
            concurrency * batch <= usize::MAX,
            t <= concurrency,
            r@.len() == t,
            forall|i: int|
                0 <= i < t ==> (#[trigger] r@[i]).0 == batch_range(total as int, batch as int, i).0
                    && r@[i].1 == batch_range(total as int, batch as int, i).1,
        decreases concurrency - t,
    {
        proof {
            assert((t + 1) * batch <= concurrency * batch) by (nonlinear_arith)
                requires
                    t < concurrency,
                    batch > 0,
            ;
            assert(t * batch <= (t + 1) * batch) by (nonlinear_arith)
                requires
                    batch > 0,
            ;
        }
        let right = if (t + 1) * batch <= total {
            (t + 1) * batch
        } else {
            total
        };
        let left = t * batch;
        r.push((left, right));
        t = t + 1;
    }
    r
}

/// Every item is carried by exactly one request: the ranges follow one
/// another without gap or overlap from the first item to the last, none is
/// empty, and all but the last hold exactly `batch` items.
pub proof fn law_batches_partition(total: int, batch: int)
    requires
        total >= 0,
        batch > 0,
    ensures
        ({
            let c = ceil_div(total, batch);
            &&& total > 0 ==> batch_range(total, batch, 0).0 == 0
            &&& total > 0 ==> batch_range(total, batch, c - 1).1 == total
            &&& total == 0 ==> c == 0
            &&& forall|t: int|
                0 <= t < c - 1 ==> (#[trigger] batch_range(total, batch, t)).1 == batch_range(
                    total,
                    batch,
                    t + 1,
                ).0
            &&& forall|t: int|
                0 <= t < c ==> {
                    let (l, r) = #[trigger] batch_range(total, batch, t);
                    &&& l < r <= total
                    &&& r - l <= batch
                    &&& t < c - 1 ==> r - l == batch
                }
        }),
{
    let c = ceil_div(total, batch);
    vstd::arithmetic::div_mod::lemma_fundamental_div_mod(total, batch);
    let q = total / batch;
    let m = total % batch;
    assert(0 <= m < batch);
    assert(q >= 0) by (nonlinear_arith)
        requires
            total >= 0,
            batch > 0,
            q == total / batch,
    ;
    if total == 0 {
        assert(q == 0 && m == 0) by (nonlinear_arith)
            requires
                0 == batch * q + m,
                0 <= m < batch,
                q >= 0,
        ;
    }
    assert forall|t: int| 0 <= t < c implies {
        let (l, r) = #[trigger] batch_range(total, batch, t);
        &&& l < r <= total
        &&& r - l <= batch
        &&& t < c - 1 ==> r - l == batch
    } by {
        assert(t * batch < total) by (nonlinear_arith)
            requires
                0 <= t < c,
                c == if m == 0 { q } else { q + 1 },
                total == batch * q + m,
                0 <= m < batch,
                batch > 0,
        ;
        assert((t + 1) * batch == t * batch + batch) by (nonlinear_arith);
        if t < c - 1 {
            assert((t + 1) * batch <= total) by (nonlinear_arith)
                requires
                    0 <= t < c - 1,
                    c == if m == 0 { q } else { q + 1 },
                    total == batch * q + m,
                    0 <= m < batch,
                    batch > 0,
            ;
        }
    }
    assert forall|t: int| 0 <= t < c - 1 implies (#[trigger] batch_range(total, batch, t)).1
        == batch_range(total, batch, t + 1).0 by {
        assert((t + 1) * batch <= total) by (nonlinear_arith)
            requires
                0 <= t < c - 1,
                c == if m == 0 { q } else { q + 1 },
                total == batch * q + m,
                0 <= m < batch,
                batch > 0,
        ;
    }
    if total > 0 {
        assert(c >= 1) by (nonlinear_arith)
            requires
                c == if m == 0 { q } else { q + 1 },
                total == batch * q + m,
                total > 0,
                q >= 0,
        ;
        assert(0 * batch == 0);
        assert((c - 1 + 1) * batch >= total) by (nonlinear_arith)
            requires
                c == if m == 0 { q } else { q + 1 },
                total == batch * q + m,
                0 <= m < batch,
                batch > 0,
        ;
    }
}


proof fn lemma_ceil_bound(n: int, b: int)
    requires
        n >= 0,
        b > 0,
    ensures
        ceil_div(n, b) * b <= n + b - 1,
        ceil_div(n, b) >= 0,
{
    vstd::arithmetic::div_mod::lemma_fundamental_div_mod(n, b);
    let q = n / b;
    let m = n % b;
    assert(ceil_div(n, b) * b <= n + b - 1 && ceil_div(n, b) >= 0) by (nonlinear_arith)
        requires
            n == b * q + m,
            0 <= m < b,
            n >= 0,
            ceil_div(n, b) == if m == 0 { q } else { q + 1 },
    ;
}

/// What the program is to do next in the sweep over batch sizes.
pub enum Step {
    /// Time one run: send one request per range, side by side.  The answers
    /// of the very first run are kept: the next stage asks for them.
    Measure { batch: usize, ranges: Vec<(usize, usize)>, keep_results: bool },
    /// Every run of this batch size is timed: close it.
    Close { batch: usize, concurrency: usize },
    /// Every batch size is done.
    Done,
}

/// What closing a batch size gave: its size, its concurrency and the mean
/// of its runs, which make a row of the timing file.
#[derive(Clone, Copy, Debug)]
pub struct Closed {
    pub batch: usize,
    pub concurrency: usize,
    pub mean: Average,
}

/// The sweep of one stage of the benchmark: every batch size from the number
/// of items down to one, each timed over the same number of runs.
pub struct Sweep {
    items: usize,
    runs: u64,
    batch: usize,
    run: u64,
    timing: Timing,
}

impl Sweep {
    /// The number of items of the stage.
    pub closed spec fn items(&self) -> int {
        self.items as int
    }

    /// The number of runs of each batch size.
    pub closed spec fn runs(&self) -> int {
        self.runs as int
    }

    /// The current batch size; zero once every batch size is done.
    pub closed spec fn batch(&self) -> int {
        self.batch as int
    }

    /// The number of runs of the current batch size done so far.
    pub closed spec fn run(&self) -> int {
        self.run as int
    }

    /// The timing of the stage.
    pub closed spec fn timing(&self) -> Timing {
        self.timing
    }

    /// The state of the sweep: the batch sizes `items` down to `batch + 1`
    /// are closed and recorded, in that order, and `run` runs of `batch` are
    /// counted in the running figures.
    pub closed spec fn wf(&self) -> bool {
        &&& self.timing.wf()
        &&& self.items + self.items <= usize::MAX
        &&& self.batch <= self.items
        &&& self.run <= self.runs
        &&& self.timing.records().len() + self.batch == self.items
        &&& self.timing.running_count() == self.run
    }

    /// A sweep over `items` items, `runs` runs per batch size, that records
    /// into `timing`.  A list of `items` items fits in memory, so twice
    /// their number is a `usize`.
    pub fn new(items: usize, runs: u64, timing: Timing) -> (s: Sweep)
        requires
            timing.wf(),
            timing.records().len() == 0,
            items + items <= usize::MAX,
        ensures
            s.wf(),
            s.items() == items,
            s.runs() == runs,
            s.batch() == items,
            s.run() == 0,
            s.timing().records() == timing.records(),
            s.timing().node() == timing.node(),
    {
        let mut timing = timing;
        timing.init();
        Sweep { items, runs, batch: items, run: 0, timing }
    }

    /// What is to be done next.
    pub fn step(&self) -> (r: Step)
        requires
            self.wf(),
        ensures
            match r {
                Step::Done => self.batch() == 0,
                Step::Measure { batch, ranges, keep_results } => {
                    &&& self.batch() > 0
                    &&& self.run() < self.runs()
                    &&& batch == self.batch()
                    &&& ranges@.len() == ceil_div(self.items(), batch as int)
                    &&& forall|t: int|
                        0 <= t < ranges@.len() ==> (#[trigger] ranges@[t]).0 == batch_range(
                            self.items(),
                            batch as int,
                            t,
                        ).0 && ranges@[t].1 == batch_range(self.items(), batch as int, t).1
                    &&& keep_results == (self.batch() == self.items() && self.run() == 0)
                },
                Step::Close { batch, concurrency } => {
                    &&& self.batch() > 0
                    &&& self.run() == self.runs()
                    &&& batch == self.batch()
                    &&& concurrency == ceil_div(self.items(), batch as int)
                },
            },
    {
        if self.batch == 0 {
            Step::Done
        } else if self.run < self.runs {
            proof {
                lemma_ceil_bound(self.items as int, self.batch as int);
            }
            Step::Measure {
                batch: self.batch,
                ranges: batch_ranges(self.items, self.batch),
                keep_results: self.batch == self.items && self.run == 0,
            }
        } else {
            Step::Close { batch: self.batch, concurrency: concurrency_for(self.items, self.batch) }
        }
    }

    /// Counts a run of the current batch size that took `elapsed_ms`
    /// milliseconds.
    pub fn record_run(&mut self, elapsed_ms: u128)
        requires
            old(self).wf(),
            old(self).batch() > 0,
            old(self).run() < old(self).runs(),
            old(self).timing().running_total() + elapsed_ms <= u128::MAX,
        ensures
            final(self).wf(),
            final(self).items() == old(self).items(),
            final(self).runs() == old(self).runs(),
            final(self).batch() == old(self).batch(),
            final(self).run() == old(self).run() + 1,
            final(self).timing().records() == old(self).timing().records(),
            final(self).timing().running_total() == old(self).timing().running_total()
                + elapsed_ms,
            final(self).timing().node() == old(self).timing().node(),
    {
        self.timing.start();
        self.timing.iteration(elapsed_ms);
        self.run = self.run + 1;
    }

    /// Closes the current batch size once all its runs are timed: its mean
    /// is recorded at position `items - batch`, and the next smaller batch
    /// size begins.
    pub fn close_batch(&mut self) -> (c: Closed)
        requires
            old(self).wf(),
            old(self).batch() > 0,
            old(self).run() == old(self).runs(),
        ensures
            final(self).wf(),
            c.batch == old(self).batch(),
            c.concurrency == ceil_div(old(self).items(), c.batch as int),
            c.mean.total_ms == old(self).timing().running_total(),
            c.mean.runs == old(self).runs(),
            final(self).timing().records() == old(self).timing().records().push(c.mean),
            final(self).timing().records().len() - 1 == old(self).items() - c.batch,
            final(self).items() == old(self).items(),
            final(self).runs() == old(self).runs(),
            final(self).batch() == old(self).batch() - 1,
            final(self).run() == 0,
            final(self).timing().running_total() == 0,
            final(self).timing().node() == old(self).timing().node(),
    {
        let batch = self.batch;
        let concurrency = concurrency_for(self.items, batch);
        let mean = self.timing.end();
        self.timing.init();
        self.batch = self.batch - 1;
        self.run = 0;
        Closed { batch, concurrency, mean }
    }

    /// The timing of the stage, to be summed up.
    pub fn into_timing(self) -> (t: Timing)
        requires
            self.wf(),
        ensures
            t == self.timing(),
            t.wf(),
    {
        self.timing
    }

    /// The timing of the stage, while the sweep goes on.
    pub fn timing_ref(&self) -> (t: &Timing)
        ensures
            *t == self.timing(),
    {
        &self.timing
    }
}


/// Once every batch size is closed, there is one record for each of them:
/// the record at position `j` is the mean of batch size `items - j`, so the
/// positions that `get_timing_data` reports name the batch sizes.
pub proof fn law_sweep_records(s: Sweep)
    requires
        s.wf(),
        s.batch() == 0,
    ensures
        s.timing().records().len() == s.items(),
{
}

/// An address that has its scheme is left as it is: putting the scheme in
/// front twice is putting it once, and the result always has it.
pub proof fn law_good_url_idempotent(node: Seq<char>)
    ensures
        has_prefix(good_url(node), https_scheme()),
        good_url(good_url(node)) == good_url(node),
{
    if !has_prefix(node, https_scheme()) {
        let u = https_scheme() + node;
        assert(u.subrange(0, 8) =~= https_scheme());
    }
}

/// `rand::rngs::ThreadRng`, the random generator of a thread; opaque here.
#[verifier::external_type_specification]
#[verifier::external_body]
pub struct ExThreadRng(rand::rngs::ThreadRng);

/// Calls `rand::thread_rng`: the random generator of the thread.  Nothing is
/// claimed of it.
#[verifier::external_body]
fn new_rng() -> rand::rngs::ThreadRng {
    rand::thread_rng()
}

/// Calls `Rng::gen_range(0..bound)`.  Claimed: the number lies in the
/// range, that is below `bound`; the range must not be empty, where
/// `gen_range` panics.  Which number comes is left to chance.
#[verifier::external_body]
fn gen_below(rng: &mut rand::rngs::ThreadRng, bound: u64) -> (r: u64)
    requires
        bound > 0,
    ensures
        r < bound,
{
    rng.gen_range(0..bound)
}

/// Draws `count` block numbers at random below `range`, the blocks that the
/// benchmark asks for.
pub fn generate_blocks(count: usize, range: u64) -> (blocks: Vec<u64>)
    requires
        count == 0 || range > 0,
    ensures
        blocks@.len() == count,
        forall|i: int| 0 <= i < count ==> #[trigger] blocks@[i] < range,
{
    let mut rng = new_rng();
    let mut blocks: Vec<u64> = Vec::new();
    let mut i: usize = 0;
    while i < count
        invariant
            i <= count,
            count == 0 || range > 0,
            blocks@.len() == i,
            forall|j: int| 0 <= j < i ==> #[trigger] blocks@[j] < range,
        decreases count - i,
    {
        let b = gen_below(&mut rng, range);
        blocks.push(b);
        i = i + 1;
    }
    blocks
}

} // verus!
