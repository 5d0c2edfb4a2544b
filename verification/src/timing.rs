use vstd::prelude::*;

verus! {

/// The mean of the times measured for one batch size, in seconds: the runs
/// took `total_ms` milliseconds in all, so the mean is the fraction
/// `total_ms / (1000 * runs)` seconds (see `seconds`).  With no run measured
/// there is no mean.
#[derive(Clone, Copy, Debug)]
pub struct Average {
    pub total_ms: u128,
    pub runs: u64,
}

/// The mean in seconds, as a fraction: numerator and denominator.
pub open spec fn seconds(a: Average) -> (int, int) {
    (a.total_ms as int, 1000 * a.runs)
}

/// The mean exists: at least one run was measured.
pub open spec fn is_defined(a: Average) -> bool {
    a.runs > 0
}

/// `a < b` as numbers, for two means that exist (the factor 1000 of the
/// seconds falls out of the comparison; see `law_order_in_seconds`).
pub open spec fn avg_lt(a: Average, b: Average) -> bool {
    a.total_ms * b.runs < b.total_ms * a.runs
}

/// `a <= b` as numbers, for two means that exist.
pub open spec fn avg_le(a: Average, b: Average) -> bool {
    a.total_ms * b.runs <= b.total_ms * a.runs
}

/// The ceiling under which a mean counts for the minimum, in seconds.
pub open spec fn min_ceiling() -> int {
    100000
}

/// The mean exists and lies below the ceiling of the minimum.
pub open spec fn below_ceiling(a: Average) -> bool {
    is_defined(a) && seconds(a).0 < min_ceiling() * seconds(a).1
}

/// The mean exists and is greater than zero.
pub open spec fn above_zero(a: Average) -> bool {
    is_defined(a) && a.total_ms > 0
}

/// Comparing two means is comparing them in seconds.
pub proof fn law_order_in_seconds(a: Average, b: Average)
    requires
        is_defined(a),
        is_defined(b),
    ensures
        avg_lt(a, b) <==> frac_lt(seconds(a).0, seconds(a).1, seconds(b).0, seconds(b).1),
        avg_le(a, b) <==> !frac_lt(seconds(b).0, seconds(b).1, seconds(a).0, seconds(a).1),
{
    let (at, ar, bt, br) = (a.total_ms as int, a.runs as int, b.total_ms as int, b.runs as int);
    assert(at * (1000 * br) == 1000 * (at * br)) by (nonlinear_arith);
    assert(bt * (1000 * ar) == 1000 * (bt * ar)) by (nonlinear_arith);
}

/// `p / q < r / s` for positive `q` and `s`.
pub open spec fn frac_lt(p: int, q: int, r: int, s: int) -> bool {
    p * s < r * q
}

proof fn lemma_frac_step(p: int, q: int, r: int, s: int, a: int, x: int, c: int, y: int)
    by (nonlinear_arith)
    requires
        q > 0,
        s > 0,
        0 <= x < q,
        0 <= y < s,
        a >= 0,
        c >= 0,
        p == q * a + x,
        r == s * c + y,
    ensures
        a < c ==> p * s < r * q,
        a > c ==> !(p * s < r * q),
        a == c ==> (p * s < r * q <==> x * s < y * q),
{
    assert(q * a == a * q);
    assert(s * c == c * s);
    if a < c {
        assert(p * s == a * q * s + x * s);
        assert(x * s < q * s);
        assert((a + 1) * q * s <= c * q * s);
        assert(r * q == c * s * q + y * q);
    }
    if a > c {
        assert(r * q == c * s * q + y * q);
        assert(y * q < s * q);
        assert((c + 1) * s * q <= a * s * q);
        assert(p * s == a * q * s + x * s);
    }
    if a == c {
        assert(p * s - r * q == x * s - y * q);
    }
}

/// Compares two fractions `p / q < r / s` exactly, by the continued-fraction
/// method, without any product that could overflow.
pub fn fraction_less(p: u128, q: u128, r: u128, s: u128) -> (b: bool)
    requires
        q > 0,
        s > 0,
    ensures
        b == frac_lt(p as int, q as int, r as int, s as int),
    decreases q + s,
{
    let a = p / q;
    let x = p % q;
    let c = r / s;
    let y = r % s;
    proof {
        vstd::arithmetic::div_mod::lemma_fundamental_div_mod(p as int, q as int);
        vstd::arithmetic::div_mod::lemma_fundamental_div_mod(r as int, s as int);
        lemma_frac_step(p as int, q as int, r as int, s as int, a as int, x as int, c as int, y as int);
    }
    if a != c {
        return a < c;
    }
    if y == 0 {
        assert((y as int) * (q as int) == 0) by (nonlinear_arith)
            requires
                y == 0,
        ;
        assert((x as int) * (s as int) >= 0) by (nonlinear_arith)
            requires
                x >= 0,
                s > 0,
        ;
        return false;
    }
    if x == 0 {
        assert((x as int) * (s as int) == 0) by (nonlinear_arith)
            requires
                x == 0,
        ;
        assert((y as int) * (q as int) > 0) by (nonlinear_arith)
            requires
                y > 0,
                q > 0,
        ;
        return true;
    }
    // x / q < y / s  exactly when  s / y < q / x
    let b = fraction_less(s, y, q, x);
    assert((s as int) * (x as int) == (x as int) * (s as int)) by (nonlinear_arith);
    assert((q as int) * (y as int) == (y as int) * (q as int)) by (nonlinear_arith);
    b
}

/// Tells whether the mean `a` is smaller than the mean `b`.
pub fn average_less(a: &Average, b: &Average) -> (r: bool)
    requires
        is_defined(*a),
        is_defined(*b),
    ensures
        r == avg_lt(*a, *b),
{
    fraction_less(a.total_ms, a.runs as u128, b.total_ms, b.runs as u128)
}


proof fn lemma_lt_le_trans(a: Average, b: Average, c: Average)
    requires
        is_defined(a),
        is_defined(b),
        is_defined(c),
        avg_lt(a, b),
        avg_le(b, c),
    ensures
        avg_lt(a, c),
{
    let (at, ar, bt, br, ct, cr) = (
        a.total_ms as int,
        a.runs as int,
        b.total_ms as int,
        b.runs as int,
        c.total_ms as int,
        c.runs as int,
    );
    assert(at * cr < ct * ar) by (nonlinear_arith)
        requires
            ar > 0,
            br > 0,
            cr > 0,
            at >= 0,
            bt >= 0,
            ct >= 0,
            at * br < bt * ar,
            bt * cr <= ct * br,
    {
        assert(at * br * cr < bt * ar * cr);
        assert(bt * cr * ar <= ct * br * ar);
        assert(at * cr * br < ct * ar * br);
    }
}

proof fn lemma_le_lt_trans(a: Average, b: Average, c: Average)
    requires
        is_defined(a),
        is_defined(b),
        is_defined(c),
        avg_le(a, b),
        avg_lt(b, c),
    ensures
        avg_lt(a, c),
{
    let (at, ar, bt, br, ct, cr) = (
        a.total_ms as int,
        a.runs as int,
        b.total_ms as int,
        b.runs as int,
        c.total_ms as int,
        c.runs as int,
    );
    assert(at * cr < ct * ar) by (nonlinear_arith)
        requires
            ar > 0,
            br > 0,
            cr > 0,
            at >= 0,
            bt >= 0,
            ct >= 0,
            at * br <= bt * ar,
            bt * cr < ct * br,
    {
        assert(at * br * cr <= bt * ar * cr);
        assert(bt * cr * ar < ct * br * ar);
        assert(at * cr * br < ct * ar * br);
    }
}

/// A mean below the ceiling is smaller than any mean that is not.
proof fn lemma_below_ceiling_lt(a: Average, b: Average)
    requires
        below_ceiling(a),
        is_defined(b),
        !below_ceiling(b),
    ensures
        avg_lt(a, b),
{
    let (at, ar, bt, br) = (a.total_ms as int, a.runs as int, b.total_ms as int, b.runs as int);
    assert(at * br < bt * ar) by (nonlinear_arith)
        requires
            ar > 0,
            br > 0,
            at >= 0,
            at < 100000000 * ar,
            bt >= 100000000 * br,
    {
        assert(at * br < 100000000 * ar * br);
        assert(100000000 * br * ar <= bt * ar);
    }
}

/// A mean smaller than one below the ceiling is below the ceiling too.
proof fn lemma_lt_below_ceiling(a: Average, b: Average)
    requires
        is_defined(a),
        below_ceiling(b),
        avg_lt(a, b),
    ensures
        below_ceiling(a),
{
    let (at, ar, bt, br) = (a.total_ms as int, a.runs as int, b.total_ms as int, b.runs as int);
    assert(at < 100000000 * ar) by (nonlinear_arith)
        requires
            ar > 0,
            br > 0,
            at >= 0,
            bt < 100000000 * br,
            at * br < bt * ar,
    {
        assert(bt * ar < 100000000 * br * ar);
        assert(at * br < 100000000 * ar * br);
    }
}

/// A mean of zero is smaller than any mean above zero.
proof fn lemma_zero_lt_above(a: Average, b: Average)
    requires
        is_defined(a),
        !above_zero(a),
        above_zero(b),
    ensures
        avg_lt(a, b),
{
    let (at, ar, bt, br) = (a.total_ms as int, a.runs as int, b.total_ms as int, b.runs as int);
    assert(at * br < bt * ar) by (nonlinear_arith)
        requires
            ar > 0,
            br > 0,
            at == 0,
            bt > 0,
    ;
}

/// A mean greater than one above zero is above zero too.
proof fn lemma_gt_above_zero(a: Average, b: Average)
    requires
        is_defined(a),
        above_zero(b),
        avg_lt(b, a),
    ensures
        above_zero(a),
{
    let (at, ar, bt, br) = (a.total_ms as int, a.runs as int, b.total_ms as int, b.runs as int);
    assert(at > 0) by (nonlinear_arith)
        requires
            ar > 0,
            br > 0,
            at >= 0,
            bt > 0,
            bt * ar < at * br,
    ;
}

/// The mean at `i` is the one that the scan for the minimum picks: the
/// first of the smallest means, among those below the ceiling.
pub open spec fn is_min_at(d: Seq<Average>, i: int) -> bool {
    &&& 0 <= i < d.len()
    &&& below_ceiling(d[i])
    &&& forall|j: int| 0 <= j < d.len() && is_defined(d[j]) ==> avg_le(d[i], d[j])
    &&& forall|j: int| 0 <= j < i && is_defined(d[j]) ==> avg_lt(d[i], d[j])
}

/// The mean at `i` is the one that the scan for the maximum picks: the
/// first of the greatest means, among those above zero.
pub open spec fn is_max_at(d: Seq<Average>, i: int) -> bool {
    &&& 0 <= i < d.len()
    &&& above_zero(d[i])
    &&& forall|j: int| 0 <= j < d.len() && is_defined(d[j]) ==> avg_le(d[j], d[i])
    &&& forall|j: int| 0 <= j < i && is_defined(d[j]) ==> avg_lt(d[j], d[i])
}

/// The fastest batch size is no slower than the slowest one: the mean that
/// the scan picks as the minimum is at most the one it picks as the maximum.
pub proof fn law_fastest_not_slower(d: Seq<Average>, i: int, j: int)
    requires
        is_min_at(d, i),
        is_max_at(d, j),
    ensures
        avg_le(d[i], d[j]),
{
    assert(is_defined(d[j]));
}

/// Scans the means once and returns the positions, counted from one, of the
/// minimum below the ceiling and of the maximum above zero; 0 where there is
/// none.
pub fn extreme_positions(d: &Vec<Average>) -> (r: (usize, usize))
    ensures
        r.0 == 0 <==> (forall|j: int| 0 <= j < d@.len() ==> !below_ceiling(#[trigger] d@[j])),
        r.0 > 0 ==> is_min_at(d@, r.0 - 1),
        r.1 == 0 <==> (forall|j: int| 0 <= j < d@.len() ==> !above_zero(#[trigger] d@[j])),
        r.1 > 0 ==> is_max_at(d@, r.1 - 1),
{
    let mut min_index: usize = 0;
    let mut max_index: usize = 0;
    let mut k: usize = 0;
    while k < d.len()
        invariant
            k <= d@.len(),
            min_index <= k,
            max_index <= k,
            min_index == 0 ==> (forall|j: int| 0 <= j < k ==> !below_ceiling(#[trigger] d@[j])),
            min_index > 0 ==> {
                &&& below_ceiling(d@[min_index - 1])
                &&& forall|j: int|
                    0 <= j < k && is_defined(#[trigger] d@[j]) ==> avg_le(d@[min_index - 1], d@[j])
                &&& forall|j: int|
                    0 <= j < min_index - 1 && is_defined(#[trigger] d@[j]) ==> avg_lt(
                        d@[min_index - 1],
                        d@[j],
                    )
            },
            max_index == 0 ==> (forall|j: int| 0 <= j < k ==> !above_zero(#[trigger] d@[j])),
            max_index > 0 ==> {
                &&& above_zero(d@[max_index - 1])
                &&& forall|j: int|
                    0 <= j < k && is_defined(#[trigger] d@[j]) ==> avg_le(d@[j], d@[max_index - 1])
                &&& forall|j: int|
                    0 <= j < max_index - 1 && is_defined(#[trigger] d@[j]) ==> avg_lt(
                        d@[j],
                        d@[max_index - 1],
                    )
            },
        decreases d@.len() - k,
    {
        let v = d[k];
        if v.runs > 0 {
            // the maximum
            let greater = if max_index == 0 {
                v.total_ms > 0
            } else {
                average_less(&d[max_index - 1], &v)
            };
            if greater {
                proof {
                    if max_index > 0 {
                        lemma_gt_above_zero(v, d@[max_index - 1]);
                    }
                    assert forall|j: int| 0 <= j < k && is_defined(#[trigger] d@[j]) implies avg_lt(
                        d@[j],
                        v,
                    ) by {
                        if max_index == 0 {
                            lemma_zero_lt_above(d@[j], v);
                        } else {
                            lemma_le_lt_trans(d@[j], d@[max_index - 1], v);
                        }
                    }
                }
                max_index = k + 1;
            }
            // the minimum
            let smaller = if min_index == 0 {
                v.total_ms < 100000000u128 * (v.runs as u128)
            } else {
                average_less(&v, &d[min_index - 1])
            };
            if smaller {
                proof {
                    if min_index > 0 {
                        lemma_lt_below_ceiling(v, d@[min_index - 1]);
                    }
                    assert forall|j: int| 0 <= j < k && is_defined(#[trigger] d@[j]) implies avg_lt(
                        v,
                        d@[j],
                    ) by {
                        if min_index == 0 {
                            lemma_below_ceiling_lt(v, d@[j]);
                        } else {
                            lemma_lt_le_trans(v, d@[min_index - 1], d@[j]);
                        }
                    }
                }
                min_index = k + 1;
            }
        }
        k = k + 1;
    }
    (min_index, max_index)
}


/// `n / b` rounded up: the number of batches of `b` items that hold `n`
/// items.
pub open spec fn ceil_div(n: int, b: int) -> int {
    if n % b == 0 {
        n / b
    } else {
        n / b + 1
    }
}

/// The number of batches of `batch` items that `total` items make, which is
/// also the number of requests sent side by side.
pub fn concurrency_for(total: usize, batch: usize) -> (c: usize)
    requires
        batch > 0,
    ensures
        c == ceil_div(total as int, batch as int),
{
    if total % batch == 0 {
        total / batch
    } else {
        proof {
            vstd::arithmetic::div_mod::lemma_fundamental_div_mod(total as int, batch as int);
            assert(total / batch < total) by (nonlinear_arith)
                requires
                    batch >= 1,
                    total == batch * (total / batch) + total % batch,
                    total % batch > 0,
                    total / batch >= 0,
            ;
        }
        total / batch + 1
    }
}

/// The times measured for each batch size of one stage of the benchmark.
pub struct Timing {
    /// The mean of each batch size closed so far, in seconds, in the order
    /// of closing.
    data: Vec<Average>,
    /// Whether a run has been started.
    started: bool,
    /// The sum of the times of the runs of the current batch size.
    avg: u128,
    /// The number of runs of the current batch size.
    cnt: u64,
    /// The node that is measured.
    node_end_point: String,
}

/// The figures of a timer: the recorded means, the running sum and count
/// of the current batch size, and whether a run was started.
pub struct TimingState {
    pub records: Seq<Average>,
    pub total: int,
    pub count: int,
    pub started: bool,
}

/// A call on a timer.
pub enum TimingOp {
    InitWrite,
    Init,
    Start,
    Iteration(int),
    End,
}

/// The mean that `end` records from the running figures.
pub open spec fn running_mean(st: TimingState) -> Average {
    Average { total_ms: st.total as u128, runs: st.count as u64 }
}

/// What one call does to the figures of a timer.
pub open spec fn timing_step(st: TimingState, op: TimingOp) -> TimingState {
    match op {
        TimingOp::InitWrite => TimingState {
            records: Seq::empty(),
            total: st.total,
            count: st.count,
            started: st.started,
        },
        TimingOp::Init => TimingState { records: st.records, total: 0, count: 0, started: st.started },
        TimingOp::Start => TimingState {
            records: st.records,
            total: st.total,
            count: st.count,
            started: true,
        },
        TimingOp::Iteration(e) => TimingState {
            records: st.records,
            total: st.total + e,
            count: st.count + 1,
            started: st.started,
        },
        TimingOp::End => TimingState {
            records: st.records.push(running_mean(st)),
            total: st.total,
            count: st.count,
            started: st.started,
        },
    }
}

/// What a sequence of calls does to the figures of a timer.
pub open spec fn timing_run(st: TimingState, ops: Seq<TimingOp>) -> TimingState
    decreases ops.len(),
{
    if ops.len() == 0 {
        st
    } else {
        timing_step(timing_run(st, ops.drop_last()), ops.last())
    }
}

/// The means that the calls `end` among `ops` record, in call order.
pub open spec fn means_of_ends(st: TimingState, ops: Seq<TimingOp>) -> Seq<Average>
    decreases ops.len(),
{
    if ops.len() == 0 {
        Seq::empty()
    } else if ops.last() is End {
        means_of_ends(st, ops.drop_last()).push(running_mean(timing_run(st, ops.drop_last())))
    } else {
        means_of_ends(st, ops.drop_last())
    }
}

/// No call among `ops` is `init_write`.
pub open spec fn no_init_write(ops: Seq<TimingOp>) -> bool {
    forall|i: int| 0 <= i < ops.len() ==> !(#[trigger] ops[i] is InitWrite)
}

/// Without `init_write`, the records grow by the mean of each `end`, one
/// per call and in call order; nothing else touches them.
pub proof fn law_records_follow_ends(st: TimingState, ops: Seq<TimingOp>)
    requires
        no_init_write(ops),
    ensures
        timing_run(st, ops).records == st.records + means_of_ends(st, ops),
    decreases ops.len(),
{
    if ops.len() == 0 {
        assert(st.records + Seq::<Average>::empty() =~= st.records);
    } else {
        let pre = ops.drop_last();
        assert(no_init_write(pre)) by {
            assert forall|i: int| 0 <= i < pre.len() implies !(#[trigger] pre[i] is InitWrite) by {
                assert(pre[i] == ops[i]);
            }
        }
        assert(!(ops[ops.len() - 1] is InitWrite));
        law_records_follow_ends(st, pre);
        if ops.last() is End {
            assert(st.records + means_of_ends(st, pre).push(running_mean(timing_run(st, pre)))
                =~= (st.records + means_of_ends(st, pre)).push(running_mean(timing_run(st, pre))));
        }
    }
}

proof fn lemma_run_concat(st: TimingState, a: Seq<TimingOp>, b: Seq<TimingOp>)
    ensures
        timing_run(st, a + b) == timing_run(timing_run(st, a), b),
    decreases b.len(),
{
    if b.len() == 0 {
        assert(a + b =~= a);
    } else {
        lemma_run_concat(st, a, b.drop_last());
        assert((a + b).drop_last() =~= a + b.drop_last());
        assert((a + b).last() == b.last());
    }
}

/// After `init_write`, the records are exactly the means of the calls
/// `end` since the last `init_write`, in call order.
pub proof fn law_records_since_init_write(st: TimingState, pre: Seq<TimingOp>, post: Seq<TimingOp>)
    requires
        no_init_write(post),
    ensures
        ({
            let fresh = timing_run(st, pre.push(TimingOp::InitWrite));
            &&& timing_run(st, pre.push(TimingOp::InitWrite) + post).records == means_of_ends(
                fresh,
                post,
            )
            &&& timing_run(st, pre.push(TimingOp::InitWrite) + post).records.len()
                == means_of_ends(fresh, post).len()
        }),
{
    let head = pre.push(TimingOp::InitWrite);
    lemma_run_concat(st, head, post);
    assert(head.drop_last() =~= pre);
    let fresh = timing_run(st, head);
    assert(fresh.records == Seq::<Average>::empty());
    law_records_follow_ends(fresh, post);
    assert(Seq::<Average>::empty() + means_of_ends(fresh, post) =~= means_of_ends(fresh, post));
}

/// The number of calls `end` among `ops`.
pub open spec fn count_ends(ops: Seq<TimingOp>) -> nat
    decreases ops.len(),
{
    if ops.len() == 0 {
        0
    } else if ops.last() is End {
        count_ends(ops.drop_last()) + 1
    } else {
        count_ends(ops.drop_last())
    }
}

/// Each call `end` records one mean: there are as many as calls.
pub proof fn law_one_mean_per_end(st: TimingState, ops: Seq<TimingOp>)
    ensures
        means_of_ends(st, ops).len() == count_ends(ops),
    decreases ops.len(),
{
    if ops.len() > 0 {
        law_one_mean_per_end(st, ops.drop_last());
    }
}

/// Runs that took `es[0]`, `es[1]`, ... milliseconds: for each, `start`
/// and then `iteration` with its time.
pub open spec fn run_ops(es: Seq<int>) -> Seq<TimingOp>
    decreases es.len(),
{
    if es.len() == 0 {
        Seq::empty()
    } else {
        run_ops(es.drop_last()) + seq![TimingOp::Start, TimingOp::Iteration(es.last())]
    }
}

/// The sum of the times.
pub open spec fn sum_of(es: Seq<int>) -> int
    decreases es.len(),
{
    if es.len() == 0 {
        0
    } else {
        sum_of(es.drop_last()) + es.last()
    }
}

proof fn lemma_runs_figures(st: TimingState, es: Seq<int>)
    ensures
        timing_run(st, run_ops(es)).records == st.records,
        timing_run(st, run_ops(es)).total == st.total + sum_of(es),
        timing_run(st, run_ops(es)).count == st.count + es.len(),
    decreases es.len(),
{
    if es.len() == 0 {
        assert(run_ops(es) =~= Seq::<TimingOp>::empty());
        assert(timing_run(st, Seq::<TimingOp>::empty()) == st);
    } else {
        let pre = es.drop_last();
        let pair = seq![TimingOp::Start, TimingOp::Iteration(es.last())];
        lemma_runs_figures(st, pre);
        lemma_run_concat(st, run_ops(pre), pair);
        let r = timing_run(st, run_ops(pre));
        let start = seq![TimingOp::Start];
        assert(pair.drop_last() =~= start);
        assert(start.drop_last() =~= Seq::<TimingOp>::empty());
        assert(timing_run(r, Seq::<TimingOp>::empty()) == r);
        assert(timing_run(r, start) == timing_step(r, TimingOp::Start));
        assert(timing_run(r, pair) == timing_step(
            timing_step(r, TimingOp::Start),
            TimingOp::Iteration(es.last()),
        ));
    }
}

/// The mean of the runs of a batch size: after `init`, runs that took
/// `es[0]`, `es[1]`, ... milliseconds (each `start` then `iteration`), and
/// `end`, the last record holds their sum and their number, that is the mean
/// `sum / (1000 * k)` seconds of the `k` runs; the earlier records stay.
pub proof fn law_mean_of_runs(st: TimingState, es: Seq<int>)
    requires
        0 <= sum_of(es) <= u128::MAX,
        es.len() <= u64::MAX,
    ensures
        ({
            let after = timing_run(
                st,
                seq![TimingOp::Init] + run_ops(es) + seq![TimingOp::End],
            );
            &&& after.records == st.records.push(
                Average { total_ms: sum_of(es) as u128, runs: es.len() as u64 },
            )
            &&& seconds(after.records.last()) == (sum_of(es), 1000 * (es.len() as int))
        }),
{
    let init = seq![TimingOp::Init];
    let end = seq![TimingOp::End];
    assert(init.drop_last() =~= Seq::<TimingOp>::empty());
    assert(end.drop_last() =~= Seq::<TimingOp>::empty());
    assert(timing_run(st, Seq::<TimingOp>::empty()) == st);
    assert(init.last() == TimingOp::Init);
    let s1 = timing_run(st, init);
    assert(s1 == timing_step(st, TimingOp::Init));
    assert(s1.total == 0 && s1.count == 0 && s1.records == st.records);
    lemma_runs_figures(s1, es);
    lemma_run_concat(st, init, run_ops(es));
    let s2 = timing_run(st, init + run_ops(es));
    assert(s2 == timing_run(s1, run_ops(es)));
    lemma_run_concat(st, init + run_ops(es), end);
    assert(timing_run(s2, Seq::<TimingOp>::empty()) == s2);
    assert(end.last() == TimingOp::End);
    assert(timing_run(s2, end) == timing_step(s2, TimingOp::End));
}

impl Timing {
    /// The means recorded so far.
    pub closed spec fn records(&self) -> Seq<Average> {
        self.data@
    }

    /// The sum, in milliseconds, of the runs of the current batch size.
    pub closed spec fn running_total(&self) -> int {
        self.avg as int
    }

    /// The number of runs of the current batch size.
    pub closed spec fn running_count(&self) -> int {
        self.cnt as int
    }

    /// The node that is measured.
    pub closed spec fn node(&self) -> String {
        self.node_end_point
    }

    /// Whether a run has been started.
    pub closed spec fn is_started(&self) -> bool {
        self.started
    }

    /// The figures of the timer as a whole.
    pub closed spec fn state(&self) -> TimingState {
        TimingState {
            records: self.data@,
            total: self.avg as int,
            count: self.cnt as int,
            started: self.started,
        }
    }

    /// No mean without runs: a sum with no run is zero, in the running
    /// figures and in every record.
    pub closed spec fn wf(&self) -> bool {
        &&& (self.cnt == 0 ==> self.avg == 0)
        &&& forall|i: int|
            0 <= i < self.data@.len() ==> (#[trigger] self.data@[i]).runs == 0
                ==> self.data@[i].total_ms == 0
    }

    /// A timer for `node_end_point` with nothing measured.
    pub fn new(node_end_point: String) -> (t: Timing)
        ensures
            t.wf(),
            t.records() == Seq::<Average>::empty(),
            t.running_total() == 0,
            t.running_count() == 0,
            !t.is_started(),
            t.node()@ == node_end_point@,
    {
        Timing { data: Vec::new(), started: false, avg: 0, cnt: 0, node_end_point }
    }

    /// Forgets the records, once the file that receives them is open.
    pub fn init_write(&mut self)
        requires
            old(self).wf(),
        ensures
            final(self).wf(),
            final(self).records() == Seq::<Average>::empty(),
            final(self).running_total() == old(self).running_total(),
            final(self).running_count() == old(self).running_count(),
            final(self).is_started() == old(self).is_started(),
            final(self).node() == old(self).node(),
            final(self).state() == timing_step(old(self).state(), TimingOp::InitWrite),
    {
        self.data = Vec::new();
    }

    /// Starts a new batch size: no run counted yet.
    pub fn init(&mut self)
        requires
            old(self).wf(),
        ensures
            final(self).wf(),
            final(self).records() == old(self).records(),
            final(self).running_total() == 0,
            final(self).running_count() == 0,
            final(self).is_started() == old(self).is_started(),
            final(self).node() == old(self).node(),
            final(self).state() == timing_step(old(self).state(), TimingOp::Init),
    {
        self.avg = 0;
        self.cnt = 0;
    }

    /// Marks the start of a run; its clock is kept by the caller.
    pub fn start(&mut self)
        requires
            old(self).wf(),
        ensures
            final(self).wf(),
            final(self).records() == old(self).records(),
            final(self).running_total() == old(self).running_total(),
            final(self).running_count() == old(self).running_count(),
            final(self).is_started(),
            final(self).node() == old(self).node(),
            final(self).state() == timing_step(old(self).state(), TimingOp::Start),
    {
        self.started = true;
    }

    /// Counts a run that took `elapsed_ms` milliseconds.
    pub fn iteration(&mut self, elapsed_ms: u128)
        requires
            old(self).wf(),
            old(self).is_started(),
            old(self).running_total() + elapsed_ms <= u128::MAX,
            old(self).running_count() < u64::MAX,
        ensures
            final(self).wf(),
            final(self).records() == old(self).records(),
            final(self).running_total() == old(self).running_total() + elapsed_ms,
            final(self).running_count() == old(self).running_count() + 1,
            final(self).is_started(),
            final(self).node() == old(self).node(),
            final(self).state() == timing_step(old(self).state(), TimingOp::Iteration(elapsed_ms as int)),
    {
        self.avg = self.avg + elapsed_ms;
        self.cnt = self.cnt + 1;
    }

    /// Closes the current batch size: records the mean of its runs and
    /// returns it.
    pub fn end(&mut self) -> (mean: Average)
        requires
            old(self).wf(),
        ensures
            final(self).wf(),
            mean.total_ms == old(self).running_total(),
            mean.runs == old(self).running_count(),
            final(self).records() == old(self).records().push(mean),
            final(self).running_total() == old(self).running_total(),
            final(self).running_count() == old(self).running_count(),
            final(self).is_started() == old(self).is_started(),
            final(self).node() == old(self).node(),
            final(self).state() == timing_step(old(self).state(), TimingOp::End),
    {
        let mean = Average { total_ms: self.avg, runs: self.cnt };
        self.data.push(mean);
        mean
    }

    /// The node that is measured.
    pub fn node_end_point(&self) -> (s: &String)
        ensures
            s@ == self.node()@,
    {
        &self.node_end_point
    }

    /// The sum, in milliseconds, of the runs of the current batch size.
    pub fn total_ms(&self) -> (t: u128)
        ensures
            t == self.running_total(),
    {
        self.avg
    }

    /// The recorded means.
    pub fn data(&self) -> (d: &Vec<Average>)
        ensures
            d@ == self.records(),
    {
        &self.data
    }
}

/// The two rows that close the timing file of a stage: the batch size, the
/// concurrency and the mean of the slowest and of the fastest batch size.
#[derive(Clone, Copy, Debug)]
pub struct Extremes {
    pub batch_max: usize,
    pub concurrency_max: usize,
    pub time_max: Average,
    pub batch_min: usize,
    pub concurrency_min: usize,
    pub time_min: Average,
}

/// A stage whose timing can be summed up: some mean lies below the ceiling
/// and some mean is above zero.
pub open spec fn has_extremes(d: Seq<Average>) -> bool {
    &&& exists|j: int| 0 <= j < d.len() && below_ceiling(#[trigger] d[j])
    &&& exists|j: int| 0 <= j < d.len() && above_zero(#[trigger] d[j])
}

/// Finds the fastest and the slowest batch size of a stage.  The `j`-th
/// record belongs to batch size `n - j`, `n` records in all, as the sweep
/// closes the batch sizes from `n` down to 1.
pub fn get_timing_data(timer: &Timing) -> (e: Extremes)
    requires
        has_extremes(timer.records()),
    ensures
        ({
            let d = timer.records();
            let n = d.len() as int;
            &&& is_min_at(d, n - e.batch_min)
            &&& is_max_at(d, n - e.batch_max)
            &&& 1 <= e.batch_min <= n
            &&& 1 <= e.batch_max <= n
            &&& e.concurrency_min == ceil_div(n, e.batch_min as int)
            &&& e.concurrency_max == ceil_div(n, e.batch_max as int)
            &&& e.time_min == d[n - e.batch_min]
            &&& e.time_max == d[n - e.batch_max]
        }),
{
    let d = timer.data();
    let (min_index, max_index) = extreme_positions(d);
    let num = d.len();
    let batch_min = num - min_index + 1;
    let concurrency_min = concurrency_for(num, batch_min);
    let batch_max = num - max_index + 1;
    let concurrency_max = concurrency_for(num, batch_max);
    let time_min = d[num - batch_min];
    let time_max = d[num - batch_max];
    Extremes { batch_max, concurrency_max, time_max, batch_min, concurrency_min, time_min }
}

} // verus!
