use vstd::prelude::*;

use crate::grid::{
    col_of, compute_row, coords_of, lemma_index_bound, lemma_index_coords, row_of, row_rendered,
    rendered, total, MandelConfig,
};
use rayon::iter::{IndexedParallelIterator, IntoParallelRefMutIterator, ParallelIterator};

verus! {

/// Why a strategy could not run.
#[derive(Clone, Copy, Debug, PartialEq, Eq, Structural)]
pub enum StrategyError {
    /// The worker pool could not be started.
    PoolCreation,
}

#[verifier::external_type_specification]
#[verifier::external_body]
pub struct ExRayonPool(rayon::ThreadPool);

#[verifier::external_type_specification]
#[verifier::external_body]
pub struct ExRayonPoolError(rayon::ThreadPoolBuildError);

#[verifier::external_type_specification]
#[verifier::external_body]
pub struct ExJobstealPool(jobsteal::Pool);

#[verifier::external_type_specification]
#[verifier::external_body]
pub struct ExJobstealSpawner<'pool, 'scope>(jobsteal::Spawner<'pool, 'scope>);

/// `region` holds whole scanlines of a raster `size` pixels wide, the first of
/// them being scanline `y0`, each pixel holding its value.
pub open spec fn rows_rendered<F: Fn(u32, u32) -> u32>(
    pixel: &F,
    size: nat,
    y0: int,
    region: Seq<u32>,
) -> bool {
    forall|i: int|
        0 <= i < region.len() ==> pixel.ensures(
            (col_of(size, i) as u32, (y0 + row_of(size, i)) as u32),
            #[trigger] region[i],
        )
}

/// Two rendered runs of scanlines, the second starting where the first ends,
/// make one rendered run.
pub proof fn lemma_rows_concat<F: Fn(u32, u32) -> u32>(
    pixel: &F,
    size: nat,
    y0: int,
    k: nat,
    a: Seq<u32>,
    b: Seq<u32>,
)
    requires
        size > 0,
        a.len() == k * size,
        rows_rendered(pixel, size, y0, a),
        rows_rendered(pixel, size, y0 + k, b),
    ensures
        rows_rendered(pixel, size, y0, a + b),
{
    let s = a + b;
    assert forall|i: int| 0 <= i < s.len() implies pixel.ensures(
        (col_of(size, i) as u32, (y0 + row_of(size, i)) as u32),
        #[trigger] s[i],
    ) by {
        if i >= a.len() {
            let j = i - a.len();
            assert(b[j] == s[i]);
            let q = row_of(size, j);
            let r = col_of(size, j);
            vstd::arithmetic::div_mod::lemma_fundamental_div_mod(j, size as int);
            assert(i == (q + k) * size + r) by (nonlinear_arith)
                requires
                    j == size * q + r,
                    i == j + a.len(),
                    a.len() == k * size,
            ;
            vstd::arithmetic::div_mod::lemma_fundamental_div_mod_converse(
                i,
                size as int,
                q + k,
                r,
            );
        }
    }
}

/// A single scanline computed by `compute_row` is a rendered run of one row.
proof fn lemma_row_is_run<F: Fn(u32, u32) -> u32>(pixel: &F, size: nat, y: int, row: Seq<u32>)
    requires
        size > 0,
        row.len() == size,
        forall|x: int| 0 <= x < size ==> pixel.ensures((x as u32, y as u32), #[trigger] row[x]),
    ensures
        rows_rendered(pixel, size, y, row),
{
    assert forall|i: int| 0 <= i < row.len() implies pixel.ensures(
        (col_of(size, i) as u32, (y + row_of(size, i)) as u32),
        #[trigger] row[i],
    ) by {
        lemma_index_small(size, i);
    }
}

/// An index below `size` is its own column, in row zero.
proof fn lemma_index_small(size: nat, i: int)
    requires
        0 <= i < size,
    ensures
        col_of(size, i) == i,
        row_of(size, i) == 0,
{
    vstd::arithmetic::div_mod::lemma_fundamental_div_mod_converse(i, size as int, 0, i);
}

/// A run of all `size` scanlines starting at row zero is the whole raster.
proof fn lemma_run_is_raster<F: Fn(u32, u32) -> u32>(pixel: &F, size: nat, image: Seq<u32>)
    requires
        image.len() == size * size,
        rows_rendered(pixel, size, 0, image),
    ensures
        rendered(pixel, size, image),
{
    assert forall|i: int| 0 <= i < image.len() implies pixel.ensures(
        (col_of(size, i) as u32, row_of(size, i) as u32),
        #[trigger] image[i],
    ) by {
        assert(0 + row_of(size, i) == row_of(size, i));
    }
}

/// The whole raster is a run of `size` scanlines of `size` pixels.
proof fn whole_raster_is_run(size: nat, n: nat)
    requires
        size > 0,
        n == size * size,
    ensures
        n >= size,
        n % size == 0,
        n / size == size,
{
    vstd::arithmetic::div_mod::lemma_fundamental_div_mod_converse(n as int, size as int, size as int, 0);
    assert(n >= size) by (nonlinear_arith)
        requires
            n == size * size,
            size > 0,
    ;
}

/// Relies on rayon::ThreadPoolBuilder: `num_threads(n).build()` starts a pool
/// of `n` workers or reports why it could not.
#[verifier::external_body]
fn build_rayon_pool(num_threads: usize) -> (r: Result<
    rayon::ThreadPool,
    rayon::ThreadPoolBuildError,
>) {
    rayon::ThreadPoolBuilder::new().num_threads(num_threads).build()
}

/// Relies on rayon::ThreadPool::install: runs `op` on the pool and returns its
/// result (a panic of `op` would propagate; the operations given here do not panic).
#[verifier::external_body]
fn rayon_install<R: Send, OP: FnOnce() -> R + Send>(pool: &rayon::ThreadPool, op: OP) -> (r: R)
    requires
        op.requires(()),
    ensures
        op.ensures((), r),
{
    pool.install(op)
}

/// Relies on rayon::join: runs both operations, possibly in parallel, and
/// returns both results once both have finished.
#[verifier::external_body]
fn rayon_join_ops<RA: Send, RB: Send, A: FnOnce() -> RA + Send, B: FnOnce() -> RB + Send>(
    oper_a: A,
    oper_b: B,
) -> (r: (RA, RB))
    requires
        oper_a.requires(()),
        oper_b.requires(()),
    ensures
        oper_a.ensures((), r.0),
        oper_b.ensures((), r.1),
{
    rayon::join(oper_a, oper_b)
}

/// Relies on rayon's `par_iter_mut().enumerate().for_each`: visits every
/// element of the buffer exactly once, with its index, before returning.
#[verifier::external_body]
fn rayon_for_each_index<F: Fn(usize) -> u32 + Sync + Send>(image: &mut Vec<u32>, f: &F)
    requires
        forall|i: usize| i < old(image)@.len() ==> #[trigger] f.requires((i,)),
    ensures
        final(image)@.len() == old(image)@.len(),
        forall|i: int|
            0 <= i < final(image)@.len() ==> f.ensures((i as usize,), #[trigger] final(image)@[i]),
{
    image.par_iter_mut().enumerate().for_each(|(i, p)| *p = f(i));
}

/// Starts a rayon pool of the configured width.
fn rayon_pool(mandel_config: &MandelConfig) -> (r: Result<rayon::ThreadPool, StrategyError>) {
    match build_rayon_pool(mandel_config.num_threads as usize) {
        Ok(pool) => Ok(pool),
        Err(_) => Err(StrategyError::PoolCreation),
    }
}

/// Splits a run of at least two whole scanlines at the scanline boundary
/// nearest its middle: the first part gets `rows / 2` scanlines, the second
/// the rest. Neither part shares an element with the other.
pub fn split_rows(size: u32, region: Vec<u32>) -> (r: (Vec<u32>, Vec<u32>, usize))
    requires
        size > 0,
        region@.len() % (size as nat) == 0,
        region@.len() / (size as nat) >= 2,
    ensures
        r.2 == region@.len() / (size as nat) / 2,
        r.2 >= 1,
        r.0@.len() == r.2 * size,
        r.0@ + r.1@ == region@,
        r.0@.len() >= size,
        r.0@.len() % (size as nat) == 0,
        r.0@.len() / (size as nat) == r.2,
        r.1@.len() >= size,
        r.1@.len() % (size as nat) == 0,
        r.1@.len() / (size as nat) == region@.len() / (size as nat) - r.2,
{
    let rows: usize = region.len() / (size as usize);
    let half: usize = rows / 2;
    proof {
        vstd::arithmetic::div_mod::lemma_fundamental_div_mod(region@.len() as int, size as int);
        assert(half * size < region@.len()) by (nonlinear_arith)
            requires
                region@.len() == size * rows,
                half == rows / 2,
                rows >= 2,
                size > 0,
        ;
    }
    let mid: usize = half * (size as usize);
    let mut top = region;
    let bottom = top.split_off(mid);
    proof {
        assert(top@ + bottom@ == region@);
        let rest = (rows - half) as int;
        assert(bottom@.len() == rest * size) by (nonlinear_arith)
            requires
                bottom@.len() + half * size == size * rows,
                rest == rows - half,
        ;
        vstd::arithmetic::div_mod::lemma_fundamental_div_mod_converse(
            top@.len() as int,
            size as int,
            half as int,
            0,
        );
        vstd::arithmetic::div_mod::lemma_fundamental_div_mod_converse(
            bottom@.len() as int,
            size as int,
            rest,
            0,
        );
        assert(top@.len() >= size) by (nonlinear_arith)
            requires
                top@.len() == half * size,
                half >= 1,
                size > 0,
        ;
        assert(bottom@.len() >= size) by (nonlinear_arith)
            requires
                bottom@.len() == rest * size,
                rest >= 1,
                size > 0,
        ;
    }
    (top, bottom, half)
}

/// Fills `region`, which holds `region.len() / size` whole scanlines starting
/// at row `y`, by bisecting it at a scanline boundary and handing both halves
/// to `rayon::join` until one scanline is left.
pub fn rayon_helper<F: Fn(u32, u32) -> u32 + Sync>(
    pixel: &F,
    size: u32,
    region: Vec<u32>,
    y: u32,
) -> (r: Vec<u32>)
    requires
        total(pixel),
        size > 0,
        region@.len() >= size,
        region@.len() % (size as nat) == 0,
        y as nat + region@.len() / (size as nat) <= u32::MAX,
    ensures
        r@.len() == region@.len(),
        rows_rendered(pixel, size as nat, y as int, r@),
    decreases region@.len(),
{
    let rows: usize = region.len() / (size as usize);
    proof {
        vstd::arithmetic::div_mod::lemma_fundamental_div_mod(region@.len() as int, size as int);
        assert(rows >= 1) by (nonlinear_arith)
            requires
                region@.len() == size * rows,
                region@.len() >= size,
                size > 0,
        ;
    }
    if rows == 1 {
        let row = compute_row(pixel, size, y);
        proof {
            assert(region@.len() == size) by (nonlinear_arith)
                requires
                    region@.len() == size * rows,
                    rows == 1,
            ;
            lemma_row_is_run(pixel, size as nat, y as int, row@);
        }
        row
    } else {
        let (top, bottom, half) = split_rows(size, region);
        let y2: u32 = y + half as u32;
        let ghost top_len = top@.len();
        let ghost bottom_len = bottom@.len();
        let top_op = move || -> (r: Vec<u32>)
            requires
                total(pixel),
                top@.len() == top_len,
            ensures
                r@.len() == top_len,
                rows_rendered(pixel, size as nat, y as int, r@),
            { rayon_helper(pixel, size, top, y) };
        let bottom_op = move || -> (r: Vec<u32>)
            requires
                total(pixel),
                bottom@.len() == bottom_len,
            ensures
                r@.len() == bottom_len,
                rows_rendered(pixel, size as nat, y2 as int, r@),
            { rayon_helper(pixel, size, bottom, y2) };
        let (mut a, mut b) = rayon_join_ops(top_op, bottom_op);
        proof {
            lemma_rows_concat(pixel, size as nat, y as int, half as nat, a@, b@);
        }
        a.append(&mut b);
        a
    }
}

/// Recursive divide-and-conquer on a rayon pool of `num_threads` workers.
pub fn rayon_join<F: Fn(u32, u32) -> u32 + Sync + Send>(
    mandel_config: &MandelConfig,
    pixel: &F,
    image: &mut Vec<u32>,
) -> (r: Result<(), StrategyError>)
    requires
        mandel_config.wf(),
        total(pixel),
        old(image)@.len() == mandel_config.area(),
    ensures
        r is Ok ==> rendered(pixel, mandel_config.img_size as nat, final(image)@),
        r is Err ==> final(image)@ == old(image)@,
{
    let pool = match rayon_pool(mandel_config) {
        Ok(p) => p,
        Err(e) => return Err(e),
    };
    let size = mandel_config.img_size;
    let mut region: Vec<u32> = Vec::new();
    std::mem::swap(&mut region, image);
    let ghost n = region@.len();
    proof {
        whole_raster_is_run(size as nat, n);
    }
    let op = move || -> (r: Vec<u32>)
        requires
            total(pixel),
            size > 0,
            region@.len() == n,
            n >= size,
            n % (size as nat) == 0,
            n / (size as nat) == size,
        ensures
            r@.len() == n,
            rows_rendered(pixel, size as nat, 0, r@),
        { rayon_helper(pixel, size, region, 0) };
    let filled = rayon_install(&pool, op);
    proof {
        lemma_run_is_raster(pixel, size as nat, filled@);
    }
    *image = filled;
    Ok(())
}

/// The pixel value at a flat buffer index.
pub fn pixel_at<F: Fn(u32, u32) -> u32>(pixel: &F, size: u32, index: usize) -> (r: u32)
    requires
        total(pixel),
        size > 0,
        index < size as nat * size as nat,
    ensures
        pixel.ensures(
            (col_of(size as nat, index as int) as u32, row_of(size as nat, index as int) as u32),
            r,
        ),
{
    let (x, y) = coords_of(size, index);
    pixel(x, y)
}

/// Flat parallel-for on a rayon pool: every index of the buffer is visited
/// on its own, its column and row derived from the index.
pub fn rayon_par_iter<F: Fn(u32, u32) -> u32 + Sync + Send>(
    mandel_config: &MandelConfig,
    pixel: &F,
    image: &mut Vec<u32>,
) -> (r: Result<(), StrategyError>)
    requires
        mandel_config.wf(),
        total(pixel),
        old(image)@.len() == mandel_config.area(),
    ensures
        r is Ok ==> rendered(pixel, mandel_config.img_size as nat, final(image)@),
        r is Err ==> final(image)@ == old(image)@,
{
    let pool = match rayon_pool(mandel_config) {
        Ok(p) => p,
        Err(e) => return Err(e),
    };
    let size = mandel_config.img_size;
    let mut buffer: Vec<u32> = Vec::new();
    std::mem::swap(&mut buffer, image);
    let ghost n = buffer@.len();
    let visit = |i: usize| -> (v: u32)
        requires
            total(pixel),
            size > 0,
            i < size as nat * size as nat,
        ensures
            pixel.ensures(
                (col_of(size as nat, i as int) as u32, row_of(size as nat, i as int) as u32),
                v,
            ),
        { pixel_at(pixel, size, i) };
    let op = move || -> (r: Vec<u32>)
        requires
            total(pixel),
            size > 0,
            buffer@.len() == n,
            n == size as nat * size as nat,
            forall|i: usize| i < n ==> #[trigger] visit.requires((i,)),
        ensures
            r@.len() == n,
            forall|i: int| 0 <= i < n ==> visit.ensures((i as usize,), #[trigger] r@[i]),
        {
            let mut b = buffer;
            rayon_for_each_index(&mut b, &visit);
            b
        };
    let filled = rayon_install(&pool, op);
    *image = filled;
    Ok(())
}

/// Copies scanline `y` of `rows` into the row-major buffer, for every `y`.
pub fn fill_from_rows<F: Fn(u32, u32) -> u32>(
    pixel: &F,
    size: u32,
    rows: &Vec<Vec<u32>>,
    image: &mut Vec<u32>,
)
    requires
        size > 0,
        size as nat * size as nat <= usize::MAX,
        old(image)@.len() == size as nat * size as nat,
        rows@.len() == size,
        forall|y: int| 0 <= y < size ==> row_rendered(pixel, size as nat, y, #[trigger] rows@[y]@),
    ensures
        final(image)@.len() == old(image)@.len(),
        forall|y: int, x: int|
            0 <= y < size && 0 <= x < size ==> #[trigger] final(image)@[y * size + x]
                == rows@[y]@[x],
        rendered(pixel, size as nat, final(image)@),
{
    let ghost n = size as nat;
    let mut y: u32 = 0;
    while y < size
        invariant
            y <= size,
            n == size,
            n * n <= usize::MAX,
            image@.len() == n * n,
            rows@.len() == n,
            forall|k: int| 0 <= k < n ==> row_rendered(pixel, n, k, #[trigger] rows@[k]@),
            forall|r: int, c: int|
                0 <= r < y && 0 <= c < n ==> #[trigger] image@[r * n + c] == rows@[r]@[c],
            forall|i: int|
                0 <= i < y * n ==> pixel.ensures(
                    (col_of(n, i) as u32, row_of(n, i) as u32),
                    #[trigger] image@[i],
                ),
        decreases size - y,
    {
        let row = &rows[y as usize];
        let mut x: u32 = 0;
        while x < size
            invariant
                y < size,
                x <= size,
                n == size,
                n * n <= usize::MAX,
                image@.len() == n * n,
                row_rendered(pixel, n, y as int, row@),
                row@ == rows@[y as int]@,
                forall|r: int, c: int|
                    (0 <= r < y && 0 <= c < n) || (r == y && 0 <= c < x) ==> #[trigger] image@[r * n
                        + c] == rows@[r]@[c],
                forall|i: int|
                    0 <= i < y * n + x ==> pixel.ensures(
                        (col_of(n, i) as u32, row_of(n, i) as u32),
                        #[trigger] image@[i],
                    ),
            decreases size - x,
        {
            proof {
                lemma_index_bound(n, n, y as int, x as int);
                lemma_index_coords(n, y as int, x as int);
                assert forall|r: int, c: int|
                    0 <= r && 0 <= c < n && (r != y || c != x) implies #[trigger] (r * n + c) != y
                    * n + x by {
                    lemma_index_coords(n, r, c);
                }
            }
            let idx: usize = (y as usize) * (size as usize) + (x as usize);
            let ghost prev = image@;
            image.set(idx, row[x as usize]);
            proof {
                assert forall|r: int, c: int|
                    (0 <= r < y && 0 <= c < n) || (r == y && 0 <= c <= x) implies #[trigger] image@[r
                    * n + c] == rows@[r]@[c] by {
                    lemma_index_bound(n, n, r, c);
                    if r != y || c != x {
                        assert(r * n + c != y * n + x);
                        assert(image@[r * n + c] == prev[r * n + c]);
                    }
                }
            }
            x = x + 1;
        }
        proof {
            assert((y + 1) * n == y * n + n) by (nonlinear_arith);
        }
        y = y + 1;
    }
}

/// Relies on scoped_threadpool::Pool: `new(n)` starts `n` workers (it asserts
/// `n >= 1`), and `scoped` returns only once every job handed to `execute`
/// inside it has finished. One job per row index, each storing its result in
/// its own slot.
#[verifier::external_body]
fn threadpool_rows<F: Fn(u32) -> Vec<u32> + Sync>(
    num_threads: u32,
    rows: u32,
    job: &F,
) -> (r: Vec<Vec<u32>>)
    requires
        num_threads >= 1,
        forall|y: u32| y < rows ==> #[trigger] job.requires((y,)),
    ensures
        r@.len() == rows,
        forall|y: int| 0 <= y < rows ==> job.ensures((y as u32,), #[trigger] r@[y]),
{
    let mut out: Vec<Vec<u32>> = (0..rows).map(|_| Vec::new()).collect();
    let mut pool = scoped_threadpool::Pool::new(num_threads);
    pool.scoped(|scope| {
        for (y, slot) in out.iter_mut().enumerate() {
            scope.execute(move || *slot = job(y as u32));
        }
    });
    out
}

/// Relies on simple_parallel::Pool: `new(n)` starts `n` workers, and `for_`
/// calls the closure on every item of the iterator, returning once every call
/// has finished (with no worker, no item would be taken). One item per row
/// index, each storing its result in its own slot.
#[verifier::external_body]
fn simple_parallel_rows<F: Fn(u32) -> Vec<u32> + Sync>(
    num_threads: usize,
    rows: u32,
    job: &F,
) -> (r: Vec<Vec<u32>>)
    requires
        num_threads >= 1,
        forall|y: u32| y < rows ==> #[trigger] job.requires((y,)),
    ensures
        r@.len() == rows,
        forall|y: int| 0 <= y < rows ==> job.ensures((y as u32,), #[trigger] r@[y]),
{
    let mut out: Vec<Vec<u32>> = (0..rows).map(|_| Vec::new()).collect();
    let mut pool = simple_parallel::Pool::new(num_threads);
    pool.for_(out.iter_mut().enumerate(), |(y, slot)| *slot = job(y as u32));
    out
}

/// Relies on scoped_pool::Pool: `new(n)` starts `n` workers (with none, no
/// job would ever run), `scoped` returns only once every job handed to
/// `execute` inside it has run, and `shutdown` stops the workers, which the
/// pool does not do by itself. One job per row index, each storing its result
/// in its own slot.
#[verifier::external_body]
fn scoped_pool_rows<F: Fn(u32) -> Vec<u32> + Sync>(
    num_threads: usize,
    rows: u32,
    job: &F,
) -> (r: Vec<Vec<u32>>)
    requires
        num_threads >= 1,
        forall|y: u32| y < rows ==> #[trigger] job.requires((y,)),
    ensures
        r@.len() == rows,
        forall|y: int| 0 <= y < rows ==> job.ensures((y as u32,), #[trigger] r@[y]),
{
    let mut out: Vec<Vec<u32>> = (0..rows).map(|_| Vec::new()).collect();
    let pool = scoped_pool::Pool::new(num_threads);
    pool.scoped(|scope| {
        for (y, slot) in out.iter_mut().enumerate() {
            scope.execute(move || *slot = job(y as u32));
        }
    });
    pool.shutdown();
    out
}

/// Relies on jobsteal::make_pool: a pool of `n` helper threads besides the
/// caller's, or `None` where a thread could not be spawned. With no helper,
/// no thread is spawned and the pool is always made.
#[verifier::external_body]
fn make_jobsteal_pool(n: usize) -> (r: Option<jobsteal::Pool>)
    requires
        n < usize::MAX,
    ensures
        n == 0 ==> r is Some,
{
    jobsteal::make_pool(n).ok()
}

/// Relies on jobsteal::Spawner::scope and Spawner::submit: every job handed
/// to `submit` inside the nested scope has finished when `scope` returns. One
/// job per row index, each storing its result in its own slot.
#[verifier::external_body]
fn jobsteal_rows<F: Fn(u32) -> Vec<u32> + Sync>(
    spawner: &jobsteal::Spawner,
    rows: u32,
    job: &F,
) -> (r: Vec<Vec<u32>>)
    requires
        forall|y: u32| y < rows ==> #[trigger] job.requires((y,)),
    ensures
        r@.len() == rows,
        forall|y: int| 0 <= y < rows ==> job.ensures((y as u32,), #[trigger] r@[y]),
{
    let mut out: Vec<Vec<u32>> = (0..rows).map(|_| Vec::new()).collect();
    spawner.scope(|scope| {
        for (y, slot) in out.iter_mut().enumerate() {
            scope.submit(move || *slot = job(y as u32));
        }
    });
    out
}

/// Row-chunked strategy on a scoped_threadpool pool of `num_threads` workers:
/// one job per scanline, all joined before the buffer is filled.
pub fn scoped_thread_pool_<F: Fn(u32, u32) -> u32 + Sync>(
    mandel_config: &MandelConfig,
    pixel: &F,
    image: &mut Vec<u32>,
)
    requires
        mandel_config.wf(),
        total(pixel),
        old(image)@.len() == mandel_config.area(),
    ensures
        rendered(pixel, mandel_config.img_size as nat, final(image)@),
{
    let size = mandel_config.img_size;
    let job = |y: u32| -> (r: Vec<u32>)
        requires
            total(pixel),
        ensures
            row_rendered(pixel, size as nat, y as int, r@),
        { compute_row(pixel, size, y) };
    let rows = threadpool_rows(mandel_config.num_threads, size, &job);
    fill_from_rows(pixel, size, &rows, image);
}

/// Row-chunked strategy on a simple_parallel pool of `num_threads` workers:
/// the pool hands out one scanline at a time to whichever worker asks next.
pub fn simple_parallel_<F: Fn(u32, u32) -> u32 + Sync>(
    mandel_config: &MandelConfig,
    pixel: &F,
    image: &mut Vec<u32>,
)
    requires
        mandel_config.wf(),
        total(pixel),
        old(image)@.len() == mandel_config.area(),
    ensures
        rendered(pixel, mandel_config.img_size as nat, final(image)@),
{
    let size = mandel_config.img_size;
    let job = |y: u32| -> (r: Vec<u32>)
        requires
            total(pixel),
        ensures
            row_rendered(pixel, size as nat, y as int, r@),
        { compute_row(pixel, size, y) };
    let rows = simple_parallel_rows(mandel_config.num_threads as usize, size, &job);
    fill_from_rows(pixel, size, &rows, image);
}

/// Row-chunked strategy on a scoped_pool pool of `num_threads` workers: one
/// job per scanline, all joined before the buffer is filled.
pub fn rust_scoped_pool<F: Fn(u32, u32) -> u32 + Sync>(
    mandel_config: &MandelConfig,
    pixel: &F,
    image: &mut Vec<u32>,
)
    requires
        mandel_config.wf(),
        total(pixel),
        old(image)@.len() == mandel_config.area(),
    ensures
        rendered(pixel, mandel_config.img_size as nat, final(image)@),
{
    let size = mandel_config.img_size;
    let job = |y: u32| -> (r: Vec<u32>)
        requires
            total(pixel),
        ensures
            row_rendered(pixel, size as nat, y as int, r@),
        { compute_row(pixel, size, y) };
    let rows = scoped_pool_rows(mandel_config.num_threads as usize, size, &job);
    fill_from_rows(pixel, size, &rows, image);
}

/// Row-chunked strategy on a work-stealing jobsteal pool: the caller's thread
/// and `num_threads - 1` helpers share one job per scanline.
pub fn job_steal<F: Fn(u32, u32) -> u32 + Sync>(
    mandel_config: &MandelConfig,
    pixel: &F,
    image: &mut Vec<u32>,
) -> (r: Result<(), StrategyError>)
    requires
        mandel_config.wf(),
        total(pixel),
        old(image)@.len() == mandel_config.area(),
    ensures
        r is Ok ==> rendered(pixel, mandel_config.img_size as nat, final(image)@),
        r is Err ==> final(image)@ == old(image)@,
        mandel_config.num_threads == 1 ==> r is Ok,
{
    let mut pool = match make_jobsteal_pool((mandel_config.num_threads - 1) as usize) {
        Some(p) => p,
        None => return Err(StrategyError::PoolCreation),
    };
    let size = mandel_config.img_size;
    let job = |y: u32| -> (r: Vec<u32>)
        requires
            total(pixel),
        ensures
            row_rendered(pixel, size as nat, y as int, r@),
        { compute_row(pixel, size, y) };
    let op = |spawner: &jobsteal::Spawner| -> (r: Vec<Vec<u32>>)
        requires
            total(pixel),
        ensures
            r@.len() == size,
            forall|y: int| 0 <= y < size ==> row_rendered(pixel, size as nat, y, #[trigger] r@[y]@),
        { jobsteal_rows(spawner, size, &job) };
    let rows = jobsteal_scope(&mut pool, op);
    fill_from_rows(pixel, size, &rows, image);
    Ok(())
}

/// Relies on jobsteal::Spawner::join: runs both operations, possibly on
/// different threads, each with a spawner for its own nested jobs, and
/// returns both results once both have finished.
#[verifier::external_body]
fn jobsteal_join<'pool, 'scope, RA: Send, RB: Send, A, B>(
    spawner: &jobsteal::Spawner<'pool, 'scope>,
    oper_a: A,
    oper_b: B,
) -> (r: (RA, RB)) where
    A: Send + for <'new>FnOnce(&jobsteal::Spawner<'pool, 'new>) -> RA,
    B: Send + for <'new>FnOnce(&jobsteal::Spawner<'pool, 'new>) -> RB,

    requires
        forall|sp: &jobsteal::Spawner<'pool, 'scope>| #[trigger] oper_a.requires((sp,)),
        forall|sp: &jobsteal::Spawner<'pool, 'scope>| #[trigger] oper_b.requires((sp,)),
    ensures
        exists|sp: &jobsteal::Spawner<'pool, 'scope>| #[trigger] oper_a.ensures((sp,), r.0),
        exists|sp: &jobsteal::Spawner<'pool, 'scope>| #[trigger] oper_b.ensures((sp,), r.1),
{
    spawner.join(oper_a, oper_b)
}

/// Fills `region`, which holds `region.len() / size` whole scanlines starting
/// at row `y`, by bisecting it at a scanline boundary and handing both halves
/// to a work-stealing join until one scanline is left.
fn job_steal_helper<F: Fn(u32, u32) -> u32 + Sync>(
    spawner: &jobsteal::Spawner,
    pixel: &F,
    size: u32,
    region: Vec<u32>,
    y: u32,
) -> (r: Vec<u32>)
    requires
        total(pixel),
        size > 0,
        region@.len() >= size,
        region@.len() % (size as nat) == 0,
        y as nat + region@.len() / (size as nat) <= u32::MAX,
    ensures
        r@.len() == region@.len(),
        rows_rendered(pixel, size as nat, y as int, r@),
    decreases region@.len(),
{
    let rows: usize = region.len() / (size as usize);
    proof {
        vstd::arithmetic::div_mod::lemma_fundamental_div_mod(region@.len() as int, size as int);
        assert(rows >= 1) by (nonlinear_arith)
            requires
                region@.len() == size * rows,
                region@.len() >= size,
                size > 0,
        ;
    }
    if rows == 1 {
        let row = compute_row(pixel, size, y);
        proof {
            assert(region@.len() == size) by (nonlinear_arith)
                requires
                    region@.len() == size * rows,
                    rows == 1,
            ;
            lemma_row_is_run(pixel, size as nat, y as int, row@);
        }
        row
    } else {
        let (top, bottom, half) = split_rows(size, region);
        let y2: u32 = y + half as u32;
        let ghost top_len = top@.len();
        let ghost bottom_len = bottom@.len();
        let top_op = move |inner: &jobsteal::Spawner| -> (r: Vec<u32>)
            requires
                total(pixel),
                top@.len() == top_len,
            ensures
                r@.len() == top_len,
                rows_rendered(pixel, size as nat, y as int, r@),
            { job_steal_helper(inner, pixel, size, top, y) };
        let bottom_op = move |inner: &jobsteal::Spawner| -> (r: Vec<u32>)
            requires
                total(pixel),
                bottom@.len() == bottom_len,
            ensures
                r@.len() == bottom_len,
                rows_rendered(pixel, size as nat, y2 as int, r@),
            { job_steal_helper(inner, pixel, size, bottom, y2) };
        let (mut a, mut b) = jobsteal_join(spawner, top_op, bottom_op);
        proof {
            lemma_rows_concat(pixel, size as nat, y as int, half as nat, a@, b@);
        }
        a.append(&mut b);
        a
    }
}

/// Relies on jobsteal::Pool::scope: runs `op` with a spawner of the pool and
/// returns its result once every job spawned within has finished.
#[verifier::external_body]
fn jobsteal_scope<'pool, 'new, R: 'new, OP: 'new + FnOnce(&jobsteal::Spawner<'pool, 'new>) -> R>(
    pool: &'pool mut jobsteal::Pool,
    op: OP,
) -> (r: R)
    requires
        forall|sp: &jobsteal::Spawner<'pool, 'new>| #[trigger] op.requires((sp,)),
    ensures
        exists|sp: &jobsteal::Spawner<'pool, 'new>| #[trigger] op.ensures((sp,), r),
{
    pool.scope(op)
}

/// Recursive divide-and-conquer on a work-stealing jobsteal pool of the
/// caller's thread and `num_threads - 1` helpers.
pub fn job_steal_join<F: Fn(u32, u32) -> u32 + Sync>(
    mandel_config: &MandelConfig,
    pixel: &F,
    image: &mut Vec<u32>,
) -> (r: Result<(), StrategyError>)
    requires
        mandel_config.wf(),
        total(pixel),
        old(image)@.len() == mandel_config.area(),
    ensures
        r is Ok ==> rendered(pixel, mandel_config.img_size as nat, final(image)@),
        r is Err ==> final(image)@ == old(image)@,
        mandel_config.num_threads == 1 ==> r is Ok,
{
    let mut pool = match make_jobsteal_pool((mandel_config.num_threads - 1) as usize) {
        Some(p) => p,
        None => return Err(StrategyError::PoolCreation),
    };
    let size = mandel_config.img_size;
    let mut region: Vec<u32> = Vec::new();
    std::mem::swap(&mut region, image);
    let ghost n = region@.len();
    proof {
        whole_raster_is_run(size as nat, n);
    }
    let op = move |spawner: &jobsteal::Spawner| -> (r: Vec<u32>)
        requires
            total(pixel),
            size > 0,
            region@.len() == n,
            n >= size,
            n % (size as nat) == 0,
            n / (size as nat) == size,
        ensures
            r@.len() == n,
            rows_rendered(pixel, size as nat, 0, r@),
        { job_steal_helper(spawner, pixel, size, region, 0) };
    let filled = jobsteal_scope(&mut pool, op);
    proof {
        lemma_run_is_raster(pixel, size as nat, filled@);
    }
    *image = filled;
    Ok(())
}

} // verus!
