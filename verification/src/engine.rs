//! The plot engine: partitions image rows over a pool of workers by
//! round-robin assignment, aggregates the row batches the workers send
//! back — in whatever order they arrive — into a dense plot buffer
//! indexed `[x][y]`, and summarizes a finished plot into a histogram.
//!
//! The engine never evaluates a point itself: workers hand it finished
//! row batches of `(x, y, metric)` triples, so it works for any metric
//! type and any evaluator.  A plot is released only once every row has
//! arrived; a run that loses a row ends in an error, never in a
//! partially filled buffer.

use vstd::prelude::*;
use vstd::arithmetic::div_mod::{
    lemma_fundamental_div_mod, lemma_mod_bound, lemma_mod_multiples_vanish, lemma_small_mod,
};

use crate::render::MAX_DIM;

verus! {

/// Why a plot could not be built.
#[derive(Clone, Copy, Debug, PartialEq, Eq, Structural)]
pub enum PlotError {
    /// A dimension is zero or above [`MAX_DIM`].
    BadDimensions,
    /// A batch is not one full row: wrong length or wrong coordinates.
    MalformedBatch,
    /// A batch carries a row that was already received.
    DuplicateRow,
    /// Some row never arrived.
    Incomplete,
}

/// Both image dimensions are at least one and at most [`MAX_DIM`].
pub open spec fn dims_ok(width: u32, height: u32) -> bool {
    1 <= width <= MAX_DIM && 1 <= height <= MAX_DIM
}

/// The row index a batch speaks of.
pub open spec fn batch_row<T>(batch: Seq<(u32, u32, T)>) -> int {
    batch[0].1 as int
}

/// The metric values of a batch, in column order.
pub open spec fn batch_values<T>(batch: Seq<(u32, u32, T)>) -> Seq<T> {
    batch.map_values(|t: (u32, u32, T)| t.2)
}

/// A batch is one full row of a `width` x `height` plot: one triple per
/// column, in column order, all naming the same in-range row.
pub open spec fn batch_shape_ok<T>(width: int, height: int, batch: Seq<(u32, u32, T)>) -> bool {
    &&& batch.len() == width
    &&& batch.len() >= 1
    &&& 0 <= batch_row(batch) < height
    &&& forall|i: int|
        0 <= i < batch.len() ==> (#[trigger] batch[i]).0 == i && batch[i].1 == batch[0].1
}

/// The row a worker is assigned under round-robin partition: worker `t`
/// of `n` owns the rows congruent to `t` modulo `n`.
pub open spec fn assigned_to(y: int, worker: int, worker_count: int) -> bool {
    y % worker_count == worker
}

/// A row map covers an image when every row below `height` is present.
pub open spec fn covers<T>(m: Map<int, Seq<T>>, height: int) -> bool {
    forall|y: int| 0 <= y < height ==> m.contains_key(y)
}

/// The outcome of aggregating a sequence of batches, row map by row map:
/// the map from row index to that row's metric values, or the error the
/// first bad batch raises.
pub open spec fn run_batches<T>(
    acc: Map<int, Seq<T>>,
    width: int,
    height: int,
    batches: Seq<Seq<(u32, u32, T)>>,
) -> Result<Map<int, Seq<T>>, PlotError>
    decreases batches.len(),
{
    if batches.len() == 0 {
        Ok(acc)
    } else {
        let b = batches.first();
        if !batch_shape_ok(width, height, b) {
            Err(PlotError::MalformedBatch)
        } else if acc.contains_key(batch_row(b)) {
            Err(PlotError::DuplicateRow)
        } else {
            run_batches(acc.insert(batch_row(b), batch_values(b)), width, height, batches.drop_first())
        }
    }
}

/// Aggregates row batches into a dense plot buffer.  The buffer is
/// handed out only when every row of the image has arrived exactly once.
pub struct PlotEngine<T> {
    width: u32,
    height: u32,
    rows_store: Vec<Vec<T>>,
    received: Vec<bool>,
}

impl<T: Copy> PlotEngine<T> {
    /// The image width the engine was created for.
    pub closed spec fn width_spec(&self) -> int {
        self.width as int
    }

    /// The image height the engine was created for.
    pub closed spec fn height_spec(&self) -> int {
        self.height as int
    }

    /// Internal consistency: dimensions in range, one slot and one
    /// received mark per row, and every received row holds one metric
    /// per column.
    pub closed spec fn wf(&self) -> bool {
        &&& dims_ok(self.width, self.height)
        &&& self.rows_store@.len() == self.height
        &&& self.received@.len() == self.height
        &&& forall|y: int|
            0 <= y < self.height && self.received@[y] ==> (#[trigger] self.rows_store@[y])@.len()
                == self.width
    }

    /// Whether row `y` has been received.
    pub closed spec fn row_received(&self, y: int) -> bool {
        0 <= y < self.height as int && self.received@[y]
    }

    /// The rows aggregated so far: row index to metric values, one per
    /// column.
    pub closed spec fn rows(&self) -> Map<int, Seq<T>> {
        Map::new(|y: int| self.row_received(y), |y: int| self.rows_store@[y]@)
    }

    /// Every row of the image has been received.
    pub open spec fn complete(&self) -> bool {
        forall|y: int| 0 <= y < self.height_spec() ==> self.row_received(y)
    }

    /// Creates an engine for a `width` x `height` plot with no row
    /// received yet; rejects out-of-range dimensions.
    pub fn new(width: u32, height: u32) -> (r: Result<PlotEngine<T>, PlotError>)
        ensures
            match r {
                Ok(e) => dims_ok(width, height) && e.wf() && e.width_spec() == width
                    && e.height_spec() == height && e.rows() == Map::<int, Seq<T>>::empty(),
                Err(err) => err == PlotError::BadDimensions && !dims_ok(width, height),
            },
    {
        if width < 1 || width > MAX_DIM || height < 1 || height > MAX_DIM {
            return Err(PlotError::BadDimensions);
        }
        let mut rows_store: Vec<Vec<T>> = Vec::new();
        let mut received: Vec<bool> = Vec::new();
        let mut y: u32 = 0;
        while y < height
            invariant
                y <= height,
                rows_store@.len() == y,
                received@.len() == y,
                forall|j: int| 0 <= j < y ==> !(#[trigger] received@[j]),
            decreases height - y,
        {
            rows_store.push(Vec::new());
            received.push(false);
            y = y + 1;
        }
        let e = PlotEngine { width, height, rows_store, received };
        proof {
            assert(e.rows() =~= Map::<int, Seq<T>>::empty());
        }
        Ok(e)
    }

    /// Takes one row batch in.  A malformed batch and a repeated row are
    /// rejected and leave the engine unchanged; a good batch records its
    /// row.
    #[verifier::loop_isolation(false)]
    pub fn accept_batch(&mut self, batch: &Vec<(u32, u32, T)>) -> (r: Result<(), PlotError>)
        requires
            old(self).wf(),
        ensures
            final(self).wf(),
            final(self).width_spec() == old(self).width_spec(),
            final(self).height_spec() == old(self).height_spec(),
            r == (if !batch_shape_ok(old(self).width_spec(), old(self).height_spec(), batch@) {
                Result::<(), PlotError>::Err(PlotError::MalformedBatch)
            } else if old(self).rows().contains_key(batch_row(batch@)) {
                Result::<(), PlotError>::Err(PlotError::DuplicateRow)
            } else {
                Result::<(), PlotError>::Ok(())
            }),
            r is Ok ==> final(self).rows() == old(self).rows().insert(
                batch_row(batch@),
                batch_values(batch@),
            ),
            r is Err ==> *final(self) == *old(self),
    {
        if batch.len() != self.width as usize {
            return Err(PlotError::MalformedBatch);
        }
        let y0: u32 = batch[0].1;
        if y0 >= self.height {
            return Err(PlotError::MalformedBatch);
        }
        let mut i: usize = 0;
        while i < batch.len()
            invariant
                i <= batch@.len(),
                forall|j: int|
                    0 <= j < i ==> (#[trigger] batch@[j]).0 == j && batch@[j].1 == batch@[0].1,
            decreases batch@.len() - i,
        {
            let t = batch[i];
            if t.0 != i as u32 || t.1 != y0 {
                return Err(PlotError::MalformedBatch);
            }
            i = i + 1;
        }
        if self.received[y0 as usize] {
            return Err(PlotError::DuplicateRow);
        }
        let mut vals: Vec<T> = Vec::new();
        let mut k: usize = 0;
        while k < batch.len()
            invariant
                k <= batch@.len(),
                vals@.len() == k,
                forall|j: int| 0 <= j < k ==> vals@[j] == (#[trigger] batch@[j]).2,
            decreases batch@.len() - k,
        {
            vals.push(batch[k].2);
            k = k + 1;
        }
        proof {
            assert(vals@ =~= batch_values(batch@));
        }
        self.rows_store[y0 as usize] = vals;
        self.received[y0 as usize] = true;
        proof {
            assert(self.rows() =~= old(self).rows().insert(batch_row(batch@), batch_values(batch@)));
        }
        Ok(())
    }

    /// Whether every row of the image has arrived.
    #[verifier::loop_isolation(false)]
    pub fn is_complete(&self) -> (r: bool)
        requires
            self.wf(),
        ensures
            r == self.complete(),
    {
        let mut y: u32 = 0;
        while y < self.height
            invariant
                self.wf(),
                y <= self.height,
                forall|j: int| 0 <= j < y ==> self.row_received(j),
            decreases self.height - y,
        {
            if !self.received[y as usize] {
                proof {
                    assert(!self.row_received(y as int));
                }
                return false;
            }
            y = y + 1;
        }
        true
    }

    /// Releases the finished plot buffer, indexed `[x][y]`, with each
    /// cell holding exactly the metric its row batch carried for that
    /// column.  While any row is missing the call fails instead of
    /// handing out a partial buffer.
    pub fn into_plot(self) -> (r: Result<Vec<Vec<T>>, PlotError>)
        requires
            self.wf(),
        ensures
            r is Ok <==> self.complete(),
            r is Err ==> r == Result::<Vec<Vec<T>>, PlotError>::Err(PlotError::Incomplete),
            match r {
                Ok(p) => p@.len() == self.width_spec() && (forall|x: int|
                    0 <= x < self.width_spec() ==> (#[trigger] p@[x])@.len()
                        == self.height_spec()) && (forall|x: int, y: int|
                    #![trigger p@[x]@[y]]
                    0 <= x < self.width_spec() && 0 <= y < self.height_spec() ==> p@[x]@[y]
                        == self.rows()[y][x]),
                Err(_) => true,
            },
    {
        if !self.is_complete() {
            return Err(PlotError::Incomplete);
        }
        let mut plot: Vec<Vec<T>> = Vec::new();
        let mut x: u32 = 0;
        while x < self.width
            invariant
                self.wf(),
                self.complete(),
                x <= self.width,
                plot@.len() == x,
                forall|i: int|
                    0 <= i < x ==> (#[trigger] plot@[i])@.len() == self.height_spec(),
                forall|i: int, y: int|
                    #![trigger plot@[i]@[y]]
                    0 <= i < x && 0 <= y < self.height_spec() ==> plot@[i]@[y] == self.rows()[y][i],
            decreases self.width - x,
        {
            let mut col: Vec<T> = Vec::new();
            let mut y: u32 = 0;
            while y < self.height
                invariant
                    self.wf(),
                    self.complete(),
                    x < self.width,
                    y <= self.height,
                    col@.len() == y,
                    forall|j: int| 0 <= j < y ==> #[trigger] col@[j] == self.rows()[j][x as int],
                decreases self.height - y,
            {
                proof {
                    assert(self.row_received(y as int));
                    assert(self.rows_store@[y as int]@.len() == self.width);
                }
                let row = &self.rows_store[y as usize];
                col.push(row[x as usize]);
                y = y + 1;
            }
            plot.push(col);
            x = x + 1;
        }
        Ok(plot)
    }
}

/// The rows worker `worker` of `worker_count` owns, in increasing order:
/// `worker`, `worker + worker_count`, and so on, up to `height`.
pub fn worker_rows(worker: u32, worker_count: u32, height: u32) -> (rows: Vec<u32>)
    requires
        1 <= worker_count,
        worker < worker_count,
    ensures
        forall|i: int|
            0 <= i < rows@.len() ==> #[trigger] rows@[i] == worker + i * worker_count
                && rows@[i] < height && assigned_to(rows@[i] as int, worker as int, worker_count as int),
        forall|y: u32|
            y < height && assigned_to(y as int, worker as int, worker_count as int)
                ==> rows@.contains(y),
{
    let mut rows: Vec<u32> = Vec::new();
    proof {
        assert(rows@.len() == 0);
    }
    let mut y: u64 = worker as u64;
    while y < height as u64
        invariant
            worker < worker_count,
            y == worker + rows@.len() * worker_count,
            forall|i: int|
                0 <= i < rows@.len() ==> #[trigger] rows@[i] == worker + i * worker_count
                    && rows@[i] < height,
        decreases height as int + worker_count as int - y,
    {
        proof {
            assert((rows@.len() + 1) * worker_count == rows@.len() * worker_count + worker_count)
                by (nonlinear_arith)
            ;
        }
        rows.push(y as u32);
        y = y + worker_count as u64;
    }
    proof {
        let t = worker as int;
        let n = worker_count as int;
        let len = rows@.len() as int;
        assert forall|i: int| 0 <= i < len implies assigned_to(
            rows@[i] as int,
            t,
            n,
        ) by {
            lemma_mod_multiples_vanish(i, t, n);
            lemma_small_mod(t as nat, n as nat);
            assert(rows@[i] as int == n * i + t) by (nonlinear_arith)
                requires
                    rows@[i] as int == t + i * n,
            ;
            assert((n * i + t) % n == t % n);
        }
        assert forall|yy: u32|
            yy < height && assigned_to(yy as int, t, n) implies rows@.contains(yy) by {
            let k = yy as int / n;
            lemma_fundamental_div_mod(yy as int, n);
            assert(yy as int == t + k * n);
            assert(k >= 0) by (nonlinear_arith)
                requires
                    yy as int >= 0,
                    n >= 1,
                    yy as int == t + k * n,
                    0 <= t < n,
            ;
            assert(k < len) by (nonlinear_arith)
                requires
                    t + k * n < height as int,
                    height as int <= t + len * n,
                    n >= 1,
            ;
            assert(rows@[k] == yy);
            assert(rows@.contains(yy));
        }
    }
    rows
}

/// Round-robin partition correctness: every row of the image belongs to
/// exactly one worker — the one whose index is the row modulo the worker
/// count — for any worker count and image height.
pub proof fn lemma_partition_covers(worker_count: int, height: int, y: int)
    requires
        1 <= worker_count,
        0 <= y < height,
    ensures
        0 <= y % worker_count < worker_count,
        assigned_to(y, y % worker_count, worker_count),
        forall|t: int|
            0 <= t < worker_count && t != y % worker_count ==> !assigned_to(y, t, worker_count),
{
    lemma_mod_bound(y, worker_count);
}

/// Coverage: once a run is complete, every grid cell has been written —
/// each row of the image is present in the aggregated map, with exactly
/// one metric per column.
pub proof fn lemma_coverage<T: Copy>(e: &PlotEngine<T>)
    requires
        e.wf(),
        e.complete(),
    ensures
        forall|y: int|
            0 <= y < e.height_spec() ==> e.rows().contains_key(y) && (#[trigger] e.rows()[y]).len()
                == e.width_spec(),
{
    assert forall|y: int|
        0 <= y < e.height_spec() implies e.rows().contains_key(y) && (#[trigger] e.rows()[y]).len()
        == e.width_spec() by {
        assert(e.row_received(y));
        assert(e.rows()[y] == e.rows_store@[y]@);
    }
}

/// Determinism: the finished plot is a function of the aggregated row
/// map alone.  Two buffers built from the same rows — in whatever order
/// the batches arrived, under whatever worker count — are identical.
pub proof fn lemma_plot_deterministic<T>(
    rows: Map<int, Seq<T>>,
    p1: Seq<Seq<T>>,
    p2: Seq<Seq<T>>,
    width: int,
    height: int,
)
    requires
        p1.len() == width,
        p2.len() == width,
        forall|x: int| 0 <= x < width ==> (#[trigger] p1[x]).len() == height,
        forall|x: int| 0 <= x < width ==> (#[trigger] p2[x]).len() == height,
        forall|x: int, y: int|
            #![trigger p1[x][y]]
            0 <= x < width && 0 <= y < height ==> p1[x][y] == rows[y][x],
        forall|x: int, y: int|
            #![trigger p2[x][y]]
            0 <= x < width && 0 <= y < height ==> p2[x][y] == rows[y][x],
    ensures
        p1 == p2,
{
    assert forall|x: int| 0 <= x < width implies p1[x] =~= p2[x] by {
        assert(forall|y: int| 0 <= y < height ==> p1[x][y] == rows[y][x] && p2[x][y] == rows[y][x]);
    }
    assert(p1 =~~= p2);
}

/// Aggregates a whole run's batches in one call: feeds each batch to a
/// fresh engine and releases the buffer, so the result is exactly what
/// [`run_batches`] says of the input.
#[verifier::loop_isolation(false)]
#[verifier::rlimit(60)]
pub fn assemble_plot<T: Copy>(width: u32, height: u32, batches: &Vec<Vec<(u32, u32, T)>>) -> (r:
    Result<Vec<Vec<T>>, PlotError>)
    ensures
        !dims_ok(width, height) ==> r == Result::<Vec<Vec<T>>, PlotError>::Err(
            PlotError::BadDimensions,
        ),
        dims_ok(width, height) ==> match run_batches(
            Map::<int, Seq<T>>::empty(),
            width as int,
            height as int,
            batches@.map_values(|b: Vec<(u32, u32, T)>| b@),
        ) {
            Ok(m) => {
                if covers(m, height as int) {
                    match r {
                        Ok(p) => p@.len() == width && (forall|x: int|
                            0 <= x < width ==> (#[trigger] p@[x])@.len() == height) && (forall|
                            x: int,
                            y: int,
                        |
                            #![trigger p@[x]@[y]]
                            0 <= x < width && 0 <= y < height ==> p@[x]@[y] == m[y][x]),
                        Err(_) => false,
                    }
                } else {
                    r == Result::<Vec<Vec<T>>, PlotError>::Err(PlotError::Incomplete)
                }
            },
            Err(e) => r == Result::<Vec<Vec<T>>, PlotError>::Err(e),
        },
{
    let ghost bs = batches@.map_values(|b: Vec<(u32, u32, T)>| b@);
    let mut engine: PlotEngine<T> = match PlotEngine::<T>::new(width, height) {
        Ok(e) => e,
        Err(err) => {
            return Err(err);
        },
    };
    proof {
        assert(bs.skip(0) =~= bs);
    }
    let mut i: usize = 0;
    while i < batches.len()
        invariant
            i <= batches@.len(),
            bs == batches@.map_values(|b: Vec<(u32, u32, T)>| b@),
            engine.wf(),
            engine.width_spec() == width,
            engine.height_spec() == height,
            run_batches(Map::<int, Seq<T>>::empty(), width as int, height as int, bs)
                == run_batches(engine.rows(), width as int, height as int, bs.skip(i as int)),
        decreases batches@.len() - i,
    {
        proof {
            assert(bs.skip(i as int).len() > 0);
            assert(bs.skip(i as int).first() == batches@[i as int]@);
            assert(bs.skip(i as int).drop_first() =~= bs.skip(i as int + 1));
        }
        match engine.accept_batch(&batches[i]) {
            Ok(()) => {},
            Err(err) => {
                return Err(err);
            },
        }
        i = i + 1;
    }
    proof {
        assert(bs.skip(i as int) =~= Seq::<Seq<(u32, u32, T)>>::empty());
        assert forall|y: int| #[trigger] engine.rows().contains_key(y) implies engine.row_received(
            y,
        ) by {}
        assert forall|y: int|
            0 <= y < height as int && engine.row_received(y) implies engine.rows().contains_key(
            y,
        ) by {}
        assert(run_batches(Map::<int, Seq<T>>::empty(), width as int, height as int, bs) == Result::<Map<int, Seq<T>>, PlotError>::Ok(engine.rows()));
        if engine.complete() {
            assert(covers(engine.rows(), height as int));
        } else {
            let yy = choose|y: int| 0 <= y < height as int && !engine.row_received(y);
            assert(!engine.rows().contains_key(yy));
            assert(!covers(engine.rows(), height as int));
        }
    }
    match engine.into_plot() {
        Ok(p) => Ok(p),
        Err(err) => Err(err),
    }
}

/// A grid of iteration counts as a sequence of columns.
pub open spec fn grid_view(plot: Seq<Vec<u32>>) -> Seq<Seq<u32>> {
    plot.map_values(|c: Vec<u32>| c@)
}

/// The height of a grid: the length of its first column.
pub open spec fn grid_height(grid: Seq<Seq<u32>>) -> int {
    if grid.len() == 0 {
        0
    } else {
        grid[0].len() as int
    }
}

/// A grid is rectangular: all columns have the same length.
pub open spec fn grid_rect(grid: Seq<Seq<u32>>) -> bool {
    forall|x: int| 0 <= x < grid.len() ==> (#[trigger] grid[x]).len() == grid_height(grid)
}

/// Every cell of the grid is at most `bound`.
pub open spec fn grid_values_le(grid: Seq<Seq<u32>>, bound: u32) -> bool {
    forall|x: int, y: int|
        #![trigger grid[x][y]]
        0 <= x < grid.len() && 0 <= y < grid[x].len() ==> grid[x][y] <= bound
}

/// How many cells of a column hold the value `v`.
pub open spec fn count_col(col: Seq<u32>, v: u32) -> nat
    decreases col.len(),
{
    if col.len() == 0 {
        0
    } else {
        count_col(col.drop_last(), v) + if col.last() == v {
            1nat
        } else {
            0nat
        }
    }
}

/// How many cells of a whole grid hold the value `v`.
pub open spec fn count_grid(grid: Seq<Seq<u32>>, v: u32) -> nat
    decreases grid.len(),
{
    if grid.len() == 0 {
        0
    } else {
        count_grid(grid.drop_last(), v) + count_col(grid.last(), v)
    }
}

proof fn lemma_count_col_le(col: Seq<u32>, v: u32)
    ensures
        count_col(col, v) <= col.len(),
    decreases col.len(),
{
    if col.len() > 0 {
        lemma_count_col_le(col.drop_last(), v);
    }
}

proof fn lemma_count_grid_le(grid: Seq<Seq<u32>>, v: u32, height: int)
    requires
        0 <= height,
        forall|x: int| 0 <= x < grid.len() ==> (#[trigger] grid[x]).len() <= height,
    ensures
        count_grid(grid, v) <= grid.len() * height,
    decreases grid.len(),
{
    if grid.len() > 0 {
        lemma_count_grid_le(grid.drop_last(), v, height);
        lemma_count_col_le(grid.last(), v);
        assert((grid.len() - 1) * height + height == grid.len() * height) by (nonlinear_arith);
    }
}

/// Builds the histogram of a plot of iteration counts: entry `v` says
/// how many grid cells hold exactly the value `v`.
#[verifier::loop_isolation(false)]
pub fn calc_hist(plot: &Vec<Vec<u32>>, max_iters: u32) -> (hist: Vec<u32>)
    requires
        max_iters < 0xffff_ffff,
        grid_rect(grid_view(plot@)),
        grid_values_le(grid_view(plot@), max_iters),
        plot@.len() * grid_height(grid_view(plot@)) <= 0xffff_ffff,
    ensures
        hist@.len() == max_iters + 1,
        forall|v: u32| v <= max_iters ==> hist@[v as int] == count_grid(grid_view(plot@), v),
{
    let ghost g = grid_view(plot@);
    let ghost h = grid_height(g);
    let mut hist: Vec<u32> = Vec::new();
    let mut k: u32 = 0;
    while k < max_iters + 1
        invariant
            k <= max_iters + 1,
            hist@.len() == k,
            forall|j: int| 0 <= j < k ==> hist@[j] == 0,
        decreases max_iters + 1 - k,
    {
        hist.push(0);
        k = k + 1;
    }
    let mut x: usize = 0;
    while x < plot.len()
        invariant
            x <= plot@.len(),
            hist@.len() == max_iters + 1,
            forall|v: u32| v <= max_iters ==> hist@[v as int] == count_grid(g.take(x as int), v),
        decreases plot@.len() - x,
    {
        let col: &Vec<u32> = &plot[x];
        let mut y: usize = 0;
        while y < col.len()
            invariant
                x < plot@.len(),
                y <= col@.len(),
                col@ == g[x as int],
                hist@.len() == max_iters + 1,
                forall|v: u32|
                    v <= max_iters ==> hist@[v as int] == count_grid(g.take(x as int), v)
                        + count_col(col@.take(y as int), v),
            decreases col@.len() - y,
        {
            let v: u32 = col[y];
            proof {
                assert(g[x as int][y as int] <= max_iters);
                lemma_count_grid_le(g.take(x as int), v, h);
                lemma_count_col_le(col@.take(y as int), v);
                assert(x as int * h + h <= g.len() * h) by (nonlinear_arith)
                    requires
                        (x as int) < g.len(),
                        0 <= x as int,
                        0 <= h,
                ;
            }
            let c: u32 = hist[v as usize];
            hist[v as usize] = c + 1;
            proof {
                assert(col@.take(y as int + 1).drop_last() =~= col@.take(y as int));
                assert(col@.take(y as int + 1).last() == col@[y as int]);
            }
            y = y + 1;
        }
        proof {
            assert(col@.take(col@.len() as int) =~= col@);
            assert(g.take(x as int + 1).drop_last() =~= g.take(x as int));
            assert(g.take(x as int + 1).last() == g[x as int]);
        }
        x = x + 1;
    }
    proof {
        assert(g.take(g.len() as int) =~= g);
    }
    hist
}

/// Some batch of the sequence carries row `y`.
pub open spec fn batches_have_row<T>(s: Seq<Seq<(u32, u32, T)>>, y: int) -> bool {
    exists|i: int| 0 <= i < s.len() && batch_row(#[trigger] s[i]) == y
}

proof fn lemma_run_batches_ok<T>(
    acc: Map<int, Seq<T>>,
    width: int,
    height: int,
    s: Seq<Seq<(u32, u32, T)>>,
    m: Map<int, Seq<T>>,
)
    requires
        run_batches(acc, width, height, s) == Result::<Map<int, Seq<T>>, PlotError>::Ok(m),
    ensures
        forall|y: int|
            #[trigger] m.contains_key(y) <==> (acc.contains_key(y) || batches_have_row(s, y)),
        forall|y: int| #[trigger] acc.contains_key(y) ==> m[y] == acc[y],
        forall|i: int|
            0 <= i < s.len() ==> m[batch_row(#[trigger] s[i])] == batch_values(s[i]),
    decreases s.len(),
{
    if s.len() == 0 {
        assert(m == acc);
        assert(forall|y: int| !batches_have_row(s, y));
    } else {
        let b = s.first();
        let rest = s.drop_first();
        let acc2 = acc.insert(batch_row(b), batch_values(b));
        lemma_run_batches_ok(acc2, width, height, rest, m);
        assert(!acc.contains_key(batch_row(b)));
        assert forall|y: int| #[trigger] acc.contains_key(y) implies m[y] == acc[y] by {
            assert(acc2.contains_key(y));
            assert(acc2[y] == acc[y]);
        }
        assert forall|y: int| #[trigger] m.contains_key(y) implies (acc.contains_key(y)
            || batches_have_row(s, y)) by {
            if !acc.contains_key(y) {
                if acc2.contains_key(y) {
                    assert(batch_row(s[0]) == y);
                } else {
                    let i = choose|i: int| 0 <= i < rest.len() && batch_row(#[trigger] rest[i]) == y;
                    assert(s[i + 1] == rest[i]);
                }
            }
        }
        assert forall|y: int| acc.contains_key(y) || batches_have_row(s, y) implies
            #[trigger] m.contains_key(y) by {
            if acc.contains_key(y) {
                assert(acc2.contains_key(y));
            } else if batches_have_row(s, y) {
                let i = choose|i: int| 0 <= i < s.len() && batch_row(#[trigger] s[i]) == y;
                if i == 0 {
                    assert(acc2.contains_key(y));
                } else {
                    assert(rest[i - 1] == s[i]);
                    assert(batches_have_row(rest, y));
                }
            }
        }
        assert forall|i: int| 0 <= i < s.len() implies m[batch_row(#[trigger] s[i])]
            == batch_values(s[i]) by {
            if i == 0 {
                assert(acc2.contains_key(batch_row(b)));
                assert(m[batch_row(b)] == acc2[batch_row(b)]);
            } else {
                assert(rest[i - 1] == s[i]);
            }
        }
    }
}

/// Determinism across worker interleavings: two successful aggregations
/// of the same batches, in whatever order they arrived, build the same
/// row map.
pub proof fn lemma_run_batches_permutation<T>(
    s1: Seq<Seq<(u32, u32, T)>>,
    s2: Seq<Seq<(u32, u32, T)>>,
    width: int,
    height: int,
    m1: Map<int, Seq<T>>,
    m2: Map<int, Seq<T>>,
)
    requires
        s1.to_multiset() == s2.to_multiset(),
        run_batches(Map::<int, Seq<T>>::empty(), width, height, s1) == Result::<
            Map<int, Seq<T>>,
            PlotError,
        >::Ok(m1),
        run_batches(Map::<int, Seq<T>>::empty(), width, height, s2) == Result::<
            Map<int, Seq<T>>,
            PlotError,
        >::Ok(m2),
    ensures
        m1 == m2,
{
    lemma_run_batches_ok(Map::<int, Seq<T>>::empty(), width, height, s1, m1);
    lemma_run_batches_ok(Map::<int, Seq<T>>::empty(), width, height, s2, m2);
    s1.to_multiset_ensures();
    s2.to_multiset_ensures();
    assert forall|y: int| #[trigger] m1.contains_key(y) implies m2.contains_key(y) && m1[y]
        == m2[y] by {
        let i = choose|i: int| 0 <= i < s1.len() && batch_row(#[trigger] s1[i]) == y;
        let b = s1[i];
        assert(s1.contains(b));
        assert(s2.to_multiset().count(b) > 0);
        assert(s2.contains(b));
        let j = choose|j: int| 0 <= j < s2.len() && s2[j] == b;
        assert(m2[batch_row(s2[j])] == batch_values(s2[j]));
        assert(batches_have_row(s2, y));
    }
    assert forall|y: int| #[trigger] m2.contains_key(y) implies m1.contains_key(y) by {
        let j = choose|j: int| 0 <= j < s2.len() && batch_row(#[trigger] s2[j]) == y;
        let b = s2[j];
        assert(s2.contains(b));
        assert(s1.to_multiset().count(b) > 0);
        assert(s1.contains(b));
        let i = choose|i: int| 0 <= i < s1.len() && s1[i] == b;
        assert(batch_row(s1[i]) == y);
        assert(batches_have_row(s1, y));
    }
    assert(m1 =~= m2);
}

} // verus!
