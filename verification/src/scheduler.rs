use vstd::prelude::*;
use vstd::arithmetic::div_mod::lemma_fundamental_div_mod;

verus! {

// The parallel render scheduler partitions the image rows into one
// contiguous chunk per worker. Each worker renders the rows of its chunk in
// order and the scheduler joins the workers in assignment order, so the
// final pixel buffer is row-ordered no matter which worker finishes first.

/// The number of rows assigned to worker `id` when `total` rows are split
/// across `workers` workers: every worker gets `total / workers` rows and
/// the remainder goes one row each to the first workers.
pub open spec fn chunk_size(total: nat, workers: nat, id: nat) -> nat
    recommends
        1 <= workers,
{
    total / workers + if id < total % workers {
        1nat
    } else {
        0nat
    }
}

/// The row index at which worker `id`'s chunk begins: the sum of the chunk
/// sizes of all earlier workers, so chunks are contiguous and in order.
pub open spec fn chunk_offset(total: nat, workers: nat, id: nat) -> nat
    recommends
        1 <= workers,
    decreases id,
{
    if id == 0 {
        0
    } else {
        chunk_offset(total, workers, (id - 1) as nat) + chunk_size(
            total,
            workers,
            (id - 1) as nat,
        )
    }
}

/// Chunk sizes are balanced: no worker holds more than one row over any
/// other worker.
pub proof fn lemma_chunk_sizes_balanced(total: nat, workers: nat, i: nat, j: nat)
    requires
        1 <= workers,
    ensures
        chunk_size(total, workers, i) <= chunk_size(total, workers, j) + 1,
{
}

proof fn lemma_chunk_offset_closed(total: nat, workers: nat, id: nat)
    requires
        1 <= workers,
    ensures
        chunk_offset(total, workers, id) == id * (total / workers) + if id <= total % workers {
            id
        } else {
            total % workers
        },
    decreases id,
{
    if id == 0 {
        assert(0 * (total / workers) == 0) by (nonlinear_arith);
    } else {
        let prev = (id - 1) as nat;
        let q = total / workers;
        lemma_chunk_offset_closed(total, workers, prev);
        assert(prev * q + q == id * q) by (nonlinear_arith)
            requires
                prev + 1 == id,
        ;
    }
}

/// The chunks tile the whole row range: the offset just past the last
/// worker's chunk is the total row count.
pub proof fn lemma_chunks_cover(total: nat, workers: nat)
    requires
        1 <= workers,
    ensures
        chunk_offset(total, workers, workers) == total,
{
    lemma_chunk_offset_closed(total, workers, workers);
    lemma_fundamental_div_mod(total as int, workers as int);
    assert(workers * (total / workers) == (workers as int) * ((total as int) / (workers as int)))
        by (nonlinear_arith)
        requires
            1 <= workers,
    ;
}

/// Chunk offsets grow with the worker id.
pub proof fn lemma_chunk_offset_monotonic(total: nat, workers: nat, id1: nat, id2: nat)
    requires
        1 <= workers,
        id1 <= id2,
    ensures
        chunk_offset(total, workers, id1) <= chunk_offset(total, workers, id2),
    decreases id2,
{
    if id1 < id2 {
        lemma_chunk_offset_monotonic(total, workers, id1, (id2 - 1) as nat);
    }
}

/// Every chunk lies inside the row range.
pub proof fn lemma_chunk_in_range(total: nat, workers: nat, id: nat)
    requires
        1 <= workers,
        id < workers,
    ensures
        chunk_offset(total, workers, id) + chunk_size(total, workers, id) <= total,
{
    lemma_chunk_offset_monotonic(total, workers, id + 1, workers);
    lemma_chunks_cover(total, workers);
}

/// Compute each worker's `(row offset, row count)` pair, in worker order.
/// Chunks are contiguous, start at row zero and tile all `total` rows.
pub fn assign_chunks(total: usize, workers: usize) -> (chunks: Vec<(usize, usize)>)
    requires
        1 <= workers,
    ensures
        chunks@.len() == workers,
        forall|id: int|
            0 <= id < workers ==> (#[trigger] chunks@[id]).0 == chunk_offset(
                total as nat,
                workers as nat,
                id as nat,
            ) && chunks@[id].1 == chunk_size(total as nat, workers as nat, id as nat),
{
    let per_worker: usize = total / workers;
    let remainder: usize = total % workers;
    let mut chunks: Vec<(usize, usize)> = Vec::new();
    let mut offset: usize = 0;
    for id in 0..workers
        invariant
            1 <= workers,
            per_worker == total / workers,
            remainder == total % workers,
            chunks@.len() == id,
            offset == chunk_offset(total as nat, workers as nat, id as nat),
            forall|k: int|
                0 <= k < id ==> (#[trigger] chunks@[k]).0 == chunk_offset(
                    total as nat,
                    workers as nat,
                    k as nat,
                ) && chunks@[k].1 == chunk_size(total as nat, workers as nat, k as nat),
    {
        proof {
            lemma_chunk_in_range(total as nat, workers as nat, id as nat);
        }
        let size: usize = if id < remainder {
            per_worker + 1
        } else {
            per_worker
        };
        chunks.push((offset, size));
        offset = offset + size;
    }
    chunks
}

/// The order in which rows are enumerated: from the top of the image
/// (index `height - 1`) down to row zero.
pub fn row_order(height: u32) -> (rows: Vec<u32>)
    ensures
        rows@.len() == height as nat,
        forall|i: int| 0 <= i < height ==> #[trigger] rows@[i] == height - 1 - i,
{
    let mut rows: Vec<u32> = Vec::new();
    for i in 0..height
        invariant
            rows@.len() == i,
            forall|k: int| 0 <= k < i ==> #[trigger] rows@[k] == height - 1 - k,
    {
        rows.push(height - 1 - i);
    }
    rows
}

/// One worker's output: every row of its chunk rendered by `render_row` (a
/// function of the row index alone), concatenated in row order.
pub open spec fn worker_output<T>(
    render_row: spec_fn(u32) -> Seq<T>,
    rows: Seq<u32>,
    workers: nat,
    id: nat,
) -> Seq<T> {
    let lo = chunk_offset(rows.len(), workers, id);
    let hi = lo + chunk_size(rows.len(), workers, id);
    rows.subrange(lo as int, hi as int).flat_map(render_row)
}

/// What the scheduler reassembles: the outputs of the first `count` workers
/// joined in assignment order.
pub open spec fn joined_output<T>(
    render_row: spec_fn(u32) -> Seq<T>,
    rows: Seq<u32>,
    workers: nat,
    count: nat,
) -> Seq<T>
    decreases count,
{
    if count == 0 {
        Seq::empty()
    } else {
        joined_output(render_row, rows, workers, (count - 1) as nat) + worker_output(
            render_row,
            rows,
            workers,
            (count - 1) as nat,
        )
    }
}

proof fn lemma_flat_map_concat<A, B>(x: Seq<A>, y: Seq<A>, f: spec_fn(A) -> Seq<B>)
    ensures
        (x + y).flat_map(f) == x.flat_map(f) + y.flat_map(f),
{
    assert((x + y).map_values(f) =~= x.map_values(f) + y.map_values(f));
    vstd::seq_lib::lemma_flatten_concat(x.map_values(f), y.map_values(f));
    assert((x + y).flat_map(f) =~= x.flat_map(f) + y.flat_map(f));
}

proof fn lemma_joined_is_prefix<T>(
    render_row: spec_fn(u32) -> Seq<T>,
    rows: Seq<u32>,
    workers: nat,
    count: nat,
)
    requires
        1 <= workers,
        count <= workers,
    ensures
        joined_output(render_row, rows, workers, count) == rows.take(
            chunk_offset(rows.len(), workers, count) as int,
        ).flat_map(render_row),
    decreases count,
{
    let total = rows.len();
    if count == 0 {
        assert(rows.take(0).map_values(render_row) =~= Seq::<Seq<T>>::empty());
        assert(Seq::<Seq<T>>::empty().flatten() =~= Seq::<T>::empty());
    } else {
        let prev = (count - 1) as nat;
        lemma_joined_is_prefix(render_row, rows, workers, prev);
        let lo = chunk_offset(total, workers, prev);
        let hi = lo + chunk_size(total, workers, prev);
        lemma_chunk_in_range(total, workers, prev);
        assert(rows.take(hi as int) =~= rows.take(lo as int) + rows.subrange(
            lo as int,
            hi as int,
        ));
        lemma_flat_map_concat(
            rows.take(lo as int),
            rows.subrange(lo as int, hi as int),
            render_row,
        );
    }
}

/// When every row renders to the same number of values (three channel
/// values per pixel of the row), the assembled output is the flat
/// row-major buffer of exactly `rows * len` values that the image
/// consumer expects.
pub proof fn lemma_uniform_rows_give_flat_buffer<T>(
    render_row: spec_fn(u32) -> Seq<T>,
    rows: Seq<u32>,
    len: nat,
)
    requires
        forall|r: u32| (#[trigger] render_row(r)).len() == len,
    ensures
        rows.flat_map(render_row).len() == rows.len() * len,
    decreases rows.len(),
{
    if rows.len() == 0 {
        assert(rows.map_values(render_row) =~= Seq::<Seq<T>>::empty());
        assert(Seq::<Seq<T>>::empty().flatten() =~= Seq::<T>::empty());
    } else {
        let prefix = rows.drop_last();
        lemma_uniform_rows_give_flat_buffer(render_row, prefix, len);
        prefix.lemma_flat_map_push(render_row, rows.last());
        assert(prefix.push(rows.last()) =~= rows);
        assert(prefix.len() * len + len == rows.len() * len) by (nonlinear_arith)
            requires
                prefix.len() + 1 == rows.len(),
        ;
    }
}

/// Row-partitioned parallel rendering matches sequential rendering: when
/// every row's output is a function of the row index alone, joining the
/// workers' outputs in assignment order is exactly the output of rendering
/// every row in order on a single worker.
pub proof fn lemma_join_matches_sequential_render<T>(
    render_row: spec_fn(u32) -> Seq<T>,
    rows: Seq<u32>,
    workers: nat,
)
    requires
        1 <= workers,
    ensures
        joined_output(render_row, rows, workers, workers) == rows.flat_map(render_row),
{
    lemma_joined_is_prefix(render_row, rows, workers, workers);
    lemma_chunks_cover(rows.len(), workers);
    assert(rows.take(rows.len() as int) =~= rows);
}

} // verus!
