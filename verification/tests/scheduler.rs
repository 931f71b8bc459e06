use raytracer::scheduler::assign_chunks;
use raytracer::scheduler::row_order;

#[test]
fn chunks_tile_the_rows_in_order() {
    let chunks = assign_chunks(10, 3);
    assert_eq!(chunks, vec![(0, 4), (4, 3), (7, 3)]);
}

#[test]
fn remainder_rows_go_to_the_first_workers() {
    let chunks = assign_chunks(7, 4);
    assert_eq!(chunks, vec![(0, 2), (2, 2), (4, 2), (6, 1)]);
    // sizes differ by at most one
    let min = chunks.iter().map(|c| c.1).min().unwrap();
    let max = chunks.iter().map(|c| c.1).max().unwrap();
    assert!(max - min <= 1);
}

#[test]
fn more_workers_than_rows_leaves_empty_chunks() {
    let chunks = assign_chunks(2, 5);
    assert_eq!(chunks, vec![(0, 1), (1, 1), (2, 0), (2, 0), (2, 0)]);
}

#[test]
fn one_worker_gets_everything() {
    assert_eq!(assign_chunks(6, 1), vec![(0, 6)]);
}

#[test]
fn rows_are_enumerated_top_down() {
    assert_eq!(row_order(5), vec![4, 3, 2, 1, 0]);
    assert_eq!(row_order(0), Vec::<u32>::new());
}

// A fixed per-row result stands in for the per-pixel sampling: rendering
// the chunks on separate workers and joining them in assignment order
// yields the same buffer as rendering every row on one worker.
fn render_row(row: u32) -> Vec<u32> {
    vec![row * 10, row * 10 + 1, row * 10 + 2]
}

#[test]
fn chunked_render_matches_sequential_render() {
    let height: u32 = 11;
    let workers = 4;
    let rows = row_order(height);
    let chunks = assign_chunks(rows.len(), workers);

    let mut sequential: Vec<u32> = Vec::new();
    for r in &rows {
        sequential.extend(render_row(*r));
    }

    let worker_outputs: Vec<Vec<u32>> = chunks
        .iter()
        .map(|(offset, size)| {
            let mut out = Vec::new();
            for r in &rows[*offset..offset + size] {
                out.extend(render_row(*r));
            }
            out
        })
        .collect();

    let mut joined: Vec<u32> = Vec::new();
    for out in worker_outputs {
        joined.extend(out);
    }
    assert_eq!(joined, sequential);
}
