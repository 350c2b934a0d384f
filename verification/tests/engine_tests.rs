use fractal_plot::engine::{assemble_plot, calc_hist, worker_rows, PlotEngine, PlotError};

fn row_batch(width: u32, y: u32, values: &[f32]) -> Vec<(u32, u32, f32)> {
    assert_eq!(values.len(), width as usize);
    (0..width).map(|x| (x, y, values[x as usize])).collect()
}

#[test]
fn worker_rows_partitions_every_row_once() {
    let height: u32 = 10;
    for n in 1..5u32 {
        let mut seen = vec![0u32; height as usize];
        for t in 0..n {
            for y in worker_rows(t, n, height) {
                assert_eq!(y % n, t);
                seen[y as usize] += 1;
            }
        }
        assert!(seen.iter().all(|&c| c == 1));
    }
}

#[test]
fn worker_rows_round_robin_stride() {
    assert_eq!(worker_rows(0, 3, 10), vec![0, 3, 6, 9]);
    assert_eq!(worker_rows(1, 3, 10), vec![1, 4, 7]);
    assert_eq!(worker_rows(2, 3, 10), vec![2, 5, 8]);
    assert_eq!(worker_rows(0, 1, 4), vec![0, 1, 2, 3]);
}

#[test]
fn engine_rejects_bad_dimensions() {
    assert_eq!(PlotEngine::<f32>::new(0, 5).err(), Some(PlotError::BadDimensions));
    assert_eq!(PlotEngine::<f32>::new(5, 0).err(), Some(PlotError::BadDimensions));
}

#[test]
fn engine_builds_full_plot() {
    let mut e: PlotEngine<f32> = PlotEngine::new(3, 2).unwrap();
    assert!(e.accept_batch(&row_batch(3, 1, &[10.0, 11.0, 12.0])).is_ok());
    assert!(e.accept_batch(&row_batch(3, 0, &[0.5, 1.5, 2.5])).is_ok());
    let plot = e.into_plot().unwrap();
    assert_eq!(plot.len(), 3);
    assert_eq!(plot[0], vec![0.5, 10.0]);
    assert_eq!(plot[1], vec![1.5, 11.0]);
    assert_eq!(plot[2], vec![2.5, 12.0]);
}

#[test]
fn engine_rejects_duplicate_row() {
    let mut e: PlotEngine<f32> = PlotEngine::new(2, 2).unwrap();
    assert!(e.accept_batch(&row_batch(2, 0, &[1.0, 2.0])).is_ok());
    let r = e.accept_batch(&row_batch(2, 0, &[3.0, 4.0]));
    assert_eq!(r.err(), Some(PlotError::DuplicateRow));
}

#[test]
fn engine_rejects_malformed_batches() {
    let mut e: PlotEngine<f32> = PlotEngine::new(3, 2).unwrap();
    // Wrong length.
    let r = e.accept_batch(&vec![(0, 0, 1.0f32), (1, 0, 2.0)]);
    assert_eq!(r.err(), Some(PlotError::MalformedBatch));
    // Row out of range.
    let r = e.accept_batch(&row_batch(3, 7, &[1.0, 2.0, 3.0]));
    assert_eq!(r.err(), Some(PlotError::MalformedBatch));
    // Columns out of order.
    let r = e.accept_batch(&vec![(1, 0, 1.0f32), (0, 0, 2.0), (2, 0, 3.0)]);
    assert_eq!(r.err(), Some(PlotError::MalformedBatch));
    // Mixed rows inside one batch.
    let r = e.accept_batch(&vec![(0, 0, 1.0f32), (1, 1, 2.0), (2, 0, 3.0)]);
    assert_eq!(r.err(), Some(PlotError::MalformedBatch));
}

#[test]
fn missing_row_yields_incomplete_and_no_buffer() {
    let mut e: PlotEngine<f32> = PlotEngine::new(2, 3).unwrap();
    assert!(e.accept_batch(&row_batch(2, 0, &[1.0, 2.0])).is_ok());
    assert!(e.accept_batch(&row_batch(2, 2, &[5.0, 6.0])).is_ok());
    assert!(!e.is_complete());
    let r = e.into_plot();
    assert_eq!(r.err(), Some(PlotError::Incomplete));
}

#[test]
fn assemble_plot_is_order_independent() {
    let b0 = row_batch(2, 0, &[1.0, 2.0]);
    let b1 = row_batch(2, 1, &[3.0, 4.0]);
    let b2 = row_batch(2, 2, &[5.0, 6.0]);
    // One worker would deliver rows in order; two workers interleave.
    let one_worker = vec![b0.clone(), b1.clone(), b2.clone()];
    let two_workers = vec![b1, b2, b0];
    let p1 = assemble_plot(2, 3, &one_worker).unwrap();
    let p2 = assemble_plot(2, 3, &two_workers).unwrap();
    assert_eq!(p1, p2);
    assert_eq!(p1[0], vec![1.0, 3.0, 5.0]);
    assert_eq!(p1[1], vec![2.0, 4.0, 6.0]);
}

#[test]
fn assemble_plot_reports_first_failure() {
    let b0 = row_batch(2, 0, &[1.0, 2.0]);
    let r = assemble_plot(2, 2, &vec![b0.clone(), b0]);
    assert_eq!(r.err(), Some(PlotError::DuplicateRow));
    let r = assemble_plot::<f32>(0, 2, &vec![]);
    assert_eq!(r.err(), Some(PlotError::BadDimensions));
    let r = assemble_plot(2, 2, &vec![row_batch(2, 0, &[1.0, 2.0])]);
    assert_eq!(r.err(), Some(PlotError::Incomplete));
}

#[test]
fn calc_hist_counts_each_value() {
    // A 3 x 2 plot of iteration counts capped at 4.
    let plot: Vec<Vec<u32>> = vec![vec![0, 2], vec![2, 4], vec![2, 0]];
    let hist = calc_hist(&plot, 4);
    assert_eq!(hist, vec![2, 0, 3, 0, 1]);
}

#[test]
fn calc_hist_of_empty_plot_is_all_zero() {
    let plot: Vec<Vec<u32>> = vec![];
    let hist = calc_hist(&plot, 2);
    assert_eq!(hist, vec![0, 0, 0]);
}
