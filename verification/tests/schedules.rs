use nephos::sim::{chunk_schedule, map_index_table, Chunk};

#[test]
fn chunk_schedule_splits_full_chunks_and_remainder() {
    let chunks = chunk_schedule(10, 4);
    assert_eq!(
        chunks,
        vec![
            Chunk { start: 0, len: 4 },
            Chunk { start: 4, len: 4 },
            Chunk { start: 8, len: 2 },
        ]
    );
}

#[test]
fn chunk_schedule_with_exact_fit_has_no_remainder() {
    let chunks = chunk_schedule(8, 4);
    assert_eq!(chunks, vec![Chunk { start: 0, len: 4 }, Chunk { start: 4, len: 4 }]);
}

#[test]
fn chunk_schedule_of_nothing_is_empty() {
    assert!(chunk_schedule(0, 4).is_empty());
}

#[test]
fn chunk_schedule_smaller_than_one_chunk() {
    assert_eq!(chunk_schedule(3, 65535), vec![Chunk { start: 0, len: 3 }]);
}

#[test]
fn map_index_table_fills_each_band_with_its_map() {
    let table = map_index_table(&vec![2, 5, 6]);
    assert_eq!(table, vec![0, 0, 1, 1, 1, 2]);
}

#[test]
fn map_index_table_skips_an_empty_band() {
    // the second map has a zero-width band and never gets picked
    let table = map_index_table(&vec![3, 3, 4]);
    assert_eq!(table, vec![0, 0, 0, 2]);
}

#[test]
fn map_index_table_single_map_fills_everything() {
    let table = map_index_table(&vec![144]);
    assert_eq!(table.len(), 144);
    assert!(table.iter().all(|&x| x == 0));
}
