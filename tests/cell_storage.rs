use spge::cell_storage::{cell_to_id, id_to_cell, join2, CellStorage, MaskedCellStorage};
use spge::slice_access_storage::SliceAccessStorage;
use spge::{CHUNK_SIZE, NUM_CELLS};

#[derive(Clone, Copy, Debug, PartialEq, Default)]
struct Color {
    r: u8,
    g: u8,
    b: u8,
    a: u8,
}

const SAND: Color = Color { r: 224, g: 188, b: 27, a: 255 };

fn storage<T: Copy + Default>() -> CellStorage<MaskedCellStorage<T>> {
    CellStorage::new(MaskedCellStorage::new(T::default()))
}

#[test]
fn coordinate_mapping_values() {
    assert_eq!(cell_to_id(0, 0), 0);
    assert_eq!(cell_to_id(5, 5), 5 + 5 * CHUNK_SIZE);
    assert_eq!(cell_to_id(CHUNK_SIZE - 1, CHUNK_SIZE - 1), NUM_CELLS - 1);
    assert_eq!(id_to_cell(4 + CHUNK_SIZE), (4, 1));
    assert_eq!(id_to_cell(NUM_CELLS - 1), (CHUNK_SIZE - 1, CHUNK_SIZE - 1));
    for id in 0..NUM_CELLS {
        let (x, y) = id_to_cell(id);
        assert_eq!(cell_to_id(x, y), id);
    }
}

#[test]
fn example_join_yields_inserted_cells_in_id_order() {
    let mut colors = storage::<Color>();
    colors.insert(5, 5, SAND);
    colors.insert(4, 1, SAND);
    colors.insert(4, 5, SAND);
    colors.insert(10, 10, SAND);
    let visited = colors.join();
    assert_eq!(
        visited,
        vec![((4, 1), SAND), ((4, 5), SAND), ((5, 5), SAND), ((10, 10), SAND)]
    );
    for y in 0..CHUNK_SIZE {
        for x in 0..CHUNK_SIZE {
            let inserted = [(5, 5), (4, 1), (4, 5), (10, 10)].contains(&(x, y));
            assert_eq!(colors.get(x, y).is_some(), inserted);
        }
    }
}

#[test]
fn insert_then_get_round_trip() {
    let mut s = storage::<u32>();
    assert_eq!(*s.insert(3, 7, 42), 42);
    assert_eq!(s.get(3, 7), Some(&42));
    assert_eq!(s.get(7, 3), None);
    s.insert(CHUNK_SIZE - 1, CHUNK_SIZE - 1, 9);
    assert_eq!(s.get(CHUNK_SIZE - 1, CHUNK_SIZE - 1), Some(&9));
}

#[test]
fn remove_clears_presence() {
    let mut s = storage::<u32>();
    s.insert(2, 2, 5);
    s.remove(2, 2);
    assert_eq!(s.get(2, 2), None);
    assert!(s.join().is_empty());
    s.remove(2, 2);
    assert_eq!(s.get(2, 2), None);
    s.remove(0, 0);
    assert_eq!(s.get(0, 0), None);
}

#[test]
fn insert_overwrites() {
    let mut s = storage::<u32>();
    s.insert(1, 0, 10);
    s.insert(1, 0, 20);
    assert_eq!(s.get(1, 0), Some(&20));
    assert_eq!(s.join(), vec![((1, 0), 20)]);
}

#[test]
fn get_mut_writes_present_cells_only() {
    let mut s = storage::<u32>();
    s.insert(6, 2, 1);
    *s.get_mut(6, 2).unwrap() = 11;
    assert_eq!(s.get(6, 2), Some(&11));
    assert!(s.get_mut(2, 6).is_none());
    assert_eq!(s.get(2, 6), None);
}

#[test]
fn empty_storage_joins_to_nothing() {
    let s = storage::<u32>();
    assert!(s.join().is_empty());
    let t = storage::<u8>();
    assert!(join2(&s, &t).is_empty());
}

#[test]
fn join_visits_each_present_cell_once_in_id_order() {
    let mut s = storage::<u32>();
    let cells = [(31, 31), (0, 0), (3, 9), (9, 3), (0, 1), (1, 0), (3, 9)];
    for &(x, y) in cells.iter() {
        s.insert(x, y, x * 100 + y);
    }
    let visited = s.join();
    let ids: Vec<u32> = visited.iter().map(|&((x, y), _)| cell_to_id(x, y)).collect();
    let mut expected: Vec<u32> = cells.iter().map(|&(x, y)| cell_to_id(x, y)).collect();
    expected.sort();
    expected.dedup();
    assert_eq!(ids, expected);
    for &((x, y), v) in visited.iter() {
        assert_eq!(v, x * 100 + y);
    }
}

#[test]
fn join_of_two_visits_the_intersection() {
    let mut a = storage::<u32>();
    let mut b = storage::<u8>();
    a.insert(1, 1, 11);
    a.insert(2, 2, 22);
    a.insert(3, 3, 33);
    b.insert(3, 3, 3);
    b.insert(2, 2, 2);
    b.insert(4, 4, 4);
    assert_eq!(join2(&a, &b), vec![((2, 2), 22, 2), ((3, 3), 33, 3)]);
}

#[test]
fn mutable_join_writes_each_cell_its_own_sentinel() {
    let mut s = storage::<u32>();
    let cells = [(0, 0), (31, 0), (0, 31), (12, 7), (13, 7), (12, 8)];
    for &(x, y) in cells.iter() {
        s.insert(x, y, 0);
    }
    s.join_update(|(x, y), _| cell_to_id(x, y) + 1000);
    for &(x, y) in cells.iter() {
        assert_eq!(s.get(x, y), Some(&(cell_to_id(x, y) + 1000)));
    }
    assert_eq!(s.join().len(), cells.len());
    assert_eq!(s.get(1, 1), None);
}

#[test]
fn mutable_join_sees_old_values() {
    let mut s = storage::<u32>();
    s.insert(4, 4, 5);
    s.insert(5, 4, 6);
    s.join_update(|_, v| v * 2);
    assert_eq!(s.join(), vec![((4, 4), 10), ((5, 4), 12)]);
}

#[test]
fn removed_cell_reinserted_holds_new_value() {
    let mut s = storage::<Color>();
    s.insert(8, 8, SAND);
    s.remove(8, 8);
    s.insert(8, 8, Color::default());
    assert_eq!(s.get(8, 8), Some(&Color::default()));
}

#[test]
fn mutable_join_reports_each_step_once_in_id_order() {
    let mut s = storage::<u32>();
    s.insert(9, 9, 1);
    s.insert(2, 0, 2);
    s.insert(0, 3, 3);
    let steps = s.join_update(|_, v| v + 1);
    assert_eq!(steps, vec![(2, 0), (0, 3), (9, 9)]);
    assert_eq!(s.join(), vec![((2, 0), 3), ((0, 3), 4), ((9, 9), 2)]);
}

#[test]
fn storage_over_a_given_store_starts_empty() {
    let mut s = CellStorage::new(MaskedCellStorage::with_store(SliceAccessStorage::new(7u32)));
    assert!(s.join().is_empty());
    assert_eq!(s.get(1, 2), None);
    s.insert(1, 2, 3);
    assert_eq!(s.join(), vec![((1, 2), 3)]);
}
