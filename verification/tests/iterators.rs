//! Tests for the iteration pipeline.

use cell_map::error::Error;
use cell_map::Bounds;
use cell_map::CellMap;
use cell_map::CellMapParams;
use cell_map::Layer;

#[derive(Clone, Copy, Debug)]
#[allow(dead_code)]
enum TestLayers {
    Layer0,
    Layer1,
    Layer2,
}

impl Layer for TestLayers {
    fn num_layers() -> usize {
        3
    }

    fn to_index(&self) -> usize {
        match self {
            Self::Layer0 => 0,
            Self::Layer1 => 1,
            Self::Layer2 => 2,
        }
    }

    fn from_index(index: usize) -> Self {
        match index {
            0 => Self::Layer0,
            1 => Self::Layer1,
            2 => Self::Layer2,
            _ => panic!("layer index {} out of range", index),
        }
    }

    fn all() -> Vec<Self> {
        vec![Self::Layer0, Self::Layer1, Self::Layer2]
    }
}

fn params(x: (i32, i32), y: (i32, i32)) -> CellMapParams {
    CellMapParams {
        cell_size: (1.0f64.to_bits(), 1.0f64.to_bits()),
        cell_bounds: Bounds::new(x, y).unwrap(),
        ..Default::default()
    }
}

/// Check that iterator constructors return the right ok or error.
#[test]
fn construction() {
    // Dummy map
    let mut map = CellMap::<TestLayers, f64>::new_from_elem(params((0, 5), (0, 5)), 1.0).unwrap();

    // Try to build new iterators, checking we don't panic
    let _ = map.iter();
    let _ = map.iter_mut();
    assert!(map.window_iter((2, 2)).is_ok());
    assert!(map.window_iter_mut((2, 2)).is_ok());

    // Check that window builds return errors when we use a big window
    assert!(map.window_iter((3, 3)).is_err());
    assert!(map.window_iter_mut((3, 3)).is_err());
}

#[test]
fn counts() -> Result<(), Error> {
    // Dummy map
    let mut map = CellMap::<TestLayers, f64>::new_from_elem(params((0, 5), (0, 5)), 1.0).unwrap();

    assert_eq!(map.iter().count(), 75);
    assert_eq!(map.iter().layer(TestLayers::Layer0).count(), 25);
    assert_eq!(
        map.iter()
            .layers(&[TestLayers::Layer0, TestLayers::Layer2])
            .count(),
        50
    );
    assert_eq!(map.iter_mut().count(), 75);
    assert_eq!(map.iter_mut().layer(TestLayers::Layer0).count(), 25);
    assert_eq!(
        map.iter_mut()
            .layers(&[TestLayers::Layer0, TestLayers::Layer2])
            .count(),
        50
    );

    assert_eq!(map.window_iter((1, 1))?.count(), 27);
    assert_eq!(map.window_iter_mut((1, 1))?.count(), 27);

    assert_eq!(map.window_iter((2, 2))?.count(), 3);
    assert_eq!(map.window_iter((2, 2))?.count(), 3);

    Ok(())
}

#[test]
fn window() -> Result<(), Error> {
    // Dummy map
    let map = CellMap::<TestLayers, f64>::new_from_elem(params((0, 5), (0, 6)), 1.0).unwrap();

    // Check shape is correct
    let first = map.window_iter((1, 1))?.layer(TestLayers::Layer0).next();

    assert_eq!(first.unwrap().shape(), (3, 3));

    // Check the order of cells produced is correct
    let mut it = map.window_iter((1, 1))?.layer(TestLayers::Layer0).indexed();
    let mut indices: Vec<(usize, usize)> = Vec::new();
    while let Some(((_, idx), _)) = it.next_indexed() {
        indices.push((idx.0, idx.1));
    }

    assert_eq!(
        indices,
        vec![
            (1, 1),
            (2, 1),
            (3, 1),
            (1, 2),
            (2, 2),
            (3, 2),
            (1, 3),
            (2, 3),
            (3, 3),
            (1, 4),
            (2, 4),
            (3, 4),
        ]
    );

    Ok(())
}

#[test]
fn line() -> Result<(), Error> {
    // Dummy map
    let map = CellMap::<TestLayers, f64>::new_from_elem(params((0, 6), (0, 6)), 1.0).unwrap();

    // The original line endpoints are parent-frame positions; with unit cells
    // and no transform they land on the cells below.
    let a = (1.1f64.floor() as usize, 1.1f64.floor() as usize);
    let b = (3.3f64.floor() as usize, 1.1f64.floor() as usize);
    let c = (4.3f64.floor() as usize, 2.1f64.floor() as usize);

    // Create new line iterator between two points which should be a straight line
    let mut it = map.line_iter(a, b)?.layer(TestLayers::Layer0).indexed();
    let mut indexes: Vec<(usize, usize)> = Vec::new();
    while let Some(((_, i), _)) = it.next_indexed() {
        indexes.push((i.0, i.1));
    }

    assert_eq!(indexes, vec![(1, 1), (2, 1), (3, 1)]);

    // Create a off diaganal iterator, should produce more points
    let mut it = map.line_iter(a, c)?.layer(TestLayers::Layer0).indexed();
    let mut indexes: Vec<(usize, usize)> = Vec::new();
    while let Some(((_, i), _)) = it.next_indexed() {
        indexes.push((i.0, i.1));
    }

    assert_eq!(indexes, vec![(1, 1), (2, 1), (3, 1), (3, 2), (4, 2)]);

    // Create negative direction vector
    let mut it = map.line_iter(c, a)?.layer(TestLayers::Layer0).indexed();
    let mut indexes: Vec<(usize, usize)> = Vec::new();
    while let Some(((_, i), _)) = it.next_indexed() {
        indexes.push((i.0, i.1));
    }

    assert_eq!(indexes, vec![(4, 2), (3, 2), (3, 1), (2, 1), (1, 1)]);

    Ok(())
}
