//! Tests of map construction, addressing and mutation.

use cell_map::error::Error;
use cell_map::iterators::indexed::Indexed;
use cell_map::iterators::slicers::Cells;
use cell_map::iterators::slicers::Slicer;
use cell_map::Bounds;
use cell_map::CellMap;
use cell_map::CellMapParams;
use cell_map::Grid;
use cell_map::Layer;

#[derive(Clone, Copy, Debug)]
#[allow(dead_code)]
enum TestLayers {
    Layer0,
    Layer1,
    Layer2,
}

impl Layer for TestLayers {
    fn num_layers() -> usize {
        3
    }

    fn to_index(&self) -> usize {
        match self {
            Self::Layer0 => 0,
            Self::Layer1 => 1,
            Self::Layer2 => 2,
        }
    }

    fn from_index(index: usize) -> Self {
        match index {
            0 => Self::Layer0,
            1 => Self::Layer1,
            2 => Self::Layer2,
            _ => panic!("layer index {} out of range", index),
        }
    }

    fn all() -> Vec<Self> {
        vec![Self::Layer0, Self::Layer1, Self::Layer2]
    }
}

fn params(x: (i32, i32), y: (i32, i32)) -> CellMapParams {
    CellMapParams {
        cell_size: (1.0f64.to_bits(), 1.0f64.to_bits()),
        cell_bounds: Bounds::new(x, y).unwrap(),
        ..Default::default()
    }
}

#[test]
fn bounds_validation() {
    assert!(Bounds::new((0, 5), (0, 5)).is_ok());
    assert!(Bounds::new((-3, 3), (2, 2)).is_ok());
    let bad = Bounds::new((5, 0), (0, 5));
    assert_eq!(
        bad,
        Err(Error::InvalidBounds(Bounds { x: (5, 0), y: (0, 5) }))
    );
    let b = Bounds::new((-2, 8), (1, 11)).unwrap();
    assert_eq!(b.size(), (10, 10));
    assert!(b.contains((-2, 1)));
    assert!(b.contains((7, 10)));
    assert!(!b.contains((8, 1)));
    assert!(!b.contains((-3, 1)));
}

#[test]
fn cell_index_round_trip() {
    // A map whose bounds do not start at the origin.
    let map = CellMap::<TestLayers, f64>::new_from_elem(params((-2, 8), (1, 11)), 0.0).unwrap();

    // Whole-cell coordinate to array index and back, for every cell.
    for x in -2i32..8 {
        for y in 1i32..11 {
            let idx = map.index((x, y)).unwrap();
            assert_eq!(map.position(idx).unwrap(), (x, y));
        }
    }

    // Array index to whole-cell coordinate and back.
    assert_eq!(map.position((0, 0)).unwrap(), (-2, 1));
    assert_eq!(map.index((-2, 1)).unwrap(), (0, 0));
    assert_eq!(map.position((9, 9)).unwrap(), (7, 10));
    assert_eq!(map.index((7, 10)).unwrap(), (9, 9));

    // Outside the map on either side.
    assert_eq!(map.index((8, 1)), Err(Error::PositionOutsideMap((8, 1))));
    assert_eq!(map.index((-3, 1)), Err(Error::PositionOutsideMap((-3, 1))));
    assert_eq!(map.position((10, 0)), Err(Error::IndexOutsideMap((10, 0))));
}

#[test]
fn default_params() {
    let p = CellMapParams::default();
    assert_eq!(p.cell_bounds, Bounds { x: (0, 0), y: (0, 0) });
    assert_eq!(p.cell_size, (0, 0));
    assert_eq!(p.cell_boundary_precision, 0);
    assert_eq!(p.rotation_in_parent_rad, 0);
    assert_eq!(p.position_in_parent, (0, 0));
}

#[test]
fn construction_errors() {
    let bad = CellMapParams {
        cell_bounds: Bounds { x: (5, 0), y: (0, 5) },
        ..Default::default()
    };
    assert_eq!(
        CellMap::<TestLayers, f64>::new_from_elem(bad, 1.0).unwrap_err(),
        Error::InvalidBounds(Bounds { x: (5, 0), y: (0, 5) })
    );

    // Too few layers.
    let data = vec![Grid::from_elem(5, 5, 1.0), Grid::from_elem(5, 5, 1.0)];
    assert_eq!(
        CellMap::<TestLayers, f64>::new_from_data(params((0, 5), (0, 5)), data).unwrap_err(),
        Error::WrongNumberOfLayers(3, 2)
    );

    // One layer of the wrong shape.
    let data = vec![
        Grid::from_elem(5, 5, 1.0),
        Grid::from_elem(4, 5, 1.0),
        Grid::from_elem(5, 5, 1.0),
    ];
    assert_eq!(
        CellMap::<TestLayers, f64>::new_from_data(params((0, 5), (0, 5)), data).unwrap_err(),
        Error::LayerWrongShape((5, 5), (4, 5))
    );
}

#[test]
fn rebuild_from_data() {
    let mut g0 = Grid::from_elem(2, 2, 0.0);
    g0.set(0, 0, 1.5);
    g0.set(1, 1, 2.5);
    let data = vec![g0, Grid::from_elem(2, 2, 7.0), Grid::from_elem(2, 2, 9.0)];
    let p = params((0, 2), (0, 2));
    let map = CellMap::<TestLayers, f64>::new_from_data(p, data).unwrap();
    assert_eq!(map.params(), p);
    assert_eq!(map.num_cells(), (2, 2));
    assert_eq!(map.cell_size(), (1.0f64.to_bits(), 1.0f64.to_bits()));
    assert_eq!(map.bounds(), Bounds::new((0, 2), (0, 2)).unwrap());
    assert_eq!(map.get(TestLayers::Layer0, (0, 0)), 1.5);
    assert_eq!(map.get(TestLayers::Layer0, (1, 1)), 2.5);
    assert_eq!(map.get(TestLayers::Layer0, (1, 0)), 0.0);
    assert_eq!(map.get(TestLayers::Layer1, (0, 1)), 7.0);
    assert_eq!(map.get(TestLayers::Layer2, (1, 0)), 9.0);
}

#[test]
fn set_and_get() {
    let mut map = CellMap::<TestLayers, f64>::new(params((0, 3), (0, 3))).unwrap();
    assert_eq!(map.get(TestLayers::Layer1, (2, 1)), 0.0);
    map.set(TestLayers::Layer1, (2, 1), 4.25);
    assert_eq!(map.get(TestLayers::Layer1, (2, 1)), 4.25);
    // Neighbouring cells and other layers are untouched.
    assert_eq!(map.get(TestLayers::Layer1, (1, 2)), 0.0);
    assert_eq!(map.get(TestLayers::Layer0, (2, 1)), 0.0);
    assert_eq!(map.get(TestLayers::Layer2, (2, 1)), 0.0);
}

#[test]
fn window_contents() {
    let mut map = CellMap::<TestLayers, f64>::new(params((0, 5), (0, 5))).unwrap();
    for x in 0usize..5 {
        for y in 0usize..5 {
            map.set(TestLayers::Layer0, (x, y), (x * 10 + y) as f64);
        }
    }
    let w = map.window_at(0, (2, 3), (1, 1));
    assert_eq!(w.shape(), (3, 3));
    for i in 0usize..3 {
        for j in 0usize..3 {
            assert_eq!(w.get(i, j), ((i + 1) * 10 + j + 2) as f64);
        }
    }
}

#[test]
fn window_centre_writes() {
    // Fill a map with ones, then write two to the centre of every window.
    let mut map = CellMap::<TestLayers, f64>::new_from_elem(params((0, 5), (0, 5)), 1.0).unwrap();
    assert_eq!(
        map.set_window_centres((3, 3), 2.0).unwrap_err(),
        Error::WindowLargerThanMap((3, 3), (5, 5))
    );
    map.set_window_centres((1, 1), 2.0).unwrap();

    // The border ring of every layer is untouched; the interior holds twos.
    let mut it = map.iter().indexed();
    while let Some(((_, cell), value)) = it.next_indexed() {
        if cell.0 == 0 || cell.0 == 4 || cell.1 == 0 || cell.1 == 4 {
            assert_eq!(value, 1.0);
        } else {
            assert_eq!(value, 2.0);
        }
    }
}

#[test]
fn diagonal_and_straight_lines() {
    let map = CellMap::<TestLayers, f64>::new_from_elem(params((0, 6), (0, 6)), 1.0).unwrap();

    // An exact diagonal visits only the diagonal cells.
    let mut it = map.line_iter((0, 0), (3, 3)).unwrap().layer(TestLayers::Layer0).indexed();
    let mut idx: Vec<(usize, usize)> = Vec::new();
    while let Some(((_, i), _)) = it.next_indexed() {
        idx.push(i);
    }
    assert_eq!(idx, vec![(0, 0), (1, 1), (2, 2), (3, 3)]);

    // A vertical line.
    let mut it = map.line_iter((2, 4), (2, 1)).unwrap().layer(TestLayers::Layer0).indexed();
    let mut idx: Vec<(usize, usize)> = Vec::new();
    while let Some(((_, i), _)) = it.next_indexed() {
        idx.push(i);
    }
    assert_eq!(idx, vec![(2, 4), (2, 3), (2, 2), (2, 1)]);

    // A steep line mirrors the shallow one with the axes swapped.
    let mut it = map.line_iter((1, 1), (2, 4)).unwrap().layer(TestLayers::Layer0).indexed();
    let mut idx: Vec<(usize, usize)> = Vec::new();
    while let Some(((_, i), _)) = it.next_indexed() {
        idx.push(i);
    }
    assert_eq!(idx, vec![(1, 1), (1, 2), (1, 3), (2, 3), (2, 4)]);

    // A shallow line descending in `y`.
    let mut it = map.line_iter((1, 4), (4, 3)).unwrap().layer(TestLayers::Layer0).indexed();
    let mut idx: Vec<(usize, usize)> = Vec::new();
    while let Some(((_, i), _)) = it.next_indexed() {
        idx.push(i);
    }
    assert_eq!(idx, vec![(1, 4), (2, 4), (3, 4), (3, 3), (4, 3)]);

    // Endpoints outside the map are rejected.
    match map.line_iter((6, 0), (0, 0)) {
        Ok(_) => panic!("expected an error"),
        Err(e) => assert_eq!(e, Error::IndexOutsideMap((6, 0))),
    }
    match map.line_iter((0, 0), (0, 6)) {
        Ok(_) => panic!("expected an error"),
        Err(e) => assert_eq!(e, Error::IndexOutsideMap((0, 6))),
    }
}

#[test]
fn indexed_decorator() {
    let mut s = Indexed::new(Cells::new(2, 2), 1);
    assert_eq!(s.layer_index(), 1);
    assert_eq!(s.current_indexed(), Some((1, (0, 0))));
    s.advance();
    assert_eq!(s.current_indexed(), Some((1, (1, 0))));
    s.reset(Some(2));
    assert_eq!(s.current_indexed(), Some((2, (0, 0))));
    s.advance();
    s.advance();
    s.advance();
    s.advance();
    assert_eq!(s.current_indexed(), None);
}
