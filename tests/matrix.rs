use ooc::dense::{Dense, MatrixError};
use ooc::dtype::{DoublePrecision, FloatType, SinglePrecision, SupportedType};
use ooc::header::{MatrixHeader, HEADER_SIZE, MAGIC};
use ooc::index::ElementIterCommon;

fn traversal(m: &Dense) -> Vec<(usize, usize, u64)> {
    let mut it = m.element_iter();
    let mut out = Vec::new();
    while let Some(v) = it.next() {
        out.push((it.get_row(), it.get_col(), v));
    }
    out
}

fn filled(rows: u64, cols: u64, repr: FloatType) -> Dense {
    let m = Dense::create(rows, cols, repr).unwrap();
    let mut it = m.element_iter_mut();
    let mut k: u64 = 0;
    while it.next() {
        it.set(k);
        k += 1;
    }
    it.into_matrix()
}

#[test]
fn widths_of_representations() {
    assert_eq!(FloatType::Single.get_width(), 4);
    assert_eq!(FloatType::Double.get_width(), 8);
    assert_eq!(SinglePrecision::get_float_type(), FloatType::Single);
    assert_eq!(DoublePrecision::get_float_type(), FloatType::Double);
}

#[test]
fn file_length_single_precision() {
    let m = Dense::create(2, 3, FloatType::Single).unwrap();
    assert_eq!(m.byte_length(), 64 + 2 * 3 * 4);
    assert_eq!(m.num_rows(), 2);
    assert_eq!(m.num_cols(), 3);
}

#[test]
fn file_length_double_precision() {
    let m = Dense::create(1000, 7, FloatType::Double).unwrap();
    assert_eq!(m.byte_length(), 64 + 1000 * 7 * 8);
    let t = Dense::create_typed::<DoublePrecision>(5, 9).unwrap();
    assert_eq!(t.byte_length(), 64 + 5 * 9 * 8);
    assert_eq!(t.representation(), FloatType::Double);
}

#[test]
fn file_length_survives_transpose() {
    let mut m = Dense::create(4, 5, FloatType::Single).unwrap();
    m.transpose();
    assert_eq!(m.byte_length(), 64 + 4 * 5 * 4);
}

#[test]
fn compute_length_values() {
    assert_eq!(MatrixHeader::compute_length(2, 3, FloatType::Single), Some(88));
    assert_eq!(MatrixHeader::compute_length(2, 3, FloatType::Double), Some(112));
    assert_eq!(MatrixHeader::compute_length(u64::MAX, 2, FloatType::Single), None);
    assert_eq!(MatrixHeader::compute_length(1 << 31, 1 << 31, FloatType::Double), None);
}

#[test]
fn zero_dimension_is_rejected() {
    assert_eq!(Dense::create(0, 3, FloatType::Single).err(), Some(MatrixError::ZeroDimension));
    assert_eq!(Dense::create(3, 0, FloatType::Double).err(), Some(MatrixError::ZeroDimension));
}

#[test]
fn overflowing_length_is_rejected() {
    assert_eq!(
        Dense::create(u64::MAX, u64::MAX, FloatType::Single).err(),
        Some(MatrixError::LengthOverflow)
    );
    assert_eq!(
        Dense::create(1 << 32, 1 << 30, FloatType::Double).err(),
        Some(MatrixError::LengthOverflow)
    );
}

#[test]
fn new_matrix_is_zero_filled() {
    let m = Dense::create(3, 2, FloatType::Single).unwrap();
    let t = traversal(&m);
    assert_eq!(t.len(), 6);
    assert!(t.iter().all(|&(_, _, v)| v == 0));
}

#[test]
fn header_bytes_layout() {
    let m = Dense::create(2, 3, FloatType::Double).unwrap();
    let b = m.header_bytes();
    assert_eq!(b.len() as u64, HEADER_SIZE);
    assert_eq!(&b[0..8], &MAGIC.to_le_bytes());
    assert_eq!(&b[8..16], &2u64.to_le_bytes());
    assert_eq!(&b[16..24], &3u64.to_le_bytes());
    assert_eq!(&b[24..32], &1u64.to_le_bytes());
    assert_eq!(&b[32..40], &3u64.to_le_bytes());
    assert_eq!(b[40], 0);
    assert!(b[41..].iter().all(|&x| x == 0));
}

#[test]
fn header_bytes_after_transpose() {
    let mut m = Dense::create(2, 3, FloatType::Single).unwrap();
    m.transpose();
    let b = m.header_bytes();
    assert_eq!(&b[8..16], &3u64.to_le_bytes());
    assert_eq!(&b[16..24], &2u64.to_le_bytes());
    assert_eq!(&b[24..32], &0u64.to_le_bytes());
    assert_eq!(&b[32..40], &3u64.to_le_bytes());
    assert_eq!(b[40], 1);
}

#[test]
fn header_encode_large_values() {
    let h = MatrixHeader::new(0x0102_0304, 0x0a0b, FloatType::Single);
    let b = h.encode();
    assert_eq!(&b[8..16], &[4, 3, 2, 1, 0, 0, 0, 0]);
    assert_eq!(&b[16..24], &[0x0b, 0x0a, 0, 0, 0, 0, 0, 0]);
    assert_eq!(h.get_data_length_elements(), 0x0102_0304 * 0x0a0b);
    assert_eq!(h.data_file_length(), 64 + 0x0102_0304 * 0x0a0b * 4);
}

#[test]
fn element_byte_offsets() {
    let m = Dense::create(2, 3, FloatType::Single).unwrap();
    assert_eq!(m.element_byte_offset(0), 64);
    assert_eq!(m.element_byte_offset(5), 84);
    let d = Dense::create(2, 3, FloatType::Double).unwrap();
    assert_eq!(d.element_byte_offset(5), 104);
}

#[test]
fn transpose_twice_restores() {
    let mut m = filled(2, 3, FloatType::Single);
    let before = traversal(&m);
    m.transpose();
    assert_eq!(m.num_rows(), 3);
    assert_eq!(m.num_cols(), 2);
    m.transpose();
    assert_eq!(m.num_rows(), 2);
    assert_eq!(m.num_cols(), 3);
    assert_eq!(traversal(&m), before);
    assert_eq!(m.header_bytes(), Dense::create(2, 3, FloatType::Single).unwrap().header_bytes());
}

fn assert_covers(m: &Dense, rows: usize, cols: usize) {
    let t = traversal(m);
    assert_eq!(t.len(), rows * cols);
    let mut seen = vec![vec![false; cols]; rows];
    for &(r, c, _) in &t {
        assert!(r < rows && c < cols);
        assert!(!seen[r][c]);
        seen[r][c] = true;
    }
    assert!(seen.iter().all(|row| row.iter().all(|&x| x)));
}

#[test]
fn traversal_visits_each_cell_once() {
    let m = Dense::create(3, 4, FloatType::Single).unwrap();
    assert_covers(&m, 3, 4);
    let one = Dense::create(1, 1, FloatType::Double).unwrap();
    assert_covers(&one, 1, 1);
    let col = Dense::create(5, 1, FloatType::Single).unwrap();
    assert_covers(&col, 5, 1);
}

#[test]
fn transposed_traversal_visits_each_cell_once() {
    let mut m = Dense::create(3, 4, FloatType::Double).unwrap();
    m.transpose();
    assert_covers(&m, 4, 3);
}

#[test]
fn write_then_read_round_trip() {
    let m = filled(3, 4, FloatType::Single);
    for (r, c, v) in traversal(&m) {
        assert_eq!(m.get(r as u64, c as u64), Some(v));
    }
    assert_eq!(m.get(1, 2), Some(6));
    assert_eq!(m.get(3, 0), None);
    assert_eq!(m.get(0, 4), None);

    let mut it = m.element_iter_mut();
    assert!(it.next());
    assert!(it.next());
    assert_eq!((it.get_row(), it.get_col(), it.get()), (0, 1, 1));
    it.set(42);
    assert_eq!(it.get(), 42);
    let m = it.into_matrix();
    assert_eq!(m.get(0, 1), Some(42));
    assert_eq!(traversal(&m)[1], (0, 1, 42));
}

#[test]
fn transpose_reports_swapped_coordinates() {
    let mut m = filled(2, 3, FloatType::Single);
    assert_eq!(
        traversal(&m),
        vec![(0, 0, 0), (0, 1, 1), (0, 2, 2), (1, 0, 3), (1, 1, 4), (1, 2, 5)]
    );
    m.transpose();
    assert_eq!(m.num_rows(), 3);
    assert_eq!(m.num_cols(), 2);
    assert_eq!(
        traversal(&m),
        vec![(0, 0, 0), (1, 0, 1), (2, 0, 2), (0, 1, 3), (1, 1, 4), (2, 1, 5)]
    );
    assert_eq!(m.get(2, 0), Some(2));
    assert_eq!(m.get(0, 1), Some(3));
}

#[test]
fn fill_in_order_after_transpose() {
    let mut m = Dense::create(2, 3, FloatType::Double).unwrap();
    m.transpose();
    m.fill_in_order(&vec![10, 11, 12, 13, 14, 15]);
    assert_eq!(m.get(0, 0), Some(10));
    assert_eq!(m.get(1, 0), Some(11));
    assert_eq!(m.get(0, 1), Some(13));
    let t = traversal(&m);
    assert_eq!(t[4], (1, 1, 14));
}

#[test]
fn exhausted_traversal_stays_exhausted() {
    let m = Dense::create(1, 2, FloatType::Single).unwrap();
    let mut it = m.element_iter();
    assert_eq!(it.next(), Some(0));
    assert_eq!(it.next(), Some(0));
    assert_eq!(it.next(), None);
    assert_eq!(it.next(), None);
}

#[test]
fn generator_with_padded_stride() {
    let mut g = ElementIterCommon::new(2, 2, 3, false);
    let mut out = Vec::new();
    while let Some(i) = g.next_index() {
        out.push((i, g.get_row(), g.get_col()));
    }
    assert_eq!(out, vec![(0, 0, 0), (1, 0, 1), (3, 1, 0), (4, 1, 1)]);
    assert_eq!(g.next_index(), None);
}

#[test]
fn generator_transposed_coordinates() {
    let mut g = ElementIterCommon::new(2, 3, 3, true);
    let mut out = Vec::new();
    while let Some(i) = g.next_index() {
        out.push((i, g.get_row(), g.get_col()));
    }
    assert_eq!(out, vec![(0, 0, 0), (1, 1, 0), (2, 2, 0), (3, 0, 1), (4, 1, 1), (5, 2, 1)]);
}

#[test]
fn generator_empty_walk() {
    let mut g = ElementIterCommon::new(3, 0, 0, false);
    assert_eq!(g.next_index(), None);
    let mut h = ElementIterCommon::new(0, 4, 4, false);
    assert_eq!(h.next_index(), None);
}

#[test]
fn generator_coordinates_before_and_after_walk() {
    let mut g = ElementIterCommon::new(2, 3, 3, true);
    assert_eq!((g.get_row(), g.get_col()), (0, 0));
    while g.next_index().is_some() {}
    assert_eq!((g.get_row(), g.get_col()), (0, 2));
}
