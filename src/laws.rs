//! Properties that relate several operations on a matrix.
use vstd::prelude::*;
use crate::dense::{lemma_offset_is_position, Dense};
use crate::dtype::FloatType;
use crate::header::{file_length, MatrixHeader, HEADER_SIZE};
use crate::index::{
    coords_of, in_rectangle, lemma_traversal_covers_rectangle, offset_of, walk_cols, walk_rows,
};

verus! {

/// A freshly created matrix needs a file of exactly the header plus
/// rows x cols elements of the chosen width.
pub proof fn lemma_created_file_length(m: Dense, rows: u64, cols: u64, repr: FloatType)
    requires
        m.wf(),
        m.header() == MatrixHeader::new_spec(rows, cols, repr),
    ensures
        file_length(m.header().num_rows as nat, m.header().num_cols as nat, m.header().representation)
            == HEADER_SIZE + rows * cols * repr.width(),
{
}

/// Transposing leaves the file length unchanged, so the length derived from
/// the current header always covers the whole mapping.
pub proof fn lemma_length_survives_transpose(h: MatrixHeader)
    ensures
        file_length(
            h.transposed_spec().num_rows as nat,
            h.transposed_spec().num_cols as nat,
            h.transposed_spec().representation,
        ) == file_length(h.num_rows as nat, h.num_cols as nat, h.representation),
{
    assert(h.num_cols * h.num_rows == h.num_rows * h.num_cols) by (nonlinear_arith);
}

/// The header after `n` transposes.
pub open spec fn transposed_times(h: MatrixHeader, n: nat) -> MatrixHeader
    decreases n,
{
    if n == 0 {
        h
    } else {
        transposed_times(h, (n - 1) as nat).transposed_spec()
    }
}

/// However many transposes came between creation and teardown, the length
/// derived from the header at teardown is the length the file was created with.
pub proof fn lemma_length_survives_transposes(h: MatrixHeader, n: nat)
    ensures
        file_length(
            transposed_times(h, n).num_rows as nat,
            transposed_times(h, n).num_cols as nat,
            transposed_times(h, n).representation,
        ) == file_length(h.num_rows as nat, h.num_cols as nat, h.representation),
    decreases n,
{
    if n > 0 {
        lemma_length_survives_transposes(h, (n - 1) as nat);
        lemma_length_survives_transpose(transposed_times(h, (n - 1) as nat));
    }
}

/// Transposing twice restores the header, hence the dimensions and the
/// traversal order.
pub proof fn lemma_transpose_self_inverse(h: MatrixHeader)
    ensures
        h.transposed_spec().transposed_spec() == h,
{
}

/// A traversal of a matrix visits exactly rows x cols positions and reports
/// each (row, col) of the rectangle exactly once.
pub proof fn lemma_traversal_visits_each_cell_once(m: Dense)
    requires
        m.wf(),
    ensures
        m.elements().len() == m.header().num_rows * m.header().num_cols,
        forall|k: int|
            0 <= k < m.elements().len() ==> in_rectangle(
                #[trigger] coords_of(k, m.header().minor_size(), m.header().transposed).0,
                coords_of(k, m.header().minor_size(), m.header().transposed).1,
                m.header().num_rows as nat,
                m.header().num_cols as nat,
            ),
        forall|k1: int, k2: int|
            0 <= k1 < m.elements().len() && 0 <= k2 < m.elements().len() && #[trigger] coords_of(
                k1,
                m.header().minor_size(),
                m.header().transposed,
            ) == #[trigger] coords_of(k2, m.header().minor_size(), m.header().transposed) ==> k1
                == k2,
        forall|r: int, c: int|
            #[trigger] in_rectangle(r, c, m.header().num_rows as nat, m.header().num_cols as nat)
                ==> exists|k: int|
                0 <= k < m.elements().len() && #[trigger] coords_of(
                    k,
                    m.header().minor_size(),
                    m.header().transposed,
                ) == (r, c),
{
    let h = m.header();
    lemma_traversal_covers_rectangle(h.major_size(), h.minor_size(), h.transposed);
    assert(h.num_rows * h.num_cols == h.num_cols * h.num_rows) by (nonlinear_arith);
    assert(h.major_size() * h.minor_size() == m.elements().len());
    assert(walk_rows(h.major_size(), h.minor_size(), h.transposed) == h.num_rows);
    assert(walk_cols(h.major_size(), h.minor_size(), h.transposed) == h.num_cols);
}

/// Writing `v` at traversal position `k` and then reading the (row, col) that
/// position reports gives `v` back; every other position keeps its value.
pub proof fn lemma_write_then_read(m: Dense, written: Dense, k: int, v: u64)
    requires
        m.wf(),
        0 <= k < m.elements().len(),
        written.header() == m.header(),
        written.elements() == m.elements().update(
            offset_of(k, m.header().minor_size(), m.header().lda as nat),
            v,
        ),
    ensures
        ({
            let h = m.header();
            let (r, c) = coords_of(k, h.minor_size(), h.transposed);
            written.value_at(r, c) == v
        }),
        forall|j: int|
            #![trigger coords_of(j, m.header().minor_size(), m.header().transposed)]
            0 <= j < m.elements().len() && j != k ==> {
                let (r, c) = coords_of(j, m.header().minor_size(), m.header().transposed);
                written.value_at(r, c) == m.value_at(r, c)
            },
{
    let h = m.header();
    lemma_offset_is_position(k, h.minor_size());
    assert forall|j: int|
        #![trigger coords_of(j, m.header().minor_size(), m.header().transposed)]
        0 <= j < m.elements().len() && j != k implies {
        let (r, c) = coords_of(j, m.header().minor_size(), m.header().transposed);
        written.value_at(r, c) == m.value_at(r, c)
    } by {
        lemma_offset_is_position(j, h.minor_size());
    }
}

/// After a transpose the traversal yields the same elements in the same order,
/// each reported with its row and column swapped.
pub proof fn lemma_transpose_swaps_coordinates(m: Dense, t: Dense)
    requires
        m.wf(),
        t.header() == m.header().transposed_spec(),
        t.elements() == m.elements(),
    ensures
        t.header().num_rows == m.header().num_cols,
        t.header().num_cols == m.header().num_rows,
        forall|k: int|
            #![trigger coords_of(k, m.header().minor_size(), m.header().transposed)]
            0 <= k < m.elements().len() ==> {
                let (r, c) = coords_of(k, m.header().minor_size(), m.header().transposed);
                &&& coords_of(k, t.header().minor_size(), t.header().transposed) == (c, r)
                &&& t.value_at(c, r) == m.value_at(r, c)
                &&& m.value_at(r, c) == m.elements()[k]
            },
{
    let h = m.header();
    assert forall|k: int|
        #![trigger coords_of(k, m.header().minor_size(), m.header().transposed)]
        0 <= k < m.elements().len() implies {
        let (r, c) = coords_of(k, m.header().minor_size(), m.header().transposed);
        &&& coords_of(k, t.header().minor_size(), t.header().transposed) == (c, r)
        &&& t.value_at(c, r) == m.value_at(r, c)
        &&& m.value_at(r, c) == m.elements()[k]
    } by {
        lemma_offset_is_position(k, h.minor_size());
    }
}

} // verus!
