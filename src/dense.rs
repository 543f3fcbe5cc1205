//! A matrix held as one header plus a physical row-major element region, with
//! read-only and mutable traversals in storage order.
use vstd::prelude::*;
use crate::dtype::{FloatType, SupportedType};
use crate::header::{file_length, MatrixHeader, HEADER_SIZE};
use crate::index::{coords_of, offset_of, ElementIterCommon};

verus! {

/// Why a matrix could not be created.
#[derive(Clone, Copy, Debug, PartialEq, Eq, Structural)]
pub enum MatrixError {
    /// One of the dimensions is zero.
    ZeroDimension,
    /// The file length or the element count does not fit the machine's integers.
    LengthOverflow,
}

/// A matrix of floating-point elements, kept as their bit patterns.
///
/// The element region is stored physically row-major as created; `transpose`
/// only changes how rows and columns are read from it.
pub struct Dense {
    header: MatrixHeader,
    data: Vec<u64>,
}

/// Position in the element region of the logical element (r, c).
pub open spec fn physical_index(h: MatrixHeader, r: int, c: int) -> int {
    if h.transposed {
        c * h.lda + r
    } else {
        r * h.lda + c
    }
}

/// A position `k` of the storage-order walk is the element at `k` itself.
pub proof fn lemma_offset_is_position(k: int, minor_size: nat)
    requires
        minor_size > 0,
        0 <= k,
    ensures
        offset_of(k, minor_size, minor_size) == k,
{
    vstd::arithmetic::div_mod::lemma_fundamental_div_mod(k, minor_size as int);
    assert((k / minor_size as int) * minor_size == minor_size * (k / minor_size as int))
        by (nonlinear_arith);
}

impl Dense {
    pub closed spec fn header(self) -> MatrixHeader {
        self.header
    }

    /// The element bit patterns in storage order.
    pub closed spec fn elements(self) -> Seq<u64> {
        self.data@
    }

    pub open spec fn wf(self) -> bool {
        &&& self.header().wf()
        &&& self.header().num_rows > 0
        &&& self.header().num_cols > 0
        &&& self.elements().len() == self.header().num_elements()
        &&& forall|i: int|
            0 <= i < self.elements().len() ==> self.header().representation.fits_bits(
                #[trigger] self.elements()[i],
            )
    }

    /// The element at logical row `r`, column `c` in the current orientation.
    pub open spec fn value_at(self, r: int, c: int) -> u64 {
        self.elements()[physical_index(self.header(), r, c)]
    }

    /// Allocates a zero-filled `rows` x `cols` matrix of `representation`
    /// elements, with a fresh header.
    pub fn create(rows: u64, cols: u64, representation: FloatType) -> (r: Result<Dense, MatrixError>)
        ensures
            r matches Err(e) ==> e == (if rows == 0 || cols == 0 {
                MatrixError::ZeroDimension
            } else {
                MatrixError::LengthOverflow
            }),
            r is Ok <==> (rows > 0 && cols > 0 && file_length(rows as nat, cols as nat, representation)
                <= u64::MAX && rows * cols <= usize::MAX),
            r matches Ok(m) ==> {
                &&& m.wf()
                &&& m.header() == MatrixHeader::new_spec(rows, cols, representation)
                &&& m.elements() == Seq::new((rows * cols) as nat, |i: int| 0u64)
            },
    {
        if rows == 0 || cols == 0 {
            return Err(MatrixError::ZeroDimension);
        }
        if MatrixHeader::compute_length(rows, cols, representation).is_none() {
            return Err(MatrixError::LengthOverflow);
        }
        let header = MatrixHeader::new(rows, cols, representation);
        let n = header.get_data_length_elements() as usize;
        let mut data: Vec<u64> = Vec::new();
        let mut i: usize = 0;
        while i < n
            invariant
                i <= n,
                data@ == Seq::new(i as nat, |j: int| 0u64),
            decreases n - i,
        {
            data.push(0u64);
            i = i + 1;
            assert(data@ =~= Seq::new(i as nat, |j: int| 0u64));
        }
        Ok(Dense { header, data })
    }

    /// `create` with the representation named by the element kind `T`.
    pub fn create_typed<T: SupportedType>(rows: u64, cols: u64) -> (r: Result<Dense, MatrixError>)
        ensures
            r matches Err(e) ==> e == (if rows == 0 || cols == 0 {
                MatrixError::ZeroDimension
            } else {
                MatrixError::LengthOverflow
            }),
            r is Ok <==> (rows > 0 && cols > 0 && file_length(rows as nat, cols as nat, T::float_type())
                <= u64::MAX && rows * cols <= usize::MAX),
            r matches Ok(m) ==> {
                &&& m.wf()
                &&& m.header() == MatrixHeader::new_spec(rows, cols, T::float_type())
                &&& m.elements() == Seq::new((rows * cols) as nat, |i: int| 0u64)
            },
    {
        Dense::create(rows, cols, T::get_float_type())
    }

    pub fn num_rows(&self) -> (r: u64)
        ensures
            r == self.header().num_rows,
    {
        self.header.num_rows
    }

    pub fn num_cols(&self) -> (r: u64)
        ensures
            r == self.header().num_cols,
    {
        self.header.num_cols
    }

    pub fn representation(&self) -> (r: FloatType)
        ensures
            r == self.header().representation,
    {
        self.header.representation
    }

    /// Swaps rows and columns in constant time; no element moves.
    pub fn transpose(&mut self)
        requires
            old(self).wf(),
        ensures
            final(self).wf(),
            final(self).header() == old(self).header().transposed_spec(),
            final(self).elements() == old(self).elements(),
    {
        self.header.transpose();
        assert(self.header.num_rows * self.header.num_cols == self.header.num_cols
            * self.header.num_rows) by (nonlinear_arith);
    }

    /// Exact byte length of the backing file: the header plus every element,
    /// derived from the current header.
    pub fn byte_length(&self) -> (r: u64)
        requires
            self.wf(),
        ensures
            r == file_length(
                self.header().num_rows as nat,
                self.header().num_cols as nat,
                self.header().representation,
            ),
    {
        self.header.data_file_length()
    }

    /// The 64 bytes of the header as stored at the start of the file.
    pub fn header_bytes(&self) -> (r: Vec<u8>)
        ensures
            r@ == self.header().encoded(),
    {
        self.header.encode()
    }

    /// Byte offset in the file of the element at storage position `index`.
    pub fn element_byte_offset(&self, index: usize) -> (r: u64)
        requires
            self.wf(),
            index < self.elements().len(),
        ensures
            r == HEADER_SIZE + index * self.header().representation.width(),
    {
        let width = self.header.representation.get_width() as u64;
        assert(index * width < self.header.num_elements() * width) by (nonlinear_arith)
            requires
                index < self.header.num_elements(),
                width > 0,
        ;
        HEADER_SIZE + index as u64 * width
    }

    /// The element at logical row `row`, column `col`, or `None` outside the
    /// matrix.
    pub fn get(&self, row: u64, col: u64) -> (r: Option<u64>)
        requires
            self.wf(),
        ensures
            r is Some <==> (row < self.header().num_rows && col < self.header().num_cols),
            r matches Some(v) ==> v == self.value_at(row as int, col as int),
    {
        if row >= self.header.num_rows || col >= self.header.num_cols {
            return None;
        }
        let (major, minor) = if self.header.transposed {
            (col, row)
        } else {
            (row, col)
        };
        proof {
            let h = self.header;
            assert(major * h.lda + minor < h.major_size() * h.lda) by (nonlinear_arith)
                requires
                    major + 1 <= h.major_size(),
                    minor < h.lda,
            ;
            assert(h.major_size() * h.lda == h.num_elements()) by (nonlinear_arith)
                requires
                    h.lda == h.minor_size(),
                    h.major_size() * h.minor_size() == h.num_rows * h.num_cols || h.major_size()
                        * h.minor_size() == h.num_cols * h.num_rows,
                    h.num_rows * h.num_cols == h.num_cols * h.num_rows,
            ;
        }
        Some(self.data[(major * self.header.lda + minor) as usize])
    }

    /// A read-only traversal of every element in storage order.
    pub fn element_iter<'a>(&'a self) -> (r: ElementIter<'a>)
        requires
            self.wf(),
        ensures
            r.wf(),
            r.matrix() == *self,
            r.position() == -1,
    {
        let generator = self.create_index_generator();
        ElementIter { generator, matrix: self }
    }

    /// A traversal that may overwrite every element in storage order; it holds
    /// the matrix until `into_matrix` hands it back.
    pub fn element_iter_mut(self) -> (r: ElementIterMut)
        requires
            self.wf(),
        ensures
            r.wf(),
            r.matrix() == self,
            r.position() == -1,
    {
        let generator = self.create_index_generator();
        ElementIterMut { generator, matrix: self }
    }

    /// Writes `values[k]` into the `k`-th element of the traversal order.
    pub fn fill_in_order(&mut self, values: &Vec<u64>)
        requires
            old(self).wf(),
            values@.len() == old(self).elements().len(),
            forall|k: int|
                0 <= k < values@.len() ==> old(self).header().representation.fits_bits(
                    #[trigger] values@[k],
                ),
        ensures
            final(self).wf(),
            final(self).header() == old(self).header(),
            final(self).elements() == values@,
            forall|k: int|
                #![trigger values@[k]]
                0 <= k < values@.len() ==> {
                    let (r, c) = coords_of(
                        k,
                        final(self).header().minor_size(),
                        final(self).header().transposed,
                    );
                    final(self).value_at(r, c) == values@[k]
                },
    {
        let mut g = self.create_index_generator();
        let n = self.data.len();
        let ghost h = self.header;
        proof {
            lemma_walk_total(h);
        }
        let mut k: usize = 0;
        while k < n
            invariant
                g.wf(),
                self.header == h,
                self.wf(),
                h.major_size() * h.minor_size() == n,
                g.major_size() == h.major_size(),
                g.minor_size() == h.minor_size(),
                g.lda() == h.lda,
                h.lda == h.minor_size(),
                g.transposed() == h.transposed,
                n == self.data@.len(),
                values@.len() == n,
                forall|j: int| 0 <= j < n ==> h.representation.fits_bits(#[trigger] values@[j]),
                k <= n,
                g.position() == k - 1,
                forall|j: int| 0 <= j < k ==> #[trigger] self.data@[j] == values@[j],
            decreases n - k,
        {
            if let Some(i) = g.next_index() {
                proof {
                    lemma_offset_is_position(k as int, h.minor_size());
                }
                let ghost before = self.data@;
                self.data.set(i, values[i]);
                proof {
                    assert(h.representation.fits_bits(values@[i as int]));
                    assert forall|j: int| 0 <= j < self.data@.len() implies h.representation.fits_bits(
                        #[trigger] self.data@[j],
                    ) by {
                        if j != i {
                            assert(self.data@[j] == before[j]);
                        }
                    }
                }
            }
            k = k + 1;
        }
        assert(self.data@ =~= values@);
        proof {
            assert forall|k: int| #![trigger values@[k]] 0 <= k < values@.len() implies {
                let (r, c) = coords_of(k, h.minor_size(), h.transposed);
                self.value_at(r, c) == values@[k]
            } by {
                lemma_offset_is_position(k, h.minor_size());
            }
        }
    }

    /// A walk over the physical layout: the header's dimensions swapped back
    /// when transposed.
    fn create_index_generator(&self) -> (r: ElementIterCommon)
        requires
            self.wf(),
        ensures
            r.wf(),
            r.major_size() == self.header().major_size(),
            r.minor_size() == self.header().minor_size(),
            r.lda() == self.header().lda,
            r.transposed() == self.header().transposed,
            r.position() == -1,
    {
        let (major, minor) = if self.header.transposed {
            (self.header.num_cols, self.header.num_rows)
        } else {
            (self.header.num_rows, self.header.num_cols)
        };
        assert(major * minor == self.header.num_elements()) by (nonlinear_arith)
            requires
                (major == self.header.num_rows && minor == self.header.num_cols) || (major
                    == self.header.num_cols && minor == self.header.num_rows),
        ;
        assert(major <= usize::MAX && minor <= usize::MAX) by (nonlinear_arith)
            requires
                major * minor <= usize::MAX,
                major >= 1,
                minor >= 1,
        ;
        ElementIterCommon::new(
            major as usize,
            minor as usize,
            self.header.lda as usize,
            self.header.transposed,
        )
    }
}

} // verus!

verus! {

/// Read-only traversal of a matrix in storage order.
pub struct ElementIter<'a> {
    generator: ElementIterCommon,
    matrix: &'a Dense,
}

impl<'a> ElementIter<'a> {
    pub closed spec fn matrix(self) -> Dense {
        *self.matrix
    }

    pub closed spec fn generator(self) -> ElementIterCommon {
        self.generator
    }

    /// Index of the element last yielded (-1 before the first).
    pub open spec fn position(self) -> int {
        self.generator().position()
    }

    pub open spec fn wf(self) -> bool {
        &&& self.matrix().wf()
        &&& self.generator().wf()
        &&& self.generator().major_size() == self.matrix().header().major_size()
        &&& self.generator().minor_size() == self.matrix().header().minor_size()
        &&& self.generator().lda() == self.matrix().header().lda
        &&& self.generator().transposed() == self.matrix().header().transposed
    }

    /// Logical (row, col) of the `k`-th element of the traversal.
    pub open spec fn coords(self, k: int) -> (int, int) {
        coords_of(k, self.matrix().header().minor_size(), self.matrix().header().transposed)
    }

    /// The next element, or `None` once every element has been yielded.
    pub fn next(&mut self) -> (r: Option<u64>)
        requires
            old(self).wf(),
        ensures
            final(self).wf(),
            final(self).matrix() == old(self).matrix(),
            final(self).position() == if old(self).position() < old(self).matrix().elements().len() {
                old(self).position() + 1
            } else {
                old(self).matrix().elements().len() as int
            },
            0 <= final(self).position() <= final(self).matrix().elements().len(),
            r is Some <==> final(self).position() < final(self).matrix().elements().len(),
            r matches Some(v) ==> v == final(self).matrix().value_at(
                final(self).coords(final(self).position()).0,
                final(self).coords(final(self).position()).1,
            ),
    {
        proof {
            lemma_walk_total(self.matrix.header);
        }
        match self.generator.next_index() {
            None => None,
            Some(idx) => Some(self.matrix.data[idx]),
        }
    }

    /// Logical row of the element last yielded.
    pub fn get_row(&self) -> (r: usize)
        requires
            self.wf(),
        ensures
            0 <= self.position() < self.matrix().elements().len() ==> r == self.coords(
                self.position(),
            ).0,
    {
        proof {
            lemma_walk_total(self.matrix.header);
        }
        self.generator.get_row()
    }

    /// Logical column of the element last yielded.
    pub fn get_col(&self) -> (r: usize)
        requires
            self.wf(),
        ensures
            0 <= self.position() < self.matrix().elements().len() ==> r == self.coords(
                self.position(),
            ).1,
    {
        proof {
            lemma_walk_total(self.matrix.header);
        }
        self.generator.get_col()
    }
}

/// Traversal of a matrix in storage order that may overwrite each element.
pub struct ElementIterMut {
    generator: ElementIterCommon,
    matrix: Dense,
}

impl ElementIterMut {
    pub closed spec fn matrix(self) -> Dense {
        self.matrix
    }

    pub closed spec fn generator(self) -> ElementIterCommon {
        self.generator
    }

    /// Index of the current element (-1 before the first step).
    pub open spec fn position(self) -> int {
        self.generator().position()
    }

    /// Whether the traversal stands on an element.
    pub open spec fn on_element(self) -> bool {
        0 <= self.position() < self.matrix().elements().len()
    }

    pub open spec fn wf(self) -> bool {
        &&& self.matrix().wf()
        &&& self.generator().wf()
        &&& self.generator().major_size() == self.matrix().header().major_size()
        &&& self.generator().minor_size() == self.matrix().header().minor_size()
        &&& self.generator().lda() == self.matrix().header().lda
        &&& self.generator().transposed() == self.matrix().header().transposed
    }

    /// Logical (row, col) of the `k`-th element of the traversal.
    pub open spec fn coords(self, k: int) -> (int, int) {
        coords_of(k, self.matrix().header().minor_size(), self.matrix().header().transposed)
    }

    /// Steps to the next element; `false` once every element has been visited.
    pub fn next(&mut self) -> (r: bool)
        requires
            old(self).wf(),
        ensures
            final(self).wf(),
            final(self).matrix() == old(self).matrix(),
            final(self).position() == if old(self).position() < old(self).matrix().elements().len() {
                old(self).position() + 1
            } else {
                old(self).matrix().elements().len() as int
            },
            0 <= final(self).position() <= final(self).matrix().elements().len(),
            r == final(self).on_element(),
    {
        proof {
            lemma_walk_total(self.matrix.header);
        }
        let step = self.generator.next_index();
        assert(self.generator.total() == self.matrix.data@.len());
        match step {
            Some(_) => true,
            None => false,
        }
    }

    /// The current element.
    pub fn get(&self) -> (r: u64)
        requires
            self.wf(),
            self.on_element(),
        ensures
            r == self.matrix().value_at(self.coords(self.position()).0, self.coords(self.position()).1),
    {
        proof {
            lemma_walk_total(self.matrix.header);
            lemma_offset_is_position(self.position(), self.matrix.header.minor_size());
        }
        self.matrix.data[self.current_index()]
    }

    /// Overwrites the current element with `value`.
    pub fn set(&mut self, value: u64)
        requires
            old(self).wf(),
            old(self).on_element(),
            old(self).matrix().header().representation.fits_bits(value),
        ensures
            final(self).wf(),
            final(self).position() == old(self).position(),
            final(self).matrix().header() == old(self).matrix().header(),
            final(self).matrix().elements() == old(self).matrix().elements().update(
                offset_of(
                    old(self).position(),
                    old(self).matrix().header().minor_size(),
                    old(self).matrix().header().lda as nat,
                ),
                value,
            ),
    {
        proof {
            lemma_walk_total(self.matrix.header);
            lemma_offset_is_position(self.position(), self.matrix.header.minor_size());
        }
        let i = self.current_index();
        self.matrix.data.set(i, value);
    }

    /// Storage index of the current element.
    fn current_index(&self) -> (r: usize)
        requires
            self.wf(),
            self.on_element(),
        ensures
            r == self.position(),
    {
        proof {
            lemma_walk_total(self.matrix.header);
        }
        let row = self.generator.get_row();
        let col = self.generator.get_col();
        let (major, minor) = if self.matrix.header.transposed {
            (col, row)
        } else {
            (row, col)
        };
        proof {
            let m = self.matrix.header.minor_size() as int;
            let k = self.position();
            vstd::arithmetic::div_mod::lemma_fundamental_div_mod(k, m);
            assert(major * m + minor == k) by (nonlinear_arith)
                requires
                    major == k / m,
                    minor == k % m,
                    k == m * (k / m) + k % m,
            ;
            assert(m <= self.matrix.data@.len()) by (nonlinear_arith)
                requires
                    self.matrix.header.major_size() * m == self.matrix.data@.len(),
                    self.matrix.header.major_size() >= 1,
                    m >= 0,
            ;
        }
        major * self.matrix.header.lda as usize + minor
    }

    /// Logical row of the current element.
    pub fn get_row(&self) -> (r: usize)
        requires
            self.wf(),
        ensures
            self.on_element() ==> r == self.coords(self.position()).0,
    {
        proof {
            lemma_walk_total(self.matrix.header);
        }
        self.generator.get_row()
    }

    /// Logical column of the current element.
    pub fn get_col(&self) -> (r: usize)
        requires
            self.wf(),
        ensures
            self.on_element() ==> r == self.coords(self.position()).1,
    {
        proof {
            lemma_walk_total(self.matrix.header);
        }
        self.generator.get_col()
    }

    /// Ends the traversal and hands the matrix back.
    pub fn into_matrix(self) -> (r: Dense)
        ensures
            r == self.matrix(),
    {
        self.matrix
    }
}

/// The walk over a well-formed header visits as many positions as it has elements.
proof fn lemma_walk_total(h: MatrixHeader)
    requires
        h.wf(),
    ensures
        h.major_size() * h.minor_size() == h.num_elements(),
        h.major_size() * h.lda == h.num_elements(),
{
    assert(h.num_rows * h.num_cols == h.num_cols * h.num_rows) by (nonlinear_arith);
}

} // verus!
