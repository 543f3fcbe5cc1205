//! The persisted 64-byte header record that sits at offset 0 of a matrix file.
use vstd::prelude::*;
use crate::dtype::FloatType;

verus! {

/// Size in bytes of the header; the element region starts right after it.
pub const HEADER_SIZE: u64 = 64;

/// Format identifier written at offset 0 ("OOCMATRX" read as little-endian).
pub const MAGIC: u64 = 0x5852_5441_4d43_4f4f;

/// The `n` little-endian bytes of `v` (higher bytes beyond `n` are dropped).
pub open spec fn le_bytes(v: nat, n: nat) -> Seq<u8>
    decreases n,
{
    if n == 0 {
        Seq::empty()
    } else {
        seq![(v % 256) as u8] + le_bytes(v / 256, (n - 1) as nat)
    }
}

/// Exact byte length of a file holding a `rows` x `cols` matrix of `repr` elements.
pub open spec fn file_length(rows: nat, cols: nat, repr: FloatType) -> nat {
    HEADER_SIZE as nat + rows * cols * repr.width()
}

/// Header record: shape as currently oriented, element kind, stride and orientation.
#[derive(Clone, Copy, Debug, PartialEq, Eq, Structural)]
pub struct MatrixHeader {
    pub magic: u64,
    pub num_rows: u64,
    pub num_cols: u64,
    pub representation: FloatType,
    /// Distance, in elements, between successive major-axis slices.
    pub lda: u64,
    pub transposed: bool,
}

impl MatrixHeader {
    /// Extent of the outer (strided) axis of the physical layout.
    pub open spec fn major_size(self) -> nat {
        if self.transposed {
            self.num_cols as nat
        } else {
            self.num_rows as nat
        }
    }

    /// Extent of the inner (contiguous) axis of the physical layout.
    pub open spec fn minor_size(self) -> nat {
        if self.transposed {
            self.num_rows as nat
        } else {
            self.num_cols as nat
        }
    }

    /// Number of elements in the data region.
    pub open spec fn num_elements(self) -> nat {
        (self.num_rows * self.num_cols) as nat
    }

    /// A header as creation installs it, possibly transposed since: no padding
    /// between slices, and the whole file length and element count fit the
    /// machine's integers. The magic number is not checked.
    pub open spec fn wf(self) -> bool {
        &&& self.lda as nat == self.minor_size()
        &&& file_length(self.num_rows as nat, self.num_cols as nat, self.representation) <= u64::MAX
        &&& self.num_elements() <= usize::MAX
    }

    /// The 64 bytes that represent this header on disk.
    pub open spec fn encoded(self) -> Seq<u8> {
        le_bytes(self.magic as nat, 8) + le_bytes(self.num_rows as nat, 8) + le_bytes(
            self.num_cols as nat,
            8,
        ) + le_bytes(self.representation.tag() as nat, 8) + le_bytes(self.lda as nat, 8) + seq![
            if self.transposed {
                1u8
            } else {
                0u8
            },
        ] + Seq::new(23, |i: int| 0u8)
    }

    /// Exact file length for the given shape and representation, or `None`
    /// when it does not fit in a `u64` or the element count not in a `usize`.
    pub fn compute_length(rows: u64, cols: u64, repr: FloatType) -> (r: Option<u64>)
        ensures
            r matches Some(n) ==> n == file_length(rows as nat, cols as nat, repr),
            r is Some <==> (file_length(rows as nat, cols as nat, repr) <= u64::MAX && rows * cols
                <= usize::MAX),
    {
        let width = repr.get_width() as u64;
        let elems = match rows.checked_mul(cols) {
            Some(n) => n,
            None => {
                assert(rows * cols > u64::MAX);
                assert(rows * cols * repr.width() >= rows * cols) by (nonlinear_arith)
                    requires
                        repr.width() >= 1,
                ;
                return None;
            },
        };
        if elems as u128 > usize::MAX as u128 {
            return None;
        }
        let bytes = match elems.checked_mul(width) {
            Some(n) => n,
            None => {
                return None;
            },
        };
        if bytes > u64::MAX - HEADER_SIZE {
            return None;
        }
        Some(HEADER_SIZE + bytes)
    }

    pub open spec fn new_spec(rows: u64, cols: u64, representation: FloatType) -> MatrixHeader {
        MatrixHeader {
            magic: MAGIC,
            num_rows: rows,
            num_cols: cols,
            representation,
            lda: cols,
            transposed: false,
        }
    }

    /// The same header with rows and columns swapped and the flag toggled.
    pub open spec fn transposed_spec(self) -> MatrixHeader {
        MatrixHeader {
            num_rows: self.num_cols,
            num_cols: self.num_rows,
            transposed: !self.transposed,
            ..self
        }
    }

    /// A fresh header for a `rows` x `cols` matrix, not transposed.
    pub fn new(rows: u64, cols: u64, representation: FloatType) -> (r: MatrixHeader)
        requires
            file_length(rows as nat, cols as nat, representation) <= u64::MAX,
            rows * cols <= usize::MAX,
        ensures
            r.wf(),
            r == Self::new_spec(rows, cols, representation),
    {
        MatrixHeader {
            magic: MAGIC,
            num_rows: rows,
            num_cols: cols,
            representation,
            lda: cols,
            transposed: false,
        }
    }

    /// Swaps the meaning of rows and columns; no element moves.
    pub fn transpose(&mut self)
        requires
            old(self).wf(),
        ensures
            final(self).wf(),
            *final(self) == old(self).transposed_spec(),
    {
        self.transposed = !self.transposed;
        let rows = self.num_rows;
        self.num_rows = self.num_cols;
        self.num_cols = rows;
        assert(self.num_rows * self.num_cols == self.num_cols * self.num_rows) by (nonlinear_arith);
    }

    /// Number of elements spanned by the data region: the stride times the
    /// number of major-axis slices.
    pub fn get_data_length_elements(&self) -> (r: u64)
        requires
            self.wf(),
        ensures
            r == self.num_elements(),
    {
        let major = if self.transposed {
            self.num_cols
        } else {
            self.num_rows
        };
        assert(self.lda * major == self.num_elements()) by (nonlinear_arith)
            requires
                self.transposed ==> (self.lda == self.num_rows && major == self.num_cols),
                !self.transposed ==> (self.lda == self.num_cols && major == self.num_rows),
        ;
        assert(self.num_elements() <= u64::MAX) by (nonlinear_arith)
            requires
                HEADER_SIZE + self.num_elements() * self.representation.width() <= u64::MAX,
                self.representation.width() >= 1,
        ;
        self.lda * major
    }

    /// Exact byte length of the file holding this matrix, derived afresh from
    /// the current dimensions and representation.
    pub fn data_file_length(&self) -> (r: u64)
        requires
            self.wf(),
        ensures
            r == file_length(self.num_rows as nat, self.num_cols as nat, self.representation),
    {
        let elems = self.get_data_length_elements();
        let width = self.representation.get_width() as u64;
        assert(elems * width <= u64::MAX - HEADER_SIZE);
        HEADER_SIZE + elems * width
    }

    /// The header's on-disk bytes.
    pub fn encode(&self) -> (r: Vec<u8>)
        ensures
            r@ == self.encoded(),
            r@.len() == HEADER_SIZE,
    {
        let mut out: Vec<u8> = Vec::new();
        push_le_u64(&mut out, self.magic);
        push_le_u64(&mut out, self.num_rows);
        push_le_u64(&mut out, self.num_cols);
        push_le_u64(&mut out, self.representation.get_tag() as u64);
        push_le_u64(&mut out, self.lda);
        out.push(if self.transposed { 1u8 } else { 0u8 });
        let ghost prefix = out@;
        let mut k: usize = 0;
        while k < 23
            invariant
                k <= 23,
                out@ == prefix + Seq::new(k as nat, |i: int| 0u8),
            decreases 23 - k,
        {
            out.push(0u8);
            k = k + 1;
            assert(out@ =~= prefix + Seq::new(k as nat, |i: int| 0u8));
        }
        proof {
            lemma_le_bytes_len(self.magic as nat, 8);
            lemma_le_bytes_len(self.num_rows as nat, 8);
            lemma_le_bytes_len(self.num_cols as nat, 8);
            lemma_le_bytes_len(self.representation.tag() as nat, 8);
            lemma_le_bytes_len(self.lda as nat, 8);
        }
        assert(out@ =~= self.encoded());
        out
    }
}

/// `le_bytes` yields exactly `n` bytes.
pub proof fn lemma_le_bytes_len(v: nat, n: nat)
    ensures
        le_bytes(v, n).len() == n,
    decreases n,
{
    if n > 0 {
        lemma_le_bytes_len(v / 256, (n - 1) as nat);
    }
}

/// Appends the eight little-endian bytes of `v`.
fn push_le_u64(out: &mut Vec<u8>, v: u64)
    ensures
        final(out)@ == old(out)@ + le_bytes(v as nat, 8),
{
    let ghost start = out@;
    let mut x: u64 = v;
    let mut i: usize = 0;
    while i < 8
        invariant
            i <= 8,
            out@ + le_bytes(x as nat, (8 - i) as nat) == start + le_bytes(v as nat, 8),
        decreases 8 - i,
    {
        let ghost before = out@;
        out.push((x % 256) as u8);
        assert(le_bytes(x as nat, (8 - i) as nat) == seq![(x % 256) as u8] + le_bytes(
            (x / 256) as nat,
            (8 - i - 1) as nat,
        ));
        assert(out@ + le_bytes((x / 256) as nat, (8 - i - 1) as nat) =~= before + le_bytes(
            x as nat,
            (8 - i) as nat,
        ));
        x = x / 256;
        i = i + 1;
    }
    assert(le_bytes(x as nat, 0) =~= Seq::<u8>::empty());
    assert(out@ =~= start + le_bytes(v as nat, 8));
}

} // verus!
