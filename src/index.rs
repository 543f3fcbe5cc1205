//! The strided index generator: walks (major, minor) coordinates and turns
//! them into linear element offsets, aware of the transpose flag.
use vstd::prelude::*;
use vstd::arithmetic::div_mod::lemma_fundamental_div_mod_converse;

verus! {

/// Coordinate walk over a matrix stored with `major_size` slices of
/// `minor_size` contiguous elements, `lda` elements apart.
pub struct ElementIterCommon {
    major_size: usize,
    minor_size: usize,
    major_index: usize,
    major_offset: usize,
    minor_offset: usize,
    lda: usize,
    transposed: bool,
    started: bool,
}

/// Linear offset of the `k`-th position of the walk.
pub open spec fn offset_of(k: int, minor_size: nat, lda: nat) -> int {
    (k / minor_size as int) * lda + k % minor_size as int
}

/// Logical (row, col) of the `k`-th position of the walk.
pub open spec fn coords_of(k: int, minor_size: nat, transposed: bool) -> (int, int) {
    let major = k / minor_size as int;
    let minor = k % minor_size as int;
    if transposed {
        (minor, major)
    } else {
        (major, minor)
    }
}

/// Whether (r, c) lies in a `rows` x `cols` rectangle.
pub open spec fn in_rectangle(r: int, c: int, rows: nat, cols: nat) -> bool {
    0 <= r < rows && 0 <= c < cols
}

/// Logical row count of a walk: the physical extents swapped back when transposed.
pub open spec fn walk_rows(major_size: nat, minor_size: nat, transposed: bool) -> nat {
    if transposed {
        minor_size
    } else {
        major_size
    }
}

/// Logical column count of a walk.
pub open spec fn walk_cols(major_size: nat, minor_size: nat, transposed: bool) -> nat {
    if transposed {
        major_size
    } else {
        minor_size
    }
}

/// A walk over `major_size` slices of `minor_size` elements reports every
/// logical (row, col) of the rectangle exactly once: every reported pair lies in
/// the rectangle, no two positions report the same pair, and every pair of the
/// rectangle is reported by some position.
pub proof fn lemma_traversal_covers_rectangle(major_size: nat, minor_size: nat, transposed: bool)
    ensures
        major_size * minor_size == walk_rows(major_size, minor_size, transposed) * walk_cols(
            major_size,
            minor_size,
            transposed,
        ),
        forall|k: int|
            0 <= k < major_size * minor_size ==> in_rectangle(
                #[trigger] coords_of(k, minor_size, transposed).0,
                coords_of(k, minor_size, transposed).1,
                walk_rows(major_size, minor_size, transposed),
                walk_cols(major_size, minor_size, transposed),
            ),
        forall|k1: int, k2: int|
            0 <= k1 < major_size * minor_size && 0 <= k2 < major_size * minor_size
                && #[trigger] coords_of(k1, minor_size, transposed) == #[trigger] coords_of(
                k2,
                minor_size,
                transposed,
            ) ==> k1 == k2,
        forall|r: int, c: int|
            #[trigger] in_rectangle(
                r,
                c,
                walk_rows(major_size, minor_size, transposed),
                walk_cols(major_size, minor_size, transposed),
            ) ==> exists|k: int|
                0 <= k < major_size * minor_size && #[trigger] coords_of(k, minor_size, transposed)
                    == (r, c),
{
    let total = major_size * minor_size;
    let rows = walk_rows(major_size, minor_size, transposed);
    let cols = walk_cols(major_size, minor_size, transposed);
    assert(total == rows * cols) by (nonlinear_arith)
        requires
            rows == major_size && cols == minor_size || rows == minor_size && cols == major_size,
            total == major_size * minor_size,
    ;
    assert forall|k: int| 0 <= k < total implies in_rectangle(
        #[trigger] coords_of(k, minor_size, transposed).0,
        coords_of(k, minor_size, transposed).1,
        rows,
        cols,
    ) by {
        lemma_split(k, major_size, minor_size);
    }
    assert forall|k1: int, k2: int|
        0 <= k1 < total && 0 <= k2 < total && #[trigger] coords_of(k1, minor_size, transposed)
            == #[trigger] coords_of(k2, minor_size, transposed) implies k1 == k2 by {
        lemma_split(k1, major_size, minor_size);
        lemma_split(k2, major_size, minor_size);
    }
    assert forall|r: int, c: int| #[trigger] in_rectangle(r, c, rows, cols) implies exists|k: int|
        0 <= k < total && #[trigger] coords_of(k, minor_size, transposed) == (r, c) by {
        let (a, b) = if transposed { (c, r) } else { (r, c) };
        let k = a * minor_size + b;
        lemma_fundamental_div_mod_converse(k, minor_size as int, a, b);
        assert(k < total) by (nonlinear_arith)
            requires
                k == a * minor_size + b,
                0 <= a < major_size,
                0 <= b < minor_size,
                total == major_size * minor_size,
        ;
        assert(coords_of(k, minor_size, transposed) == (r, c));
    }
}

/// A position inside the walk splits into a slice index and an offset in it.
proof fn lemma_split(k: int, major_size: nat, minor_size: nat)
    requires
        0 <= k < major_size * minor_size,
    ensures
        minor_size > 0,
        0 <= k / (minor_size as int) < major_size,
        0 <= k % (minor_size as int) < minor_size,
        k == (k / minor_size as int) * minor_size + k % minor_size as int,
{
    if minor_size == 0 {
        assert(major_size * minor_size == 0);
    }
    let q = k / minor_size as int;
    let m = minor_size as int;
    assert(k == q * m + k % m && 0 <= k % m < m) by {
        vstd::arithmetic::div_mod::lemma_fundamental_div_mod(k, m);
        vstd::arithmetic::div_mod::lemma_mod_bound(k, m);
    }
    assert(0 <= q < major_size) by (nonlinear_arith)
        requires
            k == q * m + k % m,
            0 <= k % m < m,
            0 <= k < major_size * m,
    ;
}

impl ElementIterCommon {
    pub closed spec fn major_size(self) -> nat {
        self.major_size as nat
    }

    pub closed spec fn minor_size(self) -> nat {
        self.minor_size as nat
    }

    pub closed spec fn lda(self) -> nat {
        self.lda as nat
    }

    pub closed spec fn transposed(self) -> bool {
        self.transposed
    }

    /// Index of the current major-axis slice.
    pub closed spec fn major_index(self) -> nat {
        self.major_index as nat
    }

    /// Offset of the current element inside its slice.
    pub closed spec fn minor_offset(self) -> nat {
        self.minor_offset as nat
    }

    /// Number of positions the walk visits.
    pub open spec fn total(self) -> nat {
        self.major_size() * self.minor_size()
    }

    /// Index of the position last emitted: -1 before the first step, `total()`
    /// once the walk is exhausted.
    pub closed spec fn position(self) -> int {
        if !self.started {
            -1
        } else {
            self.major_index * self.minor_size + self.minor_offset
        }
    }

    pub closed spec fn wf(self) -> bool {
        &&& self.minor_size <= self.lda
        &&& self.major_size * self.lda <= usize::MAX
        &&& self.major_index <= self.major_size
        &&& self.major_offset == self.major_index * self.lda
        &&& (self.minor_offset < self.minor_size || self.minor_offset == 0)
        &&& (self.major_index == self.major_size ==> self.minor_offset == 0)
        &&& (!self.started ==> self.major_index == 0 && self.minor_offset == 0)
        &&& (self.started && self.minor_size == 0 ==> self.major_index == self.major_size)
    }

    /// A well-formed walk stands between "nothing emitted yet" and "exhausted".
    pub proof fn lemma_position_bounds(self)
        requires
            self.wf(),
        ensures
            -1 <= self.position() <= self.total(),
    {
        self.lemma_position();
    }

    proof fn lemma_position(self)
        requires
            self.wf(),
        ensures
            -1 <= self.position() <= self.total(),
            self.started ==> (self.position() < self.total() <==> (self.minor_size > 0
                && self.major_index < self.major_size)),
            0 <= self.position() < self.total() ==> {
                &&& self.minor_size > 0
                &&& self.major_index == self.position() / self.minor_size as int
                &&& self.minor_offset == self.position() % self.minor_size as int
            },
    {
        if self.started {
            if self.minor_size > 0 {
                let k = self.major_index * self.minor_size + self.minor_offset;
                lemma_fundamental_div_mod_converse(
                    k,
                    self.minor_size as int,
                    self.major_index as int,
                    self.minor_offset as int,
                );
                if self.major_index < self.major_size {
                    assert(k < self.total()) by (nonlinear_arith)
                        requires
                            k == self.major_index * self.minor_size + self.minor_offset,
                            self.minor_offset < self.minor_size,
                            self.major_index + 1 <= self.major_size,
                    ;
                } else {
                    assert(k == self.total());
                }
                assert(self.major_index * self.minor_size <= self.major_size * self.minor_size)
                    by (nonlinear_arith)
                    requires
                        self.major_index <= self.major_size,
                ;
            } else {
                assert(self.total() == 0) by (nonlinear_arith)
                    requires
                        self.minor_size == 0,
                        self.total() == self.major_size() * self.minor_size(),
                ;
            }
        }
    }

    /// A walk that has emitted nothing yet.
    pub fn new(major_size: usize, minor_size: usize, lda: usize, transposed: bool) -> (r: Self)
        requires
            minor_size <= lda,
            major_size * lda <= usize::MAX,
        ensures
            r.wf(),
            r.major_size() == major_size,
            r.minor_size() == minor_size,
            r.lda() == lda,
            r.transposed() == transposed,
            r.position() == -1,
    {
        ElementIterCommon {
            major_size,
            minor_size,
            major_index: 0,
            major_offset: 0,
            minor_offset: 0,
            lda,
            transposed,
            started: false,
        }
    }

    /// Steps to the next position and returns its linear offset, or `None`
    /// once all `total()` positions have been emitted.
    pub fn next_index(&mut self) -> (r: Option<usize>)
        requires
            old(self).wf(),
        ensures
            final(self).wf(),
            final(self).major_size() == old(self).major_size(),
            final(self).minor_size() == old(self).minor_size(),
            final(self).lda() == old(self).lda(),
            final(self).transposed() == old(self).transposed(),
            final(self).position() == if old(self).position() < old(self).total() {
                old(self).position() + 1
            } else {
                old(self).total() as int
            },
            0 <= final(self).position() <= final(self).total(),
            r is Some <==> final(self).position() < final(self).total(),
            r matches Some(i) ==> i == offset_of(
                final(self).position(),
                final(self).minor_size(),
                final(self).lda(),
            ),
            r matches Some(i) ==> i < final(self).major_size() * final(self).lda(),
    {
        proof {
            self.lemma_position();
        }
        let ghost prev = *self;
        if !self.started {
            self.started = true;
            if self.minor_size == 0 {
                self.major_index = self.major_size;
                self.major_offset = self.major_size * self.lda;
            }
            assert(self.major_index * self.minor_size == 0) by (nonlinear_arith)
                requires
                    self.major_index == 0 || self.minor_size == 0,
            ;
            assert(self.position() == 0);
        } else if self.major_index < self.major_size {
            if self.minor_offset + 1 < self.minor_size {
                self.minor_offset = self.minor_offset + 1;
                assert(self.position() == prev.position() + 1);
            } else {
                assert((self.major_index + 1) * self.minor_size == self.major_index
                    * self.minor_size + self.minor_size) by (nonlinear_arith);
                assert((self.major_index + 1) * self.lda <= self.major_size * self.lda)
                    by (nonlinear_arith)
                    requires
                        self.major_index + 1 <= self.major_size,
                ;
                assert((self.major_index + 1) * self.lda == self.major_index * self.lda + self.lda)
                    by (nonlinear_arith);
                self.minor_offset = 0;
                self.major_index = self.major_index + 1;
                self.major_offset = self.major_offset + self.lda;
                assert(self.position() == prev.position() + 1);
            }
        } else {
            assert(self.major_size * self.minor_size == self.total());
        }
        proof {
            self.lemma_position();
        }
        if self.minor_size > 0 && self.major_index < self.major_size {
            assert(self.major_offset + self.minor_offset < self.major_size * self.lda)
                by (nonlinear_arith)
                requires
                    self.major_offset == self.major_index * self.lda,
                    self.minor_offset < self.minor_size,
                    self.minor_size <= self.lda,
                    self.major_index + 1 <= self.major_size,
            ;
            Some(self.major_offset + self.minor_offset)
        } else {
            None
        }
    }

    /// Logical row of the position last emitted.
    pub fn get_row(&self) -> (r: usize)
        requires
            self.wf(),
        ensures
            0 <= self.position() < self.total() ==> r == coords_of(
                self.position(),
                self.minor_size(),
                self.transposed(),
            ).0,
            r == if self.transposed() {
                self.minor_offset()
            } else {
                self.major_index()
            },
    {
        proof {
            self.lemma_position();
        }
        if self.transposed {
            self.minor_offset
        } else {
            self.major_index
        }
    }

    /// Logical column of the position last emitted.
    pub fn get_col(&self) -> (r: usize)
        requires
            self.wf(),
        ensures
            0 <= self.position() < self.total() ==> r == coords_of(
                self.position(),
                self.minor_size(),
                self.transposed(),
            ).1,
            r == if self.transposed() {
                self.major_index()
            } else {
                self.minor_offset()
            },
    {
        proof {
            self.lemma_position();
        }
        if self.transposed {
            self.major_index
        } else {
            self.minor_offset
        }
    }
}

} // verus!
