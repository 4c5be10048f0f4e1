//! A GF(256) matrix with sparse rows, optional dense rows, and a dense block
//! for its right-most columns.
//!
//! Logical layout:
//! ```text
//! |---------------------------------------|
//! |  sparse rows             | (optional) |
//! |--------------------------| dense      |
//! |  (optional) dense rows   | columns    |
//! |---------------------------------------|
//! ```
//! Physically the sparse rows come first and the dense rows after them.
//! Sparse rows are keyed by physical column; dense rows are indexed by
//! logical column. The dense columns are stored right-most first.
use vstd::prelude::*;
use vstd::set_lib::{lemma_len_subset, lemma_map_size, set_int_range};
use crate::octet::{gf_add, gf_mul, lemma_add_zero, lemma_mul_zero, lemma_mul_one};
use crate::row_ops::{
    add_scaled_prefix, cols_of, count_entries, drop_front, empty_index, fma_sparse_into_dense,
    grow_rows, index_insert_all, inverse_perms, lemma_push_contains, scale_prefix, sparse_from_dense,
    swap_entries, zeros,
};
use crate::sparse_vec::{SparseOctetVec, SparseValuelessVec};
use crate::sums::{lemma_sum_ext, lemma_sum_swap, sum_to};

verus! {

/// Why an operation was refused.
#[derive(Clone, Copy, Debug, PartialEq, Eq, Structural)]
pub enum MatrixError {
    /// The operation is not implemented for this kind of row or region.
    UnsupportedOperation,
    /// The matrix is not in the state the operation needs.
    InvalidState,
}

/// While a column moves into the dense block: the sparse row `now` and its dense block
/// `tail` are either untouched, or the entry for `c0` has moved to position `slot`.
spec fn row_frozen(orig: SparseOctetVec, now: SparseOctetVec, grown: Seq<u8>, tail: Seq<u8>, c0: usize, slot: int) -> bool {
    ||| (now == orig && tail == grown)
    ||| (now.wf() && !now.has_key(c0)
        && (forall|c: usize| #[trigger] now.has_key(c) ==> orig.has_key(c))
        && (forall|c: usize| c != c0 ==> #[trigger] now.value_at(c) == orig.value_at(c))
        && tail == grown.update(slot, orig.value_at(c0)))
}

/// Key `c` is stored among the first `n` entries of `e`.
spec fn holds_key_prefix(e: Seq<(usize, u8)>, n: int, c: usize) -> bool {
    exists|w: int| 0 <= w < n && e[w].0 == c
}

pub struct SparseOctetMatrix {
    height: usize,
    width: usize,
    sparse_elements: Vec<SparseOctetVec>,
    // Physical rows from sparse_elements.len() on; indexed by logical column.
    dense_rows: Vec<Vec<u8>>,
    // The right-most columns of every physical row, right-most first, possibly zero padded.
    dense_elements: Vec<Vec<u8>>,
    // For each physical column, the physical sparse rows that may be non-zero there.
    sparse_column_index: Vec<SparseValuelessVec>,
    logical_row_to_physical: Vec<usize>,
    physical_row_to_logical: Vec<usize>,
    logical_col_to_physical: Vec<usize>,
    physical_col_to_logical: Vec<usize>,
    column_index_disabled: bool,
    num_dense_columns: usize,
}

impl SparseOctetMatrix {
    /// Number of logical rows.
    pub closed spec fn rows(&self) -> nat {
        self.height as nat
    }

    /// Number of logical columns.
    pub closed spec fn cols(&self) -> nat {
        self.width as nat
    }

    /// Number of right-most columns held in the dense block.
    pub closed spec fn dense_cols(&self) -> nat {
        self.num_dense_columns as nat
    }

    /// Whether the column index is being maintained.
    pub closed spec fn index_enabled(&self) -> bool {
        !self.column_index_disabled
    }

    /// Logical row `i` is stored as a dense row.
    pub closed spec fn is_dense_row(&self, i: int) -> bool {
        self.logical_row_to_physical@[i] >= self.sparse_elements@.len()
    }

    /// Number of physical column slots (at least `cols()`).
    closed spec fn col_slots(&self) -> nat {
        self.logical_col_to_physical@.len()
    }

    /// The element at logical row `i` and logical column `j`.
    pub closed spec fn value(&self, i: int, j: int) -> u8 {
        let p = self.logical_row_to_physical@[i] as int;
        let ns = self.sparse_elements@.len();
        if self.width - j <= self.num_dense_columns {
            self.dense_elements@[p]@[self.width - j - 1]
        } else if p >= ns {
            self.dense_rows@[p - ns]@[j]
        } else {
            self.sparse_elements@[p].value_at(self.logical_col_to_physical@[j])
        }
    }

    /// The column index records every stored entry of every sparse row,
    /// and nothing but sparse rows.
    closed spec fn index_ok(&self) -> bool {
        let ns = self.sparse_elements@.len();
        &&& self.sparse_column_index@.len() == self.col_slots()
        &&& forall|c: int| 0 <= c < self.col_slots() ==> (#[trigger] self.sparse_column_index@[c]).wf()
        &&& forall|c: usize, r: usize| c < self.col_slots() && #[trigger] self.sparse_column_index@[c as int].contains(r) ==> r < ns
        &&& forall|p: int, c: usize| 0 <= p < ns && #[trigger] self.sparse_elements@[p].has_key(c)
            ==> self.sparse_column_index@[c as int].contains(p as usize)
    }

    /// The layout invariant.
    pub closed spec fn wf(&self) -> bool {
        let h = self.height as nat;
        let ns = self.sparse_elements@.len();
        &&& inverse_perms(self.logical_row_to_physical@, self.physical_row_to_logical@, h)
        &&& inverse_perms(self.logical_col_to_physical@, self.physical_col_to_logical@, self.col_slots())
        &&& self.width <= self.col_slots()
        &&& ns + self.dense_rows@.len() == h
        &&& self.dense_elements@.len() == h
        &&& self.num_dense_columns <= self.width
        &&& forall|p: int| 0 <= p < h ==> (#[trigger] self.dense_elements@[p])@.len() >= self.num_dense_columns
        &&& forall|p: int, y: int| 0 <= p < h && self.num_dense_columns <= y < self.dense_elements@[p]@.len()
            ==> #[trigger] self.dense_elements@[p]@[y] == 0
        &&& forall|k: int| 0 <= k < self.dense_rows@.len()
            ==> (#[trigger] self.dense_rows@[k])@.len() >= self.width - self.num_dense_columns
        &&& forall|p: int| 0 <= p < ns ==> (#[trigger] self.sparse_elements@[p]).wf()
        &&& forall|p: int, c: usize| 0 <= p < ns && #[trigger] self.sparse_elements@[p].has_key(c)
            ==> c < self.col_slots() && self.physical_col_to_logical@[c as int] < self.width - self.num_dense_columns
        &&& forall|k: int| 0 <= k < self.dense_rows@.len() ==> (#[trigger] self.dense_rows@[k])@.len() <= self.width
        &&& !self.column_index_disabled ==> self.index_ok()
    }

    /// Builds a `height` x `width` zero matrix whose `trailing_dense_column_hint` right-most
    /// columns are held densely, and whose logical rows
    /// `start_dense_row_hint..start_dense_row_hint + num_dense_rows_hint` are dense rows.
    pub fn new(
        height: usize,
        width: usize,
        trailing_dense_column_hint: usize,
        start_dense_row_hint: usize,
        num_dense_rows_hint: usize,
    ) -> (r: SparseOctetMatrix)
        requires
            trailing_dense_column_hint <= width,
            start_dense_row_hint + num_dense_rows_hint <= height,
        ensures
            r.wf(),
            r.rows() == height,
            r.cols() == width,
            r.dense_cols() == trailing_dense_column_hint,
            !r.index_enabled(),
            forall|i: int| 0 <= i < height ==> (#[trigger] r.is_dense_row(i)
                <==> start_dense_row_hint <= i < start_dense_row_hint + num_dense_rows_hint),
            forall|i: int, j: int| 0 <= i < height && 0 <= j < width ==> #[trigger] r.value(i, j) == 0,
    {
        let num_sparse = height - num_dense_rows_hint;
        let mut elements: Vec<SparseOctetVec> = Vec::with_capacity(num_sparse);
        let mut k: usize = 0;
        while k < num_sparse
            invariant
                k <= num_sparse,
                elements@.len() == k,
                forall|p: int| 0 <= p < k ==> (#[trigger] elements@[p]).wf()
                    && forall|c: usize| !elements@[p].has_key(c) && elements@[p].value_at(c) == 0,
            decreases num_sparse - k,
        {
            elements.push(SparseOctetVec::new());
            k = k + 1;
        }
        let dense_width = width - trailing_dense_column_hint;
        let mut dense_rows: Vec<Vec<u8>> = Vec::with_capacity(num_dense_rows_hint);
        k = 0;
        while k < num_dense_rows_hint
            invariant
                k <= num_dense_rows_hint,
                dense_rows@.len() == k,
                forall|x: int| 0 <= x < k ==> (#[trigger] dense_rows@[x])@.len() == dense_width
                    && forall|c: int| 0 <= c < dense_width ==> dense_rows@[x]@[c] == 0,
            decreases num_dense_rows_hint - k,
        {
            dense_rows.push(zeros(dense_width));
            k = k + 1;
        }
        let mut logical_row_to_physical: Vec<usize> = Vec::with_capacity(height);
        let mut physical_row_to_logical: Vec<usize> = Vec::with_capacity(height);
        let dense_end = start_dense_row_hint + num_dense_rows_hint;
        // logical_row_to_physical: identity before the dense rows, then the dense rows at the
        // physical end, then the remaining sparse rows shifted up.
        k = 0;
        while k < height
            invariant
                k <= height,
                num_sparse == height - num_dense_rows_hint,
                dense_end == start_dense_row_hint + num_dense_rows_hint,
                dense_end <= height,
                logical_row_to_physical@.len() == k,
                forall|x: int| 0 <= x < k ==> #[trigger] logical_row_to_physical@[x] == if x < start_dense_row_hint {
                    x
                } else if x < dense_end {
                    x - start_dense_row_hint + num_sparse
                } else {
                    x - num_dense_rows_hint
                },
            decreases height - k,
        {
            let p = if k < start_dense_row_hint {
                k
            } else if k < dense_end {
                k - start_dense_row_hint + num_sparse
            } else {
                k - num_dense_rows_hint
            };
            logical_row_to_physical.push(p);
            k = k + 1;
        }
        // physical_row_to_logical is its inverse.
        k = 0;
        while k < height
            invariant
                k <= height,
                num_sparse == height - num_dense_rows_hint,
                dense_end == start_dense_row_hint + num_dense_rows_hint,
                dense_end <= height,
                physical_row_to_logical@.len() == k,
                forall|x: int| 0 <= x < k ==> #[trigger] physical_row_to_logical@[x] == if x < start_dense_row_hint {
                    x
                } else if x < num_sparse {
                    x + num_dense_rows_hint
                } else {
                    x - num_sparse + start_dense_row_hint
                },
            decreases height - k,
        {
            let l = if k < start_dense_row_hint {
                k
            } else if k < num_sparse {
                k + num_dense_rows_hint
            } else {
                k - num_sparse + start_dense_row_hint
            };
            physical_row_to_logical.push(l);
            k = k + 1;
        }
        // Padding beyond the dense columns leaves room to freeze more columns.
        let pad = if trailing_dense_column_hint <= width - trailing_dense_column_hint {
            trailing_dense_column_hint
        } else {
            width - trailing_dense_column_hint
        };
        let tail_len = trailing_dense_column_hint + pad;
        let mut dense_elements: Vec<Vec<u8>> = Vec::with_capacity(height);
        k = 0;
        while k < height
            invariant
                k <= height,
                tail_len >= trailing_dense_column_hint,
                dense_elements@.len() == k,
                forall|x: int| 0 <= x < k ==> (#[trigger] dense_elements@[x])@.len() == tail_len
                    && forall|c: int| 0 <= c < tail_len ==> dense_elements@[x]@[c] == 0,
            decreases height - k,
        {
            dense_elements.push(zeros(tail_len));
            k = k + 1;
        }
        let mut col_mapping: Vec<usize> = Vec::with_capacity(width);
        k = 0;
        while k < width
            invariant
                k <= width,
                col_mapping@.len() == k,
                forall|x: int| 0 <= x < k ==> #[trigger] col_mapping@[x] == x,
            decreases width - k,
        {
            col_mapping.push(k);
            k = k + 1;
        }
        let r = SparseOctetMatrix {
            height,
            width,
            sparse_elements: elements,
            dense_rows,
            dense_elements,
            sparse_column_index: Vec::new(),
            logical_row_to_physical,
            physical_row_to_logical,
            logical_col_to_physical: col_mapping.clone(),
            physical_col_to_logical: col_mapping,
            column_index_disabled: true,
            num_dense_columns: trailing_dense_column_hint,
        };
        proof {
            assert(r.logical_col_to_physical@ == r.physical_col_to_logical@);
            assert forall|i: int, j: int| 0 <= i < height && 0 <= j < width implies #[trigger] r.value(i, j) == 0 by {
                let p = r.logical_row_to_physical@[i] as int;
                if p < num_sparse {
                    assert(r.sparse_elements@[p].value_at(r.logical_col_to_physical@[j]) == 0);
                }
            }
        }
        r
    }

    /// `other` has the same dimensions, dense block, index state and row kinds as `self`.
    pub open spec fn same_frame(&self, other: &SparseOctetMatrix) -> bool {
        &&& other.rows() == self.rows()
        &&& other.cols() == self.cols()
        &&& other.dense_cols() == self.dense_cols()
        &&& other.index_enabled() == self.index_enabled()
        &&& forall|i: int| 0 <= i < self.rows() ==> #[trigger] other.is_dense_row(i) == self.is_dense_row(i)
    }

    pub fn height(&self) -> (r: usize)
        ensures
            r == self.rows(),
    {
        self.height
    }

    pub fn width(&self) -> (r: usize)
        ensures
            r == self.cols(),
    {
        self.width
    }

    /// Reads the element at logical row `i` and logical column `j`.
    pub fn get(&self, i: usize, j: usize) -> (r: u8)
        requires
            self.wf(),
            i < self.rows(),
            j < self.cols(),
        ensures
            r == self.value(i as int, j as int),
    {
        let physical_i = self.logical_row_to_physical[i];
        let physical_j = self.logical_col_to_physical[j];
        if self.width - j <= self.num_dense_columns {
            self.dense_elements[physical_i][self.width - j - 1]
        } else if physical_i >= self.sparse_elements.len() {
            self.dense_rows[physical_i - self.sparse_elements.len()][j]
        } else {
            match self.sparse_elements[physical_i].get(physical_j) {
                Some(v) => v,
                None => 0,
            }
        }
    }

    /// Writes `value` at logical row `i` and logical column `j`.
    pub fn set(&mut self, i: usize, j: usize, value: u8)
        requires
            old(self).wf(),
            i < old(self).rows(),
            j < old(self).cols(),
        ensures
            final(self).wf(),
            old(self).same_frame(final(self)),
            final(self).value(i as int, j as int) == value,
            forall|x: int, y: int| 0 <= x < old(self).rows() && 0 <= y < old(self).cols() && !(x == i && y == j)
                ==> #[trigger] final(self).value(x, y) == old(self).value(x, y),
    {
        let physical_i = self.logical_row_to_physical[i];
        let physical_j = self.logical_col_to_physical[j];
        let ns = self.sparse_elements.len();
        if self.width - j <= self.num_dense_columns {
            let idx = self.width - j - 1;
            self.dense_elements[physical_i][idx] = value;
        } else if physical_i >= ns {
            self.dense_rows[physical_i - ns][j] = value;
        } else {
            self.sparse_elements[physical_i].insert(physical_j, value);
            if !self.column_index_disabled {
                self.sparse_column_index[physical_j].insert(physical_i);
            }
        }
        proof {
            assert forall|x: int, y: int| 0 <= x < old(self).rows() && 0 <= y < old(self).cols() && !(x == i && y == j)
                implies #[trigger] self.value(x, y) == old(self).value(x, y) by {
                if x != i {
                    assert(self.logical_row_to_physical@[x] != physical_i);
                }
                if y != j {
                    assert(self.logical_col_to_physical@[y] != physical_j);
                }
            }
        }
    }

    /// Exchanges logical rows `i` and `j`, by relabelling only.
    pub fn swap_rows(&mut self, i: usize, j: usize)
        requires
            old(self).wf(),
            i < old(self).rows(),
            j < old(self).rows(),
        ensures
            final(self).wf(),
            final(self).rows() == old(self).rows(),
            final(self).cols() == old(self).cols(),
            final(self).dense_cols() == old(self).dense_cols(),
            final(self).index_enabled() == old(self).index_enabled(),
            forall|x: int| 0 <= x < old(self).rows() ==> #[trigger] final(self).is_dense_row(x)
                == old(self).is_dense_row(if x == i { j as int } else if x == j { i as int } else { x }),
            forall|x: int, y: int| 0 <= x < old(self).rows() && 0 <= y < old(self).cols()
                ==> #[trigger] final(self).value(x, y)
                == old(self).value(if x == i { j as int } else if x == j { i as int } else { x }, y),
            final(self).nonzero_total() == old(self).nonzero_total(),
    {
        let physical_i = self.logical_row_to_physical[i];
        let physical_j = self.logical_row_to_physical[j];
        self.logical_row_to_physical.set(i, physical_j);
        self.logical_row_to_physical.set(j, physical_i);
        self.physical_row_to_logical.set(physical_i, j);
        self.physical_row_to_logical.set(physical_j, i);
        proof {
            assert forall|x: int, y: int| 0 <= x < old(self).rows() && 0 <= y < old(self).cols()
                implies #[trigger] self.value(x, y)
                == old(self).value(if x == i { j as int } else if x == j { i as int } else { x }, y) by {}
            Self::lemma_swap_rows_keeps_nonzeros(*old(self), *self, i as int, j as int);
        }
    }

    /// Exchanges logical columns `i` and `j`, neither of them in the dense block.
    /// Sparse rows are relabelled; dense rows, which are indexed by logical column,
    /// have their two entries exchanged. The last argument, a row from which the caller
    /// no longer needs the exchange, is not used by this storage.
    pub fn swap_columns(&mut self, i: usize, j: usize, _start_row_hint: usize)
        requires
            old(self).wf(),
            i < old(self).cols() - old(self).dense_cols(),
            j < old(self).cols() - old(self).dense_cols(),
        ensures
            final(self).wf(),
            old(self).same_frame(final(self)),
            forall|x: int, y: int| 0 <= x < old(self).rows() && 0 <= y < old(self).cols()
                ==> #[trigger] final(self).value(x, y)
                == old(self).value(x, if y == i { j as int } else if y == j { i as int } else { y }),
            final(self).nonzero_total() == old(self).nonzero_total(),
    {
        let physical_i = self.logical_col_to_physical[i];
        let physical_j = self.logical_col_to_physical[j];
        self.logical_col_to_physical.set(i, physical_j);
        self.logical_col_to_physical.set(j, physical_i);
        self.physical_col_to_logical.set(physical_i, j);
        self.physical_col_to_logical.set(physical_j, i);
        swap_entries(&mut self.dense_rows, i, j);
        proof {
            assert forall|x: int, y: int| 0 <= x < old(self).rows() && 0 <= y < old(self).cols()
                implies #[trigger] self.value(x, y)
                == old(self).value(x, if y == i { j as int } else if y == j { i as int } else { y }) by {}
            Self::lemma_swap_columns_keeps_nonzeros(*old(self), *self, i as int, j as int);
        }
    }

    /// Multiplies every element of logical row `row` by `value`.
    pub fn mul_assign_row(&mut self, row: usize, value: u8)
        requires
            old(self).wf(),
            row < old(self).rows(),
        ensures
            final(self).wf(),
            old(self).same_frame(final(self)),
            forall|y: int| 0 <= y < old(self).cols() ==> #[trigger] final(self).value(row as int, y)
                == gf_mul(old(self).value(row as int, y), value),
            forall|x: int, y: int| 0 <= x < old(self).rows() && 0 <= y < old(self).cols() && x != row
                ==> #[trigger] final(self).value(x, y) == old(self).value(x, y),
            value == 0 ==> forall|y: int| 0 <= y < old(self).cols() ==> #[trigger] final(self).value(row as int, y) == 0,
            value == 1 ==> forall|y: int| 0 <= y < old(self).cols()
                ==> #[trigger] final(self).value(row as int, y) == old(self).value(row as int, y),
    {
        let physical_row = self.logical_row_to_physical[row];
        let ns = self.sparse_elements.len();
        if physical_row >= ns {
            let k = physical_row - ns;
            let n = self.dense_rows[k].len();
            scale_prefix(&mut self.dense_rows[k], n, value);
        } else {
            self.sparse_elements[physical_row].mul_assign(value);
        }
        let n = self.num_dense_columns;
        scale_prefix(&mut self.dense_elements[physical_row], n, value);
        proof {
            assert forall|x: int, y: int| 0 <= x < old(self).rows() && 0 <= y < old(self).cols() && x != row
                implies #[trigger] self.value(x, y) == old(self).value(x, y) by {
                assert(self.logical_row_to_physical@[x] != physical_row);
            }
            assert forall|y: int| 0 <= y < old(self).cols() implies
                (value == 0 ==> #[trigger] self.value(row as int, y) == 0)
                && (value == 1 ==> self.value(row as int, y) == old(self).value(row as int, y)) by {
                lemma_mul_zero(old(self).value(row as int, y));
                lemma_mul_one(old(self).value(row as int, y));
            }
        }
    }

    /// Adds `scalar` times logical row `multiplicand` to logical row `dest`.
    /// A dense multiplicand row is refused with `InvalidState`.
    pub fn fma_rows(&mut self, dest: usize, multiplicand: usize, scalar: u8) -> (r: Result<(), MatrixError>)
        requires
            old(self).wf(),
            dest < old(self).rows(),
            multiplicand < old(self).rows(),
            dest != multiplicand,
        ensures
            final(self).wf(),
            old(self).same_frame(final(self)),
            r is Err <==> old(self).is_dense_row(multiplicand as int),
            r is Err ==> r == Err::<(), MatrixError>(MatrixError::InvalidState),
            forall|y: int| 0 <= y < old(self).cols() ==> #[trigger] final(self).value(dest as int, y)
                == if r is Ok {
                    gf_add(old(self).value(dest as int, y), gf_mul(old(self).value(multiplicand as int, y), scalar))
                } else {
                    old(self).value(dest as int, y)
                },
            forall|x: int, y: int| 0 <= x < old(self).rows() && 0 <= y < old(self).cols() && x != dest
                ==> #[trigger] final(self).value(x, y) == old(self).value(x, y),
    {
        let physical_dest = self.logical_row_to_physical[dest];
        let physical_multiplicand = self.logical_row_to_physical[multiplicand];
        let ns = self.sparse_elements.len();
        if physical_multiplicand >= ns {
            return Err(MatrixError::InvalidState);
        }
        // First the dense columns.
        let mut tail: Vec<u8> = Vec::new();
        self.dense_elements.set_and_swap(physical_dest, &mut tail);
        let n = self.num_dense_columns;
        add_scaled_prefix(&mut tail, &self.dense_elements[physical_multiplicand], n, scalar);
        self.dense_elements.set_and_swap(physical_dest, &mut tail);
        // Then the sparse columns.
        if physical_dest >= ns {
            proof {
                let m = self.sparse_elements@[physical_multiplicand as int];
                assert forall|c1: usize, c2: usize| #[trigger] m.has_key(c1) && #[trigger] m.has_key(c2)
                    && self.physical_col_to_logical@[c1 as int] == self.physical_col_to_logical@[c2 as int] implies c1 == c2 by {
                    assert(self.logical_col_to_physical@[self.physical_col_to_logical@[c1 as int] as int] == c1);
                    assert(self.logical_col_to_physical@[self.physical_col_to_logical@[c2 as int] as int] == c2);
                }
                assert(self.dense_rows@[physical_dest - ns]@.len() >= self.width - self.num_dense_columns);
            }
            fma_sparse_into_dense(
                &mut self.dense_rows[physical_dest - ns],
                &self.sparse_elements[physical_multiplicand],
                &self.physical_col_to_logical,
                scalar,
            );
            // Dense rows are never recorded in the column index.
        } else {
            let mut row = SparseOctetVec::new();
            self.sparse_elements.set_and_swap(physical_dest, &mut row);
            let new_columns = row.fma(&self.sparse_elements[physical_multiplicand], scalar);
            self.sparse_elements.set_and_swap(physical_dest, &mut row);
            if !self.column_index_disabled {
                proof {
                    assert forall|x: int| 0 <= x < new_columns@.len() implies (#[trigger] new_columns@[x])
                        < self.sparse_column_index@.len() by {
                        assert(self.sparse_elements@[physical_multiplicand as int].has_key(new_columns@[x]));
                    }
                }
                index_insert_all(&mut self.sparse_column_index, &new_columns, physical_dest);
            }
        }
        proof {
            let o = old(self);
            let pd = physical_dest as int;
            let pm = physical_multiplicand as int;
            assert forall|y: int| 0 <= y < o.cols() implies #[trigger] self.value(dest as int, y)
                == gf_add(o.value(dest as int, y), gf_mul(o.value(multiplicand as int, y), scalar)) by {
                if o.width - y <= o.num_dense_columns {
                } else {
                    let c = o.logical_col_to_physical@[y];
                    let m = o.sparse_elements@[pm];
                    assert(o.physical_col_to_logical@[c as int] == y);
                    if !m.has_key(c) {
                        lemma_mul_zero(scalar);
                        lemma_add_zero(o.value(dest as int, y));
                        assert forall|c2: usize| #[trigger] m.has_key(c2) implies o.physical_col_to_logical@[c2 as int] != y by {
                            assert(o.logical_col_to_physical@[o.physical_col_to_logical@[c2 as int] as int] == c2);
                        }
                    }
                }
            }
            assert forall|x: int, y: int| 0 <= x < o.rows() && 0 <= y < o.cols() && x != dest
                implies #[trigger] self.value(x, y) == o.value(x, y) by {
                assert(o.logical_row_to_physical@[x] != physical_dest);
            }
            assert forall|p: int| 0 <= p < o.height implies (#[trigger] self.dense_elements@[p])@.len() >= self.num_dense_columns by {
                if p != pd { assert(self.dense_elements@[p] == o.dense_elements@[p]); }
            }
            assert forall|k: int| 0 <= k < self.dense_rows@.len() implies (#[trigger] self.dense_rows@[k])@.len() >= self.width - self.num_dense_columns
                && self.dense_rows@[k]@.len() <= self.width by {
                assert(o.dense_rows@[k]@.len() >= self.width - self.num_dense_columns);
            }
            assert forall|p: int, c: usize| 0 <= p < ns && #[trigger] self.sparse_elements@[p].has_key(c)
                implies c < self.col_slots() && self.physical_col_to_logical@[c as int] < self.width - self.num_dense_columns by {
                if p == pd {
                    if !o.sparse_elements@[p].has_key(c) {
                        assert(o.sparse_elements@[pm].has_key(c));
                    }
                }
            }
            assert(self.sparse_elements@.len() == ns);
            assert forall|p: int| 0 <= p < ns implies (#[trigger] self.sparse_elements@[p]).wf() by {}
            if self.index_enabled() {
                assert forall|p: int, c: usize| 0 <= p < ns && #[trigger] self.sparse_elements@[p].has_key(c)
                    implies self.sparse_column_index@[c as int].contains(p as usize) by {
                    if p == pd {
                        if o.sparse_elements@[p].has_key(c) {
                            assert(o.sparse_column_index@[c as int].contains(p as usize));
                        }
                    } else {
                        assert(self.sparse_elements@[p] == o.sparse_elements@[p]);
                        assert(o.sparse_column_index@[c as int].contains(p as usize));
                    }
                }
                assert(self.index_ok());
            }
        }
        Ok(())
    }

    /// Shrinks the matrix to its first `new_height` logical rows and first `new_width`
    /// logical columns. Retained rows get physical index equal to their logical index and
    /// are all stored sparsely; right-most columns leave the dense block first.
    /// Refused with `InvalidState` while the column index is enabled.
    pub fn resize(&mut self, new_height: usize, new_width: usize) -> (r: Result<(), MatrixError>)
        requires
            old(self).wf(),
            new_height <= old(self).rows(),
            new_width <= old(self).cols(),
        ensures
            final(self).wf(),
            r is Err <==> old(self).index_enabled(),
            r is Err ==> r == Err::<(), MatrixError>(MatrixError::InvalidState) && *final(self) == *old(self),
            r is Ok ==> {
                &&& final(self).rows() == new_height
                &&& final(self).cols() == new_width
                &&& !final(self).index_enabled()
                &&& final(self).dense_cols() == old(self).dense_cols()
                    - if old(self).dense_cols() <= old(self).cols() - new_width {
                        old(self).dense_cols()
                    } else {
                        (old(self).cols() - new_width) as nat
                    }
                &&& forall|i: int| 0 <= i < new_height ==> !#[trigger] final(self).is_dense_row(i)
                &&& forall|i: int, j: int| 0 <= i < new_height && 0 <= j < new_width
                    ==> #[trigger] final(self).value(i, j) == old(self).value(i, j)
            },
    {
        if !self.column_index_disabled {
            return Err(MatrixError::InvalidState);
        }
        let ghost o = *self;
        let ns = self.sparse_elements.len();
        let limit = self.width - self.num_dense_columns;
        let mut old_sparse: Vec<SparseOctetVec> = Vec::new();
        std::mem::swap(&mut self.sparse_elements, &mut old_sparse);
        let mut new_sparse: Vec<SparseOctetVec> = Vec::with_capacity(new_height);
        let mut i: usize = 0;
        while i < new_height
            invariant
                i <= new_height,
                new_height <= o.height,
                o.wf(),
                ns == o.sparse_elements@.len(),
                limit == o.width - o.num_dense_columns,
                old_sparse@.len() == ns,
                self.dense_rows == o.dense_rows,
                self.logical_row_to_physical == o.logical_row_to_physical,
                self.logical_col_to_physical == o.logical_col_to_physical,
                self.physical_col_to_logical == o.physical_col_to_logical,
                forall|q: int| 0 <= q < ns && o.physical_row_to_logical@[q] >= i
                    ==> #[trigger] old_sparse@[q] == o.sparse_elements@[q],
                new_sparse@.len() == i,
                forall|x: int| 0 <= x < i ==> (#[trigger] new_sparse@[x]).wf(),
                forall|x: int, c: usize| 0 <= x < i && #[trigger] new_sparse@[x].has_key(c)
                    ==> c < o.col_slots() && o.physical_col_to_logical@[c as int] < limit,
                forall|x: int, j: int| 0 <= x < i && 0 <= j < limit
                    ==> #[trigger] new_sparse@[x].value_at(o.logical_col_to_physical@[j]) == o.value(x, j),
            decreases new_height - i,
        {
            let p = self.logical_row_to_physical[i];
            proof {
                assert(o.physical_row_to_logical@[p as int] == i);
            }
            if p < ns {
                let mut row = SparseOctetVec::new();
                old_sparse.set_and_swap(p, &mut row);
                new_sparse.push(row);
                proof {
                    assert forall|q: int| 0 <= q < ns && o.physical_row_to_logical@[q] >= i + 1
                        implies #[trigger] old_sparse@[q] == o.sparse_elements@[q] by {
                        assert(q != p);
                    }
                }
            } else {
                let row = sparse_from_dense(
                    &self.dense_rows[p - ns],
                    limit,
                    &self.logical_col_to_physical,
                    &self.physical_col_to_logical,
                );
                new_sparse.push(row);
            }
            i = i + 1;
        }
        // Columns leave the dense block first.
        let columns_to_remove = self.width - new_width;
        let dense_columns_to_remove = if self.num_dense_columns <= columns_to_remove {
            self.num_dense_columns
        } else {
            columns_to_remove
        };
        let mut new_dense: Vec<Vec<u8>> = Vec::with_capacity(new_height);
        i = 0;
        while i < new_height
            invariant
                i <= new_height,
                new_height <= o.height,
                o.wf(),
                dense_columns_to_remove <= o.num_dense_columns,
                self.dense_elements == o.dense_elements,
                self.logical_row_to_physical == o.logical_row_to_physical,
                new_dense@.len() == i,
                forall|x: int| 0 <= x < i ==> (#[trigger] new_dense@[x])@
                    == o.dense_elements@[o.logical_row_to_physical@[x] as int]@.subrange(
                        dense_columns_to_remove as int,
                        o.dense_elements@[o.logical_row_to_physical@[x] as int]@.len() as int,
                    ),
            decreases new_height - i,
        {
            let p = self.logical_row_to_physical[i];
            new_dense.push(drop_front(&self.dense_elements[p], dense_columns_to_remove));
            i = i + 1;
        }
        let sparse_columns_to_remove = columns_to_remove - dense_columns_to_remove;
        if sparse_columns_to_remove > 0 {
            i = 0;
            while i < new_height
                invariant
                    i <= new_height,
                    new_sparse@.len() == new_height,
                    new_width <= o.width,
                    o.wf(),
                    self.physical_col_to_logical == o.physical_col_to_logical,
                    forall|x: int| 0 <= x < new_height ==> (#[trigger] new_sparse@[x]).wf(),
                    forall|x: int, c: usize| 0 <= x < new_height && #[trigger] new_sparse@[x].has_key(c)
                        ==> c < o.col_slots() && o.physical_col_to_logical@[c as int] < limit
                            && (x < i ==> o.physical_col_to_logical@[c as int] < new_width),
                    forall|x: int, j: int| 0 <= x < new_height && 0 <= j < new_width && j < limit
                        ==> #[trigger] new_sparse@[x].value_at(o.logical_col_to_physical@[j]) == o.value(x, j),
                decreases new_height - i,
            {
                new_sparse[i].retain_mapped_below(&self.physical_col_to_logical, new_width);
                proof {
                    assert forall|j: int| 0 <= j < new_width && j < limit implies
                        #[trigger] new_sparse@[i as int].value_at(o.logical_col_to_physical@[j]) == o.value(i as int, j) by {
                        assert(o.physical_col_to_logical@[o.logical_col_to_physical@[j] as int] == j);
                    }
                }
                i = i + 1;
            }
        }
        let mut row_mapping: Vec<usize> = Vec::with_capacity(new_height);
        i = 0;
        while i < new_height
            invariant
                i <= new_height,
                row_mapping@.len() == i,
                forall|x: int| 0 <= x < i ==> #[trigger] row_mapping@[x] == x,
            decreases new_height - i,
        {
            row_mapping.push(i);
            i = i + 1;
        }
        self.sparse_elements = new_sparse;
        self.dense_elements = new_dense;
        self.dense_rows = Vec::new();
        self.logical_row_to_physical = row_mapping.clone();
        self.physical_row_to_logical = row_mapping;
        self.num_dense_columns = self.num_dense_columns - dense_columns_to_remove;
        self.height = new_height;
        self.width = new_width;
        proof {
            assert(self.logical_row_to_physical@ == self.physical_row_to_logical@);
            assert forall|i: int, j: int| 0 <= i < new_height && 0 <= j < new_width
                implies #[trigger] self.value(i, j) == o.value(i, j) by {
                if new_width - j <= self.num_dense_columns {
                    assert(o.width - j <= o.num_dense_columns);
                } else {
                    assert(j < limit);
                }
            }
        }
        Ok(())
    }

    /// Builds the column index from the stored entries of the sparse rows and keeps it
    /// up to date from now on.
    pub fn enable_column_acccess_acceleration(&mut self)
        requires
            old(self).wf(),
        ensures
            final(self).wf(),
            final(self).index_enabled(),
            final(self).rows() == old(self).rows(),
            final(self).cols() == old(self).cols(),
            final(self).dense_cols() == old(self).dense_cols(),
            forall|i: int| 0 <= i < old(self).rows() ==> #[trigger] final(self).is_dense_row(i) == old(self).is_dense_row(i),
            forall|i: int, j: int| 0 <= i < old(self).rows() && 0 <= j < old(self).cols()
                ==> #[trigger] final(self).value(i, j) == old(self).value(i, j),
    {
        let slots = self.physical_col_to_logical.len();
        let mut index = empty_index(slots);
        let ns = self.sparse_elements.len();
        let mut p: usize = 0;
        while p < ns
            invariant
                p <= ns,
                ns == self.sparse_elements@.len(),
                slots == self.col_slots(),
                self.wf(),
                index@.len() == slots,
                forall|c: int| 0 <= c < slots ==> (#[trigger] index@[c]).wf(),
                forall|c: usize, r: usize| c < slots && #[trigger] index@[c as int].contains(r) ==> r < p,
                forall|q: int, c: usize| 0 <= q < p && #[trigger] self.sparse_elements@[q].has_key(c)
                    ==> index@[c as int].contains(q as usize),
            decreases ns - p,
        {
            let cols = self.sparse_elements[p].keys();
            proof {
                assert forall|x: int| 0 <= x < cols@.len() implies (#[trigger] cols@[x]) < index@.len() by {
                    assert(cols@.contains(cols@[x]));
                }
            }
            index_insert_all(&mut index, &cols, p);
            p = p + 1;
        }
        // Dense rows are not recorded: a column lookup always includes them.
        self.sparse_column_index = index;
        self.column_index_disabled = false;
    }

    /// Drops the column index.
    pub fn disable_column_acccess_acceleration(&mut self)
        requires
            old(self).wf(),
        ensures
            final(self).wf(),
            !final(self).index_enabled(),
            final(self).rows() == old(self).rows(),
            final(self).cols() == old(self).cols(),
            final(self).dense_cols() == old(self).dense_cols(),
            forall|i: int| 0 <= i < old(self).rows() ==> #[trigger] final(self).is_dense_row(i) == old(self).is_dense_row(i),
            forall|i: int, j: int| 0 <= i < old(self).rows() && 0 <= j < old(self).cols()
                ==> #[trigger] final(self).value(i, j) == old(self).value(i, j),
    {
        self.column_index_disabled = true;
        self.sparse_column_index.clear();
    }

    /// Whether the column index records logical row `i` as possibly non-zero in logical column `j`.
    pub closed spec fn index_lists(&self, i: int, j: int) -> bool {
        let p = self.logical_row_to_physical@[i];
        let c = self.logical_col_to_physical@[j];
        self.sparse_column_index@[c as int].contains(p)
    }

    /// The logical rows in `start_row..end_row` that may hold a non-zero value in logical
    /// column `col`: every dense row in that range, and the sparse rows the column index
    /// records. Refused with `InvalidState` while the column index is disabled.
    pub fn get_col_index_iter(&self, col: usize, start_row: usize, end_row: usize) -> (r: Result<Vec<usize>, MatrixError>)
        requires
            self.wf(),
            col < self.cols() - self.dense_cols(),
        ensures
            r is Err <==> !self.index_enabled(),
            r is Err ==> r == Err::<Vec<usize>, MatrixError>(MatrixError::InvalidState),
            r is Ok ==> forall|x: int| 0 <= x < r->Ok_0@.len() ==> start_row <= #[trigger] r->Ok_0@[x] < end_row
                && r->Ok_0@[x] < self.rows()
                && (self.is_dense_row(r->Ok_0@[x] as int) || self.index_lists(r->Ok_0@[x] as int, col as int)),
            r is Ok ==> forall|i: int| start_row <= i < end_row && i < self.rows()
                && (self.is_dense_row(i) || self.index_lists(i, col as int)) ==> #[trigger] r->Ok_0@.contains(i as usize),
            r is Ok ==> forall|i: int| start_row <= i < end_row && i < self.rows()
                && #[trigger] self.value(i, col as int) != 0 ==> r->Ok_0@.contains(i as usize),
    {
        if self.column_index_disabled {
            return Err(MatrixError::InvalidState);
        }
        let mut rows: Vec<usize> = Vec::new();
        let ns = self.sparse_elements.len();
        let physical_col = self.logical_col_to_physical[col];
        // Dense rows are always candidates.
        let mut p: usize = ns;
        while p < self.height
            invariant
                self.wf(),
                ns == self.sparse_elements@.len(),
                physical_col == self.logical_col_to_physical@[col as int],
                col < self.width,
                ns <= p <= self.height,
                forall|x: int| 0 <= x < rows@.len() ==> start_row <= #[trigger] rows@[x] < end_row
                    && rows@[x] < self.rows()
                    && (self.is_dense_row(rows@[x] as int) || self.index_lists(rows@[x] as int, col as int)),
                forall|q: int| ns <= q < p && start_row <= self.physical_row_to_logical@[q] < end_row
                    ==> rows@.contains(#[trigger] self.physical_row_to_logical@[q]),
            decreases self.height - p,
        {
            let l = self.physical_row_to_logical[p];
            let ghost before = rows@;
            if start_row <= l && l < end_row {
                rows.push(l);
                proof {
                    assert(self.logical_row_to_physical@[l as int] == p);
                }
            }
            proof {
                lemma_push_contains(before, l);
            }
            p = p + 1;
        }
        // Then the sparse rows the column index records.
        let candidates = &self.sparse_column_index[physical_col];
        let mut k: usize = 0;
        while k < candidates.elements.len()
            invariant
                self.wf(),
                self.index_enabled(),
                ns == self.sparse_elements@.len(),
                physical_col == self.logical_col_to_physical@[col as int],
                col < self.width,
                *candidates == self.sparse_column_index@[physical_col as int],
                k <= candidates.elements@.len(),
                forall|x: int| 0 <= x < rows@.len() ==> start_row <= #[trigger] rows@[x] < end_row
                    && rows@[x] < self.rows()
                    && (self.is_dense_row(rows@[x] as int) || self.index_lists(rows@[x] as int, col as int)),
                forall|q: int| ns <= q < self.height && start_row <= self.physical_row_to_logical@[q] < end_row
                    ==> rows@.contains(#[trigger] self.physical_row_to_logical@[q]),
                forall|x: int| 0 <= x < k && start_row <= self.physical_row_to_logical@[candidates.elements@[x] as int] < end_row
                    ==> rows@.contains(self.physical_row_to_logical@[#[trigger] candidates.elements@[x] as int]),
            decreases candidates.elements@.len() - k,
        {
            let q = candidates.elements[k];
            proof {
                assert(candidates.contains(q));
                assert(q < ns);
            }
            let l = self.physical_row_to_logical[q];
            let ghost before = rows@;
            if start_row <= l && l < end_row {
                rows.push(l);
                proof {
                    assert(self.logical_row_to_physical@[l as int] == q);
                }
            }
            proof {
                lemma_push_contains(before, l);
            }
            k = k + 1;
        }
        proof {
            assert forall|i: int| start_row <= i < end_row && i < self.rows()
                && (self.is_dense_row(i) || self.index_lists(i, col as int)) implies #[trigger] rows@.contains(i as usize) by {
                let q = self.logical_row_to_physical@[i];
                assert(self.physical_row_to_logical@[q as int] == i);
                if !self.is_dense_row(i) {
                    let x = choose|x: int| 0 <= x < candidates.elements@.len() && candidates.elements@[x] == q;
                    assert(rows@.contains(self.physical_row_to_logical@[candidates.elements@[x] as int]));
                }
            }
            assert forall|i: int| start_row <= i < end_row && i < self.rows()
                && #[trigger] self.value(i, col as int) != 0 implies rows@.contains(i as usize) by {
                let q = self.logical_row_to_physical@[i];
                if !self.is_dense_row(i) {
                    assert(self.sparse_elements@[q as int].has_key(physical_col));
                    assert(self.index_lists(i, col as int));
                }
                assert(rows@.contains(i as usize));
            }
        }
        Ok(rows)
    }

    /// Converts every dense row into a sparse row at the same physical position.
    pub fn hint_compact_dense_rows(&mut self)
        requires
            old(self).wf(),
        ensures
            final(self).wf(),
            final(self).rows() == old(self).rows(),
            final(self).cols() == old(self).cols(),
            final(self).dense_cols() == old(self).dense_cols(),
            final(self).index_enabled() == old(self).index_enabled(),
            forall|i: int| 0 <= i < old(self).rows() ==> !#[trigger] final(self).is_dense_row(i),
            forall|i: int, j: int| 0 <= i < old(self).rows() && 0 <= j < old(self).cols()
                ==> #[trigger] final(self).value(i, j) == old(self).value(i, j),
    {
        let ghost o = *self;
        let ns = self.sparse_elements.len();
        let limit = self.width - self.num_dense_columns;
        let mut sparse: Vec<SparseOctetVec> = Vec::new();
        std::mem::swap(&mut self.sparse_elements, &mut sparse);
        let mut index: Vec<SparseValuelessVec> = Vec::new();
        std::mem::swap(&mut self.sparse_column_index, &mut index);
        let mut k: usize = 0;
        while k < self.dense_rows.len()
            invariant
                o.wf(),
                ns == o.sparse_elements@.len(),
                limit == o.width - o.num_dense_columns,
                self.dense_rows == o.dense_rows,
                self.logical_col_to_physical == o.logical_col_to_physical,
                self.physical_col_to_logical == o.physical_col_to_logical,
                self.column_index_disabled == o.column_index_disabled,
                k <= o.dense_rows@.len(),
                sparse@.len() == ns + k,
                forall|q: int| 0 <= q < ns ==> #[trigger] sparse@[q] == o.sparse_elements@[q],
                forall|q: int| 0 <= q < ns + k ==> (#[trigger] sparse@[q]).wf(),
                forall|q: int, c: usize| 0 <= q < ns + k && #[trigger] sparse@[q].has_key(c)
                    ==> c < o.col_slots() && o.physical_col_to_logical@[c as int] < limit,
                forall|q: int, j: int| ns <= q < ns + k && 0 <= j < limit
                    ==> #[trigger] sparse@[q].value_at(o.logical_col_to_physical@[j]) == o.dense_rows@[q - ns]@[j],
                !o.column_index_disabled ==> {
                    &&& index@.len() == o.col_slots()
                    &&& forall|c: int| 0 <= c < o.col_slots() ==> (#[trigger] index@[c]).wf()
                    &&& forall|c: usize, r: usize| c < o.col_slots() && #[trigger] index@[c as int].contains(r) ==> r < ns + k
                    &&& forall|q: int, c: usize| 0 <= q < ns + k && #[trigger] sparse@[q].has_key(c)
                        ==> index@[c as int].contains(q as usize)
                },
            decreases o.dense_rows@.len() - k,
        {
            let row = sparse_from_dense(
                &self.dense_rows[k],
                limit,
                &self.logical_col_to_physical,
                &self.physical_col_to_logical,
            );
            if !self.column_index_disabled {
                let cols = row.keys();
                proof {
                    assert forall|x: int| 0 <= x < cols@.len() implies (#[trigger] cols@[x]) < index@.len() by {
                        assert(cols@.contains(cols@[x]));
                    }
                }
                index_insert_all(&mut index, &cols, ns + k);
            }
            sparse.push(row);
            k = k + 1;
        }
        self.sparse_elements = sparse;
        self.sparse_column_index = index;
        self.dense_rows = Vec::new();
        proof {
            assert forall|i: int, j: int| 0 <= i < o.rows() && 0 <= j < o.cols()
                implies #[trigger] self.value(i, j) == o.value(i, j) by {
                if o.width - j > o.num_dense_columns {
                    assert(j < limit);
                }
            }
        }
    }

    /// Moves logical column `i`, the right-most column outside the dense block, into the
    /// dense block. Needs the column index to find the sparse rows that hold it;
    /// refused with `InvalidState` while the index is disabled.
    pub fn hint_column_dense_and_frozen(&mut self, i: usize) -> (r: Result<(), MatrixError>)
        requires
            old(self).wf(),
            i + 1 + old(self).dense_cols() == old(self).cols(),
        ensures
            final(self).wf(),
            r is Err <==> !old(self).index_enabled(),
            r is Err ==> r == Err::<(), MatrixError>(MatrixError::InvalidState) && *final(self) == *old(self),
            r is Ok ==> final(self).dense_cols() == old(self).dense_cols() + 1,
            final(self).rows() == old(self).rows(),
            final(self).cols() == old(self).cols(),
            final(self).index_enabled() == old(self).index_enabled(),
            forall|x: int| 0 <= x < old(self).rows() ==> #[trigger] final(self).is_dense_row(x) == old(self).is_dense_row(x),
            forall|x: int, y: int| 0 <= x < old(self).rows() && 0 <= y < old(self).cols()
                ==> #[trigger] final(self).value(x, y) == old(self).value(x, y),
    {
        if self.column_index_disabled {
            return Err(MatrixError::InvalidState);
        }
        let ghost o = *self;
        let ns = self.sparse_elements.len();
        let ndc = self.num_dense_columns + 1;
        grow_rows(&mut self.dense_elements, ndc);
        let ghost grown = self.dense_elements@;
        let physical_i = self.logical_col_to_physical[i];
        let candidates = self.sparse_column_index[physical_i].elements.clone();
        let mut sparse: Vec<SparseOctetVec> = Vec::new();
        std::mem::swap(&mut self.sparse_elements, &mut sparse);
        let mut dense: Vec<Vec<u8>> = Vec::new();
        std::mem::swap(&mut self.dense_elements, &mut dense);
        let mut k: usize = 0;
        while k < candidates.len()
            invariant
                o.wf(),
                o.index_enabled(),
                ns == o.sparse_elements@.len(),
                ndc == o.num_dense_columns + 1,
                physical_i == o.logical_col_to_physical@[i as int],
                i < o.width,
                candidates@ == o.sparse_column_index@[physical_i as int].elements@,
                k <= candidates@.len(),
                sparse@.len() == ns,
                dense@.len() == o.height,
                grown.len() == o.height,
                forall|x: int| 0 <= x < o.height ==> (#[trigger] grown[x])@.len() >= ndc,
                forall|x: int, y: int| 0 <= x < o.height && 0 <= y < grown[x]@.len()
                    ==> #[trigger] grown[x]@[y] == if y < o.dense_elements@[x]@.len() { o.dense_elements@[x]@[y] } else { 0 },
                forall|q: int| ns <= q < o.height ==> #[trigger] dense@[q] == grown[q],
                forall|q: int| 0 <= q < ns ==> #[trigger] row_frozen(o.sparse_elements@[q], sparse@[q], grown[q]@, dense@[q]@, physical_i, ndc - 1),
                forall|x: int| 0 <= x < k ==> !sparse@[#[trigger] candidates@[x] as int].has_key(physical_i),
            decreases candidates@.len() - k,
        {
            let q = candidates[k];
            proof {
                assert(o.sparse_column_index@[physical_i as int].contains(q));
            }
            let ghost prev_sparse = sparse@;
            let ghost prev_dense = dense@;
            proof {
                assert(q < ns);
                assert(grown[q as int]@[ndc - 1] == 0);
                assert(row_frozen(o.sparse_elements@[q as int], prev_sparse[q as int], grown[q as int]@, prev_dense[q as int]@, physical_i, ndc - 1));
            }
            let removed = sparse[q].remove(physical_i);
            match removed {
                Some(v) => {
                    dense[q][ndc - 1] = v;
                },
                None => {},
            }
            proof {
                let orig = o.sparse_elements@[q as int];
                let now = sparse@[q as int];
                if prev_sparse[q as int] == orig && prev_dense[q as int]@ == grown[q as int]@ {
                    crate::sparse_vec::lemma_value_in(orig.elements@, physical_i);
                    if removed is None {
                        assert(grown[q as int]@.update(ndc - 1, 0u8) =~= grown[q as int]@);
                    }
                }
                assert(row_frozen(orig, now, grown[q as int]@, dense@[q as int]@, physical_i, ndc - 1));
                assert forall|q2: int| 0 <= q2 < ns implies #[trigger] row_frozen(o.sparse_elements@[q2], sparse@[q2], grown[q2]@, dense@[q2]@, physical_i, ndc - 1) by {
                    if q2 != q as int {
                        assert(sparse@[q2] == prev_sparse[q2]);
                        assert(dense@[q2] == prev_dense[q2]);
                    }
                }
                assert forall|x: int| 0 <= x < k + 1 implies !sparse@[#[trigger] candidates@[x] as int].has_key(physical_i) by {
                    if x < k && candidates@[x] != q {
                        assert(o.sparse_column_index@[physical_i as int].contains(candidates@[x]));
                        assert(sparse@[candidates@[x] as int] == prev_sparse[candidates@[x] as int]);
                    }
                }
            }
            k = k + 1;
        }
        // Dense rows keep a stale zero at column `i`: lookups read the dense block first.
        let ghost dense_mid = dense@;
        let mut p: usize = ns;
        while p < self.height
            invariant
                o.wf(),
                ns == o.sparse_elements@.len(),
                self.height == o.height,
                ndc == o.num_dense_columns + 1,
                i + 1 + o.num_dense_columns == o.width,
                ns <= p <= o.height,
                dense@.len() == o.height,
                self.dense_rows@.len() == o.dense_rows@.len(),
                self.width == o.width,
                self.num_dense_columns == o.num_dense_columns,
                self.logical_row_to_physical == o.logical_row_to_physical,
                self.physical_row_to_logical == o.physical_row_to_logical,
                self.logical_col_to_physical == o.logical_col_to_physical,
                self.physical_col_to_logical == o.physical_col_to_logical,
                self.sparse_column_index == o.sparse_column_index,
                self.column_index_disabled == o.column_index_disabled,
                grown.len() == o.height,
                forall|x: int| 0 <= x < o.height ==> (#[trigger] grown[x])@.len() >= ndc,
                forall|x: int, y: int| 0 <= x < o.height && 0 <= y < grown[x]@.len()
                    ==> #[trigger] grown[x]@[y] == if y < o.dense_elements@[x]@.len() { o.dense_elements@[x]@[y] } else { 0 },
                forall|q: int| 0 <= q < ns ==> #[trigger] dense@[q] == dense_mid[q],
                forall|q: int| p <= q < o.height ==> #[trigger] dense@[q] == grown[q],
                forall|q: int| ns <= q < p ==> (#[trigger] dense@[q])@ == grown[q]@.update(ndc - 1, o.dense_rows@[q - ns]@[i as int]),
                forall|q: int| ns <= q < p ==> (#[trigger] self.dense_rows@[q - ns])@ == o.dense_rows@[q - ns]@.update(i as int, 0u8),
                forall|q: int| p <= q < o.height ==> #[trigger] self.dense_rows@[q - ns] == o.dense_rows@[q - ns],
            decreases o.height - p,
        {
            proof {
                assert(o.dense_rows@[p - ns]@.len() >= o.width - o.num_dense_columns);
            }
            let v = self.dense_rows[p - ns][i];
            dense[p][ndc - 1] = v;
            self.dense_rows[p - ns][i] = 0;
            p = p + 1;
        }
        self.sparse_elements = sparse;
        self.dense_elements = dense;
        self.num_dense_columns = ndc;
        proof {
            assert forall|q: int| 0 <= q < ns && o.sparse_elements@[q].has_key(physical_i)
                implies !#[trigger] self.sparse_elements@[q].has_key(physical_i) by {
                assert(row_frozen(o.sparse_elements@[q], sparse@[q], grown[q]@, dense_mid[q]@, physical_i, ndc - 1));
                assert(o.sparse_column_index@[physical_i as int].contains(q as usize));
                let x = choose|x: int| 0 <= x < candidates@.len() && candidates@[x] == q as usize;
                assert(!sparse@[candidates@[x] as int].has_key(physical_i));
            }
            assert forall|q: int, c: usize| 0 <= q < ns && #[trigger] self.sparse_elements@[q].has_key(c)
                implies c < self.col_slots() && self.physical_col_to_logical@[c as int] < self.width - self.num_dense_columns by {
                assert(row_frozen(o.sparse_elements@[q], sparse@[q], grown[q]@, dense_mid[q]@, physical_i, ndc - 1));
                assert(o.sparse_elements@[q].has_key(c));
                if c == physical_i {
                    assert(!self.sparse_elements@[q].has_key(physical_i));
                }
                assert(o.logical_col_to_physical@[o.physical_col_to_logical@[c as int] as int] == c);
            }
            assert forall|x: int, y: int| 0 <= x < o.rows() && 0 <= y < o.cols()
                implies #[trigger] self.value(x, y) == o.value(x, y) by {
                let q = o.logical_row_to_physical@[x] as int;
                if y == i {
                    assert(o.width - y - 1 == o.num_dense_columns);
                    if q < ns {
                        assert(dense_mid[q] == self.dense_elements@[q]);
                        assert(row_frozen(o.sparse_elements@[q], sparse@[q], grown[q]@, dense_mid[q]@, physical_i, ndc - 1));
                        if sparse@[q] == o.sparse_elements@[q] && dense_mid[q]@ == grown[q]@ {
                            assert(!o.sparse_elements@[q].has_key(physical_i));
                            assert(grown[q]@[ndc - 1] == 0);
                        }
                    } else {
                        assert(self.dense_elements@[q]@[ndc - 1] == o.dense_rows@[q - ns]@[i as int]);
                    }
                } else if o.width - y <= o.num_dense_columns {
                    let idx = o.width - y - 1;
                    assert(idx < ndc - 1);
                    assert(grown[q]@[idx] == o.dense_elements@[q]@[idx]);
                    if q < ns {
                        assert(dense_mid[q] == self.dense_elements@[q]);
                        assert(row_frozen(o.sparse_elements@[q], sparse@[q], grown[q]@, dense_mid[q]@, physical_i, ndc - 1));
                    }
                } else {
                    if q < ns {
                        assert(row_frozen(o.sparse_elements@[q], sparse@[q], grown[q]@, dense_mid[q]@, physical_i, ndc - 1));
                    }
                    assert(o.logical_col_to_physical@[y] != physical_i);
                    if q >= ns {
                        assert(self.dense_rows@[q - ns]@ == o.dense_rows@[q - ns]@.update(i as int, 0u8));
                    }
                }
            }
            assert forall|q: int, y: int| 0 <= q < o.height && self.num_dense_columns <= y < self.dense_elements@[q]@.len()
                implies #[trigger] self.dense_elements@[q]@[y] == 0 by {
                if q < ns {
                    assert(row_frozen(o.sparse_elements@[q], sparse@[q], grown[q]@, dense_mid[q]@, physical_i, ndc - 1));
                    assert(self.dense_elements@[q] == dense_mid[q]);
                }
                assert(self.dense_elements@[q]@.len() == grown[q]@.len());
                if y < o.dense_elements@[q]@.len() {
                    assert(o.dense_elements@[q]@[y] == 0);
                }
                assert(grown[q]@[y] == 0);
            }
            assert forall|q: int| 0 <= q < o.height implies (#[trigger] self.dense_elements@[q])@.len() >= self.num_dense_columns by {
                if q < ns {
                    assert(row_frozen(o.sparse_elements@[q], sparse@[q], grown[q]@, dense_mid[q]@, physical_i, ndc - 1));
                    assert(self.dense_elements@[q] == dense_mid[q]);
                }
                assert(grown[q]@.len() >= ndc);
            }
            assert forall|q: int| 0 <= q < ns implies (#[trigger] self.sparse_elements@[q]).wf() by {
                assert(row_frozen(o.sparse_elements@[q], sparse@[q], grown[q]@, dense_mid[q]@, physical_i, ndc - 1));
            }
            assert forall|q: int, c: usize| 0 <= q < ns && #[trigger] self.sparse_elements@[q].has_key(c)
                implies self.sparse_column_index@[c as int].contains(q as usize) by {
                assert(row_frozen(o.sparse_elements@[q], sparse@[q], grown[q]@, dense_mid[q]@, physical_i, ndc - 1));
                assert(o.sparse_elements@[q].has_key(c));
            }
            assert(self.index_ok());
            assert forall|kk: int| 0 <= kk < self.dense_rows@.len() implies (#[trigger] self.dense_rows@[kk])@.len() >= self.width - self.num_dense_columns
                && self.dense_rows@[kk]@.len() <= self.width by {
                assert(self.dense_rows@[(kk + ns) - ns]@.len() == o.dense_rows@[kk]@.len());
            }
        }
        Ok(())
    }

    /// The logical columns in `start..end` of logical row `i` that hold one.
    pub open spec fn ones_in(&self, i: int, start: int, end: int) -> Set<int> {
        Set::new(|j: int| start <= j < end && self.value(i, j) == 1)
    }

    /// The logical columns in `start..end` of logical row `i` that hold a non-zero value.
    pub open spec fn nonzeros_in(&self, i: int, start: int, end: int) -> Set<int> {
        Set::new(|j: int| start <= j < end && self.value(i, j) != 0)
    }

    /// The stored entries of sparse logical row `row` whose logical column lies in
    /// `start_col..end_col`, as (logical column, value) pairs in storage order.
    /// Every non-zero element of that range is among them, each column at most once.
    /// Dense rows are refused with `UnsupportedOperation`.
    pub fn get_row_iter(&self, row: usize, start_col: usize, end_col: usize) -> (r: Result<Vec<(usize, u8)>, MatrixError>)
        requires
            self.wf(),
            row < self.rows(),
            end_col <= self.cols() - self.dense_cols(),
        ensures
            r is Err <==> self.is_dense_row(row as int),
            r is Err ==> r == Err::<Vec<(usize, u8)>, MatrixError>(MatrixError::UnsupportedOperation),
            r is Ok ==> forall|x: int| 0 <= x < r->Ok_0@.len() ==> start_col <= (#[trigger] r->Ok_0@[x]).0 < end_col
                && r->Ok_0@[x].1 == self.value(row as int, r->Ok_0@[x].0 as int),
            r is Ok ==> forall|x: int, y: int| 0 <= x < y < r->Ok_0@.len() ==> (#[trigger] r->Ok_0@[x]).0 != (#[trigger] r->Ok_0@[y]).0,
            r is Ok ==> forall|j: int| start_col <= j < end_col && #[trigger] self.value(row as int, j) != 0
                ==> r->Ok_0@.contains((j as usize, self.value(row as int, j))),
    {
        let physical_row = self.logical_row_to_physical[row];
        if physical_row >= self.sparse_elements.len() {
            return Err(MatrixError::UnsupportedOperation);
        }
        let sparse = &self.sparse_elements[physical_row];
        let ghost e = sparse.elements@;
        let mut out: Vec<(usize, u8)> = Vec::new();
        let mut k: usize = 0;
        while k < sparse.elements.len()
            invariant
                self.wf(),
                row < self.rows(),
                end_col <= self.cols() - self.dense_cols(),
                physical_row == self.logical_row_to_physical@[row as int],
                physical_row < self.sparse_elements@.len(),
                *sparse == self.sparse_elements@[physical_row as int],
                e == sparse.elements@,
                k <= e.len(),
                forall|x: int| 0 <= x < out@.len() ==> start_col <= (#[trigger] out@[x]).0 < end_col
                    && out@[x].1 == self.value(row as int, out@[x].0 as int)
                    && holds_key_prefix(e, k as int, self.logical_col_to_physical@[out@[x].0 as int]),
                forall|x: int, y: int| 0 <= x < y < out@.len() ==> (#[trigger] out@[x]).0 != (#[trigger] out@[y]).0,
                forall|x: int| 0 <= x < k && start_col <= self.physical_col_to_logical@[(#[trigger] e[x]).0 as int] < end_col
                    ==> out@.contains((self.physical_col_to_logical@[e[x].0 as int], e[x].1)),
            decreases e.len() - k,
        {
            let (c, v) = sparse.elements[k];
            proof {
                assert(sparse.has_key(c));
                crate::sparse_vec::lemma_value_in(e, c);
            }
            let col = self.physical_col_to_logical[c];
            let ghost before = out@;
            proof {
                assert(self.logical_col_to_physical@[col as int] == c);
                assert forall|x: int| 0 <= x < before.len() implies (#[trigger] before[x]).0 != col by {
                    let c2 = self.logical_col_to_physical@[before[x].0 as int];
                    let w = choose|w: int| 0 <= w < k && e[w].0 == c2;
                    assert(e[w].0 != e[k as int].0);
                }
                assert forall|x: int| 0 <= x < before.len() implies
                    holds_key_prefix(e, k + 1, self.logical_col_to_physical@[(#[trigger] before[x]).0 as int]) by {
                    let c2 = self.logical_col_to_physical@[before[x].0 as int];
                    let w = choose|w: int| 0 <= w < k && e[w].0 == c2;
                }
            }
            if start_col <= col && col < end_col {
                out.push((col, v));
            }
            proof {
                lemma_push_contains(before, (col, v));
                assert(e[k as int].0 == c);
            }
            k = k + 1;
        }
        proof {
            assert forall|j: int| start_col <= j < end_col && #[trigger] self.value(row as int, j) != 0
                implies out@.contains((j as usize, self.value(row as int, j))) by {
                let c = self.logical_col_to_physical@[j];
                assert(self.physical_col_to_logical@[c as int] == j);
                assert(sparse.has_key(c));
                let x = choose|x: int| 0 <= x < e.len() && e[x].0 == c;
                crate::sparse_vec::lemma_value_in(e, c);
            }
        }
        Ok(out)
    }

    /// How many elements of logical row `row` within logical columns `start_col..end_col`
    /// equal one, and how many are non-zero. The range lies outside the dense block.
    pub fn count_ones_and_nonzeros(&self, row: usize, start_col: usize, end_col: usize) -> (r: (usize, usize))
        requires
            self.wf(),
            row < self.rows(),
            start_col <= end_col,
            end_col <= self.cols() - self.dense_cols(),
        ensures
            r.0 == self.ones_in(row as int, start_col as int, end_col as int).len(),
            r.1 == self.nonzeros_in(row as int, start_col as int, end_col as int).len(),
    {
        let physical_row = self.logical_row_to_physical[row];
        let ns = self.sparse_elements.len();
        let mut entries: Vec<(usize, u8)> = Vec::new();
        if physical_row >= ns {
            let dense = &self.dense_rows[physical_row - ns];
            let mut j: usize = start_col;
            while j < end_col
                invariant
                    self.wf(),
                    row < self.rows(),
                    physical_row == self.logical_row_to_physical@[row as int],
                    ns == self.sparse_elements@.len(),
                    physical_row >= ns,
                    *dense == self.dense_rows@[physical_row - ns],
                    end_col <= self.cols() - self.dense_cols(),
                    start_col <= j <= end_col,
                    entries@.len() == j - start_col,
                    forall|x: int| 0 <= x < entries@.len() ==> #[trigger] entries@[x] == ((start_col + x) as usize, self.value(row as int, start_col + x)),
                decreases end_col - j,
            {
                proof {
                    assert(dense@.len() >= self.width - self.num_dense_columns);
                }
                entries.push((j, dense[j]));
                j = j + 1;
            }
        } else {
            match self.get_row_iter(row, start_col, end_col) {
                Ok(v) => {
                    entries = v;
                },
                Err(_) => {},
            }
        }
        let r = count_entries(&entries);
        proof {
            let e = entries@;
            let n = e.len() as int;
            if physical_row < ns {
                assert forall|j: int| #[trigger] cols_of(e, n, true).contains(j)
                    <==> self.ones_in(row as int, start_col as int, end_col as int).contains(j) by {
                    if self.ones_in(row as int, start_col as int, end_col as int).contains(j) {
                        assert(self.value(row as int, j) != 0);
                        let x = choose|x: int| 0 <= x < n && e[x] == (j as usize, self.value(row as int, j));
                        assert(e[x].0 == j && e[x].1 == 1);
                    }
                }
                assert forall|j: int| #[trigger] cols_of(e, n, false).contains(j)
                    <==> self.nonzeros_in(row as int, start_col as int, end_col as int).contains(j) by {
                    if self.nonzeros_in(row as int, start_col as int, end_col as int).contains(j) {
                        let x = choose|x: int| 0 <= x < n && e[x] == (j as usize, self.value(row as int, j));
                        assert(e[x].0 == j && e[x].1 != 0);
                    }
                }
            } else {
                assert forall|j: int| #[trigger] cols_of(e, n, true).contains(j)
                    <==> self.ones_in(row as int, start_col as int, end_col as int).contains(j) by {
                    if start_col <= j < end_col {
                        assert(e[j - start_col].0 == j);
                    }
                }
                assert forall|j: int| #[trigger] cols_of(e, n, false).contains(j)
                    <==> self.nonzeros_in(row as int, start_col as int, end_col as int).contains(j) by {
                    if start_col <= j < end_col {
                        assert(e[j - start_col].0 == j);
                    }
                }
            }
            assert(cols_of(e, n, true) =~= self.ones_in(row as int, start_col as int, end_col as int));
            assert(cols_of(e, n, false) =~= self.nonzeros_in(row as int, start_col as int, end_col as int));
        }
        r
    }

    /// The element at column `j` of the product of row `r` of `other` with the first `n`
    /// rows of `m`: the field sum over `i < n` of `m[i][j] * other[r][i]`.
    pub open spec fn combination(other: SparseOctetMatrix, m: SparseOctetMatrix, r: int, j: int, n: nat) -> u8
        decreases n,
    {
        if n == 0 {
            0
        } else {
            gf_add(
                Self::combination(other, m, r, j, (n - 1) as nat),
                gf_mul(m.value(n - 1, j), other.value(r, n - 1)),
            )
        }
    }

    /// Some logical row is stored as a dense row.
    pub open spec fn has_dense_rows(&self) -> bool {
        exists|i: int| 0 <= i < self.rows() && self.is_dense_row(i)
    }

    /// Replaces the first `rows` logical rows by their left product with the
    /// `rows` x `rows` matrix `other`. An `other` with a dense block is refused with
    /// `UnsupportedOperation`, and a `self` with dense rows with `InvalidState`.
    pub fn mul_assign_submatrix(&mut self, other: &SparseOctetMatrix, rows: usize) -> (r: Result<(), MatrixError>)
        requires
            old(self).wf(),
            other.wf(),
            other.rows() == rows,
            other.cols() == rows,
            rows <= old(self).rows(),
        ensures
            final(self).wf(),
            old(self).same_frame(final(self)),
            r == Err::<(), MatrixError>(MatrixError::UnsupportedOperation) <==> other.dense_cols() != 0,
            r == Err::<(), MatrixError>(MatrixError::InvalidState) <==> other.dense_cols() == 0 && old(self).has_dense_rows(),
            r is Err ==> *final(self) == *old(self),
            r is Ok ==> forall|x: int, y: int| 0 <= x < rows && 0 <= y < old(self).cols()
                ==> #[trigger] final(self).value(x, y) == Self::combination(*other, *old(self), x, y, rows as nat),
            forall|x: int, y: int| rows <= x < old(self).rows() && 0 <= y < old(self).cols()
                ==> #[trigger] final(self).value(x, y) == old(self).value(x, y),
    {
        if other.num_dense_columns != 0 {
            return Err(MatrixError::UnsupportedOperation);
        }
        if self.dense_rows.len() != 0 {
            proof {
                let p = self.sparse_elements@.len() as int;
                let l = self.physical_row_to_logical@[p] as int;
                assert(self.is_dense_row(l));
            }
            return Err(MatrixError::InvalidState);
        }
        let ghost o = *self;
        let ndc = self.num_dense_columns;
        let width = self.width;
        // Rows are logically indexed here.
        let mut temp_sparse: Vec<SparseOctetVec> = Vec::with_capacity(rows);
        let mut temp_dense: Vec<Vec<u8>> = Vec::with_capacity(rows);
        let mut row: usize = 0;
        while row < rows
            invariant
                o.wf(),
                o == *self,
                o.dense_rows@.len() == 0,
                other.wf(),
                other.rows() == rows,
                other.cols() == rows,
                rows <= o.height,
                ndc == o.num_dense_columns,
                width == o.width,
                row <= rows,
                temp_sparse@.len() == row,
                temp_dense@.len() == row,
                forall|x: int| 0 <= x < row ==> (#[trigger] temp_sparse@[x]).wf(),
                forall|x: int, c: usize| 0 <= x < row && #[trigger] temp_sparse@[x].has_key(c)
                    ==> c < o.col_slots() && o.physical_col_to_logical@[c as int] < width - ndc,
                forall|x: int, y: int| 0 <= x < row && 0 <= y < width - ndc
                    ==> #[trigger] temp_sparse@[x].value_at(o.logical_col_to_physical@[y])
                        == Self::combination(*other, o, x, y, rows as nat),
                forall|x: int| 0 <= x < row ==> (#[trigger] temp_dense@[x])@.len() == ndc,
                forall|x: int, t: int| 0 <= x < row && 0 <= t < ndc
                    ==> #[trigger] temp_dense@[x]@[t] == Self::combination(*other, o, x, width - 1 - t, rows as nat),
            decreases rows - row,
        {
            let mut acc_sparse = SparseOctetVec::new();
            let mut acc_dense = zeros(ndc);
            let mut i: usize = 0;
            while i < rows
                invariant
                    o.wf(),
                    o == *self,
                    o.dense_rows@.len() == 0,
                    other.wf(),
                    other.rows() == rows,
                    other.cols() == rows,
                    rows <= o.height,
                    ndc == o.num_dense_columns,
                    width == o.width,
                    row < rows,
                    i <= rows,
                    acc_sparse.wf(),
                    forall|c: usize| #[trigger] acc_sparse.has_key(c)
                        ==> c < o.col_slots() && o.physical_col_to_logical@[c as int] < width - ndc,
                    forall|y: int| 0 <= y < width - ndc ==> #[trigger] acc_sparse.value_at(o.logical_col_to_physical@[y])
                        == Self::combination(*other, o, row as int, y, i as nat),
                    acc_dense@.len() == ndc,
                    forall|t: int| 0 <= t < ndc ==> #[trigger] acc_dense@[t]
                        == Self::combination(*other, o, row as int, width - 1 - t, i as nat),
                decreases rows - i,
            {
                let scalar = other.get(row, i);
                let physical_i = self.logical_row_to_physical[i];
                if scalar != 0 {
                    acc_sparse.fma(&self.sparse_elements[physical_i], scalar);
                    add_scaled_prefix(&mut acc_dense, &self.dense_elements[physical_i], ndc, scalar);
                } else {
                    proof {
                        assert forall|y: int| 0 <= y < width - ndc implies #[trigger] acc_sparse.value_at(o.logical_col_to_physical@[y])
                            == Self::combination(*other, o, row as int, y, (i + 1) as nat) by {
                            lemma_mul_zero(o.value(i as int, y));
                            lemma_add_zero(Self::combination(*other, o, row as int, y, i as nat));
                        }
                        assert forall|t: int| 0 <= t < ndc implies #[trigger] acc_dense@[t]
                            == Self::combination(*other, o, row as int, width - 1 - t, (i + 1) as nat) by {
                            lemma_mul_zero(o.value(i as int, width - 1 - t));
                            lemma_add_zero(Self::combination(*other, o, row as int, width - 1 - t, i as nat));
                        }
                    }
                }
                i = i + 1;
            }
            temp_sparse.push(acc_sparse);
            temp_dense.push(acc_dense);
            row = row + 1;
        }
        // Commit, last row first.
        let mut sparse: Vec<SparseOctetVec> = Vec::new();
        std::mem::swap(&mut self.sparse_elements, &mut sparse);
        let mut dense: Vec<Vec<u8>> = Vec::new();
        std::mem::swap(&mut self.dense_elements, &mut dense);
        let mut index: Vec<SparseValuelessVec> = Vec::new();
        std::mem::swap(&mut self.sparse_column_index, &mut index);
        let ghost ts = temp_sparse@;
        let ghost td = temp_dense@;
        while row > 0
            invariant
                o.wf(),
                o.dense_rows@.len() == 0,
                rows <= o.height,
                row <= rows,
                ndc == o.num_dense_columns,
                width == o.width,
                self.logical_row_to_physical == o.logical_row_to_physical,
                self.column_index_disabled == o.column_index_disabled,
                temp_sparse@ == ts.subrange(0, row as int),
                temp_dense@ == td.subrange(0, row as int),
                ts.len() == rows,
                td.len() == rows,
                forall|x: int| 0 <= x < rows ==> (#[trigger] ts[x]).wf(),
                forall|x: int, c: usize| 0 <= x < rows && #[trigger] ts[x].has_key(c)
                    ==> c < o.col_slots() && o.physical_col_to_logical@[c as int] < width - ndc,
                forall|x: int| 0 <= x < rows ==> (#[trigger] td[x])@.len() == ndc,
                sparse@.len() == o.sparse_elements@.len(),
                dense@.len() == o.height,
                forall|p: int| 0 <= p < o.height ==> #[trigger] sparse@[p] == if row <= o.physical_row_to_logical@[p] < rows {
                    ts[o.physical_row_to_logical@[p] as int]
                } else {
                    o.sparse_elements@[p]
                },
                forall|p: int| 0 <= p < o.height ==> #[trigger] dense@[p] == if row <= o.physical_row_to_logical@[p] < rows {
                    td[o.physical_row_to_logical@[p] as int]
                } else {
                    o.dense_elements@[p]
                },
                !o.column_index_disabled ==> {
                    &&& index@.len() == o.col_slots()
                    &&& forall|c: int| 0 <= c < o.col_slots() ==> (#[trigger] index@[c]).wf()
                    &&& forall|c: usize, r: usize| c < o.col_slots() && #[trigger] index@[c as int].contains(r) ==> r < o.height
                    &&& forall|p: int, c: usize| 0 <= p < o.height && #[trigger] sparse@[p].has_key(c)
                        ==> index@[c as int].contains(p as usize)
                },
            decreases row,
        {
            row = row - 1;
            let physical_row = self.logical_row_to_physical[row];
            proof {
                assert(o.physical_row_to_logical@[physical_row as int] == row);
                assert(temp_sparse@.len() == row + 1);
            }
            let mut s_row = match temp_sparse.pop() {
                Some(v) => v,
                None => SparseOctetVec::new(),
            };
            let mut d_row = match temp_dense.pop() {
                Some(v) => v,
                None => Vec::new(),
            };
            proof {
                assert(s_row == ts[row as int]);
                assert(d_row == td[row as int]);
                assert(temp_sparse@ =~= ts.subrange(0, row as int));
                assert(temp_dense@ =~= td.subrange(0, row as int));
            }
            let ghost prev_sparse = sparse@;
            let ghost prev_dense = dense@;
            let ghost prev_index = index@;
            sparse.set_and_swap(physical_row, &mut s_row);
            dense.set_and_swap(physical_row, &mut d_row);
            if !self.column_index_disabled {
                let cols = sparse[physical_row].keys();
                proof {
                    assert forall|x: int| 0 <= x < cols@.len() implies (#[trigger] cols@[x]) < index@.len() by {
                        assert(cols@.contains(cols@[x]));
                        assert(ts[row as int].has_key(cols@[x]));
                    }
                }
                index_insert_all(&mut index, &cols, physical_row);
                proof {
                    assert forall|p: int, c: usize| 0 <= p < o.height && #[trigger] sparse@[p].has_key(c)
                        implies index@[c as int].contains(p as usize) by {
                        if p == physical_row as int {
                            assert(cols@.contains(c));
                        } else {
                            assert(sparse@[p] == prev_sparse[p]);
                            assert(prev_index[c as int].contains(p as usize));
                        }
                    }
                }
            }
            proof {
                assert forall|p: int| 0 <= p < o.height implies #[trigger] sparse@[p] == if row <= o.physical_row_to_logical@[p] < rows {
                    ts[o.physical_row_to_logical@[p] as int]
                } else {
                    o.sparse_elements@[p]
                } by {
                    if p != physical_row as int {
                        assert(o.physical_row_to_logical@[p] != row);
                        assert(sparse@[p] == prev_sparse[p]);
                    }
                }
                assert forall|p: int| 0 <= p < o.height implies #[trigger] dense@[p] == if row <= o.physical_row_to_logical@[p] < rows {
                    td[o.physical_row_to_logical@[p] as int]
                } else {
                    o.dense_elements@[p]
                } by {
                    if p != physical_row as int {
                        assert(o.physical_row_to_logical@[p] != row);
                        assert(dense@[p] == prev_dense[p]);
                    }
                }
            }
        }
        self.sparse_elements = sparse;
        self.dense_elements = dense;
        self.sparse_column_index = index;
        proof {
            assert forall|x: int, y: int| 0 <= x < rows && 0 <= y < o.cols()
                implies #[trigger] self.value(x, y) == Self::combination(*other, o, x, y, rows as nat) by {
                let p = o.logical_row_to_physical@[x];
                assert(o.physical_row_to_logical@[p as int] == x);
                if o.width - y <= o.num_dense_columns {
                    let t = o.width - y - 1;
                    assert(td[x]@[t] == Self::combination(*other, o, x, width - 1 - t, rows as nat));
                }
            }
            assert forall|x: int, y: int| rows <= x < o.rows() && 0 <= y < o.cols()
                implies #[trigger] self.value(x, y) == o.value(x, y) by {
                let p = o.logical_row_to_physical@[x];
                assert(o.physical_row_to_logical@[p as int] == x);
            }
        }
        Ok(())
    }

    /// Checks the column index against the rows: every non-zero entry of a sparse row is
    /// recorded, and no dense row is. The layout invariant makes this always succeed.
    pub fn verify(&self) -> (r: bool)
        requires
            self.wf(),
        ensures
            r,
    {
        if self.column_index_disabled {
            return true;
        }
        let ns = self.sparse_elements.len();
        let mut row: usize = 0;
        while row < ns
            invariant
                self.wf(),
                self.index_enabled(),
                ns == self.sparse_elements@.len(),
                row <= ns,
            decreases ns - row,
        {
            let entries = &self.sparse_elements[row].elements;
            let mut k: usize = 0;
            while k < entries.len()
                invariant
                    self.wf(),
                    self.index_enabled(),
                    ns == self.sparse_elements@.len(),
                    row < ns,
                    *entries == self.sparse_elements@[row as int].elements,
                    k <= entries@.len(),
                decreases entries@.len() - k,
            {
                let (col, value) = entries[k];
                proof {
                    assert(self.sparse_elements@[row as int].has_key(col));
                }
                if value != 0 && !self.sparse_column_index[col].has(row) {
                    return false;
                }
                k = k + 1;
            }
            row = row + 1;
        }
        let mut k: usize = 0;
        while k < self.dense_rows.len()
            invariant
                self.wf(),
                self.index_enabled(),
                ns == self.sparse_elements@.len(),
                k <= self.dense_rows@.len(),
            decreases self.dense_rows@.len() - k,
        {
            let dense = &self.dense_rows[k];
            let mut j: usize = 0;
            while j < dense.len()
                invariant
                    self.wf(),
                    self.index_enabled(),
                    ns == self.sparse_elements@.len(),
                    k < self.dense_rows@.len(),
                    *dense == self.dense_rows@[k as int],
                    j <= dense@.len(),
                decreases dense@.len() - j,
            {
                let physical_col = self.logical_col_to_physical[j];
                // Dense rows are always included by column lookups and are never recorded.
                if self.sparse_column_index[physical_col].has(k + ns) {
                    return false;
                }
                j = j + 1;
            }
            k = k + 1;
        }
        true
    }

    /// While the column index is enabled, every non-zero element of a sparse row is
    /// recorded under its column.
    pub proof fn lemma_index_sound(&self, i: int, j: int)
        requires
            self.wf(),
            self.index_enabled(),
            0 <= i < self.rows(),
            0 <= j < self.cols() - self.dense_cols(),
            !self.is_dense_row(i),
            self.value(i, j) != 0,
        ensures
            self.index_lists(i, j),
    {
        let p = self.logical_row_to_physical@[i] as int;
        let c = self.logical_col_to_physical@[j];
        assert(self.sparse_elements@[p].has_key(c));
    }

    /// Number of non-zero elements of the matrix.
    pub open spec fn nonzero_total(&self) -> nat {
        sum_to(|x: int| self.nonzeros_in(x, 0, self.cols() as int).len(), self.rows())
    }

    proof fn lemma_row_nonzeros_finite(&self, x: int)
        ensures
            self.nonzeros_in(x, 0, self.cols() as int).finite(),
    {
        vstd::set_lib::lemma_int_range(0, self.cols() as int);
        assert(self.nonzeros_in(x, 0, self.cols() as int).subset_of(set_int_range(0, self.cols() as int)));
        lemma_len_subset(self.nonzeros_in(x, 0, self.cols() as int), set_int_range(0, self.cols() as int));
    }

    /// Exchanging two rows, as `swap_rows` does, keeps the number of non-zero elements.
    pub proof fn lemma_swap_rows_keeps_nonzeros(before: SparseOctetMatrix, after: SparseOctetMatrix, i: int, j: int)
        requires
            after.rows() == before.rows(),
            after.cols() == before.cols(),
            0 <= i < before.rows(),
            0 <= j < before.rows(),
            forall|x: int, y: int| 0 <= x < before.rows() && 0 <= y < before.cols()
                ==> #[trigger] after.value(x, y)
                == before.value(if x == i { j } else if x == j { i } else { x }, y),
        ensures
            after.nonzero_total() == before.nonzero_total(),
    {
        let w = before.cols() as int;
        let f = |x: int| before.nonzeros_in(x, 0, w).len();
        let g = |x: int| after.nonzeros_in(x, 0, w).len();
        assert forall|x: int| 0 <= x < before.rows() implies #[trigger] g(x)
            == f(if x == i { j } else if x == j { i } else { x }) by {
            let t = if x == i { j } else if x == j { i } else { x };
            assert(after.nonzeros_in(x, 0, w) =~= before.nonzeros_in(t, 0, w));
        }
        lemma_sum_swap(f, g, before.rows(), i, j);
    }

    /// Exchanging two columns, as `swap_columns` does, keeps the number of non-zero
    /// elements of every row, and so of the matrix.
    pub proof fn lemma_swap_columns_keeps_nonzeros(before: SparseOctetMatrix, after: SparseOctetMatrix, i: int, j: int)
        requires
            after.rows() == before.rows(),
            after.cols() == before.cols(),
            0 <= i < before.cols(),
            0 <= j < before.cols(),
            forall|x: int, y: int| 0 <= x < before.rows() && 0 <= y < before.cols()
                ==> #[trigger] after.value(x, y)
                == before.value(x, if y == i { j } else if y == j { i } else { y }),
        ensures
            forall|x: int| 0 <= x < before.rows() ==> #[trigger] after.nonzeros_in(x, 0, after.cols() as int).len()
                == before.nonzeros_in(x, 0, before.cols() as int).len(),
            after.nonzero_total() == before.nonzero_total(),
    {
        let w = before.cols() as int;
        let t = |y: int| if y == i { j } else if y == j { i } else { y };
        assert forall|x: int| 0 <= x < before.rows() implies #[trigger] after.nonzeros_in(x, 0, w).len()
            == before.nonzeros_in(x, 0, w).len() by {
            let a = after.nonzeros_in(x, 0, w);
            let b = before.nonzeros_in(x, 0, w);
            before.lemma_row_nonzeros_finite(x);
            assert forall|y: int| #[trigger] a.contains(y) <==> b.map(t).contains(y) by {
                if a.contains(y) {
                    assert(b.contains(t(y)) && t(t(y)) == y);
                }
                if b.map(t).contains(y) {
                    let z = choose|z: int| b.contains(z) && t(z) == y;
                    assert(t(y) == z);
                }
            }
            assert(a =~= b.map(t));
            assert(vstd::relations::injective_on(t, b));
            lemma_map_size(b, a, t);
        }
        let f = |x: int| before.nonzeros_in(x, 0, w).len();
        let g = |x: int| after.nonzeros_in(x, 0, w).len();
        lemma_sum_ext(f, g, before.rows());
    }
}

} // verus!
