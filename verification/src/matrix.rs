use vstd::arithmetic::div_mod::lemma_fundamental_div_mod_converse;
use vstd::prelude::*;
use vstd::string::StringExecFns;

use crate::text::int_string;
use crate::text::int_text;
use crate::vector::dot_seq;
use crate::vector::Vector;
use crate::AlgoError;

verus! {

/// How many workers the pool is configured with.
pub const NUM_THREADS: usize = 4;

/// A row-major dense matrix: `row * col` elements in one flat buffer,
/// element `(i, j)` at `data[i * col + j]`.
#[derive(Debug)]
pub struct Matrix {
    pub data: Vec<i64>,
    pub row: usize,
    pub col: usize,
}

impl Matrix {
    /// The documented shape invariant: the buffer holds exactly one
    /// element per cell. `new` does not check it; operations that index
    /// into the buffer require it.
    pub open spec fn wf(self) -> bool {
        self.data@.len() == self.row * self.col
    }

    /// The element at row `i`, column `j`.
    pub open spec fn entry(self, i: int, j: int) -> i64 {
        self.data@[i * self.col + j]
    }

    /// Stores the buffer and the dimensions verbatim; the caller is
    /// responsible for `data.len() == row * col`.
    pub fn new(data: Vec<i64>, row: usize, col: usize) -> (m: Matrix)
        ensures
            m.data@ == data@,
            m.row == row,
            m.col == col,
    {
        Matrix { data, row, col }
    }

    /// The infix convenience form, layered on the fallible entry point:
    /// it is defined only for shapes on which `multiply` cannot fail,
    /// the inputs on which the ergonomic form would otherwise abort.
    pub fn mul(self, rhs: Matrix) -> (r: Matrix)
        requires
            self.wf(),
            rhs.wf(),
            self.col == rhs.row,
            self.row * rhs.col <= usize::MAX,
        ensures
            is_product(self, rhs, r),
    {
        match multiply(&self, &rhs) {
            Ok(m) => m,
            Err(_) => {
                proof {
                    assert(false);
                }
                Matrix { data: Vec::new(), row: 0, col: 0 }
            },
        }
    }

    /// The bracketed, row-grouped textual form the matrix displays as,
    /// suitable for debugging and snapshot tests.
    pub fn to_display_string(&self) -> (r: String)
        requires
            self.wf(),
        ensures
            r@ == display_of(*self),
    {
        let mut s = String::from_str("[");
        proof {
            reveal_strlit("[");
            assert(s@ =~= seq!['['] + rows_text(*self, 0));
        }
        let mut i: usize = 0;
        while i < self.row
            invariant
                self.wf(),
                i <= self.row,
                s@ == seq!['['] + rows_text(*self, i as int),
            decreases self.row - i,
        {
            s.append("[");
            proof {
                reveal_strlit("[");
                assert(s@ =~= seq!['['] + rows_text(*self, i as int) + seq!['['] + cells_text(
                    *self,
                    i as int,
                    0,
                ));
            }
            let mut j: usize = 0;
            while j < self.col
                invariant
                    self.wf(),
                    i < self.row,
                    j <= self.col,
                    s@ == seq!['['] + rows_text(*self, i as int) + seq!['['] + cells_text(
                        *self,
                        i as int,
                        j as int,
                    ),
                decreases self.col - j,
            {
                proof {
                    assert(self.data.len() == self.data@.len());
                    assert(i as int * self.col as int + j < self.row as int * self.col as int)
                        by (nonlinear_arith)
                        requires
                            i as int + 1 <= self.row as int,
                            j < self.col as int,
                            0 <= i as int,
                            0 <= j,
                    ;
                }
                let x = self.data[i * self.col + j];
                let xs = int_string(x);
                s.append(xs.as_str());
                s.append(" ");
                proof {
                    reveal_strlit(" ");
                    assert(s@ =~= seq!['['] + rows_text(*self, i as int) + seq!['['] + cells_text(
                        *self,
                        i as int,
                        j as int + 1,
                    ));
                }
                j = j + 1;
            }
            if i == self.row - 1 {
                s.append("]");
                proof {
                    reveal_strlit("]");
                    assert(s@ =~= seq!['['] + rows_text(*self, i as int + 1));
                }
            } else {
                s.append("],\n");
                proof {
                    reveal_strlit("],\n");
                    assert(s@ =~= seq!['['] + rows_text(*self, i as int + 1));
                }
            }
            i = i + 1;
        }
        s.append("]");
        proof {
            reveal_strlit("]");
            assert(s@ =~= display_of(*self));
        }
        s
    }
}

/// The text of the first `j` cells of row `i`: each value in decimal,
/// each followed by one space.
pub open spec fn cells_text(m: Matrix, i: int, j: int) -> Seq<char>
    decreases j,
{
    if j <= 0 {
        Seq::empty()
    } else {
        cells_text(m, i, j - 1) + int_text(m.entry(i, j - 1) as int) + seq![' ']
    }
}

/// How row `i` is closed: the last row with a bare bracket, every other
/// row with a bracket, a comma and a newline.
pub open spec fn row_close(m: Matrix, i: int) -> Seq<char> {
    if i == m.row - 1 {
        seq![']']
    } else {
        seq![']', ',', '\n']
    }
}

/// The text of the first `i` rows, each bracketed and closed.
pub open spec fn rows_text(m: Matrix, i: int) -> Seq<char>
    decreases i,
{
    if i <= 0 {
        Seq::empty()
    } else {
        rows_text(m, i - 1) + seq!['['] + cells_text(m, i - 1, m.col as int) + row_close(m, i - 1)
    }
}

/// The bracketed, row-grouped rendering of `m`.
pub open spec fn display_of(m: Matrix) -> Seq<char> {
    seq!['['] + rows_text(m, m.row as int) + seq![']']
}

/// Row `i` of `m` as a sequence of length `m.col`.
pub open spec fn row_seq(m: Matrix, i: int) -> Seq<i64> {
    Seq::new(m.col as nat, |j: int| m.entry(i, j))
}

/// Column `j` of `m` as a sequence of length `m.row`.
pub open spec fn col_seq(m: Matrix, j: int) -> Seq<i64> {
    Seq::new(m.row as nat, |i: int| m.entry(i, j))
}

/// The value of output cell `k` (row-major) of the product `a * b`: the
/// dot product of the cell's row of `a` and column of `b`.
pub open spec fn cell_value(a: Matrix, b: Matrix, k: int) -> i64 {
    dot_seq(row_seq(a, k / b.col as int), col_seq(b, k % b.col as int), a.col as int)
}

/// The full output buffer of the product `a * b`, cell by cell.
pub open spec fn product_data(a: Matrix, b: Matrix) -> Seq<i64> {
    Seq::new((a.row * b.col) as nat, |k: int| cell_value(a, b, k))
}

/// `c` is the matrix product of `a` and `b`.
pub open spec fn is_product(a: Matrix, b: Matrix, c: Matrix) -> bool {
    &&& c.row == a.row
    &&& c.col == b.col
    &&& c.data@ == product_data(a, b)
}

/// One unit of dispatched work: the row and column whose dot product is
/// output cell `index`.
#[derive(Debug)]
pub struct MsgInput {
    pub index: usize,
    pub row: Vector,
    pub col: Vector,
}

impl MsgInput {
    pub fn new(index: usize, row: Vector, col: Vector) -> (m: MsgInput)
        ensures
            m.index == index,
            m.row@ == row@,
            m.col@ == col@,
    {
        MsgInput { index, row, col }
    }
}

/// One computed result: the value of output cell `index`.
#[derive(Debug, Clone, Copy, PartialEq, Eq, Structural)]
pub struct MsgOutput {
    pub index: usize,
    pub value: i64,
}

impl MsgOutput {
    pub fn new(index: usize, value: i64) -> (m: MsgOutput)
        ensures
            m.index == index,
            m.value == value,
    {
        MsgOutput { index, value }
    }
}

/// `inp` is the work item of output cell `k` of the product `a * b`.
pub open spec fn input_for(inp: MsgInput, a: Matrix, b: Matrix, k: int) -> bool {
    &&& inp.index == k
    &&& inp.row@ == row_seq(a, k / b.col as int)
    &&& inp.col@ == col_seq(b, k % b.col as int)
}

/// The worker that cell `index` is routed to: a static, deterministic,
/// content-independent round-robin assignment.
pub fn worker_for(index: usize, workers: usize) -> (w: usize)
    requires
        workers > 0,
    ensures
        w == index as int % workers as int,
        w < workers,
{
    index % workers
}

/// Row `i` of `a`, materialized as a fresh vector (a contiguous slice of
/// the buffer).
pub fn row_vector(a: &Matrix, i: usize) -> (v: Vector)
    requires
        a.wf(),
        i < a.row,
    ensures
        v@ == row_seq(*a, i as int),
{
    let mut data: Vec<i64> = Vec::new();
    let mut t: usize = 0;
    while t < a.col
        invariant
            a.wf(),
            i < a.row,
            t <= a.col,
            data@.len() == t,
            forall|j: int| 0 <= j < t ==> data@[j] == a.entry(i as int, j),
        decreases a.col - t,
    {
        proof {
            assert(a.data.len() == a.data@.len());
            assert(i as int * a.col as int + t < a.row as int * a.col as int) by (nonlinear_arith)
                requires
                    i as int + 1 <= a.row as int,
                    t < a.col as int,
                    0 <= i as int,
                    0 <= t,
            ;
        }
        let x = a.data[i * a.col + t];
        data.push(x);
        t = t + 1;
    }
    proof {
        assert(data@ =~= row_seq(*a, i as int));
    }
    Vector { data }
}

/// Column `j` of `b`, materialized as a fresh vector by a strided gather:
/// the elements at offsets `j, j + b.col, j + 2 * b.col, ...`.
pub fn col_vector(b: &Matrix, j: usize) -> (v: Vector)
    requires
        b.wf(),
        j < b.col,
    ensures
        v@ == col_seq(*b, j as int),
{
    let mut data: Vec<i64> = Vec::new();
    let mut t: usize = 0;
    while t < b.row
        invariant
            b.wf(),
            j < b.col,
            t <= b.row,
            data@.len() == t,
            forall|i: int| 0 <= i < t ==> data@[i] == b.entry(i, j as int),
        decreases b.row - t,
    {
        proof {
            assert(b.data.len() == b.data@.len());
            assert(t as int * b.col as int + j < b.row as int * b.col as int) by (nonlinear_arith)
                requires
                    t as int + 1 <= b.row as int,
                    j < b.col as int,
                    0 <= t as int,
                    0 <= j as int,
            ;
        }
        let x = b.data[t * b.col + j];
        data.push(x);
        t = t + 1;
    }
    proof {
        assert(data@ =~= col_seq(*b, j as int));
    }
    Vector { data }
}

/// Builds one work item per output cell, in row-major enumeration order:
/// item `k` carries index `k`, the cell's row of `a` and column of `b`.
pub fn plan_work(a: &Matrix, b: &Matrix) -> (items: Vec<MsgInput>)
    requires
        a.wf(),
        b.wf(),
        a.col == b.row,
        a.row * b.col <= usize::MAX,
    ensures
        items@.len() == a.row * b.col,
        forall|k: int| 0 <= k < items@.len() ==> input_for(#[trigger] items@[k], *a, *b, k),
{
    let mut items: Vec<MsgInput> = Vec::new();
    let mut i: usize = 0;
    while i < a.row
        invariant
            a.wf(),
            b.wf(),
            a.col == b.row,
            a.row * b.col <= usize::MAX,
            i <= a.row,
            items@.len() == i * b.col,
            forall|k: int| 0 <= k < items@.len() ==> input_for(#[trigger] items@[k], *a, *b, k),
        decreases a.row - i,
    {
        let mut j: usize = 0;
        while j < b.col
            invariant
                a.wf(),
                b.wf(),
                a.col == b.row,
                a.row * b.col <= usize::MAX,
                i < a.row,
                j <= b.col,
                items@.len() == i * b.col + j,
                forall|k: int| 0 <= k < items@.len() ==> input_for(#[trigger] items@[k], *a, *b, k),
            decreases b.col - j,
        {
            proof {
                assert(i as int * b.col as int + j < a.row as int * b.col as int) by (nonlinear_arith)
                    requires
                        i as int + 1 <= a.row as int,
                        j < b.col as int,
                        0 <= i as int,
                        0 <= j as int,
                ;
            }
            let index = i * b.col + j;
            let row = row_vector(a, i);
            let col = col_vector(b, j);
            items.push(MsgInput { index, row, col });
            proof {
                lemma_fundamental_div_mod_converse(
                    index as int,
                    b.col as int,
                    i as int,
                    j as int,
                );
            }
            j = j + 1;
        }
        proof {
            assert(i as int * b.col as int + b.col as int == (i as int + 1) * b.col as int)
                by (nonlinear_arith);
        }
        i = i + 1;
    }
    proof {
        assert(i as int * b.col as int == a.row as int * b.col as int);
    }
    items
}

/// What one worker does with one work item: compute the dot product and
/// label the result with the item's cell index. The mismatch arm cannot
/// be reached for items built by `plan_work` on compatible matrices.
pub fn process(input: MsgInput) -> (r: Result<MsgOutput, AlgoError>)
    ensures
        input.row@.len() == input.col@.len() <==> r is Ok,
        input.row@.len() == input.col@.len() ==> r == Ok::<MsgOutput, AlgoError>(
            (MsgOutput {
                index: input.index,
                value: dot_seq(input.row@, input.col@, input.row@.len() as int),
            }),
        ),
        input.row@.len() != input.col@.len() ==> r == Err::<MsgOutput, AlgoError>(
            AlgoError::LengthMismatch,
        ),
{
    let MsgInput { index, row, col } = input;
    match crate::vector::dot_product(row, col) {
        Ok(value) => Ok(MsgOutput { index, value }),
        Err(e) => Err(e),
    }
}

/// An all-zero output buffer of length `n`, the state before any result
/// arrives.
pub open spec fn zero_data(n: int) -> Seq<i64> {
    Seq::new(n as nat, |k: int| 0i64)
}

/// The buffer after writing each collected result at its own index, in
/// collection order.
pub open spec fn apply_outputs(outs: Seq<MsgOutput>, acc: Seq<i64>) -> Seq<i64>
    decreases outs.len(),
{
    if outs.len() == 0 {
        acc
    } else {
        apply_outputs(outs.drop_last(), acc).update(
            outs.last().index as int,
            outs.last().value,
        )
    }
}

/// Writing results never changes the buffer's length.
pub proof fn lemma_apply_outputs_len(outs: Seq<MsgOutput>, acc: Seq<i64>)
    requires
        forall|t: int| 0 <= t < outs.len() ==> (#[trigger] outs[t]).index < acc.len(),
    ensures
        apply_outputs(outs, acc).len() == acc.len(),
    decreases outs.len(),
{
    if outs.len() > 0 {
        lemma_apply_outputs_len(outs.drop_last(), acc);
    }
}

/// Some collected result carries cell index `k`.
pub open spec fn has_index(outs: Seq<MsgOutput>, k: int) -> bool {
    exists|t: int| 0 <= t < outs.len() && (#[trigger] outs[t]).index == k
}

/// A collection of results is complete and correct for `a * b`: every
/// result carries the value of its own cell, and every cell has at least
/// one result — in whatever order the workers finished.
pub open spec fn complete_outputs(outs: Seq<MsgOutput>, a: Matrix, b: Matrix) -> bool {
    &&& forall|t: int|
        0 <= t < outs.len() ==> (#[trigger] outs[t]).index < a.row * b.col && outs[t].value
            == cell_value(a, b, outs[t].index as int)
    &&& forall|k: int| 0 <= k < a.row * b.col ==> #[trigger] has_index(outs, k)
}

proof fn lemma_apply_outputs_cell(outs: Seq<MsgOutput>, acc: Seq<i64>, a: Matrix, b: Matrix, k: int)
    requires
        0 <= k < acc.len(),
        forall|t: int|
            0 <= t < outs.len() ==> (#[trigger] outs[t]).index < acc.len() && outs[t].value
                == cell_value(a, b, outs[t].index as int),
    ensures
        has_index(outs, k) ==> apply_outputs(outs, acc)[k] == cell_value(a, b, k),
        !has_index(outs, k) ==> apply_outputs(outs, acc)[k] == acc[k],
    decreases outs.len(),
{
    if outs.len() > 0 {
        let prev = outs.drop_last();
        lemma_apply_outputs_cell(prev, acc, a, b, k);
        lemma_apply_outputs_len(prev, acc);
        let last = outs.last();
        if last.index == k {
            assert(outs[outs.len() - 1].index == k);
            assert(has_index(outs, k));
        } else {
            if has_index(outs, k) {
                let t = choose|t: int| 0 <= t < outs.len() && (#[trigger] outs[t]).index == k;
                assert(t < outs.len() - 1);
                assert(prev[t] == outs[t]);
                assert(has_index(prev, k));
            } else {
                assert(!has_index(prev, k)) by {
                    if has_index(prev, k) {
                        let u = choose|u: int|
                            0 <= u < prev.len() && (#[trigger] prev[u]).index == k;
                        assert(outs[u] == prev[u]);
                    }
                };
            }
        }
    }
}

/// Whatever order a complete, correct collection of results arrives in,
/// writing each at its own index yields exactly the product buffer. This
/// is why the observed output is deterministic even though the workers'
/// completion order is not.
pub proof fn lemma_apply_complete(outs: Seq<MsgOutput>, a: Matrix, b: Matrix)
    requires
        complete_outputs(outs, a, b),
    ensures
        apply_outputs(outs, zero_data((a.row * b.col) as int)) == product_data(a, b),
{
    let n = (a.row * b.col) as int;
    let zeros = zero_data(n);
    lemma_apply_outputs_len(outs, zeros);
    assert forall|k: int| 0 <= k < n implies apply_outputs(outs, zeros)[k] == cell_value(
        a,
        b,
        k,
    ) by {
        assert(has_index(outs, k));
        lemma_apply_outputs_cell(outs, zeros, a, b, k);
    };
    assert(apply_outputs(outs, zeros) =~= product_data(a, b));
}

/// Two complete collections of the same multiplication — two runs of the
/// pool, with workers finishing in any order — assemble to bit-identical
/// buffers.
pub proof fn lemma_assembly_deterministic(
    outs1: Seq<MsgOutput>,
    outs2: Seq<MsgOutput>,
    a: Matrix,
    b: Matrix,
)
    requires
        complete_outputs(outs1, a, b),
        complete_outputs(outs2, a, b),
    ensures
        apply_outputs(outs1, zero_data((a.row * b.col) as int)) == apply_outputs(
            outs2,
            zero_data((a.row * b.col) as int),
        ),
{
    lemma_apply_complete(outs1, a, b);
    lemma_apply_complete(outs2, a, b);
}

/// Gathers one received result per dispatched cell into the output
/// buffer, each value written at its own index. A `None` stands for a
/// result channel that closed without delivering; one failed cell fails
/// the whole assembly with `ChannelFailure`.
pub fn assemble(outputs: Vec<Option<MsgOutput>>, row: usize, col: usize) -> (r: Result<
    Matrix,
    AlgoError,
>)
    requires
        row * col <= usize::MAX,
        forall|t: int|
            0 <= t < outputs@.len() && outputs@[t] is Some ==> (#[trigger] outputs@[t])->Some_0.index
                < row * col,
    ensures
        (forall|t: int| 0 <= t < outputs@.len() ==> outputs@[t] is Some) <==> r is Ok,
        r is Err ==> r == Err::<Matrix, AlgoError>(AlgoError::ChannelFailure),
        r is Ok ==> (r->Ok_0).row == row && (r->Ok_0).col == col && (r->Ok_0).wf() && (r->Ok_0).data@
            == apply_outputs(
            Seq::new(outputs@.len(), |t: int| outputs@[t]->Some_0),
            zero_data((row * col) as int),
        ),
{
    let total = row * col;
    let mut data: Vec<i64> = Vec::new();
    let mut z: usize = 0;
    while z < total
        invariant
            z <= total,
            data@.len() == z,
            forall|k: int| 0 <= k < z ==> data@[k] == 0i64,
        decreases total - z,
    {
        data.push(0);
        z = z + 1;
    }
    proof {
        assert(data@ =~= zero_data(total as int));
    }
    let ghost unwrapped = Seq::new(outputs@.len(), |t: int| outputs@[t]->Some_0);
    let n = outputs.len();
    let mut t: usize = 0;
    while t < n
        invariant
            n == outputs@.len(),
            t <= n,
            row * col <= usize::MAX,
            total == row * col,
            unwrapped == Seq::new(outputs@.len(), |u: int| outputs@[u]->Some_0),
            forall|u: int|
                0 <= u < outputs@.len() && outputs@[u] is Some ==> (#[trigger] outputs@[u])->Some_0.index
                    < row * col,
            forall|u: int| 0 <= u < t ==> outputs@[u] is Some,
            data@ == apply_outputs(unwrapped.take(t as int), zero_data(total as int)),
            data@.len() == total,
        decreases n - t,
    {
        match outputs[t] {
            Some(o) => {
                proof {
                    let taken = unwrapped.take(t as int + 1);
                    assert(taken.drop_last() =~= unwrapped.take(t as int));
                    assert(taken.last() == outputs@[t as int]->Some_0);
                }
                let index = o.index;
                let value = o.value;
                data[index] = value;
            },
            None => {
                return Err(AlgoError::ChannelFailure);
            },
        }
        t = t + 1;
    }
    proof {
        assert(unwrapped.take(n as int) =~= unwrapped);
    }
    Ok(Matrix { data, row, col })
}

/// `m` is an identity matrix: square, ones on the diagonal, zeros off it.
pub open spec fn is_identity(m: Matrix) -> bool {
    &&& m.wf()
    &&& m.row == m.col
    &&& forall|i: int, j: int|
        0 <= i < m.row && 0 <= j < m.row ==> #[trigger] m.entry(i, j) == (if i == j {
            1i64
        } else {
            0i64
        })
}

/// Output cell `(i, j)` of the product buffer is the dot product of row
/// `i` of `a` and column `j` of `b`.
pub proof fn lemma_product_cell(a: Matrix, b: Matrix, i: int, j: int)
    requires
        0 <= i < a.row,
        0 <= j < b.col,
    ensures
        product_data(a, b)[i * b.col + j] == dot_seq(row_seq(a, i), col_seq(b, j), a.col as int),
{
    let k = i * b.col + j;
    assert(0 <= k < a.row as int * b.col as int) by (nonlinear_arith)
        requires
            0 <= i,
            i + 1 <= a.row as int,
            0 <= j < b.col as int,
            k == i * b.col as int + j,
    ;
    lemma_fundamental_div_mod_converse(k, b.col as int, i, j);
}

/// Wherever a cell's products and running sums stay inside the `i64`
/// range, the product buffer holds the exact mathematical sum of
/// products for that cell, with no wrap-around.
pub proof fn lemma_product_cell_exact(a: Matrix, b: Matrix, i: int, j: int)
    requires
        0 <= i < a.row,
        0 <= j < b.col,
        forall|m: int|
            0 <= m < a.col ==> i64::MIN <= #[trigger] (row_seq(a, i)[m] * col_seq(b, j)[m])
                <= i64::MAX,
        forall|m: int|
            0 <= m <= a.col ==> i64::MIN <= #[trigger] crate::vector::dot_int(
                row_seq(a, i),
                col_seq(b, j),
                m,
            ) <= i64::MAX,
    ensures
        product_data(a, b)[i * b.col + j] == crate::vector::dot_int(
            row_seq(a, i),
            col_seq(b, j),
            a.col as int,
        ),
{
    lemma_product_cell(a, b, i, j);
    crate::vector::lemma_dot_seq_exact(row_seq(a, i), col_seq(b, j), a.col as int);
}

/// Multiplying any matrix on the right by the identity of its column
/// count leaves its buffer unchanged, element for element.
pub proof fn lemma_identity_right(a: Matrix, id: Matrix)
    requires
        a.wf(),
        is_identity(id),
        a.col == id.row,
    ensures
        product_data(a, id) == a.data@,
{
    let n = id.col as int;
    let total = a.row as int * n;
    assert forall|k: int| 0 <= k < total implies cell_value(a, id, k) == a.data@[k] by {
        let i = k / n;
        let j = k % n;
        vstd::arithmetic::div_mod::lemma_fundamental_div_mod(k, n);
        assert(0 <= j < n) by {
            vstd::arithmetic::div_mod::lemma_mod_bound(k, n);
        };
        assert(0 <= i < a.row as int) by (nonlinear_arith)
            requires
                k == n * i + j,
                0 <= j < n,
                0 <= k < a.row as int * n,
                0 < n,
        ;
        crate::vector::lemma_dot_seq_unit(row_seq(a, i), col_seq(id, j), a.col as int, j);
        assert(row_seq(a, i)[j] == a.data@[i * a.col + j]);
        assert(i * a.col + j == k) by (nonlinear_arith)
            requires
                k == n * i + j,
                a.col as int == n,
        ;
    };
    assert(product_data(a, id) =~= a.data@);
}

/// Multiplying any matrix on the left by the identity of its row count
/// leaves its buffer unchanged, element for element.
pub proof fn lemma_identity_left(id: Matrix, a: Matrix)
    requires
        a.wf(),
        is_identity(id),
        id.col == a.row,
    ensures
        product_data(id, a) == a.data@,
{
    let n = a.col as int;
    let total = id.row as int * n;
    assert forall|k: int| 0 <= k < total implies cell_value(id, a, k) == a.data@[k] by {
        let i = k / n;
        let j = k % n;
        vstd::arithmetic::div_mod::lemma_fundamental_div_mod(k, n);
        assert(0 <= j < n) by {
            vstd::arithmetic::div_mod::lemma_mod_bound(k, n);
        };
        assert(0 <= i < id.row as int) by (nonlinear_arith)
            requires
                k == n * i + j,
                0 <= j < n,
                0 <= k < id.row as int * n,
                0 < n,
        ;
        crate::vector::lemma_dot_seq_unit_left(row_seq(id, i), col_seq(a, j), id.col as int, i);
        assert(col_seq(a, j)[i] == a.data@[i * a.col + j]);
        assert(i * a.col + j == k) by (nonlinear_arith)
            requires
                k == n * i + j,
                a.col as int == n,
        ;
    };
    assert(product_data(id, a) =~= a.data@);
}

/// The multiplication entry point. Incompatible shapes are rejected with
/// `DimensionMismatch` before any work item is built; on compatible
/// shapes the result is exactly the matrix product: cell `(i, j)` is the
/// dot product of row `i` of `a` and column `j` of `b`.
pub fn multiply(a: &Matrix, b: &Matrix) -> (r: Result<Matrix, AlgoError>)
    requires
        a.wf(),
        b.wf(),
        a.row * b.col <= usize::MAX,
    ensures
        a.col == b.row <==> r is Ok,
        a.col != b.row ==> r == Err::<Matrix, AlgoError>(AlgoError::DimensionMismatch),
        a.col == b.row ==> r is Ok && is_product(*a, *b, r->Ok_0),
{
    if a.col != b.row {
        return Err(AlgoError::DimensionMismatch);
    }
    let mut items = plan_work(a, b);
    let n = items.len();
    let mut outputs: Vec<Option<MsgOutput>> = Vec::new();
    let mut t: usize = 0;
    while t < n
        invariant
            a.wf(),
            b.wf(),
            a.col == b.row,
            n == a.row * b.col,
            t <= n,
            items@.len() == n - t,
            forall|k: int|
                0 <= k < items@.len() ==> input_for(#[trigger] items@[k], *a, *b, t as int + k),
            outputs@.len() == t,
            forall|k: int|
                0 <= k < t ==> outputs@[k] == Some(
                    (MsgOutput { index: k as usize, value: cell_value(*a, *b, k) }),
                ),
        decreases n - t,
    {
        let ghost before = items@;
        let item = items.remove(0);
        proof {
            assert(input_for(item, *a, *b, t as int));
            assert(item.row@.len() == a.col);
            assert(item.col@.len() == b.row);
            assert(forall|k: int| 0 <= k < items@.len() ==> items@[k] == before[k + 1]);
        }
        match process(item) {
            Ok(o) => {
                proof {
                    assert(o.index == t);
                    assert(o.value == cell_value(*a, *b, t as int));
                }
                outputs.push(Some(o));
            },
            Err(_) => {
                proof {
                    assert(false);
                }
                outputs.push(None);
            },
        }
        t = t + 1;
    }
    let ghost unwrapped = Seq::new(outputs@.len(), |u: int| outputs@[u]->Some_0);
    proof {
        assert(forall|u: int|
            0 <= u < outputs@.len() && outputs@[u] is Some ==> (#[trigger] outputs@[u])->Some_0.index
                < a.row * b.col);
    }
    let result = assemble(outputs, a.row, b.col);
    proof {
        assert(complete_outputs(unwrapped, *a, *b)) by {
            assert(forall|u: int|
                0 <= u < unwrapped.len() ==> (#[trigger] unwrapped[u]).index == u
                    && unwrapped[u].value == cell_value(*a, *b, u));
            assert forall|k: int| 0 <= k < a.row * b.col implies #[trigger] has_index(
                unwrapped,
                k,
            ) by {
                assert(0 <= k < unwrapped.len() && unwrapped[k].index == k);
            };
        };
        lemma_apply_complete(unwrapped, *a, *b);
    }
    result
}

} // verus!
