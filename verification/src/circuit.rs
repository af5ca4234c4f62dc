//! The Fibonacci-index constraint system.
//!
//! A witness is a table of rows.  Each row carries three consecutive
//! Fibonacci accumulators `a`, `b`, `c` with `c = a + b`, the replicated
//! public candidates `input_n` and `input_fib`, the running index counter
//! `index`, and the two auxiliary cells of the zero-test gadget instances
//! attached to the row.  Polynomial gate identities tie consecutive rows
//! together, a termination identity forces `c = input_fib` on the row whose
//! index equals `input_n`, and a lookup restricts `input_n` to the index
//! values that actually occur in the table.

use vstd::prelude::*;
use vstd::arithmetic::div_mod::*;
use vstd::arithmetic::power2::{pow2, lemma_pow2_unfold, lemma_pow2_strictly_increases, lemma2_to64};
use crate::field::{
    Fe, P, s_add, s_sub, s_mul, lemma_s_range, lemma_s_mul_one_left, lemma_s_mul_one_right,
    lemma_s_mul_zero_left, lemma_s_mul_zero_right, lemma_s_sub_small, lemma_s_sub_zero_iff,
};
use crate::util::{and, eq, eval_expr, not, xif, Expr};
use crate::zero_test;
use crate::zero_test::{good_inverse, s_indicator, s_identity};

verus! {

/// Rows reserved for proof-system internals: the usable row count of a
/// circuit of size `k` is `2^k - RESERVED_ROWS + 1`.
pub const RESERVED_ROWS: u64 = 6;

/// The index value of the first row; smaller indices have no recurrence
/// preamble and are inadmissible.
pub const BASE_INDEX: u64 = 3;

/// Smallest supported size parameter (the row count must be positive).
pub const MIN_K: u32 = 3;

/// Largest supported size parameter: up to `2^12` rows the index counter
/// stays below the field modulus, so distinct rows have distinct indices.
pub const MAX_K: u32 = 12;

/// One row of the witness table.
#[derive(Clone, Copy, PartialEq, Eq, Structural, Debug)]
pub struct Row {
    pub a: Fe,
    pub b: Fe,
    pub c: Fe,
    pub input_n: Fe,
    pub input_fib: Fe,
    pub index: Fe,
    pub inv_index_diff: Fe,
    pub inv_value_diff: Fe,
    pub sel_all_rows: bool,
    pub sel_not_last_row: bool,
}

impl Row {
    pub open spec fn wf(self) -> bool {
        &&& self.a.wf()
        &&& self.b.wf()
        &&& self.c.wf()
        &&& self.input_n.wf()
        &&& self.input_fib.wf()
        &&& self.index.wf()
        &&& self.inv_index_diff.wf()
        &&& self.inv_value_diff.wf()
    }
}

/// A problem instance: the size parameter and the claimed public values.
#[derive(Clone, Copy, PartialEq, Eq, Structural, Debug)]
pub struct FibCircuit {
    pub k: u32,
    pub n: Fe,
    pub fib: Fe,
}

impl FibCircuit {
    pub open spec fn wf(self) -> bool {
        &&& MIN_K <= self.k <= MAX_K
        &&& self.n.wf()
        &&& self.fib.wf()
    }
}

/// A selector read as a field value.
pub open spec fn sel(s: bool) -> int {
    if s {
        1int
    } else {
        0int
    }
}

/// The value the first zero-test gadget examines: `index - input_n`.
pub open spec fn v_index_diff(r: Row) -> int {
    s_sub(r.index.v as int, r.input_n.v as int)
}

/// The value the second zero-test gadget examines: `c - input_fib`.
pub open spec fn v_value_diff(r: Row) -> int {
    s_sub(r.c.v as int, r.input_fib.v as int)
}

/// Gate "sum", active on every row: `a + b - c = 0`.
pub open spec fn gate_sum(r: Row) -> int {
    s_mul(sel(r.sel_all_rows), s_sub(s_add(r.a.v as int, r.b.v as int), r.c.v as int))
}

/// Gate "shift", first identity, active below the last row:
/// `a[next] - b[cur] = 0`.
pub open spec fn gate_shift_a(r: Row, next: Row) -> int {
    s_mul(sel(r.sel_not_last_row), s_sub(next.a.v as int, r.b.v as int))
}

/// Gate "shift", second identity, active below the last row:
/// `b[next] - c[cur] = 0`.
pub open spec fn gate_shift_b(r: Row, next: Row) -> int {
    s_mul(sel(r.sel_not_last_row), s_sub(next.b.v as int, r.c.v as int))
}

/// Gate "n-stable", active below the last row: `input_n` is replicated.
pub open spec fn gate_n_stable(r: Row, next: Row) -> int {
    s_mul(sel(r.sel_not_last_row), s_sub(next.input_n.v as int, r.input_n.v as int))
}

/// Gate "fib-stable", active below the last row: `input_fib` is replicated.
pub open spec fn gate_fib_stable(r: Row, next: Row) -> int {
    s_mul(sel(r.sel_not_last_row), s_sub(next.input_fib.v as int, r.input_fib.v as int))
}

/// Gate "index-increment", active below the last row:
/// `index[cur] + 1 - index[next] = 0`.
pub open spec fn gate_index_step(r: Row, next: Row) -> int {
    s_mul(sel(r.sel_not_last_row), s_sub(s_add(r.index.v as int, 1), next.index.v as int))
}

/// The identity of the zero-test gadget watching `index - input_n`.
pub open spec fn gate_zero_test_index(r: Row) -> int {
    s_mul(sel(r.sel_all_rows), s_identity(v_index_diff(r), r.inv_index_diff.v as int))
}

/// The identity of the zero-test gadget watching `c - input_fib`.
pub open spec fn gate_zero_test_value(r: Row) -> int {
    s_mul(sel(r.sel_all_rows), s_identity(v_value_diff(r), r.inv_value_diff.v as int))
}

/// The termination implication, active on every row:
/// `z_idx * (1 - z_val) = 0`, i.e. `index = input_n` implies
/// `c = input_fib`.
pub open spec fn gate_termination(r: Row) -> int {
    s_mul(
        sel(r.sel_all_rows),
        s_mul(
            s_indicator(v_index_diff(r), r.inv_index_diff.v as int),
            s_sub(1, s_indicator(v_value_diff(r), r.inv_value_diff.v as int)),
        ),
    )
}

/// All single-row gates vanish on `r`.
pub open spec fn row_gates_hold(r: Row) -> bool {
    &&& gate_sum(r) == 0
    &&& gate_zero_test_index(r) == 0
    &&& gate_zero_test_value(r) == 0
    &&& gate_termination(r) == 0
}

/// All gates that relate a row to its successor vanish on `(r, next)`.
pub open spec fn pair_gates_hold(r: Row, next: Row) -> bool {
    &&& gate_shift_a(r, next) == 0
    &&& gate_shift_b(r, next) == 0
    &&& gate_n_stable(r, next) == 0
    &&& gate_fib_stable(r, next) == 0
    &&& gate_index_step(r, next) == 0
}

/// The membership lookup for row `t`: the row's `input_n` occurs somewhere
/// in the index column.
pub open spec fn lookup_holds(rows: Seq<Row>, t: int) -> bool {
    exists|j: int| 0 <= j < rows.len() && rows[j].index.v == rows[t].input_n.v
}

/// Full constraint satisfaction: the two first-row cells bound to the
/// public input vector carry `n` and `fib`, and every gate and every lookup
/// vanishes.
pub open spec fn constraints_hold(rows: Seq<Row>, n: Fe, fib: Fe) -> bool {
    &&& rows.len() >= 1
    &&& rows[0].input_n == n
    &&& rows[0].input_fib == fib
    &&& forall|t: int| 0 <= t < rows.len() ==> row_gates_hold(#[trigger] rows[t])
    &&& forall|t: int|
        0 <= t < rows.len() - 1 ==> pair_gates_hold(#[trigger] rows[t], rows[t + 1])
    &&& forall|t: int| 0 <= t < rows.len() ==> #[trigger] lookup_holds(rows, t)
}

/// The accumulator pair `(a, b)` of row offset `t`, from seed `(1, 1)`.
pub open spec fn fib_state(t: nat) -> (int, int)
    decreases t,
{
    if t == 0 {
        (1int, 1int)
    } else {
        let (a, b) = fib_state((t - 1) as nat);
        (b, s_add(a, b))
    }
}

/// The running Fibonacci value held in column `c` at row offset `t`; this
/// is the true Fibonacci value at index `BASE_INDEX + t`.
pub open spec fn fib_value_at(t: nat) -> int {
    s_add(fib_state(t).0, fib_state(t).1)
}

/// The largest assigned row offset of a circuit of size `k`.
pub open spec fn usable_rows(k: nat) -> int {
    pow2(k) - RESERVED_ROWS + 1
}

/// The number of assigned rows: offsets `0 ..= usable_rows(k)`.
pub open spec fn row_count(k: nat) -> int {
    usable_rows(k) + 1
}

/// The relation the constraint system encodes: `n` is an index the table
/// can reach, and `fib` is the Fibonacci value at that index.
pub open spec fn spec_valid(circ: FibCircuit) -> bool {
    &&& BASE_INDEX <= circ.n.v
    &&& circ.n.v <= BASE_INDEX + usable_rows(circ.k as nat)
    &&& circ.fib.v == fib_value_at((circ.n.v - BASE_INDEX) as nat)
}

/// Row `t` of the table the assignment procedure produces for `circ`;
/// `last` is the offset of the final row.
pub open spec fn assigned_row(circ: FibCircuit, t: int, last: int, r: Row) -> bool {
    &&& r.wf()
    &&& r.a.v == fib_state(t as nat).0
    &&& r.b.v == fib_state(t as nat).1
    &&& r.c.v == fib_value_at(t as nat)
    &&& r.input_n == circ.n
    &&& r.input_fib == circ.fib
    &&& r.index.v == BASE_INDEX + t
    &&& good_inverse(v_index_diff(r), r.inv_index_diff.v as int)
    &&& good_inverse(v_value_diff(r), r.inv_value_diff.v as int)
    &&& r.sel_all_rows
    &&& (r.sel_not_last_row <==> t < last)
}

/// The full table the assignment procedure produces for `circ`.
pub open spec fn is_assignment(circ: FibCircuit, rows: Seq<Row>) -> bool {
    &&& rows.len() == row_count(circ.k as nat)
    &&& forall|t: int|
        0 <= t < rows.len() ==> assigned_row(circ, t, rows.len() - 1, #[trigger] rows[t])
}

/// Bounds on the usable row count for every supported size parameter.
pub proof fn lemma_usable_rows_bounds(k: nat)
    requires
        MIN_K <= k <= MAX_K,
    ensures
        3 <= usable_rows(k) <= 4091,
{
    lemma2_to64();
    if k < 12 {
        lemma_pow2_strictly_increases(k, 12);
    }
    if k > 3 {
        lemma_pow2_strictly_increases(3, k);
    }
}

impl FibCircuit {
    /// The largest assigned row offset, `2^k - RESERVED_ROWS + 1`.
    pub fn usable_rows_exec(&self) -> (r: u64)
        requires
            self.wf(),
        ensures
            r == usable_rows(self.k as nat),
            3 <= r <= 4091,
    {
        let mut cap: u64 = 1;
        let mut i: u32 = 0;
        proof {
            lemma2_to64();
        }
        while i < self.k
            invariant
                i <= self.k <= MAX_K,
                cap == pow2(i as nat),
            decreases self.k - i,
        {
            proof {
                lemma2_to64();
                if i < 12 {
                    lemma_pow2_strictly_increases(i as nat, 12);
                }
                lemma_pow2_unfold((i + 1) as nat);
            }
            cap = cap * 2;
            i = i + 1;
        }
        proof {
            lemma_usable_rows_bounds(self.k as nat);
        }
        cap - RESERVED_ROWS + 1
    }

    /// Witness assignment: deterministically populates every row for this
    /// instance.  The resulting table is described exactly by
    /// `is_assignment`.
    pub fn synthesize(&self) -> (rows: Vec<Row>)
        requires
            self.wf(),
        ensures
            is_assignment(*self, rows@),
    {
        let usable: u64 = self.usable_rows_exec();
        let mut rows: Vec<Row> = Vec::new();
        let mut a = Fe::one();
        let mut b = Fe::one();
        let mut index = Fe::from_u64(BASE_INDEX);
        let mut offset: u64 = 0;
        while offset <= usable
            invariant
                self.wf(),
                usable == usable_rows(self.k as nat),
                3 <= usable <= 4091,
                offset <= usable + 1,
                rows@.len() == offset,
                a.wf(),
                b.wf(),
                a.v == fib_state(offset as nat).0,
                b.v == fib_state(offset as nat).1,
                index.wf(),
                index.v == BASE_INDEX + offset,
                forall|t: int|
                    0 <= t < offset ==> assigned_row(
                        *self,
                        t,
                        usable as int,
                        #[trigger] rows@[t],
                    ),
            decreases usable + 1 - offset,
        {
            let c = a.add(b);
            let index_diff = index.sub(self.n);
            let value_diff = c.sub(self.fib);
            let inv_index_diff = zero_test::assign(index_diff);
            let inv_value_diff = zero_test::assign(value_diff);
            let row = Row {
                a,
                b,
                c,
                input_n: self.n,
                input_fib: self.fib,
                index,
                inv_index_diff,
                inv_value_diff,
                sel_all_rows: true,
                sel_not_last_row: offset < usable,
            };
            proof {
                assert(v_index_diff(row) == index_diff.v as int);
                assert(v_value_diff(row) == value_diff.v as int);
                assert(assigned_row(*self, offset as int, usable as int, row));
            }
            rows.push(row);
            a = b;
            b = c;
            proof {
                // The index counter never wraps: it stays below the modulus.
                lemma_small_mod((index.v + 1) as nat, P as nat);
            }
            index = index.add(Fe::one());
            offset = offset + 1;
        }
        rows
    }
}

/// The selector of a row as a constant expression.
fn sel_expr(s: bool) -> (r: Expr)
    ensures
        crate::util::expr_wf(r),
        crate::util::s_eval(r) == sel(s),
{
    if s {
        Expr::Constant(Fe::one())
    } else {
        Expr::Constant(Fe::zero())
    }
}

/// A cell's value as a constant expression.
fn cell(f: Fe) -> (r: Expr)
    requires
        f.wf(),
    ensures
        crate::util::expr_wf(r),
        crate::util::s_eval(r) == f.v,
{
    Expr::Constant(f)
}

/// Builds the zero-test indicator `1 - v * inv` for one row.
fn indicator_expr(v: Fe, inv: Fe) -> (r: Expr)
    requires
        v.wf(),
        inv.wf(),
    ensures
        crate::util::expr_wf(r),
        crate::util::s_eval(r) == s_indicator(v.v as int, inv.v as int),
{
    not(and(cell(v), cell(inv)))
}

/// Evaluates every single-row gate of `r` and reports whether all vanish.
/// Each gate polynomial is built with the expression combinators and then
/// evaluated on the row's cell values.
pub fn row_gates_ok(r: Row) -> (ok: bool)
    requires
        r.wf(),
    ensures
        ok == row_gates_hold(r),
{
    let index_diff = r.index.sub(r.input_n);
    let value_diff = r.c.sub(r.input_fib);
    // a + b = c
    let g_sum = eval_expr(
        &and(
            sel_expr(r.sel_all_rows),
            eq(Expr::Sum(Box::new(cell(r.a)), Box::new(cell(r.b))), cell(r.c)),
        ),
    );
    // The two zero-test identities, v * (1 - v * inv) = 0.
    let zt_index = and(cell(index_diff), indicator_expr(index_diff, r.inv_index_diff));
    let g_zt_index = eval_expr(&and(sel_expr(r.sel_all_rows), zt_index));
    let zt_value = and(cell(value_diff), indicator_expr(value_diff, r.inv_value_diff));
    let g_zt_value = eval_expr(&and(sel_expr(r.sel_all_rows), zt_value));
    // index = n implies c = fib.
    let g_term = eval_expr(
        &and(
            sel_expr(r.sel_all_rows),
            xif(
                indicator_expr(index_diff, r.inv_index_diff),
                indicator_expr(value_diff, r.inv_value_diff),
            ),
        ),
    );
    g_sum.v == 0 && g_zt_index.v == 0 && g_zt_value.v == 0 && g_term.v == 0
}

/// Evaluates every gate relating `r` to its successor `next` and reports
/// whether all vanish.
pub fn pair_gates_ok(r: Row, next: Row) -> (ok: bool)
    requires
        r.wf(),
        next.wf(),
    ensures
        ok == pair_gates_hold(r, next),
{
    let g_shift_a = eval_expr(&and(sel_expr(r.sel_not_last_row), eq(cell(next.a), cell(r.b))));
    let g_shift_b = eval_expr(&and(sel_expr(r.sel_not_last_row), eq(cell(next.b), cell(r.c))));
    let g_n = eval_expr(
        &and(sel_expr(r.sel_not_last_row), eq(cell(next.input_n), cell(r.input_n))),
    );
    let g_fib = eval_expr(
        &and(sel_expr(r.sel_not_last_row), eq(cell(next.input_fib), cell(r.input_fib))),
    );
    let g_step = eval_expr(
        &and(
            sel_expr(r.sel_not_last_row),
            eq(
                Expr::Sum(Box::new(cell(r.index)), Box::new(cell(Fe::one()))),
                cell(next.index),
            ),
        ),
    );
    g_shift_a.v == 0 && g_shift_b.v == 0 && g_n.v == 0 && g_fib.v == 0 && g_step.v == 0
}

/// Scans the index column for the `input_n` value of row `t`.
fn lookup_ok_exec(rows: &Vec<Row>, t: usize) -> (ok: bool)
    requires
        t < rows@.len(),
    ensures
        ok == lookup_holds(rows@, t as int),
{
    let n_val = rows[t].input_n.v;
    let mut j: usize = 0;
    while j < rows.len()
        invariant
            t < rows@.len(),
            j <= rows@.len(),
            n_val == rows@[t as int].input_n.v,
            forall|i: int| 0 <= i < j ==> rows@[i].index.v != n_val,
        decreases rows@.len() - j,
    {
        if rows[j].index.v == n_val {
            return true;
        }
        j = j + 1;
    }
    false
}

/// The single-row gates vanish on every row of the assigned table of an
/// instance whose claim is true.
proof fn lemma_assigned_row_gates(circ: FibCircuit, t: int, last: int, r: Row)
    requires
        circ.wf(),
        spec_valid(circ),
        assigned_row(circ, t, last, r),
        0 <= t <= last,
        last == usable_rows(circ.k as nat),
    ensures
        row_gates_hold(r),
{
    lemma_usable_rows_bounds(circ.k as nat);
    // Gate "sum": c was computed as a + b.
    lemma_s_sub_zero_iff(s_add(r.a.v as int, r.b.v as int), r.c.v as int);
    lemma_s_mul_one_left(0);
    assert(gate_sum(r) == 0);
    // The two zero-test identities hold because the auxiliary cells were
    // witnessed correctly.
    let v1 = v_index_diff(r);
    let w1 = r.inv_index_diff.v as int;
    let v2 = v_value_diff(r);
    let w2 = r.inv_value_diff.v as int;
    lemma_s_range(r.index.v + P - r.input_n.v);
    lemma_s_range(r.c.v + P - r.input_fib.v);
    zero_test::lemma_round_trip(v1, w1);
    zero_test::lemma_round_trip(v2, w2);
    assert(gate_zero_test_index(r) == 0);
    assert(gate_zero_test_value(r) == 0);
    // The termination implication.
    let z1 = s_indicator(v1, w1);
    let z2 = s_indicator(v2, w2);
    if v1 == 0 {
        // This is the row whose index equals n, so c carries the true
        // Fibonacci value, which equals the claimed one.
        lemma_s_sub_zero_iff(r.index.v as int, r.input_n.v as int);
        assert(circ.n.v == BASE_INDEX + t);
        assert(r.c.v == circ.fib.v);
        lemma_s_sub_zero_iff(r.c.v as int, r.input_fib.v as int);
        assert(v2 == 0);
        assert(z2 == 1);
        lemma_s_sub_small(1, 1);
        lemma_s_mul_zero_right(z1);
        lemma_s_mul_one_left(0);
        assert(gate_termination(r) == 0);
    } else {
        assert(z1 == 0);
        lemma_s_range(1 + P - z2);
        lemma_s_mul_zero_left(s_sub(1, z2));
        lemma_s_mul_one_left(0);
        assert(gate_termination(r) == 0);
    }
}

/// The successor gates vanish on every adjacent pair of the assigned table.
proof fn lemma_assigned_pair_gates(circ: FibCircuit, t: int, last: int, r: Row, next: Row)
    requires
        circ.wf(),
        assigned_row(circ, t, last, r),
        assigned_row(circ, t + 1, last, next),
        0 <= t < last,
        last == usable_rows(circ.k as nat),
    ensures
        pair_gates_hold(r, next),
{
    lemma_usable_rows_bounds(circ.k as nat);
    assert(fib_state(((t + 1) as nat)) == (
        fib_state(t as nat).1,
        s_add(fib_state(t as nat).0, fib_state(t as nat).1),
    ));
    // a[next] = b[cur] and b[next] = c[cur].
    lemma_s_sub_zero_iff(next.a.v as int, r.b.v as int);
    lemma_s_sub_zero_iff(next.b.v as int, r.c.v as int);
    // The public candidates are replicated.
    lemma_s_sub_zero_iff(next.input_n.v as int, r.input_n.v as int);
    lemma_s_sub_zero_iff(next.input_fib.v as int, r.input_fib.v as int);
    // The index counter increments without wrapping.
    lemma_small_mod((BASE_INDEX + t + 1) as nat, P as nat);
    assert(s_add(r.index.v as int, 1) == BASE_INDEX + t + 1);
    lemma_s_sub_zero_iff(BASE_INDEX + t + 1, next.index.v as int);
    lemma_s_mul_one_left(0);
    assert(gate_shift_a(r, next) == 0);
    assert(gate_shift_b(r, next) == 0);
    assert(gate_n_stable(r, next) == 0);
    assert(gate_fib_stable(r, next) == 0);
    assert(gate_index_step(r, next) == 0);
}

/// Completeness: for a true claim — `n` within the reach of the table and
/// `fib` the true Fibonacci value at index `n` — the assigned witness
/// satisfies every constraint.
pub proof fn lemma_assignment_complete(circ: FibCircuit, rows: Seq<Row>)
    requires
        circ.wf(),
        is_assignment(circ, rows),
        spec_valid(circ),
    ensures
        constraints_hold(rows, circ.n, circ.fib),
{
    let len = rows.len() as int;
    lemma_usable_rows_bounds(circ.k as nat);
    assert(assigned_row(circ, 0, len - 1, rows[0]));
    assert forall|t: int| 0 <= t < len implies row_gates_hold(#[trigger] rows[t]) by {
        lemma_assigned_row_gates(circ, t, len - 1, rows[t]);
    }
    assert forall|t: int| 0 <= t < len - 1 implies pair_gates_hold(
        #[trigger] rows[t],
        rows[t + 1],
    ) by {
        lemma_assigned_pair_gates(circ, t, len - 1, rows[t], rows[t + 1]);
    }
    assert forall|t: int| 0 <= t < len implies #[trigger] lookup_holds(rows, t) by {
        let j = circ.n.v - BASE_INDEX;
        assert(assigned_row(circ, j, len - 1, rows[j]));
        assert(rows[j].index.v == circ.n.v);
        assert(assigned_row(circ, t, len - 1, rows[t]));
        assert(0 <= j < rows.len() && rows[j].index.v == rows[t].input_n.v);
    }
}

/// On a row whose index matches the candidate, a vanishing termination
/// gate and a vanishing value zero-test force `c` to equal `input_fib`.
proof fn lemma_termination_forces(r: Row)
    requires
        r.wf(),
        r.sel_all_rows,
        r.index.v == r.input_n.v,
        gate_termination(r) == 0,
        gate_zero_test_value(r) == 0,
    ensures
        r.c.v == r.input_fib.v,
{
    // The first zero-test sees zero, so its indicator is one.
    let v1 = v_index_diff(r);
    let w1 = r.inv_index_diff.v as int;
    let v2 = v_value_diff(r);
    let w2 = r.inv_value_diff.v as int;
    lemma_s_sub_zero_iff(r.index.v as int, r.input_n.v as int);
    assert(v1 == 0);
    lemma_s_mul_zero_left(w1);
    lemma_s_sub_small(1, 0);
    let z1 = s_indicator(v1, w1);
    assert(z1 == 1);
    let z2 = s_indicator(v2, w2);
    lemma_s_range(r.c.v + P - r.input_fib.v);
    lemma_s_range(v2 * w2);
    lemma_s_range(1 + P - s_mul(v2, w2));
    // The termination gate then forces the second indicator to one.
    lemma_s_range(1 + P - z2);
    lemma_s_mul_one_left(s_mul(z1, s_sub(1, z2)));
    lemma_s_range(1 * s_sub(1, z2));
    lemma_s_mul_one_left(s_sub(1, z2));
    assert(s_sub(1, z2) == 0);
    lemma_s_sub_zero_iff(1, z2);
    assert(z2 == 1);
    // The second zero-test identity then forces c == input_fib.
    lemma_s_range(v2 * s_indicator(v2, w2));
    lemma_s_mul_one_left(s_identity(v2, w2));
    assert(s_identity(v2, w2) == 0);
    lemma_s_mul_one_right(v2);
    assert(v2 == 0);
    lemma_s_sub_zero_iff(r.c.v as int, r.input_fib.v as int);
}

/// The parts of a witness table the prover does not choose: its size, the
/// selector pattern, and the index column.
pub open spec fn fixed_config_ok(rows: Seq<Row>, k: nat) -> bool {
    &&& rows.len() == row_count(k)
    &&& forall|t: int|
        0 <= t < rows.len() ==> {
            let r = #[trigger] rows[t];
            &&& r.wf()
            &&& r.sel_all_rows
            &&& (r.sel_not_last_row <==> t < rows.len() - 1)
            &&& r.index.v == BASE_INDEX + t
        }
}

/// Under the gates, the advice columns of any satisfying witness follow
/// the recurrence from the first row's accumulators, and the public
/// candidates are replicated from the first row.
proof fn lemma_columns_follow(rows: Seq<Row>, k: nat, t: int)
    requires
        MIN_K <= k <= MAX_K,
        fixed_config_ok(rows, k),
        rows[0].a.v == 1,
        rows[0].b.v == 1,
        0 <= t < rows.len(),
        forall|s: int| 0 <= s < rows.len() ==> row_gates_hold(#[trigger] rows[s]),
        forall|s: int|
            0 <= s < rows.len() - 1 ==> pair_gates_hold(#[trigger] rows[s], rows[s + 1]),
    ensures
        rows[t].input_n.v == rows[0].input_n.v,
        rows[t].input_fib.v == rows[0].input_fib.v,
        rows[t].a.v == fib_state(t as nat).0,
        rows[t].b.v == fib_state(t as nat).1,
        rows[t].c.v == fib_value_at(t as nat),
    decreases t,
{
    let r = rows[t];
    if t > 0 {
        lemma_columns_follow(rows, k, t - 1);
        let prev = rows[t - 1];
        // The successor gates are active on row t - 1.
        assert(pair_gates_hold(prev, r));
        lemma_s_range(r.a.v + P - prev.b.v);
        lemma_s_mul_one_left(s_sub(r.a.v as int, prev.b.v as int));
        lemma_s_sub_zero_iff(r.a.v as int, prev.b.v as int);
        lemma_s_range(r.b.v + P - prev.c.v);
        lemma_s_mul_one_left(s_sub(r.b.v as int, prev.c.v as int));
        lemma_s_sub_zero_iff(r.b.v as int, prev.c.v as int);
        lemma_s_range(r.input_n.v + P - prev.input_n.v);
        lemma_s_mul_one_left(s_sub(r.input_n.v as int, prev.input_n.v as int));
        lemma_s_sub_zero_iff(r.input_n.v as int, prev.input_n.v as int);
        lemma_s_range(r.input_fib.v + P - prev.input_fib.v);
        lemma_s_mul_one_left(s_sub(r.input_fib.v as int, prev.input_fib.v as int));
        lemma_s_sub_zero_iff(r.input_fib.v as int, prev.input_fib.v as int);
        assert(fib_state((t as nat)) == (
            fib_state((t - 1) as nat).1,
            s_add(fib_state((t - 1) as nat).0, fib_state((t - 1) as nat).1),
        ));
    }
    // The sum gate pins c = a + b on row t.
    assert(row_gates_hold(r));
    lemma_s_range(r.a.v + r.b.v);
    lemma_s_range(s_add(r.a.v as int, r.b.v as int) + P - r.c.v);
    lemma_s_mul_one_left(s_sub(s_add(r.a.v as int, r.b.v as int), r.c.v as int));
    lemma_s_sub_zero_iff(s_add(r.a.v as int, r.b.v as int), r.c.v as int);
}

/// Gate-level soundness: any witness table that keeps the fixed
/// configuration, starts the recurrence from the seed `a = b = 1`, and
/// satisfies every constraint proves a true claim — `n` is an index the
/// table reaches, and `fib` is the true Fibonacci value at index `n`.
pub proof fn lemma_gates_sound(rows: Seq<Row>, k: nat, n: Fe, fib: Fe)
    requires
        MIN_K <= k <= MAX_K,
        fixed_config_ok(rows, k),
        rows[0].a.v == 1,
        rows[0].b.v == 1,
        n.wf(),
        fib.wf(),
        constraints_hold(rows, n, fib),
    ensures
        BASE_INDEX <= n.v <= BASE_INDEX + usable_rows(k),
        fib.v == fib_value_at((n.v - BASE_INDEX) as nat),
{
    let len = rows.len() as int;
    lemma_usable_rows_bounds(k);
    // The lookup on the first row puts n somewhere in the index column.
    assert(lookup_holds(rows, 0));
    let j = choose|j: int| 0 <= j < rows.len() && rows[j].index.v == rows[0].input_n.v;
    assert(n.v == BASE_INDEX + j);
    // The columns of row j follow the recurrence, and the termination
    // implication pins the claimed value there.
    lemma_columns_follow(rows, k, j);
    lemma_termination_forces(rows[j]);
    assert(fib.v == fib_value_at(j as nat));
}

/// Soundness of the assigned witness: if every constraint is satisfied,
/// the claim is true.  An inadmissible `n` fails the lookup; a wrong
/// `fib` fails the termination implication on the row whose index equals
/// `n`.
pub proof fn lemma_assignment_sound(circ: FibCircuit, rows: Seq<Row>)
    requires
        circ.wf(),
        is_assignment(circ, rows),
        constraints_hold(rows, circ.n, circ.fib),
    ensures
        spec_valid(circ),
{
    let len = rows.len() as int;
    lemma_usable_rows_bounds(circ.k as nat);
    assert(assigned_row(circ, 0, len - 1, rows[0]));
    assert forall|t: int| 0 <= t < rows.len() implies {
        let r = #[trigger] rows[t];
        &&& r.wf()
        &&& r.sel_all_rows
        &&& (r.sel_not_last_row <==> t < rows.len() - 1)
        &&& r.index.v == BASE_INDEX + t
    } by {
        assert(assigned_row(circ, t, len - 1, rows[t]));
    }
    lemma_gates_sound(rows, circ.k as nat, circ.n, circ.fib);
}

/// An index below the base of the admissible range is rejected, whatever
/// value is claimed: no row's index can ever equal it.
pub proof fn lemma_below_range_rejected(circ: FibCircuit, rows: Seq<Row>)
    requires
        circ.wf(),
        is_assignment(circ, rows),
        circ.n.v < BASE_INDEX,
    ensures
        !constraints_hold(rows, circ.n, circ.fib),
{
    if constraints_hold(rows, circ.n, circ.fib) {
        lemma_assignment_sound(circ, rows);
    }
}

/// An index beyond the row capacity implied by `k` is rejected, whatever
/// value is claimed: the table never reaches it.
pub proof fn lemma_beyond_capacity_rejected(circ: FibCircuit, rows: Seq<Row>)
    requires
        circ.wf(),
        is_assignment(circ, rows),
        circ.n.v > BASE_INDEX + usable_rows(circ.k as nat),
    ensures
        !constraints_hold(rows, circ.n, circ.fib),
{
    if constraints_hold(rows, circ.n, circ.fib) {
        lemma_assignment_sound(circ, rows);
    }
}

impl FibCircuit {
    /// Builds the witness for this instance and checks every constraint.
    ///
    /// The result is exactly the encoded relation: `true` when `n` is an
    /// index the table reaches and `fib` is the true Fibonacci value at
    /// index `n` (seed 1, 1 at the base index), `false` otherwise —
    /// in particular for any wrong `fib`, for `n` below the base index,
    /// and for `n` beyond the row capacity that `k` provides.
    pub fn validate(&self) -> (r: bool)
        requires
            self.wf(),
        ensures
            r == spec_valid(*self),
    {
        let rows = self.synthesize();
        let ok = check_constraints(&rows, self.n, self.fib);
        proof {
            if spec_valid(*self) {
                lemma_assignment_complete(*self, rows@);
            }
            if constraints_hold(rows@, self.n, self.fib) {
                lemma_assignment_sound(*self, rows@);
            }
        }
        ok
    }
}

/// The constraint checker: evaluates every gate on every row, the
/// membership lookup, and the binding of the first row's `input_n` and
/// `input_fib` cells to the public input vector `[n, fib]`.
pub fn check_constraints(rows: &Vec<Row>, n: Fe, fib: Fe) -> (ok: bool)
    requires
        forall|t: int| 0 <= t < rows@.len() ==> (#[trigger] rows@[t]).wf(),
    ensures
        ok == constraints_hold(rows@, n, fib),
{
    if rows.len() == 0 {
        return false;
    }
    if !(rows[0].input_n == n) {
        return false;
    }
    if !(rows[0].input_fib == fib) {
        return false;
    }
    let mut t: usize = 0;
    while t < rows.len()
        invariant
            rows@.len() >= 1,
            t <= rows@.len(),
            rows@[0].input_n == n,
            rows@[0].input_fib == fib,
            forall|s: int| 0 <= s < rows@.len() ==> (#[trigger] rows@[s]).wf(),
            forall|s: int| 0 <= s < t ==> row_gates_hold(#[trigger] rows@[s]),
            forall|s: int|
                0 <= s < t && s < rows@.len() - 1 ==> pair_gates_hold(
                    #[trigger] rows@[s],
                    rows@[s + 1],
                ),
            forall|s: int| 0 <= s < t ==> #[trigger] lookup_holds(rows@, s),
        decreases rows@.len() - t,
    {
        if !row_gates_ok(rows[t]) {
            return false;
        }
        if t + 1 < rows.len() {
            if !pair_gates_ok(rows[t], rows[t + 1]) {
                return false;
            }
        }
        if !lookup_ok_exec(rows, t) {
            return false;
        }
        t = t + 1;
    }
    true
}

} // verus!
