use vstd::arithmetic::div_mod::{
    lemma_fundamental_div_mod, lemma_fundamental_div_mod_converse, lemma_hoist_over_denominator,
    lemma_mod_multiples_vanish,
};
use vstd::arithmetic::power2::{
    lemma2_to64, lemma_pow2_adds, lemma_pow2_pos, lemma_pow2_strictly_increases, lemma_pow2_unfold,
    pow2,
};
use vstd::prelude::*;
use vstd::slice::slice_to_vec;

verus! {

/// How many steps the variable at position `v` (0-based) keeps one value
/// among `n` variables: `2^n / 2^(v + 1)`.
pub open spec fn flip_target(n: nat, v: nat) -> nat {
    pow2(n) / pow2(v + 1)
}

/// The value of the variable at position `v` (0-based) at step `step`: it starts
/// `true` and toggles after every `flip_target(n, v)` steps.
pub open spec fn cell(n: nat, v: nat, step: nat) -> bool {
    (step / flip_target(n, v)) % 2 == 0
}

/// The values of all `n` variables at step `step`, first variable first.
pub open spec fn assignment(n: nat, step: nat) -> Seq<bool> {
    Seq::new(n, |v: int| cell(n, v as nat, step))
}

/// For `v < n` the flip target is the power of two `2^(n - v - 1)`.
pub proof fn lemma_flip_target(n: nat, v: nat)
    requires
        v < n,
    ensures
        flip_target(n, v) == pow2((n - v - 1) as nat),
        flip_target(n, v) >= 1,
{
    let k = (n - v - 1) as nat;
    lemma_pow2_adds(k, v + 1);
    lemma_pow2_pos(v + 1);
    lemma_pow2_pos(k);
    assert(k + (v + 1) == n);
    lemma_fundamental_div_mod_converse(
        pow2(n) as int,
        pow2(v + 1) as int,
        pow2(k) as int,
        0,
    );
}

/// Moving one step on, `step / d` grows by one exactly when the new step is a
/// multiple of `d`, and stays the same otherwise.
proof fn lemma_div_next(step: nat, d: nat)
    requires
        d >= 1,
    ensures
        (step + 1) % d == 0 ==> (step + 1) / d == step / d + 1,
        (step + 1) % d != 0 ==> (step + 1) / d == step / d,
{
    let q = step / d;
    let r = step % d;
    lemma_fundamental_div_mod(step as int, d as int);
    assert(step + 1 == q * d + (r + 1)) by (nonlinear_arith)
        requires
            step == d * q + r,
    ;
    assert(step + 1 == (q + 1) * d + (r + 1 - d)) by (nonlinear_arith)
        requires
            step + 1 == q * d + (r + 1),
    ;
    if r + 1 < d {
        lemma_fundamental_div_mod_converse((step + 1) as int, d as int, q as int, (r + 1) as int);
    } else {
        lemma_fundamental_div_mod_converse((step + 1) as int, d as int, (q + 1) as int, 0);
    }
}

/// Each column of the table starts `true` at step 0 and changes value between
/// steps `i` and `i + 1` exactly when `i + 1` is a multiple of the column's flip
/// target `2^n / 2^(v + 1)`; that target is at least 1.
pub proof fn lemma_column_toggles(n: nat, v: nat, i: nat)
    requires
        v < n,
    ensures
        cell(n, v, 0),
        flip_target(n, v) >= 1,
        (cell(n, v, i + 1) != cell(n, v, i)) <==> ((i + 1) % flip_target(n, v) == 0),
{
    lemma_flip_target(n, v);
    let d = flip_target(n, v);
    lemma_div_next(i, d);
    assert(0nat / d == 0) by {
        lemma_fundamental_div_mod_converse(0, d as int, 0, 0);
    }
}

/// The first variable is true in the first half of the steps; the others
/// repeat, in each half, the enumeration of one variable fewer.
proof fn lemma_assignment_split(n: nat, i: nat)
    requires
        n >= 1,
        i < pow2(n),
    ensures
        i < pow2((n - 1) as nat) ==> i % pow2((n - 1) as nat) == i,
        i >= pow2((n - 1) as nat) ==> i % pow2((n - 1) as nat) == i - pow2((n - 1) as nat),
        assignment(n, i) == seq![i < pow2((n - 1) as nat)] + assignment(
            (n - 1) as nat,
            i % pow2((n - 1) as nat),
        ),
{
    let m = (n - 1) as nat;
    let h = pow2(m);
    lemma_pow2_unfold(n);
    lemma_pow2_pos(m);
    let low: nat = if i < h {
        i
    } else {
        (i - h) as nat
    };
    if i < h {
        lemma_fundamental_div_mod_converse(i as int, h as int, 0, i as int);
    } else {
        lemma_fundamental_div_mod_converse(i as int, h as int, 1, (i - h) as int);
    }
    assert(i % h == low);
    let rest = assignment(m, low);
    let whole = seq![i < h] + rest;
    assert forall|v: int| 0 <= v < n implies #[trigger] assignment(n, i)[v] == whole[v] by {
        lemma_flip_target(n, v as nat);
        if v == 0 {
            assert(pow2(0 + 1) == 2) by {
                lemma_pow2_unfold(1);
                lemma2_to64();
            }
            assert(pow2(n) / 2 == h);
        } else {
            let d = flip_target(n, v as nat);
            lemma_flip_target(m, (v - 1) as nat);
            assert(d == flip_target(m, (v - 1) as nat));
            if i >= h {
                let k = pow2(v as nat);
                lemma_pow2_adds((n - v - 1) as nat, v as nat);
                assert((n - v - 1) as nat + v as nat == m);
                assert(h == d * k);
                lemma_hoist_over_denominator(low as int, k as int, d);
                assert(i == low + k * d) by (nonlinear_arith)
                    requires
                        h == d * k,
                        low == i - h,
                        i >= h,
                ;
                lemma_pow2_unfold(v as nat);
                lemma_mod_multiples_vanish(pow2((v - 1) as nat) as int, (low / d) as int, 2);
            }
        }
    }
    assert(assignment(n, i) =~= whole);
}

/// Every assignment of `n` variables is the one at some step below `2^n`.
proof fn lemma_assignment_reached(a: Seq<bool>)
    ensures
        exists|i: nat| i < pow2(a.len()) && #[trigger] assignment(a.len(), i) == a,
    decreases a.len(),
{
    let n = a.len();
    if n == 0 {
        lemma2_to64();
        assert(assignment(0, 0) =~= a);
        assert(0 < pow2(0) && assignment(0, 0) == a);
    } else {
        let m = (n - 1) as nat;
        let rest = a.drop_first();
        lemma_assignment_reached(rest);
        let j = choose|j: nat| j < pow2(m) && #[trigger] assignment(m, j) == rest;
        let h = pow2(m);
        lemma_pow2_unfold(n);
        let i: nat = if a[0] {
            j
        } else {
            j + h
        };
        lemma_assignment_split(n, i);
        assert(assignment(n, i) =~= a);
    }
}

/// Distinct steps below `2^n` carry distinct assignments.
proof fn lemma_assignment_unique(n: nat, i: nat, j: nat)
    requires
        i < pow2(n),
        j < pow2(n),
        assignment(n, i) == assignment(n, j),
    ensures
        i == j,
    decreases n,
{
    if n == 0 {
        lemma2_to64();
    } else {
        let m = (n - 1) as nat;
        let h = pow2(m);
        lemma_assignment_split(n, i);
        lemma_assignment_split(n, j);
        assert(assignment(n, i)[0] == (i < h));
        assert(assignment(n, j)[0] == (j < h));
        assert(assignment(m, i % h) =~= assignment(n, i).drop_first());
        assert(assignment(m, j % h) =~= assignment(n, j).drop_first());
        lemma_pow2_pos(m);
        lemma_fundamental_div_mod(i as int, h as int);
        lemma_fundamental_div_mod(j as int, h as int);
        lemma_assignment_unique(m, i % h, j % h);
    }
}

/// The `2^n` steps of an enumeration of `n` variables show `2^n` distinct
/// assignments, and every assignment of the `n` variables is among them.
pub proof fn lemma_enumeration_complete(n: nat)
    ensures
        forall|i: nat, j: nat|
            i < pow2(n) && j < pow2(n) && #[trigger] assignment(n, i) == #[trigger] assignment(
                n,
                j,
            ) ==> i == j,
        forall|a: Seq<bool>|
            a.len() == n ==> exists|i: nat| i < pow2(n) && #[trigger] assignment(n, i) == a,
{
    assert forall|i: nat, j: nat|
        i < pow2(n) && j < pow2(n) && #[trigger] assignment(n, i) == #[trigger] assignment(
            n,
            j,
        ) implies i == j by {
        lemma_assignment_unique(n, i, j);
    }
    assert forall|a: Seq<bool>| a.len() == n implies exists|i: nat|
        i < pow2(n) && #[trigger] assignment(n, i) == a by {
        lemma_assignment_reached(a);
    }
}

/// The variable assignments of an enumeration session, precomputed column by column.
#[derive(Debug)]
pub struct Plexer {
    var_names: Vec<char>,
    var_count: usize,
    iter_count: usize,
    var_iter_matrix: Vec<Vec<bool>>,
}

impl Plexer {
    /// The variable identifiers, in declared order.
    pub closed spec fn names(&self) -> Seq<char> {
        self.var_names@
    }

    /// The number of variables.
    pub open spec fn n(&self) -> nat {
        self.names().len()
    }

    /// Counts agree with the names, and each column holds its toggling pattern.
    pub closed spec fn wf(&self) -> bool {
        &&& self.var_count == self.var_names@.len()
        &&& self.iter_count == pow2(self.var_count as nat)
        &&& self.var_iter_matrix@.len() == self.var_count
        &&& forall|v: int|
            0 <= v < self.var_count ==> #[trigger] self.var_iter_matrix@[v]@.len()
                == self.iter_count
        &&& forall|v: int, i: int|
            0 <= v < self.var_count && 0 <= i < self.iter_count
                ==> #[trigger] self.var_iter_matrix@[v]@[i] == cell(
                self.var_count as nat,
                v as nat,
                i as nat,
            )
    }

    /// Builds the table for `vars`: `2^N` steps for `N` variables.
    pub fn new(vars: &[char]) -> (r: Plexer)
        requires
            pow2(vars@.len()) <= usize::MAX,
        ensures
            r.wf(),
            r.names() == vars@,
    {
        let var_count = vars.len();
        let mut iter_count: usize = 1;
        let mut k: usize = 0;
        proof {
            lemma2_to64();
        }
        while k < var_count
            invariant
                var_count == vars@.len(),
                pow2(var_count as nat) <= usize::MAX,
                k <= var_count,
                iter_count == pow2(k as nat),
            decreases var_count - k,
        {
            proof {
                lemma_pow2_unfold((k + 1) as nat);
                if k + 1 < var_count {
                    lemma_pow2_strictly_increases((k + 1) as nat, var_count as nat);
                }
            }
            iter_count = iter_count * 2;
            k = k + 1;
        }
        let mut var_iter_matrix: Vec<Vec<bool>> = Vec::new();
        // iter_count >> (var + 1), kept by halving once per variable
        let mut flip: usize = iter_count;
        let mut var: usize = 0;
        while var < var_count
            invariant
                var_count == vars@.len(),
                iter_count == pow2(var_count as nat),
                var <= var_count,
                var_iter_matrix@.len() == var,
                var < var_count ==> flip == pow2((var_count - var) as nat),
                forall|v: int|
                    0 <= v < var ==> #[trigger] var_iter_matrix@[v]@.len() == iter_count,
                forall|v: int, i: int|
                    0 <= v < var && 0 <= i < iter_count ==> #[trigger] var_iter_matrix@[v]@[i]
                        == cell(var_count as nat, v as nat, i as nat),
            decreases var_count - var,
        {
            proof {
                lemma_pow2_unfold((var_count - var) as nat);
                lemma_flip_target(var_count as nat, var as nat);
            }
            flip = flip / 2;
            assert(flip == flip_target(var_count as nat, var as nat));
            let mut now = true;
            let mut column: Vec<bool> = Vec::with_capacity(iter_count);
            let mut iter: usize = 0;
            while iter < iter_count
                invariant
                    var < var_count,
                    iter <= iter_count,
                    iter_count == pow2(var_count as nat),
                    flip == flip_target(var_count as nat, var as nat),
                    flip >= 1,
                    column@.len() == iter,
                    now == cell(var_count as nat, var as nat, iter as nat),
                    forall|i: int|
                        0 <= i < iter ==> #[trigger] column@[i] == cell(
                            var_count as nat,
                            var as nat,
                            i as nat,
                        ),
                decreases iter_count - iter,
            {
                column.push(now);
                proof {
                    lemma_column_toggles(var_count as nat, var as nat, iter as nat);
                }
                if (iter + 1) % flip == 0 {
                    now = !now;
                }
                iter = iter + 1;
            }
            var_iter_matrix.push(column);
            var = var + 1;
        }
        Plexer { var_count, var_iter_matrix, iter_count, var_names: slice_to_vec(vars) }
    }

    /// The value of variable `idx` at step `iter`.
    pub fn get(&self, idx: usize, iter: usize) -> (r: bool)
        requires
            self.wf(),
            idx < self.n(),
            iter < pow2(self.n()),
        ensures
            r == cell(self.n(), idx as nat, iter as nat),
    {
        self.var_iter_matrix[idx][iter]
    }

    /// The number of steps, `2^N`.
    pub fn iter_count(&self) -> (r: usize)
        requires
            self.wf(),
        ensures
            r == pow2(self.n()),
    {
        self.iter_count
    }

    /// The number of variables, `N`.
    pub fn var_count(&self) -> (r: usize)
        requires
            self.wf(),
        ensures
            r == self.n(),
    {
        self.var_count
    }

    /// The variable identifiers, in declared order.
    pub fn var_names(&self) -> (r: &[char])
        ensures
            r@ == self.names(),
    {
        self.var_names.as_slice()
    }
}

} // verus!
