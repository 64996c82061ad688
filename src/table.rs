use crate::enumerator::{assignment, cell, Plexer};
use crate::expr::Value;
use vstd::arithmetic::power2::pow2;
use vstd::prelude::*;

verus! {

/// A formula together with the enumeration of its variables: the rows of its truth table.
pub struct TableMaker {
    p: Plexer,
    expr: Value,
}

impl TableMaker {
    /// The variable identifiers, in declared order.
    pub closed spec fn names(&self) -> Seq<char> {
        self.p.names()
    }

    /// The formula whose table this is.
    pub closed spec fn formula(&self) -> Value {
        self.expr
    }

    /// The enumeration is well formed and the formula references only its variables.
    pub closed spec fn wf(&self) -> bool {
        self.p.wf() && self.expr.in_range(self.p.n())
    }

    /// Pairs `expr` with the enumeration of `vars`.
    pub fn new(vars: &[char], expr: Value) -> (r: TableMaker)
        requires
            pow2(vars@.len()) <= usize::MAX,
            expr.in_range(vars@.len()),
        ensures
            r.wf(),
            r.names() == vars@,
            r.formula() == expr,
    {
        TableMaker { p: Plexer::new(vars), expr }
    }

    /// The enumeration of the variables.
    pub fn plexer(&self) -> (r: &Plexer)
        requires
            self.wf(),
        ensures
            r.wf(),
            r.names() == self.names(),
    {
        &self.p
    }

    /// The number of rows, `2^N`.
    pub fn iter_count(&self) -> (r: usize)
        requires
            self.wf(),
        ensures
            r == pow2(self.names().len()),
    {
        self.p.iter_count()
    }

    /// The heading of the table: the rendered formula.
    pub fn title(&self) -> (r: String)
        requires
            self.wf(),
        ensures
            r@ == self.formula().render(self.names()),
    {
        self.expr.fmt(&self.p)
    }

    /// Row `step`: the value of each variable, first variable first, and the
    /// value of the formula under them.
    pub fn row(&self, step: usize) -> (r: (Vec<bool>, bool))
        requires
            self.wf(),
            step < pow2(self.names().len()),
        ensures
            r.0@ == assignment(self.names().len(), step as nat),
            r.1 == self.formula().eval(assignment(self.names().len(), step as nat)),
    {
        let n = self.p.var_count();
        let mut values: Vec<bool> = Vec::with_capacity(n);
        let mut v: usize = 0;
        while v < n
            invariant
                self.p.wf(),
                n == self.p.n(),
                step < pow2(n as nat),
                v <= n,
                values@.len() == v,
                forall|k: int| 0 <= k < v ==> #[trigger] values@[k] == cell(n as nat, k as nat, step as nat),
            decreases n - v,
        {
            values.push(self.p.get(v, step));
            v = v + 1;
        }
        assert(values@ =~= assignment(n as nat, step as nat));
        let result = self.expr.get(&self.p, step);
        (values, result)
    }
}

} // verus!
