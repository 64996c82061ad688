use crate::enumerator::{assignment, Plexer};
use vstd::arithmetic::power2::pow2;
use vstd::prelude::*;

verus! {

/// A formula: a variable, referenced by its position, or an operator node.
pub enum Value {
    Expr(Box<Op>),
    Var { var_index: usize },
}

/// An operator node; each node owns its operands.
pub enum Op {
    Not(Value),
    And(Value, Value),
    Or(Value, Value),
    Xor(Value, Value),
    Then(Value, Value),
}

/// `(a sym b)`: a binary node rendered with both operands inside one pair of parentheses.
pub open spec fn infix(a: Seq<char>, sym: Seq<char>, b: Seq<char>) -> Seq<char> {
    seq!['('] + a + sym + b + seq![')']
}

impl Value {
    /// The truth value of the formula when variable `i` has the value `a[i]`.
    pub open spec fn eval(self, a: Seq<bool>) -> bool
        decreases self,
    {
        match self {
            Value::Expr(op) => op.eval(a),
            Value::Var { var_index } => a[var_index as int],
        }
    }

    /// Every variable that the formula references is below `n`.
    pub open spec fn in_range(self, n: nat) -> bool
        decreases self,
    {
        match self {
            Value::Expr(op) => op.in_range(n),
            Value::Var { var_index } => var_index < n,
        }
    }

    /// The fully parenthesized text of the formula, each variable shown by its identifier.
    pub open spec fn render(self, names: Seq<char>) -> Seq<char>
        decreases self,
    {
        match self {
            Value::Expr(op) => op.render(names),
            Value::Var { var_index } => seq![names[var_index as int]],
        }
    }

    /// Evaluates the formula at step `iter` of the enumeration.
    pub fn get(&self, vars: &Plexer, iter: usize) -> (r: bool)
        requires
            vars.wf(),
            self.in_range(vars.n()),
            iter < pow2(vars.n()),
        ensures
            r == self.eval(assignment(vars.n(), iter as nat)),
        decreases self,
    {
        match self {
            Value::Expr(op) => op.get(vars, iter),
            Value::Var { var_index } => vars.get(*var_index, iter),
        }
    }

    /// Renders the formula with the identifiers of `vars`.
    pub fn fmt(&self, vars: &Plexer) -> (r: String)
        requires
            self.in_range(vars.n()),
        ensures
            r@ == self.render(vars.names()),
        decreases self,
    {
        match self {
            Value::Expr(x) => x.fmt(vars),
            Value::Var { var_index } => {
                let mut s = String::new();
                push_char(&mut s, vars.var_names()[*var_index]);
                s
            },
        }
    }
}

impl Op {
    /// The truth value of the node under the assignment `a`.
    pub open spec fn eval(self, a: Seq<bool>) -> bool
        decreases self,
    {
        match self {
            Op::Not(x) => !x.eval(a),
            Op::And(l, r) => l.eval(a) && r.eval(a),
            Op::Or(l, r) => l.eval(a) || r.eval(a),
            Op::Xor(l, r) => l.eval(a) != r.eval(a),
            Op::Then(l, r) => !(l.eval(a) && !r.eval(a)),
        }
    }

    /// Every variable that the node references is below `n`.
    pub open spec fn in_range(self, n: nat) -> bool
        decreases self,
    {
        match self {
            Op::Not(x) => x.in_range(n),
            Op::And(l, r) => l.in_range(n) && r.in_range(n),
            Op::Or(l, r) => l.in_range(n) && r.in_range(n),
            Op::Xor(l, r) => l.in_range(n) && r.in_range(n),
            Op::Then(l, r) => l.in_range(n) && r.in_range(n),
        }
    }

    /// The infix symbol of a binary node, with its surrounding spaces.
    pub open spec fn symbol(self) -> Seq<char> {
        match self {
            Op::Not(_) => seq![],
            Op::And(_, _) => seq![' ', '^', ' '],
            Op::Or(_, _) => seq![' ', 'v', ' '],
            Op::Xor(_, _) => seq![' ', '≠', ' '],
            Op::Then(_, _) => seq![' ', '-', '>', ' '],
        }
    }

    /// `¬(x)` for negation; `(l ^ r)`, `(l v r)`, `(l ≠ r)` and `(l -> r)` for the others.
    pub open spec fn render(self, names: Seq<char>) -> Seq<char>
        decreases self,
    {
        match self {
            Op::Not(x) => seq!['¬', '('] + x.render(names) + seq![')'],
            Op::And(l, r) => infix(l.render(names), self.symbol(), r.render(names)),
            Op::Or(l, r) => infix(l.render(names), self.symbol(), r.render(names)),
            Op::Xor(l, r) => infix(l.render(names), self.symbol(), r.render(names)),
            Op::Then(l, r) => infix(l.render(names), self.symbol(), r.render(names)),
        }
    }

    /// Wraps the node as a formula.
    pub fn expr(self) -> (r: Value)
        ensures
            r == Value::Expr(Box::new(self)),
    {
        Value::Expr(Box::new(self))
    }

    /// Evaluates the node at step `iter`; both operands are always evaluated.
    pub fn get(&self, vars: &Plexer, iter: usize) -> (r: bool)
        requires
            vars.wf(),
            self.in_range(vars.n()),
            iter < pow2(vars.n()),
        ensures
            r == self.eval(assignment(vars.n(), iter as nat)),
        decreases self,
    {
        match self {
            Op::Not(x) => !x.get(vars, iter),
            Op::And(a, b) => {
                let a = a.get(vars, iter);
                let b = b.get(vars, iter);
                a && b
            },
            Op::Or(a, b) => {
                let a = a.get(vars, iter);
                let b = b.get(vars, iter);
                a || b
            },
            Op::Xor(a, b) => a.get(vars, iter) ^ b.get(vars, iter),
            Op::Then(a, b) => {
                let a = a.get(vars, iter);
                let b = b.get(vars, iter);
                !(a && !b)
            },
        }
    }

    /// Renders the node with the identifiers of `vars`.
    pub fn fmt(&self, vars: &Plexer) -> (r: String)
        requires
            self.in_range(vars.n()),
        ensures
            r@ == self.render(vars.names()),
        decreases self,
    {
        match self {
            Op::Not(x) => {
                let mut s = String::new();
                push_char(&mut s, '¬');
                push_char(&mut s, '(');
                s.append(x.fmt(vars).as_str());
                push_char(&mut s, ')');
                assert(s@ =~= self.render(vars.names()));
                s
            },
            Op::And(a, b) => {
                proof {
                    reveal_strlit(" ^ ");
                }
                binary(a.fmt(vars), " ^ ", b.fmt(vars))
            },
            Op::Or(a, b) => {
                proof {
                    reveal_strlit(" v ");
                }
                binary(a.fmt(vars), " v ", b.fmt(vars))
            },
            Op::Xor(a, b) => {
                proof {
                    reveal_strlit(" ≠ ");
                }
                binary(a.fmt(vars), " ≠ ", b.fmt(vars))
            },
            Op::Then(a, b) => {
                proof {
                    reveal_strlit(" -> ");
                }
                binary(a.fmt(vars), " -> ", b.fmt(vars))
            },
        }
    }
}

/// Double negation: `¬(¬(x))` has the value of `x` under every assignment.
pub proof fn lemma_double_negation(x: Value, a: Seq<bool>)
    ensures
        Value::Expr(Box::new(Op::Not(Value::Expr(Box::new(Op::Not(x)))))).eval(a) == x.eval(a),
{
    let inner = Value::Expr(Box::new(Op::Not(x)));
    assert(Op::Not(x).eval(a) == !x.eval(a));
    assert(inner.eval(a) == Op::Not(x).eval(a));
    assert(Op::Not(inner).eval(a) == !inner.eval(a));
}

/// Every formula references at least one variable, so none is well formed over
/// zero variables.
pub proof fn lemma_formula_needs_variable(e: Value)
    ensures
        !e.in_range(0),
    decreases e,
{
    match e {
        Value::Var { .. } => {},
        Value::Expr(op) => match *op {
            Op::Not(x) => lemma_formula_needs_variable(x),
            Op::And(l, _) => lemma_formula_needs_variable(l),
            Op::Or(l, _) => lemma_formula_needs_variable(l),
            Op::Xor(l, _) => lemma_formula_needs_variable(l),
            Op::Then(l, _) => lemma_formula_needs_variable(l),
        },
    }
}

/// No two identifiers are equal.
pub open spec fn distinct_names(names: Seq<char>) -> bool {
    forall|i: int, j: int| 0 <= i < j < names.len() ==> names[i] != names[j]
}

/// What may follow a rendered operand inside a larger rendering: nothing, a space or `)`.
spec fn boundary(t: Seq<char>) -> bool {
    t.len() == 0 || t[0] == ' ' || t[0] == ')'
}

spec fn is_binary(op: Op) -> bool {
    !(op is Not)
}

spec fn left(op: Op) -> Value {
    match op {
        Op::Not(x) => x,
        Op::And(l, _) => l,
        Op::Or(l, _) => l,
        Op::Xor(l, _) => l,
        Op::Then(l, _) => l,
    }
}

spec fn right(op: Op) -> Value {
    match op {
        Op::Not(x) => x,
        Op::And(_, r) => r,
        Op::Or(_, r) => r,
        Op::Xor(_, r) => r,
        Op::Then(_, r) => r,
    }
}

/// How a rendering begins: a variable is its identifier, a negation starts
/// with `¬(`, a binary node with `(` and is `infix` of its operands.
spec fn render_head(e: Value, names: Seq<char>) -> bool {
    let r = e.render(names);
    &&& r.len() >= 1
    &&& match e {
        Value::Var { var_index } => r == seq![names[var_index as int]],
        Value::Expr(op) => if is_binary(*op) {
            r[0] == '(' && r == infix(left(*op).render(names), op.symbol(), right(*op).render(names))
        } else {
            r.len() >= 3 && r[0] == '¬' && r[1] == '('
        },
    }
}

proof fn lemma_render_head(e: Value, names: Seq<char>)
    requires
        e.in_range(names.len()),
    ensures
        render_head(e, names),
{
    match e {
        Value::Var { .. } => {},
        Value::Expr(op) => {
            let r = e.render(names);
            match *op {
                Op::Not(x) => {
                    assert(r == seq!['¬', '('] + x.render(names) + seq![')']);
                    assert(r[0] == '¬');
                    assert(r[1] == '(');
                },
                _ => {
                    assert(r[0] == '(');
                },
            }
        },
    }
}

/// A variable's rendering, followed by a boundary, never reads like an operator node's.
proof fn lemma_var_not_op(v: Value, op: Op, names: Seq<char>, t1: Seq<char>, t2: Seq<char>)
    requires
        forall|k: int| 0 <= k < names.len() ==> names[k] != '(',
        !is_expr(v),
        v.in_range(names.len()),
        op.in_range(names.len()),
        boundary(t1),
    ensures
        v.render(names) + t1 != op.render(names) + t2,
{
    let e = Value::Expr(Box::new(op));
    lemma_render_head(e, names);
    lemma_render_head(v, names);
    let s = op.render(names) + t2;
    if v.render(names) + t1 == s {
        assert(s[0] == op.render(names)[0]);
        if !is_binary(op) {
            assert(s[1] == '(');
            assert(t1[0] == s[1]);
        }
    }
}

spec fn is_expr(e: Value) -> bool {
    e is Expr
}

/// Two renderings, each followed by a boundary, that spell the same text come
/// from the same formula and leave the same remainder.
proof fn lemma_render_prefix(
    e1: Value,
    e2: Value,
    names: Seq<char>,
    t1: Seq<char>,
    t2: Seq<char>,
)
    requires
        distinct_names(names),
        forall|k: int| 0 <= k < names.len() ==> names[k] != '(',
        e1.in_range(names.len()),
        e2.in_range(names.len()),
        boundary(t1),
        boundary(t2),
        e1.render(names) + t1 == e2.render(names) + t2,
    ensures
        e1 == e2,
        t1 == t2,
    decreases e1, 2nat,
{
    match e1 {
        Value::Var { var_index: i } => match e2 {
            Value::Var { var_index: j } => {
                let s = e1.render(names) + t1;
                assert(s[0] == names[i as int]);
                assert(s[0] == names[j as int]);
                assert(t1 =~= s.drop_first());
                assert(t2 =~= s.drop_first());
            },
            Value::Expr(op2) => lemma_var_not_op(e1, *op2, names, t1, t2),
        },
        Value::Expr(op1) => match e2 {
            Value::Var { .. } => lemma_var_not_op(e2, *op1, names, t2, t1),
            Value::Expr(op2) => lemma_op_prefix(*op1, *op2, names, t1, t2),
        },
    }
}

/// `lemma_render_prefix` for two operator nodes.
proof fn lemma_op_prefix(op1: Op, op2: Op, names: Seq<char>, t1: Seq<char>, t2: Seq<char>)
    requires
        distinct_names(names),
        forall|k: int| 0 <= k < names.len() ==> names[k] != '(',
        op1.in_range(names.len()),
        op2.in_range(names.len()),
        boundary(t1),
        boundary(t2),
        op1.render(names) + t1 == op2.render(names) + t2,
    ensures
        op1 == op2,
        t1 == t2,
    decreases op1, 1nat,
{
    let s = op1.render(names) + t1;
    lemma_render_head(Value::Expr(Box::new(op1)), names);
    lemma_render_head(Value::Expr(Box::new(op2)), names);
    if !is_binary(op1) && !is_binary(op2) {
        let x = left(op1);
        let y = left(op2);
        let u1 = seq![')'] + t1;
        let u2 = seq![')'] + t2;
        assert(s.subrange(2, s.len() as int) =~= x.render(names) + u1);
        assert(s.subrange(2, s.len() as int) =~= y.render(names) + u2);
        lemma_render_prefix(x, y, names, u1, u2);
        assert(t1 =~= u1.drop_first());
        assert(t2 =~= u2.drop_first());
    } else if is_binary(op1) && is_binary(op2) {
        lemma_binary_prefix(op1, op2, names, t1, t2);
    } else {
        assert(s[0] == op1.render(names)[0]);
    }
}

/// `lemma_render_prefix` for two binary nodes.
#[verifier::rlimit(60)]
proof fn lemma_binary_prefix(op1: Op, op2: Op, names: Seq<char>, t1: Seq<char>, t2: Seq<char>)
    requires
        distinct_names(names),
        forall|k: int| 0 <= k < names.len() ==> names[k] != '(',
        is_binary(op1),
        is_binary(op2),
        op1.in_range(names.len()),
        op2.in_range(names.len()),
        boundary(t1),
        boundary(t2),
        infix(left(op1).render(names), op1.symbol(), right(op1).render(names)) + t1 == infix(
            left(op2).render(names),
            op2.symbol(),
            right(op2).render(names),
        ) + t2,
    ensures
        op1 == op2,
        t1 == t2,
    decreases op1, 0nat,
{
    let (a, b, c, d) = (left(op1), right(op1), left(op2), right(op2));
    let (sym1, sym2) = (op1.symbol(), op2.symbol());
    let s = infix(a.render(names), sym1, b.render(names)) + t1;
    let u1 = sym1 + b.render(names) + seq![')'] + t1;
    let u2 = sym2 + d.render(names) + seq![')'] + t2;
    assert(s.drop_first() =~= a.render(names) + u1);
    assert(s.drop_first() =~= c.render(names) + u2);
    lemma_render_prefix(a, c, names, u1, u2);
    assert(u1[1] == sym1[1]);
    assert(u2[1] == sym2[1]);
    lemma_symbol_unique(op1, op2);
    let w1 = seq![')'] + t1;
    let w2 = seq![')'] + t2;
    assert(u1.subrange(sym1.len() as int, u1.len() as int) =~= b.render(names) + w1);
    assert(u2.subrange(sym2.len() as int, u2.len() as int) =~= d.render(names) + w2);
    lemma_render_prefix(b, d, names, w1, w2);
    assert(t1 =~= w1.drop_first());
    assert(t2 =~= w2.drop_first());
}

/// The second character of its symbol tells the kind of a binary node.
proof fn lemma_symbol_unique(op1: Op, op2: Op)
    requires
        is_binary(op1),
        is_binary(op2),
        op1.symbol()[1] == op2.symbol()[1],
    ensures
        op1.symbol() == op2.symbol(),
        left(op1) == left(op2) && right(op1) == right(op2) ==> op1 == op2,
{
}

/// Renderings are unambiguous: where the identifiers are distinct and none is an
/// opening parenthesis, two formulas with the same rendering are the same formula,
/// so the parenthesized text gives back the whole tree.
pub proof fn lemma_render_injective(e1: Value, e2: Value, names: Seq<char>)
    requires
        distinct_names(names),
        forall|k: int| 0 <= k < names.len() ==> names[k] != '(',
        e1.in_range(names.len()),
        e2.in_range(names.len()),
        e1.render(names) == e2.render(names),
    ensures
        e1 == e2,
{
    assert(e1.render(names) + seq![] =~= e2.render(names) + seq![]);
    lemma_render_prefix(e1, e2, names, seq![], seq![]);
}

/// Joins two rendered operands with `sym` inside one pair of parentheses.
fn binary(a: String, sym: &str, b: String) -> (r: String)
    ensures
        r@ == infix(a@, sym@, b@),
{
    let mut s = String::new();
    push_char(&mut s, '(');
    s.append(a.as_str());
    s.append(sym);
    s.append(b.as_str());
    push_char(&mut s, ')');
    assert(s@ =~= infix(a@, sym@, b@));
    s
}

/// Relies on `String::push`, which appends one character at the end of the string.
#[verifier::external_body]
fn push_char(s: &mut String, c: char)
    ensures
        final(s)@ == old(s)@.push(c),
{
    s.push(c);
}

/// `V` for true, `F` for false.
pub fn to_pt(v: bool) -> (r: char)
    ensures
        r == (if v {
            'V'
        } else {
            'F'
        }),
{
    if v {
        'V'
    } else {
        'F'
    }
}

} // verus!
