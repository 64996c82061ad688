use truth_table::enumerator::Plexer;
use truth_table::expr::{to_pt, Op, Value};
use truth_table::table::TableMaker;

fn var(i: usize) -> Value {
    Value::Var { var_index: i }
}

fn column(p: &Plexer, v: usize) -> Vec<bool> {
    (0..p.iter_count()).map(|i| p.get(v, i)).collect()
}

fn results(e: &Value, p: &Plexer) -> Vec<bool> {
    (0..p.iter_count()).map(|i| e.get(p, i)).collect()
}

#[test]
fn one_variable_starts_true() {
    let p = Plexer::new(&['A']);
    assert_eq!(p.iter_count(), 2);
    assert!(p.get(0, 0));
    assert!(!p.get(0, 1));
}

#[test]
fn two_variable_columns() {
    let p = Plexer::new(&['A', 'B']);
    assert_eq!(p.iter_count(), 4);
    assert_eq!(p.var_count(), 2);
    assert_eq!(p.var_names(), &['A', 'B']);
    assert_eq!(column(&p, 0), vec![true, true, false, false]);
    assert_eq!(column(&p, 1), vec![true, false, true, false]);
}

#[test]
fn xor_over_two_variables() {
    let p = Plexer::new(&['A', 'B']);
    let e = Op::Xor(var(0), var(1)).expr();
    assert_eq!(results(&e, &p), vec![false, true, true, false]);
}

#[test]
fn implies_over_two_variables() {
    let p = Plexer::new(&['A', 'B']);
    let e = Op::Then(var(0), var(1)).expr();
    assert_eq!(results(&e, &p), vec![true, false, true, true]);
}

#[test]
fn and_or_over_two_variables() {
    let p = Plexer::new(&['A', 'B']);
    let and = Op::And(var(0), var(1)).expr();
    let or = Op::Or(var(0), var(1)).expr();
    assert_eq!(results(&and, &p), vec![true, false, false, false]);
    assert_eq!(results(&or, &p), vec![true, true, true, false]);
}

#[test]
fn double_negation_matches_variable() {
    for n in 1..=4usize {
        let names: Vec<char> = "ABCD".chars().take(n).collect();
        let p = Plexer::new(&names);
        for v in 0..n {
            let e = Op::Not(Op::Not(var(v)).expr()).expr();
            assert_eq!(results(&e, &p), column(&p, v));
        }
    }
}

#[test]
fn single_negation_flips_column() {
    let p = Plexer::new(&['A', 'B']);
    let e = Op::Not(var(1)).expr();
    assert_eq!(results(&e, &p), vec![false, true, false, true]);
}

#[test]
fn no_variables_has_one_step() {
    let p = Plexer::new(&[]);
    assert_eq!(p.iter_count(), 1);
    assert_eq!(p.var_count(), 0);
    assert!(p.var_names().is_empty());
}

#[test]
fn three_variables_rows_distinct_and_complete() {
    let p = Plexer::new(&['A', 'B', 'C']);
    assert_eq!(p.iter_count(), 8);
    let mut rows: Vec<Vec<bool>> = (0..8).map(|i| (0..3).map(|v| p.get(v, i)).collect()).collect();
    assert_eq!(rows[0], vec![true, true, true]);
    assert_eq!(rows[7], vec![false, false, false]);
    rows.sort();
    rows.dedup();
    assert_eq!(rows.len(), 8);
}

#[test]
fn three_variables_flip_periods() {
    let p = Plexer::new(&['A', 'B', 'C']);
    assert_eq!(column(&p, 0), vec![true, true, true, true, false, false, false, false]);
    assert_eq!(column(&p, 1), vec![true, true, false, false, true, true, false, false]);
    assert_eq!(column(&p, 2), vec![true, false, true, false, true, false, true, false]);
}

#[test]
fn columns_change_exactly_at_flip_target() {
    let names: Vec<char> = "ABCDE".chars().collect();
    let p = Plexer::new(&names);
    let steps = p.iter_count();
    assert_eq!(steps, 32);
    for v in 0..5 {
        let target = steps >> (v + 1);
        assert!(p.get(v, 0));
        for i in 0..steps - 1 {
            let changes = p.get(v, i) != p.get(v, i + 1);
            assert_eq!(changes, (i + 1) % target == 0);
        }
    }
}

#[test]
fn render_variable_and_operators() {
    let p = Plexer::new(&['A', 'B']);
    assert_eq!(var(0).fmt(&p), "A");
    assert_eq!(Op::Not(var(0)).expr().fmt(&p), "¬(A)");
    assert_eq!(Op::And(var(0), var(1)).expr().fmt(&p), "(A ^ B)");
    assert_eq!(Op::Or(var(0), var(1)).expr().fmt(&p), "(A v B)");
    assert_eq!(Op::Xor(var(0), var(1)).expr().fmt(&p), "(A ≠ B)");
    assert_eq!(Op::Then(var(0), var(1)).expr().fmt(&p), "(A -> B)");
}

#[test]
fn render_nested_is_fully_parenthesized() {
    let p = Plexer::new(&['A', 'B', 'C']);
    let left = Op::And(Op::Or(var(0), var(1)).expr(), var(2)).expr();
    let right = Op::Or(var(0), Op::And(var(1), var(2)).expr()).expr();
    assert_eq!(left.fmt(&p), "((A v B) ^ C)");
    assert_eq!(right.fmt(&p), "(A v (B ^ C))");
    assert_ne!(left.fmt(&p), right.fmt(&p));
    let e = Op::Not(Op::Then(Op::Not(var(2)).expr(), Op::Xor(var(0), var(1)).expr()).expr()).expr();
    assert_eq!(e.fmt(&p), "¬((¬(C) -> (A ≠ B)))");
}

#[test]
fn pt_letters() {
    assert_eq!(to_pt(true), 'V');
    assert_eq!(to_pt(false), 'F');
}

#[test]
fn table_rows_for_xor() {
    let t = TableMaker::new(&['A', 'B'], Op::Xor(var(0), var(1)).expr());
    assert_eq!(t.title(), "(A ≠ B)");
    assert_eq!(t.iter_count(), 4);
    assert_eq!(t.plexer().var_names(), &['A', 'B']);
    assert_eq!(t.row(0), (vec![true, true], false));
    assert_eq!(t.row(1), (vec![true, false], true));
    assert_eq!(t.row(2), (vec![false, true], true));
    assert_eq!(t.row(3), (vec![false, false], false));
}

#[test]
fn table_rows_for_implies() {
    let t = TableMaker::new(&['P', 'Q'], Op::Then(var(0), var(1)).expr());
    assert_eq!(t.title(), "(P -> Q)");
    let results: Vec<bool> = (0..t.iter_count()).map(|i| t.row(i).1).collect();
    assert_eq!(results, vec![true, false, true, true]);
}
