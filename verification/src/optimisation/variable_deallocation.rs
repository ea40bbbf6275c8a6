use vstd::prelude::*;

use crate::ir::IRModule;
use crate::operand::{
    lemma_operands_view, operands_view, params_view, Operand, OperandType, OperandView,
};
use crate::util::str_eq;
use crate::value::{lemma_values_view, values_view, Value, ValueView};

verus! {

/// The variable names a value mentions, in order of appearance: a bare
/// variable, an address taken, or a load through a pointer all use the
/// name they carry.
pub open spec fn value_names(v: ValueView) -> Seq<Seq<char>>
    decreases v, 0int via value_names_dec
{
    match v {
        ValueView::Variable(n) => seq![n],
        ValueView::Reference(n) => seq![n],
        ValueView::Dereference(n) => seq![n],
        ValueView::Add(l, r) => value_names(*l) + value_names(*r),
        ValueView::Sub(l, r) => value_names(*l) + value_names(*r),
        ValueView::FunctionCall(_, args) => values_names(args),
        _ => Seq::empty(),
    }
}

/// The names a list of values mentions.
pub open spec fn values_names(s: Seq<ValueView>) -> Seq<Seq<char>>
    decreases s, 1int via values_names_dec
{
    if s.len() == 0 {
        Seq::empty()
    } else {
        values_names(s.drop_last()) + value_names(s.last())
    }
}

#[via_fn]
proof fn value_names_dec(v: ValueView) {
    if let ValueView::FunctionCall(n, args) = v {
        assert(decreases_to!(v => args));
    }
}

#[via_fn]
proof fn values_names_dec(s: Seq<ValueView>) {
    broadcast use vstd::seq::axiom_seq_index_decreases;

    if s.len() > 0 {
        assert(decreases_to!(s => s[s.len() - 1]));
        vstd::seq::axiom_seq_len_decreases::<ValueView>(s, s.drop_last());
    }
}

/// The names one statement touches at its own nesting level: a declared
/// name counts at its declaration, a conditional's guard and body count
/// here (they share the enclosing scope), a nested function's body does
/// not (its names belong to the nested frame).
pub open spec fn op_names(op: OperandView) -> Seq<Seq<char>>
    decreases op, 0int via op_names_dec
{
    match op {
        OperandView::DeclareVariable(_, name, val) => seq![name] + value_names(val),
        OperandView::SetValue(l, r) => value_names(l) + value_names(r),
        OperandView::Add(_, l, r) => value_names(l) + value_names(r),
        OperandView::Subtract(_, l, r) => value_names(l) + value_names(r),
        OperandView::FunctionCall(_, args) => values_names(args),
        OperandView::If { predicate, main_body } => value_names(predicate.lhs) + value_names(
            predicate.rhs,
        ) + ops_names(main_body),
        OperandView::Return(v) => value_names(v),
        OperandView::DropVariable(_) => Seq::empty(),
        OperandView::InlineAssembly(_) => Seq::empty(),
        OperandView::FunctionDecl(_, _, _, _) => Seq::empty(),
    }
}

/// The names a list of statements touches, in order.
pub open spec fn ops_names(s: Seq<OperandView>) -> Seq<Seq<char>>
    decreases s, 1int via ops_names_dec
{
    if s.len() == 0 {
        Seq::empty()
    } else {
        ops_names(s.drop_last()) + op_names(s.last())
    }
}

#[via_fn]
proof fn op_names_dec(op: OperandView) {
    if let OperandView::If { predicate, main_body } = op {
        assert(decreases_to!(op => main_body));
    }
}

#[via_fn]
proof fn ops_names_dec(s: Seq<OperandView>) {
    broadcast use vstd::seq::axiom_seq_index_decreases;

    if s.len() > 0 {
        assert(decreases_to!(s => s[s.len() - 1]));
        vstd::seq::axiom_seq_len_decreases::<OperandView>(s, s.drop_last());
    }
}

/// A list of names with later repetitions removed: each name keeps its
/// first position.
pub open spec fn dedup_names(s: Seq<Seq<char>>) -> Seq<Seq<char>>
    decreases s.len(),
{
    if s.len() == 0 {
        Seq::empty()
    } else {
        let d = dedup_names(s.drop_last());
        if d.contains(s.last()) {
            d
        } else {
            d.push(s.last())
        }
    }
}

/// The index of the last statement that touches a name, or -1 when none
/// does.
pub open spec fn last_use(ops: Seq<OperandView>, name: Seq<char>) -> int
    decreases ops.len(),
{
    if ops.len() == 0 {
        -1
    } else if op_names(ops.last()).contains(name) {
        ops.len() - 1
    } else {
        last_use(ops.drop_last(), name)
    }
}

/// Whether the statement at an index is a declaration whose name is never
/// touched later: such a declaration is deleted outright.
pub open spec fn dead_declare(ops: Seq<OperandView>, i: int) -> bool {
    &&& 0 <= i < ops.len()
    &&& ops[i] is DeclareVariable
    &&& last_use(ops, ops[i]->DeclareVariable_1) == i
}

/// The drops placed after the statement at an index: one `DropVariable`
/// for each name, in first-appearance order, whose last use is that
/// statement -- except the name of a deleted declaration.
pub open spec fn drops_at(
    names: Seq<Seq<char>>,
    ops: Seq<OperandView>,
    i: int,
) -> Seq<OperandView>
    decreases names.len(),
{
    if names.len() == 0 {
        Seq::empty()
    } else {
        let n = names.first();
        let here = if last_use(ops, n) == i && !(dead_declare(ops, i) && n
            == ops[i]->DeclareVariable_1) {
            seq![OperandView::DropVariable(n)]
        } else {
            Seq::empty()
        };
        here + drops_at(names.drop_first(), ops, i)
    }
}

/// One statement of the rewritten list: a nested function gets the pass
/// applied to its body; everything else stands as it is.
pub open spec fn rewrite_op(op: OperandView) -> OperandView
    decreases op, 4int, 0int via rewrite_op_dec
{
    match op {
        OperandView::FunctionDecl(ty, name, body, params) => OperandView::FunctionDecl(
            ty,
            name,
            liveness_rewrite(body),
            params,
        ),
        _ => op,
    }
}

/// The rewritten list from the `i`-th statement on.
pub open spec fn rewrite_from(
    ops: Seq<OperandView>,
    names: Seq<Seq<char>>,
    i: int,
) -> Seq<OperandView>
    decreases ops, 5int, ops.len() - i when 0 <= i <= ops.len() via rewrite_from_dec
{
    if i >= ops.len() {
        Seq::empty()
    } else {
        let kept = if dead_declare(ops, i) {
            Seq::empty()
        } else {
            seq![rewrite_op(ops[i])]
        };
        kept + drops_at(names, ops, i) + rewrite_from(ops, names, i + 1)
    }
}

/// The dead-variable pass over a statement list: each statement is kept
/// (with nested bodies rewritten) unless it declares a name never touched
/// again, and a drop is placed after the last use of every name.
pub open spec fn liveness_rewrite(ops: Seq<OperandView>) -> Seq<OperandView>
    decreases ops, 6int, 0int via liveness_rewrite_dec
{
    rewrite_from(ops, dedup_names(ops_names(ops)), 0)
}

#[via_fn]
proof fn rewrite_op_dec(op: OperandView) {
    if let OperandView::FunctionDecl(ty, name, body, params) = op {
        assert(decreases_to!(op => body));
    }
}

#[via_fn]
proof fn rewrite_from_dec(ops: Seq<OperandView>, names: Seq<Seq<char>>, i: int) {
    broadcast use vstd::seq::axiom_seq_index_decreases;

    if 0 <= i < ops.len() {
        assert(decreases_to!(ops => ops[i]));
    }
}

#[via_fn]
proof fn liveness_rewrite_dec(ops: Seq<OperandView>) {
}

/// The view of a list of owned names.
pub open spec fn names_view(s: Seq<String>) -> Seq<Seq<char>> {
    Seq::new(s.len(), |i: int| s[i]@)
}

/// Whether a name is among the collected ones.
fn names_contain(names: &Vec<String>, n: &str) -> (r: bool)
    ensures
        r == names_view(names@).contains(n@),
{
    let mut i: usize = 0;
    while i < names.len()
        invariant
            i <= names@.len(),
            forall|j: int| 0 <= j < i ==> names_view(names@)[j] != n@,
        decreases names@.len() - i,
    {
        if str_eq(names[i].as_str(), n) {
            proof {
                assert(names_view(names@)[i as int] == n@);
            }
            return true;
        }
        i += 1;
    }
    proof {
        assert(forall|j: int| 0 <= j < names@.len() ==> names_view(names@)[j] != n@);
    }
    false
}

/// Append the names a value mentions.
fn push_value_names(v: &Value, out: &mut Vec<String>)
    ensures
        names_view(final(out)@) == names_view(old(out)@) + value_names(v.deep_view()),
    decreases *v,
{
    match v {
        Value::Variable(n) | Value::Reference(n) | Value::Dereference(n) => {
            out.push(n.clone());
            proof {
                assert(names_view(out@) =~= names_view(old(out)@) + value_names(v.deep_view()));
            }
        },
        Value::Add(l, r) | Value::Sub(l, r) => {
            push_value_names(l, out);
            push_value_names(r, out);
            proof {
                assert(names_view(out@) =~= names_view(old(out)@) + value_names(v.deep_view()));
            }
        },
        Value::FunctionCall(_, args) => {
            let ghost argsv = values_view(args@);
            proof {
                lemma_values_view(args@);
                assert(decreases_to!(*v => *args));
            }
            let mut i: usize = 0;
            proof {
                assert(argsv.take(0) =~= Seq::<ValueView>::empty());
                assert(names_view(out@) =~= names_view(old(out)@) + values_names(argsv.take(0)));
            }
            while i < args.len()
                invariant
                    i <= args@.len(),
                    argsv == values_view(args@),
                    argsv.len() == args@.len(),
                    forall|m: int|
                        0 <= m < argsv.len() ==> argsv[m] == #[trigger] args@[m].deep_view(),
                    decreases_to!(*v => *args),
                    names_view(out@) == names_view(old(out)@) + values_names(argsv.take(i as int)),
                decreases args@.len() - i,
            {
                proof {
                    broadcast use vstd::std_specs::vec::axiom_vec_index_decreases;

                    assert(decreases_to!(*args => args[i as int]));
                }
                let a = &args[i];
                push_value_names(a, out);
                proof {
                    assert(argsv.take(i + 1).drop_last() =~= argsv.take(i as int));
                    assert(argsv.take(i + 1).last() == argsv[i as int]);
                    assert(names_view(out@) =~= names_view(old(out)@) + values_names(
                        argsv.take(i + 1),
                    ));
                }
                i += 1;
            }
            proof {
                assert(argsv.take(argsv.len() as int) =~= argsv);
            }
        },
        _ => {
            proof {
                assert(names_view(out@) =~= names_view(old(out)@) + value_names(v.deep_view()));
            }
        },
    }
}

/// Append the names a statement touches at its own nesting level.
fn push_op_names(op: &Operand, out: &mut Vec<String>)
    ensures
        names_view(final(out)@) == names_view(old(out)@) + op_names(op.deep_view()),
    decreases *op,
{
    match op {
        Operand::DeclareVariable(_, name, val) => {
            out.push(name.clone());
            push_value_names(val, out);
            proof {
                assert(names_view(out@) =~= names_view(old(out)@) + op_names(op.deep_view()));
            }
        },
        Operand::SetValue(l, r) => {
            push_value_names(l, out);
            push_value_names(r, out);
            proof {
                assert(names_view(out@) =~= names_view(old(out)@) + op_names(op.deep_view()));
            }
        },
        Operand::Add(_, l, r) | Operand::Subtract(_, l, r) => {
            push_value_names(l, out);
            push_value_names(r, out);
            proof {
                assert(names_view(out@) =~= names_view(old(out)@) + op_names(op.deep_view()));
            }
        },
        Operand::FunctionCall(_, args) => {
            let ghost argsv = values_view(args@);
            proof {
                lemma_values_view(args@);
            }
            let mut i: usize = 0;
            proof {
                assert(argsv.take(0) =~= Seq::<ValueView>::empty());
                assert(names_view(out@) =~= names_view(old(out)@) + values_names(argsv.take(0)));
            }
            while i < args.len()
                invariant
                    i <= args@.len(),
                    argsv == values_view(args@),
                    argsv.len() == args@.len(),
                    forall|m: int|
                        0 <= m < argsv.len() ==> argsv[m] == #[trigger] args@[m].deep_view(),
                    names_view(out@) == names_view(old(out)@) + values_names(argsv.take(i as int)),
                decreases args@.len() - i,
            {
                let a = &args[i];
                push_value_names(a, out);
                proof {
                    assert(argsv.take(i + 1).drop_last() =~= argsv.take(i as int));
                    assert(argsv.take(i + 1).last() == argsv[i as int]);
                    assert(names_view(out@) =~= names_view(old(out)@) + values_names(
                        argsv.take(i + 1),
                    ));
                }
                i += 1;
            }
            proof {
                assert(argsv.take(argsv.len() as int) =~= argsv);
                assert(names_view(out@) =~= names_view(old(out)@) + op_names(op.deep_view()));
            }
        },
        Operand::If { predicate, main_body } => {
            push_value_names(&predicate.lhs, out);
            push_value_names(&predicate.rhs, out);
            let ghost bodyv = operands_view(main_body@);
            proof {
                lemma_operands_view(main_body@);
                assert(decreases_to!(*op => *main_body));
            }
            let ghost mid = out@;
            let mut i: usize = 0;
            proof {
                assert(bodyv.take(0) =~= Seq::<OperandView>::empty());
                assert(names_view(out@) =~= names_view(mid) + ops_names(bodyv.take(0)));
            }
            while i < main_body.len()
                invariant
                    i <= main_body@.len(),
                    bodyv == operands_view(main_body@),
                    bodyv.len() == main_body@.len(),
                    forall|m: int|
                        0 <= m < bodyv.len() ==> bodyv[m] == #[trigger] main_body@[m].deep_view(),
                    decreases_to!(*op => *main_body),
                    names_view(out@) == names_view(mid) + ops_names(bodyv.take(i as int)),
                    names_view(mid) == names_view(old(out)@) + value_names(
                        op.deep_view()->If_predicate.lhs,
                    ) + value_names(op.deep_view()->If_predicate.rhs),
                decreases main_body@.len() - i,
            {
                proof {
                    broadcast use vstd::std_specs::vec::axiom_vec_index_decreases;

                    assert(decreases_to!(*main_body => main_body[i as int]));
                }
                let b = &main_body[i];
                push_op_names(b, out);
                proof {
                    assert(bodyv.take(i + 1).drop_last() =~= bodyv.take(i as int));
                    assert(bodyv.take(i + 1).last() == bodyv[i as int]);
                    assert(names_view(out@) =~= names_view(mid) + ops_names(bodyv.take(i + 1)));
                }
                i += 1;
            }
            proof {
                assert(bodyv.take(bodyv.len() as int) =~= bodyv);
                assert(names_view(out@) =~= names_view(old(out)@) + op_names(op.deep_view()));
            }
        },
        Operand::Return(v) => {
            push_value_names(v, out);
            proof {
                assert(names_view(out@) =~= names_view(old(out)@) + op_names(op.deep_view()));
            }
        },
        Operand::DropVariable(_) | Operand::InlineAssembly(_) | Operand::FunctionDecl(
            _,
            _,
            _,
            _,
        ) => {
            proof {
                assert(names_view(out@) =~= names_view(old(out)@) + op_names(op.deep_view()));
            }
        },
    }
}

/// Whether a statement touches a name at its own nesting level.
fn op_mentions(op: &Operand, n: &str) -> (r: bool)
    ensures
        r == op_names(op.deep_view()).contains(n@),
{
    let mut tmp: Vec<String> = Vec::new();
    push_op_names(op, &mut tmp);
    proof {
        assert(names_view(tmp@) =~= op_names(op.deep_view()));
    }
    names_contain(&tmp, n)
}

/// The index of the last statement that touches a name, if any.
fn last_use_of(ops: &Vec<Operand>, n: &str) -> (r: Option<usize>)
    ensures
        match r {
            Some(k) => last_use(operands_view(ops@), n@) == k,
            None => last_use(operands_view(ops@), n@) == -1,
        },
{
    let ghost opsv = operands_view(ops@);
    proof {
        lemma_operands_view(ops@);
    }
    let mut k: usize = ops.len();
    proof {
        assert(opsv.take(k as int) =~= opsv);
    }
    while k > 0
        invariant
            k <= ops@.len(),
            opsv == operands_view(ops@),
            opsv.len() == ops@.len(),
            forall|m: int| 0 <= m < opsv.len() ==> opsv[m] == #[trigger] ops@[m].deep_view(),
            last_use(opsv, n@) == last_use(opsv.take(k as int), n@),
        decreases k,
    {
        k = k - 1;
        let hit = op_mentions(&ops[k], n);
        proof {
            assert(opsv.take(k + 1).last() == opsv[k as int]);
            assert(opsv.take(k + 1).drop_last() =~= opsv.take(k as int));
        }
        if hit {
            return Some(k);
        }
    }
    proof {
        assert(opsv.take(0) =~= Seq::<OperandView>::empty());
    }
    None
}

/// Run the dead-variable pass over a statement list.
fn pass_operands(ops: &Vec<Operand>) -> (r: Vec<Operand>)
    ensures
        operands_view(r@) == liveness_rewrite(operands_view(ops@)),
    decreases ops@, 7int, 0int,
{
    let ghost opsv = operands_view(ops@);
    proof {
        lemma_operands_view(ops@);
    }

    let mut names: Vec<String> = Vec::new();
    let mut ni: usize = 0;
    proof {
        assert(opsv.take(0) =~= Seq::<OperandView>::empty());
        assert(names_view(names@) =~= dedup_names(ops_names(opsv.take(0))));
    }
    while ni < ops.len()
        invariant
            ni <= ops@.len(),
            opsv == operands_view(ops@),
            opsv.len() == ops@.len(),
            forall|m: int| 0 <= m < opsv.len() ==> opsv[m] == #[trigger] ops@[m].deep_view(),
            names_view(names@) == dedup_names(ops_names(opsv.take(ni as int))),
        decreases ops@.len() - ni,
    {
        let mut tmp: Vec<String> = Vec::new();
        push_op_names(&ops[ni], &mut tmp);
        proof {
            assert(names_view(tmp@) =~= op_names(opsv[ni as int]));
        }
        let ghost base = ops_names(opsv.take(ni as int));
        let ghost tmpv = names_view(tmp@);
        let mut ti: usize = 0;
        proof {
            assert((base + tmpv.take(0)) =~= base);
            assert(names_view(names@) =~= dedup_names(base + tmpv.take(0)));
        }
        while ti < tmp.len()
            invariant
                ti <= tmp@.len(),
                tmpv == names_view(tmp@),
                tmpv.len() == tmp@.len(),
                base == ops_names(opsv.take(ni as int)),
                names_view(names@) == dedup_names(base + tmpv.take(ti as int)),
            decreases tmp@.len() - ti,
        {
            proof {
                assert((base + tmpv.take(ti + 1)).drop_last() =~= base + tmpv.take(ti as int));
                assert((base + tmpv.take(ti + 1)).last() == tmpv[ti as int]);
                assert(tmpv[ti as int] == tmp@[ti as int]@);
            }
            let is_known = names_contain(&names, tmp[ti].as_str());
            if !is_known {
                let ghost pre = names_view(names@);
                let owned = tmp[ti].clone();
                names.push(owned);
                proof {
                    assert(names_view(names@) =~= pre.push(tmp@[ti as int]@));
                }
            }
            proof {
                assert(names_view(names@) =~= dedup_names(base + tmpv.take(ti + 1)));
            }
            ti += 1;
        }
        proof {
            assert(tmpv.take(tmpv.len() as int) =~= tmpv);
            assert(opsv.take(ni + 1).drop_last() =~= opsv.take(ni as int));
            assert(opsv.take(ni + 1).last() == opsv[ni as int]);
            assert(ops_names(opsv.take(ni + 1)) == base + op_names(opsv[ni as int]));
            assert((base + tmpv) =~= ops_names(opsv.take(ni + 1)));
        }
        ni += 1;
    }
    proof {
        assert(opsv.take(opsv.len() as int) =~= opsv);
    }
    let ghost namesv = names_view(names@);

    let mut result: Vec<Operand> = Vec::new();
    let mut i: usize = 0;
    proof {
        assert(operands_view(result@) =~= Seq::<OperandView>::empty());
        assert(operands_view(result@) + rewrite_from(opsv, namesv, 0) =~= rewrite_from(
            opsv,
            namesv,
            0,
        ));
    }
    while i < ops.len()
        invariant
            i <= ops@.len(),
            opsv == operands_view(ops@),
            opsv.len() == ops@.len(),
            forall|m: int| 0 <= m < opsv.len() ==> opsv[m] == #[trigger] ops@[m].deep_view(),
            namesv == names_view(names@),
            namesv == dedup_names(ops_names(opsv)),
            operands_view(result@) + rewrite_from(opsv, namesv, i as int) == rewrite_from(
                opsv,
                namesv,
                0,
            ),
        decreases ops@.len() - i,
    {
        let ghost j = i as int;
        let op = &ops[i];
        proof {
            reveal_with_fuel(crate::operand::operand_view, 2);
            assert(opsv[j] == ops@[j].deep_view());
        }

        let mut is_dead = false;
        if let Operand::DeclareVariable(_, declared, _) = op {
            match last_use_of(ops, declared.as_str()) {
                Some(k) => {
                    if k == i {
                        is_dead = true;
                    }
                },
                None => {},
            }
            proof {
                assert(opsv[j] is DeclareVariable);
                assert(opsv[j]->DeclareVariable_1 == declared@);
                assert(is_dead == dead_declare(opsv, j));
            }
        } else {
            proof {
                assert(!(opsv[j] is DeclareVariable));
                assert(!dead_declare(opsv, j));
            }
        }

        let ghost kept_target = if dead_declare(opsv, j) {
            Seq::<OperandView>::empty()
        } else {
            seq![rewrite_op(opsv[j])]
        };
        let ghost before_kept = operands_view(result@);
        if !is_dead {
            if let Operand::FunctionDecl(func_type, func_name, func_body, func_params) = op {
                proof {
                    broadcast use vstd::std_specs::vec::axiom_vec_index_decreases;

                    assert(decreases_to!(ops@ => ops@[j]));
                    assert(decreases_to!(ops@[j] => *func_body));
                    assert(decreases_to!(*func_body => func_body@));
                }
                let new_body = pass_operands(func_body);
                let mut new_params: Vec<(String, OperandType)> = Vec::new();
                let mut pi: usize = 0;
                while pi < func_params.len()
                    invariant
                        pi <= func_params@.len(),
                        new_params@.len() == pi,
                        forall|m: int|
                            0 <= m < pi ==> new_params@[m].0@ == #[trigger] func_params@[m].0@
                                && new_params@[m].1 == func_params@[m].1,
                    decreases func_params@.len() - pi,
                {
                    let q = &func_params[pi];
                    new_params.push((q.0.clone(), q.1.clone()));
                    pi += 1;
                }
                proof {
                    assert(params_view(new_params@) =~= params_view(func_params@));
                }
                let rebuilt = Operand::FunctionDecl(
                    func_type.clone(),
                    func_name.clone(),
                    new_body,
                    new_params,
                );
                proof {
                    assert(opsv[j] is FunctionDecl);
                    assert(opsv[j]->FunctionDecl_0 == *func_type);
                    assert(opsv[j]->FunctionDecl_1 == func_name@);
                    assert(opsv[j]->FunctionDecl_2 == operands_view(func_body@));
                    assert(opsv[j]->FunctionDecl_3 == params_view(func_params@));
                    assert(rebuilt.deep_view() == rewrite_op(opsv[j]));
                }
                let ghost pre_push = result@;
                result.push(rebuilt);
                proof {
                    crate::operand::lemma_operands_view_push(pre_push, result@.last());
                    assert(operands_view(result@) =~= before_kept + kept_target);
                }
            } else {
                proof {
                    assert(rewrite_op(opsv[j]) == opsv[j]);
                }
                let copy = op.clone();
                let ghost pre_push = result@;
                result.push(copy);
                proof {
                    crate::operand::lemma_operands_view_push(pre_push, result@.last());
                    assert(operands_view(result@) =~= before_kept + kept_target);
                }
            }
        } else {
            proof {
                assert(operands_view(result@) =~= before_kept + kept_target);
            }
        }

        let mut dead_name: Option<String> = None;
        if is_dead {
            if let Operand::DeclareVariable(_, declared, _) = op {
                proof {
                    reveal_with_fuel(crate::operand::operand_view, 2);
                    assert(opsv[j] == ops@[j].deep_view());
                    assert(opsv[j]->DeclareVariable_1 == declared@);
                }
                dead_name = Some(declared.clone());
            }
        }

        let ghost before_drops = operands_view(result@);
        let mut di: usize = 0;
        proof {
            assert(namesv.skip(0) =~= namesv);
            assert(operands_view(result@) =~= before_drops + Seq::<OperandView>::empty());
        }
        while di < names.len()
            invariant
                di <= names@.len(),
                namesv == names_view(names@),
                namesv.len() == names@.len(),
                opsv == operands_view(ops@),
                opsv.len() == ops@.len(),
                0 <= j < opsv.len(),
                j == i as int,
                forall|m: int| 0 <= m < opsv.len() ==> opsv[m] == #[trigger] ops@[m].deep_view(),
                is_dead == dead_declare(opsv, j),
                (match dead_name {
                    Some(d) => is_dead && d@ == opsv[j]->DeclareVariable_1,
                    None => !is_dead,
                }),
                before_drops + drops_at(namesv, opsv, j) == operands_view(result@) + drops_at(
                    namesv.skip(di as int),
                    opsv,
                    j,
                ),
            decreases names@.len() - di,
        {
            let ghost rest = namesv.skip(di as int);
            proof {
                assert(rest.first() == namesv[di as int]);
                assert(rest.drop_first() =~= namesv.skip(di as int + 1));
                assert(namesv[di as int] == names@[di as int]@);
            }
            let n = &names[di];
            let lu = last_use_of(ops, n.as_str());
            let mut place_drop = false;
            match lu {
                Some(k) => {
                    if k == i {
                        place_drop = true;
                    }
                },
                None => {},
            }
            if place_drop && is_dead {
                if let Some(d) = &dead_name {
                    if str_eq(d.as_str(), n.as_str()) {
                        place_drop = false;
                    }
                }
            }
            proof {
                assert(place_drop == (last_use(opsv, rest.first()) == j && !(dead_declare(opsv, j)
                    && rest.first() == opsv[j]->DeclareVariable_1)));
            }
            if place_drop {
                let ghost before_one = operands_view(result@);
                let dropped = Operand::DropVariable(n.clone());
                let ghost pre_push = result@;
                result.push(dropped);
                proof {
                    crate::operand::lemma_operands_view_push(pre_push, result@.last());
                    assert(operands_view(result@) =~= before_one + seq![
                        OperandView::DropVariable(rest.first()),
                    ]);
                }
            }
            proof {
                assert(before_drops + drops_at(namesv, opsv, j) =~= operands_view(result@)
                    + drops_at(namesv.skip(di as int + 1), opsv, j));
            }
            di += 1;
        }
        proof {
            assert(namesv.skip(namesv.len() as int) =~= Seq::<Seq<char>>::empty());
            assert(operands_view(result@) =~= before_drops + drops_at(namesv, opsv, j));
            assert(rewrite_from(opsv, namesv, j) == kept_target + drops_at(namesv, opsv, j)
                + rewrite_from(opsv, namesv, j + 1));
            assert(operands_view(result@) + rewrite_from(opsv, namesv, j + 1) =~= rewrite_from(
                opsv,
                namesv,
                0,
            ));
        }
        i += 1;
    }
    proof {
        assert(rewrite_from(opsv, namesv, opsv.len() as int) =~= Seq::<OperandView>::empty());
        assert(operands_view(result@) =~= rewrite_from(opsv, namesv, 0));
    }
    result
}

/// Rewrite a module in place: delete never-used declarations and place a
/// `DropVariable` after each name's last use.
pub fn deallocation_pass(ir_module: &mut IRModule)
    ensures
        final(ir_module)@ == liveness_rewrite(old(ir_module)@),
{
    let rewritten = pass_operands(&ir_module.operands);
    ir_module.operands = rewritten;
}

} // verus!
