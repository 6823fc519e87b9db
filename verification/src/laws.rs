//! Properties that hold of every environment and every run.

use crate::ast::{BinaryOperator, CompoundOp, Expr, Statement, StringPart};
use crate::display::show;
use crate::text::{begins_with, finishes_with};
use crate::environment::{assign, bind, call_scopes, enter, holder, leave, lookup, return_scopes};
use crate::host::{answer_number, answer_parsed, Answer, ArithOp, CompareOp, MathOp, Query};
use crate::methods::{
    dict_get, dict_insert, insert_position, key_index, lemma_key_index, lemma_key_index_is,
    sort_order, sorted_list,
};
use crate::semantics::{
    bind_params, call_function, call_method, call_with_self, eval, eval_binary, eval_call,
    eval_dict, eval_list, eval_method_call, eval_new, eval_parts, exec_compound, exec_for, exec_if,
    exec_stmt, exec_try, for_loop, inject_methods, run_block, run_body, run_program, while_loop,
    with_scopes, binary_result, compound_result, index_result, num_arith, num_compare, range_from,
    undefined_message, Flow, State,
};
use crate::builtins::{apply_pure_builtin, builtin_name};
use crate::interpreter::{bind_builtins, builtin_list, initial_state, native_value};
use crate::value::{truthy, type_label_of, Builtin, Data};
use vstd::prelude::*;

verus! {

/// Reading a name just bound gives the value bound.
pub proof fn law_read_after_set<W>(scopes: Seq<Map<Seq<char>, W>>, name: Seq<char>, value: W)
    requires
        scopes.len() > 0,
    ensures
        lookup(bind(scopes, name, value), name) == Some(value),
{
    let s = bind(scopes, name, value);
    assert(s.last().contains_key(name));
    assert(holder(s, name) == s.len() - 1);
}

/// Binding a name leaves every other name as it was.
pub proof fn law_set_keeps_other_names<W>(
    scopes: Seq<Map<Seq<char>, W>>,
    name: Seq<char>,
    value: W,
    other: Seq<char>,
)
    requires
        name != other,
    ensures
        lookup(bind(scopes, name, value), other) == lookup(scopes, other),
{
    if scopes.len() > 0 {
        let s = bind(scopes, name, value);
        lemma_holder_same(scopes, s, other);
    }
}

/// A new scope sees every binding of the scopes around it.
pub proof fn law_inner_scope_sees_outer<W>(scopes: Seq<Map<Seq<char>, W>>, name: Seq<char>)
    ensures
        lookup(enter(scopes), name) == lookup(scopes, name),
{
    let s = enter(scopes);
    assert(!s.last().contains_key(name));
    assert(s.drop_last() =~= scopes);
    lemma_holder_bounds(scopes, name);
    if holder(scopes, name) >= 0 {
        assert(s[holder(scopes, name)] == scopes[holder(scopes, name)]);
    }
}

/// Entering a scope and leaving it gives back the scopes as they were.
pub proof fn law_leave_undoes_enter<W>(scopes: Seq<Map<Seq<char>, W>>)
    requires
        scopes.len() > 0,
    ensures
        leave(enter(scopes)) == scopes,
{
    assert(enter(scopes).drop_last() =~= scopes);
}

/// A binding made in an inner scope shadows the outer one while the scope
/// lasts, and the outer binding is back once the scope is left.
pub proof fn law_shadowing<W>(scopes: Seq<Map<Seq<char>, W>>, name: Seq<char>, value: W)
    requires
        scopes.len() > 0,
    ensures
        lookup(bind(enter(scopes), name, value), name) == Some(value),
        leave(bind(enter(scopes), name, value)) == scopes,
        lookup(leave(bind(enter(scopes), name, value)), name) == lookup(scopes, name),
{
    law_read_after_set(enter(scopes), name, value);
    let s = bind(enter(scopes), name, value);
    assert(s.drop_last() =~= scopes);
}

/// The global scope is never left.
pub proof fn law_global_scope_stays<W>(scopes: Seq<Map<Seq<char>, W>>)
    requires
        scopes.len() >= 1,
    ensures
        leave(scopes).len() >= 1,
        scopes.len() == 1 ==> leave(scopes) == scopes,
{
}

/// Reading a name just assigned gives the value assigned.
pub proof fn law_read_after_update<W>(scopes: Seq<Map<Seq<char>, W>>, name: Seq<char>, value: W)
    requires
        scopes.len() > 0,
    ensures
        lookup(assign(scopes, name, value), name) == Some(value),
{
    lemma_holder_bounds(scopes, name);
    let h = holder(scopes, name);
    if h >= 0 {
        let s = assign(scopes, name, value);
        lemma_holder_bounds(s, name);
        assert forall|j: int| h < j < s.len() implies !(#[trigger] s[j]).contains_key(name) by {
            assert(s[j] == scopes[j]);
        }
        assert(s[h].contains_key(name));
        lemma_holder_at(s, name, h);
    } else {
        law_read_after_set(scopes, name, value);
    }
}

/// Assigning a name that an outer scope binds, from an inner scope, changes
/// the outer binding: once the inner scope is left the new value is read.
pub proof fn law_update_reaches_outer<W>(
    scopes: Seq<Map<Seq<char>, W>>,
    name: Seq<char>,
    value: W,
)
    requires
        lookup(scopes, name) is Some,
    ensures
        assign(enter(scopes), name, value) == enter(assign(scopes, name, value)),
        lookup(leave(assign(enter(scopes), name, value)), name) == Some(value),
{
    lemma_holder_bounds(scopes, name);
    let e = enter(scopes);
    assert(!e.last().contains_key(name));
    assert(e.drop_last() =~= scopes);
    assert(holder(e, name) == holder(scopes, name));
    assert(assign(e, name, value) =~= enter(assign(scopes, name, value)));
    law_leave_undoes_enter(assign(scopes, name, value));
    law_read_after_update(scopes, name, value);
}

/// Binding and assigning never change the number of scopes.
pub proof fn law_depth_kept<W>(scopes: Seq<Map<Seq<char>, W>>, name: Seq<char>, value: W)
    ensures
        bind(scopes, name, value).len() == scopes.len(),
        assign(scopes, name, value).len() == scopes.len(),
        enter(scopes).len() == scopes.len() + 1,
{
    lemma_holder_bounds(scopes, name);
}

proof fn lemma_holder_bounds<W>(scopes: Seq<Map<Seq<char>, W>>, name: Seq<char>)
    ensures
        -1 <= holder(scopes, name) < scopes.len(),
        holder(scopes, name) >= 0 ==> scopes[holder(scopes, name)].contains_key(name),
        forall|j: int|
            holder(scopes, name) < j < scopes.len() ==> !(#[trigger] scopes[j]).contains_key(name),
    decreases scopes.len(),
{
    if scopes.len() > 0 {
        lemma_holder_bounds(scopes.drop_last(), name);
        assert forall|j: int| holder(scopes, name) < j < scopes.len() implies !(
        #[trigger] scopes[j]).contains_key(name) by {
            if j < scopes.len() - 1 {
                assert(scopes.drop_last()[j] == scopes[j]);
            }
        }
    }
}

proof fn lemma_holder_at<W>(scopes: Seq<Map<Seq<char>, W>>, name: Seq<char>, i: int)
    requires
        0 <= i < scopes.len(),
        scopes[i].contains_key(name),
        forall|j: int| i < j < scopes.len() ==> !(#[trigger] scopes[j]).contains_key(name),
    ensures
        holder(scopes, name) == i,
    decreases scopes.len(),
{
    if i < scopes.len() - 1 {
        assert(!scopes[scopes.len() - 1].contains_key(name));
        lemma_holder_at(scopes.drop_last(), name, i);
    }
}

/// Two chains of scopes that agree on `name` in every scope agree on
/// reading it.
proof fn lemma_holder_same<W>(a: Seq<Map<Seq<char>, W>>, b: Seq<Map<Seq<char>, W>>, name: Seq<char>)
    requires
        a.len() == b.len(),
        forall|j: int|
            0 <= j < a.len() ==> (#[trigger] a[j]).contains_key(name) == b[j].contains_key(name)
                && (a[j].contains_key(name) ==> a[j][name] == b[j][name]),
    ensures
        holder(a, name) == holder(b, name),
        lookup(a, name) == lookup(b, name),
    decreases a.len(),
{
    if a.len() > 0 {
        assert(a.last() == a[a.len() - 1]);
        lemma_holder_same(a.drop_last(), b.drop_last(), name);
        lemma_holder_bounds(a, name);
    }
}

/// What every step of a run keeps: whether printed lines are kept does not
/// change; a state that keeps no lines gets none in its buffer, and one that
/// keeps them hands none to the host; and a step that ends without an error
/// leaves as many scopes as it found.
pub open spec fn keeps(before: State, after: State, ok: bool) -> bool {
    &&& after.buffered == before.buffered
    &&& (!before.buffered ==> after.out == before.out)
    &&& (before.buffered ==> after.sent == before.sent)
    &&& (ok ==> after.scopes.len() == before.scopes.len())
}

/// A program run never changes whether printed lines are kept; a run on an
/// interpreter without a buffer puts no lines in the buffer, and a run on one
/// with a buffer hands no lines to the host; and a run that ends without an
/// error leaves as many scopes as it found.
pub proof fn law_run_keeps(
    o: spec_fn(Query) -> Answer,
    fuel: nat,
    st: State,
    stmts: Seq<Statement>,
)
    requires
        st.scopes.len() >= 1,
    ensures
        keeps(st, run_program(o, fuel, st, stmts).0, run_program(o, fuel, st, stmts).1 is Ok),
{
    lemma_run_block(o, fuel, st, stmts, 0);
}

/// A function call that returns leaves as many scopes as it found: the
/// scope it enters is left again.
pub proof fn law_call_keeps(
    o: spec_fn(Query) -> Answer,
    fuel: nat,
    st: State,
    f: Data,
    args: Seq<Data>,
)
    requires
        st.scopes.len() >= 1,
    ensures
        keeps(st, call_function(o, fuel, st, f, args).0, call_function(o, fuel, st, f, args).1 is Ok),
{
    lemma_call_function(o, fuel, st, f, args);
}

/// Two states that agree on their first `d` scopes and on everything but
/// their scopes.
pub open spec fn agree_up_to(a: State, b: State, d: nat) -> bool {
    &&& 1 <= d <= a.scopes.len()
    &&& d <= b.scopes.len()
    &&& a.scopes.take(d as int) == b.scopes.take(d as int)
    &&& same_but_scopes(a, b)
}

/// Two states that agree on everything but their scopes.
pub open spec fn same_but_scopes(a: State, b: State) -> bool {
    &&& a.reads == b.reads
    &&& a.out == b.out
    &&& a.sent == b.sent
    &&& a.buffered == b.buffered
}

/// Scoping is lexical: a call of a function defined where there were
/// `depth` scopes sees only the caller's first `depth` scopes (the global
/// scope, and the scopes of the functions its definition stands in). Two
/// callers that agree on those get the same result and print the same; when
/// the call succeeds they still agree on those scopes, and each caller's
/// other scopes are as they were. A function defined at the top level
/// (`depth` 1) cannot read a variable bound only in its caller; a function
/// defined inside another reads that one's locals.
pub proof fn law_call_is_lexical(
    o: spec_fn(Query) -> Answer,
    fuel: nat,
    st1: State,
    st2: State,
    name: Seq<char>,
    params: Seq<Seq<char>>,
    body: Seq<Statement>,
    depth: usize,
    args: Seq<Data>,
)
    requires
        agree_up_to(st1, st2, depth as nat),
    ensures
        ({
            let f = Data::Function { name, params, body, depth };
            let (a, ra) = call_function(o, fuel, st1, f, args);
            let (b, rb) = call_function(o, fuel, st2, f, args);
            &&& ra == rb
            &&& same_but_scopes(a, b)
            &&& ra is Ok ==> agree_up_to(a, b, depth as nat)
            &&& ra is Ok ==> a.scopes.skip(depth as int) == st1.scopes.skip(depth as int)
            &&& ra is Ok ==> b.scopes.skip(depth as int) == st2.scopes.skip(depth as int)
        }),
{
    if args.len() == params.len() {
        let c1 = call_scopes(st1.scopes, depth);
        assert(c1 =~= call_scopes(st2.scopes, depth));
        let s1 = with_scopes(st1, bind_params(c1, params, args));
        assert(s1 == with_scopes(st2, bind_params(call_scopes(st2.scopes, depth), params, args)));
        lemma_bind_params_len(c1, params, args);
        lemma_run_body(o, fuel, s1, body, 0);
        let (e, r) = run_body(o, fuel, s1, body, 0);
        if r is Ok {
            let d = depth as int;
            let a = return_scopes(st1.scopes, e.scopes, depth);
            let b = return_scopes(st2.scopes, e.scopes, depth);
            assert(a.take(d) =~= e.scopes.take(d));
            assert(b.take(d) =~= e.scopes.take(d));
            assert(a.skip(d) =~= st1.scopes.skip(d));
            assert(b.skip(d) =~= st2.scopes.skip(d));
        }
    }
}

/// Method calls are lexical too: a method body sees the scopes that
/// enclosed its class's definition, its parameters and its class's methods,
/// not its caller's other locals.
pub proof fn law_method_call_is_lexical(
    o: spec_fn(Query) -> Answer,
    fuel: nat,
    st1: State,
    st2: State,
    name: Seq<char>,
    params: Seq<Seq<char>>,
    body: Seq<Statement>,
    depth: usize,
    methods: Seq<(Seq<char>, Data)>,
    args: Seq<Data>,
)
    requires
        agree_up_to(st1, st2, depth as nat),
    ensures
        ({
            let f = Data::Function { name, params, body, depth };
            let (a, ra) = call_with_self(o, fuel, st1, f, methods, args);
            let (b, rb) = call_with_self(o, fuel, st2, f, methods, args);
            &&& ra == rb
            &&& same_but_scopes(a, b)
            &&& ra is Ok ==> agree_up_to(a, b, depth as nat)
            &&& ra is Ok ==> a.scopes.skip(depth as int) == st1.scopes.skip(depth as int)
            &&& ra is Ok ==> b.scopes.skip(depth as int) == st2.scopes.skip(depth as int)
        }),
{
    if args.len() == params.len() {
        let c1 = call_scopes(st1.scopes, depth);
        assert(c1 =~= call_scopes(st2.scopes, depth));
        let s1 = with_scopes(st1, inject_methods(bind_params(c1, params, args), methods));
        assert(s1 == with_scopes(
            st2,
            inject_methods(bind_params(call_scopes(st2.scopes, depth), params, args), methods),
        ));
        lemma_bind_params_len(c1, params, args);
        lemma_inject_len(bind_params(c1, params, args), methods);
        lemma_run_body(o, fuel, s1, body, 0);
        let (e, r) = run_body(o, fuel, s1, body, 0);
        if r is Ok {
            let d = depth as int;
            let a = return_scopes(st1.scopes, e.scopes, depth);
            let b = return_scopes(st2.scopes, e.scopes, depth);
            assert(a.take(d) =~= e.scopes.take(d));
            assert(b.take(d) =~= e.scopes.take(d));
            assert(a.skip(d) =~= st1.scopes.skip(d));
            assert(b.skip(d) =~= st2.scopes.skip(d));
        }
    }
}

/// Binding each of `bs` in turn.
pub open spec fn bind_all<W>(scopes: Seq<Map<Seq<char>, W>>, bs: Seq<(Seq<char>, W)>) -> Seq<
    Map<Seq<char>, W>,
>
    decreases bs.len(),
{
    if bs.len() == 0 {
        scopes
    } else {
        bind(bind_all(scopes, bs.drop_last()), bs.last().0, bs.last().1)
    }
}

proof fn lemma_bind_all_enter<W>(scopes: Seq<Map<Seq<char>, W>>, bs: Seq<(Seq<char>, W)>)
    requires
        scopes.len() >= 1,
    ensures
        bind_all(enter(scopes), bs).len() == scopes.len() + 1,
        bind_all(enter(scopes), bs).drop_last() == scopes,
    decreases bs.len(),
{
    if bs.len() == 0 {
        assert(enter(scopes).drop_last() =~= scopes);
    } else {
        lemma_bind_all_enter(scopes, bs.drop_last());
        let t = bind_all(enter(scopes), bs.drop_last());
        assert(bind(t, bs.last().0, bs.last().1).drop_last() =~= t.drop_last());
    }
}

/// Entering a scope, binding any number of names in it, and leaving it
/// gives back the scopes as they were: every name reads as before.
pub proof fn law_scope_bindings_undone<W>(scopes: Seq<Map<Seq<char>, W>>, bs: Seq<(Seq<char>, W)>)
    requires
        scopes.len() >= 1,
    ensures
        leave(bind_all(enter(scopes), bs)) == scopes,
        forall|name: Seq<char>| lookup(leave(bind_all(enter(scopes), bs)), name) == lookup(scopes, name),
{
    lemma_bind_all_enter(scopes, bs);
}

proof fn lemma_run_prefix(
    o: spec_fn(Query) -> Answer,
    fuel: nat,
    st: State,
    stmts: Seq<Statement>,
    k: int,
    i: int,
    mid: State,
)
    requires
        0 <= i <= k <= stmts.len(),
        run_block(o, fuel, st, stmts.take(k), i) == (mid, Ok::<Flow, Seq<char>>(Flow::Normal)),
    ensures
        run_block(o, fuel, st, stmts, i) == run_block(o, fuel, mid, stmts, k),
    decreases k - i,
{
    if i < k {
        assert(stmts.take(k)[i] == stmts[i]);
        let (s1, r) = exec_stmt(o, fuel, st, stmts[i]);
        lemma_run_prefix(o, fuel, s1, stmts, k, i + 1, mid);
    }
}

/// A run goes through the statements in order and stops at the first one
/// that does not end normally: nothing after it runs. A value thrown out of
/// the program becomes the error "Uncaught exception: " and the value's
/// text; a `return`, `break` or `continue` ends the run without an error.
pub proof fn law_run_stops_at_first_signal(
    o: spec_fn(Query) -> Answer,
    fuel: nat,
    st: State,
    stmts: Seq<Statement>,
    k: int,
    mid: State,
)
    requires
        0 <= k < stmts.len(),
        run_block(o, fuel, st, stmts.take(k), 0) == (mid, Ok::<Flow, Seq<char>>(Flow::Normal)),
        !(exec_stmt(o, fuel, mid, stmts[k]).1 matches Ok(Flow::Normal)),
    ensures
        run_program(o, fuel, st, stmts).0 == exec_stmt(o, fuel, mid, stmts[k]).0,
        exec_stmt(o, fuel, mid, stmts[k]).1 matches Err(m) ==> run_program(o, fuel, st, stmts).1
            == Err::<(), Seq<char>>(m),
        exec_stmt(o, fuel, mid, stmts[k]).1 matches Ok(Flow::Throw(v)) ==> run_program(
            o,
            fuel,
            st,
            stmts,
        ).1 == Err::<(), Seq<char>>("Uncaught exception: "@ + show(o, v)),
        exec_stmt(o, fuel, mid, stmts[k]).1 matches Ok(f) && !(f is Throw) ==> run_program(
            o,
            fuel,
            st,
            stmts,
        ).1 == Ok::<(), Seq<char>>(()),
{
    lemma_run_prefix(o, fuel, st, stmts, k, 0, mid);
}

/// A run whose statements all end normally succeeds, and its last state is
/// where the next run on the same interpreter starts: a top-level
/// assignment is read by every later run.
pub proof fn law_assignment_persists(
    o: spec_fn(Query) -> Answer,
    fuel: nat,
    st: State,
    name: String,
    value: Expr,
)
    requires
        fuel > 0,
        st.scopes.len() >= 1,
        eval(o, (fuel - 1) as nat, st, value).1 is Ok,
    ensures
        run_program(o, fuel, st, seq![Statement::Assignment { name, value }]).1 == Ok::<(), Seq<char>>(()),
        lookup(run_program(o, fuel, st, seq![Statement::Assignment { name, value }]).0.scopes, name@)
            == Some(eval(o, (fuel - 1) as nat, st, value).1->Ok_0),
{
    let g = (fuel - 1) as nat;
    lemma_eval(o, g, st, value);
    let (s1, r) = eval(o, g, st, value);
    law_read_after_update(s1.scopes, name@, r->Ok_0);
    let a = Statement::Assignment { name, value };
    let stmts = seq![a];
    assert(stmts[0] == a);
    let s2 = with_scopes(s1, assign(s1.scopes, name@, r->Ok_0));
    assert(exec_stmt(o, fuel, st, a) == (s2, Ok::<Flow, Seq<char>>(Flow::Normal)));
    assert(run_block(o, fuel, s2, stmts, 1) == (s2, Ok::<Flow, Seq<char>>(Flow::Normal)));
    assert(run_block(o, fuel, st, stmts, 0) == (s2, Ok::<Flow, Seq<char>>(Flow::Normal)));
}

/// Reading an identifier gives its value, or the "Undefined variable" error,
/// and changes nothing.
pub proof fn law_identifier(o: spec_fn(Query) -> Answer, fuel: nat, st: State, name: String)
    requires
        fuel > 0,
    ensures
        eval(o, fuel, st, Expr::Identifier { name }) == (
            st,
            match lookup(st.scopes, name@) {
                Some(v) => Ok::<Data, Seq<char>>(v),
                None => Err(undefined_message(name@)),
            },
        ),
{
}

/// Both operands of a binary operator are evaluated, left first, before the
/// operator applies; `and` and `or` do not short-circuit.
pub proof fn law_operands_both_evaluated(
    o: spec_fn(Query) -> Answer,
    fuel: nat,
    st: State,
    left: Expr,
    op: BinaryOperator,
    right: Expr,
)
    requires
        eval(o, fuel, st, left).1 is Ok,
    ensures
        eval_binary(o, fuel, st, left, op, right) == ({
            let s1 = eval(o, fuel, st, left).0;
            let (s2, r) = eval(o, fuel, s1, right);
            match r {
                Err(m) => (s2, Err(m)),
                Ok(rv) => (s2, binary_result(o, eval(o, fuel, st, left).1->Ok_0, op, rv)),
            }
        }),
{
}

/// Indexing evaluates the object, then the index, and gives the list item,
/// the dictionary value, or the error `index_result` names.
pub proof fn law_indexing(
    o: spec_fn(Query) -> Answer,
    fuel: nat,
    st: State,
    object: Expr,
    index: Expr,
)
    requires
        fuel > 0,
    ensures
        eval(o, fuel, st, Expr::Index { object: Box::new(object), index: Box::new(index) }) == ({
            let g = (fuel - 1) as nat;
            let (s1, r1) = eval(o, g, st, object);
            match r1 {
                Err(m) => (s1, Err(m)),
                Ok(obj) => {
                    let (s2, r2) = eval(o, g, s1, index);
                    match r2 {
                        Err(m) => (s2, Err(m)),
                        Ok(idx) => (s2, index_result(o, obj, idx)),
                    }
                },
            }
        }),
{
}

/// An interpolated string is its parts in order: literal text as it is, and
/// each embedded expression's value as printed.
pub proof fn law_interpolation_step(
    o: spec_fn(Query) -> Answer,
    fuel: nat,
    st: State,
    parts: Seq<StringPart>,
    i: int,
    acc: Seq<char>,
)
    requires
        0 <= i < parts.len(),
    ensures
        parts[i] matches StringPart::Literal(t) ==> eval_parts(o, fuel, st, parts, i, acc)
            == eval_parts(o, fuel, st, parts, i + 1, acc + t@),
        parts[i] matches StringPart::Expression(e) ==> eval_parts(o, fuel, st, parts, i, acc) == ({
            let (s1, r) = eval(o, fuel, st, e);
            match r {
                Err(m) => (s1, Err(m)),
                Ok(v) => eval_parts(o, fuel, s1, parts, i + 1, acc + show(o, v)),
            }
        }),
        eval_parts(o, fuel, st, parts, parts.len() as int, acc) == (st, Ok::<Seq<char>, Seq<char>>(acc)),
{
}

/// An assignment evaluates its value, then changes the innermost scope that
/// binds the name (a global, from inside a function, when no local binds
/// it), and otherwise binds the name in the innermost scope.
pub proof fn law_assignment(
    o: spec_fn(Query) -> Answer,
    fuel: nat,
    st: State,
    name: String,
    value: Expr,
)
    requires
        fuel > 0,
        eval(o, (fuel - 1) as nat, st, value).1 is Ok,
    ensures
        ({
            let (s1, r) = eval(o, (fuel - 1) as nat, st, value);
            let v = r->Ok_0;
            let h = holder(s1.scopes, name@);
            &&& exec_stmt(o, fuel, st, Statement::Assignment { name, value }) == (
                with_scopes(s1, assign(s1.scopes, name@, v)),
                Ok::<Flow, Seq<char>>(Flow::Normal),
            )
            &&& h >= 0 ==> assign(s1.scopes, name@, v) == s1.scopes.update(
                h,
                s1.scopes[h].insert(name@, v),
            )
            &&& h < 0 ==> assign(s1.scopes, name@, v) == bind(s1.scopes, name@, v)
        }),
{
}

/// An `if` evaluates its condition and runs exactly one branch (or none,
/// without an `else`) in the same scopes; it ends as that branch ends.
pub proof fn law_if(o: spec_fn(Query) -> Answer, fuel: nat, st: State, s: Statement)
    requires
        fuel > 0,
        s is If,
    ensures
        (match s {
            Statement::If { condition, then_body, else_body } => exec_stmt(o, fuel, st, s) == ({
                let g = (fuel - 1) as nat;
                let (s1, c) = eval(o, g, st, condition);
                match c {
                    Err(m) => (s1, Err(m)),
                    Ok(v) => if truthy(v) {
                        run_block(o, g, s1, then_body@, 0)
                    } else {
                        match else_body {
                            Some(b) => run_block(o, g, s1, b@, 0),
                            None => (s1, Ok(Flow::Normal)),
                        }
                    },
                }
            }),
            _ => true,
        }),
{
}

/// A `while` loop tests its condition before every round, each round
/// costing a unit of the budget; it ends normally when the condition fails
/// or the body breaks, goes on after `continue`, and passes `return` and
/// `throw` up.
pub proof fn law_while(
    o: spec_fn(Query) -> Answer,
    fuel: nat,
    st: State,
    cond: Expr,
    body: Seq<Statement>,
)
    requires
        fuel > 0,
    ensures
        while_loop(o, fuel, st, cond, body) == ({
            let h = (fuel - 1) as nat;
            let (s1, c) = eval(o, h, st, cond);
            match c {
                Err(m) => (s1, Err(m)),
                Ok(v) => if !truthy(v) {
                    (s1, Ok(Flow::Normal))
                } else {
                    let (s2, r) = run_block(o, h, s1, body, 0);
                    match r {
                        Err(m) => (s2, Err(m)),
                        Ok(Flow::Normal) => while_loop(o, h, s2, cond, body),
                        Ok(Flow::Continue) => while_loop(o, h, s2, cond, body),
                        Ok(Flow::Break) => (s2, Ok(Flow::Normal)),
                        Ok(other) => (s2, Ok(other)),
                    }
                },
            }
        }),
{
}

/// A `for` loop over a list assigns the items to the variable in order,
/// running the body after each; `break` ends it normally, `continue` goes
/// to the next item, `return` and `throw` are passed up. Over anything but
/// a list it is an error, and the body never runs.
pub proof fn law_for(
    o: spec_fn(Query) -> Answer,
    fuel: nat,
    st: State,
    var: Seq<char>,
    iterable: Expr,
    items: Seq<Data>,
    k: int,
    body: Seq<Statement>,
)
    requires
        0 <= k < items.len(),
    ensures
        exec_for(o, fuel, st, var, iterable, body) == ({
            let (s1, r) = eval(o, fuel, st, iterable);
            match r {
                Err(m) => (s1, Err(m)),
                Ok(Data::List(xs)) => for_loop(o, fuel, s1, var, xs, 0, body),
                Ok(other) => (s1, Err("Cannot iterate over "@ + type_label_of(other))),
            }
        }),
        for_loop(o, fuel, st, var, items, k, body) == ({
            let s1 = with_scopes(st, assign(st.scopes, var, items[k]));
            let (s2, r) = run_block(o, fuel, s1, body, 0);
            match r {
                Err(m) => (s2, Err(m)),
                Ok(Flow::Normal) => for_loop(o, fuel, s2, var, items, k + 1, body),
                Ok(Flow::Continue) => for_loop(o, fuel, s2, var, items, k + 1, body),
                Ok(Flow::Break) => (s2, Ok(Flow::Normal)),
                Ok(other) => (s2, Ok(other)),
            }
        }),
        for_loop(o, fuel, st, var, items, items.len() as int, body) == (st, Ok::<Flow, Seq<char>>(Flow::Normal)),
{
}

/// A `try` runs its body; a value thrown there is bound to the catch
/// variable (unless it is empty) in a new scope, the catch block runs, and
/// the scope is left when the block ends without an error. A runtime error
/// in the body is not caught; other endings are passed up.
pub proof fn law_try(
    o: spec_fn(Query) -> Answer,
    fuel: nat,
    st: State,
    try_body: Seq<Statement>,
    catch_var: Seq<char>,
    catch_body: Seq<Statement>,
)
    ensures
        exec_try(o, fuel, st, try_body, catch_var, catch_body) == ({
            let (s1, r) = run_block(o, fuel, st, try_body, 0);
            match r {
                Err(m) => (s1, Err(m)),
                Ok(Flow::Throw(v)) => {
                    let sc = enter(s1.scopes);
                    let s2 = with_scopes(
                        s1,
                        if catch_var.len() == 0 {
                            sc
                        } else {
                            bind(sc, catch_var, v)
                        },
                    );
                    let (s3, r2) = run_block(o, fuel, s2, catch_body, 0);
                    match r2 {
                        Err(m) => (s3, Err(m)),
                        Ok(flow) => (with_scopes(s3, leave(s3.scopes)), Ok(flow)),
                    }
                },
                Ok(flow) => (s1, Ok(flow)),
            }
        }),
{
}

/// A `try` that ends without an error leaves as many scopes as it found:
/// the scope of the catch variable is gone afterwards.
pub proof fn law_try_leaves_no_scope(
    o: spec_fn(Query) -> Answer,
    fuel: nat,
    st: State,
    try_body: Seq<Statement>,
    catch_var: Seq<char>,
    catch_body: Seq<Statement>,
)
    requires
        st.scopes.len() >= 1,
    ensures
        exec_try(o, fuel, st, try_body, catch_var, catch_body).1 is Ok ==> exec_try(
            o,
            fuel,
            st,
            try_body,
            catch_var,
            catch_body,
        ).0.scopes.len() == st.scopes.len(),
{
    lemma_exec_try(o, fuel, st, try_body, catch_var, catch_body);
}

/// A compound assignment to an undefined name is an error before its right
/// side is evaluated, and changes nothing; otherwise the stored value is
/// `compound_result` of the current value and the right side, and on an
/// error nothing is stored.
pub proof fn law_compound_assignment(
    o: spec_fn(Query) -> Answer,
    fuel: nat,
    st: State,
    name: Seq<char>,
    op: CompoundOp,
    value: Expr,
)
    ensures
        lookup(st.scopes, name) is None ==> exec_compound(o, fuel, st, name, op, value) == (
            st,
            Err::<Flow, Seq<char>>(undefined_message(name)),
        ),
        lookup(st.scopes, name) matches Some(cur) ==> exec_compound(o, fuel, st, name, op, value)
            == ({
            let (s1, r) = eval(o, fuel, st, value);
            match r {
                Err(m) => (s1, Err(m)),
                Ok(rhs) => match compound_result(o, cur, op, rhs) {
                    Err(m) => (s1, Err(m)),
                    Ok(res) => (with_scopes(s1, assign(s1.scopes, name, res)), Ok(Flow::Normal)),
                },
            }
        }),
{
}

/// A function call with the right number of arguments binds the
/// parameters in a new scope inside the global one, runs the body, gives
/// the first value returned (or null), and gives the caller its own scopes
/// back; with the wrong number it is an error and changes nothing.
pub proof fn law_call(
    o: spec_fn(Query) -> Answer,
    fuel: nat,
    st: State,
    name: Seq<char>,
    params: Seq<Seq<char>>,
    body: Seq<Statement>,
    depth: usize,
    args: Seq<Data>,
)
    ensures
        args.len() != params.len() ==> call_function(
            o,
            fuel,
            st,
            Data::Function { name, params, body, depth },
            args,
        ).0 == st,
        args.len() != params.len() ==> call_function(
            o,
            fuel,
            st,
            Data::Function { name, params, body, depth },
            args,
        ).1 is Err,
        args.len() == params.len() ==> call_function(
            o,
            fuel,
            st,
            Data::Function { name, params, body, depth },
            args,
        ) == ({
            let s1 = with_scopes(st, bind_params(call_scopes(st.scopes, depth), params, args));
            let (s2, r) = run_body(o, fuel, s1, body, 0);
            (with_scopes(s2, return_scopes(st.scopes, s2.scopes, depth)), r)
        }),
{
}

/// A body runs until a statement returns, whose value is the result; other
/// endings of a statement are passed over; without a `return` the result is
/// null.
pub proof fn law_body_result(
    o: spec_fn(Query) -> Answer,
    fuel: nat,
    st: State,
    body: Seq<Statement>,
    i: int,
)
    requires
        0 <= i < body.len(),
    ensures
        run_body(o, fuel, st, body, i) == ({
            let (s1, r) = exec_stmt(o, fuel, st, body[i]);
            match r {
                Err(m) => (s1, Err(m)),
                Ok(Flow::Return(v)) => (s1, Ok(v)),
                Ok(_) => run_body(o, fuel, s1, body, i + 1),
            }
        }),
        run_body(o, fuel, st, body, body.len() as int) == (st, Ok::<Data, Seq<char>>(Data::Null)),
{
}

/// A method call on an instance looks the class up by the instance's class
/// name and the method in the class, then calls it with the instance first;
/// a method's arity is checked before anything runs, and the class's
/// methods whose names cannot already be read are bound in the call's scope.
pub proof fn law_method_call(
    o: spec_fn(Query) -> Answer,
    fuel: nat,
    st: State,
    class_name: Seq<char>,
    fields: Seq<(Seq<char>, Data)>,
    method: Seq<char>,
    args: Seq<Data>,
    name: Seq<char>,
    params: Seq<Seq<char>>,
    body: Seq<Statement>,
    depth: usize,
    methods: Seq<(Seq<char>, Data)>,
)
    ensures
        lookup(st.scopes, class_name) is None ==> call_method(
            o,
            fuel,
            st,
            Data::Instance { class_name, fields },
            method,
            args,
        ) == (st, Err::<Data, Seq<char>>("Class '"@ + class_name + "' not found"@)),
        args.len() != params.len() ==> call_with_self(
            o,
            fuel,
            st,
            Data::Function { name, params, body, depth },
            methods,
            args,
        ).0 == st,
        args.len() == params.len() ==> call_with_self(
            o,
            fuel,
            st,
            Data::Function { name, params, body, depth },
            methods,
            args,
        ) == ({
            let s1 = with_scopes(
                st,
                inject_methods(bind_params(call_scopes(st.scopes, depth), params, args), methods),
            );
            let (s2, r) = run_body(o, fuel, s1, body, 0);
            (with_scopes(s2, return_scopes(st.scopes, s2.scopes, depth)), r)
        }),
{
}

/// Whether `range` goes on from `i`: below the bound when stepping up,
/// above it when stepping down.
pub open spec fn range_goes_on(o: spec_fn(Query) -> Answer, i: u64, stop: u64, step: u64, zero: u64) -> bool {
    (num_compare(o, CompareOp::Greater, step, zero) && num_compare(o, CompareOp::Less, i, stop))
        || (num_compare(o, CompareOp::Less, step, zero) && num_compare(o, CompareOp::Greater, i, stop))
}

/// The numbers `range` gave: each a number from which the range goes on,
/// the first `start`, each next one the one before plus the step, and `next`
/// the number after the last (or `start` when there is none).
pub open spec fn range_shape(
    o: spec_fn(Query) -> Answer,
    items: Seq<Data>,
    start: u64,
    stop: u64,
    step: u64,
    zero: u64,
    next: u64,
) -> bool {
    &&& forall|j: int| 0 <= j < items.len() ==> (#[trigger] items[j]) is Number
        && range_goes_on(o, items[j]->Number_0, stop, step, zero)
    &&& items.len() == 0 ==> next == start
    &&& items.len() > 0 ==> items[0] == Data::Number(start)
    &&& items.len() > 0 ==> next == num_arith(o, ArithOp::Add, items.last()->Number_0, step)
    &&& forall|j: int| 0 <= j && j + 1 < items.len() ==> #[trigger] items[j + 1] == Data::Number(
        num_arith(o, ArithOp::Add, items[j]->Number_0, step),
    )
}

proof fn lemma_range_from(
    o: spec_fn(Query) -> Answer,
    fuel: nat,
    i: u64,
    start: u64,
    stop: u64,
    step: u64,
    zero: u64,
    acc: Seq<Data>,
)
    requires
        range_shape(o, acc, start, stop, step, zero, i),
        range_from(o, fuel, i, stop, step, zero, acc) is Ok,
    ensures
        range_from(o, fuel, i, stop, step, zero, acc) matches Ok(Data::List(items)) && ({
            let next = if items.len() == 0 {
                start
            } else {
                num_arith(o, ArithOp::Add, items.last()->Number_0, step)
            };
            range_shape(o, items, start, stop, step, zero, next) && !range_goes_on(
                o,
                next,
                stop,
                step,
                zero,
            )
        }),
    decreases fuel,
{
    if range_goes_on(o, i, stop, step, zero) {
        let acc2 = acc.push(Data::Number(i));
        let i2 = num_arith(o, ArithOp::Add, i, step);
        assert forall|j: int| 0 <= j && j + 1 < acc2.len() implies #[trigger] acc2[j + 1]
            == Data::Number(num_arith(o, ArithOp::Add, acc2[j]->Number_0, step)) by {
            if j + 1 < acc.len() {
                assert(acc2[j + 1] == acc[j + 1]);
                assert(acc2[j] == acc[j]);
            } else {
                assert(acc2[j] == acc.last());
            }
        }
        assert forall|j: int| 0 <= j < acc2.len() implies (#[trigger] acc2[j]) is Number
            && range_goes_on(o, acc2[j]->Number_0, stop, step, zero) by {
            if j < acc.len() {
                assert(acc2[j] == acc[j]);
            }
        }
        lemma_range_from(o, (fuel - 1) as nat, i2, start, stop, step, zero, acc2);
    }
}

/// What `range(start, stop, step)` gives, when it gives a list: the first
/// number is `start`, each next one is the one before plus the step, every
/// number is before the bound in the step's direction, and the number after
/// the last one is not.
pub proof fn law_range(
    o: spec_fn(Query) -> Answer,
    fuel: nat,
    start: u64,
    stop: u64,
    step: u64,
    zero: u64,
)
    requires
        range_from(o, fuel, start, stop, step, zero, Seq::empty()) is Ok,
    ensures
        range_from(o, fuel, start, stop, step, zero, Seq::empty()) matches Ok(Data::List(items)) && ({
            let next = if items.len() == 0 {
                start
            } else {
                num_arith(o, ArithOp::Add, items.last()->Number_0, step)
            };
            range_shape(o, items, start, stop, step, zero, next) && !range_goes_on(
                o,
                next,
                stop,
                step,
                zero,
            )
        }),
{
    lemma_range_from(o, fuel, start, start, stop, step, zero, Seq::empty());
}

/// A `return` ends a function body, with or without a value: a bare
/// `return` changes nothing and ends the body with null, so no statement
/// after it runs, whatever the state and the rest of the body.
pub proof fn law_bare_return_ends_body(
    o: spec_fn(Query) -> Answer,
    fuel: nat,
    st: State,
    body: Seq<Statement>,
    i: int,
)
    requires
        fuel > 0,
        0 <= i < body.len(),
        body[i] == (Statement::Return { value: None }),
    ensures
        exec_stmt(o, fuel, st, Statement::Return { value: None }) == (
            st,
            Ok::<Flow, Seq<char>>(Flow::Return(Data::Null)),
        ),
        run_body(o, fuel, st, body, i) == (st, Ok::<Data, Seq<char>>(Data::Null)),
        run_block(o, fuel, st, body, i) == (st, Ok::<Flow, Seq<char>>(Flow::Return(Data::Null))),
{
}

/// `and` is true exactly when both operands are truthy, and `or` when at
/// least one is; so a falsy left operand makes `and` false, a truthy one
/// makes `or` true, and swapping the operands changes neither.
pub proof fn law_and_or(o: spec_fn(Query) -> Answer, l: Data, r: Data)
    ensures
        binary_result(o, l, BinaryOperator::And, r) == Ok::<Data, Seq<char>>(
            Data::Boolean(truthy(l) && truthy(r)),
        ),
        binary_result(o, l, BinaryOperator::Or, r) == Ok::<Data, Seq<char>>(
            Data::Boolean(truthy(l) || truthy(r)),
        ),
        !truthy(l) ==> binary_result(o, l, BinaryOperator::And, r) == Ok::<Data, Seq<char>>(
            Data::Boolean(false),
        ),
        truthy(l) ==> binary_result(o, l, BinaryOperator::Or, r) == Ok::<Data, Seq<char>>(
            Data::Boolean(true),
        ),
        binary_result(o, l, BinaryOperator::And, r) == binary_result(o, r, BinaryOperator::And, l),
        binary_result(o, l, BinaryOperator::Or, r) == binary_result(o, r, BinaryOperator::Or, l),
{
}

/// `s += v` on a string `s` is `s = s + v`: the same as the `+` operator,
/// and the current text is always a prefix of the new one, followed by the
/// text of `v`. On two numbers, `+=`, `-=`, `*=` and `/=` give what `+`,
/// `-`, `*` and `/` give (the same division-by-zero error included).
pub proof fn law_compound_is_operator(o: spec_fn(Query) -> Answer, cur: Data, rhs: Data)
    ensures
        cur is Str ==> compound_result(o, cur, CompoundOp::Add, rhs) == binary_result(
            o,
            cur,
            BinaryOperator::Add,
            rhs,
        ),
        cur is Str ==> (compound_result(o, cur, CompoundOp::Add, rhs) matches Ok(Data::Str(t))
            && t.len() >= cur->Str_0.len() && t.take(cur->Str_0.len() as int) == cur->Str_0
            && t.skip(cur->Str_0.len() as int) == show(o, rhs)),
        cur is Number && rhs is Number ==> compound_result(o, cur, CompoundOp::Add, rhs)
            == binary_result(o, cur, BinaryOperator::Add, rhs),
        cur is Number && rhs is Number ==> compound_result(o, cur, CompoundOp::Subtract, rhs)
            == binary_result(o, cur, BinaryOperator::Subtract, rhs),
        cur is Number && rhs is Number ==> compound_result(o, cur, CompoundOp::Multiply, rhs)
            == binary_result(o, cur, BinaryOperator::Multiply, rhs),
        cur is Number && rhs is Number ==> compound_result(o, cur, CompoundOp::Divide, rhs)
            == binary_result(o, cur, BinaryOperator::Divide, rhs),
{
    if cur is Str {
        let a = cur->Str_0;
        let t = a + show(o, rhs);
        assert(t.take(a.len() as int) =~= a);
        assert(t.skip(a.len() as int) =~= show(o, rhs));
    }
}

/// `ends_with` holds exactly when the text is some text followed by the
/// suffix; `starts_with` exactly when it is the prefix followed by some text.
pub proof fn law_prefix_suffix(s: Seq<char>, t: Seq<char>, p: Seq<char>)
    ensures
        finishes_with(p + t, t),
        begins_with(t + p, t),
        finishes_with(s, t) ==> s == s.take(s.len() - t.len()) + t,
        begins_with(s, t) ==> s == t + s.skip(t.len() as int),
{
    assert((p + t).subrange((p + t).len() - t.len(), (p + t).len() as int) =~= t);
    assert((t + p).subrange(0, t.len() as int) =~= t);
    if finishes_with(s, t) {
        assert(s =~= s.take(s.len() - t.len()) + t);
    }
    if begins_with(s, t) {
        assert(s =~= t + s.skip(t.len() as int));
    }
}

/// `int()` truncates: of a number it gives the host's truncation of that
/// number, which is also what it gives of any text that reads as that
/// number; `num()` and `float()` keep a number as it is and give of a text
/// the number it reads as.
pub proof fn law_int_truncates(o: spec_fn(Query) -> Answer, n: u64, text: Seq<char>)
    ensures
        apply_pure_builtin(o, Builtin::Int, seq![Data::Number(n)]) == Ok::<Data, Seq<char>>(
            Data::Number(answer_number(o(Query::Math(MathOp::Truncate, n)))),
        ),
        answer_parsed(o(Query::Parse(text))) == Some(n) ==> apply_pure_builtin(
            o,
            Builtin::Int,
            seq![Data::Str(text)],
        ) == apply_pure_builtin(o, Builtin::Int, seq![Data::Number(n)]),
        apply_pure_builtin(o, Builtin::Num, seq![Data::Number(n)]) == Ok::<Data, Seq<char>>(
            Data::Number(n),
        ),
        apply_pure_builtin(o, Builtin::Float, seq![Data::Number(n)]) == Ok::<Data, Seq<char>>(
            Data::Number(n),
        ),
        answer_parsed(o(Query::Parse(text))) == Some(n) ==> apply_pure_builtin(
            o,
            Builtin::Num,
            seq![Data::Str(text)],
        ) == apply_pure_builtin(o, Builtin::Num, seq![Data::Number(n)]),
{
}

/// `!=` is the negation of `==`, `==` does not depend on the order of its
/// operands, every value but a NaN number equals itself, and `not` gives
/// the negation of a value's truthiness.
pub proof fn law_equality_and_not(o: spec_fn(Query) -> Answer, l: Data, r: Data)
    ensures
        binary_result(o, l, BinaryOperator::Equal, r) matches Ok(Data::Boolean(e))
            && binary_result(o, l, BinaryOperator::NotEqual, r) == Ok::<Data, Seq<char>>(
            Data::Boolean(!e),
        ),
        binary_result(o, l, BinaryOperator::Equal, r) == binary_result(
            o,
            r,
            BinaryOperator::Equal,
            l,
        ),
        (l is Str || l is Boolean || l is Null) ==> binary_result(o, l, BinaryOperator::Equal, l)
            == Ok::<Data, Seq<char>>(Data::Boolean(true)),
        (l is Number && !crate::value::number_is_nan(l->Number_0)) ==> binary_result(
            o,
            l,
            BinaryOperator::Equal,
            l,
        ) == Ok::<Data, Seq<char>>(Data::Boolean(true)),
        crate::semantics::unary_result(o, crate::ast::UnaryOperator::Not, l) == Ok::<
            Data,
            Seq<char>,
        >(Data::Boolean(!truthy(l))),
{
}

/// A text occurs in any text made of some text, it, and some more text;
/// and a text that occurs somewhere has such a form.
pub proof fn law_contains(s: Seq<char>, t: Seq<char>, p: Seq<char>, q: Seq<char>)
    ensures
        crate::text::occurs_in(p + t + q, t),
        crate::text::occurs_in(s, t) ==> exists|i: int|
            0 <= i && i + t.len() <= s.len() && s == #[trigger] s.take(i) + t + s.skip(i + t.len()),
{
    let u = p + t + q;
    assert(u.subrange(p.len() as int, p.len() + t.len() as int) =~= t);
    if crate::text::occurs_in(s, t) {
        let i = choose|i: int|
            0 <= i && i + t.len() <= s.len() && #[trigger] s.subrange(i, i + t.len()) == t;
        assert(s =~= s.take(i) + t + s.skip(i + t.len()));
    }
}

proof fn lemma_assign_len<W>(scopes: Seq<Map<Seq<char>, W>>, name: Seq<char>, value: W)
    ensures
        assign(scopes, name, value).len() == scopes.len(),
{
    lemma_holder_bounds(scopes, name);
}

proof fn lemma_bind_params_len(
    scopes: Seq<Map<Seq<char>, Data>>,
    names: Seq<Seq<char>>,
    vals: Seq<Data>,
)
    ensures
        bind_params(scopes, names, vals).len() == scopes.len(),
    decreases names.len(),
{
    if names.len() > 0 && vals.len() > 0 {
        lemma_bind_params_len(scopes, names.drop_last(), vals.drop_last());
    }
}

proof fn lemma_inject_len(scopes: Seq<Map<Seq<char>, Data>>, methods: Seq<(Seq<char>, Data)>)
    ensures
        inject_methods(scopes, methods).len() == scopes.len(),
    decreases methods.len(),
{
    if methods.len() > 0 {
        lemma_inject_len(scopes, methods.drop_last());
    }
}

proof fn lemma_eval(o: spec_fn(Query) -> Answer, fuel: nat, st: State, e: Expr)
    requires
        st.scopes.len() >= 1,
    ensures
        keeps(st, eval(o, fuel, st, e).0, eval(o, fuel, st, e).1 is Ok),
    decreases fuel, 0nat, 0nat,
{
    if fuel > 0 {
        let g = (fuel - 1) as nat;
        match e {
            Expr::BinaryOp { left, op, right } => lemma_eval_binary(o, g, st, *left, op, *right),
            Expr::UnaryOp { op, operand } => lemma_eval(o, g, st, *operand),
            Expr::FunctionCall { callee, args } => lemma_eval_call(o, g, st, *callee, args@),
            Expr::Index { object, index } => {
                lemma_eval(o, g, st, *object);
                let (s1, r1) = eval(o, g, st, *object);
                if r1 is Ok {
                    lemma_eval(o, g, s1, *index);
                }
            },
            Expr::MemberAccess { object, member } => lemma_eval(o, g, st, *object),
            Expr::ListLiteral { elements } => lemma_eval_list(o, g, st, elements@, 0, Seq::empty()),
            Expr::DictLiteral { entries } => lemma_eval_dict(o, g, st, entries@, 0, Seq::empty()),
            Expr::StringInterpolation { parts } => lemma_eval_parts(
                o,
                g,
                st,
                parts@,
                0,
                Seq::empty(),
            ),
            Expr::MethodCall { object, method, args } => lemma_eval_method_call(
                o,
                g,
                st,
                *object,
                method@,
                args@,
            ),
            Expr::New { class_name, args } => lemma_eval_new(o, g, st, class_name@, args@),
            _ => {},
        }
    }
}

proof fn lemma_eval_binary(
    o: spec_fn(Query) -> Answer,
    fuel: nat,
    st: State,
    left: Expr,
    op: BinaryOperator,
    right: Expr,
)
    requires
        st.scopes.len() >= 1,
    ensures
        keeps(
            st,
            eval_binary(o, fuel, st, left, op, right).0,
            eval_binary(o, fuel, st, left, op, right).1 is Ok,
        ),
    decreases fuel, 4nat, 0nat,
{
    lemma_eval(o, fuel, st, left);
    let (s1, r1) = eval(o, fuel, st, left);
    if r1 is Ok {
        lemma_eval(o, fuel, s1, right);
    }
}

proof fn lemma_eval_call(
    o: spec_fn(Query) -> Answer,
    fuel: nat,
    st: State,
    callee: Expr,
    args: Seq<Expr>,
)
    requires
        st.scopes.len() >= 1,
    ensures
        keeps(st, eval_call(o, fuel, st, callee, args).0, eval_call(o, fuel, st, callee, args).1 is Ok),
    decreases fuel, 4nat, 0nat,
{
    if callee matches Expr::Identifier { name } && name@ == "range"@ {
        lemma_eval_list(o, fuel, st, args, 0, Seq::empty());
    } else {
        lemma_eval(o, fuel, st, callee);
        let (s1, r1) = eval(o, fuel, st, callee);
        if r1 is Ok {
            lemma_eval_list(o, fuel, s1, args, 0, Seq::empty());
            let (s2, r2) = eval_list(o, fuel, s1, args, 0, Seq::empty());
            if r2 is Ok {
                lemma_call_function(o, fuel, s2, r1->Ok_0, r2->Ok_0);
            }
        }
    }
}

proof fn lemma_eval_method_call(
    o: spec_fn(Query) -> Answer,
    fuel: nat,
    st: State,
    object: Expr,
    method: Seq<char>,
    args: Seq<Expr>,
)
    requires
        st.scopes.len() >= 1,
    ensures
        keeps(
            st,
            eval_method_call(o, fuel, st, object, method, args).0,
            eval_method_call(o, fuel, st, object, method, args).1 is Ok,
        ),
    decreases fuel, 4nat, 0nat,
{
    lemma_eval(o, fuel, st, object);
    let (s1, r1) = eval(o, fuel, st, object);
    if r1 is Ok {
        lemma_eval_list(o, fuel, s1, args, 0, Seq::empty());
        let (s2, r2) = eval_list(o, fuel, s1, args, 0, Seq::empty());
        if r2 is Ok {
            lemma_call_method(o, fuel, s2, r1->Ok_0, method, r2->Ok_0);
        }
    }
}

proof fn lemma_eval_new(
    o: spec_fn(Query) -> Answer,
    fuel: nat,
    st: State,
    class_name: Seq<char>,
    args: Seq<Expr>,
)
    requires
        st.scopes.len() >= 1,
    ensures
        keeps(st, eval_new(o, fuel, st, class_name, args).0, eval_new(o, fuel, st, class_name, args).1 is Ok),
    decreases fuel, 4nat, 0nat,
{
    match lookup(st.scopes, class_name) {
        Some(Data::Class { name, methods }) => {
            let inst = Data::Instance { class_name: name, fields: Seq::empty() };
            match dict_get(methods, "__init__"@) {
                Some(init) => {
                    lemma_eval_list(o, fuel, st, args, 0, seq![inst]);
                    let (s1, r) = eval_list(o, fuel, st, args, 0, seq![inst]);
                    if r is Ok {
                        lemma_call_with_self(o, fuel, s1, init, methods, r->Ok_0);
                    }
                },
                None => {},
            }
        },
        _ => {},
    }
}

proof fn lemma_eval_list(
    o: spec_fn(Query) -> Answer,
    fuel: nat,
    st: State,
    es: Seq<Expr>,
    i: int,
    acc: Seq<Data>,
)
    requires
        st.scopes.len() >= 1,
    ensures
        keeps(st, eval_list(o, fuel, st, es, i, acc).0, eval_list(o, fuel, st, es, i, acc).1 is Ok),
    decreases fuel, 1nat, es.len() - i,
{
    if 0 <= i < es.len() {
        lemma_eval(o, fuel, st, es[i]);
        let (s1, r) = eval(o, fuel, st, es[i]);
        if r is Ok {
            lemma_eval_list(o, fuel, s1, es, i + 1, acc.push(r->Ok_0));
        }
    }
}

proof fn lemma_eval_dict(
    o: spec_fn(Query) -> Answer,
    fuel: nat,
    st: State,
    es: Seq<(Expr, Expr)>,
    i: int,
    acc: Seq<(Seq<char>, Data)>,
)
    requires
        st.scopes.len() >= 1,
    ensures
        keeps(st, eval_dict(o, fuel, st, es, i, acc).0, eval_dict(o, fuel, st, es, i, acc).1 is Ok),
    decreases fuel, 1nat, es.len() - i,
{
    if 0 <= i < es.len() {
        lemma_eval(o, fuel, st, es[i].0);
        let (s1, r1) = eval(o, fuel, st, es[i].0);
        if r1 is Ok {
            lemma_eval(o, fuel, s1, es[i].1);
            let (s2, r2) = eval(o, fuel, s1, es[i].1);
            if r2 is Ok {
                let next = crate::methods::dict_insert(
                    acc,
                    crate::semantics::key_text(o, r1->Ok_0),
                    r2->Ok_0,
                );
                lemma_eval_dict(o, fuel, s2, es, i + 1, next);
            }
        }
    }
}

proof fn lemma_eval_parts(
    o: spec_fn(Query) -> Answer,
    fuel: nat,
    st: State,
    parts: Seq<StringPart>,
    i: int,
    acc: Seq<char>,
)
    requires
        st.scopes.len() >= 1,
    ensures
        keeps(st, eval_parts(o, fuel, st, parts, i, acc).0, eval_parts(o, fuel, st, parts, i, acc).1 is Ok),
    decreases fuel, 1nat, parts.len() - i,
{
    if 0 <= i < parts.len() {
        match parts[i] {
            StringPart::Literal(s) => lemma_eval_parts(o, fuel, st, parts, i + 1, acc + s@),
            StringPart::Expression(e) => {
                lemma_eval(o, fuel, st, e);
                let (s1, r) = eval(o, fuel, st, e);
                if r is Ok {
                    lemma_eval_parts(
                        o,
                        fuel,
                        s1,
                        parts,
                        i + 1,
                        acc + crate::display::show(o, r->Ok_0),
                    );
                }
            },
        }
    }
}

proof fn lemma_call_function(
    o: spec_fn(Query) -> Answer,
    fuel: nat,
    st: State,
    f: Data,
    args: Seq<Data>,
)
    requires
        st.scopes.len() >= 1,
    ensures
        keeps(st, call_function(o, fuel, st, f, args).0, call_function(o, fuel, st, f, args).1 is Ok),
    decreases fuel, 2nat, 0nat,
{
    match f {
        Data::Function { name, params, body, depth } => {
            if args.len() == params.len() {
                lemma_bind_params_len(call_scopes(st.scopes, depth), params, args);
                let s1 = with_scopes(st, bind_params(call_scopes(st.scopes, depth), params, args));
                lemma_run_body(o, fuel, s1, body, 0);
                let (e, r) = run_body(o, fuel, s1, body, 0);
                if r is Ok {
                    assert(return_scopes(st.scopes, e.scopes, depth).len() == st.scopes.len());
                }
            }
        },
        _ => {},
    }
}

proof fn lemma_call_with_self(
    o: spec_fn(Query) -> Answer,
    fuel: nat,
    st: State,
    f: Data,
    methods: Seq<(Seq<char>, Data)>,
    args: Seq<Data>,
)
    requires
        st.scopes.len() >= 1,
    ensures
        keeps(
            st,
            call_with_self(o, fuel, st, f, methods, args).0,
            call_with_self(o, fuel, st, f, methods, args).1 is Ok,
        ),
    decreases fuel, 2nat, 0nat,
{
    match f {
        Data::Function { name, params, body, depth } => {
            if args.len() == params.len() {
                lemma_bind_params_len(call_scopes(st.scopes, depth), params, args);
                lemma_inject_len(bind_params(call_scopes(st.scopes, depth), params, args), methods);
                let s1 = with_scopes(
                    st,
                    inject_methods(bind_params(call_scopes(st.scopes, depth), params, args), methods),
                );
                lemma_run_body(o, fuel, s1, body, 0);
                let (e, r) = run_body(o, fuel, s1, body, 0);
                if r is Ok {
                    assert(return_scopes(st.scopes, e.scopes, depth).len() == st.scopes.len());
                }
            }
        },
        _ => {},
    }
}

proof fn lemma_call_method(
    o: spec_fn(Query) -> Answer,
    fuel: nat,
    st: State,
    obj: Data,
    method: Seq<char>,
    args: Seq<Data>,
)
    requires
        st.scopes.len() >= 1,
    ensures
        keeps(
            st,
            call_method(o, fuel, st, obj, method, args).0,
            call_method(o, fuel, st, obj, method, args).1 is Ok,
        ),
    decreases fuel, 3nat, 0nat,
{
    match obj {
        Data::Instance { class_name, fields } => match lookup(st.scopes, class_name) {
            Some(Data::Class { name, methods }) => match dict_get(methods, method) {
                Some(mf) => lemma_call_with_self(
                    o,
                    fuel,
                    st,
                    mf,
                    methods,
                    seq![Data::Instance { class_name: name, fields }] + args,
                ),
                None => {},
            },
            _ => {},
        },
        _ => {},
    }
}

proof fn lemma_run_body(
    o: spec_fn(Query) -> Answer,
    fuel: nat,
    st: State,
    body: Seq<Statement>,
    i: int,
)
    requires
        st.scopes.len() >= 1,
    ensures
        keeps(st, run_body(o, fuel, st, body, i).0, run_body(o, fuel, st, body, i).1 is Ok),
    decreases fuel, 1nat, body.len() - i,
{
    if 0 <= i < body.len() {
        lemma_exec_stmt(o, fuel, st, body[i]);
        let (s1, r) = exec_stmt(o, fuel, st, body[i]);
        if r is Ok {
            lemma_run_body(o, fuel, s1, body, i + 1);
        }
    }
}

proof fn lemma_run_block(
    o: spec_fn(Query) -> Answer,
    fuel: nat,
    st: State,
    body: Seq<Statement>,
    i: int,
)
    requires
        st.scopes.len() >= 1,
    ensures
        keeps(st, run_block(o, fuel, st, body, i).0, run_block(o, fuel, st, body, i).1 is Ok),
    decreases fuel, 1nat, body.len() - i,
{
    if 0 <= i < body.len() {
        lemma_exec_stmt(o, fuel, st, body[i]);
        let (s1, r) = exec_stmt(o, fuel, st, body[i]);
        if r is Ok {
            lemma_run_block(o, fuel, s1, body, i + 1);
        }
    }
}

proof fn lemma_while_loop(
    o: spec_fn(Query) -> Answer,
    fuel: nat,
    st: State,
    cond: Expr,
    body: Seq<Statement>,
)
    requires
        st.scopes.len() >= 1,
    ensures
        keeps(st, while_loop(o, fuel, st, cond, body).0, while_loop(o, fuel, st, cond, body).1 is Ok),
    decreases fuel, 0nat, 0nat,
{
    if fuel > 0 {
        let h = (fuel - 1) as nat;
        lemma_eval(o, h, st, cond);
        let (s1, c) = eval(o, h, st, cond);
        if c is Ok && truthy(c->Ok_0) {
            lemma_run_block(o, h, s1, body, 0);
            let (s2, r) = run_block(o, h, s1, body, 0);
            if r is Ok {
                lemma_while_loop(o, h, s2, cond, body);
            }
        }
    }
}

proof fn lemma_for_loop(
    o: spec_fn(Query) -> Answer,
    fuel: nat,
    st: State,
    var: Seq<char>,
    items: Seq<Data>,
    k: int,
    body: Seq<Statement>,
)
    requires
        st.scopes.len() >= 1,
    ensures
        keeps(
            st,
            for_loop(o, fuel, st, var, items, k, body).0,
            for_loop(o, fuel, st, var, items, k, body).1 is Ok,
        ),
    decreases fuel, 2nat, items.len() - k,
{
    if 0 <= k < items.len() {
        lemma_assign_len(st.scopes, var, items[k]);
        let s1 = with_scopes(st, assign(st.scopes, var, items[k]));
        lemma_run_block(o, fuel, s1, body, 0);
        let (s2, r) = run_block(o, fuel, s1, body, 0);
        if r is Ok {
            lemma_for_loop(o, fuel, s2, var, items, k + 1, body);
        }
    }
}

proof fn lemma_exec_stmt(o: spec_fn(Query) -> Answer, fuel: nat, st: State, s: Statement)
    requires
        st.scopes.len() >= 1,
    ensures
        keeps(st, exec_stmt(o, fuel, st, s).0, exec_stmt(o, fuel, st, s).1 is Ok),
    decreases fuel, 0nat, 0nat,
{
    if fuel > 0 {
        let g = (fuel - 1) as nat;
        match s {
            Statement::Assignment { name, value } => {
                lemma_eval(o, g, st, value);
                let (s1, r) = eval(o, g, st, value);
                if r is Ok {
                    lemma_assign_len(s1.scopes, name@, r->Ok_0);
                }
            },
            Statement::If { condition, then_body, else_body } => lemma_exec_if(
                o,
                g,
                st,
                condition,
                then_body@,
                else_body,
            ),
            Statement::While { condition, body } => lemma_while_loop(o, g, st, condition, body@),
            Statement::For { variable, iterable, body } => lemma_exec_for(
                o,
                g,
                st,
                variable@,
                iterable,
                body@,
            ),
            Statement::Return { value } => match value {
                Some(e) => lemma_eval(o, g, st, e),
                None => {},
            },
            Statement::Print { value } => lemma_eval(o, g, st, value),
            Statement::ExprStatement { expr } => lemma_eval(o, g, st, expr),
            Statement::Throw { value } => lemma_eval(o, g, st, value),
            Statement::TryCatch { try_body, catch_var, catch_body } => lemma_exec_try(
                o,
                g,
                st,
                try_body@,
                catch_var@,
                catch_body@,
            ),
            Statement::CompoundAssignment { name, op, value } => lemma_exec_compound(
                o,
                g,
                st,
                name@,
                op,
                value,
            ),
            _ => {},
        }
    }
}

proof fn lemma_exec_if(
    o: spec_fn(Query) -> Answer,
    fuel: nat,
    st: State,
    cond: Expr,
    then_body: Seq<Statement>,
    else_body: Option<Vec<Statement>>,
)
    requires
        st.scopes.len() >= 1,
    ensures
        keeps(
            st,
            exec_if(o, fuel, st, cond, then_body, else_body).0,
            exec_if(o, fuel, st, cond, then_body, else_body).1 is Ok,
        ),
    decreases fuel, 4nat, 0nat,
{
    lemma_eval(o, fuel, st, cond);
    let (s1, c) = eval(o, fuel, st, cond);
    if c is Ok {
        if truthy(c->Ok_0) {
            lemma_run_block(o, fuel, s1, then_body, 0);
        } else {
            match else_body {
                Some(b) => lemma_run_block(o, fuel, s1, b@, 0),
                None => {},
            }
        }
    }
}

proof fn lemma_exec_for(
    o: spec_fn(Query) -> Answer,
    fuel: nat,
    st: State,
    var: Seq<char>,
    iterable: Expr,
    body: Seq<Statement>,
)
    requires
        st.scopes.len() >= 1,
    ensures
        keeps(
            st,
            exec_for(o, fuel, st, var, iterable, body).0,
            exec_for(o, fuel, st, var, iterable, body).1 is Ok,
        ),
    decreases fuel, 4nat, 0nat,
{
    lemma_eval(o, fuel, st, iterable);
    let (s1, r) = eval(o, fuel, st, iterable);
    match r {
        Ok(Data::List(items)) => lemma_for_loop(o, fuel, s1, var, items, 0, body),
        _ => {},
    }
}

proof fn lemma_exec_try(
    o: spec_fn(Query) -> Answer,
    fuel: nat,
    st: State,
    try_body: Seq<Statement>,
    catch_var: Seq<char>,
    catch_body: Seq<Statement>,
)
    requires
        st.scopes.len() >= 1,
    ensures
        keeps(
            st,
            exec_try(o, fuel, st, try_body, catch_var, catch_body).0,
            exec_try(o, fuel, st, try_body, catch_var, catch_body).1 is Ok,
        ),
    decreases fuel, 4nat, 0nat,
{
    lemma_run_block(o, fuel, st, try_body, 0);
    let (s1, r) = run_block(o, fuel, st, try_body, 0);
    if let Ok(crate::semantics::Flow::Throw(v)) = r {
        let sc = enter(s1.scopes);
        let s2 = with_scopes(
            s1,
            if catch_var.len() == 0 {
                sc
            } else {
                bind(sc, catch_var, v)
            },
        );
        lemma_run_block(o, fuel, s2, catch_body, 0);
    }
}

proof fn lemma_exec_compound(
    o: spec_fn(Query) -> Answer,
    fuel: nat,
    st: State,
    name: Seq<char>,
    op: CompoundOp,
    value: Expr,
)
    requires
        st.scopes.len() >= 1,
    ensures
        keeps(
            st,
            exec_compound(o, fuel, st, name, op, value).0,
            exec_compound(o, fuel, st, name, op, value).1 is Ok,
        ),
    decreases fuel, 4nat, 0nat,
{
    if lookup(st.scopes, name) is Some {
        lemma_eval(o, fuel, st, value);
        let (s1, r) = eval(o, fuel, st, value);
        if r is Ok {
            let cur = lookup(st.scopes, name)->Some_0;
            let res = crate::semantics::compound_result(o, cur, op, r->Ok_0);
            if res is Ok {
                lemma_assign_len(s1.scopes, name, res->Ok_0);
            }
        }
    }
}

/// The map that binding built-ins in order into an empty scope gives.
pub open spec fn builtin_map(bs: Seq<Builtin>) -> Map<Seq<char>, Data>
    decreases bs.len(),
{
    if bs.len() == 0 {
        Map::empty()
    } else {
        builtin_map(bs.drop_last()).insert(builtin_name(bs.last()), native_value(bs.last()))
    }
}

/// A new interpreter has a single scope, in which the name of each built-in
/// reads as that built-in; it has read no input and printed nothing.
pub proof fn law_new_interpreter_binds_builtins(buffered: bool, b: Builtin)
    ensures
        initial_state(buffered).scopes.len() == 1,
        lookup(initial_state(buffered).scopes, builtin_name(b)) == Some(native_value(b)),
        initial_state(buffered).reads == 0,
        initial_state(buffered).out.len() == 0,
        initial_state(buffered).sent.len() == 0,
        initial_state(buffered).buffered == buffered,
{
    let bs = builtin_list();
    lemma_bind_builtins(bs);
    lemma_listed(b);
    lemma_builtin_map(bs, b);
    let sc = initial_state(buffered).scopes;
    let m = builtin_map(bs);
    assert(sc == seq![m]);
    assert(sc.last() == m);
    assert(holder(sc, builtin_name(b)) == 0);
}

proof fn lemma_bind_builtins(bs: Seq<Builtin>)
    ensures
        bind_builtins(seq![Map::empty()], bs) == seq![builtin_map(bs)],
    decreases bs.len(),
{
    if bs.len() > 0 {
        lemma_bind_builtins(bs.drop_last());
        assert(bind_builtins(seq![Map::empty()], bs) =~= seq![builtin_map(bs)]);
    }
}

proof fn lemma_listed(b: Builtin)
    ensures
        builtin_list().contains(b),
{
    let l = builtin_list();
    let i: int = match b {
        Builtin::Len => 0,
        Builtin::Type => 1,
        Builtin::Str => 2,
        Builtin::Num => 3,
        Builtin::Push => 4,
        Builtin::Range => 5,
        Builtin::Int => 6,
        Builtin::Float => 7,
        Builtin::Input => 8,
        Builtin::Abs => 9,
        Builtin::Sqrt => 10,
        Builtin::Floor => 11,
        Builtin::Ceil => 12,
        Builtin::Round => 13,
        Builtin::Min => 14,
        Builtin::Max => 15,
        Builtin::Pow => 16,
    };
    assert(l[i] == b);
}

proof fn lemma_names_distinct(b1: Builtin, b2: Builtin)
    requires
        builtin_name(b1) == builtin_name(b2),
    ensures
        b1 == b2,
{
    reveal_strlit("len");
    reveal_strlit("type");
    reveal_strlit("str");
    reveal_strlit("num");
    reveal_strlit("push");
    reveal_strlit("range");
    reveal_strlit("int");
    reveal_strlit("float");
    reveal_strlit("input");
    reveal_strlit("abs");
    reveal_strlit("sqrt");
    reveal_strlit("floor");
    reveal_strlit("ceil");
    reveal_strlit("round");
    reveal_strlit("min");
    reveal_strlit("max");
    reveal_strlit("pow");
    let n1 = builtin_name(b1);
    let n2 = builtin_name(b2);
    assert(n1.len() == n2.len());
    if n1.len() > 0 {
        assert(n1[0] == n2[0]);
    }
    if n1.len() > 1 {
        assert(n1[1] == n2[1]);
    }
    if n1.len() > 3 {
        assert(n1[3] == n2[3]);
    }
}

proof fn lemma_builtin_map(bs: Seq<Builtin>, b: Builtin)
    requires
        bs.contains(b),
    ensures
        builtin_map(bs).contains_key(builtin_name(b)),
        builtin_map(bs)[builtin_name(b)] == native_value(b),
    decreases bs.len(),
{
    let last = bs.last();
    if last == b {
    } else {
        let i = choose|i: int| 0 <= i < bs.len() && bs[i] == b;
        assert(bs.drop_last()[i] == b);
        lemma_builtin_map(bs.drop_last(), b);
        if builtin_name(last) == builtin_name(b) {
            lemma_names_distinct(last, b);
        }
    }
}

/// No key occurs twice among dictionary entries.
pub open spec fn keys_unique<V>(entries: Seq<(Seq<char>, V)>) -> bool {
    forall|i: int, j: int|
        0 <= i < j < entries.len() ==> #[trigger] entries[i].0 != #[trigger] entries[j].0
}

/// Reading a key just stored in a dictionary gives the value stored; every
/// other key reads as before; and no key ever occurs twice.
pub proof fn law_dict_read_after_insert<V>(
    entries: Seq<(Seq<char>, V)>,
    k: Seq<char>,
    v: V,
    other: Seq<char>,
)
    requires
        other != k,
    ensures
        dict_get(dict_insert(entries, k, v), k) == Some(v),
        dict_get(dict_insert(entries, k, v), other) == dict_get(entries, other),
        keys_unique(entries) ==> keys_unique(dict_insert(entries, k, v)),
{
    lemma_key_index(entries, k);
    lemma_key_index(entries, other);
    let d = dict_insert(entries, k, v);
    let i = key_index(entries, k);
    lemma_key_index(d, k);
    lemma_key_index(d, other);
    if i >= 0 {
        assert forall|j: int| 0 <= j < i implies #[trigger] d[j].0 != k by {
            assert(d[j] == entries[j]);
        }
        lemma_key_index_is(d, k, i);
        let io = key_index(entries, other);
        if io >= 0 {
            assert(d[io] == entries[io]);
            assert forall|j: int| 0 <= j < io implies #[trigger] d[j].0 != other by {
                if j != i {
                    assert(d[j] == entries[j]);
                }
            }
            lemma_key_index_is(d, other, io);
        } else {
            assert forall|j: int| 0 <= j < d.len() implies #[trigger] d[j].0 != other by {
                if j != i {
                    assert(d[j] == entries[j]);
                }
            }
        }
    } else {
        assert forall|j: int| 0 <= j < entries.len() implies #[trigger] d[j].0 != k by {
            assert(d[j] == entries[j]);
        }
        lemma_key_index_is(d, k, entries.len() as int);
        let io = key_index(entries, other);
        if io >= 0 {
            assert(d[io] == entries[io]);
            assert forall|j: int| 0 <= j < io implies #[trigger] d[j].0 != other by {
                assert(d[j] == entries[j]);
            }
            lemma_key_index_is(d, other, io);
        } else {
            assert forall|j: int| 0 <= j < d.len() implies #[trigger] d[j].0 != other by {
                if j < entries.len() {
                    assert(d[j] == entries[j]);
                }
            }
        }
    }
    if keys_unique(entries) {
        assert forall|a: int, b: int| 0 <= a < b < d.len() implies #[trigger] d[a].0
            != #[trigger] d[b].0 by {
            if i >= 0 {
                if a == i {
                    assert(d[b] == entries[b]);
                    assert(entries[b].0 != entries[i].0);
                } else if b == i {
                    assert(d[a] == entries[a]);
                    assert(entries[a].0 != entries[i].0);
                } else {
                    assert(d[a] == entries[a]);
                    assert(d[b] == entries[b]);
                }
            } else {
                assert(d[a] == entries[a]);
                if b < entries.len() {
                    assert(d[b] == entries[b]);
                }
            }
        }
    }
}

/// Sorting a list keeps its elements, each as often as before.
pub proof fn law_sort_permutes(o: spec_fn(Query) -> Answer, items: Seq<Data>)
    ensures
        sorted_list(o, items).to_multiset() == items.to_multiset(),
        sorted_list(o, items).len() == items.len(),
    decreases items.len(),
{
    broadcast use vstd::seq_lib::group_to_multiset_ensures;

    if items.len() > 0 {
        law_sort_permutes(o, items.drop_last());
        let s = sorted_list(o, items.drop_last());
        lemma_insert_position(o, s, items.last());
        let p = insert_position(o, s, items.last()) as int;
        vstd::seq_lib::to_multiset_insert(s, p, items.last());
        vstd::seq_lib::to_multiset_build(items.drop_last(), items.last());
        assert(items.drop_last().push(items.last()) =~= items);
    }
}

/// The order `sort` uses is consistent on some values: a value greater than
/// another is not also smaller or equal to it, and "not greater" is
/// transitive. Strings always compare so; numbers do when the host's
/// comparisons are those of ordered numbers (no NaN).
pub open spec fn order_consistent(o: spec_fn(Query) -> Answer, items: Seq<Data>) -> bool {
    &&& forall|a: Data, b: Data|
        items.contains(a) && items.contains(b) && #[trigger] sort_order(o, b, a) == 1
            ==> #[trigger] sort_order(o, a, b) != 1
    &&& forall|a: Data, b: Data, c: Data|
        items.contains(a) && items.contains(b) && items.contains(c) && #[trigger] sort_order(o, a, b)
            != 1 && #[trigger] sort_order(o, b, c) != 1 ==> #[trigger] sort_order(o, a, c) != 1
}

/// No element of a list is greater than one after it.
pub open spec fn ascending(o: spec_fn(Query) -> Answer, s: Seq<Data>) -> bool {
    forall|i: int, j: int| 0 <= i < j < s.len() ==> #[trigger] sort_order(o, s[i], s[j]) != 1
}

/// Sorting a list whose elements the order compares consistently gives an
/// ascending list: no element is greater than one after it.
pub proof fn law_sort_ascending(o: spec_fn(Query) -> Answer, items: Seq<Data>)
    requires
        order_consistent(o, items),
    ensures
        ascending(o, sorted_list(o, items)),
    decreases items.len(),
{
    if items.len() > 0 {
        let rest = items.drop_last();
        let x = items.last();
        assert forall|a: Data| rest.contains(a) implies items.contains(a) by {
            let k = choose|k: int| 0 <= k < rest.len() && rest[k] == a;
            assert(items[k] == a);
        }
        assert(items.contains(x)) by {
            assert(items[items.len() - 1] == x);
        }
        law_sort_ascending(o, rest);
        let s = sorted_list(o, rest);
        law_sort_permutes(o, rest);
        lemma_sorted_elements(o, rest);
        lemma_insert_position_split(o, s, x);
        let p = insert_position(o, s, x) as int;
        let r = s.insert(p, x);
        assert forall|i: int, j: int| 0 <= i < j < r.len() implies #[trigger] sort_order(
            o,
            r[i],
            r[j],
        ) != 1 by {
            if i < p && j < p {
                assert(r[i] == s[i] && r[j] == s[j]);
            } else if i > p {
                assert(r[i] == s[i - 1] && r[j] == s[j - 1]);
            } else if i < p && j > p {
                assert(r[i] == s[i] && r[j] == s[j - 1]);
            } else if i == p {
                assert(r[i] == x && r[j] == s[j - 1]);
                assert(sort_order(o, s[j - 1], x) == 1);
                assert(s.contains(s[j - 1]));
            } else {
                assert(j == p && r[j] == x && r[i] == s[i]);
                assert(sort_order(o, s[p - 1], x) != 1);
                assert(s.contains(s[i]) && s.contains(s[p - 1]));
                if i < p - 1 {
                    assert(sort_order(o, s[i], s[p - 1]) != 1);
                }
            }
        }
    }
}

proof fn lemma_sorted_elements(o: spec_fn(Query) -> Answer, items: Seq<Data>)
    ensures
        forall|a: Data| #[trigger] sorted_list(o, items).contains(a) ==> items.contains(a),
    decreases items.len(),
{
    if items.len() > 0 {
        lemma_sorted_elements(o, items.drop_last());
        let s = sorted_list(o, items.drop_last());
        lemma_insert_position(o, s, items.last());
        let p = insert_position(o, s, items.last()) as int;
        let r = s.insert(p, items.last());
        assert forall|a: Data| r.contains(a) implies items.contains(a) by {
            let k = choose|k: int| 0 <= k < r.len() && r[k] == a;
            if k == p {
                assert(items[items.len() - 1] == a);
            } else {
                let m = if k < p { k } else { k - 1 };
                assert(0 <= m < s.len());
                assert(s[m] == a);
                assert(s.contains(a));
                assert(items.drop_last().contains(a));
                let q = choose|q: int| 0 <= q < items.drop_last().len() && items.drop_last()[q] == a;
                assert(items[q] == a);
            }
        }
    }
}

proof fn lemma_insert_position_split(o: spec_fn(Query) -> Answer, s: Seq<Data>, x: Data)
    ensures
        insert_position(o, s, x) <= s.len(),
        forall|j: int|
            insert_position(o, s, x) <= j < s.len() ==> #[trigger] sort_order(o, s[j], x) == 1,
        insert_position(o, s, x) > 0 ==> sort_order(o, s[insert_position(o, s, x) - 1], x) != 1,
    decreases s.len(),
{
    if s.len() > 0 {
        lemma_insert_position_split(o, s.drop_last(), x);
        if sort_order(o, s.last(), x) == 1 {
            let p = insert_position(o, s.drop_last(), x);
            assert forall|j: int| p <= j < s.len() implies #[trigger] sort_order(o, s[j], x) == 1 by {
                if j < s.len() - 1 {
                    assert(s.drop_last()[j] == s[j]);
                }
            }
            if p > 0 {
                assert(s.drop_last()[p - 1] == s[p - 1]);
            }
        }
    }
}

proof fn lemma_insert_position(o: spec_fn(Query) -> Answer, sorted: Seq<Data>, x: Data)
    ensures
        insert_position(o, sorted, x) <= sorted.len(),
    decreases sorted.len(),
{
    if sorted.len() > 0 {
        lemma_insert_position(o, sorted.drop_last(), x);
    }
}

} // verus!
