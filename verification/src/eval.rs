use crate::ast::{spec_print, Node, NodeV};
use crate::object::{
    obj_eq, sp_env_enclose, sp_env_get, sp_env_set, spec_obj_name, Environment, FrameV, ObjV,
    Object,
};
use crate::tokens::str_eq;
use vstd::prelude::*;

verus! {

/// The starting evaluation budget: enough that no terminating program
/// in practice runs out, while keeping every evaluation finite.
pub const EVAL_FUEL: u64 = 18446744073709551615;

/// The result of one evaluation step: the object produced and the
/// environment after it.
pub struct EvalOut {
    pub obj: ObjV,
    pub env: Seq<FrameV>,
}

/// The result of evaluating an argument list: the values, or the
/// first error, and the environment after them.
pub struct ArgsOut {
    pub r: Result<Seq<ObjV>, ObjV>,
    pub env: Seq<FrameV>,
}

/// The models of a vector of objects.
pub open spec fn objs_view(s: Seq<Object>) -> Seq<ObjV> {
    s.map_values(|o: Object| o.deep_view())
}

/// The error produced when the evaluation budget runs out.
pub open spec fn sp_fuel_error() -> ObjV {
    ObjV::Error { value: "recursion limit reached"@ }
}

/// Whether an object is the error signal.
pub open spec fn sp_is_error(o: ObjV) -> bool {
    o is Error
}

/// The truthiness of a condition: null and false are the only falsy
/// values.
pub open spec fn sp_truthy(o: ObjV) -> bool {
    match o {
        ObjV::Null => false,
        ObjV::Boolean { value } => value,
        _ => true,
    }
}

/// Unwraps the return signal to the value it carries.
pub open spec fn sp_unwrap_return(o: ObjV) -> ObjV {
    match o {
        ObjV::ReturnValue { value } => *value,
        _ => o,
    }
}

/// Arithmetic negation of a 64-bit value, wrapping at the lower bound.
pub open spec fn sp_neg64(v: i64) -> i64 {
    if v == i64::MIN {
        i64::MIN
    } else {
        (-(v as int)) as i64
    }
}

/// Logical negation by the truthiness table.
pub open spec fn sp_bang(o: ObjV) -> ObjV {
    match o {
        ObjV::Boolean { value } => ObjV::Boolean { value: !value },
        ObjV::Null => ObjV::Boolean { value: true },
        _ => ObjV::Boolean { value: false },
    }
}

/// Arithmetic negation: legal only on integers.
pub open spec fn sp_minus(o: ObjV) -> ObjV {
    match o {
        ObjV::Integer { value } => ObjV::Integer { value: sp_neg64(value) },
        _ => ObjV::Error { value: "unknown operator: -"@ + spec_obj_name(o) },
    }
}

/// A prefix operator applied to an evaluated operand.
pub open spec fn sp_prefix(op: Seq<char>, right: ObjV) -> ObjV {
    if op == "!"@ {
        sp_bang(right)
    } else if op == "-"@ {
        sp_minus(right)
    } else {
        ObjV::Error { value: "unknown operator: "@ + op + spec_obj_name(right) }
    }
}

/// An infix operator applied to two integer operands: arithmetic wraps,
/// division truncates and rejects a zero divisor.
pub open spec fn sp_int_infix(op: Seq<char>, a: i64, b: i64) -> ObjV {
    if op == "+"@ {
        ObjV::Integer { value: a.wrapping_add(b) }
    } else if op == "-"@ {
        ObjV::Integer { value: a.wrapping_sub(b) }
    } else if op == "*"@ {
        ObjV::Integer { value: a.wrapping_mul(b) }
    } else if op == "/"@ {
        if b == 0 {
            ObjV::Error { value: "division by zero"@ }
        } else {
            match a.checked_div(b) {
                Some(v) => ObjV::Integer { value: v },
                None => ObjV::Integer { value: i64::MIN },
            }
        }
    } else if op == "<"@ {
        ObjV::Boolean { value: a < b }
    } else if op == ">"@ {
        ObjV::Boolean { value: a > b }
    } else if op == "=="@ {
        ObjV::Boolean { value: a == b }
    } else if op == "!="@ {
        ObjV::Boolean { value: a != b }
    } else {
        ObjV::Error { value: "unknown operator: INTEGER "@ + op + " INTEGER"@ }
    }
}

/// An infix operator applied to two evaluated operands: integers get
/// integer rules, `==` and `!=` fall back to structural equality, and
/// anything else is a type mismatch or an unknown operator.
pub open spec fn sp_infix(op: Seq<char>, left: ObjV, right: ObjV) -> ObjV {
    match (left, right) {
        (ObjV::Integer { value: a }, ObjV::Integer { value: b }) => sp_int_infix(op, a, b),
        _ => if op == "=="@ {
            ObjV::Boolean { value: left == right }
        } else if op == "!="@ {
            ObjV::Boolean { value: left != right }
        } else if spec_obj_name(left) != spec_obj_name(right) {
            ObjV::Error {
                value: "type mismatch: "@ + spec_obj_name(left) + " "@ + op + " "@
                    + spec_obj_name(right),
            }
        } else {
            ObjV::Error {
                value: "unknown operator: "@ + spec_obj_name(left) + " "@ + op + " "@
                    + spec_obj_name(right),
            }
        },
    }
}

/// Evaluation of one node against an environment and a scope, with a
/// budget that every recursive step draws down: the definitional rules
/// of the language.
pub open spec fn sp_eval(n: NodeV, env: Seq<FrameV>, scope: int, fuel: nat) -> EvalOut
    decreases fuel,
{
    if fuel == 0 {
        EvalOut { obj: sp_fuel_error(), env }
    } else {
        let f = (fuel - 1) as nat;
        match n {
            NodeV::Program { statements } => sp_eval_program(statements, env, scope, f),
            NodeV::IntegerLiteral { value } => EvalOut { obj: ObjV::Integer { value }, env },
            NodeV::Boolean { value } => EvalOut { obj: ObjV::Boolean { value }, env },
            NodeV::ExpressionStatement { expression } => match expression {
                Some(e) => sp_eval(*e, env, scope, f),
                None => EvalOut { obj: ObjV::Null, env },
            },
            NodeV::PrefixExpression { operator, right } => {
                let r = sp_eval(*right, env, scope, f);
                if sp_is_error(r.obj) {
                    r
                } else {
                    EvalOut { obj: sp_prefix(operator, r.obj), env: r.env }
                }
            },
            NodeV::InfixExpression { left, operator, right } => {
                let r = sp_eval(*right, env, scope, f);
                if sp_is_error(r.obj) {
                    r
                } else {
                    let l = sp_eval(*left, r.env, scope, f);
                    if sp_is_error(l.obj) {
                        l
                    } else {
                        EvalOut { obj: sp_infix(operator, l.obj, r.obj), env: l.env }
                    }
                }
            },
            NodeV::BlockStatement { statements } => sp_eval_block(statements, env, scope, f),
            NodeV::IfExpression { condition, consequence, alternative } => {
                let c = sp_eval(*condition, env, scope, f);
                if sp_is_error(c.obj) {
                    c
                } else if sp_truthy(c.obj) {
                    sp_eval(*consequence, c.env, scope, f)
                } else {
                    match alternative {
                        Some(a) => sp_eval(*a, c.env, scope, f),
                        None => EvalOut { obj: ObjV::Null, env: c.env },
                    }
                }
            },
            NodeV::ReturnStatement { value } => match value {
                Some(v) => {
                    let r = sp_eval(*v, env, scope, f);
                    if sp_is_error(r.obj) {
                        r
                    } else {
                        EvalOut { obj: ObjV::ReturnValue { value: Box::new(r.obj) }, env: r.env }
                    }
                },
                None => EvalOut { obj: ObjV::ReturnValue { value: Box::new(ObjV::Null) }, env },
            },
            NodeV::LetStatement { name, value } => match value {
                Some(v) => {
                    let r = sp_eval(*v, env, scope, f);
                    if sp_is_error(r.obj) {
                        r
                    } else {
                        EvalOut {
                            obj: ObjV::Null,
                            env: sp_env_set(r.env, scope, spec_print(*name), r.obj),
                        }
                    }
                },
                None => EvalOut { obj: ObjV::Null, env },
            },
            NodeV::Identifier { value } => match sp_env_get(env, scope, value.v) {
                Some(v) => EvalOut { obj: v, env },
                None => EvalOut {
                    obj: ObjV::Error { value: "identifier not found: "@ + value.v },
                    env,
                },
            },
            NodeV::FunctionLiteral { parameters, body } => EvalOut {
                obj: ObjV::Function { parameters, body, env: scope },
                env,
            },
            NodeV::CallExpression { function, arguments } => {
                let fo = sp_eval(*function, env, scope, f);
                if sp_is_error(fo.obj) {
                    fo
                } else {
                    let a = sp_eval_args(arguments, fo.env, scope, f);
                    match a.r {
                        Err(e) => EvalOut { obj: e, env: a.env },
                        Ok(vals) => sp_apply(fo.obj, vals, a.env, f),
                    }
                }
            },
        }
    }
}

/// Evaluation of a top-level statement list: stops at the first error,
/// and unwraps an early return to its carried value.
pub open spec fn sp_eval_program(stmts: Seq<NodeV>, env: Seq<FrameV>, scope: int, fuel: nat) -> EvalOut
    decreases fuel,
{
    if stmts.len() == 0 {
        EvalOut { obj: ObjV::Null, env }
    } else if fuel == 0 {
        EvalOut { obj: sp_fuel_error(), env }
    } else {
        let r = sp_eval(stmts[0], env, scope, (fuel - 1) as nat);
        match r.obj {
            ObjV::ReturnValue { value } => EvalOut { obj: *value, env: r.env },
            ObjV::Error { .. } => r,
            _ => if stmts.len() == 1 {
                r
            } else {
                sp_eval_program(stmts.drop_first(), r.env, scope, (fuel - 1) as nat)
            },
        }
    }
}

/// Evaluation of a block's statement list: stops at, and passes up
/// unopened, the first return or error signal.
pub open spec fn sp_eval_block(stmts: Seq<NodeV>, env: Seq<FrameV>, scope: int, fuel: nat) -> EvalOut
    decreases fuel,
{
    if stmts.len() == 0 {
        EvalOut { obj: ObjV::Null, env }
    } else if fuel == 0 {
        EvalOut { obj: sp_fuel_error(), env }
    } else {
        let r = sp_eval(stmts[0], env, scope, (fuel - 1) as nat);
        if r.obj is ReturnValue || r.obj is Error {
            r
        } else if stmts.len() == 1 {
            r
        } else {
            sp_eval_block(stmts.drop_first(), r.env, scope, (fuel - 1) as nat)
        }
    }
}

/// Evaluation of call arguments, left to right, stopping at the first
/// error.
pub open spec fn sp_eval_args(exprs: Seq<NodeV>, env: Seq<FrameV>, scope: int, fuel: nat) -> ArgsOut
    decreases fuel,
{
    if exprs.len() == 0 {
        ArgsOut { r: Ok(Seq::empty()), env }
    } else if fuel == 0 {
        ArgsOut { r: Err(sp_fuel_error()), env }
    } else {
        let e0 = sp_eval(exprs[0], env, scope, (fuel - 1) as nat);
        if sp_is_error(e0.obj) {
            ArgsOut { r: Err(e0.obj), env: e0.env }
        } else {
            let rest = sp_eval_args(exprs.drop_first(), e0.env, scope, (fuel - 1) as nat);
            match rest.r {
                Err(e) => ArgsOut { r: Err(e), env: rest.env },
                Ok(s) => ArgsOut { r: Ok(seq![e0.obj] + s), env: rest.env },
            }
        }
    }
}

/// Binding of parameters to arguments, positionally, in the given
/// scope; a surplus on either side is dropped.
pub open spec fn sp_bind_params(
    env: Seq<FrameV>,
    scope: int,
    params: Seq<NodeV>,
    args: Seq<ObjV>,
) -> Seq<FrameV>
    decreases params.len(),
{
    if params.len() == 0 || args.len() == 0 {
        env
    } else {
        sp_bind_params(
            sp_env_set(env, scope, spec_print(params[0]), args[0]),
            scope,
            params.drop_first(),
            args.drop_first(),
        )
    }
}

/// Application of an evaluated callee to evaluated arguments: a
/// function value runs its body in a fresh scope enclosing the scope
/// it captured, and an early return is unwrapped; anything else is an
/// error.
pub open spec fn sp_apply(fobj: ObjV, args: Seq<ObjV>, env: Seq<FrameV>, fuel: nat) -> EvalOut
    decreases fuel,
{
    match fobj {
        ObjV::Function { parameters, body, env: fenv } => {
            if fuel == 0 {
                EvalOut { obj: sp_fuel_error(), env }
            } else {
                let scope = env.len() as int;
                let env2 = sp_env_enclose(env, fenv);
                let env3 = sp_bind_params(env2, scope, parameters, args);
                let r = sp_eval(*body, env3, scope, (fuel - 1) as nat);
                EvalOut { obj: sp_unwrap_return(r.obj), env: r.env }
            }
        },
        _ => EvalOut { obj: ObjV::Error { value: "not a function: "@ + spec_obj_name(fobj) }, env },
    }
}

/// Evaluates an AST node against the environment's global scope.
pub fn eval(node: Node, environment: &mut Environment) -> (r: Object)
    ensures
        ({
            let o = sp_eval(node.deep_view(), old(environment)@, 0, EVAL_FUEL as nat);
            r.deep_view() == o.obj && final(environment)@ == o.env
        }),
{
    eval_at(node, environment, 0, EVAL_FUEL)
}

/// The error object produced when the evaluation budget runs out.
fn fuel_error_obj() -> (r: Object)
    ensures
        r.deep_view() == sp_fuel_error(),
{
    Object::Error { value: String::from_str("recursion limit reached") }
}

/// Evaluates one node against an environment and a scope, drawing the
/// budget down by one for every recursive step.
#[verifier::rlimit(100)]
fn eval_at(node: Node, environment: &mut Environment, scope: usize, fuel: u64) -> (r: Object)
    ensures
        ({
            let o = sp_eval(node.deep_view(), old(environment)@, scope as int, fuel as nat);
            r.deep_view() == o.obj && final(environment)@ == o.env
        }),
    decreases fuel, 0int,
{
    if fuel == 0 {
        return fuel_error_obj();
    }
    let f = fuel - 1;
    match node {
        Node::Program { statements } => eval_program(statements, environment, scope, f),
        Node::IntegerLiteral { value } => Object::Integer { value },
        Node::Boolean { value } => Object::Boolean { value },
        Node::ExpressionStatement { expression } => match expression {
            Some(e) => eval_at(*e, environment, scope, f),
            None => Object::Null,
        },
        Node::PrefixExpression { operator, right } => {
            let right_obj = eval_at(*right, environment, scope, f);
            if is_error(&right_obj) {
                return right_obj;
            }
            eval_prefix_expression(operator, right_obj)
        },
        Node::InfixExpression { left, operator, right } => {
            let right_obj = eval_at(*right, environment, scope, f);
            if is_error(&right_obj) {
                return right_obj;
            }
            let left_obj = eval_at(*left, environment, scope, f);
            if is_error(&left_obj) {
                return left_obj;
            }
            eval_infix_expression(operator, left_obj, right_obj)
        },
        Node::BlockStatement { statements } => eval_block_statement(statements, environment, scope, f),
        Node::IfExpression { condition, consequence, alternative } => eval_if_expression(
            *condition,
            *consequence,
            alternative,
            environment,
            scope,
            f,
        ),
        Node::ReturnStatement { value } => match value {
            Some(v) => {
                let val = eval_at(*v, environment, scope, f);
                if is_error(&val) {
                    return val;
                }
                let ghost vv = val.deep_view();
                let r = Object::ReturnValue { value: Box::new(val) };
                proof {
                    assert(r.deep_view() == ObjV::ReturnValue { value: Box::new(vv) });
                }
                r
            },
            None => {
                let inner = Object::Null;
                proof {
                    assert(inner.deep_view() == ObjV::Null);
                }
                Object::ReturnValue { value: Box::new(inner) }
            },
        },
        Node::LetStatement { name, value } => match value {
            Some(v) => {
                let val = eval_at(*v, environment, scope, f);
                if is_error(&val) {
                    return val;
                }
                let key = name.as_string();
                environment.set(scope, key, val);
                Object::Null
            },
            None => Object::Null,
        },
        Node::Identifier { value } => eval_identifier(value.v, environment, scope),
        Node::FunctionLiteral { parameters, body } => Object::Function {
            parameters,
            body,
            env: scope,
        },
        Node::CallExpression { function, arguments } => {
            let fo = eval_at(*function, environment, scope, f);
            if is_error(&fo) {
                return fo;
            }
            let args = match eval_expressions(arguments, environment, scope, f) {
                Ok(v) => v,
                Err(e) => {
                    return e;
                },
            };
            apply_function(fo, args, environment, f)
        },
    }
}

/// Evaluates a top-level statement list, stopping at the first error
/// and unwrapping an early return.
fn eval_program(statements: Vec<Node>, environment: &mut Environment, scope: usize, fuel: u64) -> (r:
    Object)
    ensures
        ({
            let o = sp_eval_program(
                Node::deep_view_seq(statements@),
                old(environment)@,
                scope as int,
                fuel as nat,
            );
            r.deep_view() == o.obj && final(environment)@ == o.env
        }),
    decreases fuel, 1int,
{
    let ghost full = Node::deep_view_seq(statements@);
    let ghost goal = sp_eval_program(full, old(environment)@, scope as int, fuel as nat);
    proof {
        crate::ast::lemma_deep_view_seq_index(statements@);
    }
    let mut i: usize = 0;
    let mut fl = fuel;
    proof {
        assert(full.skip(0) =~= full);
    }
    loop
        invariant
            full == Node::deep_view_seq(statements@),
            goal == sp_eval_program(full, old(environment)@, scope as int, fuel as nat),
            full.len() == statements@.len(),
            forall|j: int| 0 <= j < full.len() ==> full[j] == statements@[j].deep_view(),
            i <= statements@.len(),
            fl <= fuel,
            sp_eval_program(full.skip(i as int), environment@, scope as int, fl as nat) == goal,
        decreases fl,
    {
        if i >= statements.len() {
            proof {
                assert(full.skip(i as int) =~= Seq::<NodeV>::empty());
            }
            return Object::Null;
        }
        if fl == 0 {
            return fuel_error_obj();
        }
        proof {
            assert(full.skip(i as int)[0] == full[i as int]);
        }
        let stmt = (&statements[i]).clone();
        let v = eval_at(stmt, environment, scope, fl - 1);
        match v {
            Object::ReturnValue { value } => {
                return *value;
            },
            _ => {},
        }
        if is_error(&v) {
            return v;
        }
        if i + 1 == statements.len() {
            return v;
        }
        proof {
            assert(full.skip(i as int).drop_first() =~= full.skip(i + 1));
        }
        fl = fl - 1;
        i = i + 1;
    }
}

/// Evaluates a block's statement list, stopping at and passing up the
/// first return or error signal.
fn eval_block_statement(
    statements: Vec<Node>,
    environment: &mut Environment,
    scope: usize,
    fuel: u64,
) -> (r: Object)
    ensures
        ({
            let o = sp_eval_block(
                Node::deep_view_seq(statements@),
                old(environment)@,
                scope as int,
                fuel as nat,
            );
            r.deep_view() == o.obj && final(environment)@ == o.env
        }),
    decreases fuel, 1int,
{
    let ghost full = Node::deep_view_seq(statements@);
    let ghost goal = sp_eval_block(full, old(environment)@, scope as int, fuel as nat);
    proof {
        crate::ast::lemma_deep_view_seq_index(statements@);
    }
    let mut i: usize = 0;
    let mut fl = fuel;
    proof {
        assert(full.skip(0) =~= full);
    }
    loop
        invariant
            full == Node::deep_view_seq(statements@),
            goal == sp_eval_block(full, old(environment)@, scope as int, fuel as nat),
            full.len() == statements@.len(),
            forall|j: int| 0 <= j < full.len() ==> full[j] == statements@[j].deep_view(),
            i <= statements@.len(),
            fl <= fuel,
            sp_eval_block(full.skip(i as int), environment@, scope as int, fl as nat) == goal,
        decreases fl,
    {
        if i >= statements.len() {
            proof {
                assert(full.skip(i as int) =~= Seq::<NodeV>::empty());
            }
            return Object::Null;
        }
        if fl == 0 {
            return fuel_error_obj();
        }
        proof {
            assert(full.skip(i as int)[0] == full[i as int]);
        }
        let stmt = (&statements[i]).clone();
        let v = eval_at(stmt, environment, scope, fl - 1);
        if matches!(v, Object::ReturnValue { .. }) || matches!(v, Object::Error { .. }) {
            return v;
        }
        if i + 1 == statements.len() {
            return v;
        }
        proof {
            assert(full.skip(i as int).drop_first() =~= full.skip(i + 1));
        }
        fl = fl - 1;
        i = i + 1;
    }
}

/// Evaluates a prefix operation once its operand is evaluated.
fn eval_prefix_expression(operator: String, right: Object) -> (r: Object)
    ensures
        r.deep_view() == sp_prefix(operator@, right.deep_view()),
{
    if str_eq(operator.as_str(), "!") {
        eval_bang_operator_expression(right)
    } else if str_eq(operator.as_str(), "-") {
        eval_minus_operator_expression(right)
    } else {
        let mut e = String::from_str("unknown operator: ");
        e.append(operator.as_str());
        let n = right.name();
        e.append(n.as_str());
        Object::Error { value: e }
    }
}

/// Logical negation by the truthiness table.
fn eval_bang_operator_expression(right: Object) -> (r: Object)
    ensures
        r.deep_view() == sp_bang(right.deep_view()),
{
    match right {
        Object::Boolean { value } => Object::Boolean { value: !value },
        Object::Null => Object::Boolean { value: true },
        _ => Object::Boolean { value: false },
    }
}

/// Arithmetic negation: legal only on integers.
fn eval_minus_operator_expression(right: Object) -> (r: Object)
    ensures
        r.deep_view() == sp_minus(right.deep_view()),
{
    match right {
        Object::Integer { value } => {
            if value == i64::MIN {
                Object::Integer { value: i64::MIN }
            } else {
                Object::Integer { value: -value }
            }
        },
        _ => {
            let mut e = String::from_str("unknown operator: -");
            let n = right.name();
            e.append(n.as_str());
            Object::Error { value: e }
        },
    }
}

/// Evaluates an infix operation once both operands are evaluated.
fn eval_infix_expression(operator: String, left: Object, right: Object) -> (r: Object)
    ensures
        r.deep_view() == sp_infix(operator@, left.deep_view(), right.deep_view()),
{
    let ints = match (&left, &right) {
        (Object::Integer { value: a }, Object::Integer { value: b }) => Some((*a, *b)),
        _ => None,
    };
    match ints {
        Some((a, b)) => eval_integer_infix_expression(operator, a, b),
        None => {
            if str_eq(operator.as_str(), "==") {
                Object::Boolean { value: obj_eq(&left, &right) }
            } else if str_eq(operator.as_str(), "!=") {
                Object::Boolean { value: !obj_eq(&left, &right) }
            } else {
                let ln = left.name();
                let rn = right.name();
                let mut e = if !str_eq(ln.as_str(), rn.as_str()) {
                    String::from_str("type mismatch: ")
                } else {
                    String::from_str("unknown operator: ")
                };
                e.append(ln.as_str());
                e.append(" ");
                e.append(operator.as_str());
                e.append(" ");
                e.append(rn.as_str());
                Object::Error { value: e }
            }
        },
    }
}

/// Evaluates an infix operation on two integers.
fn eval_integer_infix_expression(operator: String, left: i64, right: i64) -> (r: Object)
    ensures
        r.deep_view() == sp_int_infix(operator@, left, right),
{
    if str_eq(operator.as_str(), "+") {
        Object::Integer { value: left.wrapping_add(right) }
    } else if str_eq(operator.as_str(), "-") {
        Object::Integer { value: left.wrapping_sub(right) }
    } else if str_eq(operator.as_str(), "*") {
        Object::Integer { value: left.wrapping_mul(right) }
    } else if str_eq(operator.as_str(), "/") {
        if right == 0 {
            Object::Error { value: String::from_str("division by zero") }
        } else {
            match left.checked_div(right) {
                Some(v) => Object::Integer { value: v },
                None => Object::Integer { value: i64::MIN },
            }
        }
    } else if str_eq(operator.as_str(), "<") {
        Object::Boolean { value: left < right }
    } else if str_eq(operator.as_str(), ">") {
        Object::Boolean { value: left > right }
    } else if str_eq(operator.as_str(), "==") {
        Object::Boolean { value: left == right }
    } else if str_eq(operator.as_str(), "!=") {
        Object::Boolean { value: left != right }
    } else {
        let mut e = String::from_str("unknown operator: INTEGER ");
        e.append(operator.as_str());
        e.append(" INTEGER");
        Object::Error { value: e }
    }
}

/// Evaluates a conditional: the chosen branch runs only after the
/// condition has been found truthy or falsy.
fn eval_if_expression(
    condition: Node,
    consequence: Node,
    alternative: Option<Box<Node>>,
    environment: &mut Environment,
    scope: usize,
    fuel: u64,
) -> (r: Object)
    ensures
        ({
            let c = sp_eval(condition.deep_view(), old(environment)@, scope as int, fuel as nat);
            let out = if sp_is_error(c.obj) {
                c
            } else if sp_truthy(c.obj) {
                sp_eval(consequence.deep_view(), c.env, scope as int, fuel as nat)
            } else {
                match alternative {
                    Some(a) => sp_eval((*a).deep_view(), c.env, scope as int, fuel as nat),
                    None => EvalOut { obj: ObjV::Null, env: c.env },
                }
            };
            r.deep_view() == out.obj && final(environment)@ == out.env
        }),
    decreases fuel, 1int,
{
    let cond = eval_at(condition, environment, scope, fuel);
    if is_error(&cond) {
        return cond;
    }
    if is_truthy(&cond) {
        eval_at(consequence, environment, scope, fuel)
    } else {
        match alternative {
            Some(a) => eval_at(*a, environment, scope, fuel),
            None => Object::Null,
        }
    }
}

/// Looks a name up in the environment; an unbound name is an error,
/// not a default value.
fn eval_identifier(name: String, environment: &Environment, scope: usize) -> (r: Object)
    ensures
        r.deep_view() == (match sp_env_get(environment@, scope as int, name@) {
            Some(v) => v,
            None => ObjV::Error { value: "identifier not found: "@ + name@ },
        }),
{
    match environment.get(scope, name.as_str()) {
        Some(v) => v,
        None => {
            let mut e = String::from_str("identifier not found: ");
            e.append(name.as_str());
            Object::Error { value: e }
        },
    }
}

/// Evaluates call arguments left to right, stopping at the first
/// error.
fn eval_expressions(
    expressions: Vec<Node>,
    environment: &mut Environment,
    scope: usize,
    fuel: u64,
) -> (r: Result<Vec<Object>, Object>)
    ensures
        ({
            let a = sp_eval_args(
                Node::deep_view_seq(expressions@),
                old(environment)@,
                scope as int,
                fuel as nat,
            );
            final(environment)@ == a.env && match a.r {
                Ok(s) => r matches Ok(v) && objs_view(v@) == s,
                Err(e) => r matches Err(o) && o.deep_view() == e,
            }
        }),
    decreases fuel, 1int,
{
    let ghost full = Node::deep_view_seq(expressions@);
    let ghost goal = sp_eval_args(full, old(environment)@, scope as int, fuel as nat);
    proof {
        crate::ast::lemma_deep_view_seq_index(expressions@);
    }
    let mut result: Vec<Object> = Vec::new();
    let mut i: usize = 0;
    let mut fl = fuel;
    proof {
        assert(full.skip(0) =~= full);
        assert(objs_view(result@) =~= Seq::<ObjV>::empty());
    }
    loop
        invariant
            full == Node::deep_view_seq(expressions@),
            goal == sp_eval_args(full, old(environment)@, scope as int, fuel as nat),
            full.len() == expressions@.len(),
            forall|j: int| 0 <= j < full.len() ==> full[j] == expressions@[j].deep_view(),
            i <= expressions@.len(),
            fl <= fuel,
            ({
                let rest = sp_eval_args(full.skip(i as int), environment@, scope as int, fl as nat);
                match rest.r {
                    Ok(s) => goal.r == Ok::<Seq<ObjV>, ObjV>(objs_view(result@) + s) && goal.env
                        == rest.env,
                    Err(e) => goal.r == Err::<Seq<ObjV>, ObjV>(e) && goal.env == rest.env,
                }
            }),
        decreases fl,
    {
        if i >= expressions.len() {
            proof {
                assert(full.skip(i as int) =~= Seq::<NodeV>::empty());
                assert(objs_view(result@) + Seq::<ObjV>::empty() =~= objs_view(result@));
            }
            return Ok(result);
        }
        if fl == 0 {
            return Err(fuel_error_obj());
        }
        proof {
            assert(full.skip(i as int)[0] == full[i as int]);
        }
        let e = (&expressions[i]).clone();
        let v = eval_at(e, environment, scope, fl - 1);
        if is_error(&v) {
            return Err(v);
        }
        let ghost old_result = result@;
        result.push(v);
        proof {
            assert(objs_view(result@) =~= objs_view(old_result).push(v.deep_view()));
            assert(full.skip(i as int).drop_first() =~= full.skip(i + 1));
            let rest = sp_eval_args(full.skip(i + 1), environment@, scope as int, (fl - 1) as nat);
            match rest.r {
                Ok(s) => {
                    assert(objs_view(old_result) + (seq![v.deep_view()] + s) =~= objs_view(
                        result@,
                    ) + s);
                },
                Err(_) => {},
            }
        }
        fl = fl - 1;
        i = i + 1;
    }
}

/// Applies an evaluated callee to its evaluated arguments.
fn apply_function(
    function: Object,
    args: Vec<Object>,
    environment: &mut Environment,
    fuel: u64,
) -> (r: Object)
    ensures
        ({
            let o = sp_apply(function.deep_view(), objs_view(args@), old(environment)@, fuel as nat);
            r.deep_view() == o.obj && final(environment)@ == o.env
        }),
    decreases fuel, 1int,
{
    match function {
        Object::Function { parameters, body, env } => {
            if fuel == 0 {
                return fuel_error_obj();
            }
            let new_scope = create_function_env(parameters, args, environment, env);
            let evaluated = eval_at(*body, environment, new_scope, fuel - 1);
            unwrap_return_value(evaluated)
        },
        _ => {
            let mut e = String::from_str("not a function: ");
            let n = function.name();
            e.append(n.as_str());
            Object::Error { value: e }
        },
    }
}

/// Opens the scope a call runs in: a fresh scope enclosing the scope
/// the function captured, with each parameter bound to its argument.
fn create_function_env(
    parameters: Vec<Node>,
    args: Vec<Object>,
    environment: &mut Environment,
    fenv: usize,
) -> (scope: usize)
    ensures
        scope as int == old(environment)@.len(),
        final(environment)@ == sp_bind_params(
            sp_env_enclose(old(environment)@, fenv as int),
            old(environment)@.len() as int,
            Node::deep_view_seq(parameters@),
            objs_view(args@),
        ),
{
    let ghost pviews = Node::deep_view_seq(parameters@);
    let ghost avs = objs_view(args@);
    let ghost goal = sp_bind_params(
        sp_env_enclose(old(environment)@, fenv as int),
        old(environment)@.len() as int,
        pviews,
        avs,
    );
    proof {
        crate::ast::lemma_deep_view_seq_index(parameters@);
    }
    let scope = environment.new_enclosed(fenv);
    proof {
        assert(pviews.skip(0) =~= pviews);
        assert(avs.skip(0) =~= avs);
    }
    let mut i: usize = 0;
    while i < parameters.len() && i < args.len()
        invariant
            pviews == Node::deep_view_seq(parameters@),
            avs == objs_view(args@),
            goal == sp_bind_params(
                sp_env_enclose(old(environment)@, fenv as int),
                old(environment)@.len() as int,
                pviews,
                avs,
            ),
            pviews.len() == parameters@.len(),
            forall|j: int| 0 <= j < pviews.len() ==> pviews[j] == parameters@[j].deep_view(),
            avs.len() == args@.len(),
            scope as int == old(environment)@.len(),
            i <= parameters@.len(),
            i <= args@.len(),
            sp_bind_params(environment@, scope as int, pviews.skip(i as int), avs.skip(i as int))
                == goal,
        decreases parameters@.len() - i,
    {
        proof {
            assert(pviews.skip(i as int)[0] == pviews[i as int]);
            assert(avs.skip(i as int)[0] == avs[i as int]);
            assert(avs[i as int] == args@[i as int].deep_view());
            assert(pviews.skip(i as int).drop_first() =~= pviews.skip(i + 1));
            assert(avs.skip(i as int).drop_first() =~= avs.skip(i + 1));
        }
        let key = (&parameters[i]).as_string();
        let value = (&args[i]).clone();
        environment.set(scope, key, value);
        i = i + 1;
    }
    proof {
        if i < parameters@.len() {
            assert(avs.skip(i as int) =~= Seq::<ObjV>::empty());
        } else {
            assert(pviews.skip(i as int) =~= Seq::<NodeV>::empty());
        }
    }
    scope
}

/// Unwraps the return signal to the value it carries.
fn unwrap_return_value(evaluated: Object) -> (r: Object)
    ensures
        r.deep_view() == sp_unwrap_return(evaluated.deep_view()),
{
    match evaluated {
        Object::ReturnValue { value } => *value,
        _ => evaluated,
    }
}

/// The truthiness of a condition: null and false are the only falsy
/// values.
fn is_truthy(condition: &Object) -> (r: bool)
    ensures
        r == sp_truthy(condition.deep_view()),
{
    match condition {
        Object::Null => false,
        Object::Boolean { value } => *value,
        _ => true,
    }
}

/// Whether an object is the error signal.
fn is_error(object: &Object) -> (r: bool)
    ensures
        r == sp_is_error(object.deep_view()),
{
    match object {
        Object::Error { .. } => true,
        _ => false,
    }
}

} // verus!
