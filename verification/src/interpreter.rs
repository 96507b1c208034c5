//! The evaluator: walks the tree bottom-up, executing statements in
//! order for their side effects (console output, environment
//! bindings).
//!
//! A literal's text is decided once, at literal evaluation, into a
//! tagged runtime value; operators match on the tag.  Comparisons and
//! arithmetic need integer operands; `+` adds two integers or, when
//! neither operand is an integer, concatenates their textual
//! encodings; `/` is integer division truncating toward zero, and
//! dividing by zero is fatal; equality compares textual encodings,
//! nil equal only to nil, and never fails; `!` negates the truth of a
//! boolean or of nil (which is falsy), and anything else is fatal.
//! The first runtime error aborts evaluation of the whole program.
//!
//! `veval` is the specification of expression evaluation, `sexec` /
//! `sexec_all` of statement execution over a ghost state of
//! environment map and output lines.

use std::io::Write;
use vstd::prelude::*;
use vstd::string::*;
use vstd::arithmetic::div_mod::lemma_div_is_ordered_by_denominator;
use crate::env::Environment;
use crate::errors::Runtime;
use crate::parser::{Expr, StmtExpr, opt_text};
use crate::text::{i64_of_text, int_text, i64_text, text_i64, str_eq};
use crate::token::TokenType;

verus! {

/// A runtime value, decided once when a literal is evaluated.
#[derive(Debug)]
pub enum Value {
    Num(i64),
    Bool(bool),
    Str(String),
    Nil,
}

/// The ghost image of a runtime value.
pub enum ValueModel {
    Num(int),
    Bool(bool),
    Str(Seq<char>),
    Nil,
}

impl View for Value {
    type V = ValueModel;

    open spec fn view(&self) -> ValueModel {
        match self {
            Value::Num(n) => ValueModel::Num(*n as int),
            Value::Bool(b) => ValueModel::Bool(*b),
            Value::Str(s) => ValueModel::Str(s@),
            Value::Nil => ValueModel::Nil,
        }
    }
}

/// The textual encoding of a value: decimal text, `true`/`false`,
/// the string itself, `null` for nil.
pub open spec fn sencode(v: ValueModel) -> Seq<char> {
    match v {
        ValueModel::Num(n) => int_text(n),
        ValueModel::Bool(b) => if b {
            "true"@
        } else {
            "false"@
        },
        ValueModel::Str(s) => s,
        ValueModel::Nil => "null"@,
    }
}

/// How a stored text becomes a value: nothing and `null` are nil,
/// `true`/`false` are booleans, integer text is a number, anything
/// else is a string.
pub open spec fn sdecode(o: Option<Seq<char>>) -> ValueModel {
    match o {
        Option::None => ValueModel::Nil,
        Option::Some(s) => if s == "null"@ {
            ValueModel::Nil
        } else if s == "true"@ {
            ValueModel::Bool(true)
        } else if s == "false"@ {
            ValueModel::Bool(false)
        } else {
            match i64_of_text(s) {
                Option::Some(n) => ValueModel::Num(n),
                Option::None => ValueModel::Str(s),
            }
        },
    }
}

/// Truthiness: nil is falsy, a boolean is itself, anything else is
/// fatal.
pub open spec fn struthy(v: ValueModel) -> Result<bool, Runtime> {
    match v {
        ValueModel::Nil => Result::Ok(false),
        ValueModel::Bool(b) => Result::Ok(b),
        _ => Result::Err(Runtime::NotBool),
    }
}

/// Equality of values: by textual encoding, with the text `null`
/// standing for nil; two nils are equal, nil equals nothing else.
/// Equality never fails.
pub open spec fn val_eq(a: ValueModel, b: ValueModel) -> bool {
    if sencode(a) == "null"@ && sencode(b) == "null"@ {
        true
    } else if sencode(a) == "null"@ {
        false
    } else {
        sencode(a) == sencode(b)
    }
}

/// Integer division truncating toward zero.
pub open spec fn trunc_div(x: int, d: int) -> int {
    if x == 0 {
        0
    } else if x > 0 && d > 0 {
        x / d
    } else if x < 0 && d < 0 {
        (x * -1) / (d * -1)
    } else if x < 0 {
        ((x * -1) / d) * -1
    } else {
        (x / (d * -1)) * -1
    }
}

/// What a binary operator yields on two evaluated operands.
pub open spec fn apply_binary(op: TokenType, a: ValueModel, b: ValueModel) -> Result<
    ValueModel,
    Runtime,
> {
    match op {
        TokenType::EqualEqual => Result::Ok(ValueModel::Bool(val_eq(a, b))),
        TokenType::BangEqual => Result::Ok(ValueModel::Bool(!val_eq(a, b))),
        TokenType::Greater => match (a, b) {
            (ValueModel::Num(x), ValueModel::Num(y)) => Result::Ok(ValueModel::Bool(x > y)),
            _ => Result::Err(Runtime::NotInt),
        },
        TokenType::GreaterEqual => match (a, b) {
            (ValueModel::Num(x), ValueModel::Num(y)) => Result::Ok(ValueModel::Bool(x >= y)),
            _ => Result::Err(Runtime::NotInt),
        },
        TokenType::Less => match (a, b) {
            (ValueModel::Num(x), ValueModel::Num(y)) => Result::Ok(ValueModel::Bool(x < y)),
            _ => Result::Err(Runtime::NotInt),
        },
        TokenType::LessEqual => match (a, b) {
            (ValueModel::Num(x), ValueModel::Num(y)) => Result::Ok(ValueModel::Bool(x <= y)),
            _ => Result::Err(Runtime::NotInt),
        },
        TokenType::Minus => match (a, b) {
            (ValueModel::Num(x), ValueModel::Num(y)) => if i64::MIN <= x - y <= i64::MAX {
                Result::Ok(ValueModel::Num(x - y))
            } else {
                Result::Err(Runtime::Overflow)
            },
            _ => Result::Err(Runtime::NotInt),
        },
        TokenType::Star => match (a, b) {
            (ValueModel::Num(x), ValueModel::Num(y)) => if i64::MIN <= x * y <= i64::MAX {
                Result::Ok(ValueModel::Num(x * y))
            } else {
                Result::Err(Runtime::Overflow)
            },
            _ => Result::Err(Runtime::NotInt),
        },
        TokenType::Slash => match (a, b) {
            (ValueModel::Num(x), ValueModel::Num(y)) => if y == 0 {
                Result::Err(Runtime::DivisionByZero)
            } else if x == i64::MIN && y == -1 {
                Result::Err(Runtime::Overflow)
            } else {
                Result::Ok(ValueModel::Num(trunc_div(x, y)))
            },
            _ => Result::Err(Runtime::NotInt),
        },
        TokenType::Plus => match (a, b) {
            (ValueModel::Num(x), ValueModel::Num(y)) => if i64::MIN <= x + y <= i64::MAX {
                Result::Ok(ValueModel::Num(x + y))
            } else {
                Result::Err(Runtime::Overflow)
            },
            (ValueModel::Num(x), _) => Result::Err(Runtime::NotInt),
            (_, ValueModel::Num(y)) => Result::Err(Runtime::NotInt),
            _ => Result::Ok(ValueModel::Str(sencode(a) + sencode(b))),
        },
        _ => Result::Err(Runtime::InvalidOperation),
    }
}

/// What evaluating an expression under an environment yields: the
/// value, or the first runtime error, children evaluated left to
/// right before their parent.
pub open spec fn veval(e: Expr, env: Map<Seq<char>, Seq<char>>) -> Result<ValueModel, Runtime>
    decreases e,
{
    match e {
        Expr::Literal(l) => Result::Ok(sdecode(opt_text(l.value))),
        Expr::Grouping(g) => veval(g.expression, env),
        Expr::Variable(v) => if env.contains_key(v.name.lexeme@) {
            Result::Ok(sdecode(Option::Some(env[v.name.lexeme@])))
        } else {
            Result::Err(Runtime::UndefinedVariable)
        },
        Expr::Unary(u) => match veval(u.right, env) {
            Result::Ok(r) => match u.operator.tty {
                TokenType::Minus => match r {
                    ValueModel::Num(n) => if i64::MIN <= -n <= i64::MAX {
                        Result::Ok(ValueModel::Num(-n))
                    } else {
                        Result::Err(Runtime::Overflow)
                    },
                    _ => Result::Err(Runtime::NotInt),
                },
                TokenType::Bang => match struthy(r) {
                    Result::Ok(b) => Result::Ok(ValueModel::Bool(!b)),
                    Result::Err(er) => Result::Err(er),
                },
                _ => Result::Err(Runtime::InvalidOperation),
            },
            Result::Err(er) => Result::Err(er),
        },
        Expr::Binary(b) => match veval(b.left, env) {
            Result::Ok(lv) => match veval(b.right, env) {
                Result::Ok(rv) => apply_binary(b.operator.tty, lv, rv),
                Result::Err(er) => Result::Err(er),
            },
            Result::Err(er) => Result::Err(er),
        },
    }
}

/// The ghost state statements run over: the environment map and the
/// lines printed so far.
pub struct EvalState {
    pub env: Map<Seq<char>, Seq<char>>,
    pub out: Seq<Seq<char>>,
}

/// What executing one statement does to the state: an expression
/// statement discards its value, a print statement appends the
/// value's text to the output, a declaration binds the name to the
/// initializer's text (`null` when it has none).  A failed statement
/// changes nothing.
pub open spec fn sexec(st: StmtExpr, s: EvalState) -> (Result<(), Runtime>, EvalState) {
    match st {
        StmtExpr::Expression { expression } => match veval(expression, s.env) {
            Result::Ok(_) => (Result::Ok(()), s),
            Result::Err(er) => (Result::Err(er), s),
        },
        StmtExpr::Print { expression } => match veval(expression, s.env) {
            Result::Ok(v) => (
                Result::Ok(()),
                EvalState { env: s.env, out: s.out.push(sencode(v)) },
            ),
            Result::Err(er) => (Result::Err(er), s),
        },
        StmtExpr::Var { name, initializer } => {
            let r = match initializer {
                Option::Some(e) => veval(e, s.env),
                Option::None => Result::Ok(ValueModel::Nil),
            };
            match r {
                Result::Ok(v) => (
                    Result::Ok(()),
                    EvalState { env: s.env.insert(name.lexeme@, sencode(v)), out: s.out },
                ),
                Result::Err(er) => (Result::Err(er), s),
            }
        },
    }
}

/// Statements run in order; the first runtime error stops the run
/// with the state it reached.
pub open spec fn sexec_all(stmts: Seq<StmtExpr>, s: EvalState) -> (Result<(), Runtime>, EvalState)
    decreases stmts.len(),
{
    if stmts.len() == 0 {
        (Result::Ok(()), s)
    } else {
        let step = sexec(stmts[0], s);
        match step.0 {
            Result::Ok(_) => sexec_all(stmts.drop_first(), step.1),
            Result::Err(er) => (Result::Err(er), step.1),
        }
    }
}

pub proof fn lemma_trunc_div_range(x: int, d: int)
    requires
        i64::MIN <= x <= i64::MAX,
        i64::MIN <= d <= i64::MAX,
        d != 0,
        !(x == i64::MIN && d == -1),
    ensures
        i64::MIN <= trunc_div(x, d) <= i64::MAX,
{
    if x != 0 {
        let mx = if x > 0 { x } else { x * -1 };
        let md = if d > 0 { d } else { d * -1 };
        assert(mx >= 1 && md >= 1);
        lemma_div_is_ordered_by_denominator(mx, 1, md);
        assert(mx / 1 == mx);
        assert(mx / md >= 0) by (nonlinear_arith)
            requires
                mx >= 1 && md >= 1,
        ;
        if x < 0 && d < 0 && x == i64::MIN {
            assert(md >= 2);
            lemma_div_is_ordered_by_denominator(mx, 2, md);
            assert(mx == 9223372036854775808int);
            assert(mx / 2 == 4611686018427387904int);
        } else if x < 0 && d < 0 {
            assert(mx <= i64::MAX);
        }
    }
}

/// The evaluator: owns the environment for its lifetime and records
/// every printed line, which is also written to standard output.
pub struct Interpreter {
    pub environment: Environment,
    pub output: Vec<String>,
}

/// The printed lines, as text.
pub open spec fn out_model(v: Seq<String>) -> Seq<Seq<char>> {
    v.map_values(|s: String| s@)
}

impl Interpreter {
    pub open spec fn iwf(&self) -> bool {
        self.environment.wf()
    }

    /// The ghost state this evaluator is in.
    pub open spec fn istate(&self) -> EvalState {
        EvalState { env: self.environment@, out: out_model(self.output@) }
    }

    /// A fresh evaluator: empty environment, nothing printed.
    pub fn new() -> (r: Interpreter)
        ensures
            r.iwf(),
            r.istate() == (EvalState {
                env: Map::<Seq<char>, Seq<char>>::empty(),
                out: Seq::<Seq<char>>::empty(),
            }),
    {
        let r = Interpreter { environment: Environment::new(), output: Vec::new() };
        proof {
            assert(out_model(r.output@) =~= Seq::<Seq<char>>::empty());
        }
        r
    }

    /// The textual encoding of a value.
    pub fn value_text(v: &Value) -> (r: String)
        ensures
            r@ == sencode(v@),
    {
        match v {
            Value::Num(n) => i64_text(*n),
            Value::Bool(b) => if *b {
                String::from_str("true")
            } else {
                String::from_str("false")
            },
            Value::Str(s) => s.clone(),
            Value::Nil => String::from_str("null"),
        }
    }

    /// Decides a literal payload into a tagged value, once.
    pub fn decode_literal(o: &Option<String>) -> (r: Value)
        ensures
            r@ == sdecode(
                match o {
                    Option::Some(s) => Option::Some(s@),
                    Option::None => Option::None,
                },
            ),
    {
        match o {
            Option::None => Value::Nil,
            Option::Some(s) => {
                if str_eq(s.as_str(), "null") {
                    Value::Nil
                } else if str_eq(s.as_str(), "true") {
                    Value::Bool(true)
                } else if str_eq(s.as_str(), "false") {
                    Value::Bool(false)
                } else {
                    match text_i64(s.as_str()) {
                        Option::Some(n) => Value::Num(n),
                        Option::None => Value::Str(s.clone()),
                    }
                }
            },
        }
    }

    /// Truthiness of a value: nil is falsy, a boolean is itself,
    /// anything else is a fatal type error.
    pub fn is_truthy(&self, v: &Value) -> (r: Result<bool, Runtime>)
        ensures
            r == struthy(v@),
    {
        match v {
            Value::Nil => Result::Ok(false),
            Value::Bool(b) => Result::Ok(*b),
            _ => Result::Err(Runtime::NotBool),
        }
    }

    /// Equality of two values, by their textual encodings; nil equals
    /// only nil.  Never fails.
    pub fn is_equal(&self, a: &Value, b: &Value) -> (r: bool)
        ensures
            r == val_eq(a@, b@),
    {
        let ea = Interpreter::value_text(a);
        let eb = Interpreter::value_text(b);
        if str_eq(ea.as_str(), "null") && str_eq(eb.as_str(), "null") {
            true
        } else if str_eq(ea.as_str(), "null") {
            false
        } else {
            str_eq(ea.as_str(), eb.as_str())
        }
    }

    /// One binary operator applied to two evaluated operands.
    fn binary_apply(&self, op: TokenType, a: &Value, b: &Value) -> (r: Result<Value, Runtime>)
        ensures
            match r {
                Result::Ok(v) => apply_binary(op, a@, b@) == Result::<ValueModel, Runtime>::Ok(
                    v@,
                ),
                Result::Err(er) => apply_binary(op, a@, b@) == Result::<
                    ValueModel,
                    Runtime,
                >::Err(er),
            },
    {
        match op {
            TokenType::EqualEqual => Result::Ok(Value::Bool(self.is_equal(a, b))),
            TokenType::BangEqual => Result::Ok(Value::Bool(!self.is_equal(a, b))),
            TokenType::Greater => match (a, b) {
                (Value::Num(x), Value::Num(y)) => Result::Ok(Value::Bool(*x > *y)),
                _ => Result::Err(Runtime::NotInt),
            },
            TokenType::GreaterEqual => match (a, b) {
                (Value::Num(x), Value::Num(y)) => Result::Ok(Value::Bool(*x >= *y)),
                _ => Result::Err(Runtime::NotInt),
            },
            TokenType::Less => match (a, b) {
                (Value::Num(x), Value::Num(y)) => Result::Ok(Value::Bool(*x < *y)),
                _ => Result::Err(Runtime::NotInt),
            },
            TokenType::LessEqual => match (a, b) {
                (Value::Num(x), Value::Num(y)) => Result::Ok(Value::Bool(*x <= *y)),
                _ => Result::Err(Runtime::NotInt),
            },
            TokenType::Minus => match (a, b) {
                (Value::Num(x), Value::Num(y)) => match x.checked_sub(*y) {
                    Option::Some(z) => Result::Ok(Value::Num(z)),
                    Option::None => Result::Err(Runtime::Overflow),
                },
                _ => Result::Err(Runtime::NotInt),
            },
            TokenType::Star => match (a, b) {
                (Value::Num(x), Value::Num(y)) => match x.checked_mul(*y) {
                    Option::Some(z) => Result::Ok(Value::Num(z)),
                    Option::None => Result::Err(Runtime::Overflow),
                },
                _ => Result::Err(Runtime::NotInt),
            },
            TokenType::Slash => match (a, b) {
                (Value::Num(x), Value::Num(y)) => {
                    if *y == 0 {
                        Result::Err(Runtime::DivisionByZero)
                    } else if *x == i64::MIN && *y == -1 {
                        Result::Err(Runtime::Overflow)
                    } else {
                        proof {
                            lemma_trunc_div_range(*x as int, *y as int);
                        }
                        match x.checked_div(*y) {
                            Option::Some(q) => Result::Ok(Value::Num(q)),
                            Option::None => Result::Err(Runtime::Overflow),
                        }
                    }
                },
                _ => Result::Err(Runtime::NotInt),
            },
            TokenType::Plus => match (a, b) {
                (Value::Num(x), Value::Num(y)) => match x.checked_add(*y) {
                    Option::Some(z) => Result::Ok(Value::Num(z)),
                    Option::None => Result::Err(Runtime::Overflow),
                },
                (Value::Num(x), _) => Result::Err(Runtime::NotInt),
                (_, Value::Num(y)) => Result::Err(Runtime::NotInt),
                _ => {
                    let mut s = Interpreter::value_text(a);
                    let eb = Interpreter::value_text(b);
                    s.append(eb.as_str());
                    Result::Ok(Value::Str(s))
                },
            },
            _ => Result::Err(Runtime::InvalidOperation),
        }
    }

    /// Evaluates an expression to its value or its first runtime
    /// error, exactly as `veval` says.
    pub fn evaluate(&self, expr: &Expr) -> (r: Result<Value, Runtime>)
        requires
            self.iwf(),
        ensures
            match r {
                Result::Ok(v) => veval(*expr, self.environment@) == Result::<
                    ValueModel,
                    Runtime,
                >::Ok(v@),
                Result::Err(er) => veval(*expr, self.environment@) == Result::<
                    ValueModel,
                    Runtime,
                >::Err(er),
            },
        decreases expr,
    {
        match expr {
            Expr::Literal(l) => Result::Ok(Interpreter::decode_literal(&l.value)),
            Expr::Grouping(g) => self.evaluate(&g.expression),
            Expr::Variable(v) => match self.environment.get(v.name.lexeme.as_str()) {
                Option::Some(s) => {
                    let o = Option::Some(s);
                    Result::Ok(Interpreter::decode_literal(&o))
                },
                Option::None => Result::Err(Runtime::UndefinedVariable),
            },
            Expr::Unary(u) => {
                let rv = match self.evaluate(&u.right) {
                    Result::Ok(v) => v,
                    Result::Err(er) => {
                        return Result::Err(er);
                    },
                };
                match u.operator.tty {
                    TokenType::Minus => match rv {
                        Value::Num(n) => if n == i64::MIN {
                            Result::Err(Runtime::Overflow)
                        } else {
                            Result::Ok(Value::Num(-n))
                        },
                        _ => Result::Err(Runtime::NotInt),
                    },
                    TokenType::Bang => match self.is_truthy(&rv) {
                        Result::Ok(b) => Result::Ok(Value::Bool(!b)),
                        Result::Err(er) => Result::Err(er),
                    },
                    _ => Result::Err(Runtime::InvalidOperation),
                }
            },
            Expr::Binary(b) => {
                let lv = match self.evaluate(&b.left) {
                    Result::Ok(v) => v,
                    Result::Err(er) => {
                        return Result::Err(er);
                    },
                };
                let rv = match self.evaluate(&b.right) {
                    Result::Ok(v) => v,
                    Result::Err(er) => {
                        return Result::Err(er);
                    },
                };
                self.binary_apply(b.operator.tty, &lv, &rv)
            },
        }
    }

    /// Executes one statement for its side effects, exactly as
    /// `sexec` says.
    pub fn execute(&mut self, stmt: &StmtExpr) -> (r: Result<(), Runtime>)
        requires
            old(self).iwf(),
        ensures
            final(self).iwf(),
            r == sexec(*stmt, old(self).istate()).0,
            final(self).istate() == sexec(*stmt, old(self).istate()).1,
    {
        match stmt {
            StmtExpr::Expression { expression } => match self.evaluate(expression) {
                Result::Ok(_v) => Result::Ok(()),
                Result::Err(er) => Result::Err(er),
            },
            StmtExpr::Print { expression } => match self.evaluate(expression) {
                Result::Ok(v) => {
                    let txt = Interpreter::value_text(&v);
                    emit_out(&txt);
                    let ghost pre_out = self.output@;
                    self.output.push(txt);
                    proof {
                        assert(out_model(self.output@) =~= out_model(pre_out).push(sencode(v@)));
                    }
                    Result::Ok(())
                },
                Result::Err(er) => Result::Err(er),
            },
            StmtExpr::Var { name, initializer } => {
                let v = match initializer {
                    Option::Some(e) => match self.evaluate(e) {
                        Result::Ok(v) => v,
                        Result::Err(er) => {
                            return Result::Err(er);
                        },
                    },
                    Option::None => Value::Nil,
                };
                let txt = Interpreter::value_text(&v);
                self.environment.define(name.lexeme.clone(), txt);
                Result::Ok(())
            },
        }
    }

    /// Runs a statement list in order, exactly as `sexec_all` says:
    /// the first runtime error aborts the rest.
    #[verifier::loop_isolation(false)]
    pub fn interpret(&mut self, statements: Vec<StmtExpr>) -> (r: Result<(), Runtime>)
        requires
            old(self).iwf(),
        ensures
            final(self).iwf(),
            r == sexec_all(statements@, old(self).istate()).0,
            final(self).istate() == sexec_all(statements@, old(self).istate()).1,
    {
        let ghost all = statements@;
        let ghost s0 = self.istate();
        let n = statements.len();
        let mut i: usize = 0;
        proof {
            assert(all.skip(0) =~= all);
        }
        while i < n
            invariant
                i <= n,
                n == all.len(),
                self.iwf(),
                sexec_all(all, s0) == sexec_all(all.skip(i as int), self.istate()),
            decreases n - i,
        {
            let st = &statements[i];
            let ghost pre_state = self.istate();
            match self.execute(st) {
                Result::Ok(_u) => {},
                Result::Err(er) => {
                    proof {
                        assert(all.skip(i as int)[0] == all[i as int]);
                    }
                    return Result::Err(er);
                },
            }
            proof {
                assert(all.skip(i as int)[0] == all[i as int]);
                assert(all.skip(i as int).drop_first() =~= all.skip(i + 1));
            }
            i += 1;
        }
        proof {
            assert(all.skip(n as int) =~= Seq::<StmtExpr>::empty());
        }
        Result::Ok(())
    }
}

/// Relies on `writeln!` to standard output: prints the line; nothing
/// else is observable of it.
#[verifier::external_body]
fn emit_out(s: &String) {
    let _ = writeln!(std::io::stdout(), "{}", s);
}

/// For integer operands, every arithmetic operator yields the exact
/// integer result whenever it fits the machine range, and `/`
/// truncates toward zero; dividing by zero is the division-by-zero
/// error.
pub proof fn lemma_arithmetic_exact(e: Expr, env: Map<Seq<char>, Seq<char>>, x: int, y: int)
    requires
        e is Binary,
        veval(e->Binary_0.left, env) == Result::<ValueModel, Runtime>::Ok(ValueModel::Num(x)),
        veval(e->Binary_0.right, env) == Result::<ValueModel, Runtime>::Ok(ValueModel::Num(y)),
    ensures
        e->Binary_0.operator.tty == TokenType::Plus && i64::MIN <= x + y <= i64::MAX ==> veval(
            e,
            env,
        ) == Result::<ValueModel, Runtime>::Ok(ValueModel::Num(x + y)),
        e->Binary_0.operator.tty == TokenType::Minus && i64::MIN <= x - y <= i64::MAX ==> veval(
            e,
            env,
        ) == Result::<ValueModel, Runtime>::Ok(ValueModel::Num(x - y)),
        e->Binary_0.operator.tty == TokenType::Star && i64::MIN <= x * y <= i64::MAX ==> veval(
            e,
            env,
        ) == Result::<ValueModel, Runtime>::Ok(ValueModel::Num(x * y)),
        e->Binary_0.operator.tty == TokenType::Slash && y != 0 && !(x == i64::MIN && y == -1)
            ==> veval(e, env) == Result::<ValueModel, Runtime>::Ok(
            ValueModel::Num(trunc_div(x, y)),
        ),
        e->Binary_0.operator.tty == TokenType::Slash && y == 0 ==> veval(e, env) == Result::<
            ValueModel,
            Runtime,
        >::Err(Runtime::DivisionByZero),
{
}

/// What a declaration stores, a later reference yields: the textual
/// encoding of a number, a boolean or nil reads back as the same
/// value.  (A string's text is re-read like any literal, so a string
/// that spells a number, a boolean or `null` comes back as that
/// value; no such claim is made for strings.)
pub proof fn lemma_encode_decode(v: ValueModel)
    requires
        v matches ValueModel::Num(n) ==> i64::MIN <= n <= i64::MAX,
        !(v is Str),
    ensures
        sdecode(Option::Some(sencode(v))) == v,
{
    reveal_strlit("null");
    reveal_strlit("true");
    reveal_strlit("false");
    match v {
        ValueModel::Num(n) => {
            crate::text::lemma_int_text_round_trip(n);
            if n >= 0 {
                crate::text::lemma_dec_digits_shape(n);
                assert(crate::text::is_digit(int_text(n)[0]));
            } else {
                assert(int_text(n)[0] == '-');
            }
            assert(int_text(n) != "null"@);
            assert(int_text(n) != "true"@);
            assert(int_text(n) != "false"@);
        },
        ValueModel::Bool(b) => {
            assert("true"@[0] == 't' && "false"@[0] == 'f' && "null"@[0] == 'n');
            assert("true"@ != "null"@);
            assert("false"@ != "null"@);
            assert("false"@ != "true"@);
        },
        ValueModel::Str(_) => {
        },
        ValueModel::Nil => {
        },
    }
}

/// Equality of values: `nil == nil` is true; nil equals nothing whose
/// encoding is not `null`; every value whose encoding is not `null`
/// equals itself.  Equality never fails.
pub proof fn lemma_equality_laws(a: ValueModel, b: ValueModel)
    ensures
        apply_binary(TokenType::EqualEqual, ValueModel::Nil, ValueModel::Nil) == Result::<
            ValueModel,
            Runtime,
        >::Ok(ValueModel::Bool(true)),
        sencode(b) != "null"@ ==> apply_binary(TokenType::EqualEqual, ValueModel::Nil, b)
            == Result::<ValueModel, Runtime>::Ok(ValueModel::Bool(false)),
        sencode(b) != "null"@ ==> apply_binary(TokenType::EqualEqual, b, ValueModel::Nil)
            == Result::<ValueModel, Runtime>::Ok(ValueModel::Bool(false)),
        sencode(a) != "null"@ ==> apply_binary(TokenType::EqualEqual, a, a) == Result::<
            ValueModel,
            Runtime,
        >::Ok(ValueModel::Bool(true)),
{
}

} // verus!

