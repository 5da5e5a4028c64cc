//! The transpiler: a pure, total renderer from the AST to C-like source
//! text.
//!
//! Binary nodes are parenthesized unconditionally, so the rendered text
//! reproduces exactly the (precedence-free, left-associative) grouping
//! the parser built. `let` statements use the fixed placeholder type
//! `int`, as no type information exists in the language.
//!
//! The rendering is specified as character-sequence functions
//! (`render_expr`, `render_stmt`, `render_function`) and each executable
//! renderer is proved to produce exactly that text.

use vstd::prelude::*;
use crate::ast::{BinaryOp, Expr, Stmt, Function, SpecExpr, SpecStmt, SpecFunction};
use crate::decimal::{dec_int, i64_to_string};

verus! {

/// The textual symbol of an operator.
pub open spec fn op_text(op: BinaryOp) -> Seq<char> {
    match op {
        BinaryOp::Add => "+"@,
        BinaryOp::Sub => "-"@,
        BinaryOp::Mul => "*"@,
        BinaryOp::Div => "/"@,
    }
}

/// The rendering of an expression: a literal in decimal, a variable
/// verbatim, and a binary node as the fully parenthesized `(left op
/// right)`.
pub open spec fn render_expr(e: SpecExpr) -> Seq<char>
    decreases e,
{
    match e {
        SpecExpr::Number(n) => dec_int(n),
        SpecExpr::Variable(name) => name,
        SpecExpr::Binary { left, op, right } => "("@ + render_expr(*left) + " "@ + op_text(op)
            + " "@ + render_expr(*right) + ")"@,
    }
}

/// The rendering of a statement, without indentation or newline.
pub open spec fn render_stmt(st: SpecStmt) -> Seq<char> {
    match st {
        SpecStmt::Let { name, value } => "int "@ + name + " = "@ + render_expr(value) + ";"@,
        SpecStmt::Return(e) => "return "@ + render_expr(e) + ";"@,
    }
}

/// The rendering of a statement list: one indented line per statement.
pub open spec fn render_body(body: Seq<SpecStmt>) -> Seq<char>
    decreases body.len(),
{
    if body.len() == 0 {
        Seq::empty()
    } else {
        "    "@ + render_stmt(body[0]) + "\n"@ + render_body(body.drop_first())
    }
}

/// The rendering of a whole function: signature line, indented body
/// lines, closing brace.
pub open spec fn render_function(f: SpecFunction) -> Seq<char> {
    f.return_type + " "@ + f.name + "() {\n"@ + render_body(f.body) + "}\n"@
}

/// The tree-to-text renderer. It is pure and total: every formatting
/// decision is a function of the AST alone.
pub struct Transpiler;

impl Transpiler {
    fn op_str(op: BinaryOp) -> (r: &'static str)
        ensures
            r@ == op_text(op),
    {
        match op {
            BinaryOp::Add => "+",
            BinaryOp::Sub => "-",
            BinaryOp::Mul => "*",
            BinaryOp::Div => "/",
        }
    }

    /// Render one expression.
    pub fn transpile_expr(expr: &Expr) -> (r: String)
        ensures
            r@ == render_expr(expr.model()),
        decreases expr,
    {
        match expr {
            Expr::Number(n) => i64_to_string(*n),
            Expr::Variable(name) => {
                let r = name.clone();
                proof {
                    assert(r@ == render_expr(expr.model()));
                }
                r
            }
            Expr::Binary { left, op, right } => {
                let mut s = "(".to_owned();
                let l = Self::transpile_expr(left);
                s.append(l.as_str());
                s.append(" ");
                s.append(Self::op_str(*op));
                s.append(" ");
                let rt = Self::transpile_expr(right);
                s.append(rt.as_str());
                s.append(")");
                proof {
                    assert(s@ =~= render_expr(expr.model()));
                }
                s
            }
        }
    }

    /// Render one statement, without indentation or newline.
    pub fn transpile_stmt(stmt: &Stmt) -> (r: String)
        ensures
            r@ == render_stmt(stmt.model()),
    {
        match stmt {
            Stmt::Let { name, value } => {
                let mut s = "int ".to_owned();
                s.append(name.as_str());
                s.append(" = ");
                let v = Self::transpile_expr(value);
                s.append(v.as_str());
                s.append(";");
                proof {
                    assert(s@ =~= render_stmt(stmt.model()));
                }
                s
            }
            Stmt::Return(e) => {
                let mut s = "return ".to_owned();
                let v = Self::transpile_expr(e);
                s.append(v.as_str());
                s.append(";");
                proof {
                    assert(s@ =~= render_stmt(stmt.model()));
                }
                s
            }
        }
    }

    /// Render a whole function as target-language source text.
    pub fn transpile_function(func: &Function) -> (r: String)
        ensures
            r@ == render_function(func.model()),
    {
        let mut output = String::new();
        output.append(func.return_type.as_str());
        output.append(" ");
        output.append(func.name.as_str());
        output.append("() {\n");
        let n = func.body.len();
        let mut i: usize = 0;
        proof {
            assert(func.model().body.skip(0) =~= func.model().body);
            assert(output@ =~= func.model().return_type + " "@ + func.model().name + "() {\n"@);
        }
        while i < n
            invariant
                n == func.body.len(),
                i <= n,
                func.model().body.len() == n,
                output@ + render_body(func.model().body.skip(i as int)) =~= func.model().return_type
                    + " "@ + func.model().name + "() {\n"@ + render_body(func.model().body),
            decreases n - i,
        {
            let line = Self::transpile_stmt(&func.body[i]);
            output.append("    ");
            output.append(line.as_str());
            output.append("\n");
            proof {
                let body = func.model().body;
                assert(body[i as int] == func.body@[i as int].model());
                assert(body.skip(i as int).drop_first() =~= body.skip(i + 1));
                assert(body.skip(i as int)[0] == body[i as int]);
                assert(render_body(body.skip(i as int)) =~= "    "@ + render_stmt(body[i as int])
                    + "\n"@ + render_body(body.skip(i + 1)));
            }
            i = i + 1;
        }
        output.append("}\n");
        proof {
            assert(render_body(func.model().body.skip(n as int)) =~= Seq::<char>::empty());
            assert(output@ =~= render_function(func.model()));
        }
        output
    }
}

} // verus!
