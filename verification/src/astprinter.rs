//! A printer that shows the tree of a program in prefix notation.

use vstd::prelude::*;
use vstd::string::*;
use crate::ast::{exprs_view, stmts_view, Expr, ExprView, FunctionView, Stmt, StmtView};
use crate::number;
use crate::token::{tokens_view, LiteralView, Token, TokenLiteral, TokenView};

verus! {

/// The text of a literal: a number as `print` writes it, a string without
/// quotes.
pub open spec fn literal_text(value: LiteralView) -> Seq<char> {
    match value {
        LiteralView::Number(bits) => number::text_of(bits),
        LiteralView::Text(text) => text,
        LiteralView::Bool(b) => if b {
            "true"@
        } else {
            "false"@
        },
        LiteralView::Nil => "nil"@,
    }
}

/// The texts of the expressions `es[i..]`, each after a blank.
pub open spec fn exprs_text(es: Seq<ExprView>, i: int) -> Seq<char>
    decreases es, es.len() - i,
{
    if !(0 <= i < es.len()) {
        Seq::empty()
    } else {
        " "@ + expr_text(es[i]) + exprs_text(es, i + 1)
    }
}

/// The text of an expression: an operator comes first in its parentheses.
pub open spec fn expr_text(e: ExprView) -> Seq<char>
    decreases e,
{
    match e {
        ExprView::Binary { left, operator, right } => "("@ + operator.lexeme + " "@ + expr_text(*left)
            + " "@ + expr_text(*right) + ")"@,
        ExprView::Logical { left, operator, right } => "("@ + operator.lexeme + " "@ + expr_text(*left)
            + " "@ + expr_text(*right) + ")"@,
        ExprView::Group { expression } => "(group "@ + expr_text(*expression) + ")"@,
        ExprView::Literal { value } => literal_text(value),
        ExprView::Unary { operator, right } => "("@ + operator.lexeme + " "@ + expr_text(*right) + ")"@,
        ExprView::Variable { name, id } => name.lexeme,
        ExprView::Assign { name, value, id } => name.lexeme + " = "@ + expr_text(*value),
        ExprView::Call { callee, paren, arguments } => "(call "@ + expr_text(*callee) + exprs_text(
            arguments,
            0,
        ) + ")"@,
    }
}

/// The names of the parameters `params[i..]`, each after a blank.
pub open spec fn params_text(params: Seq<TokenView>, i: int) -> Seq<char>
    decreases params.len() - i,
{
    if !(0 <= i < params.len()) {
        Seq::empty()
    } else {
        " "@ + params[i].lexeme + params_text(params, i + 1)
    }
}

/// The texts of the statements `ss[i..]`, each on a line of its own.
pub open spec fn stmts_text(ss: Seq<StmtView>, i: int) -> Seq<char>
    decreases ss, ss.len() - i,
{
    if !(0 <= i < ss.len()) {
        Seq::empty()
    } else {
        "\n"@ + stmt_text(ss[i]) + stmts_text(ss, i + 1)
    }
}

/// The text of a function declaration.
pub open spec fn function_text(f: FunctionView) -> Seq<char>
    decreases f,
{
    "( fun "@ + f.name.lexeme + " ("@ + params_text(f.params, 0) + " ) {"@ + stmts_text(f.body, 0) + "\n} )"@
}

/// The text of a statement.
pub open spec fn stmt_text(s: StmtView) -> Seq<char>
    decreases s,
{
    match s {
        StmtView::Expression { expression } => "( "@ + expr_text(expression) + " )"@,
        StmtView::Print { expression } => "(print "@ + expr_text(expression) + ")"@,
        StmtView::Var { name, initializer } => match initializer {
            Some(value) => "( var "@ + name.lexeme + " = "@ + expr_text(value) + " )"@,
            None => "( var "@ + name.lexeme + " )"@,
        },
        StmtView::Block { statements } => "{"@ + stmts_text(statements, 0) + "\n}"@,
        StmtView::If { condition, then_branch, else_branch } => match else_branch {
            Some(else_branch) => "if "@ + expr_text(condition) + " ( "@ + stmt_text(*then_branch) + " ) "@
                + " else ( "@ + stmt_text(*else_branch) + " ) "@ + "\n"@,
            None => "if "@ + expr_text(condition) + " ( "@ + stmt_text(*then_branch) + " ) "@ + "\n"@,
        },
        StmtView::While { condition, body } => "( while "@ + expr_text(condition) + " ("@ + stmt_text(*body)
            + ")\n"@,
        StmtView::Function { declaration } => function_text(declaration),
        StmtView::Return { keyword, value } => match value {
            Some(value) => "(return "@ + expr_text(value) + ")"@,
            None => "(return)"@,
        },
    }
}

/// The printer. It keeps nothing between two texts.
pub struct AstPrinter;

impl AstPrinter {
    /// A printer.
    pub fn new() -> (r: Self) {
        AstPrinter {  }
    }

    /// The text of an expression.
    pub fn print_expr(&self, expr: &Expr) -> (r: String)
        ensures
            r@ == expr_text(expr@),
    {
        let mut out = String::new();
        self.write_expr(expr, &mut out);
        assert(Seq::<char>::empty() + expr_text(expr@) =~= expr_text(expr@));
        out
    }

    /// The text of an expression.
    pub fn print(&self, expr: &Expr) -> (r: String)
        ensures
            r@ == expr_text(expr@),
    {
        self.print_expr(expr)
    }

    /// The text of a statement.
    pub fn print_stmt(&self, stmt: &Stmt) -> (r: String)
        ensures
            r@ == stmt_text(stmt@),
    {
        let mut out = String::new();
        self.write_stmt(stmt, &mut out);
        assert(Seq::<char>::empty() + stmt_text(stmt@) =~= stmt_text(stmt@));
        out
    }

    fn write_literal(&self, value: &TokenLiteral, out: &mut String)
        ensures
            final(out)@ == old(out)@ + literal_text(value@),
    {
        match value {
            TokenLiteral::Number(bits) => {
                let text = number::to_text(*bits);
                out.append(text.as_str());
            },
            TokenLiteral::String(text) => {
                out.append(text.as_str());
            },
            TokenLiteral::Bool(b) => {
                if *b {
                    out.append("true");
                } else {
                    out.append("false");
                }
            },
            TokenLiteral::Nil => {
                out.append("nil");
            },
        }
    }

    /// Writes an operator and its operands in parentheses.
    fn parenthesize(&self, expr: &Expr, out: &mut String)
        requires
            expr is Binary || expr is Logical || expr is Unary,
        ensures
            final(out)@ == old(out)@ + expr_text(expr@),
        decreases expr, 0int,
    {
        match expr {
            Expr::Binary(e) => {
                out.append("(");
                out.append(e.operator.lexeme.as_str());
                out.append(" ");
                self.write_expr(&e.left, out);
                out.append(" ");
                self.write_expr(&e.right, out);
                out.append(")");
                assert(out@ =~= old(out)@ + ("("@ + e.operator@.lexeme + " "@ + expr_text(e.left@) + " "@
                    + expr_text(e.right@) + ")"@));
            },
            Expr::Logical(e) => {
                out.append("(");
                out.append(e.operator.lexeme.as_str());
                out.append(" ");
                self.write_expr(&e.left, out);
                out.append(" ");
                self.write_expr(&e.right, out);
                out.append(")");
                assert(out@ =~= old(out)@ + ("("@ + e.operator@.lexeme + " "@ + expr_text(e.left@) + " "@
                    + expr_text(e.right@) + ")"@));
            },
            Expr::Unary(e) => {
                out.append("(");
                out.append(e.operator.lexeme.as_str());
                out.append(" ");
                self.write_expr(&e.right, out);
                out.append(")");
                assert(out@ =~= old(out)@ + ("("@ + e.operator@.lexeme + " "@ + expr_text(e.right@) + ")"@));
            },
            _ => {},
        }
    }

    fn write_expr(&self, expr: &Expr, out: &mut String)
        ensures
            final(out)@ == old(out)@ + expr_text(expr@),
        decreases expr, 1int,
    {
        match expr {
            Expr::Binary(_) => self.parenthesize(expr, out),
            Expr::Logical(_) => self.parenthesize(expr, out),
            Expr::Group(e) => {
                out.append("(group ");
                self.write_expr(&e.expression, out);
                out.append(")");
                assert(out@ =~= old(out)@ + ("(group "@ + expr_text(e.expression@) + ")"@));
            },
            Expr::Literal(e) => self.write_literal(&e.value, out),
            Expr::Unary(_) => self.parenthesize(expr, out),
            Expr::Variable(e) => {
                out.append(e.name.lexeme.as_str());
            },
            Expr::Assign(e) => {
                out.append(e.name.lexeme.as_str());
                out.append(" = ");
                self.write_expr(&e.value, out);
                assert(out@ =~= old(out)@ + (e.name@.lexeme + " = "@ + expr_text(e.value@)));
            },
            Expr::Call(e) => {
                out.append("(call ");
                self.write_expr(&e.callee, out);
                let ghost head = out@;
                let mut i: usize = 0;
                assert(head + exprs_text(exprs_view(e.arguments@), 0) =~= out@ + exprs_text(
                    exprs_view(e.arguments@),
                    0,
                ));
                while i < e.arguments.len()
                    invariant
                        i <= e.arguments.len(),
                        forall|k: int|
                            0 <= k < e.arguments.len() ==> decreases_to!(expr => #[trigger] e.arguments[k]),
                        head + exprs_text(exprs_view(e.arguments@), 0) == out@ + exprs_text(
                            exprs_view(e.arguments@),
                            i as int,
                        ),
                    decreases e.arguments.len() - i,
                {
                    let ghost before = out@;
                    out.append(" ");
                    self.write_expr(&e.arguments[i], out);
                    assert(before + exprs_text(exprs_view(e.arguments@), i as int) =~= out@ + exprs_text(
                        exprs_view(e.arguments@),
                        i + 1,
                    ));
                    i = i + 1;
                }
                let ghost listed = out@;
                out.append(")");
                assert(listed =~= head + exprs_text(exprs_view(e.arguments@), 0));
                assert(out@ =~= old(out)@ + ("(call "@ + expr_text(e.callee@) + exprs_text(
                    exprs_view(e.arguments@),
                    0,
                ) + ")"@));
            },
        }
    }

    /// Writes the statements of a list, each on a line of its own.
    fn write_stmts(&self, stmts: &Vec<Stmt>, out: &mut String)
        ensures
            final(out)@ == old(out)@ + stmts_text(stmts_view(stmts@), 0),
        decreases stmts, 0int,
    {
        let mut i: usize = 0;
        while i < stmts.len()
            invariant
                i <= stmts.len(),
                forall|k: int| 0 <= k < stmts.len() ==> decreases_to!(stmts => #[trigger] stmts[k]),
                old(out)@ + stmts_text(stmts_view(stmts@), 0) == out@ + stmts_text(stmts_view(stmts@), i as int),
            decreases stmts.len() - i,
        {
            let ghost before = out@;
            out.append("\n");
            self.write_stmt(&stmts[i], out);
            assert(before + stmts_text(stmts_view(stmts@), i as int) =~= out@ + stmts_text(
                stmts_view(stmts@),
                i + 1,
            ));
            i = i + 1;
        }
        assert(out@ + stmts_text(stmts_view(stmts@), i as int) =~= out@);
    }

    /// Writes the names of the parameters, each after a blank.
    fn write_params(&self, params: &Vec<Token>, out: &mut String)
        ensures
            final(out)@ == old(out)@ + params_text(tokens_view(params@), 0),
    {
        let mut i: usize = 0;
        while i < params.len()
            invariant
                i <= params.len(),
                old(out)@ + params_text(tokens_view(params@), 0) == out@ + params_text(
                    tokens_view(params@),
                    i as int,
                ),
            decreases params.len() - i,
        {
            let ghost before = out@;
            out.append(" ");
            out.append(params[i].lexeme.as_str());
            assert(before + params_text(tokens_view(params@), i as int) =~= out@ + params_text(
                tokens_view(params@),
                i + 1,
            ));
            i = i + 1;
        }
        assert(out@ + params_text(tokens_view(params@), i as int) =~= out@);
    }

    fn write_stmt(&self, stmt: &Stmt, out: &mut String)
        ensures
            final(out)@ == old(out)@ + stmt_text(stmt@),
        decreases stmt, 1int,
    {
        match stmt {
            Stmt::Expression(_) => self.visit_expression(stmt, out),
            Stmt::Print(_) => self.visit_print(stmt, out),
            Stmt::Var(_) => self.visit_var(stmt, out),
            Stmt::Block(_) => self.visit_block(stmt, out),
            Stmt::If(_) => self.visit_if(stmt, out),
            Stmt::While(_) => self.visit_while(stmt, out),
            Stmt::Function(_) => self.visit_function(stmt, out),
            Stmt::Return(_) => self.visit_return(stmt, out),
        }
    }

    fn visit_expression(&self, stmt: &Stmt, out: &mut String)
        requires
            stmt is Expression,
        ensures
            final(out)@ == old(out)@ + stmt_text(stmt@),
        decreases stmt, 0int,
    {
        match stmt {
            Stmt::Expression(s) => {
                out.append("( ");
                self.write_expr(&s.expression, out);
                out.append(" )");
                assert(out@ =~= old(out)@ + ("( "@ + expr_text(s.expression@) + " )"@));
            },
            _ => {},
        }
    }

    fn visit_print(&self, stmt: &Stmt, out: &mut String)
        requires
            stmt is Print,
        ensures
            final(out)@ == old(out)@ + stmt_text(stmt@),
        decreases stmt, 0int,
    {
        match stmt {
            Stmt::Print(s) => {
                out.append("(print ");
                self.write_expr(&s.expression, out);
                out.append(")");
                assert(out@ =~= old(out)@ + ("(print "@ + expr_text(s.expression@) + ")"@));
            },
            _ => {},
        }
    }

    fn visit_var(&self, stmt: &Stmt, out: &mut String)
        requires
            stmt is Var,
        ensures
            final(out)@ == old(out)@ + stmt_text(stmt@),
        decreases stmt, 0int,
    {
        match stmt {
            Stmt::Var(s) => {
                out.append("( var ");
                out.append(s.name.lexeme.as_str());
                match &s.initializer {
                    Some(value) => {
                        out.append(" = ");
                        self.write_expr(value, out);
                        out.append(" )");
                        assert(out@ =~= old(out)@ + ("( var "@ + s.name@.lexeme + " = "@ + expr_text(value@)
                            + " )"@));
                    },
                    None => {
                        out.append(" )");
                        assert(out@ =~= old(out)@ + ("( var "@ + s.name@.lexeme + " )"@));
                    },
                }
            },
            _ => {},
        }
    }

    fn visit_block(&self, stmt: &Stmt, out: &mut String)
        requires
            stmt is Block,
        ensures
            final(out)@ == old(out)@ + stmt_text(stmt@),
        decreases stmt, 0int,
    {
        match stmt {
            Stmt::Block(s) => {
                out.append("{");
                self.write_stmts(&s.statements, out);
                out.append("\n}");
                assert(out@ =~= old(out)@ + ("{"@ + stmts_text(stmts_view(s.statements@), 0) + "\n}"@));
            },
            _ => {},
        }
    }

    fn visit_if(&self, stmt: &Stmt, out: &mut String)
        requires
            stmt is If,
        ensures
            final(out)@ == old(out)@ + stmt_text(stmt@),
        decreases stmt, 0int,
    {
        match stmt {
            Stmt::If(s) => {
                out.append("if ");
                self.write_expr(&s.condition, out);
                out.append(" ( ");
                self.write_stmt(&s.then_branch, out);
                out.append(" ) ");
                match &s.else_branch {
                    Some(else_branch) => {
                        out.append(" else ( ");
                        self.write_stmt(else_branch, out);
                        out.append(" ) ");
                        out.append("\n");
                        assert(out@ =~= old(out)@ + ("if "@ + expr_text(s.condition@) + " ( "@ + stmt_text(
                            s.then_branch@,
                        ) + " ) "@ + " else ( "@ + stmt_text(else_branch@) + " ) "@ + "\n"@));
                    },
                    None => {
                        out.append("\n");
                        assert(out@ =~= old(out)@ + ("if "@ + expr_text(s.condition@) + " ( "@ + stmt_text(
                            s.then_branch@,
                        ) + " ) "@ + "\n"@));
                    },
                }
            },
            _ => {},
        }
    }

    fn visit_while(&self, stmt: &Stmt, out: &mut String)
        requires
            stmt is While,
        ensures
            final(out)@ == old(out)@ + stmt_text(stmt@),
        decreases stmt, 0int,
    {
        match stmt {
            Stmt::While(s) => {
                out.append("( while ");
                self.write_expr(&s.condition, out);
                out.append(" (");
                self.write_stmt(&s.body, out);
                out.append(")\n");
                assert(out@ =~= old(out)@ + ("( while "@ + expr_text(s.condition@) + " ("@ + stmt_text(s.body@)
                    + ")\n"@));
            },
            _ => {},
        }
    }

    fn visit_function(&self, stmt: &Stmt, out: &mut String)
        requires
            stmt is Function,
        ensures
            final(out)@ == old(out)@ + stmt_text(stmt@),
        decreases stmt, 0int,
    {
        match stmt {
            Stmt::Function(f) => {
                out.append("( fun ");
                out.append(f.name.lexeme.as_str());
                out.append(" (");
                self.write_params(&f.params, out);
                out.append(" ) {");
                self.write_stmts(&f.body.statements, out);
                out.append("\n} )");
                assert(f@.name == f.name@);
                assert(f@.params == tokens_view(f.params@));
                assert(f@.body == stmts_view(f.body.statements@));
                assert(out@ =~= old(out)@ + ("( fun "@ + f@.name.lexeme + " ("@ + params_text(f@.params, 0)
                    + " ) {"@ + stmts_text(f@.body, 0) + "\n} )"@));
                assert(stmt@ == StmtView::Function { declaration: f@ });
                assert(stmt_text(stmt@) == function_text(f@));
            },
            _ => {},
        }
    }

    fn visit_return(&self, stmt: &Stmt, out: &mut String)
        requires
            stmt is Return,
        ensures
            final(out)@ == old(out)@ + stmt_text(stmt@),
        decreases stmt, 0int,
    {
        match stmt {
            Stmt::Return(s) => {
                match &s.value {
                    Some(value) => {
                        out.append("(return ");
                        self.write_expr(value, out);
                        out.append(")");
                        assert(out@ =~= old(out)@ + ("(return "@ + expr_text(value@) + ")"@));
                    },
                    None => {
                        out.append("(return)");
                    },
                }
            },
            _ => {},
        }
    }
}

} // verus!
