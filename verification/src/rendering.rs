//! Rendering a tree back into tokens, and why parsing the rendering gives the
//! tree again.
//!
//! The rendering of a tree is the sequence of tokens that spells it: the
//! tokens that the tree keeps are written as they are, and the punctuation
//! that it does not keep is written anew. A tree as the parser makes it needs
//! no parentheses beyond its own `Group` nodes, because the parser nests
//! operators by their precedence.

use vstd::prelude::*;
use crate::ast::{ExprView, FunctionView, StmtView};
use crate::binding::is_declaration;
use crate::grammar;
use crate::grammar::{
    arguments, assignment, at_end, call, call_rest, condition, declaration, desugar_for, expression,
    finish_call, function, infix, infix_node, infix_rest, is_operator, operand, parameters, primary, program,
    statement, unary, Parse, MAX_ARITY,
};
use crate::number;
use crate::token::{LiteralView, TokenType, TokenView};

verus! {

/// How a kind of token that has one spelling is spelled.
pub open spec fn spelling(kind: TokenType) -> Seq<char> {
    match kind {
        TokenType::LEFTPAREN => "("@,
        TokenType::RIGHTPAREN => ")"@,
        TokenType::LEFTBRACE => "{"@,
        TokenType::RIGHTBRACE => "}"@,
        TokenType::COMMA => ","@,
        TokenType::SEMICOLON => ";"@,
        TokenType::EQUAL => "="@,
        TokenType::ELSE => "else"@,
        TokenType::FALSE => "false"@,
        TokenType::FUN => "fun"@,
        TokenType::IF => "if"@,
        TokenType::NIL => "nil"@,
        TokenType::PRINT => "print"@,
        TokenType::TRUE => "true"@,
        TokenType::VAR => "var"@,
        TokenType::WHILE => "while"@,
        _ => Seq::empty(),
    }
}

/// A token written anew: it has its kind and its spelling, and no place in a
/// source.
pub open spec fn mark(kind: TokenType) -> TokenView {
    TokenView { kind, lexeme: spelling(kind), literal: LiteralView::Nil, line: 0, offset: 0 }
}

/// The token that spells a literal.
pub open spec fn literal_token(value: LiteralView) -> TokenView {
    match value {
        LiteralView::Bool(b) => mark(
            if b {
                TokenType::TRUE
            } else {
                TokenType::FALSE
            },
        ),
        LiteralView::Nil => mark(TokenType::NIL),
        LiteralView::Number(bits) => TokenView {
            kind: TokenType::NUMBER,
            lexeme: number::text_of(bits),
            literal: value,
            line: 0,
            offset: 0,
        },
        LiteralView::Text(text) => TokenView {
            kind: TokenType::STRING,
            lexeme: "\""@ + text + "\""@,
            literal: value,
            line: 0,
            offset: 0,
        },
    }
}

/// The tokens that spell the arguments `args[i..]`, with commas between them.
pub open spec fn render_args(args: Seq<ExprView>, i: int) -> Seq<TokenView>
    decreases args, args.len() - i,
{
    if !(0 <= i < args.len()) {
        Seq::empty()
    } else if i + 1 < args.len() {
        render_expr(args[i]) + seq![mark(TokenType::COMMA)] + render_args(args, i + 1)
    } else {
        render_expr(args[i])
    }
}

/// The tokens that spell an expression.
pub open spec fn render_expr(e: ExprView) -> Seq<TokenView>
    decreases e,
{
    match e {
        ExprView::Binary { left, operator, right } => render_expr(*left) + seq![operator] + render_expr(*right),
        ExprView::Logical { left, operator, right } => render_expr(*left) + seq![operator] + render_expr(*right),
        ExprView::Group { expression } => seq![mark(TokenType::LEFTPAREN)] + render_expr(*expression) + seq![
            mark(TokenType::RIGHTPAREN),
        ],
        ExprView::Literal { value } => seq![literal_token(value)],
        ExprView::Unary { operator, right } => seq![operator] + render_expr(*right),
        ExprView::Variable { name, id } => seq![name],
        ExprView::Assign { name, value, id } => seq![name, mark(TokenType::EQUAL)] + render_expr(*value),
        ExprView::Call { callee, paren, arguments } => render_expr(*callee) + seq![mark(TokenType::LEFTPAREN)]
            + render_args(arguments, 0) + seq![paren],
    }
}

/// The arguments `args[i..]` with the ids that they get where their rendering
/// starts at `p`.
pub open spec fn relabel_args(args: Seq<ExprView>, i: int, p: int) -> Seq<ExprView>
    decreases args, args.len() - i,
{
    if !(0 <= i < args.len()) {
        Seq::empty()
    } else {
        seq![relabel_expr(args[i], p)] + relabel_args(args, i + 1, p + render_expr(args[i]).len() + 1)
    }
}

/// The expression with the ids that it gets where its rendering starts at
/// `p`: each variable has the place of the token that names it.
pub open spec fn relabel_expr(e: ExprView, p: int) -> ExprView
    decreases e,
{
    match e {
        ExprView::Binary { left, operator, right } => ExprView::Binary {
            left: Box::new(relabel_expr(*left, p)),
            operator,
            right: Box::new(relabel_expr(*right, p + render_expr(*left).len() + 1)),
        },
        ExprView::Logical { left, operator, right } => ExprView::Logical {
            left: Box::new(relabel_expr(*left, p)),
            operator,
            right: Box::new(relabel_expr(*right, p + render_expr(*left).len() + 1)),
        },
        ExprView::Group { expression } => ExprView::Group {
            expression: Box::new(relabel_expr(*expression, p + 1)),
        },
        ExprView::Literal { value } => e,
        ExprView::Unary { operator, right } => ExprView::Unary {
            operator,
            right: Box::new(relabel_expr(*right, p + 1)),
        },
        ExprView::Variable { name, id } => ExprView::Variable { name, id: p as usize },
        ExprView::Assign { name, value, id } => ExprView::Assign {
            name,
            value: Box::new(relabel_expr(*value, p + 2)),
            id: p as usize,
        },
        ExprView::Call { callee, paren, arguments } => ExprView::Call {
            callee: Box::new(relabel_expr(*callee, p)),
            paren,
            arguments: relabel_args(arguments, 0, p + render_expr(*callee).len() + 1),
        },
    }
}

/// The level of the infix operators of a kind, from 0 for the tightest; -1
/// for a kind that is no infix operator.
pub open spec fn level_of(kind: TokenType) -> int {
    if kind == TokenType::SLASH || kind == TokenType::STAR {
        0
    } else if kind == TokenType::MINUS || kind == TokenType::PLUS {
        1
    } else if kind == TokenType::GREATER || kind == TokenType::GREATEREQUAL || kind == TokenType::LESS
        || kind == TokenType::LESSEQUAL {
        2
    } else if kind == TokenType::BANGEQUAL || kind == TokenType::EQUALEQUAL {
        3
    } else if kind == TokenType::AND {
        4
    } else if kind == TokenType::OR {
        5
    } else {
        -1
    }
}

/// The rule of the grammar that makes an expression of this form: 0 for
/// `primary`, 1 for `call`, 2 for `unary`, 3 to 8 for the infix operators from
/// the tightest to the loosest, 9 for `assignment`.
pub open spec fn rank(e: ExprView) -> int {
    match e {
        ExprView::Literal { .. } => 0,
        ExprView::Variable { .. } => 0,
        ExprView::Group { .. } => 0,
        ExprView::Call { .. } => 1,
        ExprView::Unary { .. } => 2,
        ExprView::Binary { left, operator, right } => 3 + level_of(operator.kind),
        ExprView::Logical { left, operator, right } => 3 + level_of(operator.kind),
        ExprView::Assign { .. } => 9,
    }
}

/// An expression as the parser makes it: every operand stands where the
/// grammar lets an expression of its form stand, and every token that the
/// tree keeps is of the kind that the grammar asks for.
pub open spec fn canonical(e: ExprView) -> bool
    decreases e,
{
    match e {
        ExprView::Literal { value } => true,
        ExprView::Variable { name, id } => name.kind == TokenType::IDENTIFIER,
        ExprView::Group { expression } => canonical(*expression),
        ExprView::Call { callee, paren, arguments } => {
            &&& canonical(*callee)
            &&& rank(*callee) <= 1
            &&& paren.kind == TokenType::RIGHTPAREN
            &&& arguments.len() <= MAX_ARITY
            &&& all_canonical(arguments)
        },
        ExprView::Unary { operator, right } => {
            &&& (operator.kind == TokenType::BANG || operator.kind == TokenType::MINUS)
            &&& canonical(*right)
            &&& rank(*right) <= 2
        },
        ExprView::Binary { left, operator, right } => {
            &&& 0 <= level_of(operator.kind) <= 3
            &&& canonical(*left)
            &&& rank(*left) <= 3 + level_of(operator.kind)
            &&& canonical(*right)
            &&& rank(*right) < 3 + level_of(operator.kind)
        },
        ExprView::Logical { left, operator, right } => {
            &&& 4 <= level_of(operator.kind) <= 5
            &&& canonical(*left)
            &&& rank(*left) <= 3 + level_of(operator.kind)
            &&& canonical(*right)
            &&& rank(*right) < 3 + level_of(operator.kind)
        },
        ExprView::Assign { name, value, id } => name.kind == TokenType::IDENTIFIER && canonical(*value),
    }
}

/// Every expression of the sequence is as the parser makes it.
pub open spec fn all_canonical(es: Seq<ExprView>) -> bool
    decreases es,
{
    forall|i: int| 0 <= i < es.len() ==> canonical(#[trigger] es[i])
}

/// The tokens `toks` stand in `ts` from `p` on.
#[verifier::opaque]
pub open spec fn holds(ts: Seq<TokenView>, p: int, toks: Seq<TokenView>) -> bool {
    &&& 0 <= p
    &&& p + toks.len() <= ts.len()
    &&& forall|i: int| 0 <= i < toks.len() ==> ts[p + i] == #[trigger] toks[i]
}

/// What the grammar makes of the tokens from `p` on, by the rule for a rank.
pub open spec fn parse_at(ts: Seq<TokenView>, p: int, level: int) -> Parse<ExprView> {
    if level <= 0 {
        primary(ts, p)
    } else if level == 1 {
        call(ts, p)
    } else if level == 2 {
        unary(ts, p)
    } else if level <= 8 {
        infix(ts, p, (level - 3) as u8)
    } else {
        assignment(ts, p)
    }
}

/// A token of this kind ends an expression parsed by the rule for a rank: it
/// is no parenthesis that opens a call, no infix operator of the rank or of a
/// tighter one and, for an assignment, no `=`.
pub open spec fn stops(kind: TokenType, level: int) -> bool {
    &&& level >= 1 ==> kind != TokenType::LEFTPAREN
    &&& level >= 3 ==> level_of(kind) < 0 || level_of(kind) > level - 3
    &&& level >= 9 ==> kind != TokenType::EQUAL
}

/// A kind of token that can start an expression.
pub open spec fn starts_expression(kind: TokenType) -> bool {
    starts_primary(kind) || kind == TokenType::BANG || kind == TokenType::MINUS
}

/// A kind of token that can start a primary expression.
pub open spec fn starts_primary(kind: TokenType) -> bool {
    kind == TokenType::FALSE || kind == TokenType::TRUE || kind == TokenType::NIL || kind == TokenType::NUMBER
        || kind == TokenType::STRING || kind == TokenType::IDENTIFIER || kind == TokenType::LEFTPAREN
}

/// Tokens that stand in `ts` stand there part by part.
pub proof fn lemma_holds_split(ts: Seq<TokenView>, p: int, a: Seq<TokenView>, b: Seq<TokenView>)
    requires
        holds(ts, p, a + b),
    ensures
        holds(ts, p, a),
        holds(ts, p + a.len(), b),
{
    reveal(holds);
    assert forall|i: int| 0 <= i < a.len() implies ts[p + i] == #[trigger] a[i] by {
        assert((a + b)[i] == a[i]);
    }
    assert forall|i: int| 0 <= i < b.len() implies ts[p + a.len() + i] == #[trigger] b[i] by {
        assert((a + b)[a.len() + i] == b[i]);
    }
}

/// The operators of a level are the kinds of that level.
pub proof fn lemma_level_operator(kind: TokenType, level: u8)
    requires
        level <= 5,
    ensures
        is_operator(level, kind) == (level_of(kind) == level),
{
}

/// An expression as the parser makes it is rendered with at least one token,
/// and the first one can start an expression; where the expression is no
/// unary one or looser, it can start a primary expression.
pub proof fn lemma_first_token(e: ExprView)
    requires
        canonical(e),
    ensures
        render_expr(e).len() > 0,
        starts_expression(render_expr(e)[0].kind),
        rank(e) <= 1 ==> starts_primary(render_expr(e)[0].kind),
    decreases e,
{
    match e {
        ExprView::Binary { left, operator, right } => {
            lemma_first_token(*left);
            assert(render_expr(e)[0] == render_expr(*left)[0]);
        },
        ExprView::Logical { left, operator, right } => {
            lemma_first_token(*left);
            assert(render_expr(e)[0] == render_expr(*left)[0]);
        },
        ExprView::Group { expression } => {},
        ExprView::Literal { value } => {},
        ExprView::Unary { operator, right } => {},
        ExprView::Variable { name, id } => {},
        ExprView::Assign { name, value, id } => {},
        ExprView::Call { callee, paren, arguments } => {
            lemma_first_token(*callee);
            assert(render_expr(e)[0] == render_expr(*callee)[0]);
        },
    }
}

/// A token that ends an expression of one rank ends those of the tighter
/// ranks.
pub proof fn lemma_stops_tighter(kind: TokenType, level: int, tighter: int)
    requires
        stops(kind, level),
        tighter <= level,
    ensures
        stops(kind, tighter),
{
}

/// Where a primary expression is parsed, a token stands that can start one.
pub proof fn lemma_primary_start(ts: Seq<TokenView>, p: int)
    requires
        primary(ts, p) is Done,
    ensures
        starts_primary(ts[p].kind),
        !at_end(ts, p),
{
}

/// What a tighter rule makes of the tokens, a looser rule makes too, where
/// the token behind ends an expression of the looser rule.
pub proof fn lemma_lift(ts: Seq<TokenView>, p: int, value: ExprView, q: int, from: int, to: int)
    requires
        0 <= from <= to <= 9,
        parse_at(ts, p, from) == (Parse::Done { value, next: q }),
        p <= q < ts.len(),
        stops(ts[q].kind, to),
    ensures
        parse_at(ts, p, to) == (Parse::Done { value, next: q }),
    decreases to - from,
{
    if from < to {
        lemma_stops_tighter(ts[q].kind, to, to - 1);
        lemma_lift(ts, p, value, q, from, to - 1);
        assert(parse_at(ts, p, to - 1) == (Parse::Done { value, next: q }));
        if to == 1 {
            assert(call_rest(ts, value, q) == (Parse::Done { value, next: q }));
        } else if to == 2 {
            assert(call(ts, p) is Done);
            assert(primary(ts, p) is Done);
            lemma_primary_start(ts, p);
        } else if to <= 8 {
            let k = (to - 3) as u8;
            lemma_level_operator(ts[q].kind, k);
            assert(operand(ts, p, k) == parse_at(ts, p, to - 1));
            assert(infix_rest(ts, value, q, k) == (Parse::Done { value, next: q }));
        } else {
            assert(infix(ts, p, grammar::OR) == parse_at(ts, p, 8));
        }
    }
}

/// Parsing the rendering of an expression gives the expression again, with
/// the ids of the places where it is rendered. The rule of the grammar is the
/// one for the rank of the expression or a looser one, and the token behind
/// the rendering ends an expression of that rule.
pub proof fn lemma_reparse(ts: Seq<TokenView>, p: int, e: ExprView, level: int)
    requires
        canonical(e),
        rank(e) <= level <= 9,
        holds(ts, p, render_expr(e)),
        p + render_expr(e).len() < ts.len(),
        stops(ts[p + render_expr(e).len()].kind, level),
    ensures
        parse_at(ts, p, level) == (Parse::Done { value: relabel_expr(e, p), next: p + render_expr(e).len() }),
    decreases e, level, 1int,
{
    reveal(holds);
    let q = p + render_expr(e).len();
    if level <= 0 {
        lemma_reparse_primary(ts, p, e);
    } else if level == 1 {
        lemma_call_chain(ts, p, e);
    } else if level == 2 {
        lemma_reparse_unary(ts, p, e);
    } else if level <= 8 {
        let k = (level - 3) as u8;
        lemma_stops_tighter(ts[q].kind, level, level - 1);
        lemma_chain(ts, p, e, k);
        lemma_level_operator(ts[q].kind, k);
    } else {
        lemma_reparse_assignment(ts, p, e);
    }
}

/// Parsing the rendering of a primary expression gives the expression again.
pub proof fn lemma_reparse_primary(ts: Seq<TokenView>, p: int, e: ExprView)
    requires
        canonical(e),
        rank(e) <= 0,
        holds(ts, p, render_expr(e)),
        p + render_expr(e).len() < ts.len(),
    ensures
        primary(ts, p) == (Parse::Done { value: relabel_expr(e, p), next: p + render_expr(e).len() }),
    decreases e, 0int, 0int,
{
    reveal(holds);
    lemma_first_token(e);
    assert(ts[p] == render_expr(e)[0]);
    match e {
        ExprView::Literal { value } => {},
        ExprView::Variable { name, id } => {},
        ExprView::Group { expression: inner } => {
            let open = seq![mark(TokenType::LEFTPAREN)];
            let close = seq![mark(TokenType::RIGHTPAREN)];
            lemma_holds_split(ts, p, open + render_expr(*inner), close);
            lemma_holds_split(ts, p, open, render_expr(*inner));
            let inner_end = p + 1 + render_expr(*inner).len();
            assert(ts[inner_end] == close[0]);
            lemma_reparse(ts, p + 1, *inner, 9);
            assert(expression(ts, p + 1) == assignment(ts, p + 1));
        },
        _ => {},
    }
}

/// Parsing the rendering of a unary expression, or of a tighter one, by the
/// rule for unary expressions gives the expression again.
pub proof fn lemma_reparse_unary(ts: Seq<TokenView>, p: int, e: ExprView)
    requires
        canonical(e),
        rank(e) <= 2,
        holds(ts, p, render_expr(e)),
        p + render_expr(e).len() < ts.len(),
        stops(ts[p + render_expr(e).len()].kind, 2),
    ensures
        unary(ts, p) == (Parse::Done { value: relabel_expr(e, p), next: p + render_expr(e).len() }),
    decreases e, 2int, 0int,
{
    reveal(holds);
    let q = p + render_expr(e).len();
    lemma_first_token(e);
    assert(ts[p] == render_expr(e)[0]);
    match e {
        ExprView::Unary { operator, right } => {
            lemma_holds_split(ts, p, seq![operator], render_expr(*right));
            assert(ts[p] == seq![operator][0]);
            lemma_reparse(ts, p + 1, *right, 2);
        },
        _ => {
            lemma_stops_tighter(ts[q].kind, 2, 1);
            lemma_reparse(ts, p, e, 1);
            lemma_lift(ts, p, relabel_expr(e, p), q, 1, 2);
        },
    }
}

/// Parsing the rendering of any expression by the rule for assignments gives
/// the expression again.
pub proof fn lemma_reparse_assignment(ts: Seq<TokenView>, p: int, e: ExprView)
    requires
        canonical(e),
        rank(e) <= 9,
        holds(ts, p, render_expr(e)),
        p + render_expr(e).len() < ts.len(),
        stops(ts[p + render_expr(e).len()].kind, 9),
    ensures
        assignment(ts, p) == (Parse::Done { value: relabel_expr(e, p), next: p + render_expr(e).len() }),
    decreases e, 9int, 0int,
{
    reveal(holds);
    let q = p + render_expr(e).len();
    lemma_first_token(e);
    assert(ts[p] == render_expr(e)[0]);
    match e {
        ExprView::Assign { name, value, id } => {
            let head = seq![name, mark(TokenType::EQUAL)];
            lemma_holds_split(ts, p, head, render_expr(*value));
            assert(ts[p] == head[0]);
            assert(ts[p + 1] == head[1]);
            let target = ExprView::Variable { name, id: p as usize };
            assert(primary(ts, p) == (Parse::Done { value: target, next: p + 1 }));
            lemma_lift(ts, p, target, p + 1, 0, 8);
            assert(infix(ts, p, grammar::OR) == (Parse::Done { value: target, next: p + 1 }));
            lemma_reparse(ts, p + 2, *value, 9);
        },
        _ => {
            lemma_stops_tighter(ts[q].kind, 9, 8);
            lemma_reparse(ts, p, e, 8);
            lemma_lift(ts, p, relabel_expr(e, p), q, 8, 9);
        },
    }
}

/// Parsing the rendering of an expression as a chain of infix operators of a
/// level reaches the state, in the loop over the operators, in which the
/// expression is the left operand.
pub proof fn lemma_chain(ts: Seq<TokenView>, p: int, e: ExprView, k: u8)
    requires
        k <= 5,
        canonical(e),
        rank(e) <= 3 + k,
        holds(ts, p, render_expr(e)),
        p + render_expr(e).len() < ts.len(),
        stops(ts[p + render_expr(e).len()].kind, 2 + k),
    ensures
        infix(ts, p, k) == infix_rest(ts, relabel_expr(e, p), p + render_expr(e).len(), k),
    decreases e, 3 + k, 0int,
{
    reveal(holds);
    let q = p + render_expr(e).len();
    lemma_first_token(e);
    if rank(e) <= 2 + k {
        lemma_reparse(ts, p, e, 2 + k);
        assert(operand(ts, p, k) == parse_at(ts, p, 2 + k));
    } else {
        let (left, operator, right) = match e {
            ExprView::Binary { left, operator, right } => (*left, operator, *right),
            ExprView::Logical { left, operator, right } => (*left, operator, *right),
            _ => (e, mark(TokenType::EOF), e),
        };
        assert(level_of(operator.kind) == k);
        assert(render_expr(e) == render_expr(left) + seq![operator] + render_expr(right));
        lemma_holds_split(ts, p, render_expr(left) + seq![operator], render_expr(right));
        lemma_holds_split(ts, p, render_expr(left), seq![operator]);
        let at = p + render_expr(left).len();
        assert(ts[at] == seq![operator][0]);
        lemma_chain(ts, p, left, k);
        lemma_level_operator(operator.kind, k);
        lemma_reparse(ts, at + 1, right, 2 + k);
        assert(operand(ts, at + 1, k) == parse_at(ts, at + 1, 2 + k));
        assert(infix_node(k, relabel_expr(left, p), operator, relabel_expr(right, at + 1)) == relabel_expr(e, p));
        assert(infix_rest(ts, relabel_expr(left, p), at, k) == infix_rest(ts, relabel_expr(e, p), q, k));
    }
}

/// Parsing the rendering of a callee with its calls reaches the state, in the
/// loop over the calls, in which the whole is the callee.
pub proof fn lemma_call_chain(ts: Seq<TokenView>, p: int, e: ExprView)
    requires
        canonical(e),
        rank(e) <= 1,
        holds(ts, p, render_expr(e)),
        p + render_expr(e).len() < ts.len(),
    ensures
        call(ts, p) == call_rest(ts, relabel_expr(e, p), p + render_expr(e).len()),
    decreases e, 1int, 0int,
{
    reveal(holds);
    let q = p + render_expr(e).len();
    match e {
        ExprView::Call { callee, paren, arguments: args } => {
            let open = seq![mark(TokenType::LEFTPAREN)];
            let head = render_expr(*callee) + open;
            lemma_holds_split(ts, p, head + render_args(args, 0), seq![paren]);
            lemma_holds_split(ts, p, head, render_args(args, 0));
            lemma_holds_split(ts, p, render_expr(*callee), open);
            let at = p + render_expr(*callee).len();
            assert(ts[at] == open[0]);
            let last = at + 1 + render_args(args, 0).len();
            assert(ts[last] == seq![paren][0]);
            lemma_call_chain(ts, p, *callee);
            let target = relabel_expr(*callee, p);
            if args.len() == 0 {
                assert(relabel_args(args, 0, at + 1) =~= Seq::<ExprView>::empty());
            } else {
                assert(all_canonical(args));
                assert(canonical(args[0]));
                lemma_first_token(args[0]);
                lemma_render_args_first(args, 0);
                assert(ts[at + 1] == render_args(args, 0)[0]);
                lemma_args(ts, at + 1, args, 0, Seq::empty());
                assert(Seq::<ExprView>::empty() + relabel_args(args, 0, at + 1) =~= relabel_args(args, 0, at + 1));
            }
            assert(finish_call(ts, target, at + 1) == (Parse::Done { value: relabel_expr(e, p), next: q }));
        },
        _ => {
            lemma_reparse_primary(ts, p, e);
        },
    }
}

/// The rendering of arguments starts with the rendering of the first.
pub proof fn lemma_render_args_first(args: Seq<ExprView>, i: int)
    requires
        0 <= i < args.len(),
        all_canonical(args),
    ensures
        render_args(args, i).len() > 0,
        render_args(args, i)[0] == render_expr(args[i])[0],
{
    lemma_first_token(args[i]);
}

/// Parsing the rendering of the arguments of a call gives the arguments
/// again.
pub proof fn lemma_args(ts: Seq<TokenView>, p: int, args: Seq<ExprView>, i: int, acc: Seq<ExprView>)
    requires
        all_canonical(args),
        args.len() <= MAX_ARITY,
        0 <= i < args.len(),
        acc.len() == i,
        holds(ts, p, render_args(args, i)),
        p + render_args(args, i).len() < ts.len(),
        ts[p + render_args(args, i).len()].kind == TokenType::RIGHTPAREN,
    ensures
        arguments(ts, p, acc) == (Parse::Done {
            value: acc + relabel_args(args, i, p),
            next: p + render_args(args, i).len(),
        }),
    decreases args, args.len() - i, 0int,
{
    reveal(holds);
    let e = args[i];
    let end = p + render_expr(e).len();
    if i + 1 < args.len() {
        let comma = seq![mark(TokenType::COMMA)];
        lemma_holds_split(ts, p, render_expr(e) + comma, render_args(args, i + 1));
        lemma_holds_split(ts, p, render_expr(e), comma);
        assert(ts[end] == comma[0]);
        lemma_reparse(ts, p, e, 9);
        assert(expression(ts, p) == assignment(ts, p));
        lemma_args(ts, end + 1, args, i + 1, acc.push(relabel_expr(e, p)));
        assert(acc.push(relabel_expr(e, p)) + relabel_args(args, i + 1, end + 1) =~= acc + relabel_args(
            args,
            i,
            p,
        ));
    } else {
        lemma_reparse(ts, p, e, 9);
        assert(expression(ts, p) == assignment(ts, p));
        assert(relabel_args(args, i + 1, end + 1) =~= Seq::<ExprView>::empty());
        assert(acc.push(relabel_expr(e, p)) =~= acc + relabel_args(args, i, p));
    }
}

/// The tokens that name the parameters `params[i..]`, with commas between
/// them.
pub open spec fn render_params(params: Seq<TokenView>, i: int) -> Seq<TokenView>
    decreases params.len() - i,
{
    if !(0 <= i < params.len()) {
        Seq::empty()
    } else if i + 1 < params.len() {
        seq![params[i], mark(TokenType::COMMA)] + render_params(params, i + 1)
    } else {
        seq![params[i]]
    }
}

/// The tokens that spell the statements `ss[i..]`.
pub open spec fn render_items(ss: Seq<StmtView>, i: int) -> Seq<TokenView>
    decreases ss, ss.len() - i,
{
    if !(0 <= i < ss.len()) {
        Seq::empty()
    } else {
        render_stmt(ss[i]) + render_items(ss, i + 1)
    }
}

/// The tokens that spell a statement.
pub open spec fn render_stmt(s: StmtView) -> Seq<TokenView>
    decreases s,
{
    match s {
        StmtView::Expression { expression } => render_expr(expression) + seq![mark(TokenType::SEMICOLON)],
        StmtView::Print { expression } => seq![mark(TokenType::PRINT)] + render_expr(expression) + seq![
            mark(TokenType::SEMICOLON),
        ],
        StmtView::Var { name, initializer } => match initializer {
            Some(e) => seq![mark(TokenType::VAR), name, mark(TokenType::EQUAL)] + render_expr(e) + seq![
                mark(TokenType::SEMICOLON),
            ],
            None => seq![mark(TokenType::VAR), name, mark(TokenType::SEMICOLON)],
        },
        StmtView::Block { statements } => seq![mark(TokenType::LEFTBRACE)] + render_items(statements, 0) + seq![
            mark(TokenType::RIGHTBRACE),
        ],
        StmtView::If { condition, then_branch, else_branch } => match else_branch {
            Some(else_branch) => seq![mark(TokenType::IF), mark(TokenType::LEFTPAREN)] + render_expr(condition)
                + seq![mark(TokenType::RIGHTPAREN)] + render_stmt(*then_branch) + seq![mark(TokenType::ELSE)]
                + render_stmt(*else_branch),
            None => seq![mark(TokenType::IF), mark(TokenType::LEFTPAREN)] + render_expr(condition) + seq![
                mark(TokenType::RIGHTPAREN),
            ] + render_stmt(*then_branch),
        },
        StmtView::While { condition, body } => seq![mark(TokenType::WHILE), mark(TokenType::LEFTPAREN)]
            + render_expr(condition) + seq![mark(TokenType::RIGHTPAREN)] + render_stmt(*body),
        StmtView::Function { declaration } => seq![
            mark(TokenType::FUN),
            declaration.name,
            mark(TokenType::LEFTPAREN),
        ] + render_params(declaration.params, 0) + seq![mark(TokenType::RIGHTPAREN), mark(TokenType::LEFTBRACE)]
            + render_items(declaration.body, 0) + seq![mark(TokenType::RIGHTBRACE)],
        StmtView::Return { keyword, value } => match value {
            Some(e) => seq![keyword] + render_expr(e) + seq![mark(TokenType::SEMICOLON)],
            None => seq![keyword, mark(TokenType::SEMICOLON)],
        },
    }
}

/// The tokens that spell a program: its statements, and the end of the
/// stream.
pub open spec fn render_program(ss: Seq<StmtView>) -> Seq<TokenView> {
    render_items(ss, 0) + seq![mark(TokenType::EOF)]
}

/// The statements `ss[i..]` with the ids that they get where their rendering
/// starts at `p`.
pub open spec fn relabel_items(ss: Seq<StmtView>, i: int, p: int) -> Seq<StmtView>
    decreases ss, ss.len() - i,
{
    if !(0 <= i < ss.len()) {
        Seq::empty()
    } else {
        seq![relabel_stmt(ss[i], p)] + relabel_items(ss, i + 1, p + render_stmt(ss[i]).len())
    }
}

/// The statement with the ids that it gets where its rendering starts at
/// `p`.
pub open spec fn relabel_stmt(s: StmtView, p: int) -> StmtView
    decreases s,
{
    match s {
        StmtView::Expression { expression } => StmtView::Expression { expression: relabel_expr(expression, p) },
        StmtView::Print { expression } => StmtView::Print { expression: relabel_expr(expression, p + 1) },
        StmtView::Var { name, initializer } => StmtView::Var {
            name,
            initializer: match initializer {
                Some(e) => Some(relabel_expr(e, p + 3)),
                None => None,
            },
        },
        StmtView::Block { statements } => StmtView::Block { statements: relabel_items(statements, 0, p + 1) },
        StmtView::If { condition, then_branch, else_branch } => {
            let then_at = p + 3 + render_expr(condition).len();
            StmtView::If {
                condition: relabel_expr(condition, p + 2),
                then_branch: Box::new(relabel_stmt(*then_branch, then_at)),
                else_branch: match else_branch {
                    Some(else_branch) => Some(
                        Box::new(relabel_stmt(*else_branch, then_at + render_stmt(*then_branch).len() + 1)),
                    ),
                    None => None,
                },
            }
        },
        StmtView::While { condition, body } => StmtView::While {
            condition: relabel_expr(condition, p + 2),
            body: Box::new(relabel_stmt(*body, p + 3 + render_expr(condition).len())),
        },
        StmtView::Function { declaration } => StmtView::Function {
            declaration: FunctionView {
                name: declaration.name,
                params: declaration.params,
                body: relabel_items(declaration.body, 0, p + 5 + render_params(declaration.params, 0).len()),
            },
        },
        StmtView::Return { keyword, value } => StmtView::Return {
            keyword,
            value: match value {
                Some(e) => Some(relabel_expr(e, p + 1)),
                None => None,
            },
        },
    }
}

/// An `else` behind the statement would belong to no `if` inside it.
pub open spec fn closed(s: StmtView) -> bool
    decreases s,
{
    match s {
        StmtView::If { condition, then_branch, else_branch } => match else_branch {
            Some(else_branch) => closed(*else_branch),
            None => false,
        },
        StmtView::While { condition, body } => closed(*body),
        _ => true,
    }
}

/// An expression that may be absent, as the parser makes it.
pub open spec fn canonical_option(e: Option<ExprView>) -> bool {
    match e {
        Some(e) => canonical(e),
        None => true,
    }
}

/// Every token of the sequence is an identifier.
pub open spec fn all_identifiers(tokens: Seq<TokenView>) -> bool {
    forall|i: int| 0 <= i < tokens.len() ==> (#[trigger] tokens[i]).kind == TokenType::IDENTIFIER
}

/// A statement as the parser makes it: its expressions are as the parser
/// makes them, its declarations stand in lists of statements, the tokens that
/// it keeps are of the kinds that the grammar asks for, and where an `if` has
/// an `else`, the `else` could belong to no `if` inside the first branch.
pub open spec fn canonical_stmt(s: StmtView) -> bool
    decreases s,
{
    match s {
        StmtView::Expression { expression } => canonical(expression),
        StmtView::Print { expression } => canonical(expression),
        StmtView::Var { name, initializer } => name.kind == TokenType::IDENTIFIER && canonical_option(
            initializer,
        ),
        StmtView::Block { statements } => canonical_items(statements),
        StmtView::If { condition, then_branch, else_branch } => {
            &&& canonical(condition)
            &&& canonical_stmt(*then_branch)
            &&& !is_declaration(*then_branch)
            &&& match else_branch {
                Some(else_branch) => canonical_stmt(*else_branch) && !is_declaration(*else_branch) && closed(
                    *then_branch,
                ),
                None => true,
            }
        },
        StmtView::While { condition, body } => canonical(condition) && canonical_stmt(*body) && !is_declaration(
            *body,
        ),
        StmtView::Function { declaration } => {
            &&& declaration.name.kind == TokenType::IDENTIFIER
            &&& declaration.params.len() <= MAX_ARITY
            &&& all_identifiers(declaration.params)
            &&& canonical_items(declaration.body)
        },
        StmtView::Return { keyword, value } => keyword.kind == TokenType::RETURN && canonical_option(value),
    }
}

/// Every statement of the sequence is as the parser makes it.
pub open spec fn canonical_items(ss: Seq<StmtView>) -> bool
    decreases ss,
{
    forall|i: int| 0 <= i < ss.len() ==> canonical_stmt(#[trigger] ss[i])
}

/// A statement as the parser makes it is rendered with at least one token,
/// and the first one tells what the statement is.
pub proof fn lemma_first_stmt_token(s: StmtView)
    requires
        canonical_stmt(s),
    ensures
        render_stmt(s).len() > 0,
        match s {
            StmtView::Expression { .. } => starts_expression(render_stmt(s)[0].kind),
            StmtView::Print { .. } => render_stmt(s)[0].kind == TokenType::PRINT,
            StmtView::Var { .. } => render_stmt(s)[0].kind == TokenType::VAR,
            StmtView::Block { .. } => render_stmt(s)[0].kind == TokenType::LEFTBRACE,
            StmtView::If { .. } => render_stmt(s)[0].kind == TokenType::IF,
            StmtView::While { .. } => render_stmt(s)[0].kind == TokenType::WHILE,
            StmtView::Function { .. } => render_stmt(s)[0].kind == TokenType::FUN,
            StmtView::Return { .. } => render_stmt(s)[0].kind == TokenType::RETURN,
        },
{
    match s {
        StmtView::Expression { expression } => {
            lemma_first_token(expression);
            assert(render_stmt(s)[0] == render_expr(expression)[0]);
        },
        StmtView::Print { expression } => {
            assert(render_stmt(s)[0] == mark(TokenType::PRINT));
        },
        StmtView::Var { name, initializer } => {
            match initializer {
                Some(e) => {
                    assert(render_stmt(s)[0] == mark(TokenType::VAR));
                },
                None => {},
            }
        },
        StmtView::Block { statements } => {
            assert(render_stmt(s)[0] == mark(TokenType::LEFTBRACE));
        },
        StmtView::If { condition, then_branch, else_branch } => {
            match else_branch {
                Some(else_branch) => {
                    assert(render_stmt(s)[0] == mark(TokenType::IF));
                },
                None => {
                    assert(render_stmt(s)[0] == mark(TokenType::IF));
                },
            }
        },
        StmtView::While { condition, body } => {
            assert(render_stmt(s)[0] == mark(TokenType::WHILE));
        },
        StmtView::Function { declaration } => {
            assert(render_stmt(s)[0] == mark(TokenType::FUN));
        },
        StmtView::Return { keyword, value } => {
            match value {
                Some(e) => {
                    assert(render_stmt(s)[0] == keyword);
                },
                None => {},
            }
        },
    }
}

/// Parsing the rendering of the parameters of a function gives the
/// parameters again.
pub proof fn lemma_reparse_params(ts: Seq<TokenView>, p: int, params: Seq<TokenView>, i: int, acc: Seq<TokenView>)
    requires
        all_identifiers(params),
        params.len() <= MAX_ARITY,
        0 <= i < params.len(),
        acc.len() == i,
        holds(ts, p, render_params(params, i)),
        p + render_params(params, i).len() < ts.len(),
        ts[p + render_params(params, i).len()].kind != TokenType::COMMA,
    ensures
        parameters(ts, p, acc) == (Parse::Done {
            value: acc + params.subrange(i, params.len() as int),
            next: p + render_params(params, i).len(),
        }),
    decreases params.len() - i,
{
    reveal(holds);
    if i + 1 < params.len() {
        let head = seq![params[i], mark(TokenType::COMMA)];
        lemma_holds_split(ts, p, head, render_params(params, i + 1));
        assert(ts[p] == head[0]);
        assert(ts[p + 1] == head[1]);
        lemma_reparse_params(ts, p + 2, params, i + 1, acc.push(params[i]));
        assert(acc.push(params[i]) + params.subrange(i + 1, params.len() as int) =~= acc + params.subrange(
            i,
            params.len() as int,
        ));
    } else {
        assert(ts[p] == seq![params[i]][0]);
        assert(acc.push(params[i]) =~= acc + params.subrange(i, params.len() as int));
    }
}

/// Parsing the rendering of an expression as a whole expression gives the
/// expression again, where the token behind it ends every expression.
pub proof fn lemma_reparse_expression(ts: Seq<TokenView>, p: int, e: ExprView)
    requires
        canonical(e),
        holds(ts, p, render_expr(e)),
        p + render_expr(e).len() < ts.len(),
        stops(ts[p + render_expr(e).len()].kind, 9),
    ensures
        expression(ts, p) == (Parse::Done { value: relabel_expr(e, p), next: p + render_expr(e).len() }),
{
    lemma_reparse(ts, p, e, 9);
    assert(expression(ts, p) == assignment(ts, p));
}

/// Parsing the rendering of a condition in its parentheses gives the
/// condition again.
pub proof fn lemma_reparse_condition(
    ts: Seq<TokenView>,
    p: int,
    e: ExprView,
    opening: crate::errors::ParseErrorKind,
    closing: crate::errors::ParseErrorKind,
)
    requires
        canonical(e),
        holds(ts, p, seq![mark(TokenType::LEFTPAREN)] + render_expr(e) + seq![mark(TokenType::RIGHTPAREN)]),
        p + render_expr(e).len() + 2 < ts.len(),
    ensures
        condition(ts, p, opening, closing) == (Parse::Done {
            value: relabel_expr(e, p + 1),
            next: p + render_expr(e).len() + 2,
        }),
{
    reveal(holds);
    let open = seq![mark(TokenType::LEFTPAREN)];
    let close = seq![mark(TokenType::RIGHTPAREN)];
    lemma_holds_split(ts, p, open + render_expr(e), close);
    lemma_holds_split(ts, p, open, render_expr(e));
    assert(ts[p] == open[0]);
    assert(ts[p + 1 + render_expr(e).len()] == close[0]);
    lemma_reparse_expression(ts, p + 1, e);
}

/// Rewriting a `for` statement gives a statement as the parser makes it,
/// which is closed unless it is the loop alone around a body that is not.
pub proof fn lemma_desugar_for_canonical(
    initializer: Option<StmtView>,
    condition: Option<ExprView>,
    increment: Option<ExprView>,
    body: StmtView,
)
    requires
        match initializer {
            Some(s) => canonical_stmt(s),
            None => true,
        },
        canonical_option(condition),
        canonical_option(increment),
        canonical_stmt(body),
        !is_declaration(body),
    ensures
        canonical_stmt(desugar_for(initializer, condition, increment, body)),
        !closed(desugar_for(initializer, condition, increment, body)) ==> !closed(body),
{
    let inner = match increment {
        Some(increment) => StmtView::Block {
            statements: seq![body, StmtView::Expression { expression: increment }],
        },
        None => body,
    };
    assert(canonical_stmt(inner) && !is_declaration(inner) && (!closed(inner) ==> !closed(body))) by {
        match increment {
            Some(increment) => {
                let last = StmtView::Expression { expression: increment };
                let items = seq![body, last];
                assert(items[0] == body);
                assert(items[1] == last);
                assert(canonical_stmt(last));
                assert(canonical_items(items));
            },
            None => {},
        }
    }
    let test = match condition {
        Some(condition) => condition,
        None => ExprView::Literal { value: LiteralView::Bool(true) },
    };
    assert(canonical(test));
    let repeat = StmtView::While { condition: test, body: Box::new(inner) };
    assert(canonical_stmt(repeat));
    assert(closed(repeat) == closed(inner));
    match initializer {
        Some(initializer) => {
            let items = seq![initializer, repeat];
            assert(items[0] == initializer);
            assert(items[1] == repeat);
            assert(canonical_items(items));
        },
        None => {},
    }
}

} // verus!
