//! Compiling moves forward.
//!
//! No step of the compiler adds to what is left to parse, and an expression,
//! a statement and a declaration take at least one token unless the source
//! has ended. So the comparisons in the definitions of `parsing` always hold,
//! and the definitions are the plain loops that they stand for.

use vstd::prelude::*;
use crate::chunk::Op;
use crate::parsing::{
    binary_code,
    lemma_advance,
    lemma_parse_precedence,
    lemma_synchronize,
    rule,
    Emitting,
    ParseFn,
    ParserView,
    Parsing,
    Precedence,
};
use crate::scanner::TokenType;

verus! {

/// Whether a step from `before` to `after` adds nothing to what is left to
/// parse.
pub open spec fn no_more(before: Parsing, after: Parsing, src: Seq<char>) -> bool {
    after.measure(src) <= before.measure(src)
}

/// Whether a step from `before` to `after` leaves less to parse, or as much
/// where the source has ended.
pub open spec fn forward(before: Parsing, after: Parsing, src: Seq<char>) -> bool {
    &&& after.measure(src) <= before.measure(src)
    &&& before.parser.current.token_type != TokenType::EOF ==> after.measure(src)
        < before.measure(src)
}

proof fn lemma_collisions_keep_tokens(p: ParserView, src: Seq<char>, count: nat)
    ensures
        p.collisions(src, count).current == p.current,
    decreases count,
{
    if !(count == 0 || count > p.locals.len() || p.locals[count - 1].depth != p.scope_depth) {
        lemma_collisions_keep_tokens(
            p.error_at_current("Variable with this name already declared in this scope."@),
            src,
            (count - 1) as nat,
        );
        lemma_collisions_keep_tokens(p, src, (count - 1) as nat);
    }
}

proof fn lemma_pop_locals_keeps_tokens(e: Emitting)
    ensures
        e.pop_locals().parser.current == e.parser.current,
    decreases e.parser.locals.len(),
{
    if e.parser.locals.len() > 0 && e.parser.locals.last().depth > e.parser.scope_depth {
        lemma_pop_locals_keeps_tokens(
            e.with(ParserView { locals: e.parser.locals.drop_last(), ..e.parser }).emit(Op::Pop),
        );
    }
}

proof fn lemma_emit_all_keeps_parser(e: Emitting, ops: Seq<Op>)
    ensures
        e.emit_all(ops).parser == e.parser,
    decreases ops.len(),
{
    if ops.len() > 0 {
        lemma_emit_all_keeps_parser(e, ops.drop_last());
    }
}

/// Taking a token moves forward.
proof fn lemma_advance_moves(s: Parsing, src: Seq<char>)
    ensures
        forward(s, s.advance(src), src),
        s.advance(src).parser.previous == s.parser.current,
{
    lemma_advance(src, s.reading());
}

proof fn lemma_consume_moves(s: Parsing, src: Seq<char>, kind: TokenType, message: Seq<char>)
    ensures
        no_more(s, s.consume(src, kind, message), src),
{
    lemma_advance(src, s.reading());
}

/// Operators and their right operands add nothing to what is left.
pub proof fn lemma_infix_loop_moves(s: Parsing, src: Seq<char>, precedence: Precedence)
    requires
        precedence != Precedence::Lowest,
    ensures
        no_more(s, s.infix_loop(src, precedence), src),
    decreases s.measure(src), 0nat,
{
    reveal(Parsing::infix_loop);
    reveal(Parsing::binary);
    if precedence.rank() <= rule(s.parser.current.token_type).precedence.rank() {
        lemma_advance_moves(s, src);
        let advanced = s.advance(src);
        if rule(advanced.parser.previous.token_type).infix == Some(ParseFn::Binary) {
            lemma_binary_moves(advanced, src);
        }
        let parsed = match rule(advanced.parser.previous.token_type).infix {
            Some(ParseFn::Binary) => advanced.binary(src),
            _ => advanced,
        };
        lemma_infix_loop_moves(parsed, src, precedence);
    }
}

/// An expression takes at least one token, unless the source has ended.
pub proof fn lemma_parse_precedence_moves(s: Parsing, src: Seq<char>, precedence: Precedence)
    requires
        precedence != Precedence::Lowest,
    ensures
        forward(s, s.parse_precedence(src, precedence), src),
    decreases s.measure(src), 1nat,
{
    lemma_parse_precedence(s, src, precedence);
    lemma_advance_moves(s, src);
    let advanced = s.advance(src);
    let can_assign = precedence.rank() <= Precedence::Assignment.rank();
    match rule(advanced.parser.previous.token_type).prefix {
        Some(kind) => {
            lemma_prefix_moves(advanced, src, kind, can_assign);
        },
        None => {},
    }
    let parsed = match rule(advanced.parser.previous.token_type).prefix {
        Some(kind) => advanced.prefix(src, kind, can_assign),
        None => advanced.with(advanced.parser.error_at_previous("Expect expression."@)),
    };
    lemma_infix_loop_moves(parsed, src, precedence);
    let operated = parsed.infix_loop(src, precedence);
    lemma_advance_moves(operated, src);
}

proof fn lemma_expression_moves(s: Parsing, src: Seq<char>)
    ensures
        forward(s, s.expression(src), src),
    decreases s.measure(src), 2nat,
{
    reveal(Parsing::expression);
    reveal(Parsing::parse_precedence);
    lemma_parse_precedence_moves(s, src, Precedence::Assignment);
}

proof fn lemma_unary_moves(s: Parsing, src: Seq<char>)
    ensures
        no_more(s, s.unary(src), src),
    decreases s.measure(src), 2nat,
{
    reveal(Parsing::unary);
    reveal(Parsing::parse_precedence);
    lemma_parse_precedence_moves(s, src, Precedence::Unary);
}

proof fn lemma_binary_moves(s: Parsing, src: Seq<char>)
    ensures
        no_more(s, s.binary(src), src),
    decreases s.measure(src), 2nat,
{
    reveal(Parsing::binary);
    reveal(Parsing::parse_precedence);
    let operator = s.parser.previous.token_type;
    let level = rule(operator).precedence.next();
    lemma_parse_precedence_moves(s, src, level);
    lemma_emit_all_keeps_parser(s.parse_precedence(src, level).emitting(), binary_code(operator));
}

proof fn lemma_grouping_moves(s: Parsing, src: Seq<char>)
    ensures
        no_more(s, s.grouping(src), src),
    decreases s.measure(src), 3nat,
{
    reveal(Parsing::grouping);
    reveal(Parsing::expression);
    lemma_expression_moves(s, src);
    lemma_consume_moves(
        s.expression(src),
        src,
        TokenType::RightParen,
        "Expect ')' after expression."@,
    );
}

proof fn lemma_named_variable_moves(s: Parsing, src: Seq<char>, can_assign: bool)
    ensures
        no_more(s, s.named_variable(src, can_assign), src),
    decreases s.measure(src), 3nat,
{
    reveal(Parsing::named_variable);
    reveal(Parsing::expression);
    let named = s.identifier_constant(src);
    let (parser, local) = named.parser.resolve_local(src);
    let resolved = named.with(parser);
    assert(resolved.measure(src) == s.measure(src));
    if can_assign && resolved.parser.current.token_type == TokenType::Equal {
        lemma_advance_moves(resolved, src);
        lemma_expression_moves(resolved.advance(src), src);
    }
}

proof fn lemma_variable_moves(s: Parsing, src: Seq<char>, can_assign: bool)
    ensures
        no_more(s, s.variable(src, can_assign), src),
    decreases s.measure(src), 4nat,
{
    reveal(Parsing::variable);
    reveal(Parsing::named_variable);
    lemma_named_variable_moves(s, src, can_assign);
}

proof fn lemma_prefix_moves(s: Parsing, src: Seq<char>, kind: ParseFn, can_assign: bool)
    ensures
        no_more(s, s.prefix(src, kind, can_assign), src),
    decreases s.measure(src), 5nat,
{
    reveal(Parsing::prefix);
    reveal(Parsing::grouping);
    reveal(Parsing::unary);
    reveal(Parsing::variable);
    match kind {
        ParseFn::Grouping => lemma_grouping_moves(s, src),
        ParseFn::Unary => lemma_unary_moves(s, src),
        ParseFn::Variable => lemma_variable_moves(s, src, can_assign),
        _ => {},
    }
}

proof fn lemma_print_statement_moves(s: Parsing, src: Seq<char>)
    ensures
        no_more(s, s.print_statement(src), src),
{
    reveal(Parsing::print_statement);
    lemma_expression_moves(s, src);
    lemma_consume_moves(s.expression(src), src, TokenType::Semicolon, "Expect ';' after value."@);
}

proof fn lemma_var_declaration_moves(s: Parsing, src: Seq<char>)
    ensures
        no_more(s, s.var_declaration(src), src),
{
    reveal(Parsing::var_declaration);
    reveal(Parsing::parse_variable);
    lemma_consume_moves(s, src, TokenType::Identifier, "Expect variable name."@);
    let named = s.consume(src, TokenType::Identifier, "Expect variable name."@);
    lemma_collisions_keep_tokens(named.parser, src, named.parser.locals.len());
    let (declared, global) = s.parse_variable(src);
    assert(declared.measure(src) == named.measure(src));
    let valued = if declared.parser.current.token_type == TokenType::Equal {
        declared.advance(src).expression(src)
    } else {
        declared.emit(Op::Nil)
    };
    if declared.parser.current.token_type == TokenType::Equal {
        lemma_advance_moves(declared, src);
        lemma_expression_moves(declared.advance(src), src);
    }
    lemma_consume_moves(
        valued,
        src,
        TokenType::Semicolon,
        "Expect ';' after variable declaration."@,
    );
}

/// The declarations of a block add nothing to what is left.
pub proof fn lemma_block_moves(s: Parsing, src: Seq<char>)
    ensures
        no_more(s, s.block(src), src),
    decreases s.measure(src), 2nat,
{
    reveal(Parsing::block);
    reveal(Parsing::declaration);
    if s.parser.current.token_type == TokenType::RightBrace || s.parser.current.token_type
        == TokenType::EOF {
        lemma_consume_moves(s, src, TokenType::RightBrace, "Expect '}' after block."@);
    } else {
        lemma_declaration_moves(s, src);
        lemma_block_moves(s.declaration(src), src);
    }
}

/// A declaration takes at least one token, unless the source has ended.
pub proof fn lemma_declaration_moves(s: Parsing, src: Seq<char>)
    ensures
        forward(s, s.declaration(src), src),
    decreases s.measure(src), 1nat,
{
    reveal(Parsing::declaration);
    reveal(Parsing::statement);
    let parsed = if s.parser.current.token_type == TokenType::Var {
        s.advance(src).var_declaration(src)
    } else {
        s.statement(src)
    };
    if s.parser.current.token_type == TokenType::Var {
        lemma_advance_moves(s, src);
        lemma_var_declaration_moves(s.advance(src), src);
    } else {
        lemma_statement_moves(s, src);
    }
    lemma_synchronize(src, parsed.with(ParserView { panic_mode: false, ..parsed.parser }).reading());
}

/// A statement takes at least one token, unless the source has ended.
pub proof fn lemma_statement_moves(s: Parsing, src: Seq<char>)
    ensures
        forward(s, s.statement(src), src),
    decreases s.measure(src), 0nat,
{
    reveal(Parsing::statement);
    reveal(Parsing::block);
    if s.parser.current.token_type == TokenType::Print {
        lemma_advance_moves(s, src);
        lemma_print_statement_moves(s.advance(src), src);
    } else if s.parser.current.token_type == TokenType::LeftBrace {
        lemma_advance_moves(s, src);
        let opened = s.advance(src);
        let inside = opened.with(opened.parser.begin_scope());
        lemma_block_moves(inside, src);
        let closed = inside.block(src);
        lemma_pop_locals_keeps_tokens(
            closed.emitting().with(
                ParserView {
                    scope_depth: if closed.parser.scope_depth > isize::MIN {
                        (closed.parser.scope_depth - 1) as isize
                    } else {
                        closed.parser.scope_depth
                    },
                    ..closed.parser
                },
            ),
        );
    } else {
        lemma_expression_moves(s, src);
        lemma_consume_moves(
            s.expression(src),
            src,
            TokenType::Semicolon,
            "Expect ';' after expression."@,
        );
    }
}

/// A block is its declarations up to the closing brace, one after the other.
pub proof fn lemma_block_is_a_loop(s: Parsing, src: Seq<char>)
    ensures
        s.block(src) == (if s.parser.current.token_type == TokenType::RightBrace
            || s.parser.current.token_type == TokenType::EOF {
            s.consume(src, TokenType::RightBrace, "Expect '}' after block."@)
        } else {
            s.declaration(src).block(src)
        }),
{
    reveal(Parsing::block);
    reveal(Parsing::declaration);
    lemma_declaration_moves(s, src);
}

/// A program is its declarations up to the end of the source, one after the
/// other.
pub proof fn lemma_declarations_is_a_loop(s: Parsing, src: Seq<char>)
    ensures
        s.declarations(src) == (if s.parser.current.token_type == TokenType::EOF {
            s.advance(src)
        } else {
            s.declaration(src).declarations(src)
        }),
{
    reveal(Parsing::declarations);
    lemma_declaration_moves(s, src);
}

/// The operators of an expression are parsed one after the other, as long as
/// the current token binds tightly enough.
pub proof fn lemma_infix_loop_is_a_loop(s: Parsing, src: Seq<char>, precedence: Precedence)
    requires
        precedence != Precedence::Lowest,
    ensures
        s.infix_loop(src, precedence) == (if precedence.rank() <= rule(
            s.parser.current.token_type,
        ).precedence.rank() {
            let advanced = s.advance(src);
            (match rule(advanced.parser.previous.token_type).infix {
                Some(ParseFn::Binary) => advanced.binary(src),
                _ => advanced,
            }).infix_loop(src, precedence)
        } else {
            s
        }),
{
    reveal(Parsing::infix_loop);
    reveal(Parsing::binary);
    if precedence.rank() <= rule(s.parser.current.token_type).precedence.rank() {
        lemma_advance_moves(s, src);
        let advanced = s.advance(src);
        if rule(advanced.parser.previous.token_type).infix == Some(ParseFn::Binary) {
            lemma_binary_moves(advanced, src);
        }
    }
}

/// An expression is a token with its prefix rule, then the operators that
/// follow, then the check for an assignment that has no target.
pub proof fn lemma_parse_precedence_is_plain(s: Parsing, src: Seq<char>, precedence: Precedence)
    requires
        precedence != Precedence::Lowest,
    ensures
        s.parse_precedence(src, precedence) == ({
            let advanced = s.advance(src);
            let can_assign = precedence.rank() <= Precedence::Assignment.rank();
            let operated = (match rule(advanced.parser.previous.token_type).prefix {
                Some(kind) => advanced.prefix(src, kind, can_assign),
                None => advanced.with(advanced.parser.error_at_previous("Expect expression."@)),
            }).infix_loop(src, precedence);
            if can_assign && operated.parser.current.token_type == TokenType::Equal {
                let passed = operated.advance(src);
                passed.with(passed.parser.error_at_previous("Invalid assignment target."@))
            } else {
                operated
            }
        }),
{
    lemma_parse_precedence(s, src, precedence);
    lemma_advance_moves(s, src);
    let advanced = s.advance(src);
    let can_assign = precedence.rank() <= Precedence::Assignment.rank();
    match rule(advanced.parser.previous.token_type).prefix {
        Some(kind) => {
            lemma_prefix_moves(advanced, src, kind, can_assign);
        },
        None => {},
    }
}

} // verus!
