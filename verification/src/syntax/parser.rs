use vstd::prelude::*;
use crate::syntax::ast::{
    BinaryOp, BlockExpr, Expr, ExprKind, FieldDecl, FnDecl, FnKind, LetStmt, MatchArm, MatchExpr,
    Param, Pattern, PatternField, PatternKind, Program, RecordBody, RecordField, ReturnStmt, Stmt,
    TopDecl, TypeDecl, TypeDeclKind, TypeExpr, TypeExprKind, VariantDecl, VariantList,
};
use crate::syntax::error::ParseError;
use crate::syntax::grammar::{
    at, expect_at, lemma_syn_arms_push, lemma_syn_exprs_push, lemma_syn_rfields_push, lemma_syn_stmts_push,
    op_of, p_arm, p_arms, p_binary, p_block, p_calls, p_expr, p_expr_list, p_let, p_match, p_postfix,
    p_primary, p_return, p_rfields, p_stmts, peek, record_ahead, syn_arm, syn_arms, syn_block, syn_expr,
    syn_exprs, syn_match, syn_rfields, syn_stmts, SynArm, SynExpr, SynRecordField, SynStmt,
    lemma_syn_pfields_push, p_entry_fn, p_fn_tail, p_params_loop, p_program_loop, p_top, p_user_fn, syn_fn,
    syn_params, syn_top, syn_tops, SynTop, lexeme_toks, p_program, lemma_syn_types_push, p_pattern, p_pfield, p_pfields, prev,
    syn_pattern, syn_pfield, syn_pfields, SynPatternField, name_at, p_body, p_field, p_fields_loop, p_generics,
    p_names_loop, p_type, p_type_decl, p_type_list, p_variant, p_variants, p_variants_loop, skip, syn_body, syn_field,
    syn_fields, syn_names, syn_param, syn_type, syn_type_decl, syn_types, syn_variant, syn_variant_seq, syn_variants, toks,
    SynError, SynField, SynType, SynVariant, Tok,
};
use crate::syntax::lexer::{lex, lex_error_message, pos_at, utf8_len, Lexer};
use crate::syntax::span::{Position, Span};
use crate::syntax::token::{display_tag, Token, TokenKind, TokenTag};
use crate::text::{concat_str, owned};

verus! {

/// The error reported at `position` begins at one of the tokens.
pub open spec fn at_some_token(toks: Seq<Token>, position: Position) -> bool {
    exists|k: int| 0 <= k < toks.len() && (#[trigger] toks[k]).span.start == position
}

/// A token sequence as the lexer produces it: exactly one end-of-input token, at the end.
pub open spec fn well_terminated(toks: Seq<Token>) -> bool {
    &&& toks.len() > 0
    &&& toks.last().kind is Eof
    &&& forall|k: int| 0 <= k < toks.len() - 1 ==> !((#[trigger] toks[k]).kind is Eof)
}

/// Parses a source text into its declarations: the program the grammar gives for the text's
/// tokens, or the error where lexing or the grammar first fails.
pub fn parse_program(input: &str) -> (r: Result<Program, ParseError>)
    requires
        utf8_len(input@) < usize::MAX,
    ensures
        match lex(input@) {
            Err(i) => r matches Err(e) && e.position == pos_at(input@, i) && e.message@ == lex_error_message(
                input@,
                i,
            ),
            Ok(ls) => match (r, p_program(lexeme_toks(input@, ls))) {
                (Ok(p), Ok(ds)) => syn_tops(p.decls@) == ds,
                (Err(e), Err(pos)) => e.position == pos.0 && e.message@ == pos.1,
                _ => false,
            },
        },
{
    let tokens = Lexer::new(input).tokenize()?;
    let ghost ls = match lex(input@) {
        Ok(ls) => ls,
        Err(_) => Seq::empty(),
    };
    proof {
        crate::syntax::lexer::lemma_lex_from_shape(input@, 0);
        assert forall|k: int| 0 <= k < tokens@.len() - 1 implies !((#[trigger] tokens@[k]).kind is Eof) by {
            assert(crate::syntax::lexer::denotes(input@, tokens@[k], ls[k]));
        }
        assert(crate::syntax::lexer::denotes(input@, tokens@[tokens@.len() - 1], ls[ls.len() - 1]));
        assert forall|k: int| 0 <= k < tokens@.len() implies #[trigger] toks(tokens@)[k] == lexeme_toks(
            input@,
            ls,
        )[k] by {
            assert(crate::syntax::lexer::denotes(input@, tokens@[k], ls[k]));
        }
        assert(toks(tokens@) =~= lexeme_toks(input@, ls));
    }
    let mut parser = Parser::new(tokens);
    parser.parse_program()
}

fn error_at(message: String, position: Position) -> (e: ParseError)
    ensures
        e.message == message,
        e.position == position,
{
    ParseError { message, position }
}

/// "expected X, found Y"
fn expected_found(expected: &str, found: &str) -> (r: String)
    ensures
        r@ == "expected "@ + expected@ + ", found "@ + found@,
{
    let a = concat_str(owned("expected "), expected);
    let b = concat_str(a, ", found ");
    concat_str(b, found)
}

/// A token kind with the same contents.
fn copy_kind(k: &TokenKind) -> (r: TokenKind)
    ensures
        r == *k,
{
    match k {
        TokenKind::Ident(s) => TokenKind::Ident(s.clone()),
        TokenKind::Int(v) => TokenKind::Int(*v),
        TokenKind::LParen => TokenKind::LParen,
        TokenKind::RParen => TokenKind::RParen,
        TokenKind::LBrace => TokenKind::LBrace,
        TokenKind::RBrace => TokenKind::RBrace,
        TokenKind::LBracket => TokenKind::LBracket,
        TokenKind::RBracket => TokenKind::RBracket,
        TokenKind::LAngle => TokenKind::LAngle,
        TokenKind::RAngle => TokenKind::RAngle,
        TokenKind::Comma => TokenKind::Comma,
        TokenKind::Colon => TokenKind::Colon,
        TokenKind::Eq => TokenKind::Eq,
        TokenKind::FatArrow => TokenKind::FatArrow,
        TokenKind::Pipe => TokenKind::Pipe,
        TokenKind::Semi => TokenKind::Semi,
        TokenKind::Plus => TokenKind::Plus,
        TokenKind::Minus => TokenKind::Minus,
        TokenKind::Star => TokenKind::Star,
        TokenKind::Slash => TokenKind::Slash,
        TokenKind::Arrow => TokenKind::Arrow,
        TokenKind::Fn => TokenKind::Fn,
        TokenKind::Update => TokenKind::Update,
        TokenKind::Query => TokenKind::Query,
        TokenKind::State => TokenKind::State,
        TokenKind::Event => TokenKind::Event,
        TokenKind::Enum => TokenKind::Enum,
        TokenKind::Record => TokenKind::Record,
        TokenKind::Let => TokenKind::Let,
        TokenKind::Match => TokenKind::Match,
        TokenKind::Return => TokenKind::Return,
        TokenKind::If => TokenKind::If,
        TokenKind::True => TokenKind::True,
        TokenKind::False => TokenKind::False,
        TokenKind::Underscore => TokenKind::Underscore,
        TokenKind::Eof => TokenKind::Eof,
    }
}

/// The name a token stands for where an identifier is expected: an identifier's text, or a
/// keyword's spelling (keywords may name things).
pub open spec fn ident_text(k: TokenKind) -> Option<Seq<char>> {
    match k {
        TokenKind::Ident(name) => Some(name@),
        TokenKind::State => Some("state"@),
        TokenKind::Event => Some("event"@),
        TokenKind::Query => Some("query"@),
        TokenKind::Update => Some("update"@),
        TokenKind::Enum => Some("enum"@),
        TokenKind::Record => Some("record"@),
        TokenKind::Let => Some("let"@),
        TokenKind::Match => Some("match"@),
        TokenKind::Return => Some("return"@),
        TokenKind::If => Some("if"@),
        TokenKind::Fn => Some("fn"@),
        _ => None,
    }
}

fn token_to_ident(token: &TokenKind) -> (r: Option<String>)
    ensures
        r is Some == ident_text(*token) is Some,
        r matches Some(s) ==> s@ == ident_text(*token).unwrap(),
{
    match token {
        TokenKind::Ident(name) => Some(name.clone()),
        TokenKind::State => Some(owned("state")),
        TokenKind::Event => Some(owned("event")),
        TokenKind::Query => Some(owned("query")),
        TokenKind::Update => Some(owned("update")),
        TokenKind::Enum => Some(owned("enum")),
        TokenKind::Record => Some(owned("record")),
        TokenKind::Let => Some(owned("let")),
        TokenKind::Match => Some(owned("match")),
        TokenKind::Return => Some(owned("return")),
        TokenKind::If => Some(owned("if")),
        TokenKind::Fn => Some(owned("fn")),
        _ => None,
    }
}

struct Parser {
    tokens: Vec<Token>,
    cursor: usize,
}

/// What every parsing step keeps and promises: the tokens are unchanged, the cursor never moves
/// back and moves forward on success, and an error is reported at the start of a token.
spec fn step<T>(p0: Parser, p1: Parser, r: Result<T, ParseError>) -> bool {
    &&& p1.wf()
    &&& p1.tokens@ == p0.tokens@
    &&& p0.cursor <= p1.cursor
    &&& r is Ok ==> p0.cursor < p1.cursor
    &&& r matches Err(e) ==> at_some_token(p0.tokens@, e.position)
}

/// Like `step`, for steps that may succeed without reading anything.
spec fn step_opt<T>(p0: Parser, p1: Parser, r: Result<T, ParseError>) -> bool {
    &&& p1.wf()
    &&& p1.tokens@ == p0.tokens@
    &&& p0.cursor <= p1.cursor
    &&& r matches Err(e) ==> at_some_token(p0.tokens@, e.position)
}

impl Parser {
    spec fn wf(&self) -> bool {
        &&& well_terminated(self.tokens@)
        &&& self.cursor < self.tokens.len()
    }

    /// The tokens as the grammar reads them.
    spec fn ts(&self) -> Seq<Tok> {
        toks(self.tokens@)
    }

    spec fn remaining(&self) -> nat {
        (self.tokens.len() - self.cursor) as nat
    }

    fn new(tokens: Vec<Token>) -> (p: Self)
        requires
            well_terminated(tokens@),
        ensures
            p.wf(),
            p.tokens@ == tokens@,
            p.cursor == 0,
    {
        Parser { tokens, cursor: 0 }
    }

    #[verifier::rlimit(50)]
    fn parse_program(&mut self) -> (r: Result<Program, ParseError>)
        requires
            old(self).wf(),
        ensures
            step_opt(*old(self), *final(self), r),
            match (r, p_program_loop(old(self).ts(), old(self).cursor as int, seq![])) {
                (Ok(p), Ok((x, _))) => syn_tops(p.decls@) == x,
                (Err(e), Err(p)) => e.position == p.0 && e.message@ == p.1,
                _ => false,
            },
    {
        let ghost ts = self.ts();
        let ghost i0 = self.cursor as int;
        let mut decls: Vec<TopDecl> = Vec::new();
        proof {
            assert(syn_tops(decls@) =~= seq![]);
        }
        while !self.at_eof()
            invariant
                self.wf(),
                self.tokens@ == old(self).tokens@,
                old(self).cursor <= self.cursor,
                ts == self.ts(),
                i0 == old(self).cursor,
                p_program_loop(ts, i0, seq![]) == p_program_loop(ts, self.cursor as int, syn_tops(decls@)),
            decreases self.tokens.len() - self.cursor,
        {
            let ghost before = decls@;
            let ghost c = self.cursor as int;
            let d = match self.parse_top_decl() {
                Ok(d) => d,
                Err(e) => {
                    proof {
                        assert(p_program_loop(ts, c, syn_tops(before)) == Err::<(Seq<SynTop>, int), SynError>((e.position, e.message@)));
                    }
                    return Err(e);
                },
            };
            decls.push(d);
            proof {
                assert(syn_tops(decls@) =~= syn_tops(before).push(syn_top(d)));
            }
        }
        Ok(Program { decls })
    }
    fn parse_top_decl(&mut self) -> (r: Result<TopDecl, ParseError>)
        requires
            old(self).wf(),
        ensures
            step(*old(self), *final(self), r),
            match (r, p_top(old(self).ts(), old(self).cursor as int)) {
                (Ok(d), Ok((x, j))) => syn_top(d) == x && final(self).cursor == j,
                (Err(e), Err(p)) => e.position == p.0 && e.message@ == p.1,
                _ => false,
            },
    {
        let tag = TokenTag::of(&self.current().kind);
        match tag {
            TokenTag::Fn => Ok(TopDecl::Function(self.parse_user_fn_decl()?)),
            TokenTag::Update => Ok(TopDecl::Function(self.parse_update_fn_decl()?)),
            TokenTag::Query => {
                if self.peek_tag(1) == TokenTag::LParen {
                    Ok(TopDecl::Function(self.parse_query_fn_decl()?))
                } else {
                    Ok(TopDecl::Type(self.parse_query_decl()?))
                }
            },
            TokenTag::State => Ok(TopDecl::Type(self.parse_state_decl()?)),
            TokenTag::Event => Ok(TopDecl::Type(self.parse_event_decl()?)),
            TokenTag::Enum => Ok(TopDecl::Type(self.parse_enum_decl()?)),
            TokenTag::Record => Ok(TopDecl::Type(self.parse_record_decl()?)),
            other => {
                let message = concat_str(
                    owned("expected top-level declaration, found "),
                    display_tag(&other),
                );
                Err(self.error_here(message))
            },
        }
    }

    fn parse_state_decl(&mut self) -> (r: Result<TypeDecl, ParseError>)
        requires
            old(self).wf(),
        ensures
            step(*old(self), *final(self), r),
            match (r, p_type_decl(old(self).ts(), old(self).cursor as int, TokenTag::State)) {
                (Ok(d), Ok((x, j))) => syn_type_decl(d) == x && final(self).cursor == j,
                (Err(e), Err(p)) => e.position == p.0 && e.message@ == p.1,
                _ => false,
            },
    {
        let start = self.expect(TokenTag::State)?.span.start;
        let name = self.expect_ident()?;
        let generics = self.parse_generic_params()?;
        let body = self.parse_record_body()?;
        let span = Span::join(start, body.span.end);
        Ok(TypeDecl { name, generics, kind: TypeDeclKind::State(body), span })
    }

    fn parse_record_decl(&mut self) -> (r: Result<TypeDecl, ParseError>)
        requires
            old(self).wf(),
        ensures
            step(*old(self), *final(self), r),
            match (r, p_type_decl(old(self).ts(), old(self).cursor as int, TokenTag::Record)) {
                (Ok(d), Ok((x, j))) => syn_type_decl(d) == x && final(self).cursor == j,
                (Err(e), Err(p)) => e.position == p.0 && e.message@ == p.1,
                _ => false,
            },
    {
        let start = self.expect(TokenTag::Record)?.span.start;
        let name = self.expect_ident()?;
        let generics = self.parse_generic_params()?;
        let body = self.parse_record_body()?;
        let span = Span::join(start, body.span.end);
        Ok(TypeDecl { name, generics, kind: TypeDeclKind::Record(body), span })
    }

    fn parse_event_decl(&mut self) -> (r: Result<TypeDecl, ParseError>)
        requires
            old(self).wf(),
        ensures
            step(*old(self), *final(self), r),
            match (r, p_type_decl(old(self).ts(), old(self).cursor as int, TokenTag::Event)) {
                (Ok(d), Ok((x, j))) => syn_type_decl(d) == x && final(self).cursor == j,
                (Err(e), Err(p)) => e.position == p.0 && e.message@ == p.1,
                _ => false,
            },
    {
        let start = self.expect(TokenTag::Event)?.span.start;
        let name = self.expect_ident()?;
        let generics = self.parse_generic_params()?;
        self.expect(TokenTag::Eq)?;
        let variants = self.parse_variant_list()?;
        let span = Span::join(start, variants.span.end);
        Ok(TypeDecl { name, generics, kind: TypeDeclKind::Event(variants), span })
    }

    fn parse_query_decl(&mut self) -> (r: Result<TypeDecl, ParseError>)
        requires
            old(self).wf(),
        ensures
            step(*old(self), *final(self), r),
            match (r, p_type_decl(old(self).ts(), old(self).cursor as int, TokenTag::Query)) {
                (Ok(d), Ok((x, j))) => syn_type_decl(d) == x && final(self).cursor == j,
                (Err(e), Err(p)) => e.position == p.0 && e.message@ == p.1,
                _ => false,
            },
    {
        let start = self.expect(TokenTag::Query)?.span.start;
        let name = self.expect_ident()?;
        let generics = self.parse_generic_params()?;
        self.expect(TokenTag::Eq)?;
        let variants = self.parse_variant_list()?;
        let span = Span::join(start, variants.span.end);
        Ok(TypeDecl { name, generics, kind: TypeDeclKind::Query(variants), span })
    }

    fn parse_enum_decl(&mut self) -> (r: Result<TypeDecl, ParseError>)
        requires
            old(self).wf(),
        ensures
            step(*old(self), *final(self), r),
            match (r, p_type_decl(old(self).ts(), old(self).cursor as int, TokenTag::Enum)) {
                (Ok(d), Ok((x, j))) => syn_type_decl(d) == x && final(self).cursor == j,
                (Err(e), Err(p)) => e.position == p.0 && e.message@ == p.1,
                _ => false,
            },
    {
        let start = self.expect(TokenTag::Enum)?.span.start;
        let name = self.expect_ident()?;
        let generics = self.parse_generic_params()?;
        self.expect(TokenTag::Eq)?;
        let variants = self.parse_variant_list()?;
        let span = Span::join(start, variants.span.end);
        Ok(TypeDecl { name, generics, kind: TypeDeclKind::Enum(variants), span })
    }

    fn parse_generic_params(&mut self) -> (r: Result<Vec<String>, ParseError>)
        requires
            old(self).wf(),
        ensures
            step_opt(*old(self), *final(self), r),
            match (r, p_generics(old(self).ts(), old(self).cursor as int)) {
                (Ok(ns), Ok((x, j))) => syn_names(ns@) == x && final(self).cursor == j,
                (Err(e), Err(p)) => e.position == p.0 && e.message@ == p.1,
                _ => false,
            },
    {
        let ghost ts = self.ts();
        if self.consume_if(TokenTag::LAngle).is_none() {
            let out: Vec<String> = Vec::new();
            proof {
                assert(syn_names(out@) =~= seq![]);
            }
            return Ok(out);
        }
        let ghost i1 = self.cursor as int;
        let mut out: Vec<String> = Vec::new();
        proof {
            assert(syn_names(out@) =~= seq![]);
        }
        loop
            invariant_except_break
                p_names_loop(ts, i1, seq![]) == p_names_loop(ts, self.cursor as int, syn_names(out@)),
            invariant
                self.wf(),
                self.tokens@ == old(self).tokens@,
                old(self).cursor < self.cursor,
                ts == self.ts(),
                i1 == old(self).cursor + 1,
                at(ts, old(self).cursor as int, TokenTag::LAngle),
            ensures
                p_names_loop(ts, i1, seq![]) == Ok::<(Seq<Seq<char>>, int), SynError>(
                    (syn_names(out@), self.cursor as int),
                ),
            decreases self.tokens.len() - self.cursor,
        {
            let ghost before = out@;
            let ghost c = self.cursor as int;
            let n = match self.expect_ident() {
                Ok(n) => n,
                Err(e) => {
                    proof {
                        assert(p_names_loop(ts, c, syn_names(before)) == Err::<(Seq<Seq<char>>, int), SynError>((e.position, e.message@)));
                    }
                    return Err(e);
                },
            };
            out.push(n);
            proof {
                assert(syn_names(out@) =~= syn_names(before).push(n@));
            }
            if self.consume_if(TokenTag::Comma).is_none() {
                break;
            }
        }
        self.expect(TokenTag::RAngle)?;
        Ok(out)
    }
    fn parse_variant_list(&mut self) -> (r: Result<VariantList, ParseError>)
        requires
            old(self).wf(),
        ensures
            step(*old(self), *final(self), r),
            match (r, p_variants(old(self).ts(), old(self).cursor as int)) {
                (Ok(v), Ok((x, j))) => syn_variants(v) == x && final(self).cursor == j,
                (Err(e), Err(p)) => e.position == p.0 && e.message@ == p.1,
                _ => false,
            },
    {
        let ghost ts = self.ts();
        let start = self.current().span.start;
        let mut variants: Vec<VariantDecl> = Vec::new();
        let ghost p0 = *old(self);
        proof {
            assert(syn_variant_seq(variants@) =~= seq![]);
        }
        while self.check(TokenTag::Pipe)
            invariant
                self.wf(),
                self.tokens@ == old(self).tokens@,
                old(self).cursor <= self.cursor,
                variants.len() > 0 ==> old(self).cursor < self.cursor,
                ts == self.ts(),
                p_variants_loop(ts, old(self).cursor as int, seq![]) == p_variants_loop(
                    ts,
                    self.cursor as int,
                    syn_variant_seq(variants@),
                ),
                syn_variant_seq(variants@).len() == variants.len(),
            decreases self.tokens.len() - self.cursor,
        {
            let ghost before = variants@;
            let ghost c = self.cursor as int;
            let v = match self.parse_variant_decl() {
                Ok(v) => v,
                Err(e) => {
                    proof {
                        assert(p_variants_loop(ts, c, syn_variant_seq(before)) == Err::<(Seq<SynVariant>, int), SynError>((e.position, e.message@)));
                    }
                    return Err(e);
                },
            };
            variants.push(v);
            proof {
                assert(syn_variant_seq(variants@) =~= syn_variant_seq(before).push(syn_variant(v)));
            }
        }
        if variants.len() == 0 {
            return Err(
                self.error_at_cursor(
                    owned("variant list requires at least one `|` arm"),
                    start,
                    Ghost(p0.cursor as int),
                ),
            );
        }
        proof {
            assert(syn_variant_seq(variants@).last() == syn_variant(variants@.last()));
        }
        let end = variants[variants.len() - 1].span.end;
        Ok(VariantList { variants, span: Span::join(start, end) })
    }
    fn parse_variant_decl(&mut self) -> (r: Result<VariantDecl, ParseError>)
        requires
            old(self).wf(),
        ensures
            step(*old(self), *final(self), r),
            match (r, p_variant(old(self).ts(), old(self).cursor as int)) {
                (Ok(v), Ok((x, j))) => syn_variant(v) == x && final(self).cursor == j,
                (Err(e), Err(p)) => e.position == p.0 && e.message@ == p.1,
                _ => false,
            },
    {
        let start = self.expect(TokenTag::Pipe)?.span.start;
        let name = self.expect_ident()?;
        let payload = if self.check(TokenTag::LBrace) {
            self.parse_record_body()?.fields
        } else {
            Vec::new()
        };
        proof {
            if payload.len() > 0 {
                assert(syn_fields(payload@).last() == syn_field(payload@.last()));
            } else {
                assert(syn_fields(payload@) =~= seq![]);
            }
        }
        let end = if self.previous_tag() == TokenTag::RBrace {
            self.previous().span.end
        } else if payload.len() > 0 {
            payload[payload.len() - 1].span.end
        } else {
            self.previous().span.end
        };
        Ok(VariantDecl { name, payload, span: Span::join(start, end) })
    }
    fn parse_record_body(&mut self) -> (r: Result<RecordBody, ParseError>)
        requires
            old(self).wf(),
        ensures
            step(*old(self), *final(self), r),
            match (r, p_body(old(self).ts(), old(self).cursor as int)) {
                (Ok(b), Ok((x, j))) => syn_body(b) == x && final(self).cursor == j,
                (Err(e), Err(p)) => e.position == p.0 && e.message@ == p.1,
                _ => false,
            },
    {
        let ghost ts = self.ts();
        let start = self.expect(TokenTag::LBrace)?.span.start;
        let ghost i1 = self.cursor as int;
        let mut fields: Vec<FieldDecl> = Vec::new();
        proof {
            assert(syn_fields(fields@) =~= seq![]);
        }
        while !self.check(TokenTag::RBrace)
            invariant
                self.wf(),
                self.tokens@ == old(self).tokens@,
                old(self).cursor < self.cursor,
                ts == self.ts(),
                p_fields_loop(ts, i1, seq![]) == p_fields_loop(ts, self.cursor as int, syn_fields(fields@)),
                expect_at(ts, old(self).cursor as int, TokenTag::LBrace) == Ok::<int, SynError>(i1),
            decreases self.tokens.len() - self.cursor,
        {
            let ghost before = fields@;
            let ghost c = self.cursor as int;
            let f = match self.parse_field_decl() {
                Ok(f) => f,
                Err(e) => {
                    proof {
                        assert(p_fields_loop(ts, c, syn_fields(before)) == Err::<(Seq<SynField>, int), SynError>((e.position, e.message@)));
                    }
                    return Err(e);
                },
            };
            fields.push(f);
            proof {
                assert(syn_fields(fields@) =~= syn_fields(before).push(syn_field(f)));
            }
            let _ = self.consume_if(TokenTag::Comma);
            let _ = self.consume_if(TokenTag::Semi);
        }
        let end = self.expect(TokenTag::RBrace)?.span.end;
        Ok(RecordBody { fields, span: Span::join(start, end) })
    }
    fn parse_field_decl(&mut self) -> (r: Result<FieldDecl, ParseError>)
        requires
            old(self).wf(),
        ensures
            step(*old(self), *final(self), r),
            match (r, p_field(old(self).ts(), old(self).cursor as int)) {
                (Ok(f), Ok((x, j))) => syn_field(f) == x && final(self).cursor == j,
                (Err(e), Err(p)) => e.position == p.0 && e.message@ == p.1,
                _ => false,
            },
    {
        let start = self.current().span.start;
        let name = self.expect_ident()?;
        self.expect(TokenTag::Colon)?;
        let type_expr = self.parse_type_expr()?;
        let span = Span::join(start, type_expr.span.end);
        Ok(FieldDecl { name, span, type_expr })
    }
    fn parse_user_fn_decl(&mut self) -> (r: Result<FnDecl, ParseError>)
        requires
            old(self).wf(),
        ensures
            step(*old(self), *final(self), r),
            match (r, p_user_fn(old(self).ts(), old(self).cursor as int)) {
                (Ok(f), Ok((x, j))) => syn_fn(f) == x && final(self).cursor == j,
                (Err(e), Err(p)) => e.position == p.0 && e.message@ == p.1,
                _ => false,
            },
    {
        let start = self.expect(TokenTag::Fn)?.span.start;
        let name = self.expect_ident()?;
        self.parse_fn_decl_tail(FnKind::User, name, start)
    }

    fn parse_update_fn_decl(&mut self) -> (r: Result<FnDecl, ParseError>)
        requires
            old(self).wf(),
        ensures
            step(*old(self), *final(self), r),
            match (r, p_entry_fn(old(self).ts(), old(self).cursor as int, TokenTag::Update)) {
                (Ok(f), Ok((x, j))) => syn_fn(f) == x && final(self).cursor == j,
                (Err(e), Err(p)) => e.position == p.0 && e.message@ == p.1,
                _ => false,
            },
    {
        let start = self.expect(TokenTag::Update)?.span.start;
        self.parse_fn_decl_tail(FnKind::Update, owned("update"), start)
    }

    fn parse_query_fn_decl(&mut self) -> (r: Result<FnDecl, ParseError>)
        requires
            old(self).wf(),
        ensures
            step(*old(self), *final(self), r),
            match (r, p_entry_fn(old(self).ts(), old(self).cursor as int, TokenTag::Query)) {
                (Ok(f), Ok((x, j))) => syn_fn(f) == x && final(self).cursor == j,
                (Err(e), Err(p)) => e.position == p.0 && e.message@ == p.1,
                _ => false,
            },
    {
        let start = self.expect(TokenTag::Query)?.span.start;
        self.parse_fn_decl_tail(FnKind::Query, owned("query"), start)
    }

    fn parse_fn_decl_tail(&mut self, kind: FnKind, name: String, start: Position) -> (r: Result<
        FnDecl,
        ParseError,
    >)
        requires
            old(self).wf(),
        ensures
            step(*old(self), *final(self), r),
            match (r, p_fn_tail(old(self).ts(), old(self).cursor as int, kind, name@, start)) {
                (Ok(f), Ok((x, j))) => syn_fn(f) == x && final(self).cursor == j,
                (Err(e), Err(p)) => e.position == p.0 && e.message@ == p.1,
                _ => false,
            },
    {
        let ghost ts = self.ts();
        let ghost i0 = self.cursor as int;
        self.expect(TokenTag::LParen)?;
        let ghost i1 = self.cursor as int;
        let mut params: Vec<Param> = Vec::new();
        proof {
            assert(syn_params(params@) =~= seq![]);
        }
        if !self.check(TokenTag::RParen) {
            loop
                invariant_except_break
                    p_params_loop(ts, i1, seq![]) == p_params_loop(ts, self.cursor as int, syn_params(params@)),
                invariant
                    self.wf(),
                    self.tokens@ == old(self).tokens@,
                    old(self).cursor < self.cursor,
                    ts == self.ts(),
                    i0 == old(self).cursor,
                    expect_at(ts, i0, TokenTag::LParen) == Ok::<int, SynError>(i1),
                    !at(ts, i1, TokenTag::RParen),
                ensures
                    p_params_loop(ts, i1, seq![]) == Ok::<(Seq<SynField>, int), SynError>(
                        (syn_params(params@), self.cursor as int),
                    ),
                decreases self.tokens.len() - self.cursor,
            {
                let ghost before = params@;
                let ghost c = self.cursor as int;
                let p = match self.parse_param() {
                    Ok(p) => p,
                    Err(e) => {
                        proof {
                            assert(p_params_loop(ts, c, syn_params(before)) == Err::<(Seq<SynField>, int), SynError>((e.position, e.message@)));
                        }
                        return Err(e);
                    },
                };
                params.push(p);
                proof {
                    assert(syn_params(params@) =~= syn_params(before).push(syn_param(p)));
                }
                if self.consume_if(TokenTag::Comma).is_none() {
                    break;
                }
            }
        }
        self.expect(TokenTag::RParen)?;
        self.expect(TokenTag::Arrow)?;
        let return_type = self.parse_type_expr()?;
        let body = self.parse_block_expr()?;
        let span = Span::join(start, body.span.end);
        Ok(FnDecl { kind, name, params, return_type, span, body })
    }
    fn parse_param(&mut self) -> (r: Result<Param, ParseError>)
        requires
            old(self).wf(),
        ensures
            step(*old(self), *final(self), r),
            match (r, p_field(old(self).ts(), old(self).cursor as int)) {
                (Ok(f), Ok((x, j))) => syn_param(f) == x && final(self).cursor == j,
                (Err(e), Err(p)) => e.position == p.0 && e.message@ == p.1,
                _ => false,
            },
    {
        let start = self.current().span.start;
        let name = self.expect_ident()?;
        self.expect(TokenTag::Colon)?;
        let type_expr = self.parse_type_expr()?;
        let span = Span::join(start, type_expr.span.end);
        Ok(Param { name, span, type_expr })
    }
    fn parse_type_expr(&mut self) -> (r: Result<TypeExpr, ParseError>)
        requires
            old(self).wf(),
        ensures
            step(*old(self), *final(self), r),
            match (r, p_type(old(self).ts(), old(self).cursor as int)) {
                (Ok(t), Ok((x, j))) => syn_type(t) == x && final(self).cursor == j,
                (Err(e), Err(p)) => e.position == p.0 && e.message@ == p.1,
                _ => false,
            },
        decreases old(self).remaining(), 0nat,
    {
        let ghost ts = self.ts();
        let ghost i0 = self.cursor as int;
        if self.consume_if(TokenTag::LParen).is_some() {
            let start = self.previous().span.start;
            let mut items: Vec<TypeExpr> = Vec::new();
            let ghost i1 = self.cursor as int;
            proof {
                lemma_syn_types_push(items@, arbitrary());
            }
            if !self.check(TokenTag::RParen) {
                loop
                    invariant_except_break
                        p_type_list(ts, i1, seq![]) == p_type_list(ts, self.cursor as int, syn_types(items@, 0)),
                    invariant
                        self.wf(),
                        self.tokens@ == old(self).tokens@,
                        old(self).cursor < self.cursor,
                        ts == self.ts(),
                        i1 == old(self).cursor + 1,
                        !at(ts, i1, TokenTag::RParen),
                        i0 == old(self).cursor,
                        at(ts, i0, TokenTag::LParen),
                    ensures
                        p_type_list(ts, i1, seq![]) == Ok::<(Seq<SynType>, int), SynError>(
                            (syn_types(items@, 0), self.cursor as int),
                        ),
                    decreases self.tokens.len() - self.cursor,
                {
                    let ghost before = items@;
                    let ghost c = self.cursor as int;
                    let item = match self.parse_type_expr() {
                        Ok(x) => x,
                        Err(e) => {
                            proof {
                                assert(p_type_list(ts, c, syn_types(before, 0)) == Err::<(Seq<SynType>, int), SynError>((e.position, e.message@)));
                            }
                            return Err(e);
                        },
                    };
                    items.push(item);
                    proof {
                        lemma_syn_types_push(before, item);
                    }
                    if self.consume_if(TokenTag::Comma).is_none() {
                        break;
                    }
                }
            }
            let end = match self.expect(TokenTag::RParen) {
                Ok(tok) => tok.span.end,
                Err(e) => {
                    return Err(e);
                },
            };
            return Ok(TypeExpr { kind: TypeExprKind::Tuple { items }, span: Span::join(start, end) });
        }
        let (name, start) = self.expect_ident_with_span()?;
        let mut generics: Vec<TypeExpr> = Vec::new();
        let mut end = self.previous().span.end;
        let ghost j = self.cursor as int;
        proof {
            lemma_syn_types_push(generics@, arbitrary());
        }
        if self.consume_if(TokenTag::LAngle).is_some() {
            let ghost i1 = self.cursor as int;
            loop
                invariant_except_break
                    p_type_list(ts, i1, seq![]) == p_type_list(ts, self.cursor as int, syn_types(generics@, 0)),
                invariant
                    self.wf(),
                    self.tokens@ == old(self).tokens@,
                    old(self).cursor < self.cursor,
                    ts == self.ts(),
                    i1 == j + 1,
                    i0 == old(self).cursor,
                    !at(ts, i0, TokenTag::LParen),
                    name_at(ts, i0) == Ok::<(Seq<char>, int), SynError>((name@, j)),
                    at(ts, j, TokenTag::LAngle),
                ensures
                    p_type_list(ts, i1, seq![]) == Ok::<(Seq<SynType>, int), SynError>(
                        (syn_types(generics@, 0), self.cursor as int),
                    ),
                decreases self.tokens.len() - self.cursor,
            {
                let ghost before = generics@;
                let ghost c = self.cursor as int;
                let item = match self.parse_type_expr() {
                    Ok(x) => x,
                    Err(e) => {
                        proof {
                            assert(p_type_list(ts, c, syn_types(before, 0)) == Err::<(Seq<SynType>, int), SynError>((e.position, e.message@)));
                        }
                        return Err(e);
                    },
                };
                generics.push(item);
                proof {
                    lemma_syn_types_push(before, item);
                }
                if self.consume_if(TokenTag::Comma).is_none() {
                    break;
                }
            }
            end = match self.expect(TokenTag::RAngle) {
                Ok(tok) => tok.span.end,
                Err(e) => {
                    return Err(e);
                },
            };
        }
        Ok(TypeExpr { kind: TypeExprKind::Named { name, generics }, span: Span::join(start, end) })
    }

    fn parse_block_expr(&mut self) -> (r: Result<BlockExpr, ParseError>)
        requires
            old(self).wf(),
        ensures
            step(*old(self), *final(self), r),
            match (r, p_block(old(self).ts(), old(self).cursor as int)) {
                (Ok(b), Ok((x, j))) => syn_block(b) == x && final(self).cursor == j,
                (Err(e), Err(p)) => e.position == p.0 && e.message@ == p.1,
                _ => false,
            },
        decreases old(self).remaining(), 0nat,
    {
        let ghost ts = self.ts();
        let ghost i0 = self.cursor as int;
        let start = self.expect(TokenTag::LBrace)?.span.start;
        let ghost i1 = self.cursor as int;
        let mut statements: Vec<Stmt> = Vec::new();
        proof {
            lemma_syn_stmts_push(statements@, arbitrary());
        }
        loop
            invariant_except_break
                p_stmts(ts, i1, seq![]) == p_stmts(ts, self.cursor as int, syn_stmts(statements@, 0)),
            invariant
                self.wf(),
                self.tokens@ == old(self).tokens@,
                old(self).cursor < self.cursor,
                ts == self.ts(),
                i0 == old(self).cursor,
                expect_at(ts, i0, TokenTag::LBrace) == Ok::<int, SynError>(i1),
            ensures
                p_stmts(ts, i1, seq![]) == Ok::<(Seq<SynStmt>, int), SynError>(
                    (syn_stmts(statements@, 0), self.cursor as int),
                ),
            decreases self.tokens.len() - self.cursor,
        {
            let ghost before = statements@;
            let ghost c = self.cursor as int;
            let tag = TokenTag::of(&self.current().kind);
            if tag == TokenTag::Let {
                let l = match self.parse_let_stmt() {
                    Ok(l) => l,
                    Err(e) => {
                        proof {
                            assert(p_stmts(ts, c, syn_stmts(before, 0)) == Err::<(Seq<SynStmt>, int), SynError>((e.position, e.message@)));
                        }
                        return Err(e);
                    },
                };
                statements.push(Stmt::Let(l));
                proof {
                    lemma_syn_stmts_push(before, Stmt::Let(l));
                }
                let _ = self.consume_if(TokenTag::Semi);
            } else if tag == TokenTag::Return {
                let s = match self.parse_return_stmt() {
                    Ok(s) => s,
                    Err(e) => {
                        proof {
                            assert(p_stmts(ts, c, syn_stmts(before, 0)) == Err::<(Seq<SynStmt>, int), SynError>((e.position, e.message@)));
                        }
                        return Err(e);
                    },
                };
                statements.push(Stmt::Return(s));
                proof {
                    lemma_syn_stmts_push(before, Stmt::Return(s));
                }
                let _ = self.consume_if(TokenTag::Semi);
            } else {
                break;
            }
        }
        let tail = if self.check(TokenTag::RBrace) {
            None
        } else {
            Some(Box::new(self.parse_expr(0)?))
        };
        let end = self.expect(TokenTag::RBrace)?.span.end;
        Ok(BlockExpr { statements, tail, span: Span::join(start, end) })
    }
    fn parse_let_stmt(&mut self) -> (r: Result<LetStmt, ParseError>)
        requires
            old(self).wf(),
        ensures
            step(*old(self), *final(self), r),
            match (r, p_let(old(self).ts(), old(self).cursor as int)) {
                (Ok(l), Ok((x, j))) => x == SynStmt::Let(l.name@, syn_expr(l.value), l.span) && final(self).cursor
                    == j,
                (Err(e), Err(p)) => e.position == p.0 && e.message@ == p.1,
                _ => false,
            },
        decreases old(self).remaining(), 0nat,
    {
        let start = self.expect(TokenTag::Let)?.span.start;
        let name = self.expect_ident()?;
        self.expect(TokenTag::Eq)?;
        let value = self.parse_expr(0)?;
        let span = Span::join(start, value.span.end);
        Ok(LetStmt { name, span, value })
    }
    fn parse_return_stmt(&mut self) -> (r: Result<ReturnStmt, ParseError>)
        requires
            old(self).wf(),
        ensures
            step(*old(self), *final(self), r),
            match (r, p_return(old(self).ts(), old(self).cursor as int)) {
                (Ok(s), Ok((x, j))) => x == SynStmt::Return(syn_expr(s.value), s.span) && final(self).cursor == j,
                (Err(e), Err(p)) => e.position == p.0 && e.message@ == p.1,
                _ => false,
            },
        decreases old(self).remaining(), 0nat,
    {
        let start = self.expect(TokenTag::Return)?.span.start;
        let value = self.parse_expr(0)?;
        let span = Span::join(start, value.span.end);
        Ok(ReturnStmt { span, value })
    }
    fn parse_expr(&mut self, min_prec: u8) -> (r: Result<Expr, ParseError>)
        requires
            old(self).wf(),
        ensures
            step(*old(self), *final(self), r),
            match (r, p_expr(old(self).ts(), old(self).cursor as int, min_prec as int)) {
                (Ok(e), Ok((x, j))) => syn_expr(e) == x && final(self).cursor == j,
                (Err(e), Err(p)) => e.position == p.0 && e.message@ == p.1,
                _ => false,
            },
        decreases old(self).remaining(), 3nat,
    {
        let ghost ts = self.ts();
        let ghost i0 = self.cursor as int;
        let mut lhs = self.parse_postfix_expr()?;
        loop
            invariant_except_break
                p_expr(ts, i0, min_prec as int) == p_binary(ts, self.cursor as int, min_prec as int, syn_expr(lhs)),
            invariant
                self.wf(),
                self.tokens@ == old(self).tokens@,
                old(self).cursor < self.cursor,
                ts == self.ts(),
                i0 == old(self).cursor,
            ensures
                p_expr(ts, i0, min_prec as int) == Ok::<(SynExpr, int), SynError>((syn_expr(lhs), self.cursor as int)),
            decreases self.tokens.len() - self.cursor,
        {
            let ghost c = self.cursor as int;
            let (op, prec) = match self.current_binary_op() {
                Some(x) => x,
                None => break,
            };
            if prec < min_prec {
                break;
            }
            self.bump();
            let rhs = match self.parse_expr(prec + 1) {
                Ok(x) => x,
                Err(e) => {
                    proof {
                        assert(p_binary(ts, c, min_prec as int, syn_expr(lhs)) == Err::<(SynExpr, int), SynError>((e.position, e.message@)));
                    }
                    return Err(e);
                },
            };
            let span = Span::join(lhs.span.start, rhs.span.end);
            lhs = Expr { kind: ExprKind::Binary { lhs: Box::new(lhs), op, rhs: Box::new(rhs) }, span };
        }
        Ok(lhs)
    }
    fn parse_postfix_expr(&mut self) -> (r: Result<Expr, ParseError>)
        requires
            old(self).wf(),
        ensures
            step(*old(self), *final(self), r),
            match (r, p_postfix(old(self).ts(), old(self).cursor as int)) {
                (Ok(e), Ok((x, j))) => syn_expr(e) == x && final(self).cursor == j,
                (Err(e), Err(p)) => e.position == p.0 && e.message@ == p.1,
                _ => false,
            },
        decreases old(self).remaining(), 2nat,
    {
        let ghost ts = self.ts();
        let ghost i0 = self.cursor as int;
        let mut expr = self.parse_primary_expr()?;
        loop
            invariant_except_break
                p_postfix(ts, i0) == p_calls(ts, self.cursor as int, syn_expr(expr)),
            invariant
                self.wf(),
                self.tokens@ == old(self).tokens@,
                old(self).cursor < self.cursor,
                ts == self.ts(),
                i0 == old(self).cursor,
            ensures
                p_postfix(ts, i0) == Ok::<(SynExpr, int), SynError>((syn_expr(expr), self.cursor as int)),
            decreases self.tokens.len() - self.cursor,
        {
            let ghost c0 = self.cursor as int;
            if self.consume_if(TokenTag::LParen).is_none() {
                break;
            }
            let mut args: Vec<Expr> = Vec::new();
            proof {
                lemma_syn_exprs_push(args@, arbitrary());
            }
            if !self.check(TokenTag::RParen) {
                loop
                    invariant_except_break
                        p_expr_list(ts, c0 + 1, seq![]) == p_expr_list(ts, self.cursor as int, syn_exprs(args@, 0)),
                    invariant
                        self.wf(),
                        self.tokens@ == old(self).tokens@,
                        old(self).cursor < self.cursor,
                        c0 < self.cursor,
                        ts == self.ts(),
                        i0 == old(self).cursor,
                        p_postfix(ts, i0) == p_calls(ts, c0, syn_expr(expr)),
                        at(ts, c0, TokenTag::LParen),
                        !at(ts, c0 + 1, TokenTag::RParen),
                    ensures
                        p_expr_list(ts, c0 + 1, seq![]) == Ok::<(Seq<SynExpr>, int), SynError>(
                            (syn_exprs(args@, 0), self.cursor as int),
                        ),
                    decreases self.tokens.len() - self.cursor,
                {
                    let ghost before = args@;
                    let ghost c = self.cursor as int;
                    let a = match self.parse_expr(0) {
                        Ok(a) => a,
                        Err(e) => {
                            proof {
                                assert(p_expr_list(ts, c, syn_exprs(before, 0)) == Err::<(Seq<SynExpr>, int), SynError>((e.position, e.message@)));
                            }
                            return Err(e);
                        },
                    };
                    args.push(a);
                    proof {
                        lemma_syn_exprs_push(before, a);
                    }
                    if self.consume_if(TokenTag::Comma).is_none() {
                        break;
                    }
                }
            }
            let end = match self.expect(TokenTag::RParen) {
                Ok(tok) => tok.span.end,
                Err(e) => {
                    return Err(e);
                },
            };
            let start = expr.span.start;
            expr = Expr { kind: ExprKind::Call { callee: Box::new(expr), args }, span: Span::join(start, end) };
        }
        Ok(expr)
    }
    #[verifier::rlimit(100)]
    fn parse_primary_expr(&mut self) -> (r: Result<Expr, ParseError>)
        requires
            old(self).wf(),
        ensures
            step(*old(self), *final(self), r),
            match (r, p_primary(old(self).ts(), old(self).cursor as int)) {
                (Ok(e), Ok((x, j))) => syn_expr(e) == x && final(self).cursor == j,
                (Err(e), Err(p)) => e.position == p.0 && e.message@ == p.1,
                _ => false,
            },
        decreases old(self).remaining(), 1nat,
    {
        let ghost ts = self.ts();
        let ghost i0 = self.cursor as int;
        if self.check(TokenTag::LBrace) {
            let block = self.parse_block_expr()?;
            return Ok(Expr { span: block.span, kind: ExprKind::Block(block) });
        }
        if self.check(TokenTag::Match) {
            let m = self.parse_match_expr()?;
            return Ok(Expr { span: m.span, kind: ExprKind::Match(m) });
        }
        if self.consume_if(TokenTag::LBracket).is_some() {
            let start = self.previous().span.start;
            let mut items: Vec<Expr> = Vec::new();
            proof {
                lemma_syn_exprs_push(items@, arbitrary());
            }
            if !self.check(TokenTag::RBracket) {
                loop
                    invariant_except_break
                        p_expr_list(ts, i0 + 1, seq![]) == p_expr_list(ts, self.cursor as int, syn_exprs(items@, 0)),
                    invariant
                        self.wf(),
                        self.tokens@ == old(self).tokens@,
                        old(self).cursor < self.cursor,
                        ts == self.ts(),
                        i0 == old(self).cursor,
                        !at(ts, i0, TokenTag::LBrace),
                        !at(ts, i0, TokenTag::Match),
                        at(ts, i0, TokenTag::LBracket),
                        !at(ts, i0 + 1, TokenTag::RBracket),
                    ensures
                        p_expr_list(ts, i0 + 1, seq![]) == Ok::<(Seq<SynExpr>, int), SynError>(
                            (syn_exprs(items@, 0), self.cursor as int),
                        ),
                    decreases self.tokens.len() - self.cursor,
                {
                    let ghost before = items@;
                    let ghost c = self.cursor as int;
                    let a = match self.parse_expr(0) {
                        Ok(a) => a,
                        Err(e) => {
                            proof {
                                assert(p_expr_list(ts, c, syn_exprs(before, 0)) == Err::<(Seq<SynExpr>, int), SynError>((e.position, e.message@)));
                            }
                            return Err(e);
                        },
                    };
                    items.push(a);
                    proof {
                        lemma_syn_exprs_push(before, a);
                    }
                    if self.consume_if(TokenTag::Comma).is_none() {
                        break;
                    }
                }
            }
            let end = self.expect(TokenTag::RBracket)?.span.end;
            return Ok(Expr { span: Span::join(start, end), kind: ExprKind::List(items) });
        }
        if self.consume_if(TokenTag::LParen).is_some() {
            let start = self.previous().span.start;
            let first = self.parse_expr(0)?;
            let ghost j = self.cursor as int;
            if self.consume_if(TokenTag::Comma).is_some() {
                let mut items: Vec<Expr> = Vec::new();
                proof {
                    lemma_syn_exprs_push(items@, first);
                }
                items.push(first);
                loop
                    invariant_except_break
                        p_expr_list(ts, j + 1, seq![syn_expr(first)]) == p_expr_list(
                            ts,
                            self.cursor as int,
                            syn_exprs(items@, 0),
                        ),
                    invariant
                        self.wf(),
                        self.tokens@ == old(self).tokens@,
                        old(self).cursor < self.cursor,
                        ts == self.ts(),
                        i0 == old(self).cursor,
                        !at(ts, i0, TokenTag::LBrace),
                        !at(ts, i0, TokenTag::Match),
                        !at(ts, i0, TokenTag::LBracket),
                        at(ts, i0, TokenTag::LParen),
                        p_expr(ts, i0 + 1, 0) == Ok::<(SynExpr, int), SynError>((syn_expr(first), j)),
                        i0 < j < ts.len(),
                        at(ts, j, TokenTag::Comma),
                    ensures
                        p_expr_list(ts, j + 1, seq![syn_expr(first)]) == Ok::<(Seq<SynExpr>, int), SynError>(
                            (syn_exprs(items@, 0), self.cursor as int),
                        ),
                    decreases self.tokens.len() - self.cursor,
                {
                    let ghost before = items@;
                    let ghost c = self.cursor as int;
                    let a = match self.parse_expr(0) {
                        Ok(a) => a,
                        Err(e) => {
                            proof {
                                assert(p_expr_list(ts, c, syn_exprs(before, 0)) == Err::<(Seq<SynExpr>, int), SynError>((e.position, e.message@)));
                            }
                            return Err(e);
                        },
                    };
                    items.push(a);
                    proof {
                        lemma_syn_exprs_push(before, a);
                    }
                    if self.consume_if(TokenTag::Comma).is_none() {
                        break;
                    }
                }
                let end = self.expect(TokenTag::RParen)?.span.end;
                return Ok(Expr { span: Span::join(start, end), kind: ExprKind::Tuple(items) });
            }
            let end = self.expect(TokenTag::RParen)?.span.end;
            return Ok(Expr { span: Span::join(start, end), kind: first.kind });
        }
        let ghost p0 = *old(self);
        let token = self.bump();
        let span = token.span;
        let ghost j = self.cursor as int;
        let kind = match token.kind {
            TokenKind::Ident(name) => {
                if self.check(TokenTag::LBrace) && self.looks_like_record_expr() {
                    self.bump();
                    let mut fields: Vec<RecordField> = Vec::new();
                    proof {
                        lemma_syn_rfields_push(fields@, arbitrary());
                    }
                    while !self.check(TokenTag::RBrace)
                        invariant
                            self.wf(),
                            self.tokens@ == old(self).tokens@,
                            old(self).cursor < self.cursor,
                            ts == self.ts(),
                            i0 == old(self).cursor,
                            !at(ts, i0, TokenTag::LBrace),
                            !at(ts, i0, TokenTag::Match),
                            !at(ts, i0, TokenTag::LBracket),
                            !at(ts, i0, TokenTag::LParen),
                            ts[i0].tag == TokenTag::Ident,
                            ts[i0].text == name@,
                            ts[i0].span == span,
                            j == i0 + 1,
                            record_ahead(ts, j),
                            p_rfields(ts, j + 1, seq![]) == p_rfields(ts, self.cursor as int, syn_rfields(fields@, 0)),
                        decreases self.tokens.len() - self.cursor,
                    {
                        let ghost before = fields@;
                        let ghost c = self.cursor as int;
                        let f_start = self.current().span.start;
                        let f_name = match self.expect_ident() {
                            Ok(n) => n,
                            Err(e) => {
                                proof {
                                    assert(p_rfields(ts, c, syn_rfields(before, 0)) == Err::<(Seq<SynRecordField>, int), SynError>((e.position, e.message@)));
                                }
                                return Err(e);
                            },
                        };
                        match self.expect(TokenTag::Colon) {
                            Ok(_) => {},
                            Err(e) => {
                                proof {
                                    assert(p_rfields(ts, c, syn_rfields(before, 0)) == Err::<(Seq<SynRecordField>, int), SynError>((e.position, e.message@)));
                                }
                                return Err(e);
                            },
                        }
                        let f_value = match self.parse_expr(0) {
                            Ok(v) => v,
                            Err(e) => {
                                proof {
                                    assert(p_rfields(ts, c, syn_rfields(before, 0)) == Err::<(Seq<SynRecordField>, int), SynError>((e.position, e.message@)));
                                }
                                return Err(e);
                            },
                        };
                        let field = RecordField {
                            name: f_name,
                            value: f_value,
                            span: Span::join(f_start, self.previous().span.end),
                        };
                        fields.push(field);
                        proof {
                            lemma_syn_rfields_push(before, field);
                        }
                        let _ = self.consume_if(TokenTag::Comma);
                        let _ = self.consume_if(TokenTag::Semi);
                    }
                    self.expect(TokenTag::RBrace)?;
                    ExprKind::Record { name, fields }
                } else {
                    ExprKind::Ident(name)
                }
            },
            TokenKind::State => ExprKind::Ident(owned("state")),
            TokenKind::Event => ExprKind::Ident(owned("event")),
            TokenKind::Query => ExprKind::Ident(owned("query")),
            TokenKind::Update => ExprKind::Ident(owned("update")),
            TokenKind::Enum => ExprKind::Ident(owned("enum")),
            TokenKind::Record => ExprKind::Ident(owned("record")),
            TokenKind::Let => ExprKind::Ident(owned("let")),
            TokenKind::Match => ExprKind::Ident(owned("match")),
            TokenKind::Return => ExprKind::Ident(owned("return")),
            TokenKind::If => ExprKind::Ident(owned("if")),
            TokenKind::Fn => ExprKind::Ident(owned("fn")),
            TokenKind::Int(v) => ExprKind::Int(v),
            TokenKind::True => ExprKind::Bool(true),
            TokenKind::False => ExprKind::Bool(false),
            other => {
                let tag = TokenTag::of(&other);
                let message = concat_str(owned("expected expression, found "), display_tag(&tag));
                proof {
                    assert(p0.tokens@[p0.cursor as int].span.start == span.start);
                }
                return Err(error_at(message, span.start));
            },
        };
        Ok(Expr { kind, span })
    }
    fn parse_match_expr(&mut self) -> (r: Result<MatchExpr, ParseError>)
        requires
            old(self).wf(),
        ensures
            step(*old(self), *final(self), r),
            match (r, p_match(old(self).ts(), old(self).cursor as int)) {
                (Ok(m), Ok((x, j))) => syn_match(m) == x && final(self).cursor == j,
                (Err(e), Err(p)) => e.position == p.0 && e.message@ == p.1,
                _ => false,
            },
        decreases old(self).remaining(), 0nat,
    {
        let ghost ts = self.ts();
        let ghost i0 = self.cursor as int;
        let start = self.expect(TokenTag::Match)?.span.start;
        let subject = self.parse_expr(0)?;
        let ghost j = self.cursor as int;
        self.expect(TokenTag::LBrace)?;
        let ghost a1 = self.cursor as int;
        let mut arms: Vec<MatchArm> = Vec::new();
        proof {
            lemma_syn_arms_push(arms@, arbitrary());
        }
        while !self.check(TokenTag::RBrace)
            invariant
                self.wf(),
                self.tokens@ == old(self).tokens@,
                old(self).cursor < self.cursor,
                ts == self.ts(),
                i0 == old(self).cursor,
                expect_at(ts, i0, TokenTag::Match) == Ok::<int, SynError>(i0 + 1),
                p_expr(ts, i0 + 1, 0) == Ok::<(SynExpr, int), SynError>((syn_expr(subject), j)),
                i0 < j < ts.len(),
                expect_at(ts, j, TokenTag::LBrace) == Ok::<int, SynError>(a1),
                p_arms(ts, a1, seq![]) == p_arms(ts, self.cursor as int, syn_arms(arms@, 0)),
            decreases self.tokens.len() - self.cursor,
        {
            let ghost before = arms@;
            let ghost c = self.cursor as int;
            let a = match self.parse_match_arm() {
                Ok(a) => a,
                Err(e) => {
                    proof {
                        assert(p_arms(ts, c, syn_arms(before, 0)) == Err::<(Seq<SynArm>, int), SynError>((e.position, e.message@)));
                    }
                    return Err(e);
                },
            };
            arms.push(a);
            proof {
                lemma_syn_arms_push(before, a);
            }
            let _ = self.consume_if(TokenTag::Comma);
            let _ = self.consume_if(TokenTag::Semi);
        }
        let end = self.expect(TokenTag::RBrace)?.span.end;
        Ok(MatchExpr { subject: Box::new(subject), arms, span: Span::join(start, end) })
    }
    fn parse_match_arm(&mut self) -> (r: Result<MatchArm, ParseError>)
        requires
            old(self).wf(),
        ensures
            step(*old(self), *final(self), r),
            match (r, p_arm(old(self).ts(), old(self).cursor as int)) {
                (Ok(a), Ok((x, j))) => syn_arm(a) == x && final(self).cursor == j,
                (Err(e), Err(p)) => e.position == p.0 && e.message@ == p.1,
                _ => false,
            },
        decreases old(self).remaining(), 0nat,
    {
        let start = self.current().span.start;
        let pattern = self.parse_pattern()?;
        let guard = if self.consume_if(TokenTag::If).is_some() {
            Some(self.parse_expr(0)?)
        } else {
            None
        };
        self.expect(TokenTag::FatArrow)?;
        let body = self.parse_expr(0)?;
        let span = Span::join(start, body.span.end);
        Ok(MatchArm { pattern, guard, span, body })
    }
    fn parse_pattern(&mut self) -> (r: Result<Pattern, ParseError>)
        requires
            old(self).wf(),
        ensures
            step(*old(self), *final(self), r),
            match (r, p_pattern(old(self).ts(), old(self).cursor as int)) {
                (Ok(p), Ok((x, j))) => syn_pattern(p) == x && final(self).cursor == j,
                (Err(e), Err(p)) => e.position == p.0 && e.message@ == p.1,
                _ => false,
            },
        decreases old(self).remaining(), 0nat,
    {
        let ghost ts = self.ts();
        let ghost i0 = self.cursor as int;
        if self.consume_if(TokenTag::Underscore).is_some() {
            let span = self.previous().span;
            return Ok(Pattern { kind: PatternKind::Wildcard, span });
        }
        if self.check(TokenTag::Int) {
            let t = self.bump();
            let value = match t.kind {
                TokenKind::Int(v) => v,
                _ => 0,
            };
            return Ok(Pattern { kind: PatternKind::Int(value), span: t.span });
        }
        let (name, start) = self.expect_ident_with_span()?;
        let ghost j = self.cursor as int;
        let mut fields: Vec<PatternField> = Vec::new();
        let mut end = self.previous().span.end;
        proof {
            lemma_syn_pfields_push(fields@, arbitrary());
        }
        if self.consume_if(TokenTag::LBrace).is_some() {
            let ghost i1 = self.cursor as int;
            while !self.check(TokenTag::RBrace)
                invariant
                    self.wf(),
                    self.tokens@ == old(self).tokens@,
                    old(self).cursor < self.cursor,
                    ts == self.ts(),
                    i0 == old(self).cursor,
                    i1 == j + 1,
                    !at(ts, i0, TokenTag::Underscore),
                    name_at(ts, i0) == Ok::<(Seq<char>, int), SynError>((name@, j)),
                    at(ts, j, TokenTag::LBrace),
                    p_pfields(ts, i1, seq![]) == p_pfields(ts, self.cursor as int, syn_pfields(fields@, 0)),
                decreases self.tokens.len() - self.cursor,
            {
                let ghost before = fields@;
                let ghost c = self.cursor as int;
                let f = match self.parse_pattern_field() {
                    Ok(f) => f,
                    Err(e) => {
                        proof {
                            assert(p_pfields(ts, c, syn_pfields(before, 0)) == Err::<(Seq<SynPatternField>, int), SynError>((e.position, e.message@)));
                        }
                        return Err(e);
                    },
                };
                fields.push(f);
                proof {
                    lemma_syn_pfields_push(before, f);
                }
                let _ = self.consume_if(TokenTag::Comma);
            }
            end = self.expect(TokenTag::RBrace)?.span.end;
        }
        Ok(Pattern { kind: PatternKind::Variant { name, fields }, span: Span::join(start, end) })
    }
    fn parse_pattern_field(&mut self) -> (r: Result<PatternField, ParseError>)
        requires
            old(self).wf(),
        ensures
            step(*old(self), *final(self), r),
            match (r, p_pfield(old(self).ts(), old(self).cursor as int)) {
                (Ok(f), Ok((x, j))) => syn_pfield(f) == x && final(self).cursor == j,
                (Err(e), Err(p)) => e.position == p.0 && e.message@ == p.1,
                _ => false,
            },
        decreases old(self).remaining(), 0nat,
    {
        let start = self.current().span.start;
        let name = self.expect_ident()?;
        let pattern = if self.consume_if(TokenTag::Colon).is_some() {
            Some(Box::new(self.parse_pattern()?))
        } else {
            None
        };
        let end = match &pattern {
            Some(p) => p.span.end,
            None => self.previous().span.end,
        };
        Ok(PatternField { name, pattern, span: Span::join(start, end) })
    }
    fn current_binary_op(&self) -> (r: Option<(BinaryOp, u8)>)
        requires
            self.wf(),
        ensures
            r matches Some((_, prec)) ==> prec <= 20,
            match r {
                Some((op, prec)) => op_of(self.ts()[self.cursor as int].tag) == Some((op, prec as int)),
                None => op_of(self.ts()[self.cursor as int].tag) is None,
            },
    {
        match self.current().kind {
            TokenKind::Plus => Some((BinaryOp::Add, 10)),
            TokenKind::Minus => Some((BinaryOp::Sub, 10)),
            TokenKind::Star => Some((BinaryOp::Mul, 20)),
            TokenKind::Slash => Some((BinaryOp::Div, 20)),
            _ => None,
        }
    }

    fn expect_ident(&mut self) -> (r: Result<String, ParseError>)
        requires
            old(self).wf(),
        ensures
            step(*old(self), *final(self), r),
            match (r, name_at(old(self).ts(), old(self).cursor as int)) {
                (Ok(s), Ok((n, j))) => s@ == n && final(self).cursor == j,
                (Err(e), Err(p)) => e.position == p.0 && e.message@ == p.1,
                _ => false,
            },
    {
        let ghost p0 = *old(self);
        let token = self.bump();
        match token_to_ident(&token.kind) {
            Some(name) => Ok(name),
            None => {
                let tag = TokenTag::of(&token.kind);
                let message = concat_str(owned("expected identifier, found "), display_tag(&tag));
                proof {
                    assert(p0.tokens@[p0.cursor as int].span.start == token.span.start);
                }
                Err(error_at(message, token.span.start))
            },
        }
    }

    fn expect_ident_with_span(&mut self) -> (r: Result<(String, Position), ParseError>)
        requires
            old(self).wf(),
        ensures
            step(*old(self), *final(self), r),
            r matches Ok((s, p)) ==> p == old(self).tokens@[old(self).cursor as int].span.start,
            match (r, name_at(old(self).ts(), old(self).cursor as int)) {
                (Ok((s, _)), Ok((n, j))) => s@ == n && final(self).cursor == j,
                (Err(e), Err(p)) => e.position == p.0 && e.message@ == p.1,
                _ => false,
            },
    {
        let ghost p0 = *old(self);
        let token = self.bump();
        let start = token.span.start;
        match token_to_ident(&token.kind) {
            Some(name) => Ok((name, start)),
            None => {
                let tag = TokenTag::of(&token.kind);
                let message = concat_str(owned("expected identifier, found "), display_tag(&tag));
                proof {
                    assert(p0.tokens@[p0.cursor as int].span.start == token.span.start);
                }
                Err(error_at(message, token.span.start))
            },
        }
    }

    fn expect(&mut self, expected: TokenTag) -> (r: Result<Token, ParseError>)
        requires
            old(self).wf(),
            expected != TokenTag::Eof,
        ensures
            step(*old(self), *final(self), r),
            r matches Ok(t) ==> t == old(self).tokens@[old(self).cursor as int] && t.kind.tag()
                == expected,
            match (r, expect_at(old(self).ts(), old(self).cursor as int, expected)) {
                (Ok(_), Ok(j)) => final(self).cursor == j,
                (Err(e), Err(p)) => e.position == p.0 && e.message@ == p.1,
                _ => false,
            },
    {
        let ghost p0 = *old(self);
        let token = self.bump();
        let actual = TokenTag::of(&token.kind);
        if actual == expected {
            Ok(token)
        } else {
            let message = expected_found(display_tag(&expected), display_tag(&actual));
            proof {
                assert(p0.tokens@[p0.cursor as int].span.start == token.span.start);
            }
            Err(error_at(message, token.span.start))
        }
    }

    fn consume_if(&mut self, expected: TokenTag) -> (r: Option<Token>)
        requires
            old(self).wf(),
            expected != TokenTag::Eof,
        ensures
            final(self).wf(),
            final(self).tokens@ == old(self).tokens@,
            r is Some ==> final(self).cursor == old(self).cursor + 1,
            r is None ==> final(self).cursor == old(self).cursor,
            r is Some <==> old(self).tokens@[old(self).cursor as int].kind.tag() == expected,
            r is Some <==> at(old(self).ts(), old(self).cursor as int, expected),
            final(self).cursor == skip(old(self).ts(), old(self).cursor as int, expected),
    {
        if self.check(expected) {
            Some(self.bump())
        } else {
            None
        }
    }

    fn check(&self, tag: TokenTag) -> (r: bool)
        requires
            self.wf(),
        ensures
            r == (self.tokens@[self.cursor as int].kind.tag() == tag),
            r == (self.ts()[self.cursor as int].tag == tag),
            tag != TokenTag::Eof ==> r == at(self.ts(), self.cursor as int, tag),
    {
        TokenTag::of(&self.current().kind) == tag
    }

    fn current(&self) -> (t: &Token)
        requires
            self.wf(),
        ensures
            *t == self.tokens@[self.cursor as int],
    {
        &self.tokens[self.cursor]
    }

    fn previous(&self) -> (t: &Token)
        requires
            self.wf(),
        ensures
            *t == self.tokens@[if self.cursor == 0 {
                0
            } else {
                self.cursor - 1
            }],
    {
        let idx = if self.cursor == 0 {
            0
        } else {
            self.cursor - 1
        };
        &self.tokens[idx]
    }

    fn previous_tag(&self) -> (t: TokenTag)
        requires
            self.wf(),
        ensures
            t == self.ts()[prev(self.cursor as int)].tag,
    {
        TokenTag::of(&self.previous().kind)
    }

    fn looks_like_record_expr(&self) -> (r: bool)
        requires
            self.wf(),
        ensures
            r == (peek(self.ts(), self.cursor as int, 1) == TokenTag::RBrace || peek(
                self.ts(),
                self.cursor as int,
                2,
            ) == TokenTag::Colon),
    {
        self.peek_tag(1) == TokenTag::RBrace || self.peek_tag(2) == TokenTag::Colon
    }

    fn peek_tag(&self, offset: usize) -> (t: TokenTag)
        requires
            self.wf(),
            offset <= 2,
        ensures
            t == peek(self.ts(), self.cursor as int, offset as int),
    {
        let sum = if self.cursor <= usize::MAX - offset {
            self.cursor + offset
        } else {
            usize::MAX
        };
        let last = self.tokens.len() - 1;
        let idx = if sum < last {
            sum
        } else {
            last
        };
        TokenTag::of(&self.tokens[idx].kind)
    }

    fn bump(&mut self) -> (t: Token)
        requires
            old(self).wf(),
        ensures
            final(self).wf(),
            final(self).tokens@ == old(self).tokens@,
            t == old(self).tokens@[old(self).cursor as int],
            final(self).cursor == (if t.kind is Eof {
                old(self).cursor as int
            } else {
                old(self).cursor + 1
            }),
    {
        let idx = self.cursor;
        let token = Token { kind: copy_kind(&self.tokens[idx].kind), span: self.tokens[idx].span };
        if !self.at_eof() {
            self.cursor = self.cursor + 1;
        }
        token
    }

    fn at_eof(&self) -> (r: bool)
        requires
            self.wf(),
        ensures
            r == self.tokens@[self.cursor as int].kind is Eof,
            !r ==> self.cursor + 1 < self.tokens.len(),
    {
        matches!(self.tokens[self.cursor].kind, TokenKind::Eof)
    }

    /// An error at the current token.
    fn error_here(&self, message: String) -> (e: ParseError)
        requires
            self.wf(),
        ensures
            at_some_token(self.tokens@, e.position),
            e.position == self.ts()[self.cursor as int].span.start,
            e.message == message,
    {
        let position = self.current().span.start;
        proof {
            assert(self.tokens@[self.cursor as int].span.start == position);
        }
        error_at(message, position)
    }

    /// An error at a position known to be the start of the token at index `k`.
    fn error_at_cursor(&self, message: String, position: Position, k: Ghost<int>) -> (e: ParseError)
        requires
            0 <= k@ < self.tokens@.len(),
            self.tokens@[k@].span.start == position,
        ensures
            at_some_token(self.tokens@, e.position),
            e.position == position,
            e.message == message,
    {
        proof {
            assert(self.tokens@[k@].span.start == position);
        }
        error_at(message, position)
    }
}

} // verus!
