use vstd::prelude::*;
use crate::syntax::ast::{
    BinaryOp, BlockExpr, Expr, ExprKind, FieldDecl, FnDecl, FnKind, MatchArm, MatchExpr, Param, Pattern,
    PatternField, PatternKind, RecordBody, RecordField, Stmt, TopDecl, TypeDecl, TypeDeclKind, TypeExpr,
    TypeExprKind, VariantDecl, VariantList,
};
use crate::syntax::lexer::{digits_value, pos_at, Lexeme};
use crate::syntax::span::{start_position, Position, Span};
use crate::syntax::token::{tag_text, Token, TokenKind, TokenTag};

verus! {

// ---------------------------------------------------------------------------
// Tokens as the grammar reads them
// ---------------------------------------------------------------------------

/// What the grammar reads of a token: its tag, an identifier's text, an integer's value, and
/// its span.
pub struct Tok {
    pub tag: TokenTag,
    pub text: Seq<char>,
    pub value: i64,
    pub span: Span,
}

pub open spec fn tok(t: Token) -> Tok {
    Tok {
        tag: t.kind.tag(),
        text: match t.kind {
            TokenKind::Ident(name) => name@,
            _ => seq![],
        },
        value: match t.kind {
            TokenKind::Int(v) => v,
            _ => 0,
        },
        span: t.span,
    }
}

pub open spec fn toks(s: Seq<Token>) -> Seq<Tok> {
    s.map_values(|t: Token| tok(t))
}

/// The token a lexeme of the text `cs` stands for.
pub open spec fn lexeme_tok(cs: Seq<char>, l: Lexeme) -> Tok {
    Tok {
        tag: l.tag,
        text: if l.tag == TokenTag::Ident {
            cs.subrange(l.start, l.end)
        } else {
            seq![]
        },
        value: if l.tag == TokenTag::Int {
            digits_value(cs, l.start, l.end) as i64
        } else {
            0
        },
        span: Span { start: pos_at(cs, l.start), end: pos_at(cs, l.end) },
    }
}

pub open spec fn lexeme_toks(cs: Seq<char>, ls: Seq<Lexeme>) -> Seq<Tok> {
    ls.map_values(|l: Lexeme| lexeme_tok(cs, l))
}

// ---------------------------------------------------------------------------
// Syntax trees
// ---------------------------------------------------------------------------

pub enum SynTypeKind {
    Named(Seq<char>, Seq<SynType>),
    Tuple(Seq<SynType>),
}

pub struct SynType {
    pub kind: SynTypeKind,
    pub span: Span,
}

/// A record field or a parameter: a name and its type.
pub struct SynField {
    pub name: Seq<char>,
    pub ty: SynType,
    pub span: Span,
}

pub struct SynBody {
    pub fields: Seq<SynField>,
    pub span: Span,
}

pub struct SynVariant {
    pub name: Seq<char>,
    pub payload: Seq<SynField>,
    pub span: Span,
}

pub struct SynVariants {
    pub variants: Seq<SynVariant>,
    pub span: Span,
}

pub enum SynTypeDeclKind {
    State(SynBody),
    Record(SynBody),
    Event(SynVariants),
    Query(SynVariants),
    Enum(SynVariants),
}

pub struct SynTypeDecl {
    pub name: Seq<char>,
    pub generics: Seq<Seq<char>>,
    pub kind: SynTypeDeclKind,
    pub span: Span,
}

pub struct SynFn {
    pub kind: FnKind,
    pub name: Seq<char>,
    pub params: Seq<SynField>,
    pub return_type: SynType,
    pub body: SynBlock,
    pub span: Span,
}

pub enum SynTop {
    Type(SynTypeDecl),
    Function(SynFn),
}

pub struct SynBlock {
    pub statements: Seq<SynStmt>,
    pub tail: Option<Box<SynExpr>>,
    pub span: Span,
}

pub enum SynStmt {
    Let(Seq<char>, SynExpr, Span),
    Return(SynExpr, Span),
}

pub struct SynExpr {
    pub kind: SynExprKind,
    pub span: Span,
}

pub enum SynExprKind {
    Ident(Seq<char>),
    Int(i64),
    Bool(bool),
    Tuple(Seq<SynExpr>),
    List(Seq<SynExpr>),
    Record(Seq<char>, Seq<SynRecordField>),
    Binary(Box<SynExpr>, BinaryOp, Box<SynExpr>),
    Call(Box<SynExpr>, Seq<SynExpr>),
    Match(SynMatch),
    Block(SynBlock),
}

pub struct SynMatch {
    pub subject: Box<SynExpr>,
    pub arms: Seq<SynArm>,
    pub span: Span,
}

pub struct SynArm {
    pub pattern: SynPattern,
    pub guard: Option<SynExpr>,
    pub body: SynExpr,
    pub span: Span,
}

pub struct SynRecordField {
    pub name: Seq<char>,
    pub value: SynExpr,
    pub span: Span,
}

pub enum SynPatternKind {
    Wildcard,
    Int(i64),
    Variant(Seq<char>, Seq<SynPatternField>),
}

pub struct SynPattern {
    pub kind: SynPatternKind,
    pub span: Span,
}

pub struct SynPatternField {
    pub name: Seq<char>,
    pub pattern: Option<Box<SynPattern>>,
    pub span: Span,
}

// ---------------------------------------------------------------------------
// The syntax tree of a parsed program
// ---------------------------------------------------------------------------

pub open spec fn syn_type(t: TypeExpr) -> SynType
    decreases t, 0int,
{
    let kind = match t.kind {
        TypeExprKind::Named { name, generics } => SynTypeKind::Named(name@, syn_types(generics@, 0)),
        TypeExprKind::Tuple { items } => SynTypeKind::Tuple(syn_types(items@, 0)),
    };
    SynType { kind, span: t.span }
}

pub open spec fn syn_types(s: Seq<TypeExpr>, i: int) -> Seq<SynType>
    decreases s, s.len() - i,
{
    if 0 <= i < s.len() {
        seq![syn_type(s[i])] + syn_types(s, i + 1)
    } else {
        seq![]
    }
}

pub open spec fn syn_field(f: FieldDecl) -> SynField {
    SynField { name: f.name@, ty: syn_type(f.type_expr), span: f.span }
}

pub open spec fn syn_fields(s: Seq<FieldDecl>) -> Seq<SynField> {
    s.map_values(|f: FieldDecl| syn_field(f))
}

pub open spec fn syn_param(p: Param) -> SynField {
    SynField { name: p.name@, ty: syn_type(p.type_expr), span: p.span }
}

pub open spec fn syn_params(s: Seq<Param>) -> Seq<SynField> {
    s.map_values(|p: Param| syn_param(p))
}

pub open spec fn syn_body(b: RecordBody) -> SynBody {
    SynBody { fields: syn_fields(b.fields@), span: b.span }
}

pub open spec fn syn_variant(v: VariantDecl) -> SynVariant {
    SynVariant { name: v.name@, payload: syn_fields(v.payload@), span: v.span }
}

pub open spec fn syn_variant_seq(s: Seq<VariantDecl>) -> Seq<SynVariant> {
    s.map_values(|v: VariantDecl| syn_variant(v))
}

pub open spec fn syn_variants(l: VariantList) -> SynVariants {
    SynVariants { variants: syn_variant_seq(l.variants@), span: l.span }
}

pub open spec fn syn_names(s: Seq<String>) -> Seq<Seq<char>> {
    s.map_values(|n: String| n@)
}

pub open spec fn syn_type_decl(d: TypeDecl) -> SynTypeDecl {
    SynTypeDecl {
        name: d.name@,
        generics: syn_names(d.generics@),
        kind: match d.kind {
            TypeDeclKind::State(b) => SynTypeDeclKind::State(syn_body(b)),
            TypeDeclKind::Record(b) => SynTypeDeclKind::Record(syn_body(b)),
            TypeDeclKind::Event(l) => SynTypeDeclKind::Event(syn_variants(l)),
            TypeDeclKind::Query(l) => SynTypeDeclKind::Query(syn_variants(l)),
            TypeDeclKind::Enum(l) => SynTypeDeclKind::Enum(syn_variants(l)),
        },
        span: d.span,
    }
}

pub open spec fn syn_fn(f: FnDecl) -> SynFn {
    SynFn {
        kind: f.kind,
        name: f.name@,
        params: syn_params(f.params@),
        return_type: syn_type(f.return_type),
        body: syn_block(f.body),
        span: f.span,
    }
}

pub open spec fn syn_top(d: TopDecl) -> SynTop {
    match d {
        TopDecl::Type(td) => SynTop::Type(syn_type_decl(td)),
        TopDecl::Function(fd) => SynTop::Function(syn_fn(fd)),
    }
}

pub open spec fn syn_tops(s: Seq<TopDecl>) -> Seq<SynTop> {
    s.map_values(|d: TopDecl| syn_top(d))
}

pub open spec fn syn_expr(e: Expr) -> SynExpr
    decreases e, 0int,
{
    let kind = match e.kind {
        ExprKind::Ident(name) => SynExprKind::Ident(name@),
        ExprKind::Int(v) => SynExprKind::Int(v),
        ExprKind::Bool(b) => SynExprKind::Bool(b),
        ExprKind::Tuple(items) => SynExprKind::Tuple(syn_exprs(items@, 0)),
        ExprKind::List(items) => SynExprKind::List(syn_exprs(items@, 0)),
        ExprKind::Record { name, fields } => SynExprKind::Record(name@, syn_rfields(fields@, 0)),
        ExprKind::Binary { lhs, op, rhs } => SynExprKind::Binary(
            Box::new(syn_expr(*lhs)),
            op,
            Box::new(syn_expr(*rhs)),
        ),
        ExprKind::Call { callee, args } => SynExprKind::Call(Box::new(syn_expr(*callee)), syn_exprs(args@, 0)),
        ExprKind::Match(m) => SynExprKind::Match(syn_match(m)),
        ExprKind::Block(b) => SynExprKind::Block(syn_block(b)),
    };
    SynExpr { kind, span: e.span }
}

pub open spec fn syn_exprs(s: Seq<Expr>, i: int) -> Seq<SynExpr>
    decreases s, s.len() - i,
{
    if 0 <= i < s.len() {
        seq![syn_expr(s[i])] + syn_exprs(s, i + 1)
    } else {
        seq![]
    }
}

pub open spec fn syn_rfields(s: Seq<RecordField>, i: int) -> Seq<SynRecordField>
    decreases s, s.len() - i,
{
    if 0 <= i < s.len() {
        seq![SynRecordField { name: s[i].name@, value: syn_expr(s[i].value), span: s[i].span }] + syn_rfields(
            s,
            i + 1,
        )
    } else {
        seq![]
    }
}

pub open spec fn syn_block(b: BlockExpr) -> SynBlock
    decreases b, 0int,
{
    SynBlock {
        statements: syn_stmts(b.statements@, 0),
        tail: match b.tail {
            Some(e) => Some(Box::new(syn_expr(*e))),
            None => None,
        },
        span: b.span,
    }
}

pub open spec fn syn_stmts(s: Seq<Stmt>, i: int) -> Seq<SynStmt>
    decreases s, s.len() - i,
{
    if 0 <= i < s.len() {
        let st = match s[i] {
            Stmt::Let(l) => SynStmt::Let(l.name@, syn_expr(l.value), l.span),
            Stmt::Return(r) => SynStmt::Return(syn_expr(r.value), r.span),
        };
        seq![st] + syn_stmts(s, i + 1)
    } else {
        seq![]
    }
}

pub open spec fn syn_match(m: MatchExpr) -> SynMatch
    decreases m, 0int,
{
    SynMatch { subject: Box::new(syn_expr(*m.subject)), arms: syn_arms(m.arms@, 0), span: m.span }
}

pub open spec fn syn_arms(s: Seq<MatchArm>, i: int) -> Seq<SynArm>
    decreases s, s.len() - i,
{
    if 0 <= i < s.len() {
        let a = s[i];
        let arm = SynArm {
            pattern: syn_pattern(a.pattern),
            guard: match a.guard {
                Some(g) => Some(syn_expr(g)),
                None => None,
            },
            body: syn_expr(a.body),
            span: a.span,
        };
        seq![arm] + syn_arms(s, i + 1)
    } else {
        seq![]
    }
}

pub open spec fn syn_pattern(p: Pattern) -> SynPattern
    decreases p, 0int,
{
    let kind = match p.kind {
        PatternKind::Wildcard => SynPatternKind::Wildcard,
        PatternKind::Int(v) => SynPatternKind::Int(v),
        PatternKind::Variant { name, fields } => SynPatternKind::Variant(name@, syn_pfields(fields@, 0)),
    };
    SynPattern { kind, span: p.span }
}

pub open spec fn syn_pfields(s: Seq<PatternField>, i: int) -> Seq<SynPatternField>
    decreases s, s.len() - i,
{
    if 0 <= i < s.len() {
        let f = s[i];
        let pf = SynPatternField {
            name: f.name@,
            pattern: match f.pattern {
                Some(p) => Some(Box::new(syn_pattern(*p))),
                None => None,
            },
            span: f.span,
        };
        seq![pf] + syn_pfields(s, i + 1)
    } else {
        seq![]
    }
}

// ---------------------------------------------------------------------------
// The grammar: what parsing the tokens from index `i` on gives, and where it stops
// ---------------------------------------------------------------------------

/// Where a parse fails, and its message.
pub type SynError = (Position, Seq<char>);

/// What a parse gives: a tree and the index of the first token after it, or the error.
pub type Parsed<T> = Result<(T, int), SynError>;

/// The error of a guard that holds wherever the grammar is entered from a program's start.
pub open spec fn off_end() -> SynError {
    (start_position(), seq![])
}

/// The token at `i` has the tag `tag` and is not the last token.
pub open spec fn at(ts: Seq<Tok>, i: int, tag: TokenTag) -> bool {
    0 <= i && i + 1 < ts.len() && ts[i].tag == tag
}

/// Past an optional token with the tag `tag`.
pub open spec fn skip(ts: Seq<Tok>, i: int, tag: TokenTag) -> int {
    if at(ts, i, tag) {
        i + 1
    } else {
        i
    }
}

/// The index of the token before the cursor `i` (the first token when `i` is 0).
pub open spec fn prev(i: int) -> int {
    if i == 0 {
        0
    } else {
        i - 1
    }
}

/// The tag `off` tokens ahead of `i`, or of the last token when that is beyond it.
pub open spec fn peek(ts: Seq<Tok>, i: int, off: int) -> TokenTag {
    let last = ts.len() - 1;
    ts[if i + off < last {
        i + off
    } else {
        last
    }].tag
}

/// Past a token with the tag `tag`.
pub open spec fn expect_at(ts: Seq<Tok>, i: int, tag: TokenTag) -> Result<int, SynError> {
    if at(ts, i, tag) {
        Ok(i + 1)
    } else {
        Err((ts[i].span.start, "expected "@ + tag_text(tag)@ + ", found "@ + tag_text(ts[i].tag)@))
    }
}

/// The name a token gives where a name is expected: an identifier's text, or a keyword's
/// spelling.
pub open spec fn name_of(t: Tok) -> Option<Seq<char>> {
    match t.tag {
        TokenTag::Ident => Some(t.text),
        TokenTag::State => Some("state"@),
        TokenTag::Event => Some("event"@),
        TokenTag::Query => Some("query"@),
        TokenTag::Update => Some("update"@),
        TokenTag::Enum => Some("enum"@),
        TokenTag::Record => Some("record"@),
        TokenTag::Let => Some("let"@),
        TokenTag::Match => Some("match"@),
        TokenTag::Return => Some("return"@),
        TokenTag::If => Some("if"@),
        TokenTag::Fn => Some("fn"@),
        _ => None,
    }
}

pub open spec fn name_at(ts: Seq<Tok>, i: int) -> Parsed<Seq<char>> {
    match name_of(ts[i]) {
        Some(n) => Ok((n, i + 1)),
        None => Err((ts[i].span.start, "expected identifier, found "@ + tag_text(ts[i].tag)@)),
    }
}

/// A binary operator and its precedence.
pub open spec fn op_of(tag: TokenTag) -> Option<(BinaryOp, int)> {
    match tag {
        TokenTag::Plus => Some((BinaryOp::Add, 10)),
        TokenTag::Minus => Some((BinaryOp::Sub, 10)),
        TokenTag::Star => Some((BinaryOp::Mul, 20)),
        TokenTag::Slash => Some((BinaryOp::Div, 20)),
        _ => None,
    }
}

/// A position past `i` and before the end.
pub open spec fn ahead(ts: Seq<Tok>, i: int, j: int) -> bool {
    i < j < ts.len()
}

// Types

pub open spec fn p_type(ts: Seq<Tok>, i: int) -> Parsed<SynType>
    decreases ts.len() - i, 0int,
{
    if !(0 <= i < ts.len()) {
        Err(off_end())
    } else if at(ts, i, TokenTag::LParen) {
        let start = ts[i].span.start;
        let items = if at(ts, i + 1, TokenTag::RParen) {
            Ok((seq![], i + 1))
        } else {
            p_type_list(ts, i + 1, seq![])
        };
        match items {
            Err(p) => Err(p),
            Ok((xs, k)) => match expect_at(ts, k, TokenTag::RParen) {
                Err(p) => Err(p),
                Ok(k2) => Ok((SynType { kind: SynTypeKind::Tuple(xs), span: Span { start, end: ts[k].span.end } }, k2)),
            },
        }
    } else {
        match name_at(ts, i) {
            Err(p) => Err(p),
            Ok((name, j)) => {
                let start = ts[i].span.start;
                if at(ts, j, TokenTag::LAngle) {
                    match p_type_list(ts, j + 1, seq![]) {
                        Err(p) => Err(p),
                        Ok((gs, k)) => match expect_at(ts, k, TokenTag::RAngle) {
                            Err(p) => Err(p),
                            Ok(k2) => Ok(
                                (
                                    SynType {
                                        kind: SynTypeKind::Named(name, gs),
                                        span: Span { start, end: ts[k].span.end },
                                    },
                                    k2,
                                ),
                            ),
                        },
                    }
                } else {
                    Ok((SynType { kind: SynTypeKind::Named(name, seq![]), span: Span { start, end: ts[i].span.end } }, j))
                }
            },
        }
    }
}

/// Types separated by commas.
pub open spec fn p_type_list(ts: Seq<Tok>, i: int, acc: Seq<SynType>) -> Parsed<Seq<SynType>>
    decreases ts.len() - i, 1int,
{
    if !(0 <= i < ts.len()) {
        Err(off_end())
    } else {
        match p_type(ts, i) {
            Err(p) => Err(p),
            Ok((t, j)) => if !ahead(ts, i, j) {
                Err(off_end())
            } else if at(ts, j, TokenTag::Comma) {
                p_type_list(ts, j + 1, acc.push(t))
            } else {
                Ok((acc.push(t), j))
            },
        }
    }
}

// Declarations

/// A name, a colon and a type: a record field or a parameter.
pub open spec fn p_field(ts: Seq<Tok>, i: int) -> Parsed<SynField> {
    if !(0 <= i < ts.len()) {
        Err(off_end())
    } else {
        let start = ts[i].span.start;
        match name_at(ts, i) {
            Err(p) => Err(p),
            Ok((name, j)) => match expect_at(ts, j, TokenTag::Colon) {
                Err(p) => Err(p),
                Ok(j2) => match p_type(ts, j2) {
                    Err(p) => Err(p),
                    Ok((ty, k)) => Ok((SynField { name, ty, span: Span { start, end: ty.span.end } }, k)),
                },
            },
        }
    }
}

/// Fields up to a closing brace, each followed by an optional comma and an optional semicolon.
pub open spec fn p_fields_loop(ts: Seq<Tok>, i: int, acc: Seq<SynField>) -> Parsed<Seq<SynField>>
    decreases ts.len() - i,
{
    if !(0 <= i < ts.len()) {
        Err(off_end())
    } else if ts[i].tag == TokenTag::RBrace {
        Ok((acc, i))
    } else {
        match p_field(ts, i) {
            Err(p) => Err(p),
            Ok((f, j)) => if !ahead(ts, i, j) {
                Err(off_end())
            } else {
                p_fields_loop(ts, skip(ts, skip(ts, j, TokenTag::Comma), TokenTag::Semi), acc.push(f))
            },
        }
    }
}

pub open spec fn p_body(ts: Seq<Tok>, i: int) -> Parsed<SynBody> {
    match expect_at(ts, i, TokenTag::LBrace) {
        Err(p) => Err(p),
        Ok(j) => match p_fields_loop(ts, j, seq![]) {
            Err(p) => Err(p),
            Ok((fs, k)) => match expect_at(ts, k, TokenTag::RBrace) {
                Err(p) => Err(p),
                Ok(k2) => Ok((SynBody { fields: fs, span: Span { start: ts[i].span.start, end: ts[k].span.end } }, k2)),
            },
        },
    }
}

pub open spec fn p_variant(ts: Seq<Tok>, i: int) -> Parsed<SynVariant> {
    match expect_at(ts, i, TokenTag::Pipe) {
        Err(p) => Err(p),
        Ok(j0) => match name_at(ts, j0) {
            Err(p) => Err(p),
            Ok((name, j)) => {
                let payload = if ts[j].tag == TokenTag::LBrace {
                    match p_body(ts, j) {
                        Err(p) => Err(p),
                        Ok((b, k)) => Ok((b.fields, k)),
                    }
                } else {
                    Ok((seq![], j))
                };
                match payload {
                    Err(p) => Err(p),
                    Ok((fs, k)) => {
                        let end = if ts[prev(k)].tag == TokenTag::RBrace {
                            ts[prev(k)].span.end
                        } else if fs.len() > 0 {
                            fs.last().span.end
                        } else {
                            ts[prev(k)].span.end
                        };
                        Ok((SynVariant { name, payload: fs, span: Span { start: ts[i].span.start, end } }, k))
                    },
                }
            },
        },
    }
}

pub open spec fn p_variants_loop(ts: Seq<Tok>, i: int, acc: Seq<SynVariant>) -> Parsed<Seq<SynVariant>>
    decreases ts.len() - i,
{
    if !(0 <= i < ts.len()) {
        Err(off_end())
    } else if ts[i].tag == TokenTag::Pipe {
        match p_variant(ts, i) {
            Err(p) => Err(p),
            Ok((v, j)) => if !ahead(ts, i, j) {
                Err(off_end())
            } else {
                p_variants_loop(ts, j, acc.push(v))
            },
        }
    } else {
        Ok((acc, i))
    }
}

/// Variants, each introduced by `|`; there is at least one.
pub open spec fn p_variants(ts: Seq<Tok>, i: int) -> Parsed<SynVariants> {
    match p_variants_loop(ts, i, seq![]) {
        Err(p) => Err(p),
        Ok((vs, k)) => if vs.len() == 0 {
            Err((ts[i].span.start, "variant list requires at least one `|` arm"@))
        } else {
            Ok((SynVariants { variants: vs, span: Span { start: ts[i].span.start, end: vs.last().span.end } }, k))
        },
    }
}

/// Names separated by commas.
pub open spec fn p_names_loop(ts: Seq<Tok>, i: int, acc: Seq<Seq<char>>) -> Parsed<Seq<Seq<char>>>
    decreases ts.len() - i,
{
    if !(0 <= i < ts.len()) {
        Err(off_end())
    } else {
        match name_at(ts, i) {
            Err(p) => Err(p),
            Ok((n, j)) => if at(ts, j, TokenTag::Comma) {
                p_names_loop(ts, j + 1, acc.push(n))
            } else {
                Ok((acc.push(n), j))
            },
        }
    }
}

/// Optional generic parameters: names between angle brackets.
pub open spec fn p_generics(ts: Seq<Tok>, i: int) -> Parsed<Seq<Seq<char>>> {
    if !at(ts, i, TokenTag::LAngle) {
        Ok((seq![], i))
    } else {
        match p_names_loop(ts, i + 1, seq![]) {
            Err(p) => Err(p),
            Ok((ns, k)) => match expect_at(ts, k, TokenTag::RAngle) {
                Err(p) => Err(p),
                Ok(k2) => Ok((ns, k2)),
            },
        }
    }
}

/// A type declaration introduced by the keyword `kw`.
pub open spec fn p_type_decl(ts: Seq<Tok>, i: int, kw: TokenTag) -> Parsed<SynTypeDecl> {
    match expect_at(ts, i, kw) {
        Err(p) => Err(p),
        Ok(j0) => match name_at(ts, j0) {
            Err(p) => Err(p),
            Ok((name, j)) => match p_generics(ts, j) {
                Err(p) => Err(p),
                Ok((generics, k)) => {
                    let start = ts[i].span.start;
                    if kw == TokenTag::State || kw == TokenTag::Record {
                        match p_body(ts, k) {
                            Err(p) => Err(p),
                            Ok((b, m)) => {
                                let kind = if kw == TokenTag::State {
                                    SynTypeDeclKind::State(b)
                                } else {
                                    SynTypeDeclKind::Record(b)
                                };
                                Ok((SynTypeDecl { name, generics, kind, span: Span { start, end: b.span.end } }, m))
                            },
                        }
                    } else {
                        match expect_at(ts, k, TokenTag::Eq) {
                            Err(p) => Err(p),
                            Ok(k2) => match p_variants(ts, k2) {
                                Err(p) => Err(p),
                                Ok((vs, m)) => {
                                    let kind = if kw == TokenTag::Event {
                                        SynTypeDeclKind::Event(vs)
                                    } else if kw == TokenTag::Query {
                                        SynTypeDeclKind::Query(vs)
                                    } else {
                                        SynTypeDeclKind::Enum(vs)
                                    };
                                    Ok((SynTypeDecl { name, generics, kind, span: Span { start, end: vs.span.end } }, m))
                                },
                            },
                        }
                    }
                },
            },
        },
    }
}

/// Parameters separated by commas.
pub open spec fn p_params_loop(ts: Seq<Tok>, i: int, acc: Seq<SynField>) -> Parsed<Seq<SynField>>
    decreases ts.len() - i,
{
    if !(0 <= i < ts.len()) {
        Err(off_end())
    } else {
        match p_field(ts, i) {
            Err(p) => Err(p),
            Ok((f, j)) => if !ahead(ts, i, j) {
                Err(off_end())
            } else if at(ts, j, TokenTag::Comma) {
                p_params_loop(ts, j + 1, acc.push(f))
            } else {
                Ok((acc.push(f), j))
            },
        }
    }
}

/// What follows a function's name: parameters, `->`, the return type and the body.
pub open spec fn p_fn_tail(ts: Seq<Tok>, i: int, kind: FnKind, name: Seq<char>, start: Position) -> Parsed<SynFn> {
    match expect_at(ts, i, TokenTag::LParen) {
        Err(p) => Err(p),
        Ok(j) => {
            let params = if at(ts, j, TokenTag::RParen) {
                Ok((seq![], j))
            } else {
                p_params_loop(ts, j, seq![])
            };
            match params {
                Err(p) => Err(p),
                Ok((ps, k)) => match expect_at(ts, k, TokenTag::RParen) {
                    Err(p) => Err(p),
                    Ok(k2) => match expect_at(ts, k2, TokenTag::Arrow) {
                        Err(p) => Err(p),
                        Ok(k3) => match p_type(ts, k3) {
                            Err(p) => Err(p),
                            Ok((rt, m)) => match p_block(ts, m) {
                                Err(p) => Err(p),
                                Ok((body, n)) => Ok(
                                    (
                                        SynFn {
                                            kind,
                                            name,
                                            params: ps,
                                            return_type: rt,
                                            body,
                                            span: Span { start, end: body.span.end },
                                        },
                                        n,
                                    ),
                                ),
                            },
                        },
                    },
                },
            }
        },
    }
}

pub open spec fn p_user_fn(ts: Seq<Tok>, i: int) -> Parsed<SynFn> {
    match expect_at(ts, i, TokenTag::Fn) {
        Err(p) => Err(p),
        Ok(j0) => match name_at(ts, j0) {
            Err(p) => Err(p),
            Ok((name, j)) => p_fn_tail(ts, j, FnKind::User, name, ts[i].span.start),
        },
    }
}

/// An `update` or `query` function.
pub open spec fn p_entry_fn(ts: Seq<Tok>, i: int, kw: TokenTag) -> Parsed<SynFn> {
    match expect_at(ts, i, kw) {
        Err(p) => Err(p),
        Ok(j) => if kw == TokenTag::Update {
            p_fn_tail(ts, j, FnKind::Update, "update"@, ts[i].span.start)
        } else {
            p_fn_tail(ts, j, FnKind::Query, "query"@, ts[i].span.start)
        },
    }
}

pub open spec fn fn_top(r: Parsed<SynFn>) -> Parsed<SynTop> {
    match r {
        Err(p) => Err(p),
        Ok((f, j)) => Ok((SynTop::Function(f), j)),
    }
}

pub open spec fn type_top(r: Parsed<SynTypeDecl>) -> Parsed<SynTop> {
    match r {
        Err(p) => Err(p),
        Ok((d, j)) => Ok((SynTop::Type(d), j)),
    }
}

/// A top-level declaration, told apart by its first token (and, for `query`, by whether a
/// parenthesis follows).
pub open spec fn p_top(ts: Seq<Tok>, i: int) -> Parsed<SynTop> {
    match ts[i].tag {
        TokenTag::Fn => fn_top(p_user_fn(ts, i)),
        TokenTag::Update => fn_top(p_entry_fn(ts, i, TokenTag::Update)),
        TokenTag::Query => if peek(ts, i, 1) == TokenTag::LParen {
            fn_top(p_entry_fn(ts, i, TokenTag::Query))
        } else {
            type_top(p_type_decl(ts, i, TokenTag::Query))
        },
        TokenTag::State => type_top(p_type_decl(ts, i, TokenTag::State)),
        TokenTag::Event => type_top(p_type_decl(ts, i, TokenTag::Event)),
        TokenTag::Enum => type_top(p_type_decl(ts, i, TokenTag::Enum)),
        TokenTag::Record => type_top(p_type_decl(ts, i, TokenTag::Record)),
        _ => Err((ts[i].span.start, "expected top-level declaration, found "@ + tag_text(ts[i].tag)@)),
    }
}

pub open spec fn p_program_loop(ts: Seq<Tok>, i: int, acc: Seq<SynTop>) -> Parsed<Seq<SynTop>>
    decreases ts.len() - i,
{
    if !(0 <= i < ts.len()) {
        Err(off_end())
    } else if ts[i].tag == TokenTag::Eof {
        Ok((acc, i))
    } else {
        match p_top(ts, i) {
            Err(p) => Err(p),
            Ok((d, j)) => if !ahead(ts, i, j) {
                Err(off_end())
            } else {
                p_program_loop(ts, j, acc.push(d))
            },
        }
    }
}

/// The declarations of a program, or the position of its first syntax error.
pub open spec fn p_program(ts: Seq<Tok>) -> Result<Seq<SynTop>, SynError> {
    match p_program_loop(ts, 0, seq![]) {
        Err(p) => Err(p),
        Ok((ds, _)) => Ok(ds),
    }
}

// Patterns

pub open spec fn p_pattern(ts: Seq<Tok>, i: int) -> Parsed<SynPattern>
    decreases ts.len() - i, 0int,
{
    if !(0 <= i < ts.len()) {
        Err(off_end())
    } else if at(ts, i, TokenTag::Underscore) {
        Ok((SynPattern { kind: SynPatternKind::Wildcard, span: ts[i].span }, i + 1))
    } else if at(ts, i, TokenTag::Int) {
        Ok((SynPattern { kind: SynPatternKind::Int(ts[i].value), span: ts[i].span }, i + 1))
    } else {
        match name_at(ts, i) {
            Err(p) => Err(p),
            Ok((name, j)) => {
                let start = ts[i].span.start;
                if at(ts, j, TokenTag::LBrace) {
                    match p_pfields(ts, j + 1, seq![]) {
                        Err(p) => Err(p),
                        Ok((fs, k)) => match expect_at(ts, k, TokenTag::RBrace) {
                            Err(p) => Err(p),
                            Ok(k2) => Ok(
                                (
                                    SynPattern {
                                        kind: SynPatternKind::Variant(name, fs),
                                        span: Span { start, end: ts[k].span.end },
                                    },
                                    k2,
                                ),
                            ),
                        },
                    }
                } else {
                    Ok(
                        (
                            SynPattern { kind: SynPatternKind::Variant(name, seq![]), span: Span { start, end: ts[i].span.end } },
                            j,
                        ),
                    )
                }
            },
        }
    }
}

/// Pattern fields up to a closing brace, each followed by an optional comma.
pub open spec fn p_pfields(ts: Seq<Tok>, i: int, acc: Seq<SynPatternField>) -> Parsed<Seq<SynPatternField>>
    decreases ts.len() - i, 1int,
{
    if !(0 <= i < ts.len()) {
        Err(off_end())
    } else if ts[i].tag == TokenTag::RBrace {
        Ok((acc, i))
    } else {
        match p_pfield(ts, i) {
            Err(p) => Err(p),
            Ok((f, j)) => if !ahead(ts, i, j) {
                Err(off_end())
            } else {
                p_pfields(ts, skip(ts, j, TokenTag::Comma), acc.push(f))
            },
        }
    }
}

/// A field name, with an optional `: pattern`.
pub open spec fn p_pfield(ts: Seq<Tok>, i: int) -> Parsed<SynPatternField>
    decreases ts.len() - i, 0int,
{
    if !(0 <= i < ts.len()) {
        Err(off_end())
    } else {
        let start = ts[i].span.start;
        match name_at(ts, i) {
            Err(p) => Err(p),
            Ok((name, j)) => if at(ts, j, TokenTag::Colon) {
                match p_pattern(ts, j + 1) {
                    Err(p) => Err(p),
                    Ok((pat, k)) => Ok(
                        (SynPatternField { name, pattern: Some(Box::new(pat)), span: Span { start, end: pat.span.end } }, k),
                    ),
                }
            } else {
                Ok((SynPatternField { name, pattern: None, span: Span { start, end: ts[i].span.end } }, j))
            },
        }
    }
}

// Expressions and blocks

/// An expression whose binary operators bind at least as tightly as `mp`: operands joined
/// from the left, each right operand binding one level tighter than its operator.
pub open spec fn p_expr(ts: Seq<Tok>, i: int, mp: int) -> Parsed<SynExpr>
    decreases ts.len() - i, 4int,
{
    if !(0 <= i < ts.len()) {
        Err(off_end())
    } else {
        match p_postfix(ts, i) {
            Err(p) => Err(p),
            Ok((lhs, j)) => if !ahead(ts, i, j) {
                Err(off_end())
            } else {
                p_binary(ts, j, mp, lhs)
            },
        }
    }
}

/// The operators and right operands that follow `lhs` at `i`.
pub open spec fn p_binary(ts: Seq<Tok>, i: int, mp: int, lhs: SynExpr) -> Parsed<SynExpr>
    decreases ts.len() - i, 0int,
{
    if !(0 <= i < ts.len()) {
        Err(off_end())
    } else {
        match op_of(ts[i].tag) {
            Some((op, prec)) => if prec < mp {
                Ok((lhs, i))
            } else {
                match p_expr(ts, i + 1, prec + 1) {
                    Err(p) => Err(p),
                    Ok((rhs, k)) => if !ahead(ts, i, k) {
                        Err(off_end())
                    } else {
                        let e = SynExpr {
                            kind: SynExprKind::Binary(Box::new(lhs), op, Box::new(rhs)),
                            span: Span { start: lhs.span.start, end: rhs.span.end },
                        };
                        p_binary(ts, k, mp, e)
                    },
                }
            },
            None => Ok((lhs, i)),
        }
    }
}

/// A primary expression followed by calls.
pub open spec fn p_postfix(ts: Seq<Tok>, i: int) -> Parsed<SynExpr>
    decreases ts.len() - i, 3int,
{
    if !(0 <= i < ts.len()) {
        Err(off_end())
    } else {
        match p_primary(ts, i) {
            Err(p) => Err(p),
            Ok((e, j)) => if !ahead(ts, i, j) {
                Err(off_end())
            } else {
                p_calls(ts, j, e)
            },
        }
    }
}

/// Argument lists in parentheses applied to `e`, from `i` on.
pub open spec fn p_calls(ts: Seq<Tok>, i: int, e: SynExpr) -> Parsed<SynExpr>
    decreases ts.len() - i, 0int,
{
    if !(0 <= i < ts.len()) {
        Err(off_end())
    } else if at(ts, i, TokenTag::LParen) {
        let args = if at(ts, i + 1, TokenTag::RParen) {
            Ok((seq![], i + 1))
        } else {
            p_expr_list(ts, i + 1, seq![])
        };
        match args {
            Err(p) => Err(p),
            Ok((xs, k)) => match expect_at(ts, k, TokenTag::RParen) {
                Err(p) => Err(p),
                Ok(k2) => if !ahead(ts, i, k2) {
                    Err(off_end())
                } else {
                    let call = SynExpr {
                        kind: SynExprKind::Call(Box::new(e), xs),
                        span: Span { start: e.span.start, end: ts[k].span.end },
                    };
                    p_calls(ts, k2, call)
                },
            },
        }
    } else {
        Ok((e, i))
    }
}

/// Expressions separated by commas.
pub open spec fn p_expr_list(ts: Seq<Tok>, i: int, acc: Seq<SynExpr>) -> Parsed<Seq<SynExpr>>
    decreases ts.len() - i, 5int,
{
    if !(0 <= i < ts.len()) {
        Err(off_end())
    } else {
        match p_expr(ts, i, 0) {
            Err(p) => Err(p),
            Ok((x, j)) => if !ahead(ts, i, j) {
                Err(off_end())
            } else if at(ts, j, TokenTag::Comma) {
                p_expr_list(ts, j + 1, acc.push(x))
            } else {
                Ok((acc.push(x), j))
            },
        }
    }
}

/// Whether the tokens after an identifier at `j` start a record expression: `{ }` or
/// `{ name :`.
pub open spec fn record_ahead(ts: Seq<Tok>, j: int) -> bool {
    at(ts, j, TokenTag::LBrace) && (peek(ts, j, 1) == TokenTag::RBrace || peek(ts, j, 2) == TokenTag::Colon)
}

/// The expression a keyword stands for where an expression is expected: its spelling as a name.
pub open spec fn keyword_name(tag: TokenTag) -> Option<Seq<char>> {
    match tag {
        TokenTag::State => Some("state"@),
        TokenTag::Event => Some("event"@),
        TokenTag::Query => Some("query"@),
        TokenTag::Update => Some("update"@),
        TokenTag::Enum => Some("enum"@),
        TokenTag::Record => Some("record"@),
        TokenTag::Let => Some("let"@),
        TokenTag::Match => Some("match"@),
        TokenTag::Return => Some("return"@),
        TokenTag::If => Some("if"@),
        TokenTag::Fn => Some("fn"@),
        _ => None,
    }
}

pub open spec fn p_primary(ts: Seq<Tok>, i: int) -> Parsed<SynExpr>
    decreases ts.len() - i, 2int,
{
    if !(0 <= i < ts.len()) {
        Err(off_end())
    } else if at(ts, i, TokenTag::LBrace) {
        match p_block(ts, i) {
            Err(p) => Err(p),
            Ok((b, j)) => Ok((SynExpr { kind: SynExprKind::Block(b), span: b.span }, j)),
        }
    } else if at(ts, i, TokenTag::Match) {
        match p_match(ts, i) {
            Err(p) => Err(p),
            Ok((m, j)) => Ok((SynExpr { kind: SynExprKind::Match(m), span: m.span }, j)),
        }
    } else if at(ts, i, TokenTag::LBracket) {
        let items = if at(ts, i + 1, TokenTag::RBracket) {
            Ok((seq![], i + 1))
        } else {
            p_expr_list(ts, i + 1, seq![])
        };
        match items {
            Err(p) => Err(p),
            Ok((xs, k)) => match expect_at(ts, k, TokenTag::RBracket) {
                Err(p) => Err(p),
                Ok(k2) => Ok(
                    (SynExpr { kind: SynExprKind::List(xs), span: Span { start: ts[i].span.start, end: ts[k].span.end } }, k2),
                ),
            },
        }
    } else if at(ts, i, TokenTag::LParen) {
        let start = ts[i].span.start;
        match p_expr(ts, i + 1, 0) {
            Err(p) => Err(p),
            Ok((first, j)) => if !ahead(ts, i, j) {
                Err(off_end())
            } else if at(ts, j, TokenTag::Comma) {
                match p_expr_list(ts, j + 1, seq![first]) {
                    Err(p) => Err(p),
                    Ok((xs, k)) => match expect_at(ts, k, TokenTag::RParen) {
                        Err(p) => Err(p),
                        Ok(k2) => Ok((SynExpr { kind: SynExprKind::Tuple(xs), span: Span { start, end: ts[k].span.end } }, k2)),
                    },
                }
            } else {
                match expect_at(ts, j, TokenTag::RParen) {
                    Err(p) => Err(p),
                    Ok(j2) => Ok((SynExpr { kind: first.kind, span: Span { start, end: ts[j].span.end } }, j2)),
                }
            },
        }
    } else {
        let t = ts[i];
        let j = if t.tag == TokenTag::Eof {
            i
        } else {
            i + 1
        };
        if t.tag == TokenTag::Ident {
            if record_ahead(ts, j) {
                match p_rfields(ts, j + 1, seq![]) {
                    Err(p) => Err(p),
                    Ok((fs, k)) => match expect_at(ts, k, TokenTag::RBrace) {
                        Err(p) => Err(p),
                        Ok(k2) => Ok((SynExpr { kind: SynExprKind::Record(t.text, fs), span: t.span }, k2)),
                    },
                }
            } else {
                Ok((SynExpr { kind: SynExprKind::Ident(t.text), span: t.span }, j))
            }
        } else if keyword_name(t.tag) is Some {
            Ok((SynExpr { kind: SynExprKind::Ident(keyword_name(t.tag).unwrap()), span: t.span }, j))
        } else if t.tag == TokenTag::Int {
            Ok((SynExpr { kind: SynExprKind::Int(t.value), span: t.span }, j))
        } else if t.tag == TokenTag::True {
            Ok((SynExpr { kind: SynExprKind::Bool(true), span: t.span }, j))
        } else if t.tag == TokenTag::False {
            Ok((SynExpr { kind: SynExprKind::Bool(false), span: t.span }, j))
        } else {
            Err((t.span.start, "expected expression, found "@ + tag_text(t.tag)@))
        }
    }
}

/// Record fields `name: expression` up to a closing brace, each followed by an optional comma
/// and an optional semicolon.
pub open spec fn p_rfields(ts: Seq<Tok>, i: int, acc: Seq<SynRecordField>) -> Parsed<Seq<SynRecordField>>
    decreases ts.len() - i, 0int,
{
    if !(0 <= i < ts.len()) {
        Err(off_end())
    } else if ts[i].tag == TokenTag::RBrace {
        Ok((acc, i))
    } else {
        match name_at(ts, i) {
            Err(p) => Err(p),
            Ok((name, j)) => match expect_at(ts, j, TokenTag::Colon) {
                Err(p) => Err(p),
                Ok(j2) => match p_expr(ts, j2, 0) {
                    Err(p) => Err(p),
                    Ok((v, k)) => if !ahead(ts, i, k) {
                        Err(off_end())
                    } else {
                        let f = SynRecordField { name, value: v, span: Span { start: ts[i].span.start, end: ts[prev(k)].span.end } };
                        p_rfields(ts, skip(ts, skip(ts, k, TokenTag::Comma), TokenTag::Semi), acc.push(f))
                    },
                },
            },
        }
    }
}

/// A block: `let` and `return` statements, each with an optional semicolon, then an optional
/// tail expression, in braces.
pub open spec fn p_block(ts: Seq<Tok>, i: int) -> Parsed<SynBlock>
    decreases ts.len() - i, 1int,
{
    if !(0 <= i < ts.len()) {
        Err(off_end())
    } else {
        match expect_at(ts, i, TokenTag::LBrace) {
            Err(p) => Err(p),
            Ok(j) => match p_stmts(ts, j, seq![]) {
                Err(p) => Err(p),
                Ok((ss, k)) => if !ahead(ts, i, k) {
                    Err(off_end())
                } else {
                    let tail = if ts[k].tag == TokenTag::RBrace {
                        Ok((None, k))
                    } else {
                        match p_expr(ts, k, 0) {
                            Err(p) => Err(p),
                            Ok((e, m)) => Ok((Some(Box::new(e)), m)),
                        }
                    };
                    match tail {
                        Err(p) => Err(p),
                        Ok((tl, m)) => match expect_at(ts, m, TokenTag::RBrace) {
                            Err(p) => Err(p),
                            Ok(m2) => Ok(
                                (
                                    SynBlock { statements: ss, tail: tl, span: Span { start: ts[i].span.start, end: ts[m].span.end } },
                                    m2,
                                ),
                            ),
                        },
                    }
                },
            },
        }
    }
}

pub open spec fn p_stmts(ts: Seq<Tok>, i: int, acc: Seq<SynStmt>) -> Parsed<Seq<SynStmt>>
    decreases ts.len() - i, 1int,
{
    if !(0 <= i < ts.len()) {
        Err(off_end())
    } else if ts[i].tag == TokenTag::Let {
        match p_let(ts, i) {
            Err(p) => Err(p),
            Ok((s, j)) => if !ahead(ts, i, j) {
                Err(off_end())
            } else {
                p_stmts(ts, skip(ts, j, TokenTag::Semi), acc.push(s))
            },
        }
    } else if ts[i].tag == TokenTag::Return {
        match p_return(ts, i) {
            Err(p) => Err(p),
            Ok((s, j)) => if !ahead(ts, i, j) {
                Err(off_end())
            } else {
                p_stmts(ts, skip(ts, j, TokenTag::Semi), acc.push(s))
            },
        }
    } else {
        Ok((acc, i))
    }
}

pub open spec fn p_let(ts: Seq<Tok>, i: int) -> Parsed<SynStmt>
    decreases ts.len() - i, 0int,
{
    if !(0 <= i < ts.len()) {
        Err(off_end())
    } else {
        match expect_at(ts, i, TokenTag::Let) {
            Err(p) => Err(p),
            Ok(j0) => match name_at(ts, j0) {
                Err(p) => Err(p),
                Ok((name, j)) => match expect_at(ts, j, TokenTag::Eq) {
                    Err(p) => Err(p),
                    Ok(j2) => match p_expr(ts, j2, 0) {
                        Err(p) => Err(p),
                        Ok((v, k)) => Ok((SynStmt::Let(name, v, Span { start: ts[i].span.start, end: v.span.end }), k)),
                    },
                },
            },
        }
    }
}

pub open spec fn p_return(ts: Seq<Tok>, i: int) -> Parsed<SynStmt>
    decreases ts.len() - i, 0int,
{
    if !(0 <= i < ts.len()) {
        Err(off_end())
    } else {
        match expect_at(ts, i, TokenTag::Return) {
            Err(p) => Err(p),
            Ok(j) => match p_expr(ts, j, 0) {
                Err(p) => Err(p),
                Ok((v, k)) => Ok((SynStmt::Return(v, Span { start: ts[i].span.start, end: v.span.end }), k)),
            },
        }
    }
}

/// `match subject { arms }`; each arm may be followed by a comma and a semicolon.
pub open spec fn p_match(ts: Seq<Tok>, i: int) -> Parsed<SynMatch>
    decreases ts.len() - i, 1int,
{
    if !(0 <= i < ts.len()) {
        Err(off_end())
    } else {
        match expect_at(ts, i, TokenTag::Match) {
            Err(p) => Err(p),
            Ok(j0) => match p_expr(ts, j0, 0) {
                Err(p) => Err(p),
                Ok((subject, j)) => if !ahead(ts, i, j) {
                    Err(off_end())
                } else {
                    match expect_at(ts, j, TokenTag::LBrace) {
                        Err(p) => Err(p),
                        Ok(j2) => match p_arms(ts, j2, seq![]) {
                            Err(p) => Err(p),
                            Ok((arms, k)) => match expect_at(ts, k, TokenTag::RBrace) {
                                Err(p) => Err(p),
                                Ok(k2) => Ok(
                                    (
                                        SynMatch {
                                            subject: Box::new(subject),
                                            arms,
                                            span: Span { start: ts[i].span.start, end: ts[k].span.end },
                                        },
                                        k2,
                                    ),
                                ),
                            },
                        },
                    }
                },
            },
        }
    }
}

pub open spec fn p_arms(ts: Seq<Tok>, i: int, acc: Seq<SynArm>) -> Parsed<Seq<SynArm>>
    decreases ts.len() - i, 1int,
{
    if !(0 <= i < ts.len()) {
        Err(off_end())
    } else if ts[i].tag == TokenTag::RBrace {
        Ok((acc, i))
    } else {
        match p_arm(ts, i) {
            Err(p) => Err(p),
            Ok((a, j)) => if !ahead(ts, i, j) {
                Err(off_end())
            } else {
                p_arms(ts, skip(ts, skip(ts, j, TokenTag::Comma), TokenTag::Semi), acc.push(a))
            },
        }
    }
}

/// `pattern [if guard] => body`.
pub open spec fn p_arm(ts: Seq<Tok>, i: int) -> Parsed<SynArm>
    decreases ts.len() - i, 0int,
{
    if !(0 <= i < ts.len()) {
        Err(off_end())
    } else {
        match p_pattern(ts, i) {
            Err(p) => Err(p),
            Ok((pat, j)) => if !ahead(ts, i, j) {
                Err(off_end())
            } else {
                let guard = if at(ts, j, TokenTag::If) {
                    match p_expr(ts, j + 1, 0) {
                        Err(p) => Err(p),
                        Ok((g, k)) => Ok((Some(g), k)),
                    }
                } else {
                    Ok((None, j))
                };
                match guard {
                    Err(p) => Err(p),
                    Ok((g, k)) => if !ahead(ts, i, k) {
                        Err(off_end())
                    } else {
                        match expect_at(ts, k, TokenTag::FatArrow) {
                            Err(p) => Err(p),
                            Ok(k2) => match p_expr(ts, k2, 0) {
                                Err(p) => Err(p),
                                Ok((body, m)) => Ok(
                                    (SynArm { pattern: pat, guard: g, body, span: Span { start: ts[i].span.start, end: body.span.end } }, m),
                                ),
                            },
                        }
                    },
                }
            },
        }
    }
}

// ---------------------------------------------------------------------------
// Views of growing sequences
// ---------------------------------------------------------------------------

proof fn lemma_syn_types(s: Seq<TypeExpr>, i: int)
    requires
        0 <= i <= s.len(),
    ensures
        syn_types(s, i) == Seq::new((s.len() - i) as nat, |k: int| syn_type(s[i + k])),
    decreases s.len() - i,
{
    if i < s.len() {
        lemma_syn_types(s, i + 1);
    }
    assert(syn_types(s, i) =~= Seq::new((s.len() - i) as nat, |k: int| syn_type(s[i + k])));
}

pub proof fn lemma_syn_types_push(s: Seq<TypeExpr>, x: TypeExpr)
    ensures
        syn_types(s.push(x), 0) == syn_types(s, 0).push(syn_type(x)),
        syn_types(seq![], 0) == Seq::<SynType>::empty(),
{
    lemma_syn_types(s, 0);
    lemma_syn_types(s.push(x), 0);
    assert(syn_types(s.push(x), 0) =~= syn_types(s, 0).push(syn_type(x)));
}

proof fn lemma_syn_exprs(s: Seq<Expr>, i: int)
    requires
        0 <= i <= s.len(),
    ensures
        syn_exprs(s, i) == Seq::new((s.len() - i) as nat, |k: int| syn_expr(s[i + k])),
    decreases s.len() - i,
{
    if i < s.len() {
        lemma_syn_exprs(s, i + 1);
    }
    assert(syn_exprs(s, i) =~= Seq::new((s.len() - i) as nat, |k: int| syn_expr(s[i + k])));
}

pub proof fn lemma_syn_exprs_push(s: Seq<Expr>, x: Expr)
    ensures
        syn_exprs(s.push(x), 0) == syn_exprs(s, 0).push(syn_expr(x)),
        syn_exprs(seq![], 0) == Seq::<SynExpr>::empty(),
{
    lemma_syn_exprs(s, 0);
    lemma_syn_exprs(s.push(x), 0);
    assert(syn_exprs(s.push(x), 0) =~= syn_exprs(s, 0).push(syn_expr(x)));
}

proof fn lemma_syn_rfields(s: Seq<RecordField>, i: int)
    requires
        0 <= i <= s.len(),
    ensures
        syn_rfields(s, i) == Seq::new(
            (s.len() - i) as nat,
            |k: int| SynRecordField { name: s[i + k].name@, value: syn_expr(s[i + k].value), span: s[i + k].span },
        ),
    decreases s.len() - i,
{
    if i < s.len() {
        lemma_syn_rfields(s, i + 1);
    }
    assert(syn_rfields(s, i) =~= Seq::new(
        (s.len() - i) as nat,
        |k: int| SynRecordField { name: s[i + k].name@, value: syn_expr(s[i + k].value), span: s[i + k].span },
    ));
}

pub proof fn lemma_syn_rfields_push(s: Seq<RecordField>, x: RecordField)
    ensures
        syn_rfields(s.push(x), 0) == syn_rfields(s, 0).push(
            SynRecordField { name: x.name@, value: syn_expr(x.value), span: x.span },
        ),
        syn_rfields(seq![], 0) == Seq::<SynRecordField>::empty(),
{
    lemma_syn_rfields(s, 0);
    lemma_syn_rfields(s.push(x), 0);
    assert(syn_rfields(s.push(x), 0) =~= syn_rfields(s, 0).push(
        SynRecordField { name: x.name@, value: syn_expr(x.value), span: x.span },
    ));
}

pub open spec fn syn_stmt(st: Stmt) -> SynStmt {
    match st {
        Stmt::Let(l) => SynStmt::Let(l.name@, syn_expr(l.value), l.span),
        Stmt::Return(r) => SynStmt::Return(syn_expr(r.value), r.span),
    }
}

proof fn lemma_syn_stmts(s: Seq<Stmt>, i: int)
    requires
        0 <= i <= s.len(),
    ensures
        syn_stmts(s, i) == Seq::new((s.len() - i) as nat, |k: int| syn_stmt(s[i + k])),
    decreases s.len() - i,
{
    if i < s.len() {
        lemma_syn_stmts(s, i + 1);
    }
    assert(syn_stmts(s, i) =~= Seq::new((s.len() - i) as nat, |k: int| syn_stmt(s[i + k])));
}

pub proof fn lemma_syn_stmts_push(s: Seq<Stmt>, x: Stmt)
    ensures
        syn_stmts(s.push(x), 0) == syn_stmts(s, 0).push(syn_stmt(x)),
        syn_stmts(seq![], 0) == Seq::<SynStmt>::empty(),
{
    lemma_syn_stmts(s, 0);
    lemma_syn_stmts(s.push(x), 0);
    assert(syn_stmts(s.push(x), 0) =~= syn_stmts(s, 0).push(syn_stmt(x)));
}

pub open spec fn syn_arm(a: MatchArm) -> SynArm {
    SynArm {
        pattern: syn_pattern(a.pattern),
        guard: match a.guard {
            Some(g) => Some(syn_expr(g)),
            None => None,
        },
        body: syn_expr(a.body),
        span: a.span,
    }
}

proof fn lemma_syn_arms(s: Seq<MatchArm>, i: int)
    requires
        0 <= i <= s.len(),
    ensures
        syn_arms(s, i) == Seq::new((s.len() - i) as nat, |k: int| syn_arm(s[i + k])),
    decreases s.len() - i,
{
    if i < s.len() {
        lemma_syn_arms(s, i + 1);
    }
    assert(syn_arms(s, i) =~= Seq::new((s.len() - i) as nat, |k: int| syn_arm(s[i + k])));
}

pub proof fn lemma_syn_arms_push(s: Seq<MatchArm>, x: MatchArm)
    ensures
        syn_arms(s.push(x), 0) == syn_arms(s, 0).push(syn_arm(x)),
        syn_arms(seq![], 0) == Seq::<SynArm>::empty(),
{
    lemma_syn_arms(s, 0);
    lemma_syn_arms(s.push(x), 0);
    assert(syn_arms(s.push(x), 0) =~= syn_arms(s, 0).push(syn_arm(x)));
}

pub open spec fn syn_pfield(f: PatternField) -> SynPatternField {
    SynPatternField {
        name: f.name@,
        pattern: match f.pattern {
            Some(p) => Some(Box::new(syn_pattern(*p))),
            None => None,
        },
        span: f.span,
    }
}

proof fn lemma_syn_pfields(s: Seq<PatternField>, i: int)
    requires
        0 <= i <= s.len(),
    ensures
        syn_pfields(s, i) == Seq::new((s.len() - i) as nat, |k: int| syn_pfield(s[i + k])),
    decreases s.len() - i,
{
    if i < s.len() {
        lemma_syn_pfields(s, i + 1);
    }
    assert(syn_pfields(s, i) =~= Seq::new((s.len() - i) as nat, |k: int| syn_pfield(s[i + k])));
}

pub proof fn lemma_syn_pfields_push(s: Seq<PatternField>, x: PatternField)
    ensures
        syn_pfields(s.push(x), 0) == syn_pfields(s, 0).push(syn_pfield(x)),
        syn_pfields(seq![], 0) == Seq::<SynPatternField>::empty(),
{
    lemma_syn_pfields(s, 0);
    lemma_syn_pfields(s.push(x), 0);
    assert(syn_pfields(s.push(x), 0) =~= syn_pfields(s, 0).push(syn_pfield(x)));
}

} // verus!
