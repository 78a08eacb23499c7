use vstd::prelude::*;
use vstd::string::StringExecFns;
use crate::ast::ASTNode;
use crate::ast::ASTNodeList;
use crate::ast::ASTNodeLiteral;
use crate::ast::ASTNodePtr;
use crate::ast::ASTNodeRoot;
use crate::ast::ASTNodeTag;
use crate::ast::ASTNodeText;
use crate::ast::LitV;
use crate::ast::NodeV;
use crate::ast::RootV;
use crate::ast::TagV;
use crate::ast::TextV;
use crate::ast::attrs_put;
use crate::ast::attrs_unique;
use crate::ast::lemma_view_node_list_index;
use crate::ast::lemma_view_node_list_push;
use crate::ast::lemma_wf_node_list_iff;
use crate::ast::view_attr_list;
use crate::ast::view_node_list;
use crate::ast::wf_node;
use crate::lexer::Lexer;
use crate::lexer::LexerMode;
use crate::lexer::LexerV;
use crate::lexer::Token;
use crate::lexer::TokenTag;
use crate::lexer::TokenText;
use crate::lexer::TokenV;
use crate::lexer::spec_next_token;

verus! {

/// One recorded problem: a message and the 1-based source line at the point
/// of detection.
#[derive(Debug, PartialEq)]
pub struct ParseError {
    pub message: String,
    pub line_number: usize,
}

/// Spec-level error record.
#[verifier::ext_equal]
pub struct ErrV {
    pub msg: Seq<char>,
    pub line: int,
}

impl View for ParseError {
    type V = ErrV;

    open spec fn view(&self) -> ErrV {
        ErrV { msg: self.message@, line: self.line_number as int }
    }
}

/// The ordered list of problems one parsing pass found.
#[derive(Debug, PartialEq)]
pub struct ParseErrors {
    pub errors: Vec<ParseError>,
}

impl View for ParseErrors {
    type V = Seq<ErrV>;

    open spec fn view(&self) -> Seq<ErrV> {
        self.errors@.map_values(|e: ParseError| e@)
    }
}

pub type ParseResult = Result<ASTNodePtr, ParseErrors>;

/// Spec-level parser state: the lexer, the one-token lookahead, and the
/// errors recorded so far.
#[verifier::ext_equal]
pub struct ParserV {
    pub lex: LexerV,
    pub cur: TokenV,
    pub errs: Seq<ErrV>,
}

/// Parses a markup source text. Errors do not stop it: on a mismatch it
/// records the problem, advances one token, and goes on, so one pass reports
/// every problem found.
pub struct Parser {
    pub lexer: Lexer,
    pub current_token: Token,
    pub error_log: Vec<ParseError>,
}

impl View for Parser {
    type V = ParserV;

    open spec fn view(&self) -> ParserV {
        ParserV {
            lex: self.lexer@,
            cur: self.current_token@,
            errs: self.error_log@.map_values(|e: ParseError| e@),
        }
    }
}

/// The parser's termination measure: how much input is left, plus one when
/// the lookahead still holds a real token. Every forced advance shrinks it.
pub open spec fn pmeasure(p: ParserV) -> int {
    2 * (p.lex.src.len() - p.lex.cursor) + if p.cur is EndOfFile {
        0int
    } else {
        1int
    }
}

/// Token matching goes by kind alone, except for `Character`, whose payload
/// must also match.
pub open spec fn token_matches(cur: TokenV, pat: TokenV) -> bool {
    match pat {
        TokenV::Tag { .. } => cur is Tag,
        TokenV::StringLiteral { .. } => cur is StringLiteral,
        TokenV::NumberLiteral { .. } => cur is NumberLiteral,
        TokenV::BoolLiteral { .. } => cur is BoolLiteral,
        TokenV::Text { .. } => cur is Text,
        TokenV::Character { c: pc } => (cur matches TokenV::Character { c } && c == pc),
        TokenV::Error { .. } => cur is Error,
        TokenV::EndOfFile => cur is EndOfFile,
    }
}

/// The parser state after reading one more token.
pub open spec fn spec_advance(p: ParserV) -> ParserV {
    let st = spec_next_token(p.lex.src, p.lex.cursor, p.lex.line, p.lex.mode);
    ParserV {
        lex: LexerV { cursor: st.cursor, line: st.line, ..p.lex },
        cur: st.tok,
        errs: p.errs,
    }
}

/// The parser state after recording a problem: it advances one token, then
/// records the message with the line then current.
pub open spec fn spec_error_panic(p: ParserV, msg: Seq<char>) -> ParserV {
    let p2 = spec_advance(p);
    ParserV { errs: p2.errs.push(ErrV { msg, line: p2.lex.line }), ..p2 }
}

/// A well-formed error list: lines are 1-based, in document order, and never
/// past the line the lexer has reached.
pub open spec fn errs_wf(errs: Seq<ErrV>, line: int) -> bool {
    (forall|i: int, j: int| 0 <= i <= j < errs.len() ==> errs[i].line <= errs[j].line)
        && (forall|i: int| 0 <= i < errs.len() ==> 1 <= (#[trigger] errs[i]).line <= line)
}

/// The value of a literal token.
pub open spec fn spec_token_lit(t: TokenV) -> LitV {
    match t {
        TokenV::StringLiteral { text } => LitV::Str(text),
        TokenV::NumberLiteral { text } => LitV::Float(text),
        TokenV::BoolLiteral { value } => LitV::Bool(value),
        _ => LitV::Bool(false),
    }
}


/// The termination measure, floored at zero so it can order the spec-level
/// recursion for every state.
pub open spec fn pbound(p: ParserV) -> nat {
    if 0 <= p.lex.cursor <= p.lex.src.len() {
        pmeasure(p) as nat
    } else {
        0
    }
}

/// The one-character pattern token.
pub open spec fn sp_char(c: char) -> TokenV {
    TokenV::Character { c }
}

/// The Text-kind pattern token (matching goes by kind, so the fields are
/// immaterial).
pub open spec fn sp_text_pat() -> TokenV {
    TokenV::Text { line_start: 0, line_content: 0, line_end: 0, text: Seq::empty() }
}

/// What `expect` does: consume a matching lookahead; at end of input report
/// an implicit match; otherwise change nothing.
pub open spec fn sp_expect(p: ParserV, pat: TokenV) -> (ParserV, bool) {
    if token_matches(p.cur, pat) {
        (spec_advance(p), true)
    } else {
        (p, p.cur is EndOfFile)
    }
}

/// What `require` does: like `expect`, but a mismatch records the message
/// and forces one token of progress.
pub open spec fn sp_require(p: ParserV, pat: TokenV, msg: Seq<char>) -> (ParserV, bool) {
    if token_matches(p.cur, pat) {
        (spec_advance(p), true)
    } else {
        let p2 = spec_error_panic(p, msg);
        (p2, p2.cur is EndOfFile)
    }
}

// The parse, as mathematics. The `pbound` guards below only rule out
// recursion on a state whose measure failed to shrink. The executable
// parser's contracts show every forced advance shrinks the measure, so on
// every state the parser reaches, the guarded branch is the one taken.

/// One consuming step of a child sequence: take the lookahead as `node` and
/// go on parsing siblings.
pub open spec fn sp_seq_step(p: ParserV, node: NodeV) -> (Seq<NodeV>, ParserV)
    decreases pbound(p), 1int,
{
    let p1 = spec_advance(p);
    if pbound(p1) < pbound(p) {
        let r = sp_parse_seq(p1);
        (seq![node] + r.0, r.1)
    } else {
        (seq![node], p1)
    }
}

/// A sequence of children: tags, literals and text, ending (unconsumed) at
/// a structural character or at the end of the input.
pub open spec fn sp_parse_seq(p: ParserV) -> (Seq<NodeV>, ParserV)
    decreases pbound(p), 2int,
{
    match p.cur {
        TokenV::Tag { text } => {
            if text.len() == 0 {
                let p1 = spec_error_panic(p, "Tag name must not be empty"@);
                if pbound(p1) < pbound(p) {
                    sp_parse_seq(p1)
                } else {
                    (Seq::empty(), p1)
                }
            } else {
                let t = sp_parse_tag(p, text);
                if pbound(t.1) < pbound(p) {
                    let r = sp_parse_seq(t.1);
                    (seq![t.0] + r.0, r.1)
                } else {
                    (seq![t.0], t.1)
                }
            }
        },
        TokenV::StringLiteral { text } => sp_seq_step(p, NodeV::Literal(LitV::Str(text))),
        TokenV::NumberLiteral { text } => sp_seq_step(p, NodeV::Literal(LitV::Float(text))),
        TokenV::BoolLiteral { value } => sp_seq_step(p, NodeV::Literal(LitV::Bool(value))),
        TokenV::Text { text, .. } => sp_seq_step(p, NodeV::Text(TextV { text })),
        TokenV::Character { .. } => (Seq::empty(), p),
        TokenV::Error { msg } => {
            let p1 = spec_error_panic(p, "Tokenizer "@ + msg);
            if pbound(p1) < pbound(p) {
                sp_parse_seq(p1)
            } else {
                (Seq::empty(), p1)
            }
        },
        TokenV::EndOfFile => (Seq::empty(), p),
    }
}

/// One tag block: the name was seen; consume it, read the optional
/// parenthesized attribute list in Code mode, then the optional braced body.
pub open spec fn sp_parse_tag(p: ParserV, name: Seq<char>) -> (NodeV, ParserV)
    decreases pbound(p), 0int,
{
    let p1 = spec_advance(p);
    let p2 = ParserV {
        lex: LexerV { mode: LexerMode::Code, stack: p1.lex.stack.push(p1.lex.mode), ..p1.lex },
        ..p1
    };
    if pbound(p2) < pbound(p) {
        let e1 = sp_expect(p2, sp_char('('));
        let a = if e1.1 {
            sp_parse_attrs(e1.0, Seq::empty())
        } else {
            (Seq::empty(), e1.0)
        };
        let p3 = a.1;
        let p4 = ParserV {
            lex: LexerV { mode: p3.lex.stack.last(), stack: p3.lex.stack.drop_last(), ..p3.lex },
            ..p3
        };
        let e2 = sp_expect(p4, sp_char('{'));
        let b = if e2.1 && pbound(e2.0) < pbound(p) {
            sp_parse_body(e2.0)
        } else {
            (Seq::empty(), e2.0)
        };
        (NodeV::Tag(TagV { name, attributes: a.0, children: b.0 }), b.1)
    } else {
        (NodeV::Tag(TagV { name, attributes: Seq::empty(), children: Seq::empty() }), p1)
    }
}

/// The attribute list: name `=` literal pairs with optional commas, ending
/// at `)` (or, implicitly, at the end of the input).
pub open spec fn sp_parse_attrs(p: ParserV, attrs: Seq<(Seq<char>, LitV)>) -> (
    Seq<(Seq<char>, LitV)>,
    ParserV,
)
    decreases pbound(p), 0int,
{
    let e = sp_expect(p, sp_char(')'));
    if e.1 {
        (attrs, e.0)
    } else {
        let varname = p.cur;
        let r1 = sp_require(p, sp_text_pat(), "Expected an attribute name"@);
        let r2 = sp_require(r1.0, sp_char('='), "Expected '=' after the attribute name"@);
        let pr = r2.0;
        let stepped = if pr.cur is StringLiteral || pr.cur is NumberLiteral
            || pr.cur is BoolLiteral {
            let attrs2 = match varname {
                TokenV::Text { text, .. } => attrs_put(attrs, text, spec_token_lit(pr.cur)),
                _ => attrs,
            };
            (spec_advance(pr), attrs2)
        } else {
            (spec_error_panic(pr, "Expected a literal attribute value"@), attrs)
        };
        let pc = sp_expect(stepped.0, sp_char(',')).0;
        if pbound(pc) < pbound(p) {
            sp_parse_attrs(pc, stepped.1)
        } else {
            (stepped.1, pc)
        }
    }
}

/// The braced body: child sequences until the `}` is consumed, with an
/// error and a forced advance for any other structural character.
pub open spec fn sp_parse_body(p: ParserV) -> (Seq<NodeV>, ParserV)
    decreases pbound(p), 3int,
{
    let e = sp_expect(p, sp_char('}'));
    if e.1 {
        (Seq::empty(), e.0)
    } else {
        let s = sp_parse_seq(p);
        let p2 = if !token_matches(s.1.cur, sp_char('}')) && !(s.1.cur is EndOfFile) {
            spec_error_panic(s.1, "Expected '}' to close the tag body"@)
        } else {
            s.1
        };
        if pbound(p2) < pbound(p) {
            let r = sp_parse_body(p2);
            (s.0 + r.0, r.1)
        } else {
            (s.0, p2)
        }
    }
}

/// The whole parse: read the first token, then the root's child sequence.
pub open spec fn sp_parse(p: ParserV) -> (Seq<NodeV>, ParserV) {
    sp_parse_seq(spec_advance(p))
}

/// The model of a freshly built parser over a source text.
pub open spec fn fresh_parser(src: Seq<char>) -> ParserV {
    ParserV {
        lex: LexerV {
            src,
            cursor: 0,
            line: 1,
            mode: LexerMode::Text,
            stack: Seq::empty(),
        },
        cur: TokenV::EndOfFile,
        errs: Seq::empty(),
    }
}

/// Parsing is deterministic: a fresh parser's tree and error list are a
/// function of the source text alone, so parsing the same source twice
/// yields identical results.
pub proof fn lemma_parse_idempotent(src: Seq<char>, a: ParserV, b: ParserV)
    requires
        a == fresh_parser(src),
        b == fresh_parser(src),
    ensures
        sp_parse(a) == sp_parse(b),
{
}

/// The Text-kind pattern: attribute names are bare words, which lex as
/// free text.
pub fn make_empty_token_text() -> (t: Token)
    ensures
        t@ == sp_text_pat(),
{
    Token::Text(
        TokenText {
            line_no_start: 0,
            line_no_end_with_content: 0,
            line_no_end: 0,
            text: String::new(),
        },
    )
}

/// A copy of a token with the same view.
fn clone_token(t: &Token) -> (r: Token)
    ensures
        r@ == t@,
{
    match t {
        Token::Tag(tt) => Token::Tag(TokenTag { text: tt.text.clone() }),
        Token::StringLiteral(s) => Token::StringLiteral(s.clone()),
        Token::NumberLiteral(s) => Token::NumberLiteral(s.clone()),
        Token::BoolLiteral(b) => Token::BoolLiteral(*b),
        Token::Text(tx) => Token::Text(
            TokenText {
                line_no_start: tx.line_no_start,
                line_no_end_with_content: tx.line_no_end_with_content,
                line_no_end: tx.line_no_end,
                text: tx.text.clone(),
            },
        ),
        Token::Character(c) => Token::Character(*c),
        Token::Error(m) => Token::Error(m.clone()),
        Token::EndOfFile => Token::EndOfFile,
    }
}

impl Parser {
    /// The parser's invariant: its lexer's.
    pub open spec fn wf(&self) -> bool {
        self.lexer.wf()
    }

    /// A fresh parser over the given source text.
    pub fn new(source: String) -> (p: Parser)
        ensures
            p.wf(),
            p@.cur is EndOfFile,
            p@.errs == Seq::<ErrV>::empty(),
            p@.lex.cursor == 0,
            p@.lex.line == 1,
            p@.lex.mode == LexerMode::Text,
            p@.lex.stack == Seq::<LexerMode>::empty(),
            source@.len() < usize::MAX ==> p@.lex.src == source@,
            source@.len() < usize::MAX ==> p@ == fresh_parser(source@),
    {
        let p = Parser {
            lexer: Lexer::new(source),
            current_token: Token::EndOfFile,
            error_log: Vec::new(),
        };
        proof {
            assert(p@.errs =~= Seq::<ErrV>::empty());
            if source@.len() < usize::MAX {
                assert(p@ =~= fresh_parser(source@));
            }
        }
        p
    }

    fn current_is_eof(&self) -> (r: bool)
        ensures
            r == (self@.cur is EndOfFile),
    {
        match &self.current_token {
            Token::EndOfFile => true,
            _ => false,
        }
    }

    /// Whether the lookahead matches the given pattern: by kind, and for
    /// `Character` also by payload.
    fn current_token_is(&self, token: &Token) -> (r: bool)
        ensures
            r == token_matches(self@.cur, token@),
    {
        match (&self.current_token, token) {
            (Token::Tag(_), Token::Tag(_)) => true,
            (Token::StringLiteral(_), Token::StringLiteral(_)) => true,
            (Token::NumberLiteral(_), Token::NumberLiteral(_)) => true,
            (Token::BoolLiteral(_), Token::BoolLiteral(_)) => true,
            (Token::Text(_), Token::Text(_)) => true,
            (Token::Character(a), Token::Character(b)) => *a == *b,
            (Token::Error(_), Token::Error(_)) => true,
            (Token::EndOfFile, Token::EndOfFile) => true,
            _ => false,
        }
    }

    /// Reads the next token into the lookahead.
    fn advance_token(&mut self)
        requires
            old(self).wf(),
        ensures
            final(self).wf(),
            final(self)@ == spec_advance(old(self)@),
            final(self)@.lex.line >= old(self)@.lex.line,
            pmeasure(final(self)@) <= pmeasure(old(self)@),
            0 <= pmeasure(final(self)@),
            !(old(self)@.cur is EndOfFile) ==> pmeasure(final(self)@) < pmeasure(old(self)@),
            errs_wf(old(self)@.errs, old(self)@.lex.line) ==> errs_wf(
                final(self)@.errs,
                final(self)@.lex.line,
            ),
    {
        let t = self.lexer.get_next_token();
        self.current_token = t;
    }

    /// Records a problem at the current line and forces one token of
    /// progress, so no error can stall the parse.
    fn error_panic(&mut self, message: String)
        requires
            old(self).wf(),
        ensures
            final(self).wf(),
            final(self)@ == spec_error_panic(old(self)@, message@),
            final(self)@.lex.line >= old(self)@.lex.line,
            pmeasure(final(self)@) <= pmeasure(old(self)@),
            0 <= pmeasure(final(self)@),
            !(old(self)@.cur is EndOfFile) ==> pmeasure(final(self)@) < pmeasure(old(self)@),
            errs_wf(old(self)@.errs, old(self)@.lex.line) ==> errs_wf(
                final(self)@.errs,
                final(self)@.lex.line,
            ),
    {
        self.advance_token();
        let line_number = self.lexer.line_no;
        self.error_log.push(ParseError { message, line_number });
        proof {
            assert(self@.errs =~= spec_error_panic(old(self)@, message@).errs);
        }
    }

    /// Consumes the lookahead if it matches; at the end of the input every
    /// match succeeds implicitly, so no loop can hang on truncated input,
    /// and callers must not take that as success.
    fn expect(&mut self, token: &Token) -> (r: bool)
        requires
            old(self).wf(),
        ensures
            final(self).wf(),
            final(self)@ == sp_expect(old(self)@, token@).0,
            r == sp_expect(old(self)@, token@).1,
            final(self)@.lex.line >= old(self)@.lex.line,
            pmeasure(final(self)@) <= pmeasure(old(self)@),
            0 <= pmeasure(final(self)@),
            (token_matches(old(self)@.cur, token@) && !(old(self)@.cur is EndOfFile))
                ==> pmeasure(final(self)@) < pmeasure(old(self)@),
            errs_wf(old(self)@.errs, old(self)@.lex.line) ==> errs_wf(
                final(self)@.errs,
                final(self)@.lex.line,
            ),
    {
        if self.current_token_is(token) {
            self.advance_token();
            return true;
        }
        self.current_is_eof()
    }

    /// Like `expect`, but a mismatch records the given message and forces
    /// one token of progress.
    fn require(&mut self, token: &Token, err_message: &str) -> (r: bool)
        requires
            old(self).wf(),
        ensures
            final(self).wf(),
            final(self)@ == sp_require(old(self)@, token@, err_message@).0,
            r == sp_require(old(self)@, token@, err_message@).1,
            final(self)@.lex.line >= old(self)@.lex.line,
            pmeasure(final(self)@) <= pmeasure(old(self)@),
            0 <= pmeasure(final(self)@),
            !(old(self)@.cur is EndOfFile) ==> pmeasure(final(self)@) < pmeasure(old(self)@),
            errs_wf(old(self)@.errs, old(self)@.lex.line) ==> errs_wf(
                final(self)@.errs,
                final(self)@.lex.line,
            ),
    {
        if self.current_token_is(token) {
            self.advance_token();
            return true;
        }
        self.error_panic(String::from_str(err_message));
        self.current_is_eof()
    }
}

/// The literal a token denotes.
fn token_to_ast_literal(tok: Token) -> (r: ASTNodeLiteral)
    requires
        tok.spec_is_literal(),
    ensures
        r@ == spec_token_lit(tok@),
{
    match tok {
        Token::StringLiteral(s) => ASTNodeLiteral::Str(s),
        Token::NumberLiteral(s) => ASTNodeLiteral::Float(s),
        Token::BoolLiteral(b) => ASTNodeLiteral::Bool(b),
        _ => vstd::pervasive::unreached(),
    }
}

impl Parser {
    /// Parses a sequence of children: tags, literals and text, until a
    /// structural character (left for the caller) or the end of the input.
    #[verifier::loop_isolation(false)]
    #[verifier::rlimit(100)]
    #[verifier::spinoff_prover]
    fn parse_impl(&mut self, parent_child_list: &mut ASTNodeList)
        requires
            old(self).wf(),
        ensures
            final(self).wf(),
            final(self)@.lex.src == old(self)@.lex.src,
            final(self)@.lex.mode == old(self)@.lex.mode,
            final(self)@.lex.stack == old(self)@.lex.stack,
            final(self)@.lex.line >= old(self)@.lex.line,
            pmeasure(final(self)@) <= pmeasure(old(self)@),
            0 <= pmeasure(final(self)@),
            !(old(self)@.cur is Character || old(self)@.cur is EndOfFile) ==> pmeasure(
                final(self)@,
            ) < pmeasure(old(self)@),
            old(self)@.cur is Character ==> final(self)@ == old(self)@ && final(parent_child_list)@ == old(parent_child_list)@,
            final(self)@.cur is Character || final(self)@.cur is EndOfFile,
            final(parent_child_list)@.len() >= old(parent_child_list)@.len(),
            final(parent_child_list)@.subrange(0, old(parent_child_list)@.len() as int) == old(parent_child_list)@,
            forall|i: int|
                old(parent_child_list)@.len() <= i < final(parent_child_list)@.len() ==> wf_node(
                    (*final(parent_child_list)@[i])@,
                ),
            final(self)@.errs.len() >= old(self)@.errs.len(),
            final(self)@.errs.subrange(0, old(self)@.errs.len() as int) == old(self)@.errs,
            errs_wf(old(self)@.errs, old(self)@.lex.line) ==> errs_wf(
                final(self)@.errs,
                final(self)@.lex.line,
            ),
            view_node_list(final(parent_child_list)@) == view_node_list(old(parent_child_list)@)
                + sp_parse_seq(old(self)@).0,
            final(self)@ == sp_parse_seq(old(self)@).1,
        decreases pmeasure(old(self)@), 1int,
    {
        let ghost p0 = old(self)@;
        let ghost list0 = old(parent_child_list)@;
        loop
            invariant
                self.wf(),
                self@.lex.src == p0.lex.src,
                self@.lex.mode == p0.lex.mode,
                self@.lex.stack == p0.lex.stack,
                self@.lex.line >= p0.lex.line,
                pmeasure(self@) <= pmeasure(p0),
                0 <= pmeasure(self@),
                (self@ == p0 && parent_child_list@ == list0) || (!(p0.cur is Character) && !(
                p0.cur is EndOfFile) && pmeasure(self@) < pmeasure(p0)),
                parent_child_list@.len() >= list0.len(),
                parent_child_list@.subrange(0, list0.len() as int) == list0,
                forall|i: int|
                    list0.len() <= i < parent_child_list@.len() ==> wf_node(
                        (*parent_child_list@[i])@,
                    ),
                self@.errs.len() >= p0.errs.len(),
                self@.errs.subrange(0, p0.errs.len() as int) == p0.errs,
                errs_wf(p0.errs, p0.lex.line) ==> errs_wf(self@.errs, self@.lex.line),
                view_node_list(parent_child_list@) + sp_parse_seq(self@).0 == view_node_list(
                    list0,
                ) + sp_parse_seq(p0).0,
                sp_parse_seq(self@).1 == sp_parse_seq(p0).1,
            decreases pmeasure(self@),
        {
            let ghost snap = self@;
            let ghost listsnap = parent_child_list@;
            let current = clone_token(&self.current_token);
            match current {
                Token::Tag(tt) => {
                    if tt.text.as_str().is_empty() {
                        self.error_panic(String::from_str("Tag name must not be empty"));
                        proof {
                            assert(pbound(self@) < pbound(snap));
                            assert(sp_parse_seq(snap) == sp_parse_seq(self@));
                        }
                    } else {
                        let tt_node = self.parse_tag_block(&tt);
                        proof {
                            assert(pbound(self@) < pbound(snap));
                        }
                        match tt_node {
                            Some(node) => {
                                proof {
                                    assert(node@ == sp_parse_tag(snap, tt.text@).0);
                                }
                                parent_child_list.push(node);
                                proof {
                                    assert(parent_child_list@ =~= listsnap.push(
                                        parent_child_list@.last(),
                                    ));
                                    lemma_view_node_list_push(
                                        listsnap,
                                        parent_child_list@.last(),
                                    );
                                    assert(sp_parse_seq(snap).0 == seq![
                                        sp_parse_tag(snap, tt.text@).0,
                                    ] + sp_parse_seq(self@).0);
                                    assert(sp_parse_seq(snap).1 == sp_parse_seq(self@).1);
                                    assert(view_node_list(parent_child_list@) + sp_parse_seq(
                                        self@,
                                    ).0 =~= view_node_list(listsnap) + sp_parse_seq(snap).0);
                                }
                            },
                            None => {},
                        }
                    }
                },
                Token::StringLiteral(s) => {
                    let child_node = Box::new(ASTNode::Literal(ASTNodeLiteral::Str(s)));
                    self.advance_token();
                    parent_child_list.push(child_node);
                    proof {
                        assert(pbound(self@) < pbound(snap));
                        assert(parent_child_list@ =~= listsnap.push(parent_child_list@.last()));
                        lemma_view_node_list_push(listsnap, parent_child_list@.last());
                        assert(sp_parse_seq(snap) == sp_seq_step(
                            snap,
                            (*parent_child_list@.last())@,
                        ));
                        assert(sp_parse_seq(snap).0 == seq![(*parent_child_list@.last())@]
                            + sp_parse_seq(self@).0);
                        assert(sp_parse_seq(snap).1 == sp_parse_seq(self@).1);
                        assert(view_node_list(parent_child_list@) + sp_parse_seq(self@).0
                            =~= view_node_list(listsnap) + sp_parse_seq(snap).0);
                    }
                },
                Token::NumberLiteral(s) => {
                    let child_node = Box::new(ASTNode::Literal(ASTNodeLiteral::Float(s)));
                    self.advance_token();
                    parent_child_list.push(child_node);
                    proof {
                        assert(pbound(self@) < pbound(snap));
                        assert(parent_child_list@ =~= listsnap.push(parent_child_list@.last()));
                        lemma_view_node_list_push(listsnap, parent_child_list@.last());
                        assert(sp_parse_seq(snap) == sp_seq_step(
                            snap,
                            (*parent_child_list@.last())@,
                        ));
                        assert(sp_parse_seq(snap).0 == seq![(*parent_child_list@.last())@]
                            + sp_parse_seq(self@).0);
                        assert(sp_parse_seq(snap).1 == sp_parse_seq(self@).1);
                        assert(view_node_list(parent_child_list@) + sp_parse_seq(self@).0
                            =~= view_node_list(listsnap) + sp_parse_seq(snap).0);
                    }
                },
                Token::BoolLiteral(value) => {
                    let child_node = Box::new(ASTNode::Literal(ASTNodeLiteral::Bool(value)));
                    self.advance_token();
                    parent_child_list.push(child_node);
                    proof {
                        assert(pbound(self@) < pbound(snap));
                        assert(parent_child_list@ =~= listsnap.push(parent_child_list@.last()));
                        lemma_view_node_list_push(listsnap, parent_child_list@.last());
                        assert(sp_parse_seq(snap) == sp_seq_step(
                            snap,
                            (*parent_child_list@.last())@,
                        ));
                        assert(sp_parse_seq(snap).0 == seq![(*parent_child_list@.last())@]
                            + sp_parse_seq(self@).0);
                        assert(sp_parse_seq(snap).1 == sp_parse_seq(self@).1);
                        assert(view_node_list(parent_child_list@) + sp_parse_seq(self@).0
                            =~= view_node_list(listsnap) + sp_parse_seq(snap).0);
                    }
                },
                Token::Text(txt) => {
                    let child_node = Box::new(ASTNode::Text(ASTNodeText { text: txt.text }));
                    self.advance_token();
                    parent_child_list.push(child_node);
                    proof {
                        assert(pbound(self@) < pbound(snap));
                        assert(parent_child_list@ =~= listsnap.push(parent_child_list@.last()));
                        lemma_view_node_list_push(listsnap, parent_child_list@.last());
                        assert(sp_parse_seq(snap) == sp_seq_step(
                            snap,
                            (*parent_child_list@.last())@,
                        ));
                        assert(sp_parse_seq(snap).0 == seq![(*parent_child_list@.last())@]
                            + sp_parse_seq(self@).0);
                        assert(sp_parse_seq(snap).1 == sp_parse_seq(self@).1);
                        assert(view_node_list(parent_child_list@) + sp_parse_seq(self@).0
                            =~= view_node_list(listsnap) + sp_parse_seq(snap).0);
                    }
                },
                Token::Character(_value) => {
                    proof {
                        assert(sp_parse_seq(self@) == (Seq::<NodeV>::empty(), self@));
                        assert(view_node_list(parent_child_list@) =~= view_node_list(
                            parent_child_list@,
                        ) + Seq::<NodeV>::empty());
                    }
                    break;
                },
                Token::Error(err_msg) => {
                    self.error_panic(String::from_str("Tokenizer ").concat(err_msg.as_str()));
                    proof {
                        assert(pbound(self@) < pbound(snap));
                        assert(sp_parse_seq(snap) == sp_parse_seq(self@));
                    }
                },
                Token::EndOfFile => {
                    proof {
                        assert(sp_parse_seq(self@) == (Seq::<NodeV>::empty(), self@));
                        assert(view_node_list(parent_child_list@) =~= view_node_list(
                            parent_child_list@,
                        ) + Seq::<NodeV>::empty());
                    }
                    break;
                },
            }
            proof {
                assert(parent_child_list@.subrange(0, list0.len() as int) =~= list0);
                assert(self@.errs.subrange(0, p0.errs.len() as int) =~= p0.errs);
            }
        }
    }

    /// Parses one tag block: the name was just seen, then an optional
    /// parenthesized attribute list (read in Code mode), then an optional
    /// braced body. The tag is produced even when errors occurred inside
    /// it, so the tree shape stays stable on malformed input.
    #[verifier::loop_isolation(false)]
    #[verifier::rlimit(100)]
    #[verifier::spinoff_prover]
    fn parse_tag_block(&mut self, tag: &TokenTag) -> (r: Option<ASTNodePtr>)
        requires
            old(self).wf(),
            old(self)@.cur is Tag,
            tag.text@.len() > 0,
        ensures
            final(self).wf(),
            final(self)@.lex.src == old(self)@.lex.src,
            final(self)@.lex.mode == old(self)@.lex.mode,
            final(self)@.lex.stack == old(self)@.lex.stack,
            final(self)@.lex.line >= old(self)@.lex.line,
            pmeasure(final(self)@) < pmeasure(old(self)@),
            0 <= pmeasure(final(self)@),
            ({
                match r {
                    Some(node) => node@ is Tag && wf_node(node@) && node@ == sp_parse_tag(
                        old(self)@,
                        tag.text@,
                    ).0,
                    None => false,
                }
            }),
            final(self)@ == sp_parse_tag(old(self)@, tag.text@).1,
            final(self)@.errs.len() >= old(self)@.errs.len(),
            final(self)@.errs.subrange(0, old(self)@.errs.len() as int) == old(self)@.errs,
            errs_wf(old(self)@.errs, old(self)@.lex.line) ==> errs_wf(
                final(self)@.errs,
                final(self)@.lex.line,
            ),
        decreases pmeasure(old(self)@), 0int,
    {
        let ghost p0 = old(self)@;
        let mut tag_node = ASTNodeTag::new(tag.text.clone());
        self.advance_token();
        self.lexer.push_mode(LexerMode::Code);
        let ghost p1 = self@;
        proof {
            assert(p1 =~= (ParserV {
                lex: LexerV {
                    mode: LexerMode::Code,
                    stack: spec_advance(p0).lex.stack.push(spec_advance(p0).lex.mode),
                    ..spec_advance(p0).lex
                },
                ..spec_advance(p0)
            }));
            assert(pbound(p1) < pbound(p0));
        }
        if self.expect(&Token::Character('(')) {
            let ghost pattrs0 = self@;
            proof {
                assert(view_attr_list(tag_node.attributes@) =~= Seq::<(Seq<char>, LitV)>::empty());
            }
            loop
                invariant
                    self.wf(),
                    self@.lex.src == p0.lex.src,
                    self@.lex.mode == p1.lex.mode,
                    self@.lex.stack == p1.lex.stack,
                    self@.lex.line >= p0.lex.line,
                    pmeasure(self@) <= pmeasure(p1),
                    0 <= pmeasure(self@),
                    pmeasure(p1) < pmeasure(p0),
                    tag_node@.name == tag.text@,
                    tag_node.children@.len() == 0,
                    attrs_unique(tag_node@.attributes),
                    self@.errs.len() >= p0.errs.len(),
                    self@.errs.subrange(0, p0.errs.len() as int) == p0.errs,
                    errs_wf(p0.errs, p0.lex.line) ==> errs_wf(self@.errs, self@.lex.line),
                    sp_parse_attrs(pattrs0, Seq::empty()) == sp_parse_attrs(
                        self@,
                        view_attr_list(tag_node.attributes@),
                    ),
                decreases pmeasure(self@),
            {
                let ghost snapa = self@;
                let ghost attrsa = view_attr_list(tag_node.attributes@);
                if self.expect(&Token::Character(')')) {
                    proof {
                        assert(sp_parse_attrs(snapa, attrsa) == (attrsa, self@));
                        assert(sp_parse_attrs(pattrs0, Seq::empty()) == (
                            view_attr_list(tag_node.attributes@),
                            self@,
                        ));
                    }
                    break;
                }
                let variable_name = clone_token(&self.current_token);
                let _ = self.require(&make_empty_token_text(), "Expected an attribute name");
                let _ = self.require(
                    &Token::Character('='),
                    "Expected '=' after the attribute name",
                );
                let literal_value = clone_token(&self.current_token);
                if literal_value.is_literal() {
                    self.advance_token();
                    match variable_name {
                        Token::Text(value) => {
                            tag_node.insert_attribute(
                                value.text,
                                token_to_ast_literal(literal_value),
                            );
                        },
                        _ => {
                            // the attribute name was not a bare word; the
                            // mismatch is already recorded
                        },
                    }
                } else {
                    self.error_panic(String::from_str("Expected a literal attribute value"));
                }
                let _ = self.expect(&Token::Character(','));
                proof {
                    assert(self@.errs.subrange(0, p0.errs.len() as int) =~= p0.errs);
                    assert(pbound(self@) < pbound(snapa));
                    assert(sp_parse_attrs(snapa, attrsa) == sp_parse_attrs(
                        self@,
                        view_attr_list(tag_node.attributes@),
                    ));
                }
            }
        } else {
            proof {
                assert(view_attr_list(tag_node.attributes@) =~= Seq::<(Seq<char>, LitV)>::empty());
            }
        }
        proof {
            assert(({
                let e1 = sp_expect(p1, sp_char('('));
                let a = if e1.1 {
                    sp_parse_attrs(e1.0, Seq::empty())
                } else {
                    (Seq::<(Seq<char>, LitV)>::empty(), e1.0)
                };
                a == (view_attr_list(tag_node.attributes@), self@)
            }));
        }
        self.lexer.pop_mode();
        proof {
            assert(p0.lex.stack.push(p0.lex.mode).drop_last() =~= p0.lex.stack);
        }
        let ghost p2 = self@;
        let ghost attrs_done = view_attr_list(tag_node.attributes@);
        if self.expect(&Token::Character('{')) {
            let ghost pbody0 = self@;
            proof {
                assert(pbound(pbody0) < pbound(p0));
                assert(view_node_list(tag_node.children@) =~= Seq::<NodeV>::empty());
            }
            loop
                invariant
                    self.wf(),
                    self@.lex.src == p0.lex.src,
                    self@.lex.mode == p0.lex.mode,
                    self@.lex.stack == p0.lex.stack,
                    self@.lex.line >= p0.lex.line,
                    pmeasure(self@) <= pmeasure(p2),
                    0 <= pmeasure(self@),
                    pmeasure(p2) < pmeasure(p0),
                    tag_node@.name == tag.text@,
                    view_attr_list(tag_node.attributes@) == attrs_done,
                    attrs_unique(tag_node@.attributes),
                    forall|i: int|
                        0 <= i < tag_node.children@.len() ==> wf_node((*tag_node.children@[i])@),
                    self@.errs.len() >= p0.errs.len(),
                    self@.errs.subrange(0, p0.errs.len() as int) == p0.errs,
                    errs_wf(p0.errs, p0.lex.line) ==> errs_wf(self@.errs, self@.lex.line),
                    sp_parse_body(pbody0).0 == view_node_list(tag_node.children@)
                        + sp_parse_body(self@).0,
                    sp_parse_body(pbody0).1 == sp_parse_body(self@).1,
                decreases pmeasure(self@),
            {
                let ghost snapb = self@;
                let ghost chsnap = tag_node.children@;
                if self.expect(&Token::Character('}')) {
                    proof {
                        assert(sp_parse_body(snapb) == (Seq::<NodeV>::empty(), self@));
                        assert(sp_parse_body(pbody0).0 =~= view_node_list(tag_node.children@));
                        assert(sp_parse_body(pbody0).1 == self@);
                    }
                    break;
                }
                self.parse_impl(&mut tag_node.children);
                proof {
                    assert forall|i: int| 0 <= i < tag_node.children@.len() implies wf_node(
                        (*tag_node.children@[i])@,
                    ) by {
                        if i < chsnap.len() {
                            assert(tag_node.children@.subrange(0, chsnap.len() as int)[i]
                                == tag_node.children@[i]);
                        }
                    }
                }
                if !self.current_token_is(&Token::Character('}')) && !self.current_is_eof() {
                    self.error_panic(String::from_str("Expected '}' to close the tag body"));
                }
                proof {
                    assert(self@.errs.subrange(0, p0.errs.len() as int) =~= p0.errs);
                    assert(pbound(self@) < pbound(snapb));
                    assert(sp_parse_body(snapb).0 == sp_parse_seq(snapb).0 + sp_parse_body(
                        self@,
                    ).0);
                    assert(sp_parse_body(snapb).1 == sp_parse_body(self@).1);
                    assert(sp_parse_body(pbody0).0 =~= view_node_list(tag_node.children@)
                        + sp_parse_body(self@).0);
                }
            }
        } else {
            proof {
                assert(view_node_list(tag_node.children@) =~= Seq::<NodeV>::empty());
            }
        }
        proof {
            assert(({
                let e2 = sp_expect(p2, sp_char('{'));
                let b = if e2.1 && pbound(e2.0) < pbound(p0) {
                    sp_parse_body(e2.0)
                } else {
                    (Seq::<NodeV>::empty(), e2.0)
                };
                b == (view_node_list(tag_node.children@), self@)
            }));
            assert(self@ == sp_parse_tag(p0, tag.text@).1);
            lemma_view_node_list_index(tag_node.children@);
            lemma_wf_node_list_iff(view_node_list(tag_node.children@));
        }
        let result = Some(Box::new(ASTNode::Tag(tag_node)));
        proof {
            assert(result matches Some(node) && node@ == sp_parse_tag(p0, tag.text@).0);
        }
        result
    }

    /// Parses the whole source. The syntax tree is returned only when no
    /// problem was recorded; otherwise the full ordered list of problems is
    /// returned and the partial tree is discarded.
    pub fn parse(&mut self) -> (r: ParseResult)
        requires
            old(self).wf(),
        ensures
            final(self).wf(),
            final(self)@.errs == Seq::<ErrV>::empty(),
            final(self)@ == (ParserV {
                errs: Seq::<ErrV>::empty(),
                ..sp_parse(old(self)@).1
            }),
            ({
                let pr = sp_parse(old(self)@);
                if pr.1.errs.len() == 0 {
                    r matches Ok(node) && node@ == NodeV::Root(RootV { children: pr.0 })
                } else {
                    r matches Err(e) && e@ == pr.1.errs
                }
            }),
            (r matches Ok(node) ==> node@ is Root && wf_node(node@) && old(self)@.errs.len()
                == 0),
            (r matches Err(e) ==> e@.len() > 0 && e@.subrange(0, old(self)@.errs.len() as int)
                == old(self)@.errs),
            (errs_wf(old(self)@.errs, old(self)@.lex.line) ==> (r matches Err(e) ==> errs_wf(
                e@,
                final(self)@.lex.line,
            ))),
            old(self)@.errs.len() > 0 ==> r is Err,
    {
        let ghost p0 = old(self)@;
        let mut root_node = ASTNodeRoot { children: Vec::new() };
        self.advance_token();
        proof {
            assert(view_node_list(root_node.children@) =~= Seq::<NodeV>::empty());
        }
        self.parse_impl(&mut root_node.children);
        proof {
            assert(view_node_list(root_node.children@) =~= sp_parse(p0).0);
            assert(self@ == sp_parse(p0).1);
        }
        if self.error_log.is_empty() {
            proof {
                assert(self@.errs.len() == 0);
                lemma_view_node_list_index(root_node.children@);
                lemma_wf_node_list_iff(view_node_list(root_node.children@));
            }
            let result = Ok(Box::new(ASTNode::Root(root_node)));
            proof {
                assert(result matches Ok(node) && node@ == NodeV::Root(
                    RootV { children: sp_parse(p0).0 },
                ));
                assert(self@ =~= (ParserV { errs: Seq::<ErrV>::empty(), ..sp_parse(p0).1 }));
            }
            result
        } else {
            let mut errors = ParseErrors { errors: Vec::new() };
            core::mem::swap(&mut errors.errors, &mut self.error_log);
            proof {
                assert(self@.errs =~= Seq::<ErrV>::empty());
                assert(errors@ =~= sp_parse(p0).1.errs);
                assert(self@ =~= (ParserV { errs: Seq::<ErrV>::empty(), ..sp_parse(p0).1 }));
            }
            Err(errors)
        }
    }
}

} // verus!
