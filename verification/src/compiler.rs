//! The Pratt-style single-pass expression compiler: it consumes tokens and
//! emits bytecode and constants directly into a chunk, with no syntax tree.
//!
//! The spec functions in this module define compilation as a total function
//! of the token stream and the pre-parsed number constants; the executable
//! compiler is proved to follow them exactly. Recursive spec functions carry
//! explicit progress guards (`idx` strictly grows) for termination; the
//! executable compiler is proved never to take a guard's bail-out branch.

use vstd::prelude::*;
use crate::chunk::Chunk;
use crate::error::{CompileError, CompileErrorKind};
use crate::op_code::OpCode;
use crate::scanner::{eof_token, lemma_scan_all_wf, s_scan_all, Scanner, Token, TokenType};
use crate::value::Value;

verus! {

/// The operator precedence ladder, from lowest to highest.
#[derive(Clone, Copy, Debug, PartialEq, Eq, Structural)]
pub enum Precedence {
    /// The no-operator level, below every real precedence.
    Lowest,
    Assignment,
    Or,
    And,
    Equality,
    Comparison,
    Term,
    Factor,
    Unary,
    Call,
    Primary,
}

impl Precedence {
    /// The rank of this level in the ladder, for comparisons.
    pub open spec fn spec_value(self) -> u8 {
        match self {
            Precedence::Lowest => 0,
            Precedence::Assignment => 1,
            Precedence::Or => 2,
            Precedence::And => 3,
            Precedence::Equality => 4,
            Precedence::Comparison => 5,
            Precedence::Term => 6,
            Precedence::Factor => 7,
            Precedence::Unary => 8,
            Precedence::Call => 9,
            Precedence::Primary => 10,
        }
    }

    /// The rank of this level in the ladder.
    pub fn value(self) -> (v: u8)
        ensures
            v == self.spec_value(),
    {
        match self {
            Precedence::Lowest => 0,
            Precedence::Assignment => 1,
            Precedence::Or => 2,
            Precedence::And => 3,
            Precedence::Equality => 4,
            Precedence::Comparison => 5,
            Precedence::Term => 6,
            Precedence::Factor => 7,
            Precedence::Unary => 8,
            Precedence::Call => 9,
            Precedence::Primary => 10,
        }
    }

    /// The next level up the ladder; `Primary`, the top, stays put.
    pub open spec fn spec_next(self) -> Precedence {
        match self {
            Precedence::Lowest => Precedence::Assignment,
            Precedence::Assignment => Precedence::Or,
            Precedence::Or => Precedence::And,
            Precedence::And => Precedence::Equality,
            Precedence::Equality => Precedence::Comparison,
            Precedence::Comparison => Precedence::Term,
            Precedence::Term => Precedence::Factor,
            Precedence::Factor => Precedence::Unary,
            Precedence::Unary => Precedence::Call,
            Precedence::Call => Precedence::Primary,
            Precedence::Primary => Precedence::Primary,
        }
    }

    /// The next level up the ladder; binary operators parse their right-hand
    /// side one level above their own, making them left-associative.
    pub fn next(self) -> (p: Precedence)
        ensures
            p == self.spec_next(),
    {
        match self {
            Precedence::Lowest => Precedence::Assignment,
            Precedence::Assignment => Precedence::Or,
            Precedence::Or => Precedence::And,
            Precedence::And => Precedence::Equality,
            Precedence::Equality => Precedence::Comparison,
            Precedence::Comparison => Precedence::Term,
            Precedence::Term => Precedence::Factor,
            Precedence::Factor => Precedence::Unary,
            Precedence::Unary => Precedence::Call,
            Precedence::Call => Precedence::Primary,
            Precedence::Primary => Precedence::Primary,
        }
    }

    /// The level with the given rank, if any: the inverse of `value`.
    pub fn from_value(v: u8) -> (p: Option<Precedence>)
        ensures
            match p {
                Some(q) => q.spec_value() == v,
                None => v > 10,
            },
    {
        if v == 0 {
            Some(Precedence::Lowest)
        } else if v == 1 {
            Some(Precedence::Assignment)
        } else if v == 2 {
            Some(Precedence::Or)
        } else if v == 3 {
            Some(Precedence::And)
        } else if v == 4 {
            Some(Precedence::Equality)
        } else if v == 5 {
            Some(Precedence::Comparison)
        } else if v == 6 {
            Some(Precedence::Term)
        } else if v == 7 {
            Some(Precedence::Factor)
        } else if v == 8 {
            Some(Precedence::Unary)
        } else if v == 9 {
            Some(Precedence::Call)
        } else if v == 10 {
            Some(Precedence::Primary)
        } else {
            None
        }
    }
}

/// A prefix parse handler: how a token may start an expression.
#[derive(Clone, Copy, Debug, PartialEq, Eq, Structural)]
pub enum PrefixFn {
    Grouping,
    Unary,
    Number,
    Literal,
}

/// An infix parse handler: how a token may continue an expression.
#[derive(Clone, Copy, Debug, PartialEq, Eq, Structural)]
pub enum InfixFn {
    Binary,
}

/// One row of the parse-rule table.
#[derive(Clone, Copy, Debug, PartialEq, Eq, Structural)]
pub struct ParseRule {
    pub prefix: Option<PrefixFn>,
    pub infix: Option<InfixFn>,
    pub precedence: Precedence,
}

/// The parse-rule table, keyed by token kind.
pub open spec fn s_get_rule(t: TokenType) -> ParseRule {
    match t {
        TokenType::LeftParen => ParseRule {
            prefix: Some(PrefixFn::Grouping),
            infix: None,
            precedence: Precedence::Lowest,
        },
        TokenType::Minus => ParseRule {
            prefix: Some(PrefixFn::Unary),
            infix: Some(InfixFn::Binary),
            precedence: Precedence::Term,
        },
        TokenType::Plus => ParseRule {
            prefix: None,
            infix: Some(InfixFn::Binary),
            precedence: Precedence::Term,
        },
        TokenType::Slash => ParseRule {
            prefix: None,
            infix: Some(InfixFn::Binary),
            precedence: Precedence::Factor,
        },
        TokenType::Star => ParseRule {
            prefix: None,
            infix: Some(InfixFn::Binary),
            precedence: Precedence::Factor,
        },
        TokenType::Number => ParseRule {
            prefix: Some(PrefixFn::Number),
            infix: None,
            precedence: Precedence::Lowest,
        },
        TokenType::True => ParseRule {
            prefix: Some(PrefixFn::Literal),
            infix: None,
            precedence: Precedence::Lowest,
        },
        TokenType::False => ParseRule {
            prefix: Some(PrefixFn::Literal),
            infix: None,
            precedence: Precedence::Lowest,
        },
        TokenType::Nil => ParseRule {
            prefix: Some(PrefixFn::Literal),
            infix: None,
            precedence: Precedence::Lowest,
        },
        _ => ParseRule { prefix: None, infix: None, precedence: Precedence::Lowest },
    }
}

/// Look up the parse rule of a token kind.
pub fn get_rule(t: TokenType) -> (r: ParseRule)
    ensures
        r == s_get_rule(t),
{
    match t {
        TokenType::LeftParen => ParseRule {
            prefix: Some(PrefixFn::Grouping),
            infix: None,
            precedence: Precedence::Lowest,
        },
        TokenType::Minus => ParseRule {
            prefix: Some(PrefixFn::Unary),
            infix: Some(InfixFn::Binary),
            precedence: Precedence::Term,
        },
        TokenType::Plus => ParseRule {
            prefix: None,
            infix: Some(InfixFn::Binary),
            precedence: Precedence::Term,
        },
        TokenType::Slash => ParseRule {
            prefix: None,
            infix: Some(InfixFn::Binary),
            precedence: Precedence::Factor,
        },
        TokenType::Star => ParseRule {
            prefix: None,
            infix: Some(InfixFn::Binary),
            precedence: Precedence::Factor,
        },
        TokenType::Number => ParseRule {
            prefix: Some(PrefixFn::Number),
            infix: None,
            precedence: Precedence::Lowest,
        },
        TokenType::True => ParseRule {
            prefix: Some(PrefixFn::Literal),
            infix: None,
            precedence: Precedence::Lowest,
        },
        TokenType::False => ParseRule {
            prefix: Some(PrefixFn::Literal),
            infix: None,
            precedence: Precedence::Lowest,
        },
        TokenType::Nil => ParseRule {
            prefix: Some(PrefixFn::Literal),
            infix: None,
            precedence: Precedence::Lowest,
        },
        _ => ParseRule { prefix: None, infix: None, precedence: Precedence::Lowest },
    }
}

/// The byte a binary operator token compiles to, if it is one.
pub open spec fn s_binary_op_byte(t: TokenType) -> Option<u8> {
    match t {
        TokenType::Plus => Some(OpCode::OpAdd.spec_byte()),
        TokenType::Minus => Some(OpCode::OpSubtract.spec_byte()),
        TokenType::Star => Some(OpCode::OpMultiply.spec_byte()),
        TokenType::Slash => Some(OpCode::OpDivide.spec_byte()),
        _ => None,
    }
}

/// The whole state of a compilation, as the spec functions step it: the
/// token stream (with a pending lexical error, if scanning was cut short),
/// the pre-parsed number constants, the parser cursor, and the chunk
/// contents built so far. `err` holds the first error; every step on a state
/// with `err` set leaves it unchanged.
#[verifier::ext_equal]
pub ghost struct CState {
    pub toks: Seq<Token>,
    pub lex_err: Option<CompileError>,
    pub nums: Seq<u64>,
    pub idx: int,
    pub prev: Token,
    pub cur: Token,
    pub nidx: int,
    pub code: Seq<u8>,
    pub consts: Seq<Value>,
    pub lines: Seq<usize>,
    pub err: Option<CompileError>,
}

/// Structural soundness of a compilation state's parser part: the cursor
/// stays within the token stream, `cur` is the token the cursor last
/// passed, and the stream holds one trailing `Eof` exactly when scanning
/// ran to completion. Scanning establishes this and every parse step keeps
/// it.
pub open spec fn wf_parse(st: CState) -> bool {
    &&& 0 <= st.idx <= st.toks.len()
    &&& (st.lex_err is None ==> st.toks.len() >= 1 && st.toks.last() == eof_token()
        && forall|i: int|
        0 <= i < st.toks.len() - 1 ==> (#[trigger] st.toks[i]).tpe != TokenType::Eof)
    &&& (st.lex_err is Some ==> forall|i: int|
        0 <= i < st.toks.len() ==> (#[trigger] st.toks[i]).tpe != TokenType::Eof)
    &&& (st.idx >= 1 ==> st.cur == st.toks[st.idx - 1])
    &&& (st.idx == 0 ==> st.cur == eof_token())
}


/// How many number-literal tokens stand in `toks[a..b)`.
pub open spec fn s_count_numbers(toks: Seq<Token>, a: int, b: int) -> int
    decreases b - a,
{
    if a < 0 || a >= b || b > toks.len() {
        0
    } else {
        (if toks[a].tpe == TokenType::Number {
            1int
        } else {
            0int
        }) + s_count_numbers(toks, a + 1, b)
    }
}

/// The number constants `nums[a..b)` as pool values, in order.
pub open spec fn num_window(nums: Seq<u64>, a: int, b: int) -> Seq<Value> {
    if a <= b {
        Seq::new((b - a) as nat, |k: int| Value::Number(nums[a + k]))
    } else {
        Seq::empty()
    }
}

/// A source's number literals are covered by the constants handed in:
/// `nums` holds at least one entry per number token of the scan.
pub open spec fn numbers_cover(src: Seq<u8>, nums: Seq<u64>) -> bool {
    let (toks, lexe) = s_scan_all(src, 0, 1);
    nums.len() >= s_count_numbers(toks, 0, toks.len() as int)
}

/// Step the parser cursor: `previous` takes the current token, `current`
/// takes the next unconsumed one — or the trailing `Eof` forever, or the
/// pending lexical error surfaces.
pub open spec fn s_advance(st: CState) -> CState {
    if st.err is Some {
        st
    } else if st.idx < st.toks.len() {
        CState { prev: st.cur, cur: st.toks[st.idx], idx: st.idx + 1, ..st }
    } else if st.lex_err is Some {
        CState { prev: st.cur, err: st.lex_err, ..st }
    } else {
        CState { prev: st.cur, cur: eof_token(), ..st }
    }
}

/// Consume the current token if it has the expected kind, else fail with
/// `UnexpectedToken` at the current token's span.
pub open spec fn s_consume(st: CState, expected: TokenType) -> CState {
    if st.err is Some {
        st
    } else if st.cur.tpe == expected {
        s_advance(st)
    } else {
        CState {
            err: Some(
                CompileError {
                    kind: CompileErrorKind::UnexpectedToken { expected, found: st.cur.tpe },
                    start: st.cur.start,
                    length: st.cur.length,
                },
            ),
            ..st
        }
    }
}

/// Emit one byte, recording the line of the token just consumed.
pub open spec fn s_emit_byte(st: CState, b: u8) -> CState {
    if st.err is Some {
        st
    } else {
        CState { code: st.code.push(b), lines: st.lines.push(st.prev.line), ..st }
    }
}

/// Add a value to the constant pool and emit `CONSTANT index`; fails with
/// `TooManyConstants` at the previous token's span when the pool already
/// holds 256 entries.
pub open spec fn s_emit_constant(st: CState, v: Value) -> CState {
    if st.err is Some {
        st
    } else if st.consts.len() >= 256 {
        CState {
            err: Some(
                CompileError {
                    kind: CompileErrorKind::TooManyConstants,
                    start: st.prev.start,
                    length: st.prev.length,
                },
            ),
            ..st
        }
    } else {
        let idx = st.consts.len() as u8;
        s_emit_byte(
            s_emit_byte(CState { consts: st.consts.push(v), ..st }, OpCode::OpConstant.spec_byte()),
            idx,
        )
    }
}

/// The `number` prefix handler: the next pre-parsed constant (the bits of
/// the literal just consumed) goes to the pool, and `CONSTANT idx` is
/// emitted.
pub open spec fn s_number(st: CState) -> CState {
    if st.err is Some {
        st
    } else if st.nidx < st.nums.len() {
        s_emit_constant(
            CState { nidx: st.nidx + 1, ..st },
            Value::Number(st.nums[st.nidx]),
        )
    } else {
        // No pre-parsed constant is left for this literal; compile the
        // placeholder bit pattern zero. With a covering pool this branch is
        // never reached: `lemma_compile_constants_from_numbers` proves the
        // pool then holds exactly the given bits.
        s_emit_constant(st, Value::Number(0))
    }
}

/// The `literal` prefix handler: `true`, `false` and `nil` compile to their
/// one-byte instructions.
pub open spec fn s_literal(st: CState) -> CState {
    if st.err is Some {
        st
    } else if st.prev.tpe == TokenType::False {
        s_emit_byte(st, OpCode::OpFalse.spec_byte())
    } else if st.prev.tpe == TokenType::True {
        s_emit_byte(st, OpCode::OpTrue.spec_byte())
    } else if st.prev.tpe == TokenType::Nil {
        s_emit_byte(st, OpCode::OpNil.spec_byte())
    } else {
        st
    }
}

/// Parse the expression that starts at the current token, folding in infix
/// operators whose precedence is at least `min_prec`: first the prefix
/// handler of the token just consumed, then the infix loop.
pub open spec fn s_parse_precedence(st: CState, min_prec: Precedence) -> CState
    decreases st.toks.len() - st.idx, 0int,
{
    if st.err is Some {
        st
    } else {
        let st1 = s_advance(st);
        if st1.err is Some {
            st1
        } else {
            match s_get_rule(st1.prev.tpe).prefix {
                Option::None => CState {
                    err: Some(
                        CompileError {
                            kind: CompileErrorKind::ExpectedExpression,
                            start: st1.prev.start,
                            length: st1.prev.length,
                        },
                    ),
                    ..st1
                },
                Option::Some(pf) => {
                    // Progress guard: the prefix handler stands after a real
                    // token was consumed. Parsing always advances.
                    if st.idx < st1.idx && st1.idx <= st.toks.len() && 0 <= st.idx {
                        let st2 = match pf {
                            PrefixFn::Grouping => s_grouping(st1),
                            PrefixFn::Unary => s_unary(st1),
                            PrefixFn::Number => s_number(st1),
                            PrefixFn::Literal => s_literal(st1),
                        };
                        if st.idx < st2.idx && st2.idx <= st.toks.len() && st2.toks
                            == st.toks {
                            s_infix_loop(st2, min_prec)
                        } else {
                            st2
                        }
                    } else {
                        st1
                    }
                },
            }
        }
    }
}

/// The infix loop of `s_parse_precedence`: while the current token's rule
/// binds at least as tightly as `min_prec`, consume it and run its infix
/// handler.
pub open spec fn s_infix_loop(st: CState, min_prec: Precedence) -> CState
    decreases st.toks.len() - st.idx, 1int,
{
    if st.err is Some {
        st
    } else if !(0 <= st.idx && st.idx <= st.toks.len()) {
        st
    } else if min_prec.spec_value() <= s_get_rule(st.cur.tpe).precedence.spec_value() {
        let st1 = s_advance(st);
        if st1.err is Some {
            st1
        } else if st.idx < st1.idx && st1.idx <= st.toks.len() {
            let st2 = match s_get_rule(st1.prev.tpe).infix {
                Option::Some(InfixFn::Binary) => s_binary(st1),
                Option::None => st1,
            };
            if st.idx < st2.idx && st2.idx <= st.toks.len() && st2.toks == st.toks {
                s_infix_loop(st2, min_prec)
            } else {
                st2
            }
        } else {
            st1
        }
    } else {
        st
    }
}

/// The `grouping` prefix handler: a parenthesized expression, closed by a
/// required `)`.
pub open spec fn s_grouping(st: CState) -> CState
    decreases st.toks.len() - st.idx, 2int,
{
    if st.err is Some {
        st
    } else {
        s_consume(s_expression(st), TokenType::RightParen)
    }
}

/// The `unary` prefix handler: parse the operand at `Unary` precedence,
/// then emit `NEGATE` for a `-`.
pub open spec fn s_unary(st: CState) -> CState
    decreases st.toks.len() - st.idx, 2int,
{
    if st.err is Some {
        st
    } else {
        let op = st.prev.tpe;
        let st1 = s_parse_precedence(st, Precedence::Unary);
        if op == TokenType::Minus {
            s_emit_byte(st1, OpCode::OpNegate.spec_byte())
        } else {
            st1
        }
    }
}

/// The `binary` infix handler: parse the right-hand side one precedence
/// level above the operator's own, then emit the operator's instruction.
pub open spec fn s_binary(st: CState) -> CState
    decreases st.toks.len() - st.idx, 2int,
{
    if st.err is Some {
        st
    } else {
        let op = st.prev.tpe;
        let st1 = s_parse_precedence(st, s_get_rule(op).precedence.spec_next());
        match s_binary_op_byte(op) {
            Option::Some(b) => s_emit_byte(st1, b),
            Option::None => st1,
        }
    }
}

/// Parse one whole expression: the lowest real precedence level.
pub open spec fn s_expression(st: CState) -> CState
    decreases st.toks.len() - st.idx, 1int,
{
    s_parse_precedence(st, Precedence::Assignment)
}

/// A whole compilation: prime the cursor, parse one expression, require the
/// end of input, and emit the final `RETURN`.
pub open spec fn s_compile(st: CState) -> CState {
    let st1 = s_advance(st);
    let st2 = s_expression(st1);
    let st3 = s_consume(st2, TokenType::Eof);
    s_emit_byte(st3, OpCode::OpReturn.spec_byte())
}

/// The starting state of compiling `src` with the pre-parsed number
/// constants `nums`: the scanned token stream and an empty chunk.
pub open spec fn s_init(src: Seq<u8>, nums: Seq<u64>) -> CState {
    let (toks, lexe) = s_scan_all(src, 0, 1);
    CState {
        toks,
        lex_err: lexe,
        nums,
        idx: 0,
        prev: eof_token(),
        cur: eof_token(),
        nidx: 0,
        code: Seq::empty(),
        consts: Seq::empty(),
        lines: Seq::empty(),
        err: None,
    }
}

/// What compiling `src` with number constants `nums` produces: the final
/// compilation state, bytecode, constants, line table and error included.
pub open spec fn s_compile_source(src: Seq<u8>, nums: Seq<u64>) -> CState {
    s_compile(s_init(src, nums))
}

/// The single-pass compiler: the scanned token stream, the pre-parsed
/// number constants, the parser cursor (`prev` / `cur`), and the chunk
/// being filled. `gerr` mirrors, in ghost state, the first error raised.
pub struct Compiler {
    pub toks: Vec<Token>,
    pub lex_err: Option<CompileError>,
    pub nums: Vec<u64>,
    pub idx: usize,
    pub prev: Token,
    pub cur: Token,
    pub nidx: usize,
    pub chunk: Chunk,
    pub gerr: Ghost<Option<CompileError>>,
}

impl View for Compiler {
    type V = CState;

    open spec fn view(&self) -> CState {
        CState {
            toks: self.toks@,
            lex_err: self.lex_err,
            nums: self.nums@,
            idx: self.idx as int,
            prev: self.prev,
            cur: self.cur,
            nidx: self.nidx as int,
            code: self.chunk.code@,
            consts: self.chunk.constants@,
            lines: self.chunk.flat_lines(),
            err: self.gerr@,
        }
    }
}

impl Compiler {
    /// Structural soundness of the compiler state: the parser part is well
    /// formed and so is the chunk being filled.
    pub open spec fn wf(self) -> bool {
        &&& wf_parse(self@)
        &&& self.chunk.wf()
    }

    /// Scan `source` whole and stand ready to compile it, with `numbers`
    /// the bits of the number literals of the source, in their order.
    pub fn new(source: &[u8], numbers: Vec<u64>) -> (c: Compiler)
        requires
            source@.len() < usize::MAX,
            numbers_cover(source@, numbers@),
        ensures
            c.wf(),
            c@ == s_init(source@, numbers@),
            c@.err is None,
    {
        let mut scanner = Scanner::new(source);
        let (toks, lex_err) = scanner.scan_all();
        proof {
            lemma_scan_all_wf(source@, 0, 1);
        }
        let c = Compiler {
            toks,
            lex_err,
            nums: numbers,
            idx: 0,
            prev: Token::new(TokenType::Eof, 0, 0, 0),
            cur: Token::new(TokenType::Eof, 0, 0, 0),
            nidx: 0,
            chunk: Chunk::new(),
            gerr: Ghost(None),
        };
        proof {
            assert(c@ =~= s_init(source@, numbers@));
        }
        c
    }

    /// Step the cursor: mirrors `s_advance`.
    pub fn advance(&mut self) -> (r: Result<(), CompileError>)
        requires
            old(self).wf(),
            old(self)@.err is None,
        ensures
            final(self).wf(),
            final(self)@ == s_advance(old(self)@),
            match r {
                Ok(_) => final(self)@.err is None,
                Err(e) => final(self)@.err == Some(e),
            },
    {
        if self.idx < self.toks.len() {
            self.prev = self.cur;
            self.cur = self.toks[self.idx];
            self.idx = self.idx + 1;
            proof {
                assert(self@ =~= s_advance(old(self)@));
            }
            Ok(())
        } else {
            match self.lex_err {
                Some(e) => {
                    self.prev = self.cur;
                    self.gerr = Ghost(Some(e));
                    proof {
                        assert(self@ =~= s_advance(old(self)@));
                    }
                    Err(e)
                },
                None => {
                    self.prev = self.cur;
                    self.cur = Token::new(TokenType::Eof, 0, 0, 0);
                    proof {
                        assert(self@ =~= s_advance(old(self)@));
                    }
                    Ok(())
                },
            }
        }
    }

    /// Require the current token's kind and step past it: mirrors
    /// `s_consume`.
    pub fn consume(&mut self, expected: TokenType) -> (r: Result<(), CompileError>)
        requires
            old(self).wf(),
            old(self)@.err is None,
        ensures
            final(self).wf(),
            final(self)@ == s_consume(old(self)@, expected),
            match r {
                Ok(_) => final(self)@.err is None,
                Err(e) => final(self)@.err == Some(e),
            },
    {
        if self.cur.tpe == expected {
            self.advance()
        } else {
            let e = CompileError {
                kind: CompileErrorKind::UnexpectedToken { expected, found: self.cur.tpe },
                start: self.cur.start,
                length: self.cur.length,
            };
            self.gerr = Ghost(Some(e));
            proof {
                assert(self@ =~= s_consume(old(self)@, expected));
            }
            Err(e)
        }
    }

    /// Append one instruction byte at the line of the token just consumed:
    /// mirrors `s_emit_byte`.
    pub fn emit_byte(&mut self, byte: u8)
        requires
            old(self).wf(),
            old(self)@.err is None,
        ensures
            final(self).wf(),
            final(self)@ == s_emit_byte(old(self)@, byte),
            final(self)@.err is None,
    {
        let line = self.prev.line;
        self.chunk.write_chunk(byte, line);
        proof {
            assert(self@ =~= s_emit_byte(old(self)@, byte));
        }
    }

    /// Append two instruction bytes.
    pub fn emit_bytes(&mut self, byte1: u8, byte2: u8)
        requires
            old(self).wf(),
            old(self)@.err is None,
        ensures
            final(self).wf(),
            final(self)@ == s_emit_byte(s_emit_byte(old(self)@, byte1), byte2),
            final(self)@.err is None,
    {
        self.emit_byte(byte1);
        self.emit_byte(byte2);
    }

    /// Append the final `RETURN`.
    pub fn emit_return(&mut self)
        requires
            old(self).wf(),
            old(self)@.err is None,
        ensures
            final(self).wf(),
            final(self)@ == s_emit_byte(old(self)@, OpCode::OpReturn.spec_byte()),
            final(self)@.err is None,
    {
        self.emit_byte(OpCode::OpReturn.as_byte());
    }

    /// Close compilation by emitting the final `RETURN`.
    pub fn end_compiler(&mut self)
        requires
            old(self).wf(),
            old(self)@.err is None,
        ensures
            final(self).wf(),
            final(self)@ == s_emit_byte(old(self)@, OpCode::OpReturn.spec_byte()),
            final(self)@.err is None,
    {
        self.emit_return();
    }

    /// Add a value to the constant pool, refusing to grow it past 256
    /// entries.
    pub fn make_constant(&mut self, value: Value) -> (r: Result<u8, CompileError>)
        requires
            old(self).wf(),
            old(self)@.err is None,
        ensures
            final(self).wf(),
            match r {
                Ok(idx) => old(self)@.consts.len() < 256 && final(self)@ == (CState {
                    consts: old(self)@.consts.push(value),
                    ..old(self)@
                }) && idx == old(self)@.consts.len(),
                Err(e) => old(self)@.consts.len() >= 256 && e == (CompileError {
                    kind: CompileErrorKind::TooManyConstants,
                    start: old(self)@.prev.start,
                    length: old(self)@.prev.length,
                }) && final(self)@ == (CState { err: Some(e), ..old(self)@ }),
            },
    {
        if self.chunk.constants.len() >= 256 {
            let e = CompileError {
                kind: CompileErrorKind::TooManyConstants,
                start: self.prev.start,
                length: self.prev.length,
            };
            self.gerr = Ghost(Some(e));
            proof {
                assert(self@ =~= (CState { err: Some(e), ..old(self)@ }));
            }
            Err(e)
        } else {
            let idx = self.chunk.add_constant(value);
            proof {
                assert(self@ =~= (CState { consts: old(self)@.consts.push(value), ..old(self)@ }));
            }
            Ok(idx)
        }
    }

    /// Add a constant and emit `CONSTANT index`: mirrors `s_emit_constant`.
    pub fn emit_constant(&mut self, value: Value) -> (r: Result<(), CompileError>)
        requires
            old(self).wf(),
            old(self)@.err is None,
        ensures
            final(self).wf(),
            final(self)@ == s_emit_constant(old(self)@, value),
            match r {
                Ok(_) => final(self)@.err is None,
                Err(e) => final(self)@.err == Some(e),
            },
    {
        let idx = match self.make_constant(value) {
            Ok(idx) => idx,
            Err(e) => {
                return Err(e);
            },
        };
        self.emit_bytes(OpCode::OpConstant.as_byte(), idx);
        Ok(())
    }

    /// The `number` prefix handler: mirrors `s_number`.
    pub fn number(&mut self) -> (r: Result<(), CompileError>)
        requires
            old(self).wf(),
            old(self)@.err is None,
        ensures
            final(self).wf(),
            final(self)@ == s_number(old(self)@),
            match r {
                Ok(_) => final(self)@.err is None,
                Err(e) => final(self)@.err == Some(e),
            },
    {
        let bits: u64;
        if self.nidx < self.nums.len() {
            bits = self.nums[self.nidx];
            self.nidx = self.nidx + 1;
            proof {
                assert(self@ =~= (CState { nidx: old(self)@.nidx + 1, ..old(self)@ }));
            }
        } else {
            bits = 0;
        }
        self.emit_constant(Value::Number(bits))
    }

    /// The `literal` prefix handler: mirrors `s_literal`.
    pub fn literal(&mut self) -> (r: Result<(), CompileError>)
        requires
            old(self).wf(),
            old(self)@.err is None,
        ensures
            final(self).wf(),
            final(self)@ == s_literal(old(self)@),
            r is Ok,
            final(self)@.err is None,
    {
        match self.prev.tpe {
            TokenType::False => self.emit_byte(OpCode::OpFalse.as_byte()),
            TokenType::True => self.emit_byte(OpCode::OpTrue.as_byte()),
            TokenType::Nil => self.emit_byte(OpCode::OpNil.as_byte()),
            _ => (),
        }
        Ok(())
    }
}

impl Compiler {
    /// The `grouping` prefix handler: mirrors `s_grouping`.
    pub fn grouping(&mut self) -> (r: Result<(), CompileError>)
        requires
            old(self).wf(),
            old(self)@.err is None,
        ensures
            final(self).wf(),
            final(self)@ == s_grouping(old(self)@),
            final(self).idx >= old(self).idx,
            final(self).toks@ == old(self).toks@,
            match r {
                Ok(_) => final(self)@.err is None,
                Err(e) => final(self)@.err == Some(e),
            },
        decreases self.toks@.len() - self.idx, 2int,
    {
        match self.expression() {
            Err(e) => {
                return Err(e);
            },
            Ok(_) => {},
        }
        self.consume(TokenType::RightParen)
    }

    /// The `unary` prefix handler: mirrors `s_unary`.
    pub fn unary(&mut self) -> (r: Result<(), CompileError>)
        requires
            old(self).wf(),
            old(self)@.err is None,
        ensures
            final(self).wf(),
            final(self)@ == s_unary(old(self)@),
            final(self).idx >= old(self).idx,
            final(self).toks@ == old(self).toks@,
            match r {
                Ok(_) => final(self)@.err is None,
                Err(e) => final(self)@.err == Some(e),
            },
        decreases self.toks@.len() - self.idx, 2int,
    {
        let op = self.prev.tpe;
        match self.parse_precedence(Precedence::Unary) {
            Err(e) => {
                return Err(e);
            },
            Ok(_) => {},
        }
        if op == TokenType::Minus {
            self.emit_byte(OpCode::OpNegate.as_byte());
        }
        Ok(())
    }

    /// The `binary` infix handler: mirrors `s_binary`.
    pub fn binary(&mut self) -> (r: Result<(), CompileError>)
        requires
            old(self).wf(),
            old(self)@.err is None,
        ensures
            final(self).wf(),
            final(self)@ == s_binary(old(self)@),
            final(self).idx >= old(self).idx,
            final(self).toks@ == old(self).toks@,
            match r {
                Ok(_) => final(self)@.err is None,
                Err(e) => final(self)@.err == Some(e),
            },
        decreases self.toks@.len() - self.idx, 2int,
    {
        let op = self.prev.tpe;
        let rule = get_rule(op);
        let next_prec = rule.precedence.next();
        proof {
            assert(next_prec.spec_value() >= 1);
        }
        match self.parse_precedence(next_prec) {
            Err(e) => {
                return Err(e);
            },
            Ok(_) => {},
        }
        match op {
            TokenType::Plus => self.emit_byte(OpCode::OpAdd.as_byte()),
            TokenType::Minus => self.emit_byte(OpCode::OpSubtract.as_byte()),
            TokenType::Star => self.emit_byte(OpCode::OpMultiply.as_byte()),
            TokenType::Slash => self.emit_byte(OpCode::OpDivide.as_byte()),
            _ => (),
        }
        Ok(())
    }

    /// Parse one whole expression: mirrors `s_expression`.
    pub fn expression(&mut self) -> (r: Result<(), CompileError>)
        requires
            old(self).wf(),
            old(self)@.err is None,
        ensures
            final(self).wf(),
            final(self)@ == s_expression(old(self)@),
            final(self).idx >= old(self).idx,
            final(self).toks@ == old(self).toks@,
            match r {
                Ok(_) => final(self)@.err is None,
                Err(e) => final(self)@.err == Some(e),
            },
        decreases self.toks@.len() - self.idx, 1int,
    {
        self.parse_precedence(Precedence::Assignment)
    }

    /// The heart of the Pratt parse: consume a token, run its prefix
    /// handler, then fold in infix operators binding at least as tightly as
    /// `min_prec`. Mirrors `s_parse_precedence`.
    #[verifier::loop_isolation(false)]
    pub fn parse_precedence(&mut self, min_prec: Precedence) -> (r: Result<(), CompileError>)
        requires
            old(self).wf(),
            old(self)@.err is None,
            min_prec.spec_value() >= 1,
        ensures
            final(self).wf(),
            final(self)@ == s_parse_precedence(old(self)@, min_prec),
            final(self).idx >= old(self).idx,
            final(self).toks@ == old(self).toks@,
            match r {
                Ok(_) => final(self)@.err is None,
                Err(e) => final(self)@.err == Some(e),
            },
        decreases self.toks@.len() - self.idx, 0int,
    {
        let ghost st0 = self@;
        match self.advance() {
            Err(e) => {
                return Err(e);
            },
            Ok(_) => {},
        }
        let ghost st1 = self@;
        let rule = get_rule(self.prev.tpe);
        proof {
            if rule.prefix is Some {
                // A prefix rule exists only for a real token, so the cursor
                // stood on one and `advance` moved strictly forward.
                assert(st1.prev == st0.cur);
                assert(s_get_rule(TokenType::Eof).prefix is None);
                if st0.idx == 0 {
                    assert(st0.cur == eof_token());
                    assert(false);
                }
                assert(st0.cur == st0.toks[st0.idx - 1]);
                if st0.idx == st0.toks.len() {
                    if st0.lex_err is None {
                        assert(st0.toks.last() == eof_token());
                        assert(false);
                    } else {
                        assert(st1.err is Some);
                        assert(false);
                    }
                }
                assert(st0.idx < st0.toks.len());
                assert(st1.idx == st0.idx + 1);
            }
        }
        match rule.prefix {
            None => {
                let t = self.prev;
                let e = CompileError {
                    kind: CompileErrorKind::ExpectedExpression,
                    start: t.start,
                    length: t.length,
                };
                self.gerr = Ghost(Some(e));
                proof {
                    assert(self@ =~= (CState { err: Some(e), ..st1 }));
                    assert(s_parse_precedence(st0, min_prec) == self@);
                }
                return Err(e);
            },
            Some(PrefixFn::Grouping) => {
                match self.grouping() {
                    Err(e) => {
                        proof {
                            lemma_infix_loop_err(self@, min_prec);
                        }
                        return Err(e);
                    },
                    Ok(_) => {},
                }
            },
            Some(PrefixFn::Unary) => {
                match self.unary() {
                    Err(e) => {
                        proof {
                            lemma_infix_loop_err(self@, min_prec);
                        }
                        return Err(e);
                    },
                    Ok(_) => {},
                }
            },
            Some(PrefixFn::Number) => {
                match self.number() {
                    Err(e) => {
                        proof {
                            lemma_infix_loop_err(self@, min_prec);
                        }
                        return Err(e);
                    },
                    Ok(_) => {},
                }
            },
            Some(PrefixFn::Literal) => {
                match self.literal() {
                    Err(e) => {
                        proof {
                            lemma_infix_loop_err(self@, min_prec);
                        }
                        return Err(e);
                    },
                    Ok(_) => {},
                }
            },
        }
        let ghost st2 = self@;
        proof {
            assert(s_parse_precedence(st0, min_prec) == s_infix_loop(st2, min_prec));
        }
        let min_val = min_prec.value();
        while min_val <= get_rule(self.cur.tpe).precedence.value()
            invariant
                self.wf(),
                self@.err is None,
                self.idx > st0.idx,
                self.toks@ == st0.toks,
                s_infix_loop(self@, min_prec) == s_infix_loop(st2, min_prec),
            decreases self.toks@.len() - self.idx,
        {
            let ghost st_it = self@;
            proof {
                // The current token binds at least as tightly as a real
                // precedence level, so it is one of the four operators and
                // another token can be consumed.
                assert(s_get_rule(st_it.cur.tpe).precedence.spec_value() >= 1);
                assert(st_it.cur.tpe == TokenType::Minus || st_it.cur.tpe == TokenType::Plus
                    || st_it.cur.tpe == TokenType::Slash || st_it.cur.tpe == TokenType::Star);
                assert(st_it.cur == st_it.toks[st_it.idx - 1]);
                if st_it.idx == st_it.toks.len() && st_it.lex_err is None {
                    assert(st_it.toks.last() == eof_token());
                    assert(false);
                }
            }
            match self.advance() {
                Err(e) => {
                    proof {
                        assert(s_infix_loop(st_it, min_prec) == self@);
                    }
                    return Err(e);
                },
                Ok(_) => {},
            }
            let ghost st_a = self@;
            proof {
                assert(st_a.idx == st_it.idx + 1);
            }
            let rule2 = get_rule(self.prev.tpe);
            match rule2.infix {
                Some(InfixFn::Binary) => {
                    match self.binary() {
                        Err(e) => {
                            proof {
                                lemma_infix_loop_err(self@, min_prec);
                                assert(s_infix_loop(st_it, min_prec) == s_infix_loop(
                                    self@,
                                    min_prec,
                                ));
                                assert(s_infix_loop(st_it, min_prec) == self@);
                            }
                            return Err(e);
                        },
                        Ok(_) => {},
                    }
                },
                None => {},
            }
            proof {
                assert(s_infix_loop(st_it, min_prec) == s_infix_loop(self@, min_prec));
            }
        }
        proof {
            assert(s_infix_loop(self@, min_prec) == self@);
        }
        Ok(())
    }

    /// A whole compilation: prime the cursor, parse one expression, require
    /// the end of input, and emit the final `RETURN`. Mirrors `s_compile`.
    pub fn compile(&mut self) -> (r: Result<(), CompileError>)
        requires
            old(self).wf(),
            old(self)@.err is None,
        ensures
            final(self).wf(),
            final(self)@ == s_compile(old(self)@),
            match r {
                Ok(_) => final(self)@.err is None,
                Err(e) => final(self)@.err == Some(e),
            },
    {
        match self.advance() {
            Err(e) => {
                return Err(e);
            },
            Ok(_) => {},
        }
        match self.expression() {
            Err(e) => {
                return Err(e);
            },
            Ok(_) => {},
        }
        match self.consume(TokenType::Eof) {
            Err(e) => {
                return Err(e);
            },
            Ok(_) => {},
        }
        self.end_compiler();
        Ok(())
    }
}

/// The infix loop leaves a failed state untouched.
pub proof fn lemma_infix_loop_err(st: CState, min_prec: Precedence)
    requires
        st.err is Some,
    ensures
        s_infix_loop(st, min_prec) == st,
{
}

/// Compile a whole source string: scan it, parse one expression, and build
/// the chunk. `numbers` carries the bits of the source's number literals in
/// order of appearance — at least one entry per literal — since this
/// library does not touch floats; the caller parses them (the verified
/// scanner makes building a covering pool exact).
pub fn compile(source: &[u8], numbers: Vec<u64>) -> (r: Result<Chunk, CompileError>)
    requires
        source@.len() < usize::MAX,
        numbers_cover(source@, numbers@),
    ensures
        ({
            let out = s_compile_source(source@, numbers@);
            match r {
                Ok(c) => out.err is None && c.wf() && c.code@ == out.code && c.constants@
                    == out.consts && c.flat_lines() == out.lines,
                Err(e) => out.err == Some(e),
            }
        }),
{
    let mut c = Compiler::new(source, numbers);
    match c.compile() {
        Ok(_) => Ok(c.chunk),
        Err(e) => Err(e),
    }
}

} // verus!
