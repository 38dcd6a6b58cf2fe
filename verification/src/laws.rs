//! The laws the library states about itself: every program the parser
//! emits is well formed, precedence and associativity order the emitted
//! programs as arithmetic demands, and the whole pipeline is
//! deterministic.

use vstd::prelude::*;

verus! {

use crate::lexer::{lex_spec, LexErrorModel};
use crate::machine::{advance, net, rpn_wf, safe, Outcome};
use crate::parser::{parse_loop_spec, parse_spec, Instr, ParseError};
use crate::token::{func_bp_spec, LexemeModel, op_bp_spec, OpKind, Token};

/// The net effect of programs laid end to end is the sum of their
/// effects.
proof fn lemma_net_concat(a: Seq<Instr>, b: Seq<Instr>)
    ensures
        net(a + b) == net(a) + net(b),
    decreases a.len(),
{
    if a.len() == 0 {
        assert(a + b =~= b);
    } else {
        assert((a + b).skip(1) =~= a.skip(1) + b);
        assert((a + b)[0] == a[0]);
        lemma_net_concat(a.skip(1), b);
    }
}

/// A program safe at one depth is safe at any greater depth.
proof fn lemma_safe_mono(p: Seq<Instr>, d1: int, d2: int)
    requires
        safe(p, d1),
        d1 <= d2,
    ensures
        safe(p, d2),
    decreases p.len(),
{
    if p.len() > 0 {
        match p[0] {
            Instr::Push(_) => lemma_safe_mono(p.skip(1), d1 + 1, d2 + 1),
            Instr::Bin(_) => lemma_safe_mono(p.skip(1), d1 - 1, d2 - 1),
            _ => lemma_safe_mono(p.skip(1), d1, d2),
        }
    }
}

/// Programs laid end to end are safe when the second is safe at the
/// depth the first one leaves.
proof fn lemma_safe_concat(a: Seq<Instr>, b: Seq<Instr>, d: int)
    requires
        safe(a, d),
        safe(b, d + net(a)),
    ensures
        safe(a + b, d),
    decreases a.len(),
{
    if a.len() == 0 {
        assert(a + b =~= b);
    } else {
        assert((a + b).skip(1) =~= a.skip(1) + b);
        assert((a + b)[0] == a[0]);
        match a[0] {
            Instr::Push(_) => lemma_safe_concat(a.skip(1), b, d + 1),
            Instr::Bin(_) => lemma_safe_concat(a.skip(1), b, d - 1),
            _ => lemma_safe_concat(a.skip(1), b, d),
        }
    }
}

/// A one-instruction program pushing a value.
proof fn lemma_singleton_push(b: u64)
    ensures
        net(seq![Instr::Push(b)]) == 1,
        safe(seq![Instr::Push(b)], 0),
{
    let p = seq![Instr::Push(b)];
    assert(p.len() == 1 && p[0] == Instr::Push(b));
    assert(p.skip(1) =~= Seq::<Instr>::empty());
    assert(net(Seq::<Instr>::empty()) == 0);
    assert(safe(Seq::<Instr>::empty(), 1));
    assert(net(p) == 1);
    assert(safe(p, 0));
}

/// A one-instruction program applying an operator that keeps the
/// depth, safe from depth one.
proof fn lemma_singleton_keep(x: Instr)
    requires
        x is Neg || x is Fact || x is Call,
    ensures
        net(seq![x]) == 0,
        safe(seq![x], 1),
{
    let p = seq![x];
    assert(p.len() == 1 && p[0] == x);
    assert(p.skip(1) =~= Seq::<Instr>::empty());
    assert(net(Seq::<Instr>::empty()) == 0);
    assert(safe(Seq::<Instr>::empty(), 1));
    assert(net(p) == 0);
    assert(safe(p, 1));
}

/// A one-instruction program applying an infix operator, safe from
/// depth two.
proof fn lemma_singleton_bin(o: OpKind)
    ensures
        net(seq![Instr::Bin(o)]) == -1,
        safe(seq![Instr::Bin(o)], 2),
{
    let p = seq![Instr::Bin(o)];
    assert(p.len() == 1 && p[0] == Instr::Bin(o));
    assert(p.skip(1) =~= Seq::<Instr>::empty());
    assert(net(Seq::<Instr>::empty()) == 0);
    assert(safe(Seq::<Instr>::empty(), 1));
    assert(net(p) == -1);
    assert(safe(p, 2));
}

/// Every program that parsing an expression yields is well formed: it
/// never underflows the stack and leaves exactly one value.
pub proof fn lemma_parse_spec_wf(ts: Seq<Token>, i: int, min_bp: u8)
    ensures
        parse_spec(ts, i, min_bp).0 matches Ok(r) ==> rpn_wf(r),
    decreases ts.len() - i, 1int,
{
    if 0 <= i < ts.len() {
        match ts[i] {
            Token::Number(b) => {
                lemma_singleton_push(b);
                lemma_parse_loop_wf(ts, i + 1, min_bp, seq![Instr::Push(b)]);
            },
            Token::Func(f) => {
                if i + 1 < ts.len() && ts[i + 1] == Token::LParen {
                    lemma_parse_spec_wf(ts, i + 2, func_bp_spec(f));
                    let (arg, j) = parse_spec(ts, i + 2, func_bp_spec(f));
                    if arg is Ok {
                        let rpn = arg->Ok_0;
                        let j2: int = if i + 2 <= j <= ts.len() {
                            j
                        } else {
                            i + 2
                        };
                        lemma_singleton_keep(Instr::Call(f));
                        lemma_safe_mono(seq![Instr::Call(f)], 1, 0 + net(rpn));
                        lemma_safe_concat(rpn, seq![Instr::Call(f)], 0);
                        lemma_net_concat(rpn, seq![Instr::Call(f)]);
                        lemma_parse_loop_wf(ts, j2, min_bp, rpn + seq![Instr::Call(f)]);
                    }
                }
            },
            Token::Op(o) => {
                if o == OpKind::Plus || o == OpKind::Minus {
                    lemma_parse_spec_wf(ts, i + 1, (op_bp_spec(o) + 15) as u8);
                    let (arg, j) = parse_spec(ts, i + 1, (op_bp_spec(o) + 15) as u8);
                    if arg is Ok {
                        let rpn = arg->Ok_0;
                        let j2: int = if i + 1 <= j <= ts.len() {
                            j
                        } else {
                            i + 1
                        };
                        let rpn2 = if o == OpKind::Minus {
                            rpn + seq![Instr::Neg]
                        } else {
                            rpn
                        };
                        if o == OpKind::Minus {
                            lemma_singleton_keep(Instr::Neg);
                            lemma_safe_mono(seq![Instr::Neg], 1, 0 + net(rpn));
                            lemma_safe_concat(rpn, seq![Instr::Neg], 0);
                            lemma_net_concat(rpn, seq![Instr::Neg]);
                        }
                        lemma_parse_loop_wf(ts, j2, min_bp, rpn2);
                    }
                }
            },
            Token::LParen => {
                lemma_parse_spec_wf(ts, i + 1, 0);
                let (inner, j) = parse_spec(ts, i + 1, 0);
                if inner is Ok {
                    let rpn = inner->Ok_0;
                    let j2: int = if i + 1 <= j <= ts.len() {
                        j
                    } else {
                        i + 1
                    };
                    if j2 < ts.len() && ts[j2] == Token::RParen {
                        lemma_parse_loop_wf(ts, j2 + 1, min_bp, rpn);
                    }
                }
            },
            Token::RParen => {
            },
        }
    }
}

/// The parser's main loop keeps the program well formed.
pub proof fn lemma_parse_loop_wf(ts: Seq<Token>, i: int, min_bp: u8, lhs: Seq<Instr>)
    requires
        rpn_wf(lhs),
    ensures
        parse_loop_spec(ts, i, min_bp, lhs).0 matches Ok(r) ==> rpn_wf(r),
    decreases ts.len() - i, 0int,
{
    if 0 <= i < ts.len() {
        match ts[i] {
            Token::Op(o) => {
                if op_bp_spec(o) <= min_bp {
                } else if o == OpKind::Factorial {
                    lemma_singleton_keep(Instr::Fact);
                    lemma_safe_mono(seq![Instr::Fact], 1, 0 + net(lhs));
                    lemma_safe_concat(lhs, seq![Instr::Fact], 0);
                    lemma_net_concat(lhs, seq![Instr::Fact]);
                    lemma_parse_loop_wf(ts, i + 1, min_bp, lhs + seq![Instr::Fact]);
                } else {
                    let rbp: u8 = if o == OpKind::Caret {
                        (op_bp_spec(o) - 1) as u8
                    } else {
                        op_bp_spec(o)
                    };
                    lemma_parse_spec_wf(ts, i + 1, rbp);
                    let (rhs, j) = parse_spec(ts, i + 1, rbp);
                    if rhs is Ok {
                        let rpn = rhs->Ok_0;
                        let j2: int = if i + 1 <= j <= ts.len() {
                            j
                        } else {
                            i + 1
                        };
                        lemma_safe_mono(rpn, 0, 0 + net(lhs));
                        lemma_safe_concat(lhs, rpn, 0);
                        lemma_net_concat(lhs, rpn);
                        lemma_singleton_bin(o);
                        lemma_safe_mono(seq![Instr::Bin(o)], 2, 0 + net(lhs + rpn));
                        lemma_safe_concat(lhs + rpn, seq![Instr::Bin(o)], 0);
                        lemma_net_concat(lhs + rpn, seq![Instr::Bin(o)]);
                        lemma_parse_loop_wf(ts, j2, min_bp, lhs + rpn + seq![Instr::Bin(o)]);
                    }
                }
            },
            _ => {
            },
        }
    }
}

/// Multiplication binds before addition: for all values, the tokens of
/// `a + b * c` parse to the program that multiplies `b` and `c` first
/// and adds `a` last.
pub proof fn lemma_precedence_mul_over_add(a: u64, b: u64, c: u64)
    ensures
        parse_spec(
            seq![
                Token::Number(a),
                Token::Op(OpKind::Plus),
                Token::Number(b),
                Token::Op(OpKind::Star),
                Token::Number(c),
            ],
            0,
            0,
        ) == (Result::<Seq<Instr>, ParseError>::Ok(
            seq![
                Instr::Push(a),
                Instr::Push(b),
                Instr::Push(c),
                Instr::Bin(OpKind::Star),
                Instr::Bin(OpKind::Plus),
            ],
        ), 5int),
{
    let ts = seq![
        Token::Number(a),
        Token::Op(OpKind::Plus),
        Token::Number(b),
        Token::Op(OpKind::Star),
        Token::Number(c),
    ];
    let inner = seq![Instr::Push(b)] + seq![Instr::Push(c)] + seq![Instr::Bin(OpKind::Star)];
    let whole = seq![Instr::Push(a)] + inner + seq![Instr::Bin(OpKind::Plus)];
    assert(parse_loop_spec(ts, 5, 10, seq![Instr::Push(c)]) == (
        Result::<Seq<Instr>, ParseError>::Ok(seq![Instr::Push(c)]),
        5int,
    ));
    assert(parse_spec(ts, 4, 10) == (Result::<Seq<Instr>, ParseError>::Ok(seq![Instr::Push(c)]), 5int));
    assert(parse_loop_spec(ts, 5, 5, inner) == (Result::<Seq<Instr>, ParseError>::Ok(inner), 5int));
    assert(parse_loop_spec(ts, 3, 5, seq![Instr::Push(b)]) == (
        Result::<Seq<Instr>, ParseError>::Ok(inner),
        5int,
    ));
    assert(parse_spec(ts, 2, 5) == (Result::<Seq<Instr>, ParseError>::Ok(inner), 5int));
    assert(parse_loop_spec(ts, 5, 0, whole) == (Result::<Seq<Instr>, ParseError>::Ok(whole), 5int));
    assert(parse_loop_spec(ts, 1, 0, seq![Instr::Push(a)]) == (
        Result::<Seq<Instr>, ParseError>::Ok(whole),
        5int,
    ));
    assert(parse_spec(ts, 0, 0) == (Result::<Seq<Instr>, ParseError>::Ok(whole), 5int));
    assert(whole =~= seq![
        Instr::Push(a),
        Instr::Push(b),
        Instr::Push(c),
        Instr::Bin(OpKind::Star),
        Instr::Bin(OpKind::Plus),
    ]);
}

/// Exponentiation is right-associative: for all values, the tokens of
/// `a ^ b ^ c` parse to the program that raises `b` to `c` first, not
/// the one that raises `a` to `b`.
pub proof fn lemma_caret_right_associative(a: u64, b: u64, c: u64)
    ensures
        parse_spec(
            seq![
                Token::Number(a),
                Token::Op(OpKind::Caret),
                Token::Number(b),
                Token::Op(OpKind::Caret),
                Token::Number(c),
            ],
            0,
            0,
        ) == (Result::<Seq<Instr>, ParseError>::Ok(
            seq![
                Instr::Push(a),
                Instr::Push(b),
                Instr::Push(c),
                Instr::Bin(OpKind::Caret),
                Instr::Bin(OpKind::Caret),
            ],
        ), 5int),
{
    let ts = seq![
        Token::Number(a),
        Token::Op(OpKind::Caret),
        Token::Number(b),
        Token::Op(OpKind::Caret),
        Token::Number(c),
    ];
    let inner = seq![Instr::Push(b)] + seq![Instr::Push(c)] + seq![Instr::Bin(OpKind::Caret)];
    let whole = seq![Instr::Push(a)] + inner + seq![Instr::Bin(OpKind::Caret)];
    assert(parse_loop_spec(ts, 5, 24, seq![Instr::Push(c)]) == (
        Result::<Seq<Instr>, ParseError>::Ok(seq![Instr::Push(c)]),
        5int,
    ));
    assert(parse_spec(ts, 4, 24) == (Result::<Seq<Instr>, ParseError>::Ok(seq![Instr::Push(c)]), 5int));
    assert(parse_loop_spec(ts, 5, 24, inner) == (Result::<Seq<Instr>, ParseError>::Ok(inner), 5int));
    assert(parse_loop_spec(ts, 3, 24, seq![Instr::Push(b)]) == (
        Result::<Seq<Instr>, ParseError>::Ok(inner),
        5int,
    ));
    assert(parse_spec(ts, 2, 24) == (Result::<Seq<Instr>, ParseError>::Ok(inner), 5int));
    assert(parse_loop_spec(ts, 5, 0, whole) == (Result::<Seq<Instr>, ParseError>::Ok(whole), 5int));
    assert(parse_loop_spec(ts, 1, 0, seq![Instr::Push(a)]) == (
        Result::<Seq<Instr>, ParseError>::Ok(whole),
        5int,
    ));
    assert(parse_spec(ts, 0, 0) == (Result::<Seq<Instr>, ParseError>::Ok(whole), 5int));
    assert(whole =~= seq![
        Instr::Push(a),
        Instr::Push(b),
        Instr::Push(c),
        Instr::Bin(OpKind::Caret),
        Instr::Bin(OpKind::Caret),
    ]);
}

/// The factorial the machine computes is the exact factorial wherever
/// that is representable: run on a program that pushes the encoding of
/// a whole number up to 20 and takes its factorial, the machine
/// finishes with the encoding of the exact factorial — no domain error,
/// no wrap-around.
pub proof fn lemma_machine_factorial_exact(n: u64)
    requires
        n <= 20,
    ensures
        ({
            let v = crate::numeric::bits_of_uint(n);
            let w = crate::numeric::bits_of_uint(crate::math::fact(n as nat) as u64);
            advance(seq![Instr::Push(v), Instr::Fact], 0, Seq::empty()) == (
                2int,
                seq![w],
                Outcome::Done(w),
            )
        }),
{
    let v = crate::numeric::bits_of_uint(n);
    let w = crate::numeric::bits_of_uint(crate::math::fact(n as nat) as u64);
    let p = seq![Instr::Push(v), Instr::Fact];
    crate::numeric::lemma_uint_round_trip(n);
    crate::math::lemma_wfact_small(n as nat);
    assert(Seq::<u64>::empty().push(v) =~= seq![v]);
    assert(advance(p, 0, Seq::empty()) == advance(p, 1, seq![v]));
    assert(!crate::numeric::sign_bit(v));
    assert(crate::numeric::int_value_sat(v) == n);
    assert(crate::math::wfact(n as nat) == crate::math::fact(n as nat));
    assert(seq![v].update(0, w) =~= seq![w]);
    assert(advance(p, 1, seq![v]) == advance(p, 2, seq![w]));
    assert(advance(p, 2, seq![w]) == (2int, seq![w], Outcome::Done(w)));
}

/// Lexing is a function of the text alone: two results of lexing the
/// same characters are the same.
pub proof fn lemma_lex_deterministic(
    s: Seq<char>,
    r1: Result<Seq<LexemeModel>, LexErrorModel>,
    r2: Result<Seq<LexemeModel>, LexErrorModel>,
)
    requires
        r1 == lex_spec(s, 0),
        r2 == lex_spec(s, 0),
    ensures
        r1 == r2,
{
}

/// Parsing is a function of the tokens alone: two results of parsing
/// the same tokens with the same minimum binding power are the same.
pub proof fn lemma_parse_deterministic(
    ts: Seq<Token>,
    min_bp: u8,
    r1: (Result<Seq<Instr>, ParseError>, int),
    r2: (Result<Seq<Instr>, ParseError>, int),
)
    requires
        r1 == parse_spec(ts, 0, min_bp),
        r2 == parse_spec(ts, 0, min_bp),
    ensures
        r1 == r2,
{
}

/// Each run of the machine is a function of its state: evaluation that
/// receives the same answers for its arithmetic steps passes through
/// the same states and ends the same way. Together with the two lemmas
/// above: the whole evaluation of a line is deterministic.
pub proof fn lemma_machine_deterministic(
    p: Seq<Instr>,
    pc: int,
    st: Seq<u64>,
    r1: (int, Seq<u64>, Outcome),
    r2: (int, Seq<u64>, Outcome),
)
    requires
        r1 == advance(p, pc, st),
        r2 == advance(p, pc, st),
    ensures
        r1 == r2,
{
}

} // verus!
