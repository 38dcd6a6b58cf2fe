//! The Pratt (precedence-climbing) parser.
//!
//! [`parse`] consumes tokens and emits a postfix instruction program
//! for the stack machine in [`crate::machine`]. Every operator has a
//! binding power, and an operator is taken by the current call only
//! while its binding power exceeds the caller-supplied minimum; that
//! encodes precedence. Right-associativity of `^` comes from recursing
//! with its binding power less one; the prefix sense of `+` and `-`
//! recurses with their binding power raised by 15.
//!
//! A closing parenthesis is never taken by the main loop: it only stops
//! it, and only the branch that consumed the matching opener takes it.
//! A consequence, kept for compatibility: input left over after the
//! outermost call — such as the tail of `(2+3))) * 4` — is not an
//! error; the caller simply stops at it.

use vstd::prelude::*;

verus! {

use crate::token::{Bindable, FuncKind, OpKind, Token, func_bp_spec, op_bp_spec};

/// An error of parsing or evaluation.
#[derive(Debug, Clone, Copy, PartialEq, Eq, Structural)]
pub enum ParseError {
    /// The input ended where an expression had to start.
    UnexpectedEnd,
    /// A token that cannot stand at this point, carried along.
    UnexpectedToken(Token),
    /// A function name not followed by an opening parenthesis.
    ExpectedParenAfterFunc(FuncKind),
    /// An opening parenthesis whose group never closes.
    UnmatchedParen,
    /// An operator other than plus or minus in prefix position.
    UnexpectedOperator(OpKind),
    /// The factorial of a negative value.
    NegativeFactorial,
    /// The factorial of a value with a fractional part.
    NonIntegerFactorial,
}

/// One instruction of the postfix evaluation program.
///
/// The program denotes the expression in reverse Polish order: operands
/// are pushed, and each operator pops its operands and pushes its
/// result. `Neg` and `Fact` are carried out by the machine itself;
/// `Bin` and `Call` are handed to the caller, which owns the
/// floating-point arithmetic.
#[derive(Debug, Clone, Copy, PartialEq, Eq, Structural)]
pub enum Instr {
    /// Push a number, given as its IEEE-754 bits.
    Push(u64),
    /// Negate the top of the stack: prefix minus.
    Neg,
    /// Replace the top of the stack by its factorial.
    Fact,
    /// Pop two values and push the result of the infix operator.
    Bin(OpKind),
    /// Pop one value and push the result of the built-in function.
    Call(FuncKind),
}

/// What parsing one expression from position `i` with minimum binding
/// power `min_bp` yields: the postfix program of the expression, or the
/// first error; and the position that parsing stopped at.
///
/// The position dispatches on the leading token: a number stands for
/// itself; a function must be followed by an opening parenthesis and
/// its argument; prefix plus or minus takes its operand with binding
/// power raised by 15; an opening parenthesis takes a full expression
/// and requires the closing one. Then [`parse_loop_spec`] takes over.
pub open spec fn parse_spec(ts: Seq<Token>, i: int, min_bp: u8) -> (Result<Seq<Instr>, ParseError>, int)
    decreases ts.len() - i, 1int,
{
    if !(0 <= i < ts.len()) {
        (Err(ParseError::UnexpectedEnd), i)
    } else {
        match ts[i] {
            Token::Number(b) => parse_loop_spec(ts, i + 1, min_bp, seq![Instr::Push(b)]),
            Token::Func(f) => {
                if i + 1 < ts.len() && ts[i + 1] == Token::LParen {
                    let (arg, j) = parse_spec(ts, i + 2, func_bp_spec(f));
                    match arg {
                        Ok(rpn) => {
                            let j2: int = if i + 2 <= j <= ts.len() {
                                j
                            } else {
                                i + 2
                            };
                            parse_loop_spec(ts, j2, min_bp, rpn + seq![Instr::Call(f)])
                        },
                        Err(e) => (Err(e), j),
                    }
                } else {
                    (Err(ParseError::ExpectedParenAfterFunc(f)), i + 1)
                }
            },
            Token::Op(o) => {
                if o == OpKind::Plus || o == OpKind::Minus {
                    let (arg, j) = parse_spec(ts, i + 1, (op_bp_spec(o) + 15) as u8);
                    match arg {
                        Ok(rpn) => {
                            let rpn2 = if o == OpKind::Minus {
                                rpn + seq![Instr::Neg]
                            } else {
                                rpn
                            };
                            let j2: int = if i + 1 <= j <= ts.len() {
                                j
                            } else {
                                i + 1
                            };
                            parse_loop_spec(ts, j2, min_bp, rpn2)
                        },
                        Err(e) => (Err(e), j),
                    }
                } else {
                    (Err(ParseError::UnexpectedOperator(o)), i + 1)
                }
            },
            Token::LParen => {
                let (inner, j) = parse_spec(ts, i + 1, 0);
                match inner {
                    Ok(rpn) => {
                        let j2: int = if i + 1 <= j <= ts.len() {
                            j
                        } else {
                            i + 1
                        };
                        if j2 < ts.len() && ts[j2] == Token::RParen {
                            parse_loop_spec(ts, j2 + 1, min_bp, rpn)
                        } else {
                            (Err(ParseError::UnmatchedParen), j2)
                        }
                    },
                    Err(e) => (Err(e), j),
                }
            },
            Token::RParen => (Err(ParseError::UnexpectedToken(Token::RParen)), i),
        }
    }
}

/// The main loop of the Pratt parser, with the program `lhs` already
/// parsed: the end of the input and a closing parenthesis stop it, as
/// does an operator whose binding power does not exceed `min_bp`. A
/// taken postfix factorial extends the program by one instruction; a
/// taken infix operator parses its right operand — with its own binding
/// power, or one less for the right-associative `^` — and appends it
/// and the operator. Any other token is an error.
pub open spec fn parse_loop_spec(ts: Seq<Token>, i: int, min_bp: u8, lhs: Seq<Instr>) -> (Result<
    Seq<Instr>,
    ParseError,
>, int)
    decreases ts.len() - i, 0int,
{
    if !(0 <= i < ts.len()) {
        (Ok(lhs), i)
    } else {
        match ts[i] {
            Token::RParen => (Ok(lhs), i),
            Token::Op(o) => {
                if op_bp_spec(o) <= min_bp {
                    (Ok(lhs), i)
                } else if o == OpKind::Factorial {
                    parse_loop_spec(ts, i + 1, min_bp, lhs + seq![Instr::Fact])
                } else {
                    let rbp: u8 = if o == OpKind::Caret {
                        (op_bp_spec(o) - 1) as u8
                    } else {
                        op_bp_spec(o)
                    };
                    let (rhs, j) = parse_spec(ts, i + 1, rbp);
                    match rhs {
                        Ok(rpn) => {
                            let j2: int = if i + 1 <= j <= ts.len() {
                                j
                            } else {
                                i + 1
                            };
                            parse_loop_spec(ts, j2, min_bp, lhs + rpn + seq![Instr::Bin(o)])
                        },
                        Err(e) => (Err(e), j),
                    }
                }
            },
            _ => (Err(ParseError::UnexpectedToken(ts[i])), i),
        }
    }
}

/// Parse one expression from `*pos` on, with minimum binding power
/// `min_bp`, into its postfix program, advancing `*pos` to where
/// parsing stopped. The outermost call passes `min_bp == 0` so that no
/// operator is skipped.
///
/// The result and the final position are exactly those of
/// [`parse_spec`]; on an error, the program is withheld and `*pos` only
/// promises to stay within the input.
pub fn parse(tokens: &Vec<Token>, pos: &mut usize, min_bp: u8) -> (r: Result<Vec<Instr>, ParseError>)
    requires
        *old(pos) <= tokens@.len(),
    ensures
        *old(pos) <= *final(pos) <= tokens@.len(),
        match r {
            Ok(v) => ({
                let (sr, sj) = parse_spec(tokens@, *old(pos) as int, min_bp);
                sr matches Ok(m) && m == v@ && sj == *final(pos) as int
            }),
            Err(e) => parse_spec(tokens@, *old(pos) as int, min_bp).0 matches Err(m) && m == e,
        },
    decreases tokens@.len() - *old(pos),
{
    let ghost s = tokens@;
    let ghost p0 = *pos as int;
    let n = tokens.len();
    if *pos >= n {
        return Err(ParseError::UnexpectedEnd);
    }
    let t = tokens[*pos];
    let mut rpn: Vec<Instr> = Vec::new();
    match t {
        Token::Number(b) => {
            rpn.push(Instr::Push(b));
            *pos = *pos + 1;
            proof {
                assert(rpn@ =~= seq![Instr::Push(b)]);
            }
        },
        Token::Func(f) => {
            if *pos + 1 < n && tokens[*pos + 1] == Token::LParen {
                *pos = *pos + 2;
                match parse(tokens, pos, f.bp()) {
                    Ok(v) => {
                        let ghost varg = v@;
                        rpn = v;
                        rpn.push(Instr::Call(f));
                        proof {
                            assert(rpn@ =~= varg + seq![Instr::Call(f)]);
                        }
                    },
                    Err(e) => {
                        return Err(e);
                    },
                }
            } else {
                return Err(ParseError::ExpectedParenAfterFunc(f));
            }
        },
        Token::Op(o) => {
            if o == OpKind::Plus || o == OpKind::Minus {
                *pos = *pos + 1;
                match parse(tokens, pos, o.bp() + 15) {
                    Ok(v) => {
                        let ghost varg = v@;
                        rpn = v;
                        if o == OpKind::Minus {
                            rpn.push(Instr::Neg);
                            proof {
                                assert(rpn@ =~= varg + seq![Instr::Neg]);
                            }
                        }
                    },
                    Err(e) => {
                        return Err(e);
                    },
                }
            } else {
                return Err(ParseError::UnexpectedOperator(o));
            }
        },
        Token::LParen => {
            *pos = *pos + 1;
            match parse(tokens, pos, 0) {
                Ok(v) => {
                    if *pos < n && tokens[*pos] == Token::RParen {
                        rpn = v;
                        *pos = *pos + 1;
                    } else {
                        return Err(ParseError::UnmatchedParen);
                    }
                },
                Err(e) => {
                    return Err(e);
                },
            }
        },
        Token::RParen => {
            return Err(ParseError::UnexpectedToken(t));
        },
    }
    loop
        invariant_except_break
            s == tokens@,
            n == s.len(),
            p0 == *old(pos) as int,
            p0 < *pos <= n,
            parse_spec(s, p0, min_bp) == parse_loop_spec(s, *pos as int, min_bp, rpn@),
        ensures
            s == tokens@,
            p0 == *old(pos) as int,
            p0 < *pos <= n == s.len(),
            parse_spec(s, p0, min_bp) == (Result::<Seq<Instr>, ParseError>::Ok(rpn@), *pos as int),
        decreases n - *pos,
    {
        if *pos >= n {
            break;
        }
        let t2 = tokens[*pos];
        match t2 {
            Token::RParen => {
                break;
            },
            Token::Op(o) => {
                if o.bp() <= min_bp {
                    break;
                }
                if o == OpKind::Factorial {
                    let ghost lhs0 = rpn@;
                    rpn.push(Instr::Fact);
                    *pos = *pos + 1;
                    proof {
                        assert(rpn@ =~= lhs0 + seq![Instr::Fact]);
                    }
                } else {
                    let rbp: u8 = if o == OpKind::Caret {
                        o.bp() - 1
                    } else {
                        o.bp()
                    };
                    *pos = *pos + 1;
                    match parse(tokens, pos, rbp) {
                        Ok(v) => {
                            let ghost lhs0 = rpn@;
                            let ghost varg = v@;
                            let mut v = v;
                            rpn.append(&mut v);
                            rpn.push(Instr::Bin(o));
                            proof {
                                assert(rpn@ =~= lhs0 + varg + seq![Instr::Bin(o)]);
                            }
                        },
                        Err(e) => {
                            return Err(e);
                        },
                    }
                }
            },
            _ => {
                return Err(ParseError::UnexpectedToken(t2));
            },
        }
    }
    Ok(rpn)
}

} // verus!
