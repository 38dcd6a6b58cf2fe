//! The stack machine that reduces a postfix program to a single value.
//!
//! The machine owns everything about evaluation except the
//! floating-point arithmetic itself: it pushes numbers, negates by
//! flipping the sign bit, checks the factorial's domain and computes it
//! over the integers, and keeps the stack sound. When it meets an infix
//! operator or a built-in function it stops and hands the operands out
//! as an [`Outcome`]; the caller performs that one arithmetic step and
//! hands the result back to [`Eval::resume`]. Every step of the machine
//! itself is deterministic and fully specified by [`advance`].

use vstd::prelude::*;

verus! {

use crate::math::wfact;
use crate::numeric::{
    bits_of_uint, int_value_sat, integer_value, is_negative, is_nonneg_integer, negate, negated,
    sign_bit, uint_to_bits,
};
use crate::parser::{Instr, ParseError};
use crate::token::{FuncKind, OpKind};

/// Stack safety: running the program from a stack of depth `d` never
/// pops a value that is not there.
pub open spec fn safe(p: Seq<Instr>, d: int) -> bool
    decreases p.len(),
{
    if p.len() == 0 {
        true
    } else {
        match p[0] {
            Instr::Push(_) => safe(p.skip(1), d + 1),
            Instr::Neg => d >= 1 && safe(p.skip(1), d),
            Instr::Fact => d >= 1 && safe(p.skip(1), d),
            Instr::Call(_) => d >= 1 && safe(p.skip(1), d),
            Instr::Bin(_) => d >= 2 && safe(p.skip(1), d - 1),
        }
    }
}

/// The net stack effect of a program: each push adds a value, each
/// infix operator removes one, everything else is neutral.
pub open spec fn net(p: Seq<Instr>) -> int
    decreases p.len(),
{
    if p.len() == 0 {
        0
    } else {
        (match p[0] {
            Instr::Push(_) => 1int,
            Instr::Bin(_) => -1int,
            _ => 0int,
        }) + net(p.skip(1))
    }
}

/// A well-formed program: from the empty stack it never underflows and
/// leaves exactly one value. Every program the parser emits is well
/// formed; see [`crate::laws`].
pub open spec fn rpn_wf(p: Seq<Instr>) -> bool {
    safe(p, 0) && net(p) == 1
}

/// Where a run of the machine stopped.
#[derive(Debug, Clone, Copy, PartialEq, Eq, Structural)]
pub enum Outcome {
    /// The program is exhausted; the value is the result's IEEE-754
    /// bits.
    Done(u64),
    /// An infix operator needs the caller: apply it to the two
    /// operands, left then right, and hand the bits back to `resume`.
    NeedBin(OpKind, u64, u64),
    /// A built-in function needs the caller: apply it to the operand
    /// and hand the bits back to `resume`.
    NeedCall(FuncKind, u64),
    /// Evaluation failed; the machine stays where it stopped.
    Fail(ParseError),
}

/// Run the machine from `pc` with stack `st` until it finishes, fails,
/// or needs the caller: the deterministic small-step semantics of the
/// program. A factorial first requires a non-negative whole number —
/// the sign is inspected before wholeness — and then computes the
/// factorial modulo 2^64 of the value, saturated to `u64::MAX`, encoded
/// back to the nearest representable value.
///
/// On a stack too short for an instruction the machine reports failure
/// in place; a well-formed program never reaches that, and the error
/// value is immaterial.
pub open spec fn advance(p: Seq<Instr>, pc: int, st: Seq<u64>) -> (int, Seq<u64>, Outcome)
    decreases p.len() - pc,
{
    if !(0 <= pc < p.len()) {
        if st.len() == 1 {
            (pc, st, Outcome::Done(st[0]))
        } else {
            (pc, st, Outcome::Fail(ParseError::UnexpectedEnd))
        }
    } else {
        match p[pc] {
            Instr::Push(b) => advance(p, pc + 1, st.push(b)),
            Instr::Neg => if st.len() >= 1 {
                advance(p, pc + 1, st.update(st.len() - 1, negated(st.last())))
            } else {
                (pc, st, Outcome::Fail(ParseError::UnexpectedEnd))
            },
            Instr::Fact => if st.len() >= 1 {
                let v = st.last();
                if sign_bit(v) {
                    (pc, st, Outcome::Fail(ParseError::NegativeFactorial))
                } else if !is_nonneg_integer(v) {
                    (pc, st, Outcome::Fail(ParseError::NonIntegerFactorial))
                } else {
                    let w = bits_of_uint(wfact(int_value_sat(v) as nat) as u64);
                    advance(p, pc + 1, st.update(st.len() - 1, w))
                }
            } else {
                (pc, st, Outcome::Fail(ParseError::UnexpectedEnd))
            },
            Instr::Bin(o) => if st.len() >= 2 {
                (pc, st, Outcome::NeedBin(o, st[st.len() - 2], st[st.len() - 1]))
            } else {
                (pc, st, Outcome::Fail(ParseError::UnexpectedEnd))
            },
            Instr::Call(f) => if st.len() >= 1 {
                (pc, st, Outcome::NeedCall(f, st.last()))
            } else {
                (pc, st, Outcome::Fail(ParseError::UnexpectedEnd))
            },
        }
    }
}

/// What [`Eval::resume`] does: answer the pending request with the
/// caller's value `v` — popping the request's operands and pushing `v`
/// — and run on. With no request pending the value is ignored and the
/// machine simply runs.
pub open spec fn resume_spec(p: Seq<Instr>, pc: int, st: Seq<u64>, v: u64) -> (
    int,
    Seq<u64>,
    Outcome,
) {
    if 0 <= pc < p.len() {
        match p[pc] {
            Instr::Bin(_) => if st.len() >= 2 {
                advance(p, pc + 1, st.take(st.len() - 2).push(v))
            } else {
                advance(p, pc, st)
            },
            Instr::Call(_) => if st.len() >= 1 {
                advance(p, pc + 1, st.take(st.len() - 1).push(v))
            } else {
                advance(p, pc, st)
            },
            _ => advance(p, pc, st),
        }
    } else {
        advance(p, pc, st)
    }
}

/// A paused evaluation of one postfix program.
pub struct Eval {
    prog: Vec<Instr>,
    pc: usize,
    stack: Vec<u64>,
}

impl Eval {
    /// The program under evaluation.
    pub closed spec fn code(self) -> Seq<Instr> {
        self.prog@
    }

    /// The instruction the machine stands at.
    pub closed spec fn at(self) -> int {
        self.pc as int
    }

    /// The value stack, bottom first.
    pub closed spec fn values(self) -> Seq<u64> {
        self.stack@
    }

    /// The machine's invariant: what is left of the program runs from
    /// the present stack without underflow and ends with one value.
    pub closed spec fn wf(self) -> bool {
        &&& self.pc <= self.prog@.len()
        &&& safe(self.prog@.skip(self.pc as int), self.stack@.len() as int)
        &&& self.stack@.len() as int + net(self.prog@.skip(self.pc as int)) == 1
    }

    /// Accept a program and stand at its start with an empty stack.
    /// Returns `None` exactly when the program is not well formed.
    pub fn new(prog: Vec<Instr>) -> (r: Option<Eval>)
        ensures
            match r {
                Some(e) => rpn_wf(prog@) && e.code() == prog@ && e.at() == 0 && e.values()
                    == Seq::<u64>::empty() && e.wf(),
                None => !rpn_wf(prog@),
            },
    {
        let ghost s = prog@;
        let n = prog.len();
        let mut d: usize = 0;
        let mut i: usize = 0;
        proof {
            assert(s.skip(0) =~= s);
        }
        while i < n
            invariant
                i <= n == s.len(),
                s == prog@,
                d <= i,
                safe(s, 0) <==> safe(s.skip(i as int), d as int),
                net(s) == d + net(s.skip(i as int)),
            decreases n - i,
        {
            let ghost tail = s.skip(i as int);
            proof {
                assert(tail[0] == s[i as int]);
                assert(tail.skip(1) =~= s.skip(i + 1));
            }
            match prog[i] {
                Instr::Push(_) => {
                    d = d + 1;
                },
                Instr::Neg | Instr::Fact | Instr::Call(_) => {
                    if d < 1 {
                        return None;
                    }
                },
                Instr::Bin(_) => {
                    if d < 2 {
                        return None;
                    }
                    d = d - 1;
                },
            }
            i = i + 1;
        }
        proof {
            assert(s.skip(n as int) =~= Seq::empty());
        }
        if d == 1 {
            let e = Eval { prog, pc: 0, stack: Vec::new() };
            proof {
                assert(e.prog@.skip(0) =~= e.prog@);
            }
            Some(e)
        } else {
            None
        }
    }

    /// Run until the program finishes, fails, or needs one step of
    /// floating-point arithmetic from the caller. The machine's state
    /// and the outcome are exactly those of [`advance`].
    pub fn run(&mut self) -> (r: Outcome)
        requires
            old(self).wf(),
        ensures
            final(self).wf(),
            final(self).code() == old(self).code(),
            (final(self).at(), final(self).values(), r) == advance(
                old(self).code(),
                old(self).at(),
                old(self).values(),
            ),
    {
        let ghost c0 = self.code();
        let ghost a0 = self.at();
        let ghost v0 = self.values();
        let out: Outcome;
        loop
            invariant_except_break
                self.wf(),
                self.code() == c0,
                c0 == old(self).code(),
                a0 == old(self).at(),
                v0 == old(self).values(),
                advance(c0, self.at(), self.values()) == advance(c0, a0, v0),
            ensures
                self.wf(),
                self.code() == c0,
                c0 == old(self).code(),
                a0 == old(self).at(),
                v0 == old(self).values(),
                (self.at(), self.values(), out) == advance(c0, a0, v0),
            decreases self.code().len() - self.at(),
        {
            let ghost tail = self.prog@.skip(self.pc as int);
            proof {
                if self.pc < self.prog.len() {
                    assert(tail[0] == self.prog@[self.pc as int]);
                    assert(tail.skip(1) =~= self.prog@.skip(self.pc as int + 1));
                }
            }
            if self.pc >= self.prog.len() {
                proof {
                    assert(tail =~= Seq::empty());
                }
                out = Outcome::Done(self.stack[self.stack.len() - 1]);
                break;
            }
            match self.prog[self.pc] {
                Instr::Push(b) => {
                    self.stack.push(b);
                    self.pc = self.pc + 1;
                },
                Instr::Neg => {
                    let top = self.stack.len() - 1;
                    let v = self.stack[top];
                    self.stack.set(top, negate(v));
                    self.pc = self.pc + 1;
                },
                Instr::Fact => {
                    let top = self.stack.len() - 1;
                    let v = self.stack[top];
                    if is_negative(v) {
                        out = Outcome::Fail(ParseError::NegativeFactorial);
                        break;
                    }
                    match integer_value(v) {
                        None => {
                            out = Outcome::Fail(ParseError::NonIntegerFactorial);
                            break;
                        },
                        Some(nv) => {
                            let w = crate::math::wfactorial(nv);
                            self.stack.set(top, uint_to_bits(w));
                            self.pc = self.pc + 1;
                        },
                    }
                },
                Instr::Bin(o) => {
                    let b = self.stack[self.stack.len() - 1];
                    let a = self.stack[self.stack.len() - 2];
                    out = Outcome::NeedBin(o, a, b);
                    break;
                },
                Instr::Call(f) => {
                    let v = self.stack[self.stack.len() - 1];
                    out = Outcome::NeedCall(f, v);
                    break;
                },
            }
        }
        out
    }

    /// Answer the pending request with the caller's value and run on:
    /// the request's operands leave the stack, `v` takes their place.
    /// With no request pending, `v` is ignored and the machine runs.
    pub fn resume(&mut self, v: u64) -> (r: Outcome)
        requires
            old(self).wf(),
        ensures
            final(self).wf(),
            final(self).code() == old(self).code(),
            (final(self).at(), final(self).values(), r) == resume_spec(
                old(self).code(),
                old(self).at(),
                old(self).values(),
                v,
            ),
    {
        let ghost tail = self.prog@.skip(self.pc as int);
        proof {
            if self.pc < self.prog.len() {
                assert(tail[0] == self.prog@[self.pc as int]);
                assert(tail.skip(1) =~= self.prog@.skip(self.pc as int + 1));
            }
        }
        if self.pc < self.prog.len() {
            match self.prog[self.pc] {
                Instr::Bin(_) => {
                    let keep = self.stack.len() - 2;
                    self.stack.truncate(keep);
                    self.stack.push(v);
                    self.pc = self.pc + 1;
                },
                Instr::Call(_) => {
                    let keep = self.stack.len() - 1;
                    self.stack.truncate(keep);
                    self.stack.push(v);
                    self.pc = self.pc + 1;
                },
                _ => {
                },
            }
        }
        self.run()
    }
}

} // verus!
