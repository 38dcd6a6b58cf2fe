//! The data structures that represent an expression: operators, built-in
//! functions, lexemes and tokens, and their binding powers.

use vstd::prelude::*;

verus! {

/// An operator of the expression language, one per source character.
#[derive(Debug, Clone, Copy, PartialEq, Eq, Structural)]
pub enum OpKind {
    /// Addition operator (`+`).
    Plus,
    /// Subtraction operator (`-`).
    Minus,
    /// Multiplication operator (`*`).
    Star,
    /// Division operator (`/`).
    Slash,
    /// Euclidean remainder operator (`%`).
    Modulo,
    /// Exponentiation operator (`^`).
    Caret,
    /// Factorial operator (`!`).
    Factorial,
}

/// A built-in single-argument function.
#[derive(Debug, Clone, Copy, PartialEq, Eq, Structural)]
pub enum FuncKind {
    /// Trigonometric sine.
    Sin,
    /// Trigonometric cosine.
    Cos,
    /// Trigonometric tangent.
    Tan,
    /// Inverse trigonometric sine.
    Asin,
    /// Inverse trigonometric cosine.
    Acos,
    /// Inverse trigonometric tangent.
    Atan,
    /// Conversion from radians to degrees.
    Deg,
    /// Conversion from degrees to radians.
    Rad,
    /// Exponential function; `exp(x)` is `e^x`.
    Exp,
    /// Natural logarithm.
    Ln,
    /// Logarithm base 10.
    Log,
    /// Square root.
    Sqrt,
}

/// A token the parser understands.
///
/// A number is carried as the bit pattern of its 64-bit IEEE-754 value, so
/// that the token model stays within the integers the proofs speak about.
/// The caller that owns the floating-point hardware converts a numeral's
/// text into these bits at the boundary; see [`crate::lexer::lex`] and
/// [`with_values`].
#[derive(Debug, Clone, Copy, PartialEq, Eq, Structural)]
pub enum Token {
    /// An operator.
    Op(OpKind),
    /// A built-in function.
    Func(FuncKind),
    /// A number, as the bits of its 64-bit IEEE-754 value.
    Number(u64),
    /// A left bracket (`(`).
    LParen,
    /// A right bracket (`)`).
    RParen,
}

/// What the lexer produces for one piece of the input.
///
/// A numeric literal is delivered as its text, since turning decimal text
/// into a 64-bit value is floating-point work that the caller performs;
/// everything else is already a finished token. [`with_values`] assembles
/// lexemes and converted values into tokens.
#[derive(Debug, PartialEq, Eq)]
pub enum Lexeme {
    /// An operator.
    Op(OpKind),
    /// A built-in function.
    Func(FuncKind),
    /// A number whose value is already known, as its IEEE-754 bits;
    /// produced for the constant `pi`.
    Number(u64),
    /// A numeric literal, as the digits-and-point text to be converted.
    Numeral(Vec<char>),
    /// A left bracket (`(`).
    LParen,
    /// A right bracket (`)`).
    RParen,
}

/// The mathematical model of a lexeme: a numeral is the sequence of its
/// characters.
pub enum LexemeModel {
    /// An operator.
    Op(OpKind),
    /// A built-in function.
    Func(FuncKind),
    /// A number with a known value, as its IEEE-754 bits.
    Number(u64),
    /// A numeric literal, as its text.
    Numeral(Seq<char>),
    /// A left bracket.
    LParen,
    /// A right bracket.
    RParen,
}

impl View for Lexeme {
    type V = LexemeModel;

    open spec fn view(&self) -> LexemeModel {
        match self {
            Lexeme::Op(o) => LexemeModel::Op(*o),
            Lexeme::Func(f) => LexemeModel::Func(*f),
            Lexeme::Number(b) => LexemeModel::Number(*b),
            Lexeme::Numeral(t) => LexemeModel::Numeral(t@),
            Lexeme::LParen => LexemeModel::LParen,
            Lexeme::RParen => LexemeModel::RParen,
        }
    }
}

/// The models of a sequence of lexemes.
pub open spec fn views(ls: Seq<Lexeme>) -> Seq<LexemeModel> {
    ls.map_values(|l: Lexeme| l@)
}

/// The texts of the numerals among `ls`, in order.
pub open spec fn numeral_texts(ls: Seq<LexemeModel>) -> Seq<Seq<char>>
    decreases ls.len(),
{
    if ls.len() == 0 {
        Seq::empty()
    } else {
        let rest = numeral_texts(ls.skip(1));
        match ls[0] {
            LexemeModel::Numeral(t) => seq![t] + rest,
            _ => rest,
        }
    }
}

/// The tokens that `ls` becomes once its numerals are replaced, in
/// order, by the values `vals`; a lexeme of any other kind maps to the
/// token of the same kind.
pub open spec fn substituted(ls: Seq<LexemeModel>, vals: Seq<u64>) -> Seq<Token>
    decreases ls.len(),
{
    if ls.len() == 0 {
        Seq::empty()
    } else {
        match ls[0] {
            LexemeModel::Numeral(_) => seq![
                Token::Number(if vals.len() > 0 { vals[0] } else { 0 }),
            ] + substituted(ls.skip(1), vals.skip(1)),
            LexemeModel::Op(o) => seq![Token::Op(o)] + substituted(ls.skip(1), vals),
            LexemeModel::Func(f) => seq![Token::Func(f)] + substituted(ls.skip(1), vals),
            LexemeModel::Number(b) => seq![Token::Number(b)] + substituted(ls.skip(1), vals),
            LexemeModel::LParen => seq![Token::LParen] + substituted(ls.skip(1), vals),
            LexemeModel::RParen => seq![Token::RParen] + substituted(ls.skip(1), vals),
        }
    }
}

/// The binding power of an operator when it appears in infix or postfix
/// position. Strictly ordered to encode precedence; see
/// [`lemma_binding_power_order`].
pub open spec fn op_bp_spec(o: OpKind) -> u8 {
    match o {
        OpKind::Plus | OpKind::Minus => 5,
        OpKind::Star | OpKind::Slash => 10,
        OpKind::Modulo => 15,
        OpKind::Caret => 25,
        OpKind::Factorial => 30,
    }
}

/// The binding power of a built-in function: all functions share one
/// maximal binding power.
pub open spec fn func_bp_spec(f: FuncKind) -> u8 {
    35
}

/// All sets of tokens with associated binding powers implement `Bindable`.
pub trait Bindable: Sized {
    /// The binding power of `self`, as the contracts speak of it.
    spec fn bp_spec(self) -> u8;

    /// Get the binding power of `self`.
    ///
    /// The binding power is used in the Pratt parsing algorithm to
    /// determine the precedence of an operator: the higher the binding
    /// power, the tighter the operator binds.
    fn bp(self) -> (r: u8)
        ensures
            r == self.bp_spec(),
    ;
}

impl OpKind {
    /// Get the binding power of an operator.
    ///
    /// Operators with the same level of precedence have the same binding
    /// power, since their respective operations can be done in either
    /// order. These binding powers apply to the infix and postfix senses;
    /// when `Plus` or `Minus` is parsed as a prefix operator, 15 is added
    /// to its binding power.
    pub fn bp(self) -> (r: u8)
        ensures
            r == op_bp_spec(self),
    {
        match self {
            OpKind::Plus | OpKind::Minus => 5,
            OpKind::Star | OpKind::Slash => 10,
            OpKind::Modulo => 15,
            OpKind::Caret => 25,
            OpKind::Factorial => 30,
        }
    }
}

impl FuncKind {
    /// Get the binding power of a function.
    ///
    /// All functions have the same, and the highest, binding power, so an
    /// expression like `sin(2 + 2) - 3` is parsed as `(sin(2 + 2)) - 3`
    /// rather than `sin((2 + 2) - 3)`.
    pub fn bp(self) -> (r: u8)
        ensures
            r == func_bp_spec(self),
    {
        35
    }
}

impl Bindable for OpKind {
    open spec fn bp_spec(self) -> u8 {
        op_bp_spec(self)
    }

    /// Get the binding power of an operator.
    ///
    /// Operators with the same level of precedence have the same binding
    /// power. These binding powers apply to the infix and postfix senses;
    /// when `Plus` or `Minus` is parsed as a prefix operator, 15 is added
    /// to its binding power.
    fn bp(self) -> (r: u8) {
        match self {
            OpKind::Plus | OpKind::Minus => 5,
            OpKind::Star | OpKind::Slash => 10,
            OpKind::Modulo => 15,
            OpKind::Caret => 25,
            OpKind::Factorial => 30,
        }
    }
}

impl Bindable for FuncKind {
    open spec fn bp_spec(self) -> u8 {
        func_bp_spec(self)
    }

    /// Get the binding power of a function.
    ///
    /// All functions have the same, and the highest, binding power, so an
    /// expression like `sin(2 + 2) - 3` is parsed as `(sin(2 + 2)) - 3`
    /// rather than `sin((2 + 2) - 3)`.
    fn bp(self) -> (r: u8) {
        35
    }
}

/// The binding powers are totally ordered consistently with mathematical
/// precedence: addition and subtraction bind loosest, then multiplication
/// and division, then the remainder, then exponentiation, then the
/// factorial, and every built-in function binds tighter than any operator.
pub proof fn lemma_binding_power_order()
    ensures
        op_bp_spec(OpKind::Plus) == op_bp_spec(OpKind::Minus),
        op_bp_spec(OpKind::Star) == op_bp_spec(OpKind::Slash),
        op_bp_spec(OpKind::Plus) < op_bp_spec(OpKind::Star),
        op_bp_spec(OpKind::Star) < op_bp_spec(OpKind::Modulo),
        op_bp_spec(OpKind::Modulo) < op_bp_spec(OpKind::Caret),
        op_bp_spec(OpKind::Caret) < op_bp_spec(OpKind::Factorial),
        forall|o: OpKind, f: FuncKind| op_bp_spec(o) < func_bp_spec(f),
{
}

/// Copy a vector of characters.
pub(crate) fn copy_chars(v: &Vec<char>) -> (r: Vec<char>)
    ensures
        r@ == v@,
{
    let mut r: Vec<char> = Vec::new();
    let mut i: usize = 0;
    while i < v.len()
        invariant
            i <= v@.len(),
            r@ == v@.take(i as int),
        decreases v@.len() - i,
    {
        r.push(v[i]);
        proof {
            assert(v@.take(i + 1 as int) =~= v@.take(i as int).push(v@[i as int]));
        }
        i = i + 1;
    }
    proof {
        assert(v@.take(v@.len() as int) =~= v@);
    }
    r
}

/// Collect the texts of the numerals among `ls`, in order: the texts
/// whose converted values [`with_values`] expects.
pub fn numerals(ls: &Vec<Lexeme>) -> (r: Vec<Vec<char>>)
    ensures
        r@.map_values(|t: Vec<char>| t@) == numeral_texts(views(ls@)),
{
    let mut r: Vec<Vec<char>> = Vec::new();
    let mut i: usize = 0;
    proof {
        assert(views(ls@).skip(0) =~= views(ls@));
        assert(r@.map_values(|t: Vec<char>| t@) =~= Seq::empty());
        assert(Seq::<Seq<char>>::empty() + numeral_texts(views(ls@)) =~= numeral_texts(
            views(ls@),
        ));
    }
    while i < ls.len()
        invariant
            i <= ls@.len(),
            numeral_texts(views(ls@)) == r@.map_values(|t: Vec<char>| t@) + numeral_texts(
                views(ls@).skip(i as int),
            ),
        decreases ls@.len() - i,
    {
        let ghost pre = r@.map_values(|t: Vec<char>| t@);
        let ghost tail = views(ls@).skip(i as int);
        proof {
            assert(tail.skip(1) =~= views(ls@).skip(i + 1));
            assert(tail[0] == ls@[i as int]@);
        }
        match &ls[i] {
            Lexeme::Numeral(t) => {
                let copy = copy_chars(t);
                r.push(copy);
                proof {
                    assert(r@.map_values(|t: Vec<char>| t@) =~= pre + seq![ls@[i as int]@->Numeral_0]);
                    assert(pre + (seq![ls@[i as int]@->Numeral_0] + numeral_texts(tail.skip(1)))
                        =~= (pre + seq![ls@[i as int]@->Numeral_0]) + numeral_texts(tail.skip(1)));
                }
            },
            _ => {
            },
        }
        i = i + 1;
    }
    proof {
        assert(views(ls@).skip(ls@.len() as int) =~= Seq::empty());
        assert(numeral_texts(views(ls@)) =~= r@.map_values(|t: Vec<char>| t@));
    }
    r
}

/// Assemble lexemes and the converted values of their numerals into
/// tokens. Returns `None` exactly when the number of values does not
/// match the number of numerals; otherwise the `k`-th numeral becomes a
/// number token holding `vals[k]`, and every other lexeme becomes the
/// token of the same kind.
pub fn with_values(ls: &Vec<Lexeme>, vals: &Vec<u64>) -> (r: Option<Vec<Token>>)
    ensures
        match r {
            Some(ts) => vals@.len() == numeral_texts(views(ls@)).len() && ts@ == substituted(
                views(ls@),
                vals@,
            ),
            None => vals@.len() != numeral_texts(views(ls@)).len(),
        },
{
    let mut out: Vec<Token> = Vec::new();
    let mut i: usize = 0;
    let mut k: usize = 0;
    proof {
        assert(views(ls@).skip(0) =~= views(ls@));
        assert(vals@.skip(0) =~= vals@);
        assert(Seq::<Token>::empty() + substituted(views(ls@), vals@) =~= substituted(
            views(ls@),
            vals@,
        ));
    }
    while i < ls.len()
        invariant
            i <= ls@.len(),
            k <= vals@.len(),
            numeral_texts(views(ls@)).len() == k + numeral_texts(views(ls@).skip(i as int)).len(),
            substituted(views(ls@), vals@) == out@ + substituted(
                views(ls@).skip(i as int),
                vals@.skip(k as int),
            ),
        decreases ls@.len() - i,
    {
        let ghost tail = views(ls@).skip(i as int);
        let ghost vtail = vals@.skip(k as int);
        proof {
            assert(tail.skip(1) =~= views(ls@).skip(i + 1));
            assert(tail[0] == ls@[i as int]@);
        }
        let tok: Token = match &ls[i] {
            Lexeme::Numeral(_) => {
                if k == vals.len() {
                    proof {
                        assert(numeral_texts(tail).len() >= 1);
                    }
                    return None;
                }
                proof {
                    assert(vtail.skip(1) =~= vals@.skip(k + 1));
                    assert(vtail[0] == vals@[k as int]);
                }
                let v = vals[k];
                k = k + 1;
                Token::Number(v)
            },
            Lexeme::Op(o) => Token::Op(*o),
            Lexeme::Func(f) => Token::Func(*f),
            Lexeme::Number(b) => Token::Number(*b),
            Lexeme::LParen => Token::LParen,
            Lexeme::RParen => Token::RParen,
        };
        out.push(tok);
        proof {
            assert(out@ =~= out@.take(out@.len() - 1) + seq![tok]);
            assert((out@.take(out@.len() - 1) + seq![tok]) + substituted(
                views(ls@).skip(i + 1),
                vals@.skip(k as int),
            ) =~= out@.take(out@.len() - 1) + (seq![tok] + substituted(
                views(ls@).skip(i + 1),
                vals@.skip(k as int),
            )));
        }
        i = i + 1;
    }
    if k != vals.len() {
        proof {
            assert(views(ls@).skip(ls@.len() as int) =~= Seq::empty());
        }
        return None;
    }
    proof {
        assert(views(ls@).skip(ls@.len() as int) =~= Seq::empty());
        assert(substituted(views(ls@), vals@) =~= out@);
    }
    Some(out)
}

} // verus!
