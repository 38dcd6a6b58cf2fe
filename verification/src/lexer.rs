//! Lexical analysis: turning a line of characters into lexemes.
//!
//! The lexer understands only ASCII alphanumeric and whitespace
//! characters; any other glyph, including non-ASCII digits, is
//! unrecognized. It produces lexemes strictly left to right with no
//! backtracking, and the whole input fails on the first offending
//! character.

use vstd::prelude::*;

verus! {

use crate::numeric::PI_BITS;
use crate::token::{FuncKind, Lexeme, LexemeModel, OpKind};

/// An error of lexical analysis; each carries the offending text.
#[derive(Debug, PartialEq, Eq)]
pub enum LexError {
    /// A character outside the language's alphabet.
    UnrecognizedChar(char),
    /// A run of letters that is no known function or constant name.
    UnrecognizedIdent(Vec<char>),
    /// A numeral holding more than one decimal point.
    MultipleDecimalPoints,
}

/// The mathematical model of a lexer error.
pub enum LexErrorModel {
    /// A character outside the language's alphabet.
    UnrecognizedChar(char),
    /// A run of letters that is no known function or constant name.
    UnrecognizedIdent(Seq<char>),
    /// A numeral holding more than one decimal point.
    MultipleDecimalPoints,
}

impl View for LexError {
    type V = LexErrorModel;

    open spec fn view(&self) -> LexErrorModel {
        match self {
            LexError::UnrecognizedChar(c) => LexErrorModel::UnrecognizedChar(*c),
            LexError::UnrecognizedIdent(w) => LexErrorModel::UnrecognizedIdent(w@),
            LexError::MultipleDecimalPoints => LexErrorModel::MultipleDecimalPoints,
        }
    }
}

/// Whether `c` is an ASCII whitespace character: space, tab, line feed,
/// form feed or carriage return.
pub open spec fn is_ws_char(c: char) -> bool {
    c == ' ' || c == '\t' || c == '\n' || c == '\u{c}' || c == '\r'
}

/// Whether `c` is an ASCII decimal digit.
pub open spec fn is_digit_char(c: char) -> bool {
    '0' as u32 <= c as u32 && c as u32 <= '9' as u32
}

/// Whether `c` is an ASCII letter.
pub open spec fn is_alpha_char(c: char) -> bool {
    ('a' as u32 <= c as u32 && c as u32 <= 'z' as u32) || ('A' as u32 <= c as u32 && c as u32
        <= 'Z' as u32)
}

/// The index of the first character at or after `i` that is not ASCII
/// whitespace.
pub open spec fn ws_end(s: Seq<char>, i: int) -> int
    decreases s.len() - i,
{
    if 0 <= i < s.len() && is_ws_char(s[i]) {
        ws_end(s, i + 1)
    } else {
        i
    }
}

/// The index of the first character at or after `i` that is not an
/// ASCII letter.
pub open spec fn alpha_end(s: Seq<char>, i: int) -> int
    decreases s.len() - i,
{
    if 0 <= i < s.len() && is_alpha_char(s[i]) {
        alpha_end(s, i + 1)
    } else {
        i
    }
}

/// Scan a numeral: starting at `i` with the text `acc` accumulated and
/// `dot` recording whether a decimal point was already taken, consume
/// the maximal run of digits and points. Yields the accumulated text
/// and the index after the run, or nothing if a second point appears.
pub open spec fn scan_number(s: Seq<char>, i: int, dot: bool, acc: Seq<char>) -> Option<
    (Seq<char>, int),
>
    decreases s.len() - i,
{
    if !(0 <= i < s.len()) || !(is_digit_char(s[i]) || s[i] == '.') {
        Some((acc, i))
    } else if s[i] == '.' {
        if dot {
            None
        } else {
            scan_number(s, i + 1, true, acc.push('.'))
        }
    } else {
        scan_number(s, i + 1, dot, acc.push(s[i]))
    }
}

/// The text a numeral starting at `i` begins with: a leading point is
/// read as if preceded by `0`.
pub open spec fn numeral_init(s: Seq<char>, i: int) -> Seq<char> {
    if 0 <= i < s.len() && s[i] == '.' {
        seq!['0']
    } else {
        Seq::empty()
    }
}

/// The keyword table: the fixed, case-sensitive function names, plus
/// the constant `pi`, which resolves directly to a number lexeme
/// holding the bits of pi.
pub open spec fn keyword_lexeme(w: Seq<char>) -> Option<LexemeModel> {
    if w == seq!['s', 'i', 'n'] {
        Some(LexemeModel::Func(FuncKind::Sin))
    } else if w == seq!['c', 'o', 's'] {
        Some(LexemeModel::Func(FuncKind::Cos))
    } else if w == seq!['t', 'a', 'n'] {
        Some(LexemeModel::Func(FuncKind::Tan))
    } else if w == seq!['a', 's', 'i', 'n'] {
        Some(LexemeModel::Func(FuncKind::Asin))
    } else if w == seq!['a', 'c', 'o', 's'] {
        Some(LexemeModel::Func(FuncKind::Acos))
    } else if w == seq!['a', 't', 'a', 'n'] {
        Some(LexemeModel::Func(FuncKind::Atan))
    } else if w == seq!['d', 'e', 'g'] {
        Some(LexemeModel::Func(FuncKind::Deg))
    } else if w == seq!['r', 'a', 'd'] {
        Some(LexemeModel::Func(FuncKind::Rad))
    } else if w == seq!['e', 'x', 'p'] {
        Some(LexemeModel::Func(FuncKind::Exp))
    } else if w == seq!['l', 'n'] {
        Some(LexemeModel::Func(FuncKind::Ln))
    } else if w == seq!['l', 'o', 'g'] {
        Some(LexemeModel::Func(FuncKind::Log))
    } else if w == seq!['s', 'q', 'r', 't'] {
        Some(LexemeModel::Func(FuncKind::Sqrt))
    } else if w == seq!['p', 'i'] {
        Some(LexemeModel::Number(PI_BITS))
    } else {
        None
    }
}

/// The single-character operator and parenthesis table.
pub open spec fn op_lexeme(c: char) -> Option<LexemeModel> {
    if c == '+' {
        Some(LexemeModel::Op(OpKind::Plus))
    } else if c == '-' {
        Some(LexemeModel::Op(OpKind::Minus))
    } else if c == '*' {
        Some(LexemeModel::Op(OpKind::Star))
    } else if c == '/' {
        Some(LexemeModel::Op(OpKind::Slash))
    } else if c == '^' {
        Some(LexemeModel::Op(OpKind::Caret))
    } else if c == '%' {
        Some(LexemeModel::Op(OpKind::Modulo))
    } else if c == '!' {
        Some(LexemeModel::Op(OpKind::Factorial))
    } else if c == '(' {
        Some(LexemeModel::LParen)
    } else if c == ')' {
        Some(LexemeModel::RParen)
    } else {
        None
    }
}

/// The lexemes of the input from index `i` on: whitespace is skipped, a
/// digit or point starts a numeral, a letter starts an identifier
/// resolved against the keyword table, and any other character must be
/// in the operator table. The first offence fails the whole input.
pub open spec fn lex_spec(s: Seq<char>, i: int) -> Result<Seq<LexemeModel>, LexErrorModel>
    decreases s.len() - i,
{
    if !(0 <= i < s.len()) {
        Ok(Seq::empty())
    } else if is_ws_char(s[i]) {
        lex_spec(s, i + 1)
    } else if is_digit_char(s[i]) || s[i] == '.' {
        match scan_number(s, i, false, numeral_init(s, i)) {
            None => Err(LexErrorModel::MultipleDecimalPoints),
            Some((text, j)) => {
                let j2: int = if i < j <= s.len() {
                    j
                } else {
                    i + 1
                };
                match lex_spec(s, j2) {
                    Ok(rest) => Ok(seq![LexemeModel::Numeral(text)] + rest),
                    Err(e) => Err(e),
                }
            },
        }
    } else if is_alpha_char(s[i]) {
        let j: int = alpha_end(s, i);
        let j2: int = if i < j <= s.len() {
            j
        } else {
            i + 1
        };
        match keyword_lexeme(s.subrange(i, j2)) {
            Some(l) => match lex_spec(s, j2) {
                Ok(rest) => Ok(seq![l] + rest),
                Err(e) => Err(e),
            },
            None => Err(LexErrorModel::UnrecognizedIdent(s.subrange(i, j2))),
        }
    } else {
        match op_lexeme(s[i]) {
            Some(l) => match lex_spec(s, i + 1) {
                Ok(rest) => Ok(seq![l] + rest),
                Err(e) => Err(e),
            },
            None => Err(LexErrorModel::UnrecognizedChar(s[i])),
        }
    }
}

/// Skipping whitespace leaves the lexemes unchanged.
proof fn lemma_lex_spec_ws(s: Seq<char>, i: int)
    requires
        0 <= i <= s.len(),
    ensures
        lex_spec(s, i) == lex_spec(s, ws_end(s, i)),
    decreases s.len() - i,
{
    if i < s.len() && is_ws_char(s[i]) {
        lemma_lex_spec_ws(s, i + 1);
    }
}

/// The first non-whitespace index lies between `i` and the end.
proof fn lemma_ws_end_bounds(s: Seq<char>, i: int)
    requires
        0 <= i <= s.len(),
    ensures
        i <= ws_end(s, i) <= s.len(),
        ws_end(s, i) < s.len() ==> !is_ws_char(s[ws_end(s, i)]),
    decreases s.len() - i,
{
    if i < s.len() && is_ws_char(s[i]) {
        lemma_ws_end_bounds(s, i + 1);
    }
}

/// Whether `c` is an ASCII whitespace character.
pub fn is_ws(c: char) -> (r: bool)
    ensures
        r == is_ws_char(c),
{
    c == ' ' || c == '\t' || c == '\n' || c == '\u{c}' || c == '\r'
}

/// Whether `c` is an ASCII decimal digit.
pub fn is_digit(c: char) -> (r: bool)
    ensures
        r == is_digit_char(c),
{
    c as u32 >= '0' as u32 && c as u32 <= '9' as u32
}

/// Whether `c` is an ASCII letter.
pub fn is_alpha(c: char) -> (r: bool)
    ensures
        r == is_alpha_char(c),
{
    (c as u32 >= 'a' as u32 && c as u32 <= 'z' as u32) || (c as u32 >= 'A' as u32 && c as u32
        <= 'Z' as u32)
}

/// Advance `i` past any run of ASCII whitespace.
pub fn eat_whitespace(input: &Vec<char>, i: &mut usize)
    requires
        *old(i) <= input@.len(),
    ensures
        *final(i) == ws_end(input@, *old(i) as int),
        *old(i) <= *final(i) <= input@.len(),
{
    proof {
        lemma_ws_end_bounds(input@, *i as int);
    }
    let mut j: usize = *i;
    while j < input.len() && is_ws(input[j])
        invariant
            *old(i) <= j <= input@.len(),
            ws_end(input@, *old(i) as int) == ws_end(input@, j as int),
        decreases input@.len() - j,
    {
        j = j + 1;
    }
    *i = j;
}

/// Lex one numeral starting at `i`: consume the maximal run of digits
/// and decimal points, reading a leading point as if preceded by `0`;
/// a second point is an error.
pub fn lex_number(input: &Vec<char>, i: &mut usize) -> (r: Result<Lexeme, LexError>)
    requires
        *old(i) < input@.len(),
        is_digit_char(input@[*old(i) as int]) || input@[*old(i) as int] == '.',
    ensures
        *old(i) < *final(i) <= input@.len(),
        match r {
            Ok(l) => scan_number(
                input@,
                *old(i) as int,
                false,
                numeral_init(input@, *old(i) as int),
            ) matches Some((text, j)) && l@ == LexemeModel::Numeral(text) && *final(i) == j,
            Err(e) => scan_number(
                input@,
                *old(i) as int,
                false,
                numeral_init(input@, *old(i) as int),
            ) is None && e@ == LexErrorModel::MultipleDecimalPoints,
        },
{
    let ghost i0 = *old(i) as int;
    let ghost s = input@;
    let n = input.len();
    let mut j: usize = *i;
    let mut dot = false;
    let mut buf: Vec<char> = Vec::new();
    if input[j] == '.' {
        buf.push('0');
    }
    proof {
        assert(buf@ =~= numeral_init(s, i0));
    }
    while j < n && (is_digit(input[j]) || input[j] == '.')
        invariant
            i0 == *old(i) as int,
            0 <= i0 <= j <= n == s.len(),
            s == input@,
            scan_number(s, i0, false, numeral_init(s, i0)) == scan_number(s, j as int, dot, buf@),
            is_digit_char(s[i0]) || s[i0] == '.',
            j == i0 ==> !dot && buf@ == numeral_init(s, i0),
        decreases s.len() - j,
    {
        let c = input[j];
        if c == '.' {
            if dot {
                *i = j + 1;
                return Err(LexError::MultipleDecimalPoints);
            }
            dot = true;
            buf.push('.');
        } else {
            buf.push(c);
        }
        j = j + 1;
    }
    proof {
        if j == i0 {
            assert(false);
        }
    }
    *i = j;
    Ok(Lexeme::Numeral(buf))
}

/// Whether `buf` is the two-character word `c0 c1`.
fn word2(buf: &Vec<char>, c0: char, c1: char) -> (r: bool)
    ensures
        r == (buf@ == seq![c0, c1]),
{
    let r = buf.len() == 2 && buf[0] == c0 && buf[1] == c1;
    proof {
        if r {
            assert(buf@ =~= seq![c0, c1]);
        } else {
            if buf@ == seq![c0, c1] {
                assert(buf@.len() == 2 && buf@[0] == c0 && buf@[1] == c1);
            }
        }
    }
    r
}

/// Whether `buf` is the three-character word `c0 c1 c2`.
fn word3(buf: &Vec<char>, c0: char, c1: char, c2: char) -> (r: bool)
    ensures
        r == (buf@ == seq![c0, c1, c2]),
{
    let r = buf.len() == 3 && buf[0] == c0 && buf[1] == c1 && buf[2] == c2;
    proof {
        if r {
            assert(buf@ =~= seq![c0, c1, c2]);
        } else {
            if buf@ == seq![c0, c1, c2] {
                assert(buf@.len() == 3 && buf@[0] == c0 && buf@[1] == c1 && buf@[2] == c2);
            }
        }
    }
    r
}

/// Whether `buf` is the four-character word `c0 c1 c2 c3`.
fn word4(buf: &Vec<char>, c0: char, c1: char, c2: char, c3: char) -> (r: bool)
    ensures
        r == (buf@ == seq![c0, c1, c2, c3]),
{
    let r = buf.len() == 4 && buf[0] == c0 && buf[1] == c1 && buf[2] == c2 && buf[3] == c3;
    proof {
        if r {
            assert(buf@ =~= seq![c0, c1, c2, c3]);
        } else {
            if buf@ == seq![c0, c1, c2, c3] {
                assert(buf@.len() == 4 && buf@[0] == c0 && buf@[1] == c1 && buf@[2] == c2 && buf@[3]
                    == c3);
            }
        }
    }
    r
}

/// Resolve an identifier against the keyword table, or report it as
/// unrecognized, carrying its text.
fn resolve_ident(buf: Vec<char>) -> (r: Result<Lexeme, LexError>)
    ensures
        match r {
            Ok(l) => keyword_lexeme(buf@) == Some(l@),
            Err(e) => keyword_lexeme(buf@) is None && e@ == LexErrorModel::UnrecognizedIdent(buf@),
        },
{
    if word3(&buf, 's', 'i', 'n') {
        Ok(Lexeme::Func(FuncKind::Sin))
    } else if word3(&buf, 'c', 'o', 's') {
        Ok(Lexeme::Func(FuncKind::Cos))
    } else if word3(&buf, 't', 'a', 'n') {
        Ok(Lexeme::Func(FuncKind::Tan))
    } else if word4(&buf, 'a', 's', 'i', 'n') {
        Ok(Lexeme::Func(FuncKind::Asin))
    } else if word4(&buf, 'a', 'c', 'o', 's') {
        Ok(Lexeme::Func(FuncKind::Acos))
    } else if word4(&buf, 'a', 't', 'a', 'n') {
        Ok(Lexeme::Func(FuncKind::Atan))
    } else if word3(&buf, 'd', 'e', 'g') {
        Ok(Lexeme::Func(FuncKind::Deg))
    } else if word3(&buf, 'r', 'a', 'd') {
        Ok(Lexeme::Func(FuncKind::Rad))
    } else if word3(&buf, 'e', 'x', 'p') {
        Ok(Lexeme::Func(FuncKind::Exp))
    } else if word2(&buf, 'l', 'n') {
        Ok(Lexeme::Func(FuncKind::Ln))
    } else if word3(&buf, 'l', 'o', 'g') {
        Ok(Lexeme::Func(FuncKind::Log))
    } else if word4(&buf, 's', 'q', 'r', 't') {
        Ok(Lexeme::Func(FuncKind::Sqrt))
    } else if word2(&buf, 'p', 'i') {
        Ok(Lexeme::Number(PI_BITS))
    } else {
        Err(LexError::UnrecognizedIdent(buf))
    }
}

/// Lex one identifier starting at `i`: consume the maximal run of ASCII
/// letters and resolve it against the keyword table.
pub fn lex_ident(input: &Vec<char>, i: &mut usize) -> (r: Result<Lexeme, LexError>)
    requires
        *old(i) < input@.len(),
        is_alpha_char(input@[*old(i) as int]),
    ensures
        *old(i) < *final(i) <= input@.len(),
        *final(i) == alpha_end(input@, *old(i) as int),
        match r {
            Ok(l) => keyword_lexeme(input@.subrange(*old(i) as int, *final(i) as int)) == Some(l@),
            Err(e) => keyword_lexeme(input@.subrange(*old(i) as int, *final(i) as int)) is None
                && e@ == LexErrorModel::UnrecognizedIdent(
                input@.subrange(*old(i) as int, *final(i) as int),
            ),
        },
{
    let ghost i0 = *old(i) as int;
    let ghost s = input@;
    let n = input.len();
    let mut j: usize = *i;
    let mut buf: Vec<char> = Vec::new();
    proof {
        assert(buf@ =~= s.subrange(i0, i0));
    }
    while j < n && is_alpha(input[j])
        invariant
            i0 == *old(i) as int,
            0 <= i0 <= j <= n == s.len(),
            s == input@,
            buf@ == s.subrange(i0, j as int),
            alpha_end(s, i0) == alpha_end(s, j as int),
            is_alpha_char(s[i0]),
        decreases s.len() - j,
    {
        buf.push(input[j]);
        proof {
            assert(s.subrange(i0, j + 1) =~= s.subrange(i0, j as int).push(s[j as int]));
        }
        j = j + 1;
    }
    proof {
        if j == i0 {
            assert(false);
        }
    }
    *i = j;
    resolve_ident(buf)
}

/// Match a single character against the operator and parenthesis table.
pub fn lex_op(c: char) -> (r: Result<Lexeme, LexError>)
    ensures
        match r {
            Ok(l) => op_lexeme(c) == Some(l@),
            Err(e) => op_lexeme(c) is None && e@ == LexErrorModel::UnrecognizedChar(c),
        },
{
    if c == '+' {
        Ok(Lexeme::Op(OpKind::Plus))
    } else if c == '-' {
        Ok(Lexeme::Op(OpKind::Minus))
    } else if c == '*' {
        Ok(Lexeme::Op(OpKind::Star))
    } else if c == '/' {
        Ok(Lexeme::Op(OpKind::Slash))
    } else if c == '^' {
        Ok(Lexeme::Op(OpKind::Caret))
    } else if c == '%' {
        Ok(Lexeme::Op(OpKind::Modulo))
    } else if c == '!' {
        Ok(Lexeme::Op(OpKind::Factorial))
    } else if c == '(' {
        Ok(Lexeme::LParen)
    } else if c == ')' {
        Ok(Lexeme::RParen)
    } else {
        Err(LexError::UnrecognizedChar(c))
    }
}

/// Whether a lexeme can start a factor that a numeral could silently
/// multiply with: an opening parenthesis, a function name, or a
/// constant already resolved to a number.
pub open spec fn starts_factor(l: LexemeModel) -> bool {
    l is LParen || l is Func || l is Number
}

/// The lexemes with a multiplication sign inserted after every numeral
/// that a parenthesis or a known identifier follows directly.
pub open spec fn with_implicit_mul(ls: Seq<LexemeModel>) -> Seq<LexemeModel>
    decreases ls.len(),
{
    if ls.len() == 0 {
        Seq::empty()
    } else {
        let rest = with_implicit_mul(ls.skip(1));
        if ls[0] is Numeral && ls.len() > 1 && starts_factor(ls[1]) {
            seq![ls[0], LexemeModel::Op(OpKind::Star)] + rest
        } else {
            seq![ls[0]] + rest
        }
    }
}

/// Copy one lexeme.
fn copy_lexeme(l: &Lexeme) -> (r: Lexeme)
    ensures
        r@ == l@,
{
    match l {
        Lexeme::Op(o) => Lexeme::Op(*o),
        Lexeme::Func(f) => Lexeme::Func(*f),
        Lexeme::Number(b) => Lexeme::Number(*b),
        Lexeme::Numeral(t) => Lexeme::Numeral(crate::token::copy_chars(t)),
        Lexeme::LParen => Lexeme::LParen,
        Lexeme::RParen => Lexeme::RParen,
    }
}

/// The optional implicit-multiplication variant of the lexer: insert a
/// multiplication sign after each numeral that an opening parenthesis
/// or a known identifier follows directly, so that `2(3)` reads as
/// `2*(3)` and `2pi` as `2*pi`.
///
/// This changes the language's grammar, not merely its tokenization,
/// and interacts oddly with division — `2pi/2pi` becomes `2*pi/2*pi`,
/// which is `pi^2`, not `1` — so it is not part of [`lex`]; a caller
/// that wants it applies it to the lexemes.
pub fn insert_implicit_mul(ls: &Vec<Lexeme>) -> (r: Vec<Lexeme>)
    ensures
        crate::token::views(r@) == with_implicit_mul(crate::token::views(ls@)),
{
    let mut out: Vec<Lexeme> = Vec::new();
    let mut i: usize = 0;
    proof {
        assert(crate::token::views(ls@).skip(0) =~= crate::token::views(ls@));
        assert(Seq::<LexemeModel>::empty() + with_implicit_mul(crate::token::views(ls@))
            =~= with_implicit_mul(crate::token::views(ls@)));
    }
    while i < ls.len()
        invariant
            i <= ls@.len(),
            with_implicit_mul(crate::token::views(ls@)) == crate::token::views(out@)
                + with_implicit_mul(crate::token::views(ls@).skip(i as int)),
        decreases ls@.len() - i,
    {
        let ghost pre = crate::token::views(out@);
        let ghost tail = crate::token::views(ls@).skip(i as int);
        proof {
            assert(tail[0] == ls@[i as int]@);
            if i + 1 < ls@.len() {
                assert(tail[1] == ls@[i + 1]@);
            }
            assert(tail.skip(1) =~= crate::token::views(ls@).skip(i + 1));
        }
        out.push(copy_lexeme(&ls[i]));
        let insert = match &ls[i] {
            Lexeme::Numeral(_) => {
                if i + 1 < ls.len() {
                    match &ls[i + 1] {
                        Lexeme::LParen | Lexeme::Func(_) | Lexeme::Number(_) => true,
                        _ => false,
                    }
                } else {
                    false
                }
            },
            _ => false,
        };
        if insert {
            out.push(Lexeme::Op(OpKind::Star));
            proof {
                assert(crate::token::views(out@) =~= pre + seq![
                    ls@[i as int]@,
                    LexemeModel::Op(OpKind::Star),
                ]);
                assert(pre + (seq![ls@[i as int]@, LexemeModel::Op(OpKind::Star)]
                    + with_implicit_mul(tail.skip(1))) =~= (pre + seq![
                    ls@[i as int]@,
                    LexemeModel::Op(OpKind::Star),
                ]) + with_implicit_mul(tail.skip(1)));
            }
        } else {
            proof {
                assert(crate::token::views(out@) =~= pre + seq![ls@[i as int]@]);
                assert(pre + (seq![ls@[i as int]@] + with_implicit_mul(tail.skip(1))) =~= (pre
                    + seq![ls@[i as int]@]) + with_implicit_mul(tail.skip(1)));
            }
        }
        i = i + 1;
    }
    proof {
        assert(crate::token::views(ls@).skip(ls@.len() as int) =~= Seq::empty());
        assert(crate::token::views(out@) + Seq::<LexemeModel>::empty() =~= crate::token::views(
            out@,
        ));
    }
    out
}

/// Turn a line of characters into lexemes.
///
/// The lexer only handles ASCII alphanumeric and whitespace characters;
/// any other glyph, including non-ASCII numbers, is an unrecognized
/// character. The whole input must lex or the call fails: no partial
/// result is returned.
pub fn lex(input: &Vec<char>) -> (r: Result<Vec<Lexeme>, LexError>)
    ensures
        match r {
            Ok(ls) => lex_spec(input@, 0) matches Ok(m) && m == crate::token::views(ls@),
            Err(e) => lex_spec(input@, 0) matches Err(m) && m == e@,
        },
{
    let ghost s = input@;
    let n = input.len();
    let mut i: usize = 0;
    let mut out: Vec<Lexeme> = Vec::new();
    proof {
        assert(crate::token::views(out@) =~= Seq::empty());
        if lex_spec(s, 0) is Ok {
            assert(Seq::<LexemeModel>::empty() + lex_spec(s, 0)->Ok_0 =~= lex_spec(s, 0)->Ok_0);
        }
    }
    while i < n
        invariant
            i <= n == s.len(),
            s == input@,
            (match lex_spec(s, i as int) {
                Ok(rest) => lex_spec(s, 0) matches Ok(all) && all == crate::token::views(out@)
                    + rest,
                Err(e) => lex_spec(s, 0) matches Err(e2) && e2 == e,
            }),
        decreases n - i,
    {
        let ghost out0 = crate::token::views(out@);
        let c = input[i];
        if is_ws(c) {
            let mut pos = i;
            eat_whitespace(input, &mut pos);
            proof {
                lemma_lex_spec_ws(s, i as int);
                lemma_ws_end_bounds(s, i + 1);
                assert(ws_end(s, i as int) == ws_end(s, i + 1));
            }
            i = pos;
        } else if is_digit(c) || c == '.' {
            let mut pos = i;
            let res = lex_number(input, &mut pos);
            match res {
                Ok(l) => {
                    out.push(l);
                    proof {
                        assert(crate::token::views(out@) =~= out0 + seq![l@]);
                        let rest2 = lex_spec(s, pos as int);
                        if rest2 is Ok {
                            assert(out0 + (seq![l@] + rest2->Ok_0) =~= (out0 + seq![l@])
                                + rest2->Ok_0);
                        }
                    }
                    i = pos;
                },
                Err(e) => {
                    return Err(e);
                },
            }
        } else if is_alpha(c) {
            let mut pos = i;
            let res = lex_ident(input, &mut pos);
            match res {
                Ok(l) => {
                    out.push(l);
                    proof {
                        assert(crate::token::views(out@) =~= out0 + seq![l@]);
                        let rest2 = lex_spec(s, pos as int);
                        if rest2 is Ok {
                            assert(out0 + (seq![l@] + rest2->Ok_0) =~= (out0 + seq![l@])
                                + rest2->Ok_0);
                        }
                    }
                    i = pos;
                },
                Err(e) => {
                    return Err(e);
                },
            }
        } else {
            let res = lex_op(c);
            match res {
                Ok(l) => {
                    out.push(l);
                    proof {
                        assert(crate::token::views(out@) =~= out0 + seq![l@]);
                        let rest2 = lex_spec(s, i + 1);
                        if rest2 is Ok {
                            assert(out0 + (seq![l@] + rest2->Ok_0) =~= (out0 + seq![l@])
                                + rest2->Ok_0);
                        }
                    }
                    i = i + 1;
                },
                Err(e) => {
                    return Err(e);
                },
            }
        }
    }
    proof {
        assert(crate::token::views(out@) + Seq::<LexemeModel>::empty() =~= crate::token::views(
            out@,
        ));
    }
    Ok(out)
}

} // verus!
