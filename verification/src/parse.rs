//! The concrete syntax of expressions and types.
//!
//! ```text
//! expr  ::= "λ" name ":" type "." expr | atom { atom }
//! atom  ::= number | name | "(" expr ")"
//! type  ::= tatom [ "->" type ]
//! tatom ::= "int" | "(" type ")"
//! ```
//!
//! A name is a letter or `_` followed by letters, digits and `_`, or one of
//! the operators `+`, `-`, `*`, `/`. A number is a run of digits. Spaces,
//! tabs and line ends may stand between any two tokens.
//!
//! The grammar is written down as functions from a text and a position to
//! what stands there and the position behind it. Where these functions
//! compare a position that they got with the position that they were asked
//! for, the comparison makes the recursion well-founded; at a position
//! within the text it never fails, as the lemmas on bounds show.

use std::sync::Arc;
use vstd::prelude::*;
use vstd::std_specs::iter::IteratorSpec;
use vstd::string::{axiom_spec_iter, next_postcondition};

use crate::ast::{Expr, SpecExpr, Type};
use crate::text::{decimal, decimal_string};

verus! {

/// Whether `c` separates tokens.
pub open spec fn is_space(c: char) -> bool {
    c == ' ' || c == '\t' || c == '\n' || c == '\r'
}

/// Whether `c` is a decimal digit.
pub open spec fn is_digit(c: char) -> bool {
    '0' <= c && c <= '9'
}

/// Whether `c` may begin a name that is a word.
pub open spec fn is_letter(c: char) -> bool {
    ('a' <= c && c <= 'z') || ('A' <= c && c <= 'Z') || c == '_'
}

/// Whether `c` is a name by itself.
pub open spec fn is_operator(c: char) -> bool {
    c == '+' || c == '-' || c == '*' || c == '/'
}

/// Whether the character at `pos` is `c`.
pub open spec fn at(text: Seq<char>, pos: int, c: char) -> bool {
    0 <= pos < text.len() && text[pos] == c
}

/// The first position from `pos` on that holds no space.
pub open spec fn skip_spaces(text: Seq<char>, pos: int) -> int
    decreases text.len() - pos,
{
    if 0 <= pos < text.len() && is_space(text[pos]) {
        skip_spaces(text, pos + 1)
    } else {
        pos
    }
}

/// The end of the run of letters and digits that begins at `pos`.
pub open spec fn word_end(text: Seq<char>, pos: int) -> int
    decreases text.len() - pos,
{
    if 0 <= pos < text.len() && (is_letter(text[pos]) || is_digit(text[pos])) {
        word_end(text, pos + 1)
    } else {
        pos
    }
}

/// The end of the run of digits that begins at `pos`.
pub open spec fn digits_end(text: Seq<char>, pos: int) -> int
    decreases text.len() - pos,
{
    if 0 <= pos < text.len() && is_digit(text[pos]) {
        digits_end(text, pos + 1)
    } else {
        pos
    }
}

/// The end of the name that begins at `pos`, if one does.
pub open spec fn name_end(text: Seq<char>, pos: int) -> Option<int> {
    if 0 <= pos < text.len() && is_letter(text[pos]) {
        Some(word_end(text, pos + 1))
    } else if 0 <= pos < text.len() && is_operator(text[pos]) {
        Some(pos + 1)
    } else {
        None
    }
}

/// The number that a digit stands for.
pub open spec fn digit_value(c: char) -> nat {
    if is_digit(c) {
        (c as int - '0' as int) as nat
    } else {
        0
    }
}

/// The number that a run of digits writes.
pub open spec fn number_value(digits: Seq<char>) -> nat
    decreases digits.len(),
{
    if digits.len() == 0 {
        0
    } else {
        number_value(digits.drop_last()) * 10 + digit_value(digits.last())
    }
}

/// Whether the word `int` stands at `pos`.
pub open spec fn int_at(text: Seq<char>, pos: int) -> bool {
    at(text, pos, 'i') && at(text, pos + 1, 'n') && at(text, pos + 2, 't') && word_end(
        text,
        pos,
    ) == pos + 3
}

/// Whether an atom may begin with `c`.
pub open spec fn begins_atom(c: char) -> bool {
    c == '(' || is_digit(c) || is_letter(c) || is_operator(c)
}

/// The type that stands at `pos` and the position behind it, or the
/// position at which the text is no type.
pub open spec fn type_at(text: Seq<char>, pos: int) -> Result<(Type, int), int>
    decreases text.len() - pos, 1nat,
{
    match type_atom_at(text, pos) {
        Err(e) => Err(e),
        Ok((domain, end)) => {
            let arrow = skip_spaces(text, end);
            if at(text, arrow, '-') && at(text, arrow + 1, '>') {
                if arrow + 2 <= pos {
                    Err(pos)
                } else {
                    match type_at(text, arrow + 2) {
                        Err(e) => Err(e),
                        Ok((codomain, last)) => Ok(
                            (Type::Arr(Arc::new(domain), Arc::new(codomain)), last),
                        ),
                    }
                }
            } else {
                Ok((domain, end))
            }
        },
    }
}

/// The type without arrow at its top that stands at `pos`.
pub open spec fn type_atom_at(text: Seq<char>, pos: int) -> Result<(Type, int), int>
    decreases text.len() - pos, 0nat,
{
    let start = skip_spaces(text, pos);
    if at(text, start, '(') {
        if start < pos {
            Err(pos)
        } else {
            match type_at(text, start + 1) {
                Err(e) => Err(e),
                Ok((inner, end)) => {
                    let close = skip_spaces(text, end);
                    if at(text, close, ')') {
                        Ok((inner, close + 1))
                    } else {
                        Err(close)
                    }
                },
            }
        }
    } else if int_at(text, start) {
        Ok((Type::Int, start + 3))
    } else {
        Err(start)
    }
}

/// The expression that stands at `pos` and the position behind it, or the
/// position at which the text is no expression.
pub open spec fn expr_at(text: Seq<char>, pos: int) -> Result<(SpecExpr, int), int>
    decreases text.len() - pos, 2nat,
{
    let start = skip_spaces(text, pos);
    if at(text, start, 'λ') {
        let name = skip_spaces(text, start + 1);
        match name_end(text, name) {
            None => Err(name),
            Some(end) => {
                let colon = skip_spaces(text, end);
                if !at(text, colon, ':') {
                    Err(colon)
                } else {
                    match type_at(text, colon + 1) {
                        Err(e) => Err(e),
                        Ok((ty, behind)) => {
                            let dot = skip_spaces(text, behind);
                            if !at(text, dot, '.') {
                                Err(dot)
                            } else if dot < pos {
                                Err(pos)
                            } else {
                                match expr_at(text, dot + 1) {
                                    Err(e) => Err(e),
                                    Ok((body, last)) => Ok(
                                        (
                                            SpecExpr::Lam(
                                                text.subrange(name, end),
                                                ty,
                                                Box::new(body),
                                            ),
                                            last,
                                        ),
                                    ),
                                }
                            }
                        },
                    }
                }
            },
        }
    } else if start < pos || start > text.len() {
        Err(pos)
    } else {
        match atom_at(text, start) {
            Err(e) => Err(e),
            Ok((operator, end)) => if end < pos || end > text.len() {
                Err(pos)
            } else {
                operands_at(text, end, operator)
            },
        }
    }
}

/// The application of `operator` to the atoms that stand at `pos`, one
/// after the other, and the position behind the last of them.
pub open spec fn operands_at(text: Seq<char>, pos: int, operator: SpecExpr) -> Result<
    (SpecExpr, int),
    int,
>
    decreases text.len() - pos, 1nat,
{
    let start = skip_spaces(text, pos);
    if 0 <= start < text.len() && begins_atom(text[start]) {
        if start < pos {
            Err(pos)
        } else {
            match atom_at(text, start) {
                Err(e) => Err(e),
                Ok((operand, end)) => if end <= pos || end > text.len() {
                    Err(pos)
                } else {
                    operands_at(
                        text,
                        end,
                        SpecExpr::App(Box::new(operator), Box::new(operand)),
                    )
                },
            }
        }
    } else {
        Ok((operator, pos))
    }
}

/// The atom that begins at `pos`: a number, a name, or an expression in
/// brackets.
pub open spec fn atom_at(text: Seq<char>, pos: int) -> Result<(SpecExpr, int), int>
    decreases text.len() - pos, 0nat,
{
    if at(text, pos, '(') {
        match expr_at(text, pos + 1) {
            Err(e) => Err(e),
            Ok((inner, end)) => {
                let close = skip_spaces(text, end);
                if at(text, close, ')') {
                    Ok((inner, close + 1))
                } else {
                    Err(close)
                }
            },
        }
    } else if 0 <= pos < text.len() && is_digit(text[pos]) {
        let end = digits_end(text, pos);
        let value = number_value(text.subrange(pos, end));
        if value <= u32::MAX {
            Ok((SpecExpr::Lit(value as u32), end))
        } else {
            Err(pos)
        }
    } else {
        match name_end(text, pos) {
            Some(end) => Ok((SpecExpr::Var(text.subrange(pos, end)), end)),
            None => Err(pos),
        }
    }
}

/// The expression that a text writes, or the position at which the text
/// is none: an expression and nothing but spaces behind it.
pub open spec fn expr_of(text: Seq<char>) -> Result<SpecExpr, int> {
    match expr_at(text, 0) {
        Err(e) => Err(e),
        Ok((e, end)) => {
            let rest = skip_spaces(text, end);
            if rest == text.len() {
                Ok(e)
            } else {
                Err(rest)
            }
        },
    }
}

/// The type that a text writes, or the position at which the text is
/// none.
pub open spec fn type_of_text(text: Seq<char>) -> Result<Type, int> {
    match type_at(text, 0) {
        Err(e) => Err(e),
        Ok((t, end)) => {
            let rest = skip_spaces(text, end);
            if rest == text.len() {
                Ok(t)
            } else {
                Err(rest)
            }
        },
    }
}

/// Spaces are skipped forwards, and not past the end.
pub proof fn lemma_skip_spaces_bounds(text: Seq<char>, pos: int)
    requires
        0 <= pos <= text.len(),
    ensures
        pos <= skip_spaces(text, pos) <= text.len(),
    decreases text.len() - pos,
{
    if pos < text.len() && is_space(text[pos]) {
        lemma_skip_spaces_bounds(text, pos + 1);
    }
}

/// A word ends behind its beginning, and not past the end.
pub proof fn lemma_word_end_bounds(text: Seq<char>, pos: int)
    requires
        0 <= pos <= text.len(),
    ensures
        pos <= word_end(text, pos) <= text.len(),
    decreases text.len() - pos,
{
    if pos < text.len() && (is_letter(text[pos]) || is_digit(text[pos])) {
        lemma_word_end_bounds(text, pos + 1);
    }
}

/// A run of digits ends behind its beginning, and not past the end.
pub proof fn lemma_digits_end_bounds(text: Seq<char>, pos: int)
    requires
        0 <= pos <= text.len(),
    ensures
        pos <= digits_end(text, pos) <= text.len(),
    decreases text.len() - pos,
{
    if pos < text.len() && is_digit(text[pos]) {
        lemma_digits_end_bounds(text, pos + 1);
    }
}

/// A name is not empty and ends within the text.
pub proof fn lemma_name_end_bounds(text: Seq<char>, pos: int)
    requires
        0 <= pos <= text.len(),
    ensures
        name_end(text, pos) matches Some(end) ==> pos < end <= text.len(),
{
    if pos < text.len() && is_letter(text[pos]) {
        lemma_word_end_bounds(text, pos + 1);
    }
}

/// A type takes up a part of the text that is not empty; where there is
/// none, the fault lies at or behind the position asked for.
pub proof fn lemma_type_at_bounds(text: Seq<char>, pos: int)
    requires
        0 <= pos <= text.len(),
    ensures
        match type_at(text, pos) {
            Ok((_, end)) => pos < end <= text.len(),
            Err(e) => pos <= e <= text.len(),
        },
    decreases text.len() - pos, 1nat,
{
    lemma_type_atom_at_bounds(text, pos);
    match type_atom_at(text, pos) {
        Err(_) => {},
        Ok((_, end)) => {
            lemma_skip_spaces_bounds(text, end);
            let arrow = skip_spaces(text, end);
            if at(text, arrow, '-') && at(text, arrow + 1, '>') {
                lemma_type_at_bounds(text, arrow + 2);
            }
        },
    }
}

/// A type without arrow at its top takes up a part of the text that is not
/// empty.
pub proof fn lemma_type_atom_at_bounds(text: Seq<char>, pos: int)
    requires
        0 <= pos <= text.len(),
    ensures
        match type_atom_at(text, pos) {
            Ok((_, end)) => pos < end <= text.len(),
            Err(e) => pos <= e <= text.len(),
        },
    decreases text.len() - pos, 0nat,
{
    lemma_skip_spaces_bounds(text, pos);
    let start = skip_spaces(text, pos);
    if at(text, start, '(') {
        lemma_type_at_bounds(text, start + 1);
        match type_at(text, start + 1) {
            Err(_) => {},
            Ok((_, end)) => {
                lemma_skip_spaces_bounds(text, end);
            },
        }
    }
}

/// An expression takes up a part of the text that is not empty.
pub proof fn lemma_expr_at_bounds(text: Seq<char>, pos: int)
    requires
        0 <= pos <= text.len(),
    ensures
        match expr_at(text, pos) {
            Ok((_, end)) => pos < end <= text.len(),
            Err(e) => pos <= e <= text.len(),
        },
    decreases text.len() - pos, 2nat,
{
    lemma_skip_spaces_bounds(text, pos);
    let start = skip_spaces(text, pos);
    if at(text, start, 'λ') {
        lemma_skip_spaces_bounds(text, start + 1);
        let name = skip_spaces(text, start + 1);
        lemma_name_end_bounds(text, name);
        match name_end(text, name) {
            None => {},
            Some(end) => {
                lemma_skip_spaces_bounds(text, end);
                let colon = skip_spaces(text, end);
                if at(text, colon, ':') {
                    lemma_type_at_bounds(text, colon + 1);
                    match type_at(text, colon + 1) {
                        Err(_) => {},
                        Ok((_, behind)) => {
                            lemma_skip_spaces_bounds(text, behind);
                            let dot = skip_spaces(text, behind);
                            if at(text, dot, '.') {
                                lemma_expr_at_bounds(text, dot + 1);
                            }
                        },
                    }
                }
            },
        }
    } else {
        lemma_atom_at_bounds(text, start);
        match atom_at(text, start) {
            Err(_) => {},
            Ok((operator, end)) => {
                lemma_operands_at_bounds(text, end, operator);
            },
        }
    }
}

/// The operands end at or behind the position asked for.
pub proof fn lemma_operands_at_bounds(text: Seq<char>, pos: int, operator: SpecExpr)
    requires
        0 <= pos <= text.len(),
    ensures
        match operands_at(text, pos, operator) {
            Ok((_, end)) => pos <= end <= text.len(),
            Err(e) => pos <= e <= text.len(),
        },
    decreases text.len() - pos, 1nat,
{
    lemma_skip_spaces_bounds(text, pos);
    let start = skip_spaces(text, pos);
    if 0 <= start < text.len() && begins_atom(text[start]) {
        lemma_atom_at_bounds(text, start);
        match atom_at(text, start) {
            Err(_) => {},
            Ok((operand, end)) => {
                lemma_operands_at_bounds(
                    text,
                    end,
                    SpecExpr::App(Box::new(operator), Box::new(operand)),
                );
            },
        }
    }
}

/// An atom takes up a part of the text that is not empty.
pub proof fn lemma_atom_at_bounds(text: Seq<char>, pos: int)
    requires
        0 <= pos <= text.len(),
    ensures
        match atom_at(text, pos) {
            Ok((_, end)) => pos < end <= text.len(),
            Err(e) => pos <= e <= text.len(),
        },
    decreases text.len() - pos, 0nat,
{
    if at(text, pos, '(') {
        lemma_expr_at_bounds(text, pos + 1);
        match expr_at(text, pos + 1) {
            Err(_) => {},
            Ok((_, end)) => {
                lemma_skip_spaces_bounds(text, end);
            },
        }
    } else if pos < text.len() && is_digit(text[pos]) {
        lemma_digits_end_bounds(text, pos + 1);
    } else {
        lemma_name_end_bounds(text, pos);
    }
}

/// Of two runs of digits of which one begins the other, the longer one
/// writes the greater number, or the same.
pub proof fn lemma_number_value_grows(digits: Seq<char>, n: int)
    requires
        0 <= n <= digits.len(),
    ensures
        number_value(digits.take(n)) <= number_value(digits),
    decreases digits.len(),
{
    if n < digits.len() {
        assert(digits.drop_last().take(n) =~= digits.take(n));
        lemma_number_value_grows(digits.drop_last(), n);
        assert(number_value(digits.drop_last()) * 10 >= number_value(digits.drop_last()))
            by (nonlinear_arith);
    } else {
        assert(digits.take(n) =~= digits);
    }
}

/// The text that says that the character at `position` does not fit.
pub open spec fn fault_text(position: int) -> Seq<char> {
    "Syntax error at character "@ + decimal(position as nat)
}

/// Why a text is no expression, or no type: the position of the first
/// character that does not fit.
#[derive(Debug, PartialEq, Eq, Structural)]
pub struct ParseError {
    pub position: usize,
}

impl ParseError {
    /// The text of an error.
    pub open spec fn display(self) -> Seq<char> {
        fault_text(self.position as int)
    }

    /// Renders the error as text.
    pub fn to_string(&self) -> (s: String)
        ensures
            s@ == self.display(),
    {
        let mut s = String::from_str("Syntax error at character ");
        let position = decimal_string(self.position as u64);
        s.append(position.as_str());
        s
    }
}

/// Whether `c` separates tokens.
fn space(c: char) -> (r: bool)
    ensures
        r == is_space(c),
{
    c == ' ' || c == '\t' || c == '\n' || c == '\r'
}

/// Whether `c` is a decimal digit.
fn digit(c: char) -> (r: bool)
    ensures
        r == is_digit(c),
{
    '0' <= c && c <= '9'
}

/// Whether `c` may begin a name that is a word.
fn letter(c: char) -> (r: bool)
    ensures
        r == is_letter(c),
{
    ('a' <= c && c <= 'z') || ('A' <= c && c <= 'Z') || c == '_'
}

/// Whether `c` is a name by itself.
fn sign(c: char) -> (r: bool)
    ensures
        r == is_operator(c),
{
    c == '+' || c == '-' || c == '*' || c == '/'
}

/// Whether the character at `pos` is `c`.
fn holds(chars: &Vec<char>, pos: usize, c: char) -> (r: bool)
    ensures
        r == at(chars@, pos as int, c),
{
    pos < chars.len() && chars[pos] == c
}

/// Skips the spaces from `pos` on.
fn scan_spaces(chars: &Vec<char>, pos: usize) -> (r: usize)
    requires
        pos <= chars@.len(),
    ensures
        r == skip_spaces(chars@, pos as int),
        pos <= r <= chars@.len(),
{
    let mut i = pos;
    while i < chars.len() && space(chars[i])
        invariant
            pos <= i <= chars@.len(),
            skip_spaces(chars@, pos as int) == skip_spaces(chars@, i as int),
        decreases chars@.len() - i,
    {
        i += 1;
    }
    i
}

/// Finds the end of the run of letters and digits that begins at `pos`.
fn scan_word(chars: &Vec<char>, pos: usize) -> (r: usize)
    requires
        pos <= chars@.len(),
    ensures
        r == word_end(chars@, pos as int),
        pos <= r <= chars@.len(),
{
    let mut i = pos;
    while i < chars.len() && (letter(chars[i]) || digit(chars[i]))
        invariant
            pos <= i <= chars@.len(),
            word_end(chars@, pos as int) == word_end(chars@, i as int),
        decreases chars@.len() - i,
    {
        i += 1;
    }
    i
}

/// Finds the end of the run of digits that begins at `pos`.
fn scan_digits(chars: &Vec<char>, pos: usize) -> (r: usize)
    requires
        pos <= chars@.len(),
    ensures
        r == digits_end(chars@, pos as int),
        pos <= r <= chars@.len(),
        forall|j: int| pos <= j < r ==> is_digit(#[trigger] chars@[j]),
{
    let mut i = pos;
    while i < chars.len() && digit(chars[i])
        invariant
            pos <= i <= chars@.len(),
            digits_end(chars@, pos as int) == digits_end(chars@, i as int),
            forall|j: int| pos <= j < i ==> is_digit(#[trigger] chars@[j]),
        decreases chars@.len() - i,
    {
        i += 1;
    }
    i
}

/// Finds the end of the name that begins at `pos`, if one does.
fn scan_name(chars: &Vec<char>, pos: usize) -> (r: Option<usize>)
    requires
        pos <= chars@.len(),
    ensures
        match r {
            Some(end) => name_end(chars@, pos as int) == Some(end as int) && pos < end
                <= chars@.len(),
            None => name_end(chars@, pos as int) is None,
        },
{
    if pos < chars.len() && letter(chars[pos]) {
        Some(scan_word(chars, pos + 1))
    } else if pos < chars.len() && sign(chars[pos]) {
        Some(pos + 1)
    } else {
        None
    }
}

/// Reads the number that the digits from `pos` to `end` write, if it fits.
fn read_number(chars: &Vec<char>, pos: usize, end: usize) -> (r: Option<u32>)
    requires
        pos <= end <= chars@.len(),
        forall|j: int| pos <= j < end ==> is_digit(#[trigger] chars@[j]),
    ensures
        match r {
            Some(v) => number_value(chars@.subrange(pos as int, end as int)) == v,
            None => number_value(chars@.subrange(pos as int, end as int)) > u32::MAX,
        },
{
    let ghost digits = chars@.subrange(pos as int, end as int);
    let mut value: u64 = 0;
    let mut i = pos;
    assert(digits.take(0) =~= Seq::<char>::empty());
    while i < end
        invariant
            pos <= i <= end <= chars@.len(),
            digits == chars@.subrange(pos as int, end as int),
            forall|j: int| pos <= j < end ==> is_digit(#[trigger] chars@[j]),
            value <= u32::MAX,
            value == number_value(digits.take(i - pos)),
        decreases end - i,
    {
        let c = chars[i];
        let d = c as u64 - 48;
        proof {
            let longer = digits.take(i + 1 - pos);
            assert(longer.drop_last() =~= digits.take(i - pos));
            assert(longer.last() == c);
        }
        value = value * 10 + d;
        if value > 4294967295 {
            proof {
                lemma_number_value_grows(digits, i + 1 - pos);
            }
            return None;
        }
        i += 1;
    }
    assert(digits.take(end - pos) =~= digits);
    Some(value as u32)
}

/// What the outcome of reading a type stands for.
pub open spec fn type_outcome(r: Result<(Type, usize), usize>) -> Result<(Type, int), int> {
    match r {
        Ok((t, end)) => Ok((t, end as int)),
        Err(e) => Err(e as int),
    }
}

/// What the outcome of reading an expression stands for.
pub open spec fn expr_outcome(r: Result<(Expr, usize), usize>) -> Result<(SpecExpr, int), int> {
    match r {
        Ok((e, end)) => Ok((e@, end as int)),
        Err(e) => Err(e as int),
    }
}

/// Reads the type that stands at `pos`.
fn read_type(chars: &Vec<char>, pos: usize) -> (r: Result<(Type, usize), usize>)
    requires
        pos <= chars@.len(),
    ensures
        type_outcome(r) == type_at(chars@, pos as int),
    decreases chars@.len() - pos, 1nat,
{
    proof {
        lemma_type_atom_at_bounds(chars@, pos as int);
    }
    let length = chars.len();
    let (domain, end) = read_type_atom(chars, pos)?;
    let arrow = scan_spaces(chars, end);
    if holds(chars, arrow, '-') && holds(chars, arrow + 1, '>') {
        let (codomain, last) = read_type(chars, arrow + 2)?;
        Ok((Type::Arr(Arc::new(domain), Arc::new(codomain)), last))
    } else {
        Ok((domain, end))
    }
}

/// Reads the type without arrow at its top that stands at `pos`.
fn read_type_atom(chars: &Vec<char>, pos: usize) -> (r: Result<(Type, usize), usize>)
    requires
        pos <= chars@.len(),
    ensures
        type_outcome(r) == type_atom_at(chars@, pos as int),
    decreases chars@.len() - pos, 0nat,
{
    let length = chars.len();
    let start = scan_spaces(chars, pos);
    if holds(chars, start, '(') {
        proof {
            lemma_type_at_bounds(chars@, start + 1);
        }
        let (inner, end) = read_type(chars, start + 1)?;
        let close = scan_spaces(chars, end);
        if holds(chars, close, ')') {
            Ok((inner, close + 1))
        } else {
            Err(close)
        }
    } else if holds(chars, start, 'i') && holds(chars, start + 1, 'n') && holds(
        chars,
        start + 2,
        't',
    ) && scan_word(chars, start) == start + 3 {
        Ok((Type::Int, start + 3))
    } else {
        Err(start)
    }
}

/// Reads the expression that stands at `pos`. `chars` holds the characters
/// of `text`, from which the names are cut.
fn read_expr(text: &str, chars: &Vec<char>, pos: usize) -> (r: Result<(Expr, usize), usize>)
    requires
        chars@ == text@,
        pos <= chars@.len(),
    ensures
        expr_outcome(r) == expr_at(chars@, pos as int),
    decreases chars@.len() - pos, 2nat,
{
    let length = chars.len();
    let start = scan_spaces(chars, pos);
    if holds(chars, start, 'λ') {
        let name = scan_spaces(chars, start + 1);
        match scan_name(chars, name) {
            None => Err(name),
            Some(end) => {
                let colon = scan_spaces(chars, end);
                if !holds(chars, colon, ':') {
                    Err(colon)
                } else {
                    proof {
                        lemma_type_at_bounds(chars@, colon + 1);
                    }
                    let (ty, behind) = read_type(chars, colon + 1)?;
                    let dot = scan_spaces(chars, behind);
                    if !holds(chars, dot, '.') {
                        Err(dot)
                    } else {
                        proof {
                            lemma_expr_at_bounds(chars@, dot + 1);
                        }
                        let (body, last) = read_expr(text, chars, dot + 1)?;
                        let x = String::from_str(text.substring_char(name, end));
                        Ok((Expr::Lam(x, Arc::new(ty), Box::new(body)), last))
                    }
                }
            },
        }
    } else {
        proof {
            lemma_atom_at_bounds(chars@, start as int);
        }
        let (operator, end) = read_atom(text, chars, start)?;
        read_operands(text, chars, end, operator)
    }
}

/// Reads the atoms that stand at `pos` and applies `operator` to them, one
/// after the other.
fn read_operands(text: &str, chars: &Vec<char>, pos: usize, operator: Expr) -> (r: Result<
    (Expr, usize),
    usize,
>)
    requires
        chars@ == text@,
        pos <= chars@.len(),
    ensures
        expr_outcome(r) == operands_at(chars@, pos as int, operator@),
    decreases chars@.len() - pos, 1nat,
{
    let start = scan_spaces(chars, pos);
    if start < chars.len() && (chars[start] == '(' || digit(chars[start]) || letter(chars[start])
        || sign(chars[start])) {
        proof {
            lemma_atom_at_bounds(chars@, start as int);
        }
        let (operand, end) = read_atom(text, chars, start)?;
        read_operands(text, chars, end, Expr::App(Box::new(operator), Box::new(operand)))
    } else {
        Ok((operator, pos))
    }
}

/// Reads the atom that begins at `pos`.
fn read_atom(text: &str, chars: &Vec<char>, pos: usize) -> (r: Result<(Expr, usize), usize>)
    requires
        chars@ == text@,
        pos <= chars@.len(),
    ensures
        expr_outcome(r) == atom_at(chars@, pos as int),
    decreases chars@.len() - pos, 0nat,
{
    let length = chars.len();
    if holds(chars, pos, '(') {
        proof {
            lemma_expr_at_bounds(chars@, pos + 1);
        }
        let (inner, end) = read_expr(text, chars, pos + 1)?;
        let close = scan_spaces(chars, end);
        if holds(chars, close, ')') {
            Ok((inner, close + 1))
        } else {
            Err(close)
        }
    } else if pos < chars.len() && digit(chars[pos]) {
        let end = scan_digits(chars, pos);
        match read_number(chars, pos, end) {
            Some(value) => Ok((Expr::Lit(value), end)),
            None => Err(pos),
        }
    } else {
        match scan_name(chars, pos) {
            Some(end) => {
                let x = String::from_str(text.substring_char(pos, end));
                Ok((Expr::Var(x), end))
            },
            None => Err(pos),
        }
    }
}

/// The characters of a text, one by one.
fn characters(text: &str) -> (chars: Vec<char>)
    ensures
        chars@ == text@,
{
    let mut rest = text.chars();
    let mut chars: Vec<char> = Vec::new();
    proof {
        axiom_spec_iter(text);
    }
    loop
        invariant
            chars@ + rest.remaining() == text@,
            rest.obeys_prophetic_iter_laws(),
            rest.decrease() is Some,
        ensures
            chars@ == text@,
        decreases rest.decrease()->Some_0,
    {
        let ghost before = rest;
        let next = rest.next();
        proof {
            next_postcondition(&before, &rest, next);
        }
        match next {
            Some(c) => {
                chars.push(c);
                assert(chars@ + rest.remaining() =~= text@);
            },
            None => {
                assert(chars@ =~= text@);
                break ;
            },
        }
    }
    chars
}

/// Reads an expression: the whole text has to be one.
pub fn parse_expr(text: &str) -> (r: Result<Expr, ParseError>)
    ensures
        match r {
            Ok(e) => expr_of(text@) == Ok::<SpecExpr, int>(e@),
            Err(error) => expr_of(text@) == Err::<SpecExpr, int>(error.position as int),
        },
{
    let chars = characters(text);
    proof {
        lemma_expr_at_bounds(chars@, 0);
    }
    match read_expr(text, &chars, 0) {
        Ok((e, end)) => {
            let rest = scan_spaces(&chars, end);
            if rest == chars.len() {
                Ok(e)
            } else {
                Err(ParseError { position: rest })
            }
        },
        Err(position) => Err(ParseError { position }),
    }
}

/// Reads a type: the whole text has to be one.
pub fn parse_type(text: &str) -> (r: Result<Type, ParseError>)
    ensures
        match r {
            Ok(t) => type_of_text(text@) == Ok::<Type, int>(t),
            Err(error) => type_of_text(text@) == Err::<Type, int>(error.position as int),
        },
{
    let chars = characters(text);
    proof {
        lemma_type_at_bounds(chars@, 0);
    }
    match read_type(&chars, 0) {
        Ok((t, end)) => {
            let rest = scan_spaces(&chars, end);
            if rest == chars.len() {
                Ok(t)
            } else {
                Err(ParseError { position: rest })
            }
        },
        Err(position) => Err(ParseError { position }),
    }
}

impl std::str::FromStr for Expr {
    type Err = String;

    /// Reads an expression: the whole text has to be one. Where it is none,
    /// the error is the text of the fault's position.
    fn from_str(s: &str) -> (r: Result<Expr, String>)
        ensures
            match r {
                Ok(e) => expr_of(s@) == Ok::<SpecExpr, int>(e@),
                Err(message) => expr_of(s@) matches Err(position) && message@ == fault_text(
                    position,
                ),
            },
    {
        match parse_expr(s) {
            Ok(e) => Ok(e),
            Err(error) => Err(error.to_string()),
        }
    }
}

impl std::str::FromStr for Type {
    type Err = String;

    /// Reads a type: the whole text has to be one. Where it is none, the
    /// error is the text of the fault's position.
    fn from_str(s: &str) -> (r: Result<Type, String>)
        ensures
            match r {
                Ok(t) => type_of_text(s@) == Ok::<Type, int>(t),
                Err(message) => type_of_text(s@) matches Err(position) && message@ == fault_text(
                    position,
                ),
            },
    {
        match parse_type(s) {
            Ok(t) => Ok(t),
            Err(error) => Err(error.to_string()),
        }
    }
}

} // verus!
