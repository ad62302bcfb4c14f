//! What is written out is read back: the text of an expression, or of a
//! type, parses to that expression, or type.

use vstd::prelude::*;

use crate::ast::{SpecExpr, Type};
use crate::parse::{
    at, atom_at, begins_atom, digit_value, digits_end, expr_at, expr_of, int_at, is_digit,
    is_letter, is_operator, is_space, name_end, number_value, operands_at, skip_spaces, type_at,
    type_atom_at, type_of_text, word_end,
};
use crate::text::{decimal, digit_char};

verus! {

/// Whether `x` is a name of the syntax: a word that begins with a letter,
/// or an operator.
pub open spec fn is_name(x: Seq<char>) -> bool {
    ||| x.len() == 1 && is_operator(x[0])
    ||| x.len() >= 1 && is_letter(x[0]) && forall|i: int|
        0 < i < x.len() ==> is_letter(#[trigger] x[i]) || is_digit(x[i])
}

/// Whether every name in `e` is a name of the syntax.
pub open spec fn well_named(e: SpecExpr) -> bool
    decreases e,
{
    match e {
        SpecExpr::App(f, a) => well_named(*f) && well_named(*a),
        SpecExpr::Lam(x, _, b) => is_name(x) && well_named(*b),
        SpecExpr::Lit(_) => true,
        SpecExpr::Var(x) => is_name(x),
    }
}

/// Whether the characters `d` stand in `t` from `p` on.
pub open spec fn stands(t: Seq<char>, p: int, d: Seq<char>) -> bool {
    0 <= p && p + d.len() <= t.len() && t.subrange(p, p + d.len()) == d
}

/// Whether a word or a number that ends at `q` ends there indeed: the text
/// ends, or goes on with something else than a letter or a digit.
pub open spec fn ends_word(t: Seq<char>, q: int) -> bool {
    q == t.len() || (0 <= q < t.len() && !is_letter(t[q]) && !is_digit(t[q]))
}

/// Whether a type that ends at `q` ends there indeed: the text ends, or
/// goes on with a bracket or a dot.
pub open spec fn ends_type(t: Seq<char>, q: int) -> bool {
    q == t.len() || at(t, q, ')') || at(t, q, '.')
}

/// Where a text made of two parts stands, both parts stand.
pub proof fn lemma_stands_split(t: Seq<char>, p: int, a: Seq<char>, b: Seq<char>)
    requires
        stands(t, p, a + b),
    ensures
        stands(t, p, a),
        stands(t, p + a.len(), b),
{
    let d = a + b;
    assert(t.subrange(p, p + a.len()) =~= d.subrange(0, a.len() as int));
    assert(d.subrange(0, a.len() as int) =~= a);
    assert(t.subrange(p + a.len(), p + a.len() + b.len()) =~= d.subrange(
        a.len() as int,
        d.len() as int,
    ));
    assert(d.subrange(a.len() as int, d.len() as int) =~= b);
}

/// The characters of a text that stands are those of the text.
pub proof fn lemma_stands_index(t: Seq<char>, p: int, d: Seq<char>, i: int)
    requires
        stands(t, p, d),
        0 <= i < d.len(),
    ensures
        t[p + i] == d[i],
{
    assert(t.subrange(p, p + d.len())[i] == t[p + i]);
}

/// A run of letters and digits that ends is a word to its end.
pub proof fn lemma_word_run(t: Seq<char>, p: int, q: int)
    requires
        0 <= p <= q <= t.len(),
        forall|i: int| p <= i < q ==> is_letter(#[trigger] t[i]) || is_digit(t[i]),
        ends_word(t, q),
    ensures
        word_end(t, p) == q,
    decreases q - p,
{
    if p < q {
        lemma_word_run(t, p + 1, q);
    }
}

/// A run of digits that ends is a number to its end.
pub proof fn lemma_digits_run(t: Seq<char>, p: int, q: int)
    requires
        0 <= p <= q <= t.len(),
        forall|i: int| p <= i < q ==> is_digit(#[trigger] t[i]),
        ends_word(t, q),
    ensures
        digits_end(t, p) == q,
    decreases q - p,
{
    if p < q {
        lemma_digits_run(t, p + 1, q);
    }
}

/// A numeral is made of digits, and it writes its number.
pub proof fn lemma_decimal_is_read_back(n: nat)
    ensures
        decimal(n).len() >= 1,
        forall|i: int| 0 <= i < decimal(n).len() ==> is_digit(#[trigger] decimal(n)[i]),
        number_value(decimal(n)) == n,
    decreases n,
{
    reveal_with_fuel(number_value, 2);
    if n < 10 {
        assert(decimal(n).drop_last() =~= Seq::<char>::empty());
        assert(digit_value(digit_char(n)) == n);
    } else {
        lemma_decimal_is_read_back(n / 10);
        let d = decimal(n);
        assert(d.drop_last() =~= decimal(n / 10));
        assert(d.last() == digit_char(n % 10));
        assert(digit_value(digit_char(n % 10)) == n % 10);
        assert forall|i: int| 0 <= i < d.len() implies is_digit(#[trigger] d[i]) by {
            if i < d.len() - 1 {
                assert(d[i] == decimal(n / 10)[i]);
            }
        }
    }
}

/// The text of a type is not empty and begins with `i` or a bracket.
pub proof fn lemma_type_display_begins(ty: Type)
    ensures
        ty.display().len() >= 1,
        ty.display()[0] == 'i' || ty.display()[0] == '(',
{
    reveal_strlit("int");
    reveal_strlit("(");
    if ty is Arr {
        assert(ty.display()[0] == "("@[0]);
    }
}

/// The text of a type, where it stands behind spaces and ends, is read as
/// that type.
pub proof fn lemma_type_is_read(t: Seq<char>, p: int, q: int, ty: Type)
    requires
        0 <= p <= q,
        skip_spaces(t, p) == q,
        stands(t, q, ty.display()),
        ends_type(t, q + ty.display().len()),
    ensures
        type_atom_at(t, p) is Ok,
        type_at(t, p) == Ok::<(Type, int), int>((ty, q + ty.display().len())),
    decreases ty,
{
    let d = ty.display();
    let end = q + d.len();
    reveal_strlit("int");
    reveal_strlit("(");
    reveal_strlit(") -> ");
    if ty is Int {
        {
            lemma_stands_index(t, q, d, 0);
            lemma_stands_index(t, q, d, 1);
            lemma_stands_index(t, q, d, 2);
            lemma_word_run(t, q, q + 3);
            assert(int_at(t, q));
            assert(type_atom_at(t, p) == Ok::<(Type, int), int>((Type::Int, q + 3)));
            assert(skip_spaces(t, q + 3) == q + 3);
        }
    } else {
        {
            let a = ty.domain();
            let b = ty.codomain();
            let da = a.display();
            let db = b.display();
            let open = "("@;
            let arrow = ") -> "@;
            assert(d == open + da + arrow + db);
            lemma_stands_split(t, q, open + da + arrow, db);
            lemma_stands_split(t, q, open + da, arrow);
            lemma_stands_split(t, q, open, da);
            let a0 = q + 1;
            let a1 = a0 + da.len();
            let b0 = a1 + 5;
            lemma_stands_index(t, q, open, 0);
            lemma_stands_index(t, a1, arrow, 0);
            lemma_stands_index(t, a1, arrow, 1);
            lemma_stands_index(t, a1, arrow, 2);
            lemma_stands_index(t, a1, arrow, 3);
            lemma_stands_index(t, a1, arrow, 4);
            lemma_type_display_begins(a);
            lemma_type_display_begins(b);
            lemma_stands_index(t, a0, da, 0);
            lemma_stands_index(t, b0, db, 0);
            assert(skip_spaces(t, a0) == a0);
            lemma_type_is_read(t, a0, a0, a);
            assert(skip_spaces(t, a1) == a1);
            assert(type_atom_at(t, p) == Ok::<(Type, int), int>((a, a1 + 1)));
            assert(skip_spaces(t, a1 + 2) == a1 + 2);
            assert(skip_spaces(t, a1 + 1) == a1 + 2);
            assert(skip_spaces(t, b0) == b0);
            assert(skip_spaces(t, a1 + 4) == b0);
            lemma_type_is_read(t, a1 + 4, b0, b);
        }
    }
}

/// The text of a type is read back as that type.
pub proof fn lemma_type_display_is_read_back(ty: Type)
    ensures
        type_of_text(ty.display()) == Ok::<Type, int>(ty),
{
    let d = ty.display();
    lemma_type_display_begins(ty);
    assert(d.subrange(0, d.len() as int) =~= d);
    assert(skip_spaces(d, 0) == 0);
    lemma_type_is_read(d, 0, 0, ty);
}

/// A name, where it stands and ends, is read as that name.
pub proof fn lemma_name_is_read(t: Seq<char>, p: int, x: Seq<char>)
    requires
        is_name(x),
        stands(t, p, x),
        ends_word(t, p + x.len()),
    ensures
        name_end(t, p) == Some(p + x.len()),
        begins_atom(t[p]),
        t[p] != '(',
        t[p] != 'λ',
        !is_digit(t[p]),
        !is_space(t[p]),
{
    lemma_stands_index(t, p, x, 0);
    if is_letter(x[0]) {
        assert forall|i: int| p + 1 <= i < p + x.len() implies is_letter(#[trigger] t[i])
            || is_digit(t[i]) by {
            lemma_stands_index(t, p, x, i - p);
        }
        lemma_word_run(t, p + 1, p + x.len());
    }
}

/// The text of an expression is not empty, and an atom begins with its
/// first character.
pub proof fn lemma_display_begins(e: SpecExpr)
    requires
        well_named(e),
    ensures
        e.display().len() >= 1,
        begins_atom(e.display()[0]),
        e.display()[0] != 'λ',
        !is_space(e.display()[0]),
{
    reveal_strlit("(");
    reveal_strlit("(λ");
    match e {
        SpecExpr::App(f, a) => {
            assert(e.display()[0] == "("@[0]);
        },
        SpecExpr::Lam(x, _, b) => {
            assert(e.display()[0] == "(λ"@[0]);
        },
        SpecExpr::Lit(n) => {
            lemma_decimal_is_read_back(n as nat);
        },
        SpecExpr::Var(x) => {},
    }
}

/// The text of an expression, where it stands and ends, is read as that
/// expression.
pub proof fn lemma_atom_is_read(t: Seq<char>, p: int, e: SpecExpr)
    requires
        well_named(e),
        stands(t, p, e.display()),
        ends_word(t, p + e.display().len()),
    ensures
        atom_at(t, p) == Ok::<(SpecExpr, int), int>((e, p + e.display().len())),
    decreases e,
{
    let d = e.display();
    let end = p + d.len();
    reveal_strlit("(");
    reveal_strlit(" ");
    reveal_strlit(")");
    reveal_strlit("(λ");
    reveal_strlit(":");
    reveal_strlit(". ");
    match e {
        SpecExpr::App(f, a) => {
            let df = f.display();
            let da = a.display();
            lemma_stands_split(t, p, "("@ + df + " "@ + da, ")"@);
            lemma_stands_split(t, p, "("@ + df + " "@, da);
            lemma_stands_split(t, p, "("@ + df, " "@);
            lemma_stands_split(t, p, "("@, df);
            let f0 = p + 1;
            let f1 = f0 + df.len();
            let a0 = f1 + 1;
            let a1 = a0 + da.len();
            lemma_stands_index(t, p, "("@, 0);
            lemma_stands_index(t, f1, " "@, 0);
            lemma_stands_index(t, a1, ")"@, 0);
            lemma_display_begins(*f);
            lemma_display_begins(*a);
            lemma_stands_index(t, f0, df, 0);
            lemma_stands_index(t, a0, da, 0);
            lemma_atom_is_read(t, f0, *f);
            lemma_atom_is_read(t, a0, *a);
            assert(skip_spaces(t, f0) == f0);
            assert(skip_spaces(t, a0) == a0);
            assert(skip_spaces(t, f1) == a0);
            assert(skip_spaces(t, a1) == a1);
            assert(operands_at(t, a1, e) == Ok::<(SpecExpr, int), int>((e, a1)));
            assert(operands_at(t, f1, *f) == Ok::<(SpecExpr, int), int>((e, a1)));
            assert(expr_at(t, f0) == Ok::<(SpecExpr, int), int>((e, a1)));
        },
        SpecExpr::Lam(x, ty, b) => {
            let dt = ty.display();
            let db = b.display();
            lemma_stands_split(t, p, "(λ"@ + x + ":"@ + dt + ". "@ + db, ")"@);
            lemma_stands_split(t, p, "(λ"@ + x + ":"@ + dt + ". "@, db);
            lemma_stands_split(t, p, "(λ"@ + x + ":"@ + dt, ". "@);
            lemma_stands_split(t, p, "(λ"@ + x + ":"@, dt);
            lemma_stands_split(t, p, "(λ"@ + x, ":"@);
            lemma_stands_split(t, p, "(λ"@, x);
            let x0 = p + 2;
            let x1 = x0 + x.len();
            let t0 = x1 + 1;
            let t1 = t0 + dt.len();
            let b0 = t1 + 2;
            let b1 = b0 + db.len();
            lemma_stands_index(t, p, "(λ"@, 0);
            lemma_stands_index(t, p, "(λ"@, 1);
            lemma_stands_index(t, x1, ":"@, 0);
            lemma_stands_index(t, t1, ". "@, 0);
            lemma_stands_index(t, t1, ". "@, 1);
            lemma_stands_index(t, b1, ")"@, 0);
            lemma_name_is_read(t, x0, x);
            lemma_type_display_begins(ty);
            lemma_stands_index(t, t0, dt, 0);
            assert(skip_spaces(t, t0) == t0);
            lemma_type_is_read(t, t0, t0, ty);
            lemma_display_begins(*b);
            lemma_stands_index(t, b0, db, 0);
            lemma_atom_is_read(t, b0, *b);
            assert(skip_spaces(t, p + 1) == p + 1);
            assert(skip_spaces(t, x0) == x0);
            assert(skip_spaces(t, x1) == x1);
            assert(skip_spaces(t, t1) == t1);
            assert(skip_spaces(t, b0) == b0);
            assert(skip_spaces(t, t1 + 1) == b0);
            assert(skip_spaces(t, b1) == b1);
            assert(t.subrange(x0, x1) == x);
            assert(operands_at(t, b1, *b) == Ok::<(SpecExpr, int), int>((*b, b1)));
            assert(expr_at(t, t1 + 1) == Ok::<(SpecExpr, int), int>((*b, b1)));
            assert(expr_at(t, p + 1) == Ok::<(SpecExpr, int), int>((e, b1)));
        },
        SpecExpr::Lit(n) => {
            lemma_decimal_is_read_back(n as nat);
            lemma_stands_index(t, p, d, 0);
            assert forall|i: int| p <= i < end implies is_digit(#[trigger] t[i]) by {
                lemma_stands_index(t, p, d, i - p);
            }
            lemma_digits_run(t, p, end);
        },
        SpecExpr::Var(x) => {
            lemma_name_is_read(t, p, x);
        },
    }
}

/// The text of an expression whose names are names of the syntax is read
/// back as that expression.
pub proof fn lemma_display_is_read_back(e: SpecExpr)
    requires
        well_named(e),
    ensures
        expr_of(e.display()) == Ok::<SpecExpr, int>(e),
{
    let d = e.display();
    lemma_display_begins(e);
    assert(d.subrange(0, d.len() as int) =~= d);
    lemma_atom_is_read(d, 0, e);
    assert(skip_spaces(d, 0) == 0);
    assert(skip_spaces(d, d.len() as int) == d.len());
    assert(operands_at(d, d.len() as int, e) == Ok::<(SpecExpr, int), int>((e, d.len() as int)));
}

} // verus!
