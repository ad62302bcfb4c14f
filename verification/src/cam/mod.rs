//! Compiles the nameless lambda calculus to the combinators of the
//! categorical abstract machine, and those to object code.

use vstd::prelude::*;
use vstd::std_specs::cmp::PartialEqSpecImpl;

use crate::nameless::{NamelessExpr, SpecNamelessExpr};
use crate::text::{decimal, decimal_string, lemma_decimal_ends_in_digit, lemma_decimal_injective};

pub mod eval;

verus! {

/// A combinator that is compiled to. It is closed: the environment is a
/// nested pair, and a variable is a projection out of it.
#[derive(Debug)]
pub enum StaticCombinator {
    /// The `App` combinator. `App(Λ(x)y, z) = x(y, z)`
    App,
    /// The composition combinator. `(x∘y)z = x(yz)`
    Com(Box<StaticCombinator>, Box<StaticCombinator>),
    /// The `Fst` combinator. `Fst(x, y) = x`
    Fst,
    /// The `Λ` combinator. `App(Λ(x)y, z) = x(y, z)`
    Lam(Box<StaticCombinator>),
    /// The `<,>` combinator. `<x,y>z = (xz,yz)`
    Pair(Box<StaticCombinator>, Box<StaticCombinator>),
    /// The `'` combinator, specialized to a name. `'xy = x`
    QuoteName(String),
    /// The `'` combinator, specialized to a number. `'xy = x`
    QuoteNum(u32),
    /// The `Snd` combinator. `Snd(x, y) = y`
    Snd,
}

/// The mathematical value of a [`StaticCombinator`].
pub enum SpecStaticCombinator {
    App,
    Com(Box<SpecStaticCombinator>, Box<SpecStaticCombinator>),
    Fst,
    Lam(Box<SpecStaticCombinator>),
    Pair(Box<SpecStaticCombinator>, Box<SpecStaticCombinator>),
    QuoteName(Seq<char>),
    QuoteNum(u32),
    Snd,
}

/// The name of the `n`-th definition hoisted under `prefix`.
pub open spec fn lambda_name(prefix: Seq<char>, n: nat) -> Seq<char> {
    prefix + "-lambda-"@ + decimal(n)
}

/// The name of the main definition under `prefix`.
pub open spec fn main_name(prefix: Seq<char>) -> Seq<char> {
    prefix + "-main"@
}

/// The definition of the word `name` as `body`.
pub open spec fn definition(name: Seq<char>, body: Seq<Seq<char>>) -> Seq<Seq<char>> {
    seq![":"@, name] + body + seq![";"@]
}

impl SpecStaticCombinator {
    /// The text of a combinator.
    pub open spec fn display(self) -> Seq<char>
        decreases self,
    {
        match self {
            SpecStaticCombinator::App => "App"@,
            SpecStaticCombinator::Com(l, r) => l.display() + " ∘ "@ + r.display(),
            SpecStaticCombinator::Fst => "Fst"@,
            SpecStaticCombinator::Lam(b) => "Λ("@ + b.display() + ")"@,
            SpecStaticCombinator::Pair(l, r) => "<"@ + l.display() + ","@ + r.display() + ">"@,
            SpecStaticCombinator::QuoteName(x) => "'"@ + x,
            SpecStaticCombinator::QuoteNum(n) => "'"@ + decimal(n as nat),
            SpecStaticCombinator::Snd => "Snd"@,
        }
    }

    /// The number of `Λ` in a combinator: each becomes one hoisted
    /// definition.
    pub open spec fn lambdas(self) -> nat
        decreases self,
    {
        match self {
            SpecStaticCombinator::Com(l, r) => r.lambdas() + l.lambdas(),
            SpecStaticCombinator::Lam(b) => b.lambdas() + 1,
            SpecStaticCombinator::Pair(l, r) => l.lambdas() + r.lambdas(),
            _ => 0,
        }
    }

    /// The words that a combinator is lowered to, where `base` definitions
    /// were hoisted before it. The words run from left to right on a machine
    /// that holds one value, so the right side of a composition comes first,
    /// and a `Λ` is a reference to the definition that holds its body.
    pub open spec fn code(self, prefix: Seq<char>, base: nat) -> Seq<Seq<char>>
        decreases self,
    {
        match self {
            SpecStaticCombinator::App => seq!["FSTLC-APP"@],
            SpecStaticCombinator::Com(l, r) => r.code(prefix, base) + l.code(
                prefix,
                base + r.lambdas(),
            ),
            SpecStaticCombinator::Fst => seq!["FSTLC-FST"@],
            SpecStaticCombinator::Lam(b) => seq![
                "'"@,
                lambda_name(prefix, base + b.lambdas()),
                "CFA"@,
            ],
            SpecStaticCombinator::Pair(l, r) => seq!["DUP"@] + l.code(prefix, base) + seq![
                "SWAP"@,
            ] + r.code(prefix, base + l.lambdas()) + seq!["FSTLC-MAKE-PAIR"@],
            SpecStaticCombinator::QuoteName(x) => seq!["DROP"@, "'"@, x],
            SpecStaticCombinator::QuoteNum(n) => seq!["DROP"@, decimal(n as nat)],
            SpecStaticCombinator::Snd => seq!["FSTLC-SND"@],
        }
    }

    /// The definitions that a combinator hoists, in the order in which they
    /// are made, where `base` definitions were hoisted before it: those of
    /// the body of a `Λ` come before its own.
    pub open spec fn hoisted(self, prefix: Seq<char>, base: nat) -> Seq<Seq<Seq<char>>>
        decreases self,
    {
        match self {
            SpecStaticCombinator::Com(l, r) => r.hoisted(prefix, base) + l.hoisted(
                prefix,
                base + r.lambdas(),
            ),
            SpecStaticCombinator::Lam(b) => b.hoisted(prefix, base).push(
                definition(lambda_name(prefix, base + b.lambdas()), b.code(prefix, base)),
            ),
            SpecStaticCombinator::Pair(l, r) => l.hoisted(prefix, base) + r.hoisted(
                prefix,
                base + l.lambdas(),
            ),
            _ => seq![],
        }
    }

    /// The object code of a combinator: the hoisted definitions, then the
    /// main definition, which runs the combinator on the empty environment
    /// `0`.
    pub open spec fn program(self, prefix: Seq<char>) -> Seq<Seq<Seq<char>>> {
        self.hoisted(prefix, 0).push(
            definition(main_name(prefix), seq!["0"@] + self.code(prefix, 0)),
        )
    }
}

impl SpecNamelessExpr {
    /// The combinator that a nameless expression is compiled to.
    pub open spec fn combinator(self) -> SpecStaticCombinator
        decreases self,
    {
        match self {
            SpecNamelessExpr::App(l, r) => SpecStaticCombinator::Com(
                Box::new(SpecStaticCombinator::App),
                Box::new(
                    SpecStaticCombinator::Pair(Box::new(l.combinator()), Box::new(r.combinator())),
                ),
            ),
            SpecNamelessExpr::Lam(b) => SpecStaticCombinator::Lam(Box::new(b.combinator())),
            SpecNamelessExpr::Lit(n) => SpecStaticCombinator::QuoteNum(n),
            SpecNamelessExpr::Nam(x) => SpecStaticCombinator::QuoteName(x),
            SpecNamelessExpr::Var(i) => projection(i),
        }
    }
}

/// The combinator that takes the `i`-th binding out of the environment:
/// `Snd` after `i` times `Fst`.
pub open spec fn projection(i: nat) -> SpecStaticCombinator
    decreases i,
{
    if i == 0 {
        SpecStaticCombinator::Snd
    } else {
        SpecStaticCombinator::Com(
            Box::new(projection((i - 1) as nat)),
            Box::new(SpecStaticCombinator::Fst),
        )
    }
}

/// What a vector of words stands for.
pub open spec fn words_model(words: Seq<String>) -> Seq<Seq<char>> {
    words.map_values(|w: String| w@)
}

/// What a vector of definitions stands for.
pub open spec fn definitions_model(definitions: Seq<Vec<String>>) -> Seq<Seq<Seq<char>>> {
    definitions.map_values(|d: Vec<String>| words_model(d@))
}

impl StaticCombinator {
    /// The mathematical value of the combinator.
    pub open spec fn model(self) -> SpecStaticCombinator
        decreases self,
    {
        match self {
            StaticCombinator::App => SpecStaticCombinator::App,
            StaticCombinator::Com(l, r) => SpecStaticCombinator::Com(
                Box::new(l.model()),
                Box::new(r.model()),
            ),
            StaticCombinator::Fst => SpecStaticCombinator::Fst,
            StaticCombinator::Lam(b) => SpecStaticCombinator::Lam(Box::new(b.model())),
            StaticCombinator::Pair(l, r) => SpecStaticCombinator::Pair(
                Box::new(l.model()),
                Box::new(r.model()),
            ),
            StaticCombinator::QuoteName(x) => SpecStaticCombinator::QuoteName(x@),
            StaticCombinator::QuoteNum(n) => SpecStaticCombinator::QuoteNum(n),
            StaticCombinator::Snd => SpecStaticCombinator::Snd,
        }
    }

    /// Renders the combinator as text.
    pub fn to_string(&self) -> (s: String)
        ensures
            s@ == self@.display(),
        decreases *self,
    {
        match self {
            StaticCombinator::App => String::from_str("App"),
            StaticCombinator::Com(l, r) => {
                let mut s = (&**l).to_string();
                s.append(" ∘ ");
                let right = (&**r).to_string();
                s.append(right.as_str());
                s
            },
            StaticCombinator::Fst => String::from_str("Fst"),
            StaticCombinator::Lam(b) => {
                let mut s = String::from_str("Λ(");
                let body = (&**b).to_string();
                s.append(body.as_str());
                s.append(")");
                s
            },
            StaticCombinator::Pair(l, r) => {
                let mut s = String::from_str("<");
                let left = (&**l).to_string();
                s.append(left.as_str());
                s.append(",");
                let right = (&**r).to_string();
                s.append(right.as_str());
                s.append(">");
                s
            },
            StaticCombinator::QuoteName(x) => {
                let mut s = String::from_str("'");
                s.append(x.as_str());
                s
            },
            StaticCombinator::QuoteNum(n) => {
                let mut s = String::from_str("'");
                let number = decimal_string(*n as u64);
                s.append(number.as_str());
                s
            },
            StaticCombinator::Snd => String::from_str("Snd"),
        }
    }

    /// Compiles a combinator to a chunk of object code, and adds the
    /// definitions that it hoists to `hoisted`. The definition of a `Λ` is
    /// named by the number of definitions that were hoisted before it.
    fn compile_to_forth(&self, prefix: &str, hoisted: &mut Vec<Vec<String>>) -> (words: Vec<
        String,
    >)
        ensures
            words_model(words@) == self@.code(prefix@, old(hoisted)@.len()),
            definitions_model(final(hoisted)@) == definitions_model(old(hoisted)@)
                + self@.hoisted(prefix@, old(hoisted)@.len()),
            final(hoisted)@.len() == old(hoisted)@.len() + self@.lambdas(),
        decreases *self,
    {
        proof {
            lemma_hoisted_len(self@, prefix@, hoisted@.len());
        }
        let words = match self {
            StaticCombinator::App => {
                let mut v = Vec::new();
                v.push(String::from_str("FSTLC-APP"));
                v
            },
            StaticCombinator::Com(l, r) => {
                let mut v = (&**r).compile_to_forth(prefix, hoisted);
                let ghost first = v@;
                let mut rest = (&**l).compile_to_forth(prefix, hoisted);
                let ghost second = rest@;
                v.append(&mut rest);
                assert(words_model(v@) =~= words_model(first) + words_model(second));
                v
            },
            StaticCombinator::Fst => {
                let mut v = Vec::new();
                v.push(String::from_str("FSTLC-FST"));
                v
            },
            StaticCombinator::Lam(b) => {
                let inner = (&**b).compile_to_forth(prefix, hoisted);
                let name = fresh_name(prefix, hoisted.len());
                let mut v = Vec::new();
                v.push(String::from_str("'"));
                v.push(name.clone());
                v.push(String::from_str("CFA"));
                let ghost before = hoisted@;
                let def = define(name, inner);
                hoisted.push(def);
                assert(definitions_model(hoisted@) =~= definitions_model(before).push(
                    words_model(def@),
                ));
                v
            },
            StaticCombinator::Pair(l, r) => {
                let mut v = Vec::new();
                v.push(String::from_str("DUP"));
                let mut left = (&**l).compile_to_forth(prefix, hoisted);
                let ghost w1 = left@;
                v.append(&mut left);
                v.push(String::from_str("SWAP"));
                let ghost w2 = v@;
                let mut right = (&**r).compile_to_forth(prefix, hoisted);
                let ghost w3 = right@;
                v.append(&mut right);
                v.push(String::from_str("FSTLC-MAKE-PAIR"));
                assert(words_model(w2) =~= seq!["DUP"@] + words_model(w1) + seq!["SWAP"@]);
                assert(words_model(v@) =~= words_model(w2) + words_model(w3) + seq![
                    "FSTLC-MAKE-PAIR"@,
                ]);
                v
            },
            StaticCombinator::QuoteName(x) => {
                let mut v = Vec::new();
                v.push(String::from_str("DROP"));
                v.push(String::from_str("'"));
                v.push(x.clone());
                v
            },
            StaticCombinator::QuoteNum(n) => {
                let mut v = Vec::new();
                v.push(String::from_str("DROP"));
                v.push(decimal_string(*n as u64));
                v
            },
            StaticCombinator::Snd => {
                let mut v = Vec::new();
                v.push(String::from_str("FSTLC-SND"));
                v
            },
        };
        assert(words_model(words@) =~= self@.code(prefix@, old(hoisted)@.len()));
        assert(definitions_model(hoisted@) =~= definitions_model(old(hoisted)@)
            + self@.hoisted(prefix@, old(hoisted)@.len()));
        words
    }

    /// Compiles a combinator to a sequence of definitions of object code:
    /// the hoisted bodies of its `Λ`, then the main definition. The names
    /// generated begin with the given prefix.
    pub fn to_forth(&self, prefix: &str) -> (definitions: Vec<Vec<String>>)
        ensures
            definitions_model(definitions@) == self@.program(prefix@),
    {
        let mut decls: Vec<Vec<String>> = Vec::new();
        let mut body = self.compile_to_forth(prefix, &mut decls);
        let mut main = Vec::new();
        main.push(String::from_str("0"));
        main.append(&mut body);
        assert(words_model(main@) =~= seq!["0"@] + self@.code(prefix@, 0));
        let mut name = String::from_str(prefix);
        name.append("-main");
        let ghost before = decls@;
        let def = define(name, main);
        decls.push(def);
        assert(definitions_model(before) =~= self@.hoisted(prefix@, 0));
        assert(definitions_model(decls@) =~= definitions_model(before).push(words_model(def@)));
        decls
    }
}

impl View for StaticCombinator {
    type V = SpecStaticCombinator;

    open spec fn view(&self) -> SpecStaticCombinator {
        self.model()
    }
}

impl PartialEq for StaticCombinator {
    fn eq(&self, other: &StaticCombinator) -> (r: bool)
        decreases *self,
    {
        match self {
            StaticCombinator::App => match other {
                StaticCombinator::App => true,
                _ => false,
            },
            StaticCombinator::Com(l1, r1) => match other {
                StaticCombinator::Com(l2, r2) => (&**l1).eq(&**l2) && (&**r1).eq(&**r2),
                _ => false,
            },
            StaticCombinator::Fst => match other {
                StaticCombinator::Fst => true,
                _ => false,
            },
            StaticCombinator::Lam(b1) => match other {
                StaticCombinator::Lam(b2) => (&**b1).eq(&**b2),
                _ => false,
            },
            StaticCombinator::Pair(l1, r1) => match other {
                StaticCombinator::Pair(l2, r2) => (&**l1).eq(&**l2) && (&**r1).eq(&**r2),
                _ => false,
            },
            StaticCombinator::QuoteName(x1) => match other {
                StaticCombinator::QuoteName(x2) => *x1 == *x2,
                _ => false,
            },
            StaticCombinator::QuoteNum(n1) => match other {
                StaticCombinator::QuoteNum(n2) => *n1 == *n2,
                _ => false,
            },
            StaticCombinator::Snd => match other {
                StaticCombinator::Snd => true,
                _ => false,
            },
        }
    }
}

impl PartialEqSpecImpl for StaticCombinator {
    open spec fn obeys_eq_spec() -> bool {
        true
    }

    open spec fn eq_spec(&self, other: &StaticCombinator) -> bool {
        self@ == other@
    }
}

/// The name of the definition that is hoisted after `n` others.
fn fresh_name(prefix: &str, n: usize) -> (name: String)
    ensures
        name@ == lambda_name(prefix@, n as nat),
{
    let mut name = String::from_str(prefix);
    name.append("-lambda-");
    let number = decimal_string(n as u64);
    name.append(number.as_str());
    name
}

/// Frames `body` as the definition of the word `name`.
fn define(name: String, body: Vec<String>) -> (def: Vec<String>)
    ensures
        words_model(def@) == definition(name@, words_model(body@)),
{
    let mut body = body;
    let ghost inner = body@;
    let mut def = Vec::new();
    def.push(String::from_str(":"));
    def.push(name);
    def.append(&mut body);
    def.push(String::from_str(";"));
    assert(words_model(def@) =~= definition(name@, words_model(inner)));
    def
}

impl NamelessExpr {
    /// Compiles a `NamelessExpr` into a `StaticCombinator`.
    pub fn to_combinator(&self) -> (c: StaticCombinator)
        ensures
            c@ == self@.combinator(),
        decreases *self,
    {
        match self {
            NamelessExpr::App(l, r) => {
                let left = (&**l).to_combinator();
                let right = (&**r).to_combinator();
                let ghost both = SpecStaticCombinator::Pair(Box::new(left@), Box::new(right@));
                let pair = StaticCombinator::Pair(Box::new(left), Box::new(right));
                assert(pair@ == both);
                let app = StaticCombinator::App;
                assert(app@ == SpecStaticCombinator::App);
                StaticCombinator::Com(Box::new(app), Box::new(pair))
            },
            NamelessExpr::Lam(b) => StaticCombinator::Lam(Box::new((&**b).to_combinator())),
            NamelessExpr::Lit(n) => StaticCombinator::QuoteNum(*n),
            NamelessExpr::Nam(x) => StaticCombinator::QuoteName(x.clone()),
            NamelessExpr::Var(n) => {
                let mut c = StaticCombinator::Snd;
                let mut i: usize = 0;
                while i < *n
                    invariant
                        i <= *n,
                        c@ == projection(i as nat),
                    decreases *n - i,
                {
                    let fst = StaticCombinator::Fst;
                    assert(fst@ == SpecStaticCombinator::Fst);
                    c = StaticCombinator::Com(Box::new(c), Box::new(fst));
                    i += 1;
                }
                c
            },
        }
    }
}

/// A combinator hoists one definition for each of its `Λ`.
pub proof fn lemma_hoisted_len(c: SpecStaticCombinator, prefix: Seq<char>, base: nat)
    ensures
        c.hoisted(prefix, base).len() == c.lambdas(),
    decreases c,
{
    match c {
        SpecStaticCombinator::Com(l, r) => {
            lemma_hoisted_len(*r, prefix, base);
            lemma_hoisted_len(*l, prefix, base + r.lambdas());
        },
        SpecStaticCombinator::Lam(b) => {
            lemma_hoisted_len(*b, prefix, base);
        },
        SpecStaticCombinator::Pair(l, r) => {
            lemma_hoisted_len(*l, prefix, base);
            lemma_hoisted_len(*r, prefix, base + l.lambdas());
        },
        _ => {},
    }
}

/// The `i`-th definition that a combinator hoists is that of the `i`-th
/// name after `base`.
pub proof fn lemma_hoisted_name(c: SpecStaticCombinator, prefix: Seq<char>, base: nat, i: int)
    requires
        0 <= i < c.lambdas(),
    ensures
        c.hoisted(prefix, base).len() == c.lambdas(),
        c.hoisted(prefix, base)[i].len() >= 3,
        c.hoisted(prefix, base)[i][1] == lambda_name(prefix, (base + i) as nat),
    decreases c,
{
    lemma_hoisted_len(c, prefix, base);
    match c {
        SpecStaticCombinator::Com(l, r) => {
            lemma_hoisted_len(*r, prefix, base);
            if i < r.lambdas() {
                lemma_hoisted_name(*r, prefix, base, i);
            } else {
                lemma_hoisted_name(*l, prefix, base + r.lambdas(), i - r.lambdas());
            }
        },
        SpecStaticCombinator::Lam(b) => {
            lemma_hoisted_len(*b, prefix, base);
            if i < b.lambdas() {
                lemma_hoisted_name(*b, prefix, base, i);
            }
        },
        SpecStaticCombinator::Pair(l, r) => {
            lemma_hoisted_len(*l, prefix, base);
            if i < l.lambdas() {
                lemma_hoisted_name(*l, prefix, base, i);
            } else {
                lemma_hoisted_name(*r, prefix, base + l.lambdas(), i - l.lambdas());
            }
        },
        _ => {},
    }
}

/// Under one prefix, different numbers give different names.
pub proof fn lemma_lambda_name_injective(prefix: Seq<char>, m: nat, n: nat)
    requires
        lambda_name(prefix, m) == lambda_name(prefix, n),
    ensures
        m == n,
{
    let head = prefix + "-lambda-"@;
    let a = head + decimal(m);
    let b = head + decimal(n);
    assert(a.subrange(head.len() as int, a.len() as int) =~= decimal(m));
    assert(b.subrange(head.len() as int, b.len() as int) =~= decimal(n));
    lemma_decimal_injective(m, n);
}

/// No hoisted definition has the name of the main definition: the one ends
/// in a digit, the other in a letter.
pub proof fn lemma_lambda_name_is_not_main(prefix: Seq<char>, n: nat)
    ensures
        lambda_name(prefix, n) != main_name(prefix),
{
    lemma_decimal_ends_in_digit(n);
    reveal_strlit("-main");
    let tail = "-main"@;
    assert(tail.last() == 'n');
    assert(main_name(prefix).last() == tail.last());
    assert(lambda_name(prefix, n).last() == decimal(n).last());
}

/// No two definitions of the object code of a combinator have the same
/// name, the main definition included: each `Λ` gets a name of its own.
pub proof fn lemma_definition_names_distinct(
    c: SpecStaticCombinator,
    prefix: Seq<char>,
    i: int,
    j: int,
)
    requires
        0 <= i < c.program(prefix).len(),
        0 <= j < c.program(prefix).len(),
        i != j,
    ensures
        c.program(prefix).len() == c.lambdas() + 1,
        c.program(prefix)[i].len() >= 3,
        c.program(prefix)[j].len() >= 3,
        c.program(prefix)[i][1] != c.program(prefix)[j][1],
{
    lemma_hoisted_len(c, prefix, 0);
    if i < c.lambdas() {
        lemma_hoisted_name(c, prefix, 0, i);
        lemma_lambda_name_is_not_main(prefix, i as nat);
    }
    if j < c.lambdas() {
        lemma_hoisted_name(c, prefix, 0, j);
        lemma_lambda_name_is_not_main(prefix, j as nat);
    }
    if i < c.lambdas() && j < c.lambdas() && lambda_name(prefix, i as nat) == lambda_name(
        prefix,
        j as nat,
    ) {
        lemma_lambda_name_injective(prefix, i as nat, j as nat);
    }
}

/// Compiling is a function of the value of the expression: two expressions
/// of one value compile to combinators of one value.
pub proof fn lemma_compilation_deterministic(a: NamelessExpr, b: NamelessExpr)
    requires
        a@ == b@,
    ensures
        a@.combinator() == b@.combinator(),
{
}

} // verus!
