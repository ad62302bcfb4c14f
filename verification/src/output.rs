//! The text of a compiled program.

use vstd::prelude::*;
use vstd::string::is_ascii;

use crate::ast::{Expr, SpecExpr, Type};
use crate::cam::{definitions_model, words_model};

verus! {

/// The words, with `sep` between each two of them.
pub open spec fn joined(words: Seq<Seq<char>>, sep: Seq<char>) -> Seq<char>
    decreases words.len(),
{
    if words.len() == 0 {
        seq![]
    } else if words.len() == 1 {
        words[0]
    } else {
        joined(words.drop_last(), sep) + sep + words.last()
    }
}

/// The definitions, one on each line, the words of each a space apart.
pub open spec fn lines(definitions: Seq<Seq<Seq<char>>>) -> Seq<char>
    decreases definitions.len(),
{
    if definitions.len() == 0 {
        seq![]
    } else {
        lines(definitions.drop_last()) + joined(definitions.last(), " "@) + "\n"@
    }
}

/// The text of a compiled program: the runtime's prelude, the source
/// expression and its type as comments, then the definitions.
pub open spec fn listing(
    prelude: Seq<char>,
    expr: SpecExpr,
    ty: Type,
    definitions: Seq<Seq<Seq<char>>>,
) -> Seq<char> {
    prelude + "\n"@ + "\\ expr = "@ + expr.display() + "\n\\ type = "@ + ty.display() + "\n"@
        + lines(definitions)
}

/// `itertools::join`: the text of the first item, then for each other item
/// the separator and the item's text. The crate reserves the separator's
/// length in bytes times the number of items left; a separator of at most
/// one byte keeps that product in range.
#[verifier::external_body]
fn join_words(words: &Vec<String>, sep: &str) -> (s: String)
    requires
        is_ascii(sep),
        sep@.len() <= 1,
    ensures
        s@ == joined(words_model(words@), sep@),
{
    itertools::join(words, sep)
}

/// Writes a compiled program out as text.
pub fn render(prelude: &str, expr: &Expr, ty: &Type, definitions: &Vec<Vec<String>>) -> (text:
    String)
    ensures
        text@ == listing(prelude@, expr@, *ty, definitions_model(definitions@)),
{
    let mut text = String::from_str(prelude);
    text.append("\n");
    text.append("\\ expr = ");
    let e = expr.to_string();
    text.append(e.as_str());
    text.append("\n\\ type = ");
    let t = ty.to_string();
    text.append(t.as_str());
    text.append("\n");
    let ghost head = text@;
    let ghost all = definitions_model(definitions@);
    proof {
        reveal_strlit(" ");
    }
    let mut i: usize = 0;
    assert(all.take(0) =~= seq![]);
    while i < definitions.len()
        invariant
            i <= definitions@.len(),
            all == definitions_model(definitions@),
            text@ == head + lines(all.take(i as int)),
            is_ascii(" "),
            " "@.len() == 1,
        decreases definitions@.len() - i,
    {
        let line = join_words(&definitions[i], " ");
        text.append(line.as_str());
        text.append("\n");
        proof {
            let next = all.take(i + 1);
            assert(next.drop_last() =~= all.take(i as int));
            assert(next.last() == words_model(definitions@[i as int]@));
            assert(text@ =~= head + lines(next));
        }
        i += 1;
    }
    assert(all.take(i as int) =~= all);
    text
}

} // verus!
