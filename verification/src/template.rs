//! Templates: placeholders for secrets, and what stands for them.

use vstd::prelude::*;
use crate::text::{
    chained, find_first, first_from, lemma_first_from, lemma_replaced_nothing, occurs_at, replace,
    replaced, to_chars,
};

verus! {

/// What a placeholder begins with.
pub open spec fn opening_mark() -> Seq<char> {
    "$$SECNIX::"@
}

/// What a placeholder ends with.
pub open spec fn closing_mark() -> Seq<char> {
    "::SECNIX$$"@
}

/// The mark that stands for the secret `name` in a template.
pub open spec fn placeholder(name: Seq<char>) -> Seq<char> {
    opening_mark() + name + closing_mark()
}

/// The names of the placeholders that stand in `text` from `from` on: each
/// is what stands between the beginning of a placeholder and the first end
/// of one after it, and the search goes on behind that end.
pub open spec fn placeholders_from(text: Seq<char>, from: int) -> Seq<Seq<char>>
    decreases text.len() - from,
{
    match first_from(text, opening_mark(), from) {
        None => Seq::empty(),
        Some(opening) => match first_from(text, closing_mark(), opening + opening_mark().len()) {
            None => Seq::empty(),
            Some(closing) => if from < closing + closing_mark().len() <= text.len() {
                seq![text.subrange(opening + opening_mark().len(), closing)] + placeholders_from(
                    text,
                    closing + closing_mark().len(),
                )
            } else {
                Seq::empty()
            },
        },
    }
}

/// The names of the placeholders that stand in `text`.
pub open spec fn placeholders_of(text: Seq<char>) -> Seq<Seq<char>> {
    placeholders_from(text, 0)
}

/// Lists the names of the placeholders that stand in `text`.
pub fn placeholders(text: &str) -> (names: Vec<String>)
    ensures
        names.deep_view() == placeholders_of(text@),
{
    proof {
        reveal_strlit("$$SECNIX::");
        reveal_strlit("::SECNIX$$");
    }
    let chars = to_chars(text);
    let begin = to_chars("$$SECNIX::");
    let end = to_chars("::SECNIX$$");
    let n = chars.len();
    let mut names: Vec<String> = Vec::new();
    let mut from: usize = 0;
    assert(names.deep_view() + placeholders_from(text@, 0) =~= placeholders_from(text@, 0));
    loop
        invariant
            from <= n,
            n == text@.len(),
            chars@ == text@,
            begin@ == opening_mark(),
            end@ == closing_mark(),
            begin@.len() == 10,
            end@.len() == 10,
            placeholders_of(text@) == names.deep_view() + placeholders_from(text@, from as int),
        decreases n - from,
    {
        let opening = match find_first(chars.as_slice(), begin.as_slice(), from) {
            Some(opening) => opening,
            None => {
                proof {
                    lemma_first_from(text@, opening_mark(), from as int, None);
                    assert(names.deep_view() + Seq::<Seq<char>>::empty() =~= names.deep_view());
                }
                return names;
            },
        };
        proof {
            lemma_first_from(text@, opening_mark(), from as int, Some(opening as int));
        }
        let closing = match find_first(chars.as_slice(), end.as_slice(), opening + 10) {
            Some(closing) => closing,
            None => {
                proof {
                    lemma_first_from(text@, closing_mark(), opening + 10, None);
                    assert(names.deep_view() + Seq::<Seq<char>>::empty() =~= names.deep_view());
                }
                return names;
            },
        };
        proof {
            lemma_first_from(text@, closing_mark(), opening + 10, Some(closing as int));
        }
        let ghost before = names.deep_view();
        names.push(text.substring_char(opening + 10, closing).to_owned());
        proof {
            let name = text@.subrange(opening + 10, closing as int);
            assert(names.deep_view() =~= before.push(name));
            assert(before + (seq![name] + placeholders_from(text@, closing + 10)) =~= names.deep_view()
                + placeholders_from(text@, closing + 10));
        }
        from = closing + 10;
    }
}

/// `table` with `text` standing for `name`: in the place of what stood for
/// that name before, or at the end.
pub open spec fn substitutions_with(
    table: Seq<(Seq<char>, Seq<char>)>,
    name: Seq<char>,
    text: Seq<char>,
) -> Seq<(Seq<char>, Seq<char>)>
    decreases table.len(),
{
    if table.len() == 0 {
        seq![(name, text)]
    } else if table[0].0 == name {
        seq![(name, text)] + table.drop_first()
    } else {
        seq![table[0]] + substitutions_with(table.drop_first(), name, text)
    }
}

/// `text` with the placeholders of the names in `table` replaced by what
/// stands for them, one name after the other in the order of the table.
pub open spec fn rendered(text: Seq<char>, table: Seq<(Seq<char>, Seq<char>)>) -> Seq<char>
    decreases table.len(),
{
    if table.len() == 0 {
        text
    } else {
        rendered(replaced(text, placeholder(table[0].0), table[0].1), table.drop_first())
    }
}

/// A text in which the placeholder of no name of the table stands is
/// rendered as it is.
pub proof fn lemma_rendered_without_placeholders(
    text: Seq<char>,
    table: Seq<(Seq<char>, Seq<char>)>,
)
    requires
        forall|i: int, at: int|
            0 <= i < table.len() ==> !#[trigger] occurs_at(text, at, placeholder(table[i].0)),
    ensures
        rendered(text, table) == text,
    decreases table.len(),
{
    if table.len() > 0 {
        let mark = placeholder(table[0].0);
        assert forall|q: int| 0 <= q implies !occurs_at(text, q, mark) by {
            assert(!occurs_at(text, q, placeholder(table[0].0)));
        }
        lemma_replaced_nothing(text, mark, table[0].1, 0);
        assert(text.skip(0) =~= text);
        assert forall|i: int, at: int| 0 <= i < table.drop_first().len() implies !#[trigger] occurs_at(
            text,
            at,
            placeholder(table.drop_first()[i].0),
        ) by {
            assert(table.drop_first()[i] == table[i + 1]);
            assert(!occurs_at(text, at, placeholder(table[i + 1].0)));
        }
        lemma_rendered_without_placeholders(text, table.drop_first());
    }
}

/// Renders a template.
pub fn render(text: &str, table: &Vec<(String, String)>) -> (result: String)
    ensures
        result@ == rendered(text@, table.deep_view()),
{
    let mut result = text.to_owned();
    let mut i: usize = 0;
    assert(table.deep_view().skip(0) =~= table.deep_view());
    while i < table.len()
        invariant
            i <= table.len(),
            rendered(text@, table.deep_view()) == rendered(result@, table.deep_view().skip(i as int)),
        decreases table.len() - i,
    {
        let mut mark = chained("$$SECNIX::", table[i].0.as_str());
        mark.append("::SECNIX$$");
        assert(mark@ =~= placeholder(table@[i as int].0@));
        proof {
            let rest = table.deep_view().skip(i as int);
            assert(rest[0] == (table@[i as int].0@, table@[i as int].1@));
            assert(rest.drop_first() =~= table.deep_view().skip(i + 1));
        }
        result = replace(result.as_str(), mark.as_str(), table[i].1.as_str());
        i += 1;
    }
    result
}

} // verus!
