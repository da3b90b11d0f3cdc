//! Searching, comparing, cutting and joining text.

use vstd::prelude::*;

verus! {

/// The characters of `s`, one by one.
pub fn to_chars(s: &str) -> (chars: Vec<char>)
    ensures
        chars@ == s@,
{
    let mut chars: Vec<char> = Vec::new();
    for c in it: s.chars()
        invariant
            it.seq() == s@,
            chars@ == s@.take(it.index() as int),
    {
        chars.push(c);
    }
    chars
}

/// The bytes that an optional buffer holds.
pub open spec fn bytes_of(buffer: Option<Vec<u8>>) -> Option<Seq<u8>> {
    match buffer {
        Some(bytes) => Some(bytes@),
        None => None,
    }
}

/// `pattern` stands in `text` at position `at`.
pub open spec fn occurs_at(text: Seq<char>, at: int, pattern: Seq<char>) -> bool {
    &&& 0 <= at
    &&& at + pattern.len() <= text.len()
    &&& text.subrange(at, at + pattern.len()) == pattern
}

/// Whether `pattern` stands in `text` at position `at`.
pub fn has_at(text: &[char], at: usize, pattern: &[char]) -> (found: bool)
    ensures
        found == occurs_at(text@, at as int, pattern@),
{
    if at > text.len() || pattern.len() > text.len() - at {
        return false;
    }
    let mut i: usize = 0;
    while i < pattern.len()
        invariant
            at + pattern.len() <= text.len(),
            i <= pattern.len(),
            forall|j: int| 0 <= j < i ==> text@[at + j] == pattern@[j],
        decreases pattern.len() - i,
    {
        if text[at + i] != pattern[i] {
            assert(text@.subrange(at as int, at + pattern.len())[i as int] != pattern@[i as int]);
            return false;
        }
        i += 1;
    }
    assert(text@.subrange(at as int, at + pattern.len()) =~= pattern@);
    true
}

/// The last position between `lo` and `hi`, both included, at which
/// `pattern` stands in `text`.
pub fn find_last(text: &[char], pattern: &[char], lo: usize, hi: usize) -> (found: Option<usize>)
    ensures
        match found {
            Some(p) => {
                &&& lo <= p <= hi
                &&& occurs_at(text@, p as int, pattern@)
                &&& forall|q: int| p < q <= hi ==> !occurs_at(text@, q, pattern@)
            },
            None => forall|q: int| lo <= q <= hi ==> !occurs_at(text@, q, pattern@),
        },
{
    if lo > hi {
        return None;
    }
    let mut p: usize = hi;
    loop
        invariant
            lo <= p <= hi,
            forall|q: int| p < q <= hi ==> !occurs_at(text@, q, pattern@),
        decreases p - lo,
    {
        if has_at(text, p, pattern) {
            return Some(p);
        }
        if p == lo {
            return None;
        }
        p -= 1;
    }
}

/// The first position from `from` on at which `pattern` stands in `text`.
pub fn find_first(text: &[char], pattern: &[char], from: usize) -> (found: Option<usize>)
    ensures
        match found {
            Some(p) => {
                &&& from <= p
                &&& occurs_at(text@, p as int, pattern@)
                &&& forall|q: int| from <= q < p ==> !occurs_at(text@, q, pattern@)
            },
            None => forall|q: int| from <= q ==> !occurs_at(text@, q, pattern@),
        },
{
    if pattern.len() > text.len() {
        return None;
    }
    let last: usize = text.len() - pattern.len();
    let mut p: usize = from;
    while p <= last
        invariant
            from <= p,
            last == text.len() - pattern.len(),
            forall|q: int| from <= q < p ==> !occurs_at(text@, q, pattern@),
        decreases last + 1 - p,
    {
        if has_at(text, p, pattern) {
            return Some(p);
        }
        if p == last {
            return None;
        }
        p += 1;
    }
    None
}

/// The stretch of `text` from `from` up to `to` is `pattern`.
pub fn range_is(text: &[char], from: usize, to: usize, pattern: &[char]) -> (same: bool)
    requires
        from <= to <= text.len(),
    ensures
        same == (text@.subrange(from as int, to as int) == pattern@),
{
    if to - from != pattern.len() {
        assert(text@.subrange(from as int, to as int).len() != pattern@.len());
        return false;
    }
    has_at(text, from, pattern)
}

/// Whether two texts are the same.
pub fn same_text(a: &str, b: &str) -> (same: bool)
    ensures
        same == (a@ == b@),
{
    let a = to_chars(a);
    let b = to_chars(b);
    assert(a@.subrange(0, a@.len() as int) =~= a@);
    range_is(a.as_slice(), 0, a.len(), b.as_slice())
}

/// Owned copies of the parts of a list.
pub fn to_strings(parts: &[&str]) -> (owned: Vec<String>)
    ensures
        owned.deep_view() == parts.deep_view(),
{
    let mut owned: Vec<String> = Vec::new();
    let mut i: usize = 0;
    while i < parts.len()
        invariant
            i <= parts.len(),
            owned@.len() == i,
            forall|j: int| 0 <= j < i ==> owned@[j]@ == parts@[j]@,
        decreases parts.len() - i,
    {
        owned.push(parts[i].to_owned());
        i += 1;
    }
    assert(owned.deep_view() =~= parts.deep_view());
    owned
}

/// Whether `text` is one of `list`.
pub fn is_listed(list: &Vec<String>, text: &str) -> (listed: bool)
    ensures
        listed == list.deep_view().contains(text@),
{
    let mut i: usize = 0;
    while i < list.len()
        invariant
            i <= list.len(),
            forall|j: int| 0 <= j < i ==> list.deep_view()[j] != text@,
        decreases list.len() - i,
    {
        if same_text(list[i].as_str(), text) {
            assert(list.deep_view()[i as int] == text@);
            return true;
        }
        i += 1;
    }
    false
}

/// Whether the character `c` stands in `text`.
pub fn contains_char(text: &[char], c: char) -> (found: bool)
    ensures
        found == text@.contains(c),
{
    let mut i: usize = 0;
    while i < text.len()
        invariant
            i <= text.len(),
            forall|j: int| 0 <= j < i ==> text@[j] != c,
        decreases text.len() - i,
    {
        if text[i] == c {
            return true;
        }
        i += 1;
    }
    false
}

/// The parts of a list, with `separator` between each two neighbours.
pub open spec fn joined(parts: Seq<Seq<char>>, separator: Seq<char>) -> Seq<char>
    decreases parts.len(),
{
    if parts.len() == 0 {
        Seq::empty()
    } else if parts.len() == 1 {
        parts[0]
    } else {
        joined(parts.drop_last(), separator) + separator + parts.last()
    }
}

/// Joins the parts of a list with `separator` between them.
pub fn join(parts: &Vec<String>, separator: &str) -> (text: String)
    ensures
        text@ == joined(parts.deep_view(), separator@),
{
    let mut text = String::new();
    let mut i: usize = 0;
    while i < parts.len()
        invariant
            i <= parts.len(),
            text@ == joined(parts.deep_view().take(i as int), separator@),
        decreases parts.len() - i,
    {
        if i > 0 {
            text.append(separator);
        }
        text.append(parts[i].as_str());
        proof {
            let before = parts.deep_view().take(i as int);
            let now = parts.deep_view().take(i + 1);
            assert(now.drop_last() =~= before);
            assert(now.last() == parts@[i as int]@);
            if i == 0 {
                assert(text@ =~= now[0]);
            }
        }
        i += 1;
    }
    assert(parts.deep_view().take(parts.len() as int) =~= parts.deep_view());
    text
}

/// `text` with every occurrence of `pattern` replaced by `with`, the
/// occurrences being taken from the left and not overlapping. An empty
/// pattern occurs nowhere.
pub open spec fn replaced(text: Seq<char>, pattern: Seq<char>, with: Seq<char>) -> Seq<char>
    decreases text.len(),
{
    if pattern.len() == 0 || text.len() < pattern.len() {
        text
    } else if text.subrange(0, pattern.len() as int) == pattern {
        with + replaced(text.skip(pattern.len() as int), pattern, with)
    } else {
        seq![text[0]] + replaced(text.drop_first(), pattern, with)
    }
}

/// Up to the first occurrence of the pattern nothing is replaced.
pub proof fn lemma_replaced_up_to(
    text: Seq<char>,
    pattern: Seq<char>,
    with: Seq<char>,
    from: int,
    at: int,
)
    requires
        pattern.len() > 0,
        0 <= from <= at,
        occurs_at(text, at, pattern),
        forall|q: int| from <= q < at ==> !occurs_at(text, q, pattern),
    ensures
        replaced(text.skip(from), pattern, with) == text.subrange(from, at) + with + replaced(
            text.skip(at + pattern.len()),
            pattern,
            with,
        ),
    decreases at - from,
{
    let rest = text.skip(from);
    assert(rest.subrange(0, pattern.len() as int) =~= text.subrange(
        from,
        from + pattern.len(),
    ));
    if from == at {
        assert(rest.skip(pattern.len() as int) =~= text.skip(at + pattern.len()));
        assert(text.subrange(from, at) + with =~= with);
    } else {
        assert(!occurs_at(text, from, pattern));
        lemma_replaced_up_to(text, pattern, with, from + 1, at);
        assert(rest.drop_first() =~= text.skip(from + 1));
        assert(seq![rest[0]] + text.subrange(from + 1, at) =~= text.subrange(from, at));
        assert(seq![rest[0]] + (text.subrange(from + 1, at) + with + replaced(
            text.skip(at + pattern.len()),
            pattern,
            with,
        )) =~= text.subrange(from, at) + with + replaced(
            text.skip(at + pattern.len()),
            pattern,
            with,
        ));
    }
}

/// Where the pattern does not occur, nothing is replaced.
pub proof fn lemma_replaced_nothing(text: Seq<char>, pattern: Seq<char>, with: Seq<char>, from: int)
    requires
        0 <= from <= text.len(),
        forall|q: int| from <= q ==> !occurs_at(text, q, pattern),
    ensures
        replaced(text.skip(from), pattern, with) == text.skip(from),
    decreases text.len() - from,
{
    let rest = text.skip(from);
    if pattern.len() == 0 || rest.len() < pattern.len() {
    } else {
        assert(rest.subrange(0, pattern.len() as int) =~= text.subrange(
            from,
            from + pattern.len(),
        ));
        assert(!occurs_at(text, from, pattern));
        lemma_replaced_nothing(text, pattern, with, from + 1);
        assert(rest.drop_first() =~= text.skip(from + 1));
        assert(seq![rest[0]] + text.skip(from + 1) =~= rest);
    }
}

/// `text` with every occurrence of `pattern` replaced by `with`.
pub fn replace(text: &str, pattern: &str, with: &str) -> (result: String)
    ensures
        result@ == replaced(text@, pattern@, with@),
{
    let chars = to_chars(text);
    let sought = to_chars(pattern);
    let n = chars.len();
    if sought.len() == 0 {
        return text.to_owned();
    }
    let mut result = String::new();
    let mut i: usize = 0;
    assert(text@.skip(0) =~= text@);
    loop
        invariant
            i <= n,
            n == text@.len(),
            chars@ == text@,
            sought@ == pattern@,
            sought@.len() > 0,
            replaced(text@, pattern@, with@) == result@ + replaced(
                text@.skip(i as int),
                pattern@,
                with@,
            ),
        decreases n - i,
    {
        match find_first(chars.as_slice(), sought.as_slice(), i) {
            Some(at) => {
                proof {
                    lemma_replaced_up_to(text@, pattern@, with@, i as int, at as int);
                }
                let ghost before = result@;
                result.append(text.substring_char(i, at));
                result.append(with);
                assert(result@ =~= before + (text@.subrange(i as int, at as int) + with@));
                assert(before + (text@.subrange(i as int, at as int) + with@ + replaced(
                    text@.skip(at + pattern@.len()),
                    pattern@,
                    with@,
                )) =~= result@ + replaced(text@.skip(at + pattern@.len()), pattern@, with@));
                i = at + sought.len();
            },
            None => {
                proof {
                    lemma_replaced_nothing(text@, pattern@, with@, i as int);
                }
                result.append(text.substring_char(i, n));
                assert(text@.subrange(i as int, n as int) =~= text@.skip(i as int));
                return result;
            },
        }
    }
}

/// The first position from `from` on at which `pattern` stands in `text`.
pub open spec fn first_from(text: Seq<char>, pattern: Seq<char>, from: int) -> Option<int>
    decreases text.len() - from,
{
    if from < 0 || from + pattern.len() > text.len() {
        None
    } else if occurs_at(text, from, pattern) {
        Some(from)
    } else if from < text.len() {
        first_from(text, pattern, from + 1)
    } else {
        None
    }
}

/// The first position is the one at which the pattern stands and before
/// which it does not.
pub proof fn lemma_first_from(text: Seq<char>, pattern: Seq<char>, from: int, found: Option<int>)
    requires
        0 <= from,
        match found {
            Some(at) => from <= at && occurs_at(text, at, pattern) && forall|q: int|
                from <= q < at ==> !occurs_at(text, q, pattern),
            None => forall|q: int| from <= q ==> !occurs_at(text, q, pattern),
        },
    ensures
        first_from(text, pattern, from) == found,
    decreases text.len() - from,
{
    if from + pattern.len() > text.len() {
    } else if occurs_at(text, from, pattern) {
    } else if from >= text.len() {
        assert(text.subrange(from, from + pattern.len()) =~= pattern);
    } else {
        lemma_first_from(text, pattern, from + 1, found);
    }
}

/// Two texts, one after the other.
pub fn chained(first: &str, second: &str) -> (text: String)
    ensures
        text@ == first@ + second@,
{
    let mut text = first.to_owned();
    text.append(second);
    text
}

/// The parts into which the separator `separator` cuts `text`: one more
/// than it occurs, empty ones among them.
pub open spec fn split(text: Seq<char>, separator: char) -> Seq<Seq<char>>
    decreases text.len(),
{
    if text.len() == 0 {
        seq![Seq::empty()]
    } else {
        let before = split(text.drop_last(), separator);
        if text.last() == separator {
            before.push(Seq::empty())
        } else {
            before.drop_last().push(before.last().push(text.last()))
        }
    }
}

/// Cutting a text gives one part at least.
pub proof fn lemma_split_is_not_empty(text: Seq<char>, separator: char)
    ensures
        split(text, separator).len() >= 1,
    decreases text.len(),
{
    if text.len() > 0 {
        lemma_split_is_not_empty(text.drop_last(), separator);
    }
}

/// The parts into which a separator cuts a text, joined by that separator,
/// are the text.
pub proof fn lemma_joined_split(text: Seq<char>, separator: char)
    ensures
        joined(split(text, separator), seq![separator]) == text,
    decreases text.len(),
{
    let parts = split(text, separator);
    if text.len() == 0 {
        assert(parts[0] =~= text);
    } else {
        let before = split(text.drop_last(), separator);
        lemma_split_is_not_empty(text.drop_last(), separator);
        lemma_joined_split(text.drop_last(), separator);
        if text.last() == separator {
            assert(parts.drop_last() =~= before);
            assert(joined(before, seq![separator]) + seq![separator] + Seq::<char>::empty()
                =~= text);
        } else {
            let grown = before.last().push(text.last());
            assert(parts.last() == grown);
            if before.len() == 1 {
                assert(before.last() == before[0]);
                assert(parts[0] =~= text);
            } else {
                assert(parts.drop_last() =~= before.drop_last());
                assert(joined(before.drop_last(), seq![separator]) + seq![separator] + grown
                    =~= (joined(before.drop_last(), seq![separator]) + seq![separator]
                    + before.last()).push(text.last()));
                assert(text.drop_last().push(text.last()) =~= text);
            }
        }
    }
}

/// Cuts `text` at every occurrence of `separator`.
pub fn split_at_char<'a>(text: &'a str, separator: char) -> (parts: Vec<&'a str>)
    ensures
        parts.deep_view() == split(text@, separator),
        parts.len() >= 1,
{
    let chars = to_chars(text);
    let n = chars.len();
    let mut parts: Vec<&'a str> = Vec::new();
    let mut start: usize = 0;
    let mut i: usize = 0;
    assert(text@.take(0) =~= Seq::empty());
    assert(parts.deep_view().push(text@.subrange(0, 0)) =~= seq![Seq::empty()]);
    while i < n
        invariant
            start <= i <= n,
            n == text@.len(),
            chars@ == text@,
            split(text@.take(i as int), separator) == parts.deep_view().push(
                text@.subrange(start as int, i as int),
            ),
        decreases n - i,
    {
        let ghost before = split(text@.take(i as int), separator);
        proof {
            assert(text@.take(i + 1).drop_last() =~= text@.take(i as int));
            assert(text@.take(i + 1).last() == text@[i as int]);
            assert(before.drop_last() =~= parts.deep_view());
        }
        if chars[i] == separator {
            parts.push(text.substring_char(start, i));
            start = i + 1;
            proof {
                assert(parts.deep_view() =~= before);
                assert(text@.subrange(start as int, i + 1) =~= Seq::empty());
            }
        } else {
            assert(text@.subrange(start as int, i + 1) =~= text@.subrange(
                start as int,
                i as int,
            ).push(text@[i as int]));
        }
        i += 1;
    }
    assert(text@.take(n as int) =~= text@);
    let ghost old_parts = parts.deep_view();
    parts.push(text.substring_char(start, n));
    assert(parts.deep_view() =~= old_parts.push(text@.subrange(start as int, n as int)));
    parts
}

} // verus!
