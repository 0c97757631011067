//! Text: searching, splitting and trimming.
use crate::outside::lossy_text;
use vstd::prelude::*;

verus! {

/// The characters of each string of a list.
pub open spec fn views(list: Seq<String>) -> Seq<Seq<char>> {
    list.map_values(|s: String| s@)
}

/// The characters of each string of each list.
pub open spec fn lists_of_views(lists: Seq<Vec<String>>) -> Seq<Seq<Seq<char>>> {
    lists.map_values(|list: Vec<String>| views(list@))
}

/// The characters of a text, where there is one.
pub open spec fn opt_view(text: Option<&str>) -> Option<Seq<char>> {
    match text {
        Some(t) => Some(t@),
        None => None,
    }
}

/// The text in a row of bytes: what they encode where they are UTF-8, and what is made of them
/// otherwise.
pub open spec fn text_of(bytes: Seq<u8>) -> Seq<char> {
    if vstd::utf8::valid_utf8(bytes) {
        vstd::utf8::decode_utf8(bytes)
    } else {
        crate::outside::utf8_lossy(bytes)
    }
}

/// `part` occurs somewhere in `whole`.
pub open spec fn is_infix(part: Seq<char>, whole: Seq<char>) -> bool {
    exists|i: int|
        0 <= i <= whole.len() - part.len() && #[trigger] whole.subrange(i, i + part.len()) == part
}

/// An ASCII letter in lower case, any other character as it is.
pub open spec fn small(c: char) -> char {
    if 'A' <= c <= 'Z' {
        (c as int + 32) as char
    } else {
        c
    }
}

/// A text with its ASCII letters in lower case.
pub open spec fn in_small(s: Seq<char>) -> Seq<char> {
    s.map_values(|c: char| small(c))
}

/// The pieces of `s` between the characters that `sep` selects; one more than there are of
/// those, and empty where two of them meet.
pub open spec fn split(s: Seq<char>, sep: spec_fn(char) -> bool) -> Seq<Seq<char>>
    decreases s.len(),
{
    if s.len() == 0 {
        seq![Seq::<char>::empty()]
    } else {
        let before = split(s.drop_last(), sep);
        if sep(s.last()) {
            before.push(Seq::<char>::empty())
        } else {
            before.drop_last().push(before.last().push(s.last()))
        }
    }
}

/// The characters with Unicode's White_Space property.
pub open spec fn is_space(c: char) -> bool {
    ||| '\u{9}' <= c <= '\u{d}'
    ||| c == ' '
    ||| c == '\u{85}'
    ||| c == '\u{a0}'
    ||| c == '\u{1680}'
    ||| '\u{2000}' <= c <= '\u{200a}'
    ||| c == '\u{2028}'
    ||| c == '\u{2029}'
    ||| c == '\u{202f}'
    ||| c == '\u{205f}'
    ||| c == '\u{3000}'
}

/// The maximal runs of characters that are no white space, in order.
pub open spec fn words(s: Seq<char>) -> Seq<Seq<char>> {
    split(s, |c: char| is_space(c)).filter(|w: Seq<char>| w.len() > 0)
}

/// Reads a row of bytes as text.
pub fn text_from(bytes: &[u8]) -> (text: String)
    ensures
        text@ == text_of(bytes@),
{
    lossy_text(bytes)
}

/// The characters of a string, one by one.
pub fn chars_of(s: &str) -> (list: Vec<char>)
    ensures
        list@ == s@,
{
    let mut list: Vec<char> = Vec::new();
    for c in iter: s.chars()
        invariant
            iter.seq() == s@,
            list@ == s@.take(iter.index()),
    {
        list.push(c);
    }
    list
}

/// Whether two strings hold the same characters.
pub fn str_eq(a: &str, b: &str) -> (same: bool)
    ensures
        same == (a@ == b@),
{
    let x = chars_of(a);
    let y = chars_of(b);
    if x.len() != y.len() {
        return false;
    }
    for i in 0..x.len()
        invariant
            x.len() == y.len(),
            x@ == a@,
            y@ == b@,
            forall|j: int| 0 <= j < i ==> x@[j] == y@[j],
    {
        if x[i] != y[i] {
            return false;
        }
    }
    assert(a@ =~= b@);
    true
}

/// Whether `part` stands in `whole` at position `at`.
fn stands_at(whole: &Vec<char>, part: &Vec<char>, at: usize) -> (found: bool)
    requires
        at + part@.len() <= whole@.len(),
    ensures
        found == (whole@.subrange(at as int, at + part@.len()) == part@),
{
    for i in 0..part.len()
        invariant
            at + part.len() <= whole.len(),
            forall|j: int| 0 <= j < i ==> whole@[at + j] == part@[j],
    {
        if whole[at + i] != part[i] {
            assert(whole@.subrange(at as int, at + part@.len())[i as int] != part@[i as int]);
            return false;
        }
    }
    assert(whole@.subrange(at as int, at + part@.len()) =~= part@);
    true
}

/// Whether a text begins with a given one.
pub fn starts_with(whole: &str, part: &str) -> (found: bool)
    ensures
        found == part@.is_prefix_of(whole@),
{
    let w = chars_of(whole);
    let p = chars_of(part);
    w.len() >= p.len() && stands_at(&w, &p, 0)
}

/// Whether a text holds a given one.
pub fn contains(whole: &str, part: &str) -> (found: bool)
    ensures
        found == is_infix(part@, whole@),
{
    let w = chars_of(whole);
    let p = chars_of(part);
    if w.len() < p.len() {
        return false;
    }
    let last: usize = w.len() - p.len();
    if stands_at(&w, &p, last) {
        return true;
    }
    for at in 0..last
        invariant
            w@ == whole@,
            p@ == part@,
            last == w.len() - p.len(),
            whole@.subrange(last as int, last + part@.len()) != part@,
            forall|i: int|
                0 <= i < at ==> #[trigger] whole@.subrange(i, i + part@.len()) != part@,
    {
        if stands_at(&w, &p, at) {
            return true;
        }
    }
    false
}

/// Whether a character is white space.
pub fn is_whitespace(c: char) -> (space: bool)
    ensures
        space == is_space(c),
{
    ('\u{9}' <= c && c <= '\u{d}') || c == ' ' || c == '\u{85}' || c == '\u{a0}' || c == '\u{1680}'
        || ('\u{2000}' <= c && c <= '\u{200a}') || c == '\u{2028}' || c == '\u{2029}' || c
        == '\u{202f}' || c == '\u{205f}' || c == '\u{3000}'
}

pub proof fn lemma_split_nonempty(s: Seq<char>, sep: spec_fn(char) -> bool)
    ensures
        split(s, sep).len() > 0,
    decreases s.len(),
{
    if s.len() > 0 {
        lemma_split_nonempty(s.drop_last(), sep);
    }
}

/// Reading one character further: a separator closes the last piece and opens an empty one,
/// any other character goes to the last piece.
pub proof fn lemma_split_step(s: Seq<char>, sep: spec_fn(char) -> bool, i: int)
    requires
        0 <= i < s.len(),
    ensures
        split(s.take(i + 1), sep) == (if sep(s[i]) {
            split(s.take(i), sep).push(Seq::<char>::empty())
        } else {
            split(s.take(i), sep).drop_last().push(split(s.take(i), sep).last().push(s[i]))
        }),
{
    assert(s.take(i + 1).drop_last() =~= s.take(i));
    assert(s.take(i + 1).last() == s[i]);
}

pub proof fn lemma_filter_push<A>(list: Seq<A>, item: A, keep: spec_fn(A) -> bool)
    ensures
        list.push(item).filter(keep) == (if keep(item) {
            list.filter(keep).push(item)
        } else {
            list.filter(keep)
        }),
{
    reveal(Seq::filter);
    assert(list.push(item).drop_last() =~= list);
}

pub proof fn lemma_views_push(list: Seq<String>, item: String)
    ensures
        views(list.push(item)) == views(list).push(item@),
{
    assert(views(list.push(item)) =~= views(list).push(item@));
}

/// The words of a text: what `str::split_whitespace` walks over.
pub fn split_whitespace(s: &str) -> (list: Vec<String>)
    ensures
        views(list@) == words(s@),
{
    let cs = chars_of(s);
    let ghost sep = |c: char| is_space(c);
    let ghost keep = |w: Seq<char>| w.len() > 0;
    let mut list: Vec<String> = Vec::new();
    let mut start: usize = 0;
    let ghost mut closed: Seq<Seq<char>> = Seq::empty();
    proof {
        reveal(Seq::filter);
        assert(cs@.take(0) =~= Seq::<char>::empty());
        assert(split(cs@.take(0), sep) =~= closed.push(cs@.subrange(0, 0)));
        assert(views(list@) =~= closed.filter(keep));
    }
    for i in 0..cs.len()
        invariant
            cs@ == s@,
            sep == (|c: char| is_space(c)),
            keep == (|w: Seq<char>| w.len() > 0),
            start <= i <= cs.len(),
            split(cs@.take(i as int), sep) == closed.push(cs@.subrange(start as int, i as int)),
            views(list@) == closed.filter(keep),
    {
        let ghost piece = cs@.subrange(start as int, i as int);
        proof {
            lemma_split_step(cs@, sep, i as int);
            assert(closed.push(piece).drop_last() =~= closed);
            assert(cs@.subrange(i + 1, i + 1) =~= Seq::<char>::empty());
            assert(piece.push(cs@[i as int]) =~= cs@.subrange(start as int, i + 1));
            lemma_filter_push(closed, piece, keep);
        }
        if is_whitespace(cs[i]) {
            if start < i {
                let word = s.substring_char(start, i).to_owned();
                proof {
                    lemma_views_push(list@, word);
                }
                list.push(word);
            }
            proof {
                closed = closed.push(piece);
            }
            start = i + 1;
        }
    }
    let ghost piece = cs@.subrange(start as int, cs@.len() as int);
    proof {
        assert(cs@.take(cs@.len() as int) =~= cs@);
        lemma_filter_push(closed, piece, keep);
    }
    if start < cs.len() {
        let word = s.substring_char(start, cs.len()).to_owned();
        proof {
            lemma_views_push(list@, word);
        }
        list.push(word);
    }
    list
}

/// The pieces of a text between the occurrences of one character.
pub fn split_on(s: &str, at: char) -> (list: Vec<String>)
    ensures
        views(list@) == split(s@, |c: char| c == at),
{
    let cs = chars_of(s);
    let ghost sep = |c: char| c == at;
    let mut list: Vec<String> = Vec::new();
    let mut start: usize = 0;
    proof {
        assert(cs@.take(0) =~= Seq::<char>::empty());
        assert(split(cs@.take(0), sep) =~= views(list@).push(cs@.subrange(0, 0)));
    }
    for i in 0..cs.len()
        invariant
            cs@ == s@,
            sep == (|c: char| c == at),
            start <= i <= cs.len(),
            split(cs@.take(i as int), sep) == views(list@).push(
                cs@.subrange(start as int, i as int),
            ),
    {
        let ghost piece = cs@.subrange(start as int, i as int);
        proof {
            lemma_split_step(cs@, sep, i as int);
            assert(views(list@).push(piece).drop_last() =~= views(list@));
            assert(cs@.subrange(i + 1, i + 1) =~= Seq::<char>::empty());
            assert(piece.push(cs@[i as int]) =~= cs@.subrange(start as int, i + 1));
        }
        if cs[i] == at {
            let part = s.substring_char(start, i).to_owned();
            proof {
                lemma_views_push(list@, part);
            }
            list.push(part);
            start = i + 1;
        }
    }
    let part = s.substring_char(start, cs.len()).to_owned();
    proof {
        assert(cs@.take(cs@.len() as int) =~= cs@);
        lemma_views_push(list@, part);
    }
    list.push(part);
    list
}

/// The first line of a text, without the `\n` or `\r\n` that ends it.
pub open spec fn first_line_of(s: Seq<char>) -> Seq<char> {
    let line = split(s, |c: char| c == '\n')[0];
    if line.len() < s.len() && line.len() > 0 && line.last() == '\r' {
        line.drop_last()
    } else {
        line
    }
}

/// `s` without the white space at its start.
pub open spec fn trim_start(s: Seq<char>) -> Seq<char>
    decreases s.len(),
{
    if s.len() > 0 && is_space(s[0]) {
        trim_start(s.drop_first())
    } else {
        s
    }
}

/// `s` without the white space at its end.
pub open spec fn trim_end(s: Seq<char>) -> Seq<char>
    decreases s.len(),
{
    if s.len() > 0 && is_space(s.last()) {
        trim_end(s.drop_last())
    } else {
        s
    }
}

/// A text without the white space at its two ends: what `str::trim` gives.
pub fn trim(s: &str) -> (r: &str)
    ensures
        r@ == trim_end(trim_start(s@)),
{
    let cs = chars_of(s);
    let mut from: usize = 0;
    assert(s@.subrange(0, s@.len() as int) =~= s@);
    while from < cs.len() && is_whitespace(cs[from])
        invariant
            cs@ == s@,
            from <= cs.len(),
            trim_start(s@) == trim_start(s@.subrange(from as int, s@.len() as int)),
        decreases cs.len() - from,
    {
        assert(s@.subrange(from as int, s@.len() as int).drop_first() =~= s@.subrange(
            from + 1,
            s@.len() as int,
        ));
        from = from + 1;
    }
    let ghost rest = s@.subrange(from as int, s@.len() as int);
    let mut to: usize = cs.len();
    while from < to && is_whitespace(cs[to - 1])
        invariant
            cs@ == s@,
            from <= to <= cs.len(),
            trim_end(rest) == trim_end(s@.subrange(from as int, to as int)),
        decreases to,
    {
        assert(s@.subrange(from as int, to as int).drop_last() =~= s@.subrange(
            from as int,
            to - 1,
        ));
        to = to - 1;
    }
    s.substring_char(from, to)
}

/// The first line of a text: what `str::lines` gives first, or nothing where the text is empty.
pub fn first_line(s: &str) -> (r: &str)
    ensures
        r@ == first_line_of(s@),
{
    let cs = chars_of(s);
    let ghost sep = |c: char| c == '\n';
    let mut end: usize = 0;
    assert(s@.take(0) =~= Seq::<char>::empty());
    assert(split(s@.take(0), sep)[0] =~= s@.take(0));
    while end < cs.len() && cs[end] != '\n'
        invariant
            cs@ == s@,
            sep == (|c: char| c == '\n'),
            end <= cs.len(),
            split(s@.take(end as int), sep) == seq![s@.take(end as int)],
        decreases cs.len() - end,
    {
        proof {
            lemma_split_step(s@, sep, end as int);
            let one = seq![s@.take(end as int)];
            assert(s@.take(end as int).push(s@[end as int]) =~= s@.take(end + 1));
            assert(one.drop_last().push(s@.take(end + 1)) =~= seq![s@.take(end + 1)]);
        }
        end = end + 1;
    }
    proof {
        if end < s@.len() {
            lemma_split_step(s@, sep, end as int);
            assert(split(s@.take(end + 1), sep)[0] == s@.take(end as int));
            lemma_split_first(s@, sep, end + 1);
        } else {
            assert(s@.take(end as int) =~= s@);
        }
    }
    if end < cs.len() && end > 0 && cs[end - 1] == '\r' {
        assert(s@.take(end as int).drop_last() =~= s@.subrange(0, end - 1));
        s.substring_char(0, end - 1)
    } else {
        assert(s@.take(end as int) =~= s@.subrange(0, end as int));
        s.substring_char(0, end)
    }
}

/// Once a separator has been read, the first piece stays as it is.
proof fn lemma_split_first(s: Seq<char>, sep: spec_fn(char) -> bool, i: int)
    requires
        0 <= i <= s.len(),
        split(s.take(i), sep).len() >= 2,
    ensures
        split(s, sep)[0] == split(s.take(i), sep)[0],
        split(s, sep).len() >= 2,
    decreases s.len() - i,
{
    if i == s.len() {
        assert(s.take(i) =~= s);
    } else {
        lemma_split_step(s, sep, i);
        lemma_split_first(s, sep, i + 1);
    }
}

/// `part` occurs in `whole` exactly where something before it and something behind it make up
/// `whole`.
pub proof fn law_infix(part: Seq<char>, whole: Seq<char>)
    ensures
        is_infix(part, whole) <==> exists|before: Seq<char>, behind: Seq<char>|
            whole == #[trigger] (before + part + behind),
{
    if is_infix(part, whole) {
        let i = choose|i: int|
            0 <= i <= whole.len() - part.len() && #[trigger] whole.subrange(i, i + part.len())
                == part;
        let before = whole.take(i);
        let behind = whole.skip(i + part.len());
        assert(whole =~= before + part + behind);
    }
    if exists|before: Seq<char>, behind: Seq<char>| whole == #[trigger] (before + part + behind) {
        let (before, behind) = choose|before: Seq<char>, behind: Seq<char>|
            whole == #[trigger] (before + part + behind);
        let i = before.len() as int;
        assert(whole.subrange(i, i + part.len()) =~= part);
    }
}

/// The first separator of a text ends its first piece; what follows is split by itself. A text
/// without a separator is one piece.
pub proof fn law_split_at_first(
    a: Seq<char>,
    c: char,
    b: Seq<char>,
    sep: spec_fn(char) -> bool,
)
    requires
        forall|i: int| 0 <= i < a.len() ==> !sep(#[trigger] a[i]),
        sep(c),
    ensures
        split(a, sep) == seq![a],
        split(a.push(c) + b, sep) == seq![a] + split(b, sep),
    decreases b.len(),
{
    lemma_split_none(a, sep);
    let x = a.push(c);
    if b.len() == 0 {
        assert(x + b =~= x);
        assert(x.drop_last() =~= a);
        assert(split(x, sep) =~= seq![a] + split(b, sep));
    } else {
        let front = b.drop_last();
        law_split_at_first(a, c, front, sep);
        lemma_split_nonempty(front, sep);
        assert((x + b).drop_last() =~= x + front);
        assert((x + b).last() == b.last());
        let s = split(front, sep);
        if sep(b.last()) {
            assert((seq![a] + s).push(Seq::<char>::empty()) =~= seq![a] + s.push(
                Seq::<char>::empty(),
            ));
        } else {
            assert((seq![a] + s).last() == s.last());
            let l = s.last().push(b.last());
            assert((seq![a] + s).drop_last().push(l) =~= seq![a] + s.drop_last().push(l));
        }
    }
}

proof fn lemma_split_none(a: Seq<char>, sep: spec_fn(char) -> bool)
    requires
        forall|i: int| 0 <= i < a.len() ==> !sep(#[trigger] a[i]),
    ensures
        split(a, sep) == seq![a],
    decreases a.len(),
{
    if a.len() == 0 {
        assert(a =~= Seq::<char>::empty());
    } else {
        let front = a.drop_last();
        assert(forall|i: int| 0 <= i < front.len() ==> #[trigger] front[i] == a[i]);
        lemma_split_none(front, sep);
        assert(front.push(a.last()) =~= a);
        assert(seq![front].drop_last().push(a) =~= seq![a]);
    }
}

/// The last separator of a text begins its last piece; what stands before it is split by itself.
pub proof fn law_split_at_last(
    a: Seq<char>,
    c: char,
    b: Seq<char>,
    sep: spec_fn(char) -> bool,
)
    requires
        forall|i: int| 0 <= i < b.len() ==> !sep(#[trigger] b[i]),
        sep(c),
    ensures
        split(a.push(c) + b, sep) == split(a, sep).push(b),
    decreases b.len(),
{
    let x = a.push(c);
    if b.len() == 0 {
        assert(x + b =~= x);
        assert(x.drop_last() =~= a);
        assert(b =~= Seq::<char>::empty());
    } else {
        let front = b.drop_last();
        assert(forall|i: int| 0 <= i < front.len() ==> #[trigger] front[i] == b[i]);
        law_split_at_last(a, c, front, sep);
        assert((x + b).drop_last() =~= x + front);
        assert((x + b).last() == b[b.len() - 1]);
        assert(front.push(b.last()) =~= b);
        assert(split(a, sep).push(front).drop_last().push(b) =~= split(a, sep).push(b));
    }
}

/// White space ends a word and is not part of any; what stands before the first white space is a
/// word unless it is empty.
pub proof fn law_words(a: Seq<char>, c: char, b: Seq<char>)
    requires
        forall|i: int| 0 <= i < a.len() ==> !is_space(#[trigger] a[i]),
        is_space(c),
    ensures
        words(a) == (if a.len() > 0 {
            seq![a]
        } else {
            Seq::<Seq<char>>::empty()
        }),
        words(a.push(c) + b) == (if a.len() > 0 {
            seq![a] + words(b)
        } else {
            words(b)
        }),
{
    let sep = |c: char| is_space(c);
    let keep = |w: Seq<char>| w.len() > 0;
    law_split_at_first(a, c, b, sep);
    Seq::filter_distributes_over_add(seq![a], split(b, sep), keep);
    reveal(Seq::filter);
    let none = Seq::<Seq<char>>::empty();
    lemma_filter_push(none, a, keep);
    assert(none.push(a) =~= seq![a]);
    assert(none + words(b) =~= words(b));
}

/// A line ends at the first line feed, and a carriage return right before that is not part of it. A
/// text without a line feed is one line.
pub proof fn law_first_line(a: Seq<char>, b: Seq<char>)
    requires
        !a.contains('\n'),
    ensures
        first_line_of(a) == a,
        first_line_of(a.push('\n') + b) == (if a.len() > 0 && a.last() == '\r' {
            a.drop_last()
        } else {
            a
        }),
{
    let sep = |c: char| c == '\n';
    assert(forall|i: int| 0 <= i < a.len() ==> a.contains(#[trigger] a[i]));
    law_split_at_first(a, '\n', b, sep);
}

/// A text without the white space at its two ends.
pub open spec fn trimmed(s: Seq<char>) -> Seq<char> {
    trim_end(trim_start(s))
}

proof fn lemma_trim_start_push(s: Seq<char>, c: char)
    requires
        is_space(c),
    ensures
        trim_start(s.push(c)) == (if trim_start(s).len() == 0 {
            Seq::<char>::empty()
        } else {
            trim_start(s).push(c)
        }),
    decreases s.len(),
{
    reveal_with_fuel(trim_start, 2);
    if s.len() == 0 {
        assert(s.push(c).drop_first() =~= Seq::<char>::empty());
    } else if is_space(s[0]) {
        lemma_trim_start_push(s.drop_first(), c);
        assert(s.push(c).drop_first() =~= s.drop_first().push(c));
    }
}

/// White space before or behind a text makes no difference to what is left of it, and a text with
/// none at its ends is left as it is.
pub proof fn law_trim(before: Seq<char>, s: Seq<char>, behind: Seq<char>)
    requires
        forall|i: int| 0 <= i < before.len() ==> is_space(#[trigger] before[i]),
        forall|i: int| 0 <= i < behind.len() ==> is_space(#[trigger] behind[i]),
    ensures
        trimmed(before + s + behind) == trimmed(s),
        s.len() == 0 ==> trimmed(s) == s,
        s.len() > 0 && !is_space(s[0]) && !is_space(s.last()) ==> trimmed(s) == s,
    decreases before.len() + behind.len(),
{
    if before.len() > 0 {
        let whole = before + s + behind;
        let rest = before.drop_first();
        assert(forall|i: int| 0 <= i < rest.len() ==> #[trigger] rest[i] == before[i + 1]);
        law_trim(rest, s, behind);
        assert(whole[0] == before[0]);
        assert(whole.drop_first() =~= rest + s + behind);
    } else if behind.len() > 0 {
        let c = behind.last();
        let front = behind.drop_last();
        assert(forall|i: int| 0 <= i < front.len() ==> #[trigger] front[i] == behind[i]);
        assert(is_space(behind[behind.len() - 1]));
        law_trim(before, s, front);
        let x = before + s + front;
        assert(before + s + behind =~= x.push(c));
        lemma_trim_start_push(x, c);
        let t = trim_start(x);
        if t.len() > 0 {
            assert(t.push(c).drop_last() =~= t);
        } else {
            assert(t =~= Seq::<char>::empty());
        }
    } else {
        assert(before + s + behind =~= s);
    }
}

/// These are the characters that count as white space.
pub proof fn law_white_space(c: char)
    ensures
        is_space(c) <==> set![
            0x9int,
            0xa,
            0xb,
            0xc,
            0xd,
            0x20,
            0x85,
            0xa0,
            0x1680,
            0x2000,
            0x2001,
            0x2002,
            0x2003,
            0x2004,
            0x2005,
            0x2006,
            0x2007,
            0x2008,
            0x2009,
            0x200a,
            0x2028,
            0x2029,
            0x202f,
            0x205f,
            0x3000,
        ].contains(c as int),
{
}

/// Text in lower case: upper case ASCII letters are exchanged for those 32 places further on, and
/// nothing else is.
pub proof fn law_in_small(s: Seq<char>, i: int)
    requires
        0 <= i < s.len(),
    ensures
        in_small(s).len() == s.len(),
        65 <= s[i] as int <= 90 ==> in_small(s)[i] as int == s[i] as int + 32,
        !(65 <= s[i] as int <= 90) ==> in_small(s)[i] == s[i],
{
}

/// Bytes that encode no text are read as what the lossy conversion makes of them.
pub proof fn law_other_bytes_are_read(bytes: Seq<u8>)
    requires
        !vstd::utf8::valid_utf8(bytes),
    ensures
        text_of(bytes) == crate::outside::utf8_lossy(bytes),
{
}

/// Bytes that encode a text in UTF-8 are read as that text.
pub proof fn law_utf8_text_is_read(s: Seq<char>)
    ensures
        text_of(vstd::utf8::encode_utf8(s)) == s,
{
    broadcast use {vstd::utf8::encode_utf8_valid_utf8, vstd::utf8::encode_utf8_decode_utf8};

}

} // verus!
