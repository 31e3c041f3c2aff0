//! Text as sequences of characters: splitting, trimming and decimal numbers.

use vstd::prelude::*;
use vstd::string::*;
use vstd::utf8::{decode_utf8, valid_utf8};

verus! {

/// `String::push` appends one character.
pub assume_specification[ String::push ](s: &mut String, c: char)
    ensures
        final(s)@ == old(s)@.push(c),
;

/// What `String::from_utf8` says of bytes that are no UTF-8.
pub uninterp spec fn utf8_complaint(bytes: Seq<u8>) -> Seq<char>;

/// Calls `String::from_utf8`; an error is returned as its text.
///
/// Claimed of it: it succeeds exactly on valid UTF-8, the string it returns holds
/// the characters that the bytes encode, and the text of an error depends on the
/// bytes alone.
#[verifier::external_body]
pub(crate) fn utf8_string(bytes: Vec<u8>) -> (r: Result<String, String>)
    ensures
        r is Ok <==> valid_utf8(bytes@),
        r matches Ok(s) ==> s@ == decode_utf8(bytes@),
        r matches Err(why) ==> why@ == utf8_complaint(bytes@),
{
    String::from_utf8(bytes).map_err(|e| e.to_string())
}

/// The characters of each piece of a list of texts.
pub open spec fn texts(pieces: Seq<Vec<char>>) -> Seq<Seq<char>> {
    pieces.map_values(|p: Vec<char>| p@)
}

/// The characters of each string of a list.
pub open spec fn strings(list: Seq<String>) -> Seq<Seq<char>> {
    list.map_values(|s: String| s@)
}

/// The characters of `s`.
pub(crate) fn chars_of(s: &str) -> (r: Vec<char>)
    ensures
        r@ == s@,
{
    let mut r: Vec<char> = Vec::new();
    for c in it: s.chars()
        invariant
            r@ == it.seq().take(it.index() as int),
    {
        r.push(c);
        assert(it.seq().take(it.index() + 1) =~= it.seq().take(it.index() as int).push(c));
    }
    assert(r@ =~= s@);
    r
}

/// The string that holds the characters of `s`.
pub(crate) fn string_of(s: &[char]) -> (r: String)
    ensures
        r@ == s@,
{
    let mut r = String::new();
    let mut i: usize = 0;
    while i < s.len()
        invariant
            0 <= i <= s@.len(),
            r@ == s@.take(i as int),
        decreases s@.len() - i,
    {
        r.push(s[i]);
        assert(s@.take(i + 1) =~= s@.take(i as int).push(s@[i as int]));
        i += 1;
    }
    assert(s@.take(i as int) =~= s@);
    r
}

/// Whether two texts hold the same characters.
pub(crate) fn same_text(a: &[char], b: &[char]) -> (r: bool)
    ensures
        r == (a@ == b@),
{
    if a.len() != b.len() {
        return false;
    }
    let mut i: usize = 0;
    while i < a.len()
        invariant
            0 <= i <= a@.len(),
            a@.len() == b@.len(),
            forall|j: int| 0 <= j < i ==> a@[j] == b@[j],
        decreases a@.len() - i,
    {
        if a[i] != b[i] {
            return false;
        }
        i += 1;
    }
    assert(a@ =~= b@);
    true
}

/// Whether two strings hold the same characters.
pub(crate) fn same_str(a: &str, b: &str) -> (r: bool)
    ensures
        r == (a@ == b@),
{
    same_text(chars_of(a).as_slice(), chars_of(b).as_slice())
}

/// A copy of a list of strings.
pub(crate) fn copied(list: &Vec<String>) -> (r: Vec<String>)
    ensures
        strings(r@) == strings(list@),
{
    let mut r: Vec<String> = Vec::new();
    let mut i: usize = 0;
    while i < list.len()
        invariant
            0 <= i <= list@.len(),
            r@.len() == i,
            forall|j: int| 0 <= j < i ==> (#[trigger] r@[j])@ == list@[j]@,
        decreases list@.len() - i,
    {
        r.push(list[i].clone());
        i += 1;
    }
    assert(strings(r@) =~= strings(list@));
    r
}

/// What a string looks like in quotes, special characters escaped.
pub uninterp spec fn quoted_text(s: Seq<char>) -> Seq<char>;

/// Formats a string with `{:?}`, the `Debug` format of `str`.
///
/// Claimed of it: the text depends on the characters of the string alone.
#[verifier::external_body]
pub(crate) fn quoted(s: &str) -> (r: String)
    ensures
        r@ == quoted_text(s@),
{
    format!("{:?}", s)
}

/// `a` followed by `b`.
pub(crate) fn joined(a: &str, b: &str) -> (r: String)
    ensures
        r@ == a@ + b@,
{
    let mut r = a.to_owned();
    r.append(b);
    r
}

/// Unicode white space.
pub open spec fn is_space(c: char) -> bool {
    let n = c as u32;
    ||| 9 <= n <= 13
    ||| n == 0x20
    ||| n == 0x85
    ||| n == 0xa0
    ||| n == 0x1680
    ||| 0x2000 <= n <= 0x200a
    ||| n == 0x2028
    ||| n == 0x2029
    ||| n == 0x202f
    ||| n == 0x205f
    ||| n == 0x3000
}

pub(crate) fn space(c: char) -> (r: bool)
    ensures
        r == is_space(c),
{
    let n: u32 = c as u32;
    (9 <= n && n <= 13) || n == 0x20 || n == 0x85 || n == 0xa0 || n == 0x1680 || (0x2000 <= n && n
        <= 0x200a) || n == 0x2028 || n == 0x2029 || n == 0x202f || n == 0x205f || n == 0x3000
}

/// `s` without leading white space.
pub open spec fn trim_start(s: Seq<char>) -> Seq<char>
    decreases s.len(),
{
    if s.len() > 0 && is_space(s[0]) {
        trim_start(s.skip(1))
    } else {
        s
    }
}

/// `s` without trailing white space.
pub open spec fn trim_end(s: Seq<char>) -> Seq<char>
    decreases s.len(),
{
    if s.len() > 0 && is_space(s.last()) {
        trim_end(s.drop_last())
    } else {
        s
    }
}

/// `s` without leading and trailing white space.
pub open spec fn trim(s: Seq<char>) -> Seq<char> {
    trim_end(trim_start(s))
}

/// The part of `s` that is left after trimming white space on both sides.
pub(crate) fn trimmed(s: &[char]) -> (r: &[char])
    ensures
        r@ == trim(s@),
{
    let mut from: usize = 0;
    assert(s@.skip(0) =~= s@);
    while from < s.len() && space(s[from])
        invariant
            0 <= from <= s@.len(),
            trim_start(s@) == trim_start(s@.skip(from as int)),
        decreases s@.len() - from,
    {
        assert(s@.skip(from as int).skip(1) =~= s@.skip(from + 1));
        from += 1;
    }
    let mut to: usize = s.len();
    let ghost rest = s@.skip(from as int);
    assert(trim_start(s@) == rest);
    assert(rest =~= s@.subrange(from as int, to as int));
    while from < to && space(s[to - 1])
        invariant
            from <= to <= s@.len(),
            trim_end(rest) == trim_end(s@.subrange(from as int, to as int)),
        decreases to - from,
    {
        assert(s@.subrange(from as int, to as int).drop_last() =~= s@.subrange(
            from as int,
            to - 1,
        ));
        to -= 1;
    }
    &s[from..to]
}

/// What separates pieces of text.
#[derive(Clone, Copy)]
enum Separator {
    /// One given character.
    One(char),
    /// Any white space.
    Space,
}

impl Separator {
    spec fn spec_matches(self, c: char) -> bool {
        match self {
            Separator::One(x) => c == x,
            Separator::Space => is_space(c),
        }
    }

    fn matches(self, c: char) -> (r: bool)
        ensures
            r == self.spec_matches(c),
    {
        match self {
            Separator::One(x) => c == x,
            Separator::Space => space(c),
        }
    }
}

/// The pieces of `s` between the characters for which `sep` holds. There is one
/// piece more than there are such characters.
pub open spec fn split_where(s: Seq<char>, sep: spec_fn(char) -> bool) -> Seq<Seq<char>>
    decreases s.len(),
{
    if s.len() == 0 {
        seq![Seq::empty()]
    } else {
        let before = split_where(s.drop_last(), sep);
        if sep(s.last()) {
            before.push(Seq::empty())
        } else {
            before.drop_last().push(before.last().push(s.last()))
        }
    }
}

/// Being the character `sep`.
pub open spec fn is_char(sep: char) -> spec_fn(char) -> bool {
    |c: char| c == sep
}

/// The pieces of `s` between occurrences of `sep`.
pub open spec fn split_on(s: Seq<char>, sep: char) -> Seq<Seq<char>> {
    split_where(s, is_char(sep))
}

/// The words of `s`: its non-empty pieces between white space.
pub open spec fn words(s: Seq<char>) -> Seq<Seq<char>> {
    split_where(s, |c: char| is_space(c)).filter(|w: Seq<char>| w.len() > 0)
}

pub(crate) proof fn lemma_split_where_nonempty(s: Seq<char>, sep: spec_fn(char) -> bool)
    ensures
        split_where(s, sep).len() >= 1,
    decreases s.len(),
{
    if s.len() > 0 {
        lemma_split_where_nonempty(s.drop_last(), sep);
    }
}

/// Appending a character to a text either opens a new piece or extends the last one.
proof fn lemma_split_where_step(s: Seq<char>, i: int, sep: spec_fn(char) -> bool)
    requires
        0 <= i < s.len(),
    ensures
        split_where(s.take(i + 1), sep) == (if sep(s[i]) {
            split_where(s.take(i), sep).push(Seq::empty())
        } else {
            split_where(s.take(i), sep).drop_last().push(
                split_where(s.take(i), sep).last().push(s[i]),
            )
        }),
{
    assert(s.take(i + 1).drop_last() =~= s.take(i));
}

fn split(s: &[char], sep: Separator) -> (r: Vec<Vec<char>>)
    ensures
        texts(r@) == split_where(s@, |c: char| sep.spec_matches(c)),
{
    let ghost p = |c: char| sep.spec_matches(c);
    let mut done: Vec<Vec<char>> = Vec::new();
    let mut current: Vec<char> = Vec::new();
    let mut i: usize = 0;
    assert(texts(done@).push(current@) =~= split_where(s@.take(0), p));
    while i < s.len()
        invariant
            0 <= i <= s@.len(),
            p == |c: char| sep.spec_matches(c),
            texts(done@).push(current@) == split_where(s@.take(i as int), p),
        decreases s@.len() - i,
    {
        let c = s[i];
        proof {
            lemma_split_where_step(s@, i as int, p);
            lemma_split_where_nonempty(s@.take(i as int), p);
        }
        let ghost before = texts(done@).push(current@);
        if sep.matches(c) {
            done.push(current);
            current = Vec::new();
            assert(texts(done@) =~= before);
        } else {
            let ghost open = current@;
            current.push(c);
            assert(before.drop_last() =~= texts(done@));
            assert(before.last() == open);
        }
        i += 1;
        assert(texts(done@).push(current@) =~= split_where(s@.take(i as int), p));
    }
    assert(s@.take(i as int) =~= s@);
    let ghost before = texts(done@).push(current@);
    done.push(current);
    assert(texts(done@) =~= before);
    done
}

/// The pieces of `s` between occurrences of `sep`.
pub(crate) fn pieces(s: &[char], sep: char) -> (r: Vec<Vec<char>>)
    ensures
        texts(r@) == split_on(s@, sep),
{
    let by = Separator::One(sep);
    let r = split(s, by);
    assert((|c: char| by.spec_matches(c)) =~= is_char(sep));
    r
}

/// The words of `s`.
pub(crate) fn words_of(s: &[char]) -> (r: Vec<Vec<char>>)
    ensures
        texts(r@) == words(s@),
{
    let all = split(s, Separator::Space);
    assert((|c: char| Separator::Space.spec_matches(c)) =~= (|c: char| is_space(c)));
    let ghost keep = |w: Seq<char>| w.len() > 0;
    let ghost every = texts(all@);
    let mut kept: Vec<Vec<char>> = Vec::new();
    let mut i: usize = 0;
    assert(texts(kept@) =~= every.take(0).filter(keep)) by {
        reveal(Seq::filter);
    }
    while i < all.len()
        invariant
            0 <= i <= all@.len(),
            every == texts(all@),
            keep == |w: Seq<char>| w.len() > 0,
            texts(kept@) == every.take(i as int).filter(keep),
        decreases all@.len() - i,
    {
        proof {
            reveal(Seq::filter);
            assert(every.take(i + 1).drop_last() =~= every.take(i as int));
            assert(every.take(i + 1).last() == all@[i as int]@);
        }
        if all[i].len() > 0 {
            let ghost before = texts(kept@);
            let word = vstd::slice::slice_to_vec(all[i].as_slice());
            kept.push(word);
            assert(texts(kept@) =~= before.push(all@[i as int]@));
        }
        i += 1;
    }
    assert(every.take(i as int) =~= every);
    kept
}

/// The first occurrence of `c` splits `s` in two.
pub open spec fn split_once(s: Seq<char>, c: char) -> Option<(Seq<char>, Seq<char>)> {
    match s.index_of_first(c) {
        Some(i) => Some((s.take(i), s.skip(i + 1))),
        None => None,
    }
}

/// The last occurrence of `c` splits `s` in two.
pub open spec fn rsplit_once(s: Seq<char>, c: char) -> Option<(Seq<char>, Seq<char>)> {
    match s.index_of_last(c) {
        Some(i) => Some((s.take(i), s.skip(i + 1))),
        None => None,
    }
}

/// Position of the first `c` in `s`.
pub(crate) fn find_first(s: &[char], c: char) -> (r: Option<usize>)
    ensures
        match r {
            Some(i) => s@.index_of_first(c) == Some(i as int) && i < s@.len(),
            None => s@.index_of_first(c) == None::<int>,
        },
{
    proof {
        s@.index_of_first_ensures(c);
    }
    let mut i: usize = 0;
    while i < s.len()
        invariant
            0 <= i <= s@.len(),
            forall|j: int| 0 <= j < i ==> s@[j] != c,
        decreases s@.len() - i,
    {
        if s[i] == c {
            proof {
                s@.index_of_first_ensures(c);
                assert(s@.contains(c));
                let k = s@.index_of_first(c)->0;
                if k < i {
                    assert(s@[k] != c);
                }
            }
            return Some(i);
        }
        i += 1;
    }
    None
}

/// Position of the last `c` in `s`.
pub(crate) fn find_last(s: &[char], c: char) -> (r: Option<usize>)
    ensures
        match r {
            Some(i) => s@.index_of_last(c) == Some(i as int) && i < s@.len(),
            None => s@.index_of_last(c) == None::<int>,
        },
{
    proof {
        s@.index_of_last_ensures(c);
    }
    let mut i: usize = s.len();
    while i > 0
        invariant
            0 <= i <= s@.len(),
            forall|j: int| i <= j < s@.len() ==> s@[j] != c,
        decreases i,
    {
        if s[i - 1] == c {
            proof {
                s@.index_of_last_ensures(c);
                assert(s@.contains(c));
                let k = s@.index_of_last(c)->0;
                if k >= i {
                    assert(s@[k] != c);
                }
            }
            return Some(i - 1);
        }
        i -= 1;
    }
    None
}

/// What is before and after the first `c`.
pub(crate) fn cut_first(s: &[char], c: char) -> (r: Option<(&[char], &[char])>)
    ensures
        match (r, split_once(s@, c)) {
            (Some(cut), Some(m)) => cut.0@ == m.0 && cut.1@ == m.1,
            (None, None) => true,
            _ => false,
        },
{
    match find_first(s, c) {
        Some(i) => {
            assert(s@.take(i as int) =~= s@.subrange(0, i as int));
            assert(s@.skip(i + 1) =~= s@.subrange(i + 1, s@.len() as int));
            let end: usize = s.len();
            Some((&s[0..i], &s[i + 1..end]))
        },
        None => None,
    }
}

/// What is before and after the last `c`.
pub(crate) fn cut_last(s: &[char], c: char) -> (r: Option<(&[char], &[char])>)
    ensures
        match (r, rsplit_once(s@, c)) {
            (Some(cut), Some(m)) => cut.0@ == m.0 && cut.1@ == m.1,
            (None, None) => true,
            _ => false,
        },
{
    match find_last(s, c) {
        Some(i) => {
            assert(s@.take(i as int) =~= s@.subrange(0, i as int));
            assert(s@.skip(i + 1) =~= s@.subrange(i + 1, s@.len() as int));
            let end: usize = s.len();
            Some((&s[0..i], &s[i + 1..end]))
        },
        None => None,
    }
}

/// Whether `needle` stands in `s` at position `i`.
pub open spec fn occurs_at(s: Seq<char>, needle: Seq<char>, i: int) -> bool {
    0 <= i && i + needle.len() <= s.len() && s.subrange(i, i + needle.len()) == needle
}

/// Whether `needle` stands somewhere in `s`.
pub open spec fn contains_text(s: Seq<char>, needle: Seq<char>) -> bool {
    exists|i: int| occurs_at(s, needle, i)
}

/// Whether `needle` stands somewhere in `s`.
pub(crate) fn has_text(s: &[char], needle: &[char]) -> (r: bool)
    ensures
        r == contains_text(s@, needle@),
{
    if needle.len() > s.len() {
        return false;
    }
    let total: usize = s.len();
    let last: usize = total - needle.len();
    let mut i: usize = 0;
    while i <= last
        invariant
            0 <= i <= last + 1,
            total == s@.len(),
            last + needle@.len() == total,
            forall|j: int| 0 <= j < i ==> !occurs_at(s@, needle@, j),
        decreases last + 1 - i,
    {
        if same_text(&s[i..i + needle.len()], needle) {
            assert(occurs_at(s@, needle@, i as int));
            return true;
        }
        assert(!occurs_at(s@, needle@, i as int));
        if i == last {
            assert forall|j: int| !occurs_at(s@, needle@, j) by {
                if 0 <= j <= last {
                    assert(!occurs_at(s@, needle@, j));
                }
            }
            return false;
        }
        i += 1;
    }
    false
}

/// Where `needle` first stands in `s`.
pub open spec fn text_index(s: Seq<char>, needle: Seq<char>) -> Option<int>
    decreases s.len(),
{
    if occurs_at(s, needle, 0) {
        Some(0)
    } else if s.len() == 0 {
        None
    } else {
        match text_index(s.skip(1), needle) {
            Some(i) => Some(i + 1),
            None => None,
        }
    }
}

/// Where `needle` first stands in `s`.
pub(crate) fn find_text(s: &[char], needle: &[char]) -> (r: Option<usize>)
    ensures
        match (r, text_index(s@, needle@)) {
            (Some(i), Some(m)) => i == m && i + needle@.len() <= s@.len(),
            (None, None) => true,
            _ => false,
        },
{
    let mut i: usize = 0;
    assert(s@.skip(0) =~= s@);
    while i < s.len()
        invariant
            0 <= i <= s@.len(),
            text_index(s@, needle@) == (match text_index(s@.skip(i as int), needle@) {
                Some(j) => Some(j + i),
                None => None,
            }),
        decreases s@.len() - i,
    {
        let end: usize = s.len();
        let ghost rest = s@.skip(i as int);
        assert(rest.skip(1) =~= s@.skip(i + 1));
        if needle.len() <= end - i {
            assert(rest.subrange(0, needle@.len() as int) =~= s@.subrange(
                i as int,
                i + needle@.len(),
            ));
            if same_text(&s[i..i + needle.len()], needle) {
                assert(occurs_at(rest, needle@, 0));
                return Some(i);
            }
        }
        assert(!occurs_at(rest, needle@, 0));
        i += 1;
    }
    let ghost rest = s@.skip(i as int);
    if needle.len() == 0 {
        assert(rest.subrange(0, 0) =~= needle@);
        return Some(i);
    }
    assert(!occurs_at(rest, needle@, 0));
    None
}

/// `s` without any number of `tail` at its end.
pub open spec fn strip_tails(s: Seq<char>, tail: Seq<char>) -> Seq<char>
    decreases s.len(),
{
    if tail.len() > 0 && ends_with(s, tail) {
        strip_tails(s.take(s.len() - tail.len()), tail)
    } else {
        s
    }
}

/// `s` without any number of `tail` at its end.
pub(crate) fn stripped<'a>(s: &'a [char], tail: &[char]) -> (r: &'a [char])
    ensures
        r@ == strip_tails(s@, tail@),
{
    let mut end: usize = s.len();
    assert(s@.take(end as int) =~= s@);
    if tail.len() == 0 {
        return s;
    }
    while has_tail(&s[0..end], tail)
        invariant
            0 <= end <= s@.len(),
            tail@.len() > 0,
            strip_tails(s@, tail@) == strip_tails(s@.subrange(0, end as int), tail@),
        decreases end,
    {
        let ghost held = s@.subrange(0, end as int);
        end = end - tail.len();
        assert(held.take(held.len() - tail@.len()) =~= s@.subrange(0, end as int));
    }
    &s[0..end]
}

/// Texts with a space between each two.
pub open spec fn spaced(list: Seq<Seq<char>>) -> Seq<char>
    decreases list.len(),
{
    if list.len() == 0 {
        Seq::empty()
    } else if list.len() == 1 {
        list[0]
    } else {
        spaced(list.drop_last()).push(' ') + list.last()
    }
}

/// Whether `s` ends in `tail`.
pub open spec fn ends_with(s: Seq<char>, tail: Seq<char>) -> bool {
    tail.len() <= s.len() && s.skip(s.len() - tail.len()) == tail
}

/// Whether `s` ends in `tail`.
pub(crate) fn has_tail(s: &[char], tail: &[char]) -> (r: bool)
    ensures
        r == ends_with(s@, tail@),
{
    if tail.len() > s.len() {
        return false;
    }
    let from: usize = s.len() - tail.len();
    assert(s@.skip(from as int) =~= s@.subrange(from as int, s@.len() as int));
    same_text(&s[from..s.len()], tail)
}

/// ASCII lower case; other characters stay as they are.
pub open spec fn lower(c: char) -> char {
    if 'A' <= c <= 'Z' {
        ((c as u32 + 32) as u32) as char
    } else {
        c
    }
}

/// `s` in ASCII lower case.
pub open spec fn lowercase(s: Seq<char>) -> Seq<char> {
    s.map_values(|c: char| lower(c))
}

pub(crate) fn to_lower(c: char) -> (r: char)
    ensures
        r == lower(c),
{
    let n: u32 = c as u32;
    if 65 <= n && n <= 90 {
        (n as u8 + 32) as char
    } else {
        c
    }
}

/// Whether two texts are equal up to the case of ASCII letters.
pub(crate) fn same_ignoring_case(a: &[char], b: &[char]) -> (r: bool)
    ensures
        r == (lowercase(a@) == lowercase(b@)),
{
    if a.len() != b.len() {
        assert(lowercase(a@).len() != lowercase(b@).len());
        return false;
    }
    let mut i: usize = 0;
    while i < a.len()
        invariant
            0 <= i <= a@.len(),
            a@.len() == b@.len(),
            forall|j: int| 0 <= j < i ==> lower(a@[j]) == lower(b@[j]),
        decreases a@.len() - i,
    {
        if to_lower(a[i]) != to_lower(b[i]) {
            assert(lowercase(a@)[i as int] != lowercase(b@)[i as int]);
            return false;
        }
        i += 1;
    }
    assert(lowercase(a@) =~= lowercase(b@));
    true
}

/// `s` in ASCII lower case.
pub(crate) fn lowercased(s: &[char]) -> (r: Vec<char>)
    ensures
        r@ == lowercase(s@),
{
    let mut r: Vec<char> = Vec::new();
    let mut i: usize = 0;
    while i < s.len()
        invariant
            0 <= i <= s@.len(),
            r@ == lowercase(s@.take(i as int)),
        decreases s@.len() - i,
    {
        r.push(to_lower(s[i]));
        i += 1;
        assert(r@ =~= lowercase(s@.take(i as int)));
    }
    assert(s@.take(i as int) =~= s@);
    r
}

/// Whether a character is a decimal digit.
pub open spec fn is_digit(c: char) -> bool {
    '0' <= c <= '9'
}

/// Value of a decimal digit.
pub open spec fn digit_value(c: char) -> nat {
    (c as u32 - '0' as u32) as nat
}

/// Whether every character is a decimal digit.
pub open spec fn all_digits(s: Seq<char>) -> bool {
    forall|i: int| 0 <= i < s.len() ==> is_digit(#[trigger] s[i])
}

/// The number that a sequence of decimal digits spells.
pub open spec fn digits_value(s: Seq<char>) -> nat
    decreases s.len(),
{
    if s.len() == 0 {
        0
    } else {
        10 * digits_value(s.drop_last()) + digit_value(s.last())
    }
}

/// The number that `s` spells: one or more decimal digits, after an optional
/// plus sign, with a value of at most `max`.
pub open spec fn parse_number(s: Seq<char>, max: nat) -> Option<nat> {
    let digits = if s.len() > 1 && s[0] == '+' {
        s.skip(1)
    } else {
        s
    };
    if digits.len() > 0 && all_digits(digits) && digits_value(digits) <= max {
        Some(digits_value(digits))
    } else {
        None
    }
}

proof fn lemma_digits_value_monotonic(s: Seq<char>, i: int)
    requires
        0 <= i <= s.len(),
    ensures
        digits_value(s.take(i)) <= digits_value(s),
    decreases s.len() - i,
{
    if i < s.len() {
        lemma_digits_value_monotonic(s, i + 1);
        assert(s.take(i + 1).drop_last() =~= s.take(i));
    } else {
        assert(s.take(i) =~= s);
    }
}

/// Value of a run of decimal digits, `None` when another character occurs, the
/// run is empty or the value exceeds `max`.
pub(crate) fn digits_number(s: &[char], max: u64) -> (r: Option<u64>)
    ensures
        r == (if s@.len() > 0 && all_digits(s@) && digits_value(s@) <= max {
            Some(digits_value(s@) as u64)
        } else {
            None
        }),
{
    if s.len() == 0 {
        return None;
    }
    let mut value: u64 = 0;
    let mut i: usize = 0;
    while i < s.len()
        invariant
            0 <= i <= s@.len(),
            value <= max,
            value == digits_value(s@.take(i as int)),
            forall|j: int| 0 <= j < i ==> is_digit(#[trigger] s@[j]),
        decreases s@.len() - i,
    {
        let c = s[i];
        if c < '0' || c > '9' {
            assert(!is_digit(s@[i as int]));
            return None;
        }
        let digit: u32 = c as u32 - '0' as u32;
        proof {
            assert(s@.take(i + 1).drop_last() =~= s@.take(i as int));
            lemma_digits_value_monotonic(s@, i + 1);
        }
        let next: u128 = value as u128 * 10 + digit as u128;
        if next > max as u128 {
            return None;
        }
        value = next as u64;
        i += 1;
    }
    assert(s@.take(i as int) =~= s@);
    Some(value)
}

/// The number that `s` spells, as [`parse_number`] says.
pub(crate) fn number_of(s: &[char], max: u64) -> (r: Option<u64>)
    ensures
        match r {
            Some(n) => parse_number(s@, max as nat) == Some(n as nat),
            None => parse_number(s@, max as nat) == None::<nat>,
        },
{
    if s.len() > 1 && s[0] == '+' {
        assert(s@.skip(1) =~= s@.subrange(1, s@.len() as int));
        digits_number(&s[1..s.len()], max)
    } else {
        digits_number(s, max)
    }
}

/// The decimal digit of a number below ten.
pub open spec fn digit(n: nat) -> char {
    (('0' as u32 + n) as u32) as char
}

/// Decimal notation of a number.
pub open spec fn decimal(n: nat) -> Seq<char>
    decreases n,
{
    if n < 10 {
        seq![digit(n)]
    } else {
        decimal(n / 10).push(digit(n % 10))
    }
}

/// Decimal notation of a number.
pub(crate) fn decimal_of(n: u64) -> (r: String)
    ensures
        r@ == decimal(n as nat),
    decreases n,
{
    let digit: char = ((n % 10) as u8 + 48) as char;
    if n < 10 {
        let mut r = String::new();
        r.push(digit);
        assert(r@ =~= seq![digit]);
        r
    } else {
        let mut r = decimal_of(n / 10);
        r.push(digit);
        r
    }
}

/// Decimal notation is read back as the number it was written for.
pub proof fn decimal_round_trip(n: nat)
    ensures
        decimal(n).len() > 0,
        all_digits(decimal(n)),
        digits_value(decimal(n)) == n,
        n > 0 ==> decimal(n)[0] != '0',
    decreases n,
{
    if n >= 10 {
        decimal_round_trip(n / 10);
        assert(decimal(n).drop_last() =~= decimal(n / 10));
    } else {
        assert(seq![digit(n)].drop_last() =~= Seq::<char>::empty());
        assert(digits_value(Seq::<char>::empty()) == 0);
    }
}

/// A number in decimal notation is read as that number, up to the largest allowed one,
/// and refused above it.
pub proof fn written_number_is_read(n: nat, max: nat)
    ensures
        parse_number(decimal(n), max) == (if n <= max {
            Some(n)
        } else {
            None
        }),
{
    decimal_round_trip(n);
    assert(is_digit(decimal(n)[0]));
}

/// Decimal notation holds digits alone, so it holds no separator.
pub proof fn written_number_holds_no_separator(n: nat, c: char)
    requires
        !('0' <= c <= '9'),
    ensures
        !decimal(n).contains(c),
{
    decimal_round_trip(n);
    if decimal(n).contains(c) {
        let i = choose|i: int| 0 <= i < decimal(n).len() && decimal(n)[i] == c;
        assert(is_digit(decimal(n)[i]));
    }
}

/// A text is split in two at its first separator: what was joined there comes apart.
pub proof fn first_separator_splits(head: Seq<char>, c: char, tail: Seq<char>)
    requires
        !head.contains(c),
    ensures
        split_once(head.push(c) + tail, c) == Some((head, tail)),
        !tail.contains(c) ==> split_once(tail, c) is None,
{
    let s = head.push(c) + tail;
    s.index_of_first_ensures(c);
    tail.index_of_first_ensures(c);
    assert(s[head.len() as int] == c);
    let i = s.index_of_first(c)->Some_0;
    if i < head.len() {
        assert(head[i] == c);
    }
    assert(s.take(i) =~= head);
    assert(s.skip(i + 1) =~= tail);
}

/// A text is split in two at its last separator: what was joined there comes apart.
pub proof fn last_separator_splits(head: Seq<char>, c: char, tail: Seq<char>)
    requires
        !tail.contains(c),
    ensures
        rsplit_once(head.push(c) + tail, c) == Some((head, tail)),
        rsplit_once(tail, c) is None,
{
    let s = head.push(c) + tail;
    s.index_of_last_ensures(c);
    tail.index_of_last_ensures(c);
    assert(s[head.len() as int] == c);
    let i = s.index_of_last(c)->Some_0;
    if i > head.len() {
        assert(tail[i - head.len() - 1] == c);
    }
    assert(s.take(i) =~= head);
    assert(s.skip(i + 1) =~= tail);
}

/// Letters are the same in lower case exactly where they differ in the case of an ASCII
/// letter at most.
pub proof fn case_is_ignored(a: Seq<char>, b: Seq<char>)
    ensures
        lowercase(a) == lowercase(b) <==> a.len() == b.len() && forall|i: int|
            0 <= i < a.len() ==> {
                ||| #[trigger] a[i] == b[i]
                ||| 'A' <= a[i] <= 'Z' && b[i] as u32 == a[i] as u32 + 32
                ||| 'A' <= b[i] <= 'Z' && a[i] as u32 == b[i] as u32 + 32
            },
{
    if a.len() == b.len() && forall|i: int|
        0 <= i < a.len() ==> {
            ||| #[trigger] a[i] == b[i]
            ||| 'A' <= a[i] <= 'Z' && b[i] as u32 == a[i] as u32 + 32
            ||| 'A' <= b[i] <= 'Z' && a[i] as u32 == b[i] as u32 + 32
        } {
        assert(lowercase(a) =~= lowercase(b));
    }
    if lowercase(a) == lowercase(b) {
        assert(lowercase(a).len() == a.len() && lowercase(b).len() == b.len());
        assert forall|i: int| 0 <= i < a.len() implies {
            ||| #[trigger] a[i] == b[i]
            ||| 'A' <= a[i] <= 'Z' && b[i] as u32 == a[i] as u32 + 32
            ||| 'A' <= b[i] <= 'Z' && a[i] as u32 == b[i] as u32 + 32
        } by {
            assert(lowercase(a)[i] == lower(a[i]));
            assert(lowercase(b)[i] == lower(b[i]));
        }
    }
}

/// Trimming takes white space off both ends and nothing else: what is left stands in the
/// text, begins and ends with no white space, and all around it is white space.
pub proof fn trimming_takes_white_space_alone(s: Seq<char>) -> (from: int)
    ensures
        0 <= from,
        from + trim(s).len() <= s.len(),
        trim(s) == s.subrange(from, from + trim(s).len()),
        forall|i: int|
            0 <= i < s.len() && !(from <= i < from + trim(s).len()) ==> is_space(
                #[trigger] s[i],
            ),
        trim(s).len() > 0 ==> !is_space(trim(s)[0]) && !is_space(trim(s).last()),
{
    let from = lemma_trim_start(s);
    let rest = trim_start(s);
    lemma_trim_end(rest);
    assert(trim(s) =~= s.subrange(from, from + trim(s).len()));
    assert forall|i: int|
        0 <= i < s.len() && !(from <= i < from + trim(s).len()) implies is_space(
        #[trigger] s[i],
    ) by {
        if i >= from {
            assert(rest[i - from] == s[i]);
        }
    }
    from
}

proof fn lemma_trim_start(s: Seq<char>) -> (from: int)
    ensures
        0 <= from <= s.len(),
        trim_start(s) == s.skip(from),
        forall|i: int| 0 <= i < from ==> is_space(#[trigger] s[i]),
        from < s.len() ==> !is_space(s[from]),
    decreases s.len(),
{
    if s.len() > 0 && is_space(s[0]) {
        let rest = s.skip(1);
        let from = lemma_trim_start(rest);
        assert(rest.skip(from) =~= s.skip(from + 1));
        assert forall|i: int| 0 <= i < from + 1 implies is_space(#[trigger] s[i]) by {
            if i > 0 {
                assert(rest[i - 1] == s[i]);
            }
        }
        from + 1
    } else {
        assert(s.skip(0) =~= s);
        0
    }
}

proof fn lemma_trim_end(s: Seq<char>)
    ensures
        trim_end(s).len() <= s.len(),
        trim_end(s) == s.take(trim_end(s).len() as int),
        forall|i: int| trim_end(s).len() <= i < s.len() ==> is_space(#[trigger] s[i]),
        trim_end(s).len() > 0 ==> !is_space(trim_end(s).last()),
    decreases s.len(),
{
    if s.len() > 0 && is_space(s.last()) {
        let rest = s.drop_last();
        lemma_trim_end(rest);
        assert(rest.take(trim_end(s).len() as int) =~= s.take(trim_end(s).len() as int));
        assert forall|i: int| trim_end(s).len() <= i < s.len() implies is_space(
            #[trigger] s[i],
        ) by {
            if i < rest.len() {
                assert(rest[i] == s[i]);
            }
        }
    } else {
        assert(s.take(s.len() as int) =~= s);
    }
}

/// Digits count by their place, the last one for ones and every one before it ten times as
/// much as the next; decimal notation is what is counted so.
pub proof fn digits_count_by_place(s: Seq<char>, n: nat)
    requires
        s.len() > 0,
        all_digits(s),
    ensures
        digits_value(s) % 10 == s.last() as u32 - '0' as u32,
        digits_value(s) / 10 == digits_value(s.drop_last()),
        decimal(n).last() as u32 == '0' as u32 + n % 10,
        n >= 10 ==> decimal(n).drop_last() == decimal(n / 10),
{
    assert(is_digit(s[s.len() - 1]));
    if n >= 10 {
        assert(decimal(n).drop_last() =~= decimal(n / 10));
    }
}

proof fn lemma_split_joined(a: Seq<char>, b: Seq<char>, sep: spec_fn(char) -> bool, c: char)
    requires
        sep(c),
    ensures
        split_where(a.push(c) + b, sep) == split_where(a, sep) + split_where(b, sep),
    decreases b.len(),
{
    let s = a.push(c) + b;
    lemma_split_where_nonempty(a, sep);
    lemma_split_where_nonempty(b, sep);
    if b.len() == 0 {
        assert(s =~= a.push(c));
        assert(s.drop_last() =~= a);
        assert(split_where(s, sep) =~= split_where(a, sep) + split_where(b, sep));
    } else {
        let less = b.drop_last();
        lemma_split_joined(a, less, sep, c);
        lemma_split_where_nonempty(less, sep);
        assert(s.drop_last() =~= a.push(c) + less);
        assert(s.last() == b.last());
        assert(split_where(s, sep) =~= split_where(a, sep) + split_where(b, sep));
    }
}

proof fn lemma_split_alone(s: Seq<char>, sep: spec_fn(char) -> bool)
    requires
        forall|i: int| 0 <= i < s.len() ==> !sep(#[trigger] s[i]),
    ensures
        split_where(s, sep) == seq![s],
    decreases s.len(),
{
    if s.len() == 0 {
        assert(s =~= Seq::<char>::empty());
    } else {
        let less = s.drop_last();
        assert forall|i: int| 0 <= i < less.len() implies !sep(#[trigger] less[i]) by {
            assert(less[i] == s[i]);
        }
        lemma_split_alone(less, sep);
        assert(!sep(s[s.len() - 1]));
        assert(less.push(s.last()) =~= s);
        assert(split_where(s, sep) =~= seq![s]);
    }
}

/// Pieces are what stands between separators: a text without one is a single piece, and two
/// texts with one between them have the pieces of both, in order.
pub proof fn pieces_stand_between_separators(a: Seq<char>, sep: char, b: Seq<char>)
    ensures
        !a.contains(sep) ==> split_on(a, sep) == seq![a],
        split_on(a.push(sep) + b, sep) == split_on(a, sep) + split_on(b, sep),
{
    lemma_split_joined(a, b, is_char(sep), sep);
    if !a.contains(sep) {
        assert forall|i: int| 0 <= i < a.len() implies !is_char(sep)(#[trigger] a[i]) by {
            if a[i] == sep {
                assert(a.contains(sep));
            }
        }
        lemma_split_alone(a, is_char(sep));
    }
}

/// Words are what stands between white space: a text without any is one word, unless it is
/// empty, and two texts with white space between them have the words of both, in order.
pub proof fn words_stand_between_white_space(a: Seq<char>, c: char, b: Seq<char>)
    requires
        is_space(c),
    ensures
        words(a.push(c) + b) == words(a) + words(b),
        a.len() > 0 && (forall|i: int| 0 <= i < a.len() ==> !is_space(#[trigger] a[i])) ==> words(a)
            == seq![a],
        words(Seq::empty()).len() == 0,
{
    let sep = |c: char| is_space(c);
    lemma_split_joined(a, b, sep, c);
    Seq::filter_distributes_over_add(
        split_where(a, sep),
        split_where(b, sep),
        |w: Seq<char>| w.len() > 0,
    );
    reveal(Seq::filter);
    if a.len() > 0 && forall|i: int| 0 <= i < a.len() ==> !is_space(#[trigger] a[i]) {
        lemma_split_alone(a, sep);
        let one = seq![a];
        assert(one.drop_last() =~= Seq::<Seq<char>>::empty());
        assert(words(a) =~= seq![a]);
    }
    let full = |w: Seq<char>| w.len() > 0;
    let none = seq![Seq::<char>::empty()];
    assert(none.drop_last() =~= Seq::<Seq<char>>::empty());
    assert(Seq::<Seq<char>>::empty().filter(full) =~= Seq::<Seq<char>>::empty());
    assert(none.last().len() == 0);
    assert(none.filter(full) =~= Seq::<Seq<char>>::empty());
    assert(split_where(Seq::<char>::empty(), sep) =~= none);
}

/// White space is what separates words in every command's output: blanks, tabs and ends of
/// lines are, and letters, digits and signs of ASCII are not.
pub proof fn ascii_white_space(c: char)
    requires
        (c as u32) < 0x80,
    ensures
        is_space(c) <==> c == ' ' || c == '\t' || c == '\n' || c == '\r' || c as u32 == 0x0b
            || c as u32 == 0x0c,
{
}

/// A text is found at the first place where it stands.
pub proof fn texts_are_found_where_they_first_stand(s: Seq<char>, needle: Seq<char>)
    ensures
        match text_index(s, needle) {
            Some(i) => {
                &&& 0 <= i
                &&& i + needle.len() <= s.len()
                &&& s.subrange(i, i + needle.len()) == needle
                &&& forall|j: int| 0 <= j < i ==> !#[trigger] occurs_at(s, needle, j)
            },
            None => forall|j: int| !#[trigger] occurs_at(s, needle, j),
        },
    decreases s.len(),
{
    if !occurs_at(s, needle, 0) && s.len() > 0 {
        let rest = s.skip(1);
        texts_are_found_where_they_first_stand(rest, needle);
        assert forall|j: int| j > 0 implies #[trigger] occurs_at(s, needle, j) == occurs_at(
            rest,
            needle,
            j - 1,
        ) by {
            if j + needle.len() <= s.len() {
                assert(s.subrange(j, j + needle.len()) =~= rest.subrange(
                    j - 1,
                    j - 1 + needle.len(),
                ));
            }
        }
        if let Some(i) = text_index(rest, needle) {
            assert(occurs_at(rest, needle, i));
            assert(occurs_at(s, needle, i + 1));
        }
    }
}

/// Words are joined with one blank between each two.
pub proof fn words_are_joined_with_blanks(list: Seq<Seq<char>>, last: Seq<char>)
    ensures
        spaced(Seq::empty()).len() == 0,
        spaced(seq![last]) == last,
        list.len() > 0 ==> spaced(list.push(last)) == spaced(list).push(' ') + last,
{
    assert(list.push(last).drop_last() =~= list);
}

/// What is left once a tail was taken off as often as it stood there does not end in it, and
/// is a beginning of the text.
pub proof fn tails_are_taken_off(s: Seq<char>, tail: Seq<char>)
    requires
        tail.len() > 0,
    ensures
        !ends_with(strip_tails(s, tail), tail),
        strip_tails(s, tail).len() <= s.len(),
        strip_tails(s, tail) == s.take(strip_tails(s, tail).len() as int),
        strip_tails(s + tail, tail) == strip_tails(s, tail),
        !ends_with(s, tail) ==> strip_tails(s, tail) == s,
    decreases s.len(),
{
    assert((s + tail).skip((s + tail).len() - tail.len()) =~= tail);
    assert((s + tail).take((s + tail).len() - tail.len()) =~= s);
    if ends_with(s, tail) {
        let less = s.take(s.len() - tail.len());
        tails_are_taken_off(less, tail);
        assert(less.take(strip_tails(s, tail).len() as int) =~= s.take(
            strip_tails(s, tail).len() as int,
        ));
    } else {
        assert(s.take(s.len() as int) =~= s);
    }
}

} // verus!
