//! Strings as sequences of characters: the comparisons, searches and cuts that
//! the rest of the library states its contracts with.
//!
//! Order is the order of code points, position by position. UTF-8 keeps that
//! order, so it is also the order of the encoded bytes, which is how a key
//! sorts in SQLite and in an object store.

use vstd::prelude::*;
use vstd::string::*;

verus! {

broadcast use vstd::string::group_string_axioms;

/// An ASCII letter in lower case; every other character is itself.
pub open spec fn lower(c: char) -> char {
    if 'A' <= c <= 'Z' {
        (c as u32 + 32) as char
    } else {
        c
    }
}

/// Every character of `s` through `lower`.
pub open spec fn lower_all(s: Seq<char>) -> Seq<char> {
    s.map_values(|c: char| lower(c))
}

/// Whether two strings differ in the case of ASCII letters at most.
pub open spec fn same_ignoring_case(a: Seq<char>, b: Seq<char>) -> bool {
    &&& a.len() == b.len()
    &&& forall|i: int| 0 <= i < a.len() ==> lower(#[trigger] a[i]) == lower(b[i])
}

/// Whether `p` stands in `s` from position `i` on.
pub open spec fn stands_at(s: Seq<char>, p: Seq<char>, i: int) -> bool {
    &&& 0 <= i
    &&& i + p.len() <= s.len()
    &&& s.subrange(i, i + p.len()) == p
}

/// Whether `p` stands somewhere in `s`.
pub open spec fn occurs_in(s: Seq<char>, p: Seq<char>) -> bool {
    exists|i: int| stands_at(s, p, i)
}

pub open spec fn begins_with(s: Seq<char>, p: Seq<char>) -> bool {
    stands_at(s, p, 0)
}

pub open spec fn ends_in(s: Seq<char>, p: Seq<char>) -> bool {
    stands_at(s, p, s.len() - p.len())
}

/// Whether `i` is the first position of `c` in `s`.
pub open spec fn first_of(s: Seq<char>, c: char, i: int) -> bool {
    &&& 0 <= i < s.len()
    &&& s[i] == c
    &&& forall|j: int| 0 <= j < i ==> s[j] != c
}

/// Whether `i` is the last position of `c` in `s`.
pub open spec fn last_of(s: Seq<char>, c: char, i: int) -> bool {
    &&& 0 <= i < s.len()
    &&& s[i] == c
    &&& forall|j: int| i < j < s.len() ==> s[j] != c
}

/// Whether two strings differ first at `i`, in favour of `a`.
pub open spec fn below_at(a: Seq<char>, b: Seq<char>, i: int) -> bool {
    &&& 0 <= i <= a.len()
    &&& i < b.len()
    &&& forall|j: int| 0 <= j < i ==> a[j] == b[j]
    &&& i < a.len() ==> a[i] < b[i]
}

/// The order of strings: `a` comes strictly before `b`.
pub open spec fn text_lt(a: Seq<char>, b: Seq<char>) -> bool {
    exists|i: int| below_at(a, b, i)
}

pub open spec fn text_le(a: Seq<char>, b: Seq<char>) -> bool {
    a == b || text_lt(a, b)
}

/// The length of a string in UTF-8.
pub open spec fn byte_len(s: Seq<char>) -> nat {
    vstd::utf8::encode_utf8(s).len()
}

/// The views of a list of strings.
pub open spec fn views(v: Seq<String>) -> Seq<Seq<char>> {
    v.map_values(|s: String| s@)
}

/// Unicode's `White_Space` property.
pub open spec fn white_space(c: char) -> bool {
    ||| 0x9 <= c as u32 <= 0xD
    ||| c as u32 == 0x20
    ||| c as u32 == 0x85
    ||| c as u32 == 0xA0
    ||| c as u32 == 0x1680
    ||| 0x2000 <= c as u32 <= 0x200A
    ||| c as u32 == 0x2028
    ||| c as u32 == 0x2029
    ||| c as u32 == 0x202F
    ||| c as u32 == 0x205F
    ||| c as u32 == 0x3000
}

/// `s` without the leading and trailing characters that satisfy `drop`.
pub open spec fn trimmed_by(s: Seq<char>, drop: spec_fn(char) -> bool) -> Seq<char>
    decreases s.len(),
{
    if s.len() > 0 && drop(s[0]) {
        trimmed_by(s.drop_first(), drop)
    } else if s.len() > 0 && drop(s.last()) {
        trimmed_by(s.drop_last(), drop)
    } else {
        s
    }
}

/// `s` without leading and trailing white space.
pub open spec fn trimmed(s: Seq<char>) -> Seq<char> {
    trimmed_by(s, |c: char| white_space(c))
}

/// `String::push` appends one character.
pub assume_specification[ String::push ](s: &mut String, c: char)
    ensures
        final(s)@ == old(s)@.push(c),
;

/// `char::is_whitespace` tests Unicode's `White_Space` property.
pub assume_specification[ char::is_whitespace ](c: char) -> (answer: bool)
    ensures
        answer == white_space(c),
;

/// A string as Rust source would write it, quotes and escapes and all.
pub uninterp spec fn debug_text(s: Seq<char>) -> Seq<char>;

/// `format!` with `{:?}` quotes and escapes a string; what comes out depends on
/// the string alone.
#[verifier::external_body]
pub(crate) fn debug_quoted(s: &str) -> (out: String)
    ensures
        out@ == debug_text(s@),
{
    format!("{s:?}")
}

/// The characters of a string, in order.
pub fn chars_of(s: &str) -> (out: Vec<char>)
    ensures
        out@ == s@,
{
    let mut out: Vec<char> = Vec::new();
    let n: usize = s.unicode_len();
    let mut rest = s.chars();
    let mut i: usize = 0;
    while i < n
        invariant
            i <= n,
            n == s@.len(),
            out@ == s@.take(i as int),
            vstd::std_specs::iter::IteratorSpec::remaining(&rest) == s@.skip(i as int),
        decreases n - i,
    {
        let c = rest.next();
        match c {
            Some(c) => {
                out.push(c);
            },
            None => {},
        }
        i = i + 1;
    }
    out
}

/// The string with exactly these characters.
pub fn string_of(chars: &[char]) -> (out: String)
    ensures
        out@ == chars@,
{
    let mut out = String::new();
    let mut i: usize = 0;
    while i < chars.len()
        invariant
            i <= chars@.len(),
            out@ == chars@.take(i as int),
        decreases chars@.len() - i,
    {
        out.push(chars[i]);
        i = i + 1;
        assert(chars@.take(i as int) == chars@.take(i - 1).push(chars@[i - 1]));
    }
    assert(chars@.take(i as int) == chars@);
    out
}

/// An ASCII letter in lower case; every other character is itself.
pub fn to_lower(c: char) -> (out: char)
    ensures
        out == lower(c),
{
    if 'A' <= c && c <= 'Z' {
        let code: u8 = c as u8;
        (code + 32) as char
    } else {
        c
    }
}

/// The string with its ASCII letters in lower case.
pub fn lowered(s: &[char]) -> (out: Vec<char>)
    ensures
        out@ == lower_all(s@),
{
    let mut out: Vec<char> = Vec::new();
    let mut i: usize = 0;
    while i < s.len()
        invariant
            i <= s@.len(),
            out@ == lower_all(s@.take(i as int)),
        decreases s@.len() - i,
    {
        out.push(to_lower(s[i]));
        i = i + 1;
        assert(s@.take(i as int) == s@.take(i - 1).push(s@[i - 1]));
        assert(out@ =~= lower_all(s@.take(i as int)));
    }
    assert(s@.take(i as int) == s@);
    out
}

/// Whether two strings are the same.
pub fn same(a: &[char], b: &[char]) -> (answer: bool)
    ensures
        answer == (a@ == b@),
{
    if a.len() != b.len() {
        return false;
    }
    let mut i: usize = 0;
    while i < a.len()
        invariant
            a@.len() == b@.len(),
            i <= a@.len(),
            forall|j: int| 0 <= j < i ==> a@[j] == b@[j],
        decreases a@.len() - i,
    {
        if a[i] != b[i] {
            return false;
        }
        i = i + 1;
    }
    assert(a@ =~= b@);
    true
}

/// Whether two strings are the same.
pub fn same_text(a: &str, b: &str) -> (answer: bool)
    ensures
        answer == (a@ == b@),
{
    same(&chars_of(a), &chars_of(b))
}

/// Whether two strings differ in the case of ASCII letters at most.
pub fn eq_ignoring_case(a: &[char], b: &[char]) -> (answer: bool)
    ensures
        answer == same_ignoring_case(a@, b@),
{
    if a.len() != b.len() {
        return false;
    }
    let mut i: usize = 0;
    while i < a.len()
        invariant
            a@.len() == b@.len(),
            i <= a@.len(),
            forall|j: int| 0 <= j < i ==> lower(#[trigger] a@[j]) == lower(b@[j]),
        decreases a@.len() - i,
    {
        if to_lower(a[i]) != to_lower(b[i]) {
            assert(lower(a@[i as int]) != lower(b@[i as int]));
            return false;
        }
        i = i + 1;
    }
    true
}

/// Whether two strings differ in the case of ASCII letters at most.
pub fn text_eq_ignoring_case(a: &str, b: &str) -> (answer: bool)
    ensures
        answer == same_ignoring_case(a@, b@),
{
    eq_ignoring_case(&chars_of(a), &chars_of(b))
}

/// The characters from `from` up to `to`.
pub fn cut(s: &[char], from: usize, to: usize) -> (out: Vec<char>)
    requires
        from <= to <= s@.len(),
    ensures
        out@ == s@.subrange(from as int, to as int),
{
    let mut out: Vec<char> = Vec::new();
    let mut i: usize = from;
    while i < to
        invariant
            from <= i <= to <= s@.len(),
            out@ == s@.subrange(from as int, i as int),
        decreases to - i,
    {
        out.push(s[i]);
        i = i + 1;
        assert(out@ =~= s@.subrange(from as int, i as int));
    }
    out
}

/// `a` followed by `b`.
pub fn joined(a: &[char], b: &[char]) -> (out: Vec<char>)
    ensures
        out@ == a@ + b@,
{
    let mut out: Vec<char> = cut(a, 0, a.len());
    let mut i: usize = 0;
    assert(out@ =~= a@ + b@.take(0));
    while i < b.len()
        invariant
            i <= b@.len(),
            out@ == a@ + b@.take(i as int),
        decreases b@.len() - i,
    {
        out.push(b[i]);
        i = i + 1;
        assert(out@ =~= a@ + b@.take(i as int));
    }
    assert(b@.take(i as int) =~= b@);
    out
}

/// `a` followed by `b`.
pub fn concat(a: &str, b: &str) -> (out: String)
    ensures
        out@ == a@ + b@,
{
    let mut out = a.to_owned();
    out.append(b);
    out
}

/// `a`, `b` and `c`, one after the other.
pub fn concat3(a: &str, b: &str, c: &str) -> (out: String)
    ensures
        out@ == a@ + b@ + c@,
{
    let mut out = concat(a, b);
    out.append(c);
    out
}

/// A copy of a list of strings.
pub fn clone_texts(v: &Vec<String>) -> (out: Vec<String>)
    ensures
        out@ == v@,
{
    let mut out: Vec<String> = Vec::new();
    let mut i: usize = 0;
    while i < v.len()
        invariant
            i <= v@.len(),
            out@ == v@.take(i as int),
        decreases v@.len() - i,
    {
        out.push(v[i].clone());
        i = i + 1;
        assert(v@.take(i as int) =~= v@.take(i - 1).push(v@[i - 1]));
    }
    assert(v@.take(i as int) =~= v@);
    out
}

/// Whether `p` stands in `s` from position `at` on.
pub fn is_at(s: &[char], p: &[char], at: usize) -> (answer: bool)
    ensures
        answer == stands_at(s@, p@, at as int),
{
    let n: usize = s.len();
    if at > n || p.len() > n - at {
        return false;
    }
    let mut i: usize = 0;
    while i < p.len()
        invariant
            i <= p@.len(),
            n == s@.len(),
            at + p@.len() <= n,
            forall|j: int| 0 <= j < i ==> s@[at + j] == #[trigger] p@[j],
        decreases p@.len() - i,
    {
        if s[at + i] != p[i] {
            assert(s@.subrange(at as int, at + p@.len())[i as int] == s@[at + i]);
            return false;
        }
        i = i + 1;
    }
    assert(s@.subrange(at as int, at + p@.len()) =~= p@);
    true
}

pub fn starts_with(s: &[char], p: &[char]) -> (answer: bool)
    ensures
        answer == begins_with(s@, p@),
{
    is_at(s, p, 0)
}

pub fn ends_with(s: &[char], p: &[char]) -> (answer: bool)
    ensures
        answer == ends_in(s@, p@),
{
    if p.len() > s.len() {
        return false;
    }
    is_at(s, p, s.len() - p.len())
}

/// The first position of `p` in `s`.
pub fn find(s: &[char], p: &[char]) -> (out: Option<usize>)
    ensures
        match out {
            Some(i) => stands_at(s@, p@, i as int) && forall|j: int|
                0 <= j < i ==> !stands_at(s@, p@, j),
            None => !occurs_in(s@, p@),
        },
{
    let mut i: usize = 0;
    while i < s.len()
        invariant
            i <= s@.len(),
            forall|j: int| 0 <= j < i ==> !stands_at(s@, p@, j),
        decreases s@.len() - i,
    {
        if is_at(s, p, i) {
            return Some(i);
        }
        i = i + 1;
    }
    if is_at(s, p, i) {
        return Some(i);
    }
    None
}

/// Whether `p` stands somewhere in `s`.
pub fn contains(s: &[char], p: &[char]) -> (answer: bool)
    ensures
        answer == occurs_in(s@, p@),
{
    match find(s, p) {
        Some(i) => {
            assert(stands_at(s@, p@, i as int));
            true
        },
        None => false,
    }
}

/// The first position of `c` in `s` at or after `from`.
pub fn find_char_from(s: &[char], c: char, from: usize) -> (out: Option<usize>)
    requires
        from <= s@.len(),
    ensures
        match out {
            Some(i) => from <= i < s@.len() && s@[i as int] == c && forall|j: int|
                from <= j < i ==> s@[j] != c,
            None => forall|j: int| from <= j < s@.len() ==> s@[j] != c,
        },
{
    let mut i: usize = from;
    while i < s.len()
        invariant
            from <= i <= s@.len(),
            forall|j: int| from <= j < i ==> s@[j] != c,
        decreases s@.len() - i,
    {
        if s[i] == c {
            return Some(i);
        }
        i = i + 1;
    }
    None
}

/// The first position of `c` in `s`.
pub fn find_char(s: &[char], c: char) -> (out: Option<usize>)
    ensures
        match out {
            Some(i) => first_of(s@, c, i as int),
            None => !s@.contains(c),
        },
{
    find_char_from(s, c, 0)
}

/// The last position of `c` in `s`.
pub fn rfind_char(s: &[char], c: char) -> (out: Option<usize>)
    ensures
        match out {
            Some(i) => last_of(s@, c, i as int),
            None => !s@.contains(c),
        },
{
    let mut i: usize = s.len();
    while i > 0
        invariant
            i <= s@.len(),
            forall|j: int| i <= j < s@.len() ==> s@[j] != c,
        decreases i,
    {
        i = i - 1;
        if s[i] == c {
            return Some(i);
        }
    }
    None
}

/// `s` without the characters `c` at its end.
pub open spec fn without_trailing(s: Seq<char>, c: char) -> Seq<char>
    decreases s.len(),
{
    if s.len() > 0 && s.last() == c {
        without_trailing(s.drop_last(), c)
    } else {
        s
    }
}

/// `s` without the characters `c` at its end.
pub fn trim_end_char(s: &[char], c: char) -> (out: Vec<char>)
    ensures
        out@ == without_trailing(s@, c),
{
    let mut end: usize = s.len();
    assert(s@.take(end as int) =~= s@);
    while end > 0 && s[end - 1] == c
        invariant
            end <= s@.len(),
            without_trailing(s@.take(end as int), c) == without_trailing(s@, c),
        ensures
            end <= s@.len(),
            without_trailing(s@.take(end as int), c) == without_trailing(s@, c),
            end > 0 ==> s@[end - 1] != c,
        decreases end,
    {
        assert(s@.take(end as int).drop_last() =~= s@.take(end - 1));
        end = end - 1;
    }
    let out = cut(s, 0, end);
    assert(out@ =~= s@.take(end as int));
    out
}

/// `s` without leading and trailing white space.
pub fn trim(s: &[char]) -> (out: Vec<char>)
    ensures
        out@ == trimmed(s@),
{
    let ghost drop = |c: char| white_space(c);
    let mut from: usize = 0;
    let mut to: usize = s.len();
    assert(s@.subrange(0, to as int) =~= s@);
    while from < to && s[from].is_whitespace()
        invariant
            from <= to <= s@.len(),
            drop == (|c: char| white_space(c)),
            trimmed_by(s@.subrange(from as int, to as int), drop) == trimmed_by(s@, drop),
        decreases to - from,
    {
        assert(s@.subrange(from as int, to as int).drop_first() =~= s@.subrange(
            from + 1,
            to as int,
        ));
        from = from + 1;
    }
    while from < to && s[to - 1].is_whitespace()
        invariant
            from <= to <= s@.len(),
            drop == (|c: char| white_space(c)),
            from < to ==> !white_space(s@[from as int]),
            trimmed_by(s@.subrange(from as int, to as int), drop) == trimmed_by(s@, drop),
        decreases to - from,
    {
        assert(s@.subrange(from as int, to as int).drop_last() =~= s@.subrange(
            from as int,
            to - 1,
        ));
        to = to - 1;
    }
    cut(s, from, to)
}

/// `s` without leading and trailing copies of `c`.
pub fn trim_char(s: &[char], c: char) -> (out: Vec<char>)
    ensures
        out@ == trimmed_by(s@, |d: char| d == c),
{
    let ghost drop = |d: char| d == c;
    let mut from: usize = 0;
    let mut to: usize = s.len();
    assert(s@.subrange(0, to as int) =~= s@);
    while from < to && s[from] == c
        invariant
            from <= to <= s@.len(),
            drop == (|d: char| d == c),
            trimmed_by(s@.subrange(from as int, to as int), drop) == trimmed_by(s@, drop),
        decreases to - from,
    {
        assert(s@.subrange(from as int, to as int).drop_first() =~= s@.subrange(
            from + 1,
            to as int,
        ));
        from = from + 1;
    }
    while from < to && s[to - 1] == c
        invariant
            from <= to <= s@.len(),
            drop == (|d: char| d == c),
            from < to ==> s@[from as int] != c,
            trimmed_by(s@.subrange(from as int, to as int), drop) == trimmed_by(s@, drop),
        decreases to - from,
    {
        assert(s@.subrange(from as int, to as int).drop_last() =~= s@.subrange(
            from as int,
            to - 1,
        ));
        to = to - 1;
    }
    cut(s, from, to)
}

/// Whether `a` comes strictly before `b`.
pub fn is_before(a: &[char], b: &[char]) -> (answer: bool)
    ensures
        answer == text_lt(a@, b@),
{
    let mut i: usize = 0;
    while i < a.len() && i < b.len()
        invariant
            i <= a@.len(),
            i <= b@.len(),
            forall|j: int| 0 <= j < i ==> a@[j] == b@[j],
        decreases a@.len() - i,
    {
        if a[i] != b[i] {
            let answer = a[i] < b[i];
            if answer {
                assert(below_at(a@, b@, i as int));
            } else {
                assert forall|k: int| !below_at(a@, b@, k) by {
                    if below_at(a@, b@, k) {
                        assert(k <= i);
                        assert(k >= i);
                    }
                }
            }
            return answer;
        }
        i = i + 1;
    }
    if i < b.len() {
        assert(below_at(a@, b@, i as int));
        true
    } else {
        assert forall|k: int| !below_at(a@, b@, k) by {
            if below_at(a@, b@, k) {
                assert(k >= i);
            }
        }
        false
    }
}

/// A string's order with itself and with another: exactly one of before, same
/// and after holds.
pub proof fn lemma_text_order_total(a: Seq<char>, b: Seq<char>)
    ensures
        !text_lt(a, a),
        text_lt(a, b) || a == b || text_lt(b, a),
        !(text_lt(a, b) && text_lt(b, a)),
        text_lt(a, b) ==> a != b,
{
    assert forall|k: int| !below_at(a, a, k) by {}
    if text_lt(a, b) && text_lt(b, a) {
        let i = choose|i: int| below_at(a, b, i);
        let j = choose|j: int| below_at(b, a, j);
        assert(i == j || i < j || j < i);
        assert(false);
    }
    lemma_first_difference(a, b, 0);
}

/// Two strings that agree below `i` compare by what follows.
proof fn lemma_first_difference(a: Seq<char>, b: Seq<char>, i: int)
    requires
        0 <= i <= a.len(),
        i <= b.len(),
        forall|j: int| 0 <= j < i ==> a[j] == b[j],
    ensures
        text_lt(a, b) || a == b || text_lt(b, a),
    decreases a.len() - i,
{
    if i == a.len() && i == b.len() {
        assert(a =~= b);
    } else if i == a.len() {
        assert(below_at(a, b, i));
    } else if i == b.len() {
        assert(below_at(b, a, i));
    } else if a[i] == b[i] {
        lemma_first_difference(a, b, i + 1);
    } else if a[i] < b[i] {
        assert(below_at(a, b, i));
    } else {
        assert(below_at(b, a, i));
    }
}

/// The order of strings is transitive.
pub proof fn lemma_text_order_transitive(a: Seq<char>, b: Seq<char>, c: Seq<char>)
    requires
        text_lt(a, b),
        text_lt(b, c),
    ensures
        text_lt(a, c),
{
    let i = choose|i: int| below_at(a, b, i);
    let j = choose|j: int| below_at(b, c, j);
    let k = if i < j {
        i
    } else {
        j
    };
    assert(below_at(a, c, k));
}

/// What stands between two texts occurs in the whole.
pub(crate) proof fn lemma_occurs(head: Seq<char>, p: Seq<char>, tail: Seq<char>)
    ensures
        occurs_in(head + p + tail, p),
{
    let all = head + p + tail;
    assert(all.subrange(head.len() as int, (head.len() + p.len()) as int) =~= p);
    assert(stands_at(all, p, head.len() as int));
}

/// Where a text stands, begins and ends: exactly where something, possibly nothing, stands
/// before and behind it.
pub proof fn law_occurrence(s: Seq<char>, p: Seq<char>)
    ensures
        occurs_in(s, p) <==> exists|head: Seq<char>, tail: Seq<char>|
            s == #[trigger] (head + p + tail),
        begins_with(s, p) <==> exists|tail: Seq<char>| s == #[trigger] (p + tail),
        ends_in(s, p) <==> exists|head: Seq<char>| s == #[trigger] (head + p),
{
    if occurs_in(s, p) {
        let i = choose|i: int| stands_at(s, p, i);
        assert(s =~= s.take(i) + p + s.skip(i + p.len()));
    }
    if exists|head: Seq<char>, tail: Seq<char>| s == #[trigger] (head + p + tail) {
        let (head, tail) = choose|head: Seq<char>, tail: Seq<char>|
            s == #[trigger] (head + p + tail);
        lemma_occurs(head, p, tail);
    }
    if begins_with(s, p) {
        assert(s =~= p + s.skip(p.len() as int));
    }
    if exists|tail: Seq<char>| s == #[trigger] (p + tail) {
        let tail = choose|tail: Seq<char>| s == #[trigger] (p + tail);
        assert(s.subrange(0, p.len() as int) =~= p);
    }
    if ends_in(s, p) {
        assert(s =~= s.take(s.len() - p.len()) + p);
    }
    if exists|head: Seq<char>| s == #[trigger] (head + p) {
        let head = choose|head: Seq<char>| s == #[trigger] (head + p);
        assert(s.subrange(s.len() - p.len(), s.len() as int) =~= p);
    }
}

/// Strings are ordered by their first difference: one that goes on is behind one that
/// stops, and where they part the character decides.
pub proof fn law_text_order(p: Seq<char>, a: char, b: char, x: Seq<char>, y: Seq<char>)
    ensures
        text_lt(p, p + x) <==> x.len() > 0,
        !text_lt(p + x, p),
        a != b ==> (text_lt(p + seq![a] + x, p + seq![b] + y) <==> a < b),
{
    let n = p.len() as int;
    if x.len() > 0 {
        assert(below_at(p, p + x, n));
    }
    if text_lt(p, p + x) {
        let i = choose|i: int| below_at(p, p + x, i);
        if x.len() == 0 {
            assert(p + x =~= p);
        }
    }
    if text_lt(p + x, p) {
        let i = choose|i: int| below_at(p + x, p, i);
        assert((p + x)[i] == p[i]);
    }
    if a != b {
        let s = p + seq![a] + x;
        let t = p + seq![b] + y;
        assert(s[n] == a && t[n] == b);
        assert forall|j: int| 0 <= j < n implies s[j] == t[j] by {}
        if a < b {
            assert(below_at(s, t, n));
        }
        if text_lt(s, t) {
            let i = choose|i: int| below_at(s, t, i);
            if i < n {
                assert(s[i] == t[i]);
            } else if i > n {
                assert(s[n] == t[n]);
            }
        }
    }
}

/// Lower case changes the ASCII letters A to Z, each to its small letter, and nothing else.
pub proof fn law_lower_case(c: char, s: Seq<char>)
    ensures
        'A' <= c <= 'Z' ==> lower(c) as int == c as int + 32,
        !('A' <= c <= 'Z') ==> lower(c) == c,
        lower_all(s).len() == s.len(),
        forall|i: int| 0 <= i < s.len() ==> #[trigger] lower_all(s)[i] == lower(s[i]),
{
}

/// What is left of a text without a character at its end: it ends in none, and the text is
/// what is left and as many of them as were cut.
pub proof fn law_trailing_characters_are_cut(s: Seq<char>, c: char)
    ensures
        ({
            let left = without_trailing(s, c);
            &&& left.len() > 0 ==> left.last() != c
            &&& left.len() <= s.len() && left == s.take(left.len() as int)
            &&& forall|i: int| left.len() <= i < s.len() ==> s[i] == c
        }),
    decreases s.len(),
{
    if s.len() > 0 && s.last() == c {
        law_trailing_characters_are_cut(s.drop_last(), c);
        let left = without_trailing(s, c);
        assert(left =~= s.take(left.len() as int));
        assert forall|i: int| left.len() <= i < s.len() implies s[i] == c by {
            if i < s.len() - 1 {
                assert(s.drop_last()[i] == c);
            }
        }
    } else {
        assert(s.take(s.len() as int) =~= s);
    }
}

/// What is left of a text without white space around it: it begins and ends in none, stands
/// in the text, and only white space stands around it there.
pub proof fn law_trimmed(s: Seq<char>) -> (from: int)
    ensures
        ({
            let left = trimmed(s);
            &&& left.len() > 0 ==> !white_space(left[0]) && !white_space(left.last())
            &&& 0 <= from && from + left.len() <= s.len()
            &&& left == s.subrange(from, from + left.len())
            &&& forall|i: int| 0 <= i < from || from + left.len() <= i < s.len() ==> white_space(
                s[i],
            )
        }),
    decreases s.len(),
{
    let drop = |c: char| white_space(c);
    lemma_trimmed_by(s, drop)
}

proof fn lemma_trimmed_by(s: Seq<char>, drop: spec_fn(char) -> bool) -> (from: int)
    ensures
        ({
            let left = trimmed_by(s, drop);
            &&& left.len() > 0 ==> !drop(left[0]) && !drop(left.last())
            &&& 0 <= from && from + left.len() <= s.len()
            &&& left == s.subrange(from, from + left.len())
            &&& forall|i: int| 0 <= i < from || from + left.len() <= i < s.len() ==> drop(s[i])
        }),
    decreases s.len(),
{
    let left = trimmed_by(s, drop);
    if s.len() > 0 && drop(s[0]) {
        let inner = lemma_trimmed_by(s.drop_first(), drop);
        assert(left =~= s.subrange(inner + 1, inner + 1 + left.len()));
        assert forall|i: int|
            0 <= i < inner + 1 || inner + 1 + left.len() <= i < s.len() implies drop(s[i]) by {
            if i > 0 {
                assert(s.drop_first()[i - 1] == s[i]);
            }
        }
        inner + 1
    } else if s.len() > 0 && drop(s.last()) {
        let inner = lemma_trimmed_by(s.drop_last(), drop);
        assert(left =~= s.subrange(inner, inner + left.len()));
        assert forall|i: int| 0 <= i < inner || inner + left.len() <= i < s.len() implies drop(
            s[i],
        ) by {
            if i < s.len() - 1 {
                assert(s.drop_last()[i] == s[i]);
            }
        }
        inner
    } else {
        assert(left =~= s.subrange(0, left.len() as int));
        0
    }
}

/// Texts that differ in the case of ASCII letters at most are those with one lower case.
pub(crate) proof fn lemma_lower_word(name: Seq<char>, word: Seq<char>)
    ensures
        same_ignoring_case(name, word) <==> lower_all(name) == lower_all(word),
{
    let a = lower_all(name);
    let b = lower_all(word);
    if same_ignoring_case(name, word) {
        assert forall|i: int| 0 <= i < a.len() implies a[i] == b[i] by {
            assert(lower(name[i]) == lower(word[i]));
        }
        assert(a =~= b);
    }
    if a == b {
        assert(a.len() == name.len() && b.len() == word.len());
        assert forall|i: int| 0 <= i < name.len() implies lower(#[trigger] name[i]) == lower(
            word[i],
        ) by {
            assert(a[i] == b[i]);
        }
    }
}

/// Where a character stands first and last in a text: exactly where none stands before it, and
/// none behind it.
pub proof fn law_first_and_last(head: Seq<char>, c: char, tail: Seq<char>, i: int)
    requires
        !head.contains(c),
    ensures
        first_of(head + seq![c] + tail, c, i) <==> i == head.len(),
        last_of(tail + seq![c] + head, c, i) <==> i == tail.len(),
{
    let s = head + seq![c] + tail;
    let t = tail + seq![c] + head;
    let n = head.len() as int;
    let m = tail.len() as int;
    assert(s[n] == c && t[m] == c);
    assert forall|j: int| 0 <= j < n implies s[j] != c by {
        assert(s[j] == head[j]);
    }
    assert forall|j: int| m < j < t.len() implies t[j] != c by {
        assert(t[j] == head[j - m - 1]);
    }
    if first_of(s, c, i) {
        if i > n {
            assert(s[n] != c);
        }
    }
    if last_of(t, c, i) {
        if i < m {
            assert(t[m] != c);
        }
    }
}

/// No later than a text are that text and those before it, and no others.
pub proof fn law_no_later(a: Seq<char>, b: Seq<char>)
    ensures
        text_le(a, a),
        text_lt(a, b) ==> text_le(a, b),
        text_le(a, b) ==> a == b || text_lt(a, b),
{
}

} // verus!
