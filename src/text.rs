//! Character-level helpers on callsign text.

use vstd::prelude::*;

verus! {

/// An upper-case ASCII letter.
pub open spec fn is_letter(c: char) -> bool {
    'A' <= c <= 'Z'
}

/// An ASCII letter of either case. Callsigns hold no other letters.
pub open spec fn is_ascii_letter(c: char) -> bool {
    ('A' <= c <= 'Z') || ('a' <= c <= 'z')
}

/// An ASCII decimal digit.
pub open spec fn is_digit(c: char) -> bool {
    '0' <= c <= '9'
}

/// A character that may stand in a callsign part.
pub open spec fn is_call_char(c: char) -> bool {
    is_letter(c) || is_digit(c)
}

/// The shape every callsign must have: not empty, only upper-case letters, digits
/// and `/`, and neither the first nor the last character is `/`.
pub open spec fn has_basic_format(s: Seq<char>) -> bool {
    &&& s.len() >= 1
    &&& is_call_char(s[0])
    &&& is_call_char(s[s.len() - 1])
    &&& forall|i: int| 0 <= i < s.len() ==> is_call_char(#[trigger] s[i]) || s[i] == '/'
}

/// `s` cut at every `/`; the pieces keep their order and may be empty.
pub open spec fn split_slash(s: Seq<char>) -> Seq<Seq<char>>
    decreases s.len(),
{
    if s.len() == 0 {
        seq![Seq::<char>::empty()]
    } else {
        let rest = split_slash(s.drop_last());
        if s.last() == '/' {
            rest.push(Seq::<char>::empty())
        } else {
            rest.update(rest.len() - 1, rest.last().push(s.last()))
        }
    }
}

pub proof fn lemma_split_slash_nonempty(s: Seq<char>)
    ensures
        split_slash(s).len() >= 1,
    decreases s.len(),
{
    if s.len() > 0 {
        lemma_split_slash_nonempty(s.drop_last());
    }
}

/// The views of a sequence of string slices.
pub open spec fn views_of(v: Seq<&str>) -> Seq<Seq<char>> {
    v.map_values(|p: &str| p@)
}

/// Whether two strings hold the same characters.
pub fn str_eq(a: &str, b: &str) -> (r: bool)
    ensures
        r == (a@ == b@),
{
    let n = a.unicode_len();
    let m = b.unicode_len();
    if n != m {
        return false;
    }
    let mut i: usize = 0;
    while i < n
        invariant
            n == a@.len(),
            m == b@.len(),
            n == m,
            i <= n,
            a@.take(i as int) == b@.take(i as int),
        decreases n - i,
    {
        if a.get_char(i) != b.get_char(i) {
            assert(a@[i as int] != b@[i as int]);
            return false;
        }
        assert(a@.take(i + 1) =~= a@.take(i as int).push(a@[i as int]));
        assert(b@.take(i + 1) =~= b@.take(i as int).push(b@[i as int]));
        i = i + 1;
    }
    assert(a@ =~= a@.take(n as int));
    assert(b@ =~= b@.take(n as int));
    true
}

/// Whether `s` holds a `/`.
pub fn contains_slash(s: &str) -> (r: bool)
    ensures
        r == s@.contains('/'),
{
    let n = s.unicode_len();
    let mut i: usize = 0;
    while i < n
        invariant
            n == s@.len(),
            i <= n,
            forall|j: int| 0 <= j < i ==> s@[j] != '/',
        decreases n - i,
    {
        if s.get_char(i) == '/' {
            return true;
        }
        i = i + 1;
    }
    false
}

/// Whether `call` has the basic shape of a callsign (see `has_basic_format`).
pub fn check_basic_format(call: &str) -> (r: bool)
    ensures
        r == has_basic_format(call@),
{
    let n = call.unicode_len();
    if n < 1 {
        return false;
    }
    let first = call.get_char(0);
    let last = call.get_char(n - 1);
    let first_ok = ('A' <= first && first <= 'Z') || ('0' <= first && first <= '9');
    let last_ok = ('A' <= last && last <= 'Z') || ('0' <= last && last <= '9');
    if !first_ok || !last_ok {
        return false;
    }
    let mut i: usize = 0;
    while i < n
        invariant
            n == call@.len(),
            i <= n,
            forall|j: int| 0 <= j < i ==> is_call_char(#[trigger] call@[j]) || call@[j] == '/',
        decreases n - i,
    {
        let c = call.get_char(i);
        if !(('A' <= c && c <= 'Z') || ('0' <= c && c <= '9') || c == '/') {
            return false;
        }
        i = i + 1;
    }
    true
}

/// The parts of `call` between its `/` separators, as slices of `call`.
pub fn split_call(call: &str) -> (parts: Vec<&str>)
    ensures
        views_of(parts@) == split_slash(call@),
{
    let n = call.unicode_len();
    let mut parts: Vec<&str> = Vec::new();
    let mut start: usize = 0;
    let mut i: usize = 0;
    assert(call@.take(0) =~= Seq::<char>::empty());
    assert(views_of(parts@) =~= Seq::<Seq<char>>::empty());
    assert(views_of(parts@).push(call@.subrange(0, 0)) =~= split_slash(call@.take(0)));
    while i < n
        invariant
            n == call@.len(),
            start <= i <= n,
            views_of(parts@).push(call@.subrange(start as int, i as int)) == split_slash(
                call@.take(i as int),
            ),
        decreases n - i,
    {
        let c = call.get_char(i);
        let ghost before = call@.take(i as int);
        assert(call@.take(i + 1).drop_last() =~= before);
        assert(call@.take(i + 1).last() == c);
        if c == '/' {
            let part = call.substring_char(start, i);
            let ghost prev_parts = parts@;
            parts.push(part);
            assert(views_of(parts@) =~= views_of(prev_parts).push(part@));
            assert(call@.subrange((i + 1) as int, (i + 1) as int) =~= Seq::<char>::empty());
            start = i + 1;
        } else {
            assert(call@.subrange(start as int, i + 1) =~= call@.subrange(
                start as int,
                i as int,
            ).push(c));
            let ghost prev = views_of(parts@).push(call@.subrange(start as int, i as int));
            assert(views_of(parts@).push(call@.subrange(start as int, i + 1)) =~= prev.update(
                prev.len() - 1,
                prev.last().push(c),
            ));
        }
        i = i + 1;
    }
    let last = call.substring_char(start, n);
    let ghost prev_parts = parts@;
    parts.push(last);
    assert(call@.take(n as int) =~= call@);
    assert(views_of(parts@) =~= views_of(prev_parts).push(last@));
    parts
}

} // verus!
