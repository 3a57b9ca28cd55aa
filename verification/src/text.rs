//! Text as sequences of characters: trimming, searching, splitting, joining
//! and decimal numerals.

use vstd::prelude::*;
use vstd::string::*;
use vstd::utf8::*;

use crate::composer_history::join_from_the_front;
use crate::order::{insert_sorted_at, is_preorder, sorted};

verus! {

// === Characters ===

/// The characters with the Unicode property `White_Space`.
pub open spec fn is_space(c: char) -> bool {
    ||| '\t' <= c && c <= '\r'
    ||| c == ' '
    ||| c == '\u{85}'
    ||| c == '\u{a0}'
    ||| c == '\u{1680}'
    ||| '\u{2000}' <= c && c <= '\u{200a}'
    ||| c == '\u{2028}'
    ||| c == '\u{2029}'
    ||| c == '\u{202f}'
    ||| c == '\u{205f}'
    ||| c == '\u{3000}'
}

/// `char::is_whitespace` answers whether the character has the Unicode
/// property `White_Space`; [`is_space`] lists the characters that have it.
pub assume_specification[ char::is_whitespace ](c: char) -> (r: bool)
    ensures
        r == is_space(c),
;

/// `String::push` appends one character.
pub assume_specification[ String::push ](s: &mut String, c: char)
    ensures
        final(s)@ == old(s)@.push(c),
;

/// The error of `core::str::from_utf8`.
#[verifier::external_type_specification]
#[verifier::external_body]
pub struct ExUtf8Error(core::str::Utf8Error);

/// `core::str::from_utf8` gives the text that the bytes encode, and an error
/// exactly when they are not valid UTF-8.
pub assume_specification[ core::str::from_utf8 ](v: &[u8]) -> (r: Result<
    &str,
    core::str::Utf8Error,
>)
    ensures
        match r {
            Ok(s) => valid_utf8(v@) && s@ == decode_utf8(v@),
            Err(_) => !valid_utf8(v@),
        },
;

/// The lower-case form of an ASCII letter; every other character is its own.
pub open spec fn lower_char(c: char) -> char {
    if 'A' <= c && c <= 'Z' {
        (c as u8 + 32) as char
    } else {
        c
    }
}

/// A text with its ASCII letters in lower case.
pub open spec fn lower(s: Seq<char>) -> Seq<char> {
    s.map_values(|c: char| lower_char(c))
}

// === Trimming ===

/// A text without its leading white space.
pub open spec fn trim_start(s: Seq<char>) -> Seq<char>
    decreases s.len(),
{
    if s.len() > 0 && is_space(s[0]) {
        trim_start(s.drop_first())
    } else {
        s
    }
}

/// A text without its trailing white space.
pub open spec fn trim_end(s: Seq<char>) -> Seq<char>
    decreases s.len(),
{
    if s.len() > 0 && is_space(s.last()) {
        trim_end(s.drop_last())
    } else {
        s
    }
}

/// A text without white space at either end.
pub open spec fn trim(s: Seq<char>) -> Seq<char> {
    trim_end(trim_start(s))
}

/// A text of white space only, the empty one among them.
pub open spec fn is_blank(s: Seq<char>) -> bool {
    trim(s).len() == 0
}

proof fn trim_start_begins(s: Seq<char>)
    ensures
        trim_start(s).len() > 0 ==> !is_space(trim_start(s)[0]),
    decreases s.len(),
{
    if s.len() > 0 && is_space(s[0]) {
        trim_start_begins(s.drop_first());
    }
}

proof fn trim_end_ends(s: Seq<char>)
    ensures
        trim_end(s).len() > 0 ==> !is_space(trim_end(s).last()),
        trim_end(s).len() > 0 ==> trim_end(s)[0] == s[0],
    decreases s.len(),
{
    if s.len() > 0 && is_space(s.last()) {
        trim_end_ends(s.drop_last());
    }
}

/// A trimmed text has no white space at either end, and trimming it again
/// leaves it as it is.
pub proof fn trim_is_final(s: Seq<char>)
    ensures
        trim(s).len() > 0 ==> !is_space(trim(s)[0]) && !is_space(trim(s).last()),
        trim(trim(s)) == trim(s),
{
    trim_start_begins(s);
    trim_end_ends(trim_start(s));
}

/// Where the text in `v[from..to]` begins and ends once it is trimmed.
pub(crate) fn trim_range(v: &Vec<char>, from: usize, to: usize) -> (r: (usize, usize))
    requires
        from <= to <= v@.len(),
    ensures
        from <= r.0 <= r.1 <= to,
        v@.subrange(r.0 as int, to as int) == trim_start(v@.subrange(from as int, to as int)),
        v@.subrange(r.0 as int, r.1 as int) == trim(v@.subrange(from as int, to as int)),
{
    let mut a: usize = from;
    while a < to && v[a].is_whitespace()
        invariant
            from <= a <= to <= v@.len(),
            trim_start(v@.subrange(a as int, to as int)) == trim_start(
                v@.subrange(from as int, to as int),
            ),
        ensures
            from <= a <= to <= v@.len(),
            trim_start(v@.subrange(a as int, to as int)) == trim_start(
                v@.subrange(from as int, to as int),
            ),
            a < to ==> !is_space(v@[a as int]),
        decreases to - a,
    {
        assert(v@.subrange(a as int, to as int).drop_first() =~= v@.subrange(a + 1, to as int));
        a = a + 1;
    }
    let ghost head = v@.subrange(a as int, to as int);
    let mut b: usize = to;
    while b > a && v[b - 1].is_whitespace()
        invariant
            a <= b <= to <= v@.len(),
            head == v@.subrange(a as int, to as int),
            trim_end(v@.subrange(a as int, b as int)) == trim_end(head),
        ensures
            a <= b <= to <= v@.len(),
            trim_end(v@.subrange(a as int, b as int)) == trim_end(head),
            b > a ==> !is_space(v@[b - 1]),
        decreases b - a,
    {
        assert(v@.subrange(a as int, b as int).drop_last() =~= v@.subrange(a as int, b - 1));
        b = b - 1;
    }
    (a, b)
}

// === Searching ===

/// `p` stands in `s` at position `i`.
pub open spec fn occurs_at(s: Seq<char>, p: Seq<char>, i: int) -> bool {
    0 <= i && i + p.len() <= s.len() && s.subrange(i, i + p.len()) == p
}

/// `s` begins with `p`.
pub open spec fn starts_with(s: Seq<char>, p: Seq<char>) -> bool {
    occurs_at(s, p, 0)
}

/// `p` stands somewhere in `s`.
pub open spec fn contains(s: Seq<char>, p: Seq<char>) -> bool {
    exists|i: int| occurs_at(s, p, i)
}

/// The first position at which `p` stands in `s`.
pub open spec fn find(s: Seq<char>, p: Seq<char>) -> Option<int>
    decreases s.len(),
{
    if occurs_at(s, p, 0) {
        Some(0)
    } else if s.len() == 0 {
        None
    } else {
        match find(s.drop_first(), p) {
            Some(i) => Some(i + 1),
            None => None,
        }
    }
}

/// [`find`] gives a position exactly when there is one, and then the first.
pub proof fn find_is_first(s: Seq<char>, p: Seq<char>)
    ensures
        match find(s, p) {
            Some(i) => occurs_at(s, p, i) && forall|j: int| 0 <= j < i ==> !occurs_at(s, p, j),
            None => !contains(s, p),
        },
    decreases s.len(),
{
    if !occurs_at(s, p, 0) && s.len() > 0 {
        let rest = s.drop_first();
        find_is_first(rest, p);
        assert forall|j: int| occurs_at(s, p, j) implies occurs_at(rest, p, j - 1) by {
            assert(rest.subrange(j - 1, j - 1 + p.len()) =~= s.subrange(j, j + p.len()));
        }
        match find(rest, p) {
            Some(i) => {
                assert(s.subrange(i + 1, i + 1 + p.len()) =~= rest.subrange(i, i + p.len()));
            },
            None => {},
        }
    }
}

/// A position that is first is the one that [`find`] gives.
pub proof fn first_is_found(s: Seq<char>, p: Seq<char>, i: int)
    requires
        occurs_at(s, p, i),
        forall|j: int| 0 <= j < i ==> !occurs_at(s, p, j),
    ensures
        find(s, p) == Some(i),
{
    find_is_first(s, p);
    match find(s, p) {
        Some(k) => {
            if k < i {
                assert(!occurs_at(s, p, k));
            }
            if i < k {
                assert(!occurs_at(s, p, i));
            }
        },
        None => {},
    }
}

/// Whether `p` stands in `v` at position `i`, within the first `to` characters.
pub(crate) fn matches_at(v: &Vec<char>, to: usize, p: &Vec<char>, i: usize) -> (r: bool)
    requires
        i <= to <= v@.len(),
    ensures
        r <==> i + p@.len() <= to && v@.subrange(i as int, i + p@.len()) == p@,
{
    if p.len() > to - i {
        return false;
    }
    let mut k: usize = 0;
    while k < p.len()
        invariant
            i + p@.len() <= to <= v@.len(),
            k <= p@.len(),
            forall|j: int| 0 <= j < k ==> v@[i + j] == p@[j],
        decreases p@.len() - k,
    {
        if v[i + k] != p[k] {
            assert(v@.subrange(i as int, i + p@.len())[k as int] != p@[k as int]);
            return false;
        }
        k = k + 1;
    }
    assert(v@.subrange(i as int, i + p@.len()) =~= p@);
    true
}

/// The first position of `p` in `v[from..to]`, counted from the start of `v`.
pub(crate) fn find_in(v: &Vec<char>, from: usize, to: usize, p: &Vec<char>) -> (r: Option<usize>)
    requires
        from <= to <= v@.len(),
    ensures
        match r {
            Some(i) => from <= i && i + p@.len() <= to && find(
                v@.subrange(from as int, to as int),
                p@,
            ) == Some(i - from),
            None => find(v@.subrange(from as int, to as int), p@) is None,
        },
{
    let ghost s = v@.subrange(from as int, to as int);
    let mut i: usize = from;
    loop
        invariant
            from <= i <= to <= v@.len(),
            s == v@.subrange(from as int, to as int),
            forall|j: int| 0 <= j < i - from ==> !occurs_at(s, p@, j),
        decreases to - i,
    {
        let here: bool = matches_at(v, to, p, i);
        proof {
            if i + p@.len() <= to {
                assert(s.subrange(i - from, i - from + p@.len()) =~= v@.subrange(
                    i as int,
                    i + p@.len(),
                ));
            }
            assert(here == occurs_at(s, p@, i - from));
        }
        if here {
            proof {
                first_is_found(s, p@, i - from);
            }
            return Some(i);
        }
        if i == to {
            proof {
                find_is_first(s, p@);
            }
            return None;
        }
        i = i + 1;
    }
}

// === Splitting ===

/// The first position of `x` in `s`; the length of `s` if it does not occur.
pub open spec fn first_index<T>(s: Seq<T>, x: T) -> int
    decreases s.len(),
{
    if s.len() == 0 || s[0] == x {
        0
    } else {
        1 + first_index(s.drop_first(), x)
    }
}

/// [`first_index`] is within the sequence or its length, and `x` stands there
/// and nowhere before.
pub proof fn first_index_is_first<T>(s: Seq<T>, x: T)
    ensures
        0 <= first_index(s, x) <= s.len(),
        first_index(s, x) < s.len() ==> s[first_index(s, x)] == x,
        forall|j: int| 0 <= j < first_index(s, x) ==> s[j] != x,
    decreases s.len(),
{
    if s.len() > 0 && s[0] != x {
        let rest = s.drop_first();
        first_index_is_first(rest, x);
        assert forall|j: int| 0 <= j < first_index(s, x) implies s[j] != x by {
            if j > 0 {
                assert(rest[j - 1] == s[j]);
            }
        }
    }
}

/// The position before which `x` does not occur, and where it stands or the
/// sequence ends, is the one that [`first_index`] gives.
pub proof fn first_index_is<T>(s: Seq<T>, x: T, i: int)
    requires
        0 <= i <= s.len(),
        i < s.len() ==> s[i] == x,
        forall|j: int| 0 <= j < i ==> s[j] != x,
    ensures
        first_index(s, x) == i,
{
    first_index_is_first(s, x);
    let k = first_index(s, x);
    if k < i {
        assert(s[k] != x);
    }
}

/// The pieces of `s` between the places where `sep` stands.
pub open spec fn split_on<T>(s: Seq<T>, sep: T) -> Seq<Seq<T>>
    decreases s.len(),
{
    let i = first_index(s, sep);
    if i < s.len() {
        proof {
            first_index_is_first(s, sep);
        }
        seq![s.take(i)] + split_on(s.skip(i + 1), sep)
    } else {
        seq![s]
    }
}

/// The first position of `c` in `v[from..to]`, or `to`.
pub(crate) fn index_in(v: &Vec<char>, from: usize, to: usize, c: char) -> (r: usize)
    requires
        from <= to <= v@.len(),
    ensures
        from <= r <= to,
        r - from == first_index(v@.subrange(from as int, to as int), c),
        r < to ==> v@[r as int] == c,
{
    let mut i: usize = from;
    while i < to && v[i] != c
        invariant
            from <= i <= to <= v@.len(),
            forall|j: int| from <= j < i ==> v@[j] != c,
        ensures
            from <= i <= to <= v@.len(),
            forall|j: int| from <= j < i ==> v@[j] != c,
            i < to ==> v@[i as int] == c,
        decreases to - i,
    {
        i = i + 1;
    }
    proof {
        first_index_is(v@.subrange(from as int, to as int), c, i - from);
    }
    i
}

// === Between texts and characters ===

/// The characters of a text.
pub(crate) fn chars_of(s: &str) -> (v: Vec<char>)
    ensures
        v@ == s@,
{
    let mut v: Vec<char> = Vec::new();
    for c in it: s.chars()
        invariant
            v@ == it.seq().take(it.index() as int),
            it.seq() == s@,
    {
        v.push(c);
    }
    v
}

/// Appends the characters `v[from..to]`.
pub(crate) fn push_range(out: &mut String, v: &Vec<char>, from: usize, to: usize)
    requires
        from <= to <= v@.len(),
    ensures
        final(out)@ == old(out)@ + v@.subrange(from as int, to as int),
{
    let ghost start = out@;
    let mut i: usize = from;
    while i < to
        invariant
            from <= i <= to <= v@.len(),
            out@ =~= start + v@.subrange(from as int, i as int),
        decreases to - i,
    {
        out.push(v[i]);
        i = i + 1;
    }
}

/// The text of the characters `v[from..to]`.
pub(crate) fn string_of(v: &Vec<char>, from: usize, to: usize) -> (s: String)
    requires
        from <= to <= v@.len(),
    ensures
        s@ == v@.subrange(from as int, to as int),
{
    let mut s: String = String::new();
    push_range(&mut s, v, from, to);
    assert(s@ =~= v@.subrange(from as int, to as int));
    s
}

/// Whether two texts are the same.
pub(crate) fn same_text(a: &str, b: &str) -> (r: bool)
    ensures
        r == (a@ == b@),
{
    let x: &[u8] = a.as_bytes();
    let y: &[u8] = b.as_bytes();
    if x.len() != y.len() {
        return false;
    }
    let mut i: usize = 0;
    while i < x.len()
        invariant
            x@ == encode_utf8(a@),
            y@ == encode_utf8(b@),
            x@.len() == y@.len(),
            i <= x@.len(),
            forall|j: int| 0 <= j < i ==> x@[j] == y@[j],
        decreases x@.len() - i,
    {
        if x[i] != y[i] {
            return false;
        }
        i = i + 1;
    }
    proof {
        assert(x@ =~= y@);
        encode_utf8_decode_utf8(a@);
        encode_utf8_decode_utf8(b@);
    }
    true
}

/// A text without white space at either end.
pub(crate) fn trimmed(s: &str) -> (r: String)
    ensures
        r@ == trim(s@),
{
    let v: Vec<char> = chars_of(s);
    let (a, b) = trim_range(&v, 0, v.len());
    assert(v@.subrange(0, v@.len() as int) =~= s@);
    string_of(&v, a, b)
}

/// Whether a text holds white space only.
pub(crate) fn blank(s: &str) -> (r: bool)
    ensures
        r == is_blank(s@),
{
    let v: Vec<char> = chars_of(s);
    let (a, b) = trim_range(&v, 0, v.len());
    assert(v@.subrange(0, v@.len() as int) =~= s@);
    a == b
}

/// Whether `p` stands somewhere in `s`.
pub(crate) fn has(s: &str, p: &str) -> (r: bool)
    ensures
        r == contains(s@, p@),
{
    let v: Vec<char> = chars_of(s);
    let q: Vec<char> = chars_of(p);
    assert(v@.subrange(0, v@.len() as int) =~= s@);
    proof {
        find_is_first(s@, p@);
    }
    find_in(&v, 0, v.len(), &q).is_some()
}

// === Numerals ===

/// The character of a decimal digit.
pub open spec fn digit(d: nat) -> char {
    (48 + d) as char
}

/// The decimal numeral of a number, without leading zeros.
pub open spec fn decimal(n: nat) -> Seq<char>
    decreases n,
{
    if n < 10 {
        seq![digit(n)]
    } else {
        decimal(n / 10).push(digit(n % 10))
    }
}

/// Appends the decimal numeral of `n`.
pub(crate) fn push_decimal(out: &mut String, n: u64)
    ensures
        final(out)@ == old(out)@ + decimal(n as nat),
    decreases n,
{
    if n >= 10 {
        push_decimal(out, n / 10);
    }
    let d: u8 = (n % 10) as u8;
    let ghost before = out@;
    out.push((48 + d) as char);
    assert(before.push(digit((n % 10) as nat)) =~= old(out)@ + decimal(n as nat));
}

// === Order ===

/// `a` stands before `b` in the lexicographic order by code points, or is the same text.
pub open spec fn not_after(a: Seq<char>, b: Seq<char>) -> bool
    decreases a.len(),
{
    if a.len() == 0 {
        true
    } else if b.len() == 0 {
        false
    } else if a[0] == b[0] {
        not_after(a.drop_first(), b.drop_first())
    } else {
        a[0] < b[0]
    }
}

/// The order by code points compares every two texts.
proof fn not_after_is_total(a: Seq<char>, b: Seq<char>)
    ensures
        not_after(a, b) || not_after(b, a),
    decreases a.len(),
{
    if a.len() > 0 && b.len() > 0 && a[0] == b[0] {
        not_after_is_total(a.drop_first(), b.drop_first());
    }
}

/// The order by code points is transitive.
proof fn not_after_is_transitive(a: Seq<char>, b: Seq<char>, c: Seq<char>)
    requires
        not_after(a, b),
        not_after(b, c),
    ensures
        not_after(a, c),
    decreases a.len(),
{
    if a.len() > 0 && b.len() > 0 && c.len() > 0 && a[0] == b[0] && b[0] == c[0] {
        not_after_is_transitive(a.drop_first(), b.drop_first(), c.drop_first());
    }
}

/// Different texts are never equal in the order.
pub proof fn not_after_is_antisymmetric(a: Seq<char>, b: Seq<char>)
    requires
        not_after(a, b),
        not_after(b, a),
    ensures
        a == b,
    decreases a.len(),
{
    if a.len() > 0 {
        not_after_is_antisymmetric(a.drop_first(), b.drop_first());
        assert(a =~= seq![a[0]] + a.drop_first());
        assert(b =~= seq![b[0]] + b.drop_first());
    } else {
        assert(a =~= b);
    }
}

/// The order by code points, as a function.
pub open spec fn text_order() -> spec_fn(Seq<char>, Seq<char>) -> bool {
    |a: Seq<char>, b: Seq<char>| not_after(a, b)
}

/// The order by code points is one to sort by.
pub proof fn text_order_is_preorder()
    ensures
        is_preorder(text_order()),
{
    let le = text_order();
    assert forall|a: Seq<char>, b: Seq<char>| #![trigger le(a, b)] le(a, b) || le(b, a) by {
        not_after_is_total(a, b);
    }
    assert forall|a: Seq<char>, b: Seq<char>, c: Seq<char>|
        #![trigger le(a, b), le(b, c)]
        le(a, b) && le(b, c) implies le(a, c) by {
        not_after_is_transitive(a, b, c);
    }
}

/// Whether `a` stands before `b` or is the same text.
fn text_not_after(a: &str, b: &str) -> (r: bool)
    ensures
        r == not_after(a@, b@),
{
    let x: Vec<char> = chars_of(a);
    let y: Vec<char> = chars_of(b);
    let mut i: usize = 0;
    assert(a@.skip(0) =~= a@);
    assert(b@.skip(0) =~= b@);
    loop
        invariant
            x@ == a@,
            y@ == b@,
            i <= x@.len(),
            i <= y@.len(),
            not_after(a@, b@) == not_after(a@.skip(i as int), b@.skip(i as int)),
        decreases x@.len() - i,
    {
        if i == x.len() {
            return true;
        }
        if i == y.len() {
            return false;
        }
        if x[i] != y[i] {
            return x[i] < y[i];
        }
        assert(a@.skip(i as int).drop_first() =~= a@.skip(i + 1));
        assert(b@.skip(i as int).drop_first() =~= b@.skip(i + 1));
        i = i + 1;
    }
}

/// The texts in the order by code points.
pub(crate) fn sorted_texts(names: &Vec<String>) -> (r: Vec<String>)
    ensures
        texts(r@) == sorted(texts(names@), text_order()),
{
    let ghost all = texts(names@);
    let mut out: Vec<String> = Vec::new();
    let mut i: usize = 0;
    assert(texts(out@) =~= sorted(all.take(0), text_order()));
    while i < names.len()
        invariant
            i <= names@.len(),
            all == texts(names@),
            texts(out@) == sorted(all.take(i as int), text_order()),
        decreases names@.len() - i,
    {
        let name: String = names[i].clone();
        let mut at: usize = out.len();
        while at > 0 && !text_not_after(out[at - 1].as_str(), name.as_str())
            invariant
                at <= out@.len(),
                forall|j: int|
                    at <= j < out@.len() ==> !not_after(#[trigger] texts(out@)[j], name@),
            ensures
                at <= out@.len(),
                forall|j: int|
                    at <= j < out@.len() ==> !not_after(#[trigger] texts(out@)[j], name@),
                at > 0 ==> not_after(texts(out@)[at - 1], name@),
            decreases at,
        {
            at = at - 1;
        }
        let ghost before = texts(out@);
        out.insert(at, name);
        proof {
            insert_sorted_at(before, name@, text_order(), at as int);
            assert(texts(out@) =~= before.insert(at as int, name@));
            assert(all.take(i + 1).drop_last() =~= all.take(i as int));
        }
        i = i + 1;
    }
    assert(all.take(names@.len() as int) =~= all);
    out
}

// === Lists of texts ===

/// The texts in a list.
pub open spec fn texts(v: Seq<String>) -> Seq<Seq<char>> {
    v.map_values(|s: String| s@)
}

/// The texts one after the other, with `sep` between neighbours.
pub open spec fn join(parts: Seq<Seq<char>>, sep: Seq<char>) -> Seq<char>
    decreases parts.len(),
{
    if parts.len() == 0 {
        Seq::empty()
    } else if parts.len() == 1 {
        parts[0]
    } else {
        join(parts.drop_last(), sep) + sep + parts.last()
    }
}

/// The texts one after the other, with `sep` between neighbours.
pub(crate) fn joined(parts: &Vec<String>, sep: &str) -> (r: String)
    ensures
        r@ == join(texts(parts@), sep@),
{
    let ghost all = texts(parts@);
    let mut out: String = String::new();
    let mut i: usize = 0;
    while i < parts.len()
        invariant
            all == texts(parts@),
            i <= parts@.len(),
            out@ == join(all.take(i as int), sep@),
        decreases parts@.len() - i,
    {
        if i > 0 {
            out.append(sep);
        }
        out.append(parts[i].as_str());
        proof {
            assert(all.take(i + 1).drop_last() =~= all.take(i as int));
            assert(all.take(i + 1).last() == parts@[i as int]@);
            if i == 0 {
                assert(out@ =~= parts@[0]@);
            }
        }
        i = i + 1;
    }
    assert(all.take(parts@.len() as int) =~= all);
    out
}

// === Laws ===

/// Every character is white space.
pub open spec fn all_space(s: Seq<char>) -> bool {
    forall|i: int| 0 <= i < s.len() ==> is_space(#[trigger] s[i])
}

/// There is no white space at either end.
pub open spec fn is_tidy(s: Seq<char>) -> bool {
    s.len() > 0 ==> !is_space(s[0]) && !is_space(s[s.len() - 1])
}

pub(crate) proof fn leading_space_goes(u: Seq<char>, x: Seq<char>)
    requires
        all_space(u),
        x.len() > 0 ==> !is_space(x[0]),
    ensures
        trim_start(u + x) == x,
    decreases u.len(),
{
    if u.len() > 0 {
        assert((u + x)[0] == u[0]);
        assert((u + x).drop_first() =~= u.drop_first() + x);
        assert forall|i: int| 0 <= i < u.drop_first().len() implies is_space(
            #[trigger] u.drop_first()[i],
        ) by {
            assert(u.drop_first()[i] == u[i + 1]);
        }
        leading_space_goes(u.drop_first(), x);
    } else {
        assert(u + x =~= x);
    }
}

proof fn trailing_space_goes(x: Seq<char>, w: Seq<char>)
    requires
        all_space(w),
        x.len() > 0 ==> !is_space(x.last()),
    ensures
        trim_end(x + w) == x,
    decreases w.len(),
{
    if w.len() > 0 {
        assert((x + w).last() == w[w.len() - 1]);
        assert((x + w).drop_last() =~= x + w.drop_last());
        assert forall|i: int| 0 <= i < w.drop_last().len() implies is_space(
            #[trigger] w.drop_last()[i],
        ) by {
            assert(w.drop_last()[i] == w[i]);
        }
        trailing_space_goes(x, w.drop_last());
    } else {
        assert(x + w =~= x);
    }
}

/// Trimming takes away exactly the white space before and behind a text.
pub proof fn trim_takes_the_ends(u: Seq<char>, m: Seq<char>, w: Seq<char>)
    requires
        all_space(u),
        all_space(w),
        is_tidy(m),
    ensures
        trim(u + m + w) == m,
        m.len() > 0 ==> trim_start(u + m + w) == m + w,
{
    if m.len() > 0 {
        assert(u + m + w =~= u + (m + w));
        leading_space_goes(u, m + w);
        trailing_space_goes(m, w);
    } else {
        let x = u + m + w;
        assert(m =~= Seq::empty());
        assert forall|i: int| 0 <= i < x.len() implies is_space(#[trigger] x[i]) by {
            if i < u.len() {
                assert(x[i] == u[i]);
            } else {
                assert(x[i] == w[i - u.len()]);
            }
        }
        assert(x + m =~= x);
        leading_space_goes(x, m);
    }
}

pub(crate) proof fn trim_start_splits(s: Seq<char>) -> (u: Seq<char>)
    ensures
        all_space(u),
        s == u + trim_start(s),
    decreases s.len(),
{
    if s.len() > 0 && is_space(s[0]) {
        let v = trim_start_splits(s.drop_first());
        let u = seq![s[0]] + v;
        let t = trim_start(s);
        assert(s =~= seq![s[0]] + s.drop_first());
        assert(u + t =~= seq![s[0]] + (v + t));
        assert forall|i: int| 0 <= i < u.len() implies is_space(#[trigger] u[i]) by {
            if i > 0 {
                assert(u[i] == v[i - 1]);
            }
        }
        u
    } else {
        assert(s =~= Seq::<char>::empty() + s);
        Seq::empty()
    }
}

proof fn trim_end_splits(s: Seq<char>) -> (w: Seq<char>)
    ensures
        all_space(w),
        s == trim_end(s) + w,
    decreases s.len(),
{
    if s.len() > 0 && is_space(s.last()) {
        let v = trim_end_splits(s.drop_last());
        let w = v.push(s.last());
        let t = trim_end(s);
        assert(s =~= s.drop_last().push(s.last()));
        assert(t + w =~= (t + v).push(s.last()));
        w
    } else {
        assert(s =~= s + Seq::<char>::empty());
        Seq::empty()
    }
}

/// Every text is its trimmed form between two texts of white space, and no
/// character of another kind is lost.
pub proof fn trim_splits(s: Seq<char>) -> (r: (Seq<char>, Seq<char>))
    ensures
        all_space(r.0),
        all_space(r.1),
        s == r.0 + trim(s) + r.1,
        is_tidy(trim(s)),
        forall|i: int|
            0 <= i < s.len() && !is_space(#[trigger] s[i]) ==> r.0.len() <= i < s.len()
                - r.1.len() && trim(s)[i - r.0.len()] == s[i],
{
    let u = trim_start_splits(s);
    let w = trim_end_splits(trim_start(s));
    trim_is_final(s);
    assert(s =~= u + trim(s) + w);
    assert forall|i: int| 0 <= i < s.len() && !is_space(#[trigger] s[i]) implies u.len() <= i
        < s.len() - w.len() && trim(s)[i - u.len()] == s[i] by {
        if i < u.len() {
            assert(s[i] == u[i]);
        } else if i >= s.len() - w.len() {
            assert(s[i] == w[i - (s.len() - w.len())]);
        }
    }
    (u, w)
}

/// A text is blank exactly when every character is white space.
pub proof fn blank_is_all_space(s: Seq<char>)
    ensures
        is_blank(s) <==> forall|i: int| 0 <= i < s.len() ==> is_space(#[trigger] s[i]),
{
    let (u, w) = trim_splits(s);
    if is_blank(s) {
        assert forall|i: int| 0 <= i < s.len() implies is_space(#[trigger] s[i]) by {
            if !is_space(s[i]) {
                assert(trim(s)[i - u.len()] == s[i]);
            }
        }
    } else {
        assert(trim(s)[0] == s[u.len() as int]);
    }
}

/// A text stands in another at a position exactly when it stands there
/// character by character.
pub proof fn occurrence_is_character_by_character(s: Seq<char>, p: Seq<char>, i: int)
    ensures
        occurs_at(s, p, i) <==> {
            &&& 0 <= i
            &&& i + p.len() <= s.len()
            &&& forall|k: int| 0 <= k < p.len() ==> s[i + k] == #[trigger] p[k]
        },
{
    if 0 <= i && i + p.len() <= s.len() {
        let part = s.subrange(i, i + p.len());
        if occurs_at(s, p, i) {
            assert forall|k: int| 0 <= k < p.len() implies s[i + k] == #[trigger] p[k] by {
                assert(part[k] == p[k]);
            }
        }
        if forall|k: int| 0 <= k < p.len() ==> s[i + k] == #[trigger] p[k] {
            assert(part =~= p);
        }
    }
}

/// A text holds another exactly when it is that one with something before and
/// something behind; it starts with it exactly when nothing is before.
pub proof fn containing_is_being_around(s: Seq<char>, p: Seq<char>)
    ensures
        contains(s, p) <==> exists|a: Seq<char>, b: Seq<char>| s == #[trigger] (a + p + b),
        starts_with(s, p) <==> exists|b: Seq<char>| s == #[trigger] (p + b),
{
    if contains(s, p) {
        let i = choose|i: int| occurs_at(s, p, i);
        assert(s =~= s.take(i) + p + s.skip(i + p.len()));
    }
    if starts_with(s, p) {
        assert(s =~= p + s.skip(p.len() as int));
    }
    assert forall|a: Seq<char>, b: Seq<char>| s == #[trigger] (a + p + b) implies contains(s, p) by {
        assert(s.subrange(a.len() as int, (a.len() + p.len()) as int) =~= p);
        assert(occurs_at(s, p, a.len() as int));
    }
    assert forall|b: Seq<char>| s == #[trigger] (p + b) implies starts_with(s, p) by {
        assert(s.subrange(0, p.len() as int) =~= p);
    }
}

/// The pieces of a text hold no separator, and with a separator between
/// neighbours they are the text.
pub proof fn split_is_undone_by_join(s: Seq<char>, sep: char)
    ensures
        split_on(s, sep).len() > 0,
        join(split_on(s, sep), seq![sep]) == s,
        forall|i: int|
            0 <= i < split_on(s, sep).len() ==> !(#[trigger] split_on(s, sep)[i]).contains(sep),
    decreases s.len(),
{
    let i = first_index(s, sep);
    first_index_is_first(s, sep);
    let pieces = split_on(s, sep);
    if i < s.len() {
        let rest = split_on(s.skip(i + 1), sep);
        split_is_undone_by_join(s.skip(i + 1), sep);
        join_from_the_front(pieces, seq![sep]);
        assert(pieces.drop_first() =~= rest);
        assert(s =~= s.take(i) + seq![sep] + s.skip(i + 1));
        assert forall|k: int| 0 <= k < pieces.len() implies !(#[trigger] pieces[k]).contains(
            sep,
        ) by {
            if k > 0 {
                assert(pieces[k] == rest[k - 1]);
            }
        }
    }
}

/// The lower-case form of a text has the same characters, but for the letters
/// from `A` to `Z`, which become those from `a` to `z`.
pub proof fn lower_changes_capitals_only(s: Seq<char>)
    ensures
        lower(s).len() == s.len(),
        forall|i: int|
            0 <= i < s.len() ==> if 65 <= (#[trigger] s[i]) as u32 && s[i] as u32 <= 90 {
                lower(s)[i] as u32 == s[i] as u32 + 32
            } else {
                lower(s)[i] == s[i]
            },
{
}

/// A number below ten is written as its digit, and ten times a number and a
/// digit as the number with the digit behind it.
pub proof fn decimal_is_digit_by_digit(n: nat, d: nat)
    requires
        d < 10,
    ensures
        decimal(d) == seq!["0123456789"@[d as int]],
        n > 0 ==> decimal(10 * n + d) == decimal(n) + decimal(d),
{
    reveal_strlit("0123456789");
    if n > 0 {
        assert((10 * n + d) / 10 == n);
        assert((10 * n + d) % 10 == d);
        assert(decimal(n) + decimal(d) =~= decimal(n).push(digit(d)));
    }
}

/// One text stands before another exactly when it is the beginning of the
/// other, or has the lesser code point where they first differ.
pub proof fn order_is_by_first_difference(a: Seq<char>, b: Seq<char>)
    ensures
        not_after(a, b) <==> {
            ||| a.len() <= b.len() && a == b.take(a.len() as int)
            ||| exists|k: int|
                #![trigger a[k]]
                0 <= k < a.len() && k < b.len() && a.take(k) == b.take(k) && a[k] < b[k]
        },
    decreases a.len(),
{
    if a.len() == 0 {
        assert(a =~= b.take(0));
    } else if b.len() > 0 && a[0] == b[0] {
        let (x, y) = (a.drop_first(), b.drop_first());
        order_is_by_first_difference(x, y);
        if a.len() <= b.len() {
            if x == y.take(x.len() as int) {
                assert forall|i: int| 0 <= i < a.len() implies #[trigger] a[i] == b.take(
                    a.len() as int,
                )[i] by {
                    if i > 0 {
                        assert(x[i - 1] == y.take(x.len() as int)[i - 1]);
                    }
                }
                assert(a =~= b.take(a.len() as int));
            }
            if a == b.take(a.len() as int) {
                assert forall|i: int| 0 <= i < x.len() implies #[trigger] x[i] == y.take(
                    x.len() as int,
                )[i] by {
                    assert(a[i + 1] == b.take(a.len() as int)[i + 1]);
                }
                assert(x =~= y.take(x.len() as int));
            }
        }
        if exists|k: int|
            #![trigger x[k]]
            0 <= k < x.len() && k < y.len() && x.take(k) == y.take(k) && x[k] < y[k] {
            let k = choose|k: int|
                #![trigger x[k]]
                0 <= k < x.len() && k < y.len() && x.take(k) == y.take(k) && x[k] < y[k];
            let (ak, bk) = (a.take(k + 1), b.take(k + 1));
            assert forall|i: int| 0 <= i < ak.len() implies #[trigger] ak[i] == bk[i] by {
                if i > 0 {
                    assert(x.take(k)[i - 1] == y.take(k)[i - 1]);
                }
            }
            assert(a.take(k + 1) =~= b.take(k + 1));
            assert(a[k + 1] == x[k]);
        }
        if exists|k: int|
            #![trigger a[k]]
            0 <= k < a.len() && k < b.len() && a.take(k) == b.take(k) && a[k] < b[k] {
            let k = choose|k: int|
                #![trigger a[k]]
                0 <= k < a.len() && k < b.len() && a.take(k) == b.take(k) && a[k] < b[k];
            assert(k > 0);
            let (xk, yk) = (x.take(k - 1), y.take(k - 1));
            assert forall|i: int| 0 <= i < xk.len() implies #[trigger] xk[i] == yk[i] by {
                assert(a.take(k)[i + 1] == b.take(k)[i + 1]);
            }
            assert(x.take(k - 1) =~= y.take(k - 1));
            assert(x[k - 1] == a[k]);
        }
    } else if b.len() > 0 {
        if a[0] < b[0] {
            assert(a.take(0) =~= b.take(0));
        } else {
            if a.len() <= b.len() && a == b.take(a.len() as int) {
                assert(a[0] == b.take(a.len() as int)[0]);
            }
            assert forall|k: int|
                #![trigger a[k]]
                0 <= k < a.len() && k < b.len() && a.take(k) == b.take(k) implies !(a[k] < b[k]) by {
                if k > 0 {
                    assert(a.take(k)[0] == b.take(k)[0]);
                }
            }
        }
    }
}

/// Joining puts the separator between neighbours and nowhere else.
pub proof fn join_puts_the_separator_between(
    parts: Seq<Seq<char>>,
    part: Seq<char>,
    sep: Seq<char>,
)
    ensures
        join(Seq::empty(), sep) == Seq::<char>::empty(),
        join(seq![part], sep) == part,
        parts.len() > 0 ==> join(parts.push(part), sep) == join(parts, sep) + sep + part,
{
    assert(parts.push(part).drop_last() =~= parts);
}

/// A list of texts is seen as the texts in it, each in its place.
pub proof fn texts_are_in_their_places(v: Seq<String>)
    ensures
        texts(v).len() == v.len(),
        forall|i: int| 0 <= i < v.len() ==> #[trigger] texts(v)[i] == v[i]@,
{
}


} // verus!
