//! Text helpers shared by the generator and the query planner.
//!
//! Strings are read through their view, a sequence of characters, and every
//! position in this module counts characters, not bytes.

use vstd::prelude::*;
use vstd::std_specs::iter::IteratorSpec;

verus! {

/// `String::push` appends one character to the end of the string and leaves
/// the characters before it as they were.
pub assume_specification[ String::push ](s: &mut String, ch: char)
    ensures
        final(s)@ == old(s)@.push(ch),
;

/// The views of a list of strings, element by element.
pub open spec fn texts(v: Seq<String>) -> Seq<Seq<char>> {
    Seq::new(v.len(), |i: int| v[i]@)
}

/// Position of the first `c` in `s`, or `s.len()` when `s` holds none.
pub open spec fn first_index(s: Seq<char>, c: char) -> int
    decreases s.len(),
{
    if s.len() == 0 {
        0
    } else if s[0] == c {
        0
    } else {
        1 + first_index(s.drop_first(), c)
    }
}

/// What stands before the first `c` in `s` (all of `s` when there is none).
pub open spec fn before_first(s: Seq<char>, c: char) -> Seq<char> {
    s.take(first_index(s, c))
}

/// What stands after the first `c` in `s` (nothing when there is none).
pub open spec fn after_first(s: Seq<char>, c: char) -> Seq<char> {
    if first_index(s, c) < s.len() {
        s.skip(first_index(s, c) + 1)
    } else {
        Seq::empty()
    }
}

/// `first_index` is the least position that holds `c`.
pub proof fn lemma_first_index(s: Seq<char>, c: char)
    ensures
        0 <= first_index(s, c) <= s.len(),
        first_index(s, c) < s.len() ==> s[first_index(s, c)] == c,
        forall|j: int| 0 <= j < first_index(s, c) ==> s[j] != c,
        first_index(s, c) < s.len() <==> s.contains(c),
    decreases s.len(),
{
    if s.len() == 0 {
    } else if s[0] == c {
    } else {
        let t = s.drop_first();
        lemma_first_index(t, c);
        assert forall|j: int| 0 <= j < first_index(s, c) implies s[j] != c by {
            if j > 0 {
                assert(s[j] == t[j - 1]);
            }
        }
        if first_index(s, c) < s.len() {
            assert(s[first_index(s, c)] == t[first_index(t, c)]);
        }
        if s.contains(c) {
            let k = choose|k: int| 0 <= k < s.len() && s[k] == c;
            assert(t[k - 1] == c);
        }
    }
}

/// A position that holds `c` with no `c` before it is the first index.
pub proof fn lemma_first_index_is(s: Seq<char>, c: char, i: int)
    requires
        0 <= i <= s.len(),
        i < s.len() ==> s[i] == c,
        forall|j: int| 0 <= j < i ==> s[j] != c,
    ensures
        first_index(s, c) == i,
{
    lemma_first_index(s, c);
    let f = first_index(s, c);
    if f < i {
        assert(s[f] != c);
    }
}

/// The first `c` of `a + [c] + b` is the one in the middle when `a` holds none.
pub proof fn lemma_first_index_joined(a: Seq<char>, c: char, b: Seq<char>)
    requires
        !a.contains(c),
    ensures
        first_index(a.push(c) + b, c) == a.len(),
        before_first(a.push(c) + b, c) == a,
        after_first(a.push(c) + b, c) == b,
{
    let s = a.push(c) + b;
    assert forall|j: int| 0 <= j < a.len() implies s[j] != c by {
        assert(s[j] == a[j]);
        assert(a.contains(a[j]));
    }
    assert(s[a.len() as int] == c);
    lemma_first_index_is(s, c, a.len() as int);
    assert(s.take(a.len() as int) =~= a);
    assert(s.skip(a.len() as int + 1) =~= b);
}

/// Order of two strings by their code points, the first difference deciding
/// and a proper prefix coming first.
pub open spec fn lex_less(a: Seq<char>, b: Seq<char>) -> bool
    decreases a.len(),
{
    if b.len() == 0 {
        false
    } else if a.len() == 0 {
        true
    } else if a[0] != b[0] {
        (a[0] as int) < (b[0] as int)
    } else {
        lex_less(a.drop_first(), b.drop_first())
    }
}

/// No string comes before itself.
pub proof fn lemma_lex_irreflexive(a: Seq<char>)
    ensures
        !lex_less(a, a),
    decreases a.len(),
{
    if a.len() > 0 {
        lemma_lex_irreflexive(a.drop_first());
    }
}

/// Of two different strings one comes before the other.
pub proof fn lemma_lex_total(a: Seq<char>, b: Seq<char>)
    ensures
        a == b || lex_less(a, b) || lex_less(b, a),
        !(lex_less(a, b) && lex_less(b, a)),
    decreases a.len(),
{
    if a.len() == 0 || b.len() == 0 {
        if a.len() == 0 && b.len() == 0 {
            assert(a =~= b);
        }
    } else if a[0] != b[0] {
        assert((a[0] as int) != (b[0] as int));
    } else {
        lemma_lex_total(a.drop_first(), b.drop_first());
        if a.drop_first() == b.drop_first() {
            assert(a =~= seq![a[0]] + a.drop_first());
            assert(b =~= seq![b[0]] + b.drop_first());
        }
    }
}

/// The order is transitive.
pub proof fn lemma_lex_transitive(a: Seq<char>, b: Seq<char>, c: Seq<char>)
    requires
        lex_less(a, b),
        lex_less(b, c),
    ensures
        lex_less(a, c),
    decreases a.len(),
{
    if a.len() == 0 {
    } else if a[0] != b[0] {
    } else if b[0] != c[0] {
    } else {
        lemma_lex_transitive(a.drop_first(), b.drop_first(), c.drop_first());
    }
}

/// How two strings stand to each other in `lex_less`.
#[derive(Clone, Copy, Debug, PartialEq, Eq, Structural)]
pub enum Rank {
    Before,
    Same,
    After,
}

/// The decimal digit `d` as a character.
pub open spec fn digit(d: int) -> char {
    (48 + d) as char
}

/// The decimal numeral of `n`, without sign or leading zeros.
pub open spec fn decimal(n: nat) -> Seq<char>
    decreases n,
{
    if n < 10 {
        seq![digit(n as int)]
    } else {
        decimal(n / 10).push(digit((n % 10) as int))
    }
}

/// The decimal numeral of `n`, with a minus sign in front when `n` is negative.
pub open spec fn signed_decimal(n: int) -> Seq<char> {
    if n < 0 {
        seq!['-'] + decimal((-n) as nat)
    } else {
        decimal(n as nat)
    }
}

/// `parts` written one after the other with `sep` between neighbours.
pub open spec fn join(parts: Seq<Seq<char>>, sep: Seq<char>) -> Seq<char>
    decreases parts.len(),
{
    if parts.len() == 0 {
        Seq::empty()
    } else if parts.len() == 1 {
        parts[0]
    } else {
        join(parts.drop_last(), sep) + sep + parts.last()
    }
}

/// `s` with every `from` turned into `to`.
pub open spec fn replaced(s: Seq<char>, from: char, to: char) -> Seq<char> {
    Seq::new(s.len(), |i: int| if s[i] == from { to } else { s[i] })
}

/// The pieces of `s` between its `c`s; a string without `c` is one piece.
pub open spec fn split(s: Seq<char>, c: char) -> Seq<Seq<char>>
    decreases s.len(),
{
    let i = first_index(s, c);
    if 0 <= i < s.len() {
        seq![s.take(i)] + split(s.skip(i + 1), c)
    } else {
        seq![s]
    }
}

/// Place of the first occurrence of `pattern` in `s`, or `s.len()` when
/// there is none. The pattern is not empty.
pub open spec fn first_match(s: Seq<char>, pattern: Seq<char>) -> int
    decreases s.len(),
{
    if s.len() == 0 || pattern.is_prefix_of(s) {
        0
    } else {
        1 + first_match(s.drop_first(), pattern)
    }
}

/// Place of the last occurrence of `pattern` in `s`, or `-1` when there is
/// none.
pub open spec fn last_match(s: Seq<char>, pattern: Seq<char>) -> int
    decreases s.len(),
{
    if pattern.is_suffix_of(s) {
        s.len() - pattern.len()
    } else if s.len() == 0 {
        -1
    } else {
        last_match(s.drop_last(), pattern)
    }
}

/// `s` without the `c`s at its end.
pub open spec fn trimmed_end(s: Seq<char>, c: char) -> Seq<char>
    decreases s.len(),
{
    if s.len() > 0 && s.last() == c {
        trimmed_end(s.drop_last(), c)
    } else {
        s
    }
}

/// The characters of `s`, in order.
pub fn chars_of(s: &str) -> (out: Vec<char>)
    ensures
        out@ == s@,
{
    let mut out: Vec<char> = Vec::new();
    for c in iter: s.chars()
        invariant
            iter.seq() == s@,
            out@ == s@.take(iter.index()),
    {
        out.push(c);
        assert(s@.take(iter.index() + 1) =~= s@.take(iter.index()).push(c));
    }
    assert(s@.take(s@.len() as int) =~= s@);
    out
}

/// The string made of the characters `chars[from..to]`.
#[verifier::loop_isolation(false)]
pub fn string_of(chars: &Vec<char>, from: usize, to: usize) -> (out: String)
    requires
        from <= to <= chars.len(),
    ensures
        out@ == chars@.subrange(from as int, to as int),
{
    let mut out = String::new();
    let mut i: usize = from;
    assert(chars@.subrange(from as int, from as int) =~= Seq::<char>::empty());
    while i < to
        invariant
            from <= i <= to <= chars.len(),
            out@ == chars@.subrange(from as int, i as int),
        decreases to - i,
    {
        out.push(chars[i]);
        i += 1;
        assert(chars@.subrange(from as int, i as int) =~= chars@.subrange(
            from as int,
            i - 1,
        ).push(chars@[i - 1]));
    }
    out
}

/// A list with the same strings.
#[verifier::loop_isolation(false)]
pub fn copy_texts(list: &Vec<String>) -> (out: Vec<String>)
    ensures
        texts(out@) == texts(list@),
{
    let mut out: Vec<String> = Vec::new();
    let mut i: usize = 0;
    while i < list.len()
        invariant
            i <= list.len(),
            out.len() == i,
            forall|j: int| 0 <= j < i ==> out@[j]@ == list@[j]@,
        decreases list.len() - i,
    {
        out.push(list[i].clone());
        i += 1;
    }
    assert(texts(out@) =~= texts(list@));
    out
}

/// Whether two strings hold the same characters.
#[verifier::loop_isolation(false)]
pub fn same_text(a: &str, b: &str) -> (r: bool)
    ensures
        r == (a@ == b@),
{
    let x = chars_of(a);
    let y = chars_of(b);
    if x.len() != y.len() {
        return false;
    }
    let mut i: usize = 0;
    while i < x.len()
        invariant
            x.len() == y.len(),
            i <= x.len(),
            forall|j: int| 0 <= j < i ==> x@[j] == y@[j],
        decreases x.len() - i,
    {
        if x[i] != y[i] {
            assert(a@[i as int] != b@[i as int]);
            return false;
        }
        i += 1;
    }
    assert(x@ =~= y@);
    true
}

/// Position of the first `c` in `chars`, if there is one.
#[verifier::loop_isolation(false)]
pub fn find_char(chars: &Vec<char>, c: char) -> (r: Option<usize>)
    ensures
        match r {
            Some(i) => i == first_index(chars@, c) && i < chars.len(),
            None => first_index(chars@, c) == chars.len(),
        },
{
    let mut i: usize = 0;
    while i < chars.len()
        invariant
            i <= chars.len(),
            forall|j: int| 0 <= j < i ==> chars@[j] != c,
        decreases chars.len() - i,
    {
        if chars[i] == c {
            proof {
                lemma_first_index_is(chars@, c, i as int);
            }
            return Some(i);
        }
        i += 1;
    }
    proof {
        lemma_first_index_is(chars@, c, chars.len() as int);
    }
    None
}

/// Splits `s` at its first `c`: what stands before it and what stands after
/// it, or nothing when `s` holds no `c`.
pub fn split_once(s: &str, c: char) -> (r: Option<(String, String)>)
    ensures
        r is Some <==> s@.contains(c),
        r matches Some((a, b)) ==> a@ == before_first(s@, c) && b@ == after_first(s@, c),
{
    let chars = chars_of(s);
    proof {
        lemma_first_index(s@, c);
    }
    match find_char(&chars, c) {
        Some(i) => {
            let a = string_of(&chars, 0, i);
            let b = string_of(&chars, i + 1, chars.len());
            Some((a, b))
        },
        None => None,
    }
}

/// Whether `s` begins with `prefix`.
#[verifier::loop_isolation(false)]
pub fn starts_with(s: &str, prefix: &str) -> (r: bool)
    ensures
        r == prefix@.is_prefix_of(s@),
{
    let x = chars_of(s);
    let p = chars_of(prefix);
    if p.len() > x.len() {
        return false;
    }
    let mut i: usize = 0;
    while i < p.len()
        invariant
            p.len() <= x.len(),
            i <= p.len(),
            forall|j: int| 0 <= j < i ==> x@[j] == p@[j],
        decreases p.len() - i,
    {
        if x[i] != p[i] {
            assert(s@.subrange(0, p@.len() as int)[i as int] != p@[i as int]);
            return false;
        }
        i += 1;
    }
    assert(p@ =~= x@.subrange(0, p@.len() as int));
    true
}

/// Whether `s` ends with `suffix`.
#[verifier::loop_isolation(false)]
pub fn ends_with(s: &str, suffix: &str) -> (r: bool)
    ensures
        r == suffix@.is_suffix_of(s@),
{
    let x = chars_of(s);
    let p = chars_of(suffix);
    if p.len() > x.len() {
        return false;
    }
    let shift: usize = x.len() - p.len();
    let mut i: usize = 0;
    while i < p.len()
        invariant
            p.len() <= x.len(),
            shift == x.len() - p.len(),
            i <= p.len(),
            forall|j: int| 0 <= j < i ==> x@[shift + j] == p@[j],
        decreases p.len() - i,
    {
        if x[shift + i] != p[i] {
            assert(x@.subrange(shift as int, x@.len() as int)[i as int] != p@[i as int]);
            return false;
        }
        i += 1;
    }
    assert(p@ =~= x@.subrange(shift as int, x@.len() as int));
    true
}

/// Ranks `a` against `b` in the order of `lex_less`.
#[verifier::loop_isolation(false)]
pub fn rank(a: &str, b: &str) -> (r: Rank)
    ensures
        r == Rank::Before <==> lex_less(a@, b@),
        r == Rank::Same <==> a@ == b@,
        r == Rank::After <==> lex_less(b@, a@),
{
    let x = chars_of(a);
    let y = chars_of(b);
    let mut i: usize = 0;
    proof {
        lemma_lex_total(a@, b@);
        lemma_lex_irreflexive(a@);
        assert(x@.skip(0) =~= x@);
        assert(y@.skip(0) =~= y@);
    }
    while i < x.len() && i < y.len()
        invariant
            i <= x.len(),
            i <= y.len(),
            x@ == a@,
            y@ == b@,
            forall|j: int| 0 <= j < i ==> x@[j] == y@[j],
            lex_less(x@, y@) == lex_less(x@.skip(i as int), y@.skip(i as int)),
            lex_less(y@, x@) == lex_less(y@.skip(i as int), x@.skip(i as int)),
        decreases x.len() - i,
    {
        proof {
            assert(x@.skip(i as int).drop_first() =~= x@.skip(i + 1));
            assert(y@.skip(i as int).drop_first() =~= y@.skip(i + 1));
        }
        proof {
            assert(x@.skip(i as int)[0] == x@[i as int]);
            assert(y@.skip(i as int)[0] == y@[i as int]);
        }
        if x[i] < y[i] {
            assert(a@[i as int] != b@[i as int]);
            return Rank::Before;
        }
        if y[i] < x[i] {
            assert(a@[i as int] != b@[i as int]);
            return Rank::After;
        }
        i += 1;
    }
    if i < y.len() {
        Rank::Before
    } else if i < x.len() {
        Rank::After
    } else {
        assert(x@ =~= y@);
        Rank::Same
    }
}

/// Appends the decimal numeral of `n` to `out`.
pub fn push_decimal(out: &mut String, n: u128)
    ensures
        final(out)@ == old(out)@ + decimal(n as nat),
    decreases n,
{
    if n >= 10 {
        push_decimal(out, n / 10);
    }
    let d: u8 = (n % 10) as u8;
    let ch: char = (48u8 + d) as char;
    out.push(ch);
    assert(final(out)@ =~= old(out)@ + decimal(n as nat)) by {
        if n >= 10 {
            assert((old(out)@ + decimal((n / 10) as nat)).push(ch) =~= old(out)@ + decimal(
                (n / 10) as nat,
            ).push(ch));
        }
    }
}

/// Appends the decimal numeral of `n` to `out`, with its sign when negative.
pub fn push_signed_decimal(out: &mut String, n: i64)
    ensures
        final(out)@ == old(out)@ + signed_decimal(n as int),
{
    if n < 0 {
        out.push('-');
        let magnitude: u128 = ((-(n + 1)) as u128) + 1;
        push_decimal(out, magnitude);
        assert(final(out)@ =~= old(out)@ + signed_decimal(n as int));
    } else {
        push_decimal(out, n as u128);
    }
}

/// `parts` written one after the other with `sep` between neighbours.
#[verifier::loop_isolation(false)]
pub fn join_texts(parts: &Vec<String>, sep: &str) -> (out: String)
    ensures
        out@ == join(texts(parts@), sep@),
{
    let mut out = String::new();
    let mut i: usize = 0;
    let ghost all = texts(parts@);
    while i < parts.len()
        invariant
            i <= parts.len(),
            all == texts(parts@),
            out@ == join(all.take(i as int), sep@),
        decreases parts.len() - i,
    {
        proof {
            assert(all.take(i + 1).drop_last() =~= all.take(i as int));
            assert(all.take(i + 1).last() == parts@[i as int]@);
        }
        if i > 0 {
            out.append(sep);
        } else {
            assert(out@ + parts@[i as int]@ =~= parts@[i as int]@);
        }
        out.append(parts[i].as_str());
        i += 1;
    }
    assert(all.take(parts.len() as int) =~= all);
    out
}

/// `s` with every `from` turned into `to`.
#[verifier::loop_isolation(false)]
pub fn replace_char(s: &str, from: char, to: char) -> (out: String)
    ensures
        out@ == replaced(s@, from, to),
{
    let chars = chars_of(s);
    let mut out = String::new();
    let mut i: usize = 0;
    while i < chars.len()
        invariant
            i <= chars.len(),
            out@ == replaced(chars@.take(i as int), from, to),
        decreases chars.len() - i,
    {
        let c = chars[i];
        if c == from {
            out.push(to);
        } else {
            out.push(c);
        }
        i += 1;
        assert(replaced(chars@.take(i as int), from, to) =~= replaced(
            chars@.take(i - 1),
            from,
            to,
        ).push(if c == from { to } else { c }));
    }
    assert(chars@.take(chars.len() as int) =~= chars@);
    out
}

/// The pieces of `s` between its `c`s.
#[verifier::loop_isolation(false)]
pub fn split_by(s: &str, c: char) -> (out: Vec<String>)
    ensures
        texts(out@) == split(s@, c),
{
    let chars = chars_of(s);
    let mut out: Vec<String> = Vec::new();
    let mut start: usize = 0;
    let mut i: usize = 0;
    assert(chars@.skip(0) =~= chars@);
    assert(texts(out@) + split(chars@, c) =~= split(chars@, c));
    while i < chars.len()
        invariant
            start <= i <= chars.len(),
            forall|j: int| start <= j < i ==> chars@[j] != c,
            split(s@, c) == texts(out@) + split(chars@.skip(start as int), c),
        decreases chars.len() - i,
    {
        if chars[i] == c {
            let ghost rest = chars@.skip(start as int);
            let ghost before = texts(out@);
            proof {
                assert forall|j: int| 0 <= j < i - start implies rest[j] != c by {
                    assert(rest[j] == chars@[start + j]);
                }
                lemma_first_index_is(rest, c, i - start);
                assert(rest.take(i - start) =~= chars@.subrange(start as int, i as int));
                assert(rest.skip(i - start + 1) =~= chars@.skip(i + 1));
            }
            let ghost piece = rest.take(i - start);
            out.push(string_of(&chars, start, i));
            start = i + 1;
            proof {
                assert(texts(out@) =~= before.push(piece));
                assert(texts(out@) + split(chars@.skip(start as int), c) =~= before + (seq![piece]
                    + split(chars@.skip(start as int), c)));
            }
        }
        i += 1;
    }
    let ghost rest = chars@.skip(start as int);
    let ghost before = texts(out@);
    proof {
        assert forall|j: int| 0 <= j < rest.len() implies rest[j] != c by {
            assert(rest[j] == chars@[start + j]);
        }
        lemma_first_index_is(rest, c, rest.len() as int);
        assert(rest =~= chars@.subrange(start as int, chars.len() as int));
    }
    out.push(string_of(&chars, start, chars.len()));
    assert(texts(out@) =~= before + seq![rest]);
    out
}

/// Splits `s` at the first occurrence of `pattern`, which is not empty:
/// what stands before it and what stands after it, or nothing when `s` does
/// not hold the pattern.
#[verifier::loop_isolation(false)]
pub fn split_at_pattern(s: &str, pattern: &str) -> (r: Option<(String, String)>)
    requires
        pattern@.len() > 0,
    ensures
        match r {
            Some((a, b)) => first_match(s@, pattern@) + pattern@.len() <= s@.len() && a@
                == s@.take(first_match(s@, pattern@)) && b@ == s@.skip(
                first_match(s@, pattern@) + pattern@.len(),
            ),
            None => first_match(s@, pattern@) == s@.len(),
        },
{
    let chars = chars_of(s);
    let p = chars_of(pattern);
    let mut i: usize = 0;
    assert(chars@.skip(0) =~= chars@);
    while i < chars.len()
        invariant
            i <= chars.len(),
            first_match(chars@, p@) == i + first_match(chars@.skip(i as int), p@),
        decreases chars.len() - i,
    {
        let ghost rest = chars@.skip(i as int);
        let mut matches: bool = p.len() <= chars.len() - i;
        let mut k: usize = 0;
        while matches && k < p.len()
            invariant
                k <= p.len(),
                matches ==> p.len() <= chars.len() - i,
                matches ==> forall|j: int| 0 <= j < k ==> chars@[i + j] == p@[j],
                !matches ==> !p@.is_prefix_of(rest),
            decreases p.len() - k,
        {
            if chars[i + k] != p[k] {
                matches = false;
                assert(rest[k as int] != p@[k as int]);
                assert(p@.is_prefix_of(rest) ==> rest.subrange(0, p@.len() as int)[k as int]
                    == p@[k as int]);
            }
            k += 1;
        }
        if matches {
            assert(p@ =~= rest.subrange(0, p@.len() as int));
            assert(chars@.subrange(0, i as int) =~= chars@.take(i as int));
            assert(chars@.subrange(i + p.len(), chars.len() as int) =~= chars@.skip(i + p.len()));
            let a = string_of(&chars, 0, i);
            let b = string_of(&chars, i + p.len(), chars.len());
            return Some((a, b));
        }
        assert(rest.drop_first() =~= chars@.skip(i + 1));
        i += 1;
    }
    None
}

/// Splits `s` at the last occurrence of `pattern`: what stands before it
/// and what stands after it, or nothing when `s` does not hold the pattern.
#[verifier::loop_isolation(false)]
pub fn split_at_last_pattern(s: &str, pattern: &str) -> (r: Option<(String, String)>)
    ensures
        match r {
            Some((a, b)) => 0 <= last_match(s@, pattern@) <= s@.len() - pattern@.len() && a@
                == s@.take(last_match(s@, pattern@)) && b@ == s@.skip(
                last_match(s@, pattern@) + pattern@.len(),
            ),
            None => last_match(s@, pattern@) == -1,
        },
{
    let chars = chars_of(s);
    let p = chars_of(pattern);
    let mut end: usize = chars.len();
    assert(chars@.take(end as int) =~= chars@);
    loop
        invariant
            end <= chars.len(),
            last_match(chars@, p@) == last_match(chars@.take(end as int), p@),
        decreases end,
    {
        let ghost head = chars@.take(end as int);
        let mut matches: bool = p.len() <= end;
        let mut k: usize = 0;
        while matches && k < p.len()
            invariant
                k <= p.len(),
                matches ==> p.len() <= end,
                matches ==> forall|j: int| 0 <= j < k ==> chars@[end - p.len() + j] == p@[j],
                !matches ==> !p@.is_suffix_of(head),
            decreases p.len() - k,
        {
            if chars[end - p.len() + k] != p[k] {
                matches = false;
                assert(head.subrange(head.len() - p@.len(), head.len() as int)[k as int]
                    != p@[k as int]);
            }
            k += 1;
        }
        if matches {
            let at: usize = end - p.len();
            assert(p@ =~= head.subrange(head.len() - p@.len(), head.len() as int));
            assert(chars@.subrange(0, at as int) =~= chars@.take(at as int));
            assert(chars@.subrange(end as int, chars.len() as int) =~= chars@.skip(end as int));
            let a = string_of(&chars, 0, at);
            let b = string_of(&chars, end, chars.len());
            return Some((a, b));
        }
        if end == 0 {
            return None;
        }
        assert(head.drop_last() =~= chars@.take(end - 1));
        end -= 1;
    }
}

/// `s` without the `c`s at its end.
#[verifier::loop_isolation(false)]
pub fn trim_end(s: &str, c: char) -> (out: String)
    ensures
        out@ == trimmed_end(s@, c),
{
    let chars = chars_of(s);
    let mut end: usize = chars.len();
    assert(chars@.take(end as int) =~= chars@);
    while end > 0 && chars[end - 1] == c
        invariant
            end <= chars.len(),
            trimmed_end(chars@, c) == trimmed_end(chars@.take(end as int), c),
        decreases end,
    {
        assert(chars@.take(end as int).drop_last() =~= chars@.take(end - 1));
        end -= 1;
    }
    assert(chars@.subrange(0, end as int) =~= chars@.take(end as int));
    string_of(&chars, 0, end)
}

} // verus!
