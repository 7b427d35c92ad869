//! Text helpers: equality and ordering of strings, splitting, trimming and
//! hexadecimal digits.
use vstd::prelude::*;
use vstd::string::*;
use vstd::utf8::*;

verus! {

/// Lexicographic order on byte sequences: a proper prefix comes first, and
/// otherwise the first byte that differs decides.
pub open spec fn lex_less(x: Seq<u8>, y: Seq<u8>) -> bool
    decreases x.len(),
{
    if y.len() == 0 {
        false
    } else if x.len() == 0 {
        true
    } else if x[0] != y[0] {
        x[0] < y[0]
    } else {
        lex_less(x.drop_first(), y.drop_first())
    }
}

/// Strings are ordered by their UTF-8 bytes.
pub open spec fn text_less(a: Seq<char>, b: Seq<char>) -> bool {
    lex_less(encode_utf8(a), encode_utf8(b))
}

/// Two byte sequences neither of which comes first are equal.
pub proof fn lemma_lex_total(x: Seq<u8>, y: Seq<u8>)
    ensures
        lex_less(x, y) || lex_less(y, x) || x == y,
    decreases x.len(),
{
    if x.len() > 0 && y.len() > 0 && x[0] == y[0] {
        lemma_lex_total(x.drop_first(), y.drop_first());
        if x.drop_first() == y.drop_first() {
            assert(x =~= seq![x[0]] + x.drop_first());
            assert(y =~= seq![y[0]] + y.drop_first());
        }
    } else if x.len() == 0 && y.len() == 0 {
        assert(x =~= y);
    }
}

/// The order is strict.
pub proof fn lemma_lex_asymmetric(x: Seq<u8>, y: Seq<u8>)
    ensures
        !(lex_less(x, y) && lex_less(y, x)),
    decreases x.len(),
{
    if x.len() > 0 && y.len() > 0 && x[0] == y[0] {
        lemma_lex_asymmetric(x.drop_first(), y.drop_first());
    }
}

/// Strings with the same UTF-8 bytes are equal.
pub proof fn lemma_utf8_injective(a: Seq<char>, b: Seq<char>)
    requires
        encode_utf8(a) == encode_utf8(b),
    ensures
        a == b,
{
    encode_utf8_decode_utf8(a);
    encode_utf8_decode_utf8(b);
}

/// Of two different strings exactly one comes first.
pub proof fn lemma_text_order(a: Seq<char>, b: Seq<char>)
    ensures
        a != b ==> text_less(a, b) != text_less(b, a),
        a == b ==> !text_less(a, b),
{
    lemma_lex_total(encode_utf8(a), encode_utf8(b));
    lemma_lex_asymmetric(encode_utf8(a), encode_utf8(b));
    if encode_utf8(a) == encode_utf8(b) {
        lemma_utf8_injective(a, b);
    }
}

/// Whether two strings are equal.
pub fn text_eq(a: &str, b: &str) -> (res: bool)
    ensures
        res == (a@ == b@),
{
    let x = a.as_bytes();
    let y = b.as_bytes();
    if x.len() != y.len() {
        return false;
    }
    let mut i: usize = 0;
    while i < x.len()
        invariant
            i <= x@.len(),
            x@.len() == y@.len(),
            x@ == encode_utf8(a@),
            y@ == encode_utf8(b@),
            forall|j: int| 0 <= j < i ==> x@[j] == y@[j],
        decreases x@.len() - i,
    {
        if x[i] != y[i] {
            return false;
        }
        i += 1;
    }
    proof {
        assert(x@ =~= y@);
        lemma_utf8_injective(a@, b@);
    }
    true
}

/// Whether `a` comes before `b`.
pub fn text_lt(a: &str, b: &str) -> (res: bool)
    ensures
        res == text_less(a@, b@),
{
    let x = a.as_bytes();
    let y = b.as_bytes();
    let mut i: usize = 0;
    assert(x@.skip(0) =~= x@);
    assert(y@.skip(0) =~= y@);
    while i < x.len() && i < y.len()
        invariant
            i <= x@.len(),
            i <= y@.len(),
            x@ == encode_utf8(a@),
            y@ == encode_utf8(b@),
            lex_less(x@, y@) == lex_less(x@.skip(i as int), y@.skip(i as int)),
        decreases x@.len() - i,
    {
        if x[i] != y[i] {
            return x[i] < y[i];
        }
        assert(x@.skip(i as int).drop_first() =~= x@.skip(i + 1));
        assert(y@.skip(i as int).drop_first() =~= y@.skip(i + 1));
        i += 1;
    }
    i < y.len()
}

/// The position of the first `c` in `s`, or the length of `s` where there is none.
pub open spec fn first_position(s: Seq<char>, c: char) -> int
    decreases s.len(),
{
    if s.len() == 0 || s[0] == c {
        0
    } else {
        1 + first_position(s.drop_first(), c)
    }
}

/// The first position of `c` is the one before which `c` does not occur.
pub proof fn lemma_first_position(s: Seq<char>, c: char, i: int)
    requires
        0 <= i <= s.len(),
        forall|j: int| 0 <= j < i ==> s[j] != c,
        i == s.len() || s[i] == c,
    ensures
        first_position(s, c) == i,
    decreases s.len(),
{
    if i > 0 {
        lemma_first_position(s.drop_first(), c, i - 1);
    }
}

/// What stands before and after the first `c` in `s`, if `c` occurs.
pub open spec fn split_first(s: Seq<char>, c: char) -> Option<(Seq<char>, Seq<char>)> {
    let i = first_position(s, c);
    if i < s.len() {
        Some((s.take(i), s.skip(i + 1)))
    } else {
        None
    }
}

/// Splits `s` at the first `c`.
pub fn split_at_first<'a>(s: &'a str, c: char) -> (res: Option<(&'a str, &'a str)>)
    ensures
        (match res {
            Some((before, after)) => split_first(s@, c) == Some((before@, after@)),
            None => split_first(s@, c) is None,
        }),
{
    let n: usize = s.unicode_len();
    let mut i: usize = 0;
    while i < n
        invariant
            i <= n,
            n == s@.len(),
            forall|j: int| 0 <= j < i ==> s@[j] != c,
        decreases n - i,
    {
        if s.get_char(i) == c {
            proof {
                lemma_first_position(s@, c, i as int);
                assert(s@.take(i as int) =~= s@.subrange(0, i as int));
                assert(s@.skip(i + 1) =~= s@.subrange(i + 1, n as int));
            }
            return Some((s.substring_char(0, i), s.substring_char(i + 1, n)));
        }
        i += 1;
    }
    proof {
        lemma_first_position(s@, c, n as int);
    }
    None
}

/// `s` without the run of `c` at its end.
pub open spec fn trimmed_end(s: Seq<char>, c: char) -> Seq<char>
    decreases s.len(),
{
    if s.len() > 0 && s.last() == c {
        trimmed_end(s.drop_last(), c)
    } else {
        s
    }
}

/// Drops every `c` at the end of `s`.
pub fn trim_end<'a>(s: &'a str, c: char) -> (res: &'a str)
    ensures
        res@ == trimmed_end(s@, c),
{
    let mut n: usize = s.unicode_len();
    assert(s@.take(n as int) =~= s@);
    while n > 0 && s.get_char(n - 1) == c
        invariant
            n <= s@.len(),
            trimmed_end(s@.take(n as int), c) == trimmed_end(s@, c),
        decreases n,
    {
        assert(s@.take(n as int).drop_last() =~= s@.take(n - 1));
        n -= 1;
    }
    assert(s@.take(n as int) =~= s@.subrange(0, n as int));
    s.substring_char(0, n)
}

/// The lower-case hexadecimal digit of `n`.
pub open spec fn hex_char(n: u8) -> char {
    if n < 10 {
        (48 + n) as char
    } else {
        (87 + n) as char
    }
}

/// The bytes written in hexadecimal, two digits each.
pub open spec fn hex(bytes: Seq<u8>) -> Seq<char> {
    Seq::new(
        2 * bytes.len(),
        |i: int| hex_char(if i % 2 == 0 { bytes[i / 2] / 16 } else { bytes[i / 2] % 16 }),
    )
}

fn hex_digit(n: u8) -> (res: &'static str)
    requires
        n < 16,
    ensures
        res@ == seq![hex_char(n)],
{
    let digits = "0123456789abcdef";
    proof {
        reveal_strlit("0123456789abcdef");
    }
    let i: usize = n as usize;
    digits.substring_char(i, i + 1)
}

/// Writes `bytes` in lower-case hexadecimal.
pub fn to_hex(bytes: &[u8]) -> (res: String)
    ensures
        res@ == hex(bytes@),
{
    let mut res = String::new();
    let mut i: usize = 0;
    while i < bytes.len()
        invariant
            i <= bytes@.len(),
            res@ == hex(bytes@.take(i as int)),
        decreases bytes@.len() - i,
    {
        res.append(hex_digit(bytes[i] / 16));
        res.append(hex_digit(bytes[i] % 16));
        i += 1;
        assert(res@ =~= hex(bytes@.take(i as int)));
    }
    assert(bytes@.take(i as int) =~= bytes@);
    res
}

/// The first byte in which two strings differ decides their order, and a
/// proper prefix comes first; a string does not come before itself.
pub proof fn law_text_less(a: Seq<char>, b: Seq<char>, k: int)
    requires
        ({
            let (x, y) = (encode_utf8(a), encode_utf8(b));
            &&& 0 <= k <= x.len()
            &&& k < y.len()
            &&& forall|j: int| 0 <= j < k ==> x[j] == y[j]
            &&& k == x.len() || x[k] < y[k]
        }),
    ensures
        text_less(a, b),
        !text_less(b, a),
        !text_less(a, a),
{
    lemma_lex_decided(encode_utf8(a), encode_utf8(b), k);
    lemma_lex_asymmetric(encode_utf8(a), encode_utf8(b));
    lemma_lex_asymmetric(encode_utf8(a), encode_utf8(a));
}

proof fn lemma_lex_decided(x: Seq<u8>, y: Seq<u8>, k: int)
    requires
        0 <= k <= x.len(),
        k < y.len(),
        forall|j: int| 0 <= j < k ==> x[j] == y[j],
        k == x.len() || x[k] < y[k],
    ensures
        lex_less(x, y),
    decreases k,
{
    if k > 0 {
        lemma_lex_decided(x.drop_first(), y.drop_first(), k - 1);
    }
}

/// What a split gives is the text before the first `c`, in which `c` does not
/// occur, and the text after it; there is none exactly where `c` does not occur.
pub proof fn law_split_first(s: Seq<char>, c: char, before: Seq<char>, after: Seq<char>)
    ensures
        split_first(s, c) == Some((before, after)) <==> s == before + seq![c] + after
            && !before.contains(c),
        split_first(s, c) is None <==> !s.contains(c),
{
    let i = first_position(s, c);
    lemma_first_position_is(s, c);
    if s == before + seq![c] + after && !before.contains(c) {
        assert forall|j: int| 0 <= j < before.len() implies s[j] != c by {
            assert(s[j] == before[j]);
            assert(before.contains(before[j]));
        }
        assert(s[before.len() as int] == c);
        lemma_first_position(s, c, before.len() as int);
        assert(s.take(i) =~= before);
        assert(s.skip(i + 1) =~= after);
    }
    if split_first(s, c) == Some((before, after)) {
        assert(s =~= before + seq![c] + after);
        if before.contains(c) {
            let j = before.index_of(c);
            assert(s[j] == c);
        }
    }
    if s.contains(c) {
        let j = s.index_of(c);
        assert(s[j] == c);
    }
    if i < s.len() {
        assert(s[i] == c);
    }
}

proof fn lemma_first_position_is(s: Seq<char>, c: char)
    ensures
        0 <= first_position(s, c) <= s.len(),
        forall|j: int| 0 <= j < first_position(s, c) ==> s[j] != c,
        first_position(s, c) < s.len() ==> s[first_position(s, c)] == c,
    decreases s.len(),
{
    if s.len() > 0 && s[0] != c {
        lemma_first_position_is(s.drop_first(), c);
        assert forall|j: int| 0 <= j < first_position(s, c) implies s[j] != c by {
            if j > 0 {
                assert(s.drop_first()[j - 1] == s[j]);
            }
        }
    }
}

/// Trimming takes a run of `c` off the end, and all of it.
pub proof fn law_trimmed_end(s: Seq<char>, c: char)
    ensures
        trimmed_end(s, c).len() <= s.len(),
        trimmed_end(s, c) == s.take(trimmed_end(s, c).len() as int),
        forall|j: int| trimmed_end(s, c).len() <= j < s.len() ==> s[j] == c,
        trimmed_end(s, c).len() > 0 ==> trimmed_end(s, c).last() != c,
    decreases s.len(),
{
    if s.len() > 0 && s.last() == c {
        law_trimmed_end(s.drop_last(), c);
        let t = trimmed_end(s, c);
        assert(s.drop_last().take(t.len() as int) =~= s.take(t.len() as int));
        assert forall|j: int| t.len() <= j < s.len() implies s[j] == c by {
            if j < s.len() - 1 {
                assert(s.drop_last()[j] == s[j]);
            }
        }
    } else {
        assert(s.take(s.len() as int) =~= s);
    }
}

/// The value of a lower-case hexadecimal digit.
pub open spec fn hex_value(c: char) -> int {
    if '0' <= c <= '9' {
        c as int - '0' as int
    } else {
        c as int - 'a' as int + 10
    }
}

/// Hexadecimal has two lower-case digits for each byte, from which the byte
/// can be read.
pub proof fn law_hex(bytes: Seq<u8>, i: int)
    requires
        0 <= i < bytes.len(),
    ensures
        hex(bytes).len() == 2 * bytes.len(),
        ({
            let (hi, lo) = (hex(bytes)[2 * i], hex(bytes)[2 * i + 1]);
            &&& '0' <= hi <= '9' || 'a' <= hi <= 'f'
            &&& '0' <= lo <= '9' || 'a' <= lo <= 'f'
            &&& 16 * hex_value(hi) + hex_value(lo) == bytes[i]
        }),
{
    let b = bytes[i];
    assert((2 * i) % 2 == 0 && (2 * i) / 2 == i);
    assert((2 * i + 1) % 2 == 1 && (2 * i + 1) / 2 == i);
    assert(hex(bytes)[2 * i] == hex_char(b / 16));
    assert(hex(bytes)[2 * i + 1] == hex_char(b % 16));
    assert(16 * (b / 16) + b % 16 == b);
}

} // verus!
