//! Where the characters of a text lie among its UTF-8 bytes.

use vstd::prelude::*;
use vstd::utf8::*;

verus! {

/// The number of bytes that `c` takes in UTF-8.
pub open spec fn width(c: char) -> nat {
    encode_scalar(c as u32).len()
}

/// The number of bytes that the first `n` characters of `s` take in UTF-8:
/// the byte offset at which the character of index `n` starts.
pub open spec fn offset(s: Seq<char>, n: int) -> nat {
    encode_utf8(s.take(n)).len()
}

/// Every character takes one to four bytes.
pub proof fn lemma_width_bounds(c: char)
    ensures
        1 <= width(c) <= 4,
{
    char_is_scalar(c);
}

/// The encoding of a text is the encodings of its parts, one after the other.
pub proof fn lemma_encode_concat(a: Seq<char>, b: Seq<char>)
    ensures
        encode_utf8(a + b) == encode_utf8(a) + encode_utf8(b),
    decreases a.len(),
{
    if a.len() > 0 {
        lemma_encode_concat(a.drop_first(), b);
        assert((a + b).drop_first() =~= a.drop_first() + b);
    }
}

/// Two texts with the same bytes are the same text.
pub proof fn lemma_encode_injective(a: Seq<char>, b: Seq<char>)
    requires
        encode_utf8(a) == encode_utf8(b),
    ensures
        a == b,
{
    encode_utf8_decode_utf8(a);
    encode_utf8_decode_utf8(b);
}

/// The bytes of `s` split at `offset(s, n)` into the bytes of its first `n`
/// characters and the bytes of the rest.
pub proof fn lemma_encode_split(s: Seq<char>, n: int)
    requires
        0 <= n <= s.len(),
    ensures
        offset(s, n) <= encode_utf8(s).len(),
        encode_utf8(s).subrange(0, offset(s, n) as int) == encode_utf8(s.take(n)),
        encode_utf8(s).subrange(offset(s, n) as int, encode_utf8(s).len() as int) == encode_utf8(
            s.skip(n),
        ),
{
    lemma_encode_concat(s.take(n), s.skip(n));
    assert(s.take(n) + s.skip(n) =~= s);
}

/// Offsets grow with the index, by the width of each character passed.
pub proof fn lemma_offset_step(s: Seq<char>, n: int)
    requires
        0 <= n < s.len(),
    ensures
        offset(s, n + 1) == offset(s, n) + width(s[n]),
{
    let one = seq![s[n]];
    assert(s.take(n + 1) =~= s.take(n) + one);
    lemma_encode_concat(s.take(n), one);
    assert(encode_utf8(one) =~= encode_scalar(s[n] as u32)) by {
        reveal_with_fuel(encode_utf8, 2);
    }
}

/// Offsets are monotone in the index.
pub proof fn lemma_offset_monotone(s: Seq<char>, m: int, n: int)
    requires
        0 <= m <= n <= s.len(),
    ensures
        offset(s, m) <= offset(s, n),
        m < n ==> offset(s, m) < offset(s, n),
        n - m <= offset(s, n) - offset(s, m),
    decreases n - m,
{
    if m < n {
        lemma_offset_monotone(s, m, n - 1);
        lemma_offset_step(s, n - 1);
        lemma_width_bounds(s[n - 1]);
    }
}

/// The offset of the end of the text is the length of its encoding, and the
/// offset of its start is zero.
pub proof fn lemma_offset_ends(s: Seq<char>)
    ensures
        offset(s, 0) == 0,
        offset(s, s.len() as int) == encode_utf8(s).len(),
{
    assert(s.take(s.len() as int) =~= s);
}

/// The offset of a character is the width of the first character and the
/// offset that the character has in the rest.
pub proof fn lemma_offset_shift(s: Seq<char>, n: int)
    requires
        0 <= n < s.len(),
    ensures
        offset(s, n + 1) == width(s[0]) + offset(s.drop_first(), n),
{
    let first = seq![s[0]];
    assert(s.take(n + 1) =~= first + s.drop_first().take(n));
    lemma_encode_concat(first, s.drop_first().take(n));
    assert(encode_utf8(first) =~= encode_scalar(s[0] as u32)) by {
        reveal_with_fuel(encode_utf8, 2);
    }
}

/// The offset of every character is a character boundary of the encoding.
pub proof fn lemma_offset_is_boundary(s: Seq<char>, n: int)
    requires
        0 <= n <= s.len(),
    ensures
        is_char_boundary(encode_utf8(s), offset(s, n) as int),
    decreases n,
{
    encode_utf8_valid_utf8(s);
    if n == 0 {
        lemma_offset_ends(s);
    } else {
        let bytes = encode_utf8(s);
        encode_utf8_first_scalar(s);
        assert(pop_first_scalar(bytes) =~= encode_utf8(s.drop_first()));
        lemma_offset_is_boundary(s.drop_first(), n - 1);
        lemma_offset_shift(s, n - 1);
        lemma_width_bounds(s[0]);
        lemma_encode_split(s, n);
    }
}

/// Every character boundary of the encoding is the offset of a character,
/// or of the end: the index that is returned.
pub proof fn lemma_boundary_is_offset(s: Seq<char>, at: int) -> (n: int)
    requires
        is_char_boundary(encode_utf8(s), at),
    ensures
        0 <= n <= s.len(),
        offset(s, n) == at,
    decreases s.len(),
{
    encode_utf8_valid_utf8(s);
    let bytes = encode_utf8(s);
    if at == 0 {
        lemma_offset_ends(s);
        0
    } else {
        encode_utf8_first_scalar(s);
        assert(pop_first_scalar(bytes) =~= encode_utf8(s.drop_first()));
        let rest = lemma_boundary_is_offset(s.drop_first(), at - length_of_first_scalar(bytes));
        if rest < s.drop_first().len() {
            lemma_offset_shift(s, rest);
        } else {
            lemma_offset_ends(s);
            lemma_offset_ends(s.drop_first());
        }
        rest + 1
    }
}

/// The width of a character, computed from its scalar value.
pub fn char_width(c: char) -> (w: usize)
    ensures
        w == width(c),
        1 <= w <= 4,
{
    proof {
        char_is_scalar(c);
    }
    let v: u32 = c as u32;
    if v < 0x80 {
        1
    } else if v < 0x800 {
        2
    } else if v < 0x10000 {
        3
    } else {
        4
    }
}

/// The number of bytes in `s`.
pub fn byte_len(s: &str) -> (n: usize)
    ensures
        n == encode_utf8(s@).len(),
{
    s.as_bytes().len()
}

/// The character of `s` that starts at byte `at`, which is where the character
/// of index `n` starts.
pub(crate) fn char_at(s: &str, at: usize, Ghost(n): Ghost<int>) -> (c: char)
    requires
        0 <= n < s@.len(),
        at == offset(s@, n),
    ensures
        c == s@[n],
{
    proof {
        encode_utf8_valid_utf8(s@);
        lemma_offset_is_boundary(s@, n);
        lemma_encode_split(s@, n);
    }
    let (_, rest) = s.split_at(at);
    proof {
        lemma_encode_injective(rest@, s@.skip(n));
    }
    rest.get_char(0)
}

/// The byte at which the character before the one at byte `at` starts; `at`
/// is where the character of index `n` starts, or the end.
pub(crate) fn step_back(s: &str, at: usize, Ghost(n): Ghost<int>) -> (before: usize)
    requires
        0 < n <= s@.len(),
        at == offset(s@, n),
    ensures
        before == offset(s@, n - 1),
{
    proof {
        lemma_offset_monotone(s@, n - 1, n);
        lemma_offset_is_boundary(s@, n - 1);
    }
    let mut i: usize = at - 1;
    while !s.is_char_boundary(i)
        invariant
            0 < n <= s@.len(),
            at == offset(s@, n),
            offset(s@, n - 1) <= i < at,
            is_char_boundary(encode_utf8(s@), offset(s@, n - 1) as int),
        decreases i,
    {
        i = i - 1;
    }
    proof {
        let k = lemma_boundary_is_offset(s@, i as int);
        if k < n - 1 {
            lemma_offset_monotone(s@, k, n - 1);
        }
        if k >= n {
            lemma_offset_monotone(s@, n, k);
        }
    }
    i
}

/// The text of `s` between the bytes `from` and `to`, which are where the
/// characters of index `m` and `n` start.
pub(crate) fn slice<'a>(s: &'a str, from: usize, to: usize, Ghost(m): Ghost<int>, Ghost(n): Ghost<int>) -> (r:
    &'a str)
    requires
        0 <= m <= n <= s@.len(),
        from == offset(s@, m),
        to == offset(s@, n),
    ensures
        r@ == s@.subrange(m, n),
{
    proof {
        encode_utf8_valid_utf8(s@);
        lemma_offset_is_boundary(s@, n);
        lemma_encode_split(s@, n);
    }
    let (head, _) = s.split_at(to);
    proof {
        lemma_encode_injective(head@, s@.take(n));
        assert(s@.take(n).take(m) =~= s@.take(m));
        lemma_offset_is_boundary(head@, m);
        lemma_encode_split(head@, m);
    }
    let (_, r) = head.split_at(from);
    proof {
        lemma_encode_injective(r@, head@.skip(m));
    }
    r
}

/// Whether `c` is one of the characters of `s`.
pub fn contains(s: &str, c: char) -> (r: bool)
    ensures
        r == s@.contains(c),
{
    for x in it: s.chars()
        invariant
            it.seq() == s@,
            forall|j: int| 0 <= j < it.index() ==> s@[j] != c,
    {
        if x == c {
            return true;
        }
    }
    false
}

/// Whether `a` and `b` are the same text.
pub fn equal(a: &str, b: &str) -> (r: bool)
    ensures
        r == (a@ == b@),
{
    let x = a.as_bytes();
    let y = b.as_bytes();
    if x.len() != y.len() {
        return false;
    }
    let mut i: usize = 0;
    while i < x.len()
        invariant
            x@ == encode_utf8(a@),
            y@ == encode_utf8(b@),
            x@.len() == y@.len(),
            i <= x@.len(),
            forall|j: int| 0 <= j < i ==> x@[j] == y@[j],
        decreases x@.len() - i,
    {
        if x[i] != y[i] {
            return false;
        }
        i = i + 1;
    }
    proof {
        assert(x@ =~= y@);
        lemma_encode_injective(a@, b@);
    }
    true
}

} // verus!
