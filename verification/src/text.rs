//! Verified text utilities: decimal rendering, lexicographic comparison,
//! dotted-path prefix tests, and path-segment extraction.
//!
//! Dotted identifiers such as `a.b.c` encode ancestry in the element tree;
//! the functions here give the tree builder its ordering and prefix logic.

use vstd::prelude::*;

verus! {

/// Number of `.` characters in a string.
pub open spec fn dot_count(g: Seq<char>) -> nat
    decreases g.len(),
{
    if g.len() == 0 {
        0
    } else {
        dot_count(g.drop_last()) + if g.last() == '.' {
            1nat
        } else {
            0nat
        }
    }
}

/// Lexicographic order on character sequences, by Unicode scalar value.
pub open spec fn lex_le(a: Seq<char>, b: Seq<char>) -> bool
    decreases a.len(),
{
    if a.len() == 0 {
        true
    } else if b.len() == 0 {
        false
    } else if a.first() == b.first() {
        lex_le(a.drop_first(), b.drop_first())
    } else {
        (a.first() as u32) < (b.first() as u32)
    }
}

/// `p` names a strict ancestor path of `g`: `g` starts with `p` and the
/// next character is exactly the dot separator.
pub open spec fn is_strict_dot_prefix(p: Seq<char>, g: Seq<char>) -> bool {
    &&& p.len() < g.len()
    &&& g.subrange(0, p.len() as int) == p
    &&& g[p.len() as int] == '.'
}

/// `q` is a suffix of `g`.
pub open spec fn is_suffix_of(q: Seq<char>, g: Seq<char>) -> bool {
    &&& q.len() <= g.len()
    &&& g.skip(g.len() - q.len()) == q
}

/// The decimal digit characters.
pub open spec fn dec_digit(d: nat) -> char {
    if d == 0 {
        '0'
    } else if d == 1 {
        '1'
    } else if d == 2 {
        '2'
    } else if d == 3 {
        '3'
    } else if d == 4 {
        '4'
    } else if d == 5 {
        '5'
    } else if d == 6 {
        '6'
    } else if d == 7 {
        '7'
    } else if d == 8 {
        '8'
    } else {
        '9'
    }
}

/// Decimal representation of a natural number, most significant digit first.
pub open spec fn dec_of(n: nat) -> Seq<char>
    decreases n,
{
    if n < 10 {
        seq![dec_digit(n)]
    } else {
        dec_of(n / 10).push(dec_digit(n % 10))
    }
}

/// The segment of `s` after its last `/`, or all of `s` when it has none.
pub open spec fn last_slash_suffix(s: Seq<char>) -> Seq<char>
    decreases s.len(),
{
    if s.len() == 0 {
        s
    } else if s.last() == '/' {
        Seq::<char>::empty()
    } else {
        last_slash_suffix(s.drop_last()).push(s.last())
    }
}

/// The part of `s` before its first `.`, or all of `s` when it has none.
pub open spec fn before_first_dot(s: Seq<char>) -> Seq<char>
    decreases s.len(),
{
    if s.len() == 0 {
        s
    } else if s.first() == '.' {
        Seq::<char>::empty()
    } else {
        seq![s.first()] + before_first_dot(s.drop_first())
    }
}

/// The element-type label a record's source location yields: its last
/// path segment, minus any extension.
pub open spec fn type_label_spec(src: Seq<char>) -> Seq<char> {
    before_first_dot(last_slash_suffix(src))
}

/// Counts the dots of a string.
pub fn dots_in(s: &str) -> (r: usize)
    ensures
        r == dot_count(s@),
{
    let n = s.unicode_len();
    let mut count: usize = 0;
    let mut i: usize = 0;
    while i < n
        invariant
            n == s@.len(),
            i <= n,
            count <= i,
            count == dot_count(s@.subrange(0, i as int)),
        decreases n - i,
    {
        let c = s.get_char(i);
        proof {
            assert(s@.subrange(0, i + 1).drop_last() =~= s@.subrange(0, i as int));
            assert(s@.subrange(0, i + 1).last() == s@[i as int]);
        }
        if c == '.' {
            count += 1;
        }
        i += 1;
    }
    proof {
        assert(s@.subrange(0, n as int) =~= s@);
    }
    count
}

/// Whether the suffixes of `a` and `b` from position `i` on compare
/// the same as the full strings, given the first `i` characters agree.
proof fn lemma_lex_le_common_prefix(a: Seq<char>, b: Seq<char>, i: int)
    requires
        0 <= i <= a.len(),
        i <= b.len(),
        forall|k: int| 0 <= k < i ==> a[k] == b[k],
    ensures
        lex_le(a, b) == lex_le(a.skip(i), b.skip(i)),
    decreases i,
{
    if i > 0 {
        assert(a.len() > 0 && b.len() > 0);
        assert(a.first() == b.first());
        assert(a.drop_first().skip(i - 1) =~= a.skip(i));
        assert(b.drop_first().skip(i - 1) =~= b.skip(i));
        lemma_lex_le_common_prefix(a.drop_first(), b.drop_first(), i - 1);
    } else {
        assert(a.skip(0) =~= a);
        assert(b.skip(0) =~= b);
    }
}

/// Compares two strings lexicographically by Unicode scalar value.
pub fn lex_le_str(a: &str, b: &str) -> (r: bool)
    ensures
        r == lex_le(a@, b@),
{
    let alen = a.unicode_len();
    let blen = b.unicode_len();
    let mut i: usize = 0;
    loop
        invariant
            alen == a@.len(),
            blen == b@.len(),
            i <= alen,
            i <= blen,
            forall|k: int| 0 <= k < i ==> a@[k] == b@[k],
        decreases alen - i,
    {
        proof {
            lemma_lex_le_common_prefix(a@, b@, i as int);
        }
        if i >= alen {
            return true;
        }
        if i >= blen {
            return false;
        }
        let ca = a.get_char(i);
        let cb = b.get_char(i);
        if ca == cb {
            i += 1;
        } else {
            proof {
                assert(a@.skip(i as int).first() == ca);
                assert(b@.skip(i as int).first() == cb);
            }
            return (ca as u32) < (cb as u32);
        }
    }
}

/// Tests whether `p` is a strict dot-bounded prefix of `g`.
pub fn strict_dot_prefix(p: &str, g: &str) -> (r: bool)
    ensures
        r == is_strict_dot_prefix(p@, g@),
{
    let plen = p.unicode_len();
    let glen = g.unicode_len();
    if plen >= glen {
        return false;
    }
    if g.get_char(plen) != '.' {
        return false;
    }
    let mut i: usize = 0;
    while i < plen
        invariant
            plen == p@.len(),
            glen == g@.len(),
            plen < glen,
            i <= plen,
            forall|k: int| 0 <= k < i ==> g@[k] == p@[k],
        decreases plen - i,
    {
        if g.get_char(i) != p.get_char(i) {
            proof {
                assert(g@.subrange(0, plen as int)[i as int] != p@[i as int]);
            }
            return false;
        }
        i += 1;
    }
    proof {
        assert(g@.subrange(0, plen as int) =~= p@);
    }
    true
}

/// Tests whether `q` is a suffix of `g`.
pub fn suffix_of(q: &str, g: &str) -> (r: bool)
    ensures
        r == is_suffix_of(q@, g@),
{
    let qlen = q.unicode_len();
    let glen = g.unicode_len();
    if qlen > glen {
        return false;
    }
    let off = glen - qlen;
    let mut i: usize = 0;
    while i < qlen
        invariant
            qlen == q@.len(),
            glen == g@.len(),
            off == glen - qlen,
            i <= qlen,
            forall|k: int| 0 <= k < i ==> g@[off + k] == q@[k],
        decreases qlen - i,
    {
        if g.get_char(off + i) != q.get_char(i) {
            proof {
                assert(g@.skip(off as int)[i as int] != q@[i as int]);
            }
            return false;
        }
        i += 1;
    }
    proof {
        assert(g@.skip(off as int) =~= q@);
    }
    true
}

/// Compares two strings for equality of their character sequences.
pub fn str_eq(a: &str, b: &str) -> (r: bool)
    ensures
        r == (a@ == b@),
{
    let alen = a.unicode_len();
    let blen = b.unicode_len();
    if alen != blen {
        return false;
    }
    let mut i: usize = 0;
    while i < alen
        invariant
            alen == a@.len(),
            blen == b@.len(),
            alen == blen,
            i <= alen,
            forall|k: int| 0 <= k < i ==> a@[k] == b@[k],
        decreases alen - i,
    {
        if a.get_char(i) != b.get_char(i) {
            return false;
        }
        i += 1;
    }
    proof {
        assert(a@ =~= b@);
    }
    true
}

/// One decimal digit as a string slice.
fn digit_str(d: u64) -> (r: &'static str)
    requires
        d < 10,
    ensures
        r@ == seq![dec_digit(d as nat)],
{
    proof {
        reveal_strlit("0");
        reveal_strlit("1");
        reveal_strlit("2");
        reveal_strlit("3");
        reveal_strlit("4");
        reveal_strlit("5");
        reveal_strlit("6");
        reveal_strlit("7");
        reveal_strlit("8");
        reveal_strlit("9");
    }
    let r = match d {
        0 => "0",
        1 => "1",
        2 => "2",
        3 => "3",
        4 => "4",
        5 => "5",
        6 => "6",
        7 => "7",
        8 => "8",
        _ => "9",
    };
    proof {
        assert(r@ =~= seq![dec_digit(d as nat)]);
    }
    r
}

/// Renders a number in decimal.
pub fn u64_to_string(n: u64) -> (r: String)
    ensures
        r@ == dec_of(n as nat),
    decreases n,
{
    if n < 10 {
        String::from_str(digit_str(n))
    } else {
        let mut s = u64_to_string(n / 10);
        s.append(digit_str(n % 10));
        proof {
            assert(s@ =~= dec_of(n as nat));
        }
        s
    }
}

proof fn lemma_lss_no_slash(s: Seq<char>)
    requires
        forall|k: int| 0 <= k < s.len() ==> s[k] != '/',
    ensures
        last_slash_suffix(s) == s,
    decreases s.len(),
{
    if s.len() > 0 {
        lemma_lss_no_slash(s.drop_last());
        assert(last_slash_suffix(s) =~= s);
    } else {
        assert(last_slash_suffix(s) =~= s);
    }
}

proof fn lemma_lss_at(s: Seq<char>, m: int)
    requires
        0 <= m < s.len(),
        s[m] == '/',
        forall|k: int| m < k < s.len() ==> s[k] != '/',
    ensures
        last_slash_suffix(s) == s.skip(m + 1),
    decreases s.len(),
{
    if m == s.len() - 1 {
        assert(last_slash_suffix(s) =~= s.skip(m + 1));
    } else {
        lemma_lss_at(s.drop_last(), m);
        assert(last_slash_suffix(s) =~= s.drop_last().skip(m + 1).push(s.last()));
        assert(s.drop_last().skip(m + 1).push(s.last()) =~= s.skip(m + 1));
    }
}

proof fn lemma_bfd_no_dot(s: Seq<char>)
    requires
        forall|k: int| 0 <= k < s.len() ==> s[k] != '.',
    ensures
        before_first_dot(s) == s,
    decreases s.len(),
{
    if s.len() > 0 {
        lemma_bfd_no_dot(s.drop_first());
        assert(before_first_dot(s) =~= s);
    } else {
        assert(before_first_dot(s) =~= s);
    }
}

proof fn lemma_bfd_at(s: Seq<char>, d: int)
    requires
        0 <= d < s.len(),
        s[d] == '.',
        forall|k: int| 0 <= k < d ==> s[k] != '.',
    ensures
        before_first_dot(s) == s.take(d),
    decreases s.len(),
{
    if d == 0 {
        assert(before_first_dot(s) =~= s.take(0));
    } else {
        lemma_bfd_at(s.drop_first(), d - 1);
        assert(before_first_dot(s) =~= seq![s.first()] + s.drop_first().take(d - 1));
        assert(seq![s.first()] + s.drop_first().take(d - 1) =~= s.take(d));
    }
}

/// Derives the element-type label from a source-location string: the
/// last `/`-separated segment, cut at its first `.`.
pub fn type_label_of(src: &str) -> (r: String)
    ensures
        r@ == type_label_spec(src@),
{
    let n = src.unicode_len();
    let mut start: usize = 0;
    let mut i: usize = 0;
    while i < n
        invariant
            n == src@.len(),
            i <= n,
            start <= i,
            start > 0 ==> src@[start - 1] == '/',
            forall|k: int| start <= k < i ==> src@[k] != '/',
            start == 0 ==> forall|k: int| 0 <= k < i ==> src@[k] != '/',
        decreases n - i,
    {
        if src.get_char(i) == '/' {
            start = i + 1;
        }
        i += 1;
    }
    proof {
        if start == 0 {
            lemma_lss_no_slash(src@);
            assert(src@.skip(0) =~= src@);
        } else {
            lemma_lss_at(src@, start - 1);
        }
        assert(last_slash_suffix(src@) == src@.skip(start as int));
    }
    let mut j: usize = start;
    let mut found = false;
    while j < n && !found
        invariant
            n == src@.len(),
            start <= j <= n,
            found ==> j < n && src@[j as int] == '.',
            forall|k: int| start <= k < j ==> src@[k] != '.',
        decreases n - j, 1int - if found {
            1int
        } else {
            0int
        },
    {
        if src.get_char(j) == '.' {
            found = true;
        } else {
            j += 1;
        }
    }
    let piece = src.substring_char(start, j);
    proof {
        let tail = src@.skip(start as int);
        if found {
            lemma_bfd_at(tail, j - start);
        } else {
            lemma_bfd_no_dot(tail);
        }
        assert(tail.take(j - start) =~= src@.subrange(start as int, j as int));
        assert(tail.take(tail.len() as int) =~= tail);
        assert(piece@ == type_label_spec(src@));
    }
    String::from_str(piece)
}

} // verus!
