//! Text helpers shared by the reader and the writer: decimal numerals,
//! character replacement and whitespace splitting.
use vstd::prelude::*;

verus! {

/// The decimal numeral of a digit `0..=9`.
pub open spec fn digit_char(d: nat) -> char {
    if d == 0 { '0' }
    else if d == 1 { '1' }
    else if d == 2 { '2' }
    else if d == 3 { '3' }
    else if d == 4 { '4' }
    else if d == 5 { '5' }
    else if d == 6 { '6' }
    else if d == 7 { '7' }
    else if d == 8 { '8' }
    else { '9' }
}

/// The decimal numeral of `n`, most significant digit first, without leading zeros.
pub open spec fn decimal(n: nat) -> Seq<char>
    decreases n,
{
    if n < 10 {
        seq![digit_char(n)]
    } else {
        decimal(n / 10).push(digit_char(n % 10))
    }
}

/// Whether `s` starts with `p`.
pub open spec fn starts_with(s: Seq<char>, p: Seq<char>) -> bool {
    p.len() <= s.len() && s.subrange(0, p.len() as int) == p
}

/// Whether `s` ends with `p`.
pub open spec fn ends_with(s: Seq<char>, p: Seq<char>) -> bool {
    p.len() <= s.len() && s.subrange(s.len() - p.len(), s.len() as int) == p
}

/// A text that starts with `p` still does after more is appended.
pub proof fn lemma_starts_with_append(s: Seq<char>, p: Seq<char>, t: Seq<char>)
    requires
        starts_with(s, p),
    ensures
        starts_with(s + t, p),
{
    assert((s + t).subrange(0, p.len() as int) =~= s.subrange(0, p.len() as int));
}

/// A text ends with what was appended last.
pub proof fn lemma_ends_with_append(s: Seq<char>, t: Seq<char>)
    ensures
        ends_with(s + t, t),
{
    assert((s + t).subrange(s.len() as int, (s + t).len() as int) =~= t);
}

/// A numeral is never empty, and has two digits or more from 10 on.
pub proof fn lemma_decimal_len(n: nat)
    ensures
        decimal(n).len() >= 1,
        n >= 10 ==> decimal(n).len() >= 2,
    decreases n,
{
    if n >= 10 {
        lemma_decimal_len(n / 10);
    }
}

/// Different numbers have different numerals.
pub proof fn lemma_decimal_injective(n: nat, m: nat)
    requires
        decimal(n) == decimal(m),
    ensures
        n == m,
    decreases n,
{
    lemma_decimal_len(n);
    lemma_decimal_len(m);
    let dn = decimal(n);
    let dm = decimal(m);
    if n < 10 {
        assert(m < 10);
        assert(dn[0] == digit_char(n));
        assert(dm[0] == digit_char(m));
    } else {
        assert(m >= 10);
        assert(dn.last() == digit_char(n % 10));
        assert(dm.last() == digit_char(m % 10));
        assert(dn.drop_last() =~= decimal(n / 10));
        assert(dm.drop_last() =~= decimal(m / 10));
        lemma_decimal_injective(n / 10, m / 10);
        assert(n % 10 == m % 10);
    }
}

/// Two texts that start with the same prefix are equal only if the rest is.
pub proof fn lemma_prefix_cancel(p: Seq<char>, a: Seq<char>, b: Seq<char>)
    requires
        p + a == p + b,
    ensures
        a == b,
{
    assert(a =~= (p + a).subrange(p.len() as int, (p + a).len() as int));
    assert(b =~= (p + b).subrange(p.len() as int, (p + b).len() as int));
}

/// Whether `w` occurs in `t` as a run of consecutive characters.
pub open spec fn contains_text(t: Seq<char>, w: Seq<char>) -> bool {
    exists|a: int| 0 <= a && a + w.len() <= t.len() && #[trigger] t.subrange(a, a + w.len()) == w
}

/// A text occurs in what it was placed at position `a` of.
pub proof fn lemma_contains_at(t: Seq<char>, w: Seq<char>, a: int)
    requires
        0 <= a,
        a + w.len() <= t.len(),
        t.subrange(a, a + w.len()) == w,
    ensures
        contains_text(t, w),
{
}

/// What occurs in a part of a text occurs in the text, whatever comes
/// before or after that part.
pub proof fn lemma_contains_in_concat(x: Seq<char>, y: Seq<char>, w: Seq<char>)
    ensures
        contains_text(x, w) ==> contains_text(x + y, w),
        contains_text(y, w) ==> contains_text(x + y, w),
{
    if contains_text(x, w) {
        let a = choose|a: int| 0 <= a && a + w.len() <= x.len() && #[trigger] x.subrange(a, a + w.len()) == w;
        assert((x + y).subrange(a, a + w.len()) =~= x.subrange(a, a + w.len()));
        lemma_contains_at(x + y, w, a);
    }
    if contains_text(y, w) {
        let a = choose|a: int| 0 <= a && a + w.len() <= y.len() && #[trigger] y.subrange(a, a + w.len()) == w;
        assert((x + y).subrange(x.len() + a, x.len() + a + w.len()) =~= y.subrange(a, a + w.len()));
        lemma_contains_at(x + y, w, x.len() + a);
    }
}

/// What occurs in a text that occurs in `t` occurs in `t`.
pub proof fn lemma_contains_trans(t: Seq<char>, u: Seq<char>, w: Seq<char>)
    requires
        contains_text(t, u),
        contains_text(u, w),
    ensures
        contains_text(t, w),
{
    let a = choose|a: int| 0 <= a && a + u.len() <= t.len() && #[trigger] t.subrange(a, a + u.len()) == u;
    let b = choose|b: int| 0 <= b && b + w.len() <= u.len() && #[trigger] u.subrange(b, b + w.len()) == w;
    assert(t.subrange(a + b, a + b + w.len()) =~= u.subrange(b, b + w.len()));
    lemma_contains_at(t, w, a + b);
}

/// Appends one character to a string (`String::push`).
#[verifier::external_body]
pub(crate) fn push_char(s: &mut String, c: char)
    ensures
        final(s)@ == old(s)@.push(c),
{
    s.push(c);
}

/// Whether two string slices hold the same characters.
pub(crate) fn str_equal(a: &str, b: &str) -> (r: bool)
    ensures
        r == (a@ == b@),
{
    let n = a.unicode_len();
    if n != b.unicode_len() {
        return false;
    }
    let mut i: usize = 0;
    while i < n
        invariant
            n == a@.len(),
            n == b@.len(),
            0 <= i <= n,
            forall|k: int| 0 <= k < i ==> a@[k] == b@[k],
        decreases n - i,
    {
        if a.get_char(i) != b.get_char(i) {
            return false;
        }
        i = i + 1;
    }
    assert(a@ =~= b@);
    true
}

fn digit_to_char(d: u64) -> (c: char)
    requires
        d < 10,
    ensures
        c == digit_char(d as nat),
{
    if d == 0 { '0' }
    else if d == 1 { '1' }
    else if d == 2 { '2' }
    else if d == 3 { '3' }
    else if d == 4 { '4' }
    else if d == 5 { '5' }
    else if d == 6 { '6' }
    else if d == 7 { '7' }
    else if d == 8 { '8' }
    else { '9' }
}

/// The decimal numeral of `n`, as `format!("{}", n)` writes it.
pub fn decimal_string(n: u64) -> (s: String)
    ensures
        s@ == decimal(n as nat),
    decreases n,
{
    if n < 10 {
        let mut s = String::new();
        push_char(&mut s, digit_to_char(n));
        s
    } else {
        let mut s = decimal_string(n / 10);
        push_char(&mut s, digit_to_char(n % 10));
        s
    }
}

/// `s` with every occurrence of the character `c` replaced by `rep`.
pub open spec fn replace_char(s: Seq<char>, c: char, rep: Seq<char>) -> Seq<char>
    decreases s.len(),
{
    if s.len() == 0 {
        Seq::empty()
    } else if s.last() == c {
        replace_char(s.drop_last(), c, rep) + rep
    } else {
        replace_char(s.drop_last(), c, rep).push(s.last())
    }
}

/// A replacement that does not hold a character `d` leaves no `d` behind
/// where the text had none besides those replaced.
pub proof fn lemma_replace_char_removes(s: Seq<char>, c: char, rep: Seq<char>, d: char)
    requires
        !rep.contains(d),
        d == c || !s.contains(d),
    ensures
        !replace_char(s, c, rep).contains(d),
    decreases s.len(),
{
    if s.len() > 0 {
        assert(d == c || !s.drop_last().contains(d)) by {
            if d != c && s.drop_last().contains(d) {
                let k = choose|k: int| 0 <= k < s.drop_last().len() && s.drop_last()[k] == d;
                assert(s[k] == d);
            }
        }
        lemma_replace_char_removes(s.drop_last(), c, rep, d);
        let prev = replace_char(s.drop_last(), c, rep);
        if s.last() == c {
            assert forall|k: int| 0 <= k < (prev + rep).len() implies (prev + rep)[k] != d by {
                if k >= prev.len() {
                    assert(rep[k - prev.len()] == (prev + rep)[k]);
                }
            }
        } else {
            assert(s.last() != d) by {
                if d != c {
                    assert(s[s.len() - 1] == s.last());
                }
            }
            assert forall|k: int| 0 <= k < prev.push(s.last()).len() implies prev.push(s.last())[k] != d by {
                if k < prev.len() {
                    assert(prev.push(s.last())[k] == prev[k]);
                }
            }
        }
    }
}

/// Replaces every occurrence of `c` in `s` by `rep`, as `str::replace` does
/// with a character pattern.
pub fn replace_char_str(s: &str, c: char, rep: &str) -> (r: String)
    ensures
        r@ == replace_char(s@, c, rep@),
{
    let mut out = String::new();
    let ghost mut seen: Seq<char> = Seq::empty();
    for ch in it: s.chars()
        invariant
            it.seq() == s@,
            seen == s@.take(it.index() as int),
            out@ == replace_char(seen, c, rep@),
    {
        proof {
            assert(s@.take(it.index() + 1).drop_last() =~= seen);
        }
        if ch == c {
            out.append(rep);
        } else {
            push_char(&mut out, ch);
        }
        proof {
            seen = s@.take(it.index() + 1);
        }
    }
    assert(seen =~= s@);
    out
}

/// Whether `c` has the Unicode `White_Space` property, as `char::is_whitespace` tests.
pub open spec fn is_white_space(c: char) -> bool {
    let u = c as u32;
    ||| 0x09 <= u <= 0x0d
    ||| u == 0x20
    ||| u == 0x85
    ||| u == 0xa0
    ||| u == 0x1680
    ||| 0x2000 <= u <= 0x200a
    ||| u == 0x2028
    ||| u == 0x2029
    ||| u == 0x202f
    ||| u == 0x205f
    ||| u == 0x3000
}

fn white_space(c: char) -> (r: bool)
    ensures
        r == is_white_space(c),
{
    let u = c as u32;
    (0x09 <= u && u <= 0x0d) || u == 0x20 || u == 0x85 || u == 0xa0 || u == 0x1680 || (0x2000 <= u
        && u <= 0x200a) || u == 0x2028 || u == 0x2029 || u == 0x202f || u == 0x205f || u == 0x3000
}

/// The words read so far and the word being read, after the characters of `s`.
pub open spec fn split_state(s: Seq<char>) -> (Seq<Seq<char>>, Seq<char>)
    decreases s.len(),
{
    if s.len() == 0 {
        (Seq::empty(), Seq::empty())
    } else {
        let (words, cur) = split_state(s.drop_last());
        if is_white_space(s.last()) {
            if cur.len() > 0 {
                (words.push(cur), Seq::empty())
            } else {
                (words, cur)
            }
        } else {
            (words, cur.push(s.last()))
        }
    }
}

/// The words of `s`: its maximal runs of characters that are not white
/// space, in order, as `str::split_whitespace` yields them.
pub open spec fn split_whitespace(s: Seq<char>) -> Seq<Seq<char>> {
    let (words, cur) = split_state(s);
    if cur.len() > 0 {
        words.push(cur)
    } else {
        words
    }
}

/// The words of `s`, separated by white space.
pub fn split_words(s: &str) -> (r: Vec<String>)
    ensures
        r.deep_view() == split_whitespace(s@),
{
    let mut words: Vec<String> = Vec::new();
    let mut cur = String::new();
    let ghost mut seen: Seq<char> = Seq::empty();
    for ch in it: s.chars()
        invariant
            it.seq() == s@,
            seen == s@.take(it.index() as int),
            (words.deep_view(), cur@) == split_state(seen),
    {
        proof {
            assert(s@.take(it.index() + 1).drop_last() =~= seen);
        }
        let ghost before = words.deep_view();
        if white_space(ch) {
            if !cur.as_str().is_empty() {
                words.push(cur);
                cur = String::new();
                assert(words.deep_view() =~= before.push(split_state(seen).1));
            }
        } else {
            push_char(&mut cur, ch);
        }
        proof {
            seen = s@.take(it.index() + 1);
        }
    }
    assert(seen =~= s@);
    if !cur.as_str().is_empty() {
        let ghost before = words.deep_view();
        words.push(cur);
        assert(words.deep_view() =~= before.push(split_state(seen).1));
    }
    words
}

} // verus!
