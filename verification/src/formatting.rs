use vstd::prelude::*;
use vstd::utf8::{encode_utf8, is_char_boundary};

verus! {

/// The character of a decimal digit.
pub open spec fn digit_char(d: nat) -> char {
    (48 + d) as u8 as char
}

/// The decimal digits of `n`, as `format!("{}", n)` writes them.
pub open spec fn decimal(n: nat) -> Seq<char>
    decreases n,
{
    if n < 10 {
        seq![digit_char(n)]
    } else {
        decimal(n / 10).push(digit_char(n % 10))
    }
}

proof fn lemma_decimal_shape(n: nat)
    ensures
        decimal(n).len() >= 1,
        decimal(n).last() == digit_char(n % 10),
        n < 10 <==> decimal(n).len() == 1,
        n >= 10 ==> decimal(n).drop_last() == decimal(n / 10),
    decreases n,
{
    if n >= 10 {
        lemma_decimal_shape(n / 10);
        assert(decimal(n).drop_last() =~= decimal(n / 10));
    }
}

/// Different numbers are written differently.
pub proof fn lemma_decimal_injective(a: nat, b: nat)
    ensures
        decimal(a) == decimal(b) ==> a == b,
    decreases a,
{
    if decimal(a) == decimal(b) {
        lemma_decimal_shape(a);
        lemma_decimal_shape(b);
        assert(digit_char(a % 10) == digit_char(b % 10));
        assert((48 + a % 10) as u8 == (48 + b % 10) as u8);
        if a >= 10 {
            lemma_decimal_injective(a / 10, b / 10);
        }
    }
}

/// Appends a character to a String, by `String::push`, which appends the
/// given char to the end of the String.
#[verifier::external_body]
pub(crate) fn push_char(s: &mut String, c: char)
    ensures
        final(s)@ == old(s)@.push(c),
{
    s.push(c);
}

/// Cuts a String down to its first `new_len` bytes, by `String::truncate`.
/// Its documentation says that a length no shorter than the String has no
/// effect, and that otherwise the length must lie on a character boundary
/// (else it panics); the String then holds its first `new_len` bytes.
#[verifier::external_body]
pub(crate) fn truncate_bytes(s: &mut String, new_len: usize)
    requires
        new_len >= encode_utf8(old(s)@).len() || is_char_boundary(encode_utf8(old(s)@), new_len as int),
    ensures
        new_len >= encode_utf8(old(s)@).len() ==> final(s)@ == old(s)@,
        new_len < encode_utf8(old(s)@).len() ==> encode_utf8(final(s)@) == encode_utf8(old(s)@).take(
            new_len as int,
        ),
{
    s.truncate(new_len);
}

/// Appends the decimal digits of `n`.
pub fn push_decimal(s: &mut String, n: u128)
    ensures
        final(s)@ == old(s)@ + decimal(n as nat),
{
    let mut digits: Vec<char> = Vec::new();
    let mut rest = n;
    proof {
        lemma_decimal_shape(n as nat);
    }
    loop
        invariant_except_break
            decimal(n as nat) == decimal(rest as nat) + digits@.reverse(),
        ensures
            decimal(n as nat) == digits@.reverse(),
        decreases rest,
    {
        proof {
            lemma_decimal_shape(rest as nat);
        }
        digits.push(((48 + rest % 10) as u8) as char);
        if rest < 10 {
            assert(decimal(rest as nat) =~= seq![digit_char(rest as nat)]);
            assert(decimal(n as nat) =~= digits@.reverse());
            break;
        }
        assert(decimal(rest as nat) =~= decimal((rest / 10) as nat).push(digit_char((rest % 10) as nat)));
        assert(decimal(n as nat) =~= decimal((rest / 10) as nat) + digits@.reverse());
        rest = rest / 10;
    }
    let mut i = digits.len();
    let ghost start = s@;
    while i > 0
        invariant
            i <= digits@.len(),
            decimal(n as nat) == digits@.reverse(),
            s@ == start + digits@.reverse().take(digits@.len() - i),
        decreases i,
    {
        push_char(s, digits[i - 1]);
        assert(digits@.reverse().take(digits@.len() - i + 1) =~= digits@.reverse().take(digits@.len() - i).push(
            digits@[i - 1],
        ));
        i = i - 1;
    }
    assert(digits@.reverse().take(digits@.len() as int) =~= digits@.reverse());
}

/// The characters of `s`.
pub fn str_chars(s: &str) -> (r: Vec<char>)
    ensures
        r@ == s@,
{
    let n = s.unicode_len();
    let mut r: Vec<char> = Vec::new();
    let mut i: usize = 0;
    while i < n
        invariant
            n == s@.len(),
            i <= n,
            r@ == s@.take(i as int),
        decreases n - i,
    {
        r.push(s.get_char(i));
        assert(s@.take(i + 1) =~= s@.take(i as int).push(s@[i as int]));
        i = i + 1;
    }
    assert(s@.take(n as int) =~= s@);
    r
}

/// Appends the characters `cs[from..to]` to `out`.
pub fn push_chars(out: &mut String, cs: &Vec<char>, from: usize, to: usize)
    requires
        from <= to <= cs@.len(),
    ensures
        final(out)@ == old(out)@ + cs@.subrange(from as int, to as int),
{
    let mut i = from;
    while i < to
        invariant
            from <= i <= to <= cs@.len(),
            out@ == old(out)@ + cs@.subrange(from as int, i as int),
        decreases to - i,
    {
        push_char(out, cs[i]);
        assert(cs@.subrange(from as int, i + 1) =~= cs@.subrange(from as int, i as int).push(cs@[i as int]));
        i = i + 1;
    }
}

/// Whether the characters `t` are the word `w`.
pub fn is_word(t: &Vec<char>, w: &str) -> (r: bool)
    ensures
        r == (t@ == w@),
{
    let n = w.unicode_len();
    if t.len() != n {
        return false;
    }
    let mut i: usize = 0;
    while i < n
        invariant
            n == w@.len() == t@.len(),
            i <= n,
            forall|j: int| 0 <= j < i ==> t@[j] == w@[j],
        decreases n - i,
    {
        if t[i] != w.get_char(i) {
            return false;
        }
        i = i + 1;
    }
    assert(t@ =~= w@);
    true
}

/// The characters `cs` as a text.
pub fn text_of(cs: &Vec<char>) -> (r: String)
    ensures
        r@ == cs@,
{
    let mut out = String::new();
    push_chars(&mut out, cs, 0, cs.len());
    assert(cs@.subrange(0, cs@.len() as int) =~= cs@);
    out
}

/// A text made of the literal `prefix` and the characters `cs`.
pub fn text_with(prefix: &str, cs: &Vec<char>) -> (r: String)
    ensures
        r@ == prefix@ + cs@,
{
    let mut out = String::from_str(prefix);
    push_chars(&mut out, cs, 0, cs.len());
    assert(cs@.subrange(0, cs@.len() as int) =~= cs@);
    out
}

} // verus!
