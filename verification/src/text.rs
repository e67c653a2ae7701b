//! Character-sequence helpers shared by the parsers, the buffer and the renderer:
//! splitting, integer parsing as std's `from_str_radix` does it, and the small std
//! string operations that the verified code needs.
use vstd::prelude::*;

verus! {

/// Whether two string slices hold the same characters.
pub(crate) fn str_eq(a: &str, b: &str) -> (res: bool)
    ensures
        res == (a@ == b@),
{
    let cs = chars_of(a);
    chars_eq_str(cs.as_slice(), b)
}

/// std's `String::push`: appends one character.
#[verifier::external_body]
pub(crate) fn string_push(s: &mut String, c: char)
    ensures
        final(s)@ == old(s)@.push(c),
{
    s.push(c)
}

/// The characters of a string slice, in order.
pub fn chars_of(s: &str) -> (v: Vec<char>)
    ensures
        v@ == s@,
{
    let mut v: Vec<char> = Vec::new();
    for c in it: s.chars()
        invariant
            v@ == it.seq().take(it.index() as int),
            it.seq() == s@,
        ensures
            v@ == s@,
    {
        v.push(c);
        assert(it.seq().take(it.index() + 1) == it.seq().take(it.index() as int).push(c));
    }
    v
}

/// A string holding exactly the given characters.
pub fn string_of(v: &[char]) -> (s: String)
    ensures
        s@ == v@,
{
    let mut s = String::new();
    let mut i: usize = 0;
    while i < v.len()
        invariant
            i <= v@.len(),
            s@ == v@.take(i as int),
        decreases v@.len() - i,
    {
        string_push(&mut s, v[i]);
        assert(v@.take(i + 1) == v@.take(i as int).push(v@[i as int]));
        i = i + 1;
    }
    assert(v@.take(v@.len() as int) == v@);
    s
}

/// Whether the characters `v` spell exactly the literal `lit`.
pub fn chars_eq_str(v: &[char], lit: &str) -> (b: bool)
    ensures
        b == (v@ == lit@),
{
    let n = lit.unicode_len();
    if v.len() != n {
        return false;
    }
    let mut i: usize = 0;
    while i < n
        invariant
            n == lit@.len(),
            v@.len() == n,
            i <= n,
            forall|j: int| 0 <= j < i ==> v@[j] == lit@[j],
        decreases n - i,
    {
        if v[i] != lit.get_char(i) {
            return false;
        }
        i = i + 1;
    }
    assert(v@ == lit@);
    true
}

/// The pieces of `s` between the occurrences of `sep`, as std's `str::split` with a
/// character pattern yields them: one more piece than there are separators, empty
/// pieces included.
pub open spec fn split_on(s: Seq<char>, sep: char) -> Seq<Seq<char>>
    decreases s.len(),
{
    if s.len() == 0 {
        seq![Seq::<char>::empty()]
    } else {
        let r = split_on(s.drop_last(), sep);
        if s.last() == sep {
            r.push(Seq::<char>::empty())
        } else {
            r.update(r.len() - 1, r.last().push(s.last()))
        }
    }
}

/// `split_on` always yields at least one piece.
pub proof fn lemma_split_on_nonempty(s: Seq<char>, sep: char)
    ensures
        split_on(s, sep).len() >= 1,
    decreases s.len(),
{
    if s.len() > 0 {
        lemma_split_on_nonempty(s.drop_last(), sep);
    }
}

/// Split the characters `v` on `sep`.
pub fn split_chars(v: &[char], sep: char) -> (parts: Vec<Vec<char>>)
    ensures
        parts@.len() == split_on(v@, sep).len(),
        forall|i: int| 0 <= i < parts@.len() ==> #[trigger] parts@[i]@ == split_on(v@, sep)[i],
{
    let mut parts: Vec<Vec<char>> = Vec::new();
    let mut cur: Vec<char> = Vec::new();
    let mut i: usize = 0;
    assert(v@.take(0) =~= Seq::<char>::empty());
    while i < v.len()
        invariant
            i <= v@.len(),
            parts@.len() + 1 == split_on(v@.take(i as int), sep).len(),
            forall|k: int|
                0 <= k < parts@.len() ==> #[trigger] parts@[k]@ == split_on(
                    v@.take(i as int),
                    sep,
                )[k],
            cur@ == split_on(v@.take(i as int), sep).last(),
        decreases v@.len() - i,
    {
        let c = v[i];
        let ghost pre = v@.take(i as int);
        proof {
            lemma_split_on_nonempty(pre, sep);
            assert(v@.take(i + 1).drop_last() == pre);
        }
        if c == sep {
            parts.push(cur);
            cur = Vec::new();
        } else {
            cur.push(c);
        }
        i = i + 1;
    }
    assert(v@.take(v@.len() as int) == v@);
    parts.push(cur);
    parts
}

/// Whether `c` is a digit in base `radix` (at most 36), as std's `char::to_digit`
/// accepts it: `0-9`, then letters of either case.
pub open spec fn is_radix_digit(c: char, radix: u32) -> bool {
    digit_value(c) < radix
}

/// The value of a digit character; 36 for a character that is no digit in any base.
pub open spec fn digit_value(c: char) -> u32 {
    if '0' <= c <= '9' {
        (c as u32 - '0' as u32) as u32
    } else if 'a' <= c <= 'z' {
        (c as u32 - 'a' as u32 + 10) as u32
    } else if 'A' <= c <= 'Z' {
        (c as u32 - 'A' as u32 + 10) as u32
    } else {
        36
    }
}

/// The number written by the digits `d` in base `radix`.
pub open spec fn digits_value(d: Seq<char>, radix: u32) -> nat
    decreases d.len(),
{
    if d.len() == 0 {
        0
    } else {
        digits_value(d.drop_last(), radix) * (radix as nat) + digit_value(d.last()) as nat
    }
}

/// Whether every character of `d` is a digit in base `radix`.
pub open spec fn all_radix_digits(d: Seq<char>, radix: u32) -> bool {
    forall|i: int| 0 <= i < d.len() ==> is_radix_digit(#[trigger] d[i], radix)
}

/// What std's `u8::from_str_radix(s, radix)` gives: an optional `+` sign, then at
/// least one digit of the base, and a value that fits in a `u8`.
pub open spec fn parse_u8_radix(s: Seq<char>, radix: u32) -> Option<u8> {
    let d = if s.len() > 0 && s[0] == '+' {
        s.drop_first()
    } else {
        s
    };
    if d.len() > 0 && all_radix_digits(d, radix) && digits_value(d, radix) <= 255 {
        Some(digits_value(d, radix) as u8)
    } else {
        None
    }
}

/// The value of one digit character, as `char::to_digit(36)` would compute it.
fn digit_of(c: char) -> (v: u32)
    ensures
        v == digit_value(c),
{
    if '0' <= c && c <= '9' {
        c as u32 - '0' as u32
    } else if 'a' <= c && c <= 'z' {
        c as u32 - 'a' as u32 + 10
    } else if 'A' <= c && c <= 'Z' {
        c as u32 - 'A' as u32 + 10
    } else {
        36
    }
}

/// Parse a `u8` in base 10 or 16 the way std's `u8::from_str_radix` does.
pub fn parse_u8(s: &[char], radix: u32) -> (r: Option<u8>)
    requires
        radix == 10 || radix == 16,
    ensures
        r == parse_u8_radix(s@, radix),
{
    let start: usize = if s.len() > 0 && s[0] == '+' {
        1
    } else {
        0
    };
    let ghost d = if s@.len() > 0 && s@[0] == '+' {
        s@.drop_first()
    } else {
        s@
    };
    assert(d == s@.subrange(start as int, s@.len() as int));
    if start == s.len() {
        return None;
    }
    let mut val: u32 = 0;
    let mut over = false;
    let mut i = start;
    while i < s.len()
        invariant
            start <= i <= s@.len(),
            d == s@.subrange(start as int, s@.len() as int),
            d == (if s@.len() > 0 && s@[0] == '+' {
                s@.drop_first()
            } else {
                s@
            }),
            radix == 10 || radix == 16,
            forall|j: int| start <= j < i ==> is_radix_digit(#[trigger] s@[j], radix),
            !over ==> val as nat == digits_value(s@.subrange(start as int, i as int), radix)
                && val <= 255,
            over ==> digits_value(s@.subrange(start as int, i as int), radix) > 255,
        decreases s@.len() - i,
    {
        let dv = digit_of(s[i]);
        if dv >= radix {
            proof {
                assert(d[i - start] == s@[i as int]);
                assert(!is_radix_digit(d[i - start], radix));
            }
            return None;
        }
        let ghost pre = s@.subrange(start as int, i as int);
        let ghost next = s@.subrange(start as int, i + 1);
        proof {
            assert(next.drop_last() == pre);
            assert(next.last() == s@[i as int]);
        }
        if !over {
            let nv = val * radix + dv;
            if nv > 255 {
                over = true;
            } else {
                val = nv;
            }
        }
        i = i + 1;
    }
    proof {
        assert(s@.subrange(start as int, s@.len() as int) == d);
        assert forall|j: int| 0 <= j < d.len() implies is_radix_digit(#[trigger] d[j], radix) by {
            assert(d[j] == s@[start + j]);
        }
    }
    if over {
        None
    } else {
        Some(val as u8)
    }
}

} // verus!
