//! Character-level building blocks shared by the export formats: decimal
//! rendering with zero padding, separators, and the std string primitives
//! that vstd does not specify.
use vstd::prelude::*;

verus! {

/// Appends one character to a string. Wraps `String::push`, which std
/// documents as appending the given char to the end of the string.
#[verifier::external_body]
pub(crate) fn push_char(s: &mut String, c: char)
    ensures
        final(s)@ == old(s)@.push(c),
{
    s.push(c);
}

/// Whether two strings hold the same characters.
pub fn str_eq(a: &str, b: &str) -> (r: bool)
    ensures
        r == (a@ == b@),
{
    let x = String::from_str(a);
    let y = String::from_str(b);
    x == y
}

/// The ASCII digit for `d` (0..=9).
pub open spec fn digit_char(d: nat) -> char {
    if d == 0 { '0' }
    else if d == 1 { '1' }
    else if d == 2 { '2' }
    else if d == 3 { '3' }
    else if d == 4 { '4' }
    else if d == 5 { '5' }
    else if d == 6 { '6' }
    else if d == 7 { '7' }
    else if d == 8 { '8' }
    else { '9' }
}

/// Decimal representation of `n`, without leading zeros ("0" for zero).
pub open spec fn decimal(n: nat) -> Seq<char>
    decreases n,
{
    if n < 10 {
        seq![digit_char(n)]
    } else {
        decimal(n / 10).push(digit_char(n % 10))
    }
}

/// `n` in decimal, left-padded with zeros to at least `width` characters
/// (the `{:0width}` format of std).
pub open spec fn zero_padded(n: nat, width: nat) -> Seq<char> {
    let d = decimal(n);
    if d.len() >= width {
        d
    } else {
        Seq::new((width - d.len()) as nat, |i: int| '0') + d
    }
}

/// `s` right-padded with spaces to at least `width` characters (the `{:<width}`
/// format of std).
pub open spec fn space_padded(s: Seq<char>, width: nat) -> Seq<char> {
    if s.len() >= width {
        s
    } else {
        s + Seq::new((width - s.len()) as nat, |i: int| ' ')
    }
}

/// `parts` joined with `sep` between consecutive elements (`[T]::join`).
pub open spec fn joined(parts: Seq<Seq<char>>, sep: Seq<char>) -> Seq<char>
    decreases parts.len(),
{
    if parts.len() == 0 {
        Seq::empty()
    } else if parts.len() == 1 {
        parts[0]
    } else {
        joined(parts.drop_last(), sep) + sep + parts.last()
    }
}

/// The character views of a list of strings.
pub open spec fn views(v: Seq<String>) -> Seq<Seq<char>> {
    v.map_values(|s: String| s@)
}

fn digit(d: u128) -> (c: char)
    requires
        d < 10,
    ensures
        c == digit_char(d as nat),
{
    if d == 0 { '0' }
    else if d == 1 { '1' }
    else if d == 2 { '2' }
    else if d == 3 { '3' }
    else if d == 4 { '4' }
    else if d == 5 { '5' }
    else if d == 6 { '6' }
    else if d == 7 { '7' }
    else if d == 8 { '8' }
    else { '9' }
}

/// Appends the decimal representation of `n`.
pub fn push_decimal(out: &mut String, n: u128)
    ensures
        final(out)@ == old(out)@ + decimal(n as nat),
    decreases n,
{
    if n >= 10 {
        push_decimal(out, n / 10);
    }
    push_char(out, digit(n % 10));
    proof {
        if n >= 10 {
            assert(decimal(n as nat) == decimal((n / 10) as nat).push(digit_char((n % 10) as nat)));
        }
    }
}

/// Number of decimal digits of `n`.
pub fn decimal_len(n: u128) -> (r: usize)
    ensures
        r as nat == decimal(n as nat).len(),
        1 <= r <= 39,
    decreases n,
{
    if n < 10 {
        1
    } else {
        let k = decimal_len(n / 10);
        assert(decimal(n as nat).len() == decimal((n / 10) as nat).len() + 1);
        assert(n / 10 < 10 ==> k == 1);
        proof {
            lemma_decimal_len_bound(n as nat);
        }
        k + 1
    }
}

proof fn lemma_decimal_len_bound(n: nat)
    requires
        n <= u128::MAX,
    ensures
        decimal(n).len() <= 39,
{
    reveal_with_fuel(pow10, 40);
    assert(pow10(39) == 1_000_000_000_000_000_000_000_000_000_000_000_000_000nat);
    lemma_decimal_len_le(n, 38);
}

/// A number below 10^(k+1) has at most k+1 digits.
proof fn lemma_decimal_len_le(n: nat, k: nat)
    requires
        n < pow10(k + 1),
    ensures
        decimal(n).len() <= k + 1,
    decreases k,
{
    if n >= 10 {
        if k == 0 {
            assert(pow10(1) == 10 * pow10(0));
        } else {
            assert(pow10(k + 1) == 10 * pow10(k));
            assert(n / 10 < pow10(k)) by (nonlinear_arith)
                requires n < 10 * pow10(k);
            lemma_decimal_len_le(n / 10, (k - 1) as nat);
        }
    }
}

spec fn pow10(k: nat) -> nat
    decreases k,
{
    if k == 0 { 1 } else { 10 * pow10((k - 1) as nat) }
}

/// Appends `n` left-padded with zeros to `width` characters.
pub fn push_zero_padded(out: &mut String, n: u128, width: usize)
    ensures
        final(out)@ == old(out)@ + zero_padded(n as nat, width as nat),
{
    let len = decimal_len(n);
    let ghost start = out@;
    if len < width {
        let mut i: usize = 0;
        while i < width - len
            invariant
                len < width,
                i <= width - len,
                out@ == start + Seq::new(i as nat, |j: int| '0'),
            decreases width - len - i,
        {
            push_char(out, '0');
            i = i + 1;
            assert(out@ =~= start + Seq::new(i as nat, |j: int| '0'));
        }
    }
    push_decimal(out, n);
    assert(out@ =~= start + zero_padded(n as nat, width as nat));
}

/// Appends `s` right-padded with spaces to `width` characters.
pub fn push_space_padded(out: &mut String, s: &str, width: usize)
    requires
        s@.len() <= usize::MAX,
    ensures
        final(out)@ == old(out)@ + space_padded(s@, width as nat),
{
    let ghost start = out@;
    out.append(s);
    let len = s.unicode_len();
    if len < width {
        let mut i: usize = 0;
        while i < width - len
            invariant
                len < width,
                len as nat == s@.len(),
                i <= width - len,
                out@ == start + s@ + Seq::new(i as nat, |j: int| ' '),
            decreases width - len - i,
        {
            push_char(out, ' ');
            i = i + 1;
            assert(out@ =~= start + s@ + Seq::new(i as nat, |j: int| ' '));
        }
    }
    assert(out@ =~= start + space_padded(s@, width as nat));
}

/// Appends the elements of `parts` separated by `sep`.
pub fn push_joined(out: &mut String, parts: &Vec<String>, sep: &str)
    ensures
        final(out)@ == old(out)@ + joined(views(parts@), sep@),
{
    let ghost start = out@;
    let ghost pv = views(parts@);
    let mut i: usize = 0;
    while i < parts.len()
        invariant
            i <= parts.len(),
            pv == views(parts@),
            pv.len() == parts@.len(),
            out@ == start + joined(pv.take(i as int), sep@),
        decreases parts.len() - i,
    {
        if i > 0 {
            out.append(sep);
        }
        out.append(parts[i].as_str());
        proof {
            let t = pv.take(i + 1);
            assert(t.drop_last() =~= pv.take(i as int));
            assert(t.last() == parts@[i as int]@);
            if i == 0 {
                assert(pv.take(0) =~= Seq::<Seq<char>>::empty());
                assert(joined(pv.take(0), sep@) == Seq::<char>::empty());
            }
        }
        i = i + 1;
        assert(out@ =~= start + joined(pv.take(i as int), sep@));
    }
    assert(pv.take(parts.len() as int) =~= pv);
}

/// A decimal digit '0'..='9'.
pub open spec fn is_digit_char(c: char) -> bool {
    48 <= (c as u32) <= 57
}

/// A non-empty run of decimal digits.
pub open spec fn is_digits(s: Seq<char>) -> bool {
    s.len() > 0 && forall|i: int| 0 <= i < s.len() ==> is_digit_char(#[trigger] s[i])
}

/// The number a run of decimal digits writes.
pub open spec fn digits_value(s: Seq<char>) -> nat
    decreases s.len(),
{
    if s.len() == 0 {
        0
    } else {
        digits_value(s.drop_last()) * 10 + ((s.last() as u32) - 48) as nat
    }
}

/// A run of digits is worth at least any of its prefixes.
proof fn lemma_digits_value_grows(s: Seq<char>, k: int)
    requires
        0 <= k <= s.len(),
        forall|i: int| 0 <= i < s.len() ==> is_digit_char(#[trigger] s[i]),
    ensures
        digits_value(s) >= digits_value(s.take(k)),
    decreases s.len(),
{
    if k < s.len() {
        assert(s.drop_last().take(k) =~= s.take(k));
        lemma_digits_value_grows(s.drop_last(), k);
        assert(is_digit_char(s[s.len() - 1]));
    } else {
        assert(s.take(k) =~= s);
    }
}

/// Reads the characters `start..end` of a text as a run of decimal digits whose
/// value fits in a `u32`; `None` when they are not such a run.
pub fn parse_digits(text: &str, start: usize, end: usize) -> (r: Option<u32>)
    requires
        start <= end <= text@.len(),
    ensures
        match r {
            Some(v) => is_digits(text@.subrange(start as int, end as int)) && digits_value(
                text@.subrange(start as int, end as int),
            ) == v,
            None => !(is_digits(text@.subrange(start as int, end as int)) && digits_value(
                text@.subrange(start as int, end as int),
            ) <= u32::MAX),
        },
{
    let ghost whole = text@.subrange(start as int, end as int);
    if start == end {
        return None;
    }
    let mut acc: u64 = 0;
    let mut i: usize = start;
    while i < end
        invariant
            start <= i <= end <= text@.len(),
            whole == text@.subrange(start as int, end as int),
            acc <= u32::MAX,
            acc == digits_value(text@.subrange(start as int, i as int)),
            forall|j: int| start <= j < i ==> is_digit_char(#[trigger] text@[j]),
        decreases end - i,
    {
        let c = text.get_char(i);
        let code = c as u32;
        if code < 48 || code > 57 {
            assert(whole[i - start] == c);
            return None;
        }
        proof {
            let t = text@.subrange(start as int, i + 1);
            assert(t.drop_last() =~= text@.subrange(start as int, i as int));
            assert(t.last() == c);
        }
        acc = acc * 10 + (code - 48) as u64;
        i = i + 1;
        if acc > 4294967295 {
            proof {
                let t = text@.subrange(start as int, i as int);
                if is_digits(whole) {
                    assert(whole.take(i - start) =~= t);
                    lemma_digits_value_grows(whole, i - start);
                }
            }
            return None;
        }
    }
    proof {
        assert(text@.subrange(start as int, i as int) =~= whole);
        assert forall|j: int| 0 <= j < whole.len() implies is_digit_char(#[trigger] whole[j]) by {
            assert(whole[j] == text@[start + j]);
        }
    }
    Some(acc as u32)
}

} // verus!
