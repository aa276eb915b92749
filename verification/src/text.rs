//! String building blocks shared by the renderers.

use vstd::prelude::*;
use vstd::string::StringSliceAdditionalSpecFns;
use vstd::utf8::*;

verus! {

/// The number of line feeds in `b`.
pub open spec fn count_newlines(b: Seq<u8>) -> nat
    decreases b.len(),
{
    if b.len() == 0 {
        0
    } else {
        count_newlines(b.drop_last()) + if b.last() == 10u8 {
            1nat
        } else {
            0nat
        }
    }
}

/// The line feeds of `b`, in order.
pub open spec fn line_feeds(b: Seq<u8>) -> Seq<u8> {
    b.filter(|c: u8| c == 10u8)
}

/// Only line feeds are counted: a carriage return, or any other byte, adds
/// nothing.
pub proof fn law_count_newlines_is_line_feeds(b: Seq<u8>)
    ensures
        count_newlines(b) == line_feeds(b).len(),
    decreases b.len(),
{
    reveal_with_fuel(Seq::<u8>::filter, 1);
    if b.len() > 0 {
        law_count_newlines_is_line_feeds(b.drop_last());
    }
}

/// Stepping over a one-byte (ASCII) character keeps a position on a
/// character boundary of valid UTF-8.
pub proof fn lemma_ascii_step(b: Seq<u8>, i: int)
    requires
        valid_utf8(b),
        is_char_boundary(b, i),
        0 <= i < b.len(),
        b[i] < 0x80,
    ensures
        is_char_boundary(b, i + 1),
    decreases b.len(),
{
    let l = length_of_first_scalar(b);
    let t = pop_first_scalar(b);
    assert(valid_first_scalar(b) && valid_utf8(t));
    assert(1 <= l <= b.len());
    assert(t.len() == b.len() - l);
    if i == 0 {
        assert(l == 1);
        assert(is_char_boundary(t, 0));
    } else {
        assert(is_char_boundary(t, i - l));
        if i - l < 0 {
            assert(false);
        }
        assert(t[i - l] == b[i]);
        lemma_ascii_step(t, i - l);
    }
}

/// The character of a decimal digit.
pub open spec fn digit_char(d: nat) -> char {
    ((48 + d) as u32) as char
}

/// The decimal representation of `n`, without sign or leading zeros.
pub open spec fn decimal(n: nat) -> Seq<char>
    decreases n,
{
    if n < 10 {
        seq![digit_char(n)]
    } else {
        decimal(n / 10).push(digit_char(n % 10))
    }
}

/// The value of a decimal digit character.
pub open spec fn digit_value(c: char) -> int {
    c as int - 48
}

/// `c` is one of `0` to `9`.
pub open spec fn is_decimal_digit(c: char) -> bool {
    48 <= c as int <= 57
}

/// The number that the digits `s` denote in base 10.
pub open spec fn decimal_value(s: Seq<char>) -> int
    decreases s.len(),
{
    if s.len() == 0 {
        0
    } else {
        decimal_value(s.drop_last()) * 10 + digit_value(s.last())
    }
}

/// 10 to the power `k`.
pub open spec fn pow10(k: nat) -> nat
    decreases k,
{
    if k == 0 {
        1
    } else {
        10 * pow10((k - 1) as nat)
    }
}

/// The decimal text of `n` is made of digits, has no leading zero (but for
/// `0` itself), reads back as `n` in base 10, and has as many digits as `n`
/// needs: `n < 10^len`, and `10^(len-1) <= n` when there is more than one.
pub proof fn law_decimal_reads_back(n: nat)
    ensures
        decimal(n).len() >= 1,
        forall|i: int| 0 <= i < decimal(n).len() ==> is_decimal_digit(#[trigger] decimal(n)[i]),
        decimal(n)[0] == '0' ==> n == 0,
        decimal_value(decimal(n)) == n,
        n < pow10(decimal(n).len()),
        decimal(n).len() > 1 ==> pow10((decimal(n).len() - 1) as nat) <= n,
    decreases n,
{
    let d = decimal(n);
    if n < 10 {
        assert(d == seq![digit_char(n)]);
        assert(digit_char(n) as int == 48 + n);
        assert(d.drop_last() =~= Seq::<char>::empty());
        assert(decimal_value(d.drop_last()) == 0);
        assert(decimal_value(d) == decimal_value(d.drop_last()) * 10 + digit_value(d.last()));
        assert(pow10(1) == 10) by {
            assert(pow10(0) == 1);
        }
    } else {
        let q = n / 10;
        law_decimal_reads_back(q);
        let e = decimal(q);
        assert(d == e.push(digit_char(n % 10)));
        assert(digit_char(n % 10) as int == 48 + n % 10);
        assert(d.drop_last() =~= e);
        assert(d.last() == digit_char(n % 10));
        assert(decimal_value(d) == decimal_value(e) * 10 + digit_value(d.last()));
        assert(d[0] == e[0]);
        assert forall|i: int| 0 <= i < d.len() implies is_decimal_digit(#[trigger] d[i]) by {
            if i < e.len() {
                assert(d[i] == e[i]);
            }
        }
        assert(q * 10 + n % 10 == n);
        assert(pow10(d.len()) == 10 * pow10(e.len()));
        assert(q >= 1);
        if e.len() > 1 {
            assert(pow10((d.len() - 1) as nat) == 10 * pow10((e.len() - 1) as nat));
        } else {
            assert(pow10((d.len() - 1) as nat) == 10) by {
                assert(pow10(0) == 1);
            }
        }
    }
}

/// `n` copies of the character `c`.
pub open spec fn repeat_char(c: char, n: nat) -> Seq<char>
    decreases n,
{
    if n == 0 {
        Seq::empty()
    } else {
        repeat_char(c, (n - 1) as nat).push(c)
    }
}

/// The pieces of `parts` joined by `sep`.
pub open spec fn join(parts: Seq<Seq<char>>, sep: Seq<char>) -> Seq<char>
    decreases parts.len(),
{
    if parts.len() == 0 {
        Seq::empty()
    } else if parts.len() == 1 {
        parts[0]
    } else {
        join(parts.drop_last(), sep) + sep + parts.last()
    }
}

/// `n` copies of `c` are `n` characters, each of them `c`.
pub proof fn law_repeat_char(c: char, n: nat)
    ensures
        repeat_char(c, n).len() == n,
        forall|i: int| 0 <= i < n ==> #[trigger] repeat_char(c, n)[i] == c,
    decreases n,
{
    if n > 0 {
        law_repeat_char(c, (n - 1) as nat);
        assert forall|i: int| 0 <= i < n implies #[trigger] repeat_char(c, n)[i] == c by {
            if i < n - 1 {
                assert(repeat_char(c, n)[i] == repeat_char(c, (n - 1) as nat)[i]);
            }
        }
    }
}

/// Joining no pieces gives nothing; joining one more piece adds it at the
/// end, after the separator when other pieces come before it.
pub proof fn law_join_appends(parts: Seq<Seq<char>>, sep: Seq<char>, p: Seq<char>)
    ensures
        join(Seq::empty(), sep) == Seq::<char>::empty(),
        join(parts.push(p), sep) == join(parts, sep) + (if parts.len() == 0 {
            Seq::<char>::empty()
        } else {
            sep
        }) + p,
{
    assert(parts.push(p).drop_last() =~= parts);
    if parts.len() == 0 {
        assert(join(parts.push(p), sep) == p);
        assert(join(parts, sep) + Seq::<char>::empty() + p =~= p);
    }
}

/// The index of the first line feed in `b` at or after `i`, or the length
/// of `b` when there is none.
pub open spec fn newline_index(b: Seq<u8>, i: int) -> int
    decreases b.len() - i,
{
    if i < 0 || i >= b.len() || b[i] == 10u8 {
        i
    } else {
        newline_index(b, i + 1)
    }
}

/// The first line of `b` as `str::lines` yields it: the bytes before the
/// first line feed, without a carriage return that ends them; the whole of
/// `b` when it holds no line feed.
pub open spec fn first_line(b: Seq<u8>) -> Seq<u8> {
    let k = newline_index(b, 0);
    if k < b.len() && k > 0 && b[k - 1] == 13u8 {
        b.take(k - 1)
    } else {
        b.take(k)
    }
}

proof fn lemma_newline_index(b: Seq<u8>, i: int)
    requires
        0 <= i <= b.len(),
    ensures
        i <= newline_index(b, i) <= b.len(),
        forall|k: int| i <= k < newline_index(b, i) ==> b[k] != 10u8,
        newline_index(b, i) < b.len() ==> b[newline_index(b, i)] == 10u8,
    decreases b.len() - i,
{
    if i < b.len() && b[i] != 10u8 {
        lemma_newline_index(b, i + 1);
    }
}

/// The first line of `b` starts `b`, holds no line feed, and is followed in
/// `b` by nothing (no line feed in `b`), by a line feed, or by a carriage
/// return and a line feed.
pub proof fn law_first_line(b: Seq<u8>)
    ensures
        ({
            let l = first_line(b);
            &&& l.len() <= b.len()
            &&& b.take(l.len() as int) == l
            &&& forall|k: int| 0 <= k < l.len() ==> #[trigger] l[k] != 10u8
            &&& {
                ||| l.len() == b.len() && forall|k: int| 0 <= k < b.len() ==> #[trigger] b[k]
                    != 10u8
                ||| l.len() < b.len() && b[l.len() as int] == 10u8
                ||| l.len() + 1 < b.len() && b[l.len() as int] == 13u8 && b[l.len() as int + 1] == 10u8
            }
        }),
{
    lemma_newline_index(b, 0);
    let l = first_line(b);
    assert(b.take(l.len() as int) =~= l);
    assert forall|k: int| 0 <= k < l.len() implies #[trigger] l[k] != 10u8 by {
        assert(l[k] == b[k]);
    }
}

/// `String::push`: appends one character at the end of the string, as the
/// standard library documents.
#[verifier::external_body]
pub fn push_char(s: &mut String, c: char)
    ensures
        final(s)@ == old(s)@.push(c),
{
    s.push(c);
}

/// Appends the decimal representation of `n`.
pub fn push_decimal(s: &mut String, n: u64)
    ensures
        final(s)@ == old(s)@ + decimal(n as nat),
    decreases n,
{
    if n >= 10 {
        push_decimal(s, n / 10);
    }
    let d: u8 = (n % 10) as u8;
    let c: char = (48u8 + d) as char;
    assert(c == digit_char((n % 10) as nat));
    push_char(s, c);
    assert(decimal(n as nat) == if n < 10 { seq![digit_char(n as nat)] } else {
        decimal((n / 10) as nat).push(digit_char((n % 10) as nat))
    });
}

/// Appends `n` copies of `c`.
pub fn push_repeated(s: &mut String, c: char, n: u64)
    ensures
        final(s)@ == old(s)@ + repeat_char(c, n as nat),
{
    let ghost start = s@;
    let mut i: u64 = 0;
    while i < n
        invariant
            i <= n,
            s@ == start + repeat_char(c, i as nat),
        decreases n - i,
    {
        push_char(s, c);
        i = i + 1;
    }
}

/// The number of decimal digits of `n`.
pub fn digit_count(n: u64) -> (c: u64)
    ensures
        c == decimal(n as nat).len(),
        1 <= c <= n / 2 + 1,
    decreases n,
{
    if n < 10 {
        1
    } else {
        let c = digit_count(n / 10);
        assert(decimal(n as nat) == decimal((n / 10) as nat).push(digit_char((n % 10) as nat)));
        c + 1
    }
}

/// The first line of `s`, as `s.lines().next().unwrap_or_default()` gives it.
pub fn first_line_of(s: &str) -> (line: &str)
    ensures
        line.spec_bytes() == first_line(s.spec_bytes()),
        line@ == decode_utf8(first_line(s.spec_bytes())),
        line.spec_bytes().len() <= usize::MAX,
{
    broadcast use encode_utf8_valid_utf8, is_char_boundary_start_end_of_seq,
        is_char_boundary_iff_not_is_continuation_byte, encode_utf8_decode_utf8;

    let bytes = s.as_bytes();
    let ghost b = s.spec_bytes();
    let mut k: usize = 0;
    while k < bytes.len() && bytes[k] != 10u8
        invariant
            bytes@ == b,
            k <= b.len(),
            newline_index(b, k as int) == newline_index(b, 0),
        decreases b.len() - k,
    {
        k = k + 1;
    }
    let mut end = k;
    if k < bytes.len() && k > 0 && bytes[k - 1] == 13u8 {
        end = k - 1;
    }
    proof {
        encode_utf8_valid_utf8(s@);
        if end < b.len() {
            assert(!is_continuation_byte(b[end as int]));
            is_char_boundary_iff_not_is_continuation_byte(b, end as int);
        } else {
            is_char_boundary_start_end_of_seq(b);
        }
    }
    let (line, _) = s.split_at(end);
    assert(line.spec_bytes() =~= first_line(b));
    proof {
        encode_utf8_decode_utf8(line@);
    }
    line
}

/// The part of `s` between the byte offsets `from` and `to`, both on
/// character boundaries.
pub fn slice_str(s: &str, from: usize, to: usize) -> (r: &str)
    requires
        from <= to <= s.spec_bytes().len(),
        is_char_boundary(s.spec_bytes(), from as int),
        is_char_boundary(s.spec_bytes(), to as int),
    ensures
        r.spec_bytes() == s.spec_bytes().subrange(from as int, to as int),
{
    broadcast use encode_utf8_valid_utf8;

    let ghost b = s.spec_bytes();
    let (_, tail) = s.split_at(from);
    let ghost t = tail.spec_bytes();
    proof {
        valid_utf8_split(b, from as int);
        assert(t == b.subrange(from as int, b.len() as int));
        if to < b.len() {
            is_char_boundary_iff_not_is_continuation_byte(b, to as int);
            assert(t[to - from] == b[to as int]);
            is_char_boundary_iff_not_is_continuation_byte(t, to - from);
        } else {
            is_char_boundary_start_end_of_seq(t);
        }
    }
    let (r, _) = tail.split_at(to - from);
    assert(r.spec_bytes() =~= b.subrange(from as int, to as int));
    r
}

} // verus!
