//! Text handling for the command loop: trimming a line of input, reading an
//! id from it, and writing a number in decimal.

use vstd::prelude::*;

verus! {

/// Whether `c` is white space as Unicode defines it: one of the characters
/// marked `White_Space`, which are the ones that `char::is_whitespace` accepts.
pub open spec fn spec_is_whitespace(c: char) -> bool {
    let u = c as u32;
    ||| 0x09 <= u <= 0x0d
    ||| u == 0x20
    ||| u == 0x85
    ||| u == 0xa0
    ||| u == 0x1680
    ||| 0x2000 <= u <= 0x200a
    ||| u == 0x2028
    ||| u == 0x2029
    ||| u == 0x202f
    ||| u == 0x205f
    ||| u == 0x3000
}

/// Whether `c` is white space: see [`spec_is_whitespace`].
#[verifier::when_used_as_spec(spec_is_whitespace)]
pub fn is_whitespace(c: char) -> (b: bool)
    ensures
        b == spec_is_whitespace(c),
{
    let u: u32 = c as u32;
    (0x09 <= u && u <= 0x0d) || u == 0x20 || u == 0x85 || u == 0xa0 || u == 0x1680 || (0x2000 <= u
        && u <= 0x200a) || u == 0x2028 || u == 0x2029 || u == 0x202f || u == 0x205f || u == 0x3000
}

/// `s` without the white space at its start.
pub open spec fn trim_start(s: Seq<char>) -> Seq<char>
    decreases s.len(),
{
    if s.len() > 0 && is_whitespace(s.first()) {
        trim_start(s.drop_first())
    } else {
        s
    }
}

/// `s` without the white space at its end.
pub open spec fn trim_end(s: Seq<char>) -> Seq<char>
    decreases s.len(),
{
    if s.len() > 0 && is_whitespace(s.last()) {
        trim_end(s.drop_last())
    } else {
        s
    }
}

/// `s` without the white space at either end.
pub open spec fn spec_trim(s: Seq<char>) -> Seq<char> {
    trim_end(trim_start(s))
}

/// Where only white space stands before `from`, and `from` is the end of `s`
/// or holds something else, trimming the start leaves `s` from `from` on.
pub proof fn lemma_trim_start(s: Seq<char>, from: int)
    requires
        0 <= from <= s.len(),
        forall|i: int| 0 <= i < from ==> is_whitespace(#[trigger] s[i]),
        from < s.len() ==> !is_whitespace(s[from]),
    ensures
        trim_start(s) == s.subrange(from, s.len() as int),
    decreases from,
{
    if from == 0 {
        assert(s.subrange(0, s.len() as int) =~= s);
    } else {
        let rest = s.drop_first();
        assert forall|i: int| 0 <= i < from - 1 implies is_whitespace(#[trigger] rest[i]) by {
            assert(rest[i] == s[i + 1]);
        }
        lemma_trim_start(rest, from - 1);
        assert(rest.subrange(from - 1, rest.len() as int) =~= s.subrange(from, s.len() as int));
    }
}

/// Where only white space stands from `to` on, and `to` is the start of `s`
/// or follows something else, trimming the end leaves `s` up to `to`.
pub proof fn lemma_trim_end(s: Seq<char>, to: int)
    requires
        0 <= to <= s.len(),
        forall|i: int| to <= i < s.len() ==> is_whitespace(#[trigger] s[i]),
        0 < to ==> !is_whitespace(s[to - 1]),
    ensures
        trim_end(s) == s.subrange(0, to),
    decreases s.len() - to,
{
    if to == s.len() {
        assert(s.subrange(0, to) =~= s);
    } else {
        let rest = s.drop_last();
        lemma_trim_end(rest, to);
        assert(rest.subrange(0, to) =~= s.subrange(0, to));
    }
}

/// What trimming gives is a stretch of `s` that neither starts nor ends with
/// white space, and only white space stands before and after it in `s`.
pub proof fn lemma_trim(s: Seq<char>)
    ensures
        spec_trim(s).len() > 0 ==> !is_whitespace(spec_trim(s).first()) && !is_whitespace(
            spec_trim(s).last(),
        ),
        exists|from: int, to: int|
            {
                &&& 0 <= from <= to <= s.len()
                &&& spec_trim(s) == #[trigger] s.subrange(from, to)
                &&& forall|i: int| 0 <= i < from || to <= i < s.len() ==> is_whitespace(s[i])
            },
        spec_trim(spec_trim(s)) == spec_trim(s),
{
    let from = lemma_trim_start_bound(s);
    let rest = s.subrange(from, s.len() as int);
    let kept = lemma_trim_end_bound(rest);
    let to = from + kept;
    let trimmed = s.subrange(from, to);
    assert(rest.subrange(0, kept) =~= trimmed);
    assert forall|i: int| 0 <= i < from || to <= i < s.len() implies is_whitespace(s[i]) by {
        if to <= i {
            assert(rest[i - from] == s[i]);
        }
    }
    if trimmed.len() > 0 {
        assert(trimmed.first() == rest[0]);
        assert(trimmed.last() == rest[kept - 1]);
    }
    lemma_trim_start(trimmed, 0);
    lemma_trim_end(trimmed, trimmed.len() as int);
    assert(trimmed.subrange(0, trimmed.len() as int) =~= trimmed);
}

/// The place where what is left after trimming the start begins.
proof fn lemma_trim_start_bound(s: Seq<char>) -> (from: int)
    ensures
        0 <= from <= s.len(),
        trim_start(s) == s.subrange(from, s.len() as int),
        forall|i: int| 0 <= i < from ==> is_whitespace(#[trigger] s[i]),
        from < s.len() ==> !is_whitespace(s[from]),
    decreases s.len(),
{
    if s.len() > 0 && is_whitespace(s.first()) {
        let rest = s.drop_first();
        let from = lemma_trim_start_bound(rest) + 1;
        assert forall|i: int| 0 <= i < from implies is_whitespace(#[trigger] s[i]) by {
            if i > 0 {
                assert(rest[i - 1] == s[i]);
            }
        }
        assert(rest.subrange(from - 1, rest.len() as int) =~= s.subrange(from, s.len() as int));
        from
    } else {
        assert(s.subrange(0, s.len() as int) =~= s);
        0
    }
}

/// The place where what is left after trimming the end stops.
proof fn lemma_trim_end_bound(s: Seq<char>) -> (to: int)
    ensures
        0 <= to <= s.len(),
        trim_end(s) == s.subrange(0, to),
        forall|i: int| to <= i < s.len() ==> is_whitespace(#[trigger] s[i]),
        0 < to ==> !is_whitespace(s[to - 1]),
    decreases s.len(),
{
    if s.len() > 0 && is_whitespace(s.last()) {
        let rest = s.drop_last();
        let to = lemma_trim_end_bound(rest);
        assert forall|i: int| to <= i < s.len() implies is_whitespace(#[trigger] s[i]) by {
            if i < rest.len() {
                assert(rest[i] == s[i]);
            }
        }
        assert(rest.subrange(0, to) =~= s.subrange(0, to));
        to
    } else {
        assert(s.subrange(0, s.len() as int) =~= s);
        s.len() as int
    }
}

/// The line without the white space at either end.
pub fn trim(line: &str) -> (trimmed: String)
    ensures
        trimmed@ == spec_trim(line@),
{
    // The length bounds the counter below.
    let n: usize = line.unicode_len();
    let mut start: usize = 0;
    let mut end: usize = 0;
    let mut i: usize = 0;
    let mut chars = line.chars();
    for c in it: chars
        invariant
            n == line@.len(),
            it.seq() == line@,
            i == it.index(),
            start <= end <= i,
            end == 0 ==> start == 0,
            forall|k: int| 0 <= k < start ==> is_whitespace(#[trigger] line@[k]),
            forall|k: int| end <= k < i ==> is_whitespace(#[trigger] line@[k]),
            end > 0 ==> !is_whitespace(line@[start as int]) && !is_whitespace(line@[end - 1]),
    {
        if !is_whitespace(c) {
            if end == 0 {
                start = i;
            }
            end = i + 1;
        }
        i = i + 1;
    }
    proof {
        let s = line@;
        if end == 0 {
            lemma_trim_start(s, s.len() as int);
            assert(trim_start(s) =~= Seq::<char>::empty());
        } else {
            lemma_trim_start(s, start as int);
            let t = s.subrange(start as int, s.len() as int);
            assert forall|k: int| end - start <= k < t.len() implies is_whitespace(
                #[trigger] t[k],
            ) by {
                assert(t[k] == s[k + start]);
            }
            lemma_trim_end(t, end - start);
            assert(t.subrange(0, end - start) =~= s.subrange(start as int, end as int));
        }
    }
    line.substring_char(start, end).to_owned()
}

/// The character that stands for the digit `d`.
pub open spec fn digit(d: nat) -> char
    recommends
        d < 10,
{
    if d == 0 {
        '0'
    } else if d == 1 {
        '1'
    } else if d == 2 {
        '2'
    } else if d == 3 {
        '3'
    } else if d == 4 {
        '4'
    } else if d == 5 {
        '5'
    } else if d == 6 {
        '6'
    } else if d == 7 {
        '7'
    } else if d == 8 {
        '8'
    } else {
        '9'
    }
}

/// `n` written in decimal, without leading zeros.
pub open spec fn decimal(n: nat) -> Seq<char>
    decreases n,
{
    if n < 10 {
        seq![digit(n)]
    } else {
        decimal(n / 10).push(digit(n % 10))
    }
}

/// The digit `d` as a text of one character.
fn digit_str(d: u32) -> (s: &'static str)
    requires
        d < 10,
    ensures
        s@ == seq![digit(d as nat)],
{
    proof {
        reveal_strlit("0");
        reveal_strlit("1");
        reveal_strlit("2");
        reveal_strlit("3");
        reveal_strlit("4");
        reveal_strlit("5");
        reveal_strlit("6");
        reveal_strlit("7");
        reveal_strlit("8");
        reveal_strlit("9");
    }
    let s = if d == 0 {
        "0"
    } else if d == 1 {
        "1"
    } else if d == 2 {
        "2"
    } else if d == 3 {
        "3"
    } else if d == 4 {
        "4"
    } else if d == 5 {
        "5"
    } else if d == 6 {
        "6"
    } else if d == 7 {
        "7"
    } else if d == 8 {
        "8"
    } else {
        "9"
    };
    assert(s@ =~= seq![digit(d as nat)]);
    s
}

/// Writes `n` in decimal at the end of `out`.
pub fn append_decimal(out: &mut String, n: u32)
    ensures
        final(out)@ == old(out)@ + decimal(n as nat),
    decreases n,
{
    if n >= 10 {
        append_decimal(out, n / 10);
    }
    out.append(digit_str(n % 10));
    assert(final(out)@ =~= old(out)@ + decimal(n as nat));
}

/// Whether `c` is one of the ten decimal digits.
pub open spec fn is_digit(c: char) -> bool {
    0x30 <= c as u32 <= 0x39
}

/// The number that the digit `c` stands for.
pub open spec fn digit_value(c: char) -> nat {
    if is_digit(c) {
        (c as u32 - 0x30) as nat
    } else {
        0
    }
}

/// The number that a run of digits stands for, read in decimal.
pub open spec fn digits_value(s: Seq<char>) -> nat
    decreases s.len(),
{
    if s.len() == 0 {
        0
    } else {
        digits_value(s.drop_last()) * 10 + digit_value(s.last())
    }
}

/// Whether `s` holds decimal digits only.
pub open spec fn all_digits(s: Seq<char>) -> bool {
    forall|i: int| 0 <= i < s.len() ==> is_digit(#[trigger] s[i])
}

/// The id that `s` spells: an optional `+`, then one decimal digit or more,
/// whose value fits in 32 bits. Anything else spells none.
pub open spec fn spec_parse_u32(s: Seq<char>) -> Option<u32> {
    let digits = if s.len() > 0 && s[0] == '+' {
        s.drop_first()
    } else {
        s
    };
    if digits.len() > 0 && all_digits(digits) && digits_value(digits) <= u32::MAX {
        Some(digits_value(digits) as u32)
    } else {
        None
    }
}

/// A run of digits is worth no less than any of its prefixes.
pub proof fn lemma_digits_value_prefix(s: Seq<char>, k: int)
    requires
        0 <= k <= s.len(),
    ensures
        digits_value(s.subrange(0, k)) <= digits_value(s),
    decreases s.len(),
{
    if k == s.len() {
        assert(s.subrange(0, k) =~= s);
    } else {
        lemma_digits_value_prefix(s.drop_last(), k);
        assert(s.drop_last().subrange(0, k) =~= s.subrange(0, k));
    }
}

/// A number in decimal is one digit or more, starts with `0` only where the
/// number is 0, and is worth the number.
pub proof fn lemma_decimal(n: nat)
    ensures
        decimal(n).len() >= 1,
        all_digits(decimal(n)),
        digits_value(decimal(n)) == n,
        decimal(n).first() == '0' <==> n == 0,
    decreases n,
{
    let text = decimal(n);
    if n < 10 {
        assert(text.drop_last() =~= Seq::<char>::empty());
        assert(digits_value(text.drop_last()) == 0);
        assert(digit_value(digit(n)) == n);
    } else {
        lemma_decimal(n / 10);
        assert(text.drop_last() =~= decimal(n / 10));
        assert(digit_value(digit(n % 10)) == n % 10);
        assert(text.first() == decimal(n / 10).first());
        assert forall|i: int| 0 <= i < text.len() implies is_digit(#[trigger] text[i]) by {
            if i < text.len() - 1 {
                assert(text[i] == decimal(n / 10)[i]);
            }
        }
    }
}

/// Reading what was written gives the number back.
pub proof fn lemma_parse_decimal(n: u32)
    ensures
        spec_parse_u32(decimal(n as nat)) == Some(n),
{
    lemma_decimal(n as nat);
    assert(is_digit(decimal(n as nat)[0]));
}

/// Reads an id: see [`spec_parse_u32`].
pub fn parse_u32(s: &str) -> (id: Option<u32>)
    ensures
        id == spec_parse_u32(s@),
{
    // The length bounds the counter below.
    let n: usize = s.unicode_len();
    let mut value: u64 = 0;
    let mut signed = false;
    let mut i: usize = 0;
    let mut chars = s.chars();
    for c in it: chars
        invariant
            n == s@.len(),
            it.seq() == s@,
            i == it.index(),
            signed == (i > 0 && s@[0] == '+'),
            all_digits(s@.subrange(if signed { 1int } else { 0int }, i as int)),
            value == digits_value(s@.subrange(if signed { 1int } else { 0int }, i as int)),
            value <= u32::MAX,
    {
        let ghost lo: int = if signed { 1int } else { 0int };
        let ghost digits: Seq<char> = s@.subrange(lo, s@.len() as int);
        if i == 0 && c == '+' {
            signed = true;
            assert(s@.subrange(1, 1) =~= Seq::<char>::empty());
        } else {
            let u: u32 = c as u32;
            if u < 0x30 || u > 0x39 {
                assert(!is_digit(digits[i - lo]));
                assert(digits =~= if s@.len() > 0 && s@[0] == '+' {
                    s@.drop_first()
                } else {
                    s@
                });
                return None;
            }
            let d: u64 = (u - 0x30) as u64;
            let next: u64 = value * 10 + d;
            proof {
                let before = s@.subrange(lo, i as int);
                let after = s@.subrange(lo, i + 1);
                assert(after.drop_last() =~= before);
                assert(after.last() == c);
                assert(digits_value(after) == next);
                assert(all_digits(after));
            }
            if next > u32::MAX as u64 {
                proof {
                    lemma_digits_value_prefix(digits, i + 1 - lo);
                    assert(digits.subrange(0, i + 1 - lo) =~= s@.subrange(lo, i + 1));
                    assert(digits =~= if s@.len() > 0 && s@[0] == '+' {
                        s@.drop_first()
                    } else {
                        s@
                    });
                }
                return None;
            }
            value = next;
        }
        i = i + 1;
    }
    proof {
        let lo: int = if signed { 1int } else { 0int };
        assert(s@.subrange(lo, s@.len() as int) =~= if s@.len() > 0 && s@[0] == '+' {
            s@.drop_first()
        } else {
            s@
        });
    }
    if (signed && i == 1) || i == 0 {
        None
    } else {
        Some(value as u32)
    }
}

} // verus!
