//! Building report text: decimal numbers, joined lists, labelled lines.

use vstd::prelude::*;
use vstd::string::StringExecFns;

verus! {

/// The character of a decimal digit.
pub open spec fn digit(d: nat) -> char {
    if d == 0 {
        '0'
    } else if d == 1 {
        '1'
    } else if d == 2 {
        '2'
    } else if d == 3 {
        '3'
    } else if d == 4 {
        '4'
    } else if d == 5 {
        '5'
    } else if d == 6 {
        '6'
    } else if d == 7 {
        '7'
    } else if d == 8 {
        '8'
    } else {
        '9'
    }
}

/// `n` in decimal notation.
pub open spec fn decimal(n: nat) -> Seq<char>
    decreases n,
{
    if n < 10 {
        seq![digit(n)]
    } else {
        decimal(n / 10).push(digit(n % 10))
    }
}

/// `n` in decimal notation, with zeros in front up to `width` characters.
pub open spec fn zero_padded(n: nat, width: nat) -> Seq<char> {
    let digits = decimal(n);
    if digits.len() < width {
        Seq::new((width - digits.len()) as nat, |i: int| '0') + digits
    } else {
        digits
    }
}

/// The contents of a list of strings.
pub open spec fn texts(items: Seq<String>) -> Seq<Seq<char>> {
    items.map_values(|s: String| s@)
}

/// The items one after the other, with `sep` between neighbours.
pub open spec fn joined(items: Seq<Seq<char>>, sep: Seq<char>) -> Seq<char>
    decreases items.len(),
{
    if items.len() == 0 {
        Seq::empty()
    } else if items.len() == 1 {
        items[0]
    } else {
        joined(items.drop_last(), sep) + sep + items.last()
    }
}

/// The numbers of a list, each written with `prefix` in front.
pub open spec fn prefixed_numbers(numbers: Seq<usize>, prefix: Seq<char>) -> Seq<Seq<char>> {
    numbers.map_values(|n: usize| prefix + decimal(n as nat))
}

fn push_digit(out: &mut String, d: u64)
    requires
        d < 10,
    ensures
        final(out)@ == old(out)@.push(digit(d as nat)),
{
    proof {
        reveal_strlit("0");
        reveal_strlit("1");
        reveal_strlit("2");
        reveal_strlit("3");
        reveal_strlit("4");
        reveal_strlit("5");
        reveal_strlit("6");
        reveal_strlit("7");
        reveal_strlit("8");
        reveal_strlit("9");
    }
    let text: &str = match d {
        0 => "0",
        1 => "1",
        2 => "2",
        3 => "3",
        4 => "4",
        5 => "5",
        6 => "6",
        7 => "7",
        8 => "8",
        _ => "9",
    };
    out.append(text);
    assert(out@ =~= old(out)@.push(digit(d as nat)));
}

/// Appends `n` in decimal notation.
pub fn push_decimal(out: &mut String, n: u64)
    ensures
        final(out)@ == old(out)@ + decimal(n as nat),
    decreases n,
{
    if n >= 10 {
        push_decimal(out, n / 10);
    }
    push_digit(out, n % 10);
    assert(out@ =~= old(out)@ + decimal(n as nat));
}

/// Appends `n` in decimal notation, with zeros in front up to `width` characters.
pub fn push_zero_padded(out: &mut String, n: u64, width: usize)
    ensures
        final(out)@ == old(out)@ + zero_padded(n as nat, width as nat),
{
    let mut digits = String::new();
    push_decimal(&mut digits, n);
    assert(digits@ =~= decimal(n as nat));
    let len: usize = digits.as_str().unicode_len();
    let mut i: usize = len;
    while i < width
        invariant
            len == decimal(n as nat).len(),
            len <= i,
            i <= width || i == len,
            out@ == old(out)@ + Seq::new((i - len) as nat, |k: int| '0'),
        decreases width - i,
    {
        push_digit(out, 0);
        i += 1;
        assert(out@ =~= old(out)@ + Seq::new((i - len) as nat, |k: int| '0'));
    }
    out.append(digits.as_str());
    assert(out@ =~= old(out)@ + zero_padded(n as nat, width as nat));
}

/// Appends the items with `sep` between neighbours.
pub fn push_joined(out: &mut String, items: &Vec<String>, sep: &str)
    ensures
        final(out)@ == old(out)@ + joined(texts(items@), sep@),
{
    let mut i: usize = 0;
    assert(out@ =~= old(out)@ + joined(texts(items@).take(0), sep@));
    while i < items.len()
        invariant
            i <= items@.len(),
            out@ == old(out)@ + joined(texts(items@).take(i as int), sep@),
        decreases items@.len() - i,
    {
        if i > 0 {
            out.append(sep);
        }
        out.append(items[i].as_str());
        i += 1;
        proof {
            let now = texts(items@).take(i as int);
            assert(now.drop_last() =~= texts(items@).take(i - 1));
            assert(out@ =~= old(out)@ + joined(now, sep@));
        }
    }
    assert(texts(items@).take(i as int) =~= texts(items@));
}

/// Appends the numbers, each with `prefix` in front, separated by `sep`.
pub fn push_joined_numbers(out: &mut String, numbers: &Vec<usize>, prefix: &str, sep: &str)
    ensures
        final(out)@ == old(out)@ + joined(prefixed_numbers(numbers@, prefix@), sep@),
{
    let mut i: usize = 0;
    assert(out@ =~= old(out)@ + joined(prefixed_numbers(numbers@, prefix@).take(0), sep@));
    while i < numbers.len()
        invariant
            i <= numbers@.len(),
            out@ == old(out)@ + joined(
                prefixed_numbers(numbers@, prefix@).take(i as int),
                sep@,
            ),
        decreases numbers@.len() - i,
    {
        if i > 0 {
            out.append(sep);
        }
        out.append(prefix);
        push_decimal(out, numbers[i] as u64);
        i += 1;
        proof {
            let all = prefixed_numbers(numbers@, prefix@);
            let now = all.take(i as int);
            assert(now.drop_last() =~= all.take(i - 1));
            assert(out@ =~= old(out)@ + joined(now, sep@));
        }
    }
    assert(prefixed_numbers(numbers@, prefix@).take(i as int) =~= prefixed_numbers(
        numbers@,
        prefix@,
    ));
}

/// A line of `label` followed by `value`.
pub open spec fn line(label: Seq<char>, value: Seq<char>) -> Seq<char> {
    label + value + "\n"@
}

/// Appends a line of `label` followed by `value`.
pub fn push_line(out: &mut String, label: &str, value: &str)
    ensures
        final(out)@ == old(out)@ + line(label@, value@),
{
    out.append(label);
    out.append(value);
    out.append("\n");
    assert(out@ =~= old(out)@ + line(label@, value@));
}

/// Appends a line of `label` followed by a number.
pub fn push_number_line(out: &mut String, label: &str, value: usize)
    ensures
        final(out)@ == old(out)@ + line(label@, decimal(value as nat)),
{
    out.append(label);
    push_decimal(out, value as u64);
    out.append("\n");
    assert(out@ =~= old(out)@ + line(label@, decimal(value as nat)));
}

/// A line that holds nothing but `text`.
pub open spec fn bare_line(text: Seq<char>) -> Seq<char> {
    text + "\n"@
}

/// Appends a line that holds nothing but `text`.
pub fn push_bare_line(out: &mut String, text: &str)
    ensures
        final(out)@ == old(out)@ + bare_line(text@),
{
    out.append(text);
    out.append("\n");
    assert(out@ =~= old(out)@ + bare_line(text@));
}

/// A line with a number, present only where there is one.
pub open spec fn optional_number_line(label: Seq<char>, value: Option<usize>) -> Seq<char> {
    match value {
        Some(n) => line(label, decimal(n as nat)),
        None => Seq::empty(),
    }
}

/// Appends a line with a number where there is one.
pub fn push_optional_number_line(out: &mut String, label: &str, value: Option<usize>)
    ensures
        final(out)@ == old(out)@ + optional_number_line(label@, value),
{
    match value {
        Some(n) => push_number_line(out, label, n),
        None => {
            assert(out@ =~= old(out)@ + Seq::<char>::empty());
        },
    }
}

/// The text of a number.
pub fn decimal_text(n: usize) -> (r: String)
    ensures
        r@ == decimal(n as nat),
{
    let mut out = String::new();
    push_decimal(&mut out, n as u64);
    assert(out@ =~= decimal(n as nat));
    out
}

proof fn lemma_digit_is_injective(a: nat, b: nat)
    requires
        a < 10,
        b < 10,
        digit(a) == digit(b),
    ensures
        a == b,
{
}

/// Different numbers are written differently.
pub proof fn law_decimal_is_injective(a: nat, b: nat)
    requires
        decimal(a) == decimal(b),
    ensures
        a == b,
    decreases a,
{
    lemma_decimal_nonempty(a);
    lemma_decimal_nonempty(b);
    if a >= 10 && b >= 10 {
        assert(decimal(a / 10) =~= decimal(a).drop_last());
        assert(decimal(b / 10) =~= decimal(b).drop_last());
        law_decimal_is_injective(a / 10, b / 10);
        assert(decimal(a).last() == digit(a % 10));
        assert(decimal(b).last() == digit(b % 10));
        lemma_digit_is_injective(a % 10, b % 10);
    } else if a < 10 && b < 10 {
        assert(decimal(a)[0] == digit(a));
        assert(decimal(b)[0] == digit(b));
        lemma_digit_is_injective(a, b);
    } else if a >= 10 {
        lemma_decimal_nonempty(a / 10);
        assert(decimal(a).len() >= 2);
        assert(decimal(b).len() == 1);
    } else {
        lemma_decimal_nonempty(b / 10);
        assert(decimal(b).len() >= 2);
        assert(decimal(a).len() == 1);
    }
}

/// The number that a string of digits denotes.
spec fn denoted(digits: Seq<char>) -> int
    decreases digits.len(),
{
    if digits.len() == 0 {
        0
    } else {
        denoted(digits.drop_last()) * 10 + (digits.last() as int - '0' as int)
    }
}

proof fn lemma_decimal_denotes(n: nat)
    ensures
        denoted(decimal(n)) == n,
    decreases n,
{
    if n < 10 {
        assert(decimal(n).drop_last() =~= Seq::empty());
        assert(denoted(decimal(n).drop_last()) == 0);
    } else {
        lemma_decimal_denotes(n / 10);
        assert(decimal(n).drop_last() =~= decimal(n / 10));
    }
}

proof fn lemma_zeros_denote_nothing(zeros: nat, digits: Seq<char>)
    ensures
        denoted(Seq::new(zeros, |i: int| '0') + digits) == denoted(digits),
    decreases zeros, digits.len(),
{
    let front = Seq::new(zeros, |i: int| '0');
    if digits.len() > 0 {
        assert((front + digits).drop_last() =~= front + digits.drop_last());
        lemma_zeros_denote_nothing(zeros, digits.drop_last());
    } else if zeros > 0 {
        assert((front + digits).drop_last() =~= Seq::new((zeros - 1) as nat, |i: int| '0')
            + digits);
        lemma_zeros_denote_nothing((zeros - 1) as nat, digits);
    } else {
        assert(front + digits =~= digits);
    }
}

proof fn lemma_padded_denotes(n: nat, width: nat)
    ensures
        denoted(zero_padded(n, width)) == n,
{
    lemma_decimal_denotes(n);
    if decimal(n).len() < width {
        lemma_zeros_denote_nothing((width - decimal(n).len()) as nat, decimal(n));
    }
}

/// Different numbers stay different when they are padded to one width.
pub proof fn law_padding_keeps_numbers_apart(a: nat, b: nat, width: nat)
    requires
        zero_padded(a, width) == zero_padded(b, width),
    ensures
        a == b,
{
    lemma_padded_denotes(a, width);
    lemma_padded_denotes(b, width);
}

proof fn lemma_decimal_nonempty(n: nat)
    ensures
        decimal(n).len() >= 1,
    decreases n,
{
    if n >= 10 {
        lemma_decimal_nonempty(n / 10);
    }
}

} // verus!
