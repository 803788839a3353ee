//! Lines of text: indentation, decimal numerals, and lists of lines.

use vstd::prelude::*;

verus! {

/// `n` blanks.
pub open spec fn spaces(n: nat) -> Seq<char> {
    Seq::new(n, |i: int| ' ')
}

/// A line of text indented by `indent` blanks.
pub open spec fn line(indent: nat, text: Seq<char>) -> Seq<char> {
    spaces(indent) + text
}

/// The decimal digit for `d < 10`.
pub open spec fn digit_char(d: nat) -> char {
    if d == 0 {
        '0'
    } else if d == 1 {
        '1'
    } else if d == 2 {
        '2'
    } else if d == 3 {
        '3'
    } else if d == 4 {
        '4'
    } else if d == 5 {
        '5'
    } else if d == 6 {
        '6'
    } else if d == 7 {
        '7'
    } else if d == 8 {
        '8'
    } else {
        '9'
    }
}

/// The decimal numeral of `n`, without leading zeros.
pub open spec fn decimal(n: nat) -> Seq<char>
    decreases n,
{
    if n < 10 {
        seq![digit_char(n)]
    } else {
        decimal(n / 10).push(digit_char(n % 10))
    }
}

/// The text of each string of a list.
pub open spec fn lines_of(v: Seq<String>) -> Seq<Seq<char>> {
    v.map_values(|s: String| s@)
}

proof fn lemma_digit_char_injective(a: nat, b: nat)
    requires
        a < 10,
        b < 10,
        digit_char(a) == digit_char(b),
    ensures
        a == b,
{
}

/// A decimal numeral has at least one digit, and exactly one for `n < 10`.
pub proof fn lemma_decimal_len(n: nat)
    ensures
        decimal(n).len() >= 1,
        decimal(n).len() == 1 <==> n < 10,
    decreases n,
{
    if n >= 10 {
        lemma_decimal_len(n / 10);
    }
}

/// Different numbers have different decimal numerals.
pub proof fn lemma_decimal_injective(n: nat, m: nat)
    requires
        decimal(n) == decimal(m),
    ensures
        n == m,
    decreases n,
{
    lemma_decimal_len(n);
    lemma_decimal_len(m);
    if n < 10 && m < 10 {
        assert(decimal(n) == seq![digit_char(n)]);
        assert(decimal(m) == seq![digit_char(m)]);
        assert(decimal(n)[0] == decimal(m)[0]);
        assert(seq![digit_char(n)][0] == digit_char(n));
        assert(seq![digit_char(m)][0] == digit_char(m));
        assert(digit_char(n) == digit_char(m));
        lemma_digit_char_injective(n, m);
    } else if n >= 10 && m >= 10 {
        let dn = decimal(n);
        let dm = decimal(m);
        assert(dn.last() == digit_char(n % 10));
        assert(dm.last() == digit_char(m % 10));
        lemma_digit_char_injective(n % 10, m % 10);
        assert(dn.drop_last() =~= decimal(n / 10));
        assert(dm.drop_last() =~= decimal(m / 10));
        lemma_decimal_injective(n / 10, m / 10);
    }
}

pub proof fn lemma_lines_of_push(v: Seq<String>, s: String)
    ensures
        lines_of(v.push(s)) == lines_of(v).push(s@),
{
    assert(lines_of(v.push(s)) =~= lines_of(v).push(s@));
}

/// A string of `n` blanks.
pub fn indentation(n: usize) -> (s: String)
    ensures
        s@ == spaces(n as nat),
{
    let mut s = String::new();
    let mut i: usize = 0;
    proof {
        reveal_strlit(" ");
        assert(s@ =~= spaces(0));
    }
    while i < n
        invariant
            i <= n,
            s@ == spaces(i as nat),
            " "@ == seq![' '],
        decreases n - i,
    {
        s.append(" ");
        proof {
            assert(spaces(i as nat) + seq![' '] =~= spaces((i + 1) as nat));
        }
        i = i + 1;
    }
    s
}

fn append_digit(s: &mut String, d: u64)
    requires
        d < 10,
    ensures
        final(s)@ == old(s)@.push(digit_char(d as nat)),
{
    proof {
        reveal_strlit("0");
        reveal_strlit("1");
        reveal_strlit("2");
        reveal_strlit("3");
        reveal_strlit("4");
        reveal_strlit("5");
        reveal_strlit("6");
        reveal_strlit("7");
        reveal_strlit("8");
        reveal_strlit("9");
    }
    let ghost before = s@;
    if d == 0 {
        s.append("0");
    } else if d == 1 {
        s.append("1");
    } else if d == 2 {
        s.append("2");
    } else if d == 3 {
        s.append("3");
    } else if d == 4 {
        s.append("4");
    } else if d == 5 {
        s.append("5");
    } else if d == 6 {
        s.append("6");
    } else if d == 7 {
        s.append("7");
    } else if d == 8 {
        s.append("8");
    } else {
        s.append("9");
    }
    assert(s@ =~= before.push(digit_char(d as nat)));
}

/// Appends the decimal numeral of `n`.
pub fn append_decimal(s: &mut String, n: u64)
    ensures
        final(s)@ == old(s)@ + decimal(n as nat),
    decreases n,
{
    let ghost before = s@;
    if n >= 10 {
        append_decimal(s, n / 10);
    }
    append_digit(s, n % 10);
    proof {
        if n >= 10 {
            assert(s@ =~= before + decimal(n as nat));
        } else {
            assert(s@ =~= before + decimal(n as nat));
        }
    }
}

/// Appends the line `text` indented by `indent` blanks.
pub fn push_line(out: &mut Vec<String>, indent: usize, text: &str)
    ensures
        lines_of(final(out)@) == lines_of(old(out)@).push(line(indent as nat, text@)),
{
    let mut s = indentation(indent);
    s.append(text);
    proof {
        lemma_lines_of_push(out@, s);
    }
    out.push(s);
}

/// Appends the line `label` followed by the decimal numeral of `n`, indented by
/// `indent` blanks.
pub fn push_numbered_line(out: &mut Vec<String>, indent: usize, label: &str, n: u64)
    ensures
        lines_of(final(out)@) == lines_of(old(out)@).push(line(indent as nat, label@ + decimal(n as nat))),
{
    let mut s = indentation(indent);
    s.append(label);
    append_decimal(&mut s, n);
    proof {
        assert(s@ =~= line(indent as nat, label@ + decimal(n as nat)));
        lemma_lines_of_push(out@, s);
    }
    out.push(s);
}


/// Appends the decimal numeral of `n` as a line indented by `indent` blanks.
pub fn push_number_line(out: &mut Vec<String>, indent: usize, n: u64)
    ensures
        lines_of(final(out)@) == lines_of(old(out)@).push(line(indent as nat, decimal(n as nat))),
{
    let mut s = indentation(indent);
    append_decimal(&mut s, n);
    proof {
        assert(s@ =~= line(indent as nat, decimal(n as nat)));
        lemma_lines_of_push(out@, s);
    }
    out.push(s);
}


/// The value of a decimal digit character.
pub open spec fn digit_value(c: char) -> int {
    c as int - '0' as int
}

/// Whether `c` is one of the characters `0` to `9`.
pub open spec fn is_digit(c: char) -> bool {
    '0' <= c && c <= '9'
}

/// The number that a string of decimal digits denotes.
pub open spec fn numeral_value(s: Seq<char>) -> int
    decreases s.len(),
{
    if s.len() == 0 {
        0
    } else {
        10 * numeral_value(s.drop_last()) + digit_value(s.last())
    }
}

proof fn lemma_digit_value(d: nat)
    requires
        d < 10,
    ensures
        digit_value(digit_char(d)) == d,
        is_digit(digit_char(d)),
{
}

/// `decimal(n)` is a decimal numeral for `n`: it is made of digits only, it
/// denotes `n`, and it has no leading zero.
pub proof fn theorem_decimal_denotes(n: nat)
    ensures
        forall|k: int| 0 <= k < decimal(n).len() ==> is_digit(#[trigger] decimal(n)[k]),
        numeral_value(decimal(n)) == n,
        decimal(n).len() > 1 ==> decimal(n)[0] != '0',
    decreases n,
{
    lemma_decimal_len(n);
    if n >= 10 {
        theorem_decimal_denotes(n / 10);
        lemma_decimal_len(n / 10);
        let d = decimal(n);
        assert(d.drop_last() =~= decimal(n / 10));
        assert(d[0] == decimal(n / 10)[0]);
        lemma_digit_value(n % 10);
        assert(d.last() == digit_char(n % 10));
        assert(numeral_value(d) == 10 * numeral_value(d.drop_last()) + digit_value(d.last()));
        assert(n == 10 * (n / 10) + n % 10);
        assert forall|k: int| 0 <= k < d.len() implies is_digit(#[trigger] d[k]) by {
            if k < d.len() - 1 {
                assert(d[k] == decimal(n / 10)[k]);
            }
        }
    } else {
        assert(decimal(n) == seq![digit_char(n)]);
        assert(decimal(n).drop_last() =~= Seq::<char>::empty());
        lemma_digit_value(n);
        assert(decimal(n).last() == digit_char(n));
        assert(numeral_value(Seq::<char>::empty()) == 0);
        assert(numeral_value(decimal(n)) == 10 * numeral_value(decimal(n).drop_last()) + digit_value(
            decimal(n).last(),
        ));
    }
}

/// Lists of lines one after the other.
pub open spec fn joined(parts: Seq<Seq<Seq<char>>>) -> Seq<Seq<char>>
    decreases parts.len(),
{
    if parts.len() == 0 {
        Seq::empty()
    } else {
        joined(parts.subrange(0, parts.len() - 1)) + parts[parts.len() - 1]
    }
}

/// The number of lines in the first `k` lists.
pub open spec fn offset(parts: Seq<Seq<Seq<char>>>, k: int) -> int
    decreases k,
{
    if k <= 0 {
        0
    } else {
        offset(parts, k - 1) + parts[k - 1].len()
    }
}

proof fn lemma_offset_prefix(parts: Seq<Seq<Seq<char>>>, m: int, k: int)
    requires
        0 <= k <= m <= parts.len(),
    ensures
        offset(parts.subrange(0, m), k) == offset(parts, k),
    decreases k,
{
    if k > 0 {
        lemma_offset_prefix(parts, m, k - 1);
        assert(parts.subrange(0, m)[k - 1] == parts[k - 1]);
    }
}

/// Offsets grow with `k`.
pub proof fn lemma_offset_monotone(parts: Seq<Seq<Seq<char>>>, j: int, k: int)
    requires
        0 <= j <= k,
    ensures
        0 <= offset(parts, j) <= offset(parts, k),
    decreases k,
{
    if k > j {
        lemma_offset_monotone(parts, j, k - 1);
    } else if k > 0 {
        lemma_offset_monotone(parts, 0, k - 1);
    }
}

/// In lists joined one after the other, list `k` stands right after the lines
/// of the lists before it, and nothing else is there.
pub proof fn lemma_joined_positions(parts: Seq<Seq<Seq<char>>>)
    ensures
        joined(parts).len() == offset(parts, parts.len() as int),
        forall|k: int|
            0 <= k < parts.len() ==> joined(parts).subrange(offset(parts, k), #[trigger] offset(parts, k + 1))
                == parts[k],
    decreases parts.len(),
{
    if parts.len() > 0 {
        let n = parts.len() as int;
        let init = parts.subrange(0, n - 1);
        lemma_joined_positions(init);
        let a = joined(init);
        let b = parts[n - 1];
        lemma_offset_prefix(parts, n - 1, n - 1);
        assert forall|k: int| 0 <= k < n implies joined(parts).subrange(offset(parts, k), #[trigger] offset(parts, k + 1))
            == parts[k] by {
            if k < n - 1 {
                lemma_offset_prefix(parts, n - 1, k);
                lemma_offset_prefix(parts, n - 1, k + 1);
                lemma_offset_monotone(init, k + 1, n - 1);
                lemma_offset_monotone(init, 0, k);
                assert(init[k] == parts[k]);
                assert((a + b).subrange(offset(parts, k), offset(parts, k + 1)) =~= a.subrange(
                    offset(init, k),
                    offset(init, k + 1),
                ));
            } else {
                assert((a + b).subrange(offset(parts, k), offset(parts, k + 1)) =~= b);
            }
        }
    }
}

} // verus!
