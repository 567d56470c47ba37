//! Text helpers: splitting on a separator, decimal numbers and comparison with literals.
use vstd::prelude::*;

verus! {

/// The texts of a sequence of strings.
pub open spec fn texts(strings: Seq<String>) -> Seq<Seq<char>> {
    strings.map_values(|s: String| s@)
}

/// The parts of `text` between the occurrences of `sep`: one part more than there are separators,
/// empty parts included.
pub open spec fn split_on(text: Seq<char>, sep: char) -> Seq<Seq<char>>
    decreases text.len(),
{
    if text.len() == 0 {
        seq![Seq::<char>::empty()]
    } else {
        let front = split_on(text.drop_last(), sep);
        if text.last() == sep {
            front.push(Seq::<char>::empty())
        } else {
            front.drop_last().push(front.last().push(text.last()))
        }
    }
}

/// How often `c` occurs in `text`.
pub open spec fn occurrences(text: Seq<char>, c: char) -> nat
    decreases text.len(),
{
    if text.len() == 0 {
        0
    } else if text.last() == c {
        occurrences(text.drop_last(), c) + 1
    } else {
        occurrences(text.drop_last(), c)
    }
}

/// `parts` written one after the other with `sep` between neighbours.
pub open spec fn join_with(parts: Seq<Seq<char>>, sep: char) -> Seq<char>
    decreases parts.len(),
{
    if parts.len() == 0 {
        Seq::<char>::empty()
    } else if parts.len() == 1 {
        parts[0]
    } else {
        join_with(parts.drop_last(), sep).push(sep) + parts.last()
    }
}

/// The decimal digits of `n`, most significant first, without leading zeros.
pub open spec fn decimal(n: nat) -> Seq<char>
    decreases n,
{
    if n < 10 {
        seq![digit(n)]
    } else {
        decimal(n / 10).push(digit(n % 10))
    }
}

/// The character that stands for a number below ten.
pub open spec fn digit(n: nat) -> char {
    (('0' as nat) + n) as char
}

/// A decimal number has at least one digit, and nothing but digits.
pub proof fn lemma_decimal_digits(n: nat)
    ensures
        decimal(n).len() >= 1,
        n >= 10 ==> decimal(n).len() >= 2,
        forall|i: int| 0 <= i < decimal(n).len() ==> '0' <= #[trigger] decimal(n)[i] <= '9',
    decreases n,
{
    if n >= 10 {
        lemma_decimal_digits(n / 10);
    }
}

/// Different numbers are written differently.
pub proof fn lemma_decimal_injective(n: nat, m: nat)
    requires
        decimal(n) == decimal(m),
    ensures
        n == m,
    decreases n,
{
    lemma_decimal_digits(n);
    lemma_decimal_digits(m);
    if n < 10 {
        assert(decimal(n).len() == 1);
        assert(decimal(n)[0] == digit(n) && decimal(m)[0] == digit(m));
    } else {
        assert(m >= 10) by {
            if m < 10 {
                assert(decimal(m).len() == 1);
            }
        }
        let front = decimal(n / 10);
        let other = decimal(m / 10);
        assert(front == decimal(n).drop_last());
        assert(other == decimal(m).drop_last());
        assert(decimal(n).last() == digit(n % 10));
        assert(decimal(m).last() == digit(m % 10));
        lemma_decimal_injective(n / 10, m / 10);
    }
}

/// `String::push` appends one character to the end of the string.
pub assume_specification[ String::push ](s: &mut String, c: char)
    ensures
        final(s)@ == old(s)@.push(c),
;

/// `n` in decimal.
pub(crate) fn decimal_string(n: usize) -> (r: String)
    ensures
        r@ == decimal(n as nat),
    decreases n,
{
    let mut r = if n < 10 {
        String::new()
    } else {
        decimal_string(n / 10)
    };
    let last: u8 = (n % 10) as u8;
    r.push((48u8 + last) as char);
    assert(r@ =~= decimal(n as nat));
    r
}

/// Whether `s` holds exactly the characters of `literal`.
pub(crate) fn same_text(s: &String, literal: &str) -> (r: bool)
    ensures
        r == (s@ == literal@),
{
    *s == literal.to_owned()
}

/// `text` cut at every `sep`.
pub fn split(text: &str, sep: char) -> (parts: Vec<String>)
    ensures
        texts(parts@) == split_on(text@, sep),
{
    let mut parts: Vec<String> = Vec::new();
    let mut current = String::new();
    for c in it: text.chars()
        invariant
            it.seq() == text@,
            texts(parts@).push(current@) == split_on(text@.take(it.index() as int), sep),
    {
        proof {
            let n = it.index() as int;
            assert(text@.take(n + 1).drop_last() == text@.take(n));
            assert(text@.take(n + 1).last() == c);
        }
        let ghost before = texts(parts@).push(current@);
        if c == sep {
            let done = current;
            parts.push(done);
            current = String::new();
            assert(texts(parts@) == before);
        } else {
            current.push(c);
            assert(before.drop_last() == texts(parts@));
        }
    }
    assert(text@.take(text@.len() as int) == text@);
    let ghost before = texts(parts@).push(current@);
    parts.push(current);
    assert(texts(parts@) == before);
    parts
}

/// There is one part more than there are separators, the parts hold no separator, and the text is the
/// parts with a separator between neighbours.
pub proof fn law_split_joins(text: Seq<char>, sep: char)
    ensures
        split_on(text, sep).len() == 1 + occurrences(text, sep),
        forall|i: int|
            0 <= i < split_on(text, sep).len() ==> !(#[trigger] split_on(text, sep)[i]).contains(
                sep,
            ),
        join_with(split_on(text, sep), sep) == text,
    decreases text.len(),
{
    let parts = split_on(text, sep);
    if text.len() > 0 {
        let front = split_on(text.drop_last(), sep);
        law_split_joins(text.drop_last(), sep);
        if text.last() == sep {
            assert(parts.drop_last() == front);
            assert(join_with(parts, sep) =~= text);
        } else {
            let part = front.last().push(text.last());
            assert(parts.drop_last() == front.drop_last());
            assert(parts.last() == part);
            assert(!part.contains(sep)) by {
                assert(!front[front.len() - 1].contains(sep));
                if part.contains(sep) {
                    let k = choose|k: int| 0 <= k < part.len() && part[k] == sep;
                    assert(front.last()[k] == sep);
                }
            }
            assert forall|i: int| 0 <= i < parts.len() implies !(#[trigger] parts[i]).contains(
                sep,
            ) by {
                if i < parts.len() - 1 {
                    assert(parts[i] == front[i]);
                }
            }
            assert(join_with(parts, sep) == join_with(front, sep).push(text.last())) by {
                if parts.len() == 1 {
                    assert(parts[0] == part);
                    assert(front[0] == front.last());
                } else {
                    let rest = join_with(front.drop_last(), sep).push(sep);
                    assert(rest + part =~= (rest + front.last()).push(text.last()));
                }
            }
            assert(join_with(parts, sep) =~= text);
        }
    }
}

/// A part that holds no separator and follows other parts becomes the last part.
proof fn lemma_split_append(text: Seq<char>, part: Seq<char>, sep: char)
    requires
        !part.contains(sep),
    ensures
        split_on(text.push(sep) + part, sep) == split_on(text, sep).push(part),
    decreases part.len(),
{
    let whole = text.push(sep) + part;
    if part.len() == 0 {
        assert(whole == text.push(sep));
        assert(whole.drop_last() == text);
        assert(part == Seq::<char>::empty());
    } else {
        assert(!part.drop_last().contains(sep)) by {
            if part.drop_last().contains(sep) {
                let k = choose|k: int| 0 <= k < part.len() - 1 && part.drop_last()[k] == sep;
                assert(part[k] == sep);
            }
        }
        lemma_split_append(text, part.drop_last(), sep);
        assert(whole.drop_last() == text.push(sep) + part.drop_last());
        assert(whole.last() == part.last());
        assert(part[part.len() - 1] != sep);
        let front = split_on(whole.drop_last(), sep);
        assert(front.drop_last() == split_on(text, sep));
        assert(front.last().push(part.last()) == part);
    }
}

/// A text without separators is its only part.
proof fn lemma_split_single(part: Seq<char>, sep: char)
    requires
        !part.contains(sep),
    ensures
        split_on(part, sep) == seq![part],
    decreases part.len(),
{
    if part.len() == 0 {
        assert(part == Seq::<char>::empty());
    } else {
        assert(!part.drop_last().contains(sep)) by {
            if part.drop_last().contains(sep) {
                let k = choose|k: int| 0 <= k < part.len() - 1 && part.drop_last()[k] == sep;
                assert(part[k] == sep);
            }
        }
        lemma_split_single(part.drop_last(), sep);
        assert(part[part.len() - 1] != sep);
        assert(part.drop_last().push(part.last()) == part);
        assert(split_on(part, sep) =~= seq![part]);
    }
}

/// Parts without separators are found again in the text that they are joined to.
pub proof fn law_join_splits(parts: Seq<Seq<char>>, sep: char)
    requires
        parts.len() >= 1,
        forall|i: int| 0 <= i < parts.len() ==> !(#[trigger] parts[i]).contains(sep),
    ensures
        split_on(join_with(parts, sep), sep) == parts,
    decreases parts.len(),
{
    if parts.len() == 1 {
        assert(!parts[0].contains(sep));
        lemma_split_single(parts[0], sep);
        assert(parts =~= seq![parts[0]]);
    } else {
        let front = parts.drop_last();
        assert forall|i: int| 0 <= i < front.len() implies !(#[trigger] front[i]).contains(sep) by {
            assert(front[i] == parts[i]);
        }
        law_join_splits(front, sep);
        assert(!parts[parts.len() - 1].contains(sep));
        lemma_split_append(join_with(front, sep), parts.last(), sep);
        assert(front.push(parts.last()) =~= parts);
    }
}

/// The number that decimal digits write, the most significant first.
pub open spec fn digits_value(digits: Seq<char>) -> int
    decreases digits.len(),
{
    if digits.len() == 0 {
        0
    } else {
        digits_value(digits.drop_last()) * 10 + (digits.last() as int - '0' as int)
    }
}

/// The decimal digits of a number write that number, and do not start with a zero unless they are
/// that zero alone.
pub proof fn law_decimal_reads_back(n: nat)
    ensures
        digits_value(decimal(n)) == n,
        decimal(n).len() >= 1,
        forall|i: int| 0 <= i < decimal(n).len() ==> '0' <= #[trigger] decimal(n)[i] <= '9',
        n > 0 ==> decimal(n)[0] != '0',
    decreases n,
{
    lemma_decimal_digits(n);
    let digits = decimal(n);
    if n < 10 {
        assert(digits.drop_last() == Seq::<char>::empty());
        assert(digits_value(digits.drop_last()) == 0);
        assert(digits.last() == digit(n));
        assert(digits.last() as int - '0' as int == n);
    } else {
        law_decimal_reads_back(n / 10);
        assert(digits.drop_last() == decimal(n / 10));
        assert(digits.last() == digit(n % 10));
        assert(digits.last() as int - '0' as int == n % 10);
        assert(digits[0] == decimal(n / 10)[0]);
    }
}

/// The texts of strings are those of each string, in order.
pub proof fn law_texts_are_views(strings: Seq<String>)
    ensures
        texts(strings).len() == strings.len(),
        forall|i: int| 0 <= i < strings.len() ==> #[trigger] texts(strings)[i] == strings[i]@,
{
}

} // verus!
