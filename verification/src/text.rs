//! Text building blocks: decimal numerals, an unbounded decimal counter, the
//! order of strings, and newline escaping.

use vstd::prelude::*;
use vstd::string::*;

verus! {

/// The character that writes the decimal digit `d`.
pub open spec fn digit(d: nat) -> char {
    if d == 0 {
        '0'
    } else if d == 1 {
        '1'
    } else if d == 2 {
        '2'
    } else if d == 3 {
        '3'
    } else if d == 4 {
        '4'
    } else if d == 5 {
        '5'
    } else if d == 6 {
        '6'
    } else if d == 7 {
        '7'
    } else if d == 8 {
        '8'
    } else {
        '9'
    }
}

/// The decimal numeral of `n`, without leading zeros.
pub open spec fn decimal(n: nat) -> Seq<char>
    decreases n,
{
    if n < 10 {
        seq![digit(n)]
    } else {
        decimal(n / 10).push(digit(n % 10))
    }
}

/// The decimal numeral of `i`, with a leading minus sign where `i` is negative.
pub open spec fn signed_decimal(i: int) -> Seq<char> {
    if i < 0 {
        seq!['-'] + decimal((-i) as nat)
    } else {
        decimal(i as nat)
    }
}

/// The one-character string of a decimal digit.
pub fn digit_str(d: u8) -> (s: &'static str)
    requires
        d < 10,
    ensures
        s@ == seq![digit(d as nat)],
{
    proof {
        reveal_strlit("0");
        reveal_strlit("1");
        reveal_strlit("2");
        reveal_strlit("3");
        reveal_strlit("4");
        reveal_strlit("5");
        reveal_strlit("6");
        reveal_strlit("7");
        reveal_strlit("8");
        reveal_strlit("9");
    }
    let s = if d == 0 {
        "0"
    } else if d == 1 {
        "1"
    } else if d == 2 {
        "2"
    } else if d == 3 {
        "3"
    } else if d == 4 {
        "4"
    } else if d == 5 {
        "5"
    } else if d == 6 {
        "6"
    } else if d == 7 {
        "7"
    } else if d == 8 {
        "8"
    } else {
        "9"
    };
    assert(s@ =~= seq![digit(d as nat)]);
    s
}

/// Appends the decimal numeral of `n` to `out`.
pub fn append_decimal(out: &mut String, n: u64)
    ensures
        final(out)@ == old(out)@ + decimal(n as nat),
    decreases n,
{
    if n >= 10 {
        append_decimal(out, n / 10);
    }
    let d: u8 = (n % 10) as u8;
    out.append(digit_str(d));
    assert(final(out)@ =~= old(out)@ + decimal(n as nat));
}

/// Appends the decimal numeral of `i` to `out`, with its sign where negative.
pub fn append_signed_decimal(out: &mut String, i: i64)
    ensures
        final(out)@ == old(out)@ + signed_decimal(i as int),
{
    if i < 0 {
        proof {
            reveal_strlit("-");
        }
        out.append("-");
        let magnitude: u64 = if i == i64::MIN {
            9223372036854775808u64
        } else {
            (-i) as u64
        };
        append_decimal(out, magnitude);
        assert(final(out)@ =~= old(out)@ + signed_decimal(i as int));
    } else {
        append_decimal(out, i as u64);
    }
}

/// `a` comes before `b` in the lexicographic order of their characters.
pub open spec fn lex_lt(a: Seq<char>, b: Seq<char>) -> bool
    decreases a.len(),
{
    if b.len() == 0 {
        false
    } else if a.len() == 0 {
        true
    } else if a[0] != b[0] {
        a[0] < b[0]
    } else {
        lex_lt(a.drop_first(), b.drop_first())
    }
}

/// No string comes before itself.
pub proof fn lemma_lex_irreflexive(a: Seq<char>)
    ensures
        !lex_lt(a, a),
    decreases a.len(),
{
    if a.len() > 0 {
        lemma_lex_irreflexive(a.drop_first());
    }
}

/// Of two different strings exactly one comes before the other.
pub proof fn lemma_lex_total(a: Seq<char>, b: Seq<char>)
    ensures
        a == b || lex_lt(a, b) || lex_lt(b, a),
        !(lex_lt(a, b) && lex_lt(b, a)),
    decreases a.len(),
{
    if a.len() == 0 || b.len() == 0 {
        if a.len() == 0 && b.len() == 0 {
            assert(a =~= b);
        }
    } else if a[0] == b[0] {
        lemma_lex_total(a.drop_first(), b.drop_first());
        if a.drop_first() == b.drop_first() {
            assert(a =~= seq![a[0]] + a.drop_first());
            assert(b =~= seq![b[0]] + b.drop_first());
        }
    }
}

/// Tells whether `a` comes before `b` in the lexicographic order of their
/// characters, which is the order of the strings themselves.
pub fn str_lt(a: &String, b: &String) -> (r: bool)
    ensures
        r == lex_lt(a@, b@),
{
    let sa = a.as_str();
    let sb = b.as_str();
    let la = sa.unicode_len();
    let lb = sb.unicode_len();
    let mut i: usize = 0;
    assert(a@.skip(0) =~= a@ && b@.skip(0) =~= b@);
    while i < la && i < lb
        invariant
            i <= la,
            i <= lb,
            sa@ == a@,
            sb@ == b@,
            la == a@.len(),
            lb == b@.len(),
            lex_lt(a@, b@) == lex_lt(a@.skip(i as int), b@.skip(i as int)),
        decreases la - i,
    {
        let ca = sa.get_char(i);
        let cb = sb.get_char(i);
        proof {
            assert(a@.skip(i as int)[0] == ca);
            assert(b@.skip(i as int)[0] == cb);
            assert(a@.skip(i as int).drop_first() =~= a@.skip(i + 1));
            assert(b@.skip(i as int).drop_first() =~= b@.skip(i + 1));
        }
        if ca != cb {
            return ca < cb;
        }
        i = i + 1;
    }
    i < lb
}

/// The number that decimal digits write, the most significant digit first.
pub open spec fn digits_value(ds: Seq<u8>) -> nat
    decreases ds.len(),
{
    if ds.len() == 0 {
        0
    } else {
        digits_value(ds.drop_last()) * 10 + ds.last() as nat
    }
}

/// `ds` is the decimal numeral of a number: at least one digit, each below
/// ten, and no leading zero but for zero itself.
pub open spec fn is_numeral(ds: Seq<u8>) -> bool {
    &&& ds.len() >= 1
    &&& forall|i: int| 0 <= i < ds.len() ==> ds[i] < 10
    &&& ds.len() > 1 ==> ds[0] != 0
}

/// A single digit writes its own value.
pub proof fn lemma_single_digit(ds: Seq<u8>)
    requires
        ds.len() == 1,
    ensures
        digits_value(ds) == ds[0] as nat,
{
    reveal_with_fuel(digits_value, 2);
}

/// A numeral of several digits writes a number that is not zero.
pub proof fn lemma_numeral_positive(ds: Seq<u8>)
    requires
        is_numeral(ds),
        ds.len() > 1 || ds[0] != 0,
    ensures
        digits_value(ds) > 0,
    decreases ds.len(),
{
    if ds.len() > 1 {
        lemma_numeral_positive(ds.drop_last());
    } else {
        lemma_single_digit(ds);
    }
}

/// The characters of a numeral are the decimal numeral of the number it writes.
pub proof fn lemma_numeral_text(ds: Seq<u8>)
    requires
        is_numeral(ds),
    ensures
        decimal(digits_value(ds)) == Seq::new(ds.len(), |i: int| digit(ds[i] as nat)),
    decreases ds.len(),
{
    let text = Seq::new(ds.len(), |i: int| digit(ds[i] as nat));
    if ds.len() == 1 {
        lemma_single_digit(ds);
        assert(decimal(digits_value(ds)) =~= text);
    } else {
        let front = ds.drop_last();
        lemma_numeral_text(front);
        lemma_numeral_positive(front);
        let n = digits_value(ds);
        assert(n / 10 == digits_value(front));
        assert(n % 10 == ds.last() as nat);
        assert(decimal(n) =~= text);
    }
}

/// Replaces the numeral of a number by the numeral of the next number.
pub fn increment(ds: &mut Vec<u8>)
    requires
        is_numeral(old(ds)@),
    ensures
        is_numeral(final(ds)@),
        digits_value(final(ds)@) == digits_value(old(ds)@) + 1,
    decreases old(ds).len(),
{
    let ghost before = ds@;
    let last = ds.pop().unwrap();
    assert(ds@ =~= before.drop_last());
    if last < 9 {
        ds.push(last + 1);
        assert(ds@.drop_last() =~= before.drop_last());
    } else if ds.len() == 0 {
        ds.push(1);
        ds.push(0);
        assert(ds@.drop_last() =~= seq![1u8]);
        proof {
            lemma_single_digit(seq![1u8]);
            lemma_single_digit(before);
        }
    } else {
        let ghost front = ds@;
        increment(ds);
        proof {
            if ds@.len() == 1 {
                lemma_single_digit(ds@);
            }
        }
        let ghost next = ds@;
        ds.push(0);
        assert(ds@.drop_last() =~= next);
    }
}

/// Appends to `out` the decimal numeral of the number that `ds` writes.
pub fn append_numeral(out: &mut String, ds: &Vec<u8>)
    requires
        is_numeral(ds@),
    ensures
        final(out)@ == old(out)@ + decimal(digits_value(ds@)),
{
    let ghost text = Seq::new(ds@.len(), |i: int| digit(ds@[i] as nat));
    let mut i: usize = 0;
    while i < ds.len()
        invariant
            i <= ds.len(),
            is_numeral(ds@),
            text == Seq::new(ds@.len(), |i: int| digit(ds@[i] as nat)),
            out@ == old(out)@ + text.take(i as int),
        decreases ds.len() - i,
    {
        out.append(digit_str(ds[i]));
        assert(text.take(i + 1) =~= text.take(i as int) + seq![digit(ds@[i as int] as nat)]);
        i = i + 1;
    }
    proof {
        lemma_numeral_text(ds@);
        assert(text.take(i as int) =~= text);
    }
}

/// Strings are ordered transitively.
pub proof fn lemma_lex_transitive(a: Seq<char>, b: Seq<char>, c: Seq<char>)
    requires
        lex_lt(a, b),
        lex_lt(b, c),
    ensures
        lex_lt(a, c),
    decreases a.len(),
{
    if a.len() > 0 && a[0] == b[0] && b[0] == c[0] {
        lemma_lex_transitive(a.drop_first(), b.drop_first(), c.drop_first());
    }
}

/// The text with each line feed replaced by a backslash and the letter n.
pub open spec fn escape_newlines(s: Seq<char>) -> Seq<char>
    decreases s.len(),
{
    if s.len() == 0 {
        Seq::empty()
    } else if s.last() == '\n' {
        escape_newlines(s.drop_last()) + seq!['\\', 'n']
    } else {
        escape_newlines(s.drop_last()).push(s.last())
    }
}

/// Appends `s` to `out`, each line feed replaced by a backslash and the letter n.
pub fn append_escaped(out: &mut String, s: &str)
    ensures
        final(out)@ == old(out)@ + escape_newlines(s@),
{
    let len = s.unicode_len();
    let mut i: usize = 0;
    assert(s@.take(0) =~= Seq::<char>::empty());
    while i < len
        invariant
            i <= len,
            len == s@.len(),
            out@ == old(out)@ + escape_newlines(s@.take(i as int)),
        decreases len - i,
    {
        let c = s.get_char(i);
        proof {
            reveal_strlit("\\n");
            assert(s@.take(i + 1).drop_last() =~= s@.take(i as int));
            assert(s@.take(i + 1).last() == c);
        }
        if c == '\n' {
            out.append("\\n");
            assert(out@ =~= old(out)@ + escape_newlines(s@.take(i + 1)));
        } else {
            out.append(s.substring_char(i, i + 1));
            assert(s@.subrange(i as int, i + 1) =~= seq![c]);
            assert(out@ =~= old(out)@ + escape_newlines(s@.take(i + 1)));
        }
        i = i + 1;
    }
    assert(s@.take(i as int) =~= s@);
}

/// The character is a decimal digit.
pub open spec fn is_digit(c: char) -> bool {
    '0' <= c <= '9'
}

/// Every character of the text is a decimal digit.
pub open spec fn all_digits(s: Seq<char>) -> bool {
    forall|i: int| 0 <= i < s.len() ==> is_digit(#[trigger] s[i])
}

/// A decimal numeral is not empty and holds digits only.
pub proof fn lemma_decimal_digits(n: nat)
    ensures
        decimal(n).len() >= 1,
        all_digits(decimal(n)),
    decreases n,
{
    if n >= 10 {
        lemma_decimal_digits(n / 10);
    }
}

/// Different numbers have different decimal numerals.
pub proof fn lemma_decimal_injective(a: nat, b: nat)
    requires
        decimal(a) == decimal(b),
    ensures
        a == b,
    decreases a,
{
    lemma_decimal_digits(a / 10);
    lemma_decimal_digits(b / 10);
    if a >= 10 && b >= 10 {
        let da = decimal(a / 10);
        let db = decimal(b / 10);
        assert(da =~= decimal(a).drop_last());
        assert(db =~= decimal(b).drop_last());
        assert(decimal(a).last() == digit(a % 10));
        assert(decimal(b).last() == digit(b % 10));
        lemma_decimal_injective(a / 10, b / 10);
    } else if a < 10 && b < 10 {
        assert(decimal(a)[0] == digit(a));
        assert(decimal(b)[0] == digit(b));
    } else if a < 10 {
        assert(decimal(b).len() >= 2);
    } else {
        assert(decimal(a).len() >= 2);
    }
}

/// A text that ends in digits after a character that is no digit is taken
/// apart in one way only.
pub proof fn lemma_digits_at_end(front1: Seq<char>, digits1: Seq<char>, front2: Seq<char>, digits2: Seq<char>)
    requires
        front1 + digits1 == front2 + digits2,
        all_digits(digits1),
        all_digits(digits2),
        front1.len() > 0 && !is_digit(front1.last()),
        front2.len() > 0 && !is_digit(front2.last()),
    ensures
        front1 == front2,
        digits1 == digits2,
{
    let whole = front1 + digits1;
    assert(whole.len() == front1.len() + digits1.len());
    assert((front2 + digits2).len() == front2.len() + digits2.len());
    if front1.len() > front2.len() {
        let at = front1.len() - 1;
        assert(whole[at] == front1.last());
        assert((front2 + digits2)[at] == digits2[at - front2.len()]);
    } else if front2.len() > front1.len() {
        let at = front2.len() - 1;
        assert((front2 + digits2)[at] == front2.last());
        assert(whole[at] == digits1[at - front1.len()]);
    } else {
        assert forall|i: int| 0 <= i < front1.len() implies front1[i] == front2[i] by {
            assert(whole[i] == front1[i]);
            assert((front2 + digits2)[i] == front2[i]);
        }
        assert(front1 =~= front2);
        assert forall|i: int| 0 <= i < digits1.len() implies digits1[i] == digits2[i] by {
            assert(whole[front1.len() + i] == digits1[i]);
            assert((front2 + digits2)[front2.len() + i] == digits2[i]);
        }
        assert(digits1 =~= digits2);
    }
}

/// A text that begins with digits before a character that is no digit is
/// taken apart in one way only.
pub proof fn lemma_digits_at_start(digits1: Seq<char>, rest1: Seq<char>, digits2: Seq<char>, rest2: Seq<char>)
    requires
        digits1 + rest1 == digits2 + rest2,
        all_digits(digits1),
        all_digits(digits2),
        rest1.len() > 0 && !is_digit(rest1[0]),
        rest2.len() > 0 && !is_digit(rest2[0]),
    ensures
        digits1 == digits2,
        rest1 == rest2,
{
    let whole = digits1 + rest1;
    assert(whole.len() == digits1.len() + rest1.len());
    assert((digits2 + rest2).len() == digits2.len() + rest2.len());
    if digits1.len() < digits2.len() {
        let at = digits1.len() as int;
        assert(whole[at] == rest1[0]);
        assert((digits2 + rest2)[at] == digits2[at]);
    } else if digits2.len() < digits1.len() {
        let at = digits2.len() as int;
        assert((digits2 + rest2)[at] == rest2[0]);
        assert(whole[at] == digits1[at]);
    } else {
        assert forall|i: int| 0 <= i < digits1.len() implies digits1[i] == digits2[i] by {
            assert(whole[i] == digits1[i]);
            assert((digits2 + rest2)[i] == digits2[i]);
        }
        assert(digits1 =~= digits2);
        assert forall|i: int| 0 <= i < rest1.len() implies rest1[i] == rest2[i] by {
            assert(whole[digits1.len() + i] == rest1[i]);
            assert((digits2 + rest2)[digits2.len() + i] == rest2[i]);
        }
        assert(rest1 =~= rest2);
    }
}

/// Texts that are equal after one beginning are equal.
pub proof fn lemma_same_beginning(a: Seq<char>, x: Seq<char>, y: Seq<char>)
    requires
        a + x == a + y,
    ensures
        x == y,
{
    assert((a + x).len() == a.len() + x.len());
    assert((a + y).len() == a.len() + y.len());
    assert forall|i: int| 0 <= i < x.len() implies x[i] == y[i] by {
        assert((a + x)[a.len() + i] == x[i]);
        assert((a + y)[a.len() + i] == y[i]);
    }
    assert(x =~= y);
}

} // verus!
