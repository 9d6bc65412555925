//! Sequences of characters: reading a string, splitting it into words and
//! fields, and decimal numbers.

use vstd::prelude::*;
use vstd::string::StringExecFns;

verus! {

/// The characters of `s`.
pub fn chars_of(s: &str) -> (v: Vec<char>)
    ensures
        v@ == s@,
{
    let mut v: Vec<char> = Vec::new();
    for c in it: s.chars()
        invariant
            v@ == it.seq().take(it.index()),
            it.seq() == s@,
    {
        v.push(c);
    }
    v
}

/// Whether `c` is white space: one of the 25 characters with the Unicode
/// property of that name.
pub open spec fn is_space(c: char) -> bool {
    let n = c as u32;
    (0x09 <= n <= 0x0d) || n == 0x20 || n == 0x85 || n == 0xa0 || n == 0x1680 || (0x2000 <= n
        <= 0x200a) || n == 0x2028 || n == 0x2029 || n == 0x202f || n == 0x205f || n == 0x3000
}

/// Whether `c` is white space.
pub fn is_whitespace(c: char) -> (r: bool)
    ensures
        r == is_space(c),
{
    let n: u32 = c as u32;
    (0x09 <= n && n <= 0x0d) || n == 0x20 || n == 0x85 || n == 0xa0 || n == 0x1680 || (0x2000 <= n
        && n <= 0x200a) || n == 0x2028 || n == 0x2029 || n == 0x202f || n == 0x205f || n == 0x3000
}

/// The contents of a sequence of vectors.
pub open spec fn views(pieces: Seq<Vec<char>>) -> Seq<Seq<char>> {
    Seq::new(pieces.len(), |i: int| pieces[i]@)
}

/// The words of `s`: its maximal runs of characters that are not white
/// space, in order.
pub open spec fn words(s: Seq<char>) -> Seq<Seq<char>>
    decreases s.len(),
{
    if s.len() == 0 {
        Seq::empty()
    } else {
        let before = words(s.drop_last());
        if is_space(s.last()) {
            before
        } else if s.len() >= 2 && !is_space(s[s.len() - 2]) && before.len() > 0 {
            before.update(before.len() - 1, before.last().push(s.last()))
        } else {
            before.push(seq![s.last()])
        }
    }
}

/// The fields of `s`: the runs of characters between one occurrence of `sep`
/// and the next, with the runs before the first and after the last; a
/// sequence without `sep` is one field.
pub open spec fn fields(s: Seq<char>, sep: char) -> Seq<Seq<char>>
    decreases s.len(),
{
    if s.len() == 0 {
        seq![Seq::empty()]
    } else {
        let before = fields(s.drop_last(), sep);
        if s.last() == sep {
            before.push(Seq::empty())
        } else if before.len() > 0 {
            before.update(before.len() - 1, before.last().push(s.last()))
        } else {
            before
        }
    }
}

/// There is always at least one field.
pub proof fn lemma_fields_nonempty(s: Seq<char>, sep: char)
    ensures
        fields(s, sep).len() >= 1,
    decreases s.len(),
{
    if s.len() > 0 {
        lemma_fields_nonempty(s.drop_last(), sep);
    }
}

/// Splits `s` into its words.
pub fn split_words(s: &Vec<char>) -> (out: Vec<Vec<char>>)
    ensures
        views(out@) == words(s@),
{
    let mut out: Vec<Vec<char>> = Vec::new();
    let mut word: Vec<char> = Vec::new();
    let mut i: usize = 0;
    assert(s@.take(0) =~= Seq::empty());
    assert(views(out@) =~= Seq::empty());
    while i < s.len()
        invariant
            i <= s.len(),
            word@.len() > 0 <==> i > 0 && !is_space(s@[i - 1]),
            words(s@.take(i as int)) == (if word@.len() > 0 {
                views(out@).push(word@)
            } else {
                views(out@)
            }),
        decreases s.len() - i,
    {
        let c: char = s[i];
        let ghost prefix = s@.take(i as int);
        let ghost next = s@.take(i + 1);
        let ghost done = views(out@);
        let ghost open = word@;
        assert(next.drop_last() =~= prefix);
        assert(next.last() == c);
        if is_whitespace(c) {
            if word.len() > 0 {
                out.push(word);
                word = Vec::new();
                assert(views(out@) =~= done.push(open));
            }
        } else {
            proof {
                if open.len() > 0 {
                    assert(next[next.len() - 2] == s@[i - 1]);
                    assert(done.push(open).update(done.len() as int, open.push(c)) =~= done.push(
                        open.push(c),
                    ));
                } else {
                    assert(seq![c] =~= open.push(c));
                }
            }
            word.push(c);
        }
        i += 1;
    }
    assert(s@.take(s@.len() as int) =~= s@);
    if word.len() > 0 {
        let ghost done = views(out@);
        let ghost open = word@;
        out.push(word);
        assert(views(out@) =~= done.push(open));
    }
    out
}

/// Splits `s` into its fields.
pub fn split_fields(s: &Vec<char>, sep: char) -> (out: Vec<Vec<char>>)
    ensures
        views(out@) == fields(s@, sep),
{
    let mut out: Vec<Vec<char>> = Vec::new();
    let mut field: Vec<char> = Vec::new();
    let mut i: usize = 0;
    assert(s@.take(0) =~= Seq::empty());
    assert(views(out@).push(field@) =~= seq![Seq::empty()]);
    while i < s.len()
        invariant
            i <= s.len(),
            fields(s@.take(i as int), sep) == views(out@).push(field@),
        decreases s.len() - i,
    {
        let c: char = s[i];
        let ghost next = s@.take(i + 1);
        let ghost done = views(out@);
        let ghost open = field@;
        assert(next.drop_last() =~= s@.take(i as int));
        assert(next.last() == c);
        if c == sep {
            out.push(field);
            field = Vec::new();
            assert(views(out@) =~= done.push(open));
        } else {
            field.push(c);
            assert(done.push(open).update(done.len() as int, open.push(c)) =~= done.push(
                open.push(c),
            ));
        }
        i += 1;
    }
    assert(s@.take(s@.len() as int) =~= s@);
    let ghost done = views(out@);
    let ghost open = field@;
    out.push(field);
    assert(views(out@) =~= done.push(open));
    out
}

/// Whether `c` is a decimal digit.
pub open spec fn is_digit(c: char) -> bool {
    '0' <= c <= '9'
}

/// The value of the decimal digit `c`.
pub open spec fn digit_value(c: char) -> nat {
    (c as u32 - 48) as nat
}

/// The decimal digit of value `d`.
pub open spec fn digit_char(d: nat) -> char {
    (d + 48) as char
}

/// The number that the decimal digits `s` write.
pub open spec fn decimal(s: Seq<char>) -> nat
    decreases s.len(),
{
    if s.len() == 0 {
        0
    } else {
        10 * decimal(s.drop_last()) + digit_value(s.last())
    }
}

/// Whether `s` holds decimal digits only.
pub open spec fn all_digits(s: Seq<char>) -> bool {
    forall|i: int| 0 <= i < s.len() ==> is_digit(#[trigger] s[i])
}

/// `s` without a leading plus sign.
pub open spec fn unsigned_part(s: Seq<char>) -> Seq<char> {
    if s.len() > 0 && s[0] == '+' {
        s.skip(1)
    } else {
        s
    }
}

/// The number that `s` writes, if `s` is an optional plus sign followed by
/// one or more decimal digits that write a number of at most `max`.
pub open spec fn parse_number(s: Seq<char>, max: nat) -> Option<nat> {
    let digits = unsigned_part(s);
    if digits.len() > 0 && all_digits(digits) && decimal(digits) <= max {
        Some(decimal(digits))
    } else {
        None
    }
}

/// A number is at least the number that any prefix of its digits writes.
pub proof fn lemma_decimal_prefix(s: Seq<char>, n: int)
    requires
        0 <= n <= s.len(),
    ensures
        decimal(s.take(n)) <= decimal(s),
    decreases s.len(),
{
    if n < s.len() {
        assert(s.drop_last().take(n) =~= s.take(n));
        lemma_decimal_prefix(s.drop_last(), n);
    } else {
        assert(s.take(n) =~= s);
    }
}

/// Reads an unsigned decimal number.
pub fn parse_u64(s: &Vec<char>) -> (r: Option<u64>)
    ensures
        r == (match parse_number(s@, u64::MAX as nat) {
            Some(n) => Some(n as u64),
            None => None,
        }),
{
    let start: usize = if s.len() > 0 && s[0] == '+' {
        1
    } else {
        0
    };
    let ghost digits = unsigned_part(s@);
    assert(digits =~= s@.skip(start as int));
    if start == s.len() {
        return None;
    }
    let mut value: u64 = 0;
    let mut i: usize = start;
    assert(digits.take(0) =~= Seq::empty());
    while i < s.len()
        invariant
            start <= i <= s.len(),
            digits == s@.skip(start as int),
            digits == unsigned_part(s@),
            value == decimal(digits.take(i - start)),
            all_digits(digits.take(i - start)),
        decreases s.len() - i,
    {
        let c: char = s[i];
        let ghost next = digits.take(i + 1 - start);
        assert(next.drop_last() =~= digits.take(i - start));
        assert(next.last() == c);
        if !('0' <= c && c <= '9') {
            assert(digits[i - start] == c);
            return None;
        }
        let d: u64 = (c as u32 - 48) as u64;
        if value > (u64::MAX - d) / 10 {
            proof {
                lemma_decimal_prefix(digits, i + 1 - start);
            }
            return None;
        }
        value = value * 10 + d;
        assert forall|k: int| 0 <= k < next.len() implies is_digit(#[trigger] next[k]) by {
            if k < next.len() - 1 {
                assert(next[k] == digits.take(i - start)[k]);
            }
        }
        i += 1;
    }
    assert(digits.take(digits.len() as int) =~= digits);
    Some(value)
}

/// The decimal digits that write `n`, without leading zeros.
pub open spec fn numeral(n: nat) -> Seq<char>
    decreases n,
{
    if n < 10 {
        seq![digit_char(n)]
    } else {
        numeral(n / 10).push(digit_char(n % 10))
    }
}

/// `n` in decimal digits, with a minus sign if it is negative and, where
/// `plus` is set, a plus sign if it is not.
pub open spec fn signed_numeral(n: int, plus: bool) -> Seq<char> {
    if n < 0 {
        seq!['-'] + numeral((-n) as nat)
    } else if plus {
        seq!['+'] + numeral(n as nat)
    } else {
        numeral(n as nat)
    }
}

/// The decimal digit of value `d`, as a string.
pub fn digit_str(d: u64) -> (s: &'static str)
    requires
        d < 10,
    ensures
        s@ == seq![digit_char(d as nat)],
{
    proof {
        reveal_strlit("0");
        reveal_strlit("1");
        reveal_strlit("2");
        reveal_strlit("3");
        reveal_strlit("4");
        reveal_strlit("5");
        reveal_strlit("6");
        reveal_strlit("7");
        reveal_strlit("8");
        reveal_strlit("9");
    }
    let s: &'static str = if d == 0 {
        "0"
    } else if d == 1 {
        "1"
    } else if d == 2 {
        "2"
    } else if d == 3 {
        "3"
    } else if d == 4 {
        "4"
    } else if d == 5 {
        "5"
    } else if d == 6 {
        "6"
    } else if d == 7 {
        "7"
    } else if d == 8 {
        "8"
    } else {
        "9"
    };
    assert(s@ =~= seq![digit_char(d as nat)]);
    s
}

/// Appends `n` in decimal digits to `out`.
pub fn append_numeral(out: &mut String, n: u64)
    ensures
        final(out)@ == old(out)@ + numeral(n as nat),
    decreases n,
{
    if n >= 10 {
        append_numeral(out, n / 10);
    }
    out.append(digit_str(n % 10));
    proof {
        if n >= 10 {
            assert(old(out)@ + numeral((n / 10) as nat) + seq![digit_char((n % 10) as nat)]
                =~= old(out)@ + numeral(n as nat));
        }
    }
}

/// Appends `n` to `out` as `signed_numeral` writes it.
pub fn append_signed(out: &mut String, n: i64, plus: bool)
    requires
        n > i64::MIN,
    ensures
        final(out)@ == old(out)@ + signed_numeral(n as int, plus),
{
    proof {
        reveal_strlit("-");
        reveal_strlit("+");
    }
    if n < 0 {
        out.append("-");
        append_numeral(out, (-n) as u64);
        assert(old(out)@ + "-"@ + numeral((-n) as nat) =~= old(out)@ + signed_numeral(
            n as int,
            plus,
        ));
    } else if plus {
        out.append("+");
        append_numeral(out, n as u64);
        assert(old(out)@ + "+"@ + numeral(n as nat) =~= old(out)@ + signed_numeral(n as int, plus));
    } else {
        append_numeral(out, n as u64);
    }
}

/// Whether no character of `s` is white space.
pub open spec fn no_space(s: Seq<char>) -> bool {
    forall|i: int| 0 <= i < s.len() ==> !is_space(#[trigger] s[i])
}

/// Whether `sep` does not occur in `s`.
pub open spec fn free_of(s: Seq<char>, sep: char) -> bool {
    forall|i: int| 0 <= i < s.len() ==> #[trigger] s[i] != sep
}

/// A run of characters that are not white space is one word.
pub proof fn lemma_words_single(a: Seq<char>)
    requires
        a.len() > 0,
        no_space(a),
    ensures
        words(a) == seq![a],
    decreases a.len(),
{
    let last = a.last();
    assert(!is_space(a[a.len() - 1]));
    if a.len() == 1 {
        assert(words(a.drop_last()) =~= Seq::empty());
        assert(seq![last] =~= a);
    } else {
        let init = a.drop_last();
        assert(no_space(init)) by {
            assert forall|i: int| 0 <= i < init.len() implies !is_space(#[trigger] init[i]) by {
                assert(init[i] == a[i]);
            }
        }
        lemma_words_single(init);
        assert(!is_space(a[a.len() - 2]));
        assert(init.push(last) =~= a);
        assert(seq![init].update(0, init.push(last)) =~= seq![a]);
    }
}

/// Two runs of characters that are not white space, with a space between
/// them, are two words.
pub proof fn lemma_words_pair(a: Seq<char>, b: Seq<char>)
    requires
        a.len() > 0,
        b.len() > 0,
        no_space(a),
        no_space(b),
    ensures
        words(a + seq![' '] + b) == seq![a, b],
    decreases b.len(),
{
    let whole = a + seq![' '] + b;
    let init = b.drop_last();
    let last = b.last();
    assert(!is_space(b[b.len() - 1]));
    assert(whole.drop_last() =~= a + seq![' '] + init);
    assert(whole.last() == last);
    if b.len() == 1 {
        let spaced = a + seq![' '];
        assert(whole.drop_last() =~= spaced);
        assert(spaced.drop_last() =~= a);
        assert(is_space(spaced.last()));
        lemma_words_single(a);
        assert(words(spaced) == seq![a]);
        assert(whole[whole.len() - 2] == ' ');
        assert(seq![last] =~= b);
        assert(seq![a].push(b) =~= seq![a, b]);
    } else {
        assert(no_space(init)) by {
            assert forall|i: int| 0 <= i < init.len() implies !is_space(#[trigger] init[i]) by {
                assert(init[i] == b[i]);
            }
        }
        lemma_words_pair(a, init);
        assert(whole[whole.len() - 2] == b[b.len() - 2]);
        assert(!is_space(b[b.len() - 2]));
        assert(init.push(last) =~= b);
        assert(seq![a, init].update(1, init.push(last)) =~= seq![a, b]);
    }
}

/// Characters other than the separator, appended to a sequence, lengthen
/// its last field.
pub proof fn lemma_fields_append(s: Seq<char>, t: Seq<char>, sep: char)
    requires
        free_of(t, sep),
    ensures
        fields(s, sep).len() >= 1,
        fields(s + t, sep) == fields(s, sep).update(
            fields(s, sep).len() - 1,
            fields(s, sep).last() + t,
        ),
    decreases t.len(),
{
    lemma_fields_nonempty(s, sep);
    let base = fields(s, sep);
    if t.len() == 0 {
        assert(s + t =~= s);
        assert(base.last() + t =~= base.last());
        assert(base.update(base.len() - 1, base.last()) =~= base);
    } else {
        let init = t.drop_last();
        assert(free_of(init, sep)) by {
            assert forall|i: int| 0 <= i < init.len() implies #[trigger] init[i] != sep by {
                assert(init[i] == t[i]);
            }
        }
        lemma_fields_append(s, init, sep);
        assert((s + t).drop_last() =~= s + init);
        assert((s + t).last() == t[t.len() - 1]);
        assert(base.last() + init.push(t.last()) =~= (base.last() + init).push(t.last()));
        assert(init.push(t.last()) =~= t);
        assert(base.update(base.len() - 1, base.last() + init).update(
            base.len() - 1,
            (base.last() + init).push(t.last()),
        ) =~= base.update(base.len() - 1, base.last() + t));
    }
}

/// A separator and a run of other characters, appended to a sequence, add
/// that run as a field.
pub proof fn lemma_fields_push(s: Seq<char>, t: Seq<char>, sep: char)
    requires
        free_of(t, sep),
    ensures
        fields(s + seq![sep] + t, sep) == fields(s, sep).push(t),
{
    let cut = s + seq![sep];
    assert(cut.drop_last() =~= s);
    assert(cut.last() == sep);
    lemma_fields_append(cut, t, sep);
    let base = fields(s, sep).push(Seq::empty());
    assert(Seq::<char>::empty() + t =~= t);
    assert(base.update(base.len() - 1, t) =~= fields(s, sep).push(t));
}

} // verus!
