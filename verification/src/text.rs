//! Character-level building blocks: Unicode white space, trimming,
//! splitting on a separator character, substring search and decimal
//! parsing of unsigned 64-bit integers.
use vstd::prelude::*;

verus! {

/// The Unicode `White_Space` property: the characters that `char::is_whitespace`
/// and `str::trim` treat as white space.
pub open spec fn is_white_space(c: char) -> bool {
    ||| ('\u{9}' <= c && c <= '\u{d}')
    ||| c == ' '
    ||| c == '\u{85}'
    ||| c == '\u{a0}'
    ||| c == '\u{1680}'
    ||| ('\u{2000}' <= c && c <= '\u{200a}')
    ||| c == '\u{2028}'
    ||| c == '\u{2029}'
    ||| c == '\u{202f}'
    ||| c == '\u{205f}'
    ||| c == '\u{3000}'
}

/// Whether `c` is Unicode white space.
pub fn is_whitespace_char(c: char) -> (r: bool)
    ensures
        r == is_white_space(c),
{
    ('\u{9}' <= c && c <= '\u{d}') || c == ' ' || c == '\u{85}' || c == '\u{a0}' || c
        == '\u{1680}' || ('\u{2000}' <= c && c <= '\u{200a}') || c == '\u{2028}' || c
        == '\u{2029}' || c == '\u{202f}' || c == '\u{205f}' || c == '\u{3000}'
}

/// `s` with its leading white space removed.
pub open spec fn trim_start(s: Seq<char>) -> Seq<char>
    decreases s.len(),
{
    if s.len() > 0 && is_white_space(s[0]) {
        trim_start(s.drop_first())
    } else {
        s
    }
}

/// `s` with its trailing white space removed.
pub open spec fn trim_end(s: Seq<char>) -> Seq<char>
    decreases s.len(),
{
    if s.len() > 0 && is_white_space(s.last()) {
        trim_end(s.drop_last())
    } else {
        s
    }
}

/// `s` with leading and trailing white space removed.
pub open spec fn trim(s: Seq<char>) -> Seq<char> {
    trim_end(trim_start(s))
}

/// The pieces of `s` between occurrences of `sep`, in order; there is always
/// at least one piece, and `sep` never occurs inside a piece.
pub open spec fn split(s: Seq<char>, sep: char) -> Seq<Seq<char>>
    decreases s.len(),
{
    if s.len() == 0 {
        seq![Seq::<char>::empty()]
    } else {
        let r = split(s.drop_last(), sep);
        if s.last() == sep {
            r.push(Seq::<char>::empty())
        } else {
            r.update(r.len() - 1, r.last().push(s.last()))
        }
    }
}

/// The position of the first occurrence of `c` in `s`.
pub open spec fn find_char(s: Seq<char>, c: char) -> Option<int>
    decreases s.len(),
{
    if s.len() == 0 {
        None
    } else if s[0] == c {
        Some(0)
    } else {
        match find_char(s.drop_first(), c) {
            Some(i) => Some(i + 1),
            None => None,
        }
    }
}

/// Whether `needle` occurs in `s` at position `i`.
pub open spec fn occurs_at(s: Seq<char>, needle: Seq<char>, i: int) -> bool {
    0 <= i && i + needle.len() <= s.len() && s.subrange(i, i + needle.len()) == needle
}

/// Whether `needle` occurs anywhere in `s`.
pub open spec fn contains(s: Seq<char>, needle: Seq<char>) -> bool {
    exists|i: int| occurs_at(s, needle, i)
}

/// Whether `s` begins with `prefix`.
pub open spec fn starts_with(s: Seq<char>, prefix: Seq<char>) -> bool {
    prefix.len() <= s.len() && s.take(prefix.len() as int) == prefix
}

/// Whether `s` ends with `suffix`.
pub open spec fn ends_with(s: Seq<char>, suffix: Seq<char>) -> bool {
    suffix.len() <= s.len() && s.skip(s.len() - suffix.len()) == suffix
}

/// A decimal digit `0`..`9`.
pub open spec fn is_digit(c: char) -> bool {
    '0' <= c && c <= '9'
}

/// The value of a decimal digit.
pub open spec fn digit_value(c: char) -> nat {
    (c as int - '0' as int) as nat
}

/// Every character of `s` is a decimal digit.
pub open spec fn all_digits(s: Seq<char>) -> bool {
    forall|i: int| 0 <= i < s.len() ==> is_digit(#[trigger] s[i])
}

/// The number that the decimal digits `s` denote (most significant first).
pub open spec fn decimal_value(s: Seq<char>) -> nat
    decreases s.len(),
{
    if s.len() == 0 {
        0
    } else {
        decimal_value(s.drop_last()) * 10 + digit_value(s.last())
    }
}

/// The digits of an unsigned number text: `s` without one leading `+`.
pub open spec fn unsigned_digits(s: Seq<char>) -> Seq<char> {
    if s.len() > 0 && s[0] == '+' {
        s.drop_first()
    } else {
        s
    }
}

/// How `str::parse::<u64>` reads `s`: an optional `+` followed by at least
/// one decimal digit and nothing else, denoting a value that fits in a `u64`.
pub open spec fn parse_u64(s: Seq<char>) -> Option<u64> {
    let d = unsigned_digits(s);
    if d.len() > 0 && all_digits(d) && decimal_value(d) <= u64::MAX {
        Some(decimal_value(d) as u64)
    } else {
        None
    }
}

/// `s` with every leading `c` removed.
pub open spec fn strip_start(s: Seq<char>, c: char) -> Seq<char>
    decreases s.len(),
{
    if s.len() > 0 && s[0] == c {
        strip_start(s.drop_first(), c)
    } else {
        s
    }
}

/// `s` with every trailing `c` removed.
pub open spec fn strip_end(s: Seq<char>, c: char) -> Seq<char>
    decreases s.len(),
{
    if s.len() > 0 && s.last() == c {
        strip_end(s.drop_last(), c)
    } else {
        s
    }
}

/// `s` with every leading and trailing `c` removed, as `str::trim_matches(c)` does.
pub open spec fn strip_both(s: Seq<char>, c: char) -> Seq<char> {
    strip_end(strip_start(s, c), c)
}

/// The longest prefix of `s` that holds no white space.
pub open spec fn leading_non_white(s: Seq<char>) -> Seq<char>
    decreases s.len(),
{
    if s.len() > 0 && !is_white_space(s[0]) {
        seq![s[0]] + leading_non_white(s.drop_first())
    } else {
        Seq::<char>::empty()
    }
}

/// Leading `c`s end where the first other character stands.
pub proof fn lemma_strip_start(s: Seq<char>, c: char, k: int)
    requires
        0 <= k <= s.len(),
        forall|i: int| 0 <= i < k ==> #[trigger] s[i] == c,
        k == s.len() || s[k] != c,
    ensures
        strip_start(s, c) == s.skip(k),
    decreases k,
{
    if k == 0 {
        assert(s.skip(0) =~= s);
    } else {
        let t = s.drop_first();
        assert forall|i: int| 0 <= i < k - 1 implies #[trigger] t[i] == c by {
            assert(t[i] == s[i + 1]);
        }
        lemma_strip_start(t, c, k - 1);
        assert(t.skip(k - 1) =~= s.skip(k));
    }
}

/// Trailing `c`s begin after the last other character.
pub proof fn lemma_strip_end(s: Seq<char>, c: char, k: int)
    requires
        0 <= k <= s.len(),
        forall|i: int| k <= i < s.len() ==> #[trigger] s[i] == c,
        k == 0 || s[k - 1] != c,
    ensures
        strip_end(s, c) == s.take(k),
    decreases s.len() - k,
{
    if k == s.len() {
        assert(s.take(k) =~= s);
    } else {
        let t = s.drop_last();
        assert forall|i: int| k <= i < t.len() implies #[trigger] t[i] == c by {
            assert(t[i] == s[i]);
        }
        lemma_strip_end(t, c, k);
        assert(t.take(k) =~= s.take(k));
    }
}

/// The non-white prefix ends at the first white space.
pub proof fn lemma_leading_non_white(s: Seq<char>, k: int)
    requires
        0 <= k <= s.len(),
        forall|i: int| 0 <= i < k ==> !is_white_space(#[trigger] s[i]),
        k == s.len() || is_white_space(s[k]),
    ensures
        leading_non_white(s) == s.take(k),
    decreases k,
{
    if k == 0 {
        assert(s.take(0) =~= Seq::<char>::empty());
    } else {
        let t = s.drop_first();
        assert forall|i: int| 0 <= i < k - 1 implies !is_white_space(#[trigger] t[i]) by {
            assert(t[i] == s[i + 1]);
        }
        lemma_leading_non_white(t, k - 1);
        assert(seq![s[0]] + t.take(k - 1) =~= s.take(k));
    }
}

/// The decimal digit character for `d` (`d < 10`).
pub open spec fn digit_char(d: nat) -> char {
    seq!['0', '1', '2', '3', '4', '5', '6', '7', '8', '9'][d as int]
}

/// The decimal text of `n`, as `{}` formats it: most significant digit
/// first, no leading zeros, `0` for zero.
pub open spec fn decimal_text(n: nat) -> Seq<char>
    decreases n,
{
    if n < 10 {
        seq![digit_char(n)]
    } else {
        decimal_text(n / 10).push(digit_char(n % 10))
    }
}

/// The texts of `parts` joined with `sep` between neighbours, as
/// `[String]::join` does with a one-character separator.
pub open spec fn join(parts: Seq<Seq<char>>, sep: char) -> Seq<char>
    decreases parts.len(),
{
    if parts.len() == 0 {
        Seq::<char>::empty()
    } else if parts.len() == 1 {
        parts[0]
    } else {
        join(parts.drop_last(), sep) + seq![sep] + parts.last()
    }
}

/// Whether `c` occurs nowhere in `s`.
pub open spec fn free_of(s: Seq<char>, c: char) -> bool {
    forall|i: int| 0 <= i < s.len() ==> #[trigger] s[i] != c
}

/// Whether no character of `s` is white space.
pub open spec fn free_of_white_space(s: Seq<char>) -> bool {
    forall|i: int| 0 <= i < s.len() ==> !is_white_space(#[trigger] s[i])
}

/// The digit characters are the decimal digits, with their values.
pub proof fn lemma_digit_char(d: nat)
    requires
        d < 10,
    ensures
        is_digit(digit_char(d)),
        digit_value(digit_char(d)) == d,
{
    let t = seq!['0', '1', '2', '3', '4', '5', '6', '7', '8', '9'];
    if d == 0 {
        assert(t[0] == '0');
    } else if d == 1 {
        assert(t[1] == '1');
    } else if d == 2 {
        assert(t[2] == '2');
    } else if d == 3 {
        assert(t[3] == '3');
    } else if d == 4 {
        assert(t[4] == '4');
    } else if d == 5 {
        assert(t[5] == '5');
    } else if d == 6 {
        assert(t[6] == '6');
    } else if d == 7 {
        assert(t[7] == '7');
    } else if d == 8 {
        assert(t[8] == '8');
    } else {
        assert(t[9] == '9');
    }
}

/// Decimal text is a non-empty run of digits denoting the number.
pub proof fn lemma_decimal_text(n: nat)
    ensures
        decimal_text(n).len() > 0,
        all_digits(decimal_text(n)),
        decimal_value(decimal_text(n)) == n,
    decreases n,
{
    if n < 10 {
        lemma_digit_char(n);
        let t = decimal_text(n);
        assert(t.drop_last() =~= Seq::<char>::empty());
        assert(decimal_value(Seq::<char>::empty()) == 0);
    } else {
        lemma_decimal_text(n / 10);
        lemma_digit_char(n % 10);
        let t = decimal_text(n);
        assert(t.drop_last() =~= decimal_text(n / 10));
        assert(n == (n / 10) * 10 + n % 10);
    }
}

/// Reading back the decimal text of a `u64` gives the number.
pub proof fn lemma_parse_decimal_text(n: u64)
    ensures
        parse_u64(decimal_text(n as nat)) == Some(n),
{
    lemma_decimal_text(n as nat);
    let t = decimal_text(n as nat);
    assert(is_digit(t[0]));
    assert(unsigned_digits(t) == t);
}

/// A digit is neither white space nor any of `+`, `-` and `.`.
pub proof fn lemma_digits_plain(s: Seq<char>)
    requires
        all_digits(s),
    ensures
        free_of(s, '.'),
        free_of(s, '-'),
        free_of_white_space(s),
{
    assert forall|i: int| 0 <= i < s.len() implies #[trigger] s[i] != '.' && s[i] != '-'
        && !is_white_space(s[i]) by {
        assert(is_digit(s[i]));
    }
}

/// A text without the separator is a single piece.
pub proof fn lemma_split_single(s: Seq<char>, sep: char)
    requires
        free_of(s, sep),
    ensures
        split(s, sep) == seq![s],
    decreases s.len(),
{
    if s.len() > 0 {
        let t = s.drop_last();
        assert(free_of(t, sep)) by {
            assert forall|i: int| 0 <= i < t.len() implies #[trigger] t[i] != sep by {
                assert(t[i] == s[i]);
            }
        }
        lemma_split_single(t, sep);
        assert(s.last() != sep);
        assert(t.push(s.last()) =~= s);
        assert(seq![t].update(0, t.push(s.last())) =~= seq![s]);
    } else {
        assert(s =~= Seq::<char>::empty());
    }
}

/// Splitting at a separator between two texts splits each text separately.
pub proof fn lemma_split_concat(x: Seq<char>, y: Seq<char>, sep: char)
    ensures
        split(x + seq![sep] + y, sep) == split(x, sep) + split(y, sep),
    decreases y.len(),
{
    let z = x + seq![sep] + y;
    if y.len() == 0 {
        assert(z.drop_last() =~= x);
        assert(z.last() == sep);
        assert(split(y, sep) =~= seq![Seq::<char>::empty()]);
        assert(split(x, sep).push(Seq::<char>::empty()) =~= split(x, sep) + split(y, sep));
    } else {
        let y1 = y.drop_last();
        lemma_split_concat(x, y1, sep);
        assert(z.drop_last() =~= x + seq![sep] + y1);
        assert(z.last() == y.last());
        lemma_split_nonempty(y1, sep);
        lemma_split_nonempty(x, sep);
        let a = split(x, sep);
        let b = split(y1, sep);
        if y.last() == sep {
            assert((a + b).push(Seq::<char>::empty()) =~= a + b.push(Seq::<char>::empty()));
        } else {
            let r = a + b;
            assert(r.last() == b.last());
            assert(r.update(r.len() - 1, r.last().push(y.last())) =~= a + b.update(
                b.len() - 1,
                b.last().push(y.last()),
            ));
        }
    }
}

/// Joining pieces that hold no separator and splitting again gives the pieces.
pub proof fn lemma_split_join(parts: Seq<Seq<char>>, sep: char)
    requires
        parts.len() > 0,
        forall|k: int| 0 <= k < parts.len() ==> free_of(#[trigger] parts[k], sep),
    ensures
        split(join(parts, sep), sep) == parts,
    decreases parts.len(),
{
    if parts.len() == 1 {
        lemma_split_single(parts[0], sep);
        assert(seq![parts[0]] =~= parts);
    } else {
        let init = parts.drop_last();
        assert forall|k: int| 0 <= k < init.len() implies free_of(#[trigger] init[k], sep) by {
            assert(init[k] == parts[k]);
        }
        lemma_split_join(init, sep);
        lemma_split_concat(join(init, sep), parts.last(), sep);
        lemma_split_single(parts.last(), sep);
        assert(init + seq![parts.last()] =~= parts);
    }
}

/// A joined text holds a character only if some piece or the separator does.
pub proof fn lemma_join_free_of(parts: Seq<Seq<char>>, sep: char, c: char)
    requires
        c != sep,
        forall|k: int| 0 <= k < parts.len() ==> free_of(#[trigger] parts[k], c),
    ensures
        free_of(join(parts, sep), c),
    decreases parts.len(),
{
    if parts.len() > 1 {
        let init = parts.drop_last();
        assert forall|k: int| 0 <= k < init.len() implies free_of(#[trigger] init[k], c) by {
            assert(init[k] == parts[k]);
        }
        lemma_join_free_of(init, sep, c);
        assert(free_of(parts.last(), c));
        let j = join(init, sep) + seq![sep] + parts.last();
        assert forall|i: int| 0 <= i < j.len() implies #[trigger] j[i] != c by {
            if i < join(init, sep).len() {
                assert(j[i] == join(init, sep)[i]);
            } else if i > join(init, sep).len() {
                assert(j[i] == parts.last()[i - join(init, sep).len() - 1]);
            }
        }
    } else if parts.len() == 1 {
        assert(free_of(parts[0], c));
    }
}

/// A joined text holds no white space when neither the pieces nor the separator do.
pub proof fn lemma_join_free_of_white_space(parts: Seq<Seq<char>>, sep: char)
    requires
        !is_white_space(sep),
        forall|k: int| 0 <= k < parts.len() ==> free_of_white_space(#[trigger] parts[k]),
    ensures
        free_of_white_space(join(parts, sep)),
    decreases parts.len(),
{
    if parts.len() > 1 {
        let init = parts.drop_last();
        assert forall|k: int| 0 <= k < init.len() implies free_of_white_space(#[trigger] init[k]) by {
            assert(init[k] == parts[k]);
        }
        lemma_join_free_of_white_space(init, sep);
        assert(free_of_white_space(parts.last()));
        let j = join(init, sep) + seq![sep] + parts.last();
        assert forall|i: int| 0 <= i < j.len() implies !is_white_space(#[trigger] j[i]) by {
            if i < join(init, sep).len() {
                assert(j[i] == join(init, sep)[i]);
            } else if i > join(init, sep).len() {
                assert(j[i] == parts.last()[i - join(init, sep).len() - 1]);
            }
        }
    } else if parts.len() == 1 {
        assert(free_of_white_space(parts[0]));
    }
}

/// `parse::<u64>` accepts one leading `+` and leading zeros, and rejects an
/// empty text and any text that starts with `-`.
pub proof fn lemma_parse_u64_forms(t: u64, s: Seq<char>)
    ensures
        parse_u64(seq!['+'] + decimal_text(t as nat)) == Some(t),
        parse_u64(seq!['0'] + decimal_text(t as nat)) == Some(t),
        parse_u64(Seq::<char>::empty()) is None,
        parse_u64(seq!['-'] + s) is None,
        parse_u64(seq!['+']) is None,
{
    let d = decimal_text(t as nat);
    lemma_decimal_text(t as nat);
    lemma_parse_decimal_text(t);
    let p = seq!['+'] + d;
    assert(p.drop_first() =~= d);
    let z = seq!['0'] + d;
    assert(unsigned_digits(z) == z);
    assert(all_digits(z)) by {
        assert forall|i: int| 0 <= i < z.len() implies is_digit(#[trigger] z[i]) by {
            if i > 0 {
                assert(z[i] == d[i - 1]);
            }
        }
    }
    lemma_decimal_leading_zero(d);
    let m = seq!['-'] + s;
    assert(!is_digit(m[0]));
    assert(seq!['+'].drop_first() =~= Seq::<char>::empty());
}

/// A leading zero does not change the value of a digit string.
proof fn lemma_decimal_leading_zero(d: Seq<char>)
    ensures
        decimal_value(seq!['0'] + d) == decimal_value(d),
    decreases d.len(),
{
    let z = seq!['0'] + d;
    if d.len() == 0 {
        assert(z.drop_last() =~= Seq::<char>::empty());
        assert(z.last() == '0');
        assert(decimal_value(Seq::<char>::empty()) == 0);
        assert(digit_value('0') == 0);
        assert(d =~= Seq::<char>::empty());
    } else {
        lemma_decimal_leading_zero(d.drop_last());
        assert(z.drop_last() =~= seq!['0'] + d.drop_last());
        assert(z.last() == d.last());
    }
}

/// Joining the pieces of a split with the separator gives the text back, and
/// no piece holds the separator.
pub proof fn lemma_join_split(s: Seq<char>, sep: char)
    ensures
        join(split(s, sep), sep) == s,
        forall|k: int| 0 <= k < split(s, sep).len() ==> free_of(#[trigger] split(s, sep)[k], sep),
    decreases s.len(),
{
    lemma_split_nonempty(s, sep);
    if s.len() == 0 {
        assert(seq![Seq::<char>::empty()][0] =~= s);
    } else {
        let t = s.drop_last();
        let c = s.last();
        lemma_join_split(t, sep);
        lemma_split_nonempty(t, sep);
        let r = split(t, sep);
        if c == sep {
            let r2 = r.push(Seq::<char>::empty());
            assert(r2.drop_last() =~= r);
            assert(join(r2, sep) =~= s);
            assert forall|k: int| 0 <= k < r2.len() implies free_of(#[trigger] r2[k], sep) by {
                if k < r.len() {
                    assert(r2[k] == r[k]);
                }
            }
        } else {
            let r2 = r.update(r.len() - 1, r.last().push(c));
            lemma_join_push_last(r, c, sep);
            assert(join(r, sep).push(c) =~= s);
            assert forall|k: int| 0 <= k < r2.len() implies free_of(#[trigger] r2[k], sep) by {
                if k < r.len() - 1 {
                    assert(r2[k] == r[k]);
                } else {
                    let x = r.last().push(c);
                    assert(free_of(r[r.len() - 1], sep));
                    assert forall|i: int| 0 <= i < x.len() implies #[trigger] x[i] != sep by {
                        if i < r.last().len() {
                            assert(x[i] == r.last()[i]);
                        }
                    }
                }
            }
        }
    }
}

/// Extending the last piece extends the joined text.
proof fn lemma_join_push_last(r: Seq<Seq<char>>, c: char, sep: char)
    requires
        r.len() > 0,
    ensures
        join(r.update(r.len() - 1, r.last().push(c)), sep) == join(r, sep).push(c),
{
    let r2 = r.update(r.len() - 1, r.last().push(c));
    if r.len() == 1 {
        assert(r2[0] == r[0].push(c));
    } else {
        assert(r2.drop_last() =~= r.drop_last());
        assert(r2.last() == r.last().push(c));
        assert(join(r2, sep) =~= join(r, sep).push(c));
    }
}

/// Leading white space ends where the first other character stands.
pub proof fn lemma_trim_start(s: Seq<char>, k: int)
    requires
        0 <= k <= s.len(),
        forall|i: int| 0 <= i < k ==> is_white_space(#[trigger] s[i]),
        k == s.len() || !is_white_space(s[k]),
    ensures
        trim_start(s) == s.skip(k),
    decreases k,
{
    if k == 0 {
        assert(s.skip(0) =~= s);
    } else {
        assert(is_white_space(s[0]));
        let t = s.drop_first();
        assert forall|i: int| 0 <= i < k - 1 implies is_white_space(#[trigger] t[i]) by {
            assert(t[i] == s[i + 1]);
        }
        lemma_trim_start(t, k - 1);
        assert(t.skip(k - 1) =~= s.skip(k));
    }
}

/// Trailing white space begins after the last other character.
pub proof fn lemma_trim_end(s: Seq<char>, k: int)
    requires
        0 <= k <= s.len(),
        forall|i: int| k <= i < s.len() ==> is_white_space(#[trigger] s[i]),
        k == 0 || !is_white_space(s[k - 1]),
    ensures
        trim_end(s) == s.take(k),
    decreases s.len() - k,
{
    if k == s.len() {
        assert(s.take(k) =~= s);
    } else {
        assert(is_white_space(s.last()));
        let t = s.drop_last();
        assert forall|i: int| k <= i < t.len() implies is_white_space(#[trigger] t[i]) by {
            assert(t[i] == s[i]);
        }
        lemma_trim_end(t, k);
        assert(t.take(k) =~= s.take(k));
    }
}

/// Splitting always yields at least one piece.
pub proof fn lemma_split_nonempty(s: Seq<char>, sep: char)
    ensures
        split(s, sep).len() >= 1,
    decreases s.len(),
{
    if s.len() > 0 {
        lemma_split_nonempty(s.drop_last(), sep);
    }
}

/// The first occurrence of `c` is at `j` when `s[j] == c` and no earlier
/// character is `c`.
pub proof fn lemma_find_char_found(s: Seq<char>, c: char, j: int)
    requires
        0 <= j < s.len(),
        s[j] == c,
        forall|i: int| 0 <= i < j ==> #[trigger] s[i] != c,
    ensures
        find_char(s, c) == Some(j),
    decreases j,
{
    if j > 0 {
        let t = s.drop_first();
        assert forall|i: int| 0 <= i < j - 1 implies #[trigger] t[i] != c by {
            assert(t[i] == s[i + 1]);
        }
        lemma_find_char_found(t, c, j - 1);
    }
}

/// There is no occurrence of `c` when no character is `c`.
pub proof fn lemma_find_char_absent(s: Seq<char>, c: char)
    requires
        forall|i: int| 0 <= i < s.len() ==> #[trigger] s[i] != c,
    ensures
        find_char(s, c) is None,
    decreases s.len(),
{
    if s.len() > 0 {
        let t = s.drop_first();
        assert forall|i: int| 0 <= i < t.len() implies #[trigger] t[i] != c by {
            assert(t[i] == s[i + 1]);
        }
        lemma_find_char_absent(t, c);
    }
}

/// An occurrence found by `find_char` lies inside `s`, holds `c`, and is the first.
pub proof fn lemma_find_char_spec(s: Seq<char>, c: char)
    ensures
        find_char(s, c) matches Some(j) ==> {
            &&& 0 <= j < s.len()
            &&& s[j] == c
            &&& forall|i: int| 0 <= i < j ==> #[trigger] s[i] != c
        },
        find_char(s, c) is None ==> forall|i: int| 0 <= i < s.len() ==> #[trigger] s[i] != c,
    decreases s.len(),
{
    if s.len() > 0 {
        let t = s.drop_first();
        lemma_find_char_spec(t, c);
        if s[0] != c {
            match find_char(t, c) {
                Some(j) => {
                    assert(s[j + 1] == t[j]);
                    assert forall|i: int| 0 <= i < j + 1 implies #[trigger] s[i] != c by {
                        if i > 0 {
                            assert(s[i] == t[i - 1]);
                        }
                    }
                },
                None => {
                    assert forall|i: int| 0 <= i < s.len() implies #[trigger] s[i] != c by {
                        if i > 0 {
                            assert(s[i] == t[i - 1]);
                        }
                    }
                },
            }
        }
    }
}

/// A prefix of a digit string never denotes more than the whole string.
pub proof fn lemma_decimal_prefix_le(s: Seq<char>, k: int)
    requires
        0 <= k <= s.len(),
    ensures
        decimal_value(s.take(k)) <= decimal_value(s),
    decreases s.len(),
{
    if k < s.len() {
        let t = s.drop_last();
        lemma_decimal_prefix_le(t, k);
        assert(t.take(k) =~= s.take(k));
    } else {
        assert(s.take(k) =~= s);
    }
}

/// The characters of `s`, in order.
pub fn chars_of(s: &str) -> (r: Vec<char>)
    ensures
        r@ == s@,
{
    broadcast use vstd::string::group_string_axioms;

    let mut r: Vec<char> = Vec::new();
    for c in it: s.chars()
        invariant
            it.seq() == s@,
            r@ == it.seq().take(it.index() as int),
    {
        r.push(c);
    }
    assert(s@.take(s@.len() as int) =~= s@);
    r
}

/// The bounds `(lo, hi)` of the trimmed part of `cs`: `cs[lo..hi]` is `cs`
/// without leading and trailing white space.
pub fn trim_bounds(cs: &Vec<char>) -> (r: (usize, usize))
    ensures
        r.0 <= r.1 <= cs@.len(),
        cs@.subrange(r.0 as int, r.1 as int) == trim(cs@),
{
    let n = cs.len();
    let mut lo: usize = 0;
    while lo < n && is_whitespace_char(cs[lo])
        invariant
            n == cs@.len(),
            lo <= n,
            forall|i: int| 0 <= i < lo ==> is_white_space(#[trigger] cs@[i]),
        decreases n - lo,
    {
        lo = lo + 1;
    }
    proof {
        lemma_trim_start(cs@, lo as int);
    }
    let mut hi: usize = n;
    while hi > lo && is_whitespace_char(cs[hi - 1])
        invariant
            n == cs@.len(),
            lo <= hi <= n,
            forall|i: int| hi <= i < n ==> is_white_space(#[trigger] cs@[i]),
        decreases hi,
    {
        hi = hi - 1;
    }
    proof {
        let u = cs@.skip(lo as int);
        assert forall|i: int| hi - lo <= i < u.len() implies is_white_space(#[trigger] u[i]) by {
            assert(u[i] == cs@[lo + i]);
        }
        if hi > lo {
            assert(u[hi - lo - 1] == cs@[hi - 1]);
        }
        lemma_trim_end(u, hi - lo);
        assert(u.take(hi - lo) =~= cs@.subrange(lo as int, hi as int));
    }
    (lo, hi)
}

/// The position of the first `c` in `cs[from..to]`, counted from the start of `cs`.
pub fn find_char_in(cs: &Vec<char>, from: usize, to: usize, c: char) -> (r: Option<usize>)
    requires
        from <= to <= cs@.len(),
    ensures
        match find_char(cs@.subrange(from as int, to as int), c) {
            Some(j) => r is Some && r->0 == from + j,
            None => r is None,
        },
        r matches Some(k) ==> from <= k < to && cs@[k as int] == c,
{
    let ghost t = cs@.subrange(from as int, to as int);
    let mut i: usize = from;
    while i < to
        invariant
            from <= i <= to <= cs@.len(),
            t == cs@.subrange(from as int, to as int),
            forall|k: int| 0 <= k < i - from ==> #[trigger] t[k] != c,
        decreases to - i,
    {
        if cs[i] == c {
            proof {
                lemma_find_char_found(t, c, i - from);
            }
            return Some(i);
        }
        i = i + 1;
    }
    proof {
        lemma_find_char_absent(t, c);
    }
    None
}

/// The bounds of the pieces of `cs[from..to]` split at `sep`, as positions in `cs`.
pub fn split_ranges(cs: &Vec<char>, from: usize, to: usize, sep: char) -> (r: Vec<(usize, usize)>)
    requires
        from <= to <= cs@.len(),
    ensures
        r@.len() == split(cs@.subrange(from as int, to as int), sep).len(),
        forall|k: int|
            0 <= k < r@.len() ==> {
                &&& from <= (#[trigger] r@[k]).0 <= r@[k].1 <= to
                &&& cs@.subrange(r@[k].0 as int, r@[k].1 as int) == split(
                    cs@.subrange(from as int, to as int),
                    sep,
                )[k]
            },
{
    let mut r: Vec<(usize, usize)> = Vec::new();
    let mut cur: usize = from;
    let mut i: usize = from;
    assert(cs@.subrange(from as int, from as int) =~= Seq::<char>::empty());
    while i < to
        invariant
            from <= cur <= i <= to <= cs@.len(),
            split(cs@.subrange(from as int, i as int), sep).len() == r@.len() + 1,
            forall|k: int|
                0 <= k < r@.len() ==> {
                    &&& from <= (#[trigger] r@[k]).0 <= r@[k].1 <= to
                    &&& cs@.subrange(r@[k].0 as int, r@[k].1 as int) == split(
                        cs@.subrange(from as int, i as int),
                        sep,
                    )[k]
                },
            split(cs@.subrange(from as int, i as int), sep).last() == cs@.subrange(
                cur as int,
                i as int,
            ),
        decreases to - i,
    {
        let ghost prev = split(cs@.subrange(from as int, i as int), sep);
        let ghost t = cs@.subrange(from as int, i + 1);
        assert(t.drop_last() =~= cs@.subrange(from as int, i as int));
        assert(t.last() == cs@[i as int]);
        if cs[i] == sep {
            r.push((cur, i));
            cur = i + 1;
            assert(split(t, sep) == prev.push(Seq::<char>::empty()));
            assert(cs@.subrange(cur as int, i + 1) =~= Seq::<char>::empty());
        } else {
            assert(split(t, sep) == prev.update(prev.len() - 1, prev.last().push(cs@[i as int])));
            assert(cs@.subrange(cur as int, i + 1) =~= cs@.subrange(cur as int, i as int).push(
                cs@[i as int],
            ));
        }
        i = i + 1;
    }
    r.push((cur, to));
    r
}

/// How `str::parse::<u64>` reads `cs[from..to]`.
pub fn parse_u64_in(cs: &Vec<char>, from: usize, to: usize) -> (r: Option<u64>)
    requires
        from <= to <= cs@.len(),
    ensures
        r == parse_u64(cs@.subrange(from as int, to as int)),
{
    let ghost s = cs@.subrange(from as int, to as int);
    let start: usize = if from < to && cs[from] == '+' {
        from + 1
    } else {
        from
    };
    let ghost d = cs@.subrange(start as int, to as int);
    assert(d =~= unsigned_digits(s));
    if start == to {
        return None;
    }
    let mut v: u64 = 0;
    let mut i: usize = start;
    assert(d.take(0) =~= Seq::<char>::empty());
    while i < to
        invariant
            start <= i <= to <= cs@.len(),
            s == cs@.subrange(from as int, to as int),
            d == cs@.subrange(start as int, to as int),
            d == unsigned_digits(s),
            all_digits(d.take(i - start)),
            v == decimal_value(d.take(i - start)),
        decreases to - i,
    {
        let c = cs[i];
        let ghost p = d.take(i - start + 1);
        assert(p.drop_last() =~= d.take(i - start));
        assert(p.last() == c);
        if !('0' <= c && c <= '9') {
            assert(!is_digit(d[i - start]));
            return None;
        }
        let dv: u32 = (c as u32) - ('0' as u32);
        assert(dv == digit_value(c));
        let next = match v.checked_mul(10) {
            Some(m) => m.checked_add(dv as u64),
            None => None,
        };
        match next {
            Some(n) => {
                v = n;
            },
            None => {
                proof {
                    lemma_decimal_prefix_le(d, i - start + 1);
                }
                return None;
            },
        }
        i = i + 1;
    }
    assert(d.take(to - start) =~= d);
    Some(v)
}

/// Whether `needle` occurs in `hay`.
pub fn contains_chars(hay: &Vec<char>, needle: &Vec<char>) -> (r: bool)
    ensures
        r == contains(hay@, needle@),
{
    let n = hay.len();
    let m = needle.len();
    if m > n {
        assert forall|i: int| !occurs_at(hay@, needle@, i) by {}
        return false;
    }
    let mut i: usize = 0;
    loop
        invariant
            n == hay@.len(),
            m == needle@.len(),
            m <= n,
            i <= n - m,
            forall|k: int| 0 <= k < i ==> !occurs_at(hay@, needle@, k),
        ensures
            forall|k: int| 0 <= k <= n - m ==> !occurs_at(hay@, needle@, k),
        decreases n - m - i,
    {
        if occurs_at_exec(hay, needle, i) {
            return true;
        }
        if i == n - m {
            break;
        }
        i = i + 1;
    }
    assert forall|k: int| !occurs_at(hay@, needle@, k) by {
        if 0 <= k <= n - m {
        }
    }
    false
}

/// Whether `needle` occurs in `hay` at position `at`.
pub fn occurs_at_exec(hay: &Vec<char>, needle: &Vec<char>, at: usize) -> (r: bool)
    ensures
        r == occurs_at(hay@, needle@, at as int),
{
    let n = hay.len();
    let m = needle.len();
    if at > n || m > n - at {
        return false;
    }
    let mut j: usize = 0;
    while j < m
        invariant
            n == hay@.len(),
            m == needle@.len(),
            at + m <= n,
            j <= m,
            forall|k: int| 0 <= k < j ==> hay@[at + k] == needle@[k],
        decreases m - j,
    {
        if hay[at + j] != needle[j] {
            assert(hay@.subrange(at as int, at + m)[j as int] != needle@[j as int]);
            return false;
        }
        j = j + 1;
    }
    assert(hay@.subrange(at as int, at + m) =~= needle@);
    true
}

/// Whether `s` begins with `prefix`.
pub fn starts_with_chars(s: &Vec<char>, prefix: &Vec<char>) -> (r: bool)
    ensures
        r == starts_with(s@, prefix@),
{
    let r = occurs_at_exec(s, prefix, 0);
    assert(s@.subrange(0, prefix@.len() as int) =~= s@.take(prefix@.len() as int));
    r
}

/// Whether `s` ends with `suffix`.
pub fn ends_with_chars(s: &Vec<char>, suffix: &Vec<char>) -> (r: bool)
    ensures
        r == ends_with(s@, suffix@),
{
    if suffix.len() > s.len() {
        return false;
    }
    let at = s.len() - suffix.len();
    let r = occurs_at_exec(s, suffix, at);
    assert(s@.subrange(at as int, s@.len() as int) =~= s@.skip(at as int));
    r
}

/// The characters `s[from..to]` as an owned string.
pub fn substring(s: &str, from: usize, to: usize) -> (r: String)
    requires
        from <= to <= s@.len(),
    ensures
        r@ == s@.subrange(from as int, to as int),
{
    String::from_str(s.substring_char(from, to))
}

/// The bounds `(lo, hi)` of `cs[from..to]` with every leading and trailing
/// `c` removed.
pub fn strip_bounds(cs: &Vec<char>, from: usize, to: usize, c: char) -> (r: (usize, usize))
    requires
        from <= to <= cs@.len(),
    ensures
        from <= r.0 <= r.1 <= to,
        cs@.subrange(r.0 as int, r.1 as int) == strip_both(cs@.subrange(from as int, to as int), c),
{
    let ghost s = cs@.subrange(from as int, to as int);
    let mut lo: usize = from;
    while lo < to && cs[lo] == c
        invariant
            from <= lo <= to <= cs@.len(),
            s == cs@.subrange(from as int, to as int),
            forall|i: int| 0 <= i < lo - from ==> #[trigger] s[i] == c,
        decreases to - lo,
    {
        lo = lo + 1;
    }
    proof {
        lemma_strip_start(s, c, lo - from);
    }
    let mut hi: usize = to;
    while hi > lo && cs[hi - 1] == c
        invariant
            from <= lo <= hi <= to <= cs@.len(),
            forall|i: int| hi <= i < to ==> #[trigger] cs@[i] == c,
        decreases hi,
    {
        hi = hi - 1;
    }
    proof {
        let u = s.skip(lo - from);
        assert(u =~= cs@.subrange(lo as int, to as int));
        assert forall|i: int| hi - lo <= i < u.len() implies #[trigger] u[i] == c by {
            assert(u[i] == cs@[lo + i]);
        }
        if hi > lo {
            assert(u[hi - lo - 1] == cs@[hi - 1]);
        }
        lemma_strip_end(u, c, hi - lo);
        assert(u.take(hi - lo) =~= cs@.subrange(lo as int, hi as int));
    }
    (lo, hi)
}

/// The end of the non-white prefix of `cs[from..]`.
pub fn non_white_end(cs: &Vec<char>, from: usize) -> (r: usize)
    requires
        from <= cs@.len(),
    ensures
        from <= r <= cs@.len(),
        cs@.subrange(from as int, r as int) == leading_non_white(cs@.skip(from as int)),
{
    let n = cs.len();
    let mut i: usize = from;
    while i < n && !is_whitespace_char(cs[i])
        invariant
            n == cs@.len(),
            from <= i <= n,
            forall|k: int| from <= k < i ==> !is_white_space(#[trigger] cs@[k]),
        decreases n - i,
    {
        i = i + 1;
    }
    proof {
        let t = cs@.skip(from as int);
        assert forall|k: int| 0 <= k < i - from implies !is_white_space(#[trigger] t[k]) by {
            assert(t[k] == cs@[from + k]);
        }
        if i < n {
            assert(t[i - from] == cs@[i as int]);
        }
        lemma_leading_non_white(t, i - from);
        assert(t.take(i - from) =~= cs@.subrange(from as int, i as int));
    }
    i
}

/// Whether two strings hold the same characters.
pub fn same_text(a: &str, b: &str) -> (r: bool)
    ensures
        r == (a@ == b@),
{
    let x = chars_of(a);
    let y = chars_of(b);
    if x.len() != y.len() {
        return false;
    }
    let r = occurs_at_exec(&x, &y, 0);
    assert(x@.subrange(0, y@.len() as int) =~= x@);
    r
}

/// Appends the decimal digit `d` to `s`.
pub fn append_digit(s: &mut String, d: u64)
    requires
        d < 10,
    ensures
        final(s)@ == old(s)@.push(digit_char(d as nat)),
{
    let digits = "0123456789";
    proof {
        reveal_strlit("0123456789");
        assert(digits@ =~= seq!['0', '1', '2', '3', '4', '5', '6', '7', '8', '9']);
    }
    let one = digits.substring_char(d as usize, d as usize + 1);
    assert(one@ =~= seq![digit_char(d as nat)]);
    s.append(one);
}

/// Appends the decimal text of `n` to `s`.
pub fn append_decimal(s: &mut String, n: u64)
    ensures
        final(s)@ == old(s)@ + decimal_text(n as nat),
    decreases n,
{
    if n >= 10 {
        append_decimal(s, n / 10);
        append_digit(s, n % 10);
        assert(old(s)@ + decimal_text(n as nat) =~= old(s)@ + decimal_text((n / 10) as nat) + seq![
            digit_char((n % 10) as nat),
        ]);
    } else {
        append_digit(s, n);
        assert(old(s)@ + decimal_text(n as nat) =~= old(s)@.push(digit_char(n as nat)));
    }
}

} // verus!
