//! Splitting of text into lines, whitespace-delimited words and
//! separator-delimited segments, and decimal numerals, with exact
//! specifications over character sequences.

use vstd::prelude::*;
use vstd::string::*;

verus! {

/// Whitespace that separates tokens within a keymap line.
pub open spec fn is_space(c: char) -> bool {
    c == ' ' || c == '\t' || c == '\r'
}

/// The segments of `s` delimited by `sep`, empty segments kept: always one
/// more segment than there are occurrences of `sep` in `s`.
pub open spec fn split_at(s: Seq<char>, sep: char) -> Seq<Seq<char>>
    decreases s.len(),
{
    if s.len() == 0 {
        seq![Seq::<char>::empty()]
    } else {
        let rest = split_at(s.drop_last(), sep);
        if s.last() == sep {
            rest.push(Seq::<char>::empty())
        } else {
            rest.update(rest.len() - 1, rest.last().push(s.last()))
        }
    }
}

pub proof fn lemma_split_at_len(s: Seq<char>, sep: char)
    ensures
        split_at(s, sep).len() >= 1,
    decreases s.len(),
{
    if s.len() > 0 {
        lemma_split_at_len(s.drop_last(), sep);
    }
}

/// The maximal runs of non-whitespace characters of `s`, in order.
pub open spec fn words_of(s: Seq<char>) -> Seq<Seq<char>>
    decreases s.len(),
{
    if s.len() == 0 {
        Seq::<Seq<char>>::empty()
    } else if is_space(s.last()) {
        words_of(s.drop_last())
    } else if s.len() == 1 || is_space(s[s.len() - 2]) {
        words_of(s.drop_last()).push(seq![s.last()])
    } else {
        let rest = words_of(s.drop_last());
        rest.update(rest.len() - 1, rest.last().push(s.last()))
    }
}

/// The lines of `s`: the segments delimited by newlines, except that text
/// ending in a newline has no final empty line.
pub open spec fn lines_of(s: Seq<char>) -> Seq<Seq<char>> {
    let parts = split_at(s, '\n');
    if parts.last().len() == 0 {
        parts.drop_last()
    } else {
        parts
    }
}

/// An ASCII decimal digit.
pub open spec fn is_digit(c: char) -> bool {
    '0' <= c && c <= '9'
}

/// The numeric value of a decimal digit.
pub open spec fn digit_val(c: char) -> int {
    c as u32 - 48
}

/// The value of `s` read as a decimal numeral.
pub open spec fn numeral_val(s: Seq<char>) -> int
    decreases s.len(),
{
    if s.len() == 0 {
        0
    } else {
        10 * numeral_val(s.drop_last()) + digit_val(s.last())
    }
}

/// A non-empty string of decimal digits.
pub open spec fn is_numeral(s: Seq<char>) -> bool {
    s.len() > 0 && forall|i: int| 0 <= i < s.len() ==> is_digit(#[trigger] s[i])
}

/// A decimal numeral whose value fits in eight bits.
pub open spec fn is_u8_numeral(s: Seq<char>) -> bool {
    is_numeral(s) && numeral_val(s) <= 255
}

pub proof fn lemma_numeral_nonneg(s: Seq<char>)
    requires
        forall|i: int| 0 <= i < s.len() ==> is_digit(#[trigger] s[i]),
    ensures
        numeral_val(s) >= 0,
    decreases s.len(),
{
    if s.len() > 0 {
        lemma_numeral_nonneg(s.drop_last());
    }
}

/// A numeral's value is at least the value of any of its prefixes.
pub proof fn lemma_numeral_prefix_le(s: Seq<char>, j: int)
    requires
        0 <= j <= s.len(),
        forall|i: int| 0 <= i < s.len() ==> is_digit(#[trigger] s[i]),
    ensures
        numeral_val(s.take(j)) <= numeral_val(s),
    decreases s.len(),
{
    if j == s.len() {
        assert(s.take(j) =~= s);
    } else {
        assert(forall|i: int|
            0 <= i < s.drop_last().len() ==> is_digit(#[trigger] s.drop_last()[i]));
        lemma_numeral_prefix_le(s.drop_last(), j);
        lemma_numeral_nonneg(s.drop_last());
        assert(s.take(j) =~= s.drop_last().take(j));
    }
}

/// Reads `s` as a decimal numeral with a value below 256; yields nothing on
/// an empty string, a non-digit character, or a value that does not fit.
pub fn parse_u8(s: &str) -> (r: Option<u8>)
    ensures
        r is Some <==> is_u8_numeral(s@),
        r matches Some(v) ==> v as int == numeral_val(s@),
{
    let n = s.unicode_len();
    if n == 0 {
        return None;
    }
    let mut acc: u32 = 0;
    let mut i: usize = 0;
    proof {
        assert(s@.take(0) =~= Seq::<char>::empty());
    }
    while i < n
        invariant
            i <= n,
            n == s@.len(),
            forall|k: int| 0 <= k < i ==> is_digit(#[trigger] s@[k]),
            acc as int == numeral_val(s@.take(i as int)),
            acc <= 255,
        decreases n - i,
    {
        proof {
            assert(s@.take(i + 1).drop_last() =~= s@.take(i as int));
            assert(s@.take(i + 1).last() == s@[i as int]);
        }
        let c = s.get_char(i);
        if !('0' <= c && c <= '9') {
            return None;
        }
        let d: u32 = c as u32 - 48;
        let v: u32 = acc * 10 + d;
        if v > 255 {
            proof {
                if is_numeral(s@) {
                    lemma_numeral_prefix_le(s@, i + 1);
                }
            }
            return None;
        }
        acc = v;
        i = i + 1;
    }
    proof {
        assert(s@.take(n as int) =~= s@);
    }
    Some(acc as u8)
}

/// The decimal numeral of `n`, most significant digit first, without
/// leading zeroes.
pub open spec fn decimal_of(n: int) -> Seq<char>
    decreases n,
    when n >= 0
{
    if 0 <= n < 10 {
        seq![((48 + n) as u8) as char]
    } else if n >= 10 {
        decimal_of(n / 10).push(((48 + n % 10) as u8) as char)
    } else {
        Seq::<char>::empty()
    }
}


/// A decimal rendering reads back as the number it was made from.
pub proof fn lemma_decimal_of_val(n: int)
    requires
        n >= 0,
    ensures
        is_numeral(decimal_of(n)),
        numeral_val(decimal_of(n)) == n,
    decreases n,
{
    if n < 10 {
        let c = ((48 + n) as u8) as char;
        assert(decimal_of(n) == seq![c]);
        assert(seq![c].len() == 1);
        assert(seq![c].last() == c);
        assert(seq![c].drop_last() =~= Seq::<char>::empty());
        assert(numeral_val(Seq::<char>::empty()) == 0);
        assert(numeral_val(seq![c]) == digit_val(c));
        assert(digit_val(c) == n);
    } else {
        lemma_decimal_of_val(n / 10);
        let c = ((48 + n % 10) as u8) as char;
        let prefix = decimal_of(n / 10);
        assert(decimal_of(n) == prefix.push(c));
        assert(prefix.push(c).len() == prefix.len() + 1);
        assert(prefix.push(c).last() == c);
        assert(prefix.push(c).drop_last() =~= prefix);
        assert(numeral_val(prefix.push(c)) == 10 * numeral_val(prefix) + digit_val(c));
        assert(digit_val(c) == n % 10);
        assert(10 * (n / 10) + n % 10 == n);
        assert(forall|i: int|
            0 <= i < prefix.push(c).len() ==> is_digit(#[trigger] prefix.push(c)[i]));
    }
}

fn digit_str(d: u8) -> (r: &'static str)
    requires
        d < 10,
    ensures
        r@ == decimal_of(d as int),
{
    let r: &'static str = if d == 0 {
        "0"
    } else if d == 1 {
        "1"
    } else if d == 2 {
        "2"
    } else if d == 3 {
        "3"
    } else if d == 4 {
        "4"
    } else if d == 5 {
        "5"
    } else if d == 6 {
        "6"
    } else if d == 7 {
        "7"
    } else if d == 8 {
        "8"
    } else {
        "9"
    };
    proof {
        reveal_strlit("0");
        reveal_strlit("1");
        reveal_strlit("2");
        reveal_strlit("3");
        reveal_strlit("4");
        reveal_strlit("5");
        reveal_strlit("6");
        reveal_strlit("7");
        reveal_strlit("8");
        reveal_strlit("9");
        assert(r@ =~= decimal_of(d as int));
    }
    r
}

/// Renders `n` in decimal.
pub fn decimal_string(n: u64) -> (r: String)
    ensures
        r@ == decimal_of(n as int),
    decreases n,
{
    let d: u8 = (n % 10) as u8;
    let ds = digit_str(d);
    if n < 10 {
        String::from_str(ds)
    } else {
        let mut s = decimal_string(n / 10);
        s.append(ds);
        proof {
            assert(s@ =~= decimal_of(n as int));
        }
        s
    }
}

/// Splits `s` on every occurrence of `sep`, keeping empty segments.
pub fn split_on(s: &str, sep: char) -> (r: Vec<String>)
    ensures
        r.deep_view() == split_at(s@, sep),
{
    let n = s.unicode_len();
    let mut r: Vec<String> = Vec::new();
    let mut start: usize = 0;
    let mut i: usize = 0;
    proof {
        assert(s@.take(0) =~= Seq::<char>::empty());
        assert(r.deep_view().push(s@.subrange(0, 0)) =~~= split_at(s@.take(0), sep));
    }
    while i < n
        invariant
            start <= i <= n,
            n == s@.len(),
            r.deep_view().push(s@.subrange(start as int, i as int)) == split_at(
                s@.take(i as int),
                sep,
            ),
        decreases n - i,
    {
        proof {
            assert(s@.take(i + 1).drop_last() =~= s@.take(i as int));
            assert(s@.take(i + 1).last() == s@[i as int]);
        }
        let c = s.get_char(i);
        if c == sep {
            let ghost old_dv = r.deep_view();
            let tok = String::from_str(s.substring_char(start, i));
            r.push(tok);
            proof {
                assert(r.deep_view() =~~= old_dv.push(tok@));
                assert(r.deep_view().push(s@.subrange(i + 1, i + 1)) =~~= split_at(
                    s@.take(i + 1),
                    sep,
                ));
            }
            start = i + 1;
        } else {
            proof {
                let rest = split_at(s@.take(i as int), sep);
                assert(rest.last() == s@.subrange(start as int, i as int));
                assert(s@.subrange(start as int, i as int).push(s@[i as int]) =~= s@.subrange(
                    start as int,
                    i + 1,
                ));
                assert(r.deep_view().push(s@.subrange(start as int, i + 1)) =~~= split_at(
                    s@.take(i + 1),
                    sep,
                ));
            }
        }
        i = i + 1;
    }
    let ghost old_dv = r.deep_view();
    let tok = String::from_str(s.substring_char(start, n));
    r.push(tok);
    proof {
        assert(s@.take(n as int) =~= s@);
        assert(r.deep_view() =~~= old_dv.push(tok@));
        assert(r.deep_view() =~~= split_at(s@, sep));
    }
    r
}

/// Splits `s` into its lines.
pub fn split_lines(s: &str) -> (r: Vec<String>)
    ensures
        r.deep_view() == lines_of(s@),
{
    let mut parts = split_on(s, '\n');
    proof {
        lemma_split_at_len(s@, '\n');
    }
    let m = parts.len();
    if parts[m - 1].as_str().unicode_len() == 0 {
        let ghost old_dv = parts.deep_view();
        parts.pop();
        proof {
            assert(parts.deep_view() =~~= old_dv.drop_last());
        }
    }
    parts
}

/// Splits `s` into its maximal whitespace-free words.
pub fn words(s: &str) -> (r: Vec<String>)
    ensures
        r.deep_view() == words_of(s@),
{
    let n = s.unicode_len();
    let mut r: Vec<String> = Vec::new();
    let mut start: usize = 0;
    let mut have_tok: bool = false;
    let mut i: usize = 0;
    proof {
        assert(s@.take(0) =~= Seq::<char>::empty());
        assert(r.deep_view() =~~= words_of(s@.take(0)));
    }
    while i < n
        invariant
            start <= i <= n,
            n == s@.len(),
            have_tok ==> i >= 1 && start < i && !is_space(s@[i - 1]),
            !have_tok ==> i == 0 || is_space(s@[i - 1]),
            have_tok ==> r.deep_view().push(s@.subrange(start as int, i as int)) == words_of(
                s@.take(i as int),
            ),
            !have_tok ==> r.deep_view() == words_of(s@.take(i as int)),
        decreases n - i,
    {
        proof {
            assert(s@.take(i + 1).drop_last() =~= s@.take(i as int));
            assert(s@.take(i + 1).last() == s@[i as int]);
        }
        let c = s.get_char(i);
        let space = c == ' ' || c == '\t' || c == '\r';
        if space {
            if have_tok {
                let ghost old_dv = r.deep_view();
                let tok = String::from_str(s.substring_char(start, i));
                r.push(tok);
                have_tok = false;
                proof {
                    assert(r.deep_view() =~~= old_dv.push(tok@));
                }
            }
        } else {
            if !have_tok {
                start = i;
                have_tok = true;
                proof {
                    assert(s@.subrange(i as int, i + 1) =~= seq![s@[i as int]]);
                    assert(r.deep_view().push(s@.subrange(i as int, i + 1)) =~~= words_of(
                        s@.take(i + 1),
                    ));
                }
            } else {
                proof {
                    let rest = words_of(s@.take(i as int));
                    assert(rest.last() == s@.subrange(start as int, i as int));
                    assert(s@.subrange(start as int, i as int).push(s@[i as int]) =~= s@.subrange(
                        start as int,
                        i + 1,
                    ));
                    assert(r.deep_view().push(s@.subrange(start as int, i + 1)) =~~= words_of(
                        s@.take(i + 1),
                    ));
                }
            }
        }
        i = i + 1;
    }
    proof {
        assert(s@.take(n as int) =~= s@);
    }
    if have_tok {
        let ghost old_dv = r.deep_view();
        let tok = String::from_str(s.substring_char(start, n));
        r.push(tok);
        proof {
            assert(r.deep_view() =~~= old_dv.push(tok@));
        }
    }
    r
}

} // verus!
