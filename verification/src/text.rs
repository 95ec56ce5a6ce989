//! Verified text utilities: case folding, equality, prefix tests,
//! whitespace tokenization, and decimal conversion for identifiers.

use vstd::prelude::*;
use vstd::string::StrSliceExecFns;
use vstd::string::StringExecFns;

verus! {

/// The character sequence that `str::to_lowercase` produces for a given
/// character sequence. The full Unicode folding table is far too large to
/// state here, so the result is only given a name; it is a function of the
/// input characters alone.
pub uninterp spec fn lower_of(s: Seq<char>) -> Seq<char>;

/// Relies on `str::to_lowercase`: the result depends on the input characters
/// alone, and an empty string folds to an empty string.
#[verifier::external_body]
pub(crate) fn to_lowercase(s: &str) -> (r: String)
    ensures
        r@ == lower_of(s@),
        s@.len() == 0 ==> r@.len() == 0,
{
    s.to_lowercase()
}

/// Character-by-character string equality, proved against the string views.
pub fn str_eq(a: &str, b: &str) -> (r: bool)
    ensures
        r == (a@ == b@),
{
    let alen = a.unicode_len();
    let blen = b.unicode_len();
    if alen != blen {
        return false;
    }
    let mut i: usize = 0;
    while i < alen
        invariant
            i <= alen,
            alen == a@.len(),
            alen == b@.len(),
            forall|k: int| 0 <= k < i ==> a@[k] == b@[k],
        decreases alen - i,
    {
        if a.get_char(i) != b.get_char(i) {
            return false;
        }
        i = i + 1;
    }
    proof {
        assert(a@ =~= b@);
    }
    true
}

/// Character-by-character prefix test, proved against the string views.
pub fn str_is_prefix(prefix: &str, s: &str) -> (r: bool)
    ensures
        r == prefix@.is_prefix_of(s@),
{
    let plen = prefix.unicode_len();
    let slen = s.unicode_len();
    if plen > slen {
        return false;
    }
    let mut i: usize = 0;
    while i < plen
        invariant
            i <= plen,
            plen == prefix@.len(),
            slen == s@.len(),
            plen <= slen,
            forall|k: int| 0 <= k < i ==> prefix@[k] == s@[k],
        decreases plen - i,
    {
        if prefix.get_char(i) != s.get_char(i) {
            assert(s@.subrange(0, plen as int)[i as int] == s@[i as int]);
            return false;
        }
        i = i + 1;
    }
    proof {
        assert(prefix@ =~= s@.subrange(0, plen as int));
    }
    true
}

/// Length of the maximal run of non-space characters at the front of `s`.
pub open spec fn token_len(s: Seq<char>) -> int
    decreases s.len(),
{
    if s.len() == 0 || s[0] == ' ' {
        0
    } else {
        1 + token_len(s.drop_first())
    }
}

proof fn lemma_token_len_bounds(s: Seq<char>)
    ensures
        0 <= token_len(s) <= s.len(),
    decreases s.len(),
{
    if s.len() > 0 && s[0] != ' ' {
        lemma_token_len_bounds(s.drop_first());
    }
}

/// When the first `m` characters are non-spaces and position `m` is the end
/// or a space, the front token is exactly `m` characters long.
proof fn lemma_token_len_run(s: Seq<char>, m: int)
    requires
        0 <= m <= s.len(),
        forall|k: int| 0 <= k < m ==> s[k] != ' ',
        m == s.len() || s[m] == ' ',
    ensures
        token_len(s) == m,
    decreases m,
{
    if m > 0 {
        lemma_token_len_run(s.drop_first(), m - 1);
    }
}

/// Whitespace tokenization: the maximal nonempty runs of non-space
/// characters of `s`, in order. Empty tokens never occur.
pub open spec fn split_spec(s: Seq<char>) -> Seq<Seq<char>>
    decreases s.len(),
    via split_spec_decreases
{
    if s.len() == 0 {
        Seq::empty()
    } else if s[0] == ' ' {
        split_spec(s.skip(1))
    } else {
        seq![s.take(token_len(s))] + split_spec(s.skip(token_len(s)))
    }
}

#[via_fn]
proof fn split_spec_decreases(s: Seq<char>) {
    if s.len() > 0 && s[0] != ' ' {
        lemma_token_len_bounds(s.drop_first());
        assert(token_len(s) >= 1);
    }
}

/// A token list never holds more tokens than the text has characters.
pub proof fn lemma_split_spec_len(s: Seq<char>)
    ensures
        split_spec(s).len() <= s.len(),
    decreases s.len(),
{
    if s.len() == 0 {
    } else if s[0] == ' ' {
        lemma_split_spec_len(s.skip(1));
    } else {
        lemma_token_len_bounds(s);
        lemma_token_len_bounds(s.drop_first());
        assert(token_len(s) >= 1);
        lemma_split_spec_len(s.skip(token_len(s)));
    }
}

/// Splits `s` on spaces into its nonempty tokens, in order.
#[verifier::loop_isolation(false)]
pub fn split_spaces(s: &str) -> (r: Vec<String>)
    ensures
        r.deep_view() == split_spec(s@),
{
    let n = s.unicode_len();
    let mut out: Vec<String> = Vec::new();
    let mut i: usize = 0;
    proof {
        assert(s@.skip(0) =~= s@);
        assert(out.deep_view() =~= Seq::<Seq<char>>::empty());
    }
    while i < n
        invariant
            i <= n,
            n == s@.len(),
            out.deep_view() + split_spec(s@.skip(i as int)) == split_spec(s@),
        decreases n - i,
    {
        if s.get_char(i) == ' ' {
            proof {
                assert(s@.skip(i as int)[0] == ' ');
                assert(s@.skip(i as int).skip(1) =~= s@.skip(i as int + 1));
            }
            i = i + 1;
        } else {
            let mut j: usize = i + 1;
            while j < n && s.get_char(j) != ' '
                invariant
                    i < j <= n,
                    forall|k: int| i <= k < j ==> s@[k] != ' ',
                decreases n - j,
            {
                j = j + 1;
            }
            let ghost rest = s@.skip(i as int);
            proof {
                assert(forall|k: int| 0 <= k < j - i ==> rest[k] == s@[i + k]);
                lemma_token_len_run(rest, j - i);
                assert(rest.take(j - i) =~= s@.subrange(i as int, j as int));
                assert(rest.skip(j - i) =~= s@.skip(j as int));
            }
            let tok = s.substring_char(i, j).to_owned();
            let ghost before = out.deep_view();
            out.push(tok);
            proof {
                assert(out.deep_view() =~= before.push(s@.subrange(i as int, j as int)));
                assert(before.push(s@.subrange(i as int, j as int)) =~= before + seq![
                    s@.subrange(i as int, j as int),
                ]);
                assert(split_spec(rest) == seq![rest.take(token_len(rest))] + split_spec(
                    rest.skip(token_len(rest)),
                ));
                assert(out.deep_view() + split_spec(s@.skip(j as int)) =~= before + split_spec(
                    rest,
                ));
            }
            i = j;
        }
    }
    proof {
        assert(s@.skip(n as int) =~= Seq::<char>::empty());
        assert(out.deep_view() + split_spec(s@.skip(n as int)) =~= out.deep_view());
    }
    out
}

/// Whether `c` is a decimal digit.
pub open spec fn is_digit(c: char) -> bool {
    48 <= c as int <= 57
}

/// The numeric value of a digit character.
pub open spec fn digit_val(c: char) -> int {
    c as int - 48
}

/// Whether every character of `s` is a decimal digit.
pub open spec fn all_digits(s: Seq<char>) -> bool {
    forall|i: int| 0 <= i < s.len() ==> is_digit(#[trigger] s[i])
}

/// The number that a digit string denotes.
pub open spec fn digits_val(s: Seq<char>) -> int
    decreases s.len(),
{
    if s.len() == 0 {
        0
    } else {
        10 * digits_val(s.drop_last()) + digit_val(s.last())
    }
}

/// What a character sequence denotes as a (signed) decimal integer: an
/// optional leading minus sign followed by at least one digit. Anything else
/// denotes nothing.
pub open spec fn parsed_int(s: Seq<char>) -> Option<int> {
    if s.len() > 0 && s[0] == '-' {
        if s.len() >= 2 && all_digits(s.skip(1)) {
            Some(-digits_val(s.skip(1)))
        } else {
            None
        }
    } else if s.len() > 0 && all_digits(s) {
        Some(digits_val(s))
    } else {
        None
    }
}

proof fn lemma_digits_val_nonneg(s: Seq<char>)
    requires
        all_digits(s),
    ensures
        digits_val(s) >= 0,
    decreases s.len(),
{
    if s.len() > 0 {
        lemma_digits_val_nonneg(s.drop_last());
    }
}

/// Reading one more digit multiplies the prefix value by ten and adds it.
proof fn lemma_digits_val_take_step(s: Seq<char>, i: int)
    requires
        0 <= i < s.len(),
    ensures
        digits_val(s.take(i + 1)) == 10 * digits_val(s.take(i)) + digit_val(s[i]),
{
    assert(s.take(i + 1).drop_last() =~= s.take(i));
    assert(s.take(i + 1).last() == s[i]);
}

/// A digit string denotes at least as much as any of its prefixes.
proof fn lemma_digits_val_prefix(s: Seq<char>, m: int)
    requires
        all_digits(s),
        0 <= m <= s.len(),
    ensures
        digits_val(s) >= digits_val(s.take(m)),
    decreases s.len() - m,
{
    if m == s.len() {
        assert(s.take(m) =~= s);
    } else {
        lemma_digits_val_take_step(s, m);
        lemma_digits_val_nonneg(s.take(m));
        lemma_digits_val_prefix(s, m + 1);
    }
}

/// What parsing a character sequence as an `i64` yields: the denoted value
/// when there is one and it fits, nothing otherwise.
pub open spec fn parsed_i64(s: Seq<char>) -> Option<i64> {
    match parsed_int(s) {
        Some(v) => if i64::MIN <= v <= i64::MAX {
            Some(v as i64)
        } else {
            None
        },
        None => None,
    }
}

/// Parses a decimal integer: an optional minus sign followed by one or more
/// digits. Returns `None` for any other shape and for values outside the
/// `i64` range.
#[verifier::loop_isolation(false)]
pub fn parse_i64(s: &str) -> (r: Option<i64>)
    ensures
        r == parsed_i64(s@),
{
    let n = s.unicode_len();
    if n == 0 {
        return None;
    }
    let neg = s.get_char(0) == '-';
    let start: usize = if neg {
        1
    } else {
        0
    };
    if start == n {
        return None;
    }
    let limit: u64 = if neg {
        9223372036854775808u64
    } else {
        9223372036854775807u64
    };
    let ghost digits = s@.skip(start as int);
    proof {
        assert(digits.take(0) =~= Seq::<char>::empty());
        assert(s@.skip(0) =~= s@);
    }
    let mut acc: u64 = 0;
    let mut i: usize = start;
    while i < n
        invariant
            start <= i <= n,
            n == s@.len(),
            digits == s@.skip(start as int),
            all_digits(digits.take(i - start)),
            acc as int == digits_val(digits.take(i - start)),
            acc <= limit,
        decreases n - i,
    {
        let c = s.get_char(i);
        let cv = c as u32;
        proof {
            assert(digits[i - start] == s@[i as int]);
        }
        if cv < 48 || cv > 57 {
            proof {
                assert(!is_digit(digits[i - start]));
                assert(parsed_int(s@) is None);
            }
            return None;
        }
        let d = (cv - 48) as u64;
        proof {
            lemma_digits_val_take_step(digits, i - start);
            assert(all_digits(digits.take(i - start + 1)));
        }
        if acc > (limit - d) / 10 {
            proof {
                assert(acc as int * 10 + d as int > limit as int) by (nonlinear_arith)
                    requires
                        acc as int > ((limit - d) as int) / 10,
                        0 <= d <= 9,
                        d <= limit,
                ;
                if parsed_int(s@) is Some {
                    assert(all_digits(digits));
                    assert(digits.take(i - start + 1) =~= digits.take(i - start + 1));
                    lemma_digits_val_prefix(digits, i - start + 1);
                    assert(digits_val(digits) > limit as int);
                }
            }
            return None;
        }
        acc = acc * 10 + d;
        i = i + 1;
    }
    proof {
        assert(digits.take(n - start) =~= digits);
        assert(digits.len() >= 1);
        lemma_digits_val_nonneg(digits);
    }
    if neg {
        if acc == 9223372036854775808u64 {
            Some(i64::MIN)
        } else {
            Some(-(acc as i64))
        }
    } else {
        Some(acc as i64)
    }
}

/// The digit character for a value in `0 ..= 9`.
pub open spec fn spec_digit_char(d: int) -> char {
    if d == 0 {
        '0'
    } else if d == 1 {
        '1'
    } else if d == 2 {
        '2'
    } else if d == 3 {
        '3'
    } else if d == 4 {
        '4'
    } else if d == 5 {
        '5'
    } else if d == 6 {
        '6'
    } else if d == 7 {
        '7'
    } else if d == 8 {
        '8'
    } else {
        '9'
    }
}

/// The decimal digit string of a non-negative number, most significant
/// digit first, without leading zeroes (except for the number zero itself).
pub open spec fn dec_digits(n: nat) -> Seq<char>
    decreases n,
{
    if n < 10 {
        seq![spec_digit_char(n as int)]
    } else {
        dec_digits(n / 10).push(spec_digit_char((n % 10) as int))
    }
}

/// The decimal rendering of a signed number: a minus sign followed by the
/// digits of its magnitude when negative, the bare digits otherwise.
pub open spec fn dec_int(v: int) -> Seq<char> {
    if v < 0 {
        seq!['-'] + dec_digits((-v) as nat)
    } else {
        dec_digits(v as nat)
    }
}

/// The one-character string for a digit value.
fn digit_str(d: u64) -> (r: &'static str)
    requires
        d < 10,
    ensures
        r@ == seq![spec_digit_char(d as int)],
{
    proof {
        reveal_strlit("0");
        reveal_strlit("1");
        reveal_strlit("2");
        reveal_strlit("3");
        reveal_strlit("4");
        reveal_strlit("5");
        reveal_strlit("6");
        reveal_strlit("7");
        reveal_strlit("8");
        reveal_strlit("9");
    }
    let r: &'static str = if d == 0 {
        "0"
    } else if d == 1 {
        "1"
    } else if d == 2 {
        "2"
    } else if d == 3 {
        "3"
    } else if d == 4 {
        "4"
    } else if d == 5 {
        "5"
    } else if d == 6 {
        "6"
    } else if d == 7 {
        "7"
    } else if d == 8 {
        "8"
    } else {
        "9"
    };
    proof {
        assert(r@ =~= seq![spec_digit_char(d as int)]);
    }
    r
}

/// The decimal digit string of an unsigned number.
fn u64_dec(n: u64) -> (r: String)
    ensures
        r@ == dec_digits(n as nat),
    decreases n,
{
    if n < 10 {
        digit_str(n).to_owned()
    } else {
        let mut s = u64_dec(n / 10);
        s.append(digit_str(n % 10));
        proof {
            assert(s@ =~= dec_digits((n / 10) as nat).push(spec_digit_char((n % 10) as int)));
        }
        s
    }
}

/// Renders a signed number in decimal, exactly as [`dec_int`] states.
pub fn i64_to_string(v: i64) -> (r: String)
    ensures
        r@ == dec_int(v as int),
{
    if v < 0 {
        let mag: u64 = if v == i64::MIN {
            9223372036854775808u64
        } else {
            (-v) as u64
        };
        let digits = u64_dec(mag);
        let mut s = String::from_str("-");
        s.append(digits.as_str());
        proof {
            reveal_strlit("-");
            assert(s@ =~= seq!['-'] + dec_digits(mag as nat));
        }
        s
    } else {
        u64_dec(v as u64)
    }
}

} // verus!
