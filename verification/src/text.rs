//! Text primitives of the wire protocol: words separated by ASCII whitespace,
//! and unsigned decimal numbers.
use vstd::prelude::*;

verus! {

/// The five ASCII whitespace characters: space, tab, line feed, form feed
/// and carriage return.
pub open spec fn is_ascii_whitespace(c: char) -> bool {
    c == ' ' || c == '\t' || c == '\n' || c == '\x0C' || c == '\r'
}

/// Number of characters before the first ASCII whitespace of `s` (or the end of `s`).
pub open spec fn leading_word_len(s: Seq<char>) -> nat
    decreases s.len(),
{
    if s.len() == 0 || is_ascii_whitespace(s[0]) {
        0
    } else {
        1 + leading_word_len(s.drop_first())
    }
}

pub proof fn lemma_leading_word_len_bounds(s: Seq<char>)
    ensures
        leading_word_len(s) <= s.len(),
        s.len() > 0 && !is_ascii_whitespace(s[0]) ==> leading_word_len(s) >= 1,
    decreases s.len(),
{
    if s.len() > 0 && !is_ascii_whitespace(s[0]) {
        lemma_leading_word_len_bounds(s.drop_first());
    }
}

/// The words of `s`: its maximal runs of characters that are not ASCII
/// whitespace, in the order in which they occur.
pub open spec fn words(s: Seq<char>) -> Seq<Seq<char>>
    decreases s.len(),
{
    if s.len() == 0 {
        seq![]
    } else if is_ascii_whitespace(s[0]) {
        words(s.drop_first())
    } else {
        proof {
            lemma_leading_word_len_bounds(s);
        }
        let n = leading_word_len(s);
        seq![s.take(n as int)] + words(s.skip(n as int))
    }
}

/// A single word: non-empty and free of ASCII whitespace.
pub open spec fn is_token(s: Seq<char>) -> bool {
    s.len() > 0 && forall|i: int| 0 <= i < s.len() ==> !is_ascii_whitespace(#[trigger] s[i])
}

/// The character views of a sequence of strings.
pub open spec fn string_views(v: Seq<String>) -> Seq<Seq<char>> {
    v.map_values(|w: String| w@)
}

pub fn is_ascii_whitespace_char(c: char) -> (res: bool)
    ensures
        res == is_ascii_whitespace(c),
        res == (c == ' ' || c == '\t' || c == '\n' || c == '\x0C' || c == '\r'),
{
    c == ' ' || c == '\t' || c == '\n' || c == '\x0C' || c == '\r'
}

/// A run of `k >= 1` non-whitespace characters at the start of `t`, followed by
/// whitespace or the end of `t`, is the first word of `t`.
pub proof fn lemma_leading_word(t: Seq<char>, k: int)
    requires
        1 <= k <= t.len(),
        forall|i: int| 0 <= i < k ==> !is_ascii_whitespace(#[trigger] t[i]),
        k == t.len() || is_ascii_whitespace(t[k]),
    ensures
        leading_word_len(t) == k,
        words(t) == seq![t.take(k)] + words(t.skip(k)),
    decreases k,
{
    let u = t.drop_first();
    if k == 1 {
        if u.len() > 0 {
            assert(u[0] == t[1]);
        }
        assert(leading_word_len(u) == 0);
    } else {
        assert forall|i: int| 0 <= i < k - 1 implies !is_ascii_whitespace(#[trigger] u[i]) by {
            assert(u[i] == t[i + 1]);
        }
        if k < t.len() {
            assert(u[k - 1] == t[k]);
        }
        lemma_leading_word(u, k - 1);
    }
}

/// Whitespace at the start of `t` does not change its words.
pub proof fn lemma_words_skip_whitespace(t: Seq<char>)
    requires
        t.len() > 0,
        is_ascii_whitespace(t[0]),
    ensures
        words(t) == words(t.drop_first()),
{
}

/// The words of a token followed by whitespace and more text.
pub proof fn lemma_words_token_then(a: Seq<char>, sep: char, rest: Seq<char>)
    requires
        is_token(a),
        is_ascii_whitespace(sep),
    ensures
        words(a + seq![sep] + rest) == seq![a] + words(rest),
{
    let t = a + seq![sep] + rest;
    assert forall|i: int| 0 <= i < a.len() implies !is_ascii_whitespace(#[trigger] t[i]) by {
        assert(t[i] == a[i]);
    }
    assert(t[a.len() as int] == sep);
    lemma_leading_word(t, a.len() as int);
    assert(t.take(a.len() as int) =~= a);
    let s = t.skip(a.len() as int);
    assert(s =~= seq![sep] + rest);
    lemma_words_skip_whitespace(s);
    assert(s.drop_first() =~= rest);
}

/// Whether every character of `s` is ASCII whitespace (so also when `s` is empty).
pub open spec fn is_blank(s: Seq<char>) -> bool {
    forall|i: int| 0 <= i < s.len() ==> is_ascii_whitespace(#[trigger] s[i])
}

/// Whitespace before `rest` does not change its words.
pub proof fn lemma_words_skip_blank(w: Seq<char>, rest: Seq<char>)
    requires
        is_blank(w),
    ensures
        words(w + rest) == words(rest),
    decreases w.len(),
{
    if w.len() == 0 {
        assert(w + rest =~= rest);
    } else {
        let t = w + rest;
        assert(t[0] == w[0]);
        lemma_words_skip_whitespace(t);
        let u = w.drop_first();
        assert(t.drop_first() =~= u + rest);
        assert forall|i: int| 0 <= i < u.len() implies is_ascii_whitespace(#[trigger] u[i]) by {
            assert(u[i] == w[i + 1]);
        }
        lemma_words_skip_blank(u, rest);
    }
}

/// The words of a token followed by some whitespace and more text.
pub proof fn lemma_words_token_then_blank(a: Seq<char>, w: Seq<char>, rest: Seq<char>)
    requires
        is_token(a),
        w.len() > 0,
        is_blank(w),
    ensures
        words(a + w + rest) == seq![a] + words(rest),
{
    let u = w.drop_first();
    assert(a + w + rest =~= a + seq![w[0]] + (u + rest));
    lemma_words_token_then(a, w[0], u + rest);
    assert forall|i: int| 0 <= i < u.len() implies is_ascii_whitespace(#[trigger] u[i]) by {
        assert(u[i] == w[i + 1]);
    }
    lemma_words_skip_blank(u, rest);
}

/// The words of a lone token.
pub proof fn lemma_words_token(a: Seq<char>)
    requires
        is_token(a),
    ensures
        words(a) == seq![a],
{
    lemma_leading_word(a, a.len() as int);
    assert(a.take(a.len() as int) =~= a);
    assert(a.skip(a.len() as int) =~= Seq::<char>::empty());
    assert(words(Seq::<char>::empty()) =~= Seq::<Seq<char>>::empty());
}

/// Whether `s` holds none of the five characters U+0020, U+0009, U+000A,
/// U+000C and U+000D.
pub open spec fn free_of_ascii_whitespace(s: Seq<char>) -> bool {
    forall|i: int|
        0 <= i < s.len() ==> {
            let c = #[trigger] s[i];
            c != ' ' && c != '\t' && c != '\n' && c != '\x0C' && c != '\r'
        }
}

/// Only the five characters U+0020, U+0009, U+000A, U+000C and U+000D
/// separate words; every other character, such as `_`, `-` or `.`, does not.
pub proof fn lemma_separators_are_the_five(c: char)
    ensures
        is_ascii_whitespace(c) <==> (c == ' ' || c == '\t' || c == '\n' || c == '\x0C' || c
            == '\r'),
{
}

/// Non-empty text free of the five separators is one word, kept whole.
pub proof fn lemma_unseparated_text_is_one_word(s: Seq<char>)
    requires
        s.len() > 0,
        free_of_ascii_whitespace(s),
    ensures
        is_token(s),
        words(s) == seq![s],
{
    assert forall|i: int| 0 <= i < s.len() implies !is_ascii_whitespace(#[trigger] s[i]) by {
        assert(free_of_ascii_whitespace(s));
        let c = s[i];
        assert(c != ' ' && c != '\t' && c != '\n' && c != '\x0C' && c != '\r');
    }
    lemma_words_token(s);
}

/// Two pieces of text free of the five separators, joined by one of them, are
/// read as exactly those two words.
pub proof fn lemma_one_separator_splits_in_two(a: Seq<char>, sep: char, b: Seq<char>)
    requires
        a.len() > 0,
        b.len() > 0,
        free_of_ascii_whitespace(a),
        free_of_ascii_whitespace(b),
        sep == ' ' || sep == '\t' || sep == '\n' || sep == '\x0C' || sep == '\r',
    ensures
        words(a + seq![sep] + b) == seq![a, b],
{
    lemma_unseparated_text_is_one_word(a);
    lemma_unseparated_text_is_one_word(b);
    lemma_words_token_then(a, sep, b);
    assert(seq![a] + seq![b] =~= seq![a, b]);
}

/// Splits `s` into its words, as `str::split_ascii_whitespace` does.
pub fn split_ascii_whitespace(s: &str) -> (parts: Vec<String>)
    ensures
        string_views(parts@) == words(s@),
{
    let n = s.unicode_len();
    let mut parts: Vec<String> = Vec::new();
    let mut i: usize = 0;
    assert(s@.skip(0) =~= s@);
    while i < n
        invariant
            n == s@.len(),
            i <= n,
            words(s@) == string_views(parts@) + words(s@.skip(i as int)),
        decreases n - i,
    {
        let c = s.get_char(i);
        if is_ascii_whitespace_char(c) {
            proof {
                let t = s@.skip(i as int);
                assert(t[0] == c);
                lemma_words_skip_whitespace(t);
                assert(t.drop_first() =~= s@.skip(i + 1));
            }
            i = i + 1;
        } else {
            let mut j: usize = i + 1;
            while j < n
                invariant
                    n == s@.len(),
                    i < j <= n,
                    forall|k: int| i <= k < j ==> !is_ascii_whitespace(#[trigger] s@[k]),
                ensures
                    i < j <= n,
                    forall|k: int| i <= k < j ==> !is_ascii_whitespace(#[trigger] s@[k]),
                    j == n || is_ascii_whitespace(s@[j as int]),
                decreases n - j,
            {
                if is_ascii_whitespace_char(s.get_char(j)) {
                    break;
                }
                j = j + 1;
            }
            let word = String::from_str(s.substring_char(i, j));
            proof {
                let t = s@.skip(i as int);
                let k = (j - i) as int;
                assert forall|m: int| 0 <= m < k implies !is_ascii_whitespace(#[trigger] t[m]) by {
                    assert(t[m] == s@[i + m]);
                }
                if k < t.len() {
                    assert(t[k] == s@[j as int]);
                }
                lemma_leading_word(t, k);
                assert(t.take(k) =~= word@);
                assert(t.skip(k) =~= s@.skip(j as int));
                assert(string_views(parts@.push(word)) =~= string_views(parts@).push(word@));
            }
            parts.push(word);
            i = j;
        }
    }
    assert(words(s@.skip(n as int)) =~= Seq::<Seq<char>>::empty()) by {
        assert(s@.skip(n as int).len() == 0);
    }
    assert(string_views(parts@) + Seq::<Seq<char>>::empty() =~= string_views(parts@));
    parts
}

// ---------------------------------------------------------------- decimals

/// Whether `c` is one of the ASCII digits `0`..`9`.
pub open spec fn is_digit(c: char) -> bool {
    48 <= c as u32 <= 57
}

/// The value of an ASCII digit.
pub open spec fn digit_value(c: char) -> nat {
    (c as u32 - 48) as nat
}

/// The ASCII digit of `d`, for `d < 10`.
pub open spec fn digit_char(d: nat) -> char {
    (d + 48) as char
}

/// The decimal numeral of `n`: its digits, most significant first, with no
/// leading zeros (and `0` for zero).
pub open spec fn decimal(n: nat) -> Seq<char>
    decreases n,
{
    if n < 10 {
        seq![digit_char(n)]
    } else {
        decimal(n / 10).push(digit_char(n % 10))
    }
}

/// Whether every character of `s` is an ASCII digit.
pub open spec fn all_digits(s: Seq<char>) -> bool {
    forall|i: int| 0 <= i < s.len() ==> is_digit(#[trigger] s[i])
}

/// The number that a string of digits denotes in base ten.
pub open spec fn digits_value(s: Seq<char>) -> nat
    decreases s.len(),
{
    if s.len() == 0 {
        0
    } else {
        digits_value(s.drop_last()) * 10 + digit_value(s.last())
    }
}

/// `s` without the one `+` sign that may lead it.
pub open spec fn unsigned_digits(s: Seq<char>) -> Seq<char> {
    if s.len() > 0 && s[0] == '+' {
        s.drop_first()
    } else {
        s
    }
}

/// What `u64::from_str` returns for `s`: an optional `+`, then at least one
/// digit, and a value that fits in 64 bits; `None` for anything else.
pub open spec fn parse_u64_spec(s: Seq<char>) -> Option<u64> {
    let ds = unsigned_digits(s);
    if ds.len() > 0 && all_digits(ds) && digits_value(ds) <= u64::MAX {
        Some(digits_value(ds) as u64)
    } else {
        None
    }
}

fn digit_str(d: u64) -> (s: &'static str)
    requires
        d < 10,
    ensures
        s@ == seq![digit_char(d as nat)],
{
    if d == 0 {
        proof { reveal_strlit("0"); }
        "0"
    } else if d == 1 {
        proof { reveal_strlit("1"); }
        "1"
    } else if d == 2 {
        proof { reveal_strlit("2"); }
        "2"
    } else if d == 3 {
        proof { reveal_strlit("3"); }
        "3"
    } else if d == 4 {
        proof { reveal_strlit("4"); }
        "4"
    } else if d == 5 {
        proof { reveal_strlit("5"); }
        "5"
    } else if d == 6 {
        proof { reveal_strlit("6"); }
        "6"
    } else if d == 7 {
        proof { reveal_strlit("7"); }
        "7"
    } else if d == 8 {
        proof { reveal_strlit("8"); }
        "8"
    } else {
        proof { reveal_strlit("9"); }
        "9"
    }
}

/// The decimal numeral of `n`, as `u64::to_string` writes it.
pub fn u64_to_decimal(n: u64) -> (s: String)
    ensures
        s@ == decimal(n as nat),
    decreases n,
{
    if n < 10 {
        String::from_str(digit_str(n))
    } else {
        let mut s = u64_to_decimal(n / 10);
        s.append(digit_str(n % 10));
        s
    }
}

proof fn lemma_digits_value_prefix_monotone(ds: Seq<char>, k: int)
    requires
        0 <= k <= ds.len(),
        all_digits(ds),
    ensures
        digits_value(ds.take(k)) <= digits_value(ds),
    decreases ds.len() - k,
{
    if k < ds.len() {
        lemma_digits_value_prefix_monotone(ds, k + 1);
        let p = ds.take(k + 1);
        assert(p.drop_last() =~= ds.take(k));
    } else {
        assert(ds.take(k) =~= ds);
    }
}

/// Parses `s` as `u64::from_str` does.
pub fn parse_u64(s: &str) -> (res: Option<u64>)
    ensures
        res == parse_u64_spec(s@),
{
    let n = s.unicode_len();
    let ghost ss = s@;
    let mut start: usize = 0;
    if n > 0 && s.get_char(0) == '+' {
        start = 1;
    }
    let ghost ds = unsigned_digits(ss);
    assert(ds =~= ss.subrange(start as int, n as int));
    if start == n {
        return None;
    }
    let mut value: u64 = 0;
    let mut i: usize = start;
    while i < n
        invariant
            ss == s@,
            n == ss.len(),
            start <= i <= n,
            start < n,
            ds == ss.subrange(start as int, n as int),
            ds == unsigned_digits(ss),
            all_digits(ds.take(i - start)),
            value == digits_value(ds.take(i - start)),
        decreases n - i,
    {
        let c = s.get_char(i);
        let ghost k = (i - start) as int;
        if !(c as u32 >= 48 && c as u32 <= 57) {
            assert(ds[k] == c);
            return None;
        }
        let d = (c as u32 - 48) as u64;
        let ghost p = ds.take(k + 1);
        assert(p.drop_last() =~= ds.take(k));
        assert(p.last() == c);
        assert(all_digits(p)) by {
            assert forall|m: int| 0 <= m < p.len() implies is_digit(#[trigger] p[m]) by {
                if m < k {
                    assert(p[m] == ds.take(k)[m]);
                }
            }
        }
        match value.checked_mul(10) {
            None => {
                proof {
                    if all_digits(ds) {
                        lemma_digits_value_prefix_monotone(ds, k + 1);
                    }
                }
                return None;
            },
            Some(v10) => match v10.checked_add(d) {
                None => {
                    proof {
                        if all_digits(ds) {
                            lemma_digits_value_prefix_monotone(ds, k + 1);
                        }
                    }
                    return None;
                },
                Some(v) => {
                    value = v;
                },
            },
        }
        i = i + 1;
    }
    assert(ds.take(n - start) =~= ds);
    Some(value)
}

/// The decimal numeral of `n` consists of digits and denotes `n`.
pub proof fn lemma_decimal_digits(n: nat)
    ensures
        decimal(n).len() > 0,
        all_digits(decimal(n)),
        digits_value(decimal(n)) == n,
    decreases n,
{
    if n < 10 {
        assert(digit_value(digit_char(n)) == n);
        assert(decimal(n).drop_last() =~= Seq::<char>::empty());
        assert(digits_value(Seq::<char>::empty()) == 0);
    } else {
        lemma_decimal_digits(n / 10);
        let s = decimal(n);
        assert(s.drop_last() =~= decimal(n / 10));
        let d = (n % 10) as nat;
        assert(digit_value(digit_char(d)) == d);
        vstd::arithmetic::div_mod::lemma_fundamental_div_mod(n as int, 10);
        assert(s.last() == digit_char(d));
        assert(digits_value(s) == digits_value(decimal(n / 10)) * 10 + d);
        assert((n / 10) * 10 == 10 * (n / 10)) by (nonlinear_arith);
        assert forall|i: int| 0 <= i < s.len() implies is_digit(#[trigger] s[i]) by {
            if i < s.len() - 1 {
                assert(s[i] == decimal(n / 10)[i]);
            }
        }
    }
}

/// Reading back the decimal numeral of any `u64` gives that number.
pub proof fn lemma_parse_decimal(n: u64)
    ensures
        parse_u64_spec(decimal(n as nat)) == Some(n),
{
    lemma_decimal_digits(n as nat);
    let s = decimal(n as nat);
    assert(is_digit(s[0]));
    assert(unsigned_digits(s) == s);
}

/// A decimal numeral is a single word.
pub proof fn lemma_decimal_is_token(n: nat)
    ensures
        is_token(decimal(n)),
{
    lemma_decimal_digits(n);
    let s = decimal(n);
    assert forall|i: int| 0 <= i < s.len() implies !is_ascii_whitespace(#[trigger] s[i]) by {
        assert(is_digit(s[i]));
    }
}

} // verus!
