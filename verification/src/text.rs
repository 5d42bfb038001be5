//! Small text utilities: building strings one character at a time,
//! decimal numbers, whitespace tokenization, and string comparison.

use vstd::prelude::*;
use vstd::string::StrSliceExecFns;

verus! {

/// Relies on String::push: appends exactly the given character.
#[verifier::external_body]
pub fn push_char(s: &mut String, c: char)
    ensures
        final(s)@ == old(s)@.push(c),
{
    s.push(c);
}

/// True for the six ASCII whitespace characters.
pub open spec fn is_space(c: char) -> bool {
    c == ' ' || c == '\t' || c == '\n' || c == '\r' || c == '\x0b' || c == '\x0c'
}

/// True for the decimal digits.
pub open spec fn is_digit(c: char) -> bool {
    48 <= c as u32 <= 57
}

/// Numeric value of a digit character; zero elsewhere.
pub open spec fn digit_val(c: char) -> int {
    if is_digit(c) {
        c as u32 - 48
    } else {
        0
    }
}

/// The digit character for a value below ten.
pub open spec fn digit_char(d: int) -> char {
    if d == 0 {
        '0'
    } else if d == 1 {
        '1'
    } else if d == 2 {
        '2'
    } else if d == 3 {
        '3'
    } else if d == 4 {
        '4'
    } else if d == 5 {
        '5'
    } else if d == 6 {
        '6'
    } else if d == 7 {
        '7'
    } else if d == 8 {
        '8'
    } else {
        '9'
    }
}

/// The decimal digits of `n`, most significant first.
pub open spec fn spec_dec_digits(n: nat) -> Seq<char>
    decreases n,
{
    if n < 10 {
        seq![digit_char(n as int)]
    } else {
        spec_dec_digits(n / 10).push(digit_char((n % 10) as int))
    }
}

/// Value of a digit string, most significant first.
pub open spec fn dec_val(s: Seq<char>) -> int
    decreases s.len(),
{
    if s.len() == 0 {
        0
    } else {
        dec_val(s.drop_last()) * 10 + digit_val(s.last())
    }
}

/// True when every character is a decimal digit.
pub open spec fn all_digits(s: Seq<char>) -> bool {
    forall|i: int| 0 <= i < s.len() ==> is_digit(#[trigger] s[i])
}

/// The digits of a number token: an optional leading plus sign is
/// stripped.
pub open spec fn strip_plus(s: Seq<char>) -> Seq<char> {
    if s.len() > 0 && s[0] == '+' {
        s.drop_first()
    } else {
        s
    }
}

/// What `u32::from_str` accepts: an optional leading plus sign, then at
/// least one digit, with the value fitting in the type.
pub open spec fn spec_parse_u32(s: Seq<char>) -> Option<u32> {
    if strip_plus(s).len() > 0 && all_digits(strip_plus(s)) && dec_val(strip_plus(s))
        <= u32::MAX {
        Some(dec_val(strip_plus(s)) as u32)
    } else {
        None
    }
}

/// What `bool::from_str` accepts: exactly `true` or `false`.
pub open spec fn spec_parse_bool(s: Seq<char>) -> Option<bool> {
    if s == "true"@ {
        Some(true)
    } else if s == "false"@ {
        Some(false)
    } else {
        None
    }
}

/// Length of the run of non-space characters starting at `i`.
pub open spec fn word_len_from(s: Seq<char>, i: int) -> nat
    decreases s.len() - i,
{
    if i < 0 || i >= s.len() || is_space(s[i]) {
        0
    } else {
        1 + word_len_from(s, i + 1)
    }
}

/// The whitespace-separated words of `s` from position `i` on.
pub open spec fn tokens_from(s: Seq<char>, i: int) -> Seq<Seq<char>>
    decreases s.len() - i,
    via tokens_from_decreases
{
    if i < 0 || i >= s.len() {
        Seq::empty()
    } else if is_space(s[i]) {
        tokens_from(s, i + 1)
    } else {
        seq![s.subrange(i, i + word_len_from(s, i))] + tokens_from(s, i + word_len_from(s, i))
    }
}

#[via_fn]
proof fn tokens_from_decreases(s: Seq<char>, i: int) {
    if 0 <= i < s.len() && !is_space(s[i]) {
        assert(word_len_from(s, i) == 1 + word_len_from(s, i + 1));
        lemma_word_len_from(s, i);
        assert(s.len() - (i + word_len_from(s, i)) < s.len() - i);
    }
}

/// The whitespace-separated words of a line.
pub open spec fn spec_tokens(s: Seq<char>) -> Seq<Seq<char>> {
    tokens_from(s, 0)
}

/// The word starting at `i` runs to `i + word_len_from(s, i)`, which is
/// the end of the string or the next space.
pub proof fn lemma_word_len_from(s: Seq<char>, i: int)
    requires
        0 <= i <= s.len(),
    ensures
        i + word_len_from(s, i) <= s.len(),
        forall|j: int| i <= j < i + word_len_from(s, i) ==> !is_space(#[trigger] s[j]),
        i + word_len_from(s, i) < s.len() ==> is_space(s[i + word_len_from(s, i)]),
    decreases s.len() - i,
{
    if i < s.len() && !is_space(s[i]) {
        lemma_word_len_from(s, i + 1);
    }
}

/// True when no character of `s` is whitespace.
pub open spec fn no_space(s: Seq<char>) -> bool {
    forall|i: int| 0 <= i < s.len() ==> !is_space(#[trigger] s[i])
}

/// A run of `l` non-space characters ending at a space or at the end of
/// the string is exactly the word at its start.
pub proof fn lemma_word_len_exact(s: Seq<char>, i: int, l: int)
    requires
        0 <= i,
        0 <= l,
        i + l <= s.len(),
        forall|j: int| i <= j < i + l ==> !is_space(#[trigger] s[j]),
        i + l == s.len() || is_space(s[i + l]),
    ensures
        word_len_from(s, i) == l,
    decreases l,
{
    if l > 0 {
        lemma_word_len_exact(s, i + 1, l - 1);
    }
}

/// Word lengths do not depend on the characters before the position.
proof fn lemma_word_len_shift(s: Seq<char>, i: int, k: int)
    requires
        0 <= i,
        0 <= k,
        i + k <= s.len(),
    ensures
        word_len_from(s, i + k) == word_len_from(s.skip(i), k),
    decreases s.len() - i - k,
{
    if i + k < s.len() {
        assert(s.skip(i)[k] == s[i + k]);
        if !is_space(s[i + k]) {
            lemma_word_len_shift(s, i, k + 1);
        }
    }
}

/// Tokens do not depend on the characters before the position.
proof fn lemma_tokens_from_shift(s: Seq<char>, i: int, k: int)
    requires
        0 <= i,
        0 <= k,
        i + k <= s.len(),
    ensures
        tokens_from(s, i + k) == tokens_from(s.skip(i), k),
    decreases s.len() - i - k,
{
    if i + k < s.len() {
        assert(s.skip(i)[k] == s[i + k]);
        if is_space(s[i + k]) {
            lemma_tokens_from_shift(s, i, k + 1);
        } else {
            lemma_word_len_shift(s, i, k);
            let l = word_len_from(s, i + k) as int;
            lemma_word_len_from(s, i + k);
            assert(s.subrange(i + k, i + k + l) =~= s.skip(i).subrange(k, k + l));
            lemma_tokens_from_shift(s, i, k + l);
        }
    } else {
        assert(s.skip(i).len() == s.len() - i);
    }
}

/// A single word is its own token list.
pub proof fn lemma_tokens_single(w: Seq<char>)
    requires
        w.len() > 0,
        no_space(w),
    ensures
        spec_tokens(w) == seq![w],
{
    lemma_word_len_exact(w, 0, w.len() as int);
    assert(w.subrange(0, w.len() as int) =~= w);
    assert(tokens_from(w, w.len() as int) =~= Seq::<Seq<char>>::empty());
    assert(spec_tokens(w) =~= seq![w]);
}

/// A word, a space and a rest tokenize as the word before the rest's
/// tokens.
pub proof fn lemma_tokens_word_space_rest(w: Seq<char>, rest: Seq<char>)
    requires
        w.len() > 0,
        no_space(w),
    ensures
        spec_tokens(w + " "@ + rest) == seq![w] + spec_tokens(rest),
{
    reveal_strlit(" ");
    let s = w + " "@ + rest;
    assert(s.len() == w.len() + 1 + rest.len());
    assert(forall|j: int| 0 <= j < w.len() ==> s[j] == #[trigger] w[j]);
    assert(s[w.len() as int] == ' ');
    lemma_word_len_exact(s, 0, w.len() as int);
    assert(s.subrange(0, w.len() as int) =~= w);
    // After the word comes the space, then the rest.
    assert(tokens_from(s, w.len() as int) == tokens_from(s, w.len() as int + 1));
    lemma_tokens_from_shift(s, w.len() as int + 1, 0);
    assert(s.skip(w.len() as int + 1) =~= rest);
    assert(spec_tokens(s) =~= seq![w] + spec_tokens(rest));
}

/// The decimal digits of a number are digits, and there is at least one.
pub proof fn lemma_dec_digits_are_digits(n: nat)
    ensures
        spec_dec_digits(n).len() >= 1,
        all_digits(spec_dec_digits(n)),
    decreases n,
{
    if n >= 10 {
        lemma_dec_digits_are_digits(n / 10);
        assert(all_digits(spec_dec_digits(n))) by {
            assert(forall|i: int|
                0 <= i < spec_dec_digits(n).len() - 1 ==> #[trigger] spec_dec_digits(n)[i]
                    == spec_dec_digits(n / 10)[i]);
            assert(spec_dec_digits(n).last() == digit_char((n % 10) as int));
        }
    }
}

/// A digit is not whitespace and is not a plus sign.
pub proof fn lemma_digit_not_space(c: char)
    requires
        is_digit(c),
    ensures
        !is_space(c),
        c != '+',
{
}

/// Reading back the decimal digits of a number gives the number.
pub proof fn lemma_dec_val_of_digits(n: nat)
    ensures
        dec_val(spec_dec_digits(n)) == n,
    decreases n,
{
    if n < 10 {
        assert(spec_dec_digits(n) == seq![digit_char(n as int)]);
        assert(spec_dec_digits(n).drop_last() =~= Seq::<char>::empty());
        assert(dec_val(Seq::<char>::empty()) == 0);
        assert(spec_dec_digits(n).last() == digit_char(n as int));
        assert(digit_val(digit_char(n as int)) == n);
        assert(dec_val(spec_dec_digits(n)) == 0 * 10 + digit_val(digit_char(n as int)));
    } else {
        lemma_dec_val_of_digits(n / 10);
        let whole = spec_dec_digits(n);
        assert(whole.drop_last() =~= spec_dec_digits(n / 10));
        assert(whole.last() == digit_char((n % 10) as int));
        assert(digit_val(digit_char((n % 10) as int)) == n % 10);
        assert(dec_val(whole) == dec_val(spec_dec_digits(n / 10)) * 10 + digit_val(
            digit_char((n % 10) as int),
        ));
        assert(dec_val(whole) == (n / 10) * 10 + n % 10);
    }
}

/// Parsing the decimal rendering of a number gives the number back.
pub proof fn lemma_parse_u32_round_trip(n: u32)
    ensures
        spec_parse_u32(spec_dec_digits(n as nat)) == Some(n),
{
    let digits = spec_dec_digits(n as nat);
    lemma_dec_digits_are_digits(n as nat);
    lemma_digit_not_space(digits[0]);
    assert(strip_plus(digits) == digits);
    lemma_dec_val_of_digits(n as nat);
}

/// The digits of a number hold no whitespace.
pub proof fn lemma_dec_digits_no_space(n: nat)
    ensures
        no_space(spec_dec_digits(n)),
{
    lemma_dec_digits_are_digits(n);
    assert forall|i: int| 0 <= i < spec_dec_digits(n).len() implies !is_space(
        #[trigger] spec_dec_digits(n)[i],
    ) by {
        assert(is_digit(spec_dec_digits(n)[i]));
    }
}

/// Append the decimal digits of `n` to `s`.
pub fn push_dec(s: &mut String, n: u32)
    ensures
        final(s)@ == old(s)@ + spec_dec_digits(n as nat),
    decreases n,
{
    if n >= 10 {
        push_dec(s, n / 10);
    }
    let d = n % 10;
    let c = match d {
        0 => '0',
        1 => '1',
        2 => '2',
        3 => '3',
        4 => '4',
        5 => '5',
        6 => '6',
        7 => '7',
        8 => '8',
        _ => '9',
    };
    assert(c == digit_char((n % 10) as int));
    push_char(s, c);
    proof {
        if n < 10 {
            assert(spec_dec_digits(n as nat) == seq![digit_char(n as int)]);
            assert(final(s)@ =~= old(s)@ + spec_dec_digits(n as nat));
        } else {
            assert(final(s)@ =~= old(s)@ + spec_dec_digits(n as nat));
        }
    }
}

/// The decimal rendering of `n`.
pub fn u32_to_string(n: u32) -> (r: String)
    ensures
        r@ == spec_dec_digits(n as nat),
{
    let mut s = String::new();
    push_dec(&mut s, n);
    proof {
        assert(s@ =~= spec_dec_digits(n as nat));
    }
    s
}

/// Digit strings have non-negative value.
proof fn lemma_dec_val_nonneg(s: Seq<char>)
    ensures
        dec_val(s) >= 0,
    decreases s.len(),
{
    if s.len() > 0 {
        lemma_dec_val_nonneg(s.drop_last());
    }
}

/// Parse an unsigned decimal number as `u32::from_str` would.
pub fn parse_u32(s: &str) -> (r: Option<u32>)
    ensures
        r == spec_parse_u32(s@),
{
    let len = s.unicode_len();
    let start: usize = if len > 0 && s.get_char(0) == '+' {
        1
    } else {
        0
    };
    let ghost body = strip_plus(s@);
    proof {
        assert(body =~= s@.subrange(start as int, len as int));
    }
    if len == start {
        proof {
            assert(body.len() == 0);
        }
        return None;
    }
    let mut acc: u32 = 0;
    let mut i: usize = start;
    while i < len
        invariant
            start <= i <= len,
            len == s@.len(),
            body == strip_plus(s@),
            body =~= s@.subrange(start as int, len as int),
            forall|j: int| start <= j < i ==> is_digit(#[trigger] s@[j]),
            acc == dec_val(s@.subrange(start as int, i as int)),
        decreases len - i,
    {
        let c = s.get_char(i);
        let cv = c as u32;
        if cv < 48 || cv > 57 {
            proof {
                assert(body[i - start] == s@[i as int]);
                assert(!all_digits(body)) by {
                    assert(0 <= i - start < body.len());
                    assert(!is_digit(body[i - start]));
                }
                assert(spec_parse_u32(s@) is None);
            }
            return None;
        }
        let d = cv - 48;
        proof {
            assert(is_digit(s@[i as int]));
            assert(digit_val(s@[i as int]) == d);
        }
        if acc > (u32::MAX - d) / 10 {
            // The value no longer fits in the type.
            proof {
                let pre = s@.subrange(start as int, i as int + 1);
                assert(pre.drop_last() =~= s@.subrange(start as int, i as int));
                assert(pre.last() == s@[i as int]);
                assert(dec_val(pre) == acc * 10 + d);
                assert(acc * 10 + d > u32::MAX) by (nonlinear_arith)
                    requires
                        acc > (u32::MAX - d) / 10,
                        0 <= d < 10,
                ;
                if all_digits(body) {
                    lemma_dec_val_prefix(body, i as int + 1 - start);
                    assert(body.subrange(0, i as int + 1 - start) =~= pre);
                    assert(dec_val(body) > u32::MAX);
                }
                assert(spec_parse_u32(s@) is None);
            }
            return None;
        }
        proof {
            let pre = s@.subrange(start as int, i as int + 1);
            assert(pre.drop_last() =~= s@.subrange(start as int, i as int));
            assert(pre.last() == s@[i as int]);
            assert(acc * 10 <= ((u32::MAX - d) / 10) * 10 <= u32::MAX - d);
        }
        acc = acc * 10 + d;
        i = i + 1;
    }
    proof {
        assert(body =~= s@.subrange(start as int, len as int));
        assert(all_digits(body));
        assert(spec_parse_u32(s@) == Some(acc));
    }
    Some(acc)
}

/// Dropping trailing digits can only shrink the value.
proof fn lemma_dec_val_prefix(s: Seq<char>, i: int)
    requires
        0 <= i <= s.len(),
        forall|j: int| 0 <= j < s.len() ==> is_digit(#[trigger] s[j]),
    ensures
        dec_val(s) >= dec_val(s.subrange(0, i)),
    decreases s.len() - i,
{
    if i == s.len() {
        assert(s.subrange(0, i) =~= s);
    } else {
        lemma_dec_val_prefix(s, i + 1);
        assert(s.subrange(0, i + 1).drop_last() =~= s.subrange(0, i));
        lemma_dec_val_nonneg(s.subrange(0, i));
        assert(dec_val(s.subrange(0, i + 1)) >= dec_val(s.subrange(0, i))) by (nonlinear_arith)
            requires
                dec_val(s.subrange(0, i + 1)) == dec_val(s.subrange(0, i)) * 10 + digit_val(
                    s.subrange(0, i + 1).last(),
                ),
                dec_val(s.subrange(0, i)) >= 0,
                digit_val(s.subrange(0, i + 1).last()) >= 0,
        ;
    }
}

/// Parse a boolean as `bool::from_str` would.
pub fn parse_bool(s: &str) -> (r: Option<bool>)
    ensures
        r == spec_parse_bool(s@),
{
    if str_eq(s, "true") {
        Some(true)
    } else if str_eq(s, "false") {
        Some(false)
    } else {
        None
    }
}

/// Character-for-character string equality.
pub fn str_eq(a: &str, b: &str) -> (r: bool)
    ensures
        r == (a@ == b@),
{
    let la = a.unicode_len();
    let lb = b.unicode_len();
    if la != lb {
        return false;
    }
    let mut i: usize = 0;
    while i < la
        invariant
            0 <= i <= la,
            la == a@.len(),
            la == b@.len(),
            forall|j: int| 0 <= j < i ==> a@[j] == b@[j],
        decreases la - i,
    {
        if a.get_char(i) != b.get_char(i) {
            return false;
        }
        i = i + 1;
    }
    proof {
        assert(a@ =~= b@);
    }
    true
}

/// The whitespace-separated words of a line, in order.
pub fn tokenize(s: &str) -> (r: Vec<String>)
    ensures
        r@.map_values(|t: String| t@) =~= spec_tokens(s@),
{
    let len = s.unicode_len();
    let mut out: Vec<String> = Vec::new();
    let mut i: usize = 0;
    while i < len
        invariant
            0 <= i <= len,
            len == s@.len(),
            spec_tokens(s@) =~= out@.map_values(|t: String| t@) + tokens_from(s@, i as int),
        decreases len - i,
    {
        let c = s.get_char(i);
        if is_space_exec(c) {
            i = i + 1;
        } else {
            // Collect the word that starts here.
            let ghost wl = word_len_from(s@, i as int);
            proof {
                lemma_word_len_from(s@, i as int);
            }
            let mut word = String::new();
            let mut j: usize = i;
            while j < len && !is_space_exec(s.get_char(j))
                invariant
                    i <= j <= len,
                    len == s@.len(),
                    i + word_len_from(s@, i as int) <= len,
                    forall|k: int| i <= k < i + word_len_from(s@, i as int) ==> !is_space(
                        #[trigger] s@[k],
                    ),
                    i + word_len_from(s@, i as int) < len ==> is_space(
                        s@[i + word_len_from(s@, i as int)],
                    ),
                    j <= i + word_len_from(s@, i as int),
                    word@ =~= s@.subrange(i as int, j as int),
                decreases len - j,
            {
                proof {
                    if j >= i + word_len_from(s@, i as int) {
                        assert(is_space(s@[j as int]));
                    }
                }
                push_char(&mut word, s.get_char(j));
                proof {
                    assert(word@ =~= s@.subrange(i as int, j + 1 as int));
                }
                j = j + 1;
            }
            proof {
                // The inner loop stopped exactly at the word's end.
                if j < i + word_len_from(s@, i as int) {
                    assert(!is_space(s@[j as int]));
                    assert(j < len);
                }
                assert(j == i + word_len_from(s@, i as int));
            }
            out.push(word);
            proof {
                assert(tokens_from(s@, i as int) =~= seq![
                    s@.subrange(i as int, j as int),
                ] + tokens_from(s@, j as int));
                assert(out@.map_values(|t: String| t@) =~= out@.map_values(
                    |t: String| t@,
                ).drop_last().push(s@.subrange(i as int, j as int)));
            }
            i = j;
        }
    }
    out
}

/// Executable test for the six ASCII whitespace characters.
pub fn is_space_exec(c: char) -> (r: bool)
    ensures
        r == is_space(c),
{
    c == ' ' || c == '\t' || c == '\n' || c == '\r' || c == '\x0b' || c == '\x0c'
}

} // verus!
