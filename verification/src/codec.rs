//! The persistence codec: conversation branches and settings are stored as
//! a single text record in a JSON-shaped format of the store's own, written
//! and parsed entirely by the library.
//!
//! Strings are quoted, with `"` and `\` escaped by a backslash and every
//! other character stored verbatim; numbers are plain decimal digits.  The
//! parser is exact: a text the encoder cannot produce is a parse failure,
//! which the store surfaces as a fatal load error.  Decoding inverts
//! encoding on every value, so a persisted store always reloads to the
//! same branches and settings.

use crate::text::{all_digits, digits_value, is_digit_char, parse_digits_bounded};
use vstd::prelude::*;

verus! {

/// The decimal digit character for a value below ten.
pub open spec fn digit_char(d: int) -> char {
    if d == 0 {
        '0'
    } else if d == 1 {
        '1'
    } else if d == 2 {
        '2'
    } else if d == 3 {
        '3'
    } else if d == 4 {
        '4'
    } else if d == 5 {
        '5'
    } else if d == 6 {
        '6'
    } else if d == 7 {
        '7'
    } else if d == 8 {
        '8'
    } else {
        '9'
    }
}

/// The decimal digits of a non-negative number, most significant first.
pub open spec fn dec_digits(n: int) -> Seq<char>
    decreases n,
{
    if n < 10 {
        seq![digit_char(n)]
    } else {
        dec_digits(n / 10).push(digit_char(n % 10))
    }
}

/// Emitted digits are digits, and parse back to the emitted value.
pub proof fn lemma_dec_digits_value(n: int)
    requires
        n >= 0,
    ensures
        all_digits(dec_digits(n)),
        dec_digits(n).len() >= 1,
        digits_value(dec_digits(n)) == n,
    decreases n,
{
    if n < 10 {
        let s = dec_digits(n);
        assert(s.len() == 1);
        assert(digits_value(s.drop_last()) == 0) by {
            assert(s.drop_last() =~= Seq::<char>::empty());
            assert(digits_value(Seq::<char>::empty()) == 0);
        }
        assert(digits_value(s) == crate::text::digit_val(s[0]));
    } else {
        lemma_dec_digits_value(n / 10);
        let p = dec_digits(n / 10);
        let s = dec_digits(n);
        assert(s == p.push(digit_char(n % 10)));
        assert(s.drop_last() =~= p);
        assert(forall|k: int|
            0 <= k < s.len() ==> #[trigger] s[k] == if k < p.len() {
                p[k]
            } else {
                digit_char(n % 10)
            });
        assert(digits_value(s) == digits_value(p) * 10 + crate::text::digit_val(s[s.len() - 1]));
        assert(crate::text::digit_val(digit_char(n % 10)) == n % 10);
        assert((n / 10) * 10 + n % 10 == n) by (nonlinear_arith)
            requires
                n >= 0,
        ;
    }
}

/// Appends the decimal digits of `n`.
pub fn push_u64_digits(out: &mut Vec<char>, n: u64)
    ensures
        final(out)@ == old(out)@ + dec_digits(n as int),
    decreases n,
{
    if n >= 10 {
        push_u64_digits(out, n / 10);
    }
    let d = n % 10;
    let c: char = if d == 0 {
        '0'
    } else if d == 1 {
        '1'
    } else if d == 2 {
        '2'
    } else if d == 3 {
        '3'
    } else if d == 4 {
        '4'
    } else if d == 5 {
        '5'
    } else if d == 6 {
        '6'
    } else if d == 7 {
        '7'
    } else if d == 8 {
        '8'
    } else {
        '9'
    };
    out.push(c);
    proof {
        assert(final(out)@ =~= old(out)@ + dec_digits(n as int));
    }
}

/// How one character is stored inside a quoted string: `"` and `\` behind a
/// backslash, everything else verbatim.
pub open spec fn esc_char(c: char) -> Seq<char> {
    if c == '"' || c == '\\' {
        seq!['\\', c]
    } else {
        seq![c]
    }
}

/// The stored form of a string's characters.
pub open spec fn enc_str_body(x: Seq<char>) -> Seq<char>
    decreases x.len(),
{
    if x.len() == 0 {
        Seq::<char>::empty()
    } else {
        esc_char(x[0]) + enc_str_body(x.drop_first())
    }
}

/// A quoted string.
pub open spec fn enc_string(x: Seq<char>) -> Seq<char> {
    seq!['"'] + enc_str_body(x) + seq!['"']
}

/// Escaping one more character appends its escape.
pub proof fn lemma_enc_str_body_snoc(x: Seq<char>, c: char)
    ensures
        enc_str_body(x.push(c)) == enc_str_body(x) + esc_char(c),
    decreases x.len(),
{
    if x.len() == 0 {
        assert(x.push(c)[0] == c);
        assert(enc_str_body(x.push(c).drop_first()) =~= Seq::<char>::empty()) by {
            assert(x.push(c).drop_first() =~= Seq::<char>::empty());
            assert(enc_str_body(Seq::<char>::empty()) =~= Seq::<char>::empty());
        }
        assert(enc_str_body(x.push(c)) =~= enc_str_body(x) + esc_char(c));
    } else {
        assert(x.push(c).drop_first() =~= x.drop_first().push(c));
        lemma_enc_str_body_snoc(x.drop_first(), c);
        assert(enc_str_body(x.push(c).drop_first()) == enc_str_body(x.drop_first()) + esc_char(c));
        assert(x.push(c)[0] == x[0]);
        assert(enc_str_body(x.push(c)) =~= enc_str_body(x) + esc_char(c));
    }
}

/// Appends the stored form of a string's characters.
pub fn push_escaped(out: &mut Vec<char>, x: &String)
    ensures
        final(out)@ == old(out)@ + enc_str_body(x@),
{
    let st = x.as_str();
    let n = st.unicode_len();
    let mut i: usize = 0;
    proof {
        assert(out@ + enc_str_body(x@.subrange(0, 0)) =~= out@);
    }
    while i < n
        invariant
            n == x@.len(),
            i <= n,
            out@ == old(out)@ + enc_str_body(x@.subrange(0, i as int)),
            st@ == x@,
        decreases n - i,
    {
        let c = st.get_char(i);
        if c == '"' || c == '\\' {
            out.push('\\');
            out.push(c);
        } else {
            out.push(c);
        }
        proof {
            let pre = x@.subrange(0, i as int);
            assert(x@.subrange(0, i + 1) =~= pre.push(c));
            lemma_enc_str_body_snoc(pre, c);
            assert(out@ =~= old(out)@ + enc_str_body(x@.subrange(0, i + 1)));
        }
        i = i + 1;
    }
    proof {
        assert(x@.subrange(0, n as int) =~= x@);
    }
}

/// Appends a quoted string.
pub fn push_string(out: &mut Vec<char>, x: &String)
    ensures
        final(out)@ == old(out)@ + enc_string(x@),
{
    out.push('"');
    push_escaped(out, x);
    out.push('"');
    proof {
        assert(final(out)@ =~= old(out)@ + enc_string(x@));
    }
}

/// Appends a literal piece of the format.
pub fn push_lit(out: &mut Vec<char>, lit: &str)
    ensures
        final(out)@ == old(out)@ + lit@,
{
    let n = lit.unicode_len();
    let mut i: usize = 0;
    proof {
        assert(out@ + lit@.subrange(0, 0) =~= out@);
    }
    while i < n
        invariant
            n == lit@.len(),
            i <= n,
            out@ == old(out)@ + lit@.subrange(0, i as int),
        decreases n - i,
    {
        out.push(lit.get_char(i));
        i = i + 1;
        proof {
            assert(out@ =~= old(out)@ + lit@.subrange(0, i as int));
        }
    }
    proof {
        assert(lit@.subrange(0, n as int) =~= lit@);
    }
}

/// Whether the text at `i` begins with the given literal.
pub open spec fn match_lit(s: Seq<char>, i: int, lit: Seq<char>) -> bool {
    0 <= i && i + lit.len() <= s.len() && s.subrange(i, i + lit.len()) == lit
}

/// Whether the text at `i` begins with the given literal.
pub fn eat_lit(chars: &Vec<char>, i: usize, lit: &str) -> (r: bool)
    ensures
        r == match_lit(chars@, i as int, lit@),
{
    let n = lit.unicode_len();
    let m = chars.len();
    if n > m || i > m - n {
        proof {
            assert(!match_lit(chars@, i as int, lit@));
        }
        return false;
    }
    let mut k: usize = 0;
    while k < n
        invariant
            n == lit@.len(),
            m == chars@.len(),
            i + n <= m,
            k <= n,
            forall|q: int| 0 <= q < k ==> chars@[i + q] == lit@[q],
        decreases n - k,
    {
        if chars[i + k] != lit.get_char(k) {
            proof {
                assert(chars@.subrange(i as int, i + lit@.len())[k as int] != lit@[k as int]);
            }
            return false;
        }
        k = k + 1;
    }
    proof {
        assert(chars@.subrange(i as int, i + lit@.len()) =~= lit@);
    }
    true
}

/// Whether a character is a decimal digit.
pub fn char_is_digit(c: char) -> (r: bool)
    ensures
        r == is_digit_char(c),
{
    let cu = c as u32;
    cu >= 48 && cu <= 57
}

/// The first position at or after `i` that does not hold a digit.
pub open spec fn digits_end(s: Seq<char>, i: int) -> int
    decreases s.len() - i,
{
    if 0 <= i < s.len() && is_digit_char(s[i]) {
        digits_end(s, i + 1)
    } else {
        i
    }
}

proof fn lemma_digits_end_bounds(s: Seq<char>, i: int)
    requires
        0 <= i <= s.len(),
    ensures
        i <= digits_end(s, i) <= s.len(),
        all_digits(s.subrange(i, digits_end(s, i))),
        digits_end(s, i) < s.len() ==> !is_digit_char(s[digits_end(s, i)]),
    decreases s.len() - i,
{
    if i < s.len() && is_digit_char(s[i]) {
        lemma_digits_end_bounds(s, i + 1);
        let e = digits_end(s, i);
        assert forall|k: int| 0 <= k < e - i implies is_digit_char(
            #[trigger] s.subrange(i, e)[k],
        ) by {
            if k == 0 {
            } else {
                assert(s.subrange(i + 1, e)[k - 1] == s.subrange(i, e)[k]);
            }
        }
    }
}

/// A decimal number no larger than `bound`: its value and the position just
/// past its digits.
pub open spec fn sp_number(s: Seq<char>, i: int, bound: int) -> Option<(int, int)> {
    let e = digits_end(s, i);
    if e > i && digits_value(s.subrange(i, e)) <= bound {
        Some((digits_value(s.subrange(i, e)), e))
    } else {
        None
    }
}

/// Parses a decimal number no larger than `bound`.
pub fn parse_number_at(chars: &Vec<char>, i: usize, bound: u64) -> (r: Option<(u64, usize)>)
    requires
        i <= chars@.len(),
    ensures
        match r {
            Some((v, j)) => sp_number(chars@, i as int, bound as int) == Some((v as int, j as int))
                && i < j <= chars@.len(),
            None => sp_number(chars@, i as int, bound as int) is None,
        },
{
    let n = chars.len();
    let mut j: usize = i;
    while j < n && char_is_digit(chars[j])
        invariant
            i <= j <= n,
            n == chars@.len(),
            digits_end(chars@, i as int) == digits_end(chars@, j as int),
        decreases n - j,
    {
        j = j + 1;
    }
    proof {
        assert(digits_end(chars@, j as int) == j as int);
        lemma_digits_end_bounds(chars@, i as int);
    }
    if j == i {
        return None;
    }
    proof {
        crate::text::lemma_digits_value_bound(chars@.subrange(i as int, j as int));
    }
    match parse_digits_bounded(chars, i, j, bound) {
        Some(v) => Some((v, j)),
        None => None,
    }
}

/// The stored characters of a quoted string starting just after its opening
/// quote: the decoded content and the position just past the closing quote.
pub open spec fn sp_str_body(s: Seq<char>, i: int) -> Option<(Seq<char>, int)>
    decreases s.len() - i,
{
    if i < 0 || i >= s.len() {
        None
    } else if s[i] == '"' {
        Some((Seq::<char>::empty(), i + 1))
    } else if s[i] == '\\' {
        if i + 1 < s.len() && (s[i + 1] == '"' || s[i + 1] == '\\') {
            match sp_str_body(s, i + 2) {
                Some((t, j)) => Some((seq![s[i + 1]] + t, j)),
                None => None,
            }
        } else {
            None
        }
    } else {
        match sp_str_body(s, i + 1) {
            Some((t, j)) => Some((seq![s[i]] + t, j)),
            None => None,
        }
    }
}

/// A quoted string: its content and the position just past its closing
/// quote.
pub open spec fn sp_string(s: Seq<char>, i: int) -> Option<(Seq<char>, int)> {
    if 0 <= i < s.len() && s[i] == '"' {
        sp_str_body(s, i + 1)
    } else {
        None
    }
}

proof fn lemma_sp_str_body_bounds(s: Seq<char>, i: int)
    requires
        0 <= i,
    ensures
        sp_str_body(s, i) matches Some(p) ==> i < p.1 <= s.len(),
    decreases s.len() - i,
{
    if 0 <= i < s.len() {
        if s[i] == '\\' {
            if i + 1 < s.len() && (s[i + 1] == '"' || s[i + 1] == '\\') {
                lemma_sp_str_body_bounds(s, i + 2);
            }
        } else if s[i] != '"' {
            lemma_sp_str_body_bounds(s, i + 1);
        }
    }
}

/// Parsing inverts escaping: the stored form of any string, followed by its
/// closing quote, parses back to exactly that string.
pub proof fn lemma_sp_str_body_of_enc(x: Seq<char>, s: Seq<char>, i: int)
    requires
        0 <= i,
        i + enc_str_body(x).len() + 1 <= s.len(),
        s.subrange(i, i + enc_str_body(x).len()) == enc_str_body(x),
        s[i + enc_str_body(x).len()] == '"',
    ensures
        sp_str_body(s, i) == Some((x, i + enc_str_body(x).len() + 1)),
    decreases x.len(),
{
    let eb = enc_str_body(x);
    if x.len() == 0 {
        assert(eb.len() == 0);
        assert(s[i] == '"');
    } else {
        let c = x[0];
        let rest = x.drop_first();
        let erest = enc_str_body(rest);
        assert(eb == esc_char(c) + erest);
        let d = esc_char(c).len() as int;
        assert forall|k: int| 0 <= k < eb.len() implies s[i + k] == #[trigger] eb[k] by {
            assert(s.subrange(i, i + eb.len())[k] == s[i + k]);
        }
        assert forall|k: int| 0 <= k < erest.len() implies #[trigger] erest[k] == s[i + d + k] by {
            assert(eb[d + k] == erest[k]);
            assert(s[i + (d + k)] == eb[d + k]);
        }
        assert(s.subrange(i + d, i + d + erest.len()) =~= erest);
        assert(s[i + d + erest.len()] == '"') by {
            assert(s[i + eb.len()] == '"');
        }
        lemma_sp_str_body_of_enc(rest, s, i + d);
        if c == '"' || c == '\\' {
            assert(s[i] == '\\') by {
                assert(eb[0] == '\\');
                assert(s[i + 0] == eb[0]);
            }
            assert(s[i + 1] == c) by {
                assert(eb[1] == c);
                assert(s[i + 1] == eb[1]);
            }
            assert(sp_str_body(s, i) == Some((seq![c] + rest, i + eb.len() + 1)));
        } else {
            assert(s[i] == c) by {
                assert(eb[0] == c);
                assert(s[i + 0] == eb[0]);
            }
            assert(s[i] != '"' && s[i] != '\\');
            assert(sp_str_body(s, i) == Some((seq![c] + rest, i + eb.len() + 1)));
        }
        assert(seq![c] + rest =~= x);
    }
}

/// Parsing inverts quoting.
pub proof fn lemma_sp_string_of_enc(x: Seq<char>, s: Seq<char>, i: int)
    requires
        0 <= i,
        i + enc_string(x).len() <= s.len(),
        s.subrange(i, i + enc_string(x).len()) == enc_string(x),
    ensures
        sp_string(s, i) == Some((x, i + enc_string(x).len())),
{
    let e = enc_string(x);
    let eb = enc_str_body(x);
    assert forall|k: int| 0 <= k < e.len() implies s[i + k] == #[trigger] e[k] by {
        assert(s.subrange(i, i + e.len())[k] == s[i + k]);
    }
    assert(s[i] == '"') by {
        assert(e[0] == '"');
        assert(s[i + 0] == e[0]);
    }
    assert forall|k: int| 0 <= k < eb.len() implies #[trigger] eb[k] == s[i + 1 + k] by {
        assert(e[1 + k] == eb[k]);
        assert(s[i + (1 + k)] == e[1 + k]);
    }
    assert(s.subrange(i + 1, i + 1 + eb.len()) =~= eb);
    assert(s[i + 1 + eb.len()] == '"') by {
        assert(e[1 + eb.len() as int] == '"');
        assert(s[i + 1 + eb.len()] == e[1 + eb.len() as int]);
    }
    lemma_sp_str_body_of_enc(x, s, i + 1);
}

/// Parsing inverts digit emission when the digits are followed by anything
/// that is not a digit.
pub proof fn lemma_sp_number_of_enc(n: int, s: Seq<char>, i: int, bound: int)
    requires
        0 <= n <= bound,
        0 <= i,
        i + dec_digits(n).len() <= s.len(),
        s.subrange(i, i + dec_digits(n).len()) == dec_digits(n),
        i + dec_digits(n).len() < s.len() ==> !is_digit_char(s[i + dec_digits(n).len()]),
    ensures
        sp_number(s, i, bound) == Some((n, i + dec_digits(n).len())),
{
    let d = dec_digits(n);
    lemma_dec_digits_value(n);
    assert forall|k: int| i <= k < i + d.len() implies is_digit_char(#[trigger] s[k]) by {
        assert(s.subrange(i, i + d.len())[k - i] == s[k]);
        assert(is_digit_char(d[k - i]));
    }
    lemma_digits_end_prefix(s, i, i + d.len());
    assert(digits_end(s, i) == i + d.len());
    assert(s.subrange(i, i + d.len()) == d);
}

/// The scan for the end of a run of digits stops exactly at its end.
proof fn lemma_digits_end_prefix(s: Seq<char>, i: int, e: int)
    requires
        0 <= i <= e <= s.len(),
        forall|k: int| i <= k < e ==> is_digit_char(#[trigger] s[k]),
        e < s.len() ==> !is_digit_char(s[e]),
    ensures
        digits_end(s, i) == e,
    decreases e - i,
{
    if i < e {
        lemma_digits_end_prefix(s, i + 1, e);
    }
}

/// Parses a quoted string.
pub fn parse_string_at(chars: &Vec<char>, i: usize) -> (r: Option<(String, usize)>)
    requires
        i <= chars@.len(),
    ensures
        match r {
            Some((v, j)) => sp_string(chars@, i as int) == Some((v@, j as int)) && i < j
                <= chars@.len(),
            None => sp_string(chars@, i as int) is None,
        },
{
    let n = chars.len();
    if i >= n || chars[i] != '"' {
        return None;
    }
    let mut acc: Vec<char> = Vec::new();
    let mut cur: usize = i + 1;
    proof {
        match sp_str_body(chars@, i + 1) {
            Some(p) => {
                assert(Seq::<char>::empty() + p.0 =~= p.0);
            },
            None => {},
        }
    }
    loop
        invariant
            i + 1 <= cur <= n,
            n == chars@.len(),
            chars@[i as int] == '"',
            match sp_str_body(chars@, cur as int) {
                Some((t, j)) => sp_str_body(chars@, i + 1) == Some((acc@ + t, j)),
                None => sp_str_body(chars@, i + 1) is None,
            },
        decreases n - cur,
    {
        if cur >= n {
            return None;
        }
        let c = chars[cur];
        if c == '"' {
            proof {
                assert(sp_str_body(chars@, cur as int) == Some(
                    (Seq::<char>::empty(), cur + 1 as int),
                ));
                assert(acc@ + Seq::<char>::empty() =~= acc@);
                assert(sp_str_body(chars@, i + 1) == Some((acc@, cur + 1 as int)));
                assert(sp_string(chars@, i as int) == Some((acc@, cur + 1 as int)));
                lemma_sp_str_body_bounds(chars@, i + 1);
            }
            let out = crate::text::chars_to_string(&acc);
            return Some((out, cur + 1));
        } else if c == '\\' {
            if cur + 1 < n {
                let c2 = chars[cur + 1];
                if c2 == '"' || c2 == '\\' {
                    let ghost pre = acc@;
                    acc.push(c2);
                    proof {
                        match sp_str_body(chars@, cur + 2) {
                            Some(p) => {
                                assert(pre + (seq![c2] + p.0) =~= acc@ + p.0);
                            },
                            None => {},
                        }
                    }
                    cur = cur + 2;
                } else {
                    return None;
                }
            } else {
                return None;
            }
        } else {
            let ghost pre = acc@;
            acc.push(c);
            proof {
                match sp_str_body(chars@, cur + 1) {
                    Some(p) => {
                        assert(pre + (seq![c] + p.0) =~= acc@ + p.0);
                    },
                    None => {},
                }
            }
            cur = cur + 1;
        }
    }
}

/// Splitting a known region of text into its two parts.
proof fn lemma_starts_with(s: Seq<char>, i: int, a: Seq<char>, b: Seq<char>)
    requires
        0 <= i,
        i + a.len() + b.len() <= s.len(),
        s.subrange(i, i + a.len() + b.len()) == a + b,
    ensures
        s.subrange(i, i + a.len()) == a,
        s.subrange(i + a.len(), i + a.len() + b.len()) == b,
{
    let ab = a + b;
    assert forall|k: int| 0 <= k < ab.len() implies s[i + k] == #[trigger] ab[k] by {
        assert(s.subrange(i, i + ab.len())[k] == s[i + k]);
    }
    assert(s.subrange(i, i + a.len()) =~= a);
    assert forall|k: int| 0 <= k < b.len() implies s.subrange(
        i + a.len(),
        i + a.len() + b.len(),
    )[k] == #[trigger] b[k] by {
        assert(ab[a.len() + k] == b[k]);
        assert(s[i + (a.len() + k)] == ab[a.len() + k]);
    }
    assert(s.subrange(i + a.len(), i + a.len() + b.len()) =~= b);
}

/// A region of text known to start with one literal cannot start with a
/// literal that differs from it at some position.
proof fn lemma_not_lit(s: Seq<char>, i: int, a: Seq<char>, b: Seq<char>, k: int)
    requires
        0 <= i,
        i + a.len() <= s.len(),
        s.subrange(i, i + a.len()) == a,
        0 <= k < a.len(),
        k < b.len(),
        a[k] != b[k],
    ensures
        !match_lit(s, i, b),
{
    if match_lit(s, i, b) {
        assert(s.subrange(i, i + b.len())[k] == b[k]);
        assert(s.subrange(i, i + a.len())[k] == a[k]);
        assert(s[i + k] == a[k] && s[i + k] == b[k]);
    }
}

/// The stored form of a message role.
pub open spec fn enc_role(r: crate::chat_structs::Role) -> Seq<char> {
    match r {
        crate::chat_structs::Role::User => "\"User\""@,
        crate::chat_structs::Role::Assistant => "\"Assistant\""@,
    }
}

/// The stored form of one message.
pub open spec fn enc_message(m: crate::chat_structs::MessageView) -> Seq<char> {
    "{\"role\":"@ + enc_role(m.role) + ",\"content\":"@ + enc_string(m.content) + "}"@
}

/// The stored form of the rest of a message list: a comma before each
/// further message.
pub open spec fn enc_msgs_rest(ms: Seq<crate::chat_structs::MessageView>) -> Seq<char>
    decreases ms.len(),
{
    if ms.len() == 0 {
        Seq::<char>::empty()
    } else {
        ","@ + enc_message(ms[0]) + enc_msgs_rest(ms.drop_first())
    }
}

/// The stored form of a message list.
pub open spec fn enc_messages(ms: Seq<crate::chat_structs::MessageView>) -> Seq<char> {
    if ms.len() == 0 {
        "[]"@
    } else {
        "["@ + enc_message(ms[0]) + enc_msgs_rest(ms.drop_first()) + "]"@
    }
}

/// A stored role: which it is and the position just past it.
pub open spec fn sp_role(s: Seq<char>, i: int) -> Option<(crate::chat_structs::Role, int)> {
    if match_lit(s, i, "\"User\""@) {
        Some((crate::chat_structs::Role::User, i + "\"User\""@.len()))
    } else if match_lit(s, i, "\"Assistant\""@) {
        Some((crate::chat_structs::Role::Assistant, i + "\"Assistant\""@.len()))
    } else {
        None
    }
}

/// A stored message: its value and the position just past it.
pub open spec fn sp_message(s: Seq<char>, i: int) -> Option<(crate::chat_structs::MessageView, int)> {
    if !match_lit(s, i, "{\"role\":"@) {
        None
    } else {
        match sp_role(s, i + "{\"role\":"@.len()) {
            None => None,
            Some((role, j)) => if !match_lit(s, j, ",\"content\":"@) {
                None
            } else {
                match sp_string(s, j + ",\"content\":"@.len()) {
                    None => None,
                    Some((content, k)) => if match_lit(s, k, "}"@) {
                        Some(
                            (
                                crate::chat_structs::MessageView { role, content },
                                k + 1,
                            ),
                        )
                    } else {
                        None
                    },
                }
            },
        }
    }
}

/// The rest of a stored message list, after `done` elements already read.
pub open spec fn sp_messages_rest(
    s: Seq<char>,
    i: int,
    done: Seq<crate::chat_structs::MessageView>,
) -> Option<(Seq<crate::chat_structs::MessageView>, int)>
    decreases s.len() - i,
{
    if i < 0 || i > s.len() {
        None
    } else if match_lit(s, i, "]"@) {
        Some((done, i + 1))
    } else if match_lit(s, i, ","@) {
        match sp_message(s, i + 1) {
            None => None,
            Some((m, j)) => if j <= i + 1 || j > s.len() {
                None
            } else {
                sp_messages_rest(s, j, done.push(m))
            },
        }
    } else {
        None
    }
}

/// A stored message list: its value and the position just past it.
pub open spec fn sp_messages(s: Seq<char>, i: int) -> Option<
    (Seq<crate::chat_structs::MessageView>, int),
> {
    if !match_lit(s, i, "["@) {
        None
    } else if match_lit(s, i + 1, "]"@) {
        Some((Seq::<crate::chat_structs::MessageView>::empty(), i + 2))
    } else {
        match sp_message(s, i + 1) {
            None => None,
            Some((m, j)) => if j <= i + 1 || j > s.len() {
                None
            } else {
                sp_messages_rest(s, j, seq![m])
            },
        }
    }
}

/// Parsing inverts role encoding.
proof fn lemma_sp_role_of_enc(r: crate::chat_structs::Role, s: Seq<char>, i: int)
    requires
        0 <= i,
        i + enc_role(r).len() <= s.len(),
        s.subrange(i, i + enc_role(r).len()) == enc_role(r),
    ensures
        sp_role(s, i) == Some((r, i + enc_role(r).len())),
{
    reveal_strlit("\"User\"");
    reveal_strlit("\"Assistant\"");
    match r {
        crate::chat_structs::Role::User => {
            assert(match_lit(s, i, "\"User\""@));
        },
        crate::chat_structs::Role::Assistant => {
            assert(enc_role(r)[1] == 'A');
            assert("\"User\""@[1] == 'U');
            lemma_not_lit(s, i, enc_role(r), "\"User\""@, 1);
            assert(match_lit(s, i, "\"Assistant\""@));
        },
    }
}

/// Parsing inverts message encoding.
proof fn lemma_sp_message_of_enc(m: crate::chat_structs::MessageView, s: Seq<char>, i: int)
    requires
        0 <= i,
        i + enc_message(m).len() <= s.len(),
        s.subrange(i, i + enc_message(m).len()) == enc_message(m),
    ensures
        sp_message(s, i) == Some((m, i + enc_message(m).len())),
        enc_message(m).len() > 0,
{
    let l1 = "{\"role\":"@;
    let l2 = ",\"content\":"@;
    let l3 = "}"@;
    let er = enc_role(m.role);
    let ec = enc_string(m.content);
    let em = enc_message(m);
    assert(em =~= l1 + (er + (l2 + (ec + l3))));
    lemma_starts_with(s, i, l1, er + (l2 + (ec + l3)));
    let i1 = i + l1.len();
    assert(er + (l2 + (ec + l3)) =~= (er + (l2 + (ec + l3))));
    lemma_starts_with(s, i1, er, l2 + (ec + l3));
    let i2 = i1 + er.len();
    lemma_starts_with(s, i2, l2, ec + l3);
    let i3 = i2 + l2.len();
    lemma_starts_with(s, i3, ec, l3);
    let i4 = i3 + ec.len();
    assert(match_lit(s, i, l1));
    lemma_sp_role_of_enc(m.role, s, i1);
    assert(match_lit(s, i2, l2));
    lemma_sp_string_of_enc(m.content, s, i3);
    assert(match_lit(s, i4, l3));
    reveal_strlit("{\"role\":");
    reveal_strlit(",\"content\":");
    reveal_strlit("}");
    assert(sp_message(s, i) == Some((crate::chat_structs::MessageView { role: m.role, content: m.content }, i4 + 1)));
    assert((crate::chat_structs::MessageView { role: m.role, content: m.content }) == m);
}

/// Parsing inverts the encoding of a message list's tail.
proof fn lemma_sp_messages_rest_of_enc(
    done: Seq<crate::chat_structs::MessageView>,
    rest: Seq<crate::chat_structs::MessageView>,
    s: Seq<char>,
    i: int,
)
    requires
        0 <= i,
        i + enc_msgs_rest(rest).len() + 1 <= s.len(),
        s.subrange(i, i + enc_msgs_rest(rest).len()) == enc_msgs_rest(rest),
        s[i + enc_msgs_rest(rest).len()] == ']',
    ensures
        sp_messages_rest(s, i, done) == Some((done + rest, i + enc_msgs_rest(rest).len() + 1)),
    decreases rest.len(),
{
    reveal_strlit("]");
    reveal_strlit(",");
    if rest.len() == 0 {
        assert(s[i] == ']');
        assert(s.subrange(i, i + 1) =~= "]"@);
        assert(match_lit(s, i, "]"@));
        assert(done + rest =~= done);
    } else {
        let em = enc_message(rest[0]);
        let tail = enc_msgs_rest(rest.drop_first());
        let whole = enc_msgs_rest(rest);
        assert(whole =~= ","@ + (em + tail));
        lemma_starts_with(s, i, ","@, em + tail);
        assert(s.subrange(i, i + 1)[0] == ","@[0]);
        assert(s[i] == ',');
        assert(match_lit(s, i, ","@));
        lemma_not_lit(s, i, ","@, "]"@, 0);
        let i1 = i + 1;
        lemma_starts_with(s, i1, em, tail);
        lemma_sp_message_of_enc(rest[0], s, i1);
        let j = i1 + em.len();
        lemma_sp_messages_rest_of_enc(done.push(rest[0]), rest.drop_first(), s, j);
        assert(done.push(rest[0]) + rest.drop_first() =~= done + rest);
    }
}

/// Parsing inverts message-list encoding.
proof fn lemma_sp_messages_of_enc(ms: Seq<crate::chat_structs::MessageView>, s: Seq<char>, i: int)
    requires
        0 <= i,
        i + enc_messages(ms).len() <= s.len(),
        s.subrange(i, i + enc_messages(ms).len()) == enc_messages(ms),
    ensures
        sp_messages(s, i) == Some((ms, i + enc_messages(ms).len())),
        enc_messages(ms).len() >= 2,
{
    reveal_strlit("[");
    reveal_strlit("]");
    reveal_strlit("[]");
    let e = enc_messages(ms);
    assert forall|k: int| 0 <= k < e.len() implies s[i + k] == #[trigger] e[k] by {
        assert(s.subrange(i, i + e.len())[k] == s[i + k]);
    }
    if ms.len() == 0 {
        assert(e.len() == 2);
        assert(e[0] == '[' && e[1] == ']');
        assert(s[i + 0] == e[0] && s[i + 1] == e[1]);
        assert(s[i] == '[' && s[i + 1] == ']');
        assert(s.subrange(i, i + 1) =~= "["@);
        assert(s.subrange(i + 1, i + 2) =~= "]"@);
        assert(match_lit(s, i, "["@));
        assert(match_lit(s, i + 1, "]"@));
    } else {
        let em = enc_message(ms[0]);
        let tail = enc_msgs_rest(ms.drop_first());
        assert(e =~= "["@ + (em + (tail + "]"@)));
        lemma_starts_with(s, i, "["@, em + (tail + "]"@));
        assert(match_lit(s, i, "["@));
        let i1 = i + 1;
        lemma_starts_with(s, i1, em, tail + "]"@);
        lemma_sp_message_of_enc(ms[0], s, i1);
        reveal_strlit("{\"role\":");
        assert(em[0] == '{') by {
            assert(em =~= "{\"role\":"@ + (enc_role(ms[0].role) + (",\"content\":"@ + (enc_string(
                ms[0].content,
            ) + "}"@))));
            assert("{\"role\":"@[0] == '{');
        }
        assert(s[i1] == '{') by {
            assert(s.subrange(i1, i1 + em.len())[0] == em[0]);
        }
        lemma_not_lit(s, i1, em, "]"@, 0);
        let j = i1 + em.len();
        lemma_starts_with(s, j, tail, "]"@);
        assert(s[j + tail.len()] == ']') by {
            assert(s.subrange(j + tail.len(), j + tail.len() + 1)[0] == "]"@[0]);
        }
        lemma_sp_messages_rest_of_enc(seq![ms[0]], ms.drop_first(), s, j);
        assert(seq![ms[0]] + ms.drop_first() =~= ms);
    }
}

/// The stored form of one branch.
pub open spec fn enc_branch(b: crate::chat_branch::BranchView) -> Seq<char> {
    "{\"id\":"@ + dec_digits(b.id) + ",\"name\":"@ + enc_string(b.name) + ",\"messages\":"@
        + enc_messages(b.messages) + "}"@
}

/// The stored form of the rest of a branch list.
pub open spec fn enc_brs_rest(bs: Seq<crate::chat_branch::BranchView>) -> Seq<char>
    decreases bs.len(),
{
    if bs.len() == 0 {
        Seq::<char>::empty()
    } else {
        ","@ + enc_branch(bs[0]) + enc_brs_rest(bs.drop_first())
    }
}

/// The stored form of the whole branch list: what the conversation store
/// writes to disk.
pub open spec fn enc_branches(bs: Seq<crate::chat_branch::BranchView>) -> Seq<char> {
    if bs.len() == 0 {
        "[]"@
    } else {
        "["@ + enc_branch(bs[0]) + enc_brs_rest(bs.drop_first()) + "]"@
    }
}

/// A stored branch: its value and the position just past it.
pub open spec fn sp_branch(s: Seq<char>, i: int) -> Option<(crate::chat_branch::BranchView, int)> {
    if !match_lit(s, i, "{\"id\":"@) {
        None
    } else {
        match sp_number(s, i + "{\"id\":"@.len(), usize::MAX as int) {
            None => None,
            Some((id, e)) => if !match_lit(s, e, ",\"name\":"@) {
                None
            } else {
                match sp_string(s, e + ",\"name\":"@.len()) {
                    None => None,
                    Some((name, k)) => if !match_lit(s, k, ",\"messages\":"@) {
                        None
                    } else {
                        match sp_messages(s, k + ",\"messages\":"@.len()) {
                            None => None,
                            Some((messages, l)) => if match_lit(s, l, "}"@) {
                                Some(
                                    (
                                        crate::chat_branch::BranchView { id, name, messages },
                                        l + 1,
                                    ),
                                )
                            } else {
                                None
                            },
                        }
                    },
                }
            },
        }
    }
}

/// The rest of a stored branch list, after `done` elements already read.
pub open spec fn sp_branches_rest(
    s: Seq<char>,
    i: int,
    done: Seq<crate::chat_branch::BranchView>,
) -> Option<(Seq<crate::chat_branch::BranchView>, int)>
    decreases s.len() - i,
{
    if i < 0 || i > s.len() {
        None
    } else if match_lit(s, i, "]"@) {
        Some((done, i + 1))
    } else if match_lit(s, i, ","@) {
        match sp_branch(s, i + 1) {
            None => None,
            Some((b, j)) => if j <= i + 1 || j > s.len() {
                None
            } else {
                sp_branches_rest(s, j, done.push(b))
            },
        }
    } else {
        None
    }
}

/// A stored branch list: its value and the position just past it.
pub open spec fn sp_branches(s: Seq<char>, i: int) -> Option<
    (Seq<crate::chat_branch::BranchView>, int),
> {
    if !match_lit(s, i, "["@) {
        None
    } else if match_lit(s, i + 1, "]"@) {
        Some((Seq::<crate::chat_branch::BranchView>::empty(), i + 2))
    } else {
        match sp_branch(s, i + 1) {
            None => None,
            Some((b, j)) => if j <= i + 1 || j > s.len() {
                None
            } else {
                sp_branches_rest(s, j, seq![b])
            },
        }
    }
}

/// What a whole store text holds: a branch list covering the entire text.
pub open spec fn branches_of_text(s: Seq<char>) -> Option<
    Seq<crate::chat_branch::BranchView>,
> {
    match sp_branches(s, 0) {
        Some((bs, j)) => if j == s.len() {
            Some(bs)
        } else {
            None
        },
        None => None,
    }
}

/// Parsing inverts branch encoding.
proof fn lemma_sp_branch_of_enc(b: crate::chat_branch::BranchView, s: Seq<char>, i: int)
    requires
        0 <= i,
        0 <= b.id <= usize::MAX,
        i + enc_branch(b).len() <= s.len(),
        s.subrange(i, i + enc_branch(b).len()) == enc_branch(b),
    ensures
        sp_branch(s, i) == Some((b, i + enc_branch(b).len())),
        enc_branch(b).len() > 0,
{
    let l1 = "{\"id\":"@;
    let l2 = ",\"name\":"@;
    let l3 = ",\"messages\":"@;
    let l4 = "}"@;
    let ei = dec_digits(b.id);
    let en = enc_string(b.name);
    let ems = enc_messages(b.messages);
    let eb = enc_branch(b);
    assert(eb =~= l1 + (ei + (l2 + (en + (l3 + (ems + l4))))));
    lemma_starts_with(s, i, l1, ei + (l2 + (en + (l3 + (ems + l4)))));
    let i1 = i + l1.len();
    lemma_starts_with(s, i1, ei, l2 + (en + (l3 + (ems + l4))));
    let i2 = i1 + ei.len();
    lemma_starts_with(s, i2, l2, en + (l3 + (ems + l4)));
    let i3 = i2 + l2.len();
    lemma_starts_with(s, i3, en, l3 + (ems + l4));
    let i4 = i3 + en.len();
    lemma_starts_with(s, i4, l3, ems + l4);
    let i5 = i4 + l3.len();
    lemma_starts_with(s, i5, ems, l4);
    let i6 = i5 + ems.len();
    assert(match_lit(s, i, l1));
    reveal_strlit(",\"name\":");
    assert(s[i2] == ',') by {
        assert(s.subrange(i2, i2 + l2.len())[0] == l2[0]);
        assert(l2[0] == ',');
    }
    assert(!is_digit_char(','));
    lemma_sp_number_of_enc(b.id, s, i1, usize::MAX as int);
    assert(match_lit(s, i2, l2));
    lemma_sp_string_of_enc(b.name, s, i3);
    assert(match_lit(s, i4, l3));
    lemma_sp_messages_of_enc(b.messages, s, i5);
    assert(match_lit(s, i6, l4));
    reveal_strlit("{\"id\":");
    reveal_strlit(",\"messages\":");
    reveal_strlit("}");
    assert(sp_branch(s, i) == Some(
        (
            crate::chat_branch::BranchView { id: b.id, name: b.name, messages: b.messages },
            i6 + 1,
        ),
    ));
    assert((crate::chat_branch::BranchView { id: b.id, name: b.name, messages: b.messages })
        == b);
}

/// Whether every branch id in the list fits the machine's id type.
pub open spec fn branch_ids_in_range(bs: Seq<crate::chat_branch::BranchView>) -> bool {
    forall|k: int| 0 <= k < bs.len() ==> 0 <= #[trigger] bs[k].id <= usize::MAX
}

/// Parsing inverts the encoding of a branch list's tail.
proof fn lemma_sp_branches_rest_of_enc(
    done: Seq<crate::chat_branch::BranchView>,
    rest: Seq<crate::chat_branch::BranchView>,
    s: Seq<char>,
    i: int,
)
    requires
        0 <= i,
        branch_ids_in_range(rest),
        i + enc_brs_rest(rest).len() + 1 <= s.len(),
        s.subrange(i, i + enc_brs_rest(rest).len()) == enc_brs_rest(rest),
        s[i + enc_brs_rest(rest).len()] == ']',
    ensures
        sp_branches_rest(s, i, done) == Some((done + rest, i + enc_brs_rest(rest).len() + 1)),
    decreases rest.len(),
{
    reveal_strlit("]");
    reveal_strlit(",");
    if rest.len() == 0 {
        assert(s[i] == ']');
        assert(s.subrange(i, i + 1) =~= "]"@);
        assert(match_lit(s, i, "]"@));
        assert(done + rest =~= done);
    } else {
        let eb = enc_branch(rest[0]);
        let tail = enc_brs_rest(rest.drop_first());
        let whole = enc_brs_rest(rest);
        assert(whole =~= ","@ + (eb + tail));
        lemma_starts_with(s, i, ","@, eb + tail);
        assert(s.subrange(i, i + 1)[0] == ","@[0]);
        assert(s[i] == ',');
        assert(match_lit(s, i, ","@));
        lemma_not_lit(s, i, ","@, "]"@, 0);
        let i1 = i + 1;
        lemma_starts_with(s, i1, eb, tail);
        assert(0 <= rest[0].id <= usize::MAX);
        lemma_sp_branch_of_enc(rest[0], s, i1);
        let j = i1 + eb.len();
        assert forall|k: int|
            0 <= k < rest.drop_first().len() implies 0 <= #[trigger] rest.drop_first()[k].id
            <= usize::MAX by {
            assert(rest.drop_first()[k] == rest[k + 1]);
        }
        lemma_sp_branches_rest_of_enc(done.push(rest[0]), rest.drop_first(), s, j);
        assert(done.push(rest[0]) + rest.drop_first() =~= done + rest);
    }
}

/// Parsing inverts branch-list encoding.
#[verifier::rlimit(50)]
proof fn lemma_sp_branches_of_enc(bs: Seq<crate::chat_branch::BranchView>, s: Seq<char>, i: int)
    requires
        0 <= i,
        branch_ids_in_range(bs),
        i + enc_branches(bs).len() <= s.len(),
        s.subrange(i, i + enc_branches(bs).len()) == enc_branches(bs),
    ensures
        sp_branches(s, i) == Some((bs, i + enc_branches(bs).len())),
{
    reveal_strlit("[");
    reveal_strlit("]");
    reveal_strlit("[]");
    let e = enc_branches(bs);
    assert forall|k: int| 0 <= k < e.len() implies s[i + k] == #[trigger] e[k] by {
        assert(s.subrange(i, i + e.len())[k] == s[i + k]);
    }
    if bs.len() == 0 {
        assert(e.len() == 2);
        assert(e[0] == '[' && e[1] == ']');
        assert(s[i + 0] == e[0] && s[i + 1] == e[1]);
        assert(s.subrange(i, i + 1) =~= "["@);
        assert(s.subrange(i + 1, i + 2) =~= "]"@);
        assert(match_lit(s, i, "["@));
        assert(match_lit(s, i + 1, "]"@));
    } else {
        let eb = enc_branch(bs[0]);
        let tail = enc_brs_rest(bs.drop_first());
        assert(e =~= "["@ + (eb + (tail + "]"@)));
        lemma_starts_with(s, i, "["@, eb + (tail + "]"@));
        assert(s.subrange(i, i + 1)[0] == "["@[0]);
        assert(match_lit(s, i, "["@));
        let i1 = i + 1;
        lemma_starts_with(s, i1, eb, tail + "]"@);
        assert(0 <= bs[0].id <= usize::MAX);
        lemma_sp_branch_of_enc(bs[0], s, i1);
        reveal_strlit("{\"id\":");
        assert(eb[0] == '{') by {
            assert(eb =~= "{\"id\":"@ + (dec_digits(bs[0].id) + (",\"name\":"@ + (enc_string(
                bs[0].name,
            ) + (",\"messages\":"@ + (enc_messages(bs[0].messages) + "}"@))))));
            assert("{\"id\":"@[0] == '{');
        }
        assert(s[i1] == '{') by {
            assert(s.subrange(i1, i1 + eb.len())[0] == eb[0]);
        }
        lemma_not_lit(s, i1, eb, "]"@, 0);
        let j = i1 + eb.len();
        lemma_starts_with(s, j, tail, "]"@);
        assert(s[j + tail.len()] == ']') by {
            assert(s.subrange(j + tail.len(), j + tail.len() + 1)[0] == "]"@[0]);
        }
        assert forall|k: int|
            0 <= k < bs.drop_first().len() implies 0 <= #[trigger] bs.drop_first()[k].id
            <= usize::MAX by {
            assert(bs.drop_first()[k] == bs[k + 1]);
        }
        lemma_sp_branches_rest_of_enc(seq![bs[0]], bs.drop_first(), s, j);
        assert(seq![bs[0]] + bs.drop_first() =~= bs);
    }
}

/// Law: the store's text format round-trips.  Whatever branch list is
/// persisted, parsing the persisted text yields exactly that list.
pub proof fn lemma_branches_round_trip(bs: Seq<crate::chat_branch::BranchView>)
    requires
        branch_ids_in_range(bs),
    ensures
        branches_of_text(enc_branches(bs)) == Some(bs),
{
    let s = enc_branches(bs);
    assert(s.subrange(0, s.len() as int) =~= s);
    lemma_sp_branches_of_enc(bs, s, 0);
}

proof fn lemma_enc_msgs_rest_snoc(
    a: Seq<crate::chat_structs::MessageView>,
    m: crate::chat_structs::MessageView,
)
    ensures
        enc_msgs_rest(a.push(m)) == enc_msgs_rest(a) + (","@ + enc_message(m)),
    decreases a.len(),
{
    if a.len() == 0 {
        assert(a.push(m)[0] == m);
        assert(enc_msgs_rest(a.push(m).drop_first()) =~= Seq::<char>::empty()) by {
            assert(a.push(m).drop_first() =~= Seq::<crate::chat_structs::MessageView>::empty());
            assert(enc_msgs_rest(Seq::<crate::chat_structs::MessageView>::empty())
                =~= Seq::<char>::empty());
        }
        assert(enc_msgs_rest(a.push(m)) =~= enc_msgs_rest(a) + (","@ + enc_message(m)));
    } else {
        assert(a.push(m).drop_first() =~= a.drop_first().push(m));
        lemma_enc_msgs_rest_snoc(a.drop_first(), m);
        assert(enc_msgs_rest(a.push(m).drop_first()) == enc_msgs_rest(a.drop_first()) + (","@
            + enc_message(m)));
        assert(a.push(m)[0] == a[0]);
        assert(enc_msgs_rest(a.push(m)) =~= enc_msgs_rest(a) + (","@ + enc_message(m)));
    }
}

proof fn lemma_enc_brs_rest_snoc(
    a: Seq<crate::chat_branch::BranchView>,
    b: crate::chat_branch::BranchView,
)
    ensures
        enc_brs_rest(a.push(b)) == enc_brs_rest(a) + (","@ + enc_branch(b)),
    decreases a.len(),
{
    if a.len() == 0 {
        assert(a.push(b)[0] == b);
        assert(enc_brs_rest(a.push(b).drop_first()) =~= Seq::<char>::empty()) by {
            assert(a.push(b).drop_first() =~= Seq::<crate::chat_branch::BranchView>::empty());
            assert(enc_brs_rest(Seq::<crate::chat_branch::BranchView>::empty())
                =~= Seq::<char>::empty());
        }
        assert(enc_brs_rest(a.push(b)) =~= enc_brs_rest(a) + (","@ + enc_branch(b)));
    } else {
        assert(a.push(b).drop_first() =~= a.drop_first().push(b));
        lemma_enc_brs_rest_snoc(a.drop_first(), b);
        assert(enc_brs_rest(a.push(b).drop_first()) == enc_brs_rest(a.drop_first()) + (","@
            + enc_branch(b)));
        assert(a.push(b)[0] == a[0]);
        assert(enc_brs_rest(a.push(b)) =~= enc_brs_rest(a) + (","@ + enc_branch(b)));
    }
}

/// Appends the stored form of one message.
pub fn push_message(out: &mut Vec<char>, m: &crate::chat_structs::Message)
    ensures
        final(out)@ == old(out)@ + enc_message(m@),
{
    push_lit(out, "{\"role\":");
    match m.role {
        crate::chat_structs::Role::User => push_lit(out, "\"User\""),
        crate::chat_structs::Role::Assistant => push_lit(out, "\"Assistant\""),
    }
    push_lit(out, ",\"content\":");
    push_string(out, &m.content);
    push_lit(out, "}");
    proof {
        assert(final(out)@ =~= old(out)@ + enc_message(m@));
    }
}

/// Appends the stored form of a message list.
pub fn push_messages(out: &mut Vec<char>, ms: &Vec<crate::chat_structs::Message>)
    ensures
        final(out)@ == old(out)@ + enc_messages(ms.deep_view()),
{
    let ghost dv = ms.deep_view();
    push_lit(out, "[");
    if ms.len() == 0 {
        push_lit(out, "]");
        proof {
            reveal_strlit("[");
            reveal_strlit("]");
            reveal_strlit("[]");
            assert("["@ + "]"@ =~= "[]"@);
            assert(final(out)@ =~= old(out)@ + enc_messages(dv));
        }
        return ;
    }
    push_message(out, &ms[0]);
    proof {
        assert(ms@[0]@ == dv[0]);
        assert(dv.subrange(1, 1) =~= Seq::<crate::chat_structs::MessageView>::empty());
        assert(out@ =~= old(out)@ + "["@ + enc_message(dv[0]) + enc_msgs_rest(
            dv.subrange(1, 1),
        ));
    }
    let mut i: usize = 1;
    while i < ms.len()
        invariant
            dv == ms.deep_view(),
            1 <= i <= dv.len(),
            out@ == old(out)@ + "["@ + enc_message(dv[0]) + enc_msgs_rest(
                dv.subrange(1, i as int),
            ),
        decreases dv.len() - i,
    {
        push_lit(out, ",");
        push_message(out, &ms[i]);
        proof {
            assert(ms@[i as int]@ == dv[i as int]);
            let pre = dv.subrange(1, i as int);
            assert(dv.subrange(1, i + 1) =~= pre.push(dv[i as int]));
            lemma_enc_msgs_rest_snoc(pre, dv[i as int]);
            assert(out@ =~= old(out)@ + "["@ + enc_message(dv[0]) + enc_msgs_rest(
                dv.subrange(1, i + 1),
            ));
        }
        i = i + 1;
    }
    push_lit(out, "]");
    proof {
        assert(dv.subrange(1, dv.len() as int) =~= dv.drop_first());
        assert(final(out)@ =~= old(out)@ + enc_messages(dv));
    }
}

/// Appends the stored form of one branch.
pub fn push_branch(out: &mut Vec<char>, b: &crate::chat_branch::ChatBranch)
    ensures
        final(out)@ == old(out)@ + enc_branch(b@),
{
    push_lit(out, "{\"id\":");
    push_u64_digits(out, b.id as u64);
    push_lit(out, ",\"name\":");
    push_string(out, &b.name);
    push_lit(out, ",\"messages\":");
    push_messages(out, &b.messages);
    push_lit(out, "}");
    proof {
        assert(final(out)@ =~= old(out)@ + enc_branch(b@));
    }
}

/// The store's persisted text for a branch list.
pub fn encode_branches(branches: &Vec<crate::chat_branch::ChatBranch>) -> (r: String)
    ensures
        r@ == enc_branches(branches.deep_view()),
{
    let ghost dv = branches.deep_view();
    let mut out: Vec<char> = Vec::new();
    push_lit(&mut out, "[");
    if branches.len() == 0 {
        push_lit(&mut out, "]");
        proof {
            reveal_strlit("[");
            reveal_strlit("]");
            reveal_strlit("[]");
            assert(out@ =~= enc_branches(dv));
        }
        return crate::text::chars_to_string(&out);
    }
    push_branch(&mut out, &branches[0]);
    proof {
        assert(branches@[0]@ == dv[0]);
        assert(dv.subrange(1, 1) =~= Seq::<crate::chat_branch::BranchView>::empty());
        assert(out@ =~= "["@ + enc_branch(dv[0]) + enc_brs_rest(dv.subrange(1, 1)));
    }
    let mut i: usize = 1;
    while i < branches.len()
        invariant
            dv == branches.deep_view(),
            1 <= i <= dv.len(),
            out@ == "["@ + enc_branch(dv[0]) + enc_brs_rest(dv.subrange(1, i as int)),
        decreases dv.len() - i,
    {
        push_lit(&mut out, ",");
        push_branch(&mut out, &branches[i]);
        proof {
            assert(branches@[i as int]@ == dv[i as int]);
            let pre = dv.subrange(1, i as int);
            assert(dv.subrange(1, i + 1) =~= pre.push(dv[i as int]));
            lemma_enc_brs_rest_snoc(pre, dv[i as int]);
            assert(out@ =~= "["@ + enc_branch(dv[0]) + enc_brs_rest(dv.subrange(1, i + 1)));
        }
        i = i + 1;
    }
    push_lit(&mut out, "]");
    proof {
        assert(dv.subrange(1, dv.len() as int) =~= dv.drop_first());
        assert(out@ =~= enc_branches(dv));
    }
    crate::text::chars_to_string(&out)
}

/// Parses one stored message.
pub fn parse_message_at(chars: &Vec<char>, i: usize) -> (r: Option<
    (crate::chat_structs::Message, usize),
>)
    requires
        i <= chars@.len(),
    ensures
        match r {
            Some((m, j)) => sp_message(chars@, i as int) == Some((m@, j as int)) && i < j
                <= chars@.len(),
            None => sp_message(chars@, i as int) is None,
        },
{
    proof {
        reveal_strlit("{\"role\":");
        reveal_strlit("\"User\"");
        reveal_strlit("\"Assistant\"");
        reveal_strlit(",\"content\":");
        reveal_strlit("}");
    }
    let n = chars.len();
    let l1 = "{\"role\":";
    if !eat_lit(chars, i, l1) {
        return None;
    }
    let i1 = i + l1.unicode_len();
    let lu = "\"User\"";
    let la = "\"Assistant\"";
    let (role, i2): (crate::chat_structs::Role, usize) = if eat_lit(chars, i1, lu) {
        (crate::chat_structs::Role::User, i1 + lu.unicode_len())
    } else if eat_lit(chars, i1, la) {
        (crate::chat_structs::Role::Assistant, i1 + la.unicode_len())
    } else {
        return None;
    };
    let l2 = ",\"content\":";
    if !eat_lit(chars, i2, l2) {
        return None;
    }
    let i3 = i2 + l2.unicode_len();
    match parse_string_at(chars, i3) {
        None => None,
        Some((content, i4)) => {
            if !eat_lit(chars, i4, "}") {
                return None;
            }
            Some((crate::chat_structs::Message { role, content }, i4 + 1))
        },
    }
}

/// Parses a stored message list.
pub fn parse_messages_at(chars: &Vec<char>, i: usize) -> (r: Option<
    (Vec<crate::chat_structs::Message>, usize),
>)
    requires
        i <= chars@.len(),
    ensures
        match r {
            Some((ms, j)) => sp_messages(chars@, i as int) == Some((ms.deep_view(), j as int)) && i
                < j <= chars@.len(),
            None => sp_messages(chars@, i as int) is None,
        },
{
    proof {
        reveal_strlit("[");
        reveal_strlit("]");
        reveal_strlit(",");
    }
    let n = chars.len();
    if !eat_lit(chars, i, "[") {
        return None;
    }
    if eat_lit(chars, i + 1, "]") {
        let empty: Vec<crate::chat_structs::Message> = Vec::new();
        proof {
            assert(empty.deep_view() =~= Seq::<crate::chat_structs::MessageView>::empty());
        }
        return Some((empty, i + 2));
    }
    match parse_message_at(chars, i + 1) {
        None => None,
        Some((m, j)) => {
            let ghost mv = m@;
            let mut acc: Vec<crate::chat_structs::Message> = Vec::new();
            acc.push(m);
            proof {
                assert(acc.deep_view() =~= seq![mv]);
            }
            let mut cur: usize = j;
            loop
                invariant
                    i < cur <= n,
                    n == chars@.len(),
                    match sp_messages_rest(chars@, cur as int, acc.deep_view()) {
                        Some(p) => sp_messages(chars@, i as int) == Some(p),
                        None => sp_messages(chars@, i as int) is None,
                    },
                decreases n - cur,
            {
                proof {
                    reveal_strlit("]");
                    reveal_strlit(",");
                }
                if eat_lit(chars, cur, "]") {
                    proof {
                        assert(sp_messages_rest(chars@, cur as int, acc.deep_view()) == Some(
                            (acc.deep_view(), cur + 1 as int),
                        ));
                    }
                    return Some((acc, cur + 1));
                }
                if !eat_lit(chars, cur, ",") {
                    return None;
                }
                match parse_message_at(chars, cur + 1) {
                    None => {
                        return None;
                    },
                    Some((m2, j2)) => {
                        let ghost m2v = m2@;
                        let ghost preacc = acc.deep_view();
                        acc.push(m2);
                        proof {
                            assert(acc.deep_view() =~= preacc.push(m2v));
                        }
                        cur = j2;
                    },
                }
            }
        },
    }
}

/// Parses one stored branch.
pub fn parse_branch_at(chars: &Vec<char>, i: usize) -> (r: Option<
    (crate::chat_branch::ChatBranch, usize),
>)
    requires
        i <= chars@.len(),
    ensures
        match r {
            Some((b, j)) => sp_branch(chars@, i as int) == Some((b@, j as int)) && i < j
                <= chars@.len(),
            None => sp_branch(chars@, i as int) is None,
        },
{
    proof {
        reveal_strlit("{\"id\":");
        reveal_strlit(",\"name\":");
        reveal_strlit(",\"messages\":");
        reveal_strlit("}");
    }
    let n = chars.len();
    let l1 = "{\"id\":";
    if !eat_lit(chars, i, l1) {
        return None;
    }
    let i1 = i + l1.unicode_len();
    match parse_number_at(chars, i1, usize::MAX as u64) {
        None => None,
        Some((idv, e)) => {
            let id = idv as usize;
            let l2 = ",\"name\":";
            if !eat_lit(chars, e, l2) {
                return None;
            }
            let i2 = e + l2.unicode_len();
            match parse_string_at(chars, i2) {
                None => None,
                Some((name, k)) => {
                    let l3 = ",\"messages\":";
                    if !eat_lit(chars, k, l3) {
                        return None;
                    }
                    let i3 = k + l3.unicode_len();
                    match parse_messages_at(chars, i3) {
                        None => None,
                        Some((messages, l)) => {
                            if !eat_lit(chars, l, "}") {
                                return None;
                            }
                            Some((crate::chat_branch::ChatBranch { id, name, messages }, l + 1))
                        },
                    }
                },
            }
        },
    }
}

/// Parses a stored branch list.
pub fn parse_branches_at(chars: &Vec<char>, i: usize) -> (r: Option<
    (Vec<crate::chat_branch::ChatBranch>, usize),
>)
    requires
        i <= chars@.len(),
    ensures
        match r {
            Some((bs, j)) => sp_branches(chars@, i as int) == Some((bs.deep_view(), j as int)) && i
                < j <= chars@.len(),
            None => sp_branches(chars@, i as int) is None,
        },
{
    proof {
        reveal_strlit("[");
        reveal_strlit("]");
        reveal_strlit(",");
    }
    let n = chars.len();
    if !eat_lit(chars, i, "[") {
        return None;
    }
    if eat_lit(chars, i + 1, "]") {
        let empty: Vec<crate::chat_branch::ChatBranch> = Vec::new();
        proof {
            assert(empty.deep_view() =~= Seq::<crate::chat_branch::BranchView>::empty());
        }
        return Some((empty, i + 2));
    }
    match parse_branch_at(chars, i + 1) {
        None => None,
        Some((b, j)) => {
            let ghost bv = b@;
            let mut acc: Vec<crate::chat_branch::ChatBranch> = Vec::new();
            acc.push(b);
            proof {
                assert(acc.deep_view() =~= seq![bv]);
            }
            let mut cur: usize = j;
            loop
                invariant
                    i < cur <= n,
                    n == chars@.len(),
                    match sp_branches_rest(chars@, cur as int, acc.deep_view()) {
                        Some(p) => sp_branches(chars@, i as int) == Some(p),
                        None => sp_branches(chars@, i as int) is None,
                    },
                decreases n - cur,
            {
                proof {
                    reveal_strlit("]");
                    reveal_strlit(",");
                }
                if eat_lit(chars, cur, "]") {
                    proof {
                        assert(sp_branches_rest(chars@, cur as int, acc.deep_view()) == Some(
                            (acc.deep_view(), cur + 1 as int),
                        ));
                    }
                    return Some((acc, cur + 1));
                }
                if !eat_lit(chars, cur, ",") {
                    return None;
                }
                match parse_branch_at(chars, cur + 1) {
                    None => {
                        return None;
                    },
                    Some((b2, j2)) => {
                        let ghost b2v = b2@;
                        let ghost preacc = acc.deep_view();
                        acc.push(b2);
                        proof {
                            assert(acc.deep_view() =~= preacc.push(b2v));
                        }
                        cur = j2;
                    },
                }
            }
        },
    }
}

/// Why loading a persisted store failed.
#[derive(Clone, Copy, Debug, PartialEq, Eq, Structural)]
pub enum LoadError {
    /// The text is not a store record: corrupt contents.
    Parse,
    /// The record parsed, but two branches carry the same id.
    DuplicateIds,
}

/// Decodes the store's persisted text into branches, enforcing the store's
/// invariant that branch ids are unique.  Corrupt contents are a fatal load
/// error, never repaired silently.
pub fn decode_branches(text: &str) -> (r: Result<Vec<crate::chat_branch::ChatBranch>, LoadError>)
    ensures
        match r {
            Ok(bs) => branches_of_text(text@) == Some(bs.deep_view())
                && crate::chat_branch::ids_unique(bs.deep_view()),
            Err(e) => match e {
                LoadError::Parse => branches_of_text(text@) is None,
                LoadError::DuplicateIds => match branches_of_text(text@) {
                    Some(bs) => !crate::chat_branch::ids_unique(bs),
                    None => false,
                },
            },
        },
{
    let chars = crate::text::string_to_chars(text);
    match parse_branches_at(&chars, 0) {
        None => Err(LoadError::Parse),
        Some((bs, j)) => {
            if j != chars.len() {
                Err(LoadError::Parse)
            } else if !crate::chat_branch::branch_ids_unique(&bs) {
                Err(LoadError::DuplicateIds)
            } else {
                Ok(bs)
            }
        },
    }
}

/// The stored form of a backend name.
pub open spec fn backend_lit(b: crate::ai_backend::AIBackend) -> Seq<char> {
    match b {
        crate::ai_backend::AIBackend::OpenAI => "\"OpenAI\""@,
        crate::ai_backend::AIBackend::Anthropic => "\"Anthropic\""@,
        crate::ai_backend::AIBackend::Google => "\"Google\""@,
        crate::ai_backend::AIBackend::Groq => "\"Groq\""@,
        crate::ai_backend::AIBackend::Ollama => "\"Ollama\""@,
        crate::ai_backend::AIBackend::XAi => "\"XAi\""@,
        crate::ai_backend::AIBackend::Phind => "\"Phind\""@,
    }
}

/// The three digits of a temperature's fractional part, in thousandths.
pub open spec fn frac3(f: int) -> Seq<char> {
    seq![digit_char(f / 100), digit_char((f / 10) % 10), digit_char(f % 10)]
}

/// The stored form of the settings record: what the configuration store
/// writes to disk.
pub open spec fn enc_settings(v: crate::ai_backend::SettingsView) -> Seq<char> {
    "{\"backend\":"@ + backend_lit(v.backend) + ",\"model\":"@ + enc_string(v.model)
        + ",\"api_key\":"@ + (match v.api_key {
        None => "null"@,
        Some(k) => enc_string(k),
    }) + ",\"temperature\":"@ + dec_digits(v.temperature_milli / 1000) + "."@ + frac3(
        v.temperature_milli % 1000,
    ) + ",\"max_tokens\":"@ + dec_digits(v.max_tokens) + "}"@
}

/// A stored backend name: which it is and the position just past it.
pub open spec fn sp_backend(s: Seq<char>, i: int) -> Option<(crate::ai_backend::AIBackend, int)> {
    if match_lit(s, i, "\"OpenAI\""@) {
        Some((crate::ai_backend::AIBackend::OpenAI, i + "\"OpenAI\""@.len()))
    } else if match_lit(s, i, "\"Anthropic\""@) {
        Some((crate::ai_backend::AIBackend::Anthropic, i + "\"Anthropic\""@.len()))
    } else if match_lit(s, i, "\"Google\""@) {
        Some((crate::ai_backend::AIBackend::Google, i + "\"Google\""@.len()))
    } else if match_lit(s, i, "\"Groq\""@) {
        Some((crate::ai_backend::AIBackend::Groq, i + "\"Groq\""@.len()))
    } else if match_lit(s, i, "\"Ollama\""@) {
        Some((crate::ai_backend::AIBackend::Ollama, i + "\"Ollama\""@.len()))
    } else if match_lit(s, i, "\"XAi\""@) {
        Some((crate::ai_backend::AIBackend::XAi, i + "\"XAi\""@.len()))
    } else if match_lit(s, i, "\"Phind\""@) {
        Some((crate::ai_backend::AIBackend::Phind, i + "\"Phind\""@.len()))
    } else {
        None
    }
}

/// Three stored fractional digits: their value in thousandths and the
/// position just past them.
pub open spec fn sp_frac3(s: Seq<char>, i: int) -> Option<(int, int)> {
    if 0 <= i && i + 3 <= s.len() && is_digit_char(s[i]) && is_digit_char(s[i + 1])
        && is_digit_char(s[i + 2]) {
        Some(
            (
                100 * crate::text::digit_val(s[i]) + 10 * crate::text::digit_val(s[i + 1])
                    + crate::text::digit_val(s[i + 2]),
                i + 3,
            ),
        )
    } else {
        None
    }
}

/// A stored settings record: its value and the position just past it.
pub open spec fn sp_settings(s: Seq<char>, i: int) -> Option<
    (crate::ai_backend::SettingsView, int),
> {
    if !match_lit(s, i, "{\"backend\":"@) {
        None
    } else {
        match sp_backend(s, i + "{\"backend\":"@.len()) {
            None => None,
            Some((backend, j1)) => if !match_lit(s, j1, ",\"model\":"@) {
                None
            } else {
                match sp_string(s, j1 + ",\"model\":"@.len()) {
                    None => None,
                    Some((model, j2)) => if !match_lit(s, j2, ",\"api_key\":"@) {
                        None
                    } else {
                        let j3 = j2 + ",\"api_key\":"@.len();
                        let keyres = if match_lit(s, j3, "null"@) {
                            Some((None::<Seq<char>>, j3 + "null"@.len()))
                        } else {
                            match sp_string(s, j3) {
                                None => None,
                                Some((k, j4)) => Some((Some(k), j4)),
                            }
                        };
                        match keyres {
                            None => None,
                            Some((api_key, j4)) => if !match_lit(s, j4, ",\"temperature\":"@) {
                                None
                            } else {
                                match sp_number(
                                    s,
                                    j4 + ",\"temperature\":"@.len(),
                                    u32::MAX as int,
                                ) {
                                    None => None,
                                    Some((q, j5)) => if !match_lit(s, j5, "."@) {
                                        None
                                    } else {
                                        match sp_frac3(s, j5 + 1) {
                                            None => None,
                                            Some((f, j6)) => if q * 1000 + f > u32::MAX
                                                || !match_lit(s, j6, ",\"max_tokens\":"@) {
                                                None
                                            } else {
                                                match sp_number(
                                                    s,
                                                    j6 + ",\"max_tokens\":"@.len(),
                                                    usize::MAX as int,
                                                ) {
                                                    None => None,
                                                    Some((mt, j7)) => if match_lit(s, j7, "}"@) {
                                                        Some(
                                                            (
                                                                crate::ai_backend::SettingsView {
                                                                    backend,
                                                                    model,
                                                                    api_key,
                                                                    temperature_milli: q * 1000 + f,
                                                                    max_tokens: mt,
                                                                },
                                                                j7 + 1,
                                                            ),
                                                        )
                                                    } else {
                                                        None
                                                    },
                                                }
                                            },
                                        }
                                    },
                                }
                            },
                        }
                    },
                }
            },
        }
    }
}

/// What a whole settings text holds: a settings record covering the entire
/// text.
pub open spec fn settings_of_text(s: Seq<char>) -> Option<crate::ai_backend::SettingsView> {
    match sp_settings(s, 0) {
        Some((v, j)) => if j == s.len() {
            Some(v)
        } else {
            None
        },
        None => None,
    }
}

/// Parsing inverts backend-name encoding.
proof fn lemma_sp_backend_of_enc(b: crate::ai_backend::AIBackend, s: Seq<char>, i: int)
    requires
        0 <= i,
        i + backend_lit(b).len() <= s.len(),
        s.subrange(i, i + backend_lit(b).len()) == backend_lit(b),
    ensures
        sp_backend(s, i) == Some((b, i + backend_lit(b).len())),
{
    reveal_strlit("\"OpenAI\"");
    reveal_strlit("\"Anthropic\"");
    reveal_strlit("\"Google\"");
    reveal_strlit("\"Groq\"");
    reveal_strlit("\"Ollama\"");
    reveal_strlit("\"XAi\"");
    reveal_strlit("\"Phind\"");
    let a = backend_lit(b);
    match b {
        crate::ai_backend::AIBackend::OpenAI => {
            assert(match_lit(s, i, "\"OpenAI\""@));
        },
        crate::ai_backend::AIBackend::Anthropic => {
            lemma_not_lit(s, i, a, "\"OpenAI\""@, 1);
            assert(match_lit(s, i, "\"Anthropic\""@));
        },
        crate::ai_backend::AIBackend::Google => {
            lemma_not_lit(s, i, a, "\"OpenAI\""@, 1);
            lemma_not_lit(s, i, a, "\"Anthropic\""@, 1);
            assert(match_lit(s, i, "\"Google\""@));
        },
        crate::ai_backend::AIBackend::Groq => {
            lemma_not_lit(s, i, a, "\"OpenAI\""@, 1);
            lemma_not_lit(s, i, a, "\"Anthropic\""@, 1);
            lemma_not_lit(s, i, a, "\"Google\""@, 2);
            assert(match_lit(s, i, "\"Groq\""@));
        },
        crate::ai_backend::AIBackend::Ollama => {
            lemma_not_lit(s, i, a, "\"OpenAI\""@, 2);
            lemma_not_lit(s, i, a, "\"Anthropic\""@, 1);
            lemma_not_lit(s, i, a, "\"Google\""@, 1);
            lemma_not_lit(s, i, a, "\"Groq\""@, 1);
            assert(match_lit(s, i, "\"Ollama\""@));
        },
        crate::ai_backend::AIBackend::XAi => {
            lemma_not_lit(s, i, a, "\"OpenAI\""@, 1);
            lemma_not_lit(s, i, a, "\"Anthropic\""@, 1);
            lemma_not_lit(s, i, a, "\"Google\""@, 1);
            lemma_not_lit(s, i, a, "\"Groq\""@, 1);
            lemma_not_lit(s, i, a, "\"Ollama\""@, 1);
            assert(match_lit(s, i, "\"XAi\""@));
        },
        crate::ai_backend::AIBackend::Phind => {
            lemma_not_lit(s, i, a, "\"OpenAI\""@, 1);
            lemma_not_lit(s, i, a, "\"Anthropic\""@, 1);
            lemma_not_lit(s, i, a, "\"Google\""@, 1);
            lemma_not_lit(s, i, a, "\"Groq\""@, 1);
            lemma_not_lit(s, i, a, "\"Ollama\""@, 1);
            lemma_not_lit(s, i, a, "\"XAi\""@, 1);
            assert(match_lit(s, i, "\"Phind\""@));
        },
    }
}

/// Parsing inverts the three fractional digits.
proof fn lemma_sp_frac3_of_enc(f: int, s: Seq<char>, i: int)
    requires
        0 <= f < 1000,
        0 <= i,
        i + 3 <= s.len(),
        s.subrange(i, i + 3) == frac3(f),
    ensures
        sp_frac3(s, i) == Some((f, i + 3)),
{
    assert(s[i] == frac3(f)[0]) by {
        assert(s.subrange(i, i + 3)[0] == frac3(f)[0]);
    }
    assert(s[i + 1] == frac3(f)[1]) by {
        assert(s.subrange(i, i + 3)[1] == frac3(f)[1]);
    }
    assert(s[i + 2] == frac3(f)[2]) by {
        assert(s.subrange(i, i + 3)[2] == frac3(f)[2]);
    }
    assert(100 * (f / 100) + 10 * ((f / 10) % 10) + f % 10 == f) by (nonlinear_arith)
        requires
            0 <= f < 1000,
    ;
}

/// Parsing inverts settings encoding.
#[verifier::rlimit(100)]
proof fn lemma_sp_settings_of_enc(v: crate::ai_backend::SettingsView, s: Seq<char>, i: int)
    requires
        0 <= i,
        0 <= v.temperature_milli <= u32::MAX,
        0 <= v.max_tokens <= usize::MAX,
        i + enc_settings(v).len() <= s.len(),
        s.subrange(i, i + enc_settings(v).len()) == enc_settings(v),
    ensures
        sp_settings(s, i) == Some((v, i + enc_settings(v).len())),
{
    reveal_strlit(".");
    reveal_strlit("}");
    reveal_strlit("null");
    reveal_strlit("{\"backend\":");
    reveal_strlit(",\"model\":");
    reveal_strlit(",\"api_key\":");
    reveal_strlit(",\"temperature\":");
    reveal_strlit(",\"max_tokens\":");
    let l1 = "{\"backend\":"@;
    let bl = backend_lit(v.backend);
    let l2 = ",\"model\":"@;
    let em = enc_string(v.model);
    let l3 = ",\"api_key\":"@;
    let ak = match v.api_key {
        None => "null"@,
        Some(k) => enc_string(k),
    };
    let l4 = ",\"temperature\":"@;
    let q = v.temperature_milli / 1000;
    let f = v.temperature_milli % 1000;
    let dq = dec_digits(q);
    let fr = frac3(f);
    let l5 = ",\"max_tokens\":"@;
    let dm = dec_digits(v.max_tokens);
    let l6 = "}"@;
    let e = enc_settings(v);
    assert(e =~= l1 + (bl + (l2 + (em + (l3 + (ak + (l4 + (dq + ("."@ + (fr + (l5 + (dm
        + l6))))))))))));
    lemma_starts_with(s, i, l1, bl + (l2 + (em + (l3 + (ak + (l4 + (dq + ("."@ + (fr + (l5 + (dm
        + l6)))))))))));
    let i1 = i + l1.len();
    lemma_starts_with(s, i1, bl, l2 + (em + (l3 + (ak + (l4 + (dq + ("."@ + (fr + (l5 + (dm
        + l6))))))))));
    let i2 = i1 + bl.len();
    lemma_starts_with(s, i2, l2, em + (l3 + (ak + (l4 + (dq + ("."@ + (fr + (l5 + (dm + l6)))))))));
    let i3 = i2 + l2.len();
    lemma_starts_with(s, i3, em, l3 + (ak + (l4 + (dq + ("."@ + (fr + (l5 + (dm + l6))))))));
    let i4 = i3 + em.len();
    lemma_starts_with(s, i4, l3, ak + (l4 + (dq + ("."@ + (fr + (l5 + (dm + l6)))))));
    let i5 = i4 + l3.len();
    lemma_starts_with(s, i5, ak, l4 + (dq + ("."@ + (fr + (l5 + (dm + l6))))));
    let i6 = i5 + ak.len();
    lemma_starts_with(s, i6, l4, dq + ("."@ + (fr + (l5 + (dm + l6)))));
    let i7 = i6 + l4.len();
    lemma_starts_with(s, i7, dq, "."@ + (fr + (l5 + (dm + l6))));
    let i8 = i7 + dq.len();
    lemma_starts_with(s, i8, "."@, fr + (l5 + (dm + l6)));
    let i9 = i8 + 1;
    lemma_starts_with(s, i9, fr, l5 + (dm + l6));
    let i10 = i9 + fr.len();
    lemma_starts_with(s, i10, l5, dm + l6);
    let i11 = i10 + l5.len();
    lemma_starts_with(s, i11, dm, l6);
    let i12 = i11 + dm.len();
    assert(match_lit(s, i, l1));
    lemma_sp_backend_of_enc(v.backend, s, i1);
    assert(match_lit(s, i2, l2));
    lemma_sp_string_of_enc(v.model, s, i3);
    assert(match_lit(s, i4, l3));
    reveal_strlit("null");
    match v.api_key {
        None => {
            assert(match_lit(s, i5, "null"@));
        },
        Some(k) => {
            assert(ak[0] == '"');
            assert("null"@[0] == 'n');
            lemma_not_lit(s, i5, ak, "null"@, 0);
            lemma_sp_string_of_enc(k, s, i5);
        },
    }
    assert(match_lit(s, i6, l4));
    reveal_strlit(".");
    assert(s[i8] == '.') by {
        assert(s.subrange(i8, i8 + 1)[0] == "."@[0]);
    }
    assert(!is_digit_char('.'));
    assert(q <= u32::MAX);
    lemma_sp_number_of_enc(q, s, i7, u32::MAX as int);
    assert(match_lit(s, i8, "."@));
    lemma_sp_frac3_of_enc(f, s, i9);
    assert(q * 1000 + f == v.temperature_milli);
    assert(match_lit(s, i10, l5));
    reveal_strlit(",\"max_tokens\":");
    assert(s[i11 + dm.len()] == '}') by {
        reveal_strlit("}");
        assert(s.subrange(i12, i12 + 1)[0] == l6[0]);
    }
    assert(s[i10] == ',') by {
        assert(s.subrange(i10, i10 + l5.len())[0] == l5[0]);
    }
    assert(!is_digit_char(','));
    assert(!is_digit_char('}'));
    lemma_sp_number_of_enc(v.max_tokens, s, i11, usize::MAX as int);
    assert(match_lit(s, i12, l6)) by {
        reveal_strlit("}");
    }
    assert(sp_settings(s, i) == Some(
        (
            crate::ai_backend::SettingsView {
                backend: v.backend,
                model: v.model,
                api_key: v.api_key,
                temperature_milli: q * 1000 + f,
                max_tokens: v.max_tokens,
            },
            i12 + 1,
        ),
    ));
    assert((crate::ai_backend::SettingsView {
        backend: v.backend,
        model: v.model,
        api_key: v.api_key,
        temperature_milli: q * 1000 + f,
        max_tokens: v.max_tokens,
    }) == v);
}

/// Law: the settings text format round-trips.  Whatever settings record is
/// persisted, parsing the persisted text yields exactly that record.
pub proof fn lemma_settings_round_trip(v: crate::ai_backend::SettingsView)
    requires
        0 <= v.temperature_milli <= u32::MAX,
        0 <= v.max_tokens <= usize::MAX,
    ensures
        settings_of_text(enc_settings(v)) == Some(v),
{
    let s = enc_settings(v);
    assert(s.subrange(0, s.len() as int) =~= s);
    lemma_sp_settings_of_enc(v, s, 0);
}

/// The store's persisted text for the settings.
pub fn encode_settings(v: &crate::ai_backend::AISettings) -> (r: String)
    ensures
        r@ == enc_settings(v@),
{
    let mut out: Vec<char> = Vec::new();
    push_lit(&mut out, "{\"backend\":");
    match v.backend {
        crate::ai_backend::AIBackend::OpenAI => push_lit(&mut out, "\"OpenAI\""),
        crate::ai_backend::AIBackend::Anthropic => push_lit(&mut out, "\"Anthropic\""),
        crate::ai_backend::AIBackend::Google => push_lit(&mut out, "\"Google\""),
        crate::ai_backend::AIBackend::Groq => push_lit(&mut out, "\"Groq\""),
        crate::ai_backend::AIBackend::Ollama => push_lit(&mut out, "\"Ollama\""),
        crate::ai_backend::AIBackend::XAi => push_lit(&mut out, "\"XAi\""),
        crate::ai_backend::AIBackend::Phind => push_lit(&mut out, "\"Phind\""),
    }
    push_lit(&mut out, ",\"model\":");
    push_string(&mut out, &v.model);
    push_lit(&mut out, ",\"api_key\":");
    match &v.api_key {
        None => push_lit(&mut out, "null"),
        Some(k) => push_string(&mut out, k),
    }
    push_lit(&mut out, ",\"temperature\":");
    let q = v.temperature_milli / 1000;
    let f = v.temperature_milli % 1000;
    push_u64_digits(&mut out, q as u64);
    push_lit(&mut out, ".");
    let d0 = digit_to_char((f / 100) as u64);
    let d1 = digit_to_char(((f / 10) % 10) as u64);
    let d2 = digit_to_char((f % 10) as u64);
    out.push(d0);
    out.push(d1);
    out.push(d2);
    proof {
        assert(seq![d0, d1, d2] =~= frac3(v@.temperature_milli % 1000));
    }
    push_lit(&mut out, ",\"max_tokens\":");
    push_u64_digits(&mut out, v.max_tokens as u64);
    push_lit(&mut out, "}");
    proof {
        assert(out@ =~= enc_settings(v@));
    }
    crate::text::chars_to_string(&out)
}

/// The character for one decimal digit.
pub fn digit_to_char(d: u64) -> (c: char)
    requires
        d < 10,
    ensures
        c == digit_char(d as int),
{
    if d == 0 {
        '0'
    } else if d == 1 {
        '1'
    } else if d == 2 {
        '2'
    } else if d == 3 {
        '3'
    } else if d == 4 {
        '4'
    } else if d == 5 {
        '5'
    } else if d == 6 {
        '6'
    } else if d == 7 {
        '7'
    } else if d == 8 {
        '8'
    } else {
        '9'
    }
}

/// Parses three fractional digits.
pub fn parse_frac3_at(chars: &Vec<char>, i: usize) -> (r: Option<(u64, usize)>)
    requires
        i <= chars@.len(),
    ensures
        match r {
            Some((v, j)) => sp_frac3(chars@, i as int) == Some((v as int, j as int)) && v < 1000
                && i < j <= chars@.len(),
            None => sp_frac3(chars@, i as int) is None,
        },
{
    let n = chars.len();
    if n < 3 || i > n - 3 {
        return None;
    }
    let c0 = chars[i];
    let c1 = chars[i + 1];
    let c2 = chars[i + 2];
    if !char_is_digit(c0) || !char_is_digit(c1) || !char_is_digit(c2) {
        return None;
    }
    let v: u64 = 100 * ((c0 as u32 as u64) - 48) + 10 * ((c1 as u32 as u64) - 48) + ((
    c2 as u32 as u64) - 48);
    Some((v, i + 3))
}

/// Parses a stored settings record.
pub fn parse_settings_at(chars: &Vec<char>, i: usize) -> (r: Option<
    (crate::ai_backend::AISettings, usize),
>)
    requires
        i <= chars@.len(),
    ensures
        match r {
            Some((v, j)) => sp_settings(chars@, i as int) == Some((v@, j as int)) && i < j
                <= chars@.len(),
            None => sp_settings(chars@, i as int) is None,
        },
{
    proof {
        reveal_strlit("{\"backend\":");
        reveal_strlit(",\"model\":");
        reveal_strlit(",\"api_key\":");
        reveal_strlit(",\"temperature\":");
        reveal_strlit(",\"max_tokens\":");
        reveal_strlit("null");
        reveal_strlit(".");
        reveal_strlit("}");
        reveal_strlit("\"OpenAI\"");
        reveal_strlit("\"Anthropic\"");
        reveal_strlit("\"Google\"");
        reveal_strlit("\"Groq\"");
        reveal_strlit("\"Ollama\"");
        reveal_strlit("\"XAi\"");
        reveal_strlit("\"Phind\"");
    }
    let n = chars.len();
    let l1 = "{\"backend\":";
    if !eat_lit(chars, i, l1) {
        return None;
    }
    let i1 = i + l1.unicode_len();
    let (backend, j1): (crate::ai_backend::AIBackend, usize) = if eat_lit(
        chars,
        i1,
        "\"OpenAI\"",
    ) {
        (crate::ai_backend::AIBackend::OpenAI, i1 + "\"OpenAI\"".unicode_len())
    } else if eat_lit(chars, i1, "\"Anthropic\"") {
        (crate::ai_backend::AIBackend::Anthropic, i1 + "\"Anthropic\"".unicode_len())
    } else if eat_lit(chars, i1, "\"Google\"") {
        (crate::ai_backend::AIBackend::Google, i1 + "\"Google\"".unicode_len())
    } else if eat_lit(chars, i1, "\"Groq\"") {
        (crate::ai_backend::AIBackend::Groq, i1 + "\"Groq\"".unicode_len())
    } else if eat_lit(chars, i1, "\"Ollama\"") {
        (crate::ai_backend::AIBackend::Ollama, i1 + "\"Ollama\"".unicode_len())
    } else if eat_lit(chars, i1, "\"XAi\"") {
        (crate::ai_backend::AIBackend::XAi, i1 + "\"XAi\"".unicode_len())
    } else if eat_lit(chars, i1, "\"Phind\"") {
        (crate::ai_backend::AIBackend::Phind, i1 + "\"Phind\"".unicode_len())
    } else {
        return None;
    };
    let l2 = ",\"model\":";
    if !eat_lit(chars, j1, l2) {
        return None;
    }
    let i2 = j1 + l2.unicode_len();
    match parse_string_at(chars, i2) {
        None => None,
        Some((model, j2)) => {
            let l3 = ",\"api_key\":";
            if !eat_lit(chars, j2, l3) {
                return None;
            }
            let i3 = j2 + l3.unicode_len();
            let (api_key, j4): (Option<String>, usize) = if eat_lit(chars, i3, "null") {
                (None, i3 + 4)
            } else {
                match parse_string_at(chars, i3) {
                    None => {
                        return None;
                    },
                    Some((k, j)) => (Some(k), j),
                }
            };
            let l4 = ",\"temperature\":";
            if !eat_lit(chars, j4, l4) {
                return None;
            }
            let i4 = j4 + l4.unicode_len();
            match parse_number_at(chars, i4, u32::MAX as u64) {
                None => None,
                Some((q, j5)) => {
                    if !eat_lit(chars, j5, ".") {
                        return None;
                    }
                    match parse_frac3_at(chars, j5 + 1) {
                        None => None,
                        Some((f, j6)) => {
                            let milli: u64 = q * 1000 + f;
                            if milli > u32::MAX as u64 {
                                return None;
                            }
                            let l5 = ",\"max_tokens\":";
                            if !eat_lit(chars, j6, l5) {
                                return None;
                            }
                            let i5 = j6 + l5.unicode_len();
                            match parse_number_at(chars, i5, usize::MAX as u64) {
                                None => None,
                                Some((mt, j7)) => {
                                    if !eat_lit(chars, j7, "}") {
                                        return None;
                                    }
                                    Some(
                                        (
                                            crate::ai_backend::AISettings {
                                                backend,
                                                model,
                                                api_key,
                                                temperature_milli: milli as u32,
                                                max_tokens: mt as usize,
                                            },
                                            j7 + 1,
                                        ),
                                    )
                                },
                            }
                        },
                    }
                },
            }
        },
    }
}

/// Decodes the configuration store's persisted text.  Corrupt contents are
/// a fatal load error.
pub fn decode_settings(text: &str) -> (r: Result<crate::ai_backend::AISettings, LoadError>)
    ensures
        match r {
            Ok(v) => settings_of_text(text@) == Some(v@),
            Err(e) => e is Parse && settings_of_text(text@) is None,
        },
{
    let chars = crate::text::string_to_chars(text);
    match parse_settings_at(&chars, 0) {
        None => Err(LoadError::Parse),
        Some((v, j)) => {
            if j != chars.len() {
                Err(LoadError::Parse)
            } else {
                Ok(v)
            }
        },
    }
}

} // verus!
