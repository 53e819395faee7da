//! Text utilities shared by the screen handlers and the persistence codec:
//! single-character editing of `String` buffers, conversion between `String`
//! and `Vec<char>`, whitespace trimming, and bounded decimal parsing.

use vstd::prelude::*;

verus! {

/// Relies on `String::push`: appends exactly the given character.
#[verifier::external_body]
pub fn string_push(s: &mut String, c: char)
    ensures
        final(s)@ == old(s)@.push(c),
{
    s.push(c)
}

/// Relies on `String::pop`: removes and returns the last character, or
/// returns `None` and leaves the string unchanged when it is empty.
#[verifier::external_body]
pub fn string_pop(s: &mut String) -> (r: Option<char>)
    ensures
        old(s)@.len() == 0 ==> final(s)@ == old(s)@ && r is None,
        old(s)@.len() > 0 ==> final(s)@ == old(s)@.drop_last() && r == Some(
            old(s)@[old(s)@.len() - 1],
        ),
{
    s.pop()
}

/// The characters of a string, as a vector.
pub fn string_to_chars(s: &str) -> (r: Vec<char>)
    ensures
        r@ == s@,
{
    let n = s.unicode_len();
    let mut r: Vec<char> = Vec::new();
    let mut i: usize = 0;
    while i < n
        invariant
            n == s@.len(),
            i <= n,
            r@ == s@.subrange(0, i as int),
        decreases n - i,
    {
        r.push(s.get_char(i));
        i = i + 1;
        proof {
            assert(r@ =~= s@.subrange(0, i as int));
        }
    }
    proof {
        assert(r@ =~= s@);
    }
    r
}

/// The given characters, gathered into a string.
pub fn chars_to_string(v: &Vec<char>) -> (r: String)
    ensures
        r@ == v@,
{
    let mut r = String::new();
    let mut i: usize = 0;
    while i < v.len()
        invariant
            i <= v@.len(),
            r@ == v@.subrange(0, i as int),
        decreases v@.len() - i,
    {
        string_push(&mut r, v[i]);
        i = i + 1;
        proof {
            assert(r@ =~= v@.subrange(0, i as int));
        }
    }
    proof {
        assert(r@ =~= v@);
    }
    r
}

/// Whitespace for the purpose of trimming user input.
pub open spec fn is_space_char(c: char) -> bool {
    c == ' ' || c == '\t' || c == '\n' || c == '\r'
}

/// The sequence with its leading whitespace removed.
pub open spec fn trim_start_of(s: Seq<char>) -> Seq<char>
    decreases s.len(),
{
    if s.len() > 0 && is_space_char(s[0]) {
        trim_start_of(s.drop_first())
    } else {
        s
    }
}

/// The sequence with its trailing whitespace removed.
pub open spec fn trim_end_of(s: Seq<char>) -> Seq<char>
    decreases s.len(),
{
    if s.len() > 0 && is_space_char(s[s.len() - 1]) {
        trim_end_of(s.drop_last())
    } else {
        s
    }
}

/// The sequence with both leading and trailing whitespace removed.
pub open spec fn trim_of(s: Seq<char>) -> Seq<char> {
    trim_end_of(trim_start_of(s))
}

proof fn lemma_trim_start_skip(s: Seq<char>, i: int)
    requires
        0 <= i <= s.len(),
        forall|k: int| 0 <= k < i ==> is_space_char(s[k]),
    ensures
        trim_start_of(s) == trim_start_of(s.subrange(i, s.len() as int)),
    decreases i,
{
    if i > 0 {
        assert(is_space_char(s[0]));
        assert(trim_start_of(s) == trim_start_of(s.drop_first()));
        let t = s.drop_first();
        assert(forall|k: int| 0 <= k < i - 1 ==> #[trigger] t[k] == s[k + 1]);
        lemma_trim_start_skip(t, i - 1);
        assert(t.subrange(i - 1, t.len() as int) =~= s.subrange(i, s.len() as int));
    } else {
        assert(s.subrange(0, s.len() as int) =~= s);
    }
}

proof fn lemma_trim_end_cut(s: Seq<char>, j: int)
    requires
        0 <= j <= s.len(),
        forall|k: int| j <= k < s.len() ==> is_space_char(s[k]),
    ensures
        trim_end_of(s) == trim_end_of(s.subrange(0, j)),
    decreases s.len() - j,
{
    if j < s.len() {
        assert(is_space_char(s[s.len() - 1]));
        assert(trim_end_of(s) == trim_end_of(s.drop_last()));
        let t = s.drop_last();
        assert(forall|k: int| 0 <= k < t.len() ==> #[trigger] t[k] == s[k]);
        lemma_trim_end_cut(t, j);
        assert(t.subrange(0, j) =~= s.subrange(0, j));
    } else {
        assert(s.subrange(0, j) =~= s);
    }
}

/// Whether a character is whitespace for the purpose of trimming.
pub fn char_is_space(c: char) -> (b: bool)
    ensures
        b == is_space_char(c),
{
    c == ' ' || c == '\t' || c == '\n' || c == '\r'
}

/// The string with leading and trailing whitespace removed.
pub fn trim_string(s: &String) -> (r: String)
    ensures
        r@ == trim_of(s@),
{
    let st = s.as_str();
    let n = st.unicode_len();
    let mut i: usize = 0;
    while i < n && char_is_space(st.get_char(i))
        invariant
            n == st@.len(),
            i <= n,
            forall|k: int| 0 <= k < i ==> is_space_char(st@[k]),
        decreases n - i,
    {
        i = i + 1;
    }
    proof {
        lemma_trim_start_skip(st@, i as int);
    }
    let ghost tail = st@.subrange(i as int, n as int);
    proof {
        if i < n {
            assert(!is_space_char(tail[0]));
        }
        assert(trim_start_of(tail) == tail);
    }
    let mut j: usize = n;
    while j > i && char_is_space(st.get_char(j - 1))
        invariant
            n == st@.len(),
            i <= j <= n,
            forall|k: int| j <= k < n ==> is_space_char(st@[k]),
        decreases j,
    {
        j = j - 1;
    }
    proof {
        assert(tail.subrange(j - i, tail.len() as int) =~= st@.subrange(j as int, n as int));
        assert(forall|k: int|
            j - i <= k < tail.len() ==> is_space_char(#[trigger] tail[k]));
        lemma_trim_end_cut(tail, j - i);
        let mid = tail.subrange(0, j - i);
        if j > i {
            assert(mid[mid.len() - 1] == st@[j - 1]);
            assert(!is_space_char(mid[mid.len() - 1]));
        }
        assert(trim_end_of(mid) == mid);
        assert(mid =~= st@.subrange(i as int, j as int));
    }
    let piece = st.substring_char(i, j);
    piece.to_owned()
}

/// Whether a character is a decimal digit.
pub open spec fn is_digit_char(c: char) -> bool {
    48 <= c as u32 <= 57
}

/// The numeric value of a decimal digit character.
pub open spec fn digit_val(c: char) -> int {
    c as u32 - 48
}

/// Whether every character of the sequence is a decimal digit.
pub open spec fn all_digits(s: Seq<char>) -> bool {
    forall|k: int| 0 <= k < s.len() ==> is_digit_char(#[trigger] s[k])
}

/// The value of a sequence of decimal digit characters, most significant
/// digit first.
pub open spec fn digits_value(s: Seq<char>) -> int
    decreases s.len(),
{
    if s.len() == 0 {
        0
    } else {
        digits_value(s.drop_last()) * 10 + digit_val(s[s.len() - 1])
    }
}

proof fn lemma_digits_value_nonneg(s: Seq<char>)
    requires
        all_digits(s),
    ensures
        digits_value(s) >= 0,
    decreases s.len(),
{
    if s.len() > 0 {
        lemma_digits_value_nonneg(s.drop_last());
        assert(digits_value(s.drop_last()) * 10 >= 0) by (nonlinear_arith)
            requires
                digits_value(s.drop_last()) >= 0,
        ;
    }
}

/// Ten to the given power.
pub open spec fn pow10(n: int) -> int
    decreases n,
{
    if n <= 0 {
        1
    } else {
        10 * pow10(n - 1)
    }
}

/// The value of a digit sequence is bounded by ten to its length.
pub proof fn lemma_digits_value_bound(s: Seq<char>)
    requires
        all_digits(s),
    ensures
        0 <= digits_value(s) < pow10(s.len() as int),
    decreases s.len(),
{
    if s.len() > 0 {
        let t = s.drop_last();
        assert(forall|k: int| 0 <= k < t.len() ==> #[trigger] t[k] == s[k]);
        lemma_digits_value_bound(t);
        assert(digits_value(t) * 10 <= (pow10(t.len() as int) - 1) * 10) by (nonlinear_arith)
            requires
                digits_value(t) <= pow10(t.len() as int) - 1,
        ;
    }
}

/// The value of a digit sequence does not decrease when digits are
/// appended: every prefix has a value no larger than the whole.
pub proof fn lemma_digits_value_prefix(s: Seq<char>, i: int)
    requires
        all_digits(s),
        0 <= i <= s.len(),
    ensures
        digits_value(s.subrange(0, i)) <= digits_value(s),
    decreases s.len() - i,
{
    if i < s.len() {
        let t = s.subrange(0, i + 1);
        assert(t.drop_last() =~= s.subrange(0, i));
        lemma_digits_value_nonneg(s.subrange(0, i));
        assert(digits_value(s.subrange(0, i)) <= digits_value(s.subrange(0, i)) * 10
            + digit_val(s[i])) by (nonlinear_arith)
            requires
                digits_value(s.subrange(0, i)) >= 0,
                0 <= digit_val(s[i]),
        ;
        lemma_digits_value_prefix(s, i + 1);
    } else {
        assert(s.subrange(0, i) =~= s);
    }
}

/// Parses the characters of `s` in the index range `[from, to)` as an
/// unsigned decimal number of at most `bound`.  Succeeds exactly when the
/// range is non-empty, holds only digits, and its value fits the bound.
pub fn parse_digits_bounded(s: &Vec<char>, from: usize, to: usize, bound: u64) -> (r: Option<u64>)
    requires
        from <= to <= s@.len(),
    ensures
        ({
            let piece = s@.subrange(from as int, to as int);
            if piece.len() > 0 && all_digits(piece) && digits_value(piece) <= bound {
                r == Some(digits_value(piece) as u64)
            } else {
                r is None
            }
        }),
{
    let ghost piece = s@.subrange(from as int, to as int);
    if from == to {
        return None;
    }
    let mut acc: u64 = 0;
    let mut i: usize = from;
    while i < to
        invariant
            from <= i <= to <= s@.len(),
            piece == s@.subrange(from as int, to as int),
            all_digits(piece.subrange(0, i - from)),
            acc == digits_value(piece.subrange(0, i - from)),
            acc <= bound,
        decreases to - i,
    {
        let c = s[i];
        let cu = c as u32;
        if !(cu >= 48 && cu <= 57) {
            proof {
                assert(piece[i - from] == c);
                assert(!all_digits(piece));
            }
            return None;
        }
        let d: u64 = (cu - 48) as u64;
        let ghost pre = piece.subrange(0, i - from);
        let ghost ext = piece.subrange(0, i + 1 - from);
        proof {
            assert(ext.drop_last() =~= pre);
            assert(ext[ext.len() - 1] == piece[i - from]);
            assert(digits_value(ext) == acc * 10 + d);
        }
        if acc > bound / 10 {
            // The value of this prefix already exceeds the bound, so the
            // whole range does as well.
            proof {
                assert(acc * 10 > bound) by (nonlinear_arith)
                    requires
                        acc >= 0,
                        bound >= 0,
                        acc > bound / 10,
                ;
                if all_digits(piece) {
                    lemma_digits_value_prefix(piece, i + 1 - from);
                }
            }
            return None;
        }
        proof {
            assert(acc * 10 <= bound) by (nonlinear_arith)
                requires
                    acc >= 0,
                    bound >= 0,
                    acc <= bound / 10,
            ;
        }
        let prod: u64 = acc * 10;
        if d > bound - prod {
            proof {
                if all_digits(piece) {
                    lemma_digits_value_prefix(piece, i + 1 - from);
                }
            }
            return None;
        }
        acc = prod + d;
        i = i + 1;
    }
    proof {
        assert(piece.subrange(0, (to - from) as int) =~= piece);
    }
    Some(acc)
}

/// Parses a string as an unsigned decimal number.  Succeeds exactly when
/// the string is non-empty, holds only digits, and its value fits `usize`.
pub fn parse_usize(s: &String) -> (r: Option<usize>)
    ensures
        if s@.len() > 0 && all_digits(s@) && digits_value(s@) <= usize::MAX {
            r == Some(digits_value(s@) as usize)
        } else {
            r is None
        },
        r matches Some(v) ==> v as int == digits_value(s@),
{
    let chars = string_to_chars(s.as_str());
    proof {
        assert(chars@.subrange(0, chars@.len() as int) =~= s@);
        if all_digits(s@) {
            lemma_digits_value_bound(s@);
        }
    }
    match parse_digits_bounded(&chars, 0, chars.len(), usize::MAX as u64) {
        Some(v) => Some(v as usize),
        None => None,
    }
}

} // verus!
