use vstd::prelude::*;
use vstd::string::{StrSliceExecFns, StringExecFns};

verus! {

/// True for the ten decimal digit characters.
pub open spec fn is_dec_digit(c: char) -> bool {
    c == '0' || c == '1' || c == '2' || c == '3' || c == '4' || c == '5' || c == '6' || c == '7'
        || c == '8' || c == '9'
}

/// The numeric value of a digit character.
pub open spec fn digit_val(c: char) -> nat
    recommends
        is_dec_digit(c),
{
    if c == '0' {
        0
    } else if c == '1' {
        1
    } else if c == '2' {
        2
    } else if c == '3' {
        3
    } else if c == '4' {
        4
    } else if c == '5' {
        5
    } else if c == '6' {
        6
    } else if c == '7' {
        7
    } else if c == '8' {
        8
    } else {
        9
    }
}

/// The digit character of a value below ten.
pub open spec fn digit_char(d: nat) -> char
    recommends
        d <= 9,
{
    if d == 0 {
        '0'
    } else if d == 1 {
        '1'
    } else if d == 2 {
        '2'
    } else if d == 3 {
        '3'
    } else if d == 4 {
        '4'
    } else if d == 5 {
        '5'
    } else if d == 6 {
        '6'
    } else if d == 7 {
        '7'
    } else if d == 8 {
        '8'
    } else {
        '9'
    }
}

/// The canonical decimal rendering of `n`, most significant digit first.
pub open spec fn dec_chars(n: nat) -> Seq<char>
    decreases n,
{
    if n < 10 {
        seq![digit_char(n)]
    } else {
        dec_chars(n / 10) + seq![digit_char(n % 10)]
    }
}

/// The numeric value of a string of digit characters.
pub open spec fn dec_val(s: Seq<char>) -> nat
    decreases s.len(),
{
    if s.len() == 0 {
        0
    } else {
        dec_val(s.drop_last()) * 10 + digit_val(s.last())
    }
}

/// A canonical decimal string: non-empty, digits only, no leading zero.
pub open spec fn canonical_dec(s: Seq<char>) -> bool {
    s.len() >= 1 && (forall|i: int| 0 <= i < s.len() ==> is_dec_digit(#[trigger] s[i])) && (s.len()
        > 1 ==> s[0] != '0')
}

/// What parsing a decimal segment yields: the value of a canonical digit
/// string that fits the machine word, nothing otherwise.
pub open spec fn spec_parse_dec(s: Seq<char>) -> Option<nat> {
    if canonical_dec(s) && dec_val(s) <= u64::MAX {
        Some(dec_val(s))
    } else {
        None
    }
}

/// The rendering of every number is canonical.
pub proof fn lemma_dec_chars_canonical(n: nat)
    ensures
        canonical_dec(dec_chars(n)),
        n >= 1 ==> dec_chars(n)[0] != '0',
    decreases n,
{
    if n < 10 {
        assert(dec_chars(n) == seq![digit_char(n)]);
        assert(is_dec_digit(dec_chars(n)[0]));
    } else {
        lemma_dec_chars_canonical(n / 10);
        let a = dec_chars(n / 10);
        let s = dec_chars(n);
        assert(s == a + seq![digit_char(n % 10)]);
        assert forall|i: int| 0 <= i < s.len() implies is_dec_digit(#[trigger] s[i]) by {
            if i < a.len() {
                assert(s[i] == a[i]);
            } else {
                assert(s[i] == digit_char(n % 10));
            }
        }
        assert(s[0] == a[0]);
        assert(n / 10 >= 1);
    }
}

/// Rendering then evaluating is the identity.
pub proof fn lemma_dec_val_of_dec_chars(n: nat)
    ensures
        dec_val(dec_chars(n)) == n,
    decreases n,
{
    if n < 10 {
        let s = seq![digit_char(n)];
        assert(s.len() == 1);
        assert(s.last() == digit_char(n));
        assert(s.drop_last() =~= Seq::<char>::empty());
        assert(dec_val(s.drop_last()) == 0);
        assert(dec_val(s) == digit_val(digit_char(n)));
    } else {
        lemma_dec_val_of_dec_chars(n / 10);
        let a = dec_chars(n / 10);
        let s = a + seq![digit_char(n % 10)];
        assert(s.drop_last() =~= a);
        assert(s.last() == digit_char(n % 10));
        assert(digit_val(digit_char(n % 10)) == n % 10);
        assert(dec_val(s) == (n / 10) * 10 + n % 10);
        assert((n / 10) * 10 + n % 10 == n) by (nonlinear_arith);
    }
}

/// A digit string with a non-zero leading digit has a positive value.
proof fn lemma_leading_nonzero_positive(s: Seq<char>)
    requires
        s.len() >= 1,
        forall|i: int| 0 <= i < s.len() ==> is_dec_digit(#[trigger] s[i]),
        s[0] != '0',
    ensures
        dec_val(s) >= 1,
    decreases s.len(),
{
    if s.len() == 1 {
        assert(is_dec_digit(s[0]));
        assert(digit_val(s.last()) >= 1);
    } else {
        let p = s.drop_last();
        assert(p[0] == s[0]);
        lemma_leading_nonzero_positive(p);
        assert(dec_val(s) == dec_val(p) * 10 + digit_val(s.last()));
        assert(dec_val(p) * 10 >= dec_val(p) * 1);
    }
}

/// Evaluating then rendering a canonical digit string is the identity.
pub proof fn lemma_dec_chars_of_dec_val(s: Seq<char>)
    requires
        canonical_dec(s),
    ensures
        dec_chars(dec_val(s)) == s,
    decreases s.len(),
{
    if s.len() == 1 {
        assert(s.drop_last() =~= Seq::<char>::empty());
        assert(dec_val(s.drop_last()) == 0);
        assert(s.last() == s[0]);
        assert(is_dec_digit(s[0]));
        assert(dec_val(s) == digit_val(s[0]));
        assert(digit_char(digit_val(s[0])) == s[0]);
        assert(dec_chars(dec_val(s)) =~= s);
    } else {
        let p = s.drop_last();
        let c = s.last();
        assert(forall|i: int| 0 <= i < p.len() ==> p[i] == s[i]);
        assert(p[0] == s[0]);
        lemma_dec_chars_of_dec_val(p);
        lemma_leading_nonzero_positive(p);
        let a = dec_val(p);
        let d = digit_val(c);
        let v = dec_val(s);
        assert(v == a * 10 + d);
        assert(is_dec_digit(c));
        assert(d <= 9);
        assert(v >= 10) by (nonlinear_arith)
            requires
                a >= 1,
                v == a * 10 + d,
                d >= 0,
        ;
        assert(v / 10 == a && v % 10 == d) by (nonlinear_arith)
            requires
                v == a * 10 + d,
                0 <= d <= 9,
                a >= 0,
        ;
        assert(digit_char(d) == c);
        assert(dec_chars(v) == dec_chars(a) + seq![digit_char(v % 10)]);
        assert(dec_chars(v) =~= s);
    }
}

/// Longer digit prefixes never have a smaller value.
proof fn lemma_dec_val_prefix_mono(s: Seq<char>, i: int, j: int)
    requires
        0 <= i <= j <= s.len(),
    ensures
        dec_val(s.subrange(0, i)) <= dec_val(s.subrange(0, j)),
    decreases j - i,
{
    if i < j {
        lemma_dec_val_prefix_mono(s, i, j - 1);
        let p = s.subrange(0, j);
        assert(p.drop_last() =~= s.subrange(0, j - 1));
        let a = dec_val(s.subrange(0, j - 1));
        assert(dec_val(p) == a * 10 + digit_val(p.last()));
        assert(a * 10 >= a * 1);
    }
}

/// The one-character string of a digit value.
fn digit_str(d: u64) -> (r: &'static str)
    requires
        d <= 9,
    ensures
        r@ == seq![digit_char(d as nat)],
{
    if d == 0 {
        proof {
            reveal_strlit("0");
            assert("0"@ =~= seq![digit_char(d as nat)]);
        }
        return "0";
    }
    if d == 1 {
        proof {
            reveal_strlit("1");
            assert("1"@ =~= seq![digit_char(d as nat)]);
        }
        return "1";
    }
    if d == 2 {
        proof {
            reveal_strlit("2");
            assert("2"@ =~= seq![digit_char(d as nat)]);
        }
        return "2";
    }
    if d == 3 {
        proof {
            reveal_strlit("3");
            assert("3"@ =~= seq![digit_char(d as nat)]);
        }
        return "3";
    }
    if d == 4 {
        proof {
            reveal_strlit("4");
            assert("4"@ =~= seq![digit_char(d as nat)]);
        }
        return "4";
    }
    if d == 5 {
        proof {
            reveal_strlit("5");
            assert("5"@ =~= seq![digit_char(d as nat)]);
        }
        return "5";
    }
    if d == 6 {
        proof {
            reveal_strlit("6");
            assert("6"@ =~= seq![digit_char(d as nat)]);
        }
        return "6";
    }
    if d == 7 {
        proof {
            reveal_strlit("7");
            assert("7"@ =~= seq![digit_char(d as nat)]);
        }
        return "7";
    }
    if d == 8 {
        proof {
            reveal_strlit("8");
            assert("8"@ =~= seq![digit_char(d as nat)]);
        }
        return "8";
    }
    proof {
        reveal_strlit("9");
        assert("9"@ =~= seq![digit_char(d as nat)]);
    }
    "9"
}

/// The value of a digit character.
fn digit_of(c: char) -> (r: Option<u64>)
    ensures
        r is Some <==> is_dec_digit(c),
        r is Some ==> r->Some_0 as nat == digit_val(c),
{
    if c == '0' {
        Some(0)
    } else if c == '1' {
        Some(1)
    } else if c == '2' {
        Some(2)
    } else if c == '3' {
        Some(3)
    } else if c == '4' {
        Some(4)
    } else if c == '5' {
        Some(5)
    } else if c == '6' {
        Some(6)
    } else if c == '7' {
        Some(7)
    } else if c == '8' {
        Some(8)
    } else if c == '9' {
        Some(9)
    } else {
        None
    }
}

/// Renders `n` as its canonical decimal string.
pub fn u64_to_dec(n: u64) -> (s: String)
    ensures
        s@ == dec_chars(n as nat),
    decreases n,
{
    if n < 10 {
        let s = digit_str(n).to_owned();
        proof {
            assert(s@ =~= dec_chars(n as nat));
        }
        s
    } else {
        let mut s = u64_to_dec(n / 10);
        s.append(digit_str(n % 10));
        proof {
            assert(s@ =~= dec_chars(n as nat));
        }
        s
    }
}

/// Parses a canonical decimal string that fits a machine word.
///
/// Rejects the empty string, non-digit characters, leading zeros, and
/// values above `u64::MAX`, so that exactly the strings `u64_to_dec`
/// produces are accepted.
pub fn parse_dec(s: &str) -> (r: Option<u64>)
    ensures
        r is Some <==> spec_parse_dec(s@) is Some,
        r is Some ==> Some(r->Some_0 as nat) == spec_parse_dec(s@),
{
    let len = s.unicode_len();
    if len == 0 {
        return None;
    }
    if len > 1 && s.get_char(0) == '0' {
        return None;
    }
    let mut val: u64 = 0;
    let mut i: usize = 0;
    while i < len
        invariant
            0 <= i <= len,
            len == s@.len(),
            len >= 1,
            forall|j: int| 0 <= j < i ==> is_dec_digit(#[trigger] s@[j]),
            val as nat == dec_val(s@.subrange(0, i as int)),
            len > 1 ==> s@[0] != '0',
        decreases len - i,
    {
        let c = s.get_char(i);
        match digit_of(c) {
            None => {
                return None;
            },
            Some(d) => {
                proof {
                    assert(s@.subrange(0, i + 1).drop_last() =~= s@.subrange(0, i as int));
                    assert(s@.subrange(0, i + 1).last() == s@[i as int]);
                }
                if val > (u64::MAX - d) / 10 {
                    proof {
                        let a = val as nat;
                        let q = ((u64::MAX - d) / 10) as nat;
                        assert(a * 10 + d > u64::MAX) by (nonlinear_arith)
                            requires
                                a > q,
                                q == ((u64::MAX as nat) - d) / 10,
                                0 <= d <= 9,
                        ;
                        assert(dec_val(s@.subrange(0, i + 1)) > u64::MAX);
                        lemma_dec_val_prefix_mono(s@, i + 1, len as int);
                        assert(s@.subrange(0, len as int) =~= s@);
                    }
                    return None;
                }
                proof {
                    let a = val as nat;
                    let q = ((u64::MAX - d) / 10) as nat;
                    assert(a * 10 + d <= u64::MAX) by (nonlinear_arith)
                        requires
                            a <= q,
                            q == ((u64::MAX as nat) - d) / 10,
                            0 <= d <= 9,
                    ;
                }
                val = val * 10 + d;
                i += 1;
            },
        }
    }
    proof {
        assert(s@.subrange(0, len as int) =~= s@);
    }
    Some(val)
}

/// The `{revision}-{height}` rendering of a height inside a path segment.
pub open spec fn height_chars(rn: nat, rh: nat) -> Seq<char> {
    dec_chars(rn) + seq!['-'] + dec_chars(rh)
}

/// Splits `s` at the first occurrence of `c`.
pub open spec fn split_first(s: Seq<char>, c: char) -> Option<(Seq<char>, Seq<char>)>
    decreases s.len(),
{
    if s.len() == 0 {
        None
    } else if s[0] == c {
        Some((Seq::empty(), s.drop_first()))
    } else {
        match split_first(s.drop_first(), c) {
            Some(p) => Some((seq![s[0]] + p.0, p.1)),
            None => None,
        }
    }
}

/// Splits `s` at the last occurrence of `c`.
pub open spec fn split_last(s: Seq<char>, c: char) -> Option<(Seq<char>, Seq<char>)>
    decreases s.len(),
{
    if s.len() == 0 {
        None
    } else if s.last() == c {
        Some((s.drop_last(), Seq::empty()))
    } else {
        match split_last(s.drop_last(), c) {
            Some(p) => Some((p.0, p.1.push(s.last()))),
            None => None,
        }
    }
}

/// What parsing a `{revision}-{height}` segment yields.
pub open spec fn spec_parse_height_seg(s: Seq<char>) -> Option<(nat, nat)> {
    match split_first(s, '-') {
        Some(p) => match (spec_parse_dec(p.0), spec_parse_dec(p.1)) {
            (Some(a), Some(b)) => Some((a, b)),
            _ => None,
        },
        None => None,
    }
}

/// Splitting at the first separator undoes joining around one.
pub proof fn lemma_split_first_at(a: Seq<char>, b: Seq<char>, c: char)
    requires
        forall|i: int| 0 <= i < a.len() ==> #[trigger] a[i] != c,
    ensures
        split_first(a + seq![c] + b, c) == Some((a, b)),
    decreases a.len(),
{
    let s = a + seq![c] + b;
    if a.len() == 0 {
        assert(s[0] == c);
        assert(s.drop_first() =~= b);
        assert(split_first(s, c)->Some_0.0 =~= a);
    } else {
        assert(s[0] == a[0]);
        assert(s.drop_first() =~= a.drop_first() + seq![c] + b);
        lemma_split_first_at(a.drop_first(), b, c);
        assert(seq![s[0]] + a.drop_first() =~= a);
    }
}

/// A string without the separator does not split.
pub proof fn lemma_split_first_none(s: Seq<char>, c: char)
    requires
        forall|i: int| 0 <= i < s.len() ==> #[trigger] s[i] != c,
    ensures
        split_first(s, c) is None,
    decreases s.len(),
{
    if s.len() > 0 {
        lemma_split_first_none(s.drop_first(), c);
    }
}

/// Splitting at the last separator undoes joining around one.
pub proof fn lemma_split_last_at(a: Seq<char>, b: Seq<char>, c: char)
    requires
        forall|i: int| 0 <= i < b.len() ==> #[trigger] b[i] != c,
    ensures
        split_last(a + seq![c] + b, c) == Some((a, b)),
    decreases b.len(),
{
    let s = a + seq![c] + b;
    if b.len() == 0 {
        assert(s.last() == c);
        assert(s.drop_last() =~= a);
        assert(split_last(s, c)->Some_0.1 =~= b);
    } else {
        assert(s.last() == b.last());
        assert(s.drop_last() =~= a + seq![c] + b.drop_last());
        lemma_split_last_at(a, b.drop_last(), c);
        assert(b.drop_last().push(s.last()) =~= b);
    }
}

/// A string without the separator does not split from the end either.
pub proof fn lemma_split_last_none(s: Seq<char>, c: char)
    requires
        forall|i: int| 0 <= i < s.len() ==> #[trigger] s[i] != c,
    ensures
        split_last(s, c) is None,
    decreases s.len(),
{
    if s.len() > 0 {
        lemma_split_last_none(s.drop_last(), c);
    }
}

/// Digit strings contain no dash.
proof fn lemma_digits_no_dash(s: Seq<char>)
    requires
        forall|i: int| 0 <= i < s.len() ==> is_dec_digit(#[trigger] s[i]),
    ensures
        forall|i: int| 0 <= i < s.len() ==> #[trigger] s[i] != '-',
{
    assert forall|i: int| 0 <= i < s.len() implies #[trigger] s[i] != '-' by {
        assert(is_dec_digit(s[i]));
    }
}

/// The height-segment rendering parses back to exactly its inputs.
pub proof fn lemma_parse_height_seg_roundtrip(rn: u64, rh: u64)
    ensures
        spec_parse_height_seg(height_chars(rn as nat, rh as nat)) == Some(
            (rn as nat, rh as nat),
        ),
{
    lemma_dec_chars_canonical(rn as nat);
    lemma_dec_chars_canonical(rh as nat);
    lemma_dec_val_of_dec_chars(rn as nat);
    lemma_dec_val_of_dec_chars(rh as nat);
    lemma_digits_no_dash(dec_chars(rn as nat));
    lemma_split_first_at(dec_chars(rn as nat), dec_chars(rh as nat), '-');
}

/// Renders a height as its `{revision}-{height}` path segment.
pub fn height_seg(rn: u64, rh: u64) -> (s: String)
    ensures
        s@ == height_chars(rn as nat, rh as nat),
{
    let mut s = u64_to_dec(rn);
    s.append("-");
    let t = u64_to_dec(rh);
    s.append(t.as_str());
    proof {
        reveal_strlit("-");
        assert("-"@ =~= seq!['-']);
        assert(s@ =~= height_chars(rn as nat, rh as nat));
    }
    s
}

/// Parses a `{revision}-{height}` path segment.
pub fn parse_height_seg(s: &str) -> (r: Option<(u64, u64)>)
    ensures
        r is Some <==> spec_parse_height_seg(s@) is Some,
        r is Some ==> Some((r->Some_0.0 as nat, r->Some_0.1 as nat)) == spec_parse_height_seg(
            s@,
        ),
{
    let len = s.unicode_len();
    let mut i: usize = 0;
    while i < len
        invariant
            0 <= i <= len,
            len == s@.len(),
            forall|j: int| 0 <= j < i ==> #[trigger] s@[j] != '-',
        decreases len - i,
    {
        if s.get_char(i) == '-' {
            let left = s.substring_char(0, i);
            let right = s.substring_char(i + 1, len);
            proof {
                assert(s@ =~= left@ + seq!['-'] + right@);
                lemma_split_first_at(left@, right@, '-');
            }
            let a = match parse_dec(left) {
                Some(a) => a,
                None => {
                    return None;
                },
            };
            let b = match parse_dec(right) {
                Some(b) => b,
                None => {
                    return None;
                },
            };
            return Some((a, b));
        }
        i += 1;
    }
    proof {
        lemma_split_first_none(s@, '-');
    }
    None
}

} // verus!
