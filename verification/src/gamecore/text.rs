//! Character-level string helpers.

use vstd::prelude::*;
use vstd::string::*;

verus! {

/// ASCII lower-casing of one character.
pub open spec fn lower_char(c: char) -> char {
    if 'A' <= c && c <= 'Z' {
        ((c as u32) + 32) as char
    } else {
        c
    }
}

/// ASCII lower-casing of a string.
pub open spec fn ascii_lower(s: Seq<char>) -> Seq<char> {
    s.map_values(|c: char| lower_char(c))
}

/// ASCII lower-casing of one character.
pub fn to_lower_char(c: char) -> (r: char)
    ensures
        r == lower_char(c),
{
    if 'A' <= c && c <= 'Z' {
        let x: u8 = (c as u32 + 32) as u8;
        x as char
    } else {
        c
    }
}

/// Compare two strings, ignoring ASCII case.
pub fn eq_ignore_ascii_case(a: &str, b: &str) -> (r: bool)
    ensures
        r == (ascii_lower(a@) == ascii_lower(b@)),
{
    let n = a.unicode_len();
    let m = b.unicode_len();
    if n != m {
        proof {
            assert(ascii_lower(a@).len() != ascii_lower(b@).len());
        }
        return false;
    }
    let mut i: usize = 0;
    while i < n
        invariant
            n == a@.len(),
            m == b@.len(),
            n == m,
            i <= n,
            forall|j: int| 0 <= j < i ==> lower_char(#[trigger] a@[j]) == lower_char(b@[j]),
        decreases n - i,
    {
        let ca = to_lower_char(a.get_char(i));
        let cb = to_lower_char(b.get_char(i));
        if ca != cb {
            proof {
                assert(ascii_lower(a@)[i as int] != ascii_lower(b@)[i as int]);
            }
            return false;
        }
        i = i + 1;
    }
    proof {
        assert(ascii_lower(a@) =~= ascii_lower(b@));
    }
    true
}

/// Compare two strings exactly.
pub fn str_eq(a: &str, b: &str) -> (r: bool)
    ensures
        r == (a@ == b@),
{
    let n = a.unicode_len();
    let m = b.unicode_len();
    if n != m {
        return false;
    }
    let mut i: usize = 0;
    while i < n
        invariant
            n == a@.len(),
            m == b@.len(),
            n == m,
            i <= n,
            forall|j: int| 0 <= j < i ==> #[trigger] a@[j] == b@[j],
        decreases n - i,
    {
        if a.get_char(i) != b.get_char(i) {
            return false;
        }
        i = i + 1;
    }
    proof {
        assert(a@ =~= b@);
    }
    true
}

/// `a` comes before `b` in the order of strings: at the first place where
/// they differ, `a` has the smaller character, or `a` is a proper prefix of
/// `b` (comparing from place `i`).
pub open spec fn text_less_from(a: Seq<char>, b: Seq<char>, i: int) -> bool
    decreases a.len() - i,
{
    if i < 0 || i >= a.len() {
        0 <= i < b.len()
    } else if i >= b.len() {
        false
    } else if a[i] != b[i] {
        (a[i] as int) < (b[i] as int)
    } else {
        text_less_from(a, b, i + 1)
    }
}

/// `a` comes before `b` in the order of strings.
pub open spec fn text_less(a: Seq<char>, b: Seq<char>) -> bool {
    text_less_from(a, b, 0)
}

/// No string comes before itself.
pub proof fn lemma_text_irreflexive(a: Seq<char>, i: int)
    ensures
        !text_less_from(a, a, i),
    decreases a.len() - i,
{
    if 0 <= i < a.len() {
        lemma_text_irreflexive(a, i + 1);
    }
}

/// Of two strings, at most one comes before the other.
pub proof fn lemma_text_asymmetric(a: Seq<char>, b: Seq<char>, i: int)
    ensures
        text_less_from(a, b, i) ==> !text_less_from(b, a, i),
    decreases a.len() - i,
{
    if 0 <= i < a.len() && i < b.len() && a[i] == b[i] {
        lemma_text_asymmetric(a, b, i + 1);
    }
}

/// The order of strings is transitive.
pub proof fn lemma_text_transitive(a: Seq<char>, b: Seq<char>, c: Seq<char>, i: int)
    ensures
        text_less_from(a, b, i) && text_less_from(b, c, i) ==> text_less_from(a, c, i),
    decreases a.len() - i,
{
    if 0 <= i < a.len() && i < b.len() && i < c.len() {
        lemma_text_transitive(a, b, c, i + 1);
    }
}

/// Two different strings are ordered one way or the other.
pub proof fn lemma_text_total(a: Seq<char>, b: Seq<char>, i: int)
    requires
        0 <= i <= a.len(),
        i <= b.len(),
        a.len() != b.len() || exists|k: int| i <= k < a.len() && a[k] != b[k],
    ensures
        text_less_from(a, b, i) || text_less_from(b, a, i),
    decreases a.len() - i,
{
    if i < a.len() && i < b.len() {
        if a[i] == b[i] {
            if a.len() == b.len() {
                let k = choose|k: int| i <= k < a.len() && a[k] != b[k];
                assert(i + 1 <= k);
            }
            lemma_text_total(a, b, i + 1);
        } else {
            assert((a[i] as int) != (b[i] as int));
        }
    }
}

/// Two different strings are ordered one way or the other.
pub proof fn lemma_text_total_distinct(a: Seq<char>, b: Seq<char>)
    requires
        a != b,
    ensures
        text_less(a, b) || text_less(b, a),
{
    if a.len() == b.len() {
        if forall|k: int| 0 <= k < a.len() ==> a[k] == b[k] {
            assert(a =~= b);
        }
    }
    lemma_text_total(a, b, 0);
}

/// Whether `a` comes before `b` in the order of strings.
pub fn str_less(a: &str, b: &str) -> (r: bool)
    ensures
        r == text_less(a@, b@),
{
    let n = a.unicode_len();
    let m = b.unicode_len();
    let mut i: usize = 0;
    while i < n && i < m
        invariant
            n == a@.len(),
            m == b@.len(),
            i <= n,
            i <= m,
            text_less(a@, b@) == text_less_from(a@, b@, i as int),
        decreases n - i,
    {
        let ca = a.get_char(i);
        let cb = b.get_char(i);
        if ca != cb {
            return (ca as u32) < (cb as u32);
        }
        i = i + 1;
    }
    i < m
}

/// The decimal digit character for `d` (0..10).
pub open spec fn digit_char(d: nat) -> char {
    (48 + d) as char
}

/// Decimal representation of a natural number.
pub open spec fn dec(n: nat) -> Seq<char>
    decreases n,
{
    if n < 10 {
        seq![digit_char(n)]
    } else {
        dec(n / 10).push(digit_char(n % 10))
    }
}

/// Decimal representation of an integer, with a leading '-' when negative.
pub open spec fn signed_dec(x: int) -> Seq<char> {
    if x < 0 {
        seq!['-'] + dec((-x) as nat)
    } else {
        dec(x as nat)
    }
}

/// The one-character string of a decimal digit.
pub fn digit_str(d: u64) -> (r: &'static str)
    requires
        d < 10,
    ensures
        r@ == seq![digit_char(d as nat)],
{
    proof {
        reveal_strlit("0"); reveal_strlit("1"); reveal_strlit("2"); reveal_strlit("3"); reveal_strlit("4");
        reveal_strlit("5"); reveal_strlit("6"); reveal_strlit("7"); reveal_strlit("8"); reveal_strlit("9");
    }
    if d == 0 { "0" } else if d == 1 { "1" } else if d == 2 { "2" } else if d == 3 { "3" } else if d == 4 { "4" }
    else if d == 5 { "5" } else if d == 6 { "6" } else if d == 7 { "7" } else if d == 8 { "8" } else { "9" }
}

/// Decimal representation of `n`.
pub fn decimal(n: u64) -> (r: String)
    ensures
        r@ == dec(n as nat),
    decreases n,
{
    if n < 10 {
        String::from_str(digit_str(n))
    } else {
        let mut s = decimal(n / 10);
        s.append(digit_str(n % 10));
        s
    }
}

/// Decimal representation of a signed number.
pub fn signed_decimal(x: i64) -> (r: String)
    requires
        x > i64::MIN,
    ensures
        r@ == signed_dec(x as int),
{
    if x < 0 {
        let mut s = String::from_str("-");
        proof { reveal_strlit("-"); }
        let d = decimal((-x) as u64);
        s.append(d.as_str());
        s
    } else {
        decimal(x as u64)
    }
}

/// Append `b` to `a`.
pub fn join(a: String, b: &str) -> (r: String)
    ensures
        r@ == a@ + b@,
{
    let mut s = a;
    s.append(b);
    s
}

/// The upper-case hexadecimal digit for `d` (0..16).
pub open spec fn hex_digit(d: nat) -> Seq<char> {
    if d < 10 { seq![digit_char(d)] } else { seq![(55 + d) as char] }
}

/// Upper-case hexadecimal representation of a natural number.
pub open spec fn hex(n: nat) -> Seq<char>
    decreases n,
{
    if n < 16 {
        hex_digit(n)
    } else {
        hex(n / 16) + hex_digit(n % 16)
    }
}

/// The one-character string of an upper-case hexadecimal digit.
pub fn hex_digit_str(d: u64) -> (r: &'static str)
    requires
        d < 16,
    ensures
        r@ == hex_digit(d as nat),
{
    if d < 10 {
        digit_str(d)
    } else {
        proof {
            reveal_strlit("A"); reveal_strlit("B"); reveal_strlit("C");
            reveal_strlit("D"); reveal_strlit("E"); reveal_strlit("F");
        }
        if d == 10 { "A" } else if d == 11 { "B" } else if d == 12 { "C" } else if d == 13 { "D" }
        else if d == 14 { "E" } else { "F" }
    }
}

/// Upper-case hexadecimal representation of `n`.
pub fn hexadecimal(n: u64) -> (r: String)
    ensures
        r@ == hex(n as nat),
    decreases n,
{
    if n < 16 {
        String::from_str(hex_digit_str(n))
    } else {
        let mut s = hexadecimal(n / 16);
        s.append(hex_digit_str(n % 16));
        s
    }
}

/// `k` copies of a one-character string.
pub open spec fn repeat(p: Seq<char>, k: nat) -> Seq<char>
    decreases k,
{
    if k == 0 { Seq::empty() } else { repeat(p, (k - 1) as nat) + p }
}

/// `s` padded on the left with copies of `p` to at least `w` characters.
pub open spec fn pad_left(s: Seq<char>, w: nat, p: Seq<char>) -> Seq<char> {
    if s.len() >= w { s } else { repeat(p, (w - s.len()) as nat) + s }
}

/// `s` padded on the right with spaces to at least `w` characters.
pub open spec fn pad_right(s: Seq<char>, w: nat) -> Seq<char> {
    if s.len() >= w { s } else { s + repeat(" "@, (w - s.len()) as nat) }
}

/// `k` copies of a string.
pub fn repeated(p: &str, k: usize) -> (r: String)
    ensures
        r@ == repeat(p@, k as nat),
{
    let mut r = String::new();
    let mut i: usize = 0;
    while i < k
        invariant
            i <= k,
            r@ == repeat(p@, i as nat),
        decreases k - i,
    {
        r.append(p);
        i = i + 1;
    }
    r
}

/// Pad a string on the left with copies of `p` to at least `w` characters.
pub fn padded_left(s: String, w: usize, p: &str) -> (r: String)
    ensures
        r@ == pad_left(s@, w as nat, p@),
{
    let n = s.unicode_len();
    if n >= w {
        return s;
    }
    let mut r = repeated(p, w - n);
    r.append(s.as_str());
    r
}

/// Pad a string on the right with spaces to at least `w` characters.
pub fn padded_right(s: String, w: usize) -> (r: String)
    ensures
        r@ == pad_right(s@, w as nat),
{
    let n = s.unicode_len();
    if n >= w {
        return s;
    }
    let mut r = s;
    let pad = repeated(" ", w - n);
    r.append(pad.as_str());
    r
}

/// Decimal representation of an integer with its sign always shown.
pub open spec fn plus_signed_dec(x: int) -> Seq<char> {
    if x < 0 { "-"@ + dec((-x) as nat) } else { "+"@ + dec(x as nat) }
}

/// Decimal representation of a signed byte with its sign always shown.
pub fn plus_signed_decimal(x: i8) -> (r: String)
    ensures
        r@ == plus_signed_dec(x as int),
{
    if x < 0 {
        let mut s = String::from_str("-");
        let d = decimal((-(x as i16)) as u64);
        s.append(d.as_str());
        s
    } else {
        let mut s = String::from_str("+");
        let d = decimal(x as u64);
        s.append(d.as_str());
        s
    }
}

/// The quoted names joined by ", ".
pub open spec fn quoted_list(names: Seq<Seq<char>>) -> Seq<char>
    decreases names.len(),
{
    if names.len() == 0 {
        Seq::empty()
    } else if names.len() == 1 {
        "\""@ + names[0] + "\""@
    } else {
        quoted_list(names.drop_last()) + ", \""@ + names.last() + "\""@
    }
}

/// Debug rendering of a list of plain names: `["A", "B"]`.
pub open spec fn debug_names(names: Seq<Seq<char>>) -> Seq<char> {
    "["@ + quoted_list(names) + "]"@
}

/// Debug rendering of a list of plain names.
pub fn debug_name_list(names: &Vec<&str>) -> (r: String)
    ensures
        r@ == debug_names(names@.map_values(|s: &str| s@)),
{
    let ghost all = names@.map_values(|s: &str| s@);
    let mut body = String::new();
    let mut i: usize = 0;
    while i < names.len()
        invariant
            i <= names@.len(),
            all == names@.map_values(|s: &str| s@),
            body@ == quoted_list(all.subrange(0, i as int)),
        decreases names@.len() - i,
    {
        let ghost prev = body@;
        proof {
            assert(all.subrange(0, i + 1).drop_last() =~= all.subrange(0, i as int));
            assert(all.subrange(0, i + 1).last() == names@[i as int]@);
        }
        if i == 0 {
            body.append("\"");
        } else {
            body.append(", \"");
        }
        body.append(names[i]);
        body.append("\"");
        proof {
            if i == 0 {
                assert(prev =~= Seq::<char>::empty());
                assert(body@ =~= "\""@ + all.subrange(0, 1)[0] + "\""@);
            } else {
                assert(body@ =~= prev + ", \""@ + names@[i as int]@ + "\""@);
            }
        }
        i = i + 1;
    }
    proof { assert(all.subrange(0, all.len() as int) =~= all); }
    let mut r = String::from_str("[");
    r.append(body.as_str());
    r.append("]");
    r
}

} // verus!
