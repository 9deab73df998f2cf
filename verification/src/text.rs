//! Character-level helpers: exact text comparison, canonical decimal numerals
//! and the decimal grammar accepted for unsigned 32-bit integers.
use vstd::prelude::*;
use vstd::string::*;

verus! {

/// The digit character for a value below ten.
pub open spec fn digit_char(d: nat) -> char {
    if d == 0 { '0' }
    else if d == 1 { '1' }
    else if d == 2 { '2' }
    else if d == 3 { '3' }
    else if d == 4 { '4' }
    else if d == 5 { '5' }
    else if d == 6 { '6' }
    else if d == 7 { '7' }
    else if d == 8 { '8' }
    else { '9' }
}

pub open spec fn is_digit(c: char) -> bool {
    '0' <= c && c <= '9'
}

pub open spec fn digit_value(c: char) -> nat {
    (c as int - '0' as int) as nat
}

/// Every character is an ASCII decimal digit.
pub open spec fn all_digits(s: Seq<char>) -> bool {
    forall|i: int| 0 <= i < s.len() ==> is_digit(#[trigger] s[i])
}

/// The value of a digit string, most significant digit first.
pub open spec fn digits_value(s: Seq<char>) -> nat
    decreases s.len(),
{
    if s.len() == 0 {
        0
    } else {
        digits_value(s.drop_last()) * 10 + digit_value(s.last())
    }
}

/// The canonical decimal numeral of `n`: no sign and no leading zero.
pub open spec fn decimal(n: nat) -> Seq<char>
    decreases n,
{
    if n < 10 {
        seq![digit_char(n)]
    } else {
        decimal(n / 10).push(digit_char(n % 10))
    }
}

/// What `u32::from_str` accepts: an optional `+`, then one or more ASCII
/// digits whose value fits in 32 bits (leading zeros are allowed).
pub open spec fn parse_u32(s: Seq<char>) -> Option<u32> {
    let body = if s.len() > 0 && s[0] == '+' { s.drop_first() } else { s };
    if body.len() > 0 && all_digits(body) && digits_value(body) <= u32::MAX {
        Some(digits_value(body) as u32)
    } else {
        None
    }
}

/// A digit character reads back as its value and is neither a sign nor,
/// except for zero, a leading zero.
pub proof fn lemma_digit_char(d: nat)
    requires
        d < 10,
    ensures
        is_digit(digit_char(d)),
        digit_value(digit_char(d)) == d,
        digit_char(d) != '+',
        (d == 0) <==> (digit_char(d) == '0'),
{
}

/// The canonical numeral of `n` is a non-empty digit string with the value
/// `n`, no sign, and no leading zero unless `n` is zero.
pub proof fn lemma_decimal(n: nat)
    ensures
        decimal(n).len() > 0,
        all_digits(decimal(n)),
        digits_value(decimal(n)) == n,
        decimal(n)[0] != '+',
        n > 0 ==> decimal(n)[0] != '0',
    decreases n,
{
    reveal_with_fuel(digits_value, 2);
    if n < 10 {
        lemma_digit_char(n);
        assert(decimal(n).drop_last() =~= Seq::<char>::empty());
        assert(digits_value(decimal(n)) == n);
    } else {
        lemma_decimal(n / 10);
        lemma_digit_char(n % 10);
        let d = decimal(n);
        assert(d.drop_last() =~= decimal(n / 10));
        assert(d.last() == digit_char(n % 10));
        assert(digits_value(d) == digits_value(decimal(n / 10)) * 10 + digit_value(d.last()));
        assert((n / 10) * 10 + n % 10 == n);
        assert(digits_value(d) == n);
        assert forall|i: int| 0 <= i < d.len() implies is_digit(#[trigger] d[i]) by {
            if i < d.len() - 1 {
                assert(d[i] == decimal(n / 10)[i]);
            }
        }
    }
}

/// A digit string never has a smaller value than any of its prefixes.
pub proof fn lemma_digits_value_prefix(s: Seq<char>, k: int)
    requires
        0 <= k <= s.len(),
    ensures
        digits_value(s.subrange(0, k)) <= digits_value(s),
    decreases s.len() - k,
{
    if k < s.len() {
        lemma_digits_value_prefix(s, k + 1);
        assert(s.subrange(0, k + 1).drop_last() =~= s.subrange(0, k));
    } else {
        assert(s.subrange(0, k) =~= s);
    }
}

/// Exact comparison of two texts.
pub fn same_text(a: &str, b: &str) -> (r: bool)
    ensures
        r == (a@ == b@),
{
    let n = a.unicode_len();
    if n != b.unicode_len() {
        return false;
    }
    let mut i: usize = 0;
    while i < n
        invariant
            n == a@.len(),
            n == b@.len(),
            i <= n,
            forall|j: int| 0 <= j < i ==> a@[j] == b@[j],
        decreases n - i,
    {
        if a.get_char(i) != b.get_char(i) {
            return false;
        }
        i = i + 1;
    }
    assert(a@ =~= b@);
    true
}

/// Whether `s` starts with `prefix`.
pub fn starts_with_text(s: &str, prefix: &str) -> (r: bool)
    ensures
        r == (prefix@.len() <= s@.len() && s@.subrange(0, prefix@.len() as int) == prefix@),
{
    let n = prefix.unicode_len();
    if n > s.unicode_len() {
        return false;
    }
    let mut i: usize = 0;
    while i < n
        invariant
            n == prefix@.len(),
            n <= s@.len(),
            i <= n,
            forall|j: int| 0 <= j < i ==> s@[j] == prefix@[j],
        decreases n - i,
    {
        if s.get_char(i) != prefix.get_char(i) {
            assert(s@.subrange(0, n as int)[i as int] != prefix@[i as int]);
            return false;
        }
        i = i + 1;
    }
    assert(s@.subrange(0, n as int) =~= prefix@);
    true
}

fn digit_to_char(d: u32) -> (c: char)
    requires
        d < 10,
    ensures
        c == digit_char(d as nat),
{
    if d == 0 { '0' }
    else if d == 1 { '1' }
    else if d == 2 { '2' }
    else if d == 3 { '3' }
    else if d == 4 { '4' }
    else if d == 5 { '5' }
    else if d == 6 { '6' }
    else if d == 7 { '7' }
    else if d == 8 { '8' }
    else { '9' }
}

fn char_to_digit(c: char) -> (d: u64)
    requires
        is_digit(c),
    ensures
        d as nat == digit_value(c),
        d < 10,
{
    if c == '0' { 0 }
    else if c == '1' { 1 }
    else if c == '2' { 2 }
    else if c == '3' { 3 }
    else if c == '4' { 4 }
    else if c == '5' { 5 }
    else if c == '6' { 6 }
    else if c == '7' { 7 }
    else if c == '8' { 8 }
    else { 9 }
}

/// The characters of a `String`, in order.
#[verifier::external_body]
pub(crate) fn string_from_chars(chars: &Vec<char>) -> (s: String)
    ensures
        s@ == chars@,
{
    String::from_iter(chars.iter())
}

/// The digits of `n`, most significant first.
fn decimal_chars(n: u32) -> (out: Vec<char>)
    ensures
        out@ == decimal(n as nat),
{
    let mut rev: Vec<char> = Vec::new();
    let mut m: u32 = n;
    // `rev` holds the low digits of `n` in reverse; `m` the remaining high part.
    while m >= 10
        invariant
            m > 0 || n == 0,
            decimal(n as nat) =~= decimal(m as nat) + rev@.reverse(),
        decreases m,
    {
        let d = m % 10;
        let c = digit_to_char(d);
        assert(decimal(m as nat) == decimal((m / 10) as nat).push(digit_char((m % 10) as nat)));
        rev.push(c);
        assert(rev@.reverse() =~= seq![c] + rev@.drop_last().reverse());
        m = m / 10;
    }
    let c = digit_to_char(m);
    rev.push(c);
    assert(rev@.reverse() =~= seq![c] + rev@.drop_last().reverse());
    let mut out: Vec<char> = Vec::new();
    let len = rev.len();
    let mut i: usize = 0;
    while i < len
        invariant
            len == rev@.len(),
            i <= len,
            out@ =~= rev@.reverse().subrange(0, i as int),
        decreases len - i,
    {
        out.push(rev[len - 1 - i]);
        i = i + 1;
    }
    assert(out@ =~= rev@.reverse());
    out
}

/// The canonical decimal numeral of `n`.
pub fn decimal_string(n: u32) -> (s: String)
    ensures
        s@ == decimal(n as nat),
{
    let chars = decimal_chars(n);
    string_from_chars(&chars)
}

/// Parses `s[start..]` under the grammar of `parse_u32`.
pub fn parse_u32_from(s: &str, start: usize) -> (r: Option<u32>)
    requires
        start <= s@.len(),
    ensures
        r == parse_u32(s@.subrange(start as int, s@.len() as int)),
{
    let n = s.unicode_len();
    let ghost text = s@.subrange(start as int, s@.len() as int);
    let mut i = start;
    if i < n && s.get_char(i) == '+' {
        i = i + 1;
    }
    let ghost body = if text.len() > 0 && text[0] == '+' { text.drop_first() } else { text };
    assert(body =~= s@.subrange(i as int, n as int));
    if i == n {
        return None;
    }
    let first = i;
    let mut value: u64 = 0;
    while i < n
        invariant
            n == s@.len(),
            first < n,
            first <= i <= n,
            start <= first,
            text =~= s@.subrange(start as int, n as int),
            body == (if text.len() > 0 && text[0] == '+' { text.drop_first() } else { text }),
            body =~= s@.subrange(first as int, n as int),
            all_digits(s@.subrange(first as int, i as int)),
            value as nat == digits_value(s@.subrange(first as int, i as int)),
            value <= u32::MAX,
        decreases n - i,
    {
        let c = s.get_char(i);
        if !('0' <= c && c <= '9') {
            assert(body[i - first] == c);
            assert(!is_digit(body[i - first]));
            assert(!all_digits(body));
            assert(parse_u32(text) is None);
            return None;
        }
        let d = char_to_digit(c);
        let ghost prefix = s@.subrange(first as int, i as int + 1);
        assert(prefix.drop_last() =~= s@.subrange(first as int, i as int));
        assert(prefix.last() == c);
        value = value * 10 + d;
        assert forall|j: int| 0 <= j < prefix.len() implies is_digit(#[trigger] prefix[j]) by {
            if j < prefix.len() - 1 {
                assert(prefix[j] == s@.subrange(first as int, i as int)[j]);
            }
        }
        if value > 0xffff_ffff {
            proof {
                assert(prefix =~= body.subrange(0, (i - first + 1) as int));
                lemma_digits_value_prefix(body, (i - first + 1) as int);
                assert(digits_value(prefix) == value);
                assert(digits_value(body) > u32::MAX);
            }
            return None;
        }
        i = i + 1;
    }
    assert(s@.subrange(first as int, i as int) =~= body);
    Some(value as u32)
}

/// Lexicographic order of texts by character code, the order of `str`'s
/// comparison operators.
pub open spec fn text_less(a: Seq<char>, b: Seq<char>) -> bool
    decreases a.len(),
{
    if a.len() == 0 {
        b.len() > 0
    } else if b.len() == 0 {
        false
    } else if a[0] != b[0] {
        (a[0] as int) < (b[0] as int)
    } else {
        text_less(a.drop_first(), b.drop_first())
    }
}

/// No text is below itself, and two texts are never below each other.
pub proof fn lemma_text_less_asymmetric(a: Seq<char>, b: Seq<char>)
    ensures
        !(text_less(a, b) && text_less(b, a)),
        !text_less(a, a),
    decreases a.len(),
{
    if a.len() > 0 && b.len() > 0 && a[0] == b[0] {
        lemma_text_less_asymmetric(a.drop_first(), b.drop_first());
    }
    if a.len() > 0 {
        lemma_text_less_asymmetric(a.drop_first(), a.drop_first());
    }
}

/// Two different texts are ordered one way or the other.
pub proof fn lemma_text_less_total(a: Seq<char>, b: Seq<char>)
    ensures
        a != b ==> text_less(a, b) || text_less(b, a),
    decreases a.len(),
{
    if a.len() > 0 && b.len() > 0 && a[0] == b[0] {
        lemma_text_less_total(a.drop_first(), b.drop_first());
        if a.drop_first() == b.drop_first() {
            assert(a =~= seq![a[0]] + a.drop_first());
            assert(b =~= seq![b[0]] + b.drop_first());
        }
    }
    if a.len() > 0 && b.len() > 0 && a[0] != b[0] {
        assert((a[0] as int) != (b[0] as int));
    }
    if a.len() == 0 && b.len() == 0 {
        assert(a =~= b);
    }
}

/// The order is transitive.
pub proof fn lemma_text_less_transitive(a: Seq<char>, b: Seq<char>, c: Seq<char>)
    requires
        text_less(a, b),
        text_less(b, c),
    ensures
        text_less(a, c),
    decreases a.len(),
{
    if a.len() > 0 && b.len() > 0 && c.len() > 0 && a[0] == b[0] && b[0] == c[0] {
        lemma_text_less_transitive(a.drop_first(), b.drop_first(), c.drop_first());
    }
}

proof fn lemma_text_less_step(a: Seq<char>, b: Seq<char>, i: int)
    requires
        0 <= i < a.len(),
        i < b.len(),
        a[i] == b[i],
    ensures
        text_less(a.subrange(i, a.len() as int), b.subrange(i, b.len() as int))
            == text_less(a.subrange(i + 1, a.len() as int), b.subrange(i + 1, b.len() as int)),
{
    assert(a.subrange(i, a.len() as int).drop_first() =~= a.subrange(i + 1, a.len() as int));
    assert(b.subrange(i, b.len() as int).drop_first() =~= b.subrange(i + 1, b.len() as int));
}

/// Whether `a` comes before `b` in text order.
pub fn text_before(a: &str, b: &str) -> (r: bool)
    ensures
        r == text_less(a@, b@),
{
    let n = a.unicode_len();
    let m = b.unicode_len();
    let mut i: usize = 0;
    assert(a@.subrange(0, n as int) =~= a@);
    assert(b@.subrange(0, m as int) =~= b@);
    while i < n && i < m
        invariant
            n == a@.len(),
            m == b@.len(),
            i <= n,
            i <= m,
            text_less(a@, b@) == text_less(a@.subrange(i as int, n as int), b@.subrange(i as int, m as int)),
        decreases n - i,
    {
        let x = a.get_char(i);
        let y = b.get_char(i);
        if x != y {
            assert(a@.subrange(i as int, n as int)[0] == x);
            assert(b@.subrange(i as int, m as int)[0] == y);
            return (x as u32) < (y as u32);
        }
        proof {
            lemma_text_less_step(a@, b@, i as int);
        }
        i = i + 1;
    }
    i == n && i < m
}

/// The characters of each text of `s`.
pub open spec fn texts(s: Seq<&str>) -> Seq<Seq<char>> {
    Seq::new(s.len(), |i: int| s[i]@)
}

/// The texts of `s`, in strictly increasing text order.
pub open spec fn strictly_sorted(s: Seq<&str>) -> bool {
    forall|a: int, b: int| 0 <= a < b < s.len() ==> text_less(#[trigger] s[a]@, #[trigger] s[b]@)
}

/// The distinct texts of `items`, in text order (an ordered set of them).
pub fn sorted_unique_texts<'a>(items: &Vec<&'a str>) -> (r: Vec<&'a str>)
    ensures
        strictly_sorted(r@),
        forall|a: int| 0 <= a < r@.len() ==> texts(items@).contains(#[trigger] r@[a]@),
        forall|c: int| 0 <= c < items@.len() ==> texts(r@).contains(#[trigger] items@[c]@),
{
    let mut r: Vec<&'a str> = Vec::new();
    let ghost mut src: Seq<int> = Seq::empty();
    let ghost mut pos: Seq<int> = Seq::empty();
    let mut b: usize = 0;
    while b < items.len()
        invariant
            b <= items@.len(),
            strictly_sorted(r@),
            src.len() == r@.len(),
            pos.len() == b,
            forall|a: int| 0 <= a < r@.len() ==> 0 <= #[trigger] src[a] < b && items@[src[a]]@ == r@[a]@,
            forall|c: int| 0 <= c < b ==> 0 <= #[trigger] pos[c] < r@.len() && items@[c]@ == r@[pos[c]]@,
        decreases items@.len() - b,
    {
        let item = items[b];
        let mut p: usize = 0;
        while p < r.len() && text_before(r[p], item)
            invariant
                p <= r@.len(),
                forall|a: int| 0 <= a < p ==> text_less(#[trigger] r@[a]@, item@),
            decreases r@.len() - p,
        {
            p = p + 1;
        }
        if p < r.len() && same_text(r[p], item) {
            proof {
                pos = pos.push(p as int);
            }
        } else {
            let ghost before = r@;
            let ghost old_src = src;
            let ghost old_pos = pos;
            r.insert(p, item);
            proof {
                src = old_src.insert(p as int, b as int);
                pos = Seq::new(b as nat, |c: int| if old_pos[c] >= p { old_pos[c] + 1 } else { old_pos[c] }).push(p as int);
                if p < before.len() {
                    lemma_text_less_total(before[p as int]@, item@);
                }
                assert forall|x: int, y: int| 0 <= x < y < r@.len() implies text_less(#[trigger] r@[x]@, #[trigger] r@[y]@) by {
                    if y < p {
                        assert(r@[x] == before[x] && r@[y] == before[y]);
                    } else if y == p {
                        assert(r@[x] == before[x]);
                    } else if x < p {
                        assert(r@[x] == before[x] && r@[y] == before[y - 1]);
                    } else if x == p {
                        assert(r@[y] == before[y - 1]);
                        if y - 1 > p {
                            lemma_text_less_transitive(item@, before[p as int]@, before[y - 1]@);
                        }
                    } else {
                        assert(r@[x] == before[x - 1] && r@[y] == before[y - 1]);
                    }
                }
                assert forall|a: int| 0 <= a < r@.len() implies 0 <= #[trigger] src[a] < b + 1 && items@[src[a]]@ == r@[a]@ by {
                    if a < p {
                        assert(r@[a] == before[a] && src[a] == old_src[a]);
                    } else if a > p {
                        assert(r@[a] == before[a - 1] && src[a] == old_src[a - 1]);
                    }
                }
                assert forall|c: int| 0 <= c < b + 1 implies 0 <= #[trigger] pos[c] < r@.len() && items@[c]@ == r@[pos[c]]@ by {
                    if c < b {
                        if old_pos[c] >= p {
                            assert(r@[old_pos[c] + 1] == before[old_pos[c]]);
                        } else {
                            assert(r@[old_pos[c]] == before[old_pos[c]]);
                        }
                    }
                }
            }
        }
        b = b + 1;
    }
    assert forall|a: int| 0 <= a < r@.len() implies texts(items@).contains(#[trigger] r@[a]@) by {
        let c = src[a];
        assert(texts(items@)[c] == r@[a]@);
    }
    assert forall|c: int| 0 <= c < items@.len() implies texts(r@).contains(#[trigger] items@[c]@) by {
        let a = pos[c];
        assert(texts(r@)[a] == items@[c]@);
    }
    r
}

} // verus!
