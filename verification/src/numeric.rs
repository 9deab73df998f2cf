//! Number-field policy shared by hosts: how typed text is screened before it
//! is evaluated as arithmetic. Native widgets own focus, selection and
//! unfinished text; the evaluation itself runs in the host.
use vstd::prelude::*;
use vstd::string::*;
use crate::text::string_from_chars;

verus! {

/// How a number field is presented.
#[derive(Clone, Copy, Debug, PartialEq, Eq, Structural)]
pub enum NumericKind {
    Number,
    Slider,
}

/// Longest expression source, in bytes.
pub const MAX_EXPRESSION_BYTES: usize = 256;

/// Unicode's White_Space characters, the ones `str::trim` removes.
pub open spec fn is_space(c: char) -> bool {
    ||| ('\u{9}' <= c && c <= '\u{d}')
    ||| c == ' '
    ||| c == '\u{85}'
    ||| c == '\u{a0}'
    ||| c == '\u{1680}'
    ||| ('\u{2000}' <= c && c <= '\u{200a}')
    ||| c == '\u{2028}'
    ||| c == '\u{2029}'
    ||| c == '\u{202f}'
    ||| c == '\u{205f}'
    ||| c == '\u{3000}'
}

/// `s` without its leading white space.
pub open spec fn trim_start(s: Seq<char>) -> Seq<char>
    decreases s.len(),
{
    if s.len() > 0 && is_space(s[0]) {
        trim_start(s.drop_first())
    } else {
        s
    }
}

/// `s` without its trailing white space.
pub open spec fn trim_end(s: Seq<char>) -> Seq<char>
    decreases s.len(),
{
    if s.len() > 0 && is_space(s.last()) {
        trim_end(s.drop_last())
    } else {
        s
    }
}

/// `s` without white space at either end.
pub open spec fn trim(s: Seq<char>) -> Seq<char> {
    trim_end(trim_start(s))
}

/// Whether `char::is_alphanumeric` holds of a character (Unicode's
/// Alphabetic property or a numeric general category).
pub uninterp spec fn alphanumeric(c: char) -> bool;

/// `char::is_alphanumeric`.
#[verifier::external_body]
fn is_alphanumeric(c: char) -> (r: bool)
    ensures
        r == alphanumeric(c),
{
    c.is_alphanumeric()
}

/// A character that can be part of a name in an expression.
pub open spec fn is_word(c: char) -> bool {
    alphanumeric(c) || c == '_'
}

/// `s` names the diagnostic `print` function: "print" stands in it as a
/// whole run of name characters.
pub open spec fn names_print(s: Seq<char>) -> bool {
    exists|i: int| #[trigger] print_at(s, i)
}

pub open spec fn print_at(s: Seq<char>, i: int) -> bool {
    &&& 0 <= i && i + 5 <= s.len()
    &&& s.subrange(i, i + 5) == "print"@
    &&& forall|k: int| i <= k < i + 5 ==> is_word(#[trigger] s[k])
    &&& (i == 0 || !is_word(s[i - 1]))
    &&& (i + 5 == s.len() || !is_word(s[i + 5]))
}

/// The text to evaluate once the unit is dropped: trimmed, then without a
/// trailing `unit` and the white space before it.
pub open spec fn without_unit(text: Seq<char>, unit: Seq<char>) -> Seq<char> {
    if unit.len() == 0 {
        text
    } else if unit.len() <= text.len() && text.subrange(text.len() - unit.len(), text.len() as int) == unit {
        trim_end(text.subrange(0, text.len() - unit.len()))
    } else {
        trim_end(text)
    }
}

/// Why typed text is not evaluated.
#[derive(Clone, Copy, Debug, PartialEq, Eq, Structural)]
pub enum ExpressionError {
    /// The source is longer than `MAX_EXPRESSION_BYTES`.
    TooLong,
    /// The text holds a string literal or calls the diagnostic output.
    NotMath,
}

impl ExpressionError {
    pub fn message(self) -> (m: &'static str)
        ensures
            self == ExpressionError::TooLong ==> m@ == "Expression is too long"@,
            self == ExpressionError::NotMath ==> m@ == "Enter a mathematical expression"@,
    {
        match self {
            ExpressionError::TooLong => "Expression is too long",
            ExpressionError::NotMath => "Enter a mathematical expression",
        }
    }
}

/// The screened arithmetic text for `source` typed into a field with unit
/// `unit`, or why it is refused.
pub open spec fn spec_expression_text(source: &str, unit: Seq<char>) -> Result<Seq<char>, ExpressionError> {
    if source.len() > MAX_EXPRESSION_BYTES {
        Err(ExpressionError::TooLong)
    } else {
        let text = without_unit(trim(source@), unit);
        if text.contains('"') || text.contains('\'') || names_print(text) {
            Err(ExpressionError::NotMath)
        } else {
            Ok(text)
        }
    }
}

/// Whether `c` is white space.
pub fn is_space_char(c: char) -> (r: bool)
    ensures
        r == is_space(c),
{
    ('\u{9}' <= c && c <= '\u{d}') || c == ' ' || c == '\u{85}' || c == '\u{a0}' || c == '\u{1680}'
        || ('\u{2000}' <= c && c <= '\u{200a}') || c == '\u{2028}' || c == '\u{2029}' || c == '\u{202f}'
        || c == '\u{205f}' || c == '\u{3000}'
}

fn chars_of(s: &str) -> (v: Vec<char>)
    ensures
        v@ == s@,
{
    let n = s.unicode_len();
    let mut v: Vec<char> = Vec::new();
    let mut i: usize = 0;
    while i < n
        invariant
            n == s@.len(),
            i <= n,
            v@ == s@.subrange(0, i as int),
        decreases n - i,
    {
        v.push(s.get_char(i));
        i = i + 1;
        assert(v@ =~= s@.subrange(0, i as int));
    }
    assert(s@.subrange(0, n as int) =~= s@);
    v
}

fn copy_range(v: &Vec<char>, a: usize, b: usize) -> (r: Vec<char>)
    requires
        a <= b <= v@.len(),
    ensures
        r@ == v@.subrange(a as int, b as int),
{
    let mut r: Vec<char> = Vec::new();
    let mut i = a;
    while i < b
        invariant
            a <= i <= b,
            b <= v@.len(),
            r@ == v@.subrange(a as int, i as int),
        decreases b - i,
    {
        r.push(v[i]);
        i = i + 1;
        assert(r@ =~= v@.subrange(a as int, i as int));
    }
    r
}

/// `v` without trailing white space.
fn trim_end_chars(v: &Vec<char>) -> (r: Vec<char>)
    ensures
        r@ == trim_end(v@),
{
    let mut b = v.len();
    assert(v@.subrange(0, b as int) =~= v@);
    while b > 0 && is_space_char(v[b - 1])
        invariant
            b <= v@.len(),
            trim_end(v@) == trim_end(v@.subrange(0, b as int)),
        decreases b,
    {
        assert(v@.subrange(0, b as int).drop_last() =~= v@.subrange(0, b as int - 1));
        b = b - 1;
    }
    copy_range(v, 0, b)
}

/// `v` without white space at either end.
fn trim_chars(v: &Vec<char>) -> (r: Vec<char>)
    ensures
        r@ == trim(v@),
{
    let n = v.len();
    let mut a: usize = 0;
    assert(v@.subrange(0, n as int) =~= v@);
    while a < n && is_space_char(v[a])
        invariant
            n == v@.len(),
            a <= n,
            trim_start(v@) == trim_start(v@.subrange(a as int, n as int)),
        decreases n - a,
    {
        assert(v@.subrange(a as int, n as int).drop_first() =~= v@.subrange(a as int + 1, n as int));
        a = a + 1;
    }
    let rest = copy_range(v, a, n);
    trim_end_chars(&rest)
}

fn holds_char(v: &Vec<char>, c: char) -> (r: bool)
    ensures
        r == v@.contains(c),
{
    let mut i: usize = 0;
    while i < v.len()
        invariant
            i <= v@.len(),
            forall|j: int| 0 <= j < i ==> v@[j] != c,
        decreases v@.len() - i,
    {
        if v[i] == c {
            assert(v@[i as int] == c);
            return true;
        }
        i = i + 1;
    }
    false
}

fn is_word_char(c: char) -> (r: bool)
    ensures
        r == is_word(c),
{
    c == '_' || is_alphanumeric(c)
}

/// Whether "print" stands at `i` as a whole name.
fn print_at_index(v: &Vec<char>, i: usize) -> (r: bool)
    requires
        i + 5 <= v@.len(),
    ensures
        r == print_at(v@, i as int),
{
    proof {
        reveal_strlit("print");
    }
    let word = "print";
    let len = v.len();
    let mut k: usize = 0;
    while k < 5
        invariant
            len == v@.len(),
            i + 5 <= len,
            k <= 5,
            word@ == "print"@,
            word@.len() == 5,
            forall|j: int| i <= j < i + k ==> v@[j] == word@[j - i] && is_word(#[trigger] v@[j]),
        decreases 5 - k,
    {
        if v[i + k] != word.get_char(k) || !is_word_char(v[i + k]) {
            proof {
                if v@[i + k] != word@[k as int] {
                    assert(v@.subrange(i as int, i + 5)[k as int] != "print"@[k as int]);
                } else {
                    assert(!is_word(v@[i + k]));
                }
            }
            return false;
        }
        k = k + 1;
    }
    assert(v@.subrange(i as int, i + 5) =~= "print"@) by {
        assert forall|j: int| 0 <= j < 5 implies v@.subrange(i as int, i + 5)[j] == "print"@[j] by {
            assert(v@[i + j] == word@[j]);
        }
    }
    let before_ok = i == 0 || !is_word_char(v[i - 1]);
    let after_ok = i + 5 == v.len() || !is_word_char(v[i + 5]);
    before_ok && after_ok
}

fn names_print_chars(v: &Vec<char>) -> (r: bool)
    ensures
        r == names_print(v@),
{
    if v.len() < 5 {
        return false;
    }
    let len = v.len();
    let last = len - 5;
    let mut i: usize = 0;
    while i <= last
        invariant
            len == v@.len(),
            last + 5 == len,
            i <= last + 1,
            forall|j: int| 0 <= j < i ==> !print_at(v@, j),
        decreases last + 1 - i,
    {
        if print_at_index(v, i) {
            return true;
        }
        i = i + 1;
    }
    assert forall|j: int| !print_at(v@, j) by {
        if 0 <= j && j + 5 <= v@.len() {
            assert(j < i);
        }
    }
    false
}

/// Screens typed number-field text before it is evaluated: refuses a source
/// longer than `MAX_EXPRESSION_BYTES`, trims it, drops a trailing unit, and
/// refuses string literals and the diagnostic `print`.
pub fn expression_text(source: &str, unit: &str) -> (r: Result<String, ExpressionError>)
    ensures
        match spec_expression_text(source, unit@) {
            Ok(t) => (r matches Ok(s) && s@ == t),
            Err(e) => r == Err::<String, ExpressionError>(e),
        },
{
    if source.len() > MAX_EXPRESSION_BYTES {
        return Err(ExpressionError::TooLong);
    }
    let chars = chars_of(source);
    let text = trim_chars(&chars);
    let unit_chars = chars_of(unit);
    let text = if unit_chars.len() == 0 {
        text
    } else if unit_chars.len() <= text.len() && ends_with(&text, &unit_chars) {
        let cut = copy_range(&text, 0, text.len() - unit_chars.len());
        trim_end_chars(&cut)
    } else {
        trim_end_chars(&text)
    };
    assert(text@ == without_unit(trim(source@), unit@));
    if holds_char(&text, '"') || holds_char(&text, '\'') || names_print_chars(&text) {
        return Err(ExpressionError::NotMath);
    }
    Ok(string_from_chars(&text))
}

fn ends_with(text: &Vec<char>, suffix: &Vec<char>) -> (r: bool)
    requires
        suffix@.len() <= text@.len(),
    ensures
        r == (text@.subrange(text@.len() - suffix@.len(), text@.len() as int) == suffix@),
{
    let n = text.len();
    let m = suffix.len();
    let start = n - m;
    let mut k: usize = 0;
    while k < m
        invariant
            n == text@.len(),
            m == suffix@.len(),
            start + m == n,
            k <= m,
            forall|j: int| 0 <= j < k ==> text@[start + j] == suffix@[j],
        decreases m - k,
    {
        if text[start + k] != suffix[k] {
            assert(text@.subrange(start as int, n as int)[k as int] != suffix@[k as int]);
            return false;
        }
        k = k + 1;
    }
    assert(text@.subrange(start as int, n as int) =~= suffix@);
    true
}

/// Whether typed text is blank, which a settings field takes as a reset.
pub fn is_blank(text: &str) -> (r: bool)
    ensures
        r == (trim(text@).len() == 0),
{
    let chars = chars_of(text);
    let t = trim_chars(&chars);
    t.len() == 0
}

} // verus!
