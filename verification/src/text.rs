//! Text helpers: comparison, decimal digits and control characters.
use vstd::prelude::*;

verus! {

/// `String::push` appends one character to the end of the string.
pub assume_specification[ String::push ](s: &mut String, ch: char)
    ensures
        final(s)@ == old(s)@.push(ch),
;

/// Whether two string slices hold the same characters.
pub fn str_eq(a: &str, b: &str) -> (same: bool)
    ensures
        same == (a@ == b@),
{
    let left = a.as_bytes();
    let right = b.as_bytes();
    proof {
        vstd::utf8::encode_utf8_decode_utf8(a@);
        vstd::utf8::encode_utf8_decode_utf8(b@);
    }
    if left.len() != right.len() {
        return false;
    }
    let mut i: usize = 0;
    while i < left.len()
        invariant
            i <= left@.len(),
            left@.len() == right@.len(),
            left@ == vstd::utf8::encode_utf8(a@),
            right@ == vstd::utf8::encode_utf8(b@),
            forall|j: int| 0 <= j < i ==> left@[j] == right@[j],
        decreases left@.len() - i,
    {
        if left[i] != right[i] {
            return false;
        }
        i += 1;
    }
    assert(left@ =~= right@);
    true
}

/// Whether one of the texts holds these characters.
pub open spec fn is_listed(texts: Seq<&str>, text: Seq<char>) -> bool {
    exists|i: int| 0 <= i < texts.len() && (#[trigger] texts[i])@ == text
}

/// Whether `text` is one of `texts`.
pub fn listed(texts: &[&str], text: &str) -> (found: bool)
    ensures
        found == is_listed(texts@, text@),
{
    let mut i: usize = 0;
    while i < texts.len()
        invariant
            i <= texts@.len(),
            forall|j: int| 0 <= j < i ==> (#[trigger] texts@[j])@ != text@,
        decreases texts@.len() - i,
    {
        if str_eq(texts[i], text) {
            return true;
        }
        i += 1;
    }
    false
}

/// Whether `a` stands before `b` in the order of their characters.
pub open spec fn text_before(a: Seq<char>, b: Seq<char>) -> bool
    decreases a.len(),
{
    if b.len() == 0 {
        false
    } else if a.len() == 0 {
        true
    } else if a[0] != b[0] {
        a[0] < b[0]
    } else {
        text_before(a.skip(1), b.skip(1))
    }
}

/// No text stands before itself.
pub proof fn text_before_irreflexive(a: Seq<char>)
    ensures
        !text_before(a, a),
    decreases a.len(),
{
    if a.len() > 0 {
        text_before_irreflexive(a.skip(1));
    }
}

/// Of two different texts one stands before the other.
pub proof fn text_before_total(a: Seq<char>, b: Seq<char>)
    ensures
        a == b || text_before(a, b) || text_before(b, a),
    decreases a.len(),
{
    if a.len() > 0 && b.len() > 0 {
        if a[0] == b[0] {
            text_before_total(a.skip(1), b.skip(1));
            if a.skip(1) == b.skip(1) {
                assert(a =~= seq![a[0]] + a.skip(1));
                assert(b =~= seq![b[0]] + b.skip(1));
            }
        }
    } else if a.len() == 0 && b.len() == 0 {
        assert(a =~= b);
    }
}

/// A text before one that is before a third is before the third.
pub proof fn text_before_transitive(a: Seq<char>, b: Seq<char>, c: Seq<char>)
    requires
        text_before(a, b),
        text_before(b, c),
    ensures
        text_before(a, c),
    decreases a.len(),
{
    if a.len() > 0 && a[0] == b[0] && b[0] == c[0] {
        text_before_transitive(a.skip(1), b.skip(1), c.skip(1));
    }
}

/// Whether `a` stands before `b` in the order of their characters.
pub fn str_before(a: &str, b: &str) -> (before: bool)
    ensures
        before == text_before(a@, b@),
{
    let left = chars_of(a);
    let right = chars_of(b);
    let mut i: usize = 0;
    assert(a@.skip(0) =~= a@ && b@.skip(0) =~= b@);
    while i < left.len() && i < right.len()
        invariant
            i <= left@.len(),
            i <= right@.len(),
            left@ == a@,
            right@ == b@,
            text_before(a@, b@) == text_before(a@.skip(i as int), b@.skip(i as int)),
        decreases left@.len() - i,
    {
        assert(a@.skip(i as int)[0] == left@[i as int] && b@.skip(i as int)[0] == right@[i as int]);
        if left[i] != right[i] {
            return left[i] < right[i];
        }
        assert(a@.skip(i as int).skip(1) =~= a@.skip(i + 1));
        assert(b@.skip(i as int).skip(1) =~= b@.skip(i + 1));
        i += 1;
    }
    i < right.len()
}

/// The characters of a string slice, in order.
pub fn chars_of(s: &str) -> (chars: Vec<char>)
    ensures
        chars@ == s@,
{
    let mut chars: Vec<char> = Vec::new();
    for ch in it: s.chars()
        invariant
            chars@ == s@.take(it.index() as int),
            it.seq() == s@,
    {
        chars.push(ch);
        assert(s@.take(it.index() + 1) =~= s@.take(it.index() as int).push(ch));
    }
    assert(s@.take(s@.len() as int) =~= s@);
    chars
}

/// The decimal digit `d` as a character.
pub open spec fn digit_char(d: nat) -> char {
    (48 + d) as char
}

/// The decimal digits of `n`, most significant first, without leading zeros.
pub open spec fn decimal_digits(n: nat) -> Seq<char>
    decreases n,
{
    if n < 10 {
        seq![digit_char(n)]
    } else {
        decimal_digits(n / 10).push(digit_char(n % 10))
    }
}

/// Writes `n` in decimal.
pub fn decimal(n: u64) -> (digits: String)
    ensures
        digits@ == decimal_digits(n as nat),
    decreases n,
{
    let mut digits: String = if n < 10 {
        String::new()
    } else {
        decimal(n / 10)
    };
    let digit: u8 = (n % 10) as u8;
    digits.push((48u8 + digit) as char);
    assert(digits@ =~= decimal_digits(n as nat));
    digits
}

/// Different numbers have different decimal digits.
pub proof fn decimal_digits_injective(a: nat, b: nat)
    ensures
        decimal_digits(a) == decimal_digits(b) ==> a == b,
    decreases a,
{
    if decimal_digits(a) == decimal_digits(b) {
        decimal_digits_nonempty(a / 10);
        decimal_digits_nonempty(b / 10);
        assert(decimal_digits(a).last() == digit_char(a % 10));
        assert(decimal_digits(b).last() == digit_char(b % 10));
        assert(a % 10 == b % 10);
        if a >= 10 && b >= 10 {
            assert(decimal_digits(a).drop_last() =~= decimal_digits(a / 10));
            assert(decimal_digits(b).drop_last() =~= decimal_digits(b / 10));
            decimal_digits_injective(a / 10, b / 10);
        }
    }
}

/// Decimal digits are digits.
pub proof fn decimal_digits_are_digits(n: nat)
    ensures
        forall|i: int|
            0 <= i < decimal_digits(n).len() ==> '0' <= #[trigger] decimal_digits(n)[i] <= '9',
    decreases n,
{
    let digits = decimal_digits(n);
    if n >= 10 {
        decimal_digits_are_digits(n / 10);
        assert forall|i: int| 0 <= i < digits.len() implies '0' <= #[trigger] digits[i] <= '9' by {
            if i < digits.len() - 1 {
                assert(digits[i] == decimal_digits(n / 10)[i]);
            } else {
                assert(digits[i] == digit_char(n % 10));
            }
        }
    } else {
        assert forall|i: int| 0 <= i < digits.len() implies '0' <= #[trigger] digits[i] <= '9' by {
            assert(digits[i] == digit_char(n));
        }
    }
}

proof fn decimal_digits_nonempty(n: nat)
    ensures
        decimal_digits(n).len() >= 1,
    decreases n,
{
    if n >= 10 {
        decimal_digits_nonempty(n / 10);
    }
}

/// Whether `ch` belongs to Unicode's control category.
pub open spec fn is_control_char(ch: char) -> bool {
    (ch as u32) <= 0x1f || 0x7f <= (ch as u32) <= 0x9f
}

/// The text without its control characters.
pub open spec fn without_controls(text: Seq<char>) -> Seq<char> {
    text.filter(|ch: char| !is_control_char(ch))
}

/// Removes every control character from `text`.
pub fn strip_controls(text: &str) -> (clean: String)
    ensures
        clean@ == without_controls(text@),
{
    let ghost keep = |ch: char| !is_control_char(ch);
    let chars = chars_of(text);
    let mut clean = String::new();
    let mut i: usize = 0;
    assert(text@.take(0).filter(keep) =~= Seq::<char>::empty()) by {
        reveal(Seq::filter);
    }
    while i < chars.len()
        invariant
            i <= chars@.len(),
            chars@ == text@,
            keep == (|ch: char| !is_control_char(ch)),
            clean@ == text@.take(i as int).filter(keep),
        decreases chars@.len() - i,
    {
        let code: u32 = chars[i] as u32;
        proof {
            reveal(Seq::filter);
            assert(text@.take(i + 1).drop_last() =~= text@.take(i as int));
        }
        if !(code <= 0x1f || (0x7f <= code && code <= 0x9f)) {
            clean.push(chars[i]);
        }
        i += 1;
    }
    assert(text@.take(text@.len() as int) =~= text@);
    clean
}

/// Text that went through [`without_controls`] once is not changed by it again.
pub proof fn without_controls_idempotent(text: Seq<char>)
    ensures
        without_controls(without_controls(text)) == without_controls(text),
    decreases text.len(),
{
    reveal(Seq::filter);
    let keep = |ch: char| !is_control_char(ch);
    if text.len() > 0 {
        let head = text.drop_last();
        without_controls_idempotent(head);
        if keep(text.last()) {
            assert(text.filter(keep) == head.filter(keep).push(text.last()));
            assert(text.filter(keep).drop_last() =~= head.filter(keep));
        }
    }
}

} // verus!
