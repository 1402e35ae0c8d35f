//! Text primitives shared by the domain modules: character classes, trimming,
//! code-point order and decimal and hexadecimal notation.

use vstd::prelude::*;
use vstd::utf8::*;

use crate::ordered;

verus! {

/// The White_Space property of the Unicode character database.
pub open spec fn is_whitespace(c: char) -> bool {
    ||| '\u{9}' <= c <= '\u{d}'
    ||| c == '\u{20}'
    ||| c == '\u{85}'
    ||| c == '\u{a0}'
    ||| c == '\u{1680}'
    ||| '\u{2000}' <= c <= '\u{200a}'
    ||| '\u{2028}' <= c <= '\u{2029}'
    ||| c == '\u{202f}'
    ||| c == '\u{205f}'
    ||| c == '\u{3000}'
}

/// The Unicode general category Cc: the C0 and C1 control codes and DEL.
pub open spec fn is_control(c: char) -> bool {
    c <= '\u{1f}' || '\u{7f}' <= c <= '\u{9f}'
}

/// A text that holds at least one control code.
pub open spec fn has_control(s: Seq<char>) -> bool {
    exists|i: int| 0 <= i < s.len() && is_control(#[trigger] s[i])
}

/// The text without its leading whitespace.
pub open spec fn trimmed_start(s: Seq<char>) -> Seq<char>
    decreases s.len(),
{
    if s.len() > 0 && is_whitespace(s[0]) {
        trimmed_start(s.drop_first())
    } else {
        s
    }
}

/// The text without its trailing whitespace.
pub open spec fn trimmed_end(s: Seq<char>) -> Seq<char>
    decreases s.len(),
{
    if s.len() > 0 && is_whitespace(s.last()) {
        trimmed_end(s.drop_last())
    } else {
        s
    }
}

/// The text without its leading and trailing whitespace.
pub open spec fn trimmed(s: Seq<char>) -> Seq<char> {
    trimmed_end(trimmed_start(s))
}

/// Reports whether a character is whitespace.
pub fn char_is_whitespace(c: char) -> (r: bool)
    ensures
        r == is_whitespace(c),
{
    ('\u{9}' <= c && c <= '\u{d}') || c == '\u{20}' || c == '\u{85}' || c == '\u{a0}'
        || c == '\u{1680}' || ('\u{2000}' <= c && c <= '\u{200a}') || ('\u{2028}' <= c && c
        <= '\u{2029}') || c == '\u{202f}' || c == '\u{205f}' || c == '\u{3000}'
}

/// Reports whether a character is a control code.
pub fn char_is_control(c: char) -> (r: bool)
    ensures
        r == is_control(c),
{
    c <= '\u{1f}' || ('\u{7f}' <= c && c <= '\u{9f}')
}

/// `String::push`: appends one character.
pub assume_specification[ String::push ](string: &mut String, c: char)
    ensures
        final(string)@ == old(string)@.push(c),
;

/// The characters of a text.
pub fn chars_of(s: &str) -> (v: Vec<char>)
    ensures
        v@ == s@,
{
    let mut v: Vec<char> = Vec::new();
    for c in iter: s.chars()
        invariant
            iter.seq() == s@,
            v@ == s@.take(iter.index()),
    {
        v.push(c);
    }
    v
}

/// The text made of the given characters.
pub fn text_of(chars: &[char]) -> (s: String)
    ensures
        s@ == chars@,
{
    let mut s: String = String::new();
    let mut i: usize = 0;
    while i < chars.len()
        invariant
            i <= chars.len(),
            s@ == chars@.take(i as int),
        decreases chars.len() - i,
    {
        s.push(chars[i]);
        i = i + 1;
        assert(chars@.take(i as int) =~= chars@.take(i - 1).push(chars@[i - 1]));
    }
    assert(chars@.take(i as int) =~= chars@);
    s
}

/// Reports whether a text holds a control code.
pub fn text_has_control(s: &str) -> (r: bool)
    ensures
        r == has_control(s@),
{
    let chars = chars_of(s);
    let mut i: usize = 0;
    while i < chars.len()
        invariant
            i <= chars.len(),
            chars@ == s@,
            forall|j: int| 0 <= j < i ==> !is_control(#[trigger] s@[j]),
        decreases chars.len() - i,
    {
        if char_is_control(chars[i]) {
            assert(is_control(s@[i as int]));
            return true;
        }
        i = i + 1;
    }
    false
}

/// Dropping whitespace from the front is dropping the longest whitespace prefix.
proof fn lemma_trimmed_start(s: Seq<char>, k: int)
    requires
        0 <= k <= s.len(),
        forall|j: int| 0 <= j < k ==> is_whitespace(#[trigger] s[j]),
        k < s.len() ==> !is_whitespace(s[k]),
    ensures
        trimmed_start(s) == s.skip(k),
    decreases s.len(),
{
    if k == 0 {
        assert(s.skip(0) =~= s);
    } else {
        assert(is_whitespace(s[0]));
        let rest = s.drop_first();
        assert forall|j: int| 0 <= j < k - 1 implies is_whitespace(#[trigger] rest[j]) by {
            assert(rest[j] == s[j + 1]);
        }
        lemma_trimmed_start(rest, k - 1);
        assert(rest.skip(k - 1) =~= s.skip(k));
    }
}

/// Dropping whitespace from the back is keeping the prefix up to the last other character.
proof fn lemma_trimmed_end(s: Seq<char>, k: int)
    requires
        0 <= k <= s.len(),
        forall|j: int| k <= j < s.len() ==> is_whitespace(#[trigger] s[j]),
        k > 0 ==> !is_whitespace(s[k - 1]),
    ensures
        trimmed_end(s) == s.take(k),
    decreases s.len(),
{
    if k == s.len() {
        assert(s.take(k) =~= s);
    } else {
        let rest = s.drop_last();
        lemma_trimmed_end(rest, k);
        assert(rest.take(k) =~= s.take(k));
    }
}

/// Trimming leaves a text that neither begins nor ends with whitespace.
pub proof fn lemma_trimmed_edges(s: Seq<char>)
    ensures
        trimmed(s).len() > 0 ==> !is_whitespace(trimmed(s)[0]) && !is_whitespace(trimmed(s).last()),
        trimmed(s).len() <= s.len(),
{
    lemma_trimmed_start_edges(s);
    lemma_trimmed_end_edges(trimmed_start(s));
}

proof fn lemma_trimmed_start_edges(s: Seq<char>)
    ensures
        trimmed_start(s).len() > 0 ==> !is_whitespace(trimmed_start(s)[0]),
        trimmed_start(s).len() <= s.len(),
    decreases s.len(),
{
    if s.len() > 0 && is_whitespace(s[0]) {
        lemma_trimmed_start_edges(s.drop_first());
    }
}

proof fn lemma_trimmed_end_edges(s: Seq<char>)
    ensures
        trimmed_end(s).len() > 0 ==> !is_whitespace(trimmed_end(s).last()) && trimmed_end(s)[0]
            == s[0],
        trimmed_end(s).len() <= s.len(),
    decreases s.len(),
{
    if s.len() > 0 && is_whitespace(s.last()) {
        lemma_trimmed_end_edges(s.drop_last());
    }
}

/// Trimming a text without outer whitespace keeps it.
pub proof fn lemma_trimmed_fixed(s: Seq<char>)
    requires
        s.len() > 0 ==> !is_whitespace(s[0]) && !is_whitespace(s.last()),
    ensures
        trimmed(s) == s,
{
}

/// A text that begins with another character than whitespace is not trimmed away.
pub proof fn lemma_trimmed_keeps_start(s: Seq<char>)
    requires
        s.len() > 0,
        !is_whitespace(s[0]),
    ensures
        trimmed(s).len() > 0,
    decreases s.len(),
{
    if is_whitespace(s.last()) {
        lemma_trimmed_keeps_start(s.drop_last());
    }
}

/// The characters of a trimmed text are consecutive characters of the text.
pub proof fn lemma_trimmed_is_part(s: Seq<char>)
    ensures
        exists|a: int, b: int| 0 <= a <= b <= s.len() && trimmed(s) == #[trigger] s.subrange(a, b),
{
    let a = lemma_trimmed_start_is_part(s);
    let rest = trimmed_start(s);
    let n = lemma_trimmed_end_is_part(rest);
    assert(rest.take(n) =~= s.subrange(a, a + n));
}

proof fn lemma_trimmed_start_is_part(s: Seq<char>) -> (k: int)
    ensures
        0 <= k <= s.len(),
        trimmed_start(s) == s.skip(k),
    decreases s.len(),
{
    if s.len() > 0 && is_whitespace(s[0]) {
        let k = lemma_trimmed_start_is_part(s.drop_first());
        assert(s.drop_first().skip(k) =~= s.skip(k + 1));
        k + 1
    } else {
        assert(s.skip(0) =~= s);
        0
    }
}

proof fn lemma_trimmed_end_is_part(s: Seq<char>) -> (k: int)
    ensures
        0 <= k <= s.len(),
        trimmed_end(s) == s.take(k),
    decreases s.len(),
{
    if s.len() > 0 && is_whitespace(s.last()) {
        let k = lemma_trimmed_end_is_part(s.drop_last());
        assert(s.drop_last().take(k) =~= s.take(k));
        k
    } else {
        assert(s.take(s.len() as int) =~= s);
        s.len() as int
    }
}

/// A trimmed text holds no control code that the text does not hold.
pub proof fn lemma_trimmed_control(s: Seq<char>)
    requires
        !has_control(s),
    ensures
        !has_control(trimmed(s)),
{
    lemma_trimmed_is_part(s);
    let (a, b) = choose|a: int, b: int|
        0 <= a <= b <= s.len() && trimmed(s) == #[trigger] s.subrange(a, b);
    assert forall|i: int| 0 <= i < trimmed(s).len() implies !is_control(
        #[trigger] trimmed(s)[i],
    ) by {
        assert(trimmed(s)[i] == s[a + i]);
    }
}

/// Removes leading and trailing whitespace.
pub fn trim_text(s: &str) -> (r: String)
    ensures
        r@ == trimmed(s@),
{
    let chars = chars_of(s);
    let mut start: usize = 0;
    while start < chars.len() && char_is_whitespace(chars[start])
        invariant
            start <= chars.len(),
            chars@ == s@,
            forall|j: int| 0 <= j < start ==> is_whitespace(#[trigger] chars@[j]),
        decreases chars.len() - start,
    {
        start = start + 1;
    }
    let ghost rest = chars@.skip(start as int);
    let mut end: usize = chars.len();
    while end > start && char_is_whitespace(chars[end - 1])
        invariant
            start <= end <= chars.len(),
            forall|j: int| end <= j < chars.len() ==> is_whitespace(#[trigger] chars@[j]),
        decreases end,
    {
        end = end - 1;
    }
    proof {
        lemma_trimmed_start(s@, start as int);
        assert forall|j: int| end - start <= j < rest.len() implies is_whitespace(
            #[trigger] rest[j],
        ) by {
            assert(rest[j] == chars@[j + start]);
        }
        lemma_trimmed_end(rest, end - start);
        assert(rest.take(end - start) =~= chars@.subrange(start as int, end as int));
    }
    text_of(vstd::slice::slice_subrange(chars.as_slice(), start, end))
}

/// Reports whether two texts are equal.
pub fn same_text(a: &str, b: &str) -> (r: bool)
    ensures
        r == (a@ == b@),
{
    let x = chars_of(a);
    let y = chars_of(b);
    if x.len() != y.len() {
        return false;
    }
    let mut i: usize = 0;
    while i < x.len()
        invariant
            i <= x.len(),
            x.len() == y.len(),
            x@ == a@,
            y@ == b@,
            forall|j: int| 0 <= j < i ==> x@[j] == y@[j],
        decreases x.len() - i,
    {
        if x[i] != y[i] {
            assert(a@[i as int] != b@[i as int]);
            return false;
        }
        i = i + 1;
    }
    assert(a@ =~= b@);
    true
}

/// Reports whether two byte strings are equal.
pub fn same_bytes(a: &[u8], b: &[u8]) -> (r: bool)
    ensures
        r == (a@ == b@),
{
    if a.len() != b.len() {
        return false;
    }
    let mut i: usize = 0;
    while i < a.len()
        invariant
            i <= a.len(),
            a.len() == b.len(),
            forall|j: int| 0 <= j < i ==> a@[j] == b@[j],
        decreases a.len() - i,
    {
        if a[i] != b[i] {
            assert(a@[i as int] != b@[i as int]);
            return false;
        }
        i = i + 1;
    }
    assert(a@ =~= b@);
    true
}

/// The size of a text in UTF-8 bytes.
pub fn byte_len(s: &str) -> (n: usize)
    ensures
        n == encode_utf8(s@).len(),
{
    s.as_bytes().len()
}

/// The first index at which one sequence of codes falls below another: there it
/// either ends or holds the smaller code.
pub open spec fn lex_split(a: Seq<int>, b: Seq<int>, k: int) -> bool {
    &&& 0 <= k <= a.len()
    &&& k < b.len()
    &&& forall|i: int| 0 <= i < k ==> a[i] == b[i]
    &&& k == a.len() || a[k] < b[k]
}

/// Lexicographic order.
pub open spec fn lex_less(a: Seq<int>, b: Seq<int>) -> bool {
    exists|k: int| lex_split(a, b, k)
}

/// The code points of a text.
pub open spec fn codes(s: Seq<char>) -> Seq<int> {
    s.map_values(|c: char| c as int)
}

/// The values of a byte string.
pub open spec fn octets(s: Seq<u8>) -> Seq<int> {
    s.map_values(|b: u8| b as int)
}

/// The order of texts by code point, which is also the order of their UTF-8 encodings.
pub open spec fn text_less(a: Seq<char>, b: Seq<char>) -> bool {
    lex_less(codes(a), codes(b))
}

/// The order of byte strings.
pub open spec fn bytes_less(a: Seq<u8>, b: Seq<u8>) -> bool {
    lex_less(octets(a), octets(b))
}

/// Lexicographic order is irreflexive and asymmetric.
pub proof fn lemma_lex_less_asymmetric(a: Seq<int>, b: Seq<int>)
    ensures
        !lex_less(a, a),
        !(lex_less(a, b) && lex_less(b, a)),
{
    if lex_less(a, b) && lex_less(b, a) {
        let j = choose|k: int| lex_split(a, b, k);
        let k = choose|k: int| lex_split(b, a, k);
        if j < k {
            assert(b[j] == a[j]);
        } else if k < j {
            assert(a[k] == b[k]);
        }
    }
}

/// Lexicographic order is transitive.
pub proof fn lemma_lex_less_transitive(a: Seq<int>, b: Seq<int>, c: Seq<int>)
    requires
        lex_less(a, b),
        lex_less(b, c),
    ensures
        lex_less(a, c),
{
    let j = choose|k: int| lex_split(a, b, k);
    let k = choose|k: int| lex_split(b, c, k);
    if j <= k {
        assert(lex_split(a, c, j));
    } else {
        assert(a[k] == b[k]);
        assert(lex_split(a, c, k));
    }
}

/// Two different sequences are ordered one way or the other.
pub proof fn lemma_lex_less_total(a: Seq<int>, b: Seq<int>)
    ensures
        a == b || lex_less(a, b) || lex_less(b, a),
{
    lemma_lex_less_total_from(a, b, 0);
}

proof fn lemma_lex_less_total_from(a: Seq<int>, b: Seq<int>, k: int)
    requires
        0 <= k <= a.len(),
        k <= b.len(),
        forall|i: int| 0 <= i < k ==> a[i] == b[i],
    ensures
        a == b || lex_less(a, b) || lex_less(b, a),
    decreases a.len() - k,
{
    if k == a.len() {
        if k == b.len() {
            assert(a =~= b);
        } else {
            assert(lex_split(a, b, k));
        }
    } else if k == b.len() {
        assert(lex_split(b, a, k));
    } else if a[k] < b[k] {
        assert(lex_split(a, b, k));
    } else if b[k] < a[k] {
        assert(lex_split(b, a, k));
    } else {
        lemma_lex_less_total_from(a, b, k + 1);
    }
}

/// Exactly one of equality and the two orders holds of any two texts.
pub proof fn lemma_text_order(a: Seq<char>, b: Seq<char>)
    ensures
        a == b || text_less(a, b) || text_less(b, a),
        !text_less(a, a),
        !(text_less(a, b) && text_less(b, a)),
{
    lemma_lex_less_total(codes(a), codes(b));
    lemma_lex_less_asymmetric(codes(a), codes(b));
    if codes(a) == codes(b) {
        assert(a.len() == codes(a).len() == codes(b).len() == b.len());
        assert forall|i: int| 0 <= i < a.len() implies a[i] == b[i] by {
            assert(codes(a)[i] == codes(b)[i]);
        }
        assert(a =~= b);
    }
}

/// Exactly one of equality and the two orders holds of any two byte strings.
pub proof fn lemma_bytes_order(a: Seq<u8>, b: Seq<u8>)
    ensures
        a == b || bytes_less(a, b) || bytes_less(b, a),
        !bytes_less(a, a),
        !(bytes_less(a, b) && bytes_less(b, a)),
{
    lemma_lex_less_total(octets(a), octets(b));
    lemma_lex_less_asymmetric(octets(a), octets(b));
    if octets(a) == octets(b) {
        assert(a.len() == octets(a).len() == octets(b).len() == b.len());
        assert forall|i: int| 0 <= i < a.len() implies a[i] == b[i] by {
            assert(octets(a)[i] == octets(b)[i]);
        }
        assert(a =~= b);
    }
}

/// The order of texts as a relation.
pub open spec fn text_order() -> spec_fn(Seq<char>, Seq<char>) -> bool {
    |a: Seq<char>, b: Seq<char>| text_less(a, b)
}

/// Texts in strictly ascending order.
pub open spec fn texts_ascend(s: Seq<Seq<char>>) -> bool {
    ordered::ascends(s, text_order())
}

/// The texts of a set, each once, in ascending order.
pub open spec fn is_text_listing(s: Seq<Seq<char>>, of: Set<Seq<char>>) -> bool {
    &&& texts_ascend(s)
    &&& forall|t: Seq<char>| #[trigger] s.contains(t) <==> of.contains(t)
}

/// The order of texts is a strict order.
pub proof fn lemma_text_order_is_strict()
    ensures
        ordered::is_strict_order(text_order()),
{
    let less = text_order();
    assert forall|a: Seq<char>| !(#[trigger] less(a, a)) by {
        lemma_text_order(a, a);
    }
    assert forall|a: Seq<char>, b: Seq<char>, c: Seq<char>| #[trigger]
        less(a, b) && #[trigger] less(b, c) implies less(a, c) by {
        lemma_lex_less_transitive(codes(a), codes(b), codes(c));
    }
}

/// Reports whether one text precedes another by code point.
pub fn text_precedes(a: &str, b: &str) -> (r: bool)
    ensures
        r == text_less(a@, b@),
{
    let x = chars_of(a);
    let y = chars_of(b);
    let mut i: usize = 0;
    while i < x.len() && i < y.len()
        invariant
            i <= x.len(),
            i <= y.len(),
            x@ == a@,
            y@ == b@,
            forall|j: int| 0 <= j < i ==> codes(a@)[j] == codes(b@)[j],
        decreases x.len() - i,
    {
        if x[i] < y[i] {
            assert(lex_split(codes(a@), codes(b@), i as int));
            return true;
        }
        if y[i] < x[i] {
            proof {
                assert(lex_split(codes(b@), codes(a@), i as int));
                lemma_text_order(a@, b@);
            }
            return false;
        }
        i = i + 1;
    }
    proof {
        if i < y.len() {
            assert(lex_split(codes(a@), codes(b@), i as int));
        } else if i < x.len() {
            assert(lex_split(codes(b@), codes(a@), i as int));
            lemma_text_order(a@, b@);
        } else {
            assert(codes(a@) =~= codes(b@));
            lemma_lex_less_asymmetric(codes(a@), codes(b@));
        }
    }
    i < y.len()
}

/// Reports whether one byte string precedes another.
pub fn bytes_precede(a: &[u8], b: &[u8]) -> (r: bool)
    ensures
        r == bytes_less(a@, b@),
{
    let mut i: usize = 0;
    while i < a.len() && i < b.len()
        invariant
            i <= a.len(),
            i <= b.len(),
            forall|j: int| 0 <= j < i ==> octets(a@)[j] == octets(b@)[j],
        decreases a.len() - i,
    {
        if a[i] < b[i] {
            assert(lex_split(octets(a@), octets(b@), i as int));
            return true;
        }
        if b[i] < a[i] {
            proof {
                assert(lex_split(octets(b@), octets(a@), i as int));
                lemma_bytes_order(a@, b@);
            }
            return false;
        }
        i = i + 1;
    }
    proof {
        if i < b.len() {
            assert(lex_split(octets(a@), octets(b@), i as int));
        } else if i < a.len() {
            assert(lex_split(octets(b@), octets(a@), i as int));
            lemma_bytes_order(a@, b@);
        } else {
            assert(octets(a@) =~= octets(b@));
            lemma_lex_less_asymmetric(octets(a@), octets(b@));
        }
    }
    i < b.len()
}

/// The decimal digit of a value below ten.
pub open spec fn digit(d: nat) -> char {
    (48 + d) as char
}

/// The decimal notation of a number, without leading zeros.
pub open spec fn decimal(n: nat) -> Seq<char>
    decreases n,
{
    if n < 10 {
        seq![digit(n)]
    } else {
        decimal(n / 10).push(digit(n % 10))
    }
}

/// The bytes of the decimal notation of a number.
pub open spec fn decimal_bytes(n: nat) -> Seq<u8> {
    encode_utf8(decimal(n))
}

/// The number that a string of decimal digits denotes.
pub open spec fn digits_value(s: Seq<u8>) -> nat
    decreases s.len(),
{
    if s.len() == 0 {
        0
    } else {
        digits_value(s.drop_last()) * 10 + (s.last() - 48) as nat
    }
}

/// Decimal notation is made of the digits `0` to `9`.
pub proof fn lemma_decimal_digits(n: nat)
    ensures
        decimal(n).len() > 0,
        forall|i: int| 0 <= i < decimal(n).len() ==> '0' <= #[trigger] decimal(n)[i] <= '9',
        is_ascii_chars(decimal(n)),
    decreases n,
{
    if n >= 10 {
        lemma_decimal_digits(n / 10);
    }
}

/// The bytes of decimal notation are its digits, and they denote the number.
pub proof fn lemma_decimal_bytes(n: nat)
    ensures
        decimal_bytes(n).len() == decimal(n).len() > 0,
        forall|i: int|
            0 <= i < decimal_bytes(n).len() ==> 48 <= #[trigger] decimal_bytes(n)[i] <= 57,
        digits_value(decimal_bytes(n)) == n,
    decreases n,
{
    lemma_decimal_digits(n);
    is_ascii_chars_encode_utf8(decimal(n));
    assert forall|i: int| 0 <= i < decimal_bytes(n).len() implies 48 <= #[trigger] decimal_bytes(
        n,
    )[i] <= 57 by {
        assert('0' <= decimal(n)[i] <= '9');
    }
    if n < 10 {
        assert(decimal_bytes(n).drop_last() =~= Seq::<u8>::empty());
        assert(digits_value(Seq::<u8>::empty()) == 0);
        assert(decimal(n)[0] as u8 == decimal_bytes(n)[0]);
    } else {
        lemma_decimal_bytes(n / 10);
        lemma_decimal_digits(n / 10);
        is_ascii_chars_encode_utf8(decimal(n / 10));
        let last = decimal(n).len() - 1;
        assert(decimal_bytes(n).drop_last() =~= decimal_bytes(n / 10)) by {
            assert forall|i: int| 0 <= i < last implies decimal_bytes(n)[i] == decimal_bytes(
                n / 10,
            )[i] by {
                assert(decimal(n)[i] == decimal(n / 10)[i]);
            }
        }
        assert(decimal(n)[last] as u8 == decimal_bytes(n)[last]);
    }
}

/// Different numbers have different decimal notations.
pub proof fn lemma_decimal_injective(m: nat, n: nat)
    requires
        decimal_bytes(m) == decimal_bytes(n),
    ensures
        m == n,
{
    lemma_decimal_bytes(m);
    lemma_decimal_bytes(n);
}

/// Numbers of sixteen bits have at most five digits.
pub proof fn lemma_decimal_len(n: nat)
    requires
        n <= 65535,
    ensures
        decimal(n).len() <= 5,
{
    reveal_with_fuel(decimal, 6);
}

/// The decimal digit of a value below ten.
fn digit_char(d: u8) -> (c: char)
    requires
        d < 10,
    ensures
        c == digit(d as nat),
{
    (48 + d) as char
}

/// Writes a number in decimal notation.
pub fn decimal_text(n: u64) -> (s: String)
    ensures
        s@ == decimal(n as nat),
    decreases n,
{
    if n < 10 {
        let mut s: String = String::new();
        s.push(digit_char(n as u8));
        s
    } else {
        let mut s = decimal_text(n / 10);
        s.push(digit_char((n % 10) as u8));
        s
    }
}

/// The sixteen-bit number whose decimal notation the bytes are.
pub open spec fn canonical_decimal(bytes: Seq<u8>) -> Option<u16> {
    if exists|n: u16| bytes == #[trigger] decimal_bytes(n as nat) {
        Some(choose|n: u16| bytes == #[trigger] decimal_bytes(n as nat))
    } else {
        None
    }
}

/// Reading back the decimal notation of a number gives the number.
pub proof fn lemma_canonical_decimal(n: u16)
    ensures
        canonical_decimal(decimal_bytes(n as nat)) == Some(n),
{
    let m = choose|m: u16| decimal_bytes(n as nat) == #[trigger] decimal_bytes(m as nat);
    lemma_decimal_injective(m as nat, n as nat);
}

/// Reads a sixteen-bit number in canonical decimal notation: no sign, no leading
/// zero, nothing else.
pub fn parse_canonical_decimal(bytes: &[u8]) -> (r: Option<u16>)
    ensures
        r == canonical_decimal(bytes@),
{
    proof {
        assert forall|n: u16| bytes@ == #[trigger] decimal_bytes(n as nat) implies bytes@.len() <= 5
            && digits_value(bytes@) == n && (forall|i: int|
            0 <= i < bytes@.len() ==> 48 <= #[trigger] bytes@[i] <= 57) by {
            lemma_decimal_bytes(n as nat);
            lemma_decimal_len(n as nat);
        }
    }
    if bytes.len() > 5 {
        return None;
    }
    let mut value: u32 = 0;
    let mut i: usize = 0;
    while i < bytes.len()
        invariant
            i <= bytes.len() <= 5,
            value == digits_value(bytes@.take(i as int)),
            i == 0 ==> value == 0,
            i == 1 ==> value < 10,
            i == 2 ==> value < 100,
            i == 3 ==> value < 1000,
            i == 4 ==> value < 10000,
            i == 5 ==> value < 100000,
            forall|n: u16| bytes@ == #[trigger] decimal_bytes(n as nat) ==> (forall|i: int|
                0 <= i < bytes@.len() ==> 48 <= #[trigger] bytes@[i] <= 57),
        decreases bytes.len() - i,
    {
        let b = bytes[i];
        if b < 48 || b > 57 {
            assert forall|n: u16| bytes@ != #[trigger] decimal_bytes(n as nat) by {
                if bytes@ == decimal_bytes(n as nat) {
                    assert(48 <= bytes@[i as int] <= 57);
                }
            }
            return None;
        }
        assert(bytes@.take(i + 1).drop_last() =~= bytes@.take(i as int));
        value = value * 10 + (b - 48) as u32;
        i = i + 1;
    }
    assert(bytes@.take(i as int) =~= bytes@);
    if value > 65535 {
        return None;
    }
    let printed = decimal_text(value as u64);
    if same_bytes(printed.as_str().as_bytes(), bytes) {
        proof {
            lemma_canonical_decimal(value as u16);
        }
        Some(value as u16)
    } else {
        None
    }
}

/// The lower-case hexadecimal digit of a value below sixteen.
pub open spec fn hex_digit(d: nat) -> char {
    if d < 10 {
        (48 + d) as char
    } else {
        (87 + d) as char
    }
}

/// The lower-case hexadecimal notation of a byte string, two digits a byte.
pub open spec fn hex(bytes: Seq<u8>) -> Seq<char> {
    Seq::new(
        2 * bytes.len(),
        |i: int|
            if i % 2 == 0 {
                hex_digit((bytes[i / 2] / 16) as nat)
            } else {
                hex_digit((bytes[i / 2] % 16) as nat)
            },
    )
}

/// Appending a byte appends its two digits.
pub proof fn lemma_hex_push(bytes: Seq<u8>, b: u8)
    ensures
        hex(bytes.push(b)) == hex(bytes).push(hex_digit((b / 16) as nat)).push(
            hex_digit((b % 16) as nat),
        ),
{
    let long = bytes.push(b);
    let built = hex(bytes).push(hex_digit((b / 16) as nat)).push(hex_digit((b % 16) as nat));
    assert(hex(long).len() == built.len());
    assert forall|i: int| 0 <= i < built.len() implies hex(long)[i] == built[i] by {
        if i < 2 * bytes.len() {
            assert(long[i / 2] == bytes[i / 2]);
        } else {
            assert(long[i / 2] == b);
        }
    }
    assert(hex(long) =~= built);
}

/// Different byte strings have different hexadecimal notations.
pub proof fn lemma_hex_injective(a: Seq<u8>, b: Seq<u8>)
    requires
        hex(a) == hex(b),
    ensures
        a == b,
{
    assert(hex(a).len() == 2 * a.len());
    assert(hex(b).len() == 2 * b.len());
    assert forall|i: int| 0 <= i < a.len() implies a[i] == b[i] by {
        let high = 2 * i;
        let low = 2 * i + 1;
        assert(high / 2 == i && low / 2 == i && high % 2 == 0 && low % 2 == 1);
        assert(hex(a)[high] == hex_digit((a[i] / 16) as nat));
        assert(hex(b)[high] == hex_digit((b[i] / 16) as nat));
        assert(hex(a)[low] == hex_digit((a[i] % 16) as nat));
        assert(hex(b)[low] == hex_digit((b[i] % 16) as nat));
        lemma_hex_digit_injective((a[i] / 16) as nat, (b[i] / 16) as nat);
        lemma_hex_digit_injective((a[i] % 16) as nat, (b[i] % 16) as nat);
    }
    assert(a =~= b);
}

/// Different values have different digits.
pub proof fn lemma_hex_digit_injective(a: nat, b: nat)
    requires
        a < 16,
        b < 16,
        hex_digit(a) == hex_digit(b),
    ensures
        a == b,
{
}

/// Hexadecimal notation is made of the digits `0` to `9` and `a` to `f`.
pub proof fn lemma_hex_digits(bytes: Seq<u8>)
    ensures
        hex(bytes).len() == 2 * bytes.len(),
        forall|i: int|
            0 <= i < hex(bytes).len() ==> '0' <= #[trigger] hex(bytes)[i] <= '9' || 'a' <= hex(
                bytes,
            )[i] <= 'f',
{
    assert forall|i: int| 0 <= i < hex(bytes).len() implies '0' <= #[trigger] hex(bytes)[i] <= '9'
        || 'a' <= hex(bytes)[i] <= 'f' by {
        let b = bytes[i / 2];
        assert(b / 16 < 16);
        assert(b % 16 < 16);
    }
}

/// The lower-case hexadecimal digit of a value below sixteen.
fn hex_char(d: u8) -> (c: char)
    requires
        d < 16,
    ensures
        c == hex_digit(d as nat),
{
    if d < 10 {
        (48 + d) as char
    } else {
        (87 + d) as char
    }
}

/// Writes a byte string in lower-case hexadecimal notation.
pub fn hex_text(bytes: &[u8]) -> (s: String)
    ensures
        s@ == hex(bytes@),
{
    let mut s: String = String::new();
    let mut i: usize = 0;
    assert(hex(bytes@.take(0)) =~= Seq::<char>::empty());
    while i < bytes.len()
        invariant
            i <= bytes.len(),
            s@ == hex(bytes@.take(i as int)),
        decreases bytes.len() - i,
    {
        let b = bytes[i];
        proof {
            lemma_hex_push(bytes@.take(i as int), b);
            assert(bytes@.take(i + 1) =~= bytes@.take(i as int).push(b));
        }
        s.push(hex_char(b / 16));
        s.push(hex_char(b % 16));
        i = i + 1;
    }
    assert(bytes@.take(i as int) =~= bytes@);
    s
}

/// The bytes of which a non-empty text is the lower-case hexadecimal notation.
pub open spec fn unhex(s: Seq<char>) -> Option<Seq<u8>> {
    if s.len() > 0 && exists|bytes: Seq<u8>| s == #[trigger] hex(bytes) {
        Some(choose|bytes: Seq<u8>| s == #[trigger] hex(bytes))
    } else {
        None
    }
}

/// Reading back the hexadecimal notation of bytes gives the bytes.
pub proof fn lemma_unhex(bytes: Seq<u8>)
    requires
        bytes.len() > 0,
    ensures
        unhex(hex(bytes)) == Some(bytes),
{
    let other = choose|other: Seq<u8>| hex(bytes) == #[trigger] hex(other);
    lemma_hex_injective(other, bytes);
}

/// The value of a lower-case hexadecimal digit.
fn hex_value(c: char) -> (r: Option<u8>)
    ensures
        match r {
            Some(d) => d < 16 && c == hex_digit(d as nat),
            None => forall|d: nat| d < 16 ==> c != #[trigger] hex_digit(d),
        },
{
    if '0' <= c && c <= '9' {
        Some(c as u8 - 48)
    } else if 'a' <= c && c <= 'f' {
        Some(c as u8 - 87)
    } else {
        None
    }
}

/// Reads lower-case hexadecimal notation, two digits a byte, at least one byte.
pub fn decode_hex(text: &str) -> (r: Option<Vec<u8>>)
    ensures
        match r {
            Some(bytes) => unhex(text@) == Some(bytes@),
            None => unhex(text@) is None,
        },
{
    let chars = chars_of(text);
    if chars.len() == 0 {
        return None;
    }
    if chars.len() % 2 != 0 {
        proof {
            assert forall|bytes: Seq<u8>| text@ != #[trigger] hex(bytes) by {
                assert(hex(bytes).len() == 2 * bytes.len());
            }
        }
        return None;
    }
    let mut out: Vec<u8> = Vec::new();
    let mut i: usize = 0;
    assert(hex(out@) =~= chars@.take(0));
    while i < chars.len()
        invariant
            i <= chars.len(),
            i % 2 == 0,
            chars.len() % 2 == 0,
            chars@ == text@,
            hex(out@) == text@.take(i as int),
        decreases chars.len() - i,
    {
        let high = hex_value(chars[i]);
        let low = hex_value(chars[i + 1]);
        match (high, low) {
            (Some(h), Some(l)) => {
                let b: u8 = h * 16 + l;
                proof {
                    assert(b / 16 == h && b % 16 == l);
                    lemma_hex_push(out@, b);
                    assert(text@.take(i + 2) =~= text@.take(i as int).push(text@[i as int]).push(
                        text@[i + 1],
                    ));
                }
                out.push(b);
            },
            _ => {
                proof {
                    assert forall|bytes: Seq<u8>| text@ != #[trigger] hex(bytes) by {
                        if text@ == hex(bytes) {
                            let b = bytes[i as int / 2];
                            assert(hex(bytes)[i as int] == hex_digit((b / 16) as nat));
                            assert((i + 1) / 2 == i / 2 && (i + 1) % 2 == 1);
                            assert(hex(bytes)[i + 1] == hex_digit((b % 16) as nat));
                        }
                    }
                }
                return None;
            },
        }
        i = i + 2;
    }
    proof {
        assert(text@.take(i as int) =~= text@);
        if out@.len() == 0 {
            assert(hex(out@).len() == 0);
        }
        lemma_unhex(out@);
    }
    Some(out)
}

/// The parts of a text between the occurrences of a separator; there is one more of
/// them than of separators.
pub open spec fn split(s: Seq<char>, sep: char) -> Seq<Seq<char>>
    decreases s.len(),
{
    if s.len() == 0 {
        seq![Seq::empty()]
    } else {
        let parts = split(s.drop_last(), sep);
        if s.last() == sep {
            parts.push(Seq::empty())
        } else {
            parts.update(parts.len() - 1, parts.last().push(s.last()))
        }
    }
}

/// A text has at least one part.
pub proof fn lemma_split_nonempty(s: Seq<char>, sep: char)
    ensures
        split(s, sep).len() > 0,
    decreases s.len(),
{
    if s.len() > 0 {
        lemma_split_nonempty(s.drop_last(), sep);
    }
}

/// A text without the separator is its own only part.
pub proof fn lemma_split_one(s: Seq<char>, sep: char)
    requires
        !s.contains(sep),
    ensures
        split(s, sep) == seq![s],
    decreases s.len(),
{
    if s.len() == 0 {
        assert(s =~= Seq::<char>::empty());
    } else {
        let rest = s.drop_last();
        assert forall|i: int| 0 <= i < rest.len() implies rest[i] != sep by {
            assert(s.contains(s[i]));
        }
        assert(s.contains(s.last()));
        lemma_split_one(rest, sep);
        assert(split(s, sep) =~= seq![s]) by {
            assert(rest.push(s.last()) =~= s);
        }
    }
}

/// What follows a last separator is the last part.
pub proof fn lemma_split_append(a: Seq<char>, b: Seq<char>, sep: char)
    requires
        !b.contains(sep),
    ensures
        split(a + seq![sep] + b, sep) == split(a, sep).push(b),
    decreases b.len(),
{
    let s = a + seq![sep] + b;
    if b.len() == 0 {
        assert(s.drop_last() =~= a);
        assert(b =~= Seq::<char>::empty());
    } else {
        let rest = b.drop_last();
        assert forall|i: int| 0 <= i < rest.len() implies rest[i] != sep by {
            assert(b.contains(b[i]));
        }
        assert(b.contains(b.last()));
        lemma_split_append(a, rest, sep);
        assert(s.drop_last() =~= a + seq![sep] + rest);
        assert(rest.push(b.last()) =~= b);
        assert(split(s, sep) =~= split(a, sep).push(b));
    }
}

/// The contents of texts.
pub open spec fn text_views(texts: Seq<String>) -> Seq<Seq<char>> {
    texts.map_values(|t: String| t@)
}

/// Splits a text at every occurrence of a separator.
pub fn split_text(s: &str, sep: char) -> (r: Vec<String>)
    ensures
        text_views(r@) == split(s@, sep),
        r@.len() > 0,
{
    let chars = chars_of(s);
    let mut parts: Vec<String> = Vec::new();
    let mut part: String = String::new();
    let mut i: usize = 0;
    assert(text_views(parts@).push(part@) =~= split(s@.take(0), sep));
    while i < chars.len()
        invariant
            i <= chars.len(),
            chars@ == s@,
            text_views(parts@).push(part@) == split(s@.take(i as int), sep),
        decreases chars.len() - i,
    {
        let c = chars[i];
        let ghost before = text_views(parts@);
        assert(s@.take(i + 1).drop_last() =~= s@.take(i as int));
        if c == sep {
            let ghost whole = part@;
            parts.push(part);
            part = String::new();
            assert(text_views(parts@) =~= before.push(whole));
            assert(text_views(parts@).push(part@) =~= split(s@.take(i + 1), sep));
        } else {
            part.push(c);
            assert(text_views(parts@).push(part@) =~= split(s@.take(i + 1), sep));
        }
        i = i + 1;
    }
    assert(s@.take(i as int) =~= s@);
    let ghost before = text_views(parts@);
    let ghost last = part@;
    parts.push(part);
    assert(text_views(parts@) =~= before.push(last));
    parts
}

/// The lower-case form of an ASCII letter; any other character is its own.
pub open spec fn ascii_lower(c: char) -> char {
    if 'A' <= c <= 'Z' {
        (c as u32 + 32) as char
    } else {
        c
    }
}

/// The text with its ASCII letters in lower case.
pub open spec fn ascii_lowered(s: Seq<char>) -> Seq<char> {
    s.map_values(|c: char| ascii_lower(c))
}

/// The lower-case form of an ASCII letter.
fn lower_char(c: char) -> (r: char)
    ensures
        r == ascii_lower(c),
{
    if 'A' <= c && c <= 'Z' {
        ((c as u8) + 32) as char
    } else {
        c
    }
}

/// Reports whether two sequences of characters are equal but for ASCII case.
pub fn same_ignoring_ascii_case(a: &[char], b: &[char]) -> (r: bool)
    ensures
        r == (ascii_lowered(a@) == ascii_lowered(b@)),
{
    proof {
        assert(ascii_lowered(a@).len() == a@.len());
        assert(ascii_lowered(b@).len() == b@.len());
    }
    if a.len() != b.len() {
        return false;
    }
    let mut i: usize = 0;
    while i < a.len()
        invariant
            i <= a.len(),
            a.len() == b.len(),
            forall|j: int| 0 <= j < i ==> ascii_lowered(a@)[j] == ascii_lowered(b@)[j],
        decreases a.len() - i,
    {
        if lower_char(a[i]) != lower_char(b[i]) {
            assert(ascii_lowered(a@)[i as int] != ascii_lowered(b@)[i as int]);
            return false;
        }
        i = i + 1;
    }
    assert(ascii_lowered(a@) =~= ascii_lowered(b@));
    true
}

/// The encoding of a text that is the join of two is the join of their encodings.
pub proof fn lemma_encode_utf8_concat(a: Seq<char>, b: Seq<char>)
    ensures
        encode_utf8(a + b) == encode_utf8(a) + encode_utf8(b),
    decreases a.len(),
{
    if a.len() == 0 {
        assert(a + b =~= b);
        assert(encode_utf8(a) + encode_utf8(b) =~= encode_utf8(b));
    } else {
        lemma_encode_utf8_concat(a.drop_first(), b);
        assert((a + b).drop_first() =~= a.drop_first() + b);
        assert(encode_utf8(a + b) =~= encode_utf8(a) + encode_utf8(b));
    }
}

/// The number of bytes that a character takes in UTF-8.
pub open spec fn char_width(c: char) -> nat {
    encode_scalar(c as u32).len()
}

/// Appending a character adds its width to the size of the encoding.
pub proof fn lemma_encode_utf8_push(s: Seq<char>, c: char)
    ensures
        encode_utf8(s.push(c)).len() == encode_utf8(s).len() + char_width(c),
        1 <= char_width(c) <= 4,
{
    let one = seq![c];
    assert(s.push(c) =~= s + one);
    lemma_encode_utf8_concat(s, one);
    assert(one.drop_first() =~= Seq::<char>::empty());
    assert(encode_utf8(Seq::<char>::empty()) =~= Seq::<u8>::empty());
    assert(encode_utf8(one) =~= encode_scalar(c as u32));
}

/// A longer prefix of a text takes at least as many bytes.
pub proof fn lemma_encode_utf8_prefix(s: Seq<char>, j: int, k: int)
    requires
        0 <= j <= k <= s.len(),
    ensures
        encode_utf8(s.take(j)).len() + (k - j) <= encode_utf8(s.take(k)).len(),
    decreases k - j,
{
    if j < k {
        lemma_encode_utf8_prefix(s, j, k - 1);
        assert(s.take(k) =~= s.take(k - 1).push(s[k - 1]));
        lemma_encode_utf8_push(s.take(k - 1), s[k - 1]);
    }
}

/// A text takes at most four bytes a character.
pub proof fn lemma_encode_utf8_bound(s: Seq<char>)
    ensures
        encode_utf8(s).len() <= 4 * s.len(),
    decreases s.len(),
{
    if s.len() > 0 {
        let rest = s.drop_last();
        lemma_encode_utf8_bound(rest);
        assert(rest.push(s.last()) =~= s);
        lemma_encode_utf8_push(rest, s.last());
    }
}

/// The characters of a part of a text take at most as many bytes as the text.
pub proof fn lemma_encode_utf8_part(s: Seq<char>, a: int, b: int)
    requires
        0 <= a <= b <= s.len(),
    ensures
        encode_utf8(s.subrange(a, b)).len() <= encode_utf8(s).len(),
{
    let (x, y, z) = (s.take(a), s.subrange(a, b), s.skip(b));
    assert(s =~= x + y + z);
    lemma_encode_utf8_concat(x, y);
    lemma_encode_utf8_concat(x + y, z);
}

/// The number of bytes that a character takes in UTF-8.
fn width_of(c: char) -> (n: usize)
    ensures
        n == char_width(c),
{
    if c <= '\u{7f}' {
        1
    } else if c <= '\u{7ff}' {
        2
    } else if c <= '\u{ffff}' {
        3
    } else {
        4
    }
}

/// The longest prefix of a text whose encoding takes at most `limit` bytes.
pub open spec fn is_longest_fitting_prefix(p: Seq<char>, s: Seq<char>, limit: nat) -> bool {
    &&& p.len() <= s.len()
    &&& p == s.take(p.len() as int)
    &&& encode_utf8(p).len() <= limit
    &&& p.len() < s.len() ==> encode_utf8(s.take(p.len() as int + 1)).len() > limit
}

/// Cuts a text at the last character boundary within `limit` bytes.
pub fn longest_fitting_prefix(s: &str, limit: usize) -> (r: String)
    requires
        limit <= usize::MAX - 4,
    ensures
        is_longest_fitting_prefix(r@, s@, limit as nat),
{
    let chars = chars_of(s);
    let mut r: String = String::new();
    let mut size: usize = 0;
    let mut i: usize = 0;
    assert(s@.take(0) =~= Seq::<char>::empty());
    while i < chars.len()
        invariant
            i <= chars.len(),
            chars@ == s@,
            r@ == s@.take(i as int),
            size == encode_utf8(r@).len() <= limit,
            limit <= usize::MAX - 4,
        decreases chars.len() - i,
    {
        let c = chars[i];
        assert(s@.take(i + 1) =~= s@.take(i as int).push(c));
        proof {
            lemma_encode_utf8_push(r@, c);
        }
        let width = width_of(c);
        if size + width > limit {
            return r;
        }
        size = size + width;
        r.push(c);
        i = i + 1;
    }
    r
}

/// `core::str::from_utf8`: gives the text that the bytes encode, and nothing
/// exactly when they are not well-formed UTF-8.
#[verifier::external_body]
pub(crate) fn decode_text(bytes: &[u8]) -> (r: Option<String>)
    ensures
        match r {
            Some(s) => valid_utf8(bytes@) && s@ == decode_utf8(bytes@),
            None => !valid_utf8(bytes@),
        },
{
    match core::str::from_utf8(bytes) {
        Ok(text) => Some(text.to_owned()),
        Err(_) => None,
    }
}

/// The control codes are the code points below 32 and those from 127 to 159.
pub proof fn control_codes_are_fixed(c: char)
    ensures
        is_control(c) <==> (c as int) < 32 || 127 <= (c as int) < 160,
{
}

/// The whitespace characters are these 25 code points, and no others.
pub proof fn whitespace_is_fixed(c: char)
    ensures
        is_whitespace(c) <==> {
            let n = c as int;
            ||| 9 <= n <= 13
            ||| n == 32 || n == 133 || n == 160 || n == 5760
            ||| 8192 <= n <= 8202
            ||| n == 8232 || n == 8233 || n == 8239 || n == 8287 || n == 12288
        },
{
}

/// A text is its trimmed form between two runs of whitespace: nothing but whitespace is
/// trimmed, and all the whitespace at either end is.
pub proof fn trimming_takes_exactly_the_outer_whitespace(s: Seq<char>)
    ensures
        exists|a: int, b: int|
            {
                &&& 0 <= a <= b <= s.len()
                &&& trimmed(s) == #[trigger] s.subrange(a, b)
                &&& forall|i: int| 0 <= i < a ==> is_whitespace(#[trigger] s[i])
                &&& forall|i: int| b <= i < s.len() ==> is_whitespace(#[trigger] s[i])
                &&& a < b ==> !is_whitespace(s[a]) && !is_whitespace(s[b - 1])
            },
{
    let a = lemma_trimmed_start_takes(s);
    let rest = trimmed_start(s);
    let n = lemma_trimmed_end_takes(rest);
    let b = a + n;
    assert(rest.take(n) =~= s.subrange(a, b));
    assert forall|i: int| b <= i < s.len() implies is_whitespace(#[trigger] s[i]) by {
        assert(rest[i - a] == s[i]);
    }
    if a < b {
        assert(rest[0] == s[a]);
        assert(rest[n - 1] == s[b - 1]);
    }
}

proof fn lemma_trimmed_start_takes(s: Seq<char>) -> (k: int)
    ensures
        0 <= k <= s.len(),
        trimmed_start(s) == s.skip(k),
        forall|i: int| 0 <= i < k ==> is_whitespace(#[trigger] s[i]),
        k < s.len() ==> !is_whitespace(s[k]),
    decreases s.len(),
{
    if s.len() > 0 && is_whitespace(s[0]) {
        let rest = s.drop_first();
        let k = lemma_trimmed_start_takes(rest);
        assert(rest.skip(k) =~= s.skip(k + 1));
        assert forall|i: int| 0 <= i < k + 1 implies is_whitespace(#[trigger] s[i]) by {
            if i > 0 {
                assert(rest[i - 1] == s[i]);
            }
        }
        k + 1
    } else {
        assert(s.skip(0) =~= s);
        0
    }
}

proof fn lemma_trimmed_end_takes(s: Seq<char>) -> (k: int)
    ensures
        0 <= k <= s.len(),
        trimmed_end(s) == s.take(k),
        forall|i: int| k <= i < s.len() ==> is_whitespace(#[trigger] s[i]),
        k > 0 ==> !is_whitespace(s[k - 1]),
    decreases s.len(),
{
    if s.len() > 0 && is_whitespace(s.last()) {
        let rest = s.drop_last();
        let k = lemma_trimmed_end_takes(rest);
        assert(rest.take(k) =~= s.take(k));
        assert forall|i: int| k <= i < s.len() implies is_whitespace(#[trigger] s[i]) by {
            if i < rest.len() {
                assert(rest[i] == s[i]);
            }
        }
        k
    } else {
        assert(s.take(s.len() as int) =~= s);
        s.len() as int
    }
}

/// Between a run of whitespace on either side, a text without outer whitespace is what
/// trimming leaves.
pub proof fn outer_whitespace_is_trimmed(before: Seq<char>, s: Seq<char>, after: Seq<char>)
    requires
        forall|i: int| 0 <= i < before.len() ==> is_whitespace(#[trigger] before[i]),
        forall|i: int| 0 <= i < after.len() ==> is_whitespace(#[trigger] after[i]),
        s.len() > 0 ==> !is_whitespace(s[0]) && !is_whitespace(s.last()),
    ensures
        trimmed(before + s + after) == s,
{
    let whole = before + s + after;
    if s.len() == 0 {
        assert forall|j: int| 0 <= j < whole.len() implies is_whitespace(#[trigger] whole[j]) by {
            if j < before.len() {
                assert(whole[j] == before[j]);
            } else {
                assert(whole[j] == after[j - before.len()]);
            }
        }
        lemma_trimmed_start(whole, whole.len() as int);
        assert(whole.skip(whole.len() as int) =~= s);
    } else {
        let k = before.len() as int;
        assert forall|j: int| 0 <= j < k implies is_whitespace(#[trigger] whole[j]) by {
            assert(whole[j] == before[j]);
        }
        assert(whole[k] == s[0]);
        lemma_trimmed_start(whole, k);
        let rest = whole.skip(k);
        assert(rest =~= s + after);
        assert forall|j: int| s.len() <= j < rest.len() implies is_whitespace(
            #[trigger] rest[j],
        ) by {
            assert(rest[j] == after[j - s.len()]);
        }
        assert(rest[s.len() - 1] == s.last());
        lemma_trimmed_end(rest, s.len() as int);
        assert(rest.take(s.len() as int) =~= s);
    }
}

/// Two texts with a common start are ordered by the first character in which they
/// differ, and a text comes before its continuations.
pub proof fn first_difference_decides_the_order(
    start: Seq<char>,
    a: char,
    b: char,
    x: Seq<char>,
    y: Seq<char>,
)
    requires
        (a as int) < (b as int),
    ensures
        text_less(start + seq![a] + x, start + seq![b] + y),
        !text_less(start + seq![b] + y, start + seq![a] + x),
        text_less(start, start + seq![a] + x),
        !text_less(start + seq![a] + x, start),
{
    let p = start + seq![a] + x;
    let q = start + seq![b] + y;
    let k = start.len() as int;
    assert(codes(p)[k] == a as int);
    assert(codes(q)[k] == b as int);
    assert forall|i: int| 0 <= i < k implies codes(p)[i] == codes(q)[i] && codes(p)[i] == codes(
        start,
    )[i] by {
        assert(p[i] == start[i] && q[i] == start[i]);
    }
    assert(lex_split(codes(p), codes(q), k));
    assert(lex_split(codes(start), codes(p), k));
    lemma_text_order(p, q);
    lemma_text_order(start, p);
}

/// Two byte strings with a common start are ordered by the first byte in which they
/// differ, and a byte string comes before its continuations.
pub proof fn first_byte_decides_the_order(
    start: Seq<u8>,
    a: u8,
    b: u8,
    x: Seq<u8>,
    y: Seq<u8>,
)
    requires
        a < b,
    ensures
        bytes_less(start + seq![a] + x, start + seq![b] + y),
        !bytes_less(start + seq![b] + y, start + seq![a] + x),
        bytes_less(start, start + seq![a] + x),
        !bytes_less(start + seq![a] + x, start),
{
    let p = start + seq![a] + x;
    let q = start + seq![b] + y;
    let k = start.len() as int;
    assert(octets(p)[k] == a as int);
    assert(octets(q)[k] == b as int);
    assert forall|i: int| 0 <= i < k implies octets(p)[i] == octets(q)[i] && octets(p)[i] == octets(
        start,
    )[i] by {
        assert(p[i] == start[i] && q[i] == start[i]);
    }
    assert(lex_split(octets(p), octets(q), k));
    assert(lex_split(octets(start), octets(p), k));
    lemma_bytes_order(p, q);
    lemma_bytes_order(start, p);
}

/// Decimal notation is one digit for a number below ten, and continues that of a tenth
/// of the number with its last digit; it never begins with a zero but for zero itself.
pub proof fn decimal_notation_is_positional(n: nat, d: nat)
    requires
        d < 10,
    ensures
        decimal(d) == seq![(48 + d) as char],
        n > 0 ==> decimal(10 * n + d) == decimal(n).push((48 + d) as char),
        n > 0 ==> decimal(n)[0] != '0',
    decreases n,
{
    if n > 0 {
        assert((10 * n + d) / 10 == n);
        assert((10 * n + d) % 10 == d);
        lemma_decimal_digits(n / 10);
        if n >= 10 {
            decimal_notation_is_positional(n / 10, 0);
        }
    }
}

/// Hexadecimal notation has two digits for each byte, the higher four bits first.
pub proof fn hex_notation_is_positional(bytes: Seq<u8>, i: int)
    requires
        0 <= i < bytes.len(),
    ensures
        hex(bytes).len() == 2 * bytes.len(),
        hex(bytes)[2 * i] == "0123456789abcdef"@[bytes[i] as int / 16],
        hex(bytes)[2 * i + 1] == "0123456789abcdef"@[bytes[i] as int % 16],
{
    reveal_strlit("0123456789abcdef");
    let b = bytes[i];
    assert(2 * i / 2 == i && (2 * i + 1) / 2 == i && 2 * i % 2 == 0 && (2 * i + 1) % 2 == 1);
    assert((b / 16) as int == b as int / 16);
    assert((b % 16) as int == b as int % 16);
}

/// Parts joined by a separator.
pub open spec fn joined(parts: Seq<Seq<char>>, sep: char) -> Seq<char>
    decreases parts.len(),
{
    if parts.len() == 0 {
        Seq::empty()
    } else if parts.len() == 1 {
        parts[0]
    } else {
        joined(parts.drop_last(), sep) + seq![sep] + parts.last()
    }
}

/// The parts of a text hold no separator, and joining them gives the text.
pub proof fn splitting_loses_nothing(s: Seq<char>, sep: char)
    ensures
        split(s, sep).len() > 0,
        joined(split(s, sep), sep) == s,
        forall|i: int| 0 <= i < split(s, sep).len() ==> !(#[trigger] split(s, sep)[i]).contains(sep),
    decreases s.len(),
{
    let parts = split(s, sep);
    if s.len() == 0 {
        assert(parts[0] =~= s);
    } else {
        let rest = s.drop_last();
        let before = split(rest, sep);
        splitting_loses_nothing(rest, sep);
        assert(rest.push(s.last()) =~= s);
        if s.last() == sep {
            assert(parts.drop_last() =~= before);
            assert(joined(parts, sep) =~= s);
        } else {
            let last = before.last().push(s.last());
            assert(parts.last() == last);
            assert(parts.drop_last() =~= before.drop_last());
            assert(joined(parts, sep) =~= s);
            assert forall|i: int| 0 <= i < parts.len() implies !(#[trigger] parts[i]).contains(
                sep,
            ) by {
                if i < parts.len() - 1 {
                    assert(parts[i] == before[i]);
                } else {
                    assert(!before[before.len() - 1].contains(sep));
                    ordered::lemma_push_contains(before.last(), s.last());
                }
            }
        }
    }
}

/// Lower-casing changes exactly the letters `A` to `Z`, each to the letter 32 code points
/// on, and a second time changes nothing.
pub proof fn lower_case_is_ascii_only(s: Seq<char>)
    ensures
        ascii_lowered(s).len() == s.len(),
        forall|i: int|
            0 <= i < s.len() ==> (#[trigger] ascii_lowered(s)[i]) as int == if 65 <= s[i] as int
                <= 90 {
                s[i] as int + 32
            } else {
                s[i] as int
            },
        ascii_lowered(ascii_lowered(s)) == ascii_lowered(s),
{
    assert forall|i: int| 0 <= i < s.len() implies (#[trigger] ascii_lowered(s)[i]) as int == if 65
        <= s[i] as int <= 90 {
        s[i] as int + 32
    } else {
        s[i] as int
    } by {
        assert(ascii_lowered(s)[i] == ascii_lower(s[i]));
    }
    let low = ascii_lowered(s);
    assert forall|i: int| 0 <= i < s.len() implies ascii_lowered(low)[i] == low[i] by {
        assert(ascii_lowered(low)[i] == ascii_lower(low[i]));
        assert(low[i] == ascii_lower(s[i]));
    }
    assert(ascii_lowered(low) =~= low);
}

/// One text stands somewhere in another.
pub open spec fn mentions(s: Seq<char>, part: Seq<char>) -> bool {
    exists|i: int|
        0 <= i && i + part.len() <= s.len() && #[trigger] s.subrange(i, i + part.len()) == part
}

/// A text mentions what was written between two others.
pub proof fn lemma_mentions(before: Seq<char>, part: Seq<char>, after: Seq<char>)
    ensures
        mentions(before + part + after, part),
        mentions(before + part, part),
{
    let i = before.len() as int;
    assert((before + part + after).subrange(i, i + part.len()) =~= part);
    assert((before + part).subrange(i, i + part.len()) =~= part);
}

/// Reading a decimal number accepts its decimal notation and nothing else.
pub proof fn decimal_reading_is_exact(bytes: Seq<u8>, n: u16)
    ensures
        canonical_decimal(bytes) == Some(n) <==> bytes == encode_utf8(decimal(n as nat)),
        canonical_decimal(bytes) is None <==> forall|m: u16|
            bytes != encode_utf8(#[trigger] decimal(m as nat)),
{
    assert forall|m: u16| encode_utf8(#[trigger] decimal(m as nat)) == decimal_bytes(m as nat) by {}
    lemma_canonical_decimal(n);
    if let Some(m) = canonical_decimal(bytes) {
        assert(bytes == decimal_bytes(m as nat));
        assert(bytes == encode_utf8(decimal(m as nat)));
    } else {
        assert forall|m: u16| bytes != encode_utf8(#[trigger] decimal(m as nat)) by {
            assert(bytes != decimal_bytes(m as nat));
        }
    }
}

/// Reading hexadecimal notation accepts that of at least one byte and nothing else.
pub proof fn hex_reading_is_exact(s: Seq<char>, bytes: Seq<u8>)
    ensures
        unhex(s) == Some(bytes) <==> bytes.len() > 0 && s == hex(bytes),
        unhex(s) is None <==> s.len() == 0 || forall|other: Seq<u8>| s != #[trigger] hex(other),
{
    if bytes.len() > 0 {
        lemma_unhex(bytes);
    }
    if let Some(other) = unhex(s) {
        assert(s == hex(other));
        assert(hex(other).len() == 2 * other.len());
    }
}

/// The notation of two byte strings after each other is that of each, after each other.
pub proof fn lemma_hex_concat(a: Seq<u8>, b: Seq<u8>)
    ensures
        hex(a + b) == hex(a) + hex(b),
    decreases b.len(),
{
    if b.len() == 0 {
        assert(a + b =~= a);
        assert(hex(a) + hex(b) =~= hex(a));
    } else {
        let rest = b.drop_last();
        lemma_hex_concat(a, rest);
        assert(a + b =~= (a + rest).push(b.last()));
        assert(b =~= rest.push(b.last()));
        lemma_hex_push(a + rest, b.last());
        lemma_hex_push(rest, b.last());
        assert(hex(a + b) =~= hex(a) + hex(b));
    }
}

/// The description of a failed filesystem operation mentions each of its parts.
pub proof fn lemma_io_text(
    whole: Seq<char>,
    operation: Seq<char>,
    path: Seq<char>,
    source: Seq<char>,
)
    requires
        whole == "failed to "@ + operation + " at "@ + path + ": "@ + source,
    ensures
        mentions(whole, operation),
        mentions(whole, path),
        mentions(whole, source),
{
    lemma_mentions("failed to "@, operation, " at "@ + path + ": "@ + source);
    lemma_mentions("failed to "@ + operation + " at "@, path, ": "@ + source);
    lemma_mentions("failed to "@ + operation + " at "@ + path + ": "@, source, Seq::empty());
    assert(whole =~= "failed to "@ + operation + (" at "@ + path + ": "@ + source));
    assert(whole =~= "failed to "@ + operation + " at "@ + path + (": "@ + source));
}

/// A text that holds two numbers mentions both.
pub proof fn lemma_two_numbers(a: Seq<char>, x: Seq<char>, b: Seq<char>, y: Seq<char>)
    ensures
        mentions(a + x + b + y, x),
        mentions(a + x + b + y, y),
{
    lemma_mentions(a, x, b + y);
    lemma_mentions(a + x + b, y, Seq::empty());
    assert(a + x + b + y =~= a + x + (b + y));
}

/// The longest prefix that fits is a prefix that fits, every longer one does not fit, and
/// a text that fits is kept whole.
pub proof fn longest_prefix_is_maximal(p: Seq<char>, s: Seq<char>, limit: nat, n: int)
    requires
        is_longest_fitting_prefix(p, s, limit),
    ensures
        p.len() <= s.len(),
        forall|i: int| 0 <= i < p.len() ==> p[i] == #[trigger] s[i],
        encode_utf8(p).len() <= limit,
        p.len() < n <= s.len() ==> encode_utf8(s.take(n)).len() > limit,
        encode_utf8(s).len() <= limit ==> p == s,
{
    assert forall|i: int| 0 <= i < p.len() implies p[i] == #[trigger] s[i] by {
        assert(s.take(p.len() as int)[i] == s[i]);
    }
    if p.len() < n <= s.len() {
        lemma_encode_utf8_prefix(s, p.len() as int + 1, n);
    }
    if p.len() < s.len() {
        lemma_encode_utf8_prefix(s, p.len() as int + 1, s.len() as int);
        assert(s.take(s.len() as int) =~= s);
    } else {
        assert(s.take(s.len() as int) =~= s);
    }
}

} // verus!
