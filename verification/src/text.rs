//! Text helpers: numerals, prefixes and suffixes, and the contracts of the
//! standard library's text functions that the crate calls.
use vstd::prelude::*;

verus! {

/// `String::push` appends one character to the end of the text.
pub assume_specification[ String::push ](s: &mut String, c: char)
    ensures
        final(s)@ == old(s)@.push(c),
;

/// The decimal digit of a value below ten.
pub open spec fn digit(d: nat) -> char {
    (48 + d) as char
}

/// The decimal numeral of a number.
pub open spec fn decimal_text(n: nat) -> Seq<char>
    decreases n,
{
    if n < 10 {
        seq![digit(n)]
    } else {
        decimal_text(n / 10).push(digit(n % 10))
    }
}

/// The lower-case hexadecimal digit of a value below sixteen.
pub open spec fn hex_digit(d: nat) -> char {
    if d < 10 {
        (48 + d) as char
    } else {
        (87 + d) as char
    }
}

/// The decimal numeral of a number.
pub fn decimal(n: u128) -> (r: String)
    ensures
        r@ == decimal_text(n as nat),
    decreases n,
{
    let c: char = (48 + (n % 10) as u8) as char;
    let mut r = if n < 10 {
        String::new()
    } else {
        decimal(n / 10)
    };
    r.push(c);
    assert(n < 10 ==> r@ =~= seq![digit(n as nat)]);
    r
}

/// The lower-case hexadecimal digit of a value below sixteen.
pub fn hex_digit_of(d: u8) -> (c: char)
    requires
        d < 16,
    ensures
        c == hex_digit(d as nat),
{
    if d < 10 {
        (48 + d) as char
    } else {
        (87 + d) as char
    }
}

/// Whether `s` begins with `p`.
pub open spec fn has_prefix(s: Seq<char>, p: Seq<char>) -> bool {
    p.len() <= s.len() && s.subrange(0, p.len() as int) == p
}

/// Whether `s` ends with `p`.
pub open spec fn has_suffix(s: Seq<char>, p: Seq<char>) -> bool {
    p.len() <= s.len() && s.subrange(s.len() - p.len(), s.len() as int) == p
}

/// The characters of a text.
pub fn chars_of(s: &str) -> (r: Vec<char>)
    ensures
        r@ == s@,
{
    let mut r: Vec<char> = Vec::new();
    for c in iter: s.chars()
        invariant
            r@ =~= iter.seq().take(iter.index() as int),
            iter.seq() == s@,
    {
        r.push(c);
    }
    assert(s@.take(s@.len() as int) =~= s@);
    r
}

/// Whether two texts hold the same characters.
pub fn same_text(a: &str, b: &str) -> (r: bool)
    ensures
        r == (a@ == b@),
{
    let x = a.as_bytes();
    let y = b.as_bytes();
    proof {
        vstd::utf8::encode_utf8_decode_utf8(a@);
        vstd::utf8::encode_utf8_decode_utf8(b@);
    }
    if x.len() != y.len() {
        return false;
    }
    let mut i: usize = 0;
    while i < x.len()
        invariant
            i <= x@.len(),
            x@.len() == y@.len(),
            x@ == vstd::utf8::encode_utf8(a@),
            y@ == vstd::utf8::encode_utf8(b@),
            forall|k: int| 0 <= k < i ==> x@[k] == y@[k],
        decreases x.len() - i,
    {
        if x[i] != y[i] {
            return false;
        }
        i = i + 1;
    }
    assert(x@ =~= y@);
    true
}

/// Whether the characters of `s` from `at` on begin with `p`.
fn matches_at(s: &Vec<char>, at: usize, p: &Vec<char>) -> (r: bool)
    requires
        at + p@.len() <= s@.len(),
    ensures
        r == (s@.subrange(at as int, at + p@.len()) == p@),
{
    let mut i: usize = 0;
    while i < p.len()
        invariant
            i <= p@.len(),
            at + p@.len() <= s.len(),
            forall|k: int| 0 <= k < i ==> s@[at + k] == p@[k],
        decreases p.len() - i,
    {
        if s[at + i] != p[i] {
            assert(s@.subrange(at as int, at + p@.len())[i as int] != p@[i as int]);
            return false;
        }
        i = i + 1;
    }
    assert(s@.subrange(at as int, at + p@.len()) =~= p@);
    true
}

/// Whether `s` begins with `p`.
pub fn starts_with(s: &str, p: &str) -> (r: bool)
    ensures
        r == has_prefix(s@, p@),
{
    let s = chars_of(s);
    let p = chars_of(p);
    p.len() <= s.len() && matches_at(&s, 0, &p)
}

/// Whether `s` ends with `p`.
pub fn ends_with(s: &str, p: &str) -> (r: bool)
    ensures
        r == has_suffix(s@, p@),
{
    let s = chars_of(s);
    let p = chars_of(p);
    p.len() <= s.len() && matches_at(&s, s.len() - p.len(), &p)
}

/// The characters of a text that may be missing.
pub open spec fn optional_text(t: Option<String>) -> Option<Seq<char>> {
    match t {
        Some(s) => Some(s@),
        None => None,
    }
}

/// The characters of a slice that may be missing.
pub open spec fn str_text(t: Option<&str>) -> Option<Seq<char>> {
    match t {
        Some(s) => Some(s@),
        None => None,
    }
}

/// A copy of a list of texts.
pub fn copy_texts(items: &Vec<String>) -> (r: Vec<String>)
    ensures
        r@ == items@,
{
    let mut r: Vec<String> = Vec::new();
    let mut i: usize = 0;
    while i < items.len()
        invariant
            i <= items@.len(),
            r@ =~= items@.take(i as int),
        decreases items.len() - i,
    {
        r.push(items[i].clone());
        i = i + 1;
    }
    assert(items@.take(items@.len() as int) =~= items@);
    r
}

/// Whether `a` comes before `b` at position `i`: the two agree up to it, and there `a` ends
/// or holds a smaller character.
pub open spec fn differs_at(a: Seq<char>, b: Seq<char>, i: int) -> bool {
    &&& 0 <= i <= a.len()
    &&& i < b.len()
    &&& forall|j: int| 0 <= j < i ==> a[j] == b[j]
    &&& i == a.len() || a[i] < b[i]
}

/// The lexicographic order of texts by code point.
pub open spec fn text_before(a: Seq<char>, b: Seq<char>) -> bool {
    exists|i: int| differs_at(a, b, i)
}

/// Of two different texts one comes first.
pub proof fn lemma_text_before_total(a: Seq<char>, b: Seq<char>)
    ensures
        a != b ==> text_before(a, b) || text_before(b, a),
        !(text_before(a, b) && text_before(b, a)),
        text_before(a, b) ==> a != b,
{
    if text_before(a, b) && text_before(b, a) {
        let i = choose|i: int| differs_at(a, b, i);
        let j = choose|j: int| differs_at(b, a, j);
        if i < j {
            assert(b[i] == a[i]);
        } else if j < i {
            assert(a[j] == b[j]);
        }
    }
    if !text_before(a, b) && !text_before(b, a) {
        lemma_same_up_to(a, b, if a.len() < b.len() { a.len() as int } else { b.len() as int });
        assert(!differs_at(a, b, a.len() as int));
        assert(!differs_at(b, a, b.len() as int));
        assert(a =~= b);
    }
}

proof fn lemma_same_up_to(a: Seq<char>, b: Seq<char>, n: int)
    requires
        !text_before(a, b),
        !text_before(b, a),
        0 <= n <= a.len(),
        n <= b.len(),
    ensures
        forall|j: int| 0 <= j < n ==> a[j] == b[j],
    decreases n,
{
    if n > 0 {
        lemma_same_up_to(a, b, n - 1);
        assert(!differs_at(a, b, n - 1));
        assert(!differs_at(b, a, n - 1));
    }
}

/// The order of texts is transitive.
pub proof fn lemma_text_before_trans(a: Seq<char>, b: Seq<char>, c: Seq<char>)
    requires
        text_before(a, b),
        text_before(b, c),
    ensures
        text_before(a, c),
{
    let i = choose|i: int| differs_at(a, b, i);
    let j = choose|j: int| differs_at(b, c, j);
    let k = if i < j { i } else { j };
    assert(differs_at(a, c, k));
}

/// Whether `a` comes before `b`.
pub fn comes_before(a: &str, b: &str) -> (r: bool)
    ensures
        r == text_before(a@, b@),
{
    let x = chars_of(a);
    let y = chars_of(b);
    let mut i: usize = 0;
    while i < x.len() && i < y.len() && x[i] == y[i]
        invariant
            i <= x@.len(),
            i <= y@.len(),
            forall|j: int| 0 <= j < i ==> x@[j] == y@[j],
        decreases x.len() - i,
    {
        i = i + 1;
    }
    let r = i < y.len() && (i == x.len() || x[i] < y[i]);
    proof {
        if r {
            assert(differs_at(x@, y@, i as int));
        } else if text_before(x@, y@) {
            let k = choose|k: int| differs_at(x@, y@, k);
            if k < i {
                assert(x@[k] == y@[k]);
            } else if i < k {
                assert(x@[i as int] == y@[i as int]);
            }
        }
    }
    r
}

/// A text between quotation marks, with the marks and the control characters of it escaped.
pub uninterp spec fn quoted_text(s: Seq<char>) -> Seq<char>;

/// The `Debug` form of `str`, which depends on the characters alone.
#[verifier::external_body]
pub(crate) fn quoted(s: &str) -> (r: String)
    ensures
        r@ == quoted_text(s@),
{
    format!("{s:?}")
}

/// A list of texts between braces, each quoted, with commas between them.
pub open spec fn braced_text(items: Seq<Seq<char>>) -> Seq<char> {
    "{"@ + listed_text(items) + "}"@
}

/// A list of texts, each quoted, with commas between them.
pub open spec fn listed_text(items: Seq<Seq<char>>) -> Seq<char>
    decreases items.len(),
{
    if items.len() == 0 {
        Seq::empty()
    } else if items.len() == 1 {
        quoted_text(items[0])
    } else {
        listed_text(items.drop_last()) + ", "@ + quoted_text(items.last())
    }
}

/// A text begins with another exactly if it is the other and something behind it, and ends with it
/// exactly if it is something and the other behind it.
pub proof fn law_beginnings_and_ends(s: &str, p: &str, begins: bool, ends: bool)
    requires
        call_ensures(starts_with, (s, p), begins),
        call_ensures(ends_with, (s, p), ends),
    ensures
        begins <==> exists|rest: Seq<char>| s@ == #[trigger] (p@ + rest),
        ends <==> exists|front: Seq<char>| s@ == #[trigger] (front + p@),
{
    lemma_prefix_rest(s@, p@);
    lemma_suffix_front(s@, p@);
}

pub proof fn lemma_prefix_rest(s: Seq<char>, p: Seq<char>)
    ensures
        has_prefix(s, p) <==> exists|rest: Seq<char>| s == #[trigger] (p + rest),
{
    if has_prefix(s, p) {
        let rest = s.subrange(p.len() as int, s.len() as int);
        assert(s =~= p + rest);
    }
    if exists|rest: Seq<char>| s == #[trigger] (p + rest) {
        let rest = choose|rest: Seq<char>| s == #[trigger] (p + rest);
        assert(s.subrange(0, p.len() as int) =~= p);
    }
}

pub proof fn lemma_suffix_front(s: Seq<char>, p: Seq<char>)
    ensures
        has_suffix(s, p) <==> exists|front: Seq<char>| s == #[trigger] (front + p),
{
    if has_suffix(s, p) {
        let front = s.subrange(0, s.len() - p.len());
        assert(s =~= front + p);
    }
    if exists|front: Seq<char>| s == #[trigger] (front + p) {
        let front = choose|front: Seq<char>| s == #[trigger] (front + p);
        assert(s.subrange(s.len() - p.len(), s.len() as int) =~= p);
    }
}

/// Two texts are the same exactly if their characters are.
pub proof fn law_same_text(a: &str, b: &str, r: bool)
    requires
        call_ensures(same_text, (a, b), r),
    ensures
        r <==> a@ == b@,
{
}

/// The last digits of a number in hexadecimal, as many as are asked for.
pub open spec fn hex_text(n: nat, digits: nat) -> Seq<char>
    decreases digits,
{
    if digits == 0 {
        Seq::empty()
    } else {
        hex_text(n / 16, (digits - 1) as nat).push(hex_digit(n % 16))
    }
}

/// A numeral is that of the number without its last digit, and then that digit.
pub proof fn law_decimal_numeral(n: u128, r: String, m: u128, front: String)
    requires
        call_ensures(decimal, (n,), r),
        call_ensures(decimal, (m,), front),
        m == n / 10,
    ensures
        r@.last() as int == 0x30 + n % 10,
        n < 10 ==> r@.len() == 1,
        n >= 10 ==> r@.drop_last() == front@,
{
    if n >= 10 {
        assert(r@.drop_last() =~= front@);
    }
}

/// The digits from ten on are the small letters from a on.
pub proof fn law_hexadecimal_digit(d: u8, c: char)
    requires
        call_ensures(hex_digit_of, (d,), c),
        d < 16,
    ensures
        d < 10 ==> c as int == 0x30 + d,
        d >= 10 ==> c as int == 0x61 + (d - 10),
{
}

/// A text comes before another exactly if it is a beginning of it and shorter, or has the smaller
/// character where they first differ.
pub proof fn law_texts_in_order(a: &str, b: &str, r: bool, s: bool)
    requires
        call_ensures(comes_before, (a, b), r),
        call_ensures(comes_before, (b, a), s),
    ensures
        r <==> exists|n: int|
            {
                &&& 0 <= n <= a@.len() && n < b@.len()
                &&& #[trigger] a@.take(n) == b@.take(n)
                &&& n == a@.len() || a@[n] < b@[n]
            },
        !(r && s),
        !r && !s ==> a@ == b@,
{
    lemma_text_before_total(a@, b@);
    if r {
        let n = choose|n: int| differs_at(a@, b@, n);
        assert(a@.take(n) =~= b@.take(n));
    }
    if exists|n: int|
        {
            &&& 0 <= n <= a@.len() && n < b@.len()
            &&& #[trigger] a@.take(n) == b@.take(n)
            &&& n == a@.len() || a@[n] < b@[n]
        } {
        let n = choose|n: int|
            {
                &&& 0 <= n <= a@.len() && n < b@.len()
                &&& #[trigger] a@.take(n) == b@.take(n)
                &&& n == a@.len() || a@[n] < b@[n]
            };
        assert forall|i: int| 0 <= i < n implies a@[i] == b@[i] by {
            assert(a@.take(n)[i] == b@.take(n)[i]);
        }
        assert(differs_at(a@, b@, n));
    }
}

} // verus!
