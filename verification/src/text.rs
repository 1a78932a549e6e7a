//! Text helpers over character sequences.

use vstd::prelude::*;
use vstd::string::*;

verus! {

/// Appends one character to a string; `String::push`.
#[verifier::external_body]
pub(crate) fn push_char(s: &mut String, c: char)
    ensures
        final(s)@ == old(s)@.push(c),
{
    s.push(c);
}

/// The characters of a string slice, in order.
pub fn chars_of(s: &str) -> (r: Vec<char>)
    ensures
        r@ == s@,
{
    let n = s.unicode_len();
    let mut v: Vec<char> = Vec::new();
    let mut i: usize = 0;
    while i < n
        invariant
            n == s@.len(),
            i <= n,
            v@ == s@.subrange(0, i as int),
        decreases n - i,
    {
        v.push(s.get_char(i));
        i += 1;
    }
    v
}

/// A string made of the given characters.
pub fn string_of(chars: &[char]) -> (r: String)
    ensures
        r@ == chars@,
{
    let mut s = String::new();
    let mut i: usize = 0;
    while i < chars.len()
        invariant
            i <= chars@.len(),
            s@ == chars@.subrange(0, i as int),
        decreases chars@.len() - i,
    {
        push_char(&mut s, chars[i]);
        i += 1;
    }
    s
}

/// Whether two strings hold the same characters.
pub fn equals(a: &str, b: &str) -> (r: bool)
    ensures
        r == (a@ == b@),
{
    let n = a.unicode_len();
    if n != b.unicode_len() {
        return false;
    }
    let mut i: usize = 0;
    while i < n
        invariant
            n == a@.len(),
            n == b@.len(),
            i <= n,
            a@.subrange(0, i as int) == b@.subrange(0, i as int),
        decreases n - i,
    {
        if a.get_char(i) != b.get_char(i) {
            assert(a@[i as int] != b@[i as int]);
            return false;
        }
        assert(a@.subrange(0, i + 1) =~= a@.subrange(0, i as int).push(a@[i as int]));
        assert(b@.subrange(0, i + 1) =~= b@.subrange(0, i as int).push(b@[i as int]));
        i += 1;
    }
    assert(a@ =~= a@.subrange(0, n as int));
    assert(b@ =~= b@.subrange(0, n as int));
    true
}

/// `s` begins with `prefix`.
pub open spec fn has_prefix(s: Seq<char>, prefix: Seq<char>) -> bool {
    prefix.len() <= s.len() && s.subrange(0, prefix.len() as int) == prefix
}

/// Whether `s` begins with `prefix`.
pub fn starts_with(s: &str, prefix: &str) -> (r: bool)
    ensures
        r == has_prefix(s@, prefix@),
{
    let n = prefix.unicode_len();
    if n > s.unicode_len() {
        return false;
    }
    let mut i: usize = 0;
    while i < n
        invariant
            n == prefix@.len(),
            n <= s@.len(),
            i <= n,
            s@.subrange(0, i as int) == prefix@.subrange(0, i as int),
        decreases n - i,
    {
        if s.get_char(i) != prefix.get_char(i) {
            assert(s@.subrange(0, n as int)[i as int] != prefix@[i as int]);
            return false;
        }
        assert(s@.subrange(0, i + 1) =~= s@.subrange(0, i as int).push(s@[i as int]));
        assert(prefix@.subrange(0, i + 1) =~= prefix@.subrange(0, i as int).push(prefix@[i as int]));
        i += 1;
    }
    assert(prefix@ =~= prefix@.subrange(0, n as int));
    true
}

/// A copy of a string slice.
pub fn owned(s: &str) -> (r: String)
    ensures
        r@ == s@,
{
    s.to_owned()
}

/// Position of the first `c` in `s`, or -1 when `s` holds none.
pub open spec fn first_pos(s: Seq<char>, c: char) -> int
    decreases s.len(),
{
    if s.len() == 0 {
        -1
    } else if s[0] == c {
        0
    } else {
        let r = first_pos(s.drop_first(), c);
        if r < 0 {
            -1
        } else {
            r + 1
        }
    }
}

/// `first_pos` is the first position of `c`, and -1 exactly when there is none.
pub proof fn lemma_first_pos(s: Seq<char>, c: char)
    ensures
        -1 <= first_pos(s, c) < s.len(),
        first_pos(s, c) >= 0 ==> s[first_pos(s, c)] == c,
        forall|j: int| 0 <= j < first_pos(s, c) ==> s[j] != c,
        first_pos(s, c) == -1 ==> forall|j: int| 0 <= j < s.len() ==> s[j] != c,
    decreases s.len(),
{
    if s.len() > 0 && s[0] != c {
        lemma_first_pos(s.drop_first(), c);
        let r = first_pos(s.drop_first(), c);
        assert forall|j: int| 0 <= j < first_pos(s, c) implies s[j] != c by {
            if j > 0 {
                assert(s[j] == s.drop_first()[j - 1]);
            }
        }
        if r == -1 {
            assert forall|j: int| 0 <= j < s.len() implies s[j] != c by {
                if j > 0 {
                    assert(s[j] == s.drop_first()[j - 1]);
                }
            }
        }
    }
}

/// A position holding `c` with no `c` before it is the first position.
pub proof fn lemma_first_pos_at(s: Seq<char>, c: char, i: int)
    requires
        0 <= i <= s.len(),
        forall|j: int| 0 <= j < i ==> s[j] != c,
        i < s.len() ==> s[i] == c,
    ensures
        first_pos(s, c) == (if i < s.len() { i } else { -1 }),
    decreases i,
{
    if i > 0 {
        assert forall|j: int| 0 <= j < i - 1 implies s.drop_first()[j] != c by {
            assert(s.drop_first()[j] == s[j + 1]);
        }
        lemma_first_pos_at(s.drop_first(), c, i - 1);
    }
}

/// First position of `c` in `s`.
pub fn find_char(s: &str, c: char) -> (r: Option<usize>)
    ensures
        match r {
            Some(i) => i == first_pos(s@, c),
            None => first_pos(s@, c) == -1,
        },
{
    let n = s.unicode_len();
    let mut i: usize = 0;
    while i < n
        invariant
            n == s@.len(),
            i <= n,
            forall|j: int| 0 <= j < i ==> s@[j] != c,
        decreases n - i,
    {
        if s.get_char(i) == c {
            proof {
                lemma_first_pos_at(s@, c, i as int);
            }
            return Some(i);
        }
        i += 1;
    }
    proof {
        lemma_first_pos_at(s@, c, n as int);
    }
    None
}

/// The characters of `s` from `from` up to `to`, as a new string.
pub fn substring(s: &str, from: usize, to: usize) -> (r: String)
    requires
        from <= to <= s@.len(),
    ensures
        r@ == s@.subrange(from as int, to as int),
{
    owned(s.substring_char(from, to))
}

/// Position of the first occurrence of `x` in `s`, or -1 when absent.
pub open spec fn index_in(s: Seq<Seq<char>>, x: Seq<char>) -> int
    decreases s.len(),
{
    if s.len() == 0 {
        -1
    } else if s[0] == x {
        0
    } else {
        let r = index_in(s.drop_first(), x);
        if r < 0 {
            -1
        } else {
            r + 1
        }
    }
}

/// `index_in` is the first position of `x`, and -1 exactly when there is none.
pub proof fn lemma_index_in(s: Seq<Seq<char>>, x: Seq<char>)
    ensures
        -1 <= index_in(s, x) < s.len(),
        index_in(s, x) >= 0 ==> s[index_in(s, x)] == x,
        forall|j: int| 0 <= j < index_in(s, x) ==> s[j] != x,
        index_in(s, x) == -1 <==> !s.contains(x),
    decreases s.len(),
{
    if s.len() > 0 && s[0] != x {
        lemma_index_in(s.drop_first(), x);
        assert forall|j: int| 0 <= j < index_in(s, x) implies s[j] != x by {
            if j > 0 {
                assert(s[j] == s.drop_first()[j - 1]);
            }
        }
        if s.contains(x) {
            let j = choose|j: int| 0 <= j < s.len() && s[j] == x;
            assert(s.drop_first()[j - 1] == x);
        }
        if s.drop_first().contains(x) {
            let j = choose|j: int| 0 <= j < s.drop_first().len() && s.drop_first()[j] == x;
            assert(s[j + 1] == x);
        }
    } else if s.len() > 0 {
        assert(s.contains(x)) by {
            assert(s[0] == x);
        }
    }
}

proof fn lemma_index_in_at(s: Seq<Seq<char>>, x: Seq<char>, i: int)
    requires
        0 <= i <= s.len(),
        forall|j: int| 0 <= j < i ==> s[j] != x,
        i < s.len() ==> s[i] == x,
    ensures
        index_in(s, x) == (if i < s.len() { i } else { -1 }),
    decreases i,
{
    if i > 0 {
        assert forall|j: int| 0 <= j < i - 1 implies s.drop_first()[j] != x by {
            assert(s.drop_first()[j] == s[j + 1]);
        }
        lemma_index_in_at(s.drop_first(), x, i - 1);
    }
}

/// Position of the first string equal to `x`.
pub fn position(v: &Vec<String>, x: &str) -> (r: Option<usize>)
    ensures
        match r {
            Some(i) => i == index_in(v.deep_view(), x@),
            None => index_in(v.deep_view(), x@) == -1,
        },
{
    let mut i: usize = 0;
    while i < v.len()
        invariant
            i <= v@.len(),
            forall|j: int| 0 <= j < i ==> v.deep_view()[j] != x@,
        decreases v@.len() - i,
    {
        if equals(&v[i], x) {
            proof {
                lemma_index_in_at(v.deep_view(), x@, i as int);
            }
            return Some(i);
        }
        i += 1;
    }
    proof {
        lemma_index_in_at(v.deep_view(), x@, v@.len() as int);
    }
    None
}

/// Whether some string of `v` equals `x`.
pub fn contains_str(v: &Vec<String>, x: &str) -> (r: bool)
    ensures
        r == v.deep_view().contains(x@),
{
    proof {
        lemma_index_in(v.deep_view(), x@);
    }
    position(v, x).is_some()
}

/// A copy of a list of strings.
pub fn copy_strings(v: &Vec<String>) -> (r: Vec<String>)
    ensures
        r.deep_view() == v.deep_view(),
        r@ == v@,
{
    let mut r: Vec<String> = Vec::new();
    let mut i: usize = 0;
    while i < v.len()
        invariant
            i <= v@.len(),
            r@ == v@.subrange(0, i as int),
        decreases v@.len() - i,
    {
        r.push(v[i].clone());
        i += 1;
    }
    assert(r@ =~= v@);
    assert(r.deep_view() =~= v.deep_view());
    r
}

/// A string made of the given parts, in order.
pub fn join3(a: &str, b: &str, c: &str) -> (r: String)
    ensures
        r@ == a@ + b@ + c@,
{
    let mut s = owned(a);
    s.append(b);
    s.append(c);
    s
}

/// Number of bytes in the UTF-8 encoding of a character.
pub open spec fn utf8_width(c: char) -> nat {
    if (c as u32) < 0x80u32 {
        1
    } else if (c as u32) < 0x800u32 {
        2
    } else if (c as u32) < 0x10000u32 {
        3
    } else {
        4
    }
}

/// Number of bytes in the UTF-8 encoding of a text.
pub open spec fn utf8_len(s: Seq<char>) -> nat
    decreases s.len(),
{
    if s.len() == 0 {
        0
    } else {
        utf8_len(s.drop_last()) + utf8_width(s.last())
    }
}

proof fn lemma_utf8_len_monotone(s: Seq<char>, i: int, j: int)
    requires
        0 <= i <= j <= s.len(),
    ensures
        utf8_len(s.subrange(0, i)) <= utf8_len(s.subrange(0, j)),
    decreases j - i,
{
    if i < j {
        lemma_utf8_len_monotone(s, i, j - 1);
        assert(s.subrange(0, j).drop_last() =~= s.subrange(0, j - 1));
    }
}

/// Whether the UTF-8 encoding of `s` is longer than `limit` bytes.
pub fn utf8_longer_than(s: &str, limit: usize) -> (r: bool)
    requires
        limit < usize::MAX - 4,
    ensures
        r == (utf8_len(s@) > limit),
{
    let n = s.unicode_len();
    let mut total: usize = 0;
    let mut i: usize = 0;
    while i < n
        invariant
            n == s@.len(),
            i <= n,
            limit < usize::MAX - 4,
            total == utf8_len(s@.subrange(0, i as int)),
            total <= limit,
        decreases n - i,
    {
        let c = s.get_char(i);
        let w: usize = if (c as u32) < 0x80u32 {
            1
        } else if (c as u32) < 0x800u32 {
            2
        } else if (c as u32) < 0x10000u32 {
            3
        } else {
            4
        };
        assert(s@.subrange(0, i + 1).drop_last() =~= s@.subrange(0, i as int));
        total = total + w;
        i += 1;
        if total > limit {
            proof {
                lemma_utf8_len_monotone(s@, i as int, n as int);
                assert(s@.subrange(0, n as int) =~= s@);
            }
            return true;
        }
    }
    assert(s@.subrange(0, n as int) =~= s@);
    false
}

/// A whitespace character, as `char::is_whitespace` documents it: the
/// Unicode `White_Space` property.
pub open spec fn is_ws(c: char) -> bool {
    let u = c as u32;
    (0x9 <= u <= 0xd) || u == 0x20 || u == 0x85 || u == 0xa0 || u == 0x1680 || (0x2000 <= u <= 0x200a)
        || u == 0x2028 || u == 0x2029 || u == 0x202f || u == 0x205f || u == 0x3000
}

/// Whether a character is whitespace.
pub fn is_whitespace_char(c: char) -> (r: bool)
    ensures
        r == is_ws(c),
{
    let u = c as u32;
    (0x9 <= u && u <= 0xd) || u == 0x20 || u == 0x85 || u == 0xa0 || u == 0x1680 || (0x2000 <= u && u
        <= 0x200a) || u == 0x2028 || u == 0x2029 || u == 0x202f || u == 0x205f || u == 0x3000
}

/// `s` without its leading whitespace.
pub open spec fn trim_start_ws(s: Seq<char>) -> Seq<char>
    decreases s.len(),
{
    if s.len() > 0 && is_ws(s[0]) {
        trim_start_ws(s.drop_first())
    } else {
        s
    }
}

/// `s` without its trailing whitespace.
pub open spec fn trim_end_ws(s: Seq<char>) -> Seq<char>
    decreases s.len(),
{
    if s.len() > 0 && is_ws(s.last()) {
        trim_end_ws(s.drop_last())
    } else {
        s
    }
}

/// `s` without leading and trailing whitespace, as `str::trim` gives it.
pub open spec fn trim_ws(s: Seq<char>) -> Seq<char> {
    trim_end_ws(trim_start_ws(s))
}

/// Remove leading and trailing whitespace.
pub fn trim(s: &str) -> (r: String)
    ensures
        r@ == trim_ws(s@),
{
    let n = s.unicode_len();
    let mut a: usize = 0;
    assert(s@.subrange(0, n as int) =~= s@);
    while a < n && is_whitespace_char(s.get_char(a))
        invariant
            n == s@.len(),
            a <= n,
            trim_start_ws(s@) == trim_start_ws(s@.subrange(a as int, n as int)),
        decreases n - a,
    {
        assert(s@.subrange(a as int, n as int).drop_first() =~= s@.subrange(a + 1, n as int));
        a += 1;
    }
    let ghost t = s@.subrange(a as int, n as int);
    assert(trim_start_ws(t) == t);
    let mut b: usize = n;
    assert(t.subrange(0, (b - a) as int) =~= t);
    while b > a && is_whitespace_char(s.get_char(b - 1))
        invariant
            n == s@.len(),
            a <= b <= n,
            t == s@.subrange(a as int, n as int),
            trim_end_ws(t) == trim_end_ws(s@.subrange(a as int, b as int)),
        decreases b,
    {
        assert(s@.subrange(a as int, b as int).drop_last() =~= s@.subrange(a as int, b - 1));
        b -= 1;
    }
    substring(s, a, b)
}

/// All characters are whitespace (the text trims to nothing).
pub proof fn lemma_trim_empty(s: Seq<char>)
    ensures
        trim_start_ws(s).len() == 0 <==> forall|i: int| 0 <= i < s.len() ==> is_ws(#[trigger] s[i]),
        trim_ws(s).len() == 0 <==> trim_start_ws(s).len() == 0,
    decreases s.len(),
{
    if s.len() > 0 && is_ws(s[0]) {
        lemma_trim_empty(s.drop_first());
        assert forall|i: int| 0 <= i < s.len() && (forall|j: int| 0 <= j < s.drop_first().len() ==> is_ws(#[trigger] s.drop_first()[j])) implies is_ws(#[trigger] s[i]) by {
            if i > 0 {
                assert(s[i] == s.drop_first()[i - 1]);
            }
        }
        assert((forall|i: int| 0 <= i < s.len() ==> is_ws(#[trigger] s[i])) ==> (forall|j: int| 0 <= j < s.drop_first().len() ==> is_ws(#[trigger] s.drop_first()[j]))) by {
            assert forall|j: int| 0 <= j < s.drop_first().len() && (forall|i: int| 0 <= i < s.len() ==> is_ws(#[trigger] s[i])) implies is_ws(#[trigger] s.drop_first()[j]) by {
                assert(s.drop_first()[j] == s[j + 1]);
            }
        }
    } else if s.len() > 0 {
        assert(!is_ws(s[0]));
        lemma_trim_end_nonempty(s);
    }
}

proof fn lemma_trim_end_nonempty(s: Seq<char>)
    requires
        s.len() > 0,
        !is_ws(s[0]),
    ensures
        trim_end_ws(s).len() > 0,
    decreases s.len(),
{
    if is_ws(s.last()) {
        assert(s.len() > 1);
        lemma_trim_end_nonempty(s.drop_last());
    }
}

/// ASCII letters made lowercase, every other character unchanged.
pub open spec fn ascii_lower_char(c: char) -> char {
    if 'A' <= c <= 'Z' {
        ((c as u32) + 32) as char
    } else {
        c
    }
}

/// `s` with its ASCII letters made lowercase, as `str::to_ascii_lowercase`
/// gives it.
pub open spec fn ascii_lower(s: Seq<char>) -> Seq<char> {
    s.map_values(|c: char| ascii_lower_char(c))
}

/// Make the ASCII letters of a text lowercase.
pub fn to_ascii_lowercase(s: &str) -> (r: String)
    ensures
        r@ == ascii_lower(s@),
{
    let n = s.unicode_len();
    let mut out = String::new();
    let mut i: usize = 0;
    while i < n
        invariant
            n == s@.len(),
            i <= n,
            out@ == ascii_lower(s@.subrange(0, i as int)),
        decreases n - i,
    {
        let c = s.get_char(i);
        let l = if 'A' <= c && c <= 'Z' {
            let v: u8 = ((c as u32) + 32) as u8;
            v as char
        } else {
            c
        };
        push_char(&mut out, l);
        assert(ascii_lower(s@.subrange(0, i + 1)) =~= ascii_lower(s@.subrange(0, i as int)).push(ascii_lower_char(c)));
        i += 1;
    }
    assert(s@.subrange(0, n as int) =~= s@);
    out
}

/// The ASCII digit of a value below ten.
pub open spec fn digit_char(d: nat) -> char {
    if d == 0 { '0' } else if d == 1 { '1' } else if d == 2 { '2' } else if d == 3 { '3' } else if d == 4 { '4' }
    else if d == 5 { '5' } else if d == 6 { '6' } else if d == 7 { '7' } else if d == 8 { '8' } else { '9' }
}

/// Decimal text of a number, without sign or leading zeros.
pub open spec fn decimal_text(n: nat) -> Seq<char>
    decreases n,
{
    if n < 10 {
        seq![digit_char(n)]
    } else {
        decimal_text(n / 10).push(digit_char(n % 10))
    }
}

fn digit_of(d: u64) -> (c: char)
    requires
        d < 10,
    ensures
        c == digit_char(d as nat),
{
    if d == 0 { '0' } else if d == 1 { '1' } else if d == 2 { '2' } else if d == 3 { '3' } else if d == 4 { '4' }
    else if d == 5 { '5' } else if d == 6 { '6' } else if d == 7 { '7' } else if d == 8 { '8' } else { '9' }
}

/// The decimal text of a number.
pub fn decimal(n: u64) -> (r: String)
    ensures
        r@ == decimal_text(n as nat),
    decreases n,
{
    if n < 10 {
        let mut s = String::new();
        push_char(&mut s, digit_of(n));
        assert(s@ =~= seq![digit_char(n as nat)]);
        s
    } else {
        let mut s = decimal(n / 10);
        push_char(&mut s, digit_of(n % 10));
        s
    }
}

/// Whether `a` and `b` agree on their first `k` characters.
pub open spec fn agree_upto(a: Seq<char>, b: Seq<char>, k: int) -> bool {
    forall|j: int| 0 <= j < k ==> #[trigger] a[j] == b[j]
}

/// Whether `a` and `b` first differ at `k`, where `a` has the smaller
/// character or has ended.
pub open spec fn first_smaller_at(a: Seq<char>, b: Seq<char>, k: int) -> bool {
    &&& 0 <= k <= a.len()
    &&& k <= b.len()
    &&& agree_upto(a, b, k)
    &&& ((k == a.len() && k < b.len()) || (k < a.len() && k < b.len() && (a[k] as int) < (b[k] as int)))
}

/// Whether `a` comes before `b` in lexicographic order of characters
/// (code point order, which is also the byte order of their UTF-8 forms):
/// at the first place where they differ, `a` has the smaller character or
/// has ended.
pub open spec fn str_lt(a: Seq<char>, b: Seq<char>) -> bool {
    exists|k: int| first_smaller_at(a, b, k)
}

/// No text comes before itself.
pub proof fn lemma_str_lt_irreflexive_pub(a: Seq<char>)
    ensures
        !str_lt(a, a),
{
}

/// Two different texts are ordered one way or the other.
pub proof fn lemma_str_lt_total(a: Seq<char>, b: Seq<char>)
    requires
        a != b,
    ensures
        str_lt(a, b) || str_lt(b, a),
{
    lemma_str_lt_total_from(a, b, 0);
}

proof fn lemma_str_lt_total_from(a: Seq<char>, b: Seq<char>, i: int)
    requires
        a != b,
        0 <= i <= a.len(),
        i <= b.len(),
        agree_upto(a, b, i),
    ensures
        str_lt(a, b) || str_lt(b, a),
    decreases a.len() - i,
{
    assert(agree_upto(b, a, i));
    if i == a.len() || i == b.len() {
        if a.len() == b.len() {
            assert(a =~= b);
        }
        if i == a.len() {
            assert(first_smaller_at(a, b, i));
        } else {
            assert(first_smaller_at(b, a, i));
        }
    } else if a[i] != b[i] {
        if (a[i] as int) < (b[i] as int) {
            assert(first_smaller_at(a, b, i));
        } else {
            assert(first_smaller_at(b, a, i));
        }
    } else {
        assert(agree_upto(a, b, i + 1));
        lemma_str_lt_total_from(a, b, i + 1);
    }
}

/// The order of texts is transitive.
pub proof fn lemma_str_lt_transitive(a: Seq<char>, b: Seq<char>, c: Seq<char>)
    requires
        str_lt(a, b),
        str_lt(b, c),
    ensures
        str_lt(a, c),
{
    let k1 = choose|k: int| first_smaller_at(a, b, k);
    let k2 = choose|k: int| first_smaller_at(b, c, k);
    let k = if k1 <= k2 { k1 } else { k2 };
    assert(agree_upto(a, c, k));
    assert(first_smaller_at(a, c, k));
}

proof fn lemma_str_lt_asymmetric(a: Seq<char>, b: Seq<char>)
    requires
        str_lt(a, b),
    ensures
        !str_lt(b, a),
{
    if str_lt(b, a) {
        lemma_str_lt_transitive(a, b, a);
    }
}

/// Whether `a` comes before `b` in lexicographic order of characters.
pub fn str_less(a: &str, b: &str) -> (r: bool)
    ensures
        r == str_lt(a@, b@),
{
    let n = a.unicode_len();
    let m = b.unicode_len();
    let mut i: usize = 0;
    while i < n && i < m
        invariant
            n == a@.len(),
            m == b@.len(),
            i <= n,
            i <= m,
            agree_upto(a@, b@, i as int),
        decreases n - i,
    {
        let x = a.get_char(i);
        let y = b.get_char(i);
        if x != y {
            proof {
                assert(agree_upto(b@, a@, i as int));
                if (x as u32) < (y as u32) {
                    assert(first_smaller_at(a@, b@, i as int));
                } else {
                    assert(first_smaller_at(b@, a@, i as int));
                    lemma_str_lt_asymmetric(b@, a@);
                }
            }
            return (x as u32) < (y as u32);
        }
        i += 1;
    }
    proof {
        if i == n && i < m {
            assert(first_smaller_at(a@, b@, i as int));
        } else {
            if str_lt(a@, b@) {
                let k = choose|k: int| first_smaller_at(a@, b@, k);
                assert(a@[k] == b@[k]);
            }
        }
    }
    i == n && i < m
}

/// Whether the texts are in strictly increasing order.
pub open spec fn strictly_sorted(s: Seq<Seq<char>>) -> bool {
    forall|i: int, j: int| 0 <= i < j < s.len() ==> str_lt(#[trigger] s[i], #[trigger] s[j])
}

/// The strings of `v`, which are all different, in increasing order.
pub fn sort_distinct_strings(v: Vec<String>) -> (r: Vec<String>)
    requires
        v.deep_view().no_duplicates(),
    ensures
        strictly_sorted(r.deep_view()),
        r.deep_view().to_set() == v.deep_view().to_set(),
        r@.len() == v@.len(),
{
    let ghost all = v.deep_view();
    let mut sorted: Vec<String> = Vec::new();
    let mut rest = v;
    let n = rest.len();
    let mut k: usize = 0;
    assert(sorted.deep_view() =~= Seq::<Seq<char>>::empty());
    while k < n
        invariant
            n == all.len(),
            all.no_duplicates(),
            k <= n,
            rest.deep_view() == all.subrange(k as int, n as int),
            rest@.len() == n - k,
            strictly_sorted(sorted.deep_view()),
            sorted.deep_view().to_set() == all.subrange(0, k as int).to_set(),
            sorted@.len() == k,
        decreases n - k,
    {
        let ghost before = rest.deep_view();
        let ghost before_vec = rest@;
        let x = rest.remove(0);
        assert(before[0] == before_vec[0]@);
        assert(rest.deep_view() =~= before.drop_first());
        assert(rest.deep_view() =~= all.subrange(k + 1, n as int));
        assert(x@ == all[k as int]);
        proof {
            assert forall|j: int| 0 <= j < sorted@.len() implies sorted.deep_view()[j] != x@ by {
                assert(sorted.deep_view().to_set().contains(sorted.deep_view()[j]));
                assert(all.subrange(0, k as int).to_set().contains(sorted.deep_view()[j]));
                let t = choose|t: int| 0 <= t < k && all.subrange(0, k as int)[t] == sorted.deep_view()[j];
                assert(all[t] == all.subrange(0, k as int)[t]);
            }
        }
        let mut q: usize = 0;
        while q < sorted.len() && str_less(&sorted[q], &x)
            invariant
                q <= sorted@.len(),
                forall|j: int| 0 <= j < q ==> str_lt(#[trigger] sorted.deep_view()[j], x@),
            decreases sorted@.len() - q,
        {
            q += 1;
        }
        proof {
            if q < sorted@.len() {
                assert(!str_lt(sorted.deep_view()[q as int], x@));
                assert(sorted.deep_view()[q as int] != x@);
                lemma_str_lt_total(sorted.deep_view()[q as int], x@);
                assert forall|j: int| q < j < sorted@.len() implies str_lt(x@, #[trigger] sorted.deep_view()[j]) by {
                    lemma_str_lt_transitive(x@, sorted.deep_view()[q as int], sorted.deep_view()[j]);
                }
            }
        }
        let ghost old_sorted = sorted.deep_view();
        sorted.insert(q, x);
        proof {
            assert(sorted.deep_view() =~= old_sorted.insert(q as int, all[k as int]));
            assert forall|i: int, j: int| 0 <= i < j < sorted@.len() implies str_lt(
                #[trigger] sorted.deep_view()[i],
                #[trigger] sorted.deep_view()[j],
            ) by {
                if j < q {
                } else if j == q {
                } else if i < q {
                    assert(sorted.deep_view()[i] == old_sorted[i]);
                    assert(sorted.deep_view()[j] == old_sorted[j - 1]);
                    if i < j - 1 {
                        assert(str_lt(old_sorted[i], old_sorted[j - 1]));
                    } else {
                    }
                    assert(str_lt(old_sorted[i], all[k as int]));
                    if q < old_sorted.len() {
                        assert(str_lt(all[k as int], old_sorted[j - 1]));
                        lemma_str_lt_transitive(old_sorted[i], all[k as int], old_sorted[j - 1]);
                    }
                } else if i == q {
                } else {
                    assert(str_lt(old_sorted[i - 1], old_sorted[j - 1]));
                }
            }
            assert(all.subrange(0, k + 1) =~= all.subrange(0, k as int).push(all[k as int]));
            assert(sorted.deep_view().to_set() =~= all.subrange(0, k + 1).to_set()) by {
                assert forall|y: Seq<char>| sorted.deep_view().to_set().contains(y) implies all.subrange(0, k + 1).to_set().contains(y) by {
                    let j = choose|j: int| 0 <= j < sorted.deep_view().len() && sorted.deep_view()[j] == y;
                    if j < q {
                        assert(old_sorted.to_set().contains(old_sorted[j]));
                    } else if j > q {
                        assert(old_sorted.to_set().contains(old_sorted[j - 1]));
                    } else {
                        assert(all.subrange(0, k + 1)[k as int] == y);
                        assert(all.subrange(0, k + 1).to_set().contains(y));
                    }
                }
                let s1 = all.subrange(0, k + 1);
                assert forall|y: Seq<char>| s1.to_set().contains(y) implies sorted.deep_view().to_set().contains(y) by {
                    let j = choose|j: int| 0 <= j < s1.len() && s1[j] == y;
                    if j < k {
                        assert(all.subrange(0, k as int).to_set().contains(y));
                        assert(old_sorted.to_set().contains(y));
                        let t = choose|t: int| 0 <= t < old_sorted.len() && old_sorted[t] == y;
                        if t < q {
                            assert(sorted.deep_view()[t] == y);
                        } else {
                            assert(sorted.deep_view()[t + 1] == y);
                        }
                    } else {
                        assert(sorted.deep_view()[q as int] == y);
                    }
                }
            }
        }
        k += 1;
    }
    assert(all.subrange(0, n as int) =~= all);
    sorted
}

/// The texts joined by `sep`.
pub open spec fn joined_with(items: Seq<Seq<char>>, sep: Seq<char>) -> Seq<char>
    decreases items.len(),
{
    if items.len() == 0 {
        seq![]
    } else if items.len() == 1 {
        items[0]
    } else {
        joined_with(items.drop_last(), sep) + sep + items.last()
    }
}

/// The first `n` strings of `items` joined by `sep`.
pub fn join_first(items: &Vec<String>, n: usize, sep: &str) -> (r: String)
    requires
        n <= items@.len(),
    ensures
        r@ == joined_with(items.deep_view().take(n as int), sep@),
{
    let mut out = String::new();
    let mut i: usize = 0;
    while i < n
        invariant
            n <= items@.len(),
            i <= n,
            out@ == joined_with(items.deep_view().take(i as int), sep@),
        decreases n - i,
    {
        let ghost before = items.deep_view().take(i as int);
        if i > 0 {
            out.append(sep);
        }
        out.append(items[i].as_str());
        proof {
            let next = items.deep_view().take(i + 1);
            assert(next.drop_last() =~= before);
            assert(next.last() == items@[i as int]@);
            if i == 0 {
                assert(before =~= Seq::<Seq<char>>::empty());
            }
        }
        i += 1;
    }
    out
}

/// Whether `sub` occurs in `s` at position `i`.
pub open spec fn occurs_at(s: Seq<char>, sub: Seq<char>, i: int) -> bool {
    0 <= i && i + sub.len() <= s.len() && s.subrange(i, i + sub.len()) == sub
}

/// Whether `sub` occurs somewhere in `s`.
pub open spec fn has_substring(s: Seq<char>, sub: Seq<char>) -> bool {
    exists|i: int| #[trigger] occurs_at(s, sub, i)
}

fn matches_at(a: &Vec<char>, b: &Vec<char>, i: usize) -> (r: bool)
    requires
        i + b.len() <= a.len(),
    ensures
        r == occurs_at(a@, b@, i as int),
{
    let mut j: usize = 0;
    while j < b.len()
        invariant
            i + b.len() <= a.len(),
            j <= b@.len(),
            forall|q: int| 0 <= q < j ==> a@[i + q] == b@[q],
        decreases b@.len() - j,
    {
        if a[i + j] != b[j] {
            assert(a@.subrange(i as int, i + b@.len())[j as int] != b@[j as int]);
            return false;
        }
        j += 1;
    }
    assert(a@.subrange(i as int, i + b@.len()) =~= b@);
    true
}

/// Whether `sub` occurs in `s`.
pub fn contains_text(s: &str, sub: &str) -> (r: bool)
    ensures
        r == has_substring(s@, sub@),
{
    let a = chars_of(s);
    let b = chars_of(sub);
    if b.len() > a.len() {
        proof {
            assert forall|i: int| !#[trigger] occurs_at(s@, sub@, i) by {}
        }
        return false;
    }
    if b.len() == 0 {
        assert(s@.subrange(0, 0) =~= sub@);
        assert(occurs_at(s@, sub@, 0));
        return true;
    }
    let last = a.len() - b.len();
    let mut i: usize = 0;
    while i <= last
        invariant
            a@ == s@,
            b@ == sub@,
            last == a.len() - b.len(),
            last < a.len(),
            b@.len() > 0,
            i <= last + 1,
            forall|q: int| 0 <= q < i ==> !#[trigger] occurs_at(s@, sub@, q),
        decreases last + 1 - i,
    {
        if matches_at(&a, &b, i) {
            return true;
        }
        i += 1;
    }
    proof {
        assert forall|q: int| !#[trigger] occurs_at(s@, sub@, q) by {
            if 0 <= q < i {
            }
        }
    }
    false
}

/// The strings of `v` without repeats, each where it first occurs.
pub fn distinct_strings(v: &Vec<String>) -> (r: Vec<String>)
    ensures
        r.deep_view().no_duplicates(),
        r.deep_view().to_set() == v.deep_view().to_set(),
{
    let mut out: Vec<String> = Vec::new();
    let mut i: usize = 0;
    while i < v.len()
        invariant
            i <= v@.len(),
            out.deep_view().no_duplicates(),
            forall|x: Seq<char>| #[trigger] out.deep_view().contains(x) <==> v.deep_view().take(i as int).contains(x),
        decreases v@.len() - i,
    {
        let ghost before = out.deep_view();
        let ghost seen = v.deep_view().take(i as int);
        let ghost next = v.deep_view().take(i + 1);
        assert(next =~= seen.push(v.deep_view()[i as int]));
        if !contains_str(&out, v[i].as_str()) {
            out.push(v[i].clone());
            assert(out.deep_view() =~= before.push(v.deep_view()[i as int]));
            assert forall|a: int, b: int| 0 <= a < out.deep_view().len() && 0 <= b < out.deep_view().len() && a != b
                implies out.deep_view()[a] != out.deep_view()[b] by {
                if a < before.len() && b < before.len() {
                } else if a < before.len() {
                    assert(before.contains(before[a]));
                } else if b < before.len() {
                    assert(before.contains(before[b]));
                }
            }
            assert forall|x: Seq<char>| #[trigger] out.deep_view().contains(x) <==> next.contains(x) by {
                if out.deep_view().contains(x) {
                    let q = choose|q: int| 0 <= q < out.deep_view().len() && out.deep_view()[q] == x;
                    if q < before.len() {
                        assert(before.contains(x));
                        let w = choose|w: int| 0 <= w < seen.len() && seen[w] == x;
                        assert(next[w] == x);
                    } else {
                        assert(next[i as int] == x);
                    }
                }
                if next.contains(x) {
                    let w = choose|w: int| 0 <= w < next.len() && next[w] == x;
                    if w < i {
                        assert(seen[w] == x);
                        assert(seen.contains(x));
                        assert(before.contains(x));
                        let q = choose|q: int| 0 <= q < before.len() && before[q] == x;
                        assert(out.deep_view()[q] == x);
                    } else {
                        assert(out.deep_view()[before.len() as int] == x);
                    }
                }
            }
        } else {
            assert forall|x: Seq<char>| #[trigger] out.deep_view().contains(x) <==> next.contains(x) by {
                if next.contains(x) {
                    let w = choose|w: int| 0 <= w < next.len() && next[w] == x;
                    if w < i {
                        assert(seen[w] == x);
                        assert(seen.contains(x));
                    }
                }
                if out.deep_view().contains(x) {
                    assert(seen.contains(x));
                    let w = choose|w: int| 0 <= w < seen.len() && seen[w] == x;
                    assert(next[w] == x);
                }
            }
        }
        i += 1;
    }
    assert(v.deep_view().take(i as int) =~= v.deep_view());
    assert(out.deep_view().to_set() =~= v.deep_view().to_set());
    out
}

/// Remove leading whitespace.
pub fn trim_start(s: &str) -> (r: String)
    ensures
        r@ == trim_start_ws(s@),
{
    let n = s.unicode_len();
    let mut a: usize = 0;
    assert(s@.subrange(0, n as int) =~= s@);
    while a < n && is_whitespace_char(s.get_char(a))
        invariant
            n == s@.len(),
            a <= n,
            trim_start_ws(s@) == trim_start_ws(s@.subrange(a as int, n as int)),
        decreases n - a,
    {
        assert(s@.subrange(a as int, n as int).drop_first() =~= s@.subrange(a + 1, n as int));
        a += 1;
    }
    substring(s, a, n)
}

/// Texts in non-decreasing order stay in order: `a <= b <= c` gives `a <= c`.
pub proof fn lemma_str_le_transitive(a: Seq<char>, b: Seq<char>, c: Seq<char>)
    requires
        !str_lt(b, a),
        !str_lt(c, b),
    ensures
        !str_lt(c, a),
{
    if str_lt(c, a) && a != b && b != c {
        lemma_str_lt_total(a, b);
        lemma_str_lt_total(b, c);
        lemma_str_lt_transitive(a, b, c);
        lemma_str_lt_asymmetric(a, c);
    }
}

} // verus!
