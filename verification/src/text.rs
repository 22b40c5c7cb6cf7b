//! Characters, UTF-8 offsets and the small amount of formatting the crate needs.
//!
//! A string is modelled by its sequence of characters. Byte offsets, which is
//! what the public functions hand out, are lengths of UTF-8 encodings of
//! prefixes of that sequence.

use vstd::prelude::*;
use vstd::utf8::*;

verus! {

/// The characters with the Unicode property `White_Space`.
pub open spec fn is_space(c: char) -> bool {
    ||| 0x9 <= c as u32 <= 0xD
    ||| c as u32 == 0x20
    ||| c as u32 == 0x85
    ||| c as u32 == 0xA0
    ||| c as u32 == 0x1680
    ||| 0x2000 <= c as u32 <= 0x200A
    ||| c as u32 == 0x2028
    ||| c as u32 == 0x2029
    ||| c as u32 == 0x202F
    ||| c as u32 == 0x205F
    ||| c as u32 == 0x3000
}

/// `char::is_whitespace` tests the Unicode property `White_Space`, whose
/// members [`is_space`] lists.
pub assume_specification[ char::is_whitespace ](c: char) -> (r: bool)
    ensures
        r == is_space(c),
;

/// `char::len_utf8` is the number of bytes of the character's UTF-8 encoding.
pub assume_specification[ char::len_utf8 ](c: char) -> (n: usize)
    ensures
        n == encode_scalar(c as u32).len(),
;

/// `String::push` appends one character.
pub assume_specification[ String::push ](s: &mut String, c: char)
    ensures
        final(s)@ == old(s)@.push(c),
;

/// Two string slices are equal exactly when they hold the same characters.
pub assume_specification[ <str as PartialEq>::eq ](a: &str, b: &str) -> (r: bool)
    ensures
        r == (a@ == b@),
;

/// `std::str::from_utf8` accepts exactly the well-formed UTF-8 sequences, and
/// gives the text that they encode.
#[verifier::external_body]
pub(crate) fn utf8_text(bytes: &[u8]) -> (r: Option<&str>)
    ensures
        match r {
            Some(s) => valid_utf8(bytes@) && s@ == decode_utf8(bytes@),
            None => !valid_utf8(bytes@),
        },
{
    std::str::from_utf8(bytes).ok()
}

/// The number of bytes that a sequence of characters takes in UTF-8.
pub open spec fn utf8_len(s: Seq<char>) -> nat {
    encode_utf8(s).len()
}

/// UTF-8 encodes character by character, so the encoding of a concatenation
/// is the concatenation of the encodings.
pub proof fn lemma_encode_concat(a: Seq<char>, b: Seq<char>)
    ensures
        encode_utf8(a + b) == encode_utf8(a) + encode_utf8(b),
    decreases a.len(),
{
    if a.len() == 0 {
        assert(a + b =~= b);
    } else {
        lemma_encode_concat(a.drop_first(), b);
        assert((a + b).drop_first() =~= a.drop_first() + b);
        assert((a + b)[0] == a[0]);
    }
}

/// Equal encodings are encodings of equal texts.
pub proof fn lemma_encode_injective(a: Seq<char>, b: Seq<char>)
    requires
        encode_utf8(a) == encode_utf8(b),
    ensures
        a == b,
{
    encode_utf8_decode_utf8(a);
    encode_utf8_decode_utf8(b);
}

pub proof fn lemma_encode_one(c: char)
    ensures
        encode_utf8(seq![c]) == encode_scalar(c as u32),
        1 <= encode_utf8(seq![c]).len() <= 4,
{
    reveal_with_fuel(encode_utf8, 2);
    assert(seq![c].drop_first() =~= Seq::<char>::empty());
}

/// No character takes more than four bytes.
pub proof fn lemma_utf8_len_most(s: Seq<char>)
    ensures
        utf8_len(s) <= 4 * s.len(),
    decreases s.len(),
{
    if s.len() > 0 {
        lemma_utf8_len_most(s.drop_last());
        lemma_utf8_len_step(s, s.len() - 1);
        assert(s.take(s.len() - 1) =~= s.drop_last());
        assert(s.take(s.len() as int) =~= s);
    }
}

/// The bytes of a text hold a given ASCII value only where the text holds that
/// character.
pub proof fn lemma_encode_ascii_free(s: Seq<char>, b: u8)
    requires
        b < 0x80,
        forall|i: int| 0 <= i < s.len() ==> #[trigger] s[i] as u32 != b as u32,
    ensures
        forall|i: int| 0 <= i < encode_utf8(s).len() ==> #[trigger] encode_utf8(s)[i] != b,
    decreases s.len(),
{
    if s.len() > 0 {
        assert forall|i: int| 0 <= i < s.drop_first().len() implies #[trigger] s.drop_first()[i]
            as u32 != b as u32 by {
            assert(s.drop_first()[i] == s[i + 1]);
        }
        lemma_encode_ascii_free(s.drop_first(), b);
        let c = s[0] as u32;
        char_is_scalar(s[0]);
        assert(s[0] as u32 != b as u32);
        lemma_scalar_ascii_free(c, b);
        let head = encode_scalar(c);
        let tail = encode_utf8(s.drop_first());
        assert(encode_utf8(s) == head + tail);
        assert forall|i: int| 0 <= i < encode_utf8(s).len() implies #[trigger] encode_utf8(s)[i]
            != b by {
            if i < head.len() {
                assert(encode_utf8(s)[i] == head[i]);
            } else {
                assert(encode_utf8(s)[i] == tail[i - head.len()]);
            }
        }
    }
}

proof fn lemma_scalar_ascii_free(c: u32, b: u8)
    requires
        is_scalar(c),
        b < 0x80,
        c != b as u32,
    ensures
        forall|i: int| 0 <= i < encode_scalar(c).len() ==> #[trigger] encode_scalar(c)[i] != b,
{
    assert(c <= 0x7F ==> (c & 0x7F) as u8 as u32 == c) by (bit_vector);
    assert(b < 0x80 ==> (0xC0u8 | ((c >> 6) & 0x1F) as u8) != b) by (bit_vector);
    assert(b < 0x80 ==> (0xE0u8 | ((c >> 12) & 0x0F) as u8) != b) by (bit_vector);
    assert(b < 0x80 ==> (0xF0u8 | ((c >> 18) & 0x7) as u8) != b) by (bit_vector);
    assert(b < 0x80 ==> (0x80u8 | (c & 0x3F) as u8) != b) by (bit_vector);
    assert(b < 0x80 ==> (0x80u8 | ((c >> 6) & 0x3F) as u8) != b) by (bit_vector);
    assert(b < 0x80 ==> (0x80u8 | ((c >> 12) & 0x3F) as u8) != b) by (bit_vector);
}

/// One more character makes a prefix longer by that character's encoding.
pub proof fn lemma_utf8_len_step(s: Seq<char>, k: int)
    requires
        0 <= k < s.len(),
    ensures
        utf8_len(s.take(k + 1)) == utf8_len(s.take(k)) + encode_scalar(s[k] as u32).len(),
        1 <= encode_scalar(s[k] as u32).len() <= 4,
{
    assert(s.take(k + 1) =~= s.take(k) + seq![s[k]]);
    lemma_encode_concat(s.take(k), seq![s[k]]);
    lemma_encode_one(s[k]);
}

/// A longer prefix takes more bytes, and each character at least one.
pub proof fn lemma_utf8_len_monotone(s: Seq<char>, j: int, k: int)
    requires
        0 <= j <= k <= s.len(),
    ensures
        utf8_len(s.take(j)) + (k - j) <= utf8_len(s.take(k)) <= utf8_len(s),
    decreases s.len() - j,
{
    if j < k {
        lemma_utf8_len_step(s, j);
        lemma_utf8_len_monotone(s, j + 1, k);
    } else if j < s.len() {
        lemma_utf8_len_step(s, j);
        lemma_utf8_len_monotone(s, j + 1, j + 1);
    } else {
        assert(s.take(k) =~= s);
    }
}

/// The end of a prefix is a character boundary, and cutting the bytes there
/// cuts the text there.
pub proof fn lemma_prefix_boundary(s: Seq<char>, k: int)
    requires
        0 <= k <= s.len(),
    ensures
        is_char_boundary(encode_utf8(s), utf8_len(s.take(k)) as int),
        utf8_len(s.take(k)) <= utf8_len(s),
        encode_utf8(s).subrange(0, utf8_len(s.take(k)) as int) == encode_utf8(s.take(k)),
        encode_utf8(s).subrange(utf8_len(s.take(k)) as int, utf8_len(s) as int) == encode_utf8(
            s.skip(k),
        ),
{
    let a = s.take(k);
    let b = s.skip(k);
    assert(a + b =~= s);
    lemma_encode_concat(a, b);
    assert((encode_utf8(a) + encode_utf8(b)).subrange(0, utf8_len(a) as int) =~= encode_utf8(a));
    assert((encode_utf8(a) + encode_utf8(b)).subrange(utf8_len(a) as int, utf8_len(s) as int)
        =~= encode_utf8(b));
    encode_utf8_valid_utf8(s);
    encode_utf8_valid_utf8(b);
    let bytes = encode_utf8(s);
    let at = utf8_len(a) as int;
    is_char_boundary_start_end_of_seq(bytes);
    if at < bytes.len() {
        // The byte at the cut starts the encoding of `b`.
        assert(b.len() > 0) by {
            if b.len() == 0 {
                assert(a =~= s);
            }
        }
        encode_utf8_first_scalar(b);
        is_char_boundary_iff_not_is_continuation_byte(encode_utf8(b), 0);
        is_char_boundary_iff_not_is_continuation_byte(bytes, at);
        assert(bytes[at] == encode_utf8(b)[0]);
    }
}

/// Compares two string slices.
pub fn same(a: &str, b: &str) -> (r: bool)
    ensures
        r == (a@ == b@),
{
    a.eq(b)
}

/// The characters of a string, as a vector.
pub fn chars_of(s: &str) -> (r: Vec<char>)
    ensures
        r@ == s@,
{
    let mut out: Vec<char> = Vec::new();
    for c in iter: s.chars()
        invariant
            iter.seq() == s@,
            out@ == s@.take(iter.index()),
    {
        out.push(c);
        assert(s@.take(iter.index() + 1) =~= s@.take(iter.index()).push(c));
    }
    assert(s@.take(s@.len() as int) =~= s@);
    out
}

/// The string made of `chars[from..to]`.
pub fn string_of(chars: &Vec<char>, from: usize, to: usize) -> (r: String)
    requires
        from <= to <= chars@.len(),
    ensures
        r@ == chars@.subrange(from as int, to as int),
{
    let mut out = String::new();
    let mut i: usize = from;
    while i < to
        invariant
            from <= i <= to <= chars@.len(),
            out@ == chars@.subrange(from as int, i as int),
        decreases to - i,
    {
        out.push(chars[i]);
        i = i + 1;
        assert(chars@.subrange(from as int, i as int) =~= chars@.subrange(
            from as int,
            i - 1,
        ).push(chars@[i - 1]));
    }
    out
}

/// The number of bytes of a string slice.
pub fn byte_len(s: &str) -> (n: usize)
    ensures
        n == utf8_len(s@),
{
    s.as_bytes().len()
}

/// Cuts a string at a byte offset that ends the prefix of `k` characters.
pub(crate) fn split_at(s: &str, at: usize, Ghost(k): Ghost<int>) -> (r: (&str, &str))
    requires
        0 <= k <= s@.len(),
        at == utf8_len(s@.take(k)),
    ensures
        r.0@ == s@.take(k),
        r.1@ == s@.skip(k),
{
    proof {
        lemma_prefix_boundary(s@, k);
    }
    let r = s.split_at(at);
    proof {
        lemma_encode_injective(r.0@, s@.take(k));
        lemma_encode_injective(r.1@, s@.skip(k));
    }
    r
}

/// `s` without its leading whitespace.
pub open spec fn trim_start(s: Seq<char>) -> Seq<char>
    decreases s.len(),
{
    if s.len() > 0 && is_space(s[0]) {
        trim_start(s.drop_first())
    } else {
        s
    }
}

/// `s` without its trailing whitespace.
pub open spec fn trim_end(s: Seq<char>) -> Seq<char>
    decreases s.len(),
{
    if s.len() > 0 && is_space(s.last()) {
        trim_end(s.drop_last())
    } else {
        s
    }
}

/// `s` without leading and trailing whitespace.
pub open spec fn trim(s: Seq<char>) -> Seq<char> {
    trim_end(trim_start(s))
}

/// Whether `s` holds nothing but whitespace.
pub open spec fn all_space(s: Seq<char>) -> bool {
    forall|i: int| 0 <= i < s.len() ==> is_space(#[trigger] s[i])
}

/// `s` without the copies of `c` at its end.
pub open spec fn drop_trailing(s: Seq<char>, c: char) -> Seq<char>
    decreases s.len(),
{
    if s.len() > 0 && s.last() == c {
        drop_trailing(s.drop_last(), c)
    } else {
        s
    }
}

/// `s` without the copies of `suffix` at its end.
pub open spec fn drop_suffixes(s: Seq<char>, suffix: Seq<char>) -> Seq<char>
    decreases s.len(),
{
    if 0 < suffix.len() <= s.len() && s.skip(s.len() - suffix.len()) == suffix {
        drop_suffixes(s.take(s.len() - suffix.len()), suffix)
    } else {
        s
    }
}

/// The position of the first `x` in `s`, or the length of `s` without one.
pub open spec fn first_index<T>(s: Seq<T>, x: T) -> int
    decreases s.len(),
{
    if s.len() == 0 || s[0] == x {
        0
    } else {
        1 + first_index(s.drop_first(), x)
    }
}

pub proof fn lemma_first_index<T>(s: Seq<T>, x: T)
    ensures
        0 <= first_index(s, x) <= s.len(),
        first_index(s, x) < s.len() ==> s[first_index(s, x)] == x,
        forall|i: int| 0 <= i < first_index(s, x) ==> #[trigger] s[i] != x,
    decreases s.len(),
{
    if s.len() > 0 && s[0] != x {
        lemma_first_index(s.drop_first(), x);
        assert forall|i: int| 0 <= i < first_index(s, x) implies #[trigger] s[i] != x by {
            if i > 0 {
                assert(s.drop_first()[i - 1] == s[i]);
            }
        }
    }
}

/// A position that holds `x` with no `x` before it is the first one.
pub proof fn lemma_first_index_is<T>(s: Seq<T>, x: T, k: int)
    requires
        0 <= k <= s.len(),
        k < s.len() ==> s[k] == x,
        forall|i: int| 0 <= i < k ==> #[trigger] s[i] != x,
    ensures
        first_index(s, x) == k,
{
    lemma_first_index(s, x);
    let f = first_index(s, x);
    if f < k {
        assert(s[f] != x);
    } else if k < f {
        assert(s[k] != x);
    }
}

/// Trimming leaves nothing exactly when there was nothing but whitespace.
pub proof fn lemma_blank_trim(s: Seq<char>)
    ensures
        all_space(s) <==> trim(s).len() == 0,
    decreases s.len(),
{
    if s.len() > 0 && is_space(s[0]) {
        lemma_blank_trim(s.drop_first());
        if all_space(s.drop_first()) {
            assert forall|i: int| 0 <= i < s.len() implies is_space(#[trigger] s[i]) by {
                if i > 0 {
                    assert(s.drop_first()[i - 1] == s[i]);
                }
            }
        }
        if all_space(s) {
            assert forall|i: int| 0 <= i < s.drop_first().len() implies is_space(
                #[trigger] s.drop_first()[i],
            ) by {
                assert(s[i + 1] == s.drop_first()[i]);
            }
        }
    } else if s.len() > 0 {
        lemma_trim_end_first(s);
    }
}

proof fn lemma_trim_end_first(s: Seq<char>)
    requires
        s.len() > 0,
        !is_space(s[0]),
    ensures
        trim_end(s).len() > 0,
    decreases s.len(),
{
    if is_space(s.last()) {
        lemma_trim_end_first(s.drop_last());
    }
}

/// What trimming leaves, if anything, is not blank.
pub proof fn lemma_trim_shows(s: Seq<char>)
    ensures
        trim(s).len() > 0 ==> !all_space(trim(s)),
{
    lemma_trim_end_shows(trim_start(s));
}

proof fn lemma_trim_end_shows(s: Seq<char>)
    ensures
        trim_end(s).len() > 0 ==> !is_space(trim_end(s).last()),
        trim_end(s).len() > 0 ==> !all_space(trim_end(s)),
    decreases s.len(),
{
    if s.len() > 0 && is_space(s.last()) {
        lemma_trim_end_shows(s.drop_last());
    } else if s.len() > 0 {
        assert(!is_space(s[s.len() - 1]));
    }
}

/// `s` without leading whitespace (`str::trim_start`).
pub fn trimmed_start(s: &str) -> (r: String)
    ensures
        r@ == trim_start(s@),
{
    let chars = chars_of(s);
    let n: usize = chars.len();
    let mut i: usize = 0;
    assert(s@.skip(0) =~= s@);
    while i < n && chars[i].is_whitespace()
        invariant
            chars@ == s@,
            i <= n == s@.len(),
            trim_start(s@) == trim_start(s@.skip(i as int)),
        decreases n - i,
    {
        assert(s@.skip(i as int).drop_first() =~= s@.skip(i + 1));
        i = i + 1;
    }
    assert(s@.skip(i as int) =~= chars@.subrange(i as int, n as int));
    string_of(&chars, i, n)
}

/// `s` without leading and trailing whitespace (`str::trim`).
pub fn trimmed(s: &str) -> (r: String)
    ensures
        r@ == trim(s@),
{
    let head = trimmed_start(s);
    let chars = chars_of(head.as_str());
    let mut j: usize = chars.len();
    assert(head@.take(j as int) =~= head@);
    while j > 0 && chars[j - 1].is_whitespace()
        invariant
            chars@ == head@,
            j <= head@.len(),
            trim_end(head@) == trim_end(head@.take(j as int)),
        decreases j,
    {
        assert(head@.take(j as int).drop_last() =~= head@.take(j - 1));
        j = j - 1;
    }
    assert(head@.take(j as int) =~= chars@.subrange(0, j as int));
    string_of(&chars, 0, j)
}

/// Whether `s` holds nothing but whitespace (`str::trim` leaves nothing).
pub fn is_blank(s: &str) -> (r: bool)
    ensures
        r == all_space(s@),
        r == (trim(s@).len() == 0),
{
    let chars = chars_of(s);
    let mut i: usize = 0;
    while i < chars.len()
        invariant
            chars@ == s@,
            i <= chars@.len(),
            forall|j: int| 0 <= j < i ==> is_space(#[trigger] s@[j]),
        decreases chars@.len() - i,
    {
        if !chars[i].is_whitespace() {
            assert(!is_space(s@[i as int]));
            proof {
                lemma_blank_trim(s@);
            }
            return false;
        }
        i = i + 1;
    }
    proof {
        lemma_blank_trim(s@);
    }
    true
}

/// `s` without the copies of `c` at its end (`str::trim_end_matches`).
pub fn without_trailing(s: &str, c: char) -> (r: String)
    ensures
        r@ == drop_trailing(s@, c),
{
    let chars = chars_of(s);
    let mut j: usize = chars.len();
    assert(s@.take(j as int) =~= s@);
    while j > 0 && chars[j - 1] == c
        invariant
            chars@ == s@,
            j <= s@.len(),
            drop_trailing(s@, c) == drop_trailing(s@.take(j as int), c),
        decreases j,
    {
        assert(s@.take(j as int).drop_last() =~= s@.take(j - 1));
        j = j - 1;
    }
    assert(s@.take(j as int) =~= chars@.subrange(0, j as int));
    string_of(&chars, 0, j)
}

/// Whether `b` occurs in `a` at position `at`.
fn occurs_at(a: &Vec<char>, at: usize, b: &Vec<char>) -> (r: bool)
    requires
        at + b@.len() <= a@.len(),
    ensures
        r == (a@.subrange(at as int, at + b@.len()) == b@),
{
    let n: usize = a.len();
    let mut i: usize = 0;
    while i < b.len()
        invariant
            i <= b@.len(),
            at + b@.len() <= a@.len() == n,
            forall|j: int| 0 <= j < i ==> a@[at + j] == #[trigger] b@[j],
        decreases b@.len() - i,
    {
        if a[at + i] != b[i] {
            assert(a@.subrange(at as int, at + b@.len())[i as int] == a@[at + i]);
            return false;
        }
        i = i + 1;
    }
    assert(a@.subrange(at as int, at + b@.len()) =~= b@);
    true
}

/// `s` without the copies of `suffix` at its end (`str::trim_end_matches`).
pub fn without_suffixes(s: &str, suffix: &str) -> (r: String)
    ensures
        r@ == drop_suffixes(s@, suffix@),
{
    let chars = chars_of(s);
    let tail = chars_of(suffix);
    let mut j: usize = chars.len();
    assert(s@.take(j as int) =~= s@);
    while tail.len() > 0 && tail.len() <= j && occurs_at(&chars, j - tail.len(), &tail)
        invariant
            chars@ == s@,
            tail@ == suffix@,
            j <= s@.len(),
            drop_suffixes(s@, suffix@) == drop_suffixes(s@.take(j as int), suffix@),
        decreases j,
    {
        assert(s@.take(j as int).skip(j - suffix@.len()) =~= s@.subrange(
            j - suffix@.len(),
            j as int,
        ));
        assert(s@.take(j as int).take(j - suffix@.len()) =~= s@.take(j - suffix@.len()));
        j = j - tail.len();
    }
    proof {
        if 0 < suffix@.len() <= j {
            assert(s@.take(j as int).skip(j - suffix@.len()) =~= s@.subrange(
                j - suffix@.len(),
                j as int,
            ));
        }
    }
    assert(s@.take(j as int) =~= chars@.subrange(0, j as int));
    string_of(&chars, 0, j)
}

/// What follows `prefix` in `s`, where `s` begins with it (`str::strip_prefix`).
pub fn after_prefix(s: &str, prefix: &str) -> (r: Option<String>)
    ensures
        match r {
            Some(rest) => prefix@.is_prefix_of(s@) && rest@ == s@.skip(prefix@.len() as int),
            None => !prefix@.is_prefix_of(s@),
        },
{
    let chars = chars_of(s);
    let head = chars_of(prefix);
    if head.len() <= chars.len() && occurs_at(&chars, 0, &head) {
        assert(s@.skip(prefix@.len() as int) =~= chars@.subrange(
            prefix@.len() as int,
            chars@.len() as int,
        ));
        Some(string_of(&chars, head.len(), chars.len()))
    } else {
        None
    }
}

/// Whether `s` ends with `suffix` (`str::ends_with`).
pub fn has_suffix(s: &str, suffix: &str) -> (r: bool)
    ensures
        r == suffix@.is_suffix_of(s@),
{
    let chars = chars_of(s);
    let tail = chars_of(suffix);
    tail.len() <= chars.len() && occurs_at(&chars, chars.len() - tail.len(), &tail)
}

/// What precedes the first `c` in `s`, or all of `s` without one.
pub fn before_first(s: &str, c: char) -> (r: String)
    ensures
        r@ == s@.take(first_index(s@, c)),
{
    let chars = chars_of(s);
    let mut i: usize = 0;
    while i < chars.len() && chars[i] != c
        invariant
            chars@ == s@,
            i <= s@.len(),
            forall|j: int| 0 <= j < i ==> #[trigger] s@[j] != c,
        decreases s@.len() - i,
    {
        i = i + 1;
    }
    proof {
        lemma_first_index_is(s@, c, i as int);
    }
    assert(s@.take(i as int) =~= chars@.subrange(0, i as int));
    string_of(&chars, 0, i)
}

/// The digit for a value below ten.
pub open spec fn digit(d: nat) -> char {
    (48 + d) as char
}

/// A number in decimal, without leading zeros.
pub open spec fn decimal(n: nat) -> Seq<char>
    decreases n,
{
    if n < 10 {
        seq![digit(n)]
    } else {
        decimal(n / 10).push(digit(n % 10))
    }
}

/// An integer in decimal, with a minus sign below zero.
pub open spec fn signed_decimal(n: int) -> Seq<char> {
    if n < 0 {
        seq!['-'] + decimal((-n) as nat)
    } else {
        decimal(n as nat)
    }
}

/// A number in decimal, filled up with leading zeros to `width` digits.
pub open spec fn padded(n: nat, width: nat) -> Seq<char> {
    let d = decimal(n);
    if d.len() < width {
        Seq::new((width - d.len()) as nat, |i: int| '0') + d
    } else {
        d
    }
}

/// The lower-case hexadecimal digit for a value below sixteen.
pub open spec fn hex_digit(d: nat) -> char {
    if d < 10 {
        (48 + d) as char
    } else {
        (87 + d) as char
    }
}

/// A number in decimal.
pub fn decimal_text(n: u128) -> (r: String)
    ensures
        r@ == decimal(n as nat),
    decreases n,
{
    let last = (48u8 + (n % 10) as u8) as char;
    let mut out = if n < 10 {
        String::new()
    } else {
        decimal_text(n / 10)
    };
    out.push(last);
    assert(n < 10 ==> out@ =~= seq![digit(n as nat)]);
    out
}

/// An integer in decimal.
pub fn signed_text(n: i64) -> (r: String)
    ensures
        r@ == signed_decimal(n as int),
{
    if n < 0 {
        let mut out = String::new();
        out.push('-');
        out.append(decimal_text((-(n as i128)) as u128).as_str());
        assert(out@ =~= signed_decimal(n as int));
        out
    } else {
        decimal_text(n as u128)
    }
}

/// A number in decimal, filled up with leading zeros to `width` digits.
pub fn padded_text(n: u64, width: usize) -> (r: String)
    ensures
        r@ == padded(n as nat, width as nat),
{
    let digits = decimal_text(n as u128);
    let have: usize = chars_of(digits.as_str()).len();
    let mut out = String::new();
    let mut i: usize = have;
    while i < width
        invariant
            have == decimal(n as nat).len(),
            i <= width || i == have,
            have <= i,
            out@ == Seq::new((i - have) as nat, |j: int| '0'),
        decreases width - i,
    {
        out.push('0');
        i = i + 1;
        assert(out@ =~= Seq::new((i - have) as nat, |j: int| '0'));
    }
    out.append(digits.as_str());
    assert(out@ =~= padded(n as nat, width as nat));
    out
}

/// The lower-case hexadecimal digit for a value below sixteen.
pub fn hex_char(d: u8) -> (c: char)
    requires
        d < 16,
    ensures
        c == hex_digit(d as nat),
{
    if d < 10 {
        (48u8 + d) as char
    } else {
        (87u8 + d) as char
    }
}

proof fn lemma_trim_start_skips(s: Seq<char>) -> (a: int)
    ensures
        0 <= a <= s.len(),
        trim_start(s) == s.skip(a),
        all_space(s.take(a)),
        a < s.len() ==> !is_space(s[a]),
    decreases s.len(),
{
    if s.len() > 0 && is_space(s[0]) {
        let rest = s.drop_first();
        let a = lemma_trim_start_skips(rest);
        assert(rest.skip(a) =~= s.skip(a + 1));
        assert forall|i: int| 0 <= i < a + 1 implies is_space(#[trigger] s.take(a + 1)[i]) by {
            if i > 0 {
                assert(rest.take(a)[i - 1] == s[i]);
            }
        }
        a + 1
    } else {
        assert(s.skip(0) =~= s);
        0
    }
}

proof fn lemma_trim_end_takes(s: Seq<char>) -> (b: int)
    ensures
        0 <= b <= s.len(),
        trim_end(s) == s.take(b),
        all_space(s.skip(b)),
        b > 0 ==> !is_space(s[b - 1]),
    decreases s.len(),
{
    if s.len() > 0 && is_space(s.last()) {
        let rest = s.drop_last();
        let b = lemma_trim_end_takes(rest);
        assert(rest.take(b) =~= s.take(b));
        assert forall|i: int| 0 <= i < s.skip(b).len() implies is_space(#[trigger] s.skip(b)[i]) by {
            if i + b < rest.len() {
                assert(rest.skip(b)[i] == s[i + b]);
            }
        }
        b
    } else {
        assert(s.take(s.len() as int) =~= s);
        s.len() as int
    }
}

/// Trimming takes away the whitespace at both ends, and nothing else.
pub proof fn law_trim_leaves_the_middle(s: Seq<char>) -> (r: (int, int))
    ensures
        0 <= r.0 <= r.1 <= s.len(),
        trim(s) == s.subrange(r.0, r.1),
        all_space(s.take(r.0)),
        all_space(s.skip(r.1)),
        r.0 < r.1 ==> !is_space(s[r.0]) && !is_space(s[r.1 - 1]),
{
    let a = lemma_trim_start_skips(s);
    let rest = s.skip(a);
    let b = lemma_trim_end_takes(rest);
    assert(rest.take(b) =~= s.subrange(a, a + b));
    assert(s.skip(a + b) =~= rest.skip(b));
    (a, a + b)
}

/// The copies of a character at the end go, all of them and nothing else.
pub proof fn law_trailing_characters_go(s: Seq<char>, c: char) -> (k: int)
    ensures
        0 <= k <= s.len(),
        drop_trailing(s, c) == s.take(k),
        forall|i: int| k <= i < s.len() ==> #[trigger] s[i] == c,
        k > 0 ==> s[k - 1] != c,
    decreases s.len(),
{
    if s.len() > 0 && s.last() == c {
        let rest = s.drop_last();
        let k = law_trailing_characters_go(rest, c);
        assert(rest.take(k) =~= s.take(k));
        assert forall|i: int| k <= i < s.len() implies #[trigger] s[i] == c by {
            if i < rest.len() {
                assert(rest[i] == s[i]);
            }
        }
        k
    } else {
        assert(s.take(s.len() as int) =~= s);
        s.len() as int
    }
}

/// A copy of a suffix at the end goes, and what does not end with it stays.
pub proof fn law_suffixes_go(s: Seq<char>, suffix: Seq<char>)
    requires
        suffix.len() > 0,
    ensures
        drop_suffixes(s + suffix, suffix) == drop_suffixes(s, suffix),
        !suffix.is_suffix_of(s) ==> drop_suffixes(s, suffix) == s,
{
    let all = s + suffix;
    assert(all.skip(all.len() - suffix.len()) =~= suffix);
    assert(all.take(all.len() - suffix.len()) =~= s);
    if suffix.len() <= s.len() {
        assert(s.skip(s.len() - suffix.len()) =~= s.subrange(
            s.len() - suffix.len(),
            s.len() as int,
        ));
    }
}

/// The number that a digit stands for.
pub open spec fn digit_of(c: char) -> int {
    c as int - 48
}

/// The number that decimal digits stand for.
pub open spec fn number_of(s: Seq<char>) -> int
    decreases s.len(),
{
    if s.len() == 0 {
        0
    } else {
        number_of(s.drop_last()) * 10 + digit_of(s.last())
    }
}

/// A number is written with decimal digits that stand for it, and without
/// leading zeros.
pub proof fn law_decimal_stands_for_the_number(n: nat)
    ensures
        number_of(decimal(n)) == n,
        decimal(n).len() > 0,
        forall|i: int| 0 <= i < decimal(n).len() ==> '0' <= #[trigger] decimal(n)[i] <= '9',
        n > 0 ==> decimal(n)[0] != '0',
        n == 0 ==> decimal(n) == seq!['0'],
    decreases n,
{
    reveal_with_fuel(number_of, 2);
    if n < 10 {
        assert(decimal(n).drop_last() =~= Seq::empty());
        assert(digit_of(digit(n)) == n);
    } else {
        law_decimal_stands_for_the_number(n / 10);
        assert(decimal(n).drop_last() =~= decimal(n / 10));
        assert(digit_of(digit(n % 10)) == n % 10);
        assert(decimal(n)[0] == decimal(n / 10)[0]);
    }
}

/// Numbers below zero have a minus sign, and others none.
pub proof fn law_signs(n: int)
    ensures
        n < 0 ==> signed_decimal(n).len() > 1 && signed_decimal(n)[0] == '-' && number_of(
            signed_decimal(n).skip(1),
        ) == -n,
        n >= 0 ==> number_of(signed_decimal(n)) == n && signed_decimal(n)[0] != '-',
{
    if n < 0 {
        law_decimal_stands_for_the_number((-n) as nat);
        assert(signed_decimal(n).skip(1) =~= decimal((-n) as nat));
    } else {
        law_decimal_stands_for_the_number(n as nat);
    }
}

proof fn lemma_leading_zeros(k: nat, d: Seq<char>)
    ensures
        number_of(Seq::new(k, |i: int| '0') + d) == number_of(d),
    decreases d.len(), k,
{
    let zeros = Seq::new(k, |i: int| '0');
    if d.len() > 0 {
        lemma_leading_zeros(k, d.drop_last());
        assert((zeros + d).drop_last() =~= zeros + d.drop_last());
    } else if k > 0 {
        let fewer = Seq::new((k - 1) as nat, |i: int| '0');
        lemma_leading_zeros((k - 1) as nat, d);
        assert((zeros + d).drop_last() =~= fewer + d);
        assert(digit_of('0') == 0);
    } else {
        assert(zeros + d =~= d);
    }
}

/// Filling a number up with zeros does not change it, and gives the width asked
/// for where the number has no more digits.
pub proof fn law_padding_keeps_the_number(n: nat, width: nat)
    ensures
        number_of(padded(n, width)) == n,
        padded(n, width).len() >= width,
        decimal(n).len() <= width ==> padded(n, width).len() == width,
        decimal(n).len() >= width ==> padded(n, width) == decimal(n),
{
    law_decimal_stands_for_the_number(n);
    let d = decimal(n);
    if d.len() < width {
        lemma_leading_zeros((width - d.len()) as nat, d);
    }
}

} // verus!
