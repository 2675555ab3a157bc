//! Comparing and searching text by its bytes.
use vstd::prelude::*;
use vstd::string::StringSliceAdditionalSpecFns;
use vstd::utf8::{encode_utf8, encode_utf8_decode_utf8, valid_utf8};

verus! {

/// Whether two byte slices hold the same bytes.
pub fn bytes_eq(a: &[u8], b: &[u8]) -> (r: bool)
    ensures
        r == (a@ == b@),
{
    if a.len() != b.len() {
        return false;
    }
    let mut i: usize = 0;
    while i < a.len()
        invariant
            a@.len() == b@.len(),
            i <= a@.len(),
            forall|j: int| 0 <= j < i ==> #[trigger] a@[j] == b@[j],
        decreases a@.len() - i,
    {
        if a[i] != b[i] {
            return false;
        }
        i = i + 1;
    }
    assert(a@ =~= b@);
    true
}

/// Two texts with the same bytes are the same text.
pub proof fn lemma_bytes_determine_text(a: Seq<char>, b: Seq<char>)
    requires
        encode_utf8(a) == encode_utf8(b),
    ensures
        a == b,
{
    encode_utf8_decode_utf8(a);
    encode_utf8_decode_utf8(b);
}

/// Whether two strings are equal.
pub fn str_eq(a: &str, b: &str) -> (r: bool)
    ensures
        r == (a@ == b@),
{
    let r = bytes_eq(a.as_bytes(), b.as_bytes());
    proof {
        if r {
            lemma_bytes_determine_text(a@, b@);
        }
    }
    r
}

/// `needle` occurs in `hay` at position `i`.
pub open spec fn occurs_at(hay: Seq<u8>, needle: Seq<u8>, i: int) -> bool {
    0 <= i && i + needle.len() <= hay.len() && hay.subrange(i, i + needle.len()) == needle
}

/// `needle` occurs somewhere in `hay`.
pub open spec fn occurs_in(hay: Seq<u8>, needle: Seq<u8>) -> bool {
    exists|i: int| #[trigger] occurs_at(hay, needle, i)
}

/// Whether `needle` occurs at position `i` of `hay`.
fn matches_at(hay: &[u8], needle: &[u8], i: usize) -> (r: bool)
    requires
        i + needle@.len() <= hay@.len(),
    ensures
        r == occurs_at(hay@, needle@, i as int),
{
    let mut k: usize = 0;
    while k < needle.len()
        invariant
            i + needle@.len() <= hay@.len(),
            hay@.len() == hay.len(),
            k <= needle@.len(),
            forall|j: int| 0 <= j < k ==> #[trigger] hay@[i + j] == needle@[j],
        decreases needle@.len() - k,
    {
        if hay[i + k] != needle[k] {
            assert(hay@.subrange(i as int, i + needle@.len())[k as int] != needle@[k as int]);
            return false;
        }
        k = k + 1;
    }
    assert(hay@.subrange(i as int, i + needle@.len()) =~= needle@) by {
        assert forall|j: int| 0 <= j < needle@.len() implies hay@.subrange(
            i as int,
            i + needle@.len(),
        )[j] == needle@[j] by {
            assert(hay@[i + j] == needle@[j]);
        }
    }
    true
}

/// Whether `needle` occurs in `hay`.
pub fn contains_bytes(hay: &[u8], needle: &[u8]) -> (r: bool)
    ensures
        r == occurs_in(hay@, needle@),
{
    if needle.len() > hay.len() {
        assert(!occurs_in(hay@, needle@));
        return false;
    }
    if needle.len() == 0 {
        assert(hay@.subrange(0, 0) =~= needle@);
        assert(occurs_at(hay@, needle@, 0));
        return true;
    }
    let last = hay.len() - needle.len();
    let mut i: usize = 0;
    while i <= last
        invariant
            last == hay@.len() - needle@.len(),
            needle@.len() > 0,
            hay@.len() == hay.len(),
            i <= last + 1,
            forall|j: int| 0 <= j < i ==> !#[trigger] occurs_at(hay@, needle@, j),
        decreases last + 1 - i,
    {
        if matches_at(hay, needle, i) {
            return true;
        }
        i = i + 1;
    }
    assert forall|j: int| !#[trigger] occurs_at(hay@, needle@, j) by {
        if 0 <= j < i {
        }
    }
    false
}

/// `s` with a comma on either side.
pub open spec fn comma_framed(s: Seq<u8>) -> Seq<u8> {
    seq![44u8] + s + seq![44u8]
}

/// `s` with a comma on either side.
pub fn frame_with_commas(s: &[u8]) -> (r: Vec<u8>)
    ensures
        r@ == comma_framed(s@),
{
    let mut out: Vec<u8> = Vec::new();
    out.push(44u8);
    let mut i: usize = 0;
    while i < s.len()
        invariant
            i <= s@.len(),
            out@ == seq![44u8] + s@.take(i as int),
        decreases s@.len() - i,
    {
        out.push(s[i]);
        i = i + 1;
        assert(out@ =~= seq![44u8] + s@.take(i as int));
    }
    out.push(44u8);
    assert(s@.take(i as int) =~= s@);
    assert(out@ =~= comma_framed(s@));
    out
}

/// Whether `item` is one of the entries of the comma-separated `list`.
pub fn list_has_item(list: &str, item: &str) -> (r: bool)
    ensures
        r == occurs_in(comma_framed(list.spec_bytes()), comma_framed(item.spec_bytes())),
{
    let hay = frame_with_commas(list.as_bytes());
    let needle = frame_with_commas(item.as_bytes());
    contains_bytes(hay.as_slice(), needle.as_slice())
}

/// Calls std's `String::push`, which appends one character to the string.
#[verifier::external_body]
pub(crate) fn push_char(s: &mut String, c: char)
    ensures
        final(s)@ == old(s)@.push(c),
{
    s.push(c);
}

/// Calls std's `str::from_utf8`, which borrows the bytes as text when they are
/// valid UTF-8 and fails otherwise.
#[verifier::external_body]
pub(crate) fn str_from_utf8(bytes: &[u8]) -> (r: Option<&str>)
    ensures
        r is Some <==> valid_utf8(bytes@),
        r matches Some(s) ==> s.spec_bytes() == bytes@,
{
    std::str::from_utf8(bytes).ok()
}

/// Each byte read as the character with the same code.
pub open spec fn latin1(b: Seq<u8>) -> Seq<char> {
    Seq::new(b.len(), |i: int| b[i] as char)
}

/// The text whose characters have the codes of `bytes`.
pub fn latin1_string(bytes: &[u8]) -> (r: String)
    ensures
        r@ == latin1(bytes@),
{
    let mut out = String::new();
    let mut i: usize = 0;
    while i < bytes.len()
        invariant
            i <= bytes@.len(),
            out@ == latin1(bytes@.take(i as int)),
        decreases bytes@.len() - i,
    {
        push_char(&mut out, bytes[i] as char);
        i = i + 1;
        assert(out@ =~= latin1(bytes@.take(i as int)));
    }
    assert(bytes@.take(i as int) =~= bytes@);
    out
}

/// The bytes before the first zero byte, or all of them.
pub open spec fn before_nul(b: Seq<u8>) -> Seq<u8>
    decreases b.len(),
{
    if b.len() == 0 {
        b
    } else if b[0] == 0 {
        Seq::empty()
    } else {
        seq![b[0]] + before_nul(b.drop_first())
    }
}

/// The position of the first zero byte, or the length.
pub fn nul_position(b: &[u8]) -> (r: usize)
    ensures
        r <= b@.len(),
        b@.take(r as int) == before_nul(b@),
        r < b@.len() ==> b@[r as int] == 0,
        forall|j: int| 0 <= j < r ==> #[trigger] b@[j] != 0,
{
    let mut i: usize = 0;
    while i < b.len() && b[i] != 0
        invariant
            i <= b@.len(),
            forall|j: int| 0 <= j < i ==> #[trigger] b@[j] != 0,
        decreases b@.len() - i,
    {
        i = i + 1;
    }
    proof {
        lemma_before_nul(b@, i as int);
    }
    i
}

/// When the first `k` bytes are not zero and the next one is (or there is none),
/// they are what comes before the first zero.
pub proof fn lemma_before_nul(b: Seq<u8>, k: int)
    requires
        0 <= k <= b.len(),
        forall|j: int| 0 <= j < k ==> #[trigger] b[j] != 0,
        k < b.len() ==> b[k] == 0,
    ensures
        b.take(k) == before_nul(b),
    decreases b.len(),
{
    if b.len() == 0 {
        assert(b.take(k) =~= b);
    } else if k == 0 {
        assert(b.take(k) =~= Seq::<u8>::empty());
    } else {
        let t = b.drop_first();
        assert forall|j: int| 0 <= j < k - 1 implies #[trigger] t[j] != 0 by {
            assert(t[j] == b[j + 1]);
        }
        lemma_before_nul(t, k - 1);
        assert(b.take(k) =~= seq![b[0]] + t.take(k - 1));
    }
}

/// The decimal digits of a number; none for zero once the number has run out.
pub open spec fn decimal_rest(n: nat) -> Seq<char>
    decreases n,
{
    if n == 0 {
        Seq::empty()
    } else {
        decimal_rest(n / 10) + seq![(48 + n % 10) as char]
    }
}

/// The decimal text of a number, `0` for zero.
pub open spec fn decimal(n: nat) -> Seq<char> {
    if n == 0 {
        seq!['0']
    } else {
        decimal_rest(n)
    }
}

/// The decimal text of a signed number, with a leading `-` when negative.
pub open spec fn signed_decimal(v: int) -> Seq<char> {
    if v < 0 {
        seq!['-'] + decimal((-v) as nat)
    } else {
        decimal(v as nat)
    }
}

/// The decimal text of `v`.
pub fn decimal_u64(v: u64) -> (r: String)
    ensures
        r@ == decimal(v as nat),
{
    let mut digits: Vec<u8> = Vec::new();
    let mut n: u64 = v;
    while n > 0
        invariant
            decimal_rest(v as nat) == decimal_rest(n as nat) + Seq::new(digits@.len(), |i: int| (48 + digits@[digits@.len() - 1 - i]) as char),
            forall|i: int| 0 <= i < digits@.len() ==> #[trigger] digits@[i] < 10,
        decreases n,
    {
        let d = n % 10;
        let ghost before = digits@;
        let ghost old_n = n as nat;
        digits.push(d as u8);
        n = n / 10;
        proof {
            assert(decimal_rest(old_n) == decimal_rest(n as nat) + seq![(48 + d) as char]);
            assert(Seq::new(digits@.len(), |i: int| (48 + digits@[digits@.len() - 1 - i]) as char)
                =~= seq![(48 + d) as char] + Seq::new(before.len(), |i: int| (48 + before[before.len() - 1 - i]) as char));
        }
    }
    let mut s = String::new();
    if digits.len() == 0 {
        push_char(&mut s, '0');
        assert(s@ =~= seq!['0']);
        return s;
    }
    let mut i: usize = digits.len();
    while i > 0
        invariant
            i <= digits@.len(),
            s@ == Seq::new((digits@.len() - i) as nat, |j: int| (48 + digits@[digits@.len() - 1 - j]) as char),
            forall|j: int| 0 <= j < digits@.len() ==> #[trigger] digits@[j] < 10,
        decreases i,
    {
        i = i - 1;
        push_char(&mut s, (48 + digits[i]) as char);
        assert(s@ =~= Seq::new((digits@.len() - i) as nat, |j: int| (48 + digits@[digits@.len() - 1 - j]) as char));
    }
    proof {
        assert(decimal_rest(0) == Seq::<char>::empty());
        assert(decimal_rest(v as nat) =~= s@);
        if v == 0 {
            assert(digits@.len() == 0);
        }
    }
    s
}

/// The decimal text of `v`, with a leading `-` when negative.
pub fn decimal_isize(v: isize) -> (r: String)
    ensures
        r@ == signed_decimal(v as int),
{
    if v < 0 {
        let magnitude: u64 = if v == isize::MIN {
            (isize::MAX as u64) + 1
        } else {
            (-v) as u64
        };
        let digits = decimal_u64(magnitude);
        let mut s = String::new();
        push_char(&mut s, '-');
        s.append(digits.as_str());
        assert(s@ =~= seq!['-'] + decimal((-v) as nat));
        s
    } else {
        decimal_u64(v as u64)
    }
}

} // verus!
