//! Reading the global id of a polymorphed entity back out of the bytes the
//! engine serialized it to.
use vstd::prelude::*;
use crate::basic_types::{all_digits, digit_of, parse_radix, parsed_radix};
use crate::api::{EngineError, EntityID};
use crate::des::Gid;
use crate::text::{push_char, str_from_utf8};
use vstd::string::{StrSliceExecFns, StringSliceAdditionalSpecFns};
use vstd::utf8::{decode_utf8, encode_utf8, encode_utf8_decode_utf8, valid_utf8};
use base64::Engine;

verus! {

/// `u64::MAX` is 20 digits, so a longer value string is not a gid.
pub const MAX_DIGITS: usize = 20;

/// The `ew_gid_lid` variable name as the engine serializes it: a big-endian
/// u32 length followed by the bytes.
pub open spec fn framed_name() -> Seq<u8> {
    seq![0u8, 0u8, 0u8, 10u8, 101u8, 119u8, 95u8, 103u8, 105u8, 100u8, 95u8, 108u8, 105u8, 100u8]
}

/// The framed name occurs in `data` at position `p`.
pub open spec fn framed_at(data: Seq<u8>, p: int) -> bool {
    0 <= p && p + 14 <= data.len() && data.subrange(p, p + 14) == framed_name()
}

/// The first position at or after `p` where the framed name occurs.
pub open spec fn first_framed_from(data: Seq<u8>, p: int) -> Option<int>
    decreases data.len() - p,
{
    if p < 0 || p + 14 > data.len() {
        None
    } else if framed_at(data, p) {
        Some(p)
    } else {
        first_framed_from(data, p + 1)
    }
}

/// A big-endian 32-bit length.
pub open spec fn be_u32(b: Seq<u8>) -> nat {
    ((b[0] as nat * 256 + b[1] as nat) * 256 + b[2] as nat) * 256 + b[3] as nat
}

/// The gid behind the first framed `ew_gid_lid` name in `data`: a big-endian
/// length of 1 to 20, then that many ASCII digits whose value fits in 64 bits.
pub open spec fn gid_in(data: Seq<u8>) -> Option<u64> {
    match first_framed_from(data, 0) {
        None => None,
        Some(p) => {
            let start = p + 14;
            if start + 4 > data.len() {
                None
            } else {
                let len = be_u32(data.subrange(start, start + 4));
                if len == 0 || len > 20 || start + 4 + len > data.len() {
                    None
                } else {
                    let digits = data.subrange(start + 4, start + 4 + len);
                    if all_digits(digits, 10) {
                        parsed_radix(digits, 10)
                    } else {
                        None
                    }
                }
            }
        },
    }
}

fn framed_name_at(data: &[u8], p: usize) -> (r: bool)
    requires
        p + 14 <= data@.len(),
    ensures
        r == framed_at(data@, p as int),
{
    let name: [u8; 14] = [0, 0, 0, 10, 101, 119, 95, 103, 105, 100, 95, 108, 105, 100];
    assert(name@ =~= framed_name());
    let mut k: usize = 0;
    while k < 14
        invariant
            k <= 14,
            p + 14 <= data@.len(),
            data@.len() == data.len(),
            name@ == framed_name(),
            forall|j: int| 0 <= j < k ==> #[trigger] data@[p + j] == name@[j],
        decreases 14 - k,
    {
        if data[p + k] != name[k] {
            assert(data@.subrange(p as int, p + 14)[k as int] != framed_name()[k as int]);
            return false;
        }
        k = k + 1;
    }
    assert forall|j: int| 0 <= j < 14 implies data@.subrange(p as int, p + 14)[j] == framed_name()[j] by {
        assert(data@[p + j] == name@[j]);
    }
    assert(data@.subrange(p as int, p + 14) =~= framed_name());
    true
}

/// Whether `data[from..to]` is all ASCII digits.
fn ascii_digits(data: &[u8], from: usize, to: usize) -> (r: bool)
    requires
        from <= to <= data@.len(),
    ensures
        r == all_digits(data@.subrange(from as int, to as int), 10),
{
    let ghost digits = data@.subrange(from as int, to as int);
    let mut i: usize = from;
    while i < to
        invariant
            from <= i <= to <= data@.len(),
            digits == data@.subrange(from as int, to as int),
            forall|j: int| from <= j < i ==> 48 <= #[trigger] data@[j] <= 57,
        decreases to - i,
    {
        if !(48 <= data[i] && data[i] <= 57) {
            assert(!all_digits(digits, 10)) by {
                assert(digits[i - from] == data@[i as int]);
                assert(digit_of(digits[i - from], 10) is None);
            }
            return false;
        }
        i = i + 1;
    }
    assert forall|j: int| 0 <= j < digits.len() implies #[trigger] digit_of(digits[j], 10) is Some by {
        assert(digits[j] == data@[from + j]);
    }
    true
}

/// Pulls the `ew_gid_lid` value out of an entity the engine serialized.
///
/// The engine writes components positionally: every string is a big-endian
/// u32 length followed by its bytes, and a `VariableStorageComponent` is
/// `name`, `value_string`, `value_int`, `value_bool`, `value_float` in that
/// order. So the gid sits directly behind the length-prefixed name. Matching
/// the name together with its own length prefix rejects the same text inside
/// a tag list, and reading exactly the declared number of bytes means a binary
/// byte that happens to be an ASCII digit never leaks into the number.
pub fn gid_from_serialized_entity(data: &[u8]) -> (r: Option<Gid>)
    ensures
        r == (match gid_in(data@) {
            Some(v) => Some(Gid(v)),
            None => None,
        }),
{
    let n = data.len();
    if n < 14 {
        assert(first_framed_from(data@, 0) is None);
        return None;
    }
    let mut p: usize = 0;
    let mut found = false;
    while p <= n - 14
        invariant_except_break
            p + 14 <= n + 1,
            !found,
            n >= 14,
            n == data@.len(),
            first_framed_from(data@, 0) == first_framed_from(data@, p as int),
        ensures
            found ==> p + 14 <= n && first_framed_from(data@, 0) == Some(p as int),
            !found ==> first_framed_from(data@, 0) is None,
        decreases n + 1 - p,
    {
        if framed_name_at(data, p) {
            found = true;
            break;
        }
        p = p + 1;
    }
    if !found {
        return None;
    }
    let start = p + 14;
    if n - start < 4 {
        return None;
    }
    let len: u64 = ((data[start] as u64 * 256 + data[start + 1] as u64) * 256 + data[start + 2] as u64) * 256
        + data[start + 3] as u64;
    assert(len == be_u32(data@.subrange(start as int, start + 4)));
    if len == 0 || len > MAX_DIGITS as u64 {
        return None;
    }
    let len = len as usize;
    if n - start - 4 < len {
        return None;
    }
    let from = start + 4;
    let to = from + len;
    if !ascii_digits(data, from, to) {
        return None;
    }
    match parse_radix(data, from, to, 10) {
        Some(v) => Some(Gid(v)),
        None => None,
    }
}

/// The bytes that the standard base64 engine (standard alphabet, padded)
/// decodes `input` to, or none when it rejects the input.
pub uninterp spec fn base64_standard_decoded(input: Seq<u8>) -> Option<Seq<u8>>;

/// Calls `base64::engine::general_purpose::STANDARD.decode`, which decodes
/// padded standard base64; the result is named by `base64_standard_decoded`.
#[verifier::external_body]
fn decode_base64(input: &[u8]) -> (r: Option<Vec<u8>>)
    ensures
        match r {
            Some(v) => base64_standard_decoded(input@) == Some(v@),
            None => base64_standard_decoded(input@) is None,
        },
{
    base64::engine::general_purpose::STANDARD.decode(input).ok()
}

/// Whether a character is in one of Unicode's number categories.
pub uninterp spec fn char_is_numeric(c: char) -> bool;

/// Calls std's `char::is_numeric`, which tells whether a character is in one
/// of Unicode's number categories; the ASCII digits are. Nothing more of other
/// characters is stated.
#[verifier::external_body]
fn is_numeric(c: char) -> (r: bool)
    ensures
        r == char_is_numeric(c),
        '0' <= c <= '9' ==> r,
{
    c.is_numeric()
}

/// The first position at or after `from` where `pat` occurs in `s`.
pub open spec fn first_occurrence(s: Seq<char>, pat: Seq<char>, from: int) -> Option<int>
    decreases s.len() + 1 - from,
{
    if from < 0 || from + pat.len() > s.len() {
        None
    } else if s.subrange(from, from + pat.len()) == pat {
        Some(from)
    } else {
        first_occurrence(s, pat, from + 1)
    }
}

/// The first run of numeric characters of `s`; once `found`, the run that
/// starts at the beginning of `s`.
pub open spec fn numeric_run(s: Seq<char>, found: bool) -> Seq<char>
    decreases s.len(),
{
    if s.len() == 0 {
        Seq::empty()
    } else if char_is_numeric(s[0]) {
        seq![s[0]] + numeric_run(s.drop_first(), true)
    } else if found {
        Seq::empty()
    } else {
        numeric_run(s.drop_first(), false)
    }
}

/// Every character is an ASCII digit.
pub open spec fn all_digit_chars(d: Seq<char>) -> bool {
    forall|i: int| 0 <= i < d.len() ==> digit_char(#[trigger] d[i])
}

/// The character is an ASCII digit.
pub open spec fn digit_char(c: char) -> bool {
    '0' <= c <= '9'
}

/// The value of a decimal text, as `u64` parsing reads it: an optional `+`,
/// then at least one ASCII digit, with a value that fits.
pub open spec fn u64_of_text(t: Seq<char>) -> Option<u64> {
    let d = if t.len() > 0 && t[0] == '+' { t.drop_first() } else { t };
    if d.len() == 0 || !all_digit_chars(d) {
        None
    } else {
        parsed_radix(d.map_values(|c: char| c as u8), 10)
    }
}

/// What the serialized data of a polymorph effect says of the gid: none for no
/// data, data that is not base64 of UTF-8 text, or text without `ew_gid_lid`;
/// otherwise the first run of numbers after that name, which must read as a
/// `u64` (an error when it does not).
pub open spec fn poly_gid_of(data: Seq<char>) -> Result<Option<u64>, ()> {
    if data.len() == 0 {
        Ok(None)
    } else {
        match base64_standard_decoded(encode_utf8(data)) {
            None => Ok(None),
            Some(bytes) => if !valid_utf8(bytes) {
                Ok(None)
            } else {
                let text = decode_utf8(bytes);
                match first_occurrence(text, "ew_gid_lid"@, 0) {
                    None => Ok(None),
                    Some(i) => match u64_of_text(numeric_run(text.skip(i + 10), false)) {
                        Some(v) => Ok(Some(v)),
                        None => Err(()),
                    },
                }
            },
        }
    }
}

/// Why the gid of a polymorphed entity could not be read.
#[derive(Debug, Clone, Copy, PartialEq, Eq, Structural)]
pub struct GidParseError;

fn occurs_at_chars(s: &str, n: usize, at: usize, pat: &[char; 10]) -> (r: bool)
    requires
        n == s@.len(),
        at + 10 <= n,
    ensures
        r == (s@.subrange(at as int, at + 10) == pat@),
{
    let mut k: usize = 0;
    while k < 10
        invariant
            k <= 10,
            n == s@.len(),
            at + 10 <= n,
            forall|j: int| 0 <= j < k ==> #[trigger] s@[at + j] == pat@[j],
        decreases 10 - k,
    {
        if s.get_char(at + k) != pat[k] {
            assert(s@.subrange(at as int, at + 10)[k as int] != pat@[k as int]);
            return false;
        }
        k = k + 1;
    }
    assert(s@.subrange(at as int, at + 10) =~= pat@) by {
        assert forall|j: int| 0 <= j < 10 implies s@.subrange(at as int, at + 10)[j] == pat@[j] by {
            assert(s@[at + j] == pat@[j]);
        }
    }
    true
}

fn parse_u64_text(t: &String) -> (r: Option<u64>)
    ensures
        r == u64_of_text(t@),
{
    let s = t.as_str();
    let n = s.unicode_len();
    let start: usize = if n > 0 && s.get_char(0) == '+' {
        1
    } else {
        0
    };
    let ghost d = if t@.len() > 0 && t@[0] == '+' { t@.drop_first() } else { t@ };
    assert(d =~= t@.skip(start as int));
    if start == n {
        return None;
    }
    let mut bytes: Vec<u8> = Vec::new();
    let mut i: usize = start;
    while i < n
        invariant
            start <= i <= n,
            n == s@.len(),
            s@ == t@,
            d == t@.skip(start as int),
            d == (if t@.len() > 0 && t@[0] == '+' { t@.drop_first() } else { t@ }),
            bytes@ == d.take(i - start).map_values(|c: char| c as u8),
            forall|j: int| 0 <= j < i - start ==> digit_char(#[trigger] d[j]),
        decreases n - i,
    {
        let c = s.get_char(i);
        if !('0' <= c && c <= '9') {
            proof {
                assert(d[i - start] == c);
                assert(!digit_char(d[i - start]));
            }
            return None;
        }
        bytes.push(c as u8);
        i = i + 1;
        assert(bytes@ =~= d.take(i - start).map_values(|c: char| c as u8));
    }
    assert(d.take(i - start) =~= d);
    assert(all_digit_chars(d));
    let len = bytes.len();
    assert(bytes@.subrange(0, len as int) =~= bytes@);
    parse_radix(bytes.as_slice(), 0, len, 10)
}

/// Reads the gid out of the serialized data of a polymorph effect, which is
/// base64 of the polymorphed entity's text form.
pub fn gid_from_serialized_data(data: &str) -> (r: Result<Option<Gid>, GidParseError>)
    ensures
        match poly_gid_of(data@) {
            Ok(Some(v)) => r == Ok::<Option<Gid>, GidParseError>(Some(Gid(v))),
            Ok(None) => r == Ok::<Option<Gid>, GidParseError>(None),
            Err(_) => r is Err,
        },
{
    if data.is_empty() {
        return Ok(None);
    }
    let decoded = match decode_base64(data.as_bytes()) {
        Some(d) => d,
        None => {
            return Ok(None);
        },
    };
    let text = match str_from_utf8(decoded.as_slice()) {
        Some(t) => t,
        None => {
            return Ok(None);
        },
    };
    proof {
        encode_utf8_decode_utf8(text@);
        reveal_strlit("ew_gid_lid");
    }
    let pat: [char; 10] = ['e', 'w', '_', 'g', 'i', 'd', '_', 'l', 'i', 'd'];
    assert(pat@ =~= "ew_gid_lid"@);
    let n = text.unicode_len();
    let mut at: usize = 0;
    let mut found = false;
    assert(first_occurrence(text@, pat@, 0) == first_occurrence(text@, pat@, at as int));
    while n >= 10 && at <= n - 10
        invariant_except_break
            n == text@.len(),
            !found,
            first_occurrence(text@, pat@, 0) == first_occurrence(text@, pat@, at as int),
        ensures
            n == text@.len(),
            found ==> at + 10 <= n && first_occurrence(text@, pat@, 0) == Some(at as int),
            !found ==> first_occurrence(text@, pat@, 0) is None,
        decreases n - at,
    {
        if occurs_at_chars(text, n, at, &pat) {
            found = true;
            break;
        }
        at = at + 1;
    }
    if !found {
        return Ok(None);
    }
    let mut gid = String::new();
    let mut i: usize = at + 10;
    let mut seen = false;
    let ghost rest = text@.skip(at + 10);
    proof {
        assert(rest =~= text@.skip(i as int));
    }
    while i < n
        invariant_except_break
            at + 10 <= i <= n,
            n == text@.len(),
            rest == text@.skip(at + 10),
            numeric_run(rest, false) == gid@ + numeric_run(text@.skip(i as int), seen),
            !seen ==> gid@.len() == 0,
        ensures
            numeric_run(rest, false) == gid@,
        decreases n - i,
    {
        let c = text.get_char(i);
        let ghost t = text@.skip(i as int);
        assert(t[0] == c);
        assert(t.drop_first() =~= text@.skip(i + 1));
        if is_numeric(c) {
            seen = true;
            let ghost before = gid@;
            push_char(&mut gid, c);
            assert(before + numeric_run(t, seen) =~= gid@ + numeric_run(text@.skip(i + 1), true));
        } else if seen {
            assert(numeric_run(t, true) == Seq::<char>::empty());
            assert(gid@ + Seq::<char>::empty() =~= gid@);
            break;
        }
        i = i + 1;
    }
    match parse_u64_text(&gid) {
        Some(v) => Ok(Some(Gid(v))),
        None => Err(GidParseError),
    }
}

/// What one child entity's game effect says about a polymorph, as read from
/// the game.
pub enum ChildEffect {
    /// The child has no game effect component, or looking it up failed.
    NoEffect,
    /// The effect's kind could not be read.
    Unreadable(EngineError),
    /// An effect other than the polymorph ones.
    Other,
    /// One of the polymorph effects, with the game's reply for its
    /// serialized data.
    Polymorph(Result<String, EngineError>),
}

/// Why the gid of a polymorphed entity could not be found.
pub enum PolyError {
    /// Reading a child's effect failed.
    Engine(EngineError),
    /// The serialized data named a gid that is not a number.
    Gid(GidParseError),
}

/// Whether the search goes on past a child with effect `p`.
pub open spec fn passes_by(p: ChildEffect) -> bool {
    p is NoEffect || p is Other
}

/// The answer a child with effect `p` settles on.
pub open spec fn settled(p: ChildEffect, r: Result<Option<Gid>, PolyError>) -> bool {
    match p {
        ChildEffect::Unreadable(e) => r matches Err(PolyError::Engine(x)) && x == e,
        ChildEffect::Polymorph(Err(_)) => r matches Ok(None),
        ChildEffect::Polymorph(Ok(d)) => match poly_gid_of(d@) {
            Ok(Some(v)) => r matches Ok(Some(g)) && g == Gid(v),
            Ok(None) => r matches Ok(None),
            Err(_) => r matches Err(PolyError::Gid(_)),
        },
        _ => false,
    }
}

/// `probe` may find child `c` passing by.
pub open spec fn probed_past<F: Fn(EntityID) -> ChildEffect>(probe: F, c: EntityID) -> bool {
    exists|p: ChildEffect| probe.ensures((c,), p) && passes_by(p)
}

/// Child `i` of `children` is the first `probe` does not find passing by,
/// and its effect settles the answer `r`.
pub open spec fn settles_at<F: Fn(EntityID) -> ChildEffect>(probe: F, children: Seq<EntityID>, i: int, r: Result<Option<Gid>, PolyError>) -> bool {
    &&& 0 <= i < children.len()
    &&& forall|j: int| 0 <= j < i ==> probed_past(probe, #[trigger] children[j])
    &&& exists|p: ChildEffect| probe.ensures((children[i],), p) && !passes_by(p) && settled(p, r)
}

impl EntityID {
    /// The gid an entity carried before it was polymorphed: the children are
    /// probed in order, and the first with a polymorph effect (or whose
    /// effect cannot be read) settles it from its serialized data; without
    /// such a child there is none.
    pub fn handle_poly<F: Fn(EntityID) -> ChildEffect>(children: &[EntityID], probe: F) -> (r: Result<Option<Gid>, PolyError>)
        requires
            forall|c: EntityID| probe.requires((c,)),
        ensures
            ({
                ||| (forall|j: int| 0 <= j < children@.len() ==> probed_past(probe, #[trigger] children@[j])) && r matches Ok(None)
                ||| exists|i: int| #[trigger] settles_at(probe, children@, i, r)
            }),
    {
        let mut i: usize = 0;
        while i < children.len()
            invariant
                i <= children@.len(),
                forall|c: EntityID| probe.requires((c,)),
                forall|j: int| 0 <= j < i ==> probed_past(probe, #[trigger] children@[j]),
            decreases children@.len() - i,
        {
            let p = probe(children[i]);
            let ghost seen = p;
            proof {
                assert(probe.ensures((children@[i as int],), seen));
            }
            let r: Result<Option<Gid>, PolyError> = match p {
                ChildEffect::NoEffect => {
                    proof {
                        assert(probe.ensures((children@[i as int],), seen) && passes_by(seen));
                        assert(probed_past(probe, children@[i as int]));
                    }
                    i = i + 1;
                    continue;
                },
                ChildEffect::Other => {
                    proof {
                        assert(probe.ensures((children@[i as int],), seen) && passes_by(seen));
                        assert(probed_past(probe, children@[i as int]));
                    }
                    i = i + 1;
                    continue;
                },
                ChildEffect::Unreadable(e) => Err(PolyError::Engine(e)),
                ChildEffect::Polymorph(Err(_)) => Ok(None),
                ChildEffect::Polymorph(Ok(data)) => match gid_from_serialized_data(data.as_str()) {
                    Ok(g) => Ok(g),
                    Err(e) => Err(PolyError::Gid(e)),
                },
            };
            proof {
                assert(!passes_by(seen) && settled(seen, r));
                assert(settles_at(probe, children@, i as int, r));
            }
            return r;
        }
        Ok(None)
    }
}

} // verus!
