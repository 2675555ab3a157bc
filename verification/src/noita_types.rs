//! The game's own string, map and bit-set types, held as the bytes and values
//! the game-side code reads from them.
use vstd::prelude::*;
use vstd::string::StringSliceAdditionalSpecFns;
use vstd::utf8::{decode_utf8, encode_utf8_decode_utf8, valid_utf8};
use crate::std_vec::StdVec;
use crate::text::{before_nul, latin1, latin1_string, nul_position, str_eq, str_from_utf8, bytes_eq};

verus! {

/// A NUL-terminated string of the game: the bytes at its address, up to and
/// including the terminating zero when there is one. A null string has no bytes.
#[derive(Debug)]
pub struct CString {
    bytes: Vec<u8>,
}

impl CString {
    /// The bytes at the string's address.
    pub closed spec fn bytes(&self) -> Seq<u8> {
        self.bytes@
    }

    /// The text of the string: the bytes before the terminating zero.
    pub open spec fn text(&self) -> Seq<u8> {
        before_nul(self.bytes())
    }

    /// A copy of `value`, with a terminating zero.
    pub fn from(value: &str) -> (r: Self)
        ensures
            r.bytes() == value.spec_bytes().push(0),
    {
        let b = value.as_bytes();
        let mut bytes: Vec<u8> = Vec::new();
        let mut i: usize = 0;
        while i < b.len()
            invariant
                i <= b@.len(),
                bytes@ == b@.take(i as int),
            decreases b@.len() - i,
        {
            bytes.push(b[i]);
            i = i + 1;
            assert(bytes@ =~= b@.take(i as int));
        }
        bytes.push(0);
        assert(b@.take(i as int) =~= b@);
        CString { bytes }
    }

    /// The string at a literal's bytes; the literal carries its own terminator,
    /// and its end ends the string when it carries none.
    pub fn from_str(value: &'static str) -> (r: Self)
        ensures
            r.bytes() == value.spec_bytes(),
    {
        let b = value.as_bytes();
        let mut bytes: Vec<u8> = Vec::new();
        let mut i: usize = 0;
        while i < b.len()
            invariant
                i <= b@.len(),
                bytes@ == b@.take(i as int),
            decreases b@.len() - i,
        {
            bytes.push(b[i]);
            i = i + 1;
            assert(bytes@ =~= b@.take(i as int));
        }
        assert(b@.take(i as int) =~= b@);
        CString { bytes }
    }

    /// The text, each byte as the character with its code.
    pub fn to_string(&self) -> (r: String)
        ensures
            r@ == latin1(self.text()),
    {
        let n = nul_position(self.bytes.as_slice());
        let (head, _) = self.bytes.as_slice().split_at(n);
        latin1_string(head)
    }

    /// Whether both strings hold the same text.
    pub fn text_eq(&self, other: &Self) -> (r: bool)
        ensures
            r == (self.text() == other.text()),
    {
        let n = nul_position(self.bytes.as_slice());
        let m = nul_position(other.bytes.as_slice());
        let (a, _) = self.bytes.as_slice().split_at(n);
        let (b, _) = other.bytes.as_slice().split_at(m);
        bytes_eq(a, b)
    }
}

impl Default for CString {
    fn default() -> (r: Self)
        ensures
            r.bytes() == Seq::<u8>::empty(),
    {
        CString { bytes: Vec::new() }
    }
}

impl PartialEq for CString {
    fn eq(&self, other: &Self) -> (r: bool) {
        self.text_eq(other)
    }
}

impl vstd::std_specs::cmp::PartialEqSpecImpl for CString {
    open spec fn obeys_eq_spec() -> bool {
        true
    }

    open spec fn eq_spec(&self, other: &Self) -> bool {
        self.text() == other.text()
    }
}

/// A fixed-size, NUL-padded string of the game.
pub struct CStr<const N: usize>(pub [u8; N]);

impl<const N: usize> CStr<N> {
    /// The text before the first zero, each byte as the character with its code.
    pub fn to_string(&self) -> (r: String)
        ensures
            r@ == latin1(before_nul(self.0@)),
    {
        let s = self.0.as_slice();
        let n = nul_position(s);
        let (head, _) = s.split_at(n);
        latin1_string(head)
    }
}

/// A C++ string of the game: up to 16 bytes are held inline, longer texts in a
/// separate buffer of exactly their length.
pub struct StdString {
    buffer: Vec<u8>,
    size: usize,
    capacity: usize,
}

/// The text shown for a string that is not valid UTF-8.
pub open spec fn utf8_error_text() -> Seq<char> {
    "UTF8_ERR"@
}

impl StdString {
    /// The bytes the string's buffer holds: the 16 inline bytes, or the first
    /// `size` bytes of the separate buffer.
    pub closed spec fn readable(&self) -> Seq<u8> {
        if self.capacity <= 16 {
            self.buffer@
        } else {
            self.buffer@.take(self.size as int)
        }
    }

    /// The length the string declares.
    pub closed spec fn size(&self) -> nat {
        self.size as nat
    }

    /// The capacity the string declares.
    pub closed spec fn capacity_of(&self) -> nat {
        self.capacity as nat
    }

    /// The string's layout is consistent.
    pub closed spec fn wf(&self) -> bool {
        &&& self.size <= self.capacity
        &&& self.capacity <= 16 ==> self.buffer@.len() == 16
        &&& self.capacity > 16 ==> self.buffer@.len() == self.size
    }

    /// The first `size` bytes, which the ordering of strings compares.
    pub open spec fn content(&self) -> Seq<u8> {
        self.readable().take(self.size() as int)
    }

    /// The bytes the string shows: those before the first zero of the buffer,
    /// or the first `size` bytes when the buffer has no zero.
    pub open spec fn visible(&self) -> Seq<u8> {
        if self.readable().contains(0u8) {
            before_nul(self.readable())
        } else {
            self.content()
        }
    }

    /// The text the string shows.
    pub open spec fn shown(&self) -> Seq<char> {
        if valid_utf8(self.visible()) {
            decode_utf8(self.visible())
        } else {
            utf8_error_text()
        }
    }

    /// The byte at `index` of the buffer.
    pub fn get(&self, index: usize) -> (r: u8)
        requires
            self.wf(),
            index < self.readable().len(),
        ensures
            r == self.readable()[index as int],
    {
        self.buffer[index]
    }

    /// A string holding `value`.
    pub fn from(value: &str) -> (r: Self)
        ensures
            r.wf(),
            r.size() == value.spec_bytes().len(),
            r.capacity_of() == value.spec_bytes().len(),
            r.content() == value.spec_bytes(),
            value.spec_bytes().len() <= 16 ==> r.readable() == value.spec_bytes() + Seq::new(
                (16 - value.spec_bytes().len()) as nat,
                |_i: int| 0u8,
            ),
            value.spec_bytes().len() > 16 ==> r.readable() == value.spec_bytes(),
    {
        let b = value.as_bytes();
        let n = b.len();
        let mut buffer: Vec<u8> = Vec::new();
        let mut i: usize = 0;
        while i < n
            invariant
                n == b@.len(),
                i <= n,
                buffer@ == b@.take(i as int),
            decreases n - i,
        {
            buffer.push(b[i]);
            i = i + 1;
            assert(buffer@ =~= b@.take(i as int));
        }
        assert(b@.take(i as int) =~= b@);
        if n <= 16 {
            while i < 16
                invariant
                    n == b@.len(),
                    n <= i <= 16,
                    buffer@ == b@ + Seq::new((i - n) as nat, |_i: int| 0u8),
                decreases 16 - i,
            {
                buffer.push(0);
                i = i + 1;
                assert(buffer@ =~= b@ + Seq::new((i - n) as nat, |_i: int| 0u8));
            }
        }
        let r = StdString { buffer, size: n, capacity: n };
        assert(r.readable().take(n as int) =~= b@);
        r
    }

    /// A string holding a literal.
    pub fn from_str(value: &'static str) -> (r: Self)
        ensures
            r.wf(),
            r.size() == value.spec_bytes().len(),
            r.capacity_of() == value.spec_bytes().len(),
            r.content() == value.spec_bytes(),
            value.spec_bytes().len() <= 16 ==> r.readable() == value.spec_bytes() + Seq::new(
                (16 - value.spec_bytes().len()) as nat,
                |_i: int| 0u8,
            ),
            value.spec_bytes().len() > 16 ==> r.readable() == value.spec_bytes(),
    {
        Self::from(value)
    }

    fn visible_bytes(&self) -> (r: &[u8])
        requires
            self.wf(),
        ensures
            r@ == self.visible(),
    {
        let all = self.buffer.as_slice();
        let (readable, _) = if self.capacity <= 16 {
            all.split_at(all.len())
        } else {
            all.split_at(self.size)
        };
        assert(readable@ =~= self.readable());
        let n = nul_position(readable);
        let k = if n < readable.len() {
            n
        } else {
            self.size
        };
        proof {
            if n < readable.len() {
                assert(readable@[n as int] == 0u8);
                assert(self.readable().contains(0u8));
            } else {
                assert(!self.readable().contains(0u8));
            }
        }
        let (head, _) = readable.split_at(k);
        head
    }

    /// The text the string shows.
    pub fn as_str(&self) -> (r: &str)
        requires
            self.wf(),
        ensures
            r@ == self.shown(),
    {
        let v = self.visible_bytes();
        match str_from_utf8(v) {
            Some(s) => {
                proof {
                    encode_utf8_decode_utf8(s@);
                }
                s
            },
            None => "UTF8_ERR",
        }
    }

    /// The text the string shows, owned.
    pub fn to_string(&self) -> (r: String)
        requires
            self.wf(),
        ensures
            r@ == self.shown(),
    {
        let s = self.as_str();
        s.to_owned()
    }

    /// Whether both strings declare the same size and show the same text.
    pub fn text_eq(&self, other: &Self) -> (r: bool)
        requires
            self.wf(),
            other.wf(),
        ensures
            r == (self.size() == other.size() && self.shown() == other.shown()),
    {
        if self.size == other.size {
            str_eq(self.as_str(), other.as_str())
        } else {
            false
        }
    }

    /// Whether both strings have the same first `size` bytes and the same size,
    /// which is equality in the ordering of strings.
    pub fn key_eq(&self, other: &Self) -> (r: bool)
        requires
            self.wf(),
            other.wf(),
        ensures
            r == (self.content() == other.content()),
    {
        let a = self.buffer.as_slice();
        let b = other.buffer.as_slice();
        if self.size > a.len() || other.size > b.len() {
            proof {
                assert(false);
            }
            return false;
        }
        let (ca, _) = a.split_at(self.size);
        let (cb, _) = b.split_at(other.size);
        assert(ca@ =~= self.content());
        assert(cb@ =~= other.content());
        bytes_eq(ca, cb)
    }
}

impl Default for StdString {
    fn default() -> (r: Self)
        ensures
            r.wf(),
            r.size() == 0,
            r.readable() == Seq::new(16, |_i: int| 0u8),
    {
        let r = StdString::from("");
        proof {
            reveal_strlit("");
            assert(r.readable() =~= Seq::new(16, |_i: int| 0u8));
        }
        r
    }
}

/// A pair of values the game keeps together.
pub struct StdSet<T> {
    pub a: T,
    pub b: T,
}

/// A node of the game's ordered map.
pub struct StdMapNode<K, V> {
    pub color: bool,
    pub end: bool,
    pub key: K,
    pub value: V,
}

impl<K, V> StdMapNode<K, V> {
    /// A black end node holding `key` and `value`.
    pub fn new(key: K, value: V) -> (r: Self)
        ensures
            r.key == key,
            r.value == value,
            r.color == false,
            r.end == true,
    {
        StdMapNode { color: false, end: true, key, value }
    }
}

/// The game's ordered map, held as its entries in key order.
pub struct StdMap<K, V> {
    entries: Vec<(K, V)>,
}

impl<K, V> View for StdMap<K, V> {
    type V = Seq<(K, V)>;

    closed spec fn view(&self) -> Seq<(K, V)> {
        self.entries@
    }
}

impl<K, V> StdMap<K, V> {
    /// An empty map.
    pub fn new() -> (r: Self)
        ensures
            r@ == Seq::<(K, V)>::empty(),
    {
        StdMap { entries: Vec::new() }
    }

    /// Inserts into an empty map; inserting into a map that has entries is not
    /// supported.
    pub fn insert(&mut self, key: K, value: V) -> (r: Option<V>)
        requires
            old(self)@.len() == 0,
        ensures
            r is None,
            final(self)@ == seq![(key, value)],
    {
        self.entries.push((key, value));
        assert(self.entries@ =~= seq![(key, value)]);
        None
    }

    /// The entries, in key order.
    pub fn iter(&self) -> (r: &[(K, V)])
        ensures
            r@ == self@,
    {
        self.entries.as_slice()
    }

    /// The number of entries.
    pub fn len(&self) -> (r: usize)
        ensures
            r == self@.len(),
    {
        self.entries.len()
    }

    /// Whether the map has no entry.
    pub fn is_empty(&self) -> (r: bool)
        ensures
            r == (self@.len() == 0),
    {
        self.entries.len() == 0
    }

    /// The keys, in order.
    pub fn iter_keys(&self) -> (r: Vec<&K>)
        ensures
            r@.len() == self@.len(),
            forall|i: int| 0 <= i < r@.len() ==> *#[trigger] r@[i] == self@[i].0,
    {
        let mut out: Vec<&K> = Vec::new();
        let mut i: usize = 0;
        while i < self.entries.len()
            invariant
                i <= self.entries@.len(),
                out@.len() == i,
                forall|j: int| 0 <= j < i ==> *#[trigger] out@[j] == self.entries@[j].0,
            decreases self.entries@.len() - i,
        {
            out.push(&self.entries[i].0);
            i = i + 1;
        }
        out
    }

    /// The values, in key order.
    pub fn iter_values(&self) -> (r: Vec<&V>)
        ensures
            r@.len() == self@.len(),
            forall|i: int| 0 <= i < r@.len() ==> *#[trigger] r@[i] == self@[i].1,
    {
        let mut out: Vec<&V> = Vec::new();
        let mut i: usize = 0;
        while i < self.entries.len()
            invariant
                i <= self.entries@.len(),
                out@.len() == i,
                forall|j: int| 0 <= j < i ==> *#[trigger] out@[j] == self.entries@[j].1,
            decreases self.entries@.len() - i,
        {
            out.push(&self.entries[i].1);
            i = i + 1;
        }
        out
    }
}

/// The position of the first entry whose key has the given content.
pub open spec fn first_key_from<V>(entries: Seq<(StdString, V)>, content: Seq<u8>, i: int) -> Option<int>
    decreases entries.len() - i,
{
    if i < 0 || i >= entries.len() {
        None
    } else if entries[i].0.content() == content {
        Some(i)
    } else {
        first_key_from(entries, content, i + 1)
    }
}

/// A found entry is at or after the start of the search, within the entries.
pub proof fn lemma_first_key_in_range<V>(entries: Seq<(StdString, V)>, content: Seq<u8>, i: int)
    ensures
        first_key_from(entries, content, i) matches Some(k) ==> i <= k < entries.len(),
    decreases entries.len() - i,
{
    if 0 <= i < entries.len() && entries[i].0.content() != content {
        lemma_first_key_in_range(entries, content, i + 1);
    }
}

/// The keys, in order, of the entries whose value passes `keep`.
pub open spec fn kept_keys<T>(entries: Seq<(StdString, T)>, keep: spec_fn(T) -> bool) -> Seq<StdString>
    decreases entries.len(),
{
    if entries.len() == 0 {
        Seq::empty()
    } else {
        kept_keys(entries.drop_last(), keep) + if keep(entries.last().1) {
            seq![entries.last().0]
        } else {
            Seq::empty()
        }
    }
}

impl<V> StdMap<StdString, V> {
    /// Every key is a well-formed string.
    pub open spec fn keys_wf(&self) -> bool {
        forall|i: int| 0 <= i < self@.len() ==> (#[trigger] self@[i]).0.wf()
    }

    /// The value of the entry whose key equals `key`.
    pub fn get(&self, key: &StdString) -> (r: Option<&V>)
        requires
            self.keys_wf(),
            key.wf(),
        ensures
            r == (match first_key_from(self@, key.content(), 0) {
                Some(i) => Some(&self@[i].1),
                None => None,
            }),
    {
        let mut i: usize = 0;
        while i < self.entries.len()
            invariant
                i <= self.entries@.len(),
                self.keys_wf(),
                key.wf(),
                first_key_from(self@, key.content(), 0) == first_key_from(self@, key.content(), i as int),
            decreases self.entries@.len() - i,
        {
            assert(self.entries@[i as int].0.wf());
            if self.entries[i].0.key_eq(key) {
                return Some(&self.entries[i].1);
            }
            i = i + 1;
        }
        None
    }
}

/// A value of the game's lenses, with the frame it was set in.
pub struct LensValueBool {
    pub value: bool,
    pub valueb: bool,
    pub frame: isize,
}

/// A value of the game's lenses, with the frame it was set in.
pub struct LensValue<T> {
    pub value: T,
    pub valueb: T,
    pub frame: isize,
}

/// The game's debug settings: the address of their table of functions and of
/// twelve further entries.
pub struct DebugSettings {
    pub vftable: usize,
    pub unk: [usize; 12],
}

/// Bit `n` of a set of 32-bit words.
pub open spec fn set_bit(words: Seq<u32>, n: int) -> bool {
    (words[n / 32] >> ((n % 32) as u32)) & 1u32 == 1u32
}

/// Number of bits set among the lowest `k` bits of `w`.
pub open spec fn word_ones(w: u32, k: nat) -> nat
    decreases k,
{
    if k == 0 {
        0
    } else {
        word_ones(w, (k - 1) as nat) + if (w >> ((k - 1) as u32)) & 1u32 == 1u32 {
            1nat
        } else {
            0nat
        }
    }
}

/// Number of bits set among all the words.
pub open spec fn total_ones(words: Seq<u32>) -> nat
    decreases words.len(),
{
    if words.len() == 0 {
        0
    } else {
        total_ones(words.drop_last()) + word_ones(words.last(), 32)
    }
}

/// A set of bits stored in 32-bit words, as the game stores tags.
pub struct BitSet<const N: usize>(pub [u32; N]);

proof fn lemma_word_update(w: u32, k: u32, value: bool, j: u32)
    requires
        k < 32,
        j < 32,
    ensures
        ((if value { w | (1u32 << k) } else { w & !(1u32 << k) }) >> j) & 1u32 == 1u32 <==> (if j
            == k {
            value
        } else {
            (w >> j) & 1u32 == 1u32
        }),
{
    if value {
        assert((((w | (1u32 << k)) >> j) & 1u32 == 1u32) <==> (if j == k { true } else { (w >> j) & 1u32 == 1u32 })) by (bit_vector)
            requires
                k < 32,
                j < 32,
        ;
    } else {
        assert((((w & !(1u32 << k)) >> j) & 1u32 == 1u32) <==> (if j == k { false } else { (w >> j) & 1u32 == 1u32 })) by (bit_vector)
            requires
                k < 32,
                j < 32,
        ;
    }
}

fn word_count(w: u32) -> (r: u32)
    ensures
        r == word_ones(w, 32),
        r <= 32,
{
    let mut n: u32 = 0;
    let mut k: u32 = 0;
    while k < 32
        invariant
            k <= 32,
            n == word_ones(w, k as nat),
            n <= k,
        decreases 32 - k,
    {
        if (w >> k) & 1 == 1 {
            n = n + 1;
        }
        k = k + 1;
    }
    n
}

proof fn lemma_total_ones_bound(words: Seq<u32>)
    ensures
        total_ones(words) <= 32 * words.len(),
    decreases words.len(),
{
    if words.len() > 0 {
        lemma_total_ones_bound(words.drop_last());
        lemma_word_ones_bound(words.last(), 32);
    }
}

proof fn lemma_word_ones_bound(w: u32, k: nat)
    ensures
        word_ones(w, k) <= k,
    decreases k,
{
    if k > 0 {
        lemma_word_ones_bound(w, (k - 1) as nat);
    }
}

fn count_words(words: &[u32]) -> (r: usize)
    requires
        words@.len() <= 16,
    ensures
        r == total_ones(words@),
{
    let mut n: usize = 0;
    let mut i: usize = 0;
    while i < words.len()
        invariant
            i <= words@.len() <= 16,
            n == total_ones(words@.take(i as int)),
            n <= 32 * i,
        decreases words@.len() - i,
    {
        let c = word_count(words[i]);
        proof {
            assert(words@.take(i + 1).drop_last() =~= words@.take(i as int));
        }
        n = n + c as usize;
        i = i + 1;
    }
    assert(words@.take(i as int) =~= words@);
    n
}

/// The tags a tag manager knows, and the bit each of them takes.
pub struct TagManager<T> {
    pub tags: StdVec<StdString>,
    pub tag_indices: StdMap<StdString, T>,
    pub max_tag_count: usize,
    pub name: StdString,
}

impl BitSet<16> {
    /// Whether bit `n` is set.
    pub fn get(&self, n: u16) -> (r: bool)
        requires
            n < 16 * 32,
        ensures
            r == set_bit(self.0@, n as int),
    {
        let w = self.0[(n / 32) as usize];
        let k = (n % 32) as u32;
        assert((w & (1u32 << k) != 0) == ((w >> k) & 1u32 == 1u32)) by (bit_vector)
            requires
                k < 32,
        ;
        w & (1u32 << k) != 0
    }

    /// Sets bit `n` to `value`.
    pub fn set(&mut self, n: u16, value: bool)
        requires
            n < 16 * 32,
        ensures
            forall|m: int| 0 <= m < 16 * 32 ==> #[trigger] set_bit(final(self).0@, m) == if m == n {
                value
            } else {
                set_bit(old(self).0@, m)
            },
    {
        let i = (n / 32) as usize;
        let k = (n % 32) as u32;
        let w = self.0[i];
        let nw = if value {
            w | (1u32 << k)
        } else {
            w & !(1u32 << k)
        };
        self.0[i] = nw;
        assert forall|m: int| 0 <= m < 16 * 32 implies #[trigger] set_bit(self.0@, m) == if m == n {
            value
        } else {
            set_bit(old(self).0@, m)
        } by {
            if m / 32 == i as int {
                lemma_word_update(w, k, value, (m % 32) as u32);
            }
        }
    }

    /// Number of bits set.
    pub fn count(&self) -> (r: usize)
        ensures
            r == total_ones(self.0@),
    {
        count_words(self.0.as_slice())
    }

    /// Whether the tag, as the manager numbers it, is set; false for a tag the
    /// manager does not know.
    pub fn has_tag(&self, tag_manager: &TagManager<u16>, tag: &StdString) -> (r: bool)
        requires
            tag_manager.tag_indices.keys_wf(),
            tag.wf(),
            forall|i: int| 0 <= i < tag_manager.tag_indices@.len() ==> (#[trigger] tag_manager.tag_indices@[i]).1 < 16 * 32,
        ensures
            r == (match first_key_from(tag_manager.tag_indices@, tag.content(), 0) {
                Some(i) => set_bit(self.0@, tag_manager.tag_indices@[i].1 as int),
                None => false,
            }),
    {
        proof {
            lemma_first_key_in_range(tag_manager.tag_indices@, tag.content(), 0);
        }
        match tag_manager.tag_indices.get(tag) {
            Some(n) => self.get(*n),
            None => false,
        }
    }

    /// The tags the manager knows whose bit is set, in the manager's order.
    pub fn get_tags<'a>(&self, tag_manager: &'a TagManager<u16>) -> (r: Vec<&'a StdString>)
        requires
            forall|i: int| 0 <= i < tag_manager.tag_indices@.len() ==> (#[trigger] tag_manager.tag_indices@[i]).1 < 16 * 32,
        ensures
            r@.len() == kept_keys(tag_manager.tag_indices@, |t: u16| set_bit(self.0@, t as int)).len(),
            forall|i: int| 0 <= i < r@.len() ==> *#[trigger] r@[i] == kept_keys(
                tag_manager.tag_indices@,
                |t: u16| set_bit(self.0@, t as int),
            )[i],
    {
        let ghost keep = |t: u16| set_bit(self.0@, t as int);
        let entries = tag_manager.tag_indices.iter();
        let mut out: Vec<&'a StdString> = Vec::new();
        let mut i: usize = 0;
        while i < entries.len()
            invariant
                entries@ == tag_manager.tag_indices@,
                keep == (|t: u16| set_bit(self.0@, t as int)),
                i <= entries@.len(),
                forall|j: int| 0 <= j < entries@.len() ==> (#[trigger] entries@[j]).1 < 16 * 32,
                out@.len() == kept_keys(entries@.take(i as int), keep).len(),
                forall|k: int| 0 <= k < out@.len() ==> *#[trigger] out@[k] == kept_keys(entries@.take(i as int), keep)[k],
            decreases entries@.len() - i,
        {
            assert(entries@[i as int].1 < 16 * 32);
            proof {
                assert(entries@.take(i + 1).drop_last() =~= entries@.take(i as int));
            }
            let ghost before = out@;
            if self.get(entries[i].1) {
                out.push(&entries[i].0);
            }
            proof {
                assert forall|k: int| 0 <= k < out@.len() implies *#[trigger] out@[k] == kept_keys(entries@.take(i + 1), keep)[k] by {
                    if k < before.len() {
                        assert(out@[k] == before[k]);
                    }
                }
            }
            i = i + 1;
        }
        assert(entries@.take(i as int) =~= entries@);
        out
    }
}

impl BitSet<8> {
    /// Whether bit `n` is set.
    pub fn get(&self, n: u8) -> (r: bool)
        ensures
            r == set_bit(self.0@, n as int),
    {
        let w = self.0[(n / 32) as usize];
        let k = (n % 32) as u32;
        assert((w & (1u32 << k) != 0) == ((w >> k) & 1u32 == 1u32)) by (bit_vector)
            requires
                k < 32,
        ;
        w & (1u32 << k) != 0
    }

    /// Sets bit `n` to `value`.
    pub fn set(&mut self, n: u8, value: bool)
        ensures
            forall|m: int| 0 <= m < 8 * 32 ==> #[trigger] set_bit(final(self).0@, m) == if m == n {
                value
            } else {
                set_bit(old(self).0@, m)
            },
    {
        let i = (n / 32) as usize;
        let k = (n % 32) as u32;
        let w = self.0[i];
        let nw = if value {
            w | (1u32 << k)
        } else {
            w & !(1u32 << k)
        };
        self.0[i] = nw;
        assert forall|m: int| 0 <= m < 8 * 32 implies #[trigger] set_bit(self.0@, m) == if m == n {
            value
        } else {
            set_bit(old(self).0@, m)
        } by {
            if m / 32 == i as int {
                lemma_word_update(w, k, value, (m % 32) as u32);
            }
        }
    }

    /// Number of bits set.
    pub fn count(&self) -> (r: usize)
        ensures
            r == total_ones(self.0@),
    {
        count_words(self.0.as_slice())
    }

    /// Whether the tag, as the manager numbers it, is set; false for a tag the
    /// manager does not know.
    pub fn has_tag(&self, tag_manager: &TagManager<u8>, tag: &StdString) -> (r: bool)
        requires
            tag_manager.tag_indices.keys_wf(),
            tag.wf(),
        ensures
            r == (match first_key_from(tag_manager.tag_indices@, tag.content(), 0) {
                Some(i) => set_bit(self.0@, tag_manager.tag_indices@[i].1 as int),
                None => false,
            }),
    {
        proof {
            lemma_first_key_in_range(tag_manager.tag_indices@, tag.content(), 0);
        }
        match tag_manager.tag_indices.get(tag) {
            Some(n) => self.get(*n),
            None => false,
        }
    }

    /// Sets the tag's bit, when the manager knows the tag.
    pub fn add_tag(&mut self, tag_manager: &mut TagManager<u8>, tag: &StdString)
        requires
            old(tag_manager).tag_indices.keys_wf(),
            tag.wf(),
        ensures
            *final(tag_manager) == *old(tag_manager),
            forall|m: int| 0 <= m < 8 * 32 ==> #[trigger] set_bit(final(self).0@, m) == (match first_key_from(old(tag_manager).tag_indices@, tag.content(), 0) {
                Some(i) => m == old(tag_manager).tag_indices@[i].1 || set_bit(old(self).0@, m),
                None => set_bit(old(self).0@, m),
            }),
    {
        match tag_manager.tag_indices.get(tag) {
            Some(n) => self.set(*n, true),
            None => {},
        }
    }

    /// Clears the tag's bit, when the manager knows the tag.
    pub fn remove_tag(&mut self, tag_manager: &TagManager<u8>, tag: &StdString)
        requires
            tag_manager.tag_indices.keys_wf(),
            tag.wf(),
        ensures
            forall|m: int| 0 <= m < 8 * 32 ==> #[trigger] set_bit(final(self).0@, m) == (match first_key_from(tag_manager.tag_indices@, tag.content(), 0) {
                Some(i) => m != tag_manager.tag_indices@[i].1 && set_bit(old(self).0@, m),
                None => set_bit(old(self).0@, m),
            }),
    {
        match tag_manager.tag_indices.get(tag) {
            Some(n) => self.set(*n, false),
            None => {},
        }
    }

    /// The tags the manager knows whose bit is set, in the manager's order.
    pub fn get_tags<'a>(&self, tag_manager: &'a TagManager<u8>) -> (r: Vec<&'a StdString>)
        ensures
            r@.len() == kept_keys(tag_manager.tag_indices@, |t: u8| set_bit(self.0@, t as int)).len(),
            forall|i: int| 0 <= i < r@.len() ==> *#[trigger] r@[i] == kept_keys(
                tag_manager.tag_indices@,
                |t: u8| set_bit(self.0@, t as int),
            )[i],
    {
        let ghost keep = |t: u8| set_bit(self.0@, t as int);
        let entries = tag_manager.tag_indices.iter();
        let mut out: Vec<&'a StdString> = Vec::new();
        let mut i: usize = 0;
        while i < entries.len()
            invariant
                entries@ == tag_manager.tag_indices@,
                keep == (|t: u8| set_bit(self.0@, t as int)),
                i <= entries@.len(),
                out@.len() == kept_keys(entries@.take(i as int), keep).len(),
                forall|k: int| 0 <= k < out@.len() ==> *#[trigger] out@[k] == kept_keys(entries@.take(i as int), keep)[k],
            decreases entries@.len() - i,
        {
            proof {
                assert(entries@.take(i + 1).drop_last() =~= entries@.take(i as int));
            }
            let ghost before = out@;
            if self.get(entries[i].1) {
                out.push(&entries[i].0);
            }
            proof {
                assert forall|k: int| 0 <= k < out@.len() implies *#[trigger] out@[k] == kept_keys(entries@.take(i + 1), keep)[k] by {
                    if k < before.len() {
                        assert(out@[k] == before[k]);
                    }
                }
            }
            i = i + 1;
        }
        assert(entries@.take(i as int) =~= entries@);
        out
    }
}

impl<const N: usize> Default for BitSet<N> {
    fn default() -> (r: Self)
        ensures
            forall|i: int| 0 <= i < N ==> #[trigger] r.0@[i] == 0,
    {
        BitSet([0u32; N])
    }
}

} // verus!
