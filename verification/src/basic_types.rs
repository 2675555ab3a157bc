//! Basic values shared by the game side and the proxy: positions, peer ids,
//! message destinations, and the positional number parsing they rely on.
use vstd::prelude::*;
use vstd::string::StringSliceAdditionalSpecFns;

verus! {

/// A position in the world, in pixels.
#[derive(Debug, Clone, Copy, PartialEq, Eq, Structural)]
pub struct WorldPos {
    pub x: i32,
    pub y: i32,
}

impl Default for WorldPos {
    fn default() -> (r: Self)
        ensures
            r.x == 0 && r.y == 0,
    {
        WorldPos { x: 0, y: 0 }
    }
}

impl WorldPos {
    /// The coordinates, widened.
    pub fn as_array(&self) -> (r: [i64; 2])
        ensures
            r@ == seq![self.x as i64, self.y as i64],
    {
        let r = [self.x as i64, self.y as i64];
        assert(r@ =~= seq![self.x as i64, self.y as i64]);
        r
    }
}

/// The value of an ASCII digit in the given radix (letters of either case
/// continue the digits after `9`), if it is one.
pub open spec fn digit_of(b: u8, radix: nat) -> Option<nat> {
    let v: int = if 48 <= b <= 57 {
        b - 48
    } else if 97 <= b <= 122 {
        b - 87
    } else if 65 <= b <= 90 {
        b - 55
    } else {
        radix as int
    };
    if v < radix {
        Some(v as nat)
    } else {
        None
    }
}

/// Every byte is a digit in the radix.
pub open spec fn all_digits(s: Seq<u8>, radix: nat) -> bool {
    forall|i: int| 0 <= i < s.len() ==> #[trigger] digit_of(s[i], radix) is Some
}

/// The number the digits stand for, most significant first.
pub open spec fn radix_value(s: Seq<u8>, radix: nat) -> nat
    decreases s.len(),
{
    if s.len() == 0 {
        0
    } else {
        radix_value(s.drop_last(), radix) * radix + match digit_of(s.last(), radix) {
            Some(d) => d,
            None => 0,
        }
    }
}

/// The value of the digits, when they are all digits and the value fits.
pub open spec fn parsed_radix(s: Seq<u8>, radix: nat) -> Option<u64> {
    if all_digits(s, radix) && radix_value(s, radix) <= u64::MAX {
        Some(radix_value(s, radix) as u64)
    } else {
        None
    }
}

/// A longer run of digits is worth at least as much as its prefix.
pub proof fn lemma_radix_value_prefix(s: Seq<u8>, radix: nat, k: int)
    requires
        1 <= radix,
        0 <= k <= s.len(),
    ensures
        radix_value(s.take(k), radix) <= radix_value(s, radix),
    decreases s.len(),
{
    if k == s.len() {
        assert(s.take(k) =~= s);
    } else {
        lemma_radix_value_prefix(s.drop_last(), radix, k);
        assert(s.drop_last().take(k) =~= s.take(k));
        let v = radix_value(s.drop_last(), radix);
        assert(v * radix >= v) by (nonlinear_arith)
            requires
                radix >= 1,
        ;
    }
}

fn digit_value(b: u8, radix: u64) -> (r: Option<u64>)
    requires
        2 <= radix <= 36,
    ensures
        match r {
            Some(d) => digit_of(b, radix as nat) == Some(d as nat),
            None => digit_of(b, radix as nat) is None,
        },
{
    let v: u64 = if 48 <= b && b <= 57 {
        (b - 48) as u64
    } else if 97 <= b && b <= 122 {
        (b - 87) as u64
    } else if 65 <= b && b <= 90 {
        (b - 55) as u64
    } else {
        radix
    };
    if v < radix {
        Some(v)
    } else {
        None
    }
}

/// Parses `bytes[start..end]` as an unsigned number in `radix`; `None` when a
/// byte is not a digit or the value does not fit in 64 bits.
pub fn parse_radix(bytes: &[u8], start: usize, end: usize, radix: u64) -> (r: Option<u64>)
    requires
        start <= end <= bytes@.len(),
        2 <= radix <= 36,
    ensures
        r == parsed_radix(bytes@.subrange(start as int, end as int), radix as nat),
{
    let ghost s = bytes@.subrange(start as int, end as int);
    let mut acc: u64 = 0;
    let mut i: usize = start;
    while i < end
        invariant
            start <= i <= end <= bytes@.len(),
            2 <= radix <= 36,
            s == bytes@.subrange(start as int, end as int),
            all_digits(s.take(i - start), radix as nat),
            acc as nat == radix_value(s.take(i - start), radix as nat),
        decreases end - i,
    {
        let ghost k: int = i - start;
        proof {
            assert(s.take(k + 1).drop_last() =~= s.take(k));
            assert(s.take(k + 1).last() == bytes@[i as int]);
        }
        let d = match digit_value(bytes[i], radix) {
            Some(d) => d,
            None => {
                proof {
                    assert(!all_digits(s, radix as nat)) by {
                        assert(s[k] == bytes@[i as int]);
                    }
                }
                return None;
            },
        };
        let next = match acc.checked_mul(radix) {
            Some(m) => m.checked_add(d),
            None => None,
        };
        match next {
            Some(n) => {
                acc = n;
                i = i + 1;
                proof {
                    assert forall|j: int| 0 <= j < k + 1 implies #[trigger] digit_of(
                        s.take(k + 1)[j],
                        radix as nat,
                    ) is Some by {
                        if j < k {
                            assert(s.take(k + 1)[j] == s.take(k)[j]);
                        }
                    }
                }
            },
            None => {
                proof {
                    assert(radix_value(s.take(k + 1), radix as nat) > u64::MAX) by (nonlinear_arith)
                        requires
                            radix_value(s.take(k + 1), radix as nat) == acc * radix + d,
                            acc * radix > u64::MAX || acc * radix + d > u64::MAX,
                    ;
                    lemma_radix_value_prefix(s, radix as nat, k + 1);
                }
                return None;
            },
        }
    }
    assert(s.take(i - start) =~= s);
    Some(acc)
}

/// Identifier of a peer.
#[derive(Debug, Clone, Copy, Hash, PartialEq, Eq, Structural)]
pub struct PeerId(pub u64);

impl Default for PeerId {
    fn default() -> (r: Self)
        ensures
            r.0 == 0,
    {
        PeerId(0)
    }
}

/// Why a peer id could not be parsed.
#[derive(Debug, Clone, Copy, PartialEq, Eq, Structural)]
pub struct PeerIdParseError;

impl PeerIdParseError {
    /// What the error shows.
    pub fn to_string(&self) -> (r: String)
        ensures
            r@ == "Failed to parse PeerId"@,
    {
        String::from_str("Failed to parse PeerId")
    }
}

/// The peer id that a hexadecimal text stands for: an optional `+`, then at
/// least one hexadecimal digit, with a value that fits in 64 bits.
pub open spec fn peer_id_of_text(b: Seq<u8>) -> Option<u64> {
    let d = if b.len() > 0 && b[0] == 43 {
        b.drop_first()
    } else {
        b
    };
    if d.len() == 0 {
        None
    } else {
        parsed_radix(d, 16)
    }
}

impl PeerId {
    /// Parses a peer id written in hexadecimal.
    pub fn from_hex(hex_str: &str) -> (r: Result<Self, PeerIdParseError>)
        ensures
            match peer_id_of_text(hex_str.spec_bytes()) {
                Some(v) => r == Ok::<PeerId, PeerIdParseError>(PeerId(v)),
                None => r is Err,
            },
    {
        let bytes = hex_str.as_bytes();
        let start: usize = if bytes.len() > 0 && bytes[0] == 43 {
            1
        } else {
            0
        };
        proof {
            if start == 1 {
                assert(bytes@.drop_first() =~= bytes@.subrange(1, bytes@.len() as int));
            } else {
                assert(bytes@ =~= bytes@.subrange(0, bytes@.len() as int));
            }
        }
        if start == bytes.len() {
            return Err(PeerIdParseError);
        }
        match parse_radix(bytes, start, bytes.len(), 16) {
            Some(v) => Ok(PeerId(v)),
            None => Err(PeerIdParseError),
        }
    }
}

/// Where a message goes.
#[derive(Debug, PartialEq, Eq)]
pub enum Destination<P> {
    Peer(P),
    Host,
    Broadcast,
}

impl<T> Destination<T> {
    /// The same destination, with the peer converted.
    pub fn convert<A: From<T>>(self) -> (r: Destination<A>)
        ensures
            match (self, r) {
                (Destination::Peer(p), Destination::Peer(q)) => call_ensures(A::from, (p,), q),
                (Destination::Host, Destination::Host) => true,
                (Destination::Broadcast, Destination::Broadcast) => true,
                _ => false,
            },
    {
        match self {
            Destination::Peer(p) => Destination::Peer(A::from(p)),
            Destination::Host => Destination::Host,
            Destination::Broadcast => Destination::Broadcast,
        }
    }
}

} // verus!
