//! Bearer capabilities of registered channels.

use crate::keys::{copy_bytes, same_bytes};
use crate::text::{copy, hex_digit, hex_text};
use rand::rand_core::UnwrapErr;
use rand::rngs::SysRng;
use rand::Rng;
use vstd::prelude::*;

verus! {

/// Bytes of a capability's secret.
pub const SECRET_SIZE: usize = 32;

/// `Rng::fill_bytes` over the operating system's generator, `SysRng`, fills 32
/// bytes; which ones is left to chance. A system that cannot supply random bytes
/// ends the process.
#[verifier::external_body]
fn random_secret() -> (secret: Vec<u8>)
    ensures
        secret.len() == SECRET_SIZE,
{
    let mut secret = [0u8; 32];
    UnwrapErr(SysRng).fill_bytes(&mut secret);
    secret.to_vec()
}

fn digit(d: u8) -> (c: char)
    requires
        d < 16,
    ensures
        c == hex_digit(d as nat),
{
    let code: u8 = if d < 10 {
        48 + d
    } else {
        87 + d
    };
    code as char
}

/// Two lowercase hexadecimal digits per byte.
pub fn hex_lower(bytes: &[u8]) -> (encoded: String)
    ensures
        encoded@ == hex_text(bytes@),
{
    let mut encoded = String::new();
    let mut i: usize = 0;
    while i < bytes.len()
        invariant
            i <= bytes.len(),
            encoded@ == hex_text(bytes@.take(i as int)),
        decreases bytes.len() - i,
    {
        let ghost before = encoded@;
        encoded.push(digit(bytes[i] / 16));
        encoded.push(digit(bytes[i] % 16));
        i = i + 1;
        proof {
            let longer = bytes@.take(i as int);
            let shorter = bytes@.take(i - 1);
            assert forall|k: int| 0 <= k < encoded@.len() implies encoded@[k] == hex_text(
                longer,
            )[k] by {
                if k < before.len() {
                    assert(hex_text(shorter)[k] == before[k]);
                    assert(longer[k / 2] == shorter[k / 2]);
                }
            }
            assert(encoded@ =~= hex_text(longer));
        }
    }
    assert(bytes@.take(bytes@.len() as int) =~= bytes@);
    encoded
}

/// Different byte strings have different hexadecimal texts.
pub proof fn hex_text_is_injective(a: Seq<u8>, b: Seq<u8>)
    requires
        hex_text(a) == hex_text(b),
    ensures
        a == b,
{
    crate::text::hex_round_trip(a);
    crate::text::hex_round_trip(b);
}

/// Whether `text` is a capability: 256 bits in hexadecimal.
pub open spec fn is_capability(text: Seq<char>) -> bool {
    exists|secret: Seq<u8>| secret.len() == SECRET_SIZE && text == #[trigger] hex_text(secret)
}

/// Fresh bearer material.
pub fn generate_capability() -> (capability: String)
    ensures
        is_capability(capability@),
        capability@.len() == 64,
{
    let secret = random_secret();
    let capability = hex_lower(secret.as_slice());
    assert(capability@ == hex_text(secret@));
    capability
}

proof fn lemma_difference(difference: u8, left: u8, right: u8)
    ensures
        (difference | (left ^ right)) == 0u8 <==> difference == 0u8 && left == right,
{
    assert((difference | (left ^ right)) == 0u8 <==> difference == 0u8 && left == right)
        by (bit_vector);
}

/// Whether the presented secret is the expected one. Every byte of two texts of
/// the same length is looked at, wherever they differ first.
pub fn capability_matches(expected: &str, presented: &str) -> (matched: bool)
    ensures
        matched == (expected@ == presented@),
{
    let a = expected.as_bytes();
    let b = presented.as_bytes();
    proof {
        vstd::utf8::encode_utf8_decode_utf8(expected@);
        vstd::utf8::encode_utf8_decode_utf8(presented@);
    }
    if a.len() != b.len() {
        return false;
    }
    let mut difference: u8 = 0;
    let mut i: usize = 0;
    while i < a.len()
        invariant
            i <= a.len(),
            a.len() == b.len(),
            difference == 0 <==> forall|j: int| 0 <= j < i ==> a@[j] == b@[j],
        decreases a.len() - i,
    {
        proof {
            lemma_difference(difference, a@[i as int], b@[i as int]);
        }
        difference = difference | (a[i] ^ b[i]);
        i = i + 1;
    }
    proof {
        if difference == 0 {
            assert(a@ =~= b@);
        }
    }
    difference == 0
}

/// The capabilities once `channel` asked for one, where `fresh` is at hand.
pub open spec fn issued_after(
    issued: Map<Seq<u8>, Seq<char>>,
    channel: Seq<u8>,
    fresh: Seq<char>,
) -> Map<Seq<u8>, Seq<char>> {
    if issued.contains_key(channel) {
        issued
    } else {
        issued.insert(channel, fresh)
    }
}

/// Whether `presented` is the capability that was issued for `channel`.
pub open spec fn is_authorized(
    issued: Map<Seq<u8>, Seq<char>>,
    channel: Seq<u8>,
    presented: Seq<char>,
) -> bool {
    issued.contains_key(channel) && issued[channel] == presented
}

/// The capabilities of registered channels, by channel.
pub struct Capabilities {
    pub channels: Vec<Vec<u8>>,
    pub issued: Vec<String>,
}

impl View for Capabilities {
    type V = Map<Seq<u8>, Seq<char>>;

    open spec fn view(&self) -> Map<Seq<u8>, Seq<char>> {
        Map::new(
            |c: Seq<u8>|
                exists|i: int|
                    0 <= i < self.channels@.len() && (#[trigger] self.channels@[i])@ == c,
            |c: Seq<u8>|
                self.issued@[choose|i: int|
                    0 <= i < self.channels@.len() && (#[trigger] self.channels@[i])@ == c]@,
        )
    }
}

impl Capabilities {
    /// Every channel has one capability.
    pub open spec fn wf(&self) -> bool {
        &&& self.channels@.len() == self.issued@.len()
        &&& forall|i: int, j: int|
            0 <= i < j < self.channels@.len() ==> (#[trigger] self.channels@[i])@ != (
            #[trigger] self.channels@[j])@
    }

    proof fn lemma_at(&self, i: int)
        requires
            self.wf(),
            0 <= i < self.channels@.len(),
        ensures
            self@.contains_key(self.channels@[i]@),
            self@[self.channels@[i]@] == self.issued@[i]@,
    {
        let c = self.channels@[i]@;
        let k = choose|k: int| 0 <= k < self.channels@.len() && (#[trigger] self.channels@[k])@ == c;
        assert(self.channels@[i]@ == c);
        assert(k == i) by {
            if k < i {
                assert(self.channels@[k]@ != self.channels@[i]@);
            } else if i < k {
                assert(self.channels@[i]@ != self.channels@[k]@);
            }
        }
    }

    /// No capabilities.
    pub fn new() -> (capabilities: Self)
        ensures
            capabilities.wf(),
            capabilities@ == Map::<Seq<u8>, Seq<char>>::empty(),
    {
        let capabilities = Capabilities { channels: Vec::new(), issued: Vec::new() };
        assert(capabilities@ =~= Map::<Seq<u8>, Seq<char>>::empty());
        capabilities
    }

    fn find(&self, channel: &Vec<u8>) -> (found: Option<usize>)
        requires
            self.wf(),
        ensures
            match found {
                Some(i) => i < self.channels@.len() && self.channels@[i as int]@ == channel@
                    && self@.contains_key(channel@) && self@[channel@] == self.issued@[i as int]@,
                None => !self@.contains_key(channel@),
            },
    {
        let mut i: usize = 0;
        while i < self.channels.len()
            invariant
                self.wf(),
                i <= self.channels.len(),
                forall|j: int| 0 <= j < i ==> (#[trigger] self.channels@[j])@ != channel@,
            decreases self.channels.len() - i,
        {
            if same_bytes(&self.channels[i], channel) {
                proof {
                    self.lemma_at(i as int);
                }
                return Some(i);
            }
            i = i + 1;
        }
        None
    }

    /// The capability of `channel`: the one it was issued before, or `fresh`.
    pub fn issue(&mut self, channel: &Vec<u8>, fresh: String) -> (capability: String)
        requires
            old(self).wf(),
        ensures
            final(self).wf(),
            final(self)@ == issued_after(old(self)@, channel@, fresh@),
            capability@ == final(self)@[channel@],
    {
        if let Some(i) = self.find(channel) {
            return copy(self.issued[i].as_str());
        }
        let ghost before = *self;
        let capability = copy(fresh.as_str());
        self.channels.push(copy_bytes(channel));
        self.issued.push(fresh);
        proof {
            let n = before.channels@.len() as int;
            assert(self.channels@[n]@ == channel@);
            assert forall|i: int, j: int| 0 <= i < j < self.channels@.len() implies (
            #[trigger] self.channels@[i])@ != (#[trigger] self.channels@[j])@ by {
                assert(self.channels@[i] == before.channels@[i]);
                if j < n {
                    assert(self.channels@[j] == before.channels@[j]);
                } else {
                    assert(before.channels@[i]@ != channel@);
                }
            }
            self.lemma_at(n);
            assert forall|c: Seq<u8>| #[trigger] self@.contains_key(c) <==> before@.contains_key(c)
                || c == channel@ by {
                if before@.contains_key(c) {
                    let i = choose|i: int|
                        0 <= i < before.channels@.len() && (#[trigger] before.channels@[i])@ == c;
                    assert(self.channels@[i]@ == c);
                }
                if self@.contains_key(c) {
                    let i = choose|i: int|
                        0 <= i < self.channels@.len() && (#[trigger] self.channels@[i])@ == c;
                    if i < n {
                        assert(before.channels@[i]@ == c);
                    }
                }
            }
            assert forall|c: Seq<u8>| #[trigger] before@.contains_key(c) implies self@[c]
                == before@[c] by {
                let i = choose|i: int|
                    0 <= i < before.channels@.len() && (#[trigger] before.channels@[i])@ == c;
                before.lemma_at(i);
                self.lemma_at(i);
                assert(self.channels@[i] == before.channels@[i]);
            }
            assert(self@ =~= before@.insert(channel@, fresh@));
        }
        capability
    }

    /// The capability of `channel`, fresh for a channel that has none. A
    /// registration that is replayed keeps the one it has.
    pub fn issue_capability(&mut self, channel: &Vec<u8>) -> (capability: String)
        requires
            old(self).wf(),
        ensures
            final(self).wf(),
            capability@ == final(self)@[channel@],
            old(self)@.contains_key(channel@) ==> final(self)@ == old(self)@,
            !old(self)@.contains_key(channel@) ==> is_capability(capability@) && final(self)@
                == old(self)@.insert(channel@, capability@),
            final(self)@ == issued_after(old(self)@, channel@, capability@),
    {
        let fresh = generate_capability();
        self.issue(channel, fresh)
    }

    /// Whether `presented` is the capability of `channel`.
    pub fn authorizes(&self, channel: &Vec<u8>, presented: &str) -> (authorized: bool)
        requires
            self.wf(),
        ensures
            authorized == is_authorized(self@, channel@, presented@),
    {
        match self.find(channel) {
            None => false,
            Some(i) => capability_matches(self.issued[i].as_str(), presented),
        }
    }
}

/// What was issued for a channel authorizes it, and nothing else does.
pub proof fn issued_capability_authorizes(
    issued: Map<Seq<u8>, Seq<char>>,
    channel: Seq<u8>,
    fresh: Seq<char>,
    presented: Seq<char>,
)
    requires
        !issued.contains_key(channel),
    ensures
        ({
            let after = issued.insert(channel, fresh);
            after.contains_key(channel) && (after[channel] == presented <==> presented == fresh)
        }),
{
}

/// A channel is authorized by exactly one text once it asked for a capability:
/// the one it had before or, where it had none, the fresh one. Asking again
/// changes nothing, and what another channel has does not change either. A
/// channel that never asked is authorized by nothing.
pub proof fn capabilities_stay_with_their_channel(
    issued: Map<Seq<u8>, Seq<char>>,
    channel: Seq<u8>,
    fresh: Seq<char>,
    again: Seq<char>,
    other: Seq<u8>,
    presented: Seq<char>,
)
    ensures
        ({
            let after = issued_after(issued, channel, fresh);
            &&& !issued.contains_key(channel) ==> (is_authorized(after, channel, presented)
                <==> presented == fresh)
            &&& issued.contains_key(channel) ==> (is_authorized(after, channel, presented)
                <==> presented == issued[channel])
            &&& issued_after(after, channel, again) == after
            &&& other != channel ==> (is_authorized(after, other, presented) <==> is_authorized(
                issued,
                other,
                presented,
            ))
            &&& !is_authorized(Map::empty(), channel, presented)
        }),
{
}

/// A capability is 64 hexadecimal digits that spell 256 bits.
pub proof fn capabilities_spell_their_secret(text: Seq<char>)
    requires
        is_capability(text),
    ensures
        text.len() == 64,
        crate::text::parse_hex(text) is Some,
        crate::text::parse_hex(text)->0.len() == 32,
{
    let secret = choose|secret: Seq<u8>|
        secret.len() == SECRET_SIZE && text == #[trigger] hex_text(secret);
    crate::text::hex_round_trip(secret);
}

} // verus!
