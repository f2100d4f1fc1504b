//! The allocator of packet identifiers: one bit for each identifier.

use crate::error::{Error, ErrorKind};
use crate::proto::{successor, PacketIdentifier};
use vstd::prelude::*;

verus! {

/// The number of bits in a word of the bit set.
pub open spec fn word_bits() -> int {
    usize::BITS as int
}

/// Whether bit `offset` of `word` is set.
pub open spec fn bit_set(word: usize, offset: int) -> bool {
    word & (1usize << (offset as usize)) != 0
}

proof fn lemma_bit_of_zero(b: usize)
    by (bit_vector)
    requires
        b < usize::BITS,
    ensures
        0usize & (1usize << b) == 0,
{
}

proof fn lemma_bit_after_set(w: usize, a: usize, b: usize)
    by (bit_vector)
    requires
        a < usize::BITS,
        b < usize::BITS,
    ensures
        ((w | (1usize << a)) & (1usize << b) != 0) == (a == b || (w & (1usize << b)) != 0),
{
}

proof fn lemma_bit_after_clear(w: usize, a: usize, b: usize)
    by (bit_vector)
    requires
        a < usize::BITS,
        b < usize::BITS,
    ensures
        ((w & !(1usize << a)) & (1usize << b) != 0) == (a != b && (w & (1usize << b)) != 0),
{
}

/// An identifier is told apart by its word and its offset in the word.
proof fn lemma_same_place(a: int, b: int)
    requires
        0 <= a,
        0 <= b,
        a / word_bits() == b / word_bits(),
        a % word_bits() == b % word_bits(),
    ensures
        a == b,
{
    if usize::BITS == 32 {
        assert(a == 32 * (a / 32) + a % 32);
        assert(b == 32 * (b / 32) + b % 32);
    } else {
        assert(a == 64 * (a / 64) + a % 64);
        assert(b == 64 * (b / 64) + b % 64);
    }
}

/// Every 16-bit value has a word in the bit set and an offset in that word.
proof fn lemma_place(id: int)
    requires
        0 <= id < 65536,
    ensures
        PacketIdentifiers::SIZE * word_bits() == 65536,
        0 <= id / word_bits() < PacketIdentifiers::SIZE,
        0 <= id % word_bits() < word_bits(),
{
    let bits = word_bits();
    assert(PacketIdentifiers::SIZE == 65536int / bits);
    assert(bits == 32 || bits == 64);
    if bits == 32 {
        assert(65536int / bits == 2048) by (nonlinear_arith)
            requires
                bits == 32,
        ;
    } else {
        assert(65536int / bits == 1024) by (nonlinear_arith)
            requires
                bits == 64,
        ;
    }
}

/// The mathematical content of a [`PacketIdentifiers`]: the identifiers that
/// are reserved, and the identifier that was handed out last.
pub struct PacketIdentifiersView {
    pub reserved: Set<u16>,
    pub previous: u16,
}

/// One request to the allocator.
pub enum Request {
    Reserve,
    Discard(u16),
}

impl PacketIdentifiersView {
    /// Nothing reserved, and 1 next in line.
    pub open spec fn empty() -> Self {
        PacketIdentifiersView { reserved: Set::<u16>::empty(), previous: u16::MAX }
    }

    /// The identifier that the next `reserve` looks at.
    pub open spec fn candidate(self) -> u16 {
        successor(self.previous)
    }

    /// The identifier that `reserve` hands out: the candidate, unless it is
    /// reserved already.
    pub open spec fn grant(self) -> Option<u16> {
        if self.reserved.contains(self.candidate()) {
            None
        } else {
            Some(self.candidate())
        }
    }

    /// The allocator after `reserve`.
    pub open spec fn after_reserve(self) -> Self {
        match self.grant() {
            Some(id) => PacketIdentifiersView { reserved: self.reserved.insert(id), previous: id },
            None => self,
        }
    }

    /// The allocator after `discard(id)`.
    pub open spec fn after_discard(self, id: u16) -> Self {
        PacketIdentifiersView { reserved: self.reserved.remove(id), ..self }
    }

    /// The allocator after one request.
    pub open spec fn after(self, request: Request) -> Self {
        match request {
            Request::Reserve => self.after_reserve(),
            Request::Discard(id) => self.after_discard(id),
        }
    }

    /// The allocator after a list of requests, taken in order.
    pub open spec fn after_all(self, requests: Seq<Request>) -> Self
        decreases requests.len(),
    {
        if requests.len() == 0 {
            self
        } else {
            self.after_all(requests.drop_last()).after(requests.last())
        }
    }

    /// How often `id` is handed out over a list of requests.
    pub open spec fn times_granted(self, requests: Seq<Request>, id: u16) -> nat
        decreases requests.len(),
    {
        if requests.len() == 0 {
            0
        } else {
            let before = self.after_all(requests.drop_last());
            let earlier = self.times_granted(requests.drop_last(), id);
            if requests.last() is Reserve && before.grant() == Some(id) {
                earlier + 1
            } else {
                earlier
            }
        }
    }

    /// How often `id` is given back over a list of requests. A discard of
    /// an identifier that is not reserved gives nothing back.
    pub open spec fn times_released(self, requests: Seq<Request>, id: u16) -> nat
        decreases requests.len(),
    {
        if requests.len() == 0 {
            0
        } else {
            let before = self.after_all(requests.drop_last());
            let earlier = self.times_released(requests.drop_last(), id);
            if requests.last() == Request::Discard(id) && before.reserved.contains(id) {
                earlier + 1
            } else {
                earlier
            }
        }
    }

    /// How often a discard in the list of requests names `id`, whether or
    /// not `id` is reserved at the time.
    pub open spec fn times_discarded(requests: Seq<Request>, id: u16) -> nat
        decreases requests.len(),
    {
        if requests.len() == 0 {
            0
        } else if requests.last() == Request::Discard(id) {
            Self::times_discarded(requests.drop_last(), id) + 1
        } else {
            Self::times_discarded(requests.drop_last(), id)
        }
    }

    /// Every discard in the list of requests names an identifier that is
    /// reserved when the discard is made.
    pub open spec fn discards_only_reserved(self, requests: Seq<Request>) -> bool
        decreases requests.len(),
    {
        if requests.len() == 0 {
            true
        } else {
            &&& self.discards_only_reserved(requests.drop_last())
            &&& requests.last() matches Request::Discard(id) ==> self.after_all(
                requests.drop_last(),
            ).reserved.contains(id)
        }
    }

    /// 1 if `id` is reserved, else 0.
    pub open spec fn multiplicity(self, id: u16) -> nat {
        if self.reserved.contains(id) {
            1
        } else {
            0
        }
    }

    /// Over any list of requests, an identifier is reserved as often as it
    /// was reserved at the start, plus the times it was handed out, minus
    /// the times it was given back; and that is never more than once.
    pub proof fn lemma_reserved_is_granted_minus_released(
        self,
        requests: Seq<Request>,
        id: u16,
    )
        ensures
            self.after_all(requests).multiplicity(id) == self.multiplicity(id)
                + self.times_granted(requests, id) - self.times_released(requests, id),
            self.after_all(requests).multiplicity(id) <= 1,
        decreases requests.len(),
    {
        if requests.len() > 0 {
            self.lemma_reserved_is_granted_minus_released(requests.drop_last(), id);
        }
    }

    /// Where no discard names a free identifier, the reserved identifiers
    /// are the reserves minus the discards: an identifier is reserved as
    /// often as it was at the start, plus the times it was handed out, minus
    /// the times it was discarded.
    pub proof fn lemma_reserved_is_reserves_minus_discards(
        self,
        requests: Seq<Request>,
        id: u16,
    )
        requires
            self.discards_only_reserved(requests),
        ensures
            self.times_released(requests, id) == Self::times_discarded(requests, id),
            self.after_all(requests).multiplicity(id) == self.multiplicity(id)
                + self.times_granted(requests, id) - Self::times_discarded(requests, id),
        decreases requests.len(),
    {
        if requests.len() > 0 {
            self.lemma_reserved_is_reserves_minus_discards(requests.drop_last(), id);
        }
        self.lemma_reserved_is_granted_minus_released(requests, id);
    }

    /// From an empty allocator, the reserved identifiers are those handed
    /// out more often than given back, each of them exactly once more.
    pub proof fn lemma_reserved_from_empty(requests: Seq<Request>, id: u16)
        ensures
            Self::empty().after_all(requests).reserved.contains(id)
                <==> Self::empty().times_granted(requests, id)
                == Self::empty().times_released(requests, id) + 1,
            !Self::empty().after_all(requests).reserved.contains(id)
                <==> Self::empty().times_granted(requests, id)
                == Self::empty().times_released(requests, id),
    {
        Self::empty().lemma_reserved_is_granted_minus_released(requests, id);
    }

    /// No list of requests makes 0 a reserved identifier, if it was not one
    /// at the start, and no `reserve` hands out 0 or a reserved identifier.
    pub proof fn lemma_never_zero(self, requests: Seq<Request>)
        requires
            !self.reserved.contains(0),
        ensures
            !self.after_all(requests).reserved.contains(0),
            self.after_all(requests).grant() matches Some(id) ==> id != 0 && !self.after_all(
                requests,
            ).reserved.contains(id),
        decreases requests.len(),
    {
        if requests.len() > 0 {
            self.lemma_never_zero(requests.drop_last());
        }
    }
}

/// Which packet identifiers are in use: a bit set over all 16-bit values,
/// with a cursor on the identifier that was handed out last.
///
/// Identifier `id` has bit `id % W` of word `id / W`, where `W` is the number
/// of bits in a `usize`. The bit of 0 is never set.
pub struct PacketIdentifiers {
    in_use: Vec<usize>,
    previous: PacketIdentifier,
}

impl View for PacketIdentifiers {
    type V = PacketIdentifiersView;

    closed spec fn view(&self) -> PacketIdentifiersView {
        PacketIdentifiersView {
            reserved: Set::new(|id: u16| self.reserved_bit(id as int)),
            previous: self.previous@,
        }
    }
}

impl PacketIdentifiers {
    /// The number of words in the bit set: one bit for each 16-bit value.
    pub const SIZE: usize = 65536 / (usize::BITS as usize);

    /// Whether the bit of `id` is set.
    spec fn reserved_bit(&self, id: int) -> bool {
        bit_set(self.in_use@[id / word_bits()], id % word_bits())
    }

    /// The bit set has a bit for each identifier, and the bit of 0 is clear.
    pub closed spec fn wf(&self) -> bool {
        &&& self.in_use@.len() == Self::SIZE
        &&& !self.reserved_bit(0)
    }

    /// An allocator with nothing reserved; the first identifier that it
    /// hands out is 1.
    pub fn new() -> (ids: PacketIdentifiers)
        ensures
            ids.wf(),
            ids@ == PacketIdentifiersView::empty(),
    {
        let ids = PacketIdentifiers {
            in_use: vec![0usize; PacketIdentifiers::SIZE],
            previous: PacketIdentifier::max_value(),
        };
        proof {
            assert forall|id: u16| !ids.reserved_bit(id as int) by {
                let offset = (id as int % word_bits()) as usize;
                lemma_place(id as int);
                lemma_bit_of_zero(offset);
            }
            assert(ids@.reserved =~= Set::<u16>::empty());
        }
        ids
    }

    /// The word that holds the bit of `id`, and the bit within the word.
    fn entry(packet_identifier: PacketIdentifier) -> (place: (usize, usize))
        ensures
            place.0 == packet_identifier@ as int / word_bits(),
            place.0 < Self::SIZE,
            place.1 == 1usize << ((packet_identifier@ as int % word_bits()) as usize),
    {
        let id = packet_identifier.get() as usize;
        let bits = usize::BITS as usize;
        proof {
            lemma_place(id as int);
        }
        let block = id / bits;
        let offset = id % bits;
        (block, 1usize << offset)
    }

    /// Hands out the identifier after the one handed out last, going from
    /// 65535 on to 1. If that identifier is still reserved, nothing changes
    /// and the call fails with `PacketIdentifiersExhausted`, whether or not
    /// other identifiers are free.
    pub fn reserve(&mut self) -> (reserved: Result<PacketIdentifier, Error>)
        requires
            old(self).wf(),
        ensures
            final(self).wf(),
            final(self)@ == old(self)@.after_reserve(),
            match reserved {
                Ok(id) => old(self)@.grant() == Some(id@) && id@ != 0 && !old(
                    self,
                )@.reserved.contains(id@),
                Err(e) => old(self)@.grant() is None && e@
                    == ErrorKind::PacketIdentifiersExhausted,
            },
    {
        let current = self.previous.next();
        let (block, mask) = Self::entry(current);
        let word = self.in_use[block];
        if (word & mask) != 0 {
            return Err(Error::new(ErrorKind::PacketIdentifiersExhausted));
        }
        self.in_use[block] = word | mask;
        self.previous = current;
        proof {
            let cur = current@ as int;
            assert forall|id: u16|
                self.reserved_bit(id as int) == (id == current@ || old(self).reserved_bit(
                    id as int,
                )) by {
                let a = (cur % word_bits()) as usize;
                let b = (id as int % word_bits()) as usize;
                lemma_place(cur);
                lemma_place(id as int);
                if id as int / word_bits() == cur / word_bits() {
                    lemma_bit_after_set(word, a, b);
                    if a == b {
                        lemma_same_place(id as int, cur);
                    }
                }
            }
            assert(self@.reserved =~= old(self)@.reserved.insert(current@));
        }
        Ok(current)
    }

    /// Gives an identifier back. Giving back an identifier that is not
    /// reserved changes nothing.
    pub fn discard(&mut self, packet_identifier: PacketIdentifier)
        requires
            old(self).wf(),
        ensures
            final(self).wf(),
            final(self)@ == old(self)@.after_discard(packet_identifier@),
            !old(self)@.reserved.contains(packet_identifier@) ==> final(self)@ == old(self)@,
    {
        let (block, mask) = Self::entry(packet_identifier);
        let word = self.in_use[block];
        self.in_use[block] = word & !mask;
        proof {
            let cur = packet_identifier@ as int;
            assert forall|id: u16|
                self.reserved_bit(id as int) == (id != packet_identifier@ && old(
                    self,
                ).reserved_bit(id as int)) by {
                let a = (cur % word_bits()) as usize;
                let b = (id as int % word_bits()) as usize;
                lemma_place(cur);
                lemma_place(id as int);
                if id as int / word_bits() == cur / word_bits() {
                    lemma_bit_after_clear(word, a, b);
                    if a == b {
                        lemma_same_place(id as int, cur);
                    }
                }
            }
            assert(self@.reserved =~= old(self)@.reserved.remove(packet_identifier@));
            if !old(self)@.reserved.contains(packet_identifier@) {
                assert(old(self)@.reserved.remove(packet_identifier@) =~= old(self)@.reserved);
            }
        }
    }

    /// Whether `packet_identifier` is reserved.
    pub fn is_reserved(&self, packet_identifier: PacketIdentifier) -> (reserved: bool)
        requires
            self.wf(),
        ensures
            reserved == self@.reserved.contains(packet_identifier@),
    {
        let (block, mask) = Self::entry(packet_identifier);
        (self.in_use[block] & mask) != 0
    }

    /// The words of the bit set: `SIZE` of them, with the bit of identifier
    /// `id` at offset `id % W` of word `id / W`.
    pub fn in_use(&self) -> (words: &[usize])
        requires
            self.wf(),
        ensures
            words@.len() == Self::SIZE,
            words@.len() * word_bits() == 65536,
            forall|id: u16|
                self@.reserved.contains(id) == bit_set(
                    #[trigger] words@[id as int / word_bits()],
                    id as int % word_bits(),
                ),
    {
        proof {
            lemma_place(0);
        }
        self.in_use.as_slice()
    }
}

impl Default for PacketIdentifiers {
    fn default() -> (ids: PacketIdentifiers)
        ensures
            ids.wf(),
            ids@ == PacketIdentifiersView::empty(),
    {
        PacketIdentifiers::new()
    }
}

} // verus!

