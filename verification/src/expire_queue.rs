//! Self-describing expiring identifiers and the scheduler that tracks them.
//!
//! An [`UploadId`] is a 128-bit value: random bytes carrying the standard
//! version and variant tags, with the low 56 bits of an absolute expiration
//! instant exclusive-ORed against 56 of the random bits and stored in the
//! last seven bytes.  The instant is recoverable from the value alone, so
//! whether an identifier has expired is answerable without any side lookup.
use vstd::prelude::*;

use crate::hex::hex_ascii;
use crate::hex::hex_val_of;
use crate::hex::is_hex_digit;
use crate::hex::parse_spec;
use crate::hex::render_spec;
use crate::hex::wellformed_hex;
use crate::pqueue::pq_has;
use crate::pqueue::pq_len;
use crate::pqueue::pq_new;
use crate::pqueue::pq_peek;
use crate::pqueue::pq_pop;
use crate::pqueue::pq_push;
use crate::pqueue::queue_entries;
use core::cmp::Reverse;
use priority_queue::PriorityQueue;
use std::hash::RandomState;
use vstd::multiset::Multiset;

verus! {

/// The largest value that fits in the 56-bit expiration payload.
pub open spec fn payload_mask() -> u64 {
    0x00ff_ffff_ffff_ffff
}

/// The 56-bit masking key drawn from an identifier's first seven bytes,
/// interpreted little-endian.
pub open spec fn mask56(s: Seq<u8>) -> u64 {
    (s[0] as u64) | ((s[1] as u64) << 8) | ((s[2] as u64) << 16) | ((s[3] as u64) << 24) | ((
    s[4] as u64) << 32) | ((s[5] as u64) << 40) | ((s[6] as u64) << 48)
}

/// The masked expiration payload held in an identifier's last seven bytes,
/// interpreted little-endian.
pub open spec fn stored56(s: Seq<u8>) -> u64 {
    (s[9] as u64) | ((s[10] as u64) << 8) | ((s[11] as u64) << 16) | ((s[12] as u64) << 24) | ((
    s[13] as u64) << 32) | ((s[14] as u64) << 40) | ((s[15] as u64) << 48)
}

/// The absolute expiration instant (Unix seconds) an identifier carries:
/// the stored payload with the masking key exclusive-ORed back out.
pub open spec fn expiration_of(s: Seq<u8>) -> u64 {
    mask56(s) ^ stored56(s)
}

/// A value assembled from seven bytes occupies only the low 56 bits.
proof fn lemma_le56_bound(b0: u8, b1: u8, b2: u8, b3: u8, b4: u8, b5: u8, b6: u8, m: u64)
    by (bit_vector)
    requires
        m == (b0 as u64) | ((b1 as u64) << 8) | ((b2 as u64) << 16) | ((b3 as u64) << 24) | ((
        b4 as u64) << 32) | ((b5 as u64) << 40) | ((b6 as u64) << 48),
    ensures
        m <= 0x00ff_ffff_ffff_ffff,
{
}

/// Reassembling a 56-bit value from its little-endian bytes gives it back.
proof fn lemma_le56_reassemble(x: u64)
    by (bit_vector)
    requires
        x <= 0x00ff_ffff_ffff_ffff,
    ensures
        x == ((x as u8) as u64) | ((((x >> 8) as u8) as u64) << 8) | ((((x >> 16) as u8) as u64)
            << 16) | ((((x >> 24) as u8) as u64) << 24) | ((((x >> 32) as u8) as u64) << 32) | (((
        (x >> 40) as u8) as u64) << 40) | ((((x >> 48) as u8) as u64) << 48),
{
}

/// Exclusive-ORing the masking key back against the truncated masked payload
/// recovers the low 56 bits of the original instant.
proof fn lemma_unmask(mask: u64, expire: u64, stored: u64)
    by (bit_vector)
    requires
        mask <= 0x00ff_ffff_ffff_ffff,
        stored == (expire ^ mask) & 0x00ff_ffff_ffff_ffff,
    ensures
        mask ^ stored == expire & 0x00ff_ffff_ffff_ffff,
        expire <= 0x00ff_ffff_ffff_ffff ==> mask ^ stored == expire,
{
}

/// An identifier that names an uploaded object and self-encodes its
/// expiration instant in its sixteen bytes.
#[derive(Debug, Clone, Hash, PartialEq, Eq, Copy)]
pub struct UploadId([u8; 16]);

/// Why a piece of text failed to parse as an identifier.
#[derive(Debug, Clone, Copy, PartialEq, Eq)]
pub enum InvalidUploadIdError {
    /// The text has the right length but holds a non-hexadecimal character.
    InvalidString,
    /// The text does not have the structure of a rendered identifier:
    /// its length is not 32 characters.
    InvalidUUID,
}

impl View for UploadId {
    type V = Seq<u8>;

    closed spec fn view(&self) -> Seq<u8> {
        self.0@
    }
}

impl UploadId {
    /// Parses the canonical 32-character hexadecimal form, the exact inverse
    /// of [`UploadId::as_string`]; either case of digit is accepted.
    pub fn new(id: &str) -> (r: Result<Self, InvalidUploadIdError>)
        ensures
            match r {
                Ok(u) => wellformed_hex(id@, 16) && u@ == parse_spec(id@),
                Err(InvalidUploadIdError::InvalidUUID) => id@.len() != 32,
                Err(InvalidUploadIdError::InvalidString) => id@.len() == 32 && !wellformed_hex(
                    id@,
                    16,
                ),
            },
    {
        if id.unicode_len() != 32 {
            return Err(InvalidUploadIdError::InvalidUUID);
        }
        let mut bytes: [u8; 16] = [0;16];
        for i in 0..16usize
            invariant
                id@.len() == 32,
                bytes@.len() == 16,
                forall|j: int| 0 <= j < 2 * i ==> is_hex_digit(#[trigger] id@[j]),
                forall|j: int| 0 <= j < i ==> bytes@[j] == parse_spec(id@)[j],
        {
            let hi = match hex_val_of(id.get_char(2 * i)) {
                Some(v) => v,
                None => {
                    return Err(InvalidUploadIdError::InvalidString);
                },
            };
            let lo = match hex_val_of(id.get_char(2 * i + 1)) {
                Some(v) => v,
                None => {
                    return Err(InvalidUploadIdError::InvalidString);
                },
            };
            bytes[i] = (hi << 4) | lo;
        }
        let u = UploadId(bytes);
        proof {
            assert(u@ =~= parse_spec(id@));
        }
        Ok(u)
    }

    /// Mints a fresh identifier expiring at the given absolute instant.
    ///
    /// The instant's low 56 bits are masked against the random bytes and
    /// embedded; an instant beyond 56 bits silently loses its high-order
    /// bits, a documented capacity limit rather than an error.
    pub fn generate(expire: u64) -> (id: UploadId)
        ensures
            expiration_of(id@) == expire & payload_mask(),
            expire <= payload_mask() ==> expiration_of(id@) == expire,
            id@[6] & 0xf0 == 0x40,
            id@[8] & 0xc0 == 0x80,
    {
        let r: [u8; 16] = random_bytes();
        // Standard tagging of a random 128-bit identifier: version in the
        // high nibble of byte 6, variant in the top bits of byte 8.
        let b6: u8 = (r[6] & 0x0f) | 0x40;
        let b8: u8 = (r[8] & 0x3f) | 0x80;
        let mask: u64 = (r[0] as u64) | ((r[1] as u64) << 8) | ((r[2] as u64) << 16) | ((
        r[3] as u64) << 24) | ((r[4] as u64) << 32) | ((r[5] as u64) << 40) | ((b6 as u64) << 48);
        let stored: u64 = (expire ^ mask) & 0x00ff_ffff_ffff_ffff;
        let bytes: [u8; 16] = [
            r[0],
            r[1],
            r[2],
            r[3],
            r[4],
            r[5],
            b6,
            r[7],
            b8,
            stored as u8,
            (stored >> 8) as u8,
            (stored >> 16) as u8,
            (stored >> 24) as u8,
            (stored >> 32) as u8,
            (stored >> 40) as u8,
            (stored >> 48) as u8,
        ];
        let id = UploadId(bytes);
        proof {
            lemma_le56_bound(r[0], r[1], r[2], r[3], r[4], r[5], b6, mask);
            assert(stored <= 0x00ff_ffff_ffff_ffff) by (bit_vector)
                requires
                    stored == (expire ^ mask) & 0x00ff_ffff_ffff_ffff,
            ;
            lemma_le56_reassemble(stored);
            assert(mask56(id@) == mask);
            assert(stored56(id@) == stored);
            lemma_unmask(mask, expire, stored);
            let x6 = r[6];
            let x8 = r[8];
            assert(((x6 & 0x0f) | 0x40) & 0xf0 == 0x40) by (bit_vector);
            assert(((x8 & 0x3f) | 0x80) & 0xc0 == 0x80) by (bit_vector);
        }
        id
    }

    /// Recovers the absolute expiration instant embedded in the identifier.
    /// Pure and infallible: it recomputes the masking key from the first
    /// seven bytes and exclusive-ORs it against the stored payload.
    pub fn get_expire(&self) -> (r: u64)
        ensures
            r == expiration_of(self@),
            r <= payload_mask(),
    {
        let b = &self.0;
        let mask: u64 = (b[0] as u64) | ((b[1] as u64) << 8) | ((b[2] as u64) << 16) | ((
        b[3] as u64) << 24) | ((b[4] as u64) << 32) | ((b[5] as u64) << 40) | ((b[6] as u64) << 48);
        let stored: u64 = (b[9] as u64) | ((b[10] as u64) << 8) | ((b[11] as u64) << 16) | ((
        b[12] as u64) << 24) | ((b[13] as u64) << 32) | ((b[14] as u64) << 40) | ((b[15] as u64)
            << 48);
        proof {
            lemma_le56_bound(b[0], b[1], b[2], b[3], b[4], b[5], b[6], mask);
            lemma_le56_bound(b[9], b[10], b[11], b[12], b[13], b[14], b[15], stored);
            let m = mask;
            let s = stored;
            assert(m <= 0x00ff_ffff_ffff_ffff && s <= 0x00ff_ffff_ffff_ffff ==> (m ^ s)
                <= 0x00ff_ffff_ffff_ffff) by (bit_vector);
        }
        mask ^ stored
    }

    /// Whether the identifier has expired as of `time`; reaching the
    /// embedded instant exactly counts as expired.
    pub fn is_expired(&self, time: u64) -> (r: bool)
        ensures
            r == (time >= expiration_of(self@)),
    {
        time >= self.get_expire()
    }

    /// The canonical text form: 32 lowercase hexadecimal characters, no
    /// separators — the identifier's only wire presence.
    pub fn as_string(&self) -> (r: String)
        ensures
            r@ == render_spec(self@),
            wellformed_hex(r@, 16),
    {
        let mut out: Vec<u8> = Vec::new();
        proof {
            assert(self@.skip(0) == self@);
            crate::hex::lemma_render_spec_len(self@);
        }
        for i in 0..16usize
            invariant
                self@.len() == 16,
                out@.len() == 2 * i,
                render_spec(self@) =~= out@.map_values(|b: u8| b as char) + render_spec(
                    self@.skip(i as int),
                ),
                forall|j: int| 0 <= j < out@.len() ==> #[trigger] out@[j] < 128,
        {
            let b = self.0[i];
            proof {
                let bb = b;
                assert(bb >> 4 < 16 && bb & 0x0f < 16) by (bit_vector);
            }
            out.push(hex_ascii(b >> 4));
            out.push(hex_ascii(b & 0x0f));
            proof {
                assert(self@.skip(i as int).drop_first() =~= self@.skip(i + 1));
                assert(out@.map_values(|x: u8| x as char) =~= out@.subrange(
                    0,
                    out@.len() - 2,
                ).map_values(|x: u8| x as char) + seq![
                    crate::hex::hex_digit(b >> 4),
                    crate::hex::hex_digit(b & 0x0f),
                ]);
            }
        }
        let r = ascii_string(out);
        proof {
            assert(r@ =~= render_spec(self@));
            crate::hex::lemma_parse_render_roundtrip(self@);
        }
        r
    }
}

/// Text and value forms are inverse: any identifier's rendered text is
/// well formed, and parsing it yields exactly the identifier's bytes — so
/// `UploadId::new` applied to `UploadId::as_string` gives the identifier
/// back.
pub proof fn lemma_parse_render_id(id: UploadId)
    ensures
        wellformed_hex(render_spec(id@), 16),
        parse_spec(render_spec(id@)) == id@,
{
    crate::hex::lemma_parse_render_roundtrip(id@);
}

/// An expiration instant used as a scheduling priority.  Its ordering is
/// reversed — the soonest instant sorts greatest — so a max-priority
/// structure keyed by it always surfaces the next identifier to expire.
#[derive(Clone, Debug, Hash, PartialEq, Eq, Copy)]
pub struct Expiration(u64);

impl View for Expiration {
    type V = u64;

    closed spec fn view(&self) -> u64 {
        self.0
    }
}

impl PartialOrd for Expiration {
    fn partial_cmp(&self, other: &Self) -> (r: Option<core::cmp::Ordering>) {
        // Comparison deliberately flipped: the smaller instant is the
        // greater priority.
        if other.0 < self.0 {
            Some(core::cmp::Ordering::Less)
        } else if other.0 == self.0 {
            Some(core::cmp::Ordering::Equal)
        } else {
            Some(core::cmp::Ordering::Greater)
        }
    }
}

impl vstd::std_specs::cmp::PartialOrdSpecImpl for Expiration {
    open spec fn obeys_partial_cmp_spec() -> bool {
        true
    }

    open spec fn partial_cmp_spec(&self, other: &Self) -> Option<core::cmp::Ordering> {
        if other@ < self@ {
            Some(core::cmp::Ordering::Less)
        } else if other@ == self@ {
            Some(core::cmp::Ordering::Equal)
        } else {
            Some(core::cmp::Ordering::Greater)
        }
    }
}

impl From<u64> for Expiration {
    fn from(from: u64) -> (r: Self) {
        Expiration(from)
    }
}

impl vstd::std_specs::convert::FromSpecImpl<u64> for Expiration {
    open spec fn obeys_from_spec() -> bool {
        true
    }

    closed spec fn from_spec(t: u64) -> Self {
        Expiration(t)
    }
}

/// The identifiers a sequence holds, with multiplicity.
pub open spec fn ids_of(s: Seq<UploadId>) -> Multiset<Seq<u8>>
    decreases s.len(),
{
    if s.len() == 0 {
        Multiset::empty()
    } else {
        ids_of(s.drop_last()).insert(s.last()@)
    }
}

pub proof fn lemma_ids_of_len(s: Seq<UploadId>)
    ensures
        ids_of(s).len() == s.len(),
    decreases s.len(),
{
    if s.len() > 0 {
        lemma_ids_of_len(s.drop_last());
    }
}

/// An identifier occurs in `ids_of(s)` exactly when some element of `s`
/// carries its bytes.
pub proof fn lemma_ids_of_index(s: Seq<UploadId>, b: Seq<u8>)
    ensures
        ids_of(s).count(b) > 0 <==> exists|i: int| 0 <= i < s.len() && s[i]@ == b,
    decreases s.len(),
{
    if s.len() > 0 {
        lemma_ids_of_index(s.drop_last(), b);
        if s.last()@ == b {
            assert(s[s.len() - 1]@ == b);
        } else if ids_of(s.drop_last()).count(b) > 0 {
            let i = choose|i: int| 0 <= i < s.drop_last().len() && s.drop_last()[i]@ == b;
            assert(s[i]@ == b);
        } else if exists|i: int| 0 <= i < s.len() && s[i]@ == b {
            let i = choose|i: int| 0 <= i < s.len() && s[i]@ == b;
            if i < s.len() - 1 {
                assert(s.drop_last()[i]@ == b);
            }
        }
    }
}

/// The entries that hold copies of the identifier with bytes `b`.
spec fn id_serials(m: Map<(Seq<u8>, u64), u64>, b: Seq<u8>) -> Set<(Seq<u8>, u64)> {
    m.dom().filter(|k: (Seq<u8>, u64)| k.0 == b)
}

/// The possible entries for identifier bytes `b` with serial below `s`.
spec fn serials_below(b: Seq<u8>, s: int) -> Set<(Seq<u8>, u64)> {
    Set::new(|k: (Seq<u8>, u64)| k.0 == b && k.1 < s)
}

proof fn lemma_serials_below_len(b: Seq<u8>, s: int)
    requires
        0 <= s <= u64::MAX + 1,
    ensures
        serials_below(b, s).finite(),
        serials_below(b, s).len() == s,
    decreases s,
{
    if s == 0 {
        assert(serials_below(b, 0) =~= Set::empty());
    } else {
        lemma_serials_below_len(b, s - 1);
        assert(serials_below(b, s) =~= serials_below(b, s - 1).insert((b, (s - 1) as u64)));
    }
}

/// The in-memory expiration scheduler: a time-ordered collection of live
/// identifiers with the embedded expiration instant as priority.  It does
/// not enforce uniqueness — a duplicate identifier is kept as a separate
/// entry — and stores no content: it is purely an ordering index, created
/// empty, repopulated by the caller at startup, and never persisted.
pub struct ExpireQueue {
    queue: PriorityQueue<(UploadId, u64), Reverse<u64>, RandomState>,
    contents: Ghost<Multiset<Seq<u8>>>,
}

impl View for ExpireQueue {
    type V = Multiset<Seq<u8>>;

    /// The bytes of the identifiers currently tracked, with multiplicity.
    closed spec fn view(&self) -> Multiset<Seq<u8>> {
        self.contents@
    }
}

impl ExpireQueue {
    /// The scheduler's internal consistency: finitely many entries, each
    /// stored under exactly the instant its identifier embeds, and the
    /// tracked multiset counting exactly the entries that carry each
    /// identifier's bytes.
    pub closed spec fn wf(&self) -> bool {
        let m = queue_entries(self.queue);
        &&& m.dom().finite()
        &&& (forall|k: (Seq<u8>, u64)| #[trigger] m.dom().contains(k) ==> m[k] == expiration_of(k.0))
        &&& (forall|b: Seq<u8>| #[trigger] self.contents@.count(b) == id_serials(m, b).len())
        &&& self.contents@.len() == m.dom().len()
    }

    /// A new scheduler tracking nothing.
    pub fn new() -> (q: ExpireQueue)
        ensures
            q.wf(),
            q@ == Multiset::<Seq<u8>>::empty(),
    {
        let q = ExpireQueue { queue: pq_new(), contents: Ghost(Multiset::empty()) };
        proof {
            assert forall|b: Seq<u8>| #[trigger] q.contents@.count(b) == id_serials(
                queue_entries(q.queue),
                b,
            ).len() by {
                assert(id_serials(queue_entries(q.queue), b) =~= Set::empty());
            }
        }
        q
    }

    /// Starts tracking one more copy of an identifier under its embedded
    /// expiration instant.  Never fails, and never deduplicates: a
    /// duplicate identifier is kept as a separate entry, so the size grows
    /// by one on every insert.
    pub fn push(&mut self, key: UploadId)
        requires
            old(self).wf(),
        ensures
            final(self).wf(),
            final(self)@ == old(self)@.insert(key@),
            final(self)@.len() == old(self)@.len() + 1,
    {
        let expire = key.get_expire();
        let n = pq_len(&self.queue);
        // Pick a serial no copy of this identifier is stored under; at
        // most `n` entries exist, so one below `n + 1` is always free.
        let mut s: usize = 0;
        while pq_has(&self.queue, key, s as u64)
            invariant
                self.wf(),
                *self == *old(self),
                n as nat == queue_entries(self.queue).dom().len(),
                s <= n,
                forall|t: u64| t < s ==> queue_entries(self.queue).dom().contains((key@, t)),
            decreases n - s,
        {
            proof {
                lemma_serials_below_len(key@, s as int + 1);
                assert forall|k: (Seq<u8>, u64)|
                    serials_below(key@, s as int + 1).contains(k) implies queue_entries(
                    self.queue,
                ).dom().contains(k) by {
                    if k.1 < s as u64 {
                    } else {
                        assert(k.1 == s as u64);
                    }
                }
                vstd::set_lib::lemma_len_subset(
                    serials_below(key@, s as int + 1),
                    queue_entries(self.queue).dom(),
                );
            }
            s += 1;
        }
        let ghost m0 = queue_entries(self.queue);
        let ghost k0 = (key@, s as u64);
        pq_push(&mut self.queue, key, s as u64, expire);
        self.contents = Ghost(self.contents@.insert(key@));
        proof {
            let m1 = queue_entries(self.queue);
            assert(!m0.dom().contains(k0));
            assert(m1.dom() =~= m0.dom().insert(k0));
            assert forall|b: Seq<u8>| #[trigger] self.contents@.count(b) == id_serials(
                m1,
                b,
            ).len() by {
                if b == key@ {
                    assert(id_serials(m1, b) =~= id_serials(m0, b).insert(k0));
                    vstd::set_lib::lemma_len_subset(id_serials(m0, b), m0.dom());
                } else {
                    assert(id_serials(m1, b) =~= id_serials(m0, b));
                }
            }
        }
    }

    /// Removes and returns every entry whose embedded instant is at or
    /// before `since`, soonest first.
    ///
    /// The result is exactly the tracked identifiers with instant `<=
    /// since`, copy for copy — a duplicate entry comes back once per copy
    /// — in non-decreasing instant order; they are permanently removed,
    /// and everything later stays.  The scheduler's size drops by exactly
    /// the number returned.
    pub fn get_expired(&mut self, since: u64) -> (expired: Vec<UploadId>)
        requires
            old(self).wf(),
        ensures
            final(self).wf(),
            forall|i: int|
                0 <= i < expired@.len() ==> old(self)@.contains(#[trigger] expired@[i]@)
                    && expiration_of(expired@[i]@) <= since,
            forall|i: int, j: int|
                0 <= i < j < expired@.len() ==> expiration_of(expired@[i]@) <= expiration_of(
                    expired@[j]@,
                ),
            forall|b: Seq<u8>|
                #[trigger] final(self)@.count(b) == (if expiration_of(b) > since {
                    old(self)@.count(b)
                } else {
                    0
                }),
            forall|b: Seq<u8>|
                #[trigger] ids_of(expired@).count(b) == (if expiration_of(b) <= since {
                    old(self)@.count(b)
                } else {
                    0
                }),
            final(self)@.len() + expired@.len() == old(self)@.len(),
    {
        let expire = Expiration::from(since);
        let mut expired: Vec<UploadId> = Vec::new();
        loop
            invariant
                self.wf(),
                old(self).wf(),
                forall|b: Seq<u8>|
                    #[trigger] old(self)@.count(b) == self@.count(b) + ids_of(expired@).count(b),
                forall|i: int|
                    0 <= i < expired@.len() ==> expiration_of(#[trigger] expired@[i]@) <= since,
                forall|i: int, j: int|
                    0 <= i < j < expired@.len() ==> expiration_of(expired@[i]@) <= expiration_of(
                        expired@[j]@,
                    ),
                forall|i: int, k: (Seq<u8>, u64)|
                    0 <= i < expired@.len() && #[trigger] queue_entries(self.queue).dom().contains(
                        k,
                    ) ==> expiration_of(#[trigger] expired@[i]@) <= expiration_of(k.0),
                self@.len() + expired@.len() == old(self)@.len(),
                expire@ == since,
            ensures
                forall|k: (Seq<u8>, u64)|
                    #[trigger] queue_entries(self.queue).dom().contains(k) ==> expiration_of(k.0)
                        > since,
            decreases self@.len(),
        {
            let next = match pq_peek(&self.queue) {
                None => {
                    break ;
                },
                Some(p) => p,
            };
            if !(Expiration::from(next.1) >= expire) {
                // The soonest tracked instant is still in the future.
                break ;
            }
            let ghost m_pre = queue_entries(self.queue);
            let ghost c_pre = self.contents@;
            let ghost prev = expired@;
            let popped = match pq_pop(&mut self.queue) {
                Some(p) => p,
                None => {
                    proof {
                        assert(false);
                    }
                    break ;
                },
            };
            let ghost b0 = popped.0.0@;
            let ghost k0 = (b0, popped.0.1);
            expired.push(popped.0.0);
            self.contents = Ghost(self.contents@.remove(b0));
            proof {
                let m1 = queue_entries(self.queue);
                assert(m1.dom() =~= m_pre.dom().remove(k0));
                assert(expired@.drop_last() =~= prev);
                assert(expired@.last() == popped.0.0);
                assert(ids_of(expired@) == ids_of(prev).insert(b0));
                // The popped entry is due: the least stored instant is at
                // most the peeked one, which the loop condition bounds.
                assert(m_pre[(next.0.0@, next.0.1)] == next.1);
                assert(expiration_of(b0) == m_pre[k0] <= next.1 <= since);
                // The tracked multiset held at least this copy.
                assert(id_serials(m_pre, b0).contains(k0));
                vstd::set_lib::lemma_len_subset(id_serials(m_pre, b0), m_pre.dom());
                vstd::set::axiom_set_contains_len(id_serials(m_pre, b0), k0);
                assert(c_pre.count(b0) >= 1);
                assert(self.contents@ =~= c_pre.remove(b0));
                assert forall|b: Seq<u8>| #[trigger] self.contents@.count(b) == id_serials(
                    m1,
                    b,
                ).len() by {
                    if b == b0 {
                        assert(id_serials(m1, b) =~= id_serials(m_pre, b).remove(k0));
                    } else {
                        assert(id_serials(m1, b) =~= id_serials(m_pre, b));
                    }
                }
                assert forall|b: Seq<u8>| #[trigger] old(self)@.count(b) == self@.count(b)
                    + ids_of(expired@).count(b) by {
                    assert(ids_of(expired@).count(b) == ids_of(prev).count(b) + (if b == b0 {
                        1int
                    } else {
                        0int
                    }));
                    assert(self@.count(b) == c_pre.count(b) - (if b == b0 {
                        1int
                    } else {
                        0int
                    }));
                }
            }
        }
        proof {
            let m = queue_entries(self.queue);
            assert forall|b: Seq<u8>| #[trigger] self@.count(b) == (if expiration_of(b) > since {
                old(self)@.count(b)
            } else {
                0
            }) by {
                if expiration_of(b) <= since && self@.count(b) > 0 {
                    // A still-tracked copy would be a stored entry whose
                    // instant is due, which the loop has ruled out.
                    vstd::set_lib::lemma_len_subset(id_serials(m, b), m.dom());
                    let k = id_serials(m, b).choose();
                    assert(id_serials(m, b).contains(k));
                    assert(false);
                }
                if expiration_of(b) > since && ids_of(expired@).count(b) > 0 {
                    lemma_ids_of_index(expired@, b);
                    let i = choose|i: int| 0 <= i < expired@.len() && expired@[i]@ == b;
                    assert(expiration_of(expired@[i]@) <= since);
                    assert(false);
                }
            }
            assert forall|b: Seq<u8>| #[trigger] ids_of(expired@).count(b) == (if expiration_of(b)
                <= since {
                old(self)@.count(b)
            } else {
                0
            }) by {
                assert(old(self)@.count(b) == self@.count(b) + ids_of(expired@).count(b));
            }
            assert forall|i: int| 0 <= i < expired@.len() implies old(self)@.contains(
                #[trigger] expired@[i]@,
            ) && expiration_of(expired@[i]@) <= since by {
                lemma_ids_of_index(expired@, expired@[i]@);
            }
            lemma_ids_of_len(expired@);
        }
        expired
    }

    /// How many identifiers are currently tracked; meant for observability
    /// and tests, not control flow.
    pub fn len(&self) -> (n: usize)
        requires
            self.wf(),
        ensures
            n as nat == self@.len(),
    {
        pq_len(&self.queue)
    }
}

/// Relies on `rand::random`, which draws from the thread-local generator
/// exactly as the standard `thread_rng().gen()` call does; nothing is
/// promised of the bytes that come back.
pub assume_specification<T>[ rand::random::<T> ]() -> (r: T)
    where rand::distributions::Standard: rand::distributions::Distribution<T>,
;

/// Sixteen fresh random bytes for a new identifier.
fn random_bytes() -> (r: [u8; 16]) {
    rand::random()
}

/// Relies on `String::from_utf8`: ASCII bytes are valid UTF-8 and decode to
/// the characters with the same code points.
#[verifier::external_body]
fn ascii_string(v: Vec<u8>) -> (r: String)
    requires
        forall|i: int| 0 <= i < v@.len() ==> v@[i] < 128,
    ensures
        r@ == v@.map_values(|b: u8| b as char),
{
    String::from_utf8(v).unwrap()
}

} // verus!
