//! The hash strategy abstraction: a strategy produces a fresh digesting
//! function on demand, once per entry, so that no digester state leaks
//! from one entry into the next. Entry keys, values and elements supply
//! their byte representation through `Digestible`.

use vstd::prelude::*;

use crate::combine::aggregate_of;
use std::collections::hash_map::DefaultHasher;
use std::hash::Hasher;
use vstd::std_specs::hash::DefaultHasherAdditionalSpecFns;
use vstd::string::StrSliceExecFns;

verus! {

/// A stateful digesting function: it consumes byte pieces and finalizes
/// to a 64-bit digest that is a pure function of the pieces written.
pub trait Digester: Sized {
    /// The digester's internal invariant, established by
    /// `HashStrategy::fresh_digester` and preserved by `write_piece`.
    spec fn wf(&self) -> bool;

    /// The pieces written so far, each one sequence of bytes.
    spec fn digested(&self) -> Seq<Seq<u8>>;

    /// The digest this kind of digester produces for a given sequence
    /// of written pieces.
    spec fn digest_of(writes: Seq<Seq<u8>>) -> u64;

    /// Append one piece of bytes to the running digest.
    fn write_piece(&mut self, bytes: &[u8])
        requires
            old(self).wf(),
        ensures
            final(self).wf(),
            final(self).digested() == old(self).digested().push(bytes@),
    ;

    /// Finalize: the digest of exactly the pieces written, in order.
    fn finish(&self) -> (r: u64)
        requires
            self.wf(),
        ensures
            r == Self::digest_of(self.digested()),
    ;
}

/// A pluggable hashing algorithm: it can produce a fresh digester on
/// demand, repeatedly and independently, with fully reset state each
/// time. One fresh digester is used per entry.
pub trait HashStrategy: Sized {
    type Digester: Digester;

    /// Produce a fresh digester with no pieces written yet.
    fn fresh_digester(&self) -> (d: Self::Digester)
        ensures
            d.wf(),
            d.digested() == Seq::<Seq<u8>>::empty(),
    ;
}

/// A value that can be fed to a digester: it has a byte representation
/// that is a pure function of the value.
pub trait Digestible: Sized {
    /// The byte representation fed to the digester.
    spec fn repr(&self) -> Seq<u8>;

    /// Produce the byte representation.
    fn repr_bytes(&self) -> (b: Vec<u8>)
        ensures
            b@ == self.repr(),
    ;
}

/// The per-entry digest of a key/value pair under strategy `St`: the
/// key's representation, then the value's, fed to one fresh digester.
pub open spec fn pair_digest<St: HashStrategy, K: Digestible, V: Digestible>(p: (K, V)) -> u64 {
    St::Digester::digest_of(seq![p.0.repr(), p.1.repr()])
}

/// `pair_digest` as a function value, for folding.
pub open spec fn pair_digest_fn<St: HashStrategy, K: Digestible, V: Digestible>() -> spec_fn(
    (K, V),
) -> u64 {
    |p: (K, V)| pair_digest::<St, K, V>(p)
}

/// The per-entry digest of a set element under strategy `St`: its
/// representation fed to one fresh digester.
pub open spec fn elem_digest<St: HashStrategy, T: Digestible>(t: T) -> u64 {
    St::Digester::digest_of(seq![t.repr()])
}

/// `elem_digest` as a function value, for folding.
pub open spec fn elem_digest_fn<St: HashStrategy, T: Digestible>() -> spec_fn(T) -> u64 {
    |t: T| elem_digest::<St, T>(t)
}

/// The aggregate hash of a map's contents under strategy `St`: the
/// order-independent combination of all its entry digests.
pub open spec fn map_aggregate<St: HashStrategy, K: Digestible, V: Digestible>(
    m: Map<K, V>,
) -> u64 {
    aggregate_of(m.kv_pairs(), pair_digest_fn::<St, K, V>())
}

/// The aggregate hash of a set's contents under strategy `St`: the
/// order-independent combination of all its element digests.
pub open spec fn set_aggregate<St: HashStrategy, T: Digestible>(s: Set<T>) -> u64 {
    aggregate_of(s, elem_digest_fn::<St, T>())
}

/// The 8 bytes of `x`, least significant first.
pub open spec fn le_bytes_64(x: u64) -> Seq<u8> {
    seq![
        (x % 256) as u8,
        ((x / 0x100) % 256) as u8,
        ((x / 0x1_0000) % 256) as u8,
        ((x / 0x100_0000) % 256) as u8,
        ((x / 0x1_0000_0000) % 256) as u8,
        ((x / 0x100_0000_0000) % 256) as u8,
        ((x / 0x1_0000_0000_0000) % 256) as u8,
        ((x / 0x100_0000_0000_0000) % 256) as u8,
    ]
}

/// The 4 bytes of `x`, least significant first.
pub open spec fn le_bytes_32(x: u32) -> Seq<u8> {
    seq![
        (x % 256) as u8,
        ((x / 0x100) % 256) as u8,
        ((x / 0x1_0000) % 256) as u8,
        ((x / 0x100_0000) % 256) as u8,
    ]
}

/// The two's-complement image of `x` in 64 bits.
pub open spec fn twos_complement_64(x: i64) -> u64 {
    if x >= 0 {
        x as u64
    } else {
        (x + 0x1_0000_0000_0000_0000) as u64
    }
}

/// The two's-complement image of `x` in 32 bits.
pub open spec fn twos_complement_32(x: i32) -> u32 {
    if x >= 0 {
        x as u32
    } else {
        (x + 0x1_0000_0000) as u32
    }
}

impl Digestible for u64 {
    open spec fn repr(&self) -> Seq<u8> {
        le_bytes_64(*self)
    }

    fn repr_bytes(&self) -> (b: Vec<u8>) {
        let x = *self;
        let mut b: Vec<u8> = Vec::new();
        b.push((x % 256) as u8);
        b.push(((x / 0x100) % 256) as u8);
        b.push(((x / 0x1_0000) % 256) as u8);
        b.push(((x / 0x100_0000) % 256) as u8);
        b.push(((x / 0x1_0000_0000) % 256) as u8);
        b.push(((x / 0x100_0000_0000) % 256) as u8);
        b.push(((x / 0x1_0000_0000_0000) % 256) as u8);
        b.push(((x / 0x100_0000_0000_0000) % 256) as u8);
        proof {
            assert(b@ =~= le_bytes_64(x));
        }
        b
    }
}

impl Digestible for u32 {
    open spec fn repr(&self) -> Seq<u8> {
        le_bytes_32(*self)
    }

    fn repr_bytes(&self) -> (b: Vec<u8>) {
        let x = *self;
        let mut b: Vec<u8> = Vec::new();
        b.push((x % 256) as u8);
        b.push(((x / 0x100) % 256) as u8);
        b.push(((x / 0x1_0000) % 256) as u8);
        b.push(((x / 0x100_0000) % 256) as u8);
        proof {
            assert(b@ =~= le_bytes_32(x));
        }
        b
    }
}

impl Digestible for i64 {
    open spec fn repr(&self) -> Seq<u8> {
        le_bytes_64(twos_complement_64(*self))
    }

    fn repr_bytes(&self) -> (b: Vec<u8>) {
        let x = *self;
        let u: u64 = if x >= 0 {
            x as u64
        } else {
            ((x - i64::MIN) as u64) + 0x8000_0000_0000_0000
        };
        u.repr_bytes()
    }
}

impl Digestible for i32 {
    open spec fn repr(&self) -> Seq<u8> {
        le_bytes_32(twos_complement_32(*self))
    }

    fn repr_bytes(&self) -> (b: Vec<u8>) {
        let x = *self;
        let u: u32 = if x >= 0 {
            x as u32
        } else {
            ((x - i32::MIN) as u32) + 0x8000_0000
        };
        u.repr_bytes()
    }
}

impl Digestible for String {
    /// The UTF-8 bytes followed by a 0xff terminator, a byte no UTF-8
    /// text contains, so that where one string ends and the next piece
    /// begins stays visible in the byte stream.
    open spec fn repr(&self) -> Seq<u8> {
        vstd::utf8::encode_utf8(self@).push(0xff)
    }

    fn repr_bytes(&self) -> (b: Vec<u8>) {
        let mut b = self.as_str().as_bytes_vec();
        b.push(0xff);
        b
    }
}

/// A digester backed by std's `DefaultHasher`, freshly created for each
/// entry with `DefaultHasher::new`, so its state is fully reset.
pub struct StdDigester {
    inner: DefaultHasher,
}

impl Digester for StdDigester {
    open spec fn wf(&self) -> bool {
        true
    }

    closed spec fn digested(&self) -> Seq<Seq<u8>> {
        self.inner@
    }

    open spec fn digest_of(writes: Seq<Seq<u8>>) -> u64 {
        DefaultHasher::spec_finish(writes)
    }

    fn write_piece(&mut self, bytes: &[u8]) {
        self.inner.write(bytes);
    }

    fn finish(&self) -> (r: u64) {
        self.inner.finish()
    }
}

/// The default hash strategy: a fresh std `DefaultHasher` per entry.
pub struct StdStrategy;

impl HashStrategy for StdStrategy {
    type Digester = StdDigester;

    fn fresh_digester(&self) -> (d: StdDigester) {
        StdDigester { inner: DefaultHasher::new() }
    }
}

/// The starting state of the FNV-1a digest.
pub const FNV_OFFSET_BASIS: u64 = 0xcbf2_9ce4_8422_2325;

/// The multiplier of the FNV-1a digest.
pub const FNV_PRIME: u64 = 0x100_0000_01b3;

/// One FNV-1a round: mix one byte into the state.
pub open spec fn fnv1a_step(state: u64, byte: u8) -> u64 {
    vstd::wrapping::u64_specs::wrapping_mul(state ^ (byte as u64), FNV_PRIME)
}

/// The FNV-1a state after mixing in each byte of `bytes`, in order.
pub open spec fn fnv1a_bytes(state: u64, bytes: Seq<u8>) -> u64
    decreases bytes.len(),
{
    if bytes.len() == 0 {
        state
    } else {
        fnv1a_bytes(fnv1a_step(state, bytes[0]), bytes.drop_first())
    }
}

/// The FNV-1a state after mixing in each piece of `writes`, in order.
pub open spec fn fnv1a_writes(state: u64, writes: Seq<Seq<u8>>) -> u64
    decreases writes.len(),
{
    if writes.len() == 0 {
        state
    } else {
        fnv1a_writes(fnv1a_bytes(state, writes[0]), writes.drop_first())
    }
}

proof fn lemma_fnv1a_bytes_push(state: u64, bytes: Seq<u8>, b: u8)
    ensures
        fnv1a_bytes(state, bytes.push(b)) == fnv1a_step(fnv1a_bytes(state, bytes), b),
    decreases bytes.len(),
{
    if bytes.len() == 0 {
        reveal_with_fuel(fnv1a_bytes, 2);
        assert(bytes.push(b)[0] == b);
        assert(bytes.push(b).drop_first() =~= Seq::<u8>::empty());
    } else {
        assert(bytes.push(b)[0] == bytes[0]);
        assert(bytes.push(b).drop_first() =~= bytes.drop_first().push(b));
        lemma_fnv1a_bytes_push(fnv1a_step(state, bytes[0]), bytes.drop_first(), b);
    }
}

proof fn lemma_fnv1a_writes_push(state: u64, writes: Seq<Seq<u8>>, p: Seq<u8>)
    ensures
        fnv1a_writes(state, writes.push(p)) == fnv1a_bytes(fnv1a_writes(state, writes), p),
    decreases writes.len(),
{
    if writes.len() == 0 {
        reveal_with_fuel(fnv1a_writes, 2);
        assert(writes.push(p)[0] == p);
        assert(writes.push(p).drop_first() =~= Seq::<Seq<u8>>::empty());
    } else {
        assert(writes.push(p)[0] == writes[0]);
        assert(writes.push(p).drop_first() =~= writes.drop_first().push(p));
        lemma_fnv1a_writes_push(fnv1a_bytes(state, writes[0]), writes.drop_first(), p);
    }
}

/// A digester that runs the FNV-1a algorithm, implemented and verified
/// here: the state is the FNV-1a digest of all bytes written so far.
pub struct Fnv1aDigester {
    state: u64,
    history: Ghost<Seq<Seq<u8>>>,
}

impl Digester for Fnv1aDigester {
    closed spec fn wf(&self) -> bool {
        self.state == fnv1a_writes(FNV_OFFSET_BASIS, self.history@)
    }

    closed spec fn digested(&self) -> Seq<Seq<u8>> {
        self.history@
    }

    open spec fn digest_of(writes: Seq<Seq<u8>>) -> u64 {
        fnv1a_writes(FNV_OFFSET_BASIS, writes)
    }

    fn write_piece(&mut self, bytes: &[u8]) {
        let ghost start = self.state;
        let mut i: usize = 0;
        while i < bytes.len()
            invariant
                i <= bytes@.len(),
                self.state == fnv1a_bytes(start, bytes@.take(i as int)),
                self.history == old(self).history,
                start == fnv1a_writes(FNV_OFFSET_BASIS, self.history@),
            decreases bytes@.len() - i,
        {
            let b = bytes[i];
            proof {
                assert(bytes@.take(i + 1) =~= bytes@.take(i as int).push(b));
                lemma_fnv1a_bytes_push(start, bytes@.take(i as int), b);
            }
            self.state = (self.state ^ (b as u64)).wrapping_mul(FNV_PRIME);
            i = i + 1;
        }
        proof {
            assert(bytes@.take(bytes@.len() as int) =~= bytes@);
            lemma_fnv1a_writes_push(FNV_OFFSET_BASIS, self.history@, bytes@);
        }
        self.history = Ghost(self.history@.push(bytes@));
    }

    fn finish(&self) -> (r: u64) {
        self.state
    }
}

/// An alternative hash strategy: a fresh FNV-1a digester per entry.
/// For a fixed container it generally produces a different aggregate
/// than `StdStrategy`; only aggregates produced under one strategy are
/// comparable.
pub struct Fnv1aStrategy;

impl HashStrategy for Fnv1aStrategy {
    type Digester = Fnv1aDigester;

    fn fresh_digester(&self) -> (d: Fnv1aDigester) {
        Fnv1aDigester { state: FNV_OFFSET_BASIS, history: Ghost(Seq::empty()) }
    }
}

} // verus!
