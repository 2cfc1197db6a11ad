//! The proxy's key routing: keys hash to one of 16384 slots, and each
//! primary of the cluster owns a contiguous range of slots.

use crate::protocol::RedisCommand;
use vstd::prelude::*;
use vstd::string::StringSliceAdditionalSpecFns;

verus! {

/// The number of slots.
pub const SLOTS: usize = 16384;

pub const FNV_OFFSET: u64 = 0xcbf29ce484222325;

pub const FNV_PRIME: u64 = 0x100000001b3;

/// The 64-bit FNV-1a hash of `b`: stable across builds and platforms.
pub open spec fn fnv1a(b: Seq<u8>) -> u64
    decreases b.len(),
{
    if b.len() == 0 {
        FNV_OFFSET
    } else {
        (fnv1a(b.drop_last()) ^ (b.last() as u64)).wrapping_mul(FNV_PRIME)
    }
}

/// How many slots each primary owns (the last may own fewer).
pub open spec fn slots_per(m: nat) -> nat {
    ((SLOTS as nat + m - 1) as int / m as int) as nat
}

/// The primary that owns `slot` among `m`.
pub open spec fn owner_of(slot: nat, m: nat) -> nat {
    slot / slots_per(m)
}

/// The FNV-1a hash of a key's UTF-8 bytes.
pub fn key_hash(key: &str) -> (r: u64)
    ensures
        r == fnv1a(key.spec_bytes()),
{
    let b = key.as_bytes();
    let mut h: u64 = FNV_OFFSET;
    let mut i: usize = 0;
    assert(b@.take(0) =~= Seq::<u8>::empty());
    while i < b.len()
        invariant
            b@ == key.spec_bytes(),
            i <= b@.len(),
            h == fnv1a(b@.take(i as int)),
        decreases b@.len() - i,
    {
        assert(b@.take(i + 1).drop_last() =~= b@.take(i as int));
        h = (h ^ (b[i] as u64)).wrapping_mul(FNV_PRIME);
        i += 1;
    }
    assert(b@.take(i as int) =~= b@);
    h
}

/// The slot of a key.
pub fn slot_of(key: &str) -> (r: usize)
    ensures
        r == fnv1a(key.spec_bytes()) % (SLOTS as u64),
        r < SLOTS,
{
    (key_hash(key) % (SLOTS as u64)) as usize
}

/// Where the proxy sends a request.
#[derive(PartialEq, Eq, Structural, Debug, Clone, Copy)]
pub enum Target {
    /// The primary at this position of the cluster list.
    Primary(usize),
    /// The proxy's own node.
    ProxySelf,
}

/// The static slot assignment of a cluster.
pub struct Router {
    masters: Vec<String>,
    slot_belong: Vec<usize>,
}

impl Router {
    /// The primaries, in configuration order.
    pub closed spec fn primaries(&self) -> Seq<Seq<char>> {
        self.masters@.map_values(|s: String| s@)
    }

    pub closed spec fn wf(&self) -> bool {
        &&& self.masters@.len() >= 1
        &&& self.slot_belong@.len() == SLOTS
        &&& forall|i: int|
            0 <= i < SLOTS ==> #[trigger] self.slot_belong@[i] as nat == owner_of(
                i as nat,
                self.masters@.len(),
            ) && self.slot_belong@[i] < self.masters@.len()
    }

    /// Splits the slots into contiguous ranges over `masters`; `None` for an
    /// empty cluster.
    pub fn new(masters: Vec<String>) -> (r: Option<Router>)
        ensures
            masters@.len() == 0 <==> r is None,
            r matches Some(rt) ==> rt.wf() && rt.primaries() == masters@.map_values(|s: String| s@),
    {
        let m = masters.len();
        if m == 0 {
            return None;
        }
        let per = if m >= SLOTS {
            1
        } else {
            (SLOTS + m - 1) / m
        };
        assert(per as int == (SLOTS + m - 1) as int / m as int) by {
            if m >= SLOTS {
                assert((SLOTS + m - 1) as int / m as int == 1) by (nonlinear_arith)
                    requires
                        m >= SLOTS,
                        SLOTS == 16384,
                ;
            }
        }
        assert(per as nat == slots_per(m as nat));
        assert(per * m >= SLOTS) by (nonlinear_arith)
            requires
                per as int == (SLOTS + m - 1) as int / m as int,
                m >= 1,
        ;
        assert(per >= 1) by (nonlinear_arith)
            requires
                per * m >= SLOTS,
                m >= 1,
        ;
        let mut slot_belong: Vec<usize> = Vec::new();
        let mut i: usize = 0;
        while i < SLOTS
            invariant
                m == masters@.len(),
                m >= 1,
                per as nat == slots_per(m as nat),
                per >= 1,
                per * m >= SLOTS,
                i <= SLOTS,
                slot_belong@.len() == i,
                forall|j: int|
                    0 <= j < i ==> #[trigger] slot_belong@[j] as nat == owner_of(j as nat, m as nat)
                        && slot_belong@[j] < m,
            decreases SLOTS - i,
        {
            let o = i / per;
            assert(o < m) by (nonlinear_arith)
                requires
                    o == i / per,
                    i < SLOTS,
                    per * m >= SLOTS,
                    per >= 1,
            ;
            slot_belong.push(o);
            i += 1;
        }
        Some(Router { masters, slot_belong })
    }

    /// The primary that owns `slot`.
    pub fn owner(&self, slot: usize) -> (r: usize)
        requires
            self.wf(),
            slot < SLOTS,
        ensures
            r as nat == owner_of(slot as nat, self.primaries().len()),
            r < self.primaries().len(),
    {
        self.slot_belong[slot]
    }

    /// The address of the primary at position `i`.
    pub fn primary(&self, i: usize) -> (r: &String)
        requires
            i < self.primaries().len(),
        ensures
            r@ == self.primaries()[i as int],
    {
        &self.masters[i]
    }

    /// Where a request goes: a keyed read or write to the primary that owns
    /// its key's slot, anything else to the proxy's own node.
    pub fn route(&self, cmd: RedisCommand, key: Option<&str>) -> (r: Target)
        requires
            self.wf(),
        ensures
            match key {
                Some(k) if cmd == RedisCommand::Get || cmd == RedisCommand::SetKey || cmd
                    == RedisCommand::Del => r == Target::Primary(
                    owner_of(
                        (fnv1a(k.spec_bytes()) % (SLOTS as u64)) as nat,
                        self.primaries().len(),
                    ) as usize,
                ),
                _ => r == Target::ProxySelf,
            },
            r matches Target::Primary(i) ==> i < self.primaries().len(),
    {
        match key {
            Some(k) => {
                if cmd == RedisCommand::Get || cmd == RedisCommand::SetKey || cmd == RedisCommand::Del {
                    Target::Primary(self.owner(slot_of(k)))
                } else {
                    Target::ProxySelf
                }
            },
            None => Target::ProxySelf,
        }
    }
}

} // verus!
