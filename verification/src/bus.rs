//! The path to the hardware: a device that takes loads and stores, and a port
//! that records every access handed to it.

use vstd::prelude::*;

verus! {

/// One thing the driver did to the device.
#[derive(Clone, Copy, Debug, PartialEq, Eq, Structural)]
pub enum Access {
    /// A 32-bit load from `addr` that returned `value`.
    Read { addr: usize, value: u32 },
    /// A 32-bit store of `value` to `addr`.
    Write { addr: usize, value: u32 },
    /// A busy wait of `spins` idle iterations.
    Delay { spins: u32 },
}

/// A memory-mapped device. Every access is one volatile 32-bit load or store.
/// Nothing is assumed of what a load returns.
pub trait Mmio {
    /// Loads the word at `addr`.
    fn read32(&mut self, addr: usize) -> u32;

    /// Stores `value` to the word at `addr`.
    fn write32(&mut self, addr: usize, value: u32);

    /// Idles for `spins` iterations.
    fn delay(&mut self, spins: u32);
}

/// A device together with the record of all accesses made through it.
///
/// The device is private to the port, so the record is complete: whatever
/// reached the device went through one of the three methods below.
pub struct Port<B: Mmio> {
    bus: B,
    log: Ghost<Seq<Access>>,
}

impl<B: Mmio> Port<B> {
    /// The accesses made so far, oldest first.
    pub closed spec fn trace(&self) -> Seq<Access> {
        self.log@
    }

    /// The accesses made after `before` was taken.
    pub open spec fn since(&self, before: Seq<Access>) -> Seq<Access> {
        self.trace().skip(before.len() as int)
    }

    /// The record only grows: `before` is what it held at some earlier time.
    pub open spec fn extends(&self, before: Seq<Access>) -> bool {
        before.len() <= self.trace().len() && self.trace().take(before.len() as int) == before
    }

    /// The device behind the port, as it is now.
    pub closed spec fn device(&self) -> B {
        self.bus
    }

    /// Takes ownership of a device. The record starts empty.
    pub fn new(bus: B) -> (port: Self)
        ensures
            port.trace() == Seq::<Access>::empty(),
            port.device() == bus,
    {
        Port { bus, log: Ghost(Seq::empty()) }
    }

    /// Loads the word at `addr`.
    pub fn read(&mut self, addr: usize) -> (value: u32)
        ensures
            final(self).trace() == old(self).trace().push(Access::Read { addr, value }),
            final(self).extends(old(self).trace()),
            final(self).since(old(self).trace()) == seq![Access::Read { addr, value }],
    {
        let value = self.bus.read32(addr);
        proof {
            self.log@ = self.log@.push(Access::Read { addr, value });
            assert(self.log@.take(old(self).log@.len() as int) =~= old(self).log@);
            assert(self.log@.skip(old(self).log@.len() as int) =~= seq![Access::Read { addr, value }]);
        }
        value
    }

    /// Stores `value` to the word at `addr`.
    pub fn write(&mut self, addr: usize, value: u32)
        ensures
            final(self).trace() == old(self).trace().push(Access::Write { addr, value }),
            final(self).extends(old(self).trace()),
            final(self).since(old(self).trace()) == seq![Access::Write { addr, value }],
    {
        self.bus.write32(addr, value);
        proof {
            self.log@ = self.log@.push(Access::Write { addr, value });
            assert(self.log@.take(old(self).log@.len() as int) =~= old(self).log@);
            assert(self.log@.skip(old(self).log@.len() as int) =~= seq![Access::Write { addr, value }]);
        }
    }

    /// Idles for `spins` iterations.
    pub fn delay(&mut self, spins: u32)
        ensures
            final(self).trace() == old(self).trace().push(Access::Delay { spins }),
            final(self).extends(old(self).trace()),
            final(self).since(old(self).trace()) == seq![Access::Delay { spins }],
    {
        self.bus.delay(spins);
        proof {
            self.log@ = self.log@.push(Access::Delay { spins });
            assert(self.log@.take(old(self).log@.len() as int) =~= old(self).log@);
            assert(self.log@.skip(old(self).log@.len() as int) =~= seq![Access::Delay { spins }]);
        }
    }

    /// Gives the device back.
    pub fn into_inner(self) -> (bus: B)
        ensures
            bus == self.device(),
    {
        self.bus
    }
}

/// The values that the loads from `addr` in `s` returned, in order.
pub open spec fn loads_from(s: Seq<Access>, addr: usize) -> Seq<u32>
    decreases s.len(),
{
    if s.len() == 0 {
        Seq::empty()
    } else {
        let rest = loads_from(s.drop_last(), addr);
        match s.last() {
            Access::Read { addr: a, value } => if a == addr {
                rest.push(value)
            } else {
                rest
            },
            _ => rest,
        }
    }
}

/// The values that the stores to `addr` in `s` wrote, in order.
pub open spec fn stores_to(s: Seq<Access>, addr: usize) -> Seq<u32>
    decreases s.len(),
{
    if s.len() == 0 {
        Seq::empty()
    } else {
        let rest = stores_to(s.drop_last(), addr);
        match s.last() {
            Access::Write { addr: a, value } => if a == addr {
                rest.push(value)
            } else {
                rest
            },
            _ => rest,
        }
    }
}

/// `a` is a load from `addr`.
pub open spec fn is_load_from(a: Access, addr: usize) -> bool {
    a matches Access::Read { addr: x, .. } && x == addr
}

/// `a` is a store to `addr`.
pub open spec fn is_store_to(a: Access, addr: usize) -> bool {
    a matches Access::Write { addr: x, .. } && x == addr
}

/// `a` touches nothing but the register at `addr`: it is a load from it, a
/// store to it, or a pause.
pub open spec fn confined(a: Access, addr: usize) -> bool {
    match a {
        Access::Read { addr: x, .. } => x == addr,
        Access::Write { addr: x, .. } => x == addr,
        Access::Delay { .. } => true,
    }
}

/// A record that touches only the register at `addr` has neither loads
/// from nor stores to any other register.
pub proof fn lemma_confined_elsewhere(s: Seq<Access>, addr: usize, other: usize)
    requires
        forall|i: int| 0 <= i < s.len() ==> confined(#[trigger] s[i], addr),
        other != addr,
    ensures
        loads_from(s, other) == Seq::<u32>::empty(),
        stores_to(s, other) == Seq::<u32>::empty(),
{
    assert forall|i: int| 0 <= i < s.len() implies !is_load_from(#[trigger] s[i], other) by {
        assert(confined(s[i], addr));
    }
    assert forall|i: int| 0 <= i < s.len() implies !is_store_to(#[trigger] s[i], other) by {
        assert(confined(s[i], addr));
    }
    lemma_loads_none(s, other);
    lemma_stores_none(s, other);
}

/// The loads of a record in two parts are those of the first part followed
/// by those of the second.
pub proof fn lemma_loads_concat(a: Seq<Access>, b: Seq<Access>, addr: usize)
    ensures
        loads_from(a + b, addr) == loads_from(a, addr) + loads_from(b, addr),
    decreases b.len(),
{
    if b.len() == 0 {
        assert(a + b =~= a);
        assert(loads_from(a, addr) + loads_from(b, addr) =~= loads_from(a, addr));
    } else {
        assert((a + b).drop_last() =~= a + b.drop_last());
        lemma_loads_concat(a, b.drop_last(), addr);
        assert((a + b).last() == b.last());
        assert(loads_from(a + b, addr) =~= loads_from(a, addr) + loads_from(b, addr));
    }
}

/// The stores of a record in two parts are those of the first part followed
/// by those of the second.
pub proof fn lemma_stores_concat(a: Seq<Access>, b: Seq<Access>, addr: usize)
    ensures
        stores_to(a + b, addr) == stores_to(a, addr) + stores_to(b, addr),
    decreases b.len(),
{
    if b.len() == 0 {
        assert(a + b =~= a);
        assert(stores_to(a, addr) + stores_to(b, addr) =~= stores_to(a, addr));
    } else {
        assert((a + b).drop_last() =~= a + b.drop_last());
        lemma_stores_concat(a, b.drop_last(), addr);
        assert((a + b).last() == b.last());
        assert(stores_to(a + b, addr) =~= stores_to(a, addr) + stores_to(b, addr));
    }
}

/// A record without a load from `addr` has no loads from it.
pub proof fn lemma_loads_none(s: Seq<Access>, addr: usize)
    requires
        forall|i: int| 0 <= i < s.len() ==> !is_load_from(#[trigger] s[i], addr),
    ensures
        loads_from(s, addr) == Seq::<u32>::empty(),
    decreases s.len(),
{
    if s.len() > 0 {
        assert forall|i: int| 0 <= i < s.drop_last().len() implies !is_load_from(
            #[trigger] s.drop_last()[i],
            addr,
        ) by {
            assert(s.drop_last()[i] == s[i]);
        }
        lemma_loads_none(s.drop_last(), addr);
        assert(!is_load_from(s[s.len() - 1], addr));
    }
}

/// A record without a store to `addr` has no stores to it.
pub proof fn lemma_stores_none(s: Seq<Access>, addr: usize)
    requires
        forall|i: int| 0 <= i < s.len() ==> !is_store_to(#[trigger] s[i], addr),
    ensures
        stores_to(s, addr) == Seq::<u32>::empty(),
    decreases s.len(),
{
    if s.len() > 0 {
        assert forall|i: int| 0 <= i < s.drop_last().len() implies !is_store_to(
            #[trigger] s.drop_last()[i],
            addr,
        ) by {
            assert(s.drop_last()[i] == s[i]);
        }
        lemma_stores_none(s.drop_last(), addr);
        assert(!is_store_to(s[s.len() - 1], addr));
    }
}

/// A record whose only store to `addr` stands at position `j` has that one
/// value as its stores to `addr`.
pub proof fn lemma_stores_one(s: Seq<Access>, addr: usize, j: int, value: u32)
    requires
        0 <= j < s.len(),
        s[j] == (Access::Write { addr, value }),
        forall|i: int| 0 <= i < s.len() && i != j ==> !is_store_to(#[trigger] s[i], addr),
    ensures
        stores_to(s, addr) == seq![value],
{
    let a = s.take(j);
    let b = s.skip(j + 1);
    let m = seq![s[j]];
    assert(s =~= a + m + b);
    assert forall|i: int| 0 <= i < a.len() implies !is_store_to(#[trigger] a[i], addr) by {
        assert(a[i] == s[i]);
    }
    assert forall|i: int| 0 <= i < b.len() implies !is_store_to(#[trigger] b[i], addr) by {
        assert(b[i] == s[i + j + 1]);
    }
    lemma_stores_none(a, addr);
    lemma_stores_none(b, addr);
    lemma_stores_concat(a + m, b, addr);
    lemma_stores_concat(a, m, addr);
    assert(m.drop_last() =~= Seq::<Access>::empty());
    assert(stores_to(m.drop_last(), addr) =~= Seq::<u32>::empty());
    assert(stores_to(m, addr) =~= seq![value]);
    assert(stores_to(s, addr) =~= seq![value]);
}

/// How many pauses of exactly `spins` iterations `s` holds.
pub open spec fn pauses(s: Seq<Access>, spins: u32) -> nat
    decreases s.len(),
{
    if s.len() == 0 {
        0
    } else {
        pauses(s.drop_last(), spins) + if s.last() == (Access::Delay { spins }) {
            1nat
        } else {
            0nat
        }
    }
}

/// The pauses of a record in two parts are those of both parts together.
pub proof fn lemma_pauses_concat(a: Seq<Access>, b: Seq<Access>, spins: u32)
    ensures
        pauses(a + b, spins) == pauses(a, spins) + pauses(b, spins),
    decreases b.len(),
{
    if b.len() == 0 {
        assert(a + b =~= a);
    } else {
        assert((a + b).drop_last() =~= a + b.drop_last());
        lemma_pauses_concat(a, b.drop_last(), spins);
        assert((a + b).last() == b.last());
    }
}

/// A record without a pause of `spins` iterations has none to count.
pub proof fn lemma_pauses_none(s: Seq<Access>, spins: u32)
    requires
        forall|i: int| 0 <= i < s.len() ==> #[trigger] s[i] != (Access::Delay { spins }),
    ensures
        pauses(s, spins) == 0,
    decreases s.len(),
{
    if s.len() > 0 {
        assert forall|i: int| 0 <= i < s.drop_last().len() implies #[trigger] s.drop_last()[i]
            != (Access::Delay { spins }) by {
            assert(s.drop_last()[i] == s[i]);
        }
        lemma_pauses_none(s.drop_last(), spins);
        assert(s[s.len() - 1] != (Access::Delay { spins }));
    }
}

/// If `t1` extends `t0` and `t2` extends `t1`, then `t2` extends `t0`, and
/// what it added to `t0` is what `t1` added followed by what `t2` added.
pub proof fn lemma_join(t0: Seq<Access>, t1: Seq<Access>, t2: Seq<Access>)
    requires
        t0.len() <= t1.len() <= t2.len(),
        t1.take(t0.len() as int) == t0,
        t2.take(t1.len() as int) == t1,
    ensures
        t2.take(t0.len() as int) == t0,
        t2.skip(t0.len() as int) == t1.skip(t0.len() as int) + t2.skip(t1.len() as int),
{
    assert(t2.take(t0.len() as int) =~= t2.take(t1.len() as int).take(t0.len() as int));
    assert(t2.skip(t0.len() as int) =~= t2.take(t1.len() as int).skip(t0.len() as int) + t2.skip(
        t1.len() as int,
    ));
}

/// If `t1` extends `t0` and `t2` extends `t1`, then `t2` extends `t0` by what
/// the two steps added, one after the other.
pub proof fn lemma_chain(t0: Seq<Access>, t1: Seq<Access>, t2: Seq<Access>)
    requires
        t0.len() <= t1.len() <= t2.len(),
        t1.take(t0.len() as int) == t0,
        t2.take(t1.len() as int) == t1,
    ensures
        t2.take(t0.len() as int) == t0,
        t2.skip(t0.len() as int) == t1.skip(t0.len() as int) + t2.skip(t1.len() as int),
        t2.skip(t0.len() as int).len() == t2.len() - t0.len(),
        t2.skip(t0.len() as int).take(t1.len() - t0.len()) == t1.skip(t0.len() as int),
        forall|k: int|
            0 <= k < t1.len() - t0.len() ==> #[trigger] t2.skip(t0.len() as int)[k] == t1.skip(
                t0.len() as int,
            )[k],
        forall|k: int|
            0 <= k < t2.len() - t1.len() ==> t2.skip(t0.len() as int)[k + t1.len() - t0.len()]
                == #[trigger] t2.skip(t1.len() as int)[k],
{
    assert(t2.take(t0.len() as int) =~= t2.take(t1.len() as int).take(t0.len() as int));
    assert(t2.skip(t0.len() as int) =~= t2.take(t1.len() as int).skip(t0.len() as int) + t2.skip(
        t1.len() as int,
    ));
    assert(t2.skip(t0.len() as int).take(t1.len() - t0.len()) =~= t1.skip(t0.len() as int));
}

} // verus!
