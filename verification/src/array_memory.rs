//! Theories-of-array memory.
//!
//! The memory is a linear, byte-addressable space whose addresses and
//! contents are symbolic expressions. A write splits its value into bytes
//! and records one store per byte; a read selects each byte among the
//! recorded stores and joins the bytes in the memory's byte order. Reads and
//! writes at constant addresses resolve at once; others leave a chain of
//! comparisons in the result.

use vstd::prelude::*;
use crate::error::MemoryError;
use crate::expr::{BinOp, Expr};
use crate::general::Endianness;

verus! {

/// Number of bits in one memory cell.
pub const BITS_IN_BYTE: u32 = 8;

/// One byte written to memory.
#[derive(Debug)]
pub struct Store {
    pub address: Expr,
    pub value: Expr,
}

impl Clone for Store {
    fn clone(&self) -> (r: Self)
        ensures
            r == *self,
    {
        Store { address: self.address.clone(), value: self.value.clone() }
    }
}

/// Byte-addressable memory over symbolic addresses.
#[derive(Debug)]
pub struct ArrayMemory {
    /// Size of a pointer in bits.
    pub ptr_size: u32,
    /// Every byte written so far, oldest first.
    pub stores: Vec<Store>,
    /// Memory endianness.
    pub endianness: Endianness,
}

impl Clone for ArrayMemory {
    fn clone(&self) -> (r: Self)
        ensures
            r.ptr_size == self.ptr_size,
            r.endianness == self.endianness,
            r.stores@ == self.stores@,
    {
        let stores: Vec<Store> = self.stores.clone();
        assert(stores@ =~= self.stores@);
        ArrayMemory { ptr_size: self.ptr_size, stores, endianness: self.endianness }
    }
}

/// The byte found at `addr` after the given stores: the value of the latest
/// store to that address, and below all stores the byte that memory held at
/// the start.
pub open spec fn select(stores: Seq<Store>, addr: Expr) -> Expr
    decreases stores.len(),
{
    if stores.len() == 0 {
        Expr::Initial { address: Box::new(addr) }
    } else {
        Expr::spec_ite(
            addr.spec_eq(stores.last().address),
            stores.last().value,
            select(stores.drop_last(), addr),
        )
    }
}

/// `addr` moved up by `offset` bytes, modulo the address space.
pub open spec fn offset(addr: Expr, offset: u64, ptr_size: u32) -> Expr {
    Expr::spec_binary(BinOp::Add, addr, Expr::spec_from_u64(offset, ptr_size))
}

/// A store whose address has pointer width and whose value is one byte.
pub open spec fn store_ok(store: Store, ptr_size: u32) -> bool {
    &&& store.address.wf()
    &&& store.address.width() == ptr_size
    &&& store.value.wf()
    &&& store.value.width() == 8
}

/// Every store in the sequence has pointer-wide address and a byte value.
pub open spec fn stores_ok(stores: Seq<Store>, ptr_size: u32) -> bool {
    forall|i: int| 0 <= i < stores.len() ==> store_ok(#[trigger] stores[i], ptr_size)
}

/// The value as it is written: one narrower than a byte is widened to a
/// byte with zeros.
pub open spec fn padded(value: Expr) -> Expr {
    if value.width() < 8 {
        value.spec_zero_ext(8)
    } else {
        value
    }
}

/// Where byte `n` of a value of `count` bytes goes, relative to the address
/// of the write.
pub open spec fn byte_offset(endianness: Endianness, n: nat, count: nat) -> nat {
    match endianness {
        Endianness::Little => n,
        Endianness::Big => (count - 1 - n) as nat,
    }
}

/// The stores after the low `done` bytes of `value`, a value of `count`
/// bytes, were written at `addr`.
pub open spec fn stores_after(
    stores: Seq<Store>,
    ptr_size: u32,
    endianness: Endianness,
    addr: Expr,
    value: Expr,
    count: nat,
    done: nat,
) -> Seq<Store>
    decreases done,
{
    if done == 0 {
        stores
    } else {
        let n = (done - 1) as nat;
        stores_after(stores, ptr_size, endianness, addr, value, count, n).push(
            Store {
                address: offset(addr, byte_offset(endianness, n, count) as u64, ptr_size),
                value: value.spec_slice((8 * n) as u32, (8 * n + 7) as u32),
            },
        )
    }
}

/// Bytes `0..n` at `addr`, joined with byte 0 lowest.
pub open spec fn read_le(stores: Seq<Store>, ptr_size: u32, addr: Expr, n: nat) -> Expr
    decreases n,
{
    if n <= 1 {
        select(stores, offset(addr, 0, ptr_size))
    } else {
        select(stores, offset(addr, (n - 1) as u64, ptr_size)).spec_concat(
            read_le(stores, ptr_size, addr, (n - 1) as nat),
        )
    }
}

/// Bytes `k..n` at `addr`, joined with byte `k` highest.
pub open spec fn read_be(stores: Seq<Store>, ptr_size: u32, addr: Expr, k: nat, n: nat) -> Expr
    decreases n - k,
{
    if k + 1 >= n {
        select(stores, offset(addr, (n - 1) as u64, ptr_size))
    } else {
        select(stores, offset(addr, k as u64, ptr_size)).spec_concat(
            read_be(stores, ptr_size, addr, k + 1, n),
        )
    }
}

/// An access of `bits` bits at `addr` that memory takes: the address has the
/// width of a pointer, and there is at least one bit, and from 8 bits on a
/// whole number of bytes.
pub open spec fn access_ok(ptr_size: u32, addr: Expr, bits: u32) -> bool {
    &&& addr.width() == ptr_size
    &&& 1 <= bits
    &&& (bits < 8 || bits % 8 == 0)
}

/// What a read of `bits` bits at `addr` yields after the given stores: less
/// than a byte from the low bits of the byte at `addr`, whole bytes joined in
/// byte order.
pub open spec fn spec_read(
    stores: Seq<Store>,
    ptr_size: u32,
    endianness: Endianness,
    addr: Expr,
    bits: u32,
) -> Expr {
    if bits < 8 {
        select(stores, addr).spec_slice(0, (bits - 1) as u32)
    } else {
        match endianness {
            Endianness::Little => read_le(stores, ptr_size, addr, (bits / 8) as nat),
            Endianness::Big => read_be(stores, ptr_size, addr, 0, (bits / 8) as nat),
        }
    }
}

/// The stores after `value` was written at `addr`.
pub open spec fn spec_write(
    stores: Seq<Store>,
    ptr_size: u32,
    endianness: Endianness,
    addr: Expr,
    value: Expr,
) -> Seq<Store> {
    let count = padded(value).width() / 8;
    stores_after(stores, ptr_size, endianness, addr, padded(value), count, count)
}

impl ArrayMemory {
    /// The pointer size is one that constants can hold, and every store has
    /// a pointer-wide address and a byte value.
    pub open spec fn wf(self) -> bool {
        &&& 1 <= self.ptr_size <= 64
        &&& stores_ok(self.stores@, self.ptr_size)
    }

    /// Creates a new memory containing only uninitialized memory.
    pub fn new(ptr_size: u32, endianness: Endianness) -> (r: Self)
        requires
            1 <= ptr_size <= 64,
        ensures
            r.ptr_size == ptr_size,
            r.endianness == endianness,
            r.stores@ == Seq::<Store>::empty(),
            r.wf(),
    {
        ArrayMemory { ptr_size, stores: Vec::new(), endianness }
    }

    /// The addresses that an access at `addr` may touch: array memory is
    /// accessed at symbolic addresses, so `addr` itself.
    pub fn resolve_addresses(&self, addr: &Expr, _upper_bound: usize) -> (r: Result<
        Vec<Expr>,
        MemoryError,
    >)
        ensures
            r matches Ok(v) && v@ == seq![*addr],
    {
        let mut v: Vec<Expr> = Vec::new();
        v.push(addr.clone());
        assert(v@ =~= seq![*addr]);
        Ok(v)
    }

    /// Reads `bits` bits at `addr`: less than a byte from the low bits of the
    /// byte there, whole bytes joined in the memory's byte order. Fails with
    /// `InconsistentWidth` where the address has not the width of a pointer,
    /// or `bits` is zero or is more than 8 and no multiple of 8.
    pub fn read(&self, addr: &Expr, bits: u32) -> (r: Result<Expr, MemoryError>)
        requires
            self.wf(),
            addr.wf(),
        ensures
            match r {
                Ok(e) => access_ok(self.ptr_size, *addr, bits) && e == spec_read(
                    self.stores@,
                    self.ptr_size,
                    self.endianness,
                    *addr,
                    bits,
                ) && e.wf() && e.width() == bits,
                Err(e) => e == MemoryError::InconsistentWidth && !access_ok(
                    self.ptr_size,
                    *addr,
                    bits,
                ),
            },
    {
        if addr.len() != self.ptr_size || bits < 1 || (bits >= BITS_IN_BYTE && bits % BITS_IN_BYTE
            != 0) {
            return Err(MemoryError::InconsistentWidth);
        }
        let value: Expr = self.internal_read(addr, bits);
        Ok(value)
    }

    /// Writes `value` at `addr`, byte by byte in the memory's byte order; a
    /// value narrower than a byte is widened to one first. Fails with
    /// `InconsistentWidth`, and writes nothing, where the address has not
    /// the width of a pointer, or the value is wider than a byte and no
    /// whole number of bytes.
    pub fn write(&mut self, addr: &Expr, value: Expr) -> (r: Result<(), MemoryError>)
        requires
            old(self).wf(),
            addr.wf(),
            value.wf(),
        ensures
            final(self).ptr_size == old(self).ptr_size,
            final(self).endianness == old(self).endianness,
            final(self).wf(),
            match r {
                Ok(_) => access_ok(old(self).ptr_size, *addr, value.width() as u32)
                    && final(self).stores@ == spec_write(
                    old(self).stores@,
                    old(self).ptr_size,
                    old(self).endianness,
                    *addr,
                    value,
                ),
                Err(e) => e == MemoryError::InconsistentWidth && !access_ok(
                    old(self).ptr_size,
                    *addr,
                    value.width() as u32,
                ) && final(self).stores@ == old(self).stores@,
            },
    {
        let bits: u32 = value.len();
        if addr.len() != self.ptr_size || (bits >= BITS_IN_BYTE && bits % BITS_IN_BYTE != 0) {
            return Err(MemoryError::InconsistentWidth);
        }
        self.internal_write(addr, value);
        Ok(())
    }

    /// The byte at `addr` moved up by `index` bytes.
    fn read_byte_at(&self, addr: &Expr, index: u32) -> (r: Expr)
        requires
            self.wf(),
            addr.wf(),
            addr.width() == self.ptr_size,
        ensures
            r == select(self.stores@, offset(*addr, index as u64, self.ptr_size)),
            r.wf(),
            r.width() == 8,
    {
        let step: Expr = Expr::from_u64(index as u64, self.ptr_size);
        let read_addr: Expr = addr.add(&step);
        self.read_u8(&read_addr)
    }

    /// Reads `bits` from `addr`.
    ///
    /// If the number of bits is less than `BITS_IN_BYTE` then individual
    /// bits can be read, but from `BITS_IN_BYTE` on only full bytes.
    fn internal_read(&self, addr: &Expr, bits: u32) -> (r: Expr)
        requires
            self.wf(),
            addr.wf(),
            addr.width() == self.ptr_size,
            1 <= bits,
            bits < 8 || bits % 8 == 0,
        ensures
            r == spec_read(self.stores@, self.ptr_size, self.endianness, *addr, bits),
            r.wf(),
            r.width() == bits,
    {
        if bits < BITS_IN_BYTE {
            self.read_u8(addr).slice(0, bits - 1)
        } else {
            let num_bytes: u32 = bits / BITS_IN_BYTE;
            match self.endianness {
                Endianness::Little => {
                    let mut acc: Expr = self.read_byte_at(addr, 0);
                    let mut k: u32 = 1;
                    while k < num_bytes
                        invariant
                            self.wf(),
                            addr.wf(),
                            addr.width() == self.ptr_size,
                            1 <= k <= num_bytes,
                            num_bytes * 8 <= u32::MAX,
                            acc == read_le(self.stores@, self.ptr_size, *addr, k as nat),
                            acc.wf(),
                            acc.width() == 8 * k,
                        decreases num_bytes - k,
                    {
                        let byte: Expr = self.read_byte_at(addr, k);
                        acc = byte.concat(&acc);
                        k = k + 1;
                    }
                    acc
                },
                Endianness::Big => {
                    let mut acc: Expr = self.read_byte_at(addr, num_bytes - 1);
                    let mut k: u32 = num_bytes - 1;
                    while k > 0
                        invariant
                            self.wf(),
                            addr.wf(),
                            addr.width() == self.ptr_size,
                            0 <= k < num_bytes,
                            num_bytes * 8 <= u32::MAX,
                            acc == read_be(
                                self.stores@,
                                self.ptr_size,
                                *addr,
                                k as nat,
                                num_bytes as nat,
                            ),
                            acc.wf(),
                            acc.width() == 8 * (num_bytes - k),
                        decreases k,
                    {
                        k = k - 1;
                        let byte: Expr = self.read_byte_at(addr, k);
                        acc = byte.concat(&acc);
                    }
                    acc
                },
            }
        }
    }

    /// Writes `value` at `addr`, one store per byte.
    fn internal_write(&mut self, addr: &Expr, value: Expr)
        requires
            old(self).wf(),
            addr.wf(),
            addr.width() == old(self).ptr_size,
            value.wf(),
            value.width() < 8 || value.width() % 8 == 0,
        ensures
            final(self).stores@ == spec_write(
                old(self).stores@,
                old(self).ptr_size,
                old(self).endianness,
                *addr,
                value,
            ),
            final(self).ptr_size == old(self).ptr_size,
            final(self).endianness == old(self).endianness,
            final(self).wf(),
    {
        // Check if we should zero extend the value (if it is less than 8 bits).
        let value: Expr = if value.len() < BITS_IN_BYTE {
            value.zero_ext(BITS_IN_BYTE)
        } else {
            value
        };
        let num_bytes: u32 = value.len() / BITS_IN_BYTE;
        let mut n: u32 = 0;
        while n < num_bytes
            invariant
                self.wf(),
                8 * num_bytes <= u32::MAX,
                addr.wf(),
                addr.width() == self.ptr_size,
                value.wf(),
                value.width() == 8 * num_bytes,
                0 <= n <= num_bytes,
                self.ptr_size == old(self).ptr_size,
                self.endianness == old(self).endianness,
                self.stores@ == stores_after(
                    old(self).stores@,
                    self.ptr_size,
                    self.endianness,
                    *addr,
                    value,
                    num_bytes as nat,
                    n as nat,
                ),
            decreases num_bytes - n,
        {
            let low_bit: u32 = n * BITS_IN_BYTE;
            let high_bit: u32 = (n + 1) * BITS_IN_BYTE - 1;
            let byte: Expr = value.slice(low_bit, high_bit);
            let step: Expr = match self.endianness {
                Endianness::Little => Expr::from_u64(n as u64, self.ptr_size),
                Endianness::Big => Expr::from_u64((num_bytes - 1 - n) as u64, self.ptr_size),
            };
            let target: Expr = addr.add(&step);
            self.write_u8(&target, byte);
            n = n + 1;
        }
    }

    /// Reads an u8 from the given address.
    pub fn read_u8(&self, addr: &Expr) -> (r: Expr)
        requires
            self.wf(),
            addr.wf(),
            addr.width() == self.ptr_size,
        ensures
            r == select(self.stores@, *addr),
            r.wf(),
            r.width() == 8,
    {
        let mut acc: Expr = Expr::Initial { address: Box::new(addr.clone()) };
        let mut i: usize = 0;
        while i < self.stores.len()
            invariant
                self.wf(),
                addr.wf(),
                addr.width() == self.ptr_size,
                0 <= i <= self.stores.len(),
                acc == select(self.stores@.take(i as int), *addr),
                acc.wf(),
                acc.width() == 8,
            decreases self.stores.len() - i,
        {
            let store: &Store = &self.stores[i];
            assert(store_ok(self.stores@[i as int], self.ptr_size));
            let hit: Expr = addr.eq(&store.address);
            proof {
                let next = self.stores@.take(i + 1);
                assert(next.last() == self.stores@[i as int]);
                assert(next.drop_last() =~= self.stores@.take(i as int));
            }
            acc = Expr::ite(&hit, store.value.clone(), acc);
            i = i + 1;
        }
        assert(self.stores@.take(i as int) =~= self.stores@);
        acc
    }

    /// Writes an u8 value to the given address.
    pub fn write_u8(&mut self, addr: &Expr, val: Expr)
        requires
            old(self).wf(),
            addr.wf(),
            addr.width() == old(self).ptr_size,
            val.wf(),
            val.width() == 8,
        ensures
            final(self).stores@ == old(self).stores@.push(Store { address: *addr, value: val }),
            final(self).ptr_size == old(self).ptr_size,
            final(self).endianness == old(self).endianness,
            final(self).wf(),
    {
        self.stores.push(Store { address: addr.clone(), value: val });
    }
}

/// Selecting at a constant address after a store to a constant address:
/// the stored byte where the two addresses agree, else what was there
/// before the store.
pub proof fn lemma_select_push_const(
    stores: Seq<Store>,
    target: u64,
    byte: Expr,
    probe: u64,
    ptr_size: u32,
)
    ensures
        select(
            stores.push(
                Store { address: Expr::Const { value: target, width: ptr_size }, value: byte },
            ),
            Expr::Const { value: probe, width: ptr_size },
        ) == if probe == target {
            byte
        } else {
            select(stores, Expr::Const { value: probe, width: ptr_size })
        },
{
    let pushed = stores.push(
        Store { address: Expr::Const { value: target, width: ptr_size }, value: byte },
    );
    assert(pushed.drop_last() =~= stores);
    assert(pushed.last().value == byte);
}

/// A constant address moved up by fewer than eight bytes is a constant, and
/// two different such offsets give two different addresses.
pub proof fn lemma_offset_const(base: u64, ptr_size: u32, x: u64, y: u64)
    requires
        3 <= ptr_size <= 64,
        base <= crate::expr::mask(ptr_size),
        x < 8,
        y < 8,
    ensures
        offset(Expr::Const { value: base, width: ptr_size }, x, ptr_size) is Const,
        offset(Expr::Const { value: base, width: ptr_size }, x, ptr_size).width() == ptr_size,
        (offset(Expr::Const { value: base, width: ptr_size }, x, ptr_size) == offset(
            Expr::Const { value: base, width: ptr_size },
            y,
            ptr_size,
        )) == (x == y),
{
    let m: u64 = crate::expr::mask(ptr_size);
    let modulus: int = crate::expr::modulus(ptr_size);
    crate::expr::lemma_mask_monotone(3, ptr_size);
    crate::expr::lemma_mask_shape(3);
    assert((1u64 << 3u64) == 8) by (bit_vector);
    crate::expr::lemma_truncate_small(x, ptr_size);
    crate::expr::lemma_truncate_small(y, ptr_size);
    if base as int + x as int >= modulus {
        crate::expr::lemma_mod_window(base as int + x as int, modulus, 1);
    } else {
        crate::expr::lemma_mod_window(base as int + x as int, modulus, 0);
    }
    if base as int + y as int >= modulus {
        crate::expr::lemma_mod_window(base as int + y as int, modulus, 1);
    } else {
        crate::expr::lemma_mod_window(base as int + y as int, modulus, 0);
    }
}

/// After the low `done` bytes of a value of `count` bytes were written at a
/// constant address, the byte selected `j` bytes above that address is the
/// byte of the value that belongs there, if it was written already, and
/// else what the earlier stores give.
pub proof fn lemma_select_after_write(
    stores: Seq<Store>,
    ptr_size: u32,
    endianness: Endianness,
    base: u64,
    value: Expr,
    count: nat,
    done: nat,
    j: nat,
)
    requires
        3 <= ptr_size <= 64,
        base <= crate::expr::mask(ptr_size),
        1 <= count <= 8,
        done <= count,
        j < count,
    ensures
        select(
            stores_after(
                stores,
                ptr_size,
                endianness,
                Expr::Const { value: base, width: ptr_size },
                value,
                count,
                done,
            ),
            offset(Expr::Const { value: base, width: ptr_size }, j as u64, ptr_size),
        ) == if byte_offset(endianness, j, count) < done {
            value.spec_slice(
                (8 * byte_offset(endianness, j, count)) as u32,
                (8 * byte_offset(endianness, j, count) + 7) as u32,
            )
        } else {
            select(
                stores,
                offset(Expr::Const { value: base, width: ptr_size }, j as u64, ptr_size),
            )
        },
    decreases done,
{
    if done > 0 {
        let addr = Expr::Const { value: base, width: ptr_size };
        let n = (done - 1) as nat;
        lemma_select_after_write(stores, ptr_size, endianness, base, value, count, n, j);
        let at = byte_offset(endianness, n, count);
        lemma_offset_const(base, ptr_size, at as u64, j as u64);
        lemma_offset_const(base, ptr_size, j as u64, at as u64);
        let target = offset(addr, at as u64, ptr_size);
        let probe = offset(addr, j as u64, ptr_size);
        let byte = value.spec_slice((8 * n) as u32, (8 * n + 7) as u32);
        let before = stores_after(stores, ptr_size, endianness, addr, value, count, n);
        lemma_select_push_const(before, target->value, byte, probe->value, ptr_size);
        assert(target == Expr::Const { value: target->value, width: ptr_size });
        assert(probe == Expr::Const { value: probe->value, width: ptr_size });
    }
}

/// A byte of a value placed above the bytes below it gives the value up to
/// and with that byte.
pub proof fn lemma_join_adjacent_slices(value: Expr, k: nat)
    requires
        value.wf(),
        1 <= k,
        8 * k + 8 <= value.width(),
    ensures
        value.spec_slice((8 * k) as u32, (8 * k + 7) as u32).spec_concat(
            value.spec_slice(0, (8 * k - 1) as u32),
        ) == value.spec_slice(0, (8 * k + 7) as u32),
{
    value.lemma_width_bounds();
    match value {
        Expr::Const { value: x, width } => {
            let s: u64 = (8 * k) as u64;
            crate::expr::lemma_mask_shape(8);
            crate::expr::lemma_mask_shape((8 * k) as u32);
            assert((1u64 << 8u64) - 1 == 0xff) by (bit_vector);
            if 8 * k + 8 < 64 {
                crate::expr::lemma_mask_shape((8 * k + 8) as u32);
                assert(s < 56 ==> ((((x >> s) & 0xff) << s) | ((x >> 0) & (((1u64 << s) - 1) as u64)))
                    == (x >> 0) & (((1u64 << ((s + 8) as u64)) - 1) as u64)) by (bit_vector);
            } else {
                assert(s == 56 ==> ((((x >> s) & 0xff) << s) | ((x >> 0) & (((1u64 << s) - 1) as u64)))
                    == (x >> 0) & 0xffff_ffff_ffff_ffff) by (bit_vector);
            }
        },
        _ => {
            value.lemma_eqv_reflexive();
        },
    }
}

/// The slice that covers a whole expression is the expression.
pub proof fn lemma_whole_slice(value: Expr)
    requires
        value.wf(),
    ensures
        value.spec_slice(0, (value.width() - 1) as u32) == value,
{
    value.lemma_width_bounds();
    match value {
        Expr::Const { value: x, width } => {
            crate::expr::lemma_truncate_small(x, width);
            assert(x >> 0 == x) by (bit_vector);
        },
        _ => {},
    }
}

/// Reading the low `k` bytes, in little-endian order, where a value of
/// `count` bytes was written at a constant address gives the low `k` bytes
/// of the value.
pub proof fn lemma_read_le_after_write(
    stores: Seq<Store>,
    ptr_size: u32,
    base: u64,
    value: Expr,
    count: nat,
    k: nat,
)
    requires
        3 <= ptr_size <= 64,
        base <= crate::expr::mask(ptr_size),
        value.wf(),
        value.width() == 8 * count,
        1 <= k <= count <= 8,
    ensures
        read_le(
            stores_after(
                stores,
                ptr_size,
                Endianness::Little,
                Expr::Const { value: base, width: ptr_size },
                value,
                count,
                count,
            ),
            ptr_size,
            Expr::Const { value: base, width: ptr_size },
            k,
        ) == value.spec_slice(0, (8 * k - 1) as u32),
    decreases k,
{
    let j = (k - 1) as nat;
    lemma_select_after_write(stores, ptr_size, Endianness::Little, base, value, count, count, j);
    if k > 1 {
        lemma_read_le_after_write(stores, ptr_size, base, value, count, j);
        lemma_join_adjacent_slices(value, j);
    }
}

/// Reading bytes `k..count`, in big-endian order, where a value of `count`
/// bytes was written at a constant address gives the low `count - k` bytes
/// of the value.
pub proof fn lemma_read_be_after_write(
    stores: Seq<Store>,
    ptr_size: u32,
    base: u64,
    value: Expr,
    count: nat,
    k: nat,
)
    requires
        3 <= ptr_size <= 64,
        base <= crate::expr::mask(ptr_size),
        value.wf(),
        value.width() == 8 * count,
        k < count <= 8,
    ensures
        read_be(
            stores_after(
                stores,
                ptr_size,
                Endianness::Big,
                Expr::Const { value: base, width: ptr_size },
                value,
                count,
                count,
            ),
            ptr_size,
            Expr::Const { value: base, width: ptr_size },
            k,
            count,
        ) == value.spec_slice(0, (8 * (count - k) - 1) as u32),
    decreases count - k,
{
    if k + 1 >= count {
        lemma_select_after_write(
            stores,
            ptr_size,
            Endianness::Big,
            base,
            value,
            count,
            count,
            (count - 1) as nat,
        );
    } else {
        lemma_select_after_write(stores, ptr_size, Endianness::Big, base, value, count, count, k);
        lemma_read_be_after_write(stores, ptr_size, base, value, count, k + 1);
        lemma_join_adjacent_slices(value, (count - 1 - k) as nat);
    }
}

/// Endianness round trip: a value of one to eight whole bytes that is
/// written at a constant address is what a read of its width at that address
/// returns, in either byte order and whatever was stored before. The
/// address space must hold eight bytes (a pointer of three bits or more),
/// so that the bytes of one value do not fall on one another.
pub proof fn lemma_write_read_round_trip(
    stores: Seq<Store>,
    ptr_size: u32,
    endianness: Endianness,
    addr: Expr,
    value: Expr,
)
    requires
        3 <= ptr_size <= 64,
        addr is Const,
        addr.wf(),
        addr.width() == ptr_size,
        value.wf(),
        value.width() % 8 == 0,
        8 <= value.width() <= 64,
    ensures
        spec_read(
            spec_write(stores, ptr_size, endianness, addr, value),
            ptr_size,
            endianness,
            addr,
            value.width() as u32,
        ) == value,
{
    let count = value.width() / 8;
    let base = addr->value;
    assert(addr == Expr::Const { value: base, width: ptr_size });
    lemma_whole_slice(value);
    match endianness {
        Endianness::Little => {
            lemma_read_le_after_write(stores, ptr_size, base, value, count, count);
        },
        Endianness::Big => {
            lemma_read_be_after_write(stores, ptr_size, base, value, count, 0);
        },
    }
}

} // verus!
