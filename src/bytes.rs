use vstd::prelude::*;

verus! {

/// The order in which the bytes of a multi-byte integer are laid out.
#[derive(Clone, Copy, PartialEq, Eq, Structural)]
pub enum ByteOrder {
    Little,
    Big,
}

/// The two bytes of `x` in memory order.
pub open spec fn u16_bytes(x: u16, order: ByteOrder) -> Seq<u8> {
    let lo = (x % 256) as u8;
    let hi = (x / 256) as u8;
    match order {
        ByteOrder::Little => seq![lo, hi],
        ByteOrder::Big => seq![hi, lo],
    }
}

/// The four bytes of `x` in memory order.
pub open spec fn u32_bytes(x: u32, order: ByteOrder) -> Seq<u8> {
    let b0 = (x % 256) as u8;
    let b1 = ((x / 256) % 256) as u8;
    let b2 = ((x / 65536) % 256) as u8;
    let b3 = (x / 16777216) as u8;
    match order {
        ByteOrder::Little => seq![b0, b1, b2, b3],
        ByteOrder::Big => seq![b3, b2, b1, b0],
    }
}

/// The `u16` stored at `s[i..i + 2]`.
pub open spec fn u16_at(s: Seq<u8>, i: int, order: ByteOrder) -> u16 {
    match order {
        ByteOrder::Little => (s[i] + 256 * s[i + 1]) as u16,
        ByteOrder::Big => (256 * s[i] + s[i + 1]) as u16,
    }
}

/// The `u32` stored at `s[i..i + 4]`.
pub open spec fn u32_at(s: Seq<u8>, i: int, order: ByteOrder) -> u32 {
    match order {
        ByteOrder::Little => (s[i] + 256 * s[i + 1] + 65536 * s[i + 2] + 16777216 * s[i
            + 3]) as u32,
        ByteOrder::Big => (16777216 * s[i] + 65536 * s[i + 1] + 256 * s[i + 2] + s[i
            + 3]) as u32,
    }
}

/// The `i32` (a C `int`) stored at `s[i..i + 4]`, in two's complement.
pub open spec fn i32_at(s: Seq<u8>, i: int, order: ByteOrder) -> i32 {
    u32_at(s, i, order) as i32
}

/// Reading back the bytes of a `u16` gives the `u16`.
pub proof fn lemma_u16_round_trip(x: u16, order: ByteOrder)
    ensures
        u16_bytes(x, order).len() == 2,
        u16_at(u16_bytes(x, order), 0, order) == x,
{
}

/// Reading back the bytes of a `u32` gives the `u32`.
pub proof fn lemma_u32_round_trip(x: u32, order: ByteOrder)
    ensures
        u32_bytes(x, order).len() == 4,
        u32_at(u32_bytes(x, order), 0, order) == x,
{
    assert(x == x % 256 + 256 * ((x / 256) % 256) + 65536 * ((x / 65536) % 256) + 16777216 * (x
        / 16777216)) by (nonlinear_arith);
}

/// Reads the `u16` at `buf[i..i + 2]`.
pub fn read_u16(buf: &[u8], i: usize, order: ByteOrder) -> (r: u16)
    requires
        i + 2 <= buf@.len(),
    ensures
        r == u16_at(buf@, i as int, order),
{
    let a = buf[i] as u16;
    let b = buf[i + 1] as u16;
    match order {
        ByteOrder::Little => a + 256 * b,
        ByteOrder::Big => 256 * a + b,
    }
}

/// Reads the `u32` at `buf[i..i + 4]`.
pub fn read_u32(buf: &[u8], i: usize, order: ByteOrder) -> (r: u32)
    requires
        i + 4 <= buf@.len(),
    ensures
        r == u32_at(buf@, i as int, order),
{
    let a = buf[i] as u32;
    let b = buf[i + 1] as u32;
    let c = buf[i + 2] as u32;
    let d = buf[i + 3] as u32;
    match order {
        ByteOrder::Little => a + 256 * b + 65536 * c + 16777216 * d,
        ByteOrder::Big => 16777216 * a + 65536 * b + 256 * c + d,
    }
}

/// Reads the `i32` at `buf[i..i + 4]`.
pub fn read_i32(buf: &[u8], i: usize, order: ByteOrder) -> (r: i32)
    requires
        i + 4 <= buf@.len(),
    ensures
        r == i32_at(buf@, i as int, order),
{
    read_u32(buf, i, order) as i32
}

/// Appends the bytes of `x`.
pub fn push_u16(out: &mut Vec<u8>, x: u16, order: ByteOrder)
    ensures
        final(out)@ == old(out)@ + u16_bytes(x, order),
{
    let lo = (x % 256) as u8;
    let hi = (x / 256) as u8;
    match order {
        ByteOrder::Little => {
            out.push(lo);
            out.push(hi);
        },
        ByteOrder::Big => {
            out.push(hi);
            out.push(lo);
        },
    }
    assert(final(out)@ =~= old(out)@ + u16_bytes(x, order));
}

/// Appends the bytes of `x`.
pub fn push_u32(out: &mut Vec<u8>, x: u32, order: ByteOrder)
    ensures
        final(out)@ == old(out)@ + u32_bytes(x, order),
{
    let b0 = (x % 256) as u8;
    let b1 = ((x / 256) % 256) as u8;
    let b2 = ((x / 65536) % 256) as u8;
    let b3 = (x / 16777216) as u8;
    match order {
        ByteOrder::Little => {
            out.push(b0);
            out.push(b1);
            out.push(b2);
            out.push(b3);
        },
        ByteOrder::Big => {
            out.push(b3);
            out.push(b2);
            out.push(b1);
            out.push(b0);
        },
    }
    assert(final(out)@ =~= old(out)@ + u32_bytes(x, order));
}

/// A destination address as the bytes of its family.
pub enum AddrBytes {
    V4([u8; 4]),
    V6([u8; 16]),
}

impl AddrBytes {
    /// The address bytes, in network order.
    pub open spec fn octets(self) -> Seq<u8> {
        match self {
            AddrBytes::V4(b) => b@,
            AddrBytes::V6(b) => b@,
        }
    }

    pub open spec fn spec_len(self) -> nat {
        match self {
            AddrBytes::V4(_) => 4,
            AddrBytes::V6(_) => 16,
        }
    }

    /// The length of the address: 4 for IPv4, 16 for IPv6.
    pub fn len(&self) -> (r: usize)
        ensures
            r == self.spec_len(),
            r == self.octets().len(),
    {
        match self {
            AddrBytes::V4(_) => 4,
            AddrBytes::V6(_) => 16,
        }
    }

    /// The address bytes followed by zeros up to sixteen bytes.
    pub open spec fn padded(self) -> Seq<u8> {
        self.octets() + Seq::new((16 - self.spec_len()) as nat, |i: int| 0u8)
    }

    /// The address bytes, in network order.
    pub fn to_vec(&self) -> (r: Vec<u8>)
        ensures
            r@ == self.octets(),
    {
        let mut out: Vec<u8> = Vec::new();
        match self {
            AddrBytes::V4(b) => {
                let mut i: usize = 0;
                while i < 4
                    invariant
                        i <= 4,
                        out@ == b@.subrange(0, i as int),
                    decreases 4 - i,
                {
                    out.push(b[i]);
                    i = i + 1;
                    assert(out@ =~= b@.subrange(0, i as int));
                }
                assert(b@.subrange(0, 4) =~= b@);
            },
            AddrBytes::V6(b) => {
                let mut i: usize = 0;
                while i < 16
                    invariant
                        i <= 16,
                        out@ == b@.subrange(0, i as int),
                    decreases 16 - i,
                {
                    out.push(b[i]);
                    i = i + 1;
                    assert(out@ =~= b@.subrange(0, i as int));
                }
                assert(b@.subrange(0, 16) =~= b@);
            },
        }
        out
    }
}

/// Appends `n` zero bytes.
pub fn push_zeros(out: &mut Vec<u8>, n: usize)
    ensures
        final(out)@ == old(out)@ + Seq::new(n as nat, |i: int| 0u8),
{
    let mut i: usize = 0;
    while i < n
        invariant
            i <= n,
            out@ == old(out)@ + Seq::new(i as nat, |j: int| 0u8),
        decreases n - i,
    {
        out.push(0u8);
        i = i + 1;
        assert(out@ =~= old(out)@ + Seq::new(i as nat, |j: int| 0u8));
    }
}

/// Appends the bytes of `src`.
pub fn push_all(out: &mut Vec<u8>, src: &[u8])
    ensures
        final(out)@ == old(out)@ + src@,
{
    let mut i: usize = 0;
    while i < src.len()
        invariant
            i <= src@.len(),
            out@ == old(out)@ + src@.subrange(0, i as int),
        decreases src@.len() - i,
    {
        out.push(src[i]);
        i = i + 1;
        assert(out@ =~= old(out)@ + src@.subrange(0, i as int));
    }
    assert(src@.subrange(0, src@.len() as int) =~= src@);
}

} // verus!
