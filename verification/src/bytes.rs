//! Fixed-width integers as bytes, and Bitcoin's variable-length size prefix.
use vstd::arithmetic::power::pow;
use vstd::prelude::*;

verus! {

/// The low `width` bytes of `value`, least significant byte first.
pub open spec fn le(value: nat, width: nat) -> Seq<u8>
    decreases width,
{
    if width == 0 {
        Seq::empty()
    } else {
        seq![(value % 256) as u8] + le(value / 256, (width - 1) as nat)
    }
}

/// The low `width` bytes of `value`, most significant byte first.
pub open spec fn be(value: nat, width: nat) -> Seq<u8> {
    le(value, width).reverse()
}

/// The number that `data` denotes, least significant byte first.
pub open spec fn le_value(data: Seq<u8>) -> nat
    decreases data.len(),
{
    if data.len() == 0 {
        0
    } else {
        data[0] as nat + 256 * le_value(data.drop_first())
    }
}

/// Bitcoin's size prefix: one byte below 0xfd, else a marker and 2, 4 or 8 bytes.
pub open spec fn compact_size(n: nat) -> Seq<u8> {
    if n < 0xfd {
        le(n, 1)
    } else if n <= 0xffff {
        seq![0xfdu8] + le(n, 2)
    } else if n <= 0xffff_ffff {
        seq![0xfeu8] + le(n, 4)
    } else {
        seq![0xffu8] + le(n, 8)
    }
}

/// The size at the front of `data` and the number of bytes it takes there.
pub open spec fn compact_size_at_front(data: Seq<u8>) -> Option<(nat, nat)> {
    if data.len() == 0 {
        None
    } else {
        let width: nat = if data[0] < 0xfd {
            0
        } else if data[0] == 0xfd {
            2
        } else if data[0] == 0xfe {
            4
        } else {
            8
        };
        if width == 0 {
            Some((data[0] as nat, 1))
        } else if data.len() < 1 + width {
            None
        } else {
            Some((le_value(data.subrange(1, 1 + width as int)), 1 + width))
        }
    }
}

pub proof fn lemma_le_len(value: nat, width: nat)
    ensures
        le(value, width).len() == width,
    decreases width,
{
    if width > 0 {
        lemma_le_len(value / 256, (width - 1) as nat);
    }
}

/// A size prefix takes nine bytes at most, and one for a small size.
pub proof fn lemma_compact_size_len(n: nat)
    ensures
        compact_size(n).len() <= 9,
        n < 0xfd ==> compact_size(n).len() == 1,
{
    lemma_le_len(n, 1);
    lemma_le_len(n, 2);
    lemma_le_len(n, 4);
    lemma_le_len(n, 8);
}

/// Reading back a number that fits in its width gives the number.
pub proof fn lemma_le_round_trip(value: nat, width: nat)
    requires
        value < pow(256, width),
    ensures
        le_value(le(value, width)) == value,
    decreases width,
{
    reveal(pow);
    if width > 0 {
        let rest = (width - 1) as nat;
        assert(value / 256 < pow(256, rest)) by (nonlinear_arith)
            requires
                value < 256 * pow(256, rest),
        ;
        lemma_le_round_trip(value / 256, rest);
        let whole = le(value, width);
        assert(whole.drop_first() =~= le(value / 256, rest));
        assert(whole[0] == (value % 256) as u8);
    }
}

/// Byte `i` of a number, counted from the least significant, is what is left of it
/// below 256 once it was divided by 256 `i` times; and there are as many as asked for.
pub proof fn every_byte_has_its_weight(value: nat, width: nat, i: nat)
    requires
        i < width,
    ensures
        le(value, width).len() == width,
        le(value, width)[i as int] == (value as int / pow(256, i)) % 256,
        be(value, width)[width - 1 - i] == (value as int / pow(256, i)) % 256,
    decreases i,
{
    lemma_le_len(value, width);
    vstd::arithmetic::power::lemma_pow_positive(256, i);
    if i == 0 {
        reveal(pow);
    } else {
        let less = (i - 1) as nat;
        vstd::arithmetic::power::lemma_pow_positive(256, less);
        every_byte_has_its_weight(value / 256, (width - 1) as nat, less);
        reveal(pow);
        vstd::arithmetic::div_mod::lemma_div_denominator(value as int, 256, pow(256, less));
        assert(le(value, width)[i as int] == le(value / 256, (width - 1) as nat)[less as int]);
        assert(pow(256, i) == 256 * pow(256, less));
        assert((value / 256) as int / pow(256, less) == value as int / pow(256, i));
    }
}

/// A single byte denotes itself, and bytes that follow others weigh 256 times more for
/// each of these.
pub proof fn numbers_add_up(first: Seq<u8>, rest: Seq<u8>, b: u8)
    ensures
        le_value(seq![b]) == b,
        le_value(first + rest) == le_value(first) + pow(256, first.len()) * le_value(rest),
    decreases first.len(),
{
    reveal(pow);
    reveal_with_fuel(le_value, 2);
    assert(seq![b].drop_first() =~= Seq::empty());
    if first.len() == 0 {
        assert(first + rest =~= rest);
    } else {
        let fewer = first.drop_first();
        numbers_add_up(fewer, rest, b);
        assert((first + rest).drop_first() =~= fewer + rest);
        assert(256 * (pow(256, fewer.len()) * le_value(rest)) == pow(256, first.len()) * le_value(
            rest,
        )) by (nonlinear_arith)
            requires
                pow(256, first.len()) == 256 * pow(256, fewer.len()),
        ;
    }
}

/// Bytes of one length that denote one number are the same bytes.
pub proof fn a_number_has_one_form(a: Seq<u8>, b: Seq<u8>)
    requires
        a.len() == b.len(),
        le_value(a) == le_value(b),
    ensures
        a == b,
    decreases a.len(),
{
    if a.len() > 0 {
        assert(a[0] == b[0]) by {
            assert(le_value(a) % 256 == a[0]);
            assert(le_value(b) % 256 == b[0]);
        }
        a_number_has_one_form(a.drop_first(), b.drop_first());
        assert(a =~= seq![a[0]] + a.drop_first());
        assert(b =~= seq![b[0]] + b.drop_first());
    } else {
        assert(a =~= b);
    }
}

/// Two different numbers that fit in the width have different bytes.
pub proof fn lemma_le_injective(a: nat, b: nat, width: nat)
    requires
        a < pow(256, width),
        b < pow(256, width),
        le(a, width) == le(b, width),
    ensures
        a == b,
{
    lemma_le_round_trip(a, width);
    lemma_le_round_trip(b, width);
}

pub proof fn lemma_pow256()
    ensures
        pow(256, 0) == 1,
        pow(256, 1) == 0x100,
        pow(256, 2) == 0x1_0000,
        pow(256, 4) == 0x1_0000_0000,
        pow(256, 8) == 0x1_0000_0000_0000_0000,
{
    reveal_with_fuel(pow, 9);
}

/// A size below 0xfd is one byte; a larger one is a marker and the number in 2, 4 or 8
/// bytes, the fewest that hold it.
pub proof fn a_size_prefix_is_as_short_as_can_be(n: nat)
    requires
        n <= u64::MAX,
    ensures
        ({
            let data = compact_size(n);
            &&& n < 0xfd ==> data.len() == 1 && data[0] == n
            &&& n >= 0xfd ==> le_value(data.drop_first()) == n
            &&& 0xfd <= n < 0x1_0000 ==> data.len() == 3 && data[0] == 0xfd
            &&& 0x1_0000 <= n < 0x1_0000_0000 ==> data.len() == 5 && data[0] == 0xfe
            &&& n >= 0x1_0000_0000 ==> data.len() == 9 && data[0] == 0xff
        }),
{
    lemma_pow256();
    lemma_le_len(n, 1);
    lemma_le_len(n, 2);
    lemma_le_len(n, 4);
    lemma_le_len(n, 8);
    let data = compact_size(n);
    if n < 0xfd {
        reveal_with_fuel(le, 2);
    } else {
        let width: nat = if n <= 0xffff {
            2
        } else if n <= 0xffff_ffff {
            4
        } else {
            8
        };
        lemma_le_round_trip(n, width);
        assert(data.drop_first() =~= le(n, width));
    }
}

/// A size prefix tells its own length: whatever follows it, reading the front
/// gives back the size that was written and where it ends.
pub proof fn size_prefix_reads_back(n: nat, rest: Seq<u8>)
    requires
        n <= u64::MAX,
    ensures
        compact_size_at_front(compact_size(n) + rest) == Some((n, compact_size(n).len())),
{
    lemma_pow256();
    let data = compact_size(n) + rest;
    lemma_le_len(n, 1);
    lemma_le_len(n, 2);
    lemma_le_len(n, 4);
    lemma_le_len(n, 8);
    if n < 0xfd {
        assert(le(n, 1) =~= seq![n as u8]) by {
            reveal_with_fuel(le, 2);
        }
        assert(data[0] == n as u8);
    } else {
        let width: nat = if n <= 0xffff {
            2
        } else if n <= 0xffff_ffff {
            4
        } else {
            8
        };
        lemma_le_round_trip(n, width);
        assert(data.subrange(1, 1 + width as int) =~= le(n, width));
    }
}

/// Two sizes with the same prefix are equal.
pub proof fn size_prefix_is_injective(a: nat, b: nat)
    requires
        a <= u64::MAX,
        b <= u64::MAX,
        compact_size(a) == compact_size(b),
    ensures
        a == b,
{
    size_prefix_reads_back(a, Seq::empty());
    size_prefix_reads_back(b, Seq::empty());
}

/// Appends the low `width` bytes of `value`, least significant byte first.
pub fn put_le(buf: &mut Vec<u8>, value: u64, width: usize)
    ensures
        final(buf)@ == old(buf)@ + le(value as nat, width as nat),
{
    let ghost start = buf@;
    let mut left: u64 = value;
    let mut i: usize = 0;
    while i < width
        invariant
            i <= width,
            buf@ + le(left as nat, (width - i) as nat) =~= start + le(value as nat, width as nat),
        decreases width - i,
    {
        let ghost before = buf@;
        let low: u8 = (left % 256) as u8;
        proof {
            let tail = le((left / 256) as nat, (width - i - 1) as nat);
            assert(le(left as nat, (width - i) as nat) == seq![low] + tail);
            assert(before + (seq![low] + tail) =~= before.push(low) + tail);
        }
        buf.push(low);
        left = left / 256;
        i = i + 1;
    }
    assert(le(left as nat, 0) =~= Seq::empty());
    assert(buf@ + Seq::<u8>::empty() =~= buf@);
}

/// The low `width` bytes of `value`, most significant byte first.
pub fn be_bytes(value: u64, width: usize) -> (out: Vec<u8>)
    ensures
        out@ == be(value as nat, width as nat),
{
    let mut little: Vec<u8> = Vec::new();
    put_le(&mut little, value, width);
    reversed(&little)
}

/// The bytes of `data` in reverse order.
pub fn reversed(data: &Vec<u8>) -> (out: Vec<u8>)
    ensures
        out@ == data@.reverse(),
{
    let mut out: Vec<u8> = Vec::new();
    let mut i: usize = data.len();
    while i > 0
        invariant
            i <= data@.len(),
            out@ == data@.subrange(i as int, data@.len() as int).reverse(),
        decreases i,
    {
        i = i - 1;
        out.push(data[i]);
        proof {
            assert(out@ =~= data@.subrange(i as int, data@.len() as int).reverse());
        }
    }
    assert(data@.subrange(0, data@.len() as int) =~= data@);
    out
}

} // verus!
