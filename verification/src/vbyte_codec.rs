//! Variable-byte lists of `u64`: seven bits per byte, least significant group
//! first, the high bit of a byte set when another byte of the same number follows.
//!
//! The encoder and decoder are those of the `vbyte` crate (reached directly,
//! through `xxai` and through `ub64`); their behaviour is stated here exactly and
//! the round trip between them is proved.
use vstd::prelude::*;

verus! {

/// The bytes that encode a nonzero `v`, lowest seven-bit group first.
pub open spec fn vb_enc_tail(v: u64) -> Seq<u8>
    decreases v,
{
    if v == 0 {
        Seq::empty()
    } else {
        let b = (v & 0x7f) as u8;
        let r = v >> 7;
        proof {
            lemma_shr7_decreases(v);
        }
        seq![if r > 0 { b | 0x80 } else { b }] + vb_enc_tail(r)
    }
}

/// The encoding of one number: a single zero byte for zero.
pub open spec fn vb_enc(v: u64) -> Seq<u8> {
    if v == 0 {
        seq![0u8]
    } else {
        vb_enc_tail(v)
    }
}

/// The encoding of a list: the encodings of its numbers, one after another.
pub open spec fn vb_enc_list(l: Seq<u64>) -> Seq<u8>
    decreases l.len(),
{
    if l.len() == 0 {
        Seq::empty()
    } else {
        vb_enc(l[0]) + vb_enc_list(l.drop_first())
    }
}

/// Decoding one number that starts at the front of `data`, having read the
/// first `i` bytes into `acc`: the value and the number of bytes it took, or
/// `None` when the data ends before a byte without the high bit.
pub open spec fn vb_dec_from(data: Seq<u8>, i: nat, acc: u64) -> Option<(u64, nat)>
    decreases data.len() - i,
{
    if i < data.len() {
        let b = data[i as int];
        let acc2 = acc | (((b & 0x7f) as u64) << ((i * 7) as u64));
        if b & 0x80 != 0 {
            vb_dec_from(data, i + 1, acc2)
        } else {
            Some((acc2, i + 1))
        }
    } else {
        None
    }
}

/// Decoding one number would shift a group past the 64th bit: ten bytes in a
/// row with the high bit set, and more data after them.
pub open spec fn vb_one_overflows(data: Seq<u8>) -> bool {
    data.len() > 10 && forall|k: int| 0 <= k < 10 ==> #[trigger] data[k] & 0x80 != 0
}

/// Decoding a whole list: `None` when some number is cut short.
pub open spec fn vb_dec_list(data: Seq<u8>) -> Option<Seq<u64>>
    decreases data.len(),
{
    if data.len() == 0 {
        Some(Seq::empty())
    } else {
        match vb_dec_from(data, 0, 0) {
            None => None,
            Some((v, n)) => if n == 0 || n > data.len() {
                None
            } else {
                match vb_dec_list(data.skip(n as int)) {
                    None => None,
                    Some(rest) => Some(seq![v] + rest),
                }
            },
        }
    }
}

/// Decoding the list would overflow a shift on some number.
pub open spec fn vb_list_overflows(data: Seq<u8>) -> bool
    decreases data.len(),
{
    if data.len() == 0 {
        false
    } else if vb_one_overflows(data) {
        true
    } else {
        match vb_dec_from(data, 0, 0) {
            None => false,
            Some((v, n)) => if n == 0 || n > data.len() {
                false
            } else {
                vb_list_overflows(data.skip(n as int))
            },
        }
    }
}

/// What `unzip_u64` and `bin_u64_li` give: the decoded list, or an empty list
/// when the data is cut short.
pub open spec fn vb_unzip(data: Seq<u8>) -> Seq<u64> {
    match vb_dec_list(data) {
        Some(l) => l,
        None => Seq::empty(),
    }
}

pub proof fn lemma_shr7_decreases(v: u64)
    ensures
        v != 0 ==> v >> 7 < v,
{
    assert(v != 0 ==> v >> 7 < v) by (bit_vector);
}

/// The low `7 * j` bits of `v` (all of `v` from `j == 10` on).
pub open spec fn low_groups(v: u64, j: u64) -> u64 {
    if j >= 10 {
        v
    } else {
        v & !(0xffff_ffff_ffff_ffffu64 << ((7 * j) as u64))
    }
}

proof fn lemma_low_groups_step(v: u64, j: u64)
    requires
        j <= 9,
    ensures
        low_groups(v, j) | ((((((v >> ((7 * j) as u64)) & 0x7f) as u8) & 0x7f) as u64) << ((7 * j) as u64))
            == low_groups(v, (j + 1) as u64),
{
    let a = low_groups(v, j);
    if j + 1 >= 10 {
        assert(j == 9 ==> (v & !(0xffff_ffff_ffff_ffffu64 << ((7 * j) as u64))) | ((((((v >> ((7 * j) as u64))
            & 0x7f) as u8) & 0x7f) as u64) << ((7 * j) as u64)) == v) by (bit_vector);
    } else {
        assert(j < 9 ==> (v & !(0xffff_ffff_ffff_ffffu64 << ((7 * j) as u64))) | ((((((v >> ((7 * j) as u64))
            & 0x7f) as u8) & 0x7f) as u64) << ((7 * j) as u64)) == v & !(0xffff_ffff_ffff_ffffu64 << (7
            * (j + 1)))) by (bit_vector);
    }
}

proof fn lemma_low_groups_done(v: u64, j: u64)
    requires
        1 <= j <= 10,
        j < 10 ==> v >> ((7 * j) as u64) == 0,
    ensures
        low_groups(v, j) == v,
{
    if j < 10 {
        assert(j < 10 && v >> ((7 * j) as u64) == 0 ==> v & !(0xffff_ffff_ffff_ffffu64 << ((7 * j) as u64)) == v)
            by (bit_vector);
    }
}

proof fn lemma_shr_step(v: u64, j: u64)
    requires
        j <= 9,
    ensures
        j < 9 ==> (v >> ((7 * j) as u64)) >> 7 == v >> ((7 * (j + 1)) as u64),
        j == 9 ==> (v >> ((7 * j) as u64)) >> 7 == 0,
        j == 0 ==> v >> ((7 * j) as u64) == v,
{
    assert(j < 9 ==> (v >> ((7 * j) as u64)) >> 7 == v >> ((7 * (j + 1)) as u64)) by (bit_vector);
    assert(j == 9 ==> (v >> ((7 * j) as u64)) >> 7 == 0) by (bit_vector);
    assert(j == 0 ==> v >> ((7 * j) as u64) == v) by (bit_vector);
}

proof fn lemma_cont_bits(w: u64)
    ensures
        ((((w & 0x7f) as u8) | 0x80) & 0x7f) == ((w & 0x7f) as u8) & 0x7f,
        (((w & 0x7f) as u8) | 0x80) & 0x80 != 0,
        ((w & 0x7f) as u8) & 0x80 == 0,
{
    assert(((((w & 0x7f) as u8) | 0x80) & 0x7f) == ((w & 0x7f) as u8) & 0x7f) by (bit_vector);
    assert((((w & 0x7f) as u8) | 0x80) & 0x80 != 0) by (bit_vector);
    assert(((w & 0x7f) as u8) & 0x80 == 0) by (bit_vector);
}

/// Decoding the bytes of `vb_enc_tail(v >> 7j)` placed at index `j` of `data`,
/// with the lower groups already read, gives back `v` and stops at the last of
/// those bytes, which is at index 9 at the latest.
proof fn lemma_dec_tail(data: Seq<u8>, v: u64, j: u64)
    requires
        j <= 9,
        v >> ((7 * j) as u64) != 0,
        j + vb_enc_tail(v >> ((7 * j) as u64)).len() <= data.len(),
        data.subrange(j as int, j + vb_enc_tail(v >> ((7 * j) as u64)).len()) == vb_enc_tail(
            v >> ((7 * j) as u64),
        ),
    ensures
        vb_dec_from(data, j as nat, low_groups(v, j)) == Some(
            (v, (j + vb_enc_tail(v >> ((7 * j) as u64)).len()) as nat),
        ),
        j + vb_enc_tail(v >> ((7 * j) as u64)).len() <= 10,
        data[j + vb_enc_tail(v >> ((7 * j) as u64)).len() - 1] & 0x80 == 0,
        forall|k: int| j <= k < j + vb_enc_tail(v >> ((7 * j) as u64)).len() - 1 ==> #[trigger] data[k]
            & 0x80 != 0,
        j + vb_enc_tail(v >> ((7 * j) as u64)).len() == 10 ==> data[9] <= 1,
    decreases 10 - j,
{
    let w = v >> ((7 * j) as u64);
    let t = vb_enc_tail(w);
    let r = w >> 7;
    lemma_shr7_decreases(w);
    lemma_cont_bits(w);
    lemma_shr_step(v, j);
    lemma_low_groups_step(v, j);
    assert(t == seq![if r > 0 { ((w & 0x7f) as u8) | 0x80 } else { (w & 0x7f) as u8 }]
        + vb_enc_tail(r));
    assert(data[j as int] == t[0]);
    let b = data[j as int];
    assert((b & 0x7f) == (((w & 0x7f) as u8) & 0x7f));
    if r > 0 {
        assert(j < 9);
        assert(r == v >> ((7 * (j + 1)) as u64));
        let j1 = (j + 1) as u64;
        assert(data.subrange(j1 as int, j1 + vb_enc_tail(r).len()) =~= vb_enc_tail(r)) by {
            assert forall|k: int| 0 <= k < vb_enc_tail(r).len() implies data.subrange(
                j1 as int,
                j1 + vb_enc_tail(r).len(),
            )[k] == vb_enc_tail(r)[k] by {
                assert(data.subrange(j as int, j + t.len())[k + 1] == t[k + 1]);
            }
        }
        lemma_dec_tail(data, v, j1);
        assert forall|k: int| j <= k < j + t.len() - 1 implies #[trigger] data[k] & 0x80 != 0 by {
            if k > j {
                assert(j1 <= k < j1 + vb_enc_tail(r).len() - 1);
            }
        }
    } else {
        assert(vb_enc_tail(r) == Seq::<u8>::empty());
        assert(t.len() == 1);
        lemma_low_groups_done(v, (j + 1) as u64);
        if j == 9 {
            assert((v >> 63u64) & 0x7f <= 1) by (bit_vector);
            assert(((v >> 63u64) & 0x7f) as u8 <= 1) by (bit_vector);
        }
    }
}

/// Decoding `vb_enc(v)` followed by anything gives `v`, after exactly the
/// bytes of `vb_enc(v)`, and does not overflow.
pub proof fn lemma_dec_enc(v: u64, rest: Seq<u8>)
    ensures
        vb_dec_from(vb_enc(v) + rest, 0, 0) == Some((v, vb_enc(v).len())),
        1 <= vb_enc(v).len() <= 10,
        vb_enc(v).len() == 10 ==> (vb_enc(v) + rest)[9] <= 1,
        !vb_one_overflows(vb_enc(v) + rest),
{
    let data = vb_enc(v) + rest;
    if v == 0 {
        assert(data[0] == 0u8);
        assert((0u8 & 0x7f) as u64 == 0) by (bit_vector);
        assert(0u64 | (0u64 << 0u64) == 0) by (bit_vector);
        assert(0u8 & 0x80 == 0) by (bit_vector);
        assert(vb_dec_from(data, 0, 0) == Some((0u64, 1nat)));
        assert(!(data[0] & 0x80 != 0));
    } else {
        lemma_shr_step(v, 0);
        assert(low_groups(v, 0) == 0) by {
            assert(v & !(0xffff_ffff_ffff_ffffu64 << ((7 * 0u64) as u64)) == 0) by (bit_vector);
        }
        assert(data.subrange(0, vb_enc_tail(v).len() as int) =~= vb_enc_tail(v));
        lemma_dec_tail(data, v, 0);
        let last = vb_enc_tail(v).len() - 1;
        assert(data[last] & 0x80 == 0);
        assert(!(data[last] & 0x80 != 0));
    }
}

/// Decoding an encoded list gives the list back, without overflow.
pub proof fn lemma_dec_enc_list(l: Seq<u64>)
    ensures
        vb_dec_list(vb_enc_list(l)) == Some(l),
        !vb_list_overflows(vb_enc_list(l)),
    decreases l.len(),
{
    if l.len() > 0 {
        let rest = vb_enc_list(l.drop_first());
        let data = vb_enc_list(l);
        assert(data == vb_enc(l[0]) + rest);
        lemma_dec_enc(l[0], rest);
        lemma_dec_enc_list(l.drop_first());
        let n = vb_enc(l[0]).len();
        assert(data.skip(n as int) =~= rest);
        assert(seq![l[0]] + l.drop_first() =~= l);
    } else {
        assert(vb_enc_list(l) =~= Seq::<u8>::empty());
        assert(l =~= Seq::<u64>::empty());
    }
}

/// Decoding a whole list as the `vb` crate does: like `vb_dec_list`, but a
/// number takes at most ten bytes and its tenth byte may only hold the top bit
/// (0 or 1); `None` otherwise and where a number is cut short.
pub open spec fn vb_dec_list_strict(data: Seq<u8>) -> Option<Seq<u64>>
    decreases data.len(),
{
    if data.len() == 0 {
        Some(Seq::empty())
    } else {
        match vb_dec_from(data, 0, 0) {
            None => None,
            Some((v, n)) => if n == 0 || n > 10 || (n == 10 && data[9] > 1) || n > data.len() {
                None
            } else {
                match vb_dec_list_strict(data.skip(n as int)) {
                    None => None,
                    Some(rest) => Some(seq![v] + rest),
                }
            },
        }
    }
}

/// The strict decoder also gives an encoded list back.
pub proof fn lemma_strict_dec_enc_list(l: Seq<u64>)
    ensures
        vb_dec_list_strict(vb_enc_list(l)) == Some(l),
    decreases l.len(),
{
    if l.len() > 0 {
        let rest = vb_enc_list(l.drop_first());
        let data = vb_enc_list(l);
        assert(data == vb_enc(l[0]) + rest);
        lemma_dec_enc(l[0], rest);
        lemma_strict_dec_enc_list(l.drop_first());
        let n = vb_enc(l[0]).len();
        assert(data.skip(n as int) =~= rest);
        assert(seq![l[0]] + l.drop_first() =~= l);
    } else {
        assert(vb_enc_list(l) =~= Seq::<u8>::empty());
        assert(l =~= Seq::<u64>::empty());
    }
}

/// `vbyte::compress_list`: the encodings of the numbers, one after another.
#[verifier::external_body]
pub(crate) fn compress_list(vs: &[u64]) -> (r: Vec<u8>)
    ensures
        r@ == vb_enc_list(vs@),
{
    vbyte::compress_list(vs)
}

/// `xxai::zip_u64`: hands the numbers to `vbyte::compress_list` (the `vbyte`
/// that `xxai` depends on), so it gives their encodings one after another.
#[verifier::external_body]
pub(crate) fn zip_u64(vs: &[u64]) -> (r: Vec<u8>)
    ensures
        r@ == vb_enc_list(vs@),
{
    xxai::zip_u64(vs.iter().copied())
}

/// `xxai::unzip_u64`: `vbyte::decompress_list`, with an empty list in place of
/// its error. The decoder shifts a group by `7 * i` bits for the `i`-th byte of
/// a number, which panics in debug builds from the eleventh byte on; inputs that
/// reach that are left out.
#[verifier::external_body]
pub(crate) fn unzip_u64(bin: &[u8]) -> (r: Vec<u64>)
    requires
        !vb_list_overflows(bin@),
    ensures
        r@ == vb_unzip(bin@),
{
    xxai::unzip_u64(bin)
}

/// `ub64::bin_u64_li`: `vbyte::decompress_list` with an empty list in place of
/// its error; the same inputs as for `unzip_u64` are left out.
#[verifier::external_body]
pub(crate) fn bin_u64_li(bin: &[u8]) -> (r: Vec<u64>)
    requires
        !vb_list_overflows(bin@),
    ensures
        r@ == vb_unzip(bin@),
{
    ub64::bin_u64_li(bin)
}

/// Whether decoding `data` as a list would overflow a shift on some number.
pub fn list_overflows(data: &[u8]) -> (r: bool)
    ensures
        r == vb_list_overflows(data@),
{
    let mut pos: usize = 0;
    let ghost d = data@;
    assert(d.skip(0) =~= d);
    while pos < data.len()
        invariant
            pos <= data.len(),
            d == data@,
            vb_list_overflows(d) == vb_list_overflows(d.skip(pos as int)),
        decreases data.len() - pos,
    {
        let ghost s = d.skip(pos as int);
        let n = data.len() - pos;
        let mut j: usize = 0;
        while j < n && data[pos + j] & 0x80 != 0
            invariant
                pos < data.len(),
                n == data.len() - pos,
                j <= n,
                s == d.skip(pos as int),
                d == data@,
                forall|k: int| 0 <= k < j ==> #[trigger] s[k] & 0x80 != 0,
            decreases n - j,
        {
            j = j + 1;
        }
        let found = j < n;
        proof {
            lemma_dec_from_shape(s, 0, 0);
        }
        if n > 10 && (!found || j >= 10) {
            assert(vb_one_overflows(s)) by {
                assert forall|k: int| 0 <= k < 10 implies #[trigger] s[k] & 0x80 != 0 by {
                    assert(k < j);
                }
            }
            return true;
        }
        assert(!vb_one_overflows(s)) by {
            if n > 10 {
                assert(found && j < 10);
                assert(!(s[j as int] & 0x80 != 0));
            }
        }
        if !found {
            assert(vb_dec_from(s, 0, 0) is None);
            return false;
        }
        assert(vb_dec_from(s, 0, 0) is Some && vb_dec_from(s, 0, 0).unwrap().1 == j + 1) by {
            lemma_dec_from_stop(s, 0, 0, j as nat);
        }
        assert(s.skip(j + 1) =~= d.skip(pos + j + 1));
        pos = pos + j + 1;
    }
    assert(d.skip(pos as int).len() == 0);
    false
}

/// Where a number's decoding ends, if it does.
proof fn lemma_dec_from_shape(data: Seq<u8>, i: nat, acc: u64)
    ensures
        vb_dec_from(data, i, acc) is None <==> (forall|k: int|
            i <= k < data.len() ==> #[trigger] data[k] & 0x80 != 0),
    decreases data.len() - i,
{
    if i < data.len() {
        let b = data[i as int];
        let acc2 = acc | (((b & 0x7f) as u64) << ((i * 7) as u64));
        lemma_dec_from_shape(data, i + 1, acc2);
        if !(b & 0x80 != 0) {
            assert(!(data[i as int] & 0x80 != 0));
        }
    }
}

proof fn lemma_dec_from_stop(data: Seq<u8>, i: nat, acc: u64, j: nat)
    requires
        i <= j < data.len(),
        data[j as int] & 0x80 == 0,
        forall|k: int| i <= k < j ==> #[trigger] data[k] & 0x80 != 0,
    ensures
        vb_dec_from(data, i, acc) is Some,
        vb_dec_from(data, i, acc).unwrap().1 == j + 1,
    decreases j - i,
{
    let b = data[i as int];
    let acc2 = acc | (((b & 0x7f) as u64) << ((i * 7) as u64));
    if i < j {
        lemma_dec_from_stop(data, i + 1, acc2, j);
    }
}

} // verus!
