//! Dynamically typed response values and their MessagePack encoding, as the
//! `msgpacker` crate writes each part of them.
use vstd::prelude::*;
use vstd::utf8::encode_utf8;

verus! {

/// A response value: an integer of a fixed width, a string, a list of bytes,
/// or a list of values.
#[derive(Debug)]
pub enum Any {
    U8(u8),
    U16(u16),
    U32(u32),
    U64(u64),
    I8(i8),
    I16(i16),
    I32(i32),
    I64(i64),
    Str(String),
    VecU8(Vec<u8>),
    VecAny(VecAny),
}

/// A list of response values.
#[derive(Debug)]
pub struct VecAny(pub Vec<Any>);

/// The `n` low bytes of `v`, most significant first.
pub open spec fn be_bytes(v: nat, n: nat) -> Seq<u8>
    decreases n,
{
    if n == 0 {
        Seq::empty()
    } else {
        be_bytes(v / 256, (n - 1) as nat) + seq![(v % 256) as u8]
    }
}

/// How `msgpacker` writes an unsigned integer of any width: the shortest of
/// the positive fixint, uint 8, 16, 32 and 64 forms that holds it.
pub open spec fn mp_uint(v: nat) -> Seq<u8> {
    if v <= 127 {
        seq![v as u8]
    } else if v <= 255 {
        seq![0xccu8, v as u8]
    } else if v <= 0xffff {
        seq![0xcdu8] + be_bytes(v, 2)
    } else if v <= 0xffff_ffff {
        seq![0xceu8] + be_bytes(v, 4)
    } else {
        seq![0xcfu8] + be_bytes(v, 8)
    }
}

/// How `msgpacker` writes the length of an array; nothing for lengths beyond
/// 32 bits (it writes nothing there unless built with its `strict` feature).
pub open spec fn mp_array_len(n: nat) -> Seq<u8> {
    if n <= 15 {
        seq![(0x90 + n) as u8]
    } else if n <= 0xffff {
        seq![0xdcu8] + be_bytes(n, 2)
    } else if n <= 0xffff_ffff {
        seq![0xddu8] + be_bytes(n, 4)
    } else {
        Seq::empty()
    }
}

/// How `msgpacker` writes a string: a header with its length in bytes, then
/// its UTF-8 bytes; nothing at all for a string of more than `u32::MAX` bytes
/// (it gives up there unless built with its `strict` feature).
pub open spec fn mp_str(s: Seq<char>) -> Seq<u8> {
    let b = encode_utf8(s);
    let n = b.len();
    if n <= 31 {
        seq![(0xa0 + n) as u8] + b
    } else if n <= 255 {
        seq![0xd9u8, n as u8] + b
    } else if n <= 0xffff {
        seq![0xdau8] + be_bytes(n, 2) + b
    } else if n <= 0xffff_ffff {
        seq![0xdbu8] + be_bytes(n, 4) + b
    } else {
        Seq::empty()
    }
}

/// The bytes of unsigned integers, one after another.
pub open spec fn mp_uints(s: Seq<u8>) -> Seq<u8>
    decreases s.len(),
{
    if s.len() == 0 {
        Seq::empty()
    } else {
        mp_uints(s.drop_last()) + mp_uint(s.last() as nat)
    }
}

/// How `msgpacker` writes a signed integer of any width: the positive or
/// negative fixint when it fits, else the shortest of the int 8, 16, 32 and 64
/// forms that holds it (two's complement, most significant byte first).
pub open spec fn mp_int(v: int) -> Seq<u8> {
    if v < -0x8000_0000 {
        seq![0xd3u8] + be_bytes((v % 0x1_0000_0000_0000_0000) as nat, 8)
    } else if v < -0x8000 {
        seq![0xd2u8] + be_bytes((v % 0x1_0000_0000) as nat, 4)
    } else if v < -128 {
        seq![0xd1u8] + be_bytes((v % 0x1_0000) as nat, 2)
    } else if v <= -33 {
        seq![0xd0u8, (v % 256) as u8]
    } else if v <= 127 {
        seq![(v % 256) as u8]
    } else if v <= 0x7fff {
        seq![0xd1u8] + be_bytes(v as nat, 2)
    } else if v <= 0x7fff_ffff {
        seq![0xd2u8] + be_bytes(v as nat, 4)
    } else {
        seq![0xd3u8] + be_bytes(v as nat, 8)
    }
}

/// The MessagePack encoding of a value.
pub open spec fn pack_spec(a: Any) -> Seq<u8>
    decreases a, 0nat,
{
    match a {
        Any::U8(v) => mp_uint(v as nat),
        Any::U16(v) => mp_uint(v as nat),
        Any::U32(v) => mp_uint(v as nat),
        Any::U64(v) => mp_uint(v as nat),
        Any::I8(v) => mp_int(v as int),
        Any::I16(v) => mp_int(v as int),
        Any::I32(v) => mp_int(v as int),
        Any::I64(v) => mp_int(v as int),
        Any::Str(s) => mp_str(s@),
        Any::VecU8(v) => mp_array_len(v@.len()) + mp_uints(v@),
        Any::VecAny(v) => mp_array_len(v.0@.len()) + pack_items(v.0@, v.0@.len() as int),
    }
}

/// The encodings of the first `n` values of a list, one after another.
pub open spec fn pack_items(s: Seq<Any>, n: int) -> Seq<u8>
    decreases s, n,
{
    if n <= 0 || n > s.len() {
        Seq::empty()
    } else {
        pack_items(s, n - 1) + pack_spec(s[n - 1])
    }
}

/// `<u8 as Packable>::pack` into a vector.
#[verifier::external_body]
fn pack_u8(v: u8, buf: &mut Vec<u8>)
    ensures
        final(buf)@ == old(buf)@ + mp_uint(v as nat),
{
    msgpacker::Packable::pack(&v, buf);
}

/// `<u16 as Packable>::pack` into a vector.
#[verifier::external_body]
fn pack_u16(v: u16, buf: &mut Vec<u8>)
    ensures
        final(buf)@ == old(buf)@ + mp_uint(v as nat),
{
    msgpacker::Packable::pack(&v, buf);
}

/// `<u32 as Packable>::pack` into a vector.
#[verifier::external_body]
fn pack_u32(v: u32, buf: &mut Vec<u8>)
    ensures
        final(buf)@ == old(buf)@ + mp_uint(v as nat),
{
    msgpacker::Packable::pack(&v, buf);
}

/// `<u64 as Packable>::pack` into a vector.
#[verifier::external_body]
fn pack_u64(v: u64, buf: &mut Vec<u8>)
    ensures
        final(buf)@ == old(buf)@ + mp_uint(v as nat),
{
    msgpacker::Packable::pack(&v, buf);
}

/// `<i8 as Packable>::pack` into a vector.
#[verifier::external_body]
fn pack_i8(v: i8, buf: &mut Vec<u8>)
    ensures
        final(buf)@ == old(buf)@ + mp_int(v as int),
{
    msgpacker::Packable::pack(&v, buf);
}

/// `<i16 as Packable>::pack` into a vector.
#[verifier::external_body]
fn pack_i16(v: i16, buf: &mut Vec<u8>)
    ensures
        final(buf)@ == old(buf)@ + mp_int(v as int),
{
    msgpacker::Packable::pack(&v, buf);
}

/// `<i32 as Packable>::pack` into a vector.
#[verifier::external_body]
fn pack_i32(v: i32, buf: &mut Vec<u8>)
    ensures
        final(buf)@ == old(buf)@ + mp_int(v as int),
{
    msgpacker::Packable::pack(&v, buf);
}

/// `<i64 as Packable>::pack` into a vector.
#[verifier::external_body]
fn pack_i64(v: i64, buf: &mut Vec<u8>)
    ensures
        final(buf)@ == old(buf)@ + mp_int(v as int),
{
    msgpacker::Packable::pack(&v, buf);
}

/// `<String as Packable>::pack` into a vector.
#[verifier::external_body]
fn pack_string(v: &String, buf: &mut Vec<u8>)
    ensures
        final(buf)@ == old(buf)@ + mp_str(v@),
{
    msgpacker::Packable::pack(v, buf);
}

/// `<Vec<u8> as Packable>::pack` into a vector: an array of unsigned integers.
#[verifier::external_body]
fn pack_vec_u8(v: &Vec<u8>, buf: &mut Vec<u8>)
    ensures
        final(buf)@ == old(buf)@ + mp_array_len(v@.len()) + mp_uints(v@),
{
    msgpacker::Packable::pack(v, buf);
}

proof fn lemma_be2(n: u64)
    requires
        n <= 0xffff,
    ensures
        be_bytes(n as nat, 2) == seq![(n >> 8) as u8, (n & 0xff) as u8],
{
    reveal_with_fuel(be_bytes, 3);
    assert((n >> 8) == (n / 256) % 256) by (bit_vector)
        requires
            n <= 0xffff,
    ;
    assert((n & 0xff) == n % 256) by (bit_vector);
    let v = n as nat;
    assert(be_bytes(v, 2) =~= seq![((v / 256) % 256) as u8, (v % 256) as u8]);
}

proof fn lemma_be4(n: u64)
    requires
        n <= 0xffff_ffff,
    ensures
        be_bytes(n as nat, 4) == seq![
            (n >> 24) as u8,
            ((n >> 16) & 0xff) as u8,
            ((n >> 8) & 0xff) as u8,
            (n & 0xff) as u8,
        ],
{
    reveal_with_fuel(be_bytes, 5);
    assert((n >> 24) == (((n / 256) / 256) / 256) % 256) by (bit_vector)
        requires
            n <= 0xffff_ffff,
    ;
    assert(((n >> 16) & 0xff) == ((n / 256) / 256) % 256) by (bit_vector);
    assert(((n >> 8) & 0xff) == (n / 256) % 256) by (bit_vector);
    assert((n & 0xff) == n % 256) by (bit_vector);
    let v = n as nat;
    assert(be_bytes(v, 4) =~= seq![
        ((((v / 256) / 256) / 256) % 256) as u8,
        (((v / 256) / 256) % 256) as u8,
        ((v / 256) % 256) as u8,
        (v % 256) as u8,
    ]);
}

/// Appends the array-length header that `msgpacker::pack_array` writes before
/// the items.
fn pack_array_len(n: usize, buf: &mut Vec<u8>)
    ensures
        final(buf)@ == old(buf)@ + mp_array_len(n as nat),
{
    let ghost start = buf@;
    if n <= 15 {
        buf.push((0x90 + n) as u8);
        assert(buf@ =~= start + mp_array_len(n as nat));
    } else if n <= 0xffff {
        let m = n as u64;
        proof {
            lemma_be2(m);
        }
        buf.push(0xdc);
        buf.push((m >> 8) as u8);
        buf.push((m & 0xff) as u8);
        assert(buf@ =~= start + mp_array_len(n as nat));
    } else if n as u64 <= 0xffff_ffff {
        let m = n as u64;
        proof {
            lemma_be4(m);
        }
        buf.push(0xdd);
        buf.push((m >> 24) as u8);
        buf.push(((m >> 16) & 0xff) as u8);
        buf.push(((m >> 8) & 0xff) as u8);
        buf.push((m & 0xff) as u8);
        assert(buf@ =~= start + mp_array_len(n as nat));
    } else {
        assert(buf@ =~= start + mp_array_len(n as nat));
    }
}

impl Any {
    /// Appends the encoding of the value to `buf`.
    pub fn pack_into(&self, buf: &mut Vec<u8>)
        ensures
            final(buf)@ == old(buf)@ + pack_spec(*self),
        decreases *self, 1nat,
    {
        match self {
            Any::U8(v) => pack_u8(*v, buf),
            Any::U16(v) => pack_u16(*v, buf),
            Any::U32(v) => pack_u32(*v, buf),
            Any::U64(v) => pack_u64(*v, buf),
            Any::I8(v) => pack_i8(*v, buf),
            Any::I16(v) => pack_i16(*v, buf),
            Any::I32(v) => pack_i32(*v, buf),
            Any::I64(v) => pack_i64(*v, buf),
            Any::Str(s) => pack_string(s, buf),
            Any::VecU8(v) => pack_vec_u8(v, buf),
            Any::VecAny(v) => v.pack_into(buf),
        }
    }

    /// The encoding of the value.
    pub fn pack(&self) -> (r: Vec<u8>)
        ensures
            r@ == pack_spec(*self),
    {
        let mut buf: Vec<u8> = Vec::new();
        self.pack_into(&mut buf);
        assert(buf@ =~= pack_spec(*self));
        buf
    }
}

impl VecAny {
    /// An empty list.
    pub fn new() -> (r: VecAny)
        ensures
            r.0@ == Seq::<Any>::empty(),
    {
        VecAny(Vec::new())
    }

    /// Appends a value.
    pub fn push(&mut self, val: Any)
        ensures
            final(self).0@ == old(self).0@.push(val),
    {
        self.0.push(val)
    }

    /// The number of values.
    pub fn len(&self) -> (r: usize)
        ensures
            r == self.0@.len(),
    {
        self.0.len()
    }

    /// Appends the encoding of the list to `buf`: its length, then each value.
    pub fn pack_into(&self, buf: &mut Vec<u8>)
        ensures
            final(buf)@ == old(buf)@ + pack_spec(Any::VecAny(*self)),
        decreases Any::VecAny(*self), 0nat,
    {
        pack_array_len(self.0.len(), buf);
        let mut i: usize = 0;
        while i < self.0.len()
            invariant
                i <= self.0@.len(),
                buf@ == old(buf)@ + mp_array_len(self.0@.len()) + pack_items(self.0@, i as int),
            decreases self.0@.len() - i,
        {
            let ghost before = buf@;
            proof {
                let e = self.0@[i as int];
                let a = Any::VecAny(*self);
                assert(a->VecAny_0 == *self);
                assert(decreases_to!(a => a->VecAny_0));
                assert(decreases_to!(*self => self.0));
                assert(decreases_to!(self.0 => self.0@));
                assert(decreases_to!(self.0@ => e));
                assert(decreases_to!(Any::VecAny(*self) => e));
            }
            self.0[i].pack_into(buf);
            i = i + 1;
            assert(buf@ =~= old(buf)@ + mp_array_len(self.0@.len()) + pack_items(
                self.0@,
                i as int,
            ));
        }
    }

    /// The encoding of the list.
    pub fn pack(&self) -> (r: Vec<u8>)
        ensures
            r@ == pack_spec(Any::VecAny(*self)),
    {
        let mut buf: Vec<u8> = Vec::new();
        self.pack_into(&mut buf);
        assert(buf@ =~= pack_spec(Any::VecAny(*self)));
        buf
    }
}

impl Default for VecAny {
    fn default() -> (r: VecAny)
        ensures
            r.0@ == Seq::<Any>::empty(),
    {
        VecAny::new()
    }
}

/// The list that the favourites page sends for rows of (kind, resource id,
/// time): each row's kind and id as a pair, then the time of the last row;
/// nothing for no rows.
pub fn cid_rid_ts_li(li: Vec<(u16, u64, u64)>) -> (t: VecAny)
    ensures
        li@.len() == 0 ==> t.0@.len() == 0,
        li@.len() > 0 ==> t.0@.len() == li@.len() + 1,
        li@.len() > 0 ==> t.0@[li@.len() as int] == Any::U64(li@.last().2),
        forall|i: int|
            0 <= i < li@.len() ==> (#[trigger] t.0@[i] matches Any::VecAny(p) && p.0@ == seq![
                Any::U16(li@[i].0),
                Any::U64(li@[i].1),
            ]),
{
    let mut t = VecAny::new();
    if li.len() > 0 {
        let last_ts = li[li.len() - 1].2;
        let mut i: usize = 0;
        while i < li.len()
            invariant
                i <= li@.len(),
                t.0@.len() == i,
                forall|k: int|
                    0 <= k < i ==> (#[trigger] t.0@[k] matches Any::VecAny(p) && p.0@ == seq![
                        Any::U16(li@[k].0),
                        Any::U64(li@[k].1),
                    ]),
            decreases li@.len() - i,
        {
            let mut pair = VecAny::new();
            pair.push(Any::U16(li[i].0));
            pair.push(Any::U64(li[i].1));
            assert(pair.0@ =~= seq![Any::U16(li@[i as int].0), Any::U64(li@[i as int].1)]);
            t.push(Any::VecAny(pair));
            i = i + 1;
        }
        t.push(Any::U64(last_ts));
    }
    t
}

impl Any {
    /// A string value (`From<&str>`).
    pub fn from_str(v: &str) -> (r: Any)
        ensures
            r matches Any::Str(s) && s@ == v@,
    {
        Any::Str(v.to_owned())
    }

    /// A list of numbers as a list of `u64` values (`From<Vec<u64>>`).
    pub fn from_u64s(li: &Vec<u64>) -> (r: Any)
        ensures
            r matches Any::VecAny(v) && v.0@.len() == li@.len() && forall|i: int|
                0 <= i < li@.len() ==> #[trigger] v.0@[i] == Any::U64(li@[i]),
    {
        let mut v = VecAny::new();
        let mut i: usize = 0;
        while i < li.len()
            invariant
                i <= li@.len(),
                v.0@.len() == i,
                forall|k: int| 0 <= k < i ==> #[trigger] v.0@[k] == Any::U64(li@[k]),
            decreases li@.len() - i,
        {
            v.push(Any::U64(li[i]));
            i = i + 1;
        }
        Any::VecAny(v)
    }
}

/// The body of a message pushed to a client: the list of its kind and its
/// content, encoded.
pub fn nchan_message(kind: u16, msg: Any) -> (r: Vec<u8>)
    ensures
        r@ == mp_array_len(2) + mp_uint(kind as nat) + pack_spec(msg),
{
    let mut li = VecAny::new();
    li.push(Any::U16(kind));
    li.push(msg);
    let r = li.pack();
    proof {
        let s = li.0@;
        reveal_with_fuel(pack_items, 3);
        assert(pack_items(s, 2) =~= pack_items(s, 1) + pack_spec(s[1]));
        assert(pack_items(s, 1) =~= pack_items(s, 0) + pack_spec(s[0]));
        assert(pack_items(s, 0) =~= Seq::<u8>::empty());
    }
    r
}

/// One page of the history sync: each row's time, kind and resource id, then
/// the time the page was asked after; also the time of its last row, from
/// which the next page is asked.
pub fn seen_page(li: &Vec<(u64, i8, i64)>, seen_ts: u64) -> (r: (VecAny, u64))
    requires
        li@.len() > 0,
    ensures
        r.0.0@.len() == 3 * li@.len() + 1,
        forall|i: int|
            0 <= i < li@.len() ==> r.0.0@[3 * i] == Any::U64(#[trigger] li@[i].0) && r.0.0@[3 * i
                + 1] == Any::I8(li@[i].1) && r.0.0@[3 * i + 2] == Any::I64(li@[i].2),
        r.0.0@[3 * li@.len() as int] == Any::U64(seen_ts),
        r.1 == li@.last().0,
{
    let mut r = VecAny::new();
    let last_ts = li[li.len() - 1].0;
    let mut i: usize = 0;
    while i < li.len()
        invariant
            i <= li@.len(),
            r.0@.len() == 3 * i,
            forall|k: int|
                0 <= k < i ==> r.0@[3 * k] == Any::U64(#[trigger] li@[k].0) && r.0@[3 * k + 1]
                    == Any::I8(li@[k].1) && r.0@[3 * k + 2] == Any::I64(li@[k].2),
        decreases li@.len() - i,
    {
        let ghost before = r.0@;
        let (ts, cid, rid) = li[i];
        r.push(Any::U64(ts));
        r.push(Any::I8(cid));
        r.push(Any::I64(rid));
        proof {
            assert(r.0@ == before.push(Any::U64(ts)).push(Any::I8(cid)).push(Any::I64(rid)));
            assert(li@[i as int] == (ts, cid, rid));
            assert forall|k: int| 0 <= k < i + 1 implies r.0@[3 * k] == Any::U64(
                #[trigger] li@[k].0,
            ) && r.0@[3 * k + 1] == Any::I8(li@[k].1) && r.0@[3 * k + 2] == Any::I64(
                li@[k].2,
            ) by {
                if k < i {
                    assert(r.0@[3 * k] == before[3 * k]);
                    assert(r.0@[3 * k + 1] == before[3 * k + 1]);
                    assert(r.0@[3 * k + 2] == before[3 * k + 2]);
                }
            }
        }
        i = i + 1;
    }
    let ghost body = r.0@;
    r.push(Any::U64(seen_ts));
    assert(forall|k: int| 0 <= k < body.len() ==> r.0@[k] == body[k]);
    (r, last_ts)
}

/// One page of the favourites sync: each row's kind, resource id, time and
/// action, then the id the page was asked after; also the id of its last row,
/// from which the next page is asked.
pub fn fav_page(li: &Vec<(u64, u16, u64, u64, i8)>, fav_id: u64) -> (r: (VecAny, u64))
    requires
        li@.len() > 0,
    ensures
        r.0.0@.len() == 4 * li@.len() + 1,
        forall|i: int|
            0 <= i < li@.len() ==> r.0.0@[4 * i] == Any::U16(#[trigger] li@[i].1) && r.0.0@[4 * i
                + 1] == Any::U64(li@[i].2) && r.0.0@[4 * i + 2] == Any::U64(li@[i].3) && r.0.0@[4
                * i + 3] == Any::I8(li@[i].4),
        r.0.0@[4 * li@.len() as int] == Any::U64(fav_id),
        r.1 == li@.last().0,
{
    let mut r = VecAny::new();
    let last_id = li[li.len() - 1].0;
    let mut i: usize = 0;
    while i < li.len()
        invariant
            i <= li@.len(),
            r.0@.len() == 4 * i,
            forall|k: int|
                0 <= k < i ==> r.0@[4 * k] == Any::U16(#[trigger] li@[k].1) && r.0@[4 * k + 1]
                    == Any::U64(li@[k].2) && r.0@[4 * k + 2] == Any::U64(li@[k].3) && r.0@[4 * k
                    + 3] == Any::I8(li@[k].4),
        decreases li@.len() - i,
    {
        let ghost before = r.0@;
        let (_, cid, rid, ts, aid) = li[i];
        r.push(Any::U16(cid));
        r.push(Any::U64(rid));
        r.push(Any::U64(ts));
        r.push(Any::I8(aid));
        proof {
            assert(r.0@ == before.push(Any::U16(cid)).push(Any::U64(rid)).push(Any::U64(ts)).push(
                Any::I8(aid),
            ));
            assert(li@[i as int].1 == cid && li@[i as int].2 == rid && li@[i as int].3 == ts
                && li@[i as int].4 == aid);
            assert forall|k: int| 0 <= k < i + 1 implies r.0@[4 * k] == Any::U16(
                #[trigger] li@[k].1,
            ) && r.0@[4 * k + 1] == Any::U64(li@[k].2) && r.0@[4 * k + 2] == Any::U64(li@[k].3)
                && r.0@[4 * k + 3] == Any::I8(li@[k].4) by {
                if k < i {
                    assert(r.0@[4 * k] == before[4 * k]);
                    assert(r.0@[4 * k + 1] == before[4 * k + 1]);
                    assert(r.0@[4 * k + 2] == before[4 * k + 2]);
                    assert(r.0@[4 * k + 3] == before[4 * k + 3]);
                }
            }
        }
        i = i + 1;
    }
    let ghost body = r.0@;
    r.push(Any::U64(fav_id));
    assert(forall|k: int| 0 <= k < body.len() ==> r.0@[k] == body[k]);
    (r, last_id)
}

/// A message for the other clients of a user: the client that caused it, the
/// user, the kind of message and its content.
#[derive(Debug)]
pub struct UserMessage {
    pub sender_client_id: u64,
    pub uid: u64,
    pub kind: u16,
    pub msg: Any,
}

/// The message of the given kind that the other clients of a user are to
/// get. Delivering it is the server's part; delivery is switched off there,
/// so the message is handed to no client.
pub fn publish_to_user_client(sender_client_id: u64, uid: u64, kind: u16, msg: Any) -> (r:
    UserMessage)
    ensures
        r == (UserMessage { sender_client_id, uid, kind, msg }),
{
    UserMessage { sender_client_id, uid, kind, msg }
}

} // verus!
