//! The protocol-buffer wire format: varints and the fields of a message.
use vstd::prelude::*;

verus! {

/// The value of a field as it stands on the wire.
#[derive(Debug, PartialEq, Eq)]
pub enum WireValue {
    /// Wire type 0.
    Varint(u64),
    /// Wire type 1: eight bytes, little-endian.
    Fixed64(u64),
    /// Wire type 2: a length-delimited run of bytes.
    Bytes(Vec<u8>),
    /// Wire type 5: four bytes, little-endian.
    Fixed32(u32),
}

/// One field of a message: its number and its value.
#[derive(Debug, PartialEq, Eq)]
pub struct WireField {
    pub number: u64,
    pub value: WireValue,
}

/// A field's value as plain data.
pub enum WireValueView {
    Varint(u64),
    Fixed64(u64),
    Bytes(Seq<u8>),
    Fixed32(u32),
}

/// A field as plain data.
pub struct WireFieldView {
    pub number: u64,
    pub value: WireValueView,
}

impl WireField {
    /// The field as plain data.
    pub open spec fn view(&self) -> WireFieldView {
        WireFieldView {
            number: self.number,
            value: value_view(self.value),
        }
    }
}

/// A field's value as plain data.
pub open spec fn value_view(v: WireValue) -> WireValueView {
    match v {
        WireValue::Varint(v) => WireValueView::Varint(v),
        WireValue::Fixed64(v) => WireValueView::Fixed64(v),
        WireValue::Bytes(b) => WireValueView::Bytes(b@),
        WireValue::Fixed32(v) => WireValueView::Fixed32(v),
    }
}

/// The fields as plain data.
pub open spec fn fields_view(fs: Seq<WireField>) -> Seq<WireFieldView> {
    fs.map_values(|f: WireField| f.view())
}

/// The value of the varint whose bytes start at `d[i]`, least significant
/// group first, and the position just past it; `None` when it runs past the
/// end of `d` or past its tenth byte.
pub open spec fn varint_from(d: Seq<u8>, i: int, start: int) -> Option<(int, int)>
    decreases 10 - (i - start), d.len() - i,
{
    if i < 0 || i >= d.len() || i - start >= 10 {
        None
    } else if d[i] < 128 {
        Some((d[i] as int, i + 1))
    } else {
        match varint_from(d, i + 1, start) {
            Some((v, end)) => Some(((d[i] as int - 128) + 128 * v, end)),
            None => None,
        }
    }
}

/// The varint at position `i` of `d`, when it ends within the data and
/// its value fits in 64 bits: the value and the position past it.
pub open spec fn varint_at(d: Seq<u8>, i: int) -> Option<(u64, int)> {
    match varint_from(d, i, i) {
        Some((v, end)) => if v < 0x1_0000_0000_0000_0000 {
            Some((v as u64, end))
        } else {
            None
        },
        None => None,
    }
}

proof fn lemma_varint_from_bounds(d: Seq<u8>, i: int, start: int)
    ensures
        varint_from(d, i, start) matches Some((v, end)) ==> 0 <= v && i < end <= d.len(),
    decreases 10 - (i - start), d.len() - i,
{
    if !(i < 0 || i >= d.len() || i - start >= 10) && d[i] >= 128 {
        lemma_varint_from_bounds(d, i + 1, start);
    }
}

/// Reads the varint at `pos`.
pub fn read_varint(d: &[u8], pos: usize) -> (r: Option<(u64, usize)>)
    ensures
        match varint_at(d@, pos as int) {
            Some((v, end)) => r matches Some((rv, rend)) && rv == v && rend as int == end && pos < end
                <= d@.len(),
            None => r is None,
        },
{
    proof {
        lemma_varint_from_bounds(d@, pos as int, pos as int);
    }
    let mut acc: u128 = 0;
    let mut mult: u128 = 1;
    let mut i: usize = pos;
    let ghost total = varint_from(d@, pos as int, pos as int);
    while i < d.len() && i - pos < 10
        invariant
            pos <= i,
            i - pos <= 10,
            mult == pow128((i - pos) as nat),
            acc < mult,
            total == varint_from(d@, pos as int, pos as int),
            total == match varint_from(d@, i as int, pos as int) {
                Some((v, end)) => Some((acc + mult * v, end)),
                None => None,
            },
        decreases 10 - (i - pos),
    {
        let b = d[i];
        proof {
            lemma_varint_from_bounds(d@, i as int + 1, pos as int);
            let k = (i - pos) as nat;
            assert(pow128(k + 1) == 128 * pow128(k));
            lemma_pow128_mono(k + 1, 10);
            assert(mult * 128 <= 1180591620717411303424);
        }
        if b < 128 {
            assert(acc + mult * (b as int) < mult * 128) by (nonlinear_arith)
                requires
                    acc < mult,
                    b < 128,
            ;
            assert(acc + mult * (b as int) < 1180591620717411303424);
            let value: u128 = acc + mult * (b as u128);
            if value <= 0xffff_ffff_ffff_ffff {
                return Some((value as u64, i + 1));
            } else {
                return None;
            }
        }
        proof {
            let ghost digit = b as int - 128;
            assert(acc + mult * digit < mult * 128) by (nonlinear_arith)
                requires
                    acc < mult,
                    0 <= digit < 128,
            ;
            match varint_from(d@, i as int + 1, pos as int) {
                Some((v, end)) => {
                    assert(acc + mult * (digit + 128 * v) == (acc + mult * digit) + (mult * 128) * v)
                        by (nonlinear_arith);
                },
                None => {},
            }
        }
        acc = acc + mult * ((b - 128) as u128);
        mult = mult * 128;
        i = i + 1;
    }
    None
}

/// 128 to the power `n`.
pub open spec fn pow128(n: nat) -> int
    decreases n,
{
    if n == 0 {
        1
    } else {
        128 * pow128((n - 1) as nat)
    }
}

proof fn lemma_pow128_pos(a: nat)
    ensures
        1 <= pow128(a),
    decreases a,
{
    if a > 0 {
        lemma_pow128_pos((a - 1) as nat);
    }
}

proof fn lemma_pow128_mono(a: nat, b: nat)
    requires
        a <= b,
    ensures
        1 <= pow128(a) <= pow128(b),
        pow128(10) == 1180591620717411303424,
    decreases b,
{
    reveal_with_fuel(pow128, 11);
    lemma_pow128_pos(a);
    if a < b {
        lemma_pow128_mono(a, (b - 1) as nat);
        lemma_pow128_pos((b - 1) as nat);
    }
}

/// The little-endian value of the bytes.
pub open spec fn le_value(s: Seq<u8>) -> int
    decreases s.len(),
{
    if s.len() == 0 {
        0
    } else {
        s[0] as int + 256 * le_value(s.drop_first())
    }
}

/// 256 to the power `n`.
pub open spec fn pow256(n: nat) -> int
    decreases n,
{
    if n == 0 {
        1
    } else {
        256 * pow256((n - 1) as nat)
    }
}

proof fn lemma_le_value_bound(s: Seq<u8>)
    ensures
        0 <= le_value(s) < pow256(s.len()),
    decreases s.len(),
{
    if s.len() > 0 {
        lemma_le_value_bound(s.drop_first());
        let r = le_value(s.drop_first());
        let p = pow256((s.len() - 1) as nat);
        assert(s[0] as int + 256 * r < 256 * p) by (nonlinear_arith)
            requires
                0 <= r < p,
                0 <= s[0] < 256,
        ;
    }
}

/// Reads `n` bytes at `pos` as a little-endian number.
fn read_le(d: &[u8], pos: usize, n: usize) -> (r: u64)
    requires
        n <= 8,
        pos + n <= d@.len(),
    ensures
        r as int == le_value(d@.subrange(pos as int, pos + n)),
{
    let mut acc: u64 = 0;
    let mut t: usize = n;
    let len = d.len();
    proof {
        reveal_with_fuel(pow256, 9);
    }
    assert(d@.subrange(pos + n, pos + n) =~= Seq::<u8>::empty());
    while t > 0
        invariant
            t <= n <= 8,
            pos + n <= d@.len(),
            len == d@.len(),
            acc as int == le_value(d@.subrange(pos + t, pos + n)),
            pow256(8) == 0x1_0000_0000_0000_0000,
        decreases t,
    {
        let ghost tail = d@.subrange(pos + t, pos + n);
        let ghost cur = d@.subrange(pos + t - 1, pos + n);
        assert(cur.drop_first() =~= tail);
        proof {
            lemma_le_value_bound(cur);
            lemma_pow256_mono(cur.len(), 8);
            assert(cur[0] == d@[pos + t - 1]);
            assert(le_value(cur) == d@[pos + t - 1] as int + 256 * acc);
        }
        acc = d[pos + t - 1] as u64 + 256 * acc;
        t = t - 1;
    }
    acc
}

proof fn lemma_pow256_mono(a: nat, b: nat)
    requires
        a <= b,
    ensures
        pow256(a) <= pow256(b),
    decreases b,
{
    if a < b {
        lemma_pow256_mono(a, (b - 1) as nat);
        lemma_pow256_pos((b - 1) as nat);
    }
}

proof fn lemma_pow256_pos(a: nat)
    ensures
        1 <= pow256(a),
    decreases a,
{
    if a > 0 {
        lemma_pow256_pos((a - 1) as nat);
    }
}

/// The value of wire type `wire_type` starting at `j`, and the position past it.
pub open spec fn value_at(d: Seq<u8>, j: int, wire_type: int) -> Option<(WireValueView, int)> {
    if wire_type == 0 {
        match varint_at(d, j) {
            Some((v, end)) => Some((WireValueView::Varint(v), end)),
            None => None,
        }
    } else if wire_type == 1 {
        if 0 <= j && j + 8 <= d.len() {
            Some((WireValueView::Fixed64(le_value(d.subrange(j, j + 8)) as u64), j + 8))
        } else {
            None
        }
    } else if wire_type == 2 {
        match varint_at(d, j) {
            Some((len, k)) => if k + len <= d.len() {
                Some((WireValueView::Bytes(d.subrange(k, k + len)), k + len))
            } else {
                None
            },
            None => None,
        }
    } else if wire_type == 5 {
        if 0 <= j && j + 4 <= d.len() {
            Some((WireValueView::Fixed32(le_value(d.subrange(j, j + 4)) as u32), j + 4))
        } else {
            None
        }
    } else {
        None
    }
}

/// The fields of the message held in `d` from position `i` to its end;
/// `None` when the bytes are not a sequence of well-formed fields with
/// non-zero numbers.
pub open spec fn fields_from(d: Seq<u8>, i: int) -> Option<Seq<WireFieldView>>
    decreases d.len() - i,
{
    if i < 0 || i >= d.len() {
        if i == d.len() {
            Some(Seq::empty())
        } else {
            None
        }
    } else {
        match varint_at(d, i) {
            None => None,
            Some((key, j)) => match value_at(d, j, key as int % 8) {
                None => None,
                Some((value, k)) => if key / 8 == 0 || k <= i || k > d.len() {
                    None
                } else {
                    match fields_from(d, k) {
                        Some(rest) => Some(
                            seq![WireFieldView { number: key / 8, value }] + rest,
                        ),
                        None => None,
                    }
                },
            },
        }
    }
}

/// The fields of a whole message.
pub open spec fn message_fields(d: Seq<u8>) -> Option<Seq<WireFieldView>> {
    fields_from(d, 0)
}

/// `o` with `a` put in front of the sequence it holds.
pub open spec fn prepend<A>(a: Seq<A>, o: Option<Seq<A>>) -> Option<Seq<A>> {
    match o {
        Some(r) => Some(a + r),
        None => None,
    }
}

/// Reads the length-delimited value at `j`.
fn read_bytes(d: &[u8], j: usize) -> (r: Option<(WireValue, usize)>)
    ensures
        match value_at(d@, j as int, 2) {
            Some((v, end)) => r matches Some((rv, rend)) && value_view(rv) == v && rend == end,
            None => r is None,
        },
{
    match read_varint(d, j) {
        Some((len, k)) => if len <= (d.len() - k) as u64 {
            let end = k + len as usize;
            let bytes = vstd::slice::slice_to_vec(vstd::slice::slice_subrange(d, k, end));
            assert(bytes@ == d@.subrange(k as int, end as int));
            Some((WireValue::Bytes(bytes), end))
        } else {
            None
        },
        None => None,
    }
}

/// Reads the eight-byte value at `j`.
fn read_fixed64(d: &[u8], j: usize) -> (r: Option<(WireValue, usize)>)
    ensures
        match value_at(d@, j as int, 1) {
            Some((v, end)) => r matches Some((rv, rend)) && value_view(rv) == v && rend == end,
            None => r is None,
        },
{
    if j <= d.len() && d.len() - j >= 8 {
        let v = read_le(d, j, 8);
        Some((WireValue::Fixed64(v), j + 8))
    } else {
        None
    }
}

/// Reads the four-byte value at `j`.
fn read_fixed32(d: &[u8], j: usize) -> (r: Option<(WireValue, usize)>)
    ensures
        match value_at(d@, j as int, 5) {
            Some((v, end)) => r matches Some((rv, rend)) && value_view(rv) == v && rend == end,
            None => r is None,
        },
{
    if j <= d.len() && d.len() - j >= 4 {
        let v = read_le(d, j, 4);
        proof {
            lemma_le_value_bound(d@.subrange(j as int, j + 4));
            reveal_with_fuel(pow256, 5);
        }
        Some((WireValue::Fixed32(v as u32), j + 4))
    } else {
        None
    }
}

/// Reads the varint value at `j`.
fn read_varint_value(d: &[u8], j: usize) -> (r: Option<(WireValue, usize)>)
    ensures
        match value_at(d@, j as int, 0) {
            Some((v, end)) => r matches Some((rv, rend)) && value_view(rv) == v && rend == end,
            None => r is None,
        },
{
    match read_varint(d, j) {
        Some((v, end)) => Some((WireValue::Varint(v), end)),
        None => None,
    }
}

/// Reads the value of wire type `wire_type` at `j`.
fn read_value(d: &[u8], j: usize, wire_type: u64) -> (r: Option<(WireValue, usize)>)
    ensures
        match value_at(d@, j as int, wire_type as int) {
            Some((v, end)) => r matches Some((rv, rend)) && value_view(rv) == v && rend == end,
            None => r is None,
        },
{
    if wire_type == 0 {
        read_varint_value(d, j)
    } else if wire_type == 1 {
        read_fixed64(d, j)
    } else if wire_type == 2 {
        read_bytes(d, j)
    } else if wire_type == 5 {
        read_fixed32(d, j)
    } else {
        None
    }
}

/// Splits a message into its fields, in order.
pub fn parse_fields(d: &[u8]) -> (r: Option<Vec<WireField>>)
    ensures
        match message_fields(d@) {
            Some(fs) => r is Some && fields_view(r->Some_0@) == fs,
            None => r is None,
        },
{
    let mut out: Vec<WireField> = Vec::new();
    let mut i: usize = 0;
    assert(fields_view(out@) =~= Seq::<WireFieldView>::empty());
    assert(fields_from(d@, 0) =~= prepend(fields_view(out@), fields_from(d@, 0)));
    while i < d.len()
        invariant
            i <= d@.len(),
            fields_from(d@, 0) == prepend(fields_view(out@), fields_from(d@, i as int)),
        decreases d@.len() - i,
    {
        let (key, j) = match read_varint(d, i) {
            Some(kj) => kj,
            None => return None,
        };
        let (value, k) = match read_value(d, j, key % 8) {
            Some(vk) => vk,
            None => return None,
        };
        if key / 8 == 0 || k <= i || k > d.len() {
            return None;
        }
        let ghost before = out@;
        let field = WireField { number: key / 8, value };
        let ghost fv = field.view();
        out.push(field);
        proof {
            assert(fields_view(out@) =~= fields_view(before) + seq![fv]);
            match fields_from(d@, k as int) {
                Some(rest) => {
                    assert(fields_view(before) + (seq![fv] + rest) =~= fields_view(out@) + rest);
                },
                None => {},
            }
        }
        i = k;
    }
    assert(fields_from(d@, i as int) == Some(Seq::<WireFieldView>::empty()));
    assert(fields_view(out@) + Seq::<WireFieldView>::empty() =~= fields_view(out@));
    Some(out)
}

} // verus!
