//! How numbers and records are written to files. Statements about readers are made in
//! these terms: what was written is what is read.
use vstd::prelude::*;

use crate::bytes;

verus! {

/// A 16-bit number, low byte first.
pub open spec fn le16(n: u16) -> Seq<u8> {
    seq![(n % 0x100) as u8, (n / 0x100) as u8]
}

/// A 32-bit number, low half first.
pub open spec fn le32(n: u32) -> Seq<u8> {
    le16((n % 0x1_0000) as u16) + le16((n / 0x1_0000) as u16)
}

/// A 64-bit number, low half first.
pub open spec fn le64(n: u64) -> Seq<u8> {
    le32((n % 0x1_0000_0000) as u32) + le32((n / 0x1_0000_0000) as u32)
}

/// A signed 32-bit number in two's complement.
pub open spec fn signed32(n: i32) -> Seq<u8> {
    if n < 0 {
        le32((n + 0x1_0000_0000) as u32)
    } else {
        le32(n as u32)
    }
}

/// A signed 64-bit number in two's complement.
pub open spec fn signed64(n: i64) -> Seq<u8> {
    if n < 0 {
        le64((n + 0x1_0000_0000_0000_0000) as u64)
    } else {
        le64(n as u64)
    }
}

/// 16-bit numbers one after the other.
pub open spec fn le16s(s: Seq<u16>) -> Seq<u8>
    decreases s.len(),
{
    if s.len() == 0 {
        Seq::empty()
    } else {
        le16s(s.drop_last()) + le16(s.last())
    }
}

/// 32-bit numbers one after the other.
pub open spec fn le32s(s: Seq<u32>) -> Seq<u8>
    decreases s.len(),
{
    if s.len() == 0 {
        Seq::empty()
    } else {
        le32s(s.drop_last()) + le32(s.last())
    }
}

/// 64-bit numbers one after the other.
pub open spec fn le64s(s: Seq<u64>) -> Seq<u8>
    decreases s.len(),
{
    if s.len() == 0 {
        Seq::empty()
    } else {
        le64s(s.drop_last()) + le64(s.last())
    }
}

/// Matrices one after the other.
pub open spec fn matrices(s: Seq<Seq<u32>>) -> Seq<u8>
    decreases s.len(),
{
    if s.len() == 0 {
        Seq::empty()
    } else {
        matrices(s.drop_last()) + le32s(s.last())
    }
}

/// Fields one after the other.
pub open spec fn joined(fields: Seq<Seq<u8>>) -> Seq<u8>
    decreases fields.len(),
{
    if fields.len() == 0 {
        Seq::empty()
    } else {
        joined(fields.drop_last()) + fields.last()
    }
}

/// Bytes before field `k`.
pub open spec fn offset(fields: Seq<Seq<u8>>, k: int) -> int
    decreases k,
{
    if k <= 0 {
        0
    } else {
        offset(fields, k - 1) + fields[k - 1].len()
    }
}

/// Whether a file holds some bytes from `at` on.
pub open spec fn holds(b: Seq<u8>, at: int, s: Seq<u8>) -> bool {
    &&& 0 <= at
    &&& at + s.len() <= b.len()
    &&& forall|i: int| 0 <= i < s.len() ==> b[at + i] == #[trigger] s[i]
}

/// What holds of two strings of bytes holds of each.
pub proof fn halves_stand(b: Seq<u8>, at: int, x: Seq<u8>, y: Seq<u8>)
    requires
        holds(b, at, x + y),
    ensures
        holds(b, at, x),
        holds(b, at + x.len(), y),
{
    assert forall|i: int| 0 <= i < x.len() implies b[at + i] == #[trigger] x[i] by {
        assert((x + y)[i] == x[i]);
    }
    assert forall|i: int| 0 <= i < y.len() implies b[at + x.len() + i] == #[trigger] y[i] by {
        assert((x + y)[x.len() + i] == y[i]);
    }
}

pub proof fn joined_is_as_long_as_its_fields(fields: Seq<Seq<u8>>)
    ensures
        joined(fields).len() == offset(fields, fields.len() as int),
    decreases fields.len(),
{
    if fields.len() > 0 {
        let rest = fields.drop_last();
        joined_is_as_long_as_its_fields(rest);
        offsets_of_prefixes(fields, rest.len() as int, rest.len() as int);
    }
}

proof fn offsets_of_prefixes(fields: Seq<Seq<u8>>, n: int, k: int)
    requires
        0 <= k <= n <= fields.len(),
    ensures
        offset(fields.take(n), k) == offset(fields, k),
    decreases k,
{
    if k > 0 {
        offsets_of_prefixes(fields, n, k - 1);
    }
}

/// Where fields are written one after the other, each stands behind those before it.
pub proof fn field_stands(b: Seq<u8>, at: int, fields: Seq<Seq<u8>>, k: int)
    requires
        holds(b, at, joined(fields)),
        0 <= k < fields.len(),
    ensures
        holds(b, at + offset(fields, k), fields[k]),
    decreases fields.len(),
{
    let rest = fields.drop_last();
    halves_stand(b, at, joined(rest), fields.last());
    joined_is_as_long_as_its_fields(rest);
    assert(rest =~= fields.take(rest.len() as int));
    if k < rest.len() {
        field_stands(b, at, rest, k);
        offsets_of_prefixes(fields, rest.len() as int, k);
    } else {
        offsets_of_prefixes(fields, rest.len() as int, k);
    }
}

/// Written numbers take two, four and eight bytes.
pub proof fn numbers_have_fixed_sizes()
    ensures
        forall|n: u16| #[trigger] le16(n).len() == 2,
        forall|n: u32| #[trigger] le32(n).len() == 4,
        forall|n: u64| #[trigger] le64(n).len() == 8,
        forall|n: i32| #[trigger] signed32(n).len() == 4,
        forall|n: i64| #[trigger] signed64(n).len() == 8,
{
}

/// A 16-bit number is read as written.
pub proof fn reads_16(b: Seq<u8>, at: int, n: u16)
    requires
        holds(b, at, le16(n)),
    ensures
        bytes::u16_at(b, at) == n,
{
    let s = le16(n);
    assert(b[at + 0] == s[0]);
    assert(b[at + 1] == s[1]);
    assert(n == n % 0x100 + 0x100 * (n / 0x100));
}

/// A 32-bit number is read as written.
pub proof fn reads_32(b: Seq<u8>, at: int, n: u32)
    requires
        holds(b, at, le32(n)),
    ensures
        bytes::u32_at(b, at) == n,
{
    let (low, high) = ((n % 0x1_0000) as u16, (n / 0x1_0000) as u16);
    halves_stand(b, at, le16(low), le16(high));
    reads_16(b, at, low);
    reads_16(b, at + 2, high);
    assert(n == n % 0x1_0000 + 0x1_0000 * (n / 0x1_0000));
}

/// A 64-bit number is read as written.
pub proof fn reads_64(b: Seq<u8>, at: int, n: u64)
    requires
        holds(b, at, le64(n)),
    ensures
        bytes::u64_at(b, at) == n,
{
    let (low, high) = ((n % 0x1_0000_0000) as u32, (n / 0x1_0000_0000) as u32);
    halves_stand(b, at, le32(low), le32(high));
    reads_32(b, at, low);
    reads_32(b, at + 4, high);
    assert(n == n % 0x1_0000_0000 + 0x1_0000_0000 * (n / 0x1_0000_0000));
}

/// A signed 32-bit number is read as written.
pub proof fn reads_signed_32(b: Seq<u8>, at: int, n: i32)
    requires
        holds(b, at, signed32(n)),
    ensures
        bytes::i32_at(b, at) == n,
{
    if n < 0 {
        reads_32(b, at, (n + 0x1_0000_0000) as u32);
    } else {
        reads_32(b, at, n as u32);
    }
}

/// A signed 64-bit number is read as written.
pub proof fn reads_signed_64(b: Seq<u8>, at: int, n: i64)
    requires
        holds(b, at, signed64(n)),
    ensures
        bytes::i64_at(b, at) == n,
{
    if n < 0 {
        reads_64(b, at, (n + 0x1_0000_0000_0000_0000) as u64);
    } else {
        reads_64(b, at, n as u64);
    }
}

/// 16-bit numbers are read as written.
pub proof fn reads_16s(b: Seq<u8>, at: int, s: Seq<u16>)
    requires
        holds(b, at, le16s(s)),
    ensures
        le16s(s).len() == 2 * s.len(),
        bytes::u16s_at(b, at, s.len() as int) == s,
    decreases s.len(),
{
    if s.len() > 0 {
        let rest = s.drop_last();
        halves_stand(b, at, le16s(rest), le16(s.last()));
        reads_16s(b, at, rest);
        reads_16(b, at + 2 * rest.len(), s.last());
        assert forall|i: int| 0 <= i < s.len() implies bytes::u16_at(b, at + 2 * i) == s[i] by {
            if i < rest.len() {
                assert(bytes::u16s_at(b, at, rest.len() as int)[i] == rest[i]);
            }
        }
    }
    assert(bytes::u16s_at(b, at, s.len() as int) =~= s);
}

/// 32-bit numbers are read as written.
pub proof fn reads_32s(b: Seq<u8>, at: int, s: Seq<u32>)
    requires
        holds(b, at, le32s(s)),
    ensures
        le32s(s).len() == 4 * s.len(),
        bytes::u32s_at(b, at, s.len() as int) == s,
    decreases s.len(),
{
    if s.len() > 0 {
        let rest = s.drop_last();
        halves_stand(b, at, le32s(rest), le32(s.last()));
        reads_32s(b, at, rest);
        reads_32(b, at + 4 * rest.len(), s.last());
        assert forall|i: int| 0 <= i < s.len() implies bytes::u32_at(b, at + 4 * i) == s[i] by {
            if i < rest.len() {
                assert(bytes::u32s_at(b, at, rest.len() as int)[i] == rest[i]);
            }
        }
    }
    assert(bytes::u32s_at(b, at, s.len() as int) =~= s);
}

/// 64-bit numbers are read as written.
pub proof fn reads_64s(b: Seq<u8>, at: int, s: Seq<u64>)
    requires
        holds(b, at, le64s(s)),
    ensures
        le64s(s).len() == 8 * s.len(),
        bytes::u64s_at(b, at, s.len() as int) == s,
    decreases s.len(),
{
    if s.len() > 0 {
        let rest = s.drop_last();
        halves_stand(b, at, le64s(rest), le64(s.last()));
        reads_64s(b, at, rest);
        reads_64(b, at + 8 * rest.len(), s.last());
        assert forall|i: int| 0 <= i < s.len() implies bytes::u64_at(b, at + 8 * i) == s[i] by {
            if i < rest.len() {
                assert(bytes::u64s_at(b, at, rest.len() as int)[i] == rest[i]);
            }
        }
    }
    assert(bytes::u64s_at(b, at, s.len() as int) =~= s);
}

proof fn numbers_take_four_bytes(s: Seq<u32>)
    ensures
        le32s(s).len() == 4 * s.len(),
    decreases s.len(),
{
    if s.len() > 0 {
        numbers_take_four_bytes(s.drop_last());
    }
}

/// A matrix takes 64 bytes.
pub proof fn matrices_have_a_fixed_size(m: Seq<u32>)
    requires
        m.len() == 16,
    ensures
        le32s(m).len() == 64,
{
    numbers_take_four_bytes(m);
}

/// Three numbers take twelve bytes, four sixteen.
pub proof fn vectors_have_fixed_sizes(v: Seq<u32>)
    ensures
        le32s(v).len() == 4 * v.len(),
{
    numbers_take_four_bytes(v);
}

/// A matrix is read as written.
pub proof fn reads_matrix(b: Seq<u8>, at: int, m: Seq<u32>)
    requires
        m.len() == 16,
        holds(b, at, le32s(m)),
    ensures
        crate::models::visual::matrix_at(b, at) == m,
{
    reads_32s(b, at, m);
}

/// Matrices are read as written.
pub proof fn reads_matrices(b: Seq<u8>, at: int, s: Seq<Seq<u32>>)
    requires
        forall|i: int| 0 <= i < s.len() ==> (#[trigger] s[i]).len() == 16,
        holds(b, at, matrices(s)),
    ensures
        matrices(s).len() == 64 * s.len(),
        crate::models::visual::matrices_at(b, at, s.len() as int) == s,
    decreases s.len(),
{
    if s.len() > 0 {
        let rest = s.drop_last();
        assert forall|i: int| 0 <= i < rest.len() implies (#[trigger] rest[i]).len() == 16 by {
            assert(rest[i] == s[i]);
        }
        halves_stand(b, at, matrices(rest), le32s(s.last()));
        reads_matrices(b, at, rest);
        numbers_take_four_bytes(s.last());
        reads_matrix(b, at + 64 * rest.len(), s.last());
        assert forall|i: int| 0 <= i < s.len() implies crate::models::visual::matrix_at(
            b,
            at + 64 * i,
        ) == s[i] by {
            if i < rest.len() {
                assert(crate::models::visual::matrices_at(b, at, rest.len() as int)[i] == rest[i]);
            }
        }
    }
    assert(crate::models::visual::matrices_at(b, at, s.len() as int) =~= s);
}

} // verus!
