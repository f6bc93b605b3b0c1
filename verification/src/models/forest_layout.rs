//! What `forest.bin` looks like to those who write it, and that the reader in `forest`
//! gives back what was written.
use vstd::prelude::*;

use crate::bytes;
use crate::models::forest;
use crate::models::forest::Forest;
use crate::models::layout;
use crate::text;

verus! {

/// A layer: instance buffer, instance count, and start and count per species.
pub open spec fn layer_record(
    buffer: i64,
    count: u32,
    gap: Seq<u8>,
    ranges: Seq<u32>,
) -> Seq<Seq<u8>> {
    seq![layout::signed64(buffer), layout::le32(count), gap, layout::le32s(ranges)]
}

/// The plants of a species are those of its range of the layer's buffer, in order; of the
/// four numbers of a plant the first three are its place. Start and count of species `i`
/// are the numbers `2 * i` and `2 * i + 1` of the ranges.
pub proof fn plants_are_read_as_written(
    b: Seq<u8>,
    layer: int,
    buffer: i64,
    gap: Seq<u8>,
    ranges: Seq<u32>,
    numbers: Seq<u32>,
    i: int,
    k: int,
)
    requires
        0 <= layer < 4,
        b.len() <= u64::MAX,
        gap.len() == 4,
        numbers.len() % 4 == 0,
        0 < numbers.len() <= 4 * u32::MAX,
        layout::holds(
            b,
            0x10 + 0x90 * layer,
            layout::joined(layer_record(buffer, (numbers.len() / 4) as u32, gap, ranges)),
        ),
        layout::holds(b, 0x10 + 0x90 * layer + buffer, layout::le32s(numbers)),
        0 <= i,
        2 * i + 1 < ranges.len(),
        ranges[2 * i] + ranges[2 * i + 1] <= numbers.len() / 4,
        0 <= k < ranges[2 * i + 1],
        i <= usize::MAX,
    ensures
        forest::species_instances(b, layer, i).len() == ranges[2 * i + 1],
        forest::species_instances(b, layer, i)[k].species_index == i,
        forest::species_instances(b, layer, i)[k].x == numbers[4 * (ranges[2 * i] + k)],
        forest::species_instances(b, layer, i)[k].y == numbers[4 * (ranges[2 * i] + k) + 1],
        forest::species_instances(b, layer, i)[k].z == numbers[4 * (ranges[2 * i] + k) + 2],
{
    let count = (numbers.len() / 4) as u32;
    let f = layer_record(buffer, count, gap, ranges);
    let base = 0x10 + 0x90 * layer;
    layout::numbers_have_fixed_sizes();
    reveal_with_fuel(layout::offset, 5);
    layout::field_stands(b, base, f, 0);
    layout::field_stands(b, base, f, 1);
    layout::field_stands(b, base, f, 3);
    layout::reads_signed_64(b, base, buffer);
    layout::reads_32(b, base + 8, count);
    layout::reads_32s(b, base + 0x10, ranges);
    layout::reads_32s(b, base + buffer, numbers);
    vstd::arithmetic::div_mod::lemma_small_mod(
        (base + buffer) as nat,
        0x1_0000_0000_0000_0000,
    );
    assert(bytes::u32s_at(b, base + 0x10, ranges.len() as int)[2 * i] == ranges[2 * i]);
    assert(bytes::u32s_at(b, base + 0x10, ranges.len() as int)[2 * i + 1] == ranges[2 * i + 1]);
    let (first, n) = (ranges[2 * i], ranges[2 * i + 1]);
    assert(forest::species_range(b, layer, i) == (first as usize, n as usize));
    let all = bytes::u32s_at(b, base + buffer, numbers.len() as int);
    let at = 4 * (first + k);
    assert(all[at] == numbers[at] && all[at + 1] == numbers[at + 1] && all[at + 2] == numbers[at
        + 2]);
}

/// The plants of a layer are those of its species, one species after the other.
pub proof fn layers_are_made_of_their_species(b: Seq<u8>, layer: int, n: int, i: int, k: int)
    requires
        0 <= i < n,
        forest::layer_count(b, layer) > 0,
        0 <= k < forest::species_instances(b, layer, i).len(),
    ensures
        forest::layer_instances(b, layer, i).len() + k < forest::layer_instances(b, layer, n).len(),
        forest::layer_instances(b, layer, n)[forest::layer_instances(b, layer, i).len() + k] == forest::species_instances(
            b,
            layer,
            i,
        )[k],
    decreases n,
{
    if i < n - 1 {
        layers_are_made_of_their_species(b, layer, n - 1, i, k);
    }
}

/// The start of a file is read as it was written: species count and table of names.
/// Each of the four layers comes back in its own place.
pub proof fn forests_are_read_as_written(b: Seq<u8>, n: u64, table: u64, f: Forest)
    requires
        layout::holds(b, 0, layout::le64(n) + layout::le64(table)),
        forest::contents_stand(f, b),
    ensures
        f.species@.len() == n,
        forall|i: int|
            0 <= i < n ==> (#[trigger] f.species@[i])@ == forest::species_name(b, table as int, i),
        f.layers@[0]@ == forest::layer_instances(b, 0, n as int),
        f.layers@[1]@ == forest::layer_instances(b, 1, n as int),
        f.layers@[2]@ == forest::layer_instances(b, 2, n as int),
        f.layers@[3]@ == forest::layer_instances(b, 3, n as int),
{
    layout::numbers_have_fixed_sizes();
    layout::halves_stand(b, 0, layout::le64(n), layout::le64(table));
    layout::reads_64(b, 0, n);
    layout::reads_64(b, 8, table);
    let names = text::texts(f.species@);
    assert(names.len() == n);
    assert forall|i: int| 0 <= i < n implies (#[trigger] f.species@[i])@ == forest::species_name(
        b,
        table as int,
        i,
    ) by {
        assert(names[i] == f.species@[i]@);
    }
}

/// The name of a species is read as it was written, without its terminator.
pub proof fn species_names_are_read_as_written(
    b: Seq<u8>,
    table: int,
    i: int,
    p: i64,
    s: Seq<u8>,
)
    requires
        s.len() < u64::MAX,
        layout::holds(
            b,
            table + 16 * i,
            layout::le64((s.len() + 1) as u64) + layout::signed64(p),
        ),
        layout::holds(b, table + 16 * i + p, s.push(0)),
    ensures
        forest::species_name(b, table, i) == text::utf8_lossy(s),
{
    let entry = table + 16 * i;
    let len = (s.len() + 1) as u64;
    layout::numbers_have_fixed_sizes();
    layout::halves_stand(b, entry, layout::le64(len), layout::signed64(p));
    layout::reads_64(b, entry, len);
    layout::reads_signed_64(b, entry + 8, p);
    let start = entry + p;
    assert forall|k: int| 0 <= k < s.len() implies b.subrange(start, start + len - 1)[k] == s[k] by {
        assert(b[start + k] == s.push(0)[k]);
    }
    assert(b.subrange(start, start + len - 1) =~= s);
}

/// A file that holds its table and its four layers is not refused.
pub proof fn complete_forests_are_read(b: Seq<u8>)
    requires
        32 <= b.len(),
        ({
            let n = bytes::u64_at(b, 0) as int;
            &&& 0 < n <= forest::MAX_SPECIES
            &&& bytes::u64_at(b, 8) + 16 * n <= b.len()
            &&& forall|l: int|
                0 <= l < 4 ==> forest::layer_offset(l) + 0x10 + 8 * n <= b.len() && (
                #[trigger] forest::layer_buffer(b, l)) + 16 * forest::layer_count(b, l) <= b.len()
        }),
    ensures
        forest::forest_fault(b) is None,
{
    let n = bytes::u64_at(b, 0) as int;
    assert forall|l: int| 0 <= l < 4 implies #[trigger] forest::layer_fault(b, l, n) is None by {
        assert(forest::layer_buffer(b, l) + 16 * forest::layer_count(b, l) <= b.len());
    }
    assert(forest::layer_fault(b, 0, n) is None);
    assert(forest::layer_fault(b, 1, n) is None);
    assert(forest::layer_fault(b, 2, n) is None);
    assert(forest::layer_fault(b, 3, n) is None);
}

} // verus!
