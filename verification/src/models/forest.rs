//! Reader for vegetation placements (`forest.bin`).
//!
//! ```text
//! 0x00  u64 species count
//! 0x08  u64 offset of the string table
//! 0x10  four layers of 0x90 bytes each:
//!   +0x00  i64 instance buffer, relative to the layer
//!   +0x08  u32 instance count
//!   +0x10  per species: u32 start, u32 count
//! string table, per species:
//!   +0x00  u64 length of the name with its terminator
//!   +0x08  i64 name, relative to the entry
//! instance: x, y, z, w
//! ```
//!
//! Coordinates are single-precision bit patterns (see [`crate::single`]).
use vstd::prelude::*;

use crate::bytes;
use crate::text;

verus! {

/// Offset of the first layer.
pub const LAYER_BASE: usize = 0x10;

/// Bytes per layer.
pub const LAYER_STRIDE: usize = 0x90;

/// Offset of the species ranges inside a layer.
pub const CELL_OFFSET_IN_LAYER: usize = 0x10;

/// More species than this are taken for a broken file.
pub const MAX_SPECIES: u64 = 1000;

/// Layer names in file order.
pub const LAYER_NAMES: [&'static str; 4] = [
    "Primary",
    "PrimaryRare",
    "Underwater",
    "UnderwaterRare",
];

/// Why a vegetation file was refused.
#[derive(Debug)]
pub enum ForestError {
    /// The file ends before a fixed part does.
    DataTooShort { offset: u64, need: u64, have: u64 },
    /// The contents make no sense.
    ParseError(String),
}

/// An error with its message as a character sequence.
pub enum ForestFault {
    DataTooShort { offset: int, need: int, have: int },
    ParseError(Seq<char>),
}

impl View for ForestError {
    type V = ForestFault;

    open spec fn view(&self) -> ForestFault {
        match self {
            ForestError::DataTooShort { offset, need, have } => ForestFault::DataTooShort {
                offset: *offset as int,
                need: *need as int,
                have: *have as int,
            },
            ForestError::ParseError(message) => ForestFault::ParseError(message@),
        }
    }
}

/// The message of an error.
pub open spec fn fault_message(f: ForestFault) -> Seq<char> {
    match f {
        ForestFault::DataTooShort { offset, need, have } => "data too short: need "@
            + text::decimal(need) + " bytes at offset 0x"@ + text::hex(offset) + ", have "@
            + text::decimal(have),
        ForestFault::ParseError(m) => "parse error: "@ + m,
    }
}

impl ForestError {
    /// The message of an error.
    pub fn message(&self) -> (r: String)
        ensures
            r@ == fault_message(self@),
    {
        match self {
            ForestError::DataTooShort { offset, need, have } => {
                let mut out = text::concat("data too short: need ", text::to_decimal(*need).as_str());
                out.append(" bytes at offset 0x");
                out.append(text::to_hex(*offset).as_str());
                out.append(", have ");
                out.append(text::to_decimal(*have).as_str());
                out
            },
            ForestError::ParseError(m) => text::concat("parse error: ", m.as_str()),
        }
    }
}

/// One plant.
#[derive(Debug, Clone, Copy, PartialEq, Eq, Structural)]
pub struct ForestInstance {
    pub species_index: usize,
    pub x: u32,
    pub y: u32,
    pub z: u32,
}

/// A vegetation file: the species names and the plants of the four layers.
#[derive(Debug)]
pub struct Forest {
    pub species: Vec<String>,
    pub layers: [Vec<ForestInstance>; 4],
}

pub open spec fn layer_offset(layer: int) -> int {
    LAYER_BASE + LAYER_STRIDE * layer
}

/// Where the instances of a layer start, as a 64-bit offset that wraps around.
pub open spec fn layer_buffer(b: Seq<u8>, layer: int) -> int {
    (layer_offset(layer) + bytes::i64_at(b, layer_offset(layer))) % 0x1_0000_0000_0000_0000
}

pub open spec fn layer_count(b: Seq<u8>, layer: int) -> int {
    bytes::u32_at(b, layer_offset(layer) + 8) as int
}

/// Start and count of a species in a layer.
pub open spec fn species_range(b: Seq<u8>, layer: int, i: int) -> (usize, usize) {
    (
        bytes::u32_at(b, layer_offset(layer) + 0x10 + 8 * i) as usize,
        bytes::u32_at(b, layer_offset(layer) + 0x10 + 8 * i + 4) as usize,
    )
}

pub open spec fn out_of_bounds_message(b: Seq<u8>, layer: int) -> Seq<char> {
    "Primary layer buffer out of bounds: abs=0x"@ + text::hex(layer_buffer(b, layer))
        + " count="@ + text::decimal(layer_count(b, layer)) + " file_len="@ + text::decimal(
        b.len() as int,
    )
}

/// What is wrong with a layer, if anything.
pub open spec fn layer_fault(b: Seq<u8>, layer: int, species: int) -> Option<ForestFault> {
    let need = layer_offset(layer) + 0x10 + 8 * species;
    if b.len() < need {
        Some(
            ForestFault::DataTooShort {
                offset: layer_offset(layer),
                need,
                have: b.len() as int,
            },
        )
    } else if layer_count(b, layer) > 0 && layer_buffer(b, layer) + 16 * layer_count(b, layer)
        > b.len() {
        Some(ForestFault::ParseError(out_of_bounds_message(b, layer)))
    } else {
        None
    }
}

/// Reads one layer: where its instances start, how many there are, and the range
/// of each species among them.
#[verifier::spinoff_prover]
#[verifier::rlimit(40)]
pub fn read_layer(data: &[u8], layer_idx: usize, num_species: usize) -> (r: Result<
    (u64, usize, Vec<(usize, usize)>),
    ForestError,
>)
    requires
        layer_offset(layer_idx as int) + 0x10 + 8 * num_species <= usize::MAX,
    ensures
        match r {
            Err(e) => layer_fault(data@, layer_idx as int, num_species as int) == Some(e@),
            Ok((start, count, ranges)) => {
                &&& layer_fault(data@, layer_idx as int, num_species as int) is None
                &&& start == layer_buffer(data@, layer_idx as int)
                &&& count == layer_count(data@, layer_idx as int)
                &&& ranges@ == Seq::new(
                    num_species as nat,
                    |i: int| species_range(data@, layer_idx as int, i),
                )
            },
        },
{
    let layer_off: usize = LAYER_BASE + layer_idx * LAYER_STRIDE;
    let cell_off: usize = layer_off + CELL_OFFSET_IN_LAYER;
    let need: usize = cell_off + num_species * 8;
    if data.len() < need {
        return Err(
            ForestError::DataTooShort {
                offset: layer_off as u64,
                need: need as u64,
                have: data.len() as u64,
            },
        );
    }
    let sum: i128 = layer_off as i128 + bytes::get_i64(data, layer_off) as i128;
    let start: u64 = if sum < 0 {
        (sum + 0x1_0000_0000_0000_0000) as u64
    } else if sum > 0xFFFF_FFFF_FFFF_FFFF {
        (sum - 0x1_0000_0000_0000_0000) as u64
    } else {
        sum as u64
    };
    assert(start == layer_buffer(data@, layer_idx as int)) by {
        let turns: int = if sum < 0 {
            -1
        } else if sum > 0xFFFF_FFFF_FFFF_FFFF {
            1
        } else {
            0
        };
        vstd::arithmetic::div_mod::lemma_fundamental_div_mod_converse(
            sum as int,
            0x1_0000_0000_0000_0000,
            turns,
            start as int,
        );
    }
    let count: u32 = bytes::get_u32(data, layer_off + 8);
    if count > 0 && start as u128 + count as u128 * 16 > data.len() as u128 {
        let mut message = text::copy("Primary layer buffer out of bounds: abs=0x");
        message.append(text::to_hex(start).as_str());
        message.append(" count=");
        message.append(text::to_decimal(count as u64).as_str());
        message.append(" file_len=");
        message.append(text::to_decimal(data.len() as u64).as_str());
        return Err(ForestError::ParseError(message));
    }
    let mut ranges: Vec<(usize, usize)> = Vec::new();
    let mut i: usize = 0;
    while i < num_species
        invariant
            i <= num_species,
            cell_off == layer_offset(layer_idx as int) + 0x10,
            cell_off + 8 * num_species <= data.len(),
            ranges@.len() == i,
            forall|k: int|
                0 <= k < i ==> #[trigger] ranges@[k] == species_range(data@, layer_idx as int, k),
        decreases num_species - i,
    {
        let o: usize = cell_off + i * 8;
        ranges.push((bytes::get_u32(data, o) as usize, bytes::get_u32(data, o + 4) as usize));
        i += 1;
    }
    assert(ranges@ =~= Seq::new(
        num_species as nat,
        |i: int| species_range(data@, layer_idx as int, i),
    ));
    Ok((start, count as usize, ranges))
}

/// The instance number `k` of a layer, as a plant of some species.
pub open spec fn instance_at(b: Seq<u8>, start: int, k: int, species: int) -> ForestInstance {
    ForestInstance {
        species_index: species as usize,
        x: bytes::u32_at(b, start + 16 * k),
        y: bytes::u32_at(b, start + 16 * k + 4),
        z: bytes::u32_at(b, start + 16 * k + 8),
    }
}

/// The plants of one species in a layer: those of its range, and none if the
/// range reaches past the instances of the layer.
pub open spec fn species_instances(b: Seq<u8>, layer: int, species: int) -> Seq<ForestInstance> {
    let (first, count) = species_range(b, layer, species);
    if first + count > layer_count(b, layer) {
        Seq::empty()
    } else {
        Seq::new(
            count as nat,
            |k: int| instance_at(b, layer_buffer(b, layer), first + k, species),
        )
    }
}

/// The plants of the first `n` species in a layer, species by species.
pub open spec fn layer_instances(b: Seq<u8>, layer: int, n: int) -> Seq<ForestInstance>
    decreases n,
{
    if n <= 0 || layer_count(b, layer) == 0 {
        Seq::empty()
    } else {
        layer_instances(b, layer, n - 1) + species_instances(b, layer, n - 1)
    }
}

/// Reads the plants of one layer.
pub fn parse_layer_instances(file_data: &[u8], layer_idx: usize, num_species: usize) -> (r: Result<
    Vec<ForestInstance>,
    ForestError,
>)
    requires
        layer_offset(layer_idx as int) + 0x10 + 8 * num_species <= usize::MAX,
    ensures
        match r {
            Err(e) => layer_fault(file_data@, layer_idx as int, num_species as int) == Some(e@),
            Ok(out) => {
                &&& layer_fault(file_data@, layer_idx as int, num_species as int) is None
                &&& out@ == layer_instances(file_data@, layer_idx as int, num_species as int)
            },
        },
{
    let (start, total, ranges) = match read_layer(file_data, layer_idx, num_species) {
        Ok(layer) => layer,
        Err(e) => {
            return Err(e);
        },
    };
    let mut out: Vec<ForestInstance> = Vec::new();
    if total == 0 {
        return Ok(out);
    }
    let ghost b = file_data@;
    let ghost layer = layer_idx as int;
    assert(start <= file_data.len());
    let at: usize = start as usize;
    let mut s: usize = 0;
    while s < num_species
        invariant
            s <= num_species,
            b == file_data@,
            layer == layer_idx,
            ranges@ == Seq::new(num_species as nat, |i: int| species_range(b, layer, i)),
            total == layer_count(b, layer),
            total > 0,
            at == layer_buffer(b, layer),
            at + 16 * total <= file_data.len(),
            out@ == layer_instances(b, layer, s as int),
        decreases num_species - s,
    {
        let (first, count): (usize, usize) = ranges[s];
        assert((first, count) == species_range(b, layer, s as int));
        let ghost before = out@;
        if first <= total && count <= total - first {
            let mut k: usize = 0;
            while k < count
                invariant
                    k <= count,
                    first + count <= total,
                    s < num_species,
                    b == file_data@,
                    at == layer_buffer(b, layer),
                    at + 16 * total <= file_data.len(),
                    out@ == before + Seq::new(
                        k as nat,
                        |k: int| instance_at(b, layer_buffer(b, layer), first + k, s as int),
                    ),
                decreases count - k,
            {
                let o: usize = at + 16 * (first + k);
                out.push(
                    ForestInstance {
                        species_index: s,
                        x: bytes::get_u32(file_data, o),
                        y: bytes::get_u32(file_data, o + 4),
                        z: bytes::get_u32(file_data, o + 8),
                    },
                );
                k += 1;
                assert(out@ =~= before + Seq::new(
                    k as nat,
                    |k: int| instance_at(b, layer_buffer(b, layer), first + k, s as int),
                ));
            }
            assert(out@ =~= before + species_instances(b, layer, s as int));
        } else {
            assert(out@ =~= before + species_instances(b, layer, s as int));
        }
        s += 1;
    }
    Ok(out)
}

/// The name of a species. One without a name inside the file gets its number.
pub open spec fn species_name(b: Seq<u8>, table: int, i: int) -> Seq<char> {
    let entry = table + 16 * i;
    let len = bytes::u64_at(b, entry);
    let start = entry + bytes::i64_at(b, entry + 8);
    if len == 0 || start < 0 || start + len > b.len() {
        "species_"@ + text::decimal(i)
    } else {
        text::utf8_lossy(b.subrange(start, start + len - 1))
    }
}

fn read_species_name(b: &[u8], table: usize, i: usize) -> (r: String)
    requires
        table + 16 * i + 16 <= b.len(),
    ensures
        r@ == species_name(b@, table as int, i as int),
{
    let entry: usize = table + 16 * i;
    let len: u64 = bytes::get_u64(b, entry);
    let start: i128 = entry as i128 + bytes::get_i64(b, entry + 8) as i128;
    if len == 0 || start < 0 || start + len as i128 > b.len() as i128 {
        text::concat("species_", text::to_decimal(i as u64).as_str())
    } else {
        let from: usize = start as usize;
        let to: usize = from + (len as usize - 1);
        text::from_utf8_lossy(vstd::slice::slice_subrange(b, from, to))
    }
}

/// What is wrong with a file, if anything. Layers are looked at in file order.
pub open spec fn forest_fault(b: Seq<u8>) -> Option<ForestFault> {
    let n = bytes::u64_at(b, 0) as int;
    let table = bytes::u64_at(b, 8) as int;
    if b.len() < 32 {
        Some(ForestFault::DataTooShort { offset: 0, need: 32, have: b.len() as int })
    } else if n == 0 {
        None
    } else if n > MAX_SPECIES {
        Some(ForestFault::ParseError("unreasonable species count: "@ + text::decimal(n)))
    } else if table + 16 * n > b.len() {
        Some(
            ForestFault::DataTooShort {
                offset: table,
                need: 16 * n,
                have: if table > b.len() {
                    0
                } else {
                    b.len() - table
                },
            },
        )
    } else if layer_fault(b, 0, n) is Some {
        layer_fault(b, 0, n)
    } else if layer_fault(b, 1, n) is Some {
        layer_fault(b, 1, n)
    } else if layer_fault(b, 2, n) is Some {
        layer_fault(b, 2, n)
    } else {
        layer_fault(b, 3, n)
    }
}

/// Whether these are the species and plants of a file.
pub open spec fn contents_stand(f: Forest, b: Seq<u8>) -> bool {
    let n = bytes::u64_at(b, 0);
    let table = bytes::u64_at(b, 8) as int;
    &&& text::texts(f.species@) == Seq::new(n as nat, |i: int| species_name(b, table, i))
    &&& forall|l: int|
        0 <= l < 4 ==> (#[trigger] f.layers@[l])@ == layer_instances(b, l, n as int)
}

/// Reads a vegetation file: the species table and all four layers.
pub fn parse_forest(file_data: &[u8]) -> (r: Result<Forest, ForestError>)
    ensures
        match r {
            Err(e) => forest_fault(file_data@) == Some(e@),
            Ok(f) => {
                &&& forest_fault(file_data@) is None
                &&& contents_stand(f, file_data@)
            },
        },
{
    let have: usize = file_data.len();
    if have < 32 {
        return Err(ForestError::DataTooShort { offset: 0, need: 32, have: have as u64 });
    }
    let n: u64 = bytes::get_u64(file_data, 0);
    let table: u64 = bytes::get_u64(file_data, 8);
    let mut species: Vec<String> = Vec::new();
    if n == 0 {
        let layers: [Vec<ForestInstance>; 4] = [Vec::new(), Vec::new(), Vec::new(), Vec::new()];
        assert(text::texts(species@) =~= Seq::new(0, |i: int| species_name(file_data@, table as int, i)));
        assert forall|l: int| 0 <= l < 4 implies (#[trigger] layers@[l])@ == layer_instances(
            file_data@,
            l,
            0,
        ) by {
            assert(layers@[l]@ =~= Seq::empty());
        }
        return Ok(Forest { species, layers });
    }
    if n > MAX_SPECIES {
        return Err(
            ForestError::ParseError(
                text::concat("unreasonable species count: ", text::to_decimal(n).as_str()),
            ),
        );
    }
    if table as u128 + 16 * n as u128 > have as u128 {
        return Err(
            ForestError::DataTooShort {
                offset: table,
                need: 16 * n,
                have: (have as u64).saturating_sub(table),
            },
        );
    }
    let count: usize = n as usize;
    let at: usize = table as usize;
    let mut i: usize = 0;
    while i < count
        invariant
            i <= count,
            at + 16 * count <= file_data.len(),
            species@.len() == i,
            forall|k: int|
                0 <= k < i ==> (#[trigger] species@[k])@ == species_name(file_data@, at as int, k),
        decreases count - i,
    {
        species.push(read_species_name(file_data, at, i));
        i += 1;
    }
    assert(text::texts(species@) =~= Seq::new(
        n as nat,
        |i: int| species_name(file_data@, table as int, i),
    ));
    let primary = match parse_layer_instances(file_data, 0, count) {
        Ok(layer) => layer,
        Err(e) => {
            return Err(e);
        },
    };
    let primary_rare = match parse_layer_instances(file_data, 1, count) {
        Ok(layer) => layer,
        Err(e) => {
            return Err(e);
        },
    };
    let underwater = match parse_layer_instances(file_data, 2, count) {
        Ok(layer) => layer,
        Err(e) => {
            return Err(e);
        },
    };
    let underwater_rare = match parse_layer_instances(file_data, 3, count) {
        Ok(layer) => layer,
        Err(e) => {
            return Err(e);
        },
    };
    Ok(Forest { species, layers: [primary, primary_rare, underwater, underwater_rare] })
}

/// Every plant of a layer names one of the species.
pub proof fn plants_name_a_species(b: Seq<u8>, layer: int, n: int)
    requires
        0 <= n <= usize::MAX,
    ensures
        forall|k: int|
            0 <= k < layer_instances(b, layer, n).len() ==> (#[trigger] layer_instances(
                b,
                layer,
                n,
            )[k]).species_index < n,
    decreases n,
{
    if n > 0 && layer_count(b, layer) != 0 {
        plants_name_a_species(b, layer, n - 1);
        let head = layer_instances(b, layer, n - 1);
        assert forall|k: int| 0 <= k < layer_instances(b, layer, n).len() implies (
        #[trigger] layer_instances(b, layer, n)[k]).species_index < n by {
            if k < head.len() {
                assert(layer_instances(b, layer, n)[k] == head[k]);
            }
        }
    }
}

/// Plants stand in species order.
pub proof fn plants_stand_in_species_order(b: Seq<u8>, layer: int, n: int)
    requires
        0 <= n <= usize::MAX,
    ensures
        forall|j: int, k: int|
            0 <= j <= k < layer_instances(b, layer, n).len() ==> (#[trigger] layer_instances(
                b,
                layer,
                n,
            )[j]).species_index <= (#[trigger] layer_instances(b, layer, n)[k]).species_index,
    decreases n,
{
    if n > 0 && layer_count(b, layer) != 0 {
        plants_stand_in_species_order(b, layer, n - 1);
        plants_name_a_species(b, layer, n - 1);
        let head = layer_instances(b, layer, n - 1);
        let all = layer_instances(b, layer, n);
        assert forall|j: int, k: int| 0 <= j <= k < all.len() implies (#[trigger] all[j]).species_index
            <= (#[trigger] all[k]).species_index by {
            if j < head.len() {
                assert(all[j] == head[j]);
            }
            if k < head.len() {
                assert(all[k] == head[k]);
            }
        }
    }
}


} // verus!
