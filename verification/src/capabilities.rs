//! What a build of the tool can do: contracts, features and schemas, with the identity
//! of the build.
use vstd::prelude::*;

use crate::text;

verus! {

/// Schema of the description itself.
pub const SCHEMA_ID: &'static str = "wowsunpack.capabilities/v1";

/// Where the source is kept.
pub const REPOSITORY: &'static str = "https://github.com/sqz269/wows-toolkit";

/// Channel of the releases.
pub const RELEASE_CHANNEL: &'static str = "ship-pipeline";

/// Stands for what is not known of a build.
pub const UNKNOWN: &'static str = "unknown";

/// Contracts with their major versions.
pub const CONTRACTS: [(&'static str, u32); 11] = [
    ("toolkit_capabilities", 1),
    ("ship_export", 1),
    ("model_export", 1),
    ("placements_json", 1),
    ("skel_ext_candidates_json", 3),
    ("material_mappings_json", 1),
    ("armor_json", 1),
    ("ammo_json", 1),
    ("dump_bones_json", 1),
    ("raw_dds_export", 1),
    ("texture_swizzle", 1),
];

/// Optional features.
pub const FEATURES: [&'static str; 13] = [
    "export_ship.all_render_sets",
    "export_ship.accessories_mode",
    "export_ship.placements_json",
    "export_ship.skel_ext_candidates_json",
    "export_ship.material_mappings_json",
    "export_ship.raw_dds_dir",
    "export_model.skel_ext_candidates_json",
    "export_model.material_mappings_json",
    "batch_export_model.raw_dds_dir",
    "armor.json",
    "ammo.json",
    "dump_bones.json",
    "texture.swizzle_dir",
];

/// Schemas of the outputs by contract.
pub const SCHEMAS: [(&'static str, &'static str); 6] = [
    ("placements_json", "wowsunpack.placements/v1"),
    ("skel_ext_candidates_json", "wowsunpack.skel_ext_candidates/v3"),
    ("material_mappings_json", "wowsunpack.material_mappings/v1"),
    ("armor_json", "wowsunpack.armor/v1"),
    ("ammo_json", "wowsunpack.ammo/v1"),
    ("dump_bones_json", "wowsunpack.visual_bones/v1"),
];

// ---- Tables -----------------------------------------------------------------

/// A table by name. Its entries stand in the order of the names.
#[derive(Debug)]
pub struct NameTable<V> {
    pub entries: Vec<(&'static str, V)>,
}

/// The names of the entries of a table.
pub open spec fn names<V>(entries: Seq<(&'static str, V)>) -> Seq<Seq<char>> {
    Seq::new(entries.len(), |i: int| entries[i].0@)
}

/// The first entry of the given name, from `i` on.
pub open spec fn value_from<V>(
    entries: Seq<(&'static str, V)>,
    name: Seq<char>,
    i: int,
) -> Option<V>
    decreases entries.len() - i,
{
    if i < 0 || i >= entries.len() {
        None
    } else if entries[i].0@ == name {
        Some(entries[i].1)
    } else {
        value_from(entries, name, i + 1)
    }
}

/// Whether every entry of `list` can be looked up.
pub open spec fn holds_all<V>(
    entries: Seq<(&'static str, V)>,
    list: Seq<(&'static str, V)>,
    n: int,
) -> bool {
    forall|i: int|
        0 <= i < n ==> value_from(entries, (#[trigger] list[i]).0@, 0) == Some(list[i].1)
}

proof fn value_is_found<V>(entries: Seq<(&'static str, V)>, i: int, k: int)
    requires
        0 <= i <= k < entries.len(),
        forall|a: int| i <= a < k ==> (#[trigger] entries[a]).0@ != entries[k].0@,
    ensures
        value_from(entries, entries[k].0@, i) == Some(entries[k].1),
    decreases k - i,
{
    if i < k {
        value_is_found(entries, i + 1, k);
    }
}

/// In a table in order every entry is found under its name.
proof fn ordered_values_are_found<V>(entries: Seq<(&'static str, V)>, k: int)
    requires
        text::is_ascending(names(entries)),
        0 <= k < entries.len(),
    ensures
        value_from(entries, entries[k].0@, 0) == Some(entries[k].1),
{
    let n = names(entries);
    assert forall|a: int| 0 <= a < k implies (#[trigger] entries[a]).0@ != entries[k].0@ by {
        assert(text::comes_before(n[a], n[k]));
        text::order_is_irreflexive(n[k]);
    }
    value_is_found(entries, 0, k);
}

proof fn found_value_stands<V>(entries: Seq<(&'static str, V)>, name: Seq<char>, i: int)
    requires
        0 <= i,
    ensures
        value_from(entries, name, i) matches Some(v) ==> exists|k: int|
            i <= k < entries.len() && (#[trigger] entries[k]).0@ == name && entries[k].1 == v,
    decreases entries.len() - i,
{
    if i < entries.len() && entries[i].0@ != name {
        found_value_stands(entries, name, i + 1);
    }
}

impl<V: Copy> NameTable<V> {
    /// The names stand in order, each once.
    pub open spec fn well_formed(&self) -> bool {
        text::is_ascending(names(self.entries@))
    }

    /// Number of entries.
    pub fn len(&self) -> (r: usize)
        ensures
            r == self.entries@.len(),
    {
        self.entries.len()
    }

    /// Looks up an entry.
    pub fn get(&self, name: &str) -> (r: Option<&V>)
        ensures
            match r {
                Some(v) => value_from(self.entries@, name@, 0) == Some(*v),
                None => value_from(self.entries@, name@, 0) is None,
            },
    {
        let mut i: usize = 0;
        while i < self.entries.len()
            invariant
                i <= self.entries.len(),
                value_from(self.entries@, name@, i as int) == value_from(self.entries@, name@, 0),
            decreases self.entries.len() - i,
        {
            if text::same(self.entries[i].0, name) {
                return Some(&self.entries[i].1);
            }
            i += 1;
        }
        None
    }

    /// Makes a table of a list in which no name stands twice.
    fn of(list: &[(&'static str, V)]) -> (r: NameTable<V>)
        requires
            forall|i: int, j: int|
                0 <= i < j < list@.len() ==> (#[trigger] list@[i]).0@ != (#[trigger] list@[j]).0@,
        ensures
            r.well_formed(),
            r.entries@.len() == list@.len(),
            holds_all(r.entries@, list@, list@.len() as int),
    {
        let mut entries: Vec<(&'static str, V)> = Vec::new();
        let mut i: usize = 0;
        while i < list.len()
            invariant
                i <= list.len(),
                entries@.len() == i,
                text::is_ascending(names(entries@)),
                forall|a: int, b: int|
                    0 <= a < b < list@.len() ==> (#[trigger] list@[a]).0@ != (
                    #[trigger] list@[b]).0@,
                forall|a: int| 0 <= a < i ==> entries@.contains(#[trigger] list@[a]),
                forall|k: int|
                    0 <= k < entries@.len() ==> exists|a: int|
                        0 <= a < i && list@[a] == #[trigger] entries@[k],
            decreases list.len() - i,
        {
            let item: (&'static str, V) = list[i];
            let mut at: usize = entries.len();
            let ghost n = names(entries@);
            while at > 0 && text::is_before(item.0, entries[at - 1].0)
                invariant
                    at <= entries@.len(),
                    n == names(entries@),
                    forall|k: int|
                        at <= k < entries@.len() ==> text::comes_before(item.0@, #[trigger] n[k]),
                decreases at,
            {
                at -= 1;
                assert(n[at as int] == entries@[at as int].0@);
            }
            let ghost before = entries@;
            entries.insert(at, item);
            proof {
                let m = names(entries@);
                assert(entries@ =~= before.insert(at as int, item));
                assert forall|a: int, b: int| 0 <= a < b < m.len() implies text::comes_before(
                    #[trigger] m[a],
                    #[trigger] m[b],
                ) by {
                    let x = if a < at {
                        a
                    } else {
                        a - 1
                    };
                    let y = if b < at {
                        b
                    } else {
                        b - 1
                    };
                    if a == at {
                        assert(m[b] == n[y]);
                    } else if b == at {
                        assert(m[a] == n[a]);
                        assert(before[at - 1] == entries@[at - 1]);
                        let c = choose|c: int| 0 <= c < i && list@[c] == before[at - 1];
                        assert(list@[c].0@ != list@[i as int].0@);
                        text::order_is_total(n[at - 1], item.0@);
                        if a < at - 1 {
                            assert(text::comes_before(n[a], n[at - 1]));
                            text::order_is_transitive(n[a], n[at - 1], item.0@);
                        }
                    } else {
                        assert(m[a] == n[x] && m[b] == n[y]);
                    }
                }
                assert forall|a: int| 0 <= a < i + 1 implies entries@.contains(
                    #[trigger] list@[a],
                ) by {
                    if a == i {
                        assert(entries@[at as int] == item);
                    } else {
                        let k = choose|k: int| 0 <= k < before.len() && before[k] == list@[a];
                        if k < at {
                            assert(entries@[k] == list@[a]);
                        } else {
                            assert(entries@[k + 1] == list@[a]);
                        }
                    }
                }
                assert forall|k: int| 0 <= k < entries@.len() implies exists|a: int|
                    0 <= a < i + 1 && list@[a] == #[trigger] entries@[k] by {
                    if k == at {
                        assert(list@[i as int] == entries@[k]);
                    } else {
                        let y = if k < at {
                            k
                        } else {
                            k - 1
                        };
                        assert(before[y] == entries@[k]);
                        let a = choose|a: int| 0 <= a < i && list@[a] == before[y];
                        assert(list@[a] == entries@[k]);
                    }
                }
            }
            i += 1;
        }
        proof {
            assert forall|a: int| 0 <= a < list@.len() implies value_from(
                entries@,
                (#[trigger] list@[a]).0@,
                0,
            ) == Some(list@[a].1) by {
                let k = choose|k: int| 0 <= k < entries@.len() && entries@[k] == list@[a];
                ordered_values_are_found(entries@, k);
            }
        }
        NameTable { entries }
    }
}

// ---- Description ------------------------------------------------------------

/// Identity of a build.
#[derive(Debug)]
pub struct ToolInfo {
    pub name: &'static str,
    pub package_version: &'static str,
    pub release_channel: &'static str,
    pub release_tag: &'static str,
    pub git_commit: &'static str,
    pub git_dirty: bool,
    pub repository: &'static str,
    pub target: &'static str,
    pub build_profile: &'static str,
}

/// What a build can do.
#[derive(Debug)]
pub struct Capabilities {
    pub schema: &'static str,
    pub tool: ToolInfo,
    pub contracts: NameTable<u32>,
    pub features: Vec<&'static str>,
    pub schemas: NameTable<&'static str>,
}

/// What was recorded when a build was made.
#[derive(Debug, Clone, Copy)]
pub struct BuildInfo {
    pub package_version: &'static str,
    pub release_tag: &'static str,
    pub git_commit: &'static str,
    pub git_dirty: &'static str,
    pub target: &'static str,
    pub build_profile: &'static str,
}

/// The lower-case form of an ASCII letter; other characters stay as they are.
pub open spec fn ascii_lower(c: char) -> char {
    if 'A' <= c <= 'Z' {
        (c as u32 + 32) as char
    } else {
        c
    }
}

/// Whether two texts are the same but for the case of ASCII letters.
pub open spec fn same_ignoring_case(a: Seq<char>, b: Seq<char>) -> bool {
    a.len() == b.len() && forall|i: int|
        0 <= i < a.len() ==> ascii_lower(#[trigger] a[i]) == ascii_lower(b[i])
}

fn lower(c: char) -> (r: char)
    ensures
        r == ascii_lower(c),
{
    if 'A' <= c && c <= 'Z' {
        (c as u8 + 32) as char
    } else {
        c
    }
}

/// Reads whether the source was changed: only `true`, in any case, says so.
pub fn parse_git_dirty(raw: &str) -> (r: bool)
    ensures
        r == same_ignoring_case(raw@, "true"@),
{
    let a = text::chars_of(raw);
    let b = text::chars_of("true");
    if a.len() != b.len() {
        return false;
    }
    let mut i: usize = 0;
    while i < a.len()
        invariant
            i <= a.len(),
            a.len() == b.len(),
            a@ == raw@,
            b@ == "true"@,
            forall|k: int| 0 <= k < i ==> ascii_lower(#[trigger] a@[k]) == ascii_lower(b@[k]),
        decreases a.len() - i,
    {
        if lower(a[i]) != lower(b[i]) {
            assert(ascii_lower(raw@[i as int]) != ascii_lower("true"@[i as int]));
            return false;
        }
        i += 1;
    }
    true
}

proof fn contract_names_are_distinct()
    ensures
        forall|i: int, j: int|
            0 <= i < j < CONTRACTS@.len() ==> (#[trigger] CONTRACTS@[i]).0@ != (
            #[trigger] CONTRACTS@[j]).0@,
{
    reveal_strlit("toolkit_capabilities");
    reveal_strlit("ship_export");
    reveal_strlit("model_export");
    reveal_strlit("placements_json");
    reveal_strlit("skel_ext_candidates_json");
    reveal_strlit("material_mappings_json");
    reveal_strlit("armor_json");
    reveal_strlit("ammo_json");
    reveal_strlit("dump_bones_json");
    reveal_strlit("raw_dds_export");
    reveal_strlit("texture_swizzle");
    assert(CONTRACTS@[0].0@.len() == 20 && CONTRACTS@[0].0@[0] == 't');
    assert(CONTRACTS@[1].0@.len() == 11 && CONTRACTS@[1].0@[0] == 's');
    assert(CONTRACTS@[2].0@.len() == 12 && CONTRACTS@[2].0@[0] == 'm');
    assert(CONTRACTS@[3].0@.len() == 15 && CONTRACTS@[3].0@[0] == 'p');
    assert(CONTRACTS@[4].0@.len() == 24 && CONTRACTS@[4].0@[0] == 's');
    assert(CONTRACTS@[5].0@.len() == 22 && CONTRACTS@[5].0@[0] == 'm');
    assert(CONTRACTS@[6].0@.len() == 10 && CONTRACTS@[6].0@[0] == 'a');
    assert(CONTRACTS@[7].0@.len() == 9 && CONTRACTS@[7].0@[0] == 'a');
    assert(CONTRACTS@[8].0@.len() == 15 && CONTRACTS@[8].0@[0] == 'd');
    assert(CONTRACTS@[9].0@.len() == 14 && CONTRACTS@[9].0@[0] == 'r');
    assert(CONTRACTS@[10].0@.len() == 15 && CONTRACTS@[10].0@[0] == 't');
}

proof fn schema_names_are_distinct()
    ensures
        forall|i: int, j: int|
            0 <= i < j < SCHEMAS@.len() ==> (#[trigger] SCHEMAS@[i]).0@ != (
            #[trigger] SCHEMAS@[j]).0@,
{
    reveal_strlit("placements_json");
    reveal_strlit("skel_ext_candidates_json");
    reveal_strlit("material_mappings_json");
    reveal_strlit("armor_json");
    reveal_strlit("ammo_json");
    reveal_strlit("dump_bones_json");
    assert(SCHEMAS@[0].0@.len() == 15 && SCHEMAS@[0].0@[0] == 'p');
    assert(SCHEMAS@[1].0@.len() == 24 && SCHEMAS@[1].0@[0] == 's');
    assert(SCHEMAS@[2].0@.len() == 22 && SCHEMAS@[2].0@[0] == 'm');
    assert(SCHEMAS@[3].0@.len() == 10 && SCHEMAS@[3].0@[0] == 'a');
    assert(SCHEMAS@[4].0@.len() == 9 && SCHEMAS@[4].0@[0] == 'a');
    assert(SCHEMAS@[5].0@.len() == 15 && SCHEMAS@[5].0@[0] == 'd');
}

/// Describes a build, given what was recorded when it was compiled.
pub fn build(info: BuildInfo) -> (r: Capabilities)
    ensures
        r.schema@ == SCHEMA_ID@,
        r.tool.name@ == "wowsunpack"@,
        r.tool.package_version == info.package_version,
        r.tool.release_channel@ == RELEASE_CHANNEL@,
        r.tool.release_tag == info.release_tag,
        r.tool.git_commit == info.git_commit,
        r.tool.git_dirty == same_ignoring_case(info.git_dirty@, "true"@),
        r.tool.repository@ == REPOSITORY@,
        r.tool.target == info.target,
        r.tool.build_profile == info.build_profile,
        r.contracts.well_formed(),
        r.contracts.entries@.len() == CONTRACTS@.len(),
        holds_all(r.contracts.entries@, CONTRACTS@, CONTRACTS@.len() as int),
        r.features@ == FEATURES@,
        r.schemas.well_formed(),
        r.schemas.entries@.len() == SCHEMAS@.len(),
        holds_all(r.schemas.entries@, SCHEMAS@, SCHEMAS@.len() as int),
{
    proof {
        contract_names_are_distinct();
        schema_names_are_distinct();
    }
    let mut features: Vec<&'static str> = Vec::new();
    let mut i: usize = 0;
    let all: [&'static str; 13] = FEATURES;
    while i < 13
        invariant
            i <= 13,
            all@ == FEATURES@,
            features@ == all@.take(i as int),
        decreases 13 - i,
    {
        features.push(all[i]);
        i += 1;
        assert(features@ =~= all@.take(i as int));
    }
    assert(all@.take(13) =~= all@);
    Capabilities {
        schema: SCHEMA_ID,
        tool: ToolInfo {
            name: "wowsunpack",
            package_version: info.package_version,
            release_channel: RELEASE_CHANNEL,
            release_tag: info.release_tag,
            git_commit: info.git_commit,
            git_dirty: parse_git_dirty(info.git_dirty),
            repository: REPOSITORY,
            target: info.target,
            build_profile: info.build_profile,
        },
        contracts: NameTable::of(&CONTRACTS),
        features,
        schemas: NameTable::of(&SCHEMAS),
    }
}

/// Whether a list names nothing twice.
pub open spec fn has_distinct_names<V>(list: Seq<(&'static str, V)>) -> bool {
    forall|i: int, j: int|
        0 <= i < j < list.len() ==> (#[trigger] list[i]).0@ != (#[trigger] list[j]).0@
}

/// The table of a list is determined: any two tables in order that hold as many entries
/// as the list, and all of its entries, have the same names and values in the same
/// places. So two descriptions of one build are written alike.
pub proof fn tables_are_determined<V>(
    list: Seq<(&'static str, V)>,
    a: NameTable<V>,
    b: NameTable<V>,
)
    requires
        has_distinct_names(list),
        text::is_ascending(names(a.entries@)),
        text::is_ascending(names(b.entries@)),
        a.entries@.len() == list.len(),
        b.entries@.len() == list.len(),
        holds_all(a.entries@, list, list.len() as int),
        holds_all(b.entries@, list, list.len() as int),
    ensures
        forall|i: int|
            0 <= i < list.len() ==> (#[trigger] a.entries@[i]).0@ == b.entries@[i].0@
                && a.entries@[i].1 == b.entries@[i].1,
{
    table_names_are_those_of_the_list(list, a.entries@);
    table_names_are_those_of_the_list(list, b.entries@);
    ascending_lists_are_equal(names(a.entries@), names(b.entries@));
    assert forall|i: int| 0 <= i < list.len() implies (#[trigger] a.entries@[i]).0@
        == b.entries@[i].0@ && a.entries@[i].1 == b.entries@[i].1 by {
        let n = names(a.entries@);
        assert(n[i] == names(b.entries@)[i]);
        assert(n.to_set().contains(n[i]));
        assert(names(list).contains(n[i]));
        let k = choose|k: int| 0 <= k < list.len() && names(list)[k] == n[i];
        assert(list[k].0@ == n[i]);
        ordered_values_are_found(a.entries@, i);
        ordered_values_are_found(b.entries@, i);
    }
}

proof fn table_names_are_those_of_the_list<V>(
    list: Seq<(&'static str, V)>,
    entries: Seq<(&'static str, V)>,
)
    requires
        has_distinct_names(list),
        text::is_ascending(names(entries)),
        entries.len() == list.len(),
        holds_all(entries, list, list.len() as int),
    ensures
        names(list).to_set() == names(entries).to_set(),
{
    let x = names(list);
    let y = names(entries);
    assert(x.no_duplicates()) by {
        assert forall|i: int, j: int| 0 <= i < x.len() && 0 <= j < x.len() && i != j implies x[i]
            != x[j] by {
            if i < j {
                assert(list[i].0@ != list[j].0@);
            } else {
                assert(list[j].0@ != list[i].0@);
            }
        }
    }
    assert(y.no_duplicates()) by {
        assert forall|i: int, j: int| 0 <= i < y.len() && 0 <= j < y.len() && i != j implies y[i]
            != y[j] by {
            if i < j {
                assert(text::comes_before(y[i], y[j]));
            } else {
                assert(text::comes_before(y[j], y[i]));
            }
            text::order_is_irreflexive(y[i]);
        }
    }
    x.unique_seq_to_set();
    y.unique_seq_to_set();
    assert(x.to_set().subset_of(y.to_set())) by {
        assert forall|s: Seq<char>| x.to_set().contains(s) implies y.to_set().contains(s) by {
            let k = choose|k: int| 0 <= k < x.len() && x[k] == s;
            assert(list[k].0@ == s);
            found_value_stands(entries, s, 0);
            let l = choose|l: int|
                0 <= l < entries.len() && (#[trigger] entries[l]).0@ == s && entries[l].1
                    == list[k].1;
            assert(y[l] == s);
        }
    }
    vstd::set_lib::lemma_subset_equality(x.to_set(), y.to_set());
}

proof fn ascending_lists_are_equal(x: Seq<Seq<char>>, y: Seq<Seq<char>>)
    requires
        text::is_ascending(x),
        text::is_ascending(y),
        x.to_set() == y.to_set(),
    ensures
        x == y,
    decreases x.len(),
{
    if x.len() == 0 {
        if y.len() > 0 {
            assert(y.to_set().contains(y[0]));
            assert(x.contains(y[0]));
        }
        assert(x =~= y);
    } else {
        assert(x.to_set().contains(x.last()));
        assert(y.contains(x.last()));
        let i = choose|i: int| 0 <= i < y.len() && y[i] == x.last();
        assert(y.to_set().contains(y.last()));
        assert(x.contains(y.last()));
        let j = choose|j: int| 0 <= j < x.len() && x[j] == y.last();
        if x.last() != y.last() {
            assert(text::comes_before(y[i], y[y.len() - 1]));
            assert(text::comes_before(x[j], x[x.len() - 1]));
            text::order_is_transitive(x.last(), y.last(), x.last());
            text::order_is_irreflexive(x.last());
        }
        let p = x.drop_last();
        let q = y.drop_last();
        assert forall|s: Seq<char>| p.to_set().contains(s) == q.to_set().contains(s) by {
            if p.contains(s) {
                let k = choose|k: int| 0 <= k < p.len() && p[k] == s;
                assert(x[k] == s);
                assert(x.to_set().contains(s));
                let l = choose|l: int| 0 <= l < y.len() && y[l] == s;
                assert(text::comes_before(x[k], x[x.len() - 1]));
                text::order_is_irreflexive(s);
                assert(q[l] == s);
            }
            if q.contains(s) {
                let k = choose|k: int| 0 <= k < q.len() && q[k] == s;
                assert(y[k] == s);
                assert(y.to_set().contains(s));
                let l = choose|l: int| 0 <= l < x.len() && x[l] == s;
                assert(text::comes_before(y[k], y[y.len() - 1]));
                text::order_is_irreflexive(s);
                assert(p[l] == s);
            }
        }
        assert(p.to_set() =~= q.to_set());
        ascending_lists_are_equal(p, q);
        assert(x =~= p.push(x.last()));
        assert(y =~= q.push(y.last()));
    }
}

} // verus!
