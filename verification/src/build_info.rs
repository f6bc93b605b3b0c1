//! What is recorded when the tool is built.
use vstd::prelude::*;

use crate::text;

verus! {

/// A text without white space around it, unless nothing is left.
pub open spec fn meaningful(s: Option<Seq<char>>) -> Option<Seq<char>> {
    match s {
        Some(t) => if text::trimmed(t).len() > 0 {
            Some(text::trimmed(t))
        } else {
            None
        },
        None => None,
    }
}

/// A recorded value: the override, else what the command wrote, else the fallback.
pub open spec fn recorded(
    override_value: Option<Seq<char>>,
    command_output: Option<Seq<char>>,
    fallback: Seq<char>,
) -> Seq<char> {
    match meaningful(override_value) {
        Some(v) => v,
        None => match meaningful(command_output) {
            Some(v) => v,
            None => fallback,
        },
    }
}

fn trim_meaningful(s: &Option<String>) -> (r: Option<String>)
    ensures
        text::opt_text(r) == meaningful(text::opt_text(*s)),
{
    match s {
        Some(t) => {
            let v = text::trim(t.as_str());
            if v.as_str().is_empty() {
                None
            } else {
                Some(v)
            }
        },
        None => None,
    }
}

/// Chooses a recorded value. Empty overrides and outputs count as missing.
pub fn resolve_meta(
    override_value: &Option<String>,
    command_output: &Option<String>,
    fallback: &str,
) -> (r: String)
    ensures
        r@ == recorded(
            text::opt_text(*override_value),
            text::opt_text(*command_output),
            fallback@,
        ),
{
    match trim_meaningful(override_value) {
        Some(v) => v,
        None => match trim_meaningful(command_output) {
            Some(v) => v,
            None => text::copy(fallback),
        },
    }
}

/// Whether bytes hold nothing but blanks, tabs and line ends.
pub open spec fn is_blank(b: Seq<u8>) -> bool {
    forall|i: int|
        0 <= i < b.len() ==> (#[trigger] b[i]) == 0x20 || b[i] == 0x0A || b[i] == 0x0D || b[i]
            == 0x09
}

/// Whether the source was changed: the override, else whether the status lists anything.
pub open spec fn recorded_dirty(
    override_value: Option<Seq<char>>,
    status: Option<Seq<u8>>,
) -> Seq<char> {
    match meaningful(override_value) {
        Some(v) => v,
        None => match status {
            Some(b) => if is_blank(b) {
                "false"@
            } else {
                "true"@
            },
            None => "unknown"@,
        },
    }
}

pub open spec fn opt_bytes(b: Option<Vec<u8>>) -> Option<Seq<u8>> {
    match b {
        Some(v) => Some(v@),
        None => None,
    }
}

fn all_blank(b: &Vec<u8>) -> (r: bool)
    ensures
        r == is_blank(b@),
{
    let mut i: usize = 0;
    while i < b.len()
        invariant
            i <= b.len(),
            forall|k: int|
                0 <= k < i ==> (#[trigger] b@[k]) == 0x20 || b@[k] == 0x0A || b@[k] == 0x0D
                    || b@[k] == 0x09,
        decreases b.len() - i,
    {
        if b[i] != 0x20 && b[i] != 0x0A && b[i] != 0x0D && b[i] != 0x09 {
            return false;
        }
        i += 1;
    }
    true
}

/// Records whether the source was changed.
pub fn resolve_dirty(override_value: &Option<String>, status: &Option<Vec<u8>>) -> (r: String)
    ensures
        r@ == recorded_dirty(text::opt_text(*override_value), opt_bytes(*status)),
{
    match trim_meaningful(override_value) {
        Some(v) => v,
        None => match status {
            Some(b) => if all_blank(b) {
                text::copy("false")
            } else {
                text::copy("true")
            },
            None => text::copy("unknown"),
        },
    }
}

// ---- Builds of the game -----------------------------------------------------

/// Whether numbers stand in ascending order.
pub open spec fn is_sorted(s: Seq<u32>) -> bool {
    forall|i: int, j: int| 0 <= i <= j < s.len() ==> (#[trigger] s[i]) <= (#[trigger] s[j])
}

fn insert_sorted(list: &mut Vec<u32>, n: u32)
    requires
        is_sorted(old(list)@),
    ensures
        is_sorted(final(list)@),
        final(list)@.to_multiset() == old(list)@.to_multiset().insert(n),
{
    broadcast use vstd::seq_lib::group_to_multiset_ensures;

    let mut at: usize = list.len();
    while at > 0 && list[at - 1] > n
        invariant
            at <= list@.len(),
            list@ == old(list)@,
            forall|k: int| at <= k < list@.len() ==> (#[trigger] list@[k]) > n,
        decreases at,
    {
        at -= 1;
    }
    let ghost before = list@;
    list.insert(at, n);
    proof {
        assert(list@ =~= before.insert(at as int, n));
        assert forall|i: int, j: int| 0 <= i <= j < list@.len() implies (#[trigger] list@[i]) <= (
        #[trigger] list@[j]) by {
            let x = if i < at {
                i
            } else {
                i - 1
            };
            let y = if j < at {
                j
            } else {
                j - 1
            };
            if i != at && j != at {
                assert(before[x] <= before[y]);
            } else if j == at && i < at {
                assert(before[i] <= before[at - 1]);
            }
        }
    }
}

/// The numbers with those of the first `n` of another list that they lack.
pub open spec fn joined_builds(
    have: vstd::multiset::Multiset<u32>,
    more: Seq<u32>,
    n: int,
) -> vstd::multiset::Multiset<u32>
    decreases n,
{
    if n <= 0 {
        have
    } else {
        let before = joined_builds(have, more, n - 1);
        if before.contains(more[n - 1]) {
            before
        } else {
            before.insert(more[n - 1])
        }
    }
}

fn has_number(list: &Vec<u32>, n: u32) -> (r: bool)
    ensures
        r == list@.contains(n),
{
    let mut i: usize = 0;
    while i < list.len()
        invariant
            i <= list.len(),
            forall|k: int| 0 <= k < i ==> (#[trigger] list@[k]) != n,
        decreases list.len() - i,
    {
        if list[i] == n {
            assert(list@[i as int] == n);
            return true;
        }
        i += 1;
    }
    false
}

fn join_builds(list: &mut Vec<u32>, more: &Vec<u32>)
    requires
        is_sorted(old(list)@),
    ensures
        is_sorted(final(list)@),
        final(list)@.to_multiset() == joined_builds(
            old(list)@.to_multiset(),
            more@,
            more@.len() as int,
        ),
{
    let mut i: usize = 0;
    while i < more.len()
        invariant
            i <= more.len(),
            is_sorted(list@),
            list@.to_multiset() == joined_builds(old(list)@.to_multiset(), more@, i as int),
        decreases more.len() - i,
    {
        assert(list@.contains(more@[i as int]) <==> list@.to_multiset().count(more@[i as int]) > 0) by {
            broadcast use vstd::seq_lib::group_to_multiset_ensures;

        }
        if !has_number(list, more[i]) {
            insert_sorted(list, more[i]);
        }
        i += 1;
    }
}

/// Merges the numbers of registered builds, of those in the current installation and of
/// those found on disk, in ascending order.
pub fn merge_builds(registered: &Vec<u32>, latest: &Vec<u32>, found: &Vec<u32>) -> (r: Vec<u32>)
    ensures
        is_sorted(r@),
        r@.to_multiset() == joined_builds(
            joined_builds(registered@.to_multiset(), latest@, latest@.len() as int),
            found@,
            found@.len() as int,
        ),
{
    let mut out: Vec<u32> = Vec::new();
    let mut i: usize = 0;
    assert(registered@.take(0) =~= out@);
    while i < registered.len()
        invariant
            i <= registered.len(),
            is_sorted(out@),
            out@.to_multiset() == registered@.take(i as int).to_multiset(),
        decreases registered.len() - i,
    {
        insert_sorted(&mut out, registered[i]);
        assert(registered@.take(i + 1).to_multiset() == registered@.take(
            i as int,
        ).to_multiset().insert(registered@[i as int])) by {
            broadcast use vstd::seq_lib::group_to_multiset_ensures;

            assert(registered@.take(i + 1) =~= registered@.take(i as int).push(
                registered@[i as int],
            ));
        }
        i += 1;
    }
    assert(registered@.take(i as int) =~= registered@);
    join_builds(&mut out, latest);
    join_builds(&mut out, found);
    out
}

// ---- Flags of the compiler --------------------------------------------------

/// Builds that tests refer to, whether they are at hand or not.
pub const KNOWN_TEST_BUILDS: [u32; 3] = [6_965_290, 9_531_281, 11_965_230];

/// The line that declares the flag of a build.
pub open spec fn declaration(build: u32) -> Seq<char> {
    "cargo:rustc-check-cfg=cfg(has_build_"@ + text::decimal(build as int) + ")"@
}

/// The line that sets the flag of a build.
pub open spec fn flag(build: u32) -> Seq<char> {
    "cargo:rustc-cfg=has_build_"@ + text::decimal(build as int)
}

fn write_declaration(build: u32) -> (r: String)
    ensures
        r@ == declaration(build),
{
    text::concat3(
        "cargo:rustc-check-cfg=cfg(has_build_",
        text::to_decimal(build as u64).as_str(),
        ")",
    )
}

/// The lines that declare the flags which are known from the start.
pub open spec fn known_declarations(n: int) -> Seq<Seq<char>> {
    seq!["cargo:rustc-check-cfg=cfg(has_game_data)"@] + Seq::new(
        n as nat,
        |i: int| declaration(KNOWN_TEST_BUILDS@[i]),
    )
}

/// Declares the flags which are known from the start.
pub fn declare_flags() -> (r: Vec<String>)
    ensures
        text::texts(r@) == known_declarations(3),
{
    let mut out: Vec<String> = Vec::new();
    out.push(text::copy("cargo:rustc-check-cfg=cfg(has_game_data)"));
    let known: [u32; 3] = KNOWN_TEST_BUILDS;
    let mut i: usize = 0;
    assert(text::texts(out@) =~= known_declarations(0));
    while i < 3
        invariant
            i <= 3,
            known@ == KNOWN_TEST_BUILDS@,
            text::texts(out@) == known_declarations(i as int),
        decreases 3 - i,
    {
        let ghost before = text::texts(out@);
        let line = write_declaration(known[i]);
        let ghost added = line@;
        out.push(line);
        assert(text::texts(out@) =~= before.push(added));
        i += 1;
        assert(text::texts(out@) =~= known_declarations(i as int));
    }
    out
}

/// The lines for the first `n` builds at hand: each sets its flag, and declares it first
/// if it is not known from the start.
pub open spec fn build_lines(builds: Seq<u32>, n: int) -> Seq<Seq<char>>
    decreases n,
{
    if n <= 0 {
        Seq::empty()
    } else {
        let before = build_lines(builds, n - 1);
        if KNOWN_TEST_BUILDS@.contains(builds[n - 1]) {
            before.push(flag(builds[n - 1]))
        } else {
            before.push(declaration(builds[n - 1])).push(flag(builds[n - 1]))
        }
    }
}

/// The lines that set the flags of the builds at hand, and the flag that there are any.
pub open spec fn flag_lines(builds: Seq<u32>) -> Seq<Seq<char>> {
    let lines = build_lines(builds, builds.len() as int);
    if builds.len() > 0 {
        lines.push("cargo:rustc-cfg=has_game_data"@)
    } else {
        lines
    }
}

fn is_known(build: u32) -> (r: bool)
    ensures
        r == KNOWN_TEST_BUILDS@.contains(build),
{
    let known: [u32; 3] = KNOWN_TEST_BUILDS;
    let mut i: usize = 0;
    while i < 3
        invariant
            i <= 3,
            known@ == KNOWN_TEST_BUILDS@,
            forall|k: int| 0 <= k < i ==> (#[trigger] known@[k]) != build,
        decreases 3 - i,
    {
        if known[i] == build {
            assert(known@[i as int] == build);
            return true;
        }
        i += 1;
    }
    false
}

/// Sets the flags of the builds at hand.
pub fn set_flags(builds: &Vec<u32>) -> (r: Vec<String>)
    ensures
        text::texts(r@) == flag_lines(builds@),
{
    let mut out: Vec<String> = Vec::new();
    let mut i: usize = 0;
    assert(text::texts(out@) =~= build_lines(builds@, 0));
    while i < builds.len()
        invariant
            i <= builds.len(),
            text::texts(out@) == build_lines(builds@, i as int),
        decreases builds.len() - i,
    {
        let build: u32 = builds[i];
        let ghost before = text::texts(out@);
        if !is_known(build) {
            out.push(write_declaration(build));
            assert(text::texts(out@) =~= before.push(declaration(build)));
        }
        let ghost declared = text::texts(out@);
        out.push(
            text::concat("cargo:rustc-cfg=has_build_", text::to_decimal(build as u64).as_str()),
        );
        assert(text::texts(out@) =~= declared.push(flag(build)));
        i += 1;
    }
    if builds.len() > 0 {
        let ghost before = text::texts(out@);
        out.push(text::copy("cargo:rustc-cfg=has_game_data"));
        assert(text::texts(out@) =~= before.push("cargo:rustc-cfg=has_game_data"@));
    }
    out
}

/// A value that is set counts before what a command says, and that before the fallback;
/// blank values count as not set.
pub proof fn set_values_count_first(
    set: Seq<char>,
    found: Seq<char>,
    fallback: Seq<char>,
    blank: Seq<char>,
)
    requires
        text::trimmed(set).len() > 0,
        text::trimmed(found).len() > 0,
        text::trimmed(blank).len() == 0,
    ensures
        recorded(Some(set), Some(found), fallback) == text::trimmed(set),
        recorded(None, Some(found), fallback) == text::trimmed(found),
        recorded(Some(blank), Some(found), fallback) == text::trimmed(found),
        recorded(Some(blank), Some(blank), fallback) == fallback,
        recorded(None, None, fallback) == fallback,
{
}

/// A tree is dirty if its status shows anything but white space, and nobody knows if there
/// is no status.
pub proof fn dirty_trees_have_a_status(status: Seq<u8>)
    ensures
        recorded_dirty(None, None) == "unknown"@,
        recorded_dirty(None, Some(status)) == "false"@ || recorded_dirty(None, Some(status))
            == "true"@,
        status.len() == 0 ==> recorded_dirty(None, Some(status)) == "false"@,
        status.len() > 0 && status[0] == 0x4D ==> recorded_dirty(None, Some(status)) == "true"@,
{
    if status.len() > 0 && status[0] == 0x4D {
        assert(!is_blank(status));
    }
}

/// Every build that was found is among the joined ones, and none is added that was there.
pub proof fn builds_are_joined(
    have: vstd::multiset::Multiset<u32>,
    more: Seq<u32>,
    n: int,
    b: u32,
)
    requires
        0 <= n <= more.len(),
    ensures
        joined_builds(have, more, n).contains(b) <==> have.contains(b) || exists|i: int|
            0 <= i < n && #[trigger] more[i] == b,
        have.contains(b) ==> joined_builds(have, more, n).count(b) == have.count(b),
        !have.contains(b) ==> joined_builds(have, more, n).count(b) <= 1,
    decreases n,
{
    if n > 0 {
        builds_are_joined(have, more, n - 1, b);
        assert(more[n - 1] == more[n - 1]);
    }
}

/// Every build has its flag, and there is a flag for game data exactly if there is a build.
pub proof fn builds_have_flags(builds: Seq<u32>, i: int)
    requires
        0 <= i < builds.len(),
    ensures
        flag_lines(builds).contains("cargo:rustc-cfg=has_build_"@ + text::decimal(builds[i] as int)),
        flag_lines(builds).last() == "cargo:rustc-cfg=has_game_data"@,
        flag_lines(Seq::<u32>::empty()).len() == 0,
{
    let n = builds.len() as int;
    flags_stand(builds, n, i);
    let lines = build_lines(builds, n);
    let f = "cargo:rustc-cfg=has_build_"@ + text::decimal(builds[i] as int);
    let k = choose|k: int| 0 <= k < lines.len() && lines[k] == f;
    assert(flag_lines(builds)[k] == f);
}

proof fn flags_stand(builds: Seq<u32>, n: int, i: int)
    requires
        0 <= i < n <= builds.len(),
    ensures
        build_lines(builds, n).contains(flag(builds[i])),
        !KNOWN_TEST_BUILDS@.contains(builds[i]) ==> build_lines(builds, n).contains(
            declaration(builds[i]),
        ),
    decreases n,
{
    let now = build_lines(builds, n);
    let before = build_lines(builds, n - 1);
    if i < n - 1 {
        flags_stand(builds, n - 1, i);
        let k = choose|k: int| 0 <= k < before.len() && before[k] == flag(builds[i]);
        assert(now[k] == flag(builds[i]));
        if !KNOWN_TEST_BUILDS@.contains(builds[i]) {
            let j = choose|j: int| 0 <= j < before.len() && before[j] == declaration(builds[i]);
            assert(now[j] == declaration(builds[i]));
        }
    } else {
        assert(now.last() == flag(builds[i]));
        if !KNOWN_TEST_BUILDS@.contains(builds[i]) {
            assert(now[before.len() as int] == declaration(builds[i]));
        }
    }
}

} // verus!
