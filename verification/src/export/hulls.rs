//! Hull upgrades of a ship.
use vstd::prelude::*;

use crate::game_params::keys;
use crate::game_params::keys::ComponentType;
use crate::order;
use crate::text;
use crate::text_laws;

verus! {

/// A component of a hull upgrade.
#[derive(Debug)]
pub struct HullComponent {
    pub kind: ComponentType,
    pub name: Option<String>,
    /// Number of its mounts, if it lists any.
    pub mount_count: Option<usize>,
}

/// A hull upgrade.
#[derive(Debug)]
pub struct HullUpgrade {
    pub name: String,
    pub components: Vec<HullComponent>,
}

/// The names of hull upgrades.
pub open spec fn upgrade_names(upgrades: Seq<HullUpgrade>) -> Seq<Seq<char>> {
    Seq::new(upgrades.len(), |i: int| upgrades[i].name@)
}

/// Index of the first component of a kind, from `i` on.
pub open spec fn component_from(
    components: Seq<HullComponent>,
    kind: ComponentType,
    i: int,
) -> Option<int>
    decreases components.len() - i,
{
    if i < 0 || i >= components.len() {
        None
    } else if components[i].kind == kind {
        Some(i)
    } else {
        component_from(components, kind, i + 1)
    }
}

/// The name of the component of a kind.
pub open spec fn component_name(upgrade: HullUpgrade, kind: ComponentType) -> Option<Seq<char>> {
    match component_from(upgrade.components@, kind, 0) {
        Some(i) => text::opt_text(upgrade.components@[i].name),
        None => None,
    }
}

/// The number of mounts of the component of a kind.
pub open spec fn mount_count(upgrade: HullUpgrade, kind: ComponentType) -> usize {
    match component_from(upgrade.components@, kind, 0) {
        Some(i) => match upgrade.components@[i].mount_count {
            Some(n) => n,
            None => 0,
        },
        None => 0,
    }
}

fn find_component(upgrade: &HullUpgrade, kind: ComponentType) -> (r: Option<usize>)
    ensures
        match r {
            Some(i) => component_from(upgrade.components@, kind, 0) == Some(i as int) && i
                < upgrade.components@.len(),
            None => component_from(upgrade.components@, kind, 0) is None,
        },
{
    let c = &upgrade.components;
    let mut i: usize = 0;
    while i < c.len()
        invariant
            i <= c.len(),
            *c == upgrade.components,
            component_from(c@, kind, i as int) == component_from(c@, kind, 0),
        decreases c.len() - i,
    {
        if c[i].kind == kind {
            return Some(i);
        }
        i += 1;
    }
    None
}

// ---- Listing ----------------------------------------------------------------

/// A component in a list of upgrades: its type, its name and its number of mounts.
#[derive(Debug, Clone)]
pub struct ComponentSummary {
    pub label: String,
    pub name: String,
    pub mounts: usize,
}

pub struct ComponentSummaryView {
    pub label: Seq<char>,
    pub name: Seq<char>,
    pub mounts: usize,
}

impl View for ComponentSummary {
    type V = ComponentSummaryView;

    open spec fn view(&self) -> ComponentSummaryView {
        ComponentSummaryView { label: self.label@, name: self.name@, mounts: self.mounts }
    }
}

/// A hull upgrade in a list.
#[derive(Debug, Clone)]
pub struct HullUpgradeInfo {
    pub name: String,
    pub components: Vec<ComponentSummary>,
}

pub struct HullUpgradeInfoView {
    pub name: Seq<char>,
    pub components: Seq<ComponentSummaryView>,
}

impl View for HullUpgradeInfo {
    type V = HullUpgradeInfoView;

    open spec fn view(&self) -> HullUpgradeInfoView {
        HullUpgradeInfoView {
            name: self.name@,
            components: Seq::new(self.components@.len(), |i: int| self.components@[i]@),
        }
    }
}

/// The summary of the component of a kind. A component without name is `(none)`.
pub open spec fn summary(upgrade: HullUpgrade, kind: ComponentType) -> ComponentSummaryView {
    ComponentSummaryView {
        label: keys::label_of(kind),
        name: match component_name(upgrade, kind) {
            Some(n) => n,
            None => "(none)"@,
        },
        mounts: mount_count(upgrade, kind),
    }
}

/// An upgrade in a list: the summaries of all component types.
pub open spec fn upgrade_info(upgrade: HullUpgrade) -> HullUpgradeInfoView {
    HullUpgradeInfoView {
        name: upgrade.name@,
        components: Seq::new(
            ComponentType::ALL@.len(),
            |i: int| summary(upgrade, ComponentType::ALL@[i]),
        ),
    }
}

fn summarise(upgrade: &HullUpgrade, kind: ComponentType) -> (r: ComponentSummary)
    ensures
        r@ == summary(*upgrade, kind),
{
    let at = find_component(upgrade, kind);
    let name = match at {
        Some(i) => match &upgrade.components[i].name {
            Some(n) => text::copy(n.as_str()),
            None => text::copy("(none)"),
        },
        None => text::copy("(none)"),
    };
    let mounts: usize = match at {
        Some(i) => match upgrade.components[i].mount_count {
            Some(n) => n,
            None => 0,
        },
        None => 0,
    };
    ComponentSummary { label: text::copy(kind.label()), name, mounts }
}

fn describe(upgrade: &HullUpgrade) -> (r: HullUpgradeInfo)
    ensures
        r@ == upgrade_info(*upgrade),
{
    let all: [ComponentType; 13] = ComponentType::ALL;
    let mut components: Vec<ComponentSummary> = Vec::new();
    let mut i: usize = 0;
    while i < 13
        invariant
            i <= 13,
            all@ == ComponentType::ALL@,
            components@.len() == i,
            forall|k: int|
                0 <= k < i ==> (#[trigger] components@[k])@ == summary(*upgrade, all@[k]),
        decreases 13 - i,
    {
        components.push(summarise(upgrade, all[i]));
        i += 1;
    }
    let r = HullUpgradeInfo { name: text::copy(upgrade.name.as_str()), components };
    assert(r@.components =~= upgrade_info(*upgrade).components);
    r
}

/// Copies the names of upgrades.
fn names_of(upgrades: &Vec<HullUpgrade>) -> (r: Vec<String>)
    ensures
        text::texts(r@) == upgrade_names(upgrades@),
{
    let mut out: Vec<String> = Vec::new();
    let mut i: usize = 0;
    while i < upgrades.len()
        invariant
            i <= upgrades.len(),
            out@.len() == i,
            forall|k: int| 0 <= k < i ==> (#[trigger] out@[k])@ == upgrades@[k].name@,
        decreases upgrades.len() - i,
    {
        out.push(text::copy(upgrades[i].name.as_str()));
        i += 1;
    }
    assert(text::texts(out@) =~= upgrade_names(upgrades@));
    out
}

/// Upgrades in the order of their names.
pub open spec fn sorted_infos(upgrades: Seq<HullUpgrade>) -> Seq<HullUpgradeInfoView> {
    let o = order::stable_order(upgrade_names(upgrades), upgrades.len() as int);
    Seq::new(upgrades.len(), |k: int| upgrade_info(upgrades[o[k]]))
}

pub open spec fn info_views(s: Seq<HullUpgradeInfo>) -> Seq<HullUpgradeInfoView> {
    Seq::new(s.len(), |k: int| s[k]@)
}

/// Lists the hull upgrades of a ship in the order of their names.
pub fn list_hull_upgrades(upgrades: &Vec<HullUpgrade>) -> (r: Vec<HullUpgradeInfo>)
    ensures
        info_views(r@) == sorted_infos(upgrades@),
{
    let names = names_of(upgrades);
    let sorted = order::sort_stably(&names);
    let ghost o = order::stable_order(upgrade_names(upgrades@), upgrades@.len() as int);
    let mut out: Vec<HullUpgradeInfo> = Vec::new();
    let mut k: usize = 0;
    assert(names@.len() == text::texts(names@).len());
    while k < sorted.len()
        invariant
            k <= sorted.len(),
            out@.len() == k,
            sorted@.len() == upgrades@.len(),
            o == sorted@.map_values(|i: usize| i as int),
            forall|k: int| 0 <= k < sorted@.len() ==> (#[trigger] sorted@[k]) < upgrades@.len(),
            forall|j: int| 0 <= j < k ==> (#[trigger] out@[j])@ == upgrade_info(upgrades@[o[j]]),
        decreases sorted.len() - k,
    {
        let at: usize = sorted[k];
        assert(o[k as int] == at);
        out.push(describe(&upgrades[at]));
        k += 1;
    }
    assert(info_views(out@) =~= sorted_infos(upgrades@));
    out
}

// ---- Selection --------------------------------------------------------------

/// Whether the hull component of an upgrade starts with the selection and an underscore.
pub open spec fn has_hull(upgrade: HullUpgrade, selection: Seq<char>) -> bool {
    match component_name(upgrade, ComponentType::Hull) {
        Some(n) => text::has_prefix(n, selection + "_"@),
        None => false,
    }
}

/// The first upgrade in an order, from `k` on, that has the name.
pub open spec fn named_from(
    upgrades: Seq<HullUpgrade>,
    o: Seq<int>,
    selection: Seq<char>,
    k: int,
) -> Option<int>
    decreases o.len() - k,
{
    if k < 0 || k >= o.len() {
        None
    } else if upgrades[o[k]].name@ == selection {
        Some(o[k])
    } else {
        named_from(upgrades, o, selection, k + 1)
    }
}

/// The first upgrade in an order, from `k` on, that is selected by its hull.
pub open spec fn hulled_from(
    upgrades: Seq<HullUpgrade>,
    o: Seq<int>,
    selection: Seq<char>,
    k: int,
) -> Option<int>
    decreases o.len() - k,
{
    if k < 0 || k >= o.len() {
        None
    } else if has_hull(upgrades[o[k]], selection) {
        Some(o[k])
    } else {
        hulled_from(upgrades, o, selection, k + 1)
    }
}

/// The upgrade that a selection names: the one of that name, else the first whose hull
/// it starts, in the order of names. Without selection it is the first in that order.
pub open spec fn selected(upgrades: Seq<HullUpgrade>, selection: Option<Seq<char>>) -> Option<int> {
    let o = order::stable_order(upgrade_names(upgrades), upgrades.len() as int);
    match selection {
        Some(s) => match named_from(upgrades, o, s, 0) {
            Some(i) => Some(i),
            None => hulled_from(upgrades, o, s, 0),
        },
        None => if upgrades.len() > 0 {
            Some(o[0])
        } else {
            None
        },
    }
}

fn hull_starts_with(upgrade: &HullUpgrade, prefix: &str) -> (r: bool)
    ensures
        r == match component_name(*upgrade, ComponentType::Hull) {
            Some(n) => text::has_prefix(n, prefix@),
            None => false,
        },
{
    match find_component(upgrade, ComponentType::Hull) {
        Some(i) => match &upgrade.components[i].name {
            Some(n) => text::starts_with(n.as_str(), prefix),
            None => false,
        },
        None => false,
    }
}

pub open spec fn opt_str(s: Option<&str>) -> Option<Seq<char>> {
    match s {
        Some(t) => Some(t@),
        None => None,
    }
}

/// Selects the hull upgrade whose mounts a ship is shown with.
pub fn select_hull(upgrades: &Vec<HullUpgrade>, selection: Option<&str>) -> (r: Option<usize>)
    ensures
        match r {
            Some(i) => selected(upgrades@, opt_str(selection)) == Some(i as int) && i
                < upgrades@.len(),
            None => selected(upgrades@, opt_str(selection)) is None,
        },
{
    let names = names_of(upgrades);
    let sorted = order::sort_stably(&names);
    let ghost o = order::stable_order(upgrade_names(upgrades@), upgrades@.len() as int);
    assert(names@.len() == text::texts(names@).len());
    assert(o == sorted@.map_values(|i: usize| i as int));
    match selection {
        None => {
            if sorted.len() == 0 {
                return None;
            }
            assert(o[0] == sorted@[0]);
            Some(sorted[0])
        },
        Some(s) => {
            let mut k: usize = 0;
            while k < sorted.len()
                invariant
                    k <= sorted.len(),
                    opt_str(selection) == Some(s@),
                    o == order::stable_order(upgrade_names(upgrades@), upgrades@.len() as int),
                    sorted@.len() == upgrades@.len(),
                    o == sorted@.map_values(|i: usize| i as int),
                    forall|k: int|
                        0 <= k < sorted@.len() ==> (#[trigger] sorted@[k]) < upgrades@.len(),
                    named_from(upgrades@, o, s@, k as int) == named_from(upgrades@, o, s@, 0),
                decreases sorted.len() - k,
            {
                let at: usize = sorted[k];
                assert(o[k as int] == at);
                if text::same(upgrades[at].name.as_str(), s) {
                    return Some(at);
                }
                k += 1;
            }
            let prefix = text::concat(s, "_");
            let mut j: usize = 0;
            while j < sorted.len()
                invariant
                    j <= sorted.len(),
                    prefix@ == s@ + "_"@,
                    sorted@.len() == upgrades@.len(),
                    o == sorted@.map_values(|i: usize| i as int),
                    forall|k: int|
                        0 <= k < sorted@.len() ==> (#[trigger] sorted@[k]) < upgrades@.len(),
                    hulled_from(upgrades@, o, s@, j as int) == hulled_from(upgrades@, o, s@, 0),
                    named_from(upgrades@, o, s@, 0) is None,
                    opt_str(selection) == Some(s@),
                    o == order::stable_order(upgrade_names(upgrades@), upgrades@.len() as int),
                decreases sorted.len() - j,
            {
                let at: usize = sorted[j];
                assert(o[j as int] == at);
                if hull_starts_with(&upgrades[at], prefix.as_str()) {
                    return Some(at);
                }
                j += 1;
            }
            None
        },
    }
}

proof fn named_from_is_exact(upgrades: Seq<HullUpgrade>, o: Seq<int>, selection: Seq<char>, k: int)
    requires
        0 <= k,
    ensures
        match named_from(upgrades, o, selection, k) {
            Some(i) => o.contains(i) && upgrades[i].name@ == selection,
            None => forall|j: int|
                k <= j < o.len() ==> upgrades[#[trigger] o[j]].name@ != selection,
        },
    decreases o.len() - k,
{
    if k < o.len() && upgrades[o[k]].name@ != selection {
        named_from_is_exact(upgrades, o, selection, k + 1);
    }
}

proof fn hulled_from_is_exact(upgrades: Seq<HullUpgrade>, o: Seq<int>, selection: Seq<char>, k: int)
    requires
        0 <= k,
    ensures
        match hulled_from(upgrades, o, selection, k) {
            Some(i) => o.contains(i) && has_hull(upgrades[i], selection),
            None => forall|j: int| k <= j < o.len() ==> !has_hull(upgrades[#[trigger] o[j]], selection),
        },
    decreases o.len() - k,
{
    if k < o.len() && !has_hull(upgrades[o[k]], selection) {
        hulled_from_is_exact(upgrades, o, selection, k + 1);
    }
}

/// A selection that is the full name of an upgrade selects one of that name. Any other
/// selects an upgrade whose hull it starts, and nothing if there is none.
pub proof fn full_names_come_first(upgrades: Seq<HullUpgrade>, selection: Seq<char>)
    ensures
        match selected(upgrades, Some(selection)) {
            Some(i) => 0 <= i < upgrades.len() && if upgrade_names(upgrades).contains(selection) {
                upgrades[i].name@ == selection
            } else {
                has_hull(upgrades[i], selection)
            },
            None => !upgrade_names(upgrades).contains(selection) && forall|j: int|
                0 <= j < upgrades.len() ==> !has_hull(#[trigger] upgrades[j], selection),
        },
{
    let names = upgrade_names(upgrades);
    let o = order::stable_order(names, upgrades.len() as int);
    order::stable_order_is_exact(names, upgrades.len() as int);
    named_from_is_exact(upgrades, o, selection, 0);
    hulled_from_is_exact(upgrades, o, selection, 0);
    if names.contains(selection) {
        let j = choose|j: int| 0 <= j < names.len() && names[j] == selection;
        assert(o.contains(j));
        let k = choose|k: int| 0 <= k < o.len() && o[k] == j;
        assert(upgrades[o[k]].name@ == selection);
    } else {
        assert forall|j: int| 0 <= j < upgrades.len() implies (#[trigger] upgrades[j]).name@
            != selection by {
            assert(names[j] == upgrades[j].name@);
        }
        if selected(upgrades, Some(selection)) is None {
            assert forall|j: int| 0 <= j < upgrades.len() implies !has_hull(
                #[trigger] upgrades[j],
                selection,
            ) by {
                assert(o.contains(j));
                let k = choose|k: int| 0 <= k < o.len() && o[k] == j;
                assert(!has_hull(upgrades[o[k]], selection));
            }
        }
    }
}

/// Without a selection the upgrade whose name comes first is taken, if there is any.
pub proof fn first_names_are_selected(upgrades: Seq<HullUpgrade>, j: int)
    requires
        0 <= j < upgrades.len(),
    ensures
        selected(upgrades, None) matches Some(i) && 0 <= i < upgrades.len() && !text::comes_before(
            upgrades[j].name@,
            upgrades[i].name@,
        ),
{
    let names = upgrade_names(upgrades);
    let o = order::stable_order(names, upgrades.len() as int);
    order::stable_order_is_exact(names, upgrades.len() as int);
    let i = o[0];
    assert(o.contains(j));
    let k = choose|k: int| 0 <= k < o.len() && o[k] == j;
    assert(names[i] == upgrades[i].name@ && names[j] == upgrades[j].name@);
    if k > 0 {
        assert(order::precedes(names, o[0], o[k]));
        if text::comes_before(names[j], names[i]) {
            if text::comes_before(names[i], names[j]) {
                text::order_is_transitive(names[i], names[j], names[i]);
            }
            text::order_is_irreflexive(names[i]);
        }
    } else {
        text::order_is_irreflexive(names[i]);
    }
}

/// What is said of a kind of component is what the first component of that kind says; of a
/// kind that an upgrade lacks, nothing.
pub proof fn first_components_count(upgrade: HullUpgrade, kind: ComponentType, i: int, k: int)
    requires
        0 <= i <= k < upgrade.components@.len(),
        upgrade.components@[k].kind == kind,
        forall|j: int| i <= j < k ==> (#[trigger] upgrade.components@[j]).kind != kind,
    ensures
        component_from(upgrade.components@, kind, i) == Some(k),
        i == 0 ==> component_name(upgrade, kind) == text::opt_text(upgrade.components@[k].name),
        i == 0 && upgrade.components@[k].name is Some ==> summary(upgrade, kind).name == (
        upgrade.components@[k].name->0)@,
        i == 0 && upgrade.components@[k].mount_count is Some ==> summary(upgrade, kind).mounts
            == upgrade.components@[k].mount_count->0,
    decreases k - i,
{
    if i < k {
        first_components_count(upgrade, kind, i + 1, k);
    }
}

/// Upgrades are listed by name, all of them.
pub proof fn upgrades_are_listed_by_name(upgrades: Seq<HullUpgrade>)
    ensures
        sorted_infos(upgrades).len() == upgrades.len(),
        forall|a: int, b: int|
            0 <= a < b < upgrades.len() ==> !text::comes_before(
                (#[trigger] sorted_infos(upgrades)[b]).name,
                (#[trigger] sorted_infos(upgrades)[a]).name,
            ),
        forall|i: int|
            0 <= i < upgrades.len() ==> sorted_infos(upgrades).contains(
                upgrade_info(#[trigger] upgrades[i]),
            ),
{
    let names = upgrade_names(upgrades);
    let o = order::stable_order(names, upgrades.len() as int);
    order::stable_order_is_exact(names, upgrades.len() as int);
    let s = sorted_infos(upgrades);
    assert forall|a: int, b: int| 0 <= a < b < upgrades.len() implies !text::comes_before(
        (#[trigger] s[b]).name,
        (#[trigger] s[a]).name,
    ) by {
        assert(order::precedes(names, o[a], o[b]));
        assert(names[o[a]] == s[a].name && names[o[b]] == s[b].name);
        if text::comes_before(s[b].name, s[a].name) {
            if text::comes_before(s[a].name, s[b].name) {
                text::order_is_transitive(s[a].name, s[b].name, s[a].name);
            }
            text::order_is_irreflexive(s[a].name);
        }
    }
    assert forall|i: int| 0 <= i < upgrades.len() implies s.contains(
        upgrade_info(#[trigger] upgrades[i]),
    ) by {
        assert(o.contains(i));
        let k = choose|k: int| 0 <= k < o.len() && o[k] == i;
        assert(s[k] == upgrade_info(upgrades[i]));
    }
}

/// A hull goes by the first part of its component's name, up to an underscore.
pub proof fn hulls_go_by_the_start_of_their_name(
    upgrade: HullUpgrade,
    selection: Seq<char>,
    rest: Seq<char>,
)
    ensures
        component_name(upgrade, ComponentType::Hull) == Some(selection + "_"@ + rest) ==> has_hull(
            upgrade,
            selection,
        ),
        component_name(upgrade, ComponentType::Hull) is None ==> !has_hull(upgrade, selection),
{
    text_laws::prefixes_are_continued(rest, selection + "_"@);
}

/// A component counts the mounts that it has; one that an upgrade lacks has no mounts and no
/// name.
pub proof fn missing_components_have_no_mounts(upgrade: HullUpgrade, kind: ComponentType, i: int)
    ensures
        component_from(upgrade.components@, kind, 0) is None ==> mount_count(upgrade, kind) == 0
            && summary(upgrade, kind).name == "(none)"@,
        component_from(upgrade.components@, kind, 0) == Some(i) ==> {
            &&& upgrade.components@[i].mount_count matches Some(n) ==> summary(upgrade, kind).mounts == n
            &&& upgrade.components@[i].mount_count is None ==> summary(upgrade, kind).mounts == 0
            &&& upgrade.components@[i].name matches Some(n) ==> summary(upgrade, kind).name == n@
        },
{
}

} // verus!
