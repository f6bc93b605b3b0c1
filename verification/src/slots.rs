//! Lists of named values, in which a later value replaces an earlier one of the same
//! name.
use vstd::prelude::*;

use crate::text;

verus! {

/// A value bound to a name.
#[derive(Debug)]
pub struct NamedSlot<T> {
    pub name: String,
    pub value: T,
}

/// The names and values of a list of slots.
pub open spec fn slots<T: View>(s: Seq<NamedSlot<T>>) -> Seq<(Seq<char>, T::V)> {
    Seq::new(s.len(), |i: int| (s[i].name@, s[i].value@))
}

/// Index of the first slot of the given name, from `i` on.
pub open spec fn slot_from<V>(s: Seq<(Seq<char>, V)>, name: Seq<char>, i: int) -> Option<int>
    decreases s.len() - i,
{
    if i < 0 || i >= s.len() {
        None
    } else if s[i].0 == name {
        Some(i)
    } else {
        slot_from(s, name, i + 1)
    }
}

/// The slots after a value was bound: it takes the place of an earlier one of the same
/// name.
pub open spec fn bound<V>(s: Seq<(Seq<char>, V)>, name: Seq<char>, value: V) -> Seq<
    (Seq<char>, V),
> {
    match slot_from(s, name, 0) {
        Some(i) => s.update(i, (name, value)),
        None => s.push((name, value)),
    }
}

/// Binds a value to a name.
pub fn bind<T: View>(list: &mut Vec<NamedSlot<T>>, name: String, value: T)
    ensures
        slots(final(list)@) == bound(slots(old(list)@), name@, value@),
{
    let ghost before = slots(list@);
    let mut i: usize = 0;
    while i < list.len()
        invariant
            i <= list.len(),
            before == slots(list@),
            list@ == old(list)@,
            slot_from(before, name@, i as int) == slot_from(before, name@, 0),
        decreases list.len() - i,
    {
        if text::same(list[i].name.as_str(), name.as_str()) {
            list.set(i, NamedSlot { name, value });
            assert(slots(list@) =~= bound(before, name@, value@));
            return;
        }
        i += 1;
    }
    list.push(NamedSlot { name, value });
    assert(slots(list@) =~= bound(before, name@, value@));
}

/// Whether no two slots have the same name.
pub open spec fn has_distinct_names<V>(s: Seq<(Seq<char>, V)>) -> bool {
    forall|i: int, j: int| 0 <= i < j < s.len() ==> (#[trigger] s[i]).0 != (#[trigger] s[j]).0
}

/// Binding never makes two slots of one name.
pub proof fn bound_names_are_distinct<V>(s: Seq<(Seq<char>, V)>, name: Seq<char>, value: V)
    requires
        has_distinct_names(s),
    ensures
        has_distinct_names(bound(s, name, value)),
{
    slot_from_is_exact(s, name, 0);
}

/// The slot that is found has the name, and if none is found, none has it.
pub proof fn slot_from_is_exact<V>(s: Seq<(Seq<char>, V)>, name: Seq<char>, i: int)
    requires
        0 <= i,
    ensures
        match slot_from(s, name, i) {
            Some(k) => i <= k < s.len() && s[k].0 == name,
            None => forall|k: int| i <= k < s.len() ==> (#[trigger] s[k]).0 != name,
        },
    decreases s.len() - i,
{
    if i < s.len() && s[i].0 != name {
        slot_from_is_exact(s, name, i + 1);
    }
}

/// Finds the first slot of the given name.
pub fn find<T: View>(list: &Vec<NamedSlot<T>>, name: &str) -> (r: Option<usize>)
    ensures
        match r {
            Some(i) => slot_from(slots(list@), name@, 0) == Some(i as int) && i < list@.len(),
            None => slot_from(slots(list@), name@, 0) is None,
        },
{
    let mut i: usize = 0;
    while i < list.len()
        invariant
            i <= list.len(),
            slot_from(slots(list@), name@, i as int) == slot_from(slots(list@), name@, 0),
        decreases list.len() - i,
    {
        if text::same(list[i].name.as_str(), name) {
            return Some(i);
        }
        i += 1;
    }
    None
}

/// A bound value is found under its name, and nothing else changes: the slots of other
/// names keep their place and value.
pub proof fn bound_values_are_found<V>(s: Seq<(Seq<char>, V)>, name: Seq<char>, value: V, k: int)
    requires
        0 <= k < s.len(),
        s[k].0 != name,
    ensures
        slot_from(bound(s, name, value), name, 0) matches Some(i) && 0 <= i < bound(
            s,
            name,
            value,
        ).len() && bound(s, name, value)[i] == (name, value),
        k < bound(s, name, value).len(),
        bound(s, name, value)[k] == s[k],
        bound(s, name, value).len() == if slot_from(s, name, 0) is Some {
            s.len()
        } else {
            s.len() + 1
        },
{
    slot_from_is_exact(s, name, 0);
    let b = bound(s, name, value);
    match slot_from(s, name, 0) {
        Some(i) => {
            first_slots_count(s, name, 0, i);
            first_slots_count_at(b, name, 0, i);
        },
        None => {
            first_slots_count_at(b, name, 0, s.len() as int);
        },
    }
}

/// No slot of a name stands before the one that is found.
pub proof fn first_slots_count<V>(s: Seq<(Seq<char>, V)>, name: Seq<char>, i: int, k: int)
    requires
        0 <= i,
        slot_from(s, name, i) == Some(k),
    ensures
        forall|j: int| i <= j < k ==> (#[trigger] s[j]).0 != name,
    decreases s.len() - i,
{
    if i < s.len() && s[i].0 != name {
        first_slots_count(s, name, i + 1, k);
    }
}

/// The first slot of a name is the one that is found.
pub proof fn first_slots_count_at<V>(s: Seq<(Seq<char>, V)>, name: Seq<char>, i: int, k: int)
    requires
        0 <= i <= k < s.len(),
        s[k].0 == name,
        forall|j: int| i <= j < k ==> (#[trigger] s[j]).0 != name,
    ensures
        slot_from(s, name, i) == Some(k),
    decreases k - i,
{
    if i < k {
        first_slots_count_at(s, name, i + 1, k);
    }
}

/// A bound value is found under its name.
pub proof fn bindings_are_found<V>(s: Seq<(Seq<char>, V)>, name: Seq<char>, value: V)
    ensures
        slot_from(bound(s, name, value), name, 0) matches Some(i) && 0 <= i
            < bound(s, name, value).len() && bound(s, name, value)[i] == (name, value),
{
    slot_from_is_exact(s, name, 0);
    let b = bound(s, name, value);
    match slot_from(s, name, 0) {
        Some(i) => {
            first_slots_count(s, name, 0, i);
            first_slots_count_at(b, name, 0, i);
        },
        None => {
            first_slots_count_at(b, name, 0, s.len() as int);
        },
    }
}

/// Binding a value to one name leaves what is found under another.
pub proof fn other_bindings_keep_slots<V>(
    s: Seq<(Seq<char>, V)>,
    name: Seq<char>,
    value: V,
    other: Seq<char>,
)
    requires
        name != other,
        slot_from(s, other, 0) is Some,
    ensures
        slot_from(bound(s, name, value), other, 0) == slot_from(s, other, 0),
        ({
            let i = slot_from(s, other, 0)->0;
            0 <= i < s.len() && bound(s, name, value)[i] == s[i] && i < bound(
                s,
                name,
                value,
            ).len()
        }),
{
    let i = slot_from(s, other, 0)->0;
    slot_from_is_exact(s, other, 0);
    slot_from_is_exact(s, name, 0);
    first_slots_count(s, other, 0, i);
    let b = bound(s, name, value);
    assert forall|j: int| 0 <= j < i implies (#[trigger] b[j]).0 != other by {
        assert(s[j].0 != other);
    }
    first_slots_count_at(b, other, 0, i);
}

} // verus!
