//! Captures: the named groups of a pattern that took part in a match, with
//! the text each one matched.

use vstd::prelude::*;

verus! {

/// The contents of one capture group.
#[derive(Clone, Debug, PartialEq, Eq)]
pub struct Cap {
    pub name: String,
    pub value: String,
}

/// The mathematical value of a `Cap`.
pub struct CapModel {
    pub name: Seq<char>,
    pub value: Seq<char>,
}

impl View for Cap {
    type V = CapModel;

    open spec fn view(&self) -> CapModel {
        CapModel { name: self.name@, value: self.value@ }
    }
}

impl DeepView for Cap {
    type V = CapModel;

    open spec fn deep_view(&self) -> CapModel {
        self@
    }
}

/// What came of the groups of a pattern in one match.
#[derive(Clone, Debug, PartialEq, Eq)]
pub struct Extraction {
    /// The captures, in the order in which the pattern declares the groups.
    pub captures: Vec<Cap>,
    /// The names of the groups that took no part in the match.
    pub missing: Vec<String>,
}

/// What group `index` matched; absent where it took no part in the match.
pub open spec fn group_value(values: Seq<Option<Seq<char>>>, index: int) -> Option<Seq<char>> {
    if 0 <= index < values.len() {
        values[index]
    } else {
        None
    }
}

/// Whether group `index` has a name and took part in the match.
pub open spec fn took_part(
    names: Seq<Option<Seq<char>>>,
    values: Seq<Option<Seq<char>>>,
    index: int,
) -> bool {
    0 <= index < names.len() && names[index] is Some && group_value(values, index) is Some
}

/// The captures of the first `count` groups.
pub open spec fn captured(
    names: Seq<Option<Seq<char>>>,
    values: Seq<Option<Seq<char>>>,
    count: int,
) -> Seq<CapModel>
    decreases count,
{
    if count <= 0 {
        Seq::empty()
    } else if took_part(names, values, count - 1) {
        captured(names, values, count - 1).push(
            CapModel { name: names[count - 1]->0, value: group_value(values, count - 1)->0 },
        )
    } else {
        captured(names, values, count - 1)
    }
}

/// The names, among the first `count` groups, of those that have a name and
/// took no part in the match.
pub open spec fn unmatched(
    names: Seq<Option<Seq<char>>>,
    values: Seq<Option<Seq<char>>>,
    count: int,
) -> Seq<Seq<char>>
    decreases count,
{
    if count <= 0 {
        Seq::empty()
    } else if 0 <= count - 1 < names.len() && names[count - 1] is Some && group_value(
        values,
        count - 1,
    ) is None {
        unmatched(names, values, count - 1).push(names[count - 1]->0)
    } else {
        unmatched(names, values, count - 1)
    }
}

/// The indices, among the first `count` groups, of those that have a name
/// and took part in the match, in rising order.
pub open spec fn capture_sources(
    names: Seq<Option<Seq<char>>>,
    values: Seq<Option<Seq<char>>>,
    count: int,
) -> Seq<int>
    decreases count,
{
    if count <= 0 {
        Seq::empty()
    } else if took_part(names, values, count - 1) {
        capture_sources(names, values, count - 1).push(count - 1)
    } else {
        capture_sources(names, values, count - 1)
    }
}

/// Pairs the names of a pattern's groups with what the groups matched.
///
/// `names` and `values` run over the groups in the same order. A group
/// without a name is passed over; a named group with a value becomes a
/// capture; a named group without one is listed as missing.
pub fn extract_captures(names: &Vec<Option<String>>, values: &Vec<Option<String>>) -> (r:
    Extraction)
    ensures
        r.captures.deep_view() == captured(
            names.deep_view(),
            values.deep_view(),
            names.len() as int,
        ),
        r.missing.deep_view() == unmatched(
            names.deep_view(),
            values.deep_view(),
            names.len() as int,
        ),
{
    let mut captures: Vec<Cap> = Vec::new();
    let mut missing: Vec<String> = Vec::new();
    let mut i: usize = 0;
    while i < names.len()
        invariant
            i <= names.len(),
            captures.deep_view() == captured(names.deep_view(), values.deep_view(), i as int),
            missing.deep_view() == unmatched(names.deep_view(), values.deep_view(), i as int),
        decreases names.len() - i,
    {
        match &names[i] {
            None => {},
            Some(name) => {
                if i < values.len() {
                    match &values[i] {
                        Some(value) => {
                            captures.push(Cap { name: name.clone(), value: value.clone() });
                        },
                        None => {
                            missing.push(name.clone());
                        },
                    }
                } else {
                    missing.push(name.clone());
                }
            },
        }
        i += 1;
    }
    Extraction { captures, missing }
}

/// The captures are exactly the named groups that took part in the match,
/// in the order of the groups: capture `k` has the name and the value of
/// group `capture_sources[k]`, the sources rise, and a group is a source
/// exactly when it has a name and took part.
pub proof fn lemma_captures_are_the_matched_groups(
    names: Seq<Option<Seq<char>>>,
    values: Seq<Option<Seq<char>>>,
    count: int,
)
    requires
        0 <= count <= names.len(),
    ensures
        captured(names, values, count).len() == capture_sources(names, values, count).len(),
        forall|k: int|
            0 <= k < capture_sources(names, values, count).len() ==> {
                let source = #[trigger] capture_sources(names, values, count)[k];
                &&& 0 <= source < count
                &&& took_part(names, values, source)
                &&& names[source] == Some(captured(names, values, count)[k].name)
                &&& group_value(values, source) == Some(captured(names, values, count)[k].value)
            },
        forall|j: int, k: int|
            0 <= j < k < capture_sources(names, values, count).len() ==> capture_sources(
                names,
                values,
                count,
            )[j] < capture_sources(names, values, count)[k],
        forall|i: int|
            0 <= i < count && took_part(names, values, i) ==> capture_sources(
                names,
                values,
                count,
            ).contains(i),
    decreases count,
{
    if count > 0 {
        lemma_captures_are_the_matched_groups(names, values, count - 1);
        let before = capture_sources(names, values, count - 1);
        let now = capture_sources(names, values, count);
        if took_part(names, values, count - 1) {
            assert forall|i: int|
                0 <= i < count && took_part(names, values, i) implies now.contains(i) by {
                if i < count - 1 {
                    let k = choose|k: int| 0 <= k < before.len() && before[k] == i;
                    assert(now[k] == i);
                } else {
                    assert(now[now.len() - 1] == i);
                }
            }
        }
    }
}

/// Every capture bears the name of a group of the pattern, and holds what
/// that group matched.
pub proof fn lemma_capture_names_are_group_names(
    names: Seq<Option<Seq<char>>>,
    values: Seq<Option<Seq<char>>>,
    k: int,
)
    requires
        0 <= k < captured(names, values, names.len() as int).len(),
    ensures
        exists|i: int|
            0 <= i < names.len() && #[trigger] names[i] == Some(
                captured(names, values, names.len() as int)[k].name,
            ) && group_value(values, i) == Some(
                captured(names, values, names.len() as int)[k].value,
            ),
{
    lemma_captures_are_the_matched_groups(names, values, names.len() as int);
    let source = capture_sources(names, values, names.len() as int)[k];
    assert(names[source] == Some(captured(names, values, names.len() as int)[k].name));
}

/// Where no two groups share a name, no capture bears the name of a group
/// that took no part in the match.
pub proof fn lemma_absent_groups_are_left_out(
    names: Seq<Option<Seq<char>>>,
    values: Seq<Option<Seq<char>>>,
    absent: int,
)
    requires
        forall|a: int, b: int|
            0 <= a < b < names.len() && names[a] is Some ==> names[a] != names[b],
        0 <= absent < names.len(),
        names[absent] is Some,
        group_value(values, absent) is None,
    ensures
        forall|k: int|
            0 <= k < captured(names, values, names.len() as int).len() ==> Some(
                #[trigger] captured(names, values, names.len() as int)[k].name,
            ) != names[absent],
{
    lemma_captures_are_the_matched_groups(names, values, names.len() as int);
    assert forall|k: int| 0 <= k < captured(names, values, names.len() as int).len() implies Some(
        #[trigger] captured(names, values, names.len() as int)[k].name,
    ) != names[absent] by {
        let source = capture_sources(names, values, names.len() as int)[k];
        assert(took_part(names, values, source));
        if source < absent {
            assert(names[source] != names[absent]);
        } else {
            assert(names[absent] != names[source]);
        }
    }
}

} // verus!
