//! Names with values.

use vstd::prelude::*;
use crate::text::same_text;

verus! {

/// Names with values, as pairs of texts.
pub open spec fn label_views(labels: Seq<(String, String)>) -> Seq<(Seq<char>, Seq<char>)> {
    Seq::new(labels.len(), |i: int| (labels[i].0@, labels[i].1@))
}

/// The value of a label: the first one of its name.
pub open spec fn label_of(labels: Seq<(Seq<char>, Seq<char>)>, name: Seq<char>) -> Option<Seq<char>>
    decreases labels.len(),
{
    if labels.len() == 0 {
        None
    } else if labels[0].0 == name {
        Some(labels[0].1)
    } else {
        label_of(labels.skip(1), name)
    }
}

proof fn lemma_label_at(labels: Seq<(Seq<char>, Seq<char>)>, name: Seq<char>, i: int)
    requires
        0 <= i <= labels.len(),
        i < labels.len() ==> labels[i].0 == name,
        forall|j: int| 0 <= j < i ==> (#[trigger] labels[j]).0 != name,
    ensures
        label_of(labels, name) == if i < labels.len() {
            Some(labels[i].1)
        } else {
            None
        },
    decreases labels.len(),
{
    if labels.len() > 0 && i > 0 {
        let rest = labels.skip(1);
        assert(labels[0].0 != name);
        assert forall|j: int| 0 <= j < i - 1 implies (#[trigger] rest[j]).0 != name by {
            assert(rest[j] == labels[j + 1]);
        }
        lemma_label_at(rest, name, i - 1);
    }
}

/// The value of a label.
pub fn label<'a>(labels: &'a Vec<(String, String)>, name: &str) -> (r: Option<&'a String>)
    ensures
        match r {
            Some(value) => label_of(label_views(labels@), name@) == Some(value@),
            None => label_of(label_views(labels@), name@) is None,
        },
{
    let ghost all = label_views(labels@);
    let mut i: usize = 0;
    while i < labels.len()
        invariant
            i <= labels@.len(),
            all == label_views(labels@),
            forall|j: int| 0 <= j < i ==> (#[trigger] all[j]).0 != name@,
        decreases labels.len() - i,
    {
        assert(all[i as int].0 == labels@[i as int].0@);
        if same_text(labels[i].0.as_str(), name) {
            proof {
                lemma_label_at(all, name@, i as int);
            }
            return Some(&labels[i].1);
        }
        i += 1;
    }
    proof {
        lemma_label_at(all, name@, i as int);
    }
    None
}

/// The label has this value.
pub open spec fn labelled(
    labels: Seq<(Seq<char>, Seq<char>)>,
    name: Seq<char>,
    value: Seq<char>,
) -> bool {
    label_of(labels, name) == Some(value)
}

/// Whether a label has a value.
pub fn has_label(labels: &Vec<(String, String)>, name: &str, value: &str) -> (r: bool)
    ensures
        r == labelled(label_views(labels@), name@, value@),
{
    match label(labels, name) {
        Some(found) => same_text(found.as_str(), value),
        None => false,
    }
}

/// The value of a name is the one that stands with it first, and a name that stands
/// nowhere has none.
pub proof fn law_the_first_label_counts(
    labels: Seq<(Seq<char>, Seq<char>)>,
    name: Seq<char>,
    i: int,
)
    requires
        0 <= i <= labels.len(),
        forall|j: int| 0 <= j < i ==> (#[trigger] labels[j]).0 != name,
    ensures
        i < labels.len() && labels[i].0 == name ==> label_of(labels, name) == Some(labels[i].1),
        i == labels.len() ==> label_of(labels, name) is None,
    decreases labels.len(),
{
    if labels.len() > 0 && i > 0 {
        let rest = labels.skip(1);
        assert(labels[0].0 != name);
        assert forall|j: int| 0 <= j < i - 1 implies (#[trigger] rest[j]).0 != name by {
            assert(rest[j] == labels[j + 1]);
        }
        law_the_first_label_counts(rest, name, i - 1);
        if i < labels.len() {
            assert(rest[i - 1] == labels[i]);
        }
    }
}

} // verus!
