//! The node's series in a Prometheus registry.
//!
//! A registry and its families are one thing here, as the registry shows what the
//! families count. What a family was told, and in which order, is stated, and that
//! the number of labels fits, without which Prometheus panics. What is shown
//! follows: which families, which series, and the count, the level or the number of
//! observations of each. The sums of observations and how they fall into buckets
//! are floating point, and left out.
//!
//! Prometheus finds a series by a hash of its label values, and tells families apart
//! by a hash of their names. Nothing is stated of what the hashes are: a series
//! shows what was told of all labels with its hash, and a family is taken unless its
//! hash is that of another one.

use vstd::prelude::*;
use prometheus::proto::MetricFamily;
use prometheus::{
    HistogramOpts, HistogramVec, IntCounterVec, IntGaugeVec, Opts, Registry, TextEncoder,
};
use std::time::Duration;
use crate::metrics::{
    all_series, outcome_changes, outcome_updates, single, update_views, zero_series, Change,
    Family, MetricUpdate, RuntimeGauges, Scope, UpdateView,
};
use crate::node::ForwardCount;
use crate::text::{before, law_text_order, numeral};
use crate::time::{nanos, span};
use crate::types::TaskOutcome;

verus! {

/// The type `prometheus::proto::MetricFamily`.
#[verifier::external_type_specification]
#[verifier::external_body]
pub struct ExMetricFamily(MetricFamily);

/// A `prometheus::IntCounterVec`: counts by label values.
#[verifier::external_body]
pub struct Counts {
    inner: IntCounterVec,
}

/// A `prometheus::HistogramVec`: distributions by label values.
#[verifier::external_body]
pub struct Durations {
    inner: HistogramVec,
}

/// A `prometheus::IntGaugeVec`: levels by label values.
#[verifier::external_body]
pub struct Levels {
    inner: IntGaugeVec,
}

/// What a family was made with. Bounds are in microseconds, and only families of
/// durations have them.
pub struct Made {
    pub name: Seq<char>,
    pub help: Seq<char>,
    pub labels: Seq<Seq<char>>,
    pub bounds: Seq<u64>,
}

/// What a family of counts was made with.
pub uninterp spec fn counts_made(family: Counts) -> Made;

/// What a family of durations was made with.
pub uninterp spec fn durations_made(family: Durations) -> Made;

/// What a family of levels was made with.
pub uninterp spec fn levels_made(family: Levels) -> Made;

/// What a family is told of a series.
pub enum Told {
    /// Its count goes up.
    Added(u64),
    /// It comes into being.
    Touched,
    /// A duration, in nanoseconds.
    Observed(nat),
    /// Its level.
    Leveled(i64),
}

/// Something that a family was told: of the series with these label values, which
/// Prometheus finds by their hash.
pub struct Entry {
    pub id: u64,
    pub labels: Seq<Seq<char>>,
    pub told: Told,
}

/// A family in a registry: what it was made with, and what it was told, in order.
pub struct FamilyView {
    pub made: Made,
    pub log: Seq<Entry>,
}

/// A `prometheus::Registry`, with the families that were registered with it.
#[verifier::external_body]
pub struct MetricSet {
    registry: Registry,
    counts: Vec<IntCounterVec>,
    durations: Vec<HistogramVec>,
    levels: Vec<IntGaugeVec>,
}

/// What the families of a set were made with, in the order in which its registry
/// took them.
pub uninterp spec fn registered(set: MetricSet) -> Seq<Made>;

/// The families of counts in a set.
pub uninterp spec fn counts_in(set: MetricSet) -> Seq<FamilyView>;

/// The families of durations in a set.
pub uninterp spec fn durations_in(set: MetricSet) -> Seq<FamilyView>;

/// The families of levels in a set.
pub uninterp spec fn levels_in(set: MetricSet) -> Seq<FamilyView>;

pub open spec fn nothing_registered() -> Seq<Made> {
    Seq::empty()
}

pub open spec fn no_families() -> Seq<FamilyView> {
    Seq::empty()
}

/// A family that was told nothing yet.
pub open spec fn fresh(made: Made) -> FamilyView {
    FamilyView { made, log: Seq::empty() }
}

/// Families of which one was told something more.
pub open spec fn told_more(families: Seq<FamilyView>, i: int, entry: Entry) -> Seq<FamilyView> {
    families.update(
        i,
        FamilyView { made: families[i].made, log: families[i].log.push(entry) },
    )
}

/// The hash by which Prometheus finds the series of label values: of their texts, one
/// after the other.
pub uninterp spec fn series_id(labels: Seq<Seq<char>>) -> u64;

/// The `id` that Prometheus gives the `Desc` of a family with the name and without
/// constant labels: a hash of the name.
pub uninterp spec fn descriptor_id(name: Seq<char>) -> u64;

/// No two families have the same `id`, so that one registry takes them all.
pub open spec fn ids_apart(families: Seq<Made>) -> bool {
    forall|i: int, j: int|
        0 <= i < j < families.len() ==> descriptor_id((#[trigger] families[i]).name)
            != descriptor_id((#[trigger] families[j]).name)
}

/// The family has a series.
pub open spec fn has_series(families: Seq<FamilyView>, name: Seq<char>) -> bool {
    exists|i: int|
        0 <= i < families.len() && (#[trigger] families[i]).made.name == name
            && families[i].log.len() > 0
}

/// The names of the families of a set that have a series.
pub open spec fn live(
    counts: Seq<FamilyView>,
    durations: Seq<FamilyView>,
    levels: Seq<FamilyView>,
) -> Set<Seq<char>> {
    Set::new(
        |name: Seq<char>|
            has_series(counts, name) || has_series(durations, name) || has_series(levels, name),
    )
}

/// Some family has the name.
pub open spec fn named(families: Seq<Made>, name: Seq<char>) -> bool {
    exists|i: int| 0 <= i < families.len() && (#[trigger] families[i]).name == name
}

/// What `MetricFamily::name` says.
pub uninterp spec fn family_name(family: MetricFamily) -> Seq<char>;

/// Whether `MetricFamily::get_field_type` says that the family has no type.
pub uninterp spec fn is_untyped(family: MetricFamily) -> bool;

/// The series of a family, by their labels and the values of them: the value of a
/// counter or a gauge, or the sample count of a histogram. Values are doubles, and
/// whole numbers up to 2^53 are told apart.
pub uninterp spec fn family_samples(family: MetricFamily) -> Map<Seq<(Seq<char>, Seq<char>)>, int>;

/// The whole numbers that a double tells apart.
pub open spec fn is_exact(n: int) -> bool {
    -0x20_0000_0000_0000 <= n <= 0x20_0000_0000_0000
}

/// Labels with one more, in the order of their names.
pub open spec fn with_label(
    labels: Seq<(Seq<char>, Seq<char>)>,
    label: (Seq<char>, Seq<char>),
) -> Seq<(Seq<char>, Seq<char>)>
    decreases labels.len(),
{
    if labels.len() == 0 || before(labels.last().0, label.0) {
        labels.push(label)
    } else {
        with_label(labels.drop_last(), label).push(labels.last())
    }
}

/// The names of labels with their values, in the order of the names.
pub open spec fn label_pairs(names: Seq<Seq<char>>, values: Seq<Seq<char>>) -> Seq<
    (Seq<char>, Seq<char>),
>
    decreases names.len(),
{
    if names.len() == 0 {
        Seq::empty()
    } else {
        with_label(
            label_pairs(names.drop_last(), values.drop_last()),
            (names.last(), values.last()),
        )
    }
}

/// The value of a label as it is written: quotes, backslashes and ends of lines are
/// escaped.
pub open spec fn escaped_value(value: Seq<char>) -> Seq<char>
    decreases value.len(),
{
    if value.len() == 0 {
        Seq::empty()
    } else {
        let c = value.last();
        escaped_value(value.drop_last()) + if c == '\\' || c == '"' {
            seq!['\\', c]
        } else if c == '\n' {
            seq!['\\', 'n']
        } else {
            seq![c]
        }
    }
}

/// Labels as they are written, with commas between them.
pub open spec fn labels_text(labels: Seq<(Seq<char>, Seq<char>)>) -> Seq<char>
    decreases labels.len(),
{
    if labels.len() == 0 {
        Seq::empty()
    } else {
        let label = labels.last().0 + seq!['=', '"'] + escaped_value(labels.last().1) + seq!['"'];
        if labels.len() == 1 {
            label
        } else {
            labels_text(labels.drop_last()) + seq![','] + label
        }
    }
}

/// A whole number with its sign.
pub open spec fn signed_numeral(n: int) -> Seq<char> {
    if n < 0 {
        seq!['-'] + numeral((-n) as nat)
    } else {
        numeral(n as nat)
    }
}

/// The line of a series that has labels.
pub open spec fn sample_line(
    name: Seq<char>,
    labels: Seq<(Seq<char>, Seq<char>)>,
    value: int,
) -> Seq<char> {
    name + seq!['{'] + labels_text(labels) + seq!['}', ' '] + signed_numeral(value) + seq!['\n']
}

/// The text has the line.
pub open spec fn has_line(text: Seq<char>, line: Seq<char>) -> bool {
    exists|at: int| #[trigger] has_line_at(text, line, at)
}

/// The text has the line at a place, behind the end of another.
pub open spec fn has_line_at(text: Seq<char>, line: Seq<char>, at: int) -> bool {
    0 < at <= at + line.len() <= text.len() && text[at - 1] == '\n' && text.subrange(
        at,
        at + line.len(),
    ) == line
}

/// What a series came to that was told the entries with its hash: the sum of what was
/// added, the number of observations, or the last level.
pub open spec fn value_of(log: Seq<Entry>, id: u64) -> int
    decreases log.len(),
{
    if log.len() == 0 {
        0
    } else {
        let before = value_of(log.drop_last(), id);
        if log.last().id != id {
            before
        } else {
            match log.last().told {
                Told::Added(by) => before + by,
                Told::Touched => before,
                Told::Observed(_) => before + 1,
                Told::Leveled(value) => value as int,
            }
        }
    }
}

/// The entry brought its series into being, whose labels it gave.
pub open spec fn is_first(log: Seq<Entry>, k: int) -> bool {
    0 <= k < log.len() && forall|j: int| 0 <= j < k ==> (#[trigger] log[j]).id != log[k].id
}

/// The series are those that the family was told of, with what they came to, and the
/// text has a line of each under the name.
pub open spec fn shows_series(
    samples: Map<Seq<(Seq<char>, Seq<char>)>, int>,
    text: Option<Seq<char>>,
    name: Seq<char>,
    family: FamilyView,
) -> bool {
    let names = family.made.labels;
    let log = family.log;
    &&& forall|k: int| #[trigger]
        is_first(log, k) ==> samples.contains_key(label_pairs(names, log[k].labels)) && (is_exact(
            value_of(log, log[k].id),
        ) ==> samples[label_pairs(names, log[k].labels)] == value_of(log, log[k].id))
    &&& forall|labels: Seq<(Seq<char>, Seq<char>)>| #[trigger]
        samples.contains_key(labels) ==> exists|k: int| #[trigger]
            is_first(log, k) && label_pairs(names, log[k].labels) == labels
    &&& text is Some && names.len() > 0 ==> forall|k: int| #[trigger]
        is_first(log, k) && is_exact(value_of(log, log[k].id)) ==> has_line(
            text->0,
            sample_line(name, label_pairs(names, log[k].labels), value_of(log, log[k].id)),
        )
}

/// The name under which the number of observations of a family is written.
pub open spec fn count_name(name: Seq<char>) -> Seq<char> {
    name + seq!['_', 'c', 'o', 'u', 'n', 't']
}

/// What `TextEncoder` writes of one family, or nothing where it refuses it.
pub uninterp spec fn family_text(family: MetricFamily) -> Option<Seq<char>>;

/// The texts of the families, one after the other; nothing if one is refused.
pub open spec fn exposition(families: Seq<MetricFamily>) -> Option<Seq<char>>
    decreases families.len(),
{
    if families.len() == 0 {
        Some(Seq::empty())
    } else {
        match (exposition(families.drop_last()), family_text(families.last())) {
            (Some(text), Some(last)) => Some(text + last),
            _ => None,
        }
    }
}

/// The encoder takes the families.
pub open spec fn writable(families: Seq<MetricFamily>) -> bool {
    forall|i: int|
        0 <= i < families.len() ==> !is_untyped(#[trigger] families[i]) && family_text(
            families[i],
        ) is Some
}

proof fn lemma_writable(families: Seq<MetricFamily>)
    requires
        writable(families),
    ensures
        exposition(families) is Some,
    decreases families.len(),
{
    if families.len() > 0 {
        assert forall|i: int| 0 <= i < families.drop_last().len() implies !is_untyped(
            #[trigger] families.drop_last()[i],
        ) && family_text(families.drop_last()[i]) is Some by {
            assert(families.drop_last()[i] == families[i]);
        }
        lemma_writable(families.drop_last());
        assert(families.last() == families[families.len() - 1]);
    }
}

/// The families of a registry that have series, each once and in the order of
/// their names: all of the names in `live`, and none but those that were
/// registered.
pub open spec fn listed(
    registered: Seq<Made>,
    live: Set<Seq<char>>,
    families: Seq<MetricFamily>,
) -> bool {
    &&& forall|i: int|
        0 <= i < families.len() ==> named(registered, family_name(#[trigger] families[i]))
            && live.contains(family_name(families[i]))
    &&& forall|name: Seq<char>| #[trigger]
        live.contains(name) ==> exists|i: int|
            0 <= i < families.len() && family_name(#[trigger] families[i]) == name
    &&& forall|i: int, j: int|
        0 <= i < j < families.len() ==> before(
            family_name(#[trigger] families[i]),
            family_name(#[trigger] families[j]),
        )
}

/// Label values as texts.
pub open spec fn label_texts(labels: Seq<&str>) -> Seq<Seq<char>> {
    Seq::new(labels.len(), |i: int| labels[i]@)
}

/// What a family without bounds is made with.
pub open spec fn made(name: Seq<char>, help: Seq<char>, labels: Seq<Seq<char>>) -> Made {
    Made { name, help, labels, bounds: Seq::empty() }
}

/// An ASCII letter or an underscore.
pub open spec fn is_letter(c: char) -> bool {
    'a' <= c <= 'z' || 'A' <= c <= 'Z' || c == '_'
}

pub open spec fn is_digit(c: char) -> bool {
    '0' <= c <= '9'
}

/// Letters and digits, of which a letter comes first.
pub open spec fn is_label_name(name: Seq<char>) -> bool {
    &&& name.len() > 0
    &&& !is_digit(name[0])
    &&& forall|i: int| 0 <= i < name.len() ==> is_letter(#[trigger] name[i]) || is_digit(name[i])
}

/// Letters, colons and digits, of which no digit comes first.
pub open spec fn is_metric_name(name: Seq<char>) -> bool {
    &&& name.len() > 0
    &&& !is_digit(name[0])
    &&& forall|i: int|
        0 <= i < name.len() ==> is_letter(#[trigger] name[i]) || name[i] == ':' || is_digit(name[i])
}

/// A family can have the name, the help text and the label names: there is a help
/// text, the names are well spelled, and no two labels have the same name.
pub open spec fn describable(name: Seq<char>, help: Seq<char>, labels: Seq<Seq<char>>) -> bool {
    &&& help.len() > 0
    &&& is_metric_name(name)
    &&& forall|i: int| 0 <= i < labels.len() ==> is_label_name(#[trigger] labels[i])
    &&& labels.no_duplicates()
}

/// `IntCounterVec::new`: a family with the given name, help text and label names.
/// None just where `Desc::new` refuses them, which looks at the spelling of the
/// names, at labels that occur twice and at an empty help text.
#[verifier::external_body]
fn new_counts(name: &str, help: &str, labels: &[&str]) -> (r: Option<Counts>)
    ensures
        r is Some <==> describable(name@, help@, label_texts(labels@)),
        r matches Some(family) ==> counts_made(family) == made(
            name@,
            help@,
            label_texts(labels@),
        ),
{
    let inner = IntCounterVec::new(Opts::new(name, help), labels).ok()?;
    Some(Counts { inner })
}

/// Bounds in microseconds that rise, up to one that seconds still tell from the
/// next in double precision.
pub open spec fn rising(bounds: Seq<u64>) -> bool {
    &&& forall|i: int, j: int| 0 <= i < j < bounds.len() ==> bounds[i] < bounds[j]
    &&& forall|i: int| 0 <= i < bounds.len() ==> #[trigger] bounds[i] <= 1_000_000_000_000
}

/// `HistogramVec::new`: a family with the given label names and upper bounds,
/// here in microseconds. None just where `Desc::new` refuses the names or the help
/// text; the bounds are not looked at before a series comes into being. No series
/// comes into being of bounds that do not rise, nor with a label `le`.
#[verifier::external_body]
fn new_durations(name: &str, help: &str, bounds: &[u64], labels: &[&str]) -> (r: Option<Durations>)
    requires
        rising(bounds@),
        !label_texts(labels@).contains("le"@),
    ensures
        r is Some <==> describable(name@, help@, label_texts(labels@)),
        r matches Some(family) ==> durations_made(family) == (Made {
            name: name@,
            help: help@,
            labels: label_texts(labels@),
            bounds: bounds@,
        }),
{
    let bounds = bounds.iter().map(|b| Duration::from_micros(*b).as_secs_f64()).collect();
    let opts = HistogramOpts::new(name, help).buckets(bounds);
    let inner = HistogramVec::new(opts, labels).ok()?;
    Some(Durations { inner })
}

/// `IntGaugeVec::new`: a family with the given name, help text and label names.
/// None just where `Desc::new` refuses them.
#[verifier::external_body]
fn new_levels(name: &str, help: &str, labels: &[&str]) -> (r: Option<Levels>)
    ensures
        r is Some <==> describable(name@, help@, label_texts(labels@)),
        r matches Some(family) ==> levels_made(family) == made(
            name@,
            help@,
            label_texts(labels@),
        ),
{
    let inner = IntGaugeVec::new(Opts::new(name, help), labels).ok()?;
    Some(Levels { inner })
}

/// `Registry::new`: a registry without families.
#[verifier::external_body]
fn new_set() -> (r: MetricSet)
    ensures
        registered(r) == nothing_registered(),
        counts_in(r) == no_families(),
        durations_in(r) == no_families(),
        levels_in(r) == no_families(),
{
    MetricSet {
        registry: Registry::new(),
        counts: Vec::new(),
        durations: Vec::new(),
        levels: Vec::new(),
    }
}

/// `Registry::register` for counts: whether Prometheus took the family, which the set
/// then holds. It takes one whose descriptor has an `id` that none of those it holds
/// has.
#[verifier::external_body]
fn register_counts(set: &mut MetricSet, family: Counts) -> (r: bool)
    ensures
        r <==> forall|i: int|
            0 <= i < registered(*old(set)).len() ==> descriptor_id(
                (#[trigger] registered(*old(set))[i]).name,
            ) != descriptor_id(counts_made(family).name),
        r ==> registered(*final(set)) == registered(*old(set)).push(counts_made(family)),
        r ==> counts_in(*final(set)) == counts_in(*old(set)).push(fresh(counts_made(family))),
        !r ==> registered(*final(set)) == registered(*old(set)),
        !r ==> counts_in(*final(set)) == counts_in(*old(set)),
        durations_in(*final(set)) == durations_in(*old(set)),
        levels_in(*final(set)) == levels_in(*old(set)),
{
    let taken = set.registry.register(Box::new(family.inner.clone())).is_ok();
    if taken {
        set.counts.push(family.inner);
    }
    taken
}

/// `Registry::register` for durations: whether Prometheus took the family, which the set
/// then holds. It takes one whose descriptor has an `id` that none of those it holds
/// has.
#[verifier::external_body]
fn register_durations(set: &mut MetricSet, family: Durations) -> (r: bool)
    ensures
        r <==> forall|i: int|
            0 <= i < registered(*old(set)).len() ==> descriptor_id(
                (#[trigger] registered(*old(set))[i]).name,
            ) != descriptor_id(durations_made(family).name),
        r ==> registered(*final(set)) == registered(*old(set)).push(durations_made(family)),
        r ==> durations_in(*final(set)) == durations_in(*old(set)).push(fresh(durations_made(family))),
        !r ==> registered(*final(set)) == registered(*old(set)),
        !r ==> durations_in(*final(set)) == durations_in(*old(set)),
        counts_in(*final(set)) == counts_in(*old(set)),
        levels_in(*final(set)) == levels_in(*old(set)),
{
    let taken = set.registry.register(Box::new(family.inner.clone())).is_ok();
    if taken {
        set.durations.push(family.inner);
    }
    taken
}

/// `Registry::register` for levels: whether Prometheus took the family, which the set
/// then holds. It takes one whose descriptor has an `id` that none of those it holds
/// has.
#[verifier::external_body]
fn register_levels(set: &mut MetricSet, family: Levels) -> (r: bool)
    ensures
        r <==> forall|i: int|
            0 <= i < registered(*old(set)).len() ==> descriptor_id(
                (#[trigger] registered(*old(set))[i]).name,
            ) != descriptor_id(levels_made(family).name),
        r ==> registered(*final(set)) == registered(*old(set)).push(levels_made(family)),
        r ==> levels_in(*final(set)) == levels_in(*old(set)).push(fresh(levels_made(family))),
        !r ==> registered(*final(set)) == registered(*old(set)),
        !r ==> levels_in(*final(set)) == levels_in(*old(set)),
        counts_in(*final(set)) == counts_in(*old(set)),
        durations_in(*final(set)) == durations_in(*old(set)),
{
    let taken = set.registry.register(Box::new(family.inner.clone())).is_ok();
    if taken {
        set.levels.push(family.inner);
    }
    taken
}

/// `IntCounterVec::with_label_values` and `inc_by`: the count of the labels goes
/// up. Panics unless there are as many labels as the family has.
#[verifier::external_body]
fn count(set: &mut MetricSet, i: usize, labels: &[&str], by: u64)
    requires
        i < counts_in(*old(set)).len(),
        labels@.len() == counts_in(*old(set))[i as int].made.labels.len(),
    ensures
        counts_in(*final(set)) == told_more(
            counts_in(*old(set)),
            i as int,
            (Entry {
                id: series_id(label_texts(labels@)),
                labels: label_texts(labels@),
                told: Told::Added(by),
            }),
        ),
        registered(*final(set)) == registered(*old(set)),
        durations_in(*final(set)) == durations_in(*old(set)),
        levels_in(*final(set)) == levels_in(*old(set)),
{
    set.counts[i].with_label_values(labels).inc_by(by)
}

/// `HistogramVec::get_metric_with_label_values`: the distribution of the labels
/// comes into being.
#[verifier::external_body]
fn touch(set: &mut MetricSet, i: usize, labels: &[&str])
    requires
        i < durations_in(*old(set)).len(),
        labels@.len() == durations_in(*old(set))[i as int].made.labels.len(),
    ensures
        durations_in(*final(set)) == told_more(
            durations_in(*old(set)),
            i as int,
            (Entry {
                id: series_id(label_texts(labels@)),
                labels: label_texts(labels@),
                told: Told::Touched,
            }),
        ),
        registered(*final(set)) == registered(*old(set)),
        counts_in(*final(set)) == counts_in(*old(set)),
        levels_in(*final(set)) == levels_in(*old(set)),
{
    let _ = set.durations[i].get_metric_with_label_values(labels);
}

/// `HistogramVec::get_metric_with_label_values` and `observe`, in seconds.
#[verifier::external_body]
fn observe(set: &mut MetricSet, i: usize, labels: &[&str], duration: Duration)
    requires
        i < durations_in(*old(set)).len(),
        labels@.len() == durations_in(*old(set))[i as int].made.labels.len(),
    ensures
        durations_in(*final(set)) == told_more(
            durations_in(*old(set)),
            i as int,
            (Entry {
                id: series_id(label_texts(labels@)),
                labels: label_texts(labels@),
                told: Told::Observed(nanos(duration)),
            }),
        ),
        registered(*final(set)) == registered(*old(set)),
        counts_in(*final(set)) == counts_in(*old(set)),
        levels_in(*final(set)) == levels_in(*old(set)),
{
    let found = set.durations[i].get_metric_with_label_values(labels);
    let _ = found.map(|h| h.observe(duration.as_secs_f64()));
}

/// `IntGaugeVec::with_label_values` and `set`: the level of the labels. Panics
/// unless there are as many labels as the family has.
#[verifier::external_body]
fn set_level(set: &mut MetricSet, i: usize, labels: &[&str], value: i64)
    requires
        i < levels_in(*old(set)).len(),
        labels@.len() == levels_in(*old(set))[i as int].made.labels.len(),
    ensures
        levels_in(*final(set)) == told_more(
            levels_in(*old(set)),
            i as int,
            (Entry {
                id: series_id(label_texts(labels@)),
                labels: label_texts(labels@),
                told: Told::Leveled(value),
            }),
        ),
        registered(*final(set)) == registered(*old(set)),
        counts_in(*final(set)) == counts_in(*old(set)),
        durations_in(*final(set)) == durations_in(*old(set)),
{
    set.levels[i].with_label_values(labels).set(value)
}

/// `Registry::gather`: the families that have series, in the order of their names,
/// with the present values of their series, and what `TextEncoder` writes of them: a
/// line of each series. They have a name, a type and a series, so that the encoder
/// takes them. Nothing is said of the sums and the buckets of durations.
#[verifier::external_body]
fn gather_families(set: &MetricSet) -> (r: Vec<MetricFamily>)
    ensures
        listed(registered(*set), live(counts_in(*set), durations_in(*set), levels_in(*set)), r@),
        forall|i: int| 0 <= i < r@.len() ==> family_name(#[trigger] r@[i]).len() > 0,
        forall|i: int| 0 <= i < r@.len() ==> !is_untyped(#[trigger] r@[i]),
        forall|i: int| 0 <= i < r@.len() ==> family_text(#[trigger] r@[i]) is Some,
        forall|i: int, k: int|
            0 <= i < r@.len() && 0 <= k < counts_in(*set).len() && family_name(#[trigger] r@[i])
                == (#[trigger] counts_in(*set)[k]).made.name ==> shows_series(
                family_samples(r@[i]),
                family_text(r@[i]),
                counts_in(*set)[k].made.name,
                counts_in(*set)[k],
            ),
        forall|i: int, k: int|
            0 <= i < r@.len() && 0 <= k < durations_in(*set).len() && family_name(
                #[trigger] r@[i],
            ) == (#[trigger] durations_in(*set)[k]).made.name ==> shows_series(
                family_samples(r@[i]),
                family_text(r@[i]),
                count_name(durations_in(*set)[k].made.name),
                durations_in(*set)[k],
            ),
        forall|i: int, k: int|
            0 <= i < r@.len() && 0 <= k < levels_in(*set).len() && family_name(#[trigger] r@[i])
                == (#[trigger] levels_in(*set)[k]).made.name ==> shows_series(
                family_samples(r@[i]),
                family_text(r@[i]),
                levels_in(*set)[k].made.name,
                levels_in(*set)[k],
            ),
{
    set.registry.gather()
}

/// `TextEncoder::encode_to_string`: the families one after the other, or nothing
/// where it refuses one. Panics on a family without a type.
#[verifier::external_body]
fn encode_text(families: &Vec<MetricFamily>) -> (r: Option<String>)
    requires
        forall|i: int| 0 <= i < families@.len() ==> !is_untyped(#[trigger] families@[i]),
    ensures
        match r {
            Some(text) => exposition(families@) == Some(text@),
            None => exposition(families@) is None,
        },
{
    TextEncoder::new().encode_to_string(families).ok()
}

/// The series of a node.
pub struct NodeMetrics {
    set: MetricSet,
}

/// The text of the families; empty where Prometheus cannot write it.
pub fn encode_metric_families(families: &Vec<MetricFamily>) -> (r: String)
    requires
        forall|i: int| 0 <= i < families@.len() ==> !is_untyped(#[trigger] families@[i]),
    ensures
        r@ == match exposition(families@) {
            Some(text) => text,
            None => Seq::empty(),
        },
{
    match encode_text(families) {
        Some(text) => text,
        None => String::new(),
    }
}

/// The upper bounds of request durations, in microseconds.
pub fn latency_buckets() -> (r: Vec<u64>)
    ensures
        r@ == latency_bounds(),
{
    vec![
        5_000, 10_000, 25_000, 50_000, 75_000, 100_000, 150_000, 200_000, 300_000, 500_000,
        750_000, 1_000_000, 1_500_000, 2_000_000, 3_000_000, 5_000_000, 10_000_000,
    ]
}

pub open spec fn latency_bounds() -> Seq<u64> {
    seq![
        5_000, 10_000, 25_000, 50_000, 75_000, 100_000, 150_000, 200_000, 300_000, 500_000,
        750_000, 1_000_000, 1_500_000, 2_000_000, 3_000_000, 5_000_000, 10_000_000,
    ]
}

/// The upper bounds of render durations, in microseconds.
pub fn cpu_render_buckets() -> (r: Vec<u64>)
    ensures
        r@ == cpu_render_bounds(),
{
    vec![
        1_000, 2_500, 5_000, 10_000, 25_000, 50_000, 75_000, 100_000, 150_000, 200_000, 300_000,
        500_000, 750_000, 1_000_000, 1_500_000, 2_000_000, 3_000_000,
    ]
}

pub open spec fn cpu_render_bounds() -> Seq<u64> {
    seq![
        1_000, 2_500, 5_000, 10_000, 25_000, 50_000, 75_000, 100_000, 150_000, 200_000, 300_000,
        500_000, 750_000, 1_000_000, 1_500_000, 2_000_000, 3_000_000,
    ]
}

/// A family of counts with one label. None if Prometheus refuses its names.
fn one_label(name: &str, help: &str, label: &str) -> (r: Option<Counts>)
    ensures
        r is Some <==> describable(name@, help@, seq![label@]),
        r matches Some(family) ==> counts_made(family) == made(name@, help@, seq![label@]),
{
    let labels: [&str; 1] = [label];
    assert(label_texts(labels@) =~= seq![label@]);
    new_counts(name, help, labels.as_slice())
}

/// A family of counts with two labels. None if Prometheus refuses its names.
fn two_labels(name: &str, help: &str, a: &str, b: &str) -> (r: Option<Counts>)
    ensures
        r is Some <==> describable(name@, help@, seq![a@, b@]),
        r matches Some(family) ==> counts_made(family) == made(name@, help@, seq![a@, b@]),
{
    let labels: [&str; 2] = [a, b];
    assert(label_texts(labels@) =~= seq![a@, b@]);
    new_counts(name, help, labels.as_slice())
}

/// What the families of a node are made with.
pub open spec fn family_made(family: Family) -> Made {
    match family {
        Family::Completed => made(
            "biei_tasks_completed_total"@,
            "Completed tasks by ingress scope and route tier."@,
            seq!["scope"@, "route_tier"@],
        ),
        Family::Rejected => made(
            "biei_tasks_rejected_total"@,
            "Rejected tasks by ingress scope and reason."@,
            seq!["scope"@, "reason"@],
        ),
        Family::Failed => made(
            "biei_tasks_failed_total"@,
            "Failed tasks by ingress scope."@,
            seq!["scope"@],
        ),
        Family::RequestDuration => Made {
            name: "biei_request_duration_seconds"@,
            help: "End-to-end task duration from node arrival to completion."@,
            labels: seq!["scope"@, "route_tier"@],
            bounds: latency_bounds(),
        },
        Family::CpuRenderDuration => Made {
            name: "biei_cpu_render_duration_seconds"@,
            help: "CPU/GPU-heavy render-stage duration."@,
            labels: seq!["scope"@],
            bounds: cpu_render_bounds(),
        },
        Family::StyleSwaps => made(
            "biei_style_swaps_total"@,
            "Completed tasks that swapped style/profile."@,
            seq!["scope"@],
        ),
        Family::ColdStarts => made(
            "biei_cold_starts_total"@,
            "Completed tasks that used a cold renderer slot."@,
            seq!["scope"@],
        ),
        Family::SourceCache => made(
            "biei_source_cache_total"@,
            "Addlayer source cache hits and misses."@,
            seq!["outcome"@],
        ),
        Family::RenderOutputCache => made(
            "biei_render_output_cache_total"@,
            "Rendered image cache lookups and insertions."@,
            seq!["outcome"@],
        ),
        Family::Forwards => made(
            "biei_forwards_total"@,
            "Internal forward attempts by outcome."@,
            seq!["outcome"@],
        ),
        Family::AdmissionOverflow => made(
            "biei_admission_overflow_total"@,
            "Completed tasks admitted while the chosen worker was already at or above BL."@,
            seq!["scope"@],
        ),
        Family::DeadlineExceeded => made(
            "biei_deadline_exceeded_total"@,
            "Deadline rejections by worker stage."@,
            seq!["stage"@],
        ),
    }
}

/// Prometheus makes every family of a node: its names are well spelled and its help
/// text is not empty.
pub proof fn law_every_family_can_be_made(family: Family)
    ensures
        describable(
            family_made(family).name,
            family_made(family).help,
            family_made(family).labels,
        ),
{
    match family {
        Family::Completed => {
            reveal_strlit("biei_tasks_completed_total");
            reveal_strlit("Completed tasks by ingress scope and route tier.");
            reveal_strlit("scope");
            reveal_strlit("route_tier");
            assert(is_metric_name("biei_tasks_completed_total"@));
            assert(is_label_name("scope"@) && "scope"@.len() == 5);
            assert(is_label_name("route_tier"@) && "route_tier"@.len() == 10);
        },
        Family::Rejected => {
            reveal_strlit("biei_tasks_rejected_total");
            reveal_strlit("Rejected tasks by ingress scope and reason.");
            reveal_strlit("scope");
            reveal_strlit("reason");
            assert(is_metric_name("biei_tasks_rejected_total"@));
            assert(is_label_name("scope"@) && "scope"@.len() == 5);
            assert(is_label_name("reason"@) && "reason"@.len() == 6);
        },
        Family::Failed => {
            reveal_strlit("biei_tasks_failed_total");
            reveal_strlit("Failed tasks by ingress scope.");
            reveal_strlit("scope");
            assert(is_metric_name("biei_tasks_failed_total"@));
            assert(is_label_name("scope"@) && "scope"@.len() == 5);
        },
        Family::RequestDuration => {
            reveal_strlit("biei_request_duration_seconds");
            reveal_strlit("End-to-end task duration from node arrival to completion.");
            reveal_strlit("scope");
            reveal_strlit("route_tier");
            assert(is_metric_name("biei_request_duration_seconds"@));
            assert(is_label_name("scope"@) && "scope"@.len() == 5);
            assert(is_label_name("route_tier"@) && "route_tier"@.len() == 10);
        },
        Family::CpuRenderDuration => {
            reveal_strlit("biei_cpu_render_duration_seconds");
            reveal_strlit("CPU/GPU-heavy render-stage duration.");
            reveal_strlit("scope");
            assert(is_metric_name("biei_cpu_render_duration_seconds"@));
            assert(is_label_name("scope"@) && "scope"@.len() == 5);
        },
        Family::StyleSwaps => {
            reveal_strlit("biei_style_swaps_total");
            reveal_strlit("Completed tasks that swapped style/profile.");
            reveal_strlit("scope");
            assert(is_metric_name("biei_style_swaps_total"@));
            assert(is_label_name("scope"@) && "scope"@.len() == 5);
        },
        Family::ColdStarts => {
            reveal_strlit("biei_cold_starts_total");
            reveal_strlit("Completed tasks that used a cold renderer slot.");
            reveal_strlit("scope");
            assert(is_metric_name("biei_cold_starts_total"@));
            assert(is_label_name("scope"@) && "scope"@.len() == 5);
        },
        Family::SourceCache => {
            reveal_strlit("biei_source_cache_total");
            reveal_strlit("Addlayer source cache hits and misses.");
            reveal_strlit("outcome");
            assert(is_metric_name("biei_source_cache_total"@));
            assert(is_label_name("outcome"@) && "outcome"@.len() == 7);
        },
        Family::RenderOutputCache => {
            reveal_strlit("biei_render_output_cache_total");
            reveal_strlit("Rendered image cache lookups and insertions.");
            reveal_strlit("outcome");
            assert(is_metric_name("biei_render_output_cache_total"@));
            assert(is_label_name("outcome"@) && "outcome"@.len() == 7);
        },
        Family::Forwards => {
            reveal_strlit("biei_forwards_total");
            reveal_strlit("Internal forward attempts by outcome.");
            reveal_strlit("outcome");
            assert(is_metric_name("biei_forwards_total"@));
            assert(is_label_name("outcome"@) && "outcome"@.len() == 7);
        },
        Family::AdmissionOverflow => {
            reveal_strlit("biei_admission_overflow_total");
            reveal_strlit("Completed tasks admitted while the chosen worker was already at or above BL.");
            reveal_strlit("scope");
            assert(is_metric_name("biei_admission_overflow_total"@));
            assert(is_label_name("scope"@) && "scope"@.len() == 5);
        },
        Family::DeadlineExceeded => {
            reveal_strlit("biei_deadline_exceeded_total");
            reveal_strlit("Deadline rejections by worker stage.");
            reveal_strlit("stage");
            assert(is_metric_name("biei_deadline_exceeded_total"@));
            assert(is_label_name("stage"@) && "stage"@.len() == 5);
        },
    }
}

/// The name under which the series of a family are counted.
pub open spec fn sample_name(family: Family) -> Seq<char> {
    if family.is_histogram() {
        count_name(family_made(family).name)
    } else {
        family_made(family).name
    }
}

/// What the families of a node are made with, in the order of their registration.
pub open spec fn node_families() -> Seq<Made> {
    seq![
        family_made(Family::Completed),
        family_made(Family::Rejected),
        family_made(Family::Failed),
        family_made(Family::RequestDuration),
        family_made(Family::CpuRenderDuration),
        family_made(Family::StyleSwaps),
        family_made(Family::ColdStarts),
        family_made(Family::SourceCache),
        family_made(Family::RenderOutputCache),
        family_made(Family::Forwards),
        family_made(Family::AdmissionOverflow),
        family_made(Family::DeadlineExceeded),
    ]
}

/// Where a family of counts stands among those of a node.
pub open spec fn count_index(family: Family) -> int {
    match family {
        Family::Completed => 0,
        Family::Rejected => 1,
        Family::Failed => 2,
        Family::StyleSwaps => 3,
        Family::ColdStarts => 4,
        Family::SourceCache => 5,
        Family::RenderOutputCache => 6,
        Family::Forwards => 7,
        Family::AdmissionOverflow => 8,
        _ => 9,
    }
}

fn count_slot(family: Family) -> (r: usize)
    ensures
        r == count_index(family),
{
    match family {
        Family::Completed => 0,
        Family::Rejected => 1,
        Family::Failed => 2,
        Family::StyleSwaps => 3,
        Family::ColdStarts => 4,
        Family::SourceCache => 5,
        Family::RenderOutputCache => 6,
        Family::Forwards => 7,
        Family::AdmissionOverflow => 8,
        _ => 9,
    }
}

/// Where a family of durations stands among those of a node.
pub open spec fn duration_index(family: Family) -> int {
    match family {
        Family::RequestDuration => 0,
        _ => 1,
    }
}

fn duration_slot(family: Family) -> (r: usize)
    ensures
        r == duration_index(family),
{
    match family {
        Family::RequestDuration => 0,
        _ => 1,
    }
}

/// What a family is told, as a change.
pub open spec fn change_of(told: Told) -> Change {
    match told {
        Told::Added(by) => if by == 0 {
            Change::Create
        } else {
            Change::Count
        },
        Told::Observed(ns) => Change::Observe(ns as u64),
        _ => Change::Create,
    }
}

/// What a family was told, as changes.
pub open spec fn changes_in(log: Seq<Entry>) -> Seq<(Seq<Seq<char>>, Change)> {
    Seq::new(log.len(), |i: int| (log[i].labels, change_of(log[i].told)))
}

/// A family of a node counts one at a time, or observes.
pub open spec fn suits(family: Family, told: Told) -> bool {
    match told {
        Told::Added(by) => !family.is_histogram() && by <= 1,
        Told::Touched => family.is_histogram(),
        Told::Observed(ns) => family.is_histogram() && ns <= u64::MAX,
        Told::Leveled(_) => false,
    }
}

/// What a family of a node can have been told.
pub open spec fn is_sound(family: Family, log: Seq<Entry>) -> bool {
    forall|k: int|
        0 <= k < log.len() ==> (#[trigger] log[k]).id == series_id(log[k].labels) && suits(
            family,
            log[k].told,
        )
}

/// The change is counted: it is no mere coming into being.
pub open spec fn is_counted(change: Change) -> bool {
    !(change is Create)
}

/// How often changes were counted of labels with a hash.
pub open spec fn times(log: Seq<(Seq<Seq<char>>, Change)>, id: u64) -> nat
    decreases log.len(),
{
    if log.len() == 0 {
        0
    } else {
        times(log.drop_last(), id) + if series_id(log.last().0) == id && is_counted(log.last().1) {
            1nat
        } else {
            0
        }
    }
}

/// The change brought its series into being, whose labels it gave.
pub open spec fn begins(log: Seq<(Seq<Seq<char>>, Change)>, k: int) -> bool {
    0 <= k < log.len() && forall|j: int|
        0 <= j < k ==> series_id((#[trigger] log[j]).0) != series_id(log[k].0)
}

/// The series are those that the family was told of, and show how often each was
/// counted, as the text does under the name.
pub open spec fn shows_counts(
    samples: Map<Seq<(Seq<char>, Seq<char>)>, int>,
    text: Option<Seq<char>>,
    name: Seq<char>,
    names: Seq<Seq<char>>,
    log: Seq<(Seq<Seq<char>>, Change)>,
) -> bool {
    &&& forall|k: int| #[trigger]
        begins(log, k) ==> samples.contains_key(label_pairs(names, log[k].0)) && (is_exact(
            times(log, series_id(log[k].0)) as int,
        ) ==> samples[label_pairs(names, log[k].0)] == times(log, series_id(log[k].0)))
    &&& forall|values: Seq<(Seq<char>, Seq<char>)>| #[trigger]
        samples.contains_key(values) ==> exists|k: int| #[trigger]
            begins(log, k) && label_pairs(names, log[k].0) == values
    &&& text is Some && names.len() > 0 ==> forall|k: int| #[trigger]
        begins(log, k) && is_exact(times(log, series_id(log[k].0)) as int) ==> has_line(
            text->0,
            sample_line(
                name,
                label_pairs(names, log[k].0),
                times(log, series_id(log[k].0)) as int,
            ),
        )
}

proof fn lemma_value_counts(family: Family, log: Seq<Entry>, id: u64)
    requires
        is_sound(family, log),
    ensures
        value_of(log, id) == times(changes_in(log), id),
    decreases log.len(),
{
    if log.len() > 0 {
        let front = log.drop_last();
        let changes = changes_in(log);
        assert(changes.drop_last() =~= changes_in(front));
        assert forall|k: int| 0 <= k < front.len() implies (#[trigger] front[k]).id == series_id(
            front[k].labels,
        ) && suits(family, front[k].told) by {
            assert(front[k] == log[k]);
        }
        lemma_value_counts(family, front, id);
        let n = log.len() - 1;
        assert(log[n].id == series_id(log[n].labels) && suits(family, log[n].told));
        assert(changes[n] == (log[n].labels, change_of(log[n].told)));
    }
}

proof fn lemma_begins(family: Family, log: Seq<Entry>, k: int)
    requires
        is_sound(family, log),
    ensures
        begins(changes_in(log), k) == is_first(log, k),
{
    let changes = changes_in(log);
    if 0 <= k < log.len() {
        assert(log[k].id == series_id(log[k].labels));
        if is_first(log, k) {
            assert forall|j: int| 0 <= j < k implies series_id((#[trigger] changes[j]).0)
                != series_id(changes[k].0) by {
                assert(log[j].id == series_id(log[j].labels));
            }
        } else {
            let j = choose|j: int| 0 <= j < k && (#[trigger] log[j]).id == log[k].id;
            assert(log[j].id == series_id(log[j].labels));
            assert(series_id(changes[j].0) == series_id(changes[k].0));
        }
    }
}

proof fn lemma_shows_counts(
    samples: Map<Seq<(Seq<char>, Seq<char>)>, int>,
    text: Option<Seq<char>>,
    name: Seq<char>,
    family: Family,
    view: FamilyView,
)
    requires
        is_sound(family, view.log),
        shows_series(samples, text, name, view),
    ensures
        shows_counts(samples, text, name, view.made.labels, changes_in(view.log)),
{
    let log = view.log;
    let names = view.made.labels;
    let changes = changes_in(log);
    assert forall|k: int| #[trigger] begins(changes, k) implies samples.contains_key(
        label_pairs(names, changes[k].0),
    ) && (is_exact(times(changes, series_id(changes[k].0)) as int) ==> samples[label_pairs(
        names,
        changes[k].0,
    )] == times(changes, series_id(changes[k].0))) by {
        lemma_begins(family, log, k);
        assert(log[k].id == series_id(log[k].labels));
        lemma_value_counts(family, log, log[k].id);
    }
    assert forall|values: Seq<(Seq<char>, Seq<char>)>| #[trigger]
        samples.contains_key(values) implies exists|k: int| #[trigger]
        begins(changes, k) && label_pairs(names, changes[k].0) == values by {
        let k = choose|k: int| #[trigger]
            is_first(log, k) && label_pairs(names, log[k].labels) == values;
        lemma_begins(family, log, k);
        assert(changes[k].0 == log[k].labels);
        assert(begins(changes, k));
    }
    if text is Some && names.len() > 0 {
        assert forall|k: int| #[trigger]
            begins(changes, k) && is_exact(
                times(changes, series_id(changes[k].0)) as int,
            ) implies has_line(
            text->0,
            sample_line(
                name,
                label_pairs(names, changes[k].0),
                times(changes, series_id(changes[k].0)) as int,
            ),
        ) by {
            lemma_begins(family, log, k);
            assert(log[k].id == series_id(log[k].labels));
            lemma_value_counts(family, log, log[k].id);
        }
    }
}

/// How often changes were counted of the labels.
pub open spec fn times_counted(log: Seq<(Seq<Seq<char>>, Change)>, labels: Seq<Seq<char>>) -> nat
    decreases log.len(),
{
    if log.len() == 0 {
        0
    } else {
        times_counted(log.drop_last(), labels) + if log.last().0 == labels && is_counted(
            log.last().1,
        ) {
            1nat
        } else {
            0
        }
    }
}

/// What is recorded later adds to what was recorded before.
pub proof fn law_counts_add_up(
    earlier: Seq<(Seq<Seq<char>>, Change)>,
    later: Seq<(Seq<Seq<char>>, Change)>,
    labels: Seq<Seq<char>>,
)
    ensures
        times_counted(earlier + later, labels) == times_counted(earlier, labels) + times_counted(
            later,
            labels,
        ),
    decreases later.len(),
{
    if later.len() == 0 {
        assert(earlier + later =~= earlier);
    } else {
        law_counts_add_up(earlier, later.drop_last(), labels);
        assert((earlier + later).drop_last() =~= earlier + later.drop_last());
    }
}

/// No other labels that a family was told of have the hash of these.
pub open spec fn has_own_id(log: Seq<(Seq<Seq<char>>, Change)>, labels: Seq<Seq<char>>) -> bool {
    forall|k: int|
        0 <= k < log.len() && series_id((#[trigger] log[k]).0) == series_id(labels) ==> log[k].0
            == labels
}

/// The labels have a series.
pub open spec fn is_told_of(log: Seq<(Seq<Seq<char>>, Change)>, labels: Seq<Seq<char>>) -> bool {
    exists|k: int| 0 <= k < log.len() && (#[trigger] log[k]).0 == labels
}

proof fn lemma_own_times(log: Seq<(Seq<Seq<char>>, Change)>, labels: Seq<Seq<char>>)
    requires
        has_own_id(log, labels),
    ensures
        times(log, series_id(labels)) == times_counted(log, labels),
    decreases log.len(),
{
    if log.len() > 0 {
        let front = log.drop_last();
        assert forall|k: int|
            0 <= k < front.len() && series_id((#[trigger] front[k]).0) == series_id(
                labels,
            ) implies front[k].0 == labels by {
            assert(front[k] == log[k]);
        }
        lemma_own_times(front, labels);
        assert(log[log.len() - 1] == log.last());
    }
}

/// The change that brought the series of labels with a hash of their own into being.
proof fn lemma_own_begin(log: Seq<(Seq<Seq<char>>, Change)>, labels: Seq<Seq<char>>, n: int) -> (k:
    int)
    requires
        has_own_id(log, labels),
        0 <= n < log.len(),
        log[n].0 == labels,
    ensures
        begins(log, k),
        log[k].0 == labels,
    decreases n,
{
    if begins(log, n) {
        n
    } else {
        let j = choose|j: int|
            0 <= j < n && series_id((#[trigger] log[j]).0) == series_id(log[n].0);
        lemma_own_begin(log, labels, j)
    }
}

/// The changes of one family among updates, in order.
pub open spec fn changes_of(updates: Seq<UpdateView>, family: Family) -> Seq<
    (Seq<Seq<char>>, Change),
>
    decreases updates.len(),
{
    if updates.len() == 0 {
        Seq::empty()
    } else {
        let rest = changes_of(updates.drop_last(), family);
        let last = updates.last();
        if last.family == family {
            rest.push((last.labels, told(family, last.change)))
        } else {
            rest
        }
    }
}

proof fn lemma_changes_in_turn(earlier: Seq<UpdateView>, later: Seq<UpdateView>, family: Family)
    ensures
        changes_of(earlier + later, family) == changes_of(earlier, family) + changes_of(
            later,
            family,
        ),
    decreases later.len(),
{
    if later.len() == 0 {
        assert(earlier + later =~= earlier);
        assert(changes_of(earlier, family) + changes_of(later, family) =~= changes_of(
            earlier,
            family,
        ));
    } else {
        lemma_changes_in_turn(earlier, later.drop_last(), family);
        assert((earlier + later).drop_last() =~= earlier + later.drop_last());
        assert(changes_of(earlier + later, family) =~= changes_of(earlier, family) + changes_of(
            later,
            family,
        ));
    }
}

proof fn lemma_changes_some(updates: Seq<UpdateView>, i: int)
    requires
        0 <= i < updates.len(),
    ensures
        changes_of(updates, updates[i].family).len() > 0,
    decreases updates.len(),
{
    if i < updates.len() - 1 {
        lemma_changes_some(updates.drop_last(), i);
        assert(updates.drop_last()[i] == updates[i]);
    }
}

/// Every family of a node has a series from the start.
pub proof fn law_every_family_has_a_series(family: Family)
    ensures
        changes_of(all_series(), family).len() > 0,
{
    let all = all_series();
    let scoped = crate::metrics::scope_series(Scope::Ingress);
    let tiers = crate::metrics::tier_series(Scope::Ingress, 5);
    let reasons = crate::metrics::reason_series(Scope::Ingress, 8);
    let n = scoped.len() as int + crate::metrics::scope_series(Scope::Forwarded).len();
    let stages = crate::metrics::stage_series(5);
    let i = match family {
        Family::Failed => 0,
        Family::StyleSwaps => 1,
        Family::ColdStarts => 2,
        Family::AdmissionOverflow => 3,
        Family::CpuRenderDuration => 4,
        Family::Completed => 5 + tiers.len() - 2,
        Family::RequestDuration => 5 + tiers.len() - 1,
        Family::Rejected => 5 + tiers.len() + reasons.len() - 1,
        Family::SourceCache => n,
        Family::RenderOutputCache => n + 2,
        Family::Forwards => n + 5,
        Family::DeadlineExceeded => n + 8 + stages.len() - 1,
    };
    assert(all[i].family == family);
    lemma_changes_some(all, i);
}

/// What a change comes to in a family: durations are only observed in
/// distributions, and only counts go up.
pub open spec fn told(family: Family, change: Change) -> Change {
    match change {
        Change::Observe(_) => if family.is_histogram() {
            change
        } else {
            Change::Create
        },
        Change::Count => if family.is_histogram() {
            Change::Create
        } else {
            Change::Count
        },
        Change::Create => Change::Create,
    }
}

impl NodeMetrics {
    closed spec fn family_view(&self, family: Family) -> FamilyView {
        if family.is_histogram() {
            durations_in(self.set)[duration_index(family)]
        } else {
            counts_in(self.set)[count_index(family)]
        }
    }

    /// What a family was told, in order.
    pub closed spec fn log(&self, family: Family) -> Seq<(Seq<Seq<char>>, Change)> {
        changes_in(self.family_view(family).log)
    }

    /// What a family was made with.
    pub closed spec fn made_with(&self, family: Family) -> Made {
        self.family_view(family).made
    }

    /// The families that are shown.
    pub closed spec fn shown(&self) -> Seq<Made> {
        registered(self.set)
    }

    /// The names of the families that have a series.
    pub closed spec fn lively(&self) -> Set<Seq<char>> {
        live(counts_in(self.set), durations_in(self.set), levels_in(self.set))
    }

    /// All families are there, and were told what suits them.
    pub closed spec fn is_whole(&self) -> bool {
        &&& counts_in(self.set).len() == 10
        &&& durations_in(self.set).len() == 2
        &&& levels_in(self.set).len() == 0
        &&& forall|family: Family| is_sound(family, (#[trigger] self.family_view(family)).log)
    }

    /// Families as they are gathered: those of the node, with what they were told.
    pub open spec fn is_shown_by(&self, families: Seq<MetricFamily>) -> bool {
        &&& listed(self.shown(), self.lively(), families)
        &&& writable(families)
        &&& forall|i: int, family: Family|
            0 <= i < families.len() && family_name(#[trigger] families[i]) == (
            #[trigger] family_made(family)).name ==> shows_counts(
                family_samples(families[i]),
                family_text(families[i]),
                sample_name(family),
                family_made(family).labels,
                self.log(family),
            )
    }

    /// Every family was told the updates, each its own, after what it had been
    /// told before.
    pub open spec fn was_told(&self, before: &NodeMetrics, updates: Seq<UpdateView>) -> bool {
        forall|family: Family| #[trigger]
            self.log(family) == before.log(family) + changes_of(updates, family)
    }

    /// What is told in turn is told.
    pub proof fn lemma_told_in_turn(
        &self,
        first: &NodeMetrics,
        middle: &NodeMetrics,
        earlier: Seq<UpdateView>,
        later: Seq<UpdateView>,
    )
        requires
            middle.was_told(first, earlier),
            self.was_told(middle, later),
        ensures
            self.was_told(first, earlier + later),
    {
        assert forall|family: Family| #[trigger] self.log(family) == first.log(family) + changes_of(
            earlier + later,
            family,
        ) by {
            lemma_changes_in_turn(earlier, later, family);
            assert(middle.log(family) == first.log(family) + changes_of(earlier, family));
            assert(self.log(family) =~= first.log(family) + changes_of(earlier + later, family));
        }
    }

    /// Nothing was told that was told nothing.
    pub proof fn lemma_told_nothing(&self)
        ensures
            self.was_told(self, Seq::empty()),
    {
        assert forall|family: Family| #[trigger] self.log(family) == self.log(family) + changes_of(
            Seq::empty(),
            family,
        ) by {
            assert(self.log(family) =~= self.log(family) + changes_of(Seq::empty(), family));
        }
    }

    /// The families are those of a node.
    pub open spec fn fits(&self) -> bool {
        &&& self.is_whole()
        &&& forall|family: Family| #[trigger] self.made_with(family) == family_made(family)
    }

    /// The families are those of a node, are all shown, and have series.
    pub open spec fn wf(&self) -> bool {
        &&& self.fits()
        &&& self.shown() == node_families()
        &&& forall|family: Family| (#[trigger] self.log(family)).len() > 0
    }

    /// A family that was told something has a series, and is shown.
    proof fn lemma_lively(&self, family: Family)
        requires
            self.fits(),
            self.log(family).len() > 0,
        ensures
            self.lively().contains(family_made(family).name),
    {
        assert(self.made_with(family) == family_made(family));
        if family.is_histogram() {
            let k = duration_index(family);
            assert(durations_in(self.set)[k] == self.family_view(family));
        } else {
            let k = count_index(family);
            assert(counts_in(self.set)[k] == self.family_view(family));
        }
    }

    /// Registers the families of a node. Whether Prometheus took them.
    fn register_all(
        &mut self,
        completed: Counts,
        rejected: Counts,
        failed: Counts,
        request_duration: Durations,
        cpu_render_duration: Durations,
        style_swaps: Counts,
        cold_starts: Counts,
        source_cache: Counts,
        render_output_cache: Counts,
        forwards: Counts,
        admission_overflow: Counts,
        deadline_exceeded: Counts,
    ) -> (r: bool)
        requires
            registered(old(self).set) == nothing_registered(),
            counts_in(old(self).set) == no_families(),
            durations_in(old(self).set) == no_families(),
            levels_in(old(self).set) == no_families(),
            counts_made(completed) == family_made(Family::Completed),
            counts_made(rejected) == family_made(Family::Rejected),
            counts_made(failed) == family_made(Family::Failed),
            durations_made(request_duration) == family_made(Family::RequestDuration),
            durations_made(cpu_render_duration) == family_made(Family::CpuRenderDuration),
            counts_made(style_swaps) == family_made(Family::StyleSwaps),
            counts_made(cold_starts) == family_made(Family::ColdStarts),
            counts_made(source_cache) == family_made(Family::SourceCache),
            counts_made(render_output_cache) == family_made(Family::RenderOutputCache),
            counts_made(forwards) == family_made(Family::Forwards),
            counts_made(admission_overflow) == family_made(Family::AdmissionOverflow),
            counts_made(deadline_exceeded) == family_made(Family::DeadlineExceeded),
        ensures
            r <==> ids_apart(node_families()),
            r ==> final(self).fits() && final(self).shown() == node_families(),
            r ==> forall|family: Family| #[trigger] final(self).log(family).len() == 0,
    {
        let taken = register_counts(&mut self.set, completed)
            && register_counts(&mut self.set, rejected)
            && register_counts(&mut self.set, failed)
            && register_durations(&mut self.set, request_duration)
            && register_durations(&mut self.set, cpu_render_duration)
            && register_counts(&mut self.set, style_swaps)
            && register_counts(&mut self.set, cold_starts)
            && register_counts(&mut self.set, source_cache)
            && register_counts(&mut self.set, render_output_cache)
            && register_counts(&mut self.set, forwards)
            && register_counts(&mut self.set, admission_overflow)
            && register_counts(&mut self.set, deadline_exceeded);
        proof {
            if taken {
                assert(self.shown() =~= node_families());
                assert(ids_apart(node_families()));
                assert forall|family: Family| #[trigger] self.family_view(family) == fresh(
                    family_made(family),
                ) by {}
                assert forall|family: Family| #[trigger] self.log(family).len() == 0 by {
                    assert(self.family_view(family) == fresh(family_made(family)));
                }
                assert forall|family: Family| #[trigger] self.made_with(family) == family_made(
                    family,
                ) by {
                    assert(self.family_view(family) == fresh(family_made(family)));
                }
                assert(self.is_whole());
            } else {
                assert(!ids_apart(node_families()));
            }
        }
        taken
    }

    /// The series of a node, all of them at zero. None if Prometheus gives two of
    /// the families the same `id`, and so refuses one.
    pub fn new() -> (r: Option<NodeMetrics>)
        ensures
            r is Some <==> ids_apart(node_families()),
            r matches Some(metrics) ==> metrics.wf() && forall|family: Family| #[trigger]
                metrics.log(family) == changes_of(all_series(), family),
    {
        proof {
            law_every_family_can_be_made(Family::Completed);
            law_every_family_can_be_made(Family::Rejected);
            law_every_family_can_be_made(Family::Failed);
            law_every_family_can_be_made(Family::RequestDuration);
            law_every_family_can_be_made(Family::CpuRenderDuration);
            law_every_family_can_be_made(Family::StyleSwaps);
            law_every_family_can_be_made(Family::ColdStarts);
            law_every_family_can_be_made(Family::SourceCache);
            law_every_family_can_be_made(Family::RenderOutputCache);
            law_every_family_can_be_made(Family::Forwards);
            law_every_family_can_be_made(Family::AdmissionOverflow);
            law_every_family_can_be_made(Family::DeadlineExceeded);
        }
        let completed = two_labels(
            "biei_tasks_completed_total",
            "Completed tasks by ingress scope and route tier.",
            "scope",
            "route_tier",
        )?;
        let rejected = two_labels(
            "biei_tasks_rejected_total",
            "Rejected tasks by ingress scope and reason.",
            "scope",
            "reason",
        )?;
        let failed = one_label(
            "biei_tasks_failed_total",
            "Failed tasks by ingress scope.",
            "scope",
        )?;
        let by_scope_and_tier: [&str; 2] = ["scope", "route_tier"];
        assert(label_texts(by_scope_and_tier@) =~= family_made(Family::RequestDuration).labels);
        proof {
            reveal_strlit("le");
            reveal_strlit("scope");
            reveal_strlit("route_tier");
            assert("scope"@.len() == 5 && "route_tier"@.len() == 10 && "le"@.len() == 2);
        }
        let latency = latency_buckets();
        let request_duration = new_durations(
            "biei_request_duration_seconds",
            "End-to-end task duration from node arrival to completion.",
            &latency,
            by_scope_and_tier.as_slice(),
        )?;
        let by_scope: [&str; 1] = ["scope"];
        assert(label_texts(by_scope@) =~= family_made(Family::CpuRenderDuration).labels);
        let render = cpu_render_buckets();
        let cpu_render_duration = new_durations(
            "biei_cpu_render_duration_seconds",
            "CPU/GPU-heavy render-stage duration.",
            &render,
            by_scope.as_slice(),
        )?;
        let style_swaps = one_label(
            "biei_style_swaps_total",
            "Completed tasks that swapped style/profile.",
            "scope",
        )?;
        let cold_starts = one_label(
            "biei_cold_starts_total",
            "Completed tasks that used a cold renderer slot.",
            "scope",
        )?;
        let source_cache = one_label(
            "biei_source_cache_total",
            "Addlayer source cache hits and misses.",
            "outcome",
        )?;
        let render_output_cache = one_label(
            "biei_render_output_cache_total",
            "Rendered image cache lookups and insertions.",
            "outcome",
        )?;
        let forwards = one_label(
            "biei_forwards_total",
            "Internal forward attempts by outcome.",
            "outcome",
        )?;
        let admission_overflow = one_label(
            "biei_admission_overflow_total",
            "Completed tasks admitted while the chosen worker was already at or above BL.",
            "scope",
        )?;
        let deadline_exceeded = one_label(
            "biei_deadline_exceeded_total",
            "Deadline rejections by worker stage.",
            "stage",
        )?;
        let mut metrics = NodeMetrics { set: new_set() };
        if !metrics.register_all(
            completed,
            rejected,
            failed,
            request_duration,
            cpu_render_duration,
            style_swaps,
            cold_starts,
            source_cache,
            render_output_cache,
            forwards,
            admission_overflow,
            deadline_exceeded,
        ) {
            return None;
        }
        let ghost fresh = metrics;
        metrics.init_zero_series();
        assert forall|family: Family| #[trigger] metrics.log(family) == changes_of(
            all_series(),
            family,
        ) by {
            assert(fresh.log(family).len() == 0);
            assert(fresh.log(family) + changes_of(all_series(), family) =~= changes_of(
                all_series(),
                family,
            ));
        }
        assert forall|family: Family| (#[trigger] metrics.log(family)).len() > 0 by {
            law_every_family_has_a_series(family);
        }
        Some(metrics)
    }

    /// One family was told something more, and the others nothing.
    proof fn lemma_one_told(&self, before: &NodeMetrics, family: Family, entry: Entry)
        requires
            before.fits(),
            entry.id == series_id(entry.labels),
            suits(family, entry.told),
            registered(self.set) == registered(before.set),
            levels_in(self.set) == levels_in(before.set),
            family.is_histogram() ==> counts_in(self.set) == counts_in(before.set)
                && durations_in(self.set) == told_more(
                durations_in(before.set),
                duration_index(family),
                entry,
            ),
            !family.is_histogram() ==> durations_in(self.set) == durations_in(before.set)
                && counts_in(self.set) == told_more(
                counts_in(before.set),
                count_index(family),
                entry,
            ),
        ensures
            self.fits(),
            self.shown() == before.shown(),
            forall|f: Family| #[trigger]
                self.log(f) == if f == family {
                    before.log(f).push((entry.labels, change_of(entry.told)))
                } else {
                    before.log(f)
                },
    {
        assert forall|f: Family| #[trigger] self.family_view(f) == if f == family {
            FamilyView {
                made: before.family_view(f).made,
                log: before.family_view(f).log.push(entry),
            }
        } else {
            before.family_view(f)
        } by {}
        assert forall|f: Family| #[trigger] self.made_with(f) == family_made(f) by {
            assert(before.made_with(f) == family_made(f));
            assert(self.family_view(f).made == before.family_view(f).made);
        }
        assert forall|f: Family| is_sound(f, (#[trigger] self.family_view(f)).log) by {
            let earlier = before.family_view(f).log;
            assert(is_sound(f, earlier));
        }
        assert forall|f: Family| #[trigger]
            self.log(f) == if f == family {
                before.log(f).push((entry.labels, change_of(entry.told)))
            } else {
                before.log(f)
            } by {
            if f == family {
                assert(self.family_view(f).log == before.family_view(f).log.push(entry));
                assert(self.log(f) =~= before.log(f).push((entry.labels, change_of(entry.told))));
            } else {
                assert(self.family_view(f) == before.family_view(f));
            }
        }
    }

    fn tell_counts(&mut self, family: Family, labels: &[&str], by: u64)
        requires
            old(self).fits(),
            !family.is_histogram(),
            labels@.len() == family.arity(),
            by <= 1,
        ensures
            final(self).fits(),
            final(self).shown() == old(self).shown(),
            forall|f: Family| #[trigger]
                final(self).log(f) == if f == family {
                    old(self).log(f).push(
                        (
                            label_texts(labels@),
                            if by == 0 {
                                Change::Create
                            } else {
                                Change::Count
                            },
                        ),
                    )
                } else {
                    old(self).log(f)
                },
    {
        let ghost before = *self;
        assert(before.made_with(family) == family_made(family));
        assert(counts_in(before.set)[count_index(family)] == before.family_view(family));
        count(&mut self.set, count_slot(family), labels, by);
        let ghost entry = Entry {
            id: series_id(label_texts(labels@)),
            labels: label_texts(labels@),
            told: Told::Added(by),
        };
        proof {
            self.lemma_one_told(&before, family, entry);
        }
    }

    fn tell_durations(&mut self, family: Family, labels: &[&str], observed: Option<u64>)
        requires
            old(self).fits(),
            family.is_histogram(),
            labels@.len() == family.arity(),
        ensures
            final(self).fits(),
            final(self).shown() == old(self).shown(),
            forall|f: Family| #[trigger]
                final(self).log(f) == if f == family {
                    old(self).log(f).push(
                        (
                            label_texts(labels@),
                            match observed {
                                Some(ns) => Change::Observe(ns),
                                None => Change::Create,
                            },
                        ),
                    )
                } else {
                    old(self).log(f)
                },
    {
        let ghost before = *self;
        assert(before.made_with(family) == family_made(family));
        assert(durations_in(before.set)[duration_index(family)] == before.family_view(family));
        let i: usize = duration_slot(family);
        match observed {
            Some(ns) => observe(&mut self.set, i, labels, span(ns as u128)),
            None => touch(&mut self.set, i, labels),
        }
        let ghost entry = Entry {
            id: series_id(label_texts(labels@)),
            labels: label_texts(labels@),
            told: match observed {
                Some(ns) => Told::Observed(ns as nat),
                None => Told::Touched,
            },
        };
        proof {
            self.lemma_one_told(&before, family, entry);
        }
    }

    /// Makes one change.
    pub fn apply(&mut self, update: &MetricUpdate)
        requires
            old(self).fits(),
            update@.labels.len() == update.family.arity(),
        ensures
            final(self).fits(),
            final(self).shown() == old(self).shown(),
            forall|f: Family| #[trigger]
                final(self).log(f) == if f == update.family {
                    old(self).log(f).push((update@.labels, told(f, update.change)))
                } else {
                    old(self).log(f)
                },
    {
        let histogram = match update.family {
            Family::RequestDuration | Family::CpuRenderDuration => true,
            _ => false,
        };
        assert(label_texts(update.labels@) =~= update@.labels);
        if histogram {
            let observed: Option<u64> = match update.change {
                Change::Observe(ns) => Some(ns),
                _ => None,
            };
            self.tell_durations(update.family, update.labels.as_slice(), observed);
        } else {
            let by: u64 = match update.change {
                Change::Count => 1,
                _ => 0,
            };
            self.tell_counts(update.family, update.labels.as_slice(), by);
        }
    }

    fn apply_all(&mut self, updates: &Vec<MetricUpdate>)
        requires
            old(self).fits(),
            forall|i: int|
                0 <= i < updates@.len() ==> (#[trigger] updates@[i])@.labels.len()
                    == updates@[i].family.arity(),
        ensures
            final(self).fits(),
            final(self).shown() == old(self).shown(),
            final(self).was_told(old(self), update_views(updates@)),
    {
        let ghost start = *self;
        let ghost all = update_views(updates@);
        let mut i: usize = 0;
        assert forall|f: Family| #[trigger] self.log(f) == start.log(f) + changes_of(
            all.take(0),
            f,
        ) by {
            assert(start.log(f) + changes_of(all.take(0), f) =~= start.log(f));
        }
        while i < updates.len()
            invariant
                i <= updates@.len(),
                self.fits(),
                self.shown() == start.shown(),
                all == update_views(updates@),
                forall|i: int|
                    0 <= i < updates@.len() ==> (#[trigger] updates@[i])@.labels.len()
                        == updates@[i].family.arity(),
                forall|f: Family| #[trigger]
                    self.log(f) == start.log(f) + changes_of(all.take(i as int), f),
            decreases updates.len() - i,
        {
            let ghost before = *self;
            self.apply(&updates[i]);
            assert(all.take(i + 1).drop_last() =~= all.take(i as int));
            assert(all.take(i + 1).last() == updates@[i as int]@);
            assert forall|f: Family| #[trigger] self.log(f) == start.log(f) + changes_of(
                all.take(i + 1),
                f,
            ) by {
                assert(before.log(f) == start.log(f) + changes_of(all.take(i as int), f));
                assert(self.log(f) =~= start.log(f) + changes_of(all.take(i + 1), f));
            }
            i += 1;
        }
        assert(all.take(i as int) =~= all);
    }

    /// Brings every series into being.
    pub fn init_zero_series(&mut self)
        requires
            old(self).fits(),
        ensures
            final(self).fits(),
            final(self).shown() == old(self).shown(),
            final(self).was_told(old(self), all_series()),
    {
        let updates = zero_series();
        proof {
            lemma_zero_series_fit(updates@);
        }
        self.apply_all(&updates);
    }

    /// Records how a task ended.
    pub fn record_outcome(&mut self, scope: Scope, outcome: &TaskOutcome)
        requires
            old(self).wf(),
        ensures
            final(self).wf(),
            final(self).was_told(old(self), outcome_changes(scope, *outcome)),
    {
        let updates = outcome_updates(scope, outcome);
        proof {
            assert forall|i: int| 0 <= i < updates@.len() implies (#[trigger] updates@[i])@.labels.len()
                == updates@[i].family.arity() by {
                assert(update_views(updates@)[i] == updates@[i]@);
                crate::metrics::law_updates_fit_their_family(scope, *outcome, i);
            }
        }
        self.apply_all(&updates);
    }

    /// Records how a client's task ended.
    pub fn record_ingress(&mut self, outcome: &TaskOutcome)
        requires
            old(self).wf(),
        ensures
            final(self).wf(),
            final(self).was_told(old(self), outcome_changes(Scope::Ingress, *outcome)),
    {
        self.record_outcome(Scope::Ingress, outcome)
    }

    /// Records how a peer's task ended.
    pub fn record_forwarded(&mut self, outcome: &TaskOutcome)
        requires
            old(self).wf(),
        ensures
            final(self).wf(),
            final(self).was_told(old(self), outcome_changes(Scope::Forwarded, *outcome)),
    {
        self.record_outcome(Scope::Forwarded, outcome)
    }

    fn count_one(&mut self, family: Family, label: &'static str)
        requires
            old(self).wf(),
            !family.is_histogram(),
            family.arity() == 1,
        ensures
            final(self).wf(),
            final(self).was_told(old(self), seq![single(family, label@, Change::Count)]),
    {
        let ghost before = *self;
        let labels: [&str; 1] = [label];
        self.tell_counts(family, labels.as_slice(), 1);
        proof {
            let updates = seq![single(family, label@, Change::Count)];
            assert(label_texts(labels@) =~= seq![label@]);
            assert forall|f: Family| #[trigger] self.log(f) == before.log(f) + changes_of(
                updates,
                f,
            ) by {
                assert(updates.drop_last().len() == 0);
                assert(updates.last() == updates[0]);
                reveal_with_fuel(changes_of, 2);
                assert(self.log(f) =~= before.log(f) + changes_of(updates, f));
            }
        }
    }

    /// What an attempt to forward a task is counted as.
    pub open spec fn attempt_text(attempt: ForwardCount) -> Seq<char> {
        match attempt {
            ForwardCount::Success => "success"@,
            ForwardCount::Retryable => "retryable"@,
            ForwardCount::Fatal => "fatal"@,
        }
    }

    /// Counts an attempt to forward a task.
    pub fn record_forward(&mut self, attempt: ForwardCount)
        requires
            old(self).wf(),
        ensures
            final(self).wf(),
            final(self).was_told(
                old(self),
                seq![single(Family::Forwards, Self::attempt_text(attempt), Change::Count)],
            ),
    {
        match attempt {
            ForwardCount::Success => self.record_forward_success(),
            ForwardCount::Retryable => self.record_forward_retryable(),
            ForwardCount::Fatal => self.record_forward_fatal(),
        }
    }

    pub fn record_forward_success(&mut self)
        requires
            old(self).wf(),
        ensures
            final(self).wf(),
            final(self).was_told(
                old(self),
                seq![single(Family::Forwards, "success"@, Change::Count)],
            ),
    {
        self.count_one(Family::Forwards, "success")
    }

    pub fn record_forward_retryable(&mut self)
        requires
            old(self).wf(),
        ensures
            final(self).wf(),
            final(self).was_told(
                old(self),
                seq![single(Family::Forwards, "retryable"@, Change::Count)],
            ),
    {
        self.count_one(Family::Forwards, "retryable")
    }

    pub fn record_forward_fatal(&mut self)
        requires
            old(self).wf(),
        ensures
            final(self).wf(),
            final(self).was_told(
                old(self),
                seq![single(Family::Forwards, "fatal"@, Change::Count)],
            ),
    {
        self.count_one(Family::Forwards, "fatal")
    }

    pub fn record_render_output_cache_hit(&mut self)
        requires
            old(self).wf(),
        ensures
            final(self).wf(),
            final(self).was_told(
                old(self),
                seq![single(Family::RenderOutputCache, "hit"@, Change::Count)],
            ),
    {
        self.count_one(Family::RenderOutputCache, "hit")
    }

    pub fn record_render_output_cache_miss(&mut self)
        requires
            old(self).wf(),
        ensures
            final(self).wf(),
            final(self).was_told(
                old(self),
                seq![single(Family::RenderOutputCache, "miss"@, Change::Count)],
            ),
    {
        self.count_one(Family::RenderOutputCache, "miss")
    }

    pub fn record_render_output_cache_insert(&mut self)
        requires
            old(self).wf(),
        ensures
            final(self).wf(),
            final(self).was_told(
                old(self),
                seq![single(Family::RenderOutputCache, "insert"@, Change::Count)],
            ),
    {
        self.count_one(Family::RenderOutputCache, "insert")
    }

    /// The families with their present values: how often each series was counted.
    pub fn gather(&self) -> (r: Vec<MetricFamily>)
        requires
            self.fits(),
        ensures
            self.is_shown_by(r@),
    {
        let r = gather_families(&self.set);
        assert forall|i: int, family: Family|
            0 <= i < r@.len() && family_name(#[trigger] r@[i]) == (#[trigger] family_made(
                family,
            )).name implies shows_counts(
            family_samples(r@[i]),
            family_text(r@[i]),
            sample_name(family),
            family_made(family).labels,
            self.log(family),
        ) by {
            let view = self.family_view(family);
            assert(self.made_with(family) == family_made(family));
            assert(is_sound(family, view.log));
            if family.is_histogram() {
                assert(durations_in(self.set)[duration_index(family)] == view);
            } else {
                assert(counts_in(self.set)[count_index(family)] == view);
            }
            let name = sample_name(family);
            assert(shows_series(family_samples(r@[i]), family_text(r@[i]), name, view));
            lemma_shows_counts(family_samples(r@[i]), family_text(r@[i]), name, family, view);
        }
        r
    }

    /// The present values as text: that of the families, in the order of their
    /// names.
    pub fn render_prometheus(&self) -> (r: String)
        requires
            self.fits(),
        ensures
            exists|families: Seq<MetricFamily>| #[trigger]
                self.is_shown_by(families) && exposition(families) == Some(r@),
    {
        let families = self.gather();
        proof {
            lemma_writable(families@);
        }
        encode_metric_families(&families)
    }

    /// The present values as text, with the levels of the node at this moment
    /// behind them. None if Prometheus gives two of the families of levels the same
    /// `id`, and so refuses one.
    pub fn render_prometheus_with_runtime(&self, runtime: &RuntimeGauges) -> (r: Option<String>)
        requires
            self.fits(),
        ensures
            r is Some <==> ids_apart(level_families()),
            r matches Some(text) ==> shows_with_levels(*self, *runtime, text@),
    {
        let gauges = RuntimeFamilies::of(runtime)?;
        let mut families = self.gather();
        let ghost own = families@;
        let mut levels = gauges.gather();
        let ghost behind = levels@;
        families.append(&mut levels);
        proof {
            assert(families@ =~= own + behind);
            assert(writable(own + behind)) by {
                assert forall|i: int| 0 <= i < (own + behind).len() implies !is_untyped(
                    #[trigger] (own + behind)[i],
                ) && family_text((own + behind)[i]) is Some by {
                    if i < own.len() {
                        assert((own + behind)[i] == own[i]);
                    } else {
                        assert((own + behind)[i] == behind[i - own.len()]);
                    }
                }
            }
            lemma_writable(own + behind);
        }
        let text = encode_metric_families(&families);
        assert(shows_levels(*self, *runtime, gauges, own, behind, text@));
        Some(text)
    }
}

/// One of the families has the name.
pub open spec fn shows(families: Seq<MetricFamily>, name: Seq<char>) -> bool {
    exists|i: int| 0 <= i < families.len() && family_name(#[trigger] families[i]) == name
}

/// It is the name of a family of a node.
pub open spec fn is_of_node(name: Seq<char>) -> bool {
    exists|family: Family| (#[trigger] family_made(family)).name == name
}

proof fn lemma_of_node(name: Seq<char>)
    requires
        named(node_families(), name),
    ensures
        is_of_node(name),
{
    let k = choose|k: int|
        0 <= k < node_families().len() && (#[trigger] node_families()[k]).name == name;
    let family = if k == 0 {
        Family::Completed
    } else if k == 1 {
        Family::Rejected
    } else if k == 2 {
        Family::Failed
    } else if k == 3 {
        Family::RequestDuration
    } else if k == 4 {
        Family::CpuRenderDuration
    } else if k == 5 {
        Family::StyleSwaps
    } else if k == 6 {
        Family::ColdStarts
    } else if k == 7 {
        Family::SourceCache
    } else if k == 8 {
        Family::RenderOutputCache
    } else if k == 9 {
        Family::Forwards
    } else if k == 10 {
        Family::AdmissionOverflow
    } else {
        Family::DeadlineExceeded
    };
    assert(family_made(family).name == name);
}

/// What is shown of a node are its families: each of them, once, and nothing else.
pub proof fn law_a_node_shows_its_families(metrics: NodeMetrics, families: Seq<MetricFamily>)
    requires
        metrics.wf(),
        metrics.is_shown_by(families),
    ensures
        forall|family: Family| shows(families, (#[trigger] family_made(family)).name),
        forall|i: int| 0 <= i < families.len() ==> is_of_node(family_name(#[trigger] families[i])),
        forall|i: int, j: int|
            0 <= i < j < families.len() ==> family_name(#[trigger] families[i]) != family_name(
                #[trigger] families[j],
            ),
{
    let live = metrics.lively();
    assert forall|family: Family| shows(families, (#[trigger] family_made(family)).name) by {
        assert(metrics.log(family).len() > 0);
        metrics.lemma_lively(family);
        assert(live.contains(family_made(family).name));
    }
    assert forall|i: int| 0 <= i < families.len() implies is_of_node(
        family_name(#[trigger] families[i]),
    ) by {
        lemma_of_node(family_name(families[i]));
    }
    assert forall|i: int, j: int| 0 <= i < j < families.len() implies family_name(
        #[trigger] families[i],
    ) != family_name(#[trigger] families[j]) by {
        let a = family_name(families[i]);
        law_text_order(a, a, a);
    }
}

/// What was recorded is shown: the family is there, and a series whose labels have a
/// hash of their own has the count of what was recorded of them.
pub proof fn law_what_was_recorded_is_shown(
    metrics: NodeMetrics,
    families: Seq<MetricFamily>,
    family: Family,
    labels: Seq<Seq<char>>,
) -> (i: int)
    requires
        metrics.wf(),
        metrics.is_shown_by(families),
        is_told_of(metrics.log(family), labels),
        has_own_id(metrics.log(family), labels),
        is_exact(times_counted(metrics.log(family), labels) as int),
    ensures
        0 <= i < families.len(),
        family_name(families[i]) == family_made(family).name,
        family_samples(families[i]).contains_key(label_pairs(family_made(family).labels, labels)),
        family_samples(families[i])[label_pairs(family_made(family).labels, labels)]
            == times_counted(metrics.log(family), labels),
{
    law_a_node_shows_its_families(metrics, families);
    let name = family_made(family).name;
    assert(shows(families, name));
    let log = metrics.log(family);
    let n = choose|n: int| 0 <= n < log.len() && (#[trigger] log[n]).0 == labels;
    let k = lemma_own_begin(log, labels, n);
    lemma_own_times(log, labels);
    choose|i: int| 0 <= i < families.len() && family_name(#[trigger] families[i]) == name
}

/// A line of a family is one of the text of all families.
proof fn lemma_line_of_family(
    families: Seq<MetricFamily>,
    text: Seq<char>,
    i: int,
    line: Seq<char>,
)
    requires
        exposition(families) == Some(text),
        0 <= i < families.len(),
        family_text(families[i]) is Some,
        has_line(family_text(families[i])->0, line),
    ensures
        has_line(text, line),
    decreases families.len(),
{
    let front = exposition(families.drop_last())->0;
    let last = family_text(families.last())->0;
    assert(text == front + last);
    if i < families.len() - 1 {
        assert(families.drop_last()[i] == families[i]);
        lemma_line_of_family(families.drop_last(), front, i, line);
        let at = choose|at: int| #[trigger] has_line_at(front, line, at);
        assert(text.subrange(at, at + line.len()) =~= front.subrange(at, at + line.len()));
        assert(has_line_at(text, line, at));
    } else {
        let at = choose|at: int| #[trigger] has_line_at(last, line, at);
        let there = front.len() + at;
        assert(text.subrange(there, there + line.len()) =~= last.subrange(at, at + line.len()));
        assert(has_line_at(text, line, there));
    }
}

/// What was recorded is in the text, with the levels of the node behind it or without
/// them: a line of the labels, if they have a hash of their own, with the count of
/// what was recorded of them.
pub proof fn law_what_was_recorded_is_in_the_text(
    metrics: NodeMetrics,
    own: Seq<MetricFamily>,
    behind: Seq<MetricFamily>,
    text: Seq<char>,
    family: Family,
    labels: Seq<Seq<char>>,
)
    requires
        metrics.wf(),
        metrics.is_shown_by(own),
        exposition(own + behind) == Some(text),
        is_told_of(metrics.log(family), labels),
        has_own_id(metrics.log(family), labels),
        is_exact(times_counted(metrics.log(family), labels) as int),
    ensures
        has_line(
            text,
            sample_line(
                sample_name(family),
                label_pairs(family_made(family).labels, labels),
                times_counted(metrics.log(family), labels) as int,
            ),
        ),
{
    let i = law_what_was_recorded_is_shown(metrics, own, family, labels);
    let log = metrics.log(family);
    let n = choose|n: int| 0 <= n < log.len() && (#[trigger] log[n]).0 == labels;
    let k = lemma_own_begin(log, labels, n);
    lemma_own_times(log, labels);
    assert(family_made(family).labels.len() > 0);
    assert((own + behind)[i] == own[i]);
    lemma_line_of_family(
        own + behind,
        text,
        i,
        sample_line(
            sample_name(family),
            label_pairs(family_made(family).labels, labels),
            times_counted(log, labels) as int,
        ),
    );
}

/// The levels of a node are in the text behind its families: a line of each series
/// with its last level.
pub proof fn law_levels_are_in_the_text(
    gauges: RuntimeFamilies,
    own: Seq<MetricFamily>,
    behind: Seq<MetricFamily>,
    text: Seq<char>,
    family: LevelFamily,
    k: int,
)
    requires
        gauges.wf(),
        gauges.is_shown_by(behind),
        exposition(own + behind) == Some(text),
        level_begins(gauges.log(family), k),
        is_exact(latest(gauges.log(family), series_id(gauges.log(family)[k].0)) as int),
    ensures
        has_line(
            text,
            sample_line(
                level_made(family).name,
                label_pairs(level_made(family).labels, gauges.log(family)[k].0),
                latest(gauges.log(family), series_id(gauges.log(family)[k].0)) as int,
            ),
        ),
{
    gauges.law_levels_are_shown(family);
    let name = level_made(family).name;
    let live = gauges.lively();
    assert(live.contains(name));
    let i = choose|i: int| 0 <= i < behind.len() && family_name(#[trigger] behind[i]) == name;
    assert(level_made(family).labels.len() > 0);
    assert((own + behind)[own.len() + i] == behind[i]);
    lemma_line_of_family(
        own + behind,
        text,
        own.len() + i,
        sample_line(
            name,
            label_pairs(level_made(family).labels, gauges.log(family)[k].0),
            latest(gauges.log(family), series_id(gauges.log(family)[k].0)) as int,
        ),
    );
}

/// A text shows the families of a node and behind them those of its levels.
pub open spec fn shows_levels(
    metrics: NodeMetrics,
    runtime: RuntimeGauges,
    gauges: RuntimeFamilies,
    own: Seq<MetricFamily>,
    behind: Seq<MetricFamily>,
    text: Seq<char>,
) -> bool {
    &&& metrics.is_shown_by(own)
    &&& gauges.wf()
    &&& forall|family: LevelFamily| #[trigger]
        gauges.log(family) == levels_of(node_levels(runtime), family)
    &&& gauges.is_shown_by(behind)
    &&& exposition(own + behind) == Some(text)
}

/// A text shows the families of a node, and behind them its levels.
pub open spec fn shows_with_levels(
    metrics: NodeMetrics,
    runtime: RuntimeGauges,
    text: Seq<char>,
) -> bool {
    exists|gauges: RuntimeFamilies, own: Seq<MetricFamily>, behind: Seq<MetricFamily>| #[trigger]
        shows_levels(metrics, runtime, gauges, own, behind, text)
}

proof fn lemma_tiers_fit(scope: Scope, n: int, i: int)
    requires
        0 <= n <= 5,
        0 <= i < crate::metrics::tier_series(scope, n).len(),
    ensures
        crate::metrics::tier_series(scope, n)[i].labels.len() == crate::metrics::tier_series(
            scope,
            n,
        )[i].family.arity(),
    decreases n,
{
    if n > 0 && i < crate::metrics::tier_series(scope, n - 1).len() {
        lemma_tiers_fit(scope, n - 1, i);
    }
}

proof fn lemma_reasons_fit(scope: Scope, n: int, i: int)
    requires
        0 <= n <= 8,
        0 <= i < crate::metrics::reason_series(scope, n).len(),
    ensures
        crate::metrics::reason_series(scope, n)[i].labels.len() == crate::metrics::reason_series(
            scope,
            n,
        )[i].family.arity(),
    decreases n,
{
    if n > 0 && i < crate::metrics::reason_series(scope, n - 1).len() {
        lemma_reasons_fit(scope, n - 1, i);
    }
}

proof fn lemma_stages_fit(n: int, i: int)
    requires
        0 <= n <= 5,
        0 <= i < crate::metrics::stage_series(n).len(),
    ensures
        crate::metrics::stage_series(n)[i].labels.len() == crate::metrics::stage_series(
            n,
        )[i].family.arity(),
    decreases n,
{
    if n > 0 && i < crate::metrics::stage_series(n - 1).len() {
        lemma_stages_fit(n - 1, i);
    }
}

proof fn lemma_scope_fit(scope: Scope, i: int)
    requires
        0 <= i < crate::metrics::scope_series(scope).len(),
    ensures
        crate::metrics::scope_series(scope)[i].labels.len() == crate::metrics::scope_series(
            scope,
        )[i].family.arity(),
{
    let tiers = crate::metrics::tier_series(scope, 5);
    let n = tiers.len() as int;
    if i >= 5 && i < 5 + n {
        lemma_tiers_fit(scope, 5, i - 5);
    } else if i >= 5 + n {
        lemma_reasons_fit(scope, 8, i - 5 - n);
    }
}

proof fn lemma_zero_series_fit(updates: Seq<MetricUpdate>)
    requires
        update_views(updates) == all_series(),
    ensures
        forall|i: int|
            0 <= i < updates.len() ==> (#[trigger] updates[i])@.labels.len()
                == updates[i].family.arity(),
{
    let a = crate::metrics::scope_series(Scope::Ingress).len() as int;
    let b = crate::metrics::scope_series(Scope::Forwarded).len() as int;
    assert forall|i: int| 0 <= i < updates.len() implies (#[trigger] updates[i])@.labels.len()
        == updates[i].family.arity() by {
        assert(update_views(updates)[i] == updates[i]@);
        assert(update_views(updates).len() == updates.len());
        if i < a {
            lemma_scope_fit(Scope::Ingress, i);
        } else if i < a + b {
            lemma_scope_fit(Scope::Forwarded, i - a);
        } else if i >= a + b + 8 {
            lemma_stages_fit(5, i - a - b - 8);
        }
    }
}

/// The families of levels.
#[derive(Clone, Copy, Debug, PartialEq, Eq, Structural)]
pub enum LevelFamily {
    QueueDepth,
    WorkerLoaded,
    MembershipSize,
    CpuPermitsInuse,
    DrainState,
}

impl LevelFamily {
    /// How many labels a level of the family has.
    pub open spec fn arity(self) -> nat {
        match self {
            LevelFamily::QueueDepth => 5,
            LevelFamily::WorkerLoaded => 2,
            LevelFamily::MembershipSize => 2,
            _ => 1,
        }
    }
}

/// The level of one series.
#[derive(Clone, Debug)]
pub struct Level {
    pub family: LevelFamily,
    pub labels: Vec<String>,
    pub value: i64,
}

pub struct LevelView {
    pub family: LevelFamily,
    pub labels: Seq<Seq<char>>,
    pub value: i64,
}

pub open spec fn strings(labels: Seq<String>) -> Seq<Seq<char>> {
    Seq::new(labels.len(), |i: int| labels[i]@)
}

impl View for Level {
    type V = LevelView;

    open spec fn view(&self) -> LevelView {
        LevelView { family: self.family, labels: strings(self.labels@), value: self.value }
    }
}

pub open spec fn level_views(levels: Seq<Level>) -> Seq<LevelView> {
    Seq::new(levels.len(), |i: int| levels[i]@)
}

/// Every level has as many labels as its family.
pub open spec fn levels_fit(levels: Seq<Level>) -> bool {
    forall|k: int|
        0 <= k < levels.len() ==> (#[trigger] levels[k]).labels@.len() == levels[k].family.arity()
}

pub open spec fn flag(b: bool) -> i64 {
    if b {
        1
    } else {
        0
    }
}

/// The levels of the first `n` workers.
pub open spec fn worker_levels(runtime: RuntimeGauges, n: int) -> Seq<LevelView>
    decreases n,
{
    if n <= 0 {
        Seq::empty()
    } else {
        let w = runtime.workers@[n - 1];
        worker_levels(runtime, n - 1) + seq![
            LevelView {
                family: LevelFamily::QueueDepth,
                labels: seq![
                    runtime.node_id@,
                    w.worker@,
                    w.style_id@,
                    w.render_mode@,
                    w.scale@,
                ],
                value: w.queue_depth,
            },
        ] + seq![
            LevelView {
                family: LevelFamily::WorkerLoaded,
                labels: seq![runtime.node_id@, w.worker@],
                value: flag(w.loaded),
            },
        ]
    }
}

/// The levels of a node: two for each worker, the members if it tracks them, the
/// permits in use, and whether it drains.
pub open spec fn node_levels(runtime: RuntimeGauges) -> Seq<LevelView> {
    worker_levels(runtime, runtime.workers@.len() as int) + match runtime.membership_live {
        Some(live) => seq![
            LevelView {
                family: LevelFamily::MembershipSize,
                labels: seq![runtime.node_id@, "live"@],
                value: live,
            },
        ],
        None => Seq::empty(),
    } + seq![
        LevelView {
            family: LevelFamily::CpuPermitsInuse,
            labels: seq![runtime.node_id@],
            value: runtime.cpu_permits_inuse,
        },
    ] + seq![
        LevelView {
            family: LevelFamily::DrainState,
            labels: seq![runtime.node_id@],
            value: flag(runtime.draining),
        },
    ]
}

fn add_level(out: &mut Vec<Level>, level: Level)
    requires
        level.labels@.len() == level.family.arity(),
        levels_fit(old(out)@),
    ensures
        level_views(final(out)@) == level_views(old(out)@) + seq![level@],
        levels_fit(final(out)@),
{
    let ghost before = out@;
    out.push(level);
    assert(level_views(out@) =~= level_views(before) + seq![level@]);
}

fn flag_value(b: bool) -> (r: i64)
    ensures
        r == flag(b),
{
    if b {
        1
    } else {
        0
    }
}

/// The levels of a node.
pub fn runtime_levels(runtime: &RuntimeGauges) -> (r: Vec<Level>)
    ensures
        level_views(r@) == node_levels(*runtime),
        levels_fit(r@),
{
    let mut out: Vec<Level> = Vec::new();
    let mut i: usize = 0;
    assert(level_views(out@) =~= worker_levels(*runtime, 0));
    while i < runtime.workers.len()
        invariant
            i <= runtime.workers@.len(),
            level_views(out@) == worker_levels(*runtime, i as int),
            levels_fit(out@),
        decreases runtime.workers.len() - i,
    {
        let w = &runtime.workers[i];
        let mut depth: Vec<String> = Vec::new();
        depth.push(runtime.node_id.clone());
        depth.push(w.worker.clone());
        depth.push(w.style_id.clone());
        depth.push(w.render_mode.to_owned());
        depth.push(w.scale.to_owned());
        assert(strings(depth@) =~= seq![
            runtime.node_id@,
            w.worker@,
            w.style_id@,
            w.render_mode@,
            w.scale@,
        ]);
        add_level(
            &mut out,
            Level { family: LevelFamily::QueueDepth, labels: depth, value: w.queue_depth },
        );
        let mut loaded: Vec<String> = Vec::new();
        loaded.push(runtime.node_id.clone());
        loaded.push(w.worker.clone());
        assert(strings(loaded@) =~= seq![runtime.node_id@, w.worker@]);
        add_level(
            &mut out,
            Level {
                family: LevelFamily::WorkerLoaded,
                labels: loaded,
                value: flag_value(w.loaded),
            },
        );
        i += 1;
        assert(level_views(out@) =~= worker_levels(*runtime, i as int));
    }
    if let Some(live) = runtime.membership_live {
        let mut labels: Vec<String> = Vec::new();
        labels.push(runtime.node_id.clone());
        labels.push("live".to_owned());
        assert(strings(labels@) =~= seq![runtime.node_id@, "live"@]);
        add_level(&mut out, Level { family: LevelFamily::MembershipSize, labels, value: live });
    }
    let mut permits: Vec<String> = Vec::new();
    permits.push(runtime.node_id.clone());
    assert(strings(permits@) =~= seq![runtime.node_id@]);
    add_level(
        &mut out,
        Level {
            family: LevelFamily::CpuPermitsInuse,
            labels: permits,
            value: runtime.cpu_permits_inuse,
        },
    );
    let mut drain: Vec<String> = Vec::new();
    drain.push(runtime.node_id.clone());
    assert(strings(drain@) =~= seq![runtime.node_id@]);
    add_level(
        &mut out,
        Level {
            family: LevelFamily::DrainState,
            labels: drain,
            value: flag_value(runtime.draining),
        },
    );
    assert(level_views(out@) =~= node_levels(*runtime));
    out
}

/// What the families of levels are made with.
pub open spec fn level_made(family: LevelFamily) -> Made {
    match family {
        LevelFamily::QueueDepth => made(
            "biei_queue_depth"@,
            "Current queued tasks per renderer worker."@,
            seq!["node"@, "worker"@, "style_id"@, "render_mode"@, "scale"@],
        ),
        LevelFamily::WorkerLoaded => made(
            "biei_worker_loaded"@,
            "Whether a renderer worker has a loaded profile."@,
            seq!["node"@, "worker"@],
        ),
        LevelFamily::MembershipSize => made(
            "biei_membership_size"@,
            "Current membership size by state."@,
            seq!["node"@, "state"@],
        ),
        LevelFamily::CpuPermitsInuse => made(
            "biei_cpu_permits_inuse"@,
            "Currently held CPU/GPU render-stage permits."@,
            seq!["node"@],
        ),
        LevelFamily::DrainState => made(
            "biei_drain_state"@,
            "Whether the node is draining."@,
            seq!["node"@],
        ),
    }
}

/// Prometheus makes every family of levels: its names are well spelled and its help
/// text is not empty.
pub proof fn law_every_level_family_can_be_made(family: LevelFamily)
    ensures
        describable(level_made(family).name, level_made(family).help, level_made(family).labels),
{
    match family {
        LevelFamily::QueueDepth => {
            reveal_strlit("biei_queue_depth");
            reveal_strlit("Current queued tasks per renderer worker.");
            reveal_strlit("node");
            reveal_strlit("worker");
            reveal_strlit("style_id");
            reveal_strlit("render_mode");
            reveal_strlit("scale");
            assert(is_metric_name("biei_queue_depth"@));
            assert(is_label_name("node"@) && "node"@.len() == 4);
            assert(is_label_name("worker"@) && "worker"@.len() == 6);
            assert(is_label_name("style_id"@) && "style_id"@.len() == 8);
            assert(is_label_name("render_mode"@) && "render_mode"@.len() == 11);
            assert(is_label_name("scale"@) && "scale"@.len() == 5);
        },
        LevelFamily::WorkerLoaded => {
            reveal_strlit("biei_worker_loaded");
            reveal_strlit("Whether a renderer worker has a loaded profile.");
            reveal_strlit("node");
            reveal_strlit("worker");
            assert(is_metric_name("biei_worker_loaded"@));
            assert(is_label_name("node"@) && "node"@.len() == 4);
            assert(is_label_name("worker"@) && "worker"@.len() == 6);
        },
        LevelFamily::MembershipSize => {
            reveal_strlit("biei_membership_size");
            reveal_strlit("Current membership size by state.");
            reveal_strlit("node");
            reveal_strlit("state");
            assert(is_metric_name("biei_membership_size"@));
            assert(is_label_name("node"@) && "node"@.len() == 4);
            assert(is_label_name("state"@) && "state"@.len() == 5);
        },
        LevelFamily::CpuPermitsInuse => {
            reveal_strlit("biei_cpu_permits_inuse");
            reveal_strlit("Currently held CPU/GPU render-stage permits.");
            reveal_strlit("node");
            assert(is_metric_name("biei_cpu_permits_inuse"@));
            assert(is_label_name("node"@) && "node"@.len() == 4);
        },
        LevelFamily::DrainState => {
            reveal_strlit("biei_drain_state");
            reveal_strlit("Whether the node is draining.");
            reveal_strlit("node");
            assert(is_metric_name("biei_drain_state"@));
            assert(is_label_name("node"@) && "node"@.len() == 4);
        },
    }
}

/// What the families of levels are made with, in the order of their registration.
pub open spec fn level_families() -> Seq<Made> {
    seq![
        level_made(LevelFamily::QueueDepth),
        level_made(LevelFamily::WorkerLoaded),
        level_made(LevelFamily::MembershipSize),
        level_made(LevelFamily::CpuPermitsInuse),
        level_made(LevelFamily::DrainState),
    ]
}

/// The levels of one family among levels, in order.
pub open spec fn levels_of(levels: Seq<LevelView>, family: LevelFamily) -> Seq<(Seq<Seq<char>>, i64)>
    decreases levels.len(),
{
    if levels.len() == 0 {
        Seq::empty()
    } else {
        let rest = levels_of(levels.drop_last(), family);
        let last = levels.last();
        if last.family == family {
            rest.push((last.labels, last.value))
        } else {
            rest
        }
    }
}

/// What a family of levels was told, in order.
pub open spec fn levels_told(log: Seq<Entry>) -> Seq<(Seq<Seq<char>>, i64)> {
    Seq::new(log.len(), |i: int| (log[i].labels, log[i].told->Leveled_0))
}

/// What a family of levels can have been told.
pub open spec fn is_leveled(log: Seq<Entry>) -> bool {
    forall|k: int|
        0 <= k < log.len() ==> (#[trigger] log[k]).id == series_id(log[k].labels)
            && log[k].told is Leveled
}

/// The last level of labels with a hash.
pub open spec fn latest(log: Seq<(Seq<Seq<char>>, i64)>, id: u64) -> i64
    decreases log.len(),
{
    if log.len() == 0 {
        0
    } else if series_id(log.last().0) == id {
        log.last().1
    } else {
        latest(log.drop_last(), id)
    }
}

/// The level brought its series into being, whose labels it gave.
pub open spec fn level_begins(log: Seq<(Seq<Seq<char>>, i64)>, k: int) -> bool {
    0 <= k < log.len() && forall|j: int|
        0 <= j < k ==> series_id((#[trigger] log[j]).0) != series_id(log[k].0)
}

/// The series are those that have a level, and show the last one, as the text does
/// under the name.
pub open spec fn shows_latest(
    samples: Map<Seq<(Seq<char>, Seq<char>)>, int>,
    text: Option<Seq<char>>,
    name: Seq<char>,
    names: Seq<Seq<char>>,
    log: Seq<(Seq<Seq<char>>, i64)>,
) -> bool {
    &&& forall|k: int| #[trigger]
        level_begins(log, k) ==> samples.contains_key(label_pairs(names, log[k].0)) && (is_exact(
            latest(log, series_id(log[k].0)) as int,
        ) ==> samples[label_pairs(names, log[k].0)] == latest(log, series_id(log[k].0)))
    &&& forall|values: Seq<(Seq<char>, Seq<char>)>| #[trigger]
        samples.contains_key(values) ==> exists|k: int| #[trigger]
            level_begins(log, k) && label_pairs(names, log[k].0) == values
    &&& text is Some && names.len() > 0 ==> forall|k: int| #[trigger]
        level_begins(log, k) && is_exact(latest(log, series_id(log[k].0)) as int) ==> has_line(
            text->0,
            sample_line(
                name,
                label_pairs(names, log[k].0),
                latest(log, series_id(log[k].0)) as int,
            ),
        )
}

proof fn lemma_value_level(log: Seq<Entry>, id: u64)
    requires
        is_leveled(log),
    ensures
        value_of(log, id) == latest(levels_told(log), id),
    decreases log.len(),
{
    if log.len() > 0 {
        let front = log.drop_last();
        let levels = levels_told(log);
        assert(levels.drop_last() =~= levels_told(front));
        assert forall|k: int| 0 <= k < front.len() implies (#[trigger] front[k]).id == series_id(
            front[k].labels,
        ) && front[k].told is Leveled by {
            assert(front[k] == log[k]);
        }
        lemma_value_level(front, id);
        let n = log.len() - 1;
        assert(log[n].id == series_id(log[n].labels) && log[n].told is Leveled);
        assert(levels[n] == (log[n].labels, log[n].told->Leveled_0));
    }
}

proof fn lemma_level_begins(log: Seq<Entry>, k: int)
    requires
        is_leveled(log),
    ensures
        level_begins(levels_told(log), k) == is_first(log, k),
{
    let levels = levels_told(log);
    if 0 <= k < log.len() {
        assert(log[k].id == series_id(log[k].labels));
        if is_first(log, k) {
            assert forall|j: int| 0 <= j < k implies series_id((#[trigger] levels[j]).0)
                != series_id(levels[k].0) by {
                assert(log[j].id == series_id(log[j].labels));
            }
        } else {
            let j = choose|j: int| 0 <= j < k && (#[trigger] log[j]).id == log[k].id;
            assert(log[j].id == series_id(log[j].labels));
            assert(series_id(levels[j].0) == series_id(levels[k].0));
        }
    }
}

proof fn lemma_shows_latest(
    samples: Map<Seq<(Seq<char>, Seq<char>)>, int>,
    text: Option<Seq<char>>,
    name: Seq<char>,
    view: FamilyView,
)
    requires
        is_leveled(view.log),
        shows_series(samples, text, name, view),
    ensures
        shows_latest(samples, text, name, view.made.labels, levels_told(view.log)),
{
    let log = view.log;
    let names = view.made.labels;
    let levels = levels_told(log);
    assert forall|k: int| #[trigger] level_begins(levels, k) implies samples.contains_key(
        label_pairs(names, levels[k].0),
    ) && (is_exact(latest(levels, series_id(levels[k].0)) as int) ==> samples[label_pairs(
        names,
        levels[k].0,
    )] == latest(levels, series_id(levels[k].0))) by {
        lemma_level_begins(log, k);
        assert(log[k].id == series_id(log[k].labels));
        lemma_value_level(log, log[k].id);
    }
    assert forall|values: Seq<(Seq<char>, Seq<char>)>| #[trigger]
        samples.contains_key(values) implies exists|k: int| #[trigger]
        level_begins(levels, k) && label_pairs(names, levels[k].0) == values by {
        let k = choose|k: int| #[trigger]
            is_first(log, k) && label_pairs(names, log[k].labels) == values;
        lemma_level_begins(log, k);
        assert(levels[k].0 == log[k].labels);
        assert(level_begins(levels, k));
    }
    if text is Some && names.len() > 0 {
        assert forall|k: int| #[trigger]
            level_begins(levels, k) && is_exact(
                latest(levels, series_id(levels[k].0)) as int,
            ) implies has_line(
            text->0,
            sample_line(
                name,
                label_pairs(names, levels[k].0),
                latest(levels, series_id(levels[k].0)) as int,
            ),
        ) by {
            lemma_level_begins(log, k);
            assert(log[k].id == series_id(log[k].labels));
            lemma_value_level(log, log[k].id);
        }
    }
}

/// Where a family of levels stands among those of a node.
pub open spec fn level_index(family: LevelFamily) -> int {
    match family {
        LevelFamily::QueueDepth => 0,
        LevelFamily::WorkerLoaded => 1,
        LevelFamily::MembershipSize => 2,
        LevelFamily::CpuPermitsInuse => 3,
        LevelFamily::DrainState => 4,
    }
}

fn level_slot(family: LevelFamily) -> (r: usize)
    ensures
        r == level_index(family),
{
    match family {
        LevelFamily::QueueDepth => 0,
        LevelFamily::WorkerLoaded => 1,
        LevelFamily::MembershipSize => 2,
        LevelFamily::CpuPermitsInuse => 3,
        LevelFamily::DrainState => 4,
    }
}

/// The levels of a node at one moment, in a registry of their own.
pub struct RuntimeFamilies {
    set: MetricSet,
}

impl RuntimeFamilies {
    closed spec fn family_view(&self, family: LevelFamily) -> FamilyView {
        levels_in(self.set)[level_index(family)]
    }

    /// What a family was told, in order.
    pub closed spec fn log(&self, family: LevelFamily) -> Seq<(Seq<Seq<char>>, i64)> {
        levels_told(self.family_view(family).log)
    }

    /// What a family was made with.
    pub closed spec fn made_with(&self, family: LevelFamily) -> Made {
        self.family_view(family).made
    }

    /// The families that are shown.
    pub closed spec fn shown(&self) -> Seq<Made> {
        registered(self.set)
    }

    /// The names of the families that have a level.
    pub closed spec fn lively(&self) -> Set<Seq<char>> {
        live(counts_in(self.set), durations_in(self.set), levels_in(self.set))
    }

    /// All families are there, and were told levels.
    pub closed spec fn is_whole(&self) -> bool {
        &&& counts_in(self.set).len() == 0
        &&& durations_in(self.set).len() == 0
        &&& levels_in(self.set).len() == 5
        &&& forall|family: LevelFamily| is_leveled((#[trigger] self.family_view(family)).log)
    }

    /// The families are those of a node's levels, and are all shown that have one.
    pub open spec fn wf(&self) -> bool {
        &&& self.is_whole()
        &&& self.shown() == level_families()
        &&& forall|family: LevelFamily| #[trigger] self.made_with(family) == level_made(family)
    }

    /// Families as they are gathered: those that have a level, with their levels.
    pub open spec fn is_shown_by(&self, families: Seq<MetricFamily>) -> bool {
        &&& listed(self.shown(), self.lively(), families)
        &&& writable(families)
        &&& forall|i: int, family: LevelFamily|
            0 <= i < families.len() && family_name(#[trigger] families[i]) == (
            #[trigger] level_made(family)).name ==> shows_latest(
                family_samples(families[i]),
                family_text(families[i]),
                level_made(family).name,
                level_made(family).labels,
                self.log(family),
            )
    }

    /// A family that has a level is shown.
    pub proof fn law_levels_are_shown(&self, family: LevelFamily)
        requires
            self.wf(),
            self.log(family).len() > 0,
        ensures
            self.lively().contains(level_made(family).name),
    {
        assert(self.made_with(family) == level_made(family));
        assert(levels_in(self.set)[level_index(family)] == self.family_view(family));
    }

    /// Registers the families of levels. Whether Prometheus took them.
    fn register_all(
        &mut self,
        queue_depth: Levels,
        worker_loaded: Levels,
        membership_size: Levels,
        cpu_permits_inuse: Levels,
        drain_state: Levels,
    ) -> (r: bool)
        requires
            registered(old(self).set) == nothing_registered(),
            counts_in(old(self).set) == no_families(),
            durations_in(old(self).set) == no_families(),
            levels_in(old(self).set) == no_families(),
            levels_made(queue_depth) == level_made(LevelFamily::QueueDepth),
            levels_made(worker_loaded) == level_made(LevelFamily::WorkerLoaded),
            levels_made(membership_size) == level_made(LevelFamily::MembershipSize),
            levels_made(cpu_permits_inuse) == level_made(LevelFamily::CpuPermitsInuse),
            levels_made(drain_state) == level_made(LevelFamily::DrainState),
        ensures
            r <==> ids_apart(level_families()),
            r ==> final(self).wf(),
            r ==> forall|family: LevelFamily| #[trigger] final(self).log(family).len() == 0,
    {
        let taken = register_levels(&mut self.set, queue_depth)
            && register_levels(&mut self.set, worker_loaded)
            && register_levels(&mut self.set, membership_size)
            && register_levels(&mut self.set, cpu_permits_inuse)
            && register_levels(&mut self.set, drain_state);
        proof {
            if taken {
                assert(self.shown() =~= level_families());
                assert(ids_apart(level_families()));
                assert forall|family: LevelFamily| #[trigger] self.family_view(family) == fresh(
                    level_made(family),
                ) by {}
                assert forall|family: LevelFamily| #[trigger] self.log(family).len() == 0 by {
                    assert(self.family_view(family) == fresh(level_made(family)));
                }
                assert forall|family: LevelFamily| #[trigger] self.made_with(family)
                    == level_made(family) by {
                    assert(self.family_view(family) == fresh(level_made(family)));
                }
                assert(self.is_whole());
            } else {
                assert(!ids_apart(level_families()));
            }
        }
        taken
    }

    /// The families without a level. None if Prometheus gives two of them the same
    /// `id`, and so refuses one.
    fn new() -> (r: Option<RuntimeFamilies>)
        ensures
            r is Some <==> ids_apart(level_families()),
            r matches Some(families) ==> families.wf() && forall|family: LevelFamily| #[trigger]
                families.log(family).len() == 0,
    {
        proof {
            law_every_level_family_can_be_made(LevelFamily::QueueDepth);
            law_every_level_family_can_be_made(LevelFamily::WorkerLoaded);
            law_every_level_family_can_be_made(LevelFamily::MembershipSize);
            law_every_level_family_can_be_made(LevelFamily::CpuPermitsInuse);
            law_every_level_family_can_be_made(LevelFamily::DrainState);
        }
        let five: [&str; 5] = ["node", "worker", "style_id", "render_mode", "scale"];
        assert(label_texts(five@) =~= level_made(LevelFamily::QueueDepth).labels);
        let queue_depth = new_levels(
            "biei_queue_depth",
            "Current queued tasks per renderer worker.",
            five.as_slice(),
        )?;
        let by_worker: [&str; 2] = ["node", "worker"];
        assert(label_texts(by_worker@) =~= level_made(LevelFamily::WorkerLoaded).labels);
        let worker_loaded = new_levels(
            "biei_worker_loaded",
            "Whether a renderer worker has a loaded profile.",
            by_worker.as_slice(),
        )?;
        let by_state: [&str; 2] = ["node", "state"];
        assert(label_texts(by_state@) =~= level_made(LevelFamily::MembershipSize).labels);
        let membership_size = new_levels(
            "biei_membership_size",
            "Current membership size by state.",
            by_state.as_slice(),
        )?;
        let by_node: [&str; 1] = ["node"];
        assert(label_texts(by_node@) =~= level_made(LevelFamily::DrainState).labels);
        let cpu_permits_inuse = new_levels(
            "biei_cpu_permits_inuse",
            "Currently held CPU/GPU render-stage permits.",
            by_node.as_slice(),
        )?;
        let drain_state = new_levels(
            "biei_drain_state",
            "Whether the node is draining.",
            by_node.as_slice(),
        )?;
        let mut gauges = RuntimeFamilies { set: new_set() };
        if gauges.register_all(
            queue_depth,
            worker_loaded,
            membership_size,
            cpu_permits_inuse,
            drain_state,
        ) {
            Some(gauges)
        } else {
            None
        }
    }

    fn set(&mut self, level: &Level)
        requires
            old(self).wf(),
            level.labels@.len() == level.family.arity(),
        ensures
            final(self).wf(),
            forall|f: LevelFamily| #[trigger]
                final(self).log(f) == if f == level.family {
                    old(self).log(f).push((level@.labels, level.value))
                } else {
                    old(self).log(f)
                },
    {
        let ghost before = *self;
        let mut labels: Vec<&str> = Vec::new();
        let mut i: usize = 0;
        while i < level.labels.len()
            invariant
                i <= level.labels@.len(),
                labels@.len() == i,
                forall|j: int| 0 <= j < i ==> #[trigger] labels@[j]@ == level.labels@[j]@,
            decreases level.labels.len() - i,
        {
            labels.push(level.labels[i].as_str());
            i += 1;
        }
        assert(label_texts(labels@) =~= level@.labels);
        assert(before.made_with(level.family) == level_made(level.family));
        assert(levels_in(before.set)[level_index(level.family)] == before.family_view(
            level.family,
        ));
        set_level(&mut self.set, level_slot(level.family), &labels, level.value);
        let ghost entry = Entry {
            id: series_id(level@.labels),
            labels: level@.labels,
            told: Told::Leveled(level.value),
        };
        proof {
            assert forall|f: LevelFamily| #[trigger] self.family_view(f) == if f == level.family {
                FamilyView {
                    made: before.family_view(f).made,
                    log: before.family_view(f).log.push(entry),
                }
            } else {
                before.family_view(f)
            } by {}
            assert forall|f: LevelFamily| #[trigger] self.made_with(f) == level_made(f) by {
                assert(before.made_with(f) == level_made(f));
                assert(self.family_view(f).made == before.family_view(f).made);
            }
            assert forall|f: LevelFamily| is_leveled((#[trigger] self.family_view(f)).log) by {
                assert(is_leveled(before.family_view(f).log));
            }
            assert forall|f: LevelFamily| #[trigger]
                self.log(f) == if f == level.family {
                    before.log(f).push((level@.labels, level.value))
                } else {
                    before.log(f)
                } by {
                if f == level.family {
                    assert(self.family_view(f).log == before.family_view(f).log.push(entry));
                    assert(self.log(f) =~= before.log(f).push((level@.labels, level.value)));
                } else {
                    assert(self.family_view(f) == before.family_view(f));
                }
            }
        }
    }

    /// The levels of a node. None if Prometheus gives two of the families the same
    /// `id`, and so refuses one.
    pub fn of(runtime: &RuntimeGauges) -> (r: Option<RuntimeFamilies>)
        ensures
            r is Some <==> ids_apart(level_families()),
            r matches Some(families) ==> families.wf() && forall|family: LevelFamily| #[trigger]
                families.log(family) == levels_of(node_levels(*runtime), family),
    {
        let mut gauges = RuntimeFamilies::new()?;
        let levels = runtime_levels(runtime);
        let ghost all = level_views(levels@);
        let mut i: usize = 0;
        assert forall|f: LevelFamily| #[trigger] gauges.log(f) == levels_of(all.take(0), f) by {
            assert(gauges.log(f) =~= levels_of(all.take(0), f));
        }
        while i < levels.len()
            invariant
                i <= levels@.len(),
                gauges.wf(),
                levels_fit(levels@),
                all == level_views(levels@),
                forall|f: LevelFamily| #[trigger]
                    gauges.log(f) == levels_of(all.take(i as int), f),
            decreases levels.len() - i,
        {
            let ghost before = gauges;
            gauges.set(&levels[i]);
            proof {
                let more = all.take(i + 1);
                assert(more.drop_last() =~= all.take(i as int));
                assert(more.last() == levels@[i as int]@);
                assert forall|f: LevelFamily| #[trigger] gauges.log(f) == levels_of(more, f) by {
                    assert(before.log(f) == levels_of(all.take(i as int), f));
                }
            }
            i += 1;
        }
        assert(all.take(i as int) =~= all);
        Some(gauges)
    }

    /// The families with their levels.
    pub fn gather(&self) -> (r: Vec<MetricFamily>)
        requires
            self.wf(),
        ensures
            self.is_shown_by(r@),
    {
        let r = gather_families(&self.set);
        assert forall|i: int, family: LevelFamily|
            0 <= i < r@.len() && family_name(#[trigger] r@[i]) == (#[trigger] level_made(
                family,
            )).name implies shows_latest(
            family_samples(r@[i]),
            family_text(r@[i]),
            level_made(family).name,
            level_made(family).labels,
            self.log(family),
        ) by {
            let view = self.family_view(family);
            assert(self.made_with(family) == level_made(family));
            assert(is_leveled(view.log));
            assert(levels_in(self.set)[level_index(family)] == view);
            let name = level_made(family).name;
            assert(shows_series(family_samples(r@[i]), family_text(r@[i]), name, view));
            lemma_shows_latest(family_samples(r@[i]), family_text(r@[i]), name, view);
        }
        r
    }
}

/// A series counts once for each change of its own labels that counts, and not for any
/// other: one that only brings it into being, or one of other labels.
pub proof fn law_each_change_counts_once(
    log: Seq<(Seq<Seq<char>>, Change)>,
    labels: Seq<Seq<char>>,
    other: Seq<Seq<char>>,
    ns: u64,
)
    requires
        other != labels,
    ensures
        times_counted(Seq::empty(), labels) == 0,
        times_counted(log.push((labels, Change::Count)), labels) == times_counted(log, labels) + 1,
        times_counted(log.push((labels, Change::Observe(ns))), labels) == times_counted(log, labels)
            + 1,
        times_counted(log.push((labels, Change::Create)), labels) == times_counted(log, labels),
        times_counted(log.push((other, Change::Count)), labels) == times_counted(log, labels),
{
    assert(log.push((labels, Change::Count)).drop_last() =~= log);
    assert(log.push((labels, Change::Observe(ns))).drop_last() =~= log);
    assert(log.push((labels, Change::Create)).drop_last() =~= log);
    assert(log.push((other, Change::Count)).drop_last() =~= log);
}

/// A family is told of its own updates, in order, and of no others: a counter counts, and a
/// histogram observes.
pub proof fn law_families_are_told_of_their_own(
    updates: Seq<UpdateView>,
    update: UpdateView,
    family: Family,
)
    ensures
        changes_of(Seq::empty(), family).len() == 0,
        update.family != family ==> changes_of(updates.push(update), family) == changes_of(
            updates,
            family,
        ),
        update.family == family && family != Family::RequestDuration && family
            != Family::CpuRenderDuration && update.change == Change::Count ==> changes_of(
            updates.push(update),
            family,
        ) == changes_of(updates, family).push((update.labels, Change::Count)),
        update.family == family && (family == Family::RequestDuration || family
            == Family::CpuRenderDuration) && update.change is Observe ==> changes_of(
            updates.push(update),
            family,
        ) == changes_of(updates, family).push((update.labels, update.change)),
        update.family == family && update.change == Change::Create ==> changes_of(
            updates.push(update),
            family,
        ) == changes_of(updates, family).push((update.labels, Change::Create)),
{
    assert(updates.push(update).drop_last() =~= updates);
}

/// Levels go to their own families, in order.
pub proof fn law_levels_go_to_their_family(
    levels: Seq<LevelView>,
    level: LevelView,
    family: LevelFamily,
)
    ensures
        levels_of(Seq::empty(), family).len() == 0,
        level.family == family ==> levels_of(levels.push(level), family) == levels_of(
            levels,
            family,
        ).push((level.labels, level.value)),
        level.family != family ==> levels_of(levels.push(level), family) == levels_of(
            levels,
            family,
        ),
{
    assert(levels.push(level).drop_last() =~= levels);
}

/// The last level of a series counts.
pub proof fn law_the_last_level_counts(
    log: Seq<(Seq<Seq<char>>, i64)>,
    labels: Seq<Seq<char>>,
    value: i64,
    id: u64,
)
    ensures
        latest(log.push((labels, value)), series_id(labels)) == value,
        id != series_id(labels) ==> latest(log.push((labels, value)), id) == latest(log, id),
{
    assert(log.push((labels, value)).drop_last() =~= log);
}

/// A node says of each of its workers how much waits for it, and for which style, and
/// whether it is loaded.
pub proof fn law_nodes_tell_of_their_workers(runtime: RuntimeGauges, i: int)
    requires
        0 <= i < runtime.workers@.len(),
    ensures
        node_levels(runtime).contains(
            LevelView {
                family: LevelFamily::QueueDepth,
                labels: seq![
                    runtime.node_id@,
                    runtime.workers@[i].worker@,
                    runtime.workers@[i].style_id@,
                    runtime.workers@[i].render_mode@,
                    runtime.workers@[i].scale@,
                ],
                value: runtime.workers@[i].queue_depth,
            },
        ),
        node_levels(runtime).contains(
            LevelView {
                family: LevelFamily::WorkerLoaded,
                labels: seq![runtime.node_id@, runtime.workers@[i].worker@],
                value: if runtime.workers@[i].loaded {
                    1
                } else {
                    0
                },
            },
        ),
{
    let n = runtime.workers@.len() as int;
    lemma_worker_levels(runtime, i, n);
    let workers = worker_levels(runtime, n);
    assert(workers[2 * i] == node_levels(runtime)[2 * i]);
    assert(workers[2 * i + 1] == node_levels(runtime)[2 * i + 1]);
}

proof fn lemma_worker_levels(runtime: RuntimeGauges, i: int, n: int)
    requires
        0 <= i < n <= runtime.workers@.len(),
    ensures
        worker_levels(runtime, n).len() == 2 * n,
        worker_levels(runtime, n)[2 * i] == (LevelView {
            family: LevelFamily::QueueDepth,
            labels: seq![
                runtime.node_id@,
                runtime.workers@[i].worker@,
                runtime.workers@[i].style_id@,
                runtime.workers@[i].render_mode@,
                runtime.workers@[i].scale@,
            ],
            value: runtime.workers@[i].queue_depth,
        }),
        worker_levels(runtime, n)[2 * i + 1] == (LevelView {
            family: LevelFamily::WorkerLoaded,
            labels: seq![runtime.node_id@, runtime.workers@[i].worker@],
            value: flag(runtime.workers@[i].loaded),
        }),
    decreases n,
{
    if i < n - 1 {
        lemma_worker_levels(runtime, i, n - 1);
    } else if n > 1 {
        lemma_worker_levels(runtime, n - 2, n - 1);
    } else {
        assert(worker_levels(runtime, 0).len() == 0);
    }
}

/// A node says how many members live, how many permits are in use, and whether it drains.
pub proof fn law_nodes_tell_of_themselves(runtime: RuntimeGauges)
    ensures
        runtime.membership_live matches Some(live) ==> node_levels(runtime).contains(
            LevelView {
                family: LevelFamily::MembershipSize,
                labels: seq![runtime.node_id@, "live"@],
                value: live,
            },
        ),
        node_levels(runtime).contains(
            LevelView {
                family: LevelFamily::CpuPermitsInuse,
                labels: seq![runtime.node_id@],
                value: runtime.cpu_permits_inuse,
            },
        ),
        node_levels(runtime).contains(
            LevelView {
                family: LevelFamily::DrainState,
                labels: seq![runtime.node_id@],
                value: if runtime.draining {
                    1
                } else {
                    0
                },
            },
        ),
{
    let all = node_levels(runtime);
    let n = all.len() as int;
    assert(all[n - 1].family == LevelFamily::DrainState);
    assert(all[n - 2].family == LevelFamily::CpuPermitsInuse);
    if runtime.membership_live is Some {
        assert(all[n - 3].family == LevelFamily::MembershipSize);
    }
}

/// Families go by their names, and have their labels.
pub proof fn law_families_have_their_names()
    ensures
        family_made(Family::Completed).name == "biei_tasks_completed_total"@,
        family_made(Family::Completed).labels == seq!["scope"@, "route_tier"@],
        family_made(Family::Rejected).name == "biei_tasks_rejected_total"@,
        family_made(Family::Rejected).labels == seq!["scope"@, "reason"@],
        family_made(Family::Failed).name == "biei_tasks_failed_total"@,
        family_made(Family::Failed).labels == seq!["scope"@],
        family_made(Family::RequestDuration).name == "biei_request_duration_seconds"@,
        family_made(Family::RequestDuration).labels == seq!["scope"@, "route_tier"@],
        family_made(Family::CpuRenderDuration).name == "biei_cpu_render_duration_seconds"@,
        family_made(Family::CpuRenderDuration).labels == seq!["scope"@],
        family_made(Family::StyleSwaps).name == "biei_style_swaps_total"@,
        family_made(Family::ColdStarts).name == "biei_cold_starts_total"@,
        family_made(Family::SourceCache).name == "biei_source_cache_total"@,
        family_made(Family::SourceCache).labels == seq!["outcome"@],
        family_made(Family::RenderOutputCache).name == "biei_render_output_cache_total"@,
        family_made(Family::RenderOutputCache).labels == seq!["outcome"@],
        family_made(Family::Forwards).name == "biei_forwards_total"@,
        family_made(Family::Forwards).labels == seq!["outcome"@],
        family_made(Family::AdmissionOverflow).name == "biei_admission_overflow_total"@,
        family_made(Family::DeadlineExceeded).name == "biei_deadline_exceeded_total"@,
        family_made(Family::DeadlineExceeded).labels == seq!["stage"@],
        level_made(LevelFamily::QueueDepth).name == "biei_queue_depth"@,
        level_made(LevelFamily::QueueDepth).labels == seq![
            "node"@,
            "worker"@,
            "style_id"@,
            "render_mode"@,
            "scale"@,
        ],
        level_made(LevelFamily::WorkerLoaded).name == "biei_worker_loaded"@,
        level_made(LevelFamily::WorkerLoaded).labels == seq!["node"@, "worker"@],
        level_made(LevelFamily::MembershipSize).name == "biei_membership_size"@,
        level_made(LevelFamily::MembershipSize).labels == seq!["node"@, "state"@],
        level_made(LevelFamily::CpuPermitsInuse).name == "biei_cpu_permits_inuse"@,
        level_made(LevelFamily::CpuPermitsInuse).labels == seq!["node"@],
        level_made(LevelFamily::DrainState).name == "biei_drain_state"@,
        level_made(LevelFamily::DrainState).labels == seq!["node"@],
        NodeMetrics::attempt_text(ForwardCount::Success) == "success"@,
        NodeMetrics::attempt_text(ForwardCount::Retryable) == "retryable"@,
        NodeMetrics::attempt_text(ForwardCount::Fatal) == "fatal"@,
{
}

/// In the value of a label a backslash, a quote and the end of a line are escaped, and
/// every other character is written as it is.
pub proof fn law_label_values_are_escaped(value: Seq<char>, c: char)
    ensures
        escaped_value(Seq::empty()).len() == 0,
        c == '\\' || c == '"' ==> escaped_value(value.push(c)) == escaped_value(value) + seq![
            '\\',
            c,
        ],
        escaped_value(value.push('\n')) == escaped_value(value) + seq!['\\', 'n'],
        c != '\\' && c != '"' && c != '\n' ==> escaped_value(value.push(c)) == escaped_value(
            value,
        ).push(c),
{
    assert(value.push(c).drop_last() =~= value);
    assert(value.push('\n').drop_last() =~= value);
}

/// Labels are written one after another with commas between them, each as its name, an
/// equals sign and its value in quotes.
pub proof fn law_labels_are_written_in_turn(
    labels: Seq<(Seq<char>, Seq<char>)>,
    name: Seq<char>,
    value: Seq<char>,
)
    ensures
        labels_text(Seq::empty()).len() == 0,
        labels_text(seq![(name, value)]) == name + seq!['=', '"'] + escaped_value(value) + seq![
            '"',
        ],
        labels.len() > 0 ==> labels_text(labels.push((name, value))) == labels_text(labels)
            + seq![','] + labels_text(seq![(name, value)]),
{
    assert(labels.push((name, value)).drop_last() =~= labels);
}

} // verus!
