//! Counters, gauges and their registry, of the `prometheus-client` crate.
//!
//! A handle and its clone share one cell, and the registry, which holds a
//! clone, reads that cell when it is encoded. So what a handle holds is named
//! here as a pair: the cell, and what is in it. No clone is handed out, and
//! whatever changes a cell takes its handle by `&mut`.
use prometheus_client::encoding::text::encode;
use prometheus_client::metrics::counter::Counter;
use prometheus_client::metrics::family::Family;
use prometheus_client::metrics::gauge::Gauge;
use prometheus_client::metrics::histogram::Histogram;
use prometheus_client::registry::Registry;
use std::time::Duration;
use vstd::prelude::*;

verus! {

/// `prometheus_client::registry::Registry`, a list of series to encode.
#[verifier::external_type_specification]
#[verifier::external_body]
pub struct ExRegistry(Registry);

/// `prometheus_client::metrics::counter::Counter`.
#[verifier::external_type_specification]
#[verifier::external_body]
#[verifier::reject_recursive_types(N)]
#[verifier::reject_recursive_types(A)]
pub struct ExCounter<N, A>(Counter<N, A>);

/// `prometheus_client::metrics::gauge::Gauge`.
#[verifier::external_type_specification]
#[verifier::external_body]
#[verifier::reject_recursive_types(N)]
#[verifier::reject_recursive_types(A)]
pub struct ExGauge<N, A>(Gauge<N, A>);

/// `prometheus_client::metrics::histogram::Histogram`.
#[verifier::external_type_specification]
#[verifier::external_body]
pub struct ExHistogram(Histogram);

/// Counters that are told apart by the value of one label: a
/// `prometheus_client::metrics::family::Family`. The type of a family holds a
/// function pointer, which Verus does not read, so it is kept out of sight.
#[verifier::external_body]
#[derive(Debug)]
pub struct CounterFamily {
    family: Family<Vec<(String, String)>, Counter>,
}

/// Gauges that are told apart by the value of one label, kept like the
/// counters.
#[verifier::external_body]
#[derive(Debug)]
pub struct GaugeFamily {
    family: Family<Vec<(String, String)>, Gauge>,
}

/// What is put before the name of each series of a registry.
pub uninterp spec fn registry_prefix(registry: Registry) -> Seq<char>;

/// The series of a registry in the order in which they were registered: the
/// name and the help text of each, and the cell that it reads.
pub uninterp spec fn registered(registry: Registry) -> Seq<(Seq<char>, Seq<char>, int)>;

/// The cell of a counter, and the count in it.
pub uninterp spec fn counter_state(counter: Counter) -> (int, u64);

/// The cell of a gauge, and the value in it.
pub uninterp spec fn gauge_state(gauge: Gauge) -> (int, i64);

/// The cell of a histogram, and what has been observed in it, in order.
pub uninterp spec fn histogram_state(histogram: Histogram) -> (int, Seq<Duration>);

/// How many observations fell into each bucket of a histogram. The last
/// bucket takes what lies above all bounds.
pub uninterp spec fn histogram_counts(histogram: Histogram) -> Seq<nat>;

/// A bound is not below an observation, both taken in seconds as
/// floating-point numbers.
pub uninterp spec fn within(latency: Duration, bound_us: u64) -> bool;

/// The bounds of the buckets of a histogram, in seconds and in words.
pub uninterp spec fn bound_texts(bounds_us: Seq<u64>) -> Seq<Seq<char>>;

/// The sum of observations, in seconds and in words. It is added up in order
/// as floating-point numbers.
pub uninterp spec fn sum_text(observations: Seq<Duration>) -> Seq<char>;

/// The upper bounds of the buckets of a histogram, in microseconds.
pub uninterp spec fn histogram_bounds(histogram: Histogram) -> Seq<u64>;

/// The cell of a family of counters, and the count under each pair of a
/// label and its value that has been counted under.
pub uninterp spec fn counter_family_state(family: CounterFamily) -> (
    int,
    Map<(Seq<char>, Seq<char>), u64>,
);

/// The cell of a family of gauges, and the value under each pair of a label
/// and its value that has been set.
pub uninterp spec fn gauge_family_state(family: GaugeFamily) -> (
    int,
    Map<(Seq<char>, Seq<char>), i64>,
);

/// One more than `n`, where a counter starts over past 64 bits.
pub open spec fn stepped(n: u64) -> u64 {
    if n == u64::MAX {
        0
    } else {
        (n + 1) as u64
    }
}

/// An integer in decimal, with a sign if it is negative.
pub open spec fn signed_decimal(n: int) -> Seq<char> {
    if n < 0 {
        seq!['-'] + crate::text::decimal((-n) as nat)
    } else {
        crate::text::decimal(n as nat)
    }
}

/// A label value as it stands between quotes.
pub open spec fn escaped(s: Seq<char>) -> Seq<char>
    decreases s.len(),
{
    if s.len() == 0 {
        Seq::empty()
    } else {
        escaped(s.drop_last()) + if s.last() == '\\' {
            seq!['\\', '\\']
        } else if s.last() == '"' {
            seq!['\\', '"']
        } else if s.last() == '\n' {
            seq!['\\', 'n']
        } else {
            seq![s.last()]
        }
    }
}

/// One label and its value, as they follow the name of a series.
pub open spec fn labelled(label: Seq<char>, value: Seq<char>) -> Seq<char> {
    seq!['{'] + label + seq!['=', '"'] + escaped(value) + seq!['"', '}']
}

/// The line of one sample.
pub open spec fn sample(
    prefix: Seq<char>,
    name: Seq<char>,
    labels: Seq<char>,
    value: Seq<char>,
) -> Seq<char> {
    prefix + seq!['_'] + name + labels + seq![' '] + value + seq!['\n']
}

/// `line`, which ends with a line feed, is one of the lines of `text`.
pub open spec fn has_line(text: Seq<char>, line: Seq<char>) -> bool {
    exists|i: int|
        0 <= i <= text.len() - line.len() && (i == 0 || text[i - 1] == '\n')
            && #[trigger] text.subrange(i, i + line.len()) == line
}

/// The name of a counter as its samples have it.
pub open spec fn total(name: Seq<char>) -> Seq<char> {
    name + "_total"@
}

/// `Registry::with_prefix`: an empty registry with a prefix.
#[verifier::external_body]
pub(crate) fn new_registry(prefix: &str) -> (registry: Registry)
    ensures
        registry_prefix(registry) == prefix@,
        registered(registry).len() == 0,
{
    Registry::with_prefix(prefix)
}

/// `Counter::default`: a counter at zero.
#[verifier::external_body]
pub(crate) fn new_counter() -> (counter: Counter)
    ensures
        counter_state(counter).1 == 0,
{
    Counter::default()
}

/// `Gauge::default`: a gauge at zero.
#[verifier::external_body]
pub(crate) fn new_gauge() -> (gauge: Gauge)
    ensures
        gauge_state(gauge).1 == 0,
{
    Gauge::default()
}

/// `Histogram::new`: a histogram without an observation. Its buckets have
/// these upper bounds in seconds, and one more takes what lies above them.
#[verifier::external_body]
pub(crate) fn new_histogram(bounds_us: &[u64]) -> (histogram: Histogram)
    ensures
        histogram_bounds(histogram) == bounds_us@,
        histogram_state(histogram).1.len() == 0,
        histogram_counts(histogram).len() == bounds_us@.len() + 1,
        forall|i: int|
            #![trigger histogram_counts(histogram)[i]]
            0 <= i <= bounds_us@.len() ==> histogram_counts(histogram)[i] == 0,
{
    Histogram::new(bounds_us.iter().map(|us| Duration::from_micros(*us).as_secs_f64()))
}

/// `Family::default` for counters: a family without members.
#[verifier::external_body]
pub(crate) fn new_counter_family() -> (family: CounterFamily)
    ensures
        counter_family_state(family).1.is_empty(),
{
    CounterFamily { family: Family::default() }
}

/// `Family::default` for gauges: a family without members.
#[verifier::external_body]
pub(crate) fn new_gauge_family() -> (family: GaugeFamily)
    ensures
        gauge_family_state(family).1.is_empty(),
{
    GaugeFamily { family: Family::default() }
}

/// `Registry::register` of a counter, which puts one more series at the end.
#[verifier::external_body]
pub(crate) fn register_counter(registry: &mut Registry, name: &str, help: &str, counter: &Counter)
    ensures
        registry_prefix(*final(registry)) == registry_prefix(*old(registry)),
        registered(*final(registry)) == registered(*old(registry)).push(
            (name@, help@, counter_state(*counter).0),
        ),
{
    registry.register(name, help, counter.clone());
}

/// `Registry::register` of a gauge, which puts one more series at the end.
#[verifier::external_body]
pub(crate) fn register_gauge(registry: &mut Registry, name: &str, help: &str, gauge: &Gauge)
    ensures
        registry_prefix(*final(registry)) == registry_prefix(*old(registry)),
        registered(*final(registry)) == registered(*old(registry)).push(
            (name@, help@, gauge_state(*gauge).0),
        ),
{
    registry.register(name, help, gauge.clone());
}

/// `Registry::register` of a histogram, which puts one more series at the
/// end.
#[verifier::external_body]
pub(crate) fn register_histogram(
    registry: &mut Registry,
    name: &str,
    help: &str,
    histogram: &Histogram,
)
    ensures
        registry_prefix(*final(registry)) == registry_prefix(*old(registry)),
        registered(*final(registry)) == registered(*old(registry)).push(
            (name@, help@, histogram_state(*histogram).0),
        ),
{
    registry.register(name, help, histogram.clone());
}

/// `Registry::register` of a family of counters, which puts one more series
/// at the end.
#[verifier::external_body]
pub(crate) fn register_counter_family(
    registry: &mut Registry,
    name: &str,
    help: &str,
    family: &CounterFamily,
)
    ensures
        registry_prefix(*final(registry)) == registry_prefix(*old(registry)),
        registered(*final(registry)) == registered(*old(registry)).push(
            (name@, help@, counter_family_state(*family).0),
        ),
{
    registry.register(name, help, family.family.clone());
}

/// `Registry::register` of a family of gauges, which puts one more series at
/// the end.
#[verifier::external_body]
pub(crate) fn register_gauge_family(
    registry: &mut Registry,
    name: &str,
    help: &str,
    family: &GaugeFamily,
)
    ensures
        registry_prefix(*final(registry)) == registry_prefix(*old(registry)),
        registered(*final(registry)) == registered(*old(registry)).push(
            (name@, help@, gauge_family_state(*family).0),
        ),
{
    registry.register(name, help, family.family.clone());
}

/// `Counter::inc`, which counts one more and starts over past 64 bits.
#[verifier::external_body]
pub(crate) fn count(counter: &mut Counter)
    ensures
        counter_state(*final(counter)) == (
            counter_state(*old(counter)).0,
            stepped(counter_state(*old(counter)).1),
        ),
{
    counter.inc();
}

/// `Gauge::set`.
#[verifier::external_body]
pub(crate) fn set_gauge(gauge: &mut Gauge, value: i64)
    ensures
        gauge_state(*final(gauge)) == (gauge_state(*old(gauge)).0, value),
{
    gauge.set(value);
}

/// `Histogram::observe` of a duration in seconds, which counts it in one
/// bucket and adds it to the sum. The call adds to a count of 64 bits, so a
/// histogram whose count is full is left out.
#[verifier::external_body]
pub(crate) fn observe(histogram: &mut Histogram, latency: Duration)
    requires
        histogram_state(*old(histogram)).1.len() < u64::MAX,
    ensures
        histogram_state(*final(histogram)).0 == histogram_state(*old(histogram)).0,
        histogram_state(*final(histogram)).1 == histogram_state(*old(histogram)).1.push(latency),
        histogram_bounds(*final(histogram)) == histogram_bounds(*old(histogram)),
        histogram_counts(*final(histogram)) == raised(
            histogram_counts(*old(histogram)),
            first_of(
                Seq::new(
                    histogram_bounds(*old(histogram)).len(),
                    |i: int| within(latency, histogram_bounds(*old(histogram))[i]),
                ),
            ),
        ),
{
    histogram.observe(latency.as_secs_f64());
}

/// `Family::get_or_create` and `Counter::inc`: counts one more under a label,
/// from zero if nothing was counted under it before.
#[verifier::external_body]
pub(crate) fn count_under(family: &mut CounterFamily, label: &str, value: &str)
    ensures
        counter_family_state(*final(family)).0 == counter_family_state(*old(family)).0,
        counter_family_state(*final(family)).1 == counter_family_state(*old(family)).1.insert(
            (label@, value@),
            if counter_family_state(*old(family)).1.contains_key((label@, value@)) {
                stepped(counter_family_state(*old(family)).1[(label@, value@)])
            } else {
                1
            },
        ),
{
    family.family.get_or_create(&vec![(label.to_owned(), value.to_owned())]).inc();
}

/// `Family::get_or_create` and `Gauge::set`: sets the gauge under a label.
#[verifier::external_body]
pub(crate) fn set_under(family: &mut GaugeFamily, label: &str, value: &str, n: i64)
    ensures
        gauge_family_state(*final(family)).0 == gauge_family_state(*old(family)).0,
        gauge_family_state(*final(family)).1 == gauge_family_state(*old(family)).1.insert(
            (label@, value@),
            n,
        ),
{
    family.family.get_or_create(&vec![(label.to_owned(), value.to_owned())]).set(n);
}

/// The first place at which `marks` holds, or its end where it holds nowhere.
pub open spec fn first_of(marks: Seq<bool>) -> int
    decreases marks.len(),
{
    if marks.len() == 0 || marks[0] {
        0
    } else {
        1 + first_of(marks.drop_first())
    }
}

/// The bucket into which an observation falls: the first whose upper bound is
/// not below it.
pub open spec fn bucket_of(bounds_us: Seq<u64>, latency: Duration) -> int {
    first_of(Seq::new(bounds_us.len(), |i: int| within(latency, bounds_us[i])))
}

/// No mark before the first holds, and the first does, unless none does.
pub proof fn lemma_first_of(marks: Seq<bool>)
    ensures
        0 <= first_of(marks) <= marks.len(),
        first_of(marks) < marks.len() ==> marks[first_of(marks)],
        forall|i: int| #![trigger marks[i]] 0 <= i < first_of(marks) ==> !marks[i],
    decreases marks.len(),
{
    if marks.len() > 0 && !marks[0] {
        lemma_first_of(marks.drop_first());
        assert forall|i: int| 0 <= i < first_of(marks) implies !#[trigger] marks[i] by {
            if i > 0 {
                assert(marks.drop_first()[i - 1] == marks[i]);
            }
        }
    }
}

/// The counts with one more in bucket `b`.
pub open spec fn raised(counts: Seq<nat>, b: int) -> Seq<nat> {
    counts.update(b, counts[b] + 1)
}

/// How many observations fell into the first `k` buckets.
pub open spec fn cumulative(counts: Seq<nat>, k: nat) -> nat
    decreases k,
{
    if k == 0 {
        0
    } else {
        cumulative(counts, (k - 1) as nat) + counts[k - 1]
    }
}

/// The lines of a text, one after the other.
pub open spec fn flat(lines: Seq<Seq<char>>) -> Seq<char>
    decreases lines.len(),
{
    if lines.len() == 0 {
        Seq::empty()
    } else {
        flat(lines.drop_last()) + lines.last()
    }
}

/// The two lines that describe a series, its help text with a full stop added
/// and its type, and the lines of its samples.
pub open spec fn block(
    prefix: Seq<char>,
    name: Seq<char>,
    help: Seq<char>,
    kind: Seq<char>,
    samples: Seq<Seq<char>>,
) -> Seq<Seq<char>> {
    seq![
        "# HELP "@ + prefix + seq!['_'] + name + seq![' '] + help + seq!['.', '\n'],
        "# TYPE "@ + prefix + seq!['_'] + name + seq![' '] + kind + seq!['\n'],
    ] + samples
}

/// The lines of a family, which are none at all where it has no members.
pub open spec fn family_block(
    prefix: Seq<char>,
    name: Seq<char>,
    help: Seq<char>,
    kind: Seq<char>,
    samples: Seq<Seq<char>>,
) -> Seq<Seq<char>> {
    if samples.len() == 0 {
        Seq::empty()
    } else {
        block(prefix, name, help, kind, samples)
    }
}

/// The samples of a family of counters, in the order of `keys`.
pub open spec fn counter_samples(
    prefix: Seq<char>,
    name: Seq<char>,
    counts: Map<(Seq<char>, Seq<char>), u64>,
    keys: Seq<(Seq<char>, Seq<char>)>,
) -> Seq<Seq<char>> {
    Seq::new(
        keys.len(),
        |i: int|
            sample(
                prefix,
                total(name),
                labelled(keys[i].0, keys[i].1),
                crate::text::decimal(counts[keys[i]] as nat),
            ),
    )
}

/// The samples of a family of gauges, in the order of `keys`.
pub open spec fn gauge_samples(
    prefix: Seq<char>,
    name: Seq<char>,
    values: Map<(Seq<char>, Seq<char>), i64>,
    keys: Seq<(Seq<char>, Seq<char>)>,
) -> Seq<Seq<char>> {
    Seq::new(
        keys.len(),
        |i: int|
            sample(
                prefix,
                name,
                labelled(keys[i].0, keys[i].1),
                signed_decimal(values[keys[i]] as int),
            ),
    )
}

/// The label of bucket `i`, where the last one has no bound.
pub open spec fn bucket_label(bounds: Seq<Seq<char>>, i: int) -> Seq<char> {
    labelled(
        "le"@,
        if i < bounds.len() {
            bounds[i]
        } else {
            "+Inf"@
        },
    )
}

/// The sample of bucket `i`: how many observations fell into it or into one
/// before it.
pub open spec fn bucket_sample(
    prefix: Seq<char>,
    name: Seq<char>,
    counts: Seq<nat>,
    bounds: Seq<Seq<char>>,
    i: int,
) -> Seq<char> {
    sample(
        prefix,
        name + "_bucket"@,
        bucket_label(bounds, i),
        crate::text::decimal(cumulative(counts, (i + 1) as nat)),
    )
}

/// The samples of a histogram: the sum of its observations, their number, and
/// for each bucket how many fell into it or into one before it.
pub open spec fn histogram_samples(
    prefix: Seq<char>,
    name: Seq<char>,
    observations: nat,
    counts: Seq<nat>,
    sum: Seq<char>,
    bounds: Seq<Seq<char>>,
) -> Seq<Seq<char>> {
    seq![
        sample(prefix, name + "_sum"@, Seq::empty(), sum),
        sample(prefix, name + "_count"@, Seq::empty(), crate::text::decimal(observations)),
    ] + Seq::new(counts.len(), |i: int| bucket_sample(prefix, name, counts, bounds, i))
}

/// The sample of a single counter.
pub open spec fn counter_sample(prefix: Seq<char>, name: Seq<char>, n: u64) -> Seq<char> {
    sample(prefix, total(name), Seq::empty(), crate::text::decimal(n as nat))
}

/// The sample of a single gauge.
pub open spec fn gauge_sample(prefix: Seq<char>, name: Seq<char>, n: i64) -> Seq<char> {
    sample(prefix, name, Seq::empty(), signed_decimal(n as int))
}

/// `order` lists what is in `all`, each once.
pub open spec fn lists_once<T>(order: Seq<T>, all: Set<T>) -> bool {
    &&& order.no_duplicates()
    &&& forall|x: T| #![trigger all.contains(x)] order.contains(x) <==> all.contains(x)
}

/// A text without a line feed.
pub open spec fn plain(s: Seq<char>) -> bool {
    forall|i: int| #![trigger s[i]] 0 <= i < s.len() ==> s[i] != '\n'
}

/// The sum and the bounds of a histogram as numerals: there is one text for
/// each bound, and none of them holds a line feed.
pub open spec fn numerals(sum: Seq<char>, bounds: Seq<Seq<char>>, n: nat) -> bool {
    &&& plain(sum)
    &&& bounds.len() == n
    &&& forall|i: int| #![trigger bounds[i]] 0 <= i < n ==> plain(bounds[i])
}

/// The registry reads these six handles, in this order, and nothing else.
pub open spec fn reads(
    registry: Registry,
    counters: CounterFamily,
    histogram: Histogram,
    counter: Counter,
    gauges: GaugeFamily,
    one_gauge: Gauge,
    other_gauge: Gauge,
) -> bool {
    &&& registered(registry).len() == 6
    &&& registered(registry)[0].2 == counter_family_state(counters).0
    &&& registered(registry)[1].2 == histogram_state(histogram).0
    &&& registered(registry)[2].2 == counter_state(counter).0
    &&& registered(registry)[3].2 == gauge_family_state(gauges).0
    &&& registered(registry)[4].2 == gauge_state(one_gauge).0
    &&& registered(registry)[5].2 == gauge_state(other_gauge).0
}

/// The lines of such a registry, with the members of the two families in the
/// order of these keys.
pub open spec fn exposition(
    registry: Registry,
    counters: CounterFamily,
    histogram: Histogram,
    counter: Counter,
    gauges: GaugeFamily,
    one_gauge: Gauge,
    other_gauge: Gauge,
    sum: Seq<char>,
    bounds: Seq<Seq<char>>,
    counter_keys: Seq<(Seq<char>, Seq<char>)>,
    gauge_keys: Seq<(Seq<char>, Seq<char>)>,
) -> Seq<Seq<char>> {
    let prefix = registry_prefix(registry);
    let series = registered(registry);
    family_block(
        prefix,
        series[0].0,
        series[0].1,
        "counter"@,
        counter_samples(
            prefix,
            series[0].0,
            counter_family_state(counters).1,
            counter_keys,
        ),
    ) + block(
        prefix,
        series[1].0,
        series[1].1,
        "histogram"@,
        histogram_samples(
            prefix,
            series[1].0,
            histogram_state(histogram).1.len(),
            histogram_counts(histogram),
            sum,
            bounds,
        ),
    ) + block(
        prefix,
        series[2].0,
        series[2].1,
        "counter"@,
        seq![counter_sample(prefix, series[2].0, counter_state(counter).1)],
    ) + family_block(
        prefix,
        series[3].0,
        series[3].1,
        "gauge"@,
        gauge_samples(prefix, series[3].0, gauge_family_state(gauges).1, gauge_keys),
    ) + block(
        prefix,
        series[4].0,
        series[4].1,
        "gauge"@,
        seq![gauge_sample(prefix, series[4].0, gauge_state(one_gauge).1)],
    ) + block(
        prefix,
        series[5].0,
        series[5].1,
        "gauge"@,
        seq![gauge_sample(prefix, series[5].0, gauge_state(other_gauge).1)],
    ) + seq!["# EOF\n"@]
}

/// `text` is the exposition of the registry, if it reads these handles: exactly
/// those lines, with the members of each family in some order.
pub open spec fn shows(
    text: Seq<char>,
    registry: Registry,
    counters: CounterFamily,
    histogram: Histogram,
    counter: Counter,
    gauges: GaugeFamily,
    one_gauge: Gauge,
    other_gauge: Gauge,
    sum: Seq<char>,
    bounds: Seq<Seq<char>>,
) -> bool {
    reads(registry, counters, histogram, counter, gauges, one_gauge, other_gauge) ==> numerals(
        sum,
        bounds,
        histogram_bounds(histogram).len(),
    ) && exists|
        counter_keys: Seq<(Seq<char>, Seq<char>)>,
        gauge_keys: Seq<(Seq<char>, Seq<char>)>,
    |
        lists_once(counter_keys, counter_family_state(counters).1.dom()) && lists_once(
            gauge_keys,
            gauge_family_state(gauges).1.dom(),
        ) && text == flat(
            #[trigger] exposition(
                registry,
                counters,
                histogram,
                counter,
                gauges,
                one_gauge,
                other_gauge,
                sum,
                bounds,
                counter_keys,
                gauge_keys,
            ),
        )
}

/// `prometheus_client::encoding::text::encode` into a string, which cannot
/// fail. The text of a registry that reads these handles and no others is
/// exactly the lines of their series, one series after the other, and the end
/// marker. In which order the members of a family come is left open. The sum
/// and the bounds of the histogram are floating-point numbers, of which it is
/// only said that they are written on one line.
#[verifier::external_body]
pub(crate) fn encode_registry(
    registry: &Registry,
    counters: &CounterFamily,
    histogram: &Histogram,
    counter: &Counter,
    gauges: &GaugeFamily,
    one_gauge: &Gauge,
    other_gauge: &Gauge,
) -> (text: String)
    ensures
        shows(
            text@,
            *registry,
            *counters,
            *histogram,
            *counter,
            *gauges,
            *one_gauge,
            *other_gauge,
            sum_text(histogram_state(*histogram).1),
            bound_texts(histogram_bounds(*histogram)),
        ),
{
    let mut buffer = String::new();
    let _ = encode(&mut buffer, registry);
    buffer
}

/// A text of one line, which ends with its line feed.
pub open spec fn one_line(s: Seq<char>) -> bool {
    s.len() > 0 && s.last() == '\n' && plain(s.drop_last())
}

/// Each of these lines is one of the text that they make up.
pub proof fn lemma_flat_has_line(lines: Seq<Seq<char>>, i: int)
    requires
        0 <= i < lines.len(),
        forall|k: int| #![trigger lines[k]] 0 <= k < lines.len() ==> one_line(lines[k]),
    ensures
        has_line(flat(lines), lines[i]),
    decreases lines.len(),
{
    let before = lines.drop_last();
    let text = flat(lines);
    lemma_flat_ends(before);
    if i == lines.len() - 1 {
        let start = flat(before).len() as int;
        assert(text.subrange(start, start + lines[i].len()) =~= lines[i]);
    } else {
        lemma_flat_has_line(before, i);
        let line = lines[i];
        let start = choose|k: int|
            0 <= k <= flat(before).len() - line.len() && (k == 0 || flat(before)[k - 1] == '\n')
                && #[trigger] flat(before).subrange(k, k + line.len()) == line;
        assert(text.subrange(start, start + line.len()) =~= flat(before).subrange(
            start,
            start + line.len(),
        ));
    }
}

proof fn lemma_flat_ends(lines: Seq<Seq<char>>)
    requires
        forall|k: int| #![trigger lines[k]] 0 <= k < lines.len() ==> one_line(lines[k]),
    ensures
        flat(lines).len() > 0 ==> flat(lines).last() == '\n',
    decreases lines.len(),
{
    if lines.len() > 0 {
        assert(one_line(lines.last()));
    }
}

/// Every line of the text that these lines make up is one of them.
pub proof fn lemma_flat_has_no_other(lines: Seq<Seq<char>>, line: Seq<char>)
    requires
        forall|k: int| #![trigger lines[k]] 0 <= k < lines.len() ==> one_line(lines[k]),
        one_line(line),
        has_line(flat(lines), line),
    ensures
        lines.contains(line),
    decreases lines.len(),
{
    let text = flat(lines);
    let start = choose|k: int|
        0 <= k <= text.len() - line.len() && (k == 0 || text[k - 1] == '\n')
            && #[trigger] text.subrange(k, k + line.len()) == line;
    if lines.len() > 0 {
        let before = lines.drop_last();
        let last = lines.last();
        let cut = flat(before).len() as int;
        let end = start + line.len();
        assert(one_line(last));
        lemma_flat_ends(before);
        assert(text == flat(before) + last);
        assert forall|k: int| 0 <= k < line.len() implies text[start + k] == line[k] by {
            assert(text.subrange(start, end)[k] == line[k]);
        }
        if start >= cut {
            if start > cut {
                // The line would begin behind a line feed inside the last line.
                assert(text[start - 1] == last[start - 1 - cut]);
                assert(last.drop_last()[start - 1 - cut] == last[start - 1 - cut]);
            }
            if end < text.len() {
                assert(text[end - 1] == last[end - 1 - cut]);
                assert(last.drop_last()[end - 1 - cut] == last[end - 1 - cut]);
            }
            assert(line =~= last);
            assert(lines[lines.len() - 1] == line);
        } else {
            if end > cut {
                // The line would go on behind the line feed that ends the ones before.
                assert(text[cut - 1] == flat(before)[cut - 1]);
                assert(line.drop_last()[cut - 1 - start] == text[cut - 1]);
            }
            assert(flat(before).subrange(start, end) =~= line);
            if start > 0 {
                assert(flat(before)[start - 1] == text[start - 1]);
            }
            lemma_flat_has_no_other(before, line);
            let k = choose|k: int| 0 <= k < before.len() && before[k] == line;
            assert(lines[k] == line);
        }
    }
}

proof fn lemma_escaped_plain(s: Seq<char>)
    ensures
        plain(escaped(s)),
    decreases s.len(),
{
    if s.len() > 0 {
        lemma_escaped_plain(s.drop_last());
    }
}

/// What follows the name of a series holds no line feed, if the label does
/// not.
pub proof fn lemma_labelled_plain(label: Seq<char>, value: Seq<char>)
    requires
        plain(label),
    ensures
        plain(labelled(label, value)),
{
    lemma_escaped_plain(value);
}

/// A number in decimal holds no line feed.
pub proof fn lemma_decimal_plain(n: int)
    ensures
        plain(signed_decimal(n)),
        n >= 0 ==> plain(crate::text::decimal(n as nat)),
{
    crate::text::lemma_decimal_digits(if n < 0 {
        (-n) as nat
    } else {
        n as nat
    });
}

/// A sample is one line if its parts hold no line feed, and begins with the
/// prefix of its registry.
pub proof fn lemma_sample_line(
    prefix: Seq<char>,
    name: Seq<char>,
    labels: Seq<char>,
    value: Seq<char>,
)
    requires
        plain(prefix),
        plain(name),
        plain(labels),
        plain(value),
    ensures
        one_line(sample(prefix, name, labels, value)),
        prefix.push('_').is_prefix_of(sample(prefix, name, labels, value)),
{
    let line = sample(prefix, name, labels, value);
    let body = prefix + seq!['_'] + name + labels + seq![' '] + value;
    assert(line.drop_last() =~= body);
    assert(line.subrange(0, prefix.len() as int + 1) =~= prefix.push('_'));
}

/// The lines that describe a series are one line each, and begin with a hash.
pub proof fn lemma_block_lines(
    prefix: Seq<char>,
    name: Seq<char>,
    help: Seq<char>,
    kind: Seq<char>,
    samples: Seq<Seq<char>>,
)
    requires
        plain(prefix),
        plain(name),
        plain(help),
        plain(kind),
    ensures
        ({
            let lines = block(prefix, name, help, kind, samples);
            &&& lines.len() == samples.len() + 2
            &&& one_line(lines[0]) && lines[0][0] == '#'
            &&& one_line(lines[1]) && lines[1][0] == '#'
            &&& forall|i: int| #![trigger lines[i]] 2 <= i < lines.len() ==> lines[i] == samples[i
                - 2]
        }),
{
    reveal_strlit("# HELP ");
    reveal_strlit("# TYPE ");
    let lines = block(prefix, name, help, kind, samples);
    let a = "# HELP "@ + prefix + seq!['_'] + name + seq![' '] + help + seq!['.'];
    let b = "# TYPE "@ + prefix + seq!['_'] + name + seq![' '] + kind;
    assert(lines[0].drop_last() =~= a);
    assert(lines[1].drop_last() =~= b);
}

/// A label value is written character by character: a backslash and a quote
/// behind a backslash, a line feed as a backslash and an n, and any other
/// character as it is.
pub proof fn law_label_values_are_escaped(s: Seq<char>, c: char)
    ensures
        escaped(Seq::empty()) == Seq::<char>::empty(),
        c == '\\' || c == '"' ==> escaped(s.push(c)) == escaped(s).push('\\').push(c),
        c == '\n' ==> escaped(s.push(c)) == escaped(s).push('\\').push('n'),
        c != '\\' && c != '"' && c != '\n' ==> escaped(s.push(c)) == escaped(s).push(c),
{
    assert(s.push(c).drop_last() =~= s);
    if c == '\\' || c == '"' {
        assert(escaped(s.push(c)) =~= escaped(s).push('\\').push(c));
    } else if c == '\n' {
        assert(escaped(s.push(c)) =~= escaped(s).push('\\').push('n'));
    } else {
        assert(escaped(s.push(c)) =~= escaped(s).push(c));
    }
}

/// A value that needs no escapes is written as it is.
pub proof fn lemma_escaped_as_it_is(s: Seq<char>)
    requires
        forall|i: int|
            #![trigger s[i]]
            0 <= i < s.len() ==> s[i] != '\\' && s[i] != '"' && s[i] != '\n',
    ensures
        escaped(s) == s,
    decreases s.len(),
{
    if s.len() > 0 {
        let t = s.drop_last();
        assert forall|i: int| 0 <= i < t.len() implies #[trigger] t[i] != '\\' && t[i] != '"'
            && t[i] != '\n' by {
            assert(s[i] == t[i]);
        }
        lemma_escaped_as_it_is(t);
        assert(s[s.len() - 1] == s.last());
        assert(escaped(s) =~= s);
    }
}

/// A count goes up by one, and starts over past the last number of 64 bits.
pub proof fn law_counts_go_up_by_one(n: u64)
    ensures
        stepped(n) == (n + 1) % 0x1_0000_0000_0000_0000,
{
}

/// An integer is written as its digits, behind a minus if it is negative.
pub proof fn law_signs(n: nat)
    ensures
        signed_decimal(n as int) == crate::text::decimal(n),
        n > 0 ==> signed_decimal(-n) == seq!['-'] + crate::text::decimal(n),
{
}

/// What fell into the first buckets is what fell into each of them.
pub proof fn law_buckets_are_cumulative(counts: Seq<nat>, k: nat)
    ensures
        cumulative(counts, 0) == 0,
        cumulative(counts, k + 1) == cumulative(counts, k) + counts[k as int],
{
}

/// A line of a text begins the text or follows a line feed.
pub proof fn law_lines_of_a_text(text: Seq<char>, line: Seq<char>)
    ensures
        has_line(text, line) <==> exists|before: Seq<char>, after: Seq<char>|
            text == #[trigger] (before + line + after) && (before.len() == 0 || before.last()
                == '\n'),
{
    if has_line(text, line) {
        let i = choose|i: int|
            0 <= i <= text.len() - line.len() && (i == 0 || text[i - 1] == '\n')
                && #[trigger] text.subrange(i, i + line.len()) == line;
        let before = text.subrange(0, i);
        let after = text.subrange(i + line.len(), text.len() as int);
        assert forall|k: int| i <= k < i + line.len() implies text[k] == line[k - i] by {
            assert(text.subrange(i, i + line.len())[k - i] == text[k]);
        }
        assert(text =~= before + line + after);
    }
    if exists|before: Seq<char>, after: Seq<char>|
        text == #[trigger] (before + line + after) && (before.len() == 0 || before.last() == '\n') {
        let (before, after) = choose|before: Seq<char>, after: Seq<char>|
            text == #[trigger] (before + line + after) && (before.len() == 0 || before.last()
                == '\n');
        let i = before.len() as int;
        assert(text.subrange(i, i + line.len()) =~= line);
        if i > 0 {
            assert(text[i - 1] == before.last());
        }
    }
}

} // verus!
