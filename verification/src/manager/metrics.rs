//! Gauges and counters, and their rendering as text.

use crate::lee::parser::condition::{fixed_point_digits, push_fixed_point};
use crate::text::{int_digits, join, joined, push_i64, push_str, sort_texts, string_views, in_order};
use vstd::prelude::*;

verus! {

/// The types of metrics.
#[derive(Debug, Clone, Copy, PartialEq, Eq, Structural)]
pub enum MetricType {
    Counter,
    Gauge,
    Summary,
    Histogram,
}

impl MetricType {
    pub open spec fn spec_name(self) -> Seq<char> {
        match self {
            MetricType::Counter => "counter"@,
            MetricType::Gauge => "gauge"@,
            MetricType::Summary => "summary"@,
            MetricType::Histogram => "histogram"@,
        }
    }

    pub fn to_string(&self) -> (s: String)
        ensures
            s@ == self.spec_name(),
    {
        match self {
            MetricType::Counter => "counter".to_owned(),
            MetricType::Gauge => "gauge".to_owned(),
            MetricType::Summary => "summary".to_owned(),
            MetricType::Histogram => "histogram".to_owned(),
        }
    }
}

/// The value of a sample: a whole number, or a fixed-point number in
/// millionths.
#[derive(Debug, Clone, Copy, PartialEq, Eq, Structural)]
pub enum Sample {
    Whole(i64),
    Fixed(i64),
}

impl Sample {
    pub open spec fn notation(self) -> Seq<char> {
        match self {
            Sample::Whole(v) => int_digits(v as int),
            Sample::Fixed(v) => fixed_point_digits(v as int),
        }
    }

    fn push_to(&self, out: &mut String)
        ensures
            final(out)@ == old(out)@ + self.notation(),
    {
        match self {
            Sample::Whole(v) => push_i64(out, *v),
            Sample::Fixed(v) => push_fixed_point(out, *v),
        }
    }
}

/// One label in the notation of samples: `key="value"`.
pub open spec fn label_text(key: Seq<char>, value: Seq<char>) -> Seq<char> {
    key + "=\""@ + value + "\""@
}

/// The labels as pairs of texts.
pub open spec fn pair_views(labels: Seq<(String, String)>) -> Seq<(Seq<char>, Seq<char>)> {
    labels.map_values(|l: (String, String)| (l.0@, l.1@))
}

/// The labels in the notation of samples, in the order given.
pub open spec fn label_texts(labels: Seq<(Seq<char>, Seq<char>)>) -> Seq<Seq<char>> {
    labels.map_values(|l: (Seq<char>, Seq<char>)| label_text(l.0, l.1))
}

/// The labels of a sample as one text: each in the notation of samples, in
/// the order of dictionaries, with commas between them.
pub open spec fn label_string(labels: Seq<(Seq<char>, Seq<char>)>) -> Seq<char> {
    joined(in_order(label_texts(labels), labels.len() as int), ","@)
}

/// The labels in the notation of samples are the same texts however the
/// labels are arranged.
pub proof fn lemma_label_texts_of_any(
    a: Seq<(Seq<char>, Seq<char>)>,
    b: Seq<(Seq<char>, Seq<char>)>,
)
    requires
        a.to_multiset() == b.to_multiset(),
    ensures
        label_texts(a).to_multiset() == label_texts(b).to_multiset(),
    decreases a.len(),
{
    broadcast use vstd::multiset::group_multiset_axioms;
    broadcast use vstd::seq_lib::group_to_multiset_ensures;

    a.to_multiset_ensures();
    b.to_multiset_ensures();
    assert(a.len() == b.len());
    if a.len() == 0 {
        assert(label_texts(a) =~= label_texts(b));
    } else {
        let x = a.last();
        assert(a.contains(x));
        assert(b.to_multiset().count(x) > 0);
        assert(b.contains(x));
        let j = choose|j: int| 0 <= j < b.len() && b[j] == x;
        let a0 = a.drop_last();
        let b0 = b.remove(j);
        assert(a0 =~= a.remove(a.len() - 1));
        assert(a0.to_multiset() =~= a.to_multiset().remove(x));
        assert(b0.to_multiset() =~= b.to_multiset().remove(x));
        lemma_label_texts_of_any(a0, b0);
        let ta = label_texts(a);
        let tb = label_texts(b);
        let t = label_text(x.0, x.1);
        assert(ta =~= label_texts(a0).push(t));
        assert(label_texts(b0) =~= tb.remove(j));
        assert(tb[j] == t);
        tb.to_multiset_ensures();
        assert(tb.contains(t));
        assert(tb.remove(j).to_multiset() =~= tb.to_multiset().remove(t));
        assert(ta.to_multiset() =~= label_texts(a0).to_multiset().insert(t));
        assert(tb.to_multiset() =~= tb.to_multiset().remove(t).insert(t));
        assert(ta.to_multiset() =~= tb.to_multiset());
    }
}

/// The labels of a sample make the same text in whatever order they are
/// given: a sample is found again under its labels however they are
/// arranged.
pub proof fn lemma_label_string_of_any(
    a: Seq<(Seq<char>, Seq<char>)>,
    b: Seq<(Seq<char>, Seq<char>)>,
)
    requires
        a.to_multiset() == b.to_multiset(),
    ensures
        label_string(a) == label_string(b),
{
    lemma_label_texts_of_any(a, b);
    crate::text::lemma_in_order_of_any(label_texts(a), label_texts(b));
    assert(label_texts(a).len() == a.len());
    assert(label_texts(b).len() == b.len());
}

/// The index of the sample with the labels `labels` among the first `n`.
pub open spec fn sample_index(samples: Seq<(Seq<char>, Sample)>, labels: Seq<char>, n: int)
    -> Option<int>
    decreases n,
{
    if n <= 0 || n > samples.len() {
        None
    } else if samples[n - 1].0 == labels {
        Some(n - 1)
    } else {
        sample_index(samples, labels, n - 1)
    }
}

/// The samples after the one with the labels `labels` was set to `value`:
/// it takes the place of the sample with these labels, or comes last.
pub open spec fn with_sample(
    samples: Seq<(Seq<char>, Sample)>,
    labels: Seq<char>,
    value: Sample,
) -> Seq<(Seq<char>, Sample)> {
    match sample_index(samples, labels, samples.len() as int) {
        Some(i) => samples.update(i, (labels, value)),
        None => samples.push((labels, value)),
    }
}

/// The two lines that tell what a metric is.
pub open spec fn comment(name: Seq<char>, help: Seq<char>, kind: MetricType) -> Seq<char> {
    "# HELP "@ + name + " "@ + help + "\n# TYPE "@ + name + " "@ + kind.spec_name() + "\n"@
}

/// One line for a sample with labels.
pub open spec fn sample_line(name: Seq<char>, sample: (Seq<char>, Sample)) -> Seq<char> {
    name + "{"@ + sample.0 + "} "@ + sample.1.notation()
}

/// The lines of the samples of a metric with labels.
pub open spec fn sample_lines(name: Seq<char>, samples: Seq<(Seq<char>, Sample)>) -> Seq<
    Seq<char>,
> {
    samples.map_values(|s: (Seq<char>, Sample)| sample_line(name, s))
}

/// The text of a metric: nothing where it has no sample; else what it is,
/// and its one value or a line for each of its samples.
pub open spec fn rendered(
    name: Seq<char>,
    help: Seq<char>,
    kind: MetricType,
    single: bool,
    samples: Seq<(Seq<char>, Sample)>,
) -> Seq<char> {
    if samples.len() == 0 {
        Seq::empty()
    } else if single {
        comment(name, help, kind) + name + " "@ + match sample_index(
            samples,
            "_"@,
            samples.len() as int,
        ) {
            Some(i) => samples[i].1.notation(),
            None => "0"@,
        } + "\n"@
    } else {
        comment(name, help, kind) + joined(sample_lines(name, samples), "\n"@) + "\n"@
    }
}

/// One metric: its name, what it means, its type and its samples, each under
/// the text of its labels.
#[derive(Debug)]
pub struct Metric {
    name: String,
    help: String,
    metric_type: MetricType,
    single: bool,
    labels: Vec<String>,
    values: Vec<Sample>,
}

impl Metric {
    pub closed spec fn spec_name(&self) -> Seq<char> {
        self.name@
    }

    pub closed spec fn spec_help(&self) -> Seq<char> {
        self.help@
    }

    pub closed spec fn spec_type(&self) -> MetricType {
        self.metric_type
    }

    /// Whether the metric has one value without labels.
    pub closed spec fn spec_single(&self) -> bool {
        self.single
    }

    /// The samples, each with its labels as one text, in the order in which
    /// their labels were first set.
    pub closed spec fn spec_samples(&self) -> Seq<(Seq<char>, Sample)> {
        Seq::new(self.labels@.len(), |i: int| (self.labels@[i]@, self.values@[i]))
    }

    pub closed spec fn wf(&self) -> bool {
        self.labels@.len() == self.values@.len()
    }

    /// Whether the metric is `other` but for its samples: it has the name,
    /// the explanation and the type of `other`.
    pub open spec fn titled_as(&self, other: &Metric) -> bool {
        &&& self.spec_name() == other.spec_name()
        &&& self.spec_help() == other.spec_help()
        &&& self.spec_type() == other.spec_type()
    }

    /// Whether this is the gauge `name` with the explanation `help`, and
    /// without a sample.
    pub open spec fn unused(&self, name: Seq<char>, help: Seq<char>) -> bool {
        &&& self.spec_name() == name
        &&& self.spec_help() == help
        &&& self.spec_type() == MetricType::Gauge
        &&& !self.spec_single()
        &&& self.spec_samples() == Seq::<(Seq<char>, Sample)>::empty()
    }

    pub fn new(name: &str, help: &str, mtype: MetricType) -> (r: Self)
        ensures
            r.wf(),
            r.spec_name() == name@,
            r.spec_help() == help@,
            r.spec_type() == mtype,
            !r.spec_single(),
            r.spec_samples() == Seq::<(Seq<char>, Sample)>::empty(),
    {
        let r = Metric {
            name: name.to_owned(),
            help: help.to_owned(),
            metric_type: mtype,
            single: false,
            labels: Vec::new(),
            values: Vec::new(),
        };
        assert(r.spec_samples() =~= Seq::<(Seq<char>, Sample)>::empty());
        r
    }

    /// Whether the metric says what `other` says: it goes by the same name
    /// and has the same samples.
    pub open spec fn alike(&self, other: &Metric) -> bool {
        &&& self.titled_as(other)
        &&& self.spec_single() == other.spec_single()
        &&& self.spec_samples() == other.spec_samples()
    }

    /// A copy of the metric.
    pub fn copy(&self) -> (r: Self)
        requires
            self.wf(),
        ensures
            r.wf(),
            r.alike(self),
    {
        let mut values: Vec<Sample> = Vec::new();
        let mut i: usize = 0;
        while i < self.values.len()
            invariant
                i <= self.values@.len(),
                values@ == self.values@.subrange(0, i as int),
            decreases self.values@.len() - i,
        {
            values.push(self.values[i]);
            i += 1;
            assert(values@ =~= self.values@.subrange(0, i as int));
        }
        assert(values@ =~= self.values@);
        let labels = crate::text::clone_texts(&self.labels);
        let r = Metric {
            name: self.name.clone(),
            help: self.help.clone(),
            metric_type: self.metric_type,
            single: self.single,
            labels,
            values,
        };
        assert(r.labels@.len() == self.labels@.len()) by {
            assert(crate::text::string_views(r.labels@).len() == crate::text::string_views(
                self.labels@,
            ).len());
        }
        assert(r.spec_samples() =~= self.spec_samples()) by {
            assert forall|k: int| 0 <= k < r.labels@.len() implies r.labels@[k]@
                == self.labels@[k]@ by {
                assert(crate::text::string_views(r.labels@)[k] == crate::text::string_views(
                    self.labels@,
                )[k]);
            }
        }
        r
    }

    /// Forgets all samples.
    pub fn reset(&mut self)
        ensures
            final(self).wf(),
            final(self).spec_samples() == Seq::<(Seq<char>, Sample)>::empty(),
            final(self).spec_name() == old(self).spec_name(),
            final(self).spec_help() == old(self).spec_help(),
            final(self).spec_type() == old(self).spec_type(),
            final(self).spec_single() == old(self).spec_single(),
    {
        self.labels.clear();
        self.values.clear();
        assert(self.spec_samples() =~= Seq::<(Seq<char>, Sample)>::empty());
    }

    fn put(&mut self, label_str: String, value: Sample)
        requires
            old(self).wf(),
        ensures
            final(self).wf(),
            final(self).spec_samples() == with_sample(old(self).spec_samples(), label_str@, value),
            final(self).spec_name() == old(self).spec_name(),
            final(self).spec_help() == old(self).spec_help(),
            final(self).spec_type() == old(self).spec_type(),
            final(self).spec_single() == old(self).spec_single(),
    {
        let ghost before = self.spec_samples();
        let mut n: usize = self.labels.len();
        while n > 0
            invariant
                n <= self.labels@.len(),
                self.wf(),
                *self == *old(self),
                before == self.spec_samples(),
                sample_index(before, label_str@, before.len() as int) == sample_index(
                    before,
                    label_str@,
                    n as int,
                ),
            decreases n,
        {
            if self.labels[n - 1] == label_str {
                self.values[n - 1] = value;
                self.labels[n - 1] = label_str;
                assert(self.spec_samples() =~= before.update(n - 1, (label_str@, value)));
                return ;
            }
            n -= 1;
        }
        self.labels.push(label_str);
        self.values.push(value);
        assert(self.spec_samples() =~= before.push((label_str@, value)));
    }

    /// Sets the sample with the labels `labels`, each a key and a value, to
    /// `value`. From now on the metric has labels.
    pub fn set(&mut self, labels: &Vec<(String, String)>, value: Sample)
        requires
            old(self).wf(),
        ensures
            final(self).wf(),
            final(self).spec_samples() == with_sample(
                old(self).spec_samples(),
                label_string(pair_views(labels@)),
                value,
            ),
            !final(self).spec_single(),
            final(self).spec_name() == old(self).spec_name(),
            final(self).spec_help() == old(self).spec_help(),
            final(self).spec_type() == old(self).spec_type(),
    {
        self.single = false;
        let mut texts: Vec<String> = Vec::new();
        let mut i: usize = 0;
        while i < labels.len()
            invariant
                i <= labels.len(),
                texts@.len() == i,
                forall|k: int|
                    0 <= k < i ==> (#[trigger] texts@[k])@ == label_texts(pair_views(labels@))[k],
            decreases labels.len() - i,
        {
            let mut t = String::new();
            push_str(&mut t, labels[i].0.as_str());
            push_str(&mut t, "=\"");
            push_str(&mut t, labels[i].1.as_str());
            push_str(&mut t, "\"");
            assert(t@ =~= label_text(labels@[i as int].0@, labels@[i as int].1@));
            texts.push(t);
            i += 1;
        }
        assert(string_views(texts@) =~= label_texts(pair_views(labels@)));
        let sorted = sort_texts(&texts);
        let label_str = join(&sorted, ",");
        self.put(label_str, value);
    }

    /// Makes the metric one with a single value without labels, `value`.
    pub fn set_single(&mut self, value: Sample)
        ensures
            final(self).wf(),
            final(self).spec_samples() == seq![("_"@, value)],
            final(self).spec_single(),
            final(self).spec_name() == old(self).spec_name(),
            final(self).spec_help() == old(self).spec_help(),
            final(self).spec_type() == old(self).spec_type(),
    {
        self.reset();
        self.single = true;
        self.labels.push("_".to_owned());
        self.values.push(value);
        assert(self.spec_samples() =~= seq![("_"@, value)]);
    }

    fn push_comment(&self, out: &mut String)
        ensures
            final(out)@ == old(out)@ + comment(
                self.spec_name(),
                self.spec_help(),
                self.spec_type(),
            ),
    {
        push_str(out, "# HELP ");
        push_str(out, self.name.as_str());
        push_str(out, " ");
        push_str(out, self.help.as_str());
        push_str(out, "\n# TYPE ");
        push_str(out, self.name.as_str());
        push_str(out, " ");
        let kind = self.metric_type.to_string();
        push_str(out, kind.as_str());
        push_str(out, "\n");
        assert(final(out)@ =~= old(out)@ + comment(
            self.spec_name(),
            self.spec_help(),
            self.spec_type(),
        ));
    }

    /// The text of the metric.
    pub fn render(&self) -> (s: String)
        requires
            self.wf(),
        ensures
            s@ == rendered(
                self.spec_name(),
                self.spec_help(),
                self.spec_type(),
                self.spec_single(),
                self.spec_samples(),
            ),
    {
        let mut s = String::new();
        if self.labels.len() == 0 {
            return s;
        }
        let ghost samples = self.spec_samples();
        self.push_comment(&mut s);
        if self.single {
            push_str(&mut s, self.name.as_str());
            push_str(&mut s, " ");
            let mut n: usize = self.labels.len();
            let mut found = false;
            while n > 0 && !found
                invariant
                    n <= self.labels@.len(),
                    self.wf(),
                    samples == self.spec_samples(),
                    !found ==> sample_index(samples, "_"@, samples.len() as int) == sample_index(
                        samples,
                        "_"@,
                        n as int,
                    ),
                    found ==> n < samples.len() && sample_index(
                        samples,
                        "_"@,
                        samples.len() as int,
                    ) == Some(n as int),
                decreases n,
            {
                n -= 1;
                if crate::text::same_text(self.labels[n].as_str(), "_") {
                    found = true;
                }
            }
            let ghost head = s@;
            if found {
                self.values[n].push_to(&mut s);
            } else {
                push_str(&mut s, "0");
            }
            push_str(&mut s, "\n");
            assert(s@ =~= rendered(
                self.spec_name(),
                self.spec_help(),
                self.spec_type(),
                self.spec_single(),
                samples,
            ));
            s
        } else {
            let mut lines: Vec<String> = Vec::new();
            let mut i: usize = 0;
            while i < self.labels.len()
                invariant
                    i <= self.labels@.len(),
                    self.wf(),
                    samples == self.spec_samples(),
                    lines@.len() == i,
                    forall|k: int|
                        0 <= k < i ==> (#[trigger] lines@[k])@ == sample_line(
                            self.spec_name(),
                            samples[k],
                        ),
                decreases self.labels@.len() - i,
            {
                let mut line = String::new();
                push_str(&mut line, self.name.as_str());
                push_str(&mut line, "{");
                push_str(&mut line, self.labels[i].as_str());
                push_str(&mut line, "} ");
                self.values[i].push_to(&mut line);
                assert(line@ =~= sample_line(self.spec_name(), samples[i as int]));
                lines.push(line);
                i += 1;
            }
            assert(string_views(lines@) =~= sample_lines(self.spec_name(), samples));
            let body = join(&lines, "\n");
            push_str(&mut s, body.as_str());
            push_str(&mut s, "\n");
            assert(s@ =~= rendered(
                self.spec_name(),
                self.spec_help(),
                self.spec_type(),
                self.spec_single(),
                samples,
            ));
            s
        }
    }
}

/// How many whole seconds lie between `from` and `to`, both in
/// milliseconds, a part of a second counting as one; 0 where `to` is not
/// behind `from`.
pub open spec fn seconds_up(from: i64, to: i64) -> int {
    if to <= from {
        0
    } else {
        (to - from + 999) / 1000
    }
}

/// `v`, held within 64 bits.
pub open spec fn held_signed(v: int) -> i64 {
    if v > i64::MAX {
        i64::MAX
    } else if v < i64::MIN {
        i64::MIN
    } else {
        v as i64
    }
}

fn hold(v: i128) -> (r: i64)
    ensures
        r == held_signed(v as int),
{
    if v > i64::MAX as i128 {
        i64::MAX
    } else if v < i64::MIN as i128 {
        i64::MIN
    } else {
        v as i64
    }
}

/// All that is measured about the service.
#[derive(Debug)]
pub struct Metrics {
    pub vatsim_objects_online: Metric,
    pub database_objects_count: Metric,
    pub database_objects_count_fetch_time_sec: Metric,
    /// When the data in use was published, in seconds since the Unix epoch.
    pub vatsim_data_timestamp: i64,
    pub vatsim_data_load_time_sec: Metric,
    pub processing_time_sec: Metric,
    pub db_cleanup_time_sec: Metric,
    /// When the process started, in milliseconds since the Unix epoch.
    pub process_started_at: i64,
}

impl Metrics {
    pub open spec fn wf(&self) -> bool {
        &&& self.vatsim_objects_online.wf()
        &&& self.database_objects_count.wf()
        &&& self.database_objects_count_fetch_time_sec.wf()
        &&& self.vatsim_data_load_time_sec.wf()
        &&& self.processing_time_sec.wf()
        &&& self.db_cleanup_time_sec.wf()
    }

    /// Whether these are the metrics of a process that has started at `now`
    /// and has measured nothing yet: each gauge goes by its name and has no
    /// sample.
    pub open spec fn fresh(&self, now: i64) -> bool {
        &&& self.process_started_at == now
        &&& self.vatsim_data_timestamp == 0
        &&& self.vatsim_objects_online.unused(
            "vatsim_objects_online"@,
            "Vatsim objects currently tracked"@,
        )
        &&& self.database_objects_count.unused(
            "database_objects_count"@,
            "Number of objects stored in database"@,
        )
        &&& self.database_objects_count_fetch_time_sec.unused(
            "database_objects_count_fetch_time_sec"@,
            "Time spent fetching countDocuments()"@,
        )
        &&& self.vatsim_data_load_time_sec.unused(
            "vatsim_data_load_time_sec"@,
            "Vatsim API data load time"@,
        )
        &&& self.processing_time_sec.unused(
            "processing_time_sec"@,
            "Processing time for various vatsim objects"@,
        )
        &&& self.db_cleanup_time_sec.unused(
            "db_cleanup_time_sec"@,
            "Time spent cleaning up database stored objects"@,
        )
    }

    /// Whether the metrics say what `other` says.
    pub open spec fn alike(&self, other: &Metrics) -> bool {
        &&& self.vatsim_objects_online.alike(&other.vatsim_objects_online)
        &&& self.database_objects_count.alike(&other.database_objects_count)
        &&& self.database_objects_count_fetch_time_sec.alike(
            &other.database_objects_count_fetch_time_sec,
        )
        &&& self.vatsim_data_timestamp == other.vatsim_data_timestamp
        &&& self.vatsim_data_load_time_sec.alike(&other.vatsim_data_load_time_sec)
        &&& self.processing_time_sec.alike(&other.processing_time_sec)
        &&& self.db_cleanup_time_sec.alike(&other.db_cleanup_time_sec)
        &&& self.process_started_at == other.process_started_at
    }

    /// A copy of the metrics.
    pub fn copy(&self) -> (r: Self)
        requires
            self.wf(),
        ensures
            r.wf(),
            r.alike(self),
    {
        Metrics {
            vatsim_objects_online: self.vatsim_objects_online.copy(),
            database_objects_count: self.database_objects_count.copy(),
            database_objects_count_fetch_time_sec: self.database_objects_count_fetch_time_sec.copy(),
            vatsim_data_timestamp: self.vatsim_data_timestamp,
            vatsim_data_load_time_sec: self.vatsim_data_load_time_sec.copy(),
            processing_time_sec: self.processing_time_sec.copy(),
            db_cleanup_time_sec: self.db_cleanup_time_sec.copy(),
            process_started_at: self.process_started_at,
        }
    }

    /// The metrics of a process that starts at `now`, in milliseconds since
    /// the Unix epoch: none has a sample yet.
    pub fn new(now: i64) -> (r: Self)
        ensures
            r.wf(),
            r.fresh(now),
    {
        Metrics {
            vatsim_objects_online: Metric::new(
                "vatsim_objects_online",
                "Vatsim objects currently tracked",
                MetricType::Gauge,
            ),
            database_objects_count: Metric::new(
                "database_objects_count",
                "Number of objects stored in database",
                MetricType::Gauge,
            ),
            database_objects_count_fetch_time_sec: Metric::new(
                "database_objects_count_fetch_time_sec",
                "Time spent fetching countDocuments()",
                MetricType::Gauge,
            ),
            vatsim_data_timestamp: 0,
            vatsim_data_load_time_sec: Metric::new(
                "vatsim_data_load_time_sec",
                "Vatsim API data load time",
                MetricType::Gauge,
            ),
            processing_time_sec: Metric::new(
                "processing_time_sec",
                "Processing time for various vatsim objects",
                MetricType::Gauge,
            ),
            db_cleanup_time_sec: Metric::new(
                "db_cleanup_time_sec",
                "Time spent cleaning up database stored objects",
                MetricType::Gauge,
            ),
            process_started_at: now,
        }
    }

    /// The text of the age of the data at `now`, in seconds.
    pub open spec fn spec_age(&self, now: i64) -> Seq<char> {
        rendered(
            "vatsim_data_age_sec"@,
            "Latest Vatsim data age in seconds"@,
            MetricType::Gauge,
            true,
            seq![
                (
                    "_"@,
                    Sample::Whole(held_signed(now as int / 1000 - self.vatsim_data_timestamp)),
                ),
            ],
        )
    }

    /// The text of the time that the process has run at `now`, in seconds.
    pub open spec fn spec_uptime(&self, now: i64) -> Seq<char> {
        rendered(
            "uptime"@,
            "Process uptime in sec"@,
            MetricType::Counter,
            true,
            seq![("_"@, Sample::Whole(held_signed(seconds_up(self.process_started_at, now))))],
        )
    }

    /// The text of all metrics at `now`, in milliseconds since the Unix
    /// epoch: the objects online, the stored objects and the time it took
    /// to count them, the age of the data, the times of loading and of
    /// cleaning up, and the time that the process has run.
    pub fn render(&self, now: i64) -> (s: String)
        requires
            self.wf(),
        ensures
            s@ == self.vatsim_objects_online.spec_text() + self.database_objects_count.spec_text()
                + self.database_objects_count_fetch_time_sec.spec_text() + self.spec_age(now)
                + self.vatsim_data_load_time_sec.spec_text() + self.db_cleanup_time_sec.spec_text()
                + self.spec_uptime(now),
    {
        let mut s = String::new();
        let t = self.vatsim_objects_online.render();
        push_str(&mut s, t.as_str());
        let t = self.database_objects_count.render();
        push_str(&mut s, t.as_str());
        let t = self.database_objects_count_fetch_time_sec.render();
        push_str(&mut s, t.as_str());
        let seconds: i64 = if now >= 0 {
            now / 1000
        } else {
            (-((-(now as i128) + 999) / 1000)) as i64
        };
        let mut age = Metric::new(
            "vatsim_data_age_sec",
            "Latest Vatsim data age in seconds",
            MetricType::Gauge,
        );
        age.set_single(Sample::Whole(hold(seconds as i128 - self.vatsim_data_timestamp as i128)));
        let t = age.render();
        push_str(&mut s, t.as_str());
        let t = self.vatsim_data_load_time_sec.render();
        push_str(&mut s, t.as_str());
        let t = self.db_cleanup_time_sec.render();
        push_str(&mut s, t.as_str());
        let mut uptime = Metric::new("uptime", "Process uptime in sec", MetricType::Counter);
        let up: i128 = if now <= self.process_started_at {
            0
        } else {
            (now as i128 - self.process_started_at as i128 + 999) / 1000
        };
        uptime.set_single(Sample::Whole(hold(up)));
        let t = uptime.render();
        push_str(&mut s, t.as_str());
        assert(s@ =~= self.vatsim_objects_online.spec_text()
            + self.database_objects_count.spec_text()
            + self.database_objects_count_fetch_time_sec.spec_text() + self.spec_age(now)
            + self.vatsim_data_load_time_sec.spec_text() + self.db_cleanup_time_sec.spec_text()
            + self.spec_uptime(now));
        s
    }
}

impl Metric {
    /// The text of the metric.
    pub open spec fn spec_text(&self) -> Seq<char> {
        rendered(
            self.spec_name(),
            self.spec_help(),
            self.spec_type(),
            self.spec_single(),
            self.spec_samples(),
        )
    }
}

} // verus!
