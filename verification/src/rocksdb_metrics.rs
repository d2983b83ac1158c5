//! Names and keys of the metrics under which the database's statistics are
//! exported.

use vstd::prelude::*;
use vstd::string::StringExecFns;
use crate::text::{
    append_chars, chars_of, is_float_literal, is_float_text, parse_i64, parse_u32, parsed_i64,
    parsed_u32, pieces_view, same_chars, skip_chars, split_chars, split_on, string_of,
};

verus! {

/// A statistic's name with every dot turned into an underscore.
pub open spec fn dots_replaced(name: Seq<char>) -> Seq<char> {
    Seq::new(name.len(), |i: int| if name[i] == '.' { '_' } else { name[i] })
}

/// The characters of `name` with every dot turned into an underscore.
fn replace_dots(name: &Vec<char>) -> (replaced: Vec<char>)
    ensures
        replaced@ == dots_replaced(name@),
{
    let mut replaced: Vec<char> = Vec::new();
    let mut i: usize = 0;
    while i < name.len()
        invariant
            i <= name.len(),
            replaced@ == dots_replaced(name@).take(i as int),
        decreases name.len() - i,
    {
        let c = name[i];
        replaced.push(if c == '.' { '_' } else { c });
        i += 1;
    }
    replaced
}

/// The name of the metric for a statistic: `near_`, then the statistic's name
/// with underscores for its dots.
pub fn get_prometheus_metric_name(stats_name: &str) -> (name: String)
    ensures
        name@ == "near_"@ + dots_replaced(stats_name@),
{
    let mut name = "near_".to_owned();
    let replaced = replace_dots(&chars_of(stats_name));
    append_chars(&mut name, &replaced);
    name
}

/// The name of the gauge that holds the count of a summary statistic.
pub fn get_metric_name_summary_count_gauge(stats_name: &str) -> (name: String)
    ensures
        name@ == "near_"@ + dots_replaced(stats_name@) + "_count"@,
{
    let mut name = get_prometheus_metric_name(stats_name);
    name.append("_count");
    name
}

/// The name of the gauge that holds the sum of a summary statistic.
pub fn get_metric_name_summary_sum_gauge(stats_name: &str) -> (name: String)
    ensures
        name@ == "near_"@ + dots_replaced(stats_name@) + "_sum"@,
{
    let mut name = get_prometheus_metric_name(stats_name);
    name.append("_sum");
    name
}

/// The key under which the count gauge of a summary statistic is kept.
pub fn get_stats_summary_count_key(stats_name: &str) -> (key: String)
    ensures
        key@ == stats_name@ + ".count"@,
{
    let mut key = stats_name.to_owned();
    key.append(".count");
    key
}

/// The key under which the sum gauge of a summary statistic is kept.
pub fn get_stats_summary_sum_key(stats_name: &str) -> (key: String)
    ensures
        key@ == stats_name@ + ".sum"@,
{
    let mut key = stats_name.to_owned();
    key.append(".sum");
    key
}

/// One value of a statistic.
#[derive(Debug, Clone, PartialEq, Eq)]
pub enum StatsValue {
    /// How often the statistic was sampled.
    Count(i64),
    /// The sum of the samples.
    Sum(i64),
    /// A percentile and the sample at it, the sample as it is written: a
    /// floating-point number.
    Percentile(u32, String),
}

/// A value of a statistic with its text taken by its view.
pub enum StatsValueView {
    Count(i64),
    Sum(i64),
    Percentile(u32, Seq<char>),
}

impl View for StatsValue {
    type V = StatsValueView;

    open spec fn view(&self) -> StatsValueView {
        match self {
            StatsValue::Count(n) => StatsValueView::Count(*n),
            StatsValue::Sum(n) => StatsValueView::Sum(*n),
            StatsValue::Percentile(p, sample) => StatsValueView::Percentile(*p, sample@),
        }
    }
}

/// Why a dump of statistics could not be read.
#[derive(Debug, Clone, PartialEq, Eq)]
pub enum StatsParseError {
    /// The word stands for a count or a sum and is no signed number of 64 bits.
    InvalidInteger(String),
    /// The word stands for a percentile and is no unsigned number of 32 bits.
    InvalidPercentile(String),
    /// The word stands for the sample at a percentile and is no floating-point
    /// number.
    InvalidSample(String),
    /// The word names no kind of value; the second string is the line it stands in.
    UnsupportedValue(String, String),
    /// The line ends before the value that a word announces.
    MissingValue(String),
}

/// A failure to read statistics with its texts taken by their views.
pub enum StatsParseErrorView {
    InvalidInteger(Seq<char>),
    InvalidPercentile(Seq<char>),
    InvalidSample(Seq<char>),
    UnsupportedValue(Seq<char>, Seq<char>),
    MissingValue(Seq<char>),
}

impl View for StatsParseError {
    type V = StatsParseErrorView;

    open spec fn view(&self) -> StatsParseErrorView {
        match self {
            StatsParseError::InvalidInteger(word) => StatsParseErrorView::InvalidInteger(word@),
            StatsParseError::InvalidPercentile(word) => StatsParseErrorView::InvalidPercentile(
                word@,
            ),
            StatsParseError::InvalidSample(word) => StatsParseErrorView::InvalidSample(word@),
            StatsParseError::UnsupportedValue(word, line) => StatsParseErrorView::UnsupportedValue(
                word@,
                line@,
            ),
            StatsParseError::MissingValue(line) => StatsParseErrorView::MissingValue(line@),
        }
    }
}

/// The value that the words of a line announce at index `i`: the word at `i`
/// names the kind, and the word two places on is the value.
///
/// `COUNT` and `SUM` take a signed number. A word that begins with `P` is a
/// percentile: the rest of the word is its number, and the value must be a
/// floating-point number, which is kept as it is written. Any other word is not
/// supported.
pub open spec fn value_at(words: Seq<Seq<char>>, i: int, line: Seq<char>) -> Result<
    StatsValueView,
    StatsParseErrorView,
> {
    let kind = words[i];
    if kind == "COUNT"@ || kind == "SUM"@ {
        if i + 2 >= words.len() {
            Err(StatsParseErrorView::MissingValue(line))
        } else {
            match parsed_i64(words[i + 2]) {
                Some(n) => Ok(
                    if kind == "COUNT"@ {
                        StatsValueView::Count(n)
                    } else {
                        StatsValueView::Sum(n)
                    },
                ),
                None => Err(StatsParseErrorView::InvalidInteger(words[i + 2])),
            }
        }
    } else if kind.len() >= 1 && kind[0] == 'P' {
        match parsed_u32(kind.skip(1)) {
            None => Err(StatsParseErrorView::InvalidPercentile(kind.skip(1))),
            Some(p) => if i + 2 >= words.len() {
                Err(StatsParseErrorView::MissingValue(line))
            } else if !is_float_literal(words[i + 2]) {
                Err(StatsParseErrorView::InvalidSample(words[i + 2]))
            } else {
                Ok(StatsValueView::Percentile(p, words[i + 2]))
            },
        }
    } else {
        Err(StatsParseErrorView::UnsupportedValue(kind, line))
    }
}

/// The values that the words of a line announce at the indices `i`, `i + 3`,
/// `i + 6` and so on, or the first failure among them.
pub open spec fn values_from(words: Seq<Seq<char>>, i: int, line: Seq<char>) -> Result<
    Seq<StatsValueView>,
    StatsParseErrorView,
>
    decreases words.len() - i,
{
    if i < 0 || i >= words.len() {
        Ok(Seq::empty())
    } else {
        match value_at(words, i, line) {
            Err(e) => Err(e),
            Ok(value) => match values_from(words, i + 3, line) {
                Err(e) => Err(e),
                Ok(rest) => Ok(seq![value] + rest),
            },
        }
    }
}

/// What a line says: nothing if it is a single word or empty, else the name of a
/// statistic, which is its first word, with the values that follow.
pub open spec fn line_stats(line: Seq<char>) -> Result<
    Option<(Seq<char>, Seq<StatsValueView>)>,
    StatsParseErrorView,
> {
    let words = split_on(line, ' ');
    if words.len() > 1 {
        match values_from(words, 1, line) {
            Err(e) => Err(e),
            Ok(values) => Ok(Some((words[0], values))),
        }
    } else {
        Ok(None)
    }
}

/// What the lines from index `i` on say, in order, or the first failure among
/// them.
pub open spec fn stats_from(lines: Seq<Seq<char>>, i: int) -> Result<
    Seq<(Seq<char>, Seq<StatsValueView>)>,
    StatsParseErrorView,
>
    decreases lines.len() - i,
{
    if i < 0 || i >= lines.len() {
        Ok(Seq::empty())
    } else {
        match line_stats(lines[i]) {
            Err(e) => Err(e),
            Ok(entry) => match stats_from(lines, i + 1) {
                Err(e) => Err(e),
                Ok(rest) => Ok(
                    match entry {
                        Some(stat) => seq![stat] + rest,
                        None => rest,
                    },
                ),
            },
        }
    }
}

/// What a dump of statistics says: one statistic for each of its lines that has
/// more than one word.
pub open spec fn parsed_statistics(text: Seq<char>) -> Result<
    Seq<(Seq<char>, Seq<StatsValueView>)>,
    StatsParseErrorView,
> {
    stats_from(split_on(text, '\n'), 0)
}

/// The values of a list, each by its view.
pub open spec fn values_view(values: Seq<StatsValue>) -> Seq<StatsValueView> {
    Seq::new(values.len(), |i: int| values[i]@)
}

/// The statistics of a list, each by its view.
pub open spec fn stats_view(stats: Seq<(String, Vec<StatsValue>)>) -> Seq<
    (Seq<char>, Seq<StatsValueView>),
> {
    Seq::new(stats.len(), |i: int| (stats[i].0@, values_view(stats[i].1@)))
}

/// The outcome of reading statistics, taken by its view.
pub open spec fn stats_outcome(result: Result<Vec<(String, Vec<StatsValue>)>, StatsParseError>) -> Result<
    Seq<(Seq<char>, Seq<StatsValueView>)>,
    StatsParseErrorView,
> {
    match result {
        Ok(stats) => Ok(stats_view(stats@)),
        Err(e) => Err(e@),
    }
}

/// Reads the value that `words` announce at index `i`.
fn parse_value(words: &Vec<Vec<char>>, i: usize, line: &Vec<char>) -> (result: Result<
    StatsValue,
    StatsParseError,
>)
    requires
        i < words.len(),
    ensures
        match result {
            Ok(value) => value_at(pieces_view(words@), i as int, line@) == Ok::<
                StatsValueView,
                StatsParseErrorView,
            >(value@),
            Err(e) => value_at(pieces_view(words@), i as int, line@) == Err::<
                StatsValueView,
                StatsParseErrorView,
            >(e@),
        },
{
    let kind = &words[i];
    let is_count = same_chars(kind, &chars_of("COUNT"));
    let is_sum = same_chars(kind, &chars_of("SUM"));
    if is_count || is_sum {
        if words.len() - i <= 2 {
            return Err(StatsParseError::MissingValue(string_of(line)));
        }
        match parse_i64(&words[i + 2]) {
            Some(n) => if is_count {
                Ok(StatsValue::Count(n))
            } else {
                Ok(StatsValue::Sum(n))
            },
            None => Err(StatsParseError::InvalidInteger(string_of(&words[i + 2]))),
        }
    } else if kind.len() >= 1 && kind[0] == 'P' {
        let number = skip_chars(kind, 1);
        match parse_u32(&number) {
            None => Err(StatsParseError::InvalidPercentile(string_of(&number))),
            Some(p) => if words.len() - i <= 2 {
                Err(StatsParseError::MissingValue(string_of(line)))
            } else if !is_float_text(&words[i + 2]) {
                Err(StatsParseError::InvalidSample(string_of(&words[i + 2])))
            } else {
                Ok(StatsValue::Percentile(p, string_of(&words[i + 2])))
            },
        }
    } else {
        Err(StatsParseError::UnsupportedValue(string_of(kind), string_of(line)))
    }
}

/// With the values before index `i` read, the values of the line are those
/// followed by the values from `i` on.
spec fn values_after(
    read: Seq<StatsValueView>,
    rest: Result<Seq<StatsValueView>, StatsParseErrorView>,
) -> Result<Seq<StatsValueView>, StatsParseErrorView> {
    match rest {
        Ok(values) => Ok(read + values),
        Err(e) => Err(e),
    }
}

/// Reads a line: the name of its statistic and the values, or nothing where the
/// line has no more than one word.
fn parse_line(line: &Vec<char>) -> (result: Result<
    Option<(String, Vec<StatsValue>)>,
    StatsParseError,
>)
    ensures
        match result {
            Ok(Some(stat)) => line_stats(line@) == Ok::<
                Option<(Seq<char>, Seq<StatsValueView>)>,
                StatsParseErrorView,
            >(Some((stat.0@, values_view(stat.1@)))),
            Ok(None) => line_stats(line@) == Ok::<
                Option<(Seq<char>, Seq<StatsValueView>)>,
                StatsParseErrorView,
            >(None),
            Err(e) => line_stats(line@) == Err::<
                Option<(Seq<char>, Seq<StatsValueView>)>,
                StatsParseErrorView,
            >(e@),
        },
{
    let words = split_chars(line, ' ');
    if words.len() <= 1 {
        return Ok(None);
    }
    let ghost w = pieces_view(words@);
    let mut values: Vec<StatsValue> = Vec::new();
    let mut i: usize = 1;
    while i < words.len()
        invariant
            1 <= i,
            words.len() > 1,
            w == pieces_view(words@),
            w == split_on(line@, ' '),
            values_from(w, 1, line@) == values_after(
                values_view(values@),
                values_from(w, i as int, line@),
            ),
        decreases words.len() - i,
    {
        match parse_value(&words, i, line) {
            Err(e) => {
                return Err(e);
            },
            Ok(value) => {
                proof {
                    let rest = values_from(w, i + 3, line@);
                    if let Ok(more) = rest {
                        assert(values_view(values@) + (seq![value@] + more) =~= values_view(
                            values@,
                        ).push(value@) + more);
                    }
                    assert(values_view(values@.push(value)) =~= values_view(values@).push(
                        value@,
                    ));
                }
                values.push(value);
            },
        }
        if i >= usize::MAX - 3 {
            proof {
                assert(values_from(w, i + 3, line@) == Ok::<
                    Seq<StatsValueView>,
                    StatsParseErrorView,
                >(Seq::empty()));
                assert(values_view(values@) + Seq::<StatsValueView>::empty() =~= values_view(
                    values@,
                ));
            }
            return Ok(Some((string_of(&words[0]), values)));
        }
        i += 3;
    }
    Ok(Some((string_of(&words[0]), values)))
}

/// With the lines before index `i` read, the statistics of the dump are those
/// followed by the statistics of the lines from `i` on.
spec fn stats_after(
    read: Seq<(Seq<char>, Seq<StatsValueView>)>,
    rest: Result<Seq<(Seq<char>, Seq<StatsValueView>)>, StatsParseErrorView>,
) -> Result<Seq<(Seq<char>, Seq<StatsValueView>)>, StatsParseErrorView> {
    match rest {
        Ok(stats) => Ok(read + stats),
        Err(e) => Err(e),
    }
}

/// Reads a dump of the database's statistics.
///
/// Every line with more than one word gives one statistic: its first word is the
/// name, and from the second word on every third word names a kind of value, with
/// the value two words later. Returns the statistics in the order of their lines,
/// or the first failure: a word that is no number where one is expected, a kind
/// that is not supported, or a line that ends before a value.
pub fn parse_statistics(statistics: &str) -> (result: Result<
    Vec<(String, Vec<StatsValue>)>,
    StatsParseError,
>)
    ensures
        stats_outcome(result) == parsed_statistics(statistics@),
{
    let text = chars_of(statistics);
    let lines = split_chars(&text, '\n');
    let ghost l = pieces_view(lines@);
    let mut stats: Vec<(String, Vec<StatsValue>)> = Vec::new();
    let mut i: usize = 0;
    assert(stats_view(stats@) + Seq::<(Seq<char>, Seq<StatsValueView>)>::empty() =~= stats_view(
        stats@,
    ));
    while i < lines.len()
        invariant
            i <= lines.len(),
            l == pieces_view(lines@),
            l == split_on(statistics@, '\n'),
            stats_from(l, 0) == stats_after(stats_view(stats@), stats_from(l, i as int)),
        decreases lines.len() - i,
    {
        match parse_line(&lines[i]) {
            Err(e) => {
                return Err(e);
            },
            Ok(None) => {},
            Ok(Some(stat)) => {
                proof {
                    let entry = (stat.0@, values_view(stat.1@));
                    if let Ok(more) = stats_from(l, i + 1) {
                        assert(stats_view(stats@) + (seq![entry] + more) =~= stats_view(stats@).push(
                            entry,
                        ) + more);
                    }
                    assert(stats_view(stats@.push(stat)) =~= stats_view(stats@).push(entry));
                }
                stats.push(stat);
            },
        }
        i += 1;
    }
    assert(stats_view(stats@) + Seq::<(Seq<char>, Seq<StatsValueView>)>::empty() =~= stats_view(
        stats@,
    ));
    Ok(stats)
}

/// One update of a metric.
#[derive(Debug, Clone, PartialEq, Eq)]
pub enum MetricUpdate {
    /// Set the integer gauge that is kept under `key` to `value`; where there is
    /// none yet, it is made with the name `name` and the description `help`.
    IntGauge { key: String, name: String, help: String, value: i64 },
    /// Set the gauge for the quantile of `percentile`, in the family of gauges
    /// that is kept under `key`, to `sample`; where there is no family yet, it
    /// is made with the name `name` and the description `help`.
    Quantile { key: String, name: String, help: String, percentile: u32, sample: String },
}

/// An update of a metric with its texts taken by their views.
pub enum MetricUpdateView {
    IntGauge { key: Seq<char>, name: Seq<char>, help: Seq<char>, value: i64 },
    Quantile { key: Seq<char>, name: Seq<char>, help: Seq<char>, percentile: u32, sample: Seq<char> },
}

impl View for MetricUpdate {
    type V = MetricUpdateView;

    open spec fn view(&self) -> MetricUpdateView {
        match self {
            MetricUpdate::IntGauge { key, name, help, value } => MetricUpdateView::IntGauge {
                key: key@,
                name: name@,
                help: help@,
                value: *value,
            },
            MetricUpdate::Quantile { key, name, help, percentile, sample } => MetricUpdateView::Quantile {
                key: key@,
                name: name@,
                help: help@,
                percentile: *percentile,
                sample: sample@,
            },
        }
    }
}

/// The update for a statistic that has one value and no more: a count sets the
/// gauge that has the statistic's name; any other value is not exported.
pub open spec fn counter_update(stats_name: Seq<char>, value: StatsValueView) -> Seq<
    MetricUpdateView,
> {
    match value {
        StatsValueView::Count(n) => seq![
            MetricUpdateView::IntGauge {
                key: stats_name,
                name: "near_"@ + dots_replaced(stats_name),
                help: stats_name,
                value: n,
            },
        ],
        _ => Seq::empty(),
    }
}

/// The update for one value of a summary statistic: the count and the sum each
/// have a gauge of their own, and a percentile has a gauge in the family of the
/// statistic.
pub open spec fn summary_update(stats_name: Seq<char>, value: StatsValueView) -> MetricUpdateView {
    match value {
        StatsValueView::Count(n) => MetricUpdateView::IntGauge {
            key: stats_name + ".count"@,
            name: "near_"@ + dots_replaced(stats_name) + "_count"@,
            help: stats_name,
            value: n,
        },
        StatsValueView::Sum(n) => MetricUpdateView::IntGauge {
            key: stats_name + ".sum"@,
            name: "near_"@ + dots_replaced(stats_name) + "_sum"@,
            help: stats_name,
            value: n,
        },
        StatsValueView::Percentile(percentile, sample) => MetricUpdateView::Quantile {
            key: stats_name,
            name: "near_"@ + dots_replaced(stats_name),
            help: stats_name,
            percentile,
            sample,
        },
    }
}

/// The updates for one statistic, in the order of its values.
pub open spec fn stat_updates(stats_name: Seq<char>, values: Seq<StatsValueView>) -> Seq<
    MetricUpdateView,
> {
    if values.len() == 1 {
        counter_update(stats_name, values[0])
    } else {
        Seq::new(values.len(), |i: int| summary_update(stats_name, values[i]))
    }
}

/// The updates for the first `n` statistics of `stats`, in order.
pub open spec fn updates_upto(stats: Seq<(Seq<char>, Seq<StatsValueView>)>, n: int) -> Seq<
    MetricUpdateView,
>
    decreases n,
{
    if n <= 0 {
        Seq::empty()
    } else {
        updates_upto(stats, n - 1) + stat_updates(stats[n - 1].0, stats[n - 1].1)
    }
}

/// The updates of a list, each by its view.
pub open spec fn updates_view(updates: Seq<MetricUpdate>) -> Seq<MetricUpdateView> {
    Seq::new(updates.len(), |i: int| updates[i]@)
}

/// The update for one value of a summary statistic.
fn summary_metric(stats_name: &String, value: &StatsValue) -> (update: MetricUpdate)
    ensures
        update@ == summary_update(stats_name@, value@),
{
    match value {
        StatsValue::Count(n) => MetricUpdate::IntGauge {
            key: get_stats_summary_count_key(stats_name.as_str()),
            name: get_metric_name_summary_count_gauge(stats_name.as_str()),
            help: stats_name.clone(),
            value: *n,
        },
        StatsValue::Sum(n) => MetricUpdate::IntGauge {
            key: get_stats_summary_sum_key(stats_name.as_str()),
            name: get_metric_name_summary_sum_gauge(stats_name.as_str()),
            help: stats_name.clone(),
            value: *n,
        },
        StatsValue::Percentile(percentile, sample) => MetricUpdate::Quantile {
            key: stats_name.clone(),
            name: get_prometheus_metric_name(stats_name.as_str()),
            help: stats_name.clone(),
            percentile: *percentile,
            sample: sample.clone(),
        },
    }
}

/// The updates of metrics that export the statistics, in the order in which
/// they are to be made.
///
/// A statistic with a single value is a counter: its count sets the gauge of the
/// statistic's name, and any other single value is left out. A statistic with
/// another number of values is a summary: each of its values has an update.
pub fn export_stats_as_metrics(stats: &Vec<(String, Vec<StatsValue>)>) -> (updates: Vec<
    MetricUpdate,
>)
    ensures
        updates_view(updates@) == updates_upto(stats_view(stats@), stats.len() as int),
{
    let mut updates: Vec<MetricUpdate> = Vec::new();
    let mut i: usize = 0;
    while i < stats.len()
        invariant
            i <= stats.len(),
            updates_view(updates@) == updates_upto(stats_view(stats@), i as int),
        decreases stats.len() - i,
    {
        let stats_name = &stats[i].0;
        let values = &stats[i].1;
        let ghost before = updates_view(updates@);
        let ghost name = stats_view(stats@)[i as int].0;
        let ghost vals = stats_view(stats@)[i as int].1;
        if values.len() == 1 {
            if let StatsValue::Count(n) = &values[0] {
                updates.push(
                    MetricUpdate::IntGauge {
                        key: stats_name.clone(),
                        name: get_prometheus_metric_name(stats_name.as_str()),
                        help: stats_name.clone(),
                        value: *n,
                    },
                );
            }
        } else {
            let mut j: usize = 0;
            while j < values.len()
                invariant
                    j <= values.len(),
                    values.len() != 1,
                    vals == values_view(values@),
                    updates_view(updates@) == before + stat_updates(name, vals).take(j as int),
                    name == stats_name@,
                decreases values.len() - j,
            {
                let update = summary_metric(stats_name, &values[j]);
                let ghost earlier = updates_view(updates@);
                updates.push(update);
                assert(updates_view(updates@) =~= earlier.push(update@));
                j += 1;
            }
        }
        i += 1;
    }
    updates
}

} // verus!
