//! ECharts option documents for the result views: value distributions of a
//! sample, the pass/fail overview of a run, and the charts a DSL script asks
//! for.
use vstd::prelude::*;
use crate::text::{
    chars_of, dec, dec_int, str_eq, extend_chars, extend_str, fmt_i64, fmt_usize, join, join_str, replace,
    replace_str, seqs_of, string_of,
};

verus! {

/// How a value distribution is shown.
#[derive(Clone, Copy, Debug, PartialEq, Eq, Structural)]
pub enum ChartTab {
    Bar,
    Pie,
    Table,
}

impl ChartTab {
    /// The tab's caption.
    pub fn label(self) -> (s: &'static str)
        ensures
            s@ == (match self {
                ChartTab::Bar => "Bar"@,
                ChartTab::Pie => "Pie"@,
                ChartTab::Table => "Table"@,
            }),
    {
        match self {
            ChartTab::Bar => "Bar",
            ChartTab::Pie => "Pie",
            ChartTab::Table => "Table",
        }
    }
}

/// One distinct value of a column and how many rows have it.
#[derive(Clone, Debug)]
pub struct DistPoint {
    pub value: String,
    pub count: usize,
}

/// A label as a JSON string: double quotes escaped, then quoted.
pub open spec fn quoted(s: Seq<char>) -> Seq<char> {
    "\""@ + replace(s, "\""@, "\\\""@) + "\""@
}

fn quoted_exec(s: &str) -> (r: Vec<char>)
    ensures
        r@ == quoted(s@),
{
    proof {
        reveal_strlit("\"");
    }
    let v = chars_of(s);
    let e = replace_str(v.as_slice(), "\"", "\\\"");
    let mut r = chars_of("\"");
    extend_chars(&mut r, e.as_slice());
    extend_str(&mut r, "\"");
    r
}

pub open spec fn axis_chart(tooltip: Seq<char>, cats: Seq<char>, series_head: Seq<char>, vals: Seq<char>, series_tail: Seq<char>) -> Seq<char> {
    "{\"backgroundColor\":\"transparent\",\"grid\":{\"left\":60,\"right\":20,\"top\":20,\"bottom\":60},\"tooltip\":{\"trigger\":\""@
        + tooltip + "\"},\"xAxis\":{\"type\":\"category\",\"data\":["@ + cats
        + "],\"axisLabel\":{\"rotate\":30,\"fontSize\":10,\"color\":\"#c9a8ae\"}},\"yAxis\":{\"type\":\"value\",\"axisLabel\":{\"color\":\"#c9a8ae\"}},\"series\":[{\"type\":\""@
        + series_head + "\",\"data\":["@ + vals + "],"@ + series_tail + "\"itemStyle\":{\"color\":\"#8b1a2a\"}}]}"@
}

fn axis_chart_exec(tooltip: &str, cats: &[char], series_head: &str, vals: &[char], series_tail: &str) -> (r: Vec<char>)
    ensures
        r@ == axis_chart(tooltip@, cats@, series_head@, vals@, series_tail@),
{
    let mut r = chars_of(
        "{\"backgroundColor\":\"transparent\",\"grid\":{\"left\":60,\"right\":20,\"top\":20,\"bottom\":60},\"tooltip\":{\"trigger\":\"",
    );
    extend_str(&mut r, tooltip);
    extend_str(&mut r, "\"},\"xAxis\":{\"type\":\"category\",\"data\":[");
    extend_chars(&mut r, cats);
    extend_str(
        &mut r,
        "],\"axisLabel\":{\"rotate\":30,\"fontSize\":10,\"color\":\"#c9a8ae\"}},\"yAxis\":{\"type\":\"value\",\"axisLabel\":{\"color\":\"#c9a8ae\"}},\"series\":[{\"type\":\"",
    );
    extend_str(&mut r, series_head);
    extend_str(&mut r, "\",\"data\":[");
    extend_chars(&mut r, vals);
    extend_str(&mut r, "],");
    extend_str(&mut r, series_tail);
    extend_str(&mut r, "\"itemStyle\":{\"color\":\"#8b1a2a\"}}]}");
    r
}

pub open spec fn pie_chart(items: Seq<char>) -> Seq<char> {
    "{\"backgroundColor\":\"transparent\",\"tooltip\":{\"trigger\":\"item\"},\"legend\":{\"orient\":\"vertical\",\"left\":\"left\",\"textStyle\":{\"color\":\"#c9a8ae\",\"fontSize\":11}},\"series\":[{\"type\":\"pie\",\"radius\":\"60%\",\"data\":["@
        + items + "],\"label\":{\"color\":\"#f0e6e8\",\"fontSize\":11}}]}"@
}

fn pie_chart_exec(items: &[char]) -> (r: Vec<char>)
    ensures
        r@ == pie_chart(items@),
{
    let mut r = chars_of(
        "{\"backgroundColor\":\"transparent\",\"tooltip\":{\"trigger\":\"item\"},\"legend\":{\"orient\":\"vertical\",\"left\":\"left\",\"textStyle\":{\"color\":\"#c9a8ae\",\"fontSize\":11}},\"series\":[{\"type\":\"pie\",\"radius\":\"60%\",\"data\":[",
    );
    extend_chars(&mut r, items);
    extend_str(&mut r, "],\"label\":{\"color\":\"#f0e6e8\",\"fontSize\":11}}]}");
    r
}

/// A pie slice `{"name":<label>,"value":<value>}`.
pub open spec fn pie_item(name: Seq<char>, value: Seq<char>) -> Seq<char> {
    "{\"name\":"@ + quoted(name) + ",\"value\":"@ + value + "}"@
}

fn pie_item_exec(name: &str, value: &[char]) -> (r: Vec<char>)
    ensures
        r@ == pie_item(name@, value@),
{
    let mut r = chars_of("{\"name\":");
    let q = quoted_exec(name);
    extend_chars(&mut r, q.as_slice());
    extend_str(&mut r, ",\"value\":");
    extend_chars(&mut r, value);
    extend_str(&mut r, "}");
    r
}

pub open spec fn dist_cats(data: Seq<DistPoint>) -> Seq<char> {
    join(data.map_values(|d: DistPoint| quoted(d.value@)), ","@)
}

pub open spec fn dist_vals(data: Seq<DistPoint>) -> Seq<char> {
    join(data.map_values(|d: DistPoint| dec(d.count as nat)), ","@)
}

pub open spec fn dist_items(data: Seq<DistPoint>) -> Seq<char> {
    join(data.map_values(|d: DistPoint| pie_item(d.value@, dec(d.count as nat))), ","@)
}

/// The chart document for a distribution: a bar chart, a pie chart, or
/// nothing for the table view.
pub open spec fn dist_option(tab: ChartTab, data: Seq<DistPoint>) -> Seq<char> {
    match tab {
        ChartTab::Bar => axis_chart("axis"@, dist_cats(data), "bar"@, dist_vals(data), ""@),
        ChartTab::Pie => pie_chart(dist_items(data)),
        ChartTab::Table => Seq::empty(),
    }
}

/// Builds the ECharts option for a value distribution: categories and counts
/// for the bar chart, named slices for the pie chart, an empty string for
/// the table view.
pub fn build_option(tab: ChartTab, data: &[DistPoint]) -> (s: String)
    ensures
        s@ == dist_option(tab, data@),
{
    match tab {
        ChartTab::Table => String::new(),
        ChartTab::Bar => {
            let ghost fc = |d: DistPoint| quoted(d.value@);
            let ghost fv = |d: DistPoint| dec(d.count as nat);
            let mut cats: Vec<Vec<char>> = Vec::new();
            let mut vals: Vec<Vec<char>> = Vec::new();
            let mut i: usize = 0;
            while i < data.len()
                invariant
                    i <= data.len(),
                    fc == (|d: DistPoint| quoted(d.value@)),
                    fv == (|d: DistPoint| dec(d.count as nat)),
                    seqs_of(cats@) == data@.take(i as int).map_values(fc),
                    seqs_of(vals@) == data@.take(i as int).map_values(fv),
                decreases data.len() - i,
            {
                let ghost pc = seqs_of(cats@);
                let ghost pv = seqs_of(vals@);
                cats.push(quoted_exec(data[i].value.as_str()));
                vals.push(fmt_usize(data[i].count));
                assert(seqs_of(cats@) =~= pc.push(fc(data@[i as int])));
                assert(seqs_of(vals@) =~= pv.push(fv(data@[i as int])));
                assert(data@.take(i + 1).map_values(fc) =~= data@.take(i as int).map_values(fc).push(fc(data@[i as int])));
                assert(data@.take(i + 1).map_values(fv) =~= data@.take(i as int).map_values(fv).push(fv(data@[i as int])));
                i = i + 1;
            }
            assert(data@.take(data.len() as int) =~= data@);
            let c = join_str(cats.as_slice(), ",");
            let v = join_str(vals.as_slice(), ",");
            let r = axis_chart_exec("axis", c.as_slice(), "bar", v.as_slice(), "");
            string_of(r.as_slice())
        },
        ChartTab::Pie => {
            let ghost fi = |d: DistPoint| pie_item(d.value@, dec(d.count as nat));
            let mut items: Vec<Vec<char>> = Vec::new();
            let mut i: usize = 0;
            while i < data.len()
                invariant
                    i <= data.len(),
                    fi == (|d: DistPoint| pie_item(d.value@, dec(d.count as nat))),
                    seqs_of(items@) == data@.take(i as int).map_values(fi),
                decreases data.len() - i,
            {
                let ghost p = seqs_of(items@);
                let n = fmt_usize(data[i].count);
                items.push(pie_item_exec(data[i].value.as_str(), n.as_slice()));
                assert(seqs_of(items@) =~= p.push(fi(data@[i as int])));
                assert(data@.take(i + 1).map_values(fi) =~= data@.take(i as int).map_values(fi).push(fi(data@[i as int])));
                i = i + 1;
            }
            assert(data@.take(data.len() as int) =~= data@);
            let it = join_str(items.as_slice(), ",");
            let r = pie_chart_exec(it.as_slice());
            string_of(r.as_slice())
        },
    }
}

// ───────────────────────────── run overview ─────────────────────────────

pub open spec fn overview_chart(cats: Seq<char>, pass: Seq<char>, fail: Seq<char>, errs: Seq<char>) -> Seq<char> {
    "{\"backgroundColor\":\"transparent\",\"grid\":{\"left\":55,\"right\":12,\"top\":10,\"bottom\":48},\"tooltip\":{\"trigger\":\"axis\",\"axisPointer\":{\"type\":\"shadow\"}},\"legend\":{\"data\":[\"Passed\",\"Failed\",\"Errors\"],\"bottom\":4,\"textStyle\":{\"color\":\"#c9a8ae\",\"fontSize\":10}},\"xAxis\":{\"type\":\"category\",\"data\":["@
        + cats
        + "],\"axisLabel\":{\"color\":\"#c9a8ae\",\"fontSize\":10,\"rotate\":30}},\"yAxis\":{\"type\":\"value\",\"minInterval\":1,\"axisLabel\":{\"color\":\"#c9a8ae\",\"fontSize\":10}},\"series\":[{\"name\":\"Passed\",\"type\":\"bar\",\"stack\":\"s\",\"data\":["@
        + pass + "],\"itemStyle\":{\"color\":\"#38a749\"}},{\"name\":\"Failed\",\"type\":\"bar\",\"stack\":\"s\",\"data\":["@
        + fail + "],\"itemStyle\":{\"color\":\"#e05c5c\"}},{\"name\":\"Errors\",\"type\":\"bar\",\"stack\":\"s\",\"data\":["@
        + errs + "],\"itemStyle\":{\"color\":\"#f0a500\"}}]}"@
}

/// The overview document: empty without items, otherwise a stacked bar per
/// control with its passed, failed and error counts (control refs quoted as
/// they are).
pub open spec fn overview_option(items: Seq<(&str, i64, i64, i64)>) -> Seq<char> {
    if items.len() == 0 {
        Seq::empty()
    } else {
        overview_chart(
            join(items.map_values(|t: (&str, i64, i64, i64)| "\""@ + t.0@ + "\""@), ","@),
            join(items.map_values(|t: (&str, i64, i64, i64)| dec_int(t.1 as int)), ","@),
            join(items.map_values(|t: (&str, i64, i64, i64)| dec_int(t.2 as int)), ","@),
            join(items.map_values(|t: (&str, i64, i64, i64)| dec_int(t.3 as int)), ","@),
        )
    }
}

/// Builds the stacked bar chart of passed / failed / error counts per
/// control; an empty string when there are no items.
pub fn build_summary_option(items: &[(&str, i64, i64, i64)]) -> (s: String)
    ensures
        s@ == overview_option(items@),
{
    if items.len() == 0 {
        return String::new();
    }
    let ghost f0 = |t: (&str, i64, i64, i64)| "\""@ + t.0@ + "\""@;
    let ghost f1 = |t: (&str, i64, i64, i64)| dec_int(t.1 as int);
    let ghost f2 = |t: (&str, i64, i64, i64)| dec_int(t.2 as int);
    let ghost f3 = |t: (&str, i64, i64, i64)| dec_int(t.3 as int);
    let mut cats: Vec<Vec<char>> = Vec::new();
    let mut pass: Vec<Vec<char>> = Vec::new();
    let mut fail: Vec<Vec<char>> = Vec::new();
    let mut errs: Vec<Vec<char>> = Vec::new();
    let mut i: usize = 0;
    while i < items.len()
        invariant
            i <= items.len(),
            f0 == (|t: (&str, i64, i64, i64)| "\""@ + t.0@ + "\""@),
            f1 == (|t: (&str, i64, i64, i64)| dec_int(t.1 as int)),
            f2 == (|t: (&str, i64, i64, i64)| dec_int(t.2 as int)),
            f3 == (|t: (&str, i64, i64, i64)| dec_int(t.3 as int)),
            seqs_of(cats@) == items@.take(i as int).map_values(f0),
            seqs_of(pass@) == items@.take(i as int).map_values(f1),
            seqs_of(fail@) == items@.take(i as int).map_values(f2),
            seqs_of(errs@) == items@.take(i as int).map_values(f3),
        decreases items.len() - i,
    {
        let ghost (p0, p1, p2, p3) = (seqs_of(cats@), seqs_of(pass@), seqs_of(fail@), seqs_of(errs@));
        let t = items[i];
        let mut c = chars_of("\"");
        extend_str(&mut c, t.0);
        extend_str(&mut c, "\"");
        cats.push(c);
        pass.push(fmt_i64(t.1));
        fail.push(fmt_i64(t.2));
        errs.push(fmt_i64(t.3));
        proof {
            let x = items@[i as int];
            assert(seqs_of(cats@) =~= p0.push(f0(x)));
            assert(seqs_of(pass@) =~= p1.push(f1(x)));
            assert(seqs_of(fail@) =~= p2.push(f2(x)));
            assert(seqs_of(errs@) =~= p3.push(f3(x)));
            assert(items@.take(i + 1).map_values(f0) =~= items@.take(i as int).map_values(f0).push(f0(x)));
            assert(items@.take(i + 1).map_values(f1) =~= items@.take(i as int).map_values(f1).push(f1(x)));
            assert(items@.take(i + 1).map_values(f2) =~= items@.take(i as int).map_values(f2).push(f2(x)));
            assert(items@.take(i + 1).map_values(f3) =~= items@.take(i as int).map_values(f3).push(f3(x)));
        }
        i = i + 1;
    }
    assert(items@.take(items.len() as int) =~= items@);
    let c = join_str(cats.as_slice(), ",");
    let p = join_str(pass.as_slice(), ",");
    let f = join_str(fail.as_slice(), ",");
    let e = join_str(errs.as_slice(), ",");
    let mut r = chars_of(
        "{\"backgroundColor\":\"transparent\",\"grid\":{\"left\":55,\"right\":12,\"top\":10,\"bottom\":48},\"tooltip\":{\"trigger\":\"axis\",\"axisPointer\":{\"type\":\"shadow\"}},\"legend\":{\"data\":[\"Passed\",\"Failed\",\"Errors\"],\"bottom\":4,\"textStyle\":{\"color\":\"#c9a8ae\",\"fontSize\":10}},\"xAxis\":{\"type\":\"category\",\"data\":[",
    );
    extend_chars(&mut r, c.as_slice());
    extend_str(
        &mut r,
        "],\"axisLabel\":{\"color\":\"#c9a8ae\",\"fontSize\":10,\"rotate\":30}},\"yAxis\":{\"type\":\"value\",\"minInterval\":1,\"axisLabel\":{\"color\":\"#c9a8ae\",\"fontSize\":10}},\"series\":[{\"name\":\"Passed\",\"type\":\"bar\",\"stack\":\"s\",\"data\":[",
    );
    extend_chars(&mut r, p.as_slice());
    extend_str(&mut r, "],\"itemStyle\":{\"color\":\"#38a749\"}},{\"name\":\"Failed\",\"type\":\"bar\",\"stack\":\"s\",\"data\":[");
    extend_chars(&mut r, f.as_slice());
    extend_str(&mut r, "],\"itemStyle\":{\"color\":\"#e05c5c\"}},{\"name\":\"Errors\",\"type\":\"bar\",\"stack\":\"s\",\"data\":[");
    extend_chars(&mut r, e.as_slice());
    extend_str(&mut r, "],\"itemStyle\":{\"color\":\"#f0a500\"}}]}");
    string_of(r.as_slice())
}

// ───────────────────────────── charts asked for by scripts ─────────────────────────────

pub open spec fn label_cats(labels: Seq<String>) -> Seq<char> {
    join(labels.map_values(|l: String| quoted(l@)), ","@)
}

pub open spec fn value_list(values: Seq<String>) -> Seq<char> {
    join(values.map_values(|v: String| v@), ","@)
}

/// Pie slices for the labels paired with the values, up to the shorter list.
pub open spec fn label_items(labels: Seq<String>, values: Seq<String>) -> Seq<char> {
    let n = if labels.len() <= values.len() { labels.len() } else { values.len() };
    join(Seq::new(n, |i: int| pie_item(labels[i]@, values[i]@)), ","@)
}

/// The chart document a script asks for: `pie`, `line`, `scatter`, and a bar
/// chart for any other type. Values are written as they are.
pub open spec fn dsl_chart_option(chart_type: Seq<char>, labels: Seq<String>, values: Seq<String>) -> Seq<char> {
    if chart_type == "pie"@ {
        pie_chart(label_items(labels, values))
    } else if chart_type == "line"@ {
        axis_chart("axis"@, label_cats(labels), "line"@, value_list(values), "\"smooth\":true,"@)
    } else if chart_type == "scatter"@ {
        axis_chart("item"@, label_cats(labels), "scatter"@, value_list(values), ""@)
    } else {
        axis_chart("axis"@, label_cats(labels), "bar"@, value_list(values), ""@)
    }
}

/// A chart type other than `pie`, `line` and `scatter` (compared exactly)
/// gives the bar chart, whose series is of type `bar`.
pub proof fn law_other_chart_types_are_bars(chart_type: Seq<char>, labels: Seq<String>, values: Seq<String>)
    requires
        chart_type != "pie"@,
        chart_type != "line"@,
        chart_type != "scatter"@,
    ensures
        dsl_chart_option(chart_type, labels, values) == dsl_chart_option("bar"@, labels, values),
        crate::text::has_sub(dsl_chart_option(chart_type, labels, values), "\"type\":\"bar\""@),
{
    reveal_strlit("bar");
    reveal_strlit("pie");
    reveal_strlit("line");
    reveal_strlit("scatter");
    assert("bar"@ != "pie"@) by {
        assert("bar"@[0] != "pie"@[0]);
    }
    assert("bar"@ != "line"@) by {
        assert("bar"@.len() != "line"@.len());
    }
    assert("bar"@ != "scatter"@) by {
        assert("bar"@.len() != "scatter"@.len());
    }
    let head = "{\"backgroundColor\":\"transparent\",\"grid\":{\"left\":60,\"right\":20,\"top\":20,\"bottom\":60},\"tooltip\":{\"trigger\":\""@
        + "axis"@ + "\"},\"xAxis\":{\"type\":\"category\",\"data\":["@ + label_cats(labels)
        + "],\"axisLabel\":{\"rotate\":30,\"fontSize\":10,\"color\":\"#c9a8ae\"}},\"yAxis\":{\"type\":\"value\",\"axisLabel\":{\"color\":\"#c9a8ae\"}},\"series\":[{\"type\":\""@;
    let tail = "\",\"data\":["@ + value_list(values) + "],"@ + ""@ + "\"itemStyle\":{\"color\":\"#8b1a2a\"}}]}"@;
    let out = dsl_chart_option(chart_type, labels, values);
    assert(out == head + "bar"@ + tail);
    let lit = "],\"axisLabel\":{\"rotate\":30,\"fontSize\":10,\"color\":\"#c9a8ae\"}},\"yAxis\":{\"type\":\"value\",\"axisLabel\":{\"color\":\"#c9a8ae\"}},\"series\":[{\"type\":\""@;
    reveal_strlit("],\"axisLabel\":{\"rotate\":30,\"fontSize\":10,\"color\":\"#c9a8ae\"}},\"yAxis\":{\"type\":\"value\",\"axisLabel\":{\"color\":\"#c9a8ae\"}},\"series\":[{\"type\":\"");
    reveal_strlit("\",\"data\":[");
    reveal_strlit("\"type\":\"bar\"");
    let i = head.len() - 8;
    assert(out.subrange(i, i + 12) =~= "\"type\":\"bar\""@);
    assert(crate::text::matches_at(out, "\"type\":\"bar\""@, i));
}

/// Builds the ECharts option for a chart produced by a DSL script.
pub fn build_dsl_chart_option(chart_type: &str, labels: &[String], values: &[String]) -> (s: String)
    ensures
        s@ == dsl_chart_option(chart_type@, labels@, values@),
{
    if str_eq(chart_type, "pie") {
        let n = if labels.len() <= values.len() { labels.len() } else { values.len() };
        let ghost fi = |i: int| pie_item(labels@[i]@, values@[i]@);
        let mut items: Vec<Vec<char>> = Vec::new();
        let mut i: usize = 0;
        while i < n
            invariant
                i <= n,
                n <= labels.len(),
                n <= values.len(),
                fi == (|i: int| pie_item(labels@[i]@, values@[i]@)),
                seqs_of(items@) == Seq::new(i as nat, fi),
            decreases n - i,
        {
            let ghost p = seqs_of(items@);
            let v = chars_of(values[i].as_str());
            items.push(pie_item_exec(labels[i].as_str(), v.as_slice()));
            assert(seqs_of(items@) =~= p.push(fi(i as int)));
            assert(seqs_of(items@) =~= Seq::new((i + 1) as nat, fi));
            i = i + 1;
        }
        let it = join_str(items.as_slice(), ",");
        assert(seqs_of(items@) =~= Seq::new(n as nat, |i: int| pie_item(labels@[i]@, values@[i]@)));
        let r = pie_chart_exec(it.as_slice());
        return string_of(r.as_slice());
    }
    let ghost fc = |l: String| quoted(l@);
    let mut cats: Vec<Vec<char>> = Vec::new();
    let mut i: usize = 0;
    while i < labels.len()
        invariant
            i <= labels.len(),
            fc == (|l: String| quoted(l@)),
            seqs_of(cats@) == labels@.take(i as int).map_values(fc),
        decreases labels.len() - i,
    {
        let ghost p = seqs_of(cats@);
        cats.push(quoted_exec(labels[i].as_str()));
        assert(seqs_of(cats@) =~= p.push(fc(labels@[i as int])));
        assert(labels@.take(i + 1).map_values(fc) =~= labels@.take(i as int).map_values(fc).push(fc(labels@[i as int])));
        i = i + 1;
    }
    assert(labels@.take(labels.len() as int) =~= labels@);
    let ghost fv = |v: String| v@;
    let mut vals: Vec<Vec<char>> = Vec::new();
    let mut i: usize = 0;
    while i < values.len()
        invariant
            i <= values.len(),
            fv == (|v: String| v@),
            seqs_of(vals@) == values@.take(i as int).map_values(fv),
        decreases values.len() - i,
    {
        let ghost p = seqs_of(vals@);
        vals.push(chars_of(values[i].as_str()));
        assert(seqs_of(vals@) =~= p.push(fv(values@[i as int])));
        assert(values@.take(i + 1).map_values(fv) =~= values@.take(i as int).map_values(fv).push(fv(values@[i as int])));
        i = i + 1;
    }
    assert(values@.take(values.len() as int) =~= values@);
    let c = join_str(cats.as_slice(), ",");
    let v = join_str(vals.as_slice(), ",");
    let r = if str_eq(chart_type, "line") {
        axis_chart_exec("axis", c.as_slice(), "line", v.as_slice(), "\"smooth\":true,")
    } else if str_eq(chart_type, "scatter") {
        axis_chart_exec("item", c.as_slice(), "scatter", v.as_slice(), "")
    } else {
        axis_chart_exec("axis", c.as_slice(), "bar", v.as_slice(), "")
    };
    string_of(r.as_slice())
}

} // verus!
