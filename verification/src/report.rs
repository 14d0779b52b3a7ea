//! Aggregation and rendering: one block of text per successful forecast and
//! one reported line per failure, in request order. No outcome aborts or
//! suppresses another.

use vstd::prelude::*;
use crate::classify::{Classified, ClassifiedView, ForecastSummary, ForecastSummaryView};
use crate::numbers::{i64_to_dec, spec_dec, spec_dec_int, u64_to_dec};

verus! {

/// The rendered block for one successful forecast: city and country, the
/// current temperature, the high/low pair, and the condition with its
/// description.
pub open spec fn spec_render_success(f: ForecastSummaryView) -> Seq<char> {
    f.city_name + ", "@ + f.country + "\nCurrent temp: \t"@ + spec_dec_int(f.temp as int)
        + "\nHigh/Low: \t"@ + spec_dec_int(f.temp_max as int) + "/"@ + spec_dec_int(
        f.temp_min as int,
    ) + "\nLooks like: \t"@ + f.weather.main + " || "@ + f.weather.description
}

/// Renders one successful forecast.
pub fn render_success(f: &ForecastSummary) -> (r: String)
    ensures
        r@ == spec_render_success(f@),
{
    let mut out = String::new();
    out.append(f.city_name.as_str());
    out.append(", ");
    out.append(f.country.as_str());
    out.append("\nCurrent temp: \t");
    let t = i64_to_dec(f.temp);
    out.append(t.as_str());
    out.append("\nHigh/Low: \t");
    let tmax = i64_to_dec(f.temp_max);
    out.append(tmax.as_str());
    out.append("/");
    let tmin = i64_to_dec(f.temp_min);
    out.append(tmin.as_str());
    out.append("\nLooks like: \t");
    out.append(f.weather.main.as_str());
    out.append(" || ");
    out.append(f.weather.description.as_str());
    proof {
        assert(out@ =~= spec_render_success(f@));
    }
    out
}

/// The reported line for a non-success outcome; nothing for a success.
pub open spec fn spec_render_failure(c: ClassifiedView) -> Option<Seq<char>> {
    match c {
        ClassifiedView::Success(_) => None,
        ClassifiedView::ApiError(e) => Some(
            "provider error "@ + spec_dec(e.cod as nat) + ": "@ + e.message,
        ),
        ClassifiedView::TransportFailure(m) => Some("transport failure: "@ + m),
        ClassifiedView::DecodeFailure(m) => Some("malformed response: "@ + m),
    }
}

/// Renders the reported line for a non-success outcome.
pub fn render_failure(c: &Classified) -> (r: Option<String>)
    ensures
        match r {
            Some(s) => spec_render_failure(c@) == Some(s@),
            None => spec_render_failure(c@) is None && c is Success,
        },
{
    match c {
        Classified::Success(_) => None,
        Classified::ApiError(e) => {
            let mut out = String::from_str("provider error ");
            let d = u64_to_dec(e.cod as u64);
            out.append(d.as_str());
            out.append(": ");
            out.append(e.message.as_str());
            proof {
                assert(out@ =~= "provider error "@ + spec_dec(e.cod as nat) + ": "@ + e.message@);
            }
            Some(out)
        },
        Classified::TransportFailure(m) => {
            let mut out = String::from_str("transport failure: ");
            out.append(m.as_str());
            Some(out)
        },
        Classified::DecodeFailure(m) => {
            let mut out = String::from_str("malformed response: ");
            out.append(m.as_str());
            Some(out)
        },
    }
}

/// The summaries a report carries: one per success, in order.
pub open spec fn spec_summaries(l: Seq<ClassifiedView>) -> Seq<Seq<char>>
    decreases l.len(),
{
    if l.len() == 0 {
        Seq::<Seq<char>>::empty()
    } else {
        (match l[0] {
            ClassifiedView::Success(f) => seq![spec_render_success(f)],
            _ => Seq::<Seq<char>>::empty(),
        }) + spec_summaries(l.skip(1))
    }
}

/// The failure lines a report carries: one per non-success, in order.
pub open spec fn spec_failures(l: Seq<ClassifiedView>) -> Seq<Seq<char>>
    decreases l.len(),
{
    if l.len() == 0 {
        Seq::<Seq<char>>::empty()
    } else {
        (match spec_render_failure(l[0]) {
            Some(m) => seq![m],
            None => Seq::<Seq<char>>::empty(),
        }) + spec_failures(l.skip(1))
    }
}

proof fn lemma_report_snoc(l: Seq<ClassifiedView>, c: ClassifiedView)
    ensures
        spec_summaries(l.push(c)) == spec_summaries(l) + (match c {
            ClassifiedView::Success(f) => seq![spec_render_success(f)],
            _ => Seq::<Seq<char>>::empty(),
        }),
        spec_failures(l.push(c)) == spec_failures(l) + (match spec_render_failure(c) {
            Some(m) => seq![m],
            None => Seq::<Seq<char>>::empty(),
        }),
    decreases l.len(),
{
    if l.len() == 0 {
        assert(l.push(c)[0] == c);
        assert(l.push(c).skip(1) =~= Seq::<ClassifiedView>::empty());
        assert(spec_summaries(Seq::<ClassifiedView>::empty()) == Seq::<Seq<char>>::empty());
        assert(spec_failures(Seq::<ClassifiedView>::empty()) == Seq::<Seq<char>>::empty());
        assert(spec_summaries(l) == Seq::<Seq<char>>::empty());
        assert(spec_failures(l) == Seq::<Seq<char>>::empty());
        assert(spec_summaries(l.push(c)) =~= spec_summaries(l) + (match c {
            ClassifiedView::Success(f) => seq![spec_render_success(f)],
            _ => Seq::<Seq<char>>::empty(),
        }));
        assert(spec_failures(l.push(c)) =~= spec_failures(l) + (match spec_render_failure(c) {
            Some(m) => seq![m],
            None => Seq::<Seq<char>>::empty(),
        }));
    } else {
        assert(l.push(c)[0] == l[0]);
        assert(l.push(c).skip(1) =~= l.skip(1).push(c));
        lemma_report_snoc(l.skip(1), c);
        assert(spec_summaries(l.push(c)) =~= spec_summaries(l) + (match c {
            ClassifiedView::Success(f) => seq![spec_render_success(f)],
            _ => Seq::<Seq<char>>::empty(),
        }));
        assert(spec_failures(l.push(c)) =~= spec_failures(l) + (match spec_render_failure(c) {
            Some(m) => seq![m],
            None => Seq::<Seq<char>>::empty(),
        }));
    }
}

/// The assembled report: the rendered summary per success and the reported
/// line per failure, each in request order.
#[derive(Debug)]
pub struct Report {
    pub summaries: Vec<String>,
    pub failures: Vec<String>,
}

/// Collects all outcomes into a report, in request order: exactly the
/// successes are rendered, exactly the others are reported.
pub fn aggregate(outcomes: &Vec<Classified>) -> (r: Report)
    ensures
        r.summaries.deep_view() == spec_summaries(outcomes.deep_view()),
        r.failures.deep_view() == spec_failures(outcomes.deep_view()),
{
    let mut summaries: Vec<String> = Vec::new();
    let mut failures: Vec<String> = Vec::new();
    let n = outcomes.len();
    let mut i: usize = 0;
    proof {
        assert(outcomes.deep_view().subrange(0, 0) =~= Seq::<ClassifiedView>::empty());
        assert(summaries.deep_view() =~= spec_summaries(outcomes.deep_view().subrange(0, 0)));
        assert(failures.deep_view() =~= spec_failures(outcomes.deep_view().subrange(0, 0)));
    }
    while i < n
        invariant
            0 <= i <= n,
            n == outcomes.len(),
            summaries.deep_view() == spec_summaries(outcomes.deep_view().subrange(0, i as int)),
            failures.deep_view() == spec_failures(outcomes.deep_view().subrange(0, i as int)),
        decreases n - i,
    {
        let c = &outcomes[i];
        let ghost pre = outcomes.deep_view().subrange(0, i as int);
        let ghost cur = outcomes.deep_view()[i as int];
        proof {
            assert(cur == outcomes@[i as int]@);
            assert(outcomes.deep_view().subrange(0, i + 1 as int) =~= pre.push(cur));
            lemma_report_snoc(pre, cur);
        }
        let ghost summaries0 = summaries.deep_view();
        let ghost failures0 = failures.deep_view();
        match c {
            Classified::Success(f) => {
                let s = render_success(f);
                summaries.push(s);
                proof {
                    assert(summaries.deep_view() =~= summaries0.push(spec_render_success(f@)));
                    assert(summaries.deep_view() =~= spec_summaries(
                        outcomes.deep_view().subrange(0, i + 1 as int),
                    ));
                    assert(failures.deep_view() =~= spec_failures(
                        outcomes.deep_view().subrange(0, i + 1 as int),
                    ));
                }
            },
            _ => {
                match render_failure(c) {
                    Some(line) => {
                        let ghost linev = line@;
                        failures.push(line);
                        proof {
                            assert(failures.deep_view() =~= failures0.push(linev));
                            assert(failures.deep_view() =~= spec_failures(
                                outcomes.deep_view().subrange(0, i + 1 as int),
                            ));
                            assert(summaries.deep_view() =~= spec_summaries(
                                outcomes.deep_view().subrange(0, i + 1 as int),
                            ));
                        }
                    },
                    None => {
                        proof {
                            assert(false);
                        }
                    },
                }
            },
        }
        i = i + 1;
    }
    proof {
        assert(outcomes.deep_view().subrange(0, n as int) =~= outcomes.deep_view());
    }
    Report { summaries, failures }
}

/// How many outcomes in a list are successes.
pub open spec fn count_successes(l: Seq<ClassifiedView>) -> nat
    decreases l.len(),
{
    if l.len() == 0 {
        0
    } else {
        (if l[0] is Success {
            1nat
        } else {
            0nat
        }) + count_successes(l.skip(1))
    }
}

/// Law (isolation): over any outcome list, the report carries exactly one
/// summary per success and exactly one reported line per other outcome —
/// a failing location never suppresses a sibling's summary, and a batch of
/// failures still yields every success.
pub proof fn lemma_isolation(l: Seq<ClassifiedView>)
    ensures
        count_successes(l) <= l.len(),
        spec_summaries(l).len() == count_successes(l),
        spec_failures(l).len() == l.len() - count_successes(l),
    decreases l.len(),
{
    if l.len() > 0 {
        lemma_isolation(l.skip(1));
    }
}

} // verus!
