//! The metrics recorder: one outcome counter and one last-latency gauge per
//! (file path, success) label pair, recorded after each document's apply
//! attempt. An explicitly constructed registry, handed by reference into
//! every run — never ambient state.

use crate::text::str_eq;
use vstd::prelude::*;

verus! {

/// One labelled series: how many apply attempts on this path ended with this
/// outcome, and the latency of the last one, in milliseconds.
pub struct MetricSample {
    pub path: String,
    pub success: bool,
    pub count: u64,
    pub last_latency_ms: u64,
}

/// Ghost image of one labelled series.
pub struct SampleView {
    pub path: Seq<char>,
    pub success: bool,
    pub count: u64,
    pub last_latency_ms: u64,
}

impl View for MetricSample {
    type V = SampleView;

    open spec fn view(&self) -> SampleView {
        SampleView {
            path: self.path@,
            success: self.success,
            count: self.count,
            last_latency_ms: self.last_latency_ms,
        }
    }
}

impl DeepView for MetricSample {
    type V = SampleView;

    open spec fn deep_view(&self) -> SampleView {
        self.view()
    }
}

/// The sample carries the given labels.
pub open spec fn sample_labelled(s: SampleView, path: Seq<char>, success: bool) -> bool {
    s.path == path && s.success == success
}

/// What recording one outcome does: the first series with these labels has
/// its count raised by one (saturating) and its gauge set to the new latency;
/// with no such series, a fresh one is appended with count one.
pub open spec fn record_spec(
    samples: Seq<SampleView>,
    path: Seq<char>,
    success: bool,
    latency_ms: u64,
) -> Seq<SampleView>
    decreases samples.len(),
{
    if samples.len() == 0 {
        seq![SampleView { path, success, count: 1, last_latency_ms: latency_ms }]
    } else if sample_labelled(samples[0], path, success) {
        seq![
            SampleView {
                path,
                success,
                count: if samples[0].count == u64::MAX {
                    u64::MAX
                } else {
                    (samples[0].count + 1) as u64
                },
                last_latency_ms: latency_ms,
            },
        ] + samples.drop_first()
    } else {
        seq![samples[0]] + record_spec(samples.drop_first(), path, success, latency_ms)
    }
}

/// The recorder: all series recorded so far.
pub struct MetricsRecorder {
    pub samples: Vec<MetricSample>,
}

impl View for MetricsRecorder {
    type V = Seq<SampleView>;

    open spec fn view(&self) -> Seq<SampleView> {
        self.samples.deep_view()
    }
}

impl MetricsRecorder {
    /// A fresh registry with no series.
    pub fn new() -> (r: MetricsRecorder)
        ensures
            r@ == Seq::<SampleView>::empty(),
    {
        let r = MetricsRecorder { samples: Vec::new() };
        proof {
            assert(r@ =~= Seq::<SampleView>::empty());
        }
        r
    }

    /// Records one apply attempt's outcome and latency under its labels.
    pub fn record(&mut self, path: &str, success: bool, latency_ms: u64)
        ensures
            final(self)@ == record_spec(old(self)@, path@, success, latency_ms),
    {
        let ghost sv = self@;
        let n = self.samples.len();
        let mut i: usize = 0;
        proof {
            assert(sv.skip(0) =~= sv);
        }
        while i < n
            invariant
                i <= n,
                n == self.samples.len(),
                self@ == sv,
                sv == old(self)@,
                sv.len() == n,
                forall|j: int| 0 <= j < i ==> !sample_labelled(#[trigger] sv[j], path@, success),
                record_spec(sv, path@, success, latency_ms) == sv.take(i as int) + record_spec(
                    sv.skip(i as int),
                    path@,
                    success,
                    latency_ms,
                ),
            decreases n - i,
        {
            proof {
                assert(sv.skip(i as int)[0] == sv[i as int]);
            }
            let hit = str_eq(self.samples[i].path.as_str(), path) && self.samples[i].success
                == success;
            if hit {
                assert(sample_labelled(sv[i as int], path@, success));
                let s = &mut self.samples[i];
                s.count = s.count.saturating_add(1);
                s.last_latency_ms = latency_ms;
                proof {
                    let updated = SampleView {
                        path: path@,
                        success,
                        count: if sv[i as int].count == u64::MAX {
                            u64::MAX
                        } else {
                            (sv[i as int].count + 1) as u64
                        },
                        last_latency_ms: latency_ms,
                    };
                    assert(self@ =~= sv.update(i as int, updated));
                    assert(record_spec(sv.skip(i as int), path@, success, latency_ms)
                        =~= seq![updated] + sv.skip(i + 1));
                    assert(sv.update(i as int, updated) =~= sv.take(i as int) + (seq![updated]
                        + sv.skip(i + 1)));
                }
                return ;
            }
            proof {
                assert(!sample_labelled(sv[i as int], path@, success));
                assert(sv.skip(i as int).drop_first() =~= sv.skip(i + 1));
                assert(record_spec(sv.skip(i as int), path@, success, latency_ms)
                    =~= seq![sv[i as int]] + record_spec(
                    sv.skip(i + 1),
                    path@,
                    success,
                    latency_ms,
                ));
                assert(sv.take(i as int) + (seq![sv[i as int]] + record_spec(
                    sv.skip(i + 1),
                    path@,
                    success,
                    latency_ms,
                )) =~= sv.take(i + 1) + record_spec(sv.skip(i + 1), path@, success, latency_ms));
            }
            i = i + 1;
        }
        let fresh = MetricSample {
            path: String::from_str(path),
            success,
            count: 1,
            last_latency_ms: latency_ms,
        };
        self.samples.push(fresh);
        proof {
            assert(sv.skip(i as int).len() == 0);
            assert(record_spec(sv.skip(i as int), path@, success, latency_ms) =~= seq![
                SampleView { path: path@, success, count: 1, last_latency_ms: latency_ms },
            ]);
            assert(self@ =~= sv.take(i as int) + record_spec(
                sv.skip(i as int),
                path@,
                success,
                latency_ms,
            ));
        }
    }

    /// Hands the recorded series out for exposition.
    pub fn samples(&self) -> (r: &Vec<MetricSample>)
        ensures
            r.deep_view() == self@,
    {
        &self.samples
    }
}

} // verus!
