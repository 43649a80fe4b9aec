//! What holds of every rebuild, told by what came of its actions.

use vstd::prelude::*;

use crate::rebuild::{Action, Context, Event};
use crate::report::ArtifactStatus;

verus! {

/// How often an output artifact was looked for.
pub open spec fn lookups(log: Seq<crate::rebuild::EventView>) -> nat
    decreases log.len(),
{
    if log.len() == 0 {
        0
    } else if log.last() is Found {
        lookups(log.drop_last()) + 1
    } else {
        lookups(log.drop_last())
    }
}

/// Looking on finds no fewer lookups, and one more behind every one.
proof fn lemma_lookups(log: Seq<crate::rebuild::EventView>, a: int, b: int)
    requires
        0 <= a <= b <= log.len(),
    ensures
        lookups(log.take(a)) <= lookups(log.take(b)),
        a < b && log[a] is Found ==> lookups(log.take(a)) + 1 <= lookups(log.take(b)),
    decreases b,
{
    if a < b {
        assert(log.take(b).drop_last() =~= log.take(b - 1));
        lemma_lookups(log, a, b - 1);
    }
}

/// What a rebuild keeps in mind of what came of its actions.
spec fn remembers(ctx: Context, log: Seq<crate::rebuild::EventView>) -> bool {
    let start = crate::rebuild::RebuildView::start(ctx);
    let r = crate::rebuild::after_run(start, log);
    let n = ctx.artifacts@.len() as int;
    let own_input = ctx.input_url is Some;
    let preparations = n + if own_input {
        2
    } else {
        1int
    };
    let len = log.len() as int;
    let done = r.reports.len();
    &&& r.wf()
    &&& r.artifacts == start.artifacts
    &&& r.input_url == start.input_url
    &&& r.diffoscope == start.diffoscope
    &&& r.filenames.len() == if len < n {
        len
    } else {
        n
    }
    &&& forall|j: int|
        0 <= j < r.filenames.len() ==> #[trigger] r.filenames[j] == log[j]->Downloaded_0
    &&& r.input is Some <==> len >= preparations - 1
    &&& r.input is Some ==> r.input == Some(
        if own_input {
            log[n]->Downloaded_0
        } else {
            log[0]->Downloaded_0
        },
    )
    &&& match r.phase {
        crate::rebuild::PhaseView::Artifacts => len < n && lookups(log) == 0,
        crate::rebuild::PhaseView::Input => len == n && own_input && lookups(log) == 0,
        crate::rebuild::PhaseView::Build => len == preparations - 1 && lookups(log) == 0,
        crate::rebuild::PhaseView::Find | crate::rebuild::PhaseView::Done => {
            &&& len >= preparations
            &&& lookups(log) == done
            &&& match log.last() {
                crate::rebuild::EventView::Built => true,
                crate::rebuild::EventView::Found(found) => !found,
                crate::rebuild::EventView::Compared(identical) => !identical
                    && !ctx.diffoscope.enabled,
                crate::rebuild::EventView::Attested(link) => link is None,
                crate::rebuild::EventView::Compressed(_) => true,
                _ => false,
            }
        },
        crate::rebuild::PhaseView::Compare => {
            &&& len > preparations
            &&& lookups(log) == done + 1
            &&& log[len - 1] == crate::rebuild::EventView::Found(true)
        },
        crate::rebuild::PhaseView::Attest => {
            &&& len > preparations + 1
            &&& lookups(log) == done + 1
            &&& log[len - 2] == crate::rebuild::EventView::Found(true)
            &&& log[len - 1] == crate::rebuild::EventView::Compared(true)
        },
        crate::rebuild::PhaseView::CompressAttestation(bytes) => {
            &&& len > preparations + 2
            &&& lookups(log) == done + 1
            &&& log[len - 3] == crate::rebuild::EventView::Found(true)
            &&& log[len - 2] == crate::rebuild::EventView::Compared(true)
            &&& log[len - 1] matches crate::rebuild::EventView::Attested(Some(json)) && bytes
                == vstd::utf8::encode_utf8(json)
        },
        crate::rebuild::PhaseView::Diff => {
            &&& len > preparations + 1
            &&& lookups(log) == done + 1
            &&& log[len - 2] == crate::rebuild::EventView::Found(true)
            &&& log[len - 1] == crate::rebuild::EventView::Compared(false)
        },
        crate::rebuild::PhaseView::CompressDiff(bytes) => {
            &&& len > preparations + 2
            &&& lookups(log) == done + 1
            &&& log[len - 3] == crate::rebuild::EventView::Found(true)
            &&& log[len - 2] == crate::rebuild::EventView::Compared(false)
            &&& log[len - 1] matches crate::rebuild::EventView::Diffed(text) && bytes
                == vstd::utf8::encode_utf8(text)
        },
    }
}

proof fn lemma_remembers(ctx: Context, log: Seq<crate::rebuild::EventView>)
    requires
        ctx.artifacts@.len() > 0 || ctx.input_url is Some,
        crate::rebuild::is_run(crate::rebuild::RebuildView::start(ctx), log),
    ensures
        remembers(ctx, log),
    decreases log.len(),
{
    let start = crate::rebuild::RebuildView::start(ctx);
    assert(start.artifacts.len() == ctx.artifacts@.len());
    if log.len() > 0 {
        let before = log.drop_last();
        crate::rebuild::lemma_last(start, log);
        lemma_remembers(ctx, before);
        let r = crate::rebuild::after_run(start, before);
        crate::rebuild::lemma_step_keeps_wf(r, log.last());
        let next = r.step(log.last());
        assert(forall|j: int| 0 <= j < before.len() ==> #[trigger] before[j] == log[j]);
        assert(next == crate::rebuild::after_run(start, log));
    }
}

/// What came of the actions so far decides what a rebuild needs next.
///
/// First all artifacts are downloaded, in their order, then the build input if it
/// has a url of its own, and then the backend is run on that input or else on the
/// first artifact. After that one artifact after the other is looked for under the
/// name it was downloaded to. If it is found, it is compared; if it is identical,
/// a link is signed for it; if it is not and that is asked for, it is explained
/// how it differs. The texts of links and explanations are compressed.
pub proof fn law_log_decides_the_action(ctx: Context, log: Seq<crate::rebuild::EventView>)
    requires
        ctx.artifacts@.len() > 0 || ctx.input_url is Some,
        crate::rebuild::is_run(crate::rebuild::RebuildView::start(ctx), log),
    ensures
        ({
            let action = crate::rebuild::after_run(
                crate::rebuild::RebuildView::start(ctx),
                log,
            ).action();
            let n = ctx.artifacts@.len();
            let input = match ctx.input_url {
                Some(_) => log[n as int]->Downloaded_0,
                None => log[0]->Downloaded_0,
            };
            let looked_at = log[lookups(log) - 1]->Downloaded_0;
            let next = if lookups(log) < n {
                crate::rebuild::ActionView::FindOutput(log[lookups(log) as int]->Downloaded_0)
            } else {
                crate::rebuild::ActionView::Done
            };
            if log.len() < n {
                action == crate::rebuild::ActionView::DownloadArtifact(
                    ctx.artifacts@[log.len() as int].url@,
                )
            } else if log.len() == n && ctx.input_url is Some {
                action == crate::rebuild::ActionView::DownloadInput(ctx.input_url->0@)
            } else if log.len() == n + (if ctx.input_url is Some {
                1int
            } else {
                0int
            }) {
                action == crate::rebuild::ActionView::Build(input)
            } else {
                match log.last() {
                    crate::rebuild::EventView::Downloaded(_) => false,
                    crate::rebuild::EventView::Built => action == next,
                    crate::rebuild::EventView::Found(found) => action == if found {
                        crate::rebuild::ActionView::Compare(looked_at)
                    } else {
                        next
                    },
                    crate::rebuild::EventView::Compared(identical) => action == if identical {
                        crate::rebuild::ActionView::Attest(looked_at, input)
                    } else if ctx.diffoscope.enabled {
                        crate::rebuild::ActionView::Diff(looked_at)
                    } else {
                        next
                    },
                    crate::rebuild::EventView::Attested(link) => action == match link {
                        Some(json) => crate::rebuild::ActionView::Compress(
                            vstd::utf8::encode_utf8(json),
                        ),
                        None => next,
                    },
                    crate::rebuild::EventView::Diffed(text) => action
                        == crate::rebuild::ActionView::Compress(vstd::utf8::encode_utf8(text)),
                    crate::rebuild::EventView::Compressed(_) => action == next,
                }
            }
        }),
{
    lemma_remembers(ctx, log);
    let start = crate::rebuild::RebuildView::start(ctx);
    let r = crate::rebuild::after_run(start, log);
    assert(start.artifacts.len() == ctx.artifacts@.len());
    assert(forall|i: int|
        0 <= i < start.artifacts.len() ==> (#[trigger] start.artifacts[i]).url
            == ctx.artifacts@[i].url@);
}

/// Everything that an action can come to is taken, and nothing else.
pub proof fn law_events_answer_the_action(
    r: crate::rebuild::RebuildView,
    event: crate::rebuild::EventView,
)
    requires
        r.wf(),
    ensures
        r.accepts(event) <==> match r.action() {
            crate::rebuild::ActionView::DownloadArtifact(_) => event is Downloaded,
            crate::rebuild::ActionView::DownloadInput(_) => event is Downloaded,
            crate::rebuild::ActionView::Build(_) => event is Built,
            crate::rebuild::ActionView::FindOutput(_) => event is Found,
            crate::rebuild::ActionView::Compare(_) => event is Compared,
            crate::rebuild::ActionView::Attest(_, _) => event is Attested,
            crate::rebuild::ActionView::Diff(_) => event is Diffed,
            crate::rebuild::ActionView::Compress(_) => event is Compressed,
            crate::rebuild::ActionView::Done => false,
        },
        r.action() is Done <==> r.phase is Done,
{
}

/// Whether `report` is what the log says from the place `k` on, where the artifact
/// `i` is looked for.
spec fn tells(
    ctx: Context,
    log: Seq<crate::rebuild::EventView>,
    k: int,
    i: int,
    report: crate::report::RebuildArtifactView,
) -> bool {
    &&& report.name == ctx.artifacts@[i].name@
    &&& report.status == ArtifactStatus::Good <==> log[k]
        == crate::rebuild::EventView::Found(true) && log[k + 1]
        == crate::rebuild::EventView::Compared(true)
    &&& log[k] == crate::rebuild::EventView::Found(false) ==> {
        &&& report.attestation is None
        &&& report.diffoscope is None
    }
    &&& log[k] == crate::rebuild::EventView::Found(true) ==> {
        &&& k + 1 < log.len()
        &&& log[k + 1] is Compared
    }
    &&& log[k] == crate::rebuild::EventView::Found(true) && log[k + 1]
        == crate::rebuild::EventView::Compared(true) ==> {
        &&& k + 2 < log.len()
        &&& log[k + 2] is Attested
        &&& report.diffoscope is None
        &&& log[k + 2]->Attested_0 is None ==> report.attestation is None
        &&& log[k + 2]->Attested_0 is Some ==> {
            &&& k + 3 < log.len()
            &&& log[k + 3] is Compressed
            &&& report.attestation == Some(log[k + 3]->Compressed_0)
        }
    }
    &&& log[k] == crate::rebuild::EventView::Found(true) && log[k + 1]
        == crate::rebuild::EventView::Compared(false) ==> {
        &&& report.attestation is None
        &&& !ctx.diffoscope.enabled ==> report.diffoscope is None
        &&& ctx.diffoscope.enabled ==> {
            &&& k + 3 < log.len()
            &&& log[k + 2] is Diffed
            &&& log[k + 3] is Compressed
            &&& report.diffoscope == Some(log[k + 3]->Compressed_0)
        }
    }
}

/// What a log says, every longer one says too.
proof fn lemma_tells_on(
    ctx: Context,
    log: Seq<crate::rebuild::EventView>,
    k: int,
    i: int,
    report: crate::report::RebuildArtifactView,
)
    requires
        log.len() > 0,
        0 <= k < log.len() - 1,
        tells(ctx, log.drop_last(), k, i, report),
        log[k] is Found,
    ensures
        tells(ctx, log, k, i, report),
{
    let before = log.drop_last();
    assert(forall|j: int| 0 <= j < before.len() ==> #[trigger] before[j] == log[j]);
    assert(before[k] == log[k]);
    if log[k] == crate::rebuild::EventView::Found(true) {
        assert(before[k + 1] == log[k + 1]);
    }
}

/// The report that `event` leads to is what the log says.
proof fn lemma_new_report(ctx: Context, log: Seq<crate::rebuild::EventView>, k: int)
    requires
        log.len() > 0,
        0 <= k < log.len(),
        remembers(ctx, log.drop_last()),
        log[k] is Found,
        ({
            let start = crate::rebuild::RebuildView::start(ctx);
            let r = crate::rebuild::after_run(start, log.drop_last());
            &&& r.accepts(log.last())
            &&& r.step(log.last()).reports.len() > r.reports.len()
            &&& k == log.len() - (match r.phase {
                crate::rebuild::PhaseView::Find => 1int,
                crate::rebuild::PhaseView::Compare => 2,
                crate::rebuild::PhaseView::Attest | crate::rebuild::PhaseView::Diff => 3,
                _ => 4,
            })
        }),
    ensures
        ({
            let start = crate::rebuild::RebuildView::start(ctx);
            let r = crate::rebuild::after_run(start, log.drop_last());
            let i = r.reports.len() as int;
            &&& i < ctx.artifacts@.len()
            &&& tells(ctx, log, k, i, r.step(log.last()).reports[i])
        }),
{
    let start = crate::rebuild::RebuildView::start(ctx);
    let before = log.drop_last();
    let r = crate::rebuild::after_run(start, before);
    let i = r.reports.len() as int;
    assert(start.artifacts.len() == ctx.artifacts@.len());
    assert(start.artifacts[i].name == ctx.artifacts@[i].name@);
    assert(forall|j: int| 0 <= j < before.len() ==> #[trigger] before[j] == log[j]);
    assert(log[log.len() - 1] == log.last());
}

proof fn lemma_reports(ctx: Context, log: Seq<crate::rebuild::EventView>, k: int)
    requires
        ctx.artifacts@.len() > 0 || ctx.input_url is Some,
        crate::rebuild::is_run(crate::rebuild::RebuildView::start(ctx), log),
        0 <= k < log.len(),
        log[k] is Found,
    ensures
        ({
            let reports = crate::rebuild::after_run(
                crate::rebuild::RebuildView::start(ctx),
                log,
            ).reports;
            let i = lookups(log.take(k)) as int;
            &&& i < ctx.artifacts@.len()
            &&& i < reports.len() ==> tells(ctx, log, k, i, reports[i])
        }),
    decreases log.len(),
{
    let start = crate::rebuild::RebuildView::start(ctx);
    let before = log.drop_last();
    let last = log.len() - 1;
    crate::rebuild::lemma_last(start, log);
    lemma_remembers(ctx, before);
    let r = crate::rebuild::after_run(start, before);
    let next = r.step(log.last());
    assert(next == crate::rebuild::after_run(start, log));
    assert(start.artifacts.len() == ctx.artifacts@.len());
    assert(forall|j: int| 0 <= j < before.len() ==> #[trigger] before[j] == log[j]);
    assert(next.reports.len() <= r.reports.len() + 1);
    assert(forall|j: int|
        0 <= j < r.reports.len() ==> #[trigger] next.reports[j] == r.reports[j]);
    let i = lookups(log.take(k)) as int;
    if k < last {
        assert(before.take(k) =~= log.take(k));
        lemma_reports(ctx, before, k);
        if i < r.reports.len() {
            lemma_tells_on(ctx, log, k, i, r.reports[i]);
        } else if i < next.reports.len() {
            assert(before.take(last) =~= before);
            lemma_lookups(before, k, last);
            // the artifact whose report was made is the last one that was looked for
            let at = match r.phase {
                crate::rebuild::PhaseView::Compare => last - 1,
                crate::rebuild::PhaseView::Attest | crate::rebuild::PhaseView::Diff => last - 2,
                _ => last - 3,
            };
            if k < at {
                lemma_lookups(before, k, at);
                lemma_lookups(before, at, last);
            }
            lemma_new_report(ctx, log, k);
        }
    } else {
        assert(log.take(k) =~= before);
        if i < next.reports.len() {
            lemma_new_report(ctx, log, k);
        }
    }
}

/// What came of the actions decides what is reported.
///
/// Take the place `k` in the log where an output artifact is looked for. If `i` were
/// looked for before, it is about the artifact `i`, and so is the report `i` once it
/// is made: it is good if and only if the output artifact was found and identical,
/// it has the compressed link if one could be signed, and it has the compressed
/// explanation if there was one.
pub proof fn law_log_decides_the_reports(
    ctx: Context,
    log: Seq<crate::rebuild::EventView>,
    k: int,
)
    requires
        ctx.artifacts@.len() > 0 || ctx.input_url is Some,
        crate::rebuild::is_run(crate::rebuild::RebuildView::start(ctx), log),
        0 <= k < log.len(),
        log[k] is Found,
    ensures
        ({
            let reports = crate::rebuild::after_run(
                crate::rebuild::RebuildView::start(ctx),
                log,
            ).reports;
            let i = lookups(log.take(k)) as int;
            let report = reports[i];
            &&& i < ctx.artifacts@.len()
            &&& i < reports.len() ==> {
                &&& report.name == ctx.artifacts@[i].name@
                &&& report.status == ArtifactStatus::Good <==> log[k]
                    == crate::rebuild::EventView::Found(true) && log[k + 1]
                    == crate::rebuild::EventView::Compared(true)
                &&& log[k] == crate::rebuild::EventView::Found(false) ==> {
                    &&& report.attestation is None
                    &&& report.diffoscope is None
                }
                &&& log[k] == crate::rebuild::EventView::Found(true) ==> {
                    &&& k + 1 < log.len()
                    &&& log[k + 1] is Compared
                }
                &&& log[k] == crate::rebuild::EventView::Found(true) && log[k + 1]
                    == crate::rebuild::EventView::Compared(true) ==> {
                    &&& k + 2 < log.len()
                    &&& log[k + 2] is Attested
                    &&& report.diffoscope is None
                    &&& log[k + 2]->Attested_0 is None ==> report.attestation is None
                    &&& log[k + 2]->Attested_0 is Some ==> {
                        &&& k + 3 < log.len()
                        &&& log[k + 3] is Compressed
                        &&& report.attestation == Some(log[k + 3]->Compressed_0)
                    }
                }
                &&& log[k] == crate::rebuild::EventView::Found(true) && log[k + 1]
                    == crate::rebuild::EventView::Compared(false) ==> {
                    &&& report.attestation is None
                    &&& !ctx.diffoscope.enabled ==> report.diffoscope is None
                    &&& ctx.diffoscope.enabled ==> {
                        &&& k + 3 < log.len()
                        &&& log[k + 2] is Diffed
                        &&& log[k + 3] is Compressed
                        &&& report.diffoscope == Some(log[k + 3]->Compressed_0)
                    }
                }
            }
        }),
{
    lemma_reports(ctx, log, k);
}

/// In a complete rebuild every artifact was looked for and has its report.
pub proof fn law_every_artifact_is_reported(
    ctx: Context,
    log: Seq<crate::rebuild::EventView>,
    i: int,
)
    requires
        ctx.artifacts@.len() > 0 || ctx.input_url is Some,
        crate::rebuild::is_run(crate::rebuild::RebuildView::start(ctx), log),
        crate::rebuild::after_run(crate::rebuild::RebuildView::start(ctx), log).action()
            == crate::rebuild::ActionView::Done,
        0 <= i < ctx.artifacts@.len(),
    ensures
        crate::rebuild::after_run(crate::rebuild::RebuildView::start(ctx), log).reports.len()
            == ctx.artifacts@.len(),
        exists|k: int|
            0 <= k < log.len() && (#[trigger] log[k]) is Found && lookups(log.take(k)) == i,
{
    lemma_remembers(ctx, log);
    assert(crate::rebuild::RebuildView::start(ctx).artifacts.len() == ctx.artifacts@.len());
    lemma_lookup(log, i);
}

/// Where something was looked for after `i` other lookups.
proof fn lemma_lookup(log: Seq<crate::rebuild::EventView>, i: int)
    requires
        0 <= i < lookups(log),
    ensures
        exists|k: int|
            0 <= k < log.len() && (#[trigger] log[k]) is Found && lookups(log.take(k)) == i,
    decreases log.len(),
{
    let before = log.drop_last();
    let last = log.len() - 1;
    if i < lookups(before) {
        lemma_lookup(before, i);
        let k = choose|k: int|
            0 <= k < before.len() && (#[trigger] before[k]) is Found && lookups(before.take(k))
                == i;
        assert(before.take(k) =~= log.take(k));
        assert(log[k] is Found);
    } else {
        assert(log.take(last) =~= before);
        assert(log[last] is Found);
    }
}

/// An action is seen as it is.
pub proof fn law_action_is_seen_as_it_is(action: Action)
    ensures
        match action {
            Action::DownloadArtifact(url) => action.deep_view()
                == crate::rebuild::ActionView::DownloadArtifact(url@),
            Action::DownloadInput(url) => action.deep_view()
                == crate::rebuild::ActionView::DownloadInput(url@),
            Action::Build(input) => action.deep_view() == crate::rebuild::ActionView::Build(input@),
            Action::FindOutput(name) => action.deep_view()
                == crate::rebuild::ActionView::FindOutput(name@),
            Action::Compare(name) => action.deep_view() == crate::rebuild::ActionView::Compare(
                name@,
            ),
            Action::Attest(name, input) => action.deep_view()
                == crate::rebuild::ActionView::Attest(name@, input@),
            Action::Diff(name) => action.deep_view() == crate::rebuild::ActionView::Diff(name@),
            Action::Compress(bytes) => action.deep_view() == crate::rebuild::ActionView::Compress(
                bytes@,
            ),
            Action::Done => action.deep_view() == crate::rebuild::ActionView::Done,
        },
{
}

/// An event is seen as it is.
pub proof fn law_event_is_seen_as_it_is(event: Event)
    ensures
        match event {
            Event::Downloaded(name) => event.deep_view() == crate::rebuild::EventView::Downloaded(
                name@,
            ),
            Event::Built => event.deep_view() == crate::rebuild::EventView::Built,
            Event::Found(found) => event.deep_view() == crate::rebuild::EventView::Found(found),
            Event::Compared(identical) => event.deep_view()
                == crate::rebuild::EventView::Compared(identical),
            Event::Attested(Some(json)) => event.deep_view()
                == crate::rebuild::EventView::Attested(Some(json@)),
            Event::Attested(None) => event.deep_view()
                == crate::rebuild::EventView::Attested(None),
            Event::Diffed(text) => event.deep_view() == crate::rebuild::EventView::Diffed(text@),
            Event::Compressed(bytes) => event.deep_view()
                == crate::rebuild::EventView::Compressed(bytes@),
        },
{
}

} // verus!
