//! The read executor: resolve unknown outputs by running read commands.
//!
//! Only outputs currently unknown are scheduled; each must have a known
//! read rule or a hard error is raised.  The scheduled commands are handed
//! to the transport as one batch, bounded by the declared concurrency, and
//! the results are re-associated to their output keys by position.  On
//! every failure path the output becomes null, never unknown: an unknown
//! value must not survive the executor, whatever the transport did.

use vstd::prelude::*;
use vstd::string::StrSliceExecFns;

use crate::blocks::{faillible_of, ReadSpec};
use crate::connection::{CommandTask, Connection, ExecutionResult, TransportError};
use crate::diag::{path_root, pushed_diag, AttrPath, Diagnostic, Diagnostics, PathStepV};
use crate::dict::{dict_contains, dict_value, dict_wf, Dict};
use crate::envs::with_env;
use crate::state::{effective_concurrency, ds_wf, rs_wf, DataSourceState, ReadDictV, ResourceState, StrDictV};
use crate::value::Value;

verus! {

/// The command output with one trailing newline removed when asked for.
pub open spec fn stripped(stdout: Seq<char>, strip: bool) -> Seq<char> {
    if strip && stdout.len() > 0 && stdout.last() == '\n' {
        stdout.drop_last()
    } else {
        stdout
    }
}

/// The value an output resolves to for a given command outcome: the
/// (possibly stripped) standard output on success, null on any failure.
pub open spec fn outcome_value(
    result: &Result<ExecutionResult, TransportError>,
    strip: bool,
) -> Value<Seq<char>> {
    match result {
        Ok(res) => if res.status == 0 {
            Value::Known(stripped(res.stdout@, strip))
        } else {
            Value::Null
        },
        Err(_) => Value::Null,
    }
}

/// Remove one trailing newline when asked for.
fn strip_newline(s: String, strip: bool) -> (r: String)
    ensures
        r@ == stripped(s@, strip),
{
    if strip {
        let n = s.as_str().unicode_len();
        if n > 0 && s.as_str().get_char(n - 1) == '\n' {
            let t = s.as_str().substring_char(0, n - 1);
            proof {
                assert(t@ =~= s@.drop_last());
            }
            t.to_owned()
        } else {
            s
        }
    } else {
        s
    }
}

/// Turn one command outcome into the output's value and its diagnostics:
/// a warning for a noisy success, an error (or a warning, when the read is
/// faillible) for a failure, and null for every failure path.
pub fn apply_read_outcome(
    diags: &mut Diagnostics,
    path: AttrPath,
    result: &Result<ExecutionResult, TransportError>,
    faillible: bool,
    strip: bool,
) -> (v: Value<String>)
    ensures
        v@ == outcome_value(result, strip),
        match result {
            Ok(res) => if res.status == 0 {
                &&& final(diags).errors@ == old(diags).errors@
                &&& (res.stderr@.len() == 0 ==> final(diags).warnings@ == old(diags).warnings@)
                &&& (res.stderr@.len() > 0 ==> pushed_diag(
                    old(diags).warnings@,
                    final(diags).warnings@,
                    "`read` succeeded but stderr was not empty"@,
                    res.stderr@,
                    path@,
                ))
            } else {
                report_spec(
                    *old(diags),
                    *final(diags),
                    faillible,
                    "`read` failed with status code: "@ + crate::text::status_chars(
                        res.status as int,
                    ),
                    res.stderr@,
                    path@,
                )
            },
            Err(err) => report_spec(
                *old(diags),
                *final(diags),
                faillible,
                "Failed to read resource state"@,
                err.message@,
                path@,
            ),
        },
{
    match result {
        Ok(res) => {
            if res.status == 0 {
                if res.stderr.as_str().unicode_len() > 0 {
                    let ghost pre_w = diags.warnings@;
                    diags.warning(
                        "`read` succeeded but stderr was not empty".to_owned(),
                        res.stderr.clone(),
                        path,
                    );
                    proof {
                        assert(diags.warnings@.subrange(0, pre_w.len() as int) =~= pre_w);
                    }
                }
                let out = strip_newline(res.stdout.clone(), strip);
                Value::Known(out)
            } else {
                let mut summary = "`read` failed with status code: ".to_owned();
                summary.append(crate::text::i32_to_string(res.status).as_str());
                report(diags, faillible, summary, res.stderr.clone(), path);
                Value::Null
            }
        },
        Err(err) => {
            report(
                diags,
                faillible,
                "Failed to read resource state".to_owned(),
                err.message.clone(),
                path,
            );
            Value::Null
        },
    }
}

/// Whether a failure was recorded: as a warning when downgraded, as an
/// error otherwise, leaving the other list untouched.
pub open spec fn report_spec(
    pre: Diagnostics,
    post: Diagnostics,
    faillible: bool,
    summary: Seq<char>,
    detail: Seq<char>,
    path: Seq<PathStepV>,
) -> bool {
    if faillible {
        post.errors@ == pre.errors@ && pushed_diag(
            pre.warnings@,
            post.warnings@,
            summary,
            detail,
            path,
        )
    } else {
        post.warnings@ == pre.warnings@ && pushed_diag(
            pre.errors@,
            post.errors@,
            summary,
            detail,
            path,
        )
    }
}

/// Record a failure: a warning when downgraded, an error otherwise.
pub fn report(
    diags: &mut Diagnostics,
    faillible: bool,
    summary: String,
    detail: String,
    path: AttrPath,
)
    ensures
        report_spec(*old(diags), *final(diags), faillible, summary@, detail@, path@),
{
    let ghost sv = summary@;
    let ghost dv = detail@;
    let ghost pv = path@;
    let ghost pre_e = diags.errors@;
    let ghost pre_w = diags.warnings@;
    if faillible {
        diags.warning(summary, detail, path);
        proof {
            assert(diags.warnings@.subrange(0, pre_w.len() as int) =~= pre_w);
            assert(diags.warnings@.last()@.summary == sv);
        }
    } else {
        diags.error(summary, detail, path);
        proof {
            assert(diags.errors@.subrange(0, pre_e.len() as int) =~= pre_e);
            assert(diags.errors@.last()@.summary == sv);
        }
    }
}

/// Whether the outputs mapping has a known read rule for key `k`.
pub open spec fn has_rule(reads: Value<ReadDictV>, k: Seq<char>) -> bool {
    reads matches Value::Known(rd) && dict_contains(rd, k) && dict_value(rd, k) is Known
}

/// The structured path `state.<key>` of a missing-rule error.
pub open spec fn missing_rule_path(k: Seq<char>) -> Seq<PathStepV> {
    path_root("state"@).push(PathStepV::Key(k))
}

/// The structured path `read["<key>"].cmd` of a read outcome diagnostic.
pub open spec fn read_cmd_path(k: Seq<char>) -> Seq<PathStepV> {
    path_root("read"@).push(PathStepV::Key(k)).push(PathStepV::Attribute("cmd"@))
}

/// Whether `d` is the hard error raised for an unknown output without a
/// known read rule for key `k`.
pub open spec fn missing_rule_error(k: Seq<char>, d: Diagnostic) -> bool {
    &&& d@.summary == "Unknown output has no `read` block associated"@
    &&& d@.detail =~= Seq::<char>::empty()
    &&& d@.path == missing_rule_path(k)
}

/// The keys of the first `upto` outputs that are unknown and have no
/// known read rule, in declaration order.
pub open spec fn missing_keys(od: StrDictV, reads: Value<ReadDictV>, upto: int) -> Seq<Seq<char>>
    decreases upto,
{
    if upto <= 0 {
        Seq::empty()
    } else {
        missing_keys(od, reads, upto - 1) + (if od[upto - 1].1 is Unknown && !has_rule(
            reads,
            od[upto - 1].0,
        ) {
            seq![od[upto - 1].0]
        } else {
            Seq::empty()
        })
    }
}

/// Whether failures of the read for key `k` are downgraded to warnings:
/// by the caller's override, or by the rule's own flag.
pub open spec fn eff_faillible(reads: Value<ReadDictV>, k: Seq<char>, fo: bool) -> bool {
    fo || (reads matches Value::Known(rd) && dict_value(rd, k) matches Value::Known(rs)
        && faillible_of(rs))
}

/// How many of the first `upto` outputs are scheduled: unknown with a
/// known read rule.
pub open spec fn scheduled_count(od: StrDictV, reads: Value<ReadDictV>, upto: int) -> nat
    decreases upto,
{
    if upto <= 0 {
        0
    } else {
        scheduled_count(od, reads, upto - 1) + (if od[upto - 1].1 is Unknown && has_rule(
            reads,
            od[upto - 1].0,
        ) {
            1nat
        } else {
            0nat
        })
    }
}

/// Whether the scheduled output at index `j` of `nd` failed with its
/// failure counted as an error (not downgraded).
pub open spec fn error_at(
    od: StrDictV,
    reads: Value<ReadDictV>,
    nd: StrDictV,
    fo: bool,
    j: int,
) -> bool {
    &&& od[j].1 is Unknown
    &&& has_rule(reads, od[j].0)
    &&& !eff_faillible(reads, od[j].0, fo)
    &&& nd[j].1 is Null
}

/// Whether the scheduled output at index `j` of `nd` failed with its
/// failure downgraded to a warning.
pub open spec fn warning_at(
    od: StrDictV,
    reads: Value<ReadDictV>,
    nd: StrDictV,
    fo: bool,
    j: int,
) -> bool {
    &&& od[j].1 is Unknown
    &&& has_rule(reads, od[j].0)
    &&& eff_faillible(reads, od[j].0, fo)
    &&& nd[j].1 is Null
}

/// How many of the first `upto` outputs failed as errors.
pub open spec fn failure_error_count(
    od: StrDictV,
    reads: Value<ReadDictV>,
    nd: StrDictV,
    fo: bool,
    upto: int,
) -> nat
    decreases upto,
{
    if upto <= 0 {
        0
    } else {
        failure_error_count(od, reads, nd, fo, upto - 1) + (if error_at(
            od,
            reads,
            nd,
            fo,
            upto - 1,
        ) {
            1nat
        } else {
            0nat
        })
    }
}

/// How many of the first `upto` outputs failed as warnings.
pub open spec fn failure_warning_count(
    od: StrDictV,
    reads: Value<ReadDictV>,
    nd: StrDictV,
    fo: bool,
    upto: int,
) -> nat
    decreases upto,
{
    if upto <= 0 {
        0
    } else {
        failure_warning_count(od, reads, nd, fo, upto - 1) + (if warning_at(
            od,
            reads,
            nd,
            fo,
            upto - 1,
        ) {
            1nat
        } else {
            0nat
        })
    }
}

/// No failures yet: while every scheduled output is still unresolved,
/// both failure counts are zero.
proof fn lemma_failure_counts_zero(
    od: StrDictV,
    reads: Value<ReadDictV>,
    nd: StrDictV,
    fo: bool,
    upto: int,
)
    requires
        forall|j: int|
            0 <= j < upto ==> !(od[j].1 is Unknown && has_rule(reads, od[j].0)
                && (#[trigger] nd[j]).1 is Null),
    ensures
        failure_error_count(od, reads, nd, fo, upto) == 0,
        failure_warning_count(od, reads, nd, fo, upto) == 0,
    decreases upto,
{
    if upto > 0 {
        lemma_failure_counts_zero(od, reads, nd, fo, upto - 1);
    }
}

/// Resolving one unresolved output changes the failure counts exactly by
/// whether it failed, and on which side of the downgrade.
proof fn lemma_failure_counts_update(
    od: StrDictV,
    reads: Value<ReadDictV>,
    nd: StrDictV,
    fo: bool,
    idx: int,
    v: Value<Seq<char>>,
    upto: int,
)
    requires
        0 <= idx < nd.len(),
        nd.len() == od.len(),
        !(nd[idx].1 is Null),
        upto <= nd.len(),
    ensures
        failure_error_count(od, reads, nd.update(idx, (nd[idx].0, v)), fo, upto)
            == failure_error_count(od, reads, nd, fo, upto) + (if idx < upto && od[idx].1
            is Unknown && has_rule(reads, od[idx].0) && !eff_faillible(reads, od[idx].0, fo) && v
            is Null {
            1int
        } else {
            0int
        }),
        failure_warning_count(od, reads, nd.update(idx, (nd[idx].0, v)), fo, upto)
            == failure_warning_count(od, reads, nd, fo, upto) + (if idx < upto && od[idx].1
            is Unknown && has_rule(reads, od[idx].0) && eff_faillible(reads, od[idx].0, fo) && v
            is Null {
            1int
        } else {
            0int
        }),
    decreases upto,
{
    if upto > 0 {
        lemma_failure_counts_update(od, reads, nd, fo, idx, v, upto - 1);
        let nd2 = nd.update(idx, (nd[idx].0, v));
        if upto - 1 == idx {
            assert(nd2[idx].1 == v);
        } else {
            assert(nd2[upto - 1] == nd[upto - 1]);
        }
    }
}

/// Whether diagnostic `d` is attributed to the `read["<key>"].cmd` path
/// of some scheduled output key.
pub open spec fn at_scheduled_path(od: StrDictV, reads: Value<ReadDictV>, d: Diagnostic) -> bool {
    exists|j: int|
        0 <= j < od.len() && od[j].1 is Unknown && has_rule(reads, od[j].0) && d@.path
            == read_cmd_path(od[j].0)
}

/// What the executor owes the diagnostics collector: one hard error per
/// unknown output without a rule (summary, empty detail and `state.<key>`
/// path fixed, in declaration order, right after the pre-existing
/// entries), one further error per output whose read failed without
/// downgrade (each at some scheduled key's `read["<key>"].cmd` path), at
/// least one warning per downgraded failure, and at most one warning per
/// scheduled read.
pub open spec fn read_diag_spec(
    pre: Diagnostics,
    post: Diagnostics,
    od: StrDictV,
    reads: Value<ReadDictV>,
    nd: StrDictV,
    fo: bool,
) -> bool {
    let mc = missing_keys(od, reads, od.len() as int);
    &&& post.errors@.len() == pre.errors@.len() + mc.len() + failure_error_count(
        od,
        reads,
        nd,
        fo,
        od.len() as int,
    )
    &&& (forall|t: int|
        0 <= t < mc.len() ==> missing_rule_error(
            mc[t],
            #[trigger] post.errors@[pre.errors@.len() + t],
        ))
    &&& (forall|idx: int|
        pre.errors@.len() + mc.len() <= idx < post.errors@.len() ==> at_scheduled_path(
            od,
            reads,
            #[trigger] post.errors@[idx],
        ))
    &&& post.warnings@.len() >= pre.warnings@.len() + failure_warning_count(
        od,
        reads,
        nd,
        fo,
        od.len() as int,
    )
    &&& post.warnings@.len() <= pre.warnings@.len() + scheduled_count(od, reads, od.len() as int)
}

/// Resolve every unknown output of `outputs` by running its read rule
/// through the transport, at most `concurrency` commands at a time.
///
/// Unknown outputs without a known read rule resolve to null with a hard
/// error.  Every other output keeps its value.  No output is left unknown,
/// whatever the transport returned.  Returns `None` (leaving everything
/// unchanged) when the outputs mapping itself is not known.
pub fn read_all<C: Connection>(
    diags: &mut Diagnostics,
    connect: &C,
    connect_config: &Value<Dict<Value<String>>>,
    reads: &Value<Dict<Value<ReadSpec>>>,
    outputs: &mut Value<Dict<Value<String>>>,
    env: &Vec<(String, String)>,
    faillible: bool,
    concurrency: &Value<u64>,
) -> (r: Option<()>)
    requires
        old(outputs)@ matches Value::Known(d) ==> dict_wf(d),
        reads@ matches Value::Known(d) ==> dict_wf(d),
    ensures
        r is Some <==> old(outputs)@ is Known,
        !(old(outputs)@ is Known) ==> final(outputs)@ == old(outputs)@ && final(diags).errors@
            == old(diags).errors@ && final(diags).warnings@ == old(diags).warnings@,
        old(diags).errors@.is_prefix_of(final(diags).errors@),
        old(diags).warnings@.is_prefix_of(final(diags).warnings@),
        old(outputs)@ matches Value::Known(od) ==> (final(outputs)@ matches Value::Known(nd)
            && nd.len() == od.len() && dict_wf(nd) && (forall|j: int|
            0 <= j < nd.len() ==> (#[trigger] nd[j]).0 == od[j].0) && (forall|j: int|
            0 <= j < nd.len() && !(od[j].1 is Unknown) ==> (#[trigger] nd[j]).1 == od[j].1) && (
        forall|j: int|
            0 <= j < nd.len() && od[j].1 is Unknown && !has_rule(reads@, od[j].0)
                ==> (#[trigger] nd[j]).1 is Null) && (forall|j: int|
            0 <= j < nd.len() ==> !((#[trigger] nd[j]).1 is Unknown)) && read_diag_spec(
            *old(diags),
            *final(diags),
            od,
            reads@,
            nd,
            faillible,
        )),
{
    let taken = outputs.take();
    let mut d = match taken {
        Value::Known(d) => d,
        Value::Null => {
            *outputs = Value::Null;
            return None;
        },
        Value::Unknown => {
            *outputs = Value::Unknown;
            return None;
        },
    };
    let ghost od = d@;
    let ghost pre_e = diags.errors@;
    let ghost pre_w = diags.warnings@;
    let mut tasks: Vec<CommandTask> = Vec::new();
    let mut meta: Vec<(usize, bool, bool)> = Vec::new();
    let n = d.entries.len();
    let mut i: usize = 0;
    while i < n
        invariant
            dict_wf(od),
            reads@ matches Value::Known(rdv) ==> dict_wf(rdv),
            n == od.len(),
            i <= n,
            d@.len() == od.len(),
            forall|j: int| 0 <= j < od.len() ==> (#[trigger] d@[j]).0 == od[j].0,
            forall|j: int| i <= j < od.len() ==> (#[trigger] d@[j]).1 == od[j].1,
            forall|j: int|
                0 <= j < i && !(od[j].1 is Unknown) ==> (#[trigger] d@[j]).1 == od[j].1,
            forall|j: int|
                0 <= j < i && od[j].1 is Unknown && has_rule(reads@, od[j].0)
                    ==> (#[trigger] d@[j]).1 == od[j].1,
            forall|j: int|
                0 <= j < i && od[j].1 is Unknown && !has_rule(reads@, od[j].0)
                    ==> (#[trigger] d@[j]).1 is Null,
            tasks@.len() == meta@.len(),
            forall|t: int|
                0 <= t < meta@.len() ==> (#[trigger] meta@[t]).0 < i && od[meta@[t].0 as int].1
                    is Unknown && has_rule(reads@, od[meta@[t].0 as int].0),
            forall|t1: int, t2: int|
                0 <= t1 < t2 < meta@.len() ==> (#[trigger] meta@[t1]).0 < (#[trigger] meta@[t2]).0,
            forall|j: int|
                0 <= j < i && od[j].1 is Unknown && has_rule(reads@, od[j].0) ==> (exists|t: int|
                    0 <= t < meta@.len() && (#[trigger] meta@[t]).0 == j),
            meta@.len() == scheduled_count(od, reads@, i as int),
            forall|tq: int|
                0 <= tq < meta@.len() ==> (#[trigger] meta@[tq]).1 == eff_faillible(
                    reads@,
                    od[meta@[tq].0 as int].0,
                    faillible,
                ),
            diags.warnings@ == pre_w,
            diags.errors@.len() == pre_e.len() + missing_keys(od, reads@, i as int).len(),
            forall|tq: int|
                0 <= tq < missing_keys(od, reads@, i as int).len() ==> missing_rule_error(
                    missing_keys(od, reads@, i as int)[tq],
                    #[trigger] diags.errors@[pre_e.len() + tq],
                ),
            pre_e.is_prefix_of(diags.errors@),
        decreases n - i,
    {
        proof {
            assert(d@[i as int] == (d.entries@[i as int].0@, d.entries@[i as int].1@));
        }
        if d.entries[i].1.unknown() {
            let key = d.entries[i].0.clone();
            proof {
                assert(od[i as int].1 == d@[i as int].1);
                assert(od[i as int].1 is Unknown);
                assert(key@ == od[i as int].0);
            }
            let mut scheduled = false;
            match reads {
                Value::Known(rd) => {
                    proof {
                        assert(reads@ == Value::<ReadDictV>::Known(rd@));
                    }
                    match rd.get(&key) {
                        Some(rv) => {
                            match rv {
                                Value::Known(rs) => {
                                    proof {
                                        assert(dict_value(rd@, key@) is Known);
                                        assert(has_rule(reads@, od[i as int].0));
                                    }
                                    let cmd = rs.cmd().to_owned();
                                    let dir = rs.dir().to_owned();
                                    let task_env = with_env(env, &rs.env);
                                    let ghost old_meta = meta@;
                                    tasks.push(CommandTask { cmd, dir, env: task_env });
                                    meta.push(
                                        (i, faillible || rs.faillible(), rs.strip_trailing_newline()),
                                    );
                                    scheduled = true;
                                    proof {
                                        assert(has_rule(reads@, od[i as int].0));
                                        assert(dict_value(rd@, key@)
                                            == Value::<crate::blocks::ReadSpecV>::Known(rs@));
                                        assert(meta@.last().1 == eff_faillible(
                                            reads@,
                                            od[i as int].0,
                                            faillible,
                                        ));
                                        assert forall|j: int|
                                            0 <= j < i + 1 && od[j].1 is Unknown && has_rule(
                                                reads@,
                                                od[j].0,
                                            ) implies (exists|t: int|
                                            0 <= t < meta@.len() && (#[trigger] meta@[t]).0
                                                == j) by {
                                            if j < i {
                                                let t = choose|t: int|
                                                    0 <= t < old_meta.len() && (#[trigger] old_meta[t]).0
                                                        == j;
                                                assert(meta@[t].0 == j);
                                            } else {
                                                assert(meta@[meta@.len() - 1].0 == j);
                                            }
                                        }
                                    }
                                },
                                _ => {
                                    proof {
                                        assert(!(dict_value(rd@, key@) is Known));
                                        assert(!has_rule(reads@, od[i as int].0));
                                    }
                                },
                            }
                        },
                        None => {
                            proof {
                                assert(!dict_contains(rd@, key@));
                                assert(!has_rule(reads@, od[i as int].0));
                            }
                        },
                    }
                },
                _ => {
                    proof {
                        assert(!(reads@ is Known));
                        assert(!has_rule(reads@, od[i as int].0));
                    }
                },
            }
            if !scheduled {
                proof {
                    assert(!has_rule(reads@, od[i as int].0));
                }
                d.set_value_at(i, Value::Null);
                let path = AttrPath::new("state").key(key);
                let ghost pv = path@;
                let ghost mid_e = diags.errors@;
                diags.error(
                    "Unknown output has no `read` block associated".to_owned(),
                    String::new(),
                    path,
                );
                proof {
                    assert(pre_e.is_prefix_of(diags.errors@));
                    assert(pv == missing_rule_path(od[i as int].0));
                    assert(diags.errors@.last()@.path == pv);
                    assert(missing_rule_error(od[i as int].0, diags.errors@.last()));
                }
            }
        }
        proof {
            let mi = missing_keys(od, reads@, i as int);
            let mi1 = missing_keys(od, reads@, i as int + 1);
            if od[i as int].1 is Unknown && !has_rule(reads@, od[i as int].0) {
                assert(mi1 =~= mi.push(od[i as int].0));
                assert(diags.errors@[pre_e.len() + mi.len() as int] == diags.errors@.last());
            } else {
                assert(mi1 =~= mi);
            }
        }
        i = i + 1;
    }
    proof {
        assert forall|j: int|
            0 <= j < od.len() implies !(od[j].1 is Unknown && has_rule(reads@, od[j].0)
            && (#[trigger] d@[j]).1 is Null) by {
            if od[j].1 is Unknown && has_rule(reads@, od[j].0) {
                assert(d@[j].1 == od[j].1);
            }
        }
        lemma_failure_counts_zero(od, reads@, d@, faillible, od.len() as int);
    }
    let conc = effective_concurrency(concurrency);
    let results = connect.execute_all(connect_config, &tasks, conc);
    let m = tasks.len();
    let mut t: usize = 0;
    while t < m
        invariant
            dict_wf(od),
            m == tasks@.len(),
            results@.len() == tasks@.len(),
            meta@.len() == tasks@.len(),
            t <= m,
            d@.len() == od.len(),
            forall|j: int| 0 <= j < od.len() ==> (#[trigger] d@[j]).0 == od[j].0,
            forall|tt: int|
                0 <= tt < meta@.len() ==> (#[trigger] meta@[tt]).0 < od.len() && od[meta@[tt].0 as int].1
                    is Unknown && has_rule(reads@, od[meta@[tt].0 as int].0),
            forall|tq: int|
                0 <= tq < meta@.len() ==> (#[trigger] meta@[tq]).1 == eff_faillible(
                    reads@,
                    od[meta@[tq].0 as int].0,
                    faillible,
                ),
            meta@.len() == scheduled_count(od, reads@, od.len() as int),
            forall|t1: int, t2: int|
                0 <= t1 < t2 < meta@.len() ==> (#[trigger] meta@[t1]).0 < (#[trigger] meta@[t2]).0,
            forall|j: int|
                0 <= j < od.len() && od[j].1 is Unknown && has_rule(reads@, od[j].0) ==> (exists|
                    tt: int,
                |
                    0 <= tt < meta@.len() && (#[trigger] meta@[tt]).0 == j),
            forall|j: int|
                0 <= j < od.len() && !(od[j].1 is Unknown) ==> (#[trigger] d@[j]).1 == od[j].1,
            forall|j: int|
                0 <= j < od.len() && od[j].1 is Unknown && !has_rule(reads@, od[j].0)
                    ==> (#[trigger] d@[j]).1 is Null,
            forall|tt: int|
                0 <= tt < t ==> !((#[trigger] d@[meta@[tt].0 as int]).1 is Unknown),
            forall|tt: int|
                t <= tt < meta@.len() ==> (#[trigger] d@[meta@[tt].0 as int]).1 == od[meta@[tt].0 as int].1,
            diags.errors@.len() == pre_e.len() + missing_keys(od, reads@, od.len() as int).len()
                + failure_error_count(od, reads@, d@, faillible, od.len() as int),
            forall|tq: int|
                0 <= tq < missing_keys(od, reads@, od.len() as int).len() ==> missing_rule_error(
                    missing_keys(od, reads@, od.len() as int)[tq],
                    #[trigger] diags.errors@[pre_e.len() + tq],
                ),
            forall|idx: int|
                pre_e.len() + missing_keys(od, reads@, od.len() as int).len() <= idx
                    < diags.errors@.len() ==> at_scheduled_path(
                    od,
                    reads@,
                    #[trigger] diags.errors@[idx],
                ),
            diags.warnings@.len() >= pre_w.len() + failure_warning_count(
                od,
                reads@,
                d@,
                faillible,
                od.len() as int,
            ),
            diags.warnings@.len() <= pre_w.len() + t,
            pre_e.is_prefix_of(diags.errors@),
            pre_w.is_prefix_of(diags.warnings@),
        decreases m - t,
    {
        let trip = meta[t];
        let idx = trip.0;
        proof {
            assert(meta@[t as int].0 == idx);
            assert(d@[idx as int] == (d.entries@[idx as int].0@, d.entries@[idx as int].1@));
        }
        let key = d.entries[idx].0.clone();
        let path = AttrPath::new("read").key(key).attribute("cmd");
        let ghost pv = path@;
        proof {
            assert(pv == read_cmd_path(od[idx as int].0));
        }
        let ghost mid_e = diags.errors@;
        let ghost mid_w = diags.warnings@;
        let v = apply_read_outcome(diags, path, &results[t], trip.1, trip.2);
        proof {
            assert(!(v@ is Unknown));
            assert(!(v is Unknown));
            assert(pre_e.is_prefix_of(mid_e) && mid_e.is_prefix_of(diags.errors@));
            assert(pre_e.is_prefix_of(diags.errors@));
            assert(pre_w.is_prefix_of(diags.warnings@));
        }
        let ghost old_d = d@;
        d.set_value_at(idx, v);
        proof {
            assert forall|tt: int|
                0 <= tt < t + 1 implies !((#[trigger] d@[meta@[tt].0 as int]).1 is Unknown) by {
                if meta@[tt].0 == idx {
                } else {
                    assert(d@[meta@[tt].0 as int] == old_d[meta@[tt].0 as int]);
                }
            }
            assert forall|tt: int|
                t + 1 <= tt < meta@.len() implies (#[trigger] d@[meta@[tt].0 as int]).1
                    == od[meta@[tt].0 as int].1 by {
                assert(meta@[t as int].0 < meta@[tt].0);
            }
            let mcl = missing_keys(od, reads@, od.len() as int).len() as int;
            let fl = trip.1;
            assert(fl == eff_faillible(reads@, od[idx as int].0, faillible));
            assert(old_d[idx as int].1 == od[idx as int].1);
            assert(!(old_d[idx as int].1 is Null));
            lemma_failure_counts_update(
                od,
                reads@,
                old_d,
                faillible,
                idx as int,
                v@,
                od.len() as int,
            );
            assert(d@ == old_d.update(idx as int, (old_d[idx as int].0, v@)));
            if v@ is Null {
                if fl {
                    assert(diags.errors@ == mid_e);
                    assert(diags.warnings@.len() == mid_w.len() + 1);
                    assert(failure_error_count(od, reads@, d@, faillible, od.len() as int)
                        == failure_error_count(od, reads@, old_d, faillible, od.len() as int));
                    assert(failure_warning_count(od, reads@, d@, faillible, od.len() as int)
                        == failure_warning_count(od, reads@, old_d, faillible, od.len() as int)
                        + 1);
                } else {
                    assert(diags.warnings@ == mid_w);
                    assert(diags.errors@.len() == mid_e.len() + 1);
                    assert(diags.errors@.last()@.path == pv);
                    assert(failure_error_count(od, reads@, d@, faillible, od.len() as int)
                        == failure_error_count(od, reads@, old_d, faillible, od.len() as int)
                        + 1);
                    assert(failure_warning_count(od, reads@, d@, faillible, od.len() as int)
                        == failure_warning_count(od, reads@, old_d, faillible, od.len() as int));
                    assert(diags.errors@.subrange(0, mid_e.len() as int) == mid_e);
                    assert forall|tq: int|
                        0 <= tq < mcl implies missing_rule_error(
                        missing_keys(od, reads@, od.len() as int)[tq],
                        #[trigger] diags.errors@[pre_e.len() + tq],
                    ) by {
                        assert(diags.errors@[pre_e.len() + tq] == diags.errors@.subrange(
                            0,
                            mid_e.len() as int,
                        )[pre_e.len() + tq]);
                        assert(diags.errors@[pre_e.len() + tq] == mid_e[pre_e.len() + tq]);
                    }
                    assert forall|idx2: int|
                        pre_e.len() + mcl <= idx2 < diags.errors@.len() implies at_scheduled_path(
                        od,
                        reads@,
                        #[trigger] diags.errors@[idx2],
                    ) by {
                        if idx2 < mid_e.len() {
                            assert(diags.errors@[idx2] == diags.errors@.subrange(
                                0,
                                mid_e.len() as int,
                            )[idx2]);
                            assert(diags.errors@[idx2] == mid_e[idx2]);
                        } else {
                            assert(diags.errors@[idx2] == diags.errors@.last());
                            assert(diags.errors@[idx2]@.path == read_cmd_path(od[idx as int].0));
                            assert(at_scheduled_path(od, reads@, diags.errors@[idx2]));
                        }
                    }
                }
            } else {
                assert(diags.errors@ == mid_e);
                assert(diags.warnings@.len() <= mid_w.len() + 1);
                assert(failure_error_count(od, reads@, d@, faillible, od.len() as int)
                    == failure_error_count(od, reads@, old_d, faillible, od.len() as int));
                assert(failure_warning_count(od, reads@, d@, faillible, od.len() as int)
                    == failure_warning_count(od, reads@, old_d, faillible, od.len() as int));
            }
        }
        t = t + 1;
    }
    proof {
        assert forall|j: int| 0 <= j < d@.len() implies !((#[trigger] d@[j]).1 is Unknown) by {
            if od[j].1 is Unknown {
                if has_rule(reads@, od[j].0) {
                    let tt = choose|tt: int|
                        0 <= tt < meta@.len() && (#[trigger] meta@[tt]).0 == j;
                    assert(!(d@[meta@[tt].0 as int].1 is Unknown));
                }
            }
        }
        assert forall|a: int, b: int| 0 <= a < b < d@.len() implies d@[a].0 != d@[b].0 by {
            assert(od[a].0 != od[b].0);
        }
        assert(diags.warnings@.len() <= pre_w.len() + scheduled_count(
            od,
            reads@,
            od.len() as int,
        ));
        assert(read_diag_spec(*old(diags), *diags, od, reads@, d@, faillible)) by {
            assert(old(diags).errors@ == pre_e);
            assert(old(diags).warnings@ == pre_w);
            let mc = missing_keys(od, reads@, od.len() as int);
            assert(diags.errors@.len() == pre_e.len() + mc.len() + failure_error_count(
                od,
                reads@,
                d@,
                faillible,
                od.len() as int,
            ));
            assert(forall|tq: int|
                0 <= tq < mc.len() ==> missing_rule_error(
                    mc[tq],
                    #[trigger] diags.errors@[pre_e.len() + tq],
                ));
            assert(forall|idx: int|
                pre_e.len() + mc.len() <= idx < diags.errors@.len() ==> at_scheduled_path(
                    od,
                    reads@,
                    #[trigger] diags.errors@[idx],
                ));
        }
    }
    *outputs = Value::Known(d);
    Some(())
}

impl ResourceState {
    /// Resolve this declaration's unknown outputs through the transport.
    /// Only the outputs change; they come back with the same keys and no
    /// unknown value.
    pub fn read<C: Connection>(
        &mut self,
        diags: &mut Diagnostics,
        connect: &C,
        env: &Vec<(String, String)>,
        faillible: bool,
    ) -> (r: Option<()>)
        requires
            rs_wf(old(self)@),
        ensures
            rs_wf(final(self)@),
            final(self)@.id == old(self)@.id,
            final(self)@.inputs == old(self)@.inputs,
            final(self)@.read == old(self)@.read,
            final(self)@.create == old(self)@.create,
            final(self)@.destroy == old(self)@.destroy,
            final(self)@.update == old(self)@.update,
            final(self)@.connect == old(self)@.connect,
            final(self)@.command_concurrency == old(self)@.command_concurrency,
            r is Some <==> old(self)@.state is Known,
            !(old(self)@.state is Known) ==> final(self)@.state == old(self)@.state
                && final(diags).errors@ == old(diags).errors@ && final(diags).warnings@ == old(
                diags,
            ).warnings@,
            old(diags).errors@.is_prefix_of(final(diags).errors@),
            old(diags).warnings@.is_prefix_of(final(diags).warnings@),
            old(self)@.state matches Value::Known(od) ==> (final(self)@.state matches Value::Known(
                nd,
            ) && nd.len() == od.len() && dict_wf(nd) && (forall|j: int|
                0 <= j < nd.len() ==> (#[trigger] nd[j]).0 == od[j].0) && (forall|j: int|
                0 <= j < nd.len() && !(od[j].1 is Unknown) ==> (#[trigger] nd[j]).1 == od[j].1) && (
            forall|j: int|
                0 <= j < nd.len() && od[j].1 is Unknown && !has_rule(old(self)@.read, od[j].0)
                    ==> (#[trigger] nd[j]).1 is Null) && (forall|j: int|
                0 <= j < nd.len() ==> !((#[trigger] nd[j]).1 is Unknown)) && read_diag_spec(
                *old(diags),
                *final(diags),
                od,
                old(self)@.read,
                nd,
                faillible,
            )),
    {
        read_all(
            diags,
            connect,
            &self.connect,
            &self.read,
            &mut self.state,
            env,
            faillible,
            &self.command_concurrency,
        )
    }
}

impl DataSourceState {
    /// Resolve this data source's unknown outputs through the transport.
    pub fn read<C: Connection>(
        &mut self,
        diags: &mut Diagnostics,
        connect: &C,
        env: &Vec<(String, String)>,
    ) -> (r: Option<()>)
        requires
            ds_wf(old(self)@),
        ensures
            ds_wf(final(self)@),
            final(self)@.inputs == old(self)@.inputs,
            final(self)@.read == old(self)@.read,
            final(self)@.connect == old(self)@.connect,
            final(self)@.command_concurrency == old(self)@.command_concurrency,
            r is Some <==> old(self)@.outputs is Known,
            old(diags).errors@.is_prefix_of(final(diags).errors@),
            old(diags).warnings@.is_prefix_of(final(diags).warnings@),
            old(self)@.outputs matches Value::Known(od) ==> (final(self)@.outputs
                matches Value::Known(nd) && nd.len() == od.len() && dict_wf(nd) && (forall|j: int|
                0 <= j < nd.len() ==> (#[trigger] nd[j]).0 == od[j].0) && (forall|j: int|
                0 <= j < nd.len() && !(od[j].1 is Unknown) ==> (#[trigger] nd[j]).1 == od[j].1) && (
            forall|j: int|
                0 <= j < nd.len() ==> !((#[trigger] nd[j]).1 is Unknown)) && read_diag_spec(
                *old(diags),
                *final(diags),
                od,
                old(self)@.read,
                nd,
                false,
            )),
    {
        read_all(
            diags,
            connect,
            &self.connect,
            &self.read,
            &mut self.outputs,
            env,
            false,
            &self.command_concurrency,
        )
    }
}

} // verus!
