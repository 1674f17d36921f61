//! The reference runtime for the machine description.
//!
//! The runtime drives a compiled machine over input that arrives as
//! chunks, the last one flagged as final.  Dispatch offers each state's
//! checks, in source order, either the next buffered byte or the
//! exhaustion of the buffer; the first check that passes fires its
//! arm's effects, which are recorded in a trace.  A sequence check may
//! suspend at the end of the buffer and resume when more input arrives,
//! remembering how many bytes it has confirmed so that nothing is lost
//! or compared twice.

use vstd::prelude::*;
use crate::compile::{
    in_ranges, Check, CompiledArm, CompiledDirectives, CompiledRhs, CompiledTransition, Machine,
};
use crate::model::{bytes_agree, ActionCall, TransitionMode};
use crate::text::string_eq_str;

verus! {

/// What dispatch offers to a check: the next buffered byte, or the fact
/// that the buffer is exhausted.
#[derive(Debug, Clone, Copy, PartialEq, Eq)]
pub enum InputEvent {
    Byte(u8),
    End,
}

/// One external predicate, given as data: the bytes it accepts.  The
/// first definition under a name decides.
#[derive(Debug, Clone, PartialEq, Eq)]
pub struct PredDef {
    pub name: String,
    pub truth: Vec<u8>,
}

/// Whether the predicate table, searched from entry `i` on, accepts the
/// byte under the given name; an undefined predicate accepts nothing.
pub open spec fn spec_pred_holds_from(preds: Seq<PredDef>, i: int, name: Seq<char>, b: u8) -> bool
    decreases preds.len() - i,
{
    if i < 0 || i >= preds.len() {
        false
    } else if preds[i].name@ == name {
        preds[i].truth@.contains(b)
    } else {
        spec_pred_holds_from(preds, i + 1, name, b)
    }
}

/// Whether the predicate table accepts the byte under the given name.
pub open spec fn spec_pred_holds(preds: Seq<PredDef>, name: Seq<char>, b: u8) -> bool {
    spec_pred_holds_from(preds, 0, name, b)
}

/// Whether a byte vector holds the given byte.
fn bytes_contain(v: &Vec<u8>, b: u8) -> (r: bool)
    ensures
        r == v@.contains(b),
{
    let mut i: usize = 0;
    while i < v.len()
        invariant
            i <= v@.len(),
            forall|k: int| 0 <= k < i ==> v@[k] != b,
        decreases v@.len() - i,
    {
        if v[i] == b {
            proof {
                assert(v@[i as int] == b);
            }
            return true;
        }
        i = i + 1;
    }
    false
}

/// Evaluates a predicate against the table; decides `spec_pred_holds`.
pub fn eval_pred(preds: &Vec<PredDef>, name: &String, b: u8) -> (r: bool)
    ensures
        r == spec_pred_holds(preds@, name@, b),
{
    let mut i: usize = 0;
    while i < preds.len()
        invariant
            i <= preds@.len(),
            spec_pred_holds(preds@, name@, b) == spec_pred_holds_from(preds@, i as int, name@, b),
        decreases preds@.len() - i,
    {
        if string_eq_str(&preds[i].name, name.as_str()) {
            return bytes_contain(&preds[i].truth, b);
        }
        i = i + 1;
    }
    false
}

/// Whether a non-sequence check passes on an input event.  An
/// end-of-chunk check passes only on exhaustion before the final chunk,
/// an end-of-file check only on exhaustion of the final chunk; the
/// wildcard passes on everything.  Sequence checks are decided by the
/// resumable protocol, never by a single event.
pub open spec fn spec_check_matches(c: Check, ev: InputEvent, last: bool, preds: Seq<
    PredDef,
>) -> bool {
    match c {
        Check::Byte(b0) => (ev matches InputEvent::Byte(b) && b == b0),
        Check::Ranges(rs) => (ev matches InputEvent::Byte(b) && in_ranges(rs@, b)),
        Check::Eoc => ev == InputEvent::End && !last,
        Check::Eof => ev == InputEvent::End && last,
        Check::Pred(name) => (ev matches InputEvent::Byte(b) && spec_pred_holds(preds, name@, b)),
        Check::Sequence(_) => false,
        Check::Any => true,
    }
}

/// An end-of-chunk check never passes once the driver has flagged the
/// final chunk, and an end-of-file check never passes before that: the
/// two exhaustion conditions are mutually exclusive.
pub proof fn lemma_input_state_exclusive(ev: InputEvent, last: bool, preds: Seq<PredDef>)
    ensures
        last ==> !spec_check_matches(Check::Eoc, ev, last, preds),
        !last ==> !spec_check_matches(Check::Eof, ev, last, preds),
{
}

/// The outcome of one attempt of the sequence protocol: the whole
/// sequence is confirmed, or the attempt failed, or the match must
/// suspend until more input is buffered, with this many bytes already
/// confirmed.
#[derive(Debug, Clone, Copy, PartialEq, Eq)]
pub enum SeqOutcome {
    Matched,
    Failed,
    Pending(usize),
}

/// Whether the window agrees with the pattern on every index of
/// `[from, to)`, under the case rule.
pub open spec fn seq_agree(pat: Seq<u8>, window: Seq<u8>, from: int, to: int, ic: bool) -> bool {
    forall|k: int| from <= k < to ==> bytes_agree(#[trigger] window[k], pat[k], ic)
}

/// One attempt of the sequence protocol, with `confirmed` bytes already
/// checked.  With the whole pattern in view it decides; with a shorter
/// window it checks what is available and suspends, unless no further
/// input can arrive, in which case it fails.
pub open spec fn spec_seq_verdict(
    pat: Seq<u8>,
    ic: bool,
    confirmed: int,
    window: Seq<u8>,
    last: bool,
) -> SeqOutcome {
    if window.len() >= pat.len() {
        if seq_agree(pat, window, confirmed, pat.len() as int, ic) {
            SeqOutcome::Matched
        } else {
            SeqOutcome::Failed
        }
    } else if !last {
        if seq_agree(pat, window, confirmed, window.len() as int, ic) {
            SeqOutcome::Pending(window.len() as usize)
        } else {
            SeqOutcome::Failed
        }
    } else {
        SeqOutcome::Failed
    }
}

/// Runs one attempt of the sequence protocol against the buffer tail
/// starting at `pos`; decides `spec_seq_verdict` for that window.
pub fn seq_check(
    pat: &Vec<u8>,
    ic: bool,
    confirmed: usize,
    buf: &Vec<u8>,
    pos: usize,
    last: bool,
) -> (r: SeqOutcome)
    requires
        pos <= buf@.len(),
        confirmed <= pat@.len(),
        pos + confirmed <= buf@.len(),
    ensures
        r == spec_seq_verdict(
            pat@,
            ic,
            confirmed as int,
            buf@.subrange(pos as int, buf@.len() as int),
            last,
        ),
{
    let ghost window = buf@.subrange(pos as int, buf@.len() as int);
    let n = pat.len();
    let avail = buf.len() - pos;
    let limit = if avail < n {
        if last {
            return SeqOutcome::Failed;
        }
        avail
    } else {
        n
    };
    let mut k: usize = confirmed;
    while k < limit
        invariant
            confirmed <= k <= limit,
            limit <= n == pat@.len(),
            limit <= avail == buf@.len() - pos,
            buf@.len() <= usize::MAX,
            window == buf@.subrange(pos as int, buf@.len() as int),
            seq_agree(pat@, window, confirmed as int, k as int, ic),
        decreases limit - k,
    {
        if !crate::model::bytes_agree_exec(buf[pos + k], pat[k], ic) {
            proof {
                assert(window[k as int] == buf@[pos + k as int]);
                assert(!seq_agree(pat@, window, confirmed as int, limit as int, ic));
            }
            return SeqOutcome::Failed;
        }
        proof {
            assert(window[k as int] == buf@[pos + k as int]);
        }
        k = k + 1;
    }
    if avail >= n {
        SeqOutcome::Matched
    } else {
        SeqOutcome::Pending(avail)
    }
}

/// Suspending loses and repeats nothing: if an attempt on a window
/// suspends, then on any extension of that window the resumed attempt
/// decides exactly as a fresh attempt from the originally confirmed
/// prefix would.
pub proof fn lemma_seq_resume(
    pat: Seq<u8>,
    ic: bool,
    confirmed: int,
    w1: Seq<u8>,
    w2: Seq<u8>,
    last: bool,
)
    requires
        0 <= confirmed <= w1.len() <= w2.len() <= usize::MAX,
        w1 == w2.subrange(0, w1.len() as int),
        spec_seq_verdict(pat, ic, confirmed, w1, false) matches SeqOutcome::Pending(_),
    ensures
        spec_seq_verdict(pat, ic, w1.len() as int, w2, last) == spec_seq_verdict(
            pat,
            ic,
            confirmed,
            w2,
            last,
        ),
{
    let c2 = w1.len() as int;
    assert(w1.len() < pat.len());
    assert(seq_agree(pat, w1, confirmed, c2, ic));
    assert forall|k: int| 0 <= k < c2 implies w2[k] == w1[k] by {
        assert(w1[k] == w2.subrange(0, c2)[k]);
    }
    assert(seq_agree(pat, w2, confirmed, c2, ic));
    if w2.len() >= pat.len() {
        assert(seq_agree(pat, w2, confirmed, pat.len() as int, ic) <==> seq_agree(
            pat,
            w2,
            c2,
            pat.len() as int,
            ic,
        ));
    } else if !last {
        assert(seq_agree(pat, w2, confirmed, w2.len() as int, ic) <==> seq_agree(
            pat,
            w2,
            c2,
            w2.len() as int,
            ic,
        ));
    }
}

/// The machine-level face of chunking irrelevance: once a sequence arm
/// has suspended, resuming on any grown buffer decides exactly as a
/// fresh attempt on that whole buffer would, so the arm's firing -- and
/// with it the trace the machine appends for it -- does not depend on
/// where the driver cut the chunks.
pub proof fn lemma_resume_equals_fresh(
    pat: Seq<u8>,
    ic: bool,
    w1: Seq<u8>,
    w2: Seq<u8>,
    last: bool,
)
    requires
        w1.len() <= w2.len() <= usize::MAX,
        w1 == w2.subrange(0, w1.len() as int),
        spec_seq_verdict(pat, ic, 0, w1, false) matches SeqOutcome::Pending(_),
    ensures
        spec_seq_verdict(pat, ic, w1.len() as int, w2, last) == spec_seq_verdict(
            pat,
            ic,
            0,
            w2,
            last,
        ),
{
    lemma_seq_resume(pat, ic, 0, w1, w2, last);
}

/// The protocol run over a list of cumulative windows: each attempt
/// sees the bytes buffered at one chunk boundary, suspends into the
/// next, and the last window is flagged final iff the stream ends
/// there.  After a decision nothing runs again.
pub open spec fn spec_seq_feed(
    pat: Seq<u8>,
    ic: bool,
    confirmed: int,
    windows: Seq<Seq<u8>>,
    last: bool,
) -> SeqOutcome
    decreases windows.len(),
{
    if windows.len() == 0 {
        SeqOutcome::Pending(confirmed as usize)
    } else {
        let v = spec_seq_verdict(pat, ic, confirmed, windows[0], last && windows.len() == 1);
        if windows.len() == 1 {
            v
        } else {
            match v {
                SeqOutcome::Pending(c) => spec_seq_feed(
                    pat,
                    ic,
                    c as int,
                    windows.drop_first(),
                    last,
                ),
                _ => v,
            }
        }
    }
}

/// Once a window decides an attempt, every extension decides it the
/// same way, provided the attempt could not have suspended (the window
/// was final or long enough).
proof fn lemma_seq_decided_persists(
    pat: Seq<u8>,
    ic: bool,
    confirmed: int,
    w1: Seq<u8>,
    w2: Seq<u8>,
    last1: bool,
    last: bool,
)
    requires
        0 <= confirmed <= w1.len() <= w2.len() <= usize::MAX,
        w1 == w2.subrange(0, w1.len() as int),
        !(spec_seq_verdict(pat, ic, confirmed, w1, last1) matches SeqOutcome::Pending(_)),
        w1.len() >= pat.len(),
    ensures
        spec_seq_verdict(pat, ic, confirmed, w2, last) == spec_seq_verdict(
            pat,
            ic,
            confirmed,
            w1,
            last1,
        ),
{
    assert forall|k: int| 0 <= k < w1.len() implies w2[k] == w1[k] by {
        assert(w1[k] == w2.subrange(0, w1.len() as int)[k]);
    }
    assert(seq_agree(pat, w2, confirmed, pat.len() as int, ic) <==> seq_agree(
        pat,
        w1,
        confirmed,
        pat.len() as int,
        ic,
    ));
}

/// Chunking does not change what a sequence pattern does: feeding the
/// protocol the buffered windows of any chunking, all but the last
/// possibly non-final, ends in the same outcome as one attempt that
/// sees the final window whole.
pub proof fn lemma_seq_chunking_irrelevant(
    pat: Seq<u8>,
    ic: bool,
    confirmed: int,
    windows: Seq<Seq<u8>>,
    last: bool,
)
    requires
        windows.len() > 0,
        0 <= confirmed <= windows[0].len(),
        forall|i: int|
            0 <= i < windows.len() - 1 ==> (#[trigger] windows[i]).len() <= windows[i + 1].len()
                && windows[i] == windows[i + 1].subrange(0, windows[i].len() as int),
        forall|i: int| 0 <= i < windows.len() ==> (#[trigger] windows[i]).len() <= usize::MAX,
    ensures
        spec_seq_feed(pat, ic, confirmed, windows, last) == spec_seq_verdict(
            pat,
            ic,
            confirmed,
            windows[windows.len() - 1],
            last,
        ),
    decreases windows.len(),
{
    let wlast = windows[windows.len() - 1];
    if windows.len() == 1 {
    } else {
        let v = spec_seq_verdict(pat, ic, confirmed, windows[0], false);
        let rest = windows.drop_first();
        assert(windows[0].len() <= windows[1].len());
        assert forall|i: int|
            0 <= i < rest.len() - 1 implies (#[trigger] rest[i]).len() <= rest[i + 1].len()
            && rest[i] == rest[i + 1].subrange(0, rest[i].len() as int) by {
            assert(rest[i] == windows[i + 1]);
            assert(rest[i + 1] == windows[i + 2]);
        }
        assert forall|i: int| 0 <= i < rest.len() implies (#[trigger] rest[i]).len()
            <= usize::MAX by {
            assert(rest[i] == windows[i + 1]);
        }
        assert(rest[rest.len() - 1] == wlast);
        match v {
            SeqOutcome::Pending(c) => {
                assert(c == windows[0].len());
                lemma_seq_chunking_irrelevant(pat, ic, c as int, rest, last);
                lemma_windows_prefix(windows, 0, windows.len() - 1);
                lemma_seq_resume(pat, ic, confirmed, windows[0], wlast, last);
            },
            _ => {
                assert(spec_seq_feed(pat, ic, confirmed, windows, last) == v);
                lemma_windows_prefix(windows, 0, windows.len() - 1);
                let w0 = windows[0];
                if w0.len() >= pat.len() {
                    lemma_seq_decided_persists(pat, ic, confirmed, w0, wlast, false, last);
                } else {
                    // The attempt failed on a mismatch inside the
                    // available prefix; that byte disagrees in every
                    // extension too.
                    assert(v == SeqOutcome::Failed);
                    assert(!seq_agree(pat, w0, confirmed, w0.len() as int, ic));
                    let k = choose|k: int|
                        confirmed <= k < w0.len() && !bytes_agree(#[trigger] w0[k], pat[k], ic);
                    assert(w0[k] == wlast.subrange(0, w0.len() as int)[k]);
                    assert(!bytes_agree(wlast[k], pat[k], ic));
                    assert(k < pat.len());
                    if wlast.len() >= pat.len() {
                        assert(!seq_agree(pat, wlast, confirmed, pat.len() as int, ic));
                    } else if !last {
                        assert(!seq_agree(pat, wlast, confirmed, wlast.len() as int, ic));
                    }
                }
            },
        }
    }
}

/// Each earlier window of a cumulative chunking is a prefix of each
/// later one.
proof fn lemma_windows_prefix(windows: Seq<Seq<u8>>, i: int, j: int)
    requires
        0 <= i <= j < windows.len(),
        forall|k: int|
            0 <= k < windows.len() - 1 ==> (#[trigger] windows[k]).len() <= windows[k + 1].len()
                && windows[k] == windows[k + 1].subrange(0, windows[k].len() as int),
    ensures
        windows[i].len() <= windows[j].len(),
        windows[i] == windows[j].subrange(0, windows[i].len() as int),
    decreases j - i,
{
    if i == j {
        assert(windows[i] == windows[j].subrange(0, windows[i].len() as int));
    } else {
        lemma_windows_prefix(windows, i, j - 1);
        assert(windows[j - 1].len() <= windows[j].len());
        assert(windows[j - 1] == windows[j].subrange(0, windows[j - 1].len() as int));
        assert forall|k: int| 0 <= k < windows[i].len() implies windows[i][k] == windows[j][k] by {
            assert(windows[i][k] == windows[j - 1].subrange(0, windows[i].len() as int)[k]);
            assert(windows[j - 1][k] == windows[j].subrange(0, windows[j - 1].len() as int)[k]);
        }
        assert(windows[i] =~= windows[j].subrange(0, windows[i].len() as int));
    }
}

/// The verdict of one arm on the current buffer position.
#[derive(Debug, Clone, Copy, PartialEq, Eq)]
pub enum ArmVerdict {
    /// The arm matches, consuming this many bytes.
    Match { consumed: usize },
    /// The arm does not match; the next arm is tried.
    NoMatch,
    /// A sequence arm matched everything available; the machine must
    /// wait for more input with this many bytes confirmed.
    Suspend { confirmed: usize },
}

/// The tail of the buffer from the cursor on.
pub open spec fn spec_window(buf: Seq<u8>, pos: int) -> Seq<u8> {
    buf.subrange(pos, buf.len() as int)
}

/// What dispatch offers at the cursor: the next byte, or exhaustion.
pub open spec fn spec_event(buf: Seq<u8>, pos: int) -> InputEvent {
    if pos < buf.len() {
        InputEvent::Byte(buf[pos])
    } else {
        InputEvent::End
    }
}

/// The verdict of a check at the cursor.  A byte-claiming check
/// consumes the byte it matched; an exhaustion check consumes nothing;
/// a sequence check follows the resumable protocol from scratch.
pub open spec fn spec_arm_verdict(
    c: Check,
    buf: Seq<u8>,
    pos: int,
    last: bool,
    preds: Seq<PredDef>,
) -> ArmVerdict {
    match c {
        Check::Sequence(sp) => match spec_seq_verdict(
            sp.bytes@,
            sp.ignore_case,
            0,
            spec_window(buf, pos),
            last,
        ) {
            SeqOutcome::Matched => ArmVerdict::Match { consumed: sp.bytes@.len() as usize },
            SeqOutcome::Pending(cc) => ArmVerdict::Suspend { confirmed: cc },
            SeqOutcome::Failed => ArmVerdict::NoMatch,
        },
        _ => {
            let ev = spec_event(buf, pos);
            if spec_check_matches(c, ev, last, preds) {
                ArmVerdict::Match {
                    consumed: if ev matches InputEvent::Byte(_) {
                        1
                    } else {
                        0
                    },
                }
            } else {
                ArmVerdict::NoMatch
            }
        },
    }
}

/// A matching verdict never consumes more than the buffer holds.
pub proof fn lemma_verdict_consumed_bound(
    c: Check,
    buf: Seq<u8>,
    pos: int,
    last: bool,
    preds: Seq<PredDef>,
)
    requires
        0 <= pos <= buf.len(),
        spec_arm_verdict(c, buf, pos, last, preds) matches ArmVerdict::Match { .. },
    ensures
        pos + spec_arm_verdict(c, buf, pos, last, preds)->Match_consumed <= buf.len(),
{
}

/// Whether a byte falls in one of the ranges; decides `in_ranges`.
fn ranges_contain(rs: &Vec<(u8, u8)>, b: u8) -> (r: bool)
    ensures
        r == in_ranges(rs@, b),
{
    let mut i: usize = 0;
    while i < rs.len()
        invariant
            i <= rs@.len(),
            forall|k: int| 0 <= k < i ==> !((#[trigger] rs@[k]).0 <= b <= rs@[k].1),
        decreases rs@.len() - i,
    {
        if rs[i].0 <= b && b <= rs[i].1 {
            proof {
                assert((rs@[i as int]).0 <= b <= rs@[i as int].1);
            }
            return true;
        }
        i = i + 1;
    }
    false
}

/// The verdict of one check at the cursor; decides `spec_arm_verdict`.
pub fn arm_verdict(c: &Check, buf: &Vec<u8>, pos: usize, last: bool, preds: &Vec<PredDef>) -> (r:
    ArmVerdict)
    requires
        pos <= buf@.len(),
    ensures
        r == spec_arm_verdict(*c, buf@, pos as int, last, preds@),
{
    match c {
        Check::Sequence(sp) => {
            match seq_check(&sp.bytes, sp.ignore_case, 0, buf, pos, last) {
                SeqOutcome::Matched => ArmVerdict::Match { consumed: sp.bytes.len() },
                SeqOutcome::Pending(cc) => ArmVerdict::Suspend { confirmed: cc },
                SeqOutcome::Failed => ArmVerdict::NoMatch,
            }
        },
        Check::Byte(b0) => {
            if pos < buf.len() && buf[pos] == *b0 {
                ArmVerdict::Match { consumed: 1 }
            } else {
                ArmVerdict::NoMatch
            }
        },
        Check::Ranges(rs) => {
            if pos < buf.len() && ranges_contain(rs, buf[pos]) {
                ArmVerdict::Match { consumed: 1 }
            } else {
                ArmVerdict::NoMatch
            }
        },
        Check::Eoc => {
            if pos >= buf.len() && !last {
                ArmVerdict::Match { consumed: 0 }
            } else {
                ArmVerdict::NoMatch
            }
        },
        Check::Eof => {
            if pos >= buf.len() && last {
                ArmVerdict::Match { consumed: 0 }
            } else {
                ArmVerdict::NoMatch
            }
        },
        Check::Pred(name) => {
            if pos < buf.len() && eval_pred(preds, name, buf[pos]) {
                ArmVerdict::Match { consumed: 1 }
            } else {
                ArmVerdict::NoMatch
            }
        },
        Check::Any => {
            if pos < buf.len() {
                ArmVerdict::Match { consumed: 1 }
            } else {
                ArmVerdict::Match { consumed: 0 }
            }
        },
    }
}

/// The earliest arm from `from` on whose check does not reject, with
/// its verdict; nothing, when every remaining arm rejects.
pub open spec fn spec_first_match(
    arms: Seq<CompiledArm>,
    from: int,
    buf: Seq<u8>,
    pos: int,
    last: bool,
    preds: Seq<PredDef>,
) -> Option<(int, ArmVerdict)>
    decreases arms.len() - from,
{
    if from < 0 || from >= arms.len() {
        None
    } else {
        let v = spec_arm_verdict(arms[from].check, buf, pos, last, preds);
        if v == ArmVerdict::NoMatch {
            spec_first_match(arms, from + 1, buf, pos, last, preds)
        } else {
            Some((from, v))
        }
    }
}

/// First match wins: the arm the dispatcher settles on is the earliest
/// one whose check does not reject, every arm before it rejects, and
/// when nothing is chosen every remaining arm rejects.
pub proof fn lemma_first_match_is_first(
    arms: Seq<CompiledArm>,
    from: int,
    buf: Seq<u8>,
    pos: int,
    last: bool,
    preds: Seq<PredDef>,
)
    requires
        0 <= from,
    ensures
        match spec_first_match(arms, from, buf, pos, last, preds) {
            Some(iv) => from <= iv.0 < arms.len() && iv.1 == spec_arm_verdict(
                arms[iv.0].check,
                buf,
                pos,
                last,
                preds,
            ) && iv.1 != ArmVerdict::NoMatch && (forall|j: int|
                from <= j < iv.0 ==> spec_arm_verdict(
                    (#[trigger] arms[j]).check,
                    buf,
                    pos,
                    last,
                    preds,
                ) == ArmVerdict::NoMatch),
            None => forall|j: int|
                from <= j < arms.len() ==> spec_arm_verdict(
                    (#[trigger] arms[j]).check,
                    buf,
                    pos,
                    last,
                    preds,
                ) == ArmVerdict::NoMatch,
        },
    decreases arms.len() - from,
{
    if 0 <= from < arms.len() {
        let v = spec_arm_verdict(arms[from].check, buf, pos, last, preds);
        if v == ArmVerdict::NoMatch {
            lemma_first_match_is_first(arms, from + 1, buf, pos, last, preds);
        }
    }
}

/// A reconsume transition re-offers the byte that caused the match:
/// after the actions ran, it alone steps the cursor back over a
/// consumed byte, while the normal and epsilon-move modes leave the
/// cursor where the actions left it.
pub proof fn lemma_transition_modes(
    d: CompiledDirectives,
    failing: Seq<String>,
    pos: int,
    consumed_byte: bool,
)
    ensures
        ({
            let r = spec_run_actions(d.actions@, 0, failing, pos);
            let o = spec_run_directives(d, failing, pos, consumed_byte);
            (o.halt is None && d.transition is Some) ==> ({
                &&& (d.transition->0.mode == TransitionMode::Reconsume && consumed_byte)
                    ==> o.pos == r.pos - 1
                &&& !(d.transition->0.mode == TransitionMode::Reconsume && consumed_byte)
                    ==> o.pos == r.pos
            })
        }),
{
}

/// Tries the arms from `from` on, one after the other in the order the
/// grammar wrote them, and returns the earliest whose check does not
/// reject, together with its verdict; no later arm is looked at.
/// Decides `spec_first_match`.
pub fn dispatch(
    arms: &Vec<CompiledArm>,
    from: usize,
    buf: &Vec<u8>,
    pos: usize,
    last: bool,
    preds: &Vec<PredDef>,
) -> (r: Option<(usize, ArmVerdict)>)
    requires
        pos <= buf@.len(),
    ensures
        match r {
            Some(iv) => from <= iv.0 < arms@.len() && iv.1 == spec_arm_verdict(
                arms@[iv.0 as int].check,
                buf@,
                pos as int,
                last,
                preds@,
            ) && iv.1 != ArmVerdict::NoMatch && (forall|j: int|
                from <= j < iv.0 ==> spec_arm_verdict(
                    (#[trigger] arms@[j]).check,
                    buf@,
                    pos as int,
                    last,
                    preds@,
                ) == ArmVerdict::NoMatch),
            None => forall|j: int|
                from <= j < arms@.len() ==> spec_arm_verdict(
                    (#[trigger] arms@[j]).check,
                    buf@,
                    pos as int,
                    last,
                    preds@,
                ) == ArmVerdict::NoMatch,
        },
        match (r, spec_first_match(arms@, from as int, buf@, pos as int, last, preds@)) {
            (Some(iv), Some(jw)) => iv.0 == jw.0 && iv.1 == jw.1,
            (None, None) => true,
            _ => false,
        },
{
    let mut i: usize = from;
    while i < arms.len()
        invariant
            from <= i,
            pos <= buf@.len(),
            spec_first_match(arms@, from as int, buf@, pos as int, last, preds@)
                == spec_first_match(arms@, i as int, buf@, pos as int, last, preds@),
            forall|j: int|
                from <= j < i ==> spec_arm_verdict(
                    (#[trigger] arms@[j]).check,
                    buf@,
                    pos as int,
                    last,
                    preds@,
                ) == ArmVerdict::NoMatch,
        decreases arms@.len() - i,
    {
        let v = arm_verdict(&arms[i].check, buf, pos, last, preds);
        match v {
            ArmVerdict::NoMatch => {
                i = i + 1;
            },
            _ => {
                return Some((i, v));
            },
        }
    }
    None
}

/// One recorded effect of a run.
#[derive(Debug, Clone, PartialEq, Eq)]
pub enum TraceEvent {
    /// A user-defined action ran.
    Action { name: String },
    /// A fallible user-defined action failed; the run aborts.
    FailedAction { name: String },
    /// The cursor position was recorded under a label.
    Mark { label: String, pos: usize },
    /// A span start was recorded under a label.
    StartMark { label: String, pos: usize },
    /// A span end was recorded under a label.
    EndMark { label: String, pos: usize },
    /// The cursor was rewound by one byte, to this position.
    Back { pos: usize },
    /// The machine switched to this state.
    Transition { target: usize, mode: TransitionMode },
    /// No arm matched an available byte.
    Stuck,
}

/// Why a run can go no further.
#[derive(Debug, Clone, Copy, PartialEq, Eq)]
pub enum Halt {
    /// The stream ended and the machine has nothing left to do.
    Done,
    /// A fallible action failed.
    Failed,
    /// No arm matched an available byte, or the cursor could not move.
    Stuck,
    /// The step allowance of a write ran out.
    OutOfFuel,
}

/// What one step of the runtime asks of its caller.
#[derive(Debug, Clone, Copy, PartialEq, Eq)]
pub enum StepFlow {
    /// Keep stepping.
    Progress,
    /// Wait for more input.
    Await,
    /// The run halted; see the context.
    Halted,
}

/// The mutable context of a run: the buffered input, the cursor, the
/// active state with its just-entered flag, a suspended sequence match
/// if any, the trace, and the halt cause once halted.
#[derive(Debug, Clone, PartialEq, Eq)]
pub struct RunCtx {
    pub buf: Vec<u8>,
    pub pos: usize,
    pub last: bool,
    pub state: usize,
    pub entered: bool,
    pub seq: Option<(usize, usize)>,
    pub trace: Vec<TraceEvent>,
    pub halted: Option<Halt>,
}

/// Well-formedness of a run context against its machine: the active
/// state exists, the cursor is inside the buffer, and a suspended
/// sequence match points at a sequence arm of the active state with a
/// confirmed count not past the pattern or the buffer.
pub open spec fn ctx_wf(ctx: RunCtx, m: Machine) -> bool {
    &&& ctx.state < m.states@.len()
    &&& ctx.pos <= ctx.buf@.len()
    &&& match ctx.seq {
        Some(ac) => {
            let arms = m.states@[ctx.state as int].arms@;
            &&& (ac.0 as int) < arms.len()
            &&& arms[ac.0 as int].check matches Check::Sequence(sp)
            &&& ac.1 <= arms[ac.0 as int].check->Sequence_0.bytes@.len()
            &&& ctx.pos + ac.1 <= ctx.buf@.len()
        },
        None => true,
    }
}

/// Decides `spec_name_listed`.
fn name_listed(names: &Vec<String>, name: &String) -> (r: bool)
    ensures
        r == spec_name_listed(names@, *name),
{
    let mut i: usize = 0;
    while i < names.len()
        invariant
            i <= names@.len(),
            forall|k: int| 0 <= k < i ==> (#[trigger] names@[k])@ != name@,
        decreases names@.len() - i,
    {
        if string_eq_str(&names[i], name.as_str()) {
            proof {
                assert((names@[i as int])@ == name@);
            }
            return true;
        }
        i = i + 1;
    }
    false
}

/// Which branch of a chain takes the byte: the first, from `i` on,
/// whose predicate accepts it; the else branch when none does or when
/// no byte is at hand.
pub open spec fn spec_select_branch(
    branches: Seq<(String, CompiledDirectives)>,
    i: int,
    preds: Seq<PredDef>,
    byte: Option<u8>,
    else_branch: CompiledDirectives,
) -> CompiledDirectives
    decreases branches.len() - i,
{
    match byte {
        Some(b) => {
            if i < 0 || i >= branches.len() {
                else_branch
            } else if spec_pred_holds(preds, branches[i].0@, b) {
                branches[i].1
            } else {
                spec_select_branch(branches, i + 1, preds, byte, else_branch)
            }
        },
        None => else_branch,
    }
}

/// The directive list a right-hand side runs for the matched byte.
pub open spec fn spec_selected_directives(
    rhs: CompiledRhs,
    preds: Seq<PredDef>,
    byte: Option<u8>,
) -> CompiledDirectives {
    match rhs {
        CompiledRhs::Direct(d) => d,
        CompiledRhs::Cond { branches, else_branch } => spec_select_branch(
            branches@,
            0,
            preds,
            byte,
            else_branch,
        ),
    }
}

/// Picks the directive list of a right-hand side; decides
/// `spec_selected_directives`: the first branch whose predicate
/// accepts the matched byte, the else branch when none does or when no
/// byte is at hand.
fn select_directives<'a>(
    rhs: &'a CompiledRhs,
    preds: &Vec<PredDef>,
    byte: Option<u8>,
    Ghost(n): Ghost<int>,
) -> (r: &'a CompiledDirectives)
    requires
        crate::compile::rhs_closed(*rhs, n),
    ensures
        crate::compile::directives_closed(*r, n),
        *r == spec_selected_directives(*rhs, preds@, byte),
{
    match rhs {
        CompiledRhs::Direct(d) => d,
        CompiledRhs::Cond { branches, else_branch } => {
            match byte {
                Some(b) => {
                    let mut i: usize = 0;
                    while i < branches.len()
                        invariant
                            i <= branches@.len(),
                            (*rhs == CompiledRhs::Cond {
                                branches: *branches,
                                else_branch: *else_branch,
                            }),
                            crate::compile::rhs_closed(*rhs, n),
                            spec_selected_directives(*rhs, preds@, byte) == spec_select_branch(
                                branches@,
                                i as int,
                                preds@,
                                byte,
                                *else_branch,
                            ),
                            byte == Some(b),
                        decreases branches@.len() - i,
                    {
                        if eval_pred(preds, &branches[i].0, b) {
                            proof {
                                assert(rhs->Cond_branches == *branches);
                                assert(crate::compile::directives_closed(
                                    rhs->Cond_branches@[i as int].1,
                                    n,
                                ));
                            }
                            return &branches[i].1;
                        }
                        i = i + 1;
                    }
                    else_branch
                },
                None => else_branch,
            }
        },
    }
}

/// The outcome of running an action list in the abstract: the events
/// it records, the cursor afterwards, and the halt it causes, if any.
pub ghost struct ActionsRun {
    pub events: Seq<TraceEvent>,
    pub pos: int,
    pub halt: Option<Halt>,
}

/// Whether the list holds the name.
pub open spec fn spec_name_listed(names: Seq<String>, name: String) -> bool {
    exists|i: int| 0 <= i < names.len() && (#[trigger] names[i])@ == name@
}

/// What running the action calls from index `i` on records and does,
/// with the cursor at `pos`: user actions record their run or their
/// failure, which aborts the rest; the markers record the cursor; a
/// rewind moves the cursor back one byte, halting if there is none.
pub open spec fn spec_run_actions(
    actions: Seq<ActionCall>,
    i: int,
    failing: Seq<String>,
    pos: int,
) -> ActionsRun
    decreases actions.len() - i,
{
    if i < 0 || i >= actions.len() {
        ActionsRun { events: Seq::empty(), pos, halt: None }
    } else {
        match actions[i] {
            ActionCall::UserDefined { name, fallible, .. } => {
                if fallible && spec_name_listed(failing, name) {
                    ActionsRun {
                        events: seq![TraceEvent::FailedAction { name }],
                        pos,
                        halt: Some(Halt::Failed),
                    }
                } else {
                    let rest = spec_run_actions(actions, i + 1, failing, pos);
                    ActionsRun {
                        events: seq![TraceEvent::Action { name }] + rest.events,
                        pos: rest.pos,
                        halt: rest.halt,
                    }
                }
            },
            ActionCall::Mark(label) => {
                let rest = spec_run_actions(actions, i + 1, failing, pos);
                ActionsRun {
                    events: seq![TraceEvent::Mark { label, pos: pos as usize }] + rest.events,
                    pos: rest.pos,
                    halt: rest.halt,
                }
            },
            ActionCall::Start(label) => {
                let rest = spec_run_actions(actions, i + 1, failing, pos);
                ActionsRun {
                    events: seq![TraceEvent::StartMark { label, pos: pos as usize }]
                        + rest.events,
                    pos: rest.pos,
                    halt: rest.halt,
                }
            },
            ActionCall::End(label) => {
                let rest = spec_run_actions(actions, i + 1, failing, pos);
                ActionsRun {
                    events: seq![TraceEvent::EndMark { label, pos: pos as usize }] + rest.events,
                    pos: rest.pos,
                    halt: rest.halt,
                }
            },
            ActionCall::Back => {
                if pos == 0 {
                    ActionsRun {
                        events: seq![TraceEvent::Stuck],
                        pos,
                        halt: Some(Halt::Stuck),
                    }
                } else {
                    let rest = spec_run_actions(actions, i + 1, failing, pos - 1);
                    ActionsRun {
                        events: seq![TraceEvent::Back { pos: (pos - 1) as usize }] + rest.events,
                        pos: rest.pos,
                        halt: rest.halt,
                    }
                }
            },
        }
    }
}

/// The outcome of running a whole directive list in the abstract: the
/// recorded events, the cursor afterwards, the halt it causes if any,
/// and the transition target when one fired.
pub ghost struct DirectivesOutcome {
    pub events: Seq<TraceEvent>,
    pub pos: int,
    pub halt: Option<Halt>,
    pub next_state: Option<usize>,
}

/// What a directive list does, given which actions fail and whether
/// the arm consumed a byte: the actions run left to right; a failure
/// aborts the rest, the transition included; a reconsume transition
/// steps the cursor back over the consumed byte, halting if the cursor
/// was already rewound to the start.
pub open spec fn spec_run_directives(
    d: CompiledDirectives,
    failing: Seq<String>,
    pos: int,
    consumed_byte: bool,
) -> DirectivesOutcome {
    let r = spec_run_actions(d.actions@, 0, failing, pos);
    if r.halt is Some {
        DirectivesOutcome { events: r.events, pos: r.pos, halt: r.halt, next_state: None }
    } else {
        match d.transition {
            None => DirectivesOutcome {
                events: r.events,
                pos: r.pos,
                halt: None,
                next_state: None,
            },
            Some(t) => {
                if consumed_byte && t.mode == TransitionMode::Reconsume && r.pos == 0 {
                    DirectivesOutcome {
                        events: r.events + seq![TraceEvent::Stuck],
                        pos: r.pos,
                        halt: Some(Halt::Stuck),
                        next_state: None,
                    }
                } else {
                    DirectivesOutcome {
                        events: r.events + seq![
                            TraceEvent::Transition { target: t.target, mode: t.mode },
                        ],
                        pos: if consumed_byte && t.mode == TransitionMode::Reconsume {
                            r.pos - 1
                        } else {
                            r.pos
                        },
                        halt: None,
                        next_state: Some(t.target),
                    }
                }
            },
        }
    }
}

/// Hands the machine over to the transition's target: the target
/// becomes the active state with its just-entered flag set, and a
/// reconsume transition re-offers the byte that caused the match by
/// stepping the cursor back over it, while the other two modes never
/// re-offer it.
pub fn apply_transition(ctx: &mut RunCtx, consumed_byte: bool, t: &CompiledTransition)
    requires
        t.mode == TransitionMode::Reconsume && consumed_byte ==> old(ctx).pos >= 1,
    ensures
        final(ctx).state == t.target,
        final(ctx).entered,
        t.mode == TransitionMode::Reconsume && consumed_byte ==> final(ctx).pos + 1 == old(ctx).pos,
        !(t.mode == TransitionMode::Reconsume && consumed_byte) ==> final(ctx).pos == old(ctx).pos,
        final(ctx).buf == old(ctx).buf,
        final(ctx).last == old(ctx).last,
        final(ctx).seq is None,
        final(ctx).halted == old(ctx).halted,
        final(ctx).trace@ == old(ctx).trace@.push(
            TraceEvent::Transition { target: t.target, mode: t.mode },
        ),
{
    ctx.trace.push(TraceEvent::Transition { target: t.target, mode: t.mode });
    ctx.state = t.target;
    ctx.entered = true;
    ctx.seq = None;
    if consumed_byte {
        match t.mode {
            TransitionMode::Reconsume => {
                ctx.pos = ctx.pos - 1;
            },
            _ => {},
        }
    }
}

/// Runs one directive list: the action calls from left to right, then
/// the transition.  A failed fallible action aborts the rest, the
/// transition included; the built-ins record or move the cursor.
fn run_directives(
    ctx: &mut RunCtx,
    d: &CompiledDirectives,
    failing: &Vec<String>,
    consumed_byte: bool,
    n_states: usize,
)
    requires
        crate::compile::directives_closed(*d, n_states as int),
        old(ctx).state < n_states,
        old(ctx).pos <= old(ctx).buf@.len(),
        old(ctx).halted is None,
    ensures
        final(ctx).state < n_states,
        final(ctx).pos <= final(ctx).buf@.len(),
        final(ctx).pos <= old(ctx).pos,
        final(ctx).buf == old(ctx).buf,
        final(ctx).last == old(ctx).last,
        final(ctx).halted is None && d.transition is Some ==> final(ctx).seq is None,
        !(final(ctx).halted is None && d.transition is Some) ==> final(ctx).seq == old(ctx).seq,
        final(ctx).halted is None || final(ctx).halted == Some(Halt::Failed) || final(ctx).halted == Some(Halt::Stuck),
        final(ctx).halted is None && d.transition is Some ==> final(ctx).state == d.transition
            ->0.target && final(ctx).entered,
        final(ctx).halted is None && d.transition is None ==> final(ctx).state == old(ctx).state && final(ctx).entered == old(ctx).entered,
        final(ctx).halted is Some ==> final(ctx).state == old(ctx).state,
        old(ctx).trace@.is_prefix_of(final(ctx).trace@),
        ({
            let o = spec_run_directives(*d, failing@, old(ctx).pos as int, consumed_byte);
            &&& final(ctx).trace@ == old(ctx).trace@ + o.events
            &&& final(ctx).pos == o.pos
            &&& final(ctx).halted == o.halt
            &&& (match o.next_state {
                Some(t) => final(ctx).state == t && final(ctx).entered && final(ctx).seq is None,
                None => final(ctx).state == old(ctx).state && final(ctx).entered == old(ctx).entered && final(ctx).seq == old(ctx).seq,
            })
        }),
{
    proof {
        assert(Seq::<TraceEvent>::empty() + spec_run_actions(
            d.actions@,
            0,
            failing@,
            old(ctx).pos as int,
        ).events =~= spec_run_actions(d.actions@, 0, failing@, old(ctx).pos as int).events);
        assert(old(ctx).trace@.skip(old(ctx).trace@.len() as int)
            =~= Seq::<TraceEvent>::empty());
    }
    let mut i: usize = 0;
    while i < d.actions.len()
        invariant
            i <= d.actions@.len(),
            ctx.state == old(ctx).state,
            ctx.state < n_states,
            ctx.entered == old(ctx).entered,
            ctx.pos <= ctx.buf@.len(),
            ctx.pos <= old(ctx).pos,
            ctx.buf == old(ctx).buf,
            ctx.last == old(ctx).last,
            ctx.seq == old(ctx).seq,
            ctx.halted is None,
            old(ctx).trace@.is_prefix_of(ctx.trace@),
            ({
                let full = spec_run_actions(d.actions@, 0, failing@, old(ctx).pos as int);
                let rest = spec_run_actions(d.actions@, i as int, failing@, ctx.pos as int);
                &&& full.halt == rest.halt
                &&& full.pos == rest.pos
                &&& full.events == ctx.trace@.skip(old(ctx).trace@.len() as int) + rest.events
            }),
        decreases d.actions@.len() - i,
    {
        let ghost pre_trace = ctx.trace@;
        let ghost pre_pos = ctx.pos as int;
        let ghost old_len = old(ctx).trace@.len() as int;
        match &d.actions[i] {
            ActionCall::UserDefined { name, fallible, .. } => {
                if *fallible && name_listed(failing, name) {
                    ctx.trace.push(TraceEvent::FailedAction { name: name.clone() });
                    ctx.halted = Some(Halt::Failed);
                    proof {
                        assert(ctx.trace@.skip(old_len) =~= pre_trace.skip(old_len).push(
                            TraceEvent::FailedAction { name: *name },
                        ));
                        assert(pre_trace.skip(old_len).push(
                            TraceEvent::FailedAction { name: *name },
                        ) =~= pre_trace.skip(old_len) + seq![
                            TraceEvent::FailedAction { name: *name },
                        ]);
                        assert(spec_run_actions(d.actions@, 0, failing@, old(ctx).pos as int)
                            .events =~= ctx.trace@.skip(old_len));
                    }
                    return ;
                }
                ctx.trace.push(TraceEvent::Action { name: name.clone() });
                proof {
                    assert(ctx.trace@.skip(old_len) =~= pre_trace.skip(old_len).push(
                        TraceEvent::Action { name: *name },
                    ));
                    assert(pre_trace.skip(old_len).push(TraceEvent::Action { name: *name })
                        + spec_run_actions(d.actions@, i + 1, failing@, pre_pos).events
                        =~= pre_trace.skip(old_len) + (seq![TraceEvent::Action { name: *name }]
                        + spec_run_actions(d.actions@, i + 1, failing@, pre_pos).events));
                }
            },
            ActionCall::Mark(label) => {
                ctx.trace.push(TraceEvent::Mark { label: label.clone(), pos: ctx.pos });
                proof {
                    let e = TraceEvent::Mark { label: *label, pos: pre_pos as usize };
                    assert(ctx.trace@.skip(old_len) =~= pre_trace.skip(old_len).push(e));
                    assert(pre_trace.skip(old_len).push(e) + spec_run_actions(
                        d.actions@,
                        i + 1,
                        failing@,
                        pre_pos,
                    ).events =~= pre_trace.skip(old_len) + (seq![e] + spec_run_actions(
                        d.actions@,
                        i + 1,
                        failing@,
                        pre_pos,
                    ).events));
                }
            },
            ActionCall::Start(label) => {
                ctx.trace.push(TraceEvent::StartMark { label: label.clone(), pos: ctx.pos });
                proof {
                    let e = TraceEvent::StartMark { label: *label, pos: pre_pos as usize };
                    assert(ctx.trace@.skip(old_len) =~= pre_trace.skip(old_len).push(e));
                    assert(pre_trace.skip(old_len).push(e) + spec_run_actions(
                        d.actions@,
                        i + 1,
                        failing@,
                        pre_pos,
                    ).events =~= pre_trace.skip(old_len) + (seq![e] + spec_run_actions(
                        d.actions@,
                        i + 1,
                        failing@,
                        pre_pos,
                    ).events));
                }
            },
            ActionCall::End(label) => {
                ctx.trace.push(TraceEvent::EndMark { label: label.clone(), pos: ctx.pos });
                proof {
                    let e = TraceEvent::EndMark { label: *label, pos: pre_pos as usize };
                    assert(ctx.trace@.skip(old_len) =~= pre_trace.skip(old_len).push(e));
                    assert(pre_trace.skip(old_len).push(e) + spec_run_actions(
                        d.actions@,
                        i + 1,
                        failing@,
                        pre_pos,
                    ).events =~= pre_trace.skip(old_len) + (seq![e] + spec_run_actions(
                        d.actions@,
                        i + 1,
                        failing@,
                        pre_pos,
                    ).events));
                }
            },
            ActionCall::Back => {
                if ctx.pos == 0 {
                    ctx.trace.push(TraceEvent::Stuck);
                    ctx.halted = Some(Halt::Stuck);
                    proof {
                        assert(ctx.trace@.skip(old_len) =~= pre_trace.skip(old_len).push(
                            TraceEvent::Stuck,
                        ));
                        assert(pre_trace.skip(old_len).push(TraceEvent::Stuck) =~= pre_trace.skip(
                            old_len,
                        ) + seq![TraceEvent::Stuck]);
                        assert(spec_run_actions(d.actions@, 0, failing@, old(ctx).pos as int)
                            .events =~= ctx.trace@.skip(old_len));
                    }
                    return ;
                }
                ctx.pos = ctx.pos - 1;
                ctx.trace.push(TraceEvent::Back { pos: ctx.pos });
                proof {
                    let e = TraceEvent::Back { pos: (pre_pos - 1) as usize };
                    assert(ctx.trace@.skip(old_len) =~= pre_trace.skip(old_len).push(e));
                    assert(pre_trace.skip(old_len).push(e) + spec_run_actions(
                        d.actions@,
                        i + 1,
                        failing@,
                        pre_pos - 1,
                    ).events =~= pre_trace.skip(old_len) + (seq![e] + spec_run_actions(
                        d.actions@,
                        i + 1,
                        failing@,
                        pre_pos - 1,
                    ).events));
                }
            },
        }
        i = i + 1;
    }
    proof {
        assert(spec_run_actions(d.actions@, 0, failing@, old(ctx).pos as int).events
            =~= ctx.trace@.skip(old(ctx).trace@.len() as int));
        assert(old(ctx).trace@ + ctx.trace@.skip(old(ctx).trace@.len() as int) =~= ctx.trace@);
    }
    match &d.transition {
        Some(t) => {
            if consumed_byte && ctx.pos == 0 {
                // A reconsume transition cannot re-offer a byte the
                // cursor has already been rewound past.
                match t.mode {
                    TransitionMode::Reconsume => {
                        let ghost pre_trace = ctx.trace@;
                        ctx.trace.push(TraceEvent::Stuck);
                        ctx.halted = Some(Halt::Stuck);
                        proof {
                            assert(ctx.trace@ =~= pre_trace + seq![TraceEvent::Stuck]);
                        }
                        return ;
                    },
                    _ => {},
                }
            }
            let ghost pre_trace = ctx.trace@;
            apply_transition(ctx, consumed_byte, t);
            proof {
                assert(ctx.trace@ =~= pre_trace + seq![
                    TraceEvent::Transition { target: t.target, mode: t.mode },
                ]);
            }
        },
        None => {},
    }
}

/// What dispatching from arm `from` does to the context: the first arm
/// whose check does not reject fires, its selected directive list runs
/// on the byte that matched, and a suspension or the lack of any match
/// is handled as the input situation demands.
pub open spec fn spec_dispatch_post(
    m: Machine,
    pre: RunCtx,
    post: RunCtx,
    from: int,
    preds: Seq<PredDef>,
    failing: Seq<String>,
) -> bool {
    let arms = m.states@[pre.state as int].arms@;
    let buf = pre.buf@;
    let pos0 = pre.pos as int;
    let last = pre.last;
    match spec_first_match(arms, from, buf, pos0, last, preds) {
        Some((idx, ArmVerdict::Match { consumed })) => ({
            let byte = if consumed > 0 {
                Some(buf[pos0 + consumed as int - 1])
            } else {
                None
            };
            let d = spec_selected_directives(arms[idx].rhs, preds, byte);
            let o = spec_run_directives(d, failing, pos0 + consumed as int, consumed > 0);
            &&& post.trace@ == pre.trace@ + o.events
            &&& post.pos == o.pos
            &&& post.halted == (if o.halt is Some {
                o.halt
            } else if pos0 == buf.len() && o.next_state is None && last {
                Some(Halt::Done)
            } else {
                None
            })
            &&& (match o.next_state {
                Some(t) => post.state == t && post.entered,
                None => post.state == pre.state && post.entered == pre.entered,
            })
        }),
        Some((idx, ArmVerdict::Suspend { confirmed })) => ({
            &&& post.seq == Some((idx as usize, confirmed))
            &&& post.trace@ == pre.trace@
            &&& post.pos == pre.pos
            &&& post.state == pre.state
            &&& post.halted is None
        }),
        Some((_, ArmVerdict::NoMatch)) => true,
        None => ({
            if pos0 < buf.len() {
                &&& post.trace@ == pre.trace@ + seq![TraceEvent::Stuck]
                &&& post.halted == Some(Halt::Stuck)
            } else {
                &&& post.trace@ == pre.trace@
                &&& post.halted == (if last {
                    Some(Halt::Done)
                } else {
                    None
                })
            }
        }),
    }
}

/// Dispatches the active state's arms from the given one on and fires
/// the first that matches.  With no match left: an available byte
/// strands the machine, exhaustion of a final stream finishes it, and
/// exhaustion otherwise waits for input.
fn dispatch_and_fire(
    m: &Machine,
    preds: &Vec<PredDef>,
    failing: &Vec<String>,
    ctx: &mut RunCtx,
    from: usize,
) -> (flow: StepFlow)
    requires
        crate::compile::machine_closed(*m),
        ctx_wf(*old(ctx), *m),
        old(ctx).halted is None,
        old(ctx).seq is None,
    ensures
        ctx_wf(*final(ctx), *m),
        final(ctx).buf == old(ctx).buf,
        final(ctx).last == old(ctx).last,
        old(ctx).trace@.is_prefix_of(final(ctx).trace@),
        final(ctx).halted != Some(Halt::OutOfFuel),
        spec_dispatch_post(*m, *old(ctx), *final(ctx), from as int, preds@, failing@),
{
    let n = m.states.len();
    let st = ctx.state;
    proof {
        assert(crate::compile::state_closed(m.states@[st as int], n as int));
    }
    let arms = &m.states[st].arms;
    let r = dispatch(arms, from, &ctx.buf, ctx.pos, ctx.last, preds);
    match r {
        Some((idx, ArmVerdict::Match { consumed })) => {
            proof {
                lemma_verdict_consumed_bound(
                    arms@[idx as int].check,
                    ctx.buf@,
                    ctx.pos as int,
                    ctx.last,
                    preds@,
                );
                assert(crate::compile::rhs_closed(
                    m.states@[st as int].arms@[idx as int].rhs,
                    n as int,
                ));
            }
            let end_event = ctx.pos == ctx.buf.len();
            let byte = if consumed > 0 {
                Some(ctx.buf[ctx.pos + consumed - 1])
            } else {
                None
            };
            ctx.pos = ctx.pos + consumed;
            let d = select_directives(&arms[idx].rhs, preds, byte, Ghost(n as int));
            let had_transition = d.transition.is_some();
            run_directives(ctx, d, failing, consumed > 0, n);
            if ctx.halted.is_some() {
                return StepFlow::Halted;
            }
            if end_event {
                if had_transition {
                    StepFlow::Progress
                } else if ctx.last {
                    ctx.halted = Some(Halt::Done);
                    StepFlow::Halted
                } else {
                    StepFlow::Await
                }
            } else {
                StepFlow::Progress
            }
        },
        Some((idx, ArmVerdict::Suspend { confirmed })) => {
            let _blen: usize = ctx.buf.len();
            proof {
                assert(ctx.buf@.subrange(ctx.pos as int, ctx.buf@.len() as int).len()
                    == ctx.buf@.len() - ctx.pos);
                assert(m.states@[st as int].arms@[idx as int].check matches Check::Sequence(_));
                assert(confirmed + ctx.pos == ctx.buf@.len());
                assert(confirmed <= m.states@[st as int].arms@[idx as int]
                    .check->Sequence_0.bytes@.len());
            }
            ctx.seq = Some((idx, confirmed));
            StepFlow::Await
        },
        Some((_, ArmVerdict::NoMatch)) => {
            proof {
                assert(false);
            }
            StepFlow::Halted
        },
        None => {
            if ctx.pos < ctx.buf.len() {
                ctx.trace.push(TraceEvent::Stuck);
                ctx.halted = Some(Halt::Stuck);
                proof {
                    assert(ctx.trace@ =~= old(ctx).trace@ + seq![TraceEvent::Stuck]);
                }
                StepFlow::Halted
            } else if ctx.last {
                ctx.halted = Some(Halt::Done);
                StepFlow::Halted
            } else {
                StepFlow::Await
            }
        },
    }
}

/// One step of the runtime.  A freshly entered state first runs its
/// prelude, once; a suspended sequence match resumes where it left off,
/// falling through to the following arms if it fails; otherwise the
/// arms are dispatched from the first.
pub fn machine_step(m: &Machine, preds: &Vec<PredDef>, failing: &Vec<String>, ctx: &mut RunCtx) -> (
    flow: StepFlow)
    requires
        crate::compile::machine_closed(*m),
        ctx_wf(*old(ctx), *m),
        old(ctx).halted is None,
    ensures
        ctx_wf(*final(ctx), *m),
        final(ctx).buf == old(ctx).buf,
        final(ctx).last == old(ctx).last,
        old(ctx).trace@.is_prefix_of(final(ctx).trace@),
        final(ctx).halted != Some(Halt::OutOfFuel),
        old(ctx).entered ==> (match m.states@[old(ctx).state as int].prelude {
            None => *final(ctx) == (RunCtx { entered: false, ..*old(ctx) }),
            Some(rhs) => ({
                let d = spec_selected_directives(rhs, preds@, None);
                let o = spec_run_directives(d, failing@, old(ctx).pos as int, false);
                &&& final(ctx).trace@ == old(ctx).trace@ + o.events
                &&& final(ctx).pos == o.pos
                &&& final(ctx).halted == o.halt
                &&& (match o.next_state {
                    Some(t) => final(ctx).state == t && final(ctx).entered && final(ctx).seq is None,
                    None => final(ctx).state == old(ctx).state && !final(ctx).entered && final(ctx).seq == old(ctx).seq,
                })
            }),
        }),
        (!old(ctx).entered && old(ctx).seq is None) ==> spec_dispatch_post(
            *m,
            *old(ctx),
            *final(ctx),
            0,
            preds@,
            failing@,
        ),
        (!old(ctx).entered && old(ctx).seq is Some) ==> ({
            let ac = old(ctx).seq->0;
            let arm = m.states@[old(ctx).state as int].arms@[ac.0 as int];
            let sp = arm.check->Sequence_0;
            let window = spec_window(old(ctx).buf@, old(ctx).pos as int);
            match spec_seq_verdict(sp.bytes@, sp.ignore_case, ac.1 as int, window, old(ctx).last) {
                SeqOutcome::Matched => ({
                    let nlen = sp.bytes@.len() as int;
                    let byte = if nlen > 0 {
                        Some(old(ctx).buf@[old(ctx).pos + nlen - 1])
                    } else {
                        None
                    };
                    let d = spec_selected_directives(arm.rhs, preds@, byte);
                    let o = spec_run_directives(d, failing@, old(ctx).pos + nlen, nlen > 0);
                    &&& final(ctx).trace@ == old(ctx).trace@ + o.events
                    &&& final(ctx).pos == o.pos
                    &&& final(ctx).halted == o.halt
                    &&& (match o.next_state {
                        Some(t) => final(ctx).state == t && final(ctx).entered,
                        None => final(ctx).state == old(ctx).state && final(ctx).entered == old(ctx).entered,
                    })
                }),
                SeqOutcome::Pending(c2) => final(ctx).seq == Some((ac.0, c2)) && final(ctx).trace@ == old(ctx).trace@ && final(ctx).pos == old(ctx).pos && final(ctx).state == old(ctx).state && final(ctx).halted is None,
                SeqOutcome::Failed => spec_dispatch_post(
                    *m,
                    *old(ctx),
                    *final(ctx),
                    ac.0 + 1,
                    preds@,
                    failing@,
                ),
            }
        }),
{
    let n = m.states.len();
    if ctx.entered {
        ctx.entered = false;
        let st = ctx.state;
        proof {
            assert(crate::compile::state_closed(m.states@[st as int], n as int));
        }
        match &m.states[st].prelude {
            Some(rhs) => {
                proof {
                    assert(m.states@[st as int].prelude->0 == *rhs);
                    assert(crate::compile::rhs_closed(*rhs, n as int));
                }
                let d = select_directives(rhs, preds, None, Ghost(n as int));
                run_directives(ctx, d, failing, false, n);
                if ctx.halted.is_some() {
                    StepFlow::Halted
                } else {
                    StepFlow::Progress
                }
            },
            None => StepFlow::Progress,
        }
    } else {
        let resume = ctx.seq;
        match resume {
            Some((a, c)) => {
                let st = ctx.state;
                proof {
                    assert(crate::compile::state_closed(m.states@[st as int], n as int));
                    assert(crate::compile::rhs_closed(
                        m.states@[st as int].arms@[a as int].rhs,
                        n as int,
                    ));
                }
                let arms = &m.states[st].arms;
                match &arms[a].check {
                    Check::Sequence(sp) => {
                        let out = seq_check(&sp.bytes, sp.ignore_case, c, &ctx.buf, ctx.pos, ctx.last);
                        match out {
                            SeqOutcome::Matched => {
                                ctx.seq = None;
                                let nlen = sp.bytes.len();
                                let _blen: usize = ctx.buf.len();
                                proof {
                                    assert(ctx.buf@.subrange(
                                        ctx.pos as int,
                                        ctx.buf@.len() as int,
                                    ).len() == ctx.buf@.len() - ctx.pos);
                                    assert(ctx.pos + nlen <= ctx.buf@.len());
                                }
                                let byte = if nlen > 0 {
                                    Some(ctx.buf[ctx.pos + nlen - 1])
                                } else {
                                    None
                                };
                                ctx.pos = ctx.pos + nlen;
                                let d = select_directives(&arms[a].rhs, preds, byte, Ghost(n as int));
                                run_directives(ctx, d, failing, nlen > 0, n);
                                if ctx.halted.is_some() {
                                    StepFlow::Halted
                                } else {
                                    StepFlow::Progress
                                }
                            },
                            SeqOutcome::Pending(c2) => {
                                let _blen: usize = ctx.buf.len();
                                proof {
                                    assert(ctx.buf@.subrange(
                                        ctx.pos as int,
                                        ctx.buf@.len() as int,
                                    ).len() == ctx.buf@.len() - ctx.pos);
                                    assert(c2 + ctx.pos == ctx.buf@.len());
                                    assert(m.states@[st as int].arms@[a as int]
                                        .check->Sequence_0 == *sp);
                                    assert(c2 <= sp.bytes@.len());
                                }
                                ctx.seq = Some((a, c2));
                                StepFlow::Await
                            },
                            SeqOutcome::Failed => {
                                ctx.seq = None;
                                let _alen: usize = arms.len();
                                dispatch_and_fire(m, preds, failing, ctx, a + 1)
                            },
                        }
                    },
                    _ => {
                        proof {
                            assert(false);
                        }
                        StepFlow::Halted
                    },
                }
            },
            None => dispatch_and_fire(m, preds, failing, ctx, 0),
        }
    }
}

/// A fresh run context for a machine: its first state is active and
/// counts as just entered, nothing is buffered, and the trace is empty.
pub fn machine_start(m: &Machine) -> (ctx: RunCtx)
    requires
        m.states@.len() > 0,
    ensures
        ctx_wf(ctx, *m),
        ctx.state == 0,
        ctx.entered,
        ctx.pos == 0,
        ctx.buf@.len() == 0,
        !ctx.last,
        ctx.seq is None,
        ctx.trace@.len() == 0,
        ctx.halted is None,
{
    RunCtx {
        buf: Vec::new(),
        pos: 0,
        last: false,
        state: 0,
        entered: true,
        seq: None,
        trace: Vec::new(),
        halted: None,
    }
}

/// Buffers one chunk, flags the stream final when the driver says so,
/// and steps the machine until it waits for input, halts, or uses up
/// the step allowance.
pub fn machine_write(
    m: &Machine,
    preds: &Vec<PredDef>,
    failing: &Vec<String>,
    ctx: &mut RunCtx,
    chunk: &Vec<u8>,
    is_last: bool,
    fuel: usize,
)
    requires
        crate::compile::machine_closed(*m),
        ctx_wf(*old(ctx), *m),
    ensures
        ctx_wf(*final(ctx), *m),
        old(ctx).trace@.is_prefix_of(final(ctx).trace@),
        final(ctx).buf@ == old(ctx).buf@ + chunk@,
        final(ctx).last == (old(ctx).last || is_last),
        old(ctx).halted is Some ==> final(ctx).trace == old(ctx).trace && final(ctx).halted
            == old(ctx).halted && final(ctx).pos == old(ctx).pos && final(ctx).state == old(ctx).state && final(ctx).seq == old(ctx).seq && final(ctx).entered == old(ctx).entered,
{
    let mut i: usize = 0;
    while i < chunk.len()
        invariant
            i <= chunk@.len(),
            ctx_wf(*ctx, *m),
            ctx.buf@ == old(ctx).buf@ + chunk@.subrange(0, i as int),
            ctx.last == old(ctx).last,
            ctx.trace == old(ctx).trace,
            ctx.halted == old(ctx).halted,
            ctx.pos == old(ctx).pos,
            ctx.state == old(ctx).state,
            ctx.seq == old(ctx).seq,
            ctx.entered == old(ctx).entered,
        decreases chunk@.len() - i,
    {
        ctx.buf.push(chunk[i]);
        proof {
            assert(ctx.buf@ =~= old(ctx).buf@ + chunk@.subrange(0, i + 1));
        }
        i = i + 1;
    }
    proof {
        assert(chunk@.subrange(0, chunk@.len() as int) =~= chunk@);
    }
    if is_last {
        ctx.last = true;
    }
    let mut f: usize = 0;
    while f < fuel
        invariant
            crate::compile::machine_closed(*m),
            ctx_wf(*ctx, *m),
            old(ctx).trace@.is_prefix_of(ctx.trace@),
            ctx.buf@ == old(ctx).buf@ + chunk@,
            ctx.last == (old(ctx).last || is_last),
            old(ctx).halted is Some ==> ctx.trace == old(ctx).trace && ctx.halted == old(ctx).halted && ctx.pos == old(ctx).pos && ctx.state == old(ctx).state && ctx.seq == old(ctx).seq && ctx.entered == old(ctx).entered,
        decreases fuel - f,
    {
        if ctx.halted.is_some() {
            return ;
        }
        let flow = machine_step(m, preds, failing, ctx);
        match flow {
            StepFlow::Progress => {
                f = f + 1;
            },
            _ => {
                return ;
            },
        }
    }
    if ctx.halted.is_none() {
        ctx.halted = Some(Halt::OutOfFuel);
    }
}

/// The bytes of the chunks from index `i` on, in order.
pub open spec fn spec_chunks_bytes(chunks: Seq<(Vec<u8>, bool)>, i: int) -> Seq<u8>
    decreases chunks.len() - i,
{
    if i < 0 || i >= chunks.len() {
        Seq::empty()
    } else {
        chunks[i].0@ + spec_chunks_bytes(chunks, i + 1)
    }
}

/// Whether any chunk from index `i` on is flagged final.
pub open spec fn spec_chunks_flag_final(chunks: Seq<(Vec<u8>, bool)>, i: int) -> bool
    decreases chunks.len() - i,
{
    if i < 0 || i >= chunks.len() {
        false
    } else {
        chunks[i].1 || spec_chunks_flag_final(chunks, i + 1)
    }
}

/// Runs a machine over a list of chunks, each flagged final or not,
/// from a fresh context; the step allowance applies to each chunk.  The
/// run buffers exactly the chunks' bytes, in order, and sees the stream
/// as final exactly when some chunk was flagged final.
pub fn machine_run(
    m: &Machine,
    preds: &Vec<PredDef>,
    failing: &Vec<String>,
    chunks: &Vec<(Vec<u8>, bool)>,
    fuel: usize,
) -> (ctx: RunCtx)
    requires
        crate::compile::machine_closed(*m),
    ensures
        ctx_wf(ctx, *m),
        ctx.buf@ == spec_chunks_bytes(chunks@, 0),
        ctx.last == spec_chunks_flag_final(chunks@, 0),
{
    let mut ctx = machine_start(m);
    let mut i: usize = 0;
    proof {
        assert(ctx.buf@ + spec_chunks_bytes(chunks@, 0) =~= spec_chunks_bytes(chunks@, 0));
    }
    while i < chunks.len()
        invariant
            crate::compile::machine_closed(*m),
            ctx_wf(ctx, *m),
            i <= chunks@.len(),
            spec_chunks_bytes(chunks@, 0) == ctx.buf@ + spec_chunks_bytes(chunks@, i as int),
            spec_chunks_flag_final(chunks@, 0) == (ctx.last || spec_chunks_flag_final(
                chunks@,
                i as int,
            )),
        decreases chunks@.len() - i,
    {
        let ghost pre_buf = ctx.buf@;
        machine_write(m, preds, failing, &mut ctx, &chunks[i].0, chunks[i].1, fuel);
        proof {
            assert(pre_buf + (chunks@[i as int].0@ + spec_chunks_bytes(chunks@, i + 1))
                =~= (pre_buf + chunks@[i as int].0@) + spec_chunks_bytes(chunks@, i + 1));
        }
        i = i + 1;
    }
    proof {
        assert(ctx.buf@ + spec_chunks_bytes(chunks@, chunks@.len() as int) =~= ctx.buf@);
    }
    ctx
}

} // verus!
