//! The session: ordered preamble/body buffers, the mode state machine, the
//! pre-submission snapshot, and the edit operations over them.

use vstd::prelude::*;

use crate::input::spec_classify;
use crate::input::classify_block;
use crate::render::lemma_render_has_marker;
use crate::render::spec_marker;
use crate::render::spec_render;
use crate::strutil::spec_contains;
use crate::strutil::spec_dec;
use crate::strutil::usize_to_string;
use crate::utils::detect_async_runtime;
use crate::utils::looks_like_async_error;
use crate::utils::opt_text_view;
use crate::utils::spec_detect_runtime;
use crate::utils::spec_is_async_error;
use vstd::string::StringExecFns;

verus! {

/// The asynchronous execution backends a generated program can be dispatched
/// under, in detection priority order.
#[derive(Debug, Clone, Copy, PartialEq, Eq, Structural)]
pub enum AsyncRuntime {
    Tokio,
    AsyncStd,
    Smol,
}

/// Shape of the generated program: synchronous, or asynchronous under a
/// particular runtime.
#[derive(Debug, Clone, Copy, PartialEq, Eq, Structural)]
pub enum Mode {
    Sync,
    Async(AsyncRuntime),
}

/// The two ordered line buffers a classified fragment is appended to.
#[derive(Debug, Clone, Copy, PartialEq, Eq, Structural)]
pub enum Segment {
    Preamble,
    Body,
}

/// Report of a rejected delete request: some requested index lies outside
/// the target buffer.
#[derive(Debug, Clone, Copy, PartialEq, Eq, Structural)]
pub struct DeleteError {
    /// The buffer the delete was aimed at.
    pub segment: Segment,
    /// The offending (largest requested) index.
    pub index: usize,
    /// The length of the target buffer at the time of the request.
    pub len: usize,
}

/// Mathematical state of a session: the two line buffers, the mode, and the
/// snapshot lengths taken before the most recent fragment was appended.
pub ghost struct SessionModel {
    pub preamble: Seq<Seq<char>>,
    pub body: Seq<Seq<char>>,
    pub mode: Mode,
    pub snap_preamble: int,
    pub snap_body: int,
}

/// The state of a fresh session: empty buffers, synchronous mode, zero
/// snapshot.
pub open spec fn spec_init() -> SessionModel {
    SessionModel {
        preamble: Seq::empty(),
        body: Seq::empty(),
        mode: Mode::Sync,
        snap_preamble: 0,
        snap_body: 0,
    }
}

/// Effect of submitting a fragment: the snapshot records the buffer lengths
/// before the call, and the fragment's classified lines are appended.
pub open spec fn spec_add(m: SessionModel, block: Seq<char>) -> SessionModel {
    SessionModel {
        preamble: m.preamble + spec_classify(block).0,
        body: m.body + spec_classify(block).1,
        mode: m.mode,
        snap_preamble: m.preamble.len() as int,
        snap_body: m.body.len() as int,
    }
}

/// A sequence cut back to `n` elements; longer cuts leave it unchanged.
pub open spec fn spec_truncate(s: Seq<Seq<char>>, n: int) -> Seq<Seq<char>> {
    if 0 <= n <= s.len() {
        s.take(n)
    } else {
        s
    }
}

/// Effect of rolling both buffers back to the snapshot lengths.
pub open spec fn spec_rollback(m: SessionModel) -> SessionModel {
    SessionModel {
        preamble: spec_truncate(m.preamble, m.snap_preamble),
        body: spec_truncate(m.body, m.snap_body),
        mode: m.mode,
        snap_preamble: m.snap_preamble,
        snap_body: m.snap_body,
    }
}

/// What the session did about a failed run, beyond reporting its output.
#[derive(Debug, Clone, Copy, PartialEq, Eq, Structural)]
pub enum FailureAction {
    /// The diagnostic was not an asynchronous-context violation: the
    /// submitted fragment was rolled back to the snapshot.
    RolledBack,
    /// The diagnostic looked asynchronous but the session had already
    /// switched: no second switch, no rollback; the code stays.
    KeptAsync,
    /// The diagnostic looked asynchronous, but the manifest declares no
    /// supported runtime: the fragment was rolled back.
    NoRuntime,
    /// The session switched from synchronous mode to the detected runtime;
    /// the caller should regenerate the program and run it exactly once
    /// more.
    Switched(AsyncRuntime),
}

/// Decision taken on a failed run: what the new session state is and what
/// action the session reports, given the diagnostic text and the manifest.
pub open spec fn spec_handle_failure(
    m: SessionModel,
    stderr: Seq<char>,
    manifest: Option<Seq<char>>,
) -> (SessionModel, FailureAction) {
    if !spec_is_async_error(stderr) {
        (spec_rollback(m), FailureAction::RolledBack)
    } else if m.mode is Async {
        (m, FailureAction::KeptAsync)
    } else {
        match spec_detect_runtime(manifest) {
            Option::None => (spec_rollback(m), FailureAction::NoRuntime),
            Option::Some(r) => (
                SessionModel {
                    preamble: m.preamble,
                    body: m.body,
                    mode: Mode::Async(r),
                    snap_preamble: m.snap_preamble,
                    snap_body: m.snap_body,
                },
                FailureAction::Switched(r),
            ),
        }
    }
}

/// Submitting a fragment and then failing its run with a diagnostic that is
/// no asynchronous-context violation leaves both buffers exactly as they
/// were before the submission, whatever the mode.
pub proof fn lemma_failed_run_restores_buffers(
    m: SessionModel,
    block: Seq<char>,
    stderr: Seq<char>,
    manifest: Option<Seq<char>>,
)
    requires
        !spec_is_async_error(stderr),
    ensures
        ({
            let submitted = spec_add(m, block);
            let (after, act) = spec_handle_failure(submitted, stderr, manifest);
            act == FailureAction::RolledBack && after.preamble == m.preamble && after.body == m.body
                && after.mode == m.mode
        }),
{
    let submitted = spec_add(m, block);
    assert((m.preamble + spec_classify(block).0).take(m.preamble.len() as int) =~= m.preamble);
    assert((m.body + spec_classify(block).1).take(m.body.len() as int) =~= m.body);
}

/// An asynchronous-looking failure in synchronous mode with no runtime
/// declared in the manifest also restores both buffers.
pub proof fn lemma_no_runtime_restores_buffers(
    m: SessionModel,
    block: Seq<char>,
    stderr: Seq<char>,
    manifest: Option<Seq<char>>,
)
    requires
        m.mode == Mode::Sync,
        spec_is_async_error(stderr),
        spec_detect_runtime(manifest) is None,
    ensures
        ({
            let submitted = spec_add(m, block);
            let (after, act) = spec_handle_failure(submitted, stderr, manifest);
            act == FailureAction::NoRuntime && after.preamble == m.preamble && after.body == m.body
                && after.mode == Mode::Sync
        }),
{
    let submitted = spec_add(m, block);
    assert((m.preamble + spec_classify(block).0).take(m.preamble.len() as int) =~= m.preamble);
    assert((m.body + spec_classify(block).1).take(m.body.len() as int) =~= m.body);
}

/// From synchronous mode, an asynchronous-looking failure with a runtime
/// declared in the manifest switches the session to that runtime, keeps the
/// buffers, and the regenerated program text carries that runtime's
/// dispatch marker.
pub proof fn lemma_async_failure_switches(
    m: SessionModel,
    stderr: Seq<char>,
    manifest: Option<Seq<char>>,
    r: AsyncRuntime,
)
    requires
        m.mode == Mode::Sync,
        spec_is_async_error(stderr),
        spec_detect_runtime(manifest) == Option::Some(r),
    ensures
        ({
            let (after, act) = spec_handle_failure(m, stderr, manifest);
            act == FailureAction::Switched(r) && after.mode == Mode::Async(r) && after.preamble
                == m.preamble && after.body == m.body && spec_contains(
                spec_render(after.preamble, after.body, after.mode),
                spec_marker(r),
            )
        }),
{
    let (after, act) = spec_handle_failure(m, stderr, manifest);
    lemma_render_has_marker(after.preamble, after.body, r);
}

/// Once the session is in an asynchronous mode, submitting further code
/// whose run fails with an asynchronous-looking diagnostic never changes
/// the runtime and never rolls back the newly added lines.
pub proof fn lemma_async_mode_stable(
    m: SessionModel,
    block: Seq<char>,
    stderr: Seq<char>,
    manifest: Option<Seq<char>>,
    r: AsyncRuntime,
)
    requires
        m.mode == Mode::Async(r),
        spec_is_async_error(stderr),
    ensures
        ({
            let submitted = spec_add(m, block);
            let (after, act) = spec_handle_failure(submitted, stderr, manifest);
            act == FailureAction::KeptAsync && after == submitted && after.mode == Mode::Async(r)
                && after.preamble == m.preamble + spec_classify(block).0 && after.body == m.body
                + spec_classify(block).1
        }),
{
}

/// The state every reset returns to: empty buffers, synchronous mode, and a
/// cleared snapshot.
pub proof fn lemma_initial_state_is_sync_and_empty()
    ensures
        spec_init().preamble.len() == 0,
        spec_init().body.len() == 0,
        spec_init().mode == Mode::Sync,
        spec_init().snap_preamble == 0,
        spec_init().snap_body == 0,
{
}

/// Listing of the first `i` lines of a buffer, each prefixed by its
/// positional index.
pub open spec fn spec_listing(lines: Seq<Seq<char>>, i: int) -> Seq<char>
    decreases i,
{
    if i <= 0 {
        Seq::empty()
    } else {
        spec_listing(lines, i - 1) + spec_dec(i - 1) + ": "@ + lines[i - 1] + "\n"@
    }
}

/// Dump of one buffer: its indexed lines, or an explicit empty-state
/// marker.
pub open spec fn spec_buffer_dump(lines: Seq<Seq<char>>) -> Seq<char> {
    if lines.len() == 0 {
        "<empty>\n"@
    } else {
        spec_listing(lines, lines.len() as int)
    }
}

/// The textual name of a mode.
pub open spec fn spec_mode_line(mode: Mode) -> Seq<char> {
    match mode {
        Mode::Sync => "Sync\n"@,
        Mode::Async(AsyncRuntime::Tokio) => "Async(Tokio)\n"@,
        Mode::Async(AsyncRuntime::AsyncStd) => "Async(AsyncStd)\n"@,
        Mode::Async(AsyncRuntime::Smol) => "Async(Smol)\n"@,
    }
}

/// The full dump of a session: preamble, body, and mode.
pub open spec fn spec_show(m: SessionModel) -> Seq<char> {
    "--- PREAMBLE ---\n"@ + spec_buffer_dump(m.preamble) + "--- BODY ---\n"@ + spec_buffer_dump(
        m.body,
    ) + "--- MODE ---\n"@ + spec_mode_line(m.mode)
}

/// Appends the indexed listing of a buffer, or its empty-state marker.
fn push_dump(out: &mut String, lines: &Vec<String>)
    ensures
        final(out)@ == old(out)@ + spec_buffer_dump(lines.deep_view()),
{
    let ghost dv = lines.deep_view();
    let n = lines.len();
    if n == 0 {
        out.append("<empty>\n");
        return ;
    }
    let mut i: usize = 0;
    proof {
        assert(old(out)@ + spec_listing(dv, 0) =~= old(out)@);
    }
    while i < n
        invariant
            n == dv.len(),
            dv == lines.deep_view(),
            i <= n,
            out@ == old(out)@ + spec_listing(dv, i as int),
        decreases n - i,
    {
        let line: &String = &lines[i];
        proof {
            assert(line@ == dv[i as int]);
        }
        let num = usize_to_string(i);
        out.append(num.as_str());
        out.append(": ");
        out.append(line.as_str());
        out.append("\n");
        proof {
            assert(out@ =~= old(out)@ + (spec_listing(dv, i as int) + spec_dec(i as int) + ": "@
                + dv[i as int] + "\n"@));
        }
        i += 1;
    }
}

/// The set of positions named by a delete request.
pub open spec fn idx_set(indices: Seq<usize>) -> Set<int> {
    Set::new(|j: int| exists|k: int| 0 <= k < indices.len() && indices[k] == j)
}

/// The largest requested index, or -1 for an empty request.
pub open spec fn spec_max_index(indices: Seq<usize>) -> int
    decreases indices.len(),
{
    if indices.len() == 0 {
        -1
    } else {
        let m = spec_max_index(indices.drop_last());
        if indices.last() as int > m {
            indices.last() as int
        } else {
            m
        }
    }
}

/// The elements of `s` at positions from `p` on whose position is not in
/// `bad`, in order.
pub open spec fn spec_filter_from(s: Seq<Seq<char>>, bad: Set<int>, p: int) -> Seq<Seq<char>>
    decreases s.len() - p,
{
    if p < 0 || p >= s.len() {
        Seq::empty()
    } else if bad.contains(p) {
        spec_filter_from(s, bad, p + 1)
    } else {
        seq![s[p]] + spec_filter_from(s, bad, p + 1)
    }
}

/// A sequence with the positions in `bad` removed, order preserved.
pub open spec fn spec_remove_indices(s: Seq<Seq<char>>, bad: Set<int>) -> Seq<Seq<char>> {
    spec_filter_from(s, bad, 0)
}

/// Filtering against a set that names no position keeps the tail intact.
proof fn lemma_filter_no_bad(s: Seq<Seq<char>>, bad: Set<int>, p: int)
    requires
        0 <= p <= s.len(),
        forall|j: int| p <= j < s.len() ==> !bad.contains(j),
    ensures
        spec_filter_from(s, bad, p) == s.skip(p),
    decreases s.len() - p,
{
    if p >= s.len() {
        assert(s.skip(p) =~= Seq::<Seq<char>>::empty());
    } else {
        lemma_filter_no_bad(s, bad, p + 1);
        assert(seq![s[p]] + s.skip(p + 1) =~= s.skip(p));
    }
}

/// The session: owner of the buffers, mode, and snapshot.
pub struct Session {
    preamble: Vec<String>,
    body: Vec<String>,
    mode: Mode,
    prev_preamble_len: usize,
    prev_body_len: usize,
}

impl View for Session {
    type V = SessionModel;

    closed spec fn view(&self) -> SessionModel {
        SessionModel {
            preamble: self.preamble.deep_view(),
            body: self.body.deep_view(),
            mode: self.mode,
            snap_preamble: self.prev_preamble_len as int,
            snap_body: self.prev_body_len as int,
        }
    }
}

/// The largest index named by a request, if any.
fn max_index(indices: &[usize]) -> (m: Option<usize>)
    ensures
        indices@.len() == 0 <==> m is None,
        indices@.len() > 0 ==> (m matches Some(v) && v as int == spec_max_index(indices@)),
{
    let n = indices.len();
    if n == 0 {
        return None;
    }
    let mut best: usize = *vstd::slice::slice_index_get(indices, 0);
    let mut j: usize = 1;
    proof {
        assert(indices@.take(1).drop_last() =~= Seq::<usize>::empty());
        assert(indices@.take(1).last() == indices@[0]);
        assert(spec_max_index(Seq::<usize>::empty()) == -1);
        assert(spec_max_index(indices@.take(1)) == indices@[0] as int);
    }
    while j < n
        invariant
            1 <= j <= n,
            n == indices@.len(),
            best as int == spec_max_index(indices@.take(j as int)),
        decreases n - j,
    {
        let v = *vstd::slice::slice_index_get(indices, j);
        proof {
            assert(indices@.take(j + 1).drop_last() =~= indices@.take(j as int));
            assert(indices@.take(j + 1).last() == indices@[j as int]);
        }
        if v > best {
            best = v;
        }
        j += 1;
    }
    proof {
        assert(indices@.take(n as int) =~= indices@);
    }
    Some(best)
}

/// Whether a request names position `pos`.
fn names_position(indices: &[usize], pos: usize) -> (r: bool)
    ensures
        r == idx_set(indices@).contains(pos as int),
{
    let n = indices.len();
    let mut j: usize = 0;
    while j < n
        invariant
            j <= n,
            n == indices@.len(),
            forall|k: int| 0 <= k < j ==> indices@[k] != pos,
        decreases n - j,
    {
        if *vstd::slice::slice_index_get(indices, j) == pos {
            assert(idx_set(indices@).contains(pos as int));
            return true;
        }
        j += 1;
    }
    assert(!idx_set(indices@).contains(pos as int));
    false
}

/// Removes every named position from `buf`, highest first, so that earlier
/// removals do not shift the positions of later ones.
fn remove_positions(buf: &mut Vec<String>, indices: &[usize])
    ensures
        final(buf).deep_view() == spec_remove_indices(old(buf).deep_view(), idx_set(indices@)),
{
    let ghost orig = buf.deep_view();
    let ghost bad = idx_set(indices@);
    let mut p = buf.len();
    proof {
        assert(orig.take(p as int) =~= orig);
        assert(buf.deep_view() =~= orig.take(p as int) + spec_filter_from(orig, bad, p as int));
    }
    while p > 0
        invariant
            p <= orig.len(),
            bad == idx_set(indices@),
            buf.deep_view() == orig.take(p as int) + spec_filter_from(orig, bad, p as int),
        decreases p,
    {
        p -= 1;
        let ghost before = buf.deep_view();
        if names_position(indices, p) {
            proof {
                assert(before.len() == p + 1 + spec_filter_from(orig, bad, p + 1).len());
            }
            let _ = buf.remove(p);
            proof {
                assert(buf.deep_view() =~= before.remove(p as int));
                assert(before.remove(p as int) =~= orig.take(p as int) + spec_filter_from(
                    orig,
                    bad,
                    p + 1,
                ));
                assert(spec_filter_from(orig, bad, p as int) == spec_filter_from(orig, bad, p + 1));
            }
        } else {
            proof {
                assert(orig.take(p + 1) =~= orig.take(p as int) + seq![orig[p as int]]);
                assert(spec_filter_from(orig, bad, p as int) == seq![orig[p as int]]
                    + spec_filter_from(orig, bad, p + 1));
                assert(buf.deep_view() =~= orig.take(p as int) + spec_filter_from(
                    orig,
                    bad,
                    p as int,
                ));
            }
        }
    }
    proof {
        assert(orig.take(0) =~= Seq::<Seq<char>>::empty());
        assert(buf.deep_view() =~= spec_filter_from(orig, bad, 0));
    }
}

impl Session {
    /// A fresh session: empty buffers, synchronous mode, zero snapshot.
    pub fn new() -> (s: Session)
        ensures
            s@ == spec_init(),
    {
        let s = Session {
            preamble: Vec::new(),
            body: Vec::new(),
            mode: Mode::Sync,
            prev_preamble_len: 0,
            prev_body_len: 0,
        };
        proof {
            assert(s@.preamble =~= spec_init().preamble);
            assert(s@.body =~= spec_init().body);
        }
        s
    }

    /// Clears both buffers, returns to synchronous mode, and clears the
    /// snapshot, ending the current session epoch.
    pub fn reset(&mut self)
        ensures
            final(self)@ == spec_init(),
    {
        self.preamble.clear();
        self.body.clear();
        self.mode = Mode::Sync;
        self.prev_preamble_len = 0;
        self.prev_body_len = 0;
        proof {
            assert(self@.preamble =~= spec_init().preamble);
            assert(self@.body =~= spec_init().body);
        }
    }

    /// The ordered declaration-scope lines accumulated so far.
    pub fn preamble(&self) -> (r: &Vec<String>)
        ensures
            r.deep_view() == self@.preamble,
    {
        &self.preamble
    }

    /// The ordered statement-scope lines accumulated so far.
    pub fn body(&self) -> (r: &Vec<String>)
        ensures
            r.deep_view() == self@.body,
    {
        &self.body
    }

    /// The current mode of the session.
    pub fn mode(&self) -> (r: Mode)
        ensures
            r == self@.mode,
    {
        self.mode
    }

    /// Records the pre-submission snapshot, then classifies the fragment and
    /// appends its lines to the buffers.  Called exactly once per submitted
    /// fragment, immediately before the fragment is run.
    pub fn add_code_block(&mut self, block: &str)
        ensures
            final(self)@ == spec_add(old(self)@, block@),
    {
        self.prev_preamble_len = self.preamble.len();
        self.prev_body_len = self.body.len();
        let (mut pre, mut new_body) = classify_block(block);
        let ghost old_pre = self.preamble.deep_view();
        let ghost old_body = self.body.deep_view();
        let ghost added_pre = pre.deep_view();
        let ghost added_body = new_body.deep_view();
        self.preamble.append(&mut pre);
        self.body.append(&mut new_body);
        proof {
            assert(self.preamble.deep_view() =~= old_pre + added_pre);
            assert(self.body.deep_view() =~= old_body + added_body);
        }
    }

    /// Rolls both buffers back to the snapshot lengths, undoing the most
    /// recently appended fragment.
    fn rollback(&mut self)
        ensures
            final(self)@ == spec_rollback(old(self)@),
    {
        self.preamble.truncate(self.prev_preamble_len);
        self.body.truncate(self.prev_body_len);
        proof {
            assert(self.preamble.deep_view() =~= spec_rollback(old(self)@).preamble);
            assert(self.body.deep_view() =~= spec_rollback(old(self)@).body);
        }
    }

    /// Renders the complete program text for the current buffers and mode.
    pub fn render_program(&self) -> (out: String)
        ensures
            out@ == spec_render(self@.preamble, self@.body, self@.mode),
    {
        crate::render::render_program(&self.preamble, &self.body, self.mode)
    }

    /// Applies the recovery protocol to a failed run, given the captured
    /// diagnostic text and the manifest text (if readable):
    /// a diagnostic that does not look like an asynchronous-context
    /// violation rolls the fragment back; one that does leaves an already
    /// asynchronous session untouched (no second switch, no rollback);
    /// otherwise the highest-priority declared runtime is adopted and the
    /// caller is told to regenerate and rerun once, or, with no runtime
    /// declared, the fragment is rolled back.
    pub fn handle_run_failure(&mut self, stderr: &str, manifest: Option<&str>) -> (act:
        FailureAction)
        ensures
            final(self)@ == spec_handle_failure(old(self)@, stderr@, opt_text_view(manifest)).0,
            act == spec_handle_failure(old(self)@, stderr@, opt_text_view(manifest)).1,
    {
        if !looks_like_async_error(stderr) {
            self.rollback();
            FailureAction::RolledBack
        } else if matches!(self.mode, Mode::Async(_)) {
            FailureAction::KeptAsync
        } else {
            match detect_async_runtime(manifest) {
                None => {
                    self.rollback();
                    FailureAction::NoRuntime
                },
                Some(r) => {
                    self.mode = Mode::Async(r);
                    FailureAction::Switched(r)
                },
            }
        }
    }

    /// Dumps preamble, body, and mode as text: each buffer line prefixed by
    /// its positional index, an explicit marker for an empty buffer.
    pub fn show(&self) -> (out: String)
        ensures
            out@ == spec_show(self@),
    {
        let mut out = String::new();
        out.append("--- PREAMBLE ---\n");
        push_dump(&mut out, &self.preamble);
        let ghost after_pre = "--- PREAMBLE ---\n"@ + spec_buffer_dump(self@.preamble);
        proof {
            assert(out@ =~= after_pre);
        }
        out.append("--- BODY ---\n");
        push_dump(&mut out, &self.body);
        let ghost after_body = after_pre + "--- BODY ---\n"@ + spec_buffer_dump(self@.body);
        proof {
            assert(out@ =~= after_body);
        }
        out.append("--- MODE ---\n");
        match self.mode {
            Mode::Sync => out.append("Sync\n"),
            Mode::Async(AsyncRuntime::Tokio) => out.append("Async(Tokio)\n"),
            Mode::Async(AsyncRuntime::AsyncStd) => out.append("Async(AsyncStd)\n"),
            Mode::Async(AsyncRuntime::Smol) => out.append("Async(Smol)\n"),
        }
        proof {
            assert(out@ =~= spec_show(self@));
        }
        out
    }

    /// Removes the named positions from one buffer, atomically: if any named
    /// index lies outside the buffer, nothing changes and the rejection is
    /// reported with the offending index and the buffer's current length.
    /// Duplicate indices are harmless, and removal proceeds from the largest
    /// position down so earlier removals do not shift later ones.
    pub fn delete(&mut self, segment: Segment, indices: &[usize]) -> (r: Result<(), DeleteError>)
        ensures
            final(self)@.mode == old(self)@.mode,
            final(self)@.snap_preamble == old(self)@.snap_preamble,
            final(self)@.snap_body == old(self)@.snap_body,
            ({
                let target_len = if segment is Preamble {
                    old(self)@.preamble.len() as int
                } else {
                    old(self)@.body.len() as int
                };
                if spec_max_index(indices@) < target_len {
                    &&& r is Ok
                    &&& segment is Preamble ==> final(self)@.preamble == spec_remove_indices(
                        old(self)@.preamble,
                        idx_set(indices@),
                    ) && final(self)@.body == old(self)@.body
                    &&& segment is Body ==> final(self)@.body == spec_remove_indices(
                        old(self)@.body,
                        idx_set(indices@),
                    ) && final(self)@.preamble == old(self)@.preamble
                } else {
                    &&& r == Err::<(), DeleteError>(
                        (DeleteError {
                            segment: segment,
                            index: spec_max_index(indices@) as usize,
                            len: target_len as usize,
                        }),
                    )
                    &&& final(self)@ == old(self)@
                }
            }),
    {
        let target_len = match segment {
            Segment::Preamble => self.preamble.len(),
            Segment::Body => self.body.len(),
        };
        match max_index(indices) {
            None => {
                proof {
                    assert(indices@.len() == 0);
                    assert(spec_max_index(indices@) == -1);
                    lemma_filter_no_bad(old(self)@.preamble, idx_set(indices@), 0);
                    assert(old(self)@.preamble.skip(0) =~= old(self)@.preamble);
                    lemma_filter_no_bad(old(self)@.body, idx_set(indices@), 0);
                    assert(old(self)@.body.skip(0) =~= old(self)@.body);
                }
                Ok(())
            },
            Some(mx) => {
                if mx >= target_len {
                    Err(
                        DeleteError {
                            segment,
                            index: mx,
                            len: target_len,
                        },
                    )
                } else {
                    match segment {
                        Segment::Preamble => remove_positions(&mut self.preamble, indices),
                        Segment::Body => remove_positions(&mut self.body, indices),
                    }
                    Ok(())
                }
            },
        }
    }
}

} // verus!
