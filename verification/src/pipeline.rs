use vstd::prelude::*;
use vstd::string::StringSliceAdditionalSpecFns;

use crate::error::{check, status_outcome, LibRawError};
use crate::raw::{c_path, c_path_of, handle_status, mem_image_outcome, mem_image_status, pointer_outcome};

verus! {

/// A foreign call of the decoding pipeline.
#[derive(Debug, Clone, Copy, PartialEq, Eq, Structural)]
pub enum Call {
    /// `libraw_init`: allocate a libraw handle.
    Init,
    /// `libraw_open_file` on the NUL-terminated path.
    Open,
    /// The parameter setters (white balance, auto-bright, bits per sample, gamma).
    SetParams,
    /// `libraw_unpack`.
    Unpack,
    /// `libraw_dcraw_process`.
    DcrawProcess,
    /// `libraw_dcraw_make_mem_image`.
    MakeMemImage,
    /// Allocation of the binary that carries the pixels back to the BEAM.
    AllocBinary,
}

/// What a foreign call handed back: whether the pointer it returned is null
/// (for calls that return one) and the status or error code it reported
/// (for calls that report one).
#[derive(Debug, Clone, Copy, PartialEq, Eq, Structural)]
pub struct Reply {
    pub is_null: bool,
    pub code: i32,
}

/// What the pipeline asks for next: a foreign call, or the end of the run
/// with its result.
#[derive(Debug, Clone, Copy, PartialEq, Eq)]
pub enum Action {
    Perform(Call),
    Finish(Result<(), LibRawError>),
}

/// The meaning of a reply to a call.
pub open spec fn call_outcome(call: Call, reply: Reply) -> Result<(), LibRawError> {
    match call {
        Call::Init => pointer_outcome(reply.is_null),
        Call::AllocBinary => pointer_outcome(reply.is_null),
        Call::Open => status_outcome(reply.code),
        Call::Unpack => status_outcome(reply.code),
        Call::DcrawProcess => status_outcome(reply.code),
        Call::SetParams => Ok(()),
        Call::MakeMemImage => mem_image_outcome(reply.is_null, reply.code),
    }
}

/// The calls of a full decode, in order: open, set the parameters, unpack,
/// process, make the in-memory bitmap and hand its pixels back.
pub open spec fn decode_plan() -> Seq<Call> {
    seq![
        Call::Init,
        Call::Open,
        Call::SetParams,
        Call::Unpack,
        Call::DcrawProcess,
        Call::MakeMemImage,
        Call::AllocBinary,
    ]
}

/// The calls of a metadata read: libraw fills the metadata while opening
/// the file, so nothing is unpacked or processed.
pub open spec fn metadata_plan() -> Seq<Call> {
    seq![Call::Init, Call::Open]
}

/// The state of a run: the plan of calls, the NUL-terminated path (`None`
/// when the path cannot be passed to C), how many calls have succeeded, and
/// the result once the run is over.
pub struct PipelineView {
    pub plan: Seq<Call>,
    pub path: Option<Seq<u8>>,
    pub pos: nat,
    pub outcome: Option<Result<(), LibRawError>>,
}

/// The path as it reaches libraw: its NUL-terminated bytes, or `None` when
/// it holds a NUL byte.
pub open spec fn path_for_c(path: Seq<u8>) -> Option<Seq<u8>> {
    match c_path_of(path) {
        Ok(b) => Some(b),
        Err(_) => None,
    }
}

/// Moves a run past what needs no foreign call: the end of the plan is
/// success, and an `Open` with a path that cannot be passed to C fails with
/// `InvalidPath` before libraw is called.
pub open spec fn settle(v: PipelineView) -> PipelineView {
    if v.outcome is None {
        if v.pos >= v.plan.len() {
            PipelineView { outcome: Some(Ok(())), ..v }
        } else if v.plan[v.pos as int] == Call::Open && v.path is None {
            PipelineView { outcome: Some(Err(LibRawError::InvalidPath)), ..v }
        } else {
            v
        }
    } else {
        v
    }
}

/// A run that has made no call yet.
pub open spec fn start(plan: Seq<Call>, path: Option<Seq<u8>>) -> PipelineView {
    settle(PipelineView { plan, path, pos: 0, outcome: None })
}

/// The run after the pending call answered `reply`: a failure ends the run
/// with that error; a success moves on to the next call. A finished run
/// stays as it is.
pub open spec fn advance(v: PipelineView, reply: Reply) -> PipelineView {
    if v.outcome is Some {
        v
    } else {
        let o = call_outcome(v.plan[v.pos as int], reply);
        if o is Err {
            PipelineView { outcome: Some(o), ..v }
        } else {
            settle(PipelineView { pos: v.pos + 1, ..v })
        }
    }
}

/// What a run asks for in the given state.
pub open spec fn action_of(v: PipelineView) -> Action {
    match v.outcome {
        Some(r) => Action::Finish(r),
        None => Action::Perform(v.plan[v.pos as int]),
    }
}

/// The state after the run answered each reply in turn.
pub open spec fn run(v: PipelineView, replies: Seq<Reply>) -> PipelineView
    decreases replies.len(),
{
    if replies.len() == 0 {
        v
    } else {
        advance(run(v, replies.drop_last()), replies.last())
    }
}

/// A state that a run can be in: a pending call lies within the plan and
/// is never an `Open` with a path that cannot be passed to C.
pub open spec fn well_formed(v: PipelineView) -> bool {
    &&& v.pos <= v.plan.len()
    &&& v.outcome is None ==> v.pos < v.plan.len()
    &&& v.outcome is None ==> !(v.plan[v.pos as int] == Call::Open && v.path is None)
}

/// The contents of an optional byte buffer.
pub open spec fn bytes_view(b: Option<Vec<u8>>) -> Option<Seq<u8>> {
    match b {
        Some(v) => Some(v@),
        None => None,
    }
}

/// A run of libraw calls, driven one reply at a time by the caller that
/// makes the foreign calls.
pub struct Pipeline {
    plan: Vec<Call>,
    path: Option<Vec<u8>>,
    pos: usize,
    outcome: Option<Result<(), LibRawError>>,
}

impl View for Pipeline {
    type V = PipelineView;

    closed spec fn view(&self) -> PipelineView {
        PipelineView {
            plan: self.plan@,
            path: bytes_view(self.path),
            pos: self.pos as nat,
            outcome: self.outcome,
        }
    }
}

impl Pipeline {
    #[verifier::type_invariant]
    closed spec fn inv(&self) -> bool {
        well_formed(self@)
    }

    /// The outcome that `settle` gives a run with no outcome yet at `pos`.
    fn settled_outcome(plan: &Vec<Call>, path_missing: bool, pos: usize) -> (o: Option<
        Result<(), LibRawError>,
    >)
        requires
            pos <= plan@.len(),
        ensures
            forall|path: Option<Seq<u8>>|
                (path is None) == path_missing ==> #[trigger] settle(
                    PipelineView { plan: plan@, path, pos: pos as nat, outcome: None },
                ).outcome == o,
    {
        if pos >= plan.len() {
            Some(Ok(()))
        } else if plan[pos] == Call::Open && path_missing {
            Some(Err(LibRawError::InvalidPath))
        } else {
            None
        }
    }

    fn with_plan(plan: Vec<Call>, path: &str) -> (p: Self)
        ensures
            p@ == start(plan@, path_for_c(path.spec_bytes())),
    {
        let c = match c_path(path) {
            Ok(b) => Some(b),
            Err(_) => None,
        };
        let ghost pv: Option<Seq<u8>> = bytes_view(c);
        assert(pv == path_for_c(path.spec_bytes()));
        let outcome = Self::settled_outcome(&plan, c.is_none(), 0);
        assert(settle(PipelineView { plan: plan@, path: pv, pos: 0, outcome: None }).outcome
            == outcome);
        let p = Pipeline { plan, path: c, pos: 0, outcome };
        assert(p@ =~= start(plan@, pv));
        p
    }

    /// A full decode of the file at `path`: open, set the parameters,
    /// unpack, process, make the in-memory bitmap, hand the pixels back.
    pub fn decode(path: &str) -> (p: Self)
        ensures
            p@ == start(decode_plan(), path_for_c(path.spec_bytes())),
            well_formed(p@),
    {
        let plan: Vec<Call> = vec![
            Call::Init,
            Call::Open,
            Call::SetParams,
            Call::Unpack,
            Call::DcrawProcess,
            Call::MakeMemImage,
            Call::AllocBinary,
        ];
        assert(plan@ =~= decode_plan());
        let p = Self::with_plan(plan, path);
        proof {
            use_type_invariant(&p);
        }
        p
    }

    /// A metadata read of the file at `path`: only the handle and the open.
    pub fn metadata(path: &str) -> (p: Self)
        ensures
            p@ == start(metadata_plan(), path_for_c(path.spec_bytes())),
            well_formed(p@),
    {
        let plan: Vec<Call> = vec![Call::Init, Call::Open];
        assert(plan@ =~= metadata_plan());
        let p = Self::with_plan(plan, path);
        proof {
            use_type_invariant(&p);
        }
        p
    }

    /// What the run asks for now.
    pub fn action(&self) -> (a: Action)
        ensures
            a == action_of(self@),
            well_formed(self@),
            a == Action::Perform(Call::Open) ==> self@.path is Some,
    {
        proof {
            use_type_invariant(self);
        }
        match self.outcome {
            Some(r) => Action::Finish(r),
            None => Action::Perform(self.plan[self.pos]),
        }
    }

    /// The NUL-terminated path to hand to `libraw_open_file`, or `None`
    /// when the path holds a NUL byte.
    pub fn c_path(&self) -> (b: Option<&Vec<u8>>)
        ensures
            match b {
                Some(v) => self@.path == Some(v@),
                None => self@.path is None,
            },
    {
        self.path.as_ref()
    }

    /// Feeds the reply of the pending call and returns what the run asks for
    /// next. A finished run ignores the reply.
    pub fn advance(&mut self, reply: Reply) -> (a: Action)
        ensures
            final(self)@ == advance(old(self)@, reply),
            a == action_of(final(self)@),
            well_formed(final(self)@),
            a == Action::Perform(Call::Open) ==> final(self)@.path is Some,
    {
        proof {
            use_type_invariant(&*self);
        }
        if self.outcome.is_none() {
            let o = reply_outcome(self.plan[self.pos], reply);
            if o.is_err() {
                self.outcome = Some(o);
            } else {
                assert(self.pos < self.plan.len());
                let next = self.pos + 1;
                let settled = Self::settled_outcome(&self.plan, self.path.is_none(), next);
                proof {
                    assert(settle(
                        PipelineView { plan: self.plan@, path: self@.path, pos: next as nat, outcome: None },
                    ).outcome == settled);
                }
                // Each assignment must keep the type invariant: mark the run
                // as over while the position moves, then set the outcome
                // that `settle` gives the new position.
                self.outcome = Some(Ok(()));
                self.pos = next;
                self.outcome = settled;
            }
        }
        self.action()
    }
}

/// The meaning of the reply to a call, as the pipeline reads it.
pub fn reply_outcome(call: Call, reply: Reply) -> (r: Result<(), LibRawError>)
    ensures
        r == call_outcome(call, reply),
{
    match call {
        Call::Init => handle_status(reply.is_null),
        Call::AllocBinary => handle_status(reply.is_null),
        Call::Open => check(reply.code),
        Call::Unpack => check(reply.code),
        Call::DcrawProcess => check(reply.code),
        Call::SetParams => Ok(()),
        Call::MakeMemImage => mem_image_status(reply.is_null, reply.code),
    }
}

} // verus!

verus! {

/// When a metadata read reports a timestamp, `captured_at` is it; libraw
/// reports `0` when the file holds none, and that is no timestamp.
pub fn captured_at(timestamp: u64) -> (t: Option<u64>)
    ensures
        t == (if timestamp == 0 { None } else { Some(timestamp) }),
{
    if timestamp == 0 {
        None
    } else {
        Some(timestamp)
    }
}

/// The meaning of the reply to a step of a plan, with the path check that
/// precedes `libraw_open_file` folded into the `Open` step.
pub open spec fn step_outcome(call: Call, path: Option<Seq<u8>>, reply: Reply) -> Result<(), LibRawError> {
    if call == Call::Open && path is None {
        Err(LibRawError::InvalidPath)
    } else {
        call_outcome(call, reply)
    }
}

/// The meanings of the replies to the first steps of a plan.
pub open spec fn step_outcomes(plan: Seq<Call>, path: Option<Seq<u8>>, replies: Seq<Reply>) -> Seq<Result<(), LibRawError>> {
    Seq::new(replies.len(), |i: int| step_outcome(plan[i], path, replies[i]))
}

/// The first failure in a sequence of outcomes, or success when none fails.
pub open spec fn first_error(os: Seq<Result<(), LibRawError>>) -> Result<(), LibRawError>
    decreases os.len(),
{
    if os.len() == 0 {
        Ok(())
    } else if os[0] is Err {
        os[0]
    } else {
        first_error(os.drop_first())
    }
}

proof fn lemma_success_is_unit(r: Result<(), LibRawError>)
    ensures
        r is Ok ==> r == Ok::<(), LibRawError>(()),
{
    if r is Ok {
        let u: () = r->Ok_0;
        assert(u == ());
    }
}

proof fn lemma_first_error_push(os: Seq<Result<(), LibRawError>>, o: Result<(), LibRawError>)
    ensures
        first_error(os.push(o)) == (if first_error(os) is Err { first_error(os) } else { o }),
    decreases os.len(),
{
    let p = os.push(o);
    if os.len() == 0 {
        assert(p[0] == o);
        assert(p.drop_first() =~= Seq::<Result<(), LibRawError>>::empty());
        assert(first_error(p.drop_first()) == Ok::<(), LibRawError>(()));
        assert(first_error(os) == Ok::<(), LibRawError>(()));
        if o is Err {
            assert(first_error(p) == o);
        } else {
            lemma_success_is_unit(o);
            assert(first_error(p) == first_error(p.drop_first()));
        }
    } else {
        assert(p[0] == os[0]);
        if os[0] is Err {
            assert(first_error(p) == os[0]);
            assert(first_error(os) == os[0]);
        } else {
            assert(p.drop_first() =~= os.drop_first().push(o));
            lemma_first_error_push(os.drop_first(), o);
            assert(first_error(p) == first_error(p.drop_first()));
            assert(first_error(os) == first_error(os.drop_first()));
        }
    }
}

proof fn lemma_run_keeps_shape(v: PipelineView, replies: Seq<Reply>)
    requires
        well_formed(v),
    ensures
        well_formed(run(v, replies)),
        run(v, replies).plan == v.plan,
        run(v, replies).path == v.path,
    decreases replies.len(),
{
    if replies.len() > 0 {
        lemma_run_keeps_shape(v, replies.drop_last());
    }
}

proof fn lemma_start_well_formed(plan: Seq<Call>, path: Option<Seq<u8>>)
    ensures
        well_formed(start(plan, path)),
        start(plan, path).plan == plan,
        start(plan, path).path == path,
{
}

proof fn lemma_run_from_start(plan: Seq<Call>, path: Option<Seq<u8>>, replies: Seq<Reply>)
    requires
        replies.len() <= plan.len(),
    ensures
        ({
            let v = run(start(plan, path), replies);
            let e = first_error(step_outcomes(plan, path, replies));
            let k = replies.len() as int;
            &&& e is Err ==> v.outcome == Some(e)
            &&& e is Ok ==> v.pos == k
            &&& e is Ok ==> v.outcome == (if k == plan.len() {
                Some(Ok::<(), LibRawError>(()))
            } else if plan[k] == Call::Open && path is None {
                Some(Err::<(), LibRawError>(LibRawError::InvalidPath))
            } else {
                None
            })
        }),
    decreases replies.len(),
{
    let k = replies.len() as int;
    lemma_start_well_formed(plan, path);
    if k == 0 {
        assert(step_outcomes(plan, path, replies) =~= Seq::<Result<(), LibRawError>>::empty());
    } else {
        let prev = replies.drop_last();
        lemma_run_from_start(plan, path, prev);
        lemma_run_keeps_shape(start(plan, path), prev);
        let os = step_outcomes(plan, path, prev);
        let o = step_outcome(plan[k - 1], path, replies.last());
        assert(step_outcomes(plan, path, replies) =~= os.push(o));
        lemma_first_error_push(os, o);
    }
}

/// The result of a run is the failure of the first step that fails (a path
/// that cannot be passed to C fails the `Open` step with `InvalidPath`), or
/// success when every step of the plan succeeds.
pub proof fn result_is_first_failure(plan: Seq<Call>, path: Option<Seq<u8>>, replies: Seq<Reply>)
    requires
        replies.len() == plan.len(),
    ensures
        run(start(plan, path), replies).outcome == Some(first_error(step_outcomes(plan, path, replies))),
{
    lemma_run_from_start(plan, path, replies);
    lemma_success_is_unit(first_error(step_outcomes(plan, path, replies)));
}

/// A run asks for the step of its plan that follows the replies it has had,
/// exactly when all of those succeeded; after the first failure it asks for
/// no further call and finishes with that failure.
pub proof fn calls_follow_plan(plan: Seq<Call>, path: Option<Seq<u8>>, replies: Seq<Reply>)
    requires
        replies.len() < plan.len(),
    ensures
        ({
            let e = first_error(step_outcomes(plan, path, replies));
            let k = replies.len() as int;
            action_of(run(start(plan, path), replies)) == (if e is Err {
                Action::Finish(e)
            } else if plan[k] == Call::Open && path is None {
                Action::Finish(Err(LibRawError::InvalidPath))
            } else {
                Action::Perform(plan[k])
            })
        }),
{
    lemma_run_from_start(plan, path, replies);
    lemma_start_well_formed(plan, path);
    lemma_run_keeps_shape(start(plan, path), replies);
    lemma_success_is_unit(first_error(step_outcomes(plan, path, replies)));
}

/// Once a run is over, further replies change nothing.
pub proof fn finished_run_is_final(v: PipelineView, replies: Seq<Reply>)
    requires
        v.outcome is Some,
    ensures
        run(v, replies) == v,
    decreases replies.len(),
{
    if replies.len() > 0 {
        finished_run_is_final(v, replies.drop_last());
    }
}

/// A decode whose steps all succeed asks for the calls of the libraw
/// pipeline in order (handle, open, parameters, unpack, dcraw processing,
/// in-memory bitmap, binary for the pixels) and then finishes with success.
pub proof fn decode_runs_in_order(path: Seq<u8>, replies: Seq<Reply>)
    requires
        !path.contains(0u8),
        replies.len() <= 7,
        forall|i: int| 0 <= i < replies.len() ==> (#[trigger] call_outcome(decode_plan()[i], replies[i])) is Ok,
    ensures
        action_of(run(start(decode_plan(), path_for_c(path)), replies)) == (if replies.len() < 7 {
            Action::Perform(
                seq![
                    Call::Init,
                    Call::Open,
                    Call::SetParams,
                    Call::Unpack,
                    Call::DcrawProcess,
                    Call::MakeMemImage,
                    Call::AllocBinary,
                ][replies.len() as int],
            )
        } else {
            Action::Finish(Ok(()))
        }),
{
    assert(decode_plan() =~= seq![
        Call::Init,
        Call::Open,
        Call::SetParams,
        Call::Unpack,
        Call::DcrawProcess,
        Call::MakeMemImage,
        Call::AllocBinary,
    ]);
    let p = path_for_c(path);
    assert(p == Some(path.push(0u8)));
    let os = step_outcomes(decode_plan(), p, replies);
    assert forall|i: int| 0 <= i < os.len() implies (#[trigger] os[i]) is Ok by {
        assert(call_outcome(decode_plan()[i], replies[i]) is Ok);
    }
    lemma_run_from_start(decode_plan(), p, replies);
    lemma_all_ok_first_error(os);
    lemma_start_well_formed(decode_plan(), p);
    lemma_run_keeps_shape(start(decode_plan(), p), replies);
}

proof fn lemma_all_ok_first_error(os: Seq<Result<(), LibRawError>>)
    requires
        forall|i: int| 0 <= i < os.len() ==> (#[trigger] os[i]) is Ok,
    ensures
        first_error(os) == Ok::<(), LibRawError>(()),
    decreases os.len(),
{
    if os.len() > 0 {
        assert(os[0] is Ok);
        lemma_all_ok_first_error(os.drop_first());
    }
}

/// A metadata read never asks for more than the handle and the open: no
/// parameters are set and nothing is unpacked, processed or copied.
pub proof fn metadata_only_opens(path: Option<Seq<u8>>, replies: Seq<Reply>)
    ensures
        action_of(run(start(metadata_plan(), path), replies)) is Finish
            || action_of(run(start(metadata_plan(), path), replies)) == Action::Perform(Call::Init)
            || action_of(run(start(metadata_plan(), path), replies)) == Action::Perform(Call::Open),
{
    lemma_start_well_formed(metadata_plan(), path);
    lemma_run_keeps_shape(start(metadata_plan(), path), replies);
}

/// A path that holds a NUL byte never reaches `libraw_open_file`, whatever
/// the plan and the replies.
pub proof fn invalid_path_never_opens(plan: Seq<Call>, path: Seq<u8>, replies: Seq<Reply>)
    requires
        path.contains(0u8),
    ensures
        action_of(run(start(plan, path_for_c(path)), replies)) != Action::Perform(Call::Open),
{
    lemma_start_well_formed(plan, path_for_c(path));
    lemma_run_keeps_shape(start(plan, path_for_c(path)), replies);
}

/// A decode of a path that holds a NUL byte, once the handle is allocated,
/// fails with `InvalidPath`.
pub proof fn invalid_path_fails_decode(path: Seq<u8>, replies: Seq<Reply>)
    requires
        path.contains(0u8),
        replies.len() == decode_plan().len(),
        call_outcome(Call::Init, replies[0]) is Ok,
    ensures
        run(start(decode_plan(), path_for_c(path)), replies).outcome == Some(
            Err::<(), LibRawError>(LibRawError::InvalidPath),
        ),
{
    let p = path_for_c(path);
    assert(p is None);
    let os = step_outcomes(decode_plan(), p, replies);
    result_is_first_failure(decode_plan(), p, replies);
    assert(decode_plan()[0] == Call::Init);
    assert(decode_plan()[1] == Call::Open);
    assert(os[0] is Ok);
    assert(os[1] == Err::<(), LibRawError>(LibRawError::InvalidPath));
    assert(os.drop_first()[0] == os[1]);
    assert(first_error(os.drop_first()) == os[1]);
    assert(first_error(os) == first_error(os.drop_first()));
}

} // verus!

verus! {

/// What each reply means. Handle allocation and binary allocation fail,
/// with `NullPointer`, exactly on a null pointer. Open, unpack and dcraw
/// processing succeed exactly on status code zero and otherwise fail with
/// the libraw error carrying that code. Setting the parameters cannot
/// fail. Making the bitmap fails exactly on a null image, with the code
/// libraw wrote or `NullPointer` when it wrote none.
pub proof fn reply_meaning(reply: Reply)
    ensures
        call_outcome(Call::Init, reply) is Ok <==> !reply.is_null,
        reply.is_null ==> call_outcome(Call::Init, reply) == Err::<(), LibRawError>(LibRawError::NullPointer),
        call_outcome(Call::AllocBinary, reply) is Ok <==> !reply.is_null,
        reply.is_null ==> call_outcome(Call::AllocBinary, reply) == Err::<(), LibRawError>(
            LibRawError::NullPointer,
        ),
        call_outcome(Call::Open, reply) is Ok <==> reply.code == 0,
        call_outcome(Call::Unpack, reply) is Ok <==> reply.code == 0,
        call_outcome(Call::DcrawProcess, reply) is Ok <==> reply.code == 0,
        reply.code != 0 ==> call_outcome(Call::Open, reply) == Err::<(), LibRawError>(
            LibRawError::LibRaw(reply.code),
        ),
        reply.code != 0 ==> call_outcome(Call::Unpack, reply) == Err::<(), LibRawError>(
            LibRawError::LibRaw(reply.code),
        ),
        reply.code != 0 ==> call_outcome(Call::DcrawProcess, reply) == Err::<(), LibRawError>(
            LibRawError::LibRaw(reply.code),
        ),
        call_outcome(Call::SetParams, reply) is Ok,
        call_outcome(Call::MakeMemImage, reply) is Ok <==> !reply.is_null,
        reply.is_null && reply.code != 0 ==> call_outcome(Call::MakeMemImage, reply) == Err::<
            (),
            LibRawError,
        >(LibRawError::LibRaw(reply.code)),
        reply.is_null && reply.code == 0 ==> call_outcome(Call::MakeMemImage, reply) == Err::<
            (),
            LibRawError,
        >(LibRawError::NullPointer),
{
}

/// A decode with a path that C accepts, whose calls succeed up to one that
/// fails, finishes with that call's failure and asks for nothing after it.
/// In particular, a nonzero status from open, unpack or dcraw processing
/// finishes the decode with the libraw error carrying that status.
pub proof fn decode_stops_at_failure(path: Seq<u8>, replies: Seq<Reply>)
    requires
        !path.contains(0u8),
        1 <= replies.len() <= decode_plan().len(),
        forall|i: int| 0 <= i < replies.len() - 1 ==> (#[trigger] call_outcome(decode_plan()[i], replies[i])) is Ok,
        call_outcome(decode_plan()[replies.len() - 1], replies.last()) is Err,
    ensures
        action_of(run(start(decode_plan(), path_for_c(path)), replies)) == Action::Finish(
            call_outcome(decode_plan()[replies.len() - 1], replies.last()),
        ),
        ({
            let c = decode_plan()[replies.len() - 1];
            (c == Call::Open || c == Call::Unpack || c == Call::DcrawProcess)
                ==> action_of(run(start(decode_plan(), path_for_c(path)), replies)) == Action::Finish(
                Err(LibRawError::LibRaw(replies.last().code)),
            )
        }),
{
    let p = path_for_c(path);
    assert(p == Some(path.push(0u8)));
    let k = replies.len() - 1;
    let prev = replies.drop_last();
    let os = step_outcomes(decode_plan(), p, replies);
    let os_prev = step_outcomes(decode_plan(), p, prev);
    assert forall|i: int| 0 <= i < os_prev.len() implies (#[trigger] os_prev[i]) is Ok by {
        assert(prev[i] == replies[i]);
        assert(call_outcome(decode_plan()[i], replies[i]) is Ok);
    }
    lemma_all_ok_first_error(os_prev);
    let o = step_outcome(decode_plan()[k], p, replies.last());
    assert(os =~= os_prev.push(o));
    lemma_first_error_push(os_prev, o);
    lemma_run_from_start(decode_plan(), p, replies);
    reply_meaning(replies.last());
}

} // verus!
