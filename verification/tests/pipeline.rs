use libraw_nif::error::LibRawError;
use libraw_nif::pipeline::{captured_at, reply_outcome, Action, Call, Pipeline, Reply};

fn ok() -> Reply {
    Reply { is_null: false, code: 0 }
}

fn status(code: i32) -> Reply {
    Reply { is_null: false, code }
}

fn null(code: i32) -> Reply {
    Reply { is_null: true, code }
}

#[test]
fn decode_runs_libraw_steps_in_order() {
    let mut run = Pipeline::decode("/photos/a.CR3");
    let mut seen = Vec::new();
    let mut action = run.action();
    while let Action::Perform(call) = action {
        seen.push(call);
        action = run.advance(ok());
    }
    assert_eq!(
        seen,
        vec![
            Call::Init,
            Call::Open,
            Call::SetParams,
            Call::Unpack,
            Call::DcrawProcess,
            Call::MakeMemImage,
            Call::AllocBinary,
        ]
    );
    assert_eq!(action, Action::Finish(Ok(())));
}

#[test]
fn decode_hands_the_terminated_path_to_open() {
    let run = Pipeline::decode("/photos/a.CR3");
    assert_eq!(run.c_path(), Some(&b"/photos/a.CR3\0".to_vec()));
}

#[test]
fn decode_stops_at_first_failure() {
    let mut run = Pipeline::decode("/photos/a.CR3");
    assert_eq!(run.advance(ok()), Action::Perform(Call::Open));
    assert_eq!(run.advance(ok()), Action::Perform(Call::SetParams));
    assert_eq!(run.advance(ok()), Action::Perform(Call::Unpack));
    assert_eq!(run.advance(status(-6)), Action::Finish(Err(LibRawError::LibRaw(-6))));
    // a finished run ignores further replies
    assert_eq!(run.advance(ok()), Action::Finish(Err(LibRawError::LibRaw(-6))));
    assert_eq!(run.action(), Action::Finish(Err(LibRawError::LibRaw(-6))));
}

#[test]
fn decode_null_handle_is_null_pointer() {
    let mut run = Pipeline::decode("/photos/a.CR3");
    assert_eq!(run.action(), Action::Perform(Call::Init));
    assert_eq!(run.advance(null(0)), Action::Finish(Err(LibRawError::NullPointer)));
}

#[test]
fn decode_open_failure_is_libraw_error() {
    let mut run = Pipeline::decode("/photos/corrupt.NEF");
    run.advance(ok());
    assert_eq!(run.advance(status(-2)), Action::Finish(Err(LibRawError::LibRaw(-2))));
}

#[test]
fn decode_mem_image_failures() {
    let mut run = Pipeline::decode("/p.CR3");
    for _ in 0..5 {
        run.advance(ok());
    }
    assert_eq!(run.action(), Action::Perform(Call::MakeMemImage));
    let mut other = Pipeline::decode("/p.CR3");
    for _ in 0..5 {
        other.advance(ok());
    }
    assert_eq!(run.advance(null(-100)), Action::Finish(Err(LibRawError::LibRaw(-100))));
    assert_eq!(other.advance(null(0)), Action::Finish(Err(LibRawError::NullPointer)));
}

#[test]
fn decode_binary_allocation_failure_is_null_pointer() {
    let mut run = Pipeline::decode("/p.CR3");
    for _ in 0..6 {
        run.advance(ok());
    }
    assert_eq!(run.action(), Action::Perform(Call::AllocBinary));
    assert_eq!(run.advance(null(0)), Action::Finish(Err(LibRawError::NullPointer)));
}

#[test]
fn invalid_path_fails_before_open() {
    let mut run = Pipeline::decode("bad\0path.CR3");
    assert_eq!(run.c_path(), None);
    assert_eq!(run.action(), Action::Perform(Call::Init));
    assert_eq!(run.advance(ok()), Action::Finish(Err(LibRawError::InvalidPath)));
    assert_eq!(
        Action::Finish(Err(LibRawError::InvalidPath)),
        run.advance(ok())
    );
}

#[test]
fn invalid_path_with_null_handle_reports_null_pointer() {
    let mut run = Pipeline::decode("bad\0path.CR3");
    assert_eq!(run.advance(null(0)), Action::Finish(Err(LibRawError::NullPointer)));
}

#[test]
fn metadata_only_opens_the_file() {
    let mut run = Pipeline::metadata("/photos/a.CR3");
    let mut seen = Vec::new();
    let mut action = run.action();
    while let Action::Perform(call) = action {
        seen.push(call);
        action = run.advance(ok());
    }
    assert_eq!(seen, vec![Call::Init, Call::Open]);
    assert_eq!(action, Action::Finish(Ok(())));
}

#[test]
fn metadata_open_failure() {
    let mut run = Pipeline::metadata("/photos/a.txt");
    run.advance(ok());
    assert_eq!(run.advance(status(-100008)), Action::Finish(Err(LibRawError::LibRaw(-100008))));
}

#[test]
fn metadata_invalid_path() {
    let mut run = Pipeline::metadata("\0");
    assert_eq!(run.advance(ok()), Action::Finish(Err(LibRawError::InvalidPath)));
}

#[test]
fn reply_outcome_per_call() {
    assert_eq!(reply_outcome(Call::Init, null(5)), Err(LibRawError::NullPointer));
    assert_eq!(reply_outcome(Call::Init, status(5)), Ok(()));
    assert_eq!(reply_outcome(Call::Open, status(5)), Err(LibRawError::LibRaw(5)));
    assert_eq!(reply_outcome(Call::SetParams, null(5)), Ok(()));
    assert_eq!(reply_outcome(Call::Unpack, status(-1)), Err(LibRawError::LibRaw(-1)));
    assert_eq!(reply_outcome(Call::DcrawProcess, ok()), Ok(()));
    assert_eq!(reply_outcome(Call::MakeMemImage, status(-3)), Ok(()));
    assert_eq!(reply_outcome(Call::AllocBinary, null(0)), Err(LibRawError::NullPointer));
}

#[test]
fn captured_at_zero_is_absent() {
    assert_eq!(captured_at(0), None);
    assert_eq!(captured_at(1686825131), Some(1686825131));
}
