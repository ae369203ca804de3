use inference_engine::{Error, InferenceEngineResultCode};

#[test]
fn success_becomes_ok() {
    let result = InferenceEngineResultCode::Success.into_result(|| String::from("unused"));
    assert!(matches!(result, Ok(())));
}

#[test]
fn success_never_asks_for_the_message() {
    let mut asked = false;
    let result = InferenceEngineResultCode::Success.into_result(|| {
        asked = true;
        String::from("unused")
    });
    assert!(result.is_ok());
    assert!(!asked);
}

#[test]
fn error_becomes_sys_error_with_the_last_message() {
    let result =
        InferenceEngineResultCode::Error.into_result(|| String::from("failed to load model"));
    match result {
        Err(Error::SysError(message)) => assert_eq!(message, "failed to load model"),
        other => panic!("unexpected result: {:?}", other),
    }
}

#[test]
fn error_asks_for_the_message_once() {
    let mut asked = 0;
    let result = InferenceEngineResultCode::Error.into_result(|| {
        asked += 1;
        String::from("No graph was found in the protobuf.")
    });
    assert_eq!(asked, 1);
    match result {
        Err(Error::SysError(message)) => {
            assert_eq!(message, "No graph was found in the protobuf.")
        }
        other => panic!("unexpected result: {:?}", other),
    }
}

#[test]
fn error_with_an_empty_message_is_still_an_error() {
    let result = InferenceEngineResultCode::Error.into_result(String::new);
    assert!(matches!(result, Err(Error::SysError(ref message)) if message.is_empty()));
}

#[test]
fn codes_compare_by_variant() {
    assert_eq!(InferenceEngineResultCode::Success, InferenceEngineResultCode::Success);
    assert_eq!(InferenceEngineResultCode::Error, InferenceEngineResultCode::Error);
    assert_ne!(InferenceEngineResultCode::Success, InferenceEngineResultCode::Error);
    let code = InferenceEngineResultCode::Error;
    let copy = code;
    assert_eq!(code, copy);
}
