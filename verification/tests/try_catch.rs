use futility::try_;
use std::error::Error;

fn test_failure() -> Result<(), Box<dyn Error>> {
    Err("Always Fails".into())
}

#[test]
fn try_catch() {
    let mut errored: Option<Box<dyn Error>> = None;

    try_(
        || -> Result<(), Box<dyn Error>> {
            test_failure()?;
            Ok(())
        },
        |err| {
            errored = Some(err);
        },
    );

    assert!(errored.is_some());
}

#[test]
fn try_catch_ret_val() {
    let mut errored: Option<Box<dyn Error>> = None;

    let val = try_(
        || -> Result<&'static str, Box<dyn Error>> { Ok("Will not fail") },
        |err| {
            errored = Some(err);
            "use this if failed"
        },
    );

    assert!(errored.is_none());
    assert_eq!(val, "Will not fail");
}

#[test]
fn try_catch_failure_stops_try_region_and_yields_catch_value() {
    let mut after_failure_ran = false;

    let val: i32 = try_(
        || -> Result<i32, String> {
            Err::<(), String>("nope".to_string())?;
            after_failure_ran = true;
            Ok(1)
        },
        |err| {
            assert_eq!(err, "nope");
            2
        },
    );

    assert_eq!(val, 2);
    assert!(!after_failure_ran);
}
