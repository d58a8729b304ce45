use seele::composer::execution::{Execution, Progress};
use seele::composer::report::javascript::{
    convert_report, do_convert, is_finite, wrap_reporter_source, ConvertError, JsValue, Number,
    Value,
};
use seele::composer::report::utils::{get_oj_status, status_of_name, ExecutionStatus};
use seele::composer::{plan_submission, progress_signal, StepSpec, SubmissionSignal};
use seele::conf::{COMPOSER_QUEUE_SIZE, SHUTDOWN_GRACE_SECOND, WORKER_QUEUE_SIZE};
use seele::entities::StepStatus;

fn same(a: &Value, b: &Value) -> bool {
    match (a, b) {
        (Value::Null, Value::Null) => true,
        (Value::Bool(x), Value::Bool(y)) => x == y,
        (Value::Number(x), Value::Number(y)) => x == y,
        (Value::String(x), Value::String(y)) => x == y,
        (Value::Array(x), Value::Array(y)) => {
            x.len() == y.len() && x.iter().zip(y).all(|(p, q)| same(p, q))
        }
        (Value::Object(x), Value::Object(y)) => {
            x.len() == y.len() && x.iter().zip(y).all(|(p, q)| p.0 == q.0 && same(&p.1, &q.1))
        }
        _ => false,
    }
}

fn field(name: &str, value: JsValue) -> (String, JsValue) {
    (name.to_string(), value)
}

fn made(name: &str, value: Value) -> (String, Value) {
    (name.to_string(), value)
}

#[test]
fn reporter_object_becomes_a_tree() {
    let float_num = 114.514f64;
    let returned = JsValue::Object(vec![field(
        "report",
        JsValue::Object(vec![
            field("str", JsValue::String("foo".to_string())),
            field("num", JsValue::Int(114)),
            field("float_num", JsValue::Float(float_num.to_bits())),
            field("obj", JsValue::Object(vec![field("bool", JsValue::Bool(true))])),
            field(
                "arr",
                JsValue::Array(vec![
                    JsValue::Int(1),
                    JsValue::Int(1),
                    JsValue::Int(4),
                    JsValue::Int(5),
                    JsValue::Int(1),
                    JsValue::Int(4),
                ]),
            ),
        ]),
    )]);
    let expected = Value::Object(vec![made(
        "report",
        Value::Object(vec![
            made("str", Value::String("foo".to_string())),
            made("num", Value::Number(Number::Int(114))),
            made("float_num", Value::Number(Number::Float(float_num.to_bits()))),
            made("obj", Value::Object(vec![made("bool", Value::Bool(true))])),
            made(
                "arr",
                Value::Array(
                    [1, 1, 4, 5, 1, 4].iter().map(|i| Value::Number(Number::Int(*i))).collect(),
                ),
            ),
        ]),
    )]);
    let tree = convert_report(&returned).unwrap();
    assert!(same(&tree, &expected));
    match &tree {
        Value::Object(fields) => match &fields[0].1 {
            Value::Object(report) => match &report[2].1 {
                Value::Number(Number::Float(bits)) => {
                    assert_eq!(f64::from_bits(*bits), 114.514);
                }
                other => panic!("unexpected value {:?}", other),
            },
            other => panic!("unexpected value {:?}", other),
        },
        other => panic!("unexpected value {:?}", other),
    }
}

#[test]
fn undefined_becomes_null() {
    assert!(same(&do_convert(&JsValue::Undefined).unwrap(), &Value::Null));
    assert!(same(&do_convert(&JsValue::Null).unwrap(), &Value::Null));
    let array = JsValue::Array(vec![JsValue::Undefined, JsValue::Bool(false), JsValue::Int(-3)]);
    assert!(same(
        &do_convert(&array).unwrap(),
        &Value::Array(vec![Value::Null, Value::Bool(false), Value::Number(Number::Int(-3))])
    ));
    assert!(same(&do_convert(&JsValue::Array(vec![])).unwrap(), &Value::Array(vec![])));
    assert!(same(&do_convert(&JsValue::Object(vec![])).unwrap(), &Value::Object(vec![])));
}

#[test]
fn floats_that_are_not_finite_fail() {
    assert!(is_finite(0f64.to_bits()));
    assert!(is_finite((-0f64).to_bits()));
    assert!(is_finite(f64::MAX.to_bits()));
    assert!(is_finite(f64::MIN.to_bits()));
    assert!(is_finite(f64::MIN_POSITIVE.to_bits()));
    assert!(is_finite(5e-324f64.to_bits()));
    assert!(!is_finite(f64::INFINITY.to_bits()));
    assert!(!is_finite(f64::NEG_INFINITY.to_bits()));
    assert!(!is_finite(f64::NAN.to_bits()));
    assert!(!is_finite(u64::MAX));
    assert_eq!(
        do_convert(&JsValue::Float(f64::NAN.to_bits())).err(),
        Some(ConvertError::InvalidFloat)
    );
    assert_eq!(
        do_convert(&JsValue::Float(f64::INFINITY.to_bits())).err(),
        Some(ConvertError::InvalidFloat)
    );
    assert!(same(
        &do_convert(&JsValue::Float(2.5f64.to_bits())).unwrap(),
        &Value::Number(Number::Float(2.5f64.to_bits()))
    ));
}

#[test]
fn first_bad_value_decides_the_error() {
    let nested = JsValue::Object(vec![
        field("a", JsValue::Int(1)),
        field(
            "b",
            JsValue::Array(vec![JsValue::Null, JsValue::Unknown, JsValue::Float(u64::MAX)]),
        ),
        field("c", JsValue::Float(f64::NAN.to_bits())),
    ]);
    assert_eq!(do_convert(&nested).err(), Some(ConvertError::UnknownValue));
    let other = JsValue::Array(vec![JsValue::Float(f64::NAN.to_bits()), JsValue::Unknown]);
    assert_eq!(do_convert(&other).err(), Some(ConvertError::InvalidFloat));
    assert_eq!(do_convert(&JsValue::Unknown).err(), Some(ConvertError::UnknownValue));
}

#[test]
fn reporter_must_return_an_object() {
    assert_eq!(convert_report(&JsValue::Int(1)).err(), Some(ConvertError::NotAnObject));
    assert_eq!(convert_report(&JsValue::Array(vec![])).err(), Some(ConvertError::NotAnObject));
    assert_eq!(convert_report(&JsValue::Undefined).err(), Some(ConvertError::NotAnObject));
    assert_eq!(
        convert_report(&JsValue::Object(vec![field("x", JsValue::Unknown)])).err(),
        Some(ConvertError::UnknownValue)
    );
    assert_eq!(ConvertError::InvalidFloat.message(), "Invalid float number");
    assert_eq!(ConvertError::UnknownValue.message(), "Unknown value detected");
    assert_eq!(
        ConvertError::NotAnObject.message(),
        "Unknown return value by the reporter script"
    );
}

#[test]
fn reporter_source_is_wrapped_into_a_function() {
    assert_eq!(
        wrap_reporter_source("return {report:{}}"),
        "( function(DATA){return {report:{}}} )( JSON.parse(DATA) )"
    );
    assert_eq!(wrap_reporter_source(""), "( function(DATA){} )( JSON.parse(DATA) )");
}

#[test]
fn progress_is_told_by_name() {
    let plan = plan_submission(&vec![
        StepSpec { name: "prepare".to_string(), needs: vec![] },
        StepSpec { name: "run".to_string(), needs: vec!["prepare".to_string()] },
    ])
    .ok()
    .unwrap();
    let run = Execution::new(plan);
    let signal: SubmissionSignal<u8> =
        progress_signal(&run, Progress { step: 1, status: StepStatus::Skipped });
    assert!(signal.is_progress());
    match signal {
        SubmissionSignal::Progress { step, status } => {
            assert_eq!(step, "run");
            assert_eq!(status, StepStatus::Skipped);
        }
        other => panic!("unexpected signal {:?}", other),
    }
    assert!(!SubmissionSignal::Completed(3u8).is_progress());
    assert_eq!((COMPOSER_QUEUE_SIZE, WORKER_QUEUE_SIZE, SHUTDOWN_GRACE_SECOND), (16, 16, 10));
}

#[test]
fn verdict_of_a_judged_test() {
    use_statuses();
}

fn use_statuses() {
    let all = [
        ExecutionStatus::Normal,
        ExecutionStatus::RuntimeError,
        ExecutionStatus::SignalTerminate,
        ExecutionStatus::UserTimeLimitExceeded,
        ExecutionStatus::WallTimeLimitExceeded,
        ExecutionStatus::MemoryLimitExceeded,
        ExecutionStatus::OutputLimitExceeded,
        ExecutionStatus::UnknownError,
    ];
    assert_eq!(get_oj_status(ExecutionStatus::Normal, ExecutionStatus::Normal), "ACCEPTED");
    assert_eq!(get_oj_status(ExecutionStatus::Normal, ExecutionStatus::RuntimeError), "WRONG_ANSWER");
    assert_eq!(
        get_oj_status(ExecutionStatus::Normal, ExecutionStatus::SignalTerminate),
        "UNKNOWN_ERROR"
    );
    let expected = [
        "RUNTIME_ERROR",
        "SIGNAL_TERMINATE",
        "USER_TIME_LIMIT_EXCEEDED",
        "WALL_TIME_LIMIT_EXCEEDED",
        "MEMORY_LIMIT_EXCEEDED",
        "OUTPUT_LIMIT_EXCEEDED",
        "UNKNOWN_ERROR",
    ];
    for compare in all {
        for (run, verdict) in all[1..].iter().zip(expected) {
            assert_eq!(get_oj_status(*run, compare), verdict);
        }
    }
}

#[test]
fn statuses_by_name() {
    let all = [
        ExecutionStatus::Normal,
        ExecutionStatus::RuntimeError,
        ExecutionStatus::SignalTerminate,
        ExecutionStatus::UserTimeLimitExceeded,
        ExecutionStatus::WallTimeLimitExceeded,
        ExecutionStatus::MemoryLimitExceeded,
        ExecutionStatus::OutputLimitExceeded,
        ExecutionStatus::UnknownError,
    ];
    for status in all {
        assert_eq!(status_of_name(status.name()), status);
        assert_eq!(status.is_failure(), status != ExecutionStatus::Normal);
    }
    assert_eq!(ExecutionStatus::WallTimeLimitExceeded.name(), "WALL_TIME_LIMIT_EXCEEDED");
    assert_eq!(status_of_name(""), ExecutionStatus::UnknownError);
    assert_eq!(status_of_name("normal"), ExecutionStatus::UnknownError);
    assert_eq!(status_of_name("NORMAL "), ExecutionStatus::UnknownError);
}
