//! Errors and results, as they are told to clients.

use rad::service::error::{
    ConflictFailure, ConflictReason, ErrorKind, ErrorReason, ExecError, Failure, InvalidFailure,
    InvalidReason, NotFoundReason, Stage,
};
use rad::service::result_json::{
    datum, program, row, Datum, EncodeError, EncodedProgramResult, Json, ObjectField,
    ProgramResult, RowField, ScalarValue, StatementPlan, StatementResult,
};
use rad::sql::lir::ScalarType;

#[test]
fn planner_reason_survives_the_executor_boundary() {
    let error = ExecError {
        kind: ErrorKind::InvalidInput,
        reason: ErrorReason::UnknownColumn,
        message: "binding: unknown column \"missing\"".into(),
    };

    assert_eq!(error.reason, ErrorReason::UnknownColumn);
    assert_eq!(
        Failure::from_exec(&error),
        Failure::Invalid(InvalidFailure {
            stage: Stage::Binding,
            reason: InvalidReason::UnknownColumn,
            detail: "binding: unknown column \"missing\"".into(),
            location: None,
            diagnostics: Vec::new(),
        })
    );
}

#[test]
fn retryability_classes_do_not_collapse() {
    let constraint = ExecError {
        kind: ErrorKind::ConstraintViolation,
        reason: ErrorReason::ConstraintViolation,
        message: "duplicate primary key".into(),
    };
    let conflict = ExecError {
        kind: ErrorKind::Conflict,
        reason: ErrorReason::SerializableConflict,
        message: "transaction raced".into(),
    };

    assert!(matches!(
        Failure::from_exec(&constraint),
        Failure::Invalid(InvalidFailure {
            reason: InvalidReason::ConstraintViolation,
            ..
        })
    ));
    assert!(matches!(
        Failure::from_exec(&conflict),
        Failure::Conflict(ConflictFailure {
            reason: ConflictReason::SerializableConflict,
            ..
        })
    ));
}

#[test]
fn an_internal_failure_hides_its_diagnostic_from_the_reason() {
    let error = ExecError {
        kind: ErrorKind::CorruptData,
        reason: ErrorReason::Internal,
        message: "checksum".into(),
    };
    match Failure::from_exec(&error) {
        Failure::Internal(internal) => {
            assert_eq!(internal.stage, Stage::Storage);
            assert_eq!(internal.stage(), Stage::Storage);
            assert_eq!(internal.clone(), internal);
            assert_eq!(internal.diagnostic(), "checksum");
        }
        other => panic!("not internal: {other:?}"),
    }
    match Failure::not_found(
        Stage::Execution,
        NotFoundReason::Transaction,
        "gone".into(),
        None,
    ) {
        Failure::NotFound(missing) => assert_eq!(missing.reason.as_str(), "transaction_not_found"),
        other => panic!("not a missing resource: {other:?}"),
    }
}

fn value(json: &Json) -> serde_json::Value {
    match json {
        Json::Null => serde_json::Value::Null,
        Json::Bool(value) => serde_json::Value::Bool(*value),
        Json::Integer(value) => serde_json::Value::from(*value),
        Json::Float(bits) => serde_json::Value::from(f64::from_bits(*bits)),
        Json::Text(text) => serde_json::Value::from(text.as_str()),
        Json::List(items) => serde_json::Value::Array(items.iter().map(value).collect()),
        Json::Record(fields) => serde_json::Value::Object(
            fields
                .iter()
                .map(|field| (field.name.clone(), value(&field.value)))
                .collect(),
        ),
    }
}

fn parsed(text: &str) -> serde_json::Value {
    serde_json::from_str(text).unwrap()
}

#[test]
fn encodes_nested_results_without_losing_int64_or_null_shape() {
    let encoded = datum(&Datum::Object(vec![
        ObjectField {
            name: "id".into(),
            datum: Datum::Scalar(ScalarValue::Int64(i64::MAX)),
        },
        ObjectField {
            name: "child".into(),
            datum: Datum::Null,
        },
        ObjectField {
            name: "items".into(),
            datum: Datum::Array(vec![Datum::Object(vec![ObjectField {
                name: "name".into(),
                datum: Datum::Scalar(ScalarValue::Text("rad".into())),
            }])]),
        },
    ]))
    .unwrap();

    assert_eq!(
        value(&encoded),
        parsed(r#"{"id": 9223372036854775807, "child": null, "items": [{"name": "rad"}]}"#)
    );
}

#[test]
fn rejects_values_json_cannot_represent_losslessly() {
    assert!(matches!(
        datum(&Datum::Scalar(ScalarValue::Float64(f64::NAN.to_bits()))),
        Err(EncodeError::NonFiniteFloat)
    ));
    assert!(matches!(
        datum(&Datum::Object(vec![
            ObjectField {
                name: "x".into(),
                datum: Datum::Null,
            },
            ObjectField {
                name: "x".into(),
                datum: Datum::Scalar(ScalarValue::Null(ScalarType::Text)),
            },
        ])),
        Err(EncodeError::DuplicateField(field)) if field == "x"
    ));
    assert!(matches!(
        datum(&Datum::Scalar(ScalarValue::Float64(
            f64::INFINITY.to_bits()
        ))),
        Err(EncodeError::NonFiniteFloat)
    ));
    assert!(matches!(
        datum(&Datum::Scalar(ScalarValue::Float64(1.5f64.to_bits()))),
        Ok(Json::Float(bits)) if f64::from_bits(bits) == 1.5
    ));
}

fn encoded_value(encoded: &EncodedProgramResult) -> serde_json::Value {
    let statements: Vec<serde_json::Value> = encoded
        .statements
        .iter()
        .map(|statement| {
            let mut fields = serde_json::Map::new();
            fields.insert("name".into(), statement.name.as_str().into());
            fields.insert("affected".into(), statement.affected.into());
            fields.insert(
                "control".into(),
                match &statement.control {
                    Some(text) => parsed(text),
                    None => serde_json::Value::Null,
                },
            );
            serde_json::Value::Object(fields)
        })
        .collect();
    let mut fields = serde_json::Map::new();
    fields.insert("result".into(), value(&encoded.result));
    fields.insert("statements".into(), serde_json::Value::Array(statements));
    if let Some(plan) = &encoded.plan {
        fields.insert("plan".into(), plan.statements.len().into());
    }
    serde_json::Value::Object(fields)
}

#[test]
fn program_results_always_emit_a_typed_control_slot() {
    let encoded = program(&ProgramResult {
        result: Datum::Null,
        statements: vec![StatementResult {
            name: "read".into(),
            affected: 0,
            control: None,
        }],
        plans: Vec::new(),
    })
    .unwrap();

    assert_eq!(
        encoded_value(&encoded),
        parsed(
            r#"{"result": null, "statements": [{"name": "read", "affected": 0, "control": null}]}"#
        )
    );
}

#[test]
fn a_program_with_plans_has_an_envelope() {
    let encoded = program(&ProgramResult {
        result: Datum::Scalar(ScalarValue::Bool(true)),
        statements: Vec::new(),
        plans: vec![StatementPlan {
            name: "read".into(),
            view: "{}".into(),
            text: "scan".into(),
        }],
    })
    .unwrap();
    let plan = encoded.plan.expect("an envelope");
    assert_eq!(plan.statements.len(), 1);
    assert_eq!(plan.statements[0].text, "scan");
}

#[test]
fn rows_encode_each_column() {
    let encoded = row(&vec![
        RowField {
            name: "a".into(),
            value: ScalarValue::Bool(true),
        },
        RowField {
            name: "b".into(),
            value: ScalarValue::Null(ScalarType::Text),
        },
    ])
    .unwrap();
    assert_eq!(value(&encoded), parsed(r#"{"a": true, "b": null}"#));
}

#[test]
fn encoding_errors_say_what_is_wrong() {
    assert!(!EncodeError::NonFiniteFloat.message().is_empty());
    assert!(EncodeError::DuplicateField("x".into()).message().contains('x'));
}
