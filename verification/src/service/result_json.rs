//! Encoding of results as JSON that keeps every value.

use vstd::prelude::*;

use crate::sql::lir::ScalarType;
use crate::text;
use crate::text::{join, quoted, same_text};

verus! {

/// A scalar of a result. A float is given by its bits.
#[derive(Debug, PartialEq)]
pub enum ScalarValue {
    Text(String),
    Int64(i64),
    Float64(u64),
    Bool(bool),
    Null(ScalarType),
}

/// A part of a result.
#[derive(Debug, PartialEq)]
pub enum Datum {
    Null,
    Scalar(ScalarValue),
    Array(Vec<Datum>),
    Object(Vec<ObjectField>),
}

/// A named part of a result.
#[derive(Debug, PartialEq)]
pub struct ObjectField {
    pub name: String,
    pub datum: Datum,
}

/// A JSON value. A float is given by its bits.
#[derive(Debug, PartialEq)]
pub enum Json {
    Null,
    Bool(bool),
    Integer(i64),
    Float(u64),
    Text(String),
    List(Vec<Json>),
    Record(Vec<JsonField>),
}

/// A member of a JSON object.
#[derive(Debug, PartialEq)]
pub struct JsonField {
    pub name: String,
    pub value: Json,
}

/// The value of a [`ScalarValue`].
pub enum ScalarView {
    Text(Seq<char>),
    Int64(i64),
    Float64(u64),
    Bool(bool),
    Null(ScalarType),
}

/// The value of a [`Datum`].
pub enum DatumView {
    Null,
    Scalar(ScalarView),
    Array(Seq<DatumView>),
    Object(Seq<(Seq<char>, DatumView)>),
}

/// The value of a [`Json`].
pub enum JsonView {
    Null,
    Bool(bool),
    Integer(i64),
    Float(u64),
    Text(Seq<char>),
    List(Seq<JsonView>),
    Record(Seq<(Seq<char>, JsonView)>),
}

impl View for ScalarValue {
    type V = ScalarView;

    open spec fn view(&self) -> ScalarView {
        match *self {
            ScalarValue::Text(value) => ScalarView::Text(value@),
            ScalarValue::Int64(value) => ScalarView::Int64(value),
            ScalarValue::Float64(bits) => ScalarView::Float64(bits),
            ScalarValue::Bool(value) => ScalarView::Bool(value),
            ScalarValue::Null(scalar_type) => ScalarView::Null(scalar_type),
        }
    }
}

pub open spec fn datum_view(datum: Datum) -> DatumView
    decreases datum,
{
    match datum {
        Datum::Null => DatumView::Null,
        Datum::Scalar(value) => DatumView::Scalar(value@),
        Datum::Array(items) => DatumView::Array(
            Seq::new(
                items@.len(),
                |i: int|
                    if 0 <= i < items@.len() {
                        datum_view(items@[i])
                    } else {
                        DatumView::Null
                    },
            ),
        ),
        Datum::Object(fields) => DatumView::Object(
            Seq::new(
                fields@.len(),
                |i: int|
                    if 0 <= i < fields@.len() {
                        (fields@[i].name@, datum_view(fields@[i].datum))
                    } else {
                        (Seq::empty(), DatumView::Null)
                    },
            ),
        ),
    }
}

impl View for Datum {
    type V = DatumView;

    open spec fn view(&self) -> DatumView {
        datum_view(*self)
    }
}

pub open spec fn json_view(json: Json) -> JsonView
    decreases json,
{
    match json {
        Json::Null => JsonView::Null,
        Json::Bool(value) => JsonView::Bool(value),
        Json::Integer(value) => JsonView::Integer(value),
        Json::Float(bits) => JsonView::Float(bits),
        Json::Text(value) => JsonView::Text(value@),
        Json::List(items) => JsonView::List(
            Seq::new(
                items@.len(),
                |i: int|
                    if 0 <= i < items@.len() {
                        json_view(items@[i])
                    } else {
                        JsonView::Null
                    },
            ),
        ),
        Json::Record(fields) => JsonView::Record(
            Seq::new(
                fields@.len(),
                |i: int|
                    if 0 <= i < fields@.len() {
                        (fields@[i].name@, json_view(fields@[i].value))
                    } else {
                        (Seq::empty(), JsonView::Null)
                    },
            ),
        ),
    }
}

impl View for Json {
    type V = JsonView;

    open spec fn view(&self) -> JsonView {
        json_view(*self)
    }
}

/// Why a result cannot be encoded.
#[derive(Debug, PartialEq)]
pub enum EncodeError {
    /// JSON has no form for an infinite float or one that is no number.
    NonFiniteFloat,
    /// An object names a field twice.
    DuplicateField(String),
    /// What goes along with the result could not be encoded.
    Metadata(String),
    /// An affected count does not fit the wire format.
    AffectedCountOverflow,
}

/// The value of an [`EncodeError`].
pub enum EncodeErrorView {
    NonFiniteFloat,
    DuplicateField(Seq<char>),
    Metadata(Seq<char>),
    AffectedCountOverflow,
}

impl View for EncodeError {
    type V = EncodeErrorView;

    open spec fn view(&self) -> EncodeErrorView {
        match *self {
            EncodeError::NonFiniteFloat => EncodeErrorView::NonFiniteFloat,
            EncodeError::DuplicateField(name) => EncodeErrorView::DuplicateField(name@),
            EncodeError::Metadata(message) => EncodeErrorView::Metadata(message@),
            EncodeError::AffectedCountOverflow => EncodeErrorView::AffectedCountOverflow,
        }
    }
}

impl EncodeError {
    /// The message of an error.
    pub fn message(&self) -> (message: String)
        ensures
            message@ == (match self@ {
                EncodeErrorView::NonFiniteFloat => "result contains a non-finite float"@,
                EncodeErrorView::DuplicateField(name) => "result object contains duplicate field "@
                    + text::quoted_text(name),
                EncodeErrorView::Metadata(message) => "result metadata could not be encoded: "@
                    + message,
                EncodeErrorView::AffectedCountOverflow => {
                    "statement affected count exceeds the HTTP wire format"@
                },
            }),
    {
        match self {
            EncodeError::NonFiniteFloat => "result contains a non-finite float".to_owned(),
            EncodeError::DuplicateField(name) => {
                let shown = quoted(name.as_str());
                join("result object contains duplicate field ", shown.as_str())
            },
            EncodeError::Metadata(message) => {
                join("result metadata could not be encoded: ", message.as_str())
            },
            EncodeError::AffectedCountOverflow => {
                "statement affected count exceeds the HTTP wire format".to_owned()
            },
        }
    }
}

/// Whether the bits of a float stand for a finite number: its exponent is not
/// all ones.
pub open spec fn is_finite(bits: u64) -> bool {
    bits / 0x10_0000_0000_0000 % 2048 != 2047
}

/// A scalar as JSON.
pub open spec fn encoded_scalar(value: ScalarView) -> Result<JsonView, EncodeErrorView> {
    match value {
        ScalarView::Text(value) => Ok(JsonView::Text(value)),
        ScalarView::Int64(value) => Ok(JsonView::Integer(value)),
        ScalarView::Float64(bits) => if is_finite(bits) {
            Ok(JsonView::Float(bits))
        } else {
            Err(EncodeErrorView::NonFiniteFloat)
        },
        ScalarView::Bool(value) => Ok(JsonView::Bool(value)),
        ScalarView::Null(_) => Ok(JsonView::Null),
    }
}

/// A result as JSON.
pub open spec fn encoded(datum: DatumView) -> Result<JsonView, EncodeErrorView>
    decreases datum, 0nat,
{
    match datum {
        DatumView::Null => Ok(JsonView::Null),
        DatumView::Scalar(value) => encoded_scalar(value),
        DatumView::Array(items) => match encoded_items(items) {
            Ok(items) => Ok(JsonView::List(items)),
            Err(error) => Err(error),
        },
        DatumView::Object(fields) => match encoded_fields(fields) {
            Ok(fields) => Ok(JsonView::Record(fields)),
            Err(error) => Err(error),
        },
    }
}

/// The items of an array as JSON.
pub open spec fn encoded_items(items: Seq<DatumView>) -> Result<Seq<JsonView>, EncodeErrorView>
    decreases items, items.len(),
{
    if items.len() == 0 {
        Ok(Seq::empty())
    } else {
        match encoded_items(items.drop_last()) {
            Err(error) => Err(error),
            Ok(done) => match encoded(items.last()) {
                Err(error) => Err(error),
                Ok(last) => Ok(done.push(last)),
            },
        }
    }
}

/// Whether a run of fields names one.
pub open spec fn names(fields: Seq<(Seq<char>, JsonView)>, name: Seq<char>) -> bool {
    exists|i: int| 0 <= i < fields.len() && (#[trigger] fields[i]).0 == name
}

/// The fields of an object as JSON.
pub open spec fn encoded_fields(fields: Seq<(Seq<char>, DatumView)>) -> Result<
    Seq<(Seq<char>, JsonView)>,
    EncodeErrorView,
>
    decreases fields, fields.len(),
{
    if fields.len() == 0 {
        Ok(Seq::empty())
    } else {
        match encoded_fields(fields.drop_last()) {
            Err(error) => Err(error),
            Ok(done) => if names(done, fields.last().0) {
                Err(EncodeErrorView::DuplicateField(fields.last().0))
            } else {
                match encoded(fields.last().1) {
                    Err(error) => Err(error),
                    Ok(last) => Ok(done.push((fields.last().0, last))),
                }
            },
        }
    }
}

/// The view of a fallible encoding.
pub open spec fn json_result(result: Result<Json, EncodeError>) -> Result<JsonView, EncodeErrorView> {
    match result {
        Ok(json) => Ok(json@),
        Err(error) => Err(error@),
    }
}

fn scalar(value: &ScalarValue) -> (result: Result<Json, EncodeError>)
    ensures
        json_result(result) == encoded_scalar(value@),
{
    match value {
        ScalarValue::Text(value) => Ok(Json::Text(value.clone())),
        ScalarValue::Int64(value) => Ok(Json::Integer(*value)),
        ScalarValue::Float64(bits) => if *bits / 0x10_0000_0000_0000 % 2048 != 2047 {
            Ok(Json::Float(*bits))
        } else {
            Err(EncodeError::NonFiniteFloat)
        },
        ScalarValue::Bool(value) => Ok(Json::Bool(*value)),
        ScalarValue::Null(_) => Ok(Json::Null),
    }
}

fn has_name(fields: &Vec<JsonField>, name: &str) -> (found: bool)
    ensures
        found == (exists|i: int| 0 <= i < fields.len() && (#[trigger] fields@[i]).name@ == name@),
{
    let mut i: usize = 0;
    while i < fields.len()
        invariant
            i <= fields.len(),
            forall|k: int| 0 <= k < i ==> (#[trigger] fields@[k]).name@ != name@,
        decreases fields.len() - i,
    {
        if same_text(fields[i].name.as_str(), name) {
            assert(fields@[i as int].name@ == name@);
            return true;
        }
        i += 1;
    }
    false
}

pub open spec fn json_items(items: Seq<Json>) -> Seq<JsonView> {
    Seq::new(items.len(), |i: int| items[i]@)
}

pub open spec fn json_fields(fields: Seq<JsonField>) -> Seq<(Seq<char>, JsonView)> {
    Seq::new(fields.len(), |i: int| (fields[i].name@, fields[i].value@))
}

proof fn lemma_failed_prefix(items: Seq<DatumView>, i: int)
    requires
        0 <= i <= items.len(),
        encoded_items(items.take(i)) is Err,
    ensures
        encoded_items(items) == encoded_items(items.take(i)),
    decreases items.len() - i,
{
    if i == items.len() {
        assert(items.take(i) =~= items);
    } else {
        assert(items.take(i + 1).drop_last() =~= items.take(i));
        lemma_failed_prefix(items, i + 1);
    }
}

proof fn lemma_failed_fields(fields: Seq<(Seq<char>, DatumView)>, i: int)
    requires
        0 <= i <= fields.len(),
        encoded_fields(fields.take(i)) is Err,
    ensures
        encoded_fields(fields) == encoded_fields(fields.take(i)),
    decreases fields.len() - i,
{
    if i == fields.len() {
        assert(fields.take(i) =~= fields);
    } else {
        assert(fields.take(i + 1).drop_last() =~= fields.take(i));
        lemma_failed_fields(fields, i + 1);
    }
}

/// Encodes a result.
pub fn datum(value: &Datum) -> (result: Result<Json, EncodeError>)
    ensures
        json_result(result) == encoded(value@),
    decreases value,
{
    match value {
        Datum::Null => Ok(Json::Null),
        Datum::Scalar(value) => scalar(value),
        Datum::Array(items) => {
            let ghost all = value@->Array_0;
            let mut done: Vec<Json> = Vec::new();
            let mut i: usize = 0;
            assert(all.take(0) =~= Seq::empty());
            assert(json_items(done@) =~= Seq::empty());
            while i < items.len()
                invariant
                    i <= items.len(),
                    *value == Datum::Array(*items),
                    all == value@->Array_0,
                    all.len() == items.len(),
                    forall|k: int| 0 <= k < items.len() ==> #[trigger] all[k] == items@[k]@,
                    encoded_items(all.take(i as int)) == Ok::<Seq<JsonView>, EncodeErrorView>(
                        json_items(done@),
                    ),
                decreases items.len() - i,
            {
                assert(decreases_to!(*value => value->Array_0));
                assert(decreases_to!(value->Array_0 => value->Array_0[i as int]));
                proof {
                    assert(all.take(i + 1).drop_last() =~= all.take(i as int));
                    assert(all.take(i + 1).last() == all[i as int]);
                }
                match datum(&items[i]) {
                    Ok(json) => {
                        let ghost before = json_items(done@);
                        let ghost shown = json@;
                        done.push(json);
                        assert(json_items(done@) =~= before.push(shown));
                    },
                    Err(error) => {
                        proof {
                            lemma_failed_prefix(all, i + 1);
                        }
                        return Err(error);
                    },
                }
                i += 1;
            }
            let list = Json::List(done);
            proof {
                assert(all.take(i as int) =~= all);
                assert(list@->List_0 =~= json_items(done@));
            }
            Ok(list)
        },
        Datum::Object(fields) => {
            let ghost all = value@->Object_0;
            let mut done: Vec<JsonField> = Vec::new();
            let mut i: usize = 0;
            assert(all.take(0) =~= Seq::empty());
            assert(json_fields(done@) =~= Seq::empty());
            while i < fields.len()
                invariant
                    i <= fields.len(),
                    *value == Datum::Object(*fields),
                    all == value@->Object_0,
                    all.len() == fields.len(),
                    forall|k: int|
                        0 <= k < fields.len() ==> #[trigger] all[k] == (
                            fields@[k].name@,
                            fields@[k].datum@,
                        ),
                    encoded_fields(all.take(i as int)) == Ok::<
                        Seq<(Seq<char>, JsonView)>,
                        EncodeErrorView,
                    >(json_fields(done@)),
                decreases fields.len() - i,
            {
                assert(decreases_to!(*value => value->Object_0));
                assert(decreases_to!(value->Object_0 => value->Object_0[i as int]));
                assert(decreases_to!(value->Object_0[i as int] => value->Object_0[i as int].datum));
                proof {
                    assert(all.take(i + 1).drop_last() =~= all.take(i as int));
                    assert(all.take(i + 1).last() == all[i as int]);
                    let shown = json_fields(done@);
                    assert forall|k: int| 0 <= k < shown.len() implies (#[trigger] shown[k]).0
                        == done@[k].name@ by {}
                }
                if has_name(&done, fields[i].name.as_str()) {
                    proof {
                        let k = choose|k: int|
                            0 <= k < done.len() && (#[trigger] done@[k]).name@
                                == fields@[i as int].name@;
                        assert(json_fields(done@)[k].0 == fields@[i as int].name@);
                        lemma_failed_fields(all, i + 1);
                    }
                    return Err(EncodeError::DuplicateField(fields[i].name.clone()));
                }
                proof {
                    assert(!names(json_fields(done@), all[i as int].0)) by {
                        if names(json_fields(done@), all[i as int].0) {
                            let k = choose|k: int|
                                0 <= k < json_fields(done@).len() && (#[trigger] json_fields(
                                    done@,
                                )[k]).0 == all[i as int].0;
                            assert(done@[k].name@ == fields@[i as int].name@);
                        }
                    }
                }
                match datum(&fields[i].datum) {
                    Ok(json) => {
                        let ghost before = json_fields(done@);
                        let ghost shown = json@;
                        done.push(JsonField { name: fields[i].name.clone(), value: json });
                        assert(json_fields(done@) =~= before.push((all[i as int].0, shown)));
                    },
                    Err(error) => {
                        proof {
                            lemma_failed_fields(all, i + 1);
                        }
                        return Err(error);
                    },
                }
                i += 1;
            }
            let record = Json::Record(done);
            proof {
                assert(all.take(i as int) =~= all);
                assert(record@->Record_0 =~= json_fields(done@));
            }
            Ok(record)
        },
    }
}

/// A column of a row.
#[derive(Debug, PartialEq)]
pub struct RowField {
    pub name: String,
    pub value: ScalarValue,
}

/// The columns of a row.
pub open spec fn row_view(fields: Seq<RowField>) -> Seq<(Seq<char>, ScalarView)> {
    Seq::new(fields.len(), |i: int| (fields[i].name@, fields[i].value@))
}

/// The columns of a row as JSON.
pub open spec fn encoded_row(fields: Seq<(Seq<char>, ScalarView)>) -> Result<
    Seq<(Seq<char>, JsonView)>,
    EncodeErrorView,
>
    decreases fields.len(),
{
    if fields.len() == 0 {
        Ok(Seq::empty())
    } else {
        match encoded_row(fields.drop_last()) {
            Err(error) => Err(error),
            Ok(done) => match encoded_scalar(fields.last().1) {
                Err(error) => Err(error),
                Ok(last) => Ok(done.push((fields.last().0, last))),
            },
        }
    }
}

proof fn lemma_failed_row(fields: Seq<(Seq<char>, ScalarView)>, i: int)
    requires
        0 <= i <= fields.len(),
        encoded_row(fields.take(i)) is Err,
    ensures
        encoded_row(fields) == encoded_row(fields.take(i)),
    decreases fields.len() - i,
{
    if i == fields.len() {
        assert(fields.take(i) =~= fields);
    } else {
        assert(fields.take(i + 1).drop_last() =~= fields.take(i));
        lemma_failed_row(fields, i + 1);
    }
}

/// Encodes a row. A row has each column once.
pub fn row(fields: &Vec<RowField>) -> (result: Result<Json, EncodeError>)
    requires
        forall|i: int, k: int|
            0 <= i < k < fields.len() ==> (#[trigger] fields@[i]).name@ != (
            #[trigger] fields@[k]).name@,
    ensures
        json_result(result) == (match encoded_row(row_view(fields@)) {
            Ok(fields) => Ok(JsonView::Record(fields)),
            Err(error) => Err(error),
        }),
{
    let ghost all = row_view(fields@);
    let mut done: Vec<JsonField> = Vec::new();
    let mut i: usize = 0;
    assert(all.take(0) =~= Seq::empty());
    assert(json_fields(done@) =~= Seq::empty());
    while i < fields.len()
        invariant
            i <= fields.len(),
            all == row_view(fields@),
            encoded_row(all.take(i as int)) == Ok::<Seq<(Seq<char>, JsonView)>, EncodeErrorView>(
                json_fields(done@),
            ),
        decreases fields.len() - i,
    {
        proof {
            assert(all.take(i + 1).drop_last() =~= all.take(i as int));
            assert(all.take(i + 1).last() == all[i as int]);
        }
        match scalar(&fields[i].value) {
            Ok(json) => {
                let ghost before = json_fields(done@);
                let ghost shown = json@;
                done.push(JsonField { name: fields[i].name.clone(), value: json });
                assert(json_fields(done@) =~= before.push((all[i as int].0, shown)));
            },
            Err(error) => {
                proof {
                    lemma_failed_row(all, i + 1);
                }
                return Err(error);
            },
        }
        i += 1;
    }
    let record = Json::Record(done);
    proof {
        assert(all.take(i as int) =~= all);
        assert(record@->Record_0 =~= json_fields(done@));
    }
    Ok(record)
}

/// What a statement did. A control is given as it is written.
#[derive(Debug, PartialEq)]
pub struct StatementResult {
    pub name: String,
    pub affected: usize,
    pub control: Option<String>,
}

/// The plan of a statement, as it is written and as it is shown.
#[derive(Debug, PartialEq)]
pub struct StatementPlan {
    pub name: String,
    pub view: String,
    pub text: String,
}

/// What a program returned.
#[derive(Debug, PartialEq)]
pub struct ProgramResult {
    pub result: Datum,
    pub statements: Vec<StatementResult>,
    pub plans: Vec<StatementPlan>,
}

/// What a statement did, encoded.
#[derive(Debug, PartialEq)]
pub struct EncodedStatementResult {
    pub name: String,
    pub affected: usize,
    pub control: Option<String>,
}

/// The plan of a statement, encoded.
#[derive(Debug, PartialEq)]
pub struct EncodedStatementPlan {
    pub name: String,
    pub view: String,
    pub text: String,
}

/// The plans of a program, encoded.
#[derive(Debug, PartialEq)]
pub struct PlanEnvelope {
    pub statements: Vec<EncodedStatementPlan>,
}

/// What a program returned, encoded.
#[derive(Debug, PartialEq)]
pub struct EncodedProgramResult {
    pub result: Json,
    pub statements: Vec<EncodedStatementResult>,
    pub plan: Option<PlanEnvelope>,
}

/// Whether an encoded plan is the one of a statement.
pub open spec fn is_plan_of(encoded: EncodedStatementPlan, plan: StatementPlan) -> bool {
    encoded.name@ == plan.name@ && encoded.view@ == plan.view@ && encoded.text@ == plan.text@
}

/// Whether an encoded statement result is the one of a statement.
pub open spec fn is_result_of(encoded: EncodedStatementResult, result: StatementResult) -> bool {
    encoded.name@ == result.name@ && encoded.affected == result.affected && text::text_option(
        encoded.control,
    ) == text::text_option(result.control)
}

fn plans(values: &Vec<StatementPlan>) -> (envelope: PlanEnvelope)
    ensures
        envelope.statements.len() == values.len(),
        forall|i: int|
            0 <= i < values.len() ==> is_plan_of(#[trigger] envelope.statements@[i], values@[i]),
{
    let mut statements: Vec<EncodedStatementPlan> = Vec::new();
    let mut i: usize = 0;
    while i < values.len()
        invariant
            i <= values.len(),
            statements.len() == i,
            forall|k: int| 0 <= k < i ==> is_plan_of(#[trigger] statements@[k], values@[k]),
        decreases values.len() - i,
    {
        statements.push(
            EncodedStatementPlan {
                name: values[i].name.clone(),
                view: values[i].view.clone(),
                text: values[i].text.clone(),
            },
        );
        i += 1;
    }
    PlanEnvelope { statements }
}

/// Encodes what a program returned. A plan is there where the program was
/// asked for one.
pub fn program(value: &ProgramResult) -> (result: Result<EncodedProgramResult, EncodeError>)
    ensures
        match (result, encoded(value.result@)) {
            (Ok(found), Ok(json)) => {
                &&& found.result@ == json
                &&& found.statements.len() == value.statements.len()
                &&& forall|i: int|
                    0 <= i < value.statements.len() ==> is_result_of(
                        #[trigger] found.statements@[i],
                        value.statements@[i],
                    )
                &&& (found.plan is Some <==> value.plans.len() > 0)
                &&& (found.plan matches Some(plan) ==> plan.statements.len() == value.plans.len()
                    && forall|i: int|
                    0 <= i < value.plans.len() ==> is_plan_of(
                        #[trigger] plan.statements@[i],
                        value.plans@[i],
                    ))
            },
            (Err(error), Err(expected)) => error@ == expected,
            _ => false,
        },
{
    let json = match datum(&value.result) {
        Ok(json) => json,
        Err(error) => {
            return Err(error);
        },
    };
    let mut statements: Vec<EncodedStatementResult> = Vec::new();
    let mut i: usize = 0;
    while i < value.statements.len()
        invariant
            i <= value.statements.len(),
            statements.len() == i,
            forall|k: int|
                0 <= k < i ==> is_result_of(#[trigger] statements@[k], value.statements@[k]),
        decreases value.statements.len() - i,
    {
        let statement = &value.statements[i];
        statements.push(
            EncodedStatementResult {
                name: statement.name.clone(),
                affected: statement.affected,
                control: text::copy_text_option(&statement.control),
            },
        );
        i += 1;
    }
    let plan = if value.plans.len() == 0 {
        None
    } else {
        Some(plans(&value.plans))
    };
    Ok(EncodedProgramResult { result: json, statements, plan })
}

// ---- what an encoding keeps ----

/// A result with typed nulls as nulls.
pub open spec fn untyped(datum: DatumView) -> DatumView
    decreases datum,
{
    match datum {
        DatumView::Scalar(ScalarView::Null(_)) => DatumView::Null,
        DatumView::Array(items) => DatumView::Array(
            Seq::new(
                items.len(),
                |i: int|
                    if 0 <= i < items.len() {
                        untyped(items[i])
                    } else {
                        DatumView::Null
                    },
            ),
        ),
        DatumView::Object(fields) => DatumView::Object(
            Seq::new(
                fields.len(),
                |i: int|
                    if 0 <= i < fields.len() {
                        (fields[i].0, untyped(fields[i].1))
                    } else {
                        (Seq::empty(), DatumView::Null)
                    },
            ),
        ),
        _ => datum,
    }
}

/// The result that JSON stands for.
pub open spec fn decoded(json: JsonView) -> DatumView
    decreases json,
{
    match json {
        JsonView::Null => DatumView::Null,
        JsonView::Bool(value) => DatumView::Scalar(ScalarView::Bool(value)),
        JsonView::Integer(value) => DatumView::Scalar(ScalarView::Int64(value)),
        JsonView::Float(bits) => DatumView::Scalar(ScalarView::Float64(bits)),
        JsonView::Text(value) => DatumView::Scalar(ScalarView::Text(value)),
        JsonView::List(items) => DatumView::Array(
            Seq::new(
                items.len(),
                |i: int|
                    if 0 <= i < items.len() {
                        decoded(items[i])
                    } else {
                        DatumView::Null
                    },
            ),
        ),
        JsonView::Record(fields) => DatumView::Object(
            Seq::new(
                fields.len(),
                |i: int|
                    if 0 <= i < fields.len() {
                        (fields[i].0, decoded(fields[i].1))
                    } else {
                        (Seq::empty(), DatumView::Null)
                    },
            ),
        ),
    }
}

proof fn lemma_items_kept(items: Seq<DatumView>)
    ensures
        encoded_items(items) matches Ok(done) ==> done.len() == items.len() && forall|i: int|
            0 <= i < items.len() ==> decoded(#[trigger] done[i]) == untyped(items[i]),
    decreases items, items.len(),
{
    if items.len() > 0 {
        lemma_items_kept(items.drop_last());
        encodings_keep_every_value(items.last());
        if let Ok(done) = encoded_items(items) {
            let before = encoded_items(items.drop_last())->Ok_0;
            assert forall|i: int| 0 <= i < items.len() implies decoded(#[trigger] done[i])
                == untyped(items[i]) by {
                if i < items.len() - 1 {
                    assert(done[i] == before[i]);
                    assert(items.drop_last()[i] == items[i]);
                }
            }
        }
    }
}

proof fn lemma_fields_kept(fields: Seq<(Seq<char>, DatumView)>)
    ensures
        encoded_fields(fields) matches Ok(done) ==> done.len() == fields.len() && forall|i: int|
            0 <= i < fields.len() ==> (#[trigger] done[i]).0 == fields[i].0 && decoded(done[i].1)
                == untyped(fields[i].1),
    decreases fields, fields.len(),
{
    if fields.len() > 0 {
        lemma_fields_kept(fields.drop_last());
        assert(decreases_to!(fields => fields[fields.len() - 1]));
        assert(decreases_to!(fields[fields.len() - 1] => fields[fields.len() - 1].1));
        encodings_keep_every_value(fields.last().1);
        if let Ok(done) = encoded_fields(fields) {
            let before = encoded_fields(fields.drop_last())->Ok_0;
            assert forall|i: int| 0 <= i < fields.len() implies (#[trigger] done[i]).0
                == fields[i].0 && decoded(done[i].1) == untyped(fields[i].1) by {
                if i < fields.len() - 1 {
                    assert(done[i] == before[i]);
                    assert(fields.drop_last()[i] == fields[i]);
                }
            }
        }
    }
}

/// An encoding keeps every value: what it stands for is the result itself,
/// but for the types of nulls.
pub proof fn encodings_keep_every_value(datum: DatumView)
    ensures
        encoded(datum) matches Ok(json) ==> decoded(json) == untyped(datum),
    decreases datum, 0nat,
{
    match datum {
        DatumView::Array(items) => {
            lemma_items_kept(items);
            if let Ok(JsonView::List(done)) = encoded(datum) {
                assert(decoded(JsonView::List(done))->Array_0 =~= untyped(datum)->Array_0);
            }
        },
        DatumView::Object(fields) => {
            lemma_fields_kept(fields);
            if let Ok(JsonView::Record(done)) = encoded(datum) {
                assert(decoded(JsonView::Record(done))->Object_0 =~= untyped(datum)->Object_0);
            }
        },
        _ => {},
    }
}

/// Different results have different encodings, unless they differ in the types
/// of nulls only.
pub proof fn encodings_are_lossless(left: DatumView, right: DatumView)
    requires
        encoded(left) is Ok,
        encoded(left) == encoded(right),
    ensures
        untyped(left) == untyped(right),
{
    encodings_keep_every_value(left);
    encodings_keep_every_value(right);
}

/// Whether a result can be encoded: every float in it is finite, and every object
/// names each field once.
pub open spec fn is_encodable(datum: DatumView) -> bool
    decreases datum,
{
    match datum {
        DatumView::Null => true,
        DatumView::Scalar(ScalarView::Float64(bits)) => is_finite(bits),
        DatumView::Scalar(_) => true,
        DatumView::Array(items) => forall|i: int|
            0 <= i < items.len() ==> is_encodable(#[trigger] items[i]),
        DatumView::Object(fields) => {
            &&& forall|i: int, k: int|
                0 <= i < k < fields.len() ==> (#[trigger] fields[i]).0 != (#[trigger] fields[k]).0
            &&& forall|i: int| 0 <= i < fields.len() ==> is_encodable((#[trigger] fields[i]).1)
        },
    }
}

proof fn lemma_items_encodable(items: Seq<DatumView>)
    ensures
        encoded_items(items) is Ok <==> forall|i: int|
            0 <= i < items.len() ==> is_encodable(#[trigger] items[i]),
    decreases items, items.len(),
{
    if items.len() > 0 {
        let before = items.drop_last();
        lemma_items_encodable(before);
        encodings_succeed_where_they_can(items.last());
        assert(items.last() == items[items.len() - 1]);
        assert(forall|i: int| 0 <= i < before.len() ==> #[trigger] before[i] == items[i]);
        if encoded_items(items) is Ok {
            assert forall|i: int| 0 <= i < items.len() implies is_encodable(#[trigger] items[i]) by {
                if i < before.len() {
                    assert(is_encodable(before[i]));
                }
            }
        }
    }
}

proof fn lemma_fields_encodable(fields: Seq<(Seq<char>, DatumView)>)
    ensures
        encoded_fields(fields) is Ok <==> {
            &&& forall|i: int, k: int|
                0 <= i < k < fields.len() ==> (#[trigger] fields[i]).0 != (#[trigger] fields[k]).0
            &&& forall|i: int| 0 <= i < fields.len() ==> is_encodable((#[trigger] fields[i]).1)
        },
    decreases fields, fields.len(),
{
    if fields.len() > 0 {
        let before = fields.drop_last();
        let last = fields.len() - 1;
        lemma_fields_encodable(before);
        lemma_fields_kept(before);
        assert(decreases_to!(fields => fields[fields.len() - 1]));
        assert(decreases_to!(fields[fields.len() - 1] => fields[fields.len() - 1].1));
        encodings_succeed_where_they_can(fields.last().1);
        assert(fields.last() == fields[last]);
        assert(forall|i: int| 0 <= i < before.len() ==> #[trigger] before[i] == fields[i]);
        if let Ok(done) = encoded_fields(before) {
            if names(done, fields.last().0) {
                let i = choose|i: int|
                    0 <= i < done.len() && (#[trigger] done[i]).0 == fields.last().0;
                assert(before[i].0 == fields[last].0);
                assert(fields[i].0 == fields[last].0);
            } else {
                assert forall|i: int| 0 <= i < last implies (#[trigger] fields[i]).0
                    != fields[last].0 by {
                    assert(done[i].0 == before[i].0);
                }
            }
        }
        if encoded_fields(fields) is Ok {
            assert forall|i: int, k: int| 0 <= i < k < fields.len() implies (
            #[trigger] fields[i]).0 != (#[trigger] fields[k]).0 by {
                if k < last {
                    assert(before[i].0 != before[k].0);
                }
            }
            assert forall|i: int| 0 <= i < fields.len() implies is_encodable(
                (#[trigger] fields[i]).1,
            ) by {
                if i < last {
                    assert(is_encodable(before[i].1));
                }
            }
        }
    }
}

/// An encoding succeeds exactly when every float is finite and every object names
/// each field once.
pub proof fn encodings_succeed_where_they_can(datum: DatumView)
    ensures
        encoded(datum) is Ok <==> is_encodable(datum),
    decreases datum, 0nat,
{
    match datum {
        DatumView::Array(items) => lemma_items_encodable(items),
        DatumView::Object(fields) => lemma_fields_encodable(fields),
        _ => {},
    }
}

} // verus!
