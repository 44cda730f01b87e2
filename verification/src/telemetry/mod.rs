//! Recording of measurements.
//!
//! Measurements go to meters. Before meters are active nothing is recorded on
//! them.

use vstd::prelude::*;

pub mod instruments;
pub mod system;

use crate::telemetry::instruments::Instrument;

verus! {

/// The value of an attribute.
#[derive(Debug, PartialEq)]
pub enum AttributeValue {
    Text(String),
    Integer(i64),
    Flag(bool),
}

/// What a measurement is recorded under.
#[derive(Debug, PartialEq)]
pub struct Attribute {
    pub key: &'static str,
    pub value: AttributeValue,
}

/// How much is recorded: an amount to add, one more, one fewer, a level, a
/// time in nanoseconds, or a real number by its bits.
#[derive(Clone, Copy, Debug, PartialEq, Eq)]
pub enum Amount {
    Count(u64),
    Up,
    Down,
    Level(i64),
    Nanoseconds(u128),
    Bits(u64),
}

/// One measurement.
#[derive(Debug, PartialEq)]
pub struct Measurement {
    pub instrument: Instrument,
    pub amount: Amount,
    pub attributes: Vec<Attribute>,
}

/// The value of an attribute's value.
pub enum AttributeValueView {
    Text(Seq<char>),
    Integer(i64),
    Flag(bool),
}

/// The value of an [`Attribute`].
pub struct AttributeView {
    pub key: Seq<char>,
    pub value: AttributeValueView,
}

/// The value of a [`Measurement`].
#[verifier::ext_equal]
pub struct MeasurementView {
    pub instrument: Instrument,
    pub amount: Amount,
    pub attributes: Seq<AttributeView>,
}

impl View for Attribute {
    type V = AttributeView;

    open spec fn view(&self) -> AttributeView {
        AttributeView {
            key: self.key@,
            value: match self.value {
                AttributeValue::Text(value) => AttributeValueView::Text(value@),
                AttributeValue::Integer(value) => AttributeValueView::Integer(value),
                AttributeValue::Flag(value) => AttributeValueView::Flag(value),
            },
        }
    }
}

pub open spec fn attributes_view(attributes: Seq<Attribute>) -> Seq<AttributeView> {
    Seq::new(attributes.len(), |i: int| attributes[i]@)
}

impl View for Measurement {
    type V = MeasurementView;

    open spec fn view(&self) -> MeasurementView {
        MeasurementView {
            instrument: self.instrument,
            amount: self.amount,
            attributes: attributes_view(self.attributes@),
        }
    }
}

/// Where measurements go.
#[derive(Debug)]
pub struct Meters {
    pub active: bool,
    pub recorded: Vec<Measurement>,
}

/// The value of [`Meters`].
#[verifier::ext_equal]
pub struct MetersView {
    pub active: bool,
    pub recorded: Seq<MeasurementView>,
}

impl View for Meters {
    type V = MetersView;

    open spec fn view(&self) -> MetersView {
        MetersView {
            active: self.active,
            recorded: Seq::new(self.recorded@.len(), |i: int| self.recorded@[i]@),
        }
    }
}

/// Meters after measurements: recorded in order where the meters are active,
/// dropped where they are not.
pub open spec fn after(meters: MetersView, measurements: Seq<MeasurementView>) -> MetersView {
    if meters.active {
        MetersView { recorded: meters.recorded + measurements, ..meters }
    } else {
        meters
    }
}

/// A measurement.
pub open spec fn measured(
    instrument: Instrument,
    amount: Amount,
    attributes: Seq<AttributeView>,
) -> MeasurementView {
    MeasurementView { instrument, amount, attributes }
}

/// A text attribute.
pub open spec fn labelled(key: Seq<char>, value: Seq<char>) -> AttributeView {
    AttributeView { key, value: AttributeValueView::Text(value) }
}

/// A whole-number attribute.
pub open spec fn numbered(key: Seq<char>, value: i64) -> AttributeView {
    AttributeView { key, value: AttributeValueView::Integer(value) }
}

/// A yes-or-no attribute.
pub open spec fn flagged(key: Seq<char>, value: bool) -> AttributeView {
    AttributeView { key, value: AttributeValueView::Flag(value) }
}

fn label(key: &'static str, value: &str) -> (attribute: Attribute)
    ensures
        attribute@ == labelled(key@, value@),
{
    Attribute { key, value: AttributeValue::Text(value.to_owned()) }
}

fn number(key: &'static str, value: i64) -> (attribute: Attribute)
    ensures
        attribute@ == numbered(key@, value),
{
    Attribute { key, value: AttributeValue::Integer(value) }
}

fn flag(key: &'static str, value: bool) -> (attribute: Attribute)
    ensures
        attribute@ == flagged(key@, value),
{
    Attribute { key, value: AttributeValue::Flag(value) }
}

fn no_attributes() -> (attributes: Vec<Attribute>)
    ensures
        attributes_view(attributes@) == Seq::<AttributeView>::empty(),
{
    let attributes: Vec<Attribute> = Vec::new();
    assert(attributes_view(attributes@) =~= Seq::empty());
    attributes
}

fn one_attribute(first: Attribute) -> (attributes: Vec<Attribute>)
    ensures
        attributes_view(attributes@) == seq![first@],
{
    let mut attributes: Vec<Attribute> = Vec::new();
    attributes.push(first);
    assert(attributes_view(attributes@) =~= seq![first@]);
    attributes
}

fn two_attributes(first: Attribute, second: Attribute) -> (attributes: Vec<Attribute>)
    ensures
        attributes_view(attributes@) == seq![first@, second@],
{
    let mut attributes: Vec<Attribute> = Vec::new();
    attributes.push(first);
    attributes.push(second);
    assert(attributes_view(attributes@) =~= seq![first@, second@]);
    attributes
}

fn three_attributes(first: Attribute, second: Attribute, third: Attribute) -> (attributes: Vec<
    Attribute,
>)
    ensures
        attributes_view(attributes@) == seq![first@, second@, third@],
{
    let mut attributes: Vec<Attribute> = Vec::new();
    attributes.push(first);
    attributes.push(second);
    attributes.push(third);
    assert(attributes_view(attributes@) =~= seq![first@, second@, third@]);
    attributes
}

impl Meters {
    /// Meters that record nothing yet.
    pub fn new() -> (meters: Meters)
        ensures
            meters@ == (MetersView { active: false, recorded: Seq::empty() }),
    {
        let meters = Meters { active: false, recorded: Vec::new() };
        assert(meters@ =~= MetersView { active: false, recorded: Seq::empty() });
        meters
    }

    /// Activates the meters.
    pub fn activate(&mut self)
        ensures
            final(self)@ == (MetersView { active: true, ..old(self)@ }),
    {
        self.active = true;
        assert(self@ =~= MetersView { active: true, ..old(self)@ });
    }

    /// Takes what was recorded.
    pub fn take(&mut self) -> (measurements: Vec<Measurement>)
        ensures
            final(self)@ == (MetersView { recorded: Seq::empty(), ..old(self)@ }),
            measurements@ == old(self).recorded@,
    {
        let mut taken: Vec<Measurement> = Vec::new();
        std::mem::swap(&mut self.recorded, &mut taken);
        assert(self@ =~= MetersView { recorded: Seq::empty(), ..old(self)@ });
        taken
    }

    fn record(&mut self, instrument: Instrument, amount: Amount, attributes: Vec<Attribute>)
        ensures
            final(self)@ == after(
                old(self)@,
                seq![measured(instrument, amount, attributes_view(attributes@))],
            ),
    {
        if self.active {
            self.recorded.push(Measurement { instrument, amount, attributes });
        }
        assert(self@ =~= after(
            old(self)@,
            seq![measured(instrument, amount, attributes_view(attributes@))],
        ));
    }
}

/// Whether measurements are recorded.
pub fn enabled(meters: &Meters) -> (yes: bool)
    ensures
        yes == meters@.active,
{
    meters.active
}

/// An HTTP request has started.
pub fn http_started(meters: &mut Meters, method: &str)
    ensures
        final(meters)@ == after(old(meters)@, seq![
            measured(
                Instrument::HttpActive,
                Amount::Up,
                seq![labelled("http.request.method"@, method@)],
            ),
        ]),
{
    meters.record(Instrument::HttpActive, Amount::Up, one_attribute(label("http.request.method", method)));
}

/// An HTTP request has finished.
pub fn http_finished(meters: &mut Meters, method: &str, status: u16, nanoseconds: u128)
    ensures
        final(meters)@ == after(old(meters)@, seq![
            measured(
                Instrument::HttpActive,
                Amount::Down,
                seq![labelled("http.request.method"@, method@)],
            ),
            measured(
                Instrument::HttpRequests,
                Amount::Count(1),
                seq![labelled("http.request.method"@, method@), numbered("http.response.status_code"@, status as i64)],
            ),
            measured(
                Instrument::HttpDuration,
                Amount::Nanoseconds(nanoseconds),
                seq![labelled("http.request.method"@, method@), numbered("http.response.status_code"@, status as i64)],
            ),
        ]),
{
    meters.record(Instrument::HttpActive, Amount::Down, one_attribute(label("http.request.method", method)));
    meters.record(Instrument::HttpRequests, Amount::Count(1), two_attributes(label("http.request.method", method), number("http.response.status_code", status as i64)));
    meters.record(Instrument::HttpDuration, Amount::Nanoseconds(nanoseconds), two_attributes(label("http.request.method", method), number("http.response.status_code", status as i64)));
}

/// A program has started.
pub fn program_started(meters: &mut Meters, transport: &str)
    ensures
        final(meters)@ == after(old(meters)@, seq![
            measured(
                Instrument::ProgramActive,
                Amount::Up,
                seq![labelled("rad.transport"@, transport@)],
            ),
        ]),
{
    meters.record(Instrument::ProgramActive, Amount::Up, one_attribute(label("rad.transport", transport)));
}

/// A program was admitted for execution.
pub fn program_admitted_started(meters: &mut Meters)
    ensures
        final(meters)@ == after(old(meters)@, seq![
            measured(
                Instrument::ProgramAdmittedActive,
                Amount::Up,
                Seq::empty(),
            ),
        ]),
{
    meters.record(Instrument::ProgramAdmittedActive, Amount::Up, no_attributes());
}

/// An admitted program has finished.
pub fn program_admitted_finished(meters: &mut Meters)
    ensures
        final(meters)@ == after(old(meters)@, seq![
            measured(
                Instrument::ProgramAdmittedActive,
                Amount::Down,
                Seq::empty(),
            ),
        ]),
{
    meters.record(Instrument::ProgramAdmittedActive, Amount::Down, no_attributes());
}

/// A program waits for execution.
pub fn program_queue_started(meters: &mut Meters)
    ensures
        final(meters)@ == after(old(meters)@, seq![
            measured(
                Instrument::ProgramQueueActive,
                Amount::Up,
                Seq::empty(),
            ),
        ]),
{
    meters.record(Instrument::ProgramQueueActive, Amount::Up, no_attributes());
}

/// A program has waited for execution.
pub fn program_queue_finished(meters: &mut Meters, nanoseconds: u128)
    ensures
        final(meters)@ == after(old(meters)@, seq![
            measured(
                Instrument::ProgramQueueActive,
                Amount::Down,
                Seq::empty(),
            ),
            measured(
                Instrument::ProgramQueueDuration,
                Amount::Nanoseconds(nanoseconds),
                Seq::empty(),
            ),
        ]),
{
    meters.record(Instrument::ProgramQueueActive, Amount::Down, no_attributes());
    meters.record(Instrument::ProgramQueueDuration, Amount::Nanoseconds(nanoseconds), no_attributes());
}

/// A program no longer waits for execution.
pub fn program_queue_cancelled(meters: &mut Meters)
    ensures
        final(meters)@ == after(old(meters)@, seq![
            measured(
                Instrument::ProgramQueueActive,
                Amount::Down,
                Seq::empty(),
            ),
        ]),
{
    meters.record(Instrument::ProgramQueueActive, Amount::Down, no_attributes());
}

/// What a finished program did.
#[derive(Clone, Copy, Debug)]
pub struct ProgramMeasurement<'a> {
    pub transport: &'a str,
    pub status: &'a str,
    pub nanoseconds: u128,
    pub result_rows: u64,
    pub affected_rows: u64,
    pub statements: u64,
    pub dry_run: bool,
}

/// A program has finished.
pub fn program_finished(meters: &mut Meters, measurement: ProgramMeasurement<'_>)
    ensures
        final(meters)@ == after(old(meters)@, seq![
            measured(
                Instrument::ProgramActive,
                Amount::Down,
                seq![labelled("rad.transport"@, measurement.transport@)],
            ),
            measured(
                Instrument::ProgramExecutions,
                Amount::Count(1),
                seq![labelled("rad.transport"@, measurement.transport@), labelled("rad.status"@, measurement.status@), flagged("rad.program.dry_run"@, measurement.dry_run)],
            ),
            measured(
                Instrument::ProgramDuration,
                Amount::Nanoseconds(measurement.nanoseconds),
                seq![labelled("rad.transport"@, measurement.transport@), labelled("rad.status"@, measurement.status@), flagged("rad.program.dry_run"@, measurement.dry_run)],
            ),
            measured(
                Instrument::ProgramResultRows,
                Amount::Count(measurement.result_rows),
                seq![labelled("rad.transport"@, measurement.transport@), labelled("rad.status"@, measurement.status@), flagged("rad.program.dry_run"@, measurement.dry_run)],
            ),
            measured(
                Instrument::ProgramAffectedRows,
                Amount::Count(measurement.affected_rows),
                seq![labelled("rad.transport"@, measurement.transport@), labelled("rad.status"@, measurement.status@), flagged("rad.program.dry_run"@, measurement.dry_run)],
            ),
            measured(
                Instrument::ProgramStatements,
                Amount::Count(measurement.statements),
                seq![labelled("rad.transport"@, measurement.transport@)],
            ),
        ]),
{
    meters.record(Instrument::ProgramActive, Amount::Down, one_attribute(label("rad.transport", measurement.transport)));
    meters.record(Instrument::ProgramExecutions, Amount::Count(1), three_attributes(label("rad.transport", measurement.transport), label("rad.status", measurement.status), flag("rad.program.dry_run", measurement.dry_run)));
    meters.record(Instrument::ProgramDuration, Amount::Nanoseconds(measurement.nanoseconds), three_attributes(label("rad.transport", measurement.transport), label("rad.status", measurement.status), flag("rad.program.dry_run", measurement.dry_run)));
    meters.record(Instrument::ProgramResultRows, Amount::Count(measurement.result_rows), three_attributes(label("rad.transport", measurement.transport), label("rad.status", measurement.status), flag("rad.program.dry_run", measurement.dry_run)));
    meters.record(Instrument::ProgramAffectedRows, Amount::Count(measurement.affected_rows), three_attributes(label("rad.transport", measurement.transport), label("rad.status", measurement.status), flag("rad.program.dry_run", measurement.dry_run)));
    meters.record(Instrument::ProgramStatements, Amount::Count(measurement.statements), one_attribute(label("rad.transport", measurement.transport)));
}

/// A statement has finished.
pub fn statement_finished(meters: &mut Meters, kind: &str, source: &str, status: &str, planning: u128, execution: u128, rows: u64)
    ensures
        final(meters)@ == after(old(meters)@, seq![
            measured(
                Instrument::StatementExecutions,
                Amount::Count(1),
                seq![labelled("rad.statement.kind"@, kind@), labelled("rad.statement.source"@, source@), labelled("rad.status"@, status@)],
            ),
            measured(
                Instrument::StatementDuration,
                Amount::Nanoseconds(execution),
                seq![labelled("rad.statement.kind"@, kind@), labelled("rad.statement.source"@, source@), labelled("rad.status"@, status@)],
            ),
            measured(
                Instrument::StatementRows,
                Amount::Count(rows),
                seq![labelled("rad.statement.kind"@, kind@), labelled("rad.statement.source"@, source@), labelled("rad.status"@, status@)],
            ),
            measured(
                Instrument::PlannerDuration,
                Amount::Nanoseconds(planning),
                seq![labelled("rad.statement.kind"@, kind@), labelled("rad.statement.source"@, source@), labelled("rad.status"@, status@)],
            ),
        ]),
{
    meters.record(Instrument::StatementExecutions, Amount::Count(1), three_attributes(label("rad.statement.kind", kind), label("rad.statement.source", source), label("rad.status", status)));
    meters.record(Instrument::StatementDuration, Amount::Nanoseconds(execution), three_attributes(label("rad.statement.kind", kind), label("rad.statement.source", source), label("rad.status", status)));
    meters.record(Instrument::StatementRows, Amount::Count(rows), three_attributes(label("rad.statement.kind", kind), label("rad.statement.source", source), label("rad.status", status)));
    meters.record(Instrument::PlannerDuration, Amount::Nanoseconds(planning), three_attributes(label("rad.statement.kind", kind), label("rad.statement.source", source), label("rad.status", status)));
}

/// What a finished physical operator did, with times in microseconds.
#[derive(Clone, Copy, Debug)]
pub struct OperatorMeasurement<'a> {
    pub operator: &'a str,
    pub exclusive_micros: u64,
    pub open_micros: u64,
    pub input_rows: u64,
    pub output_rows: u64,
}

/// Microseconds in nanoseconds.
pub open spec fn in_nanoseconds(micros: u64) -> u128 {
    (micros * 1000) as u128
}

fn nanoseconds_of(micros: u64) -> (nanoseconds: u128)
    ensures
        nanoseconds == in_nanoseconds(micros),
{
    micros as u128 * 1000
}

/// A physical operator has finished.
pub fn operator_finished(meters: &mut Meters, measurement: &OperatorMeasurement<'_>)
    ensures
        final(meters)@ == after(old(meters)@, seq![
            measured(
                Instrument::OperatorDuration,
                Amount::Nanoseconds(in_nanoseconds(measurement.exclusive_micros)),
                seq![labelled("rad.operator.name"@, measurement.operator@), labelled("rad.operator.measurement"@, "exclusive"@)],
            ),
            measured(
                Instrument::OperatorDuration,
                Amount::Nanoseconds(in_nanoseconds(measurement.open_micros)),
                seq![labelled("rad.operator.name"@, measurement.operator@), labelled("rad.operator.measurement"@, "open"@)],
            ),
            measured(
                Instrument::OperatorRows,
                Amount::Count(measurement.input_rows),
                seq![labelled("rad.operator.name"@, measurement.operator@), labelled("rad.operator.direction"@, "input"@)],
            ),
            measured(
                Instrument::OperatorRows,
                Amount::Count(measurement.output_rows),
                seq![labelled("rad.operator.name"@, measurement.operator@), labelled("rad.operator.direction"@, "output"@)],
            ),
        ]),
{
    meters.record(Instrument::OperatorDuration, Amount::Nanoseconds(nanoseconds_of(measurement.exclusive_micros)), two_attributes(label("rad.operator.name", measurement.operator), label("rad.operator.measurement", "exclusive")));
    meters.record(Instrument::OperatorDuration, Amount::Nanoseconds(nanoseconds_of(measurement.open_micros)), two_attributes(label("rad.operator.name", measurement.operator), label("rad.operator.measurement", "open")));
    meters.record(Instrument::OperatorRows, Amount::Count(measurement.input_rows), two_attributes(label("rad.operator.name", measurement.operator), label("rad.operator.direction", "input")));
    meters.record(Instrument::OperatorRows, Amount::Count(measurement.output_rows), two_attributes(label("rad.operator.name", measurement.operator), label("rad.operator.direction", "output")));
}

/// A batch ran in parallel.
pub fn execution_parallel_batch(meters: &mut Meters, operator: &str, width: usize, rows: usize)
    ensures
        final(meters)@ == after(old(meters)@, seq![
            measured(
                Instrument::ExecutionParallelWidth,
                Amount::Count(width as u64),
                seq![labelled("rad.operator.name"@, operator@)],
            ),
            measured(
                Instrument::ExecutionParallelBatches,
                Amount::Count(1),
                seq![labelled("rad.operator.name"@, operator@)],
            ),
            measured(
                Instrument::ExecutionParallelRows,
                Amount::Count(rows as u64),
                seq![labelled("rad.operator.name"@, operator@)],
            ),
        ]),
{
    meters.record(Instrument::ExecutionParallelWidth, Amount::Count(width as u64), one_attribute(label("rad.operator.name", operator)));
    meters.record(Instrument::ExecutionParallelBatches, Amount::Count(1), one_attribute(label("rad.operator.name", operator)));
    meters.record(Instrument::ExecutionParallelRows, Amount::Count(rows as u64), one_attribute(label("rad.operator.name", operator)));
}

/// The relation cache was asked.
pub fn relation_cache_lookup(meters: &mut Meters, result: &str)
    ensures
        final(meters)@ == after(old(meters)@, seq![
            measured(
                Instrument::RelationCacheLookups,
                Amount::Count(1),
                seq![labelled("rad.cache.result"@, result@)],
            ),
        ]),
{
    meters.record(Instrument::RelationCacheLookups, Amount::Count(1), one_attribute(label("rad.cache.result", result)));
}

/// A result was offered to the relation cache.
pub fn relation_cache_admission(meters: &mut Meters, result: &str)
    ensures
        final(meters)@ == after(old(meters)@, seq![
            measured(
                Instrument::RelationCacheAdmissions,
                Amount::Count(1),
                seq![labelled("rad.cache.result"@, result@)],
            ),
        ]),
{
    meters.record(Instrument::RelationCacheAdmissions, Amount::Count(1), one_attribute(label("rad.cache.result", result)));
}

/// A result left the relation cache.
pub fn relation_cache_eviction(meters: &mut Meters, cause: &str)
    ensures
        final(meters)@ == after(old(meters)@, seq![
            measured(
                Instrument::RelationCacheEvictions,
                Amount::Count(1),
                seq![labelled("rad.cache.cause"@, cause@)],
            ),
        ]),
{
    meters.record(Instrument::RelationCacheEvictions, Amount::Count(1), one_attribute(label("rad.cache.cause", cause)));
}

/// What the relation cache holds.
pub fn relation_cache_residency(meters: &mut Meters, entries: usize, retained_bytes: u64)
    ensures
        final(meters)@ == after(old(meters)@, seq![
            measured(
                Instrument::RelationCacheEntries,
                Amount::Count(entries as u64),
                Seq::empty(),
            ),
            measured(
                Instrument::RelationCacheRetainedBytes,
                Amount::Count(retained_bytes),
                Seq::empty(),
            ),
        ]),
{
    meters.record(Instrument::RelationCacheEntries, Amount::Count(entries as u64), no_attributes());
    meters.record(Instrument::RelationCacheRetainedBytes, Amount::Count(retained_bytes), no_attributes());
}

/// What the relation cache may hold.
pub fn relation_cache_limits(meters: &mut Meters, entries: usize, bytes: u64, result_bytes: u64)
    ensures
        final(meters)@ == after(old(meters)@, seq![
            measured(
                Instrument::RelationCacheCapacityEntries,
                Amount::Count(entries as u64),
                Seq::empty(),
            ),
            measured(
                Instrument::RelationCacheCapacityBytes,
                Amount::Count(bytes),
                Seq::empty(),
            ),
            measured(
                Instrument::RelationCacheResultLimitBytes,
                Amount::Count(result_bytes),
                Seq::empty(),
            ),
        ]),
{
    meters.record(Instrument::RelationCacheCapacityEntries, Amount::Count(entries as u64), no_attributes());
    meters.record(Instrument::RelationCacheCapacityBytes, Amount::Count(bytes), no_attributes());
    meters.record(Instrument::RelationCacheResultLimitBytes, Amount::Count(result_bytes), no_attributes());
}

/// The size of a result that the relation cache may take.
pub fn relation_cache_result_size(meters: &mut Meters, bytes: usize)
    ensures
        final(meters)@ == after(old(meters)@, seq![
            measured(
                Instrument::RelationCacheResultBytes,
                Amount::Count(bytes as u64),
                Seq::empty(),
            ),
        ]),
{
    meters.record(Instrument::RelationCacheResultBytes, Amount::Count(bytes as u64), no_attributes());
}

/// The dependencies of a cached result were asked for.
pub fn relation_cache_dependency_lookup(meters: &mut Meters, result: &str)
    ensures
        final(meters)@ == after(old(meters)@, seq![
            measured(
                Instrument::RelationCacheDependencyLookups,
                Amount::Count(1),
                seq![labelled("rad.cache.result"@, result@)],
            ),
        ]),
{
    meters.record(Instrument::RelationCacheDependencyLookups, Amount::Count(1), one_attribute(label("rad.cache.result", result)));
}

/// Dependencies were dropped.
pub fn relation_cache_dependency_eviction(meters: &mut Meters, count: u64)
    ensures
        final(meters)@ == after(old(meters)@, seq![
            measured(
                Instrument::RelationCacheDependencyEvictions,
                Amount::Count(count),
                Seq::empty(),
            ),
        ]),
{
    meters.record(Instrument::RelationCacheDependencyEvictions, Amount::Count(count), no_attributes());
}

/// The catalog cache was asked.
pub fn relation_cache_catalog_lookup(meters: &mut Meters, result: &str)
    ensures
        final(meters)@ == after(old(meters)@, seq![
            measured(
                Instrument::RelationCacheCatalogLookups,
                Amount::Count(1),
                seq![labelled("rad.cache.result"@, result@)],
            ),
        ]),
{
    meters.record(Instrument::RelationCacheCatalogLookups, Amount::Count(1), one_attribute(label("rad.cache.result", result)));
}

/// Catalog entries were dropped.
pub fn relation_cache_catalog_eviction(meters: &mut Meters, count: u64)
    ensures
        final(meters)@ == after(old(meters)@, seq![
            measured(
                Instrument::RelationCacheCatalogEvictions,
                Amount::Count(count),
                Seq::empty(),
            ),
        ]),
{
    meters.record(Instrument::RelationCacheCatalogEvictions, Amount::Count(count), no_attributes());
}

/// What the catalog cache holds.
pub fn relation_cache_catalog_residency(meters: &mut Meters, entries: u64, retained_bytes: u64)
    ensures
        final(meters)@ == after(old(meters)@, seq![
            measured(
                Instrument::RelationCacheCatalogEntries,
                Amount::Count(entries),
                Seq::empty(),
            ),
            measured(
                Instrument::RelationCacheCatalogRetainedBytes,
                Amount::Count(retained_bytes),
                Seq::empty(),
            ),
        ]),
{
    meters.record(Instrument::RelationCacheCatalogEntries, Amount::Count(entries), no_attributes());
    meters.record(Instrument::RelationCacheCatalogRetainedBytes, Amount::Count(retained_bytes), no_attributes());
}

/// The prepared read cache was asked.
pub fn relation_cache_prepared_lookup(meters: &mut Meters, result: &str)
    ensures
        final(meters)@ == after(old(meters)@, seq![
            measured(
                Instrument::RelationCachePreparedLookups,
                Amount::Count(1),
                seq![labelled("rad.cache.result"@, result@)],
            ),
        ]),
{
    meters.record(Instrument::RelationCachePreparedLookups, Amount::Count(1), one_attribute(label("rad.cache.result", result)));
}

/// A plan was offered to the prepared read cache.
pub fn relation_cache_prepared_admission(meters: &mut Meters, result: &str)
    ensures
        final(meters)@ == after(old(meters)@, seq![
            measured(
                Instrument::RelationCachePreparedAdmissions,
                Amount::Count(1),
                seq![labelled("rad.cache.result"@, result@)],
            ),
        ]),
{
    meters.record(Instrument::RelationCachePreparedAdmissions, Amount::Count(1), one_attribute(label("rad.cache.result", result)));
}

/// Prepared reads were dropped.
pub fn relation_cache_prepared_eviction(meters: &mut Meters, count: u64)
    ensures
        final(meters)@ == after(old(meters)@, seq![
            measured(
                Instrument::RelationCachePreparedEvictions,
                Amount::Count(count),
                Seq::empty(),
            ),
        ]),
{
    meters.record(Instrument::RelationCachePreparedEvictions, Amount::Count(count), no_attributes());
}

/// What the prepared read cache holds.
pub fn relation_cache_prepared_residency(meters: &mut Meters, entries: u64, retained_bytes: u64)
    ensures
        final(meters)@ == after(old(meters)@, seq![
            measured(
                Instrument::RelationCachePreparedEntries,
                Amount::Count(entries),
                Seq::empty(),
            ),
            measured(
                Instrument::RelationCachePreparedRetainedBytes,
                Amount::Count(retained_bytes),
                Seq::empty(),
            ),
        ]),
{
    meters.record(Instrument::RelationCachePreparedEntries, Amount::Count(entries), no_attributes());
    meters.record(Instrument::RelationCachePreparedRetainedBytes, Amount::Count(retained_bytes), no_attributes());
}

/// What the prepared read cache may hold.
pub fn relation_cache_prepared_limits(meters: &mut Meters, entries: u64, bytes: u64, plan_bytes: u64)
    ensures
        final(meters)@ == after(old(meters)@, seq![
            measured(
                Instrument::RelationCachePreparedCapacityEntries,
                Amount::Count(entries),
                Seq::empty(),
            ),
            measured(
                Instrument::RelationCachePreparedCapacityBytes,
                Amount::Count(bytes),
                Seq::empty(),
            ),
            measured(
                Instrument::RelationCachePreparedPlanLimitBytes,
                Amount::Count(plan_bytes),
                Seq::empty(),
            ),
        ]),
{
    meters.record(Instrument::RelationCachePreparedCapacityEntries, Amount::Count(entries), no_attributes());
    meters.record(Instrument::RelationCachePreparedCapacityBytes, Amount::Count(bytes), no_attributes());
    meters.record(Instrument::RelationCachePreparedPlanLimitBytes, Amount::Count(plan_bytes), no_attributes());
}

/// The size of a plan that the prepared read cache may take.
pub fn relation_cache_prepared_candidate(meters: &mut Meters, bytes: u64)
    ensures
        final(meters)@ == after(old(meters)@, seq![
            measured(
                Instrument::RelationCachePreparedCandidateBytes,
                Amount::Count(bytes),
                Seq::empty(),
            ),
        ]),
{
    meters.record(Instrument::RelationCachePreparedCandidateBytes, Amount::Count(bytes), no_attributes());
}

/// The prepared read cache saved a bind and a plan.
pub fn relation_cache_prepared_avoided(meters: &mut Meters)
    ensures
        final(meters)@ == after(old(meters)@, seq![
            measured(
                Instrument::RelationCachePreparedAvoidedBinds,
                Amount::Count(1),
                Seq::empty(),
            ),
            measured(
                Instrument::RelationCachePreparedAvoidedPlans,
                Amount::Count(1),
                Seq::empty(),
            ),
        ]),
{
    meters.record(Instrument::RelationCachePreparedAvoidedBinds, Amount::Count(1), no_attributes());
    meters.record(Instrument::RelationCachePreparedAvoidedPlans, Amount::Count(1), no_attributes());
}

/// The relation cache saved reads and time.
pub fn relation_cache_avoided(meters: &mut Meters, reads: u64, bytes: u64, nanoseconds: u128)
    ensures
        final(meters)@ == after(old(meters)@, seq![
            measured(
                Instrument::RelationCacheAvoidedReads,
                Amount::Count(reads),
                Seq::empty(),
            ),
            measured(
                Instrument::RelationCacheAvoidedBytes,
                Amount::Count(bytes),
                Seq::empty(),
            ),
            measured(
                Instrument::RelationCacheAvoidedTime,
                Amount::Nanoseconds(nanoseconds),
                Seq::empty(),
            ),
        ]),
{
    meters.record(Instrument::RelationCacheAvoidedReads, Amount::Count(reads), no_attributes());
    meters.record(Instrument::RelationCacheAvoidedBytes, Amount::Count(bytes), no_attributes());
    meters.record(Instrument::RelationCacheAvoidedTime, Amount::Nanoseconds(nanoseconds), no_attributes());
}

/// Concurrent requests shared a fill of the relation cache.
pub fn relation_cache_coalesced(meters: &mut Meters)
    ensures
        final(meters)@ == after(old(meters)@, seq![
            measured(
                Instrument::RelationCacheCoalescedFills,
                Amount::Count(1),
                Seq::empty(),
            ),
        ]),
{
    meters.record(Instrument::RelationCacheCoalescedFills, Amount::Count(1), no_attributes());
}

/// A request could have reused a result.
pub fn relation_cache_reuse_opportunity(meters: &mut Meters)
    ensures
        final(meters)@ == after(old(meters)@, seq![
            measured(
                Instrument::RelationCacheReuseOpportunities,
                Amount::Count(1),
                Seq::empty(),
            ),
        ]),
{
    meters.record(Instrument::RelationCacheReuseOpportunities, Amount::Count(1), no_attributes());
}

/// A dependency cohort was superseded.
pub fn relation_cache_cohort_transition(meters: &mut Meters, cause: &str)
    ensures
        final(meters)@ == after(old(meters)@, seq![
            measured(
                Instrument::RelationCacheCohortTransitions,
                Amount::Count(1),
                seq![labelled("rad.cache.cause"@, cause@)],
            ),
        ]),
{
    meters.record(Instrument::RelationCacheCohortTransitions, Amount::Count(1), one_attribute(label("rad.cache.cause", cause)));
}

/// How often a superseded cohort could have been reused.
pub fn relation_cache_cohort_reuse(meters: &mut Meters, reuse_opportunities: u64, outcome: &str)
    ensures
        final(meters)@ == after(old(meters)@, seq![
            measured(
                Instrument::RelationCacheCohortReuse,
                Amount::Count(reuse_opportunities),
                seq![labelled("rad.cache.cohort.outcome"@, outcome@)],
            ),
        ]),
{
    meters.record(Instrument::RelationCacheCohortReuse, Amount::Count(reuse_opportunities), one_attribute(label("rad.cache.cohort.outcome", outcome)));
}

/// What the inactive policy would have decided.
pub fn relation_cache_shadow_decision(meters: &mut Meters, decision: &str, reason: &str, evidence: &str)
    ensures
        final(meters)@ == after(old(meters)@, seq![
            measured(
                Instrument::RelationCacheShadowDecisions,
                Amount::Count(1),
                seq![labelled("rad.cache.decision"@, decision@), labelled("rad.cache.reason"@, reason@), labelled("rad.cache.evidence"@, evidence@)],
            ),
        ]),
{
    meters.record(Instrument::RelationCacheShadowDecisions, Amount::Count(1), three_attributes(label("rad.cache.decision", decision), label("rad.cache.reason", reason), label("rad.cache.evidence", evidence)));
}

/// What the inactive policy has measured of a candidate. The density is a real number by its bits.
pub fn relation_cache_shadow_candidate(meters: &mut Meters, work_units: u64, density_bits: u64)
    ensures
        final(meters)@ == after(old(meters)@, seq![
            measured(
                Instrument::RelationCacheShadowCandidateWork,
                Amount::Count(work_units),
                Seq::empty(),
            ),
            measured(
                Instrument::RelationCacheShadowCandidateDensity,
                Amount::Bits(density_bits),
                Seq::empty(),
            ),
        ]),
{
    meters.record(Instrument::RelationCacheShadowCandidateWork, Amount::Count(work_units), no_attributes());
    meters.record(Instrument::RelationCacheShadowCandidateDensity, Amount::Bits(density_bits), no_attributes());
}

/// A result that the inactive policy rejects could have been reused.
pub fn relation_cache_shadow_rejected_reuse(meters: &mut Meters)
    ensures
        final(meters)@ == after(old(meters)@, seq![
            measured(
                Instrument::RelationCacheShadowRejectedReuse,
                Amount::Count(1),
                Seq::empty(),
            ),
        ]),
{
    meters.record(Instrument::RelationCacheShadowRejectedReuse, Amount::Count(1), no_attributes());
}

/// Evidence of the inactive policy was dropped.
pub fn relation_cache_evidence_eviction(meters: &mut Meters, cause: &str)
    ensures
        final(meters)@ == after(old(meters)@, seq![
            measured(
                Instrument::RelationCacheEvidenceEvictions,
                Amount::Count(1),
                seq![labelled("rad.cache.cause"@, cause@)],
            ),
        ]),
{
    meters.record(Instrument::RelationCacheEvidenceEvictions, Amount::Count(1), one_attribute(label("rad.cache.cause", cause)));
}

/// The kind of cache entry that accesses are about.
pub open spec fn entry_kind_of(entry_kind: Option<&str>) -> Seq<char> {
    match entry_kind {
        Some(entry_kind) => entry_kind@,
        None => "all"@,
    }
}

/// A storage cache was accessed. What did not happen is not recorded.
pub fn storage_cache_observed(
    meters: &mut Meters,
    tier: &str,
    entry_kind: Option<&str>,
    accesses: u64,
    hits: u64,
    misses: u64,
    errors: u64,
)
    ensures
        final(meters)@ == after(old(meters)@, (if accesses > 0 {
            seq![measured(
                Instrument::StorageCacheAccesses,
                Amount::Count(accesses),
                seq![
                    labelled("rad.storage.cache.tier"@, tier@),
                    labelled("rad.storage.cache.entry_kind"@, entry_kind_of(entry_kind)),
                    labelled("rad.storage.cache.result"@, "access"@),
                ],
            )]
        } else {
            Seq::empty()
        }) + (if hits > 0 {
            seq![measured(
                Instrument::StorageCacheAccesses,
                Amount::Count(hits),
                seq![
                    labelled("rad.storage.cache.tier"@, tier@),
                    labelled("rad.storage.cache.entry_kind"@, entry_kind_of(entry_kind)),
                    labelled("rad.storage.cache.result"@, "hit"@),
                ],
            )]
        } else {
            Seq::empty()
        }) + (if misses > 0 {
            seq![measured(
                Instrument::StorageCacheAccesses,
                Amount::Count(misses),
                seq![
                    labelled("rad.storage.cache.tier"@, tier@),
                    labelled("rad.storage.cache.entry_kind"@, entry_kind_of(entry_kind)),
                    labelled("rad.storage.cache.result"@, "miss"@),
                ],
            )]
        } else {
            Seq::empty()
        }) + (if errors > 0 {
            seq![measured(
                Instrument::StorageCacheAccesses,
                Amount::Count(errors),
                seq![
                    labelled("rad.storage.cache.tier"@, tier@),
                    labelled("rad.storage.cache.entry_kind"@, entry_kind_of(entry_kind)),
                    labelled("rad.storage.cache.result"@, "error"@),
                ],
            )]
        } else {
            Seq::empty()
        })),
{
    let entry = match entry_kind {
        Some(entry_kind) => entry_kind,
        None => "all",
    };
    if accesses > 0 {
        meters.record(
            Instrument::StorageCacheAccesses,
            Amount::Count(accesses),
            three_attributes(
                label("rad.storage.cache.tier", tier),
                label("rad.storage.cache.entry_kind", entry),
                label("rad.storage.cache.result", "access"),
            ),
        );
    }
    if hits > 0 {
        meters.record(
            Instrument::StorageCacheAccesses,
            Amount::Count(hits),
            three_attributes(
                label("rad.storage.cache.tier", tier),
                label("rad.storage.cache.entry_kind", entry),
                label("rad.storage.cache.result", "hit"),
            ),
        );
    }
    if misses > 0 {
        meters.record(
            Instrument::StorageCacheAccesses,
            Amount::Count(misses),
            three_attributes(
                label("rad.storage.cache.tier", tier),
                label("rad.storage.cache.entry_kind", entry),
                label("rad.storage.cache.result", "miss"),
            ),
        );
    }
    if errors > 0 {
        meters.record(
            Instrument::StorageCacheAccesses,
            Amount::Count(errors),
            three_attributes(
                label("rad.storage.cache.tier", tier),
                label("rad.storage.cache.entry_kind", entry),
                label("rad.storage.cache.result", "error"),
            ),
        );
    }
}

/// A number of bytes as a level, at most the largest.
pub open spec fn level_of(bytes: u64) -> i64 {
    if bytes > i64::MAX {
        i64::MAX
    } else {
        bytes as i64
    }
}

fn level(bytes: u64) -> (level: i64)
    ensures
        level == level_of(bytes),
{
    if bytes > i64::MAX as u64 {
        i64::MAX
    } else {
        bytes as i64
    }
}

/// What the storage cache may hold.
pub fn storage_cache_capacity(meters: &mut Meters, entry_kind: &str, bytes: u64)
    ensures
        final(meters)@ == after(old(meters)@, seq![
            measured(
                Instrument::StorageCacheCapacity,
                Amount::Level(level_of(bytes)),
                seq![labelled("rad.storage.cache.tier"@, "memory"@), labelled("rad.storage.cache.entry_kind"@, entry_kind@)],
            ),
        ]),
{
    meters.record(Instrument::StorageCacheCapacity, Amount::Level(level(bytes)), two_attributes(label("rad.storage.cache.tier", "memory"), label("rad.storage.cache.entry_kind", entry_kind)));
}

/// The status of a storage request.
pub open spec fn request_status(completed: bool, error: bool) -> Seq<char> {
    if error {
        "error"@
    } else if completed {
        "success"@
    } else {
        "incomplete"@
    }
}

fn status_of(completed: bool, error: bool) -> (status: &'static str)
    ensures
        status@ == request_status(completed, error),
{
    if error {
        "error"
    } else if completed {
        "success"
    } else {
        "incomplete"
    }
}

/// A request to the backing storage has finished.
pub fn storage_request_finished(
    meters: &mut Meters,
    service_tier: &str,
    class: &str,
    completed: bool,
    error: bool,
    bytes: u64,
    nanoseconds: u128,
)
    ensures
        final(meters)@ == after(old(meters)@, seq![
            measured(Instrument::StorageRequests, Amount::Count(1), seq![
                    labelled("rad.storage.service_tier"@, service_tier@),
                    labelled("rad.storage.request.class"@, class@),
                    labelled("rad.status"@, request_status(completed, error)),
                ]),
            measured(Instrument::StorageRequestDuration, Amount::Nanoseconds(nanoseconds), seq![
                    labelled("rad.storage.service_tier"@, service_tier@),
                    labelled("rad.storage.request.class"@, class@),
                    labelled("rad.status"@, request_status(completed, error)),
                ]),
        ] + (if bytes > 0 {
            seq![measured(Instrument::StorageRequestBytes, Amount::Count(bytes), seq![
                    labelled("rad.storage.service_tier"@, service_tier@),
                    labelled("rad.storage.request.class"@, class@),
                    labelled("rad.status"@, request_status(completed, error)),
                ])]
        } else {
            Seq::empty()
        })),
{
    let status = status_of(completed, error);
    meters.record(Instrument::StorageRequests, Amount::Count(1), three_attributes(
            label("rad.storage.service_tier", service_tier),
            label("rad.storage.request.class", class),
            label("rad.status", status),
        ));
    meters.record(Instrument::StorageRequestDuration, Amount::Nanoseconds(nanoseconds), three_attributes(
            label("rad.storage.service_tier", service_tier),
            label("rad.storage.request.class", class),
            label("rad.status", status),
        ));
    if bytes > 0 {
        meters.record(Instrument::StorageRequestBytes, Amount::Count(bytes), three_attributes(
            label("rad.storage.service_tier", service_tier),
            label("rad.storage.request.class", class),
            label("rad.status", status),
        ));
    }
}

/// What a finished key-value operation did.
#[derive(Clone, Copy, Debug)]
pub struct KvMeasurement<'a> {
    pub operation: &'a str,
    pub keyspace: &'a str,
    pub status: &'a str,
    pub nanoseconds: u128,
    pub bytes_read: u64,
    pub bytes_written: u64,
    pub rows: Option<u64>,
}

/// A key-value operation has finished.
pub fn kv_finished(meters: &mut Meters, measurement: KvMeasurement<'_>)
    ensures
        final(meters)@ == after(old(meters)@, seq![
            measured(Instrument::KvOperations, Amount::Count(1), seq![
                labelled("rad.kv.operation"@, measurement.operation@),
                labelled("rad.kv.keyspace"@, measurement.keyspace@),
                labelled("rad.status"@, measurement.status@),
            ]),
            measured(
                Instrument::KvOperationDuration,
                Amount::Nanoseconds(measurement.nanoseconds),
                seq![
                labelled("rad.kv.operation"@, measurement.operation@),
                labelled("rad.kv.keyspace"@, measurement.keyspace@),
                labelled("rad.status"@, measurement.status@),
            ],
            ),
        ] + (if measurement.bytes_read > 0 {
            seq![measured(
                Instrument::KvBytes,
                Amount::Count(measurement.bytes_read),
                seq![
                    labelled("rad.kv.direction"@, "read"@),
                    labelled("rad.kv.keyspace"@, measurement.keyspace@),
                ],
            )]
        } else {
            Seq::empty()
        }) + (if measurement.bytes_written > 0 {
            seq![measured(
                Instrument::KvBytes,
                Amount::Count(measurement.bytes_written),
                seq![
                    labelled("rad.kv.direction"@, "write"@),
                    labelled("rad.kv.keyspace"@, measurement.keyspace@),
                ],
            )]
        } else {
            Seq::empty()
        }) + (match measurement.rows {
            Some(rows) => seq![measured(Instrument::KvScanRows, Amount::Count(rows), seq![
                labelled("rad.kv.operation"@, measurement.operation@),
                labelled("rad.kv.keyspace"@, measurement.keyspace@),
                labelled("rad.status"@, measurement.status@),
            ])],
            None => Seq::empty(),
        })),
{
    meters.record(Instrument::KvOperations, Amount::Count(1), three_attributes(
            label("rad.kv.operation", measurement.operation),
            label("rad.kv.keyspace", measurement.keyspace),
            label("rad.status", measurement.status),
        ));
    meters.record(
        Instrument::KvOperationDuration,
        Amount::Nanoseconds(measurement.nanoseconds),
        three_attributes(
            label("rad.kv.operation", measurement.operation),
            label("rad.kv.keyspace", measurement.keyspace),
            label("rad.status", measurement.status),
        ),
    );
    if measurement.bytes_read > 0 {
        meters.record(
            Instrument::KvBytes,
            Amount::Count(measurement.bytes_read),
            two_attributes(
                label("rad.kv.direction", "read"),
                label("rad.kv.keyspace", measurement.keyspace),
            ),
        );
    }
    if measurement.bytes_written > 0 {
        meters.record(
            Instrument::KvBytes,
            Amount::Count(measurement.bytes_written),
            two_attributes(
                label("rad.kv.direction", "write"),
                label("rad.kv.keyspace", measurement.keyspace),
            ),
        );
    }
    if let Some(rows) = measurement.rows {
        meters.record(Instrument::KvScanRows, Amount::Count(rows), three_attributes(
            label("rad.kv.operation", measurement.operation),
            label("rad.kv.keyspace", measurement.keyspace),
            label("rad.status", measurement.status),
        ));
    }
}

/// A transaction has finished.
pub fn transaction_finished(
    meters: &mut Meters,
    outcome: &str,
    status: &str,
    nanoseconds: u128,
    conflict: Option<&str>,
)
    ensures
        final(meters)@ == after(old(meters)@, seq![
            measured(Instrument::TransactionCompletions, Amount::Count(1), seq![
                labelled("rad.transaction.outcome"@, outcome@),
                labelled("rad.status"@, status@),
            ]),
            measured(Instrument::TransactionDuration, Amount::Nanoseconds(nanoseconds), seq![
                labelled("rad.transaction.outcome"@, outcome@),
                labelled("rad.status"@, status@),
            ]),
        ] + (match conflict {
            Some(reason) => seq![measured(
                Instrument::TransactionConflicts,
                Amount::Count(1),
                seq![labelled("rad.error.reason"@, reason@)],
            )],
            None => Seq::empty(),
        })),
{
    meters.record(Instrument::TransactionCompletions, Amount::Count(1), two_attributes(
            label("rad.transaction.outcome", outcome),
            label("rad.status", status),
        ));
    meters.record(Instrument::TransactionDuration, Amount::Nanoseconds(nanoseconds), two_attributes(
            label("rad.transaction.outcome", outcome),
            label("rad.status", status),
        ));
    if let Some(reason) = conflict {
        meters.record(
            Instrument::TransactionConflicts,
            Amount::Count(1),
            one_attribute(label("rad.error.reason", reason)),
        );
    }
}

/// A PostgreSQL connection was opened.
pub fn postgres_connection_started(meters: &mut Meters)
    ensures
        final(meters)@ == after(old(meters)@, seq![
            measured(
                Instrument::PostgresActive,
                Amount::Up,
                Seq::empty(),
            ),
        ]),
{
    meters.record(Instrument::PostgresActive, Amount::Up, no_attributes());
}

/// A PostgreSQL connection was closed.
pub fn postgres_connection_finished(meters: &mut Meters, outcome: &str)
    ensures
        final(meters)@ == after(old(meters)@, seq![
            measured(
                Instrument::PostgresActive,
                Amount::Down,
                Seq::empty(),
            ),
            measured(
                Instrument::PostgresConnections,
                Amount::Count(1),
                seq![labelled("rad.outcome"@, outcome@)],
            ),
        ]),
{
    meters.record(Instrument::PostgresActive, Amount::Down, no_attributes());
    meters.record(Instrument::PostgresConnections, Amount::Count(1), one_attribute(label("rad.outcome", outcome)));
}

/// Whether something is there, as a level.
pub open spec fn presence_of(available: bool) -> i64 {
    if available {
        1
    } else {
        0
    }
}

fn presence(available: bool) -> (level: i64)
    ensures
        level == presence_of(available),
{
    if available {
        1
    } else {
        0
    }
}

/// Whether the storage can be reached.
pub fn storage_observed(meters: &mut Meters, available: bool)
    ensures
        final(meters)@ == after(old(meters)@, seq![
            measured(
                Instrument::StorageAvailable,
                Amount::Level(presence_of(available)),
                Seq::empty(),
            ),
        ]),
{
    meters.record(Instrument::StorageAvailable, Amount::Level(presence(available)), no_attributes());
}

/// The storage can no longer be reached.
pub fn storage_outage_started(meters: &mut Meters, reason: &str)
    ensures
        final(meters)@ == after(old(meters)@, seq![
            measured(
                Instrument::StorageOutages,
                Amount::Count(1),
                seq![labelled("rad.error.reason"@, reason@)],
            ),
        ]),
{
    meters.record(Instrument::StorageOutages, Amount::Count(1), one_attribute(label("rad.error.reason", reason)));
}

/// The storage can be reached again.
pub fn storage_outage_finished(meters: &mut Meters, reason: &str, nanoseconds: u128)
    ensures
        final(meters)@ == after(old(meters)@, seq![
            measured(
                Instrument::StorageOutageDuration,
                Amount::Nanoseconds(nanoseconds),
                seq![labelled("rad.error.reason"@, reason@)],
            ),
        ]),
{
    meters.record(Instrument::StorageOutageDuration, Amount::Nanoseconds(nanoseconds), one_attribute(label("rad.error.reason", reason)));
}

/// The process lost its hold on the storage.
pub fn storage_fenced(meters: &mut Meters, reason: &str)
    ensures
        final(meters)@ == after(old(meters)@, seq![
            measured(
                Instrument::StorageFencing,
                Amount::Count(1),
                seq![labelled("rad.error.reason"@, reason@)],
            ),
        ]),
{
    meters.record(Instrument::StorageFencing, Amount::Count(1), one_attribute(label("rad.error.reason", reason)));
}

/// A batch of a scheduler job has ended.
pub fn scheduler_job(meters: &mut Meters, kind: &str, outcome: &str)
    ensures
        final(meters)@ == after(old(meters)@, seq![
            measured(
                Instrument::SchedulerJobs,
                Amount::Count(1),
                seq![labelled("rad.scheduler.job.kind"@, kind@), labelled("rad.outcome"@, outcome@)],
            ),
        ]),
{
    meters.record(Instrument::SchedulerJobs, Amount::Count(1), two_attributes(label("rad.scheduler.job.kind", kind), label("rad.outcome", outcome)));
}

/// A scheduler job was quarantined.
pub fn scheduler_quarantined(meters: &mut Meters, kind: &str, reason: &str)
    ensures
        final(meters)@ == after(old(meters)@, seq![
            measured(
                Instrument::SchedulerQuarantined,
                Amount::Count(1),
                seq![labelled("rad.scheduler.job.kind"@, kind@), labelled("rad.error.reason"@, reason@)],
            ),
        ]),
{
    meters.record(Instrument::SchedulerQuarantined, Amount::Count(1), two_attributes(label("rad.scheduler.job.kind", kind), label("rad.error.reason", reason)));
}

/// A scheduler worker was lost.
pub fn scheduler_worker_lost(meters: &mut Meters)
    ensures
        final(meters)@ == after(old(meters)@, seq![
            measured(
                Instrument::SchedulerLostWorkers,
                Amount::Count(1),
                Seq::empty(),
            ),
        ]),
{
    meters.record(Instrument::SchedulerLostWorkers, Amount::Count(1), no_attributes());
}

/// What the changes on an instrument add up to.
pub open spec fn total(recorded: Seq<MeasurementView>, instrument: Instrument) -> int
    decreases recorded.len(),
{
    if recorded.len() == 0 {
        0
    } else {
        total(recorded.drop_last(), instrument) + (if recorded.last().instrument != instrument {
            0int
        } else {
            match recorded.last().amount {
                Amount::Up => 1,
                Amount::Down => -1,
                _ => 0,
            }
        })
    }
}

/// Changes on an instrument add up over two runs of measurements.
pub proof fn totals_add_up(
    first: Seq<MeasurementView>,
    second: Seq<MeasurementView>,
    instrument: Instrument,
)
    ensures
        total(first + second, instrument) == total(first, instrument) + total(second, instrument),
    decreases second.len(),
{
    if second.len() == 0 {
        assert(first + second =~= first);
    } else {
        totals_add_up(first, second.drop_last(), instrument);
        assert((first + second).drop_last() =~= first + second.drop_last());
    }
}

/// Meters that are not active keep nothing of what is recorded.
pub proof fn inactive_meters_keep_nothing(meters: MetersView, measurements: Seq<MeasurementView>)
    requires
        !meters.active,
    ensures
        after(meters, measurements) == meters,
{
}

/// Recording in two steps is recording all at once.
pub proof fn recording_keeps_order(
    meters: MetersView,
    first: Seq<MeasurementView>,
    second: Seq<MeasurementView>,
)
    ensures
        after(after(meters, first), second) == after(meters, first + second),
{
    assert(meters.recorded + first + second =~= meters.recorded + (first + second));
}

/// What can be done with meters: a recording, taking what was recorded, and
/// activation.
pub enum MeterStep {
    Recorded(Seq<MeasurementView>),
    Taken,
    Activated,
}

/// Meters after a step.
pub open spec fn stepped(meters: MetersView, step: MeterStep) -> MetersView {
    match step {
        MeterStep::Recorded(measurements) => after(meters, measurements),
        MeterStep::Taken => MetersView { recorded: Seq::empty(), ..meters },
        MeterStep::Activated => MetersView { active: true, ..meters },
    }
}

/// Meters after steps.
pub open spec fn all_stepped(meters: MetersView, steps: Seq<MeterStep>) -> MetersView
    decreases steps.len(),
{
    if steps.len() == 0 {
        meters
    } else {
        stepped(all_stepped(meters, steps.drop_last()), steps.last())
    }
}

/// Meters that are active stay active, whatever is recorded and taken.
pub proof fn active_meters_stay_active(meters: MetersView, steps: Seq<MeterStep>)
    requires
        meters.active,
    ensures
        all_stepped(meters, steps).active,
    decreases steps.len(),
{
    if steps.len() > 0 {
        active_meters_stay_active(meters, steps.drop_last());
    }
}

/// Meters are active exactly where they were activated, and record nothing before
/// that.
pub proof fn meters_wait_for_activation(meters: MetersView, steps: Seq<MeterStep>)
    requires
        !meters.active,
        meters.recorded.len() == 0,
    ensures
        all_stepped(meters, steps).active == exists|i: int|
            0 <= i < steps.len() && #[trigger] steps[i] is Activated,
        !all_stepped(meters, steps).active ==> all_stepped(meters, steps).recorded.len() == 0,
    decreases steps.len(),
{
    if steps.len() > 0 {
        let before = steps.drop_last();
        meters_wait_for_activation(meters, before);
        if exists|i: int| 0 <= i < before.len() && #[trigger] before[i] is Activated {
            let i = choose|i: int| 0 <= i < before.len() && #[trigger] before[i] is Activated;
            assert(steps[i] is Activated);
        }
        if exists|i: int| 0 <= i < steps.len() && #[trigger] steps[i] is Activated {
            let i = choose|i: int| 0 <= i < steps.len() && #[trigger] steps[i] is Activated;
            if i < before.len() {
                assert(before[i] is Activated);
            }
        }
        assert(steps[steps.len() - 1] == steps.last());
    }
}

} // verus!
