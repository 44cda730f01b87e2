//! What the environment of the process says of it.

use vstd::prelude::*;

use crate::telemetry;
use crate::telemetry::{Attribute, AttributeValue, AttributeView};
use crate::text;
use crate::text::{join3, same_text};

verus! {

/// What telemetry sends where, and under which names.
#[derive(Debug)]
pub struct Config {
    pub endpoint: Option<String>,
    pub instance_id: Option<String>,
    pub role: Option<String>,
    pub metrics: bool,
}

impl Default for Config {
    /// Metrics without an endpoint.
    fn default() -> (config: Config)
        ensures
            config.endpoint is None,
            config.instance_id is None,
            config.role is None,
            config.metrics,
    {
        Config { endpoint: None, instance_id: None, role: None, metrics: true }
    }
}

impl Config {
    /// Whether there is anything to send or show.
    pub fn wants_runtime(&self) -> (yes: bool)
        ensures
            yes == (self.endpoint is Some || self.metrics),
    {
        self.endpoint.is_some() || self.metrics
    }
}

/// A text without the slashes at its end.
pub open spec fn without_slashes(text: Seq<char>) -> Seq<char>
    decreases text.len(),
{
    if text.len() > 0 && text.last() == '/' {
        without_slashes(text.drop_last())
    } else {
        text
    }
}

/// The endpoint of a signal: the one given where it names the signal, else the
/// signal's path under it.
pub open spec fn endpoint_for(endpoint: Seq<char>, signal_path: Seq<char>) -> Seq<char> {
    if text::ends(endpoint, signal_path) {
        endpoint
    } else {
        without_slashes(endpoint) + "/"@ + signal_path
    }
}

/// The endpoint of a signal.
pub fn signal_endpoint(endpoint: &str, signal_path: &str) -> (result: String)
    ensures
        result@ == endpoint_for(endpoint@, signal_path@),
{
    if text::ends_with(endpoint, signal_path) {
        return endpoint.to_owned();
    }
    let letters = text::characters(endpoint);
    let mut end: usize = letters.len();
    assert(letters@.take(end as int) =~= letters@);
    while end > 0 && letters[end - 1] == '/'
        invariant
            end <= letters.len(),
            letters@ == endpoint@,
            without_slashes(endpoint@) == without_slashes(letters@.take(end as int)),
        decreases end,
    {
        proof {
            assert(letters@.take(end as int).last() == '/');
            assert(letters@.take(end as int).drop_last() =~= letters@.take(end - 1));
        }
        end -= 1;
    }
    proof {
        if end > 0 {
            assert(letters@.take(end as int).last() == letters@[end - 1]);
        }
    }
    let base = text::from_characters(&letters, 0, end);
    assert(letters@.subrange(0, end as int) =~= letters@.take(end as int));
    join3(base.as_str(), "/", signal_path)
}

/// The endpoint of a signal can be given as such: asking for it again changes
/// nothing.
pub proof fn signal_endpoints_are_kept(endpoint: Seq<char>, signal_path: Seq<char>)
    ensures
        endpoint_for(endpoint_for(endpoint, signal_path), signal_path) == endpoint_for(
            endpoint,
            signal_path,
        ),
{
    let whole = without_slashes(endpoint) + "/"@ + signal_path;
    assert(whole.subrange(whole.len() - signal_path.len(), whole.len() as int) =~= signal_path);
}

/// The attributes of the process: who it is, and what the environment says.
/// An empty value says nothing.
pub open spec fn process_attributes(
    version: Seq<char>,
    instance_id: Option<Seq<char>>,
    role: Option<Seq<char>>,
    namespace: Option<Seq<char>>,
    pod: Option<Seq<char>>,
    database: Option<Seq<char>>,
) -> Seq<AttributeView> {
    seq![
        telemetry::labelled("service.name"@, "rad"@),
        telemetry::labelled("service.version"@, version),
    ] + given("service.instance.id"@, instance_id, false) + given("rad.role"@, role, false) + given(
        "k8s.namespace.name"@,
        namespace,
        true,
    ) + given("k8s.pod.name"@, pod, true) + given("rad.database.name"@, database, true)
}

/// An attribute where there is a value, and it says something.
pub open spec fn given(key: Seq<char>, value: Option<Seq<char>>, nonempty: bool) -> Seq<AttributeView> {
    match value {
        Some(value) => if nonempty && value.len() == 0 {
            Seq::empty()
        } else {
            seq![telemetry::labelled(key, value)]
        },
        None => Seq::empty(),
    }
}

fn give(attributes: &mut Vec<Attribute>, key: &'static str, value: &Option<String>, nonempty: bool)
    ensures
        telemetry::attributes_view(final(attributes)@) == telemetry::attributes_view(
            old(attributes)@,
        ) + given(key@, text::text_option(*value), nonempty),
{
    let ghost before = telemetry::attributes_view(attributes@);
    if let Some(value) = value {
        if !(nonempty && value.as_str().unicode_len() == 0) {
            attributes.push(Attribute { key, value: AttributeValue::Text(value.clone()) });
        }
    }
    assert(telemetry::attributes_view(attributes@) =~= before + given(
        key@,
        text::text_option(*value),
        nonempty,
    ));
}

/// The environment variables that name attributes of the process.
pub const NAMESPACE_VARIABLE: &'static str = "OTEL_RESOURCE_ATTRIBUTES_K8S_NAMESPACE_NAME";

pub const POD_VARIABLE: &'static str = "OTEL_RESOURCE_ATTRIBUTES_K8S_POD_NAME";

pub const DATABASE_VARIABLE: &'static str = "OTEL_RESOURCE_ATTRIBUTES_RAD_DATABASE";

/// The attributes of the process.
pub fn resource(
    config: &Config,
    version: &str,
    namespace: &Option<String>,
    pod: &Option<String>,
    database: &Option<String>,
) -> (attributes: Vec<Attribute>)
    ensures
        telemetry::attributes_view(attributes@) == process_attributes(
            version@,
            text::text_option(config.instance_id),
            text::text_option(config.role),
            text::text_option(*namespace),
            text::text_option(*pod),
            text::text_option(*database),
        ),
{
    let mut attributes: Vec<Attribute> = Vec::new();
    attributes.push(Attribute { key: "service.name", value: AttributeValue::Text("rad".to_owned()) });
    attributes.push(
        Attribute { key: "service.version", value: AttributeValue::Text(version.to_owned()) },
    );
    assert(telemetry::attributes_view(attributes@) =~= seq![
        telemetry::labelled("service.name"@, "rad"@),
        telemetry::labelled("service.version"@, version@),
    ]);
    give(&mut attributes, "service.instance.id", &config.instance_id, false);
    give(&mut attributes, "rad.role", &config.role, false);
    give(&mut attributes, "k8s.namespace.name", namespace, true);
    give(&mut attributes, "k8s.pod.name", pod, true);
    give(&mut attributes, "rad.database.name", database, true);
    attributes
}

/// How a metric is shown: how many attribute sets it may have, and the bounds
/// of its histogram in ten-thousandths, where it has its own.
pub struct MetricView {
    pub cardinality_limit: usize,
    pub boundaries: Option<Vec<u64>>,
}

/// The histogram bounds of a metric, in ten-thousandths.
pub open spec fn bounds_of(name: Seq<char>) -> Option<Seq<u64>> {
    if text::ends(name, "duration"@) {
        Some(
            seq![
                10u64, 25, 50, 100, 250, 500, 1_000, 2_500, 5_000, 10_000, 25_000, 50_000, 100_000,
                300_000, 600_000, 1_200_000,
            ],
        )
    } else if name == "rad.relation.cache.cohort.reuse.opportunities"@ {
        Some(
            seq![
                0u64, 10_000, 20_000, 30_000, 40_000, 80_000, 160_000, 320_000, 640_000, 1_280_000,
                2_560_000, 10_240_000,
            ],
        )
    } else if name == "rad.relation.cache.shadow.candidate.work"@ {
        Some(
            seq![
                40_960_000u64, 163_840_000, 655_360_000, 2_621_440_000, 10_485_760_000,
                41_943_040_000, 167_772_160_000, 671_088_640_000, 2_684_354_560_000,
                10_737_418_240_000,
            ],
        )
    } else if name == "rad.relation.cache.shadow.candidate.density"@ {
        Some(
            seq![
                2_500u64, 5_000, 10_000, 20_000, 40_000, 80_000, 160_000, 320_000, 640_000,
                2_560_000, 10_240_000,
            ],
        )
    } else if name == "rad.relation.cache.result.bytes"@ || name
        == "rad.relation.cache.prepared.candidate.bytes"@ {
        Some(
            seq![
                10_240_000u64, 40_960_000, 163_840_000, 655_360_000, 2_621_440_000, 10_485_760_000,
                41_943_040_000, 83_886_080_000, 167_772_160_000, 671_088_640_000,
                1_342_177_280_000,
            ],
        )
    } else {
        None
    }
}

fn bounds(name: &str) -> (boundaries: Option<Vec<u64>>)
    ensures
        match boundaries {
            Some(boundaries) => bounds_of(name@) == Some(boundaries@),
            None => bounds_of(name@) is None,
        },
{
    if text::ends_with(name, "duration") {
        let boundaries: Vec<u64> = vec![
            10, 25, 50, 100, 250, 500, 1_000, 2_500, 5_000, 10_000, 25_000, 50_000, 100_000,
            300_000, 600_000, 1_200_000,
        ];
        assert(Some(boundaries@) == bounds_of(name@));
        Some(boundaries)
    } else if same_text(name, "rad.relation.cache.cohort.reuse.opportunities") {
        let boundaries: Vec<u64> = vec![
            0, 10_000, 20_000, 30_000, 40_000, 80_000, 160_000, 320_000, 640_000, 1_280_000,
            2_560_000, 10_240_000,
        ];
        assert(Some(boundaries@) == bounds_of(name@));
        Some(boundaries)
    } else if same_text(name, "rad.relation.cache.shadow.candidate.work") {
        let boundaries: Vec<u64> = vec![
            40_960_000, 163_840_000, 655_360_000, 2_621_440_000, 10_485_760_000, 41_943_040_000,
            167_772_160_000, 671_088_640_000, 2_684_354_560_000, 10_737_418_240_000,
        ];
        assert(Some(boundaries@) == bounds_of(name@));
        Some(boundaries)
    } else if same_text(name, "rad.relation.cache.shadow.candidate.density") {
        let boundaries: Vec<u64> = vec![
            2_500, 5_000, 10_000, 20_000, 40_000, 80_000, 160_000, 320_000, 640_000, 2_560_000,
            10_240_000,
        ];
        assert(Some(boundaries@) == bounds_of(name@));
        Some(boundaries)
    } else if same_text(name, "rad.relation.cache.result.bytes") || same_text(
        name,
        "rad.relation.cache.prepared.candidate.bytes",
    ) {
        let boundaries: Vec<u64> = vec![
            10_240_000, 40_960_000, 163_840_000, 655_360_000, 2_621_440_000, 10_485_760_000,
            41_943_040_000, 83_886_080_000, 167_772_160_000, 671_088_640_000, 1_342_177_280_000,
        ];
        assert(Some(boundaries@) == bounds_of(name@));
        Some(boundaries)
    } else {
        None
    }
}

/// Whether a metric belongs to the process.
pub open spec fn is_own(name: Seq<char>) -> bool {
    text::begins(name, "rad."@) || text::begins(name, "http.server."@)
}

/// How a metric of the process is shown; others are left as they are.
pub fn rad_metric_view(name: &str, histogram: bool) -> (view: Option<MetricView>)
    ensures
        match view {
            Some(view) => is_own(name@) && view.cardinality_limit == 256 && (match view.boundaries {
                Some(boundaries) => histogram && bounds_of(name@) == Some(boundaries@),
                None => !histogram || bounds_of(name@) is None,
            }),
            None => !is_own(name@),
        },
{
    if !text::starts_with(name, "rad.") && !text::starts_with(name, "http.server.") {
        return None;
    }
    let boundaries = if histogram {
        bounds(name)
    } else {
        None
    };
    Some(MetricView { cardinality_limit: 256, boundaries })
}

// ---- control group and process files ----

/// The first position of a character from a position on.
pub open spec fn position_from(text: Seq<char>, wanted: char, i: nat) -> Option<nat>
    decreases text.len() - i,
{
    if i >= text.len() {
        None
    } else if text[i as int] == wanted {
        Some(i)
    } else {
        position_from(text, wanted, i + 1)
    }
}

fn find_from(letters: &Vec<char>, wanted: char, start: usize) -> (found: Option<usize>)
    requires
        start <= letters.len(),
    ensures
        position_from(letters@, wanted, start as nat) == (match found {
            Some(i) => Some(i as nat),
            None => None,
        }),
        found matches Some(i) ==> start <= i < letters.len(),
{
    let mut i: usize = start;
    while i < letters.len()
        invariant
            start <= i <= letters.len(),
            position_from(letters@, wanted, start as nat) == position_from(
                letters@,
                wanted,
                i as nat,
            ),
        decreases letters.len() - i,
    {
        if letters[i] == wanted {
            return Some(i);
        }
        i += 1;
    }
    None
}

/// The end of the line that starts at a position, without the line break.
pub open spec fn line_end(text: Seq<char>, start: nat) -> nat {
    match position_from(text, '\n', start) {
        Some(end) => if end > start && text[end - 1] == '\r' {
            (end - 1) as nat
        } else {
            end
        },
        None => text.len(),
    }
}

/// Where the line after the one at a position starts, where there is one.
pub open spec fn next_line(text: Seq<char>, start: nat) -> nat {
    match position_from(text, '\n', start) {
        Some(end) => end + 1,
        None => text.len(),
    }
}

pub proof fn lemma_position_bounds(text: Seq<char>, wanted: char, i: nat)
    ensures
        position_from(text, wanted, i) matches Some(found) ==> i <= found < text.len(),
    decreases text.len() - i,
{
    if i < text.len() && text[i as int] != wanted {
        lemma_position_bounds(text, wanted, i + 1);
    }
}

/// The number of a line with a name before its first space, among the lines
/// from a position on: the first that is a number.
pub open spec fn stat_from(text: Seq<char>, name: Seq<char>, start: nat) -> Option<nat>
    decreases text.len() - start,
{
    if start >= text.len() {
        None
    } else {
        let line = text.subrange(start as int, line_end(text, start) as int);
        let found = match position_from(line, ' ', 0) {
            Some(space) => if line.take(space as int) == name {
                text::unsigned_value(line.skip((space + 1) as int), u64::MAX as nat)
            } else {
                None
            },
            None => None,
        };
        proof {
            lemma_position_bounds(text, '\n', start);
        }
        match found {
            Some(value) => Some(value),
            None => stat_from(text, name, next_line(text, start)),
        }
    }
}

/// The number of a line of the control group's CPU statistics.
pub fn cgroup_stat(contents: &str, name: &str) -> (value: Option<u64>)
    ensures
        stat_from(contents@, name@, 0) == (match value {
            Some(value) => Some(value as nat),
            None => None,
        }),
{
    let letters = text::characters(contents);
    let mut start: usize = 0;
    while start < letters.len()
        invariant
            start <= letters.len(),
            letters@ == contents@,
            stat_from(contents@, name@, 0) == stat_from(contents@, name@, start as nat),
        decreases letters.len() - start,
    {
        let found = find_from(&letters, '\n', start);
        let (end, next) = match found {
            Some(end) => if end > start && letters[end - 1] == '\r' {
                (end - 1, end + 1)
            } else {
                (end, end + 1)
            },
            None => (letters.len(), letters.len()),
        };
        let line = text::from_characters(&letters, start, end);
        let value = named_value(line.as_str(), name);
        if value.is_some() {
            return value;
        }
        start = next;
    }
    None
}

fn named_value(line: &str, name: &str) -> (value: Option<u64>)
    ensures
        (match position_from(line@, ' ', 0) {
            Some(space) => if line@.take(space as int) == name@ {
                text::unsigned_value(line@.skip((space + 1) as int), u64::MAX as nat)
            } else {
                None
            },
            None => None,
        }) == (match value {
            Some(value) => Some(value as nat),
            None => None,
        }),
{
    let letters = text::characters(line);
    let space = match find_from(&letters, ' ', 0) {
        Some(space) => space,
        None => {
            return None;
        },
    };
    let key = text::from_characters(&letters, 0, space);
    assert(letters@.subrange(0, space as int) =~= line@.take(space as int));
    if !same_text(key.as_str(), name) {
        return None;
    }
    let rest = text::from_characters(&letters, space + 1, letters.len());
    assert(letters@.subrange(space + 1, letters@.len() as int) =~= line@.skip(space + 1));
    text::parse_unsigned(rest.as_str())
}

/// A text without white space around it.
pub open spec fn trimmed(text: Seq<char>) -> Seq<char>
    decreases text.len(),
{
    if text.len() == 0 {
        text
    } else if text::white_space(text[0]) {
        trimmed(text.skip(1))
    } else if text::white_space(text.last()) {
        trimmed(text.drop_last())
    } else {
        text
    }
}

/// A text without white space around it.
pub fn trim(value: &str) -> (result: String)
    ensures
        result@ == trimmed(value@),
{
    let letters = text::characters(value);
    let mut start: usize = 0;
    let mut end: usize = letters.len();
    assert(letters@.subrange(0, end as int) =~= value@);
    while start < end && text::is_white_space(letters[start])
        invariant
            start <= end,
            end == letters.len(),
            trimmed(value@) == trimmed(letters@.subrange(start as int, end as int)),
        decreases end - start,
    {
        let ghost rest = letters@.subrange(start as int, end as int);
        assert(rest[0] == letters@[start as int]);
        assert(rest.skip(1) =~= letters@.subrange(start + 1, end as int));
        start += 1;
    }
    while start < end && text::is_white_space(letters[end - 1])
        invariant
            start <= end <= letters.len(),
            start < end ==> !text::white_space(letters@[start as int]),
            trimmed(value@) == trimmed(letters@.subrange(start as int, end as int)),
        decreases end - start,
    {
        let ghost rest = letters@.subrange(start as int, end as int);
        assert(rest[0] == letters@[start as int]);
        assert(rest.last() == letters@[end - 1]);
        assert(rest.drop_last() =~= letters@.subrange(start as int, end - 1));
        end -= 1;
    }
    proof {
        let rest = letters@.subrange(start as int, end as int);
        if start < end {
            assert(rest[0] == letters@[start as int]);
            assert(rest.last() == letters@[end - 1]);
        }
    }
    text::from_characters(&letters, start, end)
}

/// The quota and period of a CPU limit, where there is a limit.
pub open spec fn cpu_limit_of(contents: Seq<char>) -> Option<(Seq<char>, Seq<char>)> {
    let line = trimmed(contents);
    match position_from(line, ' ', 0) {
        Some(space) => if line.take(space as int) == "max"@ {
            None
        } else {
            Some((line.take(space as int), line.skip((space + 1) as int)))
        },
        None => None,
    }
}

/// The quota and period of a CPU limit, both as written.
pub fn process_cpu_limit(contents: &str) -> (limit: Option<(String, String)>)
    ensures
        cpu_limit_of(contents@) == (match limit {
            Some((quota, period)) => Some((quota@, period@)),
            None => None,
        }),
{
    let line = trim(contents);
    let letters = text::characters(line.as_str());
    let space = match find_from(&letters, ' ', 0) {
        Some(space) => space,
        None => {
            return None;
        },
    };
    let quota = text::from_characters(&letters, 0, space);
    let period = text::from_characters(&letters, space + 1, letters.len());
    assert(letters@.subrange(0, space as int) =~= line@.take(space as int));
    assert(letters@.subrange(space + 1, letters@.len() as int) =~= line@.skip(space + 1));
    if same_text(quota.as_str(), "max") {
        return None;
    }
    Some((quota, period))
}

/// The memory limit of the control group, where there is one.
pub fn cgroup_memory_limit(contents: &str) -> (limit: Option<u64>)
    ensures
        (if trimmed(contents@) == "max"@ {
            None
        } else {
            text::unsigned_value(trimmed(contents@), u64::MAX as nat)
        }) == (match limit {
            Some(limit) => Some(limit as nat),
            None => None,
        }),
{
    let value = trim(contents);
    if same_text(value.as_str(), "max") {
        None
    } else {
        text::parse_unsigned(value.as_str())
    }
}

/// The first line with a prefix, from a position on.
pub open spec fn line_from(text: Seq<char>, prefix: Seq<char>, start: nat) -> Option<Seq<char>>
    decreases text.len() - start,
{
    if start >= text.len() {
        None
    } else {
        let line = text.subrange(start as int, line_end(text, start) as int);
        proof {
            lemma_position_bounds(text, '\n', start);
        }
        if text::begins(line, prefix) {
            Some(line)
        } else {
            line_from(text, prefix, next_line(text, start))
        }
    }
}

/// Where the white space from a position on ends.
pub open spec fn after_space(line: Seq<char>, i: nat) -> nat
    decreases line.len() - i,
{
    if i < line.len() && text::white_space(line[i as int]) {
        after_space(line, i + 1)
    } else {
        i
    }
}

/// Where the word from a position on ends.
pub open spec fn after_word(line: Seq<char>, i: nat) -> nat
    decreases line.len() - i,
{
    if i < line.len() && !text::white_space(line[i as int]) {
        after_word(line, i + 1)
    } else {
        i
    }
}

/// The second word of a line, where there is one.
pub open spec fn second_word(line: Seq<char>) -> Option<Seq<char>> {
    let start = after_space(line, after_word(line, after_space(line, 0)));
    let end = after_word(line, start);
    if start < end {
        Some(line.subrange(start as int, end as int))
    } else {
        None
    }
}

fn skip_space(letters: &Vec<char>, start: usize) -> (end: usize)
    requires
        start <= letters.len(),
    ensures
        end == after_space(letters@, start as nat),
        start <= end <= letters.len(),
{
    let mut i: usize = start;
    while i < letters.len() && text::is_white_space(letters[i])
        invariant
            start <= i <= letters.len(),
            after_space(letters@, start as nat) == after_space(letters@, i as nat),
        decreases letters.len() - i,
    {
        i += 1;
    }
    i
}

fn skip_word(letters: &Vec<char>, start: usize) -> (end: usize)
    requires
        start <= letters.len(),
    ensures
        end == after_word(letters@, start as nat),
        start <= end <= letters.len(),
{
    let mut i: usize = start;
    while i < letters.len() && !text::is_white_space(letters[i])
        invariant
            start <= i <= letters.len(),
            after_word(letters@, start as nat) == after_word(letters@, i as nat),
        decreases letters.len() - i,
    {
        i += 1;
    }
    i
}

/// The resident memory of a process status, in bytes.
pub open spec fn rss_of(contents: Seq<char>) -> Option<nat> {
    match line_from(contents, "VmRSS:"@, 0) {
        Some(line) => match second_word(line) {
            Some(word) => match text::unsigned_value(word, u64::MAX as nat) {
                Some(kibibytes) => if kibibytes * 1024 <= u64::MAX {
                    Some(kibibytes * 1024)
                } else {
                    None
                },
                None => None,
            },
            None => None,
        },
        None => None,
    }
}

/// The resident memory of a process status, in bytes.
pub fn process_rss_bytes(contents: &str) -> (bytes: Option<u64>)
    ensures
        rss_of(contents@) == (match bytes {
            Some(bytes) => Some(bytes as nat),
            None => None,
        }),
{
    let letters = text::characters(contents);
    let mut start: usize = 0;
    while start < letters.len()
        invariant
            start <= letters.len(),
            letters@ == contents@,
            line_from(contents@, "VmRSS:"@, 0) == line_from(
                contents@,
                "VmRSS:"@,
                start as nat,
            ),
        decreases letters.len() - start,
    {
        let found = find_from(&letters, '\n', start);
        let (end, next) = match found {
            Some(end) => if end > start && letters[end - 1] == '\r' {
                (end - 1, end + 1)
            } else {
                (end, end + 1)
            },
            None => (letters.len(), letters.len()),
        };
        let line = text::from_characters(&letters, start, end);
        if text::starts_with(line.as_str(), "VmRSS:") {
            let words = text::characters(line.as_str());
            let first = skip_space(&words, 0);
            let first_end = skip_word(&words, first);
            let second = skip_space(&words, first_end);
            let second_end = skip_word(&words, second);
            if second >= second_end {
                return None;
            }
            let word = text::from_characters(&words, second, second_end);
            return match text::parse_unsigned(word.as_str()) {
                Some(kibibytes) => kibibytes.checked_mul(1024),
                None => None,
            };
        }
        start = next;
    }
    None
}

} // verus!
