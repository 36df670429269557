//! The configuration model: the options of one run, and the script that
//! hands the engine its options and defines the render entry point.

use crate::text::{
    ascii_upper, lowered, push_char, same_text, to_ascii_upper, to_chars, to_lowered,
};
use serde_json::Value;
use std::path::PathBuf;
use vstd::prelude::*;
use vstd::string::StringExecFns;

verus! {

/// `std::path::PathBuf`, carried through and never looked into.
#[verifier::external_type_specification]
#[verifier::external_body]
pub struct ExPathBuf(PathBuf);

/// `Clone` of `PathBuf`: the same path.
pub assume_specification[ <PathBuf as Clone>::clone ](path: &PathBuf) -> (copy: PathBuf)
    ensures
        copy == *path,
;

/// `serde_json::Value`, carried through and never looked into.
#[verifier::external_type_specification]
#[verifier::external_body]
pub struct ExValue(Value);

/// `serde_json::Map`, read and built through the functions below only.
#[verifier::external_type_specification]
#[verifier::external_body]
#[verifier::reject_recursive_types(K)]
#[verifier::reject_recursive_types(V)]
pub struct ExMap<K, V>(serde_json::Map<K, V>);

/// A span of time: whole seconds, and the nanoseconds beyond them.
#[derive(Debug, Clone, Copy, PartialEq, Eq, Structural)]
pub struct Timeout {
    pub secs: u64,
    pub nanos: u32,
}

impl Timeout {
    /// The nanoseconds stay below one second.
    pub open spec fn is_valid(self) -> bool {
        self.nanos < 1_000_000_000
    }

    /// The span in nanoseconds.
    pub open spec fn total_nanos(self) -> nat {
        (self.secs * 1_000_000_000 + self.nanos) as nat
    }

    /// The span of `secs` whole seconds.
    pub open spec fn of_seconds(secs: u64) -> Timeout {
        Timeout { secs, nanos: 0 }
    }

    /// The span of `secs` whole seconds.
    pub fn from_secs(secs: u64) -> (timeout: Timeout)
        ensures
            timeout == Timeout::of_seconds(secs),
            timeout.is_valid(),
            timeout.total_nanos() == secs * 1_000_000_000,
    {
        Timeout { secs, nanos: 0 }
    }
}

/// The number of seconds after which a round trip to the engine is given up,
/// where the configuration names none.
pub const DEFAULT_TIMEOUT_SECS: u64 = 30;

/// The bound on each round trip to the engine where the configuration names
/// none.
pub fn default_timeout() -> (timeout: Timeout)
    ensures
        timeout == Timeout::of_seconds(DEFAULT_TIMEOUT_SECS),
{
    Timeout::from_secs(DEFAULT_TIMEOUT_SECS)
}

/// How much the engine trusts the text of a diagram.
#[derive(Debug, Clone, Copy, PartialEq, Eq, Structural)]
pub enum SecurityLevel {
    /// HTML tags in the text are encoded and click functionality is disabled.
    Strict,
    /// HTML tags in text are allowed and click functionality is enabled.
    Loose,
    /// HTML tags in text are allowed, script elements are removed, and click
    /// functionality is enabled.
    Antiscript,
    /// All rendering takes place in a sandboxed frame, in which no script
    /// runs.
    Sandbox,
}

impl Default for SecurityLevel {
    fn default() -> (level: SecurityLevel)
        ensures
            level == SecurityLevel::Strict,
    {
        SecurityLevel::Strict
    }
}

impl SecurityLevel {
    /// The name under which the engine knows the level.
    pub open spec fn name(self) -> Seq<char> {
        match self {
            SecurityLevel::Strict => "strict"@,
            SecurityLevel::Loose => "loose"@,
            SecurityLevel::Antiscript => "antiscript"@,
            SecurityLevel::Sandbox => "sandbox"@,
        }
    }

    /// The name under which the engine knows the level.
    pub fn as_str(&self) -> (name: &'static str)
        ensures
            name@ == self.name(),
    {
        match self {
            SecurityLevel::Strict => "strict",
            SecurityLevel::Loose => "loose",
            SecurityLevel::Antiscript => "antiscript",
            SecurityLevel::Sandbox => "sandbox",
        }
    }
}

/// What to do when a diagram cannot be rendered.
#[derive(Debug, Clone, Copy, PartialEq, Eq, Structural)]
pub enum ErrorHandling {
    /// Give up the whole run.
    Fail,
    /// Put a note that names the cause in the diagram's place and go on.
    Comment,
}

impl Default for ErrorHandling {
    fn default() -> (policy: ErrorHandling)
        ensures
            policy == ErrorHandling::Fail,
    {
        ErrorHandling::Fail
    }
}

/// The options that are handed to the engine when it is initialised.
#[derive(Debug, Clone)]
pub struct MermaidConfig {
    pub security_level: SecurityLevel,
    /// Whether the engine renders by itself once its page has loaded. The
    /// renderer asks for each diagram, so this is off unless configured.
    pub start_on_load: bool,
    /// Every other option, by name; handed on as it is.
    pub additional: serde_json::Map<String, Value>,
}

/// The options of one run.
#[derive(Debug, Clone)]
pub struct Config {
    /// The bound on each round trip to the engine.
    pub timeout: Timeout,
    /// What to do when a diagram cannot be rendered.
    pub on_error: ErrorHandling,
    /// Where the engine's executable is, if not in its usual place.
    pub chrome_path: Option<PathBuf>,
    /// The options for the engine.
    pub mermaid: MermaidConfig,
}

/// What a map of options holds, in the order in which it is walked: each
/// option's name, and its value as compact JSON text.
pub uninterp spec fn option_entries(options: serde_json::Map<String, Value>) -> Seq<(Seq<char>, Seq<char>)>;

/// `Map::new` of serde_json: a map that holds nothing.
pub assume_specification[ serde_json::Map::<String, Value>::new ]() -> (options: serde_json::Map<String, Value>)
    ensures
        option_entries(options) == Seq::<(Seq<char>, Seq<char>)>::empty(),
;

/// `Clone` of `serde_json::Map`: a map that holds the same.
pub assume_specification[ <serde_json::Map<String, Value> as Clone>::clone ](
    options: &serde_json::Map<String, Value>,
) -> (copy: serde_json::Map<String, Value>)
    ensures
        option_entries(copy) == option_entries(*options),
;

impl Default for MermaidConfig {
    fn default() -> (options: MermaidConfig)
        ensures
            options.security_level == SecurityLevel::Strict,
            !options.start_on_load,
            option_entries(options.additional).len() == 0,
    {
        MermaidConfig {
            security_level: SecurityLevel::Strict,
            start_on_load: false,
            additional: serde_json::Map::new(),
        }
    }
}

impl Default for Config {
    fn default() -> (config: Config)
        ensures
            config.timeout == Timeout::of_seconds(DEFAULT_TIMEOUT_SECS),
            config.on_error == ErrorHandling::Fail,
            config.chrome_path is None,
            config.mermaid.security_level == SecurityLevel::Strict,
            !config.mermaid.start_on_load,
            option_entries(config.mermaid.additional).len() == 0,
    {
        Config {
            timeout: default_timeout(),
            on_error: ErrorHandling::Fail,
            chrome_path: None,
            mermaid: MermaidConfig::default(),
        }
    }
}

/// An option that the preprocessor reads itself; every other option goes to
/// the engine.
#[derive(Debug, Clone, Copy, PartialEq, Eq, Structural)]
pub enum OptionKey {
    Timeout,
    OnError,
    ChromePath,
    SecurityLevel,
    StartOnLoad,
}

impl OptionKey {
    /// The name under which the option is written.
    pub open spec fn name(self) -> Seq<char> {
        match self {
            OptionKey::Timeout => "timeout"@,
            OptionKey::OnError => "on-error"@,
            OptionKey::ChromePath => "chrome-path"@,
            OptionKey::SecurityLevel => "security-level"@,
            OptionKey::StartOnLoad => "start-on-load"@,
        }
    }

    /// The name under which the option is written.
    pub fn as_str(&self) -> (name: &'static str)
        ensures
            name@ == self.name(),
    {
        match self {
            OptionKey::Timeout => "timeout",
            OptionKey::OnError => "on-error",
            OptionKey::ChromePath => "chrome-path",
            OptionKey::SecurityLevel => "security-level",
            OptionKey::StartOnLoad => "start-on-load",
        }
    }
}

/// The option of the preprocessor that a key names: the key is a hyphenated
/// name, in capitals or small letters, and the engine's path goes by either
/// of its two names. A key that names none is an option for the engine.
pub open spec fn known_key(key: Seq<char>) -> Option<OptionKey> {
    let lower = lowered(key);
    if lower == "timeout"@ {
        Some(OptionKey::Timeout)
    } else if lower == "on-error"@ {
        Some(OptionKey::OnError)
    } else if lower == "chrome-path"@ || lower == "engine-path"@ {
        Some(OptionKey::ChromePath)
    } else if lower == "security-level"@ {
        Some(OptionKey::SecurityLevel)
    } else if lower == "start-on-load"@ {
        Some(OptionKey::StartOnLoad)
    } else {
        None
    }
}

/// The option of the preprocessor that `key` names, if it names one.
pub fn option_key(key: &str) -> (known: Option<OptionKey>)
    ensures
        known == known_key(key@),
{
    let lower = to_lowered(key);
    if same_text(lower.as_str(), "timeout") {
        Some(OptionKey::Timeout)
    } else if same_text(lower.as_str(), "on-error") {
        Some(OptionKey::OnError)
    } else if same_text(lower.as_str(), "chrome-path") || same_text(lower.as_str(), "engine-path") {
        Some(OptionKey::ChromePath)
    } else if same_text(lower.as_str(), "security-level") {
        Some(OptionKey::SecurityLevel)
    } else if same_text(lower.as_str(), "start-on-load") {
        Some(OptionKey::StartOnLoad)
    } else {
        None
    }
}

/// The options of a run as the host hands them over: each as it was
/// written, and absent where it was left out.
#[derive(Debug, Clone)]
pub struct RawConfig {
    /// The bound on each round trip to the engine, as a duration in words
    /// (`30s`, `1m 30s`).
    pub timeout: Option<String>,
    /// What to do when a diagram cannot be rendered: `fail` or `comment`.
    pub on_error: Option<String>,
    /// Where the engine's executable is.
    pub chrome_path: Option<PathBuf>,
    /// How much the engine trusts the text of a diagram: `strict`, `loose`,
    /// `antiscript` or `sandbox`.
    pub security_level: Option<String>,
    /// Whether the engine renders by itself once its page has loaded.
    pub start_on_load: Option<bool>,
    /// Every other option, by name.
    pub additional: serde_json::Map<String, Value>,
}

/// Why the options of a run cannot be used.
#[derive(Debug)]
pub enum ConfigError {
    /// The timeout is no duration; the field is what was written.
    InvalidTimeout(String),
    /// The error policy is none of the known ones; the field is what was
    /// written.
    UnknownErrorHandling(String),
    /// The security level is none of the known ones; the field is what was
    /// written.
    UnknownSecurityLevel(String),
}

/// The mathematical value of a `ConfigError`.
pub enum ConfigErrorView {
    InvalidTimeout(Seq<char>),
    UnknownErrorHandling(Seq<char>),
    UnknownSecurityLevel(Seq<char>),
}

impl View for ConfigError {
    type V = ConfigErrorView;

    open spec fn view(&self) -> ConfigErrorView {
        match *self {
            ConfigError::InvalidTimeout(written) => ConfigErrorView::InvalidTimeout(written@),
            ConfigError::UnknownErrorHandling(written) => ConfigErrorView::UnknownErrorHandling(
                written@,
            ),
            ConfigError::UnknownSecurityLevel(written) => ConfigErrorView::UnknownSecurityLevel(
                written@,
            ),
        }
    }
}

impl ConfigErrorView {
    /// The message that names the option and what was written for it.
    pub open spec fn message(self) -> Seq<char> {
        match self {
            ConfigErrorView::InvalidTimeout(written) => "invalid timeout: "@ + written,
            ConfigErrorView::UnknownErrorHandling(written) => "unknown on-error policy: "@
                + written,
            ConfigErrorView::UnknownSecurityLevel(written) => "unknown security-level: "@
                + written,
        }
    }
}

impl ConfigError {
    /// The message that names the option and what was written for it.
    pub fn message(&self) -> (message: String)
        ensures
            message@ == self@.message(),
    {
        match self {
            ConfigError::InvalidTimeout(written) => {
                let mut message = String::from_str("invalid timeout: ");
                message.append(written.as_str());
                message
            },
            ConfigError::UnknownErrorHandling(written) => {
                let mut message = String::from_str("unknown on-error policy: ");
                message.append(written.as_str());
                message
            },
            ConfigError::UnknownSecurityLevel(written) => {
                let mut message = String::from_str("unknown security-level: ");
                message.append(written.as_str());
                message
            },
        }
    }
}

/// The span of time that a text in words stands for (`30s`, `1m 30s`,
/// `250ms`), if it stands for one.
pub uninterp spec fn parsed_duration(text: Seq<char>) -> Option<Timeout>;

/// How many digits a timeout may hold in all. With so few digits no sum of
/// its spans comes near the largest number of seconds.
pub const MAX_TIMEOUT_DIGITS: usize = 11;

/// Whether `c` is one of the digits `0` to `9`.
pub open spec fn is_digit(c: char) -> bool {
    '0' <= c && c <= '9'
}

/// How many of the characters of `text` are digits.
pub open spec fn digit_count(text: Seq<char>) -> nat
    decreases text.len(),
{
    if text.len() == 0 {
        0
    } else if is_digit(text.last()) {
        digit_count(text.drop_last()) + 1
    } else {
        digit_count(text.drop_last())
    }
}

/// How many of the characters of `text` are digits.
pub fn count_digits(text: &str) -> (count: usize)
    ensures
        count == digit_count(text@),
{
    let chars = to_chars(text);
    let mut count: usize = 0;
    let mut i: usize = 0;
    while i < chars.len()
        invariant
            i <= chars.len(),
            chars@ == text@,
            count <= i,
            count == digit_count(chars@.take(i as int)),
        decreases chars.len() - i,
    {
        proof {
            let upto = chars@.take(i as int + 1);
            assert(upto.drop_last() =~= chars@.take(i as int));
            assert(upto.last() == chars@[i as int]);
        }
        if '0' <= chars[i] && chars[i] <= '9' {
            count += 1;
        }
        i += 1;
    }
    assert(chars@.take(i as int) =~= chars@);
    count
}

/// `humantime::parse_duration`: a function of the text alone, and an error
/// where the text is no duration. The duration is handed on in whole
/// seconds (`Duration::as_secs`) and the nanoseconds beyond them
/// (`Duration::subsec_nanos`, which std keeps below one second). A text
/// with more digits than the bound is kept from the call: the parser adds
/// its spans up, and a sum that reaches the largest number of seconds ends
/// in a panic of `Duration::new`.
#[verifier::external_body]
fn parse_duration(text: &str) -> (timeout: Option<Timeout>)
    requires
        digit_count(text@) <= MAX_TIMEOUT_DIGITS,
    ensures
        timeout == parsed_duration(text@),
        timeout matches Some(t) ==> t.is_valid(),
{
    humantime::parse_duration(text).ok().map(|d| Timeout { secs: d.as_secs(), nanos: d.subsec_nanos() })
}

/// What a timeout text is read as: the duration that it stands for, and
/// nothing where it stands for none or holds more digits than the bound.
pub open spec fn timeout_read(text: Seq<char>) -> Option<Timeout> {
    if digit_count(text) > MAX_TIMEOUT_DIGITS {
        None
    } else {
        parsed_duration(text)
    }
}

/// What the written timeout is read as; nothing where none is written.
pub open spec fn timeout_reading(written: Option<String>) -> Option<Timeout> {
    match written {
        None => None,
        Some(text) => timeout_read(text@),
    }
}

/// Reads a timeout text: the duration that it stands for, and nothing where
/// it stands for none or holds more digits than the bound.
pub fn read_timeout(text: &str) -> (timeout: Option<Timeout>)
    ensures
        timeout == timeout_read(text@),
        timeout matches Some(t) ==> t.is_valid(),
{
    if count_digits(text) > MAX_TIMEOUT_DIGITS {
        None
    } else {
        parse_duration(text)
    }
}

/// The error policy of the given name.
pub open spec fn error_handling_named(name: Seq<char>) -> Option<ErrorHandling> {
    if name == "fail"@ {
        Some(ErrorHandling::Fail)
    } else if name == "comment"@ {
        Some(ErrorHandling::Comment)
    } else {
        None
    }
}

/// The security level of the given name.
pub open spec fn security_level_named(name: Seq<char>) -> Option<SecurityLevel> {
    if name == "strict"@ {
        Some(SecurityLevel::Strict)
    } else if name == "loose"@ {
        Some(SecurityLevel::Loose)
    } else if name == "antiscript"@ {
        Some(SecurityLevel::Antiscript)
    } else if name == "sandbox"@ {
        Some(SecurityLevel::Sandbox)
    } else {
        None
    }
}

impl ErrorHandling {
    /// The error policy of the given name, if there is one.
    pub fn from_name(name: &str) -> (policy: Option<ErrorHandling>)
        ensures
            policy == error_handling_named(name@),
    {
        if same_text(name, "fail") {
            Some(ErrorHandling::Fail)
        } else if same_text(name, "comment") {
            Some(ErrorHandling::Comment)
        } else {
            None
        }
    }
}

impl SecurityLevel {
    /// The security level of the given name, if there is one.
    pub fn from_name(name: &str) -> (level: Option<SecurityLevel>)
        ensures
            level == security_level_named(name@),
    {
        if same_text(name, "strict") {
            Some(SecurityLevel::Strict)
        } else if same_text(name, "loose") {
            Some(SecurityLevel::Loose)
        } else if same_text(name, "antiscript") {
            Some(SecurityLevel::Antiscript)
        } else if same_text(name, "sandbox") {
            Some(SecurityLevel::Sandbox)
        } else {
            None
        }
    }
}

/// The timeout of a run, given what was written and what that was read as:
/// the default where none is written, what was read where that is a span of
/// time with its nanoseconds below one second, and none otherwise.
pub open spec fn timeout_of(written: Option<String>, reading: Option<Timeout>) -> Option<
    Timeout,
> {
    match written {
        None => Some(Timeout::of_seconds(DEFAULT_TIMEOUT_SECS)),
        Some(_) => match reading {
            Some(timeout) => if timeout.is_valid() {
                Some(timeout)
            } else {
                None
            },
            None => None,
        },
    }
}

/// The error policy that is written in the options: to fail where none is
/// written, and none where what is written names no policy.
pub open spec fn error_handling_of(written: Option<String>) -> Option<ErrorHandling> {
    match written {
        None => Some(ErrorHandling::Fail),
        Some(name) => error_handling_named(name@),
    }
}

/// The security level that is written in the options: the strictest where
/// none is written, and none where what is written names no level.
pub open spec fn security_level_of(written: Option<String>) -> Option<SecurityLevel> {
    match written {
        None => Some(SecurityLevel::Strict),
        Some(name) => security_level_named(name@),
    }
}

/// What was written, as text; nothing where nothing was written.
pub open spec fn written_text(written: Option<String>) -> Seq<char> {
    match written {
        None => Seq::empty(),
        Some(text) => text@,
    }
}

/// The configuration that the options of the host come to, the written
/// timeout read as `reading`: each option that is left out takes its
/// default, and the first option that does not say what it should, in the
/// order timeout, error policy, security level, is the error.
pub open spec fn validated_with(raw: RawConfig, reading: Option<Timeout>) -> Result<
    Config,
    ConfigErrorView,
> {
    if timeout_of(raw.timeout, reading) is None {
        Err(ConfigErrorView::InvalidTimeout(written_text(raw.timeout)))
    } else if error_handling_of(raw.on_error) is None {
        Err(ConfigErrorView::UnknownErrorHandling(written_text(raw.on_error)))
    } else if security_level_of(raw.security_level) is None {
        Err(ConfigErrorView::UnknownSecurityLevel(written_text(raw.security_level)))
    } else {
        Ok(
            Config {
                timeout: timeout_of(raw.timeout, reading)->0,
                on_error: error_handling_of(raw.on_error)->0,
                chrome_path: raw.chrome_path,
                mermaid: MermaidConfig {
                    security_level: security_level_of(raw.security_level)->0,
                    start_on_load: match raw.start_on_load {
                        Some(flag) => flag,
                        None => false,
                    },
                    additional: raw.additional,
                },
            },
        )
    }
}

/// The configuration that the options of the host come to.
pub open spec fn validated(raw: RawConfig) -> Result<Config, ConfigErrorView> {
    validated_with(raw, timeout_reading(raw.timeout))
}

/// Options in which nothing is written come to the default configuration.
pub proof fn lemma_nothing_written_is_default(raw: RawConfig)
    requires
        raw.timeout is None,
        raw.on_error is None,
        raw.chrome_path is None,
        raw.security_level is None,
        raw.start_on_load is None,
    ensures
        validated(raw) matches Ok(config) && config.timeout == Timeout::of_seconds(
            DEFAULT_TIMEOUT_SECS,
        )
            && config.on_error == ErrorHandling::Fail && config.chrome_path is None
            && config.mermaid.security_level == SecurityLevel::Strict
            && !config.mermaid.start_on_load && config.mermaid.additional == raw.additional,
{
}

/// A hyphenated name in camel case: the hyphens are left out, and a
/// character that stood right behind a hyphen is raised to its capital
/// letter.
pub open spec fn camel_cased(key: Seq<char>) -> Seq<char>
    decreases key.len(),
{
    if key.len() == 0 {
        Seq::empty()
    } else {
        let before = camel_cased(key.drop_last());
        let c = key.last();
        if c == '-' {
            before
        } else if key.len() >= 2 && key[key.len() - 2] == '-' {
            before.push(ascii_upper(c))
        } else {
            before.push(c)
        }
    }
}

/// A name without hyphens is its own camel case.
pub proof fn lemma_camel_keeps_plain_names(key: Seq<char>)
    requires
        forall|i: int| 0 <= i < key.len() ==> key[i] != '-',
    ensures
        camel_cased(key) == key,
    decreases key.len(),
{
    if key.len() > 0 {
        lemma_camel_keeps_plain_names(key.drop_last());
        assert(key.drop_last().push(key.last()) =~= key);
    }
}

/// A name in camel case holds no hyphen.
pub proof fn lemma_camel_has_no_hyphen(key: Seq<char>)
    ensures
        forall|i: int| 0 <= i < camel_cased(key).len() ==> camel_cased(key)[i] != '-',
    decreases key.len(),
{
    if key.len() > 0 {
        let before = camel_cased(key.drop_last());
        let cased = camel_cased(key);
        lemma_camel_has_no_hyphen(key.drop_last());
        lemma_upper_keeps_apart(key.last());
        assert forall|i: int| 0 <= i < cased.len() implies cased[i] != '-' by {
            if i < before.len() {
                assert(cased[i] == before[i]);
            }
        }
    }
}

/// Raising a character to its capital makes no hyphen of it.
proof fn lemma_upper_keeps_apart(c: char)
    ensures
        c != '-' ==> ascii_upper(c) != '-',
{
    if 'a' <= c && c <= 'z' {
        let b = c as u8;
        assert(97 <= b <= 122);
        assert(((b - 32) as u8) as char != '-');
    }
}

/// Camel case is reached at once: casing a cased name changes nothing.
pub proof fn lemma_camel_idempotent(key: Seq<char>)
    ensures
        camel_cased(camel_cased(key)) == camel_cased(key),
{
    lemma_camel_has_no_hyphen(key);
    lemma_camel_keeps_plain_names(camel_cased(key));
}

/// The name of an option as the engine spells it: hyphenated names become
/// camel case, names without hyphens stay as they are.
pub fn kebab_to_camel(s: &str) -> (name: String)
    ensures
        name@ == camel_cased(s@),
{
    let chars = to_chars(s);
    let mut name = String::new();
    let mut i: usize = 0;
    while i < chars.len()
        invariant
            i <= chars.len(),
            chars@ == s@,
            name@ == camel_cased(chars@.take(i as int)),
        decreases chars.len() - i,
    {
        let c = chars[i];
        proof {
            let upto = chars@.take(i as int + 1);
            assert(upto.drop_last() =~= chars@.take(i as int));
            assert(upto.last() == c);
            if i > 0 {
                assert(upto[upto.len() - 2] == chars@[i - 1]);
            }
        }
        if c != '-' {
            if i > 0 && chars[i - 1] == '-' {
                push_char(&mut name, to_ascii_upper(c));
            } else {
                push_char(&mut name, c);
            }
        }
        i += 1;
    }
    assert(chars@.take(i as int) =~= chars@);
    name
}

/// Pair `i` is the last of `pairs` with the name of `entry`, and `entry` is
/// that pair.
pub open spec fn is_last_named(
    pairs: Seq<(Seq<char>, Seq<char>)>,
    i: int,
    entry: (Seq<char>, Seq<char>),
) -> bool {
    &&& pairs[i] == entry
    &&& forall|later: int| i < later < pairs.len() ==> (#[trigger] pairs[later]).0 != entry.0
}

/// `entry` is one of `pairs`, the last one of its name.
pub open spec fn comes_from(pairs: Seq<(Seq<char>, Seq<char>)>, entry: (Seq<char>, Seq<char>)) -> bool {
    exists|i: int| 0 <= i < pairs.len() && #[trigger] is_last_named(pairs, i, entry)
}

/// One of `entries` has the name `name`.
pub open spec fn has_name(entries: Seq<(Seq<char>, Seq<char>)>, name: Seq<char>) -> bool {
    exists|j: int| 0 <= j < entries.len() && (#[trigger] entries[j]).0 == name
}

/// `entry` is one of `entries`.
pub open spec fn has_entry(entries: Seq<(Seq<char>, Seq<char>)>, entry: (Seq<char>, Seq<char>)) -> bool {
    exists|j: int| 0 <= j < entries.len() && #[trigger] entries[j] == entry
}

/// No two of `entries` have the same name.
pub open spec fn distinct_names(entries: Seq<(Seq<char>, Seq<char>)>) -> bool {
    forall|a: int, b: int|
        0 <= a < b < entries.len() ==> (#[trigger] entries[a]).0 != (#[trigger] entries[b]).0
}

/// Each of `held` is the last of `pairs` of its name, and every name of
/// `pairs` is among `held`.
pub open spec fn keeps_last(
    pairs: Seq<(Seq<char>, Seq<char>)>,
    held: Seq<(Seq<char>, Seq<char>)>,
) -> bool {
    &&& forall|j: int| 0 <= j < held.len() ==> comes_from(pairs, #[trigger] held[j])
    &&& forall|i: int| 0 <= i < pairs.len() ==> has_name(held, (#[trigger] pairs[i]).0)
}

/// `held` is what a map holds that took up `pairs` one after the other: no
/// name twice, each entry the last pair of its name, and every pair's name
/// among them.
pub open spec fn gathers(
    pairs: Seq<(Seq<char>, Seq<char>)>,
    held: Seq<(Seq<char>, Seq<char>)>,
) -> bool {
    distinct_names(held) && keeps_last(pairs, held)
}

/// A map that held `before` holds `after` once it has taken `entry` in:
/// `entry` is there, in the place of what stood under its name before;
/// every entry of another name is kept; nothing else has come in; and no
/// name is held twice where none was before.
pub open spec fn takes_in(
    before: Seq<(Seq<char>, Seq<char>)>,
    entry: (Seq<char>, Seq<char>),
    after: Seq<(Seq<char>, Seq<char>)>,
) -> bool {
    &&& has_entry(after, entry)
    &&& forall|i: int|
        0 <= i < before.len() && (#[trigger] before[i]).0 != entry.0 ==> has_entry(
            after,
            before[i],
        )
    &&& forall|j: int|
        0 <= j < after.len() ==> (#[trigger] after[j]) == entry || (after[j].0 != entry.0
            && has_entry(before, after[j]))
    &&& distinct_names(before) ==> distinct_names(after)
}

/// What a JSON value holds, as compact JSON text.
pub uninterp spec fn json_text(value: Value) -> Seq<char>;

/// What a map holds after it has taken in a value under a name, in the
/// order in which the map is walked, given what it held before.
pub uninterp spec fn inserted(
    held: Seq<(Seq<char>, Seq<char>)>,
    name: Seq<char>,
    json: Seq<char>,
) -> Seq<(Seq<char>, Seq<char>)>;

/// The names and JSON values of a sequence of pairs.
pub open spec fn pair_views(pairs: Seq<(String, Value)>) -> Seq<(Seq<char>, Seq<char>)> {
    Seq::new(pairs.len(), |i: int| (pairs[i].0@, json_text(pairs[i].1)))
}

/// The names and values of a map in the order in which it is walked
/// (`Map::iter` of serde_json), each copied.
#[verifier::external_body]
fn pairs_of(options: &serde_json::Map<String, Value>) -> (pairs: Vec<(String, Value)>)
    ensures
        pair_views(pairs@) == option_entries(*options),
{
    options.iter().map(|(key, value)| (key.clone(), value.clone())).collect()
}

/// `Display` of `serde_json::Value`: the value as compact JSON.
#[verifier::external_body]
fn value_to_json(value: &Value) -> (json: String)
    ensures
        json@ == json_text(*value),
{
    value.to_string()
}

/// `Map::insert` of serde_json: the map takes the value in under the name;
/// a value that it held under that name is replaced. Where in the walk a
/// new name comes to stand is the map's own matter, and a function of what
/// the map held and of the name.
#[verifier::external_body]
fn insert_option(options: &mut serde_json::Map<String, Value>, name: String, value: Value)
    ensures
        option_entries(*final(options)) == inserted(
            option_entries(*old(options)),
            name@,
            json_text(value),
        ),
        takes_in(
            option_entries(*old(options)),
            (name@, json_text(value)),
            option_entries(*final(options)),
        ),
{
    options.insert(name, value);
}

/// The options under their camel-case names, in the same order.
pub open spec fn camel_named(options: Seq<(Seq<char>, Seq<char>)>) -> Seq<(Seq<char>, Seq<char>)> {
    Seq::new(options.len(), |i: int| (camel_cased(options[i].0), options[i].1))
}

/// What a map holds that has taken in the first `upto` of `options`, one
/// after the other, each under its camel-case name.
pub open spec fn renamed_upto(options: Seq<(Seq<char>, Seq<char>)>, upto: int) -> Seq<
    (Seq<char>, Seq<char>),
>
    decreases upto,
{
    if upto <= 0 {
        Seq::empty()
    } else {
        inserted(
            renamed_upto(options, upto - 1),
            camel_cased(options[upto - 1].0),
            options[upto - 1].1,
        )
    }
}

/// What a map holds that has taken in all of `options`, one after the
/// other, each under its camel-case name.
pub open spec fn renamed(options: Seq<(Seq<char>, Seq<char>)>) -> Seq<(Seq<char>, Seq<char>)> {
    renamed_upto(options, options.len() as int)
}

/// A map that keeps the last of each name still does so once it has taken
/// one more pair in.
proof fn lemma_takes_in_keeps_last(
    pairs: Seq<(Seq<char>, Seq<char>)>,
    before: Seq<(Seq<char>, Seq<char>)>,
    entry: (Seq<char>, Seq<char>),
    after: Seq<(Seq<char>, Seq<char>)>,
)
    requires
        keeps_last(pairs, before),
        takes_in(before, entry, after),
    ensures
        keeps_last(pairs.push(entry), after),
{
    let more = pairs.push(entry);
    assert forall|j: int| 0 <= j < after.len() implies comes_from(more, #[trigger] after[j]) by {
        if after[j] == entry {
            assert(is_last_named(more, pairs.len() as int, after[j]));
        } else {
            let k = choose|k: int| 0 <= k < before.len() && #[trigger] before[k] == after[j];
            assert(comes_from(pairs, before[k]));
            let i = choose|i: int|
                0 <= i < pairs.len() && #[trigger] is_last_named(pairs, i, before[k]);
            assert(more[i] == pairs[i]);
            assert forall|later: int| i < later < more.len() implies (#[trigger] more[later]).0
                != after[j].0 by {
                if later < pairs.len() {
                    assert(more[later] == pairs[later]);
                }
            }
            assert(is_last_named(more, i, after[j]));
        }
    }
    assert forall|i: int| 0 <= i < more.len() implies has_name(after, (#[trigger] more[i]).0) by {
        let at = choose|at: int| 0 <= at < after.len() && #[trigger] after[at] == entry;
        if i == pairs.len() || more[i].0 == entry.0 {
            assert(after[at].0 == more[i].0);
        } else {
            assert(more[i] == pairs[i]);
            assert(has_name(before, pairs[i].0));
            let k = choose|k: int| 0 <= k < before.len() && (#[trigger] before[k]).0 == pairs[i].0;
            assert(has_entry(after, before[k]));
            let j = choose|j: int| 0 <= j < after.len() && #[trigger] after[j] == before[k];
            assert(after[j].0 == more[i].0);
        }
    }
}

/// A new map with the options of `options` under their camel-case names,
/// taken in one after the other in the order in which `options` is walked:
/// where two options come to the same name the later one stays.
fn with_camel_names(options: &serde_json::Map<String, Value>) -> (out: serde_json::Map<
    String,
    Value,
>)
    ensures
        option_entries(out) == renamed(option_entries(*options)),
        gathers(camel_named(option_entries(*options)), option_entries(out)),
{
    let ghost all = option_entries(*options);
    let ghost named = camel_named(all);
    let mut pairs = pairs_of(options);
    let mut out = serde_json::Map::new();
    let ghost mut done: int = 0;
    proof {
        assert(named.take(0) =~= Seq::empty());
        assert(pair_views(pairs@) =~= all.skip(0));
    }
    while pairs.len() > 0
        invariant
            all == option_entries(*options),
            named == camel_named(all),
            0 <= done <= all.len(),
            pair_views(pairs@) == all.skip(done),
            option_entries(out) == renamed_upto(all, done),
            distinct_names(option_entries(out)),
            keeps_last(named.take(done), option_entries(out)),
        decreases pairs.len(),
    {
        let ghost before = option_entries(out);
        let ghost left = pairs@;
        let pair = pairs.remove(0);
        let ghost first = pair;
        let (key, value) = pair;
        let name = kebab_to_camel(key.as_str());
        proof {
            assert(pair_views(left).len() == left.len());
            assert(all.skip(done).len() == all.len() - done);
            assert(pair_views(pairs@).len() == pairs@.len());
            assert(first == left[0]);
            assert(key == first.0 && value == first.1);
            assert(pair_views(left)[0] == (left[0].0@, json_text(left[0].1)));
            assert(pair_views(left)[0] == all.skip(done)[0]);
            assert(all.skip(done)[0] == all[done]);
            assert(key@ == all[done].0);
            assert(json_text(value) == all[done].1);
            assert(pair_views(pairs@) =~= all.skip(done + 1)) by {
                assert forall|i: int| 0 <= i < pairs@.len() implies pair_views(pairs@)[i]
                    == all.skip(done + 1)[i] by {
                    assert(pairs@[i] == left[i + 1]);
                    assert(pair_views(left)[i + 1] == all.skip(done)[i + 1]);
                }
            }
        }
        insert_option(&mut out, name, value);
        proof {
            let entry = (camel_cased(all[done].0), all[done].1);
            lemma_takes_in_keeps_last(named.take(done), before, entry, option_entries(out));
            assert(named.take(done + 1) =~= named.take(done).push(entry));
            done = done + 1;
        }
    }
    proof {
        assert(pair_views(pairs@).len() == 0);
        assert(done == all.len());
        assert(named.take(done) =~= named);
    }
    out
}

/// The names and values of a sequence of entries.
pub open spec fn entry_views(entries: Seq<(String, String)>) -> Seq<(Seq<char>, Seq<char>)> {
    Seq::new(entries.len(), |i: int| (entries[i].0@, entries[i].1@))
}

/// The entries of a map in the order in which it is walked, each value
/// written out as compact JSON.
fn entries_of(options: &serde_json::Map<String, Value>) -> (entries: Vec<(String, String)>)
    ensures
        entry_views(entries@) == option_entries(*options),
{
    let pairs = pairs_of(options);
    let mut entries: Vec<(String, String)> = Vec::new();
    let mut i: usize = 0;
    while i < pairs.len()
        invariant
            i <= pairs.len(),
            entries.len() == i,
            pair_views(pairs@) == option_entries(*options),
            entry_views(entries@) == pair_views(pairs@).take(i as int),
        decreases pairs.len() - i,
    {
        let ghost before = entries@;
        let json = value_to_json(&pairs[i].1);
        let name = pairs[i].0.clone();
        assert(name@ == pairs@[i as int].0@);
        entries.push((name, json));
        i += 1;
        proof {
            let views = pair_views(pairs@).take(i as int);
            assert(pair_views(pairs@).len() == pairs@.len());
            assert forall|k: int| 0 <= k < views.len() implies entry_views(entries@)[k]
                == views[k] by {
                if k < i - 1 {
                    assert(entries@[k] == before[k]);
                    assert(entry_views(before)[k] == pair_views(pairs@).take(i - 1)[k]);
                }
            }
            assert(entry_views(entries@) =~= views);
        }
    }
    assert(pair_views(pairs@).take(i as int) =~= pair_views(pairs@));
    entries
}

/// The hexadecimal digit `d`, in small letters.
pub open spec fn hex_digit(d: int) -> char {
    if d < 10 {
        ((48 + d) as u8) as char
    } else {
        ((87 + d) as u8) as char
    }
}

/// One character as it stands in a JSON string: the double quote and the
/// backslash behind a backslash; backspace, tab, line feed, form feed and
/// carriage return as a backslash and their letter; every other character
/// below the blank as `\u00` and its two hexadecimal digits; and every other
/// character as it is.
pub open spec fn json_char(c: char) -> Seq<char> {
    if c == '"' {
        seq!['\\', '"']
    } else if c == '\\' {
        seq!['\\', '\\']
    } else if c == '\u{8}' {
        seq!['\\', 'b']
    } else if c == '\t' {
        seq!['\\', 't']
    } else if c == '\n' {
        seq!['\\', 'n']
    } else if c == '\u{c}' {
        seq!['\\', 'f']
    } else if c == '\r' {
        seq!['\\', 'r']
    } else if (c as u32) < 0x20 {
        seq!['\\', 'u', '0', '0', hex_digit((c as u32) as int / 16), hex_digit((c as u32) as int % 16)]
    } else {
        seq![c]
    }
}

/// The characters of a text as they stand in a JSON string.
pub open spec fn json_chars(text: Seq<char>) -> Seq<char>
    decreases text.len(),
{
    if text.len() == 0 {
        Seq::empty()
    } else {
        json_char(text[0]) + json_chars(text.drop_first())
    }
}

/// A text as a JSON string: its characters between double quotes.
pub open spec fn json_string(text: Seq<char>) -> Seq<char> {
    seq!['"'] + json_chars(text) + seq!['"']
}

/// A text without double quote, backslash and control character is written
/// as it is, between double quotes.
pub proof fn lemma_plain_text_is_quoted(text: Seq<char>)
    requires
        forall|i: int|
            0 <= i < text.len() ==> (#[trigger] text[i]) != '"' && text[i] != '\\' && (
            text[i] as u32) >= 0x20,
    ensures
        json_chars(text) == text,
        json_string(text) == seq!['"'] + text + seq!['"'],
    decreases text.len(),
{
    if text.len() > 0 {
        let rest = text.drop_first();
        assert forall|i: int| 0 <= i < rest.len() implies (#[trigger] rest[i]) != '"' && rest[i]
            != '\\' && (rest[i] as u32) >= 0x20 by {
            assert(rest[i] == text[i + 1]);
        }
        lemma_plain_text_is_quoted(rest);
        assert(json_char(text[0]) =~= seq![text[0]]);
        assert(json_chars(text) =~= text);
    } else {
        assert(json_chars(text) =~= text);
    }
}

/// `Display` of a `serde_json::Value` that holds a string (`Value::from`):
/// the string between double quotes, with the double quote, the backslash
/// and the characters below the blank written as serde_json's escapes.
#[verifier::external_body]
fn to_json_string(text: &str) -> (json: String)
    ensures
        json@ == json_string(text@),
{
    Value::from(text).to_string()
}

/// `true` or `false`.
pub open spec fn flag_text(flag: bool) -> Seq<char> {
    if flag {
        "true"@
    } else {
        "false"@
    }
}

/// The members of a JSON object that `entries` give, each led by a comma.
pub open spec fn members_json(entries: Seq<(Seq<char>, Seq<char>)>) -> Seq<char>
    decreases entries.len(),
{
    if entries.len() == 0 {
        Seq::empty()
    } else {
        members_json(entries.drop_last()) + ","@ + json_string(entries.last().0) + ":"@
            + entries.last().1
    }
}

/// The engine's options as one JSON object: the security level, whether to
/// render on load, and then the other options.
pub open spec fn options_json(
    level: SecurityLevel,
    start_on_load: bool,
    entries: Seq<(Seq<char>, Seq<char>)>,
) -> Seq<char> {
    "{\"securityLevel\":\""@ + level.name() + "\",\"startOnLoad\":"@ + flag_text(start_on_load)
        + members_json(entries) + "}"@
}

/// The script that initialises the engine with `options` and defines the
/// render entry point: a function of an identifier and a diagram's source
/// that gives the artifact, or `null` where the engine cannot render it.
pub open spec fn init_script(options: Seq<char>) -> Seq<char> {
    "mermaid.initialize("@ + options
        + ");\n\nwindow.render = async function(id, code) {\n    try {\n        const { svg } = await mermaid.render(id, code);\n        return svg;\n    } catch (error) {\n        console.error('Mermaid rendering error:', error);\n        return null;\n    }\n};"@
}

/// The initialisation script for the given options, the other options as
/// `entries` of names and JSON values.
pub fn init_script_for(
    level: SecurityLevel,
    start_on_load: bool,
    entries: &Vec<(String, String)>,
) -> (script: String)
    ensures
        script@ == init_script(options_json(level, start_on_load, entry_views(entries@))),
{
    let ghost views = entry_views(entries@);
    let mut script = String::from_str("mermaid.initialize(");
    script.append("{\"securityLevel\":\"");
    script.append(level.as_str());
    script.append("\",\"startOnLoad\":");
    script.append(if start_on_load { "true" } else { "false" });
    let ghost head = script@;
    let mut i: usize = 0;
    while i < entries.len()
        invariant
            i <= entries.len(),
            views == entry_views(entries@),
            script@ == head + members_json(views.take(i as int)),
        decreases entries.len() - i,
    {
        proof {
            let upto = views.take(i as int + 1);
            assert(upto.drop_last() =~= views.take(i as int));
            assert(upto.last() == (entries@[i as int].0@, entries@[i as int].1@));
        }
        let name = to_json_string(entries[i].0.as_str());
        script.append(",");
        script.append(name.as_str());
        script.append(":");
        script.append(entries[i].1.as_str());
        i += 1;
        assert(script@ =~= head + members_json(views.take(i as int)));
    }
    assert(views.take(i as int) =~= views);
    script.append("}");
    script.append(
        ");\n\nwindow.render = async function(id, code) {\n    try {\n        const { svg } = await mermaid.render(id, code);\n        return svg;\n    } catch (error) {\n        console.error('Mermaid rendering error:', error);\n        return null;\n    }\n};",
    );
    assert(script@ =~= init_script(options_json(level, start_on_load, views)));
    script
}

/// A map that has taken nothing in holds nothing.
pub proof fn lemma_gathers_nothing(held: Seq<(Seq<char>, Seq<char>)>)
    requires
        gathers(Seq::empty(), held),
    ensures
        held == Seq::<(Seq<char>, Seq<char>)>::empty(),
{
    if held.len() > 0 {
        assert(comes_from(Seq::empty(), held[0]));
    }
    assert(held =~= Seq::<(Seq<char>, Seq<char>)>::empty());
}

impl Config {
    /// The configuration that the options of the host come to, or the first
    /// of them that cannot be used.
    pub fn from_raw(raw: RawConfig) -> (result: Result<Config, ConfigError>)
        ensures
            match result {
                Ok(config) => validated(raw) == Ok::<Config, ConfigErrorView>(config)
                    && config.timeout.is_valid(),
                Err(error) => validated(raw) == Err::<Config, ConfigErrorView>(error@),
            },
    {
        let reading = match &raw.timeout {
            None => None,
            Some(text) => read_timeout(text.as_str()),
        };
        Config::from_read(raw, reading)
    }

    /// The configuration that the options of the host come to where the
    /// written timeout has been read as `reading`, or the first of the
    /// options that cannot be used.
    pub fn from_read(raw: RawConfig, reading: Option<Timeout>) -> (result: Result<
        Config,
        ConfigError,
    >)
        ensures
            match result {
                Ok(config) => validated_with(raw, reading) == Ok::<Config, ConfigErrorView>(config)
                    && config.timeout.is_valid(),
                Err(error) => validated_with(raw, reading) == Err::<Config, ConfigErrorView>(
                    error@,
                ),
            },
    {
        let RawConfig {
            timeout,
            on_error,
            chrome_path,
            security_level,
            start_on_load,
            additional,
        } = raw;
        let timeout = match timeout {
            None => default_timeout(),
            Some(text) => match reading {
                Some(timeout) => {
                    if timeout.nanos >= 1_000_000_000 {
                        return Err(ConfigError::InvalidTimeout(text));
                    }
                    timeout
                },
                None => {
                    return Err(ConfigError::InvalidTimeout(text));
                },
            },
        };
        let on_error = match on_error {
            None => ErrorHandling::Fail,
            Some(name) => match ErrorHandling::from_name(name.as_str()) {
                Some(policy) => policy,
                None => {
                    return Err(ConfigError::UnknownErrorHandling(name));
                },
            },
        };
        let security_level = match security_level {
            None => SecurityLevel::Strict,
            Some(name) => match SecurityLevel::from_name(name.as_str()) {
                Some(level) => level,
                None => {
                    return Err(ConfigError::UnknownSecurityLevel(name));
                },
            },
        };
        let start_on_load = match start_on_load {
            Some(flag) => flag,
            None => false,
        };
        Ok(
            Config {
                timeout,
                on_error,
                chrome_path,
                mermaid: MermaidConfig { security_level, start_on_load, additional },
            },
        )
    }

    /// The options that are handed to the engine besides the security level
    /// and the render-on-load flag: the other options under their camel-case
    /// names, as a map holds them that has taken them in one after the
    /// other.
    pub open spec fn forwarded_options(self) -> Seq<(Seq<char>, Seq<char>)> {
        renamed(option_entries(self.mermaid.additional))
    }

    /// The script that initialises the engine with this configuration.
    pub open spec fn init_script_text(self) -> Seq<char> {
        init_script(
            options_json(
                self.mermaid.security_level,
                self.mermaid.start_on_load,
                self.forwarded_options(),
            ),
        )
    }

    /// The script that initialises the engine with this configuration's
    /// options, the other options under their camel-case names, and defines
    /// the render entry point.
    pub fn build_mermaid_init_script(&self) -> (script: String)
        ensures
            script@ == self.init_script_text(),
            gathers(camel_named(option_entries(self.mermaid.additional)), self.forwarded_options()),
    {
        let renamed = with_camel_names(&self.mermaid.additional);
        let entries = entries_of(&renamed);
        init_script_for(self.mermaid.security_level, self.mermaid.start_on_load, &entries)
    }
}

/// What is forwarded comes from the configured options and from nowhere
/// else: a configuration without other options forwards none, and its script
/// holds the security level and the render-on-load flag only.
pub proof fn lemma_nothing_to_forward(config: Config)
    requires
        option_entries(config.mermaid.additional).len() == 0,
        gathers(camel_named(option_entries(config.mermaid.additional)), config.forwarded_options()),
    ensures
        config.forwarded_options() == Seq::<(Seq<char>, Seq<char>)>::empty(),
        config.init_script_text() == init_script(
            options_json(config.mermaid.security_level, config.mermaid.start_on_load, Seq::empty()),
        ),
{
    assert(camel_named(option_entries(config.mermaid.additional)) =~= Seq::empty());
    lemma_gathers_nothing(config.forwarded_options());
}

} // verus!
