//! The configuration: a file, overridden by environment variables.

use vstd::prelude::*;
use vstd::string::*;

use crate::json::{fields_view, json_view, pairs_view, Json, JsonShape, RawJson};
use crate::rewrite::{
    lemma_renames_listed, patch_entries, patch_pairs, patch_view, rename_entries, rename_pairs,
};
use crate::text::{
    debug_quoted, debug_text, join, law_trimmed_trailing, parse_unsigned, same_text, text_view, trim_trailing,
    trimmed_trailing, unsigned_value,
};

verus! {

/// What a configuration file sets. Nothing in it is required.
#[derive(Debug)]
pub struct FileCfg {
    /// The port to listen on.
    pub port: Option<u16>,
    /// The address that requests go to.
    pub upstream: Option<String>,
    /// The most requests that may be with the upstream at once.
    pub concurrency: Option<u32>,
    /// How many seconds a request waits for its turn.
    pub queue_timeout: Option<u64>,
    /// The fields to set or remove in each body.
    pub patch: Json,
    /// The fields to rename in each body.
    pub rename: Json,
    /// The key for clients that bring none.
    pub api_key: Option<String>,
}

/// The contents of an empty configuration file.
pub open spec fn empty_file() -> FileCfg {
    FileCfg {
        port: None,
        upstream: None,
        concurrency: None,
        queue_timeout: None,
        patch: JsonShape::Null,
        rename: JsonShape::Null,
        api_key: None,
    }
}

impl Default for FileCfg {
    fn default() -> (r: Self)
        ensures
            r == empty_file(),
    {
        FileCfg {
            port: None,
            upstream: None,
            concurrency: None,
            queue_timeout: None,
            patch: JsonShape::Null,
            rename: JsonShape::Null,
            api_key: None,
        }
    }
}

/// The environment variables that override the file.
#[derive(Clone, Copy, Debug, PartialEq, Eq)]
pub enum EnvVar {
    Port,
    Upstream,
    ApiKey,
    Concurrency,
    QueueTimeout,
}

impl EnvVar {
    /// The name of the variable.
    pub open spec fn name_text(self) -> Seq<char> {
        match self {
            EnvVar::Port => "PORT"@,
            EnvVar::Upstream => "UPSTREAM"@,
            EnvVar::ApiKey => "API_KEY"@,
            EnvVar::Concurrency => "CONCURRENCY"@,
            EnvVar::QueueTimeout => "QUEUE_TIMEOUT"@,
        }
    }

    /// The name of the variable.
    pub fn name(self) -> (r: &'static str)
        ensures
            r@ == self.name_text(),
    {
        match self {
            EnvVar::Port => "PORT",
            EnvVar::Upstream => "UPSTREAM",
            EnvVar::ApiKey => "API_KEY",
            EnvVar::Concurrency => "CONCURRENCY",
            EnvVar::QueueTimeout => "QUEUE_TIMEOUT",
        }
    }
}

/// What reading an environment variable gave.
#[derive(Debug)]
pub enum EnvRead {
    /// The variable is not set.
    Absent,
    /// The variable is set to a text.
    Value(String),
    /// The variable is set, but not to a text.
    Invalid(String),
}

/// What reading the configuration file gave.
#[derive(Debug)]
pub enum ConfigFile {
    /// There is no file.
    Missing,
    /// There is a file that cannot be read, and why.
    Unreadable(String),
    /// There is a file: its fields, or why they could not be made out.
    Read(Result<FileCfg, String>),
}

/// Why a configuration is refused.
#[derive(Debug)]
pub enum CfgError {
    FileUnreadable(String),
    FileMalformed(String),
    FilePort,
    FileConcurrency,
    FileUpstream,
    FilePatch,
    FileRename,
    FileRenameValues,
    FileApiKey,
    EnvInvalid(EnvVar, String),
    Port(String),
    PortZero,
    Concurrency(String),
    QueueTimeout(String),
    QueueWithoutLimit,
    UpstreamMissing,
    UpstreamUrl(String),
    UpstreamScheme,
    UpstreamSuffix,
    ApiKey,
    Client(String),
}

/// The first thing that is wrong with the contents of a configuration file.
pub open spec fn file_fault(cfg: FileCfg) -> Option<CfgError> {
    if cfg.port == Some(0u16) {
        Some(CfgError::FilePort)
    } else if cfg.concurrency == Some(0u32) {
        Some(CfgError::FileConcurrency)
    } else if text_view(cfg.upstream) == Some(Seq::<char>::empty()) {
        Some(CfgError::FileUpstream)
    } else if cfg.patch is Other {
        Some(CfgError::FilePatch)
    } else if cfg.rename is Other {
        Some(CfgError::FileRename)
    } else if !only_texts(json_view(cfg.rename)) {
        Some(CfgError::FileRenameValues)
    } else if text_view(cfg.api_key) == Some(Seq::<char>::empty()) {
        Some(CfgError::FileApiKey)
    } else {
        None
    }
}

/// Whether the values of an object are all strings.
pub open spec fn only_texts(
    json: JsonShape<Seq<(Seq<char>, Option<Seq<char>>, Seq<char>)>>,
) -> bool {
    json matches JsonShape::Object(entries) ==> forall|i: int|
        0 <= i < entries.len() ==> (#[trigger] entries[i]).1 is Some
}

fn holds_only_texts(json: &Json) -> (r: bool)
    ensures
        r == only_texts(json_view(*json)),
{
    if let JsonShape::Object(entries) = json {
        let ghost all = fields_view(entries@);
        let mut i: usize = 0;
        while i < entries.len()
            invariant
                i <= entries.len(),
                all == fields_view(entries@),
                json_view(*json) == JsonShape::Object(all),
                forall|j: int| 0 <= j < i ==> (#[trigger] all[j]).1 is Some,
            decreases entries.len() - i,
        {
            if entries[i].1.text.is_none() {
                assert(all[i as int].1 is None);
                return false;
            }
            i += 1;
        }
    }
    true
}

fn is_empty_text(s: &Option<String>) -> (r: bool)
    ensures
        r == (text_view(*s) == Some(Seq::<char>::empty())),
{
    match s {
        Some(s) => {
            let r = s.as_str().is_empty();
            assert(r ==> s@ =~= Seq::<char>::empty());
            r
        },
        None => false,
    }
}

/// Checks the contents of a configuration file, given its fields, or why they could not
/// be made out.
pub fn parse_file_cfg(parsed: Result<FileCfg, String>) -> (r: Result<FileCfg, CfgError>)
    ensures
        r == match parsed {
            Ok(cfg) => match file_fault(cfg) {
                Some(fault) => Err(fault),
                None => Ok(cfg),
            },
            Err(message) => Err(CfgError::FileMalformed(message)),
        },
        // Accepted contents are handed on as they are.
        r matches Ok(kept) ==> (parsed matches Ok(cfg) && kept == cfg),
        parsed matches Ok(cfg) ==> (r is Ok <==> {
            &&& cfg.port matches Some(port) ==> port != 0
            &&& cfg.concurrency matches Some(limit) ==> limit != 0
            &&& cfg.upstream matches Some(upstream) ==> upstream@.len() > 0
            &&& cfg.patch is Null || cfg.patch is Object
            &&& cfg.rename is Null || cfg.rename is Object
            &&& cfg.rename matches JsonShape::Object(entries) ==> forall|i: int|
                0 <= i < entries@.len() ==> (#[trigger] entries@[i]).1.text is Some
            &&& cfg.api_key matches Some(key) ==> key@.len() > 0
        }),
{
    proof {
        law_file_accepted(parsed->Ok_0);
    }
    let cfg = match parsed {
        Ok(cfg) => cfg,
        Err(message) => {
            return Err(CfgError::FileMalformed(message));
        },
    };
    if let Some(0) = cfg.port {
        return Err(CfgError::FilePort);
    }
    if let Some(0) = cfg.concurrency {
        return Err(CfgError::FileConcurrency);
    }
    if is_empty_text(&cfg.upstream) {
        return Err(CfgError::FileUpstream);
    }
    if let JsonShape::Other = &cfg.patch {
        return Err(CfgError::FilePatch);
    }
    if let JsonShape::Other = &cfg.rename {
        return Err(CfgError::FileRename);
    }
    if !holds_only_texts(&cfg.rename) {
        return Err(CfgError::FileRenameValues);
    }
    if is_empty_text(&cfg.api_key) {
        return Err(CfgError::FileApiKey);
    }
    Ok(cfg)
}

/// A file is accepted if and only if its port and its limit are not 0, its upstream and
/// its key are not empty, its patch is an object or nothing, and its rename is nothing or
/// an object with strings only.
pub proof fn law_file_accepted(cfg: FileCfg)
    ensures
        file_fault(cfg) is None <==> {
            &&& cfg.port matches Some(port) ==> port != 0
            &&& cfg.concurrency matches Some(limit) ==> limit != 0
            &&& cfg.upstream matches Some(upstream) ==> upstream@.len() > 0
            &&& cfg.patch is Null || cfg.patch is Object
            &&& cfg.rename is Null || cfg.rename is Object
            &&& cfg.rename matches JsonShape::Object(entries) ==> forall|i: int|
                0 <= i < entries@.len() ==> (#[trigger] entries@[i]).1.text is Some
            &&& cfg.api_key matches Some(key) ==> key@.len() > 0
        },
{
    if let Some(text) = cfg.upstream {
        assert(text@.len() == 0 ==> text@ =~= Seq::empty());
    }
    if let Some(text) = cfg.api_key {
        assert(text@.len() == 0 ==> text@ =~= Seq::empty());
    }
    if let JsonShape::Object(entries) = cfg.rename {
        let view = fields_view(entries@);
        assert(json_view(cfg.rename) == JsonShape::Object(view));
        assert forall|i: int| 0 <= i < view.len() implies ((#[trigger] view[i]).1 is Some
            <==> entries@[i].1.text is Some) by {
        }
        if only_texts(json_view(cfg.rename)) {
            assert forall|i: int| 0 <= i < entries@.len() implies (
            #[trigger] entries@[i]).1.text is Some by {
                assert(view[i].1 is Some);
            }
        } else {
            let i = choose|i: int| 0 <= i < view.len() && !((#[trigger] view[i]).1 is Some);
            assert(!(entries@[i].1.text is Some));
        }
    }
}

/// Each fault of a file is named for what it is.
pub proof fn law_file_faults(cfg: FileCfg)
    ensures
        file_fault(cfg) matches Some(fault) ==> {
            ||| fault is FilePort && cfg.port == Some(0u16)
            ||| fault is FileConcurrency && cfg.concurrency == Some(0u32)
            ||| fault is FileUpstream && cfg.upstream is Some && cfg.upstream->0@.len() == 0
            ||| fault is FilePatch && cfg.patch is Other
            ||| fault is FileRename && cfg.rename is Other
            ||| fault is FileRenameValues && cfg.rename is Object
            ||| fault is FileApiKey && cfg.api_key is Some && cfg.api_key->0@.len() == 0
        },
        cfg.port == Some(0u16) ==> file_fault(cfg) == Some(CfgError::FilePort),
        cfg.port != Some(0u16) && cfg.concurrency == Some(0u32) ==> file_fault(cfg) == Some(
            CfgError::FileConcurrency,
        ),
{
}

/// The configured text of a variable, where it is set.
pub open spec fn env_text(var: EnvVar, read: EnvRead) -> Result<Option<String>, CfgError> {
    match read {
        EnvRead::Absent => Ok(None),
        EnvRead::Value(value) => Ok(Some(value)),
        EnvRead::Invalid(reason) => Err(CfgError::EnvInvalid(var, reason)),
    }
}

/// The text of an environment variable, where it is set.
pub fn env_value(var: EnvVar, read: EnvRead) -> (r: Result<Option<String>, CfgError>)
    ensures
        r == env_text(var, read),
        read is Absent ==> r == Ok::<Option<String>, CfgError>(None),
        read matches EnvRead::Value(value) ==> r == Ok::<_, CfgError>(Some(value)),
        read matches EnvRead::Invalid(reason) ==> r == Err::<Option<String>, _>(
            CfgError::EnvInvalid(var, reason),
        ),
{
    match read {
        EnvRead::Absent => Ok(None),
        EnvRead::Value(value) => Ok(Some(value)),
        EnvRead::Invalid(reason) => Err(CfgError::EnvInvalid(var, reason)),
    }
}

/// A text setting: the variable's, or else the file's.
pub open spec fn text_choice(
    var: EnvVar,
    file: Option<String>,
    read: EnvRead,
) -> Result<Option<String>, CfgError> {
    match env_text(var, read) {
        Ok(Some(value)) => Ok(Some(value)),
        Ok(None) => Ok(file),
        Err(error) => Err(error),
    }
}

/// Chooses a text setting.
pub fn text_setting(var: EnvVar, file: Option<String>, read: EnvRead) -> (r: Result<
    Option<String>,
    CfgError,
>)
    ensures
        r == text_choice(var, file, read),
        read is Absent ==> r == Ok::<_, CfgError>(file),
        read matches EnvRead::Value(value) ==> r == Ok::<_, CfgError>(Some(value)),
        read matches EnvRead::Invalid(reason) ==> r == Err::<Option<String>, _>(
            CfgError::EnvInvalid(var, reason),
        ),
{
    match env_value(var, read) {
        Ok(Some(value)) => Ok(Some(value)),
        Ok(None) => Ok(file),
        Err(error) => Err(error),
    }
}

/// The port that is listened on where nothing sets one.
pub const DEFAULT_PORT: u16 = 8080;

/// The port: the variable's, or else the file's, or else the default. The variable must
/// hold a number from 1 to 65535.
pub open spec fn port_choice(file: Option<u16>, read: EnvRead) -> Result<u16, CfgError> {
    match env_text(EnvVar::Port, read) {
        Ok(Some(value)) => match unsigned_value(value@) {
            Some(n) if 0 < n <= 65535 => Ok(n as u16),
            Some(n) if n == 0 => Err(CfgError::PortZero),
            _ => Err(CfgError::Port(value)),
        },
        Ok(None) => match file {
            Some(port) => Ok(port),
            None => Ok(DEFAULT_PORT),
        },
        Err(error) => Err(error),
    }
}

/// Chooses the port.
pub fn port_setting(file: Option<u16>, read: EnvRead) -> (r: Result<u16, CfgError>)
    ensures
        r == port_choice(file, read),
        read is Absent ==> r == Ok::<_, CfgError>(
            if file is Some {
                file->0
            } else {
                8080
            },
        ),
        read matches EnvRead::Value(value) ==> {
            &&& r is Ok <==> unsigned_value(value@) is Some && 1 <= unsigned_value(value@)->0
                <= 65535
            &&& r matches Ok(port) ==> port as nat == unsigned_value(value@)->0
            &&& r matches Err(error) ==> error == CfgError::Port(value) || error
                == CfgError::PortZero && unsigned_value(value@) == Some(0nat)
        },
        read matches EnvRead::Invalid(reason) ==> r == Err::<u16, _>(
            CfgError::EnvInvalid(EnvVar::Port, reason),
        ),
{
    match env_value(EnvVar::Port, read) {
        Ok(Some(value)) => match parse_unsigned(value.as_str(), 65535) {
            Some(n) => if n == 0 {
                Err(CfgError::PortZero)
            } else {
                Ok(n as u16)
            },
            None => Err(CfgError::Port(value)),
        },
        Ok(None) => match file {
            Some(port) => Ok(port),
            None => Ok(DEFAULT_PORT),
        },
        Err(error) => Err(error),
    }
}

/// The limit on requests: the variable's, or else the file's. The variable must hold a
/// number from 1 to 4294967295.
pub open spec fn concurrency_choice(file: Option<u32>, read: EnvRead) -> Result<
    Option<u32>,
    CfgError,
> {
    match env_text(EnvVar::Concurrency, read) {
        Ok(Some(value)) => match unsigned_value(value@) {
            Some(n) if 0 < n <= u32::MAX => Ok(Some(n as u32)),
            _ => Err(CfgError::Concurrency(value)),
        },
        Ok(None) => Ok(file),
        Err(error) => Err(error),
    }
}

/// Chooses the limit on requests.
pub fn concurrency_setting(file: Option<u32>, read: EnvRead) -> (r: Result<Option<u32>, CfgError>)
    ensures
        r == concurrency_choice(file, read),
        read is Absent ==> r == Ok::<_, CfgError>(file),
        read matches EnvRead::Value(value) ==> {
            &&& r is Ok <==> unsigned_value(value@) is Some && 1 <= unsigned_value(value@)->0
                <= 4294967295
            &&& r matches Ok(limit) ==> limit is Some && limit->0 as nat == unsigned_value(
                value@,
            )->0
            &&& r matches Err(error) ==> error == CfgError::Concurrency(value)
        },
        read matches EnvRead::Invalid(reason) ==> r == Err::<Option<u32>, _>(
            CfgError::EnvInvalid(EnvVar::Concurrency, reason),
        ),
{
    match env_value(EnvVar::Concurrency, read) {
        Ok(Some(value)) => match parse_unsigned(value.as_str(), u32::MAX as u64) {
            Some(n) => if n == 0 {
                Err(CfgError::Concurrency(value))
            } else {
                Ok(Some(n as u32))
            },
            None => Err(CfgError::Concurrency(value)),
        },
        Ok(None) => Ok(file),
        Err(error) => Err(error),
    }
}

/// The seconds to wait for a turn: the variable's, or else the file's. The variable
/// must hold a number of 64 bits.
pub open spec fn queue_timeout_choice(file: Option<u64>, read: EnvRead) -> Result<
    Option<u64>,
    CfgError,
> {
    match env_text(EnvVar::QueueTimeout, read) {
        Ok(Some(value)) => match unsigned_value(value@) {
            Some(n) if n <= u64::MAX => Ok(Some(n as u64)),
            _ => Err(CfgError::QueueTimeout(value)),
        },
        Ok(None) => Ok(file),
        Err(error) => Err(error),
    }
}

/// Chooses the seconds to wait for a turn.
pub fn queue_timeout_setting(file: Option<u64>, read: EnvRead) -> (r: Result<
    Option<u64>,
    CfgError,
>)
    ensures
        r == queue_timeout_choice(file, read),
        read is Absent ==> r == Ok::<_, CfgError>(file),
        read matches EnvRead::Value(value) ==> {
            &&& r is Ok <==> unsigned_value(value@) is Some && unsigned_value(value@)->0
                <= 18446744073709551615
            &&& r matches Ok(seconds) ==> seconds is Some && seconds->0 as nat == unsigned_value(
                value@,
            )->0
            &&& r matches Err(error) ==> error == CfgError::QueueTimeout(value)
        },
        read matches EnvRead::Invalid(reason) ==> r == Err::<Option<u64>, _>(
            CfgError::EnvInvalid(EnvVar::QueueTimeout, reason),
        ),
{
    match env_value(EnvVar::QueueTimeout, read) {
        Ok(Some(value)) => match parse_unsigned(value.as_str(), u64::MAX) {
            Some(n) => Ok(Some(n)),
            None => Err(CfgError::QueueTimeout(value)),
        },
        Ok(None) => Ok(file),
        Err(error) => Err(error),
    }
}

/// What reading each environment variable gave.
#[derive(Debug)]
pub struct EnvReads {
    pub port: EnvRead,
    pub upstream: EnvRead,
    pub api_key: EnvRead,
    pub concurrency: EnvRead,
    pub queue_timeout: EnvRead,
}

/// The settings, the file's overridden by the environment's.
#[derive(Debug)]
pub struct Settings {
    pub port: u16,
    pub upstream: String,
    pub api_key: Option<String>,
    pub concurrency: Option<u32>,
    pub queue_timeout: Option<u64>,
    pub patch: Json,
    pub rename: Json,
}

/// The contents of the configuration file, which count as empty where there is none.
pub open spec fn file_contents(file: ConfigFile) -> Result<FileCfg, CfgError> {
    match file {
        ConfigFile::Missing => Ok(empty_file()),
        ConfigFile::Unreadable(reason) => Err(CfgError::FileUnreadable(reason)),
        ConfigFile::Read(Err(message)) => Err(CfgError::FileMalformed(message)),
        ConfigFile::Read(Ok(cfg)) => match file_fault(cfg) {
            Some(fault) => Err(fault),
            None => Ok(cfg),
        },
    }
}

/// The settings that a file's contents and the environment make, or the first thing
/// that is wrong with them.
pub open spec fn merged(cfg: FileCfg, env: EnvReads) -> Result<Settings, CfgError> {
    match (
        port_choice(cfg.port, env.port),
        text_choice(EnvVar::Upstream, cfg.upstream, env.upstream),
        text_choice(EnvVar::ApiKey, cfg.api_key, env.api_key),
        concurrency_choice(cfg.concurrency, env.concurrency),
        queue_timeout_choice(cfg.queue_timeout, env.queue_timeout),
    ) {
        (Err(error), _, _, _, _) => Err(error),
        (_, Err(error), _, _, _) => Err(error),
        (_, _, Err(error), _, _) => Err(error),
        (_, _, _, Err(error), _) => Err(error),
        (_, _, _, _, Err(error)) => Err(error),
        (Ok(port), Ok(upstream), Ok(api_key), Ok(concurrency), Ok(queue_timeout)) => {
            if queue_timeout is Some && concurrency is None {
                Err(CfgError::QueueWithoutLimit)
            } else {
                match upstream {
                    None => Err(CfgError::UpstreamMissing),
                    Some(upstream) => Ok(
                        Settings {
                            port,
                            upstream,
                            api_key,
                            concurrency,
                            queue_timeout,
                            patch: cfg.patch,
                            rename: cfg.rename,
                        },
                    ),
                }
            }
        },
    }
}

/// A variable that writes a number sets that very number: the port, the limit, the
/// seconds to wait. One that holds a text sets that very text. Where the settings are
/// accepted, every variable that is set writes what it has to.
pub proof fn law_variable_sets(cfg: FileCfg, env: EnvReads)
    ensures
        merged(cfg, env) matches Ok(settings) ==> {
            &&& env.port matches EnvRead::Value(value) ==> {
                &&& unsigned_value(value@) == Some(settings.port as nat)
                &&& settings.port >= 1
            }
            &&& env.upstream matches EnvRead::Value(value) ==> settings.upstream == value
            &&& env.api_key matches EnvRead::Value(value) ==> settings.api_key == Some(value)
            &&& env.concurrency matches EnvRead::Value(value) ==> {
                &&& settings.concurrency is Some
                &&& unsigned_value(value@) == Some(settings.concurrency->0 as nat)
                &&& settings.concurrency->0 >= 1
            }
            &&& env.queue_timeout matches EnvRead::Value(value) ==> {
                &&& settings.queue_timeout is Some
                &&& unsigned_value(value@) == Some(settings.queue_timeout->0 as nat)
            }
        },
{
}

/// Settings are accepted if and only if every variable is a text, the numbers among them
/// can be read and are in range, a time to wait comes with a limit, and there is an
/// upstream.
pub proof fn law_settings_accepted(cfg: FileCfg, env: EnvReads)
    ensures
        merged(cfg, env) is Ok <==> {
            &&& !(env.port is Invalid) && !(env.upstream is Invalid) && !(env.api_key is Invalid)
            &&& !(env.concurrency is Invalid) && !(env.queue_timeout is Invalid)
            &&& env.port matches EnvRead::Value(value) ==> unsigned_value(value@) is Some && 1
                <= unsigned_value(value@)->0 <= 65535
            &&& env.concurrency matches EnvRead::Value(value) ==> unsigned_value(value@) is Some
                && 1 <= unsigned_value(value@)->0 <= 4294967295
            &&& env.queue_timeout matches EnvRead::Value(value) ==> unsigned_value(value@) is Some
                && unsigned_value(value@)->0 <= 18446744073709551615
            &&& env.queue_timeout is Value || cfg.queue_timeout is Some ==> env.concurrency is Value
                || cfg.concurrency is Some
            &&& env.upstream is Value || cfg.upstream is Some
        },
{
}

/// A refusal names the variable that is at fault, with its text or the reason it has none;
/// or a time to wait without a limit; or a missing upstream.
pub proof fn law_settings_refused(cfg: FileCfg, env: EnvReads)
    ensures
        merged(cfg, env) matches Err(error) ==> {
            ||| error matches CfgError::EnvInvalid(var, reason) && match var {
                EnvVar::Port => env.port == EnvRead::Invalid(reason),
                EnvVar::Upstream => env.upstream == EnvRead::Invalid(reason),
                EnvVar::ApiKey => env.api_key == EnvRead::Invalid(reason),
                EnvVar::Concurrency => env.concurrency == EnvRead::Invalid(reason),
                EnvVar::QueueTimeout => env.queue_timeout == EnvRead::Invalid(reason),
            }
            ||| error matches CfgError::Port(text) && env.port == EnvRead::Value(text)
            ||| error is PortZero && env.port is Value && unsigned_value(env.port->Value_0@)
                == Some(0nat)
            ||| error matches CfgError::Concurrency(text) && env.concurrency == EnvRead::Value(text)
            ||| error matches CfgError::QueueTimeout(text) && env.queue_timeout == EnvRead::Value(
                text,
            )
            ||| error is QueueWithoutLimit && env.concurrency is Absent && cfg.concurrency is None
            ||| error is UpstreamMissing && env.upstream is Absent && cfg.upstream is None
        },
{
}

/// The faults of the variables are looked for in a fixed order, and the first one found
/// is the one that is named: the port, the upstream, the key, the limit, the seconds.
pub proof fn law_first_fault(cfg: FileCfg, env: EnvReads, reason: String)
    ensures
        env.port == EnvRead::Invalid(reason) ==> merged(cfg, env) == Err::<Settings, _>(
            CfgError::EnvInvalid(EnvVar::Port, reason),
        ),
        env.port is Absent && env.upstream == EnvRead::Invalid(reason) ==> merged(cfg, env) == Err::<
            Settings,
            _,
        >(CfgError::EnvInvalid(EnvVar::Upstream, reason)),
        env.port is Absent && !(env.upstream is Invalid) && env.api_key == EnvRead::Invalid(reason)
            ==> merged(cfg, env) == Err::<Settings, _>(
            CfgError::EnvInvalid(EnvVar::ApiKey, reason),
        ),
        env.port is Absent && !(env.upstream is Invalid) && !(env.api_key is Invalid)
            && env.concurrency == EnvRead::Invalid(reason) ==> merged(cfg, env) == Err::<
            Settings,
            _,
        >(CfgError::EnvInvalid(EnvVar::Concurrency, reason)),
        env.port is Absent && !(env.upstream is Invalid) && !(env.api_key is Invalid)
            && env.concurrency is Absent && env.queue_timeout == EnvRead::Invalid(reason) ==> merged(
            cfg,
            env,
        ) == Err::<Settings, _>(CfgError::EnvInvalid(EnvVar::QueueTimeout, reason)),
{
}

/// A missing file counts as one that sets nothing; an accepted file as what it holds; any
/// other is refused, with the reason it gave.
pub proof fn law_file_contents(cfg: FileCfg, reason: String)
    ensures
        file_contents(ConfigFile::Missing) matches Ok(contents) && {
            &&& contents.port is None && contents.upstream is None && contents.api_key is None
            &&& contents.concurrency is None && contents.queue_timeout is None
            &&& contents.patch is Null && contents.rename is Null
        },
        file_contents(ConfigFile::Unreadable(reason)) == Err::<FileCfg, _>(
            CfgError::FileUnreadable(reason),
        ),
        file_contents(ConfigFile::Read(Err(reason))) == Err::<FileCfg, _>(
            CfgError::FileMalformed(reason),
        ),
        file_fault(cfg) is None ==> file_contents(ConfigFile::Read(Ok(cfg))) == Ok::<_, CfgError>(
            cfg,
        ),
        file_fault(cfg) matches Some(fault) ==> file_contents(ConfigFile::Read(Ok(cfg))) == Err::<
            FileCfg,
            _,
        >(fault),
{
}

/// Merges the file and the environment.
pub fn merge_settings(file: ConfigFile, env: EnvReads) -> (r: Result<Settings, CfgError>)
    ensures
        r == match file_contents(file) {
            Ok(cfg) => merged(cfg, env),
            Err(error) => Err(error),
        },
{
    let cfg = match file {
        ConfigFile::Read(parsed) => match parse_file_cfg(parsed) {
            Ok(cfg) => cfg,
            Err(error) => {
                return Err(error);
            },
        },
        ConfigFile::Missing => FileCfg::default(),
        ConfigFile::Unreadable(reason) => {
            return Err(CfgError::FileUnreadable(reason));
        },
    };
    let port = match port_setting(cfg.port, env.port) {
        Ok(port) => port,
        Err(error) => {
            return Err(error);
        },
    };
    let upstream = match text_setting(EnvVar::Upstream, cfg.upstream, env.upstream) {
        Ok(upstream) => upstream,
        Err(error) => {
            return Err(error);
        },
    };
    let api_key = match text_setting(EnvVar::ApiKey, cfg.api_key, env.api_key) {
        Ok(api_key) => api_key,
        Err(error) => {
            return Err(error);
        },
    };
    let concurrency = match concurrency_setting(cfg.concurrency, env.concurrency) {
        Ok(concurrency) => concurrency,
        Err(error) => {
            return Err(error);
        },
    };
    let queue_timeout = match queue_timeout_setting(cfg.queue_timeout, env.queue_timeout) {
        Ok(queue_timeout) => queue_timeout,
        Err(error) => {
            return Err(error);
        },
    };
    if queue_timeout.is_some() && concurrency.is_none() {
        return Err(CfgError::QueueWithoutLimit);
    }
    match upstream {
        Some(upstream) => Ok(
            Settings {
                port,
                upstream,
                api_key,
                concurrency,
                queue_timeout,
                patch: cfg.patch,
                rename: cfg.rename,
            },
        ),
        None => Err(CfgError::UpstreamMissing),
    }
}

/// The parts of a URL that decide whether it can be an upstream.
#[derive(Debug)]
pub struct UrlParts {
    pub scheme: String,
    pub host: Option<String>,
    pub query: Option<String>,
    pub fragment: Option<String>,
}

/// Scheme, host, query and fragment of a URL.
pub type UrlView = (Seq<char>, Option<Seq<char>>, Option<Seq<char>>, Option<Seq<char>>);

/// The parts of a URL as plain texts.
pub open spec fn url_view(url: UrlParts) -> UrlView {
    (url.scheme@, text_view(url.host), text_view(url.query), text_view(url.fragment))
}

/// What `reqwest::Url::parse` makes of a text, or the message of its error.
pub uninterp spec fn parsed_url(text: Seq<char>) -> Result<UrlView, Seq<char>>;

/// `reqwest::Url::parse`, with `Url::scheme`, `host_str`, `query` and `fragment`.
/// Believed of them: the result depends on `text` alone.
#[verifier::external_body]
fn parse_url(text: &str) -> (r: Result<UrlParts, String>)
    ensures
        parsed_url(text@) == match r {
            Ok(url) => Ok(url_view(url)),
            Err(message) => Err(message@),
        },
{
    let url = reqwest::Url::parse(text).map_err(|e| e.to_string())?;
    Ok(
        UrlParts {
            scheme: url.scheme().to_owned(),
            host: url.host_str().map(str::to_owned),
            query: url.query().map(str::to_owned),
            fragment: url.fragment().map(str::to_owned),
        },
    )
}

/// Why a URL cannot be an upstream: it must be `http` or `https`, have a host, and have
/// neither a query nor a fragment.
pub open spec fn url_fault(url: UrlView) -> Option<CfgError> {
    if (url.0 != "http"@ && url.0 != "https"@) || url.1 is None {
        Some(CfgError::UpstreamScheme)
    } else if url.2 is Some || url.3 is Some {
        Some(CfgError::UpstreamSuffix)
    } else {
        None
    }
}

/// An address is accepted if and only if its scheme is `http` or `https` and it has a host,
/// no query and no fragment; a query or fragment is what is wrong only where nothing else
/// is.
pub proof fn law_url_accepted(url: UrlView)
    ensures
        url_fault(url) is None <==> (url.0 == "http"@ || url.0 == "https"@) && url.1 is Some
            && url.2 is None && url.3 is None,
        (url.0 != "http"@ && url.0 != "https"@) || url.1 is None ==> url_fault(url) == Some(
            CfgError::UpstreamScheme,
        ),
        (url.0 == "http"@ || url.0 == "https"@) && url.1 is Some && (url.2 is Some || url.3 is Some)
            ==> url_fault(url) == Some(CfgError::UpstreamSuffix),
{
}

/// The view of a URL keeps its four parts.
pub proof fn law_url_view(url: UrlParts)
    ensures
        url_view(url).0 == url.scheme@,
        url_view(url).1 is Some <==> url.host is Some,
        url_view(url).2 is Some <==> url.query is Some,
        url_view(url).3 is Some <==> url.fragment is Some,
{
}

/// Checks the parts of an upstream URL, or passes on why there are none.
pub fn check_url(parsed: Result<UrlParts, String>) -> (r: Result<(), CfgError>)
    ensures
        r == match parsed {
            Ok(url) => match url_fault(url_view(url)) {
                Some(fault) => Err(fault),
                None => Ok(()),
            },
            Err(message) => Err(CfgError::UpstreamUrl(message)),
        },
        r is Ok <==> (parsed matches Ok(url) && {
            &&& url.scheme@ == "http"@ || url.scheme@ == "https"@
            &&& url.host is Some && url.query is None && url.fragment is None
        }),
{
    let url = match parsed {
        Ok(url) => url,
        Err(message) => {
            return Err(CfgError::UpstreamUrl(message));
        },
    };
    let web = same_text(url.scheme.as_str(), "http") || same_text(url.scheme.as_str(), "https");
    if !web || url.host.is_none() {
        return Err(CfgError::UpstreamScheme);
    }
    if url.query.is_some() || url.fragment.is_some() {
        return Err(CfgError::UpstreamSuffix);
    }
    Ok(())
}

/// Checks that an address can be an upstream.
pub fn validate_upstream(upstream: &str) -> (r: Result<(), CfgError>)
    ensures
        match parsed_url(upstream@) {
            Ok(url) => r == match url_fault(url) {
                Some(fault) => Err(fault),
                None => Ok(()),
            },
            Err(message) => r matches Err(CfgError::UpstreamUrl(text)) && text@ == message,
        },
{
    check_url(parse_url(upstream))
}

/// The seconds to wait for a turn where nothing sets them.
pub const DEFAULT_QUEUE_TIMEOUT: u64 = 30;

/// A checked configuration, ready for use.
#[derive(Debug)]
pub struct Cfg {
    /// The port to listen on.
    pub port: u16,
    /// The address that requests go to, without a slash at its end.
    pub upstream: String,
    /// The renamings of each body, in order.
    pub rename: Vec<(String, String)>,
    /// The patch of each body, in order; `None` removes the field.
    pub patch: Vec<(String, Option<RawJson>)>,
    /// Whether requests are logged.
    pub debug: bool,
    /// The key for clients that bring none.
    pub api_key: Option<String>,
    /// The most requests that may be with the upstream at once, where there is a limit.
    pub limit: Option<u32>,
    /// How many seconds a request waits for its turn; none at all for 0.
    pub queue_timeout: u64,
}

/// Whether `cfg` is what `settings` ask for.
pub open spec fn is_cfg_of(cfg: Cfg, settings: Settings, debug: bool) -> bool {
    &&& cfg.port == settings.port
    &&& cfg.upstream@ == trimmed_trailing(settings.upstream@, '/')
    &&& pairs_view(cfg.rename@) == rename_entries(json_view(settings.rename))
    &&& patch_view(cfg.patch@) == patch_entries(json_view(settings.patch))
    &&& cfg.debug == debug
    &&& cfg.api_key == settings.api_key
    &&& cfg.limit == settings.concurrency
    &&& cfg.queue_timeout == match settings.queue_timeout {
        Some(seconds) => seconds,
        None => DEFAULT_QUEUE_TIMEOUT,
    }
}

/// A configuration holds what the settings say: their port, key, limit and seconds, and 30
/// seconds where they say none; their address, of which only slashes at the end are left
/// out.
pub proof fn law_cfg_keeps_settings(cfg: Cfg, settings: Settings, debug: bool)
    requires
        is_cfg_of(cfg, settings, debug),
    ensures
        cfg.port == settings.port,
        cfg.debug == debug,
        cfg.api_key is Some <==> settings.api_key is Some,
        settings.api_key matches Some(key) ==> cfg.api_key->0@ == key@,
        cfg.limit is Some <==> settings.concurrency is Some,
        settings.concurrency matches Some(limit) ==> cfg.limit->0 == limit,
        settings.queue_timeout matches Some(seconds) ==> cfg.queue_timeout == seconds,
        settings.queue_timeout is None ==> cfg.queue_timeout == 30,
        cfg.upstream@.len() <= settings.upstream@.len(),
        cfg.upstream@ == settings.upstream@.take(cfg.upstream@.len() as int),
        forall|i: int|
            cfg.upstream@.len() <= i < settings.upstream@.len() ==> #[trigger] settings.upstream@[i]
                == '/',
        cfg.upstream@.len() > 0 ==> cfg.upstream@[cfg.upstream@.len() - 1] != '/',
{
    law_trimmed_trailing(settings.upstream@, '/');
    assert(cfg.upstream@ =~= settings.upstream@.take(cfg.upstream@.len() as int));
}

/// A configuration patches what the settings' patch object says, entry for entry, and
/// renames what their rename object says, entry for entry where it holds strings only.
pub proof fn law_cfg_keeps_rules(cfg: Cfg, settings: Settings, debug: bool, i: int)
    requires
        is_cfg_of(cfg, settings, debug),
    ensures
        !(settings.patch is Object) ==> cfg.patch@.len() == 0,
        settings.patch matches JsonShape::Object(entries) ==> {
            &&& cfg.patch@.len() == entries@.len()
            &&& 0 <= i < entries@.len() ==> {
                &&& cfg.patch@[i].0@ == entries@[i].0@
                &&& cfg.patch@[i].1 is None <==> entries@[i].1.raw@ == "null"@
                &&& cfg.patch@[i].1 matches Some(raw) ==> raw@ == entries@[i].1.raw@
            }
        },
        !(settings.rename is Object) ==> cfg.rename@.len() == 0,
        settings.rename matches JsonShape::Object(entries) ==> ((forall|j: int|
            0 <= j < entries@.len() ==> (#[trigger] entries@[j]).1.text is Some) ==> {
            &&& cfg.rename@.len() == entries@.len()
            &&& 0 <= i < entries@.len() ==> cfg.rename@[i].0@ == entries@[i].0@ && cfg.rename@[i].1@
                == entries@[i].1.text->0@
        }),
{
    assert(pairs_view(cfg.rename@).len() == cfg.rename@.len());
    assert(patch_view(cfg.patch@).len() == cfg.patch@.len());
    if let JsonShape::Object(entries) = settings.patch {
        if 0 <= i < entries@.len() {
            assert(patch_view(cfg.patch@)[i] == patch_entries(json_view(settings.patch))[i]);
        }
    }
    if let JsonShape::Object(entries) = settings.rename {
        lemma_renames_listed(entries@, cfg.rename@);
    }
}

/// Makes the configuration, given the upstream address without its trailing slashes and
/// what the check of that address gave.
pub fn finish_cfg(
    settings: Settings,
    address: String,
    checked: Result<(), CfgError>,
    debug: bool,
) -> (r: Result<Cfg, CfgError>)
    requires
        address@ == trimmed_trailing(settings.upstream@, '/'),
    ensures
        match checked {
            Err(error) => r == Err::<Cfg, _>(error),
            Ok(()) => if text_view(settings.api_key) == Some(Seq::<char>::empty()) {
                r == Err::<Cfg, _>(CfgError::ApiKey)
            } else {
                r matches Ok(cfg) && is_cfg_of(cfg, settings, debug)
            },
        },
{
    if let Err(error) = checked {
        return Err(error);
    }
    if is_empty_text(&settings.api_key) {
        return Err(CfgError::ApiKey);
    }
    let queue_timeout = match settings.queue_timeout {
        Some(seconds) => seconds,
        None => DEFAULT_QUEUE_TIMEOUT,
    };
    Ok(
        Cfg {
            port: settings.port,
            upstream: address,
            rename: rename_pairs(&settings.rename),
            patch: patch_pairs(&settings.patch),
            debug,
            api_key: settings.api_key,
            limit: settings.concurrency,
            queue_timeout,
        },
    )
}

/// Whether the arguments ask for request logs.
pub fn asks_debug(args: &Vec<String>) -> (r: bool)
    ensures
        r == exists|i: int| 0 <= i < args@.len() && (#[trigger] args@[i])@ == "--debug"@,
{
    let mut i: usize = 0;
    while i < args.len()
        invariant
            i <= args.len(),
            forall|j: int| 0 <= j < i ==> (#[trigger] args@[j])@ != "--debug"@,
        decreases args.len() - i,
    {
        if same_text(args[i].as_str(), "--debug") {
            return true;
        }
        i += 1;
    }
    false
}

/// What holds of every configuration that is in use.
pub open spec fn valid_cfg(cfg: Cfg) -> bool {
    &&& cfg.port > 0
    &&& cfg.upstream@.len() > 0 ==> cfg.upstream@.last() != '/'
    &&& parsed_url(cfg.upstream@) matches Ok(url) && url_fault(url) is None
    &&& text_view(cfg.api_key) != Some(Seq::<char>::empty())
    &&& cfg.limit != Some(0u32)
    &&& cfg.limit is None ==> cfg.queue_timeout == DEFAULT_QUEUE_TIMEOUT
}

proof fn lemma_trimmed_end(s: Seq<char>, c: char)
    ensures
        trimmed_trailing(s, c).len() > 0 ==> trimmed_trailing(s, c).last() != c,
    decreases s.len(),
{
    if s.len() > 0 && s.last() == c {
        lemma_trimmed_end(s.drop_last(), c);
    }
}

/// Makes the configuration from the file, the environment and the arguments, or says
/// what is wrong with them.
pub fn load_cfg(file: ConfigFile, env: EnvReads, args: &Vec<String>) -> (r: Result<Cfg, CfgError>)
    ensures
        r matches Ok(cfg) ==> valid_cfg(cfg),
        r matches Ok(cfg) ==> {
            &&& env.port matches EnvRead::Value(value) ==> unsigned_value(value@) == Some(
                cfg.port as nat,
            )
            &&& env.concurrency matches EnvRead::Value(value) ==> cfg.limit is Some
                && unsigned_value(value@) == Some(cfg.limit->0 as nat)
            &&& env.queue_timeout matches EnvRead::Value(value) ==> unsigned_value(value@) == Some(
                cfg.queue_timeout as nat,
            )
            &&& env.api_key matches EnvRead::Value(value) ==> cfg.api_key is Some
                && cfg.api_key->0@ == value@
            &&& env.upstream matches EnvRead::Value(value) ==> {
                &&& cfg.upstream@.len() <= value@.len()
                &&& cfg.upstream@ == value@.take(cfg.upstream@.len() as int)
                &&& forall|i: int|
                    cfg.upstream@.len() <= i < value@.len() ==> #[trigger] value@[i] == '/'
            }
            &&& cfg.debug == exists|i: int|
                0 <= i < args@.len() && (#[trigger] args@[i])@ == "--debug"@
        },
        file is Missing ==> (r matches Ok(cfg) ==> {
            &&& env.port is Absent ==> cfg.port == 8080
            &&& env.concurrency is Absent ==> cfg.limit is None
            &&& env.queue_timeout is Absent ==> cfg.queue_timeout == 30
            &&& env.api_key is Absent ==> cfg.api_key is None
            &&& env.upstream is Value
            &&& cfg.rename@.len() == 0 && cfg.patch@.len() == 0
        }),
        file matches ConfigFile::Read(Ok(set)) ==> (r matches Ok(cfg) ==> {
            &&& env.port is Absent && set.port is Some ==> cfg.port == set.port->0
            &&& env.port is Absent && set.port is None ==> cfg.port == 8080
            &&& env.concurrency is Absent ==> cfg.limit == set.concurrency
            &&& env.queue_timeout is Absent && set.queue_timeout is Some ==> cfg.queue_timeout
                == set.queue_timeout->0
            &&& env.queue_timeout is Absent && set.queue_timeout is None ==> cfg.queue_timeout == 30
            &&& env.api_key is Absent ==> cfg.api_key == set.api_key
        }),
        match file_contents(file) {
            Err(error) => r == Err::<Cfg, _>(error),
            Ok(contents) => match merged(contents, env) {
                Err(error) => r == Err::<Cfg, _>(error),
                Ok(settings) => match parsed_url(trimmed_trailing(settings.upstream@, '/')) {
                    Err(message) => r matches Err(CfgError::UpstreamUrl(text)) && text@ == message,
                    Ok(url) => if let Some(fault) = url_fault(url) {
                        r == Err::<Cfg, _>(fault)
                    } else if text_view(settings.api_key) == Some(Seq::<char>::empty()) {
                        r == Err::<Cfg, _>(CfgError::ApiKey)
                    } else {
                        r matches Ok(cfg) && is_cfg_of(
                            cfg,
                            settings,
                            exists|i: int|
                                0 <= i < args@.len() && (#[trigger] args@[i])@ == "--debug"@,
                        )
                    },
                },
            },
        },
{
    proof {
        if let Ok(contents) = file_contents(file) {
            law_variable_sets(contents, env);
            law_file_holds(contents, env);
            if let Ok(settings) = merged(contents, env) {
                assert forall|cfg: Cfg, debug: bool| #[trigger]
                    is_cfg_of(cfg, settings, debug) && file is Missing implies cfg.rename@.len()
                    == 0 && cfg.patch@.len() == 0 by {
                    law_nothing_to_rewrite(cfg, settings, debug);
                }
            }
        }
    }
    let settings = match merge_settings(file, env) {
        Ok(settings) => settings,
        Err(error) => {
            return Err(error);
        },
    };
    let address = trim_trailing(settings.upstream.as_str(), '/');
    let checked = validate_upstream(address.as_str());
    proof {
        lemma_trimmed_end(settings.upstream@, '/');
        law_trimmed_trailing(settings.upstream@, '/');
        assert(address@ =~= settings.upstream@.take(address@.len() as int));
    }
    finish_cfg(settings, address, checked, asks_debug(args))
}

impl CfgError {
    /// What the error says.
    pub open spec fn message_text(self) -> Seq<char> {
        match self {
            CfgError::FileUnreadable(reason) => "cannot read config.json: "@ + reason@,
            CfgError::FileMalformed(reason) => "invalid config.json: "@ + reason@,
            CfgError::FilePort => "invalid config.json port: expected 1..=65535"@,
            CfgError::FileConcurrency => "invalid config.json concurrency: expected at least 1"@,
            CfgError::FileUpstream => "config.json upstream must not be empty"@,
            CfgError::FilePatch => "config.json patch must be an object or null"@,
            CfgError::FileRename => "config.json rename must be an object or null"@,
            CfgError::FileRenameValues => "config.json rename values must be strings"@,
            CfgError::FileApiKey => "config.json api_key must not be empty"@,
            CfgError::EnvInvalid(var, reason) => "invalid "@ + var.name_text() + ": "@ + reason@,
            CfgError::Port(value) => "invalid PORT "@ + debug_quoted(value@)
                + ": expected 1..=65535"@,
            CfgError::PortZero => "invalid PORT \"0\": expected 1..=65535"@,
            CfgError::Concurrency(value) => "invalid CONCURRENCY "@ + debug_quoted(value@)
                + ": expected at least 1"@,
            CfgError::QueueTimeout(value) => "invalid QUEUE_TIMEOUT "@ + debug_quoted(value@)
                + ": expected seconds"@,
            CfgError::QueueWithoutLimit =>
                "queue_timeout/QUEUE_TIMEOUT needs concurrency/CONCURRENCY to be set"@,
            CfgError::UpstreamMissing =>
                "missing upstream: set config.json upstream or UPSTREAM"@,
            CfgError::UpstreamUrl(reason) => "invalid upstream URL: "@ + reason@,
            CfgError::UpstreamScheme => "upstream must be an absolute http:// or https:// URL"@,
            CfgError::UpstreamSuffix => "upstream must not contain a query or fragment"@,
            CfgError::ApiKey => "api_key/API_KEY must not be empty"@,
            CfgError::Client(reason) => "cannot build http client: "@ + reason@
                + "; missing system CA certificates? install ca-certificates"@,
        }
    }

    /// What the error says.
    pub fn message(&self) -> (r: String)
        ensures
            r@ == self.message_text(),
    {
        match self {
            CfgError::FileUnreadable(reason) => "cannot read config.json: ".to_owned().concat(reason.as_str()),
            CfgError::FileMalformed(reason) => "invalid config.json: ".to_owned().concat(reason.as_str()),
            CfgError::FilePort => "invalid config.json port: expected 1..=65535".to_owned(),
            CfgError::FileConcurrency =>
                "invalid config.json concurrency: expected at least 1".to_owned(),
            CfgError::FileUpstream => "config.json upstream must not be empty".to_owned(),
            CfgError::FilePatch => "config.json patch must be an object or null".to_owned(),
            CfgError::FileRename => "config.json rename must be an object or null".to_owned(),
            CfgError::FileRenameValues => "config.json rename values must be strings".to_owned(),
            CfgError::FileApiKey => "config.json api_key must not be empty".to_owned(),
            CfgError::EnvInvalid(var, reason) => {
                let mut out = join("invalid ", var.name(), ": ");
                out.append(reason.as_str());
                out
            },
            CfgError::Port(value) => {
                let quoted = debug_text(value.as_str());
                join("invalid PORT ", quoted.as_str(), ": expected 1..=65535")
            },
            CfgError::PortZero => "invalid PORT \"0\": expected 1..=65535".to_owned(),
            CfgError::Concurrency(value) => {
                let quoted = debug_text(value.as_str());
                join("invalid CONCURRENCY ", quoted.as_str(), ": expected at least 1")
            },
            CfgError::QueueTimeout(value) => {
                let quoted = debug_text(value.as_str());
                join("invalid QUEUE_TIMEOUT ", quoted.as_str(), ": expected seconds")
            },
            CfgError::QueueWithoutLimit =>
                "queue_timeout/QUEUE_TIMEOUT needs concurrency/CONCURRENCY to be set".to_owned(),
            CfgError::UpstreamMissing =>
                "missing upstream: set config.json upstream or UPSTREAM".to_owned(),
            CfgError::UpstreamUrl(reason) => "invalid upstream URL: ".to_owned().concat(reason.as_str()),
            CfgError::UpstreamScheme =>
                "upstream must be an absolute http:// or https:// URL".to_owned(),
            CfgError::UpstreamSuffix => "upstream must not contain a query or fragment".to_owned(),
            CfgError::ApiKey => "api_key/API_KEY must not be empty".to_owned(),
            CfgError::Client(reason) => join(
                "cannot build http client: ",
                reason.as_str(),
                "; missing system CA certificates? install ca-certificates",
            ),
        }
    }
}

/// What is said of a fault holds the reason, or the text at fault, whole.
pub proof fn law_message_holds_reason(text: String, var: EnvVar)
    ensures
        CfgError::FileUnreadable(text).message_text() == "cannot read config.json: "@ + text@,
        CfgError::FileMalformed(text).message_text() == "invalid config.json: "@ + text@,
        CfgError::EnvInvalid(var, text).message_text() == "invalid "@ + var.name_text() + ": "@
            + text@,
        CfgError::Port(text).message_text() == "invalid PORT "@ + debug_quoted(text@)
            + ": expected 1..=65535"@,
        CfgError::Concurrency(text).message_text() == "invalid CONCURRENCY "@ + debug_quoted(text@)
            + ": expected at least 1"@,
        CfgError::QueueTimeout(text).message_text() == "invalid QUEUE_TIMEOUT "@ + debug_quoted(
            text@,
        ) + ": expected seconds"@,
        CfgError::UpstreamUrl(text).message_text() == "invalid upstream URL: "@ + text@,
        CfgError::Client(text).message_text() == "cannot build http client: "@ + text@
            + "; missing system CA certificates? install ca-certificates"@,
        EnvVar::Port.name_text() == "PORT"@,
        EnvVar::Upstream.name_text() == "UPSTREAM"@,
        EnvVar::ApiKey.name_text() == "API_KEY"@,
        EnvVar::Concurrency.name_text() == "CONCURRENCY"@,
        EnvVar::QueueTimeout.name_text() == "QUEUE_TIMEOUT"@,
{
}

/// A variable that is set to a text overrides the file: whatever the file sets under
/// the same name makes no difference.
pub proof fn law_environment_overrides(cfg: FileCfg, other: FileCfg, env: EnvReads)
    ensures
        env.port is Value ==> merged(cfg, env) == merged(
            (FileCfg { port: other.port, ..cfg }),
            env,
        ),
        env.upstream is Value ==> merged(cfg, env) == merged(
            (FileCfg { upstream: other.upstream, ..cfg }),
            env,
        ),
        env.api_key is Value ==> merged(cfg, env) == merged(
            (FileCfg { api_key: other.api_key, ..cfg }),
            env,
        ),
        env.concurrency is Value ==> merged(cfg, env) == merged(
            (FileCfg { concurrency: other.concurrency, ..cfg }),
            env,
        ),
        env.queue_timeout is Value ==> merged(cfg, env) == merged(
            (FileCfg { queue_timeout: other.queue_timeout, ..cfg }),
            env,
        ),
{
}

/// A variable that is not set leaves what the file sets, and the default port where the
/// file sets none.
pub proof fn law_file_holds(cfg: FileCfg, env: EnvReads)
    ensures
        merged(cfg, env) matches Ok(settings) ==> {
            &&& env.port is Absent ==> settings.port == match cfg.port {
                Some(port) => port,
                None => DEFAULT_PORT,
            }
            &&& env.upstream is Absent ==> Some(settings.upstream) == cfg.upstream
            &&& env.api_key is Absent ==> settings.api_key == cfg.api_key
            &&& env.concurrency is Absent ==> settings.concurrency == cfg.concurrency
            &&& env.queue_timeout is Absent ==> settings.queue_timeout == cfg.queue_timeout
            &&& settings.patch == cfg.patch
            &&& settings.rename == cfg.rename
        },
{
}

/// Without a configuration file, or with one that sets nothing else, an upstream address
/// in the environment is enough: the defaults hold for everything else.
pub proof fn law_upstream_is_enough(upstream: String, env: EnvReads)
    requires
        env.port is Absent,
        env.upstream == EnvRead::Value(upstream),
        env.api_key is Absent,
        env.concurrency is Absent,
        env.queue_timeout is Absent,
    ensures
        file_contents(ConfigFile::Missing) == Ok::<_, CfgError>(empty_file()),
        file_contents(ConfigFile::Read(Ok(empty_file()))) == Ok::<_, CfgError>(empty_file()),
        merged(empty_file(), env) == Ok::<_, CfgError>(
            Settings {
                port: DEFAULT_PORT,
                upstream,
                api_key: None,
                concurrency: None,
                queue_timeout: None,
                patch: JsonShape::Null,
                rename: JsonShape::Null,
            },
        ),
{
}

/// Without an upstream address, in the file or in the environment, there is no
/// configuration.
pub proof fn law_upstream_is_required(contents: FileCfg, env: EnvReads)
    requires
        contents.upstream is None,
        env.upstream is Absent,
    ensures
        merged(contents, env) is Err,
{
}

/// A time to wait for a turn is refused where nothing limits the requests.
pub proof fn law_queue_needs_limit(contents: FileCfg, env: EnvReads)
    ensures
        merged(contents, env) matches Ok(settings) ==> (settings.queue_timeout is Some
            ==> settings.concurrency is Some),
{
}

/// Where the configuration sets neither `rename` nor `patch`, no field is renamed or
/// patched.
pub proof fn law_nothing_to_rewrite(cfg: Cfg, settings: Settings, debug: bool)
    requires
        is_cfg_of(cfg, settings, debug),
        settings.rename is Null,
        settings.patch is Null,
    ensures
        cfg.rename@.len() == 0,
        cfg.patch@.len() == 0,
{
    assert(pairs_view(cfg.rename@).len() == cfg.rename@.len());
    assert(patch_view(cfg.patch@).len() == cfg.patch@.len());
}

} // verus!
