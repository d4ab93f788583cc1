//! The relay's command line.

use crate::relay::listen;
use crate::relay::listen::{parse_listen, ListenSpec, ListenView};
use crate::relay::pipeline;
use crate::relay::pipeline::normalize_pipeline;
use crate::text;
use crate::text::{chars_of, is_text, parse_decimal, push_str, string_of};
use vstd::prelude::*;

verus! {

/// What the relay's own source drops when it is full.
#[derive(Debug, Clone, Copy, PartialEq, Eq, Structural)]
pub enum LeakyType {
    Nothing,
    Upstream,
    Downstream,
}

/// How the relay's own source queues frames.
#[derive(Debug, Clone, Copy)]
pub struct AppSrcConfig {
    pub max_buffers: u64,
    pub max_bytes: u64,
    pub max_time_ns: u64,
    pub block: bool,
    pub leaky: LeakyType,
}

impl Default for AppSrcConfig {
    fn default() -> (r: Self)
        ensures
            r == (AppSrcConfig {
                max_buffers: 8,
                max_bytes: 0,
                max_time_ns: 0,
                block: true,
                leaky: LeakyType::Nothing,
            }),
    {
        AppSrcConfig {
            max_buffers: 8,
            max_bytes: 0,
            max_time_ns: 0,
            block: true,
            leaky: LeakyType::Nothing,
        }
    }
}

/// What the relay was asked to do.
#[derive(Debug)]
pub struct RelayConfig {
    pub listen: ListenSpec,
    pub shm_path: String,
    pub shm_size: u64,
    pub input: String,
    pub splash: Option<String>,
    pub deep_copy: bool,
    pub appsrc: AppSrcConfig,
}

/// What the relay was asked to do, as mathematics.
pub struct RelayView {
    pub listen: ListenView,
    pub shm_path: Seq<char>,
    pub shm_size: u64,
    pub input: Seq<char>,
    pub splash: Option<Seq<char>>,
    pub deep_copy: bool,
    pub appsrc: AppSrcConfig,
}

/// The options of the command line.
#[derive(Debug, Clone, Copy, PartialEq, Eq, Structural)]
pub enum ArgKey {
    Listen,
    ShmPath,
    ShmSize,
    Input,
    Splash,
    NoDeepCopy,
    MaxBuffers,
    MaxBytes,
    MaxTime,
    Block,
    NoBlock,
    Leaky,
    Help,
}

/// The values that were read so far.
struct Parsed {
    listen: String,
    shm_path: Option<String>,
    shm_size: u64,
    input: Option<String>,
    splash: Option<String>,
    deep_copy: bool,
    appsrc: AppSrcConfig,
}

/// The values that were read so far, as mathematics.
#[verifier::ext_equal]
pub struct ArgsView {
    pub listen: Seq<char>,
    pub shm_path: Option<Seq<char>>,
    pub shm_size: u64,
    pub input: Option<Seq<char>>,
    pub splash: Option<Seq<char>>,
    pub deep_copy: bool,
    pub appsrc: AppSrcConfig,
}

/// The text's characters, if there is a text.
pub open spec fn text_of(s: Option<String>) -> Option<Seq<char>> {
    match s {
        Some(s) => Some(s@),
        None => None,
    }
}

/// The arguments' characters.
pub open spec fn texts(args: Seq<String>) -> Seq<Seq<char>> {
    args.map_values(|a: String| a@)
}

impl Parsed {
    spec fn view(&self) -> ArgsView {
        ArgsView {
            listen: self.listen@,
            shm_path: text_of(self.shm_path),
            shm_size: self.shm_size,
            input: text_of(self.input),
            splash: text_of(self.splash),
            deep_copy: self.deep_copy,
            appsrc: self.appsrc,
        }
    }
}

impl RelayConfig {
    /// The request as mathematics.
    pub open spec fn view(&self) -> RelayView {
        RelayView {
            listen: self.listen@,
            shm_path: self.shm_path@,
            shm_size: self.shm_size,
            input: self.input@,
            splash: text_of(self.splash),
            deep_copy: self.deep_copy,
            appsrc: self.appsrc,
        }
    }
}

/// The option that an argument names.
pub open spec fn arg_key(arg: Seq<char>) -> Option<ArgKey> {
    if arg == "--listen"@ {
        Some(ArgKey::Listen)
    } else if arg == "--shm-path"@ {
        Some(ArgKey::ShmPath)
    } else if arg == "--shm-size"@ {
        Some(ArgKey::ShmSize)
    } else if arg == "--input"@ {
        Some(ArgKey::Input)
    } else if arg == "--splash"@ {
        Some(ArgKey::Splash)
    } else if arg == "--no-deep-copy"@ {
        Some(ArgKey::NoDeepCopy)
    } else if arg == "--appsrc-max-buffers"@ {
        Some(ArgKey::MaxBuffers)
    } else if arg == "--appsrc-max-bytes"@ {
        Some(ArgKey::MaxBytes)
    } else if arg == "--appsrc-max-time"@ {
        Some(ArgKey::MaxTime)
    } else if arg == "--appsrc-block"@ {
        Some(ArgKey::Block)
    } else if arg == "--appsrc-no-block"@ {
        Some(ArgKey::NoBlock)
    } else if arg == "--appsrc-leaky"@ {
        Some(ArgKey::Leaky)
    } else if arg == "--help"@ || arg == "-h"@ {
        Some(ArgKey::Help)
    } else {
        None
    }
}

/// The words for an option whose value is missing; `None` for one that takes no value.
pub open spec fn missing_words(key: ArgKey) -> Option<Seq<char>> {
    match key {
        ArgKey::Listen => Some("--listen requires a value"@),
        ArgKey::ShmPath => Some("--shm-path requires a value"@),
        ArgKey::ShmSize => Some("--shm-size requires a value"@),
        ArgKey::Input => Some("--input requires a pipeline string"@),
        ArgKey::Splash => Some("--splash requires a pipeline string"@),
        ArgKey::MaxBuffers => Some("--appsrc-max-buffers requires a value"@),
        ArgKey::MaxBytes => Some("--appsrc-max-bytes requires a value"@),
        ArgKey::MaxTime => Some("--appsrc-max-time requires a value (ns)"@),
        ArgKey::Leaky => Some("--appsrc-leaky requires none|upstream|downstream"@),
        ArgKey::NoDeepCopy | ArgKey::Block | ArgKey::NoBlock | ArgKey::Help => None,
    }
}

/// A number with the words for a text that is none.
pub open spec fn number(value: Seq<char>, words: Seq<char>) -> Result<u64, Seq<char>> {
    match text::decimal(value, u64::MAX as int) {
        Some(n) => Ok(n as u64),
        None => Err(words),
    }
}

/// The policy that a value names.
pub open spec fn leaky_named(value: Seq<char>) -> Result<LeakyType, Seq<char>> {
    if value == "none"@ {
        Ok(LeakyType::Nothing)
    } else if value == "upstream"@ {
        Ok(LeakyType::Upstream)
    } else if value == "downstream"@ {
        Ok(LeakyType::Downstream)
    } else {
        Err("--appsrc-leaky must be none|upstream|downstream"@)
    }
}

impl ArgsView {
    /// The values before the first argument.
    pub open spec fn start() -> ArgsView {
        ArgsView {
            listen: "tcp://0.0.0.0:5555"@,
            shm_path: None,
            shm_size: 0x400_0000,
            input: None,
            splash: None,
            deep_copy: true,
            appsrc: AppSrcConfig {
                max_buffers: 8,
                max_bytes: 0,
                max_time_ns: 0,
                block: true,
                leaky: LeakyType::Nothing,
            },
        }
    }

    /// The values after an option that takes none, or the words to stop with.
    pub open spec fn with_flag(self, key: ArgKey) -> Result<ArgsView, Seq<char>> {
        match key {
            ArgKey::NoDeepCopy => Ok(ArgsView { deep_copy: false, ..self }),
            ArgKey::Block => Ok(
                ArgsView { appsrc: AppSrcConfig { block: true, ..self.appsrc }, ..self },
            ),
            ArgKey::NoBlock => Ok(
                ArgsView { appsrc: AppSrcConfig { block: false, ..self.appsrc }, ..self },
            ),
            _ => Err("help"@),
        }
    }

    /// The values after an option that takes one, or the words to stop with.
    pub open spec fn with_value(self, key: ArgKey, value: Seq<char>) -> Result<ArgsView, Seq<char>> {
        match key {
            ArgKey::Listen => Ok(ArgsView { listen: value, ..self }),
            ArgKey::ShmPath => Ok(ArgsView { shm_path: Some(value), ..self }),
            ArgKey::ShmSize => match number(value, "--shm-size must be a u64"@) {
                Ok(n) => Ok(ArgsView { shm_size: n, ..self }),
                Err(words) => Err(words),
            },
            ArgKey::Input => Ok(ArgsView { input: Some(value), ..self }),
            ArgKey::Splash => Ok(ArgsView { splash: Some(value), ..self }),
            ArgKey::MaxBuffers => match number(value, "--appsrc-max-buffers must be a u64"@) {
                Ok(n) => Ok(
                    ArgsView { appsrc: AppSrcConfig { max_buffers: n, ..self.appsrc }, ..self },
                ),
                Err(words) => Err(words),
            },
            ArgKey::MaxBytes => match number(value, "--appsrc-max-bytes must be a u64"@) {
                Ok(n) => Ok(
                    ArgsView { appsrc: AppSrcConfig { max_bytes: n, ..self.appsrc }, ..self },
                ),
                Err(words) => Err(words),
            },
            ArgKey::MaxTime => match number(value, "--appsrc-max-time must be a u64 (ns)"@) {
                Ok(n) => Ok(
                    ArgsView { appsrc: AppSrcConfig { max_time_ns: n, ..self.appsrc }, ..self },
                ),
                Err(words) => Err(words),
            },
            _ => match leaky_named(value) {
                Ok(leaky) => Ok(
                    ArgsView { appsrc: AppSrcConfig { leaky, ..self.appsrc }, ..self },
                ),
                Err(words) => Err(words),
            },
        }
    }

    /// The values after the arguments from the `i`-th on, or the words of the first thing
    /// that is wrong with them.
    pub open spec fn read(self, args: Seq<Seq<char>>, i: int) -> Result<ArgsView, Seq<char>>
        decreases args.len() - i,
    {
        if i < 0 || i >= args.len() {
            Ok(self)
        } else {
            match arg_key(args[i]) {
                None => Err("unknown arg: "@ + args[i]),
                Some(key) => match missing_words(key) {
                    None => match self.with_flag(key) {
                        Ok(v) => v.read(args, i + 1),
                        Err(words) => Err(words),
                    },
                    Some(words) => if i + 1 >= args.len() {
                        Err(words)
                    } else {
                        match self.with_value(key, args[i + 1]) {
                            Ok(v) => v.read(args, i + 2),
                            Err(words) => Err(words),
                        }
                    },
                },
            }
        }
    }

    /// The request that the values come to, or the words of what is missing or wrong.
    pub open spec fn request(self, has_vsock: bool) -> Result<RelayView, Seq<char>> {
        match (self.shm_path, self.input) {
            (None, _) => Err("--shm-path is required"@),
            (Some(_), None) => Err("--input is required"@),
            (Some(shm_path), Some(input)) => match listen::place(self.listen, has_vsock) {
                Ok(listen) => Ok(
                    RelayView {
                        listen,
                        shm_path,
                        shm_size: self.shm_size,
                        input: pipeline::normalized(input),
                        splash: match self.splash {
                            Some(p) => Some(pipeline::normalized(p)),
                            None => None,
                        },
                        deep_copy: self.deep_copy,
                        appsrc: self.appsrc,
                    },
                ),
                Err(words) => Err(words),
            },
        }
    }
}

/// The request that a command line makes, or the words of what is wrong with it.
pub open spec fn requested(args: Seq<Seq<char>>, has_vsock: bool) -> Result<RelayView, Seq<char>> {
    match ArgsView::start().read(args, 0) {
        Ok(v) => v.request(has_vsock),
        Err(words) => Err(words),
    }
}

fn key_of(arg: &str) -> (r: Option<ArgKey>)
    ensures
        r == arg_key(arg@),
{
    let a: Vec<char> = chars_of(arg);
    let a: &[char] = a.as_slice();
    if is_text(a, "--listen") {
        Some(ArgKey::Listen)
    } else if is_text(a, "--shm-path") {
        Some(ArgKey::ShmPath)
    } else if is_text(a, "--shm-size") {
        Some(ArgKey::ShmSize)
    } else if is_text(a, "--input") {
        Some(ArgKey::Input)
    } else if is_text(a, "--splash") {
        Some(ArgKey::Splash)
    } else if is_text(a, "--no-deep-copy") {
        Some(ArgKey::NoDeepCopy)
    } else if is_text(a, "--appsrc-max-buffers") {
        Some(ArgKey::MaxBuffers)
    } else if is_text(a, "--appsrc-max-bytes") {
        Some(ArgKey::MaxBytes)
    } else if is_text(a, "--appsrc-max-time") {
        Some(ArgKey::MaxTime)
    } else if is_text(a, "--appsrc-block") {
        Some(ArgKey::Block)
    } else if is_text(a, "--appsrc-no-block") {
        Some(ArgKey::NoBlock)
    } else if is_text(a, "--appsrc-leaky") {
        Some(ArgKey::Leaky)
    } else if is_text(a, "--help") || is_text(a, "-h") {
        Some(ArgKey::Help)
    } else {
        None
    }
}

fn missing(key: ArgKey) -> (r: Option<&'static str>)
    ensures
        match r {
            Some(words) => missing_words(key) == Some(words@),
            None => missing_words(key) is None,
        },
{
    match key {
        ArgKey::Listen => Some("--listen requires a value"),
        ArgKey::ShmPath => Some("--shm-path requires a value"),
        ArgKey::ShmSize => Some("--shm-size requires a value"),
        ArgKey::Input => Some("--input requires a pipeline string"),
        ArgKey::Splash => Some("--splash requires a pipeline string"),
        ArgKey::MaxBuffers => Some("--appsrc-max-buffers requires a value"),
        ArgKey::MaxBytes => Some("--appsrc-max-bytes requires a value"),
        ArgKey::MaxTime => Some("--appsrc-max-time requires a value (ns)"),
        ArgKey::Leaky => Some("--appsrc-leaky requires none|upstream|downstream"),
        ArgKey::NoDeepCopy | ArgKey::Block | ArgKey::NoBlock | ArgKey::Help => None,
    }
}

fn parse_number(value: &str, words: &'static str) -> (r: Result<u64, &'static str>)
    ensures
        match r {
            Ok(n) => number(value@, words@) == Ok::<u64, Seq<char>>(n),
            Err(e) => number(value@, words@) == Err::<u64, Seq<char>>(e@),
        },
{
    let chars: Vec<char> = chars_of(value);
    match parse_decimal(chars.as_slice(), u64::MAX) {
        Some(n) => Ok(n),
        None => Err(words),
    }
}

fn parse_leaky(value: &str) -> (r: Result<LeakyType, &'static str>)
    ensures
        match r {
            Ok(l) => leaky_named(value@) == Ok::<LeakyType, Seq<char>>(l),
            Err(e) => leaky_named(value@) == Err::<LeakyType, Seq<char>>(e@),
        },
{
    let chars: Vec<char> = chars_of(value);
    if is_text(chars.as_slice(), "none") {
        Ok(LeakyType::Nothing)
    } else if is_text(chars.as_slice(), "upstream") {
        Ok(LeakyType::Upstream)
    } else if is_text(chars.as_slice(), "downstream") {
        Ok(LeakyType::Downstream)
    } else {
        Err("--appsrc-leaky must be none|upstream|downstream")
    }
}

impl Parsed {
    fn set_flag(&mut self, key: ArgKey) -> (r: Result<(), &'static str>)
        ensures
            match r {
                Ok(_) => old(self)@.with_flag(key) == Ok::<ArgsView, Seq<char>>(final(self)@),
                Err(e) => old(self)@.with_flag(key) == Err::<ArgsView, Seq<char>>(e@),
            },
    {
        match key {
            ArgKey::NoDeepCopy => {
                self.deep_copy = false;
                Ok(())
            },
            ArgKey::Block => {
                self.appsrc.block = true;
                Ok(())
            },
            ArgKey::NoBlock => {
                self.appsrc.block = false;
                Ok(())
            },
            _ => Err("help"),
        }
    }

    fn set_value(&mut self, key: ArgKey, value: &String) -> (r: Result<(), &'static str>)
        ensures
            match r {
                Ok(_) => old(self)@.with_value(key, value@) == Ok::<ArgsView, Seq<char>>(
                    final(self)@,
                ),
                Err(e) => old(self)@.with_value(key, value@) == Err::<ArgsView, Seq<char>>(e@),
            },
    {
        match key {
            ArgKey::Listen => {
                self.listen = value.clone();
            },
            ArgKey::ShmPath => {
                self.shm_path = Some(value.clone());
            },
            ArgKey::ShmSize => match parse_number(value.as_str(), "--shm-size must be a u64") {
                Ok(n) => {
                    self.shm_size = n;
                },
                Err(e) => {
                    return Err(e);
                },
            },
            ArgKey::Input => {
                self.input = Some(value.clone());
            },
            ArgKey::Splash => {
                self.splash = Some(value.clone());
            },
            ArgKey::MaxBuffers => match parse_number(
                value.as_str(),
                "--appsrc-max-buffers must be a u64",
            ) {
                Ok(n) => {
                    self.appsrc.max_buffers = n;
                },
                Err(e) => {
                    return Err(e);
                },
            },
            ArgKey::MaxBytes => match parse_number(
                value.as_str(),
                "--appsrc-max-bytes must be a u64",
            ) {
                Ok(n) => {
                    self.appsrc.max_bytes = n;
                },
                Err(e) => {
                    return Err(e);
                },
            },
            ArgKey::MaxTime => match parse_number(
                value.as_str(),
                "--appsrc-max-time must be a u64 (ns)",
            ) {
                Ok(n) => {
                    self.appsrc.max_time_ns = n;
                },
                Err(e) => {
                    return Err(e);
                },
            },
            _ => match parse_leaky(value.as_str()) {
                Ok(leaky) => {
                    self.appsrc.leaky = leaky;
                },
                Err(e) => {
                    return Err(e);
                },
            },
        }
        Ok(())
    }

    fn finish(self, has_vsock: bool) -> (r: Result<RelayConfig, String>)
        ensures
            match r {
                Ok(c) => self@.request(has_vsock) == Ok::<RelayView, Seq<char>>(c@),
                Err(e) => self@.request(has_vsock) == Err::<RelayView, Seq<char>>(e@),
            },
    {
        let shm_path: String = match self.shm_path {
            Some(p) => p,
            None => {
                return Err("--shm-path is required".to_owned());
            },
        };
        let input: String = match self.input {
            Some(p) => p,
            None => {
                return Err("--input is required".to_owned());
            },
        };
        let listen: ListenSpec = match parse_listen(self.listen.as_str(), has_vsock) {
            Ok(l) => l,
            Err(e) => {
                return Err(e.to_owned());
            },
        };
        let splash: Option<String> = match self.splash {
            Some(p) => Some(normalize_pipeline(p.as_str())),
            None => None,
        };
        Ok(
            RelayConfig {
                listen,
                shm_path,
                shm_size: self.shm_size,
                input: normalize_pipeline(input.as_str()),
                splash,
                deep_copy: self.deep_copy,
                appsrc: self.appsrc,
            },
        )
    }
}

/// Reads the arguments behind the program's name. The words `help` stand for a wish to
/// see the usage. Not every platform has vsock.
pub fn parse_args(args: &Vec<String>, has_vsock: bool) -> (r: Result<RelayConfig, String>)
    ensures
        match r {
            Ok(c) => requested(texts(args@), has_vsock) == Ok::<RelayView, Seq<char>>(c@),
            Err(e) => requested(texts(args@), has_vsock) == Err::<RelayView, Seq<char>>(e@),
        },
{
    let ghost all = texts(args@);
    let mut parsed = Parsed {
        listen: "tcp://0.0.0.0:5555".to_owned(),
        shm_path: None,
        shm_size: 64 * 1024 * 1024,
        input: None,
        splash: None,
        deep_copy: true,
        appsrc: AppSrcConfig::default(),
    };
    let mut i: usize = 0;
    while i < args.len()
        invariant
            i <= args.len(),
            all == texts(args@),
            ArgsView::start().read(all, 0) == parsed@.read(all, i as int),
        decreases args.len() - i,
    {
        assert(all[i as int] == args@[i as int]@);
        match key_of(args[i].as_str()) {
            None => {
                let mut out: Vec<char> = chars_of("unknown arg: ");
                push_str(&mut out, args[i].as_str());
                return Err(string_of(out.as_slice()));
            },
            Some(key) => match missing(key) {
                None => {
                    match parsed.set_flag(key) {
                        Ok(_) => {},
                        Err(e) => {
                            return Err(e.to_owned());
                        },
                    }
                    i += 1;
                },
                Some(words) => {
                    if i + 1 >= args.len() {
                        return Err(words.to_owned());
                    }
                    assert(all[i + 1] == args@[i + 1]@);
                    match parsed.set_value(key, &args[i + 1]) {
                        Ok(_) => {},
                        Err(e) => {
                            return Err(e.to_owned());
                        },
                    }
                    i += 2;
                },
            },
        }
    }
    parsed.finish(has_vsock)
}

/// The words that tell how the relay is called.
pub fn usage() -> (r: &'static str)
    ensures
        r@
            == "Usage: shm2_relayd --shm-path <path> [--shm-size <bytes>] --input <pipeline> [--splash <pipeline>] [--listen tcp://0.0.0.0:5555|vsock://CID:PORT] [--no-deep-copy] [--appsrc-max-buffers <n>] [--appsrc-max-bytes <n>] [--appsrc-max-time <ns>] [--appsrc-block|--appsrc-no-block] [--appsrc-leaky none|upstream|downstream]"@,
{
    "Usage: shm2_relayd --shm-path <path> [--shm-size <bytes>] --input <pipeline> [--splash <pipeline>] [--listen tcp://0.0.0.0:5555|vsock://CID:PORT] [--no-deep-copy] [--appsrc-max-buffers <n>] [--appsrc-max-bytes <n>] [--appsrc-max-time <ns>] [--appsrc-block|--appsrc-no-block] [--appsrc-leaky none|upstream|downstream]"
}

proof fn lemma_option_names()
    ensures
        arg_key("--listen"@) == Some(ArgKey::Listen),
        arg_key("--shm-path"@) == Some(ArgKey::ShmPath),
        arg_key("--shm-size"@) == Some(ArgKey::ShmSize),
        arg_key("--input"@) == Some(ArgKey::Input),
        arg_key("--splash"@) == Some(ArgKey::Splash),
        arg_key("--no-deep-copy"@) == Some(ArgKey::NoDeepCopy),
        arg_key("--appsrc-max-buffers"@) == Some(ArgKey::MaxBuffers),
        arg_key("--appsrc-max-bytes"@) == Some(ArgKey::MaxBytes),
        arg_key("--appsrc-max-time"@) == Some(ArgKey::MaxTime),
        arg_key("--appsrc-block"@) == Some(ArgKey::Block),
        arg_key("--appsrc-no-block"@) == Some(ArgKey::NoBlock),
        arg_key("--appsrc-leaky"@) == Some(ArgKey::Leaky),
        arg_key("--help"@) == Some(ArgKey::Help),
        arg_key("-h"@) == Some(ArgKey::Help),
{
    reveal_strlit("--listen");
    reveal_strlit("--shm-path");
    reveal_strlit("--shm-size");
    reveal_strlit("--input");
    reveal_strlit("--splash");
    reveal_strlit("--no-deep-copy");
    reveal_strlit("--appsrc-max-buffers");
    reveal_strlit("--appsrc-max-bytes");
    reveal_strlit("--appsrc-max-time");
    reveal_strlit("--appsrc-block");
    reveal_strlit("--appsrc-no-block");
    reveal_strlit("--appsrc-leaky");
    reveal_strlit("--help");
    reveal_strlit("-h");
    assert("--listen"@.len() == 8);
    assert("--shm-path"@.len() == 10);
    assert("--shm-size"@.len() == 10);
    assert("--input"@.len() == 7);
    assert("--splash"@.len() == 8);
    assert("--no-deep-copy"@.len() == 14);
    assert("--appsrc-max-buffers"@.len() == 20);
    assert("--appsrc-max-bytes"@.len() == 18);
    assert("--appsrc-max-time"@.len() == 17);
    assert("--appsrc-block"@.len() == 14);
    assert("--appsrc-no-block"@.len() == 17);
    assert("--appsrc-leaky"@.len() == 14);
    assert("--help"@.len() == 6);
    assert("-h"@.len() == 2);
    assert("--shm-size"@[6] == 's' && "--shm-path"@[6] == 'p');
    assert("--splash"@[2] == 's' && "--listen"@[2] == 'l');
    assert("--appsrc-block"@[2] == 'a' && "--no-deep-copy"@[2] == 'n');
    assert("--appsrc-no-block"@[9] == 'n' && "--appsrc-max-time"@[9] == 'm');
    assert("--appsrc-leaky"@[2] == 'a' && "--no-deep-copy"@[2] == 'n');
    assert("--appsrc-leaky"@[9] == 'l' && "--appsrc-block"@[9] == 'b');
}

proof fn lemma_rest_is_read(v: ArgsView, a: Seq<Seq<char>>, b: Seq<Seq<char>>, i: int)
    requires
        0 <= i <= b.len(),
    ensures
        v.read(a + b, a.len() + i) == v.read(b, i),
    decreases b.len() - i,
{
    let all = a + b;
    if i < b.len() {
        assert(all[a.len() + i] == b[i]);
        if let Some(key) = arg_key(b[i]) {
            if missing_words(key) is None {
                if let Ok(w) = v.with_flag(key) {
                    lemma_rest_is_read(w, a, b, i + 1);
                }
            } else if i + 1 < b.len() {
                assert(all[a.len() + i + 1] == b[i + 1]);
                if let Ok(w) = v.with_value(key, b[i + 1]) {
                    lemma_rest_is_read(w, a, b, i + 2);
                }
            }
        }
    }
}

proof fn lemma_read_on(v: ArgsView, a: Seq<Seq<char>>, b: Seq<Seq<char>>, i: int)
    requires
        0 <= i <= a.len(),
        v.read(a, i) is Ok,
    ensures
        v.read(a + b, i) == v.read(a, i)->Ok_0.read(b, 0),
    decreases a.len() - i,
{
    let all = a + b;
    if i == a.len() {
        lemma_rest_is_read(v, a, b, 0);
    } else {
        assert(all[i] == a[i]);
        let key = arg_key(a[i])->0;
        if missing_words(key) is None {
            lemma_read_on(v.with_flag(key)->Ok_0, a, b, i + 1);
        } else {
            assert(all[i + 1] == a[i + 1]);
            lemma_read_on(v.with_value(key, a[i + 1])->Ok_0, a, b, i + 2);
        }
    }
}

/// Arguments are read in their order: those that come behind others find the values that the
/// others left, and no arguments leave the values as they are.
pub proof fn law_arguments_are_read_in_order(
    v: ArgsView,
    a: Seq<Seq<char>>,
    b: Seq<Seq<char>>,
    w: ArgsView,
)
    requires
        v.read(a, 0) == Ok::<ArgsView, Seq<char>>(w),
    ensures
        v.read(a + b, 0) == w.read(b, 0),
        v.read(Seq::empty(), 0) == Ok::<ArgsView, Seq<char>>(v),
{
    lemma_read_on(v, a, b, 0);
}

proof fn lemma_pair_is_read(v: ArgsView, name: Seq<char>, value: Seq<char>, rest: Seq<Seq<char>>)
    requires
        arg_key(name) is Some,
        missing_words(arg_key(name)->0) is Some,
    ensures
        v.read(seq![name, value] + rest, 0) == match v.with_value(arg_key(name)->0, value) {
            Ok(w) => w.read(rest, 0),
            Err(words) => Err(words),
        },
{
    let all = seq![name, value] + rest;
    assert(all[0] == name && all[1] == value);
    if let Ok(w) = v.with_value(arg_key(name)->0, value) {
        lemma_rest_is_read(w, seq![name, value], rest, 0);
    }
}

/// Each option that takes a value sets what it is named for and nothing else, whatever was set
/// before, and the arguments behind its value are read on with that.
pub proof fn law_option_sets_its_own_value(v: ArgsView, value: Seq<char>, rest: Seq<Seq<char>>)
    ensures
        v.read(seq!["--listen"@, value] + rest, 0) == (ArgsView { listen: value, ..v }).read(rest, 0),
        v.read(seq!["--shm-path"@, value] + rest, 0) == (ArgsView { shm_path: Some(value), ..v }).read(rest, 0),
        v.read(seq!["--input"@, value] + rest, 0) == (ArgsView { input: Some(value), ..v }).read(rest, 0),
        v.read(seq!["--splash"@, value] + rest, 0) == (ArgsView { splash: Some(value), ..v }).read(rest, 0),
        v.read(seq!["--shm-size"@, value] + rest, 0) == match text::decimal(value, u64::MAX as int) {
            Some(n) => (ArgsView { shm_size: n as u64, ..v }).read(rest, 0),
            None => Err("--shm-size must be a u64"@),
        },
        v.read(seq!["--appsrc-max-buffers"@, value] + rest, 0) == match text::decimal(value, u64::MAX as int) {
            Some(n) => (ArgsView { appsrc: AppSrcConfig { max_buffers: n as u64, ..v.appsrc }, ..v }).read(rest, 0),
            None => Err("--appsrc-max-buffers must be a u64"@),
        },
        v.read(seq!["--appsrc-max-bytes"@, value] + rest, 0) == match text::decimal(value, u64::MAX as int) {
            Some(n) => (ArgsView { appsrc: AppSrcConfig { max_bytes: n as u64, ..v.appsrc }, ..v }).read(rest, 0),
            None => Err("--appsrc-max-bytes must be a u64"@),
        },
        v.read(seq!["--appsrc-max-time"@, value] + rest, 0) == match text::decimal(value, u64::MAX as int) {
            Some(n) => (ArgsView { appsrc: AppSrcConfig { max_time_ns: n as u64, ..v.appsrc }, ..v }).read(rest, 0),
            None => Err("--appsrc-max-time must be a u64 (ns)"@),
        },
{
    lemma_option_names();
    lemma_pair_is_read(v, "--listen"@, value, rest);
    lemma_pair_is_read(v, "--shm-path"@, value, rest);
    lemma_pair_is_read(v, "--input"@, value, rest);
    lemma_pair_is_read(v, "--splash"@, value, rest);
    lemma_pair_is_read(v, "--shm-size"@, value, rest);
    lemma_pair_is_read(v, "--appsrc-max-buffers"@, value, rest);
    lemma_pair_is_read(v, "--appsrc-max-bytes"@, value, rest);
    lemma_pair_is_read(v, "--appsrc-max-time"@, value, rest);
}

/// What a full source drops is named by one of three words; another word is refused.
pub proof fn law_leaky_is_named(v: ArgsView, value: Seq<char>, rest: Seq<Seq<char>>)
    ensures
        v.read(seq!["--appsrc-leaky"@, "none"@] + rest, 0) == (ArgsView {
            appsrc: AppSrcConfig { leaky: LeakyType::Nothing, ..v.appsrc },
            ..v
        }).read(rest, 0),
        v.read(seq!["--appsrc-leaky"@, "upstream"@] + rest, 0) == (ArgsView {
            appsrc: AppSrcConfig { leaky: LeakyType::Upstream, ..v.appsrc },
            ..v
        }).read(rest, 0),
        v.read(seq!["--appsrc-leaky"@, "downstream"@] + rest, 0) == (ArgsView {
            appsrc: AppSrcConfig { leaky: LeakyType::Downstream, ..v.appsrc },
            ..v
        }).read(rest, 0),
        value != "none"@ && value != "upstream"@ && value != "downstream"@ ==> v.read(
            seq!["--appsrc-leaky"@, value] + rest,
            0,
        ) == Err::<ArgsView, Seq<char>>("--appsrc-leaky must be none|upstream|downstream"@),
{
    lemma_option_names();
    reveal_strlit("none");
    reveal_strlit("upstream");
    reveal_strlit("downstream");
    assert("none"@.len() == 4 && "upstream"@.len() == 8 && "downstream"@.len() == 10);
    lemma_pair_is_read(v, "--appsrc-leaky"@, "none"@, rest);
    lemma_pair_is_read(v, "--appsrc-leaky"@, "upstream"@, rest);
    lemma_pair_is_read(v, "--appsrc-leaky"@, "downstream"@, rest);
    lemma_pair_is_read(v, "--appsrc-leaky"@, value, rest);
}

/// Each option that takes no value switches what it is named for, whatever was set before;
/// the two that ask for help stop the reading.
pub proof fn law_flag_switches_its_own(v: ArgsView, rest: Seq<Seq<char>>)
    ensures
        v.read(seq!["--no-deep-copy"@] + rest, 0) == (ArgsView { deep_copy: false, ..v }).read(
            rest,
            0,
        ),
        v.read(seq!["--appsrc-block"@] + rest, 0) == (ArgsView {
            appsrc: AppSrcConfig { block: true, ..v.appsrc },
            ..v
        }).read(rest, 0),
        v.read(seq!["--appsrc-no-block"@] + rest, 0) == (ArgsView {
            appsrc: AppSrcConfig { block: false, ..v.appsrc },
            ..v
        }).read(rest, 0),
        v.read(seq!["--help"@] + rest, 0) == Err::<ArgsView, Seq<char>>("help"@),
        v.read(seq!["-h"@] + rest, 0) == Err::<ArgsView, Seq<char>>("help"@),
{
    lemma_option_names();
    lemma_flag_is_read(v, "--no-deep-copy"@, rest);
    lemma_flag_is_read(v, "--appsrc-block"@, rest);
    lemma_flag_is_read(v, "--appsrc-no-block"@, rest);
    lemma_flag_is_read(v, "--help"@, rest);
    lemma_flag_is_read(v, "-h"@, rest);
}

proof fn lemma_flag_is_read(v: ArgsView, name: Seq<char>, rest: Seq<Seq<char>>)
    requires
        arg_key(name) is Some,
        missing_words(arg_key(name)->0) is None,
    ensures
        v.read(seq![name] + rest, 0) == match v.with_flag(arg_key(name)->0) {
            Ok(w) => w.read(rest, 0),
            Err(words) => Err(words),
        },
{
    let all = seq![name] + rest;
    assert(all[0] == name);
    if let Ok(w) = v.with_flag(arg_key(name)->0) {
        lemma_rest_is_read(w, seq![name], rest, 0);
    }
}

/// The argument is one of the options.
pub open spec fn is_option(arg: Seq<char>) -> bool {
    takes_value(arg) || arg == "--no-deep-copy"@ || arg == "--appsrc-block"@ || arg
        == "--appsrc-no-block"@ || arg == "--help"@ || arg == "-h"@
}

/// The argument is one of the options that take a value.
pub open spec fn takes_value(arg: Seq<char>) -> bool {
    arg == "--listen"@ || arg == "--shm-path"@ || arg == "--shm-size"@ || arg == "--input"@ || arg
        == "--splash"@ || arg == "--appsrc-max-buffers"@ || arg == "--appsrc-max-bytes"@ || arg
        == "--appsrc-max-time"@ || arg == "--appsrc-leaky"@
}

/// An argument in the place of an option that is none stops the reading, and is named. So does
/// an option that takes a value and is the last argument; its words begin with its name.
pub proof fn law_unknown_and_missing_arguments_stop(v: ArgsView, arg: Seq<char>, rest: Seq<Seq<char>>)
    ensures
        !is_option(arg) ==> v.read(seq![arg] + rest, 0) == Err::<ArgsView, Seq<char>>(
            "unknown arg: "@ + arg,
        ),
        takes_value(arg) ==> v.read(seq![arg], 0) is Err && (arg + " requires "@).is_prefix_of(
            v.read(seq![arg], 0)->Err_0,
        ),
{
    lemma_option_names();
    assert((seq![arg] + rest)[0] == arg);
    assert(seq![arg][0] == arg);
    if takes_value(arg) {
        let words = missing_words(arg_key(arg)->0)->0;
        lemma_missing_words();
        assert(v.read(seq![arg], 0) == Err::<ArgsView, Seq<char>>(words));
    }
}

proof fn lemma_missing_words()
    ensures
        ("--listen"@ + " requires "@).is_prefix_of("--listen requires a value"@),
        ("--shm-path"@ + " requires "@).is_prefix_of("--shm-path requires a value"@),
        ("--shm-size"@ + " requires "@).is_prefix_of("--shm-size requires a value"@),
        ("--input"@ + " requires "@).is_prefix_of("--input requires a pipeline string"@),
        ("--splash"@ + " requires "@).is_prefix_of("--splash requires a pipeline string"@),
        ("--appsrc-max-buffers"@ + " requires "@).is_prefix_of("--appsrc-max-buffers requires a value"@),
        ("--appsrc-max-bytes"@ + " requires "@).is_prefix_of("--appsrc-max-bytes requires a value"@),
        ("--appsrc-max-time"@ + " requires "@).is_prefix_of("--appsrc-max-time requires a value (ns)"@),
        ("--appsrc-leaky"@ + " requires "@).is_prefix_of("--appsrc-leaky requires none|upstream|downstream"@),
{
    reveal_strlit(" requires ");
    reveal_strlit("--listen");
    reveal_strlit("--listen requires a value");
    assert("--listen requires a value"@.subrange(0, 18) =~= "--listen"@ + " requires "@);
    reveal_strlit("--shm-path");
    reveal_strlit("--shm-path requires a value");
    assert("--shm-path requires a value"@.subrange(0, 20) =~= "--shm-path"@ + " requires "@);
    reveal_strlit("--shm-size");
    reveal_strlit("--shm-size requires a value");
    assert("--shm-size requires a value"@.subrange(0, 20) =~= "--shm-size"@ + " requires "@);
    reveal_strlit("--input");
    reveal_strlit("--input requires a pipeline string");
    assert("--input requires a pipeline string"@.subrange(0, 17) =~= "--input"@ + " requires "@);
    reveal_strlit("--splash");
    reveal_strlit("--splash requires a pipeline string");
    assert("--splash requires a pipeline string"@.subrange(0, 18) =~= "--splash"@ + " requires "@);
    reveal_strlit("--appsrc-max-buffers");
    reveal_strlit("--appsrc-max-buffers requires a value");
    assert("--appsrc-max-buffers requires a value"@.subrange(0, 30) =~= "--appsrc-max-buffers"@ + " requires "@);
    reveal_strlit("--appsrc-max-bytes");
    reveal_strlit("--appsrc-max-bytes requires a value");
    assert("--appsrc-max-bytes requires a value"@.subrange(0, 28) =~= "--appsrc-max-bytes"@ + " requires "@);
    reveal_strlit("--appsrc-max-time");
    reveal_strlit("--appsrc-max-time requires a value (ns)");
    assert("--appsrc-max-time requires a value (ns)"@.subrange(0, 27) =~= "--appsrc-max-time"@ + " requires "@);
    reveal_strlit("--appsrc-leaky");
    reveal_strlit("--appsrc-leaky requires none|upstream|downstream");
    assert("--appsrc-leaky requires none|upstream|downstream"@.subrange(0, 24) =~= "--appsrc-leaky"@ + " requires "@);
}

/// Before the first argument the relay listens for TCP clients at all addresses, gives the
/// region 64 MiB, copies frames deeply, and lets its source queue eight frames and block.
pub proof fn law_values_before_the_first_argument()
    ensures
        ({
            let v = ArgsView::start();
            &&& v.listen == "tcp://0.0.0.0:5555"@
            &&& v.shm_size == 64 * 1024 * 1024
            &&& v.shm_path is None && v.input is None && v.splash is None
            &&& v.deep_copy
            &&& v.appsrc.max_buffers == 8 && v.appsrc.max_bytes == 0 && v.appsrc.max_time_ns == 0
            &&& v.appsrc.block && v.appsrc.leaky == LeakyType::Nothing
        }),
{
}

/// The arguments make a request exactly when all of them can be read, a region and an input
/// are among them, and the place to listen at is one. The request is what they say, with the
/// pipelines made ready; otherwise what is wrong is told.
pub proof fn law_arguments_make_the_request(
    args: &Vec<String>,
    has_vsock: bool,
    r: Result<RelayConfig, String>,
    v: ArgsView,
    listen: &str,
    place: Result<ListenSpec, &'static str>,
    input: &str,
    ready: String,
    splash: &str,
    splash_ready: String,
)
    requires
        call_ensures(parse_args, (args, has_vsock), r),
        ArgsView::start().read(texts(args@), 0) == Ok::<ArgsView, Seq<char>>(v),
        listen@ == v.listen,
        call_ensures(parse_listen, (listen, has_vsock), place),
        v.input matches Some(p) ==> input@ == p,
        call_ensures(normalize_pipeline, (input,), ready),
        v.splash matches Some(p) ==> splash@ == p,
        call_ensures(normalize_pipeline, (splash,), splash_ready),
    ensures
        r is Ok <==> v.shm_path is Some && v.input is Some && place is Ok,
        v.shm_path is None ==> (r matches Err(e) && e@ == "--shm-path is required"@),
        v.shm_path is Some && v.input is None ==> (r matches Err(e) && e@ == "--input is required"@),
        v.shm_path is Some && v.input is Some && place is Err ==> (r matches Err(e) && e@
            == (place->Err_0)@),
        r matches Ok(c) ==> {
            &&& c.listen@ == (place->Ok_0)@
            &&& v.shm_path == Some(c.shm_path@)
            &&& c.shm_size == v.shm_size
            &&& c.input@ == ready@
            &&& c.splash is Some <==> v.splash is Some
            &&& c.splash matches Some(s) ==> s@ == splash_ready@
            &&& c.deep_copy == v.deep_copy
            &&& c.appsrc == v.appsrc
        },
{
}

/// Arguments that cannot be read are answered with what the reading stopped at.
pub proof fn law_reading_error_is_the_answer(
    args: &Vec<String>,
    has_vsock: bool,
    r: Result<RelayConfig, String>,
    words: Seq<char>,
)
    requires
        call_ensures(parse_args, (args, has_vsock), r),
        ArgsView::start().read(texts(args@), 0) == Err::<ArgsView, Seq<char>>(words),
    ensures
        r matches Err(e) && e@ == words,
{
}

} // verus!
