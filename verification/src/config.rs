//! The configuration: command line, environment, providers.

use crate::json::{
    entry_views, is_listing, json_str, no_fields, opt_string, opt_text, opt_view, or_default, parse_json, parsed, Json,
    JsonMap, JsonView,
};
use crate::merge::{deep_merge, merged};
use crate::paths::{
    absolute, absolute_path, absolute_view, default_log_path, default_path, is_absolute, join_path,
    joined_path,
};
use crate::text::{
    chars_of, decimal, has_prefix, lower, split_once, split_pair, starts_with, text_eq, texts, to_lower,
    trim, trim_start, trimmed, whitespace,
};
use vstd::prelude::*;
use vstd::string::*;

verus! {

/// The name of the program.
pub const APP_NAME: &'static str = "ai_proxy";

/// The version of the program.
pub const APP_VERSION: &'static str = "0.1.0";

/// The text that `--help` prints.
pub const HELP: &'static str = "Usage: ai_proxy [options]\n\nOptions:\n  --admin-port <port>     Admin dashboard port (default: 17800)\n  --oauth-port <port>     OAuth redirect port (default: 1455)\n  --port-range <a-b>      Downstream account port range (default: 18001-18100)\n  --host <host>           Bind host for local servers (default: 127.0.0.1)\n  --public-host <host>    Host shown in dashboard URLs (default: localhost)\n  --db <file>             JSON database path (default: ./orche-proxy.db.json)\n  --request-log <file>    SQLite upstream request log (default: ./ai_proxy.sqlite3)\n  --log-bodies [bool]     Persist raw request/response bodies (default: false)\n  --purge-bodies          Delete stored bodies from the SQLite log and exit\n  --config <file>         Optional provider config JSON path\n  --provider <id>         Default provider for new accounts (default: chatgpt)\n  --help                  Show this help\n\nEnvironment variables use the ORCHE_PROXY_* equivalents.\n";

/// The ports from `start` to `end`, both included.
#[derive(Debug, Clone, Copy)]
pub struct PortRange {
    pub start: u16,
    pub end: u16,
}

/// What the command line and the environment say. Paths are given as text.
#[derive(Debug, Clone)]
pub struct Cli {
    pub admin_port: u16,
    pub oauth_port: u16,
    pub host: String,
    pub public_host: String,
    pub db_path: String,
    pub request_log_path: Option<String>,
    pub log_bodies: bool,
    pub purge_bodies: bool,
    pub config_path: String,
    pub port_range: PortRange,
    pub provider: String,
    pub help: bool,
}

/// What a `Cli` says.
#[verifier::ext_equal]
pub struct CliView {
    pub admin_port: u16,
    pub oauth_port: u16,
    pub host: Seq<char>,
    pub public_host: Seq<char>,
    pub db_path: Seq<char>,
    pub request_log_path: Option<Seq<char>>,
    pub log_bodies: bool,
    pub purge_bodies: bool,
    pub config_path: Seq<char>,
    pub port_range: PortRange,
    pub provider: Seq<char>,
    pub help: bool,
}

impl View for Cli {
    type V = CliView;

    open spec fn view(&self) -> CliView {
        CliView {
            admin_port: self.admin_port,
            oauth_port: self.oauth_port,
            host: self.host@,
            public_host: self.public_host@,
            db_path: self.db_path@,
            request_log_path: opt_string(self.request_log_path),
            log_bodies: self.log_bodies,
            purge_bodies: self.purge_bodies,
            config_path: self.config_path@,
            port_range: self.port_range,
            provider: self.provider@,
            help: self.help,
        }
    }
}

/// The text that `--help` prints.
pub fn help() -> (text: &'static str)
    ensures
        text@ == HELP@,
{
    HELP
}

/// The digit that a character is, or nothing.
pub open spec fn digit_of(c: char) -> Option<int> {
    if '0' <= c && c <= '9' {
        Some(c as int - '0' as int)
    } else {
        None
    }
}

/// The number that digits stand for; nothing if there is a character that is no digit.
pub open spec fn digits_value(text: Seq<char>) -> Option<int>
    decreases text.len(),
{
    if text.len() == 0 {
        Some(0)
    } else {
        match (digits_value(text.drop_last()), digit_of(text.last())) {
            (Some(high), Some(low)) => Some(high * 10 + low),
            _ => None,
        }
    }
}

/// The port that a text gives: a number from 1 to 65535 in decimal digits, with or without a plus
/// sign before it.
pub open spec fn port_value(text: Seq<char>) -> Option<u16> {
    let digits = if text.len() > 0 && text[0] == '+' {
        text.skip(1)
    } else {
        text
    };
    match digits_value(digits) {
        Some(n) => if digits.len() > 0 && 0 < n && n <= u16::MAX {
            Some(n as u16)
        } else {
            None
        },
        None => None,
    }
}

/// What parsing gives: a value, or a message.
pub open spec fn outcome<T>(result: Result<T, String>) -> Result<T, Seq<char>> {
    match result {
        Ok(value) => Ok(value),
        Err(message) => Err(message@),
    }
}

/// The port that a text gives, or a message with its label.
pub open spec fn parsed_port(value: Seq<char>, label: Seq<char>) -> Result<u16, Seq<char>> {
    match port_value(value) {
        Some(port) => Ok(port),
        None => Err(label + " must be a TCP port between 1 and 65535"@),
    }
}

proof fn lemma_digits_value(text: Seq<char>)
    ensures
        digits_value(text) matches Some(n) ==> n >= 0,
    decreases text.len(),
{
    if text.len() > 0 {
        lemma_digits_value(text.drop_last());
    }
}

proof fn lemma_digits_prefix(text: Seq<char>, i: int)
    requires
        0 <= i <= text.len(),
    ensures
        digits_value(text.take(i)) is None ==> digits_value(text) is None,
        digits_value(text) is Some && digits_value(text.take(i)) is Some ==> digits_value(text)->0
            >= digits_value(text.take(i))->0,
    decreases text.len(),
{
    if i < text.len() {
        lemma_digits_prefix(text.drop_last(), i);
        lemma_digits_value(text.drop_last());
        assert(text.drop_last().take(i) =~= text.take(i));
    } else {
        assert(text.take(i) =~= text);
    }
}

/// The port that a text gives, or a message with its label.
pub fn parse_port(value: &str, label: &str) -> (result: Result<u16, String>)
    ensures
        outcome(result) == parsed_port(value@, label@),
{
    let mut message = label.to_owned();
    message.append(" must be a TCP port between 1 and 65535");
    let chars = chars_of(value);
    let from: usize = if chars.len() > 0 && chars[0] == '+' {
        1
    } else {
        0
    };
    let ghost digits = chars@.skip(from as int);
    proof {
        assert(chars@.skip(0) =~= chars@);
    }
    if from == chars.len() {
        return Err(message);
    }
    let mut n: u32 = 0;
    let mut i = from;
    assert(digits.take(0) =~= Seq::<char>::empty());
    while i < chars.len()
        invariant
            from <= i <= chars@.len(),
            from < chars@.len(),
            chars@ == value@,
            digits == chars@.skip(from as int),
            message@ == label@ + " must be a TCP port between 1 and 65535"@,
            parsed_port(value@, label@) == (match digits_value(digits) {
                Some(n) => if 0 < n && n <= u16::MAX {
                    Ok::<u16, Seq<char>>(n as u16)
                } else {
                    Err::<u16, Seq<char>>(message@)
                },
                None => Err::<u16, Seq<char>>(message@),
            }),
            n <= 65535,
            digits_value(digits.take(i - from)) == Some(n as int),
        decreases chars@.len() - i,
    {
        let c = chars[i];
        proof {
            assert(digits.take(i - from + 1).drop_last() =~= digits.take(i - from));
            assert(digits.take(i - from + 1).last() == c);
            lemma_digits_prefix(digits, i - from + 1);
        }
        if !('0' <= c && c <= '9') {
            return Err(message);
        }
        n = n * 10 + (c as u32 - '0' as u32);
        if n > 65535 {
            return Err(message);
        }
        i = i + 1;
    }
    assert(digits.take(digits.len() as int) =~= digits);
    if n == 0 {
        return Err(message);
    }
    Ok(n as u16)
}

/// The range of ports that a text gives, or a message.
pub open spec fn parsed_range(value: Seq<char>) -> Result<PortRange, Seq<char>> {
    match split_pair(trimmed(value), '-') {
        None => Err("Invalid port range: "@ + value + ". Expected START-END."@),
        Some((first, last)) => match parsed_port(first, "port range start"@) {
            Err(message) => Err(message),
            Ok(start) => match parsed_port(last, "port range end"@) {
                Err(message) => Err(message),
                Ok(end) => if end < start {
                    Err("Port range end must be >= start"@)
                } else {
                    Ok(PortRange { start, end })
                },
            },
        },
    }
}

/// The range of ports that a text gives, or a message.
pub fn parse_port_range(value: &str) -> (result: Result<PortRange, String>)
    ensures
        outcome(result) == parsed_range(value@),
{
    let text = trim(value);
    let (first, last) = match split_once(text.as_str(), '-') {
        Some(parts) => parts,
        None => {
            let mut message = "Invalid port range: ".to_owned();
            message.append(value);
            message.append(". Expected START-END.");
            return Err(message);
        },
    };
    let start = match parse_port(first.as_str(), "port range start") {
        Ok(start) => start,
        Err(message) => {
            return Err(message);
        },
    };
    let end = match parse_port(last.as_str(), "port range end") {
        Ok(end) => end,
        Err(message) => {
            return Err(message);
        },
    };
    if end < start {
        return Err("Port range end must be >= start".to_owned());
    }
    Ok(PortRange { start, end })
}

/// Whether a text says yes.
pub open spec fn says_yes(value: Seq<char>) -> bool {
    lower(value) == "1"@ || lower(value) == "true"@ || lower(value) == "yes"@
}

/// Whether a text says no.
pub open spec fn says_no(value: Seq<char>) -> bool {
    lower(value) == "0"@ || lower(value) == "false"@ || lower(value) == "no"@
}

/// The truth value that a text gives, or a message with its label.
pub open spec fn parsed_flag(value: Seq<char>, label: Seq<char>) -> Result<bool, Seq<char>> {
    if says_yes(value) {
        Ok(true)
    } else if says_no(value) {
        Ok(false)
    } else {
        Err(label + " expects true or false"@)
    }
}

fn is_yes(value: &str) -> (yes: bool)
    ensures
        yes == says_yes(value@),
{
    let small = to_lower(value);
    text_eq(small.as_str(), "1") || text_eq(small.as_str(), "true") || text_eq(
        small.as_str(),
        "yes",
    )
}

/// The truth value that a text gives, or a message with its label.
pub fn parse_flag(value: &str, label: &str) -> (result: Result<bool, String>)
    ensures
        outcome(result) == parsed_flag(value@, label@),
{
    if is_yes(value) {
        return Ok(true);
    }
    let small = to_lower(value);
    if text_eq(small.as_str(), "0") || text_eq(small.as_str(), "false") || text_eq(
        small.as_str(),
        "no",
    ) {
        return Ok(false);
    }
    let mut message = label.to_owned();
    message.append(" expects true or false");
    Err(message)
}

/// The values of the environment variables that the program reads, without their common prefix.
#[derive(Debug)]
pub struct Environment {
    pub admin_port: Option<String>,
    pub oauth_port: Option<String>,
    pub host: Option<String>,
    pub public_host: Option<String>,
    pub db: Option<String>,
    pub request_log: Option<String>,
    pub log_bodies: Option<String>,
    pub config: Option<String>,
    pub port_range: Option<String>,
    pub provider: Option<String>,
}

/// Whether a variable of the environment is set and says yes.
pub fn env_flag(value: Option<&str>) -> (yes: bool)
    ensures
        yes == (value matches Some(text) && says_yes(text@)),
{
    match value {
        Some(value) => is_yes(value),
        None => false,
    }
}

/// The port that a variable of the environment gives, or `fallback` if it is not set.
pub open spec fn port_or(
    value: Option<Seq<char>>,
    name: Seq<char>,
    fallback: u16,
) -> Result<u16, Seq<char>> {
    match value {
        Some(value) => parsed_port(value, name),
        None => Ok(fallback),
    }
}

/// The port that a variable of the environment gives, or `fallback` if it is not set.
pub fn env_port(value: &Option<String>, name: &str, fallback: u16) -> (result: Result<u16, String>)
    ensures
        outcome(result) == port_or(opt_string(*value), name@, fallback),
{
    match value {
        Some(value) => parse_port(value.as_str(), name),
        None => Ok(fallback),
    }
}

/// What the environment says: the values that the command line can change.
pub open spec fn cli_of_environment(env: Environment, cwd: Seq<char>) -> Result<CliView, Seq<char>> {
    match port_or(opt_string(env.admin_port), "ORCHE_PROXY_ADMIN_PORT"@, 17800) {
        Err(message) => Err(message),
        Ok(admin_port) => match port_or(
            opt_string(env.oauth_port),
            "ORCHE_PROXY_OAUTH_PORT"@,
            1455,
        ) {
            Err(message) => Err(message),
            Ok(oauth_port) => match parsed_range(
                or_default(opt_string(env.port_range), "18001-18100"@),
            ) {
                Err(message) => Err(message),
                Ok(port_range) => Ok(
                    CliView {
                        admin_port,
                        oauth_port,
                        host: or_default(opt_string(env.host), "127.0.0.1"@),
                        public_host: or_default(opt_string(env.public_host), "localhost"@),
                        db_path: or_default(
                            opt_string(env.db),
                            joined_path(cwd, "orche-proxy.db.json"@),
                        ),
                        request_log_path: opt_string(env.request_log),
                        log_bodies: env.log_bodies matches Some(text) && says_yes(text@),
                        purge_bodies: false,
                        config_path: or_default(
                            opt_string(env.config),
                            joined_path(cwd, "orche-proxy.config.json"@),
                        ),
                        port_range,
                        provider: or_default(opt_string(env.provider), "chatgpt"@),
                        help: false,
                    },
                ),
            },
        },
    }
}

/// Whether an argument is a switch that needs no value.
pub open spec fn is_switch(arg: Seq<char>) -> bool {
    arg == "--log-bodies"@ || arg == "--purge-bodies"@
}

/// Whether an argument is one that asks for help.
pub open spec fn asks_help(arg: Seq<char>) -> bool {
    arg == "--help"@ || arg == "-h"@
}

/// What is said after a switch is turned on or off.
pub open spec fn with_switch(cli: CliView, arg: Seq<char>, on: bool) -> CliView {
    if arg == "--log-bodies"@ {
        CliView { log_bodies: on, ..cli }
    } else {
        CliView { purge_bodies: on, ..cli }
    }
}

/// What is said after an option with its value, or a message.
pub open spec fn with_option(
    cli: CliView,
    arg: Seq<char>,
    value: Seq<char>,
    cwd: Seq<char>,
) -> Result<CliView, Seq<char>> {
    if arg == "--admin-port"@ {
        match parsed_port(value, arg) {
            Ok(admin_port) => Ok(CliView { admin_port, ..cli }),
            Err(message) => Err(message),
        }
    } else if arg == "--oauth-port"@ {
        match parsed_port(value, arg) {
            Ok(oauth_port) => Ok(CliView { oauth_port, ..cli }),
            Err(message) => Err(message),
        }
    } else if arg == "--host"@ {
        Ok(CliView { host: value, ..cli })
    } else if arg == "--public-host"@ {
        Ok(CliView { public_host: value, ..cli })
    } else if arg == "--db"@ {
        Ok(CliView { db_path: absolute_view(value, cwd), ..cli })
    } else if arg == "--request-log"@ || arg == "--sqlite"@ {
        Ok(CliView { request_log_path: Some(absolute_view(value, cwd)), ..cli })
    } else if arg == "--config"@ {
        Ok(CliView { config_path: absolute_view(value, cwd), ..cli })
    } else if arg == "--port-range"@ {
        match parsed_range(value) {
            Ok(port_range) => Ok(CliView { port_range, ..cli }),
            Err(message) => Err(message),
        }
    } else if arg == "--provider"@ {
        Ok(CliView { provider: value, ..cli })
    } else {
        Err("Unknown argument: "@ + arg)
    }
}

/// What is said after the arguments from position `i` on, or a message for the first that is wrong.
pub open spec fn with_arguments(
    cli: CliView,
    args: Seq<Seq<char>>,
    i: int,
    cwd: Seq<char>,
) -> Result<CliView, Seq<char>>
    decreases args.len() - i,
{
    if i >= args.len() {
        Ok(cli)
    } else {
        let arg = args[i];
        let valued = i + 1 < args.len() && !has_prefix(args[i + 1], "--"@);
        if asks_help(arg) {
            with_arguments(CliView { help: true, ..cli }, args, i + 1, cwd)
        } else if is_switch(arg) {
            if valued {
                match parsed_flag(args[i + 1], arg) {
                    Ok(on) => with_arguments(with_switch(cli, arg, on), args, i + 2, cwd),
                    Err(message) => Err(message),
                }
            } else {
                with_arguments(with_switch(cli, arg, true), args, i + 1, cwd)
            }
        } else if !valued {
            Err("Missing value for "@ + arg)
        } else {
            match with_option(cli, arg, args[i + 1], cwd) {
                Ok(next) => with_arguments(next, args, i + 2, cwd),
                Err(message) => Err(message),
            }
        }
    }
}

/// What is said with every path made absolute.
pub open spec fn with_absolute_paths(cli: CliView, cwd: Seq<char>) -> CliView {
    CliView {
        db_path: absolute_view(cli.db_path, cwd),
        request_log_path: match cli.request_log_path {
            Some(path) => Some(absolute_view(path, cwd)),
            None => None,
        },
        config_path: absolute_view(cli.config_path, cwd),
        ..cli
    }
}

/// What the command line and the environment say together, or a message.
pub open spec fn parsed_args(args: Seq<Seq<char>>, env: Environment, cwd: Seq<char>) -> Result<
    CliView,
    Seq<char>,
> {
    match cli_of_environment(env, cwd) {
        Err(message) => Err(message),
        Ok(start) => match with_arguments(start, args, 0, cwd) {
            Err(message) => Err(message),
            Ok(cli) => Ok(with_absolute_paths(cli, cwd)),
        },
    }
}

/// What parsing gives, as contracts speak of it.
pub open spec fn cli_outcome(result: Result<Cli, String>) -> Result<CliView, Seq<char>> {
    match result {
        Ok(cli) => Ok(cli@),
        Err(message) => Err(message@),
    }
}

/// The text of an option, or `default`.
fn text_or(value: &Option<String>, default: &str) -> (text: String)
    ensures
        text@ == or_default(opt_string(*value), default@),
{
    match value {
        Some(text) => text.clone(),
        None => default.to_owned(),
    }
}

/// What the environment says.
fn read_environment(env: &Environment, cwd: &str) -> (result: Result<Cli, String>)
    ensures
        cli_outcome(result) == cli_of_environment(*env, cwd@),
{
    let admin_port = match env_port(&env.admin_port, "ORCHE_PROXY_ADMIN_PORT", 17800) {
        Ok(port) => port,
        Err(message) => {
            return Err(message);
        },
    };
    let oauth_port = match env_port(&env.oauth_port, "ORCHE_PROXY_OAUTH_PORT", 1455) {
        Ok(port) => port,
        Err(message) => {
            return Err(message);
        },
    };
    let port_range = match parse_port_range(text_or(&env.port_range, "18001-18100").as_str()) {
        Ok(port_range) => port_range,
        Err(message) => {
            return Err(message);
        },
    };
    let log_bodies = match &env.log_bodies {
        Some(value) => env_flag(Some(value.as_str())),
        None => env_flag(None),
    };
    Ok(
        Cli {
            admin_port,
            oauth_port,
            host: text_or(&env.host, "127.0.0.1"),
            public_host: text_or(&env.public_host, "localhost"),
            db_path: text_or(&env.db, join_path(cwd, "orche-proxy.db.json").as_str()),
            request_log_path: match &env.request_log {
                Some(path) => Some(path.clone()),
                None => None,
            },
            log_bodies,
            purge_bodies: false,
            config_path: text_or(&env.config, join_path(cwd, "orche-proxy.config.json").as_str()),
            port_range,
            provider: text_or(&env.provider, "chatgpt"),
            help: false,
        },
    )
}

/// Takes in an option with its value, or gives a message.
fn set_option(cli: &mut Cli, arg: &str, value: &str, cwd: &str) -> (result: Result<(), String>)
    ensures
        with_option(old(cli)@, arg@, value@, cwd@) == (match result {
            Ok(_) => Ok::<CliView, Seq<char>>(final(cli)@),
            Err(message) => Err::<CliView, Seq<char>>(message@),
        }),
{
    if text_eq(arg, "--admin-port") {
        match parse_port(value, arg) {
            Ok(port) => {
                cli.admin_port = port;
            },
            Err(message) => {
                return Err(message);
            },
        }
    } else if text_eq(arg, "--oauth-port") {
        match parse_port(value, arg) {
            Ok(port) => {
                cli.oauth_port = port;
            },
            Err(message) => {
                return Err(message);
            },
        }
    } else if text_eq(arg, "--host") {
        cli.host = value.to_owned();
    } else if text_eq(arg, "--public-host") {
        cli.public_host = value.to_owned();
    } else if text_eq(arg, "--db") {
        cli.db_path = absolute(value, cwd);
    } else if text_eq(arg, "--request-log") || text_eq(arg, "--sqlite") {
        cli.request_log_path = Some(absolute(value, cwd));
    } else if text_eq(arg, "--config") {
        cli.config_path = absolute(value, cwd);
    } else if text_eq(arg, "--port-range") {
        match parse_port_range(value) {
            Ok(port_range) => {
                cli.port_range = port_range;
            },
            Err(message) => {
                return Err(message);
            },
        }
    } else if text_eq(arg, "--provider") {
        cli.provider = value.to_owned();
    } else {
        let mut message = "Unknown argument: ".to_owned();
        message.append(arg);
        return Err(message);
    }
    Ok(())
}

/// What the command line and the environment say together, in the directory `cwd`, or a message that
/// says what is wrong. The first argument is the first behind the program's name.
pub fn parse_args(args: &Vec<String>, env: &Environment, cwd: &str) -> (result: Result<
    Cli,
    String,
>)
    ensures
        cli_outcome(result) == parsed_args(texts(args@), *env, cwd@),
{
    let mut cli = match read_environment(env, cwd) {
        Ok(cli) => cli,
        Err(message) => {
            return Err(message);
        },
    };
    let ghost start = cli@;
    let ghost all = texts(args@);
    let n = args.len();
    let mut i: usize = 0;
    while i < n
        invariant
            i <= n,
            n == args@.len(),
            all == texts(args@),
            cli_of_environment(*env, cwd@) == Ok::<CliView, Seq<char>>(start),
            with_arguments(start, all, 0, cwd@) == with_arguments(cli@, all, i as int, cwd@),
        decreases n - i,
    {
        let arg = args[i].as_str();
        assert(all[i as int] == arg@);
        let valued = i + 1 < n && !starts_with(args[i + 1].as_str(), "--");
        proof {
            if i + 1 < n {
                assert(all[i + 1] == args@[i + 1]@);
            }
        }
        if text_eq(arg, "--help") || text_eq(arg, "-h") {
            cli.help = true;
            i = i + 1;
        } else if text_eq(arg, "--log-bodies") || text_eq(arg, "--purge-bodies") {
            let on = if valued {
                match parse_flag(args[i + 1].as_str(), arg) {
                    Ok(on) => on,
                    Err(message) => {
                        return Err(message);
                    },
                }
            } else {
                true
            };
            if text_eq(arg, "--log-bodies") {
                cli.log_bodies = on;
            } else {
                cli.purge_bodies = on;
            }
            i = if valued {
                i + 2
            } else {
                i + 1
            };
        } else if !valued {
            let mut message = "Missing value for ".to_owned();
            message.append(arg);
            return Err(message);
        } else {
            match set_option(&mut cli, arg, args[i + 1].as_str(), cwd) {
                Ok(_) => {},
                Err(message) => {
                    return Err(message);
                },
            }
            i = i + 2;
        }
    }
    cli.db_path = absolute_path(cli.db_path.as_str(), cwd);
    cli.request_log_path = match &cli.request_log_path {
        Some(path) => Some(absolute_path(path.as_str(), cwd)),
        None => None,
    };
    cli.config_path = absolute_path(cli.config_path.as_str(), cwd);
    Ok(cli)
}

/// Whether ports are ports: none is 0, and the range is not empty.
pub open spec fn has_sound_ports(cli: CliView) -> bool {
    cli.admin_port > 0 && cli.oauth_port > 0 && 0 < cli.port_range.start <= cli.port_range.end
}

proof fn lemma_sound_arguments(cli: CliView, args: Seq<Seq<char>>, i: int, cwd: Seq<char>)
    requires
        has_sound_ports(cli),
    ensures
        with_arguments(cli, args, i, cwd) matches Ok(after) ==> has_sound_ports(after),
    decreases args.len() - i,
{
    if i < args.len() {
        let arg = args[i];
        let valued = i + 1 < args.len() && !has_prefix(args[i + 1], "--"@);
        if asks_help(arg) {
            lemma_sound_arguments(CliView { help: true, ..cli }, args, i + 1, cwd);
        } else if is_switch(arg) {
            if valued {
                if let Ok(on) = parsed_flag(args[i + 1], arg) {
                    lemma_sound_arguments(with_switch(cli, arg, on), args, i + 2, cwd);
                }
            } else {
                lemma_sound_arguments(with_switch(cli, arg, true), args, i + 1, cwd);
            }
        } else if valued {
            if let Ok(next) = with_option(cli, arg, args[i + 1], cwd) {
                lemma_sound_arguments(next, args, i + 2, cwd);
            }
        }
    }
}

/// What is accepted of the command line and the environment can be used: no port is 0, the range of
/// ports is not empty, and, in an absolute directory, every path is absolute.
pub proof fn law_accepted_options_are_sound(
    args: Seq<Seq<char>>,
    env: Environment,
    cwd: Seq<char>,
)
    requires
        is_absolute(cwd),
    ensures
        parsed_args(args, env, cwd) matches Ok(cli) ==> {
            &&& has_sound_ports(cli)
            &&& is_absolute(cli.db_path)
            &&& is_absolute(cli.config_path)
            &&& cli.request_log_path matches Some(path) ==> is_absolute(path)
        },
{
    if let Ok(start) = cli_of_environment(env, cwd) {
        lemma_sound_arguments(start, args, 0, cwd);
    }
}

/// How accounts of a provider log in.
#[derive(Debug, Clone)]
pub struct OauthConfig {
    pub issuer: String,
    pub authorize_url: String,
    pub token_url: String,
    pub revoke_url: String,
    pub client_id: String,
    pub scope: String,
    pub redirect_path: String,
    pub extra_authorize_params: JsonMap,
}

/// Where and how a provider is reached.
#[derive(Debug, Clone)]
pub struct ApiConfig {
    pub base_url: String,
    pub models_path: String,
    pub responses_path: String,
    pub usage_url: String,
    pub chat_completions_path: Option<String>,
    pub user_agent: String,
    pub headers: JsonMap,
}

/// A provider.
#[derive(Debug, Clone)]
pub struct Provider {
    pub id: String,
    pub label: String,
    pub mode: String,
    pub oauth: OauthConfig,
    pub api: ApiConfig,
}

/// The configuration of the proxy.
#[derive(Debug, Clone)]
pub struct Config {
    pub admin_port: u16,
    pub oauth_port: u16,
    pub host: String,
    pub public_host: String,
    pub db_path: String,
    pub request_log_path: String,
    pub log_bodies: bool,
    pub port_range: PortRange,
    pub default_provider: String,
    pub providers: Vec<(String, Provider)>,
}

/// The mode of a provider that gives none.
pub fn default_mode() -> (mode: String)
    ensures
        mode@ == "responses-adapter"@,
{
    "responses-adapter".to_owned()
}

impl Default for OauthConfig {
    fn default() -> (oauth: Self)
        ensures
            oauth.issuer@ == Seq::<char>::empty(),
            oauth.authorize_url@ == Seq::<char>::empty(),
            oauth.token_url@ == Seq::<char>::empty(),
            oauth.revoke_url@ == Seq::<char>::empty(),
            oauth.client_id@ == Seq::<char>::empty(),
            oauth.scope@ == Seq::<char>::empty(),
            oauth.redirect_path@ == Seq::<char>::empty(),
            oauth.extra_authorize_params@ == no_fields(),
    {
        OauthConfig {
            issuer: String::new(),
            authorize_url: String::new(),
            token_url: String::new(),
            revoke_url: String::new(),
            client_id: String::new(),
            scope: String::new(),
            redirect_path: String::new(),
            extra_authorize_params: JsonMap::new(),
        }
    }
}

impl Default for ApiConfig {
    fn default() -> (api: Self)
        ensures
            api.base_url@ == Seq::<char>::empty(),
            api.models_path@ == Seq::<char>::empty(),
            api.responses_path@ == Seq::<char>::empty(),
            api.usage_url@ == Seq::<char>::empty(),
            api.chat_completions_path is None,
            api.user_agent@ == Seq::<char>::empty(),
            api.headers@ == no_fields(),
    {
        ApiConfig {
            base_url: String::new(),
            models_path: String::new(),
            responses_path: String::new(),
            usage_url: String::new(),
            chat_completions_path: None,
            user_agent: String::new(),
            headers: JsonMap::new(),
        }
    }
}

/// The name and version of the program, as it introduces itself.
pub open spec fn program_view() -> Seq<char> {
    APP_NAME@ + "/"@ + APP_VERSION@
}

/// The name and version of the program, as it introduces itself.
pub fn program_text() -> (text: String)
    ensures
        text@ == program_view(),
{
    let mut text = APP_NAME.to_owned();
    text.append("/");
    text.append(APP_VERSION);
    text
}

/// How ChatGPT accounts log in, unless a file says otherwise.
pub open spec fn default_oauth() -> JsonView {
    JsonView::Object(
        no_fields().insert("issuer"@, json_str("https://auth.openai.com"@)).insert(
            "authorizeUrl"@,
            json_str("https://auth.openai.com/oauth/authorize"@),
        ).insert("tokenUrl"@, json_str("https://auth.openai.com/oauth/token"@)).insert(
            "revokeUrl"@,
            json_str("https://auth.openai.com/oauth/revoke"@),
        ).insert("clientId"@, json_str("app_EMoamEEZ73f0CkXaXp7hrann"@)).insert(
            "scope"@,
            json_str(
                "openid profile email offline_access api.connectors.read api.connectors.invoke"@,
            ),
        ).insert("redirectPath"@, json_str("/auth/callback"@)).insert(
            "extraAuthorizeParams"@,
            JsonView::Object(
                no_fields().insert("id_token_add_organizations"@, json_str("true"@)).insert(
                    "codex_cli_simplified_flow"@,
                    json_str("true"@),
                ).insert("originator"@, json_str(APP_NAME@)),
            ),
        ),
    )
}

/// Where and how ChatGPT is reached, unless a file says otherwise.
pub open spec fn default_api() -> JsonView {
    JsonView::Object(
        no_fields().insert(
            "baseUrl"@,
            json_str("https://chatgpt.com/backend-api/codex"@),
        ).insert("modelsPath"@, json_str("/models?client_version=0.153.0"@)).insert(
            "responsesPath"@,
            json_str("/responses"@),
        ).insert("usageUrl"@, json_str("https://chatgpt.com/backend-api/wham/usage"@)).insert(
            "chatCompletionsPath"@,
            JsonView::Null,
        ).insert("userAgent"@, json_str(program_view())).insert(
            "headers"@,
            JsonView::Object(no_fields()),
        ),
    )
}

/// The providers, unless a file says otherwise.
pub open spec fn default_document() -> JsonView {
    JsonView::Object(
        no_fields().insert(
            "chatgpt"@,
            JsonView::Object(
                no_fields().insert("id"@, json_str("chatgpt"@)).insert(
                    "label"@,
                    json_str("ChatGPT Plus/Pro"@),
                ).insert("mode"@, json_str("responses-adapter"@)).insert(
                    "oauth"@,
                    default_oauth(),
                ).insert("api"@, default_api()),
            ),
        ),
    )
}

/// The providers, unless a file says otherwise.
pub fn default_providers() -> (document: Json)
    ensures
        document@ == default_document(),
{
    let mut params = JsonMap::new();
    params.insert("id_token_add_organizations", Json::text("true"));
    params.insert("codex_cli_simplified_flow", Json::text("true"));
    params.insert("originator", Json::text(APP_NAME));
    let mut oauth = JsonMap::new();
    oauth.insert("issuer", Json::text("https://auth.openai.com"));
    oauth.insert("authorizeUrl", Json::text("https://auth.openai.com/oauth/authorize"));
    oauth.insert("tokenUrl", Json::text("https://auth.openai.com/oauth/token"));
    oauth.insert("revokeUrl", Json::text("https://auth.openai.com/oauth/revoke"));
    oauth.insert("clientId", Json::text("app_EMoamEEZ73f0CkXaXp7hrann"));
    oauth.insert(
        "scope",
        Json::text("openid profile email offline_access api.connectors.read api.connectors.invoke"),
    );
    oauth.insert("redirectPath", Json::text("/auth/callback"));
    oauth.insert("extraAuthorizeParams", Json::Object(params));
    let mut api = JsonMap::new();
    api.insert("baseUrl", Json::text("https://chatgpt.com/backend-api/codex"));
    api.insert("modelsPath", Json::text("/models?client_version=0.153.0"));
    api.insert("responsesPath", Json::text("/responses"));
    api.insert("usageUrl", Json::text("https://chatgpt.com/backend-api/wham/usage"));
    api.insert("chatCompletionsPath", Json::Null);
    api.insert("userAgent", Json::String(program_text()));
    api.insert("headers", Json::Object(JsonMap::new()));
    let mut chatgpt = JsonMap::new();
    chatgpt.insert("id", Json::text("chatgpt"));
    chatgpt.insert("label", Json::text("ChatGPT Plus/Pro"));
    chatgpt.insert("mode", Json::text("responses-adapter"));
    chatgpt.insert("oauth", Json::Object(oauth));
    chatgpt.insert("api", Json::Object(api));
    let mut providers = JsonMap::new();
    providers.insert("chatgpt", Json::Object(chatgpt));
    Json::Object(providers)
}

/// The providers with what a file says of them laid over the defaults.
pub open spec fn providers_with(file: Option<JsonView>) -> JsonView {
    match file {
        Some(file) => match file.get("providers"@) {
            Some(overrides) => merged(default_document(), overrides),
            None => default_document(),
        },
        None => default_document(),
    }
}

/// The providers with what a file says of them laid over the defaults.
pub fn merge_providers(file: Option<&Json>) -> (document: Json)
    ensures
        document@ == providers_with(opt_view(file)),
{
    let mut providers = default_providers();
    if let Some(file) = file {
        if let Some(overrides) = file.get("providers") {
            deep_merge(&mut providers, overrides.clone());
        }
    }
    providers
}

/// The providers with what the text of a file says of them, or a message.
pub open spec fn providers_of(path: Seq<char>, text: Option<Seq<char>>) -> Result<
    JsonView,
    Seq<char>,
> {
    match text {
        None => Ok(providers_with(None)),
        Some(text) => match parsed(text) {
            Err(message) => Err("Invalid config "@ + path + ": "@ + message),
            Ok(file) => Ok(providers_with(Some(file))),
        },
    }
}

/// The documents of the providers, in the order of their keys: the defaults, and laid over them what
/// the file at `path` says, if there is one.
pub fn read_providers(path: &str, text: Option<&str>) -> (result: Result<
    Vec<(String, Json)>,
    String,
>)
    ensures
        match providers_of(path@, opt_text(text)) {
            Err(message) => result matches Err(own) && own@ == message,
            Ok(JsonView::Object(fields)) => result matches Ok(list) && is_listing(
                entry_views(list@),
                fields,
            ),
            Ok(_) => result matches Err(own) && own@ == "providers must be an object"@,
        },
{
    let document = match text {
        None => merge_providers(None),
        Some(text) => match parse_json(text) {
            Ok(file) => merge_providers(Some(&file)),
            Err(error) => {
                let mut message = "Invalid config ".to_owned();
                message.append(path);
                message.append(": ");
                message.append(error.as_str());
                return Err(message);
            },
        },
    };
    match document {
        Json::Object(map) => Ok(map.listing()),
        _ => Err("providers must be an object".to_owned()),
    }
}

/// The keys of providers.
pub open spec fn provider_keys(providers: Seq<(String, Provider)>) -> Seq<Seq<char>> {
    providers.map_values(|entry: (String, Provider)| entry.0@)
}

/// Whether `named` is the provider `given` with `key` as its identifier if it had none.
pub open spec fn is_named(named: Provider, given: Provider, key: Seq<char>) -> bool {
    &&& named.id@ == if given.id@.len() == 0 {
        key
    } else {
        given.id@
    }
    &&& named.label == given.label
    &&& named.mode == given.mode
    &&& named.oauth == given.oauth
    &&& named.api == given.api
}

/// The configuration that the command line and the providers make up, or a message. The providers
/// are given by key.
pub fn load(cli: &Cli, providers: Vec<(String, Provider)>) -> (result: Result<Config, String>)
    ensures
        result is Ok <==> provider_keys(providers@).contains(cli.provider@),
        result matches Err(message) ==> message@ == "Default provider "@ + cli.provider@
            + " is not configured"@,
        result matches Ok(config) ==> {
            &&& config.admin_port == cli.admin_port
            &&& config.oauth_port == cli.oauth_port
            &&& config.host@ == cli.host@
            &&& config.public_host@ == cli.public_host@
            &&& config.db_path@ == cli.db_path@
            &&& config.request_log_path@ == or_default(
                opt_string(cli.request_log_path),
                default_log_path(cli.db_path@),
            )
            &&& config.log_bodies == cli.log_bodies
            &&& config.port_range == cli.port_range
            &&& config.default_provider@ == cli.provider@
            &&& provider_keys(config.providers@) == provider_keys(providers@)
            &&& forall|i: int|
                0 <= i < providers@.len() ==> is_named(
                    (#[trigger] config.providers@[i]).1,
                    providers@[i].1,
                    providers@[i].0@,
                )
        },
{
    let ghost given = providers@;
    let mut typed: Vec<(String, Provider)> = Vec::new();
    let mut found = false;
    for entry in it: providers
        invariant
            it.seq() == given,
            typed@.len() == it.index(),
            found == (exists|i: int| 0 <= i < it.index() && (#[trigger] given[i]).0@ == cli.provider@),
            forall|i: int|
                0 <= i < it.index() ==> {
                    &&& (#[trigger] typed@[i]).0@ == given[i].0@
                    &&& is_named(typed@[i].1, given[i].1, given[i].0@)
                },
    {
        let (key, mut provider) = entry;
        if text_eq(key.as_str(), cli.provider.as_str()) {
            found = true;
            assert(given[it.index() as int].0@ == cli.provider@);
        }
        if provider.id.as_str().is_empty() {
            provider.id = key.clone();
        }
        typed.push((key, provider));
    }
    proof {
        if found {
            let i = choose|i: int| 0 <= i < given.len() && (#[trigger] given[i]).0@ == cli.provider@;
            assert(provider_keys(given)[i] == cli.provider@);
        }
        if provider_keys(given).contains(cli.provider@) {
            let i = choose|i: int|
                0 <= i < given.len() && provider_keys(given)[i] == cli.provider@;
            assert(given[i].0@ == cli.provider@);
        }
        assert(provider_keys(typed@) =~= provider_keys(given));
    }
    if !found {
        let mut message = "Default provider ".to_owned();
        message.append(cli.provider.as_str());
        message.append(" is not configured");
        return Err(message);
    }
    Ok(
        Config {
            admin_port: cli.admin_port,
            oauth_port: cli.oauth_port,
            host: cli.host.clone(),
            public_host: cli.public_host.clone(),
            db_path: cli.db_path.clone(),
            request_log_path: match &cli.request_log_path {
                Some(path) => path.clone(),
                None => default_path(cli.db_path.as_str()),
            },
            log_bodies: cli.log_bodies,
            port_range: cli.port_range,
            default_provider: cli.provider.clone(),
            providers: typed,
        },
    )
}

/// The position of the provider with this key; nothing if there is none.
pub open spec fn provider_position(providers: Seq<(String, Provider)>, id: Seq<char>) -> Option<int>
    decreases providers.len(),
{
    if providers.len() == 0 {
        None
    } else if providers.last().0@ == id {
        Some(providers.len() - 1)
    } else {
        provider_position(providers.drop_last(), id)
    }
}

impl Config {
    /// The provider with this key.
    pub open spec fn provider(&self, id: Seq<char>) -> Option<Provider> {
        match provider_position(self.providers@, id) {
            Some(at) => Some(self.providers@[at].1),
            None => None,
        }
    }

    /// The provider with this key.
    pub fn find_provider(&self, id: &str) -> (provider: Option<&Provider>)
        ensures
            self.provider(id@) == (match provider {
                Some(provider) => Some(*provider),
                None => None,
            }),
    {
        let n = self.providers.len();
        let mut i = n;
        assert(self.providers@.take(n as int) =~= self.providers@);
        while i > 0
            invariant
                i <= n,
                n == self.providers@.len(),
                provider_position(self.providers@, id@) == provider_position(
                    self.providers@.take(i as int),
                    id@,
                ),
            decreases i,
        {
            assert(self.providers@.take(i as int).drop_last() =~= self.providers@.take(i - 1));
            if text_eq(self.providers[i - 1].0.as_str(), id) {
                return Some(&self.providers[i - 1].1);
            }
            i = i - 1;
        }
        None
    }
}

/// A configuration file changes what it mentions and nothing else: a file without a field `path` of
/// the ChatGPT provider's interface leaves its default, one with a text there replaces it.
pub proof fn law_file_overrides_defaults(file: JsonView, path: Seq<char>)
    requires
        file.get("providers"@) matches Some(overrides) ==> overrides is Object,
        file.get2("providers"@, "chatgpt"@) matches Some(provider) ==> provider is Object,
        file.get("providers"@) matches Some(overrides) ==> (overrides.get2("chatgpt"@, "api"@)
            matches Some(api) ==> api is Object),
    ensures
        ({
            let written = match file.get2("providers"@, "chatgpt"@) {
                Some(provider) => provider.get2("api"@, path),
                None => None,
            };
            let effective = match providers_with(Some(file)).get("chatgpt"@) {
                Some(provider) => provider.get2("api"@, path),
                None => None,
            };
            &&& written is None ==> effective == default_api().get(path)
            &&& written matches Some(JsonView::String(text)) ==> effective == Some(json_str(text))
        }),
{
    let chatgpt = default_document().get("chatgpt"@)->0;
    assert(chatgpt.get("api"@) == Some(default_api()));
    if let Some(overrides) = file.get("providers"@) {
        crate::merge::law_overlay_wins(default_document(), overrides, "chatgpt"@);
        if let Some(provider) = overrides.get("chatgpt"@) {
            crate::merge::law_overlay_wins(chatgpt, provider, "api"@);
            if let Some(api) = provider.get("api"@) {
                crate::merge::law_overlay_wins(default_api(), api, path);
            }
        }
    }
}

proof fn lemma_decimal_digits(n: nat)
    ensures
        decimal(n).len() > 0,
        digits_value(decimal(n)) == Some(n as int),
        forall|i: int| 0 <= i < decimal(n).len() ==> '0' <= (#[trigger] decimal(n)[i]) <= '9',
    decreases n,
{
    if n < 10 {
        let digit = ('0' as u8 + n) as char;
        assert(decimal(n) =~= seq![digit]);
        assert(decimal(n).drop_last() =~= Seq::<char>::empty());
        assert(digits_value(Seq::<char>::empty()) == Some(0int));
        assert(digit_of(digit) == Some(n as int));
    } else {
        let digit = ('0' as u8 + n % 10) as char;
        lemma_decimal_digits(n / 10);
        let text = decimal(n);
        assert(text.drop_last() =~= decimal(n / 10));
        assert(digit_of(digit) == Some((n % 10) as int));
        assert forall|i: int| 0 <= i < text.len() implies '0' <= (#[trigger] text[i]) <= '9' by {
            if i < text.len() - 1 {
                assert(text[i] == decimal(n / 10)[i]);
            }
        }
    }
}

/// A port is read from its decimal digits, with or without a plus sign; 0 and what is beyond 65535
/// are refused.
pub proof fn law_ports_are_decimal_numbers(n: nat, label: Seq<char>)
    ensures
        0 < n <= 65535 ==> parsed_port(decimal(n), label) == Ok::<u16, Seq<char>>(n as u16),
        0 < n <= 65535 ==> parsed_port(seq!['+'] + decimal(n), label) == Ok::<u16, Seq<char>>(
            n as u16,
        ),
        n == 0 || n > 65535 ==> parsed_port(decimal(n), label) == Err::<u16, Seq<char>>(
            label + " must be a TCP port between 1 and 65535"@,
        ),
        parsed_port(Seq::empty(), label) is Err,
{
    lemma_decimal_digits(n);
    let signed = seq!['+'] + decimal(n);
    assert(signed.skip(1) =~= decimal(n));
    assert('0' <= decimal(n)[0] <= '9');
}

/// What is not made of digits is no port.
pub proof fn law_other_texts_are_no_ports(text: Seq<char>, label: Seq<char>, i: int)
    requires
        0 <= i < text.len(),
        !('0' <= text[i] <= '9'),
        i > 0 || text[i] != '+',
    ensures
        parsed_port(text, label) is Err,
{
    let digits = if text[0] == '+' {
        text.skip(1)
    } else {
        text
    };
    let at = if text[0] == '+' {
        i - 1
    } else {
        i
    };
    assert(digits[at] == text[i]);
    let head = digits.take(at + 1);
    assert(head.last() == text[i]);
    assert(digits_value(head) is None);
    lemma_digits_prefix(digits, at + 1);
}

/// A range is read from its two ports with a hyphen between them, white space around it aside; one
/// that ends before it starts is refused.
pub proof fn law_ranges_are_two_ports(start: nat, end: nat)
    requires
        0 < start <= 65535,
        0 < end <= 65535,
    ensures
        start <= end ==> parsed_range(decimal(start) + seq!['-'] + decimal(end)) == Ok::<
            PortRange,
            Seq<char>,
        >(PortRange { start: start as u16, end: end as u16 }),
        start > end ==> parsed_range(decimal(start) + seq!['-'] + decimal(end)) is Err,
{
    lemma_decimal_digits(start);
    lemma_decimal_digits(end);
    let first = decimal(start);
    let last = decimal(end);
    let text = first + seq!['-'] + last;
    assert('0' <= first[0] <= '9');
    assert('0' <= last[last.len() - 1] <= '9');
    assert(text[0] == first[0]);
    assert(text.last() == last[last.len() - 1]);
    assert(trimmed(text) == text);
    crate::text::lemma_first_pos_is(text, '-', first.len() as int);
    assert(text.take(first.len() as int) =~= first);
    assert(text.skip(first.len() as int + 1) =~= last);
    law_ports_are_decimal_numbers(start, "port range start"@);
    law_ports_are_decimal_numbers(end, "port range end"@);
}

/// Whether a text is an option that takes a value.
pub open spec fn takes_value(arg: Seq<char>) -> bool {
    arg == "--admin-port"@ || arg == "--oauth-port"@ || arg == "--host"@ || arg == "--public-host"@
        || arg == "--db"@ || arg == "--request-log"@ || arg == "--sqlite"@ || arg == "--config"@ || arg
        == "--port-range"@ || arg == "--provider"@
}

proof fn lemma_options(arg: Seq<char>)
    requires
        takes_value(arg),
    ensures
        has_prefix(arg, "--"@),
        !asks_help(arg),
        !is_switch(arg),
        "--admin-port"@ != "--oauth-port"@,
        "--admin-port"@ != "--host"@,
        "--oauth-port"@ != "--host"@,
        "--admin-port"@ != "--public-host"@,
        "--oauth-port"@ != "--public-host"@,
        "--host"@ != "--public-host"@,
        forall|other: Seq<char>|
            (other == "--admin-port"@ || other == "--oauth-port"@ || other == "--host"@ || other
                == "--public-host"@) ==> {
                &&& #[trigger] other.len() >= 0
                &&& other != "--db"@
                &&& other != "--request-log"@
                &&& other != "--sqlite"@
                &&& other != "--config"@
                &&& other != "--port-range"@
                &&& other != "--provider"@
            },
        "--db"@ != "--request-log"@,
        "--db"@ != "--sqlite"@,
        "--db"@ != "--config"@,
        "--db"@ != "--port-range"@,
        "--db"@ != "--provider"@,
        "--request-log"@ != "--config"@,
        "--request-log"@ != "--port-range"@,
        "--request-log"@ != "--provider"@,
        "--sqlite"@ != "--config"@,
        "--sqlite"@ != "--port-range"@,
        "--sqlite"@ != "--provider"@,
        "--config"@ != "--port-range"@,
        "--config"@ != "--provider"@,
        "--port-range"@ != "--provider"@,
{
    reveal_strlit("--admin-port");
    reveal_strlit("--oauth-port");
    reveal_strlit("--host");
    reveal_strlit("--public-host");
    reveal_strlit("--db");
    reveal_strlit("--request-log");
    reveal_strlit("--sqlite");
    reveal_strlit("--config");
    reveal_strlit("--port-range");
    reveal_strlit("--provider");
    reveal_strlit("--help");
    reveal_strlit("-h");
    reveal_strlit("--log-bodies");
    reveal_strlit("--purge-bodies");
    reveal_strlit("--");
    assert("--admin-port"@.len() == 12 && "--oauth-port"@.len() == 12 && "--host"@.len() == 6);
    assert("--public-host"@.len() == 13 && "--db"@.len() == 4 && "--request-log"@.len() == 13);
    assert("--sqlite"@.len() == 8 && "--config"@.len() == 8 && "--port-range"@.len() == 12);
    assert("--provider"@.len() == 10 && "--help"@.len() == 6 && "-h"@.len() == 2);
    assert("--log-bodies"@.len() == 12 && "--purge-bodies"@.len() == 14 && "--"@.len() == 2);
    assert("-h"@[1] != "--"@[1]);
    assert("--host"@[3] != "--help"@[3]);
    assert("--sqlite"@[2] != "--config"@[2]);
    assert("--admin-port"@[2] != "--oauth-port"@[2]);
    assert("--admin-port"@[2] != "--port-range"@[2]);
    assert("--admin-port"@[2] != "--log-bodies"@[2]);
    assert("--oauth-port"@[2] != "--port-range"@[2]);
    assert("--oauth-port"@[2] != "--log-bodies"@[2]);
    assert("--port-range"@[2] != "--log-bodies"@[2]);
    assert("--public-host"@[2] != "--request-log"@[2]);
    assert(arg[0] == '-' && arg[1] == '-');
    assert(arg.take(2) =~= "--"@);
}

proof fn lemma_more_arguments(
    cli: CliView,
    args: Seq<Seq<char>>,
    i: int,
    cwd: Seq<char>,
    arg: Seq<char>,
    value: Seq<char>,
)
    requires
        0 <= i <= args.len(),
        takes_value(arg),
        !has_prefix(value, "--"@),
    ensures
        with_arguments(cli, args, i, cwd) matches Ok(after) ==> with_arguments(
            cli,
            args.push(arg).push(value),
            i,
            cwd,
        ) == with_option(after, arg, value, cwd),
        with_arguments(cli, args, i, cwd) matches Err(message) ==> with_arguments(
            cli,
            args.push(arg).push(value),
            i,
            cwd,
        ) == Err::<CliView, Seq<char>>(message),
    decreases args.len() - i,
{
    lemma_options(arg);
    let more = args.push(arg).push(value);
    if i == args.len() {
        assert(more[i] == arg);
        assert(more[i + 1] == value);
        if let Ok(next) = with_option(cli, arg, value, cwd) {
            assert(with_arguments(next, more, i + 2, cwd) == Ok::<CliView, Seq<char>>(next));
        }
    } else {
        let first = args[i];
        assert(more[i] == first);
        let valued = i + 1 < args.len() && !has_prefix(args[i + 1], "--"@);
        if i + 1 < args.len() {
            assert(more[i + 1] == args[i + 1]);
        } else {
            assert(more[i + 1] == arg);
        }
        if asks_help(first) {
            lemma_more_arguments(CliView { help: true, ..cli }, args, i + 1, cwd, arg, value);
        } else if is_switch(first) {
            if valued {
                if let Ok(on) = parsed_flag(args[i + 1], first) {
                    lemma_more_arguments(
                        with_switch(cli, first, on),
                        args,
                        i + 2,
                        cwd,
                        arg,
                        value,
                    );
                }
            } else {
                lemma_more_arguments(with_switch(cli, first, true), args, i + 1, cwd, arg, value);
            }
        } else if valued {
            if let Ok(next) = with_option(cli, first, args[i + 1], cwd) {
                lemma_more_arguments(next, args, i + 2, cwd, arg, value);
            }
        }
    }
}

/// An option sets what it is named after and nothing else, whatever the environment and the
/// arguments before it say: a port must be one, a range must be one, and a path is seen from the
/// current directory.
pub proof fn law_options_set_what_they_name(
    args: Seq<Seq<char>>,
    env: Environment,
    cwd: Seq<char>,
    value: Seq<char>,
)
    requires
        is_absolute(cwd),
        !has_prefix(value, "--"@),
        parsed_args(args, env, cwd) is Ok,
    ensures
        ({
            let cli = parsed_args(args, env, cwd)->Ok_0;
            let path = if value.len() > 0 && value[0] == '/' {
                value
            } else if cwd.last() == '/' {
                cwd + value
            } else {
                cwd + seq!['/'] + value
            };
            &&& parsed_args(args.push("--host"@).push(value), env, cwd) == Ok::<CliView, Seq<char>>(
                CliView { host: value, ..cli },
            )
            &&& parsed_args(args.push("--public-host"@).push(value), env, cwd) == Ok::<
                CliView,
                Seq<char>,
            >(CliView { public_host: value, ..cli })
            &&& parsed_args(args.push("--provider"@).push(value), env, cwd) == Ok::<
                CliView,
                Seq<char>,
            >(CliView { provider: value, ..cli })
            &&& parsed_args(args.push("--db"@).push(value), env, cwd) == Ok::<CliView, Seq<char>>(
                CliView { db_path: path, ..cli },
            )
            &&& parsed_args(args.push("--config"@).push(value), env, cwd) == Ok::<
                CliView,
                Seq<char>,
            >(CliView { config_path: path, ..cli })
            &&& parsed_args(args.push("--request-log"@).push(value), env, cwd) == Ok::<
                CliView,
                Seq<char>,
            >(CliView { request_log_path: Some(path), ..cli })
            &&& parsed_args(args.push("--sqlite"@).push(value), env, cwd) == Ok::<
                CliView,
                Seq<char>,
            >(CliView { request_log_path: Some(path), ..cli })
            &&& forall|port: u16|
                value == #[trigger] decimal(port as nat) && port > 0 ==> {
                    &&& parsed_args(args.push("--admin-port"@).push(value), env, cwd) == Ok::<
                        CliView,
                        Seq<char>,
                    >(CliView { admin_port: port, ..cli })
                    &&& parsed_args(args.push("--oauth-port"@).push(value), env, cwd) == Ok::<
                        CliView,
                        Seq<char>,
                    >(CliView { oauth_port: port, ..cli })
                }
            &&& forall|start: u16, end: u16|
                value == #[trigger] decimal(start as nat) + seq!['-'] + #[trigger] decimal(
                    end as nat,
                ) && 0 < start <= end ==> parsed_args(
                    args.push("--port-range"@).push(value),
                    env,
                    cwd,
                ) == Ok::<CliView, Seq<char>>(CliView { port_range: PortRange { start, end }, ..cli })
        }),
{
    let first = cli_of_environment(env, cwd)->Ok_0;
    let after = with_arguments(first, args, 0, cwd)->Ok_0;
    assert forall|arg: Seq<char>| #[trigger] takes_value(arg) implies with_arguments(
        first,
        args.push(arg).push(value),
        0,
        cwd,
    ) == with_option(after, arg, value, cwd) by {
        lemma_more_arguments(first, args, 0, cwd, arg, value);
    }
    assert(takes_value("--host"@));
    assert(takes_value("--public-host"@));
    assert(takes_value("--provider"@));
    assert(takes_value("--db"@));
    assert(takes_value("--config"@));
    assert(takes_value("--request-log"@));
    assert(takes_value("--sqlite"@));
    assert(takes_value("--admin-port"@));
    assert(takes_value("--oauth-port"@));
    assert(takes_value("--port-range"@));
    lemma_options("--host"@);
    assert("--host"@.len() >= 0 && "--public-host"@.len() >= 0 && "--admin-port"@.len() >= 0
        && "--oauth-port"@.len() >= 0);
    let path = absolute_view(value, cwd);
    assert(is_absolute(path));
    assert(cwd.push('/') + value =~= cwd + seq!['/'] + value);
    assert forall|port: u16| value == #[trigger] decimal(port as nat) && port > 0 implies
        parsed_port(value, "--admin-port"@) == Ok::<u16, Seq<char>>(port) && parsed_port(
        value,
        "--oauth-port"@,
    ) == Ok::<u16, Seq<char>>(port) by {
        law_ports_are_decimal_numbers(port as nat, "--admin-port"@);
        law_ports_are_decimal_numbers(port as nat, "--oauth-port"@);
    }
    assert forall|start: u16, end: u16|
        value == #[trigger] decimal(start as nat) + seq!['-'] + #[trigger] decimal(end as nat) && 0
            < start <= end implies parsed_range(value) == Ok::<PortRange, Seq<char>>(
        PortRange { start, end },
    ) by {
        law_ranges_are_two_ports(start as nat, end as nat);
    }
}

/// A switch is turned on by its name alone, help is asked for by either of two names, and an option
/// without its value is refused.
pub proof fn law_switches_stand_alone(args: Seq<Seq<char>>, env: Environment, cwd: Seq<char>)
    requires
        args.len() == 1,
        is_absolute(cwd),
        cli_of_environment(env, cwd) is Ok,
    ensures
        ({
            let start = parsed_args(Seq::empty(), env, cwd)->Ok_0;
            &&& args[0] == "--log-bodies"@ ==> parsed_args(args, env, cwd) == Ok::<
                CliView,
                Seq<char>,
            >(CliView { log_bodies: true, ..start })
            &&& args[0] == "--purge-bodies"@ ==> parsed_args(args, env, cwd) == Ok::<
                CliView,
                Seq<char>,
            >(CliView { purge_bodies: true, ..start })
            &&& args[0] == "--help"@ || args[0] == "-h"@ ==> parsed_args(args, env, cwd) == Ok::<
                CliView,
                Seq<char>,
            >(CliView { help: true, ..start })
            &&& takes_value(args[0]) ==> parsed_args(args, env, cwd) == Err::<CliView, Seq<char>>(
                "Missing value for "@ + args[0],
            )
        }),
{
    reveal_strlit("--help");
    reveal_strlit("-h");
    reveal_strlit("--log-bodies");
    reveal_strlit("--purge-bodies");
    assert("--help"@.len() == 6 && "-h"@.len() == 2 && "--log-bodies"@.len() == 12);
    assert("--purge-bodies"@.len() == 14);
    if takes_value(args[0]) {
        lemma_options(args[0]);
    }
    reveal_with_fuel(with_arguments, 3);
}

/// A switch is turned on or off by the word behind it, in capital letters or small ones.
pub proof fn law_words_turn_switches(
    args: Seq<Seq<char>>,
    env: Environment,
    cwd: Seq<char>,
)
    requires
        args.len() == 2,
        args[0] == "--log-bodies"@ || args[0] == "--purge-bodies"@,
        !has_prefix(args[1], "--"@),
        cli_of_environment(env, cwd) is Ok,
    ensures
        ({
            let word = lower(args[1]);
            let yes = word == "1"@ || word == "true"@ || word == "yes"@;
            let no = word == "0"@ || word == "false"@ || word == "no"@;
            &&& parsed_args(args, env, cwd) is Ok <==> yes || no
            &&& args[0] == "--log-bodies"@ && yes ==> parsed_args(args, env, cwd)->Ok_0.log_bodies
            &&& args[0] == "--log-bodies"@ && no ==> !parsed_args(args, env, cwd)->Ok_0.log_bodies
            &&& args[0] == "--purge-bodies"@ && yes ==> parsed_args(
                args,
                env,
                cwd,
            )->Ok_0.purge_bodies
            &&& args[0] == "--purge-bodies"@ && no ==> !parsed_args(
                args,
                env,
                cwd,
            )->Ok_0.purge_bodies
            &&& args[0] == "--purge-bodies"@ && (yes || no) ==> parsed_args(
                args,
                env,
                cwd,
            )->Ok_0.log_bodies == cli_of_environment(env, cwd)->Ok_0.log_bodies
        }),
{
    reveal_strlit("--help");
    reveal_strlit("-h");
    reveal_strlit("--log-bodies");
    reveal_strlit("--purge-bodies");
    reveal_strlit("1");
    reveal_strlit("true");
    reveal_strlit("yes");
    reveal_strlit("0");
    reveal_strlit("false");
    reveal_strlit("no");
    assert("--help"@.len() == 6 && "-h"@.len() == 2 && "--log-bodies"@.len() == 12);
    assert("--purge-bodies"@.len() == 14 && "1"@.len() == 1 && "true"@.len() == 4);
    assert("yes"@.len() == 3 && "0"@.len() == 1 && "false"@.len() == 5 && "no"@.len() == 2);
    assert("1"@[0] != "0"@[0]);
    assert("-h"@[0] != "no"@[0]);
    reveal_with_fuel(with_arguments, 3);
}

/// Without arguments the environment decides, variable by variable, and what it leaves open has its
/// default.
pub proof fn law_environment_comes_before_defaults(env: Environment, cwd: Seq<char>)
    requires
        cli_of_environment(env, cwd) is Ok,
    ensures
        ({
            let cli = cli_of_environment(env, cwd)->Ok_0;
            &&& env.admin_port is None ==> cli.admin_port == 17800
            &&& env.admin_port is Some ==> parsed_port(
                env.admin_port->0@,
                "ORCHE_PROXY_ADMIN_PORT"@,
            ) == Ok::<u16, Seq<char>>(cli.admin_port)
            &&& env.oauth_port is None ==> cli.oauth_port == 1455
            &&& env.oauth_port is Some ==> parsed_port(
                env.oauth_port->0@,
                "ORCHE_PROXY_OAUTH_PORT"@,
            ) == Ok::<u16, Seq<char>>(cli.oauth_port)
            &&& env.port_range is Some ==> parsed_range(env.port_range->0@) == Ok::<
                PortRange,
                Seq<char>,
            >(cli.port_range)
            &&& env.port_range is None ==> parsed_range("18001-18100"@) == Ok::<
                PortRange,
                Seq<char>,
            >(cli.port_range)
            &&& env.host is Some ==> cli.host == env.host->0@
            &&& env.host is None ==> cli.host == "127.0.0.1"@
            &&& env.public_host is Some ==> cli.public_host == env.public_host->0@
            &&& env.public_host is None ==> cli.public_host == "localhost"@
            &&& env.db is Some ==> cli.db_path == env.db->0@
            &&& env.db is None ==> cli.db_path == joined_path(cwd, "orche-proxy.db.json"@)
            &&& env.config is Some ==> cli.config_path == env.config->0@
            &&& env.config is None ==> cli.config_path == joined_path(
                cwd,
                "orche-proxy.config.json"@,
            )
            &&& env.request_log is Some ==> cli.request_log_path == Some(env.request_log->0@)
            &&& env.request_log is None ==> cli.request_log_path is None
            &&& env.provider is Some ==> cli.provider == env.provider->0@
            &&& env.provider is None ==> cli.provider == "chatgpt"@
            &&& cli.log_bodies <==> env.log_bodies is Some && (lower(env.log_bodies->0@) == "1"@
                || lower(env.log_bodies->0@) == "true"@ || lower(env.log_bodies->0@) == "yes"@)
            &&& !cli.purge_bodies && !cli.help
        }),
{
}

/// ChatGPT is known without a file: who it is, how its accounts log in and where it is reached.
pub proof fn law_chatgpt_is_known_by_default()
    ensures
        ({
            let known = default_document().get("chatgpt"@)->0;
            let oauth = known.get("oauth"@)->0;
            let api = known.get("api"@)->0;
            &&& providers_with(None) == default_document()
            &&& default_document().get("chatgpt"@) is Some
            &&& known.str_at("id"@) == Some("chatgpt"@)
            &&& known.str_at("label"@) == Some("ChatGPT Plus/Pro"@)
            &&& known.str_at("mode"@) == Some("responses-adapter"@)
            &&& oauth.str_at("issuer"@) == Some("https://auth.openai.com"@)
            &&& oauth.str_at("authorizeUrl"@) == Some("https://auth.openai.com/oauth/authorize"@)
            &&& oauth.str_at("tokenUrl"@) == Some("https://auth.openai.com/oauth/token"@)
            &&& oauth.str_at("revokeUrl"@) == Some("https://auth.openai.com/oauth/revoke"@)
            &&& oauth.str_at("clientId"@) == Some("app_EMoamEEZ73f0CkXaXp7hrann"@)
            &&& oauth.str_at("redirectPath"@) == Some("/auth/callback"@)
            &&& oauth.str_at("scope"@) == Some(
                "openid profile email offline_access api.connectors.read api.connectors.invoke"@,
            )
            &&& oauth.str_at2("extraAuthorizeParams"@, "id_token_add_organizations"@) == Some(
                "true"@,
            )
            &&& oauth.str_at2("extraAuthorizeParams"@, "codex_cli_simplified_flow"@) == Some("true"@)
            &&& oauth.str_at2("extraAuthorizeParams"@, "originator"@) == Some("ai_proxy"@)
            &&& api.str_at("baseUrl"@) == Some("https://chatgpt.com/backend-api/codex"@)
            &&& api.str_at("modelsPath"@) == Some("/models?client_version=0.153.0"@)
            &&& api.str_at("responsesPath"@) == Some("/responses"@)
            &&& api.str_at("usageUrl"@) == Some("https://chatgpt.com/backend-api/wham/usage"@)
            &&& api.str_at("userAgent"@) == Some("ai_proxy"@ + "/"@ + "0.1.0"@)
        }),
{
    reveal_strlit("id");
    reveal_strlit("label");
    reveal_strlit("mode");
    reveal_strlit("oauth");
    reveal_strlit("api");
    reveal_strlit("issuer");
    reveal_strlit("authorizeUrl");
    reveal_strlit("tokenUrl");
    reveal_strlit("revokeUrl");
    reveal_strlit("clientId");
    reveal_strlit("scope");
    reveal_strlit("redirectPath");
    reveal_strlit("extraAuthorizeParams");
    reveal_strlit("originator");
    reveal_strlit("codex_cli_simplified_flow");
    reveal_strlit("id_token_add_organizations");
    reveal_strlit("baseUrl");
    reveal_strlit("modelsPath");
    reveal_strlit("responsesPath");
    reveal_strlit("usageUrl");
    reveal_strlit("chatCompletionsPath");
    reveal_strlit("userAgent");
    reveal_strlit("headers");
    assert("id"@.len() == 2 && "label"@.len() == 5 && "mode"@.len() == 4 && "oauth"@.len() == 5);
    assert("api"@.len() == 3 && "issuer"@.len() == 6 && "authorizeUrl"@.len() == 12);
    assert("tokenUrl"@.len() == 8 && "revokeUrl"@.len() == 9 && "clientId"@.len() == 8);
    assert("scope"@.len() == 5 && "redirectPath"@.len() == 12);
    assert("extraAuthorizeParams"@.len() == 20 && "originator"@.len() == 10);
    assert("codex_cli_simplified_flow"@.len() == 25 && "id_token_add_organizations"@.len() == 26);
    assert("baseUrl"@.len() == 7 && "modelsPath"@.len() == 10 && "responsesPath"@.len() == 13);
    assert("usageUrl"@.len() == 8 && "chatCompletionsPath"@.len() == 19 && "userAgent"@.len() == 9);
    assert("headers"@.len() == 7);
    assert("label"@[0] != "oauth"@[0]);
    assert("label"@[0] != "scope"@[0]);
    assert("oauth"@[0] != "scope"@[0]);
    assert("baseUrl"@[0] != "headers"@[0]);
    assert("tokenUrl"@[0] != "clientId"@[0]);
    assert("tokenUrl"@[0] != "usageUrl"@[0]);
    assert("clientId"@[0] != "usageUrl"@[0]);
    assert("revokeUrl"@[0] != "userAgent"@[0]);
    assert("originator"@[0] != "modelsPath"@[0]);
    assert("authorizeUrl"@[0] != "redirectPath"@[0]);
}

proof fn lemma_provider_position(providers: Seq<(String, Provider)>, id: Seq<char>)
    ensures
        match provider_position(providers, id) {
            Some(at) => {
                &&& 0 <= at < providers.len()
                &&& providers[at].0@ == id
                &&& forall|i: int| at < i < providers.len() ==> (#[trigger] providers[i]).0@ != id
            },
            None => forall|i: int| 0 <= i < providers.len() ==> (#[trigger] providers[i]).0@ != id,
        },
    decreases providers.len(),
{
    if providers.len() > 0 && providers.last().0@ != id {
        let short = providers.drop_last();
        lemma_provider_position(short, id);
        assert forall|i: int|
            0 <= i < providers.len() && (provider_position(providers, id) is None || i
                > provider_position(providers, id)->0) implies (#[trigger] providers[i]).0@ != id by {
            if i < short.len() {
                assert(short[i].0@ != id);
            }
        }
    }
}

/// A provider is found by its key, and only by it.
pub proof fn law_provider_is_found_by_its_key(config: Config, id: Seq<char>, i: int)
    requires
        forall|a: int, b: int|
            0 <= a < b < config.providers@.len() ==> (#[trigger] config.providers@[a]).0@ != (
            #[trigger] config.providers@[b]).0@,
    ensures
        0 <= i < config.providers@.len() ==> config.provider(config.providers@[i].0@) == Some(
            config.providers@[i].1,
        ),
        (forall|k: int| 0 <= k < config.providers@.len() ==> (#[trigger] config.providers@[k]).0@ != id)
            ==> config.provider(id) is None,
{
    lemma_provider_position(config.providers@, id);
    if 0 <= i < config.providers@.len() {
        lemma_provider_position(config.providers@, config.providers@[i].0@);
        let at = provider_position(config.providers@, config.providers@[i].0@)->0;
        assert(config.providers@[at].0@ == config.providers@[i].0@);
    }
    if let Some(at) = provider_position(config.providers@, id) {
        assert(config.providers@[at].0@ == id);
    }
}

/// An argument that is no option is refused by its name, and so is one that is no argument at all.
pub proof fn law_unknown_arguments_are_refused(
    arg: Seq<char>,
    value: Seq<char>,
    env: Environment,
    cwd: Seq<char>,
)
    requires
        cli_of_environment(env, cwd) is Ok,
        !takes_value(arg),
        arg != "--log-bodies"@,
        arg != "--purge-bodies"@,
        arg != "--help"@,
        arg != "-h"@,
        !has_prefix(value, "--"@),
    ensures
        parsed_args(seq![arg, value], env, cwd) == Err::<CliView, Seq<char>>(
            "Unknown argument: "@ + arg,
        ),
        parsed_args(seq![arg], env, cwd) == Err::<CliView, Seq<char>>("Missing value for "@ + arg),
{
    let start = cli_of_environment(env, cwd)->Ok_0;
    assert(with_arguments(start, seq![arg, value], 0, cwd) is Err);
    assert(with_arguments(start, seq![arg], 0, cwd) is Err);
}

/// A file that is no JSON is refused with its path; one that is changes the defaults as it says.
pub proof fn law_file_must_be_json(path: Seq<char>, text: Seq<char>)
    ensures
        providers_of(path, None) == Ok::<JsonView, Seq<char>>(default_document()),
        parsed(text) is Err ==> providers_of(path, Some(text)) == Err::<JsonView, Seq<char>>(
            "Invalid config "@ + path + ": "@ + parsed(text)->Err_0,
        ),
        parsed(text) is Ok ==> providers_of(path, Some(text)) == Ok::<JsonView, Seq<char>>(
            providers_with(Some(parsed(text)->Ok_0)),
        ),
        parsed(text) is Ok && parsed(text)->Ok_0.get("providers"@) is None ==> providers_with(
            Some(parsed(text)->Ok_0),
        ) == default_document(),
{
}

/// The paths that the environment gives are seen from the current directory, as those of the command
/// line are.
pub proof fn law_paths_of_the_environment_are_absolute(env: Environment, cwd: Seq<char>)
    requires
        is_absolute(cwd),
        cwd.last() != '/',
        cli_of_environment(env, cwd) is Ok,
    ensures
        ({
            let cli = parsed_args(Seq::empty(), env, cwd)->Ok_0;
            &&& parsed_args(Seq::empty(), env, cwd) is Ok
            &&& env.db is Some && env.db->0@.len() > 0 && env.db->0@[0] == '/' ==> cli.db_path
                == env.db->0@
            &&& env.db is Some && env.db->0@.len() > 0 && env.db->0@[0] != '/' ==> cli.db_path == cwd
                + seq!['/'] + env.db->0@
            &&& env.db is None ==> cli.db_path == cwd + seq!['/'] + "orche-proxy.db.json"@
            &&& env.config is Some && env.config->0@.len() > 0 && env.config->0@[0] != '/'
                ==> cli.config_path == cwd + seq!['/'] + env.config->0@
            &&& env.config is None ==> cli.config_path == cwd + seq!['/']
                + "orche-proxy.config.json"@
            &&& env.request_log is Some && env.request_log->0@.len() > 0 && env.request_log->0@[0]
                != '/' ==> cli.request_log_path == Some(cwd + seq!['/'] + env.request_log->0@)
            &&& env.request_log is None ==> cli.request_log_path is None
        }),
{
    let start = cli_of_environment(env, cwd)->Ok_0;
    reveal_strlit("orche-proxy.db.json");
    reveal_strlit("orche-proxy.config.json");
    assert(with_arguments(start, Seq::empty(), 0, cwd) == Ok::<CliView, Seq<char>>(start));
    let db = cwd.push('/') + "orche-proxy.db.json"@;
    let file = cwd.push('/') + "orche-proxy.config.json"@;
    assert(db[0] == '/' && file[0] == '/');
    assert(db =~= cwd + seq!['/'] + "orche-proxy.db.json"@);
    assert(file =~= cwd + seq!['/'] + "orche-proxy.config.json"@);
    if env.db is Some {
        assert(cwd.push('/') + env.db->0@ =~= cwd + seq!['/'] + env.db->0@);
    }
    if env.config is Some {
        assert(cwd.push('/') + env.config->0@ =~= cwd + seq!['/'] + env.config->0@);
    }
    if env.request_log is Some {
        assert(cwd.push('/') + env.request_log->0@ =~= cwd + seq!['/'] + env.request_log->0@);
    }
}

/// White space around a range of ports makes no difference.
pub proof fn law_space_around_a_range_is_no_matter(value: Seq<char>, c: char)
    requires
        whitespace(c),
        parsed_range(value) is Ok,
    ensures
        parsed_range(seq![c] + value) == parsed_range(value),
        parsed_range(value.push(c)) == parsed_range(value),
{
    let before = seq![c] + value;
    assert(before.skip(1) =~= value);
    assert(trim_start(before) == trim_start(value));
    let after = value.push(c);
    crate::text::lemma_trim_both(value, c);
    assert(trimmed(after) == trimmed(value));
}

}
