//! The settings of the proxy, from the command line and the environment.
//!
//! Each setting can come from a flag or from an environment variable.  A flag
//! wins over a variable, and a variable over the default.
use crate::text;
use vstd::prelude::*;

verus! {

/// Compositor socket to connect to, unless a setting says otherwise.
pub const DEFAULT_DISPLAY: &'static str = "wayland-1";

/// Log filter, unless a setting says otherwise.
pub const DEFAULT_LOG_LEVEL: &'static str = "info";

/// Socket to listen on, unless a setting says otherwise.
pub const DEFAULT_LISTEN: &'static str = "wayland-proxy-0";

/// How the proxy is to run.
#[derive(Debug)]
pub struct Cli {
    /// Compositor socket to connect to, by its name in the runtime directory.
    pub display: String,
    /// File that every relayed message is recorded to.
    pub record: Option<String>,
    /// Log filter.
    pub log_level: String,
    /// Socket that the proxy listens on.
    pub listen: String,
}

/// The texts of a [`Cli`].
pub struct CliModel {
    pub display: Seq<char>,
    pub record: Option<Seq<char>>,
    pub log_level: Seq<char>,
    pub listen: Seq<char>,
}

impl View for Cli {
    type V = CliModel;

    open spec fn view(&self) -> CliModel {
        CliModel {
            display: self.display@,
            record: text::text_opt(self.record),
            log_level: self.log_level@,
            listen: self.listen@,
        }
    }
}

/// The settings that one source gives, as far as it gives them.
#[derive(Debug)]
pub struct Settings {
    pub display: Option<String>,
    pub record: Option<String>,
    pub log_level: Option<String>,
    pub listen: Option<String>,
}

/// The texts of [`Settings`].
pub struct SettingsModel {
    pub display: Option<Seq<char>>,
    pub record: Option<Seq<char>>,
    pub log_level: Option<Seq<char>>,
    pub listen: Option<Seq<char>>,
}

impl View for Settings {
    type V = SettingsModel;

    open spec fn view(&self) -> SettingsModel {
        SettingsModel {
            display: text::text_opt(self.display),
            record: text::text_opt(self.record),
            log_level: text::text_opt(self.log_level),
            listen: text::text_opt(self.listen),
        }
    }
}

/// Why a command line gives no settings.
#[derive(Debug)]
pub struct Refusal {
    /// What to tell the user.
    pub text: String,
    /// Whether the command line was wrong, rather than a request for help.
    pub is_error: bool,
}

/// The first of two sources that gives a setting.
pub open spec fn first_given(flag: Option<Seq<char>>, variable: Option<Seq<char>>) -> Option<
    Seq<char>,
> {
    match flag {
        Some(_) => flag,
        None => variable,
    }
}

/// The first of two sources that gives a setting, or else the default.
pub open spec fn given_or(
    flag: Option<Seq<char>>,
    variable: Option<Seq<char>>,
    default: Seq<char>,
) -> Seq<char> {
    match first_given(flag, variable) {
        Some(s) => s,
        None => default,
    }
}

/// What the flags and the variables come to together.
pub open spec fn settled(flags: SettingsModel, variables: SettingsModel) -> CliModel {
    CliModel {
        display: given_or(flags.display, variables.display, DEFAULT_DISPLAY@),
        record: first_given(flags.record, variables.record),
        log_level: given_or(flags.log_level, variables.log_level, DEFAULT_LOG_LEVEL@),
        listen: given_or(flags.listen, variables.listen, DEFAULT_LISTEN@),
    }
}

/// The names of the flags, without the dashes.
pub open spec fn flag_names() -> Seq<Seq<char>> {
    seq!["display"@, "record"@, "log-level"@, "listen"@]
}

/// The values that `clap` finds for the options of the given names, each taking
/// one value, on a command line that starts with the program's name.  Where it
/// finds none: whether the command line is wrong, rather than a request for
/// help.
pub uninterp spec fn found_values(names: Seq<Seq<char>>, args: Seq<Seq<char>>) -> Result<
    Seq<Option<Seq<char>>>,
    bool,
>;

/// The names in a list of names and descriptions.
pub open spec fn names_of(options: Seq<(&'static str, &'static str)>) -> Seq<Seq<char>> {
    options.map_values(|o: (&'static str, &'static str)| o.0@)
}

/// `clap::Command::try_get_matches_from` on a command with one `clap::Arg` per
/// option, and `clap::ArgMatches::remove_one` for each of them; for a refusal,
/// `clap::Error::use_stderr`.
///
/// The values depend on the options' names and on the command line alone, and
/// so does whether a refusal is an error.  With nothing but the program's name
/// on it the command line is accepted and no option has a value.  Nothing is
/// said of a refusal's text, which `clap` composes.
#[verifier::external_body]
fn find_values(
    program: &'static str,
    about: &'static str,
    options: &Vec<(&'static str, &'static str)>,
    args: Vec<String>,
) -> (r: Result<Vec<Option<String>>, Refusal>)
    requires
        names_of(options@) == flag_names(),
    ensures
        r is Ok <==> found_values(names_of(options@), text::texts(args@)) is Ok,
        r is Ok ==> r->Ok_0@.map_values(|v: Option<String>| text::text_opt(v)) == found_values(
            names_of(options@),
            text::texts(args@),
        )->Ok_0,
        r is Err ==> r->Err_0.is_error == found_values(
            names_of(options@),
            text::texts(args@),
        )->Err_0,
        r is Ok ==> r->Ok_0@.len() == options@.len(),
        args@.len() <= 1 ==> r is Ok && forall|i: int|
            0 <= i < options@.len() ==> #[trigger] r->Ok_0@[i] is None,
{
    let arg = |o: &(&'static str, &'static str)| clap::Arg::new(o.0).long(o.0).help(o.1);
    let command = clap::Command::new(program).about(about).args(options.iter().map(arg));
    match command.try_get_matches_from(args) {
        Ok(mut found) => Ok(options.iter().map(|o| found.remove_one::<String>(o.0)).collect()),
        Err(e) => Err(Refusal { text: e.to_string(), is_error: e.use_stderr() }),
    }
}

/// The settings in the order of [`flag_names`].
pub open spec fn settings_of(values: Seq<Option<Seq<char>>>) -> SettingsModel {
    SettingsModel {
        display: values[0],
        record: values[1],
        log_level: values[2],
        listen: values[3],
    }
}

/// The given setting, or else the default.
fn or_default(setting: Option<String>, default: &str) -> (r: String)
    ensures
        r@ == given_or(text::text_opt(setting), None, default@),
{
    match setting {
        Some(s) => s,
        None => default.to_string(),
    }
}

/// The first of two sources; see [`first_given`].
fn or_else(flag: Option<String>, variable: Option<String>) -> (r: Option<String>)
    ensures
        text::text_opt(r) == first_given(text::text_opt(flag), text::text_opt(variable)),
{
    match flag {
        Some(s) => Some(s),
        None => variable,
    }
}

impl Settings {
    /// A source that gives nothing.
    pub fn none() -> (r: Settings)
        ensures
            r@ == (SettingsModel { display: None, record: None, log_level: None, listen: None }),
    {
        Settings { display: None, record: None, log_level: None, listen: None }
    }
}

impl Cli {
    /// Brings the flags and the variables together.
    pub fn settle(flags: Settings, variables: Settings) -> (r: Cli)
        ensures
            r@ == settled(flags@, variables@),
    {
        Cli {
            display: or_default(or_else(flags.display, variables.display), DEFAULT_DISPLAY),
            record: or_else(flags.record, variables.record),
            log_level: or_default(
                or_else(flags.log_level, variables.log_level),
                DEFAULT_LOG_LEVEL,
            ),
            listen: or_default(or_else(flags.listen, variables.listen), DEFAULT_LISTEN),
        }
    }

    /// Reads a command line that starts with the program's name.  `variables`
    /// holds what the environment gives.
    pub fn try_parse_from(args: Vec<String>, variables: Settings) -> (r: Result<Cli, Refusal>)
        ensures
            r is Ok <==> found_values(flag_names(), text::texts(args@)) is Ok,
            r matches Ok(cli) ==> cli@ == settled(
                settings_of(found_values(flag_names(), text::texts(args@))->Ok_0),
                variables@,
            ),
            r matches Err(refusal) ==> refusal.is_error == found_values(
                flag_names(),
                text::texts(args@),
            )->Err_0,
            args@.len() <= 1 ==> r is Ok && r->Ok_0@ == settled(
                SettingsModel { display: None, record: None, log_level: None, listen: None },
                variables@,
            ),
    {
        let mut options: Vec<(&'static str, &'static str)> = Vec::new();
        options.push(
            (
                "display",
                "Compositor socket to connect to [env: WAYLAND_DISPLAY] [default: wayland-1]",
            ),
        );
        options.push(
            (
                "record",
                "Record every relayed message to this file [env: WAYLAND_PROXY_RECORD]",
            ),
        );
        options.push(("log-level", "Log filter [env: RUST_LOG] [default: info]"));
        options.push(
            (
                "listen",
                "Socket name to listen on [env: WAYLAND_PROXY_LISTEN] [default: wayland-proxy-0]",
            ),
        );
        assert(names_of(options@) =~= flag_names());
        let mut values = match find_values(
            "wayland-proxy",
            "A crash-resilient Wayland proxy",
            &options,
            args,
        ) {
            Ok(values) => values,
            Err(refusal) => return Err(refusal),
        };
        let ghost found = values@.map_values(|v: Option<String>| text::text_opt(v));
        let listen = values.pop().unwrap();
        let log_level = values.pop().unwrap();
        let record = values.pop().unwrap();
        let display = values.pop().unwrap();
        proof {
            assert(text::text_opt(display) == found[0]);
            assert(text::text_opt(record) == found[1]);
            assert(text::text_opt(log_level) == found[2]);
            assert(text::text_opt(listen) == found[3]);
        }
        Ok(Cli::settle(Settings { display, record, log_level, listen }, variables))
    }
}

/// A flag wins over a variable, whatever that holds, and a variable over the
/// default.
pub proof fn lemma_precedence(flags: SettingsModel, variables: SettingsModel)
    ensures
        flags.display matches Some(s) ==> settled(flags, variables).display == s,
        flags.record is Some ==> settled(flags, variables).record == flags.record,
        flags.log_level matches Some(s) ==> settled(flags, variables).log_level == s,
        flags.listen matches Some(s) ==> settled(flags, variables).listen == s,
        flags.display is None ==> (variables.display matches Some(s) ==> settled(
            flags,
            variables,
        ).display == s),
        flags.record is None ==> settled(flags, variables).record == variables.record,
        flags.log_level is None ==> (variables.log_level matches Some(s) ==> settled(
            flags,
            variables,
        ).log_level == s),
        flags.listen is None ==> (variables.listen matches Some(s) ==> settled(
            flags,
            variables,
        ).listen == s),
{
}

} // verus!
