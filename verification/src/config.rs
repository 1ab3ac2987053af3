//! The configuration: defaults, the configuration file, and overrides from the environment.
use vstd::prelude::*;

use crate::text::{
    accepted_numbers, decimal, decimal_reads_back, number_value, parse_number, NumberError,
};

verus! {

/// The environment variable that overrides the port.
pub const ENV_PORT: &'static str = "WHCANRC_PORT";

/// The environment variable that overrides the log level.
pub const ENV_LOG_LEVEL: &'static str = "WHCANRC_LOG_LEVEL";

/// The environment variable that overrides the sample rate.
pub const ENV_AUDIO_SAMPLE_RATE: &'static str = "WHCANRC_AUDIO_SAMPLE_RATE";

/// The environment variable that overrides the number of channels.
pub const ENV_AUDIO_CHANNELS: &'static str = "WHCANRC_AUDIO_CHANNELS";

/// The server's configuration.
#[derive(Debug, Clone)]
pub struct Config {
    pub port: u16,
    pub log_level: String,
    pub audio_sample_rate: u32,
    pub audio_channels: u16,
}

/// What a configuration amounts to.
pub struct ConfigView {
    pub port: u16,
    pub log_level: Seq<char>,
    pub audio_sample_rate: u32,
    pub audio_channels: u16,
}

impl View for Config {
    type V = ConfigView;

    open spec fn view(&self) -> ConfigView {
        ConfigView {
            port: self.port,
            log_level: self.log_level@,
            audio_sample_rate: self.audio_sample_rate,
            audio_channels: self.audio_channels,
        }
    }
}

/// The configuration where nothing else is said.
pub open spec fn default_config() -> ConfigView {
    ConfigView {
        port: 8080,
        log_level: "info"@,
        audio_sample_rate: 48000,
        audio_channels: 1,
    }
}

/// What a configuration file says; what it leaves out is `None`.
#[derive(Debug, Clone)]
pub struct ConfigFile {
    pub port: Option<u16>,
    pub log_level: Option<String>,
    pub audio_sample_rate: Option<u32>,
    pub audio_channels: Option<u16>,
}

/// The environment variables that are set.
#[derive(Debug, Clone)]
pub struct Overrides {
    pub port: Option<String>,
    pub log_level: Option<String>,
    pub audio_sample_rate: Option<String>,
    pub audio_channels: Option<String>,
}

/// An environment variable that does not hold a number of the wanted range.
#[derive(Debug, Clone, Copy, PartialEq, Eq, Structural)]
pub enum ConfigError {
    Port(NumberError),
    AudioSampleRate(NumberError),
    AudioChannels(NumberError),
}

impl ConfigError {
    /// What is wrong with the variable.
    pub open spec fn reason(self) -> NumberError {
        match self {
            ConfigError::Port(e) => e,
            ConfigError::AudioSampleRate(e) => e,
            ConfigError::AudioChannels(e) => e,
        }
    }

    /// Describes the error in one sentence.
    pub fn message(&self) -> (r: String)
        ensures
            r@ == self.reason().text(),
    {
        match self {
            ConfigError::Port(e) => e.message(),
            ConfigError::AudioSampleRate(e) => e.message(),
            ConfigError::AudioChannels(e) => e.message(),
        }
    }
}

impl Default for Config {
    fn default() -> (r: Config)
        ensures
            r@ == default_config(),
    {
        Config {
            port: 8080,
            log_level: "info".to_string(),
            audio_sample_rate: 48000,
            audio_channels: 1,
        }
    }
}

/// The value that the file gives, or else the default one.
pub open spec fn given_or<T>(given: Option<T>, default: T) -> T {
    match given {
        Some(value) => value,
        None => default,
    }
}

/// The text that is given, or else the default one.
pub open spec fn given_text_or(given: Option<String>, default: Seq<char>) -> Seq<char> {
    match given {
        Some(value) => value@,
        None => default,
    }
}

/// The configuration of a file: what it leaves out has its default value.
pub open spec fn file_config(file: ConfigFile) -> ConfigView {
    ConfigView {
        port: given_or(file.port, default_config().port),
        log_level: given_text_or(file.log_level, default_config().log_level),
        audio_sample_rate: given_or(file.audio_sample_rate, default_config().audio_sample_rate),
        audio_channels: given_or(file.audio_channels, default_config().audio_channels),
    }
}

/// The configuration with the overrides applied. The first override in this order that is not a
/// number of the wanted range is the error: port, sample rate, channels.
pub open spec fn overridden(base: ConfigView, overrides: Overrides) -> Result<
    ConfigView,
    ConfigError,
> {
    let port = override_number(overrides.port, u16::MAX as nat, base.port as nat);
    let rate = override_number(
        overrides.audio_sample_rate,
        u32::MAX as nat,
        base.audio_sample_rate as nat,
    );
    let channels = override_number(
        overrides.audio_channels,
        u16::MAX as nat,
        base.audio_channels as nat,
    );
    match (port, rate, channels) {
        (Err(e), _, _) => Err(ConfigError::Port(e)),
        (_, Err(e), _) => Err(ConfigError::AudioSampleRate(e)),
        (_, _, Err(e)) => Err(ConfigError::AudioChannels(e)),
        (Ok(p), Ok(s), Ok(c)) => Ok(
            ConfigView {
                port: p as u16,
                log_level: given_text_or(overrides.log_level, base.log_level),
                audio_sample_rate: s as u32,
                audio_channels: c as u16,
            },
        ),
    }
}

/// The configuration of the file, if there is one, or the default one, with the overrides applied.
pub open spec fn loaded(file: Option<ConfigFile>, overrides: Overrides) -> Result<
    ConfigView,
    ConfigError,
> {
    overridden(
        match file {
            Some(f) => file_config(f),
            None => default_config(),
        },
        overrides,
    )
}

/// The number that an override spells, or else the value it would override.
pub open spec fn override_number(given: Option<String>, max: nat, current: nat) -> Result<
    nat,
    NumberError,
> {
    match given {
        Some(value) => number_value(value@, max),
        None => Ok(current),
    }
}

/// Reads the override if there is one.
fn read_override(given: &Option<String>, max: u32, current: u32) -> (r: Result<u32, NumberError>)
    requires
        current <= max,
    ensures
        match r {
            Ok(n) => override_number(*given, max as nat, current as nat) == Ok::<nat, NumberError>(
                n as nat,
            ) && n <= max,
            Err(e) => override_number(*given, max as nat, current as nat) == Err::<
                nat,
                NumberError,
            >(e),
        },
{
    match given {
        Some(value) => parse_number(value.as_str(), max),
        None => Ok(current),
    }
}

impl Config {
    /// The configuration of a file: what it leaves out has its default value.
    pub fn from_file(file: ConfigFile) -> (r: Config)
        ensures
            r@ == file_config(file),
    {
        let mut config = Config::default();
        if let Some(port) = file.port {
            config.port = port;
        }
        if let Some(log_level) = file.log_level {
            config.log_level = log_level;
        }
        if let Some(audio_sample_rate) = file.audio_sample_rate {
            config.audio_sample_rate = audio_sample_rate;
        }
        if let Some(audio_channels) = file.audio_channels {
            config.audio_channels = audio_channels;
        }
        config
    }

    /// The port of the WebTransport server: the one behind the server's own. Behind the last port
    /// comes zero, with which the system picks one.
    pub fn webtransport_port(&self) -> (r: u16)
        ensures
            r == (self.port + 1) % 65536,
    {
        self.port.wrapping_add(1)
    }

    /// Takes the configuration of the file, if there is one, or the defaults, and applies the
    /// overrides.
    pub fn load(file: Option<ConfigFile>, overrides: Overrides) -> (r: Result<Config, ConfigError>)
        ensures
            match r {
                Ok(config) => loaded(file, overrides) == Ok::<ConfigView, ConfigError>(config@),
                Err(e) => loaded(file, overrides) == Err::<ConfigView, ConfigError>(e),
            },
    {
        let mut config = match file {
            Some(f) => Config::from_file(f),
            None => Config::default(),
        };
        match read_override(&overrides.port, u16::MAX as u32, config.port as u32) {
            Ok(port) => {
                config.port = port as u16;
            },
            Err(e) => {
                return Err(ConfigError::Port(e));
            },
        }
        if let Some(log_level) = overrides.log_level {
            config.log_level = log_level;
        }
        match read_override(&overrides.audio_sample_rate, u32::MAX, config.audio_sample_rate) {
            Ok(audio_sample_rate) => {
                config.audio_sample_rate = audio_sample_rate;
            },
            Err(e) => {
                return Err(ConfigError::AudioSampleRate(e));
            },
        }
        match read_override(
            &overrides.audio_channels,
            u16::MAX as u32,
            config.audio_channels as u32,
        ) {
            Ok(audio_channels) => {
                config.audio_channels = audio_channels as u16;
            },
            Err(e) => {
                return Err(ConfigError::AudioChannels(e));
            },
        }
        Ok(config)
    }
}

/// Every value can be overridden: where all are, the file does not matter.
pub proof fn overrides_win(
    file: Option<ConfigFile>,
    other_file: Option<ConfigFile>,
    overrides: Overrides,
)
    requires
        overrides.port is Some,
        overrides.log_level is Some,
        overrides.audio_sample_rate is Some,
        overrides.audio_channels is Some,
    ensures
        loaded(file, overrides) == loaded(other_file, overrides),
{
}

/// An override that spells a number of the wanted range sets just that value.
pub proof fn spelled_override_sets_its_value(
    base: ConfigView,
    overrides: Overrides,
    port: u16,
    rate: u32,
    channels: u16,
)
    requires
        overrides.port matches Some(text) ==> text@ == decimal(port as nat),
        overrides.audio_sample_rate matches Some(text) ==> text@ == decimal(rate as nat),
        overrides.audio_channels matches Some(text) ==> text@ == decimal(channels as nat),
    ensures
        overridden(base, overrides) == Ok::<ConfigView, ConfigError>(
            ConfigView {
                port: if overrides.port is Some {
                    port
                } else {
                    base.port
                },
                log_level: given_text_or(overrides.log_level, base.log_level),
                audio_sample_rate: if overrides.audio_sample_rate is Some {
                    rate
                } else {
                    base.audio_sample_rate
                },
                audio_channels: if overrides.audio_channels is Some {
                    channels
                } else {
                    base.audio_channels
                },
            },
        ),
{
    decimal_reads_back(port as nat, u16::MAX as nat);
    decimal_reads_back(rate as nat, u32::MAX as nat);
    decimal_reads_back(channels as nat, u16::MAX as nat);
}

/// Where nothing is said anywhere, the configuration is the default one.
pub proof fn defaults_apply(overrides: Overrides)
    requires
        overrides.port is None,
        overrides.log_level is None,
        overrides.audio_sample_rate is None,
        overrides.audio_channels is None,
    ensures
        loaded(None, overrides) == Ok::<ConfigView, ConfigError>(default_config()),
{
}

/// Each value of the file stands on its own: what the file gives is taken, whatever else it gives
/// or leaves out, and what it leaves out has its default value.
pub proof fn file_values_stand_alone(file: ConfigFile, overrides: Overrides)
    requires
        overrides.port is None,
        overrides.log_level is None,
        overrides.audio_sample_rate is None,
        overrides.audio_channels is None,
    ensures
        loaded(Some(file), overrides) matches Ok(config) && {
            &&& file.port matches Some(port) ==> config.port == port
            &&& file.port is None ==> config.port == 8080
            &&& file.log_level matches Some(level) ==> config.log_level == level@
            &&& file.log_level is None ==> config.log_level == "info"@
            &&& file.audio_sample_rate matches Some(rate) ==> config.audio_sample_rate == rate
            &&& file.audio_sample_rate is None ==> config.audio_sample_rate == 48000
            &&& file.audio_channels matches Some(channels) ==> config.audio_channels == channels
            &&& file.audio_channels is None ==> config.audio_channels == 1
        },
{
}

/// Each override stands on its own: it changes its value and no other. The configuration is loaded
/// exactly if every override of a number spells one in range; otherwise the first that does not is
/// the error, in the order port, sample rate, channels.
pub proof fn overrides_stand_alone(file: Option<ConfigFile>, none: Overrides, overrides: Overrides)
    requires
        none.port is None,
        none.log_level is None,
        none.audio_sample_rate is None,
        none.audio_channels is None,
    ensures
        loaded(file, none) matches Ok(base) && match loaded(file, overrides) {
            Ok(config) => {
                &&& overrides.port matches Some(text) ==> number_value(text@, 65535) == Ok::<
                    nat,
                    NumberError,
                >(config.port as nat)
                &&& overrides.port is None ==> config.port == base.port
                &&& overrides.log_level matches Some(text) ==> config.log_level == text@
                &&& overrides.log_level is None ==> config.log_level == base.log_level
                &&& overrides.audio_sample_rate matches Some(text) ==> number_value(
                    text@,
                    4294967295,
                ) == Ok::<nat, NumberError>(config.audio_sample_rate as nat)
                &&& overrides.audio_sample_rate is None ==> config.audio_sample_rate
                    == base.audio_sample_rate
                &&& overrides.audio_channels matches Some(text) ==> number_value(text@, 65535)
                    == Ok::<nat, NumberError>(config.audio_channels as nat)
                &&& overrides.audio_channels is None ==> config.audio_channels
                    == base.audio_channels
            },
            Err(ConfigError::Port(e)) => overrides.port matches Some(text) && number_value(
                text@,
                65535,
            ) == Err::<nat, NumberError>(e),
            Err(ConfigError::AudioSampleRate(e)) => {
                &&& overrides.audio_sample_rate matches Some(text) && number_value(
                    text@,
                    4294967295,
                ) == Err::<nat, NumberError>(e)
                &&& overrides.port matches Some(text) ==> number_value(text@, 65535) is Ok
            },
            Err(ConfigError::AudioChannels(e)) => {
                &&& overrides.audio_channels matches Some(text) && number_value(text@, 65535)
                    == Err::<nat, NumberError>(e)
                &&& overrides.port matches Some(text) ==> number_value(text@, 65535) is Ok
                &&& overrides.audio_sample_rate matches Some(text) ==> number_value(
                    text@,
                    4294967295,
                ) is Ok
            },
        },
{
    if let Some(text) = overrides.port {
        accepted_numbers(text@, 65535);
    }
    if let Some(text) = overrides.audio_sample_rate {
        accepted_numbers(text@, 4294967295);
    }
    if let Some(text) = overrides.audio_channels {
        accepted_numbers(text@, 65535);
    }
}

/// Without a file there are the defaults, as with one that says nothing.
pub proof fn no_file_is_an_empty_file(file: ConfigFile, overrides: Overrides)
    requires
        file.port is None,
        file.log_level is None,
        file.audio_sample_rate is None,
        file.audio_channels is None,
    ensures
        loaded(None, overrides) == loaded(Some(file), overrides),
{
}

/// Whichever value an override is for, the error says what is wrong with its text.
pub proof fn errors_say_what_is_wrong(e: NumberError)
    ensures
        ConfigError::Port(e).reason() == e,
        ConfigError::AudioSampleRate(e).reason() == e,
        ConfigError::AudioChannels(e).reason() == e,
{
}

} // verus!
