//! Application configuration assembled from plain values: the caller
//! (the process edge) reads the environment and hands the raw optional
//! strings in; the defaulting rules, the container table and the port
//! parsing are decided and verified here. Missing required values
//! surface as explicit errors rather than ambient panics.

use vstd::prelude::*;

use crate::strutil::{is_digit, str_eq};

verus! {

/// The two Cosmos containers and their layout.
#[derive(Debug, Clone, PartialEq)]
pub struct ContainerConfig {
    pub name: String,
    pub partition_key: String,
    pub throughput: Option<i32>,
}

/// One named entry of the container table.
#[derive(Debug, Clone, PartialEq)]
pub struct ContainerEntry {
    pub key: String,
    pub config: ContainerConfig,
}

/// Connection settings for the document database.
#[derive(Debug, Clone, PartialEq)]
pub struct CosmosConfig {
    pub uri: String,
    pub database_name: String,
    pub containers: Vec<ContainerEntry>,
    pub primary_key: String,
}

/// Where the server listens.
#[derive(Debug, Clone, PartialEq)]
pub struct ServerConfig {
    pub host: String,
    pub port: u16,
}

/// The application configuration.
#[derive(Debug, Clone, PartialEq)]
pub struct AppConfig {
    pub cosmos: CosmosConfig,
    pub server: ServerConfig,
}

/// Which required environment value was missing.
#[derive(Debug, Clone, Copy, PartialEq, Eq, Structural)]
pub enum ConfigError {
    MissingUri,
    MissingDatabase,
    MissingKey,
}

pub open spec fn config_error_message(e: ConfigError) -> Seq<char> {
    match e {
        ConfigError::MissingUri => "COSMOS_DB_URI environment variable not set"@,
        ConfigError::MissingDatabase => "COSMOS_DB_DATABASE environment variable not set"@,
        ConfigError::MissingKey => (
        "COSMOS_DB_KEY environment variable not set. This is required for development."
        )@,
    }
}

impl ConfigError {
    /// The error text shown for this missing value.
    pub fn message(&self) -> (r: &'static str)
        ensures
            r@ == config_error_message(*self),
    {
        match self {
            ConfigError::MissingUri => "COSMOS_DB_URI environment variable not set",
            ConfigError::MissingDatabase => "COSMOS_DB_DATABASE environment variable not set",
            ConfigError::MissingKey => "COSMOS_DB_KEY environment variable not set. This is required for development.",
        }
    }
}

/// The numeric value of a digit string.
pub open spec fn digits_val(s: Seq<char>) -> int
    decreases s.len(),
{
    if s.len() == 0 {
        0
    } else {
        digits_val(s.drop_last()) * 10 + (s.last() as u32 - 0x30)
    }
}

pub open spec fn all_digits(s: Seq<char>) -> bool {
    s.len() > 0 && forall|i: int| 0 <= i < s.len() ==> is_digit(#[trigger] s[i])
}

/// What a non-negative digit string parses to as a `u16`.
pub open spec fn u16_digits(s: Seq<char>) -> Option<u16> {
    if all_digits(s) && digits_val(s) <= 65535 {
        Option::Some(digits_val(s) as u16)
    } else {
        Option::None
    }
}

/// What `str::parse::<u16>` accepts: an optional leading `+`, then
/// one or more digits whose value fits.
pub open spec fn parse_u16_spec(s: Seq<char>) -> Option<u16> {
    if s.len() >= 1 && s[0] == '+' {
        u16_digits(s.drop_first())
    } else {
        u16_digits(s)
    }
}

proof fn lemma_digits_val_nonneg(s: Seq<char>)
    requires
        forall|i: int| 0 <= i < s.len() ==> is_digit(#[trigger] s[i]),
    ensures
        digits_val(s) >= 0,
    decreases s.len(),
{
    if s.len() > 0 {
        lemma_digits_val_nonneg(s.drop_last());
    }
}

/// Parses the digits of `s` from position `from` on.
fn parse_digits_from(s: &str, from: usize) -> (r: Option<u16>)
    requires
        from <= s@.len(),
    ensures
        r == u16_digits(s@.skip(from as int)),
{
    let ghost d = s@.skip(from as int);
    let n = s.unicode_len();
    if from == n {
        return None;
    }
    let mut acc: u32 = 0;
    let mut over = false;
    let mut i: usize = from;
    while i < n
        invariant
            from <= i <= n,
            n == s@.len(),
            d == s@.skip(from as int),
            forall|m: int| 0 <= m < i - from ==> is_digit(#[trigger] d[m]),
            !over ==> acc == digits_val(d.take(i - from)) && acc <= 65535,
            over ==> digits_val(d.take(i - from)) > 65535,
        decreases n - i,
    {
        let c = s.get_char(i);
        proof {
            assert(d[i - from] == s@[i as int]);
        }
        if !crate::strutil::digit_char(c) {
            return None;
        }
        let dv: u32 = (c as u32) - 0x30;
        proof {
            assert(d.take(i + 1 - from) =~= d.take(i - from) + seq![d[i - from]]);
            assert(d.take(i + 1 - from).drop_last() =~= d.take(i - from));
            assert(d.take(i + 1 - from).last() == d[i - from]);
            assert forall|m: int| 0 <= m < i + 1 - from implies is_digit(#[trigger] d[m]) by {}
            if over {
                let old_val = digits_val(d.take(i - from));
                assert(old_val * 10 >= old_val) by (nonlinear_arith)
                    requires
                        old_val >= 0,
                ;
                lemma_digits_val_nonneg(d.take(i - from));
            }
        }
        if !over {
            let wide: u32 = acc * 10 + dv;
            if wide > 65535 {
                over = true;
            } else {
                acc = wide;
            }
        }
        i = i + 1;
    }
    proof {
        assert(d.take(n - from) =~= d);
        assert(all_digits(d));
    }
    if over {
        None
    } else {
        Some(acc as u16)
    }
}

/// Parses a `u16` the way `str::parse` does: an optional leading `+`
/// and one or more decimal digits, `None` on anything else or on
/// overflow.
pub fn parse_u16(s: &str) -> (r: Option<u16>)
    ensures
        r == parse_u16_spec(s@),
{
    let n = s.unicode_len();
    if n >= 1 && s.get_char(0) == '+' {
        let r = parse_digits_from(s, 1);
        proof {
            assert(s@.skip(1) =~= s@.drop_first());
        }
        r
    } else {
        let r = parse_digits_from(s, 0);
        proof {
            assert(s@.skip(0) =~= s@);
        }
        r
    }
}

/// The port the server uses for the given optional setting text:
/// parseable values are taken, everything else falls back to 3000.
pub open spec fn port_of(port_text: Option<String>) -> u16 {
    match port_text {
        Option::Some(t) => match parse_u16_spec(t@) {
            Option::Some(p) => p,
            Option::None => 3000,
        },
        Option::None => 3000,
    }
}

/// Builds the application configuration from the raw environment
/// values. The three Cosmos settings are required, in this order of
/// checking; container names, host and port fall back to defaults.
pub fn from_env_values(
    uri: Option<String>,
    database: Option<String>,
    key: Option<String>,
    blogs_container: Option<String>,
    books_container: Option<String>,
    host: Option<String>,
    port_text: Option<String>,
) -> (r: Result<AppConfig, ConfigError>)
    ensures
        uri is None ==> r == Result::<AppConfig, ConfigError>::Err(ConfigError::MissingUri),
        uri is Some && database is None ==> r == Result::<AppConfig, ConfigError>::Err(
            ConfigError::MissingDatabase,
        ),
        uri is Some && database is Some && key is None ==> r == Result::<
            AppConfig,
            ConfigError,
        >::Err(ConfigError::MissingKey),
        r is Ok <==> (uri is Some && database is Some && key is Some),
        r matches Ok(c) ==> {
            &&& c.cosmos.uri == uri.unwrap()
            &&& c.cosmos.database_name == database.unwrap()
            &&& c.cosmos.primary_key == key.unwrap()
            &&& c.cosmos.containers@.len() == 2
            &&& c.cosmos.containers@[0].key@ == "blogs"@
            &&& c.cosmos.containers@[0].config.name@ == (match blogs_container {
                Option::Some(n) => n@,
                Option::None => "posts"@,
            })
            &&& c.cosmos.containers@[0].config.partition_key@ == "author"@
            &&& c.cosmos.containers@[0].config.throughput == Option::Some(400i32)
            &&& c.cosmos.containers@[1].key@ == "books"@
            &&& c.cosmos.containers@[1].config.name@ == (match books_container {
                Option::Some(n) => n@,
                Option::None => "books"@,
            })
            &&& c.cosmos.containers@[1].config.partition_key@ == "category"@
            &&& c.cosmos.containers@[1].config.throughput == Option::Some(400i32)
            &&& c.server.host@ == (match host {
                Option::Some(h) => h@,
                Option::None => "0.0.0.0"@,
            })
            &&& c.server.port == port_of(port_text)
        },
{
    let uri = match uri {
        Option::Some(u) => u,
        Option::None => {
            return Err(ConfigError::MissingUri);
        },
    };
    let database = match database {
        Option::Some(d) => d,
        Option::None => {
            return Err(ConfigError::MissingDatabase);
        },
    };
    let key = match key {
        Option::Some(k) => k,
        Option::None => {
            return Err(ConfigError::MissingKey);
        },
    };
    let blogs_name = match blogs_container {
        Option::Some(n) => n,
        Option::None => String::from_str("posts"),
    };
    let books_name = match books_container {
        Option::Some(n) => n,
        Option::None => String::from_str("books"),
    };
    let host = match host {
        Option::Some(h) => h,
        Option::None => String::from_str("0.0.0.0"),
    };
    let port: u16 = match port_text {
        Option::Some(t) => match parse_u16(t.as_str()) {
            Option::Some(p) => p,
            Option::None => 3000,
        },
        Option::None => 3000,
    };
    let mut containers: Vec<ContainerEntry> = Vec::new();
    containers.push(
        ContainerEntry {
            key: String::from_str("blogs"),
            config: ContainerConfig {
                name: blogs_name,
                partition_key: String::from_str("author"),
                throughput: Some(400),
            },
        },
    );
    containers.push(
        ContainerEntry {
            key: String::from_str("books"),
            config: ContainerConfig {
                name: books_name,
                partition_key: String::from_str("category"),
                throughput: Some(400),
            },
        },
    );
    Ok(
        AppConfig {
            cosmos: CosmosConfig { uri, database_name: database, containers, primary_key: key },
            server: ServerConfig { host, port },
        },
    )
}

/// The first container entry carrying `key`, if any.
pub open spec fn lookup_container(entries: Seq<ContainerEntry>, key: Seq<char>) -> Option<
    ContainerConfig,
>
    decreases entries.len(),
{
    if entries.len() == 0 {
        Option::None
    } else if entries[0].key@ == key {
        Option::Some(entries[0].config)
    } else {
        lookup_container(entries.drop_first(), key)
    }
}

impl AppConfig {
    /// Looks a container type up in the configuration table.
    pub fn get_container_config(&self, container_type: &str) -> (r: Option<&ContainerConfig>)
        ensures
            match r {
                Option::Some(c) => lookup_container(self.cosmos.containers@, container_type@)
                    == Option::Some(*c),
                Option::None => lookup_container(
                    self.cosmos.containers@,
                    container_type@,
                ) is None,
            },
    {
        let n = self.cosmos.containers.len();
        let mut i: usize = 0;
        proof {
            assert(self.cosmos.containers@.skip(0) =~= self.cosmos.containers@);
        }
        while i < n
            invariant
                i <= n,
                n == self.cosmos.containers@.len(),
                lookup_container(self.cosmos.containers@, container_type@) == lookup_container(
                    self.cosmos.containers@.skip(i as int),
                    container_type@,
                ),
            decreases n - i,
        {
            let ghost suf = self.cosmos.containers@.skip(i as int);
            let entry = &self.cosmos.containers[i];
            proof {
                assert(suf[0] == self.cosmos.containers@[i as int]);
                assert(suf.drop_first() =~= self.cosmos.containers@.skip(i + 1));
            }
            if str_eq(entry.key.as_str(), container_type) {
                return Some(&entry.config);
            }
            i = i + 1;
        }
        proof {
            assert(self.cosmos.containers@.skip(n as int) =~= Seq::<ContainerEntry>::empty());
        }
        None
    }
}

} // verus!
