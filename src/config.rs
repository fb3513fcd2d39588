use vstd::prelude::*;

verus! {

/// Seconds a chunk request may take before it is abandoned.
pub const UPLOAD_TIMEOUT_SECS: u64 = 300;

/// Seconds between two sweeps of the reaper.
pub const CLEANUP_INTERVAL_SECS: u64 = 10;

/// Seconds without a chunk or heartbeat after which an upload is stale.
pub const UPLOAD_STALE_TIMEOUT_SECS: i64 = 60;

/// Seconds without contact after which a client is stale.
pub const CLIENT_STALE_TIMEOUT_SECS: i64 = 120;

/// Seconds granted to open connections when shutting down.
pub const SHUTDOWN_GRACE_SECS: u64 = 3;

/// Rows per page of the admin listing.
pub const DEFAULT_PAGE_SIZE: i64 = 100;

/// The running configuration. Durations are in seconds.
pub struct AppConfig {
    pub max_file_size: u64,
    pub chunk_size: u64,
    pub upload_dir: String,
    pub upload_port: u16,
    pub admin_port: u16,
    pub tunnel_domain: String,
    pub tunnel_provider: String,
    pub upload_timeout: u64,
    pub cleanup_interval: u64,
    pub upload_stale_timeout: i64,
    pub client_stale_timeout: i64,
    pub shutdown_grace_period: u64,
    pub default_page_size: i64,
}

/// The command-line options, sizes still as text (such as `100GiB`).
pub struct Args {
    pub max_file_size: String,
    pub chunk_size: String,
    pub upload_port: u16,
    pub admin_port: u16,
    pub upload_dir: String,
    pub tunnel_domain: String,
    pub tunnel_provider: String,
    pub verbose: bool,
}

/// Why the options give no configuration.
pub enum ConfigError {
    /// This size text is not a byte size.
    InvalidFileSize(String),
}

/// The byte count that byte-unit reads in a size text, if any.
pub uninterp spec fn parsed_byte_size(s: Seq<char>) -> Option<u64>;

/// Relies on `byte_unit::Byte::parse_str` (units read case-insensitively)
/// and `Byte::as_u64`: the byte count a text such as `4MiB` denotes, which
/// depends on the text alone; an empty text is refused.
#[verifier::external_body]
fn parse_file_size(size_str: &str) -> (r: Option<u64>)
    ensures
        r == parsed_byte_size(size_str@),
        size_str@.len() == 0 ==> r is None,
{
    byte_unit::Byte::parse_str(size_str, true).ok().map(|b| b.as_u64())
}

impl AppConfig {
    /// `self` is the configuration for `args` with the given byte sizes.
    pub open spec fn configures(&self, args: Args, max_file_size: u64, chunk_size: u64) -> bool {
        &&& self.max_file_size == max_file_size
        &&& self.chunk_size == chunk_size
        &&& self.upload_dir@ == args.upload_dir@
        &&& self.upload_port == args.upload_port
        &&& self.admin_port == args.admin_port
        &&& self.tunnel_domain@ == args.tunnel_domain@
        &&& self.tunnel_provider@ == args.tunnel_provider@
        &&& self.upload_timeout == UPLOAD_TIMEOUT_SECS
        &&& self.cleanup_interval == CLEANUP_INTERVAL_SECS
        &&& self.upload_stale_timeout == UPLOAD_STALE_TIMEOUT_SECS
        &&& self.client_stale_timeout == CLIENT_STALE_TIMEOUT_SECS
        &&& self.shutdown_grace_period == SHUTDOWN_GRACE_SECS
        &&& self.default_page_size == DEFAULT_PAGE_SIZE
    }
}

impl Args {
    /// The configuration for these options once their size texts were read:
    /// refused with the offending text (the maximum file size first) when one
    /// was not a size.
    pub fn config_with_sizes(&self, max_file_size: Option<u64>, chunk_size: Option<u64>) -> (r: Result<
        AppConfig,
        ConfigError,
    >)
        ensures
            r matches Ok(c) ==> max_file_size is Some && chunk_size is Some && c.configures(
                *self,
                max_file_size->0,
                chunk_size->0,
            ),
            r matches Err(ConfigError::InvalidFileSize(t)) ==> (max_file_size is None && t@
                == self.max_file_size@) || (max_file_size is Some && chunk_size is None && t@
                == self.chunk_size@),
            r is Err ==> max_file_size is None || chunk_size is None,
    {
        let max = match max_file_size {
            Some(v) => v,
            None => {
                return Err(ConfigError::InvalidFileSize(self.max_file_size.clone()));
            },
        };
        let chunk = match chunk_size {
            Some(v) => v,
            None => {
                return Err(ConfigError::InvalidFileSize(self.chunk_size.clone()));
            },
        };
        Ok(
            AppConfig {
                max_file_size: max,
                chunk_size: chunk,
                upload_dir: self.upload_dir.clone(),
                upload_port: self.upload_port,
                admin_port: self.admin_port,
                tunnel_domain: self.tunnel_domain.clone(),
                tunnel_provider: self.tunnel_provider.clone(),
                upload_timeout: UPLOAD_TIMEOUT_SECS,
                cleanup_interval: CLEANUP_INTERVAL_SECS,
                upload_stale_timeout: UPLOAD_STALE_TIMEOUT_SECS,
                client_stale_timeout: CLIENT_STALE_TIMEOUT_SECS,
                shutdown_grace_period: SHUTDOWN_GRACE_SECS,
                default_page_size: DEFAULT_PAGE_SIZE,
            },
        )
    }

    /// The configuration these options give, their sizes read by byte-unit.
    pub fn to_config(&self) -> (r: Result<AppConfig, ConfigError>)
        ensures
            r matches Ok(c) ==> parsed_byte_size(self.max_file_size@) is Some && parsed_byte_size(
                self.chunk_size@,
            ) is Some && c.configures(
                *self,
                parsed_byte_size(self.max_file_size@)->0,
                parsed_byte_size(self.chunk_size@)->0,
            ),
            r matches Err(ConfigError::InvalidFileSize(t)) ==> (parsed_byte_size(self.max_file_size@) is None
                && t@ == self.max_file_size@) || (parsed_byte_size(self.max_file_size@) is Some
                && parsed_byte_size(self.chunk_size@) is None && t@ == self.chunk_size@),
            r is Err ==> parsed_byte_size(self.max_file_size@) is None || parsed_byte_size(
                self.chunk_size@,
            ) is None,
    {
        let max = parse_file_size(self.max_file_size.as_str());
        let chunk = parse_file_size(self.chunk_size.as_str());
        self.config_with_sizes(max, chunk)
    }
}

} // verus!
